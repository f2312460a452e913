//! Streaming bridge from a partitioned message bus into a columnar database.
//!
//! Each ingester consumes one topic, decodes every message into a row of
//! typed columns, batches the rows and inserts them into one table. Offsets
//! are committed only after the rows they cover have been inserted, so
//! delivery is at least once.
//!
//! The modules here hold the logic: the column model, the Avro schema
//! analysis and value conversion, offset tracking, the batch-and-commit
//! state machine, and the configuration defaults. Talking to the broker and
//! to the database is left to the caller, which feeds events into
//! [`ingester::Ingester`] and performs the actions it returns.
use vstd::prelude::*;

pub mod column;
pub mod decoder;
pub mod offsets;
pub mod ingester;
pub mod settings;

verus! {

} // verus!
