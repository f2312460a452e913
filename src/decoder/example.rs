//! The example decoder: a JSON object with a UUID `key` and an integer
//! `value` becomes the row `id`, `v`.
use vstd::prelude::*;

use crate::column::{ColumnValue, ColumnValueV, Row, RowV, Scalar, ScalarV, row_view};

verus! {

/// The example decoder. It holds no state.
pub struct Decoder;

/// The row of a message with key `key` and value `value`.
pub open spec fn example_row(key: u128, value: i64) -> RowV {
    seq![
        ("id"@, ColumnValueV::Scalar(ScalarV::Uuid(key))),
        ("v"@, ColumnValueV::Scalar(ScalarV::Int64(value))),
    ]
}

impl Decoder {
    /// The decoder's name, for diagnostics.
    pub fn get_name(&self) -> (r: String)
        ensures
            r@ == "example"@,
    {
        "example".to_owned()
    }

    /// The row of a message whose key is the UUID `key` and whose value is
    /// `value`.
    pub fn entry_row(&self, key: u128, value: i64) -> (r: Row)
        ensures
            row_view(r@) == example_row(key, value),
    {
        let mut row: Row = Vec::new();
        row.push(("id".to_owned(), ColumnValue::Scalar(Scalar::Uuid(key))));
        row.push(("v".to_owned(), ColumnValue::Scalar(Scalar::Int64(value))));
        assert(row_view(row@) =~= example_row(key, value));
        row
    }
}

} // verus!
