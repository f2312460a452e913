//! Configuration of the ingesters, and its defaults.
use vstd::prelude::*;

verus! {

/// The configuration table of a decoder, carried unread to the decoder
/// that is built from it.
#[verifier::external_type_specification]
#[verifier::external_body]
pub struct ExTomlValue(toml::Value);

/// Rows per insert where none is configured.
pub const DEFAULT_BATCH_SIZE: usize = 1000;

/// Seconds a window waits for the next message where none is configured.
pub const DEFAULT_BATCH_TIMEOUT_SECONDS: u64 = 10;

/// Configuration of one ingester.
pub struct Ingester {
    /// Name of the decoder to use.
    pub decoder: String,
    /// Address of the bootstrap broker.
    pub kafka_broker: String,
    /// Topic to ingest.
    pub topic: String,
    /// Consumer group (default: the ingester's name).
    pub consumer_group: Option<String>,
    /// Largest batch of rows per insert (default: 1000).
    pub batch_size: Option<usize>,
    /// Longest wait for the next message of a window (default: 10 seconds).
    pub batch_timeout_seconds: Option<u64>,
    /// Address of the database.
    pub clickhouse_url: String,
    /// Table to insert into.
    pub clickhouse_table: String,
    /// Decoder-specific configuration.
    pub custom: Option<toml::Value>,
}

/// `after` is `before` with its defaults filled in, for the ingester named
/// `name`: what was configured stays, and what was not takes its default.
pub open spec fn defaulted(name: Seq<char>, before: Ingester, after: Ingester) -> bool {
    &&& after.decoder == before.decoder
    &&& after.kafka_broker == before.kafka_broker
    &&& after.topic == before.topic
    &&& after.clickhouse_url == before.clickhouse_url
    &&& after.clickhouse_table == before.clickhouse_table
    &&& after.custom == before.custom
    &&& after.batch_size == Some(
        match before.batch_size {
            Some(n) => n,
            None => DEFAULT_BATCH_SIZE,
        },
    )
    &&& after.batch_timeout_seconds == Some(
        match before.batch_timeout_seconds {
            Some(n) => n,
            None => DEFAULT_BATCH_TIMEOUT_SECONDS,
        },
    )
    &&& match before.consumer_group {
        Some(g) => after.consumer_group == Some(g),
        None => after.consumer_group is Some && after.consumer_group->Some_0@ == name,
    }
}

impl Ingester {
    /// This configuration with its defaults filled in, for the ingester
    /// named `name`.
    pub fn with_defaults(self, name: &String) -> (r: Ingester)
        ensures
            defaulted(name@, self, r),
    {
        let batch_size = match self.batch_size {
            Some(n) => n,
            None => DEFAULT_BATCH_SIZE,
        };
        let batch_timeout_seconds = match self.batch_timeout_seconds {
            Some(n) => n,
            None => DEFAULT_BATCH_TIMEOUT_SECONDS,
        };
        let consumer_group = match self.consumer_group {
            Some(g) => g,
            None => name.clone(),
        };
        Ingester {
            decoder: self.decoder,
            kafka_broker: self.kafka_broker,
            topic: self.topic,
            consumer_group: Some(consumer_group),
            batch_size: Some(batch_size),
            batch_timeout_seconds: Some(batch_timeout_seconds),
            clickhouse_url: self.clickhouse_url,
            clickhouse_table: self.clickhouse_table,
            custom: self.custom,
        }
    }
}

/// The configuration of all ingesters, by name.
pub struct Settings {
    pub ingesters: Vec<(String, Ingester)>,
}

impl Settings {
    /// The settings of the configured ingesters, in order, with their
    /// defaults filled in.
    pub fn new(ingesters: Vec<(String, Ingester)>) -> (r: Settings)
        ensures
            r.ingesters@.len() == ingesters@.len(),
            forall|i: int|
                0 <= i < ingesters@.len() ==> #[trigger] r.ingesters@[i].0 == ingesters@[i].0
                    && defaulted(ingesters@[i].0@, ingesters@[i].1, r.ingesters@[i].1),
    {
        let ghost orig = ingesters@;
        let mut rest = ingesters;
        let mut out: Vec<(String, Ingester)> = Vec::new();
        while rest.len() > 0
            invariant
                out@.len() + rest@.len() == orig.len(),
                rest@ == orig.subrange(out@.len() as int, orig.len() as int),
                forall|i: int|
                    0 <= i < out@.len() ==> #[trigger] out@[i].0 == orig[i].0 && defaulted(
                        orig[i].0@,
                        orig[i].1,
                        out@[i].1,
                    ),
            decreases rest@.len(),
        {
            let (name, cfg) = rest.remove(0);
            let cfg = cfg.with_defaults(&name);
            out.push((name, cfg));
            assert(rest@ =~= orig.subrange(out@.len() as int, orig.len() as int));
        }
        Settings { ingesters: out }
    }
}

} // verus!
