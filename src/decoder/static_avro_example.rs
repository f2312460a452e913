//! An Avro decoder of one fixed record type: `a: long`, `b: string`,
//! `c: array<int>`.
use vstd::prelude::*;

use crate::column::{ColumnType, ColumnValue, ColumnValueV, Row, RowV, Scalar, ScalarV, row_view};

verus! {

/// The JSON of the record schema this decoder reads.
pub const SCHEMA_JSON: &'static str = "{\"type\": \"record\", \"name\": \"test\", \"fields\": [{\"name\": \"a\", \"type\": \"long\", \"default\": 42}, {\"name\": \"b\", \"type\": \"string\"}, {\"name\": \"c\", \"type\": {\"type\": \"array\", \"items\": \"int\"}}]}";

/// The decoder of the fixed record type. It holds no state: the caller
/// holds the schema parsed from [`SCHEMA_JSON`].
pub struct Decoder;

pub open spec fn ints_view(c: Seq<i32>) -> Seq<ScalarV> {
    c.map_values(|x: i32| ScalarV::Int32(x))
}

/// The row of a record with fields `a`, `b` and `c`.
pub open spec fn entry_row_view(a: i64, b: Seq<u8>, c: Seq<i32>) -> RowV {
    seq![
        ("a"@, ColumnValueV::Scalar(ScalarV::Int64(a))),
        ("b"@, ColumnValueV::Scalar(ScalarV::String(b))),
        ("c"@, ColumnValueV::Array(ColumnType::Int32, ints_view(c))),
    ]
}

/// A decoder of the fixed record type.
pub fn new() -> (r: Decoder) {
    Decoder
}

impl Decoder {
    /// The decoder's name, for diagnostics.
    pub fn get_name(&self) -> (r: String)
        ensures
            r@ == "static-avro-example"@,
    {
        "static-avro-example".to_owned()
    }

    /// The row of a record with fields `a`, `b` and `c`; `b` is emitted as
    /// its UTF-8 bytes.
    pub fn entry_row(&self, a: i64, b: &String, c: &Vec<i32>) -> (r: Row)
        ensures
            row_view(r@) == entry_row_view(a, vstd::utf8::encode_utf8(b@), c@),
    {
        let bytes = vstd::slice::slice_to_vec(b.as_str().as_bytes());
        let mut items: Vec<Scalar> = Vec::new();
        let mut i: usize = 0;
        while i < c.len()
            invariant
                i <= c@.len(),
                crate::column::scalars_view(items@) == ints_view(c@.take(i as int)),
            decreases c@.len() - i,
        {
            let ghost before = items@;
            items.push(Scalar::Int32(c[i]));
            assert(crate::column::scalars_view(items@) =~= crate::column::scalars_view(before).push(
                ScalarV::Int32(c@[i as int]),
            ));
            assert(c@.take(i + 1) =~= c@.take(i as int).push(c@[i as int]));
            assert(ints_view(c@.take(i + 1)) =~= ints_view(c@.take(i as int)).push(
                ScalarV::Int32(c@[i as int]),
            ));
            i = i + 1;
        }
        assert(c@.take(c@.len() as int) =~= c@);
        let mut row: Row = Vec::new();
        row.push(("a".to_owned(), ColumnValue::Scalar(Scalar::Int64(a))));
        row.push(("b".to_owned(), ColumnValue::Scalar(Scalar::String(bytes))));
        row.push(("c".to_owned(), ColumnValue::Array(ColumnType::Int32, items)));
        assert(row_view(row@) =~= entry_row_view(a, vstd::utf8::encode_utf8(b@), c@));
        row
    }
}

} // verus!
