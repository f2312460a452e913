//! Column types and typed values, as the destination database sees them.
use vstd::prelude::*;

verus! {

/// A database column type.
#[derive(PartialEq, Eq, Structural, Clone, Copy, Debug)]
pub enum ColumnType {
    Bool,
    Int32,
    Int64,
    Float32,
    Float64,
    String,
    Uuid,
    Date,
    /// A sub-second timestamp in UTC with the given decimal precision.
    DateTime64(u32),
}

/// A single typed value.
///
/// Floating-point values are held as their IEEE-754 bit patterns; strings
/// are held as bytes.
#[derive(Debug, Clone, PartialEq, Eq)]
pub enum Scalar {
    Bool(bool),
    Int32(i32),
    Int64(i64),
    UInt64(u64),
    Float32(u32),
    Float64(u64),
    String(Vec<u8>),
    /// A UUID as a 128-bit big-endian integer.
    Uuid(u128),
    /// Days since the Unix epoch.
    Date(u16),
    /// Seconds since the Unix epoch, in UTC.
    DateTime(u32),
    /// Ticks since the Unix epoch at the given precision, in UTC.
    DateTime64(i64, u32),
}

/// The mathematical value of a [`Scalar`].
pub enum ScalarV {
    Bool(bool),
    Int32(i32),
    Int64(i64),
    UInt64(u64),
    Float32(u32),
    Float64(u64),
    String(Seq<u8>),
    Uuid(u128),
    Date(u16),
    DateTime(u32),
    DateTime64(i64, u32),
}

impl View for Scalar {
    type V = ScalarV;

    open spec fn view(&self) -> ScalarV {
        match self {
            Scalar::Bool(b) => ScalarV::Bool(*b),
            Scalar::Int32(x) => ScalarV::Int32(*x),
            Scalar::Int64(x) => ScalarV::Int64(*x),
            Scalar::UInt64(x) => ScalarV::UInt64(*x),
            Scalar::Float32(x) => ScalarV::Float32(*x),
            Scalar::Float64(x) => ScalarV::Float64(*x),
            Scalar::String(b) => ScalarV::String(b@),
            Scalar::Uuid(x) => ScalarV::Uuid(*x),
            Scalar::Date(x) => ScalarV::Date(*x),
            Scalar::DateTime(x) => ScalarV::DateTime(*x),
            Scalar::DateTime64(x, p) => ScalarV::DateTime64(*x, *p),
        }
    }
}

impl Scalar {
    /// A copy of this value.
    pub fn duplicate(&self) -> (r: Scalar)
        ensures
            r@ == self@,
    {
        match self {
            Scalar::Bool(b) => Scalar::Bool(*b),
            Scalar::Int32(x) => Scalar::Int32(*x),
            Scalar::Int64(x) => Scalar::Int64(*x),
            Scalar::UInt64(x) => Scalar::UInt64(*x),
            Scalar::Float32(x) => Scalar::Float32(*x),
            Scalar::Float64(x) => Scalar::Float64(*x),
            Scalar::String(b) => {
                let c = b.clone();
                assert(c@ =~= b@);
                Scalar::String(c)
            },
            Scalar::Uuid(x) => Scalar::Uuid(*x),
            Scalar::Date(x) => Scalar::Date(*x),
            Scalar::DateTime(x) => Scalar::DateTime(*x),
            Scalar::DateTime64(x, p) => Scalar::DateTime64(*x, *p),
        }
    }
}

/// The value of one column of a row: a scalar, an array of scalars, or a
/// map from strings to scalars. Arrays and maps carry their element type.
#[derive(Debug, Clone, PartialEq, Eq)]
pub enum ColumnValue {
    Scalar(Scalar),
    Array(ColumnType, Vec<Scalar>),
    Mapping(ColumnType, Vec<(String, Scalar)>),
}

/// The mathematical value of a [`ColumnValue`].
pub enum ColumnValueV {
    Scalar(ScalarV),
    Array(ColumnType, Seq<ScalarV>),
    Mapping(ColumnType, Seq<(Seq<char>, ScalarV)>),
}

pub open spec fn scalars_view(s: Seq<Scalar>) -> Seq<ScalarV> {
    s.map_values(|x: Scalar| x@)
}

pub open spec fn entries_view(s: Seq<(String, Scalar)>) -> Seq<(Seq<char>, ScalarV)> {
    s.map_values(|e: (String, Scalar)| (e.0@, e.1@))
}

impl View for ColumnValue {
    type V = ColumnValueV;

    open spec fn view(&self) -> ColumnValueV {
        match self {
            ColumnValue::Scalar(s) => ColumnValueV::Scalar(s@),
            ColumnValue::Array(t, items) => ColumnValueV::Array(*t, scalars_view(items@)),
            ColumnValue::Mapping(t, entries) => ColumnValueV::Mapping(*t, entries_view(entries@)),
        }
    }
}

/// A row: named column values in order.
pub type Row = Vec<(String, ColumnValue)>;

pub open spec fn row_view(r: Seq<(String, ColumnValue)>) -> Seq<(Seq<char>, ColumnValueV)> {
    r.map_values(|e: (String, ColumnValue)| (e.0@, e.1@))
}

/// The mathematical value of a row.
pub type RowV = Seq<(Seq<char>, ColumnValueV)>;

} // verus!
