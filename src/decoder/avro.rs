//! The generic Avro decoder: turns a record datum into a row, guided by the
//! tables that schema analysis derived.
use vstd::prelude::*;

use crate::column::{ColumnType, ColumnValue, ColumnValueV, Row, Scalar, ScalarV, row_view};
use crate::decoder::DecodeError;
use crate::decoder::schema::{
    AvroSchema,
    NullValues,
    RecordSchema,
    SchemaError,
    SchemaTables,
    TypeMapping,
    analysis,
    analyze_schema,
    field_in_tables,
    lemma_analysis_tables,
    names_distinct,
    sql_type_of,
    FieldSchema,
    first_of,
    lemma_first_of_step,
    tables_of,
};

verus! {

/// An Avro value that may stand inside a union, an array or a map.
///
/// Strings, bytes, fixed values and enum symbols are held as bytes, floats
/// as their bit patterns, UUIDs as 128-bit integers. A union, array or map
/// nested inside another one stands as `Nested`.
#[derive(Debug, Clone, PartialEq, Eq)]
pub enum AvroScalar {
    Null,
    Boolean(bool),
    Int(i32),
    Long(i64),
    Float(u32),
    Double(u64),
    Bytes(Vec<u8>),
    String(Vec<u8>),
    Fixed(Vec<u8>),
    Enum(Vec<u8>),
    Uuid(u128),
    Date(i32),
    TimeMillis(i32),
    TimeMicros(i64),
    TimestampMillis(i64),
    TimestampMicros(i64),
    LocalTimestampMillis(i64),
    LocalTimestampMicros(i64),
    Duration { months: u32, days: u32, millis: u32 },
    Decimal,
    Record,
    Nested,
}

/// The value of one field of a record datum.
#[derive(Debug, Clone, PartialEq, Eq)]
pub enum AvroValue {
    Plain(AvroScalar),
    Union(AvroScalar),
    Array(Vec<AvroScalar>),
    Mapping(Vec<(String, AvroScalar)>),
}

/// The first day chrono's calendar holds (January 1 of year -262143),
/// counted from the Unix epoch.
pub const FIRST_UTC_DAY: i64 = -96465292;

/// The last day chrono's calendar holds (December 31 of year 262142),
/// counted from the Unix epoch.
pub const LAST_UTC_DAY: i64 = 95026236;

/// Whether chrono's calendar holds the instant this many milliseconds after
/// the Unix epoch: its day lies within the calendar.
pub open spec fn utc_millis_in_range(ms: int) -> bool {
    FIRST_UTC_DAY * 86_400_000 <= ms < (LAST_UTC_DAY + 1) * 86_400_000
}

/// Whether chrono's calendar holds the instant this many microseconds after
/// the Unix epoch: its day lies within the calendar.
pub open spec fn utc_micros_in_range(us: int) -> bool {
    FIRST_UTC_DAY * 86_400_000_000 <= us < (LAST_UTC_DAY + 1) * 86_400_000_000
}

/// Relies on chrono's `DateTime::from_timestamp_millis`, which gives `None`
/// exactly outside its calendar (`NaiveDate::MIN` to `NaiveDate::MAX`).
#[verifier::external_body]
fn utc_millis_representable(ms: i64) -> (r: bool)
    ensures
        r == utc_millis_in_range(ms as int),
{
    chrono::DateTime::from_timestamp_millis(ms).is_some()
}

/// Relies on chrono's `DateTime::from_timestamp_micros`, which gives `None`
/// exactly outside its calendar (`NaiveDate::MIN` to `NaiveDate::MAX`).
#[verifier::external_body]
fn utc_micros_representable(us: i64) -> (r: bool)
    ensures
        r == utc_micros_in_range(us as int),
{
    chrono::DateTime::from_timestamp_micros(us).is_some()
}

/// The column value of a UTC timestamp of `ticks` at decimal `precision`
/// since the epoch, or the error for an instant the calendar cannot hold.
pub open spec fn timestamp_value(in_range: bool, ticks: i64, precision: u32) -> Result<
    ScalarV,
    DecodeError,
> {
    if in_range {
        Ok(ScalarV::DateTime64(ticks, precision))
    } else {
        Err(DecodeError::TimestampOutOfRange)
    }
}

pub open spec fn scalar_result_view(r: Result<Scalar, DecodeError>) -> Result<ScalarV, DecodeError> {
    match r {
        Ok(s) => Ok(s@),
        Err(e) => Err(e),
    }
}

/// Turns a timestamp of `ticks` at decimal `precision`, with whether the
/// calendar holds it, into a column value: a sub-second date-time in UTC at
/// that precision.
pub fn timestamp_cell(in_range: bool, ticks: i64, precision: u32) -> (r: Result<
    Scalar,
    DecodeError,
>)
    ensures
        scalar_result_view(r) == timestamp_value(in_range, ticks, precision),
{
    if in_range {
        Ok(Scalar::DateTime64(ticks, precision))
    } else {
        Err(DecodeError::TimestampOutOfRange)
    }
}

/// Milliseconds in an Avro duration, taking every month as 30 days. This is
/// not calendar-accurate; it is the flattening the columns expect.
pub open spec fn duration_millis(months: u32, days: u32, millis: u32) -> int {
    (months * 30 * 86400 + days * 86400) * 1000 + millis
}

/// Computes [`duration_millis`]; the result always fits in 64 bits.
pub fn duration_to_millis(months: u32, days: u32, millis: u32) -> (r: u64)
    ensures
        r as int == duration_millis(months, days, millis),
{
    let m = months as u64;
    let d = days as u64;
    let ms = millis as u64;
    proof {
        assert(m * 2592000 <= 4294967295u64 * 2592000) by (nonlinear_arith)
            requires
                m <= 4294967295u64,
        ;
        assert(d * 86400 <= 4294967295u64 * 86400) by (nonlinear_arith)
            requires
                d <= 4294967295u64,
        ;
        assert((m * 2592000 + d * 86400) * 1000 <= (4294967295u64 * 2592000 + 4294967295u64
            * 86400) * 1000) by (nonlinear_arith)
            requires
                m * 2592000 + d * 86400 <= 4294967295u64 * 2592000 + 4294967295u64 * 86400,
        ;
        assert(months * 30 * 86400 == m * 2592000) by (nonlinear_arith)
            requires
                m == months,
        ;
    }
    (m * 2592000 + d * 86400) * 1000 + ms
}

/// The column value of a single Avro value.
pub open spec fn scalar_cell(v: AvroScalar) -> Result<ScalarV, DecodeError> {
    match v {
        AvroScalar::Null => Err(DecodeError::UnexpectedNull),
        AvroScalar::Record => Err(DecodeError::NestedRecord),
        AvroScalar::Decimal => Err(DecodeError::UnsupportedDecimal),
        AvroScalar::Nested => Err(DecodeError::UnsupportedNesting),
        AvroScalar::Boolean(x) => Ok(ScalarV::Bool(x)),
        AvroScalar::Int(x) => Ok(ScalarV::Int32(x)),
        AvroScalar::Long(x) => Ok(ScalarV::Int64(x)),
        AvroScalar::Float(x) => Ok(ScalarV::Float32(x)),
        AvroScalar::Double(x) => Ok(ScalarV::Float64(x)),
        AvroScalar::Bytes(b) => Ok(ScalarV::String(b@)),
        AvroScalar::String(b) => Ok(ScalarV::String(b@)),
        AvroScalar::Fixed(b) => Ok(ScalarV::String(b@)),
        AvroScalar::Enum(b) => Ok(ScalarV::String(b@)),
        AvroScalar::Uuid(x) => Ok(ScalarV::Uuid(x)),
        AvroScalar::Date(x) => Ok(ScalarV::Date(x as u16)),
        AvroScalar::TimeMillis(x) => Ok(ScalarV::Int32(x)),
        AvroScalar::TimeMicros(x) => Ok(ScalarV::Int64(x)),
        AvroScalar::TimestampMillis(x) => millis_cell(x),
        AvroScalar::LocalTimestampMillis(x) => millis_cell(x),
        AvroScalar::TimestampMicros(x) => micros_cell(x),
        AvroScalar::LocalTimestampMicros(x) => micros_cell(x),
        AvroScalar::Duration { months, days, millis } => Ok(
            ScalarV::UInt64(duration_millis(months, days, millis) as u64),
        ),
    }
}

pub open spec fn millis_cell(x: i64) -> Result<ScalarV, DecodeError> {
    timestamp_value(utc_millis_in_range(x as int), x, 3)
}

pub open spec fn micros_cell(x: i64) -> Result<ScalarV, DecodeError> {
    timestamp_value(utc_micros_in_range(x as int), x, 6)
}

fn bytes_copy(b: &Vec<u8>) -> (r: Vec<u8>)
    ensures
        r@ == b@,
{
    let r = b.clone();
    assert(r@ =~= b@);
    r
}

/// Converts a single Avro value into a column value.
pub fn scalar_to_column(v: &AvroScalar) -> (r: Result<Scalar, DecodeError>)
    ensures
        scalar_result_view(r) == scalar_cell(*v),
{
    match v {
        AvroScalar::Null => Err(DecodeError::UnexpectedNull),
        AvroScalar::Record => Err(DecodeError::NestedRecord),
        AvroScalar::Decimal => Err(DecodeError::UnsupportedDecimal),
        AvroScalar::Nested => Err(DecodeError::UnsupportedNesting),
        AvroScalar::Boolean(x) => Ok(Scalar::Bool(*x)),
        AvroScalar::Int(x) => Ok(Scalar::Int32(*x)),
        AvroScalar::Long(x) => Ok(Scalar::Int64(*x)),
        AvroScalar::Float(x) => Ok(Scalar::Float32(*x)),
        AvroScalar::Double(x) => Ok(Scalar::Float64(*x)),
        AvroScalar::Bytes(b) => Ok(Scalar::String(bytes_copy(b))),
        AvroScalar::String(b) => Ok(Scalar::String(bytes_copy(b))),
        AvroScalar::Fixed(b) => Ok(Scalar::String(bytes_copy(b))),
        AvroScalar::Enum(b) => Ok(Scalar::String(bytes_copy(b))),
        AvroScalar::Uuid(x) => Ok(Scalar::Uuid(*x)),
        AvroScalar::Date(x) => Ok(Scalar::Date(*x as u16)),
        AvroScalar::TimeMillis(x) => Ok(Scalar::Int32(*x)),
        AvroScalar::TimeMicros(x) => Ok(Scalar::Int64(*x)),
        AvroScalar::TimestampMillis(x) => timestamp_cell(utc_millis_representable(*x), *x, 3),
        AvroScalar::LocalTimestampMillis(x) => timestamp_cell(utc_millis_representable(*x), *x, 3),
        AvroScalar::TimestampMicros(x) => timestamp_cell(utc_micros_representable(*x), *x, 6),
        AvroScalar::LocalTimestampMicros(x) => timestamp_cell(utc_micros_representable(*x), *x, 6),
        AvroScalar::Duration { months, days, millis } => Ok(
            Scalar::UInt64(duration_to_millis(*months, *days, *millis)),
        ),
    }
}

/// The column values of the items of an array, or the error of the first
/// item that has none.
pub open spec fn cells_of(items: Seq<AvroScalar>) -> Result<Seq<ScalarV>, DecodeError>
    decreases items.len(),
{
    if items.len() == 0 {
        Ok(Seq::empty())
    } else {
        match cells_of(items.drop_last()) {
            Err(e) => Err(e),
            Ok(cs) => match scalar_cell(items.last()) {
                Err(e) => Err(e),
                Ok(c) => Ok(cs.push(c)),
            },
        }
    }
}

/// The keys and column values of the entries of a map, or the error of the
/// first entry that has none.
pub open spec fn entry_cells_of(entries: Seq<(String, AvroScalar)>) -> Result<
    Seq<(Seq<char>, ScalarV)>,
    DecodeError,
>
    decreases entries.len(),
{
    if entries.len() == 0 {
        Ok(Seq::empty())
    } else {
        match entry_cells_of(entries.drop_last()) {
            Err(e) => Err(e),
            Ok(cs) => match scalar_cell(entries.last().1) {
                Err(e) => Err(e),
                Ok(c) => Ok(cs.push((entries.last().0@, c))),
            },
        }
    }
}

proof fn lemma_cells_err_persists(items: Seq<AvroScalar>, k: int)
    requires
        0 <= k <= items.len(),
        cells_of(items.take(k)) is Err,
    ensures
        cells_of(items) == cells_of(items.take(k)),
    decreases items.len() - k,
{
    if k < items.len() {
        assert(items.take(k + 1).drop_last() =~= items.take(k));
        lemma_cells_err_persists(items, k + 1);
    } else {
        assert(items.take(k) =~= items);
    }
}

proof fn lemma_entry_cells_err_persists(entries: Seq<(String, AvroScalar)>, k: int)
    requires
        0 <= k <= entries.len(),
        entry_cells_of(entries.take(k)) is Err,
    ensures
        entry_cells_of(entries) == entry_cells_of(entries.take(k)),
    decreases entries.len() - k,
{
    if k < entries.len() {
        assert(entries.take(k + 1).drop_last() =~= entries.take(k));
        lemma_entry_cells_err_persists(entries, k + 1);
    } else {
        assert(entries.take(k) =~= entries);
    }
}

/// The conversion of items fails only as a single value does.
proof fn lemma_cells_err_kind(items: Seq<AvroScalar>)
    ensures
        cells_of(items) is Err ==> scalar_error(cells_of(items)->Err_0),
    decreases items.len(),
{
    if items.len() > 0 {
        lemma_cells_err_kind(items.drop_last());
    }
}

/// The conversion of entries fails only as a single value does.
proof fn lemma_entry_cells_err_kind(entries: Seq<(String, AvroScalar)>)
    ensures
        entry_cells_of(entries) is Err ==> scalar_error(entry_cells_of(entries)->Err_0),
    decreases entries.len(),
{
    if entries.len() > 0 {
        lemma_entry_cells_err_kind(entries.drop_last());
    }
}

/// An error that converting a single value can give.
pub open spec fn scalar_error(e: DecodeError) -> bool {
    e != DecodeError::MissingArrayType && e != DecodeError::MissingMapType && e
        != DecodeError::MissingNullable
}

/// Converts the items of an array.
fn convert_items(items: &Vec<AvroScalar>) -> (r: Result<Vec<Scalar>, DecodeError>)
    ensures
        match r {
            Ok(v) => cells_of(items@) == Ok::<Seq<ScalarV>, DecodeError>(
                crate::column::scalars_view(v@),
            ),
            Err(e) => cells_of(items@) == Err::<Seq<ScalarV>, DecodeError>(e),
        },
{
    let n = items.len();
    let mut out: Vec<Scalar> = Vec::new();
    let mut i: usize = 0;
    assert(items@.take(0) =~= Seq::<AvroScalar>::empty());
    assert(crate::column::scalars_view(out@) =~= Seq::<ScalarV>::empty());
    while i < n
        invariant
            i <= n == items@.len(),
            cells_of(items@.take(i as int)) == Ok::<Seq<ScalarV>, DecodeError>(
                crate::column::scalars_view(out@),
            ),
        decreases n - i,
    {
        assert(items@.take(i + 1).drop_last() =~= items@.take(i as int));
        assert(items@.take(i + 1).last() == items@[i as int]);
        let c = match scalar_to_column(&items[i]) {
            Ok(c) => c,
            Err(e) => {
                proof {
                    lemma_cells_err_persists(items@, i + 1);
                }
                return Err(e);
            },
        };
        let ghost before = out@;
        out.push(c);
        assert(crate::column::scalars_view(out@) =~= crate::column::scalars_view(before).push(
            c@,
        ));
        i = i + 1;
    }
    assert(items@.take(n as int) =~= items@);
    Ok(out)
}

/// Converts the entries of a map.
fn convert_entries(entries: &Vec<(String, AvroScalar)>) -> (r: Result<
    Vec<(String, Scalar)>,
    DecodeError,
>)
    ensures
        match r {
            Ok(v) => entry_cells_of(entries@) == Ok::<Seq<(Seq<char>, ScalarV)>, DecodeError>(
                crate::column::entries_view(v@),
            ),
            Err(e) => entry_cells_of(entries@) == Err::<Seq<(Seq<char>, ScalarV)>, DecodeError>(
                e,
            ),
        },
{
    let n = entries.len();
    let mut out: Vec<(String, Scalar)> = Vec::new();
    let mut i: usize = 0;
    assert(entries@.take(0) =~= Seq::<(String, AvroScalar)>::empty());
    assert(crate::column::entries_view(out@) =~= Seq::<(Seq<char>, ScalarV)>::empty());
    while i < n
        invariant
            i <= n == entries@.len(),
            entry_cells_of(entries@.take(i as int)) == Ok::<
                Seq<(Seq<char>, ScalarV)>,
                DecodeError,
            >(crate::column::entries_view(out@)),
        decreases n - i,
    {
        assert(entries@.take(i + 1).drop_last() =~= entries@.take(i as int));
        assert(entries@.take(i + 1).last() == entries@[i as int]);
        let c = match scalar_to_column(&entries[i].1) {
            Ok(c) => c,
            Err(e) => {
                proof {
                    lemma_entry_cells_err_persists(entries@, i + 1);
                }
                return Err(e);
            },
        };
        let ghost before = out@;
        let k = entries[i].0.clone();
        out.push((k, c));
        assert(crate::column::entries_view(out@) =~= crate::column::entries_view(before).push(
            (entries@[i as int].0@, c@),
        ));
        i = i + 1;
    }
    assert(entries@.take(n as int) =~= entries@);
    Ok(out)
}

/// A datum as read from a message: a record, with its fields in order, or a
/// value of another kind.
#[derive(Debug, Clone, PartialEq, Eq)]
pub enum AvroDatum {
    Record(Vec<(String, AvroValue)>),
    Other,
}

/// Settings of the Avro decoder, as configured for one ingester.
pub struct Settings {
    /// Column names that replace field names, by field name.
    pub field_names: Option<Vec<(String, String)>>,
    /// When given and non-empty, the only fields that are ingested.
    pub include_fields: Option<Vec<String>>,
    /// Fields that are never ingested.
    pub exclude_fields: Option<Vec<String>>,
    /// A file to read the schema from.
    pub schema_file: Option<String>,
    /// A schema registry to fetch the schema from.
    pub registry_url: Option<String>,
}

/// The Avro decoder: the analyzed schema, the tables derived from it, and
/// which fields go to which columns.
pub struct Decoder {
    schema: RecordSchema,
    array_types: TypeMapping,
    map_types: TypeMapping,
    null_values: NullValues,
    name_overrides: Vec<(String, String)>,
    include_fields: Vec<String>,
    exclude_fields: Vec<String>,
}

pub open spec fn names_view(s: Seq<String>) -> Seq<Seq<char>> {
    s.map_values(|x: String| x@)
}

pub open spec fn overrides_view(s: Seq<(String, String)>) -> Seq<(Seq<char>, Seq<char>)> {
    s.map_values(|e: (String, String)| (e.0@, e.1@))
}

impl Decoder {
    /// The decoder's name, for diagnostics.
    pub fn get_name(&self) -> (r: String)
        ensures
            r@ == "avro"@,
    {
        "avro".to_owned()
    }

    /// The tables the decoder converts by.
    pub closed spec fn tables(&self) -> SchemaTables {
        tables_of(self.array_types, self.map_types, self.null_values)
    }

    /// The fields of the record schema the decoder reads.
    pub closed spec fn schema_fields(&self) -> Seq<FieldSchema> {
        self.schema.fields@
    }

    /// The column names that replace field names, by field name.
    pub closed spec fn overrides(&self) -> Seq<(Seq<char>, Seq<char>)> {
        overrides_view(self.name_overrides@)
    }

    /// The fields to ingest; empty for all.
    pub closed spec fn included(&self) -> Seq<Seq<char>> {
        names_view(self.include_fields@)
    }

    /// The fields never to ingest.
    pub closed spec fn excluded(&self) -> Seq<Seq<char>> {
        names_view(self.exclude_fields@)
    }

    /// The tables are what analysis derives from the decoder's schema.
    pub open spec fn wf(&self) -> bool {
        analysis(self.schema_fields()) == Ok::<SchemaTables, SchemaError>(self.tables())
    }

    /// Whether the field `name` is ingested: it is not excluded, and it is
    /// included where an inclusion list is given.
    pub open spec fn kept(&self, name: Seq<char>) -> bool {
        &&& !self.excluded().contains(name)
        &&& (self.included().len() == 0 || self.included().contains(name))
    }

    /// The column that the field `name` is emitted under.
    pub open spec fn emitted_name(&self, name: Seq<char>) -> Seq<char> {
        match first_of(self.overrides(), name) {
            Some(n) => n,
            None => name,
        }
    }

    /// The column value of the field `column`.
    pub open spec fn field_value(&self, column: Seq<char>, v: AvroValue) -> Result<
        ColumnValueV,
        DecodeError,
    > {
        match v {
            AvroValue::Plain(s) => match scalar_cell(s) {
                Ok(c) => Ok(ColumnValueV::Scalar(c)),
                Err(e) => Err(e),
            },
            AvroValue::Union(s) => if s is Null {
                match first_of(self.tables().nulls, column) {
                    Some(z) => Ok(ColumnValueV::Scalar(z)),
                    None => Err(DecodeError::MissingNullable),
                }
            } else {
                match scalar_cell(s) {
                    Ok(c) => Ok(ColumnValueV::Scalar(c)),
                    Err(e) => Err(e),
                }
            },
            AvroValue::Array(items) => match cells_of(items@) {
                Err(e) => Err(e),
                Ok(cs) => match first_of(self.tables().arrays, column) {
                    Some(t) => Ok(ColumnValueV::Array(t, cs)),
                    None => Err(DecodeError::MissingArrayType),
                },
            },
            AvroValue::Mapping(entries) => match entry_cells_of(entries@) {
                Err(e) => Err(e),
                Ok(cs) => match first_of(self.tables().maps, column) {
                    Some(t) => Ok(ColumnValueV::Mapping(t, cs)),
                    None => Err(DecodeError::MissingMapType),
                },
            },
        }
    }

    /// The row of a record datum: its kept fields in order, each under its
    /// emitted name; or the error of the first kept field that cannot be
    /// converted.
    pub open spec fn row_of(&self, fields: Seq<(String, AvroValue)>) -> Result<
        Seq<(Seq<char>, ColumnValueV)>,
        DecodeError,
    >
        decreases fields.len(),
    {
        if fields.len() == 0 {
            Ok(Seq::empty())
        } else {
            match self.row_of(fields.drop_last()) {
                Err(e) => Err(e),
                Ok(row) => {
                    let f = fields.last();
                    if !self.kept(f.0@) {
                        Ok(row)
                    } else {
                        match self.field_value(f.0@, f.1) {
                            Err(e) => Err(e),
                            Ok(v) => Ok(row.push((self.emitted_name(f.0@), v))),
                        }
                    }
                }
            }
        }
    }

    /// Converts the value of the field `column` into a column value.
    pub fn avro2ch(&self, column: &String, v: &AvroValue) -> (r: Result<ColumnValue, DecodeError>)
        ensures
            match r {
                Ok(c) => self.field_value(column@, *v) == Ok::<ColumnValueV, DecodeError>(c@),
                Err(e) => self.field_value(column@, *v) == Err::<ColumnValueV, DecodeError>(e),
            },
    {
        match v {
            AvroValue::Plain(s) => {
                let c = scalar_to_column(s)?;
                Ok(ColumnValue::Scalar(c))
            },
            AvroValue::Union(s) => {
                match s {
                    AvroScalar::Null => match self.null_values.get_value(column) {
                        Some(z) => Ok(ColumnValue::Scalar(z)),
                        None => Err(DecodeError::MissingNullable),
                    },
                    _ => {
                        let c = scalar_to_column(s)?;
                        Ok(ColumnValue::Scalar(c))
                    },
                }
            },
            AvroValue::Array(items) => {
                let cs = convert_items(items)?;
                match self.array_types.get_type(column) {
                    Some(t) => Ok(ColumnValue::Array(t, cs)),
                    None => Err(DecodeError::MissingArrayType),
                }
            },
            AvroValue::Mapping(entries) => {
                let cs = convert_entries(entries)?;
                match self.map_types.get_type(column) {
                    Some(t) => Ok(ColumnValue::Mapping(t, cs)),
                    None => Err(DecodeError::MissingMapType),
                }
            },
        }
    }

    proof fn lemma_row_err_persists(&self, fields: Seq<(String, AvroValue)>, k: int)
        requires
            0 <= k <= fields.len(),
            self.row_of(fields.take(k)) is Err,
        ensures
            self.row_of(fields) == self.row_of(fields.take(k)),
        decreases fields.len() - k,
    {
        if k < fields.len() {
            assert(fields.take(k + 1).drop_last() =~= fields.take(k));
            self.lemma_row_err_persists(fields, k + 1);
        } else {
            assert(fields.take(k) =~= fields);
        }
    }

    /// The column name for the field `name`.
    fn column_name(&self, name: &String) -> (r: String)
        ensures
            r@ == self.emitted_name(name@),
    {
        let ghost ov = overrides_view(self.name_overrides@);
        let n = self.name_overrides.len();
        let mut i: usize = 0;
        assert(ov.subrange(0, n as int) =~= ov);
        while i < n
            invariant
                i <= n == self.name_overrides@.len() == ov.len(),
                ov == overrides_view(self.name_overrides@),
                first_of(ov, name@) == first_of(ov.subrange(i as int, n as int), name@),
            decreases n - i,
        {
            proof {
                lemma_first_of_step(ov, name@, i as int);
            }
            if self.name_overrides[i].0 == *name {
                return self.name_overrides[i].1.clone();
            }
            i = i + 1;
        }
        name.clone()
    }

    /// Whether the field `name` is ingested.
    fn is_kept(&self, name: &String) -> (r: bool)
        ensures
            r == self.kept(name@),
    {
        if contains_name(&self.exclude_fields, name) {
            return false;
        }
        self.include_fields.len() == 0 || contains_name(&self.include_fields, name)
    }

    /// Turns a record datum, given as its fields in order, into a row: each
    /// kept field is converted and emitted under its column name.
    pub fn decode_record(&self, fields: &Vec<(String, AvroValue)>) -> (r: Result<Row, DecodeError>)
        ensures
            match r {
                Ok(row) => self.row_of(fields@) == Ok::<Seq<(Seq<char>, ColumnValueV)>, DecodeError>(
                    row_view(row@),
                ),
                Err(e) => self.row_of(fields@) == Err::<Seq<(Seq<char>, ColumnValueV)>, DecodeError>(
                    e,
                ),
            },
    {
        let n = fields.len();
        let mut row: Row = Vec::new();
        let mut i: usize = 0;
        assert(fields@.take(0) =~= Seq::<(String, AvroValue)>::empty());
        assert(row_view(row@) =~= Seq::<(Seq<char>, ColumnValueV)>::empty());
        while i < n
            invariant
                i <= n == fields@.len(),
                self.row_of(fields@.take(i as int)) == Ok::<
                    Seq<(Seq<char>, ColumnValueV)>,
                    DecodeError,
                >(row_view(row@)),
            decreases n - i,
        {
            assert(fields@.take(i + 1).drop_last() =~= fields@.take(i as int));
            assert(fields@.take(i + 1).last() == fields@[i as int]);
            let name = &fields[i].0;
            if self.is_kept(name) {
                let v = match self.avro2ch(name, &fields[i].1) {
                    Ok(v) => v,
                    Err(e) => {
                        proof {
                            self.lemma_row_err_persists(fields@, i + 1);
                        }
                        return Err(e);
                    },
                };
                let column = self.column_name(name);
                let ghost before = row@;
                row.push((column, v));
                assert(row_view(row@) =~= row_view(before).push((self.emitted_name(name@), v@)));
            }
            i = i + 1;
        }
        assert(fields@.take(n as int) =~= fields@);
        Ok(row)
    }
}

impl Decoder {
    /// Turns a datum into a row: a record as [`Decoder::decode_record`]
    /// does; any other datum is an error.
    pub fn decode(&self, datum: &AvroDatum) -> (r: Result<Row, DecodeError>)
        ensures
            match datum {
                AvroDatum::Other => r == Err::<Row, DecodeError>(DecodeError::NotARecord),
                AvroDatum::Record(fields) => match r {
                    Ok(row) => self.row_of(fields@) == Ok::<
                        Seq<(Seq<char>, ColumnValueV)>,
                        DecodeError,
                    >(row_view(row@)),
                    Err(e) => self.row_of(fields@) == Err::<
                        Seq<(Seq<char>, ColumnValueV)>,
                        DecodeError,
                    >(e),
                },
            },
    {
        match datum {
            AvroDatum::Record(fields) => self.decode_record(fields),
            AvroDatum::Other => Err(DecodeError::NotARecord),
        }
    }
}

/// Whether `name` is one of `list`.
fn contains_name(list: &Vec<String>, name: &String) -> (r: bool)
    ensures
        r == names_view(list@).contains(name@),
{
    let n = list.len();
    let mut i: usize = 0;
    while i < n
        invariant
            i <= n == list@.len(),
            forall|j: int| 0 <= j < i ==> list@[j]@ != name@,
        decreases n - i,
    {
        if list[i] == *name {
            assert(names_view(list@)[i as int] == name@);
            return true;
        }
        i = i + 1;
    }
    assert(!names_view(list@).contains(name@)) by {
        if names_view(list@).contains(name@) {
            let j = choose|j: int| 0 <= j < names_view(list@).len() && names_view(list@)[j] == name@;
            assert(list@[j]@ == name@);
        }
    }
    false
}

/// Where the schema of a topic comes from.
#[derive(Debug, Clone, PartialEq, Eq)]
pub enum SchemaSource {
    /// A local file holding the schema's JSON.
    File(String),
    /// The latest version of `subject` in the registry at `url`.
    Registry { url: String, subject: String },
}

/// The registry subject that holds the value schema of `topic`.
pub open spec fn value_subject(topic: Seq<char>) -> Seq<char> {
    topic + "-value"@
}

/// Decides where the schema comes from: the schema file when one is set,
/// else the registry with the topic's value subject, else an error.
pub fn get_schema_source(topic: &String, settings: &Settings) -> (r: Result<
    SchemaSource,
    SchemaError,
>)
    ensures
        match settings.schema_file {
            Some(f) => r matches Ok(SchemaSource::File(g)) && g@ == f@,
            None => match settings.registry_url {
                Some(u) => r matches Ok(SchemaSource::Registry { url, subject }) && url@ == u@
                    && subject@ == value_subject(topic@),
                None => r == Err::<SchemaSource, SchemaError>(SchemaError::NoSchemaSource),
            },
        },
{
    match &settings.schema_file {
        Some(f) => Ok(SchemaSource::File(f.clone())),
        None => match &settings.registry_url {
            Some(u) => {
                let mut subject = topic.clone();
                subject.append("-value");
                Ok(SchemaSource::Registry { url: u.clone(), subject })
            },
            None => Err(SchemaError::NoSchemaSource),
        },
    }
}

/// Builds the Avro decoder for a schema: the root must be a record that
/// analysis accepts; the filtering and renaming come from the settings.
pub fn new(schema: AvroSchema, settings: Settings) -> (r: Result<Decoder, SchemaError>)
    ensures
        !(schema is Record) ==> r == Err::<Decoder, SchemaError>(SchemaError::RootNotRecord),
        schema is Record ==> match analysis(schema->Record_0.fields@) {
            Err(e) => r == Err::<Decoder, SchemaError>(e),
            Ok(t) => r matches Ok(d) && d.wf() && d.tables() == t && d.schema_fields()
                == schema->Record_0.fields@ && d.overrides() == match settings.field_names {
                Some(v) => overrides_view(v@),
                None => Seq::empty(),
            } && d.included() == match settings.include_fields {
                Some(v) => names_view(v@),
                None => Seq::empty(),
            } && d.excluded() == match settings.exclude_fields {
                Some(v) => names_view(v@),
                None => Seq::empty(),
            },
        },
{
    let record = match schema {
        AvroSchema::Record(rs) => rs,
        _ => {
            return Err(SchemaError::RootNotRecord);
        },
    };
    let (array_types, map_types, null_values) = analyze_schema(&record)?;
    let name_overrides = match settings.field_names {
        Some(v) => v,
        None => Vec::new(),
    };
    let include_fields = match settings.include_fields {
        Some(v) => v,
        None => Vec::new(),
    };
    let exclude_fields = match settings.exclude_fields {
        Some(v) => v,
        None => Vec::new(),
    };
    Ok(
        Decoder {
            schema: record,
            array_types,
            map_types,
            null_values,
            name_overrides,
            include_fields,
            exclude_fields,
        },
    )
}

impl Decoder {
    /// The names of the fields of a record datum that are ingested, in order.
    pub open spec fn kept_names(&self, fields: Seq<(String, AvroValue)>) -> Seq<Seq<char>>
        decreases fields.len(),
    {
        if fields.len() == 0 {
            Seq::empty()
        } else {
            let p = self.kept_names(fields.drop_last());
            if self.kept(fields.last().0@) {
                p.push(fields.last().0@)
            } else {
                p
            }
        }
    }

    proof fn lemma_kept_names(&self, fields: Seq<(String, AvroValue)>)
        ensures
            forall|i: int|
                0 <= i < self.kept_names(fields).len() ==> #[trigger] self.kept(
                    self.kept_names(fields)[i],
                ),
            forall|i: int|
                0 <= i < self.kept_names(fields).len() ==> exists|j: int|
                    0 <= j < fields.len() && fields[j].0@ == #[trigger] self.kept_names(fields)[i],
        decreases fields.len(),
    {
        if fields.len() > 0 {
            let f = fields.drop_last();
            self.lemma_kept_names(f);
            assert forall|i: int| 0 <= i < self.kept_names(fields).len() implies exists|j: int|
                0 <= j < fields.len() && fields[j].0@ == #[trigger] self.kept_names(fields)[i] by {
                if i < self.kept_names(f).len() {
                    let j = choose|j: int|
                        0 <= j < f.len() && f[j].0@ == #[trigger] self.kept_names(f)[i];
                    assert(fields[j] == f[j]);
                } else {
                    assert(fields[fields.len() - 1].0@ == self.kept_names(fields)[i]);
                }
            }
        }
    }

    proof fn lemma_row_names(&self, fields: Seq<(String, AvroValue)>)
        requires
            self.row_of(fields) is Ok,
        ensures
            self.row_of(fields)->Ok_0.len() == self.kept_names(fields).len(),
            forall|i: int|
                0 <= i < self.kept_names(fields).len() ==> (#[trigger] self.row_of(
                    fields,
                )->Ok_0[i]).0 == self.emitted_name(self.kept_names(fields)[i]),
        decreases fields.len(),
    {
        if fields.len() > 0 {
            self.lemma_row_names(fields.drop_last());
        }
    }

    /// Of a record datum, only fields that pass the filters reach the row:
    /// no field named in `exclude_fields`, even where it is also included;
    /// where `include_fields` is non-empty, only fields named there. Each
    /// column of the row comes from one such field of the datum, in order.
    pub proof fn lemma_row_filtering(&self, fields: Seq<(String, AvroValue)>)
        requires
            self.row_of(fields) is Ok,
        ensures
            self.row_of(fields)->Ok_0.len() == self.kept_names(fields).len(),
            forall|i: int|
                0 <= i < self.kept_names(fields).len() ==> !self.excluded().contains(#[trigger] self.kept_names(fields)[i]),
            self.included().len() > 0 ==> forall|i: int|
                0 <= i < self.kept_names(fields).len() ==> self.included().contains(#[trigger] self.kept_names(fields)[i]),
            forall|i: int|
                0 <= i < self.kept_names(fields).len() ==> exists|j: int|
                    0 <= j < fields.len() && fields[j].0@ == #[trigger] self.kept_names(fields)[i],
            forall|i: int|
                0 <= i < self.kept_names(fields).len() ==> (#[trigger] self.row_of(
                    fields,
                )->Ok_0[i]).0 == self.emitted_name(self.kept_names(fields)[i]),
    {
        self.lemma_kept_names(fields);
        self.lemma_row_names(fields);
        assert forall|i: int| 0 <= i < self.kept_names(fields).len() implies !self.excluded().contains(#[trigger] self.kept_names(fields)[i]) by {
            assert(self.kept(self.kept_names(fields)[i]));
        }
        if self.included().len() > 0 {
            assert forall|i: int| 0 <= i < self.kept_names(fields).len() implies self.included().contains(#[trigger] self.kept_names(fields)[i]) by {
                assert(self.kept(self.kept_names(fields)[i]));
            }
        }
    }

    /// Where the overrides map field `c` to column `c2` (and name `c` once),
    /// field `c` is emitted under `c2`, wherever it appears.
    pub proof fn lemma_name_override(&self, c: Seq<char>, c2: Seq<char>)
        requires
            self.overrides().contains((c, c2)),
            forall|i: int, j: int|
                0 <= i < j < self.overrides().len() ==> self.overrides()[i].0 != self.overrides()[j].0,
        ensures
            self.emitted_name(c) == c2,
    {
        let ov = self.overrides();
        let j = choose|j: int| 0 <= j < ov.len() && ov[j] == (c, c2);
        lemma_first_of_unique(ov, j);
    }
}

/// With keys held once, looking up the key of an entry finds that entry.
proof fn lemma_first_of_unique<T>(s: Seq<(Seq<char>, T)>, j: int)
    requires
        0 <= j < s.len(),
        forall|a: int, b: int| 0 <= a < b < s.len() ==> s[a].0 != s[b].0,
    ensures
        first_of(s, s[j].0) == Some(s[j].1),
    decreases s.len(),
{
    if j > 0 {
        let t = s.subrange(1, s.len() as int);
        assert(t[j - 1] == s[j]);
        assert(s[0].0 != s[j].0);
        lemma_first_of_unique(t, j - 1);
    }
}

/// A single value is of the kind its schema gives.
pub open spec fn scalar_fits(s: AvroSchema, v: AvroScalar) -> bool {
    match s {
        AvroSchema::Null => v is Null,
        AvroSchema::Boolean => v is Boolean,
        AvroSchema::Int => v is Int,
        AvroSchema::Long => v is Long,
        AvroSchema::Float => v is Float,
        AvroSchema::Double => v is Double,
        AvroSchema::Bytes => v is Bytes,
        AvroSchema::String => v is String,
        AvroSchema::Uuid => v is Uuid,
        AvroSchema::Date => v is Date,
        AvroSchema::TimeMillis => v is TimeMillis,
        AvroSchema::TimeMicros => v is TimeMicros,
        AvroSchema::TimestampMillis => v is TimestampMillis,
        AvroSchema::TimestampMicros => v is TimestampMicros,
        AvroSchema::LocalTimestampMillis => v is LocalTimestampMillis,
        AvroSchema::LocalTimestampMicros => v is LocalTimestampMicros,
        AvroSchema::Duration => v is Duration,
        AvroSchema::Decimal => v is Decimal,
        AvroSchema::Fixed => v is Fixed,
        AvroSchema::Enum => v is Enum,
        AvroSchema::Record(_) => v is Record,
        _ => v is Nested,
    }
}

/// The value of a field is in the shape its schema gives, and each single
/// value in it is of the kind its schema gives.
pub open spec fn value_fits(s: AvroSchema, v: AvroValue) -> bool {
    match s {
        AvroSchema::ArrayOf(e) => v is Array && forall|i: int|
            0 <= i < v->Array_0@.len() ==> scalar_fits(*e, #[trigger] v->Array_0@[i]),
        AvroSchema::MapOf(e) => v is Mapping && forall|i: int|
            0 <= i < v->Mapping_0@.len() ==> scalar_fits(*e, #[trigger] v->Mapping_0@[i].1),
        AvroSchema::Union(vs) => v is Union && (v->Union_0 is Null || scalar_fits(
            vs@[1],
            v->Union_0,
        )),
        _ => v is Plain && scalar_fits(s, v->Plain_0),
    }
}

/// The column type a single value has; `None` for the values whose type
/// the column does not fix (unsigned integers and 32-bit date-times).
pub open spec fn scalar_type(c: ScalarV) -> Option<ColumnType> {
    match c {
        ScalarV::Bool(_) => Some(ColumnType::Bool),
        ScalarV::Int32(_) => Some(ColumnType::Int32),
        ScalarV::Int64(_) => Some(ColumnType::Int64),
        ScalarV::Float32(_) => Some(ColumnType::Float32),
        ScalarV::Float64(_) => Some(ColumnType::Float64),
        ScalarV::String(_) => Some(ColumnType::String),
        ScalarV::Uuid(_) => Some(ColumnType::Uuid),
        ScalarV::Date(_) => Some(ColumnType::Date),
        ScalarV::DateTime64(_, p) => Some(ColumnType::DateTime64(p)),
        _ => None,
    }
}

/// The schemas whose values come out with the column type that
/// [`sql_type_of`] gives. Two do not: a time in microseconds is a 64-bit
/// integer in a 32-bit column, and a duration is an unsigned count of
/// milliseconds in a signed column.
pub open spec fn typed_schema(s: AvroSchema) -> bool {
    sql_type_of(s) is Some && !(s is TimeMicros) && !(s is Duration)
}

proof fn lemma_cells_typed(e: AvroSchema, items: Seq<AvroScalar>)
    requires
        forall|i: int| 0 <= i < items.len() ==> scalar_fits(e, #[trigger] items[i]),
        typed_schema(e),
        cells_of(items) is Ok,
    ensures
        cells_of(items)->Ok_0.len() == items.len(),
        forall|k: int|
            0 <= k < items.len() ==> scalar_type(#[trigger] cells_of(items)->Ok_0[k]) == Some(
                sql_type_of(e)->Some_0.0,
            ),
    decreases items.len(),
{
    if items.len() > 0 {
        let pre = items.drop_last();
        assert forall|i: int| 0 <= i < pre.len() implies scalar_fits(e, #[trigger] pre[i]) by {
            assert(pre[i] == items[i]);
        }
        lemma_cells_typed(e, pre);
        assert(items.last() == items[items.len() - 1]);
        lemma_scalar_typed(e, items.last());
    }
}

proof fn lemma_entry_cells_typed(e: AvroSchema, entries: Seq<(String, AvroScalar)>)
    requires
        forall|i: int| 0 <= i < entries.len() ==> scalar_fits(e, #[trigger] entries[i].1),
        typed_schema(e),
        entry_cells_of(entries) is Ok,
    ensures
        entry_cells_of(entries)->Ok_0.len() == entries.len(),
        forall|k: int|
            0 <= k < entries.len() ==> scalar_type(
                #[trigger] entry_cells_of(entries)->Ok_0[k].1,
            ) == Some(sql_type_of(e)->Some_0.0),
    decreases entries.len(),
{
    if entries.len() > 0 {
        let pre = entries.drop_last();
        assert forall|i: int| 0 <= i < pre.len() implies scalar_fits(e, #[trigger] pre[i].1) by {
            assert(pre[i] == entries[i]);
        }
        lemma_entry_cells_typed(e, pre);
        assert(entries.last() == entries[entries.len() - 1]);
        lemma_scalar_typed(e, entries.last().1);
    }
}

proof fn lemma_scalar_typed(s: AvroSchema, v: AvroScalar)
    requires
        scalar_fits(s, v),
        typed_schema(s),
        scalar_cell(v) is Ok,
    ensures
        scalar_type(scalar_cell(v)->Ok_0) == Some(sql_type_of(s)->Some_0.0),
{
}

/// A record datum fits a record schema: the same fields in the same order,
/// each value in the shape of its field's schema.
pub open spec fn datum_fits(fields: Seq<FieldSchema>, datum: Seq<(String, AvroValue)>) -> bool {
    &&& datum.len() == fields.len()
    &&& forall|i: int|
        0 <= i < datum.len() ==> #[trigger] datum[i].0@ == fields[i].name@ && value_fits(
            fields[i].schema,
            datum[i].1,
        )
}

/// What a field of schema `s` with value `v` is emitted as: an array or a
/// map only for a field of that shape, with the element type the schema
/// gives; the zero value of the second variant for a null in a nullable
/// union; any other single value with the column type its schema gives;
/// and never an error for a missing table entry.
pub open spec fn emitted_per_schema(
    s: AvroSchema,
    v: AvroValue,
    r: Result<ColumnValueV, DecodeError>,
) -> bool {
    let single = if s is Union {
        s->Union_0@[1]
    } else {
        s
    };
    match r {
        Ok(ColumnValueV::Array(ty, cs)) => {
            &&& s is ArrayOf
            &&& ty == sql_type_of(*s->ArrayOf_0)->Some_0.0
            &&& typed_schema(*s->ArrayOf_0) ==> forall|k: int|
                0 <= k < cs.len() ==> scalar_type(#[trigger] cs[k]) == Some(ty)
        },
        Ok(ColumnValueV::Mapping(ty, cs)) => {
            &&& s is MapOf
            &&& ty == sql_type_of(*s->MapOf_0)->Some_0.0
            &&& typed_schema(*s->MapOf_0) ==> forall|k: int|
                0 <= k < cs.len() ==> scalar_type(#[trigger] cs[k].1) == Some(ty)
        },
        Ok(ColumnValueV::Scalar(c)) => {
            &&& !(s is ArrayOf)
            &&& !(s is MapOf)
            &&& if s is Union && v is Union && v->Union_0 is Null {
                c == sql_type_of(single)->Some_0.1
            } else {
                typed_schema(single) ==> scalar_type(c) == Some(sql_type_of(single)->Some_0.0)
            }
        },
        Err(e) => e != DecodeError::MissingArrayType && e != DecodeError::MissingMapType && e
            != DecodeError::MissingNullable,
    }
}

impl Decoder {
    /// For a well-formed decoder (as [`new`] builds it), every field of a
    /// datum that fits the schema is emitted as its schema says: arrays and
    /// maps with the element types that the tables hold for them, their
    /// items of that type; nulls as the zero values the tables hold; other
    /// values with their column types. No field ever misses its table
    /// entry.
    pub proof fn lemma_decoded_shapes(&self, datum: Seq<(String, AvroValue)>)
        requires
            self.wf(),
            names_distinct(self.schema_fields()),
            datum_fits(self.schema_fields(), datum),
        ensures
            forall|i: int|
                0 <= i < datum.len() ==> emitted_per_schema(
                    self.schema_fields()[i].schema,
                    datum[i].1,
                    #[trigger] self.field_value(datum[i].0@, datum[i].1),
                ),
    {
        let fields = self.schema_fields();
        lemma_analysis_tables(fields);
        assert forall|i: int| 0 <= i < datum.len() implies emitted_per_schema(
            fields[i].schema,
            datum[i].1,
            #[trigger] self.field_value(datum[i].0@, datum[i].1),
        ) by {
            assert(datum[i].0@ == fields[i].name@);
            assert(field_in_tables(fields[i], self.tables()));
            match datum[i].1 {
                AvroValue::Array(items) => {
                    lemma_cells_err_kind(items@);
                    let e = *fields[i].schema->ArrayOf_0;
                    if typed_schema(e) && cells_of(items@) is Ok {
                        lemma_cells_typed(e, items@);
                    }
                },
                AvroValue::Mapping(entries) => {
                    lemma_entry_cells_err_kind(entries@);
                    let e = *fields[i].schema->MapOf_0;
                    if typed_schema(e) && entry_cells_of(entries@) is Ok {
                        lemma_entry_cells_typed(e, entries@);
                    }
                },
                AvroValue::Plain(x) => {
                    if typed_schema(fields[i].schema) && scalar_cell(x) is Ok {
                        lemma_scalar_typed(fields[i].schema, x);
                    }
                },
                AvroValue::Union(x) => {
                    if !(x is Null) && typed_schema(fields[i].schema->Union_0@[1]) && scalar_cell(
                        x,
                    ) is Ok {
                        lemma_scalar_typed(fields[i].schema->Union_0@[1], x);
                    }
                },
            }
        }
    }
}

} // verus!
