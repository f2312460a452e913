//! The Avro schema as the analyzer reads it, and the analysis that derives
//! the column tables of a decoder.
use vstd::prelude::*;

use crate::column::{ColumnType, Scalar, ScalarV};

verus! {

/// An Avro schema, reduced to what the analyzer looks at. Logical types
/// (dates, timestamps, UUIDs, durations) stand as their own kinds; the
/// kinds that no column can hold are kept so that they can be rejected.
#[derive(Debug)]
pub enum AvroSchema {
    Null,
    Boolean,
    Int,
    Long,
    Float,
    Double,
    Bytes,
    String,
    Uuid,
    Date,
    TimeMillis,
    TimeMicros,
    TimestampMillis,
    TimestampMicros,
    LocalTimestampMillis,
    LocalTimestampMicros,
    Duration,
    Decimal,
    Fixed,
    Enum,
    Record(RecordSchema),
    ArrayOf(Box<AvroSchema>),
    MapOf(Box<AvroSchema>),
    Union(Vec<AvroSchema>),
    /// Any other kind, such as a named reference.
    Other,
}

/// One field of a record schema.
#[derive(Debug)]
pub struct FieldSchema {
    pub name: String,
    pub schema: AvroSchema,
}

/// A record schema: its fields in declaration order.
#[derive(Debug)]
pub struct RecordSchema {
    pub fields: Vec<FieldSchema>,
}

/// Why a schema cannot be ingested.
#[derive(PartialEq, Eq, Structural, Clone, Copy, Debug)]
pub enum SchemaError {
    /// The root of the schema is not a record.
    RootNotRecord,
    /// A field is itself a record.
    NestedRecord,
    /// A union is not of the form `[null, T]`.
    BadUnion,
    /// A type that no column can hold.
    UnsupportedType,
    /// Neither a schema file nor a registry is configured.
    NoSchemaSource,
}

/// The column type of an Avro type, and the zero value that stands for a
/// null of that type; `None` where no column can hold it.
pub open spec fn sql_type_of(s: AvroSchema) -> Option<(ColumnType, ScalarV)> {
    match s {
        AvroSchema::Boolean => Some((ColumnType::Bool, ScalarV::Bool(false))),
        AvroSchema::Int => Some((ColumnType::Int32, ScalarV::Int32(0))),
        AvroSchema::Long => Some((ColumnType::Int64, ScalarV::Int64(0))),
        AvroSchema::Float => Some((ColumnType::Float32, ScalarV::Float32(0))),
        AvroSchema::Double => Some((ColumnType::Float64, ScalarV::Float64(0))),
        AvroSchema::Bytes => Some((ColumnType::String, ScalarV::String(Seq::empty()))),
        AvroSchema::String => Some((ColumnType::String, ScalarV::String(Seq::empty()))),
        AvroSchema::Uuid => Some((ColumnType::Uuid, ScalarV::Uuid(0))),
        AvroSchema::Date => Some((ColumnType::Date, ScalarV::Date(0))),
        AvroSchema::TimeMillis => Some((ColumnType::Int32, ScalarV::DateTime(0))),
        AvroSchema::TimeMicros => Some((ColumnType::Int32, ScalarV::DateTime(0))),
        AvroSchema::TimestampMillis => Some((ColumnType::DateTime64(3), ScalarV::DateTime64(0, 3))),
        AvroSchema::TimestampMicros => Some((ColumnType::DateTime64(6), ScalarV::DateTime64(0, 6))),
        AvroSchema::LocalTimestampMillis => Some(
            (ColumnType::DateTime64(3), ScalarV::DateTime64(0, 3)),
        ),
        AvroSchema::LocalTimestampMicros => Some(
            (ColumnType::DateTime64(6), ScalarV::DateTime64(0, 6)),
        ),
        AvroSchema::Duration => Some((ColumnType::Int64, ScalarV::UInt64(0))),
        _ => None,
    }
}

/// Translates an Avro type into its column type and its zero value.
pub fn get_schema_type(s: &AvroSchema) -> (r: Result<(ColumnType, Scalar), SchemaError>)
    ensures
        match r {
            Ok((t, z)) => sql_type_of(*s) == Some((t, z@)),
            Err(e) => sql_type_of(*s) is None && e == SchemaError::UnsupportedType,
        },
{
    match s {
        AvroSchema::Boolean => Ok((ColumnType::Bool, Scalar::Bool(false))),
        AvroSchema::Int => Ok((ColumnType::Int32, Scalar::Int32(0))),
        AvroSchema::Long => Ok((ColumnType::Int64, Scalar::Int64(0))),
        AvroSchema::Float => Ok((ColumnType::Float32, Scalar::Float32(0))),
        AvroSchema::Double => Ok((ColumnType::Float64, Scalar::Float64(0))),
        AvroSchema::Bytes => Ok((ColumnType::String, Scalar::String(Vec::new()))),
        AvroSchema::String => Ok((ColumnType::String, Scalar::String(Vec::new()))),
        AvroSchema::Uuid => Ok((ColumnType::Uuid, Scalar::Uuid(0))),
        AvroSchema::Date => Ok((ColumnType::Date, Scalar::Date(0))),
        AvroSchema::TimeMillis => Ok((ColumnType::Int32, Scalar::DateTime(0))),
        AvroSchema::TimeMicros => Ok((ColumnType::Int32, Scalar::DateTime(0))),
        AvroSchema::TimestampMillis => Ok((ColumnType::DateTime64(3), Scalar::DateTime64(0, 3))),
        AvroSchema::TimestampMicros => Ok((ColumnType::DateTime64(6), Scalar::DateTime64(0, 6))),
        AvroSchema::LocalTimestampMillis => Ok(
            (ColumnType::DateTime64(3), Scalar::DateTime64(0, 3)),
        ),
        AvroSchema::LocalTimestampMicros => Ok(
            (ColumnType::DateTime64(6), Scalar::DateTime64(0, 6)),
        ),
        AvroSchema::Duration => Ok((ColumnType::Int64, Scalar::UInt64(0))),
        _ => Err(SchemaError::UnsupportedType),
    }
}

/// The value paired with the first entry named `name`, if any.
pub open spec fn first_of<T>(s: Seq<(Seq<char>, T)>, name: Seq<char>) -> Option<T>
    decreases s.len(),
{
    if s.len() == 0 {
        None
    } else if s[0].0 == name {
        Some(s[0].1)
    } else {
        first_of(s.subrange(1, s.len() as int), name)
    }
}

/// Looking up from position `i` on is looking up in the suffix.
pub(crate) proof fn lemma_first_of_step<T>(s: Seq<(Seq<char>, T)>, name: Seq<char>, i: int)
    requires
        0 <= i < s.len(),
    ensures
        first_of(s.subrange(i, s.len() as int), name) == if s[i].0 == name {
            Some(s[i].1)
        } else {
            first_of(s.subrange(i + 1, s.len() as int), name)
        },
{
    let t = s.subrange(i, s.len() as int);
    assert(t.subrange(1, t.len() as int) =~= s.subrange(i + 1, s.len() as int));
}

/// Element column types by field name.
pub struct TypeMapping(pub Vec<(String, ColumnType)>);

impl View for TypeMapping {
    type V = Seq<(Seq<char>, ColumnType)>;

    open spec fn view(&self) -> Seq<(Seq<char>, ColumnType)> {
        self.0@.map_values(|e: (String, ColumnType)| (e.0@, e.1))
    }
}

impl TypeMapping {
    /// The element type recorded for `column`.
    pub fn get_type(&self, column: &String) -> (r: Option<ColumnType>)
        ensures
            r == first_of(self@, column@),
    {
        let n = self.0.len();
        let mut i: usize = 0;
        assert(self@.subrange(0, n as int) =~= self@);
        while i < n
            invariant
                i <= n == self.0@.len() == self@.len(),
                first_of(self@, column@) == first_of(self@.subrange(i as int, n as int), column@),
            decreases n - i,
        {
            proof {
                lemma_first_of_step(self@, column@, i as int);
            }
            if self.0[i].0 == *column {
                return Some(self.0[i].1);
            }
            i = i + 1;
        }
        None
    }
}

/// Zero values by field name, for the nullable fields.
pub struct NullValues(pub Vec<(String, Scalar)>);

impl View for NullValues {
    type V = Seq<(Seq<char>, ScalarV)>;

    open spec fn view(&self) -> Seq<(Seq<char>, ScalarV)> {
        self.0@.map_values(|e: (String, Scalar)| (e.0@, e.1@))
    }
}

impl NullValues {
    /// The zero value recorded for `column`.
    pub fn get_value(&self, column: &String) -> (r: Option<Scalar>)
        ensures
            match r {
                Some(v) => first_of(self@, column@) == Some(v@),
                None => first_of(self@, column@) is None,
            },
    {
        let n = self.0.len();
        let mut i: usize = 0;
        assert(self@.subrange(0, n as int) =~= self@);
        while i < n
            invariant
                i <= n == self.0@.len() == self@.len(),
                first_of(self@, column@) == first_of(self@.subrange(i as int, n as int), column@),
            decreases n - i,
        {
            proof {
                lemma_first_of_step(self@, column@, i as int);
            }
            if self.0[i].0 == *column {
                return Some(self.0[i].1.duplicate());
            }
            i = i + 1;
        }
        None
    }
}

/// The tables that analysis derives from a record's fields.
pub struct SchemaTables {
    /// Element types of the array fields.
    pub arrays: Seq<(Seq<char>, ColumnType)>,
    /// Value types of the map fields.
    pub maps: Seq<(Seq<char>, ColumnType)>,
    /// Zero values of the nullable fields.
    pub nulls: Seq<(Seq<char>, ScalarV)>,
}

pub open spec fn empty_tables() -> SchemaTables {
    SchemaTables { arrays: Seq::empty(), maps: Seq::empty(), nulls: Seq::empty() }
}

/// What one field adds to the tables, or why it is rejected.
pub open spec fn field_step(t: SchemaTables, f: FieldSchema) -> Result<SchemaTables, SchemaError> {
    match f.schema {
        AvroSchema::Record(_) => Err(SchemaError::NestedRecord),
        AvroSchema::Union(vs) => {
            if vs@.len() == 2 && vs@[0] is Null {
                match sql_type_of(vs@[1]) {
                    Some(p) => Ok(SchemaTables { nulls: t.nulls.push((f.name@, p.1)), ..t }),
                    None => Err(SchemaError::UnsupportedType),
                }
            } else {
                Err(SchemaError::BadUnion)
            }
        },
        AvroSchema::ArrayOf(e) => match sql_type_of(*e) {
            Some(p) => Ok(SchemaTables { arrays: t.arrays.push((f.name@, p.0)), ..t }),
            None => Err(SchemaError::UnsupportedType),
        },
        AvroSchema::MapOf(e) => match sql_type_of(*e) {
            Some(p) => Ok(SchemaTables { maps: t.maps.push((f.name@, p.0)), ..t }),
            None => Err(SchemaError::UnsupportedType),
        },
        _ => Ok(t),
    }
}

/// The analysis of a record's fields, taken in order: the first field that
/// is rejected decides the error.
pub open spec fn analysis(fields: Seq<FieldSchema>) -> Result<SchemaTables, SchemaError>
    decreases fields.len(),
{
    if fields.len() == 0 {
        Ok(empty_tables())
    } else {
        match analysis(fields.drop_last()) {
            Ok(t) => field_step(t, fields.last()),
            Err(e) => Err(e),
        }
    }
}

/// Once a prefix of the fields is rejected, so is the whole record, with the
/// same error.
proof fn lemma_analysis_err_persists(fields: Seq<FieldSchema>, k: int)
    requires
        0 <= k <= fields.len(),
        analysis(fields.take(k)) is Err,
    ensures
        analysis(fields) == analysis(fields.take(k)),
    decreases fields.len() - k,
{
    if k < fields.len() {
        assert(fields.take(k + 1).drop_last() =~= fields.take(k));
        lemma_analysis_err_persists(fields, k + 1);
    } else {
        assert(fields.take(k) =~= fields);
    }
}

pub open spec fn tables_of(a: TypeMapping, m: TypeMapping, n: NullValues) -> SchemaTables {
    SchemaTables { arrays: a@, maps: m@, nulls: n@ }
}

/// Checks a record schema for what can be ingested, and derives the element
/// types of its arrays and maps and the zero values of its nullable fields.
pub fn analyze_schema(s: &RecordSchema) -> (r: Result<(TypeMapping, TypeMapping, NullValues), SchemaError>)
    ensures
        match r {
            Ok((a, m, n)) => analysis(s.fields@) == Ok::<SchemaTables, SchemaError>(tables_of(a, m, n)),
            Err(e) => analysis(s.fields@) == Err::<SchemaTables, SchemaError>(e),
        },
{
    let mut arrays = TypeMapping(Vec::new());
    let mut maps = TypeMapping(Vec::new());
    let mut nulls = NullValues(Vec::new());
    let n = s.fields.len();
    let mut i: usize = 0;
    assert(s.fields@.take(0) =~= Seq::<FieldSchema>::empty());
    assert(arrays@ =~= Seq::<(Seq<char>, ColumnType)>::empty());
    assert(maps@ =~= Seq::<(Seq<char>, ColumnType)>::empty());
    assert(nulls@ =~= Seq::<(Seq<char>, ScalarV)>::empty());
    while i < n
        invariant
            i <= n == s.fields@.len(),
            analysis(s.fields@.take(i as int)) == Ok::<SchemaTables, SchemaError>(
                tables_of(arrays, maps, nulls),
            ),
        decreases n - i,
    {
        let f = &s.fields[i];
        assert(s.fields@.take(i + 1).drop_last() =~= s.fields@.take(i as int));
        assert(s.fields@.take(i + 1).last() == *f);
        let ghost t = tables_of(arrays, maps, nulls);
        match &f.schema {
            AvroSchema::Record(_) => {
                proof {
                    lemma_analysis_err_persists(s.fields@, i + 1);
                }
                return Err(SchemaError::NestedRecord);
            },
            AvroSchema::Union(vs) => {
                if vs.len() != 2 {
                    proof {
                        lemma_analysis_err_persists(s.fields@, i + 1);
                    }
                    return Err(SchemaError::BadUnion);
                }
                match &vs[0] {
                    AvroSchema::Null => {},
                    _ => {
                        proof {
                            lemma_analysis_err_persists(s.fields@, i + 1);
                        }
                        return Err(SchemaError::BadUnion);
                    },
                }
                let zero = match get_schema_type(&vs[1]) {
                    Ok((_, z)) => z,
                    Err(e) => {
                        proof {
                            lemma_analysis_err_persists(s.fields@, i + 1);
                        }
                        return Err(e);
                    },
                };
                nulls.0.push((f.name.clone(), zero));
                assert(nulls@ =~= t.nulls.push((f.name@, sql_type_of(vs@[1])->Some_0.1)));
            },
            AvroSchema::ArrayOf(e) => {
                let ty = match get_schema_type(e) {
                    Ok((t, _)) => t,
                    Err(err) => {
                        proof {
                            lemma_analysis_err_persists(s.fields@, i + 1);
                        }
                        return Err(err);
                    },
                };
                arrays.0.push((f.name.clone(), ty));
                assert(arrays@ =~= t.arrays.push((f.name@, ty)));
            },
            AvroSchema::MapOf(e) => {
                let ty = match get_schema_type(e) {
                    Ok((t, _)) => t,
                    Err(err) => {
                        proof {
                            lemma_analysis_err_persists(s.fields@, i + 1);
                        }
                        return Err(err);
                    },
                };
                maps.0.push((f.name.clone(), ty));
                assert(maps@ =~= t.maps.push((f.name@, ty)));
            },
            _ => {},
        }
        i = i + 1;
    }
    assert(s.fields@.take(n as int) =~= s.fields@);
    Ok((arrays, maps, nulls))
}

/// A field that analysis rejects whatever came before it.
pub open spec fn rejected_field(f: FieldSchema) -> bool {
    match f.schema {
        AvroSchema::Record(_) => true,
        AvroSchema::Union(vs) => vs@.len() != 2 || !(vs@[0] is Null),
        _ => false,
    }
}

proof fn lemma_rejected_field(fields: Seq<FieldSchema>, i: int)
    requires
        0 <= i < fields.len(),
        rejected_field(fields[i]),
    ensures
        analysis(fields) is Err,
{
    assert(fields.take(i + 1).drop_last() =~= fields.take(i));
    assert(fields.take(i + 1).last() == fields[i]);
    lemma_analysis_err_persists(fields, i + 1);
}

/// A union whose first variant is not `null` (such as `[T, null]`) makes
/// the whole record schema rejected.
pub proof fn lemma_union_null_not_first_rejected(s: RecordSchema, i: int)
    requires
        0 <= i < s.fields@.len(),
        s.fields@[i].schema is Union,
        !(s.fields@[i].schema->Union_0@[0] is Null),
    ensures
        analysis(s.fields@) is Err,
{
    lemma_rejected_field(s.fields@, i);
}

/// A union of three or more variants makes the whole record schema rejected.
pub proof fn lemma_wide_union_rejected(s: RecordSchema, i: int)
    requires
        0 <= i < s.fields@.len(),
        s.fields@[i].schema is Union,
        s.fields@[i].schema->Union_0@.len() >= 3,
    ensures
        analysis(s.fields@) is Err,
{
    lemma_rejected_field(s.fields@, i);
}

/// A field that is itself a record makes the whole record schema rejected.
pub proof fn lemma_nested_record_rejected(s: RecordSchema, i: int)
    requires
        0 <= i < s.fields@.len(),
        s.fields@[i].schema is Record,
    ensures
        analysis(s.fields@) is Err,
{
    lemma_rejected_field(s.fields@, i);
}

/// The field names of a record are distinct.
pub open spec fn names_distinct(fields: Seq<FieldSchema>) -> bool {
    forall|i: int, j: int| 0 <= i < j < fields.len() ==> fields[i].name@ != fields[j].name@
}

/// The tables hold the field in the one table its shape calls for, and in
/// no other: arrays with their element type, maps with their value type,
/// nullable unions with the zero value of their second variant.
pub open spec fn field_in_tables(f: FieldSchema, t: SchemaTables) -> bool {
    let n = f.name@;
    match f.schema {
        AvroSchema::ArrayOf(e) => first_of(t.arrays, n) == Some(sql_type_of(*e)->Some_0.0)
            && first_of(t.maps, n) is None && first_of(t.nulls, n) is None,
        AvroSchema::MapOf(e) => first_of(t.maps, n) == Some(sql_type_of(*e)->Some_0.0) && first_of(
            t.arrays,
            n,
        ) is None && first_of(t.nulls, n) is None,
        AvroSchema::Union(vs) => first_of(t.nulls, n) == Some(sql_type_of(vs@[1])->Some_0.1)
            && first_of(t.arrays, n) is None && first_of(t.maps, n) is None,
        _ => first_of(t.arrays, n) is None && first_of(t.maps, n) is None && first_of(t.nulls, n) is None,
    }
}

proof fn lemma_first_of_push<T>(s: Seq<(Seq<char>, T)>, x: (Seq<char>, T), n: Seq<char>)
    ensures
        first_of(s.push(x), n) == match first_of(s, n) {
            Some(v) => Some(v),
            None => if x.0 == n {
                Some(x.1)
            } else {
                None
            },
        },
    decreases s.len(),
{
    if s.len() > 0 {
        assert(s.push(x).subrange(1, s.len() as int + 1) =~= s.subrange(1, s.len() as int).push(x));
        assert(s.push(x)[0] == s[0]);
        lemma_first_of_push(s.subrange(1, s.len() as int), x, n);
    } else {
        assert(s.push(x)[0] == x);
        assert(s.push(x).subrange(1, 1) =~= Seq::<(Seq<char>, T)>::empty());
        assert(first_of(Seq::<(Seq<char>, T)>::empty(), n) is None);
        assert(first_of(s, n) is None);
    }
}

/// What analysis derives places every field of the record in the table its
/// shape calls for, and no name that is not a field in any table.
pub proof fn lemma_analysis_tables(fields: Seq<FieldSchema>)
    requires
        analysis(fields) is Ok,
        names_distinct(fields),
    ensures
        forall|i: int| 0 <= i < fields.len() ==> field_in_tables(#[trigger] fields[i], analysis(fields)->Ok_0),
        forall|n: Seq<char>|
            #![trigger first_of(analysis(fields)->Ok_0.arrays, n)]
            #![trigger first_of(analysis(fields)->Ok_0.maps, n)]
            #![trigger first_of(analysis(fields)->Ok_0.nulls, n)]
            (forall|i: int| 0 <= i < fields.len() ==> #[trigger] fields[i].name@ != n) ==> {
                &&& first_of(analysis(fields)->Ok_0.arrays, n) is None
                &&& first_of(analysis(fields)->Ok_0.maps, n) is None
                &&& first_of(analysis(fields)->Ok_0.nulls, n) is None
            },
    decreases fields.len(),
{
    if fields.len() > 0 {
        let pre = fields.drop_last();
        let f = fields.last();
        if analysis(pre) is Err {
            assert(analysis(fields) is Err);
        }
        assert(names_distinct(pre)) by {
            assert forall|i: int, j: int| 0 <= i < j < pre.len() implies pre[i].name@ != pre[j].name@ by {
                assert(pre[i] == fields[i] && pre[j] == fields[j]);
            }
        }
        lemma_analysis_tables(pre);
        let t0 = analysis(pre)->Ok_0;
        let t = analysis(fields)->Ok_0;
        assert(forall|i: int| 0 <= i < pre.len() ==> #[trigger] pre[i].name@ != f.name@) by {
            assert forall|i: int| 0 <= i < pre.len() implies #[trigger] pre[i].name@ != f.name@ by {
                assert(pre[i] == fields[i]);
                assert(fields[fields.len() - 1] == f);
            }
        }
        assert forall|n: Seq<char>|
            #![trigger first_of(t.arrays, n)]
            #![trigger first_of(t.maps, n)]
            #![trigger first_of(t.nulls, n)]
            true implies {
                &&& first_of(t.arrays, n) == (if first_of(t0.arrays, n) is Some {
                    first_of(t0.arrays, n)
                } else if (f.schema is ArrayOf && f.name@ == n) {
                    Some(sql_type_of(*f.schema->ArrayOf_0)->Some_0.0)
                } else {
                    None
                })
                &&& first_of(t.maps, n) == (if first_of(t0.maps, n) is Some {
                    first_of(t0.maps, n)
                } else if (f.schema is MapOf && f.name@ == n) {
                    Some(sql_type_of(*f.schema->MapOf_0)->Some_0.0)
                } else {
                    None
                })
                &&& first_of(t.nulls, n) == (if first_of(t0.nulls, n) is Some {
                    first_of(t0.nulls, n)
                } else if (f.schema is Union && f.name@ == n) {
                    Some(sql_type_of(f.schema->Union_0@[1])->Some_0.1)
                } else {
                    None
                })
            } by {
            match f.schema {
                AvroSchema::ArrayOf(e) => {
                    lemma_first_of_push(t0.arrays, (f.name@, sql_type_of(*e)->Some_0.0), n);
                },
                AvroSchema::MapOf(e) => {
                    lemma_first_of_push(t0.maps, (f.name@, sql_type_of(*e)->Some_0.0), n);
                },
                AvroSchema::Union(vs) => {
                    lemma_first_of_push(t0.nulls, (f.name@, sql_type_of(vs@[1])->Some_0.1), n);
                },
                _ => {},
            }
        }
        assert forall|i: int| 0 <= i < fields.len() implies field_in_tables(
            #[trigger] fields[i],
            t,
        ) by {
            if i < pre.len() {
                assert(pre[i] == fields[i]);
                assert(field_in_tables(pre[i], t0));
            } else {
                assert(fields[i] == f);
            }
        }
        assert forall|n: Seq<char>|
            #![trigger first_of(t.arrays, n)]
            #![trigger first_of(t.maps, n)]
            #![trigger first_of(t.nulls, n)]
            (forall|i: int| 0 <= i < fields.len() ==> #[trigger] fields[i].name@ != n) implies {
                &&& first_of(t.arrays, n) is None
                &&& first_of(t.maps, n) is None
                &&& first_of(t.nulls, n) is None
            } by {
            assert forall|i: int| 0 <= i < pre.len() implies #[trigger] pre[i].name@ != n by {
                assert(pre[i] == fields[i]);
            }
            assert(fields[fields.len() - 1] == f);
        }
    }
}

} // verus!
