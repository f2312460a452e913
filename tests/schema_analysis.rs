use chafka::column::{ColumnType, Scalar};
use chafka::decoder::schema::{
    analyze_schema, get_schema_type, AvroSchema, FieldSchema, RecordSchema, SchemaError,
};

fn record(fields: Vec<(&str, AvroSchema)>) -> RecordSchema {
    RecordSchema {
        fields: fields
            .into_iter()
            .map(|(n, s)| FieldSchema { name: n.to_string(), schema: s })
            .collect(),
    }
}

#[test]
fn union_with_null_second_is_rejected() {
    let r = record(vec![("x", AvroSchema::Union(vec![AvroSchema::Long, AvroSchema::Null]))]);
    assert_eq!(analyze_schema(&r).err(), Some(SchemaError::BadUnion));
}

#[test]
fn union_of_three_is_rejected() {
    let r = record(vec![(
        "x",
        AvroSchema::Union(vec![AvroSchema::Null, AvroSchema::Long, AvroSchema::String]),
    )]);
    assert_eq!(analyze_schema(&r).err(), Some(SchemaError::BadUnion));
}

#[test]
fn nested_record_is_rejected() {
    let inner = record(vec![("y", AvroSchema::Int)]);
    let r = record(vec![("a", AvroSchema::Long), ("x", AvroSchema::Record(inner))]);
    assert_eq!(analyze_schema(&r).err(), Some(SchemaError::NestedRecord));
}

#[test]
fn unsupported_element_is_rejected() {
    let r = record(vec![("d", AvroSchema::ArrayOf(Box::new(AvroSchema::Decimal)))]);
    assert_eq!(analyze_schema(&r).err(), Some(SchemaError::UnsupportedType));
    let r = record(vec![("d", AvroSchema::Union(vec![AvroSchema::Null, AvroSchema::Fixed]))]);
    assert_eq!(analyze_schema(&r).err(), Some(SchemaError::UnsupportedType));
}

#[test]
fn analysis_builds_tables() {
    let r = record(vec![
        ("a", AvroSchema::Long),
        ("c", AvroSchema::ArrayOf(Box::new(AvroSchema::Int))),
        ("m", AvroSchema::MapOf(Box::new(AvroSchema::String))),
        ("n", AvroSchema::Union(vec![AvroSchema::Null, AvroSchema::String])),
        ("t", AvroSchema::Union(vec![AvroSchema::Null, AvroSchema::TimestampMicros])),
    ]);
    let (arrays, maps, nulls) = analyze_schema(&r).unwrap();
    assert_eq!(arrays.0, vec![("c".to_string(), ColumnType::Int32)]);
    assert_eq!(maps.0, vec![("m".to_string(), ColumnType::String)]);
    assert_eq!(
        nulls.0,
        vec![
            ("n".to_string(), Scalar::String(Vec::new())),
            ("t".to_string(), Scalar::DateTime64(0, 6)),
        ]
    );
    assert_eq!(arrays.get_type(&"c".to_string()), Some(ColumnType::Int32));
    assert_eq!(arrays.get_type(&"m".to_string()), None);
    assert_eq!(nulls.get_value(&"t".to_string()), Some(Scalar::DateTime64(0, 6)));
}

#[test]
fn column_types_of_avro_types() {
    let cases = vec![
        (AvroSchema::Boolean, ColumnType::Bool, Scalar::Bool(false)),
        (AvroSchema::Int, ColumnType::Int32, Scalar::Int32(0)),
        (AvroSchema::Long, ColumnType::Int64, Scalar::Int64(0)),
        (AvroSchema::Float, ColumnType::Float32, Scalar::Float32(0)),
        (AvroSchema::Double, ColumnType::Float64, Scalar::Float64(0)),
        (AvroSchema::Bytes, ColumnType::String, Scalar::String(Vec::new())),
        (AvroSchema::String, ColumnType::String, Scalar::String(Vec::new())),
        (AvroSchema::Uuid, ColumnType::Uuid, Scalar::Uuid(0)),
        (AvroSchema::Date, ColumnType::Date, Scalar::Date(0)),
        (AvroSchema::TimeMillis, ColumnType::Int32, Scalar::DateTime(0)),
        (AvroSchema::TimeMicros, ColumnType::Int32, Scalar::DateTime(0)),
        (AvroSchema::TimestampMillis, ColumnType::DateTime64(3), Scalar::DateTime64(0, 3)),
        (AvroSchema::TimestampMicros, ColumnType::DateTime64(6), Scalar::DateTime64(0, 6)),
        (AvroSchema::LocalTimestampMillis, ColumnType::DateTime64(3), Scalar::DateTime64(0, 3)),
        (AvroSchema::LocalTimestampMicros, ColumnType::DateTime64(6), Scalar::DateTime64(0, 6)),
        (AvroSchema::Duration, ColumnType::Int64, Scalar::UInt64(0)),
    ];
    for (s, t, z) in cases {
        assert_eq!(get_schema_type(&s), Ok((t, z)));
    }
    for s in [AvroSchema::Null, AvroSchema::Decimal, AvroSchema::Fixed, AvroSchema::Enum, AvroSchema::Other] {
        assert_eq!(get_schema_type(&s), Err(SchemaError::UnsupportedType));
    }
}
