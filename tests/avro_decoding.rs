use chafka::column::{ColumnType, ColumnValue, Scalar};
use chafka::decoder::avro::{
    duration_to_millis, get_schema_source, new, scalar_to_column, timestamp_cell, AvroScalar,
    AvroDatum, AvroValue, Decoder, SchemaSource, Settings,
};
use chafka::decoder::schema::{AvroSchema, FieldSchema, RecordSchema, SchemaError};
use chafka::decoder::{confluent_payload, DecodeError};

fn field(name: &str, schema: AvroSchema) -> FieldSchema {
    FieldSchema { name: name.to_string(), schema }
}

fn no_settings() -> Settings {
    Settings {
        field_names: None,
        include_fields: None,
        exclude_fields: None,
        schema_file: None,
        registry_url: None,
    }
}

fn test_schema() -> AvroSchema {
    AvroSchema::Record(RecordSchema {
        fields: vec![
            field("a", AvroSchema::Long),
            field("b", AvroSchema::String),
            field("c", AvroSchema::ArrayOf(Box::new(AvroSchema::Int))),
        ],
    })
}

fn test_record() -> Vec<(String, AvroValue)> {
    vec![
        ("a".to_string(), AvroValue::Plain(AvroScalar::Long(7))),
        ("b".to_string(), AvroValue::Plain(AvroScalar::String(b"hi".to_vec()))),
        (
            "c".to_string(),
            AvroValue::Array(vec![AvroScalar::Int(1), AvroScalar::Int(2), AvroScalar::Int(3)]),
        ),
    ]
}

fn ints(xs: &[i32]) -> Vec<Scalar> {
    xs.iter().map(|x| Scalar::Int32(*x)).collect()
}

fn decoder_with(settings: Settings) -> Decoder {
    new(test_schema(), settings).unwrap()
}

#[test]
fn avro_happy_path() {
    let d = decoder_with(no_settings());
    let row = d.decode_record(&test_record()).unwrap();
    assert_eq!(
        row,
        vec![
            ("a".to_string(), ColumnValue::Scalar(Scalar::Int64(7))),
            ("b".to_string(), ColumnValue::Scalar(Scalar::String(b"hi".to_vec()))),
            ("c".to_string(), ColumnValue::Array(ColumnType::Int32, ints(&[1, 2, 3]))),
        ]
    );
}

#[test]
fn confluent_header_is_skipped() {
    let message = [0u8, 0, 0, 0, 42, 14, 4, 104, 105];
    assert_eq!(confluent_payload(&message), Some(&message[5..]));
    assert_eq!(confluent_payload(&message[..5]), Some(&message[5..5]));
    assert_eq!(confluent_payload(&message[..4]), None);
}

fn nullable_decoder() -> Decoder {
    let schema = AvroSchema::Record(RecordSchema {
        fields: vec![field(
            "x",
            AvroSchema::Union(vec![AvroSchema::Null, AvroSchema::Long]),
        )],
    });
    new(schema, no_settings()).unwrap()
}

#[test]
fn nullable_field_null_branch() {
    let d = nullable_decoder();
    let row = d
        .decode_record(&vec![("x".to_string(), AvroValue::Union(AvroScalar::Null))])
        .unwrap();
    assert_eq!(row, vec![("x".to_string(), ColumnValue::Scalar(Scalar::Int64(0)))]);
    let row = d
        .decode_record(&vec![("x".to_string(), AvroValue::Union(AvroScalar::Long(5)))])
        .unwrap();
    assert_eq!(row, vec![("x".to_string(), ColumnValue::Scalar(Scalar::Int64(5)))]);
}

#[test]
fn null_outside_union_is_rejected() {
    let d = nullable_decoder();
    let r = d.decode_record(&vec![("x".to_string(), AvroValue::Plain(AvroScalar::Null))]);
    assert_eq!(r, Err(DecodeError::UnexpectedNull));
}

#[test]
fn field_rename_and_exclude() {
    let mut s = no_settings();
    s.field_names = Some(vec![("c".to_string(), "c_arr".to_string())]);
    s.exclude_fields = Some(vec!["b".to_string()]);
    let d = decoder_with(s);
    let row = d.decode_record(&test_record()).unwrap();
    assert_eq!(
        row,
        vec![
            ("a".to_string(), ColumnValue::Scalar(Scalar::Int64(7))),
            ("c_arr".to_string(), ColumnValue::Array(ColumnType::Int32, ints(&[1, 2, 3]))),
        ]
    );
}

#[test]
fn include_keeps_only_listed_fields() {
    let mut s = no_settings();
    s.include_fields = Some(vec!["b".to_string(), "c".to_string()]);
    s.exclude_fields = Some(vec!["c".to_string()]);
    let d = decoder_with(s);
    let row = d.decode_record(&test_record()).unwrap();
    assert_eq!(
        row,
        vec![("b".to_string(), ColumnValue::Scalar(Scalar::String(b"hi".to_vec())))]
    );
}

#[test]
fn map_field_uses_value_type() {
    let schema = AvroSchema::Record(RecordSchema {
        fields: vec![field("m", AvroSchema::MapOf(Box::new(AvroSchema::Double)))],
    });
    let d = new(schema, no_settings()).unwrap();
    let one = 1.5f64.to_bits();
    let row = d
        .decode_record(&vec![(
            "m".to_string(),
            AvroValue::Mapping(vec![("k".to_string(), AvroScalar::Double(one))]),
        )])
        .unwrap();
    assert_eq!(
        row,
        vec![(
            "m".to_string(),
            ColumnValue::Mapping(
                ColumnType::Float64,
                vec![("k".to_string(), Scalar::Float64(one))]
            )
        )]
    );
}

#[test]
fn array_without_recorded_type_is_an_error() {
    let d = decoder_with(no_settings());
    let r = d.decode_record(&vec![(
        "b".to_string(),
        AvroValue::Array(vec![AvroScalar::Int(1)]),
    )]);
    assert_eq!(r, Err(DecodeError::MissingArrayType));
}

#[test]
fn nested_values_are_rejected() {
    assert_eq!(scalar_to_column(&AvroScalar::Record), Err(DecodeError::NestedRecord));
    assert_eq!(scalar_to_column(&AvroScalar::Decimal), Err(DecodeError::UnsupportedDecimal));
    assert_eq!(scalar_to_column(&AvroScalar::Nested), Err(DecodeError::UnsupportedNesting));
}

#[test]
fn duration_is_flattened_to_millis() {
    assert_eq!(duration_to_millis(1, 2, 3), (30 * 86400 + 2 * 86400) * 1000 + 3);
    assert_eq!(
        duration_to_millis(u32::MAX, u32::MAX, u32::MAX),
        (u32::MAX as u64 * 30 * 86400 + u32::MAX as u64 * 86400) * 1000 + u32::MAX as u64
    );
    assert_eq!(
        scalar_to_column(&AvroScalar::Duration { months: 0, days: 1, millis: 5 }),
        Ok(Scalar::UInt64(86_400_005))
    );
}

#[test]
fn timestamps_keep_their_precision() {
    assert_eq!(
        scalar_to_column(&AvroScalar::TimestampMillis(1500)),
        Ok(Scalar::DateTime64(1500, 3))
    );
    assert_eq!(
        scalar_to_column(&AvroScalar::TimestampMillis(1_700_000_000_123)),
        Ok(Scalar::DateTime64(1_700_000_000_123, 3))
    );
    assert_eq!(
        scalar_to_column(&AvroScalar::LocalTimestampMicros(1_700_000_000_999_999)),
        Ok(Scalar::DateTime64(1_700_000_000_999_999, 6))
    );
    assert_eq!(
        scalar_to_column(&AvroScalar::TimestampMillis(-1)),
        Ok(Scalar::DateTime64(-1, 3))
    );
    assert_eq!(
        scalar_to_column(&AvroScalar::TimestampMillis(i64::MAX)),
        Err(DecodeError::TimestampOutOfRange)
    );
    assert_eq!(
        scalar_to_column(&AvroScalar::TimestampMicros(i64::MIN)),
        Err(DecodeError::TimestampOutOfRange)
    );
    assert_eq!(timestamp_cell(false, 5, 3), Err(DecodeError::TimestampOutOfRange));
    assert_eq!(timestamp_cell(true, 5, 6), Ok(Scalar::DateTime64(5, 6)));
}

#[test]
fn scalar_conversions() {
    assert_eq!(scalar_to_column(&AvroScalar::Date(70_000)), Ok(Scalar::Date(4464)));
    assert_eq!(scalar_to_column(&AvroScalar::TimeMillis(12)), Ok(Scalar::Int32(12)));
    assert_eq!(scalar_to_column(&AvroScalar::TimeMicros(12)), Ok(Scalar::Int64(12)));
    assert_eq!(
        scalar_to_column(&AvroScalar::Enum(b"RED".to_vec())),
        Ok(Scalar::String(b"RED".to_vec()))
    );
    assert_eq!(
        scalar_to_column(&AvroScalar::Fixed(vec![1, 2])),
        Ok(Scalar::String(vec![1, 2]))
    );
    assert_eq!(scalar_to_column(&AvroScalar::Uuid(9)), Ok(Scalar::Uuid(9)));
    assert_eq!(scalar_to_column(&AvroScalar::Boolean(true)), Ok(Scalar::Bool(true)));
}

#[test]
fn root_must_be_a_record() {
    assert_eq!(new(AvroSchema::Long, no_settings()).err(), Some(SchemaError::RootNotRecord));
}

#[test]
fn schema_source_order() {
    let topic = "orders".to_string();
    let mut s = no_settings();
    assert_eq!(get_schema_source(&topic, &s), Err(SchemaError::NoSchemaSource));
    s.registry_url = Some("http://registry:8081".to_string());
    assert_eq!(
        get_schema_source(&topic, &s),
        Ok(SchemaSource::Registry {
            url: "http://registry:8081".to_string(),
            subject: "orders-value".to_string(),
        })
    );
    s.schema_file = Some("./example.avsc".to_string());
    assert_eq!(
        get_schema_source(&topic, &s),
        Ok(SchemaSource::File("./example.avsc".to_string()))
    );
}

#[test]
fn fields_follow_their_schema_shapes() {
    let schema = AvroSchema::Record(RecordSchema {
        fields: vec![
            field("n", AvroSchema::Union(vec![AvroSchema::Null, AvroSchema::TimestampMillis])),
            field("arr", AvroSchema::ArrayOf(Box::new(AvroSchema::String))),
            field("m", AvroSchema::MapOf(Box::new(AvroSchema::Long))),
            field("u", AvroSchema::Uuid),
        ],
    });
    let d = new(schema, no_settings()).unwrap();
    assert_eq!(d.get_name(), "avro");
    let row = d
        .decode_record(&vec![
            ("n".to_string(), AvroValue::Union(AvroScalar::Null)),
            ("arr".to_string(), AvroValue::Array(vec![AvroScalar::String(b"x".to_vec())])),
            ("m".to_string(), AvroValue::Mapping(vec![("k".to_string(), AvroScalar::Long(3))])),
            ("u".to_string(), AvroValue::Plain(AvroScalar::Uuid(77))),
        ])
        .unwrap();
    assert_eq!(
        row,
        vec![
            ("n".to_string(), ColumnValue::Scalar(Scalar::DateTime64(0, 3))),
            (
                "arr".to_string(),
                ColumnValue::Array(ColumnType::String, vec![Scalar::String(b"x".to_vec())])
            ),
            (
                "m".to_string(),
                ColumnValue::Mapping(ColumnType::Int64, vec![("k".to_string(), Scalar::Int64(3))])
            ),
            ("u".to_string(), ColumnValue::Scalar(Scalar::Uuid(77))),
        ]
    );
}

#[test]
fn timestamp_range_edges() {
    let first_ms: i64 = -96465292 * 86_400_000;
    let last_ms: i64 = (95026236 + 1) * 86_400_000 - 1;
    assert!(scalar_to_column(&AvroScalar::TimestampMillis(first_ms)).is_ok());
    assert_eq!(
        scalar_to_column(&AvroScalar::TimestampMillis(first_ms - 1)),
        Err(DecodeError::TimestampOutOfRange)
    );
    assert!(scalar_to_column(&AvroScalar::TimestampMillis(last_ms)).is_ok());
    assert_eq!(
        scalar_to_column(&AvroScalar::TimestampMillis(last_ms + 1)),
        Err(DecodeError::TimestampOutOfRange)
    );
    let first_us: i64 = -96465292 * 86_400_000_000;
    let last_us: i64 = (95026236 + 1) * 86_400_000_000 - 1;
    assert!(scalar_to_column(&AvroScalar::TimestampMicros(first_us)).is_ok());
    assert_eq!(
        scalar_to_column(&AvroScalar::TimestampMicros(first_us - 1)),
        Err(DecodeError::TimestampOutOfRange)
    );
    assert!(scalar_to_column(&AvroScalar::LocalTimestampMicros(last_us)).is_ok());
    assert_eq!(
        scalar_to_column(&AvroScalar::LocalTimestampMicros(last_us + 1)),
        Err(DecodeError::TimestampOutOfRange)
    );
}

#[test]
fn missing_table_entries_are_errors() {
    let d = decoder_with(no_settings());
    let r = d.decode_record(&vec![("a".to_string(), AvroValue::Union(AvroScalar::Null))]);
    assert_eq!(r, Err(DecodeError::MissingNullable));
    let r = d.decode_record(&vec![(
        "a".to_string(),
        AvroValue::Mapping(vec![("k".to_string(), AvroScalar::Long(1))]),
    )]);
    assert_eq!(r, Err(DecodeError::MissingMapType));
}

#[test]
fn first_failing_field_decides_the_error() {
    let d = decoder_with(no_settings());
    let r = d.decode_record(&vec![
        ("a".to_string(), AvroValue::Plain(AvroScalar::Decimal)),
        ("b".to_string(), AvroValue::Plain(AvroScalar::Null)),
    ]);
    assert_eq!(r, Err(DecodeError::UnsupportedDecimal));
    let mut s = no_settings();
    s.exclude_fields = Some(vec!["a".to_string()]);
    let d = decoder_with(s);
    let r = d.decode_record(&vec![
        ("a".to_string(), AvroValue::Plain(AvroScalar::Decimal)),
        ("b".to_string(), AvroValue::Plain(AvroScalar::Null)),
    ]);
    assert_eq!(r, Err(DecodeError::UnexpectedNull));
}

#[test]
fn datum_must_be_a_record() {
    let d = decoder_with(no_settings());
    assert_eq!(d.decode(&AvroDatum::Other), Err(DecodeError::NotARecord));
    assert_eq!(
        d.decode(&AvroDatum::Record(test_record())),
        d.decode_record(&test_record())
    );
}

#[test]
fn nullable_timestamp_keeps_one_column_type() {
    let schema = AvroSchema::Record(RecordSchema {
        fields: vec![field(
            "t",
            AvroSchema::Union(vec![AvroSchema::Null, AvroSchema::TimestampMillis]),
        )],
    });
    let d = new(schema, no_settings()).unwrap();
    let null = d
        .decode_record(&vec![("t".to_string(), AvroValue::Union(AvroScalar::Null))])
        .unwrap();
    let set = d
        .decode_record(&vec![(
            "t".to_string(),
            AvroValue::Union(AvroScalar::TimestampMillis(1500)),
        )])
        .unwrap();
    assert_eq!(null, vec![("t".to_string(), ColumnValue::Scalar(Scalar::DateTime64(0, 3)))]);
    assert_eq!(set, vec![("t".to_string(), ColumnValue::Scalar(Scalar::DateTime64(1500, 3)))]);
}
