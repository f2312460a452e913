use chafka::column::{ColumnType, ColumnValue, Scalar};
use chafka::decoder::{example, get_decoder, static_avro_example, DecoderChoice, FactoryError};
use chafka::settings::{Ingester, Settings};

fn bare(topic: &str) -> Ingester {
    Ingester {
        decoder: "avro".to_string(),
        kafka_broker: "localhost:9092".to_string(),
        topic: topic.to_string(),
        consumer_group: None,
        batch_size: None,
        batch_timeout_seconds: None,
        clickhouse_url: "tcp://localhost:9000".to_string(),
        clickhouse_table: "t".to_string(),
        custom: None,
    }
}

#[test]
fn defaults_are_filled_in() {
    let mut configured = bare("b");
    configured.consumer_group = Some("group-b".to_string());
    configured.batch_size = Some(5);
    configured.batch_timeout_seconds = Some(2);
    let s = Settings::new(vec![("first".to_string(), bare("a")), ("second".to_string(), configured)]);
    assert_eq!(s.ingesters.len(), 2);
    let (n, a) = &s.ingesters[0];
    assert_eq!(n, "first");
    assert_eq!(a.consumer_group.as_deref(), Some("first"));
    assert_eq!(a.batch_size, Some(1000));
    assert_eq!(a.batch_timeout_seconds, Some(10));
    assert_eq!(a.topic, "a");
    let (n, b) = &s.ingesters[1];
    assert_eq!(n, "second");
    assert_eq!(b.consumer_group.as_deref(), Some("group-b"));
    assert_eq!(b.batch_size, Some(5));
    assert_eq!(b.batch_timeout_seconds, Some(2));
}

#[test]
fn decoders_by_name() {
    assert!(matches!(get_decoder(&"example".to_string(), None), Ok(DecoderChoice::Example)));
    assert!(matches!(
        get_decoder(&"test-avro".to_string(), None),
        Ok(DecoderChoice::StaticAvroExample)
    ));
    assert!(matches!(
        get_decoder(&"avro".to_string(), None),
        Err(FactoryError::MissingAvroSettings)
    ));
    let table = toml::Value::Table(toml::map::Map::new());
    assert!(matches!(
        get_decoder(&"avro".to_string(), Some(table)),
        Ok(DecoderChoice::Avro(toml::Value::Table(_)))
    ));
    assert!(matches!(
        get_decoder(&"protobuf".to_string(), None),
        Err(FactoryError::UnknownDecoder)
    ));
}

#[test]
fn example_decoder_happy_path() {
    let payload = br#"{"key":"00000000-0000-0000-0000-000000000001","value":42}"#;
    let json: serde_json::Value = serde_json::from_slice(payload).unwrap();
    let key = uuid::Uuid::parse_str(json["key"].as_str().unwrap()).unwrap().as_u128();
    let value = json["value"].as_i64().unwrap();
    let d = example::Decoder;
    assert_eq!(d.get_name(), "example");
    assert_eq!(
        d.entry_row(key, value),
        vec![
            ("id".to_string(), ColumnValue::Scalar(Scalar::Uuid(1))),
            ("v".to_string(), ColumnValue::Scalar(Scalar::Int64(42))),
        ]
    );
}

#[test]
fn static_avro_example_row() {
    let d = static_avro_example::new();
    assert_eq!(d.get_name(), "static-avro-example");
    assert_eq!(
        d.entry_row(7, &"hi".to_string(), &vec![1, 2, 3]),
        vec![
            ("a".to_string(), ColumnValue::Scalar(Scalar::Int64(7))),
            ("b".to_string(), ColumnValue::Scalar(Scalar::String(b"hi".to_vec()))),
            (
                "c".to_string(),
                ColumnValue::Array(
                    ColumnType::Int32,
                    vec![Scalar::Int32(1), Scalar::Int32(2), Scalar::Int32(3)]
                )
            ),
        ]
    );
}
