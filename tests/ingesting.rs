use chafka::column::{ColumnValue, Row, Scalar};
use chafka::decoder::DecodeError;
use chafka::ingester::Ingester;
use chafka::offsets::OffsetTracker;
use chafka::settings::Ingester as IngesterConfig;

fn config(batch_size: usize) -> IngesterConfig {
    IngesterConfig {
        decoder: "example".to_string(),
        kafka_broker: "localhost:9092".to_string(),
        topic: "events".to_string(),
        consumer_group: Some("g".to_string()),
        batch_size: Some(batch_size),
        batch_timeout_seconds: Some(10),
        clickhouse_url: "tcp://localhost:9000".to_string(),
        clickhouse_table: "events_table".to_string(),
        custom: None,
    }
}

fn row(n: i64) -> Row {
    vec![("v".to_string(), ColumnValue::Scalar(Scalar::Int64(n)))]
}

fn topic() -> String {
    "events".to_string()
}

#[test]
fn new_ingester_starts_empty() {
    let ing = Ingester::new(&config(100));
    assert_eq!(ing.topic(), "events");
    assert_eq!(ing.table(), "events_table");
    assert_eq!(ing.batch_timeout_seconds(), 10);
    assert!(ing.pending_rows().is_empty());
    assert!(ing.wants_message());
}

#[test]
fn empty_window_needs_no_flush() {
    let mut ing = Ingester::new(&config(100));
    ing.begin_window();
    assert!(!ing.needs_flush());
}

#[test]
fn undecodable_message_alone_still_commits() {
    let mut ing = Ingester::new(&config(100));
    ing.begin_window();
    ing.on_message(&topic(), 0, 41, Err(DecodeError::Malformed));
    assert!(ing.needs_flush());
    assert!(ing.pending_rows().is_empty());
    assert_eq!(ing.on_insert(true), Some(vec![(topic(), 0, 42)]));
}

#[test]
fn timeout_flushes_accumulated_rows() {
    let mut ing = Ingester::new(&config(100));
    ing.begin_window();
    ing.on_message(&topic(), 0, 0, Ok(row(10)));
    ing.on_message(&topic(), 1, 7, Ok(row(11)));
    // the window ends by time-out with the batch not full
    assert!(ing.wants_message());
    assert!(ing.needs_flush());
    assert_eq!(ing.pending_rows(), &vec![row(10), row(11)]);
}

#[test]
fn full_batch_ends_window_and_next_starts_clean() {
    let mut ing = Ingester::new(&config(2));
    ing.begin_window();
    ing.on_message(&topic(), 0, 0, Ok(row(1)));
    assert!(ing.wants_message());
    ing.on_message(&topic(), 0, 1, Ok(row(2)));
    assert!(!ing.wants_message());
    assert!(ing.needs_flush());
    assert_eq!(ing.on_insert(true), Some(vec![(topic(), 0, 2)]));
    assert!(ing.pending_rows().is_empty());
    ing.begin_window();
    assert!(ing.wants_message());
    assert!(!ing.needs_flush());
}

#[test]
fn insert_retry() {
    let mut ing = Ingester::new(&config(100));
    ing.begin_window();
    ing.on_message(&topic(), 0, 3, Ok(row(1)));
    ing.on_message(&topic(), 1, 8, Ok(row(2)));
    ing.on_message(&topic(), 0, 4, Ok(row(3)));
    let expected = vec![row(1), row(2), row(3)];
    let mut presented = Vec::new();
    let mut commits = Vec::new();
    for ok in [false, false, true] {
        presented.push(ing.pending_rows().clone());
        if let Some(list) = ing.on_insert(ok) {
            commits.push(list);
        }
    }
    assert_eq!(presented, vec![expected.clone(), expected.clone(), expected]);
    assert_eq!(commits.len(), 1);
    let mut list = commits.pop().unwrap();
    list.sort();
    assert_eq!(list, vec![(topic(), 0, 5), (topic(), 1, 9)]);
    assert!(ing.pending_rows().is_empty());
}

#[test]
fn poison_pill() {
    let mut ing = Ingester::new(&config(100));
    ing.begin_window();
    for offset in 0..10i64 {
        let decoded = if offset == 5 { Err(DecodeError::Malformed) } else { Ok(row(offset)) };
        ing.on_message(&topic(), 0, offset, decoded);
    }
    let expected: Vec<Row> = [0, 1, 2, 3, 4, 6, 7, 8, 9].iter().map(|o| row(*o)).collect();
    assert_eq!(ing.pending_rows(), &expected);
    assert_eq!(ing.on_insert(true), Some(vec![(topic(), 0, 10)]));
}

#[test]
fn offsets_never_decrease() {
    let mut t = OffsetTracker::new();
    assert!(t.is_empty());
    t.record(&topic(), 0, 6);
    t.record(&topic(), 0, 4);
    assert_eq!(t.to_list(), vec![(topic(), 0, 6)]);
    t.record(&topic(), 0, 9);
    t.record(&"other".to_string(), 0, 1);
    assert_eq!(t.to_list(), vec![(topic(), 0, 9), ("other".to_string(), 0, 1)]);
    assert!(!t.is_empty());
}

#[test]
fn commits_cover_all_windows() {
    let mut ing = Ingester::new(&config(2));
    let mut committed: Vec<(String, i32, i64)> = Vec::new();
    let mut inserted: Vec<Row> = Vec::new();
    let windows: Vec<Vec<(i32, i64)>> = vec![vec![(0, 0), (1, 0)], vec![(0, 1)], vec![]];
    for w in windows {
        ing.begin_window();
        for (p, o) in w {
            ing.on_message(&topic(), p, o, Ok(row(o)));
        }
        if ing.needs_flush() {
            inserted.extend(ing.pending_rows().iter().cloned());
            for e in ing.on_insert(true).unwrap() {
                committed.retain(|c| !(c.0 == e.0 && c.1 == e.1));
                committed.push(e);
            }
        }
    }
    committed.sort();
    assert_eq!(committed, vec![(topic(), 0, 2), (topic(), 1, 1)]);
    assert_eq!(inserted, vec![row(0), row(0), row(1)]);
}

#[test]
fn insert_needed_only_with_rows() {
    let mut ing = Ingester::new(&config(100));
    ing.begin_window();
    assert!(!ing.insert_needed());
    ing.on_message(&topic(), 0, 0, Ok(row(1)));
    assert!(ing.insert_needed());
    ing.on_insert(true);
    assert!(!ing.insert_needed());
}
