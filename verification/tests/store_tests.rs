use log_tail::record::SourceRecord;
use log_tail::store::Store;

fn rec(ts: i64, message: &str) -> SourceRecord {
    SourceRecord {
        timestamp: ts,
        level: "INFO".to_string(),
        category: "gateway".to_string(),
        origin: "worker-0".to_string(),
        message: message.to_string(),
    }
}

fn timestamps(batch: &[SourceRecord]) -> Vec<i64> {
    batch.iter().map(|r| r.timestamp).collect()
}

#[test]
fn fetch_without_watermark_returns_everything_descending() {
    let mut store = Store::new();
    store.insert(rec(100, "a"));
    store.insert(rec(200, "b"));
    store.insert(rec(300, "c"));
    let batch = store.fetch(None);
    assert_eq!(timestamps(&batch), vec![300, 200, 100]);
}

#[test]
fn fetch_sorts_an_unordered_store() {
    let mut store = Store::new();
    store.insert(rec(200, "b"));
    store.insert(rec(500, "e"));
    store.insert(rec(100, "a"));
    store.insert(rec(400, "d"));
    let batch = store.fetch(None);
    assert_eq!(timestamps(&batch), vec![500, 400, 200, 100]);
}

#[test]
fn fetch_with_watermark_returns_strictly_newer_only() {
    let mut store = Store::new();
    store.insert(rec(100, "a"));
    store.insert(rec(200, "b"));
    store.insert(rec(300, "c"));
    let batch = store.fetch(Some(150));
    assert_eq!(timestamps(&batch), vec![300, 200]);
    // a record exactly at the watermark is not returned
    let at_mark = store.fetch(Some(200));
    assert_eq!(timestamps(&at_mark), vec![300]);
}

#[test]
fn fetch_keeps_records_with_equal_timestamps() {
    let mut store = Store::new();
    store.insert(rec(300, "first"));
    store.insert(rec(300, "second"));
    store.insert(rec(100, "old"));
    let batch = store.fetch(Some(100));
    assert_eq!(timestamps(&batch), vec![300, 300]);
    let mut messages: Vec<String> = batch.iter().map(|r| r.message.clone()).collect();
    messages.sort();
    assert_eq!(messages, vec!["first".to_string(), "second".to_string()]);
}

#[test]
fn fetch_from_empty_store_is_empty() {
    let store = Store::new();
    assert!(store.fetch(None).is_empty());
    assert!(store.fetch(Some(0)).is_empty());
}

#[test]
fn fetch_carries_whole_records() {
    let mut store = Store::new();
    store.insert(SourceRecord {
        timestamp: 7,
        level: "ERROR".to_string(),
        category: "alarms".to_string(),
        origin: "pipeline-2".to_string(),
        message: "alarm dropped".to_string(),
    });
    let batch = store.fetch(None);
    assert_eq!(batch.len(), 1);
    assert_eq!(batch[0].level, "ERROR");
    assert_eq!(batch[0].category, "alarms");
    assert_eq!(batch[0].origin, "pipeline-2");
    assert_eq!(batch[0].message, "alarm dropped");
}
