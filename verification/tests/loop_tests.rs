use log_tail::record::{NormalizedRecord, SourceRecord};
use log_tail::store::Store;
use log_tail::tail::{FetchOutcome, LoopState, TailLoop};

fn rec(ts: i64, message: &str) -> SourceRecord {
    SourceRecord {
        timestamp: ts,
        level: "INFO".to_string(),
        category: "gateway".to_string(),
        origin: "worker-0".to_string(),
        message: message.to_string(),
    }
}

fn out_timestamps(out: &[NormalizedRecord]) -> Vec<i64> {
    out.iter().map(|n| n.timestamp).collect()
}

#[test]
fn first_cycle_delivers_history_and_sets_watermark() {
    let mut store = Store::new();
    store.insert(rec(100, "a"));
    store.insert(rec(200, "b"));
    store.insert(rec(300, "c"));
    let mut tail = TailLoop::new();
    assert_eq!(tail.watermark(), None);
    let out = tail.run_cycle(&store);
    assert_eq!(out_timestamps(&out), vec![300, 200, 100]);
    assert_eq!(tail.watermark(), Some(300));
    assert_eq!(tail.state(), LoopState::Idle);
}

#[test]
fn empty_cycle_backs_off_and_keeps_watermark() {
    let mut store = Store::new();
    store.insert(rec(100, "a"));
    store.insert(rec(200, "b"));
    store.insert(rec(300, "c"));
    let mut tail = TailLoop::new();
    tail.run_cycle(&store);
    assert_eq!(tail.watermark(), Some(300));
    // store unchanged: nothing is due
    let out = tail.run_cycle(&store);
    assert!(out.is_empty());
    assert_eq!(tail.watermark(), Some(300));
    assert_eq!(tail.state(), LoopState::Backoff);
}

#[test]
fn backdated_record_stays_invisible() {
    let mut store = Store::new();
    store.insert(rec(100, "a"));
    store.insert(rec(300, "c"));
    let mut tail = TailLoop::new();
    tail.run_cycle(&store);
    assert_eq!(tail.watermark(), Some(300));
    // a retroactive write below the watermark is never delivered
    store.insert(rec(250, "late"));
    let out = tail.run_cycle(&store);
    assert!(out.is_empty());
    assert_eq!(tail.watermark(), Some(300));
}

#[test]
fn watermark_is_monotonic_across_cycles() {
    let mut store = Store::new();
    let mut tail = TailLoop::new();
    let mut last: Option<i64> = None;
    let inserts: Vec<Vec<i64>> = vec![
        vec![10, 20],
        vec![],
        vec![15, 30],
        vec![],
        vec![25],
        vec![31],
    ];
    for batch in inserts {
        for ts in batch {
            store.insert(rec(ts, "x"));
        }
        tail.run_cycle(&store);
        let now = tail.watermark();
        match (last, now) {
            (Some(a), Some(b)) => assert!(a <= b),
            (Some(_), None) => panic!("watermark went unset"),
            _ => {}
        }
        last = now;
    }
    assert_eq!(last, Some(31));
}

#[test]
fn each_due_record_is_delivered_once_before_watermark_passes_it() {
    let mut store = Store::new();
    store.insert(rec(100, "a"));
    store.insert(rec(200, "b"));
    store.insert(rec(200, "b"));
    let mut tail = TailLoop::new();
    let out = tail.run_cycle(&store);
    // both copies of the duplicate row are delivered, exactly as stored
    let count = out.iter().filter(|n| n.timestamp == 200 && n.message == "b").count();
    assert_eq!(count, 2);
    assert_eq!(out.len(), 3);
    // and the watermark advanced past them only now
    assert_eq!(tail.watermark(), Some(200));
}

#[test]
fn cycle_projects_fields_into_normalized_schema() {
    let mut store = Store::new();
    store.insert(SourceRecord {
        timestamp: 9,
        level: "DEBUG".to_string(),
        category: "scripts".to_string(),
        origin: "executor-7".to_string(),
        message: "tick".to_string(),
    });
    let mut tail = TailLoop::new();
    let out = tail.run_cycle(&store);
    assert_eq!(out.len(), 1);
    assert_eq!(out[0].timestamp, 9);
    assert_eq!(out[0].level, "DEBUG");
    assert_eq!(out[0].category, "scripts");
    assert_eq!(out[0].source, "executor-7");
    assert_eq!(out[0].message, "tick");
}

#[test]
fn poll_turns_loop_to_fetching_and_hands_back_watermark() {
    let mut tail = TailLoop::new();
    let w = tail.poll_request();
    assert_eq!(w, None);
    assert_eq!(tail.state(), LoopState::Fetching);
}

#[test]
fn failed_query_backs_off_without_moving_watermark() {
    let mut tail = TailLoop::new();
    tail.poll_request();
    let out = tail.handle_fetch(FetchOutcome::QueryFailed);
    assert!(out.is_empty());
    assert_eq!(tail.state(), LoopState::Backoff);
    assert_eq!(tail.watermark(), None);
    // the next cycle retries the same range
    let w = tail.poll_request();
    assert_eq!(w, None);
}

#[test]
fn empty_batch_backs_off_without_emitting() {
    let mut tail = TailLoop::new();
    tail.poll_request();
    let out = tail.handle_fetch(FetchOutcome::Records(Vec::new()));
    assert!(out.is_empty());
    assert_eq!(tail.state(), LoopState::Backoff);
    assert_eq!(tail.watermark(), None);
}

#[test]
fn nonempty_batch_processes_then_finishes_to_idle() {
    let mut tail = TailLoop::new();
    tail.poll_request();
    let out = tail.handle_fetch(FetchOutcome::Records(vec![rec(5, "m"), rec(3, "n")]));
    assert_eq!(out_timestamps(&out), vec![5, 3]);
    assert_eq!(tail.state(), LoopState::Processing);
    assert_eq!(tail.watermark(), Some(5));
    tail.finish_cycle();
    assert_eq!(tail.state(), LoopState::Idle);
    assert_eq!(tail.watermark(), Some(5));
}

#[test]
fn watermark_is_true_maximum_not_first_element() {
    let mut tail = TailLoop::new();
    tail.poll_request();
    // an unordered batch: the maximum is computed, not assumed first
    let out = tail.handle_fetch(FetchOutcome::Records(vec![
        rec(3, "n"),
        rec(9, "m"),
        rec(4, "o"),
    ]));
    assert_eq!(out.len(), 3);
    assert_eq!(tail.watermark(), Some(9));
}

#[test]
fn poll_interval_is_ten_seconds() {
    assert_eq!(log_tail::POLL_INTERVAL_SECS, 10);
}
