use logstore::broadcast::{Broadcaster, Received};
use logstore::entry::Entry;
use logstore::ingest::{commit_timestamp, ingest, is_blank_str};
use logstore::json::entry_to_json;
use logstore::store::Store;

fn entry(ts: &str, service: &str, level: &str, message: &str) -> Entry {
    Entry::new(
        String::from(ts),
        String::from(service),
        String::from(level),
        String::from(message),
    )
}

fn publish_str(b: &mut Broadcaster, s: &str) {
    let msg = String::from(s);
    b.publish(&msg);
}

fn expect_message(b: &mut Broadcaster, id: usize) -> String {
    match b.try_receive(id) {
        Received::Message(m) => m,
        _ => panic!("expected a pending message"),
    }
}

#[test]
fn subscriber_receives_publishes_in_order() {
    let mut b = Broadcaster::new(10);
    let id = b.subscribe();
    assert!(matches!(b.try_receive(id), Received::Empty));
    for i in 0..5u64 {
        publish_str(&mut b, &format!("m{}", i));
    }
    for i in 0..5u64 {
        assert_eq!(expect_message(&mut b, id), format!("m{}", i));
    }
    assert!(matches!(b.try_receive(id), Received::Empty));
}

#[test]
fn subscriber_sees_only_future_messages() {
    let mut b = Broadcaster::new(10);
    publish_str(&mut b, "before");
    let id = b.subscribe();
    publish_str(&mut b, "after");
    assert_eq!(expect_message(&mut b, id), "after");
    assert!(matches!(b.try_receive(id), Received::Empty));
}

#[test]
fn stalled_subscriber_gets_gap_then_remainder() {
    // One healthy and one stalled subscriber, 100 publishes through queues
    // bounded at 10: the healthy one receives all 100 in order; the stalled
    // one is told it missed 90 and then drains the 10 most recent.
    let mut b = Broadcaster::new(10);
    let healthy = b.subscribe();
    let stalled = b.subscribe();
    for i in 0..100u64 {
        publish_str(&mut b, &format!("m{}", i));
        assert_eq!(expect_message(&mut b, healthy), format!("m{}", i));
    }
    assert!(matches!(b.try_receive(healthy), Received::Empty));
    match b.try_receive(stalled) {
        Received::Lagged(n) => assert_eq!(n, 90),
        _ => panic!("expected a gap notice"),
    }
    for i in 90..100u64 {
        assert_eq!(expect_message(&mut b, stalled), format!("m{}", i));
    }
    assert!(matches!(b.try_receive(stalled), Received::Empty));
}

#[test]
fn unsubscribe_closes_and_is_idempotent() {
    let mut b = Broadcaster::with_default_bound();
    let id = b.subscribe();
    publish_str(&mut b, "x");
    b.unsubscribe(id);
    assert!(matches!(b.try_receive(id), Received::Closed));
    // Publishing at a closed subscription must not fault it back open.
    publish_str(&mut b, "y");
    assert!(matches!(b.try_receive(id), Received::Closed));
    b.unsubscribe(id);
    assert!(matches!(b.try_receive(id), Received::Closed));
    // An unknown handle is simply closed.
    assert!(matches!(b.try_receive(99), Received::Closed));
    b.unsubscribe(99);
    assert_eq!(b.sub_count(), 1);
}

#[test]
fn blankness_of_timestamps() {
    assert!(is_blank_str(&String::from("")));
    assert!(is_blank_str(&String::from("   ")));
    assert!(is_blank_str(&String::from(" \t\r\n")));
    assert!(!is_blank_str(&String::from("2024-01-01T00:00:00Z")));
    assert!(!is_blank_str(&String::from("  x  ")));
}

#[test]
fn commit_keeps_or_assigns_timestamp() {
    let assigned = String::from("2024-06-01T12:00:00+00:00");
    let kept = commit_timestamp(entry("2023-01-01T00:00:00Z", "s", "l", "m"), assigned.clone());
    assert_eq!(kept.timestamp, "2023-01-01T00:00:00Z");
    let replaced = commit_timestamp(entry(" \t", "s", "l", "m"), assigned.clone());
    assert_eq!(replaced.timestamp, "2024-06-01T12:00:00+00:00");
    assert_eq!(replaced.service, "s");
    assert_eq!(replaced.level, "l");
    assert_eq!(replaced.message, "m");
}

#[test]
fn ingest_assigns_parseable_timestamp() {
    // An omitted timestamp is replaced by the server clock: non-empty,
    // RFC 3339 parseable, and close to now.
    let mut store = Store::new(100);
    let mut b = Broadcaster::new(10);
    let mut counter = 0u64;
    let committed = ingest(
        &mut store,
        &mut b,
        entry("", "auth", "ERROR", "boom"),
        &mut counter,
    );
    assert!(!committed.timestamp.is_empty());
    let parsed = chrono::DateTime::parse_from_rfc3339(&committed.timestamp)
        .expect("assigned timestamp must parse as RFC 3339");
    let age = chrono::Utc::now().signed_duration_since(parsed.with_timezone(&chrono::Utc));
    assert!(age.num_seconds().abs() < 60);
    assert_eq!(committed.service, "auth");
    assert_eq!(committed.level, "ERROR");
    assert_eq!(committed.message, "boom");
    assert_eq!(counter, 1);
    assert_eq!(store.len(), 1);
    assert_eq!(store.get(0).timestamp, committed.timestamp);
}

#[test]
fn ingest_keeps_given_timestamp_and_counts() {
    let mut store = Store::new(100);
    let mut b = Broadcaster::new(10);
    let mut counter = 7u64;
    let committed = ingest(
        &mut store,
        &mut b,
        entry("2024-01-01T00:00:00Z", "auth", "INFO", "hello"),
        &mut counter,
    );
    assert_eq!(committed.timestamp, "2024-01-01T00:00:00Z");
    assert_eq!(counter, 8);
}

#[test]
fn ingest_publishes_committed_entry_to_subscribers() {
    // A subscription opened before the ingest receives exactly the committed
    // entry's JSON encoding, and nothing before it.
    let mut store = Store::new(100);
    let mut b = Broadcaster::new(10);
    let mut counter = 0u64;
    let id = b.subscribe();
    assert!(matches!(b.try_receive(id), Received::Empty));
    let committed = ingest(
        &mut store,
        &mut b,
        entry("2024-01-01T00:00:00Z", "auth", "ERROR", "boom"),
        &mut counter,
    );
    let frame = expect_message(&mut b, id);
    assert_eq!(frame, entry_to_json(&committed));
    assert_eq!(
        frame,
        "{\"timestamp\":\"2024-01-01T00:00:00Z\",\"service\":\"auth\",\"level\":\"ERROR\",\"message\":\"boom\"}"
    );
    assert!(matches!(b.try_receive(id), Received::Empty));
}

#[test]
fn ingest_evicts_when_store_is_full() {
    let mut store = Store::new(2);
    let mut b = Broadcaster::new(10);
    let mut counter = 0u64;
    for i in 0..3u64 {
        ingest(
            &mut store,
            &mut b,
            entry("2024-01-01T00:00:00Z", "s", "INFO", &format!("m{}", i)),
            &mut counter,
        );
    }
    assert_eq!(store.len(), 2);
    assert_eq!(store.get(0).message, "m1");
    assert_eq!(store.get(1).message, "m2");
    assert_eq!(counter, 3);
}
