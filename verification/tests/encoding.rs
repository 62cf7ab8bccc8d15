use logstore::config::AppConfig;
use logstore::entry::Entry;
use logstore::json::{
    entries_to_json, entry_to_json, gap_frame, json_string, sse_frame, stats_to_json, u64_to_dec,
};
use logstore::store::Store;

fn entry(ts: &str, service: &str, level: &str, message: &str) -> Entry {
    Entry::new(
        String::from(ts),
        String::from(service),
        String::from(level),
        String::from(message),
    )
}

#[test]
fn entry_json_plain() {
    let e = entry("2024-01-01T00:00:00+00:00", "auth", "ERROR", "boom");
    assert_eq!(
        entry_to_json(&e),
        "{\"timestamp\":\"2024-01-01T00:00:00+00:00\",\"service\":\"auth\",\"level\":\"ERROR\",\"message\":\"boom\"}"
    );
}

#[test]
fn entry_json_escapes() {
    let e = entry("t", "s", "l", "say \"hi\"\\\n\tdone\r\u{8}\u{c}\u{1}\u{1f}end");
    assert_eq!(
        entry_to_json(&e),
        "{\"timestamp\":\"t\",\"service\":\"s\",\"level\":\"l\",\"message\":\"say \\\"hi\\\"\\\\\\n\\tdone\\r\\b\\f\\u0001\\u001fend\"}"
    );
}

#[test]
fn json_string_matches_reference_encoder() {
    // The verified string encoder agrees with serde_json on every kind of
    // escape and on non-ASCII text, which serde_json leaves unescaped.
    let cases = [
        "",
        "plain",
        "with \"quotes\" and \\backslash\\",
        "line\nbreak\ttab\rreturn",
        "ctrl \u{1} \u{2} \u{1f} \u{8} \u{c}",
        "caf\u{e9} \u{4e16}\u{754c}",
    ];
    for case in cases {
        let ours = json_string(&String::from(case));
        let reference = serde_json::to_string(&String::from(case)).unwrap();
        assert_eq!(ours, reference);
    }
}

#[test]
fn entries_json_array() {
    let mut store = Store::new(10);
    assert_eq!(entries_to_json(&store.snapshot()), "[]");
    store.append(entry("t1", "a", "INFO", "x"));
    store.append(entry("t2", "b", "WARN", "y"));
    assert_eq!(
        entries_to_json(&store.snapshot()),
        "[{\"timestamp\":\"t1\",\"service\":\"a\",\"level\":\"INFO\",\"message\":\"x\"},{\"timestamp\":\"t2\",\"service\":\"b\",\"level\":\"WARN\",\"message\":\"y\"}]"
    );
}

#[test]
fn stats_json_object() {
    let mut p = Store::new(100);
    for _ in 0..4 {
        p.append(entry("t", "auth", "INFO", "m"));
    }
    p.append(entry("t", "auth", "ERROR", "m"));
    p.append(entry("t", "auth", "ERROR", "m"));
    p.append(entry("t", "payments", "INFO", "m"));
    let stats = p.stats();
    assert_eq!(
        stats_to_json(&stats),
        "{\"by_level\":{\"INFO\":5,\"ERROR\":2},\"by_service\":{\"auth\":6,\"payments\":1}}"
    );
    let empty = Store::new(2);
    assert_eq!(stats_to_json(&empty.stats()), "{\"by_level\":{},\"by_service\":{}}");
}

#[test]
fn decimal_rendering() {
    assert_eq!(u64_to_dec(0), "0");
    assert_eq!(u64_to_dec(7), "7");
    assert_eq!(u64_to_dec(10), "10");
    assert_eq!(u64_to_dec(50000), "50000");
    assert_eq!(u64_to_dec(u64::MAX), "18446744073709551615");
}

#[test]
fn sse_frames() {
    let msg = String::from("{\"a\":1}");
    assert_eq!(sse_frame(&msg), "data: {\"a\":1}\n\n");
    assert_eq!(gap_frame(42), "event: gap\ndata: 42\n\n");
}

#[test]
fn config_defaults_and_explicit_values() {
    let d = AppConfig::default();
    assert_eq!(d.host, "127.0.0.1");
    assert_eq!(d.port, 8080);
    assert_eq!(d.snapshot_path, "logs.json");
    assert_eq!(d.max_entries, 50000);
    assert_eq!(d.snapshot_interval_secs, 10);

    let c = AppConfig::new(String::from("0.0.0.0"), 9000, String::from("/tmp/snap.json"), 123, 5);
    assert_eq!(c.host, "0.0.0.0");
    assert_eq!(c.port, 9000);
    assert_eq!(c.snapshot_path, "/tmp/snap.json");
    assert_eq!(c.max_entries, 123);
    assert_eq!(c.snapshot_interval_secs, 5);
}
