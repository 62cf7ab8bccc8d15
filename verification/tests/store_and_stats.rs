use logstore::entry::Entry;
use logstore::stats::Stats;
use logstore::store::Store;

fn entry(service: &str, level: &str, message: &str) -> Entry {
    Entry::new(
        String::from("2024-01-01T00:00:00+00:00"),
        String::from(service),
        String::from(level),
        String::from(message),
    )
}

fn dataset() -> Store {
    // {auth,INFO} x3, {auth,ERROR} x2, {payments,INFO} x1
    let mut store = Store::new(1000);
    store.append(entry("auth", "INFO", "m1"));
    store.append(entry("auth", "INFO", "m2"));
    store.append(entry("auth", "INFO", "m3"));
    store.append(entry("auth", "ERROR", "m4"));
    store.append(entry("auth", "ERROR", "m5"));
    store.append(entry("payments", "INFO", "m6"));
    store
}

#[test]
fn append_keeps_only_capacity_window() {
    // 50,005 appends against the default bound of 50,000: the 5 oldest are
    // evicted and entries 6 through 50,005 survive in arrival order.
    let mut store = Store::with_default_capacity();
    for i in 1..=50005u64 {
        store.append(entry("svc", "INFO", &format!("msg{}", i)));
    }
    assert_eq!(store.len(), 50000);
    assert_eq!(store.get(0).message, "msg6");
    assert_eq!(store.get(49999).message, "msg50005");
}

#[test]
fn append_small_capacity_evicts_oldest() {
    let mut store = Store::new(3);
    for i in 1..=5u64 {
        store.append(entry("svc", "INFO", &format!("m{}", i)));
    }
    assert_eq!(store.len(), 3);
    assert_eq!(store.get(0).message, "m3");
    assert_eq!(store.get(1).message, "m4");
    assert_eq!(store.get(2).message, "m5");
}

#[test]
fn append_below_capacity_keeps_everything() {
    let mut store = Store::new(10);
    for i in 1..=4u64 {
        store.append(entry("svc", "WARN", &format!("m{}", i)));
    }
    assert_eq!(store.len(), 4);
    for i in 0..4usize {
        assert_eq!(store.get(i).message, format!("m{}", i + 1));
    }
}

#[test]
fn interleaved_producers_fill_the_window() {
    // Three producers with ten entries each, interleaved round-robin into a
    // store bounded at 25: the length is min(30, 25) and the survivors are
    // exactly the last 25 in arrival order, none lost, none duplicated.
    let mut store = Store::new(25);
    let mut arrivals: Vec<String> = Vec::new();
    for k in 0..10u64 {
        for p in 0..3u64 {
            let message = format!("p{}k{}", p, k);
            arrivals.push(message.clone());
            store.append(entry("svc", "INFO", &message));
        }
    }
    assert_eq!(store.len(), 25);
    for i in 0..25usize {
        assert_eq!(store.get(i).message, arrivals[5 + i]);
    }
}

#[test]
fn query_filters_by_service_and_level() {
    let store = dataset();
    let service = String::from("auth");
    let level = String::from("ERROR");
    let hits = store.query(Some(&service), Some(&level));
    assert_eq!(hits.len(), 2);
    assert_eq!(hits[0].message, "m4");
    assert_eq!(hits[1].message, "m5");
    for e in &hits {
        assert_eq!(e.service, "auth");
        assert_eq!(e.level, "ERROR");
    }
}

#[test]
fn query_single_filters_and_match_all() {
    let store = dataset();
    let service = String::from("auth");
    let by_service = store.query(Some(&service), None);
    assert_eq!(by_service.len(), 5);

    let level = String::from("INFO");
    let by_level = store.query(None, Some(&level));
    assert_eq!(by_level.len(), 4);
    assert_eq!(by_level[3].message, "m6");

    let all = store.query(None, None);
    assert_eq!(all.len(), 6);
    for (i, e) in all.iter().enumerate() {
        assert_eq!(e.message, format!("m{}", i + 1));
    }

    let absent = String::from("nobody");
    let none = store.query(Some(&absent), None);
    assert!(none.is_empty());
}

#[test]
fn snapshot_is_a_faithful_copy() {
    let mut store = dataset();
    let snap = store.snapshot();
    assert_eq!(snap.len(), 6);
    store.append(entry("auth", "INFO", "later"));
    assert_eq!(snap.len(), 6);
    assert_eq!(snap[0].message, "m1");
    assert_eq!(snap[5].message, "m6");
}

#[test]
fn stats_counts_levels_and_services() {
    let store = dataset();
    let stats: Stats = store.stats();
    assert_eq!(stats.by_level.get(&String::from("INFO")), 4);
    assert_eq!(stats.by_level.get(&String::from("ERROR")), 2);
    assert_eq!(stats.by_service.get(&String::from("auth")), 5);
    assert_eq!(stats.by_service.get(&String::from("payments")), 1);
    assert_eq!(stats.by_level.get(&String::from("WARN")), 0);
    assert_eq!(stats.by_service.get(&String::from("nobody")), 0);
}

#[test]
fn stats_totals_match_store_length() {
    let store = dataset();
    let stats = store.stats();
    let mut level_sum = 0u64;
    for i in 0..stats.by_level.len() {
        level_sum += stats.by_level.row(i).1;
    }
    let mut service_sum = 0u64;
    for i in 0..stats.by_service.len() {
        service_sum += stats.by_service.row(i).1;
    }
    assert_eq!(level_sum, store.len() as u64);
    assert_eq!(service_sum, store.len() as u64);
}

#[test]
fn stats_of_empty_store_are_empty() {
    let store = Store::new(5);
    let stats = store.stats();
    assert_eq!(stats.by_level.len(), 0);
    assert_eq!(stats.by_service.len(), 0);
}
