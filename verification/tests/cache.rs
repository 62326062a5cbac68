use fleet_reconcile::cache::Cache;
use fleet_reconcile::models::{Log, Timestamp};

fn log(uuid: &str, secs: i64) -> Log {
    Log {
        vehicle_uuid: uuid.to_string(),
        time: Timestamp { secs, nanos: 0 },
        lat: 525_000_000,
        lng: 134_000_000,
        battery: 80,
        rentable: true,
        state: "ACTIVE".to_string(),
    }
}

#[test]
fn new_cache_has_no_snapshots() {
    let cache = Cache::new();
    assert_eq!(cache.logs("BERLIN"), None);
    assert_eq!(cache.logs(""), None);
}

#[test]
fn default_cache_has_no_snapshots() {
    let cache = Cache::default();
    assert_eq!(cache.logs("BERLIN"), None);
}

#[test]
fn absent_is_not_the_same_as_empty() {
    let mut cache = Cache::new();
    cache.update_logs("BERLIN".to_string(), vec![]);
    assert_eq!(cache.logs("BERLIN"), Some(vec![]));
    assert_eq!(cache.logs("PARIS"), None);
}

#[test]
fn update_replaces_the_whole_snapshot() {
    let mut cache = Cache::new();
    cache.update_logs("BERLIN".to_string(), vec![log("v1", 10), log("v2", 20)]);
    assert_eq!(cache.logs("BERLIN"), Some(vec![log("v1", 10), log("v2", 20)]));
    cache.update_logs("BERLIN".to_string(), vec![log("v3", 30)]);
    assert_eq!(cache.logs("BERLIN"), Some(vec![log("v3", 30)]));
}

#[test]
fn snapshot_keeps_order_and_duplicates() {
    let mut cache = Cache::new();
    let logs = vec![log("v2", 1), log("v1", 2), log("v2", 3)];
    cache.update_logs("BERLIN".to_string(), logs);
    assert_eq!(cache.logs("BERLIN"), Some(vec![log("v2", 1), log("v1", 2), log("v2", 3)]));
}

#[test]
fn zones_do_not_interfere() {
    let mut one = Cache::new();
    one.update_logs("A".to_string(), vec![log("a1", 1)]);
    one.update_logs("B".to_string(), vec![log("b1", 2)]);
    let mut other = Cache::new();
    other.update_logs("B".to_string(), vec![log("b1", 2)]);
    other.update_logs("A".to_string(), vec![log("a1", 1)]);
    assert_eq!(one.logs("A"), Some(vec![log("a1", 1)]));
    assert_eq!(one.logs("B"), Some(vec![log("b1", 2)]));
    assert_eq!(one.logs("A"), other.logs("A"));
    assert_eq!(one.logs("B"), other.logs("B"));
    assert_eq!(one.logs("C"), None);
}

#[test]
fn updating_one_zone_leaves_the_others() {
    let mut cache = Cache::new();
    cache.update_logs("A".to_string(), vec![log("a1", 1)]);
    cache.update_logs("B".to_string(), vec![log("b1", 2)]);
    cache.update_logs("C".to_string(), vec![]);
    cache.update_logs("B".to_string(), vec![log("b2", 5), log("b1", 6)]);
    assert_eq!(cache.logs("A"), Some(vec![log("a1", 1)]));
    assert_eq!(cache.logs("B"), Some(vec![log("b2", 5), log("b1", 6)]));
    assert_eq!(cache.logs("C"), Some(vec![]));
}

#[test]
fn read_is_a_copy() {
    let mut cache = Cache::new();
    cache.update_logs("A".to_string(), vec![log("a1", 1)]);
    let mut copy = cache.logs("A").unwrap();
    copy.push(log("a2", 2));
    assert_eq!(cache.logs("A"), Some(vec![log("a1", 1)]));
}

#[test]
fn zone_ids_are_compared_exactly() {
    let mut cache = Cache::new();
    cache.update_logs("berlin".to_string(), vec![log("v1", 1)]);
    assert_eq!(cache.logs("BERLIN"), None);
    assert_eq!(cache.logs("berlin "), None);
    assert_eq!(cache.logs("berlin"), Some(vec![log("v1", 1)]));
}
