use presence_registry::record::PresenceRecord;
use presence_registry::record::PresenceUpdate;
use presence_registry::registry::EVICTION_THRESHOLD_SECONDS;
use presence_registry::registry::INITIAL_CAPACITY_HINT;
use presence_registry::registry::PresenceError;
use presence_registry::registry::Registry;

fn update(name: &str, x: i32, y: i32) -> PresenceUpdate {
    PresenceUpdate {
        name: String::from(name),
        id: 7,
        x,
        y,
        z: 0,
        world: 330,
        region: 12850,
        current_hitpoints: 45,
        max_hitpoints: 99,
        current_mana_resource: 30,
        max_mana_resource: 70,
    }
}

fn friends(names: &[&str]) -> Vec<String> {
    names.iter().map(|n| String::from(*n)).collect()
}

fn sole(mut list: Vec<PresenceRecord>) -> PresenceRecord {
    assert_eq!(list.len(), 1);
    list.pop().unwrap()
}

#[test]
fn self_visibility_returns_submitted_record() {
    let mut reg = Registry::new();
    let list = reg
        .upsert_and_query_at(&update("A", 10, 20), &friends(&["A"]), 100)
        .unwrap();
    let rec = sole(list);
    assert_eq!(rec.name, "A");
    assert_eq!(rec.id, 7);
    assert_eq!(rec.x, 10);
    assert_eq!(rec.y, 20);
    assert_eq!(rec.z, 0);
    assert_eq!(rec.world, 330);
    assert_eq!(rec.region, 12850);
    assert_eq!(rec.current_hitpoints, 45);
    assert_eq!(rec.max_hitpoints, 99);
    assert_eq!(rec.current_mana_resource, 30);
    assert_eq!(rec.max_mana_resource, 70);
    assert_eq!(rec.last_seen, 100);
}

#[test]
fn eviction_past_threshold() {
    let mut reg = Registry::new();
    reg.upsert_and_query_at(&update("A", 1, 1), &friends(&[]), 0)
        .unwrap();
    // The next write happens exactly at the threshold: "A" has been silent
    // for EVICTION_THRESHOLD_SECONDS and must be gone.
    let list = reg
        .upsert_and_query_at(
            &update("B", 2, 2),
            &friends(&["A"]),
            EVICTION_THRESHOLD_SECONDS,
        )
        .unwrap();
    assert!(list.is_empty());
    assert_eq!(reg.len(), 1);
}

#[test]
fn no_spurious_eviction_inside_threshold() {
    let mut reg = Registry::new();
    reg.upsert_and_query_at(&update("A", 1, 1), &friends(&[]), 0)
        .unwrap();
    // One second before the threshold, "A" is still fresh.
    let list = reg
        .upsert_and_query_at(
            &update("B", 2, 2),
            &friends(&["A"]),
            EVICTION_THRESHOLD_SECONDS - 1,
        )
        .unwrap();
    let rec = sole(list);
    assert_eq!(rec.name, "A");
    assert_eq!(reg.len(), 2);
}

#[test]
fn idempotent_replace_keeps_one_record() {
    let mut reg = Registry::new();
    reg.upsert_and_query_at(&update("A", 1, 1), &friends(&[]), 10)
        .unwrap();
    let list = reg
        .upsert_and_query_at(&update("A", 5, 6), &friends(&["A"]), 11)
        .unwrap();
    let rec = sole(list);
    assert_eq!(rec.x, 5);
    assert_eq!(rec.y, 6);
    assert_eq!(rec.last_seen, 11);
    assert_eq!(reg.len(), 1);
}

#[test]
fn friend_filter_returns_only_listed_present_names() {
    let mut reg = Registry::new();
    reg.upsert_and_query_at(&update("A", 1, 1), &friends(&[]), 50)
        .unwrap();
    reg.upsert_and_query_at(&update("B", 2, 2), &friends(&[]), 50)
        .unwrap();
    let list = reg
        .upsert_and_query_at(&update("C", 3, 3), &friends(&["B", "D"]), 50)
        .unwrap();
    let rec = sole(list);
    assert_eq!(rec.name, "B");
    assert_eq!(rec.x, 2);
    assert_eq!(reg.len(), 3);
}

#[test]
fn empty_identity_is_rejected_without_mutation() {
    let mut reg = Registry::new();
    reg.upsert_and_query_at(&update("A", 1, 1), &friends(&[]), 0)
        .unwrap();
    let res = reg.upsert_and_query_at(&update("", 9, 9), &friends(&["A"]), 0);
    assert_eq!(res.unwrap_err(), PresenceError::EmptyIdentity);
    assert_eq!(reg.len(), 1);
}

#[test]
fn freshness_invariant_after_every_write() {
    let mut reg = Registry::new();
    reg.upsert_and_query_at(&update("A", 1, 1), &friends(&[]), 0)
        .unwrap();
    reg.upsert_and_query_at(&update("B", 2, 2), &friends(&[]), 40)
        .unwrap();
    // A write at time 100 sweeps "A" (silent for 100) and keeps "B"
    // (silent for 60): everything left was seen under the threshold ago.
    let list = reg
        .upsert_and_query_at(&update("C", 3, 3), &friends(&["A", "B", "C"]), 100)
        .unwrap();
    assert_eq!(reg.len(), 2);
    assert_eq!(list.len(), 2);
    for rec in &list {
        assert!(100 - rec.last_seen < EVICTION_THRESHOLD_SECONDS);
    }
    assert!(list.iter().any(|r| r.name == "B"));
    assert!(list.iter().any(|r| r.name == "C"));
    assert!(!list.iter().any(|r| r.name == "A"));
}

#[test]
fn many_distinct_identities_none_lost() {
    let mut reg = Registry::with_capacity(INITIAL_CAPACITY_HINT);
    let names: Vec<String> = (0..50).map(|i| format!("player{}", i)).collect();
    for (i, name) in names.iter().enumerate() {
        reg.upsert_and_query_at(&update(name, i as i32, 0), &names.clone(), 5)
            .unwrap();
    }
    let list = reg
        .upsert_and_query_at(&update("observer", 0, 0), &names.clone(), 5)
        .unwrap();
    assert_eq!(list.len(), 50);
    assert_eq!(reg.len(), 51);
    for name in &names {
        assert!(list.iter().any(|r| &r.name == name));
    }
}

#[test]
fn end_to_end_example() {
    let mut reg = Registry::new();
    let first = reg
        .upsert_and_query_at(&update("alice", 10, 20), &friends(&["bob"]), 0)
        .unwrap();
    assert!(first.is_empty());
    let second = reg
        .upsert_and_query_at(&update("bob", 1, 2), &friends(&["alice"]), 1)
        .unwrap();
    let rec = sole(second);
    assert_eq!(rec.name, "alice");
    assert_eq!(rec.x, 10);
    assert_eq!(rec.y, 20);
}

#[test]
fn live_clock_operation_stores_and_answers() {
    let mut reg = Registry::new();
    let list = reg
        .upsert_and_query(&update("A", 10, 20), &friends(&["A"]))
        .unwrap();
    let rec = sole(list);
    assert_eq!(rec.name, "A");
    assert_eq!(rec.x, 10);
    assert_eq!(reg.len(), 1);
    let res = reg.upsert_and_query(&update("", 0, 0), &friends(&[]));
    assert_eq!(res.unwrap_err(), PresenceError::EmptyIdentity);
}

#[test]
fn extreme_clock_readings_do_not_overflow() {
    let mut reg = Registry::new();
    reg.upsert_and_query_at(&update("old", i32::MAX, i32::MIN), &friends(&[]), i64::MIN)
        .unwrap();
    let list = reg
        .upsert_and_query_at(&update("B", 2, 2), &friends(&["old"]), i64::MAX)
        .unwrap();
    assert!(list.is_empty());
    assert_eq!(reg.len(), 1);

    // A record stamped later than the query time has negative silence and
    // is therefore fresh.
    let mut reg2 = Registry::new();
    reg2.upsert_and_query_at(&update("future", 1, 1), &friends(&[]), i64::MAX)
        .unwrap();
    let list2 = reg2
        .upsert_and_query_at(&update("B", 2, 2), &friends(&["future"]), i64::MIN)
        .unwrap();
    assert_eq!(list2.len(), 1);
}

#[test]
fn query_alone_does_not_refresh_or_evict() {
    let mut reg = Registry::new();
    reg.upsert_and_query_at(&update("A", 1, 1), &friends(&[]), 0)
        .unwrap();
    let list = reg.query(&friends(&["A"]));
    let rec = sole(list);
    assert_eq!(rec.last_seen, 0);
    assert_eq!(reg.len(), 1);
}
