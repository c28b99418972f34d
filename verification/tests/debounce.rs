use river_swww::pending::{PendingTable, DEBOUNCE_MS};

fn s(x: &str) -> String {
    x.to_string()
}

#[test]
fn window_length_is_thirty_ms() {
    assert_eq!(DEBOUNCE_MS, 30);
}

#[test]
fn debounce_suppresses_intermediate_values() {
    // Three observations A, B, A for one key inside one window: exactly one
    // apply, with value A, one window after the last value change.
    let mut t = PendingTable::new();
    t.upsert(&s("out1"), &s("A"), 0);
    t.upsert(&s("out1"), &s("B"), 10);
    t.upsert(&s("out1"), &s("A"), 15);
    assert!(t.take_due(29).is_empty());
    assert!(t.take_due(30).is_empty());
    assert!(t.take_due(40).is_empty());
    let fired = t.take_due(45);
    assert_eq!(fired.len(), 1);
    assert_eq!(fired[0].key.as_str(), "out1");
    assert_eq!(fired[0].path.as_str(), "A");
    assert_eq!(fired[0].queued_at, 15);
    assert_eq!(t.len(), 0);
    // No second apply later: the entry is gone.
    assert!(t.take_due(100).is_empty());
}

#[test]
fn noop_observations_do_not_extend_the_window() {
    let mut t = PendingTable::new();
    t.upsert(&s("out1"), &s("A"), 0);
    t.upsert(&s("out1"), &s("A"), 10);
    t.upsert(&s("out1"), &s("A"), 29);
    // The deadline stays at queued_at(first) + window.
    assert_eq!(t.earliest_wait(29), Some(1));
    let fired = t.take_due(30);
    assert_eq!(fired.len(), 1);
    assert_eq!(fired[0].queued_at, 0);
}

#[test]
fn value_change_resets_the_window() {
    let mut t = PendingTable::new();
    t.upsert(&s("out1"), &s("A"), 0);
    t.upsert(&s("out1"), &s("B"), 10);
    assert!(t.take_due(30).is_empty());
    assert!(t.take_due(39).is_empty());
    let fired = t.take_due(40);
    assert_eq!(fired.len(), 1);
    assert_eq!(fired[0].path.as_str(), "B");
}

#[test]
fn cross_key_independence() {
    let mut t = PendingTable::new();
    t.upsert(&s("k1"), &s("A"), 0);
    t.upsert(&s("k2"), &s("B"), 10);
    // A later change for k1 must not move k2's deadline.
    t.upsert(&s("k1"), &s("C"), 20);
    let fired = t.take_due(40);
    assert_eq!(fired.len(), 1);
    assert_eq!(fired[0].key.as_str(), "k2");
    assert_eq!(fired[0].path.as_str(), "B");
    // k1 still pending with its own window from t=20.
    assert_eq!(t.earliest_wait(40), Some(10));
    let fired = t.take_due(50);
    assert_eq!(fired.len(), 1);
    assert_eq!(fired[0].key.as_str(), "k1");
    assert_eq!(fired[0].path.as_str(), "C");
}

#[test]
fn empty_table_has_nothing_to_wait_for() {
    let mut t = PendingTable::new();
    assert_eq!(t.earliest_wait(0), None);
    assert_eq!(t.earliest_wait(u64::MAX), None);
    assert!(t.take_due(0).is_empty());
    assert_eq!(t.len(), 0);
}

#[test]
fn earliest_wait_is_the_minimum_over_entries() {
    let mut t = PendingTable::new();
    t.upsert(&s("k1"), &s("A"), 0);
    t.upsert(&s("k2"), &s("B"), 10);
    assert_eq!(t.earliest_wait(5), Some(25));
    assert_eq!(t.earliest_wait(29), Some(1));
    // Once an entry is due the wait is zero.
    assert_eq!(t.earliest_wait(30), Some(0));
    assert_eq!(t.earliest_wait(1000), Some(0));
}

#[test]
fn entry_is_due_exactly_at_its_deadline() {
    let mut t = PendingTable::new();
    t.upsert(&s("k"), &s("A"), 7);
    assert!(t.take_due(36).is_empty());
    let fired = t.take_due(37);
    assert_eq!(fired.len(), 1);
}

#[test]
fn take_due_keeps_later_entries_in_order() {
    let mut t = PendingTable::new();
    t.upsert(&s("k1"), &s("A"), 0);
    t.upsert(&s("k2"), &s("B"), 0);
    t.upsert(&s("k3"), &s("C"), 20);
    let fired = t.take_due(30);
    assert_eq!(fired.len(), 2);
    assert_eq!(fired[0].key.as_str(), "k1");
    assert_eq!(fired[1].key.as_str(), "k2");
    assert_eq!(t.len(), 1);
    let fired = t.take_due(50);
    assert_eq!(fired.len(), 1);
    assert_eq!(fired[0].key.as_str(), "k3");
}
