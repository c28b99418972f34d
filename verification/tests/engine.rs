use river_swww::config::{Config, TagEntry};
use river_swww::engine::SwwwBackend;
use river_swww::observation::OutputInfo;

fn sample_config(extra: &str) -> Config {
    Config {
        swww_args: extra.to_string(),
        default: String::from("/walls/default.png"),
        tags: vec![
            TagEntry { tag: 1, path: String::from("X") },
            TagEntry { tag: 2, path: String::from("Y") },
        ],
    }
}

fn obs(name: &str, focused_tags: u64) -> OutputInfo {
    OutputInfo { name: name.to_string(), focused_tags }
}

#[test]
fn burst_scenario_applies_once_after_last_change() {
    // window = 30ms; out1 sees X at t=0, Y at t=10, X at t=15. Exactly one
    // apply, ("out1", "X"), at t=45 — none at t=30 or t=40.
    let mut b = SwwwBackend::new(sample_config(""));
    assert!(b.step(0, Some(&obs("out1", 1))).is_empty());
    assert!(b.step(10, Some(&obs("out1", 2))).is_empty());
    assert!(b.step(15, Some(&obs("out1", 1))).is_empty());
    assert!(b.step(30, None).is_empty());
    assert!(b.step(40, None).is_empty());
    let fired = b.step(45, None);
    assert_eq!(fired.len(), 1);
    assert_eq!(fired[0].key.as_str(), "out1");
    assert_eq!(fired[0].path.as_str(), "X");
    assert!(b.step(100, None).is_empty());
}

#[test]
fn unmapped_tag_resolves_to_default() {
    let mut b = SwwwBackend::new(sample_config(""));
    b.handle_observation(&obs("out1", 1 << 5), 0);
    let fired = b.step(30, None);
    assert_eq!(fired.len(), 1);
    assert_eq!(fired[0].path.as_str(), "/walls/default.png");
}

#[test]
fn due_entries_flush_before_a_new_observation_is_folded() {
    // k1 is due when the iteration starts; an observation for k2 arrives in
    // the same iteration. The flush must not be delayed or disturbed by it.
    let mut b = SwwwBackend::new(sample_config(""));
    b.handle_observation(&obs("k1", 1), 0);
    let fired = b.step(30, Some(&obs("k2", 2)));
    assert_eq!(fired.len(), 1);
    assert_eq!(fired[0].key.as_str(), "k1");
    assert_eq!(fired[0].path.as_str(), "X");
    // k2 was folded after the flush and now waits out its own window.
    assert_eq!(b.earliest_wait(30), Some(30));
    let fired = b.step(60, None);
    assert_eq!(fired.len(), 1);
    assert_eq!(fired[0].key.as_str(), "k2");
    assert_eq!(fired[0].path.as_str(), "Y");
}

#[test]
fn idle_engine_has_no_deadline() {
    let b = SwwwBackend::new(sample_config(""));
    assert_eq!(b.earliest_wait(0), None);
}

#[test]
fn same_resolved_value_keeps_the_first_deadline() {
    // Two different masks with the same highest bit resolve to the same
    // value, so the second observation must not reset the window.
    let mut b = SwwwBackend::new(sample_config(""));
    b.handle_observation(&obs("out1", 0b10), 0);
    b.handle_observation(&obs("out1", 0b11), 20);
    let fired = b.step(30, None);
    assert_eq!(fired.len(), 1);
    assert_eq!(fired[0].path.as_str(), "Y");
    assert_eq!(fired[0].queued_at, 0);
}

#[test]
fn apply_args_layout() {
    let b = SwwwBackend::new(sample_config("--transition-type any"));
    let args = b.apply_args(&"DP-1".to_string(), &"/walls/x.png".to_string());
    assert_eq!(args, vec![
        "img".to_string(),
        "-o".to_string(),
        "DP-1".to_string(),
        "--transition-type".to_string(),
        "any".to_string(),
        "/walls/x.png".to_string(),
    ]);
}

#[test]
fn apply_args_with_empty_extra_keeps_one_empty_argument() {
    // Splitting an empty extra-argument string yields one empty piece,
    // so the setter still receives one empty argument in that slot.
    let b = SwwwBackend::new(sample_config(""));
    let args = b.apply_args(&"DP-1".to_string(), &"/walls/x.png".to_string());
    assert_eq!(args, vec![
        "img".to_string(),
        "-o".to_string(),
        "DP-1".to_string(),
        String::new(),
        "/walls/x.png".to_string(),
    ]);
}
