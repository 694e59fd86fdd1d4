use bevy_text_span_entities::click::{
    ClickHistory, ClickKind, MAX_DISTANCE, MAX_ENTRIES, MAX_INTERVAL,
};
use bevy_text_span_entities::geometry::{Vec2, UNIT};

fn at(x: i32, y: i32) -> Vec2 {
    Vec2 { x, y }
}

#[test]
fn thresholds_are_two_units_and_half_a_second() {
    assert_eq!(MAX_ENTRIES, 4);
    assert_eq!(MAX_DISTANCE as i32, 2 * UNIT);
    assert_eq!(MAX_INTERVAL, 500);
    assert_eq!(UNIT, 64);
}

#[test]
fn three_quick_clicks_are_a_triple_click() {
    let p = at(10 * UNIT, 20 * UNIT);
    let mut history = ClickHistory::new();
    history.record(p, 1_000);
    history.record(p, 1_100);
    history.record(p, 1_200);
    assert!(history.is_nth_click(3));
    assert!(history.is_nth_click(2));
    assert!(history.is_nth_click(1));
    assert_eq!(history.classify(), Some(ClickKind::Triple));
    // A fourth click after a pause of 600 ms starts anew.
    history.record(p, 1_800);
    assert!(!history.is_nth_click(2));
    assert!(history.is_nth_click(1));
    assert_eq!(history.classify(), Some(ClickKind::Single));
}

#[test]
fn clicks_a_unit_apart_still_run_together() {
    let mut history = ClickHistory::new();
    history.record(at(0, 0), 0);
    history.record(at(UNIT, 0), 100);
    history.record(at(UNIT, UNIT), 200);
    assert!(history.is_nth_click(3));
    assert!(history.is_nth_click(2));
    assert!(history.is_nth_click(1));
}

#[test]
fn an_empty_history_has_no_click() {
    let history = ClickHistory::default();
    assert_eq!(history.len(), 0);
    assert!(history.is_nth_click(0));
    assert!(!history.is_nth_click(1));
    assert_eq!(history.classify(), None);
}

#[test]
fn one_click_is_single() {
    let mut history = ClickHistory::new();
    history.record(at(5, 5), 42);
    assert_eq!(history.len(), 1);
    assert!(history.is_nth_click(1));
    assert!(!history.is_nth_click(2));
    assert_eq!(history.classify(), Some(ClickKind::Single));
}

#[test]
fn two_clicks_are_a_double_click() {
    let mut history = ClickHistory::new();
    history.record(at(5, 5), 0);
    history.record(at(6, 5), 300);
    assert_eq!(history.classify(), Some(ClickKind::Double));
    assert!(!history.is_nth_click(3));
}

#[test]
fn the_distance_threshold_is_inclusive() {
    let mut near = ClickHistory::new();
    near.record(at(0, 0), 0);
    near.record(at(128, 0), 10);
    assert!(near.is_nth_click(2));

    let mut far = ClickHistory::new();
    far.record(at(0, 0), 0);
    far.record(at(129, 0), 10);
    assert!(!far.is_nth_click(2));
}

#[test]
fn the_distance_is_euclidean() {
    // 91 * 91 * 2 = 16562 > 128 * 128 = 16384 > 90 * 90 * 2 = 16200
    let mut inside = ClickHistory::new();
    inside.record(at(0, 0), 0);
    inside.record(at(90, -90), 10);
    assert!(inside.is_nth_click(2));

    let mut outside = ClickHistory::new();
    outside.record(at(0, 0), 0);
    outside.record(at(91, 91), 10);
    assert!(!outside.is_nth_click(2));

    let mut diagonal = ClickHistory::new();
    diagonal.record(at(0, 0), 0);
    diagonal.record(at(-128, 1), 10);
    assert!(!diagonal.is_nth_click(2));
}

#[test]
fn far_apart_clicks_do_not_overflow() {
    let mut history = ClickHistory::new();
    history.record(at(i32::MIN, i32::MAX), 0);
    history.record(at(i32::MAX, i32::MIN), 1);
    assert!(!history.is_nth_click(2));
    assert!(history.is_nth_click(1));
}

#[test]
fn the_interval_threshold_is_inclusive() {
    let mut soon = ClickHistory::new();
    soon.record(at(0, 0), 1_000);
    soon.record(at(0, 0), 1_500);
    assert!(soon.is_nth_click(2));

    let mut late = ClickHistory::new();
    late.record(at(0, 0), 1_000);
    late.record(at(0, 0), 1_501);
    assert!(!late.is_nth_click(2));
}

#[test]
fn a_click_stamped_earlier_counts_as_simultaneous() {
    let mut history = ClickHistory::new();
    history.record(at(0, 0), 5_000);
    history.record(at(0, 0), 1_000);
    assert!(history.is_nth_click(2));
}

#[test]
fn only_four_clicks_are_remembered() {
    let mut history = ClickHistory::new();
    for i in 0..10u64 {
        history.record(at(0, 0), i * 10);
        assert!(history.len() <= MAX_ENTRIES);
    }
    assert_eq!(history.len(), 4);
    assert!(history.is_nth_click(4));
    assert!(!history.is_nth_click(5));
}

#[test]
fn a_broken_run_further_back_does_not_count() {
    let mut history = ClickHistory::new();
    history.record(at(0, 0), 0);
    history.record(at(0, 0), 1_000);
    history.record(at(0, 0), 1_100);
    // The newest two run together, the third is too old.
    assert!(history.is_nth_click(2));
    assert!(!history.is_nth_click(3));
    assert_eq!(history.classify(), Some(ClickKind::Double));
}

#[test]
fn within_measures_a_circle() {
    let origin = at(0, 0);
    assert!(origin.within(at(3, 4), 5));
    assert!(!origin.within(at(3, 4), 4));
    assert!(origin.within(origin, 0));
    assert!(!origin.within(at(1, 0), 0));
    assert!(at(-3, -4).within(at(0, 0), 5));
}
