use mania_chart::models::common::TimingChangeType;
use mania_chart::models::generic::{TimingChange, TimingPoints};
use mania_chart::models::ordered::{insert_behind, insert_sorted, stable_sort};
use mania_chart::models::timeline::{TimelineOps, TimelineTimingPoint, TimingPointTimeline};
use mania_chart::errors::ChartError;
use mania_chart::utils::rhythm::TICKS_PER_BEAT;

fn point(time: i32, value: i64) -> TimelineTimingPoint {
    TimelineTimingPoint { time, value, change_type: TimingChangeType::Sv }
}

fn bpm(time: i32, value: i64) -> TimelineTimingPoint {
    TimelineTimingPoint { time, value, change_type: TimingChangeType::Bpm }
}

fn pairs(timeline: &TimingPointTimeline) -> Vec<(i32, i64)> {
    timeline.timeline().iter().map(|p| (p.time, p.value)).collect()
}

#[test]
fn new_timeline_is_empty_and_sorted() {
    let timeline = TimingPointTimeline::new();
    assert!(timeline.is_empty());
    assert_eq!(timeline.len(), 0);
    assert!(timeline.is_sorted());
    let with_room = TimingPointTimeline::with_capacity(64);
    assert!(with_room.is_empty());
    assert!(with_room.is_sorted());
}

#[test]
fn add_in_order_keeps_the_flag() {
    let mut timeline = TimingPointTimeline::new();
    timeline.add(point(0, 1));
    timeline.add(point(10, 2));
    timeline.add(point(10, 3));
    assert!(timeline.is_sorted());
    assert_eq!(pairs(&timeline), vec![(0, 1), (10, 2), (10, 3)]);
}

#[test]
fn add_out_of_order_clears_the_flag() {
    let mut timeline = TimingPointTimeline::new();
    timeline.add(point(10, 1));
    timeline.add(point(5, 2));
    assert!(!timeline.is_sorted());
    timeline.add(point(20, 3));
    assert!(!timeline.is_sorted());
    assert_eq!(pairs(&timeline), vec![(10, 1), (5, 2), (20, 3)]);
}

#[test]
fn add_sorted_goes_behind_its_ties() {
    let mut timeline = TimingPointTimeline::new();
    timeline.add_sorted(point(10, 1));
    timeline.add_sorted(point(30, 2));
    timeline.add_sorted(point(20, 3));
    timeline.add_sorted(point(10, 4));
    timeline.add_sorted(point(20, 5));
    timeline.add_sorted(point(0, 6));
    assert!(timeline.is_sorted());
    assert_eq!(pairs(&timeline), vec![(0, 6), (10, 1), (10, 4), (20, 3), (20, 5), (30, 2)]);
}

#[test]
fn add_sorted_in_an_unsorted_timeline_goes_behind_the_last_item_not_later() {
    let mut timeline = TimingPointTimeline::new();
    timeline.add(point(9, 1));
    timeline.add(point(9, 2));
    timeline.add(point(9, 3));
    timeline.add(point(5, 4));
    timeline.add(point(7, 5));
    timeline.add_sorted(point(5, 6));
    assert!(!timeline.is_sorted());
    assert_eq!(pairs(&timeline), vec![(9, 1), (9, 2), (9, 3), (5, 4), (5, 6), (7, 5)]);
    timeline.add_sorted(point(1, 7));
    assert_eq!(
        pairs(&timeline),
        vec![(1, 7), (9, 1), (9, 2), (9, 3), (5, 4), (5, 6), (7, 5)]
    );
    timeline.sort();
    assert_eq!(
        pairs(&timeline),
        vec![(1, 7), (5, 4), (5, 6), (7, 5), (9, 1), (9, 2), (9, 3)]
    );
}

#[test]
fn add_sorted_keeps_order_when_the_flag_is_unset() {
    let mut timeline = TimingPointTimeline::new();
    timeline.add(point(5, 1));
    timeline.set_sorted(false);
    timeline.add_sorted(point(3, 2));
    assert!(!timeline.is_sorted());
    assert_eq!(pairs(&timeline), vec![(3, 2), (5, 1)]);
    timeline.add_sorted(point(5, 3));
    timeline.add_sorted(point(4, 4));
    timeline.add_sorted(point(3, 5));
    assert!(!timeline.is_sorted());
    assert_eq!(pairs(&timeline), vec![(3, 2), (3, 5), (4, 4), (5, 1), (5, 3)]);
}

#[test]
fn insert_behind_finds_the_place_from_the_back() {
    let mut v = vec![point(1, 1), point(3, 2), point(3, 3), point(8, 4)];
    insert_behind(&mut v, point(3, 5));
    insert_behind(&mut v, point(0, 6));
    insert_behind(&mut v, point(9, 7));
    let seen: Vec<(i32, i64)> = v.iter().map(|p| (p.time, p.value)).collect();
    assert_eq!(seen, vec![(0, 6), (1, 1), (3, 2), (3, 3), (3, 5), (8, 4), (9, 7)]);
}

#[test]
fn sort_is_stable_and_sets_the_flag() {
    let mut timeline = TimingPointTimeline::new();
    for (i, t) in [5, 3, 5, 1, 3, 5, 1, 0, 9, 3].iter().enumerate() {
        timeline.add(point(*t, i as i64));
    }
    assert!(!timeline.is_sorted());
    timeline.sort();
    assert!(timeline.is_sorted());
    assert_eq!(
        pairs(&timeline),
        vec![(0, 7), (1, 3), (1, 6), (3, 1), (3, 4), (3, 9), (5, 0), (5, 2), (5, 5), (9, 8)]
    );
}

#[test]
fn sort_of_a_sorted_timeline_changes_nothing() {
    let mut timeline = TimingPointTimeline::new();
    timeline.add(point(1, 1));
    timeline.add(point(1, 2));
    timeline.add(point(2, 3));
    timeline.sort();
    timeline.sort();
    assert_eq!(pairs(&timeline), vec![(1, 1), (1, 2), (2, 3)]);
}

#[test]
fn mixed_calls_then_sort_keep_arrival_order_of_ties() {
    let mut timeline = TimingPointTimeline::new();
    timeline.add_sorted(point(4, 0));
    timeline.add(point(2, 1));
    timeline.add_sorted(point(4, 2));
    timeline.add(point(2, 3));
    timeline.add_sorted(point(1, 4));
    timeline.add(point(4, 5));
    timeline.sort();
    assert_eq!(pairs(&timeline), vec![(1, 4), (2, 1), (2, 3), (4, 0), (4, 2), (4, 5)]);
}

#[test]
fn set_sorted_overrides_the_flag() {
    let mut timeline = TimingPointTimeline::new();
    timeline.add(point(1, 1));
    timeline.set_sorted(false);
    assert!(!timeline.is_sorted());
    timeline.set_sorted(true);
    assert!(timeline.is_sorted());
    assert_eq!(TimingPointTimeline::item_time(&point(42, 0)), 42);
    timeline.reserve(10);
    assert_eq!(timeline.len(), 1);
}

#[test]
fn insert_sorted_and_stable_sort_work_on_plain_vectors() {
    let mut v = vec![point(1, 0), point(3, 1), point(3, 2), point(8, 3)];
    insert_sorted(&mut v, point(3, 4));
    insert_sorted(&mut v, point(0, 5));
    insert_sorted(&mut v, point(9, 6));
    let got: Vec<(i32, i64)> = v.iter().map(|p| (p.time, p.value)).collect();
    assert_eq!(got, vec![(0, 5), (1, 0), (3, 1), (3, 2), (3, 4), (8, 3), (9, 6)]);
    let mut w: Vec<TimelineTimingPoint> = (0..100).map(|i: i32| point((i * 37) % 10, i as i64)).collect();
    let mut expected = w.clone();
    expected.sort_by_key(|p| p.time);
    stable_sort(&mut w);
    assert_eq!(w, expected);
    let mut empty: Vec<TimelineTimingPoint> = Vec::new();
    stable_sort(&mut empty);
    assert!(empty.is_empty());
}

#[test]
fn to_timing_points_stamps_beats() {
    let mut timeline = TimingPointTimeline::new();
    timeline.add(bpm(2000, 240_000));
    timeline.add(point(2500, 1500));
    timeline.add(bpm(0, 120_000));
    timeline.add(point(1000, 500));
    let mut out = TimingPoints::with_capacity(4);
    assert_eq!(timeline.to_timing_points(&mut out, 0), Ok(()));
    assert!(timeline.is_sorted());
    let got: Vec<(i32, i64, TimingChangeType, i64)> =
        out.points.iter().map(|p| (p.time, p.beat, p.change.change_type, p.change.value)).collect();
    assert_eq!(
        got,
        vec![
            (0, 0, TimingChangeType::Bpm, 120_000),
            (1000, 2 * TICKS_PER_BEAT, TimingChangeType::Sv, 500),
            (2000, 4 * TICKS_PER_BEAT, TimingChangeType::Bpm, 240_000),
            (2500, 6 * TICKS_PER_BEAT, TimingChangeType::Sv, 1500),
        ]
    );
}

#[test]
fn to_timing_points_refuses_a_bad_tempo() {
    let mut timeline = TimingPointTimeline::new();
    timeline.add(bpm(0, 120_000));
    timeline.add(bpm(10, 0));
    let mut out = TimingPoints::with_capacity(4);
    out.add(7, 7, TimingChange { change_type: TimingChangeType::Sv, value: 7 });
    assert_eq!(timeline.to_timing_points(&mut out, 0), Err(ChartError::InvalidTempo));
    assert_eq!(out.len(), 1);
}

#[test]
fn to_timing_points_of_an_empty_timeline_adds_nothing() {
    let mut timeline = TimingPointTimeline::new();
    let mut out = TimingPoints::with_capacity(4);
    assert_eq!(timeline.to_timing_points(&mut out, 0), Ok(()));
    assert_eq!(out.len(), 0);
}
