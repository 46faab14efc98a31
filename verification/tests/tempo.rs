use mania_chart::errors::ChartError;
use mania_chart::utils::rhythm::{TempoMap, TICKS_PER_BEAT};

fn two_tempos() -> TempoMap {
    TempoMap::new(&vec![(0, 120_000), (2000, 240_000)], &vec![], 0).unwrap()
}

#[test]
fn note_in_first_segment_is_at_beat_two() {
    let map = two_tempos();
    assert_eq!(map.beat_from_time(1000), 2 * TICKS_PER_BEAT);
}

#[test]
fn note_in_second_segment_is_at_beat_six() {
    let map = two_tempos();
    assert_eq!(map.beat_from_time(2000), 4 * TICKS_PER_BEAT);
    assert_eq!(map.beat_from_time(2500), 6 * TICKS_PER_BEAT);
}

#[test]
fn round_trip_gives_the_time_back() {
    let map = two_tempos();
    for t in [-5000, -1, 0, 1, 999, 1000, 1999, 2000, 2001, 2500, 100_000] {
        assert_eq!(map.time_from_beat(map.beat_from_time(t)), Some(t));
    }
}

#[test]
fn stop_holds_the_beat() {
    let map = TempoMap::new(&vec![(0, 120_000)], &vec![(2000, 500)], 0).unwrap();
    for t in 2000..2500 {
        assert_eq!(map.beat_from_time(t), 4 * TICKS_PER_BEAT);
    }
    assert_eq!(map.beat_from_time(1999), 4 * TICKS_PER_BEAT - 120_000);
    assert_eq!(map.beat_from_time(2500), 4 * TICKS_PER_BEAT);
    assert_eq!(map.beat_from_time(2501), 4 * TICKS_PER_BEAT + 120_000);
    assert_eq!(map.beat_from_time(3000), 5 * TICKS_PER_BEAT);
}

#[test]
fn beat_on_a_stop_maps_to_the_end_of_the_stop() {
    let map = TempoMap::new(&vec![(0, 120_000)], &vec![(2000, 500)], 0).unwrap();
    assert_eq!(map.time_from_beat(4 * TICKS_PER_BEAT), Some(2500));
    assert_eq!(map.time_from_beat(map.beat_from_time(2200)), Some(2500));
    assert_eq!(map.time_from_beat(5 * TICKS_PER_BEAT), Some(3000));
    assert_eq!(map.time_from_beat(4 * TICKS_PER_BEAT - 1), Some(1999));
}

#[test]
fn time_before_the_first_breakpoint_is_extrapolated() {
    let map = TempoMap::new(&vec![(1000, 60_000)], &vec![], 1000).unwrap();
    assert_eq!(map.beat_from_time(0), -TICKS_PER_BEAT);
    assert_eq!(map.beat_from_time(1000), 0);
    assert_eq!(map.time_from_beat(-TICKS_PER_BEAT), Some(0));
    assert_eq!(map.time_from_beat(-1), Some(999));
}

#[test]
fn map_without_breakpoints_stays_at_beat_zero() {
    let map = TempoMap::new(&vec![], &vec![], 0).unwrap();
    assert_eq!(map.beat_from_time(-100), 0);
    assert_eq!(map.beat_from_time(0), 0);
    assert_eq!(map.beat_from_time(123_456), 0);
    assert_eq!(map.time_from_beat(0), None);
    assert_eq!(map.time_from_beat(7), None);
}

#[test]
fn non_positive_tempo_is_rejected() {
    assert!(matches!(TempoMap::new(&vec![(0, 0)], &vec![], 0), Err(ChartError::InvalidTempo)));
    assert!(matches!(TempoMap::new(&vec![(0, -1)], &vec![], 0), Err(ChartError::InvalidTempo)));
    assert!(matches!(
        TempoMap::new(&vec![(0, 120_000), (10, -5)], &vec![], 0),
        Err(ChartError::InvalidTempo)
    ));
}

#[test]
fn tempo_out_of_range_or_out_of_order_is_rejected() {
    assert!(matches!(
        TempoMap::new(&vec![(0, 1_000_000_001)], &vec![], 0),
        Err(ChartError::InvalidTempo)
    ));
    assert!(matches!(
        TempoMap::new(&vec![(10, 120_000), (0, 120_000)], &vec![], 0),
        Err(ChartError::InvalidTempo)
    ));
    assert!(TempoMap::new(&vec![(0, 1_000_000_000)], &vec![], 0).is_ok());
}

#[test]
fn overlapping_and_unordered_stops_are_one_pause() {
    let map = TempoMap::new(&vec![(0, 60_000)], &vec![(3000, 500), (1000, 300), (1200, 300)], 0)
        .unwrap();
    assert_eq!(map.beat_from_time(1000), TICKS_PER_BEAT);
    assert_eq!(map.beat_from_time(1500), TICKS_PER_BEAT);
    assert_eq!(map.beat_from_time(2500), 2 * TICKS_PER_BEAT);
    assert_eq!(map.beat_from_time(3500), 2 * TICKS_PER_BEAT + 30_000_000);
    assert_eq!(map.beat_from_time(4000), 3 * TICKS_PER_BEAT);
    assert_eq!(map.time_from_beat(TICKS_PER_BEAT), Some(1500));
}

#[test]
fn stop_that_does_not_last_is_ignored() {
    let map = TempoMap::new(&vec![(0, 60_000)], &vec![(1000, 0), (2000, -50)], 0).unwrap();
    assert_eq!(map.beat_from_time(1001), TICKS_PER_BEAT + 60_000);
    assert_eq!(map.beat_from_time(3000), 3 * TICKS_PER_BEAT);
}

#[test]
fn extreme_times_and_beats_do_not_overflow() {
    let map = TempoMap::new(&vec![(0, 1_000_000_000)], &vec![(i32::MAX, i64::MAX)], i32::MIN)
        .unwrap();
    assert_eq!(map.beat_from_time(i32::MIN), 0);
    assert_eq!(map.beat_from_time(i32::MAX), (u32::MAX as i64) * 1_000_000_000);
    assert_eq!(map.time_from_beat(i64::MAX), None);
    assert_eq!(map.time_from_beat(i64::MIN), None);
    assert_eq!(map.time_from_beat(-1), None);
    assert_eq!(map.time_from_beat(0), Some(i32::MIN));
}
