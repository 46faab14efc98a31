use mania_chart::errors::ChartError;
use mania_chart::models::common::{HitObjectRow, Key, KeyType};
use mania_chart::models::generic::{HitObject, HitSoundType, KeySound};
use mania_chart::models::grid::{HitObjectTimeline, PairingWarning};

fn row(time: i32, beat: i64, keys: Vec<Key>) -> HitObjectRow {
    HitObjectRow { time, beat, keys }
}

fn note(time: i32, beat: i64, lane: u8, key: Key) -> HitObject {
    HitObject { time, beat, keysound: KeySound::default(), key, lane }
}

#[test]
fn interleaved_long_notes_pair_with_the_last_start_not_after_the_end() {
    let rows = vec![
        row(0, 0, vec![Key::slider_start(None)]),
        row(10, 1, vec![Key::slider_start(None)]),
        row(5, 2, vec![Key::slider_end()]),
        row(20, 3, vec![Key::slider_end()]),
    ];
    let flat = HitObjectTimeline::flatten_rows(&rows, 1).unwrap();
    assert_eq!(flat.notes.len(), 4);
    assert_eq!(flat.notes[0].time, 0);
    assert_eq!(flat.notes[0].key, Key::slider_start(Some(5)));
    assert_eq!(flat.notes[1].time, 10);
    assert_eq!(flat.notes[1].key, Key::slider_start(Some(20)));
    assert_eq!(flat.notes[2].key, Key::slider_end());
    assert_eq!(flat.notes[3].key, Key::slider_end());
    assert!(flat.warnings.is_empty());
}

#[test]
fn end_takes_the_last_fitting_start_even_behind_a_later_one() {
    let rows = vec![
        row(30, 0, vec![Key::slider_start(None)]),
        row(0, 0, vec![Key::slider_start(None)]),
        row(40, 0, vec![Key::slider_start(None)]),
        row(10, 0, vec![Key::slider_end()]),
    ];
    let flat = HitObjectTimeline::flatten_rows(&rows, 1).unwrap();
    assert_eq!(flat.notes[0].key, Key::slider_start(None));
    assert_eq!(flat.notes[1].key, Key::slider_start(Some(10)));
    assert_eq!(flat.notes[2].key, Key::slider_start(None));
    assert_eq!(
        flat.warnings,
        vec![PairingWarning::UnmatchedStarts { count: 2, lane: 1 }]
    );
}

#[test]
fn flatten_materializes_cells_in_row_and_lane_order() {
    let rows = vec![
        row(100, 7, vec![Key::normal(), Key::empty(), Key::mine(), Key::empty()]),
        row(200, 8, vec![Key::empty(), Key::fake(), Key::empty(), Key::unknown()]),
    ];
    let flat = HitObjectTimeline::flatten_rows(&rows, 4).unwrap();
    assert_eq!(
        flat.notes,
        vec![
            note(100, 7, 1, Key::normal()),
            note(100, 7, 3, Key::mine()),
            note(200, 8, 2, Key::fake()),
            note(200, 8, 4, Key::unknown()),
        ]
    );
    assert_eq!(flat.notes[0].keysound, KeySound::of_type(100, HitSoundType::Normal));
    assert!(flat.warnings.is_empty());
}

#[test]
fn unmatched_ends_and_starts_are_warnings_not_errors() {
    let rows = vec![
        row(0, 0, vec![Key::slider_end(), Key::slider_start(None)]),
        row(10, 0, vec![Key::slider_start(None), Key::slider_start(None)]),
        row(20, 0, vec![Key::empty(), Key::slider_end()]),
    ];
    let flat = HitObjectTimeline::flatten_rows(&rows, 2).unwrap();
    assert_eq!(flat.notes.len(), 5);
    assert_eq!(flat.notes[1].key, Key::slider_start(None));
    assert_eq!(flat.notes[3].key, Key::slider_start(Some(20)));
    assert_eq!(flat.notes[2].key, Key::slider_start(None));
    assert_eq!(
        flat.warnings,
        vec![
            PairingWarning::UnmatchedEnd { time: 0, lane: 1 },
            PairingWarning::UnmatchedStarts { count: 1, lane: 1 },
            PairingWarning::UnmatchedStarts { count: 1, lane: 2 },
        ]
    );
}

#[test]
fn start_later_than_the_end_does_not_pair() {
    let rows = vec![
        row(50, 0, vec![Key::slider_start(None)]),
        row(10, 0, vec![Key::slider_end()]),
    ];
    let flat = HitObjectTimeline::flatten_rows(&rows, 1).unwrap();
    assert_eq!(flat.notes[0].key, Key::slider_start(None));
    assert_eq!(
        flat.warnings,
        vec![
            PairingWarning::UnmatchedEnd { time: 10, lane: 1 },
            PairingWarning::UnmatchedStarts { count: 1, lane: 1 },
        ]
    );
}

#[test]
fn row_of_wrong_width_is_a_malformed_grid() {
    let rows = vec![row(0, 0, vec![Key::normal(), Key::empty()]), row(1, 0, vec![Key::normal()])];
    assert!(matches!(HitObjectTimeline::flatten_rows(&rows, 2), Err(ChartError::MalformedGrid)));
    let wide = vec![row(0, 0, vec![Key::normal(), Key::empty(), Key::empty()])];
    assert!(matches!(HitObjectTimeline::flatten_rows(&wide, 2), Err(ChartError::MalformedGrid)));
}

#[test]
fn more_lanes_than_a_lane_number_counts_is_unsupported() {
    let rows: Vec<HitObjectRow> = Vec::new();
    assert!(matches!(
        HitObjectTimeline::flatten_rows(&rows, 256),
        Err(ChartError::UnsupportedKeyCount)
    ));
    assert!(HitObjectTimeline::flatten_rows(&rows, 255).is_ok());
}

#[test]
fn empty_grid_gives_no_notes() {
    let rows: Vec<HitObjectRow> = Vec::new();
    let flat = HitObjectTimeline::flatten_rows(&rows, 4).unwrap();
    assert!(flat.notes.is_empty());
    assert!(flat.warnings.is_empty());
    assert!(HitObjectTimeline::to_rows(&[], 4).unwrap().is_empty());
}

#[test]
fn rows_group_notes_by_time_in_ascending_order() {
    let notes = vec![
        note(200, 5, 2, Key::normal()),
        note(100, 3, 1, Key::normal()),
        note(200, 5, 4, Key::slider_start(Some(300))),
        note(100, 3, 3, Key::normal()),
        note(300, 9, 4, Key::slider_end()),
    ];
    let rows = HitObjectTimeline::to_rows(&notes, 4).unwrap();
    assert_eq!(rows.len(), 3);
    assert_eq!((rows[0].time, rows[0].beat), (100, 3));
    assert_eq!(rows[0].keys, vec![Key::normal(), Key::empty(), Key::normal(), Key::empty()]);
    assert_eq!((rows[1].time, rows[1].beat), (200, 5));
    assert_eq!(
        rows[1].keys,
        vec![Key::empty(), Key::normal(), Key::empty(), Key::slider_start(Some(300))]
    );
    assert_eq!((rows[2].time, rows[2].beat), (300, 9));
    assert_eq!(rows[2].keys, vec![Key::empty(), Key::empty(), Key::empty(), Key::slider_end()]);
}

#[test]
fn long_start_wins_over_tap_in_either_order() {
    let a = vec![note(0, 0, 1, Key::normal()), note(0, 0, 1, Key::slider_start(Some(9)))];
    let b = vec![note(0, 0, 1, Key::slider_start(Some(9))), note(0, 0, 1, Key::normal())];
    assert_eq!(HitObjectTimeline::to_rows(&a, 1).unwrap()[0].keys[0].key_type, KeyType::SliderStart);
    assert_eq!(HitObjectTimeline::to_rows(&b, 1).unwrap()[0].keys[0].key_type, KeyType::SliderStart);
}

#[test]
fn long_end_takes_only_an_empty_cell() {
    let a = vec![note(0, 0, 1, Key::slider_start(None)), note(0, 0, 1, Key::slider_end())];
    let b = vec![note(0, 0, 1, Key::normal()), note(0, 0, 1, Key::slider_end())];
    let c = vec![note(0, 0, 1, Key::slider_end()), note(0, 0, 1, Key::normal())];
    let d = vec![note(0, 0, 1, Key::slider_end())];
    assert_eq!(HitObjectTimeline::to_rows(&a, 1).unwrap()[0].keys[0].key_type, KeyType::SliderStart);
    assert_eq!(HitObjectTimeline::to_rows(&b, 1).unwrap()[0].keys[0].key_type, KeyType::Normal);
    assert_eq!(HitObjectTimeline::to_rows(&c, 1).unwrap()[0].keys[0].key_type, KeyType::Normal);
    assert_eq!(HitObjectTimeline::to_rows(&d, 1).unwrap()[0].keys[0].key_type, KeyType::SliderEnd);
}

#[test]
fn kinds_without_a_place_in_the_grid_leave_an_empty_row() {
    let notes = vec![note(5, 0, 1, Key::mine()), note(5, 0, 2, Key::fake())];
    let rows = HitObjectTimeline::to_rows(&notes, 2).unwrap();
    assert_eq!(rows.len(), 1);
    assert_eq!(rows[0].keys, vec![Key::empty(), Key::empty()]);
}

#[test]
fn note_outside_the_lanes_is_refused() {
    let low = vec![note(0, 0, 0, Key::normal())];
    let high = vec![note(0, 0, 1, Key::normal()), note(1, 0, 5, Key::normal())];
    assert!(matches!(HitObjectTimeline::to_rows(&low, 4), Err(ChartError::LaneOutOfRange)));
    assert!(matches!(HitObjectTimeline::to_rows(&high, 4), Err(ChartError::LaneOutOfRange)));
}

#[test]
fn notes_come_back_from_the_grid_as_they_went_in() {
    let notes = vec![
        note(0, 0, 1, Key::slider_start(Some(500))),
        note(0, 0, 3, Key::normal()),
        note(250, 10, 2, Key::normal()),
        note(250, 10, 4, Key::slider_start(Some(750))),
        note(500, 20, 1, Key::slider_end()),
        note(500, 20, 2, Key::slider_start(None)),
        note(750, 30, 1, Key::slider_start(Some(1000))),
        note(750, 30, 4, Key::slider_end()),
        note(1000, 40, 1, Key::slider_end()),
        note(1000, 40, 3, Key::slider_end()),
    ];
    let rows = HitObjectTimeline::to_rows(&notes, 4).unwrap();
    let flat = HitObjectTimeline::flatten_rows(&rows, 4).unwrap();
    assert_eq!(flat.notes, notes);
}

#[test]
fn shuffled_notes_come_back_in_reading_order() {
    let ordered = vec![
        note(0, 0, 1, Key::normal()),
        note(0, 0, 2, Key::slider_start(Some(20))),
        note(10, 1, 1, Key::normal()),
        note(20, 2, 2, Key::slider_end()),
    ];
    let shuffled = vec![ordered[3], ordered[1], ordered[0], ordered[2]];
    let rows = HitObjectTimeline::to_rows(&shuffled, 2).unwrap();
    let flat = HitObjectTimeline::flatten_rows(&rows, 2).unwrap();
    assert_eq!(flat.notes, ordered);
}

#[test]
fn empty_row_constructor_fills_with_empty_keys() {
    let r = HitObjectRow::empty(12, 34, 3);
    assert_eq!((r.time, r.beat), (12, 34));
    assert_eq!(r.keys, vec![Key::empty(); 3]);
}
