use mania_chart::errors::ChartError;
use mania_chart::models::common::{Key, TimingChangeType};
use mania_chart::models::generic::{
    ChartInfo, GenericManiaChart, HitObject, HitObjects, HitSoundType, KeySound, Metadata,
    SoundBank, SoundEffect, TimingChange, TimingPoints,
};

fn note(time: i32, lane: u8, key: Key) -> HitObject {
    HitObject { time, beat: 0, keysound: KeySound::default(), key, lane }
}

fn chart(notes: Vec<HitObject>, tempos: Vec<(i32, i64)>, key_count: u8) -> GenericManiaChart {
    let mut timing_points = TimingPoints::with_capacity(4);
    for (time, bpm) in tempos {
        timing_points.add(time, 0, TimingChange { change_type: TimingChangeType::Bpm, value: bpm });
    }
    let mut chartinfo = ChartInfo::empty();
    chartinfo.key_count = key_count;
    GenericManiaChart::new(Metadata::empty(), chartinfo, timing_points, HitObjects::new(notes), None)
}

#[test]
fn chart_without_notes_is_empty() {
    let c = chart(vec![], vec![(0, 120_000)], 4);
    assert_eq!(c.validate(), Err(ChartError::EmptyChart));
}

#[test]
fn chart_without_timing_changes_is_empty() {
    let c = chart(vec![note(0, 1, Key::normal())], vec![], 4);
    assert_eq!(c.validate(), Err(ChartError::EmptyChart));
}

#[test]
fn lane_zero_is_out_of_range() {
    let c = chart(vec![note(0, 1, Key::normal()), note(5, 0, Key::normal())], vec![(0, 120_000)], 4);
    assert_eq!(c.validate(), Err(ChartError::LaneOutOfRange));
}

#[test]
fn lane_above_the_key_count_is_out_of_range() {
    let c = chart(vec![note(0, 5, Key::normal())], vec![(0, 120_000)], 4);
    assert_eq!(c.validate(), Err(ChartError::LaneOutOfRange));
}

#[test]
fn non_positive_tempo_is_invalid_and_checked_before_lanes() {
    let c = chart(vec![note(0, 9, Key::normal())], vec![(0, 120_000), (10, 0)], 4);
    assert_eq!(c.validate(), Err(ChartError::InvalidTempo));
    let d = chart(vec![note(0, 1, Key::normal())], vec![(0, -1)], 4);
    assert_eq!(d.validate(), Err(ChartError::InvalidTempo));
}

#[test]
fn scroll_velocity_may_be_zero_or_negative() {
    let mut c = chart(vec![note(0, 1, Key::normal())], vec![(0, 120_000)], 4);
    c.timing_points.add(5, 0, TimingChange { change_type: TimingChangeType::Sv, value: 0 });
    c.timing_points.add(6, 0, TimingChange { change_type: TimingChangeType::Sv, value: -500 });
    assert_eq!(c.validate(), Ok(()));
}

#[test]
fn well_formed_chart_validates() {
    let c = chart(
        vec![note(0, 1, Key::normal()), note(5, 4, Key::slider_start(Some(9)))],
        vec![(0, 120_000)],
        4,
    );
    assert_eq!(c.validate(), Ok(()));
}

#[test]
fn key_count_is_the_declared_one_or_the_highest_lane() {
    let declared = chart(vec![note(0, 2, Key::normal())], vec![(0, 1)], 7);
    assert_eq!(declared.key_count(), 7);
    let observed = chart(vec![note(0, 2, Key::normal()), note(1, 6, Key::normal())], vec![(0, 1)], 0);
    assert_eq!(observed.key_count(), 6);
    assert_eq!(observed.validate(), Ok(()));
    let nothing = chart(vec![], vec![], 0);
    assert_eq!(nothing.key_count(), 0);
}

#[test]
fn start_and_end_time_span_the_notes() {
    let c = chart(
        vec![
            note(300, 1, Key::normal()),
            note(100, 2, Key::slider_start(Some(900))),
            note(500, 3, Key::normal()),
            note(50, 4, Key::slider_start(None)),
            note(700, 1, Key::slider_start(Some(600))),
        ],
        vec![(0, 1)],
        4,
    );
    assert_eq!(c.start_time(), Some(50));
    assert_eq!(c.end_time(), Some(900));
    let empty = chart(vec![], vec![], 4);
    assert_eq!(empty.start_time(), None);
    assert_eq!(empty.end_time(), None);
    let taps = chart(vec![note(-5, 1, Key::normal()), note(-9, 1, Key::normal())], vec![], 4);
    assert_eq!(taps.start_time(), Some(-9));
    assert_eq!(taps.end_time(), Some(-5));
}

#[test]
fn max_combo_counts_taps_once_and_long_notes_twice() {
    let c = chart(
        vec![
            note(0, 1, Key::normal()),
            note(0, 2, Key::slider_start(Some(10))),
            note(10, 2, Key::slider_end()),
            note(20, 3, Key::mine()),
            note(30, 4, Key::normal()),
            note(40, 1, Key::slider_start(None)),
        ],
        vec![(0, 1)],
        4,
    );
    assert_eq!(c.max_combo(), 6);
    assert_eq!(chart(vec![], vec![], 4).max_combo(), 0);
}

#[test]
fn empty_keys_never_enter_the_note_list() {
    let mut notes = HitObjects::with_capacity(8);
    notes.add_hitobject(0, 0, KeySound::default(), Key::empty(), 1);
    assert_eq!(notes.len(), 0);
    notes.add_hitobject(5, 1, KeySound::default(), Key::normal(), 2);
    assert_eq!(notes.len(), 1);
    assert_eq!(notes.get(0), Some(HitObject {
        time: 5,
        beat: 1,
        keysound: KeySound::default(),
        key: Key::normal(),
        lane: 2,
    }));
    assert_eq!(notes.get(1), None);
}

#[test]
fn notes_added_sorted_stay_sorted_with_ties_in_arrival_order() {
    let mut notes = HitObjects::with_capacity(8);
    for (time, lane) in [(10, 1), (30, 2), (20, 3), (10, 4), (20, 5), (0, 6), (30, 7)] {
        notes.add_hitobject_sorted(note(time, lane, Key::normal()));
    }
    let got: Vec<(i32, u8)> = notes.objects.iter().map(|h| (h.time, h.lane)).collect();
    assert_eq!(got, vec![(0, 6), (10, 1), (10, 4), (20, 3), (20, 5), (30, 2), (30, 7)]);
}

#[test]
fn timing_points_are_filtered_by_kind() {
    let mut points = TimingPoints::with_capacity(4);
    assert!(points.is_bpms_empty());
    assert!(points.is_sv_empty());
    points.add(0, 0, TimingChange { change_type: TimingChangeType::Bpm, value: 120_000 });
    points.add(5, 1, TimingChange { change_type: TimingChangeType::Sv, value: 1500 });
    points.add(9, 2, TimingChange { change_type: TimingChangeType::Stop, value: 3 });
    points.add(9, 2, TimingChange { change_type: TimingChangeType::Bpm, value: 90_000 });
    assert!(!points.is_bpms_empty());
    assert!(!points.is_sv_empty());
    assert_eq!(points.bpms(), vec![120_000, 90_000]);
    assert_eq!(points.bpms_times(), vec![0, 9]);
    assert_eq!(points.sv(), vec![1500]);
    assert_eq!(points.bpm_changes().len(), 2);
    assert_eq!(points.sv_changes().len(), 1);
    assert_eq!(points.sv_changes()[0].time, 5);
    assert_eq!(points.len(), 4);
}

#[test]
fn sound_bank_keeps_indices_stable() {
    let mut bank = SoundBank::new();
    assert_eq!(bank.add_sound_sample("kick.wav".to_string()), 0);
    assert_eq!(bank.add_sound_sample("snare.wav".to_string()), 1);
    assert_eq!(bank.add_sound_sample("kick.wav".to_string()), 0);
    assert_eq!(bank.add_sound_sample("hat.wav".to_string()), 2);
    assert_eq!(bank.get_sample_paths(), &vec!["kick.wav".to_string(), "snare.wav".to_string(), "hat.wav".to_string()]);
    assert_eq!(bank.get_sound_sample(1), Some("snare.wav".to_string()));
    assert_eq!(bank.get_sound_sample(3), None);
    bank.add_sound_effect(SoundEffect { time: 5, volume: 80, sample: 2 });
    assert_eq!(bank.sound_effects, vec![SoundEffect { time: 5, volume: 80, sample: 2 }]);
}

#[test]
fn key_sounds_are_built_as_described() {
    assert_eq!(KeySound::default(), KeySound::of_type(100, HitSoundType::Normal));
    let custom = KeySound::with_custom(70, 3, None);
    assert_eq!(custom.sample, Some(3));
    assert!(custom.has_custom);
    assert_eq!(custom.volume, 70);
    assert_eq!(custom.hitsound_type, HitSoundType::Normal);
    assert_eq!(KeySound::with_custom(70, 3, Some(HitSoundType::Clap)).hitsound_type, HitSoundType::Clap);
    assert!(!KeySound::of_type(50, HitSoundType::Finish).has_custom);
}

#[test]
fn blank_metadata_and_chart_info() {
    let m = Metadata::empty();
    assert!(m.title.is_empty() && m.artist.is_empty() && m.tags.is_empty());
    let c = ChartInfo::empty();
    assert!(c.song_path.is_empty() && c.bg_path.is_empty());
    assert_eq!((c.audio_offset, c.preview_time, c.key_count, c.od, c.hp), (0, 0, 0, 0, 0));
}
