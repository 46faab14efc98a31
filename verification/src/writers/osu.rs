//! From the canonical chart to the INI-like format.

use vstd::prelude::*;
use crate::errors::ChartError;
use crate::models::common::{KeyType, TimingChangeType};
use crate::models::generic::chart::GenericManiaChart;
use crate::models::generic::hitobjects::HitObject;
use crate::models::generic::sound::{HitSoundType, KeySound, SoundBank, SoundEffect};
use crate::models::generic::timing_points::TimingPoint;
use crate::models::osu::chart::OsuFile;
use crate::models::osu::difficulty::Difficulty;
use crate::models::osu::editor::Editor;
use crate::models::osu::events::{Background, Events, Sample, Video};
use crate::models::osu::general::General;
use crate::models::osu::hitobjects::{HitObject as OsuHitObject, HitObjects as OsuHitObjects};
use crate::models::osu::metadata::Metadata as OsuMetadata;
use crate::models::osu::sound::{HitSample, SampleSet};
use crate::models::osu::timing_points::{
    TimingPoint as OsuTimingPoint, TimingPoints as OsuTimingPoints,
};
use crate::utils::sequences::{lemma_filter_empty, lemma_filter_prefix_step};
use crate::utils::text::{
    chars_of, decimal, decimal_string, trim_range, trimmed, without, without_char,
};
use crate::writers::quaver::{is_written, written_notes};

verus! {

/// The beat length of a tempo: sixty thousand milliseconds over the tempo,
/// in thousandths.
pub open spec fn beat_length_of(bpm: i64) -> int {
    60_000_000_000int / (bpm as int)
}

pub fn bpm_to_beatlength(bpm: i64) -> (l: i64)
    requires
        bpm > 0,
    ensures
        l == beat_length_of(bpm),
{
    60_000_000_000 / bpm
}

/// The beat length that stands for a scroll velocity: minus one hundred over
/// the amount of the velocity, and minus ten thousand for the velocity 0; in
/// thousandths.
pub open spec fn velocity_length_of(multiplier: i64) -> int {
    if multiplier == 0 {
        -10_000_000
    } else if multiplier > 0 {
        -(100_000_000int / (multiplier as int))
    } else {
        -(100_000_000int / (-(multiplier as int)))
    }
}

pub fn multiplier_to_beatlength(multiplier: i64) -> (l: i64)
    ensures
        l == velocity_length_of(multiplier),
{
    if multiplier == 0 {
        -10_000_000
    } else if multiplier > 0 {
        -(100_000_000 / multiplier)
    } else {
        let amount: i128 = -(multiplier as i128);
        (-(100_000_000 / amount)) as i64
    }
}

/// Where a lane lies across the 512 units of the playfield: the lanes before
/// it times 512 over the lane count, rounded up, and no more than 65535.
pub open spec fn coords_of(lane: u8, key_count: int) -> int {
    let across = ((lane - 1) * 512 + key_count - 1) / key_count;
    if across > 65535 {
        65535
    } else {
        across
    }
}

pub fn column_to_coords(lane: u8, key_count: usize) -> (x: u16)
    requires
        lane >= 1,
        key_count >= 1,
    ensures
        x == coords_of(lane, key_count as int),
{
    let span: u128 = (lane as u128 - 1) * 512 + key_count as u128 - 1;
    let across = span / (key_count as u128);
    if across > 65535 {
        65535
    } else {
        across as u16
    }
}

/// The number under which a stock sound stands in a hit object.
pub open spec fn hitsound_number(h: HitSoundType) -> u8 {
    match h {
        HitSoundType::Normal => 0,
        HitSoundType::Whistle => 2,
        HitSoundType::Finish => 4,
        HitSoundType::Clap => 8,
    }
}

/// Why the chart cannot be written, if it cannot: it has no lanes, a tempo
/// that is not positive, or a note in lane 0. The lanes of a chart are those
/// it declares, or where it declares none the highest lane that a note uses.
pub open spec fn write_error(chart: GenericManiaChart) -> Option<ChartError> {
    if chart.lanes() == 0 {
        Some(ChartError::UnsupportedKeyCount)
    } else if chart.has_bad_tempo() {
        Some(ChartError::InvalidTempo)
    } else if exists|i: int| 0 <= i < chart.notes().len() && (#[trigger] chart.notes()[i]).lane == 0 {
        Some(ChartError::LaneOutOfRange)
    } else {
        None
    }
}

/// Whether a timing point of the chart is written: tempo and scroll
/// velocity changes are, stops are not.
pub open spec fn point_is_written(p: TimingPoint) -> bool {
    p.change.change_type != TimingChangeType::Stop
}

/// The timing point of the file for a timing point of the chart.
pub open spec fn point_written(p: TimingPoint) -> OsuTimingPoint {
    OsuTimingPoint {
        time: (p.time * 1000) as i64,
        beat_length: if p.change.change_type == TimingChangeType::Bpm {
            beat_length_of(p.change.value) as i64
        } else {
            velocity_length_of(p.change.value) as i64
        },
        meter: 4,
        sample_set: 1,
        sample_index: 0,
        volume: 100,
        uninherited: p.change.change_type == TimingChangeType::Bpm,
        effects: 0,
    }
}

/// The path of the sample that a key sound plays, as the bank has it; nothing
/// for a key sound without a sample of its own or one that the bank lacks.
pub open spec fn sample_path(k: KeySound, samples: Seq<Seq<char>>) -> Seq<char> {
    let index = match k.sample {
        Some(i) => i,
        None => 0,
    };
    if k.has_custom && index < samples.len() {
        samples[index as int]
    } else {
        Seq::empty()
    }
}

/// `o` is what the note `h` is written as, when the bank holds `samples`.
pub open spec fn note_written(
    o: OsuHitObject,
    h: HitObject,
    key_count: int,
    samples: Seq<Seq<char>>,
) -> bool {
    &&& o.x == coords_of(h.lane, key_count)
    &&& o.y == 192
    &&& o.time == h.time * 1000
    &&& o.object_type == if h.key.key_type == KeyType::SliderStart {
        128u8
    } else {
        1u8
    }
    &&& o.hit_sound == hitsound_number(h.keysound.hitsound_type)
    &&& o.params() == if h.key.key_type == KeyType::SliderStart {
        seq![
            decimal(
                match h.key.slider_end_time {
                    Some(e) => e as int,
                    None => 0,
                },
            ),
        ]
    } else {
        Seq::empty()
    }
    &&& o.hit_sample.normal_set == 0
    &&& o.hit_sample.addition_set == 0
    &&& o.hit_sample.index == 0
    &&& o.hit_sample.volume == if h.keysound.volume >= 100 {
        0
    } else {
        h.keysound.volume
    }
    &&& o.hit_sample.filename@ == sample_path(h.keysound, samples)
}

/// The samples of the chart's bank; none where it has no bank.
pub open spec fn bank_samples(chart: GenericManiaChart) -> Seq<Seq<char>> {
    match chart.soundbank {
        Some(b) => b.samples(),
        None => Seq::empty(),
    }
}

/// The sound effects of the chart's bank; none where it has no bank.
pub open spec fn bank_effects(chart: GenericManiaChart) -> Seq<SoundEffect> {
    match chart.soundbank {
        Some(b) => b.sound_effects@,
        None => Seq::empty(),
    }
}

/// `s` is the storyboard sample that the sound effect `e` is written as.
pub open spec fn effect_written(s: Sample, e: SoundEffect, samples: Seq<Seq<char>>) -> bool {
    &&& s.start_time == e.time
    &&& s.layer == 0
    &&& s.volume == e.volume
    &&& s.filename@ == if e.sample < samples.len() {
        samples[e.sample as int]
    } else {
        Seq::empty()
    }
}

/// `file` is what `chart` is written as.
pub open spec fn written(chart: GenericManiaChart, file: OsuFile) -> bool {
    let samples = bank_samples(chart);
    &&& file.general.audio_filename@ == chart.chartinfo.song_path@
    &&& file.general.audio_lead_in == 0
    &&& file.general.preview_time == chart.chartinfo.preview_time
    &&& file.general.countdown == 0
    &&& file.general.sample_set == SampleSet::Soft
    &&& file.general.stack_leniency == 700
    &&& file.general.mode == 3
    &&& !file.general.letterbox_in_breaks
    &&& !file.general.special_style
    &&& file.general.widescreen_storyboard
    &&& file.general.audio_hash is None
    &&& file.general.story_fire_in_front is None
    &&& file.general.use_skin_sprites is None
    &&& file.general.always_show_playfield is None
    &&& file.general.overlay_position is None
    &&& file.general.skin_preference is None
    &&& file.general.epilepsy_warning is None
    &&& file.general.countdown_offset is None
    &&& file.general.samples_match_playback_rate is None
    &&& file.editor is Some
    &&& file.editor->0.bookmarks@.len() == 0
    &&& file.editor->0.distance_spacing == Some(1000i64)
    &&& file.editor->0.beat_divisor == Some(4i32)
    &&& file.editor->0.grid_size == Some(4i32)
    &&& file.editor->0.timeline_zoom == Some(1000i64)
    &&& file.metadata.title@ == without(chart.metadata.title@, '\n')
    &&& file.metadata.title_unicode@ == chart.metadata.alt_title@
    &&& file.metadata.artist@ == chart.metadata.artist@
    &&& file.metadata.artist_unicode@ == chart.metadata.alt_artist@
    &&& file.metadata.creator@ == chart.metadata.creator@
    &&& file.metadata.version@ == chart.chartinfo.difficulty_name@
    &&& file.metadata.source@ == chart.metadata.source@
    &&& file.metadata.tags.deep_view() == chart.metadata.tags.deep_view()
    &&& file.metadata.beatmap_id == -1
    &&& file.metadata.beatmap_set_id == -1
    &&& file.difficulty == (Difficulty {
        hp_drain_rate: 8500,
        circle_size: (chart.lanes() * 1000) as i64,
        overall_difficulty: 8000,
        approach_rate: 5000,
        slider_multiplier: 1400,
        slider_tick_rate: 1000,
    })
    &&& match file.events.background {
        Some(b) => trimmed(chart.chartinfo.bg_path@).len() > 0 && b.filename@
            == chart.chartinfo.bg_path@ && b.x_offset == 0 && b.y_offset == 0,
        None => trimmed(chart.chartinfo.bg_path@).len() == 0,
    }
    &&& match file.events.video {
        Some(v) => trimmed(chart.chartinfo.video_path@).len() > 0 && v.filename@
            == chart.chartinfo.video_path@ && v.start_time == 0 && v.x_offset == 0 && v.y_offset
            == 0,
        None => trimmed(chart.chartinfo.video_path@).len() == 0,
    }
    &&& file.events.breaks@.len() == 0
    &&& file.events.raw_events@.len() == 0
    &&& file.events.samples@.len() == bank_effects(chart).len()
    &&& forall|i: int|
        0 <= i < file.events.samples@.len() ==> effect_written(
            #[trigger] file.events.samples@[i],
            bank_effects(chart)[i],
            samples,
        )
    &&& file.timing_points.timing_points@ == chart.timings().filter(
        |p: TimingPoint| point_is_written(p),
    ).map_values(|p: TimingPoint| point_written(p))
    &&& file.hitobjects.hit_objects@.len() == written_notes(chart.notes()).len()
    &&& forall|i: int|
        0 <= i < file.hitobjects.hit_objects@.len() ==> note_written(
            #[trigger] file.hitobjects.hit_objects@[i],
            written_notes(chart.notes())[i],
            chart.lanes(),
            samples,
        )
}

fn has_text(s: &String) -> (b: bool)
    ensures
        b == (trimmed(s@).len() > 0),
{
    let v = chars_of(s.as_str());
    assert(v@.subrange(0, v@.len() as int) =~= v@);
    let (a, b) = trim_range(&v, 0, v.len());
    a < b
}

fn path_of(bank: &Option<SoundBank>, index: usize) -> (s: String)
    ensures
        s@ == ({
            let samples = match *bank {
                Some(b) => b.samples(),
                None => Seq::empty(),
            };
            if index < samples.len() {
                samples[index as int]
            } else {
                Seq::<char>::empty()
            }
        }),
{
    match bank {
        Some(b) => match b.get_sound_sample(index) {
            Some(path) => path,
            None => {
                let s = String::new();
                assert(s@ =~= Seq::<char>::empty());
                s
            },
        },
        None => {
            let s = String::new();
            assert(s@ =~= Seq::<char>::empty());
            s
        },
    }
}

fn events_written(chart: &GenericManiaChart) -> (events: Events)
    ensures
        match events.background {
            Some(b) => trimmed(chart.chartinfo.bg_path@).len() > 0 && b.filename@
                == chart.chartinfo.bg_path@ && b.x_offset == 0 && b.y_offset == 0,
            None => trimmed(chart.chartinfo.bg_path@).len() == 0,
        },
        match events.video {
            Some(v) => trimmed(chart.chartinfo.video_path@).len() > 0 && v.filename@
                == chart.chartinfo.video_path@ && v.start_time == 0 && v.x_offset == 0
                && v.y_offset == 0,
            None => trimmed(chart.chartinfo.video_path@).len() == 0,
        },
        events.breaks@.len() == 0,
        events.raw_events@.len() == 0,
        events.samples@.len() == bank_effects(*chart).len(),
        forall|i: int|
            0 <= i < events.samples@.len() ==> effect_written(
                #[trigger] events.samples@[i],
                bank_effects(*chart)[i],
                bank_samples(*chart),
            ),
{
    let mut events = Events::new();
    if has_text(&chart.chartinfo.bg_path) {
        events.background = Some(Background::new(chart.chartinfo.bg_path.clone(), 0, 0));
    }
    if has_text(&chart.chartinfo.video_path) {
        events.video = Some(Video::new(0, chart.chartinfo.video_path.clone(), 0, 0));
    }
    match &chart.soundbank {
        Some(bank) => {
            let mut i: usize = 0;
            while i < bank.sound_effects.len()
                invariant
                    i <= bank.sound_effects.len(),
                    chart.soundbank == Some(*bank),
                    events.samples@.len() == i,
                    events.breaks@.len() == 0,
                    events.raw_events@.len() == 0,
                    match events.background {
                        Some(b) => trimmed(chart.chartinfo.bg_path@).len() > 0 && b.filename@
                            == chart.chartinfo.bg_path@ && b.x_offset == 0 && b.y_offset == 0,
                        None => trimmed(chart.chartinfo.bg_path@).len() == 0,
                    },
                    match events.video {
                        Some(v) => trimmed(chart.chartinfo.video_path@).len() > 0 && v.filename@
                            == chart.chartinfo.video_path@ && v.start_time == 0 && v.x_offset == 0
                            && v.y_offset == 0,
                        None => trimmed(chart.chartinfo.video_path@).len() == 0,
                    },
                    forall|k: int|
                        0 <= k < i ==> effect_written(
                            #[trigger] events.samples@[k],
                            bank.sound_effects@[k],
                            bank.samples(),
                        ),
                decreases bank.sound_effects.len() - i,
            {
                let e = bank.sound_effects[i];
                let path = path_of(&chart.soundbank, e.sample);
                let ghost before = events.samples@;
                events.add_sample(e.time, 0, path, e.volume);
                proof {
                    assert forall|k: int| 0 <= k < i + 1 implies effect_written(
                        #[trigger] events.samples@[k],
                        bank.sound_effects@[k],
                        bank.samples(),
                    ) by {
                        if k < i {
                            assert(events.samples@[k] == before[k]);
                        }
                    }
                }
                i += 1;
            }
        },
        None => {},
    }
    events
}

fn points_written(points: &Vec<TimingPoint>) -> (out: OsuTimingPoints)
    requires
        forall|i: int|
            0 <= i < points@.len() ==> !((#[trigger] points@[i]).is_bpm() && points@[i].change.value
                <= 0),
    ensures
        out.timing_points@ == points@.filter(|p: TimingPoint| point_is_written(p)).map_values(
            |p: TimingPoint| point_written(p),
        ),
{
    let mut out = OsuTimingPoints::new();
    let mut i: usize = 0;
    proof {
        lemma_filter_empty(|p: TimingPoint| point_is_written(p));
        assert(points@.subrange(0, 0) =~= Seq::<TimingPoint>::empty());
        assert(out.timing_points@ =~= points@.subrange(0, 0).filter(
            |p: TimingPoint| point_is_written(p),
        ).map_values(|p: TimingPoint| point_written(p)));
    }
    while i < points.len()
        invariant
            i <= points.len(),
            forall|k: int|
                0 <= k < points@.len() ==> !((#[trigger] points@[k]).is_bpm()
                    && points@[k].change.value <= 0),
            out.timing_points@ == points@.subrange(0, i as int).filter(
                |p: TimingPoint| point_is_written(p),
            ).map_values(|p: TimingPoint| point_written(p)),
        decreases points.len() - i,
    {
        let p = points[i];
        proof {
            lemma_filter_prefix_step(points@, i as int, |p: TimingPoint| point_is_written(p));
            assert(!(points@[i as int].is_bpm() && points@[i as int].change.value <= 0));
        }
        match p.change.change_type {
            TimingChangeType::Bpm => {
                out.add_timing_point(
                    OsuTimingPoint {
                        time: p.time as i64 * 1000,
                        beat_length: bpm_to_beatlength(p.change.value),
                        meter: 4,
                        sample_set: 1,
                        sample_index: 0,
                        volume: 100,
                        uninherited: true,
                        effects: 0,
                    },
                );
            },
            TimingChangeType::Sv => {
                out.add_timing_point(
                    OsuTimingPoint {
                        time: p.time as i64 * 1000,
                        beat_length: multiplier_to_beatlength(p.change.value),
                        meter: 4,
                        sample_set: 1,
                        sample_index: 0,
                        volume: 100,
                        uninherited: false,
                        effects: 0,
                    },
                );
            },
            TimingChangeType::Stop => {},
        }
        i += 1;
        assert(out.timing_points@ =~= points@.subrange(0, i as int).filter(
            |p: TimingPoint| point_is_written(p),
        ).map_values(|p: TimingPoint| point_written(p)));
    }
    assert(points@.subrange(0, i as int) =~= points@);
    out
}

fn notes_written(chart: &GenericManiaChart, key_count: u8) -> (out: OsuHitObjects)
    requires
        key_count == chart.lanes(),
        key_count > 0,
        forall|i: int| 0 <= i < chart.notes().len() ==> (#[trigger] chart.notes()[i]).lane >= 1,
    ensures
        out.hit_objects@.len() == written_notes(chart.notes()).len(),
        forall|i: int|
            0 <= i < out.hit_objects@.len() ==> note_written(
                #[trigger] out.hit_objects@[i],
                written_notes(chart.notes())[i],
                chart.lanes(),
                bank_samples(*chart),
            ),
{
    let notes = &chart.hitobjects.objects;
    let mut out = OsuHitObjects::new();
    let mut i: usize = 0;
    proof {
        lemma_filter_empty(|h: HitObject| is_written(h));
        assert(notes@.subrange(0, 0) =~= Seq::<HitObject>::empty());
    }
    while i < notes.len()
        invariant
            i <= notes.len(),
            notes@ == chart.notes(),
            key_count == chart.lanes(),
            key_count > 0,
            forall|k: int| 0 <= k < notes@.len() ==> (#[trigger] notes@[k]).lane >= 1,
            out.hit_objects@.len() == written_notes(notes@.subrange(0, i as int)).len(),
            forall|k: int|
                0 <= k < out.hit_objects@.len() ==> note_written(
                    #[trigger] out.hit_objects@[k],
                    written_notes(notes@.subrange(0, i as int))[k],
                    key_count as int,
                    bank_samples(*chart),
                ),
        decreases notes.len() - i,
    {
        let h = notes[i];
        let ghost before = written_notes(notes@.subrange(0, i as int));
        let ghost old_out = out.hit_objects@;
        proof {
            lemma_filter_prefix_step(notes@, i as int, |h: HitObject| is_written(h));
            assert(notes@[i as int].lane >= 1);
        }
        let coords = column_to_coords(h.lane, key_count as usize);
        let hit_sound: u8 = match h.keysound.hitsound_type {
            HitSoundType::Normal => 0,
            HitSoundType::Whistle => 2,
            HitSoundType::Finish => 4,
            HitSoundType::Clap => 8,
        };
        let filename = if h.keysound.has_custom {
            let index = match h.keysound.sample {
                Some(s) => s,
                None => 0,
            };
            path_of(&chart.soundbank, index)
        } else {
            let s = String::new();
            assert(s@ =~= Seq::<char>::empty());
            s
        };
        let volume = if h.keysound.volume >= 100 {
            0
        } else {
            h.keysound.volume
        };
        let hit_sample = HitSample { normal_set: 0, addition_set: 0, index: 0, volume, filename };
        match h.key.key_type {
            KeyType::Normal => {
                let object_params: Vec<String> = Vec::new();
                assert(object_params.deep_view() =~= Seq::<Seq<char>>::empty());
                out.add_hit_object(
                    OsuHitObject {
                        x: coords as i32,
                        y: 192,
                        time: h.time as i64 * 1000,
                        object_type: 1,
                        hit_sound,
                        object_params,
                        hit_sample,
                    },
                );
            },
            KeyType::SliderStart => {
                let end: i32 = match h.key.slider_end_time {
                    Some(e) => e,
                    None => 0,
                };
                let mut object_params: Vec<String> = Vec::new();
                object_params.push(decimal_string(end as i64));
                assert(object_params.deep_view() =~= seq![decimal(end as int)]);
                out.add_hit_object(
                    OsuHitObject {
                        x: coords as i32,
                        y: 192,
                        time: h.time as i64 * 1000,
                        object_type: 128,
                        hit_sound,
                        object_params,
                        hit_sample,
                    },
                );
            },
            _ => {},
        }
        i += 1;
        proof {
            let after = written_notes(notes@.subrange(0, i as int));
            assert forall|k: int| 0 <= k < out.hit_objects@.len() implies note_written(
                #[trigger] out.hit_objects@[k],
                after[k],
                key_count as int,
                bank_samples(*chart),
            ) by {
                if k < old_out.len() {
                    assert(out.hit_objects@[k] == old_out[k]);
                    assert(after[k] == before[k]);
                }
            }
        }
    }
    assert(notes@.subrange(0, i as int) =~= notes@);
    out
}

/// Checks that the chart can be written.
fn check_writable(chart: &GenericManiaChart, key_count: u8) -> (r: Result<(), ChartError>)
    requires
        key_count == chart.lanes(),
    ensures
        match write_error(*chart) {
            Some(e) => r == Err::<(), ChartError>(e),
            None => r is Ok,
        },
        r is Ok ==> key_count > 0 && !chart.has_bad_tempo() && forall|i: int|
            0 <= i < chart.notes().len() ==> (#[trigger] chart.notes()[i]).lane >= 1,
{
    if key_count == 0 {
        return Err(ChartError::UnsupportedKeyCount);
    }
    let points = &chart.timing_points.points;
    let mut i: usize = 0;
    while i < points.len()
        invariant
            i <= points.len(),
            points@ == chart.timings(),
            key_count == chart.lanes(),
            key_count > 0,
            forall|k: int|
                0 <= k < i ==> !((#[trigger] points@[k]).is_bpm() && points@[k].change.value <= 0),
        decreases points.len() - i,
    {
        let p = points[i];
        let is_bpm = match p.change.change_type {
            TimingChangeType::Bpm => true,
            _ => false,
        };
        if is_bpm && p.change.value <= 0 {
            assert(chart.timings()[i as int].is_bpm());
            return Err(ChartError::InvalidTempo);
        }
        i += 1;
    }
    let notes = &chart.hitobjects.objects;
    let mut j: usize = 0;
    while j < notes.len()
        invariant
            j <= notes.len(),
            notes@ == chart.notes(),
            key_count == chart.lanes(),
            key_count > 0,
            !chart.has_bad_tempo(),
            forall|k: int| 0 <= k < j ==> (#[trigger] notes@[k]).lane >= 1,
        decreases notes.len() - j,
    {
        if notes[j].lane == 0 {
            assert(chart.notes()[j as int].lane == 0);
            return Err(ChartError::LaneOutOfRange);
        }
        j += 1;
    }
    Ok(())
}

fn copy_tags(v: &Vec<String>) -> (out: Vec<String>)
    ensures
        out.deep_view() == v.deep_view(),
{
    let mut out: Vec<String> = Vec::new();
    let mut i: usize = 0;
    while i < v.len()
        invariant
            i <= v.len(),
            out@.len() == i,
            forall|k: int| 0 <= k < i ==> (#[trigger] out@[k])@ == v@[k]@,
        decreases v.len() - i,
    {
        out.push(v[i].clone());
        i += 1;
    }
    assert(out.deep_view() =~= v.deep_view());
    out
}

/// Converts the canonical chart into a file of the INI-like format.
pub fn to_osu_file(chart: &GenericManiaChart) -> (r: Result<OsuFile, ChartError>)
    ensures
        match write_error(*chart) {
            Some(e) => r is Err && r->Err_0 == e,
            None => r is Ok && written(*chart, r->Ok_0),
        },
{
    let key_count = chart.key_count();
    match check_writable(chart, key_count) {
        Ok(()) => {},
        Err(e) => {
            return Err(e);
        },
    }
    let mut general = General::default();
    general.audio_filename = chart.chartinfo.song_path.clone();
    general.preview_time = chart.chartinfo.preview_time;
    general.countdown = 0;
    general.sample_set = SampleSet::Soft;
    general.mode = 3;
    general.widescreen_storyboard = true;
    let mut editor = Editor::default();
    editor.timeline_zoom = Some(1000);
    let metadata = OsuMetadata::new(
        without_char(chart.metadata.title.as_str(), '\n'),
        chart.metadata.alt_title.clone(),
        chart.metadata.artist.clone(),
        chart.metadata.alt_artist.clone(),
        chart.metadata.creator.clone(),
        chart.chartinfo.difficulty_name.clone(),
        chart.metadata.source.clone(),
        copy_tags(&chart.metadata.tags),
        -1,
        -1,
    );
    let difficulty = Difficulty::new(
        8500,
        key_count as i64 * 1000,
        8000,
        5000,
        1400,
        1000,
    );
    let events = events_written(chart);
    let timing_points = points_written(&chart.timing_points.points);
    let hitobjects = notes_written(chart, key_count);
    Ok(
        OsuFile {
            general,
            editor: Some(editor),
            metadata,
            difficulty,
            events,
            timing_points,
            hitobjects,
        },
    )
}

fn copy_bank(bank: &SoundBank) -> (out: SoundBank)
    ensures
        out.samples() == bank.samples(),
        out.audio_tracks.deep_view() == bank.audio_tracks.deep_view(),
        out.sound_effects@ == bank.sound_effects@,
{
    let mut effects: Vec<SoundEffect> = Vec::new();
    let mut i: usize = 0;
    while i < bank.sound_effects.len()
        invariant
            i <= bank.sound_effects.len(),
            effects@ == bank.sound_effects@.subrange(0, i as int),
        decreases bank.sound_effects.len() - i,
    {
        effects.push(bank.sound_effects[i]);
        i += 1;
        assert(effects@ =~= bank.sound_effects@.subrange(0, i as int));
    }
    assert(bank.sound_effects@.subrange(0, i as int) =~= bank.sound_effects@);
    SoundBank {
        audio_tracks: copy_tags(&bank.audio_tracks),
        sound_sample_paths: copy_tags(&bank.sound_sample_paths),
        sound_effects: effects,
    }
}

/// Writes the canonical chart in the INI-like format: the text of the file
/// that `to_osu_file` gives, in the mania mode, with the samples of the hit
/// objects kept in a copy of the chart's bank.
pub fn to_osu(chart: &GenericManiaChart) -> (r: Result<String, ChartError>)
    ensures
        match write_error(*chart) {
            Some(e) => r is Err && r->Err_0 == e,
            None => r is Ok && exists|file: OsuFile| #[trigger]
                written(*chart, file) && r->Ok_0@ == file.banked_text(),
        },
{
    let file = match to_osu_file(chart) {
        Ok(file) => file,
        Err(e) => {
            return Err(e);
        },
    };
    let mut bank = match &chart.soundbank {
        Some(b) => copy_bank(b),
        None => SoundBank::new(),
    };
    let text = file.to_osu_format_mania(&mut bank);
    assert(written(*chart, file) && text@ == file.banked_text());
    Ok(text)
}

} // verus!
