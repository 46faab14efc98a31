//! From the canonical chart to the model of the JSON-based format.

use vstd::prelude::*;
use crate::models::common::KeyType;
use crate::models::fluxis::chart::{DualMode, FscFile};
use crate::models::fluxis::hitobjects::{clamp_to_i32, clamped, HitObject as FscHitObject};
use crate::models::fluxis::metadata::{blank, Metadata};
use crate::models::fluxis::timing_points::{
    default_groups, ScrollVelocity, TimingPoint as FscTimingPoint,
};
use crate::models::generic::chart::GenericManiaChart;
use crate::models::generic::hitobjects::HitObject;
use crate::models::generic::sound::HitSoundType;
use crate::models::generic::timing_points::{bpm_points, sv_points, TimingPoint};
use crate::utils::sequences::{lemma_filter_empty, lemma_filter_prefix_step};
use crate::utils::text::{join, joined};
use crate::writers::quaver::{is_written, written_notes};

verus! {

/// The name under which a stock sound stands in a file.
pub open spec fn hitsound_name(h: HitSoundType) -> Seq<char> {
    match h {
        HitSoundType::Normal => ":normal"@,
        HitSoundType::Clap => ":clap"@,
        HitSoundType::Whistle => ":whistle"@,
        HitSoundType::Finish => ":finish"@,
    }
}

pub fn get_hitsound_type(hitsound_type: HitSoundType) -> (name: String)
    ensures
        name@ == hitsound_name(hitsound_type),
{
    match hitsound_type {
        HitSoundType::Normal => ":normal".to_owned(),
        HitSoundType::Clap => ":clap".to_owned(),
        HitSoundType::Whistle => ":whistle".to_owned(),
        HitSoundType::Finish => ":finish".to_owned(),
    }
}

/// `f` is what the note `h` is written as: a tap with the normal sound, or a
/// long note with its own sound, held until its end. A long note whose end
/// is not known ends at 0.
pub open spec fn note_written(f: FscHitObject, h: HitObject) -> bool {
    &&& f.time == h.time
    &&& f.lane == h.lane
    &&& f.visual_lane == 0
    &&& f.group is None
    &&& f.is_tick == 0
    &&& f.holdtime == if h.key.key_type == KeyType::SliderStart {
        clamped(
            match h.key.slider_end_time {
                Some(end) => end as int,
                None => 0int,
            } - h.time,
        )
    } else {
        0i32
    }
    &&& f.hitsound@ == if h.key.key_type == KeyType::SliderStart {
        hitsound_name(h.keysound.hitsound_type)
    } else {
        ":normal"@
    }
}

pub open spec fn tempo_written(p: TimingPoint) -> FscTimingPoint {
    FscTimingPoint { time: p.time, bpm: p.change.value, signature: 4, hide_lines: false }
}

/// `v` is what the scroll velocity `p` is written as.
pub open spec fn velocity_written(v: ScrollVelocity, p: TimingPoint) -> bool {
    &&& v.time == p.time
    &&& v.multiplier == p.change.value
    &&& v.groups is Some
    &&& v.groups->0.deep_view() == default_groups()
}

pub open spec fn some_text(s: Option<String>, text: Seq<char>) -> bool {
    s is Some && s->0@ == text
}

/// `file` is what `chart` is written as.
pub open spec fn written(chart: GenericManiaChart, file: FscFile) -> bool {
    &&& file.audio_file@ == chart.chartinfo.song_path@
    &&& file.background_file@ == chart.chartinfo.bg_path@
    &&& file.video_file@ == chart.chartinfo.video_path@
    &&& file.cover_file@.len() == 0
    &&& file.effect_file@.len() == 0
    &&& file.storyboard_file@.len() == 0
    &&& file.metadata.title@ == chart.metadata.title@
    &&& some_text(file.metadata.title_rm, chart.metadata.alt_title@)
    &&& file.metadata.artist@ == chart.metadata.artist@
    &&& some_text(file.metadata.artist_rm, chart.metadata.alt_artist@)
    &&& file.metadata.mapper@ == chart.metadata.creator@
    &&& file.metadata.difficulty@ == chart.chartinfo.difficulty_name@
    &&& some_text(file.metadata.source, chart.metadata.source@)
    &&& blank(file.metadata.bg_source)
    &&& blank(file.metadata.cover_source)
    &&& file.metadata.tags@ == joined(chart.metadata.tags.deep_view(), " "@)
    &&& file.metadata.previewtime == chart.chartinfo.preview_time
    &&& file.accuracy_difficulty == Some(chart.chartinfo.od)
    &&& file.health_difficulty == Some(chart.chartinfo.hp)
    &&& file.dual_mode == Some(DualMode::Disabled)
    &&& file.new_lane_switch_layout == Some(false)
    &&& file.time_in_editor == Some(0i32)
    &&& file.extra_playfields == Some(0i32)
    &&& file.hit_sound_fades@.len() == 0
    &&& file.timing_points@ == bpm_points(chart.timings()).map_values(
        |p: TimingPoint| tempo_written(p),
    )
    &&& file.scroll_velocities@.len() == sv_points(chart.timings()).len()
    &&& forall|i: int|
        0 <= i < file.scroll_velocities@.len() ==> velocity_written(
            #[trigger] file.scroll_velocities@[i],
            sv_points(chart.timings())[i],
        )
    &&& file.hit_objects@.len() == written_notes(chart.notes()).len()
    &&& forall|i: int|
        0 <= i < file.hit_objects@.len() ==> note_written(
            #[trigger] file.hit_objects@[i],
            written_notes(chart.notes())[i],
        )
}

fn tempos_written(points: &Vec<TimingPoint>) -> (v: Vec<FscTimingPoint>)
    ensures
        v@ == points@.map_values(|p: TimingPoint| tempo_written(p)),
{
    let mut v: Vec<FscTimingPoint> = Vec::new();
    let mut i: usize = 0;
    while i < points.len()
        invariant
            i <= points.len(),
            v@ == points@.subrange(0, i as int).map_values(|p: TimingPoint| tempo_written(p)),
        decreases points.len() - i,
    {
        v.push(
            FscTimingPoint {
                time: points[i].time,
                bpm: points[i].change.value,
                signature: 4,
                hide_lines: false,
            },
        );
        i += 1;
        assert(v@ =~= points@.subrange(0, i as int).map_values(|p: TimingPoint| tempo_written(p)));
    }
    assert(points@.subrange(0, i as int) =~= points@);
    v
}

fn velocities_written(points: &Vec<TimingPoint>) -> (v: Vec<ScrollVelocity>)
    ensures
        v@.len() == points@.len(),
        forall|i: int| 0 <= i < v@.len() ==> velocity_written(#[trigger] v@[i], points@[i]),
{
    let mut v: Vec<ScrollVelocity> = Vec::new();
    let mut i: usize = 0;
    while i < points.len()
        invariant
            i <= points.len(),
            v@.len() == i,
            forall|k: int| 0 <= k < i ==> velocity_written(#[trigger] v@[k], points@[k]),
        decreases points.len() - i,
    {
        v.push(ScrollVelocity::new(points[i].time, points[i].change.value));
        i += 1;
    }
    v
}

fn notes_written(notes: &Vec<HitObject>) -> (v: Vec<FscHitObject>)
    ensures
        v@.len() == written_notes(notes@).len(),
        forall|i: int|
            0 <= i < v@.len() ==> note_written(#[trigger] v@[i], written_notes(notes@)[i]),
{
    let mut v: Vec<FscHitObject> = Vec::new();
    let mut i: usize = 0;
    proof {
        lemma_filter_empty(|h: HitObject| is_written(h));
        assert(notes@.subrange(0, 0) =~= Seq::<HitObject>::empty());
    }
    while i < notes.len()
        invariant
            i <= notes.len(),
            v@.len() == written_notes(notes@.subrange(0, i as int)).len(),
            forall|k: int|
                0 <= k < v@.len() ==> note_written(
                    #[trigger] v@[k],
                    written_notes(notes@.subrange(0, i as int))[k],
                ),
        decreases notes.len() - i,
    {
        let h = notes[i];
        let ghost before = written_notes(notes@.subrange(0, i as int));
        let ghost old_v = v@;
        proof {
            lemma_filter_prefix_step(notes@, i as int, |h: HitObject| is_written(h));
        }
        match h.key.key_type {
            KeyType::Normal => {
                v.push(
                    FscHitObject {
                        time: h.time,
                        lane: h.lane as isize,
                        visual_lane: 0,
                        holdtime: 0,
                        hitsound: get_hitsound_type(HitSoundType::Normal),
                        group: None,
                        is_tick: 0,
                    },
                );
            },
            KeyType::SliderStart => {
                let end: i32 = match h.key.slider_end_time {
                    Some(end) => end,
                    None => 0,
                };
                v.push(
                    FscHitObject {
                        time: h.time,
                        lane: h.lane as isize,
                        visual_lane: 0,
                        holdtime: clamp_to_i32(end as i64 - h.time as i64),
                        hitsound: get_hitsound_type(h.keysound.hitsound_type),
                        group: None,
                        is_tick: 0,
                    },
                );
            },
            _ => {},
        }
        i += 1;
        proof {
            let after = written_notes(notes@.subrange(0, i as int));
            assert forall|k: int| 0 <= k < v@.len() implies note_written(
                #[trigger] v@[k],
                after[k],
            ) by {
                if k < old_v.len() {
                    assert(v@[k] == old_v[k]);
                    assert(after[k] == before[k]);
                }
            }
        }
    }
    assert(notes@.subrange(0, i as int) =~= notes@);
    v
}

/// Converts the canonical chart into a file of the JSON-based format.
pub fn to_fsc(chart: &GenericManiaChart) -> (file: FscFile)
    ensures
        written(*chart, file),
{
    let mut metadata = Metadata::default();
    metadata.title = chart.metadata.title.clone();
    metadata.title_rm = Some(chart.metadata.alt_title.clone());
    metadata.artist = chart.metadata.artist.clone();
    metadata.artist_rm = Some(chart.metadata.alt_artist.clone());
    metadata.mapper = chart.metadata.creator.clone();
    metadata.difficulty = chart.chartinfo.difficulty_name.clone();
    metadata.source = Some(chart.metadata.source.clone());
    metadata.tags = join(&chart.metadata.tags, " ");
    metadata.previewtime = chart.chartinfo.preview_time;
    let mut file = FscFile::new();
    file.audio_file = chart.chartinfo.song_path.clone();
    file.background_file = chart.chartinfo.bg_path.clone();
    file.video_file = chart.chartinfo.video_path.clone();
    file.metadata = metadata;
    file.hit_objects = notes_written(&chart.hitobjects.objects);
    file.timing_points = tempos_written(&chart.timing_points.bpm_changes());
    file.scroll_velocities = velocities_written(&chart.timing_points.sv_changes());
    file.accuracy_difficulty = Some(chart.chartinfo.od);
    file.health_difficulty = Some(chart.chartinfo.hp);
    file
}

} // verus!
