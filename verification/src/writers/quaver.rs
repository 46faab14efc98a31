//! From the canonical chart to the model of the YAML-based format.

use vstd::prelude::*;
use crate::errors::ChartError;
use crate::models::common::KeyType;
use crate::models::generic::chart::GenericManiaChart;
use crate::models::generic::hitobjects::HitObject;
use crate::models::generic::sound::{HitSoundType, KeySound, SoundBank, SoundEffect};
use crate::models::generic::timing_points::{bpm_points, sv_points, TimingPoint};
use crate::models::quaver::chart::QuaFile;
use crate::models::quaver::hitobjects::HitObject as QuaHitObject;
use crate::models::quaver::sound::{
    AudioSample, KeySound as QuaKeySound, SoundEffect as QuaSoundEffect,
};
use crate::models::quaver::timing_points::{SliderVelocity, TimingPoint as QuaTimingPoint};
use crate::parsers::quaver::paths_of;
use crate::utils::sequences::{lemma_filter_empty, lemma_filter_prefix_step};
use crate::utils::text::{join, joined, without, without_char};

verus! {

/// The mode name for a lane count: 4 and 7 lanes, each with or without a
/// scratch lane. Other lane counts cannot be written.
pub open spec fn mode_name(key_count: u8) -> Option<Seq<char>> {
    if key_count == 4 || key_count == 5 {
        Some("Keys4"@)
    } else if key_count == 7 || key_count == 8 {
        Some("Keys7"@)
    } else {
        None
    }
}

pub fn get_mode_string(key_count: u8) -> (r: Result<String, ChartError>)
    ensures
        match mode_name(key_count) {
            Some(name) => r is Ok && r->Ok_0@ == name,
            None => r is Err && r->Err_0 == ChartError::UnsupportedKeyCount,
        },
{
    if key_count == 4 || key_count == 5 {
        Ok("Keys4".to_owned())
    } else if key_count == 7 || key_count == 8 {
        Ok("Keys7".to_owned())
    } else {
        Err(ChartError::UnsupportedKeyCount)
    }
}

/// The name under which a stock sound stands in a file; the normal sound has
/// none.
pub open spec fn hitsound_name(h: HitSoundType) -> Option<Seq<char>> {
    match h {
        HitSoundType::Normal => None,
        HitSoundType::Clap => Some("Clap"@),
        HitSoundType::Whistle => Some("Whistle"@),
        HitSoundType::Finish => Some("Finish"@),
    }
}

pub open spec fn text_of(s: Option<String>) -> Option<Seq<char>> {
    match s {
        Some(s) => Some(s@),
        None => None,
    }
}

pub fn get_hitsound_type(hitsound_type: HitSoundType) -> (name: Option<String>)
    ensures
        text_of(name) == hitsound_name(hitsound_type),
{
    match hitsound_type {
        HitSoundType::Normal => None,
        HitSoundType::Clap => Some("Clap".to_owned()),
        HitSoundType::Whistle => Some("Whistle".to_owned()),
        HitSoundType::Finish => Some("Finish".to_owned()),
    }
}

/// The number of a sample in a file, where samples are numbered from 1.
pub open spec fn sample_number(index: usize) -> usize {
    if index + 1 > usize::MAX {
        usize::MAX
    } else {
        (index + 1) as usize
    }
}

/// The key sounds of a note in a file: its sample, if it has one of its own.
pub open spec fn keysounds_of(k: KeySound) -> Seq<QuaKeySound> {
    if k.has_custom && k.sample is Some {
        seq![QuaKeySound { sample: sample_number(k.sample->0), volume: k.volume }]
    } else {
        Seq::empty()
    }
}

pub fn create_keysounds(keysound: KeySound) -> (v: Vec<QuaKeySound>)
    ensures
        v@ == keysounds_of(keysound),
{
    let mut v: Vec<QuaKeySound> = Vec::new();
    if keysound.has_custom {
        match keysound.sample {
            Some(sample) => {
                v.push(QuaKeySound { sample: sample.saturating_add(1), volume: keysound.volume });
            },
            None => {},
        }
    }
    assert(v@ =~= keysounds_of(keysound));
    v
}

/// Whether a note of the chart is written: taps and starts of long notes
/// are, anything else is not.
pub open spec fn is_written(h: HitObject) -> bool {
    h.key.key_type == KeyType::Normal || h.key.key_type == KeyType::SliderStart
}

/// The notes of the chart that are written, in order.
pub open spec fn written_notes(notes: Seq<HitObject>) -> Seq<HitObject> {
    notes.filter(|h: HitObject| is_written(h))
}

/// `q` is what the note `h` is written as. A long note whose end is not
/// known ends at 0.
pub open spec fn note_written(q: QuaHitObject, h: HitObject) -> bool {
    &&& q.start_time == h.time
    &&& q.lane == h.lane
    &&& q.endtime == if h.key.key_type == KeyType::SliderStart {
        Some(
            match h.key.slider_end_time {
                Some(end) => end,
                None => 0i32,
            },
        )
    } else {
        None
    }
    &&& text_of(q.hit_sound) == hitsound_name(h.keysound.hitsound_type)
    &&& q.key_sounds@ == keysounds_of(h.keysound)
}

pub open spec fn tempo_written(p: TimingPoint) -> QuaTimingPoint {
    QuaTimingPoint { start_time: p.time, bpm: p.change.value }
}

pub open spec fn velocity_written(p: TimingPoint) -> SliderVelocity {
    SliderVelocity { start_time: p.time, multiplier: Some(p.change.value) }
}

pub open spec fn effect_written(e: SoundEffect) -> QuaSoundEffect {
    QuaSoundEffect { start_time: e.time, sample: sample_number(e.sample), volume: e.volume }
}

/// `file` is what `chart` is written as.
pub open spec fn written(chart: GenericManiaChart, file: QuaFile) -> bool {
    &&& file.audio_file@ == chart.chartinfo.song_path@
    &&& file.song_preview_time == chart.chartinfo.preview_time
    &&& file.background_file@ == chart.chartinfo.bg_path@
    &&& file.map_id == -1
    &&& file.mapset_id == -1
    &&& Some(file.mode@) == mode_name(chart.lanes() as u8)
    &&& file.title@ == without(chart.metadata.title@, '\n')
    &&& file.artist@ == chart.metadata.artist@
    &&& file.source@ == chart.metadata.source@
    &&& file.tags@ == joined(chart.metadata.tags.deep_view(), ","@)
    &&& file.creator@ == chart.metadata.creator@
    &&& file.difficulty_name@ == chart.chartinfo.difficulty_name@
    &&& file.bpm_does_not_affect_scroll_velocity
    &&& file.initial_scroll_velocity == 1000
    &&& file.has_scratch_key == (chart.lanes() == 8 || chart.lanes() == 5)
    &&& file.editor_layers@.len() == 0
    &&& paths_of(file.custom_audio_samples@) == match chart.soundbank {
        Some(bank) => bank.samples(),
        None => Seq::empty(),
    }
    &&& file.sound_effects@ == match chart.soundbank {
        Some(bank) => bank.sound_effects@.map_values(|e: SoundEffect| effect_written(e)),
        None => Seq::empty(),
    }
    &&& file.timing_points@ == bpm_points(chart.timings()).map_values(
        |p: TimingPoint| tempo_written(p),
    )
    &&& file.slider_velocities@ == sv_points(chart.timings()).map_values(
        |p: TimingPoint| velocity_written(p),
    )
    &&& file.hitobjects@.len() == written_notes(chart.notes()).len()
    &&& forall|i: int|
        0 <= i < file.hitobjects@.len() ==> note_written(
            #[trigger] file.hitobjects@[i],
            written_notes(chart.notes())[i],
        )
}

fn samples_of(bank: &SoundBank) -> (v: Vec<AudioSample>)
    ensures
        paths_of(v@) == bank.samples(),
{
    let mut v: Vec<AudioSample> = Vec::new();
    let mut i: usize = 0;
    while i < bank.sound_sample_paths.len()
        invariant
            i <= bank.sound_sample_paths.len(),
            v@.len() == i,
            forall|k: int| 0 <= k < i ==> (#[trigger] v@[k]).path@ == bank.sound_sample_paths@[k]@,
        decreases bank.sound_sample_paths.len() - i,
    {
        v.push(AudioSample { path: bank.sound_sample_paths[i].clone() });
        i += 1;
    }
    assert(paths_of(v@) =~= bank.samples());
    v
}

fn effects_of(bank: &SoundBank) -> (v: Vec<QuaSoundEffect>)
    ensures
        v@ == bank.sound_effects@.map_values(|e: SoundEffect| effect_written(e)),
{
    let mut v: Vec<QuaSoundEffect> = Vec::new();
    let mut i: usize = 0;
    while i < bank.sound_effects.len()
        invariant
            i <= bank.sound_effects.len(),
            v@ == bank.sound_effects@.subrange(0, i as int).map_values(
                |e: SoundEffect| effect_written(e),
            ),
        decreases bank.sound_effects.len() - i,
    {
        let e = bank.sound_effects[i];
        v.push(
            QuaSoundEffect { start_time: e.time, sample: e.sample.saturating_add(1), volume: e.volume },
        );
        i += 1;
        assert(v@ =~= bank.sound_effects@.subrange(0, i as int).map_values(
            |e: SoundEffect| effect_written(e),
        ));
    }
    assert(bank.sound_effects@.subrange(0, i as int) =~= bank.sound_effects@);
    v
}

fn notes_written(notes: &Vec<HitObject>) -> (v: Vec<QuaHitObject>)
    ensures
        v@.len() == written_notes(notes@).len(),
        forall|i: int|
            0 <= i < v@.len() ==> note_written(#[trigger] v@[i], written_notes(notes@)[i]),
{
    let mut v: Vec<QuaHitObject> = Vec::new();
    let mut i: usize = 0;
    proof {
        lemma_filter_empty(|h: HitObject| is_written(h));
        assert(notes@.subrange(0, 0) =~= Seq::<HitObject>::empty());
    }
    while i < notes.len()
        invariant
            i <= notes.len(),
            v@.len() == written_notes(notes@.subrange(0, i as int)).len(),
            forall|k: int|
                0 <= k < v@.len() ==> note_written(
                    #[trigger] v@[k],
                    written_notes(notes@.subrange(0, i as int))[k],
                ),
        decreases notes.len() - i,
    {
        let h = notes[i];
        let ghost before = written_notes(notes@.subrange(0, i as int));
        let ghost old_v = v@;
        proof {
            lemma_filter_prefix_step(notes@, i as int, |h: HitObject| is_written(h));
        }
        match h.key.key_type {
            KeyType::Normal => {
                v.push(
                    QuaHitObject {
                        start_time: h.time,
                        lane: h.lane,
                        endtime: None,
                        hit_sound: get_hitsound_type(h.keysound.hitsound_type),
                        key_sounds: create_keysounds(h.keysound),
                    },
                );
            },
            KeyType::SliderStart => {
                let end = match h.key.slider_end_time {
                    Some(end) => end,
                    None => 0,
                };
                v.push(
                    QuaHitObject {
                        start_time: h.time,
                        lane: h.lane,
                        endtime: Some(end),
                        hit_sound: get_hitsound_type(h.keysound.hitsound_type),
                        key_sounds: create_keysounds(h.keysound),
                    },
                );
            },
            _ => {},
        }
        i += 1;
        proof {
            let after = written_notes(notes@.subrange(0, i as int));
            assert forall|k: int| 0 <= k < v@.len() implies note_written(
                #[trigger] v@[k],
                after[k],
            ) by {
                if k < old_v.len() {
                    assert(v@[k] == old_v[k]);
                    assert(after[k] == before[k]);
                }
            }
        }
    }
    assert(notes@.subrange(0, i as int) =~= notes@);
    v
}

fn tempos_written(points: &Vec<TimingPoint>) -> (v: Vec<QuaTimingPoint>)
    ensures
        v@ == points@.map_values(|p: TimingPoint| tempo_written(p)),
{
    let mut v: Vec<QuaTimingPoint> = Vec::new();
    let mut i: usize = 0;
    while i < points.len()
        invariant
            i <= points.len(),
            v@ == points@.subrange(0, i as int).map_values(|p: TimingPoint| tempo_written(p)),
        decreases points.len() - i,
    {
        v.push(QuaTimingPoint { start_time: points[i].time, bpm: points[i].change.value });
        i += 1;
        assert(v@ =~= points@.subrange(0, i as int).map_values(|p: TimingPoint| tempo_written(p)));
    }
    assert(points@.subrange(0, i as int) =~= points@);
    v
}

fn velocities_written(points: &Vec<TimingPoint>) -> (v: Vec<SliderVelocity>)
    ensures
        v@ == points@.map_values(|p: TimingPoint| velocity_written(p)),
{
    let mut v: Vec<SliderVelocity> = Vec::new();
    let mut i: usize = 0;
    while i < points.len()
        invariant
            i <= points.len(),
            v@ == points@.subrange(0, i as int).map_values(|p: TimingPoint| velocity_written(p)),
        decreases points.len() - i,
    {
        v.push(
            SliderVelocity { start_time: points[i].time, multiplier: Some(points[i].change.value) },
        );
        i += 1;
        assert(v@ =~= points@.subrange(0, i as int).map_values(
            |p: TimingPoint| velocity_written(p),
        ));
    }
    assert(points@.subrange(0, i as int) =~= points@);
    v
}

/// Converts the canonical chart into a file of the YAML-based format. Only
/// charts of 4, 5, 7 or 8 lanes can be written. The lanes of a chart are
/// those it declares, or where it declares none the highest lane that a note
/// uses.
pub fn to_qua(chart: &GenericManiaChart) -> (r: Result<QuaFile, ChartError>)
    ensures
        match mode_name(chart.lanes() as u8) {
            Some(_) => r is Ok && written(*chart, r->Ok_0),
            None => r is Err && r->Err_0 == ChartError::UnsupportedKeyCount,
        },
{
    let key_count = chart.key_count();
    let mode = match get_mode_string(key_count) {
        Ok(mode) => mode,
        Err(e) => {
            return Err(e);
        },
    };
    let custom_audio_samples = match &chart.soundbank {
        Some(bank) => samples_of(bank),
        None => Vec::new(),
    };
    let sound_effects = match &chart.soundbank {
        Some(bank) => effects_of(bank),
        None => Vec::new(),
    };
    let timing_points = tempos_written(&chart.timing_points.bpm_changes());
    let slider_velocities = velocities_written(&chart.timing_points.sv_changes());
    let hitobjects = notes_written(&chart.hitobjects.objects);
    let file = QuaFile {
        audio_file: chart.chartinfo.song_path.clone(),
        song_preview_time: chart.chartinfo.preview_time,
        background_file: chart.chartinfo.bg_path.clone(),
        map_id: -1,
        mapset_id: -1,
        mode,
        title: without_char(chart.metadata.title.as_str(), '\n'),
        artist: chart.metadata.artist.clone(),
        source: chart.metadata.source.clone(),
        tags: join(&chart.metadata.tags, ","),
        creator: chart.metadata.creator.clone(),
        difficulty_name: chart.chartinfo.difficulty_name.clone(),
        bpm_does_not_affect_scroll_velocity: true,
        initial_scroll_velocity: 1000,
        has_scratch_key: key_count == 8 || key_count == 5,
        editor_layers: Vec::new(),
        custom_audio_samples,
        sound_effects,
        timing_points,
        slider_velocities,
        hitobjects,
    };
    proof {
        assert(paths_of(Seq::<AudioSample>::empty()) =~= Seq::<Seq<char>>::empty());
    }
    Ok(file)
}

} // verus!
