//! The whole file of the YAML-based format.

use vstd::prelude::*;
use crate::models::quaver::editor::EditorLayer;
use crate::models::quaver::hitobjects::HitObject;
use crate::models::quaver::sound::{AudioSample, SoundEffect};
use crate::models::quaver::timing_points::{SliderVelocity, TimingPoint};

verus! {

/// `initial_scroll_velocity` is a multiplier in thousandths.
#[derive(Debug, Clone)]
pub struct QuaFile {
    pub audio_file: String,
    pub song_preview_time: i32,
    pub background_file: String,
    pub map_id: i32,
    pub mapset_id: i32,
    pub mode: String,
    pub title: String,
    pub artist: String,
    pub source: String,
    pub tags: String,
    pub creator: String,
    pub difficulty_name: String,
    pub bpm_does_not_affect_scroll_velocity: bool,
    pub initial_scroll_velocity: i64,
    pub has_scratch_key: bool,
    pub editor_layers: Vec<EditorLayer>,
    pub custom_audio_samples: Vec<AudioSample>,
    pub sound_effects: Vec<SoundEffect>,
    pub timing_points: Vec<TimingPoint>,
    pub slider_velocities: Vec<SliderVelocity>,
    pub hitobjects: Vec<HitObject>,
}

/// The id of a map that has none yet.
pub fn default_id() -> (id: i32)
    ensures
        id == -1,
{
    -1
}

pub fn default_bpm_does_not_affect_scroll_velocity() -> (b: bool)
    ensures
        b,
{
    true
}

/// The scroll velocity of a file that names none: 1, in thousandths.
pub fn default_initial_scroll_velocity() -> (v: i64)
    ensures
        v == 1000,
{
    1000
}

pub fn default_has_scratch_key() -> (b: bool)
    ensures
        !b,
{
    false
}

impl QuaFile {
    /// A file with every text and list empty and every setting at its
    /// default.
    pub open spec fn is_blank(&self) -> bool {
        &&& self.audio_file@.len() == 0
        &&& self.song_preview_time == 0
        &&& self.background_file@.len() == 0
        &&& self.map_id == -1
        &&& self.mapset_id == -1
        &&& self.mode@.len() == 0
        &&& self.title@.len() == 0
        &&& self.artist@.len() == 0
        &&& self.source@.len() == 0
        &&& self.tags@.len() == 0
        &&& self.creator@.len() == 0
        &&& self.difficulty_name@.len() == 0
        &&& self.bpm_does_not_affect_scroll_velocity
        &&& self.initial_scroll_velocity == 1000
        &&& !self.has_scratch_key
        &&& self.editor_layers@.len() == 0
        &&& self.custom_audio_samples@.len() == 0
        &&& self.sound_effects@.len() == 0
        &&& self.timing_points@.len() == 0
        &&& self.slider_velocities@.len() == 0
        &&& self.hitobjects@.len() == 0
    }
}

impl Default for QuaFile {
    fn default() -> (f: Self)
        ensures
            f.is_blank(),
    {
        Self {
            audio_file: String::new(),
            song_preview_time: 0,
            background_file: String::new(),
            map_id: default_id(),
            mapset_id: default_id(),
            mode: String::new(),
            title: String::new(),
            artist: String::new(),
            source: String::new(),
            tags: String::new(),
            creator: String::new(),
            difficulty_name: String::new(),
            bpm_does_not_affect_scroll_velocity: default_bpm_does_not_affect_scroll_velocity(),
            initial_scroll_velocity: default_initial_scroll_velocity(),
            has_scratch_key: default_has_scratch_key(),
            editor_layers: Vec::new(),
            custom_audio_samples: Vec::new(),
            sound_effects: Vec::new(),
            timing_points: Vec::new(),
            slider_velocities: Vec::new(),
            hitobjects: Vec::new(),
        }
    }
}

} // verus!
