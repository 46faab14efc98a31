//! The notes of the YAML-based format.

use vstd::prelude::*;
use crate::models::generic::sound::{HitSoundType, KeySound as GenericKeySound};
use crate::models::quaver::sound::KeySound;
use crate::utils::text::{eq_ignore_case, same_ignoring_case};

verus! {

/// A note. With an end time it is a long note.
#[derive(Debug, Clone)]
pub struct HitObject {
    pub start_time: i32,
    pub lane: u8,
    pub endtime: Option<i32>,
    pub hit_sound: Option<String>,
    pub key_sounds: Vec<KeySound>,
}

/// The stock sound that a name stands for, whatever its case; `Normal` for
/// any other name.
pub open spec fn hitsound_of(name: Seq<char>) -> HitSoundType {
    if same_ignoring_case(name, "clap"@) {
        HitSoundType::Clap
    } else if same_ignoring_case(name, "whistle"@) {
        HitSoundType::Whistle
    } else if same_ignoring_case(name, "finish"@) {
        HitSoundType::Finish
    } else {
        HitSoundType::Normal
    }
}

pub fn hitsound_from_name(name: &str) -> (h: HitSoundType)
    ensures
        h == hitsound_of(name@),
{
    if eq_ignore_case(name, "clap") {
        HitSoundType::Clap
    } else if eq_ignore_case(name, "whistle") {
        HitSoundType::Whistle
    } else if eq_ignore_case(name, "finish") {
        HitSoundType::Finish
    } else {
        HitSoundType::Normal
    }
}

impl Default for HitObject {
    fn default() -> (h: Self)
        ensures
            h.start_time == 0,
            h.lane == 0,
            h.endtime is None,
            h.hit_sound is None,
            h.key_sounds@.len() == 0,
    {
        Self { start_time: 0, lane: 0, endtime: None, hit_sound: None, key_sounds: Vec::new() }
    }
}

impl HitObject {
    /// The name of the stock sound of the note, if it names one.
    pub fn hit_sound(&self) -> (r: Option<&str>)
        ensures
            r is Some <==> self.hit_sound is Some,
            r is Some ==> r->0@ == self.hit_sound->0@,
    {
        match &self.hit_sound {
            Some(name) => Some(name.as_str()),
            None => None,
        }
    }

    pub fn start_time(&self) -> (t: i32)
        ensures
            t == self.start_time,
    {
        self.start_time
    }

    pub fn end_time(&self) -> (t: Option<i32>)
        ensures
            t == self.endtime,
    {
        self.endtime
    }

    pub fn lane(&self) -> (l: u8)
        ensures
            l == self.lane,
    {
        self.lane
    }

    pub fn is_ln(&self) -> (b: bool)
        ensures
            b == self.endtime is Some,
    {
        self.endtime.is_some()
    }

    pub fn key_sounds(&self) -> (k: &Vec<KeySound>)
        ensures
            k == self.key_sounds,
    {
        &self.key_sounds
    }

    /// The stock sound of the note.
    pub open spec fn stock_sound(&self) -> HitSoundType {
        match self.hit_sound {
            Some(name) => hitsound_of(name@),
            None => HitSoundType::Normal,
        }
    }

    /// The key sound of the note in the canonical chart: its stock sound at
    /// full volume, or where it has key sounds of its own the first of them,
    /// its volume capped at 100.
    pub open spec fn generic_keysound(&self) -> GenericKeySound {
        if self.key_sounds@.len() == 0 {
            GenericKeySound::plain(100, self.stock_sound())
        } else {
            GenericKeySound {
                volume: if self.key_sounds@[0].volume > 100 {
                    100
                } else {
                    self.key_sounds@[0].volume
                },
                hitsound_type: self.stock_sound(),
                sample: Some(self.key_sounds@[0].sample),
                has_custom: true,
            }
        }
    }

    pub fn get_generic_keysound(&self) -> (k: GenericKeySound)
        ensures
            k == self.generic_keysound(),
    {
        let hitsound_type = match &self.hit_sound {
            Some(name) => hitsound_from_name(name.as_str()),
            None => HitSoundType::Normal,
        };
        if self.key_sounds.len() == 0 {
            GenericKeySound::of_type(100, hitsound_type)
        } else {
            let first = self.key_sounds[0];
            let volume = if first.volume > 100 {
                100
            } else {
                first.volume
            };
            GenericKeySound::with_custom(volume, first.sample, Some(hitsound_type))
        }
    }
}

} // verus!
