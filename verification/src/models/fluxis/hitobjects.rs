//! The notes of the JSON-based format.

use vstd::prelude::*;
use crate::models::generic::sound::{HitSoundType, KeySound};
use crate::utils::text::{eq_ignore_case, same_ignoring_case};

verus! {

/// A note. `holdtime` is how long it is held, in milliseconds; `visual_lane`
/// is in thousandths; `is_tick` is 1 for a tick note.
#[derive(Debug, Clone)]
pub struct HitObject {
    pub time: i32,
    pub lane: isize,
    pub visual_lane: i64,
    pub holdtime: i32,
    pub hitsound: String,
    pub group: Option<String>,
    pub is_tick: i8,
}

/// The stock sound that a hit sound name stands for, whatever its case;
/// `Normal` for any other name.
pub open spec fn stock_sound_of(name: Seq<char>) -> HitSoundType {
    if same_ignoring_case(name, ":clap"@) {
        HitSoundType::Clap
    } else if same_ignoring_case(name, ":whistle"@) {
        HitSoundType::Whistle
    } else if same_ignoring_case(name, ":finish"@) {
        HitSoundType::Finish
    } else {
        HitSoundType::Normal
    }
}

/// `n` brought into the range of an `i32`.
pub open spec fn clamped(n: int) -> i32 {
    if n < i32::MIN {
        i32::MIN
    } else if n > i32::MAX {
        i32::MAX
    } else {
        n as i32
    }
}

pub fn clamp_to_i32(n: i64) -> (r: i32)
    ensures
        r == clamped(n as int),
{
    if n < i32::MIN as i64 {
        i32::MIN
    } else if n > i32::MAX as i64 {
        i32::MAX
    } else {
        n as i32
    }
}

impl Default for HitObject {
    fn default() -> (h: Self)
        ensures
            h.is_plain(0, 0, 0, 0, 0),
    {
        Self {
            time: 0,
            lane: 0,
            visual_lane: 0,
            holdtime: 0,
            hitsound: ":normal".to_owned(),
            group: None,
            is_tick: 0,
        }
    }
}

impl HitObject {
    /// A note with the normal hit sound and no group.
    pub open spec fn is_plain(
        &self,
        time: i32,
        lane: isize,
        visual_lane: i64,
        holdtime: i32,
        is_tick: i8,
    ) -> bool {
        &&& self.time == time
        &&& self.lane == lane
        &&& self.visual_lane == visual_lane
        &&& self.holdtime == holdtime
        &&& self.hitsound@ == ":normal"@
        &&& self.group is None
        &&& self.is_tick == is_tick
    }

    pub fn is_normal(&self) -> (b: bool)
        ensures
            b == (self.holdtime <= 0 && self.is_tick == 0),
    {
        self.holdtime <= 0 && self.is_tick == 0
    }

    pub fn is_ln(&self) -> (b: bool)
        ensures
            b == (self.holdtime > 0 && self.is_tick == 0),
    {
        self.holdtime > 0 && self.is_tick == 0
    }

    pub fn is_tick(&self) -> (b: bool)
        ensures
            b == (self.is_tick == 1),
    {
        self.is_tick == 1
    }

    /// The time at which the note is released.
    pub fn end_time(&self) -> (t: i64)
        ensures
            t == self.time + self.holdtime,
    {
        self.time as i64 + self.holdtime as i64
    }

    /// Sets the hold time so that the note ends at `end_time`, as far as an
    /// `i32` can hold it.
    pub fn set_end_time(&mut self, end_time: i32)
        ensures
            *final(self) == (HitObject {
                holdtime: clamped(end_time - old(self).time),
                ..*old(self)
            }),
    {
        self.holdtime = clamp_to_i32(end_time as i64 - self.time as i64);
    }

    /// The key sound of the note in the canonical chart: its stock sound at
    /// full volume.
    pub fn get_generic_keysound(&self) -> (k: KeySound)
        ensures
            k == KeySound::plain(100, stock_sound_of(self.hitsound@)),
    {
        let name = self.hitsound.as_str();
        let hitsound_type = if eq_ignore_case(name, ":clap") {
            HitSoundType::Clap
        } else if eq_ignore_case(name, ":whistle") {
            HitSoundType::Whistle
        } else if eq_ignore_case(name, ":finish") {
            HitSoundType::Finish
        } else {
            HitSoundType::Normal
        };
        KeySound::of_type(100, hitsound_type)
    }

    pub fn new_normal_note(time: i32, lane: isize) -> (h: Self)
        ensures
            h.is_plain(time, lane, 0, 0, 0),
    {
        HitObject {
            time,
            lane,
            visual_lane: 0,
            holdtime: 0,
            hitsound: ":normal".to_owned(),
            group: None,
            is_tick: 0,
        }
    }

    pub fn new_long_note(time: i32, lane: isize, holdtime: i32) -> (h: Self)
        ensures
            h.is_plain(time, lane, 0, holdtime, 0),
    {
        HitObject {
            time,
            lane,
            visual_lane: 0,
            holdtime,
            hitsound: ":normal".to_owned(),
            group: None,
            is_tick: 0,
        }
    }

    pub fn new_tick_note(time: i32, lane: isize, visual_lane: i64) -> (h: Self)
        ensures
            h.is_plain(time, lane, visual_lane, 0, 1),
    {
        HitObject {
            time,
            lane,
            visual_lane,
            holdtime: 0,
            hitsound: ":normal".to_owned(),
            group: None,
            is_tick: 1,
        }
    }
}

} // verus!
