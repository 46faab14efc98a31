//! The `[HitObjects]` section.

use vstd::prelude::*;
use crate::models::common::{CatchHitobject, CatchHitobjectType, Key, KeyType, TaikoHitobject,
    TaikoHitobjectType};
use crate::models::fluxis::hitobjects::{clamp_to_i32, clamped};
use crate::models::generic::sound::{
    first_index_of, lemma_first_index_holds, HitSoundType, KeySound, SoundBank,
};
use crate::models::ordered::{is_stable_sort_of, stable_sort_in_place, Timed};
use crate::models::osu::chart::OsuMode;
use crate::models::osu::sound::HitSample;
use crate::models::osu::timing_points::{
    fixed_field, i32_field, invalid_field, invalid_field_message, is_field, read_fixed_field,
    read_i32_field, wrong_count, wrong_count_message,
};
use crate::utils::numbers::{
    fixed_string, fixed_text, int_in_range, nat_in_range, read_i32, read_u8,
};
use crate::utils::sections::{counts, line_counts, read_lines, trimmed_lines};
use crate::utils::sections::{find_char, first_of};
use crate::utils::text::{
    append_decimal, chars_of, decimal, decimal_string, join, joined, push_all, push_text, split,
    split_range, string_of, trim_range, trimmed,
};

verus! {

/// A hit object. `time` is in thousandths of a millisecond. The bits of
/// `object_type` say what it is: 1 a circle, 2 a slider, 4 the start of a
/// combo, 8 a spinner, 128 a hold; the bits of `hit_sound` say which stock
/// sounds it plays.
#[derive(Debug, Clone)]
pub struct HitObject {
    pub x: i32,
    pub y: i32,
    pub time: i64,
    pub object_type: u8,
    pub hit_sound: u8,
    pub object_params: Vec<String>,
    pub hit_sample: HitSample,
}

impl Timed for HitObject {
    open spec fn time_of(&self) -> int {
        self.time as int
    }

    fn time(&self) -> (t: i64) {
        self.time
    }
}

/// A number read from the field `name` as a `u8`, or the message.
pub open spec fn u8_field(name: Seq<char>, value: Seq<char>) -> Result<u8, Seq<char>> {
    match nat_in_range(value, 255) {
        Some(n) => Ok(n as u8),
        None => Err(invalid_field(name, value)),
    }
}

pub fn read_u8_field(name: &str, value: &Vec<char>) -> (r: Result<u8, String>)
    ensures
        is_field(r, u8_field(name@, value@)),
{
    assert(value@.subrange(0, value@.len() as int) =~= value@);
    match read_u8(value, 0, value.len()) {
        Some(n) => Ok(n),
        None => Err(invalid_field_message(name, value)),
    }
}

/// Whether the text has a colon.
pub open spec fn has_colon(s: Seq<char>) -> bool {
    first_of(s, ':') < s.len()
}

/// What stands behind the first colon of a text.
pub open spec fn behind_colon(s: Seq<char>) -> Seq<char> {
    s.subrange(first_of(s, ':') + 1, s.len() as int)
}

/// What stands before the first colon of a text.
pub open spec fn before_colon(s: Seq<char>) -> Seq<char> {
    s.subrange(0, first_of(s, ':'))
}

/// The message for the first thing that is wrong with the five fields that
/// every line has, if anything is.
pub open spec fn line_error(p: Seq<Seq<char>>) -> Option<Seq<char>> {
    if p.len() < 5 {
        Some(wrong_count("at least 5"@, p.len() as int))
    } else if i32_field("x"@, p[0]) is Err {
        Some(i32_field("x"@, p[0])->Err_0)
    } else if i32_field("y"@, p[1]) is Err {
        Some(i32_field("y"@, p[1])->Err_0)
    } else if fixed_field("time"@, p[2]) is Err {
        Some(fixed_field("time"@, p[2])->Err_0)
    } else if u8_field("type"@, p[3]) is Err {
        Some(u8_field("type"@, p[3])->Err_0)
    } else if u8_field("hitSound"@, p[4]) is Err {
        Some(u8_field("hitSound"@, p[4])->Err_0)
    } else {
        None
    }
}

impl Default for HitObject {
    /// A circle at the centre of the playfield at time 0.
    fn default() -> (h: Self)
        ensures
            h.x == 256,
            h.y == 192,
            h.time == 0,
            h.object_type == 1,
            h.hit_sound == 0,
            h.object_params@.len() == 0,
            h.hit_sample.is_silent(),
    {
        HitObject {
            x: 256,
            y: 192,
            time: 0,
            object_type: 1,
            hit_sound: 0,
            object_params: Vec::new(),
            hit_sample: HitSample::default(),
        }
    }
}

impl HitObject {
    pub open spec fn params(&self) -> Seq<Seq<char>> {
        self.object_params.deep_view()
    }

    /// `self` is what the fields `p` of a line read as in mode `mode`. What
    /// follows the five fields that every line has are the parameters, with
    /// the sample at the end if the last field has a colon. The line of a
    /// hold in the mania mode has its end time and its sample in one field,
    /// with a colon between.
    pub open spec fn reads_from(&self, p: Seq<Seq<char>>, mode: OsuMode) -> bool {
        &&& p.len() >= 5
        &&& Ok::<i32, Seq<char>>(self.x) == i32_field("x"@, p[0])
        &&& Ok::<i32, Seq<char>>(self.y) == i32_field("y"@, p[1])
        &&& Ok::<i64, Seq<char>>(self.time) == fixed_field("time"@, p[2])
        &&& Ok::<u8, Seq<char>>(self.object_type) == u8_field("type"@, p[3])
        &&& Ok::<u8, Seq<char>>(self.hit_sound) == u8_field("hitSound"@, p[4])
        &&& if p.len() == 5 {
            self.params().len() == 0 && self.hit_sample.is_silent()
        } else if mode == OsuMode::Mania && self.object_type & 128 != 0 {
            if has_colon(p[5]) {
                &&& self.params() == seq![before_colon(p[5])]
                &&& self.hit_sample.reads_from(behind_colon(p[5]))
            } else {
                self.params() == seq![p[5]] && self.hit_sample.is_silent()
            }
        } else if has_colon(p.last()) {
            &&& self.params() == p.subrange(5, p.len() - 1)
            &&& self.hit_sample.reads_from(p.last())
        } else {
            self.params() == p.subrange(5, p.len() as int) && self.hit_sample.is_silent()
        }
    }

    /// Reads a hit object from the characters of its line.
    pub fn from_chars(line: &Vec<char>, mode: &OsuMode) -> (r: Result<HitObject, String>)
        ensures
            match r {
                Ok(h) => line_error(split(line@, ',')) is None && h.reads_from(
                    split(line@, ','),
                    *mode,
                ),
                Err(m) => line_error(split(line@, ',')) == Some(m@),
            },
    {
        assert(line@.subrange(0, line@.len() as int) =~= line@);
        let parts = split_range(line, 0, line.len(), ',');
        let ghost p = split(line@, ',');
        proof {
            assert forall|k: int| 0 <= k < parts@.len() implies #[trigger] p[k] == parts@[k]@ by {
                assert(parts@[k].deep_view() =~= parts@[k]@);
                assert(parts.deep_view()[k] == parts@[k].deep_view());
            }
        }
        if parts.len() < 5 {
            return Err(wrong_count_message("at least 5", parts.len()));
        }
        let x = match read_i32_field("x", &parts[0]) {
            Ok(n) => n,
            Err(m) => {
                return Err(m);
            },
        };
        let y = match read_i32_field("y", &parts[1]) {
            Ok(n) => n,
            Err(m) => {
                return Err(m);
            },
        };
        let time = match read_fixed_field("time", &parts[2]) {
            Ok(n) => n,
            Err(m) => {
                return Err(m);
            },
        };
        let object_type = match read_u8_field("type", &parts[3]) {
            Ok(n) => n,
            Err(m) => {
                return Err(m);
            },
        };
        let hit_sound = match read_u8_field("hitSound", &parts[4]) {
            Ok(n) => n,
            Err(m) => {
                return Err(m);
            },
        };
        let mut object_params: Vec<String> = Vec::new();
        let mut hit_sample = HitSample::default();
        assert(object_params.deep_view() =~= Seq::<Seq<char>>::empty());
        if parts.len() > 5 {
            let is_mania = match mode {
                OsuMode::Mania => true,
                _ => false,
            };
            if is_mania && (object_type & 128) != 0 {
                let sixth = &parts[5];
                assert(sixth@.subrange(0, sixth@.len() as int) =~= sixth@);
                let colon = find_char(sixth, 0, sixth.len(), ':');
                if colon < sixth.len() {
                    object_params.push(string_of(sixth, 0, colon));
                    let rest = string_of(sixth, colon + 1, sixth.len());
                    hit_sample = Self::sample_of(&rest);
                    assert(object_params.deep_view() =~= seq![before_colon(p[5])]);
                } else {
                    object_params.push(string_of(sixth, 0, sixth.len()));
                    assert(object_params.deep_view() =~= seq![p[5]]);
                }
            } else {
                let last = &parts[parts.len() - 1];
                assert(last@.subrange(0, last@.len() as int) =~= last@);
                let colon = find_char(last, 0, last.len(), ':');
                let upto = if colon < last.len() {
                    let text = string_of(last, 0, last.len());
                    hit_sample = Self::sample_of(&text);
                    parts.len() - 1
                } else {
                    parts.len()
                };
                let mut i: usize = 5;
                while i < upto
                    invariant
                        5 <= i <= upto <= parts@.len(),
                        p.len() == parts@.len(),
                        forall|k: int| 0 <= k < parts@.len() ==> #[trigger] p[k] == parts@[k]@,
                        object_params@.len() == i - 5,
                        forall|k: int|
                            0 <= k < i - 5 ==> (#[trigger] object_params@[k])@ == p[k + 5],
                    decreases upto - i,
                {
                    let part = &parts[i];
                    assert(part@.subrange(0, part@.len() as int) =~= part@);
                    object_params.push(string_of(part, 0, part.len()));
                    i += 1;
                }
                assert(object_params.deep_view() =~= p.subrange(5, upto as int));
            }
        }
        Ok(HitObject { x, y, time, object_type, hit_sound, object_params, hit_sample })
    }

    fn sample_of(text: &String) -> (h: HitSample)
        ensures
            h.reads_from(text@),
    {
        match HitSample::from_str(text.as_str()) {
            Ok(h) => h,
            Err(_) => HitSample::default(),
        }
    }

    /// Reads a hit object from its line.
    pub fn from_str_with_mode(s: &str, mode: &OsuMode) -> (r: Result<HitObject, String>)
        ensures
            match r {
                Ok(h) => line_error(split(s@, ',')) is None && h.reads_from(split(s@, ','), *mode),
                Err(m) => line_error(split(s@, ',')) == Some(m@),
            },
    {
        let line = chars_of(s);
        Self::from_chars(&line, mode)
    }

    /// Reads a hit object of the standard mode from its line.
    pub fn from_str(s: &str) -> (r: Result<HitObject, String>)
        ensures
            match r {
                Ok(h) => line_error(split(s@, ',')) is None && h.reads_from(
                    split(s@, ','),
                    OsuMode::Standard,
                ),
                Err(m) => line_error(split(s@, ',')) == Some(m@),
            },
    {
        Self::from_str_with_mode(s, &OsuMode::Standard)
    }

    pub fn new(x: i32, y: i32, time: i64, object_type: u8, hit_sound: u8) -> (h: Self)
        ensures
            h.x == x,
            h.y == y,
            h.time == time,
            h.object_type == object_type,
            h.hit_sound == hit_sound,
            h.object_params@.len() == 0,
            h.hit_sample.is_silent(),
    {
        Self {
            x,
            y,
            time,
            object_type,
            hit_sound,
            object_params: Vec::new(),
            hit_sample: HitSample::default(),
        }
    }

    pub fn is_hit_circle(&self) -> (b: bool)
        ensures
            b == (self.object_type & 1 != 0),
    {
        (self.object_type & 1) != 0
    }

    pub fn is_slider(&self) -> (b: bool)
        ensures
            b == (self.object_type & 2 != 0),
    {
        (self.object_type & 2) != 0
    }

    pub fn is_new_combo(&self) -> (b: bool)
        ensures
            b == (self.object_type & 4 != 0),
    {
        (self.object_type & 4) != 0
    }

    pub fn is_spinner(&self) -> (b: bool)
        ensures
            b == (self.object_type & 8 != 0),
    {
        (self.object_type & 8) != 0
    }

    pub fn is_normal(&self) -> (b: bool)
        ensures
            b == (self.object_type & 1 == 1),
    {
        (self.object_type & 1) == 1
    }

    pub fn is_hold(&self) -> (b: bool)
        ensures
            b == (self.object_type & 128 != 0),
    {
        (self.object_type & 128) != 0
    }

    pub fn has_normal(&self) -> (b: bool)
        ensures
            b == (self.hit_sound & 1 != 0),
    {
        (self.hit_sound & 1) != 0
    }

    pub fn has_whistle(&self) -> (b: bool)
        ensures
            b == (self.hit_sound & 2 != 0),
    {
        (self.hit_sound & 2) != 0
    }

    pub fn has_finish(&self) -> (b: bool)
        ensures
            b == (self.hit_sound & 4 != 0),
    {
        (self.hit_sound & 4) != 0
    }

    pub fn has_clap(&self) -> (b: bool)
        ensures
            b == (self.hit_sound & 8 != 0),
    {
        (self.hit_sound & 8) != 0
    }

    /// How many combo colours the object skips.
    pub fn combo_skip(&self) -> (n: u8)
        ensures
            n == (self.object_type >> 4) & 7,
    {
        (self.object_type >> 4) & 7
    }

    /// The end time of a spinner or a hold: its first parameter, if that is
    /// a whole number.
    pub open spec fn end(&self) -> Option<i32> {
        if (self.object_type & 8 != 0 || self.object_type & 128 != 0) && self.params().len() > 0 {
            match int_in_range(self.params()[0], i32::MIN as int, i32::MAX as int) {
                Some(n) => Some(n as i32),
                None => None,
            }
        } else {
            None
        }
    }

    pub fn end_time(&self) -> (t: Option<i32>)
        ensures
            t == self.end(),
    {
        if (self.is_spinner() || self.is_hold()) && self.object_params.len() > 0 {
            let v = chars_of(self.object_params[0].as_str());
            assert(v@.subrange(0, v@.len() as int) =~= v@);
            assert(self.params()[0] == self.object_params@[0]@);
            read_i32(&v, 0, v.len())
        } else {
            None
        }
    }

    /// The time in whole milliseconds, as far as an `i32` can hold it.
    pub open spec fn whole_ms(&self) -> i32 {
        clamped(
            if self.time >= 0 {
                self.time / 1000
            } else {
                -((-self.time) / 1000)
            },
        )
    }

    pub fn time_ms(&self) -> (t: i32)
        ensures
            t == self.whole_ms(),
    {
        if self.time >= 0 {
            clamp_to_i32(self.time / 1000)
        } else {
            let amount: i128 = -(self.time as i128);
            clamp_to_i32((-(amount / 1000)) as i64)
        }
    }

    /// The column of the object among `column_count` columns, counted from 0:
    /// by its place across the 512 units of the playfield, and not beyond the
    /// last column. With no columns at all the answer is 255.
    pub open spec fn column(&self, column_count: u8) -> u8 {
        let across = if self.x <= 0 {
            0
        } else {
            self.x * column_count / 512
        };
        if column_count == 0 {
            255u8
        } else if across > column_count - 1 {
            (column_count - 1) as u8
        } else {
            across as u8
        }
    }

    pub fn mania_column(&self, column_count: u8) -> (c: u8)
        ensures
            c == self.column(column_count),
    {
        if column_count == 0 {
            return 255;
        }
        let across: i64 = if self.x <= 0 {
            0
        } else {
            assert(0 <= (self.x as int) * (column_count as int) <= 0x8000_0000 * 255)
                by (nonlinear_arith)
                requires
                    0 < self.x <= 0x7fff_ffff,
                    0 < column_count <= 255,
            ;
            (self.x as i64) * (column_count as i64) / 512
        };
        if across > column_count as i64 - 1 {
            column_count - 1
        } else {
            across as u8
        }
    }

    /// The end time, or 0 where there is none.
    pub open spec fn end_or_zero(&self) -> i32 {
        match self.end() {
            Some(e) => e,
            None => 0,
        }
    }

    /// The object in the taiko mode: sliders are drum rolls, spinners are
    /// balloons, everything else is a don or, with whistle or clap, a kat; the
    /// finish makes a bonus of it.
    pub open spec fn as_taiko(&self) -> TaikoHitobject {
        let bonus = self.hit_sound & 4 != 0;
        let kat = self.hit_sound & 2 != 0 || self.hit_sound & 8 != 0;
        if self.object_type & 2 != 0 {
            TaikoHitobject {
                note_type: if bonus {
                    TaikoHitobjectType::BonusDrumRoll
                } else {
                    TaikoHitobjectType::DrumRoll
                },
                end_time: Some(self.end_or_zero()),
            }
        } else if self.object_type & 8 != 0 {
            TaikoHitobject {
                note_type: TaikoHitobjectType::Balloon,
                end_time: Some(self.end_or_zero()),
            }
        } else {
            TaikoHitobject {
                note_type: if bonus && kat {
                    TaikoHitobjectType::BonusKat
                } else if bonus {
                    TaikoHitobjectType::BonusDon
                } else if kat {
                    TaikoHitobjectType::Kat
                } else {
                    TaikoHitobjectType::Don
                },
                end_time: None,
            }
        }
    }

    pub fn to_taiko(&self) -> (t: TaikoHitobject)
        ensures
            t == self.as_taiko(),
    {
        let bonus = self.has_finish();
        let kat = self.has_whistle() || self.has_clap();
        if self.is_slider() {
            let end = match self.end_time() {
                Some(e) => e,
                None => 0,
            };
            if bonus {
                TaikoHitobject::bonus_drum_roll(end)
            } else {
                TaikoHitobject::drum_roll(end)
            }
        } else if self.is_spinner() {
            let end = match self.end_time() {
                Some(e) => e,
                None => 0,
            };
            TaikoHitobject::balloon(end)
        } else if bonus && kat {
            TaikoHitobject::bonus_kat()
        } else if bonus {
            TaikoHitobject::bonus_don()
        } else if kat {
            TaikoHitobject::kat()
        } else {
            TaikoHitobject::don()
        }
    }

    /// The object in the catch mode: circles are fruits, sliders are juice,
    /// spinners are bananas.
    pub open spec fn as_catch(&self) -> CatchHitobject {
        if self.object_type & 1 != 0 {
            CatchHitobject {
                object_type: CatchHitobjectType::Fruit,
                x_position: self.x,
                end_time: None,
                hyperdash: false,
            }
        } else if self.object_type & 2 != 0 {
            CatchHitobject {
                object_type: CatchHitobjectType::Juice,
                x_position: self.x,
                end_time: None,
                hyperdash: false,
            }
        } else if self.object_type & 8 != 0 {
            CatchHitobject {
                object_type: CatchHitobjectType::Banana,
                x_position: self.x,
                end_time: Some(self.end_or_zero()),
                hyperdash: false,
            }
        } else {
            CatchHitobject {
                object_type: CatchHitobjectType::Empty,
                x_position: 0,
                end_time: None,
                hyperdash: false,
            }
        }
    }

    pub fn to_catch(&self) -> (c: CatchHitobject)
        ensures
            c == self.as_catch(),
    {
        if self.is_hit_circle() {
            CatchHitobject::fruit(self.x)
        } else if self.is_slider() {
            CatchHitobject::juice(self.x)
        } else if self.is_spinner() {
            let end = match self.end_time() {
                Some(e) => e,
                None => 0,
            };
            CatchHitobject::banana(self.x, end)
        } else {
            CatchHitobject::empty()
        }
    }

    /// The key of the object in the mania mode.
    pub open spec fn as_key(&self) -> Key {
        if self.object_type & 1 == 1 {
            Key { key_type: KeyType::Normal, slider_end_time: None }
        } else if self.object_type & 128 != 0 {
            Key { key_type: KeyType::SliderStart, slider_end_time: Some(self.end_or_zero()) }
        } else {
            Key { key_type: KeyType::Empty, slider_end_time: None }
        }
    }

    pub fn to_mania(&self, column_count: u8) -> (r: (Key, u8))
        ensures
            r.0 == self.as_key(),
            r.1 == self.column(column_count),
    {
        let column = self.mania_column(column_count);
        let key = if self.is_normal() {
            Key::normal()
        } else if self.is_hold() {
            let end = match self.end_time() {
                Some(e) => e,
                None => 0,
            };
            Key::slider_start(Some(end))
        } else {
            Key::empty()
        };
        (key, column)
    }

    /// The stock sound of the object: 3 is the clap, 1 the whistle, 2 the
    /// finish, anything else the normal sound.
    pub open spec fn stock_sound(&self) -> HitSoundType {
        if self.hit_sound == 3 {
            HitSoundType::Clap
        } else if self.hit_sound == 1 {
            HitSoundType::Whistle
        } else if self.hit_sound == 2 {
            HitSoundType::Finish
        } else {
            HitSoundType::Normal
        }
    }

    /// Whether the sample of the object names a file.
    pub open spec fn has_file(&self) -> bool {
        trimmed(self.hit_sample.filename@).len() > 0
    }

    /// The key sound of the object, given the samples that the bank holds:
    /// its stock sound at full volume, or where its sample names a file that
    /// file, which the bank then holds, at the volume of the sample capped at
    /// 100.
    pub open spec fn keysound_in(&self, samples: Seq<Seq<char>>) -> KeySound {
        if self.has_file() {
            KeySound {
                volume: if self.hit_sample.volume > 100 {
                    100
                } else {
                    self.hit_sample.volume
                },
                hitsound_type: self.stock_sound(),
                sample: Some(first_index_of(samples, self.hit_sample.filename@) as usize),
                has_custom: true,
            }
        } else {
            KeySound::plain(100, self.stock_sound())
        }
    }

    /// The samples of the bank once the object has its key sound.
    pub open spec fn samples_after(&self, samples: Seq<Seq<char>>) -> Seq<Seq<char>> {
        if self.has_file() && first_index_of(samples, self.hit_sample.filename@) >= samples.len() {
            samples.push(self.hit_sample.filename@)
        } else {
            samples
        }
    }

    pub fn get_generic_keysound(&self, soundbank: &mut SoundBank) -> (k: KeySound)
        ensures
            k == self.keysound_in(old(soundbank).samples()),
            final(soundbank).samples() == self.samples_after(old(soundbank).samples()),
            final(soundbank).audio_tracks == old(soundbank).audio_tracks,
            final(soundbank).sound_effects == old(soundbank).sound_effects,
    {
        let hitsound_type = if self.hit_sound == 3 {
            HitSoundType::Clap
        } else if self.hit_sound == 1 {
            HitSoundType::Whistle
        } else if self.hit_sound == 2 {
            HitSoundType::Finish
        } else {
            HitSoundType::Normal
        };
        let name = chars_of(self.hit_sample.filename.as_str());
        assert(name@.subrange(0, name@.len() as int) =~= name@);
        let (a, b) = trim_range(&name, 0, name.len());
        if a == b {
            KeySound::of_type(100, hitsound_type)
        } else {
            let index = soundbank.add_sound_sample(self.hit_sample.filename.clone());
            let volume = if self.hit_sample.volume > 100 {
                100
            } else {
                self.hit_sample.volume
            };
            KeySound::with_custom(volume, index, Some(hitsound_type))
        }
    }
}

/// The text of a sample with both sets and the index 0.
pub open spec fn bare_sample(volume: u8, filename: Seq<char>) -> Seq<char> {
    "0:0:0:"@ + decimal(volume as int) + ":"@ + filename
}

impl HitObject {
    /// The first five fields of the line, with `y` as the second.
    pub open spec fn head(&self, y: Seq<char>) -> Seq<Seq<char>> {
        seq![
            decimal(self.x as int),
            y,
            fixed_text(self.time as int),
            decimal(self.object_type as int),
            decimal(self.hit_sound as int),
        ]
    }

    fn head_parts(&self, y: String) -> (parts: Vec<String>)
        ensures
            parts.deep_view() == self.head(y@),
    {
        let mut parts: Vec<String> = Vec::new();
        push_text(&mut parts, decimal_string(self.x as i64));
        push_text(&mut parts, y);
        push_text(&mut parts, fixed_string(self.time));
        push_text(&mut parts, decimal_string(self.object_type as i64));
        push_text(&mut parts, decimal_string(self.hit_sound as i64));
        assert(parts.deep_view() =~= self.head(y@));
        parts
    }

    /// The fields of the line as they are: the five that every line has, the
    /// parameters, and the sample.
    pub open spec fn plain_fields(&self) -> Seq<Seq<char>> {
        self.head(decimal(self.y as int)) + self.params() + seq![self.hit_sample.text()]
    }

    pub fn to_osu_format(&self) -> (s: String)
        ensures
            s@ == joined(self.plain_fields(), ","@),
    {
        let mut parts = self.head_parts(decimal_string(self.y as i64));
        push_all(&mut parts, &self.object_params);
        push_text(&mut parts, self.hit_sample.to_osu_format());
        assert(parts.deep_view() =~= self.plain_fields());
        join(&parts, ",")
    }

    /// The fields of the line in the standard mode: a slider keeps its
    /// parameters, a spinner only its end time.
    pub open spec fn standard_fields(&self) -> Seq<Seq<char>> {
        self.head(decimal(self.y as int)) + (if self.object_type & 2 != 0 {
            self.params()
        } else if self.object_type & 8 != 0 && self.end() is Some {
            seq![decimal(self.end()->0 as int)]
        } else {
            Seq::empty()
        }) + seq![self.hit_sample.text()]
    }

    pub fn to_osu_format_standard(&self) -> (s: String)
        ensures
            s@ == joined(self.standard_fields(), ","@),
    {
        let mut parts = self.head_parts(decimal_string(self.y as i64));
        let ghost head = parts.deep_view();
        if self.is_slider() {
            push_all(&mut parts, &self.object_params);
        } else if self.is_spinner() {
            match self.end_time() {
                Some(e) => {
                    push_text(&mut parts, decimal_string(e as i64));
                    assert(parts.deep_view() =~= head + seq![decimal(e as int)]);
                },
                None => {
                    assert(parts.deep_view() =~= head + Seq::<Seq<char>>::empty());
                },
            }
        } else {
            assert(parts.deep_view() =~= head + Seq::<Seq<char>>::empty());
        }
        push_text(&mut parts, self.hit_sample.to_osu_format());
        assert(parts.deep_view() =~= self.standard_fields());
        join(&parts, ",")
    }

    /// The fields of the line in the mania mode, with `sample` as the text of
    /// the sample: a hold has its end time and the sample in one field, and
    /// neither if its end time cannot be read.
    pub open spec fn mania_fields(&self, sample: Seq<char>) -> Seq<Seq<char>> {
        self.head("192"@) + (if self.object_type & 128 != 0 {
            if self.end() is Some {
                seq![decimal(self.end()->0 as int) + ":"@ + sample]
            } else {
                Seq::empty()
            }
        } else {
            seq![sample]
        })
    }

    fn mania_line(&self, sample: String) -> (s: String)
        ensures
            s@ == joined(self.mania_fields(sample@), ","@),
    {
        let mut parts = self.head_parts("192".to_owned());
        let ghost head = parts.deep_view();
        if self.is_hold() {
            match self.end_time() {
                Some(e) => {
                    let mut field = decimal_string(e as i64);
                    field.append(":");
                    field.append(sample.as_str());
                    assert(field@ =~= decimal(e as int) + ":"@ + sample@);
                    push_text(&mut parts, field);
                    assert(parts.deep_view() =~= head + seq![decimal(e as int) + ":"@ + sample@]);
                },
                None => {
                    assert(parts.deep_view() =~= head + Seq::<Seq<char>>::empty());
                },
            }
        } else {
            push_text(&mut parts, sample);
            assert(parts.deep_view() =~= head + seq![sample@]);
        }
        join(&parts, ",")
    }

    pub fn to_osu_format_mania_no_soundbank(&self) -> (s: String)
        ensures
            s@ == joined(self.mania_fields(self.hit_sample.text()), ","@),
    {
        self.mania_line(self.hit_sample.to_osu_format())
    }

    /// The sample of the line in the mania mode when a bank keeps the
    /// samples: the file of the object if it names one, at the volume of its
    /// key sound, where the full volume is written as 0.
    pub open spec fn banked_sample(&self) -> Seq<char> {
        if self.has_file() {
            bare_sample(
                if self.hit_sample.volume >= 100 {
                    0
                } else {
                    self.hit_sample.volume
                },
                self.hit_sample.filename@,
            )
        } else {
            bare_sample(0, Seq::empty())
        }
    }

    pub fn to_osu_format_mania(&self, soundbank: &mut SoundBank) -> (s: String)
        ensures
            s@ == joined(self.mania_fields(self.banked_sample()), ","@),
            final(soundbank).samples() == self.samples_after(old(soundbank).samples()),
            final(soundbank).audio_tracks == old(soundbank).audio_tracks,
            final(soundbank).sound_effects == old(soundbank).sound_effects,
    {
        let count = soundbank.sound_sample_paths.len();
        let keysound = self.get_generic_keysound(soundbank);
        let ghost before = old(soundbank).samples();
        let ghost after = soundbank.samples();
        proof {
            lemma_first_index_holds(before, self.hit_sample.filename@);
            assert(before.len() == count);
            if self.has_file() {
                let index = first_index_of(before, self.hit_sample.filename@);
                assert(after[index] == self.hit_sample.filename@);
                assert(keysound.sample == Some(index as usize));
            }
        }
        let custom = if keysound.has_custom {
            let index = match keysound.sample {
                Some(i) => i,
                None => 0,
            };
            match soundbank.get_sound_sample(index) {
                Some(path) => path,
                None => String::new(),
            }
        } else {
            String::new()
        };
        assert(custom@ =~= if self.has_file() {
            self.hit_sample.filename@
        } else {
            Seq::<char>::empty()
        });
        let volume = if keysound.volume >= 100 {
            0
        } else {
            keysound.volume
        };
        let mut sample = String::new();
        sample.append("0:0:0:");
        append_decimal(&mut sample, volume as i64);
        sample.append(":");
        sample.append(custom.as_str());
        assert(sample@ =~= self.banked_sample());
        self.mania_line(sample)
    }

    /// The span of a drum roll in whole milliseconds: from the time of the
    /// object to the end time, or nothing where there is no end time.
    pub open spec fn roll_span(&self) -> int {
        self.end_or_zero() - self.whole_ms()
    }

    /// The fields of the line in the taiko mode. Every object stands at the
    /// centre of the playfield.
    pub open spec fn taiko_fields(&self) -> Seq<Seq<char>> {
        let at = seq!["256"@, "192"@, fixed_text(self.time as int)];
        let sample = seq![self.hit_sample.text()];
        match self.as_taiko().note_type {
            TaikoHitobjectType::Don => at + seq!["1"@, "0"@] + sample,
            TaikoHitobjectType::Kat => at + seq!["1"@, "2"@] + sample,
            TaikoHitobjectType::BonusDon => at + seq!["1"@, "4"@] + sample,
            TaikoHitobjectType::BonusKat => at + seq!["1"@, "6"@] + sample,
            TaikoHitobjectType::DrumRoll => at + seq![
                "2"@,
                "0"@,
                "L|256:192,1,"@ + decimal(self.roll_span()),
            ] + sample,
            TaikoHitobjectType::BonusDrumRoll => at + seq![
                "2"@,
                "4"@,
                "L|256:192,1,"@ + decimal(self.roll_span()),
            ] + sample,
            TaikoHitobjectType::Balloon => at + seq![
                "8"@,
                "0"@,
                decimal(self.end_or_zero() as int),
            ] + sample,
            _ => Seq::empty(),
        }
    }

    pub fn to_osu_format_taiko(&self) -> (s: String)
        ensures
            s@ == joined(self.taiko_fields(), ","@),
    {
        let taiko = self.to_taiko();
        let mut parts: Vec<String> = Vec::new();
        push_text(&mut parts, "256".to_owned());
        push_text(&mut parts, "192".to_owned());
        push_text(&mut parts, fixed_string(self.time));
        let ghost at = parts.deep_view();
        assert(at =~= seq!["256"@, "192"@, fixed_text(self.time as int)]);
        let end: i32 = match taiko.end_time {
            Some(e) => e,
            None => 0,
        };
        match taiko.note_type {
            TaikoHitobjectType::Don => {
                push_text(&mut parts, "1".to_owned());
                push_text(&mut parts, "0".to_owned());
                assert(parts.deep_view() =~= at + seq!["1"@, "0"@]);
            },
            TaikoHitobjectType::Kat => {
                push_text(&mut parts, "1".to_owned());
                push_text(&mut parts, "2".to_owned());
                assert(parts.deep_view() =~= at + seq!["1"@, "2"@]);
            },
            TaikoHitobjectType::BonusDon => {
                push_text(&mut parts, "1".to_owned());
                push_text(&mut parts, "4".to_owned());
                assert(parts.deep_view() =~= at + seq!["1"@, "4"@]);
            },
            TaikoHitobjectType::BonusKat => {
                push_text(&mut parts, "1".to_owned());
                push_text(&mut parts, "6".to_owned());
                assert(parts.deep_view() =~= at + seq!["1"@, "6"@]);
            },
            TaikoHitobjectType::DrumRoll => {
                push_text(&mut parts, "2".to_owned());
                push_text(&mut parts, "0".to_owned());
                let mut roll = "L|256:192,1,".to_owned();
                append_decimal(&mut roll, end as i64 - self.time_ms() as i64);
                push_text(&mut parts, roll);
                assert(parts.deep_view() =~= at + seq![
                    "2"@,
                    "0"@,
                    "L|256:192,1,"@ + decimal(self.roll_span()),
                ]);
            },
            TaikoHitobjectType::BonusDrumRoll => {
                push_text(&mut parts, "2".to_owned());
                push_text(&mut parts, "4".to_owned());
                let mut roll = "L|256:192,1,".to_owned();
                append_decimal(&mut roll, end as i64 - self.time_ms() as i64);
                push_text(&mut parts, roll);
                assert(parts.deep_view() =~= at + seq![
                    "2"@,
                    "4"@,
                    "L|256:192,1,"@ + decimal(self.roll_span()),
                ]);
            },
            TaikoHitobjectType::Balloon => {
                push_text(&mut parts, "8".to_owned());
                push_text(&mut parts, "0".to_owned());
                push_text(&mut parts, decimal_string(end as i64));
                assert(parts.deep_view() =~= at + seq!["8"@, "0"@, decimal(end as int)]);
            },
            _ => {
                let s = String::new();
                assert(s@ =~= joined(Seq::<Seq<char>>::empty(), ","@));
                return s;
            },
        }
        push_text(&mut parts, self.hit_sample.to_osu_format());
        assert(parts.deep_view() =~= self.taiko_fields());
        join(&parts, ",")
    }

    /// The fields of the line in the catch mode; nothing for an object that
    /// is neither fruit nor juice nor banana.
    pub open spec fn catch_fields(&self) -> Seq<Seq<char>> {
        let at = seq![decimal(self.x as int), "192"@, fixed_text(self.time as int)];
        let sample = seq![self.hit_sample.text()];
        let sound = decimal(self.hit_sound as int);
        match self.as_catch().object_type {
            CatchHitobjectType::Fruit => at + seq!["1"@, sound] + sample,
            CatchHitobjectType::Hyperfruit => at + seq!["1"@, sound] + sample,
            CatchHitobjectType::Juice => at + seq!["2"@, sound] + self.params() + sample,
            CatchHitobjectType::Banana => at + seq![
                "8"@,
                sound,
                decimal(self.end_or_zero() as int),
            ] + sample,
            _ => Seq::empty(),
        }
    }

    pub fn to_osu_format_catch(&self) -> (s: String)
        ensures
            s@ == joined(self.catch_fields(), ","@),
    {
        let catch = self.to_catch();
        let mut parts: Vec<String> = Vec::new();
        push_text(&mut parts, decimal_string(self.x as i64));
        push_text(&mut parts, "192".to_owned());
        push_text(&mut parts, fixed_string(self.time));
        let ghost at = parts.deep_view();
        assert(at =~= seq![decimal(self.x as int), "192"@, fixed_text(self.time as int)]);
        let ghost sound = decimal(self.hit_sound as int);
        match catch.object_type {
            CatchHitobjectType::Fruit => {
                push_text(&mut parts, "1".to_owned());
                push_text(&mut parts, decimal_string(self.hit_sound as i64));
                assert(parts.deep_view() =~= at + seq!["1"@, sound]);
            },
            CatchHitobjectType::Hyperfruit => {
                push_text(&mut parts, "1".to_owned());
                push_text(&mut parts, decimal_string(self.hit_sound as i64));
                assert(parts.deep_view() =~= at + seq!["1"@, sound]);
            },
            CatchHitobjectType::Juice => {
                push_text(&mut parts, "2".to_owned());
                push_text(&mut parts, decimal_string(self.hit_sound as i64));
                push_all(&mut parts, &self.object_params);
                assert(parts.deep_view() =~= at + seq!["2"@, sound] + self.params());
            },
            CatchHitobjectType::Banana => {
                let end: i32 = match catch.end_time {
                    Some(e) => e,
                    None => 0,
                };
                push_text(&mut parts, "8".to_owned());
                push_text(&mut parts, decimal_string(self.hit_sound as i64));
                push_text(&mut parts, decimal_string(end as i64));
                assert(parts.deep_view() =~= at + seq!["8"@, sound, decimal(end as int)]);
            },
            _ => {
                let s = String::new();
                assert(s@ =~= joined(Seq::<Seq<char>>::empty(), ","@));
                return s;
            },
        }
        push_text(&mut parts, self.hit_sample.to_osu_format());
        assert(parts.deep_view() =~= self.catch_fields());
        join(&parts, ",")
    }
}

/// The parts of a text between its vertical bars.
pub open spec fn bar_parts(s: Seq<char>) -> Seq<Seq<char>> {
    split(s, '|')
}

/// The whole numbers among the texts, in order; texts that write none are
/// passed over.
pub open spec fn numbers_in(parts: Seq<Seq<char>>) -> Seq<i32>
    decreases parts.len(),
{
    if parts.len() == 0 {
        Seq::empty()
    } else {
        match int_in_range(parts.last(), i32::MIN as int, i32::MAX as int) {
            Some(n) => numbers_in(parts.drop_last()).push(n as i32),
            None => numbers_in(parts.drop_last()),
        }
    }
}

/// The pair of whole numbers that a text `a:b` writes, if it writes one.
pub open spec fn set_pair(part: Seq<char>) -> Option<(i32, i32)> {
    let p = split(part, ':');
    if p.len() >= 2 && int_in_range(p[0], i32::MIN as int, i32::MAX as int) is Some
        && int_in_range(p[1], i32::MIN as int, i32::MAX as int) is Some {
        Some(
            (
                int_in_range(p[0], i32::MIN as int, i32::MAX as int)->0 as i32,
                int_in_range(p[1], i32::MIN as int, i32::MAX as int)->0 as i32,
            ),
        )
    } else {
        None
    }
}

/// The pairs among the texts, in order.
pub open spec fn pairs_in(parts: Seq<Seq<char>>) -> Seq<(i32, i32)>
    decreases parts.len(),
{
    if parts.len() == 0 {
        Seq::empty()
    } else {
        match set_pair(parts.last()) {
            Some(p) => pairs_in(parts.drop_last()).push(p),
            None => pairs_in(parts.drop_last()),
        }
    }
}

fn read_set_pair(part: &Vec<char>) -> (r: Option<(i32, i32)>)
    ensures
        r == set_pair(part@),
{
    assert(part@.subrange(0, part@.len() as int) =~= part@);
    let p = split_range(part, 0, part.len(), ':');
    proof {
        assert forall|k: int| 0 <= k < p@.len() implies #[trigger] p.deep_view()[k] == p@[k]@ by {
            assert(p@[k].deep_view() =~= p@[k]@);
        }
    }
    if p.len() < 2 {
        return None;
    }
    assert(p@[0]@.subrange(0, p@[0]@.len() as int) =~= p@[0]@);
    assert(p@[1]@.subrange(0, p@[1]@.len() as int) =~= p@[1]@);
    match (read_i32(&p[0], 0, p[0].len()), read_i32(&p[1], 0, p[1].len())) {
        (Some(a), Some(b)) => Some((a, b)),
        _ => None,
    }
}

impl HitObject {
    /// Whether the object is a slider whose curve can be read: it has three
    /// parameters, of which the second is a whole number and the third a
    /// number.
    pub open spec fn has_curve(&self) -> bool {
        &&& self.object_type & 2 != 0
        &&& self.params().len() >= 3
        &&& int_in_range(self.params()[1], i32::MIN as int, i32::MAX as int) is Some
        &&& crate::utils::numbers::fixed_in_range(self.params()[2]) is Some
    }

    /// The curve of a slider: its type, its points, how often it slides, and
    /// its length in thousandths.
    pub fn slider_params(&self) -> (r: Option<(String, Vec<String>, i32, i64)>)
        ensures
            r is Some <==> self.has_curve(),
            r is Some ==> ({
                let (curve_type, points, slides, length) = r->0;
                let parts = bar_parts(self.params()[0]);
                &&& curve_type@ == parts[0]
                &&& points.deep_view() == parts.subrange(1, parts.len() as int)
                &&& slides == int_in_range(self.params()[1], i32::MIN as int, i32::MAX as int)->0
                &&& length == crate::utils::numbers::fixed_in_range(self.params()[2])->0
            }),
    {
        if !(self.is_slider() && self.object_params.len() >= 3) {
            return None;
        }
        proof {
            assert(self.params()[0] == self.object_params@[0]@);
            assert(self.params()[1] == self.object_params@[1]@);
            assert(self.params()[2] == self.object_params@[2]@);
        }
        let second = chars_of(self.object_params[1].as_str());
        assert(second@.subrange(0, second@.len() as int) =~= second@);
        let slides = match read_i32(&second, 0, second.len()) {
            Some(n) => n,
            None => {
                return None;
            },
        };
        let third = chars_of(self.object_params[2].as_str());
        assert(third@.subrange(0, third@.len() as int) =~= third@);
        let length = match crate::utils::numbers::read_fixed(&third, 0, third.len()) {
            Some(n) => n,
            None => {
                return None;
            },
        };
        let v = chars_of(self.object_params[0].as_str());
        assert(v@.subrange(0, v@.len() as int) =~= v@);
        let parts = split_range(&v, 0, v.len(), '|');
        let ghost all = bar_parts(self.params()[0]);
        proof {
            crate::utils::text::lemma_split_nonempty(v@, '|');
            assert forall|k: int| 0 <= k < parts@.len() implies #[trigger] all[k] == parts@[k]@ by {
                assert(parts@[k].deep_view() =~= parts@[k]@);
                assert(parts.deep_view()[k] == parts@[k].deep_view());
            }
        }
        let first = &parts[0];
        assert(first@.subrange(0, first@.len() as int) =~= first@);
        let curve_type = string_of(first, 0, first.len());
        let mut points: Vec<String> = Vec::new();
        let mut i: usize = 1;
        while i < parts.len()
            invariant
                1 <= i <= parts@.len(),
                all.len() == parts@.len(),
                forall|k: int| 0 <= k < parts@.len() ==> #[trigger] all[k] == parts@[k]@,
                points@.len() == i - 1,
                forall|k: int| 0 <= k < i - 1 ==> (#[trigger] points@[k])@ == all[k + 1],
            decreases parts.len() - i,
        {
            let part = &parts[i];
            assert(part@.subrange(0, part@.len() as int) =~= part@);
            points.push(string_of(part, 0, part.len()));
            i += 1;
        }
        assert(points.deep_view() =~= all.subrange(1, all.len() as int));
        Some((curve_type, points, slides, length))
    }

    /// The sounds at the edges of a slider: the whole numbers of its fourth
    /// parameter. Nothing for anything but a slider with four parameters.
    pub fn slider_edge_sounds(&self) -> (r: Vec<i32>)
        ensures
            r@ == if self.object_type & 2 != 0 && self.params().len() >= 4 {
                numbers_in(bar_parts(self.params()[3]))
            } else {
                Seq::empty()
            },
    {
        let mut out: Vec<i32> = Vec::new();
        if !(self.is_slider() && self.object_params.len() >= 4) {
            return out;
        }
        assert(self.params()[3] == self.object_params@[3]@);
        let v = chars_of(self.object_params[3].as_str());
        assert(v@.subrange(0, v@.len() as int) =~= v@);
        let parts = split_range(&v, 0, v.len(), '|');
        let ghost all = parts.deep_view();
        let mut i: usize = 0;
        assert(all.subrange(0, 0) =~= Seq::<Seq<char>>::empty());
        while i < parts.len()
            invariant
                i <= parts.len(),
                all == parts.deep_view(),
                out@ == numbers_in(all.subrange(0, i as int)),
            decreases parts.len() - i,
        {
            let part = &parts[i];
            proof {
                assert(all.subrange(0, i + 1).drop_last() =~= all.subrange(0, i as int));
                assert(all[i as int] == parts@[i as int].deep_view());
                assert(parts@[i as int].deep_view() =~= part@);
                assert(all.subrange(0, i + 1).last() == part@);
                assert(part@.subrange(0, part@.len() as int) =~= part@);
            }
            match read_i32(part, 0, part.len()) {
                Some(n) => {
                    out.push(n);
                },
                None => {},
            }
            i += 1;
        }
        assert(all.subrange(0, i as int) =~= all);
        out
    }

    /// The sample sets at the edges of a slider: the pairs of its fifth
    /// parameter. Nothing for anything but a slider with five parameters.
    pub fn slider_edge_sets(&self) -> (r: Vec<(i32, i32)>)
        ensures
            r@ == if self.object_type & 2 != 0 && self.params().len() >= 5 {
                pairs_in(bar_parts(self.params()[4]))
            } else {
                Seq::empty()
            },
    {
        let mut out: Vec<(i32, i32)> = Vec::new();
        if !(self.is_slider() && self.object_params.len() >= 5) {
            return out;
        }
        assert(self.params()[4] == self.object_params@[4]@);
        let v = chars_of(self.object_params[4].as_str());
        assert(v@.subrange(0, v@.len() as int) =~= v@);
        let parts = split_range(&v, 0, v.len(), '|');
        let ghost all = parts.deep_view();
        let mut i: usize = 0;
        assert(all.subrange(0, 0) =~= Seq::<Seq<char>>::empty());
        while i < parts.len()
            invariant
                i <= parts.len(),
                all == parts.deep_view(),
                out@ == pairs_in(all.subrange(0, i as int)),
            decreases parts.len() - i,
        {
            let part = &parts[i];
            proof {
                assert(all.subrange(0, i + 1).drop_last() =~= all.subrange(0, i as int));
                assert(all[i as int] == parts@[i as int].deep_view());
                assert(parts@[i as int].deep_view() =~= part@);
                assert(all.subrange(0, i + 1).last() == part@);
            }
            match read_set_pair(part) {
                Some(p) => {
                    out.push(p);
                },
                None => {},
            }
            i += 1;
        }
        assert(all.subrange(0, i as int) =~= all);
        out
    }

    /// The line of the object in a mode; the unknown mode writes the line as
    /// it is. Only the mania mode reads the sound bank: with one, the line
    /// names the sample of the object by its place in the bank, which takes
    /// the file up if it is new; every other mode leaves the bank alone.
    pub fn to_osu_format_with_mode(&self, mode: &OsuMode, soundbank: Option<&mut SoundBank>) -> (s:
        String)
        ensures
            s@ == match *mode {
                OsuMode::Standard => line_text(*self, LineStyle::Standard),
                OsuMode::Taiko => line_text(*self, LineStyle::Taiko),
                OsuMode::Catch => line_text(*self, LineStyle::Catch),
                OsuMode::Mania => if soundbank is Some {
                    joined(self.mania_fields(self.banked_sample()), ","@)
                } else {
                    line_text(*self, LineStyle::Mania)
                },
                OsuMode::Unknown => line_text(*self, LineStyle::Plain),
            },
            soundbank is Some && *mode == OsuMode::Mania ==> {
                &&& final(soundbank->0).samples() == self.samples_after(
                    old(soundbank->0).samples(),
                )
                &&& final(soundbank->0).audio_tracks == old(soundbank->0).audio_tracks
                &&& final(soundbank->0).sound_effects == old(soundbank->0).sound_effects
            },
            soundbank is Some && *mode != OsuMode::Mania ==> *final(soundbank->0) == *old(
                soundbank->0,
            ),
    {
        match mode {
            OsuMode::Standard => self.to_osu_format_standard(),
            OsuMode::Taiko => self.to_osu_format_taiko(),
            OsuMode::Catch => self.to_osu_format_catch(),
            OsuMode::Mania => match soundbank {
                Some(bank) => self.to_osu_format_mania(bank),
                None => self.to_osu_format_mania_no_soundbank(),
            },
            OsuMode::Unknown => self.to_osu_format(),
        }
    }
}

/// The ways to write the line of a hit object without a sound bank.
#[derive(Debug, Clone, Copy, PartialEq, Eq, Structural)]
pub enum LineStyle {
    Plain,
    Standard,
    Taiko,
    Catch,
    Mania,
}

/// The line of a hit object in a style.
pub open spec fn line_text(h: HitObject, style: LineStyle) -> Seq<char> {
    match style {
        LineStyle::Plain => joined(h.plain_fields(), ","@),
        LineStyle::Standard => joined(h.standard_fields(), ","@),
        LineStyle::Taiko => joined(h.taiko_fields(), ","@),
        LineStyle::Catch => joined(h.catch_fields(), ","@),
        LineStyle::Mania => joined(h.mania_fields(h.hit_sample.text()), ","@),
    }
}

/// The lines of hit objects in a style.
pub open spec fn lines_in(objects: Seq<HitObject>, style: LineStyle) -> Seq<Seq<char>> {
    objects.map_values(|h: HitObject| line_text(h, style))
}

/// The lines of hit objects in the mania mode when a bank keeps the samples.
pub open spec fn banked_lines(objects: Seq<HitObject>) -> Seq<Seq<char>> {
    objects.map_values(|h: HitObject| joined(h.mania_fields(h.banked_sample()), ","@))
}

/// The samples of a bank once all of the objects have their key sounds.
pub open spec fn samples_through(objects: Seq<HitObject>, samples: Seq<Seq<char>>) -> Seq<
    Seq<char>,
>
    decreases objects.len(),
{
    if objects.len() == 0 {
        samples
    } else {
        objects.last().samples_after(samples_through(objects.drop_last(), samples))
    }
}

/// The message of the first line that counts and is wrong in its first five
/// fields, if there is one.
pub open spec fn first_line_error(lines: Seq<Seq<char>>) -> Option<Seq<char>>
    decreases lines.len(),
{
    if lines.len() == 0 {
        None
    } else if counts(lines[0]) && line_error(split(lines[0], ',')) is Some {
        line_error(split(lines[0], ','))
    } else {
        first_line_error(lines.drop_first())
    }
}

/// The lines that count, in order.
pub open spec fn counted(lines: Seq<Seq<char>>) -> Seq<Seq<char>>
    decreases lines.len(),
{
    if lines.len() == 0 {
        Seq::empty()
    } else if counts(lines.last()) {
        counted(lines.drop_last()).push(lines.last())
    } else {
        counted(lines.drop_last())
    }
}

/// How many of the objects have one of the bits of `mask` set in their type.
pub open spec fn with_bits(objects: Seq<HitObject>, mask: u8) -> int
    decreases objects.len(),
{
    if objects.len() == 0 {
        0
    } else {
        with_bits(objects.drop_last(), mask) + if objects.last().object_type & mask != 0 {
            1int
        } else {
            0int
        }
    }
}

/// The positions of the objects whose time lies in `start..=end`, in order.
pub open spec fn positions_between(objects: Seq<HitObject>, start: i64, end: i64) -> Seq<usize>
    decreases objects.len(),
{
    if objects.len() == 0 {
        Seq::empty()
    } else if start <= objects.last().time <= end {
        positions_between(objects.drop_last(), start, end).push((objects.len() - 1) as usize)
    } else {
        positions_between(objects.drop_last(), start, end)
    }
}

#[derive(Debug, Clone)]
pub struct HitObjects {
    pub hit_objects: Vec<HitObject>,
}

impl Default for HitObjects {
    fn default() -> (h: Self)
        ensures
            h.hit_objects@.len() == 0,
    {
        Self { hit_objects: Vec::new() }
    }
}

impl HitObjects {
    /// `self` is what the lines read as in mode `mode`: one object for each
    /// line that counts.
    pub open spec fn reads_from(&self, lines: Seq<Seq<char>>, mode: OsuMode) -> bool {
        &&& self.hit_objects@.len() == counted(lines).len()
        &&& forall|i: int|
            0 <= i < self.hit_objects@.len() ==> (#[trigger] self.hit_objects@[i]).reads_from(
                split(counted(lines)[i], ','),
                mode,
            )
    }

    /// Reads the section. The first line that cannot be read is the error.
    pub fn from_str_with_mode(s: &str, mode: &OsuMode) -> (r: Result<HitObjects, String>)
        ensures
            match r {
                Ok(h) => first_line_error(trimmed_lines(s@)) is None && h.reads_from(
                    trimmed_lines(s@),
                    *mode,
                ),
                Err(m) => first_line_error(trimmed_lines(s@)) == Some(m@),
            },
    {
        let lines = read_lines(s);
        let ghost all = lines.deep_view();
        let n = lines.len();
        let mut objects: Vec<HitObject> = Vec::new();
        let mut i: usize = 0;
        proof {
            assert(all.subrange(0, n as int) =~= all);
            assert(all.subrange(0, 0) =~= Seq::<Seq<char>>::empty());
        }
        while i < n
            invariant
                i <= n,
                n == lines@.len(),
                all == lines.deep_view(),
                all == trimmed_lines(s@),
                first_line_error(all) == first_line_error(all.subrange(i as int, n as int)),
                objects@.len() == counted(all.subrange(0, i as int)).len(),
                forall|k: int|
                    0 <= k < objects@.len() ==> (#[trigger] objects@[k]).reads_from(
                        split(counted(all.subrange(0, i as int))[k], ','),
                        *mode,
                    ),
            decreases n - i,
        {
            let line = &lines[i];
            let ghost before = counted(all.subrange(0, i as int));
            let ghost old_objects = objects@;
            proof {
                assert(all.subrange(i as int, n as int).drop_first() =~= all.subrange(
                    i + 1,
                    n as int,
                ));
                assert(all[i as int] == lines@[i as int].deep_view());
                assert(lines@[i as int].deep_view() =~= line@);
                assert(all.subrange(i as int, n as int)[0] == line@);
                assert(all.subrange(0, i + 1).drop_last() =~= all.subrange(0, i as int));
                assert(all.subrange(0, i + 1).last() == line@);
            }
            if line_counts(line) {
                match HitObject::from_chars(line, mode) {
                    Ok(h) => {
                        objects.push(h);
                    },
                    Err(m) => {
                        return Err(m);
                    },
                }
            }
            i += 1;
            proof {
                let after = counted(all.subrange(0, i as int));
                assert forall|k: int| 0 <= k < objects@.len() implies (
                #[trigger] objects@[k]).reads_from(split(after[k], ','), *mode) by {
                    if k < old_objects.len() {
                        assert(objects@[k] == old_objects[k]);
                        assert(after[k] == before[k]);
                    }
                }
            }
        }
        proof {
            assert(all.subrange(n as int, n as int) =~= Seq::<Seq<char>>::empty());
            assert(all.subrange(0, n as int) =~= all);
        }
        Ok(HitObjects { hit_objects: objects })
    }

    /// Reads the section in the standard mode.
    pub fn from_str(s: &str) -> (r: Result<HitObjects, String>)
        ensures
            match r {
                Ok(h) => first_line_error(trimmed_lines(s@)) is None && h.reads_from(
                    trimmed_lines(s@),
                    OsuMode::Standard,
                ),
                Err(m) => first_line_error(trimmed_lines(s@)) == Some(m@),
            },
    {
        Self::from_str_with_mode(s, &OsuMode::Standard)
    }

    pub fn new() -> (h: Self)
        ensures
            h.hit_objects@.len() == 0,
    {
        Self { hit_objects: Vec::new() }
    }

    pub fn add_hit_object(&mut self, hit_object: HitObject)
        ensures
            final(self).hit_objects@ == old(self).hit_objects@.push(hit_object),
    {
        self.hit_objects.push(hit_object);
    }

    pub fn count(&self) -> (n: usize)
        ensures
            n == self.hit_objects@.len(),
    {
        self.hit_objects.len()
    }

    fn count_bits(&self, mask: u8) -> (n: usize)
        ensures
            n == with_bits(self.hit_objects@, mask),
    {
        let mut n: usize = 0;
        let mut i: usize = 0;
        while i < self.hit_objects.len()
            invariant
                i <= self.hit_objects.len(),
                n <= i,
                n == with_bits(self.hit_objects@.subrange(0, i as int), mask),
            decreases self.hit_objects.len() - i,
        {
            assert(self.hit_objects@.subrange(0, i + 1).drop_last()
                =~= self.hit_objects@.subrange(0, i as int));
            if (self.hit_objects[i].object_type & mask) != 0 {
                n += 1;
            }
            i += 1;
        }
        assert(self.hit_objects@.subrange(0, i as int) =~= self.hit_objects@);
        n
    }

    pub fn hit_circle_count(&self) -> (n: usize)
        ensures
            n == with_bits(self.hit_objects@, 1),
    {
        self.count_bits(1)
    }

    pub fn slider_count(&self) -> (n: usize)
        ensures
            n == with_bits(self.hit_objects@, 2),
    {
        self.count_bits(2)
    }

    pub fn spinner_count(&self) -> (n: usize)
        ensures
            n == with_bits(self.hit_objects@, 8),
    {
        self.count_bits(8)
    }

    /// The time of the first object in the section.
    pub fn start_time(&self) -> (t: Option<i64>)
        ensures
            t == if self.hit_objects@.len() == 0 {
                None
            } else {
                Some(self.hit_objects@[0].time)
            },
    {
        if self.hit_objects.len() == 0 {
            None
        } else {
            Some(self.hit_objects[0].time)
        }
    }

    /// The end of the last object in the section, in whole milliseconds: its
    /// end time if it has one, otherwise its time.
    pub fn end_time(&self) -> (t: Option<i32>)
        ensures
            t == if self.hit_objects@.len() == 0 {
                None
            } else {
                Some(
                    match self.hit_objects@.last().end() {
                        Some(e) => e,
                        None => self.hit_objects@.last().whole_ms(),
                    },
                )
            },
    {
        if self.hit_objects.len() == 0 {
            None
        } else {
            let last = &self.hit_objects[self.hit_objects.len() - 1];
            match last.end_time() {
                Some(e) => Some(e),
                None => Some(last.time_ms()),
            }
        }
    }

    /// From the start of the first object to the end of the last, in
    /// thousandths of a millisecond.
    pub fn length(&self) -> (l: Option<i128>)
        ensures
            l == if self.hit_objects@.len() == 0 {
                None
            } else {
                Some(
                    (match self.hit_objects@.last().end() {
                        Some(e) => e,
                        None => self.hit_objects@.last().whole_ms(),
                    } * 1000 - self.hit_objects@[0].time) as i128,
                )
            },
    {
        match (self.start_time(), self.end_time()) {
            (Some(start), Some(end)) => Some((end as i128) * 1000 - start as i128),
            _ => None,
        }
    }

    pub fn objects_in_time_range(&self, start_time: i64, end_time: i64) -> (found: Vec<usize>)
        ensures
            found@ == positions_between(self.hit_objects@, start_time, end_time),
    {
        let mut found: Vec<usize> = Vec::new();
        let mut i: usize = 0;
        while i < self.hit_objects.len()
            invariant
                i <= self.hit_objects.len(),
                found@ == positions_between(
                    self.hit_objects@.subrange(0, i as int),
                    start_time,
                    end_time,
                ),
            decreases self.hit_objects.len() - i,
        {
            assert(self.hit_objects@.subrange(0, i + 1).drop_last()
                =~= self.hit_objects@.subrange(0, i as int));
            let t = self.hit_objects[i].time;
            if start_time <= t && t <= end_time {
                found.push(i);
            }
            i += 1;
        }
        assert(self.hit_objects@.subrange(0, i as int) =~= self.hit_objects@);
        found
    }

    fn lines_of(&self, style: LineStyle) -> (s: String)
        ensures
            s@ == joined(lines_in(self.hit_objects@, style), "\n"@),
    {
        let mut lines: Vec<String> = Vec::new();
        let mut i: usize = 0;
        while i < self.hit_objects.len()
            invariant
                i <= self.hit_objects.len(),
                lines@.len() == i,
                forall|k: int|
                    0 <= k < i ==> (#[trigger] lines@[k])@ == line_text(self.hit_objects@[k], style),
            decreases self.hit_objects.len() - i,
        {
            let h = &self.hit_objects[i];
            let line = match style {
                LineStyle::Plain => h.to_osu_format(),
                LineStyle::Standard => h.to_osu_format_standard(),
                LineStyle::Taiko => h.to_osu_format_taiko(),
                LineStyle::Catch => h.to_osu_format_catch(),
                LineStyle::Mania => h.to_osu_format_mania_no_soundbank(),
            };
            lines.push(line);
            i += 1;
        }
        assert(lines.deep_view() =~= lines_in(self.hit_objects@, style));
        join(&lines, "\n")
    }

    /// The section as it stands in a file: one line for each object.
    pub fn to_osu_format(&self) -> (s: String)
        ensures
            s@ == joined(lines_in(self.hit_objects@, LineStyle::Plain), "\n"@),
    {
        self.lines_of(LineStyle::Plain)
    }

    pub fn to_osu_format_taiko(&self) -> (s: String)
        ensures
            s@ == joined(lines_in(self.hit_objects@, LineStyle::Taiko), "\n"@),
    {
        self.lines_of(LineStyle::Taiko)
    }

    pub fn to_osu_format_catch(&self) -> (s: String)
        ensures
            s@ == joined(lines_in(self.hit_objects@, LineStyle::Catch), "\n"@),
    {
        self.lines_of(LineStyle::Catch)
    }

    pub fn to_osu_format_mania_no_soundbank(&self) -> (s: String)
        ensures
            s@ == joined(lines_in(self.hit_objects@, LineStyle::Mania), "\n"@),
    {
        self.lines_of(LineStyle::Mania)
    }

    /// The section in the standard mode, which writes the lines as they are.
    pub fn to_osu_format_standard(&self) -> (s: String)
        ensures
            s@ == joined(lines_in(self.hit_objects@, LineStyle::Plain), "\n"@),
    {
        self.to_osu_format()
    }

    /// The section in the mania mode, with the samples of the objects kept
    /// in the bank.
    pub fn to_osu_format_mania(&self, soundbank: &mut SoundBank) -> (s: String)
        ensures
            s@ == joined(banked_lines(self.hit_objects@), "\n"@),
            final(soundbank).samples() == samples_through(
                self.hit_objects@,
                old(soundbank).samples(),
            ),
            final(soundbank).audio_tracks == old(soundbank).audio_tracks,
            final(soundbank).sound_effects == old(soundbank).sound_effects,
    {
        let mut lines: Vec<String> = Vec::new();
        let mut i: usize = 0;
        assert(self.hit_objects@.subrange(0, 0) =~= Seq::<HitObject>::empty());
        while i < self.hit_objects.len()
            invariant
                i <= self.hit_objects.len(),
                lines@.len() == i,
                forall|k: int|
                    0 <= k < i ==> (#[trigger] lines@[k])@ == joined(
                        self.hit_objects@[k].mania_fields(self.hit_objects@[k].banked_sample()),
                        ","@,
                    ),
                soundbank.samples() == samples_through(
                    self.hit_objects@.subrange(0, i as int),
                    old(soundbank).samples(),
                ),
                soundbank.audio_tracks == old(soundbank).audio_tracks,
                soundbank.sound_effects == old(soundbank).sound_effects,
            decreases self.hit_objects.len() - i,
        {
            assert(self.hit_objects@.subrange(0, i + 1).drop_last()
                =~= self.hit_objects@.subrange(0, i as int));
            assert(self.hit_objects@.subrange(0, i + 1).last() == self.hit_objects@[i as int]);
            lines.push(self.hit_objects[i].to_osu_format_mania(soundbank));
            i += 1;
        }
        assert(self.hit_objects@.subrange(0, i as int) =~= self.hit_objects@);
        assert(lines.deep_view() =~= banked_lines(self.hit_objects@));
        join(&lines, "\n")
    }

    /// Sorts the objects by time. Objects of equal time keep their order.
    pub fn sort_by_time(&mut self)
        ensures
            is_stable_sort_of(final(self).hit_objects@, old(self).hit_objects@),
    {
        stable_sort_in_place(&mut self.hit_objects);
    }

    pub fn get(&self, index: usize) -> (h: Option<&HitObject>)
        ensures
            h == if index < self.hit_objects@.len() {
                Some(&self.hit_objects@[index as int])
            } else {
                None
            },
    {
        if index < self.hit_objects.len() {
            Some(&self.hit_objects[index])
        } else {
            None
        }
    }

    /// The object at `index`, to be changed in place: what the caller
    /// leaves behind the reference takes the place of the object.
    pub fn get_mut(&mut self, index: usize) -> (h: Option<&mut HitObject>)
        ensures
            h is Some <==> index < old(self).hit_objects@.len(),
            h is Some ==> *h->0 == old(self).hit_objects@[index as int] && final(self).hit_objects@ == old(self).hit_objects@.update(index as int, *final(h->0)),
            h is None ==> final(self).hit_objects@ == old(self).hit_objects@,
    {
        if index < self.hit_objects.len() {
            Some(&mut self.hit_objects[index])
        } else {
            None
        }
    }

    pub fn is_empty(&self) -> (b: bool)
        ensures
            b == (self.hit_objects@.len() == 0),
    {
        self.hit_objects.len() == 0
    }

    pub fn first(&self) -> (h: Option<&HitObject>)
        ensures
            h == if self.hit_objects@.len() > 0 {
                Some(&self.hit_objects@[0])
            } else {
                None
            },
    {
        self.get(0)
    }

    /// The first object, to be changed in place.
    pub fn first_mut(&mut self) -> (h: Option<&mut HitObject>)
        ensures
            h is Some <==> old(self).hit_objects@.len() > 0,
            h is Some ==> *h->0 == old(self).hit_objects@[0] && final(self).hit_objects@ == old(self).hit_objects@.update(0, *final(h->0)),
            h is None ==> final(self).hit_objects@ == old(self).hit_objects@,
    {
        self.get_mut(0)
    }

    /// The last object, to be changed in place.
    pub fn last_mut(&mut self) -> (h: Option<&mut HitObject>)
        ensures
            h is Some <==> old(self).hit_objects@.len() > 0,
            h is Some ==> *h->0 == old(self).hit_objects@.last() && final(self).hit_objects@
                == old(self).hit_objects@.update(old(self).hit_objects@.len() - 1, *final(h->0)),
            h is None ==> final(self).hit_objects@ == old(self).hit_objects@,
    {
        if self.hit_objects.len() == 0 {
            None
        } else {
            let last = self.hit_objects.len() - 1;
            self.get_mut(last)
        }
    }

    pub fn last(&self) -> (h: Option<&HitObject>)
        ensures
            h == if self.hit_objects@.len() > 0 {
                Some(&self.hit_objects@.last())
            } else {
                None
            },
    {
        if self.hit_objects.len() == 0 {
            None
        } else {
            self.get(self.hit_objects.len() - 1)
        }
    }
}

} // verus!
