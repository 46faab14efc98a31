//! Types shared by every format: keys, game modes and grid rows.

use vstd::prelude::*;

verus! {

/// What a timing change alters.
#[derive(Debug, Clone, Copy, PartialEq, Eq, Structural)]
pub enum TimingChangeType {
    Bpm,
    Sv,
    Stop,
}

#[derive(Debug, Clone, Copy, PartialEq, Eq, Structural)]
#[non_exhaustive]
pub enum GameMode {
    Mania,
    Taiko,
    Catch,
    OsuStandard,
}

impl GameMode {
    /// The mode's display name.
    pub open spec fn name(self) -> Seq<char> {
        match self {
            GameMode::Mania => "mania"@,
            GameMode::Taiko => "taiko"@,
            GameMode::Catch => "catch"@,
            GameMode::OsuStandard => "osu! standard"@,
        }
    }

    pub fn to_string(&self) -> (s: String)
        ensures
            s@ == self.name(),
    {
        match self {
            GameMode::Mania => "mania".to_owned(),
            GameMode::Taiko => "taiko".to_owned(),
            GameMode::Catch => "catch".to_owned(),
            GameMode::OsuStandard => "osu! standard".to_owned(),
        }
    }
}

/// Anything that knows which game mode it belongs to.
pub trait HitObject {
    spec fn mode(&self) -> GameMode;

    fn game_mode(&self) -> (m: GameMode)
        ensures
            m == self.mode(),
    ;
}

#[derive(Debug, Clone, Copy, PartialEq, Eq, Structural)]
pub enum KeyType {
    Empty,
    Normal,
    SliderStart,
    SliderEnd,
    Mine,
    Fake,
    Unknown,
}

/// One cell of a lane: the kind of note, and for the start of a long note its
/// end time in milliseconds once that is known.
#[derive(Debug, Clone, Copy, PartialEq, Eq, Structural)]
pub struct Key {
    pub key_type: KeyType,
    pub slider_end_time: Option<i32>,
}

impl HitObject for Key {
    open spec fn mode(&self) -> GameMode {
        GameMode::Mania
    }

    fn game_mode(&self) -> (m: GameMode) {
        GameMode::Mania
    }
}

impl Key {
    pub fn empty() -> (k: Self)
        ensures
            k == (Key { key_type: KeyType::Empty, slider_end_time: None }),
    {
        Self { key_type: KeyType::Empty, slider_end_time: None }
    }

    pub fn normal() -> (k: Self)
        ensures
            k == (Key { key_type: KeyType::Normal, slider_end_time: None }),
    {
        Self { key_type: KeyType::Normal, slider_end_time: None }
    }

    pub fn slider_start(value: Option<i32>) -> (k: Self)
        ensures
            k == (Key { key_type: KeyType::SliderStart, slider_end_time: value }),
    {
        Self { key_type: KeyType::SliderStart, slider_end_time: value }
    }

    pub fn slider_end() -> (k: Self)
        ensures
            k == (Key { key_type: KeyType::SliderEnd, slider_end_time: None }),
    {
        Self { key_type: KeyType::SliderEnd, slider_end_time: None }
    }

    pub fn mine() -> (k: Self)
        ensures
            k == (Key { key_type: KeyType::Mine, slider_end_time: None }),
    {
        Self { key_type: KeyType::Mine, slider_end_time: None }
    }

    pub fn fake() -> (k: Self)
        ensures
            k == (Key { key_type: KeyType::Fake, slider_end_time: None }),
    {
        Self { key_type: KeyType::Fake, slider_end_time: None }
    }

    pub fn unknown() -> (k: Self)
        ensures
            k == (Key { key_type: KeyType::Unknown, slider_end_time: None }),
    {
        Self { key_type: KeyType::Unknown, slider_end_time: None }
    }

    pub fn slider_end_time(&self) -> (t: Option<i32>)
        ensures
            t == self.slider_end_time,
    {
        self.slider_end_time
    }
}

/// One row of the grid: a time, its beat position in ticks, and one cell per
/// lane.
#[derive(Debug, Clone)]
pub struct HitObjectRow {
    pub time: i32,
    pub beat: i64,
    pub keys: Vec<Key>,
}

pub type Measure = Vec<HitObjectRow>;

impl HitObjectRow {
    /// A row of `key_count` empty cells.
    pub fn empty(time: i32, beat: i64, key_count: usize) -> (row: Self)
        ensures
            row.time == time,
            row.beat == beat,
            row.keys@ == Seq::new(
                key_count as nat,
                |i: int| Key { key_type: KeyType::Empty, slider_end_time: None },
            ),
    {
        let mut keys: Vec<Key> = Vec::new();
        let mut i: usize = 0;
        while i < key_count
            invariant
                i <= key_count,
                keys@ == Seq::new(
                    i as nat,
                    |j: int| Key { key_type: KeyType::Empty, slider_end_time: None },
                ),
            decreases key_count - i,
        {
            keys.push(Key::empty());
            i += 1;
            assert(keys@ =~= Seq::new(
                i as nat,
                |j: int| Key { key_type: KeyType::Empty, slider_end_time: None },
            ));
        }
        HitObjectRow { time, beat, keys }
    }
}

#[derive(Debug, Clone, Copy, PartialEq, Eq, Structural)]
pub enum TaikoHitobjectType {
    Empty,
    Don,
    Kat,
    BonusDon,
    BonusKat,
    DrumRoll,
    BonusDrumRoll,
    Balloon,
    Unknown,
}

#[derive(Debug, Clone, Copy, PartialEq, Eq, Structural)]
pub struct TaikoHitobject {
    pub note_type: TaikoHitobjectType,
    pub end_time: Option<i32>,
}

impl HitObject for TaikoHitobject {
    open spec fn mode(&self) -> GameMode {
        GameMode::Taiko
    }

    fn game_mode(&self) -> (m: GameMode) {
        GameMode::Taiko
    }
}

impl TaikoHitobject {
    pub fn empty() -> (h: Self)
        ensures
            h == (TaikoHitobject { note_type: TaikoHitobjectType::Empty, end_time: None }),
    {
        Self { note_type: TaikoHitobjectType::Empty, end_time: None }
    }

    pub fn don() -> (h: Self)
        ensures
            h == (TaikoHitobject { note_type: TaikoHitobjectType::Don, end_time: None }),
    {
        Self { note_type: TaikoHitobjectType::Don, end_time: None }
    }

    pub fn kat() -> (h: Self)
        ensures
            h == (TaikoHitobject { note_type: TaikoHitobjectType::Kat, end_time: None }),
    {
        Self { note_type: TaikoHitobjectType::Kat, end_time: None }
    }

    pub fn bonus_don() -> (h: Self)
        ensures
            h == (TaikoHitobject { note_type: TaikoHitobjectType::BonusDon, end_time: None }),
    {
        Self { note_type: TaikoHitobjectType::BonusDon, end_time: None }
    }

    pub fn bonus_kat() -> (h: Self)
        ensures
            h == (TaikoHitobject { note_type: TaikoHitobjectType::BonusKat, end_time: None }),
    {
        Self { note_type: TaikoHitobjectType::BonusKat, end_time: None }
    }

    pub fn drum_roll(end_time: i32) -> (h: Self)
        ensures
            h == (TaikoHitobject {
                note_type: TaikoHitobjectType::DrumRoll,
                end_time: Some(end_time),
            }),
    {
        Self { note_type: TaikoHitobjectType::DrumRoll, end_time: Some(end_time) }
    }

    pub fn bonus_drum_roll(end_time: i32) -> (h: Self)
        ensures
            h == (TaikoHitobject {
                note_type: TaikoHitobjectType::BonusDrumRoll,
                end_time: Some(end_time),
            }),
    {
        Self { note_type: TaikoHitobjectType::BonusDrumRoll, end_time: Some(end_time) }
    }

    pub fn balloon(end_time: i32) -> (h: Self)
        ensures
            h == (TaikoHitobject {
                note_type: TaikoHitobjectType::Balloon,
                end_time: Some(end_time),
            }),
    {
        Self { note_type: TaikoHitobjectType::Balloon, end_time: Some(end_time) }
    }

    pub fn unknown() -> (h: Self)
        ensures
            h == (TaikoHitobject { note_type: TaikoHitobjectType::Unknown, end_time: None }),
    {
        Self { note_type: TaikoHitobjectType::Unknown, end_time: None }
    }

    pub fn end_time(&self) -> (t: Option<i32>)
        ensures
            t == self.end_time,
    {
        self.end_time
    }
}

#[derive(Debug, Clone, Copy, PartialEq, Eq, Structural)]
pub enum CatchHitobjectType {
    Empty,
    Fruit,
    Juice,
    Banana,
    Hyperfruit,
    Unknown,
}

#[derive(Debug, Clone, Copy, PartialEq, Eq, Structural)]
pub struct CatchHitobject {
    pub object_type: CatchHitobjectType,
    pub x_position: i32,
    pub end_time: Option<i32>,
    pub hyperdash: bool,
}

impl HitObject for CatchHitobject {
    open spec fn mode(&self) -> GameMode {
        GameMode::Catch
    }

    fn game_mode(&self) -> (m: GameMode) {
        GameMode::Catch
    }
}

impl CatchHitobject {
    pub fn empty() -> (h: Self)
        ensures
            h == (CatchHitobject {
                object_type: CatchHitobjectType::Empty,
                x_position: 0,
                end_time: None,
                hyperdash: false,
            }),
    {
        Self { object_type: CatchHitobjectType::Empty, x_position: 0, end_time: None, hyperdash: false }
    }

    pub fn fruit(x_position: i32) -> (h: Self)
        ensures
            h == (CatchHitobject {
                object_type: CatchHitobjectType::Fruit,
                x_position,
                end_time: None,
                hyperdash: false,
            }),
    {
        Self { object_type: CatchHitobjectType::Fruit, x_position, end_time: None, hyperdash: false }
    }

    pub fn juice(x_position: i32) -> (h: Self)
        ensures
            h == (CatchHitobject {
                object_type: CatchHitobjectType::Juice,
                x_position,
                end_time: None,
                hyperdash: false,
            }),
    {
        Self { object_type: CatchHitobjectType::Juice, x_position, end_time: None, hyperdash: false }
    }

    pub fn banana(x_position: i32, end_time: i32) -> (h: Self)
        ensures
            h == (CatchHitobject {
                object_type: CatchHitobjectType::Banana,
                x_position,
                end_time: Some(end_time),
                hyperdash: false,
            }),
    {
        Self {
            object_type: CatchHitobjectType::Banana,
            x_position,
            end_time: Some(end_time),
            hyperdash: false,
        }
    }

    pub fn hyperfruit(x_position: i32) -> (h: Self)
        ensures
            h == (CatchHitobject {
                object_type: CatchHitobjectType::Hyperfruit,
                x_position,
                end_time: None,
                hyperdash: true,
            }),
    {
        Self {
            object_type: CatchHitobjectType::Hyperfruit,
            x_position,
            end_time: None,
            hyperdash: true,
        }
    }

    pub fn unknown() -> (h: Self)
        ensures
            h == (CatchHitobject {
                object_type: CatchHitobjectType::Unknown,
                x_position: 0,
                end_time: None,
                hyperdash: false,
            }),
    {
        Self {
            object_type: CatchHitobjectType::Unknown,
            x_position: 0,
            end_time: None,
            hyperdash: false,
        }
    }

    pub fn end_time(&self) -> (t: Option<i32>)
        ensures
            t == self.end_time,
    {
        self.end_time
    }

    pub fn is_hyperdash(&self) -> (b: bool)
        ensures
            b == self.hyperdash,
    {
        self.hyperdash
    }
}

#[derive(Debug, Clone, Copy, PartialEq, Eq, Structural)]
pub enum OsuHitobjectType {
    Empty,
    HitCircle,
    Slider,
    Spinner,
    Unknown,
}

/// A placeholder for the standard mode, which the converter does not chart.
#[derive(Debug, Clone, Copy, PartialEq, Eq, Structural)]
pub struct OsuHitobject {
    pub object_type: OsuHitobjectType,
    pub x: i32,
    pub y: i32,
    pub end_time: Option<i32>,
    pub new_combo: bool,
    pub combo_skip: u8,
}

impl HitObject for OsuHitobject {
    open spec fn mode(&self) -> GameMode {
        GameMode::OsuStandard
    }

    fn game_mode(&self) -> (m: GameMode) {
        GameMode::OsuStandard
    }
}

impl OsuHitobject {
    /// An object of the given kind at the given place, with no end time and no
    /// combo settings.
    pub open spec fn plain(object_type: OsuHitobjectType, x: int, y: int) -> Self {
        OsuHitobject {
            object_type,
            x: x as i32,
            y: y as i32,
            end_time: None,
            new_combo: false,
            combo_skip: 0,
        }
    }

    pub fn empty() -> (h: Self)
        ensures
            h == Self::plain(OsuHitobjectType::Empty, 0, 0),
    {
        Self {
            object_type: OsuHitobjectType::Empty,
            x: 0,
            y: 0,
            end_time: None,
            new_combo: false,
            combo_skip: 0,
        }
    }

    pub fn hit_circle(x: i32, y: i32) -> (h: Self)
        ensures
            h == Self::plain(OsuHitobjectType::HitCircle, x as int, y as int),
    {
        Self {
            object_type: OsuHitobjectType::HitCircle,
            x,
            y,
            end_time: None,
            new_combo: false,
            combo_skip: 0,
        }
    }

    pub fn slider(x: i32, y: i32) -> (h: Self)
        ensures
            h == Self::plain(OsuHitobjectType::Slider, x as int, y as int),
    {
        Self {
            object_type: OsuHitobjectType::Slider,
            x,
            y,
            end_time: None,
            new_combo: false,
            combo_skip: 0,
        }
    }

    /// A spinner sits at the centre of the playfield.
    pub fn spinner(end_time: i32) -> (h: Self)
        ensures
            h == (OsuHitobject {
                end_time: Some(end_time),
                ..Self::plain(OsuHitobjectType::Spinner, 256, 192)
            }),
    {
        Self {
            object_type: OsuHitobjectType::Spinner,
            x: 256,
            y: 192,
            end_time: Some(end_time),
            new_combo: false,
            combo_skip: 0,
        }
    }

    pub fn unknown() -> (h: Self)
        ensures
            h == Self::plain(OsuHitobjectType::Unknown, 0, 0),
    {
        Self {
            object_type: OsuHitobjectType::Unknown,
            x: 0,
            y: 0,
            end_time: None,
            new_combo: false,
            combo_skip: 0,
        }
    }

    pub fn with_new_combo(self) -> (h: Self)
        ensures
            h == (OsuHitobject { new_combo: true, ..self }),
    {
        let mut h = self;
        h.new_combo = true;
        h
    }

    pub fn with_combo_skip(self, skip: u8) -> (h: Self)
        ensures
            h == (OsuHitobject { combo_skip: skip, ..self }),
    {
        let mut h = self;
        h.combo_skip = skip;
        h
    }

    pub fn end_time(&self) -> (t: Option<i32>)
        ensures
            t == self.end_time,
    {
        self.end_time
    }

    pub fn is_new_combo(&self) -> (b: bool)
        ensures
            b == self.new_combo,
    {
        self.new_combo
    }

    pub fn combo_skip(&self) -> (n: u8)
        ensures
            n == self.combo_skip,
    {
        self.combo_skip
    }
}

} // verus!
