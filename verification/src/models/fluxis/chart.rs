//! The whole file of the JSON-based format.

use vstd::prelude::*;
use crate::models::fluxis::hitobjects::HitObject;
use crate::models::fluxis::metadata::{Colors, Metadata};
use crate::models::fluxis::sound::HitSoundFade;
use crate::models::fluxis::timing_points::{ScrollVelocity, TimingPoint};

verus! {

#[derive(Debug, Clone, Copy, PartialEq, Eq, Structural)]
pub enum DualMode {
    Disabled,
    Enabled,
    Separate,
}

/// The two difficulties are in thousandths.
#[derive(Debug, Clone)]
pub struct FscFile {
    pub audio_file: String,
    pub background_file: String,
    pub cover_file: String,
    pub video_file: String,
    pub effect_file: String,
    pub storyboard_file: String,
    pub metadata: Metadata,
    pub colors: Colors,
    pub hit_objects: Vec<HitObject>,
    pub timing_points: Vec<TimingPoint>,
    pub scroll_velocities: Vec<ScrollVelocity>,
    pub hit_sound_fades: Vec<HitSoundFade>,
    pub accuracy_difficulty: Option<i64>,
    pub health_difficulty: Option<i64>,
    pub dual_mode: Option<DualMode>,
    pub new_lane_switch_layout: Option<bool>,
    pub time_in_editor: Option<i32>,
    pub extra_playfields: Option<i32>,
}

/// The smallest lane count of a valid file, and so the lowest lane that a
/// note may lie in. There is no largest: the lane count of a file is the
/// highest lane that one of its notes uses.
pub const MIN_KEYMODE: isize = 1;

/// The highest lane among `notes`, or `otherwise` where there is no note.
pub open spec fn highest_lane(notes: Seq<HitObject>, otherwise: int) -> int
    decreases notes.len(),
{
    if notes.len() == 0 {
        otherwise
    } else if notes.len() == 1 {
        notes[0].lane as int
    } else if notes.last().lane > highest_lane(notes.drop_last(), otherwise) {
        notes.last().lane as int
    } else {
        highest_lane(notes.drop_last(), otherwise)
    }
}

/// The latest end among `notes`; 0 where there is no note.
pub open spec fn latest_end(notes: Seq<HitObject>) -> int
    decreases notes.len(),
{
    if notes.len() == 0 {
        0
    } else if notes.len() == 1 {
        notes[0].time + notes[0].holdtime
    } else if notes.last().time + notes.last().holdtime >= latest_end(notes.drop_last()) {
        notes.last().time + notes.last().holdtime
    } else {
        latest_end(notes.drop_last())
    }
}

/// One for each note and one more for each long note.
pub open spec fn combo_total(notes: Seq<HitObject>) -> int
    decreases notes.len(),
{
    if notes.len() == 0 {
        0
    } else {
        combo_total(notes.drop_last()) + 1 + if notes.last().holdtime > 0 && notes.last().is_tick
            == 0 {
            1int
        } else {
            0int
        }
    }
}

pub proof fn lemma_combo_total_bound(notes: Seq<HitObject>)
    ensures
        0 <= combo_total(notes) <= 2 * notes.len(),
    decreases notes.len(),
{
    if notes.len() > 0 {
        lemma_combo_total_bound(notes.drop_last());
    }
}

/// What is wrong with the first timing point that has something wrong.
pub open spec fn timing_complaint(points: Seq<TimingPoint>) -> Option<Seq<char>>
    decreases points.len(),
{
    if points.len() == 0 {
        None
    } else if points[0].bpm <= 0 {
        Some("A timing point has an invalid BPM."@)
    } else if points[0].signature == 0 {
        Some("A timing point has an invalid signature."@)
    } else {
        timing_complaint(points.drop_first())
    }
}

/// The kind of a note: 0 for a normal note, 1 for a long note, 2 for a tick
/// note, 3 for anything else.
pub open spec fn kind_of(h: HitObject) -> int {
    if h.holdtime <= 0 && h.is_tick == 0 {
        0
    } else if h.holdtime > 0 && h.is_tick == 0 {
        1
    } else if h.is_tick == 1 {
        2
    } else {
        3
    }
}

/// The positions of the notes of one kind, in order.
pub open spec fn positions_of(notes: Seq<HitObject>, kind: int) -> Seq<usize>
    decreases notes.len(),
{
    if notes.len() == 0 {
        Seq::empty()
    } else if kind_of(notes.last()) == kind {
        positions_of(notes.drop_last(), kind).push((notes.len() - 1) as usize)
    } else {
        positions_of(notes.drop_last(), kind)
    }
}

impl FscFile {
    /// A new file: 120 beats per minute from time 0, both difficulties 8, no
    /// notes.
    pub open spec fn is_new(&self) -> bool {
        &&& self.audio_file@.len() == 0
        &&& self.background_file@.len() == 0
        &&& self.cover_file@.len() == 0
        &&& self.video_file@.len() == 0
        &&& self.effect_file@.len() == 0
        &&& self.storyboard_file@.len() == 0
        &&& self.metadata.is_blank()
        &&& self.hit_objects@.len() == 0
        &&& self.timing_points@ == seq![
            TimingPoint { time: 0, bpm: 120_000, signature: 4, hide_lines: false },
        ]
        &&& self.scroll_velocities@.len() == 0
        &&& self.hit_sound_fades@.len() == 0
        &&& self.accuracy_difficulty == Some(8000i64)
        &&& self.health_difficulty == Some(8000i64)
        &&& self.dual_mode == Some(DualMode::Disabled)
        &&& self.new_lane_switch_layout == Some(false)
        &&& self.time_in_editor == Some(0i32)
        &&& self.extra_playfields == Some(0i32)
    }

    pub fn new() -> (f: Self)
        ensures
            f.is_new(),
    {
        let mut timing_points: Vec<TimingPoint> = Vec::new();
        timing_points.push(TimingPoint::new(0, 120_000, 4));
        assert(timing_points@ =~= seq![
            TimingPoint { time: 0, bpm: 120_000, signature: 4, hide_lines: false },
        ]);
        Self {
            audio_file: String::new(),
            background_file: String::new(),
            cover_file: String::new(),
            video_file: String::new(),
            effect_file: String::new(),
            storyboard_file: String::new(),
            metadata: Metadata::default(),
            colors: Colors::default(),
            hit_objects: Vec::new(),
            timing_points,
            scroll_velocities: Vec::new(),
            hit_sound_fades: Vec::new(),
            accuracy_difficulty: Some(8000),
            health_difficulty: Some(8000),
            dual_mode: Some(DualMode::Disabled),
            new_lane_switch_layout: Some(false),
            time_in_editor: Some(0),
            extra_playfields: Some(0),
        }
    }

    pub fn is_dual(&self) -> (b: bool)
        ensures
            b == (self.dual_mode == Some(DualMode::Enabled) || self.dual_mode == Some(
                DualMode::Separate,
            )),
    {
        match self.dual_mode {
            Some(DualMode::Enabled) => true,
            Some(DualMode::Separate) => true,
            _ => false,
        }
    }

    pub fn is_split(&self) -> (b: bool)
        ensures
            b == (self.dual_mode == Some(DualMode::Separate)),
    {
        match self.dual_mode {
            Some(DualMode::Separate) => true,
            _ => false,
        }
    }

    /// The time of the first note in the file; 0 where there is none.
    pub fn start_time(&self) -> (t: i32)
        ensures
            t == if self.hit_objects@.len() == 0 {
                0
            } else {
                self.hit_objects@[0].time
            },
    {
        if self.hit_objects.len() == 0 {
            0
        } else {
            self.hit_objects[0].time
        }
    }

    /// The time at which the last note is released; 0 where there is none.
    pub fn end_time(&self) -> (t: i64)
        ensures
            t == latest_end(self.hit_objects@),
    {
        let n = self.hit_objects.len();
        if n == 0 {
            return 0;
        }
        let mut best: i64 = self.hit_objects[0].end_time();
        let mut i: usize = 1;
        assert(self.hit_objects@.subrange(0, 1).len() == 1);
        while i < n
            invariant
                1 <= i <= n,
                n == self.hit_objects@.len(),
                best == latest_end(self.hit_objects@.subrange(0, i as int)),
            decreases n - i,
        {
            assert(self.hit_objects@.subrange(0, i + 1).drop_last()
                =~= self.hit_objects@.subrange(0, i as int));
            let e = self.hit_objects[i].end_time();
            if e >= best {
                best = e;
            }
            i += 1;
        }
        assert(self.hit_objects@.subrange(0, i as int) =~= self.hit_objects@);
        best
    }

    pub fn max_combo(&self) -> (c: u128)
        ensures
            c == combo_total(self.hit_objects@),
    {
        let n = self.hit_objects.len();
        let mut c: u128 = 0;
        let mut i: usize = 0;
        while i < n
            invariant
                i <= n,
                n == self.hit_objects@.len(),
                c == combo_total(self.hit_objects@.subrange(0, i as int)),
            decreases n - i,
        {
            proof {
                lemma_combo_total_bound(self.hit_objects@.subrange(0, i as int));
                assert(self.hit_objects@.subrange(0, i + 1).drop_last()
                    =~= self.hit_objects@.subrange(0, i as int));
            }
            c = c + 1;
            if self.hit_objects[i].is_ln() {
                c = c + 1;
            }
            i += 1;
        }
        assert(self.hit_objects@.subrange(0, i as int) =~= self.hit_objects@);
        c
    }

    /// The lane count: the highest lane of a note, or 4 where there is no
    /// note.
    pub fn key_count(&self) -> (k: isize)
        ensures
            k == highest_lane(self.hit_objects@, 4),
    {
        let n = self.hit_objects.len();
        if n == 0 {
            return 4;
        }
        let mut best: isize = self.hit_objects[0].lane;
        let mut i: usize = 1;
        assert(self.hit_objects@.subrange(0, 1).len() == 1);
        while i < n
            invariant
                1 <= i <= n,
                n == self.hit_objects@.len(),
                best == highest_lane(self.hit_objects@.subrange(0, i as int), 4),
            decreases n - i,
        {
            assert(self.hit_objects@.subrange(0, i + 1).drop_last()
                =~= self.hit_objects@.subrange(0, i as int));
            let lane = self.hit_objects[i].lane;
            if lane > best {
                best = lane;
            }
            i += 1;
        }
        assert(self.hit_objects@.subrange(0, i as int) =~= self.hit_objects@);
        best
    }

    /// Some note lies in a lane below 1.
    pub open spec fn has_lane_below_one(&self) -> bool {
        exists|i: int|
            0 <= i < self.hit_objects@.len() && (#[trigger] self.hit_objects@[i]).lane
                < MIN_KEYMODE
    }

    /// What is wrong with the file, if anything: the first of the rules that
    /// it breaks, in words. A file is in order when it has notes and timing
    /// points, every timing point has a positive tempo and a signature, and
    /// every note lies in lane 1 or above.
    pub open spec fn complaint(&self) -> Option<Seq<char>> {
        if self.hit_objects@.len() == 0 {
            Some("Map has no hit objects."@)
        } else if self.timing_points@.len() == 0 {
            Some("Map has no timing points."@)
        } else if timing_complaint(self.timing_points@) is Some {
            timing_complaint(self.timing_points@)
        } else if self.has_lane_below_one() {
            Some("A hit object in this map is in a lane below 1."@)
        } else {
            None
        }
    }

    pub fn validate(&self) -> (r: Result<(), String>)
        ensures
            match self.complaint() {
                Some(m) => r is Err && r->Err_0@ == m,
                None => r is Ok,
            },
    {
        if self.hit_objects.len() == 0 {
            return Err("Map has no hit objects.".to_owned());
        }
        if self.timing_points.len() == 0 {
            return Err("Map has no timing points.".to_owned());
        }
        let m = self.timing_points.len();
        let mut i: usize = 0;
        assert(self.timing_points@.subrange(0, m as int) =~= self.timing_points@);
        while i < m
            invariant
                i <= m,
                m == self.timing_points@.len(),
                self.hit_objects@.len() > 0,
                timing_complaint(self.timing_points@) == timing_complaint(
                    self.timing_points@.subrange(i as int, m as int),
                ),
            decreases m - i,
        {
            let p = self.timing_points[i];
            assert(self.timing_points@.subrange(i as int, m as int).drop_first()
                =~= self.timing_points@.subrange(i + 1, m as int));
            assert(self.timing_points@.subrange(i as int, m as int)[0] == p);
            if p.bpm <= 0 {
                return Err("A timing point has an invalid BPM.".to_owned());
            }
            if p.signature == 0 {
                return Err("A timing point has an invalid signature.".to_owned());
            }
            i += 1;
        }
        let n = self.hit_objects.len();
        let mut j: usize = 0;
        while j < n
            invariant
                j <= n,
                n == self.hit_objects@.len(),
                n > 0,
                self.timing_points@.len() > 0,
                timing_complaint(self.timing_points@) is None,
                forall|k: int| 0 <= k < j ==> (#[trigger] self.hit_objects@[k]).lane >= 1,
            decreases n - j,
        {
            if self.hit_objects[j].lane < MIN_KEYMODE {
                assert(self.hit_objects@[j as int].lane < MIN_KEYMODE);
                return Err("A hit object in this map is in a lane below 1.".to_owned());
            }
            j += 1;
        }
        Ok(())
    }

    fn positions(&self, kind: u8) -> (found: Vec<usize>)
        ensures
            found@ == positions_of(self.hit_objects@, kind as int),
    {
        let mut found: Vec<usize> = Vec::new();
        let mut i: usize = 0;
        while i < self.hit_objects.len()
            invariant
                i <= self.hit_objects.len(),
                found@ == positions_of(self.hit_objects@.subrange(0, i as int), kind as int),
            decreases self.hit_objects.len() - i,
        {
            assert(self.hit_objects@.subrange(0, i + 1).drop_last()
                =~= self.hit_objects@.subrange(0, i as int));
            let h = &self.hit_objects[i];
            let k: u8 = if h.is_normal() {
                0
            } else if h.is_ln() {
                1
            } else if h.is_tick() {
                2
            } else {
                3
            };
            if k == kind {
                found.push(i);
            }
            i += 1;
        }
        assert(self.hit_objects@.subrange(0, i as int) =~= self.hit_objects@);
        found
    }

    /// The positions of the normal notes among the notes of the file.
    pub fn get_normal_notes(&self) -> (found: Vec<usize>)
        ensures
            found@ == positions_of(self.hit_objects@, 0),
    {
        self.positions(0)
    }

    /// The positions of the long notes among the notes of the file.
    pub fn get_long_notes(&self) -> (found: Vec<usize>)
        ensures
            found@ == positions_of(self.hit_objects@, 1),
    {
        self.positions(1)
    }

    /// The positions of the tick notes among the notes of the file.
    pub fn get_tick_notes(&self) -> (found: Vec<usize>)
        ensures
            found@ == positions_of(self.hit_objects@, 2),
    {
        self.positions(2)
    }
}

impl Default for FscFile {
    fn default() -> (f: Self)
        ensures
            f.is_new(),
    {
        Self::new()
    }
}

} // verus!
