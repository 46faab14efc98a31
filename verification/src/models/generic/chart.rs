//! The canonical chart and the queries that every writer needs.

use vstd::prelude::*;
use crate::errors::ChartError;
use crate::models::common::{KeyType, TimingChangeType};
use crate::models::generic::chartinfo::ChartInfo;
use crate::models::generic::hitobjects::{HitObject, HitObjects};
use crate::models::generic::metadata::Metadata;
use crate::models::generic::sound::SoundBank;
use crate::models::generic::timing_points::{TimingPoint, TimingPoints};

verus! {

/// The last moment of a note: for the start of a long note whose end is
/// known and later than its start, that end; otherwise the note's own time.
pub open spec fn note_end(h: HitObject) -> int {
    if h.key.key_type == KeyType::SliderStart && h.key.slider_end_time is Some
        && h.key.slider_end_time->0 > h.time {
        h.key.slider_end_time->0 as int
    } else {
        h.time as int
    }
}

/// What a note adds to the combo: a tap adds one, a long note two (its start
/// and its release), anything else nothing.
pub open spec fn combo_of(h: HitObject) -> int {
    match h.key.key_type {
        KeyType::Normal => 1,
        KeyType::SliderStart => 2,
        _ => 0,
    }
}

pub open spec fn combo_sum(s: Seq<HitObject>) -> int
    decreases s.len(),
{
    if s.len() == 0 {
        0
    } else {
        combo_sum(s.drop_last()) + combo_of(s.last())
    }
}

/// The highest lane among `s`; 0 for no notes.
pub open spec fn max_lane(s: Seq<HitObject>) -> int
    decreases s.len(),
{
    if s.len() == 0 {
        0
    } else if s.last().lane > max_lane(s.drop_last()) {
        s.last().lane as int
    } else {
        max_lane(s.drop_last())
    }
}

pub proof fn lemma_combo_sum_bound(s: Seq<HitObject>)
    ensures
        0 <= combo_sum(s) <= 2 * s.len(),
    decreases s.len(),
{
    if s.len() > 0 {
        lemma_combo_sum_bound(s.drop_last());
    }
}

/// The one object that passes between parsers and writers.
#[derive(Debug, Clone)]
pub struct GenericManiaChart {
    pub metadata: Metadata,
    pub chartinfo: ChartInfo,
    pub timing_points: TimingPoints,
    pub hitobjects: HitObjects,
    pub soundbank: Option<SoundBank>,
}

impl GenericManiaChart {
    pub open spec fn notes(&self) -> Seq<HitObject> {
        self.hitobjects.objects@
    }

    pub open spec fn timings(&self) -> Seq<TimingPoint> {
        self.timing_points.points@
    }

    pub fn new(
        metadata: Metadata,
        chartinfo: ChartInfo,
        timing_points: TimingPoints,
        hitobjects: HitObjects,
        soundbank: Option<SoundBank>,
    ) -> (chart: Self)
        ensures
            chart.metadata == metadata,
            chart.chartinfo == chartinfo,
            chart.timing_points == timing_points,
            chart.hitobjects == hitobjects,
            chart.soundbank == soundbank,
    {
        Self { metadata, chartinfo, timing_points, hitobjects, soundbank }
    }

    /// The time of the earliest note; `None` for a chart without notes.
    pub fn start_time(&self) -> (t: Option<i32>)
        ensures
            t is None <==> self.notes().len() == 0,
            t is Some ==> {
                &&& exists|i: int| 0 <= i < self.notes().len() && self.notes()[i].time == t->0
                &&& forall|i: int| 0 <= i < self.notes().len() ==> t->0 <= self.notes()[i].time
            },
    {
        let n = self.hitobjects.objects.len();
        if n == 0 {
            return None;
        }
        let mut best: i32 = self.hitobjects.objects[0].time;
        let mut i: usize = 1;
        while i < n
            invariant
                1 <= i <= n,
                n == self.notes().len(),
                exists|k: int| 0 <= k < i && self.notes()[k].time == best,
                forall|k: int| 0 <= k < i ==> best <= self.notes()[k].time,
            decreases n - i,
        {
            let t = self.hitobjects.objects[i].time;
            if t < best {
                best = t;
            }
            i += 1;
        }
        Some(best)
    }

    /// The last moment of the chart: the latest note time, where a long note
    /// counts with its end. `None` for a chart without notes.
    pub fn end_time(&self) -> (t: Option<i32>)
        ensures
            t is None <==> self.notes().len() == 0,
            t is Some ==> {
                &&& exists|i: int| 0 <= i < self.notes().len() && note_end(self.notes()[i]) == t->0
                &&& forall|i: int| 0 <= i < self.notes().len() ==> t->0 >= note_end(self.notes()[i])
            },
    {
        let n = self.hitobjects.objects.len();
        if n == 0 {
            return None;
        }
        let mut best: i32 = end_of(&self.hitobjects.objects[0]);
        let mut i: usize = 1;
        while i < n
            invariant
                1 <= i <= n,
                n == self.notes().len(),
                exists|k: int| 0 <= k < i && note_end(self.notes()[k]) == best,
                forall|k: int| 0 <= k < i ==> best >= note_end(self.notes()[k]),
            decreases n - i,
        {
            let t = end_of(&self.hitobjects.objects[i]);
            if t > best {
                best = t;
            }
            i += 1;
        }
        Some(best)
    }

    /// The highest combo a player can reach: one per tap and two per long
    /// note.
    pub fn max_combo(&self) -> (c: u128)
        ensures
            c == combo_sum(self.notes()),
    {
        let n = self.hitobjects.objects.len();
        let mut c: u128 = 0;
        let mut i: usize = 0;
        while i < n
            invariant
                i <= n,
                n == self.notes().len(),
                c == combo_sum(self.notes().subrange(0, i as int)),
            decreases n - i,
        {
            proof {
                lemma_combo_sum_bound(self.notes().subrange(0, i as int));
                assert(self.notes().subrange(0, i + 1).drop_last() =~= self.notes().subrange(
                    0,
                    i as int,
                ));
            }
            match self.hitobjects.objects[i].key.key_type {
                KeyType::Normal => {
                    c = c + 1;
                },
                KeyType::SliderStart => {
                    c = c + 2;
                },
                _ => {},
            }
            i += 1;
        }
        assert(self.notes().subrange(0, i as int) =~= self.notes());
        c
    }

    /// The lane count: the declared one, or where none is declared the
    /// highest lane that a note uses.
    pub open spec fn lanes(&self) -> int {
        if self.chartinfo.key_count > 0 {
            self.chartinfo.key_count as int
        } else {
            max_lane(self.notes())
        }
    }

    pub fn key_count(&self) -> (k: u8)
        ensures
            k == self.lanes(),
    {
        if self.chartinfo.key_count > 0 {
            return self.chartinfo.key_count;
        }
        let n = self.hitobjects.objects.len();
        let mut k: u8 = 0;
        let mut i: usize = 0;
        while i < n
            invariant
                i <= n,
                n == self.notes().len(),
                k == max_lane(self.notes().subrange(0, i as int)),
            decreases n - i,
        {
            proof {
                assert(self.notes().subrange(0, i + 1).drop_last() =~= self.notes().subrange(
                    0,
                    i as int,
                ));
            }
            let lane = self.hitobjects.objects[i].lane;
            if lane > k {
                k = lane;
            }
            i += 1;
        }
        assert(self.notes().subrange(0, i as int) =~= self.notes());
        k
    }

    /// Some tempo change has a tempo that is not strictly positive.
    pub open spec fn has_bad_tempo(&self) -> bool {
        exists|i: int|
            0 <= i < self.timings().len() && (#[trigger] self.timings()[i]).is_bpm()
                && self.timings()[i].change.value <= 0
    }

    /// Some note lies outside the lanes `1..=lanes()`.
    pub open spec fn has_bad_lane(&self) -> bool {
        exists|i: int|
            0 <= i < self.notes().len() && !(1 <= (#[trigger] self.notes()[i]).lane
                <= self.lanes())
    }

    /// The first rule that the chart breaks, in the order in which `validate`
    /// checks them.
    pub open spec fn violation(&self) -> Option<ChartError> {
        if self.notes().len() == 0 || self.timings().len() == 0 {
            Some(ChartError::EmptyChart)
        } else if self.has_bad_tempo() {
            Some(ChartError::InvalidTempo)
        } else if self.has_bad_lane() {
            Some(ChartError::LaneOutOfRange)
        } else {
            None
        }
    }

    /// Checks the chart's structure: it has notes and timing changes, every
    /// tempo is positive, and every note lies in a lane that exists.
    pub fn validate(&self) -> (r: Result<(), ChartError>)
        ensures
            r == match self.violation() {
                Some(e) => Err::<(), ChartError>(e),
                None => Ok(()),
            },
    {
        if self.hitobjects.objects.len() == 0 || self.timing_points.points.len() == 0 {
            return Err(ChartError::EmptyChart);
        }
        let m = self.timing_points.points.len();
        let mut i: usize = 0;
        while i < m
            invariant
                i <= m,
                m == self.timings().len(),
                self.notes().len() > 0,
                forall|k: int|
                    0 <= k < i ==> !((#[trigger] self.timings()[k]).is_bpm()
                        && self.timings()[k].change.value <= 0),
            decreases m - i,
        {
            let p = self.timing_points.points[i];
            let is_bpm = match p.change.change_type {
                TimingChangeType::Bpm => true,
                _ => false,
            };
            if is_bpm && p.change.value <= 0 {
                assert(self.timings()[i as int].is_bpm());
                return Err(ChartError::InvalidTempo);
            }
            i += 1;
        }
        let lanes = self.key_count();
        let n = self.hitobjects.objects.len();
        let mut j: usize = 0;
        while j < n
            invariant
                j <= n,
                n == self.notes().len(),
                n > 0,
                self.timings().len() > 0,
                lanes == self.lanes(),
                !self.has_bad_tempo(),
                forall|k: int| 0 <= k < j ==> 1 <= (#[trigger] self.notes()[k]).lane <= lanes,
            decreases n - j,
        {
            let lane = self.hitobjects.objects[j].lane;
            if lane < 1 || lane > lanes {
                assert(!(1 <= self.notes()[j as int].lane <= self.lanes()));
                return Err(ChartError::LaneOutOfRange);
            }
            j += 1;
        }
        Ok(())
    }
}

fn end_of(h: &HitObject) -> (t: i32)
    ensures
        t == note_end(*h),
{
    match h.key.key_type {
        KeyType::SliderStart => match h.key.slider_end_time {
            Some(e) => if e > h.time {
                e
            } else {
                h.time
            },
            None => h.time,
        },
        _ => h.time,
    }
}

} // verus!
