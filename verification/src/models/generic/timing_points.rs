//! The tempo and scroll-velocity changes of the canonical chart.

use vstd::prelude::*;
use crate::models::common::TimingChangeType;
use crate::models::ordered::Timed;
use crate::utils::sequences::{lemma_filter_empty, lemma_filter_prefix_step};

verus! {

/// A change of tempo (`value` in thousandths of a beat per minute) or of
/// scroll velocity (`value` a multiplier in thousandths).
#[derive(Debug, Clone, Copy, PartialEq, Eq, Structural)]
pub struct TimingChange {
    pub change_type: TimingChangeType,
    pub value: i64,
}

/// A timing change with the time at which it takes effect and the beat, in
/// ticks, that this time falls on.
#[derive(Debug, Clone, Copy, PartialEq, Eq, Structural)]
pub struct TimingPoint {
    pub time: i32,
    pub beat: i64,
    pub change: TimingChange,
}

impl Timed for TimingPoint {
    open spec fn time_of(&self) -> int {
        self.time as int
    }

    fn time(&self) -> (t: i64) {
        self.time as i64
    }
}

impl TimingPoint {
    pub open spec fn is_bpm(self) -> bool {
        self.change.change_type == TimingChangeType::Bpm
    }

    pub open spec fn is_sv(self) -> bool {
        self.change.change_type == TimingChangeType::Sv
    }
}

/// The tempo changes among `s`, in order.
pub open spec fn bpm_points(s: Seq<TimingPoint>) -> Seq<TimingPoint> {
    s.filter(|p: TimingPoint| p.is_bpm())
}

/// The scroll-velocity changes among `s`, in order.
pub open spec fn sv_points(s: Seq<TimingPoint>) -> Seq<TimingPoint> {
    s.filter(|p: TimingPoint| p.is_sv())
}

pub open spec fn values_of(s: Seq<TimingPoint>) -> Seq<i64> {
    s.map_values(|p: TimingPoint| p.change.value)
}

pub open spec fn times_of(s: Seq<TimingPoint>) -> Seq<i32> {
    s.map_values(|p: TimingPoint| p.time)
}

#[derive(Debug, Clone)]
pub struct TimingPoints {
    pub points: Vec<TimingPoint>,
}

impl TimingPoints {
    pub fn with_capacity(capacity: usize) -> (t: Self)
        ensures
            t.points@.len() == 0,
    {
        Self { points: Vec::with_capacity(capacity) }
    }

    pub fn new(points: Vec<TimingPoint>) -> (t: Self)
        ensures
            t.points == points,
    {
        Self { points }
    }

    pub fn add(&mut self, time: i32, beat: i64, change: TimingChange)
        ensures
            final(self).points@ == old(self).points@.push(TimingPoint { time, beat, change }),
    {
        self.points.push(TimingPoint { time, beat, change });
    }

    pub fn len(&self) -> (n: usize)
        ensures
            n == self.points@.len(),
    {
        self.points.len()
    }

    /// The points of the wanted kind, in order.
    fn select(&self, want_bpm: bool) -> (out: Vec<TimingPoint>)
        ensures
            out@ == if want_bpm {
                bpm_points(self.points@)
            } else {
                sv_points(self.points@)
            },
    {
        let ghost pred = if want_bpm {
            |p: TimingPoint| p.is_bpm()
        } else {
            |p: TimingPoint| p.is_sv()
        };
        let mut out: Vec<TimingPoint> = Vec::new();
        let mut i: usize = 0;
        proof {
            lemma_filter_empty(pred);
            assert(self.points@.subrange(0, 0) =~= Seq::<TimingPoint>::empty());
        }
        while i < self.points.len()
            invariant
                i <= self.points.len(),
                pred == if want_bpm {
                    |p: TimingPoint| p.is_bpm()
                } else {
                    |p: TimingPoint| p.is_sv()
                },
                out@ == self.points@.subrange(0, i as int).filter(pred),
            decreases self.points.len() - i,
        {
            let p = self.points[i];
            let keep = match p.change.change_type {
                TimingChangeType::Bpm => want_bpm,
                TimingChangeType::Sv => !want_bpm,
                TimingChangeType::Stop => false,
            };
            proof {
                lemma_filter_prefix_step(self.points@, i as int, pred);
            }
            if keep {
                out.push(p);
            }
            i += 1;
        }
        assert(self.points@.subrange(0, i as int) =~= self.points@);
        out
    }

    pub fn bpm_changes(&self) -> (out: Vec<TimingPoint>)
        ensures
            out@ == bpm_points(self.points@),
    {
        self.select(true)
    }

    pub fn sv_changes(&self) -> (out: Vec<TimingPoint>)
        ensures
            out@ == sv_points(self.points@),
    {
        self.select(false)
    }

    pub fn is_bpms_empty(&self) -> (b: bool)
        ensures
            b == (bpm_points(self.points@).len() == 0),
    {
        self.select(true).len() == 0
    }

    pub fn is_sv_empty(&self) -> (b: bool)
        ensures
            b == (sv_points(self.points@).len() == 0),
    {
        self.select(false).len() == 0
    }

    /// The tempos, in thousandths of a beat per minute, in order.
    pub fn bpms(&self) -> (out: Vec<i64>)
        ensures
            out@ == values_of(bpm_points(self.points@)),
    {
        values(&self.select(true))
    }

    /// The times at which the tempo changes, in order.
    pub fn bpms_times(&self) -> (out: Vec<i32>)
        ensures
            out@ == times_of(bpm_points(self.points@)),
    {
        let sel = self.select(true);
        let mut out: Vec<i32> = Vec::new();
        let mut i: usize = 0;
        while i < sel.len()
            invariant
                i <= sel.len(),
                out@ == times_of(sel@.subrange(0, i as int)),
            decreases sel.len() - i,
        {
            out.push(sel[i].time);
            i += 1;
            assert(out@ =~= times_of(sel@.subrange(0, i as int)));
        }
        assert(sel@.subrange(0, i as int) =~= sel@);
        out
    }

    /// The scroll-velocity multipliers, in thousandths, in order.
    pub fn sv(&self) -> (out: Vec<i64>)
        ensures
            out@ == values_of(sv_points(self.points@)),
    {
        values(&self.select(false))
    }
}

fn values(sel: &Vec<TimingPoint>) -> (out: Vec<i64>)
    ensures
        out@ == values_of(sel@),
{
    let mut out: Vec<i64> = Vec::new();
    let mut i: usize = 0;
    while i < sel.len()
        invariant
            i <= sel.len(),
            out@ == values_of(sel@.subrange(0, i as int)),
        decreases sel.len() - i,
    {
        out.push(sel[i].change.value);
        i += 1;
        assert(out@ =~= values_of(sel@.subrange(0, i as int)));
    }
    assert(sel@.subrange(0, i as int) =~= sel@);
    out
}

} // verus!
