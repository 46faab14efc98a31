//! Tempo changes and scroll velocities.

use vstd::prelude::*;

verus! {

/// A tempo change; `bpm` in thousandths of a beat per minute.
#[derive(Debug, Clone, Copy, PartialEq, Eq, Structural)]
pub struct TimingPoint {
    pub time: i32,
    pub bpm: i64,
    pub signature: u32,
    pub hide_lines: bool,
}

/// A scroll velocity; `multiplier` in thousandths.
#[derive(Debug, Clone)]
pub struct ScrollVelocity {
    pub time: i32,
    pub multiplier: i64,
    pub groups: Option<Vec<String>>,
}

/// The groups that a scroll velocity applies to when none are named.
pub open spec fn default_groups() -> Seq<Seq<char>> {
    seq!["$1"@, "$2"@, "$3"@, "$4"@]
}

fn all_groups() -> (g: Vec<String>)
    ensures
        g.deep_view() == default_groups(),
{
    let mut g: Vec<String> = Vec::new();
    g.push("$1".to_owned());
    g.push("$2".to_owned());
    g.push("$3".to_owned());
    g.push("$4".to_owned());
    assert(g.deep_view() =~= default_groups());
    g
}

impl TimingPoint {
    pub fn new(time: i32, bpm: i64, signature: u32) -> (p: Self)
        ensures
            p == (TimingPoint { time, bpm, signature, hide_lines: false }),
    {
        TimingPoint { time, bpm, signature, hide_lines: false }
    }
}

impl Default for TimingPoint {
    /// 120 beats per minute in common time, from time 0.
    fn default() -> (p: Self)
        ensures
            p == (TimingPoint { time: 0, bpm: 120_000, signature: 4, hide_lines: false }),
    {
        Self { time: 0, bpm: 120_000, signature: 4, hide_lines: false }
    }
}

impl ScrollVelocity {
    pub fn new(time: i32, multiplier: i64) -> (v: Self)
        ensures
            v.time == time,
            v.multiplier == multiplier,
            v.groups is Some,
            v.groups->0.deep_view() == default_groups(),
    {
        ScrollVelocity { time, multiplier, groups: Some(all_groups()) }
    }
}

impl Default for ScrollVelocity {
    fn default() -> (v: Self)
        ensures
            v.time == 0,
            v.multiplier == 1000,
            v.groups is Some,
            v.groups->0.deep_view() == default_groups(),
    {
        Self { time: 0, multiplier: 1000, groups: Some(all_groups()) }
    }
}

} // verus!
