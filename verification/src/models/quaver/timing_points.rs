//! Tempo changes and scroll velocities.

use vstd::prelude::*;

verus! {

/// A tempo change; `bpm` in thousandths of a beat per minute.
#[derive(Debug, Clone, Copy, PartialEq, Eq, Structural)]
pub struct TimingPoint {
    pub start_time: i32,
    pub bpm: i64,
}

/// A scroll velocity; `multiplier` in thousandths, 1000 where the file names
/// none.
#[derive(Debug, Clone, Copy, PartialEq, Eq, Structural)]
pub struct SliderVelocity {
    pub start_time: i32,
    pub multiplier: Option<i64>,
}

} // verus!
