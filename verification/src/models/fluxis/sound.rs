//! Fades of the hit sound volume. All four values are in thousandths.

use vstd::prelude::*;

verus! {

#[derive(Debug, Clone, Copy, PartialEq, Eq, Structural)]
pub struct HitSoundFade {
    pub time: i64,
    pub volume: i64,
    pub fade_in: i64,
    pub fade_out: i64,
}

} // verus!
