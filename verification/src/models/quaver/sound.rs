//! Samples and the sounds that refer to them. Samples are numbered from 1.

use vstd::prelude::*;

verus! {

#[derive(Debug, Clone)]
pub struct AudioSample {
    pub path: String,
}

#[derive(Debug, Clone, Copy, PartialEq, Eq, Structural)]
pub struct SoundEffect {
    pub start_time: i32,
    pub sample: usize,
    pub volume: u8,
}

#[derive(Debug, Clone, Copy, PartialEq, Eq, Structural)]
pub struct KeySound {
    pub sample: usize,
    pub volume: u8,
}

/// A volume of 100 or more is the full volume, which a file leaves out.
pub fn is_full_volume(volume: u8) -> (b: bool)
    ensures
        b == (volume >= 100),
{
    volume >= 100
}

} // verus!
