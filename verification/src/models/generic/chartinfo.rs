//! The numeric and path fields of a chart.

use vstd::prelude::*;

verus! {

/// `od` and `hp` are difficulty scalars in thousandths. `key_count` is the
/// lane count the format declared, or 0 where it declared none.
#[derive(Debug, Clone)]
pub struct ChartInfo {
    pub difficulty_name: String,
    pub od: i64,
    pub hp: i64,
    pub bg_path: String,
    pub video_path: String,
    pub song_path: String,
    pub audio_offset: i32,
    pub preview_time: i32,
    pub key_count: u8,
}

impl ChartInfo {
    pub open spec fn is_blank(&self) -> bool {
        &&& self.difficulty_name@.len() == 0
        &&& self.od == 0
        &&& self.hp == 0
        &&& self.bg_path@.len() == 0
        &&& self.video_path@.len() == 0
        &&& self.song_path@.len() == 0
        &&& self.audio_offset == 0
        &&& self.preview_time == 0
        &&& self.key_count == 0
    }

    /// Chart info with empty paths, zero offsets and no declared lane count.
    pub fn empty() -> (c: Self)
        ensures
            c.is_blank(),
    {
        ChartInfo {
            difficulty_name: String::new(),
            od: 0,
            hp: 0,
            bg_path: String::new(),
            video_path: String::new(),
            song_path: String::new(),
            audio_offset: 0,
            preview_time: 0,
            key_count: 0,
        }
    }
}

} // verus!
