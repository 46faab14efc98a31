//! Key sounds, and the bank of samples that a chart owns.

use vstd::prelude::*;

verus! {

#[derive(Debug, Clone, Copy, PartialEq, Eq, Structural)]
pub enum HitSoundType {
    Normal,
    Clap,
    Whistle,
    Finish,
}

/// The sound of one note. `sample` is an index into the chart's sound bank.
#[derive(Debug, Clone, Copy, PartialEq, Eq, Structural)]
pub struct KeySound {
    pub volume: u8,
    pub hitsound_type: HitSoundType,
    pub sample: Option<usize>,
    pub has_custom: bool,
}

impl Default for KeySound {
    fn default() -> (k: Self)
        ensures
            k == KeySound::plain(100, HitSoundType::Normal),
    {
        KeySound { volume: 100, hitsound_type: HitSoundType::Normal, sample: None, has_custom: false }
    }
}

impl KeySound {
    /// A stock sound without a sample of its own.
    pub open spec fn plain(volume: u8, hitsound_type: HitSoundType) -> Self {
        KeySound { volume, hitsound_type, sample: None, has_custom: false }
    }

    pub fn of_type(volume: u8, hitsound_type: HitSoundType) -> (k: Self)
        ensures
            k == Self::plain(volume, hitsound_type),
    {
        KeySound { volume, hitsound_type, sample: None, has_custom: false }
    }

    /// A sound played from sample `sample` of the bank; the stock sound
    /// defaults to `Normal`.
    pub fn with_custom(volume: u8, sample: usize, hitsound_type: Option<HitSoundType>) -> (k: Self)
        ensures
            k == (KeySound {
                volume,
                hitsound_type: match hitsound_type {
                    Some(h) => h,
                    None => HitSoundType::Normal,
                },
                sample: Some(sample),
                has_custom: true,
            }),
    {
        let h = match hitsound_type {
            Some(h) => h,
            None => HitSoundType::Normal,
        };
        KeySound { volume, hitsound_type: h, sample: Some(sample), has_custom: true }
    }
}

/// A sample played at a fixed time, independent of any note.
#[derive(Debug, Clone, Copy, PartialEq, Eq, Structural)]
pub struct SoundEffect {
    pub time: i32,
    pub volume: u8,
    pub sample: usize,
}

/// The samples of a chart. Notes and effects refer to samples by index; a
/// sample keeps its index for as long as the bank lives.
#[derive(Debug, Clone)]
pub struct SoundBank {
    pub audio_tracks: Vec<String>,
    pub sound_sample_paths: Vec<String>,
    pub sound_effects: Vec<SoundEffect>,
}

/// The first index at which `path` stands in `paths`, or the length if it
/// stands nowhere.
pub open spec fn first_index_of(paths: Seq<Seq<char>>, path: Seq<char>) -> int
    decreases paths.len(),
{
    if paths.len() == 0 {
        0
    } else if paths[0] == path {
        0
    } else {
        1 + first_index_of(paths.drop_first(), path)
    }
}

pub proof fn lemma_first_index_of(paths: Seq<Seq<char>>, path: Seq<char>, i: int)
    requires
        0 <= i <= paths.len(),
        forall|k: int| 0 <= k < i ==> #[trigger] paths[k] != path,
        i < paths.len() ==> paths[i] == path,
    ensures
        first_index_of(paths, path) == i,
    decreases paths.len(),
{
    if paths.len() > 0 && i > 0 {
        assert(paths[0] != path);
        let d = paths.drop_first();
        assert forall|k: int| 0 <= k < i - 1 implies #[trigger] d[k] != path by {
            assert(d[k] == paths[k + 1]);
        }
        lemma_first_index_of(d, path, i - 1);
    }
}

/// Where a path stands in the table, it stands at its first index.
pub proof fn lemma_first_index_holds(paths: Seq<Seq<char>>, path: Seq<char>)
    ensures
        0 <= first_index_of(paths, path) <= paths.len(),
        first_index_of(paths, path) < paths.len() ==> paths[first_index_of(paths, path)] == path,
    decreases paths.len(),
{
    if paths.len() > 0 && paths[0] != path {
        lemma_first_index_holds(paths.drop_first(), path);
    }
}

impl SoundBank {
    pub open spec fn samples(&self) -> Seq<Seq<char>> {
        self.sound_sample_paths.deep_view()
    }

    pub fn new() -> (b: Self)
        ensures
            b.audio_tracks@.len() == 0,
            b.sound_sample_paths@.len() == 0,
            b.sound_effects@.len() == 0,
    {
        SoundBank {
            audio_tracks: Vec::new(),
            sound_sample_paths: Vec::new(),
            sound_effects: Vec::new(),
        }
    }

    /// Registers a sample and returns its index. A path that the bank already
    /// holds keeps the index it has; a new one gets the next free index.
    pub fn add_sound_sample(&mut self, path: String) -> (index: usize)
        ensures
            index == first_index_of(old(self).samples(), path@),
            final(self).samples() == if index < old(self).samples().len() {
                old(self).samples()
            } else {
                old(self).samples().push(path@)
            },
            final(self).audio_tracks == old(self).audio_tracks,
            final(self).sound_effects == old(self).sound_effects,
    {
        let n = self.sound_sample_paths.len();
        let mut i: usize = 0;
        while i < n
            invariant
                i <= n,
                n == self.sound_sample_paths.len(),
                *self == *old(self),
                forall|k: int| 0 <= k < i ==> #[trigger] self.samples()[k] != path@,
            decreases n - i,
        {
            if self.sound_sample_paths[i] == path {
                proof {
                    lemma_first_index_of(self.samples(), path@, i as int);
                }
                return i;
            }
            i += 1;
        }
        proof {
            lemma_first_index_of(self.samples(), path@, n as int);
            assert(self.sound_sample_paths@.push(path).map_values(|s: String| s@)
                =~= self.sound_sample_paths@.map_values(|s: String| s@).push(path@));
        }
        self.sound_sample_paths.push(path);
        n
    }

    pub fn add_sound_effect(&mut self, effect: SoundEffect)
        ensures
            final(self).sound_effects@ == old(self).sound_effects@.push(effect),
            final(self).audio_tracks == old(self).audio_tracks,
            final(self).sound_sample_paths == old(self).sound_sample_paths,
    {
        self.sound_effects.push(effect);
    }

    pub fn get_sample_paths(&self) -> (paths: &Vec<String>)
        ensures
            paths.deep_view() == self.samples(),
    {
        &self.sound_sample_paths
    }

    /// The path of sample `index`, if the bank has that many.
    pub fn get_sound_sample(&self, index: usize) -> (path: Option<String>)
        ensures
            index < self.samples().len() ==> path is Some && path->0@ == self.samples()[index as int],
            index >= self.samples().len() ==> path is None,
    {
        if index < self.sound_sample_paths.len() {
            Some(self.sound_sample_paths[index].clone())
        } else {
            None
        }
    }
}

} // verus!
