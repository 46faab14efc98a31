//! Sample sets and the sample of a hit object.

use vstd::prelude::*;
use crate::utils::numbers::{nat_in_range, read_nat, read_u8, DIGITS_LIMIT};
use crate::utils::text::{append_decimal, chars_of, decimal, split, split_range, string_of};

verus! {

#[derive(Debug, Clone, Copy, PartialEq, Eq, Structural)]
pub enum SampleSet {
    Normal,
    Soft,
    Drum,
}

impl SampleSet {
    pub open spec fn name(self) -> Seq<char> {
        match self {
            SampleSet::Normal => "Normal"@,
            SampleSet::Soft => "Soft"@,
            SampleSet::Drum => "Drum"@,
        }
    }

    /// The sample set of a name.
    pub open spec fn named(s: Seq<char>) -> Option<SampleSet> {
        if s == "Normal"@ {
            Some(SampleSet::Normal)
        } else if s == "Soft"@ {
            Some(SampleSet::Soft)
        } else if s == "Drum"@ {
            Some(SampleSet::Drum)
        } else {
            None
        }
    }

    pub fn from_str(s: &str) -> (r: Result<SampleSet, String>)
        ensures
            match Self::named(s@) {
                Some(set) => r == Ok::<SampleSet, String>(set),
                None => r is Err && r->Err_0@ == "Invalid SampleSet: "@ + s@,
            },
    {
        let owned = s.to_owned();
        if owned == "Normal".to_owned() {
            Ok(SampleSet::Normal)
        } else if owned == "Soft".to_owned() {
            Ok(SampleSet::Soft)
        } else if owned == "Drum".to_owned() {
            Ok(SampleSet::Drum)
        } else {
            let mut m = String::new();
            m.append("Invalid SampleSet: ");
            m.append(s);
            assert(m@ =~= "Invalid SampleSet: "@ + s@);
            Err(m)
        }
    }

    pub fn to_string(&self) -> (s: String)
        ensures
            s@ == self.name(),
    {
        match self {
            SampleSet::Normal => "Normal".to_owned(),
            SampleSet::Soft => "Soft".to_owned(),
            SampleSet::Drum => "Drum".to_owned(),
        }
    }
}

/// The sample that a hit object plays.
#[derive(Debug, Clone)]
pub struct HitSample {
    pub normal_set: u8,
    pub addition_set: u8,
    pub index: usize,
    pub volume: u8,
    pub filename: String,
}

/// The largest sample index that is read from text.
pub open spec fn index_limit() -> int {
    if usize::MAX < DIGITS_LIMIT {
        usize::MAX as int
    } else {
        DIGITS_LIMIT as int
    }
}

/// The number that a text writes, or 0 if it writes none of at most `hi`.
pub open spec fn nat_or_zero(s: Seq<char>, hi: int) -> int {
    match nat_in_range(s, hi) {
        Some(n) => n,
        None => 0,
    }
}

impl Default for HitSample {
    fn default() -> (h: Self)
        ensures
            h.is_silent(),
    {
        Self { normal_set: 0, addition_set: 0, index: 0, volume: 0, filename: String::new() }
    }
}

impl HitSample {
    /// All numbers 0 and no file.
    pub open spec fn is_silent(&self) -> bool {
        &&& self.normal_set == 0
        &&& self.addition_set == 0
        &&& self.index == 0
        &&& self.volume == 0
        &&& self.filename@.len() == 0
    }

    /// `self` is what `s` reads as: four numbers and optionally a file name,
    /// with colons between, where a number that cannot be read counts as 0;
    /// with fewer than four parts, the silent sample.
    pub open spec fn reads_from(&self, s: Seq<char>) -> bool {
        let parts = split(s, ':');
        if parts.len() < 4 {
            self.is_silent()
        } else {
            &&& self.normal_set == nat_or_zero(parts[0], 255)
            &&& self.addition_set == nat_or_zero(parts[1], 255)
            &&& self.index == nat_or_zero(parts[2], index_limit())
            &&& self.volume == nat_or_zero(parts[3], 255)
            &&& self.filename@ == if parts.len() > 4 {
                parts[4]
            } else {
                Seq::empty()
            }
        }
    }

    /// Reads a sample. Nothing that this function is given is an error.
    pub fn from_str(s: &str) -> (r: Result<HitSample, String>)
        ensures
            r is Ok,
            r->Ok_0.reads_from(s@),
    {
        let v = chars_of(s);
        assert(v@.subrange(0, v@.len() as int) =~= v@);
        let parts = split_range(&v, 0, v.len(), ':');
        Ok(Self::from_parts(&parts, Ghost(s@)))
    }

    /// Reads a sample from the parts of its text.
    pub(crate) fn from_parts(parts: &Vec<Vec<char>>, Ghost(s): Ghost<Seq<char>>) -> (h: HitSample)
        requires
            parts.deep_view() == split(s, ':'),
        ensures
            h.reads_from(s),
    {
        if parts.len() < 4 {
            return HitSample::default();
        }
        proof {
            assert forall|k: int| 0 <= k < parts@.len() implies #[trigger] parts.deep_view()[k]
                == parts@[k]@ by {
                assert(parts@[k].deep_view() =~= parts@[k]@);
            }
            assert(parts@[0]@.subrange(0, parts@[0]@.len() as int) =~= parts@[0]@);
            assert(parts@[1]@.subrange(0, parts@[1]@.len() as int) =~= parts@[1]@);
            assert(parts@[2]@.subrange(0, parts@[2]@.len() as int) =~= parts@[2]@);
            assert(parts@[3]@.subrange(0, parts@[3]@.len() as int) =~= parts@[3]@);
        }
        let normal_set = match read_u8(&parts[0], 0, parts[0].len()) {
            Some(n) => n,
            None => 0,
        };
        let addition_set = match read_u8(&parts[1], 0, parts[1].len()) {
            Some(n) => n,
            None => 0,
        };
        let limit: u64 = if (usize::MAX as u64) < DIGITS_LIMIT {
            usize::MAX as u64
        } else {
            DIGITS_LIMIT
        };
        let index = match read_nat(&parts[2], 0, parts[2].len(), limit) {
            Some(n) => n as usize,
            None => 0,
        };
        let volume = match read_u8(&parts[3], 0, parts[3].len()) {
            Some(n) => n,
            None => 0,
        };
        let filename = if parts.len() > 4 {
            assert(parts@[4]@.subrange(0, parts@[4]@.len() as int) =~= parts@[4]@);
            string_of(&parts[4], 0, parts[4].len())
        } else {
            String::new()
        };
        HitSample { normal_set, addition_set, index, volume, filename }
    }

    /// The five fields with colons between.
    pub open spec fn text(&self) -> Seq<char> {
        decimal(self.normal_set as int) + ":"@ + decimal(self.addition_set as int) + ":"@
            + decimal(self.index as int) + ":"@ + decimal(self.volume as int) + ":"@
            + self.filename@
    }

    pub fn to_osu_format(&self) -> (s: String)
        ensures
            s@ == self.text(),
    {
        let mut s = String::new();
        append_decimal(&mut s, self.normal_set as i64);
        s.append(":");
        append_decimal(&mut s, self.addition_set as i64);
        s.append(":");
        let ghost before = s@;
        if self.index as u64 > i64::MAX as u64 {
            crate::utils::text::append_decimal_nat(&mut s, self.index as u64);
        } else {
            append_decimal(&mut s, self.index as i64);
        }
        assert(s@ == before + decimal(self.index as int));
        s.append(":");
        append_decimal(&mut s, self.volume as i64);
        s.append(":");
        s.append(self.filename.as_str());
        assert(s@ =~= self.text());
        s
    }
}

} // verus!
