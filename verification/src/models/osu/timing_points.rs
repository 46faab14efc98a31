//! The `[TimingPoints]` section.

use vstd::prelude::*;
use crate::models::fluxis::hitobjects::{clamp_to_i32, clamped};
use crate::models::ordered::{is_stable_sort_of, stable_sort, Timed};
use crate::utils::numbers::{
    append_fixed, fixed_in_range, fixed_text, int_in_range, read_fixed, read_i32,
};
use crate::utils::sections::{counts, line_counts, read_lines, trimmed_lines};
use crate::utils::sequences::{lemma_filter_empty, lemma_filter_prefix_step};
use crate::utils::text::{
    append_decimal, chars_of, decimal, join, joined, split, split_range, string_of,
};

verus! {

/// A timing point. `time` is in thousandths of a millisecond. `beat_length`
/// is in thousandths too: for an uninherited point the milliseconds of one
/// beat, for an inherited one minus one hundred over the scroll velocity.
#[derive(Debug, Clone, Copy, PartialEq, Eq, Structural)]
pub struct TimingPoint {
    pub time: i64,
    pub beat_length: i64,
    pub meter: i32,
    pub sample_set: i32,
    pub sample_index: i32,
    pub volume: i32,
    pub uninherited: bool,
    pub effects: i32,
}

impl Timed for TimingPoint {
    open spec fn time_of(&self) -> int {
        self.time as int
    }

    fn time(&self) -> (t: i64) {
        self.time
    }
}

/// The message for a field of a line that cannot be read.
pub open spec fn invalid_field(name: Seq<char>, value: Seq<char>) -> Seq<char> {
    "Invalid "@ + name + " value: "@ + value
}

/// The message for a line with the wrong number of fields.
pub open spec fn wrong_count(wanted: Seq<char>, found: int) -> Seq<char> {
    "Expected "@ + wanted + " comma-separated values, found "@ + decimal(found)
}

pub fn invalid_field_message(name: &str, value: &Vec<char>) -> (m: String)
    ensures
        m@ == invalid_field(name@, value@),
{
    let mut m = String::new();
    m.append("Invalid ");
    m.append(name);
    m.append(" value: ");
    assert(value@.subrange(0, value@.len() as int) =~= value@);
    m.append(string_of(value, 0, value.len()).as_str());
    assert(m@ =~= invalid_field(name@, value@));
    m
}

pub fn wrong_count_message(wanted: &str, found: usize) -> (m: String)
    ensures
        m@ == wrong_count(wanted@, found as int),
{
    let mut m = String::new();
    m.append("Expected ");
    m.append(wanted);
    m.append(" comma-separated values, found ");
    let ghost before = m@;
    if found as u64 > i64::MAX as u64 {
        crate::utils::text::append_decimal_nat(&mut m, found as u64);
    } else {
        append_decimal(&mut m, found as i64);
    }
    assert(m@ =~= wrong_count(wanted@, found as int));
    m
}

/// A whole number read from the field `name`, or the message.
pub open spec fn i32_field(name: Seq<char>, value: Seq<char>) -> Result<i32, Seq<char>> {
    match int_in_range(value, i32::MIN as int, i32::MAX as int) {
        Some(n) => Ok(n as i32),
        None => Err(invalid_field(name, value)),
    }
}

/// A number in thousandths read from the field `name`, or the message.
pub open spec fn fixed_field(name: Seq<char>, value: Seq<char>) -> Result<i64, Seq<char>> {
    match fixed_in_range(value) {
        Some(n) => Ok(n as i64),
        None => Err(invalid_field(name, value)),
    }
}

/// `r` is the result `want`, with the message as a string.
pub open spec fn is_field<T>(r: Result<T, String>, want: Result<T, Seq<char>>) -> bool {
    match r {
        Ok(v) => want == Ok::<T, Seq<char>>(v),
        Err(m) => want == Err::<T, Seq<char>>(m@),
    }
}

pub fn read_i32_field(name: &str, value: &Vec<char>) -> (r: Result<i32, String>)
    ensures
        is_field(r, i32_field(name@, value@)),
{
    assert(value@.subrange(0, value@.len() as int) =~= value@);
    match read_i32(value, 0, value.len()) {
        Some(n) => Ok(n),
        None => Err(invalid_field_message(name, value)),
    }
}

pub fn read_fixed_field(name: &str, value: &Vec<char>) -> (r: Result<i64, String>)
    ensures
        is_field(r, fixed_field(name@, value@)),
{
    assert(value@.subrange(0, value@.len() as int) =~= value@);
    match read_fixed(value, 0, value.len()) {
        Some(n) => Ok(n),
        None => Err(invalid_field_message(name, value)),
    }
}

/// The timing point that a line writes, or the message for the first thing
/// that is wrong with the line.
pub open spec fn parsed_point(line: Seq<char>) -> Result<TimingPoint, Seq<char>> {
    let p = split(line, ',');
    if p.len() != 8 {
        Err(wrong_count("8"@, p.len() as int))
    } else if fixed_field("time"@, p[0]) is Err {
        Err(fixed_field("time"@, p[0])->Err_0)
    } else if fixed_field("beatLength"@, p[1]) is Err {
        Err(fixed_field("beatLength"@, p[1])->Err_0)
    } else if i32_field("meter"@, p[2]) is Err {
        Err(i32_field("meter"@, p[2])->Err_0)
    } else if i32_field("sampleSet"@, p[3]) is Err {
        Err(i32_field("sampleSet"@, p[3])->Err_0)
    } else if i32_field("sampleIndex"@, p[4]) is Err {
        Err(i32_field("sampleIndex"@, p[4])->Err_0)
    } else if i32_field("volume"@, p[5]) is Err {
        Err(i32_field("volume"@, p[5])->Err_0)
    } else if i32_field("uninherited"@, p[6]) is Err {
        Err(i32_field("uninherited"@, p[6])->Err_0)
    } else if i32_field("effects"@, p[7]) is Err {
        Err(i32_field("effects"@, p[7])->Err_0)
    } else {
        Ok(
            TimingPoint {
                time: fixed_field("time"@, p[0])->Ok_0,
                beat_length: fixed_field("beatLength"@, p[1])->Ok_0,
                meter: i32_field("meter"@, p[2])->Ok_0,
                sample_set: i32_field("sampleSet"@, p[3])->Ok_0,
                sample_index: i32_field("sampleIndex"@, p[4])->Ok_0,
                volume: i32_field("volume"@, p[5])->Ok_0,
                uninherited: i32_field("uninherited"@, p[6])->Ok_0 != 0,
                effects: i32_field("effects"@, p[7])->Ok_0,
            },
        )
    }
}

/// The tempo of a beat length, in thousandths of a beat per minute: sixty
/// thousand milliseconds over the beat length.
pub open spec fn tempo_of(beat_length: int) -> int {
    60_000_000_000int / beat_length
}

/// The scroll velocity of an inherited beat length, in thousandths: one
/// hundred over its amount.
pub open spec fn velocity_of(beat_length: int) -> int {
    100_000_000int / (-beat_length)
}

impl Default for TimingPoint {
    /// 120 beats per minute in common time at full volume, from time 0.
    fn default() -> (p: Self)
        ensures
            p == (TimingPoint {
                time: 0,
                beat_length: 500_000,
                meter: 4,
                sample_set: 0,
                sample_index: 0,
                volume: 100,
                uninherited: true,
                effects: 0,
            }),
    {
        TimingPoint {
            time: 0,
            beat_length: 500_000,
            meter: 4,
            sample_set: 0,
            sample_index: 0,
            volume: 100,
            uninherited: true,
            effects: 0,
        }
    }
}

impl TimingPoint {
    pub fn new(
        time: i64,
        beat_length: i64,
        meter: i32,
        sample_set: i32,
        sample_index: i32,
        volume: i32,
        uninherited: bool,
        effects: i32,
    ) -> (p: Self)
        ensures
            p == (TimingPoint {
                time,
                beat_length,
                meter,
                sample_set,
                sample_index,
                volume,
                uninherited,
                effects,
            }),
    {
        Self { time, beat_length, meter, sample_set, sample_index, volume, uninherited, effects }
    }

    pub fn is_uninherited(&self) -> (b: bool)
        ensures
            b == self.uninherited,
    {
        self.uninherited
    }

    pub fn is_inherited(&self) -> (b: bool)
        ensures
            b == !self.uninherited,
    {
        !self.uninherited
    }

    /// The tempo that the point sets, if it sets one.
    pub open spec fn tempo(&self) -> Option<i64> {
        if self.uninherited && self.beat_length > 0 {
            Some(tempo_of(self.beat_length as int) as i64)
        } else {
            None
        }
    }

    /// The scroll velocity that the point sets, if it sets one.
    pub open spec fn velocity(&self) -> Option<i64> {
        if !self.uninherited && self.beat_length < 0 {
            Some(velocity_of(self.beat_length as int) as i64)
        } else {
            None
        }
    }

    pub fn bpm(&self) -> (r: Option<i64>)
        ensures
            r == self.tempo(),
    {
        if self.uninherited && self.beat_length > 0 {
            Some(60_000_000_000 / self.beat_length)
        } else {
            None
        }
    }

    pub fn slider_velocity_multiplier(&self) -> (r: Option<i64>)
        ensures
            r == self.velocity(),
    {
        if !self.uninherited && self.beat_length < 0 {
            let amount: i128 = -(self.beat_length as i128);
            Some((100_000_000 / amount) as i64)
        } else {
            None
        }
    }

    /// The time in whole milliseconds, as far as an `i32` can hold it.
    pub fn time_ms(&self) -> (t: i32)
        ensures
            t == clamped(
                if self.time >= 0 {
                    self.time / 1000
                } else {
                    -((-self.time) / 1000)
                },
            ),
    {
        if self.time >= 0 {
            clamp_to_i32(self.time / 1000)
        } else {
            let amount: i128 = -(self.time as i128);
            clamp_to_i32((-(amount / 1000)) as i64)
        }
    }

    /// The line of the point: its eight fields with commas between.
    pub open spec fn text(&self) -> Seq<char> {
        fixed_text(self.time as int) + ","@ + fixed_text(self.beat_length as int) + ","@ + decimal(
            self.meter as int,
        ) + ","@ + decimal(self.sample_set as int) + ","@ + decimal(self.sample_index as int)
            + ","@ + decimal(self.volume as int) + ","@ + (if self.uninherited {
            "1"@
        } else {
            "0"@
        }) + ","@ + decimal(self.effects as int)
    }

    pub fn to_osu_format(&self) -> (s: String)
        ensures
            s@ == self.text(),
    {
        let mut s = String::new();
        append_fixed(&mut s, self.time);
        s.append(",");
        append_fixed(&mut s, self.beat_length);
        s.append(",");
        append_decimal(&mut s, self.meter as i64);
        s.append(",");
        append_decimal(&mut s, self.sample_set as i64);
        s.append(",");
        append_decimal(&mut s, self.sample_index as i64);
        s.append(",");
        append_decimal(&mut s, self.volume as i64);
        s.append(",");
        if self.uninherited {
            s.append("1");
        } else {
            s.append("0");
        }
        s.append(",");
        append_decimal(&mut s, self.effects as i64);
        assert(s@ =~= self.text());
        s
    }

    /// Reads a timing point from the characters of its line.
    pub fn from_chars(line: &Vec<char>) -> (r: Result<TimingPoint, String>)
        ensures
            is_field(r, parsed_point(line@)),
    {
        assert(line@.subrange(0, line@.len() as int) =~= line@);
        let parts = split_range(line, 0, line.len(), ',');
        proof {
            assert forall|k: int| 0 <= k < parts@.len() implies #[trigger] parts.deep_view()[k]
                == parts@[k]@ by {
                assert(parts@[k].deep_view() =~= parts@[k]@);
            }
        }
        if parts.len() != 8 {
            return Err(wrong_count_message("8", parts.len()));
        }
        let time = match read_fixed_field("time", &parts[0]) {
            Ok(n) => n,
            Err(m) => {
                return Err(m);
            },
        };
        let beat_length = match read_fixed_field("beatLength", &parts[1]) {
            Ok(n) => n,
            Err(m) => {
                return Err(m);
            },
        };
        let meter = match read_i32_field("meter", &parts[2]) {
            Ok(n) => n,
            Err(m) => {
                return Err(m);
            },
        };
        let sample_set = match read_i32_field("sampleSet", &parts[3]) {
            Ok(n) => n,
            Err(m) => {
                return Err(m);
            },
        };
        let sample_index = match read_i32_field("sampleIndex", &parts[4]) {
            Ok(n) => n,
            Err(m) => {
                return Err(m);
            },
        };
        let volume = match read_i32_field("volume", &parts[5]) {
            Ok(n) => n,
            Err(m) => {
                return Err(m);
            },
        };
        let uninherited = match read_i32_field("uninherited", &parts[6]) {
            Ok(n) => n != 0,
            Err(m) => {
                return Err(m);
            },
        };
        let effects = match read_i32_field("effects", &parts[7]) {
            Ok(n) => n,
            Err(m) => {
                return Err(m);
            },
        };
        Ok(
            TimingPoint {
                time,
                beat_length,
                meter,
                sample_set,
                sample_index,
                volume,
                uninherited,
                effects,
            },
        )
    }

    /// Reads a timing point from its line.
    pub fn from_str(s: &str) -> (r: Result<TimingPoint, String>)
        ensures
            is_field(r, parsed_point(s@)),
    {
        let line = chars_of(s);
        Self::from_chars(&line)
    }
}

/// The timing points that the lines write, or the message of the first line
/// that cannot be read. Empty lines and comments are passed over.
pub open spec fn parsed_points(lines: Seq<Seq<char>>) -> Result<Seq<TimingPoint>, Seq<char>>
    decreases lines.len(),
{
    if lines.len() == 0 {
        Ok(Seq::empty())
    } else if !counts(lines[0]) {
        parsed_points(lines.drop_first())
    } else {
        match parsed_point(lines[0]) {
            Err(m) => Err(m),
            Ok(p) => match parsed_points(lines.drop_first()) {
                Ok(rest) => Ok(seq![p] + rest),
                Err(m) => Err(m),
            },
        }
    }
}

/// What reading goes on to give when `done` has been read and `rest` is
/// still to come.
pub open spec fn carried_on(
    done: Seq<TimingPoint>,
    rest: Result<Seq<TimingPoint>, Seq<char>>,
) -> Result<Seq<TimingPoint>, Seq<char>> {
    match rest {
        Ok(r) => Ok(done + r),
        Err(m) => Err(m),
    }
}

/// The points with the commas of a file between their lines.
pub open spec fn point_lines(points: Seq<TimingPoint>) -> Seq<Seq<char>> {
    points.map_values(|p: TimingPoint| p.text())
}

pub open spec fn is_tempo_point(p: TimingPoint) -> bool {
    p.tempo() is Some
}

pub open spec fn is_velocity_point(p: TimingPoint) -> bool {
    p.velocity() is Some
}

/// The points whose time lies in `start..=end`, in order.
pub open spec fn in_range(points: Seq<TimingPoint>, start: i64, end: i64) -> Seq<TimingPoint>
    decreases points.len(),
{
    if points.len() == 0 {
        Seq::empty()
    } else if start <= points.last().time <= end {
        in_range(points.drop_last(), start, end).push(points.last())
    } else {
        in_range(points.drop_last(), start, end)
    }
}

/// How many of the points are uninherited.
pub open spec fn uninherited_among(points: Seq<TimingPoint>) -> int
    decreases points.len(),
{
    if points.len() == 0 {
        0
    } else {
        uninherited_among(points.drop_last()) + if points.last().uninherited {
            1int
        } else {
            0int
        }
    }
}

pub proof fn lemma_uninherited_bound(points: Seq<TimingPoint>)
    ensures
        0 <= uninherited_among(points) <= points.len(),
    decreases points.len(),
{
    if points.len() > 0 {
        lemma_uninherited_bound(points.drop_last());
    }
}

#[derive(Debug, Clone)]
pub struct TimingPoints {
    pub timing_points: Vec<TimingPoint>,
}

impl Default for TimingPoints {
    fn default() -> (t: Self)
        ensures
            t.timing_points@.len() == 0,
    {
        Self { timing_points: Vec::new() }
    }
}

impl TimingPoints {
    /// Reads the section. The first line that cannot be read is the error.
    pub fn from_str(s: &str) -> (r: Result<TimingPoints, String>)
        ensures
            match r {
                Ok(t) => parsed_points(trimmed_lines(s@)) == Ok::<Seq<TimingPoint>, Seq<char>>(
                    t.timing_points@,
                ),
                Err(m) => parsed_points(trimmed_lines(s@)) == Err::<Seq<TimingPoint>, Seq<char>>(
                    m@,
                ),
            },
    {
        let lines = read_lines(s);
        let ghost all = lines.deep_view();
        let n = lines.len();
        let mut points: Vec<TimingPoint> = Vec::new();
        let mut i: usize = 0;
        proof {
            assert(all.subrange(0, n as int) =~= all);
            assert(Seq::<TimingPoint>::empty() + parsed_points(all)->Ok_0 =~= parsed_points(
                all,
            )->Ok_0);
        }
        while i < n
            invariant
                i <= n,
                n == lines@.len(),
                all == lines.deep_view(),
                all == trimmed_lines(s@),
                parsed_points(all) == carried_on(
                    points@,
                    parsed_points(all.subrange(i as int, n as int)),
                ),
            decreases n - i,
        {
            let line = &lines[i];
            let ghost rest = all.subrange(i as int, n as int);
            proof {
                assert(rest.drop_first() =~= all.subrange(i + 1, n as int));
                assert(all[i as int] == lines@[i as int].deep_view());
                assert(lines@[i as int].deep_view() =~= line@);
                assert(rest[0] == line@);
            }
            if line_counts(line) {
                match TimingPoint::from_chars(line) {
                    Ok(p) => {
                        let ghost before = points@;
                        points.push(p);
                        proof {
                            let tail = parsed_points(all.subrange(i + 1, n as int));
                            if tail is Ok {
                                assert(before + (seq![p] + tail->Ok_0) =~= before.push(p)
                                    + tail->Ok_0);
                            }
                        }
                    },
                    Err(m) => {
                        return Err(m);
                    },
                }
            }
            i += 1;
        }
        proof {
            assert(all.subrange(n as int, n as int) =~= Seq::<Seq<char>>::empty());
            assert(points@ + Seq::<TimingPoint>::empty() =~= points@);
        }
        Ok(TimingPoints { timing_points: points })
    }

    pub fn new() -> (t: Self)
        ensures
            t.timing_points@.len() == 0,
    {
        Self { timing_points: Vec::new() }
    }

    pub fn add_timing_point(&mut self, timing_point: TimingPoint)
        ensures
            final(self).timing_points@ == old(self).timing_points@.push(timing_point),
    {
        self.timing_points.push(timing_point);
    }

    pub fn count(&self) -> (n: usize)
        ensures
            n == self.timing_points@.len(),
    {
        self.timing_points.len()
    }

    pub fn uninherited_count(&self) -> (n: usize)
        ensures
            n == uninherited_among(self.timing_points@),
    {
        let mut n: usize = 0;
        let mut i: usize = 0;
        while i < self.timing_points.len()
            invariant
                i <= self.timing_points.len(),
                n == uninherited_among(self.timing_points@.subrange(0, i as int)),
                n <= i,
            decreases self.timing_points.len() - i,
        {
            assert(self.timing_points@.subrange(0, i + 1).drop_last()
                =~= self.timing_points@.subrange(0, i as int));
            if self.timing_points[i].uninherited {
                n += 1;
            }
            i += 1;
        }
        assert(self.timing_points@.subrange(0, i as int) =~= self.timing_points@);
        n
    }

    pub fn inherited_count(&self) -> (n: usize)
        ensures
            n == self.timing_points@.len() - uninherited_among(self.timing_points@),
    {
        proof {
            lemma_uninherited_bound(self.timing_points@);
        }
        self.timing_points.len() - self.uninherited_count()
    }

    /// The time of the first point in the section.
    pub fn start_time(&self) -> (t: Option<i64>)
        ensures
            t == if self.timing_points@.len() == 0 {
                None
            } else {
                Some(self.timing_points@[0].time)
            },
    {
        if self.timing_points.len() == 0 {
            None
        } else {
            Some(self.timing_points[0].time)
        }
    }

    /// The time of the last point in the section.
    pub fn end_time(&self) -> (t: Option<i64>)
        ensures
            t == if self.timing_points@.len() == 0 {
                None
            } else {
                Some(self.timing_points@.last().time)
            },
    {
        if self.timing_points.len() == 0 {
            None
        } else {
            Some(self.timing_points[self.timing_points.len() - 1].time)
        }
    }

    pub fn points_in_range(&self, start_time: i64, end_time: i64) -> (found: Vec<TimingPoint>)
        ensures
            found@ == in_range(self.timing_points@, start_time, end_time),
    {
        let mut found: Vec<TimingPoint> = Vec::new();
        let mut i: usize = 0;
        while i < self.timing_points.len()
            invariant
                i <= self.timing_points.len(),
                found@ == in_range(
                    self.timing_points@.subrange(0, i as int),
                    start_time,
                    end_time,
                ),
            decreases self.timing_points.len() - i,
        {
            assert(self.timing_points@.subrange(0, i + 1).drop_last()
                =~= self.timing_points@.subrange(0, i as int));
            let p = self.timing_points[i];
            if start_time <= p.time && p.time <= end_time {
                found.push(p);
            }
            i += 1;
        }
        assert(self.timing_points@.subrange(0, i as int) =~= self.timing_points@);
        found
    }

    /// Sorts the points by time. Points of equal time keep their order.
    pub fn sort_by_time(&mut self)
        ensures
            is_stable_sort_of(final(self).timing_points@, old(self).timing_points@),
    {
        stable_sort(&mut self.timing_points);
    }

    /// The tempos that the points set, in order.
    pub fn get_bpms(&self) -> (out: Vec<i64>)
        ensures
            out@ == self.timing_points@.filter(|p: TimingPoint| is_tempo_point(p)).map_values(
                |p: TimingPoint| p.tempo()->0,
            ),
    {
        let mut out: Vec<i64> = Vec::new();
        let mut i: usize = 0;
        proof {
            lemma_filter_empty(|p: TimingPoint| is_tempo_point(p));
            assert(self.timing_points@.subrange(0, 0) =~= Seq::<TimingPoint>::empty());
        }
        while i < self.timing_points.len()
            invariant
                i <= self.timing_points.len(),
                out@ == self.timing_points@.subrange(0, i as int).filter(
                    |p: TimingPoint| is_tempo_point(p),
                ).map_values(|p: TimingPoint| p.tempo()->0),
            decreases self.timing_points.len() - i,
        {
            proof {
                lemma_filter_prefix_step(
                    self.timing_points@,
                    i as int,
                    |p: TimingPoint| is_tempo_point(p),
                );
            }
            match self.timing_points[i].bpm() {
                Some(b) => {
                    out.push(b);
                },
                None => {},
            }
            i += 1;
            assert(out@ =~= self.timing_points@.subrange(0, i as int).filter(
                |p: TimingPoint| is_tempo_point(p),
            ).map_values(|p: TimingPoint| p.tempo()->0));
        }
        assert(self.timing_points@.subrange(0, i as int) =~= self.timing_points@);
        out
    }

    /// The scroll velocities that the points set, in order.
    pub fn get_slider_velocities(&self) -> (out: Vec<i64>)
        ensures
            out@ == self.timing_points@.filter(|p: TimingPoint| is_velocity_point(p)).map_values(
                |p: TimingPoint| p.velocity()->0,
            ),
    {
        let mut out: Vec<i64> = Vec::new();
        let mut i: usize = 0;
        proof {
            lemma_filter_empty(|p: TimingPoint| is_velocity_point(p));
            assert(self.timing_points@.subrange(0, 0) =~= Seq::<TimingPoint>::empty());
        }
        while i < self.timing_points.len()
            invariant
                i <= self.timing_points.len(),
                out@ == self.timing_points@.subrange(0, i as int).filter(
                    |p: TimingPoint| is_velocity_point(p),
                ).map_values(|p: TimingPoint| p.velocity()->0),
            decreases self.timing_points.len() - i,
        {
            proof {
                lemma_filter_prefix_step(
                    self.timing_points@,
                    i as int,
                    |p: TimingPoint| is_velocity_point(p),
                );
            }
            match self.timing_points[i].slider_velocity_multiplier() {
                Some(b) => {
                    out.push(b);
                },
                None => {},
            }
            i += 1;
            assert(out@ =~= self.timing_points@.subrange(0, i as int).filter(
                |p: TimingPoint| is_velocity_point(p),
            ).map_values(|p: TimingPoint| p.velocity()->0));
        }
        assert(self.timing_points@.subrange(0, i as int) =~= self.timing_points@);
        out
    }

    /// The section as it stands in a file: one line for each point.
    pub fn to_osu_format(&self) -> (s: String)
        ensures
            s@ == joined(point_lines(self.timing_points@), "\n"@),
    {
        let mut lines: Vec<String> = Vec::new();
        let mut i: usize = 0;
        while i < self.timing_points.len()
            invariant
                i <= self.timing_points.len(),
                lines@.len() == i,
                forall|k: int|
                    0 <= k < i ==> (#[trigger] lines@[k])@ == self.timing_points@[k].text(),
            decreases self.timing_points.len() - i,
        {
            lines.push(self.timing_points[i].to_osu_format());
            i += 1;
        }
        assert(lines.deep_view() =~= point_lines(self.timing_points@));
        join(&lines, "\n")
    }
}

} // verus!
