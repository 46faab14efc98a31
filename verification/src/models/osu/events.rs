//! The `[Events]` section: background, video, breaks and storyboard samples.

use vstd::prelude::*;
use crate::models::osu::timing_points::{wrong_count, wrong_count_message};
use crate::utils::numbers::{int_in_range, nat_in_range, read_i32, read_u8};
use crate::utils::sections::{counts, line_counts, read_lines, trimmed_lines};
use crate::utils::text::{
    append_decimal, chars_of, decimal, join, joined, lemma_texts_push, split, split_range,
    string_of, trim_range, trimmed,
};

verus! {

/// Whether a string is exactly the given text.
pub fn is_text(s: &String, text: &str) -> (b: bool)
    ensures
        b == (s@ == text@),
{
    *s == text.to_owned()
}

/// One line of the section, as read: a type, a start time and whatever
/// parameters follow.
#[derive(Debug, Clone)]
pub struct Event {
    pub event_type: String,
    pub start_time: i32,
    pub event_params: Vec<String>,
}

#[derive(Debug, Clone)]
pub struct Background {
    pub filename: String,
    pub x_offset: i32,
    pub y_offset: i32,
}

#[derive(Debug, Clone)]
pub struct Video {
    pub start_time: i32,
    pub filename: String,
    pub x_offset: i32,
    pub y_offset: i32,
}

#[derive(Debug, Clone, Copy, PartialEq, Eq, Structural)]
pub struct Break {
    pub start_time: i32,
    pub end_time: i32,
}

#[derive(Debug, Clone)]
pub struct Sample {
    pub start_time: i32,
    pub layer: i32,
    pub filename: String,
    pub volume: u8,
}

#[derive(Debug, Clone)]
pub struct Events {
    pub background: Option<Background>,
    pub video: Option<Video>,
    pub breaks: Vec<Break>,
    pub samples: Vec<Sample>,
    pub raw_events: String,
}

impl Event {
    pub fn new(event_type: String, start_time: i32, event_params: Vec<String>) -> (e: Self)
        ensures
            e.event_type == event_type,
            e.start_time == start_time,
            e.event_params == event_params,
    {
        Self { event_type, start_time, event_params }
    }

    pub fn is_background(&self) -> (b: bool)
        ensures
            b == (self.event_type@ == "0"@),
    {
        is_text(&self.event_type, "0")
    }

    pub fn is_video(&self) -> (b: bool)
        ensures
            b == (self.event_type@ == "1"@ || self.event_type@ == "Video"@),
    {
        is_text(&self.event_type, "1") || is_text(&self.event_type, "Video")
    }

    pub fn is_break(&self) -> (b: bool)
        ensures
            b == (self.event_type@ == "2"@ || self.event_type@ == "Break"@),
    {
        is_text(&self.event_type, "2") || is_text(&self.event_type, "Break")
    }

    pub fn is_sample(&self) -> (b: bool)
        ensures
            b == (self.event_type@ == "Sample"@),
    {
        is_text(&self.event_type, "Sample")
    }

    /// The line of the event: type, start time and parameters, with commas
    /// between.
    pub open spec fn text(&self) -> Seq<char> {
        joined(
            seq![self.event_type@, decimal(self.start_time as int)] + self.event_params.deep_view(),
            ","@,
        )
    }

    pub fn to_str(&self) -> (s: String)
        ensures
            s@ == self.text(),
    {
        let mut parts: Vec<String> = Vec::new();
        parts.push(self.event_type.clone());
        let mut time = String::new();
        append_decimal(&mut time, self.start_time as i64);
        parts.push(time);
        let ghost head = parts.deep_view();
        assert(head =~= seq![self.event_type@, decimal(self.start_time as int)]);
        let mut i: usize = 0;
        while i < self.event_params.len()
            invariant
                i <= self.event_params.len(),
                parts.deep_view() == head + self.event_params.deep_view().subrange(0, i as int),
            decreases self.event_params.len() - i,
        {
            let ghost before = parts;
            let param = self.event_params[i].clone();
            parts.push(param);
            proof {
                lemma_texts_push(before, parts, param);
            }
            i += 1;
            assert(parts.deep_view() =~= head + self.event_params.deep_view().subrange(
                0,
                i as int,
            ));
        }
        assert(self.event_params.deep_view().subrange(0, i as int)
            =~= self.event_params.deep_view());
        join(&parts, ",")
    }
}

impl Background {
    pub fn new(filename: String, x_offset: i32, y_offset: i32) -> (b: Self)
        ensures
            b.filename == filename,
            b.x_offset == x_offset,
            b.y_offset == y_offset,
    {
        Self { filename, x_offset, y_offset }
    }

    /// The line of a background; the offsets are left out when both are 0.
    pub open spec fn text(&self) -> Seq<char> {
        if self.x_offset == 0 && self.y_offset == 0 {
            "0,0,\""@ + self.filename@ + "\""@
        } else {
            "0,0,\""@ + self.filename@ + "\","@ + decimal(self.x_offset as int) + ","@ + decimal(
                self.y_offset as int,
            )
        }
    }

    pub fn to_str(&self) -> (s: String)
        ensures
            s@ == self.text(),
    {
        let mut s = String::new();
        s.append("0,0,\"");
        s.append(self.filename.as_str());
        if self.x_offset == 0 && self.y_offset == 0 {
            s.append("\"");
        } else {
            s.append("\",");
            append_decimal(&mut s, self.x_offset as i64);
            s.append(",");
            append_decimal(&mut s, self.y_offset as i64);
        }
        assert(s@ =~= self.text());
        s
    }
}

impl Video {
    pub fn new(start_time: i32, filename: String, x_offset: i32, y_offset: i32) -> (v: Self)
        ensures
            v.start_time == start_time,
            v.filename == filename,
            v.x_offset == x_offset,
            v.y_offset == y_offset,
    {
        Self { start_time, filename, x_offset, y_offset }
    }

    /// The line of a video; the offsets are left out when both are 0.
    pub open spec fn text(&self) -> Seq<char> {
        let head = "Video,"@ + decimal(self.start_time as int) + ",\""@ + self.filename@;
        if self.x_offset == 0 && self.y_offset == 0 {
            head + "\""@
        } else {
            head + "\","@ + decimal(self.x_offset as int) + ","@ + decimal(self.y_offset as int)
        }
    }

    pub fn to_str(&self) -> (s: String)
        ensures
            s@ == self.text(),
    {
        let mut s = String::new();
        s.append("Video,");
        append_decimal(&mut s, self.start_time as i64);
        s.append(",\"");
        s.append(self.filename.as_str());
        if self.x_offset == 0 && self.y_offset == 0 {
            s.append("\"");
        } else {
            s.append("\",");
            append_decimal(&mut s, self.x_offset as i64);
            s.append(",");
            append_decimal(&mut s, self.y_offset as i64);
        }
        assert(s@ =~= self.text());
        s
    }
}

impl Break {
    pub fn new(start_time: i32, end_time: i32) -> (b: Self)
        ensures
            b == (Break { start_time, end_time }),
    {
        Self { start_time, end_time }
    }

    /// How long the break lasts, in milliseconds.
    pub fn duration(&self) -> (d: i64)
        ensures
            d == self.end_time - self.start_time,
    {
        self.end_time as i64 - self.start_time as i64
    }

    pub open spec fn text(&self) -> Seq<char> {
        "2,"@ + decimal(self.start_time as int) + ","@ + decimal(self.end_time as int)
    }

    pub fn to_str(&self) -> (s: String)
        ensures
            s@ == self.text(),
    {
        let mut s = String::new();
        s.append("2,");
        append_decimal(&mut s, self.start_time as i64);
        s.append(",");
        append_decimal(&mut s, self.end_time as i64);
        assert(s@ =~= self.text());
        s
    }
}

impl Sample {
    pub fn new(start_time: i32, layer: i32, filename: String, volume: u8) -> (s: Self)
        ensures
            s.start_time == start_time,
            s.layer == layer,
            s.filename == filename,
            s.volume == volume,
    {
        Self { start_time, layer, filename, volume }
    }

    pub open spec fn layer_text(&self) -> Seq<char> {
        if self.layer == 0 {
            "Background"@
        } else if self.layer == 1 {
            "Fail"@
        } else if self.layer == 2 {
            "Pass"@
        } else if self.layer == 3 {
            "Foreground"@
        } else {
            "Unknown"@
        }
    }

    /// The name of the storyboard layer that the sample belongs to.
    pub fn layer_name(&self) -> (name: &'static str)
        ensures
            name@ == self.layer_text(),
    {
        if self.layer == 0 {
            "Background"
        } else if self.layer == 1 {
            "Fail"
        } else if self.layer == 2 {
            "Pass"
        } else if self.layer == 3 {
            "Foreground"
        } else {
            "Unknown"
        }
    }

    /// The line of a sample; a volume of 100 is left out.
    pub open spec fn text(&self) -> Seq<char> {
        let head = "Sample,"@ + decimal(self.start_time as int) + ","@ + decimal(self.layer as int)
            + ",\""@ + self.filename@ + "\""@;
        if self.volume == 100 {
            head
        } else {
            head + ","@ + decimal(self.volume as int)
        }
    }

    pub fn to_str(&self) -> (s: String)
        ensures
            s@ == self.text(),
    {
        let mut s = String::new();
        s.append("Sample,");
        append_decimal(&mut s, self.start_time as i64);
        s.append(",");
        append_decimal(&mut s, self.layer as i64);
        s.append(",\"");
        s.append(self.filename.as_str());
        s.append("\"");
        if self.volume != 100 {
            s.append(",");
            append_decimal(&mut s, self.volume as i64);
        }
        assert(s@ =~= self.text());
        s
    }
}

/// The sum of the durations of `breaks`.
pub open spec fn break_sum(breaks: Seq<Break>) -> int
    decreases breaks.len(),
{
    if breaks.len() == 0 {
        0
    } else {
        break_sum(breaks.drop_last()) + (breaks.last().end_time - breaks.last().start_time)
    }
}

pub proof fn lemma_break_sum_bound(breaks: Seq<Break>)
    ensures
        -0x1_0000_0000 * breaks.len() <= break_sum(breaks) <= 0x1_0000_0000 * breaks.len(),
    decreases breaks.len(),
{
    if breaks.len() > 0 {
        lemma_break_sum_bound(breaks.drop_last());
    }
}

/// The lines of the breaks, each closed by a line feed.
pub open spec fn break_lines(breaks: Seq<Break>) -> Seq<char>
    decreases breaks.len(),
{
    if breaks.len() == 0 {
        Seq::empty()
    } else {
        break_lines(breaks.drop_last()) + breaks.last().text() + "\n"@
    }
}

/// The lines of the samples whose layer lies in `lo..=hi`, each closed by a
/// line feed.
pub open spec fn sample_lines(samples: Seq<Sample>, lo: int, hi: int) -> Seq<char>
    decreases samples.len(),
{
    if samples.len() == 0 {
        Seq::empty()
    } else if lo <= samples.last().layer <= hi {
        sample_lines(samples.drop_last(), lo, hi) + samples.last().text() + "\n"@
    } else {
        sample_lines(samples.drop_last(), lo, hi)
    }
}

/// The indices of the samples of layer `layer`, in order.
pub open spec fn layer_indices(samples: Seq<Sample>, layer: int) -> Seq<usize>
    decreases samples.len(),
{
    if samples.len() == 0 {
        Seq::empty()
    } else if samples.last().layer == layer {
        layer_indices(samples.drop_last(), layer).push((samples.len() - 1) as usize)
    } else {
        layer_indices(samples.drop_last(), layer)
    }
}

impl Default for Events {
    fn default() -> (e: Self)
        ensures
            e.is_blank(),
    {
        Self {
            background: None,
            video: None,
            breaks: Vec::new(),
            samples: Vec::new(),
            raw_events: String::new(),
        }
    }
}

impl Events {
    pub open spec fn is_blank(&self) -> bool {
        &&& self.background is None
        &&& self.video is None
        &&& self.breaks@.len() == 0
        &&& self.samples@.len() == 0
        &&& self.raw_events@.len() == 0
    }

    pub fn new() -> (e: Self)
        ensures
            e.is_blank(),
    {
        Self {
            background: None,
            video: None,
            breaks: Vec::new(),
            samples: Vec::new(),
            raw_events: String::new(),
        }
    }

    pub fn set_background(&mut self, filename: String, x_offset: i32, y_offset: i32)
        ensures
            final(self).background is Some,
            final(self).background->0.filename == filename,
            final(self).background->0.x_offset == x_offset,
            final(self).background->0.y_offset == y_offset,
            final(self).video == old(self).video,
            final(self).breaks == old(self).breaks,
            final(self).samples == old(self).samples,
            final(self).raw_events == old(self).raw_events,
    {
        self.background = Some(Background::new(filename, x_offset, y_offset));
    }

    pub fn set_video(&mut self, start_time: i32, filename: String, x_offset: i32, y_offset: i32)
        ensures
            final(self).video is Some,
            final(self).video->0.start_time == start_time,
            final(self).video->0.filename == filename,
            final(self).video->0.x_offset == x_offset,
            final(self).video->0.y_offset == y_offset,
            final(self).background == old(self).background,
            final(self).breaks == old(self).breaks,
            final(self).samples == old(self).samples,
            final(self).raw_events == old(self).raw_events,
    {
        self.video = Some(Video::new(start_time, filename, x_offset, y_offset));
    }

    pub fn add_break(&mut self, start_time: i32, end_time: i32)
        ensures
            final(self).breaks@ == old(self).breaks@.push(Break { start_time, end_time }),
            final(self).background == old(self).background,
            final(self).video == old(self).video,
            final(self).samples == old(self).samples,
            final(self).raw_events == old(self).raw_events,
    {
        self.breaks.push(Break::new(start_time, end_time));
    }

    pub fn add_sample(&mut self, start_time: i32, layer: i32, filename: String, volume: u8)
        ensures
            final(self).samples@.len() == old(self).samples@.len() + 1,
            final(self).samples@.drop_last() == old(self).samples@,
            final(self).samples@.last().start_time == start_time,
            final(self).samples@.last().layer == layer,
            final(self).samples@.last().filename == filename,
            final(self).samples@.last().volume == volume,
            final(self).background == old(self).background,
            final(self).video == old(self).video,
            final(self).breaks == old(self).breaks,
            final(self).raw_events == old(self).raw_events,
    {
        self.samples.push(Sample::new(start_time, layer, filename, volume));
        assert(self.samples@.drop_last() =~= old(self).samples@);
    }

    /// The time spent in breaks, in milliseconds.
    pub fn total_break_time(&self) -> (total: i128)
        ensures
            total == break_sum(self.breaks@),
    {
        let mut total: i128 = 0;
        let mut i: usize = 0;
        while i < self.breaks.len()
            invariant
                i <= self.breaks.len(),
                total == break_sum(self.breaks@.subrange(0, i as int)),
            decreases self.breaks.len() - i,
        {
            proof {
                lemma_break_sum_bound(self.breaks@.subrange(0, i as int));
                assert(self.breaks@.subrange(0, i + 1).drop_last() =~= self.breaks@.subrange(
                    0,
                    i as int,
                ));
            }
            total = total + self.breaks[i].duration() as i128;
            i += 1;
        }
        assert(self.breaks@.subrange(0, i as int) =~= self.breaks@);
        total
    }

    pub fn has_breaks(&self) -> (b: bool)
        ensures
            b == (self.breaks@.len() > 0),
    {
        self.breaks.len() > 0
    }

    pub fn has_background(&self) -> (b: bool)
        ensures
            b == self.background is Some,
    {
        self.background.is_some()
    }

    pub fn has_video(&self) -> (b: bool)
        ensures
            b == self.video is Some,
    {
        self.video.is_some()
    }

    pub fn has_samples(&self) -> (b: bool)
        ensures
            b == (self.samples@.len() > 0),
    {
        self.samples.len() > 0
    }

    /// The positions in `samples` of the samples of one layer, in order.
    pub fn samples_by_layer(&self, layer: i32) -> (found: Vec<usize>)
        ensures
            found@ == layer_indices(self.samples@, layer as int),
    {
        let mut found: Vec<usize> = Vec::new();
        let mut i: usize = 0;
        while i < self.samples.len()
            invariant
                i <= self.samples.len(),
                found@ == layer_indices(self.samples@.subrange(0, i as int), layer as int),
            decreases self.samples.len() - i,
        {
            assert(self.samples@.subrange(0, i + 1).drop_last() =~= self.samples@.subrange(
                0,
                i as int,
            ));
            if self.samples[i].layer == layer {
                found.push(i);
            }
            i += 1;
        }
        assert(self.samples@.subrange(0, i as int) =~= self.samples@);
        found
    }

    /// The section as it stands in a file: the background and the video, the
    /// breaks, then the samples layer by layer, each group under its comment
    /// line.
    pub open spec fn text(&self) -> Seq<char> {
        "//Background and Video events\n"@ + (match self.background {
            Some(bg) => bg.text() + "\n"@,
            None => Seq::empty(),
        }) + (match self.video {
            Some(v) => v.text() + "\n"@,
            None => Seq::empty(),
        }) + "//Break Periods\n"@ + break_lines(self.breaks@)
            + "//Storyboard Layer 0 (Background)\n"@ + sample_lines(self.samples@, 0, 0)
            + "//Storyboard Layer 1 (Fail)\n"@ + sample_lines(self.samples@, 1, 1)
            + "//Storyboard Layer 2 (Pass)\n"@ + sample_lines(self.samples@, 2, 2)
            + "//Storyboard Layer 3 (Foreground)\n"@ + sample_lines(self.samples@, 3, 3)
            + "//Storyboard Layer 4 (Overlay)\n"@ + sample_lines(self.samples@, 4, i32::MAX as int)
            + "//Storyboard Sound Samples\n"@
    }

    fn append_samples(&self, out: &mut String, lo: i32, hi: i32)
        ensures
            final(out)@ == old(out)@ + sample_lines(self.samples@, lo as int, hi as int),
    {
        let mut i: usize = 0;
        assert(out@ =~= old(out)@ + sample_lines(
            self.samples@.subrange(0, 0),
            lo as int,
            hi as int,
        ));
        while i < self.samples.len()
            invariant
                i <= self.samples.len(),
                out@ == old(out)@ + sample_lines(
                    self.samples@.subrange(0, i as int),
                    lo as int,
                    hi as int,
                ),
            decreases self.samples.len() - i,
        {
            let ghost before = out@;
            assert(self.samples@.subrange(0, i + 1).drop_last() =~= self.samples@.subrange(
                0,
                i as int,
            ));
            let sample = &self.samples[i];
            if lo <= sample.layer && sample.layer <= hi {
                out.append(sample.to_str().as_str());
                out.append("\n");
                assert(out@ =~= old(out)@ + sample_lines(
                    self.samples@.subrange(0, i + 1),
                    lo as int,
                    hi as int,
                ));
            }
            i += 1;
        }
        assert(self.samples@.subrange(0, i as int) =~= self.samples@);
    }

    pub fn to_str(&self) -> (s: String)
        ensures
            s@ == self.text(),
    {
        let mut s = String::new();
        s.append("//Background and Video events\n");
        match &self.background {
            Some(bg) => {
                s.append(bg.to_str().as_str());
                s.append("\n");
            },
            None => {},
        }
        match &self.video {
            Some(v) => {
                s.append(v.to_str().as_str());
                s.append("\n");
            },
            None => {},
        }
        s.append("//Break Periods\n");
        let ghost head = s@;
        let mut i: usize = 0;
        assert(s@ =~= head + break_lines(self.breaks@.subrange(0, 0)));
        while i < self.breaks.len()
            invariant
                i <= self.breaks.len(),
                s@ == head + break_lines(self.breaks@.subrange(0, i as int)),
            decreases self.breaks.len() - i,
        {
            assert(self.breaks@.subrange(0, i + 1).drop_last() =~= self.breaks@.subrange(
                0,
                i as int,
            ));
            s.append(self.breaks[i].to_str().as_str());
            s.append("\n");
            i += 1;
            assert(s@ =~= head + break_lines(self.breaks@.subrange(0, i as int)));
        }
        assert(self.breaks@.subrange(0, i as int) =~= self.breaks@);
        s.append("//Storyboard Layer 0 (Background)\n");
        self.append_samples(&mut s, 0, 0);
        s.append("//Storyboard Layer 1 (Fail)\n");
        self.append_samples(&mut s, 1, 1);
        s.append("//Storyboard Layer 2 (Pass)\n");
        self.append_samples(&mut s, 2, 2);
        s.append("//Storyboard Layer 3 (Foreground)\n");
        self.append_samples(&mut s, 3, 3);
        s.append("//Storyboard Layer 4 (Overlay)\n");
        self.append_samples(&mut s, 4, i32::MAX);
        s.append("//Storyboard Sound Samples\n");
        assert(s@ =~= self.text());
        s
    }
}

/// The text without the double quotes at its start.
pub open spec fn unquote_start(s: Seq<char>) -> Seq<char>
    decreases s.len(),
{
    if s.len() > 0 && s[0] == '"' {
        unquote_start(s.drop_first())
    } else {
        s
    }
}

/// The text without the double quotes at its end.
pub open spec fn unquote_end(s: Seq<char>) -> Seq<char>
    decreases s.len(),
{
    if s.len() > 0 && s.last() == '"' {
        unquote_end(s.drop_last())
    } else {
        s
    }
}

/// The text without the double quotes at its start and at its end.
pub open spec fn unquoted(s: Seq<char>) -> Seq<char> {
    unquote_end(unquote_start(s))
}

/// The bounds of `v[from..to]` without the double quotes at its start and
/// at its end.
pub fn unquote_range(v: &Vec<char>, from: usize, to: usize) -> (r: (usize, usize))
    requires
        from <= to <= v@.len(),
    ensures
        from <= r.0 <= r.1 <= to,
        v@.subrange(r.0 as int, r.1 as int) == unquoted(v@.subrange(from as int, to as int)),
{
    let mut a: usize = from;
    while a < to && v[a] == '"'
        invariant
            from <= a <= to <= v@.len(),
            unquote_start(v@.subrange(from as int, to as int)) == unquote_start(
                v@.subrange(a as int, to as int),
            ),
        decreases to - a,
    {
        assert(v@.subrange(a as int, to as int).drop_first() =~= v@.subrange(a + 1, to as int));
        a += 1;
    }
    let mut b: usize = to;
    while b > a && v[b - 1] == '"'
        invariant
            a <= b <= to <= v@.len(),
            unquote_end(v@.subrange(a as int, to as int)) == unquote_end(
                v@.subrange(a as int, b as int),
            ),
        decreases b,
    {
        assert(v@.subrange(a as int, b as int).drop_last() =~= v@.subrange(a as int, b - 1));
        b -= 1;
    }
    (a, b)
}

/// What an event line reads as: its type, its start time and its
/// parameters, all but the start time trimmed.
pub ghost struct EventFields {
    pub event_type: Seq<char>,
    pub start_time: i32,
    pub params: Seq<Seq<char>>,
}

/// The fields of an event line, or the message for what is wrong with it.
pub open spec fn event_fields(line: Seq<char>) -> Result<EventFields, Seq<char>> {
    let p = split(line, ',');
    if p.len() < 2 {
        Err(wrong_count("at least 2"@, p.len() as int))
    } else {
        match int_in_range(p[1], i32::MIN as int, i32::MAX as int) {
            None => Err("Invalid start time value: "@ + p[1]),
            Some(t) => Ok(
                EventFields {
                    event_type: trimmed(p[0]),
                    start_time: t as i32,
                    params: p.subrange(2, p.len() as int).map_values(|x: Seq<char>| trimmed(x)),
                },
            ),
        }
    }
}

/// The whole number that a text writes, or the fallback if it writes none.
pub open spec fn i32_or(s: Seq<char>, fallback: i32) -> i32 {
    match int_in_range(s, i32::MIN as int, i32::MAX as int) {
        Some(n) => n as i32,
        None => fallback,
    }
}

/// The parameter at `i` as a whole number; 0 if it is missing or no number.
pub open spec fn offset_at(params: Seq<Seq<char>>, i: int) -> i32 {
    if params.len() > i {
        i32_or(params[i], 0)
    } else {
        0
    }
}

/// The section as far as it has been read: a background and a video as
/// (start time,) file name and offsets, the breaks, and the samples as start
/// time, layer, file name and volume.
pub ghost struct EventsSoFar {
    pub background: Option<(Seq<char>, i32, i32)>,
    pub video: Option<(i32, Seq<char>, i32, i32)>,
    pub breaks: Seq<Break>,
    pub samples: Seq<(i32, i32, Seq<char>, u8)>,
}

impl EventsSoFar {
    pub open spec fn nothing() -> Self {
        EventsSoFar { background: None, video: None, breaks: Seq::empty(), samples: Seq::empty() }
    }

    /// What one more event makes of the section. A later background or
    /// video replaces an earlier one; breaks and samples add up; events of
    /// other types, and events that lack their parameters, change nothing.
    pub open spec fn with_event(self, e: EventFields) -> Result<EventsSoFar, Seq<char>> {
        let p = e.params;
        if e.event_type == "0"@ {
            if p.len() >= 1 {
                Ok(
                    EventsSoFar {
                        background: Some((unquoted(p[0]), offset_at(p, 1), offset_at(p, 2))),
                        ..self
                    },
                )
            } else {
                Ok(self)
            }
        } else if e.event_type == "1"@ || e.event_type == "Video"@ {
            if p.len() >= 1 {
                Ok(
                    EventsSoFar {
                        video: Some(
                            (e.start_time, unquoted(p[0]), offset_at(p, 1), offset_at(p, 2)),
                        ),
                        ..self
                    },
                )
            } else {
                Ok(self)
            }
        } else if e.event_type == "2"@ || e.event_type == "Break"@ {
            if p.len() >= 1 {
                match int_in_range(p[0], i32::MIN as int, i32::MAX as int) {
                    Some(end) => Ok(
                        EventsSoFar {
                            breaks: self.breaks.push(
                                Break { start_time: e.start_time, end_time: end as i32 },
                            ),
                            ..self
                        },
                    ),
                    None => Err("Invalid break end time: "@ + p[0]),
                }
            } else {
                Ok(self)
            }
        } else if e.event_type == "Sample"@ {
            if p.len() >= 2 {
                match int_in_range(p[0], i32::MIN as int, i32::MAX as int) {
                    Some(layer) => Ok(
                        EventsSoFar {
                            samples: self.samples.push(
                                (
                                    e.start_time,
                                    layer as i32,
                                    unquoted(p[1]),
                                    if p.len() >= 3 {
                                        match nat_in_range(p[2], 255) {
                                            Some(v) => v as u8,
                                            None => 100u8,
                                        }
                                    } else {
                                        100u8
                                    },
                                ),
                            ),
                            ..self
                        },
                    ),
                    None => Err("Invalid sample layer: "@ + p[0]),
                }
            } else {
                Ok(self)
            }
        } else {
            Ok(self)
        }
    }

    /// What one more line makes of the section.
    pub open spec fn with_line(self, line: Seq<char>) -> Result<EventsSoFar, Seq<char>> {
        if !counts(line) {
            Ok(self)
        } else {
            match event_fields(line) {
                Err(m) => Err(m),
                Ok(e) => self.with_event(e),
            }
        }
    }

    /// What the lines from `from` on make of the section.
    pub open spec fn with_lines(self, lines: Seq<Seq<char>>) -> Result<EventsSoFar, Seq<char>>
        decreases lines.len(),
    {
        if lines.len() == 0 {
            Ok(self)
        } else {
            match self.with_line(lines[0]) {
                Err(m) => Err(m),
                Ok(next) => next.with_lines(lines.drop_first()),
            }
        }
    }
}

impl Event {
    pub open spec fn fields(&self) -> EventFields {
        EventFields {
            event_type: self.event_type@,
            start_time: self.start_time,
            params: self.event_params.deep_view(),
        }
    }

    /// Reads an event from the characters of its line.
    pub fn from_chars(line: &Vec<char>) -> (r: Result<Event, String>)
        ensures
            match r {
                Ok(e) => event_fields(line@) == Ok::<EventFields, Seq<char>>(e.fields()),
                Err(m) => event_fields(line@) == Err::<EventFields, Seq<char>>(m@),
            },
    {
        assert(line@.subrange(0, line@.len() as int) =~= line@);
        let parts = split_range(line, 0, line.len(), ',');
        let ghost p = split(line@, ',');
        proof {
            assert forall|k: int| 0 <= k < parts@.len() implies #[trigger] p[k] == parts@[k]@ by {
                assert(parts@[k].deep_view() =~= parts@[k]@);
                assert(parts.deep_view()[k] == parts@[k].deep_view());
            }
        }
        if parts.len() < 2 {
            return Err(wrong_count_message("at least 2", parts.len()));
        }
        let first = &parts[0];
        assert(first@.subrange(0, first@.len() as int) =~= first@);
        let (a, b) = trim_range(first, 0, first.len());
        let event_type = string_of(first, a, b);
        let second = &parts[1];
        assert(second@.subrange(0, second@.len() as int) =~= second@);
        let start_time = match read_i32(second, 0, second.len()) {
            Some(t) => t,
            None => {
                let mut m = String::new();
                m.append("Invalid start time value: ");
                m.append(string_of(second, 0, second.len()).as_str());
                assert(m@ =~= "Invalid start time value: "@ + p[1]);
                return Err(m);
            },
        };
        let mut event_params: Vec<String> = Vec::new();
        let mut i: usize = 2;
        while i < parts.len()
            invariant
                2 <= i <= parts@.len(),
                p.len() == parts@.len(),
                forall|k: int| 0 <= k < parts@.len() ==> #[trigger] p[k] == parts@[k]@,
                event_params@.len() == i - 2,
                forall|k: int|
                    0 <= k < i - 2 ==> (#[trigger] event_params@[k])@ == trimmed(p[k + 2]),
            decreases parts.len() - i,
        {
            let part = &parts[i];
            assert(part@.subrange(0, part@.len() as int) =~= part@);
            let (c, d) = trim_range(part, 0, part.len());
            event_params.push(string_of(part, c, d));
            i += 1;
        }
        let e = Event { event_type, start_time, event_params };
        assert(e.fields().params =~= p.subrange(2, p.len() as int).map_values(
            |x: Seq<char>| trimmed(x),
        ));
        Ok(e)
    }

    /// Reads an event from its line.
    pub fn from_str(s: &str) -> (r: Result<Event, String>)
        ensures
            match r {
                Ok(e) => event_fields(s@) == Ok::<EventFields, Seq<char>>(e.fields()),
                Err(m) => event_fields(s@) == Err::<EventFields, Seq<char>>(m@),
            },
    {
        let line = chars_of(s);
        Self::from_chars(&line)
    }
}

/// The file name of a parameter: the parameter without its quotes.
fn unquoted_text(s: &String) -> (out: String)
    ensures
        out@ == unquoted(s@),
{
    let v = chars_of(s.as_str());
    assert(v@.subrange(0, v@.len() as int) =~= v@);
    let (a, b) = unquote_range(&v, 0, v.len());
    string_of(&v, a, b)
}

fn number_or(s: &String, fallback: i32) -> (n: i32)
    ensures
        n == i32_or(s@, fallback),
{
    let v = chars_of(s.as_str());
    assert(v@.subrange(0, v@.len() as int) =~= v@);
    match read_i32(&v, 0, v.len()) {
        Some(n) => n,
        None => fallback,
    }
}

fn offset_of(params: &Vec<String>, i: usize) -> (n: i32)
    ensures
        n == offset_at(params.deep_view(), i as int),
{
    if params.len() > i {
        assert(params.deep_view()[i as int] == params@[i as int]@);
        number_or(&params[i], 0)
    } else {
        0
    }
}

pub open spec fn sample_fields(s: Sample) -> (i32, i32, Seq<char>, u8) {
    (s.start_time, s.layer, s.filename@, s.volume)
}

impl Events {
    /// The events of the section, without the raw text.
    pub open spec fn so_far(&self) -> EventsSoFar {
        EventsSoFar {
            background: match self.background {
                Some(b) => Some((b.filename@, b.x_offset, b.y_offset)),
                None => None,
            },
            video: match self.video {
                Some(v) => Some((v.start_time, v.filename@, v.x_offset, v.y_offset)),
                None => None,
            },
            breaks: self.breaks@,
            samples: self.samples@.map_values(|s: Sample| sample_fields(s)),
        }
    }

    /// Takes one more event into the section.
    fn take(&mut self, event: &Event) -> (r: Result<(), String>)
        ensures
            match r {
                Ok(()) => old(self).so_far().with_event(event.fields()) == Ok::<
                    EventsSoFar,
                    Seq<char>,
                >(final(self).so_far()),
                Err(m) => old(self).so_far().with_event(event.fields()) == Err::<
                    EventsSoFar,
                    Seq<char>,
                >(m@) && final(self).so_far() == old(self).so_far(),
            },
            final(self).raw_events == old(self).raw_events,
    {
        let params = &event.event_params;
        let ghost p = params.deep_view();
        proof {
            if params.len() > 0 {
                assert(p[0] == params@[0]@);
            }
            if params.len() > 1 {
                assert(p[1] == params@[1]@);
            }
            if params.len() > 2 {
                assert(p[2] == params@[2]@);
            }
        }
        if is_text(&event.event_type, "0") {
            if params.len() >= 1 {
                let filename = unquoted_text(&params[0]);
                let x_offset = offset_of(params, 1);
                let y_offset = offset_of(params, 2);
                self.background = Some(Background { filename, x_offset, y_offset });
            }
        } else if is_text(&event.event_type, "1") || is_text(&event.event_type, "Video") {
            if params.len() >= 1 {
                let filename = unquoted_text(&params[0]);
                let x_offset = offset_of(params, 1);
                let y_offset = offset_of(params, 2);
                self.video = Some(
                    Video { start_time: event.start_time, filename, x_offset, y_offset },
                );
            }
        } else if is_text(&event.event_type, "2") || is_text(&event.event_type, "Break") {
            if params.len() >= 1 {
                let v = chars_of(params[0].as_str());
                assert(v@.subrange(0, v@.len() as int) =~= v@);
                match read_i32(&v, 0, v.len()) {
                    Some(end) => {
                        self.breaks.push(Break { start_time: event.start_time, end_time: end });
                    },
                    None => {
                        let mut m = String::new();
                        m.append("Invalid break end time: ");
                        m.append(params[0].as_str());
                        assert(m@ =~= "Invalid break end time: "@ + p[0]);
                        return Err(m);
                    },
                }
            }
        } else if is_text(&event.event_type, "Sample") {
            if params.len() >= 2 {
                let v = chars_of(params[0].as_str());
                assert(v@.subrange(0, v@.len() as int) =~= v@);
                match read_i32(&v, 0, v.len()) {
                    Some(layer) => {
                        let filename = unquoted_text(&params[1]);
                        let volume: u8 = if params.len() >= 3 {
                            let w = chars_of(params[2].as_str());
                            assert(w@.subrange(0, w@.len() as int) =~= w@);
                            match read_u8(&w, 0, w.len()) {
                                Some(n) => n,
                                None => 100,
                            }
                        } else {
                            100
                        };
                        let ghost before = self.samples@;
                        let sample = Sample {
                            start_time: event.start_time,
                            layer,
                            filename,
                            volume,
                        };
                        self.samples.push(sample);
                        assert(self.samples@.map_values(|s: Sample| sample_fields(s))
                            =~= before.map_values(|s: Sample| sample_fields(s)).push(
                            sample_fields(sample),
                        ));
                    },
                    None => {
                        let mut m = String::new();
                        m.append("Invalid sample layer: ");
                        m.append(params[0].as_str());
                        assert(m@ =~= "Invalid sample layer: "@ + p[0]);
                        return Err(m);
                    },
                }
            }
        }
        Ok(())
    }

    /// Reads the section. The first line that cannot be read is the error.
    pub fn from_str(s: &str) -> (r: Result<Events, String>)
        ensures
            match r {
                Ok(e) => EventsSoFar::nothing().with_lines(trimmed_lines(s@)) == Ok::<
                    EventsSoFar,
                    Seq<char>,
                >(e.so_far()) && e.raw_events@ == s@,
                Err(m) => EventsSoFar::nothing().with_lines(trimmed_lines(s@)) == Err::<
                    EventsSoFar,
                    Seq<char>,
                >(m@),
            },
    {
        let mut events = Events::new();
        events.raw_events = s.to_owned();
        let lines = read_lines(s);
        let ghost all = lines.deep_view();
        let n = lines.len();
        let mut i: usize = 0;
        proof {
            assert(all.subrange(0, n as int) =~= all);
            assert(events.so_far().samples =~= Seq::<(i32, i32, Seq<char>, u8)>::empty());
            assert(events.so_far().breaks =~= Seq::<Break>::empty());
        }
        while i < n
            invariant
                i <= n,
                n == lines@.len(),
                all == lines.deep_view(),
                all == trimmed_lines(s@),
                events.raw_events@ == s@,
                EventsSoFar::nothing().with_lines(all) == events.so_far().with_lines(
                    all.subrange(i as int, n as int),
                ),
            decreases n - i,
        {
            let line = &lines[i];
            proof {
                assert(all.subrange(i as int, n as int).drop_first() =~= all.subrange(
                    i + 1,
                    n as int,
                ));
                assert(all[i as int] == lines@[i as int].deep_view());
                assert(lines@[i as int].deep_view() =~= line@);
                assert(all.subrange(i as int, n as int)[0] == line@);
            }
            if line_counts(line) {
                let event = match Event::from_chars(line) {
                    Ok(e) => e,
                    Err(m) => {
                        return Err(m);
                    },
                };
                match events.take(&event) {
                    Ok(()) => {},
                    Err(m) => {
                        return Err(m);
                    },
                }
            }
            i += 1;
        }
        assert(all.subrange(n as int, n as int) =~= Seq::<Seq<char>>::empty());
        Ok(events)
    }
}

} // verus!
