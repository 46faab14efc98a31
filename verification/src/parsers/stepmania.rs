//! From the slash-based format to the canonical chart.

use vstd::prelude::*;
use crate::errors::ChartError;
use crate::models::common::{HitObjectRow, Key, KeyType, TimingChangeType};
use crate::models::fluxis::hitobjects::{clamp_to_i32, clamped};
use crate::models::generic::chart::GenericManiaChart;
use crate::models::generic::chartinfo::ChartInfo;
use crate::models::generic::hitobjects::HitObjects;
use crate::models::generic::metadata::Metadata;
use crate::models::generic::timing_points::{TimingPoint, TimingPoints};
use crate::models::grid::{grid_error, HitObjectTimeline, Pairing, PairingWarning};
use crate::models::ordered::{is_stable_sort_of, lemma_stable_sort_unique};
use crate::models::timeline::{
    stamped_through, tempo_pairs, TimelineOps, TimelineTimingPoint, TimingPointTimeline,
};
use crate::utils::beats::{
    calculate_time_from_beat, changes_valid, check_changes, time_of_beat, MAX_BEAT,
};
use crate::utils::numbers::{fixed_in_range, read_fixed};
use crate::utils::rhythm::tempos_valid;
use crate::utils::sections::{find_char, first_of, lookup, pair_texts, section_text};
use crate::utils::text::{
    chars_of, join, joined, push_char, split, split_range, string_of, trim_range, trimmed,
};

verus! {

/// The key that a character of a row stands for.
pub open spec fn note_type_of(c: char) -> Key {
    if c == '0' {
        Key { key_type: KeyType::Empty, slider_end_time: None }
    } else if c == '1' {
        Key { key_type: KeyType::Normal, slider_end_time: None }
    } else if c == '2' || c == '4' {
        Key { key_type: KeyType::SliderStart, slider_end_time: None }
    } else if c == '3' {
        Key { key_type: KeyType::SliderEnd, slider_end_time: None }
    } else if c == 'M' {
        Key { key_type: KeyType::Mine, slider_end_time: None }
    } else if c == 'F' {
        Key { key_type: KeyType::Fake, slider_end_time: None }
    } else {
        Key { key_type: KeyType::Unknown, slider_end_time: None }
    }
}

pub fn get_sm_note_type(note: char) -> (k: Key)
    ensures
        k == note_type_of(note),
{
    if note == '0' {
        Key::empty()
    } else if note == '1' {
        Key::normal()
    } else if note == '2' || note == '4' {
        Key::slider_start(None)
    } else if note == '3' {
        Key::slider_end()
    } else if note == 'M' {
        Key::mine()
    } else if note == 'F' {
        Key::fake()
    } else {
        Key::unknown()
    }
}

/// The keys of a row: one for each character.
pub open spec fn keys_of(row: Seq<char>) -> Seq<Key> {
    row.map_values(|c: char| note_type_of(c))
}

fn keys_in(row: &Vec<char>, from: usize, to: usize) -> (keys: Vec<Key>)
    requires
        from <= to <= row@.len(),
    ensures
        keys@ == keys_of(row@.subrange(from as int, to as int)),
{
    let mut keys: Vec<Key> = Vec::new();
    let mut i: usize = from;
    while i < to
        invariant
            from <= i <= to <= row@.len(),
            keys@ == keys_of(row@.subrange(from as int, i as int)),
        decreases to - i,
    {
        keys.push(get_sm_note_type(row[i]));
        i += 1;
        assert(keys@ =~= keys_of(row@.subrange(from as int, i as int)));
    }
    keys
}

pub fn parse_keys_in_row(row: &str) -> (keys: Vec<Key>)
    ensures
        keys@ == keys_of(row@),
{
    let v = chars_of(row);
    assert(v@.subrange(0, v@.len() as int) =~= v@);
    keys_in(&v, 0, v.len())
}

/// The pair of numbers that a piece `a=b` writes, both in thousandths, if it
/// writes one.
pub open spec fn pair_of(piece: Seq<char>) -> Option<(i64, i64)> {
    let parts = split(trimmed(piece), '=');
    if parts.len() >= 2 && fixed_in_range(parts[0]) is Some && fixed_in_range(parts[1]) is Some {
        Some((fixed_in_range(parts[0])->0 as i64, fixed_in_range(parts[1])->0 as i64))
    } else {
        None
    }
}

/// The pairs that the pieces write, in order; pieces that write none are
/// passed over.
pub open spec fn pairs_of(pieces: Seq<Seq<char>>) -> Seq<(i64, i64)>
    decreases pieces.len(),
{
    if pieces.len() == 0 {
        Seq::empty()
    } else {
        match pair_of(pieces.last()) {
            Some(p) => pairs_of(pieces.drop_last()).push(p),
            None => pairs_of(pieces.drop_last()),
        }
    }
}

/// The pairs of a list `a=b,c=d,...`.
pub open spec fn listed_pairs(raw: Seq<char>) -> Seq<(i64, i64)> {
    pairs_of(split(raw, ','))
}

fn read_pair(piece: &Vec<char>) -> (r: Option<(i64, i64)>)
    ensures
        r == pair_of(piece@),
{
    assert(piece@.subrange(0, piece@.len() as int) =~= piece@);
    let (a, b) = trim_range(piece, 0, piece.len());
    let parts = split_range(piece, a, b, '=');
    proof {
        assert forall|k: int| 0 <= k < parts@.len() implies #[trigger] parts.deep_view()[k]
            == parts@[k]@ by {
            assert(parts@[k].deep_view() =~= parts@[k]@);
        }
    }
    if parts.len() < 2 {
        return None;
    }
    assert(parts@[0]@.subrange(0, parts@[0]@.len() as int) =~= parts@[0]@);
    assert(parts@[1]@.subrange(0, parts@[1]@.len() as int) =~= parts@[1]@);
    match (read_fixed(&parts[0], 0, parts[0].len()), read_fixed(&parts[1], 0, parts[1].len())) {
        (Some(x), Some(y)) => Some((x, y)),
        _ => None,
    }
}

fn read_pairs(raw: &str) -> (pairs: Vec<(i64, i64)>)
    ensures
        pairs@ == listed_pairs(raw@),
{
    let v = chars_of(raw);
    assert(v@.subrange(0, v@.len() as int) =~= v@);
    let pieces = split_range(&v, 0, v.len(), ',');
    let ghost all = pieces.deep_view();
    let mut pairs: Vec<(i64, i64)> = Vec::new();
    let mut i: usize = 0;
    assert(all.subrange(0, 0) =~= Seq::<Seq<char>>::empty());
    while i < pieces.len()
        invariant
            i <= pieces.len(),
            all == pieces.deep_view(),
            pairs@ == pairs_of(all.subrange(0, i as int)),
        decreases pieces.len() - i,
    {
        proof {
            assert(all.subrange(0, i + 1).drop_last() =~= all.subrange(0, i as int));
            assert(all[i as int] == pieces@[i as int].deep_view());
            assert(pieces@[i as int].deep_view() =~= pieces@[i as int]@);
            assert(all.subrange(0, i + 1).last() == pieces@[i as int]@);
        }
        match read_pair(&pieces[i]) {
            Some(p) => {
                pairs.push(p);
            },
            None => {},
        }
        i += 1;
    }
    assert(all.subrange(0, i as int) =~= all);
    pairs
}

/// The tempo changes of a `#BPMS` list as `(beat, bpm)`, both in
/// thousandths. A file without the list has the tempo 0 at beat 0.
pub open spec fn bpms_of(raw: Seq<char>) -> Seq<(i64, i64)> {
    if raw == "No BPM Data"@ {
        seq![(0i64, 0i64)]
    } else {
        listed_pairs(raw)
    }
}

/// The stops of a `#STOPS` list as `(beat, duration)`: the beat in
/// thousandths, the duration in milliseconds.
pub open spec fn stops_of(raw: Seq<char>) -> Seq<(i64, i64)> {
    if raw == "No STOPS Data"@ {
        Seq::empty()
    } else {
        listed_pairs(raw)
    }
}

fn first_parts(pairs: &Vec<(i64, i64)>) -> (r: (Vec<i64>, Vec<i64>))
    ensures
        r.0@ == pairs@.map_values(|p: (i64, i64)| p.0),
        r.1@ == pairs@.map_values(|p: (i64, i64)| p.1),
{
    let mut a: Vec<i64> = Vec::new();
    let mut b: Vec<i64> = Vec::new();
    let mut i: usize = 0;
    while i < pairs.len()
        invariant
            i <= pairs.len(),
            a@ == pairs@.subrange(0, i as int).map_values(|p: (i64, i64)| p.0),
            b@ == pairs@.subrange(0, i as int).map_values(|p: (i64, i64)| p.1),
        decreases pairs.len() - i,
    {
        a.push(pairs[i].0);
        b.push(pairs[i].1);
        i += 1;
        assert(a@ =~= pairs@.subrange(0, i as int).map_values(|p: (i64, i64)| p.0));
        assert(b@ =~= pairs@.subrange(0, i as int).map_values(|p: (i64, i64)| p.1));
    }
    assert(pairs@.subrange(0, i as int) =~= pairs@);
    (a, b)
}

/// Reads a `#BPMS` list: the beats and the tempos, both in thousandths.
pub fn parse_bpms(raw: &str) -> (r: (Vec<i64>, Vec<i64>))
    ensures
        r.0@ == bpms_of(raw@).map_values(|p: (i64, i64)| p.0),
        r.1@ == bpms_of(raw@).map_values(|p: (i64, i64)| p.1),
{
    let pairs = bpm_pairs(raw);
    first_parts(&pairs)
}

/// Reads a `#STOPS` list: the beats in thousandths and the durations in
/// milliseconds.
pub fn parse_stops(raw: &str) -> (r: (Vec<i64>, Vec<i64>))
    ensures
        r.0@ == stops_of(raw@).map_values(|p: (i64, i64)| p.0),
        r.1@ == stops_of(raw@).map_values(|p: (i64, i64)| p.1),
{
    let pairs = stop_pairs(raw);
    first_parts(&pairs)
}

fn bpm_pairs(raw: &str) -> (pairs: Vec<(i64, i64)>)
    ensures
        pairs@ == bpms_of(raw@),
{
    if raw.to_owned() == "No BPM Data".to_owned() {
        let mut pairs: Vec<(i64, i64)> = Vec::new();
        pairs.push((0, 0));
        assert(pairs@ =~= seq![(0i64, 0i64)]);
        pairs
    } else {
        read_pairs(raw)
    }
}

fn stop_pairs(raw: &str) -> (pairs: Vec<(i64, i64)>)
    ensures
        pairs@ == stops_of(raw@),
{
    if raw.to_owned() == "No STOPS Data".to_owned() {
        Vec::new()
    } else {
        read_pairs(raw)
    }
}

/// The section that a piece between two semicolons writes, if it has a
/// colon: the trimmed text before the first colon as header, and the trimmed
/// text behind it as content. Where the content has a colon itself, the
/// texts before and behind its first colon are trimmed too.
pub open spec fn section_of(piece: Seq<char>) -> Option<(Seq<char>, Seq<char>)> {
    let colon = first_of(piece, ':');
    if colon < piece.len() {
        let content = trimmed(piece.subrange(colon + 1, piece.len() as int));
        let second = first_of(content, ':');
        Some(
            (
                trimmed(piece.subrange(0, colon)),
                if second < content.len() {
                    trimmed(content.subrange(0, second)) + seq![':'] + trimmed(
                        content.subrange(second + 1, content.len() as int),
                    )
                } else {
                    content
                },
            ),
        )
    } else {
        None
    }
}

/// The sections that the pieces write, in order.
pub open spec fn sections_in(pieces: Seq<Seq<char>>) -> Seq<(Seq<char>, Seq<char>)>
    decreases pieces.len(),
{
    if pieces.len() == 0 {
        Seq::empty()
    } else {
        match section_of(pieces.last()) {
            Some(s) => sections_in(pieces.drop_last()).push(s),
            None => sections_in(pieces.drop_last()),
        }
    }
}

/// The sections of a file: its pieces between semicolons that have a colon.
pub open spec fn sections_of(raw: Seq<char>) -> Seq<(Seq<char>, Seq<char>)> {
    sections_in(split(raw, ';'))
}

fn read_section(piece: &Vec<char>) -> (r: Option<(String, String)>)
    ensures
        match r {
            Some(s) => section_of(piece@) == Some((s.0@, s.1@)),
            None => section_of(piece@) is None,
        },
{
    assert(piece@.subrange(0, piece@.len() as int) =~= piece@);
    let colon = find_char(piece, 0, piece.len(), ':');
    if colon >= piece.len() {
        return None;
    }
    let (a, b) = trim_range(piece, 0, colon);
    let header = string_of(piece, a, b);
    let (c, d) = trim_range(piece, colon + 1, piece.len());
    let ghost content = piece@.subrange(c as int, d as int);
    let second = find_char(piece, c, d, ':');
    if second < d {
        let (e, f) = trim_range(piece, c, second);
        let (g, h) = trim_range(piece, second + 1, d);
        proof {
            assert(content.subrange(0, second - c) =~= piece@.subrange(c as int, second as int));
            assert(content.subrange(second - c + 1, content.len() as int) =~= piece@.subrange(
                second + 1,
                d as int,
            ));
        }
        let mut text = string_of(piece, e, f);
        push_char(&mut text, ':');
        text.append(string_of(piece, g, h).as_str());
        assert(text@ =~= trimmed(content.subrange(0, second - c)) + seq![':'] + trimmed(
            content.subrange(second - c + 1, content.len() as int),
        ));
        Some((header, text))
    } else {
        Some((header, string_of(piece, c, d)))
    }
}

/// Reads the sections of a file.
pub fn process_sections(raw_chart: &str) -> (sections: Vec<(String, String)>)
    ensures
        pair_texts(sections@) == sections_of(raw_chart@),
{
    let v = chars_of(raw_chart);
    assert(v@.subrange(0, v@.len() as int) =~= v@);
    let pieces = split_range(&v, 0, v.len(), ';');
    let ghost all = pieces.deep_view();
    let mut sections: Vec<(String, String)> = Vec::new();
    let mut i: usize = 0;
    proof {
        assert(all.subrange(0, 0) =~= Seq::<Seq<char>>::empty());
        assert(pair_texts(sections@) =~= Seq::<(Seq<char>, Seq<char>)>::empty());
    }
    while i < pieces.len()
        invariant
            i <= pieces.len(),
            all == pieces.deep_view(),
            pair_texts(sections@) == sections_in(all.subrange(0, i as int)),
        decreases pieces.len() - i,
    {
        proof {
            assert(all.subrange(0, i + 1).drop_last() =~= all.subrange(0, i as int));
            assert(all[i as int] == pieces@[i as int].deep_view());
            assert(pieces@[i as int].deep_view() =~= pieces@[i as int]@);
            assert(all.subrange(0, i + 1).last() == pieces@[i as int]@);
        }
        match read_section(&pieces[i]) {
            Some(s) => {
                let ghost before = sections@;
                sections.push(s);
                assert(pair_texts(sections@) =~= pair_texts(before).push((s.0@, s.1@)));
            },
            None => {},
        }
        i += 1;
    }
    assert(all.subrange(0, i as int) =~= all);
    sections
}

/// The index at which a comment begins in a line: that of the first `//`,
/// or the length of the line if it has none.
pub open spec fn comment_start(line: Seq<char>) -> int
    decreases line.len(),
{
    if line.len() < 2 {
        line.len() as int
    } else if line[0] == '/' && line[1] == '/' {
        0
    } else {
        1 + comment_start(line.drop_first())
    }
}

/// A line without its comment.
pub open spec fn uncommented_line(line: Seq<char>) -> Seq<char> {
    line.subrange(0, comment_start(line))
}

/// A text without its comments: each line cut off where `//` begins.
pub open spec fn uncommented(raw: Seq<char>) -> Seq<char> {
    joined(split(raw, '\n').map_values(|line: Seq<char>| uncommented_line(line)), "\n"@)
}

proof fn lemma_comment_start_range(line: Seq<char>)
    ensures
        0 <= comment_start(line) <= line.len(),
    decreases line.len(),
{
    if line.len() >= 2 && !(line[0] == '/' && line[1] == '/') {
        lemma_comment_start_range(line.drop_first());
    }
}

fn find_comment(line: &Vec<char>) -> (at: usize)
    ensures
        at == comment_start(line@),
        at <= line@.len(),
{
    let n = line.len();
    let mut i: usize = 0;
    assert(line@.subrange(0, n as int) =~= line@);
    while n - i > 1 && !(line[i] == '/' && line[i + 1] == '/')
        invariant
            i <= n,
            n == line@.len(),
            comment_start(line@) == i + comment_start(line@.subrange(i as int, n as int)),
        decreases n - i,
    {
        let ghost rest = line@.subrange(i as int, n as int);
        assert(rest[0] == line@[i as int] && rest[1] == line@[i + 1]);
        assert(rest.drop_first() =~= line@.subrange(i + 1, n as int));
        i += 1;
    }
    let ghost rest = line@.subrange(i as int, n as int);
    if n - i > 1 {
        assert(rest[0] == line@[i as int] && rest[1] == line@[i + 1]);
        i
    } else {
        proof {
            lemma_comment_start_range(rest);
        }
        n
    }
}

/// Removes the comments of a text.
pub fn remove_comments(raw: &str) -> (out: String)
    ensures
        out@ == uncommented(raw@),
{
    let v = chars_of(raw);
    assert(v@.subrange(0, v@.len() as int) =~= v@);
    let lines = split_range(&v, 0, v.len(), '\n');
    let mut kept: Vec<String> = Vec::new();
    let mut i: usize = 0;
    while i < lines.len()
        invariant
            i <= lines.len(),
            kept@.len() == i,
            forall|k: int| 0 <= k < i ==> (#[trigger] kept@[k])@ == uncommented_line(lines@[k]@),
        decreases lines.len() - i,
    {
        let line = &lines[i];
        let at = find_comment(line);
        kept.push(string_of(line, 0, at));
        i += 1;
    }
    proof {
        assert forall|k: int| 0 <= k < kept@.len() implies #[trigger] kept.deep_view()[k] == split(
            raw@,
            '\n',
        ).map_values(|line: Seq<char>| uncommented_line(line))[k] by {
            assert(lines@[k].deep_view() =~= lines@[k]@);
            assert(lines.deep_view()[k] == lines@[k].deep_view());
        }
        assert(kept.deep_view() =~= split(raw@, '\n').map_values(
            |line: Seq<char>| uncommented_line(line),
        ));
    }
    join(&kept, "\n")
}

/// The ticks in a thousandth of a beat.
pub const TICKS_PER_MILLIBEAT: i64 = 60_000;

/// The ticks in the four beats of a measure.
pub const TICKS_PER_MEASURE: i64 = 240_000_000;

/// The largest beat, in thousandths, that a list may name.
pub const MAX_MILLIBEAT: i64 = 16_000_000_000;

/// Every beat of the list lies within `MAX_MILLIBEAT`.
pub open spec fn beats_in_range(pairs: Seq<(i64, i64)>) -> bool {
    forall|i: int|
        0 <= i < pairs.len() ==> -MAX_MILLIBEAT <= (#[trigger] pairs[i]).0 <= MAX_MILLIBEAT
}

/// The pairs with their beats in ticks.
pub open spec fn in_ticks(pairs: Seq<(i64, i64)>) -> Seq<(i64, i64)> {
    pairs.map_values(|p: (i64, i64)| ((p.0 * TICKS_PER_MILLIBEAT) as i64, p.1))
}

fn to_ticks(pairs: &Vec<(i64, i64)>) -> (r: Option<Vec<(i64, i64)>>)
    ensures
        r is Some <==> beats_in_range(pairs@),
        r is Some ==> r->0@ == in_ticks(pairs@),
{
    let mut out: Vec<(i64, i64)> = Vec::new();
    let mut i: usize = 0;
    while i < pairs.len()
        invariant
            i <= pairs.len(),
            out@ == in_ticks(pairs@.subrange(0, i as int)),
            forall|k: int|
                0 <= k < i ==> -MAX_MILLIBEAT <= (#[trigger] pairs@[k]).0 <= MAX_MILLIBEAT,
        decreases pairs.len() - i,
    {
        let (beat, value) = pairs[i];
        if beat < -MAX_MILLIBEAT || beat > MAX_MILLIBEAT {
            assert(!(-MAX_MILLIBEAT <= pairs@[i as int].0 <= MAX_MILLIBEAT));
            return None;
        }
        out.push((beat * TICKS_PER_MILLIBEAT, value));
        i += 1;
        assert(out@ =~= in_ticks(pairs@.subrange(0, i as int)));
    }
    assert(pairs@.subrange(0, i as int) =~= pairs@);
    Some(out)
}

/// The timeline item of a tempo change at a beat.
pub open spec fn tempo_item(
    change: (i64, i64),
    changes: Seq<(i64, i64)>,
    stops: Seq<(i64, i64)>,
    start: i32,
) -> TimelineTimingPoint {
    TimelineTimingPoint {
        time: time_of_beat(changes, stops, start, change.0 as int),
        value: change.1,
        change_type: TimingChangeType::Bpm,
    }
}

/// The timeline items of a stop at a beat: the scroll stands still from the
/// time of the stop, and moves again when the stop is over.
pub open spec fn stop_items(
    stop: (i64, i64),
    changes: Seq<(i64, i64)>,
    stops: Seq<(i64, i64)>,
    start: i32,
) -> Seq<TimelineTimingPoint> {
    let time = time_of_beat(changes, stops, start, stop.0 as int);
    seq![
        TimelineTimingPoint { time, value: 0, change_type: TimingChangeType::Sv },
        TimelineTimingPoint {
            time: clamped(time + stop.1),
            value: 1000,
            change_type: TimingChangeType::Sv,
        },
    ]
}

/// The timeline items of the stops, in order.
pub open spec fn all_stop_items(
    some: Seq<(i64, i64)>,
    changes: Seq<(i64, i64)>,
    stops: Seq<(i64, i64)>,
    start: i32,
) -> Seq<TimelineTimingPoint>
    decreases some.len(),
{
    if some.len() == 0 {
        Seq::empty()
    } else {
        all_stop_items(some.drop_last(), changes, stops, start) + stop_items(
            some.last(),
            changes,
            stops,
            start,
        )
    }
}

/// The timeline items of a timing by beat: the tempo changes, then the stops.
pub open spec fn timeline_items(
    changes: Seq<(i64, i64)>,
    stops: Seq<(i64, i64)>,
    start: i32,
) -> Seq<TimelineTimingPoint> {
    changes.map_values(|c: (i64, i64)| tempo_item(c, changes, stops, start)) + all_stop_items(
        stops,
        changes,
        stops,
        start,
    )
}

/// The timeline item that a timing point was.
pub open spec fn unstamped(p: TimingPoint) -> TimelineTimingPoint {
    TimelineTimingPoint { time: p.time, value: p.change.value, change_type: p.change.change_type }
}

/// The stops as a tempo map takes them: each `(beat, duration)` with the
/// time of its beat in place of the beat.
pub open spec fn stop_windows(
    some: Seq<(i64, i64)>,
    changes: Seq<(i64, i64)>,
    stops: Seq<(i64, i64)>,
    start: i32,
) -> Seq<(i32, i64)> {
    some.map_values(|s: (i64, i64)| (time_of_beat(changes, stops, start, s.0 as int), s.1))
}

/// `points` are the timing points of the items: the items sorted by time,
/// those of equal time in the order given, each with the beat position that
/// the tempo changes among them and the stops `windows` give its time when
/// position 0 lies at `start`. Through a stop the beat position stands
/// still, so the two points of a stop carry one beat.
pub open spec fn points_of_items(
    points: Seq<TimingPoint>,
    items: Seq<TimelineTimingPoint>,
    windows: Seq<(i32, i64)>,
    start: i32,
) -> bool {
    let sorted = points.map_values(|p: TimingPoint| unstamped(p));
    &&& is_stable_sort_of(sorted, items)
    &&& tempos_valid(tempo_pairs(sorted))
    &&& points == sorted.map_values(
        |p: TimelineTimingPoint| stamped_through(p, tempo_pairs(sorted), windows, start as int),
    )
}

/// The items cannot become timing points: once they are sorted by time,
/// their tempo changes are not such as a tempo map accepts.
pub open spec fn timeline_unusable(items: Seq<TimelineTimingPoint>) -> bool {
    exists|sorted: Seq<TimelineTimingPoint>| #[trigger]
        is_stable_sort_of(sorted, items) && !tempos_valid(tempo_pairs(sorted))
}

/// Turns a timing by beat into the timing points of a chart. Beats are in
/// ticks.
pub fn process_timing_points(
    changes: &Vec<(i64, i64)>,
    stops: &Vec<(i64, i64)>,
    start_time: i32,
) -> (r: Result<TimingPoints, ChartError>)
    requires
        changes_valid(changes@),
        forall|i: int| 0 <= i < stops@.len() ==> -MAX_BEAT <= (#[trigger] stops@[i]).0 <= MAX_BEAT,
    ensures
        r is Err <==> timeline_unusable(timeline_items(changes@, stops@, start_time)),
        match r {
            Ok(t) => points_of_items(
                t.points@,
                timeline_items(changes@, stops@, start_time),
                stop_windows(stops@, changes@, stops@, start_time),
                start_time,
            ),
            Err(e) => e == ChartError::InvalidTempo,
        },
{
    let mut timeline = TimingPointTimeline::new();
    let ghost tempo_part = changes@.map_values(
        |c: (i64, i64)| tempo_item(c, changes@, stops@, start_time),
    );
    let mut i: usize = 0;
    assert(timeline.state().items =~= tempo_part.subrange(0, 0));
    while i < changes.len()
        invariant
            i <= changes.len(),
            changes_valid(changes@),
            tempo_part == changes@.map_values(
                |c: (i64, i64)| tempo_item(c, changes@, stops@, start_time),
            ),
            timeline.state().wf(),
            timeline.state().items == tempo_part.subrange(0, i as int),
        decreases changes.len() - i,
    {
        let (beat, bpm) = changes[i];
        assert(-MAX_BEAT <= changes@[i as int].0 <= MAX_BEAT);
        let time = calculate_time_from_beat(beat, start_time, changes, stops);
        timeline.add(TimelineTimingPoint { time, value: bpm, change_type: TimingChangeType::Bpm });
        i += 1;
        assert(timeline.state().items =~= tempo_part.subrange(0, i as int));
    }
    assert(tempo_part.subrange(0, i as int) =~= tempo_part);
    let mut j: usize = 0;
    let mut windows: Vec<(i32, i64)> = Vec::new();
    assert(stops@.subrange(0, 0) =~= Seq::<(i64, i64)>::empty());
    assert(windows@ =~= stop_windows(stops@.subrange(0, 0), changes@, stops@, start_time));
    assert(timeline.state().items =~= tempo_part + all_stop_items(
        stops@.subrange(0, 0),
        changes@,
        stops@,
        start_time,
    ));
    while j < stops.len()
        invariant
            j <= stops.len(),
            changes_valid(changes@),
            forall|k: int|
                0 <= k < stops@.len() ==> -MAX_BEAT <= (#[trigger] stops@[k]).0 <= MAX_BEAT,
            tempo_part == changes@.map_values(
                |c: (i64, i64)| tempo_item(c, changes@, stops@, start_time),
            ),
            timeline.state().wf(),
            timeline.state().items == tempo_part + all_stop_items(
                stops@.subrange(0, j as int),
                changes@,
                stops@,
                start_time,
            ),
            windows@ == stop_windows(stops@.subrange(0, j as int), changes@, stops@, start_time),
        decreases stops.len() - j,
    {
        let (beat, duration) = stops[j];
        proof {
            assert(-MAX_BEAT <= stops@[j as int].0 <= MAX_BEAT);
            assert(stops@.subrange(0, j + 1).drop_last() =~= stops@.subrange(0, j as int));
            assert(stops@.subrange(0, j + 1).last() == stops@[j as int]);
        }
        let time = calculate_time_from_beat(beat, start_time, changes, stops);
        let ghost before = timeline.state().items;
        windows.push((time, duration));
        timeline.add(TimelineTimingPoint { time, value: 0, change_type: TimingChangeType::Sv });
        let end: i128 = time as i128 + duration as i128;
        let end_time: i32 = if end < i32::MIN as i128 {
            i32::MIN
        } else if end > i32::MAX as i128 {
            i32::MAX
        } else {
            end as i32
        };
        timeline.add(
            TimelineTimingPoint { time: end_time, value: 1000, change_type: TimingChangeType::Sv },
        );
        j += 1;
        proof {
            let new = stop_items(stops@[j - 1], changes@, stops@, start_time);
            assert(timeline.state().items =~= before + new);
            assert(timeline.state().items =~= tempo_part + all_stop_items(
                stops@.subrange(0, j as int),
                changes@,
                stops@,
                start_time,
            ));
            assert(windows@ =~= stop_windows(
                stops@.subrange(0, j as int),
                changes@,
                stops@,
                start_time,
            ));
        }
    }
    assert(stops@.subrange(0, j as int) =~= stops@);
    let mut timing_points = TimingPoints::with_capacity(timeline.len());
    let ghost items = timeline.state().items;
    match timeline.to_timing_points_with_stops(&mut timing_points, &windows, start_time) {
        Ok(()) => {
            proof {
                let sorted = timeline.state().items;
                let points = timing_points.points@;
                assert(points =~= sorted.map_values(
                    |p: TimelineTimingPoint|
                        stamped_through(p, tempo_pairs(sorted), windows@, start_time as int),
                ));
                assert(points.map_values(|p: TimingPoint| unstamped(p)) =~= sorted);
                if timeline_unusable(items) {
                    let other = choose|other: Seq<TimelineTimingPoint>| #[trigger]
                        is_stable_sort_of(other, items) && !tempos_valid(tempo_pairs(other));
                    lemma_stable_sort_unique(other, sorted, items);
                }
            }
            Ok(timing_points)
        },
        Err(_) => {
            proof {
                let sorted = timeline.state().items;
                assert(items == timeline_items(changes@, stops@, start_time));
                assert(is_stable_sort_of(sorted, timeline_items(changes@, stops@, start_time))
                    && !tempos_valid(tempo_pairs(sorted)));
            }
            Err(ChartError::InvalidTempo)
        },
    }
}

/// What reading a file gives: the chart, and what the pairing of its long
/// notes could not resolve.
#[derive(Debug, Clone)]
pub struct Parsed {
    pub chart: GenericManiaChart,
    pub warnings: Vec<PairingWarning>,
}

/// The lane count of the format.
pub const KEY_COUNT: usize = 4;

/// The most measures that a note block may have.
pub const MAX_MEASURES: usize = 4_000_000;

/// The lines of a measure: the lines of its trimmed text, each trimmed.
pub open spec fn measure_lines(measure: Seq<char>) -> Seq<Seq<char>> {
    split(trimmed(measure), '\n').map_values(|line: Seq<char>| trimmed(line))
}

/// The beat, in ticks, of line `r` of `count` in measure `m`: the lines of a
/// measure divide its four beats evenly.
pub open spec fn line_beat(m: int, r: int, count: int) -> int {
    m * TICKS_PER_MEASURE + r * TICKS_PER_MEASURE / count
}

/// `row` is what line `r` of `count` in measure `m` reads as.
pub open spec fn row_reads(
    row: HitObjectRow,
    text: Seq<char>,
    m: int,
    r: int,
    count: int,
    changes: Seq<(i64, i64)>,
    stops: Seq<(i64, i64)>,
    start: i32,
) -> bool {
    &&& row.beat == line_beat(m, r, count)
    &&& row.time == time_of_beat(changes, stops, start, line_beat(m, r, count))
    &&& row.keys@ == keys_of(text)
}

/// `rows` are what the measures read as: the rows of each measure, one
/// measure after the other.
pub open spec fn rows_read(
    rows: Seq<HitObjectRow>,
    measures: Seq<Seq<char>>,
    changes: Seq<(i64, i64)>,
    stops: Seq<(i64, i64)>,
    start: i32,
) -> bool
    decreases measures.len(),
{
    if measures.len() == 0 {
        rows.len() == 0
    } else {
        let lines = measure_lines(measures.last());
        let before = rows.len() - lines.len();
        &&& before >= 0
        &&& rows_read(rows.subrange(0, before), measures.drop_last(), changes, stops, start)
        &&& forall|r: int|
            0 <= r < lines.len() ==> row_reads(
                #[trigger] rows[before + r],
                lines[r],
                measures.len() - 1,
                r,
                lines.len() as int,
                changes,
                stops,
                start,
            )
    }
}

fn read_measure(
    measure: &Vec<char>,
    m: usize,
    rows: &mut Vec<HitObjectRow>,
    changes: &Vec<(i64, i64)>,
    stops: &Vec<(i64, i64)>,
    start: i32,
)
    requires
        changes_valid(changes@),
        m < MAX_MEASURES,
    ensures
        final(rows)@.len() == old(rows)@.len() + measure_lines(measure@).len(),
        final(rows)@.subrange(0, old(rows)@.len() as int) == old(rows)@,
        forall|r: int|
            0 <= r < measure_lines(measure@).len() ==> row_reads(
                #[trigger] final(rows)@[old(rows)@.len() + r],
                measure_lines(measure@)[r],
                m as int,
                r,
                measure_lines(measure@).len() as int,
                changes@,
                stops@,
                start,
            ),
{
    assert(measure@.subrange(0, measure@.len() as int) =~= measure@);
    let (a, b) = trim_range(measure, 0, measure.len());
    let lines = split_range(measure, a, b, '\n');
    let count = lines.len();
    let ghost texts = measure_lines(measure@);
    let ghost base = rows@;
    proof {
        assert forall|k: int| 0 <= k < lines@.len() implies texts[k] == trimmed(
            #[trigger] lines@[k]@,
        ) by {
            assert(lines@[k].deep_view() =~= lines@[k]@);
            assert(lines.deep_view()[k] == lines@[k].deep_view());
        }
    }
    let mut r: usize = 0;
    while r < count
        invariant
            r <= count,
            count == lines@.len(),
            count == texts.len(),
            texts == measure_lines(measure@),
            changes_valid(changes@),
            m < MAX_MEASURES,
            forall|k: int| 0 <= k < lines@.len() ==> texts[k] == trimmed(#[trigger] lines@[k]@),
            rows@.len() == base.len() + r,
            rows@.subrange(0, base.len() as int) == base,
            forall|k: int|
                0 <= k < r ==> row_reads(
                    #[trigger] rows@[base.len() + k],
                    texts[k],
                    m as int,
                    k,
                    count as int,
                    changes@,
                    stops@,
                    start,
                ),
        decreases count - r,
    {
        let line = &lines[r];
        assert(line@.subrange(0, line@.len() as int) =~= line@);
        let (c, d) = trim_range(line, 0, line.len());
        let keys = keys_in(line, c, d);
        let within: u128 = (r as u128) * (TICKS_PER_MEASURE as u128) / (count as u128);
        proof {
            assert((r as int) * TICKS_PER_MEASURE / (count as int) <= TICKS_PER_MEASURE)
                by (nonlinear_arith)
                requires
                    0 <= r < count,
            ;
            assert((m as int) * TICKS_PER_MEASURE <= MAX_MEASURES * TICKS_PER_MEASURE)
                by (nonlinear_arith)
                requires
                    0 <= m < MAX_MEASURES,
            ;
        }
        let beat: i64 = (m as i64) * TICKS_PER_MEASURE + within as i64;
        let time = calculate_time_from_beat(beat, start, changes, stops);
        let ghost before = rows@;
        rows.push(HitObjectRow { time, beat, keys });
        proof {
            assert(rows@.subrange(0, base.len() as int) =~= before.subrange(
                0,
                base.len() as int,
            ));
            assert forall|k: int| 0 <= k < r + 1 implies row_reads(
                #[trigger] rows@[base.len() + k],
                texts[k],
                m as int,
                k,
                count as int,
                changes@,
                stops@,
                start,
            ) by {
                if k < r {
                    assert(rows@[base.len() + k] == before[base.len() + k]);
                }
            }
        }
        r += 1;
    }
}

/// Reads the rows of a note block.
fn read_rows(
    raw_notes: &Vec<char>,
    changes: &Vec<(i64, i64)>,
    stops: &Vec<(i64, i64)>,
    start: i32,
) -> (r: Option<Vec<HitObjectRow>>)
    requires
        changes_valid(changes@),
    ensures
        r is Some <==> split(raw_notes@, ',').len() <= MAX_MEASURES,
        r is Some ==> rows_read(r->0@, split(raw_notes@, ','), changes@, stops@, start),
{
    assert(raw_notes@.subrange(0, raw_notes@.len() as int) =~= raw_notes@);
    let measures = split_range(raw_notes, 0, raw_notes.len(), ',');
    let ghost all = split(raw_notes@, ',');
    if measures.len() > MAX_MEASURES {
        return None;
    }
    let mut rows: Vec<HitObjectRow> = Vec::new();
    let mut m: usize = 0;
    proof {
        assert(all.subrange(0, 0) =~= Seq::<Seq<char>>::empty());
    }
    while m < measures.len()
        invariant
            m <= measures.len(),
            measures.len() <= MAX_MEASURES,
            all == measures.deep_view(),
            changes_valid(changes@),
            rows_read(rows@, all.subrange(0, m as int), changes@, stops@, start),
        decreases measures.len() - m,
    {
        let measure = &measures[m];
        let ghost before = rows@;
        proof {
            assert(all.subrange(0, m + 1).drop_last() =~= all.subrange(0, m as int));
            assert(all[m as int] == measures@[m as int].deep_view());
            assert(measures@[m as int].deep_view() =~= measure@);
            assert(all.subrange(0, m + 1).last() == measure@);
        }
        read_measure(measure, m, &mut rows, changes, stops, start);
        m += 1;
    }
    assert(all.subrange(0, m as int) =~= all);
    Some(rows)
}

/// The text, or the default where the text is empty.
pub open spec fn filled(content: Seq<char>, default: Seq<char>) -> Seq<char> {
    if content.len() == 0 {
        default
    } else {
        content
    }
}

fn or_default(content: &String, default: &str) -> (s: String)
    ensures
        s@ == filled(content@, default@),
{
    if content.as_str().unicode_len() == 0 {
        default.to_owned()
    } else {
        content.clone()
    }
}

/// The parts of a note block: its fields between colons, each trimmed.
pub open spec fn note_parts(raw: Seq<char>) -> Seq<Seq<char>> {
    split(raw, ':').map_values(|p: Seq<char>| trimmed(p))
}

/// Reads the note block of a file. A file without one has no notes. The
/// name of the difficulty is the third field of the block.
pub fn process_notes(
    raw_note_data: &str,
    chartinfo: &mut ChartInfo,
    changes: &Vec<(i64, i64)>,
    stops: &Vec<(i64, i64)>,
) -> (r: Result<(HitObjects, Vec<PairingWarning>), ChartError>)
    requires
        changes_valid(changes@),
    ensures
        *final(chartinfo) == (ChartInfo {
            difficulty_name: final(chartinfo).difficulty_name,
            ..*old(chartinfo)
        }),
        raw_note_data@ == "No Note Data"@ ==> r is Ok && r->Ok_0.0.objects@.len() == 0
            && r->Ok_0.1@.len() == 0 && *final(chartinfo) == *old(chartinfo),
        raw_note_data@ != "No Note Data"@ && note_parts(raw_note_data@).len() < 3 ==> r is Err
            && r->Err_0 == ChartError::MalformedText,
        raw_note_data@ != "No Note Data"@ && note_parts(raw_note_data@).len() >= 3 ==> {
            &&& final(chartinfo).difficulty_name@ == filled(
                note_parts(raw_note_data@)[2],
                "Unknown Difficulty"@,
            )
            &&& split(note_parts(raw_note_data@).last(), ',').len() > MAX_MEASURES ==> r is Err
                && r->Err_0 == ChartError::MalformedGrid
            &&& split(note_parts(raw_note_data@).last(), ',').len() <= MAX_MEASURES
                ==> exists|rows: Seq<HitObjectRow>| #[trigger]
                rows_read(
                    rows,
                    split(note_parts(raw_note_data@).last(), ','),
                    changes@,
                    stops@,
                    old(chartinfo).audio_offset,
                ) && match grid_error(rows, KEY_COUNT as int) {
                    Some(e) => r is Err && r->Err_0 == e,
                    None => {
                        let end = Pairing::of_rows(rows, KEY_COUNT as int);
                        &&& r is Ok
                        &&& r->Ok_0.0.objects@ == end.notes
                        &&& r->Ok_0.1@ == end.warnings + end.leftover(KEY_COUNT as int)
                    },
                }
        },
{
    if raw_note_data.to_owned() == "No Note Data".to_owned() {
        return Ok((HitObjects::with_capacity(2048), Vec::new()));
    }
    let v = chars_of(raw_note_data);
    assert(v@.subrange(0, v@.len() as int) =~= v@);
    let parts = split_range(&v, 0, v.len(), ':');
    let ghost fields = note_parts(raw_note_data@);
    proof {
        assert forall|k: int| 0 <= k < parts@.len() implies fields[k] == trimmed(
            #[trigger] parts@[k]@,
        ) by {
            assert(parts@[k].deep_view() =~= parts@[k]@);
            assert(parts.deep_view()[k] == parts@[k].deep_view());
        }
    }
    if parts.len() < 3 {
        return Err(ChartError::MalformedText);
    }
    let start_time = chartinfo.audio_offset;
    let third = &parts[2];
    assert(third@.subrange(0, third@.len() as int) =~= third@);
    let (a, b) = trim_range(third, 0, third.len());
    chartinfo.difficulty_name = or_default(&string_of(third, a, b), "Unknown Difficulty");
    let last = &parts[parts.len() - 1];
    assert(last@.subrange(0, last@.len() as int) =~= last@);
    let (c, d) = trim_range(last, 0, last.len());
    let mut raw_notes: Vec<char> = Vec::new();
    let mut i: usize = c;
    while i < d
        invariant
            c <= i <= d <= last@.len(),
            raw_notes@ == last@.subrange(c as int, i as int),
        decreases d - i,
    {
        raw_notes.push(last[i]);
        i += 1;
        assert(raw_notes@ =~= last@.subrange(c as int, i as int));
    }
    assert(raw_notes@ == fields.last());
    let rows = match read_rows(&raw_notes, changes, stops, start_time) {
        Some(rows) => rows,
        None => {
            return Err(ChartError::MalformedGrid);
        },
    };
    match HitObjectTimeline::flatten_rows(rows.as_slice(), KEY_COUNT) {
        Ok(flat) => {
            assert(rows_read(
                rows@,
                split(note_parts(raw_note_data@).last(), ','),
                changes@,
                stops@,
                old(chartinfo).audio_offset,
            ));
            Ok((HitObjects::new(flat.notes), flat.warnings))
        },
        Err(e) => {
            assert(rows_read(
                rows@,
                split(note_parts(raw_note_data@).last(), ','),
                changes@,
                stops@,
                old(chartinfo).audio_offset,
            ));
            Err(e)
        },
    }
}

/// The text of a header: nothing where the file lacks the header, the
/// default where the header is there without a text.
pub open spec fn header_text(
    sections: Seq<(Seq<char>, Seq<char>)>,
    header: Seq<char>,
    default: Seq<char>,
) -> Seq<char> {
    match lookup(sections, header) {
        None => Seq::empty(),
        Some(c) => filled(c, default),
    }
}

/// The text of a header, or the default where the file lacks the header or
/// the header is there without a text.
pub open spec fn header_or(
    sections: Seq<(Seq<char>, Seq<char>)>,
    header: Seq<char>,
    default: Seq<char>,
) -> Seq<char> {
    match lookup(sections, header) {
        None => default,
        Some(c) => filled(c, default),
    }
}

/// The milliseconds that a text writes in seconds; 0 where it writes no
/// number.
pub open spec fn millis_of(content: Seq<char>) -> int {
    match fixed_in_range(content) {
        Some(v) => v,
        None => 0,
    }
}

/// The audio offset of a file: minus what `#OFFSET` says.
pub open spec fn offset_of(sections: Seq<(Seq<char>, Seq<char>)>) -> i32 {
    match lookup(sections, "#OFFSET"@) {
        None => 0,
        Some(c) => clamped(-millis_of(c)),
    }
}

/// The preview time of a file: what `#SAMPLESTART` says.
pub open spec fn preview_of(sections: Seq<(Seq<char>, Seq<char>)>) -> i32 {
    match lookup(sections, "#SAMPLESTART"@) {
        None => 0,
        Some(c) => clamped(millis_of(c)),
    }
}

/// The tempo changes of a file as `(beat, bpm)` in thousandths.
pub open spec fn file_bpms(sections: Seq<(Seq<char>, Seq<char>)>) -> Seq<(i64, i64)> {
    bpms_of(header_or(sections, "#BPMS"@, "No BPM Data"@))
}

/// The stops of a file as `(beat, duration)`.
pub open spec fn file_stops(sections: Seq<(Seq<char>, Seq<char>)>) -> Seq<(i64, i64)> {
    stops_of(header_or(sections, "#STOPS"@, "No STOPS Data"@))
}

/// The note block of a file.
pub open spec fn file_notes(sections: Seq<(Seq<char>, Seq<char>)>) -> Seq<char> {
    header_or(sections, "#NOTES"@, "No Note Data"@)
}

/// The timing of the file cannot be used: a beat lies out of range, or the
/// tempo changes are not such as a timing by beat accepts.
pub open spec fn timing_unusable(sections: Seq<(Seq<char>, Seq<char>)>) -> bool {
    ||| !beats_in_range(file_bpms(sections))
    ||| !beats_in_range(file_stops(sections))
    ||| !changes_valid(in_ticks(file_bpms(sections)))
}

/// The descriptive fields of `chart` are what the headers of the file say.
pub open spec fn described(chart: GenericManiaChart, sections: Seq<(Seq<char>, Seq<char>)>) -> bool {
    &&& chart.metadata.title@ == header_text(sections, "#TITLE"@, "Unknown Title"@)
    &&& chart.metadata.artist@ == header_text(sections, "#ARTIST"@, "Unknown Artist"@)
    &&& chart.metadata.source@ == header_text(sections, "#SUBTITLE"@, "Unknown Source"@)
    &&& chart.metadata.alt_title@ == header_text(sections, "#TITLETRANSLIT"@, "Unknown Title"@)
    &&& chart.metadata.alt_artist@ == header_text(sections, "#ARTISTTRANSLIT"@, "Unknown Artist"@)
    &&& chart.metadata.genre@ == header_text(sections, "#GENRE"@, "Unknown Genre"@)
    &&& chart.metadata.creator@ == header_text(sections, "#CREDIT"@, "Unknown Creator"@)
    &&& chart.metadata.tags@.len() == 0
    &&& chart.chartinfo.bg_path@ == header_text(
        sections,
        "#BACKGROUND"@,
        "Unknown Background Path"@,
    )
    &&& chart.chartinfo.song_path@ == header_text(sections, "#MUSIC"@, "Unknown Song File Path"@)
    &&& chart.chartinfo.video_path@.len() == 0
    &&& chart.chartinfo.audio_offset == offset_of(sections)
    &&& chart.chartinfo.preview_time == preview_of(sections)
    &&& chart.chartinfo.od == 0
    &&& chart.chartinfo.hp == 0
    &&& chart.chartinfo.key_count == 0
    &&& chart.soundbank is None
}

fn header(sections: &Vec<(String, String)>, name: &str, default: &str) -> (s: String)
    ensures
        s@ == header_text(pair_texts(sections@), name@, default@),
{
    match section_text(sections, name) {
        Some(c) => or_default(&c, default),
        None => {
            let s = String::new();
            assert(s@ =~= Seq::<char>::empty());
            s
        },
    }
}

fn header_with_default(sections: &Vec<(String, String)>, name: &str, default: &str) -> (s: String)
    ensures
        s@ == header_or(pair_texts(sections@), name@, default@),
{
    match section_text(sections, name) {
        Some(c) => or_default(&c, default),
        None => default.to_owned(),
    }
}

fn millis(content: &String) -> (n: i64)
    ensures
        n == millis_of(content@),
{
    let v = chars_of(content.as_str());
    assert(v@.subrange(0, v@.len() as int) =~= v@);
    match read_fixed(&v, 0, v.len()) {
        Some(n) => n,
        None => 0,
    }
}

fn describe(sections: &Vec<(String, String)>) -> (r: (Metadata, ChartInfo))
    ensures
        ({
            let secs = pair_texts(sections@);
            let (metadata, chartinfo) = r;
            &&& metadata.title@ == header_text(secs, "#TITLE"@, "Unknown Title"@)
            &&& metadata.artist@ == header_text(secs, "#ARTIST"@, "Unknown Artist"@)
            &&& metadata.source@ == header_text(secs, "#SUBTITLE"@, "Unknown Source"@)
            &&& metadata.alt_title@ == header_text(secs, "#TITLETRANSLIT"@, "Unknown Title"@)
            &&& metadata.alt_artist@ == header_text(secs, "#ARTISTTRANSLIT"@, "Unknown Artist"@)
            &&& metadata.genre@ == header_text(secs, "#GENRE"@, "Unknown Genre"@)
            &&& metadata.creator@ == header_text(secs, "#CREDIT"@, "Unknown Creator"@)
            &&& metadata.tags@.len() == 0
            &&& chartinfo.bg_path@ == header_text(secs, "#BACKGROUND"@, "Unknown Background Path"@)
            &&& chartinfo.song_path@ == header_text(secs, "#MUSIC"@, "Unknown Song File Path"@)
            &&& chartinfo.video_path@.len() == 0
            &&& chartinfo.difficulty_name@.len() == 0
            &&& chartinfo.audio_offset == offset_of(secs)
            &&& chartinfo.preview_time == preview_of(secs)
            &&& chartinfo.od == 0
            &&& chartinfo.hp == 0
            &&& chartinfo.key_count == 0
        }),
{
    let mut metadata = Metadata::empty();
    let mut chartinfo = ChartInfo::empty();
    metadata.title = header(sections, "#TITLE", "Unknown Title");
    metadata.artist = header(sections, "#ARTIST", "Unknown Artist");
    metadata.source = header(sections, "#SUBTITLE", "Unknown Source");
    metadata.alt_title = header(sections, "#TITLETRANSLIT", "Unknown Title");
    metadata.alt_artist = header(sections, "#ARTISTTRANSLIT", "Unknown Artist");
    metadata.genre = header(sections, "#GENRE", "Unknown Genre");
    metadata.creator = header(sections, "#CREDIT", "Unknown Creator");
    chartinfo.bg_path = header(sections, "#BACKGROUND", "Unknown Background Path");
    chartinfo.song_path = header(sections, "#MUSIC", "Unknown Song File Path");
    chartinfo.audio_offset = match section_text(sections, "#OFFSET") {
        Some(c) => {
            let n = millis(&c);
            if n == i64::MIN {
                i32::MAX
            } else {
                clamp_to_i32(-n)
            }
        },
        None => 0,
    };
    chartinfo.preview_time = match section_text(sections, "#SAMPLESTART") {
        Some(c) => clamp_to_i32(millis(&c)),
        None => 0,
    };
    (metadata, chartinfo)
}

/// The timing of the file is refused: it cannot be used, or its items
/// cannot become timing points.
pub open spec fn timing_refused(sections: Seq<(Seq<char>, Seq<char>)>) -> bool {
    ||| timing_unusable(sections)
    ||| timeline_unusable(
        timeline_items(
            in_ticks(file_bpms(sections)),
            in_ticks(file_stops(sections)),
            offset_of(sections),
        ),
    )
}

/// What reading the note block of the file comes to, for a file whose
/// timing stands: a file without a note block has no notes; a block of fewer
/// than three fields is malformed text; one of too many measures a malformed
/// grid; otherwise the rows of the block are flattened, and what the
/// flattening refuses is refused.
pub open spec fn notes_outcome(
    sections: Seq<(Seq<char>, Seq<char>)>,
    r: Result<Parsed, ChartError>,
) -> bool {
    let block = file_notes(sections);
    if block == "No Note Data"@ {
        &&& r is Ok
        &&& r->Ok_0.chart.notes().len() == 0
        &&& r->Ok_0.warnings@.len() == 0
        &&& r->Ok_0.chart.chartinfo.difficulty_name@.len() == 0
    } else if note_parts(block).len() < 3 {
        r is Err && r->Err_0 == ChartError::MalformedText
    } else if split(note_parts(block).last(), ',').len() > MAX_MEASURES {
        r is Err && r->Err_0 == ChartError::MalformedGrid
    } else {
        exists|rows: Seq<HitObjectRow>| #[trigger]
            rows_read(
                rows,
                split(note_parts(block).last(), ','),
                in_ticks(file_bpms(sections)),
                in_ticks(file_stops(sections)),
                offset_of(sections),
            ) && match grid_error(rows, KEY_COUNT as int) {
                Some(e) => r is Err && r->Err_0 == e,
                None => {
                    let end = Pairing::of_rows(rows, KEY_COUNT as int);
                    &&& r is Ok
                    &&& r->Ok_0.chart.notes() == end.notes
                    &&& r->Ok_0.warnings@ == end.warnings + end.leftover(KEY_COUNT as int)
                    &&& r->Ok_0.chart.chartinfo.difficulty_name@ == filled(
                        note_parts(block)[2],
                        "Unknown Difficulty"@,
                    )
                },
            }
    }
}

/// Reads a file of the slash-based format. A file that is empty once its
/// comments are gone is an empty chart; one whose timing is refused has an
/// invalid tempo; for every other file the note block decides, as
/// `notes_outcome` says. The chart that is read carries what the headers of
/// the file say and the timing points of its tempo changes and stops.
pub fn from_sm(raw_chart: &str) -> (r: Result<Parsed, ChartError>)
    ensures
        trimmed(uncommented(raw_chart@)).len() == 0 ==> r is Err && r->Err_0
            == ChartError::EmptyChart,
        trimmed(uncommented(raw_chart@)).len() > 0 && timing_refused(
            sections_of(uncommented(raw_chart@)),
        ) ==> r is Err && r->Err_0 == ChartError::InvalidTempo,
        trimmed(uncommented(raw_chart@)).len() > 0 && !timing_refused(
            sections_of(uncommented(raw_chart@)),
        ) ==> notes_outcome(sections_of(uncommented(raw_chart@)), r),
        r is Ok ==> ({
            let secs = sections_of(uncommented(raw_chart@));
            let chart = r->Ok_0.chart;
            &&& described(chart, secs)
            &&& points_of_items(
                chart.timings(),
                timeline_items(
                    in_ticks(file_bpms(secs)),
                    in_ticks(file_stops(secs)),
                    offset_of(secs),
                ),
                stop_windows(
                    in_ticks(file_stops(secs)),
                    in_ticks(file_bpms(secs)),
                    in_ticks(file_stops(secs)),
                    offset_of(secs),
                ),
                offset_of(secs),
            )
        }),
{
    let text = remove_comments(raw_chart);
    let v = chars_of(text.as_str());
    assert(v@.subrange(0, v@.len() as int) =~= v@);
    let (a, b) = trim_range(&v, 0, v.len());
    if a == b {
        return Err(ChartError::EmptyChart);
    }
    let sections = process_sections(text.as_str());
    let ghost secs = pair_texts(sections@);
    let (metadata, mut chartinfo) = describe(&sections);
    let raw_bpms = header_with_default(&sections, "#BPMS", "No BPM Data");
    let raw_stops = header_with_default(&sections, "#STOPS", "No STOPS Data");
    let raw_notes = header_with_default(&sections, "#NOTES", "No Note Data");
    let bpms = bpm_pairs(raw_bpms.as_str());
    let stop_list = stop_pairs(raw_stops.as_str());
    let changes = match to_ticks(&bpms) {
        Some(c) => c,
        None => {
            return Err(ChartError::InvalidTempo);
        },
    };
    let stops = match to_ticks(&stop_list) {
        Some(s) => s,
        None => {
            return Err(ChartError::InvalidTempo);
        },
    };
    if !check_changes(&changes) {
        return Err(ChartError::InvalidTempo);
    }
    proof {
        assert forall|i: int| 0 <= i < stops@.len() implies -MAX_BEAT <= (#[trigger] stops@[i]).0
            <= MAX_BEAT by {
            assert(-MAX_MILLIBEAT <= stop_list@[i].0 <= MAX_MILLIBEAT);
        }
    }
    let timing_points = match process_timing_points(&changes, &stops, chartinfo.audio_offset) {
        Ok(t) => t,
        Err(_) => {
            return Err(ChartError::InvalidTempo);
        },
    };
    let (hitobjects, warnings) = match process_notes(
        raw_notes.as_str(),
        &mut chartinfo,
        &changes,
        &stops,
    ) {
        Ok(n) => n,
        Err(e) => {
            return Err(e);
        },
    };
    let chart = GenericManiaChart::new(metadata, chartinfo, timing_points, hitobjects, None);
    Ok(Parsed { chart, warnings })
}

} // verus!
