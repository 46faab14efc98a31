//! The `[Editor]` section.

use vstd::prelude::*;
use crate::models::osu::general::{
    error_of, first_error, named_fixed, named_number, optional_fixed_line, optional_number_line,
};
use crate::utils::numbers::{int_in_range, read_i32};
use crate::utils::sections::{
    entries, invalid_value, invalid_value_message, lookup, optional_fixed, optional_i32,
    read_entries,
};
use crate::utils::text::{
    append_decimal, decimal, join, joined, optional_text, push_optional, split, split_range,
    trim_range, trimmed, with_optional,
};

verus! {

/// The spacing and the zoom are in thousandths.
#[derive(Debug, Clone)]
pub struct Editor {
    pub bookmarks: Vec<i32>,
    pub distance_spacing: Option<i64>,
    pub beat_divisor: Option<i32>,
    pub grid_size: Option<i32>,
    pub timeline_zoom: Option<i64>,
}

/// The numbers that the pieces of a bookmark list write: empty pieces are
/// passed over, the others are trimmed and must be whole numbers.
pub open spec fn marks(pieces: Seq<Seq<char>>) -> Option<Seq<i32>>
    decreases pieces.len(),
{
    if pieces.len() == 0 {
        Some(Seq::empty())
    } else {
        match marks(pieces.drop_last()) {
            None => None,
            Some(m) => if pieces.last().len() == 0 {
                Some(m)
            } else {
                match int_in_range(trimmed(pieces.last()), i32::MIN as int, i32::MAX as int) {
                    Some(n) => Some(m.push(n as i32)),
                    None => None,
                }
            },
        }
    }
}

/// The bookmarks under `Bookmarks`, none where there is no such entry.
pub open spec fn bookmarks_entry(e: Seq<(Seq<char>, Seq<char>)>) -> Result<Seq<i32>, Seq<char>> {
    match lookup(e, "Bookmarks"@) {
        None => Ok(Seq::empty()),
        Some(value) => match marks(split(value, ',')) {
            Some(m) => Ok(m),
            None => Err(invalid_value("Bookmarks"@, value)),
        },
    }
}

/// The decimal texts of numbers.
pub open spec fn decimals(v: Seq<i32>) -> Seq<Seq<char>> {
    v.map_values(|n: i32| decimal(n as int))
}

fn read_marks(value: &Vec<char>) -> (r: Option<Vec<i32>>)
    ensures
        match r {
            Some(m) => marks(split(value@, ',')) == Some(m@),
            None => marks(split(value@, ',')) is None,
        },
{
    assert(value@.subrange(0, value@.len() as int) =~= value@);
    let pieces = split_range(value, 0, value.len(), ',');
    let ghost all = pieces.deep_view();
    let mut out: Vec<i32> = Vec::new();
    let mut i: usize = 0;
    assert(all.subrange(0, 0) =~= Seq::<Seq<char>>::empty());
    while i < pieces.len()
        invariant
            i <= pieces.len(),
            all == pieces.deep_view(),
            all == split(value@, ','),
            all.len() == pieces@.len(),
            marks(all.subrange(0, i as int)) == Some(out@),
        decreases pieces.len() - i,
    {
        let piece = &pieces[i];
        proof {
            assert(all.subrange(0, i + 1).drop_last() =~= all.subrange(0, i as int));
            assert(all[i as int] == pieces@[i as int].deep_view());
            assert(pieces@[i as int].deep_view() =~= piece@);
            assert(all.subrange(0, i + 1).last() == piece@);
            assert(piece@.subrange(0, piece@.len() as int) =~= piece@);
        }
        if piece.len() > 0 {
            let (a, b) = trim_range(piece, 0, piece.len());
            match read_i32(piece, a, b) {
                Some(n) => {
                    out.push(n);
                },
                None => {
                    proof {
                        lemma_marks_fail(all, i as int);
                    }
                    return None;
                },
            }
        }
        i += 1;
    }
    assert(all.subrange(0, i as int) =~= all);
    Some(out)
}

/// Once a piece cannot be read, the whole list cannot.
proof fn lemma_marks_fail(pieces: Seq<Seq<char>>, i: int)
    requires
        0 <= i < pieces.len(),
        marks(pieces.subrange(0, i + 1)) is None,
    ensures
        marks(pieces) is None,
    decreases pieces.len(),
{
    if i + 1 < pieces.len() {
        assert(pieces.drop_last().subrange(0, i + 1) =~= pieces.subrange(0, i + 1));
        lemma_marks_fail(pieces.drop_last(), i);
    } else {
        assert(pieces.subrange(0, i + 1) =~= pieces);
    }
}

impl Default for Editor {
    fn default() -> (e: Self)
        ensures
            e.bookmarks@.len() == 0,
            e.distance_spacing == Some(1000i64),
            e.beat_divisor == Some(4i32),
            e.grid_size == Some(4i32),
            e.timeline_zoom == Some(700i64),
    {
        Self {
            bookmarks: Vec::new(),
            distance_spacing: Some(1000),
            beat_divisor: Some(4),
            grid_size: Some(4),
            timeline_zoom: Some(700),
        }
    }
}

impl Editor {
    /// The messages of the entries, in the order in which they are read.
    pub open spec fn section_errors(e: Seq<(Seq<char>, Seq<char>)>) -> Seq<Option<Seq<char>>> {
        seq![
            error_of(bookmarks_entry(e)),
            error_of(optional_fixed(e, "DistanceSpacing"@, Some(1000i64))),
            error_of(optional_i32(e, "BeatDivisor"@, Some(4i32))),
            error_of(optional_i32(e, "GridSize"@, Some(4i32))),
            error_of(optional_fixed(e, "TimelineZoom"@, Some(700i64))),
        ]
    }

    /// `self` holds what the entries say, and defaults for the rest.
    pub open spec fn holds(&self, e: Seq<(Seq<char>, Seq<char>)>) -> bool {
        &&& Ok::<Seq<i32>, Seq<char>>(self.bookmarks@) == bookmarks_entry(e)
        &&& Ok::<Option<i64>, Seq<char>>(self.distance_spacing) == optional_fixed(
            e,
            "DistanceSpacing"@,
            Some(1000i64),
        )
        &&& Ok::<Option<i32>, Seq<char>>(self.beat_divisor) == optional_i32(
            e,
            "BeatDivisor"@,
            Some(4i32),
        )
        &&& Ok::<Option<i32>, Seq<char>>(self.grid_size) == optional_i32(
            e,
            "GridSize"@,
            Some(4i32),
        )
        &&& Ok::<Option<i64>, Seq<char>>(self.timeline_zoom) == optional_fixed(
            e,
            "TimelineZoom"@,
            Some(700i64),
        )
    }

    /// Reads the section. The first entry that cannot be read is the error.
    pub fn from_str(s: &str) -> (r: Result<Editor, String>)
        ensures
            match r {
                Ok(ed) => first_error(Self::section_errors(entries(s@))) is None && ed.holds(
                    entries(s@),
                ),
                Err(msg) => first_error(Self::section_errors(entries(s@))) == Some(msg@),
            },
    {
        let e = read_entries(s);
        proof {
            reveal_with_fuel(first_error, 6);
        }
        let bookmarks = match e.chars("Bookmarks") {
            None => Vec::new(),
            Some(value) => match read_marks(value) {
                Some(m) => m,
                None => {
                    return Err(invalid_value_message("Bookmarks", value));
                },
            },
        };
        let distance_spacing = match e.optional_fixed_value("DistanceSpacing", Some(1000)) {
            Ok(n) => n,
            Err(msg) => {
                return Err(msg);
            },
        };
        let beat_divisor = match e.optional_i32_value("BeatDivisor", Some(4)) {
            Ok(n) => n,
            Err(msg) => {
                return Err(msg);
            },
        };
        let grid_size = match e.optional_i32_value("GridSize", Some(4)) {
            Ok(n) => n,
            Err(msg) => {
                return Err(msg);
            },
        };
        let timeline_zoom = match e.optional_fixed_value("TimelineZoom", Some(700)) {
            Ok(n) => n,
            Err(msg) => {
                return Err(msg);
            },
        };
        let ed = Editor { bookmarks, distance_spacing, beat_divisor, grid_size, timeline_zoom };
        assert(ed.bookmarks@ =~= bookmarks_entry(e.view())->Ok_0);
        Ok(ed)
    }

    /// The line of the bookmarks, if there are any.
    pub open spec fn bookmarks_line(&self) -> Option<Seq<char>> {
        if self.bookmarks@.len() > 0 {
            Some("Bookmarks: "@ + joined(decimals(self.bookmarks@), ","@))
        } else {
            None
        }
    }

    /// The lines of the section: one for each setting that is there.
    pub open spec fn lines(&self) -> Seq<Seq<char>> {
        let l0 = with_optional(Seq::empty(), self.bookmarks_line());
        let l1 = with_optional(l0, named_fixed("DistanceSpacing: "@, self.distance_spacing));
        let l2 = with_optional(l1, named_number("BeatDivisor: "@, self.beat_divisor));
        let l3 = with_optional(l2, named_number("GridSize: "@, self.grid_size));
        with_optional(l3, named_fixed("TimelineZoom: "@, self.timeline_zoom))
    }

    fn bookmarks_text(&self) -> (s: Option<String>)
        ensures
            optional_text(s) == self.bookmarks_line(),
    {
        if self.bookmarks.len() == 0 {
            return None;
        }
        let mut texts: Vec<String> = Vec::new();
        let mut i: usize = 0;
        while i < self.bookmarks.len()
            invariant
                i <= self.bookmarks.len(),
                texts@.len() == i,
                forall|k: int|
                    0 <= k < i ==> (#[trigger] texts@[k])@ == decimal(self.bookmarks@[k] as int),
            decreases self.bookmarks.len() - i,
        {
            let mut t = String::new();
            append_decimal(&mut t, self.bookmarks[i] as i64);
            assert(t@ =~= decimal(self.bookmarks@[i as int] as int));
            texts.push(t);
            i += 1;
        }
        assert(texts.deep_view() =~= decimals(self.bookmarks@));
        let mut s = String::new();
        s.append("Bookmarks: ");
        s.append(join(&texts, ",").as_str());
        assert(s@ =~= "Bookmarks: "@ + joined(decimals(self.bookmarks@), ","@));
        Some(s)
    }

    pub fn to_str(&self) -> (s: String)
        ensures
            s@ == joined(self.lines(), "\n"@),
    {
        let mut lines: Vec<String> = Vec::new();
        assert(lines.deep_view() =~= Seq::<Seq<char>>::empty());
        push_optional(&mut lines, self.bookmarks_text());
        push_optional(&mut lines, optional_fixed_line("DistanceSpacing: ", self.distance_spacing));
        push_optional(&mut lines, optional_number_line("BeatDivisor: ", self.beat_divisor));
        push_optional(&mut lines, optional_number_line("GridSize: ", self.grid_size));
        push_optional(&mut lines, optional_fixed_line("TimelineZoom: ", self.timeline_zoom));
        join(&lines, "\n")
    }
}

} // verus!
