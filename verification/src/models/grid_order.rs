//! The round trip through the grid for a note list in any order: the grid of
//! a list depends only on which notes the list holds, and flattening it gives
//! those notes in reading order.

use vstd::prelude::*;
use vstd::seq_lib::{to_multiset_build, to_multiset_contains, to_multiset_len};
use crate::models::common::HitObjectRow;
use crate::models::generic::hitobjects::HitObject;
use crate::models::grid::{cell_at, grid_error, has_row, is_grid_of, row_filled, Pairing};
use crate::models::grid_laws::{
    at_or_before, beats_agree, fits_grid, in_reading_order, lemma_beat_of_note, lemma_cell_empty,
    lemma_cell_of_note, lemma_grid_round_trip, lemma_reading_order_prefix, long_notes_apart,
    reads_before, survives_grid,
};
use crate::models::ordered::{at_time, lemma_at_time_from, lemma_at_time_holds, Timed};

verus! {

/// The two notes stand in one cell: at one time, in one lane.
pub open spec fn same_cell(a: HitObject, b: HitObject) -> bool {
    a.time == b.time && a.lane == b.lane
}

/// No two notes of the list stand in one cell.
pub open spec fn one_per_cell(notes: Seq<HitObject>) -> bool {
    forall|i: int, j: int|
        0 <= i < notes.len() && 0 <= j < notes.len() && i != j ==> !same_cell(
            #[trigger] notes[i],
            #[trigger] notes[j],
        )
}

/// `sorted` with `h` put in behind the last note that stands at or before the
/// cell of `h`.
pub open spec fn put_in_order(sorted: Seq<HitObject>, h: HitObject) -> Seq<HitObject>
    decreases sorted.len(),
{
    if sorted.len() == 0 || at_or_before(sorted.last(), h.time as int, h.lane as int) {
        sorted.push(h)
    } else {
        put_in_order(sorted.drop_last(), h).push(sorted.last())
    }
}

/// The notes of the list in the order in which a grid is read: by time, and
/// by lane within one time.
pub open spec fn in_order(notes: Seq<HitObject>) -> Seq<HitObject>
    decreases notes.len(),
{
    if notes.len() == 0 {
        Seq::empty()
    } else {
        put_in_order(in_order(notes.drop_last()), notes.last())
    }
}

/// What a note list in any order must be like to come back from the grid:
/// what `survives_grid` asks, but for the order; in its place, no two notes
/// stand in one cell, and long notes do not overlap once the notes are read
/// in order.
pub open spec fn survives_grid_in_any_order(notes: Seq<HitObject>, key_count: int) -> bool {
    &&& 0 <= key_count <= 255
    &&& notes.len() <= usize::MAX
    &&& forall|i: int| 0 <= i < notes.len() ==> #[trigger] fits_grid(notes, key_count, i)
    &&& forall|i: int, j: int|
        0 <= i < notes.len() && 0 <= j < notes.len() ==> #[trigger] beats_agree(notes, i, j)
    &&& one_per_cell(notes)
    &&& long_notes_apart(in_order(notes))
}

/// A note of one list stands in every list that holds the same notes.
proof fn lemma_found_in(a: Seq<HitObject>, b: Seq<HitObject>, i: int) -> (j: int)
    requires
        a.to_multiset() == b.to_multiset(),
        0 <= i < a.len(),
    ensures
        0 <= j < b.len(),
        b[j] == a[i],
{
    assert(a.contains(a[i]));
    to_multiset_contains(a, a[i]);
    to_multiset_contains(b, a[i]);
    choose|j: int| 0 <= j < b.len() && b[j] == a[i]
}

proof fn lemma_put_in_order(s: Seq<HitObject>, h: HitObject)
    requires
        in_reading_order(s),
        forall|i: int| 0 <= i < s.len() ==> !same_cell(#[trigger] s[i], h),
    ensures
        in_reading_order(put_in_order(s, h)),
        put_in_order(s, h).to_multiset() == s.to_multiset().insert(h),
    decreases s.len(),
{
    broadcast use vstd::multiset::group_multiset_axioms;

    let r = put_in_order(s, h);
    if s.len() == 0 || at_or_before(s.last(), h.time as int, h.lane as int) {
        to_multiset_build(s, h);
        assert forall|i: int, j: int| 0 <= i < j < r.len() implies #[trigger] reads_before(
            r,
            i,
            j,
        ) by {
            if j < s.len() {
                assert(reads_before(s, i, j));
            } else {
                let last = s.len() - 1;
                assert(!same_cell(s[last], h));
                if i < last {
                    assert(reads_before(s, i, last));
                }
            }
        }
    } else {
        let d = s.drop_last();
        let last = s.last();
        lemma_reading_order_prefix(s, s.len() - 1);
        assert(d =~= s.subrange(0, s.len() - 1));
        assert forall|i: int| 0 <= i < d.len() implies !same_cell(#[trigger] d[i], h) by {
            assert(d[i] == s[i]);
        }
        lemma_put_in_order(d, h);
        let p = put_in_order(d, h);
        assert(r == p.push(last));
        to_multiset_build(p, last);
        to_multiset_build(d, last);
        assert(d.push(last) =~= s);
        assert(r.to_multiset() =~= s.to_multiset().insert(h));
        to_multiset_len(p);
        to_multiset_len(d);
        assert forall|i: int, j: int| 0 <= i < j < r.len() implies #[trigger] reads_before(
            r,
            i,
            j,
        ) by {
            if j < p.len() {
                assert(reads_before(p, i, j));
            } else if p[i] != h {
                assert(p.contains(p[i]));
                to_multiset_contains(p, p[i]);
                to_multiset_contains(d, p[i]);
                let q = choose|q: int| 0 <= q < d.len() && d[q] == p[i];
                assert(reads_before(s, q, s.len() - 1));
            }
        }
    }
}

/// Reading a list in order keeps its notes and puts them in reading order.
pub proof fn lemma_in_order(notes: Seq<HitObject>)
    requires
        one_per_cell(notes),
    ensures
        in_reading_order(in_order(notes)),
        in_order(notes).to_multiset() == notes.to_multiset(),
        in_order(notes).len() == notes.len(),
    decreases notes.len(),
{
    to_multiset_len(notes);
    to_multiset_len(in_order(notes));
    if notes.len() > 0 {
        let d = notes.drop_last();
        let last = notes.last();
        assert forall|i: int, j: int| 0 <= i < d.len() && 0 <= j < d.len() && i != j implies !same_cell(
            #[trigger] d[i],
            #[trigger] d[j],
        ) by {
            assert(d[i] == notes[i] && d[j] == notes[j]);
        }
        lemma_in_order(d);
        let s = in_order(d);
        assert forall|i: int| 0 <= i < s.len() implies !same_cell(#[trigger] s[i], last) by {
            let q = lemma_found_in(s, d, i);
            assert(d[q] == notes[q]);
            assert(!same_cell(notes[q], notes[notes.len() - 1]));
        }
        lemma_put_in_order(s, last);
        to_multiset_build(d, last);
        assert(d.push(last) =~= notes);
    }
}

/// Two lists that hold the same notes, one to a cell, fill each cell alike.
proof fn lemma_same_cells(a: Seq<HitObject>, b: Seq<HitObject>, key_count: int, t: int, lane: int)
    requires
        a.to_multiset() == b.to_multiset(),
        one_per_cell(a),
        one_per_cell(b),
        forall|i: int| 0 <= i < a.len() ==> #[trigger] fits_grid(a, key_count, i),
    ensures
        cell_at(a, t, lane) == cell_at(b, t, lane),
{
    if exists|i: int| 0 <= i < a.len() && (#[trigger] a[i]).time == t && a[i].lane == lane {
        let i = choose|i: int| 0 <= i < a.len() && (#[trigger] a[i]).time == t && a[i].lane == lane;
        let j = lemma_found_in(a, b, i);
        assert(fits_grid(a, key_count, i));
        assert forall|k: int| 0 <= k < a.len() && k != i implies !((#[trigger] a[k]).time
            == a[i].time && a[k].lane == a[i].lane) by {
            assert(!same_cell(a[k], a[i]));
        }
        lemma_cell_of_note(a, i);
        assert forall|k: int| 0 <= k < b.len() && k != j implies !((#[trigger] b[k]).time
            == b[j].time && b[k].lane == b[j].lane) by {
            assert(!same_cell(b[k], b[j]));
        }
        lemma_cell_of_note(b, j);
    } else {
        assert forall|k: int| 0 <= k < b.len() implies !((#[trigger] b[k]).time == t && b[k].lane
            == lane) by {
            let i = lemma_found_in(b, a, k);
            assert(!(a[i].time == t && a[i].lane == lane));
        }
        lemma_cell_empty(a, t, lane);
        lemma_cell_empty(b, t, lane);
    }
}

/// What holds of each note, and of each two notes, of a list holds in every
/// list of the same notes.
proof fn lemma_fits_in_any_order(a: Seq<HitObject>, b: Seq<HitObject>, key_count: int)
    requires
        a.to_multiset() == b.to_multiset(),
        forall|i: int| 0 <= i < a.len() ==> #[trigger] fits_grid(a, key_count, i),
        forall|i: int, j: int|
            0 <= i < a.len() && 0 <= j < a.len() ==> #[trigger] beats_agree(a, i, j),
    ensures
        forall|i: int| 0 <= i < b.len() ==> #[trigger] fits_grid(b, key_count, i),
        forall|i: int, j: int|
            0 <= i < b.len() && 0 <= j < b.len() ==> #[trigger] beats_agree(b, i, j),
{
    assert forall|i: int| 0 <= i < b.len() implies #[trigger] fits_grid(b, key_count, i) by {
        let p = lemma_found_in(b, a, i);
        assert(fits_grid(a, key_count, p));
    }
    assert forall|i: int, j: int| 0 <= i < b.len() && 0 <= j < b.len() implies #[trigger] beats_agree(
        b,
        i,
        j,
    ) by {
        let p = lemma_found_in(b, a, i);
        let q = lemma_found_in(b, a, j);
        assert(beats_agree(a, p, q));
    }
}

/// The grid of a list is the grid of every list that holds the same notes,
/// one to a cell.
pub proof fn lemma_grid_of_same_notes(
    rows: Seq<HitObjectRow>,
    a: Seq<HitObject>,
    b: Seq<HitObject>,
    key_count: int,
)
    requires
        a.to_multiset() == b.to_multiset(),
        one_per_cell(a),
        one_per_cell(b),
        forall|i: int| 0 <= i < a.len() ==> #[trigger] fits_grid(a, key_count, i),
        forall|i: int, j: int|
            0 <= i < a.len() && 0 <= j < a.len() ==> #[trigger] beats_agree(a, i, j),
        is_grid_of(rows, a, key_count),
    ensures
        is_grid_of(rows, b, key_count),
{
    lemma_fits_in_any_order(a, b, key_count);
    assert forall|k: int| 0 <= k < b.len() implies has_row(rows, (#[trigger] b[k]).time as int) by {
        let p = lemma_found_in(b, a, k);
        assert(has_row(rows, a[p].time as int));
    }
    assert forall|i: int| 0 <= i < rows.len() implies at_time(b, (#[trigger] rows[i]).time as int).len()
        > 0 && row_filled(rows[i], b, key_count) by {
        let t = rows[i].time as int;
        let x = at_time(a, t)[0];
        assert(at_time(a, t).contains(x));
        lemma_at_time_from(a, t, x);
        let p = choose|p: int| 0 <= p < a.len() && a[p] == x;
        let q = lemma_found_in(a, b, p);
        lemma_at_time_holds(b, q);
        assert(b[q].time_of() == t);
        lemma_beat_of_note(a, p);
        lemma_beat_of_note(b, q);
        assert(row_filled(rows[i], a, key_count));
        assert forall|l: int| 0 <= l < key_count implies #[trigger] rows[i].keys@[l] == cell_at(
            b,
            t,
            l + 1,
        ) by {
            lemma_same_cells(a, b, key_count, t, l + 1);
        }
    }
}

/// The grid round trip for a list in any order. A note list that
/// `survives_grid_in_any_order` describes comes back from the grid with the
/// same notes, each as often as it went in, the end times of the long notes
/// included: flattening the grid of the list is no error and gives its notes
/// in reading order.
pub proof fn lemma_grid_round_trip_in_any_order(
    rows: Seq<HitObjectRow>,
    notes: Seq<HitObject>,
    key_count: int,
)
    requires
        survives_grid_in_any_order(notes, key_count),
        is_grid_of(rows, notes, key_count),
    ensures
        grid_error(rows, key_count) is None,
        Pairing::of_rows(rows, key_count).notes == in_order(notes),
        Pairing::of_rows(rows, key_count).notes.to_multiset() == notes.to_multiset(),
{
    let sorted = in_order(notes);
    lemma_in_order(notes);
    assert forall|i: int, j: int| 0 <= i < sorted.len() && 0 <= j < sorted.len() && i
        != j implies !same_cell(#[trigger] sorted[i], #[trigger] sorted[j]) by {
        if i < j {
            assert(reads_before(sorted, i, j));
        } else {
            assert(reads_before(sorted, j, i));
        }
    }
    lemma_fits_in_any_order(notes, sorted, key_count);
    lemma_grid_of_same_notes(rows, notes, sorted, key_count);
    assert(survives_grid(sorted, key_count));
    lemma_grid_round_trip(rows, sorted, key_count);
}

} // verus!
