//! The round trip through the grid: what building the rows of a note list
//! and flattening them again gives back.

use vstd::prelude::*;
use crate::models::common::{HitObjectRow, Key, KeyType};
use crate::models::generic::hitobjects::HitObject;
use crate::models::generic::sound::{HitSoundType, KeySound};
use crate::models::grid::{
    beat_at, cell_at, grid_error, has_row, is_grid_of, last_not_after, note_of, row_filled,
    with_end, Pairing,
};

verus! {

/// The note stands at or before the cell of lane `lane` in the row of time
/// `t`, in the order in which a grid is read: row by row, and lane by lane
/// within a row.
pub open spec fn at_or_before(h: HitObject, t: int, lane: int) -> bool {
    h.time < t || (h.time == t && h.lane <= lane)
}

/// Note `i` stands before note `j` in the order in which a grid is read, and
/// not in the same cell.
pub open spec fn reads_before(notes: Seq<HitObject>, i: int, j: int) -> bool {
    at_or_before(notes[i], notes[j].time as int, notes[j].lane - 1)
}

/// The notes stand in the order in which a grid is read, and no two of them
/// in one cell.
pub open spec fn in_reading_order(notes: Seq<HitObject>) -> bool {
    forall|i: int, j: int| 0 <= i < j < notes.len() ==> #[trigger] reads_before(notes, i, j)
}

/// The start of a long note that is still open in lane `lane` after `notes`:
/// the index of the last start or end in that lane, if that is a start.
pub open spec fn open_start(notes: Seq<HitObject>, lane: int) -> Option<int>
    decreases notes.len(),
{
    if notes.len() == 0 {
        None
    } else {
        let h = notes.last();
        if h.lane == lane && h.key.key_type == KeyType::SliderStart {
            Some(notes.len() - 1)
        } else if h.lane == lane && h.key.key_type == KeyType::SliderEnd {
            None
        } else {
            open_start(notes.drop_last(), lane)
        }
    }
}

/// Note `j` fits the long notes before it: if it starts a long note, none is
/// open in its lane; if it ends one, the start that it closes carries its
/// time as end time.
pub open spec fn fits_long_notes(notes: Seq<HitObject>, j: int) -> bool {
    let open = open_start(notes.subrange(0, j), notes[j].lane as int);
    &&& notes[j].key.key_type == KeyType::SliderStart ==> open is None
    &&& notes[j].key.key_type == KeyType::SliderEnd && open is Some ==> notes[open->0].key == (Key {
        key_type: KeyType::SliderStart,
        slider_end_time: Some(notes[j].time),
    })
}

/// Long notes do not overlap: in each lane a long note starts only when none
/// is open, and the end that closes a start stands at the end time that the
/// start carries.
pub open spec fn long_notes_apart(notes: Seq<HitObject>) -> bool {
    forall|j: int| 0 <= j < notes.len() ==> #[trigger] fits_long_notes(notes, j)
}

/// Note `i` can pass through a grid of `key_count` lanes: it is a tap or the
/// start or end of a long note, in a lane that exists, with the plain key
/// sound.
pub open spec fn fits_grid(notes: Seq<HitObject>, key_count: int, i: int) -> bool {
    &&& 1 <= notes[i].lane <= key_count
    &&& notes[i].keysound == KeySound::plain(100, HitSoundType::Normal)
    &&& (notes[i].key.key_type == KeyType::Normal || notes[i].key.key_type == KeyType::SliderStart
        || notes[i].key.key_type == KeyType::SliderEnd)
}

/// Notes `i` and `j` carry the same beat if they stand at the same time.
pub open spec fn beats_agree(notes: Seq<HitObject>, i: int, j: int) -> bool {
    notes[i].time == notes[j].time ==> notes[i].beat == notes[j].beat
}

/// What a note list must be like to come back from the grid as it went in:
/// it is no longer than a vector can be; its notes are taps and starts and
/// ends of long notes, in lanes that exist, with the plain key sound; notes of
/// one time carry one beat; they stand in reading order; and long notes do
/// not overlap.
pub open spec fn survives_grid(notes: Seq<HitObject>, key_count: int) -> bool {
    &&& 0 <= key_count <= 255
    &&& notes.len() <= usize::MAX
    &&& forall|i: int| 0 <= i < notes.len() ==> #[trigger] fits_grid(notes, key_count, i)
    &&& forall|i: int, j: int|
        0 <= i < notes.len() && 0 <= j < notes.len() ==> #[trigger] beats_agree(notes, i, j)
    &&& in_reading_order(notes)
    &&& long_notes_apart(notes)
}

/// How many of `notes` stand at or before the cell of lane `lane` in the row
/// of time `t`, given that they stand in reading order.
pub open spec fn rank(notes: Seq<HitObject>, t: int, lane: int) -> int
    decreases notes.len(),
{
    if notes.len() == 0 {
        0
    } else if at_or_before(notes.last(), t, lane) {
        notes.len() as int
    } else {
        rank(notes.drop_last(), t, lane)
    }
}

pub proof fn lemma_reading_order_prefix(notes: Seq<HitObject>, n: int)
    requires
        in_reading_order(notes),
        0 <= n <= notes.len(),
    ensures
        in_reading_order(notes.subrange(0, n)),
{
    let p = notes.subrange(0, n);
    assert forall|i: int, j: int| 0 <= i < j < p.len() implies #[trigger] reads_before(p, i, j) by {
        assert(reads_before(notes, i, j));
        assert(p[i] == notes[i] && p[j] == notes[j]);
    }
}

/// The rank is the one index that parts the notes at or before a cell from
/// those behind it.
proof fn lemma_rank_is(notes: Seq<HitObject>, t: int, lane: int, p: int)
    requires
        0 <= p <= notes.len(),
        forall|i: int| 0 <= i < p ==> at_or_before(#[trigger] notes[i], t, lane),
        forall|i: int| p <= i < notes.len() ==> !at_or_before(#[trigger] notes[i], t, lane),
    ensures
        rank(notes, t, lane) == p,
    decreases notes.len(),
{
    if notes.len() > 0 {
        if at_or_before(notes.last(), t, lane) {
            if p < notes.len() {
                assert(!at_or_before(notes[notes.len() - 1], t, lane));
            }
        } else {
            if p == notes.len() {
                assert(at_or_before(notes[notes.len() - 1], t, lane));
            }
            let d = notes.drop_last();
            assert forall|i: int| 0 <= i < p implies at_or_before(#[trigger] d[i], t, lane) by {
                assert(d[i] == notes[i]);
            }
            assert forall|i: int| p <= i < d.len() implies !at_or_before(
                #[trigger] d[i],
                t,
                lane,
            ) by {
                assert(d[i] == notes[i]);
            }
            lemma_rank_is(d, t, lane, p);
        }
    }
}

proof fn lemma_rank_parts(notes: Seq<HitObject>, t: int, lane: int)
    requires
        in_reading_order(notes),
    ensures
        0 <= rank(notes, t, lane) <= notes.len(),
        forall|i: int| 0 <= i < rank(notes, t, lane) ==> at_or_before(#[trigger] notes[i], t, lane),
        forall|i: int|
            rank(notes, t, lane) <= i < notes.len() ==> !at_or_before(#[trigger] notes[i], t, lane),
    decreases notes.len(),
{
    if notes.len() > 0 {
        let last = notes[notes.len() - 1];
        if at_or_before(notes.last(), t, lane) {
            assert forall|i: int| 0 <= i < notes.len() implies at_or_before(
                #[trigger] notes[i],
                t,
                lane,
            ) by {
                if i < notes.len() - 1 {
                    assert(reads_before(notes, i, notes.len() - 1));
                }
            }
        } else {
            let d = notes.drop_last();
            lemma_reading_order_prefix(notes, notes.len() - 1);
            assert(d =~= notes.subrange(0, notes.len() - 1));
            lemma_rank_parts(d, t, lane);
            assert forall|i: int| 0 <= i < rank(notes, t, lane) implies at_or_before(
                #[trigger] notes[i],
                t,
                lane,
            ) by {
                assert(notes[i] == d[i]);
            }
            assert forall|i: int| rank(notes, t, lane) <= i < notes.len() implies !at_or_before(
                #[trigger] notes[i],
                t,
                lane,
            ) by {
                if i < d.len() {
                    assert(notes[i] == d[i]);
                }
            }
        }
    }
}

/// A cell in which no note stands is empty.
pub proof fn lemma_cell_empty(notes: Seq<HitObject>, t: int, lane: int)
    requires
        forall|i: int|
            0 <= i < notes.len() ==> !((#[trigger] notes[i]).time == t && notes[i].lane == lane),
    ensures
        cell_at(notes, t, lane) == (Key { key_type: KeyType::Empty, slider_end_time: None }),
    decreases notes.len(),
{
    if notes.len() > 0 {
        let d = notes.drop_last();
        assert forall|i: int| 0 <= i < d.len() implies !((#[trigger] d[i]).time == t && d[i].lane
            == lane) by {
            assert(d[i] == notes[i]);
        }
        lemma_cell_empty(d, t, lane);
        assert(!(notes[notes.len() - 1].time == t && notes[notes.len() - 1].lane == lane));
    }
}

/// A cell in which one note stands, a tap or the start or end of a long note,
/// holds the key of that note.
pub proof fn lemma_cell_of_note(notes: Seq<HitObject>, k: int)
    requires
        0 <= k < notes.len(),
        forall|i: int|
            0 <= i < notes.len() && i != k ==> !((#[trigger] notes[i]).time == notes[k].time
                && notes[i].lane == notes[k].lane),
        notes[k].key.key_type == KeyType::Normal || notes[k].key.key_type == KeyType::SliderStart
            || notes[k].key.key_type == KeyType::SliderEnd,
    ensures
        cell_at(notes, notes[k].time as int, notes[k].lane as int) == notes[k].key,
    decreases notes.len(),
{
    let t = notes[k].time as int;
    let lane = notes[k].lane as int;
    let d = notes.drop_last();
    if k == notes.len() - 1 {
        assert forall|i: int| 0 <= i < d.len() implies !((#[trigger] d[i]).time == t && d[i].lane
            == lane) by {
            assert(d[i] == notes[i]);
        }
        lemma_cell_empty(d, t, lane);
    } else {
        assert(d[k] == notes[k]);
        assert forall|i: int| 0 <= i < d.len() && i != k implies !((#[trigger] d[i]).time
            == d[k].time && d[i].lane == d[k].lane) by {
            assert(d[i] == notes[i]);
        }
        lemma_cell_of_note(d, k);
        assert(!(notes[notes.len() - 1].time == t && notes[notes.len() - 1].lane == lane));
    }
}

/// Where the notes of one time carry one beat, the row of that time carries
/// it too.
pub proof fn lemma_beat_of_note(notes: Seq<HitObject>, k: int)
    requires
        0 <= k < notes.len(),
        forall|i: int, j: int|
            0 <= i < notes.len() && 0 <= j < notes.len() ==> #[trigger] beats_agree(notes, i, j),
    ensures
        beat_at(notes, notes[k].time as int) == notes[k].beat,
    decreases notes.len(),
{
    let last = notes[notes.len() - 1];
    assert(beats_agree(notes, notes.len() - 1, k));
    if last.time != notes[k].time {
        let d = notes.drop_last();
        assert(d[k] == notes[k]);
        assert forall|i: int, j: int| 0 <= i < d.len() && 0 <= j < d.len() implies #[trigger] beats_agree(
            d,
            i,
            j,
        ) by {
            assert(beats_agree(notes, i, j));
            assert(d[i] == notes[i] && d[j] == notes[j]);
        }
        lemma_beat_of_note(d, k);
    }
}

/// A note in another lane, or a tap, leaves the open start of a lane as it
/// is.
proof fn lemma_open_start_push(notes: Seq<HitObject>, h: HitObject, lane: int)
    ensures
        open_start(notes.push(h), lane) == if h.lane == lane && h.key.key_type
            == KeyType::SliderStart {
            Some(notes.len() as int)
        } else if h.lane == lane && h.key.key_type == KeyType::SliderEnd {
            None
        } else {
            open_start(notes, lane)
        },
{
    assert(notes.push(h).drop_last() =~= notes);
}

/// The pairing has read the first `m` of `notes` and left them as they are;
/// in each lane the open start, if there is one, waits in the queue.
pub open spec fn in_step(st: Pairing, notes: Seq<HitObject>, key_count: int, m: int) -> bool {
    &&& 0 <= m <= notes.len() <= usize::MAX
    &&& st.notes == notes.subrange(0, m)
    &&& st.queues.len() == key_count
    &&& forall|l: int|
        0 <= l < key_count ==> #[trigger] st.queues[l] == match open_start(
            notes.subrange(0, m),
            l + 1,
        ) {
            Some(i) => seq![i as usize],
            None => Seq::<usize>::empty(),
        }
}

proof fn lemma_open_start_range(notes: Seq<HitObject>, lane: int)
    ensures
        match open_start(notes, lane) {
            Some(i) => 0 <= i < notes.len() && notes[i].lane == lane && notes[i].key.key_type
                == KeyType::SliderStart,
            None => true,
        },
    decreases notes.len(),
{
    if notes.len() > 0 {
        let h = notes.last();
        if !(h.lane == lane && (h.key.key_type == KeyType::SliderStart || h.key.key_type
            == KeyType::SliderEnd)) {
            lemma_open_start_range(notes.drop_last(), lane);
            let d = notes.drop_last();
            if open_start(d, lane) is Some {
                assert(d[open_start(d, lane)->0] == notes[open_start(d, lane)->0]);
            }
        }
    }
}

/// What `survives_grid` says of the note at index `m`.
pub open spec fn fits_behind(notes: Seq<HitObject>, key_count: int, m: int) -> bool {
    let h = notes[m];
    let open = open_start(notes.subrange(0, m), h.lane as int);
    &&& 1 <= h.lane <= key_count
    &&& (h.key.key_type == KeyType::Normal || h.key.key_type == KeyType::SliderStart
        || h.key.key_type == KeyType::SliderEnd)
    &&& h.key.key_type == KeyType::SliderStart ==> open is None
    &&& h.key.key_type == KeyType::SliderEnd && open is Some ==> {
        &&& 0 <= open->0 < m
        &&& notes[open->0].time <= h.time
        &&& notes[open->0].key == (Key {
            key_type: KeyType::SliderStart,
            slider_end_time: Some(h.time),
        })
    }
}

proof fn lemma_fits_behind(notes: Seq<HitObject>, key_count: int, m: int)
    requires
        survives_grid(notes, key_count),
        0 <= m < notes.len(),
    ensures
        fits_behind(notes, key_count, m),
{
    let h = notes[m];
    let before = notes.subrange(0, m);
    let open = open_start(before, h.lane as int);
    lemma_open_start_range(before, h.lane as int);
    assert(fits_grid(notes, key_count, m));
    assert(fits_long_notes(notes, m));
    if open is Some {
        let i = open->0;
        assert(before[i] == notes[i]);
        assert(reads_before(notes, i, m));
    }
}

/// Reading the next note keeps the pairing in step.
proof fn lemma_step(st: Pairing, notes: Seq<HitObject>, key_count: int, m: int)
    requires
        in_step(st, notes, key_count, m),
        m < notes.len(),
        fits_behind(notes, key_count, m),
    ensures
        in_step(st.placed(notes[m]), notes, key_count, m + 1),
{
    let h = notes[m];
    let lane = h.lane - 1;
    let before = notes.subrange(0, m);
    let after = notes.subrange(0, m + 1);
    let next = st.placed(h);
    assert(after =~= before.push(h));
    let open = open_start(before, h.lane as int);
    assert(st.queues[lane] == match open {
        Some(i) => seq![i as usize],
        None => Seq::<usize>::empty(),
    });
    if h.key.key_type == KeyType::SliderEnd && open is Some {
        let i = open->0;
        assert(before[i] == notes[i]);
        assert(st.notes[i] == notes[i]);
        let queue = st.queues[lane];
        assert(queue.len() == 1 && queue[0] == i as usize);
        assert(queue.drop_last() =~= Seq::<usize>::empty());
        assert(last_not_after(st.notes, queue, h.time as int) == 0);
        assert(with_end(st.notes[i], h.time) == st.notes[i]);
        assert(st.notes.update(i, st.notes[i]) =~= st.notes);
        assert(queue.remove(0) =~= Seq::<usize>::empty());
    }
    assert(next.notes =~= after);
    assert(next.queues.len() == key_count);
    assert forall|l: int| 0 <= l < key_count implies #[trigger] next.queues[l] == match open_start(
        after,
        l + 1,
    ) {
        Some(i) => seq![i as usize],
        None => Seq::<usize>::empty(),
    } by {
        lemma_open_start_push(before, h, l + 1);
        assert(st.queues[l] == match open_start(before, l + 1) {
            Some(i) => seq![i as usize],
            None => Seq::<usize>::empty(),
        });
        if l == lane {
            if h.key.key_type == KeyType::SliderStart {
                assert(st.queues[l].push(m as usize) =~= seq![m as usize]);
            }
        }
    }
}

/// The index of a row that stands at the time of note `i`.
proof fn lemma_row_of_note(
    rows: Seq<HitObjectRow>,
    notes: Seq<HitObject>,
    key_count: int,
    i: int,
) -> (k: int)
    requires
        is_grid_of(rows, notes, key_count),
        0 <= i < notes.len(),
    ensures
        0 <= k < rows.len(),
        rows[k].time == notes[i].time,
{
    reveal(has_row);
    assert(has_row(rows, notes[i].time as int));
    choose|k: int| 0 <= k < rows.len() && (#[trigger] rows[k]).time == notes[i].time as int
}

/// No note stands before the first row.
proof fn lemma_rank_first_row(rows: Seq<HitObjectRow>, notes: Seq<HitObject>, key_count: int)
    requires
        survives_grid(notes, key_count),
        is_grid_of(rows, notes, key_count),
        rows.len() > 0,
    ensures
        rank(notes, rows[0].time as int, 0) == 0,
{
    assert forall|i: int| 0 <= i < notes.len() implies !at_or_before(
        #[trigger] notes[i],
        rows[0].time as int,
        0,
    ) by {
        let k = lemma_row_of_note(rows, notes, key_count, i);
        if k > 0 {
            assert(rows[0].time < rows[k].time);
        }
        assert(fits_grid(notes, key_count, i));
    }
    lemma_rank_is(notes, rows[0].time as int, 0, 0);
}

/// The notes up to the end of one row are the notes before the next row.
proof fn lemma_rank_between_rows(
    rows: Seq<HitObjectRow>,
    notes: Seq<HitObject>,
    key_count: int,
    r: int,
)
    requires
        survives_grid(notes, key_count),
        is_grid_of(rows, notes, key_count),
        1 <= r < rows.len(),
    ensures
        rank(notes, rows[r - 1].time as int, key_count) == rank(notes, rows[r].time as int, 0),
{
    let t0 = rows[r - 1].time as int;
    let t1 = rows[r].time as int;
    assert(rows[r - 1].time < rows[r].time);
    lemma_rank_parts(notes, t0, key_count);
    let p = rank(notes, t0, key_count);
    assert forall|i: int| p <= i < notes.len() implies !at_or_before(#[trigger] notes[i], t1, 0) by {
        assert(fits_grid(notes, key_count, i));
        let k = lemma_row_of_note(rows, notes, key_count, i);
        if k < r - 1 {
            assert(rows[k].time < rows[r - 1].time);
        } else if k > r {
            assert(rows[r].time < rows[k].time);
        }
    }
    lemma_rank_is(notes, t1, 0, p);
}

/// Every note stands at or before the end of the last row.
proof fn lemma_rank_last_row(rows: Seq<HitObjectRow>, notes: Seq<HitObject>, key_count: int)
    requires
        survives_grid(notes, key_count),
        is_grid_of(rows, notes, key_count),
        rows.len() > 0,
    ensures
        rank(notes, rows[rows.len() - 1].time as int, key_count) == notes.len(),
{
    let last = rows.len() - 1;
    assert forall|i: int| 0 <= i < notes.len() implies at_or_before(
        #[trigger] notes[i],
        rows[last].time as int,
        key_count,
    ) by {
        assert(fits_grid(notes, key_count, i));
        let k = lemma_row_of_note(rows, notes, key_count, i);
        if k < last {
            assert(rows[k].time < rows[last].time);
        }
    }
    lemma_rank_is(notes, rows[last].time as int, key_count, notes.len() as int);
}

/// Reading the cell of lane `lane` of a row keeps the pairing in step.
proof fn lemma_cell_step(
    st: Pairing,
    row: HitObjectRow,
    notes: Seq<HitObject>,
    key_count: int,
    lane: int,
)
    requires
        survives_grid(notes, key_count),
        row_filled(row, notes, key_count),
        1 <= lane <= key_count,
        in_step(st, notes, key_count, rank(notes, row.time as int, lane - 1)),
    ensures
        in_step(
            if row.keys@[lane - 1].key_type == KeyType::Empty {
                st
            } else {
                st.placed(note_of(row.time, row.beat, row.keys@[lane - 1], lane))
            },
            notes,
            key_count,
            rank(notes, row.time as int, lane),
        ),
{
    let t = row.time as int;
    let m = rank(notes, t, lane - 1);
    let key = row.keys@[lane - 1];
    assert(key == cell_at(notes, t, lane - 1 + 1));
    lemma_rank_parts(notes, t, lane - 1);
    if m < notes.len() && notes[m].time == t && notes[m].lane == lane {
        assert forall|i: int| 0 <= i < notes.len() && i != m implies !((#[trigger] notes[i]).time
            == notes[m].time && notes[i].lane == notes[m].lane) by {
            if i > m {
                assert(reads_before(notes, m, i));
            }
        }
        assert(fits_grid(notes, key_count, m));
        lemma_cell_of_note(notes, m);
        lemma_beat_of_note(notes, m);
        assert(note_of(row.time, row.beat, key, lane) == notes[m]);
        lemma_fits_behind(notes, key_count, m);
        lemma_step(st, notes, key_count, m);
        assert forall|i: int| m + 1 <= i < notes.len() implies !at_or_before(
            #[trigger] notes[i],
            t,
            lane,
        ) by {
            assert(reads_before(notes, m, i));
        }
        lemma_rank_is(notes, t, lane, m + 1);
    } else {
        assert forall|i: int| 0 <= i < notes.len() implies !((#[trigger] notes[i]).time == t
            && notes[i].lane == lane) by {
            if i > m {
                assert(reads_before(notes, m, i));
            }
        }
        lemma_cell_empty(notes, t, lane);
        lemma_rank_is(notes, t, lane, m);
    }
}

/// The pairing after the first `r` rows and the first `l` cells of the next.
pub open spec fn pairing_at(rows: Seq<HitObjectRow>, key_count: int, r: int, l: int) -> Pairing {
    Pairing::of_rows(rows.subrange(0, r), key_count).with_cells(rows[r], l)
}

/// All the way through the grid of a note list the pairing stays in step
/// with the list.
proof fn lemma_in_step_throughout(
    rows: Seq<HitObjectRow>,
    notes: Seq<HitObject>,
    key_count: int,
    r: int,
    l: int,
)
    requires
        survives_grid(notes, key_count),
        is_grid_of(rows, notes, key_count),
        0 <= r < rows.len(),
        0 <= l <= key_count,
    ensures
        in_step(pairing_at(rows, key_count, r, l), notes, key_count, rank(
            notes,
            rows[r].time as int,
            l,
        )),
    decreases r, l,
{
    if l > 0 {
        lemma_in_step_throughout(rows, notes, key_count, r, l - 1);
        assert(row_filled(rows[r], notes, key_count));
        lemma_cell_step(pairing_at(rows, key_count, r, l - 1), rows[r], notes, key_count, l);
    } else if r > 0 {
        lemma_in_step_throughout(rows, notes, key_count, r - 1, key_count);
        lemma_rank_between_rows(rows, notes, key_count, r);
        assert(rows.subrange(0, r).drop_last() =~= rows.subrange(0, r - 1));
        assert(rows.subrange(0, r).last() == rows[r - 1]);
    } else {
        lemma_rank_first_row(rows, notes, key_count);
        let st = pairing_at(rows, key_count, 0, 0);
        assert(rows.subrange(0, 0).len() == 0);
        assert(st == Pairing::start(key_count));
        assert(st.notes =~= notes.subrange(0, 0));
    }
}

/// The grid round trip. A note list that `survives_grid` describes comes back
/// from the grid as it went in: flattening the grid of the list is no error
/// and gives the same notes in the same order, the end times of the long
/// notes included.
pub proof fn lemma_grid_round_trip(
    rows: Seq<HitObjectRow>,
    notes: Seq<HitObject>,
    key_count: int,
)
    requires
        survives_grid(notes, key_count),
        is_grid_of(rows, notes, key_count),
    ensures
        grid_error(rows, key_count) is None,
        Pairing::of_rows(rows, key_count).notes == notes,
{
    assert forall|i: int| 0 <= i < rows.len() implies (#[trigger] rows[i]).keys@.len()
        == key_count by {
        assert(row_filled(rows[i], notes, key_count));
    }
    if rows.len() == 0 {
        if notes.len() > 0 {
            let k = lemma_row_of_note(rows, notes, key_count, 0);
        }
        assert(Pairing::of_rows(rows, key_count).notes =~= notes);
    } else {
        let last = rows.len() - 1;
        lemma_in_step_throughout(rows, notes, key_count, last, key_count);
        lemma_rank_last_row(rows, notes, key_count);
        assert(rows.subrange(0, last) =~= rows.drop_last());
        assert(notes.subrange(0, notes.len() as int) =~= notes);
    }
}

} // verus!
