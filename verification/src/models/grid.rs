//! The grid converter: between the note list of the canonical chart and rows
//! of cells, one row per time and one cell per lane.

use vstd::prelude::*;
use crate::errors::ChartError;
use crate::models::common::{HitObjectRow, Key, KeyType};
use crate::models::generic::hitobjects::HitObject;
use crate::models::generic::sound::{HitSoundType, KeySound};
use crate::models::ordered::{
    at_time, lemma_at_time_from, lemma_at_time_holds, lemma_at_time_none, lemma_at_time_push,
    lemma_same_order_same_items, same_order_per_time, stable_sort, times_sorted,
};

verus! {

/// Something the pairing of long notes could not resolve. None of these is
/// an error: the notes stay in the chart as they are.
#[derive(Debug, Clone, Copy, PartialEq, Eq, Structural)]
pub enum PairingWarning {
    /// The end of a long note with no open start at or before its time.
    UnmatchedEnd { time: i32, lane: u8 },
    /// Starts of long notes in one lane that no end ever closed.
    UnmatchedStarts { count: usize, lane: u8 },
}

/// What flattening a grid gives: the notes, and what the pairing could not
/// resolve.
#[derive(Debug, Clone)]
pub struct Flattened {
    pub notes: Vec<HitObject>,
    pub warnings: Vec<PairingWarning>,
}

/// The pairing while it runs: the notes made so far; for each lane the
/// indices of the long-note starts that are still open, oldest first; and the
/// warnings given so far.
pub ghost struct Pairing {
    pub notes: Seq<HitObject>,
    pub queues: Seq<Seq<usize>>,
    pub warnings: Seq<PairingWarning>,
}

/// The position in `queue` of the last open start whose time is at most `t`,
/// or -1 if there is none.
pub open spec fn last_not_after(notes: Seq<HitObject>, queue: Seq<usize>, t: int) -> int
    decreases queue.len(),
{
    if queue.len() == 0 {
        -1
    } else if notes[queue.last() as int].time <= t {
        queue.len() - 1
    } else {
        last_not_after(notes, queue.drop_last(), t)
    }
}

/// The same start with its end time resolved.
pub open spec fn with_end(h: HitObject, end: i32) -> HitObject {
    HitObject { key: Key { key_type: h.key.key_type, slider_end_time: Some(end) }, ..h }
}

/// The note that the cell of lane `lane` (counted from 1) of a row at `time`
/// and `beat` stands for.
pub open spec fn note_of(time: i32, beat: i64, key: Key, lane: int) -> HitObject {
    HitObject {
        time,
        beat,
        keysound: KeySound::plain(100, HitSoundType::Normal),
        key,
        lane: lane as u8,
    }
}

impl Pairing {
    pub open spec fn start(key_count: int) -> Self {
        Pairing {
            notes: Seq::empty(),
            queues: Seq::new(key_count as nat, |l: int| Seq::<usize>::empty()),
            warnings: Seq::empty(),
        }
    }

    /// Every open start is a note that exists.
    pub open spec fn wf(self, key_count: int) -> bool {
        &&& self.queues.len() == key_count
        &&& forall|l: int, k: int|
            0 <= l < self.queues.len() && 0 <= k < self.queues[l].len() ==> (
            #[trigger] self.queues[l][k]) < self.notes.len()
    }

    /// One more note enters. A start joins the queue of its lane. An end
    /// closes the last open start of its lane that is not later than itself,
    /// whichever place that start has in the queue, and gives it its end
    /// time; with no such start it is reported and left alone.
    pub open spec fn placed(self, note: HitObject) -> Self {
        let lane = note.lane - 1;
        match note.key.key_type {
            KeyType::SliderStart => Pairing {
                notes: self.notes.push(note),
                queues: self.queues.update(lane, self.queues[lane].push(self.notes.len() as usize)),
                warnings: self.warnings,
            },
            KeyType::SliderEnd => {
                let q = last_not_after(self.notes, self.queues[lane], note.time as int);
                if q >= 0 {
                    let s = self.queues[lane][q] as int;
                    Pairing {
                        notes: self.notes.update(s, with_end(self.notes[s], note.time)).push(note),
                        queues: self.queues.update(lane, self.queues[lane].remove(q)),
                        warnings: self.warnings,
                    }
                } else {
                    Pairing {
                        notes: self.notes.push(note),
                        queues: self.queues,
                        warnings: self.warnings.push(
                            PairingWarning::UnmatchedEnd { time: note.time, lane: note.lane },
                        ),
                    }
                }
            },
            _ => Pairing { notes: self.notes.push(note), queues: self.queues, warnings: self.warnings },
        }
    }

    /// The first `upto` cells of `row` enter, lane by lane; empty cells make
    /// no note.
    pub open spec fn with_cells(self, row: HitObjectRow, upto: int) -> Self
        decreases upto,
    {
        if upto <= 0 {
            self
        } else {
            let before = self.with_cells(row, upto - 1);
            let key = row.keys@[upto - 1];
            if key.key_type == KeyType::Empty {
                before
            } else {
                before.placed(note_of(row.time, row.beat, key, upto))
            }
        }
    }

    /// All of `rows` enter, in the order given.
    pub open spec fn of_rows(rows: Seq<HitObjectRow>, key_count: int) -> Self
        decreases rows.len(),
    {
        if rows.len() == 0 {
            Self::start(key_count)
        } else {
            Self::of_rows(rows.drop_last(), key_count).with_cells(rows.last(), key_count)
        }
    }

    /// One warning for each of the first `upto` lanes that still has open
    /// starts, in lane order.
    pub open spec fn leftover(self, upto: int) -> Seq<PairingWarning>
        decreases upto,
    {
        if upto <= 0 {
            Seq::empty()
        } else if self.queues[upto - 1].len() > 0 {
            self.leftover(upto - 1).push(
                PairingWarning::UnmatchedStarts {
                    count: self.queues[upto - 1].len() as usize,
                    lane: upto as u8,
                },
            )
        } else {
            self.leftover(upto - 1)
        }
    }
}

/// Why a grid cannot be flattened, if it cannot: more lanes than a lane number
/// can count, or a row that is not `key_count` cells wide.
pub open spec fn grid_error(rows: Seq<HitObjectRow>, key_count: int) -> Option<ChartError> {
    if key_count > 255 {
        Some(ChartError::UnsupportedKeyCount)
    } else if exists|i: int| 0 <= i < rows.len() && (#[trigger] rows[i]).keys@.len() != key_count {
        Some(ChartError::MalformedGrid)
    } else {
        None
    }
}

/// The pairing as the converter holds it.
struct Flattener {
    notes: Vec<HitObject>,
    queues: Vec<Vec<usize>>,
    warnings: Vec<PairingWarning>,
}

impl Flattener {
    spec fn state(&self) -> Pairing {
        Pairing {
            notes: self.notes@,
            queues: self.queues@.map_values(|q: Vec<usize>| q@),
            warnings: self.warnings@,
        }
    }

    fn new(key_count: usize) -> (f: Self)
        ensures
            f.state() == Pairing::start(key_count as int),
            f.state().wf(key_count as int),
    {
        let mut queues: Vec<Vec<usize>> = Vec::new();
        let mut l: usize = 0;
        while l < key_count
            invariant
                l <= key_count,
                queues@.len() == l,
                forall|k: int| 0 <= k < l ==> (#[trigger] queues@[k])@.len() == 0,
            decreases key_count - l,
        {
            queues.push(Vec::new());
            l += 1;
        }
        let f = Flattener { notes: Vec::new(), queues, warnings: Vec::new() };
        assert(f.state().queues =~~= Pairing::start(key_count as int).queues);
        f
    }

    /// Finds the open start that an end at time `t` in the lane of index `lane`
    /// closes.
    fn find_start(&self, lane: usize, t: i32) -> (q: Option<usize>)
        requires
            self.state().wf(self.queues@.len() as int),
            lane < self.queues@.len(),
        ensures
            match q {
                Some(i) => i == last_not_after(self.notes@, self.queues@[lane as int]@, t as int),
                None => last_not_after(self.notes@, self.queues@[lane as int]@, t as int) == -1,
            },
            q is Some ==> q->0 < self.queues@[lane as int]@.len(),
    {
        let queue = &self.queues[lane];
        let mut found: Option<usize> = None;
        let mut i: usize = 0;
        assert(queue@.subrange(0, 0) =~= Seq::<usize>::empty());
        while i < queue.len()
            invariant
                i <= queue.len(),
                queue@ == self.queues@[lane as int]@,
                self.state().wf(self.queues@.len() as int),
                lane < self.queues@.len(),
                match found {
                    Some(k) => k < i && k == last_not_after(
                        self.notes@,
                        queue@.subrange(0, i as int),
                        t as int,
                    ),
                    None => last_not_after(self.notes@, queue@.subrange(0, i as int), t as int)
                        == -1,
                },
            decreases queue.len() - i,
        {
            let s = queue[i];
            assert(s == self.state().queues[lane as int][i as int]);
            assert(queue@.subrange(0, i + 1).drop_last() =~= queue@.subrange(0, i as int));
            if self.notes[s].time <= t {
                found = Some(i);
            }
            i += 1;
        }
        assert(queue@.subrange(0, i as int) =~= queue@);
        found
    }

    fn place(&mut self, note: HitObject)
        requires
            old(self).state().wf(old(self).queues@.len() as int),
            1 <= note.lane <= old(self).queues@.len(),
        ensures
            final(self).state() == old(self).state().placed(note),
            final(self).queues@.len() == old(self).queues@.len(),
            final(self).state().wf(final(self).queues@.len() as int),
    {
        let lane: usize = (note.lane - 1) as usize;
        let index = self.notes.len();
        let ghost before = self.state();
        match note.key.key_type {
            KeyType::SliderStart => {
                self.notes.push(note);
                self.queues[lane].push(index);
                assert(self.state().queues =~~= before.placed(note).queues);
            },
            KeyType::SliderEnd => {
                match self.find_start(lane, note.time) {
                    Some(q) => {
                        let s = self.queues[lane].remove(q);
                        assert(s == before.queues[lane as int][q as int]);
                        let start = self.notes[s];
                        self.notes[s] = HitObject {
                            key: Key {
                                key_type: start.key.key_type,
                                slider_end_time: Some(note.time),
                            },
                            ..start
                        };
                        self.notes.push(note);
                        assert(self.state().queues =~~= before.placed(note).queues);
                        assert forall|l: int, k: int|
                            0 <= l < self.state().queues.len() && 0 <= k
                                < self.state().queues[l].len() implies (
                        #[trigger] self.state().queues[l][k]) < self.state().notes.len() by {
                            if l == lane {
                                if k < q {
                                    assert(self.state().queues[l][k] == before.queues[l][k]);
                                } else {
                                    assert(self.state().queues[l][k] == before.queues[l][k + 1]);
                                }
                            } else {
                                assert(self.state().queues[l][k] == before.queues[l][k]);
                            }
                        }
                    },
                    None => {
                        self.notes.push(note);
                        self.warnings.push(
                            PairingWarning::UnmatchedEnd { time: note.time, lane: note.lane },
                        );
                        assert(self.state().queues =~~= before.queues);
                    },
                }
            },
            _ => {
                self.notes.push(note);
                assert(self.state().queues =~~= before.queues);
            },
        }
        assert forall|l: int, k: int|
            0 <= l < self.state().queues.len() && 0 <= k < self.state().queues[l].len() implies (
        #[trigger] self.state().queues[l][k]) < self.state().notes.len() by {
            if note.key.key_type == KeyType::SliderStart {
                if l == lane && k == before.queues[l].len() {
                } else {
                    assert(self.state().queues[l][k] == before.queues[l][k]);
                }
            } else if note.key.key_type != KeyType::SliderEnd {
                assert(self.state().queues[l][k] == before.queues[l][k]);
            } else if last_not_after(before.notes, before.queues[lane as int], note.time as int)
                < 0 {
                assert(self.state().queues[l][k] == before.queues[l][k]);
            }
        }
    }
}

/// What a cell holds once one more key has claimed it. The start of a long
/// note always takes the cell; a tap takes it unless a start holds it; the end
/// of a long note takes it only while it is empty; other kinds have no place
/// in a grid built from notes.
pub open spec fn overlay(cell: Key, key: Key) -> Key {
    match key.key_type {
        KeyType::SliderStart => key,
        KeyType::Normal => if cell.key_type == KeyType::SliderStart {
            cell
        } else {
            key
        },
        KeyType::SliderEnd => if cell.key_type == KeyType::Empty {
            key
        } else {
            cell
        },
        _ => cell,
    }
}

/// The cell of lane `lane` (counted from 1) in the row of time `t`: the notes
/// at that time and lane claim it one after the other, in list order.
pub open spec fn cell_at(notes: Seq<HitObject>, t: int, lane: int) -> Key
    decreases notes.len(),
{
    if notes.len() == 0 {
        Key { key_type: KeyType::Empty, slider_end_time: None }
    } else {
        let cell = cell_at(notes.drop_last(), t, lane);
        let h = notes.last();
        if h.time == t && h.lane == lane {
            overlay(cell, h.key)
        } else {
            cell
        }
    }
}

/// The beat of the row of time `t`: that of the last note at that time.
pub open spec fn beat_at(notes: Seq<HitObject>, t: int) -> i64
    decreases notes.len(),
{
    if notes.len() == 0 {
        0
    } else if notes.last().time == t {
        notes.last().beat
    } else {
        beat_at(notes.drop_last(), t)
    }
}

/// Some note lies outside the lanes `1..=key_count`.
pub open spec fn has_lane_outside(notes: Seq<HitObject>, key_count: int) -> bool {
    exists|i: int| 0 <= i < notes.len() && !(1 <= (#[trigger] notes[i]).lane <= key_count)
}

/// `row` is `key_count` cells wide and filled from `notes` as `cell_at` and
/// `beat_at` say.
pub open spec fn row_filled(row: HitObjectRow, notes: Seq<HitObject>, key_count: int) -> bool {
    &&& row.keys@.len() == key_count
    &&& row.beat == beat_at(notes, row.time as int)
    &&& forall|l: int|
        0 <= l < key_count ==> #[trigger] row.keys@[l] == cell_at(notes, row.time as int, l + 1)
}

/// Some row of `rows` stands at time `t`.
#[verifier::opaque]
pub open spec fn has_row(rows: Seq<HitObjectRow>, t: int) -> bool {
    exists|i: int| 0 <= i < rows.len() && (#[trigger] rows[i]).time == t
}

/// `rows` is the grid of `notes`: one row for each time at which a note
/// stands, in ascending order of time, each filled from the notes.
pub open spec fn is_grid_of(rows: Seq<HitObjectRow>, notes: Seq<HitObject>, key_count: int) -> bool {
    &&& forall|i: int, j: int|
        0 <= i < j < rows.len() ==> (#[trigger] rows[i]).time < (#[trigger] rows[j]).time
    &&& forall|i: int|
        0 <= i < rows.len() ==> at_time(notes, (#[trigger] rows[i]).time as int).len() > 0
    &&& forall|k: int| 0 <= k < notes.len() ==> has_row(rows, (#[trigger] notes[k]).time as int)
    &&& forall|i: int| 0 <= i < rows.len() ==> row_filled(#[trigger] rows[i], notes, key_count)
}

pub proof fn lemma_has_row_at(rows: Seq<HitObjectRow>, i: int)
    requires
        0 <= i < rows.len(),
    ensures
        has_row(rows, rows[i].time as int),
{
    reveal(has_row);
}

pub proof fn lemma_has_row_push(rows: Seq<HitObjectRow>, row: HitObjectRow, t: int)
    requires
        has_row(rows, t),
    ensures
        has_row(rows.push(row), t),
{
    reveal(has_row);
    let i = choose|i: int| 0 <= i < rows.len() && (#[trigger] rows[i]).time == t;
    assert(rows.push(row)[i].time == t);
}

/// Notes at other times leave a row as it is.
pub proof fn lemma_row_ignores_other_times(notes: Seq<HitObject>, from: int, t: int, lane: int)
    requires
        0 <= from <= notes.len(),
        forall|k: int| from <= k < notes.len() ==> (#[trigger] notes[k]).time != t,
    ensures
        cell_at(notes, t, lane) == cell_at(notes.subrange(0, from), t, lane),
        beat_at(notes, t) == beat_at(notes.subrange(0, from), t),
    decreases notes.len() - from,
{
    if from == notes.len() {
        assert(notes.subrange(0, from) =~= notes);
    } else {
        let d = notes.drop_last();
        assert(notes[notes.len() - 1].time != t);
        assert forall|k: int| from <= k < d.len() implies (#[trigger] d[k]).time != t by {
            assert(d[k] == notes[k]);
        }
        lemma_row_ignores_other_times(d, from, t, lane);
        assert(d.subrange(0, from) =~= notes.subrange(0, from));
    }
}

/// A row depends only on the notes at its time, in their order.
pub proof fn lemma_row_of_notes_at_time(notes: Seq<HitObject>, t: int, lane: int)
    ensures
        cell_at(notes, t, lane) == cell_at(at_time(notes, t), t, lane),
        beat_at(notes, t) == beat_at(at_time(notes, t), t),
    decreases notes.len(),
{
    if notes.len() == 0 {
        lemma_at_time_none(notes, t);
    } else {
        let d = notes.drop_last();
        let h = notes.last();
        lemma_row_of_notes_at_time(d, t, lane);
        lemma_at_time_push(d, h, t);
        assert(d.push(h) =~= notes);
        if h.time == t {
            assert(at_time(d, t).push(h).drop_last() =~= at_time(d, t));
        }
    }
}

/// A grid depends on the notes only through the notes of each time and
/// their order.
pub proof fn lemma_grid_of_same_order(
    rows: Seq<HitObjectRow>,
    sorted: Seq<HitObject>,
    notes: Seq<HitObject>,
    key_count: int,
)
    requires
        is_grid_of(rows, sorted, key_count),
        same_order_per_time(sorted, notes),
    ensures
        is_grid_of(rows, notes, key_count),
{
    assert forall|i: int| 0 <= i < rows.len() implies at_time(
        notes,
        (#[trigger] rows[i]).time as int,
    ).len() > 0 by {
        assert(at_time(sorted, rows[i].time as int) == at_time(notes, rows[i].time as int));
    }
    assert forall|k: int| 0 <= k < notes.len() implies has_row(
        rows,
        (#[trigger] notes[k]).time as int,
    ) by {
        let t = notes[k].time as int;
        lemma_at_time_holds(notes, k);
        assert(at_time(sorted, t) == at_time(notes, t));
        lemma_at_time_from(sorted, t, notes[k]);
        let m = choose|m: int| 0 <= m < sorted.len() && sorted[m] == notes[k];
        assert(has_row(rows, sorted[m].time as int));
    }
    assert forall|i: int| 0 <= i < rows.len() implies row_filled(
        #[trigger] rows[i],
        notes,
        key_count,
    ) by {
        lemma_row_filled_same_order(rows[i], sorted, notes, key_count);
    }
}

pub proof fn lemma_row_filled_same_order(
    row: HitObjectRow,
    sorted: Seq<HitObject>,
    notes: Seq<HitObject>,
    key_count: int,
)
    requires
        row_filled(row, sorted, key_count),
        same_order_per_time(sorted, notes),
    ensures
        row_filled(row, notes, key_count),
{
    let t = row.time as int;
    assert(at_time(sorted, t) == at_time(notes, t));
    lemma_row_of_notes_at_time(sorted, t, 1);
    lemma_row_of_notes_at_time(notes, t, 1);
    assert forall|l: int| 0 <= l < key_count implies #[trigger] row.keys@[l] == cell_at(
        notes,
        t,
        l + 1,
    ) by {
        lemma_row_of_notes_at_time(sorted, t, l + 1);
        lemma_row_of_notes_at_time(notes, t, l + 1);
    }
}

fn overlay_key(cell: Key, key: Key) -> (k: Key)
    ensures
        k == overlay(cell, key),
{
    match key.key_type {
        KeyType::SliderStart => key,
        KeyType::Normal => match cell.key_type {
            KeyType::SliderStart => cell,
            _ => key,
        },
        KeyType::SliderEnd => match cell.key_type {
            KeyType::Empty => key,
            _ => cell,
        },
        _ => cell,
    }
}

/// The grid converter.
pub struct HitObjectTimeline;

impl HitObjectTimeline {
    /// Turns a grid into notes. Rows are read in the order given and cells
    /// lane by lane; every cell that is not empty becomes a note at its row's
    /// time and beat, in the lane of its column (counted from 1). Ends of long
    /// notes are paired with their starts while the rows are read (see
    /// [`Pairing::placed`]); what stays unpaired is reported in `warnings`,
    /// first the lonely ends in the order met, then the lanes with starts
    /// left open.
    pub fn flatten_rows(rows: &[HitObjectRow], key_count: usize) -> (r: Result<
        Flattened,
        ChartError,
    >)
        ensures
            match grid_error(rows@, key_count as int) {
                Some(e) => r == Err::<Flattened, ChartError>(e),
                None => {
                    let end = Pairing::of_rows(rows@, key_count as int);
                    &&& r is Ok
                    &&& r->Ok_0.notes@ == end.notes
                    &&& r->Ok_0.warnings@ == end.warnings + end.leftover(key_count as int)
                },
            },
    {
        if key_count > 255 {
            return Err(ChartError::UnsupportedKeyCount);
        }
        let mut i: usize = 0;
        while i < rows.len()
            invariant
                i <= rows.len(),
                key_count <= 255,
                forall|k: int| 0 <= k < i ==> (#[trigger] rows@[k]).keys@.len() == key_count,
            decreases rows.len() - i,
        {
            if rows[i].keys.len() != key_count {
                assert(rows@[i as int].keys@.len() != key_count);
                return Err(ChartError::MalformedGrid);
            }
            i += 1;
        }
        let mut f = Flattener::new(key_count);
        let mut r: usize = 0;
        assert(rows@.subrange(0, 0) =~= Seq::<HitObjectRow>::empty());
        while r < rows.len()
            invariant
                r <= rows.len(),
                key_count <= 255,
                forall|k: int| 0 <= k < rows.len() ==> (#[trigger] rows@[k]).keys@.len() == key_count,
                f.queues@.len() == key_count,
                f.state().wf(key_count as int),
                f.state() == Pairing::of_rows(rows@.subrange(0, r as int), key_count as int),
            decreases rows.len() - r,
        {
            let row = &rows[r];
            let ghost before = f.state();
            let mut l: usize = 0;
            while l < key_count
                invariant
                    l <= key_count,
                    key_count <= 255,
                    row.keys@.len() == key_count,
                    f.queues@.len() == key_count,
                    f.state().wf(key_count as int),
                    f.state() == before.with_cells(*row, l as int),
                decreases key_count - l,
            {
                let key = row.keys[l];
                let is_empty = match key.key_type {
                    KeyType::Empty => true,
                    _ => false,
                };
                if !is_empty {
                    f.place(
                        HitObject {
                            time: row.time,
                            beat: row.beat,
                            keysound: KeySound::of_type(100, HitSoundType::Normal),
                            key,
                            lane: (l + 1) as u8,
                        },
                    );
                }
                l += 1;
            }
            proof {
                assert(rows@.subrange(0, r + 1).drop_last() =~= rows@.subrange(0, r as int));
                assert(rows@.subrange(0, r + 1).last() == *row);
            }
            r += 1;
        }
        assert(rows@.subrange(0, r as int) =~= rows@);
        let ghost end = f.state();
        let mut warnings = f.warnings;
        let mut l: usize = 0;
        while l < key_count
            invariant
                l <= key_count,
                key_count <= 255,
                f.queues@.len() == key_count,
                end.queues == f.queues@.map_values(|q: Vec<usize>| q@),
                warnings@ == end.warnings + end.leftover(l as int),
            decreases key_count - l,
        {
            let count = f.queues[l].len();
            assert(count == end.queues[l as int].len());
            if count > 0 {
                warnings.push(PairingWarning::UnmatchedStarts { count, lane: (l + 1) as u8 });
            }
            l += 1;
            assert(warnings@ =~= end.warnings + end.leftover(l as int));
        }
        Ok(Flattened { notes: f.notes, warnings })
    }

    /// Builds the grid of a note list: one row for each time at which a note
    /// stands, in ascending order of time, whatever the order of the list.
    /// Where several notes claim one cell, `overlay` decides. A note in a lane
    /// outside `1..=key_count` is refused.
    pub fn to_rows(hitobjects: &[HitObject], key_count: usize) -> (r: Result<
        Vec<HitObjectRow>,
        ChartError,
    >)
        ensures
            has_lane_outside(hitobjects@, key_count as int) ==> r == Err::<
                Vec<HitObjectRow>,
                ChartError,
            >(ChartError::LaneOutOfRange),
            !has_lane_outside(hitobjects@, key_count as int) ==> r is Ok && is_grid_of(
                r->Ok_0@,
                hitobjects@,
                key_count as int,
            ),
    {
        let n = hitobjects.len();
        let mut sorted: Vec<HitObject> = Vec::new();
        let mut c: usize = 0;
        while c < n
            invariant
                c <= n,
                n == hitobjects@.len(),
                sorted@ == hitobjects@.subrange(0, c as int),
                forall|k: int| 0 <= k < c ==> 1 <= (#[trigger] hitobjects@[k]).lane <= key_count,
            decreases n - c,
        {
            let h = hitobjects[c];
            if h.lane < 1 || h.lane as usize > key_count {
                assert(!(1 <= hitobjects@[c as int].lane <= key_count));
                return Err(ChartError::LaneOutOfRange);
            }
            sorted.push(h);
            c += 1;
            assert(sorted@ =~= hitobjects@.subrange(0, c as int));
        }
        assert(sorted@ =~= hitobjects@);
        stable_sort(&mut sorted);
        proof {
            assert forall|k: int| 0 <= k < sorted@.len() implies 1 <= (#[trigger] sorted@[k]).lane
                <= key_count by {
                lemma_same_order_same_items(sorted@, hitobjects@, k);
                let j = choose|j: int| 0 <= j < hitobjects@.len() && hitobjects@[j] == sorted@[k];
                assert(1 <= hitobjects@[j].lane <= key_count);
            }
        }
        let rows = rows_of_sorted(&sorted, key_count);
        proof {
            lemma_grid_of_same_order(rows@, sorted@, hitobjects@, key_count as int);
        }
        Ok(rows)
    }
}

/// The row of the notes that stand at the time of `sorted[start]`, and the
/// index of the first note behind them.
fn build_row(sorted: &Vec<HitObject>, start: usize, key_count: usize) -> (res: (
    HitObjectRow,
    usize,
))
    requires
        times_sorted(sorted@),
        start < sorted@.len(),
        forall|k: int| 0 <= k < sorted@.len() ==> 1 <= (#[trigger] sorted@[k]).lane <= key_count,
        forall|k: int| 0 <= k < start ==> (#[trigger] sorted@[k]).time < sorted@[start as int].time,
    ensures
        start < res.1 <= sorted@.len(),
        res.0.time == sorted@[start as int].time,
        forall|k: int| start <= k < res.1 ==> (#[trigger] sorted@[k]).time == res.0.time,
        forall|k: int| res.1 <= k < sorted@.len() ==> (#[trigger] sorted@[k]).time > res.0.time,
        row_filled(res.0, sorted@, key_count as int),
{
    let n = sorted.len();
    let t = sorted[start].time;
    let mut keys = HitObjectRow::empty(t, 0, key_count).keys;
    let mut beat: i64 = sorted[start].beat;
    let mut i: usize = start;
    proof {
        let head = sorted@.subrange(0, start as int);
        assert forall|k: int| 0 <= k < head.len() implies (#[trigger] head[k]).time != t by {
            assert(sorted@[k].time < sorted@[start as int].time);
        }
        assert(head.subrange(0, 0) =~= Seq::<HitObject>::empty());
        assert forall|l: int| 0 <= l < key_count implies cell_at(head, t as int, l + 1)
            == #[trigger] keys@[l] by {
            lemma_row_ignores_other_times(head, 0, t as int, l + 1);
        }
    }
    while i < n && sorted[i].time == t
        invariant
            start <= i <= n,
            start < n,
            n == sorted@.len(),
            times_sorted(sorted@),
            t == sorted@[start as int].time,
            forall|k: int| 0 <= k < n ==> 1 <= (#[trigger] sorted@[k]).lane <= key_count,
            forall|k: int| start <= k < i ==> (#[trigger] sorted@[k]).time == t,
            keys@.len() == key_count,
            forall|l: int|
                0 <= l < key_count ==> #[trigger] keys@[l] == cell_at(
                    sorted@.subrange(0, i as int),
                    t as int,
                    l + 1,
                ),
            i > start ==> beat == sorted@[i - 1].beat,
        decreases n - i,
    {
        let obj = sorted[i];
        let lane = (obj.lane - 1) as usize;
        let ghost keys0 = keys@;
        let cell = keys[lane];
        keys[lane] = overlay_key(cell, obj.key);
        beat = obj.beat;
        proof {
            assert(sorted@.subrange(0, i + 1).drop_last() =~= sorted@.subrange(0, i as int));
            assert(sorted@.subrange(0, i + 1).last() == obj);
            assert forall|l: int| 0 <= l < key_count implies #[trigger] keys@[l] == cell_at(
                sorted@.subrange(0, i + 1),
                t as int,
                l + 1,
            ) by {
                assert(keys0[l] == cell_at(sorted@.subrange(0, i as int), t as int, l + 1));
            }
        }
        i += 1;
    }
    proof {
        assert(i > start);
        assert forall|k: int| i <= k < n implies (#[trigger] sorted@[k]).time > t by {
            assert(sorted@[i as int].time <= sorted@[k].time);
            assert(sorted@[start as int].time <= sorted@[i as int].time);
        }
        assert forall|l: int| 0 <= l < key_count implies #[trigger] keys@[l] == cell_at(
            sorted@,
            t as int,
            l + 1,
        ) by {
            lemma_row_ignores_other_times(sorted@, i as int, t as int, l + 1);
        }
        lemma_row_ignores_other_times(sorted@, i as int, t as int, 1);
        assert(sorted@.subrange(0, i as int).last() == sorted@[i - 1]);
    }
    (HitObjectRow { time: t, beat, keys }, i)
}

/// The grid of notes that are sorted by time.
fn rows_of_sorted(sorted: &Vec<HitObject>, key_count: usize) -> (rows: Vec<HitObjectRow>)
    requires
        times_sorted(sorted@),
        forall|k: int| 0 <= k < sorted@.len() ==> 1 <= (#[trigger] sorted@[k]).lane <= key_count,
    ensures
        is_grid_of(rows@, sorted@, key_count as int),
{
    let n = sorted.len();
    let mut rows: Vec<HitObjectRow> = Vec::new();
    let mut i: usize = 0;
    while i < n
        invariant
            i <= n,
            n == sorted@.len(),
            times_sorted(sorted@),
            forall|k: int| 0 <= k < n ==> 1 <= (#[trigger] sorted@[k]).lane <= key_count,
            forall|a: int, b: int|
                0 <= a < b < rows@.len() ==> (#[trigger] rows@[a]).time < (#[trigger] rows@[b]).time,
            forall|a: int|
                0 <= a < rows@.len() && i < n ==> (#[trigger] rows@[a]).time
                    < sorted@[i as int].time,
            forall|a: int|
                0 <= a < rows@.len() ==> at_time(sorted@, (#[trigger] rows@[a]).time as int).len()
                    > 0,
            forall|k: int| 0 <= k < i ==> has_row(rows@, (#[trigger] sorted@[k]).time as int),
            forall|k: int|
                0 <= k < i && i < n ==> (#[trigger] sorted@[k]).time < sorted@[i as int].time,
            forall|a: int|
                0 <= a < rows@.len() ==> row_filled(#[trigger] rows@[a], sorted@, key_count as int),
        decreases n - i,
    {
        let ghost start = i as int;
        let ghost rows0 = rows@;
        let (row, next) = build_row(sorted, i, key_count);
        rows.push(row);
        i = next;
        proof {
            let last = rows@.len() - 1;
            assert(rows@[last] == row);
            assert(rows@ == rows0.push(row));
            lemma_at_time_holds(sorted@, start);
            lemma_has_row_at(rows@, last);
            assert forall|k: int| 0 <= k < i implies has_row(
                rows@,
                (#[trigger] sorted@[k]).time as int,
            ) by {
                if k < start {
                    lemma_has_row_push(rows0, row, sorted@[k].time as int);
                }
            }
            assert forall|a: int, b: int| 0 <= a < b < rows@.len() implies (#[trigger] rows@[a]).time
                < (#[trigger] rows@[b]).time by {
                if b < rows0.len() {
                    assert(rows@[a] == rows0[a] && rows@[b] == rows0[b]);
                } else {
                    assert(rows@[a] == rows0[a]);
                }
            }
            assert forall|a: int| 0 <= a < rows@.len() && i < n implies (#[trigger] rows@[a]).time
                < sorted@[i as int].time by {
                if a < rows0.len() {
                    assert(rows@[a] == rows0[a]);
                }
            }
            assert forall|a: int| 0 <= a < rows@.len() implies at_time(
                sorted@,
                (#[trigger] rows@[a]).time as int,
            ).len() > 0 by {
                if a < rows0.len() {
                    assert(rows@[a] == rows0[a]);
                }
            }
            assert forall|a: int| 0 <= a < rows@.len() implies row_filled(
                #[trigger] rows@[a],
                sorted@,
                key_count as int,
            ) by {
                if a < rows0.len() {
                    assert(rows@[a] == rows0[a]);
                }
            }
        }
    }
    rows
}

} // verus!
