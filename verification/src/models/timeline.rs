//! Timelines: containers of time-stamped items that append cheaply and sort
//! lazily, and the timeline of tempo and scroll-velocity changes.

use vstd::prelude::*;
use crate::errors::ChartError;
use crate::models::common::TimingChangeType;
use crate::models::generic::timing_points::{TimingChange, TimingPoint, TimingPoints};
use crate::utils::rhythm::{beat_at, tempos_valid, TempoMap};
use crate::models::ordered::{
    at_time, insert_behind, insert_sorted, is_stable_sort_of, lemma_at_time_push,
    lemma_insert_at_upper_bound, lemma_insert_behind_keeps_order, same_order_per_time,
    stable_sort, times_sorted, upper_bound, Timed,
};

verus! {

/// A timing change on its way into a chart: `value` is a tempo in thousandths
/// of a beat per minute, or a scroll-velocity multiplier in thousandths.
#[derive(Debug, Clone, Copy, PartialEq, Eq, Structural)]
pub struct TimelineTimingPoint {
    pub time: i32,
    pub value: i64,
    pub change_type: TimingChangeType,
}

impl Timed for TimelineTimingPoint {
    open spec fn time_of(&self) -> int {
        self.time as int
    }

    fn time(&self) -> (t: i64) {
        self.time as i64
    }
}

/// What a timeline holds: its items in their current order, and whether it
/// vouches for that order being sorted.
pub ghost struct TimelineState<Item> {
    pub items: Seq<Item>,
    pub sorted: bool,
}

impl<Item: Timed> TimelineState<Item> {
    pub open spec fn fresh() -> Self {
        TimelineState { items: Seq::empty(), sorted: true }
    }

    /// A timeline that says it is sorted is sorted.
    pub open spec fn wf(self) -> bool {
        self.sorted ==> times_sorted(self.items)
    }

    /// After `add`: the item is appended; the flag falls when the item is
    /// earlier than the last one.
    pub open spec fn added(self, item: Item) -> Self {
        TimelineState {
            items: self.items.push(item),
            sorted: self.sorted && (self.items.len() == 0 || item.time_of()
                >= self.items.last().time_of()),
        }
    }

    /// After `add_sorted`: the item goes behind the last item whose time is at
    /// most its own, whatever the flag says, and the flag stays as it is. In a
    /// timeline that is in order this is the one place that keeps it in
    /// order with the item behind its ties.
    pub open spec fn added_sorted(self, item: Item) -> Self {
        TimelineState {
            items: self.items.insert(upper_bound(self.items, item.time_of()), item),
            sorted: self.sorted,
        }
    }
}

/// The operations of a timeline of `Item`s.
pub trait TimelineOps<Item: Timed + Copy>: Sized {
    spec fn state(&self) -> TimelineState<Item>;

    fn timeline(&self) -> (v: &Vec<Item>)
        ensures
            v@ == self.state().items,
    ;

    fn is_sorted(&self) -> (b: bool)
        ensures
            b == self.state().sorted,
    ;

    /// Overrides the flag. Claiming order is allowed only where it holds.
    fn set_sorted(&mut self, sorted: bool)
        requires
            sorted ==> times_sorted(old(self).state().items),
        ensures
            final(self).state() == (TimelineState { items: old(self).state().items, sorted }),
    ;

    fn item_time(item: &Item) -> (t: i32)
        ensures
            t == item.time_of(),
    ;

    fn with_capacity(capacity: usize) -> (s: Self)
        ensures
            s.state() == TimelineState::<Item>::fresh(),
    ;

    fn new() -> (s: Self)
        ensures
            s.state() == TimelineState::<Item>::fresh(),
    ;

    /// Appends in constant time.
    fn add(&mut self, timeline_object: Item)
        ensures
            final(self).state() == old(self).state().added(timeline_object),
            old(self).state().wf() ==> final(self).state().wf(),
    ;

    fn len(&self) -> (n: usize)
        ensures
            n == self.state().items.len(),
    ;

    fn is_empty(&self) -> (b: bool)
        ensures
            b == (self.state().items.len() == 0),
    ;

    fn reserve(&mut self, additional: usize)
        ensures
            final(self).state() == old(self).state(),
    ;

    /// Inserts the item in its place by time, behind the items it ties with.
    /// A timeline that is in order stays in order, whether or not its flag
    /// says so; the flag is not touched.
    fn add_sorted(&mut self, timeline_object: Item)
        requires
            old(self).state().wf(),
        ensures
            final(self).state() == old(self).state().added_sorted(timeline_object),
            final(self).state().wf(),
            times_sorted(old(self).state().items) ==> times_sorted(final(self).state().items),
            same_order_per_time(
                final(self).state().items,
                old(self).state().items.push(timeline_object),
            ),
    ;

    /// Sorts unless the timeline is known to be sorted. Ties keep their order.
    fn sort(&mut self)
        requires
            old(self).state().wf(),
        ensures
            final(self).state().sorted,
            is_stable_sort_of(final(self).state().items, old(self).state().items),
            old(self).state().sorted ==> final(self).state() == old(self).state(),
    ;
}

pub struct TimingPointTimeline {
    timeline: Vec<TimelineTimingPoint>,
    is_sorted: bool,
}

impl TimelineOps<TimelineTimingPoint> for TimingPointTimeline {
    closed spec fn state(&self) -> TimelineState<TimelineTimingPoint> {
        TimelineState { items: self.timeline@, sorted: self.is_sorted }
    }

    fn timeline(&self) -> (v: &Vec<TimelineTimingPoint>) {
        &self.timeline
    }

    fn is_sorted(&self) -> (b: bool) {
        self.is_sorted
    }

    fn set_sorted(&mut self, sorted: bool) {
        self.is_sorted = sorted;
    }

    fn item_time(item: &TimelineTimingPoint) -> (t: i32) {
        item.time
    }

    fn with_capacity(capacity: usize) -> (s: Self) {
        Self { timeline: Vec::with_capacity(capacity), is_sorted: true }
    }

    fn new() -> (s: Self) {
        Self { timeline: Vec::new(), is_sorted: true }
    }

    fn add(&mut self, timeline_object: TimelineTimingPoint) {
        let n = self.timeline.len();
        if self.is_sorted && n > 0 {
            self.is_sorted = timeline_object.time >= self.timeline[n - 1].time;
        }
        proof {
            if self.is_sorted && times_sorted(self.timeline@) {
                lemma_push_keeps_sorted(self.timeline@, timeline_object);
            }
        }
        self.timeline.push(timeline_object);
    }

    fn len(&self) -> (n: usize) {
        self.timeline.len()
    }

    fn is_empty(&self) -> (b: bool) {
        self.timeline.len() == 0
    }

    fn reserve(&mut self, additional: usize) {
        self.timeline.reserve(additional);
    }

    fn add_sorted(&mut self, timeline_object: TimelineTimingPoint) {
        proof {
            lemma_insert_behind_keeps_order(self.timeline@, timeline_object);
            if times_sorted(self.timeline@) {
                lemma_insert_at_upper_bound(self.timeline@, timeline_object);
            }
        }
        if self.is_sorted {
            insert_sorted(&mut self.timeline, timeline_object);
        } else {
            insert_behind(&mut self.timeline, timeline_object);
        }
    }

    fn sort(&mut self) {
        if !self.is_sorted {
            stable_sort(&mut self.timeline);
            self.is_sorted = true;
        }
    }
}

/// The tempo breakpoints `(time, bpm)` among `items`, in order.
pub open spec fn tempo_pairs(items: Seq<TimelineTimingPoint>) -> Seq<(i32, i64)>
    decreases items.len(),
{
    if items.len() == 0 {
        Seq::empty()
    } else if items.last().change_type == TimingChangeType::Bpm {
        tempo_pairs(items.drop_last()).push((items.last().time, items.last().value))
    } else {
        tempo_pairs(items.drop_last())
    }
}

/// The timing point that `p` becomes in a chart whose tempo breakpoints are
/// `bps`, whose stops `(time, duration)` are `stops`, and whose beat position
/// 0 lies at `offset`: through a stop time advances and the beat does not.
pub open spec fn stamped_through(
    p: TimelineTimingPoint,
    bps: Seq<(i32, i64)>,
    stops: Seq<(i32, i64)>,
    offset: int,
) -> TimingPoint {
    TimingPoint {
        time: p.time,
        beat: beat_at(bps, stops, offset, p.time as int) as i64,
        change: TimingChange { change_type: p.change_type, value: p.value },
    }
}

/// The timing point that `p` becomes in a chart without stops whose tempo
/// breakpoints are `bps` and whose beat position 0 lies at `offset`.
pub open spec fn stamped(p: TimelineTimingPoint, bps: Seq<(i32, i64)>, offset: int) -> TimingPoint {
    stamped_through(p, bps, Seq::empty(), offset)
}

impl TimingPointTimeline {
    /// The tempo map of the tempo changes of the timeline and of the stops
    /// `(time, duration)` given, with beat position 0 at `offset`.
    pub fn tempo_map_with_stops(&self, stops: &Vec<(i32, i64)>, offset: i32) -> (r: Result<
        TempoMap,
        ChartError,
    >)
        requires
            self.state().sorted,
        ensures
            r is Ok <==> tempos_valid(tempo_pairs(self.state().items)),
            r is Err ==> r->Err_0 == ChartError::InvalidTempo,
            r is Ok ==> r->Ok_0.breakpoints() == tempo_pairs(self.state().items)
                && r->Ok_0.stops() == stops@ && r->Ok_0.offset() == offset,
    {
        let n = self.timeline.len();
        let mut pairs: Vec<(i32, i64)> = Vec::new();
        let mut i: usize = 0;
        while i < n
            invariant
                i <= n,
                n == self.timeline@.len(),
                pairs@ == tempo_pairs(self.timeline@.subrange(0, i as int)),
            decreases n - i,
        {
            assert(self.timeline@.subrange(0, i + 1).drop_last() =~= self.timeline@.subrange(
                0,
                i as int,
            ));
            let p = self.timeline[i];
            match p.change_type {
                TimingChangeType::Bpm => {
                    pairs.push((p.time, p.value));
                },
                _ => {},
            }
            i += 1;
        }
        assert(self.timeline@.subrange(0, i as int) =~= self.timeline@);
        TempoMap::new(&pairs, stops, offset)
    }

    /// The tempo map of the tempo changes of the timeline, without stops,
    /// with beat position 0 at `offset`.
    pub fn tempo_map(&self, offset: i32) -> (r: Result<TempoMap, ChartError>)
        requires
            self.state().sorted,
        ensures
            r is Ok <==> tempos_valid(tempo_pairs(self.state().items)),
            r is Err ==> r->Err_0 == ChartError::InvalidTempo,
            r is Ok ==> r->Ok_0.breakpoints() == tempo_pairs(self.state().items)
                && r->Ok_0.stops() == Seq::<(i32, i64)>::empty() && r->Ok_0.offset() == offset,
    {
        let no_stops: Vec<(i32, i64)> = Vec::new();
        let r = self.tempo_map_with_stops(&no_stops, offset);
        proof {
            if r is Ok {
                assert(r->Ok_0.stops() =~= Seq::<(i32, i64)>::empty());
            }
        }
        r
    }

    /// The time of the first item, or 0 for an empty timeline.
    pub fn first_time(&self) -> (t: i32)
        ensures
            t == if self.state().items.len() == 0 {
                0
            } else {
                self.state().items[0].time
            },
    {
        if self.timeline.len() == 0 {
            0
        } else {
            self.timeline[0].time
        }
    }

    /// The item at `index`, if there is one.
    pub fn get(&self, index: usize) -> (p: Option<TimelineTimingPoint>)
        ensures
            p == if index < self.state().items.len() {
                Some(self.state().items[index as int])
            } else {
                None
            },
    {
        if index < self.timeline.len() {
            Some(self.timeline[index])
        } else {
            None
        }
    }

    /// Sorts the timeline and appends its points to `timing_points`, each
    /// with the beat position that the tempo changes of the timeline and the
    /// stops `(time, duration)` give its time when position 0 lies at
    /// `offset`. With a tempo change that no tempo map accepts, nothing is
    /// appended.
    pub fn to_timing_points_with_stops(
        &mut self,
        timing_points: &mut TimingPoints,
        stops: &Vec<(i32, i64)>,
        offset: i32,
    ) -> (r: Result<(), ChartError>)
        requires
            old(self).state().wf(),
        ensures
            final(self).state().sorted,
            is_stable_sort_of(final(self).state().items, old(self).state().items),
            old(self).state().sorted ==> final(self).state() == old(self).state(),
            r is Ok <==> tempos_valid(tempo_pairs(final(self).state().items)),
            r is Err ==> r->Err_0 == ChartError::InvalidTempo && final(timing_points).points@
                == old(timing_points).points@,
            r is Ok ==> final(timing_points).points@ == old(timing_points).points@
                + final(self).state().items.map_values(
                |p: TimelineTimingPoint|
                    stamped_through(
                        p,
                        tempo_pairs(final(self).state().items),
                        stops@,
                        offset as int,
                    ),
            ),
    {
        self.sort();
        let n = self.timeline.len();
        let map = match self.tempo_map_with_stops(stops, offset) {
            Ok(map) => map,
            Err(_) => {
                return Err(ChartError::InvalidTempo);
            },
        };
        let ghost bps = tempo_pairs(self.timeline@);
        let ghost sts = stops@;
        let ghost items = self.timeline@;
        let ghost before = timing_points.points@;
        let mut k: usize = 0;
        while k < n
            invariant
                k <= n,
                n == self.timeline@.len(),
                items == self.timeline@,
                map.breakpoints() == bps,
                map.stops() == sts,
                map.offset() == offset,
                timing_points.points@ == before + items.subrange(0, k as int).map_values(
                    |p: TimelineTimingPoint| stamped_through(p, bps, sts, offset as int),
                ),
            decreases n - k,
        {
            let p = self.timeline[k];
            let beat = map.beat_from_time(p.time);
            timing_points.add(
                p.time,
                beat,
                TimingChange { change_type: p.change_type, value: p.value },
            );
            k += 1;
            assert(timing_points.points@ =~= before + items.subrange(0, k as int).map_values(
                |p: TimelineTimingPoint| stamped_through(p, bps, sts, offset as int),
            ));
        }
        assert(items.subrange(0, k as int) =~= items);
        Ok(())
    }

    /// Sorts the timeline and appends its points to `timing_points`, each
    /// with the beat position that the tempo changes of the timeline give its
    /// time when position 0 lies at `offset` and nothing stops. With a tempo
    /// change that no tempo map accepts, nothing is appended.
    pub fn to_timing_points(&mut self, timing_points: &mut TimingPoints, offset: i32) -> (r: Result<
        (),
        ChartError,
    >)
        requires
            old(self).state().wf(),
        ensures
            final(self).state().sorted,
            is_stable_sort_of(final(self).state().items, old(self).state().items),
            old(self).state().sorted ==> final(self).state() == old(self).state(),
            r is Ok <==> tempos_valid(tempo_pairs(final(self).state().items)),
            r is Err ==> r->Err_0 == ChartError::InvalidTempo && final(timing_points).points@
                == old(timing_points).points@,
            r is Ok ==> final(timing_points).points@ == old(timing_points).points@
                + final(self).state().items.map_values(
                |p: TimelineTimingPoint| stamped(p, tempo_pairs(final(self).state().items), offset as int),
            ),
    {
        let no_stops: Vec<(i32, i64)> = Vec::new();
        let ghost before = timing_points.points@;
        let r = self.to_timing_points_with_stops(timing_points, &no_stops, offset);
        proof {
            if r is Ok {
                let items = self.state().items;
                let bps = tempo_pairs(items);
                assert(no_stops@ =~= Seq::<(i32, i64)>::empty());
                assert(items.map_values(
                    |p: TimelineTimingPoint| stamped_through(p, bps, no_stops@, offset as int),
                ) =~= items.map_values(|p: TimelineTimingPoint| stamped(p, bps, offset as int)));
            }
        }
        r
    }
}

/// Appending an item that is not earlier than the last keeps the order.
pub proof fn lemma_push_keeps_sorted<T: Timed>(s: Seq<T>, x: T)
    requires
        times_sorted(s),
        s.len() == 0 || x.time_of() >= s.last().time_of(),
    ensures
        times_sorted(s.push(x)),
{
    let r = s.push(x);
    assert forall|i: int, j: int| 0 <= i <= j < r.len() implies (#[trigger] r[i]).time_of()
        <= (#[trigger] r[j]).time_of() by {
        if j < s.len() {
            assert(r[i] == s[i] && r[j] == s[j]);
        } else if i < s.len() {
            assert(r[i] == s[i]);
            assert(s[i].time_of() <= s[s.len() - 1].time_of());
        }
    }
}

/// One call that puts an item into a timeline.
pub ghost enum TimelineCall<Item> {
    Add(Item),
    AddSorted(Item),
}

impl<Item> TimelineCall<Item> {
    pub open spec fn item(self) -> Item {
        match self {
            TimelineCall::Add(x) => x,
            TimelineCall::AddSorted(x) => x,
        }
    }
}

/// The timeline that a fresh one becomes under `calls`, made in that order.
pub open spec fn replay<Item: Timed>(calls: Seq<TimelineCall<Item>>) -> TimelineState<Item>
    decreases calls.len(),
{
    if calls.len() == 0 {
        TimelineState::fresh()
    } else {
        let before = replay(calls.drop_last());
        match calls.last() {
            TimelineCall::Add(x) => before.added(x),
            TimelineCall::AddSorted(x) => before.added_sorted(x),
        }
    }
}

/// The items that `calls` put in, in the order of the calls.
pub open spec fn inserted<Item>(calls: Seq<TimelineCall<Item>>) -> Seq<Item> {
    calls.map_values(|c: TimelineCall<Item>| c.item())
}

/// Whatever mix of `add` and `add_sorted` filled a timeline, it is well
/// formed, and items of equal time stand in the order in which they came.
pub proof fn lemma_replay_keeps_arrival_order<Item: Timed>(calls: Seq<TimelineCall<Item>>)
    ensures
        replay(calls).wf(),
        same_order_per_time(replay(calls).items, inserted(calls)),
    decreases calls.len(),
{
    if calls.len() == 0 {
        assert(inserted(calls) =~= replay(calls).items);
    } else {
        let rest = calls.drop_last();
        let x = calls.last().item();
        lemma_replay_keeps_arrival_order(rest);
        let before = replay(rest);
        let after = replay(calls);
        assert(inserted(calls) =~= inserted(rest).push(x));
        if calls.last() is AddSorted {
            lemma_insert_behind_keeps_order(before.items, x);
            if before.sorted {
                lemma_insert_at_upper_bound(before.items, x);
            }
        } else if before.sorted && (before.items.len() == 0 || x.time_of()
            >= before.items.last().time_of()) {
            lemma_push_keeps_sorted(before.items, x);
        }
        assert forall|t: int| #[trigger]
            at_time(after.items, t) == at_time(inserted(calls), t) by {
            lemma_at_time_push(before.items, x, t);
            lemma_at_time_push(inserted(rest), x, t);
            assert(at_time(before.items, t) == at_time(inserted(rest), t));
            assert(at_time(after.items, t) == at_time(before.items.push(x), t));
        }
    }
}

/// The sorted-timeline law: after any sequence of `add` and `add_sorted` calls
/// on a fresh timeline, what `sort` leaves is in non-decreasing time order,
/// holds exactly the items put in, and keeps items of equal time in the order
/// in which they were put in.
pub proof fn lemma_sort_after_any_calls<Item: Timed>(
    calls: Seq<TimelineCall<Item>>,
    sorted: Seq<Item>,
)
    requires
        is_stable_sort_of(sorted, replay(calls).items),
    ensures
        is_stable_sort_of(sorted, inserted(calls)),
{
    lemma_replay_keeps_arrival_order(calls);
    assert forall|t: int| #[trigger] at_time(sorted, t) == at_time(inserted(calls), t) by {
        assert(at_time(sorted, t) == at_time(replay(calls).items, t));
        assert(at_time(replay(calls).items, t) == at_time(inserted(calls), t));
    }
}

} // verus!
