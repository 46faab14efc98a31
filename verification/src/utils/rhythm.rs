//! The tempo map: the one source of truth between time and beat position.
//!
//! Time is counted in whole milliseconds and tempo in thousandths of a beat
//! per minute. A beat position is counted in ticks, `TICKS_PER_BEAT` to the
//! beat: one millisecond at a tempo of `b` thousandths advances the position
//! by exactly `b` ticks, so positions are exact integers. While a stop lasts
//! the position does not advance at all.

use vstd::prelude::*;
use crate::errors::ChartError;

verus! {

/// The ticks in one beat: 60 000 milliseconds to the minute, times the 1000
/// that scales a tempo.
pub const TICKS_PER_BEAT: i64 = 60_000_000;

/// The largest tempo a map accepts, in thousandths of a beat per minute.
pub const MAX_BPM: i64 = 1_000_000_000;

/// The tempo of a map without any tempo breakpoint.
pub const DEFAULT_BPM: i64 = 0;

/// Time `t` falls into the window of some stop `(start, duration)`: at or
/// after its start and before its end.
pub open spec fn in_stop(stops: Seq<(i32, i64)>, t: int) -> bool {
    exists|j: int| 0 <= j < stops.len() && (#[trigger] stops[j]).0 <= t < stops[j].0 + stops[j].1
}

/// The tempo in effect at time `t`: that of the last breakpoint `(time, bpm)`
/// at or before `t`; before all of them that of the first; `DEFAULT_BPM`
/// where there is none.
pub open spec fn tempo_at(bps: Seq<(i32, i64)>, t: int) -> int
    decreases bps.len(),
{
    if bps.len() == 0 {
        DEFAULT_BPM as int
    } else if bps.len() == 1 || bps.last().0 <= t {
        bps.last().1 as int
    } else {
        tempo_at(bps.drop_last(), t)
    }
}

/// The ticks by which the beat position advances during the millisecond that
/// begins at `t`.
pub open spec fn rate_at(bps: Seq<(i32, i64)>, stops: Seq<(i32, i64)>, t: int) -> int {
    if in_stop(stops, t) {
        0
    } else {
        tempo_at(bps, t)
    }
}

/// The ticks by which the beat position advances from time `from` to time
/// `to`; 0 unless `from < to`.
pub open spec fn ticks(bps: Seq<(i32, i64)>, stops: Seq<(i32, i64)>, from: int, to: int) -> int
    decreases to - from,
{
    if to <= from {
        0
    } else {
        ticks(bps, stops, from, to - 1) + rate_at(bps, stops, to - 1)
    }
}

/// The beat position at time `t`, in ticks, of a map whose position 0 lies at
/// time `offset`.
pub open spec fn beat_at(
    bps: Seq<(i32, i64)>,
    stops: Seq<(i32, i64)>,
    offset: int,
    t: int,
) -> int {
    if t >= offset {
        ticks(bps, stops, offset, t)
    } else {
        -ticks(bps, stops, t, offset)
    }
}

/// The breakpoints a map accepts: every tempo strictly positive and at most
/// `MAX_BPM`, and the times in ascending order.
pub open spec fn tempos_valid(bps: Seq<(i32, i64)>) -> bool {
    &&& forall|i: int| 0 <= i < bps.len() ==> 0 < (#[trigger] bps[i]).1 <= MAX_BPM
    &&& forall|i: int, j: int|
        0 <= i <= j < bps.len() ==> (#[trigger] bps[i]).0 <= (#[trigger] bps[j]).0
}

pub proof fn lemma_tempo_range(bps: Seq<(i32, i64)>, t: int)
    requires
        tempos_valid(bps),
    ensures
        0 <= tempo_at(bps, t) <= MAX_BPM,
        bps.len() > 0 ==> tempo_at(bps, t) > 0,
    decreases bps.len(),
{
    if bps.len() > 1 && bps.last().0 > t {
        let d = bps.drop_last();
        assert forall|i: int| 0 <= i < d.len() implies 0 < (#[trigger] d[i]).1 <= MAX_BPM by {
            assert(d[i] == bps[i]);
        }
        assert forall|i: int, j: int| 0 <= i <= j < d.len() implies (#[trigger] d[i]).0 <= (
        #[trigger] d[j]).0 by {
            assert(d[i] == bps[i] && d[j] == bps[j]);
        }
        lemma_tempo_range(d, t);
    } else if bps.len() > 0 {
        assert(0 < bps[bps.len() - 1].1 <= MAX_BPM);
    }
}

pub proof fn lemma_rate_range(bps: Seq<(i32, i64)>, stops: Seq<(i32, i64)>, t: int)
    requires
        tempos_valid(bps),
    ensures
        0 <= rate_at(bps, stops, t) <= MAX_BPM,
{
    lemma_tempo_range(bps, t);
}

/// Ticks add up over adjoining spans.
pub proof fn lemma_ticks_split(
    bps: Seq<(i32, i64)>,
    stops: Seq<(i32, i64)>,
    from: int,
    mid: int,
    to: int,
)
    requires
        from <= mid <= to,
    ensures
        ticks(bps, stops, from, to) == ticks(bps, stops, from, mid) + ticks(bps, stops, mid, to),
    decreases to - mid,
{
    if mid < to {
        lemma_ticks_split(bps, stops, from, mid, to - 1);
    }
}

/// Over a span of constant rate the ticks are the length times the rate.
pub proof fn lemma_ticks_const(
    bps: Seq<(i32, i64)>,
    stops: Seq<(i32, i64)>,
    from: int,
    to: int,
    r: int,
)
    requires
        from <= to,
        forall|x: int| from <= x < to ==> #[trigger] rate_at(bps, stops, x) == r,
    ensures
        ticks(bps, stops, from, to) == (to - from) * r,
    decreases to - from,
{
    if from < to {
        lemma_ticks_const(bps, stops, from, to - 1, r);
        assert(rate_at(bps, stops, to - 1) == r);
        assert((to - 1 - from) * r + r == (to - from) * r) by (nonlinear_arith);
    } else {
        assert((to - from) * r == 0) by (nonlinear_arith)
            requires
                to == from,
        ;
    }
}

/// The beat position never runs backwards, and never faster than `MAX_BPM`.
pub proof fn lemma_ticks_range(bps: Seq<(i32, i64)>, stops: Seq<(i32, i64)>, from: int, to: int)
    requires
        tempos_valid(bps),
        from <= to,
    ensures
        0 <= ticks(bps, stops, from, to) <= (to - from) * MAX_BPM,
    decreases to - from,
{
    if from < to {
        lemma_ticks_range(bps, stops, from, to - 1);
        lemma_rate_range(bps, stops, to - 1);
        assert((to - 1 - from) * MAX_BPM + MAX_BPM == (to - from) * MAX_BPM) by (nonlinear_arith);
    }
}

/// What the beat position gains between two times.
pub proof fn lemma_beat_gain(
    bps: Seq<(i32, i64)>,
    stops: Seq<(i32, i64)>,
    offset: int,
    t1: int,
    t2: int,
)
    requires
        t1 <= t2,
    ensures
        beat_at(bps, stops, offset, t2) - beat_at(bps, stops, offset, t1) == ticks(
            bps,
            stops,
            t1,
            t2,
        ),
{
    if t1 >= offset {
        lemma_ticks_split(bps, stops, offset, t1, t2);
    } else if t2 >= offset {
        lemma_ticks_split(bps, stops, t1, offset, t2);
    } else {
        lemma_ticks_split(bps, stops, t1, t2, offset);
    }
}

/// A time at which the rate may change: the time of a breakpoint, the start
/// of a stop, or the end of a stop that lasts.
#[verifier::opaque]
pub open spec fn is_boundary(bps: Seq<(i32, i64)>, stops: Seq<(i32, i64)>, t: int) -> bool {
    ||| exists|i: int| 0 <= i < bps.len() && (#[trigger] bps[i]).0 == t
    ||| exists|j: int| 0 <= j < stops.len() && (#[trigger] stops[j]).0 == t
    ||| exists|j: int|
        0 <= j < stops.len() && (#[trigger] stops[j]).1 > 0 && stops[j].0 + stops[j].1 == t
}

proof fn lemma_tempo_const(bps: Seq<(i32, i64)>, stops: Seq<(i32, i64)>, a: int, t: int)
    requires
        a <= t,
        forall|x: int| a < x <= t ==> !#[trigger] is_boundary(bps, stops, x),
    ensures
        tempo_at(bps, t) == tempo_at(bps, a),
    decreases bps.len(),
{
    reveal(is_boundary);
    if bps.len() > 1 {
        let last = bps[bps.len() - 1];
        if last.0 <= t {
            if last.0 > a {
                assert(is_boundary(bps, stops, last.0 as int));
            }
        } else {
            let d = bps.drop_last();
            assert forall|x: int| a < x <= t implies !#[trigger] is_boundary(d, stops, x) by {
                if is_boundary(d, stops, x) {
                    if exists|i: int| 0 <= i < d.len() && (#[trigger] d[i]).0 == x {
                        let i = choose|i: int| 0 <= i < d.len() && (#[trigger] d[i]).0 == x;
                        assert(bps[i].0 == x);
                    }
                    assert(is_boundary(bps, stops, x));
                }
            }
            lemma_tempo_const(d, stops, a, t);
        }
    }
}

/// From one time on, the rate stays as it is until the next boundary.
pub proof fn lemma_rate_const(bps: Seq<(i32, i64)>, stops: Seq<(i32, i64)>, a: int, t: int)
    requires
        a <= t,
        forall|x: int| a < x <= t ==> !#[trigger] is_boundary(bps, stops, x),
    ensures
        rate_at(bps, stops, t) == rate_at(bps, stops, a),
{
    lemma_tempo_const(bps, stops, a, t);
    reveal(is_boundary);
    if in_stop(stops, a) {
        let j = choose|j: int|
            0 <= j < stops.len() && (#[trigger] stops[j]).0 <= a < stops[j].0 + stops[j].1;
        let e = stops[j].0 + stops[j].1;
        if e <= t {
            assert(is_boundary(bps, stops, e));
        }
        assert(stops[j].0 <= t < stops[j].0 + stops[j].1);
    }
    if in_stop(stops, t) {
        let j = choose|j: int|
            0 <= j < stops.len() && (#[trigger] stops[j]).0 <= t < stops[j].0 + stops[j].1;
        if stops[j].0 > a {
            assert(is_boundary(bps, stops, stops[j].0 as int));
        }
        assert(stops[j].0 <= a < stops[j].0 + stops[j].1);
    }
}

/// The tempo in effect at time `t`, found by walking back from the last
/// breakpoint.
fn tempo_lookup(bps: &Vec<(i32, i64)>, t: i64) -> (r: i64)
    ensures
        r == tempo_at(bps@, t as int),
{
    if bps.len() == 0 {
        return DEFAULT_BPM;
    }
    let mut i: usize = bps.len();
    assert(bps@.subrange(0, i as int) =~= bps@);
    while i > 1 && bps[i - 1].0 as i64 > t
        invariant
            1 <= i <= bps.len(),
            tempo_at(bps@, t as int) == tempo_at(bps@.subrange(0, i as int), t as int),
        decreases i,
    {
        assert(bps@.subrange(0, i as int).drop_last() =~= bps@.subrange(0, i - 1));
        i -= 1;
    }
    assert(bps@.subrange(0, i as int).last() == bps@[i - 1]);
    bps[i - 1].1
}

/// Whether time `t` falls into the window of a stop.
fn stop_lookup(stops: &Vec<(i32, i64)>, t: i64) -> (b: bool)
    requires
        -0x1_0000_0000 <= t <= 0x1_0000_0000,
    ensures
        b == in_stop(stops@, t as int),
{
    let mut j: usize = 0;
    while j < stops.len()
        invariant
            j <= stops.len(),
            -0x1_0000_0000 <= t <= 0x1_0000_0000,
            forall|k: int|
                0 <= k < j ==> !((#[trigger] stops@[k]).0 <= t < stops@[k].0 + stops@[k].1),
        decreases stops.len() - j,
    {
        let (start, duration) = stops[j];
        if start as i64 <= t && t - (start as i64) < duration {
            assert(stops@[j as int].0 <= t < stops@[j as int].0 + stops@[j as int].1);
            return true;
        }
        j += 1;
    }
    false
}

/// Strictly ascending.
pub open spec fn ascending(v: Seq<i64>) -> bool {
    forall|i: int, j: int| 0 <= i < j < v.len() ==> #[trigger] v[i] < #[trigger] v[j]
}

/// Puts `x` in its place in an ascending vector, unless it is there already.
fn add_boundary(v: &mut Vec<i64>, x: i64)
    requires
        ascending(old(v)@),
    ensures
        ascending(final(v)@),
        final(v)@.contains(x),
        forall|y: i64| old(v)@.contains(y) ==> final(v)@.contains(y),
        forall|y: i64| final(v)@.contains(y) ==> old(v)@.contains(y) || y == x,
{
    let ghost s = v@;
    let mut lo: usize = 0;
    let mut hi: usize = v.len();
    while lo < hi
        invariant
            lo <= hi <= v.len(),
            v@ == s,
            ascending(s),
            forall|i: int| 0 <= i < lo ==> #[trigger] s[i] < x,
            forall|i: int| hi <= i < s.len() ==> #[trigger] s[i] >= x,
        decreases hi - lo,
    {
        let mid = lo + (hi - lo) / 2;
        if v[mid] < x {
            assert forall|i: int| 0 <= i < mid + 1 implies #[trigger] s[i] < x by {
                if i < mid {
                    assert(s[i] < s[mid as int]);
                }
            }
            lo = mid + 1;
        } else {
            assert forall|i: int| mid <= i < s.len() implies #[trigger] s[i] >= x by {
                if i > mid {
                    assert(s[mid as int] < s[i]);
                }
            }
            hi = mid;
        }
    }
    if lo < v.len() && v[lo] == x {
        assert(s[lo as int] == x);
        return ;
    }
    v.insert(lo, x);
    proof {
        let r = v@;
        assert(r[lo as int] == x);
        assert forall|i: int, j: int| 0 <= i < j < r.len() implies #[trigger] r[i] < #[trigger] r[j] by {
            if i < lo {
                assert(r[i] == s[i]);
            } else if i > lo {
                assert(r[i] == s[i - 1]);
            }
            if j < lo {
                assert(r[j] == s[j]);
            } else if j > lo {
                assert(r[j] == s[j - 1]);
            }
        }
        assert forall|y: i64| s.contains(y) implies r.contains(y) by {
            let k = choose|k: int| 0 <= k < s.len() && s[k] == y;
            if k < lo {
                assert(r[k] == y);
            } else {
                assert(r[k + 1] == y);
            }
        }
        assert forall|y: i64| r.contains(y) implies s.contains(y) || y == x by {
            let k = choose|k: int| 0 <= k < r.len() && r[k] == y;
            if k < lo {
                assert(s[k] == y);
            } else if k > lo {
                assert(s[k - 1] == y);
            }
        }
    }
}

/// The earliest time, and one past the latest, that a map answers for.
pub open spec fn time_lo() -> int {
    -0x8000_0000
}

pub open spec fn time_hi() -> int {
    0x8000_0000
}

/// The tables of a map describe its breakpoints and stops: `starts` holds, in
/// ascending order, every time at which the rate may change; `rates[i]` is
/// the rate from `starts[i]` up to the next start; `lead` is the rate before
/// the first start; `cums[i]` is the beat position at `starts[i]`, counted
/// from the first start.
pub open spec fn tables_fit(
    bps: Seq<(i32, i64)>,
    stops: Seq<(i32, i64)>,
    starts: Seq<i64>,
    rates: Seq<i64>,
    cums: Seq<i64>,
    lead: i64,
) -> bool {
    &&& tempos_valid(bps)
    &&& starts.len() >= 1
    &&& rates.len() == starts.len()
    &&& cums.len() == starts.len()
    &&& ascending(starts)
    &&& forall|i: int| 0 <= i < starts.len() ==> time_lo() <= #[trigger] starts[i] <= time_hi()
    &&& forall|i: int| 0 <= i < rates.len() ==> 0 <= #[trigger] rates[i] <= MAX_BPM
    &&& 0 <= lead <= MAX_BPM
    &&& forall|x: int| x < starts[0] ==> #[trigger] rate_at(bps, stops, x) == lead
    &&& forall|i: int, x: int|
        0 <= i < starts.len() && starts[i] <= x < time_hi() && (i + 1 < starts.len() ==> x
            < starts[i + 1]) ==> #[trigger] rate_at(bps, stops, x) == #[trigger] rates[i]
    &&& forall|i: int|
        0 <= i < cums.len() ==> #[trigger] cums[i] == ticks(bps, stops, starts[0] as int, starts[i] as int)
}

/// The beat position at time `t`, counted from the first start of the tables.
fn position(
    bps: Ghost<Seq<(i32, i64)>>,
    stops: Ghost<Seq<(i32, i64)>>,
    starts: &Vec<i64>,
    rates: &Vec<i64>,
    cums: &Vec<i64>,
    lead: i64,
    t: i64,
) -> (p: i64)
    requires
        tables_fit(bps@, stops@, starts@, rates@, cums@, lead),
        time_lo() <= t <= time_hi(),
    ensures
        p == beat_at(bps@, stops@, starts@[0] as int, t as int),
        -(time_hi() - time_lo()) * MAX_BPM <= p <= (time_hi() - time_lo()) * MAX_BPM,
{
    let first = starts[0];
    if t < first {
        proof {
            lemma_ticks_const(bps@, stops@, t as int, first as int, lead as int);
            assert(0 <= (first - t) * lead <= (first - t) * MAX_BPM) by (nonlinear_arith)
                requires
                    0 <= lead <= MAX_BPM,
                    first - t > 0,
            ;
            assert((first - t) * MAX_BPM <= (time_hi() - time_lo()) * MAX_BPM) by (nonlinear_arith)
                requires
                    first - t <= time_hi() - time_lo(),
            ;
        }
        return -((first - t) * lead);
    }
    let i = segment_of(starts, t);
    proof {
        let a = starts@[i as int] as int;
        assert forall|x: int| a <= x < t implies #[trigger] rate_at(bps@, stops@, x)
            == rates@[i as int] by {
            assert(rate_at(bps@, stops@, x) == rates@[i as int]);
        }
        lemma_ticks_const(bps@, stops@, a, t as int, rates@[i as int] as int);
        lemma_ticks_split(bps@, stops@, first as int, a, t as int);
        lemma_ticks_range(bps@, stops@, first as int, a);
        lemma_ticks_range(bps@, stops@, first as int, t as int);
        assert(cums@[i as int] == ticks(bps@, stops@, first as int, a));
        assert((t - first) * MAX_BPM <= (time_hi() - time_lo()) * MAX_BPM) by (nonlinear_arith)
            requires
                t - first <= time_hi() - time_lo(),
        ;
        assert((a - first) * MAX_BPM <= (time_hi() - time_lo()) * MAX_BPM) by (nonlinear_arith)
            requires
                a - first <= time_hi() - time_lo(),
        ;
        assert(0 <= (t - a) * rates@[i as int] <= (t - a) * MAX_BPM) by (nonlinear_arith)
            requires
                0 <= rates@[i as int] <= MAX_BPM,
                t - a >= 0,
        ;
        assert((t - a) * MAX_BPM <= (time_hi() - time_lo()) * MAX_BPM) by (nonlinear_arith)
            requires
                t - a <= time_hi() - time_lo(),
        ;
    }
    cums[i] + (t - starts[i]) * rates[i]
}

/// The index of the last start at or before `t`, by binary search.
fn segment_of(starts: &Vec<i64>, t: i64) -> (i: usize)
    requires
        ascending(starts@),
        starts@.len() >= 1,
        starts@[0] <= t,
    ensures
        i < starts@.len(),
        starts@[i as int] <= t,
        i + 1 < starts@.len() ==> t < starts@[i + 1],
{
    let mut lo: usize = 0;
    let mut hi: usize = starts.len();
    while hi - lo > 1
        invariant
            lo < hi <= starts@.len(),
            ascending(starts@),
            starts@[lo as int] <= t,
            hi < starts@.len() ==> t < starts@[hi as int],
        decreases hi - lo,
    {
        let mid = lo + (hi - lo) / 2;
        if starts[mid] <= t {
            lo = mid;
        } else {
            hi = mid;
        }
    }
    lo
}

/// No boundary lies before the earliest time.
proof fn lemma_boundary_min(bps: Seq<(i32, i64)>, stops: Seq<(i32, i64)>, x: int)
    requires
        is_boundary(bps, stops, x),
    ensures
        time_lo() <= x,
{
    reveal(is_boundary);
}

/// `starts` holds every boundary up to `time_hi()`.
pub open spec fn covers(bps: Seq<(i32, i64)>, stops: Seq<(i32, i64)>, starts: Seq<i64>) -> bool {
    forall|x: int| #[trigger] is_boundary(bps, stops, x) && x <= time_hi() ==> starts.contains(x as i64)
}

/// Between one start and the next the rate does not change.
proof fn lemma_segment_const(
    bps: Seq<(i32, i64)>,
    stops: Seq<(i32, i64)>,
    starts: Seq<i64>,
    i: int,
    x: int,
)
    requires
        ascending(starts),
        covers(bps, stops, starts),
        0 <= i < starts.len(),
        starts[i] <= x < time_hi(),
        i + 1 < starts.len() ==> x < starts[i + 1],
    ensures
        rate_at(bps, stops, x) == rate_at(bps, stops, starts[i] as int),
{
    assert forall|y: int| starts[i] < y <= x implies !#[trigger] is_boundary(bps, stops, y) by {
        if is_boundary(bps, stops, y) {
            let k = choose|k: int| 0 <= k < starts.len() && starts[k] == y as i64;
            if k <= i {
                if k < i {
                    assert(starts[k] < starts[i]);
                }
            } else {
                if k > i + 1 {
                    assert(starts[i + 1] < starts[k]);
                }
            }
        }
    }
    lemma_rate_const(bps, stops, starts[i] as int, x);
}

/// Before the first start the rate does not change.
proof fn lemma_lead_const(bps: Seq<(i32, i64)>, stops: Seq<(i32, i64)>, starts: Seq<i64>, x: int)
    requires
        ascending(starts),
        covers(bps, stops, starts),
        starts.len() >= 1,
        starts[0] <= time_hi(),
        x < starts[0],
    ensures
        rate_at(bps, stops, x) == rate_at(bps, stops, starts[0] - 1),
{
    assert forall|y: int| x < y <= starts[0] - 1 implies !#[trigger] is_boundary(bps, stops, y) by {
        if is_boundary(bps, stops, y) {
            lemma_boundary_min(bps, stops, y);
            let k = choose|k: int| 0 <= k < starts.len() && starts[k] == y as i64;
            if k > 0 {
                assert(starts[0] < starts[k]);
            }
        }
    }
    lemma_rate_const(bps, stops, x, starts[0] - 1);
}

/// Checks the breakpoints of a map.
fn check_tempos(bps: &Vec<(i32, i64)>) -> (ok: bool)
    ensures
        ok == tempos_valid(bps@),
{
    let mut i: usize = 0;
    while i < bps.len()
        invariant
            i <= bps.len(),
            forall|k: int| 0 <= k < i ==> 0 < (#[trigger] bps@[k]).1 <= MAX_BPM,
            forall|a: int, b: int| 0 <= a <= b < i ==> (#[trigger] bps@[a]).0 <= (#[trigger] bps@[b]).0,
        decreases bps.len() - i,
    {
        let (time, bpm) = bps[i];
        if bpm <= 0 || bpm > MAX_BPM {
            assert(!(0 < bps@[i as int].1 <= MAX_BPM));
            return false;
        }
        if i > 0 && bps[i - 1].0 > time {
            assert(!(bps@[i - 1].0 <= bps@[i as int].0));
            return false;
        }
        proof {
            assert forall|a: int, b: int| 0 <= a <= b < i + 1 implies (#[trigger] bps@[a]).0 <= (
            #[trigger] bps@[b]).0 by {
                if b == i && a < i {
                    assert(bps@[a].0 <= bps@[i - 1].0);
                }
            }
        }
        i += 1;
    }
    true
}

/// All the times at which the rate of a map may change, and the time at
/// which its beat position is 0, in ascending order.
fn boundaries(bps: &Vec<(i32, i64)>, stops: &Vec<(i32, i64)>, offset: i32) -> (starts: Vec<i64>)
    ensures
        ascending(starts@),
        starts@.len() >= 1,
        covers(bps@, stops@, starts@),
        forall|i: int| 0 <= i < starts@.len() ==> time_lo() <= #[trigger] starts@[i] <= time_hi(),
{
    let mut starts: Vec<i64> = Vec::new();
    add_boundary(&mut starts, offset as i64);
    let mut i: usize = 0;
    while i < bps.len()
        invariant
            i <= bps.len(),
            ascending(starts@),
            starts@.contains(offset as i64),
            forall|y: i64| starts@.contains(y) ==> time_lo() <= y <= time_hi(),
            forall|k: int| 0 <= k < i ==> starts@.contains((#[trigger] bps@[k]).0 as i64),
        decreases bps.len() - i,
    {
        add_boundary(&mut starts, bps[i].0 as i64);
        i += 1;
    }
    let mut j: usize = 0;
    while j < stops.len()
        invariant
            j <= stops.len(),
            ascending(starts@),
            starts@.contains(offset as i64),
            forall|y: i64| starts@.contains(y) ==> time_lo() <= y <= time_hi(),
            forall|k: int| 0 <= k < bps@.len() ==> starts@.contains((#[trigger] bps@[k]).0 as i64),
            forall|k: int| 0 <= k < j ==> starts@.contains((#[trigger] stops@[k]).0 as i64),
            forall|k: int|
                0 <= k < j && (#[trigger] stops@[k]).1 > 0 && stops@[k].0 + stops@[k].1
                    <= time_hi() ==> starts@.contains((stops@[k].0 + stops@[k].1) as i64),
        decreases stops.len() - j,
    {
        let (start, duration) = stops[j];
        add_boundary(&mut starts, start as i64);
        if duration > 0 && duration <= 0x8000_0000 - (start as i64) {
            add_boundary(&mut starts, start as i64 + duration);
        }
        j += 1;
    }
    proof {
        reveal(is_boundary);
        let k = choose|k: int| 0 <= k < starts@.len() && starts@[k] == offset as i64;
        assert forall|i: int| 0 <= i < starts@.len() implies time_lo() <= #[trigger] starts@[i]
            <= time_hi() by {
            assert(starts@.contains(starts@[i]));
        }
    }
    starts
}

/// The beat position counted from `offset` is the one counted from `base`,
/// less what lies between the two.
pub proof fn lemma_rebase(
    bps: Seq<(i32, i64)>,
    stops: Seq<(i32, i64)>,
    base: int,
    offset: int,
    t: int,
)
    ensures
        beat_at(bps, stops, offset, t) == beat_at(bps, stops, base, t) - beat_at(
            bps,
            stops,
            base,
            offset,
        ),
{
    if offset <= t {
        lemma_beat_gain(bps, stops, base, offset, t);
    } else {
        lemma_beat_gain(bps, stops, base, t, offset);
    }
}

/// The beat position never decreases with time.
pub proof fn lemma_beat_monotone(
    bps: Seq<(i32, i64)>,
    stops: Seq<(i32, i64)>,
    offset: int,
    t1: int,
    t2: int,
)
    requires
        tempos_valid(bps),
        t1 <= t2,
    ensures
        beat_at(bps, stops, offset, t1) <= beat_at(bps, stops, offset, t2),
{
    lemma_beat_gain(bps, stops, offset, t1, t2);
    lemma_ticks_range(bps, stops, t1, t2);
}

/// The position at a time within segment `i`, or at its end.
proof fn lemma_position_in_segment(
    bps: Seq<(i32, i64)>,
    stops: Seq<(i32, i64)>,
    starts: Seq<i64>,
    rates: Seq<i64>,
    cums: Seq<i64>,
    lead: i64,
    i: int,
    x: int,
)
    requires
        tables_fit(bps, stops, starts, rates, cums, lead),
        0 <= i < starts.len(),
        starts[i] <= x <= time_hi(),
        i + 1 < starts.len() ==> x <= starts[i + 1],
    ensures
        beat_at(bps, stops, starts[0] as int, x) == cums[i] + (x - starts[i]) * rates[i],
{
    let a = starts[i] as int;
    assert(starts[0] <= starts[i]) by {
        if i > 0 {
            assert(starts[0] < starts[i]);
        }
    }
    assert forall|y: int| a <= y < x implies #[trigger] rate_at(bps, stops, y) == rates[i] by {
        assert(rate_at(bps, stops, y) == rates[i]);
    }
    lemma_ticks_const(bps, stops, a, x, rates[i] as int);
    lemma_ticks_split(bps, stops, starts[0] as int, a, x);
    assert(cums[i] == ticks(bps, stops, starts[0] as int, a));
}

/// The position at a time at or before the first start.
proof fn lemma_position_in_lead(
    bps: Seq<(i32, i64)>,
    stops: Seq<(i32, i64)>,
    starts: Seq<i64>,
    rates: Seq<i64>,
    cums: Seq<i64>,
    lead: i64,
    x: int,
)
    requires
        tables_fit(bps, stops, starts, rates, cums, lead),
        x <= starts[0],
    ensures
        beat_at(bps, stops, starts[0] as int, x) == -((starts[0] - x) * lead),
{
    lemma_ticks_const(bps, stops, x, starts[0] as int, lead as int);
}

/// The positions at the starts never decrease.
proof fn lemma_cums_monotone(
    bps: Seq<(i32, i64)>,
    stops: Seq<(i32, i64)>,
    starts: Seq<i64>,
    rates: Seq<i64>,
    cums: Seq<i64>,
    lead: i64,
)
    requires
        tables_fit(bps, stops, starts, rates, cums, lead),
    ensures
        cums[0] == 0,
        forall|a: int, b: int| 0 <= a <= b < cums.len() ==> #[trigger] cums[a] <= #[trigger] cums[b],
{
    assert(cums[0] == ticks(bps, stops, starts[0] as int, starts[0] as int));
    assert forall|a: int, b: int| 0 <= a <= b < cums.len() implies #[trigger] cums[a]
        <= #[trigger] cums[b] by {
        if a < b {
            assert(starts[a] < starts[b]);
            if a > 0 {
                assert(starts[0] < starts[a]);
            }
            lemma_ticks_split(bps, stops, starts[0] as int, starts[a] as int, starts[b] as int);
            lemma_ticks_range(bps, stops, starts[a] as int, starts[b] as int);
            assert(cums[a] == ticks(bps, stops, starts[0] as int, starts[a] as int));
            assert(cums[b] == ticks(bps, stops, starts[0] as int, starts[b] as int));
        }
    }
}

/// The index of the last start whose position is at most `target`, by binary
/// search.
fn segment_at_position(cums: &Vec<i64>, target: i128) -> (i: usize)
    requires
        cums@.len() >= 1,
        forall|a: int, b: int| 0 <= a <= b < cums@.len() ==> #[trigger] cums@[a] <= #[trigger] cums@[b],
        cums@[0] <= target,
    ensures
        i < cums@.len(),
        cums@[i as int] <= target,
        i + 1 < cums@.len() ==> target < cums@[i + 1],
{
    let mut lo: usize = 0;
    let mut hi: usize = cums.len();
    while hi - lo > 1
        invariant
            lo < hi <= cums@.len(),
            cums@[lo as int] <= target,
            hi < cums@.len() ==> target < cums@[hi as int],
        decreases hi - lo,
    {
        let mid = lo + (hi - lo) / 2;
        if cums[mid] as i128 <= target {
            lo = mid;
        } else {
            hi = mid;
        }
    }
    lo
}

/// A tempo map: built once from tempo breakpoints `(time, bpm)` and stops
/// `(time, duration)`, then only asked.
pub struct TempoMap {
    breakpoints: Vec<(i32, i64)>,
    stops: Vec<(i32, i64)>,
    offset: i32,
    starts: Vec<i64>,
    rates: Vec<i64>,
    cums: Vec<i64>,
    lead: i64,
    origin: i64,
}

fn copy_pairs(v: &Vec<(i32, i64)>) -> (c: Vec<(i32, i64)>)
    ensures
        c@ == v@,
{
    let mut c: Vec<(i32, i64)> = Vec::new();
    let mut i: usize = 0;
    while i < v.len()
        invariant
            i <= v.len(),
            c@ == v@.subrange(0, i as int),
        decreases v.len() - i,
    {
        c.push(v[i]);
        i += 1;
        assert(c@ =~= v@.subrange(0, i as int));
    }
    assert(v@.subrange(0, i as int) =~= v@);
    c
}

impl TempoMap {
    #[verifier::type_invariant]
    spec fn wf(&self) -> bool {
        &&& tables_fit(
            self.breakpoints@,
            self.stops@,
            self.starts@,
            self.rates@,
            self.cums@,
            self.lead,
        )
        &&& self.origin == beat_at(
            self.breakpoints@,
            self.stops@,
            self.starts@[0] as int,
            self.offset as int,
        )
        &&& -(time_hi() - time_lo()) * MAX_BPM <= self.origin <= (time_hi() - time_lo()) * MAX_BPM
    }

    /// The tempo breakpoints the map was built from.
    pub closed spec fn breakpoints(&self) -> Seq<(i32, i64)> {
        self.breakpoints@
    }

    /// The stops the map was built from.
    pub closed spec fn stops(&self) -> Seq<(i32, i64)> {
        self.stops@
    }

    /// The time at which the beat position is 0.
    pub closed spec fn offset(&self) -> int {
        self.offset as int
    }

    /// The beat position at time `t`, in ticks.
    pub open spec fn beat(&self, t: int) -> int {
        beat_at(self.breakpoints(), self.stops(), self.offset(), t)
    }

    /// Builds the map. Breakpoints are `(time, bpm)` with the tempo in
    /// thousandths of a beat per minute, stops are `(time, duration)` in
    /// milliseconds, and `start_offset` is the time of beat position 0. The
    /// breakpoints must be valid (see [`tempos_valid`]); stops may come in any
    /// order and may overlap, and a stop that does not last counts for
    /// nothing.
    pub fn new(breakpoints: &Vec<(i32, i64)>, stops: &Vec<(i32, i64)>, start_offset: i32) -> (r:
        Result<TempoMap, ChartError>)
        ensures
            r is Ok <==> tempos_valid(breakpoints@),
            r is Err ==> r->Err_0 == ChartError::InvalidTempo,
            r is Ok ==> r->Ok_0.breakpoints() == breakpoints@ && r->Ok_0.stops() == stops@
                && r->Ok_0.offset() == start_offset,
    {
        if !check_tempos(breakpoints) {
            return Err(ChartError::InvalidTempo);
        }
        let starts = boundaries(breakpoints, stops, start_offset);
        let n = starts.len();
        let ghost bps = breakpoints@;
        let ghost sts = stops@;
        let before = starts[0] - 1;
        let lead = if stop_lookup(stops, before) {
            0
        } else {
            tempo_lookup(breakpoints, before)
        };
        let mut rates: Vec<i64> = Vec::new();
        let mut i: usize = 0;
        while i < n
            invariant
                i <= n,
                n == starts@.len(),
                rates@.len() == i,
                forall|k: int| 0 <= k < n ==> time_lo() <= #[trigger] starts@[k] <= time_hi(),
                forall|k: int|
                    0 <= k < i ==> #[trigger] rates@[k] == rate_at(
                        breakpoints@,
                        stops@,
                        starts@[k] as int,
                    ),
            decreases n - i,
        {
            let t = starts[i];
            let rate = if stop_lookup(stops, t) {
                0
            } else {
                tempo_lookup(breakpoints, t)
            };
            rates.push(rate);
            i += 1;
        }
        proof {
            lemma_rate_range(bps, sts, before as int);
            assert forall|k: int| 0 <= k < rates@.len() implies 0 <= #[trigger] rates@[k]
                <= MAX_BPM by {
                lemma_rate_range(bps, sts, starts@[k] as int);
            }
            assert forall|x: int| x < starts@[0] implies #[trigger] rate_at(bps, sts, x) == lead by {
                lemma_lead_const(bps, sts, starts@, x);
            }
            assert forall|k: int, x: int|
                0 <= k < starts@.len() && starts@[k] <= x < time_hi() && (k + 1 < starts@.len()
                    ==> x < starts@[k + 1]) implies #[trigger] rate_at(bps, sts, x)
                == #[trigger] rates@[k] by {
                lemma_segment_const(bps, sts, starts@, k, x);
            }
        }
        let mut cums: Vec<i64> = Vec::new();
        cums.push(0);
        let mut k: usize = 1;
        while k < n
            invariant
                1 <= k <= n,
                n == starts@.len(),
                n == rates@.len(),
                cums@.len() == k,
                bps == breakpoints@,
                sts == stops@,
                tempos_valid(bps),
                ascending(starts@),
                forall|a: int| 0 <= a < n ==> time_lo() <= #[trigger] starts@[a] <= time_hi(),
                forall|a: int| 0 <= a < n ==> 0 <= #[trigger] rates@[a] <= MAX_BPM,
                forall|a: int, x: int|
                    0 <= a < starts@.len() && starts@[a] <= x < time_hi() && (a + 1
                        < starts@.len() ==> x < starts@[a + 1]) ==> #[trigger] rate_at(bps, sts, x)
                        == #[trigger] rates@[a],
                forall|a: int|
                    0 <= a < k ==> #[trigger] cums@[a] == ticks(
                        bps,
                        sts,
                        starts@[0] as int,
                        starts@[a] as int,
                    ),
            decreases n - k,
        {
            let a = starts[k - 1];
            let b = starts[k];
            let rate = rates[k - 1];
            proof {
                assert(starts@[k - 1] < starts@[k as int]);
                assert(starts@[0] <= starts@[k - 1]) by {
                    if k > 1 {
                        assert(starts@[0] < starts@[k - 1]);
                    }
                }
                assert forall|x: int| a <= x < b implies #[trigger] rate_at(bps, sts, x)
                    == rate by {
                    assert(rate_at(bps, sts, x) == rates@[k - 1]);
                }
                lemma_ticks_const(bps, sts, a as int, b as int, rate as int);
                lemma_ticks_split(bps, sts, starts@[0] as int, a as int, b as int);
                lemma_ticks_range(bps, sts, starts@[0] as int, a as int);
                lemma_ticks_range(bps, sts, starts@[0] as int, b as int);
                assert((b - starts@[0]) * MAX_BPM <= (time_hi() - time_lo()) * MAX_BPM)
                    by (nonlinear_arith)
                    requires
                        b - starts@[0] <= time_hi() - time_lo(),
                ;
                assert(0 <= (b - a) * rate <= (b - a) * MAX_BPM) by (nonlinear_arith)
                    requires
                        0 <= rate <= MAX_BPM,
                        b - a > 0,
                ;
                assert((b - a) * MAX_BPM <= (time_hi() - time_lo()) * MAX_BPM) by (nonlinear_arith)
                    requires
                        b - a <= time_hi() - time_lo(),
                ;
            }
            let c = cums[k - 1] + (b - a) * rate;
            cums.push(c);
            k += 1;
        }
        let origin = position(
            Ghost(bps),
            Ghost(sts),
            &starts,
            &rates,
            &cums,
            lead,
            start_offset as i64,
        );
        Ok(
            TempoMap {
                breakpoints: copy_pairs(breakpoints),
                stops: copy_pairs(stops),
                offset: start_offset,
                starts,
                rates,
                cums,
                lead,
                origin,
            },
        )
    }

    /// The beat position at time `t`, in ticks.
    pub fn beat_from_time(&self, t: i32) -> (b: i64)
        ensures
            b == self.beat(t as int),
    {
        proof {
            use_type_invariant(self);
            let base = self.starts@[0] as int;
            if self.offset <= t {
                lemma_beat_gain(self.breakpoints@, self.stops@, base, self.offset as int, t as int);
            } else {
                lemma_beat_gain(self.breakpoints@, self.stops@, base, t as int, self.offset as int);
            }
        }
        let p = position(
            Ghost(self.breakpoints@),
            Ghost(self.stops@),
            &self.starts,
            &self.rates,
            &self.cums,
            self.lead,
            t as i64,
        );
        p - self.origin
    }

    /// The time that the beat position `beat` belongs to: the last time at
    /// which the position is at most `beat`. When `beat` falls on a stop this
    /// is the end of the stop. `None` where no time that an `i32` can hold is
    /// that time, and so for every position in a map without tempo.
    pub fn time_from_beat(&self, beat: i64) -> (r: Option<i32>)
        ensures
            match r {
                Some(t) => self.beat(t as int) <= beat < self.beat(t + 1),
                None => forall|t: int|
                    i32::MIN <= t <= i32::MAX ==> !(#[trigger] self.beat(t) <= beat < self.beat(
                        t + 1,
                    )),
            },
    {
        proof {
            use_type_invariant(self);
        }
        let ghost bps = self.breakpoints@;
        let ghost sts = self.stops@;
        let ghost base = self.starts@[0] as int;
        let ghost off = self.offset as int;
        let target: i128 = beat as i128 + self.origin as i128;
        proof {
            lemma_cums_monotone(bps, sts, self.starts@, self.rates@, self.cums@, self.lead);
            assert forall|x: int| #[trigger] self.beat(x) == beat_at(bps, sts, base, x) - self.origin by {
                lemma_rebase(bps, sts, base, off, x);
            }
        }
        if target < 0 {
            let lead = self.lead as i128;
            if lead == 0 {
                proof {
                    assert forall|t: int| i32::MIN <= t <= i32::MAX implies !(#[trigger] self.beat(t)
                        <= beat < self.beat(t + 1)) by {
                        if t <= base {
                            lemma_position_in_lead(
                                bps,
                                sts,
                                self.starts@,
                                self.rates@,
                                self.cums@,
                                self.lead,
                                t,
                            );
                            assert((base - t) * self.lead == 0) by (nonlinear_arith)
                                requires
                                    self.lead == 0,
                            ;
                        } else {
                            lemma_ticks_range(bps, sts, base, t);
                        }
                    }
                }
                return None;
            }
            let n: i128 = -target;
            let q: i128 = (n + lead - 1) / lead;
            let first = self.starts[0] as i128;
            let time: i128 = first - q;
            proof {
                assert((q - 1) * lead < n <= q * lead) by (nonlinear_arith)
                    requires
                        q == (n + lead - 1) / (lead as int),
                        lead > 0,
                        n > 0,
                ;
                assert(q >= 1) by (nonlinear_arith)
                    requires
                        n <= q * lead,
                        lead > 0,
                        n > 0,
                ;
            }
            if time < i32::MIN as i128 {
                proof {
                    let lo = time_lo();
                    lemma_position_in_lead(
                        bps,
                        sts,
                        self.starts@,
                        self.rates@,
                        self.cums@,
                        self.lead,
                        lo,
                    );
                    assert((base - lo) * lead <= (q - 1) * lead) by (nonlinear_arith)
                        requires
                            base - lo <= q - 1,
                            lead > 0,
                    ;
                    assert forall|t: int| i32::MIN <= t <= i32::MAX implies !(#[trigger] self.beat(t)
                        <= beat < self.beat(t + 1)) by {
                        lemma_beat_monotone(bps, sts, base, lo, t);
                    }
                }
                return None;
            }
            proof {
                lemma_position_in_lead(
                    bps,
                    sts,
                    self.starts@,
                    self.rates@,
                    self.cums@,
                    self.lead,
                    time as int,
                );
                lemma_position_in_lead(
                    bps,
                    sts,
                    self.starts@,
                    self.rates@,
                    self.cums@,
                    self.lead,
                    time + 1,
                );
            }
            return Some(time as i32);
        }
        let i = segment_at_position(&self.cums, target);
        let rate = self.rates[i] as i128;
        let start = self.starts[i] as i128;
        let cum = self.cums[i] as i128;
        proof {
            if i + 1 < self.starts@.len() {
                assert(self.starts@[i as int] < self.starts@[i + 1]);
                lemma_position_in_segment(
                    bps,
                    sts,
                    self.starts@,
                    self.rates@,
                    self.cums@,
                    self.lead,
                    i as int,
                    self.starts@[i + 1] as int,
                );
                lemma_position_in_segment(
                    bps,
                    sts,
                    self.starts@,
                    self.rates@,
                    self.cums@,
                    self.lead,
                    i + 1,
                    self.starts@[i + 1] as int,
                );
                assert((self.starts@[i + 1] - self.starts@[i + 1]) * self.rates@[i + 1] == 0)
                    by (nonlinear_arith);
            }
        }
        if rate == 0 {
            proof {
                if i + 1 < self.starts@.len() {
                    assert((self.starts@[i + 1] - start) * rate == 0) by (nonlinear_arith)
                        requires
                            rate == 0,
                    ;
                }
                let hi = time_hi();
                lemma_position_in_segment(
                    bps,
                    sts,
                    self.starts@,
                    self.rates@,
                    self.cums@,
                    self.lead,
                    i as int,
                    hi,
                );
                assert((hi - start) * rate == 0) by (nonlinear_arith)
                    requires
                        rate == 0,
                ;
                assert forall|t: int| i32::MIN <= t <= i32::MAX implies !(#[trigger] self.beat(t)
                    <= beat < self.beat(t + 1)) by {
                    lemma_beat_monotone(bps, sts, base, t + 1, hi);
                }
            }
            return None;
        }
        let rest: i128 = target - cum;
        let q: i128 = rest / rate;
        let time: i128 = start + q;
        proof {
            assert(q * rate <= rest < (q + 1) * rate && q >= 0) by (nonlinear_arith)
                requires
                    q == rest / rate,
                    rate > 0,
                    rest >= 0,
            ;
            if i + 1 < self.starts@.len() {
                let gap = self.starts@[i + 1] - start;
                assert(q < gap) by (nonlinear_arith)
                    requires
                        q * rate <= rest,
                        rest < gap * rate,
                        rate > 0,
                ;
            }
        }
        if time > i32::MAX as i128 {
            proof {
                let hi = time_hi();
                lemma_position_in_segment(
                    bps,
                    sts,
                    self.starts@,
                    self.rates@,
                    self.cums@,
                    self.lead,
                    i as int,
                    hi,
                );
                assert((hi - start) * rate <= q * rate) by (nonlinear_arith)
                    requires
                        hi - start <= q,
                        rate > 0,
                ;
                assert forall|t: int| i32::MIN <= t <= i32::MAX implies !(#[trigger] self.beat(t)
                    <= beat < self.beat(t + 1)) by {
                    lemma_beat_monotone(bps, sts, base, t + 1, hi);
                }
            }
            return None;
        }
        proof {
            lemma_position_in_segment(
                bps,
                sts,
                self.starts@,
                self.rates@,
                self.cums@,
                self.lead,
                i as int,
                time as int,
            );
            lemma_position_in_segment(
                bps,
                sts,
                self.starts@,
                self.rates@,
                self.cums@,
                self.lead,
                i as int,
                time + 1,
            );
            assert((time + 1 - start) * rate == (q + 1) * rate);
            assert((time - start) * rate == q * rate);
        }
        Some(time as i32)
    }
}

/// The round-trip law: at a time at which the beat position advances, going
/// to the beat position and back gives the same time again. (`back` stands
/// for what `time_from_beat` returns for the position at `t`.)
pub proof fn lemma_time_beat_round_trip(
    bps: Seq<(i32, i64)>,
    stops: Seq<(i32, i64)>,
    offset: int,
    t: int,
    back: int,
)
    requires
        tempos_valid(bps),
        rate_at(bps, stops, t) > 0,
        beat_at(bps, stops, offset, back) <= beat_at(bps, stops, offset, t) < beat_at(
            bps,
            stops,
            offset,
            back + 1,
        ),
    ensures
        back == t,
{
    lemma_beat_gain(bps, stops, offset, t, t + 1);
    assert(ticks(bps, stops, t, t + 1) == rate_at(bps, stops, t)) by {
        assert(ticks(bps, stops, t, t) == 0);
    }
    if back < t {
        lemma_beat_monotone(bps, stops, offset, back + 1, t);
    } else if back > t {
        lemma_beat_monotone(bps, stops, offset, t + 1, back);
    }
}

/// The stop law: all through the window of a stop the beat position is the
/// one at the start of the stop. Time advances, the beat does not.
pub proof fn lemma_stop_holds_beat(
    bps: Seq<(i32, i64)>,
    stops: Seq<(i32, i64)>,
    offset: int,
    j: int,
    t: int,
)
    requires
        0 <= j < stops.len(),
        stops[j].0 <= t <= stops[j].0 + stops[j].1,
    ensures
        beat_at(bps, stops, offset, t) == beat_at(bps, stops, offset, stops[j].0 as int),
{
    let start = stops[j].0 as int;
    assert forall|x: int| start <= x < t implies #[trigger] rate_at(bps, stops, x) == 0 by {
        assert(stops[j].0 <= x < stops[j].0 + stops[j].1);
    }
    lemma_ticks_const(bps, stops, start, t, 0);
    lemma_beat_gain(bps, stops, offset, start, t);
}

/// Inside a stop, going to the beat position and back does not give the same
/// time again: it gives a later one, at or after the end of the stop.
pub proof fn lemma_round_trip_leaves_stop(
    bps: Seq<(i32, i64)>,
    stops: Seq<(i32, i64)>,
    offset: int,
    j: int,
    t: int,
    back: int,
)
    requires
        tempos_valid(bps),
        0 <= j < stops.len(),
        stops[j].0 <= t < stops[j].0 + stops[j].1,
        beat_at(bps, stops, offset, back) <= beat_at(bps, stops, offset, t) < beat_at(
            bps,
            stops,
            offset,
            back + 1,
        ),
    ensures
        back >= stops[j].0 + stops[j].1 - 1,
{
    let end = stops[j].0 + stops[j].1;
    lemma_stop_holds_beat(bps, stops, offset, j, t);
    lemma_stop_holds_beat(bps, stops, offset, j, end);
    if back + 1 < end {
        lemma_beat_monotone(bps, stops, offset, back + 1, end);
    }
}

} // verus!
