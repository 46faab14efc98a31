//! Timing by beat, as the slash-based format has it: tempo changes and stops
//! stand at beat positions, and the time of a beat is what has elapsed up to
//! it.

use vstd::prelude::*;
use crate::models::fluxis::hitobjects::clamped;
use crate::utils::rhythm::MAX_BPM;

verus! {

/// The largest beat position, in ticks, that a timing by beat takes.
pub const MAX_BEAT: i64 = 1_000_000_000_000_000;

/// The tempo changes `(beat, bpm)` that a timing by beat accepts: at least
/// one, every tempo strictly positive and at most `MAX_BPM`, the beats within
/// `MAX_BEAT` and in ascending order. Beats are in ticks, tempos in
/// thousandths of a beat per minute.
pub open spec fn changes_valid(changes: Seq<(i64, i64)>) -> bool {
    &&& changes.len() >= 1
    &&& forall|i: int|
        0 <= i < changes.len() ==> 0 < (#[trigger] changes[i]).1 <= MAX_BPM && -MAX_BEAT
            <= changes[i].0 <= MAX_BEAT
    &&& forall|i: int, j: int|
        0 <= i <= j < changes.len() ==> (#[trigger] changes[i]).0 <= (#[trigger] changes[j]).0
}

/// The milliseconds that pass from the first tempo change to beat `b`, which
/// lies behind it: segment by segment, the ticks of the segment over its
/// tempo, each cut off to whole milliseconds.
pub open spec fn forward(changes: Seq<(i64, i64)>, b: int) -> int
    decreases changes.len(),
{
    if changes.len() == 0 {
        0
    } else {
        let more = changes.len() >= 2 && changes[1].0 < b;
        let upper = if more {
            changes[1].0 as int
        } else {
            b
        };
        (if upper > changes[0].0 {
            (upper - changes[0].0) / (changes[0].1 as int)
        } else {
            0
        }) + (if more {
            forward(changes.drop_first(), b)
        } else {
            0
        })
    }
}

/// The milliseconds from the first tempo change to beat `b`; negative for a
/// beat before it, where the first tempo holds too.
pub open spec fn elapsed(changes: Seq<(i64, i64)>, b: int) -> int {
    if b <= changes[0].0 {
        -((changes[0].0 - b) / (changes[0].1 as int))
    } else {
        forward(changes, b)
    }
}

/// The milliseconds of the stops `(beat, duration)` that stand before beat
/// `b`. A stop that does not last counts for nothing.
pub open spec fn paused(stops: Seq<(i64, i64)>, b: int) -> int
    decreases stops.len(),
{
    if stops.len() == 0 {
        0
    } else {
        paused(stops.drop_last(), b) + if stops.last().0 < b && stops.last().1 > 0 {
            stops.last().1 as int
        } else {
            0
        }
    }
}

/// The time of beat `b`, in milliseconds, as far as an `i32` can hold it:
/// the time of the first tempo change, what has elapsed since at the tempos
/// in effect, and the stops passed.
pub open spec fn time_of_beat(
    changes: Seq<(i64, i64)>,
    stops: Seq<(i64, i64)>,
    start: i32,
    b: int,
) -> i32 {
    clamped(start + elapsed(changes, b) + paused(stops, b))
}

pub proof fn lemma_paused_bound(stops: Seq<(i64, i64)>, b: int)
    ensures
        0 <= paused(stops, b) <= stops.len() * 0x7fff_ffff_ffff_ffff,
    decreases stops.len(),
{
    if stops.len() > 0 {
        lemma_paused_bound(stops.drop_last(), b);
    }
}

proof fn lemma_forward_bound(changes: Seq<(i64, i64)>, b: int)
    requires
        changes_valid(changes),
        -MAX_BEAT <= b <= MAX_BEAT,
    ensures
        0 <= forward(changes, b) <= 2 * MAX_BEAT * changes.len(),
    decreases changes.len(),
{
    let more = changes.len() >= 2 && changes[1].0 < b;
    let upper = if more {
        changes[1].0 as int
    } else {
        b
    };
    if upper > changes[0].0 {
        let d = upper - changes[0].0;
        let r = changes[0].1 as int;
        assert(0 <= d / r <= d) by (nonlinear_arith)
            requires
                d > 0,
                r >= 1,
        ;
    }
    if more {
        let rest = changes.drop_first();
        assert forall|i: int| 0 <= i < rest.len() implies 0 < (#[trigger] rest[i]).1 <= MAX_BPM
            && -MAX_BEAT <= rest[i].0 <= MAX_BEAT by {
            assert(rest[i] == changes[i + 1]);
        }
        assert forall|i: int, j: int| 0 <= i <= j < rest.len() implies (#[trigger] rest[i]).0 <= (
        #[trigger] rest[j]).0 by {
            assert(rest[i] == changes[i + 1] && rest[j] == changes[j + 1]);
        }
        lemma_forward_bound(rest, b);
        assert(2 * MAX_BEAT + 2 * MAX_BEAT * (changes.len() - 1) == 2 * MAX_BEAT * changes.len())
            by (nonlinear_arith);
    } else {
        assert(2 * MAX_BEAT <= 2 * MAX_BEAT * changes.len()) by (nonlinear_arith)
            requires
                changes.len() >= 1,
        ;
    }
}

/// Checks the tempo changes of a timing by beat.
pub fn check_changes(changes: &Vec<(i64, i64)>) -> (ok: bool)
    ensures
        ok == changes_valid(changes@),
{
    if changes.len() == 0 {
        return false;
    }
    let mut i: usize = 0;
    while i < changes.len()
        invariant
            i <= changes.len(),
            changes@.len() >= 1,
            forall|k: int|
                0 <= k < i ==> 0 < (#[trigger] changes@[k]).1 <= MAX_BPM && -MAX_BEAT
                    <= changes@[k].0 <= MAX_BEAT,
            forall|a: int, b: int|
                0 <= a <= b < i ==> (#[trigger] changes@[a]).0 <= (#[trigger] changes@[b]).0,
        decreases changes.len() - i,
    {
        let (beat, bpm) = changes[i];
        if bpm <= 0 || bpm > MAX_BPM || beat < -MAX_BEAT || beat > MAX_BEAT {
            assert(!(0 < changes@[i as int].1 <= MAX_BPM && -MAX_BEAT <= changes@[i as int].0
                <= MAX_BEAT));
            return false;
        }
        if i > 0 && changes[i - 1].0 > beat {
            assert(!(changes@[i - 1].0 <= changes@[i as int].0));
            return false;
        }
        proof {
            assert forall|a: int, b: int| 0 <= a <= b < i + 1 implies (#[trigger] changes@[a]).0
                <= (#[trigger] changes@[b]).0 by {
                if b == i && a < i {
                    assert(changes@[a].0 <= changes@[i - 1].0);
                }
            }
        }
        i += 1;
    }
    true
}

fn forward_time(changes: &Vec<(i64, i64)>, b: i64) -> (t: i128)
    requires
        changes_valid(changes@),
        -MAX_BEAT <= b <= MAX_BEAT,
    ensures
        t == forward(changes@, b as int),
{
    let n = changes.len();
    let mut total: i128 = 0;
    let mut k: usize = 0;
    let mut going = true;
    assert(changes@.subrange(0, n as int) =~= changes@);
    proof {
        lemma_forward_bound(changes@, b as int);
    }
    while going && k < n
        invariant
            k <= n,
            n == changes@.len(),
            changes_valid(changes@),
            -MAX_BEAT <= b <= MAX_BEAT,
            0 <= total <= 2 * MAX_BEAT * k,
            going ==> forward(changes@, b as int) == total + forward(
                changes@.subrange(k as int, n as int),
                b as int,
            ),
            !going ==> forward(changes@, b as int) == total,
        decreases n - k + if going {
            1int
        } else {
            0int
        },
    {
        let ghost rest = changes@.subrange(k as int, n as int);
        proof {
            assert(rest.drop_first() =~= changes@.subrange(k + 1, n as int));
            assert(rest[0] == changes@[k as int]);
            if k + 1 < n {
                assert(rest[1] == changes@[k + 1]);
            }
            assert(0 < changes@[k as int].1 <= MAX_BPM);
        }
        let (beat, bpm) = changes[k];
        let more = k + 1 < n && changes[k + 1].0 < b;
        let upper: i64 = if more {
            changes[k + 1].0
        } else {
            b
        };
        if upper > beat {
            let d: i128 = upper as i128 - beat as i128;
            assert(0 <= d / (bpm as i128) <= d) by (nonlinear_arith)
                requires
                    d > 0,
                    bpm >= 1,
            ;
            assert(2 * MAX_BEAT * k <= 2 * MAX_BEAT * 0xffff_ffff_ffff_ffff) by (nonlinear_arith)
                requires
                    0 <= k <= 0xffff_ffff_ffff_ffff,
            ;
            total = total + d / (bpm as i128);
        }
        proof {
            assert(2 * MAX_BEAT * k + 2 * MAX_BEAT == 2 * MAX_BEAT * (k + 1)) by (nonlinear_arith);
        }
        if !more {
            going = false;
        }
        k += 1;
    }
    proof {
        if going {
            assert(changes@.subrange(n as int, n as int) =~= Seq::<(i64, i64)>::empty());
        }
    }
    total
}

fn paused_time(stops: &Vec<(i64, i64)>, b: i64) -> (t: i128)
    ensures
        t == paused(stops@, b as int),
{
    let mut total: i128 = 0;
    let mut j: usize = 0;
    while j < stops.len()
        invariant
            j <= stops.len(),
            total == paused(stops@.subrange(0, j as int), b as int),
        decreases stops.len() - j,
    {
        proof {
            lemma_paused_bound(stops@.subrange(0, j as int), b as int);
            assert(stops@.subrange(0, j + 1).drop_last() =~= stops@.subrange(0, j as int));
            assert(j * 0x7fff_ffff_ffff_ffff <= 0xffff_ffff_ffff_ffff * 0x7fff_ffff_ffff_ffff)
                by (nonlinear_arith)
                requires
                    0 <= j <= 0xffff_ffff_ffff_ffff,
            ;
        }
        let (beat, duration) = stops[j];
        if beat < b && duration > 0 {
            total = total + duration as i128;
        }
        j += 1;
    }
    assert(stops@.subrange(0, j as int) =~= stops@);
    total
}

/// The time of a beat in a timing by beat.
pub fn calculate_time_from_beat(
    beat: i64,
    start_time: i32,
    changes: &Vec<(i64, i64)>,
    stops: &Vec<(i64, i64)>,
) -> (t: i32)
    requires
        changes_valid(changes@),
        -MAX_BEAT <= beat <= MAX_BEAT,
    ensures
        t == time_of_beat(changes@, stops@, start_time, beat as int),
{
    let (first_beat, first_bpm) = changes[0];
    let count = changes.len();
    let stop_count = stops.len();
    assert(0 < changes@[0].1 <= MAX_BPM);
    let run: i128 = if beat <= first_beat {
        -((first_beat as i128 - beat as i128) / (first_bpm as i128))
    } else {
        proof {
            lemma_forward_bound(changes@, beat as int);
            assert(2 * MAX_BEAT * changes@.len() <= 2 * MAX_BEAT * 0xffff_ffff_ffff_ffff)
                by (nonlinear_arith)
                requires
                    changes@.len() <= 0xffff_ffff_ffff_ffff,
            ;
        }
        forward_time(changes, beat)
    };
    proof {
        lemma_paused_bound(stops@, beat as int);
        lemma_forward_bound(changes@, beat as int);
        assert(stops@.len() * 0x7fff_ffff_ffff_ffff <= 0xffff_ffff_ffff_ffff * 0x7fff_ffff_ffff_ffff)
            by (nonlinear_arith)
            requires
                0 <= stops@.len() <= 0xffff_ffff_ffff_ffff,
        ;
        assert(2 * MAX_BEAT * changes@.len() <= 2 * MAX_BEAT * 0xffff_ffff_ffff_ffff)
            by (nonlinear_arith)
            requires
                changes@.len() <= 0xffff_ffff_ffff_ffff,
        ;
        if beat <= first_beat {
            let d = first_beat - beat;
            assert(0 <= d / (first_bpm as int) <= d) by (nonlinear_arith)
                requires
                    d >= 0,
                    first_bpm >= 1,
            ;
        }
    }
    let pause = paused_time(stops, beat);
    let base: i128 = start_time as i128 + run;
    if pause > 0x1_0000_0000_0000_0000_0000_0000_0000 {
        return i32::MAX;
    }
    let total: i128 = base + pause;
    if total < i32::MIN as i128 {
        i32::MIN
    } else if total > i32::MAX as i128 {
        i32::MAX
    } else {
        total as i32
    }
}

} // verus!
