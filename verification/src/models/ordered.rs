//! Sequences ordered by time: what it means to be sorted, what a stable sort
//! is, and the two algorithms every timeline shares.

use vstd::prelude::*;

verus! {

/// An item that carries a time stamp.
pub trait Timed {
    spec fn time_of(&self) -> int;

    fn time(&self) -> (t: i64)
        ensures
            t == self.time_of(),
    ;
}

/// The times never decrease along `s`.
pub open spec fn times_sorted<T: Timed>(s: Seq<T>) -> bool {
    forall|i: int, j: int|
        0 <= i <= j < s.len() ==> (#[trigger] s[i]).time_of() <= (#[trigger] s[j]).time_of()
}

/// The items of `s` whose time is `t`, in the order they have in `s`.
pub open spec fn at_time<T: Timed>(s: Seq<T>, t: int) -> Seq<T> {
    s.filter(|x: T| x.time_of() == t)
}

/// `r` and `s` hold the same items, and items of equal time stand in the same
/// order in both.
pub open spec fn same_order_per_time<T: Timed>(r: Seq<T>, s: Seq<T>) -> bool {
    forall|t: int| #[trigger] at_time(r, t) == at_time(s, t)
}

/// `r` is `s` sorted by time with ties left in the order they had in `s`.
pub open spec fn is_stable_sort_of<T: Timed>(r: Seq<T>, s: Seq<T>) -> bool {
    times_sorted(r) && same_order_per_time(r, s)
}

/// The index just behind the last item of `s` whose time is at most `t`; 0
/// when there is none. In a sorted `s` this is where an item of time `t` goes
/// so that it follows every item it ties with.
pub open spec fn upper_bound<T: Timed>(s: Seq<T>, t: int) -> int
    decreases s.len(),
{
    if s.len() == 0 {
        0
    } else if s.last().time_of() <= t {
        s.len() as int
    } else {
        upper_bound(s.drop_last(), t)
    }
}

/// In a sorted sequence the upper bound is the one index that parts the items
/// of time at most `t` from the later ones.
pub proof fn lemma_upper_bound_unique<T: Timed>(s: Seq<T>, t: int, p: int)
    requires
        0 <= p <= s.len(),
        forall|i: int| 0 <= i < p ==> (#[trigger] s[i]).time_of() <= t,
        forall|i: int| p <= i < s.len() ==> (#[trigger] s[i]).time_of() > t,
    ensures
        upper_bound(s, t) == p,
    decreases s.len(),
{
    if s.len() > 0 {
        if s.last().time_of() <= t {
            if p < s.len() {
                assert(s[s.len() - 1].time_of() > t);
            }
        } else {
            if p == s.len() {
                assert(s[s.len() - 1].time_of() <= t);
            }
            let d = s.drop_last();
            assert forall|i: int| 0 <= i < p implies (#[trigger] d[i]).time_of() <= t by {
                assert(d[i] == s[i]);
            }
            assert forall|i: int| p <= i < d.len() implies (#[trigger] d[i]).time_of() > t by {
                assert(d[i] == s[i]);
            }
            lemma_upper_bound_unique(d, t, p);
        }
    }
}

pub proof fn lemma_at_time_push<T: Timed>(s: Seq<T>, x: T, t: int)
    ensures
        at_time(s.push(x), t) == if x.time_of() == t {
            at_time(s, t).push(x)
        } else {
            at_time(s, t)
        },
{
    reveal(Seq::filter);
    assert(s.push(x).drop_last() =~= s);
}

pub proof fn lemma_at_time_none<T: Timed>(s: Seq<T>, t: int)
    requires
        forall|i: int| 0 <= i < s.len() ==> (#[trigger] s[i]).time_of() != t,
    ensures
        at_time(s, t) == Seq::<T>::empty(),
    decreases s.len(),
{
    reveal(Seq::filter);
    if s.len() > 0 {
        let d = s.drop_last();
        assert forall|i: int| 0 <= i < d.len() implies (#[trigger] d[i]).time_of() != t by {
            assert(d[i] == s[i]);
        }
        lemma_at_time_none(d, t);
        assert(s[s.len() - 1].time_of() != t);
    }
    assert(at_time(s, t) =~= Seq::<T>::empty());
}

pub proof fn lemma_at_time_concat<T: Timed>(a: Seq<T>, b: Seq<T>, t: int)
    ensures
        at_time(a + b, t) == at_time(a, t) + at_time(b, t),
{
    Seq::filter_distributes_over_add(a, b, |x: T| x.time_of() == t);
}

/// Every item of `s` stands among the items of its own time.
pub proof fn lemma_at_time_holds<T: Timed>(s: Seq<T>, k: int)
    requires
        0 <= k < s.len(),
    ensures
        at_time(s, s[k].time_of()).contains(s[k]),
    decreases s.len(),
{
    let t = s[k].time_of();
    let d = s.drop_last();
    lemma_at_time_push(d, s.last(), t);
    assert(d.push(s.last()) =~= s);
    if k == s.len() - 1 {
        let f = at_time(d, t).push(s.last());
        assert(f[f.len() - 1] == s[k]);
    } else {
        assert(d[k] == s[k]);
        lemma_at_time_holds(d, k);
        let i = choose|i: int| 0 <= i < at_time(d, t).len() && at_time(d, t)[i] == d[k];
        if s.last().time_of() == t {
            assert(at_time(d, t).push(s.last())[i] == s[k]);
        }
    }
}

/// Whatever stands among the items of time `t` is an item of `s`.
pub proof fn lemma_at_time_from<T: Timed>(s: Seq<T>, t: int, x: T)
    requires
        at_time(s, t).contains(x),
    ensures
        s.contains(x),
        x.time_of() == t,
    decreases s.len(),
{
    if s.len() == 0 {
        lemma_at_time_none(s, t);
    } else {
        let d = s.drop_last();
        lemma_at_time_push(d, s.last(), t);
        assert(d.push(s.last()) =~= s);
        let i = choose|i: int| 0 <= i < at_time(s, t).len() && at_time(s, t)[i] == x;
        if s.last().time_of() == t && i == at_time(d, t).len() {
            assert(s[s.len() - 1] == x);
        } else {
            assert(at_time(d, t)[i] == x);
            lemma_at_time_from(d, t, x);
            let j = choose|j: int| 0 <= j < d.len() && d[j] == x;
            assert(s[j] == x);
        }
    }
}

/// Two sequences that agree time by time hold the same items.
pub proof fn lemma_same_order_same_items<T: Timed>(r: Seq<T>, s: Seq<T>, k: int)
    requires
        same_order_per_time(r, s),
        0 <= k < r.len(),
    ensures
        s.contains(r[k]),
{
    lemma_at_time_holds(r, k);
    assert(at_time(r, r[k].time_of()) == at_time(s, r[k].time_of()));
    lemma_at_time_from(s, r[k].time_of(), r[k]);
}

/// Putting `x` in front of items that all differ from it in time is, time by
/// time, the same as appending it.
pub proof fn lemma_insert_same_order<T: Timed>(s: Seq<T>, p: int, x: T)
    requires
        0 <= p <= s.len(),
        forall|i: int| p <= i < s.len() ==> (#[trigger] s[i]).time_of() != x.time_of(),
    ensures
        same_order_per_time(s.insert(p, x), s.push(x)),
{
    let head = s.subrange(0, p);
    let tail = s.subrange(p, s.len() as int);
    assert(s =~= head + tail);
    assert(s.insert(p, x) =~= head.push(x) + tail);
    assert forall|t: int| #[trigger] at_time(s.insert(p, x), t) == at_time(s.push(x), t) by {
        lemma_at_time_concat(head.push(x), tail, t);
        lemma_at_time_concat(head, tail, t);
        lemma_at_time_push(head, x, t);
        lemma_at_time_push(s, x, t);
        if x.time_of() == t {
            lemma_at_time_none(tail, t);
            assert(at_time(head, t).push(x) + Seq::<T>::empty() =~= (at_time(head, t)
                + Seq::<T>::empty()).push(x));
        }
    }
}

/// In a sorted sequence everything before the upper bound is at most `t`, and
/// everything from it on is later.
pub proof fn lemma_upper_bound_parts<T: Timed>(s: Seq<T>, t: int)
    requires
        times_sorted(s),
    ensures
        0 <= upper_bound(s, t) <= s.len(),
        forall|i: int| 0 <= i < upper_bound(s, t) ==> (#[trigger] s[i]).time_of() <= t,
        forall|i: int| upper_bound(s, t) <= i < s.len() ==> (#[trigger] s[i]).time_of() > t,
    decreases s.len(),
{
    if s.len() > 0 {
        if s.last().time_of() <= t {
            assert forall|i: int| 0 <= i < s.len() implies (#[trigger] s[i]).time_of() <= t by {
                assert(s[i].time_of() <= s[s.len() - 1].time_of());
            }
        } else {
            let d = s.drop_last();
            assert forall|i: int, j: int| 0 <= i <= j < d.len() implies (#[trigger] d[i]).time_of()
                <= (#[trigger] d[j]).time_of() by {
                assert(d[i] == s[i] && d[j] == s[j]);
            }
            lemma_upper_bound_parts(d, t);
            assert forall|i: int| 0 <= i < upper_bound(s, t) implies (#[trigger] s[i]).time_of()
                <= t by {
                assert(s[i] == d[i]);
            }
            assert forall|i: int| upper_bound(s, t) <= i < s.len() implies (#[trigger] s[i]).time_of()
                > t by {
                if i < d.len() {
                    assert(s[i] == d[i]);
                }
            }
        }
    }
}

/// Inserting at the upper bound keeps a sorted sequence sorted and puts the
/// item behind all the items it ties with.
pub proof fn lemma_insert_at_upper_bound<T: Timed>(s: Seq<T>, x: T)
    requires
        times_sorted(s),
    ensures
        times_sorted(s.insert(upper_bound(s, x.time_of()), x)),
        same_order_per_time(s.insert(upper_bound(s, x.time_of()), x), s.push(x)),
{
    let p = upper_bound(s, x.time_of());
    lemma_upper_bound_parts(s, x.time_of());
    lemma_insert_same_order(s, p, x);
    let r = s.insert(p, x);
    assert forall|i: int, j: int| 0 <= i <= j < r.len() implies (#[trigger] r[i]).time_of()
        <= (#[trigger] r[j]).time_of() by {
        if i < p {
            assert(r[i] == s[i]);
        } else if i > p {
            assert(r[i] == s[i - 1]);
        }
        if j < p {
            assert(r[j] == s[j]);
        } else if j > p {
            assert(r[j] == s[j - 1]);
        }
    }
}

/// Two sorted lists that hold the same items, those of equal time in the
/// same order, are one list.
pub proof fn lemma_sorted_same_order_equal<T: Timed>(a: Seq<T>, b: Seq<T>)
    requires
        times_sorted(a),
        times_sorted(b),
        same_order_per_time(a, b),
    ensures
        a == b,
    decreases a.len(),
{
    if a.len() == 0 {
        if b.len() > 0 {
            lemma_at_time_holds(b, 0);
            assert(at_time(a, b[0].time_of()) == at_time(b, b[0].time_of()));
            lemma_at_time_none(a, b[0].time_of());
        }
        assert(a =~= b);
    } else {
        let x = a.last();
        let t = x.time_of();
        let da = a.drop_last();
        lemma_at_time_push(da, x, t);
        assert(da.push(x) =~= a);
        assert(at_time(a, t) == at_time(b, t));
        let last_of_t = at_time(b, t)[at_time(b, t).len() - 1];
        assert(last_of_t == x);
        assert(at_time(b, t).contains(last_of_t));
        lemma_at_time_from(b, t, x);
        let k = choose|k: int| 0 <= k < b.len() && b[k] == x;
        let y = b.last();
        lemma_at_time_holds(b, b.len() - 1);
        assert(at_time(a, y.time_of()) == at_time(b, y.time_of()));
        lemma_at_time_from(a, y.time_of(), y);
        let m = choose|m: int| 0 <= m < a.len() && a[m] == y;
        assert(a[m].time_of() <= a[a.len() - 1].time_of());
        assert(b[k].time_of() <= b[b.len() - 1].time_of());
        let db = b.drop_last();
        lemma_at_time_push(db, y, t);
        assert(db.push(y) =~= b);
        assert(at_time(da, t).push(x) == at_time(db, t).push(y));
        assert(at_time(db, t).push(y).last() == y);
        assert(at_time(da, t).push(x).drop_last() =~= at_time(da, t));
        assert(at_time(db, t).push(y).drop_last() =~= at_time(db, t));
        assert forall|u: int| #[trigger] at_time(da, u) == at_time(db, u) by {
            if u != t {
                lemma_at_time_push(da, x, u);
                lemma_at_time_push(db, y, u);
                assert(at_time(a, u) == at_time(b, u));
            }
        }
        assert forall|i: int, j: int| 0 <= i <= j < da.len() implies (#[trigger] da[i]).time_of()
            <= (#[trigger] da[j]).time_of() by {
            assert(da[i] == a[i] && da[j] == a[j]);
        }
        assert forall|i: int, j: int| 0 <= i <= j < db.len() implies (#[trigger] db[i]).time_of()
            <= (#[trigger] db[j]).time_of() by {
            assert(db[i] == b[i] && db[j] == b[j]);
        }
        lemma_sorted_same_order_equal(da, db);
    }
}

/// A list has one stable sort.
pub proof fn lemma_stable_sort_unique<T: Timed>(a: Seq<T>, b: Seq<T>, s: Seq<T>)
    requires
        is_stable_sort_of(a, s),
        is_stable_sort_of(b, s),
    ensures
        a == b,
{
    assert forall|t: int| #[trigger] at_time(a, t) == at_time(b, t) by {
        assert(at_time(a, t) == at_time(s, t));
        assert(at_time(b, t) == at_time(s, t));
    }
    lemma_sorted_same_order_equal(a, b);
}

/// What a list becomes when `items` are inserted one after the other, each
/// at its upper bound.
pub open spec fn insertions<T: Timed>(base: Seq<T>, items: Seq<T>) -> Seq<T>
    decreases items.len(),
{
    if items.len() == 0 {
        base
    } else {
        let before = insertions(base, items.drop_last());
        before.insert(upper_bound(before, items.last().time_of()), items.last())
    }
}

/// Inserting items one after the other into a sorted list sorts them in:
/// the list stays sorted, and each item follows what it ties with.
pub proof fn lemma_insertions_sorted<T: Timed>(base: Seq<T>, items: Seq<T>)
    requires
        times_sorted(base),
    ensures
        is_stable_sort_of(insertions(base, items), base + items),
    decreases items.len(),
{
    if items.len() == 0 {
        assert(base + items =~= base);
    } else {
        let rest = items.drop_last();
        let before = insertions(base, rest);
        let x = items.last();
        lemma_insertions_sorted(base, rest);
        lemma_insert_at_upper_bound(before, x);
        assert(base + items =~= (base + rest).push(x));
        assert forall|t: int| #[trigger]
            at_time(insertions(base, items), t) == at_time(base + items, t) by {
            lemma_at_time_push(before, x, t);
            lemma_at_time_push(base + rest, x, t);
            assert(at_time(before, t) == at_time(base + rest, t));
            assert(at_time(insertions(base, items), t) == at_time(before.push(x), t));
        }
    }
}

/// Inserts `item` by binary search. In a sorted vector it goes behind every
/// item whose time is at most its own: the vector stays sorted, and items of
/// equal time stay in the order in which they came. In an unsorted vector it
/// goes wherever the search ends.
pub fn insert_sorted<T: Timed + Copy>(v: &mut Vec<T>, item: T)
    ensures
        exists|p: int| 0 <= p <= old(v)@.len() && final(v)@ == old(v)@.insert(p, item),
        times_sorted(old(v)@) ==> {
            &&& final(v)@ == old(v)@.insert(upper_bound(old(v)@, item.time_of()), item)
            &&& times_sorted(final(v)@)
            &&& same_order_per_time(final(v)@, old(v)@.push(item))
        },
{
    let len = v.len();
    let t = item.time();
    let ghost s = v@;
    let mut lo: usize = 0;
    let mut hi: usize = len;
    if len == 0 || t >= v[len - 1].time() {
        lo = len;
        proof {
            if times_sorted(s) {
                assert forall|i: int| 0 <= i < len implies (#[trigger] s[i]).time_of() <= t by {
                    assert(s[i].time_of() <= s[len - 1].time_of());
                }
            }
        }
    }
    while lo < hi
        invariant
            0 <= lo <= hi <= len,
            len == v.len(),
            v@ == s,
            t == item.time_of(),
            times_sorted(s) ==> forall|i: int| 0 <= i < lo ==> (#[trigger] s[i]).time_of() <= t,
            times_sorted(s) ==> forall|i: int| hi <= i < len ==> (#[trigger] s[i]).time_of() > t,
        decreases hi - lo,
    {
        let mid = lo + (hi - lo) / 2;
        if v[mid].time() <= t {
            proof {
                if times_sorted(s) {
                    assert forall|i: int| 0 <= i < mid + 1 implies (#[trigger] s[i]).time_of()
                        <= t by {
                        assert(s[i].time_of() <= s[mid as int].time_of());
                    }
                }
            }
            lo = mid + 1;
        } else {
            proof {
                if times_sorted(s) {
                    assert forall|i: int| mid <= i < len implies (#[trigger] s[i]).time_of()
                        > t by {
                        assert(s[mid as int].time_of() <= s[i].time_of());
                    }
                }
            }
            hi = mid;
        }
    }
    proof {
        if times_sorted(s) {
            lemma_upper_bound_unique(s, t as int, lo as int);
            lemma_insert_at_upper_bound(s, item);
        }
    }
    v.insert(lo, item);
}

/// The upper bound in any list, sorted or not: every item from it on is
/// later than `t`, and the item before it, if there is one, is not.
pub proof fn lemma_upper_bound_tail<T: Timed>(s: Seq<T>, t: int)
    ensures
        0 <= upper_bound(s, t) <= s.len(),
        forall|i: int| upper_bound(s, t) <= i < s.len() ==> (#[trigger] s[i]).time_of() > t,
        upper_bound(s, t) > 0 ==> s[upper_bound(s, t) - 1].time_of() <= t,
    decreases s.len(),
{
    if s.len() > 0 && s.last().time_of() > t {
        let d = s.drop_last();
        lemma_upper_bound_tail(d, t);
        assert forall|i: int| upper_bound(s, t) <= i < s.len() implies (#[trigger] s[i]).time_of()
            > t by {
            if i < d.len() {
                assert(s[i] == d[i]);
            }
        }
        if upper_bound(s, t) > 0 {
            assert(s[upper_bound(s, t) - 1] == d[upper_bound(d, t) - 1]);
        }
    }
}

/// The index behind the last item that is not later than `t` is the upper
/// bound, in any list.
pub proof fn lemma_upper_bound_behind_last<T: Timed>(s: Seq<T>, t: int, p: int)
    requires
        0 <= p <= s.len(),
        forall|i: int| p <= i < s.len() ==> (#[trigger] s[i]).time_of() > t,
        p > 0 ==> s[p - 1].time_of() <= t,
    ensures
        upper_bound(s, t) == p,
    decreases s.len(),
{
    if p < s.len() {
        let d = s.drop_last();
        assert(s[s.len() - 1].time_of() > t);
        assert forall|i: int| p <= i < d.len() implies (#[trigger] d[i]).time_of() > t by {
            assert(d[i] == s[i]);
        }
        if p > 0 {
            assert(d[p - 1] == s[p - 1]);
        }
        lemma_upper_bound_behind_last(d, t, p);
    }
}

/// An item put in at the upper bound of its time stands behind every item
/// of its time, in any list: items of equal time keep the order in which they
/// came.
pub proof fn lemma_insert_behind_keeps_order<T: Timed>(s: Seq<T>, x: T)
    ensures
        0 <= upper_bound(s, x.time_of()) <= s.len(),
        same_order_per_time(s.insert(upper_bound(s, x.time_of()), x), s.push(x)),
{
    lemma_upper_bound_tail(s, x.time_of());
    lemma_insert_same_order(s, upper_bound(s, x.time_of()), x);
}

/// Inserts `item` behind the last item whose time is at most its own,
/// looking from the back. Unlike `insert_sorted` this does not rely on the
/// vector being sorted; in a sorted vector both find the same place.
pub fn insert_behind<T: Timed + Copy>(v: &mut Vec<T>, item: T)
    ensures
        final(v)@ == old(v)@.insert(upper_bound(old(v)@, item.time_of()), item),
{
    let t = item.time();
    let ghost s = v@;
    let mut p: usize = v.len();
    while p > 0 && v[p - 1].time() > t
        invariant
            p <= v.len(),
            v@ == s,
            forall|i: int| p <= i < s.len() ==> (#[trigger] s[i]).time_of() > t,
        decreases p,
    {
        p -= 1;
    }
    proof {
        lemma_upper_bound_behind_last(s, t as int, p as int);
    }
    v.insert(p, item);
}

/// Merges two sorted vectors; where times tie, the items of `a` come first.
fn merge<T: Timed + Copy>(a: &Vec<T>, b: &Vec<T>) -> (c: Vec<T>)
    requires
        times_sorted(a@),
        times_sorted(b@),
    ensures
        times_sorted(c@),
        same_order_per_time(c@, a@ + b@),
{
    let mut c: Vec<T> = Vec::new();
    let mut i: usize = 0;
    let mut j: usize = 0;
    proof {
        assert forall|t: int| #[trigger]
            at_time(c@, t) == at_time(a@.subrange(0, 0), t) + at_time(b@.subrange(0, 0), t) by {
            lemma_at_time_none(c@, t);
            lemma_at_time_none(a@.subrange(0, 0), t);
            lemma_at_time_none(b@.subrange(0, 0), t);
        }
    }
    while i < a.len() || j < b.len()
        invariant
            i <= a.len(),
            j <= b.len(),
            times_sorted(a@),
            times_sorted(b@),
            times_sorted(c@),
            forall|k: int|
                0 <= k < c.len() && i < a.len() ==> (#[trigger] c@[k]).time_of()
                    <= a@[i as int].time_of(),
            forall|k: int|
                0 <= k < c.len() && j < b.len() ==> (#[trigger] c@[k]).time_of()
                    <= b@[j as int].time_of(),
            forall|k: int|
                0 <= k < j && i < a.len() ==> (#[trigger] b@[k]).time_of() < a@[i as int].time_of(),
            forall|t: int| #[trigger]
                at_time(c@, t) == at_time(a@.subrange(0, i as int), t) + at_time(
                    b@.subrange(0, j as int),
                    t,
                ),
        decreases a.len() - i + b.len() - j,
    {
        let ghost c0 = c@;
        let take_a = if j >= b.len() {
            true
        } else if i < a.len() {
            a[i].time() <= b[j].time()
        } else {
            false
        };
        if take_a {
            let x = a[i];
            c.push(x);
            proof {
                let a0 = a@.subrange(0, i as int);
                let b0 = b@.subrange(0, j as int);
                assert(a@.subrange(0, i + 1) =~= a0.push(x));
                assert forall|t: int| #[trigger]
                    at_time(c@, t) == at_time(a@.subrange(0, i + 1), t) + at_time(b0, t) by {
                    lemma_at_time_push(c0, x, t);
                    lemma_at_time_push(a0, x, t);
                    assert(at_time(c0, t) == at_time(a0, t) + at_time(b0, t));
                    if x.time_of() == t {
                        assert forall|k: int| 0 <= k < b0.len() implies (#[trigger] b0[k]).time_of()
                            != t by {
                            assert(b0[k] == b@[k]);
                        }
                        lemma_at_time_none(b0, t);
                        assert((at_time(a0, t) + Seq::<T>::empty()).push(x) =~= at_time(a0, t).push(
                            x,
                        ) + Seq::<T>::empty());
                    }
                }
                assert forall|k: int, l: int| 0 <= k <= l < c@.len() implies (#[trigger] c@[k]).time_of()
                    <= (#[trigger] c@[l]).time_of() by {
                    if l < c0.len() {
                        assert(c@[k] == c0[k] && c@[l] == c0[l]);
                    } else if k < c0.len() {
                        assert(c@[k] == c0[k]);
                    }
                }
                assert forall|k: int| 0 <= k < c@.len() && i + 1 < a.len() implies (#[trigger] c@[k]).time_of()
                    <= a@[i + 1].time_of() by {
                    if k < c0.len() {
                        assert(c@[k] == c0[k]);
                    }
                    assert(a@[i as int].time_of() <= a@[i + 1].time_of());
                }
                assert forall|k: int| 0 <= k < c@.len() && j < b.len() implies (#[trigger] c@[k]).time_of()
                    <= b@[j as int].time_of() by {
                    if k < c0.len() {
                        assert(c@[k] == c0[k]);
                    }
                }
                assert forall|k: int| 0 <= k < j && i + 1 < a.len() implies (#[trigger] b@[k]).time_of()
                    < a@[i + 1].time_of() by {
                    assert(a@[i as int].time_of() <= a@[i + 1].time_of());
                }
            }
            i += 1;
        } else {
            let y = b[j];
            c.push(y);
            proof {
                let a0 = a@.subrange(0, i as int);
                let b0 = b@.subrange(0, j as int);
                assert(b@.subrange(0, j + 1) =~= b0.push(y));
                assert forall|t: int| #[trigger]
                    at_time(c@, t) == at_time(a0, t) + at_time(b@.subrange(0, j + 1), t) by {
                    lemma_at_time_push(c0, y, t);
                    lemma_at_time_push(b0, y, t);
                    assert(at_time(c0, t) == at_time(a0, t) + at_time(b0, t));
                    if y.time_of() == t {
                        assert((at_time(a0, t) + at_time(b0, t)).push(y) =~= at_time(a0, t)
                            + at_time(b0, t).push(y));
                    }
                }
                assert forall|k: int, l: int| 0 <= k <= l < c@.len() implies (#[trigger] c@[k]).time_of()
                    <= (#[trigger] c@[l]).time_of() by {
                    if l < c0.len() {
                        assert(c@[k] == c0[k] && c@[l] == c0[l]);
                    } else if k < c0.len() {
                        assert(c@[k] == c0[k]);
                    }
                }
                assert forall|k: int| 0 <= k < c@.len() && i < a.len() implies (#[trigger] c@[k]).time_of()
                    <= a@[i as int].time_of() by {
                    if k < c0.len() {
                        assert(c@[k] == c0[k]);
                    }
                }
                assert forall|k: int| 0 <= k < c@.len() && j + 1 < b.len() implies (#[trigger] c@[k]).time_of()
                    <= b@[j + 1].time_of() by {
                    if k < c0.len() {
                        assert(c@[k] == c0[k]);
                    }
                    assert(b@[j as int].time_of() <= b@[j + 1].time_of());
                }
            }
            j += 1;
        }
    }
    proof {
        assert(a@.subrange(0, i as int) =~= a@);
        assert(b@.subrange(0, j as int) =~= b@);
        assert forall|t: int| #[trigger] at_time(c@, t) == at_time(a@ + b@, t) by {
            lemma_at_time_concat(a@, b@, t);
            assert(at_time(c@, t) == at_time(a@.subrange(0, i as int), t) + at_time(
                b@.subrange(0, j as int),
                t,
            ));
        }
    }
    c
}

/// The stable sort of `v[lo..hi]`, by merging its sorted halves.
fn merge_sort_range<T: Timed + Copy>(v: &Vec<T>, lo: usize, hi: usize) -> (r: Vec<T>)
    requires
        lo <= hi <= v.len(),
    ensures
        is_stable_sort_of(r@, v@.subrange(lo as int, hi as int)),
    decreases hi - lo,
{
    let ghost s = v@.subrange(lo as int, hi as int);
    if hi - lo <= 1 {
        let mut r: Vec<T> = Vec::new();
        if hi - lo == 1 {
            r.push(v[lo]);
        }
        assert(r@ =~= s);
        r
    } else {
        let mid = lo + (hi - lo) / 2;
        let a = merge_sort_range(v, lo, mid);
        let b = merge_sort_range(v, mid, hi);
        let r = merge(&a, &b);
        proof {
            let left = v@.subrange(lo as int, mid as int);
            let right = v@.subrange(mid as int, hi as int);
            assert(s =~= left + right);
            assert forall|t: int| #[trigger] at_time(r@, t) == at_time(s, t) by {
                assert(at_time(r@, t) == at_time(a@ + b@, t));
                lemma_at_time_concat(a@, b@, t);
                lemma_at_time_concat(left, right, t);
                assert(at_time(a@, t) == at_time(left, t));
                assert(at_time(b@, t) == at_time(right, t));
            }
        }
        r
    }
}

/// Sorts `v` by time. Items of equal time keep the order they had.
pub fn stable_sort<T: Timed + Copy>(v: &mut Vec<T>)
    ensures
        is_stable_sort_of(final(v)@, old(v)@),
{
    let r = merge_sort_range(v, 0, v.len());
    assert(v@.subrange(0, v.len() as int) =~= v@);
    *v = r;
}

/// Moving an item towards the front, past items that all differ from it in
/// time, changes nothing time by time.
pub proof fn lemma_move_keeps_order<T: Timed>(s: Seq<T>, i: int, pos: int)
    requires
        0 <= pos <= i < s.len(),
        forall|k: int| pos <= k < i ==> (#[trigger] s[k]).time_of() != s[i].time_of(),
    ensures
        same_order_per_time(s.remove(i).insert(pos, s[i]), s),
{
    let x = s[i];
    let a = s.subrange(0, pos);
    let b = s.subrange(pos, i);
    let c = s.subrange(i + 1, s.len() as int);
    let moved = s.remove(i).insert(pos, x);
    assert(s =~= a + b + seq![x] + c);
    assert(moved =~= a + seq![x] + b + c);
    assert forall|t: int| #[trigger] at_time(moved, t) == at_time(s, t) by {
        lemma_at_time_concat(a + b + seq![x], c, t);
        lemma_at_time_concat(a + b, seq![x], t);
        lemma_at_time_concat(a, b, t);
        lemma_at_time_concat(a + seq![x] + b, c, t);
        lemma_at_time_concat(a + seq![x], b, t);
        lemma_at_time_concat(a, seq![x], t);
        if x.time_of() == t {
            lemma_at_time_none(b, t);
        } else {
            lemma_at_time_none(seq![x], t);
        }
        assert(at_time(a, t) + at_time(seq![x], t) + at_time(b, t) =~= at_time(a, t) + at_time(
            b,
            t,
        ) + at_time(seq![x], t));
    }
}

/// Sorts `v` by time without copying its items. Items of equal time keep
/// the order they had.
pub fn stable_sort_in_place<T: Timed>(v: &mut Vec<T>)
    ensures
        is_stable_sort_of(final(v)@, old(v)@),
{
    let n = v.len();
    let mut i: usize = 0;
    while i < n
        invariant
            i <= n,
            n == v@.len(),
            times_sorted(v@.subrange(0, i as int)),
            same_order_per_time(v@, old(v)@),
        decreases n - i,
    {
        let ghost before = v@;
        let x = v.remove(i);
        let t = x.time();
        let mut pos: usize = i;
        while pos > 0 && v[pos - 1].time() > t
            invariant
                pos <= i < n,
                before.len() == n,
                v@.len() == n - 1,
                v@ == before.remove(i as int),
                t == x.time_of(),
                forall|k: int| pos <= k < i ==> (#[trigger] before[k]).time_of() > t,
            decreases pos,
        {
            assert(v@[pos - 1] == before[pos - 1]);
            pos -= 1;
        }
        v.insert(pos, x);
        proof {
            lemma_move_keeps_order(before, i as int, pos as int);
            assert forall|tt: int| #[trigger] at_time(v@, tt) == at_time(old(v)@, tt) by {
                assert(at_time(v@, tt) == at_time(before, tt));
                assert(at_time(before, tt) == at_time(old(v)@, tt));
            }
            let head = v@.subrange(0, i + 1);
            let old_head = before.subrange(0, i as int);
            assert forall|a: int, b: int| 0 <= a <= b < head.len() implies (
            #[trigger] head[a]).time_of() <= (#[trigger] head[b]).time_of() by {
                if pos > 0 {
                    assert(before.remove(i as int)[pos - 1] == before[pos - 1]);
                }
                if a < pos {
                    assert(head[a] == old_head[a]);
                    if pos > 0 {
                        assert(old_head[a].time_of() <= old_head[pos - 1].time_of());
                    }
                } else if a > pos {
                    assert(head[a] == old_head[a - 1]);
                    assert(head[a] == before[a - 1]);
                }
                if b < pos {
                    assert(head[b] == old_head[b]);
                } else if b > pos {
                    assert(head[b] == old_head[b - 1]);
                    assert(head[b] == before[b - 1]);
                }
            }
        }
        i += 1;
    }
    assert(v@.subrange(0, n as int) =~= v@);
}

} // verus!
