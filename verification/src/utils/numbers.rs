//! Numbers in text: whole numbers, and fixed-point numbers in thousandths.

use vstd::prelude::*;
use crate::utils::text::{append_decimal_nat, decimal_nat, digit, digit_char, push_char};

verus! {

pub open spec fn is_digit(c: char) -> bool {
    '0' <= c <= '9'
}

/// The value of a digit.
pub open spec fn digit_value(c: char) -> int {
    c as u32 - 48
}

pub open spec fn all_digits(s: Seq<char>) -> bool {
    forall|i: int| 0 <= i < s.len() ==> is_digit(#[trigger] s[i])
}

/// The number that a run of digits writes; 0 for no digits.
pub open spec fn digits_value(s: Seq<char>) -> int
    decreases s.len(),
{
    if s.len() == 0 {
        0
    } else {
        digits_value(s.drop_last()) * 10 + digit_value(s.last())
    }
}

/// The number that a text writes if it is a whole number without a minus
/// sign: an optional plus sign and at least one digit.
pub open spec fn parse_nat(s: Seq<char>) -> Option<int> {
    let body = if s.len() > 0 && s[0] == '+' {
        s.drop_first()
    } else {
        s
    };
    if body.len() > 0 && all_digits(body) {
        Some(digits_value(body))
    } else {
        None
    }
}

/// The number that a text writes if it is a whole number: an optional sign
/// and at least one digit.
pub open spec fn parse_int(s: Seq<char>) -> Option<int> {
    if s.len() > 0 && s[0] == '-' {
        let body = s.drop_first();
        if body.len() > 0 && all_digits(body) {
            Some(-digits_value(body))
        } else {
            None
        }
    } else {
        parse_nat(s)
    }
}

/// A run of digits writes a number that is not negative.
pub proof fn lemma_digits_value_not_negative(s: Seq<char>)
    requires
        all_digits(s),
    ensures
        0 <= digits_value(s),
    decreases s.len(),
{
    if s.len() > 0 {
        assert forall|i: int| 0 <= i < s.drop_last().len() implies is_digit(
            #[trigger] s.drop_last()[i],
        ) by {
            assert(s.drop_last()[i] == s[i]);
        }
        lemma_digits_value_not_negative(s.drop_last());
        assert(is_digit(s[s.len() - 1]));
    }
}

/// What reading a run of digits gives.
pub enum Digits {
    /// Not a run of at least one digit.
    Invalid,
    /// The number written.
    Value(u64),
    /// A number above the limit.
    TooBig,
}

/// The largest limit that `read_digits` takes.
pub const DIGITS_LIMIT: u64 = 1_000_000_000_000_000_000;

/// Reads the digits `v[from..to]` as a number of at most `limit`.
pub fn read_digits(v: &Vec<char>, from: usize, to: usize, limit: u64) -> (r: Digits)
    requires
        from <= to <= v@.len(),
        limit <= DIGITS_LIMIT,
    ensures
        ({
            let s = v@.subrange(from as int, to as int);
            match r {
                Digits::Invalid => !(s.len() > 0 && all_digits(s)),
                Digits::Value(n) => s.len() > 0 && all_digits(s) && n == digits_value(s) && n
                    <= limit,
                Digits::TooBig => s.len() > 0 && all_digits(s) && digits_value(s) > limit,
            }
        }),
{
    let ghost s = v@.subrange(from as int, to as int);
    if from == to {
        return Digits::Invalid;
    }
    let mut i: usize = from;
    let mut acc: u64 = 0;
    let mut big = false;
    assert(s.subrange(0, 0) =~= Seq::<char>::empty());
    while i < to
        invariant
            from <= i <= to <= v@.len(),
            s == v@.subrange(from as int, to as int),
            limit <= DIGITS_LIMIT,
            all_digits(s.subrange(0, i - from)),
            !big ==> acc == digits_value(s.subrange(0, i - from)) && acc <= limit,
            big ==> digits_value(s.subrange(0, i - from)) > limit,
        decreases to - i,
    {
        let c = v[i];
        proof {
            assert(s[i - from] == c);
            assert(s.subrange(0, i - from + 1).drop_last() =~= s.subrange(0, i - from));
            assert(s.subrange(0, i - from + 1).last() == c);
        }
        if !('0' <= c && c <= '9') {
            assert(!is_digit(s[i - from]));
            return Digits::Invalid;
        }
        proof {
            assert forall|k: int| 0 <= k < i - from + 1 implies is_digit(
                #[trigger] s.subrange(0, i - from + 1)[k],
            ) by {
                if k < i - from {
                    assert(s.subrange(0, i - from)[k] == s[k]);
                }
            }
            lemma_digits_value_not_negative(s.subrange(0, i - from));
        }
        if !big {
            let d = (c as u32 - 48) as u64;
            acc = acc * 10 + d;
            if acc > limit {
                big = true;
            }
        }
        i += 1;
    }
    assert(s.subrange(0, to - from) =~= s);
    if big {
        Digits::TooBig
    } else {
        Digits::Value(acc)
    }
}

/// A whole number read from text, if the text writes one that fits.
pub open spec fn int_in_range(s: Seq<char>, lo: int, hi: int) -> Option<int> {
    match parse_int(s) {
        Some(n) => if lo <= n <= hi {
            Some(n)
        } else {
            None
        },
        None => None,
    }
}

/// Reads `v[from..to]` as a whole number between `-limit - 1` and `limit`.
fn read_int(v: &Vec<char>, from: usize, to: usize, limit: u64) -> (r: Option<i64>)
    requires
        from <= to <= v@.len(),
        limit < DIGITS_LIMIT,
    ensures
        ({
            let found = int_in_range(
                v@.subrange(from as int, to as int),
                -(limit as int) - 1,
                limit as int,
            );
            match r {
                Some(n) => found == Some(n as int),
                None => found is None,
            }
        }),
{
    let ghost s = v@.subrange(from as int, to as int);
    if from == to {
        return None;
    }
    assert(s[0] == v@[from as int]);
    if v[from] == '-' {
        assert(s.drop_first() =~= v@.subrange(from + 1, to as int));
        match read_digits(v, from + 1, to, limit + 1) {
            Digits::Value(n) => Some(-(n as i64)),
            _ => None,
        }
    } else if v[from] == '+' {
        assert(s.drop_first() =~= v@.subrange(from + 1, to as int));
        match read_digits(v, from + 1, to, limit) {
            Digits::Value(n) => Some(n as i64),
            _ => None,
        }
    } else {
        match read_digits(v, from, to, limit) {
            Digits::Value(n) => Some(n as i64),
            _ => None,
        }
    }
}

/// Reads `v[from..to]` as an `i32`.
pub fn read_i32(v: &Vec<char>, from: usize, to: usize) -> (r: Option<i32>)
    requires
        from <= to <= v@.len(),
    ensures
        ({
            let found = int_in_range(
                v@.subrange(from as int, to as int),
                i32::MIN as int,
                i32::MAX as int,
            );
            match r {
                Some(n) => found == Some(n as int),
                None => found is None,
            }
        }),
{
    match read_int(v, from, to, 0x7fff_ffff) {
        Some(n) => Some(n as i32),
        None => None,
    }
}

/// A whole number without a minus sign read from text, if the text writes
/// one of at most `hi`.
pub open spec fn nat_in_range(s: Seq<char>, hi: int) -> Option<int> {
    match parse_nat(s) {
        Some(n) => if n <= hi {
            Some(n)
        } else {
            None
        },
        None => None,
    }
}

/// Reads `v[from..to]` as a number of at most `limit`; a minus sign is not
/// accepted.
pub fn read_nat(v: &Vec<char>, from: usize, to: usize, limit: u64) -> (r: Option<u64>)
    requires
        from <= to <= v@.len(),
        limit <= DIGITS_LIMIT,
    ensures
        ({
            let found = nat_in_range(v@.subrange(from as int, to as int), limit as int);
            match r {
                Some(n) => found == Some(n as int),
                None => found is None,
            }
        }),
{
    let ghost s = v@.subrange(from as int, to as int);
    if from == to {
        return None;
    }
    assert(s[0] == v@[from as int]);
    let start = if v[from] == '+' {
        assert(s.drop_first() =~= v@.subrange(from + 1, to as int));
        from + 1
    } else {
        from
    };
    match read_digits(v, start, to, limit) {
        Digits::Value(n) => Some(n),
        _ => None,
    }
}

/// Reads `v[from..to]` as a `u8`.
pub fn read_u8(v: &Vec<char>, from: usize, to: usize) -> (r: Option<u8>)
    requires
        from <= to <= v@.len(),
    ensures
        ({
            let found = nat_in_range(v@.subrange(from as int, to as int), 255);
            match r {
                Some(n) => found == Some(n as int),
                None => found is None,
            }
        }),
{
    match read_nat(v, from, to, 255) {
        Some(n) => Some(n as u8),
        None => None,
    }
}

/// The digits behind the point of a number of `frac` thousandths, with the
/// point in front and without zeros at the end; nothing for no thousandths.
pub open spec fn fraction_text(frac: int) -> Seq<char> {
    let d1 = frac / 100;
    let d2 = (frac / 10) % 10;
    let d3 = frac % 10;
    if frac == 0 {
        Seq::empty()
    } else if d3 != 0 {
        seq!['.', digit_char(d1), digit_char(d2), digit_char(d3)]
    } else if d2 != 0 {
        seq!['.', digit_char(d1), digit_char(d2)]
    } else {
        seq!['.', digit_char(d1)]
    }
}

/// A number of `v` thousandths written in decimal: a minus sign if it is
/// negative, the whole part, and the fraction if there is one.
pub open spec fn fixed_text(v: int) -> Seq<char> {
    let mag = if v < 0 {
        -v
    } else {
        v
    };
    (if v < 0 {
        seq!['-']
    } else {
        Seq::<char>::empty()
    }) + decimal_nat((mag / 1000) as nat) + fraction_text(mag % 1000)
}

/// Appends a number of `v` thousandths in decimal.
pub fn append_fixed(out: &mut String, v: i64)
    ensures
        final(out)@ == old(out)@ + fixed_text(v as int),
{
    let mag: u64 = if v == i64::MIN {
        0x8000_0000_0000_0000
    } else if v < 0 {
        (-v) as u64
    } else {
        v as u64
    };
    if v < 0 {
        push_char(out, '-');
    }
    append_decimal_nat(out, mag / 1000);
    let frac = mag % 1000;
    let ghost before = out@;
    if frac != 0 {
        let d1 = frac / 100;
        let d2 = (frac / 10) % 10;
        let d3 = frac % 10;
        push_char(out, '.');
        push_char(out, digit(d1));
        if d3 != 0 {
            push_char(out, digit(d2));
            push_char(out, digit(d3));
        } else if d2 != 0 {
            push_char(out, digit(d2));
        }
    }
    assert(out@ =~= before + fraction_text(frac as int));
    assert(out@ =~= old(out)@ + fixed_text(v as int));
}

/// A number of `v` thousandths in decimal.
pub fn fixed_string(v: i64) -> (s: String)
    ensures
        s@ == fixed_text(v as int),
{
    let mut s = String::new();
    append_fixed(&mut s, v);
    assert(s@ =~= fixed_text(v as int));
    s
}

/// The index of the first point in `s`, or the length of `s` if it has none.
pub open spec fn first_dot(s: Seq<char>) -> int
    decreases s.len(),
{
    if s.len() == 0 {
        0
    } else if s[0] == '.' {
        0
    } else {
        1 + first_dot(s.drop_first())
    }
}

/// The thousandths that the digits behind a point write: the first three
/// count, what follows is cut off.
pub open spec fn thousandths(frac: Seq<char>) -> int {
    (if frac.len() > 0 {
        digit_value(frac[0]) * 100
    } else {
        0
    }) + (if frac.len() > 1 {
        digit_value(frac[1]) * 10
    } else {
        0
    }) + (if frac.len() > 2 {
        digit_value(frac[2])
    } else {
        0
    })
}

/// The digits in front of the first point of `body`.
pub open spec fn whole_part(body: Seq<char>) -> Seq<char> {
    body.subrange(0, first_dot(body))
}

/// The text behind the first point of `body`; nothing if it has no point.
pub open spec fn fraction_part(body: Seq<char>) -> Seq<char> {
    if first_dot(body) < body.len() {
        body.subrange(first_dot(body) + 1, body.len() as int)
    } else {
        Seq::empty()
    }
}

/// The thousandths that a text without sign writes if it is a decimal
/// number: digits, and optionally a point and more digits, with at least one
/// digit in all.
pub open spec fn parse_unsigned_fixed(body: Seq<char>) -> Option<int> {
    let whole = whole_part(body);
    let frac = fraction_part(body);
    if all_digits(whole) && all_digits(frac) && whole.len() + frac.len() > 0 {
        Some(digits_value(whole) * 1000 + thousandths(frac))
    } else {
        None
    }
}

/// The thousandths that a text writes if it is a decimal number with an
/// optional sign. Exponents and the names of special values are not numbers
/// here.
pub open spec fn parse_fixed(s: Seq<char>) -> Option<int> {
    if s.len() > 0 && s[0] == '-' {
        match parse_unsigned_fixed(s.drop_first()) {
            Some(v) => Some(-v),
            None => None,
        }
    } else if s.len() > 0 && s[0] == '+' {
        parse_unsigned_fixed(s.drop_first())
    } else {
        parse_unsigned_fixed(s)
    }
}

/// The largest whole part that `read_fixed` accepts.
pub const FIXED_WHOLE_MAX: u64 = 1_000_000_000_000_000;

/// A number in thousandths read from text, if the text writes one whose
/// whole part is at most `FIXED_WHOLE_MAX`.
pub open spec fn fixed_in_range(s: Seq<char>) -> Option<int> {
    match parse_fixed(s) {
        Some(v) => if -(FIXED_WHOLE_MAX as int) * 1000 - 999 <= v <= FIXED_WHOLE_MAX * 1000 + 999 {
            Some(v)
        } else {
            None
        },
        None => None,
    }
}

/// The index of the first point is the one index before which there is no
/// point and at which there is one, or the end.
proof fn lemma_first_dot_is(s: Seq<char>, p: int)
    requires
        0 <= p <= s.len(),
        forall|i: int| 0 <= i < p ==> #[trigger] s[i] != '.',
        p < s.len() ==> s[p] == '.',
    ensures
        first_dot(s) == p,
    decreases s.len(),
{
    if s.len() > 0 && p > 0 {
        assert(s[0] != '.');
        let d = s.drop_first();
        assert forall|i: int| 0 <= i < p - 1 implies #[trigger] d[i] != '.' by {
            assert(d[i] == s[i + 1]);
        }
        lemma_first_dot_is(d, p - 1);
    }
}

fn digits_only(v: &Vec<char>, from: usize, to: usize) -> (b: bool)
    requires
        from <= to <= v@.len(),
    ensures
        b == all_digits(v@.subrange(from as int, to as int)),
{
    let ghost s = v@.subrange(from as int, to as int);
    let mut i: usize = from;
    while i < to
        invariant
            from <= i <= to <= v@.len(),
            s == v@.subrange(from as int, to as int),
            forall|k: int| 0 <= k < i - from ==> is_digit(#[trigger] s[k]),
        decreases to - i,
    {
        let c = v[i];
        assert(s[i - from] == c);
        if !('0' <= c && c <= '9') {
            return false;
        }
        i += 1;
    }
    true
}

fn digit_at(v: &Vec<char>, i: usize, to: usize) -> (d: i64)
    requires
        i <= to <= v@.len(),
        i < to ==> is_digit(v@[i as int]),
    ensures
        d == if i < to {
            digit_value(v@[i as int])
        } else {
            0
        },
        0 <= d <= 9,
{
    if i < to {
        (v[i] as u32 - 48) as i64
    } else {
        0
    }
}

/// Finds the first point in `v[from..to]`.
fn find_dot(v: &Vec<char>, from: usize, to: usize) -> (dot: usize)
    requires
        from <= to <= v@.len(),
    ensures
        from <= dot <= to,
        dot - from == first_dot(v@.subrange(from as int, to as int)),
{
    let ghost body = v@.subrange(from as int, to as int);
    let mut dot: usize = from;
    while dot < to && v[dot] != '.'
        invariant
            from <= dot <= to <= v@.len(),
            body == v@.subrange(from as int, to as int),
            forall|i: int| 0 <= i < dot - from ==> #[trigger] body[i] != '.',
        decreases to - dot,
    {
        assert(body[dot - from] == v@[dot as int]);
        dot += 1;
    }
    proof {
        if dot < to {
            assert(body[dot - from] == v@[dot as int]);
        }
        lemma_first_dot_is(body, dot - from);
    }
    dot
}

/// The thousandths that the digits `v[from..to]` behind a point write.
fn read_thousandths(v: &Vec<char>, from: usize, to: usize) -> (t: i64)
    requires
        from <= to <= v@.len(),
        all_digits(v@.subrange(from as int, to as int)),
    ensures
        t == thousandths(v@.subrange(from as int, to as int)),
        0 <= t <= 999,
{
    let ghost frac = v@.subrange(from as int, to as int);
    proof {
        if frac.len() > 0 {
            assert(frac[0] == v@[from as int] && is_digit(frac[0]));
        }
        if frac.len() > 1 {
            assert(frac[1] == v@[from + 1] && is_digit(frac[1]));
        }
        if frac.len() > 2 {
            assert(frac[2] == v@[from + 2] && is_digit(frac[2]));
        }
    }
    let d1 = digit_at(v, from, to);
    let d2 = if from < to {
        digit_at(v, from + 1, to)
    } else {
        0
    };
    let d3 = if from < to && from + 1 < to {
        digit_at(v, from + 2, to)
    } else {
        0
    };
    d1 * 100 + d2 * 10 + d3
}

/// A number in thousandths without sign read from text, if the text writes
/// one whose whole part is at most `FIXED_WHOLE_MAX`.
pub open spec fn unsigned_fixed_in_range(body: Seq<char>) -> Option<int> {
    match parse_unsigned_fixed(body) {
        Some(v) => if v <= FIXED_WHOLE_MAX * 1000 + 999 {
            Some(v)
        } else {
            None
        },
        None => None,
    }
}

fn read_unsigned_fixed(v: &Vec<char>, from: usize, to: usize) -> (r: Option<i64>)
    requires
        from <= to <= v@.len(),
    ensures
        ({
            let found = unsigned_fixed_in_range(v@.subrange(from as int, to as int));
            match r {
                Some(n) => found == Some(n as int),
                None => found is None,
            }
        }),
        r is Some ==> 0 <= r->0 <= FIXED_WHOLE_MAX * 1000 + 999,
{
    let ghost body = v@.subrange(from as int, to as int);
    let dot = find_dot(v, from, to);
    let frac_from = if dot < to {
        dot + 1
    } else {
        to
    };
    proof {
        assert(whole_part(body) =~= v@.subrange(from as int, dot as int));
        assert(fraction_part(body) =~= v@.subrange(frac_from as int, to as int));
    }
    if !digits_only(v, frac_from, to) {
        return None;
    }
    if dot == from && frac_from == to {
        return None;
    }
    let t = read_thousandths(v, frac_from, to);
    if dot == from {
        assert(digits_value(whole_part(body)) == 0);
        return Some(t);
    }
    match read_digits(v, from, dot, FIXED_WHOLE_MAX) {
        Digits::Value(n) => Some((n as i64) * 1000 + t),
        Digits::Invalid => None,
        Digits::TooBig => None,
    }
}

/// Reads `v[from..to]` as a number in thousandths.
pub fn read_fixed(v: &Vec<char>, from: usize, to: usize) -> (r: Option<i64>)
    requires
        from <= to <= v@.len(),
    ensures
        ({
            let found = fixed_in_range(v@.subrange(from as int, to as int));
            match r {
                Some(n) => found == Some(n as int),
                None => found is None,
            }
        }),
{
    let ghost s = v@.subrange(from as int, to as int);
    if from < to {
        assert(s[0] == v@[from as int]);
        if v[from] == '-' {
            assert(s.drop_first() =~= v@.subrange(from + 1, to as int));
            return match read_unsigned_fixed(v, from + 1, to) {
                Some(n) => Some(-n),
                None => None,
            };
        } else if v[from] == '+' {
            assert(s.drop_first() =~= v@.subrange(from + 1, to as int));
            return read_unsigned_fixed(v, from + 1, to);
        }
    }
    read_unsigned_fixed(v, from, to)
}

} // verus!
