//! Text as sequences of characters: reading a string into characters, writing
//! characters and numbers into a string.

use vstd::prelude::*;

verus! {

/// The characters of `s`.
pub fn chars_of(s: &str) -> (v: Vec<char>)
    ensures
        v@ == s@,
{
    let mut v: Vec<char> = Vec::new();
    for c in it: s.chars()
        invariant
            it.seq() == s@,
            v@ == it.seq().subrange(0, it.index() as int),
    {
        v.push(c);
        assert(v@ =~= it.seq().subrange(0, it.index() + 1));
    }
    assert(v@ =~= s@);
    v
}

/// Appends one character to a string.
///
/// Trusted: the body is `String::push`, of which the contract states what
/// its documentation says, that the character is appended to the end.
#[verifier::external_body]
pub(crate) fn push_char(s: &mut String, c: char)
    ensures
        final(s)@ == old(s)@.push(c),
{
    s.push(c)
}

/// The string of the characters `v[from..to]`.
pub fn string_of(v: &Vec<char>, from: usize, to: usize) -> (s: String)
    requires
        from <= to <= v@.len(),
    ensures
        s@ == v@.subrange(from as int, to as int),
{
    let mut s = String::new();
    let mut i: usize = from;
    while i < to
        invariant
            from <= i <= to <= v@.len(),
            s@ == v@.subrange(from as int, i as int),
        decreases to - i,
    {
        push_char(&mut s, v[i]);
        i += 1;
        assert(s@ =~= v@.subrange(from as int, i as int));
    }
    s
}

/// The character of the digit `d`.
pub open spec fn digit_char(d: int) -> char {
    if d == 0 {
        '0'
    } else if d == 1 {
        '1'
    } else if d == 2 {
        '2'
    } else if d == 3 {
        '3'
    } else if d == 4 {
        '4'
    } else if d == 5 {
        '5'
    } else if d == 6 {
        '6'
    } else if d == 7 {
        '7'
    } else if d == 8 {
        '8'
    } else {
        '9'
    }
}

/// The decimal digits of `n`, without leading zeros.
pub open spec fn decimal_nat(n: nat) -> Seq<char>
    decreases n,
{
    if n < 10 {
        seq![digit_char(n as int)]
    } else {
        decimal_nat(n / 10).push(digit_char((n % 10) as int))
    }
}

/// `n` written in decimal, with a minus sign in front if it is negative.
pub open spec fn decimal(n: int) -> Seq<char> {
    if n < 0 {
        seq!['-'] + decimal_nat((-n) as nat)
    } else {
        decimal_nat(n as nat)
    }
}

/// The character of the digit `d`.
pub fn digit(d: u64) -> (c: char)
    requires
        d < 10,
    ensures
        c == digit_char(d as int),
{
    if d == 0 {
        '0'
    } else if d == 1 {
        '1'
    } else if d == 2 {
        '2'
    } else if d == 3 {
        '3'
    } else if d == 4 {
        '4'
    } else if d == 5 {
        '5'
    } else if d == 6 {
        '6'
    } else if d == 7 {
        '7'
    } else if d == 8 {
        '8'
    } else {
        '9'
    }
}

/// Appends `n` in decimal.
pub fn append_decimal_nat(out: &mut String, n: u64)
    ensures
        final(out)@ == old(out)@ + decimal_nat(n as nat),
    decreases n,
{
    if n < 10 {
        push_char(out, digit(n));
        assert(out@ =~= old(out)@ + decimal_nat(n as nat));
    } else {
        append_decimal_nat(out, n / 10);
        push_char(out, digit(n % 10));
        assert(out@ =~= old(out)@ + decimal_nat(n as nat));
    }
}

/// Appends `n` in decimal.
pub fn append_decimal(out: &mut String, n: i64)
    ensures
        final(out)@ == old(out)@ + decimal(n as int),
{
    if n < 0 {
        push_char(out, '-');
        let m: u64 = if n == i64::MIN {
            0x8000_0000_0000_0000
        } else {
            (-n) as u64
        };
        append_decimal_nat(out, m);
        assert(out@ =~= old(out)@ + decimal(n as int));
    } else {
        append_decimal_nat(out, n as u64);
    }
}

/// `n` in decimal.
pub fn decimal_string(n: i64) -> (s: String)
    ensures
        s@ == decimal(n as int),
{
    let mut s = String::new();
    append_decimal(&mut s, n);
    assert(s@ =~= decimal(n as int));
    s
}

/// The texts of a vector of strings with one more string at its end.
pub proof fn lemma_texts_push(before: Vec<String>, after: Vec<String>, x: String)
    requires
        after@ == before@.push(x),
    ensures
        after.deep_view() == before.deep_view().push(x@),
{
    assert forall|k: int| 0 <= k < after@.len() implies #[trigger] after.deep_view()[k]
        == before.deep_view().push(x@)[k] by {
        if k < before@.len() {
            assert(after@[k] == before@[k]);
        }
    }
    assert(after.deep_view() =~= before.deep_view().push(x@));
}

/// The parts one after the other, with `sep` between each two.
pub open spec fn joined(parts: Seq<Seq<char>>, sep: Seq<char>) -> Seq<char>
    decreases parts.len(),
{
    if parts.len() == 0 {
        Seq::empty()
    } else if parts.len() == 1 {
        parts[0]
    } else {
        joined(parts.drop_last(), sep) + sep + parts.last()
    }
}

/// Joins strings with a separator.
pub fn join(parts: &Vec<String>, sep: &str) -> (s: String)
    ensures
        s@ == joined(parts.deep_view(), sep@),
{
    let mut s = String::new();
    let mut i: usize = 0;
    let ghost texts = parts.deep_view();
    assert(texts.subrange(0, 0) =~= Seq::<Seq<char>>::empty());
    while i < parts.len()
        invariant
            i <= parts.len(),
            texts == parts.deep_view(),
            texts.len() == parts.len(),
            s@ == joined(texts.subrange(0, i as int), sep@),
        decreases parts.len() - i,
    {
        if i > 0 {
            s.append(sep);
        }
        s.append(parts[i].as_str());
        proof {
            let upto = texts.subrange(0, i + 1);
            assert(upto.drop_last() =~= texts.subrange(0, i as int));
            assert(upto.last() == parts@[i as int]@);
            if i == 0 {
                assert(s@ =~= upto[0]);
            }
        }
        i += 1;
    }
    assert(texts.subrange(0, i as int) =~= texts);
    s
}

/// The code of a character with the upper-case letters A to Z folded onto
/// the lower-case ones.
pub open spec fn folded(c: char) -> int {
    if 'A' <= c <= 'Z' {
        c as u32 + 32
    } else {
        c as u32 as int
    }
}

/// The two texts are equal but for the case of the letters A to Z.
pub open spec fn same_ignoring_case(a: Seq<char>, b: Seq<char>) -> bool {
    &&& a.len() == b.len()
    &&& forall|i: int| 0 <= i < a.len() ==> folded(#[trigger] a[i]) == folded(b[i])
}

fn fold_char(c: char) -> (n: u32)
    ensures
        n == folded(c),
{
    if 'A' <= c && c <= 'Z' {
        c as u32 + 32
    } else {
        c as u32
    }
}

/// Compares two texts without regard to the case of the letters A to Z.
pub fn eq_ignore_case(a: &str, b: &str) -> (r: bool)
    ensures
        r == same_ignoring_case(a@, b@),
{
    let x = chars_of(a);
    let y = chars_of(b);
    if x.len() != y.len() {
        return false;
    }
    let mut i: usize = 0;
    while i < x.len()
        invariant
            i <= x.len(),
            x.len() == y.len(),
            x@ == a@,
            y@ == b@,
            forall|k: int| 0 <= k < i ==> folded(#[trigger] x@[k]) == folded(y@[k]),
        decreases x.len() - i,
    {
        if fold_char(x[i]) != fold_char(y[i]) {
            return false;
        }
        i += 1;
    }
    true
}

/// The pieces of `s` between the occurrences of `sep`. There is always one
/// piece more than there are separators, and pieces may be empty.
pub open spec fn split(s: Seq<char>, sep: char) -> Seq<Seq<char>>
    decreases s.len(),
{
    if s.len() == 0 {
        seq![Seq::<char>::empty()]
    } else {
        let head = split(s.drop_last(), sep);
        if s.last() == sep {
            head.push(Seq::<char>::empty())
        } else {
            head.update(head.len() - 1, head.last().push(s.last()))
        }
    }
}

pub proof fn lemma_split_nonempty(s: Seq<char>, sep: char)
    ensures
        split(s, sep).len() >= 1,
    decreases s.len(),
{
    if s.len() > 0 {
        lemma_split_nonempty(s.drop_last(), sep);
    }
}

/// Splits the characters `v[from..to]` at each `sep`.
pub fn split_range(v: &Vec<char>, from: usize, to: usize, sep: char) -> (pieces: Vec<Vec<char>>)
    requires
        from <= to <= v@.len(),
    ensures
        pieces.deep_view() == split(v@.subrange(from as int, to as int), sep),
{
    let mut pieces: Vec<Vec<char>> = Vec::new();
    let mut cur: Vec<char> = Vec::new();
    let mut i: usize = from;
    assert(v@.subrange(from as int, from as int) =~= Seq::<char>::empty());
    assert(pieces.deep_view().push(cur@) =~= seq![Seq::<char>::empty()]);
    while i < to
        invariant
            from <= i <= to <= v@.len(),
            pieces.deep_view().push(cur@) == split(v@.subrange(from as int, i as int), sep),
        decreases to - i,
    {
        let c = v[i];
        let ghost done = pieces.deep_view();
        let ghost piece = cur@;
        proof {
            let upto = v@.subrange(from as int, i + 1);
            assert(upto.drop_last() =~= v@.subrange(from as int, i as int));
            assert(upto.last() == c);
        }
        if c == sep {
            let ghost before = pieces;
            pieces.push(cur);
            cur = Vec::new();
            proof {
                assert forall|k: int| 0 <= k < pieces@.len() implies #[trigger] pieces.deep_view()[k]
                    == done.push(piece)[k] by {
                    if k < before@.len() {
                        assert(pieces@[k] == before@[k]);
                        assert(done[k] == before@[k].deep_view());
                    }
                }
                assert(pieces.deep_view() =~= done.push(piece));
            }
        } else {
            cur.push(c);
            assert(done.push(cur@) =~= done.push(piece).update(
                done.push(piece).len() - 1,
                done.push(piece).last().push(c),
            ));
        }
        i += 1;
    }
    let ghost done = pieces.deep_view();
    let ghost piece = cur@;
    let ghost before = pieces;
    pieces.push(cur);
    proof {
        assert forall|k: int| 0 <= k < pieces@.len() implies #[trigger] pieces.deep_view()[k]
            == done.push(piece)[k] by {
            if k < before@.len() {
                assert(pieces@[k] == before@[k]);
                assert(done[k] == before@[k].deep_view());
            }
        }
        assert(pieces.deep_view() =~= done.push(piece));
    }
    pieces
}

/// The strings of vectors of characters.
pub fn strings_of(pieces: &Vec<Vec<char>>) -> (out: Vec<String>)
    ensures
        out.deep_view() == pieces.deep_view(),
{
    let mut out: Vec<String> = Vec::new();
    let mut i: usize = 0;
    while i < pieces.len()
        invariant
            i <= pieces.len(),
            out@.len() == i,
            forall|k: int| 0 <= k < i ==> (#[trigger] out@[k])@ == pieces@[k]@,
        decreases pieces.len() - i,
    {
        let piece = &pieces[i];
        let s = string_of(piece, 0, piece.len());
        assert(piece@.subrange(0, piece@.len() as int) =~= piece@);
        out.push(s);
        i += 1;
    }
    assert forall|k: int| 0 <= k < out@.len() implies #[trigger] out.deep_view()[k]
        == pieces.deep_view()[k] by {
        assert(out@[k]@ == pieces@[k]@);
        assert(pieces@[k].deep_view() =~= pieces@[k]@);
    }
    assert(out.deep_view() =~= pieces.deep_view());
    out
}

/// Splits a string at each `sep`.
pub fn split_text(s: &str, sep: char) -> (pieces: Vec<String>)
    ensures
        pieces.deep_view() == split(s@, sep),
{
    let v = chars_of(s);
    assert(v@.subrange(0, v@.len() as int) =~= v@);
    let pieces = split_range(&v, 0, v.len(), sep);
    strings_of(&pieces)
}

/// The text without the occurrences of one character.
pub open spec fn without(s: Seq<char>, c: char) -> Seq<char> {
    s.filter(|x: char| x != c)
}

pub proof fn lemma_without_push(s: Seq<char>, x: char, c: char)
    ensures
        without(s.push(x), c) == if x != c {
            without(s, c).push(x)
        } else {
            without(s, c)
        },
        without(Seq::<char>::empty(), c) == Seq::<char>::empty(),
{
    reveal(Seq::filter);
    assert(s.push(x).drop_last() =~= s);
}

/// A copy of `s` without the occurrences of `c`.
pub fn without_char(s: &str, c: char) -> (out: String)
    ensures
        out@ == without(s@, c),
{
    let v = chars_of(s);
    let mut out = String::new();
    let mut i: usize = 0;
    proof {
        lemma_without_push(Seq::empty(), c, c);
        assert(v@.subrange(0, 0) =~= Seq::<char>::empty());
    }
    while i < v.len()
        invariant
            i <= v.len(),
            v@ == s@,
            out@ == without(v@.subrange(0, i as int), c),
        decreases v.len() - i,
    {
        proof {
            lemma_without_push(v@.subrange(0, i as int), v@[i as int], c);
            assert(v@.subrange(0, i + 1) =~= v@.subrange(0, i as int).push(v@[i as int]));
        }
        if v[i] != c {
            push_char(&mut out, v[i]);
        }
        i += 1;
    }
    assert(v@.subrange(0, i as int) =~= v@);
    out
}

/// White space: the characters that trimming removes.
pub open spec fn is_space(c: char) -> bool {
    ||| '\u{9}' <= c <= '\u{d}'
    ||| c == ' '
    ||| c == '\u{85}'
    ||| c == '\u{a0}'
    ||| c == '\u{1680}'
    ||| '\u{2000}' <= c <= '\u{200a}'
    ||| c == '\u{2028}'
    ||| c == '\u{2029}'
    ||| c == '\u{202f}'
    ||| c == '\u{205f}'
    ||| c == '\u{3000}'
}

pub fn is_space_char(c: char) -> (b: bool)
    ensures
        b == is_space(c),
{
    ('\u{9}' <= c && c <= '\u{d}') || c == ' ' || c == '\u{85}' || c == '\u{a0}' || c
        == '\u{1680}' || ('\u{2000}' <= c && c <= '\u{200a}') || c == '\u{2028}' || c
        == '\u{2029}' || c == '\u{202f}' || c == '\u{205f}' || c == '\u{3000}'
}

/// The text without the white space at its start.
pub open spec fn trim_start(s: Seq<char>) -> Seq<char>
    decreases s.len(),
{
    if s.len() > 0 && is_space(s[0]) {
        trim_start(s.drop_first())
    } else {
        s
    }
}

/// The text without the white space at its end.
pub open spec fn trim_end(s: Seq<char>) -> Seq<char>
    decreases s.len(),
{
    if s.len() > 0 && is_space(s.last()) {
        trim_end(s.drop_last())
    } else {
        s
    }
}

/// The text without the white space at its start and at its end.
pub open spec fn trimmed(s: Seq<char>) -> Seq<char> {
    trim_end(trim_start(s))
}

/// The bounds of `v[from..to]` without the white space at its start and at
/// its end.
pub fn trim_range(v: &Vec<char>, from: usize, to: usize) -> (r: (usize, usize))
    requires
        from <= to <= v@.len(),
    ensures
        from <= r.0 <= r.1 <= to,
        v@.subrange(r.0 as int, r.1 as int) == trimmed(v@.subrange(from as int, to as int)),
{
    let mut a: usize = from;
    while a < to && is_space_char(v[a])
        invariant
            from <= a <= to <= v@.len(),
            trim_start(v@.subrange(from as int, to as int)) == trim_start(
                v@.subrange(a as int, to as int),
            ),
        decreases to - a,
    {
        assert(v@.subrange(a as int, to as int).drop_first() =~= v@.subrange(a + 1, to as int));
        a += 1;
    }
    let mut b: usize = to;
    while b > a && is_space_char(v[b - 1])
        invariant
            a <= b <= to <= v@.len(),
            trim_end(v@.subrange(a as int, to as int)) == trim_end(v@.subrange(a as int, b as int)),
        decreases b,
    {
        assert(v@.subrange(a as int, b as int).drop_last() =~= v@.subrange(a as int, b - 1));
        b -= 1;
    }
    (a, b)
}

/// A copy of the text without the white space at its start and at its end.
pub fn trim_text(s: &str) -> (out: String)
    ensures
        out@ == trimmed(s@),
{
    let v = chars_of(s);
    assert(v@.subrange(0, v@.len() as int) =~= v@);
    let (a, b) = trim_range(&v, 0, v.len());
    string_of(&v, a, b)
}

/// Splits a string at each `sep` and trims every piece.
pub fn split_trimmed(s: &str, sep: char) -> (out: Vec<String>)
    ensures
        out.deep_view() == split(s@, sep).map_values(|p: Seq<char>| trimmed(p)),
{
    let v = chars_of(s);
    assert(v@.subrange(0, v@.len() as int) =~= v@);
    let pieces = split_range(&v, 0, v.len(), sep);
    let mut out: Vec<String> = Vec::new();
    let mut i: usize = 0;
    while i < pieces.len()
        invariant
            i <= pieces.len(),
            out@.len() == i,
            forall|k: int| 0 <= k < i ==> (#[trigger] out@[k])@ == trimmed(pieces@[k]@),
        decreases pieces.len() - i,
    {
        let piece = &pieces[i];
        assert(piece@.subrange(0, piece@.len() as int) =~= piece@);
        let (a, b) = trim_range(piece, 0, piece.len());
        out.push(string_of(piece, a, b));
        i += 1;
    }
    assert forall|k: int| 0 <= k < out@.len() implies #[trigger] out.deep_view()[k] == split(
        s@,
        sep,
    ).map_values(|p: Seq<char>| trimmed(p))[k] by {
        assert(pieces@[k].deep_view() =~= pieces@[k]@);
        assert(pieces.deep_view()[k] == pieces@[k].deep_view());
    }
    assert(out.deep_view() =~= split(s@, sep).map_values(|p: Seq<char>| trimmed(p)));
    out
}

/// The words of a text: its longest runs of characters that are not white
/// space, in order.
pub open spec fn words(s: Seq<char>) -> Seq<Seq<char>>
    decreases s.len(),
{
    if s.len() == 0 {
        Seq::empty()
    } else {
        let head = words(s.drop_last());
        if is_space(s.last()) {
            head
        } else if s.len() >= 2 && !is_space(s[s.len() - 2]) && head.len() > 0 {
            head.update(head.len() - 1, head.last().push(s.last()))
        } else {
            head.push(seq![s.last()])
        }
    }
}

/// The words of a string.
pub fn split_words(s: &str) -> (out: Vec<String>)
    ensures
        out.deep_view() == words(s@),
{
    let v = chars_of(s);
    let mut out: Vec<String> = Vec::new();
    let mut cur = String::new();
    let mut open = false;
    let mut i: usize = 0;
    assert(v@.subrange(0, 0) =~= Seq::<char>::empty());
    assert(out.deep_view() =~= Seq::<Seq<char>>::empty());
    while i < v.len()
        invariant
            i <= v.len(),
            v@ == s@,
            open == (i > 0 && !is_space(v@[i - 1])),
            !open ==> out.deep_view() == words(v@.subrange(0, i as int)),
            open ==> out.deep_view().push(cur@) == words(v@.subrange(0, i as int)),
        decreases v.len() - i,
    {
        let c = v[i];
        let ghost done = out.deep_view();
        let ghost word = cur@;
        proof {
            let upto = v@.subrange(0, i + 1);
            assert(upto.drop_last() =~= v@.subrange(0, i as int));
            assert(upto.last() == c);
            if i > 0 {
                assert(upto[upto.len() - 2] == v@[i - 1]);
            }
        }
        if is_space_char(c) {
            if open {
                let ghost before = out;
                let ghost closed = cur;
                out.push(cur);
                cur = String::new();
                proof {
                    lemma_texts_push(before, out, closed);
                }
            }
            open = false;
        } else {
            if !open {
                cur = String::new();
                assert(done.push(seq![c]) =~= done.push(Seq::<char>::empty().push(c)));
            } else {
                assert(done.push(word.push(c)) =~= done.push(word).update(
                    done.push(word).len() - 1,
                    done.push(word).last().push(c),
                ));
            }
            push_char(&mut cur, c);
            open = true;
        }
        i += 1;
    }
    assert(v@.subrange(0, i as int) =~= v@);
    if open {
        let ghost before = out;
        let ghost word = cur;
        out.push(cur);
        proof {
            lemma_texts_push(before, out, word);
        }
    }
    out
}

/// Appends a string to a vector of strings.
pub fn push_text(lines: &mut Vec<String>, line: String)
    ensures
        final(lines).deep_view() == old(lines).deep_view().push(line@),
{
    let ghost before = *lines;
    lines.push(line);
    proof {
        lemma_texts_push(before, *lines, line);
    }
}

/// The lines with one more, if there is one more.
pub open spec fn with_optional(lines: Seq<Seq<char>>, line: Option<Seq<char>>) -> Seq<Seq<char>> {
    match line {
        Some(l) => lines.push(l),
        None => lines,
    }
}

/// The text of a string that may be missing.
pub open spec fn optional_text(s: Option<String>) -> Option<Seq<char>> {
    match s {
        Some(s) => Some(s@),
        None => None,
    }
}

/// Appends a string to a vector of strings, if there is one.
pub fn push_optional(lines: &mut Vec<String>, line: Option<String>)
    ensures
        final(lines).deep_view() == with_optional(old(lines).deep_view(), optional_text(line)),
{
    match line {
        Some(l) => {
            push_text(lines, l);
        },
        None => {},
    }
}

/// Appends copies of strings to a vector of strings.
pub fn push_all(lines: &mut Vec<String>, more: &Vec<String>)
    ensures
        final(lines).deep_view() == old(lines).deep_view() + more.deep_view(),
{
    let mut i: usize = 0;
    assert(lines.deep_view() =~= old(lines).deep_view() + more.deep_view().subrange(0, 0));
    while i < more.len()
        invariant
            i <= more.len(),
            lines.deep_view() == old(lines).deep_view() + more.deep_view().subrange(0, i as int),
        decreases more.len() - i,
    {
        let ghost before = lines.deep_view();
        push_text(lines, more[i].clone());
        i += 1;
        assert(lines.deep_view() =~= old(lines).deep_view() + more.deep_view().subrange(
            0,
            i as int,
        ));
    }
    assert(more.deep_view().subrange(0, i as int) =~= more.deep_view());
}

} // verus!
