//! Sections of `Key: value` lines, as the INI-like format has them.

use vstd::prelude::*;
use crate::utils::numbers::{fixed_in_range, int_in_range, nat_in_range, read_fixed, read_i32, read_u8};
use crate::utils::text::{
    chars_of, lemma_split_nonempty, push_char, split, split_range, string_of, trim_range, trimmed,
};

verus! {

/// The index of the first `c` in `s`, or the length of `s` if it has none.
pub open spec fn first_of(s: Seq<char>, c: char) -> int
    decreases s.len(),
{
    if s.len() == 0 {
        0
    } else if s[0] == c {
        0
    } else {
        1 + first_of(s.drop_first(), c)
    }
}

pub proof fn lemma_first_of_is(s: Seq<char>, c: char, p: int)
    requires
        0 <= p <= s.len(),
        forall|i: int| 0 <= i < p ==> #[trigger] s[i] != c,
        p < s.len() ==> s[p] == c,
    ensures
        first_of(s, c) == p,
    decreases s.len(),
{
    if s.len() > 0 && p > 0 {
        assert(s[0] != c);
        let d = s.drop_first();
        assert forall|i: int| 0 <= i < p - 1 implies #[trigger] d[i] != c by {
            assert(d[i] == s[i + 1]);
        }
        lemma_first_of_is(d, c, p - 1);
    }
}

/// Finds the first `c` in `v[from..to]`.
pub fn find_char(v: &Vec<char>, from: usize, to: usize, c: char) -> (at: usize)
    requires
        from <= to <= v@.len(),
    ensures
        from <= at <= to,
        at - from == first_of(v@.subrange(from as int, to as int), c),
{
    let ghost body = v@.subrange(from as int, to as int);
    let mut at: usize = from;
    while at < to && v[at] != c
        invariant
            from <= at <= to <= v@.len(),
            body == v@.subrange(from as int, to as int),
            forall|i: int| 0 <= i < at - from ==> #[trigger] body[i] != c,
        decreases to - at,
    {
        assert(body[at - from] == v@[at as int]);
        at += 1;
    }
    proof {
        if at < to {
            assert(body[at - from] == v@[at as int]);
        }
        lemma_first_of_is(body, c, at - from);
    }
    at
}

/// The lines of a text, each trimmed. A line ends at a line feed; what
/// stands behind the last line feed is a line too unless it is empty.
pub open spec fn trimmed_lines(s: Seq<char>) -> Seq<Seq<char>> {
    let parts = split(s, '\n');
    let kept = if parts.last().len() == 0 {
        parts.drop_last()
    } else {
        parts
    };
    kept.map_values(|line: Seq<char>| trimmed(line))
}

/// The trimmed lines of a text.
pub fn read_lines(text: &str) -> (lines: Vec<Vec<char>>)
    ensures
        lines.deep_view() == trimmed_lines(text@),
{
    let v = chars_of(text);
    assert(v@.subrange(0, v@.len() as int) =~= v@);
    let parts = split_range(&v, 0, v.len(), '\n');
    proof {
        lemma_split_nonempty(v@, '\n');
    }
    let n = if parts[parts.len() - 1].len() == 0 {
        parts.len() - 1
    } else {
        parts.len()
    };
    proof {
        assert(parts.deep_view()[parts.len() - 1] == parts@[parts.len() - 1].deep_view());
        assert(parts@[parts.len() - 1].deep_view() =~= parts@[parts.len() - 1]@);
    }
    let mut lines: Vec<Vec<char>> = Vec::new();
    let mut i: usize = 0;
    while i < n
        invariant
            i <= n <= parts.len(),
            lines@.len() == i,
            forall|k: int| 0 <= k < i ==> (#[trigger] lines@[k])@ == trimmed(parts@[k]@),
        decreases n - i,
    {
        let part = &parts[i];
        assert(part@.subrange(0, part@.len() as int) =~= part@);
        let (a, b) = trim_range(part, 0, part.len());
        let mut line: Vec<char> = Vec::new();
        let mut j: usize = a;
        while j < b
            invariant
                a <= j <= b <= part@.len(),
                line@ == part@.subrange(a as int, j as int),
            decreases b - j,
        {
            line.push(part[j]);
            j += 1;
            assert(line@ =~= part@.subrange(a as int, j as int));
        }
        lines.push(line);
        i += 1;
    }
    proof {
        assert forall|k: int| 0 <= k < lines@.len() implies #[trigger] lines.deep_view()[k]
            == trimmed_lines(text@)[k] by {
            assert(lines@[k].deep_view() =~= lines@[k]@);
            assert(parts@[k].deep_view() =~= parts@[k]@);
            assert(parts.deep_view()[k] == parts@[k].deep_view());
        }
        assert(lines.deep_view() =~= trimmed_lines(text@));
    }
    lines
}

/// Whether a line begins with `//`.
pub open spec fn is_comment(line: Seq<char>) -> bool {
    line.len() >= 2 && line[0] == '/' && line[1] == '/'
}

/// Whether a line counts: it is neither empty nor a comment.
pub open spec fn counts(line: Seq<char>) -> bool {
    line.len() > 0 && !is_comment(line)
}

pub fn line_counts(line: &Vec<char>) -> (b: bool)
    ensures
        b == counts(line@),
{
    line.len() > 0 && !(line.len() >= 2 && line[0] == '/' && line[1] == '/')
}

/// The entry of a line with a colon: the trimmed texts before and behind the
/// first colon.
pub open spec fn entry_of(line: Seq<char>) -> (Seq<char>, Seq<char>) {
    let colon = first_of(line, ':');
    (trimmed(line.subrange(0, colon)), trimmed(line.subrange(colon + 1, line.len() as int)))
}

/// The entries of the lines that count and have a colon, in order.
pub open spec fn entries_of(lines: Seq<Seq<char>>) -> Seq<(Seq<char>, Seq<char>)>
    decreases lines.len(),
{
    if lines.len() == 0 {
        Seq::empty()
    } else {
        let line = lines.last();
        let before = entries_of(lines.drop_last());
        if counts(line) && first_of(line, ':') < line.len() {
            before.push(entry_of(line))
        } else {
            before
        }
    }
}

/// The entries of a section.
pub open spec fn entries(text: Seq<char>) -> Seq<(Seq<char>, Seq<char>)> {
    entries_of(trimmed_lines(text))
}

/// The entries of a section as read: keys and values as characters.
pub struct Entries {
    pub pairs: Vec<(Vec<char>, Vec<char>)>,
}

impl Entries {
    pub open spec fn view(&self) -> Seq<(Seq<char>, Seq<char>)> {
        self.pairs@.map_values(|p: (Vec<char>, Vec<char>)| (p.0@, p.1@))
    }
}

fn copy_range(v: &Vec<char>, from: usize, to: usize) -> (out: Vec<char>)
    requires
        from <= to <= v@.len(),
    ensures
        out@ == v@.subrange(from as int, to as int),
{
    let mut out: Vec<char> = Vec::new();
    let mut j: usize = from;
    while j < to
        invariant
            from <= j <= to <= v@.len(),
            out@ == v@.subrange(from as int, j as int),
        decreases to - j,
    {
        out.push(v[j]);
        j += 1;
        assert(out@ =~= v@.subrange(from as int, j as int));
    }
    out
}

/// Reads the entries of a section.
pub fn read_entries(text: &str) -> (e: Entries)
    ensures
        e.view() == entries(text@),
{
    let lines = read_lines(text);
    let ghost all = lines.deep_view();
    let mut pairs: Vec<(Vec<char>, Vec<char>)> = Vec::new();
    let mut i: usize = 0;
    assert(all.subrange(0, 0) =~= Seq::<Seq<char>>::empty());
    while i < lines.len()
        invariant
            i <= lines.len(),
            all == lines.deep_view(),
            all.len() == lines@.len(),
            pairs@.map_values(|p: (Vec<char>, Vec<char>)| (p.0@, p.1@)) == entries_of(
                all.subrange(0, i as int),
            ),
        decreases lines.len() - i,
    {
        let line = &lines[i];
        proof {
            assert(all.subrange(0, i + 1).drop_last() =~= all.subrange(0, i as int));
            assert(all[i as int] == lines@[i as int].deep_view());
            assert(lines@[i as int].deep_view() =~= line@);
            assert(all.subrange(0, i + 1).last() == line@);
            assert(line@.subrange(0, line@.len() as int) =~= line@);
        }
        if line_counts(line) {
            let colon = find_char(line, 0, line.len(), ':');
            if colon < line.len() {
                let (a, b) = trim_range(line, 0, colon);
                let (c, d) = trim_range(line, colon + 1, line.len());
                let key = copy_range(line, a, b);
                let value = copy_range(line, c, d);
                let ghost before = pairs@;
                pairs.push((key, value));
                assert(pairs@.map_values(|p: (Vec<char>, Vec<char>)| (p.0@, p.1@))
                    =~= before.map_values(|p: (Vec<char>, Vec<char>)| (p.0@, p.1@)).push(
                    entry_of(line@),
                ));
            }
        }
        i += 1;
    }
    assert(all.subrange(0, i as int) =~= all);
    Entries { pairs }
}

/// The value of the last entry with the key `key`, if there is one.
pub open spec fn lookup(e: Seq<(Seq<char>, Seq<char>)>, key: Seq<char>) -> Option<Seq<char>>
    decreases e.len(),
{
    if e.len() == 0 {
        None
    } else if e.last().0 == key {
        Some(e.last().1)
    } else {
        lookup(e.drop_last(), key)
    }
}

fn same_chars(a: &Vec<char>, b: &Vec<char>) -> (r: bool)
    ensures
        r == (a@ == b@),
{
    if a.len() != b.len() {
        return false;
    }
    let mut i: usize = 0;
    while i < a.len()
        invariant
            i <= a.len(),
            a.len() == b.len(),
            forall|k: int| 0 <= k < i ==> a@[k] == b@[k],
        decreases a.len() - i,
    {
        if a[i] != b[i] {
            return false;
        }
        i += 1;
    }
    assert(a@ =~= b@);
    true
}

impl Entries {
    /// The position of the last entry with the key `key`.
    pub fn find(&self, key: &str) -> (at: Option<usize>)
        ensures
            match at {
                Some(i) => i < self.pairs@.len() && lookup(self.view(), key@) == Some(
                    self.pairs@[i as int].1@,
                ),
                None => lookup(self.view(), key@) is None,
            },
    {
        let wanted = chars_of(key);
        let mut i: usize = self.pairs.len();
        assert(self.view().subrange(0, i as int) =~= self.view());
        while i > 0
            invariant
                i <= self.pairs@.len(),
                wanted@ == key@,
                lookup(self.view(), key@) == lookup(self.view().subrange(0, i as int), key@),
            decreases i,
        {
            proof {
                assert(self.view().subrange(0, i as int).drop_last() =~= self.view().subrange(
                    0,
                    i - 1,
                ));
                assert(self.view().subrange(0, i as int).last() == (
                    self.pairs@[i - 1].0@,
                    self.pairs@[i - 1].1@,
                ));
            }
            if same_chars(&self.pairs[i - 1].0, &wanted) {
                return Some(i - 1);
            }
            i -= 1;
        }
        None
    }

    /// The value of the last entry with the key `key`, as a string.
    pub fn text(&self, key: &str) -> (value: Option<String>)
        ensures
            match value {
                Some(s) => lookup(self.view(), key@) == Some(s@),
                None => lookup(self.view(), key@) is None,
            },
    {
        match self.find(key) {
            Some(i) => {
                let v = &self.pairs[i].1;
                assert(v@.subrange(0, v@.len() as int) =~= v@);
                Some(string_of(v, 0, v.len()))
            },
            None => None,
        }
    }
}

/// The message for a value that cannot be read.
pub open spec fn invalid_value(name: Seq<char>, value: Seq<char>) -> Seq<char> {
    "Invalid "@ + name + " value: "@ + value
}

pub fn invalid_value_message(name: &str, value: &Vec<char>) -> (m: String)
    ensures
        m@ == invalid_value(name@, value@),
{
    let mut m = String::new();
    m.append("Invalid ");
    m.append(name);
    m.append(" value: ");
    assert(value@.subrange(0, value@.len() as int) =~= value@);
    m.append(string_of(value, 0, value.len()).as_str());
    assert(m@ =~= invalid_value(name@, value@));
    m
}

/// The whole number under `key`, the default where there is no such entry,
/// or the message for a value that is no `i32`.
pub open spec fn i32_entry(e: Seq<(Seq<char>, Seq<char>)>, key: Seq<char>, default: i32) -> Result<
    i32,
    Seq<char>,
> {
    match lookup(e, key) {
        None => Ok(default),
        Some(value) => match int_in_range(value, i32::MIN as int, i32::MAX as int) {
            Some(n) => Ok(n as i32),
            None => Err(invalid_value(key, value)),
        },
    }
}

/// The number in thousandths under `key`, the default where there is no such
/// entry, or the message for a value that is no such number.
pub open spec fn fixed_entry(e: Seq<(Seq<char>, Seq<char>)>, key: Seq<char>, default: i64) -> Result<
    i64,
    Seq<char>,
> {
    match lookup(e, key) {
        None => Ok(default),
        Some(value) => match fixed_in_range(value) {
            Some(n) => Ok(n as i64),
            None => Err(invalid_value(key, value)),
        },
    }
}

/// The number under `key` as a `u8`, the default where there is no such
/// entry, or the message for a value that is no `u8`.
pub open spec fn u8_entry(e: Seq<(Seq<char>, Seq<char>)>, key: Seq<char>, default: u8) -> Result<
    u8,
    Seq<char>,
> {
    match lookup(e, key) {
        None => Ok(default),
        Some(value) => match nat_in_range(value, 255) {
            Some(n) => Ok(n as u8),
            None => Err(invalid_value(key, value)),
        },
    }
}

/// `r` is the result `want`, with the message as a string.
pub open spec fn is_result<T>(r: Result<T, String>, want: Result<T, Seq<char>>) -> bool {
    match r {
        Ok(v) => want == Ok::<T, Seq<char>>(v),
        Err(m) => want == Err::<T, Seq<char>>(m@),
    }
}

impl Entries {
    pub fn i32_value(&self, key: &str, default: i32) -> (r: Result<i32, String>)
        ensures
            is_result(r, i32_entry(self.view(), key@, default)),
    {
        match self.find(key) {
            None => Ok(default),
            Some(i) => {
                let v = &self.pairs[i].1;
                assert(v@.subrange(0, v@.len() as int) =~= v@);
                match read_i32(v, 0, v.len()) {
                    Some(n) => Ok(n),
                    None => Err(invalid_value_message(key, v)),
                }
            },
        }
    }

    pub fn fixed_value(&self, key: &str, default: i64) -> (r: Result<i64, String>)
        ensures
            is_result(r, fixed_entry(self.view(), key@, default)),
    {
        match self.find(key) {
            None => Ok(default),
            Some(i) => {
                let v = &self.pairs[i].1;
                assert(v@.subrange(0, v@.len() as int) =~= v@);
                match read_fixed(v, 0, v.len()) {
                    Some(n) => Ok(n),
                    None => Err(invalid_value_message(key, v)),
                }
            },
        }
    }

    pub fn u8_value(&self, key: &str, default: u8) -> (r: Result<u8, String>)
        ensures
            is_result(r, u8_entry(self.view(), key@, default)),
    {
        match self.find(key) {
            None => Ok(default),
            Some(i) => {
                let v = &self.pairs[i].1;
                assert(v@.subrange(0, v@.len() as int) =~= v@);
                match read_u8(v, 0, v.len()) {
                    Some(n) => Ok(n),
                    None => Err(invalid_value_message(key, v)),
                }
            },
        }
    }
}

/// The flag under `key`: a whole number, where anything but 0 is yes; the
/// default where there is no such entry.
pub open spec fn flag_entry(e: Seq<(Seq<char>, Seq<char>)>, key: Seq<char>, default: bool) -> Result<
    bool,
    Seq<char>,
> {
    match lookup(e, key) {
        None => Ok(default),
        Some(value) => match int_in_range(value, i32::MIN as int, i32::MAX as int) {
            Some(n) => Ok(n != 0),
            None => Err(invalid_value(key, value)),
        },
    }
}

/// The flag under `key`, if there is such an entry.
pub open spec fn optional_flag(e: Seq<(Seq<char>, Seq<char>)>, key: Seq<char>) -> Result<
    Option<bool>,
    Seq<char>,
> {
    match lookup(e, key) {
        None => Ok(None),
        Some(value) => match int_in_range(value, i32::MIN as int, i32::MAX as int) {
            Some(n) => Ok(Some(n != 0)),
            None => Err(invalid_value(key, value)),
        },
    }
}

/// The whole number under `key`, if there is such an entry.
pub open spec fn optional_i32(
    e: Seq<(Seq<char>, Seq<char>)>,
    key: Seq<char>,
    default: Option<i32>,
) -> Result<Option<i32>, Seq<char>> {
    match lookup(e, key) {
        None => Ok(default),
        Some(value) => match int_in_range(value, i32::MIN as int, i32::MAX as int) {
            Some(n) => Ok(Some(n as i32)),
            None => Err(invalid_value(key, value)),
        },
    }
}

/// The number in thousandths under `key`, if there is such an entry.
pub open spec fn optional_fixed(
    e: Seq<(Seq<char>, Seq<char>)>,
    key: Seq<char>,
    default: Option<i64>,
) -> Result<Option<i64>, Seq<char>> {
    match lookup(e, key) {
        None => Ok(default),
        Some(value) => match fixed_in_range(value) {
            Some(n) => Ok(Some(n as i64)),
            None => Err(invalid_value(key, value)),
        },
    }
}

/// `s` is the text `want`, or nothing where there is none.
pub open spec fn is_text_option(s: Option<String>, want: Option<Seq<char>>) -> bool {
    match s {
        Some(s) => want == Some(s@),
        None => want is None,
    }
}

impl Entries {
    pub fn flag_value(&self, key: &str, default: bool) -> (r: Result<bool, String>)
        ensures
            is_result(r, flag_entry(self.view(), key@, default)),
    {
        match self.find(key) {
            None => Ok(default),
            Some(i) => {
                let v = &self.pairs[i].1;
                assert(v@.subrange(0, v@.len() as int) =~= v@);
                match read_i32(v, 0, v.len()) {
                    Some(n) => Ok(n != 0),
                    None => Err(invalid_value_message(key, v)),
                }
            },
        }
    }

    pub fn optional_flag_value(&self, key: &str) -> (r: Result<Option<bool>, String>)
        ensures
            is_result(r, optional_flag(self.view(), key@)),
    {
        match self.find(key) {
            None => Ok(None),
            Some(i) => {
                let v = &self.pairs[i].1;
                assert(v@.subrange(0, v@.len() as int) =~= v@);
                match read_i32(v, 0, v.len()) {
                    Some(n) => Ok(Some(n != 0)),
                    None => Err(invalid_value_message(key, v)),
                }
            },
        }
    }

    pub fn optional_i32_value(&self, key: &str, default: Option<i32>) -> (r: Result<
        Option<i32>,
        String,
    >)
        ensures
            is_result(r, optional_i32(self.view(), key@, default)),
    {
        match self.find(key) {
            None => Ok(default),
            Some(i) => {
                let v = &self.pairs[i].1;
                assert(v@.subrange(0, v@.len() as int) =~= v@);
                match read_i32(v, 0, v.len()) {
                    Some(n) => Ok(Some(n)),
                    None => Err(invalid_value_message(key, v)),
                }
            },
        }
    }

    pub fn optional_fixed_value(&self, key: &str, default: Option<i64>) -> (r: Result<
        Option<i64>,
        String,
    >)
        ensures
            is_result(r, optional_fixed(self.view(), key@, default)),
    {
        match self.find(key) {
            None => Ok(default),
            Some(i) => {
                let v = &self.pairs[i].1;
                assert(v@.subrange(0, v@.len() as int) =~= v@);
                match read_fixed(v, 0, v.len()) {
                    Some(n) => Ok(Some(n)),
                    None => Err(invalid_value_message(key, v)),
                }
            },
        }
    }

    /// The characters of the value of the last entry with the key `key`.
    pub fn chars(&self, key: &str) -> (value: Option<&Vec<char>>)
        ensures
            match value {
                Some(v) => lookup(self.view(), key@) == Some(v@),
                None => lookup(self.view(), key@) is None,
            },
    {
        match self.find(key) {
            Some(i) => Some(&self.pairs[i].1),
            None => None,
        }
    }
}

/// Whether a line is the header of a section: it begins with `[` and ends
/// with `]`.
pub open spec fn is_header(line: Seq<char>) -> bool {
    line.len() >= 2 && line[0] == '[' && line.last() == ']'
}

/// The scan of a file for its sections: the name of the section that is
/// open, its content so far, and the sections that are closed.
pub ghost struct Scan {
    pub section: Seq<char>,
    pub content: Seq<char>,
    pub found: Seq<(Seq<char>, Seq<char>)>,
}

impl Scan {
    pub open spec fn start() -> Self {
        Scan { section: Seq::empty(), content: Seq::empty(), found: Seq::empty() }
    }

    /// Whether the open section counts: it has a name and a content.
    pub open spec fn is_full(self) -> bool {
        self.content.len() > 0 && self.section.len() > 0
    }

    /// The closed sections, and the open one if it counts.
    pub open spec fn closed(self) -> Seq<(Seq<char>, Seq<char>)> {
        if self.is_full() {
            self.found.push((self.section, self.content))
        } else {
            self.found
        }
    }

    /// The scan after one more line. A header closes the open section, if it
    /// counts, and opens the next; content that stands under no name stays
    /// and goes to the section that opens next. Any other line joins the
    /// content, behind a line feed if there is content already.
    pub open spec fn with_line(self, line: Seq<char>) -> Self {
        if is_header(line) {
            Scan {
                section: line.subrange(1, line.len() - 1),
                content: if self.is_full() {
                    Seq::empty()
                } else {
                    self.content
                },
                found: self.closed(),
            }
        } else {
            Scan {
                content: if self.content.len() > 0 {
                    self.content + seq!['\n'] + line
                } else {
                    line
                },
                ..self
            }
        }
    }

    /// The scan after the lines.
    pub open spec fn with_lines(self, lines: Seq<Seq<char>>) -> Self
        decreases lines.len(),
    {
        if lines.len() == 0 {
            self
        } else {
            self.with_lines(lines.drop_last()).with_line(lines.last())
        }
    }
}

/// The sections of a file, each with its name and its content, in order.
pub open spec fn sections_of(text: Seq<char>) -> Seq<(Seq<char>, Seq<char>)> {
    Scan::start().with_lines(trimmed_lines(text)).closed()
}

/// The texts of pairs of strings.
pub open spec fn pair_texts(pairs: Seq<(String, String)>) -> Seq<(Seq<char>, Seq<char>)> {
    pairs.map_values(|p: (String, String)| (p.0@, p.1@))
}

/// Reads the sections of a file.
pub fn process_bracket_sections(string: &str) -> (sections: Vec<(String, String)>)
    ensures
        pair_texts(sections@) == sections_of(string@),
{
    let lines = read_lines(string);
    let ghost all = lines.deep_view();
    let mut found: Vec<(String, String)> = Vec::new();
    let mut section = String::new();
    let mut content = String::new();
    let mut content_len: usize = 0;
    let mut section_len: usize = 0;
    let mut i: usize = 0;
    proof {
        assert(all.subrange(0, 0) =~= Seq::<Seq<char>>::empty());
        assert(pair_texts(found@) =~= Seq::<(Seq<char>, Seq<char>)>::empty());
        assert(section@ =~= Seq::<char>::empty());
        assert(content@ =~= Seq::<char>::empty());
    }
    while i < lines.len()
        invariant
            i <= lines.len(),
            all == lines.deep_view(),
            all == trimmed_lines(string@),
            (content_len > 0) == (content@.len() > 0),
            (section_len > 0) == (section@.len() > 0),
            Scan::start().with_lines(all.subrange(0, i as int)) == (Scan {
                section: section@,
                content: content@,
                found: pair_texts(found@),
            }),
        decreases lines.len() - i,
    {
        let line = &lines[i];
        proof {
            assert(all.subrange(0, i + 1).drop_last() =~= all.subrange(0, i as int));
            assert(all[i as int] == lines@[i as int].deep_view());
            assert(lines@[i as int].deep_view() =~= line@);
            assert(all.subrange(0, i + 1).last() == line@);
        }
        let ghost before = Scan { section: section@, content: content@, found: pair_texts(found@) };
        let ghost after = before.with_line(line@);
        if line.len() >= 2 && line[0] == '[' && line[line.len() - 1] == ']' {
            assert(is_header(line@));
            if content_len > 0 && section_len > 0 {
                let ghost pairs = found@;
                found.push((section, content));
                content = String::new();
                content_len = 0;
                proof {
                    assert(pair_texts(found@) =~= pair_texts(pairs).push(
                        (found@.last().0@, found@.last().1@),
                    ));
                    assert(content@ =~= Seq::<char>::empty());
                }
            }
            section = string_of(line, 1, line.len() - 1);
            section_len = line.len() - 2;
            assert(section@ == after.section);
            assert(content@ == after.content);
            assert(pair_texts(found@) == after.found);
        } else {
            assert(!is_header(line@));
            if content_len > 0 {
                push_char(&mut content, '\n');
            }
            assert(line@.subrange(0, line@.len() as int) =~= line@);
            content.append(string_of(line, 0, line.len()).as_str());
            if line.len() > 0 {
                content_len = 1;
            }
            assert(content@ =~= after.content);
        }
        i += 1;
    }
    assert(all.subrange(0, i as int) =~= all);
    if content_len > 0 && section_len > 0 {
        let ghost before = found@;
        found.push((section, content));
        assert(pair_texts(found@) =~= pair_texts(before).push(
            (found@.last().0@, found@.last().1@),
        ));
    }
    found
}

/// The position of the last section of a name.
pub fn last_section(sections: &Vec<(String, String)>, name: &str) -> (at: Option<usize>)
    ensures
        match at {
            Some(i) => i < sections@.len() && sections@[i as int].0@ == name@ && lookup(
                pair_texts(sections@),
                name@,
            ) == Some(sections@[i as int].1@),
            None => lookup(pair_texts(sections@), name@) is None,
        },
{
    let ghost all = pair_texts(sections@);
    let mut i: usize = sections.len();
    assert(all.subrange(0, i as int) =~= all);
    while i > 0
        invariant
            i <= sections@.len(),
            all == pair_texts(sections@),
            lookup(all, name@) == lookup(all.subrange(0, i as int), name@),
        decreases i,
    {
        proof {
            assert(all.subrange(0, i as int).drop_last() =~= all.subrange(0, i - 1));
            assert(all.subrange(0, i as int).last() == (
                sections@[i - 1].0@,
                sections@[i - 1].1@,
            ));
        }
        if sections[i - 1].0 == name.to_owned() {
            return Some(i - 1);
        }
        i -= 1;
    }
    None
}

/// The content of the last section of a name.
pub fn section_text(sections: &Vec<(String, String)>, name: &str) -> (content: Option<String>)
    ensures
        match content {
            Some(c) => lookup(pair_texts(sections@), name@) == Some(c@),
            None => lookup(pair_texts(sections@), name@) is None,
        },
{
    match last_section(sections, name) {
        Some(i) => Some(sections[i].1.clone()),
        None => None,
    }
}

} // verus!
