//! Character-level text utilities: conversion between strings and character
//! vectors, trimming, splitting, prefixes, and decimal digits.

use vstd::prelude::*;

verus! {

/// `String::push`: the character is appended at the end.
pub assume_specification[ String::push ](s: &mut String, c: char)
    ensures
        final(s)@ == old(s)@.push(c),
;

/// What `str::to_lowercase` returns for the text `s`.
pub uninterp spec fn lowercase_of(s: Seq<char>) -> Seq<char>;

/// What `str::to_uppercase` returns for the text `s`.
pub uninterp spec fn uppercase_of(s: Seq<char>) -> Seq<char>;

/// Whether every character of the text is an ASCII character.
pub open spec fn is_ascii_text(s: Seq<char>) -> bool {
    forall|i: int| 0 <= i < s.len() ==> #[trigger] s[i] <= '\x7f'
}

/// The small letter for an ASCII capital, every other character as it is.
pub open spec fn ascii_lower_char(c: char) -> char {
    if 'A' <= c <= 'Z' {
        ((c as u8 + 32) as u8) as char
    } else {
        c
    }
}

/// The capital for an ASCII small letter, every other character as it is.
pub open spec fn ascii_upper_char(c: char) -> char {
    if 'a' <= c <= 'z' {
        ((c as u8 - 32) as u8) as char
    } else {
        c
    }
}

/// The text with its ASCII capitals made small, character for character.
pub open spec fn ascii_lower(s: Seq<char>) -> Seq<char> {
    Seq::new(s.len(), |i: int| ascii_lower_char(s[i]))
}

/// The text with its ASCII small letters made capitals, character for
/// character.
pub open spec fn ascii_upper(s: Seq<char>) -> Seq<char> {
    Seq::new(s.len(), |i: int| ascii_upper_char(s[i]))
}

/// The text in lower case. For a text of ASCII characters this is the text
/// with `A` to `Z` made small; for any other text it is what the Unicode
/// mapping of `str::to_lowercase` gives.
pub open spec fn lower_case(s: Seq<char>) -> Seq<char> {
    if is_ascii_text(s) {
        ascii_lower(s)
    } else {
        lowercase_of(s)
    }
}

/// The text in upper case. For a text of ASCII characters this is the text
/// with `a` to `z` made capitals; for any other text it is what the Unicode
/// mapping of `str::to_uppercase` gives.
pub open spec fn upper_case(s: Seq<char>) -> Seq<char> {
    if is_ascii_text(s) {
        ascii_upper(s)
    } else {
        uppercase_of(s)
    }
}

/// `str::to_lowercase`: the Unicode lowercase mapping of the whole text, a
/// function of the text alone. Among the ASCII characters Unicode maps `A` to
/// `Z` to `a` to `z` and every other one to itself, so a text of ASCII
/// characters comes back with its capitals made small and nothing else
/// changed.
#[verifier::external_body]
pub(crate) fn to_lowercase(s: &str) -> (r: String)
    ensures
        r@ == lowercase_of(s@),
        is_ascii_text(s@) ==> r@ == ascii_lower(s@),
{
    s.to_lowercase()
}

/// `str::to_uppercase`: the Unicode uppercase mapping of the whole text, a
/// function of the text alone. Among the ASCII characters Unicode maps `a` to
/// `z` to `A` to `Z` and every other one to itself, so a text of ASCII
/// characters comes back with its small letters made capitals and nothing
/// else changed.
#[verifier::external_body]
pub(crate) fn to_uppercase(s: &str) -> (r: String)
    ensures
        r@ == uppercase_of(s@),
        is_ascii_text(s@) ==> r@ == ascii_upper(s@),
{
    s.to_uppercase()
}

/// A text of ASCII characters without small letters is its own upper case.
pub proof fn lemma_capitals_stay_in_upper_case(s: Seq<char>)
    requires
        is_ascii_text(s),
        forall|i: int| 0 <= i < s.len() ==> !('a' <= #[trigger] s[i] <= 'z'),
    ensures
        upper_case(s) == s,
{
    assert(ascii_upper(s) =~= s);
}

/// A text of ASCII characters without capitals is its own lower case.
pub proof fn lemma_small_letters_stay_in_lower_case(s: Seq<char>)
    requires
        is_ascii_text(s),
        forall|i: int| 0 <= i < s.len() ==> !('A' <= #[trigger] s[i] <= 'Z'),
    ensures
        lower_case(s) == s,
{
    assert(ascii_lower(s) =~= s);
}

/// The characters of `s`, in order.
pub fn to_chars(s: &str) -> (v: Vec<char>)
    ensures
        v@ == s@,
{
    let mut v: Vec<char> = Vec::new();
    for c in it: s.chars()
        invariant
            v@ == it.seq().take(it.index() as int),
    {
        v.push(c);
    }
    v
}

/// The string made of the characters `v[from..to]`.
pub fn string_of(v: &Vec<char>, from: usize, to: usize) -> (s: String)
    requires
        from <= to <= v.len(),
    ensures
        s@ == v@.subrange(from as int, to as int),
{
    let mut s = String::new();
    let mut i: usize = from;
    while i < to
        invariant
            from <= i <= to <= v.len(),
            s@ == v@.subrange(from as int, i as int),
        decreases to - i,
    {
        s.push(v[i]);
        assert(v@.subrange(from as int, i as int).push(v@[i as int]) =~= v@.subrange(
            from as int,
            i + 1,
        ));
        i = i + 1;
    }
    s
}

/// Whether two texts hold the same characters.
pub fn same_text(a: &str, b: &str) -> (r: bool)
    ensures
        r == (a@ == b@),
{
    let va = to_chars(a);
    let vb = to_chars(b);
    if va.len() != vb.len() {
        return false;
    }
    let mut i: usize = 0;
    while i < va.len()
        invariant
            i <= va.len(),
            va.len() == vb.len(),
            va@ == a@,
            vb@ == b@,
            forall|k: int| 0 <= k < i ==> va@[k] == vb@[k],
        decreases va.len() - i,
    {
        if va[i] != vb[i] {
            return false;
        }
        i = i + 1;
    }
    assert(va@ =~= vb@);
    true
}

/// Lexicographic order on texts by character code; a proper prefix comes first.
pub open spec fn text_lt(a: Seq<char>, b: Seq<char>) -> bool
    decreases a.len(),
{
    if b.len() == 0 {
        false
    } else if a.len() == 0 {
        true
    } else if a[0] != b[0] {
        a[0] < b[0]
    } else {
        text_lt(a.drop_first(), b.drop_first())
    }
}

/// Whether `a` sorts strictly before `b`.
pub fn text_less(a: &str, b: &str) -> (r: bool)
    ensures
        r == text_lt(a@, b@),
{
    let va = to_chars(a);
    let vb = to_chars(b);
    let mut i: usize = 0;
    assert(va@.skip(0) =~= va@ && vb@.skip(0) =~= vb@);
    while i < va.len() && i < vb.len()
        invariant
            i <= va.len(),
            i <= vb.len(),
            va@ == a@,
            vb@ == b@,
            text_lt(a@, b@) == text_lt(va@.skip(i as int), vb@.skip(i as int)),
        decreases va.len() - i,
    {
        let ghost ra = va@.skip(i as int);
        let ghost rb = vb@.skip(i as int);
        assert(ra[0] == va@[i as int] && rb[0] == vb@[i as int]);
        assert(ra.drop_first() =~= va@.skip(i + 1));
        assert(rb.drop_first() =~= vb@.skip(i + 1));
        if va[i] != vb[i] {
            return va[i] < vb[i];
        }
        i = i + 1;
    }
    i < vb.len()
}

/// Unicode `White_Space`.
pub open spec fn is_space(c: char) -> bool {
    let n = c as u32;
    ||| 0x09 <= n <= 0x0D
    ||| n == 0x20
    ||| n == 0x85
    ||| n == 0xA0
    ||| n == 0x1680
    ||| 0x2000 <= n <= 0x200A
    ||| n == 0x2028
    ||| n == 0x2029
    ||| n == 0x202F
    ||| n == 0x205F
    ||| n == 0x3000
}

/// Whether `c` is whitespace.
pub fn is_whitespace(c: char) -> (r: bool)
    ensures
        r == is_space(c),
{
    let n: u32 = c as u32;
    (0x09 <= n && n <= 0x0D) || n == 0x20 || n == 0x85 || n == 0xA0 || n == 0x1680 || (0x2000 <= n
        && n <= 0x200A) || n == 0x2028 || n == 0x2029 || n == 0x202F || n == 0x205F || n == 0x3000
}

/// `s` without its leading whitespace.
pub open spec fn trim_start(s: Seq<char>) -> Seq<char>
    decreases s.len(),
{
    if s.len() > 0 && is_space(s[0]) {
        trim_start(s.drop_first())
    } else {
        s
    }
}

/// `s` without its trailing whitespace.
pub open spec fn trim_end(s: Seq<char>) -> Seq<char>
    decreases s.len(),
{
    if s.len() > 0 && is_space(s.last()) {
        trim_end(s.drop_last())
    } else {
        s
    }
}

/// `s` without leading and trailing whitespace.
pub open spec fn trimmed(s: Seq<char>) -> Seq<char> {
    trim_end(trim_start(s))
}

/// The bounds of `v[from..to]` once leading and trailing whitespace is removed.
pub fn trim_range(v: &Vec<char>, from: usize, to: usize) -> (r: (usize, usize))
    requires
        from <= to <= v.len(),
    ensures
        from <= r.0 <= r.1 <= to,
        v@.subrange(r.0 as int, r.1 as int) == trimmed(v@.subrange(from as int, to as int)),
{
    let mut a: usize = from;
    while a < to && is_whitespace(v[a])
        invariant
            from <= a <= to <= v.len(),
            trim_start(v@.subrange(from as int, to as int)) == trim_start(
                v@.subrange(a as int, to as int),
            ),
        decreases to - a,
    {
        assert(v@.subrange(a as int, to as int).drop_first() =~= v@.subrange(a + 1, to as int));
        a = a + 1;
    }
    let mut b: usize = to;
    while a < b && is_whitespace(v[b - 1])
        invariant
            a <= b <= to <= v.len(),
            trim_end(v@.subrange(a as int, to as int)) == trim_end(v@.subrange(a as int, b as int)),
        decreases b - a,
    {
        assert(v@.subrange(a as int, b as int).drop_last() =~= v@.subrange(a as int, b - 1));
        b = b - 1;
    }
    (a, b)
}

/// Whether `s` begins with `prefix`.
pub open spec fn has_prefix(s: Seq<char>, prefix: Seq<char>) -> bool {
    prefix.len() <= s.len() && s.take(prefix.len() as int) == prefix
}

/// Whether `v[from..to]` begins with `prefix`.
pub fn starts_with(v: &Vec<char>, from: usize, to: usize, prefix: &str) -> (r: bool)
    requires
        from <= to <= v.len(),
    ensures
        r == has_prefix(v@.subrange(from as int, to as int), prefix@),
{
    let p = to_chars(prefix);
    if p.len() > to - from {
        return false;
    }
    let ghost s = v@.subrange(from as int, to as int);
    let mut i: usize = 0;
    while i < p.len()
        invariant
            i <= p.len() <= to - from,
            from <= to <= v.len(),
            p@ == prefix@,
            s == v@.subrange(from as int, to as int),
            forall|k: int| 0 <= k < i ==> s[k] == p@[k],
        decreases p.len() - i,
    {
        if v[from + i] != p[i] {
            assert(s.take(p@.len() as int)[i as int] != p@[i as int]);
            return false;
        }
        i = i + 1;
    }
    assert(s.take(p@.len() as int) =~= p@);
    true
}

/// The pieces of `s` between occurrences of `sep`. A text without `sep` is one
/// piece; `n` separators give `n + 1` pieces, some of which may be empty.
pub open spec fn split(s: Seq<char>, sep: char) -> Seq<Seq<char>>
    decreases s.len(),
{
    if s.len() == 0 {
        seq![Seq::<char>::empty()]
    } else {
        let before = split(s.drop_last(), sep);
        if s.last() == sep {
            before.push(Seq::<char>::empty())
        } else {
            before.update(before.len() - 1, before.last().push(s.last()))
        }
    }
}

/// Splitting gives at least one piece.
pub proof fn lemma_split_nonempty(s: Seq<char>, sep: char)
    ensures
        split(s, sep).len() >= 1,
    decreases s.len(),
{
    if s.len() > 0 {
        lemma_split_nonempty(s.drop_last(), sep);
    }
}

/// The pieces put together again, with `sep` between them.
pub open spec fn joined(pieces: Seq<Seq<char>>, sep: char) -> Seq<char>
    decreases pieces.len(),
{
    if pieces.len() == 0 {
        Seq::empty()
    } else if pieces.len() == 1 {
        pieces[0]
    } else {
        joined(pieces.drop_last(), sep).push(sep) + pieces.last()
    }
}

/// Splitting loses nothing and cuts at every separator: the pieces, joined
/// with the separator, are the text again, and no piece holds a separator.
pub proof fn lemma_split_is_exact(s: Seq<char>, sep: char)
    ensures
        joined(split(s, sep), sep) == s,
        forall|i: int, j: int|
            0 <= i < split(s, sep).len() && 0 <= j < split(s, sep)[i].len() ==> (
            #[trigger] split(s, sep)[i][j]) != sep,
    decreases s.len(),
{
    if s.len() == 0 {
        assert(joined(split(s, sep), sep) =~= s);
    } else {
        let head = s.drop_last();
        let before = split(head, sep);
        let now = split(s, sep);
        lemma_split_is_exact(head, sep);
        lemma_split_nonempty(head, sep);
        if s.last() == sep {
            assert(now.drop_last() =~= before);
            assert(joined(now, sep) =~= s);
            assert forall|i: int, j: int| 0 <= i < now.len() && 0 <= j < now[i].len() implies (
            #[trigger] now[i][j]) != sep by {
                assert(now[i] == before[i]);
            }
        } else {
            let grown = before.last().push(s.last());
            assert(now.last() == grown);
            if before.len() == 1 {
                assert(joined(now, sep) =~= s);
            } else {
                assert(now.drop_last() =~= before.drop_last());
                assert(joined(now, sep) =~= joined(before, sep).push(s.last()));
                assert(joined(now, sep) =~= s);
            }
            assert forall|i: int, j: int| 0 <= i < now.len() && 0 <= j < now[i].len() implies (
            #[trigger] now[i][j]) != sep by {
                if i < now.len() - 1 {
                    assert(now[i] == before[i]);
                } else if j < before.last().len() {
                    assert(now[i][j] == before[i][j]);
                }
            }
        }
    }
}

/// Bounds of one piece of a text inside the vector that holds it.
#[derive(Clone, Copy, Debug)]
pub struct Span {
    pub start: usize,
    pub end: usize,
}

impl Span {
    /// The span lies within a text of length `len`.
    pub open spec fn wf(self, len: int) -> bool {
        self.start <= self.end <= len
    }

    /// The characters of `v` that the span covers.
    pub open spec fn of(self, v: Seq<char>) -> Seq<char> {
        v.subrange(self.start as int, self.end as int)
    }
}

/// The texts that a list of spans covers in `v`.
pub open spec fn spans_of(spans: Seq<Span>, v: Seq<char>) -> Seq<Seq<char>> {
    Seq::new(spans.len(), |i: int| spans[i].of(v))
}

/// Splits `v[from..to]` at every `sep` and returns the bounds of the pieces.
pub fn split_spans(v: &Vec<char>, from: usize, to: usize, sep: char) -> (r: Vec<Span>)
    requires
        from <= to <= v.len(),
    ensures
        forall|i: int| 0 <= i < r.len() ==> from <= (#[trigger] r[i]).start && r[i].end <= to
            && r[i].wf(v.len() as int),
        spans_of(r@, v@) == split(v@.subrange(from as int, to as int), sep),
{
    let mut out: Vec<Span> = Vec::new();
    let mut start: usize = from;
    let mut i: usize = from;
    assert(spans_of(out@.push(Span { start, end: i }), v@) =~= seq![Seq::<char>::empty()]) by {
        assert(v@.subrange(from as int, from as int) =~= Seq::<char>::empty());
    }
    while i < to
        invariant
            from <= start <= i <= to <= v.len(),
            forall|k: int| 0 <= k < out.len() ==> from <= (#[trigger] out[k]).start && out[k].end <= to
                && out[k].wf(v.len() as int),
            spans_of(out@.push(Span { start, end: i }), v@) == split(
                v@.subrange(from as int, i as int),
                sep,
            ),
        decreases to - i,
    {
        let ghost prev = spans_of(out@.push(Span { start, end: i }), v@);
        let ghost whole = v@.subrange(from as int, i + 1);
        assert(whole.drop_last() =~= v@.subrange(from as int, i as int));
        assert(whole.last() == v@[i as int]);
        if v[i] == sep {
            out.push(Span { start, end: i });
            start = i + 1;
            let ghost now = spans_of(out@.push(Span { start, end: (i + 1) as usize }), v@);
            assert(now =~= prev.push(Seq::<char>::empty())) by {
                assert(v@.subrange(i + 1, i + 1) =~= Seq::<char>::empty());
                assert(now.len() == prev.len() + 1);
                assert forall|k: int| 0 <= k < prev.len() implies now[k] == prev[k] by {
                    assert(out@.push(Span { start, end: (i + 1) as usize })[k] == out@[k]);
                }
            }
        } else {
            assert(spans_of(out@.push(Span { start, end: (i + 1) as usize }), v@) =~= prev.update(
                prev.len() - 1,
                prev.last().push(v@[i as int]),
            )) by {
                assert(v@.subrange(start as int, i + 1) =~= v@.subrange(start as int, i as int).push(
                    v@[i as int],
                ));
            }
        }
        i = i + 1;
    }
    out.push(Span { start, end: to });
    out
}

/// Whether `c` is one of the digits `0` to `9`.
pub open spec fn is_digit(c: char) -> bool {
    '0' <= c <= '9'
}

/// Whether the text holds nothing but digits.
pub open spec fn all_digits(s: Seq<char>) -> bool {
    forall|i: int| 0 <= i < s.len() ==> is_digit(#[trigger] s[i])
}

/// The number that the decimal digits `s` write; 0 for the empty text.
pub open spec fn digits_value(s: Seq<char>) -> nat
    decreases s.len(),
{
    if s.len() == 0 {
        0
    } else {
        digits_value(s.drop_last()) * 10 + (s.last() as u32 - 48) as nat
    }
}

/// Whether `c` is one of the digits `0` to `9`.
pub fn is_ascii_digit(c: char) -> (r: bool)
    ensures
        r == is_digit(c),
{
    c >= '0' && c <= '9'
}

/// Whether every character of `v[from..to]` is a decimal digit.
pub fn digits_only(v: &Vec<char>, from: usize, to: usize) -> (r: bool)
    requires
        from <= to <= v.len(),
    ensures
        r == all_digits(v@.subrange(from as int, to as int)),
{
    let ghost s = v@.subrange(from as int, to as int);
    let mut i: usize = from;
    while i < to
        invariant
            from <= i <= to <= v.len(),
            s == v@.subrange(from as int, to as int),
            forall|k: int| 0 <= k < i - from ==> is_digit(#[trigger] s[k]),
        decreases to - i,
    {
        if !is_ascii_digit(v[i]) {
            assert(!is_digit(s[i - from]));
            return false;
        }
        i = i + 1;
    }
    true
}

/// Reads `v[from..to]` as an unsigned decimal number. `None` when the text is
/// empty, holds anything but digits, or writes a number above `u64::MAX`.
pub fn parse_digits(v: &Vec<char>, from: usize, to: usize) -> (r: Option<u64>)
    requires
        from <= to <= v.len(),
    ensures
        ({
            let s = v@.subrange(from as int, to as int);
            match r {
                Some(n) => s.len() > 0 && all_digits(s) && digits_value(s) == n,
                None => s.len() == 0 || !all_digits(s) || digits_value(s) > u64::MAX,
            }
        }),
{
    if from == to || !digits_only(v, from, to) {
        return None;
    }
    let ghost s = v@.subrange(from as int, to as int);
    let mut acc: u64 = 0;
    let mut i: usize = from;
    while i < to
        invariant
            from <= i <= to <= v.len(),
            s == v@.subrange(from as int, to as int),
            all_digits(s),
            acc == digits_value(s.take(i - from)),
        decreases to - i,
    {
        let ghost next = s.take(i - from + 1);
        assert(next.drop_last() =~= s.take(i - from));
        assert(next.last() == s[i - from] && is_digit(s[i - from]));
        let d: u64 = (v[i] as u32 - 48) as u64;
        if acc > (u64::MAX - d) / 10 {
            proof {
                lemma_digits_value_grows(s, i - from + 1);
            }
            return None;
        }
        acc = acc * 10 + d;
        i = i + 1;
    }
    assert(s.take(to - from) =~= s);
    Some(acc)
}

/// A longer run of digits never writes a smaller number than its prefix.
pub proof fn lemma_digits_value_grows(s: Seq<char>, n: int)
    requires
        0 <= n <= s.len(),
    ensures
        digits_value(s.take(n)) <= digits_value(s),
    decreases s.len() - n,
{
    if n < s.len() {
        lemma_digits_value_grows(s, n + 1);
        assert(s.take(n + 1).drop_last() =~= s.take(n));
    } else {
        assert(s.take(n) =~= s);
    }
}

/// The decimal digits of `n`, without leading zeros; "0" for zero.
pub open spec fn digits_of(n: nat) -> Seq<char>
    decreases n,
{
    if n < 10 {
        seq![(48 + n) as u8 as char]
    } else {
        digits_of(n / 10).push((48 + n % 10) as u8 as char)
    }
}

/// Appends the decimal digits of `n` to `out`.
pub fn push_number(out: &mut Vec<char>, n: u64)
    ensures
        final(out)@ == old(out)@ + digits_of(n as nat),
    decreases n,
{
    if n >= 10 {
        push_number(out, n / 10);
    }
    let d: u8 = 48 + (n % 10) as u8;
    out.push(d as char);
    proof {
        if n < 10 {
            assert(old(out)@.push(d as char) =~= old(out)@ + digits_of(n as nat));
        } else {
            assert((old(out)@ + digits_of((n / 10) as nat)).push(d as char) =~= old(out)@
                + digits_of(n as nat));
        }
    }
}

/// Appends the characters of `s` to `out`.
pub fn push_text(out: &mut Vec<char>, s: &str)
    ensures
        final(out)@ == old(out)@ + s@,
{
    let v = to_chars(s);
    let mut i: usize = 0;
    while i < v.len()
        invariant
            i <= v.len(),
            v@ == s@,
            out@ == old(out)@ + v@.take(i as int),
        decreases v.len() - i,
    {
        out.push(v[i]);
        assert((old(out)@ + v@.take(i as int)).push(v@[i as int]) =~= old(out)@ + v@.take(i + 1));
        i = i + 1;
    }
    assert(v@.take(v.len() as int) =~= v@);
}

/// Appends `v[from..to]` to `out`.
pub fn push_range(out: &mut Vec<char>, v: &Vec<char>, from: usize, to: usize)
    requires
        from <= to <= v.len(),
    ensures
        final(out)@ == old(out)@ + v@.subrange(from as int, to as int),
{
    let mut i: usize = from;
    while i < to
        invariant
            from <= i <= to <= v.len(),
            out@ == old(out)@ + v@.subrange(from as int, i as int),
        decreases to - i,
    {
        out.push(v[i]);
        assert((old(out)@ + v@.subrange(from as int, i as int)).push(v@[i as int]) =~= old(out)@
            + v@.subrange(from as int, i + 1));
        i = i + 1;
    }
}

/// The string that holds exactly the characters of `v`.
pub fn string_from(v: &Vec<char>) -> (s: String)
    ensures
        s@ == v@,
{
    let s = string_of(v, 0, v.len());
    assert(v@.subrange(0, v.len() as int) =~= v@);
    s
}

/// `s` with zeros in front until it is at least `width` long.
pub open spec fn zero_padded(s: Seq<char>, width: nat) -> Seq<char> {
    if s.len() >= width {
        s
    } else {
        Seq::new((width - s.len()) as nat, |i: int| '0') + s
    }
}

/// How many decimal digits `n` has.
pub fn digit_count(n: u64) -> (r: u64)
    ensures
        r == digits_of(n as nat).len(),
        1 <= r <= n + 1,
    decreases n,
{
    if n < 10 {
        1
    } else {
        1 + digit_count(n / 10)
    }
}

/// Appends the digits of `n`, with zeros in front up to `width`, to `out`.
pub fn push_padded(out: &mut Vec<char>, n: u64, width: usize)
    ensures
        final(out)@ == old(out)@ + zero_padded(digits_of(n as nat), width as nat),
{
    let ghost before = out@;
    let len: u64 = digit_count(n);
    let mut k: u64 = len;
    assert(before + Seq::new(0nat, |i: int| '0') =~= before);
    while k < width as u64
        invariant
            len <= k,
            k <= width || k == len,
            out@ == before + Seq::new((k - len) as nat, |i: int| '0'),
        decreases width - k,
    {
        out.push('0');
        assert((before + Seq::new((k - len) as nat, |i: int| '0')).push('0') =~= before + Seq::new(
            (k + 1 - len) as nat,
            |i: int| '0',
        ));
        k = k + 1;
    }
    push_number(out, n);
    proof {
        let digits = digits_of(n as nat);
        if digits.len() < width {
            assert(out@ =~= before + (Seq::new((width - digits.len()) as nat, |i: int| '0')
                + digits));
        }
    }
}

/// Writing the number that a run of digits stands for, with zeros in front up
/// to the length of the run, gives the run back.
pub proof fn lemma_digits_round_trip(t: Seq<char>)
    requires
        all_digits(t),
        t.len() > 0,
    ensures
        zero_padded(digits_of(digits_value(t)), t.len()) == t,
    decreases t.len(),
{
    let h = t.drop_last();
    let c = t.last();
    assert(is_digit(t[t.len() - 1]));
    let d = (c as u32 - 48) as nat;
    let vh = digits_value(h);
    let v = digits_value(t);
    assert(v == vh * 10 + d);
    assert((48 + d) as u8 as char == c);
    if h.len() == 0 {
        assert(digits_of(v) =~= seq![c]);
        assert(zero_padded(digits_of(v), t.len()) =~= t);
    } else {
        assert forall|i: int| 0 <= i < h.len() implies is_digit(#[trigger] h[i]) by {
            assert(h[i] == t[i]);
        }
        lemma_digits_round_trip(h);
        let x = digits_of(vh);
        assert(zero_padded(x, h.len()) == h);
        if vh == 0 {
            assert(x =~= seq!['0']);
            assert(digits_of(v) =~= seq![c]);
            assert forall|i: int| 0 <= i < h.len() implies h[i] == '0' by {
                if x.len() < h.len() {
                    assert(h == Seq::new((h.len() - x.len()) as nat, |k: int| '0') + x);
                }
            }
            let padded = zero_padded(digits_of(v), t.len());
            assert(padded == Seq::new((t.len() - 1) as nat, |k: int| '0') + seq![c]);
            assert forall|i: int| 0 <= i < t.len() implies padded[i] == t[i] by {
                if i < h.len() {
                    assert(t[i] == h[i]);
                }
            }
            assert(padded =~= t);
        } else {
            assert(v >= 10);
            assert(v / 10 == vh && v % 10 == d);
            assert(digits_of(v) =~= x.push(c));
            if x.len() >= h.len() {
                assert(x == h);
                assert(zero_padded(x.push(c), t.len()) =~= t);
            } else {
                let zeros = Seq::new((h.len() - x.len()) as nat, |k: int| '0');
                assert(h == zeros + x);
                let padded = zero_padded(x.push(c), t.len());
                assert(padded == Seq::new((t.len() - x.len() - 1) as nat, |k: int| '0') + x.push(c));
                assert forall|i: int| 0 <= i < t.len() implies padded[i] == t[i] by {
                    if i < h.len() {
                        assert(t[i] == h[i]);
                        assert(h[i] == (zeros + x)[i]);
                    }
                }
                assert(padded =~= t);
            }
        }
    }
}

/// No two texts are before each other.
pub proof fn lemma_text_lt_asymmetric(a: Seq<char>, b: Seq<char>)
    requires
        text_lt(a, b),
    ensures
        !text_lt(b, a),
    decreases a.len(),
{
    if a.len() > 0 && b.len() > 0 && a[0] == b[0] {
        lemma_text_lt_asymmetric(a.drop_first(), b.drop_first());
    }
}

/// Where `a` is not after `b` and `b` is not after `c`, `a` is not after `c`.
pub proof fn lemma_text_not_after_carries_over(a: Seq<char>, b: Seq<char>, c: Seq<char>)
    requires
        !text_lt(b, a),
        !text_lt(c, b),
    ensures
        !text_lt(c, a),
    decreases a.len(),
{
    if a.len() > 0 {
        assert(b.len() > 0);
        assert(c.len() > 0);
        if a[0] == b[0] && b[0] == c[0] {
            lemma_text_not_after_carries_over(a.drop_first(), b.drop_first(), c.drop_first());
        } else {
            assert(a[0] <= b[0]);
            assert(b[0] <= c[0]);
            assert(a[0] != c[0]);
        }
    }
}

} // verus!
