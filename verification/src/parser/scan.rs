//! Character classes and the scans over a character sequence that the
//! grammar is built from.
use vstd::prelude::*;

use super::error::{Failure, ParseError};

verus! {

/// `String::push` appends one character.
pub assume_specification[ String::push ](s: &mut String, c: char)
    ensures
        final(s)@ == old(s)@.push(c),
;

/// The letters `a` to `z` and `A` to `Z`.
pub open spec fn is_ascii_letter(c: char) -> bool {
    ('a' <= c && c <= 'z') || ('A' <= c && c <= 'Z')
}

/// The digits `0` to `9`.
pub open spec fn is_ascii_digit(c: char) -> bool {
    '0' <= c && c <= '9'
}

/// The characters of a tag name after its first: letters, digits and `-`.
pub open spec fn is_name_char(c: char) -> bool {
    is_ascii_letter(c) || is_ascii_digit(c) || c == '-'
}

/// The characters that indent a line: space and tab.
pub open spec fn is_indent(c: char) -> bool {
    c == ' ' || c == '\t'
}

/// The length of the line terminator at `i`: 1 for `\n`, 2 for `\r\n`, and
/// 0 where no terminator stands.
pub open spec fn eol_len(s: Seq<char>, i: int) -> int {
    if 0 <= i < s.len() && s[i] == '\n' {
        1
    } else if 0 <= i && i + 1 < s.len() && s[i] == '\r' && s[i + 1] == '\n' {
        2
    } else {
        0
    }
}

/// The end of the line that holds `i`: the first position from `i` on at
/// which a line terminator stands, or the end of the input.
pub open spec fn line_end(s: Seq<char>, i: int) -> int
    decreases s.len() - i,
{
    if i < 0 || i >= s.len() || eol_len(s, i) > 0 {
        i
    } else {
        line_end(s, i + 1)
    }
}

/// The end of the run of indentation characters that starts at `i`.
pub open spec fn indent_end(s: Seq<char>, i: int) -> int
    decreases s.len() - i,
{
    if 0 <= i < s.len() && is_indent(s[i]) {
        indent_end(s, i + 1)
    } else {
        i
    }
}

/// The end of the run of name characters that starts at `i`.
pub open spec fn name_end(s: Seq<char>, i: int) -> int
    decreases s.len() - i,
{
    if 0 <= i < s.len() && is_name_char(s[i]) {
        name_end(s, i + 1)
    } else {
        i
    }
}

/// The start of the first line at or after the line start `p` that is not
/// blank, or the end of the input. A line is blank when it holds nothing
/// but indentation characters.
pub open spec fn skip_blank(s: Seq<char>, p: int) -> int
    decreases s.len() - p,
{
    let e = indent_end(s, p);
    if p < 0 || p >= s.len() {
        p
    } else if e >= s.len() {
        s.len() as int
    } else if eol_len(s, e) > 0 {
        proof {
            lemma_indent_end_bounds(s, p);
        }
        skip_blank(s, e + eol_len(s, e))
    } else {
        p
    }
}

/// The first position from `i` on that holds `closer` and does not follow a
/// backslash, or the length of the input where there is none.
pub open spec fn find_closer(s: Seq<char>, i: int, closer: char) -> int
    decreases s.len() - i,
{
    if i < 1 || i >= s.len() {
        s.len() as int
    } else if s[i] == closer && s[i - 1] != '\\' {
        i
    } else {
        find_closer(s, i + 1, closer)
    }
}

/// Whether `ch` occurs in `s` between `from` and `to`.
pub open spec fn occurs(s: Seq<char>, from: int, to: int, ch: char) -> bool {
    exists|j: int| from <= j < to && 0 <= j < s.len() && s[j] == ch
}

/// A line ends within the input, at a line terminator or at the end of the
/// input, and holds no line terminator before its end.
pub proof fn lemma_line_end_bounds(s: Seq<char>, i: int)
    requires
        0 <= i <= s.len(),
    ensures
        i <= line_end(s, i) <= s.len(),
        line_end(s, i) < s.len() ==> eol_len(s, line_end(s, i)) > 0,
        forall|j: int| i <= j < line_end(s, i) ==> eol_len(s, j) == 0,
    decreases s.len() - i,
{
    if i < s.len() && eol_len(s, i) == 0 {
        lemma_line_end_bounds(s, i + 1);
    }
}

/// A run of indentation ends within the input, before a character that
/// does not indent, and holds indentation characters only.
pub proof fn lemma_indent_end_bounds(s: Seq<char>, i: int)
    requires
        0 <= i <= s.len(),
    ensures
        i <= indent_end(s, i) <= s.len(),
        indent_end(s, i) < s.len() ==> !is_indent(s[indent_end(s, i)]),
        forall|j: int| i <= j < indent_end(s, i) ==> is_indent(#[trigger] s[j]),
    decreases s.len() - i,
{
    if i < s.len() && is_indent(s[i]) {
        lemma_indent_end_bounds(s, i + 1);
    }
}

/// A run of name characters ends within the input, before a character
/// that is none, and holds name characters only.
pub proof fn lemma_name_end_bounds(s: Seq<char>, i: int)
    requires
        0 <= i <= s.len(),
    ensures
        i <= name_end(s, i) <= s.len(),
        name_end(s, i) < s.len() ==> !is_name_char(s[name_end(s, i)]),
        forall|j: int| i <= j < name_end(s, i) ==> is_name_char(#[trigger] s[j]),
    decreases s.len() - i,
{
    if i < s.len() && is_name_char(s[i]) {
        lemma_name_end_bounds(s, i + 1);
    }
}

/// Blank lines are passed over forwards, and within the input.
pub proof fn lemma_skip_blank_bounds(s: Seq<char>, p: int)
    requires
        0 <= p <= s.len(),
    ensures
        p <= skip_blank(s, p) <= s.len(),
    decreases s.len() - p,
{
    let e = indent_end(s, p);
    lemma_indent_end_bounds(s, p);
    if p < s.len() && e < s.len() && eol_len(s, e) > 0 {
        lemma_skip_blank_bounds(s, e + eol_len(s, e));
    }
}

/// The closer that is found is the first one from `i` on that no backslash
/// precedes.
pub proof fn lemma_find_closer_bounds(s: Seq<char>, i: int, closer: char)
    requires
        1 <= i <= s.len(),
    ensures
        i <= find_closer(s, i, closer) <= s.len(),
        find_closer(s, i, closer) < s.len() ==> s[find_closer(s, i, closer)] == closer && s[find_closer(
            s,
            i,
            closer,
        ) - 1] != '\\',
        forall|j: int|
            i <= j < find_closer(s, i, closer) ==> !(#[trigger] s[j] == closer && s[j - 1]
                != '\\'),
    decreases s.len() - i,
{
    if i < s.len() && !(s[i] == closer && s[i - 1] != '\\') {
        lemma_find_closer_bounds(s, i + 1, closer);
    }
}

/// Tells whether `c` is one of the letters `a` to `z` and `A` to `Z`.
pub(crate) fn letter(c: char) -> (r: bool)
    ensures
        r == is_ascii_letter(c),
{
    (c >= 'a' && c <= 'z') || (c >= 'A' && c <= 'Z')
}

/// Tells whether `c` is a letter, a digit or `-`.
pub(crate) fn name_char(c: char) -> (r: bool)
    ensures
        r == is_name_char(c),
{
    letter(c) || (c >= '0' && c <= '9') || c == '-'
}

/// Tells whether `c` is a space or a tab.
pub(crate) fn indent_char(c: char) -> (r: bool)
    ensures
        r == is_indent(c),
{
    c == ' ' || c == '\t'
}

/// The characters of a string, one element each.
pub(crate) fn to_chars(s: &str) -> (v: Vec<char>)
    ensures
        v@ == s@,
{
    let mut v: Vec<char> = Vec::new();
    for c in it: s.chars()
        invariant
            it.seq() == s@,
            v@ == s@.take(it.index() as int),
    {
        v.push(c);
    }
    assert(s@.take(s@.len() as int) == s@);
    v
}

/// The characters of `s` between `from` and `to`, as an owned string.
pub(crate) fn text_of(s: &[char], from: usize, to: usize) -> (r: String)
    requires
        from <= to <= s.len(),
    ensures
        r@ == s@.subrange(from as int, to as int),
{
    let mut r = String::new();
    let mut i: usize = from;
    while i < to
        invariant
            from <= i <= to <= s.len(),
            r@ == s@.subrange(from as int, i as int),
        decreases to - i,
    {
        r.push(s[i]);
        i += 1;
    }
    r
}

/// Measures the line terminator at `i`: 1 for `\n`, 2 for `\r\n`, 0 for
/// none.
pub fn eol_len_at(s: &[char], i: usize) -> (n: usize)
    ensures
        n == eol_len(s@, i as int),
{
    if i < s.len() && s[i] == '\n' {
        1
    } else if i < s.len() && s.len() - i > 1 && s[i] == '\r' && s[i + 1] == '\n' {
        2
    } else {
        0
    }
}

/// Finds the end of the line that holds `i`.
pub fn line_end_at(s: &[char], i: usize) -> (e: usize)
    requires
        i <= s.len(),
    ensures
        e == line_end(s@, i as int),
        i <= e <= s.len(),
{
    let mut e: usize = i;
    while e < s.len() && eol_len_at(s, e) == 0
        invariant
            i <= e <= s.len(),
            line_end(s@, i as int) == line_end(s@, e as int),
        decreases s.len() - e,
    {
        e += 1;
    }
    e
}

/// Passes over the indentation characters that start at `i`.
pub fn indent_end_at(s: &[char], i: usize) -> (e: usize)
    requires
        i <= s.len(),
    ensures
        e == indent_end(s@, i as int),
        i <= e <= s.len(),
{
    let mut e: usize = i;
    while e < s.len() && indent_char(s[e])
        invariant
            i <= e <= s.len(),
            indent_end(s@, i as int) == indent_end(s@, e as int),
        decreases s.len() - e,
    {
        e += 1;
    }
    e
}

/// Passes over the name characters that start at `i`.
pub fn name_end_at(s: &[char], i: usize) -> (e: usize)
    requires
        i <= s.len(),
    ensures
        e == name_end(s@, i as int),
        i <= e <= s.len(),
{
    let mut e: usize = i;
    while e < s.len() && name_char(s[e])
        invariant
            i <= e <= s.len(),
            name_end(s@, i as int) == name_end(s@, e as int),
        decreases s.len() - e,
    {
        e += 1;
    }
    e
}

/// Passes over the blank lines that start at the line start `p`.
pub fn skip_blank_at(s: &[char], p: usize) -> (q: usize)
    requires
        p <= s.len(),
    ensures
        q == skip_blank(s@, p as int),
        p <= q <= s.len(),
{
    let mut q: usize = p;
    loop
        invariant
            p <= q <= s.len(),
            skip_blank(s@, p as int) == skip_blank(s@, q as int),
        ensures
            p <= q <= s.len(),
            q == skip_blank(s@, p as int),
        decreases s.len() - q,
    {
        if q >= s.len() {
            break;
        }
        let e = indent_end_at(s, q);
        if e >= s.len() {
            q = s.len();
            break;
        }
        let n = eol_len_at(s, e);
        if n == 0 {
            break;
        }
        q = e + n;
    }
    q
}

/// Finds the first `closer` from `i` on that no backslash precedes.
pub fn find_closer_at(s: &[char], i: usize, closer: char) -> (p: usize)
    requires
        1 <= i <= s.len(),
    ensures
        p == find_closer(s@, i as int, closer),
        i <= p <= s.len(),
        p < s.len() ==> s@[p as int] == closer,
{
    let mut p: usize = i;
    while p < s.len() && !(s[p] == closer && s[p - 1] != '\\')
        invariant
            1 <= i <= p <= s.len(),
            find_closer(s@, i as int, closer) == find_closer(s@, p as int, closer),
        decreases s.len() - p,
    {
        p += 1;
    }
    p
}


/// The part of `input` between the character positions `from` and `to`.
pub(crate) fn piece<'a>(input: &'a str, from: usize, to: usize) -> (r: &'a str)
    requires
        from <= to <= input@.len(),
    ensures
        r@ == input@.subrange(from as int, to as int),
{
    input.substring_char(from, to)
}

/// What a token parser hands back for an input: on success the token, which
/// runs from `from` to the expected end, and the rest of the input after
/// it; on failure the expected failure.
pub open spec fn token_agrees(
    input: Seq<char>,
    r: Result<(&str, &str), ParseError>,
    from: int,
    expected: Result<int, Failure>,
) -> bool {
    match r {
        Ok((rest, token)) => {
            &&& expected is Ok
            &&& token@ == input.subrange(from, expected->Ok_0)
            &&& rest@ == input.subrange(expected->Ok_0, input.len() as int)
        },
        Err(e) => expected == Err::<int, Failure>(e@),
    }
}


/// The characters of `s` between `from` and `to`, as a vector of their own.
pub(crate) fn chars_of(s: &[char], from: usize, to: usize) -> (r: Vec<char>)
    requires
        from <= to <= s.len(),
    ensures
        r@ == s@.subrange(from as int, to as int),
{
    let mut r: Vec<char> = Vec::new();
    let mut i: usize = from;
    while i < to
        invariant
            from <= i <= to <= s.len(),
            r@ == s@.subrange(from as int, i as int),
        decreases to - i,
    {
        r.push(s[i]);
        i += 1;
    }
    r
}

} // verus!
