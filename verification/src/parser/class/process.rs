//! The text of a class selector.
use vstd::prelude::*;

use crate::parser::error::{agrees, unexpected, unexpected_at, Failure, ParseError};
use crate::parser::scan::{
    eol_len, eol_len_at, is_ascii_digit, is_ascii_letter, letter, piece, to_chars, token_agrees,
};

verus! {

/// The characters of a class name: letters, digits, and `-`, `_`, `:`, `/`,
/// `#`, `[`, `]`.
pub open spec fn is_class_char(c: char) -> bool {
    is_ascii_letter(c) || is_ascii_digit(c) || c == '-' || c == '_' || c == ':' || c == '/' || c
        == '#' || c == '[' || c == ']'
}

/// The position of the first `]` from `i` on that stands on the same line,
/// or the length of the input where there is none.
pub open spec fn group_close(s: Seq<char>, i: int) -> int
    decreases s.len() - i,
{
    if i < 0 || i >= s.len() || eol_len(s, i) > 0 {
        s.len() as int
    } else if s[i] == ']' {
        i
    } else {
        group_close(s, i + 1)
    }
}

/// The end of the class name whose scan has reached `i`. A `[` that a `]`
/// closes on the same line opens a group, and whatever the group holds
/// belongs to the name: `w-[calc(100%-1rem)]` is one name.
pub open spec fn class_end(s: Seq<char>, i: int) -> int
    decreases s.len() - i,
{
    if i < 0 || i >= s.len() {
        i
    } else if s[i] == '[' && group_close(s, i + 1) < s.len() {
        proof {
            lemma_group_close_bounds(s, i + 1);
        }
        class_end(s, group_close(s, i + 1) + 1)
    } else if is_class_char(s[i]) {
        class_end(s, i + 1)
    } else {
        i
    }
}

/// The end of the class selector that starts at `i`: a `.`, then a name
/// that is not empty. The class is what follows the `.`.
pub open spec fn spec_class(s: Seq<char>, i: int) -> Result<int, Failure> {
    if 0 <= i < s.len() && s[i] == '.' {
        if class_end(s, i + 1) > i + 1 {
            Ok(class_end(s, i + 1))
        } else {
            Err(unexpected(s, i + 1))
        }
    } else {
        Err(unexpected(s, i))
    }
}

/// The `]` that closes a group stands at or after `i`, within the input.
pub proof fn lemma_group_close_bounds(s: Seq<char>, i: int)
    requires
        0 <= i <= s.len(),
    ensures
        i <= group_close(s, i) <= s.len(),
        group_close(s, i) < s.len() ==> s[group_close(s, i)] == ']',
    decreases s.len() - i,
{
    if i < s.len() && eol_len(s, i) == 0 && s[i] != ']' {
        lemma_group_close_bounds(s, i + 1);
    }
}

/// The scan of a class name ends at or after `i`, within the input.
pub proof fn lemma_class_end_bounds(s: Seq<char>, i: int)
    requires
        0 <= i <= s.len(),
    ensures
        i <= class_end(s, i) <= s.len(),
    decreases s.len() - i,
{
    if i < s.len() {
        if s[i] == '[' && group_close(s, i + 1) < s.len() {
            lemma_group_close_bounds(s, i + 1);
            lemma_class_end_bounds(s, group_close(s, i + 1) + 1);
        } else if is_class_char(s[i]) {
            lemma_class_end_bounds(s, i + 1);
        }
    }
}

/// A class selector holds its `.` and a name that is not empty, and ends
/// within the input.
pub proof fn lemma_class_bounds(s: Seq<char>, i: int)
    requires
        0 <= i <= s.len(),
    ensures
        spec_class(s, i) matches Ok(e) ==> i + 1 < e <= s.len(),
{
    if i < s.len() {
        lemma_class_end_bounds(s, i + 1);
    }
}

/// Tells whether `c` is a character of a class name.
pub(crate) fn class_char(c: char) -> (r: bool)
    ensures
        r == is_class_char(c),
{
    letter(c) || (c >= '0' && c <= '9') || c == '-' || c == '_' || c == ':' || c == '/' || c
        == '#' || c == '[' || c == ']'
}

/// Finds the `]` that closes a group on the line of `i`.
fn group_close_at(s: &[char], i: usize) -> (p: usize)
    requires
        i <= s.len(),
    ensures
        p == group_close(s@, i as int),
        i <= p <= s.len(),
{
    let mut p: usize = i;
    loop
        invariant
            i <= p <= s.len(),
            group_close(s@, i as int) == group_close(s@, p as int),
        ensures
            i <= p <= s.len(),
            p == group_close(s@, i as int),
        decreases s.len() - p,
    {
        if p >= s.len() || eol_len_at(s, p) > 0 {
            p = s.len();
            break;
        }
        if s[p] == ']' {
            break;
        }
        p += 1;
    }
    p
}

/// Scans a class name from `i` on and returns its end.
fn class_end_at(s: &[char], i: usize) -> (e: usize)
    requires
        i <= s.len(),
    ensures
        e == class_end(s@, i as int),
        i <= e <= s.len(),
{
    let mut e: usize = i;
    loop
        invariant
            i <= e <= s.len(),
            class_end(s@, i as int) == class_end(s@, e as int),
        ensures
            i <= e <= s.len(),
            e == class_end(s@, i as int),
        decreases s.len() - e,
    {
        if e >= s.len() {
            break;
        }
        let c = s[e];
        if c == '[' {
            let close = group_close_at(s, e + 1);
            if close < s.len() {
                e = close + 1;
            } else {
                e += 1;
            }
        } else if class_char(c) {
            e += 1;
        } else {
            break;
        }
    }
    e
}

/// Reads the class selector that starts at `i` and returns its end.
pub fn class_at(s: &[char], i: usize) -> (r: Result<usize, ParseError>)
    requires
        i <= s.len(),
    ensures
        agrees(r, spec_class(s@, i as int)),
        r matches Ok(end) ==> i + 1 < end <= s.len(),
{
    if i < s.len() && s[i] == '.' {
        let end = class_end_at(s, i + 1);
        if end > i + 1 {
            Ok(end)
        } else {
            Err(unexpected_at(s, i + 1))
        }
    } else {
        Err(unexpected_at(s, i))
    }
}

/// Reads a class selector from the start of `input` and returns the class
/// name, without the `.`.
pub fn process_class(input: &str) -> (r: Result<(&str, &str), ParseError>)
    ensures
        token_agrees(input@, r, 1, spec_class(input@, 0)),
{
    let s = to_chars(input);
    match class_at(s.as_slice(), 0) {
        Ok(end) => Ok((piece(input, end, s.len()), piece(input, 1, end))),
        Err(e) => Err(e),
    }
}

} // verus!
