//! The text of a comment.
use vstd::prelude::*;

use crate::parser::error::{agrees, unexpected, unexpected_at, Failure, ParseError};
use crate::parser::scan::{line_end, line_end_at, piece, to_chars, token_agrees};

verus! {

/// Whether `//!` stands at `i`.
pub open spec fn is_native_comment(s: Seq<char>, i: int) -> bool {
    0 <= i && i + 2 < s.len() && s[i] == '/' && s[i + 1] == '/' && s[i + 2] == '!'
}

/// Whether `//` stands at `i`, and no `!` after it.
pub open spec fn is_dev_comment(s: Seq<char>, i: int) -> bool {
    0 <= i && i + 1 < s.len() && s[i] == '/' && s[i + 1] == '/' && !(i + 2 < s.len() && s[i + 2]
        == '!')
}

/// The end of the native comment that starts at `i`: `//!`, then the rest
/// of the line, which is the comment's text.
pub open spec fn spec_comment_native(s: Seq<char>, i: int) -> Result<int, Failure> {
    if is_native_comment(s, i) {
        Ok(line_end(s, i + 3))
    } else {
        Err(unexpected(s, i))
    }
}

/// The end of the developer comment that starts at `i`: `//`, then the
/// rest of the line, which is the comment's text.
pub open spec fn spec_comment_dev(s: Seq<char>, i: int) -> Result<int, Failure> {
    if is_dev_comment(s, i) {
        Ok(line_end(s, i + 2))
    } else {
        Err(unexpected(s, i))
    }
}

/// Tells whether `//!` stands at `i`.
pub fn native_comment_starts(s: &[char], i: usize) -> (r: bool)
    ensures
        r == is_native_comment(s@, i as int),
{
    i < s.len() && s.len() - i > 2 && s[i] == '/' && s[i + 1] == '/' && s[i + 2] == '!'
}

/// Tells whether `//` stands at `i`, and no `!` after it.
pub fn dev_comment_starts(s: &[char], i: usize) -> (r: bool)
    ensures
        r == is_dev_comment(s@, i as int),
{
    i < s.len() && s.len() - i > 1 && s[i] == '/' && s[i + 1] == '/' && !(s.len() - i > 2 && s[i
        + 2] == '!')
}

/// Reads the native comment that starts at `i` and returns its end.
pub fn comment_native_at(s: &[char], i: usize) -> (r: Result<usize, ParseError>)
    requires
        i <= s.len(),
    ensures
        agrees(r, spec_comment_native(s@, i as int)),
        r matches Ok(end) ==> i + 3 <= end <= s.len(),
{
    if native_comment_starts(s, i) {
        Ok(line_end_at(s, i + 3))
    } else {
        Err(unexpected_at(s, i))
    }
}

/// Reads the developer comment that starts at `i` and returns its end.
pub fn comment_dev_at(s: &[char], i: usize) -> (r: Result<usize, ParseError>)
    requires
        i <= s.len(),
    ensures
        agrees(r, spec_comment_dev(s@, i as int)),
        r matches Ok(end) ==> i + 2 <= end <= s.len(),
{
    if dev_comment_starts(s, i) {
        Ok(line_end_at(s, i + 2))
    } else {
        Err(unexpected_at(s, i))
    }
}

/// Reads a native comment from the start of `input` and returns its text:
/// what follows `//!` up to the end of the line.
pub fn process_comment_native(input: &str) -> (r: Result<(&str, &str), ParseError>)
    ensures
        token_agrees(input@, r, 3, spec_comment_native(input@, 0)),
{
    let s = to_chars(input);
    match comment_native_at(s.as_slice(), 0) {
        Ok(end) => Ok((piece(input, end, s.len()), piece(input, 3, end))),
        Err(e) => Err(e),
    }
}

/// Reads a developer comment from the start of `input` and returns its
/// text: what follows `//` up to the end of the line.
pub fn process_comment_dev(input: &str) -> (r: Result<(&str, &str), ParseError>)
    ensures
        token_agrees(input@, r, 2, spec_comment_dev(input@, 0)),
{
    let s = to_chars(input);
    match comment_dev_at(s.as_slice(), 0) {
        Ok(end) => Ok((piece(input, end, s.len()), piece(input, 2, end))),
        Err(e) => Err(e),
    }
}

} // verus!
