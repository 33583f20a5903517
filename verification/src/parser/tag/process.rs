//! The name of a tag.
use vstd::prelude::*;

use crate::parser::error::{agrees, unexpected, unexpected_at, Failure, ParseError};
use crate::parser::scan::{
    is_ascii_letter, is_name_char, lemma_name_end_bounds, letter, name_end, name_end_at, piece,
    to_chars, token_agrees,
};

verus! {

/// The end of the tag name that starts at `i`: a letter, then letters,
/// digits and `-` as far as they go.
pub open spec fn spec_tag_name(s: Seq<char>, i: int) -> Result<int, Failure> {
    if 0 <= i < s.len() && is_ascii_letter(s[i]) {
        Ok(name_end(s, i + 1))
    } else {
        Err(unexpected(s, i))
    }
}

/// A tag name is never empty and ends within the input, and every
/// character of it is a letter, a digit or `-`.
pub proof fn lemma_tag_name_bounds(s: Seq<char>, i: int)
    requires
        0 <= i <= s.len(),
    ensures
        spec_tag_name(s, i) matches Ok(e) ==> {
            &&& i < e <= s.len()
            &&& forall|j: int| i <= j < e ==> is_name_char(#[trigger] s[j])
        },
{
    if i < s.len() {
        lemma_name_end_bounds(s, i + 1);
    }
}

/// Reads the tag name that starts at `i` and returns its end.
pub fn tag_name_at(s: &[char], i: usize) -> (r: Result<usize, ParseError>)
    requires
        i <= s.len(),
    ensures
        agrees(r, spec_tag_name(s@, i as int)),
        r matches Ok(end) ==> i < end <= s.len(),
{
    if i < s.len() && letter(s[i]) {
        Ok(name_end_at(s, i + 1))
    } else {
        Err(unexpected_at(s, i))
    }
}

/// Reads a tag name from the start of `input`.
pub fn process_tag(input: &str) -> (r: Result<(&str, &str), ParseError>)
    ensures
        token_agrees(input@, r, 0, spec_tag_name(input@, 0)),
{
    let s = to_chars(input);
    match tag_name_at(s.as_slice(), 0) {
        Ok(end) => Ok((piece(input, end, s.len()), piece(input, 0, end))),
        Err(e) => Err(e),
    }
}

} // verus!
