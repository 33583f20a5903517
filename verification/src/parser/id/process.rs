//! The text of an id selector.
use vstd::prelude::*;

use crate::parser::error::{agrees, unexpected, unexpected_at, Failure, ParseError};
use crate::parser::scan::{piece, to_chars, token_agrees};
use crate::parser::tag::process::{lemma_tag_name_bounds, spec_tag_name, tag_name_at};

verus! {

/// The end of the id selector that starts at `i`: a `#`, then a name as a
/// tag has it. The id is what follows the `#`.
pub open spec fn spec_id(s: Seq<char>, i: int) -> Result<int, Failure> {
    if 0 <= i < s.len() && s[i] == '#' {
        spec_tag_name(s, i + 1)
    } else {
        Err(unexpected(s, i))
    }
}

/// An id selector holds its `#` and a name that is not empty, and ends
/// within the input.
pub proof fn lemma_id_bounds(s: Seq<char>, i: int)
    requires
        0 <= i <= s.len(),
    ensures
        spec_id(s, i) matches Ok(e) ==> i + 1 < e <= s.len(),
{
    if i < s.len() {
        lemma_tag_name_bounds(s, i + 1);
    }
}

/// Reads the id selector that starts at `i` and returns its end.
pub fn id_at(s: &[char], i: usize) -> (r: Result<usize, ParseError>)
    requires
        i <= s.len(),
    ensures
        agrees(r, spec_id(s@, i as int)),
        r matches Ok(end) ==> i + 1 < end <= s.len(),
{
    if i < s.len() && s[i] == '#' {
        tag_name_at(s, i + 1)
    } else {
        Err(unexpected_at(s, i))
    }
}

/// Reads an id selector from the start of `input` and returns the id,
/// without the `#`.
pub fn process_id(input: &str) -> (r: Result<(&str, &str), ParseError>)
    ensures
        token_agrees(input@, r, 1, spec_id(input@, 0)),
{
    let s = to_chars(input);
    match id_at(s.as_slice(), 0) {
        Ok(end) => Ok((piece(input, end, s.len()), piece(input, 1, end))),
        Err(e) => Err(e),
    }
}

} // verus!
