//! The comment node.
use vstd::prelude::*;

use crate::parser::comment::process::{
    comment_dev_at, comment_native_at, spec_comment_dev, spec_comment_native,
};
use crate::parser::error::{Failure, ParseError};
use crate::parser::model::CommentView;
use crate::parser::scan::{piece, text_of, to_chars};

verus! {

/// A comment. A developer comment (`is_dev`) never reaches the output.
#[derive(Debug, PartialEq)]
pub struct CommentNode {
    pub text: String,
    pub is_dev: bool,
}

impl View for CommentNode {
    type V = CommentView;

    open spec fn view(&self) -> CommentView {
        CommentView { text: self.text@, is_dev: self.is_dev }
    }
}


/// Reads a native comment from the start of `input`: `//!` and the rest of
/// the line.
pub fn comment_native_node(input: &str) -> (r: Result<(&str, CommentNode), ParseError>)
    ensures
        match r {
            Ok((rest, node)) => {
                &&& spec_comment_native(input@, 0) matches Ok(end)
                &&& node@ == CommentView { text: input@.subrange(3, end), is_dev: false }
                &&& rest@ == input@.subrange(end, input@.len() as int)
            },
            Err(e) => spec_comment_native(input@, 0) == Err::<int, Failure>(e@),
        },
{
    let s = to_chars(input);
    match comment_native_at(s.as_slice(), 0) {
        Ok(end) => Ok(
            (
                piece(input, end, s.len()),
                CommentNode { text: text_of(s.as_slice(), 3, end), is_dev: false },
            ),
        ),
        Err(e) => Err(e),
    }
}

/// Reads a developer comment from the start of `input`: `//`, no `!` after
/// it, and the rest of the line.
pub fn comment_dev_node(input: &str) -> (r: Result<(&str, CommentNode), ParseError>)
    ensures
        match r {
            Ok((rest, node)) => {
                &&& spec_comment_dev(input@, 0) matches Ok(end)
                &&& node@ == CommentView { text: input@.subrange(2, end), is_dev: true }
                &&& rest@ == input@.subrange(end, input@.len() as int)
            },
            Err(e) => spec_comment_dev(input@, 0) == Err::<int, Failure>(e@),
        },
{
    let s = to_chars(input);
    match comment_dev_at(s.as_slice(), 0) {
        Ok(end) => Ok(
            (
                piece(input, end, s.len()),
                CommentNode { text: text_of(s.as_slice(), 2, end), is_dev: true },
            ),
        ),
        Err(e) => Err(e),
    }
}

} // verus!
