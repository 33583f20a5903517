//! The text node.
use vstd::prelude::*;

use crate::parser::error::{Failure, ParseError};
use crate::parser::scan::{piece, text_of, to_chars};
use crate::parser::text::process::{
    block_text, block_text_at, spec_text, spec_text_block, text_at, text_block_at,
};
use crate::parser::HsmlProcessContext;

verus! {

/// The text of a tag, verbatim.
#[derive(Debug, PartialEq, Eq)]
pub struct TextNode {
    pub text: String,
}

impl View for TextNode {
    type V = Seq<char>;

    open spec fn view(&self) -> Seq<char> {
        self.text@
    }
}


/// Reads the text block that the `.` at the start of `input` introduces,
/// for a tag at the context's level, and returns its text: the lines of
/// the block without the indentation that they share, `\n` between two of
/// them.
pub fn text_block_node<'a>(input: &'a str, context: &mut HsmlProcessContext) -> (r: Result<
    (&'a str, TextNode),
    ParseError,
>)
    ensures
        *final(context) == *old(context),
        match r {
            Ok((rest, node)) => {
                &&& spec_text_block(
                    input@,
                    0,
                    old(context).indent_level as int,
                    old(context).unit(),
                ) matches Ok((start, end))
                &&& node@ == block_text(input@, start, end)
                &&& rest@ == input@.subrange(end, input@.len() as int)
            },
            Err(e) => spec_text_block(
                input@,
                0,
                old(context).indent_level as int,
                old(context).unit(),
            ) == Err::<(int, int), Failure>(e@),
        },
{
    let s = to_chars(input);
    let unit = context.unit_chars();
    match text_block_at(s.as_slice(), 0, context.indent_level, &unit) {
        Ok((start, end)) => Ok(
            (piece(input, end, s.len()), TextNode { text: block_text_at(s.as_slice(), start, end) }),
        ),
        Err(e) => Err(e),
    }
}

/// Reads inline text from the start of `input`: a space, then the rest of
/// the line.
pub fn text_node(input: &str) -> (r: Result<(&str, TextNode), ParseError>)
    ensures
        match r {
            Ok((rest, node)) => {
                &&& spec_text(input@, 0) matches Ok(end)
                &&& node@ == input@.subrange(1, end)
                &&& rest@ == input@.subrange(end, input@.len() as int)
            },
            Err(e) => spec_text(input@, 0) == Err::<int, Failure>(e@),
        },
{
    let s = to_chars(input);
    match text_at(s.as_slice(), 0) {
        Ok(end) => Ok(
            (piece(input, end, s.len()), TextNode { text: text_of(s.as_slice(), 1, end) }),
        ),
        Err(e) => Err(e),
    }
}

} // verus!
