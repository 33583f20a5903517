//! The id node.
use vstd::prelude::*;

use crate::parser::error::{Failure, ParseError};
use crate::parser::id::process::{id_at, spec_id};
use crate::parser::scan::{piece, text_of, to_chars};

verus! {

/// The id of a tag, without the leading `#`.
#[derive(Debug, PartialEq)]
pub struct IdNode {
    pub id: String,
}

impl View for IdNode {
    type V = Seq<char>;

    open spec fn view(&self) -> Seq<char> {
        self.id@
    }
}


/// Reads an id selector from the start of `input`.
pub fn id_node(input: &str) -> (r: Result<(&str, IdNode), ParseError>)
    ensures
        match r {
            Ok((rest, node)) => {
                &&& spec_id(input@, 0) matches Ok(end)
                &&& node@ == input@.subrange(1, end)
                &&& rest@ == input@.subrange(end, input@.len() as int)
            },
            Err(e) => spec_id(input@, 0) == Err::<int, Failure>(e@),
        },
{
    let s = to_chars(input);
    match id_at(s.as_slice(), 0) {
        Ok(end) => Ok((piece(input, end, s.len()), IdNode { id: text_of(s.as_slice(), 1, end) })),
        Err(e) => Err(e),
    }
}

} // verus!
