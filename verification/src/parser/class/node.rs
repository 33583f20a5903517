//! The class node.
use vstd::prelude::*;

use crate::parser::class::process::{class_at, spec_class};
use crate::parser::error::{Failure, ParseError};
use crate::parser::scan::{piece, text_of, to_chars};

verus! {

/// One class of a tag, without the leading `.`.
#[derive(Debug, PartialEq)]
pub struct ClassNode {
    pub name: String,
}

impl View for ClassNode {
    type V = Seq<char>;

    open spec fn view(&self) -> Seq<char> {
        self.name@
    }
}


/// Reads a class selector from the start of `input`.
pub fn class_node(input: &str) -> (r: Result<(&str, ClassNode), ParseError>)
    ensures
        match r {
            Ok((rest, node)) => {
                &&& spec_class(input@, 0) matches Ok(end)
                &&& node@ == input@.subrange(1, end)
                &&& rest@ == input@.subrange(end, input@.len() as int)
            },
            Err(e) => spec_class(input@, 0) == Err::<int, Failure>(e@),
        },
{
    let s = to_chars(input);
    match class_at(s.as_slice(), 0) {
        Ok(end) => Ok(
            (piece(input, end, s.len()), ClassNode { name: text_of(s.as_slice(), 1, end) }),
        ),
        Err(e) => Err(e),
    }
}

} // verus!
