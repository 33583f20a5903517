//! HSML: an indentation-sensitive template language that compiles to HTML.
//!
//! ```text
//! h1.title Hello
//! .card(data-kind="note")
//!   //! shown in the output
//!   p.
//!     Some text
//!     over two lines.
//! ```
//!
//! The crate has two halves. [`parser`] turns source text into a tree of
//! nodes, [`compiler`] lowers such a tree to an HTML string with no
//! whitespace of its own. [`compile_content`] does both.
//!
//! Every function carries a contract, and Verus proves that the function
//! meets it. The contracts speak of the characters of a text as a
//! sequence: the grammar is a family of functions over such sequences
//! (`spec_parse` and those below it), the HTML of a tree is another
//! (`html_nodes`), and each executable function returns what these say.
//! Positions and offsets count characters, not bytes.
pub mod compiler;
pub mod parser;

use vstd::prelude::*;

use crate::compiler::{compile, html_nodes, HsmlCompileOptions};
use crate::parser::error::{Failure, ParseError};
use crate::parser::model::NodeView;
use crate::parser::parse::{parse, spec_parse};

verus! {

/// Whether `r` is what compiling `source` gives: the HTML of the nodes that
/// the parse gives, or the failure at which the parse stops.
pub open spec fn is_compiled(source: Seq<char>, r: Result<String, ParseError>) -> bool {
    match r {
        Ok(html) => {
            &&& spec_parse(source) matches Ok(nodes)
            &&& html@ == html_nodes(nodes)
        },
        Err(e) => spec_parse(source) == Err::<Seq<NodeView>, Failure>(e@),
    }
}

/// Parses a document and lowers it to HTML in one step.
pub fn compile_content(source: &str) -> (r: Result<String, ParseError>)
    ensures
        is_compiled(source@, r),
{
    match parse(source) {
        Ok((_, ast)) => Ok(compile(&ast, &HsmlCompileOptions {  })),
        Err(e) => Err(e),
    }
}

/// Compiling is a function of the source: two outcomes for one source are
/// the same HTML, or the same failure.
pub proof fn law_compiling_is_deterministic(
    source: Seq<char>,
    first: Result<String, ParseError>,
    second: Result<String, ParseError>,
)
    requires
        is_compiled(source, first),
        is_compiled(source, second),
    ensures
        match (first, second) {
            (Ok(a), Ok(b)) => a@ == b@,
            (Err(a), Err(b)) => a == b,
            _ => false,
        },
{
}

} // verus!
