//! The parser: source text to a tree of nodes.
use vstd::prelude::*;

use self::attribute::node::AttributeNode;
use self::class::node::ClassNode;
use self::comment::node::CommentNode;
use self::error::{unexpected, unexpected_at, Failure, ParseError};
use self::id::node::IdNode;
use self::model::{node_view, nodes_are_well_formed, nodes_view, well_formed_nodes, NodeView};
use self::scan::{eol_len, eol_len_at, piece, to_chars, token_agrees};
use self::tag::node::TagNode;
use self::text::node::TextNode;

pub mod attribute;
pub mod class;
pub mod comment;
pub mod error;
pub mod id;
pub mod indent;
pub mod model;
pub mod parse;
pub mod scan;
pub mod tag;
pub mod text;

verus! {

/// The root of a document: its top-level nodes in source order.
#[derive(Debug, PartialEq)]
pub struct RootNode {
    pub nodes: Vec<HsmlNode>,
}

/// A node of the tree, of any kind.
#[derive(Debug, PartialEq)]
pub enum HsmlNode {
    Root(RootNode),
    Tag(TagNode),
    Comment(CommentNode),
    Id(IdNode),
    Class(ClassNode),
    Attribute(AttributeNode),
    Text(TextNode),
}

impl View for RootNode {
    type V = Seq<NodeView>;

    open spec fn view(&self) -> Seq<NodeView> {
        nodes_view(self.nodes)
    }
}

impl RootNode {
    /// Tells whether the document is well formed: its top-level nodes are
    /// tags and comments, and each tag is well formed. The compiler lowers
    /// well-formed documents.
    pub fn is_well_formed(&self) -> (b: bool)
        ensures
            b == well_formed_nodes(self@),
    {
        nodes_are_well_formed(&self.nodes)
    }
}

impl View for HsmlNode {
    type V = NodeView;

    open spec fn view(&self) -> NodeView {
        node_view(*self)
    }
}

/// The state that one parse threads through its calls: the nesting level of
/// the tag being read, and the indentation unit once a first indented line
/// has set it.
#[derive(Debug)]
pub struct HsmlProcessContext {
    pub indent_level: usize,
    pub indent_string: Option<String>,
}

impl HsmlProcessContext {
    /// The indentation unit as a character sequence.
    pub open spec fn unit(&self) -> Option<Seq<char>> {
        match self.indent_string {
            Some(u) => Some(u@),
            None => None,
        }
    }
}

impl Default for HsmlProcessContext {
    fn default() -> (r: HsmlProcessContext)
        ensures
            r.indent_level == 0,
            r.indent_string is None,
    {
        HsmlProcessContext { indent_level: 0, indent_string: None }
    }
}

/// The position after the line terminator at `i`: after `\n`, or after
/// `\r\n`.
pub open spec fn spec_newline(s: Seq<char>, i: int) -> Result<int, Failure> {
    if eol_len(s, i) > 0 {
        Ok(i + eol_len(s, i))
    } else {
        Err(unexpected(s, i))
    }
}

/// Reads one line terminator from the start of `input`: `\n` or `\r\n`.
pub fn process_newline(input: &str) -> (r: Result<(&str, &str), ParseError>)
    ensures
        token_agrees(input@, r, 0, spec_newline(input@, 0)),
{
    let s = to_chars(input);
    let n = eol_len_at(s.as_slice(), 0);
    if n > 0 {
        Ok((piece(input, n, s.len()), piece(input, 0, n)))
    } else {
        Err(unexpected_at(s.as_slice(), 0))
    }
}

} // verus!
