//! The document: its top-level nodes.
use vstd::prelude::*;

use super::comment::node::CommentNode;
use super::comment::process::{
    dev_comment_starts, is_dev_comment, is_native_comment, native_comment_starts,
};
use super::error::{Failure, ParseError, ParseErrorKind};
use super::indent::unit_view;
use super::model::{
    lemma_nodes_view_empty, lemma_nodes_view_push, lemma_well_formed_push, node_view, nodes_view,
    well_formed_node, well_formed_nodes, CommentView, NodeView,
};
use super::scan::{
    eol_len, eol_len_at, indent_char, is_indent, lemma_line_end_bounds, lemma_skip_blank_bounds,
    line_end, line_end_at, piece, skip_blank, skip_blank_at, text_of, to_chars,
};
use super::tag::node::{lemma_tag_bounds, spec_tag, tag_node_at};
use super::{HsmlNode, RootNode};

verus! {

/// The node that stands at the top level at `q`, the position at which it
/// ends, and the indentation unit after it: a native comment, a developer
/// comment, or a tag at level 0.
pub open spec fn spec_root_node(s: Seq<char>, q: int, unit: Option<Seq<char>>) -> Result<
    (int, NodeView, Option<Seq<char>>),
    Failure,
> {
    if is_native_comment(s, q) {
        Ok(
            (
                line_end(s, q + 3),
                NodeView::Comment(
                    CommentView { text: s.subrange(q + 3, line_end(s, q + 3)), is_dev: false },
                ),
                unit,
            ),
        )
    } else if is_dev_comment(s, q) {
        Ok(
            (
                line_end(s, q + 2),
                NodeView::Comment(
                    CommentView { text: s.subrange(q + 2, line_end(s, q + 2)), is_dev: true },
                ),
                unit,
            ),
        )
    } else {
        match spec_tag(s, q, 0, unit) {
            Ok((e, t, unit2)) => Ok((e, NodeView::Tag(t), unit2)),
            Err(f) => Err(f),
        }
    }
}

/// The top-level nodes from the line start `p` on, appended to `acc`.
/// Blank lines are passed over. A node starts its line without
/// indentation, and the end of the input or a line terminator follows it.
pub open spec fn spec_root(
    s: Seq<char>,
    p: int,
    unit: Option<Seq<char>>,
    acc: Seq<NodeView>,
) -> Result<Seq<NodeView>, Failure>
    decreases s.len() - p,
{
    let q = skip_blank(s, p);
    if p < 0 || q >= s.len() {
        Ok(acc)
    } else if is_indent(s[q]) {
        Err(Failure { at: q, kind: ParseErrorKind::InconsistentIndent })
    } else {
        match spec_root_node(s, q, unit) {
            Err(f) => Err(f),
            Ok((e, n, unit2)) => if e >= s.len() {
                Ok(acc.push(n))
            } else if eol_len(s, e) > 0 {
                proof {
                    lemma_skip_blank_bounds(s, p);
                    lemma_root_node_bounds(s, q, unit);
                }
                spec_root(s, e + eol_len(s, e), unit2, acc.push(n))
            } else {
                Err(Failure { at: e, kind: ParseErrorKind::UnexpectedInput })
            },
        }
    }
}

/// A top-level node is never empty and ends within the input; it is well
/// formed; and it keeps the indentation unit that was set before it.
pub proof fn lemma_root_node_bounds(s: Seq<char>, q: int, unit: Option<Seq<char>>)
    requires
        0 <= q <= s.len(),
    ensures
        spec_root_node(s, q, unit) matches Ok((e, n, unit2)) ==> {
            &&& q < e <= s.len()
            &&& well_formed_node(n)
            &&& unit is Some ==> unit2 == unit
        },
{
    if is_native_comment(s, q) {
        lemma_line_end_bounds(s, q + 3);
    } else if is_dev_comment(s, q) {
        lemma_line_end_bounds(s, q + 2);
    } else {
        lemma_tag_bounds(s, q, 0, unit);
    }
}

/// The top-level nodes are well formed where those gathered before are.
pub proof fn lemma_root_is_well_formed(
    s: Seq<char>,
    p: int,
    unit: Option<Seq<char>>,
    acc: Seq<NodeView>,
)
    requires
        0 <= p <= s.len(),
        well_formed_nodes(acc),
    ensures
        spec_root(s, p, unit, acc) matches Ok(nodes) ==> well_formed_nodes(nodes),
    decreases s.len() - p,
{
    let q = skip_blank(s, p);
    lemma_skip_blank_bounds(s, p);
    if q < s.len() && !is_indent(s[q]) {
        lemma_root_node_bounds(s, q, unit);
        if let Ok((e, n, unit2)) = spec_root_node(s, q, unit) {
            lemma_well_formed_push(acc, n);
            if e < s.len() && eol_len(s, e) > 0 {
                lemma_root_is_well_formed(s, e + eol_len(s, e), unit2, acc.push(n));
            }
        }
    }
}

/// The top-level nodes of a document, or the failure at which its parse
/// stops. No indentation unit is set when the parse begins.
pub open spec fn spec_parse(s: Seq<char>) -> Result<Seq<NodeView>, Failure> {
    spec_root(s, 0, None, Seq::empty())
}

/// Every document that parses is well formed: its top-level nodes are tags
/// and comments, the children of its tags are tags and comments, and its
/// attribute lists hold attributes and developer comments. So the
/// compiler lowers every document that parses.
pub proof fn law_parsed_document_is_well_formed(source: Seq<char>)
    ensures
        spec_parse(source) matches Ok(nodes) ==> well_formed_nodes(nodes),
{
    lemma_root_is_well_formed(source, 0, None, Seq::empty());
}

/// Parses a document. On success the whole input was read: the rest is
/// empty.
pub fn parse(input: &str) -> (r: Result<(&str, RootNode), ParseError>)
    ensures
        match r {
            Ok((rest, root)) => {
                &&& spec_parse(input@) == Ok::<Seq<NodeView>, Failure>(root@)
                &&& well_formed_nodes(root@)
                &&& rest@ == Seq::<char>::empty()
            },
            Err(e) => spec_parse(input@) == Err::<Seq<NodeView>, Failure>(e@),
        },
{
    let chars = to_chars(input);
    let s = chars.as_slice();
    let mut nodes: Vec<HsmlNode> = Vec::new();
    let mut unit: Option<Vec<char>> = None;
    let mut p: usize = 0;
    proof {
        lemma_nodes_view_empty(nodes);
    }
    loop
        invariant_except_break
            p <= s.len(),
            spec_parse(s@) == spec_root(s@, p as int, unit_view(unit), nodes_view(nodes)),
        invariant
            s@ == input@,
            well_formed_nodes(nodes_view(nodes)),
        ensures
            spec_parse(s@) == Ok::<Seq<NodeView>, Failure>(nodes_view(nodes)),
        decreases s.len() - p,
    {
        let q = skip_blank_at(s, p);
        if q >= s.len() {
            break;
        }
        if indent_char(s[q]) {
            return Err(ParseError { offset: q, kind: ParseErrorKind::InconsistentIndent });
        }
        let ghost before = nodes;
        let e: usize;
        if native_comment_starts(s, q) {
            e = line_end_at(s, q + 3);
            nodes.push(HsmlNode::Comment(CommentNode { text: text_of(s, q + 3, e), is_dev: false }));
        } else if dev_comment_starts(s, q) {
            e = line_end_at(s, q + 2);
            nodes.push(HsmlNode::Comment(CommentNode { text: text_of(s, q + 2, e), is_dev: true }));
        } else {
            match tag_node_at(s, q, 0, unit) {
                Ok((end, node, unit2)) => {
                    e = end;
                    nodes.push(HsmlNode::Tag(node));
                    unit = unit2;
                },
                Err(err) => {
                    return Err(err);
                },
            }
        }
        proof {
            lemma_nodes_view_push(before, nodes, nodes@.last());
            lemma_well_formed_push(nodes_view(before), node_view(nodes@.last()));
        }
        if e >= s.len() {
            break;
        }
        let n = eol_len_at(s, e);
        if n == 0 {
            return Err(ParseError { offset: e, kind: ParseErrorKind::UnexpectedInput });
        }
        p = e + n;
    }
    let rest = piece(input, chars.len(), chars.len());
    Ok((rest, RootNode { nodes }))
}

} // verus!
