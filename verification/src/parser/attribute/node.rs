//! The attribute node.
use vstd::prelude::*;

use crate::parser::attribute::process::{
    attribute_at, lemma_attribute_bounds, spec_attribute, spec_attribute_key,
};
use crate::parser::comment::node::CommentNode;
use crate::parser::comment::process::{dev_comment_starts, is_dev_comment};
use crate::parser::error::{unexpected, unexpected_at, Failure, ParseError, ParseErrorKind};
use crate::parser::model::{
    is_attribute_entry, lemma_nodes_view_empty, lemma_nodes_view_push, nodes_view, AttributeView,
    CommentView, NodeView,
};
use crate::parser::scan::{
    lemma_line_end_bounds, line_end, line_end_at, piece, text_of, to_chars,
};
use crate::parser::{HsmlNode, HsmlProcessContext};

verus! {

/// One attribute of a tag.
#[derive(Debug, PartialEq)]
pub struct AttributeNode {
    pub key: String,
    pub value: Option<String>,
}

impl View for AttributeNode {
    type V = AttributeView;

    open spec fn view(&self) -> AttributeView {
        AttributeView {
            key: self.key@,
            value: match self.value {
                Some(v) => Some(v@),
                None => None,
            },
        }
    }
}


/// The characters that separate the entries of an attribute list:
/// whitespace, line breaks and commas.
pub open spec fn is_separator(c: char) -> bool {
    c == ' ' || c == '\t' || c == '\r' || c == '\n' || c == ','
}

/// The end of the run of separators that starts at `i`.
pub open spec fn separators_end(s: Seq<char>, i: int) -> int
    decreases s.len() - i,
{
    if 0 <= i < s.len() && is_separator(s[i]) {
        separators_end(s, i + 1)
    } else {
        i
    }
}

/// The attribute whose text runs from `i` to `end` and whose key ends at
/// `k`: the key as written, and the value between the quotes where `=`
/// follows the key.
pub open spec fn attribute_model(s: Seq<char>, i: int, k: int, end: int) -> AttributeView {
    AttributeView {
        key: s.subrange(i, k),
        value: if k < end {
            Some(s.subrange(k + 2, end - 1))
        } else {
            None
        },
    }
}

/// The attribute that starts at `i`, and its end.
pub open spec fn spec_attribute_node(s: Seq<char>, i: int) -> Result<
    (int, AttributeView),
    Failure,
> {
    match spec_attribute(s, i) {
        Ok(end) => Ok((end, attribute_model(s, i, spec_attribute_key(s, i)->Ok_0, end))),
        Err(f) => Err(f),
    }
}

/// The entries of the attribute list whose scan has reached `i`, appended
/// to `acc`, and the position after the `)` that closes the list. After
/// any separators stands the closing `)`, or a developer comment, which
/// runs to the end of its line, or an attribute.
pub open spec fn attribute_items(s: Seq<char>, i: int, acc: Seq<NodeView>) -> Result<
    (int, Seq<NodeView>),
    Failure,
>
    decreases s.len() - i,
{
    let j = separators_end(s, i);
    if i < 0 || j >= s.len() {
        Err(Failure { at: s.len() as int, kind: ParseErrorKind::IncompleteInput })
    } else if s[j] == ')' {
        Ok((j + 1, acc))
    } else if is_dev_comment(s, j) {
        proof {
            lemma_separators_end_bounds(s, i);
            lemma_line_end_bounds(s, j + 2);
        }
        attribute_items(
            s,
            line_end(s, j + 2),
            acc.push(
                NodeView::Comment(
                    CommentView { text: s.subrange(j + 2, line_end(s, j + 2)), is_dev: true },
                ),
            ),
        )
    } else {
        match spec_attribute_node(s, j) {
            Ok((e, a)) => {
                proof {
                    lemma_separators_end_bounds(s, i);
                    lemma_attribute_bounds(s, j);
                }
                attribute_items(s, e, acc.push(NodeView::Attribute(a)))
            },
            Err(f) => Err(f),
        }
    }
}

/// A run of separators ends at or after `i`, within the input.
pub proof fn lemma_separators_end_bounds(s: Seq<char>, i: int)
    requires
        0 <= i <= s.len(),
    ensures
        i <= separators_end(s, i) <= s.len(),
    decreases s.len() - i,
{
    if i < s.len() && is_separator(s[i]) {
        lemma_separators_end_bounds(s, i + 1);
    }
}

/// The entries of an attribute list end after the `)` that closes the
/// list, within the input, and each is an attribute or a developer
/// comment where those gathered before are.
pub proof fn lemma_attribute_items_bounds(s: Seq<char>, i: int, acc: Seq<NodeView>)
    requires
        0 <= i <= s.len(),
        forall|n: int| 0 <= n < acc.len() ==> is_attribute_entry(#[trigger] acc[n]),
    ensures
        attribute_items(s, i, acc) matches Ok((e, items)) ==> {
            &&& i < e <= s.len()
            &&& forall|n: int| 0 <= n < items.len() ==> is_attribute_entry(#[trigger] items[n])
        },
    decreases s.len() - i,
{
    let j = separators_end(s, i);
    lemma_separators_end_bounds(s, i);
    if j < s.len() && s[j] != ')' {
        if is_dev_comment(s, j) {
            lemma_line_end_bounds(s, j + 2);
            lemma_attribute_items_bounds(
                s,
                line_end(s, j + 2),
                acc.push(
                    NodeView::Comment(
                        CommentView { text: s.subrange(j + 2, line_end(s, j + 2)), is_dev: true },
                    ),
                ),
            );
        } else {
            lemma_attribute_bounds(s, j);
            if let Ok((e, a)) = spec_attribute_node(s, j) {
                lemma_attribute_items_bounds(s, e, acc.push(NodeView::Attribute(a)));
            }
        }
    }
}

/// An attribute list holds its parentheses and ends within the input, and
/// each of its entries is an attribute or a developer comment.
pub proof fn lemma_attribute_nodes_bounds(s: Seq<char>, i: int)
    requires
        0 <= i <= s.len(),
    ensures
        spec_attribute_nodes(s, i) matches Ok((e, items)) ==> {
            &&& i + 1 < e <= s.len()
            &&& forall|n: int| 0 <= n < items.len() ==> is_attribute_entry(#[trigger] items[n])
        },
{
    if i < s.len() && s[i] == '(' {
        lemma_attribute_items_bounds(s, i + 1, Seq::empty());
    }
}

/// The attribute list that starts at `i`: a `(`, the entries, and the `)`
/// that closes the list.
pub open spec fn spec_attribute_nodes(s: Seq<char>, i: int) -> Result<
    (int, Seq<NodeView>),
    Failure,
> {
    if 0 <= i < s.len() && s[i] == '(' {
        attribute_items(s, i + 1, Seq::empty())
    } else {
        Err(unexpected(s, i))
    }
}

/// What comes out of a parser of nodes: on success the position after
/// them, and the nodes; on failure the failure.
pub open spec fn nodes_agree(
    r: Result<(usize, Vec<HsmlNode>), ParseError>,
    expected: Result<(int, Seq<NodeView>), Failure>,
) -> bool {
    match r {
        Ok((end, nodes)) => expected == Ok::<(int, Seq<NodeView>), Failure>(
            (end as int, nodes_view(nodes)),
        ),
        Err(e) => expected == Err::<(int, Seq<NodeView>), Failure>(e@),
    }
}

/// Passes over the separators that start at `i`.
fn separators_end_at(s: &[char], i: usize) -> (e: usize)
    requires
        i <= s.len(),
    ensures
        e == separators_end(s@, i as int),
        i <= e <= s.len(),
{
    let mut e: usize = i;
    while e < s.len() && (s[e] == ' ' || s[e] == '\t' || s[e] == '\r' || s[e] == '\n' || s[e]
        == ',')
        invariant
            i <= e <= s.len(),
            separators_end(s@, i as int) == separators_end(s@, e as int),
        decreases s.len() - e,
    {
        e += 1;
    }
    e
}

/// Reads the attribute that starts at `i`.
pub fn attribute_node_at(s: &[char], i: usize) -> (r: Result<(usize, AttributeNode), ParseError>)
    requires
        i <= s.len(),
    ensures
        match r {
            Ok((end, node)) => {
                &&& spec_attribute_node(s@, i as int) == Ok::<(int, AttributeView), Failure>(
                    (end as int, node@),
                )
                &&& i < end <= s.len()
            },
            Err(e) => spec_attribute_node(s@, i as int) == Err::<(int, AttributeView), Failure>(
                e@,
            ),
        },
{
    match attribute_at(s, i) {
        Ok((k, end)) => {
            let key = text_of(s, i, k);
            let value = if k < end {
                Some(text_of(s, k + 2, end - 1))
            } else {
                None
            };
            Ok((end, AttributeNode { key, value }))
        },
        Err(e) => Err(e),
    }
}

/// Reads the attribute list that starts at `i`.
pub fn attribute_nodes_at(s: &[char], i: usize) -> (r: Result<(usize, Vec<HsmlNode>), ParseError>)
    requires
        i <= s.len(),
    ensures
        nodes_agree(r, spec_attribute_nodes(s@, i as int)),
        r matches Ok((end, nodes)) ==> i < end <= s.len() && forall|j: int|
            0 <= j < nodes@.len() ==> is_attribute_entry(#[trigger] nodes_view(nodes)[j]),
{
    if !(i < s.len() && s[i] == '(') {
        return Err(unexpected_at(s, i));
    }
    let mut nodes: Vec<HsmlNode> = Vec::new();
    let mut p: usize = i + 1;
    proof {
        lemma_nodes_view_empty(nodes);
    }
    loop
        invariant
            i < p <= s.len(),
            spec_attribute_nodes(s@, i as int) == attribute_items(
                s@,
                p as int,
                nodes_view(nodes),
            ),
            forall|j: int|
                0 <= j < nodes@.len() ==> is_attribute_entry(#[trigger] nodes_view(nodes)[j]),
        decreases s.len() - p,
    {
        let j = separators_end_at(s, p);
        if j >= s.len() {
            return Err(ParseError { offset: s.len(), kind: ParseErrorKind::IncompleteInput });
        }
        if s[j] == ')' {
            return Ok((j + 1, nodes));
        }
        let ghost before = nodes;
        if dev_comment_starts(s, j) {
            let e = line_end_at(s, j + 2);
            let node = HsmlNode::Comment(
                CommentNode { text: text_of(s, j + 2, e), is_dev: true },
            );
            nodes.push(node);
            proof {
                lemma_nodes_view_push(before, nodes, nodes@.last());
            }
            p = e;
        } else {
            match attribute_node_at(s, j) {
                Ok((e, a)) => {
                    nodes.push(HsmlNode::Attribute(a));
                    proof {
                        lemma_nodes_view_push(before, nodes, nodes@.last());
                    }
                    p = e;
                },
                Err(e) => {
                    return Err(e);
                },
            }
        }
    }
}

/// Reads one attribute from the start of `input`.
pub fn attribute_node<'a>(input: &'a str, context: &mut HsmlProcessContext) -> (r: Result<
    (&'a str, AttributeNode),
    ParseError,
>)
    ensures
        *final(context) == *old(context),
        match r {
            Ok((rest, node)) => {
                &&& spec_attribute_node(input@, 0) matches Ok((end, a))
                &&& node@ == a
                &&& rest@ == input@.subrange(end, input@.len() as int)
            },
            Err(e) => spec_attribute_node(input@, 0) == Err::<(int, AttributeView), Failure>(e@),
        },
{
    let s = to_chars(input);
    match attribute_node_at(s.as_slice(), 0) {
        Ok((end, node)) => Ok((piece(input, end, s.len()), node)),
        Err(e) => Err(e),
    }
}

/// Reads an attribute list from the start of `input`: `(`, then attributes
/// and developer comments with whitespace, line breaks and commas between
/// them, then `)`.
pub fn attribute_nodes<'a>(input: &'a str, context: &mut HsmlProcessContext) -> (r: Result<
    (&'a str, Vec<HsmlNode>),
    ParseError,
>)
    ensures
        *final(context) == *old(context),
        match r {
            Ok((rest, nodes)) => {
                &&& spec_attribute_nodes(input@, 0) matches Ok((end, items))
                &&& nodes_view(nodes) == items
                &&& rest@ == input@.subrange(end, input@.len() as int)
            },
            Err(e) => spec_attribute_nodes(input@, 0) == Err::<(int, Seq<NodeView>), Failure>(
                e@,
            ),
        },
{
    let s = to_chars(input);
    match attribute_nodes_at(s.as_slice(), 0) {
        Ok((end, nodes)) => Ok((piece(input, end, s.len()), nodes)),
        Err(e) => Err(e),
    }
}

} // verus!
