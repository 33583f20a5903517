//! The mathematical model of the tree: each node as plain sequences.
use vstd::prelude::*;

use super::tag::node::TagNode;
use super::HsmlNode;

verus! {

/// The model of an attribute: its key as written, and its value without the
/// quotes where it has one.
pub struct AttributeView {
    pub key: Seq<char>,
    pub value: Option<Seq<char>>,
}

/// The model of a comment: its text, and whether it is a developer comment.
pub struct CommentView {
    pub text: Seq<char>,
    pub is_dev: bool,
}

/// The model of a tag.
pub struct TagView {
    pub tag: Seq<char>,
    pub id: Option<Seq<char>>,
    pub classes: Option<Seq<Seq<char>>>,
    pub attributes: Option<Seq<NodeView>>,
    pub text: Option<Seq<char>>,
    pub children: Option<Seq<NodeView>>,
}

/// The model of a node of any kind.
pub enum NodeView {
    Root(Seq<NodeView>),
    Tag(TagView),
    Comment(CommentView),
    Id(Seq<char>),
    Class(Seq<char>),
    Attribute(AttributeView),
    Text(Seq<char>),
}

/// The model of a list of nodes: the model of each, in order.
pub open spec fn nodes_view(v: Vec<HsmlNode>) -> Seq<NodeView>
    decreases v,
{
    Seq::new(
        v@.len(),
        |i: int|
            if 0 <= i < v@.len() {
                node_view(v@[i])
            } else {
                NodeView::Text(Seq::empty())
            },
    )
}

/// The model of a node.
pub open spec fn node_view(n: HsmlNode) -> NodeView
    decreases n,
{
    match n {
        HsmlNode::Root(r) => NodeView::Root(nodes_view(r.nodes)),
        HsmlNode::Tag(t) => NodeView::Tag(tag_view(t)),
        HsmlNode::Comment(c) => NodeView::Comment(c@),
        HsmlNode::Id(i) => NodeView::Id(i@),
        HsmlNode::Class(c) => NodeView::Class(c@),
        HsmlNode::Attribute(a) => NodeView::Attribute(a@),
        HsmlNode::Text(t) => NodeView::Text(t@),
    }
}

/// The model of a tag.
pub open spec fn tag_view(t: TagNode) -> TagView
    decreases t,
{
    TagView {
        tag: t.tag@,
        id: match t.id {
            Some(i) => Some(i@),
            None => None,
        },
        classes: match t.classes {
            Some(cs) => Some(Seq::new(cs@.len(), |i: int| cs@[i]@)),
            None => None,
        },
        attributes: match t.attributes {
            Some(v) => Some(nodes_view(v)),
            None => None,
        },
        text: match t.text {
            Some(x) => Some(x@),
            None => None,
        },
        children: match t.children {
            Some(v) => Some(nodes_view(v)),
            None => None,
        },
    }
}

/// What may stand in an attribute list: an attribute or a developer
/// comment.
pub open spec fn is_attribute_entry(n: NodeView) -> bool {
    match n {
        NodeView::Attribute(_) => true,
        NodeView::Comment(c) => c.is_dev,
        _ => false,
    }
}

/// Whether a tag is well formed: its attribute list holds attributes and
/// developer comments only, its children are tags and comments, and the
/// same holds of every tag below it.
pub open spec fn well_formed_tag(t: TagView) -> bool
    decreases t, 0int,
{
    &&& t.attributes matches Some(attrs) ==> forall|i: int|
        0 <= i < attrs.len() ==> is_attribute_entry(#[trigger] attrs[i])
    &&& t.children matches Some(kids) ==> forall|i: int|
        0 <= i < kids.len() ==> well_formed_node(#[trigger] kids[i])
}

/// Whether a node is well formed where a tag or a comment may stand.
pub open spec fn well_formed_node(n: NodeView) -> bool
    decreases n, 0int,
{
    match n {
        NodeView::Tag(t) => well_formed_tag(t),
        NodeView::Comment(_) => true,
        _ => false,
    }
}

/// Whether each node of a list is well formed.
pub open spec fn well_formed_nodes(nodes: Seq<NodeView>) -> bool {
    forall|i: int| 0 <= i < nodes.len() ==> well_formed_node(#[trigger] nodes[i])
}

/// Pushing a node onto a list pushes its model onto the model of the list.
pub proof fn lemma_nodes_view_push(before: Vec<HsmlNode>, after: Vec<HsmlNode>, n: HsmlNode)
    requires
        after@ == before@.push(n),
    ensures
        nodes_view(after) == nodes_view(before).push(node_view(n)),
{
    assert(nodes_view(after) =~= nodes_view(before).push(node_view(n)));
}

/// The model of an empty list is empty.
pub proof fn lemma_nodes_view_empty(v: Vec<HsmlNode>)
    requires
        v@.len() == 0,
    ensures
        nodes_view(v) == Seq::<NodeView>::empty(),
{
    assert(nodes_view(v) =~= Seq::<NodeView>::empty());
}

/// A list of well-formed nodes stays one when a well-formed node is pushed.
pub proof fn lemma_well_formed_push(nodes: Seq<NodeView>, n: NodeView)
    requires
        well_formed_nodes(nodes),
        well_formed_node(n),
    ensures
        well_formed_nodes(nodes.push(n)),
{
    assert forall|i: int| 0 <= i < nodes.push(n).len() implies well_formed_node(
        #[trigger] nodes.push(n)[i],
    ) by {
        if i < nodes.len() {
            assert(nodes.push(n)[i] == nodes[i]);
        }
    }
}


/// Tells whether each entry of an attribute list is an attribute or a
/// developer comment.
pub fn attributes_are_entries(attributes: &Vec<HsmlNode>) -> (b: bool)
    ensures
        b == forall|i: int|
            0 <= i < attributes@.len() ==> is_attribute_entry(#[trigger] nodes_view(*attributes)[i]),
{
    let mut i: usize = 0;
    while i < attributes.len()
        invariant
            i <= attributes.len(),
            forall|j: int| 0 <= j < i ==> is_attribute_entry(#[trigger] nodes_view(*attributes)[j]),
        decreases attributes.len() - i,
    {
        let entry = match &attributes[i] {
            HsmlNode::Attribute(_) => true,
            HsmlNode::Comment(c) => c.is_dev,
            _ => false,
        };
        if !entry {
            assert(!is_attribute_entry(nodes_view(*attributes)[i as int]));
            return false;
        }
        i += 1;
    }
    true
}

/// Tells whether a tag is well formed.
pub fn tag_is_well_formed(tag: &TagNode) -> (b: bool)
    ensures
        b == well_formed_tag(tag@),
    decreases tag,
{
    let ghost t = tag_view(*tag);
    if let Some(attributes) = &tag.attributes {
        assert(t.attributes == Some(nodes_view(*attributes)));
        assert(nodes_view(*attributes).len() == attributes@.len());
        if !attributes_are_entries(attributes) {
            proof {
                let k = choose|i: int|
                    0 <= i < attributes@.len() && !is_attribute_entry(
                        #[trigger] nodes_view(*attributes)[i],
                    );
                assert(!is_attribute_entry(t.attributes->Some_0[k]));
            }
            return false;
        }
    }
    assert(t.attributes matches Some(attrs) ==> forall|i: int|
        0 <= i < attrs.len() ==> is_attribute_entry(#[trigger] attrs[i]));
    match &tag.children {
        Some(children) => {
            let b = nodes_are_well_formed(children);
            proof {
                let kids = t.children->Some_0;
                assert(kids == nodes_view(*children));
                if b {
                    assert forall|i: int| 0 <= i < kids.len() implies well_formed_node(
                        #[trigger] kids[i],
                    ) by {}
                    assert(well_formed_tag(t));
                } else {
                    let k = choose|i: int| 0 <= i < kids.len() && !well_formed_node(#[trigger] kids[i]);
                    assert(!well_formed_node(kids[k]));
                    assert(!well_formed_tag(t));
                }
            }
            b
        },
        None => {
            assert(well_formed_tag(t));
            true
        },
    }
}

/// Tells whether each node of a list is well formed.
pub fn nodes_are_well_formed(nodes: &Vec<HsmlNode>) -> (b: bool)
    ensures
        b == well_formed_nodes(nodes_view(*nodes)),
    decreases nodes,
{
    let mut i: usize = 0;
    while i < nodes.len()
        invariant
            i <= nodes.len(),
            forall|j: int| 0 <= j < i ==> well_formed_node(#[trigger] nodes_view(*nodes)[j]),
        decreases nodes.len() - i,
    {
        let good = match &nodes[i] {
            HsmlNode::Tag(tag) => tag_is_well_formed(tag),
            HsmlNode::Comment(_) => true,
            _ => false,
        };
        if !good {
            assert(!well_formed_node(nodes_view(*nodes)[i as int]));
            return false;
        }
        i += 1;
    }
    true
}

} // verus!
