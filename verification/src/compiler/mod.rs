//! The compiler: a tree of nodes to an HTML string.
//!
//! The output holds no whitespace of its own between elements. Names, text
//! and attribute values pass through as they are.
use vstd::prelude::*;

use crate::parser::attribute::node::AttributeNode;
use crate::parser::class::node::ClassNode;
use crate::parser::comment::node::CommentNode;
use crate::parser::id::node::IdNode;
use crate::parser::model::{
    is_attribute_entry, nodes_view, tag_view, well_formed_node, well_formed_nodes, well_formed_tag,
    CommentView, NodeView, TagView,
};
use crate::parser::tag::node::TagNode;
use crate::parser::{HsmlNode, RootNode};

pub mod balance;

verus! {

/// The options of a compilation. None is recognized yet.
#[derive(Debug)]
pub struct HsmlCompileOptions {}

impl Default for HsmlCompileOptions {
    fn default() -> (r: HsmlCompileOptions) {
        HsmlCompileOptions {  }
    }
}

/// What one entry of an attribute list adds to the opening tag: a space and
/// the key, then `="value"` where the attribute has a value. A comment in
/// the list adds nothing.
pub open spec fn html_attribute(a: NodeView) -> Seq<char> {
    match a {
        NodeView::Attribute(av) => seq![' '] + av.key + match av.value {
            Some(v) => seq!['=', '"'] + v + seq!['"'],
            None => Seq::empty(),
        },
        _ => Seq::empty(),
    }
}

/// What an attribute list adds to the opening tag: each entry in order.
pub open spec fn html_attributes(attrs: Seq<NodeView>) -> Seq<char>
    decreases attrs.len(),
{
    if attrs.len() == 0 {
        Seq::empty()
    } else {
        html_attributes(attrs.drop_last()) + html_attribute(attrs.last())
    }
}

/// The class names in order, with one space between two of them.
pub open spec fn class_names(classes: Seq<Seq<char>>) -> Seq<char>
    decreases classes.len(),
{
    if classes.len() == 0 {
        Seq::empty()
    } else if classes.len() == 1 {
        classes[0]
    } else {
        class_names(classes.drop_last()) + seq![' '] + classes.last()
    }
}

/// What the id adds to the opening tag: ` id="…"`, or nothing.
pub open spec fn html_id(id: Option<Seq<char>>) -> Seq<char> {
    match id {
        Some(id) => seq![' ', 'i', 'd', '=', '"'] + id + seq!['"'],
        None => Seq::empty(),
    }
}

/// What the classes add to the opening tag: ` class="…"` with the names
/// in order, or nothing.
pub open spec fn html_classes(classes: Option<Seq<Seq<char>>>) -> Seq<char> {
    match classes {
        Some(cs) => seq![' ', 'c', 'l', 'a', 's', 's', '=', '"'] + class_names(cs) + seq!['"'],
        None => Seq::empty(),
    }
}

/// What the attribute list adds to the opening tag, or nothing.
pub open spec fn html_attribute_list(attributes: Option<Seq<NodeView>>) -> Seq<char> {
    match attributes {
        Some(attrs) => html_attributes(attrs),
        None => Seq::empty(),
    }
}

/// What stands between `<` and the end of the opening tag: the name, the
/// id, the classes, the attributes, in this order.
pub open spec fn html_head(t: TagView) -> Seq<char> {
    t.tag + html_id(t.id) + html_classes(t.classes) + html_attribute_list(t.attributes)
}

/// Whether a tag is written as `<tag .../>`: it has neither children nor
/// text.
pub open spec fn is_self_closing(t: TagView) -> bool {
    t.children is None && t.text is None
}

/// The text of a tag, or nothing.
pub open spec fn html_text(text: Option<Seq<char>>) -> Seq<char> {
    match text {
        Some(x) => x,
        None => Seq::empty(),
    }
}

/// The HTML of a tag.
pub open spec fn html_tag(t: TagView) -> Seq<char>
    decreases t, 0int,
{
    if is_self_closing(t) {
        seq!['<'] + html_head(t) + seq!['/', '>']
    } else {
        seq!['<'] + html_head(t) + seq!['>'] + html_text(t.text) + (match t.children {
            Some(kids) => html_nodes(kids),
            None => Seq::empty(),
        }) + seq!['<', '/'] + t.tag + seq!['>']
    }
}

/// The HTML of a comment that is emitted: `<!--`, the text, ` -->`.
pub open spec fn html_comment(text: Seq<char>) -> Seq<char> {
    seq!['<', '!', '-', '-'] + text + seq![' ', '-', '-', '>']
}

/// The HTML of a node where a tag or a comment may stand. A developer
/// comment gives nothing.
pub open spec fn html_node(n: NodeView) -> Seq<char>
    decreases n, 0int,
{
    match n {
        NodeView::Tag(t) => html_tag(t),
        NodeView::Comment(c) => if c.is_dev {
            Seq::empty()
        } else {
            html_comment(c.text)
        },
        _ => Seq::empty(),
    }
}

/// The HTML of a list of nodes: that of each, in order, with nothing
/// between them.
pub open spec fn html_nodes(nodes: Seq<NodeView>) -> Seq<char>
    decreases nodes, 1int,
{
    if nodes.len() == 0 {
        Seq::empty()
    } else {
        html_nodes(nodes.drop_last()) + html_node(nodes.last())
    }
}

/// Appending a node to a list appends its HTML to that of the list.
pub proof fn lemma_html_nodes_push(nodes: Seq<NodeView>, n: NodeView)
    ensures
        html_nodes(nodes.push(n)) == html_nodes(nodes) + html_node(n),
{
    assert(nodes.push(n).drop_last() == nodes);
}

/// Appending an entry to an attribute list appends what it adds to the
/// opening tag.
pub proof fn lemma_html_attributes_push(attrs: Seq<NodeView>, a: NodeView)
    ensures
        html_attributes(attrs.push(a)) == html_attributes(attrs) + html_attribute(a),
{
    assert(attrs.push(a).drop_last() == attrs);
}

/// Appending a class appends its name, after a space where it is not the
/// first.
pub proof fn lemma_class_names_push(classes: Seq<Seq<char>>, c: Seq<char>)
    ensures
        class_names(classes.push(c)) == if classes.len() == 0 {
            c
        } else {
            class_names(classes) + seq![' '] + c
        },
{
    assert(classes.push(c).drop_last() == classes);
}

/// Appends ` id="…"`.
fn push_id(html_content: &mut String, id_node: &IdNode)
    ensures
        final(html_content)@ == old(html_content)@ + html_id(Some(id_node@)),
{
    proof {
        reveal_strlit(" id=\"");
    }
    html_content.append(" id=\"");
    html_content.append(id_node.id.as_str());
    html_content.push('"');
    assert(" id=\""@ == seq![' ', 'i', 'd', '=', '"']);
    assert(html_content@ == old(html_content)@ + html_id(Some(id_node@)));
}

/// Appends ` class="…"`, the names in order with one space between two of
/// them.
fn push_classes(html_content: &mut String, class_nodes: &Vec<ClassNode>)
    ensures
        final(html_content)@ == old(html_content)@ + html_classes(
            Some(Seq::new(class_nodes@.len(), |i: int| class_nodes@[i]@)),
        ),
{
    proof {
        reveal_strlit(" class=\"");
    }
    html_content.append(" class=\"");
    assert(" class=\""@ == seq![' ', 'c', 'l', 'a', 's', 's', '=', '"']);
    let ghost opened = html_content@;
    let ghost cs = Seq::new(class_nodes@.len(), |i: int| class_nodes@[i]@);
    let mut i: usize = 0;
    while i < class_nodes.len()
        invariant
            i <= class_nodes.len(),
            cs == Seq::new(class_nodes@.len(), |i: int| class_nodes@[i]@),
            html_content@ == opened + class_names(cs.take(i as int)),
        decreases class_nodes.len() - i,
    {
        if i > 0 {
            html_content.push(' ');
        }
        html_content.append(class_nodes[i].name.as_str());
        proof {
            let c = class_nodes@[i as int]@;
            assert(cs.take(i + 1) == cs.take(i as int).push(c));
            lemma_class_names_push(cs.take(i as int), c);
            assert(html_content@ == opened + class_names(cs.take(i + 1)));
        }
        i += 1;
    }
    proof {
        assert(cs.take(cs.len() as int) == cs);
    }
    html_content.push('"');
    assert(html_content@ == old(html_content)@ + html_classes(Some(cs)));
}

/// Appends what an attribute list adds to the opening tag.
fn push_attributes(html_content: &mut String, attributes: &Vec<HsmlNode>)
    requires
        forall|j: int|
            0 <= j < attributes@.len() ==> is_attribute_entry(#[trigger] nodes_view(*attributes)[j]),
    ensures
        final(html_content)@ == old(html_content)@ + html_attributes(nodes_view(*attributes)),
{
    let ghost opened = html_content@;
    let ghost attrs = nodes_view(*attributes);
    let mut i: usize = 0;
    while i < attributes.len()
        invariant
            i <= attributes.len(),
            attrs == nodes_view(*attributes),
            forall|j: int| 0 <= j < attrs.len() ==> is_attribute_entry(#[trigger] attrs[j]),
            html_content@ == opened + html_attributes(attrs.take(i as int)),
        decreases attributes.len() - i,
    {
        let ghost before = html_content@;
        proof {
            assert(is_attribute_entry(attrs[i as int]));
            assert(attrs[i as int] == attributes@[i as int]@);
        }
        match &attributes[i] {
            HsmlNode::Attribute(AttributeNode { key, value }) => {
                html_content.push(' ');
                html_content.append(key.as_str());

                if let Some(value) = value {
                    html_content.push('=');
                    html_content.push('"');
                    html_content.append(value.as_str());
                    html_content.push('"');
                }
            },
            HsmlNode::Comment(_) => {},
            _ => {
                assert(false);
            },
        }
        proof {
            assert(html_content@ == before + html_attribute(attrs[i as int]));
            assert(attrs.take(i + 1) == attrs.take(i as int).push(attrs[i as int]));
            lemma_html_attributes_push(attrs.take(i as int), attrs[i as int]);
            assert(html_content@ == opened + html_attributes(attrs.take(i + 1)));
        }
        i += 1;
    }
    proof {
        assert(attrs.take(attrs.len() as int) == attrs);
    }
}

/// Appends the HTML of each child, in order.
fn push_children(
    html_content: &mut String,
    child_nodes: &Vec<HsmlNode>,
    options: &HsmlCompileOptions,
)
    requires
        well_formed_nodes(nodes_view(*child_nodes)),
    ensures
        final(html_content)@ == old(html_content)@ + html_nodes(nodes_view(*child_nodes)),
    decreases child_nodes,
{
    let ghost opened = html_content@;
    let ghost kids = nodes_view(*child_nodes);
    let mut i: usize = 0;
    while i < child_nodes.len()
        invariant
            i <= child_nodes.len(),
            kids == nodes_view(*child_nodes),
            well_formed_nodes(kids),
            html_content@ == opened + html_nodes(kids.take(i as int)),
        decreases child_nodes.len() - i,
    {
        let ghost before = html_content@;
        proof {
            assert(well_formed_node(kids[i as int]));
            assert(kids[i as int] == child_nodes@[i as int]@);
        }
        match &child_nodes[i] {
            HsmlNode::Tag(tag_node) => {
                let piece = compile_tag_node(tag_node, options);
                html_content.append(piece.as_str());
            },
            HsmlNode::Comment(comment_node) => {
                if !comment_node.is_dev {
                    let piece = compile_comment_node(comment_node, options);
                    html_content.append(piece.as_str());
                }
            },
            _ => {
                assert(false);
            },
        }
        proof {
            assert(html_content@ == before + html_node(kids[i as int]));
            assert(kids.take(i + 1) == kids.take(i as int).push(kids[i as int]));
            lemma_html_nodes_push(kids.take(i as int), kids[i as int]);
            assert(html_content@ == opened + html_nodes(kids.take(i + 1)));
        }
        i += 1;
    }
    proof {
        assert(kids.take(kids.len() as int) == kids);
    }
}

/// Lowers a tag: `<`, the name, ` id="…"`, ` class="…"`, each attribute,
/// then `/>` where the tag has neither children nor text, else `>`, the
/// text, each child, and the closing tag.
pub fn compile_tag_node(tag_node: &TagNode, _options: &HsmlCompileOptions) -> (html: String)
    requires
        well_formed_tag(tag_node@),
    ensures
        html@ == html_tag(tag_node@),
    decreases tag_node,
{
    let ghost t = tag_view(*tag_node);
    let mut html_content = String::new();

    html_content.push('<');
    html_content.append(tag_node.tag.as_str());
    let ghost named = html_content@;
    assert(named == seq!['<'] + t.tag);

    if let Some(id_node) = &tag_node.id {
        push_id(&mut html_content, id_node);
    }
    let ghost with_id = html_content@;
    assert(with_id == named + html_id(t.id));

    if let Some(class_nodes) = &tag_node.classes {
        push_classes(&mut html_content, class_nodes);
    }
    let ghost with_classes = html_content@;
    assert(with_classes == with_id + html_classes(t.classes));

    if let Some(attributes) = &tag_node.attributes {
        assert(nodes_view(*attributes) == t.attributes->Some_0);
        push_attributes(&mut html_content, attributes);
    }
    let ghost opened = html_content@;
    assert(opened == with_classes + html_attribute_list(t.attributes));
    assert(opened == seq!['<'] + html_head(t));

    let should_auto_close = tag_node.children.is_none() && tag_node.text.is_none();
    if should_auto_close {
        html_content.push('/');
        html_content.push('>');
        assert(html_content@ == opened + seq!['/', '>']);
        return html_content;
    } else {
        html_content.push('>');
    }

    if let Some(text) = &tag_node.text {
        html_content.append(text.text.as_str());
    }
    let ghost with_text = html_content@;
    assert(with_text == opened + seq!['>'] + html_text(t.text));

    if let Some(child_nodes) = &tag_node.children {
        assert(nodes_view(*child_nodes) == t.children->Some_0);
        push_children(&mut html_content, child_nodes, _options);
    }
    let ghost with_children = html_content@;
    assert(with_children == with_text + (match t.children {
        Some(kids) => html_nodes(kids),
        None => Seq::empty(),
    }));

    html_content.push('<');
    html_content.push('/');
    html_content.append(tag_node.tag.as_str());
    html_content.push('>');
    assert(html_content@ == with_children + seq!['<', '/'] + t.tag + seq!['>']);

    html_content
}

/// Lowers a comment to `<!--`, its text, ` -->`.
pub fn compile_comment_node(comment_node: &CommentNode, _options: &HsmlCompileOptions) -> (html:
    String)
    ensures
        html@ == html_comment(comment_node.text@),
{
    let mut html_content = String::new();

    proof {
        reveal_strlit("<!--");
        reveal_strlit(" -->");
    }
    html_content.append("<!--");
    html_content.append(comment_node.text.as_str());
    html_content.append(" -->");
    assert("<!--"@ == seq!['<', '!', '-', '-']);
    assert(" -->"@ == seq![' ', '-', '-', '>']);

    html_content
}

/// Lowers a node where a tag or a comment may stand. A developer comment
/// gives the empty string.
pub fn compile_node(node: &HsmlNode, options: &HsmlCompileOptions) -> (html: String)
    requires
        well_formed_node(node@),
    ensures
        html@ == html_node(node@),
{
    match node {
        HsmlNode::Tag(tag_node) => compile_tag_node(tag_node, options),
        HsmlNode::Comment(comment_node) => {
            if !comment_node.is_dev {
                compile_comment_node(comment_node, options)
            } else {
                String::new()
            }
        },
        _ => {
            assert(false);
            String::new()
        },
    }
}

/// Lowers a document: the HTML of each top-level node, in order.
pub fn compile(hsml_ast: &RootNode, options: &HsmlCompileOptions) -> (html: String)
    requires
        well_formed_nodes(hsml_ast@),
    ensures
        html@ == html_nodes(hsml_ast@),
{
    let mut html_content = String::new();
    let ghost nodes = hsml_ast@;

    let mut i: usize = 0;
    while i < hsml_ast.nodes.len()
        invariant
            i <= hsml_ast.nodes.len(),
            nodes == hsml_ast@,
            nodes.len() == hsml_ast.nodes.len(),
            well_formed_nodes(nodes),
            html_content@ == html_nodes(nodes.take(i as int)),
        decreases hsml_ast.nodes.len() - i,
    {
        proof {
            assert(nodes.take(i + 1).drop_last() == nodes.take(i as int));
            assert(well_formed_node(nodes[i as int]));
        }
        let piece = compile_node(&hsml_ast.nodes[i], options);
        html_content.append(piece.as_str());
        i += 1;
    }
    proof {
        assert(nodes.take(nodes.len() as int) == nodes);
    }

    html_content
}

/// Whether `s` ends with `tail`.
pub open spec fn ends_with(s: Seq<char>, tail: Seq<char>) -> bool {
    s.len() >= tail.len() && s.subrange(s.len() - tail.len(), s.len() as int) == tail
}

/// Attributes are emitted in the order of the list: what two lists add to
/// the opening tag, one after the other, is what the first adds followed
/// by what the second adds.
pub proof fn law_attributes_keep_order(a: Seq<NodeView>, b: Seq<NodeView>)
    ensures
        html_attributes(a + b) == html_attributes(a) + html_attributes(b),
    decreases b.len(),
{
    if b.len() == 0 {
        assert(a + b == a);
    } else {
        assert((a + b).drop_last() == a + b.drop_last());
        law_attributes_keep_order(a, b.drop_last());
    }
}

/// Classes are emitted in the order of the list: the names of two lists,
/// one after the other, are the names of the first, a space, and the names
/// of the second.
pub proof fn law_classes_keep_order(a: Seq<Seq<char>>, b: Seq<Seq<char>>)
    requires
        a.len() > 0,
        b.len() > 0,
    ensures
        class_names(a + b) == class_names(a) + seq![' '] + class_names(b),
    decreases b.len(),
{
    assert((a + b).drop_last() == a + b.drop_last());
    if b.len() == 1 {
        assert(a + b.drop_last() == a);
    } else {
        law_classes_keep_order(a, b.drop_last());
    }
}

/// Nodes are emitted in the order of the list: the HTML of two lists, one
/// after the other, is that of the first followed by that of the second.
pub proof fn law_nodes_keep_order(a: Seq<NodeView>, b: Seq<NodeView>)
    ensures
        html_nodes(a + b) == html_nodes(a) + html_nodes(b),
    decreases b.len(),
{
    if b.len() == 0 {
        assert(a + b == a);
    } else {
        assert((a + b).drop_last() == a + b.drop_last());
        law_nodes_keep_order(a, b.drop_last());
    }
}

/// A tag is emitted as `<… />` exactly where it has neither children nor
/// text. The name must not be empty nor end with `/`: the closing tag
/// `</name>` of such a name would end with `/>` too.
pub proof fn law_self_closing(t: TagView)
    requires
        t.tag.len() > 0,
        t.tag.last() != '/',
    ensures
        is_self_closing(t) <==> ends_with(html_tag(t), seq!['/', '>']),
{
    let h = html_tag(t);
    if is_self_closing(t) {
        assert(h.subrange(h.len() - 2, h.len() as int) == seq!['/', '>']);
    } else {
        assert(h[h.len() - 2] == t.tag.last());
        assert(h.subrange(h.len() - 2, h.len() as int)[0] == h[h.len() - 2]);
    }
}

/// A developer comment adds nothing to the output. A native comment adds
/// `<!--`, its text as written, and ` -->`, once, where it stands.
pub proof fn law_comments(nodes: Seq<NodeView>, c: CommentView)
    ensures
        html_nodes(nodes.push(NodeView::Comment(c))) == if c.is_dev {
            html_nodes(nodes)
        } else {
            html_nodes(nodes) + (seq!['<', '!', '-', '-'] + c.text + seq![' ', '-', '-', '>'])
        },
{
    lemma_html_nodes_push(nodes, NodeView::Comment(c));
}

} // verus!
