//! The shape of the output: a run of tokens in which every opening tag is
//! closed by the closing tag of the same name, in the right order.
use vstd::prelude::*;

use super::{html_comment, html_head, html_node, html_nodes, html_tag, html_text, is_self_closing};
use crate::parser::model::{NodeView, TagView};
use crate::parser::parse::spec_parse;

verus! {

/// One token of the output.
pub enum Token {
    /// `<head>`, the opening tag of the element `name`; `head` starts with
    /// the name.
    Open { name: Seq<char>, head: Seq<char> },
    /// `</name>`, the closing tag of the element `name`.
    Close { name: Seq<char> },
    /// `<head/>`, an element that closes itself.
    Void { name: Seq<char>, head: Seq<char> },
    /// `<!--text -->`.
    Comment { text: Seq<char> },
    /// Text between tags.
    Text { text: Seq<char> },
}

/// The characters of a token.
pub open spec fn token_text(t: Token) -> Seq<char> {
    match t {
        Token::Open { name, head } => seq!['<'] + head + seq!['>'],
        Token::Close { name } => seq!['<', '/'] + name + seq!['>'],
        Token::Void { name, head } => seq!['<'] + head + seq!['/', '>'],
        Token::Comment { text } => html_comment(text),
        Token::Text { text } => text,
    }
}

/// The characters of a run of tokens.
pub open spec fn tokens_text(ts: Seq<Token>) -> Seq<char>
    decreases ts.len(),
{
    if ts.len() == 0 {
        Seq::empty()
    } else {
        tokens_text(ts.drop_last()) + token_text(ts.last())
    }
}

/// The names of the open elements after one more token, innermost last. A
/// closing tag must name the innermost open element.
pub open spec fn step(open: Seq<Seq<char>>, t: Token) -> Option<Seq<Seq<char>>> {
    match t {
        Token::Open { name, head } => Some(open.push(name)),
        Token::Close { name } => if open.len() > 0 && open.last() == name {
            Some(open.drop_last())
        } else {
            None
        },
        _ => Some(open),
    }
}

/// The names of the open elements after a run of tokens that starts with
/// the elements `open` open, or `None` where a closing tag of the run does
/// not name the innermost open element.
pub open spec fn run(ts: Seq<Token>, open: Seq<Seq<char>>) -> Option<Seq<Seq<char>>>
    decreases ts.len(),
{
    if ts.len() == 0 {
        Some(open)
    } else {
        match run(ts.drop_last(), open) {
            Some(middle) => step(middle, ts.last()),
            None => None,
        }
    }
}

/// Whether a run of tokens is balanced: every closing tag names the
/// innermost open element, and no element is left open.
pub open spec fn is_balanced(ts: Seq<Token>) -> bool {
    run(ts, Seq::empty()) == Some(Seq::<Seq<char>>::empty())
}

/// The tokens of a tag.
pub open spec fn tag_tokens(t: TagView) -> Seq<Token>
    decreases t, 0int,
{
    if is_self_closing(t) {
        seq![Token::Void { name: t.tag, head: html_head(t) }]
    } else {
        seq![Token::Open { name: t.tag, head: html_head(t) }] + seq![
            Token::Text { text: html_text(t.text) },
        ] + (match t.children {
            Some(kids) => nodes_tokens(kids),
            None => Seq::empty(),
        }) + seq![Token::Close { name: t.tag }]
    }
}

/// The tokens of a node where a tag or a comment may stand.
pub open spec fn node_tokens(n: NodeView) -> Seq<Token>
    decreases n, 0int,
{
    match n {
        NodeView::Tag(t) => tag_tokens(t),
        NodeView::Comment(c) => if c.is_dev {
            Seq::empty()
        } else {
            seq![Token::Comment { text: c.text }]
        },
        _ => Seq::empty(),
    }
}

/// The tokens of a list of nodes.
pub open spec fn nodes_tokens(nodes: Seq<NodeView>) -> Seq<Token>
    decreases nodes, 1int,
{
    if nodes.len() == 0 {
        Seq::empty()
    } else {
        nodes_tokens(nodes.drop_last()) + node_tokens(nodes.last())
    }
}

/// The characters of two runs of tokens, one after the other.
pub proof fn lemma_tokens_text_concat(a: Seq<Token>, b: Seq<Token>)
    ensures
        tokens_text(a + b) == tokens_text(a) + tokens_text(b),
    decreases b.len(),
{
    if b.len() == 0 {
        assert(a + b == a);
    } else {
        assert((a + b).drop_last() == a + b.drop_last());
        lemma_tokens_text_concat(a, b.drop_last());
    }
}

/// The characters of a run of one token.
pub proof fn lemma_tokens_text_one(t: Token)
    ensures
        tokens_text(seq![t]) == token_text(t),
{
    assert(seq![t].drop_last() == Seq::<Token>::empty());
    assert(tokens_text(Seq::<Token>::empty()) == Seq::<char>::empty());
    assert(tokens_text(seq![t]) == Seq::<char>::empty() + token_text(t));
}

/// The open elements after two runs of tokens, one after the other.
pub proof fn lemma_run_concat(a: Seq<Token>, b: Seq<Token>, open: Seq<Seq<char>>)
    ensures
        run(a + b, open) == match run(a, open) {
            Some(middle) => run(b, middle),
            None => None,
        },
    decreases b.len(),
{
    if b.len() == 0 {
        assert(a + b == a);
    } else {
        assert((a + b).drop_last() == a + b.drop_last());
        lemma_run_concat(a, b.drop_last(), open);
    }
}

/// The open elements after a run of one token.
pub proof fn lemma_run_one(t: Token, open: Seq<Seq<char>>)
    ensures
        run(seq![t], open) == step(open, t),
{
    assert(seq![t].drop_last() == Seq::<Token>::empty());
    assert(run(Seq::<Token>::empty(), open) == Some(open));
}

/// The tokens of a tag spell its HTML, and leave open what was open.
pub proof fn lemma_tag_tokens(t: TagView, open: Seq<Seq<char>>)
    ensures
        tokens_text(tag_tokens(t)) == html_tag(t),
        run(tag_tokens(t), open) == Some(open),
    decreases t, 0int,
{
    if is_self_closing(t) {
        let v = Token::Void { name: t.tag, head: html_head(t) };
        lemma_tokens_text_one(v);
        lemma_run_one(v, open);
    } else {
        let o = Token::Open { name: t.tag, head: html_head(t) };
        let x = Token::Text { text: html_text(t.text) };
        let c = Token::Close { name: t.tag };
        let kids = match t.children {
            Some(kids) => nodes_tokens(kids),
            None => Seq::empty(),
        };
        let inner = open.push(t.tag);
        match t.children {
            Some(k) => {
                lemma_nodes_tokens(k, inner);
            },
            None => {},
        }
        lemma_tokens_text_one(o);
        lemma_tokens_text_one(x);
        lemma_tokens_text_one(c);
        lemma_tokens_text_concat(seq![o], seq![x]);
        lemma_tokens_text_concat(seq![o] + seq![x], kids);
        lemma_tokens_text_concat(seq![o] + seq![x] + kids, seq![c]);
        lemma_run_one(o, open);
        lemma_run_one(x, inner);
        lemma_run_one(c, inner);
        lemma_run_concat(seq![o], seq![x], open);
        lemma_run_concat(seq![o] + seq![x], kids, open);
        lemma_run_concat(seq![o] + seq![x] + kids, seq![c], open);
        assert(inner.drop_last() == open);
    }
}

/// The tokens of a list of nodes spell its HTML, and leave open what was
/// open.
pub proof fn lemma_nodes_tokens(nodes: Seq<NodeView>, open: Seq<Seq<char>>)
    ensures
        tokens_text(nodes_tokens(nodes)) == html_nodes(nodes),
        run(nodes_tokens(nodes), open) == Some(open),
    decreases nodes, 1int,
{
    if nodes.len() > 0 {
        lemma_nodes_tokens(nodes.drop_last(), open);
        let last = nodes.last();
        match last {
            NodeView::Tag(t) => {
                lemma_tag_tokens(t, open);
            },
            NodeView::Comment(c) => {
                if !c.is_dev {
                    lemma_tokens_text_one(Token::Comment { text: c.text });
                    lemma_run_one(Token::Comment { text: c.text }, open);
                }
            },
            _ => {},
        }
        lemma_tokens_text_concat(nodes_tokens(nodes.drop_last()), node_tokens(last));
        lemma_run_concat(nodes_tokens(nodes.drop_last()), node_tokens(last), open);
        assert(tokens_text(node_tokens(last)) == html_node(last));
        assert(run(node_tokens(last), open) == Some(open));
    }
}

/// The HTML of any list of nodes is a balanced run of tokens: it is spelled
/// by the tokens of the nodes, in which every opening tag is closed by the
/// closing tag of the same name, innermost first, and nothing stays open.
pub proof fn law_output_is_balanced(nodes: Seq<NodeView>)
    ensures
        html_nodes(nodes) == tokens_text(nodes_tokens(nodes)),
        is_balanced(nodes_tokens(nodes)),
{
    lemma_nodes_tokens(nodes, Seq::empty());
}

/// The HTML of every document that parses is a balanced run of tokens.
pub proof fn law_compiled_document_is_balanced(source: Seq<char>)
    requires
        spec_parse(source) is Ok,
    ensures
        html_nodes(spec_parse(source)->Ok_0) == tokens_text(
            nodes_tokens(spec_parse(source)->Ok_0),
        ),
        is_balanced(nodes_tokens(spec_parse(source)->Ok_0)),
{
    law_output_is_balanced(spec_parse(source)->Ok_0);
}

/// How often `c` occurs in `s`.
pub open spec fn count(s: Seq<char>, c: char) -> nat
    decreases s.len(),
{
    if s.len() == 0 {
        0
    } else {
        count(s.drop_last(), c) + if s.last() == c {
            1nat
        } else {
            0nat
        }
    }
}

/// Whether `s` holds neither `<` nor `>`.
pub open spec fn angle_free(s: Seq<char>) -> bool {
    forall|i: int| 0 <= i < s.len() ==> s[i] != '<' && s[i] != '>'
}

/// Whether each name of a list holds neither `<` nor `>`.
pub open spec fn angle_free_names(names: Seq<Seq<char>>) -> bool {
    forall|i: int| 0 <= i < names.len() ==> angle_free(#[trigger] names[i])
}

/// Whether the key and the value of an attribute hold neither `<` nor `>`.
pub open spec fn angle_free_entry(a: NodeView) -> bool {
    match a {
        NodeView::Attribute(av) => angle_free(av.key) && match av.value {
            Some(v) => angle_free(v),
            None => true,
        },
        _ => true,
    }
}

/// Whether no name, id, class, attribute or text of a tag, nor of a tag or
/// an emitted comment below it, holds `<` or `>`.
pub open spec fn angle_free_tag(t: TagView) -> bool
    decreases t, 0int,
{
    &&& angle_free(t.tag)
    &&& t.id matches Some(id) ==> angle_free(id)
    &&& t.classes matches Some(cs) ==> angle_free_names(cs)
    &&& t.attributes matches Some(attrs) ==> forall|i: int|
        0 <= i < attrs.len() ==> angle_free_entry(#[trigger] attrs[i])
    &&& t.text matches Some(x) ==> angle_free(x)
    &&& t.children matches Some(kids) ==> forall|i: int|
        0 <= i < kids.len() ==> angle_free_node(#[trigger] kids[i])
}

/// Whether a node holds `<` or `>` nowhere in what it emits but in its
/// tags' own brackets.
pub open spec fn angle_free_node(n: NodeView) -> bool
    decreases n, 0int,
{
    match n {
        NodeView::Tag(t) => angle_free_tag(t),
        NodeView::Comment(c) => c.is_dev || angle_free(c.text),
        _ => true,
    }
}

/// Whether each node of a list holds `<` and `>` in its tags' own brackets
/// only.
pub open spec fn angle_free_nodes(nodes: Seq<NodeView>) -> bool {
    forall|i: int| 0 <= i < nodes.len() ==> angle_free_node(#[trigger] nodes[i])
}

/// The occurrences in two sequences, one after the other, add up.
pub proof fn lemma_count_concat(a: Seq<char>, b: Seq<char>, c: char)
    ensures
        count(a + b, c) == count(a, c) + count(b, c),
    decreases b.len(),
{
    if b.len() == 0 {
        assert(a + b == a);
    } else {
        assert((a + b).drop_last() == a + b.drop_last());
        lemma_count_concat(a, b.drop_last(), c);
    }
}

/// One more character is one more occurrence, or none.
pub proof fn lemma_count_push(s: Seq<char>, x: char, c: char)
    ensures
        count(s.push(x), c) == count(s, c) + if x == c {
            1nat
        } else {
            0nat
        },
{
    assert(s.push(x).drop_last() == s);
}

/// A sequence without `<` and `>` holds none of either.
pub proof fn lemma_count_angle_free(s: Seq<char>)
    requires
        angle_free(s),
    ensures
        count(s, '<') == 0,
        count(s, '>') == 0,
    decreases s.len(),
{
    if s.len() > 0 {
        lemma_count_angle_free(s.drop_last());
    }
}

/// The names of classes without `<` and `>` hold none of either.
pub proof fn lemma_class_names_angle_free(classes: Seq<Seq<char>>)
    requires
        angle_free_names(classes),
    ensures
        angle_free(super::class_names(classes)),
    decreases classes.len(),
{
    if classes.len() > 1 {
        lemma_class_names_angle_free(classes.drop_last());
        assert(angle_free(classes.last()));
    } else if classes.len() == 1 {
        assert(angle_free(classes[0]));
    }
}

/// What attributes without `<` and `>` add to the opening tag holds none
/// of either.
pub proof fn lemma_attributes_angle_free(attrs: Seq<NodeView>)
    requires
        forall|i: int| 0 <= i < attrs.len() ==> angle_free_entry(#[trigger] attrs[i]),
    ensures
        angle_free(super::html_attributes(attrs)),
    decreases attrs.len(),
{
    if attrs.len() > 0 {
        lemma_attributes_angle_free(attrs.drop_last());
        assert(angle_free_entry(attrs.last()));
    }
}

/// The opening tag of a tag without `<` and `>` holds none of either
/// between its brackets.
pub proof fn lemma_head_angle_free(t: TagView)
    requires
        angle_free_tag(t),
    ensures
        angle_free(html_head(t)),
{
    if let Some(cs) = t.classes {
        lemma_class_names_angle_free(cs);
    }
    if let Some(attrs) = t.attributes {
        lemma_attributes_angle_free(attrs);
    }
}

/// The HTML of a tag whose strings hold neither `<` nor `>` holds as many
/// `<` as `>`.
pub proof fn lemma_tag_brackets(t: TagView)
    requires
        angle_free_tag(t),
    ensures
        count(html_tag(t), '<') == count(html_tag(t), '>'),
    decreases t, 0int,
{
    let head = html_head(t);
    lemma_head_angle_free(t);
    lemma_count_angle_free(head);
    lemma_count_angle_free(t.tag);
    let open = seq!['<'];
    assert(open == Seq::<char>::empty().push('<'));
    if is_self_closing(t) {
        let close = seq!['/', '>'];
        assert(close == Seq::<char>::empty().push('/').push('>'));
        assert forall|c: char| #![auto] count(html_tag(t), c) == count(open, c) + count(head, c)
            + count(close, c) by {
            lemma_count_concat(open, head, c);
            lemma_count_concat(open + head, close, c);
        }
        assert forall|c: char| #![auto] count(open, c) == (if c == '<' {
            1nat
        } else {
            0nat
        }) && count(close, c) == (if c == '/' {
            1nat
        } else {
            0nat
        }) + (if c == '>' {
            1nat
        } else {
            0nat
        }) by {
            lemma_count_push(Seq::empty(), '<', c);
            lemma_count_push(Seq::empty(), '/', c);
            lemma_count_push(Seq::<char>::empty().push('/'), '>', c);
        }
    } else {
        let gt = seq!['>'];
        let text = html_text(t.text);
        let kids = match t.children {
            Some(kids) => html_nodes(kids),
            None => Seq::empty(),
        };
        let lts = seq!['<', '/'];
        assert(gt == Seq::<char>::empty().push('>'));
        assert(lts == Seq::<char>::empty().push('<').push('/'));
        lemma_count_angle_free(text);
        if let Some(k) = t.children {
            lemma_nodes_brackets(k);
        }
        assert forall|c: char| #![auto] count(html_tag(t), c) == count(open, c) + count(head, c)
            + count(gt, c) + count(text, c) + count(kids, c) + count(lts, c) + count(t.tag, c)
            + count(gt, c) by {
            lemma_count_concat(open, head, c);
            lemma_count_concat(open + head, gt, c);
            lemma_count_concat(open + head + gt, text, c);
            lemma_count_concat(open + head + gt + text, kids, c);
            lemma_count_concat(open + head + gt + text + kids, lts, c);
            lemma_count_concat(open + head + gt + text + kids + lts, t.tag, c);
            lemma_count_concat(open + head + gt + text + kids + lts + t.tag, gt, c);
        }
        assert forall|c: char| #![auto] count(open, c) == (if c == '<' {
            1nat
        } else {
            0nat
        }) && count(gt, c) == (if c == '>' {
            1nat
        } else {
            0nat
        }) && count(lts, c) == (if c == '<' {
            1nat
        } else {
            0nat
        }) + (if c == '/' {
            1nat
        } else {
            0nat
        }) by {
            lemma_count_push(Seq::empty(), '<', c);
            lemma_count_push(Seq::empty(), '>', c);
            lemma_count_push(Seq::<char>::empty().push('<'), '/', c);
        }
    }
}

/// The HTML of nodes whose strings hold neither `<` nor `>` holds as many
/// `<` as `>`.
pub proof fn lemma_nodes_brackets(nodes: Seq<NodeView>)
    requires
        angle_free_nodes(nodes),
    ensures
        count(html_nodes(nodes), '<') == count(html_nodes(nodes), '>'),
    decreases nodes, 1int,
{
    if nodes.len() > 0 {
        let last = nodes.last();
        assert(angle_free_node(last));
        assert forall|i: int| 0 <= i < nodes.drop_last().len() implies angle_free_node(
            #[trigger] nodes.drop_last()[i],
        ) by {
            assert(nodes.drop_last()[i] == nodes[i]);
        }
        lemma_nodes_brackets(nodes.drop_last());
        lemma_count_concat(html_nodes(nodes.drop_last()), html_node(last), '<');
        lemma_count_concat(html_nodes(nodes.drop_last()), html_node(last), '>');
        match last {
            NodeView::Tag(t) => {
                lemma_tag_brackets(t);
            },
            NodeView::Comment(c) => {
                if !c.is_dev {
                    let a = seq!['<', '!', '-', '-'];
                    let b = seq![' ', '-', '-', '>'];
                    assert(a == Seq::<char>::empty().push('<').push('!').push('-').push('-'));
                    assert(b == Seq::<char>::empty().push(' ').push('-').push('-').push('>'));
                    lemma_count_angle_free(c.text);
                    assert forall|x: char| #![auto] count(html_node(last), x) == count(a, x)
                        + count(c.text, x) + count(b, x) by {
                        lemma_count_concat(a, c.text, x);
                        lemma_count_concat(a + c.text, b, x);
                    }
                    assert forall|x: char| #![auto] x == '<' || x == '>' implies count(a, x) == (if x
                        == '<' {
                        1nat
                    } else {
                        0nat
                    }) && count(b, x) == (if x == '>' {
                        1nat
                    } else {
                        0nat
                    }) by {
                        lemma_count_push(Seq::empty(), '<', x);
                        lemma_count_push(Seq::<char>::empty().push('<'), '!', x);
                        lemma_count_push(Seq::<char>::empty().push('<').push('!'), '-', x);
                        lemma_count_push(
                            Seq::<char>::empty().push('<').push('!').push('-'),
                            '-',
                            x,
                        );
                        lemma_count_push(Seq::empty(), ' ', x);
                        lemma_count_push(Seq::<char>::empty().push(' '), '-', x);
                        lemma_count_push(Seq::<char>::empty().push(' ').push('-'), '-', x);
                        lemma_count_push(
                            Seq::<char>::empty().push(' ').push('-').push('-'),
                            '>',
                            x,
                        );
                    }
                }
            },
            _ => {},
        }
    }
}

/// Where no name, id, class, attribute, text or emitted comment of a list
/// of nodes holds `<` or `>`, its HTML holds as many `<` as `>`: the
/// brackets of its tags and comments, each opened and closed once.
pub proof fn law_angle_brackets_are_balanced(nodes: Seq<NodeView>)
    requires
        angle_free_nodes(nodes),
    ensures
        count(html_nodes(nodes), '<') == count(html_nodes(nodes), '>'),
{
    lemma_nodes_brackets(nodes);
}

} // verus!
