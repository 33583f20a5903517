//! The tag node.
use vstd::prelude::*;

use crate::parser::attribute::node::{
    attribute_nodes_at, lemma_attribute_nodes_bounds, spec_attribute_nodes,
};
use crate::parser::class::node::ClassNode;
use crate::parser::class::process::{class_at, lemma_class_bounds, spec_class};
use crate::parser::comment::node::CommentNode;
use crate::parser::comment::process::{
    dev_comment_starts, is_dev_comment, is_native_comment, native_comment_starts,
};
use crate::parser::error::{unexpected, unexpected_at, Failure, ParseError, ParseErrorKind};
use crate::parser::id::node::IdNode;
use crate::parser::id::process::{id_at, lemma_id_bounds, spec_id};
use crate::parser::indent::{
    is_mixed, is_mixed_at, lemma_unit_is_level_one, line_level, line_level_at, unit_view,
};
use crate::parser::model::{
    is_attribute_entry, lemma_nodes_view_empty, lemma_nodes_view_push, lemma_well_formed_push,
    node_view, nodes_view, tag_view, well_formed_nodes, well_formed_tag, CommentView, NodeView,
    TagView,
};
use crate::parser::scan::{
    chars_of, eol_len, eol_len_at, indent_end, indent_end_at, lemma_indent_end_bounds,
    lemma_line_end_bounds, lemma_skip_blank_bounds, line_end, line_end_at, piece, skip_blank,
    skip_blank_at, text_of, to_chars,
};
use crate::parser::tag::process::{lemma_tag_name_bounds, spec_tag_name, tag_name_at};
use crate::parser::text::node::TextNode;
use crate::parser::text::process::{
    block_text, block_text_at, lemma_text_block_bounds, lemma_text_bounds, spec_text,
    spec_text_block, text_at, text_block_at,
};
use crate::parser::{HsmlNode, HsmlProcessContext};

verus! {

/// A tag: its name, selectors, attributes, text and children. A list that
/// would be empty is absent.
#[derive(Debug, PartialEq)]
pub struct TagNode {
    pub tag: String,
    pub id: Option<IdNode>,
    pub classes: Option<Vec<ClassNode>>,
    pub attributes: Option<Vec<HsmlNode>>,
    pub text: Option<TextNode>,
    pub children: Option<Vec<HsmlNode>>,
}

impl View for TagNode {
    type V = TagView;

    open spec fn view(&self) -> TagView {
        tag_view(*self)
    }
}


/// What the header of a tag has gathered: the id, the classes, the entries
/// of the attribute list and whether a list was seen, and the text.
pub struct HeadView {
    pub id: Option<Seq<char>>,
    pub classes: Seq<Seq<char>>,
    pub attributes: Seq<NodeView>,
    pub has_list: bool,
    pub text: Option<Seq<char>>,
}

/// The header that has gathered nothing.
pub open spec fn empty_head() -> HeadView {
    HeadView {
        id: None,
        classes: Seq::empty(),
        attributes: Seq::empty(),
        has_list: false,
        text: None,
    }
}

/// The header of a tag from `p` on, where `h` is what was gathered before
/// `p`, and the position at which the header ends. The character at `p`
/// decides: `#` reads the id, and fails where the tag has one already; `.`
/// before a line terminator reads a text block, which ends the header; any
/// other `.` reads a class; `(` reads the attribute list, and fails where
/// the tag has one already; a space reads inline text, which ends the
/// header; anything else ends the header.
pub open spec fn spec_head(
    s: Seq<char>,
    p: int,
    h: HeadView,
    level: int,
    unit: Option<Seq<char>>,
) -> Result<(int, HeadView), Failure>
    decreases s.len() - p,
{
    if p < 0 || p >= s.len() {
        Ok((p, h))
    } else if s[p] == '#' {
        if h.id is Some {
            Err(Failure { at: p, kind: ParseErrorKind::DuplicateId })
        } else {
            match spec_id(s, p) {
                Ok(e) => {
                    proof {
                        lemma_id_bounds(s, p);
                    }
                    spec_head(
                        s,
                        e,
                        HeadView {
                            id: Some(s.subrange(p + 1, e)),
                            classes: h.classes,
                            attributes: h.attributes,
                            has_list: h.has_list,
                            text: h.text,
                        },
                        level,
                        unit,
                    )
                },
                Err(f) => Err(f),
            }
        }
    } else if s[p] == '.' {
        if eol_len(s, p + 1) > 0 {
            match spec_text_block(s, p, level, unit) {
                Ok((start, end)) => Ok(
                    (
                        end,
                        HeadView {
                            id: h.id,
                            classes: h.classes,
                            attributes: h.attributes,
                            has_list: h.has_list,
                            text: Some(block_text(s, start, end)),
                        },
                    ),
                ),
                Err(f) => Err(f),
            }
        } else {
            match spec_class(s, p) {
                Ok(e) => {
                    proof {
                        lemma_class_bounds(s, p);
                    }
                    spec_head(
                        s,
                        e,
                        HeadView {
                            id: h.id,
                            classes: h.classes.push(s.subrange(p + 1, e)),
                            attributes: h.attributes,
                            has_list: h.has_list,
                            text: h.text,
                        },
                        level,
                        unit,
                    )
                },
                Err(f) => Err(f),
            }
        }
    } else if s[p] == '(' {
        if h.has_list {
            Err(Failure { at: p, kind: ParseErrorKind::UnexpectedInput })
        } else {
            match spec_attribute_nodes(s, p) {
                Ok((e, items)) => {
                    proof {
                        lemma_attribute_nodes_bounds(s, p);
                    }
                    spec_head(
                        s,
                        e,
                        HeadView {
                            id: h.id,
                            classes: h.classes,
                            attributes: items,
                            has_list: true,
                            text: h.text,
                        },
                        level,
                        unit,
                    )
                },
                Err(f) => Err(f),
            }
        }
    } else if s[p] == ' ' {
        match spec_text(s, p) {
            Ok(e) => Ok(
                (
                    e,
                    HeadView {
                        id: h.id,
                        classes: h.classes,
                        attributes: h.attributes,
                        has_list: h.has_list,
                        text: Some(s.subrange(p + 1, e)),
                    },
                ),
            ),
            Err(f) => Err(f),
        }
    } else {
        Ok((p, h))
    }
}

/// A tag has at most one id: a `#` in the header of a tag that has an id
/// already fails the parse, at that `#`.
pub proof fn law_second_id_fails(
    s: Seq<char>,
    p: int,
    h: HeadView,
    level: int,
    unit: Option<Seq<char>>,
)
    requires
        0 <= p < s.len(),
        s[p] == '#',
        h.id is Some,
    ensures
        spec_head(s, p, h, level, unit) == Err::<(int, HeadView), Failure>(
            Failure { at: p, kind: ParseErrorKind::DuplicateId },
        ),
{
}

/// The tag with the given name, header and children. A list that is empty
/// is absent.
pub open spec fn tag_of(name: Seq<char>, h: HeadView, kids: Seq<NodeView>) -> TagView {
    TagView {
        tag: name,
        id: h.id,
        classes: if h.classes.len() > 0 {
            Some(h.classes)
        } else {
            None
        },
        attributes: if h.attributes.len() > 0 {
            Some(h.attributes)
        } else {
            None
        },
        text: h.text,
        children: if kids.len() > 0 {
            Some(kids)
        } else {
            None
        },
    }
}

/// A list of a tag that the parser puts together is absent or not empty.
pub proof fn law_lists_are_absent_or_not_empty(name: Seq<char>, h: HeadView, kids: Seq<NodeView>)
    ensures
        tag_of(name, h, kids).classes matches Some(classes) ==> classes.len() > 0,
        tag_of(name, h, kids).attributes matches Some(attributes) ==> attributes.len() > 0,
        tag_of(name, h, kids).children matches Some(children) ==> children.len() > 0,
{
}

/// The name of the tag that starts at `i`, and where the name ends: `div`
/// and no character read where a `.` or a `#` starts the tag, else the tag
/// name that stands there.
pub open spec fn spec_tag_start(s: Seq<char>, i: int) -> Result<(int, Seq<char>), Failure> {
    if i < 0 || i >= s.len() {
        Err(unexpected(s, i))
    } else if s[i] == '.' && eol_len(s, i + 1) > 0 {
        Err(unexpected(s, i + 1))
    } else if s[i] == '.' || s[i] == '#' {
        Ok((i, seq!['d', 'i', 'v']))
    } else {
        match spec_tag_name(s, i) {
            Ok(e) => Ok((e, s.subrange(i, e))),
            Err(f) => Err(f),
        }
    }
}

/// The tag that starts at `i` and stands at `level`, the position at which
/// it ends, and the indentation unit after it: the name, the header, and
/// the children.
pub open spec fn spec_tag(s: Seq<char>, i: int, level: int, unit: Option<Seq<char>>) -> Result<
    (int, TagView, Option<Seq<char>>),
    Failure,
>
    decreases s.len() - i, 1int,
{
    match spec_tag_start(s, i) {
        Err(f) => Err(f),
        Ok((p, name)) => match spec_head(s, p, empty_head(), level, unit) {
            Err(f) => Err(f),
            Ok((headed, h)) => {
                proof {
                    lemma_tag_start_bounds(s, i);
                    lemma_head_bounds(s, p, empty_head(), level, unit);
                }
                match spec_children(s, headed, level, unit, Seq::empty()) {
                    Err(f) => Err(f),
                    Ok((ended, kids, unit2)) => Ok((ended, tag_of(name, h, kids), unit2)),
                }
            },
        },
    }
}

/// The children of a tag at `level` from `p` on, appended to `acc`, the
/// position at which they end, and the indentation unit after them.
///
/// Children follow only where a line terminator stands at `p`. The next
/// line that is not blank decides. Where it is not indented, the tag has no
/// further child. Where its indentation mixes spaces and tabs, the parse
/// fails. The first indentation of a parse becomes the unit. Where the
/// indentation is not made of whole units, the parse fails. Where its
/// level is not above the tag's, the tag has no further child, and `p` is
/// where the children end. Else the line holds a child: a native comment, a
/// developer comment, or a tag at the line's level.
///
/// A child tag is never empty (`lemma_tag_bounds`), so the children always
/// go on behind it; the test of its end only lets the definition be seen
/// to end.
pub open spec fn spec_children(
    s: Seq<char>,
    p: int,
    level: int,
    unit: Option<Seq<char>>,
    acc: Seq<NodeView>,
) -> Result<(int, Seq<NodeView>, Option<Seq<char>>), Failure>
    decreases s.len() - p, 0int,
{
    let q = skip_blank(s, p + eol_len(s, p));
    let c = indent_end(s, q);
    if p < 0 || p >= s.len() || eol_len(s, p) == 0 || q >= s.len() || c <= q {
        Ok((p, acc, unit))
    } else if is_mixed(s, q, c) {
        Err(Failure { at: q, kind: ParseErrorKind::InconsistentIndent })
    } else {
        let u = match unit {
            Some(u) => u,
            None => s.subrange(q, c),
        };
        match line_level(s, q, c - q, u) {
            None => Err(Failure { at: q, kind: ParseErrorKind::InconsistentIndent }),
            Some(k) => {
                proof {
                    lemma_skip_blank_bounds(s, p + eol_len(s, p));
                    lemma_indent_end_bounds(s, q);
                }
                if k <= level {
                    Ok((p, acc, Some(u)))
                } else if is_native_comment(s, c) {
                    proof {
                        lemma_line_end_bounds(s, c + 3);
                    }
                    spec_children(
                        s,
                        line_end(s, c + 3),
                        level,
                        Some(u),
                        acc.push(
                            NodeView::Comment(
                                CommentView {
                                    text: s.subrange(c + 3, line_end(s, c + 3)),
                                    is_dev: false,
                                },
                            ),
                        ),
                    )
                } else if is_dev_comment(s, c) {
                    proof {
                        lemma_line_end_bounds(s, c + 2);
                    }
                    spec_children(
                        s,
                        line_end(s, c + 2),
                        level,
                        Some(u),
                        acc.push(
                            NodeView::Comment(
                                CommentView {
                                    text: s.subrange(c + 2, line_end(s, c + 2)),
                                    is_dev: true,
                                },
                            ),
                        ),
                    )
                } else {
                    match spec_tag(s, c, k, Some(u)) {
                        Ok((e, t, u2)) => if c < e <= s.len() {
                            spec_children(s, e, level, u2, acc.push(NodeView::Tag(t)))
                        } else {
                            Err(unexpected(s, c))
                        },
                        Err(f) => Err(f),
                    }
                }
            },
        }
    }
}

/// The name of a tag ends at or after the start of the tag, within the
/// input.
pub proof fn lemma_tag_start_bounds(s: Seq<char>, i: int)
    requires
        0 <= i <= s.len(),
    ensures
        spec_tag_start(s, i) matches Ok((p, name)) ==> {
            &&& i <= p <= s.len()
            &&& i < s.len()
            &&& p == i ==> (s[i] == '#' || (s[i] == '.' && eol_len(s, i + 1) == 0))
        },
{
    lemma_tag_name_bounds(s, i);
}

/// The header of a tag ends at or after `p`, within the input, and after
/// `p` where a selector stands at `p`. The entries of its attribute list
/// are attributes and developer comments where those gathered before are.
pub proof fn lemma_head_bounds(
    s: Seq<char>,
    p: int,
    h: HeadView,
    level: int,
    unit: Option<Seq<char>>,
)
    requires
        0 <= p <= s.len(),
        forall|n: int| 0 <= n < h.attributes.len() ==> is_attribute_entry(#[trigger] h.attributes[n]),
    ensures
        spec_head(s, p, h, level, unit) matches Ok((e, h2)) ==> {
            &&& p <= e <= s.len()
            &&& p < s.len() && (s[p] == '#' || s[p] == '.') ==> p < e
            &&& forall|n: int|
                0 <= n < h2.attributes.len() ==> is_attribute_entry(#[trigger] h2.attributes[n])
        },
    decreases s.len() - p,
{
    if p < s.len() {
        if s[p] == '#' {
            lemma_id_bounds(s, p);
            if h.id is None {
                if let Ok(e) = spec_id(s, p) {
                    lemma_head_bounds(
                        s,
                        e,
                        HeadView {
                            id: Some(s.subrange(p + 1, e)),
                            classes: h.classes,
                            attributes: h.attributes,
                            has_list: h.has_list,
                            text: h.text,
                        },
                        level,
                        unit,
                    );
                }
            }
        } else if s[p] == '.' {
            if eol_len(s, p + 1) > 0 {
                lemma_text_block_bounds(s, p, level, unit);
            } else {
                lemma_class_bounds(s, p);
                if let Ok(e) = spec_class(s, p) {
                    lemma_head_bounds(
                        s,
                        e,
                        HeadView {
                            id: h.id,
                            classes: h.classes.push(s.subrange(p + 1, e)),
                            attributes: h.attributes,
                            has_list: h.has_list,
                            text: h.text,
                        },
                        level,
                        unit,
                    );
                }
            }
        } else if s[p] == '(' {
            lemma_attribute_nodes_bounds(s, p);
            if !h.has_list {
                if let Ok((e, items)) = spec_attribute_nodes(s, p) {
                    lemma_head_bounds(
                        s,
                        e,
                        HeadView {
                            id: h.id,
                            classes: h.classes,
                            attributes: items,
                            has_list: true,
                            text: h.text,
                        },
                        level,
                        unit,
                    );
                }
            }
        } else if s[p] == ' ' {
            lemma_text_bounds(s, p);
        }
    }
}

/// A tag is never empty and ends within the input; it is well formed; and
/// it keeps the indentation unit that was set before it.
pub proof fn lemma_tag_bounds(s: Seq<char>, i: int, level: int, unit: Option<Seq<char>>)
    requires
        0 <= i <= s.len(),
    ensures
        spec_tag(s, i, level, unit) matches Ok((e, t, unit2)) ==> {
            &&& i < e <= s.len()
            &&& well_formed_tag(t)
            &&& unit is Some ==> unit2 == unit
        },
    decreases s.len() - i, 1int,
{
    lemma_tag_start_bounds(s, i);
    if let Ok((p, name)) = spec_tag_start(s, i) {
        lemma_head_bounds(s, p, empty_head(), level, unit);
        if let Ok((headed, h)) = spec_head(s, p, empty_head(), level, unit) {
            lemma_children_bounds(s, headed, level, unit, Seq::empty());
        }
    }
}

/// The children of a tag end at or after `p`, within the input; each is
/// well formed where those gathered before are; and they keep the
/// indentation unit that was set before them.
pub proof fn lemma_children_bounds(
    s: Seq<char>,
    p: int,
    level: int,
    unit: Option<Seq<char>>,
    acc: Seq<NodeView>,
)
    requires
        0 <= p <= s.len(),
        well_formed_nodes(acc),
    ensures
        spec_children(s, p, level, unit, acc) matches Ok((e, kids, unit2)) ==> {
            &&& p <= e <= s.len()
            &&& well_formed_nodes(kids)
            &&& unit is Some ==> unit2 == unit
        },
    decreases s.len() - p, 0int,
{
    let q = skip_blank(s, p + eol_len(s, p));
    let c = indent_end(s, q);
    if p < s.len() && eol_len(s, p) > 0 {
        lemma_skip_blank_bounds(s, p + eol_len(s, p));
        lemma_indent_end_bounds(s, q);
        if q < s.len() && c > q && !is_mixed(s, q, c) {
            let u = match unit {
                Some(u) => u,
                None => s.subrange(q, c),
            };
            if let Some(k) = line_level(s, q, c - q, u) {
                if k > level {
                    if is_native_comment(s, c) {
                        let e = line_end(s, c + 3);
                        let n = NodeView::Comment(
                            CommentView { text: s.subrange(c + 3, e), is_dev: false },
                        );
                        lemma_line_end_bounds(s, c + 3);
                        lemma_well_formed_push(acc, n);
                        lemma_children_bounds(s, e, level, Some(u), acc.push(n));
                    } else if is_dev_comment(s, c) {
                        let e = line_end(s, c + 2);
                        let n = NodeView::Comment(
                            CommentView { text: s.subrange(c + 2, e), is_dev: true },
                        );
                        lemma_line_end_bounds(s, c + 2);
                        lemma_well_formed_push(acc, n);
                        lemma_children_bounds(s, e, level, Some(u), acc.push(n));
                    } else {
                        lemma_tag_bounds(s, c, k, Some(u));
                        if let Ok((e, t, u2)) = spec_tag(s, c, k, Some(u)) {
                            lemma_well_formed_push(acc, NodeView::Tag(t));
                            lemma_children_bounds(s, e, level, u2, acc.push(NodeView::Tag(t)));
                        }
                    }
                }
            }
        }
    }
}


/// What the header of a tag has gathered so far.
pub struct Head {
    pub id: Option<IdNode>,
    pub classes: Vec<ClassNode>,
    pub attributes: Vec<HsmlNode>,
    pub has_list: bool,
    pub text: Option<TextNode>,
}

impl View for Head {
    type V = HeadView;

    open spec fn view(&self) -> HeadView {
        HeadView {
            id: match self.id {
                Some(i) => Some(i@),
                None => None,
            },
            classes: Seq::new(self.classes@.len(), |i: int| self.classes@[i]@),
            attributes: nodes_view(self.attributes),
            has_list: self.has_list,
            text: match self.text {
                Some(x) => Some(x@),
                None => None,
            },
        }
    }
}

/// What comes out of the parser of a tag: on success the position after
/// the tag, the tag, and the indentation unit after it; on failure the
/// failure.
pub open spec fn tag_agrees(
    r: Result<(usize, TagNode, Option<Vec<char>>), ParseError>,
    expected: Result<(int, TagView, Option<Seq<char>>), Failure>,
) -> bool {
    match r {
        Ok((end, node, unit)) => expected == Ok::<(int, TagView, Option<Seq<char>>), Failure>(
            (end as int, node@, unit_view(unit)),
        ),
        Err(e) => expected == Err::<(int, TagView, Option<Seq<char>>), Failure>(e@),
    }
}

/// What comes out of the parser of a tag's children: on success the
/// position after them, the children, and the indentation unit after them;
/// on failure the failure.
pub open spec fn children_agree(
    r: Result<(usize, Vec<HsmlNode>, Option<Vec<char>>), ParseError>,
    expected: Result<(int, Seq<NodeView>, Option<Seq<char>>), Failure>,
) -> bool {
    match r {
        Ok((end, nodes, unit)) => expected == Ok::<
            (int, Seq<NodeView>, Option<Seq<char>>),
            Failure,
        >((end as int, nodes_view(nodes), unit_view(unit))),
        Err(e) => expected == Err::<(int, Seq<NodeView>, Option<Seq<char>>), Failure>(e@),
    }
}

/// Reads the header of a tag from `i` on.
pub fn head_at(s: &[char], i: usize, level: usize, unit: &Option<Vec<char>>) -> (r: Result<
    (usize, Head),
    ParseError,
>)
    requires
        i <= s.len(),
    ensures
        match r {
            Ok((end, h)) => {
                &&& spec_head(s@, i as int, empty_head(), level as int, unit_view(*unit)) == Ok::<
                    (int, HeadView),
                    Failure,
                >((end as int, h@))
                &&& i <= end <= s.len()
                &&& forall|j: int|
                    0 <= j < h@.attributes.len() ==> is_attribute_entry(#[trigger] h@.attributes[j])
            },
            Err(e) => spec_head(s@, i as int, empty_head(), level as int, unit_view(*unit))
                == Err::<(int, HeadView), Failure>(e@),
        },
{
    let mut head = Head {
        id: None,
        classes: Vec::new(),
        attributes: Vec::new(),
        has_list: false,
        text: None,
    };
    let mut p: usize = i;
    proof {
        lemma_nodes_view_empty(head.attributes);
        assert(head@.classes =~= Seq::<Seq<char>>::empty());
    }
    loop
        invariant
            i <= p <= s.len(),
            spec_head(s@, i as int, empty_head(), level as int, unit_view(*unit)) == spec_head(
                s@,
                p as int,
                head@,
                level as int,
                unit_view(*unit),
            ),
            forall|j: int|
                0 <= j < head@.attributes.len() ==> is_attribute_entry(
                    #[trigger] head@.attributes[j],
                ),
        decreases s.len() - p,
    {
        if p >= s.len() {
            return Ok((p, head));
        }
        let c = s[p];
        if c == '#' {
            if head.id.is_some() {
                return Err(ParseError { offset: p, kind: ParseErrorKind::DuplicateId });
            }
            match id_at(s, p) {
                Ok(e) => {
                    head.id = Some(IdNode { id: text_of(s, p + 1, e) });
                    p = e;
                },
                Err(e) => {
                    return Err(e);
                },
            }
        } else if c == '.' {
            if eol_len_at(s, p + 1) > 0 {
                match text_block_at(s, p, level, unit) {
                    Ok((start, end)) => {
                        head.text = Some(TextNode { text: block_text_at(s, start, end) });
                        return Ok((end, head));
                    },
                    Err(e) => {
                        return Err(e);
                    },
                }
            }
            match class_at(s, p) {
                Ok(e) => {
                    let ghost before = head@.classes;
                    head.classes.push(ClassNode { name: text_of(s, p + 1, e) });
                    assert(head@.classes =~= before.push(s@.subrange(p + 1, e as int)));
                    p = e;
                },
                Err(e) => {
                    return Err(e);
                },
            }
        } else if c == '(' {
            if head.has_list {
                return Err(ParseError { offset: p, kind: ParseErrorKind::UnexpectedInput });
            }
            match attribute_nodes_at(s, p) {
                Ok((e, nodes)) => {
                    head.attributes = nodes;
                    head.has_list = true;
                    p = e;
                },
                Err(e) => {
                    return Err(e);
                },
            }
        } else if c == ' ' {
            match text_at(s, p) {
                Ok(e) => {
                    head.text = Some(TextNode { text: text_of(s, p + 1, e) });
                    return Ok((e, head));
                },
                Err(e) => {
                    return Err(e);
                },
            }
        } else {
            return Ok((p, head));
        }
    }
}

/// Reads the name of the tag that starts at `i`.
pub fn tag_start_at(s: &[char], i: usize) -> (r: Result<(usize, String), ParseError>)
    requires
        i <= s.len(),
    ensures
        match r {
            Ok((end, name)) => {
                &&& spec_tag_start(s@, i as int) == Ok::<(int, Seq<char>), Failure>(
                    (end as int, name@),
                )
                &&& i <= end <= s.len()
            },
            Err(e) => spec_tag_start(s@, i as int) == Err::<(int, Seq<char>), Failure>(e@),
        },
{
    if i >= s.len() {
        return Err(unexpected_at(s, i));
    }
    let first = s[i];
    if first == '.' && eol_len_at(s, i + 1) > 0 {
        return Err(unexpected_at(s, i + 1));
    }
    if first == '.' || first == '#' {
        proof {
            reveal_strlit("div");
        }
        let name = "div".to_owned();
        assert(name@ =~= seq!['d', 'i', 'v']);
        return Ok((i, name));
    }
    match tag_name_at(s, i) {
        Ok(e) => Ok((e, text_of(s, i, e))),
        Err(e) => Err(e),
    }
}

/// Puts a tag together. A list that is empty is absent.
pub fn make_tag(name: String, head: Head, children: Vec<HsmlNode>) -> (t: TagNode)
    ensures
        t@ == tag_of(name@, head@, nodes_view(children)),
{
    let Head { id, classes, attributes, has_list: _, text } = head;
    let t = TagNode {
        tag: name,
        id,
        classes: if classes.len() > 0 {
            Some(classes)
        } else {
            None
        },
        attributes: if attributes.len() > 0 {
            Some(attributes)
        } else {
            None
        },
        text,
        children: if children.len() > 0 {
            Some(children)
        } else {
            None
        },
    };
    assert(t@.classes == tag_of(name@, head@, nodes_view(children)).classes);
    t
}

/// Reads the tag that starts at `i` and stands at `level`.
pub fn tag_node_at(s: &[char], i: usize, level: usize, unit: Option<Vec<char>>) -> (r: Result<
    (usize, TagNode, Option<Vec<char>>),
    ParseError,
>)
    requires
        i <= s.len(),
    ensures
        tag_agrees(r, spec_tag(s@, i as int, level as int, unit_view(unit))),
        r matches Ok((end, node, _)) ==> i < end <= s.len() && well_formed_tag(node@),
    decreases s.len() - i, 1int,
{
    proof {
        lemma_tag_bounds(s@, i as int, level as int, unit_view(unit));
    }
    let (p, name) = match tag_start_at(s, i) {
        Ok(named) => named,
        Err(e) => {
            return Err(e);
        },
    };
    let (headed, head) = match head_at(s, p, level, &unit) {
        Ok(read) => read,
        Err(e) => {
            return Err(e);
        },
    };
    match children_at(s, headed, level, unit) {
        Ok((ended, children, unit2)) => {
            let node = make_tag(name, head, children);
            Ok((ended, node, unit2))
        },
        Err(e) => Err(e),
    }
}

/// Reads the children of a tag at `level` from `start` on.
pub fn children_at(s: &[char], start: usize, level: usize, unit: Option<Vec<char>>) -> (r: Result<
    (usize, Vec<HsmlNode>, Option<Vec<char>>),
    ParseError,
>)
    requires
        start <= s.len(),
    ensures
        children_agree(
            r,
            spec_children(s@, start as int, level as int, unit_view(unit), Seq::empty()),
        ),
        r matches Ok((end, nodes, _)) ==> start <= end <= s.len() && well_formed_nodes(
            nodes_view(nodes),
        ),
    decreases s.len() - start, 0int,
{
    let ghost unit0 = unit_view(unit);
    let mut current = unit;
    let mut nodes: Vec<HsmlNode> = Vec::new();
    let mut p: usize = start;
    proof {
        lemma_nodes_view_empty(nodes);
    }
    loop
        invariant
            start <= p <= s.len(),
            unit0 == unit_view(unit),
            spec_children(s@, start as int, level as int, unit0, Seq::empty()) == spec_children(
                s@,
                p as int,
                level as int,
                unit_view(current),
                nodes_view(nodes),
            ),
            well_formed_nodes(nodes_view(nodes)),
        decreases s.len() - p,
    {
        if p >= s.len() {
            return Ok((p, nodes, current));
        }
        let n = eol_len_at(s, p);
        if n == 0 {
            return Ok((p, nodes, current));
        }
        let q = skip_blank_at(s, p + n);
        let c = indent_end_at(s, q);
        if q >= s.len() || c <= q {
            return Ok((p, nodes, current));
        }
        if is_mixed_at(s, q, c) {
            return Err(ParseError { offset: q, kind: ParseErrorKind::InconsistentIndent });
        }
        let found: Option<usize> = match &current {
            Some(u) => line_level_at(s, q, c - q, u),
            None => {
                proof {
                    lemma_unit_is_level_one(s@, q as int, c - q);
                }
                Some(1)
            },
        };
        let k: usize = match found {
            Some(k) => k,
            None => {
                return Err(ParseError { offset: q, kind: ParseErrorKind::InconsistentIndent });
            },
        };
        let u: Vec<char> = match current {
            Some(u) => u,
            None => chars_of(s, q, c),
        };
        if k <= level {
            return Ok((p, nodes, Some(u)));
        }
        let ghost before = nodes;
        if native_comment_starts(s, c) {
            let e = line_end_at(s, c + 3);
            nodes.push(HsmlNode::Comment(CommentNode { text: text_of(s, c + 3, e), is_dev: false }));
            current = Some(u);
            p = e;
        } else if dev_comment_starts(s, c) {
            let e = line_end_at(s, c + 2);
            nodes.push(HsmlNode::Comment(CommentNode { text: text_of(s, c + 2, e), is_dev: true }));
            current = Some(u);
            p = e;
        } else {
            match tag_node_at(s, c, k, Some(u)) {
                Ok((e, child, unit2)) => {
                    nodes.push(HsmlNode::Tag(child));
                    current = unit2;
                    p = e;
                },
                Err(e) => {
                    return Err(e);
                },
            }
        }
        proof {
            lemma_nodes_view_push(before, nodes, nodes@.last());
            lemma_well_formed_push(nodes_view(before), node_view(nodes@.last()));
        }
    }
}


/// Reads a tag from the start of `input`, for the level and the
/// indentation unit that the context holds: the name, or `div` where a
/// selector starts the tag; the id, the classes and the attribute list; the
/// inline text or the text block; and the children, which are the lines
/// below the tag that are indented deeper than the context's level.
///
/// The context keeps its level. Its unit is the one that the parse ended
/// with: a first indented line sets it.
pub fn tag_node<'a>(input: &'a str, context: &mut HsmlProcessContext) -> (r: Result<
    (&'a str, TagNode),
    ParseError,
>)
    ensures
        match r {
            Ok((rest, node)) => {
                &&& spec_tag(
                    input@,
                    0,
                    old(context).indent_level as int,
                    old(context).unit(),
                ) matches Ok((end, t, unit))
                &&& node@ == t
                &&& well_formed_tag(t)
                &&& rest@ == input@.subrange(end, input@.len() as int)
                &&& final(context).unit() == unit
                &&& final(context).indent_level == old(context).indent_level
            },
            Err(e) => {
                &&& spec_tag(input@, 0, old(context).indent_level as int, old(context).unit())
                    == Err::<(int, TagView, Option<Seq<char>>), Failure>(e@)
                &&& *final(context) == *old(context)
            },
        },
{
    let s = to_chars(input);
    let unit = context.unit_chars();
    match tag_node_at(s.as_slice(), 0, context.indent_level, unit) {
        Ok((end, node, unit2)) => {
            context.record_unit(&unit2);
            Ok((piece(input, end, s.len()), node))
        },
        Err(e) => Err(e),
    }
}

} // verus!
