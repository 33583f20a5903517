use hsml::compile_content;
use hsml::compiler::{compile, HsmlCompileOptions};
use hsml::parser::attribute::node::AttributeNode;
use hsml::parser::class::node::ClassNode;
use hsml::parser::comment::node::CommentNode;
use hsml::parser::error::{ParseError, ParseErrorKind};
use hsml::parser::id::node::IdNode;
use hsml::parser::parse::parse;
use hsml::parser::tag::node::{tag_node, TagNode};
use hsml::parser::text::node::TextNode;
use hsml::parser::{HsmlNode, HsmlProcessContext, RootNode};

fn html_of(source: &str) -> String {
    let (rest, ast) = parse(source).unwrap();
    assert_eq!(rest, "");
    assert!(ast.is_well_formed());
    compile(&ast, &HsmlCompileOptions::default())
}

fn error_of(source: &str) -> ParseError {
    parse(source).unwrap_err()
}

fn bare_tag(name: &str) -> TagNode {
    TagNode {
        tag: String::from(name),
        id: None,
        classes: None,
        attributes: None,
        text: None,
        children: None,
    }
}

#[test]
fn heading_with_class_and_text() {
    assert_eq!(
        html_of("h1.text-red Vite CJS Faker Demo\n"),
        r#"<h1 class="text-red">Vite CJS Faker Demo</h1>"#
    );
}

#[test]
fn nested_selectors_become_nested_divs() {
    assert_eq!(
        html_of(".card\n  .card__body content\n"),
        r#"<div class="card"><div class="card__body">content</div></div>"#
    );
}

#[test]
fn tag_without_content_closes_itself() {
    assert_eq!(
        html_of(r#"img(src="/a.jpg" alt="")"#),
        r#"<img src="/a.jpg" alt=""/>"#
    );
}

#[test]
fn boolean_attributes_keep_their_order() {
    assert_eq!(html_of("input(disabled required)"), "<input disabled required/>");
}

#[test]
fn piped_text_loses_its_shared_indentation() {
    assert_eq!(
        html_of("p.\n  line one\n  line two"),
        "<p>line one\nline two</p>"
    );
}

#[test]
fn piped_text_keeps_relative_indentation() {
    assert_eq!(
        html_of("pre.\n  if x\n    then y\n  end\n"),
        "<pre>if x\n  then y\nend</pre>"
    );
}

#[test]
fn piped_text_keeps_inner_blank_lines_only() {
    assert_eq!(
        html_of("p.\n  one\n\n  two\n\n\nh1 x\n"),
        "<p>one\n\ntwo</p><h1>x</h1>"
    );
}

#[test]
fn piped_text_without_lines_is_empty_text() {
    assert_eq!(html_of("p.\nh1 x"), "<p></p><h1>x</h1>");
    assert_eq!(html_of("p.\n"), "<p></p>");
}

#[test]
fn native_comment_is_emitted_and_developer_comment_is_not() {
    assert_eq!(html_of("//! hello\nh1 x"), "<!-- hello --><h1>x</h1>");
    assert_eq!(html_of("// hello\nh1 x"), "<h1>x</h1>");
}

#[test]
fn comments_among_children() {
    assert_eq!(
        html_of("div\n  // hidden\n  //! shown\n  p a\n"),
        "<div><!-- shown --><p>a</p></div>"
    );
}

#[test]
fn second_id_is_a_duplicate() {
    assert_eq!(
        error_of("h1#a#b"),
        ParseError {
            offset: 4,
            kind: ParseErrorKind::DuplicateId
        }
    );
}

#[test]
fn empty_input_is_an_empty_document() {
    let (rest, ast) = parse("").unwrap();
    assert_eq!(rest, "");
    assert_eq!(ast, RootNode { nodes: vec![] });
    assert_eq!(compile(&ast, &HsmlCompileOptions::default()), "");
    assert_eq!(compile_content(""), Ok(String::new()));
}

#[test]
fn blank_lines_are_an_empty_document() {
    assert_eq!(html_of("\n\r\n  \n\t\n"), "");
}

#[test]
fn bare_class_is_a_div() {
    let (rest, ast) = parse(".foo").unwrap();
    assert_eq!(rest, "");
    assert_eq!(
        ast,
        RootNode {
            nodes: vec![HsmlNode::Tag(TagNode {
                classes: Some(vec![ClassNode {
                    name: String::from("foo")
                }]),
                ..bare_tag("div")
            })]
        }
    );
}

#[test]
fn bare_id_is_a_div() {
    let (rest, ast) = parse("#bar").unwrap();
    assert_eq!(rest, "");
    assert_eq!(
        ast,
        RootNode {
            nodes: vec![HsmlNode::Tag(TagNode {
                id: Some(IdNode {
                    id: String::from("bar")
                }),
                ..bare_tag("div")
            })]
        }
    );
}

#[test]
fn attribute_value_keeps_newlines_and_braces() {
    let source = "div(:class=\"{\n  'a': b,\n}\")";
    let (_, ast) = parse(source).unwrap();
    assert_eq!(
        ast,
        RootNode {
            nodes: vec![HsmlNode::Tag(TagNode {
                attributes: Some(vec![HsmlNode::Attribute(AttributeNode {
                    key: String::from(":class"),
                    value: Some(String::from("{\n  'a': b,\n}")),
                })]),
                ..bare_tag("div")
            })]
        }
    );
    assert_eq!(html_of(source), "<div :class=\"{\n  'a': b,\n}\"/>");
}

#[test]
fn bracket_then_paren_key_stays_whole() {
    let (_, ast) = parse(r#"input([(ngModel)]="name")"#).unwrap();
    assert_eq!(
        ast,
        RootNode {
            nodes: vec![HsmlNode::Tag(TagNode {
                attributes: Some(vec![HsmlNode::Attribute(AttributeNode {
                    key: String::from("[(ngModel)]"),
                    value: Some(String::from("name")),
                })]),
                ..bare_tag("input")
            })]
        }
    );
}

#[test]
fn key_with_two_groups_and_escapes() {
    let (_, ast) = parse(r#"a([x\]y](click) @b)"#).unwrap();
    assert_eq!(
        ast,
        RootNode {
            nodes: vec![HsmlNode::Tag(TagNode {
                attributes: Some(vec![
                    HsmlNode::Attribute(AttributeNode {
                        key: String::from(r#"[x\]y](click)"#),
                        value: None,
                    }),
                    HsmlNode::Attribute(AttributeNode {
                        key: String::from("@b"),
                        value: None,
                    }),
                ]),
                ..bare_tag("a")
            })]
        }
    );
}

#[test]
fn tab_after_two_space_unit_is_inconsistent() {
    assert_eq!(
        error_of("div\n  p a\n\tp b\n"),
        ParseError {
            offset: 10,
            kind: ParseErrorKind::InconsistentIndent
        }
    );
}

#[test]
fn mixed_tabs_and_spaces_are_inconsistent() {
    assert_eq!(
        error_of("div\n \tp a\n"),
        ParseError {
            offset: 4,
            kind: ParseErrorKind::InconsistentIndent
        }
    );
}

#[test]
fn indentation_that_is_no_multiple_of_the_unit_is_inconsistent() {
    assert_eq!(
        error_of("div\n  p a\n   p b\n"),
        ParseError {
            offset: 10,
            kind: ParseErrorKind::InconsistentIndent
        }
    );
}

#[test]
fn indented_top_level_line_is_inconsistent() {
    assert_eq!(
        error_of("  h1 x"),
        ParseError {
            offset: 0,
            kind: ParseErrorKind::InconsistentIndent
        }
    );
}

#[test]
fn shallower_line_pops_back_to_its_ancestor() {
    assert_eq!(
        html_of("a\n  b\n    c\n  d\ne\n"),
        "<a><b><c/></b><d/></a><e/>"
    );
}

#[test]
fn child_may_stand_more_than_one_unit_deeper() {
    assert_eq!(
        html_of("a\n  b\nc\n    d\n  e\n"),
        "<a><b/></a><c><d/><e/></c>"
    );
}

#[test]
fn tag_may_have_text_and_children() {
    assert_eq!(html_of("p Hello\n  b x\n"), "<p>Hello<b>x</b></p>");
}

#[test]
fn carriage_return_line_feed_ends_lines() {
    assert_eq!(
        html_of("//! c\r\ndiv\r\n  p a\r\n  q.\r\n    one\r\n    two\r\n"),
        "<!-- c --><div><p>a</p><q>one\ntwo</q></div>"
    );
}

#[test]
fn id_classes_and_attributes_in_any_order() {
    assert_eq!(
        html_of(r#"a.x(href="/")#top.y"#),
        r#"<a id="top" class="x y" href="/"/>"#
    );
}

#[test]
fn class_with_bracket_group() {
    assert_eq!(
        html_of(".w-[calc(100%-1rem)].text-[#af05c9](a)"),
        r##"<div class="w-[calc(100%-1rem)] text-[#af05c9]" a/>"##
    );
}

#[test]
fn empty_attribute_list_is_absent() {
    let (_, ast) = parse("a()").unwrap();
    assert_eq!(
        ast,
        RootNode {
            nodes: vec![HsmlNode::Tag(bare_tag("a"))]
        }
    );
}

#[test]
fn developer_comment_in_attribute_list_is_kept_in_the_tree() {
    let (_, ast) = parse("a(\n  // why\n  b\n)").unwrap();
    assert_eq!(
        ast,
        RootNode {
            nodes: vec![HsmlNode::Tag(TagNode {
                attributes: Some(vec![
                    HsmlNode::Comment(CommentNode {
                        text: String::from(" why"),
                        is_dev: true
                    }),
                    HsmlNode::Attribute(AttributeNode {
                        key: String::from("b"),
                        value: None
                    }),
                ]),
                ..bare_tag("a")
            })]
        }
    );
    assert_eq!(html_of("a(\n  // why\n  b\n)"), "<a b/>");
}

#[test]
fn second_attribute_list_is_unexpected() {
    assert_eq!(
        error_of("a(b)(c)"),
        ParseError {
            offset: 4,
            kind: ParseErrorKind::UnexpectedInput
        }
    );
}

#[test]
fn character_after_a_tag_is_unexpected() {
    assert_eq!(
        error_of("h1%"),
        ParseError {
            offset: 2,
            kind: ParseErrorKind::UnexpectedInput
        }
    );
}

#[test]
fn tag_must_start_with_a_letter() {
    assert_eq!(
        error_of("1a"),
        ParseError {
            offset: 0,
            kind: ParseErrorKind::UnexpectedInput
        }
    );
}

#[test]
fn selector_without_a_name_fails() {
    assert_eq!(
        error_of("a."),
        ParseError {
            offset: 2,
            kind: ParseErrorKind::IncompleteInput
        }
    );
    assert_eq!(
        error_of(".\n  text"),
        ParseError {
            offset: 1,
            kind: ParseErrorKind::UnexpectedInput
        }
    );
    assert_eq!(
        error_of("a#"),
        ParseError {
            offset: 2,
            kind: ParseErrorKind::IncompleteInput
        }
    );
}

#[test]
fn empty_inline_text_fails() {
    assert_eq!(
        error_of("h1 \n"),
        ParseError {
            offset: 3,
            kind: ParseErrorKind::UnexpectedInput
        }
    );
    assert_eq!(
        error_of("h1 "),
        ParseError {
            offset: 3,
            kind: ParseErrorKind::IncompleteInput
        }
    );
}

#[test]
fn attribute_key_may_not_start_with_a_digit() {
    assert_eq!(
        error_of("a(1b)"),
        ParseError {
            offset: 2,
            kind: ParseErrorKind::InvalidAttributeKeyStart
        }
    );
}

#[test]
fn attribute_key_may_start_with_a_letter_beyond_ascii() {
    assert_eq!(html_of("a(\u{00e4}=\"1\")"), "<a \u{00e4}=\"1\"/>");
}

#[test]
fn attribute_key_may_not_start_with_a_number_beyond_ascii() {
    // U+2167 is a letter-like numeral: alphabetic, and a number.
    assert_eq!(
        error_of("a(\u{2167})"),
        ParseError {
            offset: 2,
            kind: ParseErrorKind::InvalidAttributeKeyStart
        }
    );
    // U+0663 is a digit beyond ASCII.
    assert_eq!(
        error_of("a(\u{0663})"),
        ParseError {
            offset: 2,
            kind: ParseErrorKind::InvalidAttributeKeyStart
        }
    );
}

#[test]
fn unclosed_bracket_in_key() {
    assert_eq!(
        error_of("a([b)"),
        ParseError {
            offset: 2,
            kind: ParseErrorKind::UnterminatedBracketGroup
        }
    );
}

#[test]
fn unclosed_paren_in_key() {
    assert_eq!(
        error_of(r#"a((b="c" d"#),
        ParseError {
            offset: 2,
            kind: ParseErrorKind::UnterminatedParenGroup
        }
    );
}

#[test]
fn unclosed_quote_in_value() {
    assert_eq!(
        error_of(r#"a(b="c\")"#),
        ParseError {
            offset: 4,
            kind: ParseErrorKind::UnterminatedQuotedValue
        }
    );
}

#[test]
fn single_quoted_value_with_escaped_quote() {
    assert_eq!(html_of(r#"a(b='c\'d')"#), r#"<a b="c\'d"/>"#);
}

#[test]
fn unquoted_value() {
    assert_eq!(
        error_of("a(b=c)"),
        ParseError {
            offset: 4,
            kind: ParseErrorKind::UnquotedAttributeValue
        }
    );
}

#[test]
fn input_that_ends_in_an_attribute_list() {
    assert_eq!(
        error_of("a(b"),
        ParseError {
            offset: 3,
            kind: ParseErrorKind::IncompleteInput
        }
    );
    assert_eq!(
        error_of("a(b, "),
        ParseError {
            offset: 5,
            kind: ParseErrorKind::IncompleteInput
        }
    );
    assert_eq!(
        error_of("a(b="),
        ParseError {
            offset: 4,
            kind: ParseErrorKind::IncompleteInput
        }
    );
}

#[test]
fn compiling_twice_gives_the_same() {
    let source = ".card\n  img(src=\"a\")\n  p.\n    text\n";
    assert_eq!(compile_content(source), compile_content(source));
    assert_eq!(
        compile_content(source),
        Ok(String::from(
            r#"<div class="card"><img src="a"/><p>text</p></div>"#
        ))
    );
}

#[test]
fn compile_content_hands_on_the_failure() {
    assert_eq!(
        compile_content("h1#a#b"),
        Err(ParseError {
            offset: 4,
            kind: ParseErrorKind::DuplicateId
        })
    );
}

#[test]
fn empty_text_does_not_close_the_tag_itself() {
    let ast = RootNode {
        nodes: vec![HsmlNode::Tag(TagNode {
            text: Some(TextNode {
                text: String::new(),
            }),
            ..bare_tag("p")
        })],
    };
    assert_eq!(compile(&ast, &HsmlCompileOptions::default()), "<p></p>");
}

#[test]
fn empty_class_list_is_emitted_empty() {
    let ast = RootNode {
        nodes: vec![HsmlNode::Tag(TagNode {
            classes: Some(vec![]),
            ..bare_tag("p")
        })],
    };
    assert_eq!(
        compile(&ast, &HsmlCompileOptions::default()),
        r#"<p class=""/>"#
    );
}

#[test]
fn misplaced_nodes_are_not_well_formed() {
    let text_at_top = RootNode {
        nodes: vec![HsmlNode::Text(TextNode {
            text: String::from("x"),
        })],
    };
    assert!(!text_at_top.is_well_formed());

    let native_comment_in_list = RootNode {
        nodes: vec![HsmlNode::Tag(TagNode {
            attributes: Some(vec![HsmlNode::Comment(CommentNode {
                text: String::from("x"),
                is_dev: false,
            })]),
            ..bare_tag("p")
        })],
    };
    assert!(!native_comment_in_list.is_well_formed());

    let class_among_children = RootNode {
        nodes: vec![HsmlNode::Tag(TagNode {
            children: Some(vec![
                HsmlNode::Tag(bare_tag("a")),
                HsmlNode::Class(ClassNode {
                    name: String::from("x"),
                }),
            ]),
            ..bare_tag("p")
        })],
    };
    assert!(!class_among_children.is_well_formed());

    let good = RootNode {
        nodes: vec![HsmlNode::Tag(TagNode {
            attributes: Some(vec![HsmlNode::Comment(CommentNode {
                text: String::from("x"),
                is_dev: true,
            })]),
            children: Some(vec![HsmlNode::Comment(CommentNode {
                text: String::from("y"),
                is_dev: false,
            })]),
            ..bare_tag("p")
        })],
    };
    assert!(good.is_well_formed());
    assert_eq!(
        compile(&good, &HsmlCompileOptions::default()),
        "<p><!--y --></p>"
    );
}

#[test]
fn context_keeps_its_level_and_learns_the_unit() {
    let mut context = HsmlProcessContext::default();
    let (rest, tag) = tag_node("ul\n\tli a\n\tli b\np", &mut context).unwrap();
    assert_eq!(rest, "\np");
    assert_eq!(tag.children.map(|c| c.len()), Some(2));
    assert_eq!(context.indent_level, 0);
    assert_eq!(context.indent_string, Some(String::from("\t")));
}

#[test]
fn context_is_unchanged_after_a_failure() {
    let mut context = HsmlProcessContext::default();
    let error = tag_node("ul\n  li#a#b", &mut context).unwrap_err();
    assert_eq!(
        error,
        ParseError {
            offset: 9,
            kind: ParseErrorKind::DuplicateId
        }
    );
    assert_eq!(context.indent_level, 0);
    assert_eq!(context.indent_string, None);
}

#[test]
fn tag_at_a_level_takes_deeper_lines_only() {
    let mut context = HsmlProcessContext {
        indent_level: 1,
        indent_string: Some(String::from("  ")),
    };
    let (rest, tag) = tag_node("ul\n    li a\n  p", &mut context).unwrap();
    assert_eq!(rest, "\n  p");
    assert_eq!(tag.children.map(|c| c.len()), Some(1));
}
