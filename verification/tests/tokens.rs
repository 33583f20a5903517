use hsml::parser::class::node::{class_node, ClassNode};
use hsml::parser::class::process::process_class;
use hsml::parser::comment::node::{comment_dev_node, comment_native_node, CommentNode};
use hsml::parser::comment::process::{process_comment_dev, process_comment_native};
use hsml::parser::attribute::node::{attribute_node, attribute_nodes, AttributeNode};
use hsml::parser::attribute::process::is_valid_attribute_key_start;
use hsml::parser::error::{ParseError, ParseErrorKind};
use hsml::parser::id::node::{id_node, IdNode};
use hsml::parser::id::process::process_id;
use hsml::parser::tag::process::process_tag;
use hsml::parser::text::node::{text_node, TextNode};
use hsml::parser::text::process::process_text;
use hsml::parser::{process_newline, HsmlNode, HsmlProcessContext};

#[test]
fn newline_is_line_feed_or_carriage_return_line_feed() {
    assert_eq!(process_newline("\nc"), Ok(("c", "\n")));
    assert_eq!(process_newline("\r\nc"), Ok(("c", "\r\n")));
    assert_eq!(
        process_newline("ab\r\nc"),
        Err(ParseError {
            offset: 0,
            kind: ParseErrorKind::UnexpectedInput
        })
    );
    assert_eq!(
        process_newline("\rc"),
        Err(ParseError {
            offset: 0,
            kind: ParseErrorKind::UnexpectedInput
        })
    );
    assert_eq!(
        process_newline(""),
        Err(ParseError {
            offset: 0,
            kind: ParseErrorKind::IncompleteInput
        })
    );
}

#[test]
fn tag_name_is_a_letter_then_letters_digits_and_dashes() {
    assert_eq!(process_tag("my-tag2.x"), Ok((".x", "my-tag2")));
    assert_eq!(process_tag("h1 x"), Ok((" x", "h1")));
    assert_eq!(
        process_tag("-a"),
        Err(ParseError {
            offset: 0,
            kind: ParseErrorKind::UnexpectedInput
        })
    );
    assert_eq!(
        process_tag(""),
        Err(ParseError {
            offset: 0,
            kind: ParseErrorKind::IncompleteInput
        })
    );
}

#[test]
fn id_is_a_hash_and_a_name() {
    assert_eq!(process_id("#main-1.x"), Ok((".x", "main-1")));
    assert_eq!(
        id_node("#a#b"),
        Ok((
            "#b",
            IdNode {
                id: String::from("a")
            }
        ))
    );
    assert_eq!(
        process_id("a"),
        Err(ParseError {
            offset: 0,
            kind: ParseErrorKind::UnexpectedInput
        })
    );
    assert_eq!(
        process_id("#1"),
        Err(ParseError {
            offset: 1,
            kind: ParseErrorKind::UnexpectedInput
        })
    );
}

#[test]
fn class_is_a_dot_and_a_name() {
    assert_eq!(process_class(".md:flex.b"), Ok((".b", "md:flex")));
    assert_eq!(
        process_class(".dark:bg-slate-800/10 x"),
        Ok((" x", "dark:bg-slate-800/10"))
    );
    assert_eq!(
        process_class(".text-[#af05c9](a)"),
        Ok(("(a)", "text-[#af05c9]"))
    );
    assert_eq!(
        class_node(".w-[calc(1%+(2px)/2)](a)"),
        Ok((
            "(a)",
            ClassNode {
                name: String::from("w-[calc(1%+(2px)/2)]")
            }
        ))
    );
    // A `[` that nothing closes on its line is a character like any other.
    assert_eq!(process_class(".a[b(c)\n]"), Ok(("(c)\n]", "a[b")));
    assert_eq!(
        process_class(".(a)"),
        Err(ParseError {
            offset: 1,
            kind: ParseErrorKind::UnexpectedInput
        })
    );
}

#[test]
fn comment_text_is_the_rest_of_the_line() {
    assert_eq!(process_comment_native("//! a b\nc"), Ok(("\nc", " a b")));
    assert_eq!(process_comment_dev("// a b\r\nc"), Ok(("\r\nc", " a b")));
    assert_eq!(process_comment_dev("//"), Ok(("", "")));
    assert_eq!(
        comment_native_node("//!x"),
        Ok((
            "",
            CommentNode {
                text: String::from("x"),
                is_dev: false
            }
        ))
    );
    assert_eq!(
        comment_dev_node("//x"),
        Ok((
            "",
            CommentNode {
                text: String::from("x"),
                is_dev: true
            }
        ))
    );
    assert_eq!(
        process_comment_dev("//! a"),
        Err(ParseError {
            offset: 0,
            kind: ParseErrorKind::UnexpectedInput
        })
    );
    assert_eq!(
        process_comment_native("// a"),
        Err(ParseError {
            offset: 0,
            kind: ParseErrorKind::UnexpectedInput
        })
    );
}

#[test]
fn inline_text_is_the_rest_of_the_line_after_a_space() {
    assert_eq!(process_text(" a  b"), Ok(("", "a  b")));
    assert_eq!(process_text(" a\r\nb"), Ok(("\r\nb", "a")));
    assert_eq!(process_text(" a\rb\n"), Ok(("\n", "a\rb")));
    assert_eq!(
        text_node(" {{ x }}\n"),
        Ok((
            "\n",
            TextNode {
                text: String::from("{{ x }}")
            }
        ))
    );
    assert_eq!(
        process_text("a"),
        Err(ParseError {
            offset: 0,
            kind: ParseErrorKind::UnexpectedInput
        })
    );
    assert_eq!(
        process_text(" \n"),
        Err(ParseError {
            offset: 1,
            kind: ParseErrorKind::UnexpectedInput
        })
    );
}

#[test]
fn attribute_key_start() {
    for c in ['a', 'Z', ':', '#', '@', '[', '(', '\u{00e4}'] {
        assert!(is_valid_attribute_key_start(c));
    }
    for c in ['1', ' ', '.', ',', '\n', ')', '=', '"', '-', '_', '\u{0663}'] {
        assert!(!is_valid_attribute_key_start(c));
    }
}

#[test]
fn attribute_node_splits_key_and_value() {
    let mut context = HsmlProcessContext::default();
    assert_eq!(
        attribute_node(r#"(click)="go()", b"#, &mut context),
        Ok((
            ", b",
            AttributeNode {
                key: String::from("(click)"),
                value: Some(String::from("go()"))
            }
        ))
    );
    assert_eq!(
        attribute_node("hidden)", &mut context),
        Ok((
            ")",
            AttributeNode {
                key: String::from("hidden"),
                value: None
            }
        ))
    );
}

#[test]
fn attribute_list_ends_at_its_closing_paren() {
    let mut context = HsmlProcessContext::default();
    let (rest, nodes) = attribute_nodes(r#"(a="(x)", [b)]  c) d"#, &mut context).unwrap();
    assert_eq!(rest, " d");
    assert_eq!(
        nodes,
        vec![
            HsmlNode::Attribute(AttributeNode {
                key: String::from("a"),
                value: Some(String::from("(x)"))
            }),
            HsmlNode::Attribute(AttributeNode {
                key: String::from("[b)]"),
                value: None
            }),
            HsmlNode::Attribute(AttributeNode {
                key: String::from("c"),
                value: None
            }),
        ]
    );
    assert_eq!(
        attribute_nodes("a", &mut context),
        Err(ParseError {
            offset: 0,
            kind: ParseErrorKind::UnexpectedInput
        })
    );
}

#[test]
fn failure_has_a_line_and_a_column() {
    let source = "div\n  p a\n  q#a#b\n";
    let error = hsml::parser::parse::parse(source).unwrap_err();
    assert_eq!(
        error,
        ParseError {
            offset: 15,
            kind: ParseErrorKind::DuplicateId
        }
    );
    assert_eq!(error.line_and_column(source), (2, 5));

    let at_start = ParseError {
        offset: 0,
        kind: ParseErrorKind::UnexpectedInput,
    };
    assert_eq!(at_start.line_and_column(source), (0, 0));
    let after_feed = ParseError {
        offset: 4,
        kind: ParseErrorKind::UnexpectedInput,
    };
    assert_eq!(after_feed.line_and_column(source), (1, 0));
    let beyond = ParseError {
        offset: 100,
        kind: ParseErrorKind::IncompleteInput,
    };
    assert_eq!(beyond.line_and_column(source), (3, 0));
    assert_eq!(beyond.line_and_column("ab"), (0, 2));
}
