//! The token parsers against the parser combinators that are commonly used
//! for the same jobs: where both accept, they split the input alike.
use hsml::parser::attribute::process::process_attribute_key;
use hsml::parser::process_newline;
use hsml::parser::tag::node::tag_node;
use hsml::parser::text::process::{process_text, process_text_block};
use hsml::parser::HsmlProcessContext;
use nom::bytes::complete::{tag, take_till, take_till1, take_until1};
use nom::character::complete::line_ending;
use nom::error::Error;
use nom::IResult;

fn nom_line_ending(input: &str) -> IResult<&str, &str> {
    line_ending::<&str, Error<&str>>(input)
}

fn nom_text(input: &str) -> IResult<&str, &str> {
    let (input, _) = tag::<&str, &str, Error<&str>>(" ")(input)?;
    take_until1::<&str, &str, Error<&str>>("\n")(input)
}

#[test]
fn newline_agrees_with_line_ending() {
    for input in ["\n", "\r\n", "\nc", "\r\nc", "\n\n", "", "c\n", "\r", "\rc", " \n"] {
        match (process_newline(input), nom_line_ending(input)) {
            (Ok(ours), Ok(theirs)) => assert_eq!(ours, theirs),
            (Err(_), Err(_)) => {}
            (ours, theirs) => panic!("{:?}: {:?} and {:?}", input, ours, theirs),
        }
    }
}

#[test]
fn inline_text_agrees_with_take_until_on_terminated_lines() {
    for input in [" hello world\n", " a\nb\n", " {{ x }}\n\n", "  two\n", " \n", "x\n", "\n"] {
        match (process_text(input), nom_text(input)) {
            (Ok(ours), Ok(theirs)) => assert_eq!(ours, theirs),
            (Err(_), Err(_)) => {}
            (ours, theirs) => panic!("{:?}: {:?} and {:?}", input, ours, theirs),
        }
    }
}

#[test]
fn inline_text_may_end_with_the_input() {
    // The combinator asks for the terminator; the text of a last line
    // needs none.
    assert!(nom_text(" last").is_err());
    assert_eq!(process_text(" last"), Ok(("", "last")));
}

#[test]
fn attribute_key_ends_where_the_equal_sign_is_read() {
    for input in [r#"src="a""#, r#":key="item.id" b"#, r#"[(ngModel)]="name""#] {
        let (rest, _) = process_attribute_key(input).unwrap();
        let (after, sign) = tag::<&str, &str, Error<&str>>("=")(rest).unwrap();
        assert_eq!(sign, "=");
        assert!(after.starts_with('"'));
    }
    let (rest, _) = process_attribute_key("disabled required").unwrap();
    assert!(tag::<&str, &str, Error<&str>>("=")(rest).is_err());
}

#[test]
fn text_block_starts_after_a_dot_and_a_line_terminator() {
    let mut context = HsmlProcessContext::default();
    for input in [".\n  a\n  b\nc", ".\r\n  a\r\nc", ".\n\ta"] {
        let (after_dot, _) = tag::<&str, &str, Error<&str>>(".")(input).unwrap();
        let (lines, _) = nom_line_ending(after_dot).unwrap();
        let (rest, block) = process_text_block(input, &mut context).unwrap();
        assert!(lines.starts_with(block));
        assert_eq!(&lines[block.len()..], rest);
    }
}

#[test]
fn children_start_after_line_terminators_and_indentation() {
    let input = "ul\n\n  li a\n";
    let (after_name, tag_read) = tag_node(input, &mut HsmlProcessContext::default()).unwrap();
    assert_eq!(after_name, "\n");
    assert_eq!(tag_read.children.map(|c| c.len()), Some(1));

    let rest = &input[2..];
    let (rest, breaks) =
        take_till1::<_, &str, Error<&str>>(|c| c != '\r' && c != '\n')(rest).unwrap();
    assert_eq!(breaks, "\n\n");
    let (rest, indentation) =
        take_till::<_, &str, Error<&str>>(|c: char| !c.is_whitespace())(rest).unwrap();
    assert_eq!(indentation, "  ");
    assert_eq!(rest, "li a\n");
}
