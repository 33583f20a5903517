use hsml::parser::text::node::{text_block_node, TextNode};
use hsml::parser::text::process::{process_text, process_text_block};
use hsml::parser::HsmlProcessContext;

#[test]
fn it_should_return_text_block_node() {
    let context = &mut HsmlProcessContext {
        indent_level: 3,
        indent_string: Some(String::from("  ")),
    };

    let (input, text_block) = text_block_node(
        r#".
        "Tailwind CSS is the only framework that I've seen scale
        on large teams. It's easy to customize, adapts to any design,
        and the build size is tiny."
    figcaption.font-medium"#,
        context,
    )
    .unwrap();

    assert_eq!(
        text_block,
        TextNode {
            text: String::from(
                r#""Tailwind CSS is the only framework that I've seen scale
on large teams. It's easy to customize, adapts to any design,
and the build size is tiny.""#
            ),
        }
    );

    assert_eq!(input, "\n    figcaption.font-medium");
}

#[test]
fn it_should_stop_before_next_tag_node() {
    let context = &mut HsmlProcessContext {
        indent_level: 1,
        indent_string: Some(String::from("  ")),
    };

    let (input, text_block) = text_block_node(
        r#".
    Sarah Dayan
  .text-[#af05c9].dark:text-slate-500.
    Staff Engineer, Algolia"#,
        context,
    )
    .unwrap();

    assert_eq!(
        text_block,
        TextNode {
            text: String::from(r#"Sarah Dayan"#),
        }
    );

    assert_eq!(
        input,
        "\n  .text-[#af05c9].dark:text-slate-500.\n    Staff Engineer, Algolia"
    );
}

#[test]
fn it_should_process_text_block() {
    let mut context = HsmlProcessContext {
        indent_level: 1,
        indent_string: Some(String::from("  ")),
    };

    let input = r#".
   this is just some text
    it can be multiline

    	and also contain blank lines
span other text
"#;

    let (rest, text_block) = process_text_block(input, &mut context).unwrap();

    assert_eq!(
        text_block,
        r#"   this is just some text
    it can be multiline

    	and also contain blank lines"#
    );
    assert_eq!(
        rest,
        r#"
span other text
"#
    );
}

#[test]
fn test_process_text() {
    let input = " hello world\n";

    let (rest, text) = process_text(input).unwrap();

    assert_eq!(text, "hello world");
    assert_eq!(rest, "\n");
}
