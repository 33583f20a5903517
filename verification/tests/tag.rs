use hsml::parser::class::node::ClassNode;
use hsml::parser::tag::node::{tag_node, TagNode};
use hsml::parser::text::node::TextNode;
use hsml::parser::HsmlProcessContext;

#[test]
fn it_should_return_tag_node_with_piped_text() {
    let context = &mut HsmlProcessContext {
        indent_level: 3,
        indent_string: Some(String::from("  ")),
    };

    let (input, tag) = tag_node(
        r#"p.text-lg.font-medium.
        "Tailwind CSS is the only framework that I've seen scale
        on large teams. It's easy to customize, adapts to any design,
        and the build size is tiny."
    figcaption.font-medium"#,
        context,
    )
    .unwrap();

    assert_eq!(
        tag,
        TagNode {
            tag: String::from("p"),
            id: None,
            classes: Some(vec![
                ClassNode {
                    name: String::from("text-lg"),
                },
                ClassNode {
                    name: String::from("font-medium"),
                },
            ]),
            attributes: None,
            text: Some(TextNode {
                text: String::from(
                    r#""Tailwind CSS is the only framework that I've seen scale
on large teams. It's easy to customize, adapts to any design,
and the build size is tiny.""#
                ),
            }),
            children: None,
        }
    );

    assert_eq!(input, "\n    figcaption.font-medium");
}
