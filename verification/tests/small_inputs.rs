//! Every input of up to four characters over a small alphabet: whatever
//! parses is read to its end, is well formed, and compiles to a text with
//! as many `<` as `>`.
use hsml::compile_content;
use hsml::compiler::{compile, HsmlCompileOptions};
use hsml::parser::parse::parse;

const ALPHABET: [char; 15] = [
    'a', '1', '-', '.', '#', '(', ')', '[', ']', ' ', '\t', '\n', '"', '=', '/',
];

fn inputs(length: usize) -> Vec<String> {
    let mut all = vec![String::new()];
    for _ in 0..length {
        let mut longer = Vec::new();
        for input in &all {
            for c in ALPHABET {
                let mut next = input.clone();
                next.push(c);
                longer.push(next);
            }
        }
        all = longer;
    }
    all
}

fn check(input: &str) -> bool {
    match parse(input) {
        Ok((rest, ast)) => {
            assert_eq!(rest, "", "{:?}", input);
            assert!(ast.is_well_formed(), "{:?}", input);
            let html = compile(&ast, &HsmlCompileOptions::default());
            assert_eq!(compile_content(input), Ok(html.clone()), "{:?}", input);
            let opened = html.chars().filter(|c| *c == '<').count();
            let closed = html.chars().filter(|c| *c == '>').count();
            assert_eq!(opened, closed, "{:?}", input);
            true
        }
        Err(error) => {
            assert!(error.offset <= input.chars().count(), "{:?}", input);
            assert_eq!(compile_content(input), Err(error), "{:?}", input);
            false
        }
    }
}

#[test]
fn inputs_of_up_to_three_characters() {
    let mut parsed = 0;
    for length in 0..=3 {
        for input in inputs(length) {
            if check(&input) {
                parsed += 1;
            }
        }
    }
    assert!(parsed > 0);
}

#[test]
fn inputs_of_four_characters() {
    let mut parsed = 0;
    for input in inputs(4) {
        if check(&input) {
            parsed += 1;
        }
    }
    assert!(parsed > 0);
}

#[test]
fn documents_put_together_from_lines() {
    let lines = [
        "a", "  b x", "  c.", "    text", "\tq", "    d(e f=\"g\")", "//! n", "  // d", "", ".k#i",
    ];
    let mut parsed = 0;
    for first in lines {
        for second in lines {
            for third in lines {
                for terminator in ["\n", "\r\n"] {
                    let input = [first, second, third].join(terminator);
                    if check(&input) {
                        parsed += 1;
                    }
                }
            }
        }
    }
    assert!(parsed > 0);
}
