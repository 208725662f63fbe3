use nom_cheatsheet::error::TemplateError;
use nom_cheatsheet::segment::{
    do_code_blocks, example_path_of, is_runnable_language, parse_code_block,
    parse_outside_code_blocks, segment, CodeBlock, Component, Example,
};
use nom_cheatsheet::text::chars_of;

#[test]
fn a_code_block_is_a_language_and_code() {
    let text = chars_of("```rust\nfn main() {}\n```tail");
    let (block, end) = parse_code_block(&text, 0).unwrap();
    assert_eq!(block, CodeBlock { language: "rust".to_string(), code: "fn main() {}\n".to_string() });
    assert_eq!(end, text.len() - 4);
}

#[test]
fn a_code_block_may_lack_language_and_code() {
    let text = chars_of("```\r\n```");
    let (block, end) = parse_code_block(&text, 0).unwrap();
    assert_eq!(block, CodeBlock { language: String::new(), code: String::new() });
    assert_eq!(end, 8);
}

#[test]
fn what_is_no_code_block() {
    assert_eq!(parse_code_block(&chars_of("text"), 0), None);
    assert_eq!(parse_code_block(&chars_of("``x"), 0), None);
    assert_eq!(parse_code_block(&chars_of("```rust"), 0), None);
    assert_eq!(parse_code_block(&chars_of("```rust\ncode"), 0), None);
    assert_eq!(parse_code_block(&chars_of("```rust\rcode\n```"), 0), None);
    assert_eq!(parse_code_block(&chars_of("```rust```"), 0), None);
}

#[test]
fn text_runs_to_the_next_fence_or_the_end() {
    let text = chars_of("abc```def");
    assert_eq!(parse_outside_code_blocks(&text, 0), Some(("abc".to_string(), 3)));
    assert_eq!(parse_outside_code_blocks(&text, 3), None);
    assert_eq!(parse_outside_code_blocks(&text, 6), Some(("def".to_string(), 9)));
    assert_eq!(parse_outside_code_blocks(&text, 9), None);
}

#[test]
fn a_template_is_text_and_code_blocks_in_turn() {
    let text = chars_of("intro\n```rs\ncode\n```\nmiddle```ignore\nx```");
    let components = segment(&text).unwrap();
    assert_eq!(
        components,
        vec![
            Component::Text("intro\n".to_string()),
            Component::CodeBlock(CodeBlock { language: "rs".to_string(), code: "code\n".to_string() }),
            Component::Text("\nmiddle".to_string()),
            Component::CodeBlock(CodeBlock { language: "ignore".to_string(), code: "x".to_string() }),
        ]
    );
}

#[test]
fn templates_that_segment_refuses() {
    assert_eq!(segment(&chars_of("")), Err(TemplateError::Empty));
    assert_eq!(
        segment(&chars_of("```rust\nopen")),
        Err(TemplateError::UnterminatedFence { position: 0 })
    );
    assert_eq!(
        segment(&chars_of("a```b\n```c```")),
        Err(TemplateError::UnterminatedFence { position: 10 })
    );
}

#[test]
fn code_blocks_are_written_out_and_collected() {
    let out = do_code_blocks("a\n```rust\nfn main() {}\n```\nb\n```ignore\nx\n```\n```text\ny\n```\n```rs\nz\n```").unwrap();
    assert_eq!(
        out.text,
        "a\n```rust\nfn main() {}\n\n```\nb\n```rust\nx\n\n```\n```text\ny\n\n```\n```rs\nz\n\n```"
    );
    let harness = "\n#[cfg(test)]\nmod tests {\n    use super::*;\n\n    #[test]\n    fn test_main() {\n        main();\n    }\n}";
    assert_eq!(
        out.examples,
        vec![
            Example { index: 1, source: format!("fn main() {{}}\n{harness}") },
            Example { index: 7, source: format!("z\n{harness}") },
        ]
    );
}

#[test]
fn do_code_blocks_refuses_what_segment_refuses() {
    assert_eq!(do_code_blocks(""), Err(TemplateError::Empty));
    assert_eq!(do_code_blocks("x```"), Err(TemplateError::UnterminatedFence { position: 1 }));
}

#[test]
fn runnable_languages() {
    assert!(is_runnable_language("rust"));
    assert!(is_runnable_language("rs"));
    assert!(!is_runnable_language("ignore"));
    assert!(!is_runnable_language("rust "));
    assert!(!is_runnable_language(""));
}

#[test]
fn example_paths() {
    assert_eq!(example_path_of(0), "examples/example0.rs");
    assert_eq!(example_path_of(7), "examples/example7.rs");
    assert_eq!(example_path_of(120), "examples/example120.rs");
}
