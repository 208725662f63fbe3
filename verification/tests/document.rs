use nom_cheatsheet::document::{compile, plan, render_document};
use nom_cheatsheet::error::{BuildError, TemplateError};
use nom_cheatsheet::imports::global_imports;
use nom_cheatsheet::outcome::{format_iresult, Fragment, Outcome};
use nom_cheatsheet::program::generate_source;
use nom_cheatsheet::resolve::{resolve_tables, row_complete, tables_complete};
use nom_cheatsheet::table::parse_tables;
use nom_cheatsheet::text::chars_of;

const HEADER: &str = "| combinator | usage | input | output | description |\n|---|---|---|---|---|\n";

fn template(rows: &str) -> String {
    format!("# Title\n\n{HEADER}{rows}\nThe end.\n")
}

#[test]
fn end_to_end_scenario() {
    let source = format!("{HEADER}| mod::f | `f(x)` | `\"ab\"` | | does a thing |\n");
    let outcome = Outcome::Success { value: "\"a\"".to_string(), remainder: Fragment::Text("b") };
    let output = format_iresult(&Fragment::Text("ab"), &outcome).unwrap();
    let document = compile(&source, &[output]).unwrap();
    let expected = format!(
        "{HEADER}| mod::[f](https://docs.rs/nom/latest/nom/mod/fn.f.html) | `f(x)` | `\"ab\"` | Result: `\"a\"`<br>Remainder: `\"b\"` | does a thing |\n"
    );
    assert_eq!(document, expected);
}

#[test]
fn carry_forward_repeats_the_reference_column() {
    let source = template(
        "| character::complete::char | `char('a')` | `\"ab\"` | | first |\n|  | `char('b')` | `\"ba\"` | | second |\n",
    );
    let made = plan(&source).unwrap();
    assert_eq!(made.tables.len(), 1);
    assert_eq!(made.tables[0].rows.len(), 2);
    assert_eq!(made.tables[0].rows[0].references, made.tables[0].rows[1].references);
    let document = compile(&source, &["X".to_string(), "Y".to_string()]).unwrap();
    let link = "character::complete::[char](https://docs.rs/nom/latest/nom/character/complete/fn.char.html)";
    let expected = format!(
        "# Title\n\n{HEADER}| {link} | `char('a')` | `\"ab\"` | X | first |\n| {link} | `char('b')` | `\"ba\"` | Y | second |\n\nThe end.\n"
    );
    assert_eq!(document, expected);
}

#[test]
fn carry_forward_crosses_tables() {
    let source = format!(
        "{HEADER}| a::f |  |  |  | one |\nbetween\n{HEADER}|  |  |  |  | two |\nafter"
    );
    let made = plan(&source).unwrap();
    assert_eq!(made.tables.len(), 2);
    assert_eq!(made.tables[1].rows[0].references, made.tables[0].rows[0].references);
    assert_eq!(made.tables[1].preamble, format!("between\n{HEADER}"));
    assert_eq!(made.remainder, "after");
}

#[test]
fn conflicting_imports_are_left_out_of_the_global_list() {
    let source = template(
        "| character::complete::i8 | `i8` | `\"1\"` | | text |\n| number::complete::i8 | `i8` | `b\"1\"` | | bytes |\n| bytes::complete::tag | `tag(\"a\")` | `\"a\"` | | tag |\n",
    );
    let made = plan(&source).unwrap();
    assert_eq!(
        made.imports,
        vec!["#[allow(unused_imports)] use nom::bytes::complete::tag;".to_string()]
    );
    let program = generate_source(&made.imports, &made.tables, &made.remainder);
    assert!(program.contains("    #[allow(unused_imports)] use nom::character::complete::i8;\n"));
    assert!(program.contains("    #[allow(unused_imports)] use nom::number::complete::i8;\n"));
    assert!(program.starts_with(
        "#[allow(unused_imports)] use nom::bytes::complete::tag;\nuse std::io::Write;\n"
    ));
}

#[test]
fn global_imports_are_sorted_and_skip_streaming_and_bits() {
    let source = template(
        "| sequence::pair<br>branch::alt | | | | two |\n| bytes::streaming::tag | | | | left out |\n| bits::complete::take | | | | left out |\n| branch::alt | | | | again |\n",
    );
    let made = plan(&source).unwrap();
    assert_eq!(
        made.imports,
        vec![
            "#[allow(unused_imports)] use nom::branch::alt;".to_string(),
            "#[allow(unused_imports)] use nom::sequence::pair;".to_string(),
        ]
    );
    assert_eq!(global_imports(&made.tables), made.imports);
}

#[test]
fn a_usage_without_an_input_is_refused() {
    let source = template("| a::f | `f` | `\"x\"` | | fine |\n| a::g | `g` |  | | half |\n");
    assert_eq!(plan(&source), Err(BuildError::UnpairedExample { table: 0, row: 1 }));
    assert_eq!(compile(&source, &["X".to_string()]), Err(BuildError::UnpairedExample { table: 0, row: 1 }));
    let other = template("| a::g |  | `\"x\"` | | half |\n");
    assert_eq!(plan(&other), Err(BuildError::UnpairedExample { table: 0, row: 0 }));
}

#[test]
fn a_first_row_without_references_is_refused() {
    let source = template("|  | `f` | `\"x\"` | | nothing to inherit |\n");
    assert_eq!(plan(&source), Err(BuildError::MissingReferences { table: 0, row: 0 }));
}

#[test]
fn templates_that_cannot_be_read_are_refused() {
    assert_eq!(plan(""), Err(BuildError::Template(TemplateError::Empty)));
    assert_eq!(plan("no table here\n"), Err(BuildError::Template(TemplateError::MissingHeader)));
    assert_eq!(
        plan("x\n|---|---|---|---|---|\nnot a row\n"),
        Err(BuildError::Template(TemplateError::MalformedRow { position: 24 }))
    );
    assert_eq!(
        plan("text\n```rust\nnever closed\n"),
        Err(BuildError::Template(TemplateError::UnterminatedFence { position: 5 }))
    );
}

#[test]
fn the_number_of_outputs_must_be_that_of_the_examples() {
    let source = template("| a::f | `f` | `\"x\"` | | one |\n| a::g |  |  | | none |\n");
    assert_eq!(compile(&source, &[]), Err(BuildError::OutputCount { found: 0 }));
    assert_eq!(
        compile(&source, &["1".to_string(), "2".to_string()]),
        Err(BuildError::OutputCount { found: 2 })
    );
    assert!(compile(&source, &["1".to_string()]).is_ok());
}

#[test]
fn text_outside_the_rows_is_kept_as_it_is() {
    let source = "Intro with `code` and {braces}\n\n| h |\n|---|---|---|---|---|\n| a::f |  |  |  | d |\n\n## Next\ntrailing | text";
    let document = compile(source, &[]).unwrap();
    assert_eq!(
        document,
        "Intro with `code` and {braces}\n\n| h |\n|---|---|---|---|---|\n| a::[f](https://docs.rs/nom/latest/nom/a/fn.f.html) |  |  |  | d |\n\n## Next\ntrailing | text"
    );
}

#[test]
fn compiling_twice_gives_the_same_document() {
    let source = template("| a::f | `f` | `\"x\"` | | one |\n| b::G |  |  | | none |\n");
    let outputs = vec!["Result: `1`<br>No remainder".to_string()];
    let first = compile(&source, &outputs);
    let second = compile(&source, &outputs);
    assert!(first.is_ok());
    assert_eq!(first, second);
}

#[test]
fn code_blocks_are_rewritten_before_the_tables_are_read() {
    let source = format!("```ignore\nlet x = 1;\n```\n{HEADER}| a::f |  |  |  | d |\n");
    let made = plan(&source).unwrap();
    assert_eq!(made.tables[0].preamble, format!("```rust\nlet x = 1;\n\n```\n{HEADER}"));
    assert!(made.examples.is_empty());
}

#[test]
fn resolve_tables_leaves_given_references_alone() {
    let source = template("| a::f |  |  |  | one |\n| b::g |  |  |  | two |\n");
    let made = plan(&source).unwrap();
    let again = resolve_tables(&made.tables).unwrap();
    assert_eq!(again, made.tables);
    assert_eq!(again[0].rows[1].references[0].name, "g");
}

#[test]
fn render_document_writes_rows_without_examples_with_empty_cells() {
    let source = template("| a::f |  |  |  | one |\n");
    let made = plan(&source).unwrap();
    let document = render_document(&made.tables, &[], &made.remainder).unwrap();
    assert!(document.contains("| a::[f](https://docs.rs/nom/latest/nom/a/fn.f.html) |  |  |  | one |\n"));
    assert!(document.ends_with("\nThe end.\n"));
}

#[test]
fn generated_program_has_a_block_for_each_row() {
    let source = format!("{HEADER}| bytes::complete::tag | `use nom::bytes::complete::tag; tag(\"a\")` | `\"ab\"` | | t |\n| a::g |  |  |  | static \"row\" |\nrest\n");
    let made = plan(&source).unwrap();
    let program = generate_source(&made.imports, &made.tables, &made.remainder);
    let expected = "#[allow(unused_imports)] use nom::a::g;\n#[allow(unused_imports)] use nom::bytes::complete::tag;\nuse std::io::Write;\nuse super::{IResult, Result, format_iresult, my_alpha1, number, str};\n\n#[allow(clippy::too_many_lines)]\npub fn generate() -> Result<Vec<u8>> {\nlet mut markdown = Vec::new();\nwrite!(markdown, \"{}\", \"| combinator | usage | input | output | description |\\n|---|---|---|---|---|\\n\")?;\n{\n    use nom::bytes::complete::tag; \n    #[allow(unused_imports)] use nom::bytes::complete::tag;\n    let input = \"ab\";\n    let output: IResult<_, _> = tag(\"a\")(input);\n    let output = format_iresult(&input, &output);\n    writeln!(markdown, \"| {urlstrings} | {usage} | {input} | {output} | {desc} |\", urlstrings = \"bytes::complete::[tag](https://docs.rs/nom/latest/nom/bytes/complete/fn.tag.html)\", usage = \"`tag(\\\"a\\\")`\", input = \"`\\\"ab\\\"`\", desc = \"t\")?;\n}\n{\n    writeln!(markdown, \"{}\", \"| a::[g](https://docs.rs/nom/latest/nom/a/fn.g.html) |  |  |  | static \\\"row\\\" |\")?;\n}\nwrite!(markdown, \"{}\", \"rest\\n\")?;\nOk(markdown)\n}\n";
    assert_eq!(program, expected);
}

#[test]
fn the_rows_of_a_plan_are_complete() {
    let source = template("| a::f | `f` | `\"x\"` | | one |\n|  |  |  | | none |\n");
    let made = plan(&source).unwrap();
    assert!(tables_complete(&made.tables));
    assert!(made.tables[0].rows.iter().all(row_complete));
    let text = chars_of(&source);
    let (read, _) = parse_tables(&text, 0);
    assert!(!tables_complete(&read));
    assert!(row_complete(&read[0].rows[0]));
    assert!(!row_complete(&read[0].rows[1]));
    let half = chars_of(&template("| a::f | `f` |  | | half |\n"));
    let (read, _) = parse_tables(&half, 0);
    assert!(!tables_complete(&read));
    assert!(!row_complete(&read[0].rows[0]));
    assert!(tables_complete(&[]));
}
