use nom_cheatsheet::codespan::{format_code, parse_code_span};
use nom_cheatsheet::table::{
    parse_combinator, parse_imports_short, parse_preamble_and_combinators, parse_rows,
    parse_tables, sep,
};
use nom_cheatsheet::text::{chars_of, string_of};

fn span(text: &str) -> Option<(String, usize)> {
    let chars = chars_of(text);
    parse_code_span(&chars, 0).map(|(code, end)| (string_of(&code), end))
}

#[test]
fn code_span_with_one_back_quote() {
    assert_eq!(span("`abc` rest"), Some(("abc".to_string(), 5)));
}

#[test]
fn code_span_keeps_shorter_runs_inside() {
    assert_eq!(span("`` a`b `` |"), Some(("a`b".to_string(), 9)));
}

#[test]
fn code_span_skips_longer_runs() {
    assert_eq!(span("`a``b` |"), Some(("a``b".to_string(), 6)));
}

#[test]
fn code_span_strips_one_space_on_either_side_only_if_both_are_there() {
    assert_eq!(span("`  a  `"), Some((" a ".to_string(), 7)));
    assert_eq!(span("` a`"), Some((" a".to_string(), 4)));
    assert_eq!(span("`a `"), Some(("a ".to_string(), 4)));
    assert_eq!(span("`` ` ``"), Some(("`".to_string(), 7)));
    assert_eq!(span("` `"), Some((" ".to_string(), 3)));
}

#[test]
fn code_span_needs_a_back_quote_and_a_closing_fence() {
    assert_eq!(span("abc"), None);
    assert_eq!(span("`abc"), None);
    assert_eq!(span("``abc`"), None);
    assert_eq!(span("``"), None);
    assert_eq!(span(""), None);
}

#[test]
fn code_span_reads_back_what_format_code_wrote() {
    for text in ["abc", "`abc`", " `abc` ", " x ", "``", "a`b``c", " ", "`", "a b", "x```"] {
        let written = format_code(&chars_of(text));
        let read = parse_code_span(&written, 0).map(|(code, end)| (string_of(&code), end));
        assert_eq!(read, Some((text.to_string(), written.len())));
    }
}

#[test]
fn sep_takes_blanks_one_bar_and_blanks() {
    assert_eq!(sep(&chars_of(" \t| \tx"), 0), Some(5));
    assert_eq!(sep(&chars_of("|x"), 0), Some(1));
    assert_eq!(sep(&chars_of("||"), 0), Some(1));
    assert_eq!(sep(&chars_of(" x|"), 0), None);
    assert_eq!(sep(&chars_of("  "), 0), None);
    assert_eq!(sep(&chars_of("ab | c"), 2), Some(5));
}

#[test]
fn imports_at_the_start_of_a_usage() {
    assert_eq!(parse_imports_short(&chars_of("use a::b; use c::d;  f(x)")), 21);
    assert_eq!(parse_imports_short(&chars_of("f(x)")), 0);
    assert_eq!(parse_imports_short(&chars_of("use a::b f(x)")), 0);
    assert_eq!(parse_imports_short(&chars_of("use a;use b")), 6);
    assert_eq!(parse_imports_short(&chars_of("")), 0);
}

#[test]
fn a_row_with_an_example() {
    let text = chars_of("| bytes::complete::tag<br>character::complete::Char | `use x::y; tag(\"a\")` | `\"ab\"` |  | Matches  a tag  |\nnext");
    let (row, end) = parse_combinator(&text, 0).unwrap();
    assert_eq!(end, text.len() - 4);
    assert_eq!(row.references.len(), 2);
    assert_eq!(row.references[0].module, "bytes::complete");
    assert_eq!(row.references[0].name, "tag");
    assert_eq!(
        row.references[0].docsurl,
        "https://docs.rs/nom/latest/nom/bytes/complete/fn.tag.html"
    );
    assert_eq!(row.references[1].module, "character::complete");
    assert_eq!(row.references[1].name, "Char");
    assert_eq!(
        row.references[1].docsurl,
        "https://docs.rs/nom/latest/nom/character/complete/enum.Char.html"
    );
    assert_eq!(row.imports, "use x::y; ");
    assert_eq!(row.usage, Some("tag(\"a\")".to_string()));
    assert_eq!(row.input, Some("\"ab\"".to_string()));
    assert_eq!(row.description, "Matches  a tag");
}

#[test]
fn a_row_without_an_example_and_with_a_carriage_return() {
    let text = chars_of("|  |  |  |  | only text |\r\n");
    let (row, end) = parse_combinator(&text, 0).unwrap();
    assert_eq!(end, text.len());
    assert!(row.references.is_empty());
    assert_eq!(row.imports, "");
    assert_eq!(row.usage, None);
    assert_eq!(row.input, None);
    assert_eq!(row.description, "only text");
}

#[test]
fn a_usage_may_hold_bars_and_back_quotes() {
    let text = chars_of("| a::f | `` alt((tag(\"`\"), tag(\"\\|\"))) `` | `\"|\"` || d|\n");
    let (row, _) = parse_combinator(&text, 0).unwrap();
    assert_eq!(row.usage, Some("alt((tag(\"`\"), tag(\"\\|\")))".to_string()));
    assert_eq!(row.input, Some("\"|\"".to_string()));
    assert_eq!(row.description, "d");
}

#[test]
fn text_that_is_no_row() {
    for text in [
        "",
        "no bar",
        "| a | `b` | `c` | | d |",
        "| a | `b` | `c` | text | d |\n",
        "| a | `b | `c` | | d |\n",
        "| a | b | `c` | | d |\n",
        "| a | `b` | `c` | | d \n",
        "| a | `b` | `c` | | d | x\n",
        "| a | `b` | `c` | | d |\r",
    ] {
        assert_eq!(parse_combinator(&chars_of(text), 0), None, "{text:?}");
    }
}

#[test]
fn rows_are_read_until_one_does_not_match() {
    let text = chars_of("| a::f |  |  |  | one |\n| b::g |  |  |  | two |\n\n| c::h |  |  |  | three |\n");
    let (rows, end) = parse_rows(&text, 0);
    assert_eq!(rows.len(), 2);
    assert_eq!(rows[1].description, "two");
    assert_eq!(end, 48);
    let (none, same) = parse_rows(&text, 48);
    assert!(none.is_empty());
    assert_eq!(same, 48);
}

#[test]
fn a_table_is_a_preamble_and_rows() {
    let text = chars_of("intro\n| h |\n|---|---|---|---|---|\n| a::f |  |  |  | one |\nrest");
    let (table, end) = parse_preamble_and_combinators(&text, 0).unwrap();
    assert_eq!(table.preamble, "intro\n| h |\n|---|---|---|---|---|\n");
    assert_eq!(table.rows.len(), 1);
    assert_eq!(end, text.len() - 4);
    assert_eq!(parse_preamble_and_combinators(&text, end), None);
}

#[test]
fn a_header_needs_a_line_ending_and_a_row() {
    assert_eq!(parse_preamble_and_combinators(&chars_of("|---|---|---|---|---|"), 0), None);
    assert_eq!(parse_preamble_and_combinators(&chars_of("|---|---|---|---|---|\n"), 0), None);
    assert_eq!(
        parse_preamble_and_combinators(
            &chars_of("|---|---|---|---|---|---|\n| a::f |  |  |  | one |\n"),
            0
        ),
        None
    );
    assert_eq!(parse_preamble_and_combinators(&chars_of("|---|---|---|---|---|\nx\n"), 0), None);
}

#[test]
fn tables_follow_one_another() {
    let text = chars_of("|---|---|---|---|---|\n| a::f |  |  |  | one |\nmid\n|---|---|---|---|---|\r\n| b::g |  |  |  | two |\nend\n|---|---|---|---|---|\n");
    let (tables, rest) = parse_tables(&text, 0);
    assert_eq!(tables.len(), 2);
    assert_eq!(tables[1].preamble, "mid\n|---|---|---|---|---|\r\n");
    assert_eq!(string_of(&text[rest..]), "end\n|---|---|---|---|---|\n");
}
