use nom_cheatsheet::snippet::{
    invocation_of, normalize_input, push_string_literal, row_block_of, row_line_of,
};
use nom_cheatsheet::table::parse_combinator;
use nom_cheatsheet::text::{chars_of, string_of};

fn normalized(input: &str) -> String {
    string_of(&normalize_input(&chars_of(input)))
}

fn invocation(usage: &str) -> String {
    string_of(&invocation_of(&chars_of(usage)))
}

#[test]
fn inputs_that_are_made_slices() {
    assert_eq!(normalized("&[1, 2]"), "&[1, 2][..]");
    assert_eq!(normalized("b\"abc\""), "b\"abc\" as &[u8]");
    assert_eq!(normalized("br\"abc\""), "br\"abc\" as &[u8]");
    assert_eq!(normalized("br#\"abc\"#"), "br#\"abc\"# as &[u8]");
    assert_eq!(normalized("\"abc\""), "\"abc\"");
    assert_eq!(normalized("& [1]"), "& [1]");
    assert_eq!(normalized("bytes"), "bytes");
    assert_eq!(normalized(""), "");
}

#[test]
fn the_two_shapes_of_a_call() {
    assert_eq!(invocation("tag(\"a\")"), "let output: IResult<_, _> = tag(\"a\")(input);");
    assert_eq!(
        invocation("let output: IResult<&str, &str> = alpha1"),
        "let output: IResult<&str, &str> = alpha1(input);"
    );
    assert_eq!(
        invocation("map(x, \\|s\\| s.len())"),
        "let output: IResult<_, _> = map(x, |s| s.len())(input);"
    );
}

#[test]
fn string_literals() {
    let mut out = chars_of("x = ");
    push_string_literal(&mut out, &chars_of("a\"b\\c\nd\re\tf{é}"));
    assert_eq!(string_of(&out), "x = \"a\\\"b\\\\c\\nd\\re\\tf{é}\"");
}

#[test]
fn the_line_of_a_row() {
    let text = chars_of("| a::f | `f` | `\"x\"` |  | desc |\n");
    let (row, _) = parse_combinator(&text, 0).unwrap();
    assert_eq!(
        string_of(&row_line_of(&row, &chars_of("OUT"))),
        "| a::[f](https://docs.rs/nom/latest/nom/a/fn.f.html) | `f` | `\"x\"` | OUT | desc |"
    );
    let text = chars_of("| a::f |  |  |  | desc |\n");
    let (row, _) = parse_combinator(&text, 0).unwrap();
    assert_eq!(
        string_of(&row_line_of(&row, &chars_of("ignored"))),
        "| a::[f](https://docs.rs/nom/latest/nom/a/fn.f.html) |  |  |  | desc |"
    );
}

#[test]
fn the_block_of_a_row_keeps_its_own_imports() {
    let text = chars_of("| number::complete::i8<br>bits::complete::take | `i8` | `&[1]` |  | d |\n");
    let (row, _) = parse_combinator(&text, 0).unwrap();
    assert_eq!(
        string_of(&row_block_of(&row)),
        "{\n    #[allow(unused_imports)] use nom::number::complete::i8;\n    let input = &[1][..];\n    let output: IResult<_, _> = i8(input);\n    let output = format_iresult(&input, &output);\n    writeln!(markdown, \"| {urlstrings} | {usage} | {input} | {output} | {desc} |\", urlstrings = \"number::complete::[i8](https://docs.rs/nom/latest/nom/number/complete/fn.i8.html)<br>bits::complete::[take](https://docs.rs/nom/latest/nom/bits/complete/fn.take.html)\", usage = \"`i8`\", input = \"`&[1]`\", desc = \"d\")?;\n}\n"
    );
}
