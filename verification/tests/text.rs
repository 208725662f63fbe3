use nom_cheatsheet::codespan::{longest_run_of, needs_padding_of};
use nom_cheatsheet::table::parse_combinator;
use nom_cheatsheet::text::{
    chars_of, find, line_end_from, line_ending_from, push_all, push_decimal, push_str,
    replace_chars, run_length_from, same_text, skip_blanks_from, split_chars, starts_with_at,
    string_of, trim_end_len,
};

fn replaced(s: &str, pat: &str, with: &str) -> String {
    string_of(&replace_chars(&chars_of(s), &chars_of(pat), &chars_of(with)))
}

fn split(s: &str, sep: &str) -> Vec<String> {
    split_chars(&chars_of(s), &chars_of(sep)).iter().map(|p| string_of(p)).collect()
}

#[test]
fn strings_and_characters() {
    assert_eq!(chars_of("aé\u{1F600}"), vec!['a', 'é', '\u{1F600}']);
    assert_eq!(string_of(&['a', 'é', '\u{1F600}']), "aé\u{1F600}");
    assert_eq!(chars_of(""), Vec::<char>::new());
}

#[test]
fn finding_a_pattern() {
    let s = chars_of("abcabc");
    assert_eq!(find(&s, &chars_of("bc"), 0), Some(1));
    assert_eq!(find(&s, &chars_of("bc"), 2), Some(4));
    assert_eq!(find(&s, &chars_of("bc"), 5), None);
    assert_eq!(find(&s, &chars_of("x"), 0), None);
    assert_eq!(find(&s, &chars_of(""), 6), Some(6));
    assert_eq!(find(&s, &chars_of(""), 7), None);
    assert_eq!(find(&s, &chars_of("abcabcd"), 0), None);
    assert!(starts_with_at(&s, &chars_of("cab"), 2));
    assert!(!starts_with_at(&s, &chars_of("cab"), 5));
    assert!(!starts_with_at(&s, &chars_of("a"), 9));
    assert!(same_text(&s, &chars_of("abcabc")));
    assert!(!same_text(&s, &chars_of("abcab")));
    assert!(!same_text(&s, &chars_of("abcabd")));
}

#[test]
fn blanks_lines_and_runs() {
    let s = chars_of(" \t x\r\ny\rz\n");
    assert_eq!(skip_blanks_from(&s, 0), 3);
    assert_eq!(skip_blanks_from(&s, 3), 3);
    assert_eq!(skip_blanks_from(&s, 10), 10);
    assert_eq!(line_end_from(&s, 0), 4);
    assert_eq!(line_end_from(&s, 6), 7);
    assert_eq!(line_ending_from(&s, 4), Some(6));
    assert_eq!(line_ending_from(&s, 7), None);
    assert_eq!(line_ending_from(&s, 9), Some(10));
    assert_eq!(line_ending_from(&s, 10), None);
    assert_eq!(line_ending_from(&s, 3), None);
    let t = chars_of("a``b```");
    assert_eq!(run_length_from(&t, '`', 1), 2);
    assert_eq!(run_length_from(&t, '`', 0), 0);
    assert_eq!(run_length_from(&t, '`', 4), 3);
    assert_eq!(run_length_from(&t, '`', 7), 0);
    assert_eq!(longest_run_of(&t, '`'), 3);
    assert_eq!(longest_run_of(&chars_of("abc"), '`'), 0);
    assert_eq!(longest_run_of(&chars_of(""), '`'), 0);
    assert!(needs_padding_of(&chars_of(" a ")));
    assert!(needs_padding_of(&chars_of(" ")));
    assert!(needs_padding_of(&chars_of("a`")));
    assert!(!needs_padding_of(&chars_of(" a")));
    assert!(!needs_padding_of(&chars_of("")));
}

#[test]
fn trimming_white_space_at_the_end() {
    let row = chars_of("| a::f \t\u{a0}|  |  |  | ab \t\u{a0}\u{2003} |\n");
    let (row, _) = parse_combinator(&row, 0).unwrap();
    assert_eq!(row.references[0].name, "f");
    assert_eq!(row.description, "ab");
    let row = chars_of("|  a::f|  |  |  | \u{a0}x\u{200b} |\n");
    let (row, _) = parse_combinator(&row, 0).unwrap();
    assert_eq!(row.description, "\u{a0}x\u{200b}");
}

#[test]
fn white_space_is_what_the_standard_library_takes_for_it() {
    let mut count = 0;
    for code in 0..=0x10ffff_u32 {
        if let Some(c) = char::from_u32(code) {
            let kept = trim_end_len(&['x', c]);
            assert_eq!(kept, if c.is_whitespace() { 1 } else { 2 }, "{code:x}");
            if kept == 1 {
                count += 1;
            }
        }
    }
    assert_eq!(count, 25);
    assert_eq!(trim_end_len(&chars_of("ab \t\u{a0}\n  ")), 2);
    assert_eq!(trim_end_len(&chars_of(" \u{3000}")), 0);
    assert_eq!(trim_end_len(&chars_of("")), 0);
    assert_eq!(trim_end_len(&chars_of(" a")), 2);
}

#[test]
fn splitting_and_replacing() {
    assert_eq!(split("a::b::c", "::"), vec!["a", "b", "c"]);
    assert_eq!(split("a:::b", "::"), vec!["a", ":b"]);
    assert_eq!(split("::a::", "::"), vec!["", "a", ""]);
    assert_eq!(split("", "::"), vec![""]);
    assert_eq!(split("abc", "::"), vec!["abc"]);
    assert_eq!(replaced("a,b,c", ",", ", "), "a, b, c");
    assert_eq!(replaced("aaa", "aa", "b"), "ba");
    assert_eq!(replaced("a b c", " ", ""), "abc");
    assert_eq!(replaced("", "x", "y"), "");
    assert_eq!(replaced("xyz", "q", "y"), "xyz");
}

#[test]
fn decimal_digits() {
    for (n, text) in [(0_usize, "0"), (9, "9"), (10, "10"), (1205, "1205"), (usize::MAX, "")] {
        let mut out = chars_of("n=");
        push_decimal(&mut out, n);
        let expected = if text.is_empty() { format!("n={}", usize::MAX) } else { format!("n={text}") };
        assert_eq!(string_of(&out), expected);
    }
    let mut out = Vec::new();
    push_str(&mut out, "ab");
    push_all(&mut out, &['c']);
    assert_eq!(out, vec!['a', 'b', 'c']);
}
