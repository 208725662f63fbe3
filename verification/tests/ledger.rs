use nom_cheatsheet::ledger::{lex_le_chars, Ledger};
use nom_cheatsheet::text::chars_of;

#[test]
fn an_empty_ledger_has_no_imports() {
    assert!(Ledger::new().finalize().is_empty());
}

#[test]
fn statements_come_out_sorted() {
    let mut ledger = Ledger::new();
    ledger.record("tag", "use nom::bytes::complete::tag;");
    ledger.record("alt", "use nom::branch::alt;");
    ledger.record("pair", "use nom::sequence::pair;");
    ledger.record("Alt", "use nom::Alt;");
    assert_eq!(
        ledger.finalize(),
        vec![
            "use nom::Alt;",
            "use nom::branch::alt;",
            "use nom::bytes::complete::tag;",
            "use nom::sequence::pair;",
        ]
    );
}

#[test]
fn the_same_statement_twice_is_no_conflict() {
    let mut ledger = Ledger::new();
    ledger.record("tag", "use nom::bytes::complete::tag;");
    ledger.record("tag", "use nom::bytes::complete::tag;");
    assert_eq!(ledger.finalize(), vec!["use nom::bytes::complete::tag;"]);
}

#[test]
fn two_statements_for_one_name_leave_the_name_out() {
    let mut ledger = Ledger::new();
    ledger.record("i8", "use nom::character::complete::i8;");
    ledger.record("tag", "use nom::bytes::complete::tag;");
    ledger.record("i8", "use nom::number::complete::i8;");
    assert_eq!(ledger.finalize(), vec!["use nom::bytes::complete::tag;"]);
    ledger.record("i8", "use nom::number::complete::i8;");
    assert_eq!(ledger.finalize(), vec!["use nom::bytes::complete::tag;"]);
    ledger.record("i8", "use nom::character::complete::i8;");
    ledger.record("alt", "use nom::branch::alt;");
    assert_eq!(
        ledger.finalize(),
        vec!["use nom::branch::alt;", "use nom::bytes::complete::tag;"]
    );
}

#[test]
fn equal_statements_of_two_names_are_both_kept() {
    let mut ledger = Ledger::new();
    ledger.record("a", "same");
    ledger.record("b", "same");
    assert_eq!(ledger.finalize(), vec!["same", "same"]);
}

#[test]
fn the_order_is_that_of_strings() {
    let words = ["", "a", "ab", "b", "B", "é", "z", "aé", "a b", "a\u{10000}", "a\u{ffff}"];
    for a in words {
        for b in words {
            assert_eq!(lex_le_chars(&chars_of(a), &chars_of(b)), a <= b, "{a:?} {b:?}");
        }
    }
}
