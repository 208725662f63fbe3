use nom_cheatsheet::codespan::markdown_format_code;
use nom_cheatsheet::outcome::{
    byte_list_of, describe_outcome, format_iresult, format_located, format_remainder,
    offset_of_location, offset_of_subslice, offset_within, FailureKind, FormatError, Fragment,
    Outcome,
};
use nom_cheatsheet::text::string_of;

#[test]
fn test_subslice_offset() {
    let string = "a\nb\nc";
    let lines: Vec<&str> = string.lines().collect();
    let whole = Fragment::Text(string);
    assert_eq!(whole.subslice_offset_bytes(&Fragment::Text(lines[0])), Some(0));
    assert_eq!(whole.subslice_offset_bytes(&Fragment::Text(lines[1])), Some(2));
    assert_eq!(whole.subslice_offset_bytes(&Fragment::Text(lines[2])), Some(4));
    assert_eq!(whole.subslice_offset_bytes(&Fragment::Text("other")), None);
    assert_eq!(whole.subslice_offset_bytes(&Fragment::Text("a")), None);

    let string = "foobar";
    let str1 = &string[0..3];
    let str2 = &string[3..];
    let str3 = &string[3..3];
    let str4 = &string[2..3];
    let first = Fragment::Text(str1);
    assert_eq!(first.subslice_offset_bytes(&Fragment::Text(str2)), None);
    assert_eq!(first.subslice_offset_bytes(&Fragment::Text(str3)), None);
    assert_eq!(first.subslice_offset_bytes(&Fragment::Text(str4)), Some(2));
}

#[test]
fn test_format_remainder() {
    let input = "abc";
    assert_eq!(format_remainder(&Fragment::Text(input)), "`\"abc\"`");
    let input = &[0_u8, 1, 2, 3][..];
    assert_eq!(format_remainder(&Fragment::Bytes(input)), "`&[0x00, 0x01, 0x02, 0x03]`");
}

#[test]
fn subslice_offset_in_bytes_admits_the_end() {
    let bytes = [1_u8, 2, 3, 4];
    let whole = Fragment::Bytes(&bytes[..]);
    assert_eq!(whole.subslice_offset_bytes(&Fragment::Bytes(&bytes[4..])), Some(4));
    assert_eq!(whole.subslice_offset_bytes(&Fragment::Bytes(&bytes[1..3])), Some(1));
    let part = Fragment::Bytes(&bytes[1..3]);
    assert_eq!(part.subslice_offset_bytes(&Fragment::Bytes(&bytes[0..2])), None);
    assert_eq!(part.subslice_offset_bytes(&Fragment::Bytes(&bytes[2..4])), None);
}

#[test]
fn offset_within_by_addresses() {
    assert_eq!(offset_within(100, 10, 104, 3, true), Some(4));
    assert_eq!(offset_within(100, 10, 110, 0, true), None);
    assert_eq!(offset_within(100, 10, 110, 0, false), Some(10));
    assert_eq!(offset_within(100, 10, 99, 3, false), None);
    assert_eq!(offset_within(100, 10, 108, 3, false), None);
    assert_eq!(offset_within(usize::MAX, 1, usize::MAX, 0, false), None);
    assert_eq!(offset_within(5, 1, usize::MAX, 1, false), None);
    assert_eq!(offset_within(0, 0, 0, 0, true), None);
    assert_eq!(offset_within(0, 0, 0, 0, false), Some(0));
}

#[test]
fn format_remainder_of_empty_bytes_and_text_with_spaces() {
    assert_eq!(format_remainder(&Fragment::Bytes(&[][..])), "`&[]`");
    assert_eq!(format_remainder(&Fragment::Bytes(&[255_u8][..])), "`&[0xff]`");
    assert_eq!(format_remainder(&Fragment::Text("a b")), "`\"a b\"`");
    assert_eq!(format_remainder(&Fragment::Text("a,b")), "`\"a,b\"`");
    assert_eq!(format_remainder(&Fragment::Text("[1, 2]\n")), "`\"[1, 2]\\n\"`");
    assert_eq!(format_remainder(&Fragment::Text("`")), "``\"`\"``");
}

#[test]
fn offset_accuracy() {
    let input = "abcd";
    let outcome = Outcome::Error {
        kind: FailureKind::Error,
        location: Fragment::Text(&input[2..]),
        code: "Tag".to_string(),
    };
    assert_eq!(
        format_iresult(&Fragment::Text(input), &outcome),
        Ok("Error<br>Byte offset: 2<br>Code: Tag".to_string())
    );
}

#[test]
fn failure_outside_the_input_is_refused() {
    let input = "abcd";
    let elsewhere = String::from("zz");
    let outcome = Outcome::Error {
        kind: FailureKind::Failure,
        location: Fragment::Text(elsewhere.as_str()),
        code: "Eof".to_string(),
    };
    assert_eq!(
        format_iresult(&Fragment::Text(input), &outcome),
        Err(FormatError::LocationOutsideInput)
    );
    assert_eq!(describe_outcome(&outcome, None), Err(FormatError::LocationOutsideInput));
    assert_eq!(
        describe_outcome(&outcome, Some(12)),
        Ok("Failure<br>Byte offset: 12<br>Code: Eof".to_string())
    );
}

#[test]
fn success_with_and_without_remainder() {
    let with = Outcome::Success { value: "\"a\"".to_string(), remainder: Fragment::Text("b") };
    assert_eq!(
        format_iresult(&Fragment::Text("ab"), &with),
        Ok("Result: `\"a\"`<br>Remainder: `\"b\"`".to_string())
    );
    let without = Outcome::Success { value: "12".to_string(), remainder: Fragment::Text("") };
    assert_eq!(
        format_iresult(&Fragment::Text("12"), &without),
        Ok("Result: `12`<br>No remainder".to_string())
    );
    let bytes = Outcome::Success {
        value: "[1]".to_string(),
        remainder: Fragment::Bytes(&[10_u8, 11][..]),
    };
    assert_eq!(
        format_iresult(&Fragment::Bytes(&[1_u8, 10, 11][..]), &bytes),
        Ok("Result: `[1]`<br>Remainder: `&[0x0a, 0x0b]`".to_string())
    );
}

#[test]
fn incomplete_with_and_without_a_count() {
    let counted = Outcome::Incomplete { needed: Some(3) };
    assert_eq!(
        format_iresult(&Fragment::Text("x"), &counted),
        Ok("Incomplete<br>Needed: 3 items".to_string())
    );
    let large = Outcome::Incomplete { needed: Some(1205) };
    assert_eq!(
        format_iresult(&Fragment::Text("x"), &large),
        Ok("Incomplete<br>Needed: 1205 items".to_string())
    );
    let zero = Outcome::Incomplete { needed: Some(0) };
    assert_eq!(
        format_iresult(&Fragment::Text("x"), &zero),
        Ok("Incomplete<br>Needed: 0 items".to_string())
    );
    let unknown = Outcome::Incomplete { needed: None };
    assert_eq!(
        format_iresult(&Fragment::Text("x"), &unknown),
        Ok("Incomplete<br>Needed: unknown".to_string())
    );
}

fn tidied_debug<T: std::fmt::Debug + ?Sized>(value: &T) -> String {
    markdown_format_code(&format!("{value:#04x?}"))
        .replace('\n', "")
        .replace(' ', "")
        .replace(",]", "]")
        .replace(',', ", ")
        .replace("[", "&[")
}

#[test]
fn bytes_are_shown_as_their_tidied_debug_notation() {
    let all: Vec<u8> = (0..=255).collect();
    for bytes in [&[][..], &[0][..], &[9, 10, 15, 16, 255][..], &all[..]] {
        assert_eq!(format_remainder(&Fragment::Bytes(bytes)), tidied_debug(bytes));
    }
    assert_eq!(string_of(&byte_list_of(&[1, 171])), "&[0x01, 0xab]");
}

#[test]
fn texts_are_shown_in_their_debug_notation() {
    for text in ["abc", "a b", "", "x\ny", "a,b]", "[1, 2]", "`", "tab\there", "é \"q\""] {
        assert_eq!(
            format_remainder(&Fragment::Text(text)),
            markdown_format_code(&format!("{text:?}"))
        );
    }
}

#[test]
fn a_failure_at_the_end_of_the_input() {
    let input = "ab";
    let outcome = Outcome::Error {
        kind: FailureKind::Error,
        location: Fragment::Text(&input[2..]),
        code: "Eof".to_string(),
    };
    assert_eq!(
        format_iresult(&Fragment::Text(input), &outcome),
        Ok("Error<br>Byte offset: 2<br>Code: Eof".to_string())
    );
    let bytes = [7_u8, 8, 9];
    let outcome = Outcome::Error {
        kind: FailureKind::Failure,
        location: Fragment::Bytes(&bytes[3..]),
        code: "Eof".to_string(),
    };
    assert_eq!(
        format_iresult(&Fragment::Bytes(&bytes[..]), &outcome),
        Ok("Failure<br>Byte offset: 3<br>Code: Eof".to_string())
    );
    let empty = "";
    let outcome = Outcome::Error {
        kind: FailureKind::Error,
        location: Fragment::Text(empty),
        code: "Eof".to_string(),
    };
    assert_eq!(
        format_iresult(&Fragment::Text(empty), &outcome),
        Ok("Error<br>Byte offset: 0<br>Code: Eof".to_string())
    );
}

#[test]
fn offsets_by_given_addresses() {
    let text = Fragment::Text("ab");
    let bytes = Fragment::Bytes(b"ab");
    let nothing = Fragment::Text("");
    let one = Fragment::Bytes(b"b");
    assert_eq!(offset_of_subslice(&text, 100, &nothing, 102), None);
    assert_eq!(offset_of_subslice(&bytes, 100, &nothing, 102), Some(2));
    assert_eq!(offset_of_subslice(&text, 100, &one, 101), Some(1));
    assert_eq!(offset_of_subslice(&bytes, 100, &one, 101), Some(1));
    assert_eq!(offset_of_subslice(&text, 100, &one, 102), None);
    assert_eq!(offset_of_subslice(&bytes, 100, &one, 99), None);
    assert_eq!(offset_of_location(&text, 100, &nothing, 102), Some(2));
    assert_eq!(offset_of_location(&bytes, 100, &nothing, 102), Some(2));
    assert_eq!(offset_of_location(&text, 100, &one, 101), Some(1));
    assert_eq!(offset_of_location(&text, 100, &one, 102), None);
    assert_eq!(offset_of_location(&text, 100, &nothing, 103), None);
    assert_eq!(offset_of_location(&text, 100, &nothing, 99), None);
}

#[test]
fn formatting_by_given_addresses() {
    let input = Fragment::Text("ab");
    let at_end = Outcome::Error {
        kind: FailureKind::Error,
        location: Fragment::Text(""),
        code: "Eof".to_string(),
    };
    assert_eq!(
        format_located(&input, 1000, &at_end, 1002),
        Ok("Error<br>Byte offset: 2<br>Code: Eof".to_string())
    );
    assert_eq!(
        format_located(&input, 1000, &at_end, 1000),
        Ok("Error<br>Byte offset: 0<br>Code: Eof".to_string())
    );
    assert_eq!(format_located(&input, 1000, &at_end, 1003), Err(FormatError::LocationOutsideInput));
    assert_eq!(format_located(&input, 1000, &at_end, 999), Err(FormatError::LocationOutsideInput));
    let done = Outcome::Success { value: "1".to_string(), remainder: Fragment::Text("") };
    assert_eq!(format_located(&input, 5, &done, 900), Ok("Result: `1`<br>No remainder".to_string()));
}
