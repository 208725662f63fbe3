use nom_cheatsheet::number::{number, Number};

#[test]
fn a_text_that_starts_with_digits() {
    assert_eq!(number("21c"), Number::Found { value: 21, consumed: 2 });
    assert_eq!(number("416"), Number::Found { value: 416, consumed: 3 });
    assert_eq!(number("007 "), Number::Found { value: 7, consumed: 3 });
    assert_eq!(number("0"), Number::Found { value: 0, consumed: 1 });
    assert_eq!(number("12\u{661}"), Number::Found { value: 12, consumed: 2 });
}

#[test]
fn a_text_that_starts_with_no_digit() {
    assert_eq!(number(""), Number::Missing);
    assert_eq!(number("c1"), Number::Missing);
    assert_eq!(number("+1"), Number::Missing);
    assert_eq!(number(" 1"), Number::Missing);
    assert_eq!(number("\u{661}"), Number::Missing);
}

#[test]
fn the_largest_number_and_beyond() {
    let largest = usize::MAX.to_string();
    assert_eq!(
        number(&largest),
        Number::Found { value: usize::MAX, consumed: largest.len() }
    );
    assert_eq!(number(&format!("{largest}0")), Number::TooLarge);
    assert_eq!(number("99999999999999999999999999x"), Number::TooLarge);
    let next = format!("{}{}", &largest[..largest.len() - 1], 6);
    assert_eq!(number(&next), Number::TooLarge);
}
