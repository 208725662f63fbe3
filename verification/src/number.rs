//! A parser that the examples of the cheat sheet use: the number that a text
//! starts with.

use vstd::prelude::*;
use crate::text::{chars_of, decimal, digit_char};

verus! {

/// One of the ten ASCII digits.
pub open spec fn is_digit(c: char) -> bool {
    '0' <= c <= '9'
}

/// The number of digits that `s` holds from `pos` on before anything else.
pub open spec fn digit_run(s: Seq<char>, pos: int) -> nat
    decreases s.len() - pos,
{
    if 0 <= pos < s.len() && is_digit(s[pos]) {
        1 + digit_run(s, pos + 1)
    } else {
        0
    }
}

/// What a digit counts for.
pub open spec fn digit_value(c: char) -> nat {
    (c as int - '0' as int) as nat
}

/// The number that the digits denote in decimal notation.
pub open spec fn decimal_value(digits: Seq<char>) -> nat
    decreases digits.len(),
{
    if digits.len() == 0 {
        0
    } else {
        10 * decimal_value(digits.drop_last()) + digit_value(digits.last())
    }
}

/// What a text starts with, read as a number.
#[derive(Debug, Clone, Copy, PartialEq, Eq, Structural)]
pub enum Number {
    /// The text starts with `consumed` digits, which denote `value`.
    Found { value: usize, consumed: usize },
    /// The text starts with no digit.
    Missing,
    /// The text starts with digits that denote more than the machine counts
    /// to.
    TooLarge,
}

/// The number that `s` starts with.
pub open spec fn number_of(s: Seq<char>) -> Number {
    let digits = s.take(digit_run(s, 0) as int);
    if digits.len() == 0 {
        Number::Missing
    } else if decimal_value(digits) > usize::MAX {
        Number::TooLarge
    } else {
        Number::Found { value: decimal_value(digits) as usize, consumed: digits.len() as usize }
    }
}

/// Calls `nom::character::complete::digit1` on the text. That parser takes
/// the ASCII digits that the text starts with, and fails where it starts with
/// none: the digits it took are returned, or `None` where it failed.
#[verifier::external_body]
fn leading_digits(input: &str) -> (r: Option<String>)
    ensures
        match r {
            Some(digits) => digits@.len() > 0 && digits@ == input@.take(
                digit_run(input@, 0) as int,
            ),
            None => digit_run(input@, 0) == 0,
        },
{
    match nom::character::complete::digit1::<&str, nom::error::Error<&str>>(input) {
        Ok((_, digits)) => Some(digits.to_string()),
        Err(_) => None,
    }
}

/// The digits counted by `digit_run` are digits, and lie inside the text.
pub proof fn lemma_digit_run(s: Seq<char>, pos: int)
    requires
        0 <= pos <= s.len(),
    ensures
        pos + digit_run(s, pos) <= s.len(),
        forall|j: int| pos <= j < pos + digit_run(s, pos) ==> is_digit(s[j]),
    decreases s.len() - pos,
{
    if pos < s.len() && is_digit(s[pos]) {
        lemma_digit_run(s, pos + 1);
    }
}

/// More digits denote no smaller a number.
pub proof fn lemma_decimal_value_grows(digits: Seq<char>, n: int)
    requires
        0 <= n <= digits.len(),
    ensures
        decimal_value(digits.take(n)) <= decimal_value(digits),
    decreases digits.len() - n,
{
    if n < digits.len() {
        assert(digits.take(n + 1).drop_last() =~= digits.take(n));
        lemma_decimal_value_grows(digits, n + 1);
    } else {
        assert(digits.take(n) =~= digits);
    }
}

/// The decimal notation of a number denotes that number.
pub proof fn lemma_decimal_value_of_decimal(n: nat)
    ensures
        decimal_value(decimal(n)) == n,
    decreases n,
{
    if n < 10 {
        assert(decimal(n).drop_last() =~= Seq::<char>::empty());
        assert(decimal_value(decimal(n).drop_last()) == 0);
        assert(digit_value(digit_char(n)) == n);
    } else {
        lemma_decimal_value_of_decimal(n / 10);
        assert(decimal(n).drop_last() =~= decimal(n / 10));
        assert(digit_value(digit_char(n % 10)) == n % 10);
    }
}

/// Reads the number that a text starts with: the digits at its start, as far
/// as they go, in decimal notation. The text may start with no digit, and the
/// digits may denote more than the machine counts to.
pub fn number(input: &str) -> (r: Number)
    ensures
        r == number_of(input@),
{
    let digits = match leading_digits(input) {
        Some(digits) => chars_of(digits.as_str()),
        None => {
            return Number::Missing;
        },
    };
    proof {
        lemma_digit_run(input@, 0);
    }
    let mut value: usize = 0;
    let mut i: usize = 0;
    while i < digits.len()
        invariant
            i <= digits.len(),
            forall|j: int| 0 <= j < digits.len() ==> is_digit(digits@[j]),
            digits@.len() > 0,
            digits@ == input@.take(digit_run(input@, 0) as int),
            value == decimal_value(digits@.take(i as int)),
        decreases digits.len() - i,
    {
        proof {
            assert(digits@.take(i + 1).drop_last() =~= digits@.take(i as int));
            assert(digits@.take(i + 1).last() == digits@[i as int]);
            lemma_decimal_value_grows(digits@, i + 1);
        }
        let digit = (digits[i] as u32 - '0' as u32) as usize;
        let next = match value.checked_mul(10) {
            Some(tenfold) => tenfold.checked_add(digit),
            None => None,
        };
        match next {
            Some(next) => {
                value = next;
            },
            None => {
                proof {
                    assert(decimal_value(digits@.take(i + 1)) == 10 * value + digit);
                }
                return Number::TooLarge;
            },
        }
        i += 1;
    }
    proof {
        assert(digits@.take(digits.len() as int) =~= digits@);
    }
    Number::Found { value, consumed: digits.len() }
}

} // verus!
