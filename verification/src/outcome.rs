//! What running an example gave, and how it is written into a table cell.

use vstd::prelude::*;
use crate::codespan::{code_span, format_code};
use crate::text::{
    as_index, chars_of, decimal, digit_char, push_all, push_decimal, push_str, string_of,
};

verus! {

/// A stretch of parser input: text or bytes.
#[derive(Debug, Clone, Copy)]
pub enum Fragment<'a> {
    Text(&'a str),
    Bytes(&'a [u8]),
}

/// What a `Fragment` holds.
pub enum FragmentView {
    Text(Seq<char>),
    Bytes(Seq<u8>),
}

impl<'a> View for Fragment<'a> {
    type V = FragmentView;

    open spec fn view(&self) -> FragmentView {
        match self {
            Fragment::Text(text) => FragmentView::Text(text@),
            Fragment::Bytes(bytes) => FragmentView::Bytes(bytes@),
        }
    }
}

/// How a parser failed: with an error that leaves other branches open, or
/// with a failure that does not.
#[derive(Debug, Clone, Copy, PartialEq, Eq, Structural)]
pub enum FailureKind {
    Error,
    Failure,
}

/// What running the example of a row gave.
#[derive(Debug)]
pub enum Outcome<'a> {
    /// The parser succeeded: the value it returned, in debug notation, and
    /// the input that it left.
    Success { value: String, remainder: Fragment<'a> },
    /// The parser needs more input: how many items, where it knows.
    Incomplete { needed: Option<usize> },
    /// The parser failed at `location`, a stretch of the input it was given,
    /// with the diagnostic `code`.
    Error { kind: FailureKind, location: Fragment<'a>, code: String },
}

/// An `Outcome` as plain values.
pub enum OutcomeView {
    Success { value: Seq<char>, remainder: FragmentView },
    Incomplete { needed: Option<usize> },
    Error { kind: FailureKind, location: FragmentView, code: Seq<char> },
}

impl<'a> View for Outcome<'a> {
    type V = OutcomeView;

    open spec fn view(&self) -> OutcomeView {
        match self {
            Outcome::Success { value, remainder } => OutcomeView::Success {
                value: value@,
                remainder: remainder@,
            },
            Outcome::Incomplete { needed } => OutcomeView::Incomplete { needed: *needed },
            Outcome::Error { kind, location, code } => OutcomeView::Error {
                kind: *kind,
                location: location@,
                code: code@,
            },
        }
    }
}

/// Why an outcome cannot be written out.
#[derive(Debug, Clone, Copy, PartialEq, Eq, Structural)]
pub enum FormatError {
    /// The place of the failure is no stretch of the input.
    LocationOutsideInput,
}

/// What `Debug` formatting makes of a text.
pub uninterp spec fn text_debug(text: Seq<char>) -> Seq<char>;

/// Formats a text with `{:#04x?}`, which for a `str` is its `Debug`
/// notation: a function of the text alone, whose result is named.
#[verifier::external_body]
fn debug_text(text: &str) -> (out: String)
    ensures
        out@ == text_debug(text@),
{
    format!("{text:#04x?}")
}

/// Reads the address at which a text starts in memory, with `str::as_ptr`.
/// Nothing is promised of the number.
#[verifier::external_body]
fn address_of_text(text: &str) -> usize {
    text.as_ptr() as usize
}

/// Reads the address at which a list of bytes starts in memory, with
/// `<[u8]>::as_ptr`. Nothing is promised of the number.
#[verifier::external_body]
fn address_of_bytes(bytes: &[u8]) -> usize {
    bytes.as_ptr() as usize
}

/// The offset of the stretch of `sub_len` bytes at address `sub` inside the
/// stretch of `base_len` bytes at address `base`. There is none where an end
/// lies beyond the address space, where the inner stretch starts before the
/// outer one or ends after it, nor, if `strict`, where it starts at the end of
/// the outer one.
pub open spec fn offset_in(base: int, base_len: int, sub: int, sub_len: int, strict: bool) -> Option<
    int,
> {
    if base + base_len > usize::MAX || sub + sub_len > usize::MAX {
        None
    } else if sub < base || sub + sub_len > base + base_len {
        None
    } else if strict && sub == base + base_len {
        None
    } else {
        Some(sub - base)
    }
}

/// The offset at which `inner`, at address `sub`, starts inside `outer`, at
/// address `base`, as a part of it. Inside a text, a stretch that starts at
/// the end of the text is no part of it; inside a list of bytes it is.
pub open spec fn subslice_offset(outer: Fragment, base: int, inner: Fragment, sub: int) -> Option<
    int,
> {
    offset_in(base, outer.spec_len() as int, sub, inner.spec_len() as int, outer is Text)
}

/// The offset at which the place of a failure, at address `sub`, lies in the
/// input, at address `base`. The place may be the empty stretch at the end
/// of the input, of a text as of a list of bytes: there its offset is the
/// length of the input.
pub open spec fn location_offset(input: Fragment, base: int, location: Fragment, sub: int) -> Option<
    int,
> {
    offset_in(base, input.spec_len() as int, sub, location.spec_len() as int, false)
}

/// An optional mathematical offset as an optional machine one.
pub open spec fn as_offset(r: Option<int>) -> Option<usize> {
    match r {
        Some(at) => Some(at as usize),
        None => None,
    }
}

/// How the outcome of running an example is written into a cell, where the
/// input lies at address `base` and the place of a failure at address `sub`.
pub open spec fn located_text(input: Fragment, base: int, outcome: Outcome, sub: int) -> Result<
    Seq<char>,
    FormatError,
> {
    match outcome {
        Outcome::Error { location, .. } => outcome_text(
            outcome@,
            as_offset(location_offset(input, base, location, sub)),
        ),
        _ => outcome_text(outcome@, None),
    }
}

/// What a result of formatting is as plain values.
pub open spec fn format_view(r: Result<String, FormatError>) -> Result<Seq<char>, FormatError> {
    match r {
        Ok(text) => Ok(text@),
        Err(e) => Err(e),
    }
}

/// A failure at the very end of the input is shown with the length of the
/// input as its offset.
pub proof fn lemma_location_at_the_end(input: Fragment, base: int, location: Fragment)
    requires
        0 <= base,
        base + input.spec_len() <= usize::MAX,
        location.spec_len() == 0,
    ensures
        location_offset(input, base, location, base + input.spec_len()) == Some(
            input.spec_len() as int,
        ),
{
}

/// The empty stretch at the end of a list of bytes is a part of the list, at
/// the offset of its length; the empty stretch at the end of a text is no
/// part of the text.
pub proof fn lemma_subslice_at_the_end(outer: Fragment, base: int, inner: Fragment)
    requires
        0 <= base,
        base + outer.spec_len() <= usize::MAX,
        inner.spec_len() == 0,
    ensures
        outer is Bytes ==> subslice_offset(outer, base, inner, base + outer.spec_len()) == Some(
            outer.spec_len() as int,
        ),
        outer is Text ==> subslice_offset(outer, base, inner, base + outer.spec_len()) is None,
{
}

/// An offset is found for exactly the stretches that lie inside the outer
/// one, and it leads from the start of the outer stretch to the start of the
/// inner one.
pub proof fn lemma_offset_in(base: int, base_len: int, sub: int, sub_len: int, strict: bool)
    requires
        0 <= base,
        0 <= base_len,
        0 <= sub,
        0 <= sub_len,
        base + base_len <= usize::MAX,
        sub + sub_len <= usize::MAX,
    ensures
        offset_in(base, base_len, sub, sub_len, strict) is Some <==> base <= sub && sub + sub_len
            <= base + base_len && !(strict && sub == base + base_len),
        offset_in(base, base_len, sub, sub_len, strict) matches Some(at) ==> base + at == sub && 0
            <= at && at + sub_len <= base_len,
{
}

/// The offset of one stretch of memory inside another, each given by its
/// address and its length in bytes.
pub fn offset_within(base: usize, base_len: usize, sub: usize, sub_len: usize, strict: bool) -> (r:
    Option<usize>)
    ensures
        as_index(r) == offset_in(
            base as int,
            base_len as int,
            sub as int,
            sub_len as int,
            strict,
        ),
{
    let base_end = match base.checked_add(base_len) {
        Some(end) => end,
        None => {
            return None;
        },
    };
    let sub_end = match sub.checked_add(sub_len) {
        Some(end) => end,
        None => {
            return None;
        },
    };
    if sub < base || sub_end > base_end {
        return None;
    }
    if strict && sub == base_end {
        return None;
    }
    Some(sub - base)
}

/// The hexadecimal digit for `d`.
pub open spec fn hex_digit(d: nat) -> char {
    if d < 10 {
        digit_char(d)
    } else if d == 10 {
        'a'
    } else if d == 11 {
        'b'
    } else if d == 12 {
        'c'
    } else if d == 13 {
        'd'
    } else if d == 14 {
        'e'
    } else {
        'f'
    }
}

/// A byte in hexadecimal notation: `0x` and two digits.
pub open spec fn byte_hex(b: u8) -> Seq<char> {
    seq!['0', 'x', hex_digit((b / 16) as nat), hex_digit((b % 16) as nat)]
}

/// The bytes in hexadecimal notation, with a comma and a space between each
/// two.
pub open spec fn byte_items(bytes: Seq<u8>) -> Seq<char>
    decreases bytes.len(),
{
    if bytes.len() == 0 {
        Seq::empty()
    } else if bytes.len() == 1 {
        byte_hex(bytes[0])
    } else {
        byte_items(bytes.drop_last()) + seq![',', ' '] + byte_hex(bytes.last())
    }
}

/// A list of bytes as a reference to an array of them: `&[`, the bytes in
/// hexadecimal notation, and `]`.
pub open spec fn byte_list(bytes: Seq<u8>) -> Seq<char> {
    seq!['&', '['] + byte_items(bytes) + seq![']']
}

/// The fragment holds nothing.
pub open spec fn fragment_is_empty(fragment: FragmentView) -> bool {
    match fragment {
        FragmentView::Text(text) => text.len() == 0,
        FragmentView::Bytes(bytes) => bytes.len() == 0,
    }
}

/// How what a parser left is shown, as a code span. A text: its `Debug`
/// notation, every character of the text kept. Bytes: the reference to an
/// array of them in hexadecimal notation.
pub open spec fn remainder_text(fragment: FragmentView) -> Seq<char> {
    match fragment {
        FragmentView::Text(text) => code_span(text_debug(text)),
        FragmentView::Bytes(bytes) => code_span(byte_list(bytes)),
    }
}

/// The name of a kind of failure.
pub open spec fn kind_text(kind: FailureKind) -> Seq<char> {
    match kind {
        FailureKind::Error => "Error"@,
        FailureKind::Failure => "Failure"@,
    }
}

/// How an outcome is written into a cell, where the place of a failure was
/// found at `offset` in the input, or was not found in it.
pub open spec fn outcome_text(outcome: OutcomeView, offset: Option<usize>) -> Result<
    Seq<char>,
    FormatError,
> {
    match outcome {
        OutcomeView::Success { value, remainder } => if fragment_is_empty(remainder) {
            Ok("Result: "@ + code_span(value) + "<br>No remainder"@)
        } else {
            Ok("Result: "@ + code_span(value) + "<br>Remainder: "@ + remainder_text(remainder))
        },
        OutcomeView::Incomplete { needed } => match needed {
            Some(n) => Ok("Incomplete<br>Needed: "@ + decimal(n as nat) + " items"@),
            None => Ok("Incomplete<br>Needed: unknown"@),
        },
        OutcomeView::Error { kind, location, code } => match offset {
            Some(at) => Ok(
                kind_text(kind) + "<br>Byte offset: "@ + decimal(at as nat) + "<br>Code: "@ + code,
            ),
            None => Err(FormatError::LocationOutsideInput),
        },
    }
}

impl<'a> Fragment<'a> {
    /// The length in bytes.
    pub open spec fn spec_len(&self) -> nat {
        match self {
            Fragment::Text(text) => text.len() as nat,
            Fragment::Bytes(bytes) => bytes@.len(),
        }
    }

    /// The length in bytes.
    pub fn length(&self) -> (n: usize)
        ensures
            n == self.spec_len(),
    {
        match self {
            Fragment::Text(text) => text.len(),
            Fragment::Bytes(bytes) => bytes.len(),
        }
    }

    /// Whether the fragment holds nothing.
    pub fn is_empty(&self) -> (b: bool)
        ensures
            b == fragment_is_empty(self@),
    {
        match self {
            Fragment::Text(text) => text.is_empty(),
            Fragment::Bytes(bytes) => bytes.len() == 0,
        }
    }

    /// The address at which the fragment starts in memory.
    fn address(&self) -> usize {
        match self {
            Fragment::Text(text) => address_of_text(text),
            Fragment::Bytes(bytes) => address_of_bytes(bytes),
        }
    }

    /// The offset in bytes at which `subslice` starts inside this fragment,
    /// where it is a stretch of the very memory of this fragment; `None`
    /// where it is not. Inside a text, a stretch that starts at the end of the
    /// text counts as outside; inside a list of bytes it does not. The answer
    /// goes by where the two lie in memory, not by what they hold: it is what
    /// `offset_of_subslice` gives for the two addresses.
    pub fn subslice_offset_bytes(&self, subslice: &Fragment) -> (r: Option<usize>)
        ensures
            r matches Some(at) ==> at + subslice.spec_len() <= self.spec_len(),
            r matches Some(at) ==> (self is Text ==> at < self.spec_len()),
            exists|base: usize, sub: usize|
                as_index(r) == #[trigger] subslice_offset(
                    *self,
                    base as int,
                    *subslice,
                    sub as int,
                ),
    {
        let base = self.address();
        let sub = subslice.address();
        let r = offset_of_subslice(self, base, subslice, sub);
        proof {
            assert(as_index(r) == subslice_offset(*self, base as int, *subslice, sub as int));
        }
        r
    }
}

/// The hexadecimal digit for `d`.
fn hex_digit_of(d: u8) -> (c: char)
    requires
        d < 16,
    ensures
        c == hex_digit(d as nat),
{
    if d == 0 {
        '0'
    } else if d == 1 {
        '1'
    } else if d == 2 {
        '2'
    } else if d == 3 {
        '3'
    } else if d == 4 {
        '4'
    } else if d == 5 {
        '5'
    } else if d == 6 {
        '6'
    } else if d == 7 {
        '7'
    } else if d == 8 {
        '8'
    } else if d == 9 {
        '9'
    } else if d == 10 {
        'a'
    } else if d == 11 {
        'b'
    } else if d == 12 {
        'c'
    } else if d == 13 {
        'd'
    } else if d == 14 {
        'e'
    } else {
        'f'
    }
}

/// A list of bytes as a reference to an array of them in hexadecimal
/// notation.
pub fn byte_list_of(bytes: &[u8]) -> (out: Vec<char>)
    ensures
        out@ == byte_list(bytes@),
{
    let mut out: Vec<char> = Vec::new();
    out.push('&');
    out.push('[');
    let mut i: usize = 0;
    while i < bytes.len()
        invariant
            i <= bytes.len(),
            out@ == seq!['&', '['] + byte_items(bytes@.take(i as int)),
        decreases bytes.len() - i,
    {
        proof {
            assert(bytes@.take(i + 1).drop_last() =~= bytes@.take(i as int));
            assert(bytes@.take(i + 1).last() == bytes@[i as int]);
        }
        if i > 0 {
            out.push(',');
            out.push(' ');
        }
        let b = bytes[i];
        out.push('0');
        out.push('x');
        out.push(hex_digit_of(b / 16));
        out.push(hex_digit_of(b % 16));
        proof {
            assert(out@ =~= seq!['&', '['] + byte_items(bytes@.take(i + 1)));
        }
        i += 1;
    }
    out.push(']');
    proof {
        assert(bytes@.take(bytes.len() as int) =~= bytes@);
        assert(out@ =~= byte_list(bytes@));
    }
    out
}

/// The characters that what a parser left is shown as.
fn remainder_chars(remainder: &Fragment) -> (out: Vec<char>)
    ensures
        out@ == remainder_text(remainder@),
{
    match remainder {
        Fragment::Text(text) => {
            let notation = debug_text(text);
            let chars = chars_of(notation.as_str());
            format_code(chars.as_slice())
        },
        Fragment::Bytes(bytes) => {
            let list = byte_list_of(bytes);
            format_code(list.as_slice())
        },
    }
}

/// Shows what a parser left, as a code span. Bytes are shown as a reference
/// to an array of them, each in hexadecimal notation with two digits. A text
/// is shown in its `Debug` notation, with every character of it kept.
pub fn format_remainder(remainder: &Fragment) -> (out: String)
    ensures
        out@ == remainder_text(remainder@),
{
    let chars = remainder_chars(remainder);
    string_of(chars.as_slice())
}

/// Writes an outcome into a cell, given where the place of a failure was
/// found in the input. A success shows the value as a code span and what was
/// left, or that nothing was; a parser that needs more shows how much; a
/// failure shows its kind, the offset and the code. A failure whose place
/// was not found in the input is refused.
pub fn describe_outcome(outcome: &Outcome, offset: Option<usize>) -> (r: Result<
    String,
    FormatError,
>)
    ensures
        match r {
            Ok(text) => outcome_text(outcome@, offset) == Ok::<Seq<char>, FormatError>(text@),
            Err(e) => outcome_text(outcome@, offset) == Err::<Seq<char>, FormatError>(e),
        },
{
    let mut out: Vec<char> = Vec::new();
    match outcome {
        Outcome::Success { value, remainder } => {
            let chars = chars_of(value.as_str());
            let span = format_code(chars.as_slice());
            push_str(&mut out, "Result: ");
            push_all(&mut out, span.as_slice());
            if remainder.is_empty() {
                push_str(&mut out, "<br>No remainder");
            } else {
                let left = remainder_chars(remainder);
                push_str(&mut out, "<br>Remainder: ");
                push_all(&mut out, left.as_slice());
            }
        },
        Outcome::Incomplete { needed } => {
            match needed {
                Some(n) => {
                    push_str(&mut out, "Incomplete<br>Needed: ");
                    push_decimal(&mut out, *n);
                    push_str(&mut out, " items");
                },
                None => {
                    push_str(&mut out, "Incomplete<br>Needed: unknown");
                },
            }
        },
        Outcome::Error { kind, location, code } => {
            let at = match offset {
                Some(at) => at,
                None => {
                    return Err(FormatError::LocationOutsideInput);
                },
            };
            match kind {
                FailureKind::Error => {
                    push_str(&mut out, "Error");
                },
                FailureKind::Failure => {
                    push_str(&mut out, "Failure");
                },
            }
            push_str(&mut out, "<br>Byte offset: ");
            push_decimal(&mut out, at);
            push_str(&mut out, "<br>Code: ");
            push_str(&mut out, code.as_str());
        },
    }
    let text = string_of(out.as_slice());
    proof {
        assert(outcome_text(outcome@, offset) == Ok::<Seq<char>, FormatError>(text@)) by {
            assert(outcome_text(outcome@, offset) is Ok);
            assert(outcome_text(outcome@, offset)->Ok_0 =~= out@);
        }
    }
    Ok(text)
}

/// The offset at which `inner`, which lies at address `sub`, starts inside
/// `outer`, which lies at address `base`, as a part of it. Inside a text, a
/// stretch that starts at the end of the text is no part of it; inside a
/// list of bytes it is.
pub fn offset_of_subslice(outer: &Fragment, base: usize, inner: &Fragment, sub: usize) -> (r: Option<
    usize,
>)
    ensures
        as_index(r) == subslice_offset(*outer, base as int, *inner, sub as int),
{
    let strict = match outer {
        Fragment::Text(_) => true,
        Fragment::Bytes(_) => false,
    };
    offset_within(base, outer.length(), sub, inner.length(), strict)
}

/// The offset at which the place of a failure, which lies at address `sub`,
/// lies in the input, which lies at address `base`; `None` where it is no
/// stretch of the input. The empty stretch at the end of the input is one.
pub fn offset_of_location(input: &Fragment, base: usize, location: &Fragment, sub: usize) -> (r:
    Option<usize>)
    ensures
        as_index(r) == location_offset(*input, base as int, *location, sub as int),
        r == as_offset(location_offset(*input, base as int, *location, sub as int)),
{
    offset_within(base, input.length(), sub, location.length(), false)
}

/// Writes the outcome of running an example into a cell, where the input
/// lies at address `base` and the place of a failure at address `sub`. A
/// failure is shown with the offset of its place in the input; a failure at
/// the very end of the input is shown with the length of the input. A place
/// that is no stretch of the input is refused.
pub fn format_located(input: &Fragment, base: usize, result: &Outcome, sub: usize) -> (r: Result<
    String,
    FormatError,
>)
    ensures
        format_view(r) == located_text(*input, base as int, *result, sub as int),
{
    let offset = match result {
        Outcome::Error { location, .. } => offset_of_location(input, base, location, sub),
        _ => None,
    };
    describe_outcome(result, offset)
}

/// Writes the outcome of running an example on `input` into a cell. The
/// place of a failure is looked up in `input` by where it lies in memory, and
/// shown as an offset in bytes; a place that is no stretch of `input` is
/// refused. What is returned is what `format_located` gives for the
/// addresses of the input and of the place; for an outcome that is no
/// failure it does not depend on them.
pub fn format_iresult(input: &Fragment, result: &Outcome) -> (r: Result<String, FormatError>)
    ensures
        !(result@ is Error) ==> format_view(r) == outcome_text(result@, None),
        exists|base: usize, sub: usize|
            format_view(r) == #[trigger] located_text(*input, base as int, *result, sub as int),
{
    let base = input.address();
    let sub = match result {
        Outcome::Error { location, .. } => location.address(),
        _ => base,
    };
    let r = format_located(input, base, result, sub);
    proof {
        assert(format_view(r) == located_text(*input, base as int, *result, sub as int));
    }
    r
}

} // verus!
