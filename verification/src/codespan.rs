//! Inline code spans: quoting a text between back-quote fences so that it
//! renders verbatim, and reading such a span back.

use vstd::prelude::*;
use crate::text::{
    chars_of, copy_range, lemma_run_length, run_length, run_length_from, string_of,
};

verus! {

/// A fence of `n` back-quotes.
pub open spec fn backticks(n: nat) -> Seq<char> {
    Seq::new(n, |i: int| '`')
}

/// The greatest length of a run of `c` that starts at or after `pos`.
pub open spec fn longest_run_from(s: Seq<char>, c: char, pos: int) -> nat
    decreases s.len() - pos,
{
    if 0 <= pos < s.len() {
        let here = run_length(s, c, pos);
        let later = longest_run_from(s, c, pos + 1);
        if here >= later {
            here
        } else {
            later
        }
    } else {
        0
    }
}

/// The greatest length of a run of `c` anywhere in `s`.
pub open spec fn longest_run(s: Seq<char>, c: char) -> nat {
    longest_run_from(s, c, 0)
}

/// The text starts or ends with a back-quote, or starts and ends with a
/// space: set between fences as it is, its ends would not survive rendering.
pub open spec fn needs_padding(s: Seq<char>) -> bool {
    s.len() > 0 && (s.first() == '`' || s.last() == '`' || (s.first() == ' ' && s.last() == ' '))
}

/// The text between the fences: `s`, with one space on either side where it
/// needs padding.
pub open spec fn padded(s: Seq<char>) -> Seq<char> {
    if needs_padding(s) {
        seq![' '] + s + seq![' ']
    } else {
        s
    }
}

/// The code span for `s`: the padded text between two fences that are one
/// back-quote longer than the longest run of back-quotes in `s`.
pub open spec fn code_span(s: Seq<char>) -> Seq<char> {
    backticks(longest_run(s, '`') + 1) + padded(s) + backticks(longest_run(s, '`') + 1)
}

/// The greatest length of a run of `c` anywhere in `s`.
pub fn longest_run_of(s: &[char], c: char) -> (best: usize)
    ensures
        best == longest_run(s@, c),
        best <= s.len(),
{
    let mut best: usize = 0;
    let mut here: usize = 0;
    let mut i: usize = s.len();
    while i > 0
        invariant
            i <= s.len(),
            here == run_length(s@, c, i as int),
            best == longest_run_from(s@, c, i as int),
            here <= s.len() - i,
            best <= s.len() - i,
        decreases i,
    {
        i -= 1;
        if s[i] == c {
            here += 1;
        } else {
            here = 0;
        }
        if here > best {
            best = here;
        }
    }
    best
}

/// Whether the text needs a space on either side between its fences.
pub fn needs_padding_of(s: &[char]) -> (b: bool)
    ensures
        b == needs_padding(s@),
{
    if s.len() == 0 {
        return false;
    }
    let first = s[0];
    let last = s[s.len() - 1];
    first == '`' || last == '`' || (first == ' ' && last == ' ')
}

/// Appends `n` back-quotes to `out`.
fn push_backticks(out: &mut Vec<char>, n: usize)
    ensures
        final(out)@ == old(out)@ + backticks(n as nat),
{
    let mut i: usize = 0;
    while i < n
        invariant
            i <= n,
            out@ == old(out)@ + backticks(i as nat),
        decreases n - i,
    {
        out.push('`');
        proof {
            assert(old(out)@ + backticks((i + 1) as nat) =~= (old(out)@ + backticks(i as nat)).push(
                '`',
            ));
        }
        i += 1;
    }
}

/// The code span for the characters of `s`.
pub fn format_code(s: &[char]) -> (out: Vec<char>)
    ensures
        out@ == code_span(s@),
{
    let longest = longest_run_of(s, '`');
    let pad = needs_padding_of(s);
    let mut out: Vec<char> = Vec::new();
    out.push('`');
    push_backticks(&mut out, longest);
    if pad {
        out.push(' ');
    }
    out.extend_from_slice(s);
    if pad {
        out.push(' ');
    }
    out.push('`');
    push_backticks(&mut out, longest);
    proof {
        let n = longest as nat;
        assert(seq!['`'] + backticks(n) =~= backticks(n + 1));
        assert(out@ =~= code_span(s@));
    }
    out
}

/// Quotes `input` as an inline code span: between fences one back-quote
/// longer than the longest run of back-quotes in it, with a space on either
/// side where it starts or ends with a back-quote, or starts and ends with a
/// space.
#[must_use]
pub fn markdown_format_code(input: &str) -> (out: String)
    ensures
        out@ == code_span(input@),
{
    let chars = chars_of(input);
    let span = format_code(chars.as_slice());
    string_of(span.as_slice())
}

/// The start of the first run of exactly `n` back-quotes at or after `from`,
/// where `from` does not lie inside a run.
pub open spec fn closing_fence(s: Seq<char>, n: nat, from: int) -> Option<int>
    decreases s.len() - from,
{
    if 0 <= from < s.len() {
        let run = run_length(s, '`', from);
        if run == 0 {
            closing_fence(s, n, from + 1)
        } else if run == n {
            Some(from)
        } else {
            proof {
                lemma_run_length(s, '`', from);
            }
            closing_fence(s, n, from + run)
        }
    } else {
        None
    }
}

/// The text of a code span without the one space on either side, where it
/// has both.
pub open spec fn strip_padding(code: Seq<char>) -> Seq<char> {
    if code.len() >= 2 && code.first() == ' ' && code.last() == ' ' {
        code.subrange(1, code.len() - 1)
    } else {
        code
    }
}

/// The code span that starts at `pos`: its text, and the index after its
/// closing fence. The opening fence is the whole run of back-quotes at `pos`;
/// the closing fence is the next run of the same length.
pub open spec fn code_span_at(s: Seq<char>, pos: int) -> Option<(Seq<char>, int)> {
    let n = run_length(s, '`', pos);
    if n == 0 {
        None
    } else {
        match closing_fence(s, n, pos + n) {
            Some(close) => Some((strip_padding(s.subrange(pos + n, close)), close + n)),
            None => None,
        }
    }
}

/// What `closing_fence` returns is the start of a run of `n` back-quotes
/// inside the text.
pub proof fn lemma_closing_fence(s: Seq<char>, n: nat, from: int)
    requires
        0 <= from <= s.len(),
        n > 0,
    ensures
        closing_fence(s, n, from) matches Some(close) ==> from <= close && close + n <= s.len()
            && run_length(s, '`', close) == n,
    decreases s.len() - from,
{
    if from < s.len() {
        let run = run_length(s, '`', from);
        lemma_run_length(s, '`', from);
        if run == 0 {
            lemma_closing_fence(s, n, from + 1);
        } else if run == n {
        } else {
            lemma_closing_fence(s, n, from + run);
        }
    }
}

/// The start of the first run of exactly `n` back-quotes at or after `from`.
fn find_closing_fence(s: &[char], n: usize, from: usize) -> (r: Option<usize>)
    requires
        from <= s.len(),
        n > 0,
    ensures
        crate::text::as_index(r) == closing_fence(s@, n as nat, from as int),
        r matches Some(close) ==> from <= close && close + n <= s.len(),
{
    let mut i: usize = from;
    while i < s.len()
        invariant
            from <= i <= s.len(),
            n > 0,
            closing_fence(s@, n as nat, from as int) == closing_fence(s@, n as nat, i as int),
        decreases s.len() - i,
    {
        let run = run_length_from(s, '`', i);
        if run == 0 {
            i += 1;
        } else if run == n {
            return Some(i);
        } else {
            i += run;
        }
    }
    None
}

/// Reads the code span that starts at `pos`: its text, and the index after
/// its closing fence. `None` where no back-quote stands at `pos` or no run of
/// the opening fence's length follows.
pub fn parse_code_span(s: &[char], pos: usize) -> (r: Option<(Vec<char>, usize)>)
    ensures
        match r {
            Some((code, end)) => code_span_at(s@, pos as int) == Some((code@, end as int)) && pos
                < end <= s.len(),
            None => code_span_at(s@, pos as int) is None,
        },
{
    let n = run_length_from(s, '`', pos);
    if n == 0 {
        return None;
    }
    match find_closing_fence(s, n, pos + n) {
        None => None,
        Some(close) => {
            let len = close - (pos + n);
            if len >= 2 && s[pos + n] == ' ' && s[close - 1] == ' ' {
                Some((copy_range(s, pos + n + 1, close - 1), close + n))
            } else {
                Some((copy_range(s, pos + n, close), close + n))
            }
        },
    }
}

/// Every run of `c` in `s` is at most as long as the longest one.
pub proof fn lemma_longest_run_bounds(s: Seq<char>, c: char, pos: int, from: int)
    requires
        0 <= from <= pos,
    ensures
        run_length(s, c, pos) <= longest_run_from(s, c, from),
    decreases pos - from,
{
    if pos >= s.len() {
    } else if from < pos {
        lemma_longest_run_bounds(s, c, pos, from + 1);
    }
}

/// Where `s` holds `c` at all, its longest run of `c` starts somewhere.
pub proof fn lemma_longest_run_attained(s: Seq<char>, c: char, from: int)
    requires
        0 <= from,
        longest_run_from(s, c, from) > 0,
    ensures
        exists|pos: int|
            from <= pos < s.len() && #[trigger] run_length(s, c, pos) == longest_run_from(
                s,
                c,
                from,
            ),
    decreases s.len() - from,
{
    if from < s.len() {
        let here = run_length(s, c, from);
        let later = longest_run_from(s, c, from + 1);
        if here >= later {
            assert(run_length(s, c, from) == longest_run_from(s, c, from));
        } else {
            lemma_longest_run_attained(s, c, from + 1);
            let pos = choose|pos: int|
                from + 1 <= pos < s.len() && #[trigger] run_length(s, c, pos) == longest_run_from(
                    s,
                    c,
                    from + 1,
                );
            assert(run_length(s, c, pos) == longest_run_from(s, c, from));
        }
    }
}

/// A stretch of `len` characters `c` that starts at `pos` is part of the run
/// that starts there.
pub proof fn lemma_run_covers(s: Seq<char>, c: char, pos: int, len: nat)
    requires
        0 <= pos,
        pos + len <= s.len(),
        forall|j: int| pos <= j < pos + len ==> s[j] == c,
    ensures
        run_length(s, c, pos) >= len,
    decreases len,
{
    if len > 0 {
        lemma_run_covers(s, c, pos + 1, (len - 1) as nat);
    }
}

/// The run of `c` that starts at `pos` is `len` long where `len` characters
/// `c` stand there and the next one, if any, is another.
pub proof fn lemma_run_exact(s: Seq<char>, c: char, pos: int, len: nat)
    requires
        0 <= pos,
        pos + len <= s.len(),
        forall|j: int| pos <= j < pos + len ==> s[j] == c,
        pos + len < s.len() ==> s[pos + len] != c,
    ensures
        run_length(s, c, pos) == len,
    decreases len,
{
    if len > 0 {
        lemma_run_exact(s, c, pos + 1, (len - 1) as nat);
    }
}

/// A run of exactly `n` back-quotes starts at `i`, and no back-quote stands
/// on either side of it.
pub open spec fn is_fence_at(s: Seq<char>, n: nat, i: int) -> bool {
    &&& 0 <= i
    &&& i + n <= s.len()
    &&& forall|j: int| i <= j < i + n ==> s[j] == '`'
    &&& (i > 0 ==> s[i - 1] != '`')
    &&& (i + n < s.len() ==> s[i + n] != '`')
}

/// `closing_fence` finds the next run of exactly `n` back-quotes: where the
/// search starts outside a run or at the start of one, what it returns is
/// such a run, no such run starts before it, and where it returns nothing,
/// none follows at all.
pub proof fn lemma_closing_fence_is_next(s: Seq<char>, n: nat, from: int)
    requires
        n > 0,
        0 <= from <= s.len(),
        from == 0 || from == s.len() || s[from - 1] != '`' || s[from] != '`',
    ensures
        match closing_fence(s, n, from) {
            Some(close) => from <= close && is_fence_at(s, n, close) && forall|j: int|
                from <= j < close ==> !is_fence_at(s, n, j),
            None => forall|j: int| from <= j ==> !is_fence_at(s, n, j),
        },
    decreases s.len() - from,
{
    if from < s.len() {
        let run = run_length(s, '`', from);
        lemma_run_length(s, '`', from);
        if run == 0 {
            lemma_closing_fence_is_next(s, n, from + 1);
        } else if run == n {
        } else {
            lemma_closing_fence_is_next(s, n, from + run);
            assert forall|j: int| from <= j < from + run implies !is_fence_at(s, n, j) by {
                if j == from {
                    if is_fence_at(s, n, j) {
                        if n < run {
                            assert(s[from + n] == '`');
                        } else {
                            assert(s[from + run] == '`');
                        }
                    }
                } else {
                    assert(s[j - 1] == '`');
                }
            }
        }
    }
}

/// The shape of a code span: where its text lies, and that no back-quote
/// touches a fence from inside.
proof fn lemma_code_span_shape(s: Seq<char>)
    ensures
        ({
            let n = longest_run(s, '`') + 1;
            let r = code_span(s);
            let off = if needs_padding(s) {
                n + 1
            } else {
                n
            };
            &&& r.len() == 2 * off + s.len()
            &&& forall|j: int| 0 <= j < n ==> r[j] == '`'
            &&& forall|j: int| r.len() - n <= j < r.len() ==> r[j] == '`'
            &&& forall|j: int| 0 <= j < s.len() ==> r[off + j] == s[j]
            &&& forall|j: int| n <= j < off ==> r[j] == ' '
            &&& forall|j: int| r.len() - off <= j < r.len() - n ==> r[j] == ' '
            &&& (s.len() > 0 ==> r[n as int] != '`' && r[r.len() - n - 1] != '`')
        }),
{
    let n = longest_run(s, '`') + 1;
    let r = code_span(s);
    if needs_padding(s) {
        assert(padded(s).len() == s.len() + 2);
        assert(forall|j: int| 0 <= j < s.len() ==> r[n + 1 + j] == s[j]);
        assert(r[n as int] == ' ');
        assert(r[r.len() - n - 1] == ' ');
    } else {
        assert(forall|j: int| 0 <= j < s.len() ==> r[n + j] == s[j]);
        if s.len() > 0 {
            assert(r[n as int] == s[0]);
            assert(r[r.len() - n - 1] == s[s.len() - 1]);
        }
    }
}

/// Inside a code span, between the two fences, every run of back-quotes is
/// shorter than a fence and ends before the closing fence.
proof fn lemma_inner_runs_short(s: Seq<char>, from: int)
    requires
        s.len() > 0,
        longest_run(s, '`') + 1 <= from < code_span(s).len() - (longest_run(s, '`') + 1),
    ensures
        run_length(code_span(s), '`', from) <= longest_run(s, '`'),
        from + run_length(code_span(s), '`', from) < code_span(s).len() - (longest_run(s, '`')
            + 1),
{
    let n = longest_run(s, '`') + 1;
    let r = code_span(s);
    let off = if needs_padding(s) {
        n + 1
    } else {
        n
    };
    let run = run_length(r, '`', from);
    lemma_code_span_shape(s);
    lemma_run_length(r, '`', from);
    let last = r.len() - n - 1;
    if from + run > last {
        assert(r[last] == '`');
    }
    if run > 0 {
        assert(r[from] == '`');
        assert(from >= off);
        assert(from + run <= r.len() - off) by {
            if from + run > r.len() - off {
                assert(r[r.len() - off] == '`');
            }
        }
        let k = from - off;
        assert forall|j: int| k <= j < k + run implies s[j] == '`' by {
            assert(r[off + j] == s[j]);
        }
        lemma_run_covers(s, '`', k, run);
        lemma_longest_run_bounds(s, '`', k, 0);
    }
}

/// From any place between the fences of a code span, the next run of a
/// fence's length is the closing fence.
proof fn lemma_closing_fence_of_span(s: Seq<char>, from: int)
    requires
        s.len() > 0,
        longest_run(s, '`') + 1 <= from <= code_span(s).len() - (longest_run(s, '`') + 1),
    ensures
        closing_fence(code_span(s), longest_run(s, '`') + 1, from) == Some(
            code_span(s).len() - (longest_run(s, '`') + 1),
        ),
    decreases code_span(s).len() - from,
{
    let n = longest_run(s, '`') + 1;
    let r = code_span(s);
    let close = r.len() - n;
    lemma_code_span_shape(s);
    if from == close {
        lemma_run_exact(r, '`', close, n);
    } else {
        lemma_inner_runs_short(s, from);
        let run = run_length(r, '`', from);
        if run == 0 {
            lemma_closing_fence_of_span(s, from + 1);
        } else {
            lemma_closing_fence_of_span(s, from + run);
        }
    }
}

/// Reading the code span of a text gives the text back. For every text `s`
/// that is not empty, the span made for `s` is read from its first character
/// to its last, and what is read is `s`.
pub proof fn lemma_code_span_round_trip(s: Seq<char>)
    requires
        s.len() > 0,
    ensures
        code_span_at(code_span(s), 0) == Some((s, code_span(s).len() as int)),
{
    let n = longest_run(s, '`') + 1;
    let r = code_span(s);
    let close = r.len() - n;
    lemma_code_span_shape(s);
    lemma_run_exact(r, '`', 0, n);
    lemma_closing_fence_of_span(s, n as int);
    let inner = r.subrange(n as int, close);
    assert(inner =~= padded(s));
    if needs_padding(s) {
        assert(inner.first() == ' ' && inner.last() == ' ');
        assert(inner.subrange(1, inner.len() - 1) =~= s);
    } else {
        assert(inner.len() >= 2 ==> !(inner.first() == ' ' && inner.last() == ' '));
    }
}

/// The fence of a code span occurs in it at its two ends only: a run of
/// exactly the fence's length, with no back-quote on either side, starts at
/// the first character or ends at the last one.
pub proof fn lemma_fence_only_at_ends(s: Seq<char>, i: int)
    requires
        is_fence_at(code_span(s), longest_run(s, '`') + 1, i),
    ensures
        i == 0 || i == code_span(s).len() - (longest_run(s, '`') + 1),
{
    let n = longest_run(s, '`') + 1;
    let r = code_span(s);
    let close = r.len() - n;
    lemma_code_span_shape(s);
    if s.len() == 0 {
        assert(r.len() == 2 * n);
        if 0 < i {
            assert(r[i - 1] == '`');
        }
    } else if 0 < i < close {
        if i < n {
            assert(r[i - 1] == '`');
        } else {
            lemma_run_exact(r, '`', i, n);
            lemma_inner_runs_short(s, i);
        }
    } else if i > close {
        assert(r[i - 1] == '`');
    }
}

/// Both ends of the code span of a text that is not empty hold its fence.
pub proof fn lemma_fence_at_both_ends(s: Seq<char>)
    requires
        s.len() > 0,
    ensures
        is_fence_at(code_span(s), longest_run(s, '`') + 1, 0),
        is_fence_at(
            code_span(s),
            longest_run(s, '`') + 1,
            code_span(s).len() - (longest_run(s, '`') + 1),
        ),
{
    lemma_code_span_shape(s);
}

} // verus!
