//! Character sequences: the conversions between strings and character
//! vectors, and the searches that the grammar is built from.

use vstd::prelude::*;

verus! {

/// `String::push` appends one character to the end of the string.
pub assume_specification[ String::push ](s: &mut String, c: char)
    ensures
        final(s)@ == old(s)@.push(c),
;

/// An optional machine index as an optional mathematical one.
pub open spec fn as_index(r: Option<usize>) -> Option<int> {
    match r {
        Some(i) => Some(i as int),
        None => None,
    }
}

/// `pat` occurs in `s` at index `i`.
pub open spec fn matches_at(s: Seq<char>, pat: Seq<char>, i: int) -> bool {
    &&& 0 <= i
    &&& i + pat.len() <= s.len()
    &&& s.subrange(i, i + pat.len()) == pat
}

/// The index of the first occurrence of `pat` in `s` at or after `from`.
pub open spec fn find_from(s: Seq<char>, pat: Seq<char>, from: int) -> Option<int>
    decreases s.len() + 1 - from,
{
    if from < 0 || from + pat.len() > s.len() {
        None
    } else if matches_at(s, pat, from) {
        Some(from)
    } else {
        find_from(s, pat, from + 1)
    }
}

/// `find_from` returns an occurrence, and no occurrence lies before it.
pub proof fn lemma_find_from(s: Seq<char>, pat: Seq<char>, from: int)
    requires
        0 <= from,
    ensures
        match find_from(s, pat, from) {
            Some(i) => from <= i && matches_at(s, pat, i) && forall|j: int|
                from <= j < i ==> !matches_at(s, pat, j),
            None => forall|j: int| from <= j ==> !matches_at(s, pat, j),
        },
    decreases s.len() + 1 - from,
{
    if from + pat.len() > s.len() {
    } else if matches_at(s, pat, from) {
    } else {
        lemma_find_from(s, pat, from + 1);
    }
}

/// The first index at or after `pos` that holds neither a space nor a tab.
pub open spec fn skip_blanks(s: Seq<char>, pos: int) -> int
    decreases s.len() - pos,
{
    if 0 <= pos < s.len() && is_blank(s[pos]) {
        skip_blanks(s, pos + 1)
    } else {
        pos
    }
}

/// A space or a tab.
pub open spec fn is_blank(c: char) -> bool {
    c == ' ' || c == '\t'
}

/// Where a line ending that starts at `pos` stops: after `"\n"` or `"\r\n"`.
pub open spec fn line_ending_at(s: Seq<char>, pos: int) -> Option<int> {
    if 0 <= pos < s.len() && s[pos] == '\n' {
        Some(pos + 1)
    } else if 0 <= pos && pos + 1 < s.len() && s[pos] == '\r' && s[pos + 1] == '\n' {
        Some(pos + 2)
    } else {
        None
    }
}

/// The first index at or after `pos` that holds a carriage return or a line
/// feed; the length of `s` where none follows.
pub open spec fn line_end(s: Seq<char>, pos: int) -> int
    decreases s.len() - pos,
{
    if 0 <= pos < s.len() && s[pos] != '\r' && s[pos] != '\n' {
        line_end(s, pos + 1)
    } else {
        pos
    }
}

/// The number of consecutive occurrences of `c` in `s` that start at `pos`.
pub open spec fn run_length(s: Seq<char>, c: char, pos: int) -> nat
    decreases s.len() - pos,
{
    if 0 <= pos < s.len() && s[pos] == c {
        1 + run_length(s, c, pos + 1)
    } else {
        0
    }
}

/// `skip_blanks` passes blanks only, and stops at the end or at a character
/// that is no blank.
pub proof fn lemma_skip_blanks_bounds(s: Seq<char>, pos: int)
    requires
        0 <= pos <= s.len(),
    ensures
        pos <= skip_blanks(s, pos) <= s.len(),
        forall|j: int| pos <= j < skip_blanks(s, pos) ==> is_blank(s[j]),
        skip_blanks(s, pos) < s.len() ==> !is_blank(s[skip_blanks(s, pos)]),
    decreases s.len() - pos,
{
    if pos < s.len() && is_blank(s[pos]) {
        lemma_skip_blanks_bounds(s, pos + 1);
    }
}

/// `run_length` counts a stretch of `c` that ends at the end of the text or
/// before another character.
pub proof fn lemma_run_length(s: Seq<char>, c: char, pos: int)
    requires
        0 <= pos <= s.len(),
    ensures
        pos + run_length(s, c, pos) <= s.len(),
        forall|j: int| pos <= j < pos + run_length(s, c, pos) ==> s[j] == c,
        pos + run_length(s, c, pos) < s.len() ==> s[pos + run_length(s, c, pos)] != c,
    decreases s.len() - pos,
{
    if pos < s.len() && s[pos] == c {
        lemma_run_length(s, c, pos + 1);
    }
}

/// The characters of `s`, in order.
pub fn chars_of(s: &str) -> (out: Vec<char>)
    ensures
        out@ == s@,
{
    let mut out: Vec<char> = Vec::new();
    for c in it: s.chars()
        invariant
            out@ == it.seq().take(it.index() as int),
            it.seq() == s@,
    {
        out.push(c);
    }
    out
}

/// The string made of the characters of `chars`, in order.
pub fn string_of(chars: &[char]) -> (out: String)
    ensures
        out@ == chars@,
{
    let mut out = String::new();
    let mut i: usize = 0;
    while i < chars.len()
        invariant
            i <= chars.len(),
            out@ == chars@.take(i as int),
        decreases chars.len() - i,
    {
        out.push(chars[i]);
        i += 1;
    }
    out
}

/// A copy of the characters of `s` from `from` up to `to`.
pub(crate) fn copy_range(s: &[char], from: usize, to: usize) -> (out: Vec<char>)
    requires
        from <= to <= s.len(),
    ensures
        out@ == s@.subrange(from as int, to as int),
{
    let mut out: Vec<char> = Vec::new();
    let mut i: usize = from;
    while i < to
        invariant
            from <= i <= to <= s.len(),
            out@ == s@.subrange(from as int, i as int),
        decreases to - i,
    {
        out.push(s[i]);
        i += 1;
    }
    out
}

/// Whether `pat` occurs in `s` at index `i`.
pub fn starts_with_at(s: &[char], pat: &[char], i: usize) -> (b: bool)
    ensures
        b == matches_at(s@, pat@, i as int),
{
    if i > s.len() || pat.len() > s.len() - i {
        return false;
    }
    let mut k: usize = 0;
    while k < pat.len()
        invariant
            i + pat.len() <= s.len(),
            k <= pat.len(),
            forall|j: int| 0 <= j < k ==> s@[i + j] == pat@[j],
        decreases pat.len() - k,
    {
        if s[i + k] != pat[k] {
            proof {
                assert(s@.subrange(i as int, i + pat.len())[k as int] == s@[i + k]);
            }
            return false;
        }
        k += 1;
    }
    proof {
        assert(s@.subrange(i as int, i + pat.len()) =~= pat@);
    }
    true
}

/// The index of the first occurrence of `pat` in `s` at or after `from`.
pub fn find(s: &[char], pat: &[char], from: usize) -> (r: Option<usize>)
    ensures
        as_index(r) == find_from(s@, pat@, from as int),
{
    if from > s.len() || pat.len() > s.len() - from {
        return None;
    }
    let mut i: usize = from;
    while s.len() - i >= pat.len()
        invariant
            from <= i <= s.len(),
            find_from(s@, pat@, from as int) == find_from(s@, pat@, i as int),
        decreases s.len() - i,
    {
        if starts_with_at(s, pat, i) {
            return Some(i);
        }
        proof {
            if pat.len() == 0 {
                assert(s@.subrange(i as int, i as int) =~= pat@);
            }
        }
        i += 1;
    }
    None
}

/// The first index at or after `pos` that holds neither a space nor a tab.
pub fn skip_blanks_from(s: &[char], pos: usize) -> (r: usize)
    ensures
        r == skip_blanks(s@, pos as int),
        pos <= r,
        pos <= s.len() ==> r <= s.len(),
{
    if pos > s.len() {
        return pos;
    }
    let mut i: usize = pos;
    while i < s.len() && (s[i] == ' ' || s[i] == '\t')
        invariant
            pos <= i <= s.len(),
            skip_blanks(s@, pos as int) == skip_blanks(s@, i as int),
        decreases s.len() - i,
    {
        i += 1;
    }
    i
}

/// The first index at or after `pos` that holds a carriage return or a line
/// feed; the length of `s` where none follows.
pub fn line_end_from(s: &[char], pos: usize) -> (r: usize)
    ensures
        r == line_end(s@, pos as int),
        pos <= r,
        pos <= s.len() ==> r <= s.len(),
{
    if pos > s.len() {
        return pos;
    }
    let mut i: usize = pos;
    while i < s.len() && s[i] != '\r' && s[i] != '\n'
        invariant
            pos <= i <= s.len(),
            line_end(s@, pos as int) == line_end(s@, i as int),
        decreases s.len() - i,
    {
        i += 1;
    }
    i
}

/// Whether the characters of `a` are those of `b`.
pub fn same_text(a: &[char], b: &[char]) -> (r: bool)
    ensures
        r == (a@ == b@),
{
    if a.len() != b.len() {
        return false;
    }
    let r = starts_with_at(a, b, 0);
    proof {
        assert(a@.subrange(0, a.len() as int) =~= a@);
    }
    r
}

/// Where a line ending that starts at `pos` stops, if one starts there.
pub fn line_ending_from(s: &[char], pos: usize) -> (r: Option<usize>)
    ensures
        as_index(r) == line_ending_at(s@, pos as int),
        r matches Some(e) ==> pos < e <= s.len(),
{
    if pos < s.len() && s[pos] == '\n' {
        Some(pos + 1)
    } else if pos < s.len() && s.len() - pos > 1 && s[pos] == '\r' && s[pos + 1] == '\n' {
        Some(pos + 2)
    } else {
        None
    }
}

/// The number of consecutive occurrences of `c` in `s` that start at `pos`.
pub fn run_length_from(s: &[char], c: char, pos: usize) -> (n: usize)
    ensures
        n == run_length(s@, c, pos as int),
        pos <= s.len() ==> pos + n <= s.len(),
        n > 0 ==> pos < s.len(),
{
    if pos > s.len() {
        return 0;
    }
    let mut i: usize = pos;
    while i < s.len() && s[i] == c
        invariant
            pos <= i <= s.len(),
            run_length(s@, c, pos as int) == (i - pos) + run_length(s@, c, i as int),
        decreases s.len() - i,
    {
        i += 1;
    }
    i - pos
}

/// The character has the Unicode property `White_Space`: it is a tab, a
/// line feed, a line tabulation, a form feed, a carriage return, a space,
/// the next-line control, a no-break space, the Ogham space mark, one of the
/// spaces from the en quad to the hair space, a line or paragraph separator,
/// a narrow no-break space, a medium mathematical space or an ideographic
/// space.
pub open spec fn is_whitespace_char(c: char) -> bool {
    ||| '\u{9}' <= c <= '\u{d}'
    ||| c == ' '
    ||| c == '\u{85}'
    ||| c == '\u{a0}'
    ||| c == '\u{1680}'
    ||| '\u{2000}' <= c <= '\u{200a}'
    ||| c == '\u{2028}'
    ||| c == '\u{2029}'
    ||| c == '\u{202f}'
    ||| c == '\u{205f}'
    ||| c == '\u{3000}'
}

/// Whether `char::is_lowercase` holds of `c`: the Unicode property
/// `Lowercase`.
pub uninterp spec fn is_lowercase_char(c: char) -> bool;

/// Calls `char::is_whitespace`, which tells whether the character has the
/// Unicode property `White_Space`.
#[verifier::external_body]
pub(crate) fn char_is_whitespace(c: char) -> (b: bool)
    ensures
        b == is_whitespace_char(c),
{
    c.is_whitespace()
}

/// Calls `char::is_lowercase`, a function of the character alone, and so
/// names what it returns.
#[verifier::external_body]
pub(crate) fn char_is_lowercase(c: char) -> (b: bool)
    ensures
        b == is_lowercase_char(c),
{
    c.is_lowercase()
}

/// `t` without the white space at its end.
pub open spec fn trim_end(t: Seq<char>) -> Seq<char>
    decreases t.len(),
{
    if t.len() > 0 && is_whitespace_char(t.last()) {
        trim_end(t.drop_last())
    } else {
        t
    }
}

/// The pieces of `s` from `pos` on that lie between the occurrences of
/// `sep`, found from left to right without overlap.
pub open spec fn split_from(s: Seq<char>, sep: Seq<char>, pos: int) -> Seq<Seq<char>>
    decreases s.len() - pos,
{
    match find_from(s, sep, pos) {
        Some(i) => if sep.len() > 0 && 0 <= pos {
            proof {
                lemma_find_from(s, sep, pos);
            }
            seq![s.subrange(pos, i)] + split_from(s, sep, i + sep.len())
        } else {
            seq![s.subrange(pos, s.len() as int)]
        },
        None => seq![s.subrange(pos, s.len() as int)],
    }
}

/// The pieces of `s` that lie between the occurrences of `sep`.
pub open spec fn split(s: Seq<char>, sep: Seq<char>) -> Seq<Seq<char>> {
    split_from(s, sep, 0)
}

/// The parts in order, with `sep` between each two.
pub open spec fn join(parts: Seq<Seq<char>>, sep: Seq<char>) -> Seq<char>
    decreases parts.len(),
{
    if parts.len() == 0 {
        Seq::empty()
    } else if parts.len() == 1 {
        parts[0]
    } else {
        join(parts.drop_last(), sep) + sep + parts.last()
    }
}

/// `s` from `pos` on, with `with` in place of each occurrence of `pat`,
/// found from left to right without overlap.
pub open spec fn replace_from(s: Seq<char>, pat: Seq<char>, with: Seq<char>, pos: int) -> Seq<
    char,
>
    decreases s.len() - pos,
{
    match find_from(s, pat, pos) {
        Some(i) => if pat.len() > 0 && 0 <= pos {
            proof {
                lemma_find_from(s, pat, pos);
            }
            s.subrange(pos, i) + with + replace_from(s, pat, with, i + pat.len())
        } else {
            s.subrange(pos, s.len() as int)
        },
        None => s.subrange(pos, s.len() as int),
    }
}

/// `s` with `with` in place of each occurrence of `pat`.
pub open spec fn replace(s: Seq<char>, pat: Seq<char>, with: Seq<char>) -> Seq<char> {
    replace_from(s, pat, with, 0)
}

/// Joining a first part and further parts puts the separator after the
/// first one.
pub proof fn lemma_join_prepend(first: Seq<char>, rest: Seq<Seq<char>>, sep: Seq<char>)
    requires
        rest.len() > 0,
    ensures
        join(seq![first] + rest, sep) == first + sep + join(rest, sep),
    decreases rest.len(),
{
    let all = seq![first] + rest;
    assert(all.last() == rest.last());
    if rest.len() == 1 {
        assert(all.drop_last() =~= seq![first]);
        assert(join(seq![first], sep) == first);
        assert(join(rest, sep) == rest[0]);
        assert(join(all, sep) =~= first + sep + join(rest, sep));
    } else {
        assert(all.drop_last() =~= seq![first] + rest.drop_last());
        lemma_join_prepend(first, rest.drop_last(), sep);
        assert(join(all, sep) =~= first + sep + join(rest, sep));
    }
}

/// Splitting gives at least one piece.
pub proof fn lemma_split_from_len(s: Seq<char>, sep: Seq<char>, pos: int)
    ensures
        split_from(s, sep, pos).len() > 0,
    decreases s.len() - pos,
{
    if let Some(i) = find_from(s, sep, pos) {
        if sep.len() > 0 && 0 <= pos {
            lemma_find_from(s, sep, pos);
            lemma_split_from_len(s, sep, i + sep.len());
        }
    }
}

/// Joining the pieces that a text was split into gives the text back.
pub proof fn lemma_join_split_from(s: Seq<char>, sep: Seq<char>, pos: int)
    requires
        0 <= pos <= s.len(),
    ensures
        join(split_from(s, sep, pos), sep) == s.subrange(pos, s.len() as int),
    decreases s.len() - pos,
{
    match find_from(s, sep, pos) {
        Some(i) => {
            if sep.len() > 0 {
                lemma_find_from(s, sep, pos);
                let next = i + sep.len();
                lemma_join_split_from(s, sep, next);
                lemma_split_from_len(s, sep, next);
                lemma_join_prepend(s.subrange(pos, i), split_from(s, sep, next), sep);
                assert(s.subrange(pos, i) + sep + s.subrange(next, s.len() as int) =~= s.subrange(
                    pos,
                    s.len() as int,
                ));
            }
        },
        None => {},
    }
}

/// Joining the pieces that a text was split into gives the text back.
pub proof fn lemma_join_split(s: Seq<char>, sep: Seq<char>)
    ensures
        join(split(s, sep), sep) == s,
{
    lemma_join_split_from(s, sep, 0);
    assert(s.subrange(0, s.len() as int) =~= s);
}

/// The decimal digit for `d`.
pub open spec fn digit_char(d: nat) -> char {
    if d == 0 {
        '0'
    } else if d == 1 {
        '1'
    } else if d == 2 {
        '2'
    } else if d == 3 {
        '3'
    } else if d == 4 {
        '4'
    } else if d == 5 {
        '5'
    } else if d == 6 {
        '6'
    } else if d == 7 {
        '7'
    } else if d == 8 {
        '8'
    } else {
        '9'
    }
}

/// `n` in decimal digits, without leading zeros.
pub open spec fn decimal(n: nat) -> Seq<char>
    decreases n,
{
    if n < 10 {
        seq![digit_char(n)]
    } else {
        decimal(n / 10).push(digit_char(n % 10))
    }
}

/// Appends the characters of `src` to `out`.
pub fn push_all(out: &mut Vec<char>, src: &[char])
    ensures
        final(out)@ == old(out)@ + src@,
{
    let mut i: usize = 0;
    while i < src.len()
        invariant
            i <= src.len(),
            out@ == old(out)@ + src@.take(i as int),
        decreases src.len() - i,
    {
        out.push(src[i]);
        proof {
            assert(src@.take(i + 1) =~= src@.take(i as int).push(src@[i as int]));
        }
        i += 1;
    }
    proof {
        assert(src@.take(src.len() as int) =~= src@);
    }
}

/// Appends the characters of `s` to `out`.
pub fn push_str(out: &mut Vec<char>, s: &str)
    ensures
        final(out)@ == old(out)@ + s@,
{
    let chars = chars_of(s);
    push_all(out, chars.as_slice());
}

/// The end of `s[from..to]` once the white space at its end is left out.
pub(crate) fn trim_end_index(s: &[char], from: usize, to: usize) -> (end: usize)
    requires
        from <= to <= s.len(),
    ensures
        from <= end <= to,
        s@.subrange(from as int, end as int) == trim_end(s@.subrange(from as int, to as int)),
{
    let mut end: usize = to;
    while end > from && char_is_whitespace(s[end - 1])
        invariant
            from <= end <= to <= s.len(),
            trim_end(s@.subrange(from as int, to as int)) == trim_end(
                s@.subrange(from as int, end as int),
            ),
        decreases end,
    {
        proof {
            assert(s@.subrange(from as int, end as int).drop_last() =~= s@.subrange(
                from as int,
                end - 1,
            ));
        }
        end -= 1;
    }
    end
}

/// The views of the strings of a list, in order.
pub open spec fn string_views(strings: Seq<String>) -> Seq<Seq<char>> {
    strings.map_values(|s: String| s@)
}

/// The length of `s` once the white space at its end is left out.
pub fn trim_end_len(s: &[char]) -> (end: usize)
    ensures
        end <= s.len(),
        s@.subrange(0, end as int) == trim_end(s@),
{
    proof {
        assert(s@.subrange(0, s.len() as int) =~= s@);
    }
    trim_end_index(s, 0, s.len())
}

/// The character sequences that the vectors of `parts` hold.
pub open spec fn views(parts: Seq<Vec<char>>) -> Seq<Seq<char>> {
    parts.map_values(|p: Vec<char>| p@)
}

/// The pieces of `s` that lie between the occurrences of `sep`.
pub fn split_chars(s: &[char], sep: &[char]) -> (parts: Vec<Vec<char>>)
    ensures
        parts.len() > 0,
        views(parts@) == split(s@, sep@),
{
    let mut parts: Vec<Vec<char>> = Vec::new();
    if sep.len() == 0 {
        parts.push(copy_range(s, 0, s.len()));
        proof {
            assert(views(parts@) =~= seq![s@.subrange(0, s.len() as int)]);
        }
        return parts;
    }
    let mut pos: usize = 0;
    proof {
        assert(views(parts@) + split_from(s@, sep@, 0) =~= split(s@, sep@));
    }
    loop
        invariant_except_break
            pos <= s.len(),
            sep.len() > 0,
            views(parts@) + split_from(s@, sep@, pos as int) == split(s@, sep@),
        ensures
            parts.len() > 0,
            views(parts@) == split(s@, sep@),
        decreases s.len() - pos,
    {
        let ghost before = views(parts@);
        match find(s, sep, pos) {
            Some(i) => {
                proof {
                    lemma_find_from(s@, sep@, pos as int);
                }
                parts.push(copy_range(s, pos, i));
                proof {
                    assert(views(parts@) =~= before + seq![s@.subrange(pos as int, i as int)]);
                    assert(views(parts@) + split_from(s@, sep@, i + sep.len()) =~= before
                        + split_from(s@, sep@, pos as int));
                }
                pos = i + sep.len();
            },
            None => {
                parts.push(copy_range(s, pos, s.len()));
                proof {
                    assert(views(parts@) =~= before + seq![
                        s@.subrange(pos as int, s.len() as int),
                    ]);
                }
                break;
            },
        }
    }
    parts
}

/// `s` with `with` in place of each occurrence of `pat`.
pub fn replace_chars(s: &[char], pat: &[char], with: &[char]) -> (out: Vec<char>)
    ensures
        out@ == replace(s@, pat@, with@),
{
    if pat.len() == 0 {
        return copy_range(s, 0, s.len());
    }
    let mut out: Vec<char> = Vec::new();
    let mut pos: usize = 0;
    proof {
        assert(out@ + replace_from(s@, pat@, with@, 0) =~= replace(s@, pat@, with@));
    }
    loop
        invariant_except_break
            pos <= s.len(),
            pat.len() > 0,
            out@ + replace_from(s@, pat@, with@, pos as int) == replace(s@, pat@, with@),
        ensures
            out@ == replace(s@, pat@, with@),
        decreases s.len() - pos,
    {
        let ghost before = out@;
        match find(s, pat, pos) {
            Some(i) => {
                proof {
                    lemma_find_from(s@, pat@, pos as int);
                }
                let piece = copy_range(s, pos, i);
                push_all(&mut out, piece.as_slice());
                push_all(&mut out, with);
                proof {
                    assert(out@ + replace_from(s@, pat@, with@, i + pat.len()) =~= before
                        + replace_from(s@, pat@, with@, pos as int));
                }
                pos = i + pat.len();
            },
            None => {
                let piece = copy_range(s, pos, s.len());
                push_all(&mut out, piece.as_slice());
                break;
            },
        }
    }
    out
}

/// The decimal digit for `d`.
fn digit_of(d: usize) -> (c: char)
    requires
        d < 10,
    ensures
        c == digit_char(d as nat),
{
    if d == 0 {
        '0'
    } else if d == 1 {
        '1'
    } else if d == 2 {
        '2'
    } else if d == 3 {
        '3'
    } else if d == 4 {
        '4'
    } else if d == 5 {
        '5'
    } else if d == 6 {
        '6'
    } else if d == 7 {
        '7'
    } else if d == 8 {
        '8'
    } else {
        '9'
    }
}

/// Appends `n` in decimal digits to `out`.
pub fn push_decimal(out: &mut Vec<char>, n: usize)
    ensures
        final(out)@ == old(out)@ + decimal(n as nat),
    decreases n,
{
    if n < 10 {
        out.push(digit_of(n));
        proof {
            assert(out@ =~= old(out)@ + decimal(n as nat));
        }
    } else {
        push_decimal(out, n / 10);
        out.push(digit_of(n % 10));
        proof {
            assert(out@ =~= old(out)@ + decimal(n as nat));
        }
    }
}

} // verus!
