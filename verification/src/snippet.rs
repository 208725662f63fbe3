//! The code that is made for a row: the statements that import what the row
//! documents, the binding of its input, the call of its usage, and the
//! statement that writes the row out.

use vstd::prelude::*;
use crate::codespan::{code_span, format_code};
use crate::reference::{
    import_statement, import_statement_of, is_excluded, is_excluded_module, reference_cell,
    reference_cell_of, reference_views, Reference, ReferenceView,
};
use crate::table::{Row, RowView};
use crate::text::{
    chars_of, matches_at, push_all, push_str, replace, replace_chars, starts_with_at,
};

verus! {

/// `c` as it stands inside a string literal.
pub open spec fn escaped_char(c: char) -> Seq<char> {
    if c == '"' {
        seq!['\\', '"']
    } else if c == '\\' {
        seq!['\\', '\\']
    } else if c == '\n' {
        seq!['\\', 'n']
    } else if c == '\r' {
        seq!['\\', 'r']
    } else if c == '\t' {
        seq!['\\', 't']
    } else {
        seq![c]
    }
}

/// `s` as it stands inside a string literal.
pub open spec fn escaped(s: Seq<char>) -> Seq<char>
    decreases s.len(),
{
    if s.len() == 0 {
        Seq::empty()
    } else {
        escaped(s.drop_last()) + escaped_char(s.last())
    }
}

/// The string literal that denotes `s`.
pub open spec fn string_literal(s: Seq<char>) -> Seq<char> {
    seq!['"'] + escaped(s) + seq!['"']
}

/// The character that stands for `c` after a backslash.
pub open spec fn unescaped_char(c: char) -> char {
    if c == 'n' {
        '\n'
    } else if c == 'r' {
        '\r'
    } else if c == 't' {
        '\t'
    } else {
        c
    }
}

/// The text that the inside of a string literal denotes: a backslash and the
/// character after it stand for one character, any other character for
/// itself.
pub open spec fn unescaped(s: Seq<char>) -> Seq<char>
    decreases s.len(),
{
    if s.len() == 0 {
        Seq::empty()
    } else if s[0] == '\\' && s.len() >= 2 {
        seq![unescaped_char(s[1])] + unescaped(s.subrange(2, s.len() as int))
    } else {
        seq![s[0]] + unescaped(s.subrange(1, s.len() as int))
    }
}

/// The escaped form of a first character and further ones starts with that
/// of the first.
pub proof fn lemma_escaped_prepend(c: char, rest: Seq<char>)
    ensures
        escaped(seq![c] + rest) == escaped_char(c) + escaped(rest),
    decreases rest.len(),
{
    let all = seq![c] + rest;
    if rest.len() == 0 {
        assert(all.drop_last() =~= Seq::<char>::empty());
        assert(all.last() == c);
        assert(escaped(all.drop_last()) =~= Seq::<char>::empty());
        assert(escaped(all) =~= escaped_char(c) + escaped(rest));
    } else {
        assert(all.drop_last() =~= seq![c] + rest.drop_last());
        assert(all.last() == rest.last());
        lemma_escaped_prepend(c, rest.drop_last());
        assert(escaped(all) =~= escaped_char(c) + escaped(rest));
    }
}

/// A string literal denotes the text it was made for: what stands between
/// its quotes reads back as that text.
pub proof fn lemma_unescaped_escaped(s: Seq<char>)
    ensures
        unescaped(escaped(s)) == s,
    decreases s.len(),
{
    if s.len() > 0 {
        let c = s[0];
        let rest = s.subrange(1, s.len() as int);
        assert(seq![c] + rest =~= s);
        lemma_escaped_prepend(c, rest);
        lemma_unescaped_escaped(rest);
        let e = escaped(s);
        let head = escaped_char(c);
        assert(e =~= head + escaped(rest));
        if head.len() == 2 {
            assert(e[0] == '\\');
            assert(e.subrange(2, e.len() as int) =~= escaped(rest));
            assert(unescaped_char(e[1]) == c);
            assert(unescaped(e) =~= seq![c] + unescaped(escaped(rest)));
        } else {
            assert(e[0] == c);
            assert(e.subrange(1, e.len() as int) =~= escaped(rest));
            assert(unescaped(e) =~= seq![c] + unescaped(escaped(rest)));
        }
    } else {
        assert(escaped(s) =~= Seq::<char>::empty());
    }
}

/// The input denotes a reference to an array: it starts with `&[`.
pub open spec fn is_array_reference(input: Seq<char>) -> bool {
    matches_at(input, seq!['&', '['], 0)
}

/// The input denotes a byte string: it starts with `b"`, `br"` or `br#`.
pub open spec fn is_byte_string(input: Seq<char>) -> bool {
    matches_at(input, seq!['b', '"'], 0) || matches_at(input, seq!['b', 'r', '"'], 0) || matches_at(
        input,
        seq!['b', 'r', '#'],
        0,
    )
}

/// The expression that the input is bound to: a reference to an array is
/// made a slice by `[..]`, a byte string is cast to a slice of bytes, and
/// anything else stands as it is.
pub open spec fn normalized_input(input: Seq<char>) -> Seq<char> {
    if is_array_reference(input) {
        input + "[..]"@
    } else if is_byte_string(input) {
        input + " as &[u8]"@
    } else {
        input
    }
}

/// The usage as code: a `|` that the table had to escape stands bare.
pub open spec fn usage_code(usage: Seq<char>) -> Seq<char> {
    replace(usage, seq!['\\', '|'], seq!['|'])
}

/// The usage binds the output itself: it starts with `let output`.
pub open spec fn declares_output(code: Seq<char>) -> bool {
    matches_at(code, "let output"@, 0)
}

/// The statement that calls the usage on the input: the usage as it is where
/// it binds the output itself, a binding of the output to its call otherwise.
pub open spec fn invocation(usage: Seq<char>) -> Seq<char> {
    if declares_output(usage_code(usage)) {
        usage_code(usage) + "(input);"@
    } else {
        "let output: IResult<_, _> = "@ + usage_code(usage) + "(input);"@
    }
}

/// The lines that import the items of a row, one for each reference whose
/// module is not left out.
pub open spec fn import_lines(refs: Seq<ReferenceView>) -> Seq<char>
    decreases refs.len(),
{
    if refs.len() == 0 {
        Seq::empty()
    } else if is_excluded_module(refs.last().module) {
        import_lines(refs.drop_last())
    } else {
        import_lines(refs.drop_last()) + "    "@ + import_statement(refs.last()) + seq!['\n']
    }
}

/// The row has an example: both a usage and an input.
pub open spec fn is_example(row: RowView) -> bool {
    row.usage is Some && row.input is Some
}

/// The row has a usage without an input, or an input without a usage.
pub open spec fn is_unpaired(row: RowView) -> bool {
    (row.usage is Some) != (row.input is Some)
}

/// The line of the rendered table for a row, given what its example gave:
/// the five cells between `|`. A row without an example has three empty
/// cells.
pub open spec fn row_line(row: RowView, output: Seq<char>) -> Seq<char> {
    if is_example(row) {
        "| "@ + reference_cell(row.references) + " | "@ + code_span(row.usage->0) + " | "@
            + code_span(row.input->0) + " | "@ + output + " | "@ + row.description + " |"@
    } else {
        "| "@ + reference_cell(row.references) + " |  |  |  | "@ + row.description + " |"@
    }
}

/// How the block of a row with an example starts: the import statements of
/// its usage.
pub open spec fn example_head(row: RowView) -> Seq<char> {
    "{\n"@ + (if row.imports.len() > 0 {
        "    "@ + row.imports + seq!['\n']
    } else {
        Seq::empty()
    })
}

/// How the block of a row with an example ends: the binding of its input,
/// the call, the formatting of what the call gave, and the statement that
/// writes the line of the row.
pub open spec fn example_tail(row: RowView) -> Seq<char> {
    "    let input = "@ + normalized_input(row.input->0) + ";\n    "@ + invocation(row.usage->0)
        + line_statement(row)
}

/// The block of code made for a row. For a row with an example: the import
/// statements of its usage, the imports of its items, the binding of its
/// input, the call, the formatting of what the call gave, and the statement
/// that writes the line of the row. For a row without one: the statement
/// that writes its line.
pub open spec fn row_block(row: RowView) -> Seq<char> {
    if is_example(row) {
        example_head(row) + import_lines(row.references) + example_tail(row)
    } else {
        "{\n    writeln!(markdown, \"{}\", "@ + string_literal(row_line(row, Seq::empty()))
            + ")?;\n}\n"@
    }
}

/// Appends `s` to `out` as it stands inside a string literal.
fn push_escaped(out: &mut Vec<char>, s: &[char])
    ensures
        final(out)@ == old(out)@ + escaped(s@),
{
    let mut i: usize = 0;
    while i < s.len()
        invariant
            i <= s.len(),
            out@ == old(out)@ + escaped(s@.take(i as int)),
        decreases s.len() - i,
    {
        let ghost before = out@;
        let c = s[i];
        if c == '"' {
            out.push('\\');
            out.push('"');
        } else if c == '\\' {
            out.push('\\');
            out.push('\\');
        } else if c == '\n' {
            out.push('\\');
            out.push('n');
        } else if c == '\r' {
            out.push('\\');
            out.push('r');
        } else if c == '\t' {
            out.push('\\');
            out.push('t');
        } else {
            out.push(c);
        }
        proof {
            assert(s@.take(i + 1).drop_last() =~= s@.take(i as int));
            assert(s@.take(i + 1).last() == c);
            assert(out@ =~= before + escaped_char(c));
        }
        i += 1;
    }
    proof {
        assert(s@.take(s.len() as int) =~= s@);
    }
}

/// Appends the string literal that denotes `s` to `out`.
pub fn push_string_literal(out: &mut Vec<char>, s: &[char])
    ensures
        final(out)@ == old(out)@ + string_literal(s@),
{
    out.push('"');
    push_escaped(out, s);
    out.push('"');
    proof {
        assert(out@ =~= old(out)@ + string_literal(s@));
    }
}

/// The expression that the input is bound to.
pub fn normalize_input(input: &[char]) -> (out: Vec<char>)
    ensures
        out@ == normalized_input(input@),
{
    let array: Vec<char> = vec!['&', '['];
    let bytes: Vec<char> = vec!['b', '"'];
    let raw: Vec<char> = vec!['b', 'r', '"'];
    let hashed: Vec<char> = vec!['b', 'r', '#'];
    proof {
        assert(array@ =~= seq!['&', '[']);
        assert(bytes@ =~= seq!['b', '"']);
        assert(raw@ =~= seq!['b', 'r', '"']);
        assert(hashed@ =~= seq!['b', 'r', '#']);
    }
    let mut out: Vec<char> = Vec::new();
    push_all(&mut out, input);
    if starts_with_at(input, array.as_slice(), 0) {
        push_str(&mut out, "[..]");
    } else if starts_with_at(input, bytes.as_slice(), 0) || starts_with_at(
        input,
        raw.as_slice(),
        0,
    ) || starts_with_at(input, hashed.as_slice(), 0) {
        push_str(&mut out, " as &[u8]");
    }
    proof {
        assert(out@ =~= normalized_input(input@));
    }
    out
}

/// The statement that calls the usage on the input.
pub fn invocation_of(usage: &[char]) -> (out: Vec<char>)
    ensures
        out@ == invocation(usage@),
{
    let escaped_bar: Vec<char> = vec!['\\', '|'];
    let bar: Vec<char> = vec!['|'];
    proof {
        assert(escaped_bar@ =~= seq!['\\', '|']);
        assert(bar@ =~= seq!['|']);
    }
    let code = replace_chars(usage, escaped_bar.as_slice(), bar.as_slice());
    let marker = chars_of("let output");
    let mut out: Vec<char> = Vec::new();
    if !starts_with_at(code.as_slice(), marker.as_slice(), 0) {
        push_str(&mut out, "let output: IResult<_, _> = ");
    }
    push_all(&mut out, code.as_slice());
    push_str(&mut out, "(input);");
    proof {
        assert(out@ =~= invocation(usage@));
    }
    out
}

/// Appends the lines that import the items of `refs` to `out`.
fn push_import_lines(out: &mut Vec<char>, refs: &[Reference])
    ensures
        final(out)@ == old(out)@ + import_lines(reference_views(refs@)),
{
    let ghost all = reference_views(refs@);
    let mut i: usize = 0;
    while i < refs.len()
        invariant
            i <= refs.len(),
            all == reference_views(refs@),
            out@ == old(out)@ + import_lines(all.take(i as int)),
        decreases refs.len() - i,
    {
        let ghost before = out@;
        proof {
            assert(all.take(i + 1).drop_last() =~= all.take(i as int));
            assert(all.take(i + 1).last() == refs@[i as int]@);
        }
        let module = chars_of(refs[i].module.as_str());
        if !is_excluded(module.as_slice()) {
            let statement = import_statement_of(&refs[i]);
            push_str(out, "    ");
            push_all(out, statement.as_slice());
            out.push('\n');
            proof {
                assert(out@ =~= before + "    "@ + import_statement(refs@[i as int]@) + seq!['\n']);
            }
        }
        proof {
            assert(out@ =~= old(out)@ + import_lines(all.take(i + 1)));
        }
        i += 1;
    }
    proof {
        assert(all.take(refs.len() as int) =~= all);
    }
}

/// The line of the rendered table for a row, given what its example gave.
/// The row has an example or none: no line is made of half an example.
pub fn row_line_of(row: &Row, output: &[char]) -> (out: Vec<char>)
    requires
        !is_unpaired(row@),
    ensures
        out@ == row_line(row@, output@),
{
    let cell = reference_cell_of(row.references.as_slice());
    let mut out: Vec<char> = Vec::new();
    push_str(&mut out, "| ");
    push_all(&mut out, cell.as_slice());
    match (&row.usage, &row.input) {
        (Some(usage), Some(input)) => {
            let usage_span = format_code(chars_of(usage.as_str()).as_slice());
            let input_span = format_code(chars_of(input.as_str()).as_slice());
            push_str(&mut out, " | ");
            push_all(&mut out, usage_span.as_slice());
            push_str(&mut out, " | ");
            push_all(&mut out, input_span.as_slice());
            push_str(&mut out, " | ");
            push_all(&mut out, output);
            push_str(&mut out, " | ");
        },
        _ => {
            push_str(&mut out, " |  |  |  | ");
        },
    }
    push_str(&mut out, row.description.as_str());
    push_str(&mut out, " |");
    proof {
        assert(out@ =~= row_line(row@, output@));
    }
    out
}

/// How the block of a row with an example starts.
fn example_head_of(row: &Row) -> (out: Vec<char>)
    ensures
        out@ == example_head(row@),
{
    let imports = chars_of(row.imports.as_str());
    let mut out: Vec<char> = Vec::new();
    push_str(&mut out, "{\n");
    if imports.len() > 0 {
        push_str(&mut out, "    ");
        push_all(&mut out, imports.as_slice());
        out.push('\n');
    }
    proof {
        assert(out@ =~= example_head(row@));
    }
    out
}

/// The statement that writes the line of a row with an example.
pub open spec fn line_statement(row: RowView) -> Seq<char> {
    "\n    let output = format_iresult(&input, &output);\n    writeln!(markdown, \"| {urlstrings} | {usage} | {input} | {output} | {desc} |\", urlstrings = "@
        + string_literal(reference_cell(row.references)) + ", usage = "@ + string_literal(
        code_span(row.usage->0),
    ) + ", input = "@ + string_literal(code_span(row.input->0)) + ", desc = "@ + string_literal(
        row.description,
    ) + ")?;\n}\n"@
}

/// The statement that writes the line of a row with this usage and input.
fn line_statement_of(row: &Row, usage: &[char], input: &[char]) -> (out: Vec<char>)
    requires
        row@.usage == Some(usage@),
        row@.input == Some(input@),
    ensures
        out@ == line_statement(row@),
{
    let cell = reference_cell_of(row.references.as_slice());
    let usage_span = format_code(usage);
    let input_span = format_code(input);
    let description = chars_of(row.description.as_str());
    let mut out: Vec<char> = Vec::new();
    push_str(
        &mut out,
        "\n    let output = format_iresult(&input, &output);\n    writeln!(markdown, \"| {urlstrings} | {usage} | {input} | {output} | {desc} |\", urlstrings = ",
    );
    push_string_literal(&mut out, cell.as_slice());
    push_str(&mut out, ", usage = ");
    push_string_literal(&mut out, usage_span.as_slice());
    push_str(&mut out, ", input = ");
    push_string_literal(&mut out, input_span.as_slice());
    push_str(&mut out, ", desc = ");
    push_string_literal(&mut out, description.as_slice());
    push_str(&mut out, ")?;\n}\n");
    proof {
        assert(out@ =~= line_statement(row@));
    }
    out
}

/// How the block of a row with this usage and input ends.
fn example_tail_of(row: &Row, usage: &[char], input: &[char]) -> (out: Vec<char>)
    requires
        row@.usage == Some(usage@),
        row@.input == Some(input@),
    ensures
        out@ == example_tail(row@),
{
    let bound = normalize_input(input);
    let call = invocation_of(usage);
    let statement = line_statement_of(row, usage, input);
    let mut out: Vec<char> = Vec::new();
    push_str(&mut out, "    let input = ");
    push_all(&mut out, bound.as_slice());
    push_str(&mut out, ";\n    ");
    push_all(&mut out, call.as_slice());
    push_all(&mut out, statement.as_slice());
    proof {
        assert(out@ =~= example_tail(row@));
    }
    out
}

/// The block of code made for a row. The row has an example or none: no
/// block is made of half an example.
pub fn row_block_of(row: &Row) -> (out: Vec<char>)
    requires
        !is_unpaired(row@),
    ensures
        out@ == row_block(row@),
{
    match (&row.usage, &row.input) {
        (Some(usage), Some(input)) => {
            let usage_chars = chars_of(usage.as_str());
            let input_chars = chars_of(input.as_str());
            let mut out = example_head_of(row);
            push_import_lines(&mut out, row.references.as_slice());
            let tail = example_tail_of(row, usage_chars.as_slice(), input_chars.as_slice());
            push_all(&mut out, tail.as_slice());
            out
        },
        _ => {
            let mut out: Vec<char> = Vec::new();
            let nothing: Vec<char> = Vec::new();
            let line = row_line_of(row, nothing.as_slice());
            push_str(&mut out, "{\n    writeln!(markdown, \"{}\", ");
            push_string_literal(&mut out, line.as_slice());
            push_str(&mut out, ")?;\n}\n");
            proof {
                assert(nothing@ =~= Seq::<char>::empty());
                assert(out@ =~= row_block(row@));
            }
            out
        },
    }
}

/// `pat` occurs somewhere in `s`.
pub open spec fn occurs_in(s: Seq<char>, pat: Seq<char>) -> bool {
    exists|p: int| matches_at(s, pat, p)
}

/// What occurs in a text occurs in any text around it.
pub proof fn lemma_occurs_in_concat(before: Seq<char>, s: Seq<char>, after: Seq<char>, pat: Seq<char>)
    requires
        occurs_in(s, pat),
    ensures
        occurs_in(before + s + after, pat),
{
    let p = choose|p: int| matches_at(s, pat, p);
    let all = before + s + after;
    assert(all.subrange(before.len() + p, before.len() + p + pat.len()) =~= s.subrange(
        p,
        p + pat.len(),
    ));
    assert(matches_at(all, pat, before.len() + p));
}

/// The import lines of a row hold the import statement of each of its
/// references whose module is not left out.
pub proof fn lemma_import_lines_hold(refs: Seq<ReferenceView>, k: int)
    requires
        0 <= k < refs.len(),
        !is_excluded_module(refs[k].module),
    ensures
        occurs_in(import_lines(refs), import_statement(refs[k])),
    decreases refs.len(),
{
    let statement = import_statement(refs[k]);
    let init = refs.drop_last();
    let empty = Seq::<char>::empty();
    if k == refs.len() - 1 {
        assert(statement.subrange(0, statement.len() as int) =~= statement);
        assert(matches_at(statement, statement, 0));
        lemma_occurs_in_concat(import_lines(init) + "    "@, statement, seq!['\n'], statement);
    } else {
        lemma_import_lines_hold(init, k);
        if is_excluded_module(refs.last().module) {
        } else {
            lemma_occurs_in_concat(
                empty,
                import_lines(init),
                "    "@ + import_statement(refs.last()) + seq!['\n'],
                statement,
            );
            assert(empty + import_lines(init) + ("    "@ + import_statement(refs.last()) + seq![
                '\n',
            ]) =~= import_lines(refs));
        }
    }
}

/// The block of a row with an example holds the import statement of each
/// item that the row stands for and whose module is not left out, whatever
/// other rows propose for the same name.
pub proof fn lemma_block_keeps_import(row: RowView, k: int)
    requires
        is_example(row),
        0 <= k < row.references.len(),
        !is_excluded_module(row.references[k].module),
    ensures
        occurs_in(row_block(row), import_statement(row.references[k])),
{
    lemma_import_lines_hold(row.references, k);
    lemma_occurs_in_concat(
        example_head(row),
        import_lines(row.references),
        example_tail(row),
        import_statement(row.references[k]),
    );
}

} // verus!
