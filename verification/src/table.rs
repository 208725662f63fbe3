//! The grammar of the example tables: separators, rows, the header that
//! introduces a table, and the tables of a whole template.

use vstd::prelude::*;
use crate::codespan::{code_span_at, lemma_closing_fence, parse_code_span};
use crate::reference::{cell_references, reference_views, resolve_cell, Reference, ReferenceView};
use crate::text::{
    as_index, chars_of, copy_range, find, find_from, lemma_find_from, lemma_run_length,
    lemma_skip_blanks_bounds, line_ending_at, line_ending_from, matches_at, run_length,
    skip_blanks, skip_blanks_from, starts_with_at, string_of, trim_end, trim_end_index,
};

verus! {

/// One row of a table: the items it documents, the import statements that
/// its usage starts with, the usage and the input of its example, and its
/// description. A row that gives no reference stands for the items of the
/// row before it.
#[derive(Debug, PartialEq, Eq)]
pub struct Row {
    pub references: Vec<Reference>,
    pub imports: String,
    pub usage: Option<String>,
    pub input: Option<String>,
    pub description: String,
}

/// A `Row` as plain text.
pub struct RowView {
    pub references: Seq<ReferenceView>,
    pub imports: Seq<char>,
    pub usage: Option<Seq<char>>,
    pub input: Option<Seq<char>>,
    pub description: Seq<char>,
}

/// The characters of an optional string.
pub open spec fn option_view(o: Option<String>) -> Option<Seq<char>> {
    match o {
        Some(s) => Some(s@),
        None => None,
    }
}

impl View for Row {
    type V = RowView;

    open spec fn view(&self) -> RowView {
        RowView {
            references: reference_views(self.references@),
            imports: self.imports@,
            usage: option_view(self.usage),
            input: option_view(self.input),
            description: self.description@,
        }
    }
}

/// The views of the rows of a list, in order.
pub open spec fn row_views(rows: Seq<Row>) -> Seq<RowView> {
    rows.map_values(|r: Row| r@)
}

/// One table: the text that precedes its rows, header included, and the rows.
#[derive(Debug, PartialEq, Eq)]
pub struct Table {
    pub preamble: String,
    pub rows: Vec<Row>,
}

/// A `Table` as plain text.
pub struct TableView {
    pub preamble: Seq<char>,
    pub rows: Seq<RowView>,
}

impl View for Table {
    type V = TableView;

    open spec fn view(&self) -> TableView {
        TableView { preamble: self.preamble@, rows: row_views(self.rows@) }
    }
}

/// The views of the tables of a list, in order.
pub open spec fn table_views(tables: Seq<Table>) -> Seq<TableView> {
    tables.map_values(|t: Table| t@)
}

/// The line that ends the header of every table.
pub open spec fn header_sep() -> Seq<char> {
    "|---|---|---|---|---|"@
}

/// What starts an import statement inside a usage: `use` and a space.
pub open spec fn use_keyword() -> Seq<char> {
    seq!['u', 's', 'e', ' ']
}

/// Where a cell separator that starts at `pos` stops: blanks, one `|`, blanks.
pub open spec fn sep_at(s: Seq<char>, pos: int) -> Option<int> {
    let bar = skip_blanks(s, pos);
    if 0 <= bar < s.len() && s[bar] == '|' {
        Some(skip_blanks(s, bar + 1))
    } else {
        None
    }
}

/// The code span at `pos` if one stands there, and where reading goes on.
pub open spec fn optional_span_at(s: Seq<char>, pos: int) -> (Option<Seq<char>>, int) {
    match code_span_at(s, pos) {
        Some((code, end)) => (Some(code), end),
        None => (None, pos),
    }
}

/// Where the import statements that start at `pos` stop: each is `use` and a
/// space, text up to a `;`, the `;`, and blanks.
pub open spec fn imports_end(s: Seq<char>, pos: int) -> int
    decreases s.len() - pos,
{
    if matches_at(s, use_keyword(), pos) {
        match find_from(s, seq![';'], pos + 4) {
            Some(semi) => {
                proof {
                    lemma_find_from(s, seq![';'], pos + 4);
                    lemma_skip_blanks_bounds(s, semi + 1);
                }
                imports_end(s, skip_blanks(s, semi + 1))
            },
            None => pos,
        }
    } else {
        pos
    }
}

/// The row made of the text of its cells.
pub open spec fn row_of(
    cell: Seq<char>,
    usage: Option<Seq<char>>,
    input: Option<Seq<char>>,
    description: Seq<char>,
) -> RowView {
    RowView {
        references: cell_references(cell),
        imports: match usage {
            Some(u) => u.subrange(0, imports_end(u, 0)),
            None => Seq::empty(),
        },
        usage: match usage {
            Some(u) => Some(u.subrange(imports_end(u, 0), u.len() as int)),
            None => None,
        },
        input,
        description,
    }
}

/// The row that starts at `pos`, and the index after its line ending. A row
/// is five cells between `|`: the references, up to the next `|`; the usage
/// and the input, each a code span or nothing; a cell that holds blanks only;
/// the description, up to the next `|`. After the last `|` the line ends.
pub open spec fn row_at(s: Seq<char>, pos: int) -> Option<(RowView, int)> {
    match sep_at(s, pos) {
        None => None,
        Some(cell) => match find_from(s, seq!['|'], cell) {
            None => None,
            Some(bar) => match sep_at(s, bar) {
                None => None,
                Some(usage_start) => {
                    let (usage, usage_end) = optional_span_at(s, usage_start);
                    match sep_at(s, usage_end) {
                        None => None,
                        Some(input_start) => {
                            let (input, input_end) = optional_span_at(s, input_start);
                            match sep_at(s, input_end) {
                                None => None,
                                Some(output) => match sep_at(s, output) {
                                    None => None,
                                    Some(text) => match find_from(s, seq!['|'], text) {
                                        None => None,
                                        Some(last) => match sep_at(s, last) {
                                            None => None,
                                            Some(eol) => match line_ending_at(s, eol) {
                                                None => None,
                                                Some(end) => Some(
                                                    (
                                                        row_of(
                                                            trim_end(s.subrange(cell, bar)),
                                                            usage,
                                                            input,
                                                            trim_end(s.subrange(text, last)),
                                                        ),
                                                        end,
                                                    ),
                                                ),
                                            },
                                        },
                                    },
                                },
                            }
                        },
                    }
                },
            },
        },
    }
}

/// Where a cell separator that starts at `pos` stops, if one starts there.
pub fn sep(s: &[char], pos: usize) -> (r: Option<usize>)
    ensures
        as_index(r) == sep_at(s@, pos as int),
        r matches Some(end) ==> pos < end <= s.len(),
{
    let bar = skip_blanks_from(s, pos);
    if bar < s.len() && s[bar] == '|' {
        Some(skip_blanks_from(s, bar + 1))
    } else {
        None
    }
}

/// Where the import statements at the start of `usage` stop.
pub fn parse_imports_short(usage: &[char]) -> (end: usize)
    ensures
        end == imports_end(usage@, 0),
        end <= usage.len(),
{
    let keyword: Vec<char> = vec!['u', 's', 'e', ' '];
    let semicolon: Vec<char> = vec![';'];
    assert(keyword@ =~= use_keyword());
    assert(semicolon@ =~= seq![';']);
    let mut pos: usize = 0;
    loop
        invariant_except_break
            pos <= usage.len(),
            keyword@ == use_keyword(),
            semicolon@ == seq![';'],
            imports_end(usage@, 0) == imports_end(usage@, pos as int),
        ensures
            pos <= usage.len(),
            pos == imports_end(usage@, 0),
        decreases usage.len() - pos,
    {
        if !starts_with_at(usage, keyword.as_slice(), pos) {
            break;
        }
        match find(usage, semicolon.as_slice(), pos + 4) {
            None => {
                break;
            },
            Some(semi) => {
                proof {
                    lemma_find_from(usage@, seq![';'], pos + 4);
                }
                pos = skip_blanks_from(usage, semi + 1);
            },
        }
    }
    pos
}

/// The code span at `pos` if one stands there, and where reading goes on.
fn optional_span(s: &[char], pos: usize) -> (r: (Option<Vec<char>>, usize))
    ensures
        optional_span_at(s@, pos as int) == (
            match r.0 {
                Some(code) => Some(code@),
                None => None,
            },
            r.1 as int,
        ),
        pos <= r.1,
        pos <= s.len() ==> r.1 <= s.len(),
{
    match parse_code_span(s, pos) {
        Some((code, end)) => (Some(code), end),
        None => (None, pos),
    }
}

/// Reads the row that starts at `pos`: the row, and the index after its line
/// ending; `None` where the text at `pos` is no row.
pub fn parse_combinator(s: &[char], pos: usize) -> (r: Option<(Row, usize)>)
    ensures
        match r {
            Some((row, end)) => row_at(s@, pos as int) == Some((row@, end as int)) && pos < end
                <= s.len(),
            None => row_at(s@, pos as int) is None,
        },
{
    let bar_pat: Vec<char> = vec!['|'];
    assert(bar_pat@ =~= seq!['|']);
    let cell = match sep(s, pos) {
        Some(p) => p,
        None => {
            return None;
        },
    };
    let bar = match find(s, bar_pat.as_slice(), cell) {
        Some(p) => p,
        None => {
            return None;
        },
    };
    proof {
        lemma_find_from(s@, seq!['|'], cell as int);
    }
    let cell_end = trim_end_index(s, cell, bar);
    let usage_start = match sep(s, bar) {
        Some(p) => p,
        None => {
            return None;
        },
    };
    let (usage, usage_end) = optional_span(s, usage_start);
    let input_start = match sep(s, usage_end) {
        Some(p) => p,
        None => {
            return None;
        },
    };
    let (input, input_end) = optional_span(s, input_start);
    let output = match sep(s, input_end) {
        Some(p) => p,
        None => {
            return None;
        },
    };
    let text = match sep(s, output) {
        Some(p) => p,
        None => {
            return None;
        },
    };
    let last = match find(s, bar_pat.as_slice(), text) {
        Some(p) => p,
        None => {
            return None;
        },
    };
    proof {
        lemma_find_from(s@, seq!['|'], text as int);
    }
    let text_end = trim_end_index(s, text, last);
    let eol = match sep(s, last) {
        Some(p) => p,
        None => {
            return None;
        },
    };
    let end = match line_ending_from(s, eol) {
        Some(p) => p,
        None => {
            return None;
        },
    };
    let cell_text = copy_range(s, cell, cell_end);
    let references = resolve_cell(cell_text.as_slice());
    let (imports, usage_text) = match usage {
        Some(u) => {
            let split = parse_imports_short(u.as_slice());
            (
                string_of(copy_range(u.as_slice(), 0, split).as_slice()),
                Some(string_of(copy_range(u.as_slice(), split, u.len()).as_slice())),
            )
        },
        None => (String::new(), None),
    };
    let input_text = match input {
        Some(i) => Some(string_of(i.as_slice())),
        None => None,
    };
    let description = string_of(copy_range(s, text, text_end).as_slice());
    let row = Row { references, imports, usage: usage_text, input: input_text, description };
    Some((row, end))
}

/// The import statements at the start of a usage end inside the usage.
pub proof fn lemma_imports_end_bounds(s: Seq<char>, pos: int)
    requires
        0 <= pos <= s.len(),
    ensures
        pos <= imports_end(s, pos) <= s.len(),
    decreases s.len() - pos,
{
    if matches_at(s, use_keyword(), pos) {
        if let Some(semi) = find_from(s, seq![';'], pos + 4) {
            lemma_find_from(s, seq![';'], pos + 4);
            lemma_skip_blanks_bounds(s, semi + 1);
            lemma_imports_end_bounds(s, skip_blanks(s, semi + 1));
        }
    }
}

/// A row keeps the code span of its usage whole: the import statements and
/// the usage of the row, one after the other, are the text of the span.
pub proof fn lemma_row_of_keeps_usage(
    cell: Seq<char>,
    usage: Seq<char>,
    input: Option<Seq<char>>,
    description: Seq<char>,
)
    ensures
        row_of(cell, Some(usage), input, description).imports + row_of(
            cell,
            Some(usage),
            input,
            description,
        ).usage->0 == usage,
{
    lemma_imports_end_bounds(usage, 0);
    let split = imports_end(usage, 0);
    assert(usage.subrange(0, split) + usage.subrange(split, usage.len() as int) =~= usage);
}

/// A row that starts at `pos` ends after `pos`, inside the text.
pub proof fn lemma_row_at_advances(s: Seq<char>, pos: int)
    requires
        0 <= pos <= s.len(),
    ensures
        row_at(s, pos) matches Some((_, end)) ==> pos < end <= s.len(),
{
    if let Some(cell) = sep_at(s, pos) {
        lemma_sep_at_advances(s, pos);
        lemma_find_from(s, seq!['|'], cell);
        if let Some(bar) = find_from(s, seq!['|'], cell) {
            lemma_sep_at_advances(s, bar);
            if let Some(usage_start) = sep_at(s, bar) {
                lemma_optional_span_at_advances(s, usage_start);
                let (usage, usage_end) = optional_span_at(s, usage_start);
                lemma_sep_at_advances(s, usage_end);
                if let Some(input_start) = sep_at(s, usage_end) {
                    lemma_optional_span_at_advances(s, input_start);
                    let (input, input_end) = optional_span_at(s, input_start);
                    lemma_sep_at_advances(s, input_end);
                    if let Some(output) = sep_at(s, input_end) {
                        lemma_sep_at_advances(s, output);
                        if let Some(text) = sep_at(s, output) {
                            lemma_find_from(s, seq!['|'], text);
                            if let Some(last) = find_from(s, seq!['|'], text) {
                                lemma_sep_at_advances(s, last);
                            }
                        }
                    }
                }
            }
        }
    }
}

/// A cell separator that starts at `pos` ends after `pos`, inside the text.
pub proof fn lemma_sep_at_advances(s: Seq<char>, pos: int)
    requires
        0 <= pos <= s.len(),
    ensures
        sep_at(s, pos) matches Some(end) ==> pos < end <= s.len(),
{
    lemma_skip_blanks_bounds(s, pos);
    let bar = skip_blanks(s, pos);
    if bar < s.len() {
        lemma_skip_blanks_bounds(s, bar + 1);
    }
}

/// Reading an optional code span never goes back, nor beyond the text.
pub proof fn lemma_optional_span_at_advances(s: Seq<char>, pos: int)
    requires
        0 <= pos <= s.len(),
    ensures
        pos <= optional_span_at(s, pos).1 <= s.len(),
{
    let n = run_length(s, '`', pos);
    lemma_run_length(s, '`', pos);
    if n > 0 {
        lemma_closing_fence(s, n, pos + n);
    }
}

/// The rows that follow one another from `pos` on, and the index after the
/// last of them.
pub open spec fn rows_at(s: Seq<char>, pos: int) -> (Seq<RowView>, int)
    decreases s.len() - pos,
{
    if 0 <= pos <= s.len() {
        match row_at(s, pos) {
            Some((row, next)) => {
                proof {
                    lemma_row_at_advances(s, pos);
                }
                let (rest, end) = rows_at(s, next);
                (seq![row] + rest, end)
            },
            None => (Seq::empty(), pos),
        }
    } else {
        (Seq::empty(), pos)
    }
}

/// Where the rows of the next table start: after the first occurrence of the
/// header's last line at or after `pos`, and the line ending that follows it.
pub open spec fn header_at(s: Seq<char>, pos: int) -> Option<int> {
    match find_from(s, header_sep(), pos) {
        Some(mark) => line_ending_at(s, mark + header_sep().len()),
        None => None,
    }
}

/// The table that starts at `pos`, and the index after its last row: the
/// text up to and including the header is its preamble, and at least one row
/// follows.
pub open spec fn table_at(s: Seq<char>, pos: int) -> Option<(TableView, int)> {
    match header_at(s, pos) {
        Some(start) => {
            let (rows, end) = rows_at(s, start);
            if rows.len() > 0 {
                Some((TableView { preamble: s.subrange(pos, start), rows }, end))
            } else {
                None
            }
        },
        None => None,
    }
}

/// Reading rows stops inside the text, and reads a row where one stands at
/// the start.
pub proof fn lemma_rows_at_advances(s: Seq<char>, pos: int)
    requires
        0 <= pos <= s.len(),
    ensures
        pos <= rows_at(s, pos).1 <= s.len(),
        rows_at(s, pos).0.len() > 0 ==> pos < rows_at(s, pos).1,
        rows_at(s, pos).0.len() > 0 <==> row_at(s, pos) is Some,
    decreases s.len() - pos,
{
    lemma_row_at_advances(s, pos);
    if let Some((_, next)) = row_at(s, pos) {
        lemma_rows_at_advances(s, next);
    }
}

/// The rows of a table start after the place where its header was looked
/// for, inside the text.
pub proof fn lemma_header_at_advances(s: Seq<char>, pos: int)
    requires
        0 <= pos <= s.len(),
    ensures
        header_at(s, pos) matches Some(start) ==> pos < start <= s.len(),
{
    lemma_find_from(s, header_sep(), pos);
}

/// A table that starts at `pos` ends after `pos`, inside the text.
pub proof fn lemma_table_at_advances(s: Seq<char>, pos: int)
    requires
        0 <= pos <= s.len(),
    ensures
        table_at(s, pos) matches Some((_, end)) ==> pos < end <= s.len(),
{
    lemma_header_at_advances(s, pos);
    if let Some(start) = header_at(s, pos) {
        lemma_rows_at_advances(s, start);
    }
}

/// The tables that follow one another from `pos` on, and the index after the
/// last of them: where the rest of the text starts.
pub open spec fn tables_at(s: Seq<char>, pos: int) -> (Seq<TableView>, int)
    decreases s.len() - pos,
{
    if 0 <= pos <= s.len() {
        match table_at(s, pos) {
            Some((table, next)) => {
                proof {
                    lemma_table_at_advances(s, pos);
                }
                let (rest, end) = tables_at(s, next);
                (seq![table] + rest, end)
            },
            None => (Seq::empty(), pos),
        }
    } else {
        (Seq::empty(), pos)
    }
}

/// Reading tables stops inside the text, and reads a table where one stands
/// at the start.
pub proof fn lemma_tables_at_advances(s: Seq<char>, pos: int)
    requires
        0 <= pos <= s.len(),
    ensures
        pos <= tables_at(s, pos).1 <= s.len(),
        tables_at(s, pos).0.len() > 0 <==> table_at(s, pos) is Some,
    decreases s.len() - pos,
{
    lemma_table_at_advances(s, pos);
    if let Some((_, next)) = table_at(s, pos) {
        lemma_tables_at_advances(s, next);
    }
}

/// Reads the rows that follow one another from `pos` on.
pub fn parse_rows(s: &[char], pos: usize) -> (r: (Vec<Row>, usize))
    ensures
        rows_at(s@, pos as int) == (row_views(r.0@), r.1 as int),
        pos <= r.1,
        pos <= s.len() ==> r.1 <= s.len(),
{
    let mut rows: Vec<Row> = Vec::new();
    if pos > s.len() {
        proof {
            assert(row_views(rows@) =~= Seq::<RowView>::empty());
        }
        return (rows, pos);
    }
    let mut at: usize = pos;
    proof {
        assert(row_views(rows@) + rows_at(s@, pos as int).0 =~= rows_at(s@, pos as int).0);
    }
    loop
        invariant_except_break
            pos <= at <= s.len(),
            rows_at(s@, pos as int) == (
                row_views(rows@) + rows_at(s@, at as int).0,
                rows_at(s@, at as int).1,
            ),
        ensures
            pos <= at <= s.len(),
            rows_at(s@, pos as int) == (row_views(rows@), at as int),
        decreases s.len() - at,
    {
        let ghost before = row_views(rows@);
        match parse_combinator(s, at) {
            Some((row, next)) => {
                proof {
                    assert(rows_at(s@, at as int).0 == seq![row@] + rows_at(s@, next as int).0);
                }
                rows.push(row);
                proof {
                    assert(row_views(rows@) =~= before.push(row@));
                    assert(row_views(rows@) + rows_at(s@, next as int).0 =~= before + rows_at(
                        s@,
                        at as int,
                    ).0);
                }
                at = next;
            },
            None => {
                proof {
                    assert(row_views(rows@) + Seq::<RowView>::empty() =~= row_views(rows@));
                }
                break;
            },
        }
    }
    (rows, at)
}

/// Where the rows of the next table start, if a header follows `pos`.
pub fn parse_header(s: &[char], pos: usize) -> (r: Option<usize>)
    ensures
        as_index(r) == header_at(s@, pos as int),
        r matches Some(start) ==> pos < start <= s.len(),
{
    let marker = chars_of("|---|---|---|---|---|");
    match find(s, marker.as_slice(), pos) {
        Some(mark) => {
            proof {
                lemma_find_from(s@, header_sep(), pos as int);
                assert(mark + marker.len() <= s.len());
            }
            line_ending_from(s, mark + marker.len())
        },
        None => None,
    }
}

/// Reads the table that starts at `pos`: the text up to and including the
/// next header, and the rows that follow it; `None` where no header follows
/// or no row follows the header.
pub fn parse_preamble_and_combinators(s: &[char], pos: usize) -> (r: Option<(Table, usize)>)
    ensures
        match r {
            Some((table, end)) => table_at(s@, pos as int) == Some((table@, end as int)) && pos
                < end <= s.len(),
            None => table_at(s@, pos as int) is None,
        },
{
    let start = match parse_header(s, pos) {
        Some(p) => p,
        None => {
            return None;
        },
    };
    let (rows, end) = parse_rows(s, start);
    if rows.len() == 0 {
        return None;
    }
    proof {
        lemma_rows_at_advances(s@, start as int);
    }
    let preamble = string_of(copy_range(s, pos, start).as_slice());
    Some((Table { preamble, rows }, end))
}

/// Reads the tables that follow one another from `pos` on, and where the rest
/// of the text starts.
pub fn parse_tables(s: &[char], pos: usize) -> (r: (Vec<Table>, usize))
    ensures
        tables_at(s@, pos as int) == (table_views(r.0@), r.1 as int),
        pos <= r.1,
        pos <= s.len() ==> r.1 <= s.len(),
{
    let mut tables: Vec<Table> = Vec::new();
    if pos > s.len() {
        proof {
            assert(table_views(tables@) =~= Seq::<TableView>::empty());
        }
        return (tables, pos);
    }
    let mut at: usize = pos;
    proof {
        assert(table_views(tables@) + tables_at(s@, pos as int).0 =~= tables_at(
            s@,
            pos as int,
        ).0);
    }
    loop
        invariant_except_break
            pos <= at <= s.len(),
            tables_at(s@, pos as int) == (
                table_views(tables@) + tables_at(s@, at as int).0,
                tables_at(s@, at as int).1,
            ),
        ensures
            pos <= at <= s.len(),
            tables_at(s@, pos as int) == (table_views(tables@), at as int),
        decreases s.len() - at,
    {
        let ghost before = table_views(tables@);
        match parse_preamble_and_combinators(s, at) {
            Some((table, next)) => {
                proof {
                    assert(tables_at(s@, at as int).0 == seq![table@] + tables_at(
                        s@,
                        next as int,
                    ).0);
                }
                tables.push(table);
                proof {
                    assert(table_views(tables@) =~= before.push(table@));
                    assert(table_views(tables@) + tables_at(s@, next as int).0 =~= before
                        + tables_at(s@, at as int).0);
                }
                at = next;
            },
            None => {
                proof {
                    assert(table_views(tables@) + Seq::<TableView>::empty() =~= table_views(
                        tables@,
                    ));
                }
                break;
            },
        }
    }
    (tables, at)
}

} // verus!
