//! From a template to the document: the plan made of a template, and the
//! document written from the plan and from what its examples gave.

use vstd::prelude::*;
use crate::error::{BuildError, TemplateError};
use crate::imports::{global_imports, imports_of};
use crate::resolve::{
    lemma_unpaired_example_refused, resolve_tables, resolved_tables, row_is_complete,
    tables_are_complete,
};
use crate::segment::{code_blocks_of, do_code_blocks, example_views, Example, ExampleView};
use crate::snippet::{
    is_example, is_unpaired, lemma_occurs_in_concat, occurs_in, row_line, row_line_of,
};
use crate::table::{
    header_at, parse_header, parse_tables, row_views, table_views, tables_at, Row, RowView, Table,
    TableView,
};
use crate::text::{chars_of, copy_range, matches_at, push_all, push_str, string_of, string_views};

verus! {

/// The number of rows with an example.
pub open spec fn example_count(rows: Seq<RowView>) -> nat
    decreases rows.len(),
{
    if rows.len() == 0 {
        0
    } else if is_example(rows.last()) {
        example_count(rows.drop_last()) + 1
    } else {
        example_count(rows.drop_last())
    }
}

/// The number of rows with an example in all the tables.
pub open spec fn examples_in(tables: Seq<TableView>) -> nat
    decreases tables.len(),
{
    if tables.len() == 0 {
        0
    } else {
        examples_in(tables.drop_last()) + example_count(tables.last().rows)
    }
}

/// The output for a row that has `before` examples before it.
pub open spec fn output_for(row: RowView, outputs: Seq<Seq<char>>, before: int) -> Seq<char> {
    if is_example(row) && 0 <= before < outputs.len() {
        outputs[before]
    } else {
        Seq::empty()
    }
}

/// The lines of the rows, each ended by a line feed. The outputs are those
/// of the rows with an example, in order; `base` of them belong to rows
/// before these.
pub open spec fn rendered_rows(rows: Seq<RowView>, outputs: Seq<Seq<char>>, base: int) -> Seq<
    char,
>
    decreases rows.len(),
{
    if rows.len() == 0 {
        Seq::empty()
    } else {
        rendered_rows(rows.drop_last(), outputs, base) + row_line(
            rows.last(),
            output_for(rows.last(), outputs, base + example_count(rows.drop_last())),
        ) + seq!['\n']
    }
}

/// The tables as they stand in the document: each preamble as it is, then
/// the lines of the rows.
pub open spec fn rendered_tables(tables: Seq<TableView>, outputs: Seq<Seq<char>>) -> Seq<char>
    decreases tables.len(),
{
    if tables.len() == 0 {
        Seq::empty()
    } else {
        rendered_tables(tables.drop_last(), outputs) + tables.last().preamble + rendered_rows(
            tables.last().rows,
            outputs,
            examples_in(tables.drop_last()) as int,
        )
    }
}

/// The document: the tables and what follows the last of them, where there
/// is one output for each row with an example.
pub open spec fn document(
    tables: Seq<TableView>,
    outputs: Seq<Seq<char>>,
    remainder: Seq<char>,
) -> Result<Seq<char>, BuildError> {
    if outputs.len() == examples_in(tables) {
        Ok(rendered_tables(tables, outputs) + remainder)
    } else {
        Err(BuildError::OutputCount { found: outputs.len() as usize })
    }
}

/// Appends the lines of the rows to `out`, and returns how many outputs
/// belong to rows up to the last of these; `None` where the outputs run out.
fn render_rows(out: &mut Vec<char>, rows: &[Row], outputs: &[String], base: usize) -> (r: Option<
    usize,
>)
    requires
        base <= outputs.len(),
        forall|i: int| 0 <= i < rows.len() ==> !is_unpaired(#[trigger] row_views(rows@)[i]),
    ensures
        match r {
            Some(next) => next == base + example_count(row_views(rows@)) && next <= outputs.len()
                && final(out)@ == old(out)@ + rendered_rows(
                row_views(rows@),
                string_views(outputs@),
                base as int,
            ),
            None => base + example_count(row_views(rows@)) > outputs.len(),
        },
{
    let ghost all = row_views(rows@);
    let ghost texts = string_views(outputs@);
    let mut next: usize = base;
    let mut i: usize = 0;
    while i < rows.len()
        invariant
            i <= rows.len(),
            all == row_views(rows@),
            texts == string_views(outputs@),
            forall|k: int| 0 <= k < rows.len() ==> !is_unpaired(#[trigger] all[k]),
            next == base + example_count(all.take(i as int)),
            next <= outputs.len(),
            out@ == old(out)@ + rendered_rows(all.take(i as int), texts, base as int),
        decreases rows.len() - i,
    {
        proof {
            assert(all.take(i + 1).drop_last() =~= all.take(i as int));
            assert(all.take(i + 1).last() == rows@[i as int]@);
            assert(!is_unpaired(all[i as int]));
        }
        let row = &rows[i];
        let ghost before = out@;
        if row.usage.is_some() && row.input.is_some() {
            if next >= outputs.len() {
                proof {
                    lemma_example_count_grows(all, i + 1);
                }
                return None;
            }
            let output = chars_of(outputs[next].as_str());
            let line = row_line_of(row, output.as_slice());
            push_all(out, line.as_slice());
            out.push('\n');
            next += 1;
        } else {
            let nothing: Vec<char> = Vec::new();
            assert(nothing@ =~= Seq::<char>::empty());
            let line = row_line_of(row, nothing.as_slice());
            push_all(out, line.as_slice());
            out.push('\n');
        }
        proof {
            assert(out@ =~= old(out)@ + rendered_rows(all.take(i + 1), texts, base as int));
        }
        i += 1;
    }
    proof {
        assert(all.take(rows.len() as int) =~= all);
    }
    Some(next)
}

/// Writes the document: each preamble as it is, each row as a line of the
/// table with what its example gave, and what follows the last table as it
/// is. `outputs` holds one text for each row with an example, in order; any
/// other number of them is refused. Every row is complete, as the rows of a
/// plan are: no document is made of a row with half an example.
pub fn render_document(tables: &[Table], outputs: &[String], remainder: &str) -> (r: Result<
    String,
    BuildError,
>)
    requires
        tables_are_complete(table_views(tables@)),
    ensures
        match r {
            Ok(text) => document(table_views(tables@), string_views(outputs@), remainder@) == Ok::<
                Seq<char>,
                BuildError,
            >(text@),
            Err(e) => document(table_views(tables@), string_views(outputs@), remainder@) == Err::<
                Seq<char>,
                BuildError,
            >(e),
        },
{
    let ghost all = table_views(tables@);
    let ghost texts = string_views(outputs@);
    let mut out: Vec<char> = Vec::new();
    let mut next: usize = 0;
    let mut t: usize = 0;
    let mut short: bool = false;
    while t < tables.len() && !short
        invariant
            t <= tables.len(),
            all == table_views(tables@),
            texts == string_views(outputs@),
            tables_are_complete(all),
            short ==> examples_in(all) > outputs.len(),
            !short ==> next == examples_in(all.take(t as int)),
            !short ==> next <= outputs.len(),
            !short ==> out@ == rendered_tables(all.take(t as int), texts),
        decreases tables.len() - t,
    {
        proof {
            assert(all.take(t + 1).drop_last() =~= all.take(t as int));
            assert(all.take(t + 1).last() == tables@[t as int]@);
            lemma_examples_in_grows(all, t + 1);
        }
        let table = &tables[t];
        proof {
            assert forall|i: int| 0 <= i < table.rows.len() implies !is_unpaired(
                #[trigger] row_views(table.rows@)[i],
            ) by {
                assert(row_is_complete(all[t as int].rows[i]));
            }
        }
        push_str(&mut out, table.preamble.as_str());
        match render_rows(&mut out, table.rows.as_slice(), outputs, next) {
            Some(after) => {
                next = after;
                proof {
                    assert(out@ =~= rendered_tables(all.take(t + 1), texts));
                }
            },
            None => {
                short = true;
            },
        }
        t += 1;
    }
    proof {
        if !short {
            assert(all.take(tables.len() as int) =~= all);
        }
    }
    if short || next != outputs.len() {
        return Err(BuildError::OutputCount { found: outputs.len() });
    }
    push_str(&mut out, remainder);
    Ok(string_of(out.as_slice()))
}

/// What is made of a template before its examples are run: the tables, each
/// row with the references that it stands for; what follows the last table;
/// the global imports; and the code blocks to run.
#[derive(Debug, PartialEq, Eq)]
pub struct Plan {
    pub tables: Vec<Table>,
    pub remainder: String,
    pub imports: Vec<String>,
    pub examples: Vec<Example>,
}

/// A `Plan` as plain values.
pub struct PlanView {
    pub tables: Seq<TableView>,
    pub remainder: Seq<char>,
    pub imports: Seq<Seq<char>>,
    pub examples: Seq<ExampleView>,
}

impl View for Plan {
    type V = PlanView;

    open spec fn view(&self) -> PlanView {
        PlanView {
            tables: table_views(self.tables@),
            remainder: self.remainder@,
            imports: string_views(self.imports@),
            examples: example_views(self.examples@),
        }
    }
}

/// The tables of a text and where the rest of it starts. A text without a
/// header is refused, and so is one whose first header is not followed by a
/// row.
pub open spec fn tables_of(text: Seq<char>) -> Result<(Seq<TableView>, int), TemplateError> {
    let (tables, rest) = tables_at(text, 0);
    if tables.len() > 0 {
        Ok((tables, rest))
    } else {
        match header_at(text, 0) {
            Some(start) => Err(TemplateError::MalformedRow { position: start as usize }),
            None => Err(TemplateError::MissingHeader),
        }
    }
}

/// The plan for a template: its code blocks are read and written out again,
/// the tables are read from what was written, each row is given the
/// references that it stands for, and the global imports are those that the
/// rows propose.
pub open spec fn planned(template: Seq<char>) -> Result<PlanView, BuildError> {
    match code_blocks_of(template) {
        Err(e) => Err(BuildError::Template(e)),
        Ok((text, examples)) => match tables_of(text) {
            Err(e) => Err(BuildError::Template(e)),
            Ok((tables, rest)) => match resolved_tables(Seq::empty(), tables) {
                Err(e) => Err(e),
                Ok((resolved, _)) => Ok(
                    PlanView {
                        tables: resolved,
                        remainder: text.subrange(rest, text.len() as int),
                        imports: imports_of(resolved),
                        examples,
                    },
                ),
            },
        },
    }
}

/// The document for a template and what its examples gave.
pub open spec fn compiled(template: Seq<char>, outputs: Seq<Seq<char>>) -> Result<
    Seq<char>,
    BuildError,
> {
    match planned(template) {
        Err(e) => Err(e),
        Ok(plan) => document(plan.tables, outputs, plan.remainder),
    }
}

/// Reads the tables of a text, and where the rest of it starts.
pub fn read_tables(text: &[char]) -> (r: Result<(Vec<Table>, usize), TemplateError>)
    ensures
        match r {
            Ok((tables, rest)) => tables_of(text@) == Ok::<(Seq<TableView>, int), TemplateError>(
                (table_views(tables@), rest as int),
            ) && rest <= text.len(),
            Err(e) => tables_of(text@) == Err::<(Seq<TableView>, int), TemplateError>(e),
        },
{
    let (tables, rest) = parse_tables(text, 0);
    if tables.len() > 0 {
        return Ok((tables, rest));
    }
    match parse_header(text, 0) {
        Some(start) => Err(TemplateError::MalformedRow { position: start }),
        None => Err(TemplateError::MissingHeader),
    }
}

/// Makes the plan for a template. A template that cannot be read is refused;
/// so is a row that stands for no reference, and a row with a usage without
/// an input or an input without a usage. Every row of a plan is complete.
pub fn plan(template: &str) -> (r: Result<Plan, BuildError>)
    ensures
        match r {
            Ok(plan) => planned(template@) == Ok::<PlanView, BuildError>(plan@)
                && tables_are_complete(plan@.tables),
            Err(e) => planned(template@) == Err::<PlanView, BuildError>(e),
        },
{
    let blocks = match do_code_blocks(template) {
        Ok(blocks) => blocks,
        Err(e) => {
            return Err(BuildError::Template(e));
        },
    };
    let text = chars_of(blocks.text.as_str());
    let (tables, rest) = match read_tables(text.as_slice()) {
        Ok(found) => found,
        Err(e) => {
            return Err(BuildError::Template(e));
        },
    };
    let resolved = match resolve_tables(tables.as_slice()) {
        Ok(resolved) => resolved,
        Err(e) => {
            return Err(e);
        },
    };
    let imports = global_imports(resolved.as_slice());
    let remainder = string_of(copy_range(text.as_slice(), rest, text.len()).as_slice());
    Ok(Plan { tables: resolved, remainder, imports, examples: blocks.examples })
}

/// Makes the document of a template and what its examples gave: one text for
/// each row with an example, in order.
pub fn compile(template: &str, outputs: &[String]) -> (r: Result<String, BuildError>)
    ensures
        match r {
            Ok(text) => compiled(template@, string_views(outputs@)) == Ok::<Seq<char>, BuildError>(
                text@,
            ),
            Err(e) => compiled(template@, string_views(outputs@)) == Err::<Seq<char>, BuildError>(
                e,
            ),
        },
{
    match plan(template) {
        Err(e) => Err(e),
        Ok(plan) => render_document(plan.tables.as_slice(), outputs, plan.remainder.as_str()),
    }
}

/// What a result of `compile` is as plain values.
pub open spec fn result_view(r: Result<String, BuildError>) -> Result<Seq<char>, BuildError> {
    match r {
        Ok(text) => Ok(text@),
        Err(e) => Err(e),
    }
}

/// The first rows of a table hold no more examples than the table.
pub proof fn lemma_example_count_grows(rows: Seq<RowView>, n: int)
    requires
        0 <= n <= rows.len(),
    ensures
        example_count(rows.take(n)) <= example_count(rows),
    decreases rows.len(),
{
    if n == rows.len() {
        assert(rows.take(n) =~= rows);
    } else {
        lemma_example_count_grows(rows.drop_last(), n);
        assert(rows.drop_last().take(n) =~= rows.take(n));
    }
}

/// The first tables hold no more examples than all of them.
pub proof fn lemma_examples_in_grows(tables: Seq<TableView>, n: int)
    requires
        0 <= n <= tables.len(),
    ensures
        examples_in(tables.take(n)) <= examples_in(tables),
    decreases tables.len(),
{
    if n == tables.len() {
        assert(tables.take(n) =~= tables);
    } else {
        lemma_examples_in_grows(tables.drop_last(), n);
        assert(tables.drop_last().take(n) =~= tables.take(n));
    }
}

/// The document holds the preamble of every table as it is.
pub proof fn lemma_rendered_tables_keep_preambles(
    tables: Seq<TableView>,
    outputs: Seq<Seq<char>>,
    t: int,
)
    requires
        0 <= t < tables.len(),
    ensures
        occurs_in(rendered_tables(tables, outputs), tables[t].preamble),
    decreases tables.len(),
{
    let init = tables.drop_last();
    let last = tables.last();
    let rows = rendered_rows(last.rows, outputs, examples_in(init) as int);
    let preamble = tables[t].preamble;
    if t == tables.len() - 1 {
        assert(preamble.subrange(0, preamble.len() as int) =~= preamble);
        assert(matches_at(preamble, preamble, 0));
        lemma_occurs_in_concat(rendered_tables(init, outputs), preamble, rows, preamble);
    } else {
        lemma_rendered_tables_keep_preambles(init, outputs, t);
        lemma_occurs_in_concat(
            Seq::empty(),
            rendered_tables(init, outputs),
            last.preamble + rows,
            preamble,
        );
        assert(Seq::<char>::empty() + rendered_tables(init, outputs) + (last.preamble + rows)
            =~= rendered_tables(tables, outputs));
    }
}

/// Fidelity. A document holds the preamble of every table as it is, and ends
/// with what follows the last table, as it is.
pub proof fn lemma_document_keeps_text(
    tables: Seq<TableView>,
    outputs: Seq<Seq<char>>,
    remainder: Seq<char>,
    t: int,
)
    requires
        document(tables, outputs, remainder) is Ok,
        0 <= t < tables.len(),
    ensures
        occurs_in(document(tables, outputs, remainder)->Ok_0, tables[t].preamble),
        matches_at(
            document(tables, outputs, remainder)->Ok_0,
            remainder,
            document(tables, outputs, remainder)->Ok_0.len() - remainder.len(),
        ),
{
    let text = document(tables, outputs, remainder)->Ok_0;
    let body = rendered_tables(tables, outputs);
    lemma_rendered_tables_keep_preambles(tables, outputs, t);
    lemma_occurs_in_concat(Seq::empty(), body, remainder, tables[t].preamble);
    assert(Seq::<char>::empty() + body + remainder =~= text);
    assert(text.subrange(text.len() - remainder.len(), text.len() as int) =~= remainder);
}

/// Idempotence. Two runs on one template with the same outputs of its
/// examples give the same document, character for character, or are refused
/// for the same reason.
pub proof fn lemma_compile_idempotent(
    template: Seq<char>,
    outputs: Seq<Seq<char>>,
    first: Result<String, BuildError>,
    second: Result<String, BuildError>,
)
    requires
        result_view(first) == compiled(template, outputs),
        result_view(second) == compiled(template, outputs),
    ensures
        result_view(first) == result_view(second),
        first is Ok ==> second is Ok && first->Ok_0@ == second->Ok_0@,
        first matches Err(e) ==> second == Err::<String, BuildError>(e),
{
}

/// Malformed row rejection, for a template. No document is made of a
/// template that has, among the tables read from it, a row with a usage
/// without an input or an input without a usage.
pub proof fn lemma_compile_refuses_unpaired(
    template: Seq<char>,
    outputs: Seq<Seq<char>>,
    t: int,
    i: int,
)
    requires
        code_blocks_of(template) is Ok,
        tables_of(code_blocks_of(template)->Ok_0.0) matches Ok((tables, _)) && 0 <= t
            < tables.len() && 0 <= i < tables[t].rows.len() && is_unpaired(tables[t].rows[i]),
    ensures
        compiled(template, outputs) is Err,
{
    let tables = tables_of(code_blocks_of(template)->Ok_0.0)->Ok_0.0;
    lemma_unpaired_example_refused(tables, t, i);
}

} // verus!
