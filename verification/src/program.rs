//! The program that runs the examples of the tables and writes the
//! document.

use vstd::prelude::*;
use crate::resolve::{row_is_complete, tables_are_complete};
use crate::snippet::{is_unpaired, push_string_literal, row_block, row_block_of, string_literal};
use crate::table::{row_views, table_views, RowView, Table, TableView};
use crate::text::{chars_of, push_all, push_str, string_of, string_views};

verus! {

/// The statement that writes `text` into the document as it is.
pub open spec fn write_statement(text: Seq<char>) -> Seq<char> {
    "write!(markdown, \"{}\", "@ + string_literal(text) + ")?;\n"@
}

/// The blocks of the rows, one after the other.
pub open spec fn row_blocks(rows: Seq<RowView>) -> Seq<char>
    decreases rows.len(),
{
    if rows.len() == 0 {
        Seq::empty()
    } else {
        row_blocks(rows.drop_last()) + row_block(rows.last())
    }
}

/// The code for the tables: for each, the statement that writes its preamble
/// and the blocks of its rows.
pub open spec fn tables_code(tables: Seq<TableView>) -> Seq<char>
    decreases tables.len(),
{
    if tables.len() == 0 {
        Seq::empty()
    } else {
        tables_code(tables.drop_last()) + write_statement(tables.last().preamble) + row_blocks(
            tables.last().rows,
        )
    }
}

/// The statements, each on a line of its own.
pub open spec fn statement_lines(statements: Seq<Seq<char>>) -> Seq<char>
    decreases statements.len(),
{
    if statements.len() == 0 {
        Seq::empty()
    } else {
        statement_lines(statements.drop_last()) + statements.last() + seq!['\n']
    }
}

/// What stands between the global imports and the code for the tables.
pub open spec fn generate_prologue() -> Seq<char> {
    "use std::io::Write;\nuse super::{IResult, Result, format_iresult, my_alpha1, number, str};\n\n#[allow(clippy::too_many_lines)]\npub fn generate() -> Result<Vec<u8>> {\nlet mut markdown = Vec::new();\n"@
}

/// What ends the program.
pub open spec fn generate_epilogue() -> Seq<char> {
    "Ok(markdown)\n}\n"@
}

/// The program that runs the examples and writes the document: the global
/// imports, then a function that writes each preamble, runs the block of
/// each row, and writes what follows the last table.
pub open spec fn generated_source(
    imports: Seq<Seq<char>>,
    tables: Seq<TableView>,
    remainder: Seq<char>,
) -> Seq<char> {
    statement_lines(imports) + generate_prologue() + tables_code(tables) + write_statement(
        remainder,
    ) + generate_epilogue()
}

/// Appends the statement that writes `text` into the document.
fn push_write_statement(out: &mut Vec<char>, text: &str)
    ensures
        final(out)@ == old(out)@ + write_statement(text@),
{
    let chars = chars_of(text);
    push_str(out, "write!(markdown, \"{}\", ");
    push_string_literal(out, chars.as_slice());
    push_str(out, ")?;\n");
    proof {
        assert(out@ =~= old(out)@ + write_statement(text@));
    }
}

/// The program that runs the examples of the tables and writes the document.
/// Every row is complete, as the rows of a plan are: no program is made of a
/// row with half an example.
pub fn generate_source(imports: &[String], tables: &[Table], remainder: &str) -> (out: String)
    requires
        tables_are_complete(table_views(tables@)),
    ensures
        out@ == generated_source(string_views(imports@), table_views(tables@), remainder@),
{
    let ghost statements = string_views(imports@);
    let ghost all = table_views(tables@);
    let mut out: Vec<char> = Vec::new();
    let mut i: usize = 0;
    while i < imports.len()
        invariant
            i <= imports.len(),
            statements == string_views(imports@),
            out@ == statement_lines(statements.take(i as int)),
        decreases imports.len() - i,
    {
        proof {
            assert(statements.take(i + 1).drop_last() =~= statements.take(i as int));
            assert(statements.take(i + 1).last() == imports@[i as int]@);
        }
        push_str(&mut out, imports[i].as_str());
        out.push('\n');
        i += 1;
    }
    proof {
        assert(statements.take(imports.len() as int) =~= statements);
    }
    push_str(
        &mut out,
        "use std::io::Write;\nuse super::{IResult, Result, format_iresult, my_alpha1, number, str};\n\n#[allow(clippy::too_many_lines)]\npub fn generate() -> Result<Vec<u8>> {\nlet mut markdown = Vec::new();\n",
    );
    let ghost head = out@;
    let mut t: usize = 0;
    while t < tables.len()
        invariant
            t <= tables.len(),
            all == table_views(tables@),
            tables_are_complete(all),
            out@ == head + tables_code(all.take(t as int)),
        decreases tables.len() - t,
    {
        proof {
            assert(all.take(t + 1).drop_last() =~= all.take(t as int));
            assert(all.take(t + 1).last() == tables@[t as int]@);
        }
        let table = &tables[t];
        push_write_statement(&mut out, table.preamble.as_str());
        let ghost start = out@;
        let ghost rows = row_views(table.rows@);
        proof {
            assert forall|k: int| 0 <= k < rows.len() implies !is_unpaired(#[trigger] rows[k]) by {
                assert(row_is_complete(all[t as int].rows[k]));
            }
        }
        let mut r: usize = 0;
        while r < table.rows.len()
            invariant
                r <= table.rows.len(),
                rows == row_views(table.rows@),
                forall|k: int| 0 <= k < rows.len() ==> !is_unpaired(#[trigger] rows[k]),
                out@ == start + row_blocks(rows.take(r as int)),
            decreases table.rows.len() - r,
        {
            proof {
                assert(rows.take(r + 1).drop_last() =~= rows.take(r as int));
                assert(rows.take(r + 1).last() == table.rows@[r as int]@);
                assert(!is_unpaired(rows[r as int]));
            }
            let block = row_block_of(&table.rows[r]);
            push_all(&mut out, block.as_slice());
            r += 1;
        }
        proof {
            assert(rows.take(table.rows.len() as int) =~= rows);
            assert(out@ =~= head + tables_code(all.take(t + 1)));
        }
        t += 1;
    }
    proof {
        assert(all.take(tables.len() as int) =~= all);
    }
    push_write_statement(&mut out, remainder);
    push_str(&mut out, "Ok(markdown)\n}\n");
    proof {
        assert(out@ =~= generated_source(statements, all, remainder@));
    }
    string_of(out.as_slice())
}

} // verus!
