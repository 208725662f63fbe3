//! Carry-forward: giving each row the references that it stands for, its
//! own or those of the row before it.

use vstd::prelude::*;
use crate::error::BuildError;
use crate::reference::{reference_cell, reference_views, Reference, ReferenceView};
use crate::snippet::is_unpaired;
use crate::table::{row_views, table_views, Row, RowView, Table, TableView};

verus! {

/// The references that a row stands for: its own, or, where it gives none,
/// those of the row before it.
pub open spec fn carried(previous: Seq<ReferenceView>, row: RowView) -> Seq<ReferenceView> {
    if row.references.len() == 0 {
        previous
    } else {
        row.references
    }
}

/// The row with the references that it stands for.
pub open spec fn with_references(row: RowView, references: Seq<ReferenceView>) -> RowView {
    RowView {
        references,
        imports: row.imports,
        usage: row.usage,
        input: row.input,
        description: row.description,
    }
}

/// The rows of the table with index `table`, each with the references that
/// it stands for, and the references of the last of them; `previous` are
/// those of the row before the first. The first row, in order, that stands
/// for no reference or has half an example is refused.
pub open spec fn resolved_rows(
    previous: Seq<ReferenceView>,
    rows: Seq<RowView>,
    table: int,
) -> Result<(Seq<RowView>, Seq<ReferenceView>), BuildError>
    decreases rows.len(),
{
    if rows.len() == 0 {
        Ok((Seq::empty(), previous))
    } else {
        match resolved_rows(previous, rows.drop_last(), table) {
            Err(e) => Err(e),
            Ok((head, before)) => {
                let references = carried(before, rows.last());
                let row = (rows.len() - 1) as usize;
                if references.len() == 0 {
                    Err(BuildError::MissingReferences { table: table as usize, row })
                } else if is_unpaired(rows.last()) {
                    Err(BuildError::UnpairedExample { table: table as usize, row })
                } else {
                    Ok((head.push(with_references(rows.last(), references)), references))
                }
            },
        }
    }
}

/// The tables, each row with the references that it stands for, and the
/// references of the last row; a row that gives none stands for those of the
/// row before it, be that the last row of the table before.
pub open spec fn resolved_tables(
    previous: Seq<ReferenceView>,
    tables: Seq<TableView>,
) -> Result<(Seq<TableView>, Seq<ReferenceView>), BuildError>
    decreases tables.len(),
{
    if tables.len() == 0 {
        Ok((Seq::empty(), previous))
    } else {
        match resolved_tables(previous, tables.drop_last()) {
            Err(e) => Err(e),
            Ok((head, before)) => match resolved_rows(
                before,
                tables.last().rows,
                tables.len() - 1,
            ) {
                Err(e) => Err(e),
                Ok((rows, references)) => Ok(
                    (head.push(TableView { preamble: tables.last().preamble, rows }), references),
                ),
            },
        }
    }
}

/// The row stands for at least one item, and has an example or none: both a
/// usage and an input, or neither.
pub open spec fn row_is_complete(row: RowView) -> bool {
    row.references.len() > 0 && !is_unpaired(row)
}

/// Every row of every table is complete.
pub open spec fn tables_are_complete(tables: Seq<TableView>) -> bool {
    forall|t: int, r: int|
        0 <= t < tables.len() && 0 <= r < tables[t].rows.len() ==> row_is_complete(
            #[trigger] tables[t].rows[r],
        )
}

/// Whether the row stands for at least one item, and has an example or none.
pub fn row_complete(row: &Row) -> (b: bool)
    ensures
        b == row_is_complete(row@),
{
    row.references.len() > 0 && row.usage.is_some() == row.input.is_some()
}

/// Whether every row of every table is complete.
pub fn tables_complete(tables: &[Table]) -> (b: bool)
    ensures
        b == tables_are_complete(table_views(tables@)),
{
    let ghost all = table_views(tables@);
    let mut t: usize = 0;
    while t < tables.len()
        invariant
            t <= tables.len(),
            all == table_views(tables@),
            forall|i: int, r: int|
                0 <= i < t && 0 <= r < all[i].rows.len() ==> row_is_complete(
                    #[trigger] all[i].rows[r],
                ),
        decreases tables.len() - t,
    {
        let table = &tables[t];
        let ghost rows = row_views(table.rows@);
        let mut r: usize = 0;
        while r < table.rows.len()
            invariant
                r <= table.rows.len(),
                t < tables.len(),
                all == table_views(tables@),
                table == &tables@[t as int],
                rows == row_views(table.rows@),
                rows == all[t as int].rows,
                forall|k: int| 0 <= k < r ==> row_is_complete(#[trigger] rows[k]),
            decreases table.rows.len() - r,
        {
            if !row_complete(&table.rows[r]) {
                proof {
                    assert(!row_is_complete(all[t as int].rows[r as int]));
                }
                return false;
            }
            r += 1;
        }
        t += 1;
    }
    true
}

/// A copy of the references.
pub fn clone_references(references: &[Reference]) -> (out: Vec<Reference>)
    ensures
        out@ == references@,
{
    let mut out: Vec<Reference> = Vec::new();
    let mut i: usize = 0;
    while i < references.len()
        invariant
            i <= references.len(),
            out@ == references@.take(i as int),
        decreases references.len() - i,
    {
        out.push(references[i].clone());
        proof {
            assert(references@.take(i + 1) =~= references@.take(i as int).push(
                references@[i as int],
            ));
        }
        i += 1;
    }
    proof {
        assert(references@.take(references.len() as int) =~= references@);
    }
    out
}

/// A copy of an optional string.
fn clone_optional(text: &Option<String>) -> (out: Option<String>)
    ensures
        out == *text,
{
    match text {
        Some(s) => Some(s.clone()),
        None => None,
    }
}

/// Gives each row of the table with index `table` the references that it
/// stands for.
pub fn resolve_rows(previous: Vec<Reference>, rows: &[Row], table: usize) -> (r: Result<
    (Vec<Row>, Vec<Reference>),
    BuildError,
>)
    ensures
        match r {
            Ok((out, last)) => resolved_rows(
                reference_views(previous@),
                row_views(rows@),
                table as int,
            ) == Ok::<(Seq<RowView>, Seq<ReferenceView>), BuildError>(
                (row_views(out@), reference_views(last@)),
            ),
            Err(e) => resolved_rows(reference_views(previous@), row_views(rows@), table as int)
                == Err::<(Seq<RowView>, Seq<ReferenceView>), BuildError>(e),
        },
{
    let ghost start = reference_views(previous@);
    let ghost all = row_views(rows@);
    let mut out: Vec<Row> = Vec::new();
    let mut last = previous;
    let mut i: usize = 0;
    proof {
        assert(row_views(out@) =~= Seq::<RowView>::empty());
        assert(all.take(0) =~= Seq::<RowView>::empty());
    }
    while i < rows.len()
        invariant
            i <= rows.len(),
            all == row_views(rows@),
            start == reference_views(previous@),
            resolved_rows(start, all.take(i as int), table as int) == Ok::<
                (Seq<RowView>, Seq<ReferenceView>),
                BuildError,
            >((row_views(out@), reference_views(last@))),
        decreases rows.len() - i,
    {
        let row = &rows[i];
        proof {
            assert(all.take(i + 1).drop_last() =~= all.take(i as int));
            assert(all.take(i + 1).last() == row@);
        }
        if row.references.len() > 0 {
            last = clone_references(row.references.as_slice());
        }
        let ghost next = all.take(i + 1);
        proof {
            assert(reference_views(last@) == carried(
                resolved_rows(start, all.take(i as int), table as int)->Ok_0.1,
                row@,
            ));
        }
        if last.len() == 0 {
            proof {
                assert(resolved_rows(start, next, table as int) == Err::<
                    (Seq<RowView>, Seq<ReferenceView>),
                    BuildError,
                >(BuildError::MissingReferences { table, row: i }));
                lemma_resolved_rows_error_stays(start, all, table as int, i + 1);
            }
            return Err(BuildError::MissingReferences { table, row: i });
        }
        if row.usage.is_some() != row.input.is_some() {
            proof {
                assert(resolved_rows(start, next, table as int) == Err::<
                    (Seq<RowView>, Seq<ReferenceView>),
                    BuildError,
                >(BuildError::UnpairedExample { table, row: i }));
                lemma_resolved_rows_error_stays(start, all, table as int, i + 1);
            }
            return Err(BuildError::UnpairedExample { table, row: i });
        }
        let ghost before = row_views(out@);
        let resolved = Row {
            references: clone_references(last.as_slice()),
            imports: row.imports.clone(),
            usage: clone_optional(&row.usage),
            input: clone_optional(&row.input),
            description: row.description.clone(),
        };
        out.push(resolved);
        proof {
            assert(row_views(out@) =~= before.push(resolved@));
        }
        i += 1;
    }
    proof {
        assert(all.take(rows.len() as int) =~= all);
    }
    Ok((out, last))
}

/// Gives each row of the tables the references that it stands for: its own,
/// or those of the row before it. The first row that stands for none, or that
/// has a usage without an input or an input without a usage, is refused.
pub fn resolve_tables(tables: &[Table]) -> (r: Result<Vec<Table>, BuildError>)
    ensures
        match r {
            Ok(out) => resolved_tables(Seq::empty(), table_views(tables@)) matches Ok((views, _))
                && views == table_views(out@) && tables_are_complete(table_views(out@)),
            Err(e) => resolved_tables(Seq::empty(), table_views(tables@)) == Err::<
                (Seq<TableView>, Seq<ReferenceView>),
                BuildError,
            >(e),
        },
{
    let ghost all = table_views(tables@);
    let ghost start = Seq::<ReferenceView>::empty();
    let mut out: Vec<Table> = Vec::new();
    let mut last: Vec<Reference> = Vec::new();
    let mut i: usize = 0;
    proof {
        assert(reference_views(last@) =~= start);
        assert(table_views(out@) =~= Seq::<TableView>::empty());
        assert(all.take(0) =~= Seq::<TableView>::empty());
    }
    while i < tables.len()
        invariant
            i <= tables.len(),
            all == table_views(tables@),
            start == Seq::<ReferenceView>::empty(),
            resolved_tables(start, all.take(i as int)) == Ok::<
                (Seq<TableView>, Seq<ReferenceView>),
                BuildError,
            >((table_views(out@), reference_views(last@))),
        decreases tables.len() - i,
    {
        let table = &tables[i];
        proof {
            assert(all.take(i + 1).drop_last() =~= all.take(i as int));
            assert(all.take(i + 1).last() == table@);
        }
        match resolve_rows(last, table.rows.as_slice(), i) {
            Err(e) => {
                proof {
                    assert(resolved_tables(start, all.take(i + 1)) == Err::<
                        (Seq<TableView>, Seq<ReferenceView>),
                        BuildError,
                    >(e));
                    lemma_resolved_tables_error_stays(start, all, i + 1);
                }
                return Err(e);
            },
            Ok((rows, references)) => {
                let ghost before = table_views(out@);
                let resolved = Table { preamble: table.preamble.clone(), rows };
                out.push(resolved);
                proof {
                    assert(table_views(out@) =~= before.push(resolved@));
                }
                last = references;
            },
        }
        i += 1;
    }
    proof {
        assert(all.take(tables.len() as int) =~= all);
    }
    proof {
        lemma_resolved_tables_complete(start, all);
    }
    Ok(out)
}

/// Once the first rows of a table are refused, the table is, and for the
/// same reason.
pub proof fn lemma_resolved_rows_error_stays(
    previous: Seq<ReferenceView>,
    rows: Seq<RowView>,
    table: int,
    n: int,
)
    requires
        0 <= n <= rows.len(),
        resolved_rows(previous, rows.take(n), table) is Err,
    ensures
        resolved_rows(previous, rows, table) == resolved_rows(previous, rows.take(n), table),
    decreases rows.len() - n,
{
    if n < rows.len() {
        assert(rows.take(n + 1).drop_last() =~= rows.take(n));
        lemma_resolved_rows_error_stays(previous, rows, table, n + 1);
    } else {
        assert(rows.take(n) =~= rows);
    }
}

/// Once the first tables are refused, all are, and for the same reason.
pub proof fn lemma_resolved_tables_error_stays(
    previous: Seq<ReferenceView>,
    tables: Seq<TableView>,
    n: int,
)
    requires
        0 <= n <= tables.len(),
        resolved_tables(previous, tables.take(n)) is Err,
    ensures
        resolved_tables(previous, tables) == resolved_tables(previous, tables.take(n)),
    decreases tables.len() - n,
{
    if n < tables.len() {
        assert(tables.take(n + 1).drop_last() =~= tables.take(n));
        lemma_resolved_tables_error_stays(previous, tables, n + 1);
    } else {
        assert(tables.take(n) =~= tables);
    }
}

/// Where the rows of a table are accepted, so are the first `n` of them, with
/// the same result for each; and each row stands for the references that
/// were carried to it.
pub proof fn lemma_resolved_rows_prefix(
    previous: Seq<ReferenceView>,
    rows: Seq<RowView>,
    table: int,
    n: int,
)
    requires
        resolved_rows(previous, rows, table) is Ok,
        0 <= n <= rows.len(),
    ensures
        resolved_rows(previous, rows, table)->Ok_0.0.len() == rows.len(),
        resolved_rows(previous, rows.take(n), table) is Ok,
        resolved_rows(previous, rows.take(n), table)->Ok_0.0 == resolved_rows(
            previous,
            rows,
            table,
        )->Ok_0.0.take(n),
        n > 0 ==> resolved_rows(previous, rows.take(n), table)->Ok_0.1 == resolved_rows(
            previous,
            rows,
            table,
        )->Ok_0.0[n - 1].references,
        n > 0 ==> resolved_rows(previous, rows, table)->Ok_0.0[n - 1] == with_references(
            rows[n - 1],
            carried(resolved_rows(previous, rows.take(n - 1), table)->Ok_0.1, rows[n - 1]),
        ),
        n == 0 ==> resolved_rows(previous, rows.take(n), table)->Ok_0.1 == previous,
    decreases rows.len(),
{
    let full = resolved_rows(previous, rows, table)->Ok_0.0;
    if rows.len() == 0 {
        assert(rows.take(n) =~= rows);
        assert(full.take(n) =~= full);
    } else {
        let init = rows.drop_last();
        lemma_resolved_rows_prefix(previous, init, table, init.len() as int);
        assert(init.take(init.len() as int) =~= init);
        if n == rows.len() {
            assert(rows.take(n) =~= rows);
            assert(full.take(n) =~= full);
            assert(rows.take(n - 1) =~= init);
        } else {
            lemma_resolved_rows_prefix(previous, init, table, n);
            assert(init.take(n) =~= rows.take(n));
            let head = resolved_rows(previous, init, table)->Ok_0.0;
            assert(head.take(n) =~= full.take(n));
            if n > 0 {
                assert(init.take(n - 1) =~= rows.take(n - 1));
            }
        }
    }
}

/// Where the tables are accepted, so are the first `n` of them, with the same
/// result for each.
pub proof fn lemma_resolved_tables_prefix(
    previous: Seq<ReferenceView>,
    tables: Seq<TableView>,
    n: int,
)
    requires
        resolved_tables(previous, tables) is Ok,
        0 <= n <= tables.len(),
    ensures
        resolved_tables(previous, tables)->Ok_0.0.len() == tables.len(),
        resolved_tables(previous, tables.take(n)) is Ok,
        resolved_tables(previous, tables.take(n))->Ok_0.0 == resolved_tables(
            previous,
            tables,
        )->Ok_0.0.take(n),
    decreases tables.len(),
{
    let full = resolved_tables(previous, tables)->Ok_0.0;
    if tables.len() == 0 {
        assert(tables.take(n) =~= tables);
        assert(full.take(n) =~= full);
    } else {
        let init = tables.drop_last();
        lemma_resolved_tables_prefix(previous, init, init.len() as int);
        if n == tables.len() {
            assert(tables.take(n) =~= tables);
            assert(full.take(n) =~= full);
        } else {
            lemma_resolved_tables_prefix(previous, init, n);
            assert(init.take(n) =~= tables.take(n));
            let head = resolved_tables(previous, init)->Ok_0.0;
            assert(head.take(n) =~= full.take(n));
        }
    }
}

/// The rows of a table that is accepted are complete.
pub proof fn lemma_resolved_rows_complete(
    previous: Seq<ReferenceView>,
    rows: Seq<RowView>,
    table: int,
)
    requires
        resolved_rows(previous, rows, table) is Ok,
    ensures
        forall|r: int|
            0 <= r < resolved_rows(previous, rows, table)->Ok_0.0.len() ==> row_is_complete(
                #[trigger] resolved_rows(previous, rows, table)->Ok_0.0[r],
            ),
    decreases rows.len(),
{
    if rows.len() > 0 {
        lemma_resolved_rows_complete(previous, rows.drop_last(), table);
    }
}

/// The rows of tables that are accepted are complete: each stands for at
/// least one item, and none has half an example.
pub proof fn lemma_resolved_tables_complete(previous: Seq<ReferenceView>, tables: Seq<TableView>)
    requires
        resolved_tables(previous, tables) is Ok,
    ensures
        tables_are_complete(resolved_tables(previous, tables)->Ok_0.0),
    decreases tables.len(),
{
    if tables.len() > 0 {
        let init = tables.drop_last();
        lemma_resolved_tables_complete(previous, init);
        let before = resolved_tables(previous, init)->Ok_0.1;
        lemma_resolved_rows_complete(before, tables.last().rows, tables.len() - 1);
        let head = resolved_tables(previous, init)->Ok_0.0;
        let all = resolved_tables(previous, tables)->Ok_0.0;
        assert forall|t: int, r: int|
            0 <= t < all.len() && 0 <= r < all[t].rows.len() implies row_is_complete(
            #[trigger] all[t].rows[r],
        ) by {
            if t < head.len() {
                assert(all[t] == head[t]);
            }
        }
    }
}

/// Carry-forward. In a table that is accepted, a row that gives no reference
/// stands for the references of the row before it, so that the first cell of
/// its line is that of the line before.
pub proof fn lemma_carry_forward(
    previous: Seq<ReferenceView>,
    rows: Seq<RowView>,
    table: int,
    i: int,
)
    requires
        resolved_rows(previous, rows, table) is Ok,
        0 < i < rows.len(),
        rows[i].references.len() == 0,
    ensures
        ({
            let resolved = resolved_rows(previous, rows, table)->Ok_0.0;
            &&& resolved.len() == rows.len()
            &&& resolved[i].references == resolved[i - 1].references
            &&& reference_cell(resolved[i].references) == reference_cell(
                resolved[i - 1].references,
            )
        }),
{
    lemma_resolved_rows_prefix(previous, rows, table, i);
    lemma_resolved_rows_prefix(previous, rows, table, i + 1);
    assert(rows.take(i + 1 - 1) =~= rows.take(i));
}

/// Malformed row rejection. A table with a row that has a usage without an
/// input, or an input without a usage, is refused.
pub proof fn lemma_unpaired_row_refused(
    previous: Seq<ReferenceView>,
    rows: Seq<RowView>,
    table: int,
    i: int,
)
    requires
        0 <= i < rows.len(),
        is_unpaired(rows[i]),
    ensures
        resolved_rows(previous, rows, table) is Err,
{
    if resolved_rows(previous, rows, table) is Ok {
        lemma_resolved_rows_prefix(previous, rows, table, i + 1);
        let part = rows.take(i + 1);
        assert(part.last() == rows[i]);
        assert(resolved_rows(previous, part, table) is Ok);
    }
}

/// Malformed row rejection, for a whole template. Tables of which one has a
/// row with a usage without an input, or an input without a usage, are
/// refused: no document is made of them.
pub proof fn lemma_unpaired_example_refused(tables: Seq<TableView>, t: int, i: int)
    requires
        0 <= t < tables.len(),
        0 <= i < tables[t].rows.len(),
        is_unpaired(tables[t].rows[i]),
    ensures
        resolved_tables(Seq::empty(), tables) is Err,
{
    let previous = Seq::<ReferenceView>::empty();
    if resolved_tables(previous, tables) is Ok {
        lemma_resolved_tables_prefix(previous, tables, t + 1);
        let part = tables.take(t + 1);
        assert(part.last() == tables[t]);
        let before = resolved_tables(previous, part.drop_last())->Ok_0.1;
        lemma_unpaired_row_refused(before, tables[t].rows, t, i);
    }
}

} // verus!
