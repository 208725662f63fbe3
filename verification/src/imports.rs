//! The global imports of the tables: what their rows propose to the ledger,
//! and what the ledger keeps of it.

use vstd::prelude::*;
use crate::ledger::{
    finalized, is_conflicted, kept_entries, ledger_after, lemma_conflict_excluded,
    lemma_recorded_all_concat, lemma_recorded_all_from_empty, recorded_all, Ledger, Proposal,
};
use crate::reference::{
    import_statement, import_statement_of, is_excluded, is_excluded_module, reference_views,
    Reference, ReferenceView,
};
use crate::table::{row_views, table_views, Row, RowView, Table, TableView};
use crate::text::{chars_of, string_of, string_views};

verus! {

/// What a reference proposes: its name with its import statement.
pub open spec fn proposal_of(reference: ReferenceView) -> Proposal {
    Proposal { symbol: reference.name, statement: import_statement(reference) }
}

/// What the references of one row propose: for each whose module is not
/// left out, its name with its import statement.
pub open spec fn proposals_of_references(references: Seq<ReferenceView>) -> Seq<Proposal>
    decreases references.len(),
{
    if references.len() == 0 {
        Seq::empty()
    } else if is_excluded_module(references.last().module) {
        proposals_of_references(references.drop_last())
    } else {
        proposals_of_references(references.drop_last()).push(
            Proposal {
                symbol: references.last().name,
                statement: import_statement(references.last()),
            },
        )
    }
}

/// What the rows propose, row by row.
pub open spec fn proposals_of_rows(rows: Seq<RowView>) -> Seq<Proposal>
    decreases rows.len(),
{
    if rows.len() == 0 {
        Seq::empty()
    } else {
        proposals_of_rows(rows.drop_last()) + proposals_of_references(rows.last().references)
    }
}

/// What the tables propose, table by table.
pub open spec fn proposals_of_tables(tables: Seq<TableView>) -> Seq<Proposal>
    decreases tables.len(),
{
    if tables.len() == 0 {
        Seq::empty()
    } else {
        proposals_of_tables(tables.drop_last()) + proposals_of_rows(tables.last().rows)
    }
}

/// The global imports of the tables: the import statements that their rows
/// propose, without those of a name for which two differ, in the order of a
/// dictionary.
pub open spec fn imports_of(tables: Seq<TableView>) -> Seq<Seq<char>> {
    finalized(ledger_after(proposals_of_tables(tables)))
}

/// Records what the references of one row propose.
pub fn record_references(ledger: &mut Ledger, references: &[Reference])
    ensures
        final(ledger)@ == recorded_all(
            old(ledger)@,
            proposals_of_references(reference_views(references@)),
        ),
{
    let ghost all = reference_views(references@);
    let mut i: usize = 0;
    while i < references.len()
        invariant
            i <= references.len(),
            all == reference_views(references@),
            ledger@ == recorded_all(old(ledger)@, proposals_of_references(all.take(i as int))),
        decreases references.len() - i,
    {
        proof {
            assert(all.take(i + 1).drop_last() =~= all.take(i as int));
            assert(all.take(i + 1).last() == references@[i as int]@);
        }
        let reference = &references[i];
        let module = chars_of(reference.module.as_str());
        if !is_excluded(module.as_slice()) {
            let statement = string_of(import_statement_of(reference).as_slice());
            proof {
                let done = proposals_of_references(all.take(i as int));
                let next = proposals_of_references(all.take(i + 1));
                assert(next.drop_last() =~= done);
            }
            ledger.record(reference.name.as_str(), statement.as_str());
        }
        i += 1;
    }
    proof {
        assert(all.take(references.len() as int) =~= all);
    }
}

/// Records what the rows propose, row by row.
pub fn record_rows(ledger: &mut Ledger, rows: &[Row])
    ensures
        final(ledger)@ == recorded_all(old(ledger)@, proposals_of_rows(row_views(rows@))),
{
    let ghost all = row_views(rows@);
    let mut i: usize = 0;
    while i < rows.len()
        invariant
            i <= rows.len(),
            all == row_views(rows@),
            ledger@ == recorded_all(old(ledger)@, proposals_of_rows(all.take(i as int))),
        decreases rows.len() - i,
    {
        proof {
            assert(all.take(i + 1).drop_last() =~= all.take(i as int));
            assert(all.take(i + 1).last() == rows@[i as int]@);
            lemma_recorded_all_concat(
                old(ledger)@,
                proposals_of_rows(all.take(i as int)),
                proposals_of_references(rows@[i as int]@.references),
            );
        }
        record_references(ledger, rows[i].references.as_slice());
        i += 1;
    }
    proof {
        assert(all.take(rows.len() as int) =~= all);
    }
}

/// Records what the tables propose, table by table.
pub fn record_tables(ledger: &mut Ledger, tables: &[Table])
    ensures
        final(ledger)@ == recorded_all(old(ledger)@, proposals_of_tables(table_views(tables@))),
{
    let ghost all = table_views(tables@);
    let mut i: usize = 0;
    while i < tables.len()
        invariant
            i <= tables.len(),
            all == table_views(tables@),
            ledger@ == recorded_all(old(ledger)@, proposals_of_tables(all.take(i as int))),
        decreases tables.len() - i,
    {
        proof {
            assert(all.take(i + 1).drop_last() =~= all.take(i as int));
            assert(all.take(i + 1).last() == tables@[i as int]@);
            lemma_recorded_all_concat(
                old(ledger)@,
                proposals_of_tables(all.take(i as int)),
                proposals_of_rows(tables@[i as int]@.rows),
            );
        }
        record_rows(ledger, tables[i].rows.as_slice());
        i += 1;
    }
    proof {
        assert(all.take(tables.len() as int) =~= all);
    }
}

/// The global imports of the tables: every import statement that their rows
/// propose, without those of a name for which two different statements were
/// proposed, in the order of a dictionary.
pub fn global_imports(tables: &[Table]) -> (out: Vec<String>)
    ensures
        string_views(out@) == imports_of(table_views(tables@)),
{
    let mut ledger = Ledger::new();
    record_tables(&mut ledger, tables);
    proof {
        lemma_recorded_all_from_empty(proposals_of_tables(table_views(tables@)));
    }
    ledger.finalize()
}

/// Every reference of a row whose module is not left out is proposed.
pub proof fn lemma_reference_is_proposed(references: Seq<ReferenceView>, k: int)
    requires
        0 <= k < references.len(),
        !is_excluded_module(references[k].module),
    ensures
        proposals_of_references(references).contains(proposal_of(references[k])),
    decreases references.len(),
{
    let init = references.drop_last();
    let all = proposals_of_references(references);
    if k == references.len() - 1 {
        assert(all.last() == proposal_of(references[k]));
    } else {
        lemma_reference_is_proposed(init, k);
        let i = choose|i: int|
            0 <= i < proposals_of_references(init).len() && proposals_of_references(init)[i]
                == proposal_of(references[k]);
        assert(all[i] == proposal_of(references[k]));
    }
}

/// Every reference of every row, whose module is not left out, is among what
/// the rows propose.
pub proof fn lemma_row_reference_is_proposed(rows: Seq<RowView>, r: int, k: int)
    requires
        0 <= r < rows.len(),
        0 <= k < rows[r].references.len(),
        !is_excluded_module(rows[r].references[k].module),
    ensures
        proposals_of_rows(rows).contains(proposal_of(rows[r].references[k])),
    decreases rows.len(),
{
    let init = rows.drop_last();
    let all = proposals_of_rows(rows);
    let p = proposal_of(rows[r].references[k]);
    if r == rows.len() - 1 {
        lemma_reference_is_proposed(rows[r].references, k);
        let own = proposals_of_references(rows[r].references);
        let i = choose|i: int| 0 <= i < own.len() && own[i] == p;
        assert(all[proposals_of_rows(init).len() + i] == p);
    } else {
        lemma_row_reference_is_proposed(init, r, k);
        let i = choose|i: int|
            0 <= i < proposals_of_rows(init).len() && proposals_of_rows(init)[i] == p;
        assert(all[i] == p);
    }
}

/// Every reference of every row of every table, whose module is not left
/// out, is among what the tables propose.
pub proof fn lemma_table_reference_is_proposed(tables: Seq<TableView>, t: int, r: int, k: int)
    requires
        0 <= t < tables.len(),
        0 <= r < tables[t].rows.len(),
        0 <= k < tables[t].rows[r].references.len(),
        !is_excluded_module(tables[t].rows[r].references[k].module),
    ensures
        proposals_of_tables(tables).contains(proposal_of(tables[t].rows[r].references[k])),
    decreases tables.len(),
{
    let init = tables.drop_last();
    let all = proposals_of_tables(tables);
    let p = proposal_of(tables[t].rows[r].references[k]);
    if t == tables.len() - 1 {
        lemma_row_reference_is_proposed(tables[t].rows, r, k);
        let own = proposals_of_rows(tables[t].rows);
        let i = choose|i: int| 0 <= i < own.len() && own[i] == p;
        assert(all[proposals_of_tables(init).len() + i] == p);
    } else {
        lemma_table_reference_is_proposed(init, t, r, k);
        let i = choose|i: int|
            0 <= i < proposals_of_tables(init).len() && proposals_of_tables(init)[i] == p;
        assert(all[i] == p);
    }
}

/// Conflict exclusion. Where two rows stand for items of one name whose
/// import statements differ, no entry that is kept for the global imports
/// bears that name.
pub proof fn lemma_conflicting_rows_excluded(
    tables: Seq<TableView>,
    first: (int, int, int),
    second: (int, int, int),
)
    requires
        0 <= first.0 < tables.len(),
        0 <= first.1 < tables[first.0].rows.len(),
        0 <= first.2 < tables[first.0].rows[first.1].references.len(),
        0 <= second.0 < tables.len(),
        0 <= second.1 < tables[second.0].rows.len(),
        0 <= second.2 < tables[second.0].rows[second.1].references.len(),
        !is_excluded_module(tables[first.0].rows[first.1].references[first.2].module),
        !is_excluded_module(tables[second.0].rows[second.1].references[second.2].module),
        tables[first.0].rows[first.1].references[first.2].name
            == tables[second.0].rows[second.1].references[second.2].name,
        import_statement(tables[first.0].rows[first.1].references[first.2]) != import_statement(
            tables[second.0].rows[second.1].references[second.2],
        ),
    ensures
        ({
            let ledger = ledger_after(proposals_of_tables(tables));
            let name = tables[first.0].rows[first.1].references[first.2].name;
            &&& is_conflicted(ledger, name)
            &&& forall|k: int|
                0 <= k < kept_entries(ledger).len() ==> (#[trigger] kept_entries(ledger)[k]).symbol
                    != name
        }),
{
    let proposals = proposals_of_tables(tables);
    let a = proposal_of(tables[first.0].rows[first.1].references[first.2]);
    let b = proposal_of(tables[second.0].rows[second.1].references[second.2]);
    lemma_table_reference_is_proposed(tables, first.0, first.1, first.2);
    lemma_table_reference_is_proposed(tables, second.0, second.1, second.2);
    let i = choose|i: int| 0 <= i < proposals.len() && proposals[i] == a;
    let j = choose|j: int| 0 <= j < proposals.len() && proposals[j] == b;
    lemma_conflict_excluded(proposals, i, j);
}

} // verus!
