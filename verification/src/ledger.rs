//! The import ledger: one import statement for each name, the names for
//! which two different statements were proposed, and the list of the
//! statements that are left.

use vstd::prelude::*;
use vstd::seq_lib::{to_multiset_build, to_multiset_insert};
use crate::text::{chars_of, copy_range, same_text, string_of, views};

verus! {

/// What the ledger holds for one name.
pub struct Entry {
    symbol: Vec<char>,
    statement: Vec<char>,
    conflicted: bool,
}

/// An `Entry` as plain values: the name, the statement proposed last for it,
/// and whether two different statements were proposed.
pub struct EntryView {
    pub symbol: Seq<char>,
    pub statement: Seq<char>,
    pub conflicted: bool,
}

impl View for Entry {
    type V = EntryView;

    closed spec fn view(&self) -> EntryView {
        EntryView { symbol: self.symbol@, statement: self.statement@, conflicted: self.conflicted }
    }
}

/// The import statements proposed so far, one entry for each name, in the
/// order in which the names were first seen.
pub struct Ledger {
    entries: Vec<Entry>,
}

/// The index of the entry for `symbol` among the first `n` entries.
pub open spec fn entry_index(entries: Seq<EntryView>, symbol: Seq<char>, n: int) -> Option<int>
    decreases n,
{
    if n <= 0 || n > entries.len() {
        None
    } else {
        match entry_index(entries, symbol, n - 1) {
            Some(i) => Some(i),
            None => if entries[n - 1].symbol == symbol {
                Some(n - 1)
            } else {
                None
            },
        }
    }
}

/// No name has two entries.
pub open spec fn distinct_symbols(entries: Seq<EntryView>) -> bool {
    forall|i: int, j: int|
        0 <= i < j < entries.len() ==> (#[trigger] entries[i]).symbol != (
        #[trigger] entries[j]).symbol
}

/// The ledger after `statement` was proposed for `symbol`: a new name gets an
/// entry; a name that has another statement is marked as conflicted; a name
/// that has this very statement stays as it is.
pub open spec fn recorded(entries: Seq<EntryView>, symbol: Seq<char>, statement: Seq<char>) -> Seq<
    EntryView,
> {
    match entry_index(entries, symbol, entries.len() as int) {
        Some(i) => if entries[i].statement == statement {
            entries
        } else {
            entries.update(i, EntryView { symbol, statement, conflicted: true })
        },
        None => entries.push(EntryView { symbol, statement, conflicted: false }),
    }
}

/// Two different statements were proposed for `symbol`.
pub open spec fn is_conflicted(entries: Seq<EntryView>, symbol: Seq<char>) -> bool {
    exists|i: int|
        0 <= i < entries.len() && (#[trigger] entries[i]).symbol == symbol && entries[i].conflicted
}

/// The entries that are kept: those without a conflict, in order.
pub open spec fn kept_entries(entries: Seq<EntryView>) -> Seq<EntryView>
    decreases entries.len(),
{
    if entries.len() == 0 {
        Seq::empty()
    } else if entries.last().conflicted {
        kept_entries(entries.drop_last())
    } else {
        kept_entries(entries.drop_last()).push(entries.last())
    }
}

/// The statements that are kept, in the order of their entries.
pub open spec fn kept_statements(entries: Seq<EntryView>) -> Seq<Seq<char>> {
    kept_entries(entries).map_values(|e: EntryView| e.statement)
}

/// `a` comes before `b`, or is `b`, in the order of a dictionary that goes
/// by the characters' code points; the comparison starts at index `i`, before
/// which the two are alike.
pub open spec fn lex_le_from(a: Seq<char>, b: Seq<char>, i: int) -> bool
    decreases a.len() - i,
{
    if i < 0 || i >= a.len() {
        true
    } else if i >= b.len() {
        false
    } else if a[i] != b[i] {
        a[i] < b[i]
    } else {
        lex_le_from(a, b, i + 1)
    }
}

/// `a` comes before `b`, or is `b`, in the order of a dictionary.
pub open spec fn lex_le(a: Seq<char>, b: Seq<char>) -> bool {
    lex_le_from(a, b, 0)
}

/// The sorted list with `x` put in after every entry that does not come
/// after it.
pub open spec fn insert_sorted(list: Seq<Seq<char>>, x: Seq<char>) -> Seq<Seq<char>>
    decreases list.len(),
{
    if list.len() == 0 {
        seq![x]
    } else if lex_le(list.last(), x) {
        list.push(x)
    } else {
        insert_sorted(list.drop_last(), x).push(list.last())
    }
}

/// The list in the order of a dictionary.
pub open spec fn sorted_statements(list: Seq<Seq<char>>) -> Seq<Seq<char>>
    decreases list.len(),
{
    if list.len() == 0 {
        Seq::empty()
    } else {
        insert_sorted(sorted_statements(list.drop_last()), list.last())
    }
}

/// The list of global imports: the statements of the names without a
/// conflict, in the order of a dictionary.
pub open spec fn finalized(entries: Seq<EntryView>) -> Seq<Seq<char>> {
    sorted_statements(kept_statements(entries))
}

/// Whether `a` comes before `b`, or is `b`, in the order of a dictionary.
pub fn lex_le_chars(a: &[char], b: &[char]) -> (r: bool)
    ensures
        r == lex_le(a@, b@),
{
    let mut i: usize = 0;
    while i < a.len() && i < b.len()
        invariant
            i <= a.len(),
            i <= b.len(),
            lex_le(a@, b@) == lex_le_from(a@, b@, i as int),
        decreases a.len() - i,
    {
        if a[i] != b[i] {
            return a[i] < b[i];
        }
        i += 1;
    }
    i >= a.len()
}

/// Puts `x` into the sorted `list`, after every entry that does not come
/// after it.
fn insert_statement(list: &mut Vec<Vec<char>>, x: Vec<char>)
    ensures
        views(final(list)@) == insert_sorted(views(old(list)@), x@),
{
    let ghost before = views(list@);
    let mut p: usize = list.len();
    proof {
        assert(before.take(p as int) =~= before);
        assert(insert_sorted(before, x@) + before.skip(p as int) =~= insert_sorted(before, x@));
    }
    while p > 0 && !lex_le_chars(list[p - 1].as_slice(), x.as_slice())
        invariant
            p <= list.len(),
            before == views(list@),
            insert_sorted(before, x@) == insert_sorted(before.take(p as int), x@) + before.skip(
                p as int,
            ),
        decreases p,
    {
        proof {
            let head = before.take(p as int);
            assert(head.last() == list@[p - 1]@);
            assert(head.drop_last() =~= before.take(p - 1));
            assert(insert_sorted(head, x@) == insert_sorted(before.take(p - 1), x@).push(
                head.last(),
            ));
            assert(insert_sorted(before.take(p - 1), x@).push(head.last()) + before.skip(p as int)
                =~= insert_sorted(before.take(p - 1), x@) + before.skip(p - 1));
        }
        p -= 1;
    }
    proof {
        let head = before.take(p as int);
        if p > 0 {
            assert(head.last() == list@[p - 1]@);
        }
        assert(insert_sorted(head, x@) =~= head.push(x@));
        assert(head.push(x@) + before.skip(p as int) =~= before.insert(p as int, x@));
    }
    list.insert(p, x);
    proof {
        assert(views(list@) =~= before.insert(p as int, x@));
    }
}

impl Ledger {
    /// The entries of the ledger.
    pub closed spec fn view(&self) -> Seq<EntryView> {
        self.entries@.map_values(|e: Entry| e@)
    }

    /// No name has two entries. An empty ledger is well formed, and
    /// recording keeps a ledger so.
    pub open spec fn well_formed(&self) -> bool {
        distinct_symbols(self@)
    }

    /// An empty ledger.
    pub fn new() -> (out: Self)
        ensures
            out@ == Seq::<EntryView>::empty(),
            out.well_formed(),
    {
        let out = Ledger { entries: Vec::new() };
        proof {
            assert(out@ =~= Seq::<EntryView>::empty());
        }
        out
    }

    /// The index of the entry for `symbol`.
    fn position(&self, symbol: &[char]) -> (r: Option<usize>)
        ensures
            crate::text::as_index(r) == entry_index(self@, symbol@, self@.len() as int),
            r matches Some(i) ==> i < self.entries.len(),
    {
        let mut i: usize = 0;
        while i < self.entries.len()
            invariant
                i <= self.entries.len(),
                entry_index(self@, symbol@, i as int) is None,
            decreases self.entries.len() - i,
        {
            if same_text(self.entries[i].symbol.as_slice(), symbol) {
                proof {
                    lemma_entry_index_found(self@, symbol@, i as int, self@.len() as int);
                }
                return Some(i);
            }
            i += 1;
        }
        None
    }

    /// Proposes `statement` as the import of `symbol`. A new name is stored
    /// with it. A name that has another statement is marked as conflicted. A
    /// name that has this very statement stays as it is.
    pub fn record(&mut self, symbol: &str, statement: &str)
        ensures
            final(self)@ == recorded(old(self)@, symbol@, statement@),
            old(self).well_formed() ==> final(self).well_formed(),
    {
        let name = chars_of(symbol);
        let text = chars_of(statement);
        proof {
            if self.well_formed() {
                lemma_recorded_keeps_distinct(self@, symbol@, statement@);
            }
        }
        match self.position(name.as_slice()) {
            Some(i) => {
                if !same_text(self.entries[i].statement.as_slice(), text.as_slice()) {
                    self.entries.set(i, Entry { symbol: name, statement: text, conflicted: true });
                    proof {
                        assert(self@ =~= recorded(old(self)@, symbol@, statement@));
                    }
                }
            },
            None => {
                self.entries.push(Entry { symbol: name, statement: text, conflicted: false });
                proof {
                    assert(self@ =~= recorded(old(self)@, symbol@, statement@));
                }
            },
        }
    }

    /// The list of global imports: the statement of every name without a
    /// conflict, in the order of a dictionary.
    pub fn finalize(&self) -> (out: Vec<String>)
        ensures
            out@.map_values(|s: String| s@) == finalized(self@),
    {
        let mut sorted: Vec<Vec<char>> = Vec::new();
        let mut i: usize = 0;
        while i < self.entries.len()
            invariant
                i <= self.entries.len(),
                views(sorted@) == finalized(self@.take(i as int)),
            decreases self.entries.len() - i,
        {
            proof {
                let next = self@.take(i + 1);
                assert(next.drop_last() =~= self@.take(i as int));
                assert(next.last() == self.entries@[i as int]@);
            }
            if !self.entries[i].conflicted {
                let statement = &self.entries[i].statement;
                let copy = copy_range(statement.as_slice(), 0, statement.len());
                proof {
                    assert(copy@ =~= statement@);
                    let kept = kept_statements(self@.take(i as int));
                    assert(kept_statements(self@.take(i + 1)) =~= kept.push(statement@));
                    assert(kept.push(statement@).drop_last() =~= kept);
                }
                insert_statement(&mut sorted, copy);
            }
            i += 1;
        }
        proof {
            assert(self@.take(self.entries.len() as int) =~= self@);
        }
        let mut out: Vec<String> = Vec::new();
        let mut k: usize = 0;
        while k < sorted.len()
            invariant
                k <= sorted.len(),
                out@.map_values(|s: String| s@) == views(sorted@).take(k as int),
            decreases sorted.len() - k,
        {
            let ghost before = out@.map_values(|s: String| s@);
            let s = string_of(sorted[k].as_slice());
            out.push(s);
            proof {
                assert(out@.map_values(|s: String| s@) =~= before.push(sorted@[k as int]@));
                assert(views(sorted@).take(k + 1) =~= views(sorted@).take(k as int).push(
                    sorted@[k as int]@,
                ));
            }
            k += 1;
        }
        proof {
            assert(views(sorted@).take(sorted.len() as int) =~= views(sorted@));
        }
        out
    }
}

/// An entry for `symbol` at `i`, with none before it, is the one that
/// `entry_index` finds.
pub proof fn lemma_entry_index_found(entries: Seq<EntryView>, symbol: Seq<char>, i: int, n: int)
    requires
        0 <= i < n <= entries.len(),
        entries[i].symbol == symbol,
        entry_index(entries, symbol, i) is None,
    ensures
        entry_index(entries, symbol, n) == Some(i),
    decreases n - i,
{
    if n > i + 1 {
        lemma_entry_index_found(entries, symbol, i, n - 1);
    }
}

/// One proposal: a name, and the statement proposed as its import.
pub struct Proposal {
    pub symbol: Seq<char>,
    pub statement: Seq<char>,
}

/// The ledger after the proposals were recorded in order, one by one,
/// starting with an empty ledger.
pub open spec fn ledger_after(proposals: Seq<Proposal>) -> Seq<EntryView>
    decreases proposals.len(),
{
    if proposals.len() == 0 {
        Seq::empty()
    } else {
        recorded(
            ledger_after(proposals.drop_last()),
            proposals.last().symbol,
            proposals.last().statement,
        )
    }
}

/// The ledger `entries` after the proposals were recorded in order.
pub open spec fn recorded_all(entries: Seq<EntryView>, proposals: Seq<Proposal>) -> Seq<EntryView>
    decreases proposals.len(),
{
    if proposals.len() == 0 {
        entries
    } else {
        recorded(
            recorded_all(entries, proposals.drop_last()),
            proposals.last().symbol,
            proposals.last().statement,
        )
    }
}

/// Recording two lists of proposals one after the other is recording the
/// two as one list.
pub proof fn lemma_recorded_all_concat(
    entries: Seq<EntryView>,
    first: Seq<Proposal>,
    second: Seq<Proposal>,
)
    ensures
        recorded_all(recorded_all(entries, first), second) == recorded_all(
            entries,
            first + second,
        ),
    decreases second.len(),
{
    if second.len() == 0 {
        assert(first + second =~= first);
    } else {
        lemma_recorded_all_concat(entries, first, second.drop_last());
        assert((first + second).drop_last() =~= first + second.drop_last());
        assert((first + second).last() == second.last());
    }
}

/// Recording into an empty ledger gives `ledger_after`.
pub proof fn lemma_recorded_all_from_empty(proposals: Seq<Proposal>)
    ensures
        recorded_all(Seq::empty(), proposals) == ledger_after(proposals),
    decreases proposals.len(),
{
    if proposals.len() > 0 {
        lemma_recorded_all_from_empty(proposals.drop_last());
    }
}

/// `entry_index` finds an entry for the name, and the first such entry.
pub proof fn lemma_entry_index(entries: Seq<EntryView>, symbol: Seq<char>, n: int)
    requires
        0 <= n <= entries.len(),
    ensures
        match entry_index(entries, symbol, n) {
            Some(i) => 0 <= i < n && entries[i].symbol == symbol,
            None => forall|j: int| 0 <= j < n ==> (#[trigger] entries[j]).symbol != symbol,
        },
    decreases n,
{
    if n > 0 {
        lemma_entry_index(entries, symbol, n - 1);
    }
}

/// Recording a proposal leaves no name with two entries.
pub proof fn lemma_recorded_keeps_distinct(
    entries: Seq<EntryView>,
    symbol: Seq<char>,
    statement: Seq<char>,
)
    requires
        distinct_symbols(entries),
    ensures
        distinct_symbols(recorded(entries, symbol, statement)),
{
    lemma_entry_index(entries, symbol, entries.len() as int);
}

/// After two different statements were proposed for one name, one right
/// after the other, the name is marked as conflicted.
pub proof fn lemma_two_proposals_conflict(
    entries: Seq<EntryView>,
    symbol: Seq<char>,
    first: Seq<char>,
    second: Seq<char>,
)
    requires
        first != second,
    ensures
        is_conflicted(recorded(recorded(entries, symbol, first), symbol, second), symbol),
{
    let one = recorded(entries, symbol, first);
    let two = recorded(one, symbol, second);
    lemma_entry_index(entries, symbol, entries.len() as int);
    match entry_index(entries, symbol, entries.len() as int) {
        Some(j) => {
            lemma_entry_index_same_symbols(entries, one, symbol, entries.len() as int);
            assert(two[j].symbol == symbol && two[j].conflicted);
        },
        None => {
            let j = entries.len() as int;
            lemma_entry_index_same_symbols(entries, one, symbol, j);
            lemma_entry_index_found(one, symbol, j, one.len() as int);
            assert(two[j].symbol == symbol && two[j].conflicted);
        },
    }
}

/// `entry_index` goes by the names alone.
pub proof fn lemma_entry_index_same_symbols(
    a: Seq<EntryView>,
    b: Seq<EntryView>,
    symbol: Seq<char>,
    n: int,
)
    requires
        0 <= n <= a.len(),
        n <= b.len(),
        forall|i: int| 0 <= i < n ==> (#[trigger] a[i]).symbol == b[i].symbol,
    ensures
        entry_index(a, symbol, n) == entry_index(b, symbol, n),
    decreases n,
{
    if n > 0 {
        lemma_entry_index_same_symbols(a, b, symbol, n - 1);
    }
}

/// A name that is marked as conflicted stays so, whatever is proposed later.
pub proof fn lemma_conflict_stays(
    entries: Seq<EntryView>,
    symbol: Seq<char>,
    other: Seq<char>,
    statement: Seq<char>,
)
    requires
        is_conflicted(entries, symbol),
    ensures
        is_conflicted(recorded(entries, other, statement), symbol),
{
    let i = choose|i: int|
        0 <= i < entries.len() && (#[trigger] entries[i]).symbol == symbol && entries[i].conflicted;
    let after = recorded(entries, other, statement);
    lemma_entry_index(entries, other, entries.len() as int);
    assert(after[i].symbol == symbol && after[i].conflicted);
}

/// The kept entries are entries of the ledger without a conflict.
pub proof fn lemma_kept_entries(entries: Seq<EntryView>, k: int)
    requires
        0 <= k < kept_entries(entries).len(),
    ensures
        !kept_entries(entries)[k].conflicted,
        exists|i: int| 0 <= i < entries.len() && entries[i] == kept_entries(entries)[k],
    decreases entries.len(),
{
    if entries.len() > 0 {
        let rest = entries.drop_last();
        if k < kept_entries(rest).len() {
            lemma_kept_entries(rest, k);
            let i = choose|i: int| 0 <= i < rest.len() && rest[i] == kept_entries(rest)[k];
            assert(entries[i] == kept_entries(entries)[k]);
        } else {
            assert(entries[entries.len() - 1] == kept_entries(entries)[k]);
        }
    }
}

/// The global imports leave out a name that is marked as conflicted: no kept
/// entry bears it.
pub proof fn lemma_conflicted_symbol_left_out(entries: Seq<EntryView>, symbol: Seq<char>)
    requires
        distinct_symbols(entries),
        is_conflicted(entries, symbol),
    ensures
        forall|k: int|
            0 <= k < kept_entries(entries).len() ==> (#[trigger] kept_entries(entries)[k]).symbol
                != symbol,
{
    let c = choose|i: int|
        0 <= i < entries.len() && (#[trigger] entries[i]).symbol == symbol && entries[i].conflicted;
    assert forall|k: int| 0 <= k < kept_entries(entries).len() implies (#[trigger] kept_entries(
        entries,
    )[k]).symbol != symbol by {
        lemma_kept_entries(entries, k);
        let i = choose|i: int| 0 <= i < entries.len() && entries[i] == kept_entries(entries)[k];
        if entries[i].symbol == symbol {
            if i < c {
                assert(entries[i].symbol != entries[c].symbol);
            } else if c < i {
                assert(entries[c].symbol != entries[i].symbol);
            }
        }
    }
}

/// What holds of the ledger after any proposals: no name has two entries,
/// and every name proposed has an entry that either is marked as conflicted
/// or holds the statement of each proposal made for the name.
pub proof fn lemma_ledger_after(proposals: Seq<Proposal>)
    ensures
        distinct_symbols(ledger_after(proposals)),
        forall|k: int|
            0 <= k < proposals.len() ==> {
                let l = ledger_after(proposals);
                let p = #[trigger] proposals[k];
                match entry_index(l, p.symbol, l.len() as int) {
                    Some(i) => l[i].conflicted || l[i].statement == p.statement,
                    None => false,
                }
            },
    decreases proposals.len(),
{
    if proposals.len() > 0 {
        let before = proposals.drop_last();
        let last = proposals.last();
        let l0 = ledger_after(before);
        let l = ledger_after(proposals);
        lemma_ledger_after(before);
        lemma_recorded_keeps_distinct(l0, last.symbol, last.statement);
        lemma_entry_index(l0, last.symbol, l0.len() as int);
        assert forall|k: int| 0 <= k < proposals.len() implies {
            let p = #[trigger] proposals[k];
            match entry_index(l, p.symbol, l.len() as int) {
                Some(i) => l[i].conflicted || l[i].statement == p.statement,
                None => false,
            }
        } by {
            let p = proposals[k];
            lemma_entry_index(l, p.symbol, l.len() as int);
            lemma_entry_index(l0, p.symbol, l0.len() as int);
            if k < before.len() {
                assert(before[k] == p);
                let i0 = entry_index(l0, p.symbol, l0.len() as int).unwrap();
                assert(l[i0].symbol == p.symbol);
                let i = entry_index(l, p.symbol, l.len() as int).unwrap();
                if i != i0 {
                    if i < i0 {
                        assert(l[i].symbol != l[i0].symbol);
                    } else {
                        assert(l[i0].symbol != l[i].symbol);
                    }
                }
            } else {
                match entry_index(l0, last.symbol, l0.len() as int) {
                    Some(j) => {
                        assert(l[j].symbol == p.symbol);
                        let i = entry_index(l, p.symbol, l.len() as int).unwrap();
                        if i < j {
                            assert(l[i].symbol != l[j].symbol);
                        } else if j < i {
                            assert(l[j].symbol != l[i].symbol);
                        }
                    },
                    None => {
                        let j = l0.len() as int;
                        assert(l[j].symbol == p.symbol);
                        let i = entry_index(l, p.symbol, l.len() as int).unwrap();
                        if i < j {
                            assert(l[i].symbol != l[j].symbol);
                        }
                    },
                }
            }
        }
    }
}

/// Conflict exclusion. Where two of the proposals made are for one name and
/// differ in their statement, no entry that is kept for the global imports
/// bears that name, whatever else was proposed, before, between or after.
pub proof fn lemma_conflict_excluded(proposals: Seq<Proposal>, first: int, second: int)
    requires
        0 <= first < proposals.len(),
        0 <= second < proposals.len(),
        proposals[first].symbol == proposals[second].symbol,
        proposals[first].statement != proposals[second].statement,
    ensures
        is_conflicted(ledger_after(proposals), proposals[first].symbol),
        forall|k: int|
            0 <= k < kept_entries(ledger_after(proposals)).len() ==> (#[trigger] kept_entries(
                ledger_after(proposals),
            )[k]).symbol != proposals[first].symbol,
{
    let l = ledger_after(proposals);
    let symbol = proposals[first].symbol;
    lemma_ledger_after(proposals);
    lemma_entry_index(l, symbol, l.len() as int);
    let i = entry_index(l, symbol, l.len() as int).unwrap();
    assert(proposals[second].symbol == symbol);
    assert(l[i].conflicted);
    lemma_conflicted_symbol_left_out(l, symbol);
}

/// Of two texts, one comes before the other or is the other.
pub proof fn lemma_lex_le_total(a: Seq<char>, b: Seq<char>, i: int)
    requires
        0 <= i,
    ensures
        lex_le_from(a, b, i) || lex_le_from(b, a, i),
    decreases a.len() - i,
{
    if i < a.len() && i < b.len() {
        if a[i] == b[i] {
            lemma_lex_le_total(a, b, i + 1);
        }
    }
}

/// Where `a` does not come after `b`, nor `b` after `c`, `a` does not come
/// after `c`.
pub proof fn lemma_lex_le_transitive(a: Seq<char>, b: Seq<char>, c: Seq<char>, i: int)
    requires
        0 <= i,
        lex_le_from(a, b, i),
        lex_le_from(b, c, i),
    ensures
        lex_le_from(a, c, i),
    decreases a.len() - i,
{
    if i < a.len() && a[i] == b[i] && b[i] == c[i] {
        lemma_lex_le_transitive(a, b, c, i + 1);
    }
}

/// No entry of the list comes after a later one.
pub open spec fn is_sorted(list: Seq<Seq<char>>) -> bool {
    forall|i: int, j: int| 0 <= i < j < list.len() ==> lex_le(#[trigger] list[i], #[trigger] list[j])
}

/// Where `insert_sorted` puts a new entry.
pub open spec fn insert_position(list: Seq<Seq<char>>, x: Seq<char>) -> int
    decreases list.len(),
{
    if list.len() == 0 {
        0
    } else if lex_le(list.last(), x) {
        list.len() as int
    } else {
        insert_position(list.drop_last(), x)
    }
}

/// `insert_sorted` puts the new entry in at `insert_position`: behind it
/// stand the entries that come after it, and those only.
pub proof fn lemma_insert_position(list: Seq<Seq<char>>, x: Seq<char>)
    ensures
        0 <= insert_position(list, x) <= list.len(),
        insert_sorted(list, x) == list.insert(insert_position(list, x), x),
        insert_position(list, x) > 0 ==> lex_le(list[insert_position(list, x) - 1], x),
        forall|k: int|
            insert_position(list, x) <= k < list.len() ==> !lex_le(#[trigger] list[k], x),
    decreases list.len(),
{
    if list.len() == 0 {
        assert(seq![x] =~= list.insert(0, x));
    } else if lex_le(list.last(), x) {
        assert(list.push(x) =~= list.insert(list.len() as int, x));
    } else {
        let rest = list.drop_last();
        lemma_insert_position(rest, x);
        let p = insert_position(rest, x);
        assert(rest.insert(p, x).push(list.last()) =~= list.insert(p, x));
        assert forall|k: int| p <= k < list.len() implies !lex_le(#[trigger] list[k], x) by {
            if k < rest.len() {
                assert(rest[k] == list[k]);
            }
        }
    }
}

/// Putting an entry into a sorted list leaves it sorted, and adds that entry
/// and nothing else.
pub proof fn lemma_insert_sorted(list: Seq<Seq<char>>, x: Seq<char>)
    requires
        is_sorted(list),
    ensures
        is_sorted(insert_sorted(list, x)),
        insert_sorted(list, x).to_multiset() == list.to_multiset().insert(x),
{
    lemma_insert_position(list, x);
    let p = insert_position(list, x);
    let r = insert_sorted(list, x);
    to_multiset_insert(list, p, x);
    assert forall|i: int, j: int| 0 <= i < j < r.len() implies lex_le(
        #[trigger] r[i],
        #[trigger] r[j],
    ) by {
        if j < p {
            assert(lex_le(list[i], list[j]));
        } else if j == p {
            if i < p - 1 {
                assert(lex_le(list[i], list[p - 1]));
                lemma_lex_le_transitive(list[i], list[p - 1], x, 0);
            }
        } else if i < p {
            assert(lex_le(list[i], list[j - 1]));
        } else if i == p {
            assert(!lex_le(list[j - 1], x));
            lemma_lex_le_total(list[j - 1], x, 0);
        } else {
            assert(lex_le(list[i - 1], list[j - 1]));
        }
    }
}

/// The list in the order of a dictionary is sorted, and holds the entries of
/// the list, each as often as the list does.
pub proof fn lemma_sorted_statements(list: Seq<Seq<char>>)
    ensures
        is_sorted(sorted_statements(list)),
        sorted_statements(list).to_multiset() == list.to_multiset(),
    decreases list.len(),
{
    if list.len() > 0 {
        let rest = list.drop_last();
        lemma_sorted_statements(rest);
        lemma_insert_sorted(sorted_statements(rest), list.last());
        to_multiset_build(rest, list.last());
        assert(rest.push(list.last()) =~= list);
    } else {
        assert(sorted_statements(list) =~= list);
    }
}

/// The global imports are the statements that are kept, each as often as it
/// is kept, and no statement of the list comes after a later one.
pub proof fn lemma_finalized(entries: Seq<EntryView>)
    ensures
        is_sorted(finalized(entries)),
        finalized(entries).to_multiset() == kept_statements(entries).to_multiset(),
{
    lemma_sorted_statements(kept_statements(entries));
}

} // verus!
