use vstd::prelude::*;

use crate::quote::{PriceRow, RowView};

verus! {

/// Two rows collide when they share the unique key `(time, symbol)`.
pub open spec fn same_key(a: RowView, b: RowView) -> bool {
    a.time == b.time && a.symbol == b.symbol
}

/// Whether the stored rows `s` already hold the key of `r`.
pub open spec fn holds_key(s: Seq<RowView>, r: RowView) -> bool {
    exists|i: int| 0 <= i < s.len() && same_key(#[trigger] s[i], r)
}

/// No two stored rows share a key.
pub open spec fn keys_unique(s: Seq<RowView>) -> bool {
    forall|i: int, j: int|
        0 <= i < s.len() && 0 <= j < s.len() && i != j ==> !same_key(#[trigger] s[i], #[trigger] s[j])
}

/// The stored rows after a conflict-ignoring insert of `r`: a row whose key
/// is already present leaves the store as it was.
pub open spec fn insert_ignoring(s: Seq<RowView>, r: RowView) -> Seq<RowView> {
    if holds_key(s, r) {
        s
    } else {
        s.push(r)
    }
}

/// The stored rows after conflict-ignoring inserts of `rows`, in order.
pub open spec fn insert_all(s: Seq<RowView>, rows: Seq<RowView>) -> Seq<RowView>
    decreases rows.len(),
{
    if rows.len() == 0 {
        s
    } else {
        insert_ignoring(insert_all(s, rows.drop_last()), rows.last())
    }
}

/// A key that is stored stays stored through further conflict-ignoring inserts.
pub proof fn lemma_insert_all_keeps_key(s: Seq<RowView>, rows: Seq<RowView>, r: RowView)
    requires
        holds_key(s, r),
    ensures
        holds_key(insert_all(s, rows), r),
    decreases rows.len(),
{
    if rows.len() > 0 {
        let prev = insert_all(s, rows.drop_last());
        lemma_insert_all_keeps_key(s, rows.drop_last(), r);
        if !holds_key(prev, rows.last()) {
            let i = choose|i: int| 0 <= i < prev.len() && same_key(#[trigger] prev[i], r);
            assert(prev.push(rows.last())[i] == prev[i]);
        }
    }
}

/// After conflict-ignoring inserts of `rows`, the key of each of them is stored.
pub proof fn lemma_insert_all_stores_keys(s: Seq<RowView>, rows: Seq<RowView>, j: int)
    requires
        0 <= j < rows.len(),
    ensures
        holds_key(insert_all(s, rows), rows[j]),
    decreases rows.len(),
{
    let prev = insert_all(s, rows.drop_last());
    if j == rows.len() - 1 {
        if !holds_key(prev, rows.last()) {
            let t = prev.push(rows.last());
            assert(same_key(t[prev.len() as int], rows[j]));
        }
    } else {
        lemma_insert_all_stores_keys(s, rows.drop_last(), j);
        assert(rows.drop_last()[j] == rows[j]);
        if !holds_key(prev, rows.last()) {
            let i = choose|i: int| 0 <= i < prev.len() && same_key(#[trigger] prev[i], rows[j]);
            assert(prev.push(rows.last())[i] == prev[i]);
        }
    }
}

/// Inserting rows whose keys are all stored already changes nothing.
pub proof fn lemma_insert_all_present(t: Seq<RowView>, rows: Seq<RowView>)
    requires
        forall|j: int| 0 <= j < rows.len() ==> holds_key(t, #[trigger] rows[j]),
    ensures
        insert_all(t, rows) == t,
    decreases rows.len(),
{
    if rows.len() > 0 {
        assert forall|j: int| 0 <= j < rows.drop_last().len() implies holds_key(
            t,
            #[trigger] rows.drop_last()[j],
        ) by {
            assert(rows.drop_last()[j] == rows[j]);
        }
        lemma_insert_all_present(t, rows.drop_last());
        assert(holds_key(t, rows[rows.len() - 1]));
    }
}

/// Conflict-ignoring inserts never give two stored rows the same key.
pub proof fn lemma_insert_all_keys_unique(s: Seq<RowView>, rows: Seq<RowView>)
    requires
        keys_unique(s),
    ensures
        keys_unique(insert_all(s, rows)),
    decreases rows.len(),
{
    if rows.len() > 0 {
        let prev = insert_all(s, rows.drop_last());
        lemma_insert_all_keys_unique(s, rows.drop_last());
        let r = rows.last();
        if !holds_key(prev, r) {
            let t = prev.push(r);
            assert forall|i: int, j: int|
                0 <= i < t.len() && 0 <= j < t.len() && i != j implies !same_key(
                #[trigger] t[i],
                #[trigger] t[j],
            ) by {
                if i == prev.len() {
                    assert(!same_key(prev[j], r));
                } else if j == prev.len() {
                    assert(!same_key(prev[i], r));
                } else {
                    assert(t[i] == prev[i] && t[j] == prev[j]);
                }
            }
        }
    }
}

/// Inserting the same rows a second time leaves the store as the first time
/// left it.
pub proof fn lemma_insert_all_twice(s: Seq<RowView>, rows: Seq<RowView>)
    ensures
        insert_all(insert_all(s, rows), rows) == insert_all(s, rows),
{
    let once = insert_all(s, rows);
    assert forall|j: int| 0 <= j < rows.len() implies holds_key(once, #[trigger] rows[j]) by {
        lemma_insert_all_stores_keys(s, rows, j);
    }
    lemma_insert_all_present(once, rows);
}

/// A price table whose rows are unique by `(time, symbol)`; inserting a row
/// whose key is already present is silently ignored.
#[derive(Debug)]
pub struct PriceTable {
    rows: Vec<PriceRow>,
}

impl View for PriceTable {
    type V = Seq<RowView>;

    closed spec fn view(&self) -> Seq<RowView> {
        self.rows@.map_values(|r: PriceRow| r@)
    }
}

impl PriceTable {
    pub open spec fn wf(&self) -> bool {
        keys_unique(self@)
    }

    /// An empty table.
    pub fn new() -> (t: PriceTable)
        ensures
            t.wf(),
            t@ == Seq::<RowView>::empty(),
    {
        let t = PriceTable { rows: Vec::new() };
        assert(t@ =~= Seq::<RowView>::empty());
        t
    }

    /// The number of stored rows.
    pub fn len(&self) -> (n: usize)
        ensures
            n == self@.len(),
    {
        self.rows.len()
    }

    /// The stored row at position `i`, rows kept in order of insertion.
    pub fn get(&self, i: usize) -> (r: &PriceRow)
        requires
            i < self@.len(),
        ensures
            r@ == self@[i as int],
    {
        &self.rows[i]
    }

    /// Whether a row with this `(time, symbol)` is stored.
    pub fn contains_key(&self, time: i64, symbol: &String) -> (found: bool)
        ensures
            found == (exists|i: int|
                0 <= i < self@.len() && #[trigger] self@[i].time == time as int
                    && self@[i].symbol == symbol@),
    {
        let mut i: usize = 0;
        while i < self.rows.len()
            invariant
                i <= self.rows.len(),
                self@.len() == self.rows.len(),
                forall|j: int|
                    0 <= j < i ==> !(#[trigger] self@[j].time == time as int
                        && self@[j].symbol == symbol@),
            decreases self.rows.len() - i,
        {
            let row = &self.rows[i];
            if row.time == time && row.symbol == *symbol {
                assert(self@[i as int] == row@);
                assert(self@[i as int].time == time as int && self@[i as int].symbol == symbol@);
                return true;
            }
            assert(self@[i as int] == row@);
            i = i + 1;
        }
        false
    }

    /// The number of stored rows of `symbol`.
    pub fn count_symbol(&self, symbol: &String) -> (n: usize)
        ensures
            n == self@.filter(|r: RowView| r.symbol == symbol@).len(),
    {
        let mut n: usize = 0;
        let mut i: usize = 0;
        while i < self.rows.len()
            invariant
                i <= self.rows.len(),
                self@.len() == self.rows.len(),
                n == self@.take(i as int).filter(|r: RowView| r.symbol == symbol@).len(),
                n <= i,
            decreases self.rows.len() - i,
        {
            proof {
                assert(self@.take(i + 1).drop_last() =~= self@.take(i as int));
                reveal(Seq::filter);
            }
            if self.rows[i].symbol == *symbol {
                n = n + 1;
            }
            i = i + 1;
        }
        assert(self@.take(i as int) =~= self@);
        n
    }

    /// Inserts `row` unless a row with its `(time, symbol)` is stored already;
    /// tells whether it was added.
    pub fn insert(&mut self, row: PriceRow) -> (added: bool)
        requires
            old(self).wf(),
        ensures
            final(self).wf(),
            final(self)@ == insert_ignoring(old(self)@, row@),
            added == !holds_key(old(self)@, row@),
    {
        let present = self.contains_key(row.time, &row.symbol);
        if present {
            false
        } else {
            let ghost before = self@;
            self.rows.push(row);
            proof {
                assert(self@ =~= before.push(row@));
                assert(!holds_key(before, row@)) by {
                    if holds_key(before, row@) {
                        let i = choose|i: int| 0 <= i < before.len() && same_key(#[trigger] before[i], row@);
                        assert(before[i].time == row.time as int);
                    }
                }
            }
            true
        }
    }
}

} // verus!
