use vstd::prelude::*;

use crate::quote::{opt_row_view, row_of, to_price_row, PriceRow, RawQuote, RowView};
use crate::table::{
    insert_all, keys_unique, lemma_insert_all_keys_unique, lemma_insert_all_twice, PriceTable,
};

verus! {

/// What asking the provider for a symbol's history came to.
#[derive(Debug)]
pub enum Retrieval {
    /// The provider answered with these quotes, possibly none.
    Quotes(Vec<RawQuote>),
    /// The provider could not be asked or gave an error.
    Failed,
}

/// The quotes a retrieval hands on: a failed one counts as no quotes at all.
pub open spec fn retrieved(r: Retrieval) -> Seq<RawQuote> {
    match r {
        Retrieval::Quotes(q) => q@,
        Retrieval::Failed => Seq::empty(),
    }
}

/// The rows that `quotes` of `symbol` become, in order; quotes whose
/// timestamp is no instant are left out.
pub open spec fn rows_of(symbol: Seq<char>, quotes: Seq<RawQuote>) -> Seq<RowView>
    decreases quotes.len(),
{
    if quotes.len() == 0 {
        Seq::empty()
    } else {
        let prev = rows_of(symbol, quotes.drop_last());
        match row_of(symbol, quotes.last()) {
            Some(r) => prev.push(r),
            None => prev,
        }
    }
}

/// The position of the first quote at or after `from` that makes a row, or
/// the number of quotes where none does.
pub open spec fn next_row_index(symbol: Seq<char>, quotes: Seq<RawQuote>, from: int) -> int
    decreases quotes.len() - from,
{
    if from >= quotes.len() {
        quotes.len() as int
    } else if row_of(symbol, quotes[from]) is Some {
        from
    } else {
        next_row_index(symbol, quotes, from + 1)
    }
}

/// The rows of the first `k + 1` quotes extend those of the first `k` by the
/// row of quote `k`, if it makes one.
proof fn lemma_rows_of_step(symbol: Seq<char>, quotes: Seq<RawQuote>, k: int)
    requires
        0 <= k < quotes.len(),
    ensures
        rows_of(symbol, quotes.take(k + 1)) == (match row_of(symbol, quotes[k]) {
            Some(r) => rows_of(symbol, quotes.take(k)).push(r),
            None => rows_of(symbol, quotes.take(k)),
        }),
{
    assert(quotes.take(k + 1).drop_last() =~= quotes.take(k));
    assert(quotes.take(k + 1).last() == quotes[k]);
}

/// The quotes skipped on the way to the next one that makes a row add no row.
proof fn lemma_rows_of_skip(symbol: Seq<char>, quotes: Seq<RawQuote>, p: int)
    requires
        0 <= p <= quotes.len(),
    ensures
        p <= next_row_index(symbol, quotes, p) <= quotes.len(),
        rows_of(symbol, quotes.take(next_row_index(symbol, quotes, p))) == rows_of(
            symbol,
            quotes.take(p),
        ),
    decreases quotes.len() - p,
{
    if p < quotes.len() && row_of(symbol, quotes[p]) is None {
        lemma_rows_of_step(symbol, quotes, p);
        lemma_rows_of_skip(symbol, quotes, p + 1);
    }
}

/// Runs the ingestion of `symbol` against an in-memory table: every quote with
/// a representable timestamp becomes a row, inserted unless its
/// `(time, symbol)` is stored already. Returns the number of inserts that went
/// through, duplicates that were ignored included.
pub fn ingest_into_table(table: &mut PriceTable, symbol: &String, retrieval: Retrieval) -> (count:
    usize)
    requires
        old(table).wf(),
    ensures
        final(table).wf(),
        final(table)@ == insert_all(old(table)@, rows_of(symbol@, retrieved(retrieval))),
        count == rows_of(symbol@, retrieved(retrieval)).len(),
{
    let ghost quotes = retrieved(retrieval);
    let mut run = Ingestion::start(symbol.clone(), retrieval);
    assert(quotes.take(0) =~= Seq::<RawQuote>::empty());
    loop
        invariant
            run.wf(),
            !run.awaiting_write(),
            run.symbol() == symbol@,
            run.quotes() == quotes,
            quotes == retrieved(retrieval),
            0 <= run.position() <= quotes.len(),
            table.wf(),
            table@ == insert_all(old(table)@, rows_of(symbol@, quotes.take(run.position()))),
            run.written() == rows_of(symbol@, quotes.take(run.position())).len(),
        decreases quotes.len() - run.position(),
    {
        let ghost p = run.position();
        proof {
            lemma_rows_of_skip(symbol@, quotes, p);
        }
        let ghost k = next_row_index(symbol@, quotes, p);
        match run.next_action() {
            Action::Persist(row) => {
                proof {
                    lemma_rows_of_step(symbol@, quotes, k);
                    let prev = rows_of(symbol@, quotes.take(k));
                    assert(prev.push(row@).drop_last() =~= prev);
                }
                table.insert(row);
                run.record_write(true);
            },
            Action::Finish(n) => {
                assert(k == quotes.len());
                assert(quotes.take(quotes.len() as int) =~= quotes);
                assert(rows_of(symbol@, quotes.take(k)) == rows_of(symbol@, quotes));
                return n;
            },
        }
    }
}

/// Ingesting the same quotes of a symbol a second time leaves the store as the
/// first run left it, and no run ever stores two rows with the same
/// `(time, symbol)`, whatever the quotes of each run.
pub proof fn lemma_ingest_idempotent(
    s: Seq<RowView>,
    symbol: Seq<char>,
    quotes: Seq<RawQuote>,
    later: Seq<RawQuote>,
)
    requires
        keys_unique(s),
    ensures
        insert_all(insert_all(s, rows_of(symbol, quotes)), rows_of(symbol, quotes)) == insert_all(
            s,
            rows_of(symbol, quotes),
        ),
        keys_unique(insert_all(s, rows_of(symbol, quotes))),
        keys_unique(insert_all(insert_all(s, rows_of(symbol, quotes)), rows_of(symbol, later))),
{
    lemma_insert_all_twice(s, rows_of(symbol, quotes));
    lemma_insert_all_keys_unique(s, rows_of(symbol, quotes));
    lemma_insert_all_keys_unique(insert_all(s, rows_of(symbol, quotes)), rows_of(symbol, later));
}

proof fn lemma_rows_of_len_one_bad(symbol: Seq<char>, quotes: Seq<RawQuote>, bad: int, n: int)
    requires
        0 <= bad < quotes.len(),
        0 <= n <= quotes.len(),
        row_of(symbol, quotes[bad]) is None,
        forall|j: int| 0 <= j < quotes.len() && j != bad ==> (#[trigger] row_of(symbol, quotes[j])) is Some,
    ensures
        rows_of(symbol, quotes.take(n)).len() == n - (if bad < n { 1int } else { 0 }),
    decreases n,
{
    if n == 0 {
        assert(quotes.take(0) =~= Seq::<RawQuote>::empty());
    } else {
        lemma_rows_of_len_one_bad(symbol, quotes, bad, n - 1);
        lemma_rows_of_step(symbol, quotes, n - 1);
        if n - 1 != bad {
            assert(row_of(symbol, quotes[n - 1]) is Some);
        }
    }
}

/// When exactly one of `N` quotes has a timestamp that is no instant, the
/// other `N - 1` become rows, and so many writes are handed out.
pub proof fn lemma_one_bad_timestamp(symbol: Seq<char>, quotes: Seq<RawQuote>, bad: int)
    requires
        0 <= bad < quotes.len(),
        row_of(symbol, quotes[bad]) is None,
        forall|j: int| 0 <= j < quotes.len() && j != bad ==> (#[trigger] row_of(symbol, quotes[j])) is Some,
    ensures
        rows_of(symbol, quotes).len() == quotes.len() - 1,
{
    lemma_rows_of_len_one_bad(symbol, quotes, bad, quotes.len() as int);
    assert(quotes.take(quotes.len() as int) =~= quotes);
}

/// When the provider returns no quotes, the ingestion finishes at its first
/// step with a count of 0 and no write: the store is left as it was.
pub proof fn lemma_empty_retrieval(s: Seq<RowView>, symbol: Seq<char>, quotes: Seq<RawQuote>)
    requires
        quotes.len() == 0,
    ensures
        next_row_index(symbol, quotes, 0) == 0,
        rows_of(symbol, quotes).len() == 0,
        insert_all(s, rows_of(symbol, quotes)) == s,
{
}

/// A failed retrieval is no error: it counts as no quotes, so the ingestion
/// finishes at its first step with a count of 0 and leaves the store as it was.
pub proof fn lemma_failed_retrieval(s: Seq<RowView>, symbol: Seq<char>)
    ensures
        retrieved(Retrieval::Failed).len() == 0,
        next_row_index(symbol, retrieved(Retrieval::Failed), 0) == 0,
        rows_of(symbol, retrieved(Retrieval::Failed)).len() == 0,
        insert_all(s, rows_of(symbol, retrieved(Retrieval::Failed))) == s,
{
    lemma_empty_retrieval(s, symbol, retrieved(Retrieval::Failed));
}

/// What the ingestion asks its caller to do next.
#[derive(Debug)]
pub enum Action {
    /// Write this row with a conflict-ignoring insert and report whether the
    /// statement succeeded.
    Persist(PriceRow),
    /// All quotes are handled; this many writes succeeded.
    Finish(usize),
}

/// The ingestion of one symbol's retrieved quotes, one row write at a time.
/// Quotes are visited in order; the caller performs each write and reports
/// its outcome, and a failed write only goes uncounted.
#[derive(Debug)]
pub struct Ingestion {
    symbol: String,
    quotes: Vec<RawQuote>,
    next: usize,
    written: usize,
    awaiting: bool,
}

impl Ingestion {
    pub closed spec fn symbol(&self) -> Seq<char> {
        self.symbol@
    }

    pub closed spec fn quotes(&self) -> Seq<RawQuote> {
        self.quotes@
    }

    /// How many quotes have been visited.
    pub closed spec fn position(&self) -> int {
        self.next as int
    }

    /// How many writes have succeeded.
    pub closed spec fn written(&self) -> int {
        self.written as int
    }

    /// Whether a write was handed out and its outcome is not yet reported.
    pub closed spec fn awaiting_write(&self) -> bool {
        self.awaiting
    }

    pub closed spec fn wf(&self) -> bool {
        &&& self.next <= self.quotes@.len()
        &&& self.written + (if self.awaiting { 1int } else { 0 }) <= self.next
    }

    /// Starts the ingestion of what the provider returned for `symbol`.
    pub fn start(symbol: String, retrieval: Retrieval) -> (run: Ingestion)
        ensures
            run.wf(),
            run.symbol() == symbol@,
            run.quotes() == retrieved(retrieval),
            run.position() == 0,
            run.written() == 0,
            !run.awaiting_write(),
    {
        let quotes = match retrieval {
            Retrieval::Quotes(q) => q,
            Retrieval::Failed => Vec::new(),
        };
        Ingestion { symbol, quotes, next: 0, written: 0, awaiting: false }
    }

    /// Skips the quotes whose timestamp is no instant and hands out the row of
    /// the next one; once none is left, finishes with the count of successful
    /// writes.
    pub fn next_action(&mut self) -> (a: Action)
        requires
            old(self).wf(),
            !old(self).awaiting_write(),
        ensures
            final(self).wf(),
            final(self).symbol() == old(self).symbol(),
            final(self).quotes() == old(self).quotes(),
            final(self).written() == old(self).written(),
            ({
                let k = next_row_index(old(self).symbol(), old(self).quotes(), old(self).position());
                if k < old(self).quotes().len() {
                    &&& a matches Action::Persist(row)
                    &&& opt_row_view(Some(row)) == row_of(old(self).symbol(), old(self).quotes()[k])
                    &&& final(self).position() == k + 1
                    &&& final(self).awaiting_write()
                } else {
                    &&& a matches Action::Finish(n)
                    &&& n == old(self).written()
                    &&& final(self).position() == old(self).quotes().len()
                    &&& !final(self).awaiting_write()
                }
            }),
    {
        while self.next < self.quotes.len()
            invariant
                self.symbol@ == old(self).symbol@,
                self.quotes@ == old(self).quotes@,
                self.written == old(self).written,
                !self.awaiting,
                old(self).next <= self.next <= self.quotes@.len(),
                next_row_index(self.symbol@, self.quotes@, old(self).next as int)
                    == next_row_index(self.symbol@, self.quotes@, self.next as int),
                self.written <= old(self).next,
            decreases self.quotes@.len() - self.next,
        {
            let i = self.next;
            let row = to_price_row(&self.symbol, &self.quotes[i]);
            match row {
                Some(r) => {
                    self.next = i + 1;
                    self.awaiting = true;
                    return Action::Persist(r);
                },
                None => {
                    self.next = i + 1;
                },
            }
        }
        Action::Finish(self.written)
    }

    /// Records whether the write last handed out succeeded.
    pub fn record_write(&mut self, succeeded: bool)
        requires
            old(self).wf(),
            old(self).awaiting_write(),
        ensures
            final(self).wf(),
            final(self).symbol() == old(self).symbol(),
            final(self).quotes() == old(self).quotes(),
            final(self).position() == old(self).position(),
            final(self).written() == old(self).written() + (if succeeded { 1int } else { 0 }),
            !final(self).awaiting_write(),
    {
        if succeeded {
            self.written = self.written + 1;
        }
        self.awaiting = false;
    }
}

} // verus!
