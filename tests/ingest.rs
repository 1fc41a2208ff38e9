use quantlab_core::ingest::{ingest_into_table, Action, Ingestion, Retrieval};
use quantlab_core::quote::{build_row, to_price_row, RawQuote};
use quantlab_core::table::PriceTable;
use quantlab_core::window::{lookback_window, SECONDS_PER_DAY};

const DAY0: u64 = 1_700_006_400;

fn quote(timestamp: u64, price: f64, volume: u64) -> RawQuote {
    RawQuote {
        timestamp,
        open: price.to_bits(),
        high: (price + 1.0).to_bits(),
        low: (price - 1.0).to_bits(),
        close: (price + 0.5).to_bits(),
        volume,
    }
}

fn daily_quotes(n: u64) -> Vec<RawQuote> {
    let mut v = Vec::new();
    for i in 0..n {
        v.push(quote(DAY0 + i * 86_400, 100.0 + i as f64, 1_000 + i));
    }
    v
}

fn sym(s: &str) -> String {
    s.to_string()
}

#[test]
fn window_ends_now_and_starts_days_before() {
    let w = lookback_window(1_700_000_000, 5);
    assert_eq!(w.end, 1_700_000_000);
    assert_eq!(w.start, 1_700_000_000 - 5 * 86_400);
    assert!(w.start <= w.end);
    assert_eq!(SECONDS_PER_DAY, 86_400);
}

#[test]
fn window_of_zero_days_is_empty() {
    let w = lookback_window(42, 0);
    assert_eq!(w.start, 42);
    assert_eq!(w.end, 42);
}

#[test]
fn window_of_negative_days_is_inverted() {
    let w = lookback_window(0, -2);
    assert_eq!(w.start, 172_800);
    assert!(w.start > w.end);
}

#[test]
fn quote_becomes_row_with_its_fields() {
    let q = quote(DAY0, 12.5, 7);
    let row = to_price_row(&sym("AAPL"), &q).unwrap();
    assert_eq!(row.time, DAY0 as i64);
    assert_eq!(row.symbol, "AAPL");
    assert_eq!(f64::from_bits(row.open), 12.5);
    assert_eq!(f64::from_bits(row.high), 13.5);
    assert_eq!(f64::from_bits(row.low), 11.5);
    assert_eq!(f64::from_bits(row.close), 13.0);
    assert_eq!(row.volume, 7);
}

#[test]
fn epoch_and_large_valid_timestamps_are_kept() {
    assert_eq!(to_price_row(&sym("X"), &quote(0, 1.0, 1)).unwrap().time, 0);
    let end_of_9999: u64 = 253_402_300_799;
    assert_eq!(to_price_row(&sym("X"), &quote(end_of_9999, 1.0, 1)).unwrap().time, end_of_9999 as i64);
}

#[test]
fn unrepresentable_timestamps_are_skipped() {
    assert!(to_price_row(&sym("X"), &quote(1_000_000_000_000_000, 1.0, 1)).is_none());
    assert!(to_price_row(&sym("X"), &quote(u64::MAX, 1.0, 1)).is_none());
}

#[test]
fn volume_beyond_i64_wraps_as_a_cast() {
    let row = to_price_row(&sym("X"), &quote(DAY0, 1.0, u64::MAX)).unwrap();
    assert_eq!(row.volume, -1);
}

#[test]
fn build_row_follows_the_given_instant() {
    let q = quote(DAY0, 3.0, 9);
    assert_eq!(build_row(&sym("X"), &q, Some(77)).unwrap().time, 77);
    assert!(build_row(&sym("X"), &q, None).is_none());
}

#[test]
fn five_good_quotes_give_five_rows() {
    let mut t = PriceTable::new();
    let n = ingest_into_table(&mut t, &sym("AAPL"), Retrieval::Quotes(daily_quotes(5)));
    assert_eq!(n, 5);
    assert_eq!(t.len(), 5);
    assert_eq!(t.count_symbol(&sym("AAPL")), 5);
    for i in 0..5u64 {
        assert!(t.contains_key((DAY0 + i * 86_400) as i64, &sym("AAPL")));
    }
}

#[test]
fn empty_retrieval_leaves_storage_unchanged() {
    let mut t = PriceTable::new();
    ingest_into_table(&mut t, &sym("AAPL"), Retrieval::Quotes(daily_quotes(2)));
    let n = ingest_into_table(&mut t, &sym("ZZZZ"), Retrieval::Quotes(Vec::new()));
    assert_eq!(n, 0);
    assert_eq!(t.len(), 2);
    assert_eq!(t.count_symbol(&sym("ZZZZ")), 0);
}

#[test]
fn failed_retrieval_counts_zero_and_writes_nothing() {
    let mut t = PriceTable::new();
    ingest_into_table(&mut t, &sym("AAPL"), Retrieval::Quotes(daily_quotes(3)));
    let n = ingest_into_table(&mut t, &sym("AAPL"), Retrieval::Failed);
    assert_eq!(n, 0);
    assert_eq!(t.len(), 3);
}

#[test]
fn one_invalid_timestamp_among_ten_gives_nine_rows() {
    let mut qs = daily_quotes(10);
    qs[4].timestamp = 1_000_000_000_000_000;
    let mut t = PriceTable::new();
    let n = ingest_into_table(&mut t, &sym("MSFT"), Retrieval::Quotes(qs));
    assert_eq!(n, 9);
    assert_eq!(t.len(), 9);
    assert!(!t.contains_key((DAY0 + 4 * 86_400) as i64, &sym("MSFT")));
}

#[test]
fn ingesting_twice_keeps_five_rows() {
    let mut t = PriceTable::new();
    let first = ingest_into_table(&mut t, &sym("AAPL"), Retrieval::Quotes(daily_quotes(5)));
    let second = ingest_into_table(&mut t, &sym("AAPL"), Retrieval::Quotes(daily_quotes(5)));
    assert_eq!(first, 5);
    assert_eq!(second, 5);
    assert_eq!(t.len(), 5);
    assert_eq!(t.count_symbol(&sym("AAPL")), 5);
}

#[test]
fn overlapping_windows_store_each_key_once() {
    let mut t = PriceTable::new();
    ingest_into_table(&mut t, &sym("AAPL"), Retrieval::Quotes(daily_quotes(5)));
    ingest_into_table(&mut t, &sym("AAPL"), Retrieval::Quotes(daily_quotes(8)));
    assert_eq!(t.len(), 8);
    for i in 0..t.len() {
        for j in 0..t.len() {
            if i != j {
                let (a, b) = (t.get(i), t.get(j));
                assert!(!(a.time == b.time && a.symbol == b.symbol));
            }
        }
    }
}

#[test]
fn same_time_different_symbols_are_distinct_rows() {
    let mut t = PriceTable::new();
    ingest_into_table(&mut t, &sym("AAPL"), Retrieval::Quotes(daily_quotes(3)));
    ingest_into_table(&mut t, &sym("MSFT"), Retrieval::Quotes(daily_quotes(3)));
    assert_eq!(t.len(), 6);
    assert_eq!(t.count_symbol(&sym("MSFT")), 3);
}

#[test]
fn table_insert_ignores_a_duplicate_key() {
    let mut t = PriceTable::new();
    let a = to_price_row(&sym("AAPL"), &quote(DAY0, 1.0, 1)).unwrap();
    let b = to_price_row(&sym("AAPL"), &quote(DAY0, 2.0, 2)).unwrap();
    assert!(t.insert(a));
    assert!(!t.insert(b));
    assert_eq!(t.len(), 1);
    assert_eq!(f64::from_bits(t.get(0).open), 1.0);
}

#[test]
fn failed_writes_are_not_counted() {
    let mut qs = daily_quotes(3);
    qs[1].timestamp = u64::MAX;
    let mut run = Ingestion::start(sym("AAPL"), Retrieval::Quotes(qs));
    let mut times = Vec::new();
    let mut outcome = true;
    let count = loop {
        match run.next_action() {
            Action::Persist(row) => {
                times.push(row.time);
                run.record_write(outcome);
                outcome = !outcome;
            }
            Action::Finish(n) => break n,
        }
    };
    assert_eq!(times, vec![DAY0 as i64, (DAY0 + 2 * 86_400) as i64]);
    assert_eq!(count, 1);
}

#[test]
fn empty_retrieval_finishes_at_once() {
    let mut run = Ingestion::start(sym("ZZZZ"), Retrieval::Quotes(Vec::new()));
    assert!(matches!(run.next_action(), Action::Finish(0)));
    let mut failed = Ingestion::start(sym("ZZZZ"), Retrieval::Failed);
    assert!(matches!(failed.next_action(), Action::Finish(0)));
}
