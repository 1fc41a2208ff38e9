use vstd::prelude::*;

verus! {

/// One bar as the market-data provider hands it over. The four prices are
/// carried as IEEE-754 `f64` bit patterns and are passed through untouched.
#[derive(Clone, Copy, Debug, PartialEq, Eq, Structural)]
pub struct RawQuote {
    /// Seconds since the Unix epoch.
    pub timestamp: u64,
    pub open: u64,
    pub high: u64,
    pub low: u64,
    pub close: u64,
    pub volume: u64,
}

/// A price row ready for storage. `time` is in seconds since the Unix epoch;
/// the prices are `f64` bit patterns.
#[derive(Debug)]
pub struct PriceRow {
    pub time: i64,
    pub symbol: String,
    pub open: u64,
    pub high: u64,
    pub low: u64,
    pub close: u64,
    pub volume: i64,
}

/// What a price row holds, with the symbol as a sequence of characters.
pub ghost struct RowView {
    pub time: int,
    pub symbol: Seq<char>,
    pub open: u64,
    pub high: u64,
    pub low: u64,
    pub close: u64,
    pub volume: i64,
}

impl View for PriceRow {
    type V = RowView;

    open spec fn view(&self) -> RowView {
        RowView {
            time: self.time as int,
            symbol: self.symbol@,
            open: self.open,
            high: self.high,
            low: self.low,
            close: self.close,
            volume: self.volume,
        }
    }
}

/// Whether the date library can build an instant from this Unix timestamp.
pub uninterp spec fn representable_instant(ts: int) -> bool;

/// Relies on time::OffsetDateTime::from_unix_timestamp: it accepts a timestamp
/// exactly when the instant lies in its supported date range, which holds every
/// instant from 1970 to the end of the year 9999, and the instant it builds
/// reads back the same Unix timestamp.
#[verifier::external_body]
fn instant_from_unix(ts: i64) -> (r: Option<i64>)
    ensures
        r.is_some() == representable_instant(ts as int),
        r matches Some(t) ==> t == ts,
        0 <= ts <= 253402300799 ==> r.is_some(),
{
    match time::OffsetDateTime::from_unix_timestamp(ts) {
        Ok(t) => Some(t.unix_timestamp()),
        Err(_) => None,
    }
}

/// The row that a quote of `symbol` becomes once its timestamp was read as
/// the instant `time`.
pub open spec fn row_at(symbol: Seq<char>, q: RawQuote, time: int) -> RowView {
    RowView {
        time,
        symbol,
        open: q.open,
        high: q.high,
        low: q.low,
        close: q.close,
        volume: q.volume as i64,
    }
}

/// The row a quote becomes, or `None` where its timestamp is no instant.
pub open spec fn row_of(symbol: Seq<char>, q: RawQuote) -> Option<RowView> {
    if q.timestamp <= i64::MAX && representable_instant(q.timestamp as int) {
        Some(row_at(symbol, q, q.timestamp as int))
    } else {
        None
    }
}

/// The view of an optional row.
pub open spec fn opt_row_view(r: Option<PriceRow>) -> Option<RowView> {
    match r {
        Some(row) => Some(row@),
        None => None,
    }
}

/// Builds the row for `quote` from the instant its timestamp was read as,
/// or gives `None` where the timestamp could not be read.
pub fn build_row(symbol: &String, quote: &RawQuote, instant: Option<i64>) -> (r: Option<PriceRow>)
    ensures
        opt_row_view(r) == (match instant {
            Some(t) => Some(row_at(symbol@, *quote, t as int)),
            None => None::<RowView>,
        }),
{
    match instant {
        Some(t) => Some(
            PriceRow {
                time: t,
                symbol: symbol.clone(),
                open: quote.open,
                high: quote.high,
                low: quote.low,
                close: quote.close,
                volume: quote.volume as i64,
            },
        ),
        None => None,
    }
}

/// Turns one provider quote into a row of `symbol`; a quote whose timestamp is
/// no representable instant gives `None`. Prices and volume are not checked.
pub fn to_price_row(symbol: &String, quote: &RawQuote) -> (r: Option<PriceRow>)
    ensures
        opt_row_view(r) == row_of(symbol@, *quote),
        quote.timestamp <= 253402300799 ==> r is Some,
{
    if quote.timestamp > i64::MAX as u64 {
        None
    } else {
        build_row(symbol, quote, instant_from_unix(quote.timestamp as i64))
    }
}

} // verus!
