//! Ingestion of daily price bars for one ticker symbol: the lookback window,
//! the checks applied to each provider record, a duplicate-ignoring price
//! table, and the per-symbol ingestion that ties them together.

pub mod ingest;
pub mod quote;
pub mod table;
pub mod window;
