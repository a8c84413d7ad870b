//! Incremental ingestion of market candles: where ingestion resumes, how the
//! boundary bucket is re-written, and an audit of the fetched batch for
//! missing buckets.

pub mod bot;
pub mod candle;
pub mod gap;
pub mod laws;
pub mod reconcile;
pub mod store;
