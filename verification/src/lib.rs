//! An in-memory OHLCV candle aggregation engine.
//!
//! A stream of trade ticks (price, volume, timestamp) is bucketed into
//! fixed-width time intervals and aggregated into bounded, time-ordered
//! series of open/high/low/close/volume candles, one series per
//! (symbol, interval) pair, for use by a charting client.

pub mod bucket;
pub mod candle;
pub mod chart;
pub mod ingest;
pub mod laws;
pub mod series;
pub mod store;
