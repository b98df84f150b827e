//! Routing of grouped candle records through a chain of per-key handlers,
//! with a last-value cache and explicit persistence jobs.

pub mod aggregator;
pub mod batch;
pub mod cache;
pub mod chain;
pub mod config;
pub mod exchange;
pub mod http_client;
pub mod kline;
