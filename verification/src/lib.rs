//! Verified core of a stock-market data service: symbol and date handling,
//! indicator naming, scan bookkeeping and report formatting.
pub mod text;
pub mod symbols;
pub mod dates;
pub mod partitions;
pub mod indicators;
pub mod batches;
pub mod jobs;
pub mod scan;
pub mod report;
pub mod config;
pub mod qmt;
pub mod tdx;
pub mod order;
pub mod patterns;
pub mod feishu;
pub mod storage;
pub mod sync;
pub mod quotes;
pub mod frames;
pub mod times;
pub mod ingest;
pub mod tdx_fallback;
pub mod tools;
