//! Crawl orchestration for time-bounded giveaway campaigns found through web
//! search: page scraping, per-host rate limiting, the discovery pipeline, the
//! keyed record store, the staleness-driven refresh scheduler and the plans
//! for mirroring active records to a document index.
//!
//! Everything here is pure: network transfers, files, clocks and sleeping are
//! left to the caller, who feeds results and timestamps in and carries the
//! returned actions out.

pub mod config;
pub mod cycle;
pub mod error;
pub mod gleam;
pub mod google;
pub mod intermediary;
pub mod limiter;
pub mod pipeline;
pub mod record;
pub mod refresh;
pub mod store;
pub mod sync;
pub mod text;
