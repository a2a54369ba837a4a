//! A verified core for a market-data archive scraper: it checks
//! downloaded archives against their published checksums, validates
//! the extracted time series, detects and merges coverage gaps, drives
//! the download and month-walk protocols as state machines, and folds
//! per-asset outcomes into a run-wide manifest.

pub mod asset_file;
pub mod download;
pub mod extract;
pub mod input;
pub mod scheduler;
pub mod utils;
