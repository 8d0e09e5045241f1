//! Crowd-level tracking for a fixed set of climbing-gym websites.
//!
//! The crate derives a 0–100 occupancy percentage from heterogeneous web
//! payloads through a cascade of extraction strategies, classifies it,
//! keeps timestamped samples in an append-only store, and maintains
//! rolling per-weekday/per-hour averages over a trailing window.

pub mod percent;
pub mod classify;
pub mod extract;
pub mod store;
pub mod config;
pub mod aggregate;
pub mod fetcher;
pub mod scheduler;
pub mod report;
