//! Fetch, cache and synchronisation core of a reader that gathers serialised
//! fiction from several upstream sites behind one uniform interface.
//!
//! - [`cache`]: a bounded response cache with per-entry expiry.
//! - [`retry`]: the bounded retry-with-backoff policy for upstream fetches.
//! - [`fetch`]: cache-backed reads that fetch, retry and store on a miss.
//! - [`sync`]: merge rules for favourite records and the two refresh cadences.
//! - [`modules`]: the supported sources.
//! - [`nocturne`]: query rules of the adult site's search API.
//! - [`keys`]: cache key layout and time-to-live policy.
//! - [`ranking`]: validation of ranking periods.
//! - [`toc`]: tables of contents, their numbering and page locators.
//! - [`config`]: server settings from raw environment values.
//!
//! Time is always passed in by the caller, as milliseconds on a monotonic
//! clock, so every decision here is a function of its arguments.

pub mod cache;
pub mod config;
pub mod error;
pub mod fetch;
pub mod keys;
pub mod modules;
pub mod nocturne;
pub mod ranking;
pub mod retry;
pub mod sync;
pub mod toc;
