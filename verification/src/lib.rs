//! Build-time compiler for single-page-application asset bundles.
//!
//! A directory tree of pre-built static assets is turned into an immutable
//! in-memory route table: one exact-match entry per regular file, plus a
//! single fallback entry that always serves the entry document
//! (the asset at route `/index.html`).

pub mod asset;
pub mod error;
pub mod laws;
pub mod table;
