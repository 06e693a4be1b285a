//! Renders one fetched forum topic into a self-contained, offline-safe
//! artifact: a directory with an HTML page plus a deduplicated asset tree, or
//! a single HTML file with every asset inlined as a data URI.
//!
//! This crate holds the verified core: URL resolution, the content-addressed
//! asset store model, the recursive CSS bundler, the per-element HTML rewrite
//! rules, and the strict offline validator. Network, disk and DOM plumbing
//! live outside the library and drive these functions.

pub mod assets;
pub mod cli;
pub mod cssbundle;
pub mod cssscan;
pub mod fetchplan;
pub mod htmlrewrite;
pub mod page;
pub mod progress;
pub mod sniff;
pub mod strict;
pub mod strutil;
pub mod topic;
pub mod urlres;
