//! Deduplicates identical files that live at the same relative path under
//! several directory trees, by planning hardlink merges.
//!
//! The crate holds the engine: signature-based grouping of candidate files,
//! content-hash confirmation with an inode-keyed memo, deterministic master
//! selection, and the planning of atomic link-replace operations. Callers do
//! the filesystem work (walking trees, reading metadata and file bytes,
//! creating links) and feed the results back in as plain values.

pub mod candidate;
pub mod engine;
pub mod grouping;
pub mod hasher;
pub mod memo;
pub mod merge;
