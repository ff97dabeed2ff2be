//! Core of a full-text search index engine: the index coordinator that owns
//! the durable state of a searchable corpus.
//!
//! The crate provides:
//! - a write-once-read-many [`Directory`](directory::Directory) abstraction
//!   with an in-memory implementation, [`RamDirectory`](ram_directory::RamDirectory);
//! - the [`IndexMeta`](meta::IndexMeta) record, persisted at `meta.json`
//!   through an atomic write, together with its canonical byte encoding;
//! - a generation-based pool of searchers;
//! - the [`Index`](index::Index) coordinator tying the three together.

pub mod directory;
pub mod errors;
pub mod index;
pub mod meta;
pub mod meta_json;
pub mod pool;
pub mod ram_directory;
pub mod segment;

use vstd::prelude::*;

verus! {

/// Number of identical searchers kept in the pool for each generation.
pub const NUM_SEARCHERS: usize = 12;

} // verus!
