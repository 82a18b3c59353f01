//! Chunk-graph and code-splitting core of a module bundler.
//!
//! The library models how output units ("chunks") are grouped into chunk
//! groups, how groups relate to each other (parent/child, entry/async), and
//! the size- and pattern-driven primitives that the split-chunks optimization
//! pass is built from.

pub mod chunk;
pub mod config;
pub mod chunk_group;
pub mod demo;
pub mod filters;
pub mod options;
pub mod sizes;
pub mod ordered_set;
pub mod ukey;

use vstd::prelude::*;

verus! {

/// A process-unique identifier for a chunk.
pub type ChunkUkey = u32;

/// A process-unique identifier for a chunk group.
pub type ChunkGroupUkey = u32;

} // verus!
