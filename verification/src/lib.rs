//! Generator for geometric inhomogeneous random graphs (GIRGs).
//!
//! The adjacency matrix of a graph over `v` vertices is cut into tiles,
//! and every potential edge `(i, j)` is sampled independently from a
//! deterministic, hash-based random number scheme, so that any tile can
//! be generated in isolation and several backends produce the same edges
//! from the same seeds.
//!
//! This crate holds the verified core: the hash scheme, the tile
//! decomposition and sharding, the seed generation, the edge buffering,
//! and the resumable per-thread generation state with its driver
//! bookkeeping.  The floating-point probability kernel and the
//! thread-and-channel plumbing around this core are not part of the
//! library.

use vstd::prelude::*;

pub mod blocks;
pub mod buffer;
pub mod murmur3;
pub mod params;
pub mod random;
pub mod state;
pub mod stats;
pub mod tiles;
pub mod worker;

verus! {

/// Largest number of spatial dimensions supported when positions are
/// recomputed on demand inside a generation kernel.
pub const MAX_DIMS: usize = 2;

} // verus!
