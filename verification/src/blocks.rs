//! Block enumeration with exclusive bounds.
//!
//! An earlier form of the tile decomposition: the same row-major walk
//! as [`crate::tiles::TilesIterator`], but each rectangle is reported
//! as `((start_x, start_y), (end_x, end_y))` with *exclusive* end
//! coordinates clamped to the number of vertices.

use crate::tiles::{spec_tile_at, spec_tiles_per_side};
use vstd::prelude::*;

verus! {

/// The block with row-major index `n`: the tile at that index with its
/// ends made exclusive.
pub open spec fn spec_block_at(v: u64, block_size: u64, n: int) -> ((u64, u64), (u64, u64)) {
    let t = spec_tile_at(v, block_size, n);
    ((t.start_x, t.start_y), ((t.end_x + 1) as u64, (t.end_y + 1) as u64))
}

/// Row-major enumeration of the blocks of a `v × v` matrix.
#[derive(Clone, Copy, Debug)]
pub struct BlocksIterator {
    /// Total number of vertices.
    pub vertices: u64,
    /// Size of each block.
    pub block_size: u64,
    /// Current block `i` (column) position.
    pub i: u64,
    /// Current block `j` (row) position.
    pub j: u64,
}

impl BlocksIterator {
    /// The iterator stands on the first cell of the next block to
    /// yield, or on the row `vertices` after yielding every block.
    pub open spec fn wf(self) -> bool {
        &&& self.vertices >= 1
        &&& self.block_size >= 1
        &&& self.i % self.block_size == 0
        &&& self.i < self.vertices
        &&& self.j <= self.vertices
        &&& (self.j < self.vertices ==> self.j % self.block_size == 0)
        &&& (self.j == self.vertices ==> self.i == 0)
    }

    /// Row-major index of the next block to yield; equals the total
    /// number of blocks when the enumeration is over.
    pub open spec fn pos_index(self) -> int {
        let nside = spec_tiles_per_side(self.vertices, self.block_size);
        if self.j < self.vertices {
            (self.j as int / self.block_size as int) * nside
                + self.i as int / self.block_size as int
        } else {
            nside * nside
        }
    }

    /// Create a new enumeration of the blocks of a `max × max` matrix
    /// with blocks of side `step`.
    pub fn new(max: u64, step: u64) -> (r: Self)
        requires
            max >= 1,
            step >= 1,
        ensures
            r.wf(),
            r.vertices == max,
            r.block_size == step,
            r.pos_index() == 0,
    {
        let it = BlocksIterator { vertices: max, block_size: step, i: 0u64, j: 0u64 };
        proof {
            vstd::arithmetic::div_mod::lemma_div_of0(step as int);
            vstd::arithmetic::div_mod::lemma_small_mod(0nat, step as nat);
            assert(it.pos_index() == (0int / step as int)
                * spec_tiles_per_side(max, step) + 0int / step as int);
        }
        it
    }

    /// Yield the next block, or `None` after the last one.
    pub fn next(&mut self) -> (r: Option<((u64, u64), (u64, u64))>)
        requires
            old(self).wf(),
        ensures
            final(self).wf(),
            final(self).vertices == old(self).vertices,
            final(self).block_size == old(self).block_size,
            ({
                let total = spec_tiles_per_side(old(self).vertices, old(self).block_size)
                    * spec_tiles_per_side(old(self).vertices, old(self).block_size);
                &&& old(self).pos_index() < total ==> {
                    &&& r == Some(spec_block_at(old(self).vertices, old(self).block_size,
                            old(self).pos_index()))
                    &&& final(self).pos_index() == old(self).pos_index() + 1
                }
                &&& old(self).pos_index() >= total ==> {
                    &&& r is None
                    &&& *final(self) == *old(self)
                }
            }),
    {
        let v = self.vertices;
        let bs = self.block_size;
        if self.j >= v {
            return None;
        }
        let i_next = if bs >= v - self.i { v } else { self.i + bs };
        let j_next = if bs >= v - self.j { v } else { self.j + bs };
        let next = ((self.i, self.j), (i_next, j_next));
        proof {
            crate::tiles::lemma_yield_tile(v, bs, self.i, self.j, self.pos_index());
        }
        if i_next >= v {
            self.j = j_next;
            self.i = 0;
        } else {
            self.i = i_next;
        }
        proof {
            crate::tiles::lemma_advance_index(v, bs, old(self).i, old(self).j, self.i, self.j);
        }
        Some(next)
    }
}

} // verus!
