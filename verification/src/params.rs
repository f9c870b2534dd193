//! Run configuration of the generator.
//!
//! [`GenerationParameters`] holds everything a backend needs to generate
//! its share of the graph: the seed vector, the matrix and tile sizes,
//! the per-worker edge buffer capacity, and the shard this process is.
//! The floating-point quantities of a run (the Pareto distribution, the
//! probability exponent, the weight sum) live with the probability
//! kernel outside this library; they play no part in the tiling,
//! seeding and buffering logic verified here.

use crate::tiles::{
    lemma_cell_covered_once, lemma_pos_index_bounds, lemma_tiles_per_side_form, spec_home_index,
    spec_tile_at, spec_tiles, spec_tiles_per_side, ShardTilesIterator, Tile, TilesIterator,
};
use vstd::prelude::*;

verus! {

/// Which backend generates the edges.
#[derive(Clone, Copy, Debug, PartialEq, Eq, Structural)]
pub enum GeneratorMode {
    /// Worker threads evaluate tiles on the host processor.
    CPU,
    /// A device kernel evaluates tiles through the resumable driver.
    GPU,
}

/// How per-vertex quantities are obtained during generation.
#[derive(Clone, Copy, Debug, PartialEq, Eq, Structural)]
pub enum RandomMode {
    /// Weights and positions are computed once and stored in arrays.
    PreGenerate,
    /// Weights and positions are recomputed at every access.
    OnDemand,
}

/// What a benchmark run measures.
#[derive(Clone, Copy, Debug, PartialEq, Eq, Structural)]
pub enum BenchmarkType {
    /// Scaling over the number of vertices.
    SIZE,
    /// The probability kernel alone.
    CORE,
    /// Scaling over the tile size.
    TILE,
}

/// The properties that are derived from a seed.
#[derive(Clone, Copy, Debug, PartialEq, Eq, Structural, Hash)]
pub enum SeedEnum {
    /// The weight of a node.
    Weight,
    /// The random value that decides whether an edge exists.
    Edge,
    /// The position of a node in one spatial dimension.
    Dimension(usize),
}

/// Position of a property's seed in the seed vector.
pub open spec fn spec_seed_index(s: SeedEnum) -> int {
    match s {
        SeedEnum::Weight => 0,
        SeedEnum::Edge => 1,
        SeedEnum::Dimension(i) => 2 + i,
    }
}

/// A reason the run configuration is rejected at startup.
#[derive(Clone, Copy, Debug, PartialEq, Eq, Structural)]
pub enum ParamError {
    /// Fewer than one spatial dimension was asked for.
    ZeroDimensions,
    /// The graph has no vertices.
    ZeroVertices,
    /// Tiles of size zero cannot cover the matrix.
    ZeroTileSize,
    /// A worker cannot buffer edges in a buffer of size zero.
    ZeroEdgeBuffer,
    /// The shard index does not name one of the shards.
    ShardIndexOutOfRange,
    /// The seed vector must hold one seed per dimension, plus the
    /// weight seed and the edge seed.
    WrongSeedCount,
}

/// The parameters of one generation run, immutable after construction.
#[derive(Clone, Debug)]
pub struct GenerationParameters {
    /// The seed vector: weight seed, edge seed, one seed per dimension.
    pub seeds: Vec<u64>,
    /// Whether workers precompute all weights and positions.
    pub pregenerate_numbers: bool,
    /// Override for the device launch grid; 0 lets the driver choose.
    pub gpu_blocks: u32,
    /// Number of spatial dimensions.
    pub dims: usize,
    /// Number of vertices.
    pub v: u64,
    /// Side length of the processing tiles.
    pub tile_size: u64,
    /// Capacity of each worker's edge buffer.
    pub edgebuffer_size: u64,
    /// Which of the shards this process is.
    pub shard_index: usize,
    /// How many shards exist.
    pub shard_count: usize,
}

impl GenerationParameters {
    /// The constraints that `from_seeds` establishes and every method
    /// relies on.
    pub open spec fn wf(self) -> bool {
        &&& self.dims >= 1
        &&& self.v >= 1
        &&& self.tile_size >= 1
        &&& self.edgebuffer_size >= 1
        &&& self.shard_index < self.shard_count
        &&& self.seeds@.len() == self.dims + 2
    }

    /// Build a configuration from explicit seeds, rejecting every
    /// combination the generator cannot run with.
    pub fn from_seeds(
        num_dimensions: usize,
        v: u64,
        seeds: Vec<u64>,
        tile_size: u64,
        edgebuffer_size: u64,
        pregenerate_numbers: bool,
        gpu_blocks: u32,
        shard_index: usize,
        shard_count: usize,
    ) -> (r: Result<Self, ParamError>)
        ensures
            r is Ok <==> (num_dimensions >= 1 && v >= 1 && tile_size >= 1 && edgebuffer_size >= 1
                && shard_index < shard_count && seeds@.len() == num_dimensions + 2),
            (match r {
                Ok(p) => {
                    &&& p.wf()
                    &&& p.seeds@ == seeds@
                    &&& p.pregenerate_numbers == pregenerate_numbers
                    &&& p.gpu_blocks == gpu_blocks
                    &&& p.dims == num_dimensions
                    &&& p.v == v
                    &&& p.tile_size == tile_size
                    &&& p.edgebuffer_size == edgebuffer_size
                    &&& p.shard_index == shard_index
                    &&& p.shard_count == shard_count
                },
                Err(_) => true,
            }),
            r == Err::<Self, ParamError>(ParamError::ZeroDimensions) <==> num_dimensions == 0,
            r == Err::<Self, ParamError>(ParamError::ZeroVertices) <==> (num_dimensions >= 1 && v
                == 0),
            r == Err::<Self, ParamError>(ParamError::ZeroTileSize) <==> (num_dimensions >= 1 && v
                >= 1 && tile_size == 0),
            r == Err::<Self, ParamError>(ParamError::ZeroEdgeBuffer) <==> (num_dimensions >= 1 && v
                >= 1 && tile_size >= 1 && edgebuffer_size == 0),
            r == Err::<Self, ParamError>(ParamError::ShardIndexOutOfRange) <==> (num_dimensions >= 1
                && v >= 1 && tile_size >= 1 && edgebuffer_size >= 1 && shard_index >= shard_count),
            r == Err::<Self, ParamError>(ParamError::WrongSeedCount) <==> (num_dimensions >= 1 && v
                >= 1 && tile_size >= 1 && edgebuffer_size >= 1 && shard_index < shard_count
                && seeds@.len() != num_dimensions + 2),
    {
        if num_dimensions == 0 {
            return Err(ParamError::ZeroDimensions);
        }
        if v == 0 {
            return Err(ParamError::ZeroVertices);
        }
        if tile_size == 0 {
            return Err(ParamError::ZeroTileSize);
        }
        if edgebuffer_size == 0 {
            return Err(ParamError::ZeroEdgeBuffer);
        }
        if shard_index >= shard_count {
            return Err(ParamError::ShardIndexOutOfRange);
        }
        let n_seeds = seeds.len();
        if num_dimensions > usize::MAX - 2 || n_seeds != num_dimensions + 2 {
            return Err(ParamError::WrongSeedCount);
        }
        Ok(
            GenerationParameters {
                seeds,
                pregenerate_numbers,
                gpu_blocks,
                dims: num_dimensions,
                v,
                tile_size,
                edgebuffer_size,
                shard_index,
                shard_count,
            },
        )
    }

    /// Build a configuration with freshly generated seeds.
    pub fn new(
        num_dimensions: usize,
        v: u64,
        tile_size: u64,
        edgebuffer_size: u64,
        pregenerate_numbers: bool,
        gpu_blocks: u32,
        shard_index: usize,
        shard_count: usize,
    ) -> (r: Result<Self, ParamError>)
        requires
            num_dimensions + 2 <= usize::MAX,
            num_dimensions + 2 < u64::MAX,
        ensures
            r is Ok <==> (num_dimensions >= 1 && v >= 1 && tile_size >= 1 && edgebuffer_size >= 1
                && shard_index < shard_count),
            (match r {
                Ok(p) => {
                    &&& p.wf()
                    &&& p.pregenerate_numbers == pregenerate_numbers
                    &&& p.gpu_blocks == gpu_blocks
                    &&& p.dims == num_dimensions
                    &&& p.v == v
                    &&& p.tile_size == tile_size
                    &&& p.edgebuffer_size == edgebuffer_size
                    &&& p.shard_index == shard_index
                    &&& p.shard_count == shard_count
                    &&& forall|a: int, b: int|
                        0 <= a < b < p.seeds@.len() ==> p.seeds@[a] != p.seeds@[b]
                },
                Err(_) => true,
            }),
    {
        let seeds = crate::random::generate_seeds(num_dimensions + 2);
        Self::from_seeds(
            num_dimensions,
            v,
            seeds,
            tile_size,
            edgebuffer_size,
            pregenerate_numbers,
            gpu_blocks,
            shard_index,
            shard_count,
        )
    }

    /// The same configuration with another seed vector.
    pub fn replace_seeds(self, seeds: Vec<u64>) -> (r: Self)
        ensures
            r.seeds@ == seeds@,
            r.pregenerate_numbers == self.pregenerate_numbers,
            r.gpu_blocks == self.gpu_blocks,
            r.dims == self.dims,
            r.v == self.v,
            r.tile_size == self.tile_size,
            r.edgebuffer_size == self.edgebuffer_size,
            r.shard_index == self.shard_index,
            r.shard_count == self.shard_count,
    {
        GenerationParameters {
            seeds,
            pregenerate_numbers: self.pregenerate_numbers,
            gpu_blocks: self.gpu_blocks,
            dims: self.dims,
            v: self.v,
            tile_size: self.tile_size,
            edgebuffer_size: self.edgebuffer_size,
            shard_index: self.shard_index,
            shard_count: self.shard_count,
        }
    }

    /// Number of spatial dimensions.
    pub fn num_dimensions(&self) -> (r: usize)
        ensures
            r == self.dims,
    {
        self.dims
    }

    /// The seed of the given property.
    pub fn get_seed(&self, s: SeedEnum) -> (r: u64)
        requires
            self.wf(),
            spec_seed_index(s) < self.seeds@.len(),
        ensures
            r == self.seeds@[spec_seed_index(s)],
    {
        let n_seeds = self.seeds.len();
        let idx: usize = match s {
            SeedEnum::Weight => 0,
            SeedEnum::Edge => 1,
            SeedEnum::Dimension(i) => 2 + i,
        };
        self.seeds[idx]
    }

    /// Number of tiles this shard handles: the total number of tiles,
    /// divided by the number of shards (rounded down; early shards may
    /// handle one tile more when the division is not exact).
    pub fn num_tiles(&self) -> (r: u64)
        requires
            self.wf(),
            spec_tiles_per_side(self.v, self.tile_size) * spec_tiles_per_side(
                self.v,
                self.tile_size,
            ) <= u64::MAX,
        ensures
            r == spec_tiles(self.v, self.tile_size).len() as int / self.shard_count as int,
            self.shard_count == 1 ==> r == spec_tiles(self.v, self.tile_size).len(),
    {
        proof {
            lemma_tiles_per_side_form(self.v, self.tile_size);
            vstd::arithmetic::div_mod::lemma_div_nonincreasing((self.v - 1) as int,
                self.tile_size as int);
            vstd::arithmetic::div_mod::lemma_div_pos_is_pos((self.v - 1) as int,
                self.tile_size as int);
        }
        let side = (self.v - 1) / self.tile_size + 1;
        let total = side * side;
        total / (self.shard_count as u64)
    }

    /// The tiles this shard handles, in row-major tile order.
    pub fn tiles(&self) -> (r: ShardTilesIterator)
        requires
            self.wf(),
        ensures
            r.wf(),
            r.inner.vertices == self.v,
            r.inner.tile_size == self.tile_size,
            r.stride == self.shard_count,
            r.inner.pos_index() == (if self.shard_index <= r.total() {
                self.shard_index as int
            } else {
                r.total()
            }),
    {
        let mut inner = TilesIterator::new(self.v, self.tile_size);
        let ghost total = spec_tiles(self.v, self.tile_size).len() as int;
        let mut skipped: usize = 0;
        while skipped < self.shard_index
            invariant
                inner.wf(),
                inner.vertices == self.v,
                inner.tile_size == self.tile_size,
                skipped <= self.shard_index,
                total == spec_tiles(self.v, self.tile_size).len() as int,
                inner.pos_index() == (if skipped <= total {
                    skipped as int
                } else {
                    total
                }),
            decreases self.shard_index - skipped,
        {
            proof {
                lemma_pos_index_bounds(inner);
            }
            let _ = inner.next();
            skipped = skipped + 1;
        }
        ShardTilesIterator { inner, stride: self.shard_count as u64 }
    }

    /// The tile of the decomposition that holds the cell `(x, y)`.
    ///
    /// This is how the driver identifies a finished tile from the last
    /// position a generation thread stopped at.
    pub fn pos_to_tile(&self, x: u64, y: u64) -> (r: Tile)
        requires
            self.wf(),
            x < self.v,
            y < self.v,
        ensures
            r == spec_tile_at(
                self.v,
                self.tile_size,
                spec_home_index(self.v, self.tile_size, x, y),
            ),
            r.contains(x, y),
    {
        let ts = self.tile_size;
        let v = self.v;
        proof {
            lemma_cell_covered_once(v, ts, x, y);
            vstd::arithmetic::div_mod::lemma_fundamental_div_mod(x as int, ts as int);
            vstd::arithmetic::div_mod::lemma_fundamental_div_mod(y as int, ts as int);
            vstd::arithmetic::div_mod::lemma_remainder_lower(x as int, ts as int);
            vstd::arithmetic::div_mod::lemma_remainder_lower(y as int, ts as int);
            vstd::arithmetic::div_mod::lemma_div_pos_is_pos(x as int, ts as int);
            vstd::arithmetic::div_mod::lemma_div_pos_is_pos(y as int, ts as int);
            assert(ts as int * (x as int / ts as int) == (x as int / ts as int) * ts as int)
                by (nonlinear_arith);
            assert(ts as int * (y as int / ts as int) == (y as int / ts as int) * ts as int)
                by (nonlinear_arith);
        }
        let bx = x / ts * ts;
        let by = y / ts * ts;
        let ex = if ts - 1 >= v - 1 - bx {
            v - 1
        } else {
            bx + ts - 1
        };
        let ey = if ts - 1 >= v - 1 - by {
            v - 1
        } else {
            by + ts - 1
        };
        Tile { start_x: bx, start_y: by, end_x: ex, end_y: ey }
    }
}

} // verus!
