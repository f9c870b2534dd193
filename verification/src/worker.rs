//! The CPU backend: tile traversal and edge buffering.
//!
//! A worker takes one tile, walks its cells in row-major order, keeps
//! the cells whose edge was accepted, and hands the kept edges out in
//! batches of at most the configured edge buffer size.  Whether a cell's
//! edge is accepted is decided by the floating-point probability kernel
//! outside this library; the worker receives those decisions as one
//! boolean per cell, in the same row-major order.

use crate::params::GenerationParameters;
use crate::tiles::{lemma_tile_at_bounds, spec_tile_at, spec_tiles, Edge, Tile};
use vstd::prelude::*;

verus! {

/// The accepted cells of `t` with row-major positions in `[from, to)`,
/// in traversal order.
pub open spec fn accepted_cells(t: Tile, accepts: Seq<bool>, from: int, to: int) -> Seq<Edge>
    decreases to - from,
{
    if to <= from {
        Seq::empty()
    } else {
        accepted_cells(t, accepts, from, to - 1) + (if accepts[to - 1] {
            seq![t.cell(to - 1)]
        } else {
            Seq::empty()
        })
    }
}

/// The accepted cells over adjacent ranges concatenate: a traversal
/// that is interrupted and resumed emits the same edges as one that is
/// not.
pub proof fn lemma_accepted_cells_concat(t: Tile, accepts: Seq<bool>, a: int, b: int, c: int)
    requires
        a <= b <= c,
    ensures
        accepted_cells(t, accepts, a, c) == accepted_cells(t, accepts, a, b) + accepted_cells(
            t,
            accepts,
            b,
            c,
        ),
    decreases c - b,
{
    if c == b {
        assert(accepted_cells(t, accepts, a, c) =~= accepted_cells(t, accepts, a, b)
            + accepted_cells(t, accepts, b, c));
    } else {
        lemma_accepted_cells_concat(t, accepts, a, b, c - 1);
        assert(accepted_cells(t, accepts, a, c) =~= accepted_cells(t, accepts, a, b)
            + accepted_cells(t, accepts, b, c));
    }
}

/// Every accepted cell lies in its tile, and there are no more accepted
/// cells than positions in the range.
pub proof fn lemma_accepted_cells_props(t: Tile, accepts: Seq<bool>, from: int, to: int)
    requires
        t.wf(),
        0 <= from,
        to <= t.area(),
    ensures
        accepted_cells(t, accepts, from, to).len() <= (if to >= from {
            to - from
        } else {
            0
        }),
        forall|q: int|
            0 <= q < accepted_cells(t, accepts, from, to).len() ==> t.contains(
                #[trigger] accepted_cells(t, accepts, from, to)[q].0,
                accepted_cells(t, accepts, from, to)[q].1,
            ),
    decreases to - from,
{
    if to > from {
        lemma_accepted_cells_props(t, accepts, from, to - 1);
        t.lemma_index_cell(to - 1);
    }
}

/// A stateless generator that evaluates tiles on the host processor.
pub struct CPUGenerator {}

impl CPUGenerator {
    /// Create a new CPU generator.
    pub fn new() -> (r: Self) {
        CPUGenerator {}
    }
}

/// Walk the cells of `tile` in row-major order and return the cells
/// whose decision in `accepts` is positive, in traversal order.
pub fn worker_function(tile: Tile, accepts: &Vec<bool>) -> (r: Vec<Edge>)
    requires
        tile.wf(),
        accepts@.len() == tile.area(),
    ensures
        r@ == accepted_cells(tile, accepts@, 0, tile.area()),
        forall|q: int| 0 <= q < r@.len() ==> tile.contains(#[trigger] r@[q].0, r@[q].1),
{
    let mut it = tile.into_iter();
    let mut out: Vec<Edge> = Vec::new();
    let mut k: usize = 0;
    while k < accepts.len()
        invariant
            it.wf(),
            it.t == tile,
            tile.wf(),
            accepts@.len() == tile.area(),
            k <= accepts@.len(),
            it.pos_index() == k,
            out@ == accepted_cells(tile, accepts@, 0, k as int),
        decreases accepts@.len() - k,
    {
        let cell = it.next();
        match cell {
            Some(c) => {
                if accepts[k] {
                    out.push(c);
                    proof {
                        assert(out@ =~= accepted_cells(tile, accepts@, 0, k + 1));
                    }
                } else {
                    proof {
                        assert(out@ =~= accepted_cells(tile, accepts@, 0, k + 1));
                    }
                }
            },
            None => {
                proof {
                    assert(false);
                }
            },
        }
        k = k + 1;
    }
    proof {
        lemma_accepted_cells_props(tile, accepts@, 0, tile.area());
    }
    out
}

/// A worker's local edge buffer: it holds accepted edges until a full
/// batch can be handed out.
pub struct EdgeBuffer {
    /// The edges buffered since the last batch.
    pub queue: Vec<Edge>,
    /// Number of edges that make a full batch.
    pub capacity: u64,
}

impl EdgeBuffer {
    /// The buffer never holds a full batch between operations.
    pub open spec fn wf(self) -> bool {
        self.capacity >= 1 && self.queue@.len() < self.capacity
    }

    /// An empty buffer that batches `capacity` edges at a time.
    pub fn new(capacity: u64) -> (r: Self)
        requires
            capacity >= 1,
        ensures
            r.wf(),
            r.capacity == capacity,
            r.queue@ == Seq::<Edge>::empty(),
    {
        let r = EdgeBuffer { queue: Vec::new(), capacity };
        proof {
            assert(r.queue@ =~= Seq::<Edge>::empty());
        }
        r
    }

    /// Buffer one edge; when it completes a batch, the batch is handed
    /// out and the buffer is empty again.
    pub fn push(&mut self, i: u64, j: u64) -> (r: Option<Vec<Edge>>)
        requires
            old(self).wf(),
        ensures
            final(self).wf(),
            final(self).capacity == old(self).capacity,
            (match r {
                Some(batch) => {
                    &&& batch@ == old(self).queue@.push((i, j))
                    &&& batch@.len() == old(self).capacity
                    &&& final(self).queue@ == Seq::<Edge>::empty()
                },
                None => {
                    &&& final(self).queue@ == old(self).queue@.push((i, j))
                    &&& final(self).queue@.len() < old(self).capacity
                },
            }),
    {
        self.queue.push((i, j));
        if self.queue.len() as u64 == self.capacity {
            let mut batch = Vec::new();
            core::mem::swap(&mut batch, &mut self.queue);
            proof {
                assert(self.queue@ =~= Seq::<Edge>::empty());
            }
            Some(batch)
        } else {
            None
        }
    }

    /// Hand out the buffered edges that do not fill a batch, if any.
    pub fn flush(&mut self) -> (r: Option<Vec<Edge>>)
        requires
            old(self).wf(),
        ensures
            final(self).wf(),
            final(self).capacity == old(self).capacity,
            final(self).queue@ == Seq::<Edge>::empty(),
            (match r {
                Some(batch) => batch@ == old(self).queue@ && batch@.len() >= 1,
                None => old(self).queue@.len() == 0,
            }),
    {
        if self.queue.len() == 0 {
            return None;
        }
        let mut batch = Vec::new();
        core::mem::swap(&mut batch, &mut self.queue);
        proof {
            assert(self.queue@ =~= Seq::<Edge>::empty());
        }
        Some(batch)
    }
}

/// The edges of a run of batches, in hand-out order.
pub open spec fn flatten_batches(bs: Seq<Vec<Edge>>) -> Seq<Edge>
    decreases bs.len(),
{
    if bs.len() == 0 {
        Seq::empty()
    } else {
        flatten_batches(bs.drop_last()) + bs.last()@
    }
}

/// Cut a run of edges into batches of at most `capacity` edges.
///
/// Whatever the capacity, the batches concatenate back to exactly the
/// input run: batching never loses, repeats or reorders an edge.  All
/// batches but the last are full.
pub fn batch_edges(edges: &Vec<Edge>, capacity: u64) -> (r: Vec<Vec<Edge>>)
    requires
        capacity >= 1,
    ensures
        flatten_batches(r@) == edges@,
        forall|q: int| 0 <= q < r@.len() ==> 1 <= #[trigger] r@[q]@.len() <= capacity,
        forall|q: int| 0 <= q < r@.len() - 1 ==> #[trigger] r@[q]@.len() == capacity,
{
    let mut buffer = EdgeBuffer::new(capacity);
    let mut out: Vec<Vec<Edge>> = Vec::new();
    let mut k: usize = 0;
    proof {
        assert(flatten_batches(out@) + buffer.queue@ =~= edges@.take(0));
    }
    while k < edges.len()
        invariant
            buffer.wf(),
            buffer.capacity == capacity,
            k <= edges@.len(),
            flatten_batches(out@) + buffer.queue@ == edges@.take(k as int),
            forall|q: int| 0 <= q < out@.len() ==> #[trigger] out@[q]@.len() == capacity,
        decreases edges@.len() - k,
    {
        let e = edges[k];
        proof {
            assert(e == edges@[k as int]);
            assert((e.0, e.1) == e);
            assert(edges@.take(k + 1) =~= edges@.take(k as int).push(e));
        }
        let ghost pre_out = out@;
        let ghost pre_queue = buffer.queue@;
        let flushed = buffer.push(e.0, e.1);
        match flushed {
            Some(batch) => {
                out.push(batch);
                proof {
                    assert(out@.drop_last() =~= pre_out);
                    assert(flatten_batches(out@) + buffer.queue@ =~= edges@.take(k + 1));
                }
            },
            None => {
                proof {
                    assert(flatten_batches(out@) + buffer.queue@ =~= edges@.take(k + 1));
                }
            },
        }
        k = k + 1;
    }
    let ghost pre_out = out@;
    let remainder = buffer.flush();
    match remainder {
        Some(batch) => {
            out.push(batch);
            proof {
                assert(out@.drop_last() =~= pre_out);
                assert(edges@.take(edges@.len() as int) =~= edges@);
                assert(flatten_batches(out@) =~= edges@);
            }
        },
        None => {
            proof {
                assert(edges@.take(edges@.len() as int) =~= edges@);
                assert(flatten_batches(out@) =~= edges@);
            }
        },
    }
    out
}

/// Process one tile as a CPU worker does: keep the accepted cells and
/// batch them by the configured edge buffer size.  The second component
/// reports whether more than one batch was handed out, in which case
/// the buffer was too small for the tile and a warning is due.
pub fn worker(params: &GenerationParameters, tile: Tile, accepts: &Vec<bool>) -> (r: (
    Vec<Vec<Edge>>,
    bool,
))
    requires
        params.wf(),
        tile.wf(),
        accepts@.len() == tile.area(),
    ensures
        flatten_batches(r.0@) == accepted_cells(tile, accepts@, 0, tile.area()),
        forall|q: int| 0 <= q < r.0@.len() ==> 1 <= #[trigger] r.0@[q]@.len()
            <= params.edgebuffer_size,
        r.1 == (r.0@.len() > 1),
{
    let edges = worker_function(tile, accepts);
    let batches = batch_edges(&edges, params.edgebuffer_size);
    let warn = batches.len() > 1;
    (batches, warn)
}


/// Every edge emitted for a tile of the decomposition of the `v × v`
/// matrix names two vertices of the graph: both endpoints are below
/// `v`, whatever the per-cell decisions were.
pub proof fn lemma_emitted_edges_in_range(
    v: u64,
    tile_size: u64,
    n: int,
    accepts: Seq<bool>,
    q: int,
)
    requires
        v >= 1,
        tile_size >= 1,
        0 <= n < spec_tiles(v, tile_size).len(),
        0 <= q < accepted_cells(
            spec_tile_at(v, tile_size, n),
            accepts,
            0,
            spec_tile_at(v, tile_size, n).area(),
        ).len(),
    ensures
        ({
            let t = spec_tile_at(v, tile_size, n);
            let e = accepted_cells(t, accepts, 0, t.area())[q];
            e.0 < v && e.1 < v
        }),
{
    let t = spec_tile_at(v, tile_size, n);
    lemma_tile_at_bounds(v, tile_size, n);
    lemma_accepted_cells_props(t, accepts, 0, t.area());
}

} // verus!
