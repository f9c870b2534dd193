//! Resumable per-thread generation state.
//!
//! A device kernel cannot stream unbounded output: each generation
//! thread owns a fixed-capacity edge buffer and must pause when it is
//! full.  The state of all threads lives in one structure of arrays:
//! per thread a current position, a buffered edge run, an edge count
//! and a `done` flag.  A paused thread resumes at the exact cell whose
//! edge did not fit; a finished thread leaves its position at the last
//! cell of its tile, which is how the driver identifies the tile it
//! just finished.

use crate::tiles::{Edge, Tile};
use crate::worker::{accepted_cells, lemma_accepted_cells_concat, lemma_accepted_cells_props};
use vstd::prelude::*;

verus! {

/// Two slots of two distinct fixed-size per-thread buffer segments
/// never collide.
proof fn lemma_slot_disjoint(size: int, t1: int, k1: int, t2: int, k2: int)
    requires
        size >= 1,
        0 <= k1 < size,
        0 <= k2 < size,
        0 <= t1,
        0 <= t2,
        t1 != t2,
    ensures
        t1 * size + k1 != t2 * size + k2,
{
    vstd::arithmetic::div_mod::lemma_fundamental_div_mod_converse_div(t1 * size + k1, size, t1, k1);
    vstd::arithmetic::div_mod::lemma_fundamental_div_mod_converse_div(t2 * size + k2, size, t2, k2);
}

/// The state of every generation thread, stored as one array per
/// property, indexed by the thread id.
pub struct CPUThreadState {
    /// Per thread, the `i` (column) position it stopped at.
    pub current_x: Vec<u64>,
    /// Per thread, the `j` (row) position it stopped at.
    pub current_y: Vec<u64>,
    /// Left nodes of the buffered edges, `edges_size` slots per thread.
    pub edges_s: Vec<u64>,
    /// Right nodes of the buffered edges, `edges_size` slots per thread.
    pub edges_t: Vec<u64>,
    /// Capacity of each thread's edge buffer.
    pub edges_size: u64,
    /// Per thread, how many edges its buffer holds.
    pub edges_count: Vec<u64>,
    /// Per thread, whether it finished its tile.
    pub done: Vec<bool>,
    /// Number of threads.
    pub num_threads: u64,
}

impl CPUThreadState {
    /// All arrays have the right length and no buffer overflows its
    /// segment.
    pub open spec fn wf(self) -> bool {
        &&& self.edges_size >= 1
        &&& self.current_x@.len() == self.num_threads
        &&& self.current_y@.len() == self.num_threads
        &&& self.edges_count@.len() == self.num_threads
        &&& self.done@.len() == self.num_threads
        &&& self.edges_s@.len() == self.num_threads * self.edges_size
        &&& self.edges_t@.len() == self.num_threads * self.edges_size
        &&& forall|t: int|
            0 <= t < self.num_threads ==> #[trigger] self.edges_count@[t] <= self.edges_size
    }

    /// The edges buffered by thread `tid`, in insertion order.
    pub open spec fn thread_edges(self, tid: int) -> Seq<Edge> {
        Seq::new(
            self.edges_count@[tid] as nat,
            |k: int|
                (
                    self.edges_s@[tid * self.edges_size + k],
                    self.edges_t@[tid * self.edges_size + k],
                ),
        )
    }

    /// Everything of thread `tid2` that `run_thread` and the per-thread
    /// driver steps leave alone when they work on another thread.
    pub open spec fn same_thread_state(self, other: Self, tid2: int) -> bool {
        &&& self.current_x@[tid2] == other.current_x@[tid2]
        &&& self.current_y@[tid2] == other.current_y@[tid2]
        &&& self.edges_count@[tid2] == other.edges_count@[tid2]
        &&& self.done@[tid2] == other.done@[tid2]
        &&& self.thread_edges(tid2) == other.thread_edges(tid2)
    }

    /// Fresh state for `num_threads` threads with buffers of
    /// `edges_size` edges: all positions zero, all buffers empty, no
    /// thread done.
    pub fn new(edges_size: u64, num_threads: u64) -> (r: Self)
        requires
            edges_size >= 1,
            num_threads >= 1,
            num_threads as int * edges_size as int <= usize::MAX,
        ensures
            r.wf(),
            r.edges_size == edges_size,
            r.num_threads == num_threads,
            forall|t: int|
                0 <= t < num_threads ==> {
                    &&& r.current_x@[t] == 0u64
                    &&& r.current_y@[t] == 0u64
                    &&& r.edges_count@[t] == 0u64
                    &&& r.done@[t] == false
                },
    {
        proof {
            assert(num_threads as int <= num_threads as int * edges_size as int
                && edges_size as int <= num_threads as int * edges_size as int)
                by (nonlinear_arith)
                requires
                    edges_size >= 1,
                    num_threads >= 1,
            ;
        }
        let n = num_threads as usize;
        let es = edges_size as usize;
        proof {
            assert(n as int * es as int == num_threads as int * edges_size as int);
        }
        let slots = n * es;
        let current_x = zeroed_u64(n);
        let current_y = zeroed_u64(n);
        let edges_s = zeroed_u64(slots);
        let edges_t = zeroed_u64(slots);
        let edges_count = zeroed_u64(n);
        let done = zeroed_bool(n);
        CPUThreadState {
            current_x,
            current_y,
            edges_s,
            edges_t,
            edges_size,
            edges_count,
            done,
            num_threads,
        }
    }

    /// The `i` position of thread `tid`.
    pub fn get_x(&self, tid: usize) -> (r: u64)
        requires
            self.wf(),
            tid < self.num_threads,
        ensures
            r == self.current_x@[tid as int],
    {
        self.current_x[tid]
    }

    /// The `j` position of thread `tid`.
    pub fn get_y(&self, tid: usize) -> (r: u64)
        requires
            self.wf(),
            tid < self.num_threads,
        ensures
            r == self.current_y@[tid as int],
    {
        self.current_y[tid]
    }

    /// Whether thread `tid` finished its tile.
    pub fn get_done(&self, tid: usize) -> (r: bool)
        requires
            self.wf(),
            tid < self.num_threads,
        ensures
            r == self.done@[tid as int],
    {
        self.done[tid]
    }

    /// How many edges thread `tid` has buffered.
    pub fn get_edge_count(&self, tid: usize) -> (r: u64)
        requires
            self.wf(),
            tid < self.num_threads,
        ensures
            r == self.edges_count@[tid as int],
    {
        self.edges_count[tid]
    }

    /// Whether thread `tid` has room for one more edge.
    pub fn can_add_edge(&self, tid: usize) -> (r: bool)
        requires
            self.wf(),
            tid < self.num_threads,
        ensures
            r == (self.edges_count@[tid as int] < self.edges_size),
    {
        self.edges_count[tid] < self.edges_size
    }

    /// Append the edge `(s, t)` to the buffer of thread `tid`, which
    /// must have room for it.
    pub fn add_edge(&mut self, tid: usize, s: u64, t: u64)
        requires
            old(self).wf(),
            tid < old(self).num_threads,
            old(self).edges_count@[tid as int] < old(self).edges_size,
        ensures
            final(self).wf(),
            final(self).edges_size == old(self).edges_size,
            final(self).num_threads == old(self).num_threads,
            final(self).current_x == old(self).current_x,
            final(self).current_y == old(self).current_y,
            final(self).done == old(self).done,
            final(self).edges_count@[tid as int] == old(self).edges_count@[tid as int] + 1,
            final(self).thread_edges(tid as int) == old(self).thread_edges(tid as int).push((s, t)),
            forall|t2: int|
                0 <= t2 < old(self).num_threads && t2 != tid ==> final(self).same_thread_state(
                    *old(self),
                    t2,
                ),
    {
        let _total = self.edges_s.len();
        proof {
            assert(tid as int * self.edges_size as int >= 0 && tid as int * self.edges_size as int
                + self.edges_size as int <= self.num_threads as int * self.edges_size as int
                && self.edges_size as int <= self.num_threads as int * self.edges_size as int)
                by (nonlinear_arith)
                requires
                    tid < self.num_threads,
                    self.edges_size >= 1,
                    tid >= 0,
            ;
        }
        let es = self.edges_size as usize;
        let pos = tid * es + (self.edges_count[tid] as usize);
        self.edges_s[pos] = s;
        self.edges_t[pos] = t;
        let cnt = self.edges_count[tid];
        self.edges_count[tid] = cnt + 1;
        proof {
            let size = self.edges_size as int;
            let cnt0 = old(self).edges_count@[tid as int] as int;
            assert(pos == tid as int * size + cnt0);
            assert(self.edges_s@ == old(self).edges_s@.update(tid as int * size + cnt0, s));
            assert(self.edges_t@ == old(self).edges_t@.update(tid as int * size + cnt0, t));
            assert forall|t2: int|
                0 <= t2 < old(self).num_threads && t2 != tid implies final(self).same_thread_state(
                *old(self),
                t2,
            ) by {
                assert(old(self).edges_count@[t2] <= size);
                assert forall|k: int| 0 <= k < old(self).edges_count@[t2] implies (
                #[trigger] self.edges_s@[t2 * size + k], self.edges_t@[t2 * size + k]) == (
                old(self).edges_s@[t2 * size + k], old(self).edges_t@[t2 * size + k]) by {
                    lemma_slot_disjoint(size, t2, k, tid as int, cnt0);
                    assert(t2 * size + k != tid as int * size + cnt0);
                    let nt = old(self).num_threads as int;
                    assert(0 <= t2 * size + k < nt * size) by (nonlinear_arith)
                        requires
                            0 <= t2 < nt,
                            0 <= k < size,
                            size >= 1,
                    ;
                }
                assert(self.thread_edges(t2) =~= old(self).thread_edges(t2));
            }
            assert(self.thread_edges(tid as int) =~= old(self).thread_edges(tid as int).push(
                (s, t),
            ));
        }
    }

    /// Point thread `tid` at the first cell of `tile` and mark it busy.
    pub fn assign_tile(&mut self, tid: usize, tile: Tile)
        requires
            old(self).wf(),
            tid < old(self).num_threads,
        ensures
            final(self).wf(),
            final(self).edges_size == old(self).edges_size,
            final(self).num_threads == old(self).num_threads,
            final(self).current_x@[tid as int] == tile.start_x,
            final(self).current_y@[tid as int] == tile.start_y,
            final(self).done@[tid as int] == false,
            final(self).edges_count@[tid as int] == old(self).edges_count@[tid as int],
            final(self).thread_edges(tid as int) == old(self).thread_edges(tid as int),
            forall|t2: int|
                0 <= t2 < old(self).num_threads && t2 != tid ==> final(self).same_thread_state(
                    *old(self),
                    t2,
                ),
    {
        self.current_x[tid] = tile.start_x;
        self.current_y[tid] = tile.start_y;
        self.done[tid] = false;
        proof {
            assert forall|t2: int| 0 <= t2 < old(self).num_threads implies self.thread_edges(t2)
                =~= old(self).thread_edges(t2) by {}
        }
    }

    /// The edges thread `tid` has buffered, in insertion order.
    pub fn edges_iter(&self, tid: usize) -> (r: Vec<Edge>)
        requires
            self.wf(),
            tid < self.num_threads,
        ensures
            r@ == self.thread_edges(tid as int),
    {
        let total = self.edges_s.len();
        proof {
            assert(tid as int * self.edges_size as int >= 0 && tid as int * self.edges_size as int
                + self.edges_size as int <= self.num_threads as int * self.edges_size as int
                && self.edges_size as int <= self.num_threads as int * self.edges_size as int)
                by (nonlinear_arith)
                requires
                    tid < self.num_threads,
                    self.edges_size >= 1,
                    tid >= 0,
            ;
        }
        let es = self.edges_size as usize;
        let offset = tid * es;
        let count = self.edges_count[tid] as usize;
        let mut out: Vec<Edge> = Vec::new();
        let mut k: usize = 0;
        while k < count
            invariant
                self.wf(),
                tid < self.num_threads,
                count == self.edges_count@[tid as int],
                count <= self.edges_size,
                offset == tid as int * self.edges_size as int,
                total == self.edges_s@.len(),
                offset + count <= total,
                k <= count,
                out@ =~= self.thread_edges(tid as int).take(k as int),
            decreases count - k,
        {
            out.push((self.edges_s[offset + k], self.edges_t[offset + k]));
            proof {
                assert(out@ =~= self.thread_edges(tid as int).take(k + 1));
            }
            k = k + 1;
        }
        proof {
            assert(self.thread_edges(tid as int).take(count as int) =~= self.thread_edges(
                tid as int,
            ));
        }
        out
    }

    /// Take the edges thread `tid` has buffered and empty its buffer.
    pub fn drain_thread(&mut self, tid: usize) -> (r: Vec<Edge>)
        requires
            old(self).wf(),
            tid < old(self).num_threads,
        ensures
            final(self).wf(),
            final(self).edges_size == old(self).edges_size,
            final(self).num_threads == old(self).num_threads,
            r@ == old(self).thread_edges(tid as int),
            final(self).current_x == old(self).current_x,
            final(self).current_y == old(self).current_y,
            final(self).done == old(self).done,
            final(self).edges_count@[tid as int] == 0,
            final(self).thread_edges(tid as int) == Seq::<Edge>::empty(),
            forall|t2: int|
                0 <= t2 < old(self).num_threads && t2 != tid ==> final(self).same_thread_state(
                    *old(self),
                    t2,
                ),
    {
        let out = self.edges_iter(tid);
        self.edges_count[tid] = 0;
        proof {
            assert(self.thread_edges(tid as int) =~= Seq::<Edge>::empty());
            assert forall|t2: int|
                0 <= t2 < old(self).num_threads && t2 != tid implies self.thread_edges(t2) =~= old(
                self,
            ).thread_edges(t2) by {}
        }
        out
    }

    /// Run one kernel invocation for thread `tid` on its assigned tile.
    ///
    /// The thread walks the cells of `tile` in row-major order from its
    /// current position and buffers the cells whose decision in
    /// `accepts` is positive.  If an accepted cell finds the buffer
    /// full, the thread stops with `done` still false and its position
    /// on that very cell, so that the next invocation resumes there; at
    /// the end of the tile it sets `done` and leaves its position on
    /// the tile's last cell.
    #[verifier::loop_isolation(false)]
    pub fn run_thread(&mut self, tid: usize, tile: Tile, accepts: &Vec<bool>)
        requires
            old(self).wf(),
            tid < old(self).num_threads,
            tile.wf(),
            accepts@.len() == tile.area(),
            !old(self).done@[tid as int],
            tile.contains(old(self).current_x@[tid as int], old(self).current_y@[tid as int]),
        ensures
            final(self).wf(),
            final(self).edges_size == old(self).edges_size,
            final(self).num_threads == old(self).num_threads,
            forall|t2: int|
                0 <= t2 < old(self).num_threads && t2 != tid ==> final(self).same_thread_state(
                    *old(self),
                    t2,
                ),
            ({
                let k0 = tile.cell_index(
                    old(self).current_x@[tid as int],
                    old(self).current_y@[tid as int],
                );
                let x1 = final(self).current_x@[tid as int];
                let y1 = final(self).current_y@[tid as int];
                if final(self).done@[tid as int] {
                    &&& (x1, y1) == tile.last_cell()
                    &&& final(self).thread_edges(tid as int) == old(self).thread_edges(tid as int)
                        + accepted_cells(tile, accepts@, k0, tile.area())
                } else {
                    &&& tile.contains(x1, y1)
                    &&& k0 <= tile.cell_index(x1, y1) < tile.area()
                    &&& accepts@[tile.cell_index(x1, y1)]
                    &&& final(self).edges_count@[tid as int] == final(self).edges_size
                    &&& final(self).thread_edges(tid as int) == old(self).thread_edges(tid as int)
                        + accepted_cells(tile, accepts@, k0, tile.cell_index(x1, y1))
                }
            }),
    {
        let sx = self.current_x[tid];
        let sy = self.current_y[tid];
        let mut it = tile.into_iter();
        let _ = it.skip_to(sx, sy);
        let _alen = accepts.len();
        proof {
            tile.lemma_cell_of_index(sx, sy);
            assert((sy - tile.start_y) as int * tile.width() + (sx - tile.start_x) as int
                == tile.cell_index(sx, sy));
        }
        let ghost k0 = tile.cell_index(sx, sy);
        let width = tile.end_x - tile.start_x + 1;
        let row = (sy - tile.start_y) * width;
        let mut k_exec: usize = (row + (sx - tile.start_x)) as usize;
        proof {
            assert(k_exec == it.pos_index());
        }
        while k_exec < accepts.len()
            invariant
                self.wf(),
                self.edges_size == old(self).edges_size,
                self.num_threads == old(self).num_threads,
                tid < self.num_threads,
                tile.wf(),
                accepts@.len() == tile.area(),
                it.wf(),
                it.t == tile,
                it.pos_index() == k_exec,
                k0 <= k_exec <= tile.area(),
                self.current_x == old(self).current_x,
                self.current_y == old(self).current_y,
                self.done == old(self).done,
                self.thread_edges(tid as int) == old(self).thread_edges(tid as int)
                    + accepted_cells(tile, accepts@, k0, k_exec as int),
                forall|t2: int|
                    0 <= t2 < old(self).num_threads && t2 != tid ==> self.same_thread_state(
                        *old(self),
                        t2,
                    ),
            decreases accepts@.len() - k_exec,
        {
            let ghost pre = *self;
            let cell = it.next();
            match cell {
                Some(c) => {
                    if accepts[k_exec] {
                        if self.can_add_edge(tid) {
                            self.add_edge(tid, c.0, c.1);
                            proof {
                                assert(self.thread_edges(tid as int) =~= old(self).thread_edges(
                                    tid as int,
                                ) + accepted_cells(tile, accepts@, k0, k_exec + 1));
                                assert forall|t2: int|
                                    0 <= t2 < old(self).num_threads && t2 != tid implies self
                                    .same_thread_state(*old(self), t2) by {
                                    assert(pre.same_thread_state(*old(self), t2));
                                    assert(self.same_thread_state(pre, t2));
                                }
                            }
                        } else {
                            // the buffer is full: stop on this very cell
                            self.current_x[tid] = c.0;
                            self.current_y[tid] = c.1;
                            proof {
                                tile.lemma_index_cell(k_exec as int);
                                assert forall|t2: int|
                                    0 <= t2 < old(self).num_threads && t2 != tid implies self
                                    .same_thread_state(*old(self), t2) by {
                                    assert(pre.same_thread_state(*old(self), t2));
                                    assert(self.thread_edges(t2) =~= pre.thread_edges(t2));
                                }
                                assert(self.thread_edges(tid as int) =~= pre.thread_edges(
                                    tid as int,
                                ));
                            }
                            return ;
                        }
                    } else {
                        proof {
                            assert(self.thread_edges(tid as int) =~= old(self).thread_edges(
                                tid as int,
                            ) + accepted_cells(tile, accepts@, k0, k_exec + 1));
                            assert forall|t2: int|
                                0 <= t2 < old(self).num_threads && t2 != tid implies self
                                .same_thread_state(*old(self), t2) by {
                                assert(pre.same_thread_state(*old(self), t2));
                                assert(self.thread_edges(t2) =~= pre.thread_edges(t2));
                            }
                        }
                    }
                },
                None => {
                    proof {
                        assert(false);
                    }
                },
            }
            k_exec = k_exec + 1;
        }
        // the tile is complete: stop on its last cell
        let ghost pre = *self;
        self.current_x[tid] = tile.end_x;
        self.current_y[tid] = tile.end_y;
        self.done[tid] = true;
        proof {
            assert forall|t2: int|
                0 <= t2 < old(self).num_threads && t2 != tid implies self.same_thread_state(
                *old(self),
                t2,
            ) by {
                assert(pre.same_thread_state(*old(self), t2));
                assert(self.thread_edges(t2) =~= pre.thread_edges(t2));
            }
            assert(self.thread_edges(tid as int) =~= pre.thread_edges(tid as int));
        }
    }

    /// Drive thread `tid` through one whole tile, draining its buffer
    /// between kernel invocations, and return every edge of the tile in
    /// traversal order.
    ///
    /// However small the edge buffer, the resumable walk emits exactly
    /// the edges that one uninterrupted traversal of the tile accepts:
    /// the two backends agree tile by tile.
    #[verifier::loop_isolation(false)]
    pub fn run_tile_to_completion(&mut self, tid: usize, tile: Tile, accepts: &Vec<bool>) -> (r:
        Vec<Edge>)
        requires
            old(self).wf(),
            tid < old(self).num_threads,
            tile.wf(),
            accepts@.len() == tile.area(),
            old(self).edges_count@[tid as int] == 0,
        ensures
            final(self).wf(),
            final(self).edges_size == old(self).edges_size,
            final(self).num_threads == old(self).num_threads,
            r@ == accepted_cells(tile, accepts@, 0, tile.area()),
            final(self).done@[tid as int],
            final(self).edges_count@[tid as int] == 0,
            (final(self).current_x@[tid as int], final(self).current_y@[tid as int])
                == tile.last_cell(),
            forall|t2: int|
                0 <= t2 < old(self).num_threads && t2 != tid ==> final(self).same_thread_state(
                    *old(self),
                    t2,
                ),
    {
        self.assign_tile(tid, tile);
        let mut out: Vec<Edge> = Vec::new();
        let ghost mut k_cur: int = 0;
        proof {
            assert(tile.area() >= 1) by (nonlinear_arith)
                requires
                    tile.width() >= 1,
                    tile.height() >= 1,
                    tile.area() == tile.width() * tile.height(),
            ;
            tile.lemma_index_cell(0);
            assert(accepted_cells(tile, accepts@, 0, 0) =~= Seq::<Edge>::empty());
            assert(out@ =~= accepted_cells(tile, accepts@, 0, 0));
        }
        let mut finished = false;
        while !finished
            invariant
                self.wf(),
                self.edges_size == old(self).edges_size,
                self.num_threads == old(self).num_threads,
                tid < self.num_threads,
                tile.wf(),
                accepts@.len() == tile.area(),
                self.edges_count@[tid as int] == 0,
                finished == self.done@[tid as int],
                !finished ==> {
                    &&& tile.contains(
                        self.current_x@[tid as int],
                        self.current_y@[tid as int],
                    )
                    &&& k_cur == tile.cell_index(
                        self.current_x@[tid as int],
                        self.current_y@[tid as int],
                    )
                    &&& 0 <= k_cur < tile.area()
                    &&& out@ == accepted_cells(tile, accepts@, 0, k_cur)
                },
                finished ==> {
                    &&& out@ == accepted_cells(tile, accepts@, 0, tile.area())
                    &&& (self.current_x@[tid as int], self.current_y@[tid as int])
                        == tile.last_cell()
                },
                forall|t2: int|
                    0 <= t2 < old(self).num_threads && t2 != tid ==> self.same_thread_state(
                        *old(self),
                        t2,
                    ),
            decreases (if finished {
                0int
            } else {
                tile.area() - k_cur + 1
            }),
        {
            let ghost pre = *self;
            self.run_thread(tid, tile, accepts);
            let ghost mid = *self;
            let mut batch = self.drain_thread(tid);
            let ghost bview = batch@;
            let ghost out_pre = out@;
            out.append(&mut batch);
            finished = self.get_done(tid);
            proof {
                assert(pre.thread_edges(tid as int) =~= Seq::<Edge>::empty());
                assert(out@ == out_pre + bview);
                assert forall|t2: int|
                    0 <= t2 < old(self).num_threads && t2 != tid implies self.same_thread_state(
                    *old(self),
                    t2,
                ) by {
                    assert(pre.same_thread_state(*old(self), t2));
                    assert(mid.same_thread_state(pre, t2));
                    assert(self.same_thread_state(mid, t2));
                }
                if finished {
                    lemma_accepted_cells_concat(tile, accepts@, 0, k_cur, tile.area());
                    assert(bview =~= accepted_cells(tile, accepts@, k_cur, tile.area()));
                    assert(out@ =~= accepted_cells(tile, accepts@, 0, tile.area()));
                } else {
                    let k1 = tile.cell_index(
                        self.current_x@[tid as int],
                        self.current_y@[tid as int],
                    );
                    lemma_accepted_cells_concat(tile, accepts@, 0, k_cur, k1);
                    lemma_accepted_cells_props(tile, accepts@, k_cur, k1);
                    assert(bview =~= accepted_cells(tile, accepts@, k_cur, k1));
                    assert(out@ =~= accepted_cells(tile, accepts@, 0, k1));
                    // the buffer was filled on the way, so the walk advanced
                    assert(accepted_cells(tile, accepts@, k_cur, k1).len() == mid.edges_size);
                    assert(k1 > k_cur);
                    k_cur = k1;
                }
            }
        }
        out
    }
}

/// A vector of `n` zeros.
fn zeroed_u64(n: usize) -> (r: Vec<u64>)
    ensures
        r@.len() == n,
        forall|k: int| 0 <= k < n ==> r@[k] == 0u64,
{
    let mut out: Vec<u64> = Vec::new();
    let mut k: usize = 0;
    while k < n
        invariant
            k <= n,
            out@.len() == k,
            forall|q: int| 0 <= q < k ==> out@[q] == 0u64,
        decreases n - k,
    {
        out.push(0);
        k = k + 1;
    }
    out
}

/// A vector of `n` `false` values.
fn zeroed_bool(n: usize) -> (r: Vec<bool>)
    ensures
        r@.len() == n,
        forall|k: int| 0 <= k < n ==> r@[k] == false,
{
    let mut out: Vec<bool> = Vec::new();
    let mut k: usize = 0;
    while k < n
        invariant
            k <= n,
            out@.len() == k,
            forall|q: int| 0 <= q < k ==> out@[q] == false,
        decreases n - k,
    {
        out.push(false);
        k = k + 1;
    }
    out
}

} // verus!
