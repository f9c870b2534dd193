//! Tiles of the adjacency matrix and the iterators that enumerate them.
//!
//! The `v × v` adjacency matrix is cut into square tiles of side
//! `tile_size` (the tiles in the last row and column may be smaller).
//! A [`Tile`] is a closed rectangle of cells; [`TileIterator`] walks the
//! cells of one tile in row-major order (the column `i` advances first,
//! then the row `j`), and [`TilesIterator`] enumerates all tiles of a
//! matrix in row-major tile order.

use vstd::arithmetic::div_mod::{
    lemma_fundamental_div_mod_converse_div, lemma_fundamental_div_mod_converse_mod,
};
use vstd::prelude::*;

verus! {

/// A directed edge between two nodes, or equally a cell `(i, j)` of the
/// adjacency matrix.
pub type Edge = (u64, u64);

/// A closed rectangle of the adjacency matrix: every cell `(i, j)` with
/// `start_x <= i <= end_x` and `start_y <= j <= end_y` belongs to it.
#[derive(Clone, Copy, Debug, PartialEq, Eq, Structural, Hash)]
pub struct Tile {
    /// Smallest `i` (column) of the tile.
    pub start_x: u64,
    /// Smallest `j` (row) of the tile.
    pub start_y: u64,
    /// Largest `i` (column) of the tile, inclusive.
    pub end_x: u64,
    /// Largest `j` (row) of the tile, inclusive.
    pub end_y: u64,
}

impl Tile {
    /// A tile is well formed when it holds at least one cell and its
    /// inclusive ends leave room for an iterator to step past them.
    pub open spec fn wf(self) -> bool {
        &&& self.start_x <= self.end_x
        &&& self.start_y <= self.end_y
        &&& self.end_x < u64::MAX
        &&& self.end_y < u64::MAX
    }

    /// Number of columns of the tile.
    pub open spec fn width(self) -> int {
        self.end_x - self.start_x + 1
    }

    /// Number of rows of the tile.
    pub open spec fn height(self) -> int {
        self.end_y - self.start_y + 1
    }

    /// Number of cells of the tile.
    pub open spec fn area(self) -> int {
        self.width() * self.height()
    }

    /// Whether the cell `(x, y)` lies in the tile.
    pub open spec fn contains(self, x: u64, y: u64) -> bool {
        self.start_x <= x <= self.end_x && self.start_y <= y <= self.end_y
    }

    /// The cell at row-major position `k` within the tile.
    pub open spec fn cell(self, k: int) -> Edge {
        (
            (self.start_x + k % self.width()) as u64,
            (self.start_y + k / self.width()) as u64,
        )
    }

    /// The row-major position of the cell `(x, y)` within the tile.
    pub open spec fn cell_index(self, x: u64, y: u64) -> int {
        (y - self.start_y) * self.width() + (x - self.start_x)
    }

    /// The last cell of the tile in row-major order.
    pub open spec fn last_cell(self) -> Edge {
        (self.end_x, self.end_y)
    }

    /// Start the row-major walk of this tile's cells.
    pub fn into_iter(self) -> (it: TileIterator)
        requires
            self.wf(),
        ensures
            it.wf(),
            it.t == self,
            it.pos_index() == 0,
    {
        TileIterator { i: self.start_x, j: self.start_y, t: self }
    }

    /// `cell` and `cell_index` are inverse to each other on the cells of
    /// a well-formed tile.
    pub proof fn lemma_cell_of_index(self, x: u64, y: u64)
        requires
            self.wf(),
            self.contains(x, y),
        ensures
            0 <= self.cell_index(x, y) < self.area(),
            self.cell(self.cell_index(x, y)) == (x, y),
    {
        let w = self.width();
        let h = self.height();
        let r = y - self.start_y;
        let c = x - self.start_x;
        let k = r * w + c;
        assert(k < h * w && 0 <= k) by (nonlinear_arith)
            requires
                0 <= r < h,
                0 <= c < w,
                k == r * w + c,
        ;
        lemma_fundamental_div_mod_converse_div(k, w, r, c);
        lemma_fundamental_div_mod_converse_mod(k, w, r, c);
        assert(h * w == w * h) by (nonlinear_arith);
    }

    /// Each row-major position of a well-formed tile denotes a cell of
    /// the tile, and positions in index order walk the cells row by row.
    pub proof fn lemma_index_cell(self, k: int)
        requires
            self.wf(),
            0 <= k < self.area(),
        ensures
            self.contains(self.cell(k).0, self.cell(k).1),
            self.cell_index(self.cell(k).0, self.cell(k).1) == k,
            k == self.area() - 1 ==> self.cell(k) == self.last_cell(),
    {
        let w = self.width();
        let h = self.height();
        assert(0 <= k % w < w && 0 <= k / w && k == (k / w) * w + (k % w)) by {
            vstd::arithmetic::div_mod::lemma_fundamental_div_mod(k, w);
            vstd::arithmetic::div_mod::lemma_remainder_lower(k, w);
            vstd::arithmetic::div_mod::lemma_remainder_upper(k, w);
            vstd::arithmetic::div_mod::lemma_div_pos_is_pos(k, w);
        }
        assert(k / w < h) by (nonlinear_arith)
            requires
                k < w * h,
                w >= 1,
                k == (k / w) * w + (k % w),
                0 <= k % w < w,
                0 <= k / w,
        ;
        assert(self.cell_index(self.cell(k).0, self.cell(k).1) == k);
        if k == self.area() - 1 {
            assert((h - 1) * w + (w - 1) == w * h - 1) by (nonlinear_arith);
            lemma_fundamental_div_mod_converse_div(k, w, h - 1, w - 1);
            lemma_fundamental_div_mod_converse_mod(k, w, h - 1, w - 1);
        }
    }
}

/// Row-major walk over the cells of one tile.
#[derive(Clone, Copy)]
pub struct TileIterator {
    /// Current `i` (column) position.
    pub i: u64,
    /// Current `j` (row) position.
    pub j: u64,
    /// The tile being walked.
    pub t: Tile,
}

impl TileIterator {
    /// The iterator either points at a cell of its tile, or stands one
    /// row past the end after yielding every cell.
    pub open spec fn wf(self) -> bool {
        &&& self.t.wf()
        &&& self.t.start_x <= self.i <= self.t.end_x
        &&& self.t.start_y <= self.j
        &&& (self.j > self.t.end_y ==> self.j == self.t.end_y + 1 && self.i == self.t.start_x)
    }

    /// Row-major position of the next cell to yield; equals the tile's
    /// area when the walk is over.
    pub open spec fn pos_index(self) -> int {
        self.t.cell_index(self.i, self.j)
    }

    /// Reposition the walk at the cell `(i, j)` of the tile, and return
    /// a copy of the repositioned iterator.
    pub fn skip_to(&mut self, i: u64, j: u64) -> (r: Self)
        requires
            old(self).wf(),
            old(self).t.contains(i, j),
        ensures
            final(self).wf(),
            final(self).t == old(self).t,
            final(self).i == i,
            final(self).j == j,
            final(self).pos_index() == old(self).t.cell_index(i, j),
            r == *final(self),
    {
        self.i = i;
        self.j = j;
        *self
    }

    /// Yield the next cell of the tile, or `None` after the last one.
    pub fn next(&mut self) -> (r: Option<Edge>)
        requires
            old(self).wf(),
        ensures
            final(self).wf(),
            final(self).t == old(self).t,
            old(self).pos_index() < old(self).t.area() ==> {
                &&& r == Some(old(self).t.cell(old(self).pos_index()))
                &&& r == Some((old(self).i, old(self).j))
                &&& final(self).pos_index() == old(self).pos_index() + 1
            },
            old(self).pos_index() >= old(self).t.area() ==> {
                &&& r is None
                &&& *final(self) == *old(self)
            },
    {
        proof {
            if self.j <= self.t.end_y {
                self.t.lemma_cell_of_index(self.i, self.j);
            } else {
                assert(self.pos_index() == self.t.area()) by (nonlinear_arith)
                    requires
                        self.wf(),
                        self.j == self.t.end_y + 1,
                        self.i == self.t.start_x,
                        self.pos_index() == self.t.cell_index(self.i, self.j),
                        self.t.cell_index(self.i, self.j) == (self.j - self.t.start_y) * self.t.width()
                            + (self.i - self.t.start_x),
                        self.t.area() == self.t.width() * self.t.height(),
                ;
            }
        }
        if self.j <= self.t.end_y {
            let c_i = self.i;
            let c_j = self.j;
            if self.i < self.t.end_x {
                self.i = self.i + 1;
            } else {
                self.i = self.t.start_x;
                self.j = self.j + 1;
            }
            proof {
                let w = self.t.width();
                let k0 = old(self).pos_index();
                let k1 = self.pos_index();
                let sx = self.t.start_x as int;
                let sy = self.t.start_y as int;
                let ex = self.t.end_x as int;
                let oi = old(self).i as int;
                let oj = old(self).j as int;
                let ni = self.i as int;
                let nj = self.j as int;
                assert(k1 == k0 + 1) by (nonlinear_arith)
                    requires
                        w == ex - sx + 1,
                        sx <= oi <= ex,
                        k0 == (oj - sy) * w + (oi - sx),
                        k1 == (nj - sy) * w + (ni - sx),
                        if oi < ex {
                            ni == oi + 1 && nj == oj
                        } else {
                            ni == sx && nj == oj + 1 && oi == ex
                        },
                ;
            }
            Some((c_i, c_j))
        } else {
            None
        }
    }
}


/// Number of tiles along one side of the matrix: the least `n` with
/// `n * tile_size >= v`.
pub open spec fn spec_tiles_per_side(v: u64, tile_size: u64) -> int {
    (v + tile_size - 1) as int / tile_size as int
}

/// The tile with row-major index `n` in the decomposition of the
/// `v × v` matrix into tiles of side `tile_size`.
pub open spec fn spec_tile_at(v: u64, tile_size: u64, n: int) -> Tile {
    let nside = spec_tiles_per_side(v, tile_size);
    let r = n / nside;
    let c = n % nside;
    Tile {
        start_x: (c * tile_size) as u64,
        start_y: (r * tile_size) as u64,
        end_x: (if c * tile_size + tile_size <= v {
            c * tile_size + tile_size - 1
        } else {
            v - 1
        }) as u64,
        end_y: (if r * tile_size + tile_size <= v {
            r * tile_size + tile_size - 1
        } else {
            v - 1
        }) as u64,
    }
}

/// All tiles of the `v × v` matrix in row-major tile order.
pub open spec fn spec_tiles(v: u64, tile_size: u64) -> Seq<Tile> {
    Seq::new(
        (spec_tiles_per_side(v, tile_size) * spec_tiles_per_side(v, tile_size)) as nat,
        |n: int| spec_tile_at(v, tile_size, n),
    )
}

/// A tile row or column index is in range exactly when its first cell
/// index is below `v`.
proof fn lemma_side_index(v: u64, tile_size: u64, c: int)
    requires
        v >= 1,
        tile_size >= 1,
        0 <= c,
    ensures
        c < spec_tiles_per_side(v, tile_size) <==> c * tile_size < v,
{
    let ts = tile_size as int;
    let nside = spec_tiles_per_side(v, tile_size);
    assert(nside == (v - 1) as int / ts + 1) by {
        vstd::arithmetic::div_mod::lemma_div_denominator(v - 1, 1, ts);
        vstd::arithmetic::div_mod::lemma_fundamental_div_mod((v - 1) as int, ts);
        vstd::arithmetic::div_mod::lemma_div_plus_one((v - 1) as int, ts);
    }
    assert((v - 1) as int / ts * ts <= (v - 1) as int && 0 <= (v - 1) as int % ts < ts) by {
        vstd::arithmetic::div_mod::lemma_fundamental_div_mod((v - 1) as int, ts);
        vstd::arithmetic::div_mod::lemma_remainder_lower((v - 1) as int, ts);
        vstd::arithmetic::div_mod::lemma_remainder_upper((v - 1) as int, ts);
    }
    if c < nside {
        assert(c * ts <= ((v - 1) as int / ts) * ts) by (nonlinear_arith)
            requires
                c <= (v - 1) as int / ts,
                ts >= 1,
        ;
    } else {
        assert(c * ts >= nside * ts) by (nonlinear_arith)
            requires
                c >= nside,
                ts >= 1,
        ;
        assert(nside * ts == ((v - 1) as int / ts) * ts + ts) by (nonlinear_arith)
            requires
                nside == (v - 1) as int / ts + 1,
        ;
        assert(((v - 1) as int / ts) * ts + ts >= v) by {
            vstd::arithmetic::div_mod::lemma_fundamental_div_mod((v - 1) as int, ts);
            vstd::arithmetic::div_mod::lemma_remainder_upper((v - 1) as int, ts);
        }
    }
}

/// Every tile of the decomposition is well formed, lies inside the
/// matrix, and spans at most `tile_size` cells in either direction.
pub proof fn lemma_tile_at_bounds(v: u64, tile_size: u64, n: int)
    requires
        v >= 1,
        tile_size >= 1,
        0 <= n < spec_tiles_per_side(v, tile_size) * spec_tiles_per_side(v, tile_size),
    ensures
        spec_tile_at(v, tile_size, n).wf(),
        spec_tile_at(v, tile_size, n).end_x < v,
        spec_tile_at(v, tile_size, n).end_y < v,
        spec_tile_at(v, tile_size, n).width() <= tile_size,
        spec_tile_at(v, tile_size, n).height() <= tile_size,
        spec_tile_at(v, tile_size, n).start_x % tile_size == 0,
        spec_tile_at(v, tile_size, n).start_y % tile_size == 0,
        spec_tile_at(v, tile_size, n).start_x == (n % spec_tiles_per_side(v, tile_size)) * tile_size,
        spec_tile_at(v, tile_size, n).start_y == (n / spec_tiles_per_side(v, tile_size)) * tile_size,
{
    let nside = spec_tiles_per_side(v, tile_size);
    let ts = tile_size as int;
    let r = n / nside;
    let c = n % nside;
    assert(nside >= 1) by {
        lemma_side_index(v, tile_size, 0);
    }
    assert(0 <= c < nside && 0 <= r && n == r * nside + c) by {
        vstd::arithmetic::div_mod::lemma_fundamental_div_mod(n, nside);
        vstd::arithmetic::div_mod::lemma_remainder_lower(n, nside);
        vstd::arithmetic::div_mod::lemma_remainder_upper(n, nside);
        vstd::arithmetic::div_mod::lemma_div_pos_is_pos(n, nside);
    }
    assert(r < nside) by (nonlinear_arith)
        requires
            n < nside * nside,
            n == r * nside + c,
            0 <= c < nside,
            0 <= r,
    ;
    lemma_side_index(v, tile_size, c);
    lemma_side_index(v, tile_size, r);
    assert(c * ts % ts == 0 && r * ts % ts == 0) by {
        vstd::arithmetic::div_mod::lemma_mod_multiples_basic(c, ts);
        vstd::arithmetic::div_mod::lemma_mod_multiples_basic(r, ts);
    }
}

/// Row-major enumeration of all tiles of a `v × v` matrix.
#[derive(Clone, Copy, Debug)]
pub struct TilesIterator {
    /// Total number of vertices.
    pub vertices: u64,
    /// Size of each tile.
    pub tile_size: u64,
    /// Current tile `i` (column) position.
    pub i: u64,
    /// Current tile `j` (row) position.
    pub j: u64,
}

impl TilesIterator {
    /// The iterator stands on the first cell of the next tile to yield,
    /// or on the row `vertices` after yielding every tile.
    pub open spec fn wf(self) -> bool {
        &&& self.vertices >= 1
        &&& self.tile_size >= 1
        &&& self.i % self.tile_size == 0
        &&& self.i < self.vertices
        &&& self.j <= self.vertices
        &&& (self.j < self.vertices ==> self.j % self.tile_size == 0)
        &&& (self.j == self.vertices ==> self.i == 0)
    }

    /// Row-major index of the next tile to yield; equals the total
    /// number of tiles when the enumeration is over.
    pub open spec fn pos_index(self) -> int {
        let nside = spec_tiles_per_side(self.vertices, self.tile_size);
        if self.j < self.vertices {
            (self.j as int / self.tile_size as int) * nside + self.i as int / self.tile_size as int
        } else {
            nside * nside
        }
    }

    /// Create a new enumeration of the tiles of a `max × max` matrix
    /// with tiles of side `step`.
    pub fn new(max: u64, step: u64) -> (r: Self)
        requires
            max >= 1,
            step >= 1,
        ensures
            r.wf(),
            r.vertices == max,
            r.tile_size == step,
            r.pos_index() == 0,
    {
        let it = TilesIterator { vertices: max, tile_size: step, i: 0u64, j: 0u64 };
        proof {
            vstd::arithmetic::div_mod::lemma_div_of0(step as int);
            vstd::arithmetic::div_mod::lemma_small_mod(0nat, step as nat);
            assert(it.pos_index() == (0int / step as int) * spec_tiles_per_side(max, step)
                + 0int / step as int);
        }
        it
    }

    /// Yield the next tile, or `None` after the last one.
    pub fn next(&mut self) -> (r: Option<Tile>)
        requires
            old(self).wf(),
        ensures
            final(self).wf(),
            final(self).vertices == old(self).vertices,
            final(self).tile_size == old(self).tile_size,
            old(self).pos_index() < spec_tiles(old(self).vertices, old(self).tile_size).len() ==> {
                &&& r == Some(spec_tiles(old(self).vertices, old(self).tile_size)[old(self).pos_index()])
                &&& final(self).pos_index() == old(self).pos_index() + 1
            },
            old(self).pos_index() >= spec_tiles(old(self).vertices, old(self).tile_size).len() ==> {
                &&& r is None
                &&& *final(self) == *old(self)
            },
    {
        let v = self.vertices;
        let ts = self.tile_size;
        if self.j >= v {
            return None;
        }
        let i_next = if ts >= v - self.i { v } else { self.i + ts };
        let j_next = if ts >= v - self.j { v } else { self.j + ts };
        let next = Tile {
            start_x: self.i,
            start_y: self.j,
            end_x: i_next - 1,
            end_y: j_next - 1,
        };
        proof {
            lemma_yield_tile(v, ts, self.i, self.j, self.pos_index());
        }
        let ghost old_index = self.pos_index();
        if i_next >= v {
            self.j = j_next;
            self.i = 0;
        } else {
            self.i = i_next;
        }
        proof {
            lemma_advance_index(v, ts, old(self).i, old(self).j, self.i, self.j);
        }
        Some(next)
    }
}


/// The tile yielded from position `(i, j)` is the tile of the
/// decomposition at the current row-major index.
pub(crate) proof fn lemma_yield_tile(v: u64, ts: u64, i: u64, j: u64, n: int)
    requires
        v >= 1,
        ts >= 1,
        i % ts == 0,
        i < v,
        j % ts == 0,
        j < v,
        n == (j as int / ts as int) * spec_tiles_per_side(v, ts) + i as int / ts as int,
    ensures
        0 <= n < spec_tiles_per_side(v, ts) * spec_tiles_per_side(v, ts),
        spec_tile_at(v, ts, n) == (Tile {
            start_x: i,
            start_y: j,
            end_x: (if i + ts <= v { i + ts - 1 } else { v - 1 }) as u64,
            end_y: (if j + ts <= v { j + ts - 1 } else { v - 1 }) as u64,
        }),
{
    let nside = spec_tiles_per_side(v, ts);
    let tsi = ts as int;
    let c = i as int / tsi;
    let r = j as int / tsi;
    assert(c * tsi == i && r * tsi == j) by {
        vstd::arithmetic::div_mod::lemma_fundamental_div_mod(i as int, tsi);
        vstd::arithmetic::div_mod::lemma_fundamental_div_mod(j as int, tsi);
        assert(tsi * c == c * tsi && tsi * r == r * tsi) by (nonlinear_arith);
    }
    assert(c >= 0 && r >= 0) by {
        vstd::arithmetic::div_mod::lemma_div_pos_is_pos(i as int, tsi);
        vstd::arithmetic::div_mod::lemma_div_pos_is_pos(j as int, tsi);
    }
    lemma_side_index(v, ts, c);
    lemma_side_index(v, ts, r);
    assert(0 <= n < nside * nside) by (nonlinear_arith)
        requires
            0 <= c < nside,
            0 <= r < nside,
            n == r * nside + c,
    ;
    vstd::arithmetic::div_mod::lemma_fundamental_div_mod_converse_div(n, nside, r, c);
    vstd::arithmetic::div_mod::lemma_fundamental_div_mod_converse_mod(n, nside, r, c);
}

/// Stepping the enumeration to the next tile start advances the
/// row-major index by one and keeps the iterator well formed.
pub(crate) proof fn lemma_advance_index(v: u64, ts: u64, oi: u64, oj: u64, ni: u64, nj: u64)
    requires
        v >= 1,
        ts >= 1,
        oi % ts == 0,
        oi < v,
        oj % ts == 0,
        oj < v,
        ({
            let i_next: int = if oi + ts <= v { oi + ts } else { v as int };
            let j_next: int = if oj + ts <= v { oj + ts } else { v as int };
            if i_next >= v {
                ni == 0 && nj == j_next
            } else {
                ni == i_next && nj == oj
            }
        }),
    ensures
        (TilesIterator { vertices: v, tile_size: ts, i: ni, j: nj }).wf(),
        (TilesIterator { vertices: v, tile_size: ts, i: ni, j: nj }).pos_index()
            == (TilesIterator { vertices: v, tile_size: ts, i: oi, j: oj }).pos_index() + 1,
{
    let nside = spec_tiles_per_side(v, ts);
    let tsi = ts as int;
    let c = oi as int / tsi;
    let r = oj as int / tsi;
    assert(c * tsi == oi && r * tsi == oj) by {
        vstd::arithmetic::div_mod::lemma_fundamental_div_mod(oi as int, tsi);
        vstd::arithmetic::div_mod::lemma_fundamental_div_mod(oj as int, tsi);
        assert(tsi * c == c * tsi && tsi * r == r * tsi) by (nonlinear_arith);
    }
    assert(c >= 0 && r >= 0) by {
        vstd::arithmetic::div_mod::lemma_div_pos_is_pos(oi as int, tsi);
        vstd::arithmetic::div_mod::lemma_div_pos_is_pos(oj as int, tsi);
    }
    lemma_side_index(v, ts, c);
    lemma_side_index(v, ts, r);
    vstd::arithmetic::div_mod::lemma_small_mod(0nat, ts as nat);
    vstd::arithmetic::div_mod::lemma_div_of0(tsi);
    if oi + ts <= v && oi + ts < v {
        // the walk stays in the same tile row
        assert((c + 1) * tsi == oi + ts) by (nonlinear_arith)
            requires
                c * tsi == oi,
                tsi == ts,
        ;
        assert(ni % ts == 0) by {
            vstd::arithmetic::div_mod::lemma_mod_multiples_basic(c + 1, tsi);
        }
        assert(ni as int / tsi == c + 1) by {
            vstd::arithmetic::div_mod::lemma_div_multiples_vanish(c + 1, tsi);
        }
    } else {
        // the tile row is exhausted: oi was the last column
        lemma_side_index(v, ts, c + 1);
        assert((c + 1) * tsi == oi + ts) by (nonlinear_arith)
            requires
                c * tsi == oi,
                tsi == ts,
        ;
        assert(c + 1 >= nside);
        assert(c == nside - 1);
        if oj + ts < v {
            // move to the start of the next tile row
            assert((r + 1) * tsi == oj + ts) by (nonlinear_arith)
                requires
                    r * tsi == oj,
                    tsi == ts,
            ;
            assert(nj % ts == 0) by {
                vstd::arithmetic::div_mod::lemma_mod_multiples_basic(r + 1, tsi);
            }
            assert(nj as int / tsi == r + 1) by {
                vstd::arithmetic::div_mod::lemma_div_multiples_vanish(r + 1, tsi);
            }
            assert((r + 1) * nside + 0 == r * nside + c + 1) by (nonlinear_arith)
                requires
                    c == nside - 1,
            ;
        } else {
            // the whole enumeration is over
            lemma_side_index(v, ts, r + 1);
            assert((r + 1) * tsi == oj + ts) by (nonlinear_arith)
                requires
                    r * tsi == oj,
                    tsi == ts,
            ;
            assert(r == nside - 1);
            assert(nside * nside == r * nside + c + 1) by (nonlinear_arith)
                requires
                    c == nside - 1,
                    r == nside - 1,
            ;
        }
    }
}


/// The tile of the decomposition whose row-major index a given cell
/// falls in: row `y / tile_size`, column `x / tile_size`.
pub open spec fn spec_home_index(v: u64, tile_size: u64, x: u64, y: u64) -> int {
    (y as int / tile_size as int) * spec_tiles_per_side(v, tile_size)
        + x as int / tile_size as int
}

/// Every cell of the matrix lies in the tile at its home index, and in
/// no other tile of the decomposition: the tiles partition the matrix.
pub proof fn lemma_cell_covered_once(v: u64, tile_size: u64, x: u64, y: u64)
    requires
        v >= 1,
        tile_size >= 1,
        x < v,
        y < v,
    ensures
        0 <= spec_home_index(v, tile_size, x, y)
            < spec_tiles(v, tile_size).len(),
        spec_tile_at(v, tile_size, spec_home_index(v, tile_size, x, y)).contains(x, y),
        forall|n: int|
            0 <= n < spec_tiles(v, tile_size).len()
                && #[trigger] spec_tile_at(v, tile_size, n).contains(x, y)
                ==> n == spec_home_index(v, tile_size, x, y),
        spec_home_index(v, tile_size, x, y) % spec_tiles_per_side(v, tile_size)
            == x as int / tile_size as int,
        spec_home_index(v, tile_size, x, y) / spec_tiles_per_side(v, tile_size)
            == y as int / tile_size as int,
{
    let ts = tile_size as int;
    let nside = spec_tiles_per_side(v, tile_size);
    let c = x as int / ts;
    let r = y as int / ts;
    let home = spec_home_index(v, tile_size, x, y);
    assert(ts * c + x as int % ts == x && 0 <= x as int % ts < ts) by {
        vstd::arithmetic::div_mod::lemma_fundamental_div_mod(x as int, ts);
        vstd::arithmetic::div_mod::lemma_remainder_lower(x as int, ts);
        vstd::arithmetic::div_mod::lemma_remainder_upper(x as int, ts);
    }
    assert(ts * r + y as int % ts == y && 0 <= y as int % ts < ts) by {
        vstd::arithmetic::div_mod::lemma_fundamental_div_mod(y as int, ts);
        vstd::arithmetic::div_mod::lemma_remainder_lower(y as int, ts);
        vstd::arithmetic::div_mod::lemma_remainder_upper(y as int, ts);
    }
    assert(c >= 0 && r >= 0) by {
        vstd::arithmetic::div_mod::lemma_div_pos_is_pos(x as int, ts);
        vstd::arithmetic::div_mod::lemma_div_pos_is_pos(y as int, ts);
    }
    assert(c * ts <= x && x < c * ts + ts && r * ts <= y && y < r * ts + ts) by (nonlinear_arith)
        requires
            ts * c + x as int % ts == x,
            0 <= x as int % ts < ts,
            ts * r + y as int % ts == y,
            0 <= y as int % ts < ts,
    ;
    lemma_side_index(v, tile_size, c);
    lemma_side_index(v, tile_size, r);
    assert(0 <= home < nside * nside) by (nonlinear_arith)
        requires
            0 <= c < nside,
            0 <= r < nside,
            home == r * nside + c,
    ;
    vstd::arithmetic::div_mod::lemma_fundamental_div_mod_converse_div(home, nside, r, c);
    vstd::arithmetic::div_mod::lemma_fundamental_div_mod_converse_mod(home, nside, r, c);
    assert(spec_tile_at(v, tile_size, home).contains(x, y));
    assert forall|n: int|
        0 <= n < spec_tiles(v, tile_size).len()
            && #[trigger] spec_tile_at(v, tile_size, n).contains(x, y)
        implies n == home
    by {
        let rn = n / nside;
        let cn = n % nside;
        assert(0 <= cn < nside && 0 <= rn && n == rn * nside + cn) by {
            vstd::arithmetic::div_mod::lemma_fundamental_div_mod(n, nside);
            vstd::arithmetic::div_mod::lemma_remainder_lower(n, nside);
            vstd::arithmetic::div_mod::lemma_remainder_upper(n, nside);
            vstd::arithmetic::div_mod::lemma_div_pos_is_pos(n, nside);
        }
        let t = spec_tile_at(v, tile_size, n);
        lemma_tile_at_bounds(v, tile_size, n);
        assert(t.start_x == cn * ts && t.start_y == rn * ts);
        assert(t.end_x <= cn * ts + ts - 1 && t.end_y <= rn * ts + ts - 1);
        assert(cn * ts <= x <= cn * ts + ts - 1 && rn * ts <= y <= rn * ts + ts - 1);
        vstd::arithmetic::div_mod::lemma_fundamental_div_mod_converse_div(
            x as int, ts, cn, x - cn * ts);
        vstd::arithmetic::div_mod::lemma_fundamental_div_mod_converse_div(
            y as int, ts, rn, y - rn * ts);
    }
}

/// A cell position is mapped back to the unique aligned tile of the
/// decomposition that holds it; this is how a finished tile is
/// identified from the final position a generation thread stopped at.
pub proof fn lemma_pos_to_tile_recovers(v: u64, tile_size: u64, n: int, x: u64, y: u64)
    requires
        v >= 1,
        tile_size >= 1,
        0 <= n < spec_tiles(v, tile_size).len(),
        spec_tile_at(v, tile_size, n).contains(x, y),
    ensures
        x < v,
        y < v,
        spec_tile_at(v, tile_size, spec_home_index(v, tile_size, x, y))
            == spec_tile_at(v, tile_size, n),
{
    lemma_tile_at_bounds(v, tile_size, n);
    lemma_cell_covered_once(v, tile_size, x, y);
}

/// Running total of the cell counts of the first `n` tiles of the
/// decomposition.
pub open spec fn sum_tile_areas(v: u64, tile_size: u64, n: int) -> int
    decreases n,
{
    if n <= 0 {
        0
    } else {
        sum_tile_areas(v, tile_size, n - 1) + spec_tile_at(v, tile_size, n - 1).area()
    }
}

/// Height of tile row `r`: `tile_size`, except for a clipped last row.
spec fn spec_row_extent(v: u64, tile_size: u64, r: int) -> int {
    if r * tile_size + tile_size <= v {
        tile_size as int
    } else {
        v - r * tile_size
    }
}

/// The running-total invariant of the row-major walk: full rows
/// contribute `v` cells per row of cells walked, and the current
/// partial row contributes its height times the columns passed.
proof fn lemma_sum_areas_prefix(v: u64, tile_size: u64, n: int)
    requires
        v >= 1,
        tile_size >= 1,
        0 <= n <= spec_tiles_per_side(v, tile_size) * spec_tiles_per_side(v, tile_size),
    ensures
        ({
            let nside = spec_tiles_per_side(v, tile_size);
            let r = n / nside;
            let c = n % nside;
            sum_tile_areas(v, tile_size, n) == v * (if r * tile_size <= v {
                r * tile_size as int
            } else {
                v as int
            }) + spec_row_extent(v, tile_size, r) * (c * tile_size)
        }),
    decreases n,
{
    let ts = tile_size as int;
    let nside = spec_tiles_per_side(v, tile_size);
    assert(nside >= 1) by {
        lemma_side_index(v, tile_size, 0);
    }
    let r = n / nside;
    let c = n % nside;
    assert(0 <= c < nside && 0 <= r && n == r * nside + c) by {
        vstd::arithmetic::div_mod::lemma_fundamental_div_mod(n, nside);
        vstd::arithmetic::div_mod::lemma_remainder_lower(n, nside);
        vstd::arithmetic::div_mod::lemma_remainder_upper(n, nside);
        vstd::arithmetic::div_mod::lemma_div_pos_is_pos(n, nside);
    }
    if n == 0 {
        assert(r == 0 && c == 0) by {
            vstd::arithmetic::div_mod::lemma_div_of0(nside);
            vstd::arithmetic::div_mod::lemma_small_mod(0nat, nside as nat);
        }
    } else {
        let m = n - 1;
        lemma_sum_areas_prefix(v, tile_size, m);
        let rm = m / nside;
        let cm = m % nside;
        assert(0 <= cm < nside && 0 <= rm && m == rm * nside + cm) by {
            vstd::arithmetic::div_mod::lemma_fundamental_div_mod(m, nside);
            vstd::arithmetic::div_mod::lemma_remainder_lower(m, nside);
            vstd::arithmetic::div_mod::lemma_remainder_upper(m, nside);
            vstd::arithmetic::div_mod::lemma_div_pos_is_pos(m, nside);
        }
        assert(n < nside * nside ==> r < nside) by (nonlinear_arith)
            requires
                n == r * nside + c,
                0 <= c < nside,
                0 <= r,
        ;
        if cm + 1 < nside {
            vstd::arithmetic::div_mod::lemma_fundamental_div_mod_converse_div(n, nside, rm, cm + 1);
            vstd::arithmetic::div_mod::lemma_fundamental_div_mod_converse_mod(n, nside, rm, cm + 1);
        } else {
            assert(n == (rm + 1) * nside + 0) by (nonlinear_arith)
                requires
                    m == rm * nside + cm,
                    n == m + 1,
                    cm == nside - 1,
            ;
            vstd::arithmetic::div_mod::lemma_fundamental_div_mod_converse_div(n, nside, rm + 1, 0);
            vstd::arithmetic::div_mod::lemma_fundamental_div_mod_converse_mod(n, nside, rm + 1, 0);
        }
        assert(rm < nside && cm < nside) by (nonlinear_arith)
            requires
                m == rm * nside + cm,
                m < nside * nside,
                0 <= cm < nside,
                0 <= rm,
        ;
        lemma_tile_at_bounds(v, tile_size, m);
        lemma_side_index(v, tile_size, cm);
        lemma_side_index(v, tile_size, rm);
        let tm = spec_tile_at(v, tile_size, m);
        let w = spec_row_extent(v, tile_size, cm);
        let h = spec_row_extent(v, tile_size, rm);
        assert((cm + 1) * ts == cm * ts + ts && (rm + 1) * ts == rm * ts + ts) by (nonlinear_arith);
        assert(tm.start_x == cm * ts && tm.start_y == rm * ts);
        assert(tm.width() == w && tm.height() == h);
        assert(tm.area() == w * h) by (nonlinear_arith)
            requires
                tm.area() == tm.width() * tm.height(),
                tm.width() == w,
                tm.height() == h,
        ;
        if cm + 1 < nside {
            // staying inside the same tile row
            lemma_side_index(v, tile_size, cm + 1);
            assert(w == ts) by (nonlinear_arith)
                requires
                    w == spec_row_extent(v, tile_size, cm),
                    spec_row_extent(v, tile_size, cm) == if cm * ts + ts <= v { ts } else { v - cm * ts },
                    (cm + 1) * ts < v,
            ;
            assert(sum_tile_areas(v, tile_size, n)
                == v * (if rm * ts <= v { rm * ts } else { v as int }) + h * ((cm + 1) * ts))
                by (nonlinear_arith)
                requires
                    sum_tile_areas(v, tile_size, n)
                        == sum_tile_areas(v, tile_size, m) + ts * h,
                    sum_tile_areas(v, tile_size, m)
                        == v * (if rm * ts <= v { rm * ts } else { v as int }) + h * (cm * ts),
            ;
        } else {
            // the tile row is complete: its cells add up to v per cell row
            lemma_side_index(v, tile_size, cm + 1);
            assert((cm + 1) * ts >= v);
            assert(w == v - cm * ts);
            assert(sum_tile_areas(v, tile_size, n)
                == v * (if rm * ts <= v { rm * ts } else { v as int }) + h * (v as int))
                by (nonlinear_arith)
                requires
                    sum_tile_areas(v, tile_size, n)
                        == sum_tile_areas(v, tile_size, m) + w * h,
                    sum_tile_areas(v, tile_size, m)
                        == v * (if rm * ts <= v { rm * ts } else { v as int }) + h * (cm * ts),
                    w == v - cm * ts,
            ;
            assert(rm * ts < v);
            assert((rm + 1) * ts == rm * ts + ts) by (nonlinear_arith);
            assert(h == (if (rm + 1) * ts <= v { ts as int } else { v - rm * ts }));
            assert(v * (if rm * ts <= v { rm * ts } else { v as int }) + h * (v as int)
                == v * (if (rm + 1) * ts <= v { (rm + 1) * ts } else { v as int }))
                by (nonlinear_arith)
                requires
                    h == (if (rm + 1) * ts <= v { ts as int } else { v - rm * ts }),
                    0 <= rm * ts < v,
            ;
        }
    }
}

/// The tiles of the decomposition hold `v * v` cells in all: flattening
/// every tile walks each cell of the matrix exactly once.
pub proof fn lemma_tiles_cells_count(v: u64, tile_size: u64)
    requires
        v >= 1,
        tile_size >= 1,
    ensures
        sum_tile_areas(v, tile_size, spec_tiles(v, tile_size).len() as int) == v * v,
{
    let nside = spec_tiles_per_side(v, tile_size);
    let ts = tile_size as int;
    assert(nside >= 1) by {
        lemma_side_index(v, tile_size, 0);
    }
    let n = nside * nside;
    lemma_sum_areas_prefix(v, tile_size, n);
    vstd::arithmetic::div_mod::lemma_fundamental_div_mod_converse_div(n, nside, nside, 0);
    vstd::arithmetic::div_mod::lemma_fundamental_div_mod_converse_mod(n, nside, nside, 0);
    lemma_side_index(v, tile_size, nside);
    assert(nside * ts >= v);
    assert(sum_tile_areas(v, tile_size, n) == v * v) by (nonlinear_arith)
        requires
            sum_tile_areas(v, tile_size, n) == v * (if nside * ts <= v { nside * ts } else { v as int })
                + spec_row_extent(v, tile_size, nside) * (0 * ts),
            nside * ts >= v,
    ;
}


/// The number of tiles along one side, written with the division that
/// executable code computes.
pub proof fn lemma_tiles_per_side_form(v: u64, tile_size: u64)
    requires
        v >= 1,
        tile_size >= 1,
    ensures
        spec_tiles_per_side(v, tile_size) == (v - 1) as int / tile_size as int + 1,
{
    let ts = tile_size as int;
    vstd::arithmetic::div_mod::lemma_div_denominator(v - 1, 1, ts);
    vstd::arithmetic::div_mod::lemma_fundamental_div_mod((v - 1) as int, ts);
    vstd::arithmetic::div_mod::lemma_div_plus_one((v - 1) as int, ts);
}

/// A well-formed enumeration index never exceeds the number of tiles,
/// and reaches it exactly when the enumeration is over.
pub proof fn lemma_pos_index_bounds(it: TilesIterator)
    requires
        it.wf(),
    ensures
        0 <= it.pos_index() <= spec_tiles(it.vertices, it.tile_size).len(),
        it.pos_index() < spec_tiles(it.vertices, it.tile_size).len() <==> it.j < it.vertices,
{
    let nside = spec_tiles_per_side(it.vertices, it.tile_size);
    let ts = it.tile_size as int;
    assert(nside >= 1) by {
        lemma_side_index(it.vertices, it.tile_size, 0);
    }
    if it.j < it.vertices {
        let c = it.i as int / ts;
        let r = it.j as int / ts;
        assert(c >= 0 && r >= 0) by {
            vstd::arithmetic::div_mod::lemma_div_pos_is_pos(it.i as int, ts);
            vstd::arithmetic::div_mod::lemma_div_pos_is_pos(it.j as int, ts);
        }
        assert(c * ts == it.i && r * ts == it.j) by {
            vstd::arithmetic::div_mod::lemma_fundamental_div_mod(it.i as int, ts);
            vstd::arithmetic::div_mod::lemma_fundamental_div_mod(it.j as int, ts);
            assert(ts * c == c * ts && ts * r == r * ts) by (nonlinear_arith);
        }
        lemma_side_index(it.vertices, it.tile_size, c);
        lemma_side_index(it.vertices, it.tile_size, r);
        assert(0 <= r * nside + c < nside * nside) by (nonlinear_arith)
            requires
                0 <= c < nside,
                0 <= r < nside,
        ;
    } else {
        assert(nside * nside >= 1) by (nonlinear_arith)
            requires
                nside >= 1,
        ;
    }
}

/// Which shard a tile index belongs to.  Shard `idx` of `stride` takes
/// the tile indices `idx`, `idx + stride`, `idx + 2·stride`, …; every
/// tile index belongs to exactly one shard, at exactly one position, so
/// the union of the shard enumerations over `idx = 0 .. stride` walks
/// every tile of the decomposition exactly once.
pub proof fn lemma_shards_partition(total: int, stride: int, n: int)
    requires
        stride >= 1,
        0 <= n < total,
    ensures
        0 <= n % stride < stride,
        0 <= n / stride,
        n == n % stride + (n / stride) * stride,
        forall|idx: int, m: int|
            0 <= idx < stride && 0 <= m && #[trigger] (idx + m * stride) == n ==> idx == n % stride
                && m == n / stride,
{
    vstd::arithmetic::div_mod::lemma_fundamental_div_mod(n, stride);
    vstd::arithmetic::div_mod::lemma_remainder_lower(n, stride);
    vstd::arithmetic::div_mod::lemma_remainder_upper(n, stride);
    vstd::arithmetic::div_mod::lemma_div_pos_is_pos(n, stride);
    assert(n == n % stride + (n / stride) * stride) by (nonlinear_arith)
        requires
            n == stride * (n / stride) + n % stride,
    ;
    assert forall|idx: int, m: int|
        0 <= idx < stride && 0 <= m && #[trigger] (idx + m * stride) == n implies idx == n % stride
        && m == n / stride by {
        vstd::arithmetic::div_mod::lemma_fundamental_div_mod_converse_div(n, stride, m, idx);
        vstd::arithmetic::div_mod::lemma_fundamental_div_mod_converse_mod(n, stride, m, idx);
    }
}

/// Enumeration of the tiles of one shard: starting from the shard's
/// first tile index, it yields every `stride`-th tile of the row-major
/// decomposition.
#[derive(Clone, Copy, Debug)]
pub struct ShardTilesIterator {
    /// Enumeration of all tiles, positioned at the next tile of this
    /// shard.
    pub inner: TilesIterator,
    /// Number of shards: the step between two tiles of this shard.
    pub stride: u64,
}

impl ShardTilesIterator {
    /// The inner enumeration is well formed and the stride positive.
    pub open spec fn wf(self) -> bool {
        self.inner.wf() && self.stride >= 1
    }

    /// Total number of tiles of the decomposition.
    pub open spec fn total(self) -> int {
        spec_tiles(self.inner.vertices, self.inner.tile_size).len() as int
    }

    /// Yield the next tile of this shard, or `None` when the shard is
    /// exhausted.
    pub fn next(&mut self) -> (r: Option<Tile>)
        requires
            old(self).wf(),
        ensures
            final(self).wf(),
            final(self).stride == old(self).stride,
            final(self).inner.vertices == old(self).inner.vertices,
            final(self).inner.tile_size == old(self).inner.tile_size,
            old(self).inner.pos_index() < old(self).total() ==> {
                &&& r == Some(
                    spec_tiles(old(self).inner.vertices, old(self).inner.tile_size)[old(
                        self,
                    ).inner.pos_index()],
                )
                &&& final(self).inner.pos_index() == (if old(self).inner.pos_index()
                    + old(self).stride <= old(self).total() {
                    old(self).inner.pos_index() + old(self).stride
                } else {
                    old(self).total()
                })
            },
            old(self).inner.pos_index() >= old(self).total() ==> {
                &&& r is None
                &&& *final(self) == *old(self)
            },
    {
        proof {
            lemma_pos_index_bounds(self.inner);
        }
        let ghost start = self.inner.pos_index();
        let ghost total = self.total();
        let r = self.inner.next();
        if r.is_none() {
            return None;
        }
        let mut skipped: u64 = 0;
        while skipped + 1 < self.stride
            invariant
                self.inner.wf(),
                self.inner.vertices == old(self).inner.vertices,
                self.inner.tile_size == old(self).inner.tile_size,
                self.stride == old(self).stride,
                skipped + 1 <= self.stride,
                total == self.total(),
                self.inner.pos_index() == (if start + 1 + skipped <= total {
                    start + 1 + skipped
                } else {
                    total
                }),
            decreases self.stride - skipped,
        {
            proof {
                lemma_pos_index_bounds(self.inner);
            }
            let _ = self.inner.next();
            skipped = skipped + 1;
        }
        r
    }
}


/// With a tile size at least the number of vertices, the decomposition
/// is a single tile that covers the whole matrix.
pub proof fn lemma_single_tile(v: u64, tile_size: u64)
    requires
        v >= 1,
        tile_size >= v,
    ensures
        spec_tiles(v, tile_size).len() == 1,
        spec_tiles(v, tile_size)[0] == (Tile {
            start_x: 0,
            start_y: 0,
            end_x: (v - 1) as u64,
            end_y: (v - 1) as u64,
        }),
{
    let ts = tile_size as int;
    vstd::arithmetic::div_mod::lemma_fundamental_div_mod_converse_div(
        v as int + ts - 1,
        ts,
        1,
        v as int - 1,
    );
    assert(spec_tiles_per_side(v, tile_size) == 1);
    vstd::arithmetic::div_mod::lemma_div_of0(1);
    vstd::arithmetic::div_mod::lemma_small_mod(0nat, 1nat);
    assert(spec_tile_at(v, tile_size, 0).start_x == 0);
}


/// Number of tiles that shard `idx` of `stride` handles.
pub open spec fn spec_shard_len(total: int, idx: int, stride: int) -> int {
    if idx >= total {
        0
    } else {
        (total - idx - 1) / stride + 1
    }
}

/// The tiles of shard `idx` of `stride`, in the order the shard's
/// enumeration yields them.
pub open spec fn spec_shard_tiles(v: u64, tile_size: u64, idx: int, stride: int) -> Seq<Tile> {
    Seq::new(
        spec_shard_len(spec_tiles(v, tile_size).len() as int, idx, stride) as nat,
        |m: int| spec_tile_at(v, tile_size, idx + m * stride),
    )
}

/// The shards partition the decomposition: every tile stands in exactly
/// one shard's enumeration, at exactly one position, so the union of
/// the shard outputs over `idx = 0 .. stride` is the whole enumeration.
pub proof fn lemma_shard_tiles_cover(v: u64, tile_size: u64, stride: int, n: int)
    requires
        v >= 1,
        tile_size >= 1,
        stride >= 1,
        0 <= n < spec_tiles(v, tile_size).len(),
    ensures
        ({
            let idx = n % stride;
            let m = n / stride;
            &&& 0 <= idx < stride
            &&& 0 <= m < spec_shard_tiles(v, tile_size, idx, stride).len()
            &&& spec_shard_tiles(v, tile_size, idx, stride)[m] == spec_tiles(v, tile_size)[n]
        }),
        forall|idx: int, m: int|
            0 <= idx < stride && 0 <= m < spec_shard_tiles(v, tile_size, idx, stride).len()
                && #[trigger] (idx + m * stride) == n ==> idx == n % stride && m == n / stride,
{
    let total = spec_tiles(v, tile_size).len() as int;
    lemma_shards_partition(total, stride, n);
    let idx = n % stride;
    let m = n / stride;
    assert(n - idx == m * stride);
    assert((n - idx) / stride == m) by {
        vstd::arithmetic::div_mod::lemma_fundamental_div_mod_converse_div(n - idx, stride, m, 0);
    }
    assert((total - idx - 1) / stride >= m) by {
        vstd::arithmetic::div_mod::lemma_div_is_ordered(n - idx, total - idx - 1, stride);
    }
}

} // verus!
