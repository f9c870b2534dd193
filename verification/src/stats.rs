//! Degree statistics over the edge stream.
//!
//! The consumer end of the pipeline counts, for every vertex, how many
//! edges leave it, and derives the tail distribution of the degrees.

use crate::tiles::Edge;
use vstd::prelude::*;

verus! {

/// How many edges of `batch` leave vertex `i`.
pub open spec fn spec_degree_of(batch: Seq<Edge>, i: int) -> int
    decreases batch.len(),
{
    if batch.len() == 0 {
        0
    } else {
        spec_degree_of(batch.drop_last(), i) + (if batch.last().0 == i {
            1int
        } else {
            0int
        })
    }
}

/// A vertex's degree within a batch never exceeds the batch length.
pub proof fn lemma_degree_of_bounds(batch: Seq<Edge>, i: int)
    ensures
        0 <= spec_degree_of(batch, i) <= batch.len(),
    decreases batch.len(),
{
    if batch.len() > 0 {
        lemma_degree_of_bounds(batch.drop_last(), i);
    }
}

/// How many entries of `s` are larger than `x`.
pub open spec fn spec_count_above(s: Seq<u64>, x: u64) -> int
    decreases s.len(),
{
    if s.len() == 0 {
        0
    } else {
        spec_count_above(s.drop_last(), x) + (if s.last() > x {
            1int
        } else {
            0int
        })
    }
}

/// The count of entries above a bound never exceeds the length.
pub proof fn lemma_count_above_bounds(s: Seq<u64>, x: u64)
    ensures
        0 <= spec_count_above(s, x) <= s.len(),
    decreases s.len(),
{
    if s.len() > 0 {
        lemma_count_above_bounds(s.drop_last(), x);
    }
}

/// Add one batch of edges to the per-vertex degree counters: the
/// counter of each vertex grows by exactly the number of edges of the
/// batch that leave it.
pub fn accumulate_degrees(counters: &mut Vec<u64>, batch: &Vec<Edge>)
    requires
        forall|q: int| 0 <= q < batch@.len() ==> (#[trigger] batch@[q].0) < old(counters)@.len(),
        forall|k: int|
            0 <= k < old(counters)@.len() ==> (#[trigger] old(counters)@[k]) + batch@.len()
                <= u64::MAX,
    ensures
        final(counters)@.len() == old(counters)@.len(),
        forall|k: int|
            0 <= k < old(counters)@.len() ==> #[trigger] final(counters)@[k] == old(counters)@[k]
                + spec_degree_of(batch@, k),
{
    let mut q: usize = 0;
    while q < batch.len()
        invariant
            q <= batch@.len(),
            counters@.len() == old(counters)@.len(),
            forall|p: int| 0 <= p < batch@.len() ==> (#[trigger] batch@[p].0) < counters@.len(),
            forall|k: int|
                0 <= k < counters@.len() ==> (#[trigger] old(counters)@[k]) + batch@.len()
                    <= u64::MAX,
            forall|k: int|
                0 <= k < counters@.len() ==> #[trigger] counters@[k] == old(counters)@[k]
                    + spec_degree_of(batch@.take(q as int), k),
        decreases batch@.len() - q,
    {
        let e = batch[q];
        proof {
            assert forall|k: int| 0 <= k < counters@.len() implies 0 <= #[trigger] spec_degree_of(
                batch@.take(q as int),
                k,
            ) <= q by {
                lemma_degree_of_bounds(batch@.take(q as int), k);
            }
        }
        let n_counters = counters.len();
        proof {
            assert(e == batch@[q as int]);
            assert(e.0 < n_counters);
        }
        let i = e.0 as usize;
        let c = counters[i];
        let ghost pre = counters@;
        counters[i] = c + 1;
        proof {
            assert forall|k: int| 0 <= k < counters@.len() implies #[trigger] counters@[k] == old(
                counters,
            )@[k] + spec_degree_of(batch@.take(q + 1), k) by {
                assert(batch@.take(q + 1).drop_last() =~= batch@.take(q as int));
                assert(batch@.take(q + 1).last() == batch@[q as int]);
                assert(spec_degree_of(batch@.take(q + 1), k) == spec_degree_of(
                    batch@.take(q as int),
                    k,
                ) + (if batch@[q as int].0 == k {
                    1int
                } else {
                    0int
                }));
                assert(pre[k] == old(counters)@[k] + spec_degree_of(batch@.take(q as int), k));
                if k == i as int {
                    assert(counters@[k] == c + 1);
                } else {
                    assert(counters@[k] == pre[k]);
                }
            }
        }
        q = q + 1;
    }
    proof {
        assert(batch@.take(batch@.len() as int) =~= batch@);
    }
}

/// How many vertices have a degree above `x`: one point of the degree
/// tail distribution.
pub fn degrees_above(counters: &Vec<u64>, x: u64) -> (r: u64)
    requires
        counters@.len() <= u64::MAX,
    ensures
        r == spec_count_above(counters@, x),
{
    let mut count: u64 = 0;
    let mut k: usize = 0;
    proof {
        lemma_count_above_bounds(counters@, x);
    }
    while k < counters.len()
        invariant
            k <= counters@.len(),
            counters@.len() <= u64::MAX,
            count == spec_count_above(counters@.take(k as int), x),
            count <= k,
        decreases counters@.len() - k,
    {
        proof {
            lemma_count_above_bounds(counters@.take(k as int), x);
            assert(counters@.take(k + 1).drop_last() =~= counters@.take(k as int));
            assert(counters@.take(k + 1).last() == counters@[k as int]);
        }
        if counters[k] > x {
            count = count + 1;
        }
        k = k + 1;
    }
    proof {
        assert(counters@.take(counters@.len() as int) =~= counters@);
    }
    count
}

} // verus!
