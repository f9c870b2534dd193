//! Seed generation.
//!
//! A run of the generator is parameterised by one 64-bit seed per
//! derived property (weight, edge randomness, one per spatial
//! dimension).  No two seeds may be equal: two equal seeds would make
//! two independent properties of every vertex coincide.

use vstd::prelude::*;
use vstd::seq_lib::*;
use vstd::set_lib::lemma_len_subset;

verus! {

/// Relies on `rand::random::<u64>`: draws one 64-bit value from the
/// thread-local generator.  Nothing is assumed about the value.
#[verifier::external_body]
fn random_u64() -> u64 {
    rand::random::<u64>()
}

/// Whether `x` occurs in `s`.
fn vec_contains(s: &Vec<u64>, x: u64) -> (r: bool)
    ensures
        r == s@.contains(x),
{
    let mut k: usize = 0;
    while k < s.len()
        invariant
            0 <= k <= s@.len(),
            forall|a: int| 0 <= a < k ==> s@[a] != x,
        decreases s@.len() - k,
    {
        if s[k] == x {
            return true;
        }
        k = k + 1;
    }
    false
}

/// A sequence that holds every value up to `c` holds more than `c`
/// entries.
proof fn lemma_prefix_pigeonhole(s: Seq<u64>, c: u64)
    requires
        forall|x: u64| x <= c ==> s.contains(x),
    ensures
        c < s.len(),
{
    broadcast use vstd::set::group_set_axioms;

    let ival = Seq::new((c + 1) as nat, |i: int| i as u64);
    assert(ival.no_duplicates());
    ival.unique_seq_to_set();
    s.lemma_cardinality_of_set();
    assert forall|x: u64| ival.to_set().contains(x) implies s.to_set().contains(x) by {
        assert(ival.contains(x));
        let i = choose|i: int| 0 <= i < ival.len() && ival[i] == x;
        assert(x <= c);
        assert(s.contains(x));
    }
    assert(ival.to_set().subset_of(s.to_set()));
    assert(s.to_set().finite()) by {
        broadcast use seq_to_set_is_finite;

    }
    lemma_len_subset(ival.to_set(), s.to_set());
}

/// The smallest value that does not occur in `s`.
fn find_unused(s: &Vec<u64>) -> (r: u64)
    requires
        s@.len() < u64::MAX,
    ensures
        !s@.contains(r),
{
    let mut c: u64 = 0;
    while vec_contains(s, c)
        invariant
            s@.len() < u64::MAX,
            c <= s@.len(),
            forall|x: u64| x < c ==> s@.contains(x),
        decreases s@.len() - c,
    {
        proof {
            lemma_prefix_pigeonhole(s@, c);
        }
        c = c + 1;
    }
    c
}

/// Generate `n` random seed values such that no two are the same.
///
/// Each entry is drawn from the machine's random number generator; a
/// draw that repeats an earlier entry is replaced by the smallest value
/// not yet taken.
pub fn generate_seeds(n: usize) -> (r: Vec<u64>)
    requires
        n < u64::MAX,
    ensures
        r@.len() == n,
        forall|a: int, b: int| 0 <= a < b < n ==> r@[a] != r@[b],
{
    let mut seeds: Vec<u64> = Vec::new();
    while seeds.len() < n
        invariant
            n < u64::MAX,
            seeds@.len() <= n,
            forall|a: int, b: int| 0 <= a < b < seeds@.len() ==> seeds@[a] != seeds@[b],
        decreases n - seeds@.len(),
    {
        let drawn = random_u64();
        let candidate = if vec_contains(&seeds, drawn) {
            find_unused(&seeds)
        } else {
            drawn
        };
        proof {
            assert(forall|a: int| 0 <= a < seeds@.len() ==> seeds@[a] != candidate) by {
                assert(forall|a: int|
                    0 <= a < seeds@.len() && seeds@[a] == candidate ==> seeds@.contains(
                        candidate,
                    ));
            }
        }
        seeds.push(candidate);
    }
    seeds
}

} // verus!
