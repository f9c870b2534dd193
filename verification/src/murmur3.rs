//! MurmurHash3 (x86, 32-bit) over two or three 64-bit keys.
//!
//! The keys are laid out as their big-endian bytes, concatenated, and
//! hashed with seed 0.  Because the input length is always a multiple of
//! four bytes there is no partial trailing block, so the algorithm is a
//! sequence of whole-word mixing rounds followed by the finalizer.
//!
//! Every per-vertex and per-edge random draw of the generator is derived
//! from these two functions, which is what makes any tile of the
//! adjacency matrix computable in isolation.

use vstd::prelude::*;

verus! {

/// First multiplicative constant of the word mix.
pub const MIX_C1: u32 = 0xcc9e_2d51;
/// Second multiplicative constant of the word mix.
pub const MIX_C2: u32 = 0x1b87_3593;
/// First multiplicative constant of the finalizer.
pub const FINISH_C1: u32 = 0x85eb_ca6b;
/// Second multiplicative constant of the finalizer.
pub const FINISH_C2: u32 = 0xc2b2_ae35;
/// Additive constant applied after every absorbed word.
pub const ROUND_N: u32 = 0xe654_6b64;

/// The mix applied to an input word before it is folded into the state.
pub open spec fn spec_calc_k(k: u32) -> u32 {
    ((k.wrapping_mul(MIX_C1) << 15) | (k.wrapping_mul(MIX_C1) >> 17)).wrapping_mul(MIX_C2)
}

/// One absorption round: fold a mixed word into the running state.
pub open spec fn spec_round(state: u32, k: u32) -> u32 {
    (((state ^ spec_calc_k(k)) << 13) | ((state ^ spec_calc_k(k)) >> 19))
        .wrapping_mul(5)
        .wrapping_add(ROUND_N)
}

/// The finalizer: xor in the processed byte count, then avalanche.
pub open spec fn spec_finish(state: u32, processed: u32) -> u32 {
    let h0 = state ^ processed;
    let h1 = (h0 ^ (h0 >> 16)).wrapping_mul(FINISH_C1);
    let h2 = (h1 ^ (h1 >> 13)).wrapping_mul(FINISH_C2);
    h2 ^ (h2 >> 16)
}

/// Reverse the four bytes of a 32-bit word.
pub open spec fn spec_bswap32(x: u32) -> u32 {
    ((x & 0xff) << 24) | ((x & 0xff00) << 8) | ((x & 0x00ff_0000) >> 8) | ((x >> 24) & 0xff)
}

/// The word read little-endian from the first four big-endian bytes of `s`.
pub open spec fn spec_word_hi(s: u64) -> u32 {
    spec_bswap32(((s >> 32) & 0xffff_ffff) as u32)
}

/// The word read little-endian from the last four big-endian bytes of `s`.
pub open spec fn spec_word_lo(s: u64) -> u32 {
    spec_bswap32((s & 0xffff_ffff) as u32)
}

/// Hash of the 16 big-endian bytes of `(s1, s2)`, seed 0.
pub open spec fn spec_murmur3_32_2(s1: u64, s2: u64) -> u32 {
    spec_finish(
        spec_round(
            spec_round(
                spec_round(spec_round(0u32, spec_word_hi(s1)), spec_word_lo(s1)),
                spec_word_hi(s2),
            ),
            spec_word_lo(s2),
        ),
        16,
    )
}

/// Hash of the 24 big-endian bytes of `(s1, s2, s3)`, seed 0.
pub open spec fn spec_murmur3_32_3(s1: u64, s2: u64, s3: u64) -> u32 {
    spec_finish(
        spec_round(
            spec_round(
                spec_round(
                    spec_round(
                        spec_round(spec_round(0u32, spec_word_hi(s1)), spec_word_lo(s1)),
                        spec_word_hi(s2),
                    ),
                    spec_word_lo(s2),
                ),
                spec_word_hi(s3),
            ),
            spec_word_lo(s3),
        ),
        24,
    )
}

/// Mix an input word.
pub fn calc_k(k: u32) -> (r: u32)
    ensures
        r == spec_calc_k(k),
{
    let a = k.wrapping_mul(MIX_C1);
    let rotated = (a << 15u32) | (a >> 17u32);
    rotated.wrapping_mul(MIX_C2)
}

/// Fold one mixed word into the state.
fn round(state: u32, k: u32) -> (r: u32)
    ensures
        r == spec_round(state, k),
{
    let x = state ^ calc_k(k);
    let rotated = (x << 13u32) | (x >> 19u32);
    rotated.wrapping_mul(5).wrapping_add(ROUND_N)
}

/// Finalize the state for the given number of processed bytes.
pub fn finish(state: u32, processed: u32) -> (r: u32)
    ensures
        r == spec_finish(state, processed),
{
    let mut hash = state;
    hash ^= processed;
    hash ^= hash >> 16u32;
    hash = hash.wrapping_mul(FINISH_C1);
    hash ^= hash >> 13u32;
    hash = hash.wrapping_mul(FINISH_C2);
    hash ^= hash >> 16u32;
    hash
}

/// The two words of `s`, in absorption order.
fn words_of(s: u64) -> (r: (u32, u32))
    ensures
        r.0 == spec_word_hi(s),
        r.1 == spec_word_lo(s),
{
    let hi64 = (s >> 32u64) & 0xffff_ffff;
    let lo64 = s & 0xffff_ffff;
    assert((s >> 32u64) & 0xffff_ffff <= 0xffff_ffffu64) by (bit_vector);
    assert(s & 0xffff_ffff <= 0xffff_ffffu64) by (bit_vector);
    (bswap32(hi64 as u32), bswap32(lo64 as u32))
}

/// Reverse the four bytes of a 32-bit word.
fn bswap32(x: u32) -> (r: u32)
    ensures
        r == spec_bswap32(x),
{
    ((x & 0xff) << 24u32) | ((x & 0xff00) << 8u32) | ((x & 0x00ff_0000) >> 8u32)
        | ((x >> 24u32) & 0xff)
}

/// Hash two 64-bit values together with the MurmurHash3 algorithm.
pub fn murmur3_32_2(s1: u64, s2: u64) -> (r: u32)
    ensures
        r == spec_murmur3_32_2(s1, s2),
{
    let w1 = words_of(s1);
    let w2 = words_of(s2);
    let mut state = 0u32;
    state = round(state, w1.0);
    state = round(state, w1.1);
    state = round(state, w2.0);
    state = round(state, w2.1);
    finish(state, 16)
}

/// Hash three 64-bit values together with the MurmurHash3 algorithm.
pub fn murmur3_32_3(s1: u64, s2: u64, s3: u64) -> (r: u32)
    ensures
        r == spec_murmur3_32_3(s1, s2, s3),
{
    let w1 = words_of(s1);
    let w2 = words_of(s2);
    let w3 = words_of(s3);
    let mut state = 0u32;
    state = round(state, w1.0);
    state = round(state, w1.1);
    state = round(state, w2.0);
    state = round(state, w2.1);
    state = round(state, w3.0);
    state = round(state, w3.1);
    finish(state, 24)
}

} // verus!
