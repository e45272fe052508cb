//! Deterministic per-particle randomness: a hash of the particle index and a
//! stream seed, so effects replay identically.

use vstd::prelude::*;

verus! {

/// The particle hash: two rounds of multiply-and-fold on the index and seed,
/// keeping the low 16 bits. The result is in `[0, 65535]`, to be read as a
/// fraction of 65535.
pub open spec fn spec_pseudo_random(index: u32, seed: u32) -> u32 {
    let n0 = index.wrapping_mul(1103515245).wrapping_add(seed.wrapping_mul(12345));
    let n1 = n0 ^ (n0 >> 16);
    let n2 = n1.wrapping_mul(2654435761);
    n2 & 0xFFFF
}

/// Deterministic pseudo-random value in `[0, 65535]` from a particle index
/// and a stream seed.
pub fn pseudo_random(index: u32, seed: u32) -> (r: u32)
    ensures
        r == spec_pseudo_random(index, seed),
        r <= 0xFFFF,
{
    let n0 = index.wrapping_mul(1103515245).wrapping_add(seed.wrapping_mul(12345));
    let n1 = n0 ^ (n0 >> 16);
    let n2 = n1.wrapping_mul(2654435761);
    let r = n2 & 0xFFFF;
    proof {
        assert(n2 & 0xFFFF <= 0xFFFF) by (bit_vector);
    }
    r
}

} // verus!
