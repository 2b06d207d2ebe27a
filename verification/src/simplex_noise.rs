//! Gradient choice of the simplex noise: the integer mixing of a lattice
//! corner's hash with the seed.
use vstd::prelude::*;

verus! {

/// The mixed hash of a lattice corner: the corner's value xor both halves of
/// the seed, then an xor-shift by 13, a multiplication by `1274126177`
/// (wrapping) and an xor-shift by 16.
pub open spec fn mixed_hash(lattice: i32, seed: u64) -> i32 {
    let a = lattice ^ (seed as i32) ^ ((seed >> 32u64) as i32);
    let b = vstd::wrapping::i32_specs::wrapping_mul(a ^ (a >> 13i32), 1274126177i32);
    b ^ (b >> 16i32)
}

/// Offset of a gradient in the 36-entry gradient table (twelve gradients of
/// three components): the mixed hash, taken as unsigned, modulo 12, times 3.
pub open spec fn gradient_offset(lattice: i32, seed: u64) -> int {
    ((mixed_hash(lattice, seed) as u32) as int % 12) * 3
}

/// Gradient table offset for the corner whose hash is `lattice`.
pub fn funny_hash_mix(lattice: i32, seed: u64) -> (r: usize)
    ensures
        r == gradient_offset(lattice, seed),
        r % 3 == 0,
        r <= 33,
{
    let mut funny: i32 = lattice;
    funny ^= seed as i32;
    funny ^= (seed >> 32) as i32;
    funny = (funny ^ (funny >> 13)).wrapping_mul(1274126177);
    funny ^= funny >> 16;
    ((funny as u32 as usize) % 12) * 3
}

} // verus!
