//! Integer hashing that drives the procedural noise functions.
//!
//! The noise generators place gradients and feature points on an integer
//! lattice; every lattice cell gets its pseudo-random bits from `hash`.

use vstd::prelude::*;

verus! {

/// Multiplication modulo 2^32, as the hardware does it.
pub open spec fn mul_mod_word(a: u32, b: u32) -> u32 {
    ((a as nat * b as nat) % 0x1_0000_0000) as u32
}

/// The hash of lattice point `(x, y)` under `seed`: the seed is mixed with the
/// two's-complement bits of `x`, multiplied by the first mixing constant,
/// mixed with the bits of `y`, multiplied by the second constant, and finally
/// folded with its own upper half.
pub open spec fn spec_hash(x: i32, y: i32, seed: u32) -> u32 {
    let h1 = mul_mod_word(seed ^ (x as u32), 0x85ebca6b);
    let h2 = mul_mod_word(h1 ^ (y as u32), 0xc2b2ae35);
    h2 ^ (h2 >> 16u32)
}

/// Hash of lattice point `(x, y)` with the given seed.
pub fn hash(x: i32, y: i32, seed: u32) -> (h: u32)
    ensures
        h == spec_hash(x, y, seed),
{
    let mut h = seed;
    h ^= x as u32;
    h = h.wrapping_mul(0x85ebca6b);
    h ^= y as u32;
    h = h.wrapping_mul(0xc2b2ae35);
    h ^= h >> 16;
    h
}

/// Which of the eight gradient directions of Perlin noise a hash selects:
/// its three low bits.
pub fn gradient_index(h: u32) -> (i: usize)
    ensures
        i == h % 8,
        i < 8,
{
    assert(h & 7 == h % 8) by (bit_vector);
    (h & 7) as usize
}

/// The 24 low bits of a hash, which are scaled by `1 / 0xFFFFFF` into a
/// value between 0 and 1 to place a feature point inside its cell.
pub fn hash_mantissa(h: u32) -> (m: u32)
    ensures
        m == h % 0x100_0000,
        m <= 0xFF_FFFF,
{
    assert(h & 0xFF_FFFF == h % 0x100_0000) by (bit_vector);
    h & 0xFF_FFFF
}

} // verus!
