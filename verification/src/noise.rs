use vstd::prelude::*;
use crate::seed::mul_mod64;

verus! {

/// Multiplier that spreads the x lattice coordinate over the hash.
pub const HASH_X_MULTIPLIER: u64 = 0x9e37_79b9_7f4a_7c15;

/// Multiplier that spreads the z lattice coordinate over the hash.
pub const HASH_Z_MULTIPLIER: u64 = 0xc2b2_ae35_1677_f3a9;

/// First multiplier of the finalizer.
pub const FINALIZE_MULTIPLIER_1: u64 = 0x0bf5_8476_d1ca_e559;

/// Second multiplier of the finalizer.
pub const FINALIZE_MULTIPLIER_2: u64 = 0x94d0_49bb_1331_1172;

/// The splitmix64-style finalizer: xor-shift, multiply, xor-shift, multiply, xor-shift.
pub open spec fn finalize(h: u64) -> u64 {
    let h1 = h ^ (h >> 30u64);
    let h2 = mul_mod64(h1, FINALIZE_MULTIPLIER_1);
    let h3 = h2 ^ (h2 >> 27u64);
    let h4 = mul_mod64(h3, FINALIZE_MULTIPLIER_2);
    h4 ^ (h4 >> 31u64)
}

/// The lattice hash of `(x, z)` under `seed`: each coordinate, read as the
/// 64-bit word of the same bits, is multiplied by its own constant and xored
/// into the seed, and the result is finalized.
pub open spec fn lattice_hash(seed: u64, x: i64, z: i64) -> u64 {
    let h = seed ^ mul_mod64(x as u64, HASH_X_MULTIPLIER) ^ mul_mod64(z as u64, HASH_Z_MULTIPLIER);
    finalize(h)
}

/// Integer hash of a lattice point for deterministic pseudo-random values
/// (splitmix64 variant).
pub fn hash2(seed: u64, x: i64, z: i64) -> (h: u64)
    ensures
        h == lattice_hash(seed, x, z),
{
    let mut h = seed;
    h = h ^ (x as u64).wrapping_mul(HASH_X_MULTIPLIER);
    h = h ^ (z as u64).wrapping_mul(HASH_Z_MULTIPLIER);
    h = h ^ (h >> 30u64);
    h = h.wrapping_mul(FINALIZE_MULTIPLIER_1);
    h = h ^ (h >> 27u64);
    h = h.wrapping_mul(FINALIZE_MULTIPLIER_2);
    h = h ^ (h >> 31u64);
    h
}

/// The seed and the lattice point meet only through one xor, before any
/// mixing: hashing `(x, z)` under `seed` is hashing the origin under the seed
/// xored with `x * 0x9e3779b97f4a7c15` and `z * 0xc2b2ae351677f3a9` (each
/// product mod 2^64, the coordinates read as 64-bit words). At the origin the
/// seed goes through the splitmix64-style finalizer: xor with itself shifted
/// right by 30, times 0x0bf58476d1cae559, xor with itself shifted right by
/// 27, times 0x94d049bb13311172, xor with itself shifted right by 31 (each
/// product mod 2^64).
pub proof fn lemma_hash_combines_then_mixes(seed: u64, x: i64, z: i64)
    ensures
        lattice_hash(seed, x, z) == lattice_hash(
            seed ^ (((x as u64) as nat * 0x9e37_79b9_7f4a_7c15nat) % 0x1_0000_0000_0000_0000nat) as u64
                ^ (((z as u64) as nat * 0xc2b2_ae35_1677_f3a9nat) % 0x1_0000_0000_0000_0000nat) as u64,
            0,
            0,
        ),
        lattice_hash(seed, 0, 0) == ({
            let h1 = seed ^ (seed >> 30u64);
            let h2 = ((h1 as nat * 0x0bf5_8476_d1ca_e559nat) % 0x1_0000_0000_0000_0000nat) as u64;
            let h3 = h2 ^ (h2 >> 27u64);
            let h4 = ((h3 as nat * 0x94d0_49bb_1331_1172nat) % 0x1_0000_0000_0000_0000nat) as u64;
            h4 ^ (h4 >> 31u64)
        }),
{
    let a = mul_mod64(x as u64, HASH_X_MULTIPLIER);
    let b = mul_mod64(z as u64, HASH_Z_MULTIPLIER);
    assert(mul_mod64(0i64 as u64, HASH_X_MULTIPLIER) == 0);
    assert(mul_mod64(0i64 as u64, HASH_Z_MULTIPLIER) == 0);
    let t = seed ^ a ^ b;
    assert(t ^ 0u64 ^ 0u64 == t) by (bit_vector);
    assert(seed ^ 0u64 ^ 0u64 == seed) by (bit_vector);
}

} // verus!
