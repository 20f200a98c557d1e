//! Deterministic, counter-based seeding for Monte Carlo and path simulation.
//!
//! Every independent unit of work (an antithetic path pair, indexed by `i`) gets
//! its own RNG stream seeded only from `(seed, i)`. [`path_seed`] derives that
//! per-index seed from the SplitMix64 finalizer [`splitmix64`].

use vstd::prelude::*;

verus! {

/// The SplitMix64 increment (the golden-ratio gamma).
pub const SPLITMIX_GAMMA: u64 = 0x9E37_79B9_7F4A_7C15;

/// First multiplier of the SplitMix64 finalizer.
pub const SPLITMIX_M1: u64 = 0xBF58_476D_1CE4_E5B9;

/// Second multiplier of the SplitMix64 finalizer.
pub const SPLITMIX_M2: u64 = 0x94D0_49BB_1331_11EB;

/// The SplitMix64 finalizer as a mathematical function on 64-bit words:
/// an increment followed by two xor-shift/multiply rounds and a final xor-shift,
/// all modulo 2^64.
pub open spec fn spec_splitmix64(z: u64) -> u64 {
    let x1 = vstd::wrapping::u64_specs::wrapping_add(z, SPLITMIX_GAMMA);
    let x2 = vstd::wrapping::u64_specs::wrapping_mul(x1 ^ (x1 >> 30u64), SPLITMIX_M1);
    let x3 = vstd::wrapping::u64_specs::wrapping_mul(x2 ^ (x2 >> 27u64), SPLITMIX_M2);
    x3 ^ (x3 >> 31u64)
}

/// The per-index seed: two SplitMix64 passes over `(seed, index)`.
pub open spec fn spec_path_seed(seed: u64, index: usize) -> u64 {
    spec_splitmix64(seed ^ spec_splitmix64(index as u64))
}

/// SplitMix64 — a fast, well-distributed 64-bit mixing finalizer
/// (Steele, Lea & Flood, "Fast Splittable Pseudorandom Number Generators").
pub fn splitmix64(z: u64) -> (res: u64)
    ensures
        res == spec_splitmix64(z),
{
    let mut x = z.wrapping_add(SPLITMIX_GAMMA);
    x = (x ^ (x >> 30u64)).wrapping_mul(SPLITMIX_M1);
    x = (x ^ (x >> 27u64)).wrapping_mul(SPLITMIX_M2);
    x ^ (x >> 31u64)
}

/// Derive an independent per-unit RNG seed from `(seed, index)`.
pub fn path_seed(seed: u64, index: usize) -> (res: u64)
    ensures
        res == spec_path_seed(seed, index),
{
    splitmix64(seed ^ splitmix64(index as u64))
}

proof fn lemma_xorshift30_injective(a: u64, b: u64)
    requires
        a ^ (a >> 30u64) == b ^ (b >> 30u64),
    ensures
        a == b,
{
    assert(a ^ (a >> 30u64) == b ^ (b >> 30u64) ==> a == b) by (bit_vector);
}

proof fn lemma_xorshift27_injective(a: u64, b: u64)
    requires
        a ^ (a >> 27u64) == b ^ (b >> 27u64),
    ensures
        a == b,
{
    assert(a ^ (a >> 27u64) == b ^ (b >> 27u64) ==> a == b) by (bit_vector);
}

proof fn lemma_xorshift31_injective(a: u64, b: u64)
    requires
        a ^ (a >> 31u64) == b ^ (b >> 31u64),
    ensures
        a == b,
{
    assert(a ^ (a >> 31u64) == b ^ (b >> 31u64) ==> a == b) by (bit_vector);
}

proof fn lemma_xor_injective(k: u64, a: u64, b: u64)
    requires
        k ^ a == k ^ b,
    ensures
        a == b,
{
    assert(k ^ a == k ^ b ==> a == b) by (bit_vector);
}

/// Multiplying by an odd constant `c` modulo 2^64 is undone by multiplying by
/// its inverse `c_inv` (`c * c_inv == 1 + k * 2^64`).
proof fn lemma_mul_mod_inverse(a: u64, c: u64, c_inv: u64, k: nat)
    requires
        c as nat * c_inv as nat == 1 + k * 0x1_0000_0000_0000_0000nat,
    ensures
        vstd::wrapping::u64_specs::wrapping_mul(vstd::wrapping::u64_specs::wrapping_mul(a, c), c_inv) == a,
{
    let m: int = 0x1_0000_0000_0000_0000int;
    let ac = (a as nat * c as nat) % (m as nat);
    vstd::arithmetic::div_mod::lemma_mul_mod_noop_left((a as nat * c as nat) as int, c_inv as int, m);
    assert((ac * c_inv as nat) % (m as nat) == ((a as nat * c as nat) * c_inv as nat) % (m as nat));
    vstd::arithmetic::mul::lemma_mul_is_associative(a as int, c as int, c_inv as int);
    assert((a as int * c as int) * c_inv as int == a as int * (c as int * c_inv as int));
    vstd::arithmetic::mul::lemma_mul_is_distributive_add(a as int, 1, k as int * m);
    vstd::arithmetic::mul::lemma_mul_is_associative(a as int, k as int, m);
    assert(a as int * (1 + k as int * m) == a as int + (a as int * k as int) * m);
    vstd::arithmetic::div_mod::lemma_mod_multiples_vanish(a as int * k as int, a as int, m);
    vstd::arithmetic::div_mod::lemma_small_mod(a as nat, m as nat);
}

proof fn lemma_mul_m1_injective(a: u64, b: u64)
    requires
        vstd::wrapping::u64_specs::wrapping_mul(a, SPLITMIX_M1) == vstd::wrapping::u64_specs::wrapping_mul(b, SPLITMIX_M1),
    ensures
        a == b,
{
    let inv: u64 = 0x96de_1b17_3f11_9089;
    assert(SPLITMIX_M1 as nat * inv as nat == 1 + 8125545580553827436nat * 0x1_0000_0000_0000_0000nat);
    lemma_mul_mod_inverse(a, SPLITMIX_M1, inv, 8125545580553827436nat);
    lemma_mul_mod_inverse(b, SPLITMIX_M1, inv, 8125545580553827436nat);
}

proof fn lemma_mul_m2_injective(a: u64, b: u64)
    requires
        vstd::wrapping::u64_specs::wrapping_mul(a, SPLITMIX_M2) == vstd::wrapping::u64_specs::wrapping_mul(b, SPLITMIX_M2),
    ensures
        a == b,
{
    let inv: u64 = 0x3196_42b2_d24d_8ec3;
    assert(SPLITMIX_M2 as nat * inv as nat == 1 + 2077064247507883091nat * 0x1_0000_0000_0000_0000nat);
    lemma_mul_mod_inverse(a, SPLITMIX_M2, inv, 2077064247507883091nat);
    lemma_mul_mod_inverse(b, SPLITMIX_M2, inv, 2077064247507883091nat);
}

/// SplitMix64 is a bijection on 64-bit words: distinct inputs give distinct
/// outputs, so no two seeds it decorrelates can collide.
pub proof fn lemma_splitmix64_injective(a: u64, b: u64)
    requires
        a != b,
    ensures
        spec_splitmix64(a) != spec_splitmix64(b),
{
    let a1 = vstd::wrapping::u64_specs::wrapping_add(a, SPLITMIX_GAMMA);
    let b1 = vstd::wrapping::u64_specs::wrapping_add(b, SPLITMIX_GAMMA);
    let a2 = vstd::wrapping::u64_specs::wrapping_mul(a1 ^ (a1 >> 30u64), SPLITMIX_M1);
    let b2 = vstd::wrapping::u64_specs::wrapping_mul(b1 ^ (b1 >> 30u64), SPLITMIX_M1);
    let a3 = vstd::wrapping::u64_specs::wrapping_mul(a2 ^ (a2 >> 27u64), SPLITMIX_M2);
    let b3 = vstd::wrapping::u64_specs::wrapping_mul(b2 ^ (b2 >> 27u64), SPLITMIX_M2);
    assert(a1 != b1);
    if spec_splitmix64(a) == spec_splitmix64(b) {
        lemma_xorshift31_injective(a3, b3);
        lemma_mul_m2_injective(a2 ^ (a2 >> 27u64), b2 ^ (b2 >> 27u64));
        lemma_xorshift27_injective(a2, b2);
        lemma_mul_m1_injective(a1 ^ (a1 >> 30u64), b1 ^ (b1 >> 30u64));
        lemma_xorshift30_injective(a1, b1);
    }
}

/// Sequential (indeed, any two distinct) indices get distinct seeds from the
/// same base seed: the per-path RNG streams never share a seed.
pub proof fn lemma_path_seed_distinct_indices(seed: u64, i: usize, j: usize)
    requires
        i != j,
    ensures
        spec_path_seed(seed, i) != spec_path_seed(seed, j),
{
    assert(i as u64 != j as u64);
    lemma_splitmix64_injective(i as u64, j as u64);
    if spec_path_seed(seed, i) == spec_path_seed(seed, j) {
        if seed ^ spec_splitmix64(i as u64) != seed ^ spec_splitmix64(j as u64) {
            lemma_splitmix64_injective(seed ^ spec_splitmix64(i as u64), seed ^ spec_splitmix64(j as u64));
        }
        lemma_xor_injective(seed, spec_splitmix64(i as u64), spec_splitmix64(j as u64));
    }
}

/// Distinct base seeds give distinct per-index seeds for the same index.
pub proof fn lemma_path_seed_distinct_seeds(s: u64, t: u64, index: usize)
    requires
        s != t,
    ensures
        spec_path_seed(s, index) != spec_path_seed(t, index),
{
    let h = spec_splitmix64(index as u64);
    if s ^ h == t ^ h {
        assert(s ^ h == t ^ h ==> s == t) by (bit_vector);
    }
    lemma_splitmix64_injective(s ^ h, t ^ h);
}

}
