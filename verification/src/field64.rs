//! Arithmetic in the prime field F_K with K = 2^64 - 45 * 2^32 + 1, the
//! 64-bit field over which constraint polynomials are composed.
//!
//! A canonical element is a `u64` strictly below [`K`]. Multiplication is
//! carried out exactly in `u128` and then reduced.

use vstd::prelude::*;
use vstd::arithmetic::div_mod::lemma_mod_add_multiples_vanish;
use vstd::arithmetic::div_mod::lemma_small_mod;

verus! {

/// The field modulus: 2^64 - 45 * 2^32 + 1 (prime).
pub const K: u64 = 18446743880436023297;

/// A value is a canonical field element when it is reduced modulo `K`.
pub open spec fn in_field(a: u64) -> bool {
    a < K
}

/// Field addition as integer arithmetic.
pub open spec fn fadd(a: int, b: int) -> int {
    (a + b) % (K as int)
}

/// Field subtraction as integer arithmetic.
pub open spec fn fsub(a: int, b: int) -> int {
    (a - b) % (K as int)
}

/// Field multiplication as integer arithmetic.
pub open spec fn fmul(a: int, b: int) -> int {
    (a * b) % (K as int)
}

/// Field exponentiation as integer arithmetic.
pub open spec fn fexp(b: int, e: nat) -> int {
    vstd::arithmetic::power::pow(b, e) % (K as int)
}

/// Adds two field elements.
pub fn add(a: u64, b: u64) -> (r: u64)
    requires
        a < K,
        b < K,
    ensures
        r < K,
        r == fadd(a as int, b as int),
{
    if a >= K - b {
        let r = a - (K - b);
        proof {
            lemma_mod_add_multiples_vanish(a + b - K, K as int);
            lemma_small_mod((a + b - K) as nat, K as nat);
        }
        r
    } else {
        proof {
            lemma_small_mod((a + b) as nat, K as nat);
        }
        a + b
    }
}

/// Subtracts one field element from another.
pub fn sub(a: u64, b: u64) -> (r: u64)
    requires
        a < K,
        b < K,
    ensures
        r < K,
        r == fsub(a as int, b as int),
{
    if a >= b {
        proof {
            lemma_small_mod((a - b) as nat, K as nat);
        }
        a - b
    } else {
        let r = a + (K - b);
        proof {
            lemma_mod_add_multiples_vanish(a - b, K as int);
            lemma_small_mod((a + K - b) as nat, K as nat);
        }
        r
    }
}

/// Multiplies two field elements, widening to `u128` for the product.
pub fn mul(a: u64, b: u64) -> (r: u64)
    requires
        a < K,
        b < K,
    ensures
        r < K,
        r == fmul(a as int, b as int),
{
    proof {
        assert((a as int) * (b as int) < 0x100000000000000000000000000000000int) by (nonlinear_arith)
            requires (a as int) < 0x10000000000000000int && 0 <= (b as int) < 0x10000000000000000int;
    }
    let wide = (a as u128) * (b as u128);
    let reduced = wide % (K as u128);
    reduced as u64
}

} // verus!
