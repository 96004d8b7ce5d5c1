//! Arithmetic in the prime field F_M with M = 2^128 - 45 * 2^40 + 1.
//!
//! A canonical field element is a `u128` strictly below [`M`]. Every
//! executable operation takes canonical elements and returns a canonical
//! element; the ensures clauses state the result as integer arithmetic
//! modulo `M`.

use vstd::prelude::*;
use vstd::arithmetic::div_mod::lemma_add_mod_noop;
use vstd::arithmetic::div_mod::lemma_add_mod_noop_right;
use vstd::arithmetic::div_mod::lemma_mod_add_multiples_vanish;
use vstd::arithmetic::div_mod::lemma_mod_self_0;
use vstd::arithmetic::div_mod::lemma_mod_twice;
use vstd::arithmetic::div_mod::lemma_mul_mod_noop_right;
use vstd::arithmetic::div_mod::lemma_mul_mod_noop_left;
use vstd::arithmetic::div_mod::lemma_small_mod;
use vstd::arithmetic::power::lemma_pow0;
use vstd::arithmetic::power::lemma_pow1;
use vstd::arithmetic::power::lemma_pow_adds;
use vstd::arithmetic::power::lemma_pow_mod_noop;
use vstd::arithmetic::power::lemma_pow_multiplies;
use vstd::arithmetic::power::pow;

verus! {

/// The field modulus: 2^128 - 45 * 2^40 + 1 (prime).
pub const M: u128 = 340282366920938463463374557953744961537;

/// The additive identity of the field.
pub const ZERO: u128 = 0;

/// The multiplicative identity of the field.
pub const ONE: u128 = 1;

/// A value is a canonical field element when it is reduced modulo `M`.
pub open spec fn in_field(a: u128) -> bool {
    a < M
}

/// Field addition as integer arithmetic.
pub open spec fn fadd(a: int, b: int) -> int {
    (a + b) % (M as int)
}

/// Field subtraction as integer arithmetic.
pub open spec fn fsub(a: int, b: int) -> int {
    (a - b) % (M as int)
}

/// Field multiplication as integer arithmetic.
pub open spec fn fmul(a: int, b: int) -> int {
    (a * b) % (M as int)
}

/// Field negation as integer arithmetic.
pub open spec fn fneg(a: int) -> int {
    (0 - a) % (M as int)
}

/// Field exponentiation as integer arithmetic.
pub open spec fn fexp(b: int, e: nat) -> int {
    pow(b, e) % (M as int)
}

/// The value the field inversion routine computes: b^(M-2) mod M.
pub open spec fn finv(b: int) -> int {
    fexp(b, (M - 2) as nat)
}

/// Every reduction modulo `M` lands in the canonical range.
pub proof fn lemma_mod_in_field(x: int)
    ensures
        0 <= x % (M as int) < M,
{
    vstd::arithmetic::div_mod::lemma_mod_division_less_than_divisor(x, M as int);
}

/// A field subtraction of canonical elements is zero exactly when they are
/// equal.
pub proof fn lemma_fsub_eq_zero(a: u128, b: u128)
    requires
        a < M,
        b < M,
    ensures
        fsub(a as int, b as int) == 0 <==> a == b,
{
    if a >= b {
        lemma_small_mod((a - b) as nat, M as nat);
    } else {
        lemma_mod_add_multiples_vanish(a - b, M as int);
        lemma_small_mod((a + M - b) as nat, M as nat);
    }
}

/// Adds two field elements.
pub fn add(a: u128, b: u128) -> (r: u128)
    requires
        a < M,
        b < M,
    ensures
        r < M,
        r == fadd(a as int, b as int),
{
    if a >= M - b {
        let r = a - (M - b);
        proof {
            lemma_mod_add_multiples_vanish(a + b - M, M as int);
            lemma_small_mod((a + b - M) as nat, M as nat);
        }
        r
    } else {
        proof {
            lemma_small_mod((a + b) as nat, M as nat);
        }
        a + b
    }
}

/// Subtracts one field element from another.
pub fn sub(a: u128, b: u128) -> (r: u128)
    requires
        a < M,
        b < M,
    ensures
        r < M,
        r == fsub(a as int, b as int),
{
    if a >= b {
        proof {
            lemma_small_mod((a - b) as nat, M as nat);
        }
        a - b
    } else {
        let r = a + (M - b);
        proof {
            lemma_mod_add_multiples_vanish(a - b, M as int);
            lemma_small_mod((a + M - b) as nat, M as nat);
        }
        r
    }
}

/// Negates a field element.
pub fn neg(a: u128) -> (r: u128)
    requires
        a < M,
    ensures
        r < M,
        r == fneg(a as int),
{
    if a == 0 {
        proof {
            lemma_mod_self_0(M as int);
        }
        0
    } else {
        proof {
            lemma_mod_add_multiples_vanish(0 - a, M as int);
            lemma_small_mod((M - a) as nat, M as nat);
        }
        M - a
    }
}

/// Multiplies two field elements by modular double-and-add.
pub fn mul(a: u128, b: u128) -> (r: u128)
    requires
        a < M,
        b < M,
    ensures
        r < M,
        r == fmul(a as int, b as int),
{
    let mut result: u128 = 0;
    let mut x: u128 = a;
    let mut e: u128 = b;
    while e > 0
        invariant
            result < M,
            x < M,
            (result + x * e) % (M as int) == fmul(a as int, b as int),
        decreases e,
    {
        let ghost result0 = result as int;
        let ghost x0 = x as int;
        let ghost e0 = e as int;
        let ghost c = e0 % 2;
        let ghost e1 = e0 / 2;
        let ghost m = M as int;
        if e % 2 == 1 {
            result = crate::field::add(result, x);
        }
        x = crate::field::add(x, x);
        e = e / 2;
        proof {
            assert(result == (result0 + c * x0) % m) by {
                if c == 0 {
                    lemma_small_mod(result0 as nat, M as nat);
                }
            }
            assert(x == (2 * x0) % m);
            // peel the reductions of result and x off, then recombine the terms
            lemma_add_mod_noop_right((result0 + c * x0) % m, ((2 * x0) % m) * e1, m);
            lemma_mul_mod_noop_left(2 * x0, e1, m);
            lemma_add_mod_noop(result0 + c * x0, 2 * x0 * e1, m);
            assert(result0 + c * x0 + 2 * x0 * e1 == result0 + x0 * e0) by (nonlinear_arith)
                requires c == e0 % 2 && e1 == e0 / 2 && e0 >= 0;
            assert((result + x * e) % m == (result0 + x0 * e0) % m);
        }
    }
    proof {
        lemma_small_mod(result as nat, M as nat);
    }
    result
}

/// Raises a field element to an arbitrary power by square-and-multiply.
pub fn exp(b: u128, e: u128) -> (r: u128)
    requires
        b < M,
    ensures
        r < M,
        r == fexp(b as int, e as nat),
{
    let mut result: u128 = 1;
    let mut x: u128 = b;
    let mut e_rem: u128 = e;
    proof {
        lemma_pow0(b as int);
    }
    while e_rem > 0
        invariant
            result < M,
            x < M,
            (result * pow(x as int, e_rem as nat)) % (M as int) == fexp(b as int, e as nat),
        decreases e_rem,
    {
        let ghost result0 = result as int;
        let ghost x0 = x as int;
        let ghost e0 = e_rem as nat;
        let ghost c = (e0 % 2) as nat;
        let ghost e1 = (e0 / 2) as nat;
        let ghost m = M as int;
        if e_rem % 2 == 1 {
            result = crate::field::mul(result, x);
        }
        x = crate::field::mul(x, x);
        e_rem = e_rem / 2;
        proof {
            assert(result == (result0 * pow(x0, c)) % m) by {
                if c == 1 {
                    lemma_pow1(x0);
                } else {
                    lemma_pow0(x0);
                    lemma_small_mod(result0 as nat, M as nat);
                }
            }
            assert(x == (x0 * x0) % m);
            let ghost p_c = result0 * pow(x0, c);
            let ghost q = pow(x0 * x0, e1);
            // pow of the reduced square equals pow of the square, modulo m
            lemma_pow_mod_noop(x0 * x0, e1, m);
            assert(pow(x as int, e1) % m == q % m);
            // peel both reductions off the product
            assert((result * pow(x as int, e1)) % m == (p_c * q) % m) by {
                lemma_mul_mod_noop_left(p_c, pow(x as int, e1), m);
                lemma_mul_mod_noop_right(p_c, pow(x as int, e1), m);
                lemma_pow_mod_noop(x0 * x0, e1, m);
                lemma_mul_mod_noop_right(p_c, q, m);
            }
            // recombine the exponents: pow(x0, c) * pow(x0*x0, e1) == pow(x0, e0)
            assert(p_c * q == result0 * pow(x0, e0)) by {
                lemma_pow_multiplies(x0, 2, e1);
                assert(pow(x0, 2) == x0 * x0) by {
                    lemma_pow1(x0);
                    lemma_pow_adds(x0, 1, 1);
                }
                lemma_pow_adds(x0, c, 2 * e1);
                assert(c + 2 * e1 == e0);
                assert(result0 * pow(x0, c) * pow(x0, 2 * e1) == result0 * (pow(x0, c) * pow(x0, 2 * e1)))
                    by (nonlinear_arith);
            }
            assert((result * pow(x as int, e_rem as nat)) % m == fexp(b as int, e as nat));
        }
    }
    proof {
        lemma_pow0(x as int);
        lemma_small_mod(result as nat, M as nat);
    }
    result
}

/// Computes b^(M-2), the multiplicative inverse of a nonzero field element
/// by Fermat's little theorem; for b == 0 the result is 0.
///
/// The contract pins the result as that power. The inverse law itself,
/// b * b^(M-2) == 1 mod M for nonzero b, rests on the primality of M and is
/// not derived in this development; the tests exercise it on concrete
/// values.
pub fn inv(b: u128) -> (r: u128)
    requires
        b < M,
    ensures
        r < M,
        r == finv(b as int),
{
    crate::field::exp(b, M - 2)
}

} // verus!
