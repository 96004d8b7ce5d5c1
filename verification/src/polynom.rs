//! Dense polynomials over the 64-bit field: evaluation, degree, in-place
//! synthetic division by a linear factor, and multiply-accumulate of a
//! scaled polynomial into a result buffer.
//!
//! A polynomial is a coefficient vector in ascending order of powers.

use vstd::prelude::*;
use crate::field64;
use crate::field64::fadd;
use crate::field64::fmul;
use crate::field64::fsub;
use vstd::arithmetic::div_mod::lemma_mul_mod_noop_right;
use vstd::arithmetic::div_mod::lemma_small_mod;
use vstd::arithmetic::div_mod::lemma_sub_mod_noop;
use vstd::arithmetic::div_mod::lemma_add_mod_noop;

verus! {

/// Horner evaluation of the coefficient suffix starting at index `i`:
/// p[i] + x * (p[i+1] + x * (...)).
pub open spec fn eval_suffix(p: Seq<u64>, x: int, i: int) -> int
    decreases p.len() - i,
{
    if i < 0 || i >= p.len() {
        0
    } else {
        fadd(p[i] as int, fmul(x, eval_suffix(p, x, i + 1)))
    }
}

/// The value of the polynomial `p` at the point `x`.
pub open spec fn poly_eval(p: Seq<u64>, x: int) -> int {
    eval_suffix(p, x, 0)
}

/// Coefficient `i` of the synthetic quotient of `p` by `(x - z)`:
/// q[i] = p[i+1] + z * q[i+1], with q vanishing above the top coefficient.
pub open spec fn syn_q(p: Seq<u64>, z: int, i: int) -> int
    decreases p.len() - i,
{
    if i >= p.len() - 1 {
        0
    } else {
        fadd(p[i + 1] as int, fmul(z, syn_q(p, z, i + 1)))
    }
}

/// The whole synthetic quotient of `p` by `(x - z)` as a coefficient vector.
pub open spec fn quotient_coeffs(p: Seq<u64>, z: int) -> Seq<u64> {
    Seq::new(p.len(), |i: int| syn_q(p, z, i) as u64)
}

/// Coefficient vector of q * (x - z) with the constant `c` added to the
/// zeroth coefficient.
pub open spec fn times_x_minus_z_plus(q: Seq<u64>, z: int, c: int) -> Seq<u64> {
    Seq::new(
        q.len(),
        |i: int|
            if i == 0 {
                fadd(fsub(0, fmul(z, q[0] as int)), c) as u64
            } else {
                fsub(q[i - 1] as int, fmul(z, q[i] as int)) as u64
            },
    )
}

/// The degree of `p`: the index of its highest nonzero coefficient.
pub open spec fn poly_degree(p: Seq<u64>) -> nat
    decreases p.len(),
{
    if p.len() == 0 {
        0
    } else if p[p.len() - 1] != 0 {
        (p.len() - 1) as nat
    } else {
        poly_degree(p.drop_last())
    }
}

/// The synthetic carry below index 0 is exactly the Horner evaluation of the
/// suffix: carrying the division one step past coefficient `i + 1` evaluates
/// the polynomial tail at `z`.
pub proof fn lemma_syn_q_is_eval(p: Seq<u64>, z: int, i: int)
    requires
        i >= -1,
    ensures
        syn_q(p, z, i) == eval_suffix(p, z, i + 1),
    decreases p.len() - i,
{
    if i >= p.len() - 1 {
    } else {
        lemma_syn_q_is_eval(p, z, i + 1);
    }
}

/// Horner evaluation of a suffix only depends on the coefficients of that
/// suffix.
pub proof fn lemma_eval_suffix_agree(p: Seq<u64>, q: Seq<u64>, x: int, i: int)
    requires
        p.len() == q.len(),
        forall|j: int| i <= j < p.len() ==> p[j] == q[j],
    ensures
        eval_suffix(p, x, i) == eval_suffix(q, x, i),
    decreases p.len() - i,
{
    if i < 0 || i >= p.len() {
    } else {
        lemma_eval_suffix_agree(p, q, x, i + 1);
    }
}

/// Evaluates the polynomial at a point by Horner's rule.
pub fn eval(p: &Vec<u64>, x: u64) -> (r: u64)
    requires
        forall|i: int| 0 <= i < p@.len() ==> p@[i] < field64::K,
        x < field64::K,
    ensures
        r < field64::K,
        r == poly_eval(p@, x as int),
{
    let mut acc: u64 = 0;
    let mut i: usize = p.len();
    while i > 0
        invariant
            i <= p@.len(),
            forall|j: int| 0 <= j < p@.len() ==> p@[j] < field64::K,
            x < field64::K,
            acc < field64::K,
            acc == eval_suffix(p@, x as int, i as int),
        decreases i,
    {
        i = i - 1;
        acc = field64::add(p[i], field64::mul(x, acc));
        proof {
            lemma_small_mod(acc as nat, field64::K as nat);
        }
    }
    if p.len() == 0 {
        proof {
            lemma_small_mod(0nat, field64::K as nat);
        }
    }
    acc
}

/// Returns the index of the highest nonzero coefficient (0 for the zero
/// polynomial).
pub fn degree_of(p: &Vec<u64>) -> (r: usize)
    ensures
        r == poly_degree(p@),
{
    let mut i: usize = p.len();
    proof {
        assert(p@.take(i as int) =~= p@);
    }
    while i > 0
        invariant
            i <= p@.len(),
            poly_degree(p@) == poly_degree(p@.take(i as int)),
        decreases i,
    {
        if p[i - 1] != 0 {
            proof {
                assert(p@.take(i as int)[i - 1] == p@[i - 1]);
            }
            return i - 1;
        }
        proof {
            assert(p@.take(i as int).drop_last() =~= p@.take(i as int - 1));
            assert(p@.take(i as int)[i - 1] == p@[i - 1]);
        }
        i = i - 1;
    }
    proof {
        assert(p@.take(0) =~= Seq::<u64>::empty());
    }
    0
}

/// Divides the polynomial in place by `(x - z)`, dropping the remainder:
/// afterwards slot `i` holds quotient coefficient `i` and the top slot is
/// zero. The remainder it drops equals the polynomial's value at `z`.
pub fn syn_div_in_place(p: &mut Vec<u64>, z: u64)
    requires
        forall|i: int| 0 <= i < old(p)@.len() ==> old(p)@[i] < field64::K,
        z < field64::K,
    ensures
        final(p)@.len() == old(p)@.len(),
        forall|i: int| 0 <= i < old(p)@.len() ==> final(p)@[i] == syn_q(old(p)@, z as int, i),
{
    let ghost p0 = p@;
    let mut c: u64 = 0;
    let mut i: usize = p.len();
    while i > 0
        invariant
            i <= p0.len(),
            p@.len() == p0.len(),
            z < field64::K,
            c < field64::K,
            forall|j: int| 0 <= j < i ==> p@[j] == p0[j],
            forall|j: int| 0 <= j < p0.len() ==> p0[j] < field64::K,
            forall|j: int| i <= j < p0.len() ==> p@[j] == syn_q(p0, z as int, j),
            c == syn_q(p0, z as int, i as int - 1),
        decreases i,
    {
        i = i - 1;
        proof {
            assert(p@[i as int] == p0[i as int]);
        }
        let temp = field64::add(p[i], field64::mul(z, c));
        p[i] = c;
        c = temp;
    }
}

/// Adds `p[i] * c` to `result[i]` for every coefficient, leaving any
/// cells of `result` beyond the polynomial untouched.
pub fn mul_acc(result: &mut Vec<u64>, p: &Vec<u64>, c: u64)
    requires
        old(result)@.len() >= p@.len(),
        forall|i: int| 0 <= i < p@.len() ==> old(result)@[i] < field64::K,
        forall|i: int| 0 <= i < p@.len() ==> p@[i] < field64::K,
        c < field64::K,
    ensures
        final(result)@.len() == old(result)@.len(),
        forall|i: int| 0 <= i < p@.len() ==> final(result)@[i] == fadd(
            old(result)@[i] as int,
            fmul(p@[i] as int, c as int),
        ),
        forall|i: int|
            p@.len() <= i < old(result)@.len() ==> final(result)@[i] == old(result)@[i],
{
    let ghost r0 = result@;
    let mut i: usize = 0;
    while i < p.len()
        invariant
            i <= p@.len(),
            result@.len() == r0.len(),
            r0.len() >= p@.len(),
            c < field64::K,
            forall|j: int| 0 <= j < p@.len() ==> r0[j] < field64::K,
            forall|j: int| 0 <= j < p@.len() ==> p@[j] < field64::K,
            forall|j: int| i <= j < r0.len() ==> result@[j] == r0[j],
            forall|j: int| 0 <= j < i ==> result@[j] == fadd(r0[j] as int, fmul(p@[j] as int, c as int)),
        decreases p@.len() - i,
    {
        proof {
            assert(result@[i as int] == r0[i as int]);
        }
        let t = field64::mul(p[i], c);
        let s = field64::add(result[i], t);
        result[i] = s;
        i = i + 1;
    }
}

/// Synthetic-division round trip: subtracting `p(z)` from the constant term,
/// dividing by `(x - z)`, multiplying back by `(x - z)` and re-adding `p(z)`
/// restores the original coefficients exactly.
/// Adding a canonical value and then subtracting it is the identity on
/// canonical field elements.
proof fn lemma_add_then_sub(a: int, w: int)
    requires
        0 <= a < field64::K,
        0 <= w < field64::K,
    ensures
        fsub(fadd(a, w), w) == a,
{
    let m = field64::K as int;
    lemma_sub_mod_noop(a + w, w, m);
    lemma_small_mod(w as nat, m as nat);
    lemma_small_mod(a as nat, m as nat);
}

/// If two canonical values sum to zero in the field, each is the negation of
/// the other.
proof fn lemma_complement(a: int, w: int)
    requires
        0 <= a < field64::K,
        0 <= w < field64::K,
        fadd(a, w) == 0,
    ensures
        fsub(0, w) == a,
{
    let m = field64::K as int;
    if a + w < m {
        lemma_small_mod((a + w) as nat, m as nat);
        assert(a == 0 && w == 0);
        lemma_small_mod(0nat, m as nat);
    } else {
        vstd::arithmetic::div_mod::lemma_mod_add_multiples_vanish(a + w - m, m);
        lemma_small_mod((a + w - m) as nat, m as nat);
        assert(a + w == m);
        vstd::arithmetic::div_mod::lemma_mod_add_multiples_vanish(0 - w, m);
        lemma_small_mod((m - w) as nat, m as nat);
    }
}

/// Subtracting a canonical value and then adding it back is the identity on
/// canonical field elements.
proof fn lemma_sub_then_add(a: int, c: int)
    requires
        0 <= a < field64::K,
        0 <= c < field64::K,
    ensures
        fadd(fsub(a, c), c) == a,
{
    let m = field64::K as int;
    lemma_add_mod_noop(a - c, c, m);
    lemma_small_mod(c as nat, m as nat);
    lemma_small_mod(a as nat, m as nat);
}

/// Subtracting a polynomial's value at `z` from its constant term makes the
/// polynomial vanish at `z`.
proof fn lemma_adjusted_vanishes(p: Seq<u64>, z: u64)
    requires
        p.len() >= 1,
        forall|i: int| 0 <= i < p.len() ==> p[i] < field64::K,
        z < field64::K,
    ensures
        ({
            let pz = poly_eval(p, z as int);
            let adjusted = p.update(0, fsub(p[0] as int, pz) as u64);
            poly_eval(adjusted, z as int) == 0
        }),
{
    let m = field64::K as int;
    let pz = poly_eval(p, z as int);
    let adjusted = p.update(0, fsub(p[0] as int, pz) as u64);
    lemma_eval_suffix_in_field(p, z as int, 0);
    lemma_eval_suffix_in_field(p, z as int, 1);
    lemma_eval_suffix_agree(p, adjusted, z as int, 1);
    let e1 = eval_suffix(p, z as int, 1);
    let w = fmul(z as int, e1);
    assert(poly_eval(adjusted, z as int) == fadd(fsub(p[0] as int, pz), w));
    assert(pz == fadd(p[0] as int, w));
    // ((p0 - pz) % m + w) % m == (p0 + w - pz) % m == (pz - pz) % m == 0
    lemma_add_mod_noop(p[0] as int - pz, w, m);
    lemma_small_mod(w as nat, m as nat);
    lemma_sub_mod_noop(p[0] as int + w, pz, m);
    lemma_small_mod(pz as nat, m as nat);
    assert((p[0] as int + w - pz) % m == (fadd(p[0] as int, w) - pz) % m);
    assert((pz - pz) % m == 0) by {
        assert(pz - pz == 0);
        lemma_small_mod(0nat, m as nat);
    }
}

/// Synthetic-division round trip: subtracting `p(z)` from the constant term,
/// dividing by `(x - z)`, multiplying back by `(x - z)` and re-adding `p(z)`
/// restores the original coefficients exactly.
pub proof fn lemma_synthetic_division_round_trip(p: Seq<u64>, z: u64)
    requires
        p.len() >= 1,
        forall|i: int| 0 <= i < p.len() ==> p[i] < field64::K,
        z < field64::K,
    ensures
        ({
            let pz = poly_eval(p, z as int);
            let adjusted = p.update(0, fsub(p[0] as int, pz) as u64);
            times_x_minus_z_plus(quotient_coeffs(adjusted, z as int), z as int, pz) == p
        }),
{
    let m = field64::K as int;
    let pz = poly_eval(p, z as int);
    let adjusted = p.update(0, fsub(p[0] as int, pz) as u64);
    let q = quotient_coeffs(adjusted, z as int);
    let back = times_x_minus_z_plus(q, z as int, pz);

    lemma_eval_suffix_in_field(p, z as int, 0);

    // interior and top coefficients: q[i-1] - z*q[i] recovers adjusted[i]
    assert forall|i: int| 1 <= i < p.len() implies back[i] == p[i] by {
        lemma_syn_q_in_field(adjusted, z as int, i);
        let w = fmul(z as int, syn_q(adjusted, z as int, i));
        assert(syn_q(adjusted, z as int, i - 1) == fadd(adjusted[i] as int, w));
        lemma_add_then_sub(adjusted[i] as int, w);
    }

    // constant coefficient: the adjusted polynomial vanishes at z, so its
    // constant term is the exact complement of z * q[0], and re-adding pz
    // restores p[0]
    assert(back[0] == p[0]) by {
        lemma_syn_q_is_eval(adjusted, z as int, -1);
        lemma_adjusted_vanishes(p, z);
        let w0 = fmul(z as int, syn_q(adjusted, z as int, 0));
        assert(eval_suffix(adjusted, z as int, 0) == fadd(adjusted[0] as int, w0));
        lemma_syn_q_in_field(adjusted, z as int, 0);
        lemma_complement(adjusted[0] as int, w0);
        assert(fsub(0, w0) == adjusted[0] as int);
        lemma_sub_then_add(p[0] as int, pz);
    }

    assert(back =~= p);
}

/// Every Horner suffix evaluation is a canonical field element.
pub proof fn lemma_eval_suffix_in_field(p: Seq<u64>, x: int, i: int)
    ensures
        0 <= eval_suffix(p, x, i) < field64::K,
    decreases p.len() - i,
{
    if i < 0 || i >= p.len() {
    } else {
        lemma_eval_suffix_in_field(p, x, i + 1);
    }
}

/// Every synthetic-quotient coefficient is a canonical field element.
pub proof fn lemma_syn_q_in_field(p: Seq<u64>, z: int, i: int)
    ensures
        0 <= syn_q(p, z, i) < field64::K,
    decreases p.len() - i,
{
    if i >= p.len() - 1 {
    } else {
        lemma_syn_q_in_field(p, z, i + 1);
    }
}

} // verus!
