//! The constraint composition polynomial: the single polynomial, produced by
//! combining all constraint evaluations, whose low degree witnesses that the
//! execution trace satisfies every constraint.
//!
//! The polynomial lives over the 64-bit field. Its coefficient vector has a
//! power-of-two length and its degree equals `length - length /
//! MAX_CONSTRAINT_DEGREE`, i.e. `length - trace_length`.

use vstd::prelude::*;
use crate::MAX_CONSTRAINT_DEGREE;
use crate::field64;
use crate::field64::fadd;
use crate::field64::fexp;
use crate::field64::fmul;
use crate::field64::fsub;
use crate::polynom;
use crate::polynom::poly_eval;
use crate::polynom::poly_degree;
use crate::polynom::syn_q;
use crate::utils::CompositionCoefficients;
use crate::utils::is_power_of_two;
use vstd::arithmetic::div_mod::lemma_mul_mod_noop_left;
use vstd::arithmetic::power::lemma_pow0;
use vstd::arithmetic::power::lemma_pow1;
use vstd::arithmetic::power::lemma_pow_adds;
use vstd::arithmetic::power::pow;

verus! {

/// A constraint composition polynomial in coefficient form.
pub struct ConstraintPoly {
    poly: Vec<u64>,
}

impl View for ConstraintPoly {
    type V = Seq<u64>;

    closed spec fn view(&self) -> Seq<u64> {
        self.poly@
    }
}

/// The degree a constraint polynomial of the given length must have.
pub open spec fn expected_degree(len: int) -> int {
    len - len / (MAX_CONSTRAINT_DEGREE as int)
}

/// The generator of the evaluation domain a twiddle table encodes: its
/// second entry. A one-entry table (the smallest domain) only carries the
/// mandatory leading 1; its polynomial is a constant, so the base is moot
/// and taken as 1.
pub open spec fn domain_base(t: Seq<u64>) -> u64 {
    if t.len() >= 2 {
        t[1]
    } else {
        1u64
    }
}

impl ConstraintPoly {
    /// The structural invariant: power-of-two length, canonical
    /// coefficients, and the degree the composition stage produces.
    pub open spec fn well_formed(&self) -> bool {
        &&& is_power_of_two(self@.len() as int)
        &&& forall|i: int| 0 <= i < self@.len() ==> self@[i] < field64::K
        &&& poly_degree(self@) == expected_degree(self@.len() as int)
    }

    /// Wraps a coefficient vector of the expected shape.
    pub fn new(poly: Vec<u64>) -> (r: ConstraintPoly)
        requires
            is_power_of_two(poly@.len() as int),
            forall|i: int| 0 <= i < poly@.len() ==> poly@[i] < field64::K,
            poly_degree(poly@) == expected_degree(poly@.len() as int),
        ensures
            r@ == poly@,
            r.well_formed(),
    {
        ConstraintPoly { poly }
    }

    /// The degree of the polynomial.
    pub fn degree(&self) -> (r: usize)
        requires
            self.well_formed(),
        ensures
            r == expected_degree(self@.len() as int),
    {
        get_expected_degree(&self.poly)
    }

    /// Evaluates the polynomial over the domain generated by the twiddle
    /// table's base element: position `i` of the result holds the value at
    /// the `i`-th power of [`domain_base`]. The domain is twice the table.
    pub fn eval(&self, twiddles: &Vec<u64>) -> (r: Vec<u64>)
        requires
            self.well_formed(),
            twiddles@.len() >= 1,
            twiddles@.len() * 2 > self@.len(),
            twiddles@.len() * 2 <= usize::MAX,
            forall|i: int| 0 <= i < twiddles@.len() ==> #[trigger] twiddles@[i] == fexp(
                domain_base(twiddles@) as int,
                i as nat,
            ),
        ensures
            r@.len() == twiddles@.len() * 2,
            forall|i: int| 0 <= i < r@.len() ==> r@[i] == poly_eval(
                self@,
                fexp(domain_base(twiddles@) as int, i as nat),
            ),
    {
        let w = if twiddles.len() >= 2 {
            twiddles[1]
        } else {
            1
        };
        proof {
            if twiddles@.len() >= 2 {
                assert(twiddles@[1] == fexp(domain_base(twiddles@) as int, 1nat));
                lemma_pow1(domain_base(twiddles@) as int);
                vstd::arithmetic::div_mod::lemma_mod_division_less_than_divisor(
                    pow(domain_base(twiddles@) as int, 1nat),
                    field64::K as int,
                );
            }
            assert(w == domain_base(twiddles@));
            assert(w < field64::K);
        }
        let domain_size = twiddles.len() * 2;
        let mut evaluations: Vec<u64> = Vec::with_capacity(domain_size);
        let mut x: u64 = 1;
        proof {
            lemma_pow0(w as int);
            vstd::arithmetic::div_mod::lemma_small_mod(1nat, field64::K as nat);
        }
        let mut i: usize = 0;
        while i < domain_size
            invariant
                i <= domain_size,
                domain_size == twiddles@.len() * 2,
                self.well_formed(),
                w < field64::K,
                w == domain_base(twiddles@),
                x < field64::K,
                x == fexp(w as int, i as nat),
                evaluations@.len() == i,
                forall|j: int| 0 <= j < i ==> evaluations@[j] == poly_eval(
                    self@,
                    fexp(w as int, j as nat),
                ),
            decreases domain_size - i,
        {
            evaluations.push(polynom::eval(&self.poly, x));
            let ghost x0 = x as int;
            let ghost i0 = i as nat;
            x = field64::mul(x, w);
            i = i + 1;
            proof {
                lemma_pow1(w as int);
                lemma_pow_adds(w as int, i0, 1nat);
                lemma_mul_mod_noop_left(pow(w as int, i0), w as int, field64::K as int);
            }
        }
        evaluations
    }

    /// Evaluates the polynomial at a single out-of-domain point.
    pub fn eval_at(&self, z: u64) -> (r: u64)
        requires
            self.well_formed(),
            z < field64::K,
        ensures
            r == poly_eval(self@, z as int),
    {
        polynom::eval(&self.poly, z)
    }

    /// Merges the polynomial into the composition buffer: evaluates it at
    /// `z`, subtracts that value from the constant term, divides by
    /// `(x - z)` in place, and accumulates the quotient scaled by the
    /// composition coefficient. Returns the value at `z`.
    pub fn merge_into(self, result: &mut Vec<u64>, z: u64, cc: &CompositionCoefficients) -> (r:
        u64)
        requires
            self.well_formed(),
            z < field64::K,
            cc.constraints < field64::K,
            old(result)@.len() >= self@.len(),
            forall|i: int| 0 <= i < self@.len() ==> old(result)@[i] < field64::K,
        ensures
            r == poly_eval(self@, z as int),
            final(result)@.len() == old(result)@.len(),
            ({
                let adjusted = self@.update(0, fsub(self@[0] as int, r as int) as u64);
                forall|i: int| 0 <= i < self@.len() ==> final(result)@[i] == fadd(
                    old(result)@[i] as int,
                    fmul(syn_q(adjusted, z as int, i), cc.constraints as int),
                )
            }),
            forall|i: int|
                self@.len() <= i < old(result)@.len() ==> final(result)@[i] == old(result)@[i],
    {
        let z_value = polynom::eval(&self.poly, z);

        // compute C(x) = (P(x) - P(z)) / (x - z)
        let mut poly = self.poly;
        let adjusted0 = field64::sub(poly[0], z_value);
        poly[0] = adjusted0;
        let ghost adjusted = poly@;
        polynom::syn_div_in_place(&mut poly, z);
        proof {
            assert forall|i: int| 0 <= i < poly@.len() implies poly@[i] < field64::K by {
                polynom::lemma_syn_q_in_field(adjusted, z as int, i);
            }
        }

        // add C(x) * cc into the result
        polynom::mul_acc(result, &poly, cc.constraints);
        z_value
    }
}

/// The degree a well-formed constraint polynomial of this length has:
/// `length - length / MAX_CONSTRAINT_DEGREE`.
fn get_expected_degree(poly: &Vec<u64>) -> (r: usize)
    ensures
        r == expected_degree(poly@.len() as int),
{
    let trace_length = poly.len() / MAX_CONSTRAINT_DEGREE;
    poly.len() - trace_length
}

} // verus!
