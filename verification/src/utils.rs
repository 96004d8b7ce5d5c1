//! Small allocation helpers shared by the trace builder.

use vstd::prelude::*;

verus! {

/// Whether `n` is a positive power of two.
pub open spec fn is_power_of_two(n: int) -> bool
    decreases n,
{
    if n <= 0 {
        false
    } else if n == 1 {
        true
    } else {
        n % 2 == 0 && is_power_of_two(n / 2)
    }
}

/// Linear-combination coefficients drawn from the transcript when trace and
/// constraint polynomials are merged into the composition polynomial.
pub struct CompositionCoefficients {
    pub constraints: u64,
}

/// A vector never holds more than `usize::MAX` elements.
pub proof fn lemma_vec_len_bound<T>(v: Vec<T>)
    ensures
        v@.len() <= usize::MAX,
{
    vstd::std_specs::vec::axiom_spec_len(&v);
}

/// Builds a vector holding `length` copies of `value`, with room reserved for
/// `capacity` elements so the trace can later be extended in place.
pub fn filled_vector<T: Copy>(length: usize, capacity: usize, value: T) -> (r: Vec<T>)
    requires
        length <= capacity,
    ensures
        r@.len() == length,
        forall|i: int| 0 <= i < length ==> r@[i] == value,
{
    let mut result: Vec<T> = Vec::with_capacity(capacity);
    let mut i: usize = 0;
    while i < length
        invariant
            i <= length,
            result@.len() == i,
            forall|j: int| 0 <= j < i ==> result@[j] == value,
        decreases length - i,
    {
        result.push(value);
        i = i + 1;
    }
    result
}

} // verus!
