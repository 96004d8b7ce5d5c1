//! One row of the execution trace as the constraint evaluators see it:
//! sponge lanes, op-decoder bits, context and loop stacks, and the user
//! stack.

use vstd::prelude::*;
use crate::field;

verus! {

/// A single trace row, split into its register regions.
pub struct TraceState {
    /// Rolling hash state absorbing the executed opcode (4 lanes).
    pub sponge: Vec<u128>,
    /// Control-flow op bits (3 columns).
    pub cf_op_bits: Vec<u128>,
    /// Low-degree op bits (5 columns).
    pub ld_op_bits: Vec<u128>,
    /// High-degree op bits (2 columns).
    pub hd_op_bits: Vec<u128>,
    /// Hashes of enclosing blocks (one column per nesting level).
    pub ctx_stack: Vec<u128>,
    /// Hashes of enclosing loop bodies (one column per nesting level).
    pub loop_stack: Vec<u128>,
    /// The user stack columns.
    pub user_stack: Vec<u128>,
}

impl TraceState {
    /// Region widths and canonical field elements everywhere.
    pub open spec fn well_formed(&self) -> bool {
        &&& self.sponge@.len() == 4
        &&& self.cf_op_bits@.len() == 3
        &&& self.ld_op_bits@.len() == 5
        &&& self.hd_op_bits@.len() == 2
        &&& forall|i: int| 0 <= i < self.sponge@.len() ==> self.sponge@[i] < field::M
        &&& forall|i: int| 0 <= i < self.cf_op_bits@.len() ==> self.cf_op_bits@[i] < field::M
        &&& forall|i: int| 0 <= i < self.ld_op_bits@.len() ==> self.ld_op_bits@[i] < field::M
        &&& forall|i: int| 0 <= i < self.hd_op_bits@.len() ==> self.hd_op_bits@[i] < field::M
        &&& forall|i: int| 0 <= i < self.ctx_stack@.len() ==> self.ctx_stack@[i] < field::M
        &&& forall|i: int| 0 <= i < self.loop_stack@.len() ==> self.loop_stack@[i] < field::M
        &&& forall|i: int| 0 <= i < self.user_stack@.len() ==> self.user_stack@[i] < field::M
    }

    /// Builds a row from one flat vector laid out as sponge, control-flow
    /// bits, low-degree bits, high-degree bits, context stack, loop stack,
    /// user stack.
    pub fn from_vec(ctx_depth: usize, loop_depth: usize, stack_depth: usize, values: &Vec<u128>)
        -> (r: TraceState)
        requires
            values@.len() == 14 + ctx_depth + loop_depth + stack_depth,
            forall|i: int| 0 <= i < values@.len() ==> values@[i] < field::M,
        ensures
            r.well_formed(),
            r.sponge@ == values@.subrange(0, 4),
            r.cf_op_bits@ == values@.subrange(4, 7),
            r.ld_op_bits@ == values@.subrange(7, 12),
            r.hd_op_bits@ == values@.subrange(12, 14),
            r.ctx_stack@ == values@.subrange(14, 14 + ctx_depth),
            r.loop_stack@ == values@.subrange(
                14 + ctx_depth,
                14 + ctx_depth + loop_depth,
            ),
            r.user_stack@ == values@.subrange(
                14 + ctx_depth + loop_depth,
                14 + ctx_depth + loop_depth + stack_depth,
            ),
    {
        proof {
            vstd::std_specs::vec::axiom_spec_len(values);
        }
        let sponge = copy_range(values, 0, 4);
        let cf_op_bits = copy_range(values, 4, 3);
        let ld_op_bits = copy_range(values, 7, 5);
        let hd_op_bits = copy_range(values, 12, 2);
        let ctx_stack = copy_range(values, 14, ctx_depth);
        let loop_stack = copy_range(values, 14 + ctx_depth, loop_depth);
        let user_stack = copy_range(values, 14 + ctx_depth + loop_depth, stack_depth);
        TraceState { sponge, cf_op_bits, ld_op_bits, hd_op_bits, ctx_stack, loop_stack, user_stack }
    }
}

/// Copies `count` elements of `values` starting at `start` into a fresh
/// vector.
fn copy_range(values: &Vec<u128>, start: usize, count: usize) -> (r: Vec<u128>)
    requires
        start + count <= values@.len(),
    ensures
        r@ == values@.subrange(start as int, start as int + count),
{
    let mut result: Vec<u128> = Vec::with_capacity(count);
    let mut i: usize = 0;
    while i < count
        invariant
            i <= count,
            start + count <= values@.len(),
            result@.len() == i,
            forall|j: int| 0 <= j < i ==> result@[j] == values@[start + j],
        decreases count - i,
    {
        proof {
            vstd::std_specs::vec::axiom_spec_len(values);
        }
        result.push(values[start + i]);
        i = i + 1;
    }
    proof {
        assert(result@ =~= values@.subrange(start as int, start as int + count));
    }
    result
}

} // verus!
