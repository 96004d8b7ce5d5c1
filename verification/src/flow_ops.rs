//! Constraint evaluators for the flow-control opcodes: block begin and the
//! two block-end variants. Each evaluator accumulates, for every affected
//! trace column, `op_flag` times a value that is zero exactly when the
//! transition from `current` to `next` is the legal one for that opcode.
//!
//! A block begin clears the sponge and pushes the parent block's hash onto
//! the context stack. A block end restores the parent hash into sponge lane
//! 0 and pops the context stack; the hash of the finished block lands in
//! sponge lane 1 for a taken (true) branch and lane 2 for an untaken
//! (false) branch, which is how the verifier tells the branches apart. The
//! loop stack must be untouched by all three.

use vstd::prelude::*;
use crate::field;
use crate::field::fadd;
use crate::field::fmul;
use crate::field::fsub;
use crate::trace_state::TraceState;

verus! {

/// The value whose vanishing makes two field elements equal.
pub fn are_equal(a: u128, b: u128) -> (r: u128)
    requires
        a < field::M,
        b < field::M,
    ensures
        r < field::M,
        r == fsub(a as int, b as int),
{
    field::sub(a, b)
}

/// The value whose vanishing makes a field element zero.
pub fn is_zero(a: u128) -> (r: u128)
    ensures
        r == a,
{
    a
}

/// Accumulates `op_flag * value` into `result[i]`.
pub fn agg_constraint(result: &mut Vec<u128>, i: usize, op_flag: u128, value: u128)
    requires
        i < old(result)@.len(),
        old(result)@[i as int] < field::M,
        op_flag < field::M,
        value < field::M,
    ensures
        final(result)@ == old(result)@.update(
            i as int,
            fadd(old(result)@[i as int] as int, fmul(op_flag as int, value as int)) as u128,
        ),
{
    let v = field::add(result[i], field::mul(op_flag, value));
    result[i] = v;
}

/// Constraint `i` of a stack pop: every cell moves down one slot and the
/// freed top slot must be zero.
pub open spec fn pop_constraint(old_s: Seq<u128>, new_s: Seq<u128>, i: int) -> int {
    if i == old_s.len() - 1 {
        new_s[i] as int
    } else {
        fsub(old_s[i + 1] as int, new_s[i] as int)
    }
}

/// Constraint `i` of a stack push: slot 0 receives the pushed value and
/// every other cell moves up one slot.
pub open spec fn push_constraint(old_s: Seq<u128>, new_s: Seq<u128>, value: int, i: int) -> int {
    if i == 0 {
        fsub(value, new_s[0] as int)
    } else {
        fsub(old_s[i - 1] as int, new_s[i] as int)
    }
}

/// Constraint `i` of an unchanged stack.
pub open spec fn copy_constraint(old_s: Seq<u128>, new_s: Seq<u128>, i: int) -> int {
    fsub(old_s[i] as int, new_s[i] as int)
}

/// The number of constraints the flow-control evaluators write: four sponge
/// constraints, one per context-stack slot, one per loop-stack slot.
pub open spec fn num_flow_constraints(current: &TraceState) -> int {
    4 + current.ctx_stack@.len() as int + current.loop_stack@.len() as int
}

/// Constraint `i` of a block begin: the sponge must clear, the parent hash
/// must be pushed onto the context stack, the loop stack must not change.
pub open spec fn begin_constraint(current: &TraceState, next: &TraceState, i: int) -> int {
    let n_ctx = current.ctx_stack@.len() as int;
    if i < 4 {
        next.sponge@[i] as int
    } else if i < 4 + n_ctx {
        push_constraint(current.ctx_stack@, next.ctx_stack@, current.sponge@[0] as int, i - 4)
    } else {
        copy_constraint(current.loop_stack@, next.loop_stack@, i - 4 - n_ctx)
    }
}

/// Constraint `i` of a true-branch block end: the parent hash returns to
/// sponge lane 0, the block hash lands in lane 1, lane 3 clears (lane 2 is
/// unconstrained), the context stack pops, the loop stack must not change.
pub open spec fn tend_constraint(current: &TraceState, next: &TraceState, i: int) -> int {
    let n_ctx = current.ctx_stack@.len() as int;
    if i == 0 {
        fsub(current.ctx_stack@[0] as int, next.sponge@[0] as int)
    } else if i == 1 {
        fsub(current.sponge@[0] as int, next.sponge@[1] as int)
    } else if i == 2 {
        0
    } else if i == 3 {
        next.sponge@[3] as int
    } else if i < 4 + n_ctx {
        pop_constraint(current.ctx_stack@, next.ctx_stack@, i - 4)
    } else {
        copy_constraint(current.loop_stack@, next.loop_stack@, i - 4 - n_ctx)
    }
}

/// Constraint `i` of a false-branch block end: as for the true branch, but
/// the block hash lands in sponge lane 2 and lane 1 is unconstrained.
pub open spec fn fend_constraint(current: &TraceState, next: &TraceState, i: int) -> int {
    let n_ctx = current.ctx_stack@.len() as int;
    if i == 0 {
        fsub(current.ctx_stack@[0] as int, next.sponge@[0] as int)
    } else if i == 1 {
        0
    } else if i == 2 {
        fsub(current.sponge@[0] as int, next.sponge@[2] as int)
    } else if i == 3 {
        next.sponge@[3] as int
    } else if i < 4 + n_ctx {
        pop_constraint(current.ctx_stack@, next.ctx_stack@, i - 4)
    } else {
        copy_constraint(current.loop_stack@, next.loop_stack@, i - 4 - n_ctx)
    }
}

/// The states an evaluator can relate: well-formed rows whose context and
/// loop stacks have matching, nonempty context depth.
pub open spec fn compatible_states(current: &TraceState, next: &TraceState) -> bool {
    &&& current.well_formed()
    &&& next.well_formed()
    &&& current.ctx_stack@.len() == next.ctx_stack@.len()
    &&& current.loop_stack@.len() == next.loop_stack@.len()
    &&& current.ctx_stack@.len() >= 1
}

/// What a constraint evaluator may assume of its output buffer.
pub open spec fn result_ready(result: Seq<u128>, current: &TraceState) -> bool {
    &&& result.len() >= num_flow_constraints(current)
    &&& forall|i: int| 0 <= i < result.len() ==> result[i] < field::M
}

/// Evaluates the block-begin constraints, accumulating `op_flag` times each
/// constraint value into the corresponding slot of `result`.
pub fn enforce_begin(result: &mut Vec<u128>, current: &TraceState, next: &TraceState, op_flag: u128)
    requires
        compatible_states(current, next),
        result_ready(old(result)@, current),
        op_flag < field::M,
    ensures
        final(result)@.len() == old(result)@.len(),
        forall|i: int| 0 <= i < num_flow_constraints(current) ==> final(result)@[i] == fadd(
            old(result)@[i] as int,
            fmul(op_flag as int, begin_constraint(current, next, i)),
        ),
        forall|i: int|
            num_flow_constraints(current) <= i < old(result)@.len() ==> final(result)@[i] == old(
                result,
            )@[i],
        forall|i: int| 0 <= i < final(result)@.len() ==> final(result)@[i] < field::M,
{
    let ghost r0 = result@;
    // make sure sponge state has been cleared
    let v0 = is_zero(next.sponge[0]);
    agg_constraint(result, 0, op_flag, v0);
    let v1 = is_zero(next.sponge[1]);
    agg_constraint(result, 1, op_flag, v1);
    let v2 = is_zero(next.sponge[2]);
    agg_constraint(result, 2, op_flag, v2);
    let v3 = is_zero(next.sponge[3]);
    agg_constraint(result, 3, op_flag, v3);

    // make sure hash of parent block was pushed onto the context stack
    let parent_hash = current.sponge[0];
    enforce_stack_push(result, 4, &current.ctx_stack, &next.ctx_stack, parent_hash, op_flag);

    // make sure loop stack didn't change
    proof {
        vstd::std_specs::vec::axiom_spec_len(result);
    }
    let ctx_stack_end = 4 + current.ctx_stack.len();
    enforce_stack_copy(result, ctx_stack_end, &current.loop_stack, &next.loop_stack, op_flag);
}

/// Evaluates the true-branch block-end constraints, accumulating `op_flag`
/// times each constraint value into the corresponding slot of `result`.
pub fn enforce_tend(result: &mut Vec<u128>, current: &TraceState, next: &TraceState, op_flag: u128)
    requires
        compatible_states(current, next),
        result_ready(old(result)@, current),
        op_flag < field::M,
    ensures
        final(result)@.len() == old(result)@.len(),
        forall|i: int| 0 <= i < num_flow_constraints(current) ==> final(result)@[i] == fadd(
            old(result)@[i] as int,
            fmul(op_flag as int, tend_constraint(current, next, i)),
        ),
        forall|i: int|
            num_flow_constraints(current) <= i < old(result)@.len() ==> final(result)@[i] == old(
                result,
            )@[i],
        forall|i: int| 0 <= i < final(result)@.len() ==> final(result)@[i] < field::M,
{
    let ghost r0 = result@;
    let parent_hash = current.ctx_stack[0];
    let block_hash = current.sponge[0];

    let v0 = are_equal(parent_hash, next.sponge[0]);
    agg_constraint(result, 0, op_flag, v0);
    let v1 = are_equal(block_hash, next.sponge[1]);
    agg_constraint(result, 1, op_flag, v1);
    // no constraint on the 3rd element of the sponge
    let v3 = is_zero(next.sponge[3]);
    agg_constraint(result, 3, op_flag, v3);
    proof {
        lemma_unit_accumulation(r0[2] as int, op_flag as int);
        assert(result@[2] == fadd(r0[2] as int, fmul(op_flag as int, 0)));
    }

    // make sure parent hash was popped from context stack
    enforce_stack_pop(result, 4, &current.ctx_stack, &next.ctx_stack, op_flag);

    // make sure loop stack didn't change
    proof {
        vstd::std_specs::vec::axiom_spec_len(result);
    }
    let ctx_stack_end = 4 + current.ctx_stack.len();
    enforce_stack_copy(result, ctx_stack_end, &current.loop_stack, &next.loop_stack, op_flag);
}

/// Evaluates the false-branch block-end constraints, accumulating `op_flag`
/// times each constraint value into the corresponding slot of `result`.
pub fn enforce_fend(result: &mut Vec<u128>, current: &TraceState, next: &TraceState, op_flag: u128)
    requires
        compatible_states(current, next),
        result_ready(old(result)@, current),
        op_flag < field::M,
    ensures
        final(result)@.len() == old(result)@.len(),
        forall|i: int| 0 <= i < num_flow_constraints(current) ==> final(result)@[i] == fadd(
            old(result)@[i] as int,
            fmul(op_flag as int, fend_constraint(current, next, i)),
        ),
        forall|i: int|
            num_flow_constraints(current) <= i < old(result)@.len() ==> final(result)@[i] == old(
                result,
            )@[i],
        forall|i: int| 0 <= i < final(result)@.len() ==> final(result)@[i] < field::M,
{
    let ghost r0 = result@;
    let parent_hash = current.ctx_stack[0];
    let block_hash = current.sponge[0];

    let v0 = are_equal(parent_hash, next.sponge[0]);
    agg_constraint(result, 0, op_flag, v0);
    // no constraint on the 2nd element of the sponge
    let v2 = are_equal(block_hash, next.sponge[2]);
    agg_constraint(result, 2, op_flag, v2);
    let v3 = is_zero(next.sponge[3]);
    agg_constraint(result, 3, op_flag, v3);
    proof {
        lemma_unit_accumulation(r0[1] as int, op_flag as int);
        assert(result@[1] == fadd(r0[1] as int, fmul(op_flag as int, 0)));
    }

    // make sure parent hash was popped from context stack
    enforce_stack_pop(result, 4, &current.ctx_stack, &next.ctx_stack, op_flag);

    // make sure loop stack didn't change
    proof {
        vstd::std_specs::vec::axiom_spec_len(result);
    }
    let ctx_stack_end = 4 + current.ctx_stack.len();
    enforce_stack_copy(result, ctx_stack_end, &current.loop_stack, &next.loop_stack, op_flag);
}

/// The legal block-begin transition: sponge cleared, parent hash pushed
/// onto the context stack, loop stack unchanged.
pub open spec fn begin_transition(current: &TraceState, next: &TraceState) -> bool {
    &&& next.sponge@[0] == 0
    &&& next.sponge@[1] == 0
    &&& next.sponge@[2] == 0
    &&& next.sponge@[3] == 0
    &&& next.ctx_stack@[0] == current.sponge@[0]
    &&& forall|i: int|
        1 <= i < current.ctx_stack@.len() ==> next.ctx_stack@[i] == current.ctx_stack@[i - 1]
    &&& forall|i: int|
        0 <= i < current.loop_stack@.len() ==> next.loop_stack@[i] == current.loop_stack@[i]
}

/// The legal true-branch block-end transition: parent hash back in sponge
/// lane 0, block hash in lane 1, lane 3 cleared, context stack popped, loop
/// stack unchanged.
pub open spec fn tend_transition(current: &TraceState, next: &TraceState) -> bool {
    &&& next.sponge@[0] == current.ctx_stack@[0]
    &&& next.sponge@[1] == current.sponge@[0]
    &&& next.sponge@[3] == 0
    &&& forall|i: int|
        0 <= i < current.ctx_stack@.len() - 1 ==> next.ctx_stack@[i] == current.ctx_stack@[i + 1]
    &&& next.ctx_stack@[current.ctx_stack@.len() - 1] == 0
    &&& forall|i: int|
        0 <= i < current.loop_stack@.len() ==> next.loop_stack@[i] == current.loop_stack@[i]
}

/// The legal false-branch block-end transition: parent hash back in sponge
/// lane 0, block hash in lane 2, lane 3 cleared, context stack popped, loop
/// stack unchanged.
pub open spec fn fend_transition(current: &TraceState, next: &TraceState) -> bool {
    &&& next.sponge@[0] == current.ctx_stack@[0]
    &&& next.sponge@[2] == current.sponge@[0]
    &&& next.sponge@[3] == 0
    &&& forall|i: int|
        0 <= i < current.ctx_stack@.len() - 1 ==> next.ctx_stack@[i] == current.ctx_stack@[i + 1]
    &&& next.ctx_stack@[current.ctx_stack@.len() - 1] == 0
    &&& forall|i: int|
        0 <= i < current.loop_stack@.len() ==> next.loop_stack@[i] == current.loop_stack@[i]
}

/// The block-begin constraints vanish on a pair of rows exactly when the
/// pair is a legal block-begin transition: evaluating them on the state an
/// execution produces yields all zeros, and perturbing any constrained cell
/// of the next row makes some constraint nonzero.
pub proof fn lemma_begin_constraints_vanish(current: &TraceState, next: &TraceState)
    requires
        compatible_states(current, next),
    ensures
        begin_transition(current, next) <==> (forall|i: int|
            0 <= i < num_flow_constraints(current) ==> begin_constraint(current, next, i) == 0),
{
    let n_ctx = current.ctx_stack@.len() as int;
    let n_loop = current.loop_stack@.len() as int;
    if begin_transition(current, next) {
        assert forall|i: int|
            0 <= i < num_flow_constraints(current) implies begin_constraint(current, next, i)
            == 0 by {
            if i < 4 {
            } else if i < 4 + n_ctx {
                if i == 4 {
                    crate::field::lemma_fsub_eq_zero(current.sponge@[0], next.ctx_stack@[0]);
                } else {
                    crate::field::lemma_fsub_eq_zero(
                        current.ctx_stack@[i - 5],
                        next.ctx_stack@[i - 4],
                    );
                }
            } else {
                crate::field::lemma_fsub_eq_zero(
                    current.loop_stack@[i - 4 - n_ctx],
                    next.loop_stack@[i - 4 - n_ctx],
                );
            }
        }
    }
    if forall|i: int|
        0 <= i < num_flow_constraints(current) ==> begin_constraint(current, next, i) == 0 {
        assert(begin_constraint(current, next, 0) == 0);
        assert(begin_constraint(current, next, 1) == 0);
        assert(begin_constraint(current, next, 2) == 0);
        assert(begin_constraint(current, next, 3) == 0);
        assert(begin_constraint(current, next, 4) == 0);
        crate::field::lemma_fsub_eq_zero(current.sponge@[0], next.ctx_stack@[0]);
        assert forall|i: int|
            1 <= i < n_ctx implies next.ctx_stack@[i] == current.ctx_stack@[i - 1] by {
            assert(begin_constraint(current, next, 4 + i) == 0);
            crate::field::lemma_fsub_eq_zero(current.ctx_stack@[i - 1], next.ctx_stack@[i]);
        }
        assert forall|i: int|
            0 <= i < n_loop implies next.loop_stack@[i] == current.loop_stack@[i] by {
            assert(begin_constraint(current, next, 4 + n_ctx + i) == 0);
            crate::field::lemma_fsub_eq_zero(current.loop_stack@[i], next.loop_stack@[i]);
        }
    }
}

/// The true-branch block-end constraints vanish on a pair of rows exactly
/// when the pair is a legal true-branch block-end transition.
pub proof fn lemma_tend_constraints_vanish(current: &TraceState, next: &TraceState)
    requires
        compatible_states(current, next),
    ensures
        tend_transition(current, next) <==> (forall|i: int|
            0 <= i < num_flow_constraints(current) ==> tend_constraint(current, next, i) == 0),
{
    let n_ctx = current.ctx_stack@.len() as int;
    let n_loop = current.loop_stack@.len() as int;
    if tend_transition(current, next) {
        assert forall|i: int|
            0 <= i < num_flow_constraints(current) implies tend_constraint(current, next, i)
            == 0 by {
            if i == 0 {
                crate::field::lemma_fsub_eq_zero(current.ctx_stack@[0], next.sponge@[0]);
            } else if i == 1 {
                crate::field::lemma_fsub_eq_zero(current.sponge@[0], next.sponge@[1]);
            } else if i < 4 {
            } else if i < 4 + n_ctx {
                if i - 4 < n_ctx - 1 {
                    crate::field::lemma_fsub_eq_zero(
                        current.ctx_stack@[i - 3],
                        next.ctx_stack@[i - 4],
                    );
                }
            } else {
                crate::field::lemma_fsub_eq_zero(
                    current.loop_stack@[i - 4 - n_ctx],
                    next.loop_stack@[i - 4 - n_ctx],
                );
            }
        }
    }
    if forall|i: int|
        0 <= i < num_flow_constraints(current) ==> tend_constraint(current, next, i) == 0 {
        assert(tend_constraint(current, next, 0) == 0);
        assert(tend_constraint(current, next, 1) == 0);
        assert(tend_constraint(current, next, 3) == 0);
        crate::field::lemma_fsub_eq_zero(current.ctx_stack@[0], next.sponge@[0]);
        crate::field::lemma_fsub_eq_zero(current.sponge@[0], next.sponge@[1]);
        assert forall|i: int|
            0 <= i < n_ctx - 1 implies next.ctx_stack@[i] == current.ctx_stack@[i + 1] by {
            assert(tend_constraint(current, next, 4 + i) == 0);
            crate::field::lemma_fsub_eq_zero(current.ctx_stack@[i + 1], next.ctx_stack@[i]);
        }
        assert(tend_constraint(current, next, 4 + n_ctx - 1) == 0);
        assert forall|i: int|
            0 <= i < n_loop implies next.loop_stack@[i] == current.loop_stack@[i] by {
            assert(tend_constraint(current, next, 4 + n_ctx + i) == 0);
            crate::field::lemma_fsub_eq_zero(current.loop_stack@[i], next.loop_stack@[i]);
        }
    }
}

/// The false-branch block-end constraints vanish on a pair of rows exactly
/// when the pair is a legal false-branch block-end transition.
pub proof fn lemma_fend_constraints_vanish(current: &TraceState, next: &TraceState)
    requires
        compatible_states(current, next),
    ensures
        fend_transition(current, next) <==> (forall|i: int|
            0 <= i < num_flow_constraints(current) ==> fend_constraint(current, next, i) == 0),
{
    let n_ctx = current.ctx_stack@.len() as int;
    let n_loop = current.loop_stack@.len() as int;
    if fend_transition(current, next) {
        assert forall|i: int|
            0 <= i < num_flow_constraints(current) implies fend_constraint(current, next, i)
            == 0 by {
            if i == 0 {
                crate::field::lemma_fsub_eq_zero(current.ctx_stack@[0], next.sponge@[0]);
            } else if i == 2 {
                crate::field::lemma_fsub_eq_zero(current.sponge@[0], next.sponge@[2]);
            } else if i < 4 {
            } else if i < 4 + n_ctx {
                if i - 4 < n_ctx - 1 {
                    crate::field::lemma_fsub_eq_zero(
                        current.ctx_stack@[i - 3],
                        next.ctx_stack@[i - 4],
                    );
                }
            } else {
                crate::field::lemma_fsub_eq_zero(
                    current.loop_stack@[i - 4 - n_ctx],
                    next.loop_stack@[i - 4 - n_ctx],
                );
            }
        }
    }
    if forall|i: int|
        0 <= i < num_flow_constraints(current) ==> fend_constraint(current, next, i) == 0 {
        assert(fend_constraint(current, next, 0) == 0);
        assert(fend_constraint(current, next, 2) == 0);
        assert(fend_constraint(current, next, 3) == 0);
        crate::field::lemma_fsub_eq_zero(current.ctx_stack@[0], next.sponge@[0]);
        crate::field::lemma_fsub_eq_zero(current.sponge@[0], next.sponge@[2]);
        assert forall|i: int|
            0 <= i < n_ctx - 1 implies next.ctx_stack@[i] == current.ctx_stack@[i + 1] by {
            assert(fend_constraint(current, next, 4 + i) == 0);
            crate::field::lemma_fsub_eq_zero(current.ctx_stack@[i + 1], next.ctx_stack@[i]);
        }
        assert(fend_constraint(current, next, 4 + n_ctx - 1) == 0);
        assert forall|i: int|
            0 <= i < n_loop implies next.loop_stack@[i] == current.loop_stack@[i] by {
            assert(fend_constraint(current, next, 4 + n_ctx + i) == 0);
            crate::field::lemma_fsub_eq_zero(current.loop_stack@[i], next.loop_stack@[i]);
        }
    }
}

/// Accumulating a zero-valued constraint leaves a canonical slot unchanged.
proof fn lemma_unit_accumulation(a: int, flag: int)
    requires
        0 <= a < field::M,
    ensures
        fadd(a, fmul(flag, 0)) == a,
{
    let m = field::M as int;
    assert(flag * 0 == 0) by (nonlinear_arith);
    vstd::arithmetic::div_mod::lemma_small_mod(0nat, m as nat);
    vstd::arithmetic::div_mod::lemma_small_mod(a as nat, m as nat);
}

/// Accumulates the pop constraints of a stack region into
/// `result[offset..offset + len]`.
fn enforce_stack_pop(
    result: &mut Vec<u128>,
    offset: usize,
    old_stack: &Vec<u128>,
    new_stack: &Vec<u128>,
    op_flag: u128,
)
    requires
        old_stack@.len() == new_stack@.len(),
        old_stack@.len() >= 1,
        offset + old_stack@.len() <= old(result)@.len(),
        forall|i: int| 0 <= i < old(result)@.len() ==> old(result)@[i] < field::M,
        forall|i: int| 0 <= i < old_stack@.len() ==> old_stack@[i] < field::M,
        forall|i: int| 0 <= i < new_stack@.len() ==> new_stack@[i] < field::M,
        op_flag < field::M,
    ensures
        final(result)@.len() == old(result)@.len(),
        forall|i: int| 0 <= i < old_stack@.len() ==> final(result)@[offset + i] == fadd(
            old(result)@[offset + i] as int,
            fmul(op_flag as int, pop_constraint(old_stack@, new_stack@, i)),
        ),
        forall|i: int|
            0 <= i < old(result)@.len() && !(offset <= i < offset + old_stack@.len())
                ==> final(result)@[i] == old(result)@[i],
        forall|i: int| 0 <= i < final(result)@.len() ==> final(result)@[i] < field::M,
{
    let ghost r0 = result@;
    let len = old_stack.len();
    let last_idx = len - 1;
    let mut i: usize = 0;
    while i < last_idx
        invariant
            i <= last_idx,
            last_idx == old_stack@.len() - 1,
            old_stack@.len() == new_stack@.len(),
            offset + old_stack@.len() <= r0.len(),
            result@.len() == r0.len(),
            op_flag < field::M,
            forall|j: int| 0 <= j < r0.len() ==> r0[j] < field::M,
            forall|j: int| 0 <= j < old_stack@.len() ==> old_stack@[j] < field::M,
            forall|j: int| 0 <= j < new_stack@.len() ==> new_stack@[j] < field::M,
            forall|j: int| 0 <= j < i ==> result@[offset + j] == fadd(
                r0[offset + j] as int,
                fmul(op_flag as int, pop_constraint(old_stack@, new_stack@, j)),
            ),
            forall|j: int|
                0 <= j < r0.len() && !(offset <= j < offset + i) ==> result@[j] == r0[j],
            forall|j: int| 0 <= j < result@.len() ==> result@[j] < field::M,
        decreases last_idx - i,
    {
        let v = are_equal(old_stack[i + 1], new_stack[i]);
        proof {
            vstd::std_specs::vec::axiom_spec_len(result);
            assert(result@[offset + i] == r0[offset + i]);
        }
        agg_constraint(result, offset + i, op_flag, v);
        i = i + 1;
    }
    proof {
        vstd::std_specs::vec::axiom_spec_len(result);
        assert(result@[offset + last_idx] == r0[offset + last_idx]);
    }
    let v = is_zero(new_stack[last_idx]);
    agg_constraint(result, offset + last_idx, op_flag, v);
}

/// Accumulates the push constraints of a stack region into
/// `result[offset..offset + len]`.
fn enforce_stack_push(
    result: &mut Vec<u128>,
    offset: usize,
    old_stack: &Vec<u128>,
    new_stack: &Vec<u128>,
    push_value: u128,
    op_flag: u128,
)
    requires
        old_stack@.len() == new_stack@.len(),
        old_stack@.len() >= 1,
        offset + old_stack@.len() <= old(result)@.len(),
        forall|i: int| 0 <= i < old(result)@.len() ==> old(result)@[i] < field::M,
        forall|i: int| 0 <= i < old_stack@.len() ==> old_stack@[i] < field::M,
        forall|i: int| 0 <= i < new_stack@.len() ==> new_stack@[i] < field::M,
        push_value < field::M,
        op_flag < field::M,
    ensures
        final(result)@.len() == old(result)@.len(),
        forall|i: int| 0 <= i < old_stack@.len() ==> final(result)@[offset + i] == fadd(
            old(result)@[offset + i] as int,
            fmul(op_flag as int, push_constraint(old_stack@, new_stack@, push_value as int, i)),
        ),
        forall|i: int|
            0 <= i < old(result)@.len() && !(offset <= i < offset + old_stack@.len())
                ==> final(result)@[i] == old(result)@[i],
        forall|i: int| 0 <= i < final(result)@.len() ==> final(result)@[i] < field::M,
{
    let ghost r0 = result@;
    let len = old_stack.len();
    let v0 = are_equal(push_value, new_stack[0]);
    agg_constraint(result, offset, op_flag, v0);
    let mut i: usize = 1;
    while i < len
        invariant
            1 <= i <= len,
            len == old_stack@.len(),
            old_stack@.len() == new_stack@.len(),
            offset + old_stack@.len() <= r0.len(),
            result@.len() == r0.len(),
            op_flag < field::M,
            push_value < field::M,
            forall|j: int| 0 <= j < r0.len() ==> r0[j] < field::M,
            forall|j: int| 0 <= j < old_stack@.len() ==> old_stack@[j] < field::M,
            forall|j: int| 0 <= j < new_stack@.len() ==> new_stack@[j] < field::M,
            forall|j: int| 0 <= j < i ==> result@[offset + j] == fadd(
                r0[offset + j] as int,
                fmul(
                    op_flag as int,
                    push_constraint(old_stack@, new_stack@, push_value as int, j),
                ),
            ),
            forall|j: int|
                0 <= j < r0.len() && !(offset <= j < offset + i) ==> result@[j] == r0[j],
            forall|j: int| 0 <= j < result@.len() ==> result@[j] < field::M,
        decreases len - i,
    {
        let v = are_equal(old_stack[i - 1], new_stack[i]);
        proof {
            vstd::std_specs::vec::axiom_spec_len(result);
            assert(result@[offset + i] == r0[offset + i]);
        }
        agg_constraint(result, offset + i, op_flag, v);
        i = i + 1;
    }
}

/// Accumulates the copy constraints of a stack region into
/// `result[offset..offset + len]`.
fn enforce_stack_copy(
    result: &mut Vec<u128>,
    offset: usize,
    old_stack: &Vec<u128>,
    new_stack: &Vec<u128>,
    op_flag: u128,
)
    requires
        old_stack@.len() == new_stack@.len(),
        offset + old_stack@.len() <= old(result)@.len(),
        forall|i: int| 0 <= i < old(result)@.len() ==> old(result)@[i] < field::M,
        forall|i: int| 0 <= i < old_stack@.len() ==> old_stack@[i] < field::M,
        forall|i: int| 0 <= i < new_stack@.len() ==> new_stack@[i] < field::M,
        op_flag < field::M,
    ensures
        final(result)@.len() == old(result)@.len(),
        forall|i: int| 0 <= i < old_stack@.len() ==> final(result)@[offset + i] == fadd(
            old(result)@[offset + i] as int,
            fmul(op_flag as int, copy_constraint(old_stack@, new_stack@, i)),
        ),
        forall|i: int|
            0 <= i < old(result)@.len() && !(offset <= i < offset + old_stack@.len())
                ==> final(result)@[i] == old(result)@[i],
        forall|i: int| 0 <= i < final(result)@.len() ==> final(result)@[i] < field::M,
{
    let ghost r0 = result@;
    let len = old_stack.len();
    let mut i: usize = 0;
    while i < len
        invariant
            i <= len,
            len == old_stack@.len(),
            old_stack@.len() == new_stack@.len(),
            offset + old_stack@.len() <= r0.len(),
            result@.len() == r0.len(),
            op_flag < field::M,
            forall|j: int| 0 <= j < r0.len() ==> r0[j] < field::M,
            forall|j: int| 0 <= j < old_stack@.len() ==> old_stack@[j] < field::M,
            forall|j: int| 0 <= j < new_stack@.len() ==> new_stack@[j] < field::M,
            forall|j: int| 0 <= j < i ==> result@[offset + j] == fadd(
                r0[offset + j] as int,
                fmul(op_flag as int, copy_constraint(old_stack@, new_stack@, j)),
            ),
            forall|j: int|
                0 <= j < r0.len() && !(offset <= j < offset + i) ==> result@[j] == r0[j],
            forall|j: int| 0 <= j < result@.len() ==> result@[j] < field::M,
        decreases len - i,
    {
        let v = are_equal(old_stack[i], new_stack[i]);
        proof {
            vstd::std_specs::vec::axiom_spec_len(result);
            assert(result@[offset + i] == r0[offset + i]);
        }
        agg_constraint(result, offset + i, op_flag, v);
        i = i + 1;
    }
}

} // verus!
