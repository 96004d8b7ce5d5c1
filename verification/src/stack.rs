//! The stack region of the execution trace: a column-major record of the
//! user stack (plus auxiliary scratch columns) across all cycles of a
//! program run, together with the per-opcode transition rules that fill it.
//!
//! Row `step + 1` of the trace is produced from row `step` by the opcode
//! executed at cycle `step`. Cells above the live stack depth are zero, the
//! depth never exceeds [`MAX_USER_STACK_DEPTH`], and the observed maximum
//! depth decides how many columns the finished trace keeps.

use vstd::prelude::*;
use crate::AUX_WIDTH;
use crate::HASH_STATE_WIDTH;
use crate::MAX_STACK_DEPTH;
use crate::MIN_STACK_DEPTH;
use crate::field;
use crate::field::fadd;
use crate::field::finv;
use crate::field::fmul;
use crate::field::fsub;
use crate::hash;
use crate::inputs::ProgramInputs;
use crate::utils::filled_vector;

verus! {

/// Fewest user-stack columns a trace carries.
pub const MIN_USER_STACK_DEPTH: usize = MIN_STACK_DEPTH - AUX_WIDTH;

/// Most user-stack slots an execution may ever occupy.
pub const MAX_USER_STACK_DEPTH: usize = MAX_STACK_DEPTH - AUX_WIDTH;

/// The machine state between cycles, as the specification sees it: a
/// fixed-width stack (cells above the live depth are zero), the two depth
/// counters, and the secret inputs not yet consumed (reversed, consumed
/// from the back).
pub ghost struct VmState {
    pub stack: Seq<u128>,
    pub depth: int,
    pub max_depth: int,
    pub secret_a: Seq<u128>,
    pub secret_b: Seq<u128>,
}

/// A sequence reversed back to front.
pub open spec fn reversed_seq(s: Seq<u128>) -> Seq<u128> {
    Seq::new(s.len(), |i: int| s[s.len() - 1 - i])
}

/// The machine state before the first cycle: public inputs on the stack,
/// secret inputs queued.
pub open spec fn vm_init(public: Seq<u128>, sa: Seq<u128>, sb: Seq<u128>) -> VmState {
    VmState {
        stack: Seq::new(
            MAX_USER_STACK_DEPTH as nat,
            |i: int| if i < public.len() { public[i] } else { 0 },
        ),
        depth: public.len() as int,
        max_depth: public.len() as int,
        secret_a: reversed_seq(sa),
        secret_b: reversed_seq(sb),
    }
}

/// A stack whose slots `start..start + k` hold `fresh`, followed by the old
/// slots `src_lo..src_lo + n` shifted to `start + k..`, zero above.
/// Every opcode's next row is an instance of this shape.
pub open spec fn vm_stack_row(fresh: Seq<u128>, st: Seq<u128>, src_lo: int, copied: int) -> Seq<
    u128,
> {
    Seq::new(
        MAX_USER_STACK_DEPTH as nat,
        |i: int|
            if i < fresh.len() {
                fresh[i]
            } else if i < fresh.len() + copied {
                st[i - fresh.len() + src_lo]
            } else {
                0
            },
    )
}

/// The updated greater-than / less-than latches and accumulators of CMP.
pub open spec fn vm_cmp_cells(st: Seq<u128>, a_bit: int, b_bit: int, step: int) -> Seq<u128> {
    let bit_gt = fmul(a_bit, fsub(1, b_bit));
    let bit_lt = fmul(b_bit, fsub(1, a_bit));
    let gt = st[2] as int;
    let lt = st[3] as int;
    let not_set = fmul(fsub(1, gt), fsub(1, lt));
    let power_of_two = field::fexp(2, (127 - (step % 128)) as nat);
    seq![
        a_bit as u128,
        b_bit as u128,
        fadd(gt, fmul(bit_gt, not_set)) as u128,
        fadd(lt, fmul(bit_lt, not_set)) as u128,
        fadd(st[4] as int, fmul(a_bit, power_of_two)) as u128,
        fadd(st[5] as int, fmul(b_bit, power_of_two)) as u128,
    ]
}

/// Whether executing `op` at cycle `step` is legal in state `s`.
pub open spec fn vm_op_valid(s: VmState, op: u128, step: int) -> bool {
    if op == crate::opcodes::BEGIN || op == crate::opcodes::NOOP {
        true
    } else if op == crate::opcodes::ASSERT {
        s.depth >= 1 && s.stack[0] == 1
    } else if op == crate::opcodes::READ {
        s.secret_a.len() > 0 && s.depth + 1 <= MAX_USER_STACK_DEPTH
    } else if op == crate::opcodes::READ2 {
        s.secret_a.len() > 0 && s.secret_b.len() > 0 && s.depth + 2 <= MAX_USER_STACK_DEPTH
    } else if op == crate::opcodes::DUP {
        s.depth >= 1 && s.depth + 1 <= MAX_USER_STACK_DEPTH
    } else if op == crate::opcodes::DUP2 {
        s.depth >= 2 && s.depth + 2 <= MAX_USER_STACK_DEPTH
    } else if op == crate::opcodes::DUP4 {
        s.depth >= 4 && s.depth + 4 <= MAX_USER_STACK_DEPTH
    } else if op == crate::opcodes::PAD2 {
        s.depth + 2 <= MAX_USER_STACK_DEPTH
    } else if op == crate::opcodes::DROP {
        s.depth >= 1
    } else if op == crate::opcodes::DROP4 {
        s.depth >= 4
    } else if op == crate::opcodes::SWAP {
        s.depth >= 2
    } else if op == crate::opcodes::SWAP2 {
        s.depth >= 4
    } else if op == crate::opcodes::SWAP4 {
        s.depth >= 8
    } else if op == crate::opcodes::ROLL4 {
        s.depth >= 4
    } else if op == crate::opcodes::ROLL8 {
        s.depth >= 8
    } else if op == crate::opcodes::CHOOSE {
        s.depth >= 3 && (s.stack[2] == 0 || s.stack[2] == 1)
    } else if op == crate::opcodes::CHOOSE2 {
        s.depth >= 6 && (s.stack[4] == 0 || s.stack[4] == 1)
    } else if op == crate::opcodes::ADD || op == crate::opcodes::MUL {
        s.depth >= 2
    } else if op == crate::opcodes::INV {
        s.depth >= 1 && s.stack[0] != 0
    } else if op == crate::opcodes::NEG {
        s.depth >= 1
    } else if op == crate::opcodes::NOT {
        s.depth >= 1 && (s.stack[0] == 0 || s.stack[0] == 1)
    } else if op == crate::opcodes::EQ {
        s.depth >= 2
    } else if op == crate::opcodes::CMP {
        &&& s.depth >= 8
        &&& s.secret_a.len() > 0
        &&& s.secret_b.len() > 0
        &&& (s.secret_a.last() == 0 || s.secret_a.last() == 1)
        &&& (s.secret_b.last() == 0 || s.secret_b.last() == 1)
    } else if op == crate::opcodes::HASHR {
        s.depth >= HASH_STATE_WIDTH
    } else {
        false
    }
}

/// The state after executing `op` (not PUSH) at cycle `step` in state `s`.
#[verifier::opaque]
pub open spec fn vm_op_step(s: VmState, op: u128, step: int) -> VmState {
    let st = s.stack;
    let d = s.depth;
    if op == crate::opcodes::BEGIN || op == crate::opcodes::NOOP {
        VmState { stack: vm_stack_row(seq![], st, 0, d), ..s }
    } else if op == crate::opcodes::ASSERT || op == crate::opcodes::DROP {
        VmState { stack: vm_stack_row(seq![], st, 1, d - 1), depth: d - 1, ..s }
    } else if op == crate::opcodes::READ {
        VmState {
            stack: vm_stack_row(seq![s.secret_a.last()], st, 0, d),
            depth: d + 1,
            max_depth: vm_grow_max(s.max_depth, d + 1),
            secret_a: s.secret_a.drop_last(),
            ..s
        }
    } else if op == crate::opcodes::READ2 {
        VmState {
            stack: vm_stack_row(seq![s.secret_b.last(), s.secret_a.last()], st, 0, d),
            depth: d + 2,
            max_depth: vm_grow_max(s.max_depth, d + 2),
            secret_a: s.secret_a.drop_last(),
            secret_b: s.secret_b.drop_last(),
            ..s
        }
    } else if op == crate::opcodes::DUP {
        VmState {
            stack: vm_stack_row(seq![st[0]], st, 0, d),
            depth: d + 1,
            max_depth: vm_grow_max(s.max_depth, d + 1),
            ..s
        }
    } else if op == crate::opcodes::DUP2 {
        VmState {
            stack: vm_stack_row(seq![st[0], st[1]], st, 0, d),
            depth: d + 2,
            max_depth: vm_grow_max(s.max_depth, d + 2),
            ..s
        }
    } else if op == crate::opcodes::DUP4 {
        VmState {
            stack: vm_stack_row(seq![st[0], st[1], st[2], st[3]], st, 0, d),
            depth: d + 4,
            max_depth: vm_grow_max(s.max_depth, d + 4),
            ..s
        }
    } else if op == crate::opcodes::PAD2 {
        VmState {
            stack: vm_stack_row(seq![0, 0], st, 0, d),
            depth: d + 2,
            max_depth: vm_grow_max(s.max_depth, d + 2),
            ..s
        }
    } else if op == crate::opcodes::DROP4 {
        VmState { stack: vm_stack_row(seq![], st, 4, d - 4), depth: d - 4, ..s }
    } else if op == crate::opcodes::SWAP {
        VmState { stack: vm_stack_row(seq![st[1], st[0]], st, 2, d - 2), ..s }
    } else if op == crate::opcodes::SWAP2 {
        VmState { stack: vm_stack_row(seq![st[2], st[3], st[0], st[1]], st, 4, d - 4), ..s }
    } else if op == crate::opcodes::SWAP4 {
        VmState {
            stack: vm_stack_row(
                seq![st[4], st[5], st[6], st[7], st[0], st[1], st[2], st[3]],
                st,
                8,
                d - 8,
            ),
            ..s
        }
    } else if op == crate::opcodes::ROLL4 {
        VmState { stack: vm_stack_row(seq![st[3], st[0], st[1], st[2]], st, 4, d - 4), ..s }
    } else if op == crate::opcodes::ROLL8 {
        VmState {
            stack: vm_stack_row(
                seq![st[7], st[0], st[1], st[2], st[3], st[4], st[5], st[6]],
                st,
                8,
                d - 8,
            ),
            ..s
        }
    } else if op == crate::opcodes::CHOOSE {
        VmState {
            stack: vm_stack_row(
                seq![if st[2] == 1 { st[0] } else { st[1] }],
                st,
                3,
                d - 3,
            ),
            depth: d - 2,
            ..s
        }
    } else if op == crate::opcodes::CHOOSE2 {
        VmState {
            stack: vm_stack_row(
                seq![
                    if st[4] == 1 { st[0] } else { st[2] },
                    if st[4] == 1 { st[1] } else { st[3] },
                ],
                st,
                6,
                d - 6,
            ),
            depth: d - 4,
            ..s
        }
    } else if op == crate::opcodes::ADD {
        VmState {
            stack: vm_stack_row(seq![fadd(st[0] as int, st[1] as int) as u128], st, 2, d - 2),
            depth: d - 1,
            ..s
        }
    } else if op == crate::opcodes::MUL {
        VmState {
            stack: vm_stack_row(seq![fmul(st[0] as int, st[1] as int) as u128], st, 2, d - 2),
            depth: d - 1,
            ..s
        }
    } else if op == crate::opcodes::INV {
        VmState { stack: vm_stack_row(seq![finv(st[0] as int) as u128], st, 1, d - 1), ..s }
    } else if op == crate::opcodes::NEG {
        VmState { stack: vm_stack_row(seq![field::fneg(st[0] as int) as u128], st, 1, d - 1), ..s }
    } else if op == crate::opcodes::NOT {
        VmState { stack: vm_stack_row(seq![fsub(1, st[0] as int) as u128], st, 1, d - 1), ..s }
    } else if op == crate::opcodes::EQ {
        VmState {
            stack: vm_stack_row(
                seq![if st[0] == st[1] { 1u128 } else { 0u128 }],
                st,
                2,
                d - 2,
            ),
            depth: d - 1,
            ..s
        }
    } else if op == crate::opcodes::CMP {
        VmState {
            stack: vm_stack_row(
                vm_cmp_cells(st, s.secret_a.last() as int, s.secret_b.last() as int, step),
                st,
                6,
                d - 6,
            ),
            secret_a: s.secret_a.drop_last(),
            secret_b: s.secret_b.drop_last(),
            ..s
        }
    } else if op == crate::opcodes::HASHR {
        VmState { stack: vm_stack_row(hash::round(st, step), st, 6, d - 6), ..s }
    } else {
        s
    }
}

/// The observed maximum after the depth reaches `d`.
pub open spec fn vm_grow_max(max_depth: int, d: int) -> int {
    if d > max_depth {
        d
    } else {
        max_depth
    }
}

/// The state after PUSH places `value` on the stack.
pub open spec fn vm_push_step(s: VmState, value: u128) -> VmState {
    VmState {
        stack: vm_stack_row(seq![value], s.stack, 0, s.depth),
        depth: s.depth + 1,
        max_depth: vm_grow_max(s.max_depth, s.depth + 1),
        ..s
    }
}

/// Whether program slot `j` holds an immediate argument of a PUSH rather
/// than an opcode.
pub open spec fn vm_is_imm(program: Seq<u128>, j: int) -> bool
    decreases j,
{
    j > 0 && !vm_is_imm(program, j - 1) && program[j - 1] == crate::opcodes::PUSH
}

/// The machine state when row `r` of the trace is recorded. Row `r` is
/// produced by the action at slot `r - 1`: the opcode there, the PUSH
/// consuming the following slot, or the forced NOOP standing in an
/// immediate slot.
#[verifier::opaque]
pub open spec fn vm_state_at(program: Seq<u128>, init: VmState, r: int) -> VmState
    decreases r,
{
    if r <= 0 {
        init
    } else {
        let prev = vm_state_at(program, init, r - 1);
        if vm_is_imm(program, r - 1) {
            vm_op_step(prev, crate::opcodes::NOOP, r - 1)
        } else if program[r - 1] == crate::opcodes::PUSH {
            vm_push_step(prev, program[r])
        } else {
            vm_op_step(prev, program[r - 1], r - 1)
        }
    }
}

/// Whether the action at program slot `j` is legal in the state it meets.
pub open spec fn vm_step_ok(program: Seq<u128>, init: VmState, j: int) -> bool {
    if vm_is_imm(program, j) {
        true
    } else if program[j] == crate::opcodes::PUSH {
        j < program.len() - 2 && vm_state_at(program, init, j).depth + 1 <= MAX_USER_STACK_DEPTH
    } else {
        vm_op_valid(vm_state_at(program, init, j), program[j], j)
    }
}

/// A full run of the program is legal: every step is, and both secret
/// queues are exhausted at the end.
pub open spec fn vm_ok(program: Seq<u128>, init: VmState) -> bool {
    &&& forall|j: int| 0 <= j < program.len() - 1 ==> #[trigger] vm_step_ok(program, init, j)
    &&& vm_state_at(program, init, program.len() - 1).secret_a.len() == 0
    &&& vm_state_at(program, init, program.len() - 1).secret_b.len() == 0
}

/// The equality witness EQ records in auxiliary column 0 of its own row.
pub open spec fn vm_eq_aux(st: Seq<u128>) -> u128 {
    if st[0] == st[1] {
        1u128
    } else {
        finv(fsub(st[0] as int, st[1] as int)) as u128
    }
}

/// The value of auxiliary column 0 in row `r`: EQ's witness where slot `r`
/// holds an EQ opcode, zero everywhere else.
pub open spec fn vm_aux0_at(program: Seq<u128>, init: VmState, r: int) -> u128 {
    if 0 <= r < program.len() - 1 && !vm_is_imm(program, r) && program[r] == crate::opcodes::EQ {
        vm_eq_aux(vm_state_at(program, init, r).stack)
    } else {
        0
    }
}

/// The invariant of specification-level machine states: a full-width
/// stack, zero above the live depth, canonical cells and secret inputs,
/// and ordered, bounded depths.
pub open spec fn vm_inv(s: VmState) -> bool {
    &&& s.stack.len() == MAX_USER_STACK_DEPTH
    &&& 0 <= s.depth
    &&& s.depth <= s.max_depth
    &&& s.max_depth <= MAX_USER_STACK_DEPTH
    &&& forall|c: int| s.depth <= c < s.stack.len() ==> #[trigger] s.stack[c] == 0
    &&& forall|c: int| 0 <= c < s.stack.len() ==> #[trigger] s.stack[c] < field::M
    &&& forall|i: int| 0 <= i < s.secret_a.len() ==> #[trigger] s.secret_a[i] < field::M
    &&& forall|i: int| 0 <= i < s.secret_b.len() ==> #[trigger] s.secret_b[i] < field::M
}

/// A stack row assembled from canonical fresh cells and a canonical source
/// is itself canonical and zero above the new depth.
proof fn lemma_vm_stack_row_inv(
    fresh: Seq<u128>,
    st: Seq<u128>,
    src_lo: int,
    copied: int,
    depth: int,
)
    requires
        st.len() == MAX_USER_STACK_DEPTH,
        forall|c: int| 0 <= c < st.len() ==> #[trigger] st[c] < field::M,
        forall|c: int| 0 <= c < fresh.len() ==> #[trigger] fresh[c] < field::M,
        copied >= 0,
        src_lo >= 0,
        src_lo + copied <= MAX_USER_STACK_DEPTH,
        depth == fresh.len() + copied,
        depth <= MAX_USER_STACK_DEPTH,
    ensures
        vm_stack_row(fresh, st, src_lo, copied).len() == MAX_USER_STACK_DEPTH,
        forall|c: int|
            depth <= c < MAX_USER_STACK_DEPTH ==> #[trigger] vm_stack_row(
                fresh,
                st,
                src_lo,
                copied,
            )[c] == 0,
        forall|c: int|
            0 <= c < MAX_USER_STACK_DEPTH ==> #[trigger] vm_stack_row(fresh, st, src_lo, copied)[c]
                < field::M,
{
}

/// A legal opcode step preserves the machine-state invariant and never
/// shrinks the observed maximum depth.
proof fn lemma_vm_op_step_inv(s: VmState, op: u128, step: int)
    requires
        vm_inv(s),
        vm_op_valid(s, op, step),
    ensures
        vm_inv(vm_op_step(s, op, step)),
        vm_op_step(s, op, step).max_depth >= s.max_depth,
{
    if op == crate::opcodes::NOOP {
        lemma_vm_op_step_inv_noop(s, step);
    } else if op == crate::opcodes::BEGIN {
        lemma_vm_op_step_inv_begin(s, step);
    } else if op == crate::opcodes::ASSERT {
        lemma_vm_op_step_inv_assert(s, step);
    } else if op == crate::opcodes::DROP {
        lemma_vm_op_step_inv_drop(s, step);
    } else if op == crate::opcodes::READ {
        lemma_vm_op_step_inv_read(s, step);
    } else if op == crate::opcodes::READ2 {
        lemma_vm_op_step_inv_read2(s, step);
    } else if op == crate::opcodes::DUP {
        lemma_vm_op_step_inv_dup(s, step);
    } else if op == crate::opcodes::DUP2 {
        lemma_vm_op_step_inv_dup2(s, step);
    } else if op == crate::opcodes::DUP4 {
        lemma_vm_op_step_inv_dup4(s, step);
    } else if op == crate::opcodes::PAD2 {
        lemma_vm_op_step_inv_pad2(s, step);
    } else if op == crate::opcodes::DROP4 {
        lemma_vm_op_step_inv_drop4(s, step);
    } else if op == crate::opcodes::SWAP {
        lemma_vm_op_step_inv_swap(s, step);
    } else if op == crate::opcodes::SWAP2 {
        lemma_vm_op_step_inv_swap2(s, step);
    } else if op == crate::opcodes::SWAP4 {
        lemma_vm_op_step_inv_swap4(s, step);
    } else if op == crate::opcodes::ROLL4 {
        lemma_vm_op_step_inv_roll4(s, step);
    } else if op == crate::opcodes::ROLL8 {
        lemma_vm_op_step_inv_roll8(s, step);
    } else if op == crate::opcodes::CHOOSE {
        lemma_vm_op_step_inv_choose(s, step);
    } else if op == crate::opcodes::CHOOSE2 {
        lemma_vm_op_step_inv_choose2(s, step);
    } else if op == crate::opcodes::ADD {
        lemma_vm_op_step_inv_add(s, step);
    } else if op == crate::opcodes::MUL {
        lemma_vm_op_step_inv_mul(s, step);
    } else if op == crate::opcodes::INV {
        lemma_vm_op_step_inv_inv(s, step);
    } else if op == crate::opcodes::NEG {
        lemma_vm_op_step_inv_neg(s, step);
    } else if op == crate::opcodes::NOT {
        lemma_vm_op_step_inv_not(s, step);
    } else if op == crate::opcodes::EQ {
        lemma_vm_op_step_inv_eq(s, step);
    } else if op == crate::opcodes::CMP {
        lemma_vm_op_step_inv_cmp(s, step);
    } else if op == crate::opcodes::HASHR {
        lemma_vm_op_step_inv_hashr(s, step);
    }
}

/// The invariant lemma for the NOOP opcode.
proof fn lemma_vm_op_step_inv_noop(s: VmState, step: int)
    requires
        vm_inv(s),
        vm_op_valid(s, crate::opcodes::NOOP, step),
    ensures
        vm_inv(vm_op_step(s, crate::opcodes::NOOP, step)),
        vm_op_step(s, crate::opcodes::NOOP, step).max_depth >= s.max_depth,
{
    reveal(vm_op_step);
        lemma_vm_stack_row_inv(seq![], s.stack, 0, s.depth, s.depth);
}

/// The invariant lemma for the BEGIN opcode.
proof fn lemma_vm_op_step_inv_begin(s: VmState, step: int)
    requires
        vm_inv(s),
        vm_op_valid(s, crate::opcodes::BEGIN, step),
    ensures
        vm_inv(vm_op_step(s, crate::opcodes::BEGIN, step)),
        vm_op_step(s, crate::opcodes::BEGIN, step).max_depth >= s.max_depth,
{
    reveal(vm_op_step);
        lemma_vm_stack_row_inv(seq![], s.stack, 0, s.depth, s.depth);
}

/// The invariant lemma for the ASSERT opcode.
proof fn lemma_vm_op_step_inv_assert(s: VmState, step: int)
    requires
        vm_inv(s),
        vm_op_valid(s, crate::opcodes::ASSERT, step),
    ensures
        vm_inv(vm_op_step(s, crate::opcodes::ASSERT, step)),
        vm_op_step(s, crate::opcodes::ASSERT, step).max_depth >= s.max_depth,
{
    reveal(vm_op_step);
        lemma_vm_stack_row_inv(seq![], s.stack, 1, s.depth - 1, s.depth - 1);
}

/// The invariant lemma for the DROP opcode.
proof fn lemma_vm_op_step_inv_drop(s: VmState, step: int)
    requires
        vm_inv(s),
        vm_op_valid(s, crate::opcodes::DROP, step),
    ensures
        vm_inv(vm_op_step(s, crate::opcodes::DROP, step)),
        vm_op_step(s, crate::opcodes::DROP, step).max_depth >= s.max_depth,
{
    reveal(vm_op_step);
        lemma_vm_stack_row_inv(seq![], s.stack, 1, s.depth - 1, s.depth - 1);
}

/// The invariant lemma for the READ opcode.
proof fn lemma_vm_op_step_inv_read(s: VmState, step: int)
    requires
        vm_inv(s),
        vm_op_valid(s, crate::opcodes::READ, step),
    ensures
        vm_inv(vm_op_step(s, crate::opcodes::READ, step)),
        vm_op_step(s, crate::opcodes::READ, step).max_depth >= s.max_depth,
{
    reveal(vm_op_step);
        lemma_vm_stack_row_inv(seq![s.secret_a.last()], s.stack, 0, s.depth, s.depth + 1);
}

/// The invariant lemma for the READ2 opcode.
proof fn lemma_vm_op_step_inv_read2(s: VmState, step: int)
    requires
        vm_inv(s),
        vm_op_valid(s, crate::opcodes::READ2, step),
    ensures
        vm_inv(vm_op_step(s, crate::opcodes::READ2, step)),
        vm_op_step(s, crate::opcodes::READ2, step).max_depth >= s.max_depth,
{
    reveal(vm_op_step);
        lemma_vm_stack_row_inv(seq![s.secret_b.last(), s.secret_a.last()], s.stack, 0, s.depth, s.depth + 2);
}

/// The invariant lemma for the DUP opcode.
proof fn lemma_vm_op_step_inv_dup(s: VmState, step: int)
    requires
        vm_inv(s),
        vm_op_valid(s, crate::opcodes::DUP, step),
    ensures
        vm_inv(vm_op_step(s, crate::opcodes::DUP, step)),
        vm_op_step(s, crate::opcodes::DUP, step).max_depth >= s.max_depth,
{
    reveal(vm_op_step);
        lemma_vm_stack_row_inv(seq![s.stack[0]], s.stack, 0, s.depth, s.depth + 1);
}

/// The invariant lemma for the DUP2 opcode.
proof fn lemma_vm_op_step_inv_dup2(s: VmState, step: int)
    requires
        vm_inv(s),
        vm_op_valid(s, crate::opcodes::DUP2, step),
    ensures
        vm_inv(vm_op_step(s, crate::opcodes::DUP2, step)),
        vm_op_step(s, crate::opcodes::DUP2, step).max_depth >= s.max_depth,
{
    reveal(vm_op_step);
        lemma_vm_stack_row_inv(seq![s.stack[0], s.stack[1]], s.stack, 0, s.depth, s.depth + 2);
}

/// The invariant lemma for the DUP4 opcode.
proof fn lemma_vm_op_step_inv_dup4(s: VmState, step: int)
    requires
        vm_inv(s),
        vm_op_valid(s, crate::opcodes::DUP4, step),
    ensures
        vm_inv(vm_op_step(s, crate::opcodes::DUP4, step)),
        vm_op_step(s, crate::opcodes::DUP4, step).max_depth >= s.max_depth,
{
    reveal(vm_op_step);
        lemma_vm_stack_row_inv(seq![s.stack[0], s.stack[1], s.stack[2], s.stack[3]], s.stack, 0, s.depth, s.depth + 4);
}

/// The invariant lemma for the PAD2 opcode.
proof fn lemma_vm_op_step_inv_pad2(s: VmState, step: int)
    requires
        vm_inv(s),
        vm_op_valid(s, crate::opcodes::PAD2, step),
    ensures
        vm_inv(vm_op_step(s, crate::opcodes::PAD2, step)),
        vm_op_step(s, crate::opcodes::PAD2, step).max_depth >= s.max_depth,
{
    reveal(vm_op_step);
        lemma_vm_stack_row_inv(seq![0, 0], s.stack, 0, s.depth, s.depth + 2);
}

/// The invariant lemma for the DROP4 opcode.
proof fn lemma_vm_op_step_inv_drop4(s: VmState, step: int)
    requires
        vm_inv(s),
        vm_op_valid(s, crate::opcodes::DROP4, step),
    ensures
        vm_inv(vm_op_step(s, crate::opcodes::DROP4, step)),
        vm_op_step(s, crate::opcodes::DROP4, step).max_depth >= s.max_depth,
{
    reveal(vm_op_step);
        lemma_vm_stack_row_inv(seq![], s.stack, 4, s.depth - 4, s.depth - 4);
}

/// The invariant lemma for the SWAP opcode.
proof fn lemma_vm_op_step_inv_swap(s: VmState, step: int)
    requires
        vm_inv(s),
        vm_op_valid(s, crate::opcodes::SWAP, step),
    ensures
        vm_inv(vm_op_step(s, crate::opcodes::SWAP, step)),
        vm_op_step(s, crate::opcodes::SWAP, step).max_depth >= s.max_depth,
{
    reveal(vm_op_step);
        lemma_vm_stack_row_inv(seq![s.stack[1], s.stack[0]], s.stack, 2, s.depth - 2, s.depth);
}

/// The invariant lemma for the SWAP2 opcode.
proof fn lemma_vm_op_step_inv_swap2(s: VmState, step: int)
    requires
        vm_inv(s),
        vm_op_valid(s, crate::opcodes::SWAP2, step),
    ensures
        vm_inv(vm_op_step(s, crate::opcodes::SWAP2, step)),
        vm_op_step(s, crate::opcodes::SWAP2, step).max_depth >= s.max_depth,
{
    reveal(vm_op_step);
        lemma_vm_stack_row_inv(seq![s.stack[2], s.stack[3], s.stack[0], s.stack[1]], s.stack, 4, s.depth - 4, s.depth);
}

/// The invariant lemma for the SWAP4 opcode.
#[verifier::rlimit(100)]
proof fn lemma_vm_op_step_inv_swap4(s: VmState, step: int)
    requires
        vm_inv(s),
        vm_op_valid(s, crate::opcodes::SWAP4, step),
    ensures
        vm_inv(vm_op_step(s, crate::opcodes::SWAP4, step)),
        vm_op_step(s, crate::opcodes::SWAP4, step).max_depth >= s.max_depth,
{
    reveal(vm_op_step);
        lemma_vm_stack_row_inv(
            seq![s.stack[4], s.stack[5], s.stack[6], s.stack[7], s.stack[0], s.stack[1], s.stack[2], s.stack[3]],
            s.stack,
            8,
            s.depth - 8,
            s.depth,
        );
}

/// The invariant lemma for the ROLL4 opcode.
proof fn lemma_vm_op_step_inv_roll4(s: VmState, step: int)
    requires
        vm_inv(s),
        vm_op_valid(s, crate::opcodes::ROLL4, step),
    ensures
        vm_inv(vm_op_step(s, crate::opcodes::ROLL4, step)),
        vm_op_step(s, crate::opcodes::ROLL4, step).max_depth >= s.max_depth,
{
    reveal(vm_op_step);
        lemma_vm_stack_row_inv(seq![s.stack[3], s.stack[0], s.stack[1], s.stack[2]], s.stack, 4, s.depth - 4, s.depth);
}

/// The invariant lemma for the ROLL8 opcode.
#[verifier::rlimit(100)]
proof fn lemma_vm_op_step_inv_roll8(s: VmState, step: int)
    requires
        vm_inv(s),
        vm_op_valid(s, crate::opcodes::ROLL8, step),
    ensures
        vm_inv(vm_op_step(s, crate::opcodes::ROLL8, step)),
        vm_op_step(s, crate::opcodes::ROLL8, step).max_depth >= s.max_depth,
{
    reveal(vm_op_step);
        lemma_vm_stack_row_inv(
            seq![s.stack[7], s.stack[0], s.stack[1], s.stack[2], s.stack[3], s.stack[4], s.stack[5], s.stack[6]],
            s.stack,
            8,
            s.depth - 8,
            s.depth,
        );
}

/// The invariant lemma for the CHOOSE opcode.
proof fn lemma_vm_op_step_inv_choose(s: VmState, step: int)
    requires
        vm_inv(s),
        vm_op_valid(s, crate::opcodes::CHOOSE, step),
    ensures
        vm_inv(vm_op_step(s, crate::opcodes::CHOOSE, step)),
        vm_op_step(s, crate::opcodes::CHOOSE, step).max_depth >= s.max_depth,
{
    reveal(vm_op_step);
        lemma_vm_stack_row_inv(
            seq![if s.stack[2] == 1 { s.stack[0] } else { s.stack[1] }],
            s.stack,
            3,
            s.depth - 3,
            s.depth - 2,
        );
}

/// The invariant lemma for the CHOOSE2 opcode.
#[verifier::rlimit(100)]
proof fn lemma_vm_op_step_inv_choose2(s: VmState, step: int)
    requires
        vm_inv(s),
        vm_op_valid(s, crate::opcodes::CHOOSE2, step),
    ensures
        vm_inv(vm_op_step(s, crate::opcodes::CHOOSE2, step)),
        vm_op_step(s, crate::opcodes::CHOOSE2, step).max_depth >= s.max_depth,
{
    reveal(vm_op_step);
        lemma_vm_stack_row_inv(
            seq![
                if s.stack[4] == 1 { s.stack[0] } else { s.stack[2] },
                if s.stack[4] == 1 { s.stack[1] } else { s.stack[3] },
            ],
            s.stack,
            6,
            s.depth - 6,
            s.depth - 4,
        );
}

/// The invariant lemma for the ADD opcode.
proof fn lemma_vm_op_step_inv_add(s: VmState, step: int)
    requires
        vm_inv(s),
        vm_op_valid(s, crate::opcodes::ADD, step),
    ensures
        vm_inv(vm_op_step(s, crate::opcodes::ADD, step)),
        vm_op_step(s, crate::opcodes::ADD, step).max_depth >= s.max_depth,
{
    reveal(vm_op_step);
        field::lemma_mod_in_field(s.stack[0] as int + s.stack[1] as int);
        lemma_vm_stack_row_inv(
            seq![fadd(s.stack[0] as int, s.stack[1] as int) as u128],
            s.stack,
            2,
            s.depth - 2,
            s.depth - 1,
        );
}

/// The invariant lemma for the MUL opcode.
proof fn lemma_vm_op_step_inv_mul(s: VmState, step: int)
    requires
        vm_inv(s),
        vm_op_valid(s, crate::opcodes::MUL, step),
    ensures
        vm_inv(vm_op_step(s, crate::opcodes::MUL, step)),
        vm_op_step(s, crate::opcodes::MUL, step).max_depth >= s.max_depth,
{
    reveal(vm_op_step);
        field::lemma_mod_in_field(s.stack[0] as int * s.stack[1] as int);
        lemma_vm_stack_row_inv(
            seq![fmul(s.stack[0] as int, s.stack[1] as int) as u128],
            s.stack,
            2,
            s.depth - 2,
            s.depth - 1,
        );
}

/// The invariant lemma for the INV opcode.
proof fn lemma_vm_op_step_inv_inv(s: VmState, step: int)
    requires
        vm_inv(s),
        vm_op_valid(s, crate::opcodes::INV, step),
    ensures
        vm_inv(vm_op_step(s, crate::opcodes::INV, step)),
        vm_op_step(s, crate::opcodes::INV, step).max_depth >= s.max_depth,
{
    reveal(vm_op_step);
        field::lemma_mod_in_field(
            vstd::arithmetic::power::pow(s.stack[0] as int, (field::M - 2) as nat),
        );
        lemma_vm_stack_row_inv(seq![finv(s.stack[0] as int) as u128], s.stack, 1, s.depth - 1, s.depth);
}

/// The invariant lemma for the NEG opcode.
proof fn lemma_vm_op_step_inv_neg(s: VmState, step: int)
    requires
        vm_inv(s),
        vm_op_valid(s, crate::opcodes::NEG, step),
    ensures
        vm_inv(vm_op_step(s, crate::opcodes::NEG, step)),
        vm_op_step(s, crate::opcodes::NEG, step).max_depth >= s.max_depth,
{
    reveal(vm_op_step);
        field::lemma_mod_in_field(0 - s.stack[0] as int);
        lemma_vm_stack_row_inv(seq![field::fneg(s.stack[0] as int) as u128], s.stack, 1, s.depth - 1, s.depth);
}

/// The invariant lemma for the NOT opcode.
proof fn lemma_vm_op_step_inv_not(s: VmState, step: int)
    requires
        vm_inv(s),
        vm_op_valid(s, crate::opcodes::NOT, step),
    ensures
        vm_inv(vm_op_step(s, crate::opcodes::NOT, step)),
        vm_op_step(s, crate::opcodes::NOT, step).max_depth >= s.max_depth,
{
    reveal(vm_op_step);
        field::lemma_mod_in_field(1 - s.stack[0] as int);
        lemma_vm_stack_row_inv(seq![fsub(1, s.stack[0] as int) as u128], s.stack, 1, s.depth - 1, s.depth);
}

/// The invariant lemma for the EQ opcode.
proof fn lemma_vm_op_step_inv_eq(s: VmState, step: int)
    requires
        vm_inv(s),
        vm_op_valid(s, crate::opcodes::EQ, step),
    ensures
        vm_inv(vm_op_step(s, crate::opcodes::EQ, step)),
        vm_op_step(s, crate::opcodes::EQ, step).max_depth >= s.max_depth,
{
    reveal(vm_op_step);
        lemma_vm_stack_row_inv(
            seq![if s.stack[0] == s.stack[1] { 1u128 } else { 0u128 }],
            s.stack,
            2,
            s.depth - 2,
            s.depth - 1,
        );
}

/// The invariant lemma for the CMP opcode.
#[verifier::rlimit(100)]
proof fn lemma_vm_op_step_inv_cmp(s: VmState, step: int)
    requires
        vm_inv(s),
        vm_op_valid(s, crate::opcodes::CMP, step),
    ensures
        vm_inv(vm_op_step(s, crate::opcodes::CMP, step)),
        vm_op_step(s, crate::opcodes::CMP, step).max_depth >= s.max_depth,
{
    reveal(vm_op_step);
        let a_bit = s.secret_a.last() as int;
        let b_bit = s.secret_b.last() as int;
        let st = s.stack;
        let cells = vm_cmp_cells(st, a_bit, b_bit, step);
        assert forall|c: int| 0 <= c < cells.len() implies #[trigger] cells[c] < field::M by {
            let bit_gt = fmul(a_bit, fsub(1, b_bit));
            let bit_lt = fmul(b_bit, fsub(1, a_bit));
            let gt = st[2] as int;
            let lt = st[3] as int;
            let not_set = fmul(fsub(1, gt), fsub(1, lt));
            let power_of_two = field::fexp(2, (127 - (step % 128)) as nat);
            field::lemma_mod_in_field(gt + fmul(bit_gt, not_set));
            field::lemma_mod_in_field(lt + fmul(bit_lt, not_set));
            field::lemma_mod_in_field(st[4] as int + fmul(a_bit, power_of_two));
            field::lemma_mod_in_field(st[5] as int + fmul(b_bit, power_of_two));
        }
        lemma_vm_stack_row_inv(cells, st, 6, s.depth - 6, s.depth);
}

/// The invariant lemma for the HASHR opcode.
#[verifier::rlimit(100)]
proof fn lemma_vm_op_step_inv_hashr(s: VmState, step: int)
    requires
        vm_inv(s),
        vm_op_valid(s, crate::opcodes::HASHR, step),
    ensures
        vm_inv(vm_op_step(s, crate::opcodes::HASHR, step)),
        vm_op_step(s, crate::opcodes::HASHR, step).max_depth >= s.max_depth,
{
    reveal(vm_op_step);
        hash::lemma_round_in_field(s.stack, step);
        lemma_vm_stack_row_inv(hash::round(s.stack, step), s.stack, 6, s.depth - 6, s.depth);
}

/// A PUSH of a canonical value preserves the machine-state invariant.
proof fn lemma_vm_push_step_inv(s: VmState, value: u128)
    requires
        vm_inv(s),
        s.depth + 1 <= MAX_USER_STACK_DEPTH,
        value < field::M,
    ensures
        vm_inv(vm_push_step(s, value)),
        vm_push_step(s, value).max_depth >= s.max_depth,
{
    lemma_vm_stack_row_inv(seq![value], s.stack, 0, s.depth, s.depth + 1);
}

/// Along a legal run, every intermediate machine state satisfies the
/// invariant.
proof fn lemma_vm_state_at_inv(program: Seq<u128>, init: VmState, r: int)
    requires
        vm_inv(init),
        forall|k: int| 0 <= k < program.len() ==> #[trigger] program[k] < field::M,
        forall|j: int| 0 <= j < program.len() - 1 ==> #[trigger] vm_step_ok(program, init, j),
        0 <= r <= program.len() - 1,
    ensures
        vm_inv(vm_state_at(program, init, r)),
    decreases r,
{
    reveal(vm_state_at);
    if r > 0 {
        lemma_vm_state_at_inv(program, init, r - 1);
        let prev = vm_state_at(program, init, r - 1);
        assert(vm_step_ok(program, init, r - 1));
        if vm_is_imm(program, r - 1) {
            lemma_vm_op_step_inv(prev, crate::opcodes::NOOP, r - 1);
        } else if program[r - 1] == crate::opcodes::PUSH {
            lemma_vm_push_step_inv(prev, program[r]);
        } else {
            lemma_vm_op_step_inv(prev, program[r - 1], r - 1);
        }
    }
}

/// Along a legal run, every state up to row `r` satisfies the invariant
/// and the observed maximum depth grows monotonically.
proof fn lemma_vm_history(program: Seq<u128>, init: VmState, r: int)
    requires
        vm_inv(init),
        forall|k: int| 0 <= k < program.len() ==> #[trigger] program[k] < field::M,
        forall|j: int| 0 <= j < program.len() - 1 ==> #[trigger] vm_step_ok(program, init, j),
        0 <= r <= program.len() - 1,
    ensures
        forall|q: int|
            0 <= q <= r ==> vm_inv(#[trigger] vm_state_at(program, init, q)) && vm_state_at(
                program,
                init,
                q,
            ).max_depth <= vm_state_at(program, init, r).max_depth,
    decreases r,
{
    reveal(vm_state_at);
    lemma_vm_state_at_inv(program, init, r);
    if r > 0 {
        lemma_vm_history(program, init, r - 1);
        let prev = vm_state_at(program, init, r - 1);
        assert(vm_step_ok(program, init, r - 1));
        if vm_is_imm(program, r - 1) {
            lemma_vm_op_step_inv(prev, crate::opcodes::NOOP, r - 1);
        } else if program[r - 1] == crate::opcodes::PUSH {
            lemma_vm_push_step_inv(prev, program[r]);
        } else {
            lemma_vm_op_step_inv(prev, program[r - 1], r - 1);
        }
    }
}

/// In every row up to `r`, the stack columns at or above the maximum
/// depth observed by row `r` are still zero.
proof fn lemma_vm_columns_blank(program: Seq<u128>, init: VmState, r: int)
    requires
        vm_inv(init),
        forall|k: int| 0 <= k < program.len() ==> #[trigger] program[k] < field::M,
        forall|j: int| 0 <= j < program.len() - 1 ==> #[trigger] vm_step_ok(program, init, j),
        0 <= r <= program.len() - 1,
    ensures
        forall|q: int, c: int|
            0 <= q <= r && vm_state_at(program, init, r).max_depth <= c < MAX_USER_STACK_DEPTH
                ==> #[trigger] vm_state_at(program, init, q).stack[c] == 0,
{
    lemma_vm_history(program, init, r);
    assert forall|q: int, c: int|
        0 <= q <= r && vm_state_at(program, init, r).max_depth <= c
            < MAX_USER_STACK_DEPTH implies #[trigger] vm_state_at(program, init, q).stack[c]
        == 0 by {
        assert(vm_inv(vm_state_at(program, init, q)));
        assert(vm_state_at(program, init, q).max_depth <= vm_state_at(
            program,
            init,
            r,
        ).max_depth);
    }
}

/// Row `s` of the builder equals the stack of the given machine state on
/// every allocated column.
spec fn row_matches(stack: StackTrace, st: VmState, s: int) -> bool {
    forall|cc: int| 0 <= cc < stack.width() ==> #[trigger] stack.user_cell(cc, s) == st.stack[cc]
}

/// Everything the trace-building loop maintains at slot `i`: the builder's
/// counters and secret queues mirror the specification state, every row up
/// to `i` equals the corresponding specification row, the later rows are
/// still blank, and the auxiliary columns carry exactly the witnesses of
/// the steps already taken.
spec fn trace_build_inv(
    stack: StackTrace,
    program: Seq<u128>,
    init: VmState,
    isd: int,
    i: int,
) -> bool {
    &&& 0 <= i <= program.len() - 1
    &&& program.len() > 1
    &&& vm_inv(init)
    &&& MIN_USER_STACK_DEPTH <= isd <= MAX_USER_STACK_DEPTH
    &&& isd >= init.max_depth
    &&& forall|k: int| 0 <= k < program.len() ==> #[trigger] program[k] < field::M
    &&& forall|j: int| 0 <= j < program.len() - 1 ==> #[trigger] vm_step_ok(program, init, j)
    &&& stack.well_formed()
    &&& stack.trace_len() == program.len()
    &&& stack.depth == vm_state_at(program, init, i).depth
    &&& stack.max_depth == vm_state_at(program, init, i).max_depth
    &&& stack.secret_inputs_a@ == vm_state_at(program, init, i).secret_a
    &&& stack.secret_inputs_b@ == vm_state_at(program, init, i).secret_b
    &&& stack.width() == (if vm_state_at(program, init, i).max_depth > isd {
        vm_state_at(program, init, i).max_depth
    } else {
        isd
    })
    &&& forall|s: int|
        0 <= s <= i ==> #[trigger] row_matches(stack, vm_state_at(program, init, s), s)
    &&& forall|s: int| i < s < program.len() ==> #[trigger] stack.row_clear(s)
    &&& forall|s: int|
        0 <= s < i ==> #[trigger] stack.aux_cell(0, s) == vm_aux0_at(program, init, s)
    &&& forall|s: int| i <= s < program.len() ==> #[trigger] stack.aux_cell(0, s) == 0
    &&& forall|s: int| 0 <= s < program.len() ==> #[trigger] stack.aux_cell(1, s) == 0
}

/// The row facts of [`lemma_build_noop`]: every earlier row keeps matching the
/// machine run, row `pos + 1` now matches it too, and the rows past it
/// are still blank.
#[verifier::rlimit(100)]
proof fn lemma_build_noop_rows(
    pre: StackTrace,
    post: StackTrace,
    program: Seq<u128>,
    init: VmState,
    isd: int,
    pos: int,
)
    requires
        trace_build_inv(pre, program, init, isd, pos),
        !vm_is_imm(program, pos),
        0 <= pos < program.len() - 1,
        program[pos] == crate::opcodes::BEGIN || program[pos] == crate::opcodes::NOOP,
        post.well_formed(),
        post.depth == pre.depth,
        post.max_depth == pre.max_depth,
        post.secret_inputs_a == pre.secret_inputs_a,
        post.secret_inputs_b == pre.secret_inputs_b,
        StackTrace::frame(&pre, &post, pos),
        forall|i: int|
            0 <= i < pre.depth ==> #[trigger] post.user_cell(i, pos + 1) == pre.user_cell(i, pos),
        forall|i: int|
            pre.depth <= i < pre.width() ==> #[trigger] post.user_cell(i, pos + 1) == 0,
    ensures
        forall|s: int|
            0 <= s <= pos + 1 ==> #[trigger] row_matches(post, vm_state_at(program, init, s), s),
        forall|s: int| pos + 1 < s < program.len() ==> #[trigger] post.row_clear(s),
{
    assert(vm_step_ok(program, init, pos));
    lemma_vm_state_at_inv(program, init, pos);
    let st_i = vm_state_at(program, init, pos);
    assert(row_matches(pre, st_i, pos));
    assert forall|q: int| 0 <= q < pre.width() implies #[trigger] pre.user_cell(q, pos)
        == st_i.stack[q] by {
    }
    let op = program[pos];
    lemma_vm_op_step_inv(st_i, op, pos);
    let st_next = vm_op_step(st_i, op, pos);
    assert(vm_state_at(program, init, pos + 1) == st_next) by {
        reveal(vm_state_at);
    }
    reveal(vm_op_step);
    assert(post.depth == st_next.depth);
    assert(post.max_depth == st_next.max_depth);
    assert(post.secret_inputs_a@ == st_next.secret_a);
    assert(post.secret_inputs_b@ == st_next.secret_b);
    assert(post.width() == (if st_next.max_depth > isd {
        st_next.max_depth
    } else {
        isd
    }));
    // every earlier row keeps matching, and row pos + 1 now matches too
    assert forall|s: int| 0 <= s <= pos + 1 implies #[trigger] row_matches(
        post,
        vm_state_at(program, init, s),
        s,
    ) by {
        if s <= pos {
            assert(row_matches(pre, vm_state_at(program, init, s), s));
            assert forall|cc: int| 0 <= cc < post.width() implies #[trigger] post.user_cell(cc, s)
                == vm_state_at(program, init, s).stack[cc] by {
                assert(pre.user_cell(cc, s) == vm_state_at(program, init, s).stack[cc]);
            }
        } else {
            assert forall|cc: int| 0 <= cc < post.width() implies #[trigger] post.user_cell(cc, s)
                == st_next.stack[cc] by {
            }
        }
    }
    // the rows past pos + 1 are still blank
    assert forall|s: int| pos + 1 < s < program.len() implies #[trigger] post.row_clear(s) by {
        assert(pre.row_clear(s));
        assert forall|cc: int| 0 <= cc < post.width() implies #[trigger] post.user_cell(cc, s)
            == 0 by {
            assert(pre.user_cell(cc, s) == 0);
        }
    }
}

/// The auxiliary-column facts of [`lemma_build_noop`]: column 0 carries exactly the
/// witnesses of the steps taken, column 1 stays zero.
#[verifier::rlimit(100)]
proof fn lemma_build_noop_aux(
    pre: StackTrace,
    post: StackTrace,
    program: Seq<u128>,
    init: VmState,
    isd: int,
    pos: int,
)
    requires
        trace_build_inv(pre, program, init, isd, pos),
        !vm_is_imm(program, pos),
        0 <= pos < program.len() - 1,
        program[pos] == crate::opcodes::BEGIN || program[pos] == crate::opcodes::NOOP,
        post.well_formed(),
        post.depth == pre.depth,
        post.max_depth == pre.max_depth,
        post.secret_inputs_a == pre.secret_inputs_a,
        post.secret_inputs_b == pre.secret_inputs_b,
        StackTrace::frame(&pre, &post, pos),
        forall|i: int|
            0 <= i < pre.depth ==> #[trigger] post.user_cell(i, pos + 1) == pre.user_cell(i, pos),
        forall|i: int|
            pre.depth <= i < pre.width() ==> #[trigger] post.user_cell(i, pos + 1) == 0,
    ensures
        forall|s: int|
            0 <= s < pos + 1 ==> #[trigger] post.aux_cell(0, s) == vm_aux0_at(program, init, s),
        forall|s: int| pos + 1 <= s < program.len() ==> #[trigger] post.aux_cell(0, s) == 0,
        forall|s: int| 0 <= s < program.len() ==> #[trigger] post.aux_cell(1, s) == 0,
{
    assert(vm_step_ok(program, init, pos));
    lemma_vm_state_at_inv(program, init, pos);
    let st_i = vm_state_at(program, init, pos);
    assert(row_matches(pre, st_i, pos));
    assert forall|q: int| 0 <= q < pre.width() implies #[trigger] pre.user_cell(q, pos)
        == st_i.stack[q] by {
    }
    let op = program[pos];
    lemma_vm_op_step_inv(st_i, op, pos);
    let st_next = vm_op_step(st_i, op, pos);
    assert(vm_state_at(program, init, pos + 1) == st_next) by {
        reveal(vm_state_at);
    }
    reveal(vm_op_step);
    assert(post.depth == st_next.depth);
    assert(post.max_depth == st_next.max_depth);
    assert(post.secret_inputs_a@ == st_next.secret_a);
    assert(post.secret_inputs_b@ == st_next.secret_b);
    assert(post.width() == (if st_next.max_depth > isd {
        st_next.max_depth
    } else {
        isd
    }));
    // auxiliary column 0 records the witnesses of the steps taken
    assert forall|s: int| 0 <= s < pos + 1 implies #[trigger] post.aux_cell(0, s) == vm_aux0_at(
        program,
        init,
        s,
    ) by {
        if s < pos {
            assert(pre.aux_cell(0, s) == vm_aux0_at(program, init, s));
            assert(post.aux_registers == pre.aux_registers);
        } else {
            assert(pre.aux_cell(0, pos) == 0);
            assert(vm_aux0_at(program, init, pos) == 0);
        }
    }
    assert forall|s: int| pos + 1 <= s < program.len() implies #[trigger] post.aux_cell(0, s)
        == 0 by {
        assert(pre.aux_cell(0, s) == 0);
            assert(post.aux_registers == pre.aux_registers);
    }
    assert forall|s: int| 0 <= s < program.len() implies #[trigger] post.aux_cell(1, s) == 0 by {
        assert(pre.aux_cell(1, s) == 0);
        assert(post.aux_registers == pre.aux_registers);
    }
}

/// Carrying out one noop step at slot `pos` preserves the
/// trace-building invariant at slot `pos + 1`.
#[verifier::rlimit(100)]
proof fn lemma_build_noop(
    pre: StackTrace,
    post: StackTrace,
    program: Seq<u128>,
    init: VmState,
    isd: int,
    pos: int,
)
    requires
        trace_build_inv(pre, program, init, isd, pos),
        !vm_is_imm(program, pos),
        0 <= pos < program.len() - 1,
        program[pos] == crate::opcodes::BEGIN || program[pos] == crate::opcodes::NOOP,
        post.well_formed(),
        post.depth == pre.depth,
        post.max_depth == pre.max_depth,
        post.secret_inputs_a == pre.secret_inputs_a,
        post.secret_inputs_b == pre.secret_inputs_b,
        StackTrace::frame(&pre, &post, pos),
        forall|i: int|
            0 <= i < pre.depth ==> #[trigger] post.user_cell(i, pos + 1) == pre.user_cell(i, pos),
        forall|i: int|
            pre.depth <= i < pre.width() ==> #[trigger] post.user_cell(i, pos + 1) == 0,
    ensures
        trace_build_inv(post, program, init, isd, pos + 1),
{
    assert(vm_step_ok(program, init, pos));
    lemma_vm_state_at_inv(program, init, pos);
    let st_i = vm_state_at(program, init, pos);
    assert(row_matches(pre, st_i, pos));
    assert forall|q: int| 0 <= q < pre.width() implies #[trigger] pre.user_cell(q, pos)
        == st_i.stack[q] by {
    }
    let op = program[pos];
    lemma_vm_op_step_inv(st_i, op, pos);
    let st_next = vm_op_step(st_i, op, pos);
    assert(vm_state_at(program, init, pos + 1) == st_next) by {
        reveal(vm_state_at);
    }
    reveal(vm_op_step);
    assert(post.depth == st_next.depth);
    assert(post.max_depth == st_next.max_depth);
    assert(post.secret_inputs_a@ == st_next.secret_a);
    assert(post.secret_inputs_b@ == st_next.secret_b);
    assert(post.width() == (if st_next.max_depth > isd {
        st_next.max_depth
    } else {
        isd
    }));
    lemma_build_noop_rows(pre, post, program, init, isd, pos);
    lemma_build_noop_aux(pre, post, program, init, isd, pos);
}

/// The row facts of [`lemma_build_assert_op`]: every earlier row keeps matching the
/// machine run, row `pos + 1` now matches it too, and the rows past it
/// are still blank.
#[verifier::rlimit(100)]
proof fn lemma_build_assert_op_rows(
    pre: StackTrace,
    post: StackTrace,
    program: Seq<u128>,
    init: VmState,
    isd: int,
    pos: int,
)
    requires
        trace_build_inv(pre, program, init, isd, pos),
        !vm_is_imm(program, pos),
        0 <= pos < program.len() - 1,
        program[pos] == crate::opcodes::ASSERT,
        post.well_formed(),
        post.depth == pre.depth - 1,
        post.max_depth == pre.max_depth,
        post.secret_inputs_a == pre.secret_inputs_a,
        post.secret_inputs_b == pre.secret_inputs_b,
        StackTrace::frame(&pre, &post, pos),
        forall|i: int|
            0 <= i < pre.depth - 1 ==> #[trigger] post.user_cell(i, pos + 1)
                == pre.user_cell(i + 1, pos),
        forall|i: int|
            pre.depth - 1 <= i < pre.width() ==> #[trigger] post.user_cell(i, pos + 1) == 0,
    ensures
        forall|s: int|
            0 <= s <= pos + 1 ==> #[trigger] row_matches(post, vm_state_at(program, init, s), s),
        forall|s: int| pos + 1 < s < program.len() ==> #[trigger] post.row_clear(s),
{
    assert(vm_step_ok(program, init, pos));
    lemma_vm_state_at_inv(program, init, pos);
    let st_i = vm_state_at(program, init, pos);
    assert(row_matches(pre, st_i, pos));
    assert forall|q: int| 0 <= q < pre.width() implies #[trigger] pre.user_cell(q, pos)
        == st_i.stack[q] by {
    }
    let op = program[pos];
    lemma_vm_op_step_inv(st_i, op, pos);
    let st_next = vm_op_step(st_i, op, pos);
    assert(vm_state_at(program, init, pos + 1) == st_next) by {
        reveal(vm_state_at);
    }
    reveal(vm_op_step);
    assert(post.depth == st_next.depth);
    assert(post.max_depth == st_next.max_depth);
    assert(post.secret_inputs_a@ == st_next.secret_a);
    assert(post.secret_inputs_b@ == st_next.secret_b);
    assert(post.width() == (if st_next.max_depth > isd {
        st_next.max_depth
    } else {
        isd
    }));
    // every earlier row keeps matching, and row pos + 1 now matches too
    assert forall|s: int| 0 <= s <= pos + 1 implies #[trigger] row_matches(
        post,
        vm_state_at(program, init, s),
        s,
    ) by {
        if s <= pos {
            assert(row_matches(pre, vm_state_at(program, init, s), s));
            assert forall|cc: int| 0 <= cc < post.width() implies #[trigger] post.user_cell(cc, s)
                == vm_state_at(program, init, s).stack[cc] by {
                assert(pre.user_cell(cc, s) == vm_state_at(program, init, s).stack[cc]);
            }
        } else {
            assert forall|cc: int| 0 <= cc < post.width() implies #[trigger] post.user_cell(cc, s)
                == st_next.stack[cc] by {
            }
        }
    }
    // the rows past pos + 1 are still blank
    assert forall|s: int| pos + 1 < s < program.len() implies #[trigger] post.row_clear(s) by {
        assert(pre.row_clear(s));
        assert forall|cc: int| 0 <= cc < post.width() implies #[trigger] post.user_cell(cc, s)
            == 0 by {
            assert(pre.user_cell(cc, s) == 0);
        }
    }
}

/// The auxiliary-column facts of [`lemma_build_assert_op`]: column 0 carries exactly the
/// witnesses of the steps taken, column 1 stays zero.
#[verifier::rlimit(100)]
proof fn lemma_build_assert_op_aux(
    pre: StackTrace,
    post: StackTrace,
    program: Seq<u128>,
    init: VmState,
    isd: int,
    pos: int,
)
    requires
        trace_build_inv(pre, program, init, isd, pos),
        !vm_is_imm(program, pos),
        0 <= pos < program.len() - 1,
        program[pos] == crate::opcodes::ASSERT,
        post.well_formed(),
        post.depth == pre.depth - 1,
        post.max_depth == pre.max_depth,
        post.secret_inputs_a == pre.secret_inputs_a,
        post.secret_inputs_b == pre.secret_inputs_b,
        StackTrace::frame(&pre, &post, pos),
        forall|i: int|
            0 <= i < pre.depth - 1 ==> #[trigger] post.user_cell(i, pos + 1)
                == pre.user_cell(i + 1, pos),
        forall|i: int|
            pre.depth - 1 <= i < pre.width() ==> #[trigger] post.user_cell(i, pos + 1) == 0,
    ensures
        forall|s: int|
            0 <= s < pos + 1 ==> #[trigger] post.aux_cell(0, s) == vm_aux0_at(program, init, s),
        forall|s: int| pos + 1 <= s < program.len() ==> #[trigger] post.aux_cell(0, s) == 0,
        forall|s: int| 0 <= s < program.len() ==> #[trigger] post.aux_cell(1, s) == 0,
{
    assert(vm_step_ok(program, init, pos));
    lemma_vm_state_at_inv(program, init, pos);
    let st_i = vm_state_at(program, init, pos);
    assert(row_matches(pre, st_i, pos));
    assert forall|q: int| 0 <= q < pre.width() implies #[trigger] pre.user_cell(q, pos)
        == st_i.stack[q] by {
    }
    let op = program[pos];
    lemma_vm_op_step_inv(st_i, op, pos);
    let st_next = vm_op_step(st_i, op, pos);
    assert(vm_state_at(program, init, pos + 1) == st_next) by {
        reveal(vm_state_at);
    }
    reveal(vm_op_step);
    assert(post.depth == st_next.depth);
    assert(post.max_depth == st_next.max_depth);
    assert(post.secret_inputs_a@ == st_next.secret_a);
    assert(post.secret_inputs_b@ == st_next.secret_b);
    assert(post.width() == (if st_next.max_depth > isd {
        st_next.max_depth
    } else {
        isd
    }));
    // auxiliary column 0 records the witnesses of the steps taken
    assert forall|s: int| 0 <= s < pos + 1 implies #[trigger] post.aux_cell(0, s) == vm_aux0_at(
        program,
        init,
        s,
    ) by {
        if s < pos {
            assert(pre.aux_cell(0, s) == vm_aux0_at(program, init, s));
            assert(post.aux_registers == pre.aux_registers);
        } else {
            assert(pre.aux_cell(0, pos) == 0);
            assert(vm_aux0_at(program, init, pos) == 0);
        }
    }
    assert forall|s: int| pos + 1 <= s < program.len() implies #[trigger] post.aux_cell(0, s)
        == 0 by {
        assert(pre.aux_cell(0, s) == 0);
            assert(post.aux_registers == pre.aux_registers);
    }
    assert forall|s: int| 0 <= s < program.len() implies #[trigger] post.aux_cell(1, s) == 0 by {
        assert(pre.aux_cell(1, s) == 0);
        assert(post.aux_registers == pre.aux_registers);
    }
}

/// Carrying out one assert op step at slot `pos` preserves the
/// trace-building invariant at slot `pos + 1`.
#[verifier::rlimit(100)]
proof fn lemma_build_assert_op(
    pre: StackTrace,
    post: StackTrace,
    program: Seq<u128>,
    init: VmState,
    isd: int,
    pos: int,
)
    requires
        trace_build_inv(pre, program, init, isd, pos),
        !vm_is_imm(program, pos),
        0 <= pos < program.len() - 1,
        program[pos] == crate::opcodes::ASSERT,
        post.well_formed(),
        post.depth == pre.depth - 1,
        post.max_depth == pre.max_depth,
        post.secret_inputs_a == pre.secret_inputs_a,
        post.secret_inputs_b == pre.secret_inputs_b,
        StackTrace::frame(&pre, &post, pos),
        forall|i: int|
            0 <= i < pre.depth - 1 ==> #[trigger] post.user_cell(i, pos + 1)
                == pre.user_cell(i + 1, pos),
        forall|i: int|
            pre.depth - 1 <= i < pre.width() ==> #[trigger] post.user_cell(i, pos + 1) == 0,
    ensures
        trace_build_inv(post, program, init, isd, pos + 1),
{
    assert(vm_step_ok(program, init, pos));
    lemma_vm_state_at_inv(program, init, pos);
    let st_i = vm_state_at(program, init, pos);
    assert(row_matches(pre, st_i, pos));
    assert forall|q: int| 0 <= q < pre.width() implies #[trigger] pre.user_cell(q, pos)
        == st_i.stack[q] by {
    }
    let op = program[pos];
    lemma_vm_op_step_inv(st_i, op, pos);
    let st_next = vm_op_step(st_i, op, pos);
    assert(vm_state_at(program, init, pos + 1) == st_next) by {
        reveal(vm_state_at);
    }
    reveal(vm_op_step);
    assert(post.depth == st_next.depth);
    assert(post.max_depth == st_next.max_depth);
    assert(post.secret_inputs_a@ == st_next.secret_a);
    assert(post.secret_inputs_b@ == st_next.secret_b);
    assert(post.width() == (if st_next.max_depth > isd {
        st_next.max_depth
    } else {
        isd
    }));
    lemma_build_assert_op_rows(pre, post, program, init, isd, pos);
    lemma_build_assert_op_aux(pre, post, program, init, isd, pos);
}

/// The row facts of [`lemma_build_read`]: every earlier row keeps matching the
/// machine run, row `pos + 1` now matches it too, and the rows past it
/// are still blank.
#[verifier::rlimit(100)]
proof fn lemma_build_read_rows(
    pre: StackTrace,
    post: StackTrace,
    program: Seq<u128>,
    init: VmState,
    isd: int,
    pos: int,
)
    requires
        trace_build_inv(pre, program, init, isd, pos),
        !vm_is_imm(program, pos),
        0 <= pos < program.len() - 1,
        program[pos] == crate::opcodes::READ,
        post.well_formed(),
        post.depth == pre.depth + 1,
        post.max_depth == (if pre.depth + 1 > pre.max_depth {
            pre.depth + 1
        } else {
            pre.max_depth as int
        }),
        post.width() == (if post.max_depth > pre.width() {
            post.max_depth as int
        } else {
            pre.width()
        }),
        post.secret_inputs_a@ == pre.secret_inputs_a@.drop_last(),
        post.secret_inputs_b == pre.secret_inputs_b,
        StackTrace::grow_frame(&pre, &post, pos),
        post.user_cell(0, pos + 1) == pre.secret_inputs_a@.last(),
        forall|i: int|
            1 <= i < pre.depth + 1 ==> #[trigger] post.user_cell(i, pos + 1)
                == pre.user_cell(i - 1, pos),
        forall|i: int|
            pre.depth + 1 <= i < post.width() ==> #[trigger] post.user_cell(i, pos + 1) == 0,
    ensures
        forall|s: int|
            0 <= s <= pos + 1 ==> #[trigger] row_matches(post, vm_state_at(program, init, s), s),
        forall|s: int| pos + 1 < s < program.len() ==> #[trigger] post.row_clear(s),
{
    assert(vm_step_ok(program, init, pos));
    lemma_vm_state_at_inv(program, init, pos);
    lemma_vm_columns_blank(program, init, pos);
    let st_i = vm_state_at(program, init, pos);
    assert(row_matches(pre, st_i, pos));
    assert forall|q: int| 0 <= q < pre.width() implies #[trigger] pre.user_cell(q, pos)
        == st_i.stack[q] by {
    }
    let op = program[pos];
    lemma_vm_op_step_inv(st_i, op, pos);
    let st_next = vm_op_step(st_i, op, pos);
    assert(vm_state_at(program, init, pos + 1) == st_next) by {
        reveal(vm_state_at);
    }
    reveal(vm_op_step);
    assert(post.depth == st_next.depth);
    assert(post.max_depth == st_next.max_depth);
    assert(post.secret_inputs_a@ == st_next.secret_a);
    assert(post.secret_inputs_b@ == st_next.secret_b);
    assert(post.width() == (if st_next.max_depth > isd {
        st_next.max_depth
    } else {
        isd
    }));
    // every earlier row keeps matching, and row pos + 1 now matches too
    assert forall|s: int| 0 <= s <= pos + 1 implies #[trigger] row_matches(
        post,
        vm_state_at(program, init, s),
        s,
    ) by {
        if s <= pos {
            assert(row_matches(pre, vm_state_at(program, init, s), s));
            assert forall|cc: int| 0 <= cc < post.width() implies #[trigger] post.user_cell(cc, s)
                == vm_state_at(program, init, s).stack[cc] by {
                if cc < pre.width() {
                    assert(pre.user_cell(cc, s) == vm_state_at(program, init, s).stack[cc]);
                } else {
                    assert(vm_state_at(program, init, s).stack[cc] == 0);
                }
            }
        } else {
            assert forall|cc: int| 0 <= cc < post.width() implies #[trigger] post.user_cell(cc, s)
                == st_next.stack[cc] by {
            }
        }
    }
    // the rows past pos + 1 are still blank
    assert forall|s: int| pos + 1 < s < program.len() implies #[trigger] post.row_clear(s) by {
        assert(pre.row_clear(s));
        assert forall|cc: int| 0 <= cc < post.width() implies #[trigger] post.user_cell(cc, s)
            == 0 by {
            if cc < pre.width() {
                assert(pre.user_cell(cc, s) == 0);
            }
        }
    }
}

/// The auxiliary-column facts of [`lemma_build_read`]: column 0 carries exactly the
/// witnesses of the steps taken, column 1 stays zero.
#[verifier::rlimit(100)]
proof fn lemma_build_read_aux(
    pre: StackTrace,
    post: StackTrace,
    program: Seq<u128>,
    init: VmState,
    isd: int,
    pos: int,
)
    requires
        trace_build_inv(pre, program, init, isd, pos),
        !vm_is_imm(program, pos),
        0 <= pos < program.len() - 1,
        program[pos] == crate::opcodes::READ,
        post.well_formed(),
        post.depth == pre.depth + 1,
        post.max_depth == (if pre.depth + 1 > pre.max_depth {
            pre.depth + 1
        } else {
            pre.max_depth as int
        }),
        post.width() == (if post.max_depth > pre.width() {
            post.max_depth as int
        } else {
            pre.width()
        }),
        post.secret_inputs_a@ == pre.secret_inputs_a@.drop_last(),
        post.secret_inputs_b == pre.secret_inputs_b,
        StackTrace::grow_frame(&pre, &post, pos),
        post.user_cell(0, pos + 1) == pre.secret_inputs_a@.last(),
        forall|i: int|
            1 <= i < pre.depth + 1 ==> #[trigger] post.user_cell(i, pos + 1)
                == pre.user_cell(i - 1, pos),
        forall|i: int|
            pre.depth + 1 <= i < post.width() ==> #[trigger] post.user_cell(i, pos + 1) == 0,
    ensures
        forall|s: int|
            0 <= s < pos + 1 ==> #[trigger] post.aux_cell(0, s) == vm_aux0_at(program, init, s),
        forall|s: int| pos + 1 <= s < program.len() ==> #[trigger] post.aux_cell(0, s) == 0,
        forall|s: int| 0 <= s < program.len() ==> #[trigger] post.aux_cell(1, s) == 0,
{
    assert(vm_step_ok(program, init, pos));
    lemma_vm_state_at_inv(program, init, pos);
    lemma_vm_columns_blank(program, init, pos);
    let st_i = vm_state_at(program, init, pos);
    assert(row_matches(pre, st_i, pos));
    assert forall|q: int| 0 <= q < pre.width() implies #[trigger] pre.user_cell(q, pos)
        == st_i.stack[q] by {
    }
    let op = program[pos];
    lemma_vm_op_step_inv(st_i, op, pos);
    let st_next = vm_op_step(st_i, op, pos);
    assert(vm_state_at(program, init, pos + 1) == st_next) by {
        reveal(vm_state_at);
    }
    reveal(vm_op_step);
    assert(post.depth == st_next.depth);
    assert(post.max_depth == st_next.max_depth);
    assert(post.secret_inputs_a@ == st_next.secret_a);
    assert(post.secret_inputs_b@ == st_next.secret_b);
    assert(post.width() == (if st_next.max_depth > isd {
        st_next.max_depth
    } else {
        isd
    }));
    // auxiliary column 0 records the witnesses of the steps taken
    assert forall|s: int| 0 <= s < pos + 1 implies #[trigger] post.aux_cell(0, s) == vm_aux0_at(
        program,
        init,
        s,
    ) by {
        if s < pos {
            assert(pre.aux_cell(0, s) == vm_aux0_at(program, init, s));
            assert(post.aux_registers == pre.aux_registers);
        } else {
            assert(pre.aux_cell(0, pos) == 0);
            assert(vm_aux0_at(program, init, pos) == 0);
        }
    }
    assert forall|s: int| pos + 1 <= s < program.len() implies #[trigger] post.aux_cell(0, s)
        == 0 by {
        assert(pre.aux_cell(0, s) == 0);
            assert(post.aux_registers == pre.aux_registers);
    }
    assert forall|s: int| 0 <= s < program.len() implies #[trigger] post.aux_cell(1, s) == 0 by {
        assert(pre.aux_cell(1, s) == 0);
        assert(post.aux_registers == pre.aux_registers);
    }
}

/// Carrying out one read step at slot `pos` preserves the
/// trace-building invariant at slot `pos + 1`.
#[verifier::rlimit(100)]
proof fn lemma_build_read(
    pre: StackTrace,
    post: StackTrace,
    program: Seq<u128>,
    init: VmState,
    isd: int,
    pos: int,
)
    requires
        trace_build_inv(pre, program, init, isd, pos),
        !vm_is_imm(program, pos),
        0 <= pos < program.len() - 1,
        program[pos] == crate::opcodes::READ,
        post.well_formed(),
        post.depth == pre.depth + 1,
        post.max_depth == (if pre.depth + 1 > pre.max_depth {
            pre.depth + 1
        } else {
            pre.max_depth as int
        }),
        post.width() == (if post.max_depth > pre.width() {
            post.max_depth as int
        } else {
            pre.width()
        }),
        post.secret_inputs_a@ == pre.secret_inputs_a@.drop_last(),
        post.secret_inputs_b == pre.secret_inputs_b,
        StackTrace::grow_frame(&pre, &post, pos),
        post.user_cell(0, pos + 1) == pre.secret_inputs_a@.last(),
        forall|i: int|
            1 <= i < pre.depth + 1 ==> #[trigger] post.user_cell(i, pos + 1)
                == pre.user_cell(i - 1, pos),
        forall|i: int|
            pre.depth + 1 <= i < post.width() ==> #[trigger] post.user_cell(i, pos + 1) == 0,
    ensures
        trace_build_inv(post, program, init, isd, pos + 1),
{
    assert(vm_step_ok(program, init, pos));
    lemma_vm_state_at_inv(program, init, pos);
    lemma_vm_columns_blank(program, init, pos);
    let st_i = vm_state_at(program, init, pos);
    assert(row_matches(pre, st_i, pos));
    assert forall|q: int| 0 <= q < pre.width() implies #[trigger] pre.user_cell(q, pos)
        == st_i.stack[q] by {
    }
    let op = program[pos];
    lemma_vm_op_step_inv(st_i, op, pos);
    let st_next = vm_op_step(st_i, op, pos);
    assert(vm_state_at(program, init, pos + 1) == st_next) by {
        reveal(vm_state_at);
    }
    reveal(vm_op_step);
    assert(post.depth == st_next.depth);
    assert(post.max_depth == st_next.max_depth);
    assert(post.secret_inputs_a@ == st_next.secret_a);
    assert(post.secret_inputs_b@ == st_next.secret_b);
    assert(post.width() == (if st_next.max_depth > isd {
        st_next.max_depth
    } else {
        isd
    }));
    lemma_build_read_rows(pre, post, program, init, isd, pos);
    lemma_build_read_aux(pre, post, program, init, isd, pos);
}

/// The new-row fact of [`lemma_build_read2`]: row `pos + 1` of the builder equals
/// the machine stack after the step.
#[verifier::rlimit(100)]
proof fn lemma_build_read2_newrow(
    pre: StackTrace,
    post: StackTrace,
    program: Seq<u128>,
    init: VmState,
    isd: int,
    pos: int,
)
    requires
        trace_build_inv(pre, program, init, isd, pos),
        !vm_is_imm(program, pos),
        0 <= pos < program.len() - 1,
        program[pos] == crate::opcodes::READ2,
        post.well_formed(),
        post.depth == pre.depth + 2,
        post.max_depth == (if pre.depth + 2 > pre.max_depth {
            pre.depth + 2
        } else {
            pre.max_depth as int
        }),
        post.width() == (if post.max_depth > pre.width() {
            post.max_depth as int
        } else {
            pre.width()
        }),
        post.secret_inputs_a@ == pre.secret_inputs_a@.drop_last(),
        post.secret_inputs_b@ == pre.secret_inputs_b@.drop_last(),
        StackTrace::grow_frame(&pre, &post, pos),
        post.user_cell(0, pos + 1) == pre.secret_inputs_b@.last(),
        post.user_cell(1, pos + 1) == pre.secret_inputs_a@.last(),
        forall|i: int|
            2 <= i < pre.depth + 2 ==> #[trigger] post.user_cell(i, pos + 1)
                == pre.user_cell(i - 2, pos),
        forall|i: int|
            pre.depth + 2 <= i < post.width() ==> #[trigger] post.user_cell(i, pos + 1) == 0,
    ensures
        row_matches(post, vm_state_at(program, init, pos + 1), pos + 1),
{
    assert(vm_step_ok(program, init, pos));
    lemma_vm_state_at_inv(program, init, pos);
    lemma_vm_columns_blank(program, init, pos);
    let st_i = vm_state_at(program, init, pos);
    assert(row_matches(pre, st_i, pos));
    assert forall|q: int| 0 <= q < pre.width() implies #[trigger] pre.user_cell(q, pos)
        == st_i.stack[q] by {
    }
    let op = program[pos];
    lemma_vm_op_step_inv(st_i, op, pos);
    let st_next = vm_op_step(st_i, op, pos);
    assert(vm_state_at(program, init, pos + 1) == st_next) by {
        reveal(vm_state_at);
    }
    reveal(vm_op_step);
    assert(post.depth == st_next.depth);
    assert(post.max_depth == st_next.max_depth);
    assert(post.secret_inputs_a@ == st_next.secret_a);
    assert(post.secret_inputs_b@ == st_next.secret_b);
    assert(post.width() == (if st_next.max_depth > isd {
        st_next.max_depth
    } else {
        isd
    }));
    assert forall|cc: int| 0 <= cc < post.width() implies #[trigger] post.user_cell(
        cc,
        pos + 1,
    ) == st_next.stack[cc] by {
    }
}

/// The row facts of [`lemma_build_read2`]: every earlier row keeps matching the
/// machine run, row `pos + 1` now matches it too, and the rows past it
/// are still blank.
#[verifier::rlimit(100)]
proof fn lemma_build_read2_rows(
    pre: StackTrace,
    post: StackTrace,
    program: Seq<u128>,
    init: VmState,
    isd: int,
    pos: int,
)
    requires
        trace_build_inv(pre, program, init, isd, pos),
        !vm_is_imm(program, pos),
        0 <= pos < program.len() - 1,
        program[pos] == crate::opcodes::READ2,
        post.well_formed(),
        post.depth == pre.depth + 2,
        post.max_depth == (if pre.depth + 2 > pre.max_depth {
            pre.depth + 2
        } else {
            pre.max_depth as int
        }),
        post.width() == (if post.max_depth > pre.width() {
            post.max_depth as int
        } else {
            pre.width()
        }),
        post.secret_inputs_a@ == pre.secret_inputs_a@.drop_last(),
        post.secret_inputs_b@ == pre.secret_inputs_b@.drop_last(),
        StackTrace::grow_frame(&pre, &post, pos),
        post.user_cell(0, pos + 1) == pre.secret_inputs_b@.last(),
        post.user_cell(1, pos + 1) == pre.secret_inputs_a@.last(),
        forall|i: int|
            2 <= i < pre.depth + 2 ==> #[trigger] post.user_cell(i, pos + 1)
                == pre.user_cell(i - 2, pos),
        forall|i: int|
            pre.depth + 2 <= i < post.width() ==> #[trigger] post.user_cell(i, pos + 1) == 0,
    ensures
        forall|s: int|
            0 <= s <= pos + 1 ==> #[trigger] row_matches(post, vm_state_at(program, init, s), s),
        forall|s: int| pos + 1 < s < program.len() ==> #[trigger] post.row_clear(s),
{
    assert(vm_step_ok(program, init, pos));
    lemma_vm_state_at_inv(program, init, pos);
    lemma_vm_columns_blank(program, init, pos);
    let st_i = vm_state_at(program, init, pos);
    assert(row_matches(pre, st_i, pos));
    assert forall|q: int| 0 <= q < pre.width() implies #[trigger] pre.user_cell(q, pos)
        == st_i.stack[q] by {
    }
    let op = program[pos];
    lemma_vm_op_step_inv(st_i, op, pos);
    let st_next = vm_op_step(st_i, op, pos);
    assert(vm_state_at(program, init, pos + 1) == st_next) by {
        reveal(vm_state_at);
    }
    reveal(vm_op_step);
    assert(post.depth == st_next.depth);
    assert(post.max_depth == st_next.max_depth);
    assert(post.secret_inputs_a@ == st_next.secret_a);
    assert(post.secret_inputs_b@ == st_next.secret_b);
    assert(post.width() == (if st_next.max_depth > isd {
        st_next.max_depth
    } else {
        isd
    }));
    lemma_build_read2_newrow(pre, post, program, init, isd, pos);
    // every earlier row keeps matching, and row pos + 1 now matches too
    assert forall|s: int| 0 <= s <= pos + 1 implies #[trigger] row_matches(
        post,
        vm_state_at(program, init, s),
        s,
    ) by {
        if s <= pos {
            assert(row_matches(pre, vm_state_at(program, init, s), s));
            assert forall|cc: int| 0 <= cc < post.width() implies #[trigger] post.user_cell(cc, s)
                == vm_state_at(program, init, s).stack[cc] by {
                if cc < pre.width() {
                    assert(pre.user_cell(cc, s) == vm_state_at(program, init, s).stack[cc]);
                } else {
                    assert(vm_state_at(program, init, s).stack[cc] == 0);
                }
            }
        } else {
            assert(row_matches(post, vm_state_at(program, init, s), s));
        }
    }
    // the rows past pos + 1 are still blank
    assert forall|s: int| pos + 1 < s < program.len() implies #[trigger] post.row_clear(s) by {
        assert(pre.row_clear(s));
        assert forall|cc: int| 0 <= cc < post.width() implies #[trigger] post.user_cell(cc, s)
            == 0 by {
            if cc < pre.width() {
                assert(pre.user_cell(cc, s) == 0);
            }
        }
    }
}

/// The auxiliary-column facts of [`lemma_build_read2`]: column 0 carries exactly the
/// witnesses of the steps taken, column 1 stays zero.
#[verifier::rlimit(100)]
proof fn lemma_build_read2_aux(
    pre: StackTrace,
    post: StackTrace,
    program: Seq<u128>,
    init: VmState,
    isd: int,
    pos: int,
)
    requires
        trace_build_inv(pre, program, init, isd, pos),
        !vm_is_imm(program, pos),
        0 <= pos < program.len() - 1,
        program[pos] == crate::opcodes::READ2,
        post.well_formed(),
        post.depth == pre.depth + 2,
        post.max_depth == (if pre.depth + 2 > pre.max_depth {
            pre.depth + 2
        } else {
            pre.max_depth as int
        }),
        post.width() == (if post.max_depth > pre.width() {
            post.max_depth as int
        } else {
            pre.width()
        }),
        post.secret_inputs_a@ == pre.secret_inputs_a@.drop_last(),
        post.secret_inputs_b@ == pre.secret_inputs_b@.drop_last(),
        StackTrace::grow_frame(&pre, &post, pos),
        post.user_cell(0, pos + 1) == pre.secret_inputs_b@.last(),
        post.user_cell(1, pos + 1) == pre.secret_inputs_a@.last(),
        forall|i: int|
            2 <= i < pre.depth + 2 ==> #[trigger] post.user_cell(i, pos + 1)
                == pre.user_cell(i - 2, pos),
        forall|i: int|
            pre.depth + 2 <= i < post.width() ==> #[trigger] post.user_cell(i, pos + 1) == 0,
    ensures
        forall|s: int|
            0 <= s < pos + 1 ==> #[trigger] post.aux_cell(0, s) == vm_aux0_at(program, init, s),
        forall|s: int| pos + 1 <= s < program.len() ==> #[trigger] post.aux_cell(0, s) == 0,
        forall|s: int| 0 <= s < program.len() ==> #[trigger] post.aux_cell(1, s) == 0,
{
    assert(vm_step_ok(program, init, pos));
    lemma_vm_state_at_inv(program, init, pos);
    lemma_vm_columns_blank(program, init, pos);
    let st_i = vm_state_at(program, init, pos);
    assert(row_matches(pre, st_i, pos));
    assert forall|q: int| 0 <= q < pre.width() implies #[trigger] pre.user_cell(q, pos)
        == st_i.stack[q] by {
    }
    let op = program[pos];
    lemma_vm_op_step_inv(st_i, op, pos);
    let st_next = vm_op_step(st_i, op, pos);
    assert(vm_state_at(program, init, pos + 1) == st_next) by {
        reveal(vm_state_at);
    }
    reveal(vm_op_step);
    assert(post.depth == st_next.depth);
    assert(post.max_depth == st_next.max_depth);
    assert(post.secret_inputs_a@ == st_next.secret_a);
    assert(post.secret_inputs_b@ == st_next.secret_b);
    assert(post.width() == (if st_next.max_depth > isd {
        st_next.max_depth
    } else {
        isd
    }));
    // auxiliary column 0 records the witnesses of the steps taken
    assert forall|s: int| 0 <= s < pos + 1 implies #[trigger] post.aux_cell(0, s) == vm_aux0_at(
        program,
        init,
        s,
    ) by {
        if s < pos {
            assert(pre.aux_cell(0, s) == vm_aux0_at(program, init, s));
            assert(post.aux_registers == pre.aux_registers);
        } else {
            assert(pre.aux_cell(0, pos) == 0);
            assert(vm_aux0_at(program, init, pos) == 0);
        }
    }
    assert forall|s: int| pos + 1 <= s < program.len() implies #[trigger] post.aux_cell(0, s)
        == 0 by {
        assert(pre.aux_cell(0, s) == 0);
            assert(post.aux_registers == pre.aux_registers);
    }
    assert forall|s: int| 0 <= s < program.len() implies #[trigger] post.aux_cell(1, s) == 0 by {
        assert(pre.aux_cell(1, s) == 0);
        assert(post.aux_registers == pre.aux_registers);
    }
}

/// Carrying out one read2 step at slot `pos` preserves the
/// trace-building invariant at slot `pos + 1`.
#[verifier::rlimit(100)]
proof fn lemma_build_read2(
    pre: StackTrace,
    post: StackTrace,
    program: Seq<u128>,
    init: VmState,
    isd: int,
    pos: int,
)
    requires
        trace_build_inv(pre, program, init, isd, pos),
        !vm_is_imm(program, pos),
        0 <= pos < program.len() - 1,
        program[pos] == crate::opcodes::READ2,
        post.well_formed(),
        post.depth == pre.depth + 2,
        post.max_depth == (if pre.depth + 2 > pre.max_depth {
            pre.depth + 2
        } else {
            pre.max_depth as int
        }),
        post.width() == (if post.max_depth > pre.width() {
            post.max_depth as int
        } else {
            pre.width()
        }),
        post.secret_inputs_a@ == pre.secret_inputs_a@.drop_last(),
        post.secret_inputs_b@ == pre.secret_inputs_b@.drop_last(),
        StackTrace::grow_frame(&pre, &post, pos),
        post.user_cell(0, pos + 1) == pre.secret_inputs_b@.last(),
        post.user_cell(1, pos + 1) == pre.secret_inputs_a@.last(),
        forall|i: int|
            2 <= i < pre.depth + 2 ==> #[trigger] post.user_cell(i, pos + 1)
                == pre.user_cell(i - 2, pos),
        forall|i: int|
            pre.depth + 2 <= i < post.width() ==> #[trigger] post.user_cell(i, pos + 1) == 0,
    ensures
        trace_build_inv(post, program, init, isd, pos + 1),
{
    assert(vm_step_ok(program, init, pos));
    lemma_vm_state_at_inv(program, init, pos);
    lemma_vm_columns_blank(program, init, pos);
    let st_i = vm_state_at(program, init, pos);
    assert(row_matches(pre, st_i, pos));
    assert forall|q: int| 0 <= q < pre.width() implies #[trigger] pre.user_cell(q, pos)
        == st_i.stack[q] by {
    }
    let op = program[pos];
    lemma_vm_op_step_inv(st_i, op, pos);
    let st_next = vm_op_step(st_i, op, pos);
    assert(vm_state_at(program, init, pos + 1) == st_next) by {
        reveal(vm_state_at);
    }
    reveal(vm_op_step);
    assert(post.depth == st_next.depth);
    assert(post.max_depth == st_next.max_depth);
    assert(post.secret_inputs_a@ == st_next.secret_a);
    assert(post.secret_inputs_b@ == st_next.secret_b);
    assert(post.width() == (if st_next.max_depth > isd {
        st_next.max_depth
    } else {
        isd
    }));
    lemma_build_read2_rows(pre, post, program, init, isd, pos);
    lemma_build_read2_aux(pre, post, program, init, isd, pos);
}

/// The row facts of [`lemma_build_drop`]: every earlier row keeps matching the
/// machine run, row `pos + 1` now matches it too, and the rows past it
/// are still blank.
#[verifier::rlimit(100)]
proof fn lemma_build_drop_rows(
    pre: StackTrace,
    post: StackTrace,
    program: Seq<u128>,
    init: VmState,
    isd: int,
    pos: int,
)
    requires
        trace_build_inv(pre, program, init, isd, pos),
        !vm_is_imm(program, pos),
        0 <= pos < program.len() - 1,
        program[pos] == crate::opcodes::DROP,
        post.well_formed(),
        post.depth == pre.depth - 1,
        post.max_depth == pre.max_depth,
        post.secret_inputs_a == pre.secret_inputs_a,
        post.secret_inputs_b == pre.secret_inputs_b,
        StackTrace::frame(&pre, &post, pos),
        forall|i: int|
            0 <= i < pre.depth - 1 ==> #[trigger] post.user_cell(i, pos + 1)
                == pre.user_cell(i + 1, pos),
        forall|i: int|
            pre.depth - 1 <= i < pre.width()
                ==> #[trigger] post.user_cell(i, pos + 1) == 0,
    ensures
        forall|s: int|
            0 <= s <= pos + 1 ==> #[trigger] row_matches(post, vm_state_at(program, init, s), s),
        forall|s: int| pos + 1 < s < program.len() ==> #[trigger] post.row_clear(s),
{
    assert(vm_step_ok(program, init, pos));
    lemma_vm_state_at_inv(program, init, pos);
    let st_i = vm_state_at(program, init, pos);
    assert(row_matches(pre, st_i, pos));
    assert forall|q: int| 0 <= q < pre.width() implies #[trigger] pre.user_cell(q, pos)
        == st_i.stack[q] by {
    }
    let op = program[pos];
    lemma_vm_op_step_inv(st_i, op, pos);
    let st_next = vm_op_step(st_i, op, pos);
    assert(vm_state_at(program, init, pos + 1) == st_next) by {
        reveal(vm_state_at);
    }
    reveal(vm_op_step);
    assert(post.depth == st_next.depth);
    assert(post.max_depth == st_next.max_depth);
    assert(post.secret_inputs_a@ == st_next.secret_a);
    assert(post.secret_inputs_b@ == st_next.secret_b);
    assert(post.width() == (if st_next.max_depth > isd {
        st_next.max_depth
    } else {
        isd
    }));
    // every earlier row keeps matching, and row pos + 1 now matches too
    assert forall|s: int| 0 <= s <= pos + 1 implies #[trigger] row_matches(
        post,
        vm_state_at(program, init, s),
        s,
    ) by {
        if s <= pos {
            assert(row_matches(pre, vm_state_at(program, init, s), s));
            assert forall|cc: int| 0 <= cc < post.width() implies #[trigger] post.user_cell(cc, s)
                == vm_state_at(program, init, s).stack[cc] by {
                assert(pre.user_cell(cc, s) == vm_state_at(program, init, s).stack[cc]);
            }
        } else {
            assert forall|cc: int| 0 <= cc < post.width() implies #[trigger] post.user_cell(cc, s)
                == st_next.stack[cc] by {
            }
        }
    }
    // the rows past pos + 1 are still blank
    assert forall|s: int| pos + 1 < s < program.len() implies #[trigger] post.row_clear(s) by {
        assert(pre.row_clear(s));
        assert forall|cc: int| 0 <= cc < post.width() implies #[trigger] post.user_cell(cc, s)
            == 0 by {
            assert(pre.user_cell(cc, s) == 0);
        }
    }
}

/// The auxiliary-column facts of [`lemma_build_drop`]: column 0 carries exactly the
/// witnesses of the steps taken, column 1 stays zero.
#[verifier::rlimit(100)]
proof fn lemma_build_drop_aux(
    pre: StackTrace,
    post: StackTrace,
    program: Seq<u128>,
    init: VmState,
    isd: int,
    pos: int,
)
    requires
        trace_build_inv(pre, program, init, isd, pos),
        !vm_is_imm(program, pos),
        0 <= pos < program.len() - 1,
        program[pos] == crate::opcodes::DROP,
        post.well_formed(),
        post.depth == pre.depth - 1,
        post.max_depth == pre.max_depth,
        post.secret_inputs_a == pre.secret_inputs_a,
        post.secret_inputs_b == pre.secret_inputs_b,
        StackTrace::frame(&pre, &post, pos),
        forall|i: int|
            0 <= i < pre.depth - 1 ==> #[trigger] post.user_cell(i, pos + 1)
                == pre.user_cell(i + 1, pos),
        forall|i: int|
            pre.depth - 1 <= i < pre.width()
                ==> #[trigger] post.user_cell(i, pos + 1) == 0,
    ensures
        forall|s: int|
            0 <= s < pos + 1 ==> #[trigger] post.aux_cell(0, s) == vm_aux0_at(program, init, s),
        forall|s: int| pos + 1 <= s < program.len() ==> #[trigger] post.aux_cell(0, s) == 0,
        forall|s: int| 0 <= s < program.len() ==> #[trigger] post.aux_cell(1, s) == 0,
{
    assert(vm_step_ok(program, init, pos));
    lemma_vm_state_at_inv(program, init, pos);
    let st_i = vm_state_at(program, init, pos);
    assert(row_matches(pre, st_i, pos));
    assert forall|q: int| 0 <= q < pre.width() implies #[trigger] pre.user_cell(q, pos)
        == st_i.stack[q] by {
    }
    let op = program[pos];
    lemma_vm_op_step_inv(st_i, op, pos);
    let st_next = vm_op_step(st_i, op, pos);
    assert(vm_state_at(program, init, pos + 1) == st_next) by {
        reveal(vm_state_at);
    }
    reveal(vm_op_step);
    assert(post.depth == st_next.depth);
    assert(post.max_depth == st_next.max_depth);
    assert(post.secret_inputs_a@ == st_next.secret_a);
    assert(post.secret_inputs_b@ == st_next.secret_b);
    assert(post.width() == (if st_next.max_depth > isd {
        st_next.max_depth
    } else {
        isd
    }));
    // auxiliary column 0 records the witnesses of the steps taken
    assert forall|s: int| 0 <= s < pos + 1 implies #[trigger] post.aux_cell(0, s) == vm_aux0_at(
        program,
        init,
        s,
    ) by {
        if s < pos {
            assert(pre.aux_cell(0, s) == vm_aux0_at(program, init, s));
            assert(post.aux_registers == pre.aux_registers);
        } else {
            assert(pre.aux_cell(0, pos) == 0);
            assert(vm_aux0_at(program, init, pos) == 0);
        }
    }
    assert forall|s: int| pos + 1 <= s < program.len() implies #[trigger] post.aux_cell(0, s)
        == 0 by {
        assert(pre.aux_cell(0, s) == 0);
            assert(post.aux_registers == pre.aux_registers);
    }
    assert forall|s: int| 0 <= s < program.len() implies #[trigger] post.aux_cell(1, s) == 0 by {
        assert(pre.aux_cell(1, s) == 0);
        assert(post.aux_registers == pre.aux_registers);
    }
}

/// Carrying out one drop step at slot `pos` preserves the
/// trace-building invariant at slot `pos + 1`.
#[verifier::rlimit(100)]
proof fn lemma_build_drop(
    pre: StackTrace,
    post: StackTrace,
    program: Seq<u128>,
    init: VmState,
    isd: int,
    pos: int,
)
    requires
        trace_build_inv(pre, program, init, isd, pos),
        !vm_is_imm(program, pos),
        0 <= pos < program.len() - 1,
        program[pos] == crate::opcodes::DROP,
        post.well_formed(),
        post.depth == pre.depth - 1,
        post.max_depth == pre.max_depth,
        post.secret_inputs_a == pre.secret_inputs_a,
        post.secret_inputs_b == pre.secret_inputs_b,
        StackTrace::frame(&pre, &post, pos),
        forall|i: int|
            0 <= i < pre.depth - 1 ==> #[trigger] post.user_cell(i, pos + 1)
                == pre.user_cell(i + 1, pos),
        forall|i: int|
            pre.depth - 1 <= i < pre.width()
                ==> #[trigger] post.user_cell(i, pos + 1) == 0,
    ensures
        trace_build_inv(post, program, init, isd, pos + 1),
{
    assert(vm_step_ok(program, init, pos));
    lemma_vm_state_at_inv(program, init, pos);
    let st_i = vm_state_at(program, init, pos);
    assert(row_matches(pre, st_i, pos));
    assert forall|q: int| 0 <= q < pre.width() implies #[trigger] pre.user_cell(q, pos)
        == st_i.stack[q] by {
    }
    let op = program[pos];
    lemma_vm_op_step_inv(st_i, op, pos);
    let st_next = vm_op_step(st_i, op, pos);
    assert(vm_state_at(program, init, pos + 1) == st_next) by {
        reveal(vm_state_at);
    }
    reveal(vm_op_step);
    assert(post.depth == st_next.depth);
    assert(post.max_depth == st_next.max_depth);
    assert(post.secret_inputs_a@ == st_next.secret_a);
    assert(post.secret_inputs_b@ == st_next.secret_b);
    assert(post.width() == (if st_next.max_depth > isd {
        st_next.max_depth
    } else {
        isd
    }));
    lemma_build_drop_rows(pre, post, program, init, isd, pos);
    lemma_build_drop_aux(pre, post, program, init, isd, pos);
}

/// The row facts of [`lemma_build_drop4`]: every earlier row keeps matching the
/// machine run, row `pos + 1` now matches it too, and the rows past it
/// are still blank.
#[verifier::rlimit(100)]
proof fn lemma_build_drop4_rows(
    pre: StackTrace,
    post: StackTrace,
    program: Seq<u128>,
    init: VmState,
    isd: int,
    pos: int,
)
    requires
        trace_build_inv(pre, program, init, isd, pos),
        !vm_is_imm(program, pos),
        0 <= pos < program.len() - 1,
        program[pos] == crate::opcodes::DROP4,
        post.well_formed(),
        post.depth == pre.depth - 4,
        post.max_depth == pre.max_depth,
        post.secret_inputs_a == pre.secret_inputs_a,
        post.secret_inputs_b == pre.secret_inputs_b,
        StackTrace::frame(&pre, &post, pos),
        forall|i: int|
            0 <= i < pre.depth - 4 ==> #[trigger] post.user_cell(i, pos + 1)
                == pre.user_cell(i + 4, pos),
        forall|i: int|
            pre.depth - 4 <= i < pre.width()
                ==> #[trigger] post.user_cell(i, pos + 1) == 0,
    ensures
        forall|s: int|
            0 <= s <= pos + 1 ==> #[trigger] row_matches(post, vm_state_at(program, init, s), s),
        forall|s: int| pos + 1 < s < program.len() ==> #[trigger] post.row_clear(s),
{
    assert(vm_step_ok(program, init, pos));
    lemma_vm_state_at_inv(program, init, pos);
    let st_i = vm_state_at(program, init, pos);
    assert(row_matches(pre, st_i, pos));
    assert forall|q: int| 0 <= q < pre.width() implies #[trigger] pre.user_cell(q, pos)
        == st_i.stack[q] by {
    }
    let op = program[pos];
    lemma_vm_op_step_inv(st_i, op, pos);
    let st_next = vm_op_step(st_i, op, pos);
    assert(vm_state_at(program, init, pos + 1) == st_next) by {
        reveal(vm_state_at);
    }
    reveal(vm_op_step);
    assert(post.depth == st_next.depth);
    assert(post.max_depth == st_next.max_depth);
    assert(post.secret_inputs_a@ == st_next.secret_a);
    assert(post.secret_inputs_b@ == st_next.secret_b);
    assert(post.width() == (if st_next.max_depth > isd {
        st_next.max_depth
    } else {
        isd
    }));
    // every earlier row keeps matching, and row pos + 1 now matches too
    assert forall|s: int| 0 <= s <= pos + 1 implies #[trigger] row_matches(
        post,
        vm_state_at(program, init, s),
        s,
    ) by {
        if s <= pos {
            assert(row_matches(pre, vm_state_at(program, init, s), s));
            assert forall|cc: int| 0 <= cc < post.width() implies #[trigger] post.user_cell(cc, s)
                == vm_state_at(program, init, s).stack[cc] by {
                assert(pre.user_cell(cc, s) == vm_state_at(program, init, s).stack[cc]);
            }
        } else {
            assert forall|cc: int| 0 <= cc < post.width() implies #[trigger] post.user_cell(cc, s)
                == st_next.stack[cc] by {
            }
        }
    }
    // the rows past pos + 1 are still blank
    assert forall|s: int| pos + 1 < s < program.len() implies #[trigger] post.row_clear(s) by {
        assert(pre.row_clear(s));
        assert forall|cc: int| 0 <= cc < post.width() implies #[trigger] post.user_cell(cc, s)
            == 0 by {
            assert(pre.user_cell(cc, s) == 0);
        }
    }
}

/// The auxiliary-column facts of [`lemma_build_drop4`]: column 0 carries exactly the
/// witnesses of the steps taken, column 1 stays zero.
#[verifier::rlimit(100)]
proof fn lemma_build_drop4_aux(
    pre: StackTrace,
    post: StackTrace,
    program: Seq<u128>,
    init: VmState,
    isd: int,
    pos: int,
)
    requires
        trace_build_inv(pre, program, init, isd, pos),
        !vm_is_imm(program, pos),
        0 <= pos < program.len() - 1,
        program[pos] == crate::opcodes::DROP4,
        post.well_formed(),
        post.depth == pre.depth - 4,
        post.max_depth == pre.max_depth,
        post.secret_inputs_a == pre.secret_inputs_a,
        post.secret_inputs_b == pre.secret_inputs_b,
        StackTrace::frame(&pre, &post, pos),
        forall|i: int|
            0 <= i < pre.depth - 4 ==> #[trigger] post.user_cell(i, pos + 1)
                == pre.user_cell(i + 4, pos),
        forall|i: int|
            pre.depth - 4 <= i < pre.width()
                ==> #[trigger] post.user_cell(i, pos + 1) == 0,
    ensures
        forall|s: int|
            0 <= s < pos + 1 ==> #[trigger] post.aux_cell(0, s) == vm_aux0_at(program, init, s),
        forall|s: int| pos + 1 <= s < program.len() ==> #[trigger] post.aux_cell(0, s) == 0,
        forall|s: int| 0 <= s < program.len() ==> #[trigger] post.aux_cell(1, s) == 0,
{
    assert(vm_step_ok(program, init, pos));
    lemma_vm_state_at_inv(program, init, pos);
    let st_i = vm_state_at(program, init, pos);
    assert(row_matches(pre, st_i, pos));
    assert forall|q: int| 0 <= q < pre.width() implies #[trigger] pre.user_cell(q, pos)
        == st_i.stack[q] by {
    }
    let op = program[pos];
    lemma_vm_op_step_inv(st_i, op, pos);
    let st_next = vm_op_step(st_i, op, pos);
    assert(vm_state_at(program, init, pos + 1) == st_next) by {
        reveal(vm_state_at);
    }
    reveal(vm_op_step);
    assert(post.depth == st_next.depth);
    assert(post.max_depth == st_next.max_depth);
    assert(post.secret_inputs_a@ == st_next.secret_a);
    assert(post.secret_inputs_b@ == st_next.secret_b);
    assert(post.width() == (if st_next.max_depth > isd {
        st_next.max_depth
    } else {
        isd
    }));
    // auxiliary column 0 records the witnesses of the steps taken
    assert forall|s: int| 0 <= s < pos + 1 implies #[trigger] post.aux_cell(0, s) == vm_aux0_at(
        program,
        init,
        s,
    ) by {
        if s < pos {
            assert(pre.aux_cell(0, s) == vm_aux0_at(program, init, s));
            assert(post.aux_registers == pre.aux_registers);
        } else {
            assert(pre.aux_cell(0, pos) == 0);
            assert(vm_aux0_at(program, init, pos) == 0);
        }
    }
    assert forall|s: int| pos + 1 <= s < program.len() implies #[trigger] post.aux_cell(0, s)
        == 0 by {
        assert(pre.aux_cell(0, s) == 0);
            assert(post.aux_registers == pre.aux_registers);
    }
    assert forall|s: int| 0 <= s < program.len() implies #[trigger] post.aux_cell(1, s) == 0 by {
        assert(pre.aux_cell(1, s) == 0);
        assert(post.aux_registers == pre.aux_registers);
    }
}

/// Carrying out one drop4 step at slot `pos` preserves the
/// trace-building invariant at slot `pos + 1`.
#[verifier::rlimit(100)]
proof fn lemma_build_drop4(
    pre: StackTrace,
    post: StackTrace,
    program: Seq<u128>,
    init: VmState,
    isd: int,
    pos: int,
)
    requires
        trace_build_inv(pre, program, init, isd, pos),
        !vm_is_imm(program, pos),
        0 <= pos < program.len() - 1,
        program[pos] == crate::opcodes::DROP4,
        post.well_formed(),
        post.depth == pre.depth - 4,
        post.max_depth == pre.max_depth,
        post.secret_inputs_a == pre.secret_inputs_a,
        post.secret_inputs_b == pre.secret_inputs_b,
        StackTrace::frame(&pre, &post, pos),
        forall|i: int|
            0 <= i < pre.depth - 4 ==> #[trigger] post.user_cell(i, pos + 1)
                == pre.user_cell(i + 4, pos),
        forall|i: int|
            pre.depth - 4 <= i < pre.width()
                ==> #[trigger] post.user_cell(i, pos + 1) == 0,
    ensures
        trace_build_inv(post, program, init, isd, pos + 1),
{
    assert(vm_step_ok(program, init, pos));
    lemma_vm_state_at_inv(program, init, pos);
    let st_i = vm_state_at(program, init, pos);
    assert(row_matches(pre, st_i, pos));
    assert forall|q: int| 0 <= q < pre.width() implies #[trigger] pre.user_cell(q, pos)
        == st_i.stack[q] by {
    }
    let op = program[pos];
    lemma_vm_op_step_inv(st_i, op, pos);
    let st_next = vm_op_step(st_i, op, pos);
    assert(vm_state_at(program, init, pos + 1) == st_next) by {
        reveal(vm_state_at);
    }
    reveal(vm_op_step);
    assert(post.depth == st_next.depth);
    assert(post.max_depth == st_next.max_depth);
    assert(post.secret_inputs_a@ == st_next.secret_a);
    assert(post.secret_inputs_b@ == st_next.secret_b);
    assert(post.width() == (if st_next.max_depth > isd {
        st_next.max_depth
    } else {
        isd
    }));
    lemma_build_drop4_rows(pre, post, program, init, isd, pos);
    lemma_build_drop4_aux(pre, post, program, init, isd, pos);
}

/// The row facts of [`lemma_build_dup`]: every earlier row keeps matching the
/// machine run, row `pos + 1` now matches it too, and the rows past it
/// are still blank.
#[verifier::rlimit(100)]
proof fn lemma_build_dup_rows(
    pre: StackTrace,
    post: StackTrace,
    program: Seq<u128>,
    init: VmState,
    isd: int,
    pos: int,
)
    requires
        trace_build_inv(pre, program, init, isd, pos),
        !vm_is_imm(program, pos),
        0 <= pos < program.len() - 1,
        program[pos] == crate::opcodes::DUP,
        post.well_formed(),
        post.depth == pre.depth + 1,
        post.max_depth == (if pre.depth + 1 > pre.max_depth {
            pre.depth + 1
        } else {
            pre.max_depth as int
        }),
        post.width() == (if post.max_depth > pre.width() {
            post.max_depth as int
        } else {
            pre.width()
        }),
        post.secret_inputs_a == pre.secret_inputs_a,
        post.secret_inputs_b == pre.secret_inputs_b,
        StackTrace::grow_frame(&pre, &post, pos),
        post.user_cell(0, pos + 1) == pre.user_cell(0, pos),
        forall|i: int|
            1 <= i < pre.depth + 1 ==> #[trigger] post.user_cell(i, pos + 1)
                == pre.user_cell(i - 1, pos),
        forall|i: int|
            pre.depth + 1 <= i < post.width()
                ==> #[trigger] post.user_cell(i, pos + 1) == 0,
    ensures
        forall|s: int|
            0 <= s <= pos + 1 ==> #[trigger] row_matches(post, vm_state_at(program, init, s), s),
        forall|s: int| pos + 1 < s < program.len() ==> #[trigger] post.row_clear(s),
{
    assert(vm_step_ok(program, init, pos));
    lemma_vm_state_at_inv(program, init, pos);
    lemma_vm_columns_blank(program, init, pos);
    let st_i = vm_state_at(program, init, pos);
    assert(row_matches(pre, st_i, pos));
    assert forall|q: int| 0 <= q < pre.width() implies #[trigger] pre.user_cell(q, pos)
        == st_i.stack[q] by {
    }
    let op = program[pos];
    lemma_vm_op_step_inv(st_i, op, pos);
    let st_next = vm_op_step(st_i, op, pos);
    assert(vm_state_at(program, init, pos + 1) == st_next) by {
        reveal(vm_state_at);
    }
    reveal(vm_op_step);
    assert(post.depth == st_next.depth);
    assert(post.max_depth == st_next.max_depth);
    assert(post.secret_inputs_a@ == st_next.secret_a);
    assert(post.secret_inputs_b@ == st_next.secret_b);
    assert(post.width() == (if st_next.max_depth > isd {
        st_next.max_depth
    } else {
        isd
    }));
    // every earlier row keeps matching, and row pos + 1 now matches too
    assert forall|s: int| 0 <= s <= pos + 1 implies #[trigger] row_matches(
        post,
        vm_state_at(program, init, s),
        s,
    ) by {
        if s <= pos {
            assert(row_matches(pre, vm_state_at(program, init, s), s));
            assert forall|cc: int| 0 <= cc < post.width() implies #[trigger] post.user_cell(cc, s)
                == vm_state_at(program, init, s).stack[cc] by {
                if cc < pre.width() {
                    assert(pre.user_cell(cc, s) == vm_state_at(program, init, s).stack[cc]);
                } else {
                    assert(vm_state_at(program, init, s).stack[cc] == 0);
                }
            }
        } else {
            assert forall|cc: int| 0 <= cc < post.width() implies #[trigger] post.user_cell(cc, s)
                == st_next.stack[cc] by {
            }
        }
    }
    // the rows past pos + 1 are still blank
    assert forall|s: int| pos + 1 < s < program.len() implies #[trigger] post.row_clear(s) by {
        assert(pre.row_clear(s));
        assert forall|cc: int| 0 <= cc < post.width() implies #[trigger] post.user_cell(cc, s)
            == 0 by {
            if cc < pre.width() {
                assert(pre.user_cell(cc, s) == 0);
            }
        }
    }
}

/// The auxiliary-column facts of [`lemma_build_dup`]: column 0 carries exactly the
/// witnesses of the steps taken, column 1 stays zero.
#[verifier::rlimit(100)]
proof fn lemma_build_dup_aux(
    pre: StackTrace,
    post: StackTrace,
    program: Seq<u128>,
    init: VmState,
    isd: int,
    pos: int,
)
    requires
        trace_build_inv(pre, program, init, isd, pos),
        !vm_is_imm(program, pos),
        0 <= pos < program.len() - 1,
        program[pos] == crate::opcodes::DUP,
        post.well_formed(),
        post.depth == pre.depth + 1,
        post.max_depth == (if pre.depth + 1 > pre.max_depth {
            pre.depth + 1
        } else {
            pre.max_depth as int
        }),
        post.width() == (if post.max_depth > pre.width() {
            post.max_depth as int
        } else {
            pre.width()
        }),
        post.secret_inputs_a == pre.secret_inputs_a,
        post.secret_inputs_b == pre.secret_inputs_b,
        StackTrace::grow_frame(&pre, &post, pos),
        post.user_cell(0, pos + 1) == pre.user_cell(0, pos),
        forall|i: int|
            1 <= i < pre.depth + 1 ==> #[trigger] post.user_cell(i, pos + 1)
                == pre.user_cell(i - 1, pos),
        forall|i: int|
            pre.depth + 1 <= i < post.width()
                ==> #[trigger] post.user_cell(i, pos + 1) == 0,
    ensures
        forall|s: int|
            0 <= s < pos + 1 ==> #[trigger] post.aux_cell(0, s) == vm_aux0_at(program, init, s),
        forall|s: int| pos + 1 <= s < program.len() ==> #[trigger] post.aux_cell(0, s) == 0,
        forall|s: int| 0 <= s < program.len() ==> #[trigger] post.aux_cell(1, s) == 0,
{
    assert(vm_step_ok(program, init, pos));
    lemma_vm_state_at_inv(program, init, pos);
    lemma_vm_columns_blank(program, init, pos);
    let st_i = vm_state_at(program, init, pos);
    assert(row_matches(pre, st_i, pos));
    assert forall|q: int| 0 <= q < pre.width() implies #[trigger] pre.user_cell(q, pos)
        == st_i.stack[q] by {
    }
    let op = program[pos];
    lemma_vm_op_step_inv(st_i, op, pos);
    let st_next = vm_op_step(st_i, op, pos);
    assert(vm_state_at(program, init, pos + 1) == st_next) by {
        reveal(vm_state_at);
    }
    reveal(vm_op_step);
    assert(post.depth == st_next.depth);
    assert(post.max_depth == st_next.max_depth);
    assert(post.secret_inputs_a@ == st_next.secret_a);
    assert(post.secret_inputs_b@ == st_next.secret_b);
    assert(post.width() == (if st_next.max_depth > isd {
        st_next.max_depth
    } else {
        isd
    }));
    // auxiliary column 0 records the witnesses of the steps taken
    assert forall|s: int| 0 <= s < pos + 1 implies #[trigger] post.aux_cell(0, s) == vm_aux0_at(
        program,
        init,
        s,
    ) by {
        if s < pos {
            assert(pre.aux_cell(0, s) == vm_aux0_at(program, init, s));
            assert(post.aux_registers == pre.aux_registers);
        } else {
            assert(pre.aux_cell(0, pos) == 0);
            assert(vm_aux0_at(program, init, pos) == 0);
        }
    }
    assert forall|s: int| pos + 1 <= s < program.len() implies #[trigger] post.aux_cell(0, s)
        == 0 by {
        assert(pre.aux_cell(0, s) == 0);
            assert(post.aux_registers == pre.aux_registers);
    }
    assert forall|s: int| 0 <= s < program.len() implies #[trigger] post.aux_cell(1, s) == 0 by {
        assert(pre.aux_cell(1, s) == 0);
        assert(post.aux_registers == pre.aux_registers);
    }
}

/// Carrying out one dup step at slot `pos` preserves the
/// trace-building invariant at slot `pos + 1`.
#[verifier::rlimit(100)]
proof fn lemma_build_dup(
    pre: StackTrace,
    post: StackTrace,
    program: Seq<u128>,
    init: VmState,
    isd: int,
    pos: int,
)
    requires
        trace_build_inv(pre, program, init, isd, pos),
        !vm_is_imm(program, pos),
        0 <= pos < program.len() - 1,
        program[pos] == crate::opcodes::DUP,
        post.well_formed(),
        post.depth == pre.depth + 1,
        post.max_depth == (if pre.depth + 1 > pre.max_depth {
            pre.depth + 1
        } else {
            pre.max_depth as int
        }),
        post.width() == (if post.max_depth > pre.width() {
            post.max_depth as int
        } else {
            pre.width()
        }),
        post.secret_inputs_a == pre.secret_inputs_a,
        post.secret_inputs_b == pre.secret_inputs_b,
        StackTrace::grow_frame(&pre, &post, pos),
        post.user_cell(0, pos + 1) == pre.user_cell(0, pos),
        forall|i: int|
            1 <= i < pre.depth + 1 ==> #[trigger] post.user_cell(i, pos + 1)
                == pre.user_cell(i - 1, pos),
        forall|i: int|
            pre.depth + 1 <= i < post.width()
                ==> #[trigger] post.user_cell(i, pos + 1) == 0,
    ensures
        trace_build_inv(post, program, init, isd, pos + 1),
{
    assert(vm_step_ok(program, init, pos));
    lemma_vm_state_at_inv(program, init, pos);
    lemma_vm_columns_blank(program, init, pos);
    let st_i = vm_state_at(program, init, pos);
    assert(row_matches(pre, st_i, pos));
    assert forall|q: int| 0 <= q < pre.width() implies #[trigger] pre.user_cell(q, pos)
        == st_i.stack[q] by {
    }
    let op = program[pos];
    lemma_vm_op_step_inv(st_i, op, pos);
    let st_next = vm_op_step(st_i, op, pos);
    assert(vm_state_at(program, init, pos + 1) == st_next) by {
        reveal(vm_state_at);
    }
    reveal(vm_op_step);
    assert(post.depth == st_next.depth);
    assert(post.max_depth == st_next.max_depth);
    assert(post.secret_inputs_a@ == st_next.secret_a);
    assert(post.secret_inputs_b@ == st_next.secret_b);
    assert(post.width() == (if st_next.max_depth > isd {
        st_next.max_depth
    } else {
        isd
    }));
    lemma_build_dup_rows(pre, post, program, init, isd, pos);
    lemma_build_dup_aux(pre, post, program, init, isd, pos);
}

/// The new-row fact of [`lemma_build_dup2`]: row `pos + 1` of the builder equals
/// the machine stack after the step.
#[verifier::rlimit(100)]
proof fn lemma_build_dup2_newrow(
    pre: StackTrace,
    post: StackTrace,
    program: Seq<u128>,
    init: VmState,
    isd: int,
    pos: int,
)
    requires
        trace_build_inv(pre, program, init, isd, pos),
        !vm_is_imm(program, pos),
        0 <= pos < program.len() - 1,
        program[pos] == crate::opcodes::DUP2,
        post.well_formed(),
        post.depth == pre.depth + 2,
        post.max_depth == (if pre.depth + 2 > pre.max_depth {
            pre.depth + 2
        } else {
            pre.max_depth as int
        }),
        post.width() == (if post.max_depth > pre.width() {
            post.max_depth as int
        } else {
            pre.width()
        }),
        post.secret_inputs_a == pre.secret_inputs_a,
        post.secret_inputs_b == pre.secret_inputs_b,
        StackTrace::grow_frame(&pre, &post, pos),
        post.user_cell(0, pos + 1) == pre.user_cell(0, pos),
        post.user_cell(1, pos + 1) == pre.user_cell(1, pos),
        forall|i: int|
            2 <= i < pre.depth + 2 ==> #[trigger] post.user_cell(i, pos + 1)
                == pre.user_cell(i - 2, pos),
        forall|i: int|
            pre.depth + 2 <= i < post.width()
                ==> #[trigger] post.user_cell(i, pos + 1) == 0,
    ensures
        row_matches(post, vm_state_at(program, init, pos + 1), pos + 1),
{
    assert(vm_step_ok(program, init, pos));
    lemma_vm_state_at_inv(program, init, pos);
    lemma_vm_columns_blank(program, init, pos);
    let st_i = vm_state_at(program, init, pos);
    assert(row_matches(pre, st_i, pos));
    assert forall|q: int| 0 <= q < pre.width() implies #[trigger] pre.user_cell(q, pos)
        == st_i.stack[q] by {
    }
    let op = program[pos];
    lemma_vm_op_step_inv(st_i, op, pos);
    let st_next = vm_op_step(st_i, op, pos);
    assert(vm_state_at(program, init, pos + 1) == st_next) by {
        reveal(vm_state_at);
    }
    reveal(vm_op_step);
    assert(post.depth == st_next.depth);
    assert(post.max_depth == st_next.max_depth);
    assert(post.secret_inputs_a@ == st_next.secret_a);
    assert(post.secret_inputs_b@ == st_next.secret_b);
    assert(post.width() == (if st_next.max_depth > isd {
        st_next.max_depth
    } else {
        isd
    }));
    assert forall|cc: int| 0 <= cc < post.width() implies #[trigger] post.user_cell(
        cc,
        pos + 1,
    ) == st_next.stack[cc] by {
    }
}

/// The row facts of [`lemma_build_dup2`]: every earlier row keeps matching the
/// machine run, row `pos + 1` now matches it too, and the rows past it
/// are still blank.
#[verifier::rlimit(100)]
proof fn lemma_build_dup2_rows(
    pre: StackTrace,
    post: StackTrace,
    program: Seq<u128>,
    init: VmState,
    isd: int,
    pos: int,
)
    requires
        trace_build_inv(pre, program, init, isd, pos),
        !vm_is_imm(program, pos),
        0 <= pos < program.len() - 1,
        program[pos] == crate::opcodes::DUP2,
        post.well_formed(),
        post.depth == pre.depth + 2,
        post.max_depth == (if pre.depth + 2 > pre.max_depth {
            pre.depth + 2
        } else {
            pre.max_depth as int
        }),
        post.width() == (if post.max_depth > pre.width() {
            post.max_depth as int
        } else {
            pre.width()
        }),
        post.secret_inputs_a == pre.secret_inputs_a,
        post.secret_inputs_b == pre.secret_inputs_b,
        StackTrace::grow_frame(&pre, &post, pos),
        post.user_cell(0, pos + 1) == pre.user_cell(0, pos),
        post.user_cell(1, pos + 1) == pre.user_cell(1, pos),
        forall|i: int|
            2 <= i < pre.depth + 2 ==> #[trigger] post.user_cell(i, pos + 1)
                == pre.user_cell(i - 2, pos),
        forall|i: int|
            pre.depth + 2 <= i < post.width()
                ==> #[trigger] post.user_cell(i, pos + 1) == 0,
    ensures
        forall|s: int|
            0 <= s <= pos + 1 ==> #[trigger] row_matches(post, vm_state_at(program, init, s), s),
        forall|s: int| pos + 1 < s < program.len() ==> #[trigger] post.row_clear(s),
{
    assert(vm_step_ok(program, init, pos));
    lemma_vm_state_at_inv(program, init, pos);
    lemma_vm_columns_blank(program, init, pos);
    let st_i = vm_state_at(program, init, pos);
    assert(row_matches(pre, st_i, pos));
    assert forall|q: int| 0 <= q < pre.width() implies #[trigger] pre.user_cell(q, pos)
        == st_i.stack[q] by {
    }
    let op = program[pos];
    lemma_vm_op_step_inv(st_i, op, pos);
    let st_next = vm_op_step(st_i, op, pos);
    assert(vm_state_at(program, init, pos + 1) == st_next) by {
        reveal(vm_state_at);
    }
    reveal(vm_op_step);
    assert(post.depth == st_next.depth);
    assert(post.max_depth == st_next.max_depth);
    assert(post.secret_inputs_a@ == st_next.secret_a);
    assert(post.secret_inputs_b@ == st_next.secret_b);
    assert(post.width() == (if st_next.max_depth > isd {
        st_next.max_depth
    } else {
        isd
    }));
    lemma_build_dup2_newrow(pre, post, program, init, isd, pos);
    // every earlier row keeps matching, and row pos + 1 now matches too
    assert forall|s: int| 0 <= s <= pos + 1 implies #[trigger] row_matches(
        post,
        vm_state_at(program, init, s),
        s,
    ) by {
        if s <= pos {
            assert(row_matches(pre, vm_state_at(program, init, s), s));
            assert forall|cc: int| 0 <= cc < post.width() implies #[trigger] post.user_cell(cc, s)
                == vm_state_at(program, init, s).stack[cc] by {
                if cc < pre.width() {
                    assert(pre.user_cell(cc, s) == vm_state_at(program, init, s).stack[cc]);
                } else {
                    assert(vm_state_at(program, init, s).stack[cc] == 0);
                }
            }
        } else {
            assert(row_matches(post, vm_state_at(program, init, s), s));
        }
    }
    // the rows past pos + 1 are still blank
    assert forall|s: int| pos + 1 < s < program.len() implies #[trigger] post.row_clear(s) by {
        assert(pre.row_clear(s));
        assert forall|cc: int| 0 <= cc < post.width() implies #[trigger] post.user_cell(cc, s)
            == 0 by {
            if cc < pre.width() {
                assert(pre.user_cell(cc, s) == 0);
            }
        }
    }
}

/// The auxiliary-column facts of [`lemma_build_dup2`]: column 0 carries exactly the
/// witnesses of the steps taken, column 1 stays zero.
#[verifier::rlimit(100)]
proof fn lemma_build_dup2_aux(
    pre: StackTrace,
    post: StackTrace,
    program: Seq<u128>,
    init: VmState,
    isd: int,
    pos: int,
)
    requires
        trace_build_inv(pre, program, init, isd, pos),
        !vm_is_imm(program, pos),
        0 <= pos < program.len() - 1,
        program[pos] == crate::opcodes::DUP2,
        post.well_formed(),
        post.depth == pre.depth + 2,
        post.max_depth == (if pre.depth + 2 > pre.max_depth {
            pre.depth + 2
        } else {
            pre.max_depth as int
        }),
        post.width() == (if post.max_depth > pre.width() {
            post.max_depth as int
        } else {
            pre.width()
        }),
        post.secret_inputs_a == pre.secret_inputs_a,
        post.secret_inputs_b == pre.secret_inputs_b,
        StackTrace::grow_frame(&pre, &post, pos),
        post.user_cell(0, pos + 1) == pre.user_cell(0, pos),
        post.user_cell(1, pos + 1) == pre.user_cell(1, pos),
        forall|i: int|
            2 <= i < pre.depth + 2 ==> #[trigger] post.user_cell(i, pos + 1)
                == pre.user_cell(i - 2, pos),
        forall|i: int|
            pre.depth + 2 <= i < post.width()
                ==> #[trigger] post.user_cell(i, pos + 1) == 0,
    ensures
        forall|s: int|
            0 <= s < pos + 1 ==> #[trigger] post.aux_cell(0, s) == vm_aux0_at(program, init, s),
        forall|s: int| pos + 1 <= s < program.len() ==> #[trigger] post.aux_cell(0, s) == 0,
        forall|s: int| 0 <= s < program.len() ==> #[trigger] post.aux_cell(1, s) == 0,
{
    assert(vm_step_ok(program, init, pos));
    lemma_vm_state_at_inv(program, init, pos);
    lemma_vm_columns_blank(program, init, pos);
    let st_i = vm_state_at(program, init, pos);
    assert(row_matches(pre, st_i, pos));
    assert forall|q: int| 0 <= q < pre.width() implies #[trigger] pre.user_cell(q, pos)
        == st_i.stack[q] by {
    }
    let op = program[pos];
    lemma_vm_op_step_inv(st_i, op, pos);
    let st_next = vm_op_step(st_i, op, pos);
    assert(vm_state_at(program, init, pos + 1) == st_next) by {
        reveal(vm_state_at);
    }
    reveal(vm_op_step);
    assert(post.depth == st_next.depth);
    assert(post.max_depth == st_next.max_depth);
    assert(post.secret_inputs_a@ == st_next.secret_a);
    assert(post.secret_inputs_b@ == st_next.secret_b);
    assert(post.width() == (if st_next.max_depth > isd {
        st_next.max_depth
    } else {
        isd
    }));
    // auxiliary column 0 records the witnesses of the steps taken
    assert forall|s: int| 0 <= s < pos + 1 implies #[trigger] post.aux_cell(0, s) == vm_aux0_at(
        program,
        init,
        s,
    ) by {
        if s < pos {
            assert(pre.aux_cell(0, s) == vm_aux0_at(program, init, s));
            assert(post.aux_registers == pre.aux_registers);
        } else {
            assert(pre.aux_cell(0, pos) == 0);
            assert(vm_aux0_at(program, init, pos) == 0);
        }
    }
    assert forall|s: int| pos + 1 <= s < program.len() implies #[trigger] post.aux_cell(0, s)
        == 0 by {
        assert(pre.aux_cell(0, s) == 0);
            assert(post.aux_registers == pre.aux_registers);
    }
    assert forall|s: int| 0 <= s < program.len() implies #[trigger] post.aux_cell(1, s) == 0 by {
        assert(pre.aux_cell(1, s) == 0);
        assert(post.aux_registers == pre.aux_registers);
    }
}

/// Carrying out one dup2 step at slot `pos` preserves the
/// trace-building invariant at slot `pos + 1`.
#[verifier::rlimit(100)]
proof fn lemma_build_dup2(
    pre: StackTrace,
    post: StackTrace,
    program: Seq<u128>,
    init: VmState,
    isd: int,
    pos: int,
)
    requires
        trace_build_inv(pre, program, init, isd, pos),
        !vm_is_imm(program, pos),
        0 <= pos < program.len() - 1,
        program[pos] == crate::opcodes::DUP2,
        post.well_formed(),
        post.depth == pre.depth + 2,
        post.max_depth == (if pre.depth + 2 > pre.max_depth {
            pre.depth + 2
        } else {
            pre.max_depth as int
        }),
        post.width() == (if post.max_depth > pre.width() {
            post.max_depth as int
        } else {
            pre.width()
        }),
        post.secret_inputs_a == pre.secret_inputs_a,
        post.secret_inputs_b == pre.secret_inputs_b,
        StackTrace::grow_frame(&pre, &post, pos),
        post.user_cell(0, pos + 1) == pre.user_cell(0, pos),
        post.user_cell(1, pos + 1) == pre.user_cell(1, pos),
        forall|i: int|
            2 <= i < pre.depth + 2 ==> #[trigger] post.user_cell(i, pos + 1)
                == pre.user_cell(i - 2, pos),
        forall|i: int|
            pre.depth + 2 <= i < post.width()
                ==> #[trigger] post.user_cell(i, pos + 1) == 0,
    ensures
        trace_build_inv(post, program, init, isd, pos + 1),
{
    assert(vm_step_ok(program, init, pos));
    lemma_vm_state_at_inv(program, init, pos);
    lemma_vm_columns_blank(program, init, pos);
    let st_i = vm_state_at(program, init, pos);
    assert(row_matches(pre, st_i, pos));
    assert forall|q: int| 0 <= q < pre.width() implies #[trigger] pre.user_cell(q, pos)
        == st_i.stack[q] by {
    }
    let op = program[pos];
    lemma_vm_op_step_inv(st_i, op, pos);
    let st_next = vm_op_step(st_i, op, pos);
    assert(vm_state_at(program, init, pos + 1) == st_next) by {
        reveal(vm_state_at);
    }
    reveal(vm_op_step);
    assert(post.depth == st_next.depth);
    assert(post.max_depth == st_next.max_depth);
    assert(post.secret_inputs_a@ == st_next.secret_a);
    assert(post.secret_inputs_b@ == st_next.secret_b);
    assert(post.width() == (if st_next.max_depth > isd {
        st_next.max_depth
    } else {
        isd
    }));
    lemma_build_dup2_rows(pre, post, program, init, isd, pos);
    lemma_build_dup2_aux(pre, post, program, init, isd, pos);
}

/// The new-row fact of [`lemma_build_dup4`]: row `pos + 1` of the
/// builder equals the expected machine stack row.
#[verifier::rlimit(100)]
proof fn lemma_build_dup4_newrow(
    pre: StackTrace,
    post: StackTrace,
    st_i: VmState,
    row: Seq<u128>,
    pos: int,
)
    requires
        pre.well_formed(),
        post.well_formed(),
        st_i.stack.len() == MAX_USER_STACK_DEPTH,
        post.width() <= MAX_USER_STACK_DEPTH,
        st_i.depth >= 4,
        pre.depth == st_i.depth,
        pre.secret_inputs_a@ == st_i.secret_a,
        pre.secret_inputs_b@ == st_i.secret_b,
        post.width() >= pre.depth + 4,
        post.width() >= pre.width(),
        forall|q: int|
            0 <= q < pre.width() ==> #[trigger] pre.user_cell(q, pos) == st_i.stack[q],
        row == vm_stack_row(
            seq![st_i.stack[0], st_i.stack[1], st_i.stack[2], st_i.stack[3]],
            st_i.stack,
            0,
            st_i.depth,
        ),
        forall|i: int|
            0 <= i < 4 ==> #[trigger] post.user_cell(i, pos + 1) == pre.user_cell(i, pos),
        forall|i: int|
            4 <= i < pre.depth + 4 ==> #[trigger] post.user_cell(i, pos + 1) == pre.user_cell(
                i - 4,
                pos,
            ),
        forall|i: int|
            pre.depth + 4 <= i < post.width() ==> #[trigger] post.user_cell(i, pos + 1) == 0,
    ensures
        forall|cc: int|
            0 <= cc < post.width() ==> #[trigger] post.user_cell(cc, pos + 1) == row[cc],
{
    assert forall|cc: int| 0 <= cc < post.width() implies #[trigger] post.user_cell(
        cc,
        pos + 1,
    ) == row[cc] by {
        if cc == 0 {
            assert(pre.user_cell(0, pos) == st_i.stack[0]);
        } else if cc == 1 {
            assert(pre.user_cell(1, pos) == st_i.stack[1]);
        } else if cc == 2 {
            assert(pre.user_cell(2, pos) == st_i.stack[2]);
        } else if cc == 3 {
            assert(pre.user_cell(3, pos) == st_i.stack[3]);
        } else if cc < st_i.depth + 4 {
            assert(pre.user_cell(cc - 4, pos) == st_i.stack[cc - 4]);
        }
    }
}

/// The row facts of [`lemma_build_dup4`]: every earlier row keeps matching the
/// machine run, row `pos + 1` now matches it too, and the rows past it
/// are still blank.
#[verifier::rlimit(100)]
proof fn lemma_build_dup4_rows(
    pre: StackTrace,
    post: StackTrace,
    program: Seq<u128>,
    init: VmState,
    isd: int,
    pos: int,
)
    requires
        trace_build_inv(pre, program, init, isd, pos),
        !vm_is_imm(program, pos),
        0 <= pos < program.len() - 1,
        program[pos] == crate::opcodes::DUP4,
        post.well_formed(),
        post.depth == pre.depth + 4,
        post.max_depth == (if pre.depth + 4 > pre.max_depth {
            pre.depth + 4
        } else {
            pre.max_depth as int
        }),
        post.width() == (if post.max_depth > pre.width() {
            post.max_depth as int
        } else {
            pre.width()
        }),
        post.secret_inputs_a == pre.secret_inputs_a,
        post.secret_inputs_b == pre.secret_inputs_b,
        StackTrace::grow_frame(&pre, &post, pos),
        forall|i: int|
            0 <= i < 4 ==> #[trigger] post.user_cell(i, pos + 1) == pre.user_cell(i, pos),
        forall|i: int|
            4 <= i < pre.depth + 4 ==> #[trigger] post.user_cell(i, pos + 1)
                == pre.user_cell(i - 4, pos),
        forall|i: int|
            pre.depth + 4 <= i < post.width()
                ==> #[trigger] post.user_cell(i, pos + 1) == 0,
    ensures
        forall|s: int|
            0 <= s <= pos + 1 ==> #[trigger] row_matches(post, vm_state_at(program, init, s), s),
        forall|s: int| pos + 1 < s < program.len() ==> #[trigger] post.row_clear(s),
{
    assert(vm_step_ok(program, init, pos));
    lemma_vm_state_at_inv(program, init, pos);
    lemma_vm_columns_blank(program, init, pos);
    let st_i = vm_state_at(program, init, pos);
    assert(row_matches(pre, st_i, pos));
    assert forall|q: int| 0 <= q < pre.width() implies #[trigger] pre.user_cell(q, pos)
        == st_i.stack[q] by {
    }
    let op = program[pos];
    lemma_vm_op_step_inv(st_i, op, pos);
    let st_next = vm_op_step(st_i, op, pos);
    assert(vm_state_at(program, init, pos + 1) == st_next) by {
        reveal(vm_state_at);
    }
    reveal(vm_op_step);
    assert(post.depth == st_next.depth);
    assert(post.max_depth == st_next.max_depth);
    assert(post.secret_inputs_a@ == st_next.secret_a);
    assert(post.secret_inputs_b@ == st_next.secret_b);
    assert(post.width() == (if st_next.max_depth > isd {
        st_next.max_depth
    } else {
        isd
    }));
    assert(st_next.stack == vm_stack_row(
        seq![st_i.stack[0], st_i.stack[1], st_i.stack[2], st_i.stack[3]],
        st_i.stack,
        0,
        st_i.depth,
    ));
    lemma_build_dup4_newrow(pre, post, st_i, st_next.stack, pos);
    assert(row_matches(post, vm_state_at(program, init, pos + 1), pos + 1));
    // every earlier row keeps matching, and row pos + 1 now matches too
    assert forall|s: int| 0 <= s <= pos + 1 implies #[trigger] row_matches(
        post,
        vm_state_at(program, init, s),
        s,
    ) by {
        if s <= pos {
            assert(row_matches(pre, vm_state_at(program, init, s), s));
            assert forall|cc: int| 0 <= cc < post.width() implies #[trigger] post.user_cell(cc, s)
                == vm_state_at(program, init, s).stack[cc] by {
                if cc < pre.width() {
                    assert(pre.user_cell(cc, s) == vm_state_at(program, init, s).stack[cc]);
                } else {
                    assert(vm_state_at(program, init, s).stack[cc] == 0);
                }
            }
        } else {
            assert(row_matches(post, vm_state_at(program, init, s), s));
        }
    }
    // the rows past pos + 1 are still blank
    assert forall|s: int| pos + 1 < s < program.len() implies #[trigger] post.row_clear(s) by {
        assert(pre.row_clear(s));
        assert forall|cc: int| 0 <= cc < post.width() implies #[trigger] post.user_cell(cc, s)
            == 0 by {
            if cc < pre.width() {
                assert(pre.user_cell(cc, s) == 0);
            }
        }
    }
}

/// The auxiliary-column facts of [`lemma_build_dup4`]: column 0 carries exactly the
/// witnesses of the steps taken, column 1 stays zero.
#[verifier::rlimit(100)]
proof fn lemma_build_dup4_aux(
    pre: StackTrace,
    post: StackTrace,
    program: Seq<u128>,
    init: VmState,
    isd: int,
    pos: int,
)
    requires
        trace_build_inv(pre, program, init, isd, pos),
        !vm_is_imm(program, pos),
        0 <= pos < program.len() - 1,
        program[pos] == crate::opcodes::DUP4,
        post.well_formed(),
        post.depth == pre.depth + 4,
        post.max_depth == (if pre.depth + 4 > pre.max_depth {
            pre.depth + 4
        } else {
            pre.max_depth as int
        }),
        post.width() == (if post.max_depth > pre.width() {
            post.max_depth as int
        } else {
            pre.width()
        }),
        post.secret_inputs_a == pre.secret_inputs_a,
        post.secret_inputs_b == pre.secret_inputs_b,
        StackTrace::grow_frame(&pre, &post, pos),
        forall|i: int|
            0 <= i < 4 ==> #[trigger] post.user_cell(i, pos + 1) == pre.user_cell(i, pos),
        forall|i: int|
            4 <= i < pre.depth + 4 ==> #[trigger] post.user_cell(i, pos + 1)
                == pre.user_cell(i - 4, pos),
        forall|i: int|
            pre.depth + 4 <= i < post.width()
                ==> #[trigger] post.user_cell(i, pos + 1) == 0,
    ensures
        forall|s: int|
            0 <= s < pos + 1 ==> #[trigger] post.aux_cell(0, s) == vm_aux0_at(program, init, s),
        forall|s: int| pos + 1 <= s < program.len() ==> #[trigger] post.aux_cell(0, s) == 0,
        forall|s: int| 0 <= s < program.len() ==> #[trigger] post.aux_cell(1, s) == 0,
{
    assert(vm_step_ok(program, init, pos));
    lemma_vm_state_at_inv(program, init, pos);
    lemma_vm_columns_blank(program, init, pos);
    let st_i = vm_state_at(program, init, pos);
    assert(row_matches(pre, st_i, pos));
    assert forall|q: int| 0 <= q < pre.width() implies #[trigger] pre.user_cell(q, pos)
        == st_i.stack[q] by {
    }
    let op = program[pos];
    lemma_vm_op_step_inv(st_i, op, pos);
    let st_next = vm_op_step(st_i, op, pos);
    assert(vm_state_at(program, init, pos + 1) == st_next) by {
        reveal(vm_state_at);
    }
    reveal(vm_op_step);
    assert(post.depth == st_next.depth);
    assert(post.max_depth == st_next.max_depth);
    assert(post.secret_inputs_a@ == st_next.secret_a);
    assert(post.secret_inputs_b@ == st_next.secret_b);
    assert(post.width() == (if st_next.max_depth > isd {
        st_next.max_depth
    } else {
        isd
    }));
    // auxiliary column 0 records the witnesses of the steps taken
    assert forall|s: int| 0 <= s < pos + 1 implies #[trigger] post.aux_cell(0, s) == vm_aux0_at(
        program,
        init,
        s,
    ) by {
        if s < pos {
            assert(pre.aux_cell(0, s) == vm_aux0_at(program, init, s));
            assert(post.aux_registers == pre.aux_registers);
        } else {
            assert(pre.aux_cell(0, pos) == 0);
            assert(vm_aux0_at(program, init, pos) == 0);
        }
    }
    assert forall|s: int| pos + 1 <= s < program.len() implies #[trigger] post.aux_cell(0, s)
        == 0 by {
        assert(pre.aux_cell(0, s) == 0);
            assert(post.aux_registers == pre.aux_registers);
    }
    assert forall|s: int| 0 <= s < program.len() implies #[trigger] post.aux_cell(1, s) == 0 by {
        assert(pre.aux_cell(1, s) == 0);
        assert(post.aux_registers == pre.aux_registers);
    }
}

/// Carrying out one dup4 step at slot `pos` preserves the
/// trace-building invariant at slot `pos + 1`.
#[verifier::rlimit(100)]
proof fn lemma_build_dup4(
    pre: StackTrace,
    post: StackTrace,
    program: Seq<u128>,
    init: VmState,
    isd: int,
    pos: int,
)
    requires
        trace_build_inv(pre, program, init, isd, pos),
        !vm_is_imm(program, pos),
        0 <= pos < program.len() - 1,
        program[pos] == crate::opcodes::DUP4,
        post.well_formed(),
        post.depth == pre.depth + 4,
        post.max_depth == (if pre.depth + 4 > pre.max_depth {
            pre.depth + 4
        } else {
            pre.max_depth as int
        }),
        post.width() == (if post.max_depth > pre.width() {
            post.max_depth as int
        } else {
            pre.width()
        }),
        post.secret_inputs_a == pre.secret_inputs_a,
        post.secret_inputs_b == pre.secret_inputs_b,
        StackTrace::grow_frame(&pre, &post, pos),
        forall|i: int|
            0 <= i < 4 ==> #[trigger] post.user_cell(i, pos + 1) == pre.user_cell(i, pos),
        forall|i: int|
            4 <= i < pre.depth + 4 ==> #[trigger] post.user_cell(i, pos + 1)
                == pre.user_cell(i - 4, pos),
        forall|i: int|
            pre.depth + 4 <= i < post.width()
                ==> #[trigger] post.user_cell(i, pos + 1) == 0,
    ensures
        trace_build_inv(post, program, init, isd, pos + 1),
{
    assert(vm_step_ok(program, init, pos));
    lemma_vm_state_at_inv(program, init, pos);
    lemma_vm_columns_blank(program, init, pos);
    let st_i = vm_state_at(program, init, pos);
    assert(row_matches(pre, st_i, pos));
    assert forall|q: int| 0 <= q < pre.width() implies #[trigger] pre.user_cell(q, pos)
        == st_i.stack[q] by {
    }
    let op = program[pos];
    lemma_vm_op_step_inv(st_i, op, pos);
    let st_next = vm_op_step(st_i, op, pos);
    assert(vm_state_at(program, init, pos + 1) == st_next) by {
        reveal(vm_state_at);
    }
    reveal(vm_op_step);
    assert(post.depth == st_next.depth);
    assert(post.max_depth == st_next.max_depth);
    assert(post.secret_inputs_a@ == st_next.secret_a);
    assert(post.secret_inputs_b@ == st_next.secret_b);
    assert(post.width() == (if st_next.max_depth > isd {
        st_next.max_depth
    } else {
        isd
    }));
    lemma_build_dup4_rows(pre, post, program, init, isd, pos);
    lemma_build_dup4_aux(pre, post, program, init, isd, pos);
}

/// The new-row fact of [`lemma_build_pad2`]: row `pos + 1` of the builder equals
/// the machine stack after the step.
#[verifier::rlimit(100)]
proof fn lemma_build_pad2_newrow(
    pre: StackTrace,
    post: StackTrace,
    program: Seq<u128>,
    init: VmState,
    isd: int,
    pos: int,
)
    requires
        trace_build_inv(pre, program, init, isd, pos),
        !vm_is_imm(program, pos),
        0 <= pos < program.len() - 1,
        program[pos] == crate::opcodes::PAD2,
        post.well_formed(),
        post.depth == pre.depth + 2,
        post.max_depth == (if pre.depth + 2 > pre.max_depth {
            pre.depth + 2
        } else {
            pre.max_depth as int
        }),
        post.width() == (if post.max_depth > pre.width() {
            post.max_depth as int
        } else {
            pre.width()
        }),
        post.secret_inputs_a == pre.secret_inputs_a,
        post.secret_inputs_b == pre.secret_inputs_b,
        StackTrace::grow_frame(&pre, &post, pos),
        post.user_cell(0, pos + 1) == 0,
        post.user_cell(1, pos + 1) == 0,
        forall|i: int|
            2 <= i < pre.depth + 2 ==> #[trigger] post.user_cell(i, pos + 1)
                == pre.user_cell(i - 2, pos),
        forall|i: int|
            pre.depth + 2 <= i < post.width()
                ==> #[trigger] post.user_cell(i, pos + 1) == 0,
    ensures
        row_matches(post, vm_state_at(program, init, pos + 1), pos + 1),
{
    assert(vm_step_ok(program, init, pos));
    lemma_vm_state_at_inv(program, init, pos);
    lemma_vm_columns_blank(program, init, pos);
    let st_i = vm_state_at(program, init, pos);
    assert(row_matches(pre, st_i, pos));
    assert forall|q: int| 0 <= q < pre.width() implies #[trigger] pre.user_cell(q, pos)
        == st_i.stack[q] by {
    }
    let op = program[pos];
    lemma_vm_op_step_inv(st_i, op, pos);
    let st_next = vm_op_step(st_i, op, pos);
    assert(vm_state_at(program, init, pos + 1) == st_next) by {
        reveal(vm_state_at);
    }
    reveal(vm_op_step);
    assert(post.depth == st_next.depth);
    assert(post.max_depth == st_next.max_depth);
    assert(post.secret_inputs_a@ == st_next.secret_a);
    assert(post.secret_inputs_b@ == st_next.secret_b);
    assert(post.width() == (if st_next.max_depth > isd {
        st_next.max_depth
    } else {
        isd
    }));
    assert forall|cc: int| 0 <= cc < post.width() implies #[trigger] post.user_cell(
        cc,
        pos + 1,
    ) == st_next.stack[cc] by {
    }
}

/// The row facts of [`lemma_build_pad2`]: every earlier row keeps matching the
/// machine run, row `pos + 1` now matches it too, and the rows past it
/// are still blank.
#[verifier::rlimit(100)]
proof fn lemma_build_pad2_rows(
    pre: StackTrace,
    post: StackTrace,
    program: Seq<u128>,
    init: VmState,
    isd: int,
    pos: int,
)
    requires
        trace_build_inv(pre, program, init, isd, pos),
        !vm_is_imm(program, pos),
        0 <= pos < program.len() - 1,
        program[pos] == crate::opcodes::PAD2,
        post.well_formed(),
        post.depth == pre.depth + 2,
        post.max_depth == (if pre.depth + 2 > pre.max_depth {
            pre.depth + 2
        } else {
            pre.max_depth as int
        }),
        post.width() == (if post.max_depth > pre.width() {
            post.max_depth as int
        } else {
            pre.width()
        }),
        post.secret_inputs_a == pre.secret_inputs_a,
        post.secret_inputs_b == pre.secret_inputs_b,
        StackTrace::grow_frame(&pre, &post, pos),
        post.user_cell(0, pos + 1) == 0,
        post.user_cell(1, pos + 1) == 0,
        forall|i: int|
            2 <= i < pre.depth + 2 ==> #[trigger] post.user_cell(i, pos + 1)
                == pre.user_cell(i - 2, pos),
        forall|i: int|
            pre.depth + 2 <= i < post.width()
                ==> #[trigger] post.user_cell(i, pos + 1) == 0,
    ensures
        forall|s: int|
            0 <= s <= pos + 1 ==> #[trigger] row_matches(post, vm_state_at(program, init, s), s),
        forall|s: int| pos + 1 < s < program.len() ==> #[trigger] post.row_clear(s),
{
    assert(vm_step_ok(program, init, pos));
    lemma_vm_state_at_inv(program, init, pos);
    lemma_vm_columns_blank(program, init, pos);
    let st_i = vm_state_at(program, init, pos);
    assert(row_matches(pre, st_i, pos));
    assert forall|q: int| 0 <= q < pre.width() implies #[trigger] pre.user_cell(q, pos)
        == st_i.stack[q] by {
    }
    let op = program[pos];
    lemma_vm_op_step_inv(st_i, op, pos);
    let st_next = vm_op_step(st_i, op, pos);
    assert(vm_state_at(program, init, pos + 1) == st_next) by {
        reveal(vm_state_at);
    }
    reveal(vm_op_step);
    assert(post.depth == st_next.depth);
    assert(post.max_depth == st_next.max_depth);
    assert(post.secret_inputs_a@ == st_next.secret_a);
    assert(post.secret_inputs_b@ == st_next.secret_b);
    assert(post.width() == (if st_next.max_depth > isd {
        st_next.max_depth
    } else {
        isd
    }));
    lemma_build_pad2_newrow(pre, post, program, init, isd, pos);
    // every earlier row keeps matching, and row pos + 1 now matches too
    assert forall|s: int| 0 <= s <= pos + 1 implies #[trigger] row_matches(
        post,
        vm_state_at(program, init, s),
        s,
    ) by {
        if s <= pos {
            assert(row_matches(pre, vm_state_at(program, init, s), s));
            assert forall|cc: int| 0 <= cc < post.width() implies #[trigger] post.user_cell(cc, s)
                == vm_state_at(program, init, s).stack[cc] by {
                if cc < pre.width() {
                    assert(pre.user_cell(cc, s) == vm_state_at(program, init, s).stack[cc]);
                } else {
                    assert(vm_state_at(program, init, s).stack[cc] == 0);
                }
            }
        } else {
            assert(row_matches(post, vm_state_at(program, init, s), s));
        }
    }
    // the rows past pos + 1 are still blank
    assert forall|s: int| pos + 1 < s < program.len() implies #[trigger] post.row_clear(s) by {
        assert(pre.row_clear(s));
        assert forall|cc: int| 0 <= cc < post.width() implies #[trigger] post.user_cell(cc, s)
            == 0 by {
            if cc < pre.width() {
                assert(pre.user_cell(cc, s) == 0);
            }
        }
    }
}

/// The auxiliary-column facts of [`lemma_build_pad2`]: column 0 carries exactly the
/// witnesses of the steps taken, column 1 stays zero.
#[verifier::rlimit(100)]
proof fn lemma_build_pad2_aux(
    pre: StackTrace,
    post: StackTrace,
    program: Seq<u128>,
    init: VmState,
    isd: int,
    pos: int,
)
    requires
        trace_build_inv(pre, program, init, isd, pos),
        !vm_is_imm(program, pos),
        0 <= pos < program.len() - 1,
        program[pos] == crate::opcodes::PAD2,
        post.well_formed(),
        post.depth == pre.depth + 2,
        post.max_depth == (if pre.depth + 2 > pre.max_depth {
            pre.depth + 2
        } else {
            pre.max_depth as int
        }),
        post.width() == (if post.max_depth > pre.width() {
            post.max_depth as int
        } else {
            pre.width()
        }),
        post.secret_inputs_a == pre.secret_inputs_a,
        post.secret_inputs_b == pre.secret_inputs_b,
        StackTrace::grow_frame(&pre, &post, pos),
        post.user_cell(0, pos + 1) == 0,
        post.user_cell(1, pos + 1) == 0,
        forall|i: int|
            2 <= i < pre.depth + 2 ==> #[trigger] post.user_cell(i, pos + 1)
                == pre.user_cell(i - 2, pos),
        forall|i: int|
            pre.depth + 2 <= i < post.width()
                ==> #[trigger] post.user_cell(i, pos + 1) == 0,
    ensures
        forall|s: int|
            0 <= s < pos + 1 ==> #[trigger] post.aux_cell(0, s) == vm_aux0_at(program, init, s),
        forall|s: int| pos + 1 <= s < program.len() ==> #[trigger] post.aux_cell(0, s) == 0,
        forall|s: int| 0 <= s < program.len() ==> #[trigger] post.aux_cell(1, s) == 0,
{
    assert(vm_step_ok(program, init, pos));
    lemma_vm_state_at_inv(program, init, pos);
    lemma_vm_columns_blank(program, init, pos);
    let st_i = vm_state_at(program, init, pos);
    assert(row_matches(pre, st_i, pos));
    assert forall|q: int| 0 <= q < pre.width() implies #[trigger] pre.user_cell(q, pos)
        == st_i.stack[q] by {
    }
    let op = program[pos];
    lemma_vm_op_step_inv(st_i, op, pos);
    let st_next = vm_op_step(st_i, op, pos);
    assert(vm_state_at(program, init, pos + 1) == st_next) by {
        reveal(vm_state_at);
    }
    reveal(vm_op_step);
    assert(post.depth == st_next.depth);
    assert(post.max_depth == st_next.max_depth);
    assert(post.secret_inputs_a@ == st_next.secret_a);
    assert(post.secret_inputs_b@ == st_next.secret_b);
    assert(post.width() == (if st_next.max_depth > isd {
        st_next.max_depth
    } else {
        isd
    }));
    // auxiliary column 0 records the witnesses of the steps taken
    assert forall|s: int| 0 <= s < pos + 1 implies #[trigger] post.aux_cell(0, s) == vm_aux0_at(
        program,
        init,
        s,
    ) by {
        if s < pos {
            assert(pre.aux_cell(0, s) == vm_aux0_at(program, init, s));
            assert(post.aux_registers == pre.aux_registers);
        } else {
            assert(pre.aux_cell(0, pos) == 0);
            assert(vm_aux0_at(program, init, pos) == 0);
        }
    }
    assert forall|s: int| pos + 1 <= s < program.len() implies #[trigger] post.aux_cell(0, s)
        == 0 by {
        assert(pre.aux_cell(0, s) == 0);
            assert(post.aux_registers == pre.aux_registers);
    }
    assert forall|s: int| 0 <= s < program.len() implies #[trigger] post.aux_cell(1, s) == 0 by {
        assert(pre.aux_cell(1, s) == 0);
        assert(post.aux_registers == pre.aux_registers);
    }
}

/// Carrying out one pad2 step at slot `pos` preserves the
/// trace-building invariant at slot `pos + 1`.
#[verifier::rlimit(100)]
proof fn lemma_build_pad2(
    pre: StackTrace,
    post: StackTrace,
    program: Seq<u128>,
    init: VmState,
    isd: int,
    pos: int,
)
    requires
        trace_build_inv(pre, program, init, isd, pos),
        !vm_is_imm(program, pos),
        0 <= pos < program.len() - 1,
        program[pos] == crate::opcodes::PAD2,
        post.well_formed(),
        post.depth == pre.depth + 2,
        post.max_depth == (if pre.depth + 2 > pre.max_depth {
            pre.depth + 2
        } else {
            pre.max_depth as int
        }),
        post.width() == (if post.max_depth > pre.width() {
            post.max_depth as int
        } else {
            pre.width()
        }),
        post.secret_inputs_a == pre.secret_inputs_a,
        post.secret_inputs_b == pre.secret_inputs_b,
        StackTrace::grow_frame(&pre, &post, pos),
        post.user_cell(0, pos + 1) == 0,
        post.user_cell(1, pos + 1) == 0,
        forall|i: int|
            2 <= i < pre.depth + 2 ==> #[trigger] post.user_cell(i, pos + 1)
                == pre.user_cell(i - 2, pos),
        forall|i: int|
            pre.depth + 2 <= i < post.width()
                ==> #[trigger] post.user_cell(i, pos + 1) == 0,
    ensures
        trace_build_inv(post, program, init, isd, pos + 1),
{
    assert(vm_step_ok(program, init, pos));
    lemma_vm_state_at_inv(program, init, pos);
    lemma_vm_columns_blank(program, init, pos);
    let st_i = vm_state_at(program, init, pos);
    assert(row_matches(pre, st_i, pos));
    assert forall|q: int| 0 <= q < pre.width() implies #[trigger] pre.user_cell(q, pos)
        == st_i.stack[q] by {
    }
    let op = program[pos];
    lemma_vm_op_step_inv(st_i, op, pos);
    let st_next = vm_op_step(st_i, op, pos);
    assert(vm_state_at(program, init, pos + 1) == st_next) by {
        reveal(vm_state_at);
    }
    reveal(vm_op_step);
    assert(post.depth == st_next.depth);
    assert(post.max_depth == st_next.max_depth);
    assert(post.secret_inputs_a@ == st_next.secret_a);
    assert(post.secret_inputs_b@ == st_next.secret_b);
    assert(post.width() == (if st_next.max_depth > isd {
        st_next.max_depth
    } else {
        isd
    }));
    lemma_build_pad2_rows(pre, post, program, init, isd, pos);
    lemma_build_pad2_aux(pre, post, program, init, isd, pos);
}

/// The new-row fact of [`lemma_build_swap`]: row `pos + 1` of the
/// builder equals the expected machine stack row.
#[verifier::rlimit(100)]
proof fn lemma_build_swap_newrow(
    pre: StackTrace,
    post: StackTrace,
    st_i: VmState,
    row: Seq<u128>,
    pos: int,
)
    requires
        pre.well_formed(),
        post.well_formed(),
        st_i.stack.len() == MAX_USER_STACK_DEPTH,
        post.width() <= MAX_USER_STACK_DEPTH,
        st_i.depth >= 2,
        pre.depth == st_i.depth,
        post.width() == pre.width(),
        forall|q: int|
            0 <= q < pre.width() ==> #[trigger] pre.user_cell(q, pos) == st_i.stack[q],
        row == vm_stack_row(
            seq![st_i.stack[1], st_i.stack[0]],
            st_i.stack,
            2,
            st_i.depth - 2,
        ),
        post.user_cell(0, pos + 1) == pre.user_cell(1, pos),
        post.user_cell(1, pos + 1) == pre.user_cell(0, pos),
        forall|i: int|
            2 <= i < pre.depth ==> #[trigger] post.user_cell(i, pos + 1) == pre.user_cell(i, pos),
        forall|i: int|
            pre.depth <= i < pre.width() ==> #[trigger] post.user_cell(i, pos + 1) == 0,
    ensures
        forall|cc: int|
            0 <= cc < post.width() ==> #[trigger] post.user_cell(cc, pos + 1) == row[cc],
{
    assert forall|cc: int| 0 <= cc < post.width() implies #[trigger] post.user_cell(
        cc,
        pos + 1,
    ) == row[cc] by {
        if cc == 0 {
            assert(pre.user_cell(1, pos) == st_i.stack[1]);
        } else if cc == 1 {
            assert(pre.user_cell(0, pos) == st_i.stack[0]);
        } else if cc < st_i.depth {
            assert(pre.user_cell(cc, pos) == st_i.stack[cc]);
        }
    }
}

/// The row facts of [`lemma_build_swap`]: every earlier row keeps matching the
/// machine run, row `pos + 1` now matches it too, and the rows past it
/// are still blank.
#[verifier::rlimit(100)]
proof fn lemma_build_swap_rows(
    pre: StackTrace,
    post: StackTrace,
    program: Seq<u128>,
    init: VmState,
    isd: int,
    pos: int,
)
    requires
        trace_build_inv(pre, program, init, isd, pos),
        !vm_is_imm(program, pos),
        0 <= pos < program.len() - 1,
        program[pos] == crate::opcodes::SWAP,
        post.well_formed(),
        post.depth == pre.depth,
        post.max_depth == pre.max_depth,
        post.secret_inputs_a == pre.secret_inputs_a,
        post.secret_inputs_b == pre.secret_inputs_b,
        StackTrace::frame(&pre, &post, pos),
        post.user_cell(0, pos + 1) == pre.user_cell(1, pos),
        post.user_cell(1, pos + 1) == pre.user_cell(0, pos),
        forall|i: int|
            2 <= i < pre.depth ==> #[trigger] post.user_cell(i, pos + 1) == pre.user_cell(i, pos),
        forall|i: int|
            pre.depth <= i < pre.width()
                ==> #[trigger] post.user_cell(i, pos + 1) == 0,
    ensures
        forall|s: int|
            0 <= s <= pos + 1 ==> #[trigger] row_matches(post, vm_state_at(program, init, s), s),
        forall|s: int| pos + 1 < s < program.len() ==> #[trigger] post.row_clear(s),
{
    assert(vm_step_ok(program, init, pos));
    lemma_vm_state_at_inv(program, init, pos);
    let st_i = vm_state_at(program, init, pos);
    assert(row_matches(pre, st_i, pos));
    assert forall|q: int| 0 <= q < pre.width() implies #[trigger] pre.user_cell(q, pos)
        == st_i.stack[q] by {
    }
    let op = program[pos];
    lemma_vm_op_step_inv(st_i, op, pos);
    let st_next = vm_op_step(st_i, op, pos);
    assert(vm_state_at(program, init, pos + 1) == st_next) by {
        reveal(vm_state_at);
    }
    reveal(vm_op_step);
    assert(post.depth == st_next.depth);
    assert(post.max_depth == st_next.max_depth);
    assert(post.secret_inputs_a@ == st_next.secret_a);
    assert(post.secret_inputs_b@ == st_next.secret_b);
    assert(post.width() == (if st_next.max_depth > isd {
        st_next.max_depth
    } else {
        isd
    }));
    assert(st_next.stack == vm_stack_row(
        seq![st_i.stack[1], st_i.stack[0]],
        st_i.stack,
        2,
        st_i.depth - 2,
    ));
    lemma_build_swap_newrow(pre, post, st_i, st_next.stack, pos);
    assert(row_matches(post, vm_state_at(program, init, pos + 1), pos + 1));
    // every earlier row keeps matching, and row pos + 1 now matches too
    assert forall|s: int| 0 <= s <= pos + 1 implies #[trigger] row_matches(
        post,
        vm_state_at(program, init, s),
        s,
    ) by {
        if s <= pos {
            assert(row_matches(pre, vm_state_at(program, init, s), s));
            assert forall|cc: int| 0 <= cc < post.width() implies #[trigger] post.user_cell(cc, s)
                == vm_state_at(program, init, s).stack[cc] by {
                assert(pre.user_cell(cc, s) == vm_state_at(program, init, s).stack[cc]);
            }
        } else {
            assert(row_matches(post, vm_state_at(program, init, s), s));
        }
    }
    // the rows past pos + 1 are still blank
    assert forall|s: int| pos + 1 < s < program.len() implies #[trigger] post.row_clear(s) by {
        assert(pre.row_clear(s));
        assert forall|cc: int| 0 <= cc < post.width() implies #[trigger] post.user_cell(cc, s)
            == 0 by {
            assert(pre.user_cell(cc, s) == 0);
        }
    }
}

/// The auxiliary-column facts of [`lemma_build_swap`]: column 0 carries exactly the
/// witnesses of the steps taken, column 1 stays zero.
#[verifier::rlimit(100)]
proof fn lemma_build_swap_aux(
    pre: StackTrace,
    post: StackTrace,
    program: Seq<u128>,
    init: VmState,
    isd: int,
    pos: int,
)
    requires
        trace_build_inv(pre, program, init, isd, pos),
        !vm_is_imm(program, pos),
        0 <= pos < program.len() - 1,
        program[pos] == crate::opcodes::SWAP,
        post.well_formed(),
        post.depth == pre.depth,
        post.max_depth == pre.max_depth,
        post.secret_inputs_a == pre.secret_inputs_a,
        post.secret_inputs_b == pre.secret_inputs_b,
        StackTrace::frame(&pre, &post, pos),
        post.user_cell(0, pos + 1) == pre.user_cell(1, pos),
        post.user_cell(1, pos + 1) == pre.user_cell(0, pos),
        forall|i: int|
            2 <= i < pre.depth ==> #[trigger] post.user_cell(i, pos + 1) == pre.user_cell(i, pos),
        forall|i: int|
            pre.depth <= i < pre.width()
                ==> #[trigger] post.user_cell(i, pos + 1) == 0,
    ensures
        forall|s: int|
            0 <= s < pos + 1 ==> #[trigger] post.aux_cell(0, s) == vm_aux0_at(program, init, s),
        forall|s: int| pos + 1 <= s < program.len() ==> #[trigger] post.aux_cell(0, s) == 0,
        forall|s: int| 0 <= s < program.len() ==> #[trigger] post.aux_cell(1, s) == 0,
{
    assert(vm_step_ok(program, init, pos));
    lemma_vm_state_at_inv(program, init, pos);
    let st_i = vm_state_at(program, init, pos);
    assert(row_matches(pre, st_i, pos));
    assert forall|q: int| 0 <= q < pre.width() implies #[trigger] pre.user_cell(q, pos)
        == st_i.stack[q] by {
    }
    let op = program[pos];
    lemma_vm_op_step_inv(st_i, op, pos);
    let st_next = vm_op_step(st_i, op, pos);
    assert(vm_state_at(program, init, pos + 1) == st_next) by {
        reveal(vm_state_at);
    }
    reveal(vm_op_step);
    assert(post.depth == st_next.depth);
    assert(post.max_depth == st_next.max_depth);
    assert(post.secret_inputs_a@ == st_next.secret_a);
    assert(post.secret_inputs_b@ == st_next.secret_b);
    assert(post.width() == (if st_next.max_depth > isd {
        st_next.max_depth
    } else {
        isd
    }));
    // auxiliary column 0 records the witnesses of the steps taken
    assert forall|s: int| 0 <= s < pos + 1 implies #[trigger] post.aux_cell(0, s) == vm_aux0_at(
        program,
        init,
        s,
    ) by {
        if s < pos {
            assert(pre.aux_cell(0, s) == vm_aux0_at(program, init, s));
            assert(post.aux_registers == pre.aux_registers);
        } else {
            assert(pre.aux_cell(0, pos) == 0);
            assert(vm_aux0_at(program, init, pos) == 0);
        }
    }
    assert forall|s: int| pos + 1 <= s < program.len() implies #[trigger] post.aux_cell(0, s)
        == 0 by {
        assert(pre.aux_cell(0, s) == 0);
            assert(post.aux_registers == pre.aux_registers);
    }
    assert forall|s: int| 0 <= s < program.len() implies #[trigger] post.aux_cell(1, s) == 0 by {
        assert(pre.aux_cell(1, s) == 0);
        assert(post.aux_registers == pre.aux_registers);
    }
}

/// Carrying out one swap step at slot `pos` preserves the
/// trace-building invariant at slot `pos + 1`.
#[verifier::rlimit(100)]
proof fn lemma_build_swap(
    pre: StackTrace,
    post: StackTrace,
    program: Seq<u128>,
    init: VmState,
    isd: int,
    pos: int,
)
    requires
        trace_build_inv(pre, program, init, isd, pos),
        !vm_is_imm(program, pos),
        0 <= pos < program.len() - 1,
        program[pos] == crate::opcodes::SWAP,
        post.well_formed(),
        post.depth == pre.depth,
        post.max_depth == pre.max_depth,
        post.secret_inputs_a == pre.secret_inputs_a,
        post.secret_inputs_b == pre.secret_inputs_b,
        StackTrace::frame(&pre, &post, pos),
        post.user_cell(0, pos + 1) == pre.user_cell(1, pos),
        post.user_cell(1, pos + 1) == pre.user_cell(0, pos),
        forall|i: int|
            2 <= i < pre.depth ==> #[trigger] post.user_cell(i, pos + 1) == pre.user_cell(i, pos),
        forall|i: int|
            pre.depth <= i < pre.width()
                ==> #[trigger] post.user_cell(i, pos + 1) == 0,
    ensures
        trace_build_inv(post, program, init, isd, pos + 1),
{
    assert(vm_step_ok(program, init, pos));
    lemma_vm_state_at_inv(program, init, pos);
    let st_i = vm_state_at(program, init, pos);
    assert(row_matches(pre, st_i, pos));
    assert forall|q: int| 0 <= q < pre.width() implies #[trigger] pre.user_cell(q, pos)
        == st_i.stack[q] by {
    }
    let op = program[pos];
    lemma_vm_op_step_inv(st_i, op, pos);
    let st_next = vm_op_step(st_i, op, pos);
    assert(vm_state_at(program, init, pos + 1) == st_next) by {
        reveal(vm_state_at);
    }
    reveal(vm_op_step);
    assert(post.depth == st_next.depth);
    assert(post.max_depth == st_next.max_depth);
    assert(post.secret_inputs_a@ == st_next.secret_a);
    assert(post.secret_inputs_b@ == st_next.secret_b);
    assert(post.width() == (if st_next.max_depth > isd {
        st_next.max_depth
    } else {
        isd
    }));
    lemma_build_swap_rows(pre, post, program, init, isd, pos);
    lemma_build_swap_aux(pre, post, program, init, isd, pos);
}

/// The new-row fact of [`lemma_build_swap2`]: row `pos + 1` of the
/// builder equals the expected machine stack row.
#[verifier::rlimit(100)]
proof fn lemma_build_swap2_newrow(
    pre: StackTrace,
    post: StackTrace,
    st_i: VmState,
    row: Seq<u128>,
    pos: int,
)
    requires
        pre.well_formed(),
        post.well_formed(),
        st_i.stack.len() == MAX_USER_STACK_DEPTH,
        post.width() <= MAX_USER_STACK_DEPTH,
        st_i.depth >= 4,
        pre.depth == st_i.depth,
        pre.secret_inputs_a@ == st_i.secret_a,
        pre.secret_inputs_b@ == st_i.secret_b,
        post.width() == pre.width(),
        forall|q: int|
            0 <= q < pre.width() ==> #[trigger] pre.user_cell(q, pos) == st_i.stack[q],
        row == vm_stack_row(
            seq![st_i.stack[2], st_i.stack[3], st_i.stack[0], st_i.stack[1]],
            st_i.stack,
            4,
            st_i.depth - 4,
        ),
        post.user_cell(0, pos + 1) == pre.user_cell(2, pos),
        post.user_cell(1, pos + 1) == pre.user_cell(3, pos),
        post.user_cell(2, pos + 1) == pre.user_cell(0, pos),
        post.user_cell(3, pos + 1) == pre.user_cell(1, pos),
        forall|i: int|
            4 <= i < pre.depth ==> #[trigger] post.user_cell(i, pos + 1) == pre.user_cell(i, pos),
        forall|i: int|
            pre.depth <= i < pre.width() ==> #[trigger] post.user_cell(i, pos + 1) == 0,
    ensures
        forall|cc: int|
            0 <= cc < post.width() ==> #[trigger] post.user_cell(cc, pos + 1) == row[cc],
{
    assert forall|cc: int| 0 <= cc < post.width() implies #[trigger] post.user_cell(
        cc,
        pos + 1,
    ) == row[cc] by {
        if cc == 0 {
            assert(pre.user_cell(2, pos) == st_i.stack[2]);
        } else if cc == 1 {
            assert(pre.user_cell(3, pos) == st_i.stack[3]);
        } else if cc == 2 {
            assert(pre.user_cell(0, pos) == st_i.stack[0]);
        } else if cc == 3 {
            assert(pre.user_cell(1, pos) == st_i.stack[1]);
        } else if cc < st_i.depth {
            assert(pre.user_cell(cc, pos) == st_i.stack[cc]);
        }
    }
}

/// The row facts of [`lemma_build_swap2`]: every earlier row keeps matching the
/// machine run, row `pos + 1` now matches it too, and the rows past it
/// are still blank.
#[verifier::rlimit(100)]
proof fn lemma_build_swap2_rows(
    pre: StackTrace,
    post: StackTrace,
    program: Seq<u128>,
    init: VmState,
    isd: int,
    pos: int,
)
    requires
        trace_build_inv(pre, program, init, isd, pos),
        !vm_is_imm(program, pos),
        0 <= pos < program.len() - 1,
        program[pos] == crate::opcodes::SWAP2,
        post.well_formed(),
        post.depth == pre.depth,
        post.max_depth == pre.max_depth,
        post.secret_inputs_a == pre.secret_inputs_a,
        post.secret_inputs_b == pre.secret_inputs_b,
        StackTrace::frame(&pre, &post, pos),
        post.user_cell(0, pos + 1) == pre.user_cell(2, pos),
        post.user_cell(1, pos + 1) == pre.user_cell(3, pos),
        post.user_cell(2, pos + 1) == pre.user_cell(0, pos),
        post.user_cell(3, pos + 1) == pre.user_cell(1, pos),
        forall|i: int|
            4 <= i < pre.depth ==> #[trigger] post.user_cell(i, pos + 1) == pre.user_cell(i, pos),
        forall|i: int|
            pre.depth <= i < pre.width()
                ==> #[trigger] post.user_cell(i, pos + 1) == 0,
    ensures
        forall|s: int|
            0 <= s <= pos + 1 ==> #[trigger] row_matches(post, vm_state_at(program, init, s), s),
        forall|s: int| pos + 1 < s < program.len() ==> #[trigger] post.row_clear(s),
{
    assert(vm_step_ok(program, init, pos));
    lemma_vm_state_at_inv(program, init, pos);
    let st_i = vm_state_at(program, init, pos);
    assert(row_matches(pre, st_i, pos));
    assert forall|q: int| 0 <= q < pre.width() implies #[trigger] pre.user_cell(q, pos)
        == st_i.stack[q] by {
    }
    let op = program[pos];
    lemma_vm_op_step_inv(st_i, op, pos);
    let st_next = vm_op_step(st_i, op, pos);
    assert(vm_state_at(program, init, pos + 1) == st_next) by {
        reveal(vm_state_at);
    }
    reveal(vm_op_step);
    assert(post.depth == st_next.depth);
    assert(post.max_depth == st_next.max_depth);
    assert(post.secret_inputs_a@ == st_next.secret_a);
    assert(post.secret_inputs_b@ == st_next.secret_b);
    assert(post.width() == (if st_next.max_depth > isd {
        st_next.max_depth
    } else {
        isd
    }));
    assert(st_next.stack == vm_stack_row(
        seq![st_i.stack[2], st_i.stack[3], st_i.stack[0], st_i.stack[1]],
        st_i.stack,
        4,
        st_i.depth - 4,
    ));
    lemma_build_swap2_newrow(pre, post, st_i, st_next.stack, pos);
    assert(row_matches(post, vm_state_at(program, init, pos + 1), pos + 1));
    // every earlier row keeps matching, and row pos + 1 now matches too
    assert forall|s: int| 0 <= s <= pos + 1 implies #[trigger] row_matches(
        post,
        vm_state_at(program, init, s),
        s,
    ) by {
        if s <= pos {
            assert(row_matches(pre, vm_state_at(program, init, s), s));
            assert forall|cc: int| 0 <= cc < post.width() implies #[trigger] post.user_cell(cc, s)
                == vm_state_at(program, init, s).stack[cc] by {
                assert(pre.user_cell(cc, s) == vm_state_at(program, init, s).stack[cc]);
            }
        } else {
            assert(row_matches(post, vm_state_at(program, init, s), s));
        }
    }
    // the rows past pos + 1 are still blank
    assert forall|s: int| pos + 1 < s < program.len() implies #[trigger] post.row_clear(s) by {
        assert(pre.row_clear(s));
        assert forall|cc: int| 0 <= cc < post.width() implies #[trigger] post.user_cell(cc, s)
            == 0 by {
            assert(pre.user_cell(cc, s) == 0);
        }
    }
}

/// The auxiliary-column facts of [`lemma_build_swap2`]: column 0 carries exactly the
/// witnesses of the steps taken, column 1 stays zero.
#[verifier::rlimit(100)]
proof fn lemma_build_swap2_aux(
    pre: StackTrace,
    post: StackTrace,
    program: Seq<u128>,
    init: VmState,
    isd: int,
    pos: int,
)
    requires
        trace_build_inv(pre, program, init, isd, pos),
        !vm_is_imm(program, pos),
        0 <= pos < program.len() - 1,
        program[pos] == crate::opcodes::SWAP2,
        post.well_formed(),
        post.depth == pre.depth,
        post.max_depth == pre.max_depth,
        post.secret_inputs_a == pre.secret_inputs_a,
        post.secret_inputs_b == pre.secret_inputs_b,
        StackTrace::frame(&pre, &post, pos),
        post.user_cell(0, pos + 1) == pre.user_cell(2, pos),
        post.user_cell(1, pos + 1) == pre.user_cell(3, pos),
        post.user_cell(2, pos + 1) == pre.user_cell(0, pos),
        post.user_cell(3, pos + 1) == pre.user_cell(1, pos),
        forall|i: int|
            4 <= i < pre.depth ==> #[trigger] post.user_cell(i, pos + 1) == pre.user_cell(i, pos),
        forall|i: int|
            pre.depth <= i < pre.width()
                ==> #[trigger] post.user_cell(i, pos + 1) == 0,
    ensures
        forall|s: int|
            0 <= s < pos + 1 ==> #[trigger] post.aux_cell(0, s) == vm_aux0_at(program, init, s),
        forall|s: int| pos + 1 <= s < program.len() ==> #[trigger] post.aux_cell(0, s) == 0,
        forall|s: int| 0 <= s < program.len() ==> #[trigger] post.aux_cell(1, s) == 0,
{
    assert(vm_step_ok(program, init, pos));
    lemma_vm_state_at_inv(program, init, pos);
    let st_i = vm_state_at(program, init, pos);
    assert(row_matches(pre, st_i, pos));
    assert forall|q: int| 0 <= q < pre.width() implies #[trigger] pre.user_cell(q, pos)
        == st_i.stack[q] by {
    }
    let op = program[pos];
    lemma_vm_op_step_inv(st_i, op, pos);
    let st_next = vm_op_step(st_i, op, pos);
    assert(vm_state_at(program, init, pos + 1) == st_next) by {
        reveal(vm_state_at);
    }
    reveal(vm_op_step);
    assert(post.depth == st_next.depth);
    assert(post.max_depth == st_next.max_depth);
    assert(post.secret_inputs_a@ == st_next.secret_a);
    assert(post.secret_inputs_b@ == st_next.secret_b);
    assert(post.width() == (if st_next.max_depth > isd {
        st_next.max_depth
    } else {
        isd
    }));
    // auxiliary column 0 records the witnesses of the steps taken
    assert forall|s: int| 0 <= s < pos + 1 implies #[trigger] post.aux_cell(0, s) == vm_aux0_at(
        program,
        init,
        s,
    ) by {
        if s < pos {
            assert(pre.aux_cell(0, s) == vm_aux0_at(program, init, s));
            assert(post.aux_registers == pre.aux_registers);
        } else {
            assert(pre.aux_cell(0, pos) == 0);
            assert(vm_aux0_at(program, init, pos) == 0);
        }
    }
    assert forall|s: int| pos + 1 <= s < program.len() implies #[trigger] post.aux_cell(0, s)
        == 0 by {
        assert(pre.aux_cell(0, s) == 0);
            assert(post.aux_registers == pre.aux_registers);
    }
    assert forall|s: int| 0 <= s < program.len() implies #[trigger] post.aux_cell(1, s) == 0 by {
        assert(pre.aux_cell(1, s) == 0);
        assert(post.aux_registers == pre.aux_registers);
    }
}

/// Carrying out one swap2 step at slot `pos` preserves the
/// trace-building invariant at slot `pos + 1`.
#[verifier::rlimit(100)]
proof fn lemma_build_swap2(
    pre: StackTrace,
    post: StackTrace,
    program: Seq<u128>,
    init: VmState,
    isd: int,
    pos: int,
)
    requires
        trace_build_inv(pre, program, init, isd, pos),
        !vm_is_imm(program, pos),
        0 <= pos < program.len() - 1,
        program[pos] == crate::opcodes::SWAP2,
        post.well_formed(),
        post.depth == pre.depth,
        post.max_depth == pre.max_depth,
        post.secret_inputs_a == pre.secret_inputs_a,
        post.secret_inputs_b == pre.secret_inputs_b,
        StackTrace::frame(&pre, &post, pos),
        post.user_cell(0, pos + 1) == pre.user_cell(2, pos),
        post.user_cell(1, pos + 1) == pre.user_cell(3, pos),
        post.user_cell(2, pos + 1) == pre.user_cell(0, pos),
        post.user_cell(3, pos + 1) == pre.user_cell(1, pos),
        forall|i: int|
            4 <= i < pre.depth ==> #[trigger] post.user_cell(i, pos + 1) == pre.user_cell(i, pos),
        forall|i: int|
            pre.depth <= i < pre.width()
                ==> #[trigger] post.user_cell(i, pos + 1) == 0,
    ensures
        trace_build_inv(post, program, init, isd, pos + 1),
{
    assert(vm_step_ok(program, init, pos));
    lemma_vm_state_at_inv(program, init, pos);
    let st_i = vm_state_at(program, init, pos);
    assert(row_matches(pre, st_i, pos));
    assert forall|q: int| 0 <= q < pre.width() implies #[trigger] pre.user_cell(q, pos)
        == st_i.stack[q] by {
    }
    let op = program[pos];
    lemma_vm_op_step_inv(st_i, op, pos);
    let st_next = vm_op_step(st_i, op, pos);
    assert(vm_state_at(program, init, pos + 1) == st_next) by {
        reveal(vm_state_at);
    }
    reveal(vm_op_step);
    assert(post.depth == st_next.depth);
    assert(post.max_depth == st_next.max_depth);
    assert(post.secret_inputs_a@ == st_next.secret_a);
    assert(post.secret_inputs_b@ == st_next.secret_b);
    assert(post.width() == (if st_next.max_depth > isd {
        st_next.max_depth
    } else {
        isd
    }));
    lemma_build_swap2_rows(pre, post, program, init, isd, pos);
    lemma_build_swap2_aux(pre, post, program, init, isd, pos);
}

/// The new-row fact of [`lemma_build_swap4`]: row `pos + 1` of the
/// builder equals the expected machine stack row.
#[verifier::rlimit(100)]
proof fn lemma_build_swap4_newrow(
    pre: StackTrace,
    post: StackTrace,
    st_i: VmState,
    row: Seq<u128>,
    pos: int,
)
    requires
        pre.well_formed(),
        post.well_formed(),
        st_i.stack.len() == MAX_USER_STACK_DEPTH,
        post.width() <= MAX_USER_STACK_DEPTH,
        st_i.depth >= 8,
        pre.depth == st_i.depth,
        pre.secret_inputs_a@ == st_i.secret_a,
        pre.secret_inputs_b@ == st_i.secret_b,
        post.width() == pre.width(),
        forall|q: int|
            0 <= q < pre.width() ==> #[trigger] pre.user_cell(q, pos) == st_i.stack[q],
        row == vm_stack_row(
            seq![st_i.stack[4], st_i.stack[5], st_i.stack[6], st_i.stack[7], st_i.stack[0], st_i.stack[1], st_i.stack[2], st_i.stack[3]],
            st_i.stack,
            8,
            st_i.depth - 8,
        ),
        forall|i: int|
            0 <= i < 4 ==> #[trigger] post.user_cell(i, pos + 1) == pre.user_cell(i + 4, pos),
        forall|i: int|
            4 <= i < 8 ==> #[trigger] post.user_cell(i, pos + 1) == pre.user_cell(i - 4, pos),
        forall|i: int|
            8 <= i < pre.depth ==> #[trigger] post.user_cell(i, pos + 1) == pre.user_cell(i, pos),
        forall|i: int|
            pre.depth <= i < pre.width() ==> #[trigger] post.user_cell(i, pos + 1) == 0,
    ensures
        forall|cc: int|
            0 <= cc < post.width() ==> #[trigger] post.user_cell(cc, pos + 1) == row[cc],
{
    assert forall|cc: int| 0 <= cc < post.width() implies #[trigger] post.user_cell(
        cc,
        pos + 1,
    ) == row[cc] by {
    }
}

/// The row facts of [`lemma_build_swap4`]: every earlier row keeps matching the
/// machine run, row `pos + 1` now matches it too, and the rows past it
/// are still blank.
#[verifier::rlimit(100)]
proof fn lemma_build_swap4_rows(
    pre: StackTrace,
    post: StackTrace,
    program: Seq<u128>,
    init: VmState,
    isd: int,
    pos: int,
)
    requires
        trace_build_inv(pre, program, init, isd, pos),
        !vm_is_imm(program, pos),
        0 <= pos < program.len() - 1,
        program[pos] == crate::opcodes::SWAP4,
        post.well_formed(),
        post.depth == pre.depth,
        post.max_depth == pre.max_depth,
        post.secret_inputs_a == pre.secret_inputs_a,
        post.secret_inputs_b == pre.secret_inputs_b,
        StackTrace::frame(&pre, &post, pos),
        forall|i: int|
            0 <= i < 4 ==> #[trigger] post.user_cell(i, pos + 1) == pre.user_cell(i + 4, pos),
        forall|i: int|
            4 <= i < 8 ==> #[trigger] post.user_cell(i, pos + 1) == pre.user_cell(i - 4, pos),
        forall|i: int|
            8 <= i < pre.depth ==> #[trigger] post.user_cell(i, pos + 1) == pre.user_cell(i, pos),
        forall|i: int|
            pre.depth <= i < pre.width()
                ==> #[trigger] post.user_cell(i, pos + 1) == 0,
    ensures
        forall|s: int|
            0 <= s <= pos + 1 ==> #[trigger] row_matches(post, vm_state_at(program, init, s), s),
        forall|s: int| pos + 1 < s < program.len() ==> #[trigger] post.row_clear(s),
{
    assert(vm_step_ok(program, init, pos));
    lemma_vm_state_at_inv(program, init, pos);
    let st_i = vm_state_at(program, init, pos);
    assert(row_matches(pre, st_i, pos));
    assert forall|q: int| 0 <= q < pre.width() implies #[trigger] pre.user_cell(q, pos)
        == st_i.stack[q] by {
    }
    let op = program[pos];
    lemma_vm_op_step_inv(st_i, op, pos);
    let st_next = vm_op_step(st_i, op, pos);
    assert(vm_state_at(program, init, pos + 1) == st_next) by {
        reveal(vm_state_at);
    }
    reveal(vm_op_step);
    assert(post.depth == st_next.depth);
    assert(post.max_depth == st_next.max_depth);
    assert(post.secret_inputs_a@ == st_next.secret_a);
    assert(post.secret_inputs_b@ == st_next.secret_b);
    assert(post.width() == (if st_next.max_depth > isd {
        st_next.max_depth
    } else {
        isd
    }));
    assert(st_next.stack == vm_stack_row(
        seq![st_i.stack[4], st_i.stack[5], st_i.stack[6], st_i.stack[7], st_i.stack[0], st_i.stack[1], st_i.stack[2], st_i.stack[3]],
        st_i.stack,
        8,
        st_i.depth - 8,
    ));
    lemma_build_swap4_newrow(pre, post, st_i, st_next.stack, pos);
    assert(row_matches(post, vm_state_at(program, init, pos + 1), pos + 1));
    // every earlier row keeps matching, and row pos + 1 now matches too
    assert forall|s: int| 0 <= s <= pos + 1 implies #[trigger] row_matches(
        post,
        vm_state_at(program, init, s),
        s,
    ) by {
        if s <= pos {
            assert(row_matches(pre, vm_state_at(program, init, s), s));
            assert forall|cc: int| 0 <= cc < post.width() implies #[trigger] post.user_cell(cc, s)
                == vm_state_at(program, init, s).stack[cc] by {
                assert(pre.user_cell(cc, s) == vm_state_at(program, init, s).stack[cc]);
            }
        } else {
            assert(row_matches(post, vm_state_at(program, init, s), s));
        }
    }
    // the rows past pos + 1 are still blank
    assert forall|s: int| pos + 1 < s < program.len() implies #[trigger] post.row_clear(s) by {
        assert(pre.row_clear(s));
        assert forall|cc: int| 0 <= cc < post.width() implies #[trigger] post.user_cell(cc, s)
            == 0 by {
            assert(pre.user_cell(cc, s) == 0);
        }
    }
}

/// The auxiliary-column facts of [`lemma_build_swap4`]: column 0 carries exactly the
/// witnesses of the steps taken, column 1 stays zero.
#[verifier::rlimit(100)]
proof fn lemma_build_swap4_aux(
    pre: StackTrace,
    post: StackTrace,
    program: Seq<u128>,
    init: VmState,
    isd: int,
    pos: int,
)
    requires
        trace_build_inv(pre, program, init, isd, pos),
        !vm_is_imm(program, pos),
        0 <= pos < program.len() - 1,
        program[pos] == crate::opcodes::SWAP4,
        post.well_formed(),
        post.depth == pre.depth,
        post.max_depth == pre.max_depth,
        post.secret_inputs_a == pre.secret_inputs_a,
        post.secret_inputs_b == pre.secret_inputs_b,
        StackTrace::frame(&pre, &post, pos),
        forall|i: int|
            0 <= i < 4 ==> #[trigger] post.user_cell(i, pos + 1) == pre.user_cell(i + 4, pos),
        forall|i: int|
            4 <= i < 8 ==> #[trigger] post.user_cell(i, pos + 1) == pre.user_cell(i - 4, pos),
        forall|i: int|
            8 <= i < pre.depth ==> #[trigger] post.user_cell(i, pos + 1) == pre.user_cell(i, pos),
        forall|i: int|
            pre.depth <= i < pre.width()
                ==> #[trigger] post.user_cell(i, pos + 1) == 0,
    ensures
        forall|s: int|
            0 <= s < pos + 1 ==> #[trigger] post.aux_cell(0, s) == vm_aux0_at(program, init, s),
        forall|s: int| pos + 1 <= s < program.len() ==> #[trigger] post.aux_cell(0, s) == 0,
        forall|s: int| 0 <= s < program.len() ==> #[trigger] post.aux_cell(1, s) == 0,
{
    assert(vm_step_ok(program, init, pos));
    lemma_vm_state_at_inv(program, init, pos);
    let st_i = vm_state_at(program, init, pos);
    assert(row_matches(pre, st_i, pos));
    assert forall|q: int| 0 <= q < pre.width() implies #[trigger] pre.user_cell(q, pos)
        == st_i.stack[q] by {
    }
    let op = program[pos];
    lemma_vm_op_step_inv(st_i, op, pos);
    let st_next = vm_op_step(st_i, op, pos);
    assert(vm_state_at(program, init, pos + 1) == st_next) by {
        reveal(vm_state_at);
    }
    reveal(vm_op_step);
    assert(post.depth == st_next.depth);
    assert(post.max_depth == st_next.max_depth);
    assert(post.secret_inputs_a@ == st_next.secret_a);
    assert(post.secret_inputs_b@ == st_next.secret_b);
    assert(post.width() == (if st_next.max_depth > isd {
        st_next.max_depth
    } else {
        isd
    }));
    // auxiliary column 0 records the witnesses of the steps taken
    assert forall|s: int| 0 <= s < pos + 1 implies #[trigger] post.aux_cell(0, s) == vm_aux0_at(
        program,
        init,
        s,
    ) by {
        if s < pos {
            assert(pre.aux_cell(0, s) == vm_aux0_at(program, init, s));
            assert(post.aux_registers == pre.aux_registers);
        } else {
            assert(pre.aux_cell(0, pos) == 0);
            assert(vm_aux0_at(program, init, pos) == 0);
        }
    }
    assert forall|s: int| pos + 1 <= s < program.len() implies #[trigger] post.aux_cell(0, s)
        == 0 by {
        assert(pre.aux_cell(0, s) == 0);
            assert(post.aux_registers == pre.aux_registers);
    }
    assert forall|s: int| 0 <= s < program.len() implies #[trigger] post.aux_cell(1, s) == 0 by {
        assert(pre.aux_cell(1, s) == 0);
        assert(post.aux_registers == pre.aux_registers);
    }
}

/// Carrying out one swap4 step at slot `pos` preserves the
/// trace-building invariant at slot `pos + 1`.
#[verifier::rlimit(100)]
proof fn lemma_build_swap4(
    pre: StackTrace,
    post: StackTrace,
    program: Seq<u128>,
    init: VmState,
    isd: int,
    pos: int,
)
    requires
        trace_build_inv(pre, program, init, isd, pos),
        !vm_is_imm(program, pos),
        0 <= pos < program.len() - 1,
        program[pos] == crate::opcodes::SWAP4,
        post.well_formed(),
        post.depth == pre.depth,
        post.max_depth == pre.max_depth,
        post.secret_inputs_a == pre.secret_inputs_a,
        post.secret_inputs_b == pre.secret_inputs_b,
        StackTrace::frame(&pre, &post, pos),
        forall|i: int|
            0 <= i < 4 ==> #[trigger] post.user_cell(i, pos + 1) == pre.user_cell(i + 4, pos),
        forall|i: int|
            4 <= i < 8 ==> #[trigger] post.user_cell(i, pos + 1) == pre.user_cell(i - 4, pos),
        forall|i: int|
            8 <= i < pre.depth ==> #[trigger] post.user_cell(i, pos + 1) == pre.user_cell(i, pos),
        forall|i: int|
            pre.depth <= i < pre.width()
                ==> #[trigger] post.user_cell(i, pos + 1) == 0,
    ensures
        trace_build_inv(post, program, init, isd, pos + 1),
{
    assert(vm_step_ok(program, init, pos));
    lemma_vm_state_at_inv(program, init, pos);
    let st_i = vm_state_at(program, init, pos);
    assert(row_matches(pre, st_i, pos));
    assert forall|q: int| 0 <= q < pre.width() implies #[trigger] pre.user_cell(q, pos)
        == st_i.stack[q] by {
    }
    let op = program[pos];
    lemma_vm_op_step_inv(st_i, op, pos);
    let st_next = vm_op_step(st_i, op, pos);
    assert(vm_state_at(program, init, pos + 1) == st_next) by {
        reveal(vm_state_at);
    }
    reveal(vm_op_step);
    assert(post.depth == st_next.depth);
    assert(post.max_depth == st_next.max_depth);
    assert(post.secret_inputs_a@ == st_next.secret_a);
    assert(post.secret_inputs_b@ == st_next.secret_b);
    assert(post.width() == (if st_next.max_depth > isd {
        st_next.max_depth
    } else {
        isd
    }));
    lemma_build_swap4_rows(pre, post, program, init, isd, pos);
    lemma_build_swap4_aux(pre, post, program, init, isd, pos);
}

/// The new-row fact of [`lemma_build_roll4`]: row `pos + 1` of the
/// builder equals the expected machine stack row.
#[verifier::rlimit(100)]
proof fn lemma_build_roll4_newrow(
    pre: StackTrace,
    post: StackTrace,
    st_i: VmState,
    row: Seq<u128>,
    pos: int,
)
    requires
        pre.well_formed(),
        post.well_formed(),
        st_i.stack.len() == MAX_USER_STACK_DEPTH,
        post.width() <= MAX_USER_STACK_DEPTH,
        st_i.depth >= 4,
        pre.depth == st_i.depth,
        pre.secret_inputs_a@ == st_i.secret_a,
        pre.secret_inputs_b@ == st_i.secret_b,
        post.width() == pre.width(),
        forall|q: int|
            0 <= q < pre.width() ==> #[trigger] pre.user_cell(q, pos) == st_i.stack[q],
        row == vm_stack_row(
            seq![st_i.stack[3], st_i.stack[0], st_i.stack[1], st_i.stack[2]],
            st_i.stack,
            4,
            st_i.depth - 4,
        ),
        post.user_cell(0, pos + 1) == pre.user_cell(3, pos),
        forall|i: int|
            1 <= i < 4 ==> #[trigger] post.user_cell(i, pos + 1) == pre.user_cell(i - 1, pos),
        forall|i: int|
            4 <= i < pre.depth ==> #[trigger] post.user_cell(i, pos + 1) == pre.user_cell(i, pos),
        forall|i: int|
            pre.depth <= i < pre.width() ==> #[trigger] post.user_cell(i, pos + 1) == 0,
    ensures
        forall|cc: int|
            0 <= cc < post.width() ==> #[trigger] post.user_cell(cc, pos + 1) == row[cc],
{
    assert forall|cc: int| 0 <= cc < post.width() implies #[trigger] post.user_cell(
        cc,
        pos + 1,
    ) == row[cc] by {
    }
}

/// The row facts of [`lemma_build_roll4`]: every earlier row keeps matching the
/// machine run, row `pos + 1` now matches it too, and the rows past it
/// are still blank.
#[verifier::rlimit(100)]
proof fn lemma_build_roll4_rows(
    pre: StackTrace,
    post: StackTrace,
    program: Seq<u128>,
    init: VmState,
    isd: int,
    pos: int,
)
    requires
        trace_build_inv(pre, program, init, isd, pos),
        !vm_is_imm(program, pos),
        0 <= pos < program.len() - 1,
        program[pos] == crate::opcodes::ROLL4,
        post.well_formed(),
        post.depth == pre.depth,
        post.max_depth == pre.max_depth,
        post.secret_inputs_a == pre.secret_inputs_a,
        post.secret_inputs_b == pre.secret_inputs_b,
        StackTrace::frame(&pre, &post, pos),
        post.user_cell(0, pos + 1) == pre.user_cell(3, pos),
        forall|i: int|
            1 <= i < 4 ==> #[trigger] post.user_cell(i, pos + 1) == pre.user_cell(i - 1, pos),
        forall|i: int|
            4 <= i < pre.depth ==> #[trigger] post.user_cell(i, pos + 1) == pre.user_cell(i, pos),
        forall|i: int|
            pre.depth <= i < pre.width()
                ==> #[trigger] post.user_cell(i, pos + 1) == 0,
    ensures
        forall|s: int|
            0 <= s <= pos + 1 ==> #[trigger] row_matches(post, vm_state_at(program, init, s), s),
        forall|s: int| pos + 1 < s < program.len() ==> #[trigger] post.row_clear(s),
{
    assert(vm_step_ok(program, init, pos));
    lemma_vm_state_at_inv(program, init, pos);
    let st_i = vm_state_at(program, init, pos);
    assert(row_matches(pre, st_i, pos));
    assert forall|q: int| 0 <= q < pre.width() implies #[trigger] pre.user_cell(q, pos)
        == st_i.stack[q] by {
    }
    let op = program[pos];
    lemma_vm_op_step_inv(st_i, op, pos);
    let st_next = vm_op_step(st_i, op, pos);
    assert(vm_state_at(program, init, pos + 1) == st_next) by {
        reveal(vm_state_at);
    }
    reveal(vm_op_step);
    assert(post.depth == st_next.depth);
    assert(post.max_depth == st_next.max_depth);
    assert(post.secret_inputs_a@ == st_next.secret_a);
    assert(post.secret_inputs_b@ == st_next.secret_b);
    assert(post.width() == (if st_next.max_depth > isd {
        st_next.max_depth
    } else {
        isd
    }));
    assert(st_next.stack == vm_stack_row(
        seq![st_i.stack[3], st_i.stack[0], st_i.stack[1], st_i.stack[2]],
        st_i.stack,
        4,
        st_i.depth - 4,
    ));
    lemma_build_roll4_newrow(pre, post, st_i, st_next.stack, pos);
    assert(row_matches(post, vm_state_at(program, init, pos + 1), pos + 1));
    // every earlier row keeps matching, and row pos + 1 now matches too
    assert forall|s: int| 0 <= s <= pos + 1 implies #[trigger] row_matches(
        post,
        vm_state_at(program, init, s),
        s,
    ) by {
        if s <= pos {
            assert(row_matches(pre, vm_state_at(program, init, s), s));
            assert forall|cc: int| 0 <= cc < post.width() implies #[trigger] post.user_cell(cc, s)
                == vm_state_at(program, init, s).stack[cc] by {
                assert(pre.user_cell(cc, s) == vm_state_at(program, init, s).stack[cc]);
            }
        } else {
            assert(row_matches(post, vm_state_at(program, init, s), s));
        }
    }
    // the rows past pos + 1 are still blank
    assert forall|s: int| pos + 1 < s < program.len() implies #[trigger] post.row_clear(s) by {
        assert(pre.row_clear(s));
        assert forall|cc: int| 0 <= cc < post.width() implies #[trigger] post.user_cell(cc, s)
            == 0 by {
            assert(pre.user_cell(cc, s) == 0);
        }
    }
}

/// The auxiliary-column facts of [`lemma_build_roll4`]: column 0 carries exactly the
/// witnesses of the steps taken, column 1 stays zero.
#[verifier::rlimit(100)]
proof fn lemma_build_roll4_aux(
    pre: StackTrace,
    post: StackTrace,
    program: Seq<u128>,
    init: VmState,
    isd: int,
    pos: int,
)
    requires
        trace_build_inv(pre, program, init, isd, pos),
        !vm_is_imm(program, pos),
        0 <= pos < program.len() - 1,
        program[pos] == crate::opcodes::ROLL4,
        post.well_formed(),
        post.depth == pre.depth,
        post.max_depth == pre.max_depth,
        post.secret_inputs_a == pre.secret_inputs_a,
        post.secret_inputs_b == pre.secret_inputs_b,
        StackTrace::frame(&pre, &post, pos),
        post.user_cell(0, pos + 1) == pre.user_cell(3, pos),
        forall|i: int|
            1 <= i < 4 ==> #[trigger] post.user_cell(i, pos + 1) == pre.user_cell(i - 1, pos),
        forall|i: int|
            4 <= i < pre.depth ==> #[trigger] post.user_cell(i, pos + 1) == pre.user_cell(i, pos),
        forall|i: int|
            pre.depth <= i < pre.width()
                ==> #[trigger] post.user_cell(i, pos + 1) == 0,
    ensures
        forall|s: int|
            0 <= s < pos + 1 ==> #[trigger] post.aux_cell(0, s) == vm_aux0_at(program, init, s),
        forall|s: int| pos + 1 <= s < program.len() ==> #[trigger] post.aux_cell(0, s) == 0,
        forall|s: int| 0 <= s < program.len() ==> #[trigger] post.aux_cell(1, s) == 0,
{
    assert(vm_step_ok(program, init, pos));
    lemma_vm_state_at_inv(program, init, pos);
    let st_i = vm_state_at(program, init, pos);
    assert(row_matches(pre, st_i, pos));
    assert forall|q: int| 0 <= q < pre.width() implies #[trigger] pre.user_cell(q, pos)
        == st_i.stack[q] by {
    }
    let op = program[pos];
    lemma_vm_op_step_inv(st_i, op, pos);
    let st_next = vm_op_step(st_i, op, pos);
    assert(vm_state_at(program, init, pos + 1) == st_next) by {
        reveal(vm_state_at);
    }
    reveal(vm_op_step);
    assert(post.depth == st_next.depth);
    assert(post.max_depth == st_next.max_depth);
    assert(post.secret_inputs_a@ == st_next.secret_a);
    assert(post.secret_inputs_b@ == st_next.secret_b);
    assert(post.width() == (if st_next.max_depth > isd {
        st_next.max_depth
    } else {
        isd
    }));
    // auxiliary column 0 records the witnesses of the steps taken
    assert forall|s: int| 0 <= s < pos + 1 implies #[trigger] post.aux_cell(0, s) == vm_aux0_at(
        program,
        init,
        s,
    ) by {
        if s < pos {
            assert(pre.aux_cell(0, s) == vm_aux0_at(program, init, s));
            assert(post.aux_registers == pre.aux_registers);
        } else {
            assert(pre.aux_cell(0, pos) == 0);
            assert(vm_aux0_at(program, init, pos) == 0);
        }
    }
    assert forall|s: int| pos + 1 <= s < program.len() implies #[trigger] post.aux_cell(0, s)
        == 0 by {
        assert(pre.aux_cell(0, s) == 0);
            assert(post.aux_registers == pre.aux_registers);
    }
    assert forall|s: int| 0 <= s < program.len() implies #[trigger] post.aux_cell(1, s) == 0 by {
        assert(pre.aux_cell(1, s) == 0);
        assert(post.aux_registers == pre.aux_registers);
    }
}

/// Carrying out one roll4 step at slot `pos` preserves the
/// trace-building invariant at slot `pos + 1`.
#[verifier::rlimit(100)]
proof fn lemma_build_roll4(
    pre: StackTrace,
    post: StackTrace,
    program: Seq<u128>,
    init: VmState,
    isd: int,
    pos: int,
)
    requires
        trace_build_inv(pre, program, init, isd, pos),
        !vm_is_imm(program, pos),
        0 <= pos < program.len() - 1,
        program[pos] == crate::opcodes::ROLL4,
        post.well_formed(),
        post.depth == pre.depth,
        post.max_depth == pre.max_depth,
        post.secret_inputs_a == pre.secret_inputs_a,
        post.secret_inputs_b == pre.secret_inputs_b,
        StackTrace::frame(&pre, &post, pos),
        post.user_cell(0, pos + 1) == pre.user_cell(3, pos),
        forall|i: int|
            1 <= i < 4 ==> #[trigger] post.user_cell(i, pos + 1) == pre.user_cell(i - 1, pos),
        forall|i: int|
            4 <= i < pre.depth ==> #[trigger] post.user_cell(i, pos + 1) == pre.user_cell(i, pos),
        forall|i: int|
            pre.depth <= i < pre.width()
                ==> #[trigger] post.user_cell(i, pos + 1) == 0,
    ensures
        trace_build_inv(post, program, init, isd, pos + 1),
{
    assert(vm_step_ok(program, init, pos));
    lemma_vm_state_at_inv(program, init, pos);
    let st_i = vm_state_at(program, init, pos);
    assert(row_matches(pre, st_i, pos));
    assert forall|q: int| 0 <= q < pre.width() implies #[trigger] pre.user_cell(q, pos)
        == st_i.stack[q] by {
    }
    let op = program[pos];
    lemma_vm_op_step_inv(st_i, op, pos);
    let st_next = vm_op_step(st_i, op, pos);
    assert(vm_state_at(program, init, pos + 1) == st_next) by {
        reveal(vm_state_at);
    }
    reveal(vm_op_step);
    assert(post.depth == st_next.depth);
    assert(post.max_depth == st_next.max_depth);
    assert(post.secret_inputs_a@ == st_next.secret_a);
    assert(post.secret_inputs_b@ == st_next.secret_b);
    assert(post.width() == (if st_next.max_depth > isd {
        st_next.max_depth
    } else {
        isd
    }));
    lemma_build_roll4_rows(pre, post, program, init, isd, pos);
    lemma_build_roll4_aux(pre, post, program, init, isd, pos);
}

/// The new-row fact of [`lemma_build_roll8`]: row `pos + 1` of the
/// builder equals the expected machine stack row.
#[verifier::rlimit(100)]
proof fn lemma_build_roll8_newrow(
    pre: StackTrace,
    post: StackTrace,
    st_i: VmState,
    row: Seq<u128>,
    pos: int,
)
    requires
        pre.well_formed(),
        post.well_formed(),
        st_i.stack.len() == MAX_USER_STACK_DEPTH,
        post.width() <= MAX_USER_STACK_DEPTH,
        st_i.depth >= 8,
        pre.depth == st_i.depth,
        pre.secret_inputs_a@ == st_i.secret_a,
        pre.secret_inputs_b@ == st_i.secret_b,
        post.width() == pre.width(),
        forall|q: int|
            0 <= q < pre.width() ==> #[trigger] pre.user_cell(q, pos) == st_i.stack[q],
        row == vm_stack_row(
            seq![st_i.stack[7], st_i.stack[0], st_i.stack[1], st_i.stack[2], st_i.stack[3], st_i.stack[4], st_i.stack[5], st_i.stack[6]],
            st_i.stack,
            8,
            st_i.depth - 8,
        ),
        post.user_cell(0, pos + 1) == pre.user_cell(7, pos),
        forall|i: int|
            1 <= i < 8 ==> #[trigger] post.user_cell(i, pos + 1) == pre.user_cell(i - 1, pos),
        forall|i: int|
            8 <= i < pre.depth ==> #[trigger] post.user_cell(i, pos + 1) == pre.user_cell(i, pos),
        forall|i: int|
            pre.depth <= i < pre.width() ==> #[trigger] post.user_cell(i, pos + 1) == 0,
    ensures
        forall|cc: int|
            0 <= cc < post.width() ==> #[trigger] post.user_cell(cc, pos + 1) == row[cc],
{
    assert forall|cc: int| 0 <= cc < post.width() implies #[trigger] post.user_cell(
        cc,
        pos + 1,
    ) == row[cc] by {
    }
}

/// The row facts of [`lemma_build_roll8`]: every earlier row keeps matching the
/// machine run, row `pos + 1` now matches it too, and the rows past it
/// are still blank.
#[verifier::rlimit(100)]
proof fn lemma_build_roll8_rows(
    pre: StackTrace,
    post: StackTrace,
    program: Seq<u128>,
    init: VmState,
    isd: int,
    pos: int,
)
    requires
        trace_build_inv(pre, program, init, isd, pos),
        !vm_is_imm(program, pos),
        0 <= pos < program.len() - 1,
        program[pos] == crate::opcodes::ROLL8,
        post.well_formed(),
        post.depth == pre.depth,
        post.max_depth == pre.max_depth,
        post.secret_inputs_a == pre.secret_inputs_a,
        post.secret_inputs_b == pre.secret_inputs_b,
        StackTrace::frame(&pre, &post, pos),
        post.user_cell(0, pos + 1) == pre.user_cell(7, pos),
        forall|i: int|
            1 <= i < 8 ==> #[trigger] post.user_cell(i, pos + 1) == pre.user_cell(i - 1, pos),
        forall|i: int|
            8 <= i < pre.depth ==> #[trigger] post.user_cell(i, pos + 1) == pre.user_cell(i, pos),
        forall|i: int|
            pre.depth <= i < pre.width()
                ==> #[trigger] post.user_cell(i, pos + 1) == 0,
    ensures
        forall|s: int|
            0 <= s <= pos + 1 ==> #[trigger] row_matches(post, vm_state_at(program, init, s), s),
        forall|s: int| pos + 1 < s < program.len() ==> #[trigger] post.row_clear(s),
{
    assert(vm_step_ok(program, init, pos));
    lemma_vm_state_at_inv(program, init, pos);
    let st_i = vm_state_at(program, init, pos);
    assert(row_matches(pre, st_i, pos));
    assert forall|q: int| 0 <= q < pre.width() implies #[trigger] pre.user_cell(q, pos)
        == st_i.stack[q] by {
    }
    let op = program[pos];
    lemma_vm_op_step_inv(st_i, op, pos);
    let st_next = vm_op_step(st_i, op, pos);
    assert(vm_state_at(program, init, pos + 1) == st_next) by {
        reveal(vm_state_at);
    }
    reveal(vm_op_step);
    assert(post.depth == st_next.depth);
    assert(post.max_depth == st_next.max_depth);
    assert(post.secret_inputs_a@ == st_next.secret_a);
    assert(post.secret_inputs_b@ == st_next.secret_b);
    assert(post.width() == (if st_next.max_depth > isd {
        st_next.max_depth
    } else {
        isd
    }));
    assert(st_next.stack == vm_stack_row(
        seq![st_i.stack[7], st_i.stack[0], st_i.stack[1], st_i.stack[2], st_i.stack[3], st_i.stack[4], st_i.stack[5], st_i.stack[6]],
        st_i.stack,
        8,
        st_i.depth - 8,
    ));
    lemma_build_roll8_newrow(pre, post, st_i, st_next.stack, pos);
    assert(row_matches(post, vm_state_at(program, init, pos + 1), pos + 1));
    // every earlier row keeps matching, and row pos + 1 now matches too
    assert forall|s: int| 0 <= s <= pos + 1 implies #[trigger] row_matches(
        post,
        vm_state_at(program, init, s),
        s,
    ) by {
        if s <= pos {
            assert(row_matches(pre, vm_state_at(program, init, s), s));
            assert forall|cc: int| 0 <= cc < post.width() implies #[trigger] post.user_cell(cc, s)
                == vm_state_at(program, init, s).stack[cc] by {
                assert(pre.user_cell(cc, s) == vm_state_at(program, init, s).stack[cc]);
            }
        } else {
            assert(row_matches(post, vm_state_at(program, init, s), s));
        }
    }
    // the rows past pos + 1 are still blank
    assert forall|s: int| pos + 1 < s < program.len() implies #[trigger] post.row_clear(s) by {
        assert(pre.row_clear(s));
        assert forall|cc: int| 0 <= cc < post.width() implies #[trigger] post.user_cell(cc, s)
            == 0 by {
            assert(pre.user_cell(cc, s) == 0);
        }
    }
}

/// The auxiliary-column facts of [`lemma_build_roll8`]: column 0 carries exactly the
/// witnesses of the steps taken, column 1 stays zero.
#[verifier::rlimit(100)]
proof fn lemma_build_roll8_aux(
    pre: StackTrace,
    post: StackTrace,
    program: Seq<u128>,
    init: VmState,
    isd: int,
    pos: int,
)
    requires
        trace_build_inv(pre, program, init, isd, pos),
        !vm_is_imm(program, pos),
        0 <= pos < program.len() - 1,
        program[pos] == crate::opcodes::ROLL8,
        post.well_formed(),
        post.depth == pre.depth,
        post.max_depth == pre.max_depth,
        post.secret_inputs_a == pre.secret_inputs_a,
        post.secret_inputs_b == pre.secret_inputs_b,
        StackTrace::frame(&pre, &post, pos),
        post.user_cell(0, pos + 1) == pre.user_cell(7, pos),
        forall|i: int|
            1 <= i < 8 ==> #[trigger] post.user_cell(i, pos + 1) == pre.user_cell(i - 1, pos),
        forall|i: int|
            8 <= i < pre.depth ==> #[trigger] post.user_cell(i, pos + 1) == pre.user_cell(i, pos),
        forall|i: int|
            pre.depth <= i < pre.width()
                ==> #[trigger] post.user_cell(i, pos + 1) == 0,
    ensures
        forall|s: int|
            0 <= s < pos + 1 ==> #[trigger] post.aux_cell(0, s) == vm_aux0_at(program, init, s),
        forall|s: int| pos + 1 <= s < program.len() ==> #[trigger] post.aux_cell(0, s) == 0,
        forall|s: int| 0 <= s < program.len() ==> #[trigger] post.aux_cell(1, s) == 0,
{
    assert(vm_step_ok(program, init, pos));
    lemma_vm_state_at_inv(program, init, pos);
    let st_i = vm_state_at(program, init, pos);
    assert(row_matches(pre, st_i, pos));
    assert forall|q: int| 0 <= q < pre.width() implies #[trigger] pre.user_cell(q, pos)
        == st_i.stack[q] by {
    }
    let op = program[pos];
    lemma_vm_op_step_inv(st_i, op, pos);
    let st_next = vm_op_step(st_i, op, pos);
    assert(vm_state_at(program, init, pos + 1) == st_next) by {
        reveal(vm_state_at);
    }
    reveal(vm_op_step);
    assert(post.depth == st_next.depth);
    assert(post.max_depth == st_next.max_depth);
    assert(post.secret_inputs_a@ == st_next.secret_a);
    assert(post.secret_inputs_b@ == st_next.secret_b);
    assert(post.width() == (if st_next.max_depth > isd {
        st_next.max_depth
    } else {
        isd
    }));
    // auxiliary column 0 records the witnesses of the steps taken
    assert forall|s: int| 0 <= s < pos + 1 implies #[trigger] post.aux_cell(0, s) == vm_aux0_at(
        program,
        init,
        s,
    ) by {
        if s < pos {
            assert(pre.aux_cell(0, s) == vm_aux0_at(program, init, s));
            assert(post.aux_registers == pre.aux_registers);
        } else {
            assert(pre.aux_cell(0, pos) == 0);
            assert(vm_aux0_at(program, init, pos) == 0);
        }
    }
    assert forall|s: int| pos + 1 <= s < program.len() implies #[trigger] post.aux_cell(0, s)
        == 0 by {
        assert(pre.aux_cell(0, s) == 0);
            assert(post.aux_registers == pre.aux_registers);
    }
    assert forall|s: int| 0 <= s < program.len() implies #[trigger] post.aux_cell(1, s) == 0 by {
        assert(pre.aux_cell(1, s) == 0);
        assert(post.aux_registers == pre.aux_registers);
    }
}

/// Carrying out one roll8 step at slot `pos` preserves the
/// trace-building invariant at slot `pos + 1`.
#[verifier::rlimit(100)]
proof fn lemma_build_roll8(
    pre: StackTrace,
    post: StackTrace,
    program: Seq<u128>,
    init: VmState,
    isd: int,
    pos: int,
)
    requires
        trace_build_inv(pre, program, init, isd, pos),
        !vm_is_imm(program, pos),
        0 <= pos < program.len() - 1,
        program[pos] == crate::opcodes::ROLL8,
        post.well_formed(),
        post.depth == pre.depth,
        post.max_depth == pre.max_depth,
        post.secret_inputs_a == pre.secret_inputs_a,
        post.secret_inputs_b == pre.secret_inputs_b,
        StackTrace::frame(&pre, &post, pos),
        post.user_cell(0, pos + 1) == pre.user_cell(7, pos),
        forall|i: int|
            1 <= i < 8 ==> #[trigger] post.user_cell(i, pos + 1) == pre.user_cell(i - 1, pos),
        forall|i: int|
            8 <= i < pre.depth ==> #[trigger] post.user_cell(i, pos + 1) == pre.user_cell(i, pos),
        forall|i: int|
            pre.depth <= i < pre.width()
                ==> #[trigger] post.user_cell(i, pos + 1) == 0,
    ensures
        trace_build_inv(post, program, init, isd, pos + 1),
{
    assert(vm_step_ok(program, init, pos));
    lemma_vm_state_at_inv(program, init, pos);
    let st_i = vm_state_at(program, init, pos);
    assert(row_matches(pre, st_i, pos));
    assert forall|q: int| 0 <= q < pre.width() implies #[trigger] pre.user_cell(q, pos)
        == st_i.stack[q] by {
    }
    let op = program[pos];
    lemma_vm_op_step_inv(st_i, op, pos);
    let st_next = vm_op_step(st_i, op, pos);
    assert(vm_state_at(program, init, pos + 1) == st_next) by {
        reveal(vm_state_at);
    }
    reveal(vm_op_step);
    assert(post.depth == st_next.depth);
    assert(post.max_depth == st_next.max_depth);
    assert(post.secret_inputs_a@ == st_next.secret_a);
    assert(post.secret_inputs_b@ == st_next.secret_b);
    assert(post.width() == (if st_next.max_depth > isd {
        st_next.max_depth
    } else {
        isd
    }));
    lemma_build_roll8_rows(pre, post, program, init, isd, pos);
    lemma_build_roll8_aux(pre, post, program, init, isd, pos);
}

/// The new-row fact of [`lemma_build_choose_op`]: row `pos + 1` of the builder equals
/// the machine stack after the step.
#[verifier::rlimit(100)]
proof fn lemma_build_choose_op_newrow(
    pre: StackTrace,
    post: StackTrace,
    program: Seq<u128>,
    init: VmState,
    isd: int,
    pos: int,
)
    requires
        trace_build_inv(pre, program, init, isd, pos),
        !vm_is_imm(program, pos),
        0 <= pos < program.len() - 1,
        program[pos] == crate::opcodes::CHOOSE,
        post.well_formed(),
        post.depth == pre.depth - 2,
        post.max_depth == pre.max_depth,
        post.secret_inputs_a == pre.secret_inputs_a,
        post.secret_inputs_b == pre.secret_inputs_b,
        StackTrace::frame(&pre, &post, pos),
        post.user_cell(0, pos + 1) == (if pre.user_cell(2, pos) == 1 {
            pre.user_cell(0, pos)
        } else {
            pre.user_cell(1, pos)
        }),
        forall|i: int|
            1 <= i < pre.depth - 2 ==> #[trigger] post.user_cell(i, pos + 1)
                == pre.user_cell(i + 2, pos),
        forall|i: int|
            pre.depth - 2 <= i < pre.width()
                ==> #[trigger] post.user_cell(i, pos + 1) == 0,
    ensures
        row_matches(post, vm_state_at(program, init, pos + 1), pos + 1),
{
    assert(vm_step_ok(program, init, pos));
    lemma_vm_state_at_inv(program, init, pos);
    let st_i = vm_state_at(program, init, pos);
    assert(row_matches(pre, st_i, pos));
    assert forall|q: int| 0 <= q < pre.width() implies #[trigger] pre.user_cell(q, pos)
        == st_i.stack[q] by {
    }
    let op = program[pos];
    lemma_vm_op_step_inv(st_i, op, pos);
    let st_next = vm_op_step(st_i, op, pos);
    assert(vm_state_at(program, init, pos + 1) == st_next) by {
        reveal(vm_state_at);
    }
    reveal(vm_op_step);
    assert(post.depth == st_next.depth);
    assert(post.max_depth == st_next.max_depth);
    assert(post.secret_inputs_a@ == st_next.secret_a);
    assert(post.secret_inputs_b@ == st_next.secret_b);
    assert(post.width() == (if st_next.max_depth > isd {
        st_next.max_depth
    } else {
        isd
    }));
    assert forall|cc: int| 0 <= cc < post.width() implies #[trigger] post.user_cell(
        cc,
        pos + 1,
    ) == st_next.stack[cc] by {
    }
}

/// The row facts of [`lemma_build_choose_op`]: every earlier row keeps matching the
/// machine run, row `pos + 1` now matches it too, and the rows past it
/// are still blank.
#[verifier::rlimit(100)]
proof fn lemma_build_choose_op_rows(
    pre: StackTrace,
    post: StackTrace,
    program: Seq<u128>,
    init: VmState,
    isd: int,
    pos: int,
)
    requires
        trace_build_inv(pre, program, init, isd, pos),
        !vm_is_imm(program, pos),
        0 <= pos < program.len() - 1,
        program[pos] == crate::opcodes::CHOOSE,
        post.well_formed(),
        post.depth == pre.depth - 2,
        post.max_depth == pre.max_depth,
        post.secret_inputs_a == pre.secret_inputs_a,
        post.secret_inputs_b == pre.secret_inputs_b,
        StackTrace::frame(&pre, &post, pos),
        post.user_cell(0, pos + 1) == (if pre.user_cell(2, pos) == 1 {
            pre.user_cell(0, pos)
        } else {
            pre.user_cell(1, pos)
        }),
        forall|i: int|
            1 <= i < pre.depth - 2 ==> #[trigger] post.user_cell(i, pos + 1)
                == pre.user_cell(i + 2, pos),
        forall|i: int|
            pre.depth - 2 <= i < pre.width()
                ==> #[trigger] post.user_cell(i, pos + 1) == 0,
    ensures
        forall|s: int|
            0 <= s <= pos + 1 ==> #[trigger] row_matches(post, vm_state_at(program, init, s), s),
        forall|s: int| pos + 1 < s < program.len() ==> #[trigger] post.row_clear(s),
{
    assert(vm_step_ok(program, init, pos));
    lemma_vm_state_at_inv(program, init, pos);
    let st_i = vm_state_at(program, init, pos);
    assert(row_matches(pre, st_i, pos));
    assert forall|q: int| 0 <= q < pre.width() implies #[trigger] pre.user_cell(q, pos)
        == st_i.stack[q] by {
    }
    let op = program[pos];
    lemma_vm_op_step_inv(st_i, op, pos);
    let st_next = vm_op_step(st_i, op, pos);
    assert(vm_state_at(program, init, pos + 1) == st_next) by {
        reveal(vm_state_at);
    }
    reveal(vm_op_step);
    assert(post.depth == st_next.depth);
    assert(post.max_depth == st_next.max_depth);
    assert(post.secret_inputs_a@ == st_next.secret_a);
    assert(post.secret_inputs_b@ == st_next.secret_b);
    assert(post.width() == (if st_next.max_depth > isd {
        st_next.max_depth
    } else {
        isd
    }));
    lemma_build_choose_op_newrow(pre, post, program, init, isd, pos);
    // every earlier row keeps matching, and row pos + 1 now matches too
    assert forall|s: int| 0 <= s <= pos + 1 implies #[trigger] row_matches(
        post,
        vm_state_at(program, init, s),
        s,
    ) by {
        if s <= pos {
            assert(row_matches(pre, vm_state_at(program, init, s), s));
            assert forall|cc: int| 0 <= cc < post.width() implies #[trigger] post.user_cell(cc, s)
                == vm_state_at(program, init, s).stack[cc] by {
                assert(pre.user_cell(cc, s) == vm_state_at(program, init, s).stack[cc]);
            }
        } else {
            assert(row_matches(post, vm_state_at(program, init, s), s));
        }
    }
    // the rows past pos + 1 are still blank
    assert forall|s: int| pos + 1 < s < program.len() implies #[trigger] post.row_clear(s) by {
        assert(pre.row_clear(s));
        assert forall|cc: int| 0 <= cc < post.width() implies #[trigger] post.user_cell(cc, s)
            == 0 by {
            assert(pre.user_cell(cc, s) == 0);
        }
    }
}

/// The auxiliary-column facts of [`lemma_build_choose_op`]: column 0 carries exactly the
/// witnesses of the steps taken, column 1 stays zero.
#[verifier::rlimit(100)]
proof fn lemma_build_choose_op_aux(
    pre: StackTrace,
    post: StackTrace,
    program: Seq<u128>,
    init: VmState,
    isd: int,
    pos: int,
)
    requires
        trace_build_inv(pre, program, init, isd, pos),
        !vm_is_imm(program, pos),
        0 <= pos < program.len() - 1,
        program[pos] == crate::opcodes::CHOOSE,
        post.well_formed(),
        post.depth == pre.depth - 2,
        post.max_depth == pre.max_depth,
        post.secret_inputs_a == pre.secret_inputs_a,
        post.secret_inputs_b == pre.secret_inputs_b,
        StackTrace::frame(&pre, &post, pos),
        post.user_cell(0, pos + 1) == (if pre.user_cell(2, pos) == 1 {
            pre.user_cell(0, pos)
        } else {
            pre.user_cell(1, pos)
        }),
        forall|i: int|
            1 <= i < pre.depth - 2 ==> #[trigger] post.user_cell(i, pos + 1)
                == pre.user_cell(i + 2, pos),
        forall|i: int|
            pre.depth - 2 <= i < pre.width()
                ==> #[trigger] post.user_cell(i, pos + 1) == 0,
    ensures
        forall|s: int|
            0 <= s < pos + 1 ==> #[trigger] post.aux_cell(0, s) == vm_aux0_at(program, init, s),
        forall|s: int| pos + 1 <= s < program.len() ==> #[trigger] post.aux_cell(0, s) == 0,
        forall|s: int| 0 <= s < program.len() ==> #[trigger] post.aux_cell(1, s) == 0,
{
    assert(vm_step_ok(program, init, pos));
    lemma_vm_state_at_inv(program, init, pos);
    let st_i = vm_state_at(program, init, pos);
    assert(row_matches(pre, st_i, pos));
    assert forall|q: int| 0 <= q < pre.width() implies #[trigger] pre.user_cell(q, pos)
        == st_i.stack[q] by {
    }
    let op = program[pos];
    lemma_vm_op_step_inv(st_i, op, pos);
    let st_next = vm_op_step(st_i, op, pos);
    assert(vm_state_at(program, init, pos + 1) == st_next) by {
        reveal(vm_state_at);
    }
    reveal(vm_op_step);
    assert(post.depth == st_next.depth);
    assert(post.max_depth == st_next.max_depth);
    assert(post.secret_inputs_a@ == st_next.secret_a);
    assert(post.secret_inputs_b@ == st_next.secret_b);
    assert(post.width() == (if st_next.max_depth > isd {
        st_next.max_depth
    } else {
        isd
    }));
    // auxiliary column 0 records the witnesses of the steps taken
    assert forall|s: int| 0 <= s < pos + 1 implies #[trigger] post.aux_cell(0, s) == vm_aux0_at(
        program,
        init,
        s,
    ) by {
        if s < pos {
            assert(pre.aux_cell(0, s) == vm_aux0_at(program, init, s));
            assert(post.aux_registers == pre.aux_registers);
        } else {
            assert(pre.aux_cell(0, pos) == 0);
            assert(vm_aux0_at(program, init, pos) == 0);
        }
    }
    assert forall|s: int| pos + 1 <= s < program.len() implies #[trigger] post.aux_cell(0, s)
        == 0 by {
        assert(pre.aux_cell(0, s) == 0);
            assert(post.aux_registers == pre.aux_registers);
    }
    assert forall|s: int| 0 <= s < program.len() implies #[trigger] post.aux_cell(1, s) == 0 by {
        assert(pre.aux_cell(1, s) == 0);
        assert(post.aux_registers == pre.aux_registers);
    }
}

/// Carrying out one choose op step at slot `pos` preserves the
/// trace-building invariant at slot `pos + 1`.
#[verifier::rlimit(100)]
proof fn lemma_build_choose_op(
    pre: StackTrace,
    post: StackTrace,
    program: Seq<u128>,
    init: VmState,
    isd: int,
    pos: int,
)
    requires
        trace_build_inv(pre, program, init, isd, pos),
        !vm_is_imm(program, pos),
        0 <= pos < program.len() - 1,
        program[pos] == crate::opcodes::CHOOSE,
        post.well_formed(),
        post.depth == pre.depth - 2,
        post.max_depth == pre.max_depth,
        post.secret_inputs_a == pre.secret_inputs_a,
        post.secret_inputs_b == pre.secret_inputs_b,
        StackTrace::frame(&pre, &post, pos),
        post.user_cell(0, pos + 1) == (if pre.user_cell(2, pos) == 1 {
            pre.user_cell(0, pos)
        } else {
            pre.user_cell(1, pos)
        }),
        forall|i: int|
            1 <= i < pre.depth - 2 ==> #[trigger] post.user_cell(i, pos + 1)
                == pre.user_cell(i + 2, pos),
        forall|i: int|
            pre.depth - 2 <= i < pre.width()
                ==> #[trigger] post.user_cell(i, pos + 1) == 0,
    ensures
        trace_build_inv(post, program, init, isd, pos + 1),
{
    assert(vm_step_ok(program, init, pos));
    lemma_vm_state_at_inv(program, init, pos);
    let st_i = vm_state_at(program, init, pos);
    assert(row_matches(pre, st_i, pos));
    assert forall|q: int| 0 <= q < pre.width() implies #[trigger] pre.user_cell(q, pos)
        == st_i.stack[q] by {
    }
    let op = program[pos];
    lemma_vm_op_step_inv(st_i, op, pos);
    let st_next = vm_op_step(st_i, op, pos);
    assert(vm_state_at(program, init, pos + 1) == st_next) by {
        reveal(vm_state_at);
    }
    reveal(vm_op_step);
    assert(post.depth == st_next.depth);
    assert(post.max_depth == st_next.max_depth);
    assert(post.secret_inputs_a@ == st_next.secret_a);
    assert(post.secret_inputs_b@ == st_next.secret_b);
    assert(post.width() == (if st_next.max_depth > isd {
        st_next.max_depth
    } else {
        isd
    }));
    lemma_build_choose_op_rows(pre, post, program, init, isd, pos);
    lemma_build_choose_op_aux(pre, post, program, init, isd, pos);
}

/// The new-row fact of [`lemma_build_choose2`]: row `pos + 1` of the
/// builder equals the expected machine stack row.
#[verifier::rlimit(100)]
proof fn lemma_build_choose2_newrow(
    pre: StackTrace,
    post: StackTrace,
    st_i: VmState,
    row: Seq<u128>,
    pos: int,
)
    requires
        pre.well_formed(),
        post.well_formed(),
        st_i.stack.len() == MAX_USER_STACK_DEPTH,
        post.width() <= MAX_USER_STACK_DEPTH,
        st_i.depth >= 6,
        pre.depth == st_i.depth,
        pre.secret_inputs_a@ == st_i.secret_a,
        pre.secret_inputs_b@ == st_i.secret_b,
        post.width() == pre.width(),
        forall|q: int|
            0 <= q < pre.width() ==> #[trigger] pre.user_cell(q, pos) == st_i.stack[q],
        row == vm_stack_row(
            seq![
                if st_i.stack[4] == 1 { st_i.stack[0] } else { st_i.stack[2] },
                if st_i.stack[4] == 1 { st_i.stack[1] } else { st_i.stack[3] },
            ],
            st_i.stack,
            6,
            st_i.depth - 6,
        ),
        post.user_cell(0, pos + 1) == (if pre.user_cell(4, pos) == 1 {
            pre.user_cell(0, pos)
        } else {
            pre.user_cell(2, pos)
        }),
        post.user_cell(1, pos + 1) == (if pre.user_cell(4, pos) == 1 {
            pre.user_cell(1, pos)
        } else {
            pre.user_cell(3, pos)
        }),
        forall|i: int|
            2 <= i < pre.depth - 4 ==> #[trigger] post.user_cell(i, pos + 1) == pre.user_cell(
                i + 4,
                pos,
            ),
        forall|i: int|
            pre.depth - 4 <= i < pre.width() ==> #[trigger] post.user_cell(i, pos + 1) == 0,
    ensures
        forall|cc: int|
            0 <= cc < post.width() ==> #[trigger] post.user_cell(cc, pos + 1) == row[cc],
{
    assert forall|cc: int| 0 <= cc < post.width() implies #[trigger] post.user_cell(
        cc,
        pos + 1,
    ) == row[cc] by {
        if cc == 0 {
            assert(pre.user_cell(0, pos) == st_i.stack[0]);
            assert(pre.user_cell(2, pos) == st_i.stack[2]);
            assert(pre.user_cell(4, pos) == st_i.stack[4]);
        } else if cc == 1 {
            assert(pre.user_cell(1, pos) == st_i.stack[1]);
            assert(pre.user_cell(3, pos) == st_i.stack[3]);
            assert(pre.user_cell(4, pos) == st_i.stack[4]);
        } else if cc < st_i.depth - 4 {
            assert(pre.user_cell(cc + 4, pos) == st_i.stack[cc + 4]);
        }
    }
}

/// The row facts of [`lemma_build_choose2`]: every earlier row keeps matching the
/// machine run, row `pos + 1` now matches it too, and the rows past it
/// are still blank.
#[verifier::rlimit(100)]
proof fn lemma_build_choose2_rows(
    pre: StackTrace,
    post: StackTrace,
    program: Seq<u128>,
    init: VmState,
    isd: int,
    pos: int,
)
    requires
        trace_build_inv(pre, program, init, isd, pos),
        !vm_is_imm(program, pos),
        0 <= pos < program.len() - 1,
        program[pos] == crate::opcodes::CHOOSE2,
        post.well_formed(),
        post.depth == pre.depth - 4,
        post.max_depth == pre.max_depth,
        post.secret_inputs_a == pre.secret_inputs_a,
        post.secret_inputs_b == pre.secret_inputs_b,
        StackTrace::frame(&pre, &post, pos),
        post.user_cell(0, pos + 1) == (if pre.user_cell(4, pos) == 1 {
            pre.user_cell(0, pos)
        } else {
            pre.user_cell(2, pos)
        }),
        post.user_cell(1, pos + 1) == (if pre.user_cell(4, pos) == 1 {
            pre.user_cell(1, pos)
        } else {
            pre.user_cell(3, pos)
        }),
        forall|i: int|
            2 <= i < pre.depth - 4 ==> #[trigger] post.user_cell(i, pos + 1)
                == pre.user_cell(i + 4, pos),
        forall|i: int|
            pre.depth - 4 <= i < pre.width()
                ==> #[trigger] post.user_cell(i, pos + 1) == 0,
    ensures
        forall|s: int|
            0 <= s <= pos + 1 ==> #[trigger] row_matches(post, vm_state_at(program, init, s), s),
        forall|s: int| pos + 1 < s < program.len() ==> #[trigger] post.row_clear(s),
{
    assert(vm_step_ok(program, init, pos));
    lemma_vm_state_at_inv(program, init, pos);
    let st_i = vm_state_at(program, init, pos);
    assert(row_matches(pre, st_i, pos));
    assert forall|q: int| 0 <= q < pre.width() implies #[trigger] pre.user_cell(q, pos)
        == st_i.stack[q] by {
    }
    let op = program[pos];
    lemma_vm_op_step_inv(st_i, op, pos);
    let st_next = vm_op_step(st_i, op, pos);
    assert(vm_state_at(program, init, pos + 1) == st_next) by {
        reveal(vm_state_at);
    }
    reveal(vm_op_step);
    assert(post.depth == st_next.depth);
    assert(post.max_depth == st_next.max_depth);
    assert(post.secret_inputs_a@ == st_next.secret_a);
    assert(post.secret_inputs_b@ == st_next.secret_b);
    assert(post.width() == (if st_next.max_depth > isd {
        st_next.max_depth
    } else {
        isd
    }));
    assert(st_next.stack == vm_stack_row(
        seq![
                if st_i.stack[4] == 1 { st_i.stack[0] } else { st_i.stack[2] },
                if st_i.stack[4] == 1 { st_i.stack[1] } else { st_i.stack[3] },
            ],
        st_i.stack,
        6,
        st_i.depth - 6,
    ));
    lemma_build_choose2_newrow(pre, post, st_i, st_next.stack, pos);
    assert(row_matches(post, vm_state_at(program, init, pos + 1), pos + 1));
    // every earlier row keeps matching, and row pos + 1 now matches too
    assert forall|s: int| 0 <= s <= pos + 1 implies #[trigger] row_matches(
        post,
        vm_state_at(program, init, s),
        s,
    ) by {
        if s <= pos {
            assert(row_matches(pre, vm_state_at(program, init, s), s));
            assert forall|cc: int| 0 <= cc < post.width() implies #[trigger] post.user_cell(cc, s)
                == vm_state_at(program, init, s).stack[cc] by {
                assert(pre.user_cell(cc, s) == vm_state_at(program, init, s).stack[cc]);
            }
        } else {
            assert(row_matches(post, vm_state_at(program, init, s), s));
        }
    }
    // the rows past pos + 1 are still blank
    assert forall|s: int| pos + 1 < s < program.len() implies #[trigger] post.row_clear(s) by {
        assert(pre.row_clear(s));
        assert forall|cc: int| 0 <= cc < post.width() implies #[trigger] post.user_cell(cc, s)
            == 0 by {
            assert(pre.user_cell(cc, s) == 0);
        }
    }
}

/// The auxiliary-column facts of [`lemma_build_choose2`]: column 0 carries exactly the
/// witnesses of the steps taken, column 1 stays zero.
#[verifier::rlimit(100)]
proof fn lemma_build_choose2_aux(
    pre: StackTrace,
    post: StackTrace,
    program: Seq<u128>,
    init: VmState,
    isd: int,
    pos: int,
)
    requires
        trace_build_inv(pre, program, init, isd, pos),
        !vm_is_imm(program, pos),
        0 <= pos < program.len() - 1,
        program[pos] == crate::opcodes::CHOOSE2,
        post.well_formed(),
        post.depth == pre.depth - 4,
        post.max_depth == pre.max_depth,
        post.secret_inputs_a == pre.secret_inputs_a,
        post.secret_inputs_b == pre.secret_inputs_b,
        StackTrace::frame(&pre, &post, pos),
        post.user_cell(0, pos + 1) == (if pre.user_cell(4, pos) == 1 {
            pre.user_cell(0, pos)
        } else {
            pre.user_cell(2, pos)
        }),
        post.user_cell(1, pos + 1) == (if pre.user_cell(4, pos) == 1 {
            pre.user_cell(1, pos)
        } else {
            pre.user_cell(3, pos)
        }),
        forall|i: int|
            2 <= i < pre.depth - 4 ==> #[trigger] post.user_cell(i, pos + 1)
                == pre.user_cell(i + 4, pos),
        forall|i: int|
            pre.depth - 4 <= i < pre.width()
                ==> #[trigger] post.user_cell(i, pos + 1) == 0,
    ensures
        forall|s: int|
            0 <= s < pos + 1 ==> #[trigger] post.aux_cell(0, s) == vm_aux0_at(program, init, s),
        forall|s: int| pos + 1 <= s < program.len() ==> #[trigger] post.aux_cell(0, s) == 0,
        forall|s: int| 0 <= s < program.len() ==> #[trigger] post.aux_cell(1, s) == 0,
{
    assert(vm_step_ok(program, init, pos));
    lemma_vm_state_at_inv(program, init, pos);
    let st_i = vm_state_at(program, init, pos);
    assert(row_matches(pre, st_i, pos));
    assert forall|q: int| 0 <= q < pre.width() implies #[trigger] pre.user_cell(q, pos)
        == st_i.stack[q] by {
    }
    let op = program[pos];
    lemma_vm_op_step_inv(st_i, op, pos);
    let st_next = vm_op_step(st_i, op, pos);
    assert(vm_state_at(program, init, pos + 1) == st_next) by {
        reveal(vm_state_at);
    }
    reveal(vm_op_step);
    assert(post.depth == st_next.depth);
    assert(post.max_depth == st_next.max_depth);
    assert(post.secret_inputs_a@ == st_next.secret_a);
    assert(post.secret_inputs_b@ == st_next.secret_b);
    assert(post.width() == (if st_next.max_depth > isd {
        st_next.max_depth
    } else {
        isd
    }));
    // auxiliary column 0 records the witnesses of the steps taken
    assert forall|s: int| 0 <= s < pos + 1 implies #[trigger] post.aux_cell(0, s) == vm_aux0_at(
        program,
        init,
        s,
    ) by {
        if s < pos {
            assert(pre.aux_cell(0, s) == vm_aux0_at(program, init, s));
            assert(post.aux_registers == pre.aux_registers);
        } else {
            assert(pre.aux_cell(0, pos) == 0);
            assert(vm_aux0_at(program, init, pos) == 0);
        }
    }
    assert forall|s: int| pos + 1 <= s < program.len() implies #[trigger] post.aux_cell(0, s)
        == 0 by {
        assert(pre.aux_cell(0, s) == 0);
            assert(post.aux_registers == pre.aux_registers);
    }
    assert forall|s: int| 0 <= s < program.len() implies #[trigger] post.aux_cell(1, s) == 0 by {
        assert(pre.aux_cell(1, s) == 0);
        assert(post.aux_registers == pre.aux_registers);
    }
}

/// Carrying out one choose2 step at slot `pos` preserves the
/// trace-building invariant at slot `pos + 1`.
#[verifier::rlimit(100)]
proof fn lemma_build_choose2(
    pre: StackTrace,
    post: StackTrace,
    program: Seq<u128>,
    init: VmState,
    isd: int,
    pos: int,
)
    requires
        trace_build_inv(pre, program, init, isd, pos),
        !vm_is_imm(program, pos),
        0 <= pos < program.len() - 1,
        program[pos] == crate::opcodes::CHOOSE2,
        post.well_formed(),
        post.depth == pre.depth - 4,
        post.max_depth == pre.max_depth,
        post.secret_inputs_a == pre.secret_inputs_a,
        post.secret_inputs_b == pre.secret_inputs_b,
        StackTrace::frame(&pre, &post, pos),
        post.user_cell(0, pos + 1) == (if pre.user_cell(4, pos) == 1 {
            pre.user_cell(0, pos)
        } else {
            pre.user_cell(2, pos)
        }),
        post.user_cell(1, pos + 1) == (if pre.user_cell(4, pos) == 1 {
            pre.user_cell(1, pos)
        } else {
            pre.user_cell(3, pos)
        }),
        forall|i: int|
            2 <= i < pre.depth - 4 ==> #[trigger] post.user_cell(i, pos + 1)
                == pre.user_cell(i + 4, pos),
        forall|i: int|
            pre.depth - 4 <= i < pre.width()
                ==> #[trigger] post.user_cell(i, pos + 1) == 0,
    ensures
        trace_build_inv(post, program, init, isd, pos + 1),
{
    assert(vm_step_ok(program, init, pos));
    lemma_vm_state_at_inv(program, init, pos);
    let st_i = vm_state_at(program, init, pos);
    assert(row_matches(pre, st_i, pos));
    assert forall|q: int| 0 <= q < pre.width() implies #[trigger] pre.user_cell(q, pos)
        == st_i.stack[q] by {
    }
    let op = program[pos];
    lemma_vm_op_step_inv(st_i, op, pos);
    let st_next = vm_op_step(st_i, op, pos);
    assert(vm_state_at(program, init, pos + 1) == st_next) by {
        reveal(vm_state_at);
    }
    reveal(vm_op_step);
    assert(post.depth == st_next.depth);
    assert(post.max_depth == st_next.max_depth);
    assert(post.secret_inputs_a@ == st_next.secret_a);
    assert(post.secret_inputs_b@ == st_next.secret_b);
    assert(post.width() == (if st_next.max_depth > isd {
        st_next.max_depth
    } else {
        isd
    }));
    lemma_build_choose2_rows(pre, post, program, init, isd, pos);
    lemma_build_choose2_aux(pre, post, program, init, isd, pos);
}

/// The row facts of [`lemma_build_add`]: every earlier row keeps matching the
/// machine run, row `pos + 1` now matches it too, and the rows past it
/// are still blank.
#[verifier::rlimit(100)]
proof fn lemma_build_add_rows(
    pre: StackTrace,
    post: StackTrace,
    program: Seq<u128>,
    init: VmState,
    isd: int,
    pos: int,
)
    requires
        trace_build_inv(pre, program, init, isd, pos),
        !vm_is_imm(program, pos),
        0 <= pos < program.len() - 1,
        program[pos] == crate::opcodes::ADD,
        post.well_formed(),
        post.depth == pre.depth - 1,
        post.max_depth == pre.max_depth,
        post.secret_inputs_a == pre.secret_inputs_a,
        post.secret_inputs_b == pre.secret_inputs_b,
        StackTrace::frame(&pre, &post, pos),
        post.user_cell(0, pos + 1) == fadd(
            pre.user_cell(0, pos) as int,
            pre.user_cell(1, pos) as int,
        ),
        forall|i: int|
            1 <= i < pre.depth - 1 ==> #[trigger] post.user_cell(i, pos + 1)
                == pre.user_cell(i + 1, pos),
        forall|i: int|
            pre.depth - 1 <= i < pre.width()
                ==> #[trigger] post.user_cell(i, pos + 1) == 0,
    ensures
        forall|s: int|
            0 <= s <= pos + 1 ==> #[trigger] row_matches(post, vm_state_at(program, init, s), s),
        forall|s: int| pos + 1 < s < program.len() ==> #[trigger] post.row_clear(s),
{
    assert(vm_step_ok(program, init, pos));
    lemma_vm_state_at_inv(program, init, pos);
    let st_i = vm_state_at(program, init, pos);
    assert(row_matches(pre, st_i, pos));
    assert forall|q: int| 0 <= q < pre.width() implies #[trigger] pre.user_cell(q, pos)
        == st_i.stack[q] by {
    }
    let op = program[pos];
    lemma_vm_op_step_inv(st_i, op, pos);
    let st_next = vm_op_step(st_i, op, pos);
    assert(vm_state_at(program, init, pos + 1) == st_next) by {
        reveal(vm_state_at);
    }
    reveal(vm_op_step);
    assert(post.depth == st_next.depth);
    assert(post.max_depth == st_next.max_depth);
    assert(post.secret_inputs_a@ == st_next.secret_a);
    assert(post.secret_inputs_b@ == st_next.secret_b);
    assert(post.width() == (if st_next.max_depth > isd {
        st_next.max_depth
    } else {
        isd
    }));
    // every earlier row keeps matching, and row pos + 1 now matches too
    assert forall|s: int| 0 <= s <= pos + 1 implies #[trigger] row_matches(
        post,
        vm_state_at(program, init, s),
        s,
    ) by {
        if s <= pos {
            assert(row_matches(pre, vm_state_at(program, init, s), s));
            assert forall|cc: int| 0 <= cc < post.width() implies #[trigger] post.user_cell(cc, s)
                == vm_state_at(program, init, s).stack[cc] by {
                assert(pre.user_cell(cc, s) == vm_state_at(program, init, s).stack[cc]);
            }
        } else {
            assert forall|cc: int| 0 <= cc < post.width() implies #[trigger] post.user_cell(cc, s)
                == st_next.stack[cc] by {
            }
        }
    }
    // the rows past pos + 1 are still blank
    assert forall|s: int| pos + 1 < s < program.len() implies #[trigger] post.row_clear(s) by {
        assert(pre.row_clear(s));
        assert forall|cc: int| 0 <= cc < post.width() implies #[trigger] post.user_cell(cc, s)
            == 0 by {
            assert(pre.user_cell(cc, s) == 0);
        }
    }
}

/// The auxiliary-column facts of [`lemma_build_add`]: column 0 carries exactly the
/// witnesses of the steps taken, column 1 stays zero.
#[verifier::rlimit(100)]
proof fn lemma_build_add_aux(
    pre: StackTrace,
    post: StackTrace,
    program: Seq<u128>,
    init: VmState,
    isd: int,
    pos: int,
)
    requires
        trace_build_inv(pre, program, init, isd, pos),
        !vm_is_imm(program, pos),
        0 <= pos < program.len() - 1,
        program[pos] == crate::opcodes::ADD,
        post.well_formed(),
        post.depth == pre.depth - 1,
        post.max_depth == pre.max_depth,
        post.secret_inputs_a == pre.secret_inputs_a,
        post.secret_inputs_b == pre.secret_inputs_b,
        StackTrace::frame(&pre, &post, pos),
        post.user_cell(0, pos + 1) == fadd(
            pre.user_cell(0, pos) as int,
            pre.user_cell(1, pos) as int,
        ),
        forall|i: int|
            1 <= i < pre.depth - 1 ==> #[trigger] post.user_cell(i, pos + 1)
                == pre.user_cell(i + 1, pos),
        forall|i: int|
            pre.depth - 1 <= i < pre.width()
                ==> #[trigger] post.user_cell(i, pos + 1) == 0,
    ensures
        forall|s: int|
            0 <= s < pos + 1 ==> #[trigger] post.aux_cell(0, s) == vm_aux0_at(program, init, s),
        forall|s: int| pos + 1 <= s < program.len() ==> #[trigger] post.aux_cell(0, s) == 0,
        forall|s: int| 0 <= s < program.len() ==> #[trigger] post.aux_cell(1, s) == 0,
{
    assert(vm_step_ok(program, init, pos));
    lemma_vm_state_at_inv(program, init, pos);
    let st_i = vm_state_at(program, init, pos);
    assert(row_matches(pre, st_i, pos));
    assert forall|q: int| 0 <= q < pre.width() implies #[trigger] pre.user_cell(q, pos)
        == st_i.stack[q] by {
    }
    let op = program[pos];
    lemma_vm_op_step_inv(st_i, op, pos);
    let st_next = vm_op_step(st_i, op, pos);
    assert(vm_state_at(program, init, pos + 1) == st_next) by {
        reveal(vm_state_at);
    }
    reveal(vm_op_step);
    assert(post.depth == st_next.depth);
    assert(post.max_depth == st_next.max_depth);
    assert(post.secret_inputs_a@ == st_next.secret_a);
    assert(post.secret_inputs_b@ == st_next.secret_b);
    assert(post.width() == (if st_next.max_depth > isd {
        st_next.max_depth
    } else {
        isd
    }));
    // auxiliary column 0 records the witnesses of the steps taken
    assert forall|s: int| 0 <= s < pos + 1 implies #[trigger] post.aux_cell(0, s) == vm_aux0_at(
        program,
        init,
        s,
    ) by {
        if s < pos {
            assert(pre.aux_cell(0, s) == vm_aux0_at(program, init, s));
            assert(post.aux_registers == pre.aux_registers);
        } else {
            assert(pre.aux_cell(0, pos) == 0);
            assert(vm_aux0_at(program, init, pos) == 0);
        }
    }
    assert forall|s: int| pos + 1 <= s < program.len() implies #[trigger] post.aux_cell(0, s)
        == 0 by {
        assert(pre.aux_cell(0, s) == 0);
            assert(post.aux_registers == pre.aux_registers);
    }
    assert forall|s: int| 0 <= s < program.len() implies #[trigger] post.aux_cell(1, s) == 0 by {
        assert(pre.aux_cell(1, s) == 0);
        assert(post.aux_registers == pre.aux_registers);
    }
}

/// Carrying out one add step at slot `pos` preserves the
/// trace-building invariant at slot `pos + 1`.
#[verifier::rlimit(100)]
proof fn lemma_build_add(
    pre: StackTrace,
    post: StackTrace,
    program: Seq<u128>,
    init: VmState,
    isd: int,
    pos: int,
)
    requires
        trace_build_inv(pre, program, init, isd, pos),
        !vm_is_imm(program, pos),
        0 <= pos < program.len() - 1,
        program[pos] == crate::opcodes::ADD,
        post.well_formed(),
        post.depth == pre.depth - 1,
        post.max_depth == pre.max_depth,
        post.secret_inputs_a == pre.secret_inputs_a,
        post.secret_inputs_b == pre.secret_inputs_b,
        StackTrace::frame(&pre, &post, pos),
        post.user_cell(0, pos + 1) == fadd(
            pre.user_cell(0, pos) as int,
            pre.user_cell(1, pos) as int,
        ),
        forall|i: int|
            1 <= i < pre.depth - 1 ==> #[trigger] post.user_cell(i, pos + 1)
                == pre.user_cell(i + 1, pos),
        forall|i: int|
            pre.depth - 1 <= i < pre.width()
                ==> #[trigger] post.user_cell(i, pos + 1) == 0,
    ensures
        trace_build_inv(post, program, init, isd, pos + 1),
{
    assert(vm_step_ok(program, init, pos));
    lemma_vm_state_at_inv(program, init, pos);
    let st_i = vm_state_at(program, init, pos);
    assert(row_matches(pre, st_i, pos));
    assert forall|q: int| 0 <= q < pre.width() implies #[trigger] pre.user_cell(q, pos)
        == st_i.stack[q] by {
    }
    let op = program[pos];
    lemma_vm_op_step_inv(st_i, op, pos);
    let st_next = vm_op_step(st_i, op, pos);
    assert(vm_state_at(program, init, pos + 1) == st_next) by {
        reveal(vm_state_at);
    }
    reveal(vm_op_step);
    assert(post.depth == st_next.depth);
    assert(post.max_depth == st_next.max_depth);
    assert(post.secret_inputs_a@ == st_next.secret_a);
    assert(post.secret_inputs_b@ == st_next.secret_b);
    assert(post.width() == (if st_next.max_depth > isd {
        st_next.max_depth
    } else {
        isd
    }));
    lemma_build_add_rows(pre, post, program, init, isd, pos);
    lemma_build_add_aux(pre, post, program, init, isd, pos);
}

/// The row facts of [`lemma_build_mul`]: every earlier row keeps matching the
/// machine run, row `pos + 1` now matches it too, and the rows past it
/// are still blank.
#[verifier::rlimit(100)]
proof fn lemma_build_mul_rows(
    pre: StackTrace,
    post: StackTrace,
    program: Seq<u128>,
    init: VmState,
    isd: int,
    pos: int,
)
    requires
        trace_build_inv(pre, program, init, isd, pos),
        !vm_is_imm(program, pos),
        0 <= pos < program.len() - 1,
        program[pos] == crate::opcodes::MUL,
        post.well_formed(),
        post.depth == pre.depth - 1,
        post.max_depth == pre.max_depth,
        post.secret_inputs_a == pre.secret_inputs_a,
        post.secret_inputs_b == pre.secret_inputs_b,
        StackTrace::frame(&pre, &post, pos),
        post.user_cell(0, pos + 1) == fmul(
            pre.user_cell(0, pos) as int,
            pre.user_cell(1, pos) as int,
        ),
        forall|i: int|
            1 <= i < pre.depth - 1 ==> #[trigger] post.user_cell(i, pos + 1)
                == pre.user_cell(i + 1, pos),
        forall|i: int|
            pre.depth - 1 <= i < pre.width()
                ==> #[trigger] post.user_cell(i, pos + 1) == 0,
    ensures
        forall|s: int|
            0 <= s <= pos + 1 ==> #[trigger] row_matches(post, vm_state_at(program, init, s), s),
        forall|s: int| pos + 1 < s < program.len() ==> #[trigger] post.row_clear(s),
{
    assert(vm_step_ok(program, init, pos));
    lemma_vm_state_at_inv(program, init, pos);
    let st_i = vm_state_at(program, init, pos);
    assert(row_matches(pre, st_i, pos));
    assert forall|q: int| 0 <= q < pre.width() implies #[trigger] pre.user_cell(q, pos)
        == st_i.stack[q] by {
    }
    let op = program[pos];
    lemma_vm_op_step_inv(st_i, op, pos);
    let st_next = vm_op_step(st_i, op, pos);
    assert(vm_state_at(program, init, pos + 1) == st_next) by {
        reveal(vm_state_at);
    }
    reveal(vm_op_step);
    assert(post.depth == st_next.depth);
    assert(post.max_depth == st_next.max_depth);
    assert(post.secret_inputs_a@ == st_next.secret_a);
    assert(post.secret_inputs_b@ == st_next.secret_b);
    assert(post.width() == (if st_next.max_depth > isd {
        st_next.max_depth
    } else {
        isd
    }));
    // every earlier row keeps matching, and row pos + 1 now matches too
    assert forall|s: int| 0 <= s <= pos + 1 implies #[trigger] row_matches(
        post,
        vm_state_at(program, init, s),
        s,
    ) by {
        if s <= pos {
            assert(row_matches(pre, vm_state_at(program, init, s), s));
            assert forall|cc: int| 0 <= cc < post.width() implies #[trigger] post.user_cell(cc, s)
                == vm_state_at(program, init, s).stack[cc] by {
                assert(pre.user_cell(cc, s) == vm_state_at(program, init, s).stack[cc]);
            }
        } else {
            assert forall|cc: int| 0 <= cc < post.width() implies #[trigger] post.user_cell(cc, s)
                == st_next.stack[cc] by {
            }
        }
    }
    // the rows past pos + 1 are still blank
    assert forall|s: int| pos + 1 < s < program.len() implies #[trigger] post.row_clear(s) by {
        assert(pre.row_clear(s));
        assert forall|cc: int| 0 <= cc < post.width() implies #[trigger] post.user_cell(cc, s)
            == 0 by {
            assert(pre.user_cell(cc, s) == 0);
        }
    }
}

/// The auxiliary-column facts of [`lemma_build_mul`]: column 0 carries exactly the
/// witnesses of the steps taken, column 1 stays zero.
#[verifier::rlimit(100)]
proof fn lemma_build_mul_aux(
    pre: StackTrace,
    post: StackTrace,
    program: Seq<u128>,
    init: VmState,
    isd: int,
    pos: int,
)
    requires
        trace_build_inv(pre, program, init, isd, pos),
        !vm_is_imm(program, pos),
        0 <= pos < program.len() - 1,
        program[pos] == crate::opcodes::MUL,
        post.well_formed(),
        post.depth == pre.depth - 1,
        post.max_depth == pre.max_depth,
        post.secret_inputs_a == pre.secret_inputs_a,
        post.secret_inputs_b == pre.secret_inputs_b,
        StackTrace::frame(&pre, &post, pos),
        post.user_cell(0, pos + 1) == fmul(
            pre.user_cell(0, pos) as int,
            pre.user_cell(1, pos) as int,
        ),
        forall|i: int|
            1 <= i < pre.depth - 1 ==> #[trigger] post.user_cell(i, pos + 1)
                == pre.user_cell(i + 1, pos),
        forall|i: int|
            pre.depth - 1 <= i < pre.width()
                ==> #[trigger] post.user_cell(i, pos + 1) == 0,
    ensures
        forall|s: int|
            0 <= s < pos + 1 ==> #[trigger] post.aux_cell(0, s) == vm_aux0_at(program, init, s),
        forall|s: int| pos + 1 <= s < program.len() ==> #[trigger] post.aux_cell(0, s) == 0,
        forall|s: int| 0 <= s < program.len() ==> #[trigger] post.aux_cell(1, s) == 0,
{
    assert(vm_step_ok(program, init, pos));
    lemma_vm_state_at_inv(program, init, pos);
    let st_i = vm_state_at(program, init, pos);
    assert(row_matches(pre, st_i, pos));
    assert forall|q: int| 0 <= q < pre.width() implies #[trigger] pre.user_cell(q, pos)
        == st_i.stack[q] by {
    }
    let op = program[pos];
    lemma_vm_op_step_inv(st_i, op, pos);
    let st_next = vm_op_step(st_i, op, pos);
    assert(vm_state_at(program, init, pos + 1) == st_next) by {
        reveal(vm_state_at);
    }
    reveal(vm_op_step);
    assert(post.depth == st_next.depth);
    assert(post.max_depth == st_next.max_depth);
    assert(post.secret_inputs_a@ == st_next.secret_a);
    assert(post.secret_inputs_b@ == st_next.secret_b);
    assert(post.width() == (if st_next.max_depth > isd {
        st_next.max_depth
    } else {
        isd
    }));
    // auxiliary column 0 records the witnesses of the steps taken
    assert forall|s: int| 0 <= s < pos + 1 implies #[trigger] post.aux_cell(0, s) == vm_aux0_at(
        program,
        init,
        s,
    ) by {
        if s < pos {
            assert(pre.aux_cell(0, s) == vm_aux0_at(program, init, s));
            assert(post.aux_registers == pre.aux_registers);
        } else {
            assert(pre.aux_cell(0, pos) == 0);
            assert(vm_aux0_at(program, init, pos) == 0);
        }
    }
    assert forall|s: int| pos + 1 <= s < program.len() implies #[trigger] post.aux_cell(0, s)
        == 0 by {
        assert(pre.aux_cell(0, s) == 0);
            assert(post.aux_registers == pre.aux_registers);
    }
    assert forall|s: int| 0 <= s < program.len() implies #[trigger] post.aux_cell(1, s) == 0 by {
        assert(pre.aux_cell(1, s) == 0);
        assert(post.aux_registers == pre.aux_registers);
    }
}

/// Carrying out one mul step at slot `pos` preserves the
/// trace-building invariant at slot `pos + 1`.
#[verifier::rlimit(100)]
proof fn lemma_build_mul(
    pre: StackTrace,
    post: StackTrace,
    program: Seq<u128>,
    init: VmState,
    isd: int,
    pos: int,
)
    requires
        trace_build_inv(pre, program, init, isd, pos),
        !vm_is_imm(program, pos),
        0 <= pos < program.len() - 1,
        program[pos] == crate::opcodes::MUL,
        post.well_formed(),
        post.depth == pre.depth - 1,
        post.max_depth == pre.max_depth,
        post.secret_inputs_a == pre.secret_inputs_a,
        post.secret_inputs_b == pre.secret_inputs_b,
        StackTrace::frame(&pre, &post, pos),
        post.user_cell(0, pos + 1) == fmul(
            pre.user_cell(0, pos) as int,
            pre.user_cell(1, pos) as int,
        ),
        forall|i: int|
            1 <= i < pre.depth - 1 ==> #[trigger] post.user_cell(i, pos + 1)
                == pre.user_cell(i + 1, pos),
        forall|i: int|
            pre.depth - 1 <= i < pre.width()
                ==> #[trigger] post.user_cell(i, pos + 1) == 0,
    ensures
        trace_build_inv(post, program, init, isd, pos + 1),
{
    assert(vm_step_ok(program, init, pos));
    lemma_vm_state_at_inv(program, init, pos);
    let st_i = vm_state_at(program, init, pos);
    assert(row_matches(pre, st_i, pos));
    assert forall|q: int| 0 <= q < pre.width() implies #[trigger] pre.user_cell(q, pos)
        == st_i.stack[q] by {
    }
    let op = program[pos];
    lemma_vm_op_step_inv(st_i, op, pos);
    let st_next = vm_op_step(st_i, op, pos);
    assert(vm_state_at(program, init, pos + 1) == st_next) by {
        reveal(vm_state_at);
    }
    reveal(vm_op_step);
    assert(post.depth == st_next.depth);
    assert(post.max_depth == st_next.max_depth);
    assert(post.secret_inputs_a@ == st_next.secret_a);
    assert(post.secret_inputs_b@ == st_next.secret_b);
    assert(post.width() == (if st_next.max_depth > isd {
        st_next.max_depth
    } else {
        isd
    }));
    lemma_build_mul_rows(pre, post, program, init, isd, pos);
    lemma_build_mul_aux(pre, post, program, init, isd, pos);
}

/// The row facts of [`lemma_build_inv`]: every earlier row keeps matching the
/// machine run, row `pos + 1` now matches it too, and the rows past it
/// are still blank.
#[verifier::rlimit(100)]
proof fn lemma_build_inv_rows(
    pre: StackTrace,
    post: StackTrace,
    program: Seq<u128>,
    init: VmState,
    isd: int,
    pos: int,
)
    requires
        trace_build_inv(pre, program, init, isd, pos),
        !vm_is_imm(program, pos),
        0 <= pos < program.len() - 1,
        program[pos] == crate::opcodes::INV,
        post.well_formed(),
        post.depth == pre.depth,
        post.max_depth == pre.max_depth,
        post.secret_inputs_a == pre.secret_inputs_a,
        post.secret_inputs_b == pre.secret_inputs_b,
        StackTrace::frame(&pre, &post, pos),
        post.user_cell(0, pos + 1) == finv(pre.user_cell(0, pos) as int),
        forall|i: int|
            1 <= i < pre.depth ==> #[trigger] post.user_cell(i, pos + 1) == pre.user_cell(i, pos),
        forall|i: int|
            pre.depth <= i < pre.width()
                ==> #[trigger] post.user_cell(i, pos + 1) == 0,
    ensures
        forall|s: int|
            0 <= s <= pos + 1 ==> #[trigger] row_matches(post, vm_state_at(program, init, s), s),
        forall|s: int| pos + 1 < s < program.len() ==> #[trigger] post.row_clear(s),
{
    assert(vm_step_ok(program, init, pos));
    lemma_vm_state_at_inv(program, init, pos);
    let st_i = vm_state_at(program, init, pos);
    assert(row_matches(pre, st_i, pos));
    assert forall|q: int| 0 <= q < pre.width() implies #[trigger] pre.user_cell(q, pos)
        == st_i.stack[q] by {
    }
    let op = program[pos];
    lemma_vm_op_step_inv(st_i, op, pos);
    let st_next = vm_op_step(st_i, op, pos);
    assert(vm_state_at(program, init, pos + 1) == st_next) by {
        reveal(vm_state_at);
    }
    reveal(vm_op_step);
    assert(post.depth == st_next.depth);
    assert(post.max_depth == st_next.max_depth);
    assert(post.secret_inputs_a@ == st_next.secret_a);
    assert(post.secret_inputs_b@ == st_next.secret_b);
    assert(post.width() == (if st_next.max_depth > isd {
        st_next.max_depth
    } else {
        isd
    }));
    // every earlier row keeps matching, and row pos + 1 now matches too
    assert forall|s: int| 0 <= s <= pos + 1 implies #[trigger] row_matches(
        post,
        vm_state_at(program, init, s),
        s,
    ) by {
        if s <= pos {
            assert(row_matches(pre, vm_state_at(program, init, s), s));
            assert forall|cc: int| 0 <= cc < post.width() implies #[trigger] post.user_cell(cc, s)
                == vm_state_at(program, init, s).stack[cc] by {
                assert(pre.user_cell(cc, s) == vm_state_at(program, init, s).stack[cc]);
            }
        } else {
            assert forall|cc: int| 0 <= cc < post.width() implies #[trigger] post.user_cell(cc, s)
                == st_next.stack[cc] by {
            }
        }
    }
    // the rows past pos + 1 are still blank
    assert forall|s: int| pos + 1 < s < program.len() implies #[trigger] post.row_clear(s) by {
        assert(pre.row_clear(s));
        assert forall|cc: int| 0 <= cc < post.width() implies #[trigger] post.user_cell(cc, s)
            == 0 by {
            assert(pre.user_cell(cc, s) == 0);
        }
    }
}

/// The auxiliary-column facts of [`lemma_build_inv`]: column 0 carries exactly the
/// witnesses of the steps taken, column 1 stays zero.
#[verifier::rlimit(100)]
proof fn lemma_build_inv_aux(
    pre: StackTrace,
    post: StackTrace,
    program: Seq<u128>,
    init: VmState,
    isd: int,
    pos: int,
)
    requires
        trace_build_inv(pre, program, init, isd, pos),
        !vm_is_imm(program, pos),
        0 <= pos < program.len() - 1,
        program[pos] == crate::opcodes::INV,
        post.well_formed(),
        post.depth == pre.depth,
        post.max_depth == pre.max_depth,
        post.secret_inputs_a == pre.secret_inputs_a,
        post.secret_inputs_b == pre.secret_inputs_b,
        StackTrace::frame(&pre, &post, pos),
        post.user_cell(0, pos + 1) == finv(pre.user_cell(0, pos) as int),
        forall|i: int|
            1 <= i < pre.depth ==> #[trigger] post.user_cell(i, pos + 1) == pre.user_cell(i, pos),
        forall|i: int|
            pre.depth <= i < pre.width()
                ==> #[trigger] post.user_cell(i, pos + 1) == 0,
    ensures
        forall|s: int|
            0 <= s < pos + 1 ==> #[trigger] post.aux_cell(0, s) == vm_aux0_at(program, init, s),
        forall|s: int| pos + 1 <= s < program.len() ==> #[trigger] post.aux_cell(0, s) == 0,
        forall|s: int| 0 <= s < program.len() ==> #[trigger] post.aux_cell(1, s) == 0,
{
    assert(vm_step_ok(program, init, pos));
    lemma_vm_state_at_inv(program, init, pos);
    let st_i = vm_state_at(program, init, pos);
    assert(row_matches(pre, st_i, pos));
    assert forall|q: int| 0 <= q < pre.width() implies #[trigger] pre.user_cell(q, pos)
        == st_i.stack[q] by {
    }
    let op = program[pos];
    lemma_vm_op_step_inv(st_i, op, pos);
    let st_next = vm_op_step(st_i, op, pos);
    assert(vm_state_at(program, init, pos + 1) == st_next) by {
        reveal(vm_state_at);
    }
    reveal(vm_op_step);
    assert(post.depth == st_next.depth);
    assert(post.max_depth == st_next.max_depth);
    assert(post.secret_inputs_a@ == st_next.secret_a);
    assert(post.secret_inputs_b@ == st_next.secret_b);
    assert(post.width() == (if st_next.max_depth > isd {
        st_next.max_depth
    } else {
        isd
    }));
    // auxiliary column 0 records the witnesses of the steps taken
    assert forall|s: int| 0 <= s < pos + 1 implies #[trigger] post.aux_cell(0, s) == vm_aux0_at(
        program,
        init,
        s,
    ) by {
        if s < pos {
            assert(pre.aux_cell(0, s) == vm_aux0_at(program, init, s));
            assert(post.aux_registers == pre.aux_registers);
        } else {
            assert(pre.aux_cell(0, pos) == 0);
            assert(vm_aux0_at(program, init, pos) == 0);
        }
    }
    assert forall|s: int| pos + 1 <= s < program.len() implies #[trigger] post.aux_cell(0, s)
        == 0 by {
        assert(pre.aux_cell(0, s) == 0);
            assert(post.aux_registers == pre.aux_registers);
    }
    assert forall|s: int| 0 <= s < program.len() implies #[trigger] post.aux_cell(1, s) == 0 by {
        assert(pre.aux_cell(1, s) == 0);
        assert(post.aux_registers == pre.aux_registers);
    }
}

/// Carrying out one inv step at slot `pos` preserves the
/// trace-building invariant at slot `pos + 1`.
#[verifier::rlimit(100)]
proof fn lemma_build_inv(
    pre: StackTrace,
    post: StackTrace,
    program: Seq<u128>,
    init: VmState,
    isd: int,
    pos: int,
)
    requires
        trace_build_inv(pre, program, init, isd, pos),
        !vm_is_imm(program, pos),
        0 <= pos < program.len() - 1,
        program[pos] == crate::opcodes::INV,
        post.well_formed(),
        post.depth == pre.depth,
        post.max_depth == pre.max_depth,
        post.secret_inputs_a == pre.secret_inputs_a,
        post.secret_inputs_b == pre.secret_inputs_b,
        StackTrace::frame(&pre, &post, pos),
        post.user_cell(0, pos + 1) == finv(pre.user_cell(0, pos) as int),
        forall|i: int|
            1 <= i < pre.depth ==> #[trigger] post.user_cell(i, pos + 1) == pre.user_cell(i, pos),
        forall|i: int|
            pre.depth <= i < pre.width()
                ==> #[trigger] post.user_cell(i, pos + 1) == 0,
    ensures
        trace_build_inv(post, program, init, isd, pos + 1),
{
    assert(vm_step_ok(program, init, pos));
    lemma_vm_state_at_inv(program, init, pos);
    let st_i = vm_state_at(program, init, pos);
    assert(row_matches(pre, st_i, pos));
    assert forall|q: int| 0 <= q < pre.width() implies #[trigger] pre.user_cell(q, pos)
        == st_i.stack[q] by {
    }
    let op = program[pos];
    lemma_vm_op_step_inv(st_i, op, pos);
    let st_next = vm_op_step(st_i, op, pos);
    assert(vm_state_at(program, init, pos + 1) == st_next) by {
        reveal(vm_state_at);
    }
    reveal(vm_op_step);
    assert(post.depth == st_next.depth);
    assert(post.max_depth == st_next.max_depth);
    assert(post.secret_inputs_a@ == st_next.secret_a);
    assert(post.secret_inputs_b@ == st_next.secret_b);
    assert(post.width() == (if st_next.max_depth > isd {
        st_next.max_depth
    } else {
        isd
    }));
    lemma_build_inv_rows(pre, post, program, init, isd, pos);
    lemma_build_inv_aux(pre, post, program, init, isd, pos);
}

/// The row facts of [`lemma_build_neg`]: every earlier row keeps matching the
/// machine run, row `pos + 1` now matches it too, and the rows past it
/// are still blank.
#[verifier::rlimit(100)]
proof fn lemma_build_neg_rows(
    pre: StackTrace,
    post: StackTrace,
    program: Seq<u128>,
    init: VmState,
    isd: int,
    pos: int,
)
    requires
        trace_build_inv(pre, program, init, isd, pos),
        !vm_is_imm(program, pos),
        0 <= pos < program.len() - 1,
        program[pos] == crate::opcodes::NEG,
        post.well_formed(),
        post.depth == pre.depth,
        post.max_depth == pre.max_depth,
        post.secret_inputs_a == pre.secret_inputs_a,
        post.secret_inputs_b == pre.secret_inputs_b,
        StackTrace::frame(&pre, &post, pos),
        post.user_cell(0, pos + 1) == field::fneg(
            pre.user_cell(0, pos) as int,
        ),
        forall|i: int|
            1 <= i < pre.depth ==> #[trigger] post.user_cell(i, pos + 1) == pre.user_cell(i, pos),
        forall|i: int|
            pre.depth <= i < pre.width()
                ==> #[trigger] post.user_cell(i, pos + 1) == 0,
    ensures
        forall|s: int|
            0 <= s <= pos + 1 ==> #[trigger] row_matches(post, vm_state_at(program, init, s), s),
        forall|s: int| pos + 1 < s < program.len() ==> #[trigger] post.row_clear(s),
{
    assert(vm_step_ok(program, init, pos));
    lemma_vm_state_at_inv(program, init, pos);
    let st_i = vm_state_at(program, init, pos);
    assert(row_matches(pre, st_i, pos));
    assert forall|q: int| 0 <= q < pre.width() implies #[trigger] pre.user_cell(q, pos)
        == st_i.stack[q] by {
    }
    let op = program[pos];
    lemma_vm_op_step_inv(st_i, op, pos);
    let st_next = vm_op_step(st_i, op, pos);
    assert(vm_state_at(program, init, pos + 1) == st_next) by {
        reveal(vm_state_at);
    }
    reveal(vm_op_step);
    assert(post.depth == st_next.depth);
    assert(post.max_depth == st_next.max_depth);
    assert(post.secret_inputs_a@ == st_next.secret_a);
    assert(post.secret_inputs_b@ == st_next.secret_b);
    assert(post.width() == (if st_next.max_depth > isd {
        st_next.max_depth
    } else {
        isd
    }));
    // every earlier row keeps matching, and row pos + 1 now matches too
    assert forall|s: int| 0 <= s <= pos + 1 implies #[trigger] row_matches(
        post,
        vm_state_at(program, init, s),
        s,
    ) by {
        if s <= pos {
            assert(row_matches(pre, vm_state_at(program, init, s), s));
            assert forall|cc: int| 0 <= cc < post.width() implies #[trigger] post.user_cell(cc, s)
                == vm_state_at(program, init, s).stack[cc] by {
                assert(pre.user_cell(cc, s) == vm_state_at(program, init, s).stack[cc]);
            }
        } else {
            assert forall|cc: int| 0 <= cc < post.width() implies #[trigger] post.user_cell(cc, s)
                == st_next.stack[cc] by {
            }
        }
    }
    // the rows past pos + 1 are still blank
    assert forall|s: int| pos + 1 < s < program.len() implies #[trigger] post.row_clear(s) by {
        assert(pre.row_clear(s));
        assert forall|cc: int| 0 <= cc < post.width() implies #[trigger] post.user_cell(cc, s)
            == 0 by {
            assert(pre.user_cell(cc, s) == 0);
        }
    }
}

/// The auxiliary-column facts of [`lemma_build_neg`]: column 0 carries exactly the
/// witnesses of the steps taken, column 1 stays zero.
#[verifier::rlimit(100)]
proof fn lemma_build_neg_aux(
    pre: StackTrace,
    post: StackTrace,
    program: Seq<u128>,
    init: VmState,
    isd: int,
    pos: int,
)
    requires
        trace_build_inv(pre, program, init, isd, pos),
        !vm_is_imm(program, pos),
        0 <= pos < program.len() - 1,
        program[pos] == crate::opcodes::NEG,
        post.well_formed(),
        post.depth == pre.depth,
        post.max_depth == pre.max_depth,
        post.secret_inputs_a == pre.secret_inputs_a,
        post.secret_inputs_b == pre.secret_inputs_b,
        StackTrace::frame(&pre, &post, pos),
        post.user_cell(0, pos + 1) == field::fneg(
            pre.user_cell(0, pos) as int,
        ),
        forall|i: int|
            1 <= i < pre.depth ==> #[trigger] post.user_cell(i, pos + 1) == pre.user_cell(i, pos),
        forall|i: int|
            pre.depth <= i < pre.width()
                ==> #[trigger] post.user_cell(i, pos + 1) == 0,
    ensures
        forall|s: int|
            0 <= s < pos + 1 ==> #[trigger] post.aux_cell(0, s) == vm_aux0_at(program, init, s),
        forall|s: int| pos + 1 <= s < program.len() ==> #[trigger] post.aux_cell(0, s) == 0,
        forall|s: int| 0 <= s < program.len() ==> #[trigger] post.aux_cell(1, s) == 0,
{
    assert(vm_step_ok(program, init, pos));
    lemma_vm_state_at_inv(program, init, pos);
    let st_i = vm_state_at(program, init, pos);
    assert(row_matches(pre, st_i, pos));
    assert forall|q: int| 0 <= q < pre.width() implies #[trigger] pre.user_cell(q, pos)
        == st_i.stack[q] by {
    }
    let op = program[pos];
    lemma_vm_op_step_inv(st_i, op, pos);
    let st_next = vm_op_step(st_i, op, pos);
    assert(vm_state_at(program, init, pos + 1) == st_next) by {
        reveal(vm_state_at);
    }
    reveal(vm_op_step);
    assert(post.depth == st_next.depth);
    assert(post.max_depth == st_next.max_depth);
    assert(post.secret_inputs_a@ == st_next.secret_a);
    assert(post.secret_inputs_b@ == st_next.secret_b);
    assert(post.width() == (if st_next.max_depth > isd {
        st_next.max_depth
    } else {
        isd
    }));
    // auxiliary column 0 records the witnesses of the steps taken
    assert forall|s: int| 0 <= s < pos + 1 implies #[trigger] post.aux_cell(0, s) == vm_aux0_at(
        program,
        init,
        s,
    ) by {
        if s < pos {
            assert(pre.aux_cell(0, s) == vm_aux0_at(program, init, s));
            assert(post.aux_registers == pre.aux_registers);
        } else {
            assert(pre.aux_cell(0, pos) == 0);
            assert(vm_aux0_at(program, init, pos) == 0);
        }
    }
    assert forall|s: int| pos + 1 <= s < program.len() implies #[trigger] post.aux_cell(0, s)
        == 0 by {
        assert(pre.aux_cell(0, s) == 0);
            assert(post.aux_registers == pre.aux_registers);
    }
    assert forall|s: int| 0 <= s < program.len() implies #[trigger] post.aux_cell(1, s) == 0 by {
        assert(pre.aux_cell(1, s) == 0);
        assert(post.aux_registers == pre.aux_registers);
    }
}

/// Carrying out one neg step at slot `pos` preserves the
/// trace-building invariant at slot `pos + 1`.
#[verifier::rlimit(100)]
proof fn lemma_build_neg(
    pre: StackTrace,
    post: StackTrace,
    program: Seq<u128>,
    init: VmState,
    isd: int,
    pos: int,
)
    requires
        trace_build_inv(pre, program, init, isd, pos),
        !vm_is_imm(program, pos),
        0 <= pos < program.len() - 1,
        program[pos] == crate::opcodes::NEG,
        post.well_formed(),
        post.depth == pre.depth,
        post.max_depth == pre.max_depth,
        post.secret_inputs_a == pre.secret_inputs_a,
        post.secret_inputs_b == pre.secret_inputs_b,
        StackTrace::frame(&pre, &post, pos),
        post.user_cell(0, pos + 1) == field::fneg(
            pre.user_cell(0, pos) as int,
        ),
        forall|i: int|
            1 <= i < pre.depth ==> #[trigger] post.user_cell(i, pos + 1) == pre.user_cell(i, pos),
        forall|i: int|
            pre.depth <= i < pre.width()
                ==> #[trigger] post.user_cell(i, pos + 1) == 0,
    ensures
        trace_build_inv(post, program, init, isd, pos + 1),
{
    assert(vm_step_ok(program, init, pos));
    lemma_vm_state_at_inv(program, init, pos);
    let st_i = vm_state_at(program, init, pos);
    assert(row_matches(pre, st_i, pos));
    assert forall|q: int| 0 <= q < pre.width() implies #[trigger] pre.user_cell(q, pos)
        == st_i.stack[q] by {
    }
    let op = program[pos];
    lemma_vm_op_step_inv(st_i, op, pos);
    let st_next = vm_op_step(st_i, op, pos);
    assert(vm_state_at(program, init, pos + 1) == st_next) by {
        reveal(vm_state_at);
    }
    reveal(vm_op_step);
    assert(post.depth == st_next.depth);
    assert(post.max_depth == st_next.max_depth);
    assert(post.secret_inputs_a@ == st_next.secret_a);
    assert(post.secret_inputs_b@ == st_next.secret_b);
    assert(post.width() == (if st_next.max_depth > isd {
        st_next.max_depth
    } else {
        isd
    }));
    lemma_build_neg_rows(pre, post, program, init, isd, pos);
    lemma_build_neg_aux(pre, post, program, init, isd, pos);
}

/// The row facts of [`lemma_build_not`]: every earlier row keeps matching the
/// machine run, row `pos + 1` now matches it too, and the rows past it
/// are still blank.
#[verifier::rlimit(100)]
proof fn lemma_build_not_rows(
    pre: StackTrace,
    post: StackTrace,
    program: Seq<u128>,
    init: VmState,
    isd: int,
    pos: int,
)
    requires
        trace_build_inv(pre, program, init, isd, pos),
        !vm_is_imm(program, pos),
        0 <= pos < program.len() - 1,
        program[pos] == crate::opcodes::NOT,
        post.well_formed(),
        post.depth == pre.depth,
        post.max_depth == pre.max_depth,
        post.secret_inputs_a == pre.secret_inputs_a,
        post.secret_inputs_b == pre.secret_inputs_b,
        StackTrace::frame(&pre, &post, pos),
        post.user_cell(0, pos + 1) == fsub(
            1,
            pre.user_cell(0, pos) as int,
        ),
        forall|i: int|
            1 <= i < pre.depth ==> #[trigger] post.user_cell(i, pos + 1) == pre.user_cell(i, pos),
        forall|i: int|
            pre.depth <= i < pre.width()
                ==> #[trigger] post.user_cell(i, pos + 1) == 0,
    ensures
        forall|s: int|
            0 <= s <= pos + 1 ==> #[trigger] row_matches(post, vm_state_at(program, init, s), s),
        forall|s: int| pos + 1 < s < program.len() ==> #[trigger] post.row_clear(s),
{
    assert(vm_step_ok(program, init, pos));
    lemma_vm_state_at_inv(program, init, pos);
    let st_i = vm_state_at(program, init, pos);
    assert(row_matches(pre, st_i, pos));
    assert forall|q: int| 0 <= q < pre.width() implies #[trigger] pre.user_cell(q, pos)
        == st_i.stack[q] by {
    }
    let op = program[pos];
    lemma_vm_op_step_inv(st_i, op, pos);
    let st_next = vm_op_step(st_i, op, pos);
    assert(vm_state_at(program, init, pos + 1) == st_next) by {
        reveal(vm_state_at);
    }
    reveal(vm_op_step);
    assert(post.depth == st_next.depth);
    assert(post.max_depth == st_next.max_depth);
    assert(post.secret_inputs_a@ == st_next.secret_a);
    assert(post.secret_inputs_b@ == st_next.secret_b);
    assert(post.width() == (if st_next.max_depth > isd {
        st_next.max_depth
    } else {
        isd
    }));
    // every earlier row keeps matching, and row pos + 1 now matches too
    assert forall|s: int| 0 <= s <= pos + 1 implies #[trigger] row_matches(
        post,
        vm_state_at(program, init, s),
        s,
    ) by {
        if s <= pos {
            assert(row_matches(pre, vm_state_at(program, init, s), s));
            assert forall|cc: int| 0 <= cc < post.width() implies #[trigger] post.user_cell(cc, s)
                == vm_state_at(program, init, s).stack[cc] by {
                assert(pre.user_cell(cc, s) == vm_state_at(program, init, s).stack[cc]);
            }
        } else {
            assert forall|cc: int| 0 <= cc < post.width() implies #[trigger] post.user_cell(cc, s)
                == st_next.stack[cc] by {
            }
        }
    }
    // the rows past pos + 1 are still blank
    assert forall|s: int| pos + 1 < s < program.len() implies #[trigger] post.row_clear(s) by {
        assert(pre.row_clear(s));
        assert forall|cc: int| 0 <= cc < post.width() implies #[trigger] post.user_cell(cc, s)
            == 0 by {
            assert(pre.user_cell(cc, s) == 0);
        }
    }
}

/// The auxiliary-column facts of [`lemma_build_not`]: column 0 carries exactly the
/// witnesses of the steps taken, column 1 stays zero.
#[verifier::rlimit(100)]
proof fn lemma_build_not_aux(
    pre: StackTrace,
    post: StackTrace,
    program: Seq<u128>,
    init: VmState,
    isd: int,
    pos: int,
)
    requires
        trace_build_inv(pre, program, init, isd, pos),
        !vm_is_imm(program, pos),
        0 <= pos < program.len() - 1,
        program[pos] == crate::opcodes::NOT,
        post.well_formed(),
        post.depth == pre.depth,
        post.max_depth == pre.max_depth,
        post.secret_inputs_a == pre.secret_inputs_a,
        post.secret_inputs_b == pre.secret_inputs_b,
        StackTrace::frame(&pre, &post, pos),
        post.user_cell(0, pos + 1) == fsub(
            1,
            pre.user_cell(0, pos) as int,
        ),
        forall|i: int|
            1 <= i < pre.depth ==> #[trigger] post.user_cell(i, pos + 1) == pre.user_cell(i, pos),
        forall|i: int|
            pre.depth <= i < pre.width()
                ==> #[trigger] post.user_cell(i, pos + 1) == 0,
    ensures
        forall|s: int|
            0 <= s < pos + 1 ==> #[trigger] post.aux_cell(0, s) == vm_aux0_at(program, init, s),
        forall|s: int| pos + 1 <= s < program.len() ==> #[trigger] post.aux_cell(0, s) == 0,
        forall|s: int| 0 <= s < program.len() ==> #[trigger] post.aux_cell(1, s) == 0,
{
    assert(vm_step_ok(program, init, pos));
    lemma_vm_state_at_inv(program, init, pos);
    let st_i = vm_state_at(program, init, pos);
    assert(row_matches(pre, st_i, pos));
    assert forall|q: int| 0 <= q < pre.width() implies #[trigger] pre.user_cell(q, pos)
        == st_i.stack[q] by {
    }
    let op = program[pos];
    lemma_vm_op_step_inv(st_i, op, pos);
    let st_next = vm_op_step(st_i, op, pos);
    assert(vm_state_at(program, init, pos + 1) == st_next) by {
        reveal(vm_state_at);
    }
    reveal(vm_op_step);
    assert(post.depth == st_next.depth);
    assert(post.max_depth == st_next.max_depth);
    assert(post.secret_inputs_a@ == st_next.secret_a);
    assert(post.secret_inputs_b@ == st_next.secret_b);
    assert(post.width() == (if st_next.max_depth > isd {
        st_next.max_depth
    } else {
        isd
    }));
    // auxiliary column 0 records the witnesses of the steps taken
    assert forall|s: int| 0 <= s < pos + 1 implies #[trigger] post.aux_cell(0, s) == vm_aux0_at(
        program,
        init,
        s,
    ) by {
        if s < pos {
            assert(pre.aux_cell(0, s) == vm_aux0_at(program, init, s));
            assert(post.aux_registers == pre.aux_registers);
        } else {
            assert(pre.aux_cell(0, pos) == 0);
            assert(vm_aux0_at(program, init, pos) == 0);
        }
    }
    assert forall|s: int| pos + 1 <= s < program.len() implies #[trigger] post.aux_cell(0, s)
        == 0 by {
        assert(pre.aux_cell(0, s) == 0);
            assert(post.aux_registers == pre.aux_registers);
    }
    assert forall|s: int| 0 <= s < program.len() implies #[trigger] post.aux_cell(1, s) == 0 by {
        assert(pre.aux_cell(1, s) == 0);
        assert(post.aux_registers == pre.aux_registers);
    }
}

/// Carrying out one not step at slot `pos` preserves the
/// trace-building invariant at slot `pos + 1`.
#[verifier::rlimit(100)]
proof fn lemma_build_not(
    pre: StackTrace,
    post: StackTrace,
    program: Seq<u128>,
    init: VmState,
    isd: int,
    pos: int,
)
    requires
        trace_build_inv(pre, program, init, isd, pos),
        !vm_is_imm(program, pos),
        0 <= pos < program.len() - 1,
        program[pos] == crate::opcodes::NOT,
        post.well_formed(),
        post.depth == pre.depth,
        post.max_depth == pre.max_depth,
        post.secret_inputs_a == pre.secret_inputs_a,
        post.secret_inputs_b == pre.secret_inputs_b,
        StackTrace::frame(&pre, &post, pos),
        post.user_cell(0, pos + 1) == fsub(
            1,
            pre.user_cell(0, pos) as int,
        ),
        forall|i: int|
            1 <= i < pre.depth ==> #[trigger] post.user_cell(i, pos + 1) == pre.user_cell(i, pos),
        forall|i: int|
            pre.depth <= i < pre.width()
                ==> #[trigger] post.user_cell(i, pos + 1) == 0,
    ensures
        trace_build_inv(post, program, init, isd, pos + 1),
{
    assert(vm_step_ok(program, init, pos));
    lemma_vm_state_at_inv(program, init, pos);
    let st_i = vm_state_at(program, init, pos);
    assert(row_matches(pre, st_i, pos));
    assert forall|q: int| 0 <= q < pre.width() implies #[trigger] pre.user_cell(q, pos)
        == st_i.stack[q] by {
    }
    let op = program[pos];
    lemma_vm_op_step_inv(st_i, op, pos);
    let st_next = vm_op_step(st_i, op, pos);
    assert(vm_state_at(program, init, pos + 1) == st_next) by {
        reveal(vm_state_at);
    }
    reveal(vm_op_step);
    assert(post.depth == st_next.depth);
    assert(post.max_depth == st_next.max_depth);
    assert(post.secret_inputs_a@ == st_next.secret_a);
    assert(post.secret_inputs_b@ == st_next.secret_b);
    assert(post.width() == (if st_next.max_depth > isd {
        st_next.max_depth
    } else {
        isd
    }));
    lemma_build_not_rows(pre, post, program, init, isd, pos);
    lemma_build_not_aux(pre, post, program, init, isd, pos);
}

/// The row facts of [`lemma_build_eq`]: every earlier row keeps matching the
/// machine run, row `pos + 1` now matches it too, and the rows past it
/// are still blank.
#[verifier::rlimit(100)]
proof fn lemma_build_eq_rows(
    pre: StackTrace,
    post: StackTrace,
    program: Seq<u128>,
    init: VmState,
    isd: int,
    pos: int,
)
    requires
        trace_build_inv(pre, program, init, isd, pos),
        !vm_is_imm(program, pos),
        0 <= pos < program.len() - 1,
        program[pos] == crate::opcodes::EQ,
        post.well_formed(),
        post.depth == pre.depth - 1,
        post.max_depth == pre.max_depth,
        post.secret_inputs_a == pre.secret_inputs_a,
        post.secret_inputs_b == pre.secret_inputs_b,
        post.width() == pre.width(),
        post.trace_len() == pre.trace_len(),
        post.aux_registers@.len() == pre.aux_registers@.len(),
        post.aux_registers@[1] == pre.aux_registers@[1],
        post.aux_registers@[0]@ == pre.aux_registers@[0]@.update(
            pos,
            (if pre.user_cell(0, pos) == pre.user_cell(1, pos) {
                1u128
            } else {
                finv(fsub(
                    pre.user_cell(0, pos) as int,
                    pre.user_cell(1, pos) as int,
                )) as u128
            }),
        ),
        forall|i: int, s: int|
            0 <= i < pre.width() && 0 <= s < pre.trace_len() && s != pos + 1
                ==> #[trigger] post.user_cell(i, s) == pre.user_cell(i, s),
        post.user_cell(0, pos + 1) == (if pre.user_cell(0, pos) == pre.user_cell(1, pos) {
            1u128
        } else {
            0u128
        }),
        forall|i: int|
            1 <= i < pre.depth - 1 ==> #[trigger] post.user_cell(i, pos + 1)
                == pre.user_cell(i + 1, pos),
        forall|i: int|
            pre.depth - 1 <= i < pre.width()
                ==> #[trigger] post.user_cell(i, pos + 1) == 0,
    ensures
        forall|s: int|
            0 <= s <= pos + 1 ==> #[trigger] row_matches(post, vm_state_at(program, init, s), s),
        forall|s: int| pos + 1 < s < program.len() ==> #[trigger] post.row_clear(s),
{
    assert(vm_step_ok(program, init, pos));
    lemma_vm_state_at_inv(program, init, pos);
    let st_i = vm_state_at(program, init, pos);
    assert(row_matches(pre, st_i, pos));
    assert forall|q: int| 0 <= q < pre.width() implies #[trigger] pre.user_cell(q, pos)
        == st_i.stack[q] by {
    }
    let op = program[pos];
    lemma_vm_op_step_inv(st_i, op, pos);
    let st_next = vm_op_step(st_i, op, pos);
    assert(vm_state_at(program, init, pos + 1) == st_next) by {
        reveal(vm_state_at);
    }
    reveal(vm_op_step);
    assert(post.depth == st_next.depth);
    assert(post.max_depth == st_next.max_depth);
    assert(post.secret_inputs_a@ == st_next.secret_a);
    assert(post.secret_inputs_b@ == st_next.secret_b);
    assert(post.width() == (if st_next.max_depth > isd {
        st_next.max_depth
    } else {
        isd
    }));
    // every earlier row keeps matching, and row pos + 1 now matches too
    assert forall|s: int| 0 <= s <= pos + 1 implies #[trigger] row_matches(
        post,
        vm_state_at(program, init, s),
        s,
    ) by {
        if s <= pos {
            assert(row_matches(pre, vm_state_at(program, init, s), s));
            assert forall|cc: int| 0 <= cc < post.width() implies #[trigger] post.user_cell(cc, s)
                == vm_state_at(program, init, s).stack[cc] by {
                assert(pre.user_cell(cc, s) == vm_state_at(program, init, s).stack[cc]);
            }
        } else {
            assert forall|cc: int| 0 <= cc < post.width() implies #[trigger] post.user_cell(cc, s)
                == st_next.stack[cc] by {
            }
        }
    }
    // the rows past pos + 1 are still blank
    assert forall|s: int| pos + 1 < s < program.len() implies #[trigger] post.row_clear(s) by {
        assert(pre.row_clear(s));
        assert forall|cc: int| 0 <= cc < post.width() implies #[trigger] post.user_cell(cc, s)
            == 0 by {
            assert(pre.user_cell(cc, s) == 0);
        }
    }
}

/// The auxiliary-column facts of [`lemma_build_eq`]: column 0 carries exactly the
/// witnesses of the steps taken, column 1 stays zero.
#[verifier::rlimit(100)]
proof fn lemma_build_eq_aux(
    pre: StackTrace,
    post: StackTrace,
    program: Seq<u128>,
    init: VmState,
    isd: int,
    pos: int,
)
    requires
        trace_build_inv(pre, program, init, isd, pos),
        !vm_is_imm(program, pos),
        0 <= pos < program.len() - 1,
        program[pos] == crate::opcodes::EQ,
        post.well_formed(),
        post.depth == pre.depth - 1,
        post.max_depth == pre.max_depth,
        post.secret_inputs_a == pre.secret_inputs_a,
        post.secret_inputs_b == pre.secret_inputs_b,
        post.width() == pre.width(),
        post.trace_len() == pre.trace_len(),
        post.aux_registers@.len() == pre.aux_registers@.len(),
        post.aux_registers@[1] == pre.aux_registers@[1],
        post.aux_registers@[0]@ == pre.aux_registers@[0]@.update(
            pos,
            (if pre.user_cell(0, pos) == pre.user_cell(1, pos) {
                1u128
            } else {
                finv(fsub(
                    pre.user_cell(0, pos) as int,
                    pre.user_cell(1, pos) as int,
                )) as u128
            }),
        ),
        forall|i: int, s: int|
            0 <= i < pre.width() && 0 <= s < pre.trace_len() && s != pos + 1
                ==> #[trigger] post.user_cell(i, s) == pre.user_cell(i, s),
        post.user_cell(0, pos + 1) == (if pre.user_cell(0, pos) == pre.user_cell(1, pos) {
            1u128
        } else {
            0u128
        }),
        forall|i: int|
            1 <= i < pre.depth - 1 ==> #[trigger] post.user_cell(i, pos + 1)
                == pre.user_cell(i + 1, pos),
        forall|i: int|
            pre.depth - 1 <= i < pre.width()
                ==> #[trigger] post.user_cell(i, pos + 1) == 0,
    ensures
        forall|s: int|
            0 <= s < pos + 1 ==> #[trigger] post.aux_cell(0, s) == vm_aux0_at(program, init, s),
        forall|s: int| pos + 1 <= s < program.len() ==> #[trigger] post.aux_cell(0, s) == 0,
        forall|s: int| 0 <= s < program.len() ==> #[trigger] post.aux_cell(1, s) == 0,
{
    assert(vm_step_ok(program, init, pos));
    lemma_vm_state_at_inv(program, init, pos);
    let st_i = vm_state_at(program, init, pos);
    assert(row_matches(pre, st_i, pos));
    assert forall|q: int| 0 <= q < pre.width() implies #[trigger] pre.user_cell(q, pos)
        == st_i.stack[q] by {
    }
    let op = program[pos];
    lemma_vm_op_step_inv(st_i, op, pos);
    let st_next = vm_op_step(st_i, op, pos);
    assert(vm_state_at(program, init, pos + 1) == st_next) by {
        reveal(vm_state_at);
    }
    reveal(vm_op_step);
    assert(post.depth == st_next.depth);
    assert(post.max_depth == st_next.max_depth);
    assert(post.secret_inputs_a@ == st_next.secret_a);
    assert(post.secret_inputs_b@ == st_next.secret_b);
    assert(post.width() == (if st_next.max_depth > isd {
        st_next.max_depth
    } else {
        isd
    }));
    // auxiliary column 0 records the witnesses of the steps taken
    assert forall|s: int| 0 <= s < pos + 1 implies #[trigger] post.aux_cell(0, s) == vm_aux0_at(
        program,
        init,
        s,
    ) by {
        if s < pos {
            assert(pre.aux_cell(0, s) == vm_aux0_at(program, init, s));
            assert(post.aux_registers@[0]@[s] == pre.aux_registers@[0]@[s]);
        } else {
            assert(pre.aux_cell(0, pos) == 0);
            assert(pre.user_cell(0, pos) == st_i.stack[0]);
            assert(pre.user_cell(1, pos) == st_i.stack[1]);
            assert(post.aux_cell(0, pos) == vm_eq_aux(st_i.stack));
        }
    }
    assert forall|s: int| pos + 1 <= s < program.len() implies #[trigger] post.aux_cell(0, s)
        == 0 by {
        assert(pre.aux_cell(0, s) == 0);
            assert(post.aux_registers@[0]@[s] == pre.aux_registers@[0]@[s]);
    }
    assert forall|s: int| 0 <= s < program.len() implies #[trigger] post.aux_cell(1, s) == 0 by {
        assert(pre.aux_cell(1, s) == 0);
        assert(post.aux_registers@[1]@[s] == pre.aux_registers@[1]@[s]);
    }
}

/// Carrying out one eq step at slot `pos` preserves the
/// trace-building invariant at slot `pos + 1`.
#[verifier::rlimit(100)]
proof fn lemma_build_eq(
    pre: StackTrace,
    post: StackTrace,
    program: Seq<u128>,
    init: VmState,
    isd: int,
    pos: int,
)
    requires
        trace_build_inv(pre, program, init, isd, pos),
        !vm_is_imm(program, pos),
        0 <= pos < program.len() - 1,
        program[pos] == crate::opcodes::EQ,
        post.well_formed(),
        post.depth == pre.depth - 1,
        post.max_depth == pre.max_depth,
        post.secret_inputs_a == pre.secret_inputs_a,
        post.secret_inputs_b == pre.secret_inputs_b,
        post.width() == pre.width(),
        post.trace_len() == pre.trace_len(),
        post.aux_registers@.len() == pre.aux_registers@.len(),
        post.aux_registers@[1] == pre.aux_registers@[1],
        post.aux_registers@[0]@ == pre.aux_registers@[0]@.update(
            pos,
            (if pre.user_cell(0, pos) == pre.user_cell(1, pos) {
                1u128
            } else {
                finv(fsub(
                    pre.user_cell(0, pos) as int,
                    pre.user_cell(1, pos) as int,
                )) as u128
            }),
        ),
        forall|i: int, s: int|
            0 <= i < pre.width() && 0 <= s < pre.trace_len() && s != pos + 1
                ==> #[trigger] post.user_cell(i, s) == pre.user_cell(i, s),
        post.user_cell(0, pos + 1) == (if pre.user_cell(0, pos) == pre.user_cell(1, pos) {
            1u128
        } else {
            0u128
        }),
        forall|i: int|
            1 <= i < pre.depth - 1 ==> #[trigger] post.user_cell(i, pos + 1)
                == pre.user_cell(i + 1, pos),
        forall|i: int|
            pre.depth - 1 <= i < pre.width()
                ==> #[trigger] post.user_cell(i, pos + 1) == 0,
    ensures
        trace_build_inv(post, program, init, isd, pos + 1),
{
    assert(vm_step_ok(program, init, pos));
    lemma_vm_state_at_inv(program, init, pos);
    let st_i = vm_state_at(program, init, pos);
    assert(row_matches(pre, st_i, pos));
    assert forall|q: int| 0 <= q < pre.width() implies #[trigger] pre.user_cell(q, pos)
        == st_i.stack[q] by {
    }
    let op = program[pos];
    lemma_vm_op_step_inv(st_i, op, pos);
    let st_next = vm_op_step(st_i, op, pos);
    assert(vm_state_at(program, init, pos + 1) == st_next) by {
        reveal(vm_state_at);
    }
    reveal(vm_op_step);
    assert(post.depth == st_next.depth);
    assert(post.max_depth == st_next.max_depth);
    assert(post.secret_inputs_a@ == st_next.secret_a);
    assert(post.secret_inputs_b@ == st_next.secret_b);
    assert(post.width() == (if st_next.max_depth > isd {
        st_next.max_depth
    } else {
        isd
    }));
    lemma_build_eq_rows(pre, post, program, init, isd, pos);
    lemma_build_eq_aux(pre, post, program, init, isd, pos);
}

/// The new-row fact of [`lemma_build_cmp`]: row `pos + 1` of the
/// builder equals the expected machine stack row.
#[verifier::rlimit(100)]
proof fn lemma_build_cmp_newrow(
    pre: StackTrace,
    post: StackTrace,
    st_i: VmState,
    row: Seq<u128>,
    pos: int,
)
    requires
        pre.well_formed(),
        post.well_formed(),
        st_i.stack.len() == MAX_USER_STACK_DEPTH,
        post.width() <= MAX_USER_STACK_DEPTH,
        st_i.depth >= 8,
        pre.depth == st_i.depth,
        pre.secret_inputs_a@ == st_i.secret_a,
        pre.secret_inputs_b@ == st_i.secret_b,
        post.width() == pre.width(),
        forall|q: int|
            0 <= q < pre.width() ==> #[trigger] pre.user_cell(q, pos) == st_i.stack[q],
        row == vm_stack_row(
            vm_cmp_cells(
                st_i.stack,
                st_i.secret_a.last() as int,
                st_i.secret_b.last() as int,
                pos,
            ),
            st_i.stack,
            6,
            st_i.depth - 6,
        ),
        ({
            let a_bit = pre.secret_inputs_a@.last() as int;
            let b_bit = pre.secret_inputs_b@.last() as int;
            let bit_gt = fmul(a_bit, fsub(1, b_bit));
            let bit_lt = fmul(b_bit, fsub(1, a_bit));
            let gt = pre.user_cell(2, pos) as int;
            let lt = pre.user_cell(3, pos) as int;
            let not_set = fmul(fsub(1, gt), fsub(1, lt));
            let power_of_two = field::fexp(2, (127 - (pos % 128)) as nat);
            &&& post.user_cell(0, pos + 1) == a_bit
            &&& post.user_cell(1, pos + 1) == b_bit
            &&& post.user_cell(2, pos + 1) == fadd(gt, fmul(bit_gt, not_set))
            &&& post.user_cell(3, pos + 1) == fadd(lt, fmul(bit_lt, not_set))
            &&& post.user_cell(4, pos + 1) == fadd(
                pre.user_cell(4, pos) as int,
                fmul(a_bit, power_of_two),
            )
            &&& post.user_cell(5, pos + 1) == fadd(
                pre.user_cell(5, pos) as int,
                fmul(b_bit, power_of_two),
            )
        }),
        pre.secret_inputs_a@.len() > 0,
        pre.secret_inputs_b@.len() > 0,
        forall|i: int|
            6 <= i < pre.depth ==> #[trigger] post.user_cell(i, pos + 1) == pre.user_cell(i, pos),
        forall|i: int|
            pre.depth <= i < pre.width() ==> #[trigger] post.user_cell(i, pos + 1) == 0,
    ensures
        forall|cc: int|
            0 <= cc < post.width() ==> #[trigger] post.user_cell(cc, pos + 1) == row[cc],
{
    assert forall|cc: int| 0 <= cc < post.width() implies #[trigger] post.user_cell(
        cc,
        pos + 1,
    ) == row[cc] by {
        let cells = vm_cmp_cells(
            st_i.stack,
            st_i.secret_a.last() as int,
            st_i.secret_b.last() as int,
            pos,
        );
        if cc < 6 {
            assert(pre.user_cell(2, pos) == st_i.stack[2]);
            assert(pre.user_cell(3, pos) == st_i.stack[3]);
            assert(pre.user_cell(4, pos) == st_i.stack[4]);
            assert(pre.user_cell(5, pos) == st_i.stack[5]);
            assert(pre.secret_inputs_a@ == st_i.secret_a);
            assert(pre.secret_inputs_b@ == st_i.secret_b);
            if cc == 0 {
                assert(row[0] == cells[0]);
            } else if cc == 1 {
                assert(row[1] == cells[1]);
            } else if cc == 2 {
                assert(row[2] == cells[2]);
            } else if cc == 3 {
                assert(row[3] == cells[3]);
            } else if cc == 4 {
                assert(row[4] == cells[4]);
            } else {
                assert(row[5] == cells[5]);
            }
        } else if cc < st_i.depth {
            assert(pre.user_cell(cc, pos) == st_i.stack[cc]);
        }
    }
}

/// The row facts of [`lemma_build_cmp`]: every earlier row keeps matching the
/// machine run, row `pos + 1` now matches it too, and the rows past it
/// are still blank.
#[verifier::rlimit(100)]
proof fn lemma_build_cmp_rows(
    pre: StackTrace,
    post: StackTrace,
    program: Seq<u128>,
    init: VmState,
    isd: int,
    pos: int,
)
    requires
        trace_build_inv(pre, program, init, isd, pos),
        !vm_is_imm(program, pos),
        0 <= pos < program.len() - 1,
        program[pos] == crate::opcodes::CMP,
        post.well_formed(),
        post.depth == pre.depth,
        post.max_depth == pre.max_depth,
        post.secret_inputs_a@ == pre.secret_inputs_a@.drop_last(),
        post.secret_inputs_b@ == pre.secret_inputs_b@.drop_last(),
        post.width() == pre.width(),
        post.trace_len() == pre.trace_len(),
        post.aux_registers == pre.aux_registers,
        forall|i: int, s: int|
            0 <= i < pre.width() && 0 <= s < pre.trace_len() && s != pos + 1
                ==> #[trigger] post.user_cell(i, s) == pre.user_cell(i, s),
        ({
            let a_bit = pre.secret_inputs_a@.last() as int;
            let b_bit = pre.secret_inputs_b@.last() as int;
            let bit_gt = fmul(a_bit, fsub(1, b_bit));
            let bit_lt = fmul(b_bit, fsub(1, a_bit));
            let gt = pre.user_cell(2, pos) as int;
            let lt = pre.user_cell(3, pos) as int;
            let not_set = fmul(fsub(1, gt), fsub(1, lt));
            let power_of_two = field::fexp(2, (127 - (pos % 128)) as nat);
            &&& post.user_cell(0, pos + 1) == a_bit
            &&& post.user_cell(1, pos + 1) == b_bit
            &&& post.user_cell(2, pos + 1) == fadd(gt, fmul(bit_gt, not_set))
            &&& post.user_cell(3, pos + 1) == fadd(lt, fmul(bit_lt, not_set))
            &&& post.user_cell(4, pos + 1) == fadd(
                pre.user_cell(4, pos) as int,
                fmul(a_bit, power_of_two),
            )
            &&& post.user_cell(5, pos + 1) == fadd(
                pre.user_cell(5, pos) as int,
                fmul(b_bit, power_of_two),
            )
        }),
        forall|i: int|
            6 <= i < pre.depth ==> #[trigger] post.user_cell(i, pos + 1) == pre.user_cell(i, pos),
        forall|i: int|
            pre.depth <= i < pre.width()
                ==> #[trigger] post.user_cell(i, pos + 1) == 0,
    ensures
        forall|s: int|
            0 <= s <= pos + 1 ==> #[trigger] row_matches(post, vm_state_at(program, init, s), s),
        forall|s: int| pos + 1 < s < program.len() ==> #[trigger] post.row_clear(s),
{
    assert(vm_step_ok(program, init, pos));
    lemma_vm_state_at_inv(program, init, pos);
    let st_i = vm_state_at(program, init, pos);
    assert(row_matches(pre, st_i, pos));
    assert forall|q: int| 0 <= q < pre.width() implies #[trigger] pre.user_cell(q, pos)
        == st_i.stack[q] by {
    }
    let op = program[pos];
    lemma_vm_op_step_inv(st_i, op, pos);
    let st_next = vm_op_step(st_i, op, pos);
    assert(vm_state_at(program, init, pos + 1) == st_next) by {
        reveal(vm_state_at);
    }
    reveal(vm_op_step);
    assert(post.depth == st_next.depth);
    assert(post.max_depth == st_next.max_depth);
    assert(post.secret_inputs_a@ == st_next.secret_a);
    assert(post.secret_inputs_b@ == st_next.secret_b);
    assert(post.width() == (if st_next.max_depth > isd {
        st_next.max_depth
    } else {
        isd
    }));
    assert(st_next.stack == vm_stack_row(
        vm_cmp_cells(
                st_i.stack,
                st_i.secret_a.last() as int,
                st_i.secret_b.last() as int,
                pos,
            ),
        st_i.stack,
        6,
        st_i.depth - 6,
    ));
    lemma_build_cmp_newrow(pre, post, st_i, st_next.stack, pos);
    assert(row_matches(post, vm_state_at(program, init, pos + 1), pos + 1));
    // every earlier row keeps matching, and row pos + 1 now matches too
    assert forall|s: int| 0 <= s <= pos + 1 implies #[trigger] row_matches(
        post,
        vm_state_at(program, init, s),
        s,
    ) by {
        if s <= pos {
            assert(row_matches(pre, vm_state_at(program, init, s), s));
            assert forall|cc: int| 0 <= cc < post.width() implies #[trigger] post.user_cell(cc, s)
                == vm_state_at(program, init, s).stack[cc] by {
                assert(pre.user_cell(cc, s) == vm_state_at(program, init, s).stack[cc]);
            }
        } else {
            assert(row_matches(post, vm_state_at(program, init, s), s));
        }
    }
    // the rows past pos + 1 are still blank
    assert forall|s: int| pos + 1 < s < program.len() implies #[trigger] post.row_clear(s) by {
        assert(pre.row_clear(s));
        assert forall|cc: int| 0 <= cc < post.width() implies #[trigger] post.user_cell(cc, s)
            == 0 by {
            assert(pre.user_cell(cc, s) == 0);
        }
    }
}

/// The auxiliary-column facts of [`lemma_build_cmp`]: column 0 carries exactly the
/// witnesses of the steps taken, column 1 stays zero.
#[verifier::rlimit(100)]
proof fn lemma_build_cmp_aux(
    pre: StackTrace,
    post: StackTrace,
    program: Seq<u128>,
    init: VmState,
    isd: int,
    pos: int,
)
    requires
        trace_build_inv(pre, program, init, isd, pos),
        !vm_is_imm(program, pos),
        0 <= pos < program.len() - 1,
        program[pos] == crate::opcodes::CMP,
        post.well_formed(),
        post.depth == pre.depth,
        post.max_depth == pre.max_depth,
        post.secret_inputs_a@ == pre.secret_inputs_a@.drop_last(),
        post.secret_inputs_b@ == pre.secret_inputs_b@.drop_last(),
        post.width() == pre.width(),
        post.trace_len() == pre.trace_len(),
        post.aux_registers == pre.aux_registers,
        forall|i: int, s: int|
            0 <= i < pre.width() && 0 <= s < pre.trace_len() && s != pos + 1
                ==> #[trigger] post.user_cell(i, s) == pre.user_cell(i, s),
        ({
            let a_bit = pre.secret_inputs_a@.last() as int;
            let b_bit = pre.secret_inputs_b@.last() as int;
            let bit_gt = fmul(a_bit, fsub(1, b_bit));
            let bit_lt = fmul(b_bit, fsub(1, a_bit));
            let gt = pre.user_cell(2, pos) as int;
            let lt = pre.user_cell(3, pos) as int;
            let not_set = fmul(fsub(1, gt), fsub(1, lt));
            let power_of_two = field::fexp(2, (127 - (pos % 128)) as nat);
            &&& post.user_cell(0, pos + 1) == a_bit
            &&& post.user_cell(1, pos + 1) == b_bit
            &&& post.user_cell(2, pos + 1) == fadd(gt, fmul(bit_gt, not_set))
            &&& post.user_cell(3, pos + 1) == fadd(lt, fmul(bit_lt, not_set))
            &&& post.user_cell(4, pos + 1) == fadd(
                pre.user_cell(4, pos) as int,
                fmul(a_bit, power_of_two),
            )
            &&& post.user_cell(5, pos + 1) == fadd(
                pre.user_cell(5, pos) as int,
                fmul(b_bit, power_of_two),
            )
        }),
        forall|i: int|
            6 <= i < pre.depth ==> #[trigger] post.user_cell(i, pos + 1) == pre.user_cell(i, pos),
        forall|i: int|
            pre.depth <= i < pre.width()
                ==> #[trigger] post.user_cell(i, pos + 1) == 0,
    ensures
        forall|s: int|
            0 <= s < pos + 1 ==> #[trigger] post.aux_cell(0, s) == vm_aux0_at(program, init, s),
        forall|s: int| pos + 1 <= s < program.len() ==> #[trigger] post.aux_cell(0, s) == 0,
        forall|s: int| 0 <= s < program.len() ==> #[trigger] post.aux_cell(1, s) == 0,
{
    assert(vm_step_ok(program, init, pos));
    lemma_vm_state_at_inv(program, init, pos);
    let st_i = vm_state_at(program, init, pos);
    assert(row_matches(pre, st_i, pos));
    assert forall|q: int| 0 <= q < pre.width() implies #[trigger] pre.user_cell(q, pos)
        == st_i.stack[q] by {
    }
    let op = program[pos];
    lemma_vm_op_step_inv(st_i, op, pos);
    let st_next = vm_op_step(st_i, op, pos);
    assert(vm_state_at(program, init, pos + 1) == st_next) by {
        reveal(vm_state_at);
    }
    reveal(vm_op_step);
    assert(post.depth == st_next.depth);
    assert(post.max_depth == st_next.max_depth);
    assert(post.secret_inputs_a@ == st_next.secret_a);
    assert(post.secret_inputs_b@ == st_next.secret_b);
    assert(post.width() == (if st_next.max_depth > isd {
        st_next.max_depth
    } else {
        isd
    }));
    // auxiliary column 0 records the witnesses of the steps taken
    assert forall|s: int| 0 <= s < pos + 1 implies #[trigger] post.aux_cell(0, s) == vm_aux0_at(
        program,
        init,
        s,
    ) by {
        if s < pos {
            assert(pre.aux_cell(0, s) == vm_aux0_at(program, init, s));
            assert(post.aux_registers == pre.aux_registers);
        } else {
            assert(pre.aux_cell(0, pos) == 0);
            assert(vm_aux0_at(program, init, pos) == 0);
        }
    }
    assert forall|s: int| pos + 1 <= s < program.len() implies #[trigger] post.aux_cell(0, s)
        == 0 by {
        assert(pre.aux_cell(0, s) == 0);
            assert(post.aux_registers == pre.aux_registers);
    }
    assert forall|s: int| 0 <= s < program.len() implies #[trigger] post.aux_cell(1, s) == 0 by {
        assert(pre.aux_cell(1, s) == 0);
        assert(post.aux_registers == pre.aux_registers);
    }
}

/// Carrying out one cmp step at slot `pos` preserves the
/// trace-building invariant at slot `pos + 1`.
#[verifier::rlimit(100)]
proof fn lemma_build_cmp(
    pre: StackTrace,
    post: StackTrace,
    program: Seq<u128>,
    init: VmState,
    isd: int,
    pos: int,
)
    requires
        trace_build_inv(pre, program, init, isd, pos),
        !vm_is_imm(program, pos),
        0 <= pos < program.len() - 1,
        program[pos] == crate::opcodes::CMP,
        post.well_formed(),
        post.depth == pre.depth,
        post.max_depth == pre.max_depth,
        post.secret_inputs_a@ == pre.secret_inputs_a@.drop_last(),
        post.secret_inputs_b@ == pre.secret_inputs_b@.drop_last(),
        post.width() == pre.width(),
        post.trace_len() == pre.trace_len(),
        post.aux_registers == pre.aux_registers,
        forall|i: int, s: int|
            0 <= i < pre.width() && 0 <= s < pre.trace_len() && s != pos + 1
                ==> #[trigger] post.user_cell(i, s) == pre.user_cell(i, s),
        ({
            let a_bit = pre.secret_inputs_a@.last() as int;
            let b_bit = pre.secret_inputs_b@.last() as int;
            let bit_gt = fmul(a_bit, fsub(1, b_bit));
            let bit_lt = fmul(b_bit, fsub(1, a_bit));
            let gt = pre.user_cell(2, pos) as int;
            let lt = pre.user_cell(3, pos) as int;
            let not_set = fmul(fsub(1, gt), fsub(1, lt));
            let power_of_two = field::fexp(2, (127 - (pos % 128)) as nat);
            &&& post.user_cell(0, pos + 1) == a_bit
            &&& post.user_cell(1, pos + 1) == b_bit
            &&& post.user_cell(2, pos + 1) == fadd(gt, fmul(bit_gt, not_set))
            &&& post.user_cell(3, pos + 1) == fadd(lt, fmul(bit_lt, not_set))
            &&& post.user_cell(4, pos + 1) == fadd(
                pre.user_cell(4, pos) as int,
                fmul(a_bit, power_of_two),
            )
            &&& post.user_cell(5, pos + 1) == fadd(
                pre.user_cell(5, pos) as int,
                fmul(b_bit, power_of_two),
            )
        }),
        forall|i: int|
            6 <= i < pre.depth ==> #[trigger] post.user_cell(i, pos + 1) == pre.user_cell(i, pos),
        forall|i: int|
            pre.depth <= i < pre.width()
                ==> #[trigger] post.user_cell(i, pos + 1) == 0,
    ensures
        trace_build_inv(post, program, init, isd, pos + 1),
{
    assert(vm_step_ok(program, init, pos));
    lemma_vm_state_at_inv(program, init, pos);
    let st_i = vm_state_at(program, init, pos);
    assert(row_matches(pre, st_i, pos));
    assert forall|q: int| 0 <= q < pre.width() implies #[trigger] pre.user_cell(q, pos)
        == st_i.stack[q] by {
    }
    let op = program[pos];
    lemma_vm_op_step_inv(st_i, op, pos);
    let st_next = vm_op_step(st_i, op, pos);
    assert(vm_state_at(program, init, pos + 1) == st_next) by {
        reveal(vm_state_at);
    }
    reveal(vm_op_step);
    assert(post.depth == st_next.depth);
    assert(post.max_depth == st_next.max_depth);
    assert(post.secret_inputs_a@ == st_next.secret_a);
    assert(post.secret_inputs_b@ == st_next.secret_b);
    assert(post.width() == (if st_next.max_depth > isd {
        st_next.max_depth
    } else {
        isd
    }));
    lemma_build_cmp_rows(pre, post, program, init, isd, pos);
    lemma_build_cmp_aux(pre, post, program, init, isd, pos);
}

/// The new-row fact of [`lemma_build_hashr`]: row `pos + 1` of the
/// builder equals the expected machine stack row.
#[verifier::rlimit(100)]
proof fn lemma_build_hashr_newrow(
    pre: StackTrace,
    post: StackTrace,
    st_i: VmState,
    row: Seq<u128>,
    pos: int,
)
    requires
        pre.well_formed(),
        post.well_formed(),
        st_i.stack.len() == MAX_USER_STACK_DEPTH,
        post.width() <= MAX_USER_STACK_DEPTH,
        st_i.depth >= 6,
        pre.depth == st_i.depth,
        pre.secret_inputs_a@ == st_i.secret_a,
        pre.secret_inputs_b@ == st_i.secret_b,
        post.width() == pre.width(),
        forall|q: int|
            0 <= q < pre.width() ==> #[trigger] pre.user_cell(q, pos) == st_i.stack[q],
        row == vm_stack_row(
            hash::round(st_i.stack, pos),
            st_i.stack,
            6,
            st_i.depth - 6,
        ),
        ({
            let sponge_in = Seq::new(6, |i: int| pre.user_cell(i, pos));
            forall|i: int|
                0 <= i < 6 ==> #[trigger] post.user_cell(i, pos + 1) == hash::round(
                    sponge_in,
                    pos,
                )[i]
        }),
        forall|i: int|
            6 <= i < pre.depth ==> #[trigger] post.user_cell(i, pos + 1) == pre.user_cell(i, pos),
        forall|i: int|
            pre.depth <= i < pre.width() ==> #[trigger] post.user_cell(i, pos + 1) == 0,
    ensures
        forall|cc: int|
            0 <= cc < post.width() ==> #[trigger] post.user_cell(cc, pos + 1) == row[cc],
{
    assert forall|cc: int| 0 <= cc < post.width() implies #[trigger] post.user_cell(
        cc,
        pos + 1,
    ) == row[cc] by {
        let sin = Seq::new(6, |q: int| pre.user_cell(q, pos));
        assert(sin[0] == st_i.stack[0] && sin[1] == st_i.stack[1] && sin[2] == st_i.stack[2]
            && sin[3] == st_i.stack[3] && sin[4] == st_i.stack[4] && sin[5] == st_i.stack[5]);
        assert(hash::sboxed(sin, pos, 0) == hash::sboxed(st_i.stack, pos, 0));
        assert(hash::sboxed(sin, pos, 1) == hash::sboxed(st_i.stack, pos, 1));
        assert(hash::sboxed(sin, pos, 2) == hash::sboxed(st_i.stack, pos, 2));
        assert(hash::sboxed(sin, pos, 3) == hash::sboxed(st_i.stack, pos, 3));
        assert(hash::sboxed(sin, pos, 4) == hash::sboxed(st_i.stack, pos, 4));
        assert(hash::sboxed(sin, pos, 5) == hash::sboxed(st_i.stack, pos, 5));
        if cc < 6 {
            if cc == 0 {
                assert(hash::round(sin, pos)[0] == hash::round(st_i.stack, pos)[0]);
            } else if cc == 1 {
                assert(hash::round(sin, pos)[1] == hash::round(st_i.stack, pos)[1]);
            } else if cc == 2 {
                assert(hash::round(sin, pos)[2] == hash::round(st_i.stack, pos)[2]);
            } else if cc == 3 {
                assert(hash::round(sin, pos)[3] == hash::round(st_i.stack, pos)[3]);
            } else if cc == 4 {
                assert(hash::round(sin, pos)[4] == hash::round(st_i.stack, pos)[4]);
            } else {
                assert(hash::round(sin, pos)[5] == hash::round(st_i.stack, pos)[5]);
            }
        } else if cc < st_i.depth {
            assert(pre.user_cell(cc, pos) == st_i.stack[cc]);
        }
    }
}

/// The row facts of [`lemma_build_hashr`]: every earlier row keeps matching the
/// machine run, row `pos + 1` now matches it too, and the rows past it
/// are still blank.
#[verifier::rlimit(100)]
proof fn lemma_build_hashr_rows(
    pre: StackTrace,
    post: StackTrace,
    program: Seq<u128>,
    init: VmState,
    isd: int,
    pos: int,
)
    requires
        trace_build_inv(pre, program, init, isd, pos),
        !vm_is_imm(program, pos),
        0 <= pos < program.len() - 1,
        program[pos] == crate::opcodes::HASHR,
        post.well_formed(),
        post.depth == pre.depth,
        post.max_depth == pre.max_depth,
        post.secret_inputs_a == pre.secret_inputs_a,
        post.secret_inputs_b == pre.secret_inputs_b,
        StackTrace::frame(&pre, &post, pos),
        ({
            let sponge_in = Seq::new(6, |i: int| pre.user_cell(i, pos));
            forall|i: int|
                0 <= i < 6 ==> #[trigger] post.user_cell(i, pos + 1) == hash::round(
                    sponge_in,
                    pos,
                )[i]
        }),
        forall|i: int|
            6 <= i < pre.depth ==> #[trigger] post.user_cell(i, pos + 1) == pre.user_cell(i, pos),
        forall|i: int|
            pre.depth <= i < pre.width()
                ==> #[trigger] post.user_cell(i, pos + 1) == 0,
    ensures
        forall|s: int|
            0 <= s <= pos + 1 ==> #[trigger] row_matches(post, vm_state_at(program, init, s), s),
        forall|s: int| pos + 1 < s < program.len() ==> #[trigger] post.row_clear(s),
{
    assert(vm_step_ok(program, init, pos));
    lemma_vm_state_at_inv(program, init, pos);
    let st_i = vm_state_at(program, init, pos);
    assert(row_matches(pre, st_i, pos));
    assert forall|q: int| 0 <= q < pre.width() implies #[trigger] pre.user_cell(q, pos)
        == st_i.stack[q] by {
    }
    let op = program[pos];
    lemma_vm_op_step_inv(st_i, op, pos);
    let st_next = vm_op_step(st_i, op, pos);
    assert(vm_state_at(program, init, pos + 1) == st_next) by {
        reveal(vm_state_at);
    }
    reveal(vm_op_step);
    assert(post.depth == st_next.depth);
    assert(post.max_depth == st_next.max_depth);
    assert(post.secret_inputs_a@ == st_next.secret_a);
    assert(post.secret_inputs_b@ == st_next.secret_b);
    assert(post.width() == (if st_next.max_depth > isd {
        st_next.max_depth
    } else {
        isd
    }));
    assert(st_next.stack == vm_stack_row(
        hash::round(st_i.stack, pos),
        st_i.stack,
        6,
        st_i.depth - 6,
    ));
    lemma_build_hashr_newrow(pre, post, st_i, st_next.stack, pos);
    assert(row_matches(post, vm_state_at(program, init, pos + 1), pos + 1));
    // every earlier row keeps matching, and row pos + 1 now matches too
    assert forall|s: int| 0 <= s <= pos + 1 implies #[trigger] row_matches(
        post,
        vm_state_at(program, init, s),
        s,
    ) by {
        if s <= pos {
            assert(row_matches(pre, vm_state_at(program, init, s), s));
            assert forall|cc: int| 0 <= cc < post.width() implies #[trigger] post.user_cell(cc, s)
                == vm_state_at(program, init, s).stack[cc] by {
                assert(pre.user_cell(cc, s) == vm_state_at(program, init, s).stack[cc]);
            }
        } else {
            assert(row_matches(post, vm_state_at(program, init, s), s));
        }
    }
    // the rows past pos + 1 are still blank
    assert forall|s: int| pos + 1 < s < program.len() implies #[trigger] post.row_clear(s) by {
        assert(pre.row_clear(s));
        assert forall|cc: int| 0 <= cc < post.width() implies #[trigger] post.user_cell(cc, s)
            == 0 by {
            assert(pre.user_cell(cc, s) == 0);
        }
    }
}

/// The auxiliary-column facts of [`lemma_build_hashr`]: column 0 carries exactly the
/// witnesses of the steps taken, column 1 stays zero.
#[verifier::rlimit(100)]
proof fn lemma_build_hashr_aux(
    pre: StackTrace,
    post: StackTrace,
    program: Seq<u128>,
    init: VmState,
    isd: int,
    pos: int,
)
    requires
        trace_build_inv(pre, program, init, isd, pos),
        !vm_is_imm(program, pos),
        0 <= pos < program.len() - 1,
        program[pos] == crate::opcodes::HASHR,
        post.well_formed(),
        post.depth == pre.depth,
        post.max_depth == pre.max_depth,
        post.secret_inputs_a == pre.secret_inputs_a,
        post.secret_inputs_b == pre.secret_inputs_b,
        StackTrace::frame(&pre, &post, pos),
        ({
            let sponge_in = Seq::new(6, |i: int| pre.user_cell(i, pos));
            forall|i: int|
                0 <= i < 6 ==> #[trigger] post.user_cell(i, pos + 1) == hash::round(
                    sponge_in,
                    pos,
                )[i]
        }),
        forall|i: int|
            6 <= i < pre.depth ==> #[trigger] post.user_cell(i, pos + 1) == pre.user_cell(i, pos),
        forall|i: int|
            pre.depth <= i < pre.width()
                ==> #[trigger] post.user_cell(i, pos + 1) == 0,
    ensures
        forall|s: int|
            0 <= s < pos + 1 ==> #[trigger] post.aux_cell(0, s) == vm_aux0_at(program, init, s),
        forall|s: int| pos + 1 <= s < program.len() ==> #[trigger] post.aux_cell(0, s) == 0,
        forall|s: int| 0 <= s < program.len() ==> #[trigger] post.aux_cell(1, s) == 0,
{
    assert(vm_step_ok(program, init, pos));
    lemma_vm_state_at_inv(program, init, pos);
    let st_i = vm_state_at(program, init, pos);
    assert(row_matches(pre, st_i, pos));
    assert forall|q: int| 0 <= q < pre.width() implies #[trigger] pre.user_cell(q, pos)
        == st_i.stack[q] by {
    }
    let op = program[pos];
    lemma_vm_op_step_inv(st_i, op, pos);
    let st_next = vm_op_step(st_i, op, pos);
    assert(vm_state_at(program, init, pos + 1) == st_next) by {
        reveal(vm_state_at);
    }
    reveal(vm_op_step);
    assert(post.depth == st_next.depth);
    assert(post.max_depth == st_next.max_depth);
    assert(post.secret_inputs_a@ == st_next.secret_a);
    assert(post.secret_inputs_b@ == st_next.secret_b);
    assert(post.width() == (if st_next.max_depth > isd {
        st_next.max_depth
    } else {
        isd
    }));
    // auxiliary column 0 records the witnesses of the steps taken
    assert forall|s: int| 0 <= s < pos + 1 implies #[trigger] post.aux_cell(0, s) == vm_aux0_at(
        program,
        init,
        s,
    ) by {
        if s < pos {
            assert(pre.aux_cell(0, s) == vm_aux0_at(program, init, s));
            assert(post.aux_registers == pre.aux_registers);
        } else {
            assert(pre.aux_cell(0, pos) == 0);
            assert(vm_aux0_at(program, init, pos) == 0);
        }
    }
    assert forall|s: int| pos + 1 <= s < program.len() implies #[trigger] post.aux_cell(0, s)
        == 0 by {
        assert(pre.aux_cell(0, s) == 0);
            assert(post.aux_registers == pre.aux_registers);
    }
    assert forall|s: int| 0 <= s < program.len() implies #[trigger] post.aux_cell(1, s) == 0 by {
        assert(pre.aux_cell(1, s) == 0);
        assert(post.aux_registers == pre.aux_registers);
    }
}

/// Carrying out one hashr step at slot `pos` preserves the
/// trace-building invariant at slot `pos + 1`.
#[verifier::rlimit(100)]
proof fn lemma_build_hashr(
    pre: StackTrace,
    post: StackTrace,
    program: Seq<u128>,
    init: VmState,
    isd: int,
    pos: int,
)
    requires
        trace_build_inv(pre, program, init, isd, pos),
        !vm_is_imm(program, pos),
        0 <= pos < program.len() - 1,
        program[pos] == crate::opcodes::HASHR,
        post.well_formed(),
        post.depth == pre.depth,
        post.max_depth == pre.max_depth,
        post.secret_inputs_a == pre.secret_inputs_a,
        post.secret_inputs_b == pre.secret_inputs_b,
        StackTrace::frame(&pre, &post, pos),
        ({
            let sponge_in = Seq::new(6, |i: int| pre.user_cell(i, pos));
            forall|i: int|
                0 <= i < 6 ==> #[trigger] post.user_cell(i, pos + 1) == hash::round(
                    sponge_in,
                    pos,
                )[i]
        }),
        forall|i: int|
            6 <= i < pre.depth ==> #[trigger] post.user_cell(i, pos + 1) == pre.user_cell(i, pos),
        forall|i: int|
            pre.depth <= i < pre.width()
                ==> #[trigger] post.user_cell(i, pos + 1) == 0,
    ensures
        trace_build_inv(post, program, init, isd, pos + 1),
{
    assert(vm_step_ok(program, init, pos));
    lemma_vm_state_at_inv(program, init, pos);
    let st_i = vm_state_at(program, init, pos);
    assert(row_matches(pre, st_i, pos));
    assert forall|q: int| 0 <= q < pre.width() implies #[trigger] pre.user_cell(q, pos)
        == st_i.stack[q] by {
    }
    let op = program[pos];
    lemma_vm_op_step_inv(st_i, op, pos);
    let st_next = vm_op_step(st_i, op, pos);
    assert(vm_state_at(program, init, pos + 1) == st_next) by {
        reveal(vm_state_at);
    }
    reveal(vm_op_step);
    assert(post.depth == st_next.depth);
    assert(post.max_depth == st_next.max_depth);
    assert(post.secret_inputs_a@ == st_next.secret_a);
    assert(post.secret_inputs_b@ == st_next.secret_b);
    assert(post.width() == (if st_next.max_depth > isd {
        st_next.max_depth
    } else {
        isd
    }));
    lemma_build_hashr_rows(pre, post, program, init, isd, pos);
    lemma_build_hashr_aux(pre, post, program, init, isd, pos);
}

/// The row facts of [`lemma_build_push`]: every earlier row keeps matching the
/// machine run, row `pos + 1` now matches it too, and the rows past it
/// are still blank.
#[verifier::rlimit(100)]
proof fn lemma_build_push_rows(
    pre: StackTrace,
    post: StackTrace,
    program: Seq<u128>,
    init: VmState,
    isd: int,
    pos: int,
    value: u128,
)
    requires
        trace_build_inv(pre, program, init, isd, pos),
        !vm_is_imm(program, pos),
        0 <= pos < program.len() - 1,
        program[pos] == crate::opcodes::PUSH,
        value == program[pos + 1],
        post.well_formed(),
        post.depth == pre.depth + 1,
        post.max_depth == (if pre.depth + 1 > pre.max_depth {
            pre.depth + 1
        } else {
            pre.max_depth as int
        }),
        post.width() == (if post.max_depth > pre.width() {
            post.max_depth as int
        } else {
            pre.width()
        }),
        post.secret_inputs_a == pre.secret_inputs_a,
        post.secret_inputs_b == pre.secret_inputs_b,
        StackTrace::grow_frame(&pre, &post, pos),
        post.user_cell(0, pos + 1) == value,
        forall|i: int|
            1 <= i < pre.depth + 1 ==> #[trigger] post.user_cell(i, pos + 1)
                == pre.user_cell(i - 1, pos),
        forall|i: int|
            pre.depth + 1 <= i < post.width() ==> #[trigger] post.user_cell(i, pos + 1) == 0,
    ensures
        forall|s: int|
            0 <= s <= pos + 1 ==> #[trigger] row_matches(post, vm_state_at(program, init, s), s),
        forall|s: int| pos + 1 < s < program.len() ==> #[trigger] post.row_clear(s),
{
    assert(vm_step_ok(program, init, pos));
    lemma_vm_state_at_inv(program, init, pos);
    lemma_vm_columns_blank(program, init, pos);
    let st_i = vm_state_at(program, init, pos);
    assert(row_matches(pre, st_i, pos));
    assert forall|q: int| 0 <= q < pre.width() implies #[trigger] pre.user_cell(q, pos)
        == st_i.stack[q] by {
    }
    lemma_vm_push_step_inv(st_i, value);
    let st_next = vm_push_step(st_i, value);
    assert(vm_state_at(program, init, pos + 1) == st_next) by {
        reveal(vm_state_at);
    }
    // every earlier row keeps matching, and row pos + 1 now matches too
    assert forall|s: int| 0 <= s <= pos + 1 implies #[trigger] row_matches(
        post,
        vm_state_at(program, init, s),
        s,
    ) by {
        if s <= pos {
            assert(row_matches(pre, vm_state_at(program, init, s), s));
            assert forall|cc: int| 0 <= cc < post.width() implies #[trigger] post.user_cell(cc, s)
                == vm_state_at(program, init, s).stack[cc] by {
                if cc < pre.width() {
                    assert(pre.user_cell(cc, s) == vm_state_at(program, init, s).stack[cc]);
                } else {
                    assert(vm_state_at(program, init, s).stack[cc] == 0);
                }
            }
        } else {
            assert forall|cc: int| 0 <= cc < post.width() implies #[trigger] post.user_cell(cc, s)
                == st_next.stack[cc] by {
            }
        }
    }
    // the rows past pos + 1 are still blank
    assert forall|s: int| pos + 1 < s < program.len() implies #[trigger] post.row_clear(s) by {
        assert(pre.row_clear(s));
        assert forall|cc: int| 0 <= cc < post.width() implies #[trigger] post.user_cell(cc, s)
            == 0 by {
            if cc < pre.width() {
                assert(pre.user_cell(cc, s) == 0);
            }
        }
    }
}

/// The auxiliary-column facts of [`lemma_build_push`]: column 0 carries exactly the
/// witnesses of the steps taken, column 1 stays zero.
#[verifier::rlimit(100)]
proof fn lemma_build_push_aux(
    pre: StackTrace,
    post: StackTrace,
    program: Seq<u128>,
    init: VmState,
    isd: int,
    pos: int,
    value: u128,
)
    requires
        trace_build_inv(pre, program, init, isd, pos),
        !vm_is_imm(program, pos),
        0 <= pos < program.len() - 1,
        program[pos] == crate::opcodes::PUSH,
        value == program[pos + 1],
        post.well_formed(),
        post.depth == pre.depth + 1,
        post.max_depth == (if pre.depth + 1 > pre.max_depth {
            pre.depth + 1
        } else {
            pre.max_depth as int
        }),
        post.width() == (if post.max_depth > pre.width() {
            post.max_depth as int
        } else {
            pre.width()
        }),
        post.secret_inputs_a == pre.secret_inputs_a,
        post.secret_inputs_b == pre.secret_inputs_b,
        StackTrace::grow_frame(&pre, &post, pos),
        post.user_cell(0, pos + 1) == value,
        forall|i: int|
            1 <= i < pre.depth + 1 ==> #[trigger] post.user_cell(i, pos + 1)
                == pre.user_cell(i - 1, pos),
        forall|i: int|
            pre.depth + 1 <= i < post.width() ==> #[trigger] post.user_cell(i, pos + 1) == 0,
    ensures
        forall|s: int|
            0 <= s < pos + 1 ==> #[trigger] post.aux_cell(0, s) == vm_aux0_at(program, init, s),
        forall|s: int| pos + 1 <= s < program.len() ==> #[trigger] post.aux_cell(0, s) == 0,
        forall|s: int| 0 <= s < program.len() ==> #[trigger] post.aux_cell(1, s) == 0,
{
    assert(vm_step_ok(program, init, pos));
    lemma_vm_state_at_inv(program, init, pos);
    lemma_vm_columns_blank(program, init, pos);
    let st_i = vm_state_at(program, init, pos);
    assert(row_matches(pre, st_i, pos));
    assert forall|q: int| 0 <= q < pre.width() implies #[trigger] pre.user_cell(q, pos)
        == st_i.stack[q] by {
    }
    lemma_vm_push_step_inv(st_i, value);
    let st_next = vm_push_step(st_i, value);
    assert(vm_state_at(program, init, pos + 1) == st_next) by {
        reveal(vm_state_at);
    }
    // auxiliary column 0 records the witnesses of the steps taken
    assert forall|s: int| 0 <= s < pos + 1 implies #[trigger] post.aux_cell(0, s) == vm_aux0_at(
        program,
        init,
        s,
    ) by {
        if s < pos {
            assert(pre.aux_cell(0, s) == vm_aux0_at(program, init, s));
            assert(post.aux_registers == pre.aux_registers);
        } else {
            assert(pre.aux_cell(0, pos) == 0);
            assert(vm_aux0_at(program, init, pos) == 0);
        }
    }
    assert forall|s: int| pos + 1 <= s < program.len() implies #[trigger] post.aux_cell(0, s)
        == 0 by {
        assert(pre.aux_cell(0, s) == 0);
        assert(post.aux_registers == pre.aux_registers);
    }
    assert forall|s: int| 0 <= s < program.len() implies #[trigger] post.aux_cell(1, s) == 0 by {
        assert(pre.aux_cell(1, s) == 0);
        assert(post.aux_registers == pre.aux_registers);
    }
}

/// Carrying out one push step at slot `pos` preserves the
/// trace-building invariant at slot `pos + 1`.
#[verifier::rlimit(100)]
proof fn lemma_build_push(
    pre: StackTrace,
    post: StackTrace,
    program: Seq<u128>,
    init: VmState,
    isd: int,
    pos: int,
    value: u128,
)
    requires
        trace_build_inv(pre, program, init, isd, pos),
        !vm_is_imm(program, pos),
        0 <= pos < program.len() - 1,
        program[pos] == crate::opcodes::PUSH,
        value == program[pos + 1],
        post.well_formed(),
        post.depth == pre.depth + 1,
        post.max_depth == (if pre.depth + 1 > pre.max_depth {
            pre.depth + 1
        } else {
            pre.max_depth as int
        }),
        post.width() == (if post.max_depth > pre.width() {
            post.max_depth as int
        } else {
            pre.width()
        }),
        post.secret_inputs_a == pre.secret_inputs_a,
        post.secret_inputs_b == pre.secret_inputs_b,
        StackTrace::grow_frame(&pre, &post, pos),
        post.user_cell(0, pos + 1) == value,
        forall|i: int|
            1 <= i < pre.depth + 1 ==> #[trigger] post.user_cell(i, pos + 1)
                == pre.user_cell(i - 1, pos),
        forall|i: int|
            pre.depth + 1 <= i < post.width() ==> #[trigger] post.user_cell(i, pos + 1) == 0,
    ensures
        trace_build_inv(post, program, init, isd, pos + 1),
        vm_is_imm(program, pos + 1),
        pos < program.len() - 2,
{
    assert(vm_step_ok(program, init, pos));
    lemma_vm_state_at_inv(program, init, pos);
    lemma_vm_columns_blank(program, init, pos);
    let st_i = vm_state_at(program, init, pos);
    assert(row_matches(pre, st_i, pos));
    assert forall|q: int| 0 <= q < pre.width() implies #[trigger] pre.user_cell(q, pos)
        == st_i.stack[q] by {
    }
    lemma_vm_push_step_inv(st_i, value);
    let st_next = vm_push_step(st_i, value);
    assert(vm_state_at(program, init, pos + 1) == st_next) by {
        reveal(vm_state_at);
    }
    lemma_build_push_rows(pre, post, program, init, isd, pos, value);
    lemma_build_push_aux(pre, post, program, init, isd, pos, value);
}

/// The row facts of [`lemma_build_imm_noop`]: every earlier row keeps matching the
/// machine run, row `pos + 1` now matches it too, and the rows past it
/// are still blank.
#[verifier::rlimit(100)]
proof fn lemma_build_imm_noop_rows(
    pre: StackTrace,
    post: StackTrace,
    program: Seq<u128>,
    init: VmState,
    isd: int,
    pos: int,
)
    requires
        trace_build_inv(pre, program, init, isd, pos),
        vm_is_imm(program, pos),
        0 <= pos < program.len() - 1,
        post.well_formed(),
        post.depth == pre.depth,
        post.max_depth == pre.max_depth,
        post.secret_inputs_a == pre.secret_inputs_a,
        post.secret_inputs_b == pre.secret_inputs_b,
        StackTrace::frame(&pre, &post, pos),
        forall|i: int|
            0 <= i < pre.depth ==> #[trigger] post.user_cell(i, pos + 1) == pre.user_cell(i, pos),
        forall|i: int|
            pre.depth <= i < pre.width() ==> #[trigger] post.user_cell(i, pos + 1) == 0,
    ensures
        forall|s: int|
            0 <= s <= pos + 1 ==> #[trigger] row_matches(post, vm_state_at(program, init, s), s),
        forall|s: int| pos + 1 < s < program.len() ==> #[trigger] post.row_clear(s),
{
    lemma_vm_state_at_inv(program, init, pos);
    let st_i = vm_state_at(program, init, pos);
    assert(row_matches(pre, st_i, pos));
    assert forall|q: int| 0 <= q < pre.width() implies #[trigger] pre.user_cell(q, pos)
        == st_i.stack[q] by {
    }
    lemma_vm_op_step_inv(st_i, crate::opcodes::NOOP, pos);
    let st_next = vm_op_step(st_i, crate::opcodes::NOOP, pos);
    assert(vm_state_at(program, init, pos + 1) == st_next) by {
        reveal(vm_state_at);
    }
    reveal(vm_op_step);
    assert(post.depth == st_next.depth);
    assert(post.max_depth == st_next.max_depth);
    assert(post.secret_inputs_a@ == st_next.secret_a);
    assert(post.secret_inputs_b@ == st_next.secret_b);
    assert(post.width() == (if st_next.max_depth > isd {
        st_next.max_depth
    } else {
        isd
    }));
    // every earlier row keeps matching, and row pos + 1 now matches too
    assert forall|s: int| 0 <= s <= pos + 1 implies #[trigger] row_matches(
        post,
        vm_state_at(program, init, s),
        s,
    ) by {
        if s <= pos {
            assert(row_matches(pre, vm_state_at(program, init, s), s));
            assert forall|cc: int| 0 <= cc < post.width() implies #[trigger] post.user_cell(cc, s)
                == vm_state_at(program, init, s).stack[cc] by {
                assert(pre.user_cell(cc, s) == vm_state_at(program, init, s).stack[cc]);
            }
        } else {
            assert forall|cc: int| 0 <= cc < post.width() implies #[trigger] post.user_cell(cc, s)
                == st_next.stack[cc] by {
            }
        }
    }
    // the rows past pos + 1 are still blank
    assert forall|s: int| pos + 1 < s < program.len() implies #[trigger] post.row_clear(s) by {
        assert(pre.row_clear(s));
        assert forall|cc: int| 0 <= cc < post.width() implies #[trigger] post.user_cell(cc, s)
            == 0 by {
            assert(pre.user_cell(cc, s) == 0);
        }
    }
}

/// The auxiliary-column facts of [`lemma_build_imm_noop`]: column 0 carries exactly the
/// witnesses of the steps taken, column 1 stays zero.
#[verifier::rlimit(100)]
proof fn lemma_build_imm_noop_aux(
    pre: StackTrace,
    post: StackTrace,
    program: Seq<u128>,
    init: VmState,
    isd: int,
    pos: int,
)
    requires
        trace_build_inv(pre, program, init, isd, pos),
        vm_is_imm(program, pos),
        0 <= pos < program.len() - 1,
        post.well_formed(),
        post.depth == pre.depth,
        post.max_depth == pre.max_depth,
        post.secret_inputs_a == pre.secret_inputs_a,
        post.secret_inputs_b == pre.secret_inputs_b,
        StackTrace::frame(&pre, &post, pos),
        forall|i: int|
            0 <= i < pre.depth ==> #[trigger] post.user_cell(i, pos + 1) == pre.user_cell(i, pos),
        forall|i: int|
            pre.depth <= i < pre.width() ==> #[trigger] post.user_cell(i, pos + 1) == 0,
    ensures
        forall|s: int|
            0 <= s < pos + 1 ==> #[trigger] post.aux_cell(0, s) == vm_aux0_at(program, init, s),
        forall|s: int| pos + 1 <= s < program.len() ==> #[trigger] post.aux_cell(0, s) == 0,
        forall|s: int| 0 <= s < program.len() ==> #[trigger] post.aux_cell(1, s) == 0,
{
    lemma_vm_state_at_inv(program, init, pos);
    let st_i = vm_state_at(program, init, pos);
    assert(row_matches(pre, st_i, pos));
    assert forall|q: int| 0 <= q < pre.width() implies #[trigger] pre.user_cell(q, pos)
        == st_i.stack[q] by {
    }
    lemma_vm_op_step_inv(st_i, crate::opcodes::NOOP, pos);
    let st_next = vm_op_step(st_i, crate::opcodes::NOOP, pos);
    assert(vm_state_at(program, init, pos + 1) == st_next) by {
        reveal(vm_state_at);
    }
    reveal(vm_op_step);
    assert(post.depth == st_next.depth);
    assert(post.max_depth == st_next.max_depth);
    assert(post.secret_inputs_a@ == st_next.secret_a);
    assert(post.secret_inputs_b@ == st_next.secret_b);
    assert(post.width() == (if st_next.max_depth > isd {
        st_next.max_depth
    } else {
        isd
    }));
    // auxiliary column 0 records the witnesses of the steps taken
    assert forall|s: int| 0 <= s < pos + 1 implies #[trigger] post.aux_cell(0, s) == vm_aux0_at(
        program,
        init,
        s,
    ) by {
        if s < pos {
            assert(pre.aux_cell(0, s) == vm_aux0_at(program, init, s));
            assert(post.aux_registers == pre.aux_registers);
        } else {
            assert(pre.aux_cell(0, pos) == 0);
            assert(vm_aux0_at(program, init, pos) == 0);
        }
    }
    assert forall|s: int| pos + 1 <= s < program.len() implies #[trigger] post.aux_cell(0, s)
        == 0 by {
        assert(pre.aux_cell(0, s) == 0);
        assert(post.aux_registers == pre.aux_registers);
    }
    assert forall|s: int| 0 <= s < program.len() implies #[trigger] post.aux_cell(1, s) == 0 by {
        assert(pre.aux_cell(1, s) == 0);
        assert(post.aux_registers == pre.aux_registers);
    }
}

/// Carrying out one imm noop step at slot `pos` preserves the
/// trace-building invariant at slot `pos + 1`.
#[verifier::rlimit(100)]
proof fn lemma_build_imm_noop(
    pre: StackTrace,
    post: StackTrace,
    program: Seq<u128>,
    init: VmState,
    isd: int,
    pos: int,
)
    requires
        trace_build_inv(pre, program, init, isd, pos),
        vm_is_imm(program, pos),
        0 <= pos < program.len() - 1,
        post.well_formed(),
        post.depth == pre.depth,
        post.max_depth == pre.max_depth,
        post.secret_inputs_a == pre.secret_inputs_a,
        post.secret_inputs_b == pre.secret_inputs_b,
        StackTrace::frame(&pre, &post, pos),
        forall|i: int|
            0 <= i < pre.depth ==> #[trigger] post.user_cell(i, pos + 1) == pre.user_cell(i, pos),
        forall|i: int|
            pre.depth <= i < pre.width() ==> #[trigger] post.user_cell(i, pos + 1) == 0,
    ensures
        trace_build_inv(post, program, init, isd, pos + 1),
        !vm_is_imm(program, pos + 1),
{
    lemma_vm_state_at_inv(program, init, pos);
    let st_i = vm_state_at(program, init, pos);
    assert(row_matches(pre, st_i, pos));
    assert forall|q: int| 0 <= q < pre.width() implies #[trigger] pre.user_cell(q, pos)
        == st_i.stack[q] by {
    }
    lemma_vm_op_step_inv(st_i, crate::opcodes::NOOP, pos);
    let st_next = vm_op_step(st_i, crate::opcodes::NOOP, pos);
    assert(vm_state_at(program, init, pos + 1) == st_next) by {
        reveal(vm_state_at);
    }
    reveal(vm_op_step);
    assert(post.depth == st_next.depth);
    assert(post.max_depth == st_next.max_depth);
    assert(post.secret_inputs_a@ == st_next.secret_a);
    assert(post.secret_inputs_b@ == st_next.secret_b);
    assert(post.width() == (if st_next.max_depth > isd {
        st_next.max_depth
    } else {
        isd
    }));
    lemma_build_imm_noop_rows(pre, post, program, init, isd, pos);
    lemma_build_imm_noop_aux(pre, post, program, init, isd, pos);
}

/// The stack columns of a trace under construction, with the live depth,
/// the observed maximum depth, and the unconsumed secret inputs (kept
/// reversed so that consuming from the back yields front-to-back order).
pub struct StackTrace {
    pub aux_registers: Vec<Vec<u128>>,
    pub user_registers: Vec<Vec<u128>>,
    pub secret_inputs_a: Vec<u128>,
    pub secret_inputs_b: Vec<u128>,
    pub max_depth: usize,
    pub depth: usize,
}

impl StackTrace {
    /// Number of rows of the trace.
    pub open spec fn trace_len(&self) -> int {
        self.aux_registers@[0]@.len() as int
    }

    /// Number of user-stack columns currently allocated.
    pub open spec fn width(&self) -> int {
        self.user_registers@.len() as int
    }

    /// User-stack cell in column `i`, row `s`.
    #[verifier::inline]
    pub open spec fn user_cell(&self, i: int, s: int) -> u128 {
        self.user_registers@[i]@[s]
    }

    /// Auxiliary cell in column `i`, row `s`.
    #[verifier::inline]
    pub open spec fn aux_cell(&self, i: int, s: int) -> u128 {
        self.aux_registers@[i]@[s]
    }

    /// Column counts and column lengths agree.
    pub open spec fn columns_consistent(&self) -> bool {
        &&& self.aux_registers@.len() == AUX_WIDTH
        &&& forall|i: int|
            0 <= i < AUX_WIDTH ==> (#[trigger] self.aux_registers@[i])@.len() == self.trace_len()
        &&& forall|i: int|
            0 <= i < self.width() ==> (#[trigger] self.user_registers@[i])@.len()
                == self.trace_len()
    }

    /// Every cell and every pending secret input is a canonical field
    /// element.
    pub open spec fn cells_canonical(&self) -> bool {
        &&& forall|i: int, s: int|
            0 <= i < AUX_WIDTH && 0 <= s < self.trace_len()
                ==> #[trigger] self.aux_registers@[i]@[s] < field::M
        &&& forall|i: int, s: int|
            0 <= i < self.width() && 0 <= s < self.trace_len()
                ==> #[trigger] self.user_registers@[i]@[s] < field::M
        &&& forall|i: int|
            0 <= i < self.secret_inputs_a@.len() ==> #[trigger] self.secret_inputs_a@[i] < field::M
        &&& forall|i: int|
            0 <= i < self.secret_inputs_b@.len() ==> #[trigger] self.secret_inputs_b@[i] < field::M
    }

    /// The live depth never exceeds the observed maximum, which never
    /// exceeds the allocated columns or the hard stack limit.
    pub open spec fn depths_ok(&self) -> bool {
        &&& self.width() >= MIN_USER_STACK_DEPTH
        &&& self.depth <= self.max_depth
        &&& self.max_depth <= self.width()
        &&& self.max_depth <= MAX_USER_STACK_DEPTH
    }

    /// The structural invariant every operation preserves.
    pub open spec fn well_formed(&self) -> bool {
        &&& self.columns_consistent()
        &&& self.cells_canonical()
        &&& self.depths_ok()
    }

    /// Row `s` of the user stack has not been written yet.
    pub open spec fn row_clear(&self, s: int) -> bool {
        forall|i: int| 0 <= i < self.width() ==> #[trigger] self.user_registers@[i]@[s] == 0
    }

    /// The parts no width-preserving stack operation changes at cycle
    /// `step`: the layout, the auxiliary columns, and every user cell
    /// outside row `step + 1`.
    pub open spec fn frame(pre: &StackTrace, post: &StackTrace, step: int) -> bool {
        &&& post.width() == pre.width()
        &&& post.aux_registers == pre.aux_registers
        &&& post.trace_len() == pre.trace_len()
        &&& forall|i: int, s: int|
            0 <= i < pre.width() && 0 <= s < pre.trace_len() && s != step + 1
                ==> #[trigger] post.user_registers@[i]@[s] == pre.user_registers@[i]@[s]
    }

    /// The frame of an operation that may allocate columns: old cells
    /// outside row `step + 1` keep their values, new columns are zero
    /// there.
    pub open spec fn grow_frame(pre: &StackTrace, post: &StackTrace, step: int) -> bool {
        &&& post.width() >= pre.width()
        &&& post.aux_registers == pre.aux_registers
        &&& post.trace_len() == pre.trace_len()
        &&& forall|i: int, s: int|
            0 <= i < pre.width() && 0 <= s < pre.trace_len() && s != step + 1
                ==> #[trigger] post.user_registers@[i]@[s] == pre.user_registers@[i]@[s]
        &&& forall|i: int, s: int|
            pre.width() <= i < post.width() && 0 <= s < pre.trace_len() && s != step + 1
                ==> #[trigger] post.user_registers@[i]@[s] == 0
    }

    // OPERATIONS
    // ----------------------------------------------------------------------

    /// NOOP: row `step + 1` repeats row `step`.
    pub fn noop(&mut self, step: usize)
        requires
            old(self).well_formed(),
            step + 1 < old(self).trace_len(),
            old(self).row_clear(step + 1),
        ensures
            final(self).well_formed(),
            final(self).depth == old(self).depth,
            final(self).max_depth == old(self).max_depth,
            final(self).secret_inputs_a == old(self).secret_inputs_a,
            final(self).secret_inputs_b == old(self).secret_inputs_b,
            StackTrace::frame(old(self), final(self), step as int),
            forall|i: int|
                0 <= i < old(self).depth ==> #[trigger] final(self).user_cell(i, step + 1) == old(
                    self,
                ).user_cell(i, step as int),
            forall|i: int|
                old(self).depth <= i < old(self).width() ==> #[trigger] final(self).user_cell(i, step + 1) == 0,
    {
        self.copy_state(step, 0);
    }

    /// ASSERT: requires a 1 on top of the stack and removes it.
    pub fn assert_op(&mut self, step: usize)
        requires
            old(self).well_formed(),
            step + 1 < old(self).trace_len(),
            old(self).row_clear(step + 1),
            old(self).depth >= 1,
            old(self).user_cell(0, step as int) == 1,
        ensures
            final(self).well_formed(),
            final(self).depth == old(self).depth - 1,
            final(self).max_depth == old(self).max_depth,
            final(self).secret_inputs_a == old(self).secret_inputs_a,
            final(self).secret_inputs_b == old(self).secret_inputs_b,
            StackTrace::frame(old(self), final(self), step as int),
            forall|i: int|
                0 <= i < old(self).depth - 1 ==> #[trigger] final(self).user_cell(i, step + 1)
                    == old(self).user_cell(i + 1, step as int),
            forall|i: int|
                old(self).depth - 1 <= i < old(self).width() ==> #[trigger] final(self).user_cell(i, step + 1) == 0,
    {
        self.shift_left(step, 1, 1);
    }

    /// PUSH: places an immediate value on top of the stack.
    pub fn push(&mut self, step: usize, value: u128)
        requires
            old(self).well_formed(),
            step + 1 < old(self).trace_len(),
            old(self).row_clear(step + 1),
            old(self).depth + 1 <= MAX_USER_STACK_DEPTH,
            value < field::M,
        ensures
            final(self).well_formed(),
            final(self).depth == old(self).depth + 1,
            final(self).max_depth == (if old(self).depth + 1 > old(self).max_depth {
                old(self).depth + 1
            } else {
                old(self).max_depth as int
            }),
            final(self).width() == (if final(self).max_depth > old(self).width() {
                final(self).max_depth as int
            } else {
                old(self).width()
            }),
            final(self).secret_inputs_a == old(self).secret_inputs_a,
            final(self).secret_inputs_b == old(self).secret_inputs_b,
            StackTrace::grow_frame(old(self), final(self), step as int),
            final(self).user_cell(0, step + 1) == value,
            forall|i: int|
                1 <= i < old(self).depth + 1 ==> #[trigger] final(self).user_cell(i, step + 1)
                    == old(self).user_cell(i - 1, step as int),
            forall|i: int|
                old(self).depth + 1 <= i < final(self).width() ==> #[trigger] final(self).user_cell(i, step + 1) == 0,
    {
        proof {
            crate::utils::lemma_vec_len_bound(self.aux_registers@[0]);
        }
        self.shift_right(step, 0, 1);
        self.user_registers[0][step + 1] = value;
    }

    /// READ: consumes the next secret input of queue A onto the stack.
    pub fn read(&mut self, step: usize)
        requires
            old(self).well_formed(),
            step + 1 < old(self).trace_len(),
            old(self).row_clear(step + 1),
            old(self).depth + 1 <= MAX_USER_STACK_DEPTH,
            old(self).secret_inputs_a@.len() > 0,
        ensures
            final(self).well_formed(),
            final(self).depth == old(self).depth + 1,
            final(self).max_depth == (if old(self).depth + 1 > old(self).max_depth {
                old(self).depth + 1
            } else {
                old(self).max_depth as int
            }),
            final(self).width() == (if final(self).max_depth > old(self).width() {
                final(self).max_depth as int
            } else {
                old(self).width()
            }),
            final(self).secret_inputs_a@ == old(self).secret_inputs_a@.drop_last(),
            final(self).secret_inputs_b == old(self).secret_inputs_b,
            StackTrace::grow_frame(old(self), final(self), step as int),
            final(self).user_cell(0, step + 1) == old(self).secret_inputs_a@.last(),
            forall|i: int|
                1 <= i < old(self).depth + 1 ==> #[trigger] final(self).user_cell(i, step + 1)
                    == old(self).user_cell(i - 1, step as int),
            forall|i: int|
                old(self).depth + 1 <= i < final(self).width() ==> #[trigger] final(self).user_cell(i, step + 1) == 0,
    {
        proof {
            crate::utils::lemma_vec_len_bound(self.aux_registers@[0]);
        }
        self.shift_right(step, 0, 1);
        let value = self.secret_inputs_a.pop().unwrap();
        self.user_registers[0][step + 1] = value;
    }

    /// READ2: consumes one value from each secret queue onto the stack,
    /// queue B's value on top.
    pub fn read2(&mut self, step: usize)
        requires
            old(self).well_formed(),
            step + 1 < old(self).trace_len(),
            old(self).row_clear(step + 1),
            old(self).depth + 2 <= MAX_USER_STACK_DEPTH,
            old(self).secret_inputs_a@.len() > 0,
            old(self).secret_inputs_b@.len() > 0,
        ensures
            final(self).well_formed(),
            final(self).depth == old(self).depth + 2,
            final(self).max_depth == (if old(self).depth + 2 > old(self).max_depth {
                old(self).depth + 2
            } else {
                old(self).max_depth as int
            }),
            final(self).width() == (if final(self).max_depth > old(self).width() {
                final(self).max_depth as int
            } else {
                old(self).width()
            }),
            final(self).secret_inputs_a@ == old(self).secret_inputs_a@.drop_last(),
            final(self).secret_inputs_b@ == old(self).secret_inputs_b@.drop_last(),
            StackTrace::grow_frame(old(self), final(self), step as int),
            final(self).user_cell(0, step + 1) == old(self).secret_inputs_b@.last(),
            final(self).user_cell(1, step + 1) == old(self).secret_inputs_a@.last(),
            forall|i: int|
                2 <= i < old(self).depth + 2 ==> #[trigger] final(self).user_cell(i, step + 1)
                    == old(self).user_cell(i - 2, step as int),
            forall|i: int|
                old(self).depth + 2 <= i < final(self).width() ==> #[trigger] final(self).user_cell(i, step + 1) == 0,
    {
        proof {
            crate::utils::lemma_vec_len_bound(self.aux_registers@[0]);
        }
        self.shift_right(step, 0, 2);
        let value_a = self.secret_inputs_a.pop().unwrap();
        let value_b = self.secret_inputs_b.pop().unwrap();
        self.user_registers[0][step + 1] = value_b;
        self.user_registers[1][step + 1] = value_a;
    }

    /// DUP: repeats the top stack value.
    pub fn dup(&mut self, step: usize)
        requires
            old(self).well_formed(),
            step + 1 < old(self).trace_len(),
            old(self).row_clear(step + 1),
            old(self).depth >= 1,
            old(self).depth + 1 <= MAX_USER_STACK_DEPTH,
        ensures
            final(self).well_formed(),
            final(self).depth == old(self).depth + 1,
            final(self).max_depth == (if old(self).depth + 1 > old(self).max_depth {
                old(self).depth + 1
            } else {
                old(self).max_depth as int
            }),
            final(self).width() == (if final(self).max_depth > old(self).width() {
                final(self).max_depth as int
            } else {
                old(self).width()
            }),
            final(self).secret_inputs_a == old(self).secret_inputs_a,
            final(self).secret_inputs_b == old(self).secret_inputs_b,
            StackTrace::grow_frame(old(self), final(self), step as int),
            final(self).user_cell(0, step + 1) == old(self).user_cell(0, step as int),
            forall|i: int|
                1 <= i < old(self).depth + 1 ==> #[trigger] final(self).user_cell(i, step + 1)
                    == old(self).user_cell(i - 1, step as int),
            forall|i: int|
                old(self).depth + 1 <= i < final(self).width()
                    ==> #[trigger] final(self).user_cell(i, step + 1) == 0,
    {
        proof {
            crate::utils::lemma_vec_len_bound(self.aux_registers@[0]);
        }
        self.shift_right(step, 0, 1);
        let value = self.user_registers[0][step];
        self.user_registers[0][step + 1] = value;
    }

    /// DUP2: repeats the top two stack values.
    pub fn dup2(&mut self, step: usize)
        requires
            old(self).well_formed(),
            step + 1 < old(self).trace_len(),
            old(self).row_clear(step + 1),
            old(self).depth >= 2,
            old(self).depth + 2 <= MAX_USER_STACK_DEPTH,
        ensures
            final(self).well_formed(),
            final(self).depth == old(self).depth + 2,
            final(self).max_depth == (if old(self).depth + 2 > old(self).max_depth {
                old(self).depth + 2
            } else {
                old(self).max_depth as int
            }),
            final(self).width() == (if final(self).max_depth > old(self).width() {
                final(self).max_depth as int
            } else {
                old(self).width()
            }),
            final(self).secret_inputs_a == old(self).secret_inputs_a,
            final(self).secret_inputs_b == old(self).secret_inputs_b,
            StackTrace::grow_frame(old(self), final(self), step as int),
            final(self).user_cell(0, step + 1) == old(self).user_cell(0, step as int),
            final(self).user_cell(1, step + 1) == old(self).user_cell(1, step as int),
            forall|i: int|
                2 <= i < old(self).depth + 2 ==> #[trigger] final(self).user_cell(i, step + 1)
                    == old(self).user_cell(i - 2, step as int),
            forall|i: int|
                old(self).depth + 2 <= i < final(self).width()
                    ==> #[trigger] final(self).user_cell(i, step + 1) == 0,
    {
        proof {
            crate::utils::lemma_vec_len_bound(self.aux_registers@[0]);
        }
        self.shift_right(step, 0, 2);
        let value0 = self.user_registers[0][step];
        let value1 = self.user_registers[1][step];
        self.user_registers[0][step + 1] = value0;
        self.user_registers[1][step + 1] = value1;
    }

    /// DUP4: repeats the top four stack values.
    pub fn dup4(&mut self, step: usize)
        requires
            old(self).well_formed(),
            step + 1 < old(self).trace_len(),
            old(self).row_clear(step + 1),
            old(self).depth >= 4,
            old(self).depth + 4 <= MAX_USER_STACK_DEPTH,
        ensures
            final(self).well_formed(),
            final(self).depth == old(self).depth + 4,
            final(self).max_depth == (if old(self).depth + 4 > old(self).max_depth {
                old(self).depth + 4
            } else {
                old(self).max_depth as int
            }),
            final(self).width() == (if final(self).max_depth > old(self).width() {
                final(self).max_depth as int
            } else {
                old(self).width()
            }),
            final(self).secret_inputs_a == old(self).secret_inputs_a,
            final(self).secret_inputs_b == old(self).secret_inputs_b,
            StackTrace::grow_frame(old(self), final(self), step as int),
            forall|i: int|
                0 <= i < 4 ==> #[trigger] final(self).user_cell(i, step + 1) == old(
                    self,
                ).user_cell(i, step as int),
            forall|i: int|
                4 <= i < old(self).depth + 4 ==> #[trigger] final(self).user_cell(i, step + 1)
                    == old(self).user_cell(i - 4, step as int),
            forall|i: int|
                old(self).depth + 4 <= i < final(self).width()
                    ==> #[trigger] final(self).user_cell(i, step + 1) == 0,
    {
        proof {
            crate::utils::lemma_vec_len_bound(self.aux_registers@[0]);
        }
        self.shift_right(step, 0, 4);
        let value0 = self.user_registers[0][step];
        let value1 = self.user_registers[1][step];
        let value2 = self.user_registers[2][step];
        let value3 = self.user_registers[3][step];
        self.user_registers[0][step + 1] = value0;
        self.user_registers[1][step + 1] = value1;
        self.user_registers[2][step + 1] = value2;
        self.user_registers[3][step + 1] = value3;
    }

    /// PAD2: pushes two zeros onto the stack.
    pub fn pad2(&mut self, step: usize)
        requires
            old(self).well_formed(),
            step + 1 < old(self).trace_len(),
            old(self).row_clear(step + 1),
            old(self).depth + 2 <= MAX_USER_STACK_DEPTH,
        ensures
            final(self).well_formed(),
            final(self).depth == old(self).depth + 2,
            final(self).max_depth == (if old(self).depth + 2 > old(self).max_depth {
                old(self).depth + 2
            } else {
                old(self).max_depth as int
            }),
            final(self).width() == (if final(self).max_depth > old(self).width() {
                final(self).max_depth as int
            } else {
                old(self).width()
            }),
            final(self).secret_inputs_a == old(self).secret_inputs_a,
            final(self).secret_inputs_b == old(self).secret_inputs_b,
            StackTrace::grow_frame(old(self), final(self), step as int),
            final(self).user_cell(0, step + 1) == 0,
            final(self).user_cell(1, step + 1) == 0,
            forall|i: int|
                2 <= i < old(self).depth + 2 ==> #[trigger] final(self).user_cell(i, step + 1)
                    == old(self).user_cell(i - 2, step as int),
            forall|i: int|
                old(self).depth + 2 <= i < final(self).width()
                    ==> #[trigger] final(self).user_cell(i, step + 1) == 0,
    {
        proof {
            crate::utils::lemma_vec_len_bound(self.aux_registers@[0]);
        }
        self.shift_right(step, 0, 2);
        self.user_registers[0][step + 1] = field::ZERO;
        self.user_registers[1][step + 1] = field::ZERO;
    }

    /// DROP: removes the top stack value.
    pub fn drop(&mut self, step: usize)
        requires
            old(self).well_formed(),
            step + 1 < old(self).trace_len(),
            old(self).row_clear(step + 1),
            old(self).depth >= 1,
        ensures
            final(self).well_formed(),
            final(self).depth == old(self).depth - 1,
            final(self).max_depth == old(self).max_depth,
            final(self).secret_inputs_a == old(self).secret_inputs_a,
            final(self).secret_inputs_b == old(self).secret_inputs_b,
            StackTrace::frame(old(self), final(self), step as int),
            forall|i: int|
                0 <= i < old(self).depth - 1 ==> #[trigger] final(self).user_cell(i, step + 1)
                    == old(self).user_cell(i + 1, step as int),
            forall|i: int|
                old(self).depth - 1 <= i < old(self).width()
                    ==> #[trigger] final(self).user_cell(i, step + 1) == 0,
    {
        self.shift_left(step, 1, 1);
    }

    /// DROP4: removes the top four stack values.
    pub fn drop4(&mut self, step: usize)
        requires
            old(self).well_formed(),
            step + 1 < old(self).trace_len(),
            old(self).row_clear(step + 1),
            old(self).depth >= 4,
        ensures
            final(self).well_formed(),
            final(self).depth == old(self).depth - 4,
            final(self).max_depth == old(self).max_depth,
            final(self).secret_inputs_a == old(self).secret_inputs_a,
            final(self).secret_inputs_b == old(self).secret_inputs_b,
            StackTrace::frame(old(self), final(self), step as int),
            forall|i: int|
                0 <= i < old(self).depth - 4 ==> #[trigger] final(self).user_cell(i, step + 1)
                    == old(self).user_cell(i + 4, step as int),
            forall|i: int|
                old(self).depth - 4 <= i < old(self).width()
                    ==> #[trigger] final(self).user_cell(i, step + 1) == 0,
    {
        self.shift_left(step, 4, 4);
    }

    /// SWAP: exchanges the top two stack values.
    pub fn swap(&mut self, step: usize)
        requires
            old(self).well_formed(),
            step + 1 < old(self).trace_len(),
            old(self).row_clear(step + 1),
            old(self).depth >= 2,
        ensures
            final(self).well_formed(),
            final(self).depth == old(self).depth,
            final(self).max_depth == old(self).max_depth,
            final(self).secret_inputs_a == old(self).secret_inputs_a,
            final(self).secret_inputs_b == old(self).secret_inputs_b,
            StackTrace::frame(old(self), final(self), step as int),
            final(self).user_cell(0, step + 1) == old(self).user_cell(1, step as int),
            final(self).user_cell(1, step + 1) == old(self).user_cell(0, step as int),
            forall|i: int|
                2 <= i < old(self).depth ==> #[trigger] final(self).user_cell(i, step + 1) == old(
                    self,
                ).user_cell(i, step as int),
            forall|i: int|
                old(self).depth <= i < old(self).width()
                    ==> #[trigger] final(self).user_cell(i, step + 1) == 0,
    {
        proof {
            crate::utils::lemma_vec_len_bound(self.aux_registers@[0]);
        }
        let value0 = self.user_registers[0][step];
        let value1 = self.user_registers[1][step];
        self.user_registers[0][step + 1] = value1;
        self.user_registers[1][step + 1] = value0;
        self.copy_state(step, 2);
    }

    /// SWAP2: exchanges the top pair of stack values with the next pair.
    pub fn swap2(&mut self, step: usize)
        requires
            old(self).well_formed(),
            step + 1 < old(self).trace_len(),
            old(self).row_clear(step + 1),
            old(self).depth >= 4,
        ensures
            final(self).well_formed(),
            final(self).depth == old(self).depth,
            final(self).max_depth == old(self).max_depth,
            final(self).secret_inputs_a == old(self).secret_inputs_a,
            final(self).secret_inputs_b == old(self).secret_inputs_b,
            StackTrace::frame(old(self), final(self), step as int),
            final(self).user_cell(0, step + 1) == old(self).user_cell(2, step as int),
            final(self).user_cell(1, step + 1) == old(self).user_cell(3, step as int),
            final(self).user_cell(2, step + 1) == old(self).user_cell(0, step as int),
            final(self).user_cell(3, step + 1) == old(self).user_cell(1, step as int),
            forall|i: int|
                4 <= i < old(self).depth ==> #[trigger] final(self).user_cell(i, step + 1) == old(
                    self,
                ).user_cell(i, step as int),
            forall|i: int|
                old(self).depth <= i < old(self).width()
                    ==> #[trigger] final(self).user_cell(i, step + 1) == 0,
    {
        proof {
            crate::utils::lemma_vec_len_bound(self.aux_registers@[0]);
        }
        let value0 = self.user_registers[0][step];
        let value1 = self.user_registers[1][step];
        let value2 = self.user_registers[2][step];
        let value3 = self.user_registers[3][step];
        self.user_registers[0][step + 1] = value2;
        self.user_registers[1][step + 1] = value3;
        self.user_registers[2][step + 1] = value0;
        self.user_registers[3][step + 1] = value1;
        self.copy_state(step, 4);
    }

    /// SWAP4: exchanges the top quartet of stack values with the next one.
    pub fn swap4(&mut self, step: usize)
        requires
            old(self).well_formed(),
            step + 1 < old(self).trace_len(),
            old(self).row_clear(step + 1),
            old(self).depth >= 8,
        ensures
            final(self).well_formed(),
            final(self).depth == old(self).depth,
            final(self).max_depth == old(self).max_depth,
            final(self).secret_inputs_a == old(self).secret_inputs_a,
            final(self).secret_inputs_b == old(self).secret_inputs_b,
            StackTrace::frame(old(self), final(self), step as int),
            forall|i: int|
                0 <= i < 4 ==> #[trigger] final(self).user_cell(i, step + 1) == old(
                    self,
                ).user_cell(i + 4, step as int),
            forall|i: int|
                4 <= i < 8 ==> #[trigger] final(self).user_cell(i, step + 1) == old(
                    self,
                ).user_cell(i - 4, step as int),
            forall|i: int|
                8 <= i < old(self).depth ==> #[trigger] final(self).user_cell(i, step + 1) == old(
                    self,
                ).user_cell(i, step as int),
            forall|i: int|
                old(self).depth <= i < old(self).width()
                    ==> #[trigger] final(self).user_cell(i, step + 1) == 0,
    {
        proof {
            crate::utils::lemma_vec_len_bound(self.aux_registers@[0]);
        }
        let value0 = self.user_registers[0][step];
        let value1 = self.user_registers[1][step];
        let value2 = self.user_registers[2][step];
        let value3 = self.user_registers[3][step];
        let value4 = self.user_registers[4][step];
        let value5 = self.user_registers[5][step];
        let value6 = self.user_registers[6][step];
        let value7 = self.user_registers[7][step];
        self.user_registers[0][step + 1] = value4;
        self.user_registers[1][step + 1] = value5;
        self.user_registers[2][step + 1] = value6;
        self.user_registers[3][step + 1] = value7;
        self.user_registers[4][step + 1] = value0;
        self.user_registers[5][step + 1] = value1;
        self.user_registers[6][step + 1] = value2;
        self.user_registers[7][step + 1] = value3;
        self.copy_state(step, 8);
    }

    /// ROLL4: rotates the top four stack values down by one.
    pub fn roll4(&mut self, step: usize)
        requires
            old(self).well_formed(),
            step + 1 < old(self).trace_len(),
            old(self).row_clear(step + 1),
            old(self).depth >= 4,
        ensures
            final(self).well_formed(),
            final(self).depth == old(self).depth,
            final(self).max_depth == old(self).max_depth,
            final(self).secret_inputs_a == old(self).secret_inputs_a,
            final(self).secret_inputs_b == old(self).secret_inputs_b,
            StackTrace::frame(old(self), final(self), step as int),
            final(self).user_cell(0, step + 1) == old(self).user_cell(3, step as int),
            forall|i: int|
                1 <= i < 4 ==> #[trigger] final(self).user_cell(i, step + 1) == old(
                    self,
                ).user_cell(i - 1, step as int),
            forall|i: int|
                4 <= i < old(self).depth ==> #[trigger] final(self).user_cell(i, step + 1) == old(
                    self,
                ).user_cell(i, step as int),
            forall|i: int|
                old(self).depth <= i < old(self).width()
                    ==> #[trigger] final(self).user_cell(i, step + 1) == 0,
    {
        proof {
            crate::utils::lemma_vec_len_bound(self.aux_registers@[0]);
        }
        let value0 = self.user_registers[0][step];
        let value1 = self.user_registers[1][step];
        let value2 = self.user_registers[2][step];
        let value3 = self.user_registers[3][step];
        self.user_registers[0][step + 1] = value3;
        self.user_registers[1][step + 1] = value0;
        self.user_registers[2][step + 1] = value1;
        self.user_registers[3][step + 1] = value2;
        self.copy_state(step, 4);
    }

    /// ROLL8: rotates the top eight stack values down by one.
    pub fn roll8(&mut self, step: usize)
        requires
            old(self).well_formed(),
            step + 1 < old(self).trace_len(),
            old(self).row_clear(step + 1),
            old(self).depth >= 8,
        ensures
            final(self).well_formed(),
            final(self).depth == old(self).depth,
            final(self).max_depth == old(self).max_depth,
            final(self).secret_inputs_a == old(self).secret_inputs_a,
            final(self).secret_inputs_b == old(self).secret_inputs_b,
            StackTrace::frame(old(self), final(self), step as int),
            final(self).user_cell(0, step + 1) == old(self).user_cell(7, step as int),
            forall|i: int|
                1 <= i < 8 ==> #[trigger] final(self).user_cell(i, step + 1) == old(
                    self,
                ).user_cell(i - 1, step as int),
            forall|i: int|
                8 <= i < old(self).depth ==> #[trigger] final(self).user_cell(i, step + 1) == old(
                    self,
                ).user_cell(i, step as int),
            forall|i: int|
                old(self).depth <= i < old(self).width()
                    ==> #[trigger] final(self).user_cell(i, step + 1) == 0,
    {
        proof {
            crate::utils::lemma_vec_len_bound(self.aux_registers@[0]);
        }
        let value0 = self.user_registers[0][step];
        let value1 = self.user_registers[1][step];
        let value2 = self.user_registers[2][step];
        let value3 = self.user_registers[3][step];
        let value4 = self.user_registers[4][step];
        let value5 = self.user_registers[5][step];
        let value6 = self.user_registers[6][step];
        let value7 = self.user_registers[7][step];
        self.user_registers[0][step + 1] = value7;
        self.user_registers[1][step + 1] = value0;
        self.user_registers[2][step + 1] = value1;
        self.user_registers[3][step + 1] = value2;
        self.user_registers[4][step + 1] = value3;
        self.user_registers[5][step + 1] = value4;
        self.user_registers[6][step + 1] = value5;
        self.user_registers[7][step + 1] = value6;
        self.copy_state(step, 8);
    }

    /// CHOOSE: keeps the first or second stack value depending on the
    /// binary condition in the third slot.
    pub fn choose_op(&mut self, step: usize)
        requires
            old(self).well_formed(),
            step + 1 < old(self).trace_len(),
            old(self).row_clear(step + 1),
            old(self).depth >= 3,
            old(self).user_cell(2, step as int) == 0 || old(self).user_cell(2, step as int) == 1,
        ensures
            final(self).well_formed(),
            final(self).depth == old(self).depth - 2,
            final(self).max_depth == old(self).max_depth,
            final(self).secret_inputs_a == old(self).secret_inputs_a,
            final(self).secret_inputs_b == old(self).secret_inputs_b,
            StackTrace::frame(old(self), final(self), step as int),
            final(self).user_cell(0, step + 1) == (if old(self).user_cell(2, step as int) == 1 {
                old(self).user_cell(0, step as int)
            } else {
                old(self).user_cell(1, step as int)
            }),
            forall|i: int|
                1 <= i < old(self).depth - 2 ==> #[trigger] final(self).user_cell(i, step + 1)
                    == old(self).user_cell(i + 2, step as int),
            forall|i: int|
                old(self).depth - 2 <= i < old(self).width()
                    ==> #[trigger] final(self).user_cell(i, step + 1) == 0,
    {
        proof {
            crate::utils::lemma_vec_len_bound(self.aux_registers@[0]);
        }
        let condition = self.user_registers[2][step];
        if condition == field::ONE {
            let value = self.user_registers[0][step];
            self.user_registers[0][step + 1] = value;
        } else {
            let value = self.user_registers[1][step];
            self.user_registers[0][step + 1] = value;
        }
        self.shift_left(step, 3, 2);
    }

    /// CHOOSE2: keeps the first or second pair of stack values depending
    /// on the binary condition in the fifth slot.
    pub fn choose2(&mut self, step: usize)
        requires
            old(self).well_formed(),
            step + 1 < old(self).trace_len(),
            old(self).row_clear(step + 1),
            old(self).depth >= 6,
            old(self).user_cell(4, step as int) == 0 || old(self).user_cell(4, step as int) == 1,
        ensures
            final(self).well_formed(),
            final(self).depth == old(self).depth - 4,
            final(self).max_depth == old(self).max_depth,
            final(self).secret_inputs_a == old(self).secret_inputs_a,
            final(self).secret_inputs_b == old(self).secret_inputs_b,
            StackTrace::frame(old(self), final(self), step as int),
            final(self).user_cell(0, step + 1) == (if old(self).user_cell(4, step as int) == 1 {
                old(self).user_cell(0, step as int)
            } else {
                old(self).user_cell(2, step as int)
            }),
            final(self).user_cell(1, step + 1) == (if old(self).user_cell(4, step as int) == 1 {
                old(self).user_cell(1, step as int)
            } else {
                old(self).user_cell(3, step as int)
            }),
            forall|i: int|
                2 <= i < old(self).depth - 4 ==> #[trigger] final(self).user_cell(i, step + 1)
                    == old(self).user_cell(i + 4, step as int),
            forall|i: int|
                old(self).depth - 4 <= i < old(self).width()
                    ==> #[trigger] final(self).user_cell(i, step + 1) == 0,
    {
        proof {
            crate::utils::lemma_vec_len_bound(self.aux_registers@[0]);
        }
        let condition = self.user_registers[4][step];
        if condition == field::ONE {
            let value0 = self.user_registers[0][step];
            let value1 = self.user_registers[1][step];
            self.user_registers[0][step + 1] = value0;
            self.user_registers[1][step + 1] = value1;
        } else {
            let value2 = self.user_registers[2][step];
            let value3 = self.user_registers[3][step];
            self.user_registers[0][step + 1] = value2;
            self.user_registers[1][step + 1] = value3;
        }
        self.shift_left(step, 6, 4);
    }

    /// ADD: replaces the top two stack values with their field sum.
    pub fn add(&mut self, step: usize)
        requires
            old(self).well_formed(),
            step + 1 < old(self).trace_len(),
            old(self).row_clear(step + 1),
            old(self).depth >= 2,
        ensures
            final(self).well_formed(),
            final(self).depth == old(self).depth - 1,
            final(self).max_depth == old(self).max_depth,
            final(self).secret_inputs_a == old(self).secret_inputs_a,
            final(self).secret_inputs_b == old(self).secret_inputs_b,
            StackTrace::frame(old(self), final(self), step as int),
            final(self).user_cell(0, step + 1) == fadd(
                old(self).user_cell(0, step as int) as int,
                old(self).user_cell(1, step as int) as int,
            ),
            forall|i: int|
                1 <= i < old(self).depth - 1 ==> #[trigger] final(self).user_cell(i, step + 1)
                    == old(self).user_cell(i + 1, step as int),
            forall|i: int|
                old(self).depth - 1 <= i < old(self).width()
                    ==> #[trigger] final(self).user_cell(i, step + 1) == 0,
    {
        proof {
            crate::utils::lemma_vec_len_bound(self.aux_registers@[0]);
        }
        let x = self.user_registers[0][step];
        let y = self.user_registers[1][step];
        self.user_registers[0][step + 1] = field::add(x, y);
        self.shift_left(step, 2, 1);
    }

    /// MUL: replaces the top two stack values with their field product.
    pub fn mul(&mut self, step: usize)
        requires
            old(self).well_formed(),
            step + 1 < old(self).trace_len(),
            old(self).row_clear(step + 1),
            old(self).depth >= 2,
        ensures
            final(self).well_formed(),
            final(self).depth == old(self).depth - 1,
            final(self).max_depth == old(self).max_depth,
            final(self).secret_inputs_a == old(self).secret_inputs_a,
            final(self).secret_inputs_b == old(self).secret_inputs_b,
            StackTrace::frame(old(self), final(self), step as int),
            final(self).user_cell(0, step + 1) == fmul(
                old(self).user_cell(0, step as int) as int,
                old(self).user_cell(1, step as int) as int,
            ),
            forall|i: int|
                1 <= i < old(self).depth - 1 ==> #[trigger] final(self).user_cell(i, step + 1)
                    == old(self).user_cell(i + 1, step as int),
            forall|i: int|
                old(self).depth - 1 <= i < old(self).width()
                    ==> #[trigger] final(self).user_cell(i, step + 1) == 0,
    {
        proof {
            crate::utils::lemma_vec_len_bound(self.aux_registers@[0]);
        }
        let x = self.user_registers[0][step];
        let y = self.user_registers[1][step];
        self.user_registers[0][step + 1] = field::mul(x, y);
        self.shift_left(step, 2, 1);
    }

    /// INV: replaces the nonzero top stack value with its inverse,
    /// computed as the Fermat power [`finv`]. That the product of old and
    /// new tops is 1 rests on the primality of the modulus and is not
    /// derived here (see [`crate::field::inv`]).
    pub fn inv(&mut self, step: usize)
        requires
            old(self).well_formed(),
            step + 1 < old(self).trace_len(),
            old(self).row_clear(step + 1),
            old(self).depth >= 1,
            old(self).user_cell(0, step as int) != 0,
        ensures
            final(self).well_formed(),
            final(self).depth == old(self).depth,
            final(self).max_depth == old(self).max_depth,
            final(self).secret_inputs_a == old(self).secret_inputs_a,
            final(self).secret_inputs_b == old(self).secret_inputs_b,
            StackTrace::frame(old(self), final(self), step as int),
            final(self).user_cell(0, step + 1) == finv(old(self).user_cell(0, step as int) as int),
            forall|i: int|
                1 <= i < old(self).depth ==> #[trigger] final(self).user_cell(i, step + 1) == old(
                    self,
                ).user_cell(i, step as int),
            forall|i: int|
                old(self).depth <= i < old(self).width()
                    ==> #[trigger] final(self).user_cell(i, step + 1) == 0,
    {
        proof {
            crate::utils::lemma_vec_len_bound(self.aux_registers@[0]);
        }
        let x = self.user_registers[0][step];
        self.user_registers[0][step + 1] = field::inv(x);
        self.copy_state(step, 1);
    }

    /// NEG: replaces the top stack value with its additive inverse.
    pub fn neg(&mut self, step: usize)
        requires
            old(self).well_formed(),
            step + 1 < old(self).trace_len(),
            old(self).row_clear(step + 1),
            old(self).depth >= 1,
        ensures
            final(self).well_formed(),
            final(self).depth == old(self).depth,
            final(self).max_depth == old(self).max_depth,
            final(self).secret_inputs_a == old(self).secret_inputs_a,
            final(self).secret_inputs_b == old(self).secret_inputs_b,
            StackTrace::frame(old(self), final(self), step as int),
            final(self).user_cell(0, step + 1) == field::fneg(
                old(self).user_cell(0, step as int) as int,
            ),
            forall|i: int|
                1 <= i < old(self).depth ==> #[trigger] final(self).user_cell(i, step + 1) == old(
                    self,
                ).user_cell(i, step as int),
            forall|i: int|
                old(self).depth <= i < old(self).width()
                    ==> #[trigger] final(self).user_cell(i, step + 1) == 0,
    {
        proof {
            crate::utils::lemma_vec_len_bound(self.aux_registers@[0]);
        }
        let x = self.user_registers[0][step];
        self.user_registers[0][step + 1] = field::neg(x);
        self.copy_state(step, 1);
    }

    /// NOT: replaces the binary top stack value with its complement.
    pub fn not(&mut self, step: usize)
        requires
            old(self).well_formed(),
            step + 1 < old(self).trace_len(),
            old(self).row_clear(step + 1),
            old(self).depth >= 1,
            old(self).user_cell(0, step as int) == 0 || old(self).user_cell(0, step as int) == 1,
        ensures
            final(self).well_formed(),
            final(self).depth == old(self).depth,
            final(self).max_depth == old(self).max_depth,
            final(self).secret_inputs_a == old(self).secret_inputs_a,
            final(self).secret_inputs_b == old(self).secret_inputs_b,
            StackTrace::frame(old(self), final(self), step as int),
            final(self).user_cell(0, step + 1) == fsub(
                1,
                old(self).user_cell(0, step as int) as int,
            ),
            forall|i: int|
                1 <= i < old(self).depth ==> #[trigger] final(self).user_cell(i, step + 1) == old(
                    self,
                ).user_cell(i, step as int),
            forall|i: int|
                old(self).depth <= i < old(self).width()
                    ==> #[trigger] final(self).user_cell(i, step + 1) == 0,
    {
        proof {
            crate::utils::lemma_vec_len_bound(self.aux_registers@[0]);
        }
        let x = self.user_registers[0][step];
        self.user_registers[0][step + 1] = field::sub(field::ONE, x);
        self.copy_state(step, 1);
    }

    /// EQ: tests the top two stack values for equality, leaving the test
    /// bit on the stack and the equality witness in auxiliary column 0 of
    /// the current row. The witness is 1 on equal values and otherwise the
    /// Fermat power [`finv`] of the difference; the witness identity
    /// (x - y) * aux == 1 - result rests on the primality of the modulus
    /// and is not derived here (see [`crate::field::inv`]).
    pub fn eq(&mut self, step: usize)
        requires
            old(self).well_formed(),
            step + 1 < old(self).trace_len(),
            old(self).row_clear(step + 1),
            step < old(self).trace_len(),
            old(self).depth >= 2,
        ensures
            final(self).well_formed(),
            final(self).depth == old(self).depth - 1,
            final(self).max_depth == old(self).max_depth,
            final(self).secret_inputs_a == old(self).secret_inputs_a,
            final(self).secret_inputs_b == old(self).secret_inputs_b,
            final(self).width() == old(self).width(),
            final(self).trace_len() == old(self).trace_len(),
            final(self).aux_registers@.len() == old(self).aux_registers@.len(),
            final(self).aux_registers@[1] == old(self).aux_registers@[1],
            final(self).aux_registers@[0]@ == old(self).aux_registers@[0]@.update(
                step as int,
                (if old(self).user_cell(0, step as int) == old(self).user_cell(1, step as int) {
                    1u128
                } else {
                    finv(fsub(
                        old(self).user_cell(0, step as int) as int,
                        old(self).user_cell(1, step as int) as int,
                    )) as u128
                }),
            ),
            forall|i: int, s: int|
                0 <= i < old(self).width() && 0 <= s < old(self).trace_len() && s != step + 1
                    ==> #[trigger] final(self).user_cell(i, s) == old(self).user_cell(i, s),
            final(self).user_cell(0, step + 1) == (if old(self).user_cell(0, step as int) == old(
                self,
            ).user_cell(1, step as int) {
                1u128
            } else {
                0u128
            }),
            forall|i: int|
                1 <= i < old(self).depth - 1 ==> #[trigger] final(self).user_cell(i, step + 1)
                    == old(self).user_cell(i + 1, step as int),
            forall|i: int|
                old(self).depth - 1 <= i < old(self).width()
                    ==> #[trigger] final(self).user_cell(i, step + 1) == 0,
    {
        proof {
            crate::utils::lemma_vec_len_bound(self.aux_registers@[0]);
        }
        let x = self.user_registers[0][step];
        let y = self.user_registers[1][step];
        if x == y {
            self.aux_registers[0][step] = field::ONE;
            self.user_registers[0][step + 1] = field::ONE;
        } else {
            let diff = field::sub(x, y);
            self.aux_registers[0][step] = field::inv(diff);
            self.user_registers[0][step + 1] = field::ZERO;
        }
        self.shift_left(step, 2, 1);
    }

    /// CMP: consumes one bit from each secret queue, accumulating the bit
    /// weights and updating the greater-than / less-than latches.
    pub fn cmp(&mut self, step: usize)
        requires
            old(self).well_formed(),
            step + 1 < old(self).trace_len(),
            old(self).row_clear(step + 1),
            old(self).depth >= 8,
            old(self).secret_inputs_a@.len() > 0,
            old(self).secret_inputs_b@.len() > 0,
            old(self).secret_inputs_a@.last() == 0 || old(self).secret_inputs_a@.last() == 1,
            old(self).secret_inputs_b@.last() == 0 || old(self).secret_inputs_b@.last() == 1,
        ensures
            final(self).well_formed(),
            final(self).depth == old(self).depth,
            final(self).max_depth == old(self).max_depth,
            final(self).secret_inputs_a@ == old(self).secret_inputs_a@.drop_last(),
            final(self).secret_inputs_b@ == old(self).secret_inputs_b@.drop_last(),
            final(self).width() == old(self).width(),
            final(self).trace_len() == old(self).trace_len(),
            final(self).aux_registers == old(self).aux_registers,
            forall|i: int, s: int|
                0 <= i < old(self).width() && 0 <= s < old(self).trace_len() && s != step + 1
                    ==> #[trigger] final(self).user_cell(i, s) == old(self).user_cell(i, s),
            ({
                let a_bit = old(self).secret_inputs_a@.last() as int;
                let b_bit = old(self).secret_inputs_b@.last() as int;
                let bit_gt = fmul(a_bit, fsub(1, b_bit));
                let bit_lt = fmul(b_bit, fsub(1, a_bit));
                let gt = old(self).user_cell(2, step as int) as int;
                let lt = old(self).user_cell(3, step as int) as int;
                let not_set = fmul(fsub(1, gt), fsub(1, lt));
                let power_of_two = field::fexp(2, (127 - (step % 128)) as nat);
                &&& final(self).user_cell(0, step + 1) == a_bit
                &&& final(self).user_cell(1, step + 1) == b_bit
                &&& final(self).user_cell(2, step + 1) == fadd(gt, fmul(bit_gt, not_set))
                &&& final(self).user_cell(3, step + 1) == fadd(lt, fmul(bit_lt, not_set))
                &&& final(self).user_cell(4, step + 1) == fadd(
                    old(self).user_cell(4, step as int) as int,
                    fmul(a_bit, power_of_two),
                )
                &&& final(self).user_cell(5, step + 1) == fadd(
                    old(self).user_cell(5, step as int) as int,
                    fmul(b_bit, power_of_two),
                )
            }),
            forall|i: int|
                6 <= i < old(self).depth ==> #[trigger] final(self).user_cell(i, step + 1) == old(
                    self,
                ).user_cell(i, step as int),
            forall|i: int|
                old(self).depth <= i < old(self).width()
                    ==> #[trigger] final(self).user_cell(i, step + 1) == 0,
    {
        proof {
            crate::utils::lemma_vec_len_bound(self.aux_registers@[0]);
        }
        let a_bit = self.secret_inputs_a.pop().unwrap();
        let b_bit = self.secret_inputs_b.pop().unwrap();

        let bit_gt = field::mul(a_bit, field::sub(field::ONE, b_bit));
        let bit_lt = field::mul(b_bit, field::sub(field::ONE, a_bit));

        let gt = self.user_registers[2][step];
        let lt = self.user_registers[3][step];
        let not_set = field::mul(field::sub(field::ONE, gt), field::sub(field::ONE, lt));
        let exponent = 127 - (step % 128);
        let power_of_two = field::exp(2, exponent as u128);

        let acc_a = self.user_registers[4][step];
        let acc_b = self.user_registers[5][step];
        self.user_registers[0][step + 1] = a_bit;
        self.user_registers[1][step + 1] = b_bit;
        self.user_registers[2][step + 1] = field::add(gt, field::mul(bit_gt, not_set));
        self.user_registers[3][step + 1] = field::add(lt, field::mul(bit_lt, not_set));
        self.user_registers[4][step + 1] = field::add(acc_a, field::mul(a_bit, power_of_two));
        self.user_registers[5][step + 1] = field::add(acc_b, field::mul(b_bit, power_of_two));

        self.copy_state(step, 6);
    }

    /// HASHR: applies one round of the sponge permutation to the top six
    /// stack values.
    pub fn hashr(&mut self, step: usize)
        requires
            old(self).well_formed(),
            step + 1 < old(self).trace_len(),
            old(self).row_clear(step + 1),
            old(self).depth >= HASH_STATE_WIDTH,
        ensures
            final(self).well_formed(),
            final(self).depth == old(self).depth,
            final(self).max_depth == old(self).max_depth,
            final(self).secret_inputs_a == old(self).secret_inputs_a,
            final(self).secret_inputs_b == old(self).secret_inputs_b,
            StackTrace::frame(old(self), final(self), step as int),
            ({
                let sponge_in = Seq::new(6, |i: int| old(self).user_cell(i, step as int));
                forall|i: int|
                    0 <= i < 6 ==> #[trigger] final(self).user_cell(i, step + 1) == hash::round(
                        sponge_in,
                        step as int,
                    )[i]
            }),
            forall|i: int|
                6 <= i < old(self).depth ==> #[trigger] final(self).user_cell(i, step + 1) == old(
                    self,
                ).user_cell(i, step as int),
            forall|i: int|
                old(self).depth <= i < old(self).width()
                    ==> #[trigger] final(self).user_cell(i, step + 1) == 0,
    {
        proof {
            crate::utils::lemma_vec_len_bound(self.aux_registers@[0]);
        }
        let mut state: [u128; 6] = [
            self.user_registers[0][step],
            self.user_registers[1][step],
            self.user_registers[2][step],
            self.user_registers[3][step],
            self.user_registers[4][step],
            self.user_registers[5][step],
        ];
        proof {
            assert(state@ =~= Seq::new(6, |i: int| old(self).user_cell(i, step as int)));
        }

        hash::apply_round(&mut state, step);

        self.user_registers[0][step + 1] = state[0];
        self.user_registers[1][step + 1] = state[1];
        self.user_registers[2][step + 1] = state[2];
        self.user_registers[3][step + 1] = state[3];
        self.user_registers[4][step + 1] = state[4];
        self.user_registers[5][step + 1] = state[5];

        self.copy_state(step, HASH_STATE_WIDTH);
    }

    // HELPER METHODS
    // ----------------------------------------------------------------------

    /// Copies stack slots `start..depth` of row `step` into row `step + 1`.
    fn copy_state(&mut self, step: usize, start: usize)
        requires
            old(self).well_formed(),
            step + 1 < old(self).trace_len(),
            start <= old(self).depth,
        ensures
            final(self).well_formed(),
            final(self).depth == old(self).depth,
            final(self).max_depth == old(self).max_depth,
            final(self).secret_inputs_a == old(self).secret_inputs_a,
            final(self).secret_inputs_b == old(self).secret_inputs_b,
            StackTrace::frame(old(self), final(self), step as int),
            forall|i: int|
                start <= i < old(self).depth ==> #[trigger] final(self).user_cell(i, step + 1)
                    == old(self).user_cell(i, step as int),
            forall|i: int|
                0 <= i < old(self).width() && !(start <= i < old(self).depth)
                    ==> #[trigger] final(self).user_cell(i, step + 1) == old(self).user_cell(
                    i,
                    step + 1,
                ),
    {
        let ghost pre = *self;
        proof {
            crate::utils::lemma_vec_len_bound(self.aux_registers@[0]);
        }
        let next_row = step + 1;
        let mut i: usize = start;
        while i < self.depth
            invariant
                start <= i <= pre.depth,
                self.depth == pre.depth,
                self.max_depth == pre.max_depth,
                self.secret_inputs_a == pre.secret_inputs_a,
                self.secret_inputs_b == pre.secret_inputs_b,
                self.aux_registers == pre.aux_registers,
                self.user_registers@.len() == pre.width(),
                pre.well_formed(),
                step + 1 < pre.trace_len(),
                forall|k: int|
                    0 <= k < pre.width() ==> (#[trigger] self.user_registers@[k])@.len()
                        == pre.trace_len(),
                forall|k: int, s: int|
                    0 <= k < pre.width() && 0 <= s < pre.trace_len() && s != step + 1
                        ==> #[trigger] self.user_cell(k, s) == pre.user_cell(k, s),
                forall|k: int|
                    start <= k < i ==> #[trigger] self.user_cell(k, step + 1) == pre.user_cell(
                        k,
                        step as int,
                    ),
                forall|k: int|
                    0 <= k < pre.width() && !(start <= k < i) ==> #[trigger] self.user_cell(
                        k,
                        step + 1,
                    ) == pre.user_cell(k, step + 1),
                next_row == step + 1,
            decreases pre.depth - i,
        {
            let slot_value = self.user_registers[i][step];
            self.user_registers[i][next_row] = slot_value;
            i = i + 1;
        }
    }

    /// Moves stack slots `start..depth` of row `step` down by `pos_count`
    /// into row `step + 1`, zeroes the freed top slots, and shrinks the
    /// depth.
    fn shift_left(&mut self, step: usize, start: usize, pos_count: usize)
        requires
            old(self).well_formed(),
            step + 1 < old(self).trace_len(),
            1 <= pos_count <= start,
            start <= old(self).depth,
        ensures
            final(self).well_formed(),
            final(self).depth == old(self).depth - pos_count,
            final(self).max_depth == old(self).max_depth,
            final(self).secret_inputs_a == old(self).secret_inputs_a,
            final(self).secret_inputs_b == old(self).secret_inputs_b,
            StackTrace::frame(old(self), final(self), step as int),
            forall|i: int|
                start - pos_count <= i < old(self).depth - pos_count
                    ==> #[trigger] final(self).user_cell(i, step + 1) == old(self).user_cell(
                    i + pos_count,
                    step as int,
                ),
            forall|i: int|
                old(self).depth - pos_count <= i < old(self).depth
                    ==> #[trigger] final(self).user_cell(i, step + 1) == 0,
            forall|i: int|
                0 <= i < old(self).width() && !(start - pos_count <= i < old(self).depth)
                    ==> #[trigger] final(self).user_cell(i, step + 1) == old(self).user_cell(
                    i,
                    step + 1,
                ),
    {
        let ghost pre = *self;
        proof {
            crate::utils::lemma_vec_len_bound(self.aux_registers@[0]);
        }
        let next_row = step + 1;

        // shift all values by pos_count to the left
        let mut i: usize = start;
        while i < self.depth
            invariant
                start <= i <= pre.depth,
                *self == (StackTrace { user_registers: self.user_registers, ..pre }),
                self.user_registers@.len() == pre.width(),
                pre.well_formed(),
                step + 1 < pre.trace_len(),
                1 <= pos_count <= start,
                start <= pre.depth,
                next_row == step + 1,
                forall|k: int|
                    0 <= k < pre.width() ==> (#[trigger] self.user_registers@[k])@.len()
                        == pre.trace_len(),
                forall|k: int, s: int|
                    0 <= k < pre.width() && 0 <= s < pre.trace_len() && s != step + 1
                        ==> #[trigger] self.user_cell(k, s) == pre.user_cell(k, s),
                forall|k: int|
                    start - pos_count <= k < i - pos_count ==> #[trigger] self.user_cell(
                        k,
                        step + 1,
                    ) == pre.user_cell(k + pos_count, step as int),
                forall|k: int|
                    0 <= k < pre.width() && !(start - pos_count <= k < i - pos_count)
                        ==> #[trigger] self.user_cell(k, step + 1) == pre.user_cell(k, step + 1),
            decreases pre.depth - i,
        {
            let slot_value = self.user_registers[i][step];
            self.user_registers[i - pos_count][next_row] = slot_value;
            i = i + 1;
        }

        // set all "shifted-in" slots to 0
        let ghost mid = *self;
        let mut i: usize = self.depth - pos_count;
        while i < self.depth
            invariant
                pre.depth - pos_count <= i <= pre.depth,
                *self == (StackTrace { user_registers: self.user_registers, ..pre }),
                self.user_registers@.len() == pre.width(),
                pre.well_formed(),
                step + 1 < pre.trace_len(),
                1 <= pos_count <= start,
                start <= pre.depth,
                next_row == step + 1,
                forall|k: int|
                    0 <= k < pre.width() ==> (#[trigger] self.user_registers@[k])@.len()
                        == pre.trace_len(),
                forall|k: int, s: int|
                    0 <= k < pre.width() && 0 <= s < pre.trace_len() && s != step + 1
                        ==> #[trigger] self.user_cell(k, s) == pre.user_cell(k, s),
                forall|k: int|
                    pre.depth - pos_count <= k < i ==> #[trigger] self.user_cell(k, step + 1) == 0,
                forall|k: int|
                    0 <= k < pre.width() && !(pre.depth - pos_count <= k < i)
                        ==> #[trigger] self.user_cell(k, step + 1) == mid.user_cell(k, step + 1),
            decreases pre.depth - i,
        {
            self.user_registers[i][next_row] = field::ZERO;
            i = i + 1;
        }

        // stack depth has been reduced by pos_count
        self.depth = self.depth - pos_count;
    }

    /// Moves stack slots `start..depth` of row `step` up by `pos_count`
    /// into row `step + 1`, growing the depth, the observed maximum and,
    /// when needed, the allocated columns.
    fn shift_right(&mut self, step: usize, start: usize, pos_count: usize)
        requires
            old(self).well_formed(),
            step + 1 < old(self).trace_len(),
            pos_count >= 1,
            start <= old(self).depth,
            old(self).depth + pos_count <= MAX_USER_STACK_DEPTH,
        ensures
            final(self).well_formed(),
            final(self).depth == old(self).depth + pos_count,
            final(self).max_depth == (if old(self).depth + pos_count > old(self).max_depth {
                old(self).depth + pos_count
            } else {
                old(self).max_depth as int
            }),
            final(self).width() == (if final(self).max_depth > old(self).width() {
                final(self).max_depth as int
            } else {
                old(self).width()
            }),
            final(self).trace_len() == old(self).trace_len(),
            final(self).aux_registers == old(self).aux_registers,
            final(self).secret_inputs_a == old(self).secret_inputs_a,
            final(self).secret_inputs_b == old(self).secret_inputs_b,
            forall|i: int, s: int|
                0 <= i < old(self).width() && 0 <= s < old(self).trace_len() && s != step + 1
                    ==> #[trigger] final(self).user_cell(i, s) == old(self).user_cell(i, s),
            forall|i: int, s: int|
                old(self).width() <= i < final(self).width() && 0 <= s < old(self).trace_len() && s
                    != step + 1 ==> #[trigger] final(self).user_cell(i, s) == 0,
            forall|i: int|
                start + pos_count <= i < old(self).depth + pos_count
                    ==> #[trigger] final(self).user_cell(i, step + 1) == old(self).user_cell(
                    i - pos_count,
                    step as int,
                ),
            forall|i: int|
                0 <= i < old(self).width() && !(start + pos_count <= i < old(self).depth
                    + pos_count) ==> #[trigger] final(self).user_cell(i, step + 1) == old(
                    self,
                ).user_cell(i, step + 1),
            forall|i: int|
                old(self).width() <= i < final(self).width() && !(start + pos_count <= i < old(
                    self,
                ).depth + pos_count) ==> #[trigger] final(self).user_cell(i, step + 1) == 0,
    {
        let ghost pre = *self;
        proof {
            crate::utils::lemma_vec_len_bound(self.aux_registers@[0]);
        }
        let next_row = step + 1;

        self.depth = self.depth + pos_count;

        if self.depth > self.max_depth {
            self.max_depth = self.depth;
            if self.max_depth > self.user_registers.len() {
                let num_new = self.max_depth - self.user_registers.len();
                self.add_registers(num_new);
            }
        }
        let ghost grown = *self;

        let mut i: usize = start;
        while i < self.depth - pos_count
            invariant
                start <= i <= pre.depth,
                *self == (StackTrace { user_registers: self.user_registers, ..grown }),
                self.depth == pre.depth + pos_count,
                self.user_registers@.len() == grown.width(),
                grown.width() >= pre.width(),
                pre.well_formed(),
                step + 1 < pre.trace_len(),
                pos_count >= 1,
                start <= pre.depth,
                pre.depth + pos_count <= grown.width(),
                next_row == step + 1,
                grown.trace_len() == pre.trace_len(),
                grown.aux_registers == pre.aux_registers,
                forall|k: int|
                    0 <= k < grown.width() ==> (#[trigger] self.user_registers@[k])@.len()
                        == pre.trace_len(),
                forall|k: int, s: int|
                    0 <= k < pre.width() && 0 <= s < pre.trace_len() && s != step + 1
                        ==> #[trigger] self.user_cell(k, s) == pre.user_cell(k, s),
                forall|k: int, s: int|
                    pre.width() <= k < grown.width() && 0 <= s < pre.trace_len() && s != step + 1
                        ==> #[trigger] self.user_cell(k, s) == 0,
                forall|k: int|
                    start + pos_count <= k < i + pos_count ==> #[trigger] self.user_cell(
                        k,
                        step + 1,
                    ) == pre.user_cell(k - pos_count, step as int),
                forall|k: int|
                    0 <= k < pre.width() && !(start + pos_count <= k < i + pos_count)
                        ==> #[trigger] self.user_cell(k, step + 1) == pre.user_cell(k, step + 1),
                forall|k: int|
                    pre.width() <= k < grown.width() && !(start + pos_count <= k < i + pos_count)
                        ==> #[trigger] self.user_cell(k, step + 1) == 0,
            decreases pre.depth - i,
        {
            let slot_value = self.user_registers[i][step];
            self.user_registers[i + pos_count][next_row] = slot_value;
            i = i + 1;
        }
    }

    /// Extends the stack by the specified number of zero-filled registers.
    fn add_registers(&mut self, num_registers: usize)
        requires
            old(self).columns_consistent(),
            old(self).cells_canonical(),
            old(self).width() >= 1,
            old(self).width() + num_registers <= MAX_USER_STACK_DEPTH,
        ensures
            final(self).columns_consistent(),
            final(self).cells_canonical(),
            final(self).width() == old(self).width() + num_registers,
            final(self).trace_len() == old(self).trace_len(),
            final(self).aux_registers == old(self).aux_registers,
            final(self).secret_inputs_a == old(self).secret_inputs_a,
            final(self).secret_inputs_b == old(self).secret_inputs_b,
            final(self).depth == old(self).depth,
            final(self).max_depth == old(self).max_depth,
            forall|i: int|
                0 <= i < old(self).width() ==> #[trigger] final(self).user_registers@[i] == old(
                    self,
                ).user_registers@[i],
            forall|i: int, s: int|
                old(self).width() <= i < final(self).width() && 0 <= s < old(self).trace_len()
                    ==> #[trigger] final(self).user_cell(i, s) == 0,
    {
        let ghost pre = *self;
        let trace_length = self.user_registers[0].len();
        let mut j: usize = 0;
        while j < num_registers
            invariant
                j <= num_registers,
                *self == (StackTrace { user_registers: self.user_registers, ..pre }),
                trace_length == pre.trace_len(),
                pre.columns_consistent(),
                pre.cells_canonical(),
                pre.width() >= 1,
                self.user_registers@.len() == pre.width() + j,
                forall|i: int|
                    0 <= i < pre.width() ==> #[trigger] self.user_registers@[i]
                        == pre.user_registers@[i],
                forall|i: int|
                    pre.width() <= i < pre.width() + j ==> (#[trigger] self.user_registers@[i])@
                        =~= Seq::new(pre.trace_len() as nat, |s: int| 0u128),
            decreases num_registers - j,
        {
            let register = filled_vector(trace_length, trace_length, field::ZERO);
            proof {
                assert(register@ =~= Seq::new(pre.trace_len() as nat, |s: int| 0u128));
            }
            self.user_registers.push(register);
            j = j + 1;
        }
    }
}

/// Performs one BEGIN/NOOP operation at slot `i` and carries the
/// trace-building invariant to slot `i + 1`.
#[verifier::rlimit(100)]
fn build_step_noop(
    stack: &mut StackTrace,
    program: &Vec<u128>,
    i: usize,
    Ghost(init): Ghost<VmState>,
    Ghost(isd): Ghost<int>,
)
    requires
        trace_build_inv(*old(stack), program@, init, isd, i as int),
        !vm_is_imm(program@, i as int),
        i < program@.len() - 1,
        program@[i as int] == crate::opcodes::BEGIN || program@[i as int] == crate::opcodes::NOOP,
    ensures
        trace_build_inv(*final(stack), program@, init, isd, i + 1),
{
    proof {
        assert(vm_step_ok(program@, init, i as int));
        lemma_vm_state_at_inv(program@, init, i as int);
        assert(row_matches(*stack, vm_state_at(program@, init, i as int), i as int));
        assert(stack.row_clear(i + 1));
    }
    let ghost pre = *stack;
    stack.noop(i);
    proof {
        lemma_build_noop(pre, *stack, program@, init, isd, i as int);
    }
}

/// Performs one ASSERT operation at slot `i` and carries the
/// trace-building invariant to slot `i + 1`.
#[verifier::rlimit(100)]
fn build_step_assert_op(
    stack: &mut StackTrace,
    program: &Vec<u128>,
    i: usize,
    Ghost(init): Ghost<VmState>,
    Ghost(isd): Ghost<int>,
)
    requires
        trace_build_inv(*old(stack), program@, init, isd, i as int),
        !vm_is_imm(program@, i as int),
        i < program@.len() - 1,
        program@[i as int] == crate::opcodes::ASSERT,
    ensures
        trace_build_inv(*final(stack), program@, init, isd, i + 1),
{
    proof {
        assert(vm_step_ok(program@, init, i as int));
        lemma_vm_state_at_inv(program@, init, i as int);
        assert(row_matches(*stack, vm_state_at(program@, init, i as int), i as int));
        assert(stack.row_clear(i + 1));
    }
    let ghost pre = *stack;
    stack.assert_op(i);
    proof {
        lemma_build_assert_op(pre, *stack, program@, init, isd, i as int);
    }
}

/// Performs one READ operation at slot `i` and carries the
/// trace-building invariant to slot `i + 1`.
#[verifier::rlimit(100)]
fn build_step_read(
    stack: &mut StackTrace,
    program: &Vec<u128>,
    i: usize,
    Ghost(init): Ghost<VmState>,
    Ghost(isd): Ghost<int>,
)
    requires
        trace_build_inv(*old(stack), program@, init, isd, i as int),
        !vm_is_imm(program@, i as int),
        i < program@.len() - 1,
        program@[i as int] == crate::opcodes::READ,
    ensures
        trace_build_inv(*final(stack), program@, init, isd, i + 1),
{
    proof {
        assert(vm_step_ok(program@, init, i as int));
        lemma_vm_state_at_inv(program@, init, i as int);
        assert(row_matches(*stack, vm_state_at(program@, init, i as int), i as int));
        assert(stack.row_clear(i + 1));
    }
    let ghost pre = *stack;
    stack.read(i);
    proof {
        lemma_build_read(pre, *stack, program@, init, isd, i as int);
    }
}

/// Performs one READ2 operation at slot `i` and carries the
/// trace-building invariant to slot `i + 1`.
#[verifier::rlimit(100)]
fn build_step_read2(
    stack: &mut StackTrace,
    program: &Vec<u128>,
    i: usize,
    Ghost(init): Ghost<VmState>,
    Ghost(isd): Ghost<int>,
)
    requires
        trace_build_inv(*old(stack), program@, init, isd, i as int),
        !vm_is_imm(program@, i as int),
        i < program@.len() - 1,
        program@[i as int] == crate::opcodes::READ2,
    ensures
        trace_build_inv(*final(stack), program@, init, isd, i + 1),
{
    proof {
        assert(vm_step_ok(program@, init, i as int));
        lemma_vm_state_at_inv(program@, init, i as int);
        assert(row_matches(*stack, vm_state_at(program@, init, i as int), i as int));
        assert(stack.row_clear(i + 1));
    }
    let ghost pre = *stack;
    stack.read2(i);
    proof {
        lemma_build_read2(pre, *stack, program@, init, isd, i as int);
    }
}

/// Performs one DROP operation at slot `i` and carries the
/// trace-building invariant to slot `i + 1`.
#[verifier::rlimit(100)]
fn build_step_drop(
    stack: &mut StackTrace,
    program: &Vec<u128>,
    i: usize,
    Ghost(init): Ghost<VmState>,
    Ghost(isd): Ghost<int>,
)
    requires
        trace_build_inv(*old(stack), program@, init, isd, i as int),
        !vm_is_imm(program@, i as int),
        i < program@.len() - 1,
        program@[i as int] == crate::opcodes::DROP,
    ensures
        trace_build_inv(*final(stack), program@, init, isd, i + 1),
{
    proof {
        assert(vm_step_ok(program@, init, i as int));
        lemma_vm_state_at_inv(program@, init, i as int);
        assert(row_matches(*stack, vm_state_at(program@, init, i as int), i as int));
        assert(stack.row_clear(i + 1));
    }
    let ghost pre = *stack;
    stack.drop(i);
    proof {
        lemma_build_drop(pre, *stack, program@, init, isd, i as int);
    }
}

/// Performs one DROP4 operation at slot `i` and carries the
/// trace-building invariant to slot `i + 1`.
#[verifier::rlimit(100)]
fn build_step_drop4(
    stack: &mut StackTrace,
    program: &Vec<u128>,
    i: usize,
    Ghost(init): Ghost<VmState>,
    Ghost(isd): Ghost<int>,
)
    requires
        trace_build_inv(*old(stack), program@, init, isd, i as int),
        !vm_is_imm(program@, i as int),
        i < program@.len() - 1,
        program@[i as int] == crate::opcodes::DROP4,
    ensures
        trace_build_inv(*final(stack), program@, init, isd, i + 1),
{
    proof {
        assert(vm_step_ok(program@, init, i as int));
        lemma_vm_state_at_inv(program@, init, i as int);
        assert(row_matches(*stack, vm_state_at(program@, init, i as int), i as int));
        assert(stack.row_clear(i + 1));
    }
    let ghost pre = *stack;
    stack.drop4(i);
    proof {
        lemma_build_drop4(pre, *stack, program@, init, isd, i as int);
    }
}

/// Performs one DUP operation at slot `i` and carries the
/// trace-building invariant to slot `i + 1`.
#[verifier::rlimit(100)]
fn build_step_dup(
    stack: &mut StackTrace,
    program: &Vec<u128>,
    i: usize,
    Ghost(init): Ghost<VmState>,
    Ghost(isd): Ghost<int>,
)
    requires
        trace_build_inv(*old(stack), program@, init, isd, i as int),
        !vm_is_imm(program@, i as int),
        i < program@.len() - 1,
        program@[i as int] == crate::opcodes::DUP,
    ensures
        trace_build_inv(*final(stack), program@, init, isd, i + 1),
{
    proof {
        assert(vm_step_ok(program@, init, i as int));
        lemma_vm_state_at_inv(program@, init, i as int);
        assert(row_matches(*stack, vm_state_at(program@, init, i as int), i as int));
        assert(stack.row_clear(i + 1));
    }
    let ghost pre = *stack;
    stack.dup(i);
    proof {
        lemma_build_dup(pre, *stack, program@, init, isd, i as int);
    }
}

/// Performs one DUP2 operation at slot `i` and carries the
/// trace-building invariant to slot `i + 1`.
#[verifier::rlimit(100)]
fn build_step_dup2(
    stack: &mut StackTrace,
    program: &Vec<u128>,
    i: usize,
    Ghost(init): Ghost<VmState>,
    Ghost(isd): Ghost<int>,
)
    requires
        trace_build_inv(*old(stack), program@, init, isd, i as int),
        !vm_is_imm(program@, i as int),
        i < program@.len() - 1,
        program@[i as int] == crate::opcodes::DUP2,
    ensures
        trace_build_inv(*final(stack), program@, init, isd, i + 1),
{
    proof {
        assert(vm_step_ok(program@, init, i as int));
        lemma_vm_state_at_inv(program@, init, i as int);
        assert(row_matches(*stack, vm_state_at(program@, init, i as int), i as int));
        assert(stack.row_clear(i + 1));
    }
    let ghost pre = *stack;
    stack.dup2(i);
    proof {
        lemma_build_dup2(pre, *stack, program@, init, isd, i as int);
    }
}

/// Performs one DUP4 operation at slot `i` and carries the
/// trace-building invariant to slot `i + 1`.
#[verifier::rlimit(100)]
fn build_step_dup4(
    stack: &mut StackTrace,
    program: &Vec<u128>,
    i: usize,
    Ghost(init): Ghost<VmState>,
    Ghost(isd): Ghost<int>,
)
    requires
        trace_build_inv(*old(stack), program@, init, isd, i as int),
        !vm_is_imm(program@, i as int),
        i < program@.len() - 1,
        program@[i as int] == crate::opcodes::DUP4,
    ensures
        trace_build_inv(*final(stack), program@, init, isd, i + 1),
{
    proof {
        assert(vm_step_ok(program@, init, i as int));
        lemma_vm_state_at_inv(program@, init, i as int);
        assert(row_matches(*stack, vm_state_at(program@, init, i as int), i as int));
        assert(stack.row_clear(i + 1));
    }
    let ghost pre = *stack;
    stack.dup4(i);
    proof {
        lemma_build_dup4(pre, *stack, program@, init, isd, i as int);
    }
}

/// Performs one PAD2 operation at slot `i` and carries the
/// trace-building invariant to slot `i + 1`.
#[verifier::rlimit(100)]
fn build_step_pad2(
    stack: &mut StackTrace,
    program: &Vec<u128>,
    i: usize,
    Ghost(init): Ghost<VmState>,
    Ghost(isd): Ghost<int>,
)
    requires
        trace_build_inv(*old(stack), program@, init, isd, i as int),
        !vm_is_imm(program@, i as int),
        i < program@.len() - 1,
        program@[i as int] == crate::opcodes::PAD2,
    ensures
        trace_build_inv(*final(stack), program@, init, isd, i + 1),
{
    proof {
        assert(vm_step_ok(program@, init, i as int));
        lemma_vm_state_at_inv(program@, init, i as int);
        assert(row_matches(*stack, vm_state_at(program@, init, i as int), i as int));
        assert(stack.row_clear(i + 1));
    }
    let ghost pre = *stack;
    stack.pad2(i);
    proof {
        lemma_build_pad2(pre, *stack, program@, init, isd, i as int);
    }
}

/// Performs one SWAP operation at slot `i` and carries the
/// trace-building invariant to slot `i + 1`.
#[verifier::rlimit(100)]
fn build_step_swap(
    stack: &mut StackTrace,
    program: &Vec<u128>,
    i: usize,
    Ghost(init): Ghost<VmState>,
    Ghost(isd): Ghost<int>,
)
    requires
        trace_build_inv(*old(stack), program@, init, isd, i as int),
        !vm_is_imm(program@, i as int),
        i < program@.len() - 1,
        program@[i as int] == crate::opcodes::SWAP,
    ensures
        trace_build_inv(*final(stack), program@, init, isd, i + 1),
{
    proof {
        assert(vm_step_ok(program@, init, i as int));
        lemma_vm_state_at_inv(program@, init, i as int);
        assert(row_matches(*stack, vm_state_at(program@, init, i as int), i as int));
        assert(stack.row_clear(i + 1));
    }
    let ghost pre = *stack;
    stack.swap(i);
    proof {
        lemma_build_swap(pre, *stack, program@, init, isd, i as int);
    }
}

/// Performs one SWAP2 operation at slot `i` and carries the
/// trace-building invariant to slot `i + 1`.
#[verifier::rlimit(100)]
fn build_step_swap2(
    stack: &mut StackTrace,
    program: &Vec<u128>,
    i: usize,
    Ghost(init): Ghost<VmState>,
    Ghost(isd): Ghost<int>,
)
    requires
        trace_build_inv(*old(stack), program@, init, isd, i as int),
        !vm_is_imm(program@, i as int),
        i < program@.len() - 1,
        program@[i as int] == crate::opcodes::SWAP2,
    ensures
        trace_build_inv(*final(stack), program@, init, isd, i + 1),
{
    proof {
        assert(vm_step_ok(program@, init, i as int));
        lemma_vm_state_at_inv(program@, init, i as int);
        assert(row_matches(*stack, vm_state_at(program@, init, i as int), i as int));
        assert(stack.row_clear(i + 1));
    }
    let ghost pre = *stack;
    stack.swap2(i);
    proof {
        lemma_build_swap2(pre, *stack, program@, init, isd, i as int);
    }
}

/// Performs one SWAP4 operation at slot `i` and carries the
/// trace-building invariant to slot `i + 1`.
#[verifier::rlimit(100)]
fn build_step_swap4(
    stack: &mut StackTrace,
    program: &Vec<u128>,
    i: usize,
    Ghost(init): Ghost<VmState>,
    Ghost(isd): Ghost<int>,
)
    requires
        trace_build_inv(*old(stack), program@, init, isd, i as int),
        !vm_is_imm(program@, i as int),
        i < program@.len() - 1,
        program@[i as int] == crate::opcodes::SWAP4,
    ensures
        trace_build_inv(*final(stack), program@, init, isd, i + 1),
{
    proof {
        assert(vm_step_ok(program@, init, i as int));
        lemma_vm_state_at_inv(program@, init, i as int);
        assert(row_matches(*stack, vm_state_at(program@, init, i as int), i as int));
        assert(stack.row_clear(i + 1));
    }
    let ghost pre = *stack;
    stack.swap4(i);
    proof {
        lemma_build_swap4(pre, *stack, program@, init, isd, i as int);
    }
}

/// Performs one ROLL4 operation at slot `i` and carries the
/// trace-building invariant to slot `i + 1`.
#[verifier::rlimit(100)]
fn build_step_roll4(
    stack: &mut StackTrace,
    program: &Vec<u128>,
    i: usize,
    Ghost(init): Ghost<VmState>,
    Ghost(isd): Ghost<int>,
)
    requires
        trace_build_inv(*old(stack), program@, init, isd, i as int),
        !vm_is_imm(program@, i as int),
        i < program@.len() - 1,
        program@[i as int] == crate::opcodes::ROLL4,
    ensures
        trace_build_inv(*final(stack), program@, init, isd, i + 1),
{
    proof {
        assert(vm_step_ok(program@, init, i as int));
        lemma_vm_state_at_inv(program@, init, i as int);
        assert(row_matches(*stack, vm_state_at(program@, init, i as int), i as int));
        assert(stack.row_clear(i + 1));
    }
    let ghost pre = *stack;
    stack.roll4(i);
    proof {
        lemma_build_roll4(pre, *stack, program@, init, isd, i as int);
    }
}

/// Performs one ROLL8 operation at slot `i` and carries the
/// trace-building invariant to slot `i + 1`.
#[verifier::rlimit(100)]
fn build_step_roll8(
    stack: &mut StackTrace,
    program: &Vec<u128>,
    i: usize,
    Ghost(init): Ghost<VmState>,
    Ghost(isd): Ghost<int>,
)
    requires
        trace_build_inv(*old(stack), program@, init, isd, i as int),
        !vm_is_imm(program@, i as int),
        i < program@.len() - 1,
        program@[i as int] == crate::opcodes::ROLL8,
    ensures
        trace_build_inv(*final(stack), program@, init, isd, i + 1),
{
    proof {
        assert(vm_step_ok(program@, init, i as int));
        lemma_vm_state_at_inv(program@, init, i as int);
        assert(row_matches(*stack, vm_state_at(program@, init, i as int), i as int));
        assert(stack.row_clear(i + 1));
    }
    let ghost pre = *stack;
    stack.roll8(i);
    proof {
        lemma_build_roll8(pre, *stack, program@, init, isd, i as int);
    }
}

/// Performs one CHOOSE operation at slot `i` and carries the
/// trace-building invariant to slot `i + 1`.
#[verifier::rlimit(100)]
fn build_step_choose_op(
    stack: &mut StackTrace,
    program: &Vec<u128>,
    i: usize,
    Ghost(init): Ghost<VmState>,
    Ghost(isd): Ghost<int>,
)
    requires
        trace_build_inv(*old(stack), program@, init, isd, i as int),
        !vm_is_imm(program@, i as int),
        i < program@.len() - 1,
        program@[i as int] == crate::opcodes::CHOOSE,
    ensures
        trace_build_inv(*final(stack), program@, init, isd, i + 1),
{
    proof {
        assert(vm_step_ok(program@, init, i as int));
        lemma_vm_state_at_inv(program@, init, i as int);
        assert(row_matches(*stack, vm_state_at(program@, init, i as int), i as int));
        assert(stack.row_clear(i + 1));
    }
    let ghost pre = *stack;
    stack.choose_op(i);
    proof {
        lemma_build_choose_op(pre, *stack, program@, init, isd, i as int);
    }
}

/// Performs one CHOOSE2 operation at slot `i` and carries the
/// trace-building invariant to slot `i + 1`.
#[verifier::rlimit(100)]
fn build_step_choose2(
    stack: &mut StackTrace,
    program: &Vec<u128>,
    i: usize,
    Ghost(init): Ghost<VmState>,
    Ghost(isd): Ghost<int>,
)
    requires
        trace_build_inv(*old(stack), program@, init, isd, i as int),
        !vm_is_imm(program@, i as int),
        i < program@.len() - 1,
        program@[i as int] == crate::opcodes::CHOOSE2,
    ensures
        trace_build_inv(*final(stack), program@, init, isd, i + 1),
{
    proof {
        assert(vm_step_ok(program@, init, i as int));
        lemma_vm_state_at_inv(program@, init, i as int);
        assert(row_matches(*stack, vm_state_at(program@, init, i as int), i as int));
        assert(stack.row_clear(i + 1));
    }
    let ghost pre = *stack;
    stack.choose2(i);
    proof {
        lemma_build_choose2(pre, *stack, program@, init, isd, i as int);
    }
}

/// Performs one ADD operation at slot `i` and carries the
/// trace-building invariant to slot `i + 1`.
#[verifier::rlimit(100)]
fn build_step_add(
    stack: &mut StackTrace,
    program: &Vec<u128>,
    i: usize,
    Ghost(init): Ghost<VmState>,
    Ghost(isd): Ghost<int>,
)
    requires
        trace_build_inv(*old(stack), program@, init, isd, i as int),
        !vm_is_imm(program@, i as int),
        i < program@.len() - 1,
        program@[i as int] == crate::opcodes::ADD,
    ensures
        trace_build_inv(*final(stack), program@, init, isd, i + 1),
{
    proof {
        assert(vm_step_ok(program@, init, i as int));
        lemma_vm_state_at_inv(program@, init, i as int);
        assert(row_matches(*stack, vm_state_at(program@, init, i as int), i as int));
        assert(stack.row_clear(i + 1));
    }
    let ghost pre = *stack;
    stack.add(i);
    proof {
        lemma_build_add(pre, *stack, program@, init, isd, i as int);
    }
}

/// Performs one MUL operation at slot `i` and carries the
/// trace-building invariant to slot `i + 1`.
#[verifier::rlimit(100)]
fn build_step_mul(
    stack: &mut StackTrace,
    program: &Vec<u128>,
    i: usize,
    Ghost(init): Ghost<VmState>,
    Ghost(isd): Ghost<int>,
)
    requires
        trace_build_inv(*old(stack), program@, init, isd, i as int),
        !vm_is_imm(program@, i as int),
        i < program@.len() - 1,
        program@[i as int] == crate::opcodes::MUL,
    ensures
        trace_build_inv(*final(stack), program@, init, isd, i + 1),
{
    proof {
        assert(vm_step_ok(program@, init, i as int));
        lemma_vm_state_at_inv(program@, init, i as int);
        assert(row_matches(*stack, vm_state_at(program@, init, i as int), i as int));
        assert(stack.row_clear(i + 1));
    }
    let ghost pre = *stack;
    stack.mul(i);
    proof {
        lemma_build_mul(pre, *stack, program@, init, isd, i as int);
    }
}

/// Performs one INV operation at slot `i` and carries the
/// trace-building invariant to slot `i + 1`.
#[verifier::rlimit(100)]
fn build_step_inv(
    stack: &mut StackTrace,
    program: &Vec<u128>,
    i: usize,
    Ghost(init): Ghost<VmState>,
    Ghost(isd): Ghost<int>,
)
    requires
        trace_build_inv(*old(stack), program@, init, isd, i as int),
        !vm_is_imm(program@, i as int),
        i < program@.len() - 1,
        program@[i as int] == crate::opcodes::INV,
    ensures
        trace_build_inv(*final(stack), program@, init, isd, i + 1),
{
    proof {
        assert(vm_step_ok(program@, init, i as int));
        lemma_vm_state_at_inv(program@, init, i as int);
        assert(row_matches(*stack, vm_state_at(program@, init, i as int), i as int));
        assert(stack.row_clear(i + 1));
    }
    let ghost pre = *stack;
    stack.inv(i);
    proof {
        lemma_build_inv(pre, *stack, program@, init, isd, i as int);
    }
}

/// Performs one NEG operation at slot `i` and carries the
/// trace-building invariant to slot `i + 1`.
#[verifier::rlimit(100)]
fn build_step_neg(
    stack: &mut StackTrace,
    program: &Vec<u128>,
    i: usize,
    Ghost(init): Ghost<VmState>,
    Ghost(isd): Ghost<int>,
)
    requires
        trace_build_inv(*old(stack), program@, init, isd, i as int),
        !vm_is_imm(program@, i as int),
        i < program@.len() - 1,
        program@[i as int] == crate::opcodes::NEG,
    ensures
        trace_build_inv(*final(stack), program@, init, isd, i + 1),
{
    proof {
        assert(vm_step_ok(program@, init, i as int));
        lemma_vm_state_at_inv(program@, init, i as int);
        assert(row_matches(*stack, vm_state_at(program@, init, i as int), i as int));
        assert(stack.row_clear(i + 1));
    }
    let ghost pre = *stack;
    stack.neg(i);
    proof {
        lemma_build_neg(pre, *stack, program@, init, isd, i as int);
    }
}

/// Performs one NOT operation at slot `i` and carries the
/// trace-building invariant to slot `i + 1`.
#[verifier::rlimit(100)]
fn build_step_not(
    stack: &mut StackTrace,
    program: &Vec<u128>,
    i: usize,
    Ghost(init): Ghost<VmState>,
    Ghost(isd): Ghost<int>,
)
    requires
        trace_build_inv(*old(stack), program@, init, isd, i as int),
        !vm_is_imm(program@, i as int),
        i < program@.len() - 1,
        program@[i as int] == crate::opcodes::NOT,
    ensures
        trace_build_inv(*final(stack), program@, init, isd, i + 1),
{
    proof {
        assert(vm_step_ok(program@, init, i as int));
        lemma_vm_state_at_inv(program@, init, i as int);
        assert(row_matches(*stack, vm_state_at(program@, init, i as int), i as int));
        assert(stack.row_clear(i + 1));
    }
    let ghost pre = *stack;
    stack.not(i);
    proof {
        lemma_build_not(pre, *stack, program@, init, isd, i as int);
    }
}

/// Performs one EQ operation at slot `i` and carries the
/// trace-building invariant to slot `i + 1`.
#[verifier::rlimit(100)]
fn build_step_eq(
    stack: &mut StackTrace,
    program: &Vec<u128>,
    i: usize,
    Ghost(init): Ghost<VmState>,
    Ghost(isd): Ghost<int>,
)
    requires
        trace_build_inv(*old(stack), program@, init, isd, i as int),
        !vm_is_imm(program@, i as int),
        i < program@.len() - 1,
        program@[i as int] == crate::opcodes::EQ,
    ensures
        trace_build_inv(*final(stack), program@, init, isd, i + 1),
{
    proof {
        assert(vm_step_ok(program@, init, i as int));
        lemma_vm_state_at_inv(program@, init, i as int);
        assert(row_matches(*stack, vm_state_at(program@, init, i as int), i as int));
        assert(stack.row_clear(i + 1));
    }
    let ghost pre = *stack;
    stack.eq(i);
    proof {
        lemma_build_eq(pre, *stack, program@, init, isd, i as int);
    }
}

/// Performs one CMP operation at slot `i` and carries the
/// trace-building invariant to slot `i + 1`.
#[verifier::rlimit(100)]
fn build_step_cmp(
    stack: &mut StackTrace,
    program: &Vec<u128>,
    i: usize,
    Ghost(init): Ghost<VmState>,
    Ghost(isd): Ghost<int>,
)
    requires
        trace_build_inv(*old(stack), program@, init, isd, i as int),
        !vm_is_imm(program@, i as int),
        i < program@.len() - 1,
        program@[i as int] == crate::opcodes::CMP,
    ensures
        trace_build_inv(*final(stack), program@, init, isd, i + 1),
{
    proof {
        assert(vm_step_ok(program@, init, i as int));
        lemma_vm_state_at_inv(program@, init, i as int);
        assert(row_matches(*stack, vm_state_at(program@, init, i as int), i as int));
        assert(stack.row_clear(i + 1));
    }
    let ghost pre = *stack;
    stack.cmp(i);
    proof {
        lemma_build_cmp(pre, *stack, program@, init, isd, i as int);
    }
}

/// Performs one HASHR operation at slot `i` and carries the
/// trace-building invariant to slot `i + 1`.
#[verifier::rlimit(100)]
fn build_step_hashr(
    stack: &mut StackTrace,
    program: &Vec<u128>,
    i: usize,
    Ghost(init): Ghost<VmState>,
    Ghost(isd): Ghost<int>,
)
    requires
        trace_build_inv(*old(stack), program@, init, isd, i as int),
        !vm_is_imm(program@, i as int),
        i < program@.len() - 1,
        program@[i as int] == crate::opcodes::HASHR,
    ensures
        trace_build_inv(*final(stack), program@, init, isd, i + 1),
{
    proof {
        assert(vm_step_ok(program@, init, i as int));
        lemma_vm_state_at_inv(program@, init, i as int);
        assert(row_matches(*stack, vm_state_at(program@, init, i as int), i as int));
        assert(stack.row_clear(i + 1));
    }
    let ghost pre = *stack;
    stack.hashr(i);
    proof {
        lemma_build_hashr(pre, *stack, program@, init, isd, i as int);
    }
}

/// Performs a PUSH at slot `i` together with the forced NOOP standing in
/// its immediate slot, carrying the trace-building invariant to slot
/// `i + 2`.
#[verifier::rlimit(100)]
fn build_step_push(
    stack: &mut StackTrace,
    program: &Vec<u128>,
    i: usize,
    Ghost(init): Ghost<VmState>,
    Ghost(isd): Ghost<int>,
)
    requires
        trace_build_inv(*old(stack), program@, init, isd, i as int),
        !vm_is_imm(program@, i as int),
        i < program@.len() - 1,
        program@[i as int] == crate::opcodes::PUSH,
    ensures
        trace_build_inv(*final(stack), program@, init, isd, i + 2),
        vm_is_imm(program@, i + 1),
        i + 2 <= program@.len() - 1,
{
    proof {
        assert(vm_step_ok(program@, init, i as int));
        lemma_vm_state_at_inv(program@, init, i as int);
        assert(row_matches(*stack, vm_state_at(program@, init, i as int), i as int));
        assert(stack.row_clear(i + 1));
    }
    proof {
        crate::utils::lemma_vec_len_bound(*program);
    }
    // push the value of the next instruction onto the stack and skip a
    // step, since the next instruction is not an operation
    let value = program[i + 1];
    let ghost pre = *stack;
    stack.push(i, value);
    proof {
        lemma_build_push(pre, *stack, program@, init, isd, i as int, value);
        assert(row_matches(*stack, vm_state_at(program@, init, i + 1), i + 1));
        assert(stack.row_clear(i + 2));
        lemma_vm_state_at_inv(program@, init, i + 1);
    }
    let j = i + 1;
    let ghost mid = *stack;
    stack.noop(j);
    proof {
        lemma_build_imm_noop(mid, *stack, program@, init, isd, i + 1);
    }
}

/// Performs the action at slot `i` (one opcode, or a PUSH together with
/// the forced NOOP on its immediate slot) and returns the next opcode
/// slot.
#[verifier::rlimit(100)]
fn build_step(
    stack: &mut StackTrace,
    program: &Vec<u128>,
    i: usize,
    Ghost(init): Ghost<VmState>,
    Ghost(isd): Ghost<int>,
) -> (next: usize)
    requires
        trace_build_inv(*old(stack), program@, init, isd, i as int),
        !vm_is_imm(program@, i as int),
        i < program@.len() - 1,
    ensures
        trace_build_inv(*final(stack), program@, init, isd, next as int),
        !vm_is_imm(program@, next as int),
        i < next <= program@.len() - 1,
{
    proof {
        crate::utils::lemma_vec_len_bound(*program);
    }
    let op = program[i];
    if op == crate::opcodes::PUSH {
        build_step_push(stack, program, i, Ghost(init), Ghost(isd));
        i + 2
    } else if op == crate::opcodes::BEGIN || op == crate::opcodes::NOOP {
        build_step_noop(stack, program, i, Ghost(init), Ghost(isd));
        i + 1
    } else if op == crate::opcodes::ASSERT {
        build_step_assert_op(stack, program, i, Ghost(init), Ghost(isd));
        i + 1
    } else if op == crate::opcodes::READ {
        build_step_read(stack, program, i, Ghost(init), Ghost(isd));
        i + 1
    } else if op == crate::opcodes::READ2 {
        build_step_read2(stack, program, i, Ghost(init), Ghost(isd));
        i + 1
    } else if op == crate::opcodes::DUP {
        build_step_dup(stack, program, i, Ghost(init), Ghost(isd));
        i + 1
    } else if op == crate::opcodes::DUP2 {
        build_step_dup2(stack, program, i, Ghost(init), Ghost(isd));
        i + 1
    } else if op == crate::opcodes::DUP4 {
        build_step_dup4(stack, program, i, Ghost(init), Ghost(isd));
        i + 1
    } else if op == crate::opcodes::PAD2 {
        build_step_pad2(stack, program, i, Ghost(init), Ghost(isd));
        i + 1
    } else if op == crate::opcodes::DROP {
        build_step_drop(stack, program, i, Ghost(init), Ghost(isd));
        i + 1
    } else if op == crate::opcodes::DROP4 {
        build_step_drop4(stack, program, i, Ghost(init), Ghost(isd));
        i + 1
    } else if op == crate::opcodes::SWAP {
        build_step_swap(stack, program, i, Ghost(init), Ghost(isd));
        i + 1
    } else if op == crate::opcodes::SWAP2 {
        build_step_swap2(stack, program, i, Ghost(init), Ghost(isd));
        i + 1
    } else if op == crate::opcodes::SWAP4 {
        build_step_swap4(stack, program, i, Ghost(init), Ghost(isd));
        i + 1
    } else if op == crate::opcodes::ROLL4 {
        build_step_roll4(stack, program, i, Ghost(init), Ghost(isd));
        i + 1
    } else if op == crate::opcodes::ROLL8 {
        build_step_roll8(stack, program, i, Ghost(init), Ghost(isd));
        i + 1
    } else if op == crate::opcodes::CHOOSE {
        build_step_choose_op(stack, program, i, Ghost(init), Ghost(isd));
        i + 1
    } else if op == crate::opcodes::CHOOSE2 {
        build_step_choose2(stack, program, i, Ghost(init), Ghost(isd));
        i + 1
    } else if op == crate::opcodes::ADD {
        build_step_add(stack, program, i, Ghost(init), Ghost(isd));
        i + 1
    } else if op == crate::opcodes::MUL {
        build_step_mul(stack, program, i, Ghost(init), Ghost(isd));
        i + 1
    } else if op == crate::opcodes::INV {
        build_step_inv(stack, program, i, Ghost(init), Ghost(isd));
        i + 1
    } else if op == crate::opcodes::NEG {
        build_step_neg(stack, program, i, Ghost(init), Ghost(isd));
        i + 1
    } else if op == crate::opcodes::NOT {
        build_step_not(stack, program, i, Ghost(init), Ghost(isd));
        i + 1
    } else if op == crate::opcodes::EQ {
        build_step_eq(stack, program, i, Ghost(init), Ghost(isd));
        i + 1
    } else if op == crate::opcodes::CMP {
        build_step_cmp(stack, program, i, Ghost(init), Ghost(isd));
        i + 1
    } else if op == crate::opcodes::HASHR {
        build_step_hashr(stack, program, i, Ghost(init), Ghost(isd));
        i + 1
    } else {
        proof {
            assert(vm_step_ok(program@, init, i as int));
            assert(false);
        }
        i + 1
    }
}

// TRACE BUILDER
// ================================================================================

/// Runs the program and captures every successive stack state, one row
/// per cycle. The result holds the auxiliary columns followed by as many
/// user columns as the deepest stack the run reached: every user cell
/// equals the corresponding cell of the machine run [`vm_state_at`],
/// auxiliary column 0 carries EQ's witnesses and auxiliary column 1 is
/// zero throughout.
pub fn execute(program: &Vec<u128>, inputs: &ProgramInputs, extension_factor: usize) -> (r:
    Vec<Vec<u128>>)
    requires
        program@.len() > 1,
        crate::utils::is_power_of_two(program@.len() as int),
        program@[0] == crate::opcodes::BEGIN,
        program@[program@.len() - 1] == crate::opcodes::NOOP,
        crate::utils::is_power_of_two(extension_factor as int),
        program@.len() * extension_factor <= usize::MAX,
        forall|k: int| 0 <= k < program@.len() ==> #[trigger] program@[k] < field::M,
        inputs.public@.len() <= MAX_USER_STACK_DEPTH,
        forall|k: int| 0 <= k < inputs.public@.len() ==> #[trigger] inputs.public@[k]
            < field::M,
        forall|k: int| 0 <= k < inputs.secret_a@.len() ==> #[trigger] inputs.secret_a@[k]
            < field::M,
        forall|k: int| 0 <= k < inputs.secret_b@.len() ==> #[trigger] inputs.secret_b@[k]
            < field::M,
        vm_ok(program@, vm_init(inputs.public@, inputs.secret_a@, inputs.secret_b@)),
    ensures
        ({
            let init = vm_init(inputs.public@, inputs.secret_a@, inputs.secret_b@);
            let fin = vm_state_at(program@, init, program@.len() - 1);
            &&& r@.len() == AUX_WIDTH + fin.max_depth
            &&& forall|c: int| 0 <= c < r@.len() ==> (#[trigger] r@[c])@.len() == program@.len()
            &&& forall|s: int|
                0 <= s < program@.len() ==> #[trigger] r@[0]@[s] == vm_aux0_at(program@, init, s)
            &&& forall|s: int| 0 <= s < program@.len() ==> #[trigger] r@[1]@[s] == 0
            &&& forall|c: int, s: int|
                0 <= c < fin.max_depth && 0 <= s < program@.len()
                    ==> #[trigger] r@[AUX_WIDTH + c]@[s] == vm_state_at(program@, init, s).stack[c]
        }),
{
    let ghost init = vm_init(inputs.public@, inputs.secret_a@, inputs.secret_b@);
    let trace_length = program.len();
    proof {
        assert(extension_factor >= 1);
        assert(trace_length <= trace_length * extension_factor) by (nonlinear_arith)
            requires extension_factor >= 1 && trace_length >= 0;
    }
    let domain_size = trace_length * extension_factor;

    // allocate space for stack registers and populate the first state
    // with public inputs
    let public_inputs = inputs.get_public_inputs();
    let init_stack_depth = if public_inputs.len() > MIN_USER_STACK_DEPTH {
        public_inputs.len()
    } else {
        MIN_USER_STACK_DEPTH
    };
    let mut user_registers: Vec<Vec<u128>> = Vec::with_capacity(init_stack_depth);
    let mut c: usize = 0;
    while c < init_stack_depth
        invariant
            c <= init_stack_depth,
            trace_length == program@.len(),
            trace_length >= 2,
            trace_length <= domain_size,
            extension_factor >= 1,
            domain_size == trace_length * extension_factor,
            user_registers@.len() == c,
            public_inputs@ == inputs.public@,
            forall|k: int| 0 <= k < inputs.public@.len() ==> #[trigger] inputs.public@[k]
                < field::M,
            forall|j: int|
                0 <= j < c ==> (#[trigger] user_registers@[j])@.len() == trace_length,
            forall|j: int|
                0 <= j < c ==> (#[trigger] user_registers@[j])@[0] == (if j
                    < inputs.public@.len() {
                    inputs.public@[j]
                } else {
                    0u128
                }),
            forall|j: int, s: int|
                0 <= j < c && 1 <= s < trace_length ==> #[trigger] user_registers@[j]@[s] == 0,
        decreases init_stack_depth - c,
    {
        let mut register = filled_vector(trace_length, domain_size, field::ZERO);
        if c < public_inputs.len() {
            let value = public_inputs[c];
            register[0] = value;
        }
        user_registers.push(register);
        c = c + 1;
    }

    let mut aux_registers: Vec<Vec<u128>> = Vec::with_capacity(AUX_WIDTH);
    let mut c: usize = 0;
    while c < AUX_WIDTH
        invariant
            c <= AUX_WIDTH,
            trace_length <= domain_size,
            aux_registers@.len() == c,
            forall|j: int|
                0 <= j < c ==> (#[trigger] aux_registers@[j])@.len() == trace_length,
            forall|j: int, s: int|
                0 <= j < c && 0 <= s < trace_length ==> #[trigger] aux_registers@[j]@[s] == 0,
        decreases AUX_WIDTH - c,
    {
        aux_registers.push(filled_vector(trace_length, domain_size, field::ZERO));
        c = c + 1;
    }

    // reverse secret inputs so that they are consumed in FIFO order
    let (secret_a_ref, secret_b_ref) = inputs.get_secret_inputs();
    let secret_inputs_a = reversed(secret_a_ref);
    let secret_inputs_b = reversed(secret_b_ref);

    let mut stack = StackTrace {
        aux_registers,
        user_registers,
        secret_inputs_a,
        secret_inputs_b,
        max_depth: public_inputs.len(),
        depth: public_inputs.len(),
    };

    proof {
        reveal(vm_state_at);
        assert(vm_inv(init));
        assert(vm_state_at(program@, init, 0) == init);
        assert forall|s: int|
            0 <= s <= 0 implies #[trigger] row_matches(stack, vm_state_at(program@, init, s), s)
            by {
            assert forall|cc: int|
                0 <= cc < stack.width() implies #[trigger] stack.user_cell(cc, 0)
                == init.stack[cc] by {
                assert(stack.user_cell(cc, 0) == (if cc < inputs.public@.len() {
                    inputs.public@[cc]
                } else {
                    0u128
                }));
            }
        }
        assert(trace_build_inv(stack, program@, init, init_stack_depth as int, 0));
    }

    // execute the program capturing each successive stack state
    let mut i: usize = 0;
    while i < trace_length - 1
        invariant
            i <= trace_length - 1,
            trace_length == program@.len(),
            init == vm_init(inputs.public@, inputs.secret_a@, inputs.secret_b@),
            !vm_is_imm(program@, i as int),
            trace_build_inv(stack, program@, init, init_stack_depth as int, i as int),
        decreases trace_length - i,
    {
        i = build_step(&mut stack, program, i, Ghost(init), Ghost(init_stack_depth as int));
    }

    let ghost fin = vm_state_at(program@, init, trace_length as int - 1);
    let ghost built = stack;

    // keep only the registers used during program execution
    stack.user_registers.truncate(stack.max_depth);
    let mut registers: Vec<Vec<u128>> = Vec::with_capacity(AUX_WIDTH + stack.max_depth);
    registers.append(&mut stack.aux_registers);
    registers.append(&mut stack.user_registers);
    proof {
        let n = program@.len();
        assert(built.max_depth == fin.max_depth);
        assert(registers@ =~= built.aux_registers@ + built.user_registers@.subrange(
            0,
            built.max_depth as int,
        ));
        assert(registers@.len() == AUX_WIDTH + fin.max_depth);
        assert forall|cix: int| 0 <= cix < registers@.len() implies (#[trigger] registers@[cix])@.len()
            == n by {
            if cix < AUX_WIDTH {
                assert(registers@[cix] == built.aux_registers@[cix]);
            } else {
                assert(registers@[cix] == built.user_registers@[cix - AUX_WIDTH]);
            }
        }
        assert forall|s: int| 0 <= s < n implies #[trigger] registers@[0]@[s] == vm_aux0_at(
            program@,
            init,
            s,
        ) by {
            assert(registers@[0] == built.aux_registers@[0]);
            if s < n - 1 {
                assert(built.aux_cell(0, s) == vm_aux0_at(program@, init, s));
            } else {
                assert(built.aux_cell(0, s) == 0);
            }
        }
        assert forall|s: int| 0 <= s < n implies #[trigger] registers@[1]@[s] == 0 by {
            assert(registers@[1] == built.aux_registers@[1]);
            assert(built.aux_cell(1, s) == 0);
        }
        assert forall|cix: int, s: int|
            0 <= cix < fin.max_depth && 0 <= s < n implies #[trigger] registers@[AUX_WIDTH
            + cix]@[s] == vm_state_at(program@, init, s).stack[cix] by {
            assert(registers@[AUX_WIDTH + cix] == built.user_registers@[cix]);
            assert(row_matches(built, vm_state_at(program@, init, s), s));
            assert(built.user_cell(cix, s) == vm_state_at(program@, init, s).stack[cix]);
        }
    }
    registers
}

/// A copy of the vector with its elements in reverse order.
fn reversed(v: &Vec<u128>) -> (r: Vec<u128>)
    ensures
        r@ == reversed_seq(v@),
{
    let n = v.len();
    let mut result: Vec<u128> = Vec::with_capacity(n);
    let mut i: usize = 0;
    while i < n
        invariant
            i <= n,
            n == v@.len(),
            result@.len() == i,
            forall|j: int| 0 <= j < i ==> #[trigger] result@[j] == v@[n - 1 - j],
        decreases n - i,
    {
        result.push(v[n - 1 - i]);
        i = i + 1;
    }
    proof {
        assert(result@ =~= reversed_seq(v@));
    }
    result
}

} // verus!
