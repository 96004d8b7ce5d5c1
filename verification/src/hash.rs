//! One round of the algebraic sponge permutation used by the HASHR opcode.
//!
//! A round injects cycle-dependent constants into each lane, passes every
//! lane through the cubing S-box, and mixes neighbouring lanes with a fixed
//! circulant matrix. All arithmetic is in the 128-bit field.

use vstd::prelude::*;
use crate::field;
use crate::field::fadd;
use crate::field::fmul;

verus! {

/// Width of the sponge state in field elements.
pub const STATE_WIDTH: usize = 6;

pub const INJ_C0: u128 = 93138676728655832068823523713152398221;
pub const INJ_C1: u128 = 160550340495879176473018261375580163735;
pub const INJ_C2: u128 = 30817886702919377171937493059935896217;
pub const INJ_C3: u128 = 137107676445723444682492350529554391645;
pub const INJ_C4: u128 = 80403529499959389215210891731633497067;
pub const INJ_C5: u128 = 51167537543784854853201004514527673537;

pub const INJ_D0: u128 = 130098070371413947996480914804368371245;
pub const INJ_D1: u128 = 55129597879807936878416956093775293101;
pub const INJ_D2: u128 = 102445436418945768613581716648860185251;
pub const INJ_D3: u128 = 29608439059308671776363550689717307407;
pub const INJ_D4: u128 = 73082539297696862082033701335178516637;
pub const INJ_D5: u128 = 165704014909506740992387163471296836973;

/// Constant injection: lane + (cycle * d + c), all modulo the field.
pub open spec fn inject(s: int, c: int, d: int, cycle: int) -> int {
    fadd(s, fadd(fmul(cycle, d), c))
}

/// The cubing S-box of the permutation.
pub open spec fn cube(a: int) -> int {
    fmul(fmul(a, a), a)
}

/// Circulant mixing of a lane with its two cyclic successors.
pub open spec fn mix(x: int, y: int, z: int) -> int {
    fadd(x, fadd(fmul(3, y), fmul(9, z)))
}

/// The injected-and-cubed value of lane `i` of `s` at cycle `cycle`.
pub open spec fn sboxed(s: Seq<u128>, cycle: int, i: int) -> int {
    cube(
        inject(
            s[i] as int,
            inject_c(i),
            inject_d(i),
            cycle,
        ),
    )
}

/// The injection constant added to lane `i`.
pub open spec fn inject_c(i: int) -> int {
    if i == 0 {
        INJ_C0 as int
    } else if i == 1 {
        INJ_C1 as int
    } else if i == 2 {
        INJ_C2 as int
    } else if i == 3 {
        INJ_C3 as int
    } else if i == 4 {
        INJ_C4 as int
    } else {
        INJ_C5 as int
    }
}

/// The injection multiplier applied to the cycle index for lane `i`.
pub open spec fn inject_d(i: int) -> int {
    if i == 0 {
        INJ_D0 as int
    } else if i == 1 {
        INJ_D1 as int
    } else if i == 2 {
        INJ_D2 as int
    } else if i == 3 {
        INJ_D3 as int
    } else if i == 4 {
        INJ_D4 as int
    } else {
        INJ_D5 as int
    }
}

/// The full round: lane `i` of the result mixes the S-boxed lanes `i`,
/// `i + 1` and `i + 2` (cyclically).
pub open spec fn round(s: Seq<u128>, cycle: int) -> Seq<u128> {
    seq![
        mix(sboxed(s, cycle, 0), sboxed(s, cycle, 1), sboxed(s, cycle, 2)) as u128,
        mix(sboxed(s, cycle, 1), sboxed(s, cycle, 2), sboxed(s, cycle, 3)) as u128,
        mix(sboxed(s, cycle, 2), sboxed(s, cycle, 3), sboxed(s, cycle, 4)) as u128,
        mix(sboxed(s, cycle, 3), sboxed(s, cycle, 4), sboxed(s, cycle, 5)) as u128,
        mix(sboxed(s, cycle, 4), sboxed(s, cycle, 5), sboxed(s, cycle, 0)) as u128,
        mix(sboxed(s, cycle, 5), sboxed(s, cycle, 0), sboxed(s, cycle, 1)) as u128,
    ]
}

/// Every lane a round produces is a canonical field element.
#[verifier::rlimit(100)]
pub proof fn lemma_round_in_field(s: Seq<u128>, cycle: int)
    ensures
        round(s, cycle).len() == 6,
        forall|i: int| 0 <= i < 6 ==> #[trigger] round(s, cycle)[i] < field::M,
{
    field::lemma_mod_in_field(
        sboxed(s, cycle, 0) + fadd(fmul(3, sboxed(s, cycle, 1)), fmul(9, sboxed(s, cycle, 2))),
    );
    field::lemma_mod_in_field(
        sboxed(s, cycle, 1) + fadd(fmul(3, sboxed(s, cycle, 2)), fmul(9, sboxed(s, cycle, 3))),
    );
    field::lemma_mod_in_field(
        sboxed(s, cycle, 2) + fadd(fmul(3, sboxed(s, cycle, 3)), fmul(9, sboxed(s, cycle, 4))),
    );
    field::lemma_mod_in_field(
        sboxed(s, cycle, 3) + fadd(fmul(3, sboxed(s, cycle, 4)), fmul(9, sboxed(s, cycle, 5))),
    );
    field::lemma_mod_in_field(
        sboxed(s, cycle, 4) + fadd(fmul(3, sboxed(s, cycle, 5)), fmul(9, sboxed(s, cycle, 0))),
    );
    field::lemma_mod_in_field(
        sboxed(s, cycle, 5) + fadd(fmul(3, sboxed(s, cycle, 0)), fmul(9, sboxed(s, cycle, 1))),
    );
}

/// Applies one round of the sponge permutation to a six-lane state, using
/// the cycle index to vary the injected constants.
#[verifier::rlimit(50)]
pub fn apply_round(state: &mut [u128; 6], cycle: usize)
    requires
        forall|i: int| 0 <= i < 6 ==> old(state)[i] < field::M,
    ensures
        forall|i: int| 0 <= i < 6 ==> final(state)[i] < field::M,
        final(state)@ == round(old(state)@, cycle as int),
{
    let sp: u128 = cycle as u128;
    let b0 = sbox_lane(state[0], INJ_C0, INJ_D0, sp);
    let b1 = sbox_lane(state[1], INJ_C1, INJ_D1, sp);
    let b2 = sbox_lane(state[2], INJ_C2, INJ_D2, sp);
    let b3 = sbox_lane(state[3], INJ_C3, INJ_D3, sp);
    let b4 = sbox_lane(state[4], INJ_C4, INJ_D4, sp);
    let b5 = sbox_lane(state[5], INJ_C5, INJ_D5, sp);
    let o0 = mix_lane(b0, b1, b2);
    let o1 = mix_lane(b1, b2, b3);
    let o2 = mix_lane(b2, b3, b4);
    let o3 = mix_lane(b3, b4, b5);
    let o4 = mix_lane(b4, b5, b0);
    let o5 = mix_lane(b5, b0, b1);
    *state = [o0, o1, o2, o3, o4, o5];
    proof {
        let s0 = old(state)@;
        let c = cycle as int;
        assert(o0 == round(s0, c)[0]);
        assert(o1 == round(s0, c)[1]);
        assert(o2 == round(s0, c)[2]);
        assert(o3 == round(s0, c)[3]);
        assert(o4 == round(s0, c)[4]);
        assert(o5 == round(s0, c)[5]);
        assert(state@ =~= round(s0, c));
    }
}

/// Injects the constants for one lane and applies the cubing S-box.
fn sbox_lane(s: u128, c: u128, d: u128, cycle: u128) -> (r: u128)
    requires
        s < field::M,
        c < field::M,
        d < field::M,
    ensures
        r < field::M,
        r == cube(inject(s as int, c as int, d as int, cycle as int)),
{
    let cd = field::mul(cycle % field::M, d);
    proof {
        vstd::arithmetic::div_mod::lemma_mod_twice(cycle as int, field::M as int);
        vstd::arithmetic::div_mod::lemma_mul_mod_noop_left(cycle as int, d as int, field::M as int);
    }
    let a = field::add(s, field::add(cd, c));
    field::mul(field::mul(a, a), a)
}

/// Mixes one output lane from three S-boxed lanes.
fn mix_lane(x: u128, y: u128, z: u128) -> (r: u128)
    requires
        x < field::M,
        y < field::M,
        z < field::M,
    ensures
        r < field::M,
        r == mix(x as int, y as int, z as int),
{
    field::add(x, field::add(field::mul(3, y), field::mul(9, z)))
}

} // verus!
