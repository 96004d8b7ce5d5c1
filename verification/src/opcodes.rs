//! Numeric identities of the VM opcodes.
//!
//! Each mnemonic has a fixed small-integer identity; a program is a sequence
//! of field elements each of which is either one of these identities or an
//! immediate argument consumed by the preceding PUSH.

use vstd::prelude::*;

verus! {

pub const NOOP: u128 = 0;

pub const BEGIN: u128 = 1;

pub const ASSERT: u128 = 2;

pub const TEND: u128 = 3;

pub const FEND: u128 = 4;

pub const PUSH: u128 = 5;

pub const READ: u128 = 6;

pub const READ2: u128 = 7;

pub const DUP: u128 = 8;

pub const DUP2: u128 = 9;

pub const DUP4: u128 = 10;

pub const PAD2: u128 = 11;

pub const DROP: u128 = 12;

pub const DROP4: u128 = 13;

pub const SWAP: u128 = 14;

pub const SWAP2: u128 = 15;

pub const SWAP4: u128 = 16;

pub const ROLL4: u128 = 17;

pub const ROLL8: u128 = 18;

pub const CHOOSE: u128 = 19;

pub const CHOOSE2: u128 = 20;

pub const ADD: u128 = 21;

pub const MUL: u128 = 22;

pub const INV: u128 = 23;

pub const NEG: u128 = 24;

pub const NOT: u128 = 25;

pub const EQ: u128 = 26;

pub const CMP: u128 = 27;

pub const HASHR: u128 = 28;

} // verus!
