//! Core components of a STARK-based stack virtual machine: a prime-field
//! arithmetic layer, an algebraic sponge permutation, the execution-trace
//! builder for the VM's stack registers, constraint evaluators for the
//! flow-control opcodes, and the constraint composition polynomial.

use vstd::prelude::*;

pub mod constraint_poly;
pub mod field;
pub mod hash;
pub mod field64;
pub mod inputs;
pub mod opcodes;
pub mod polynom;
pub mod stack;
pub mod trace_state;
pub mod flow_ops;
pub mod utils;

verus! {

/// Number of auxiliary stack columns (scratch space used by comparison ops).
pub const AUX_WIDTH: usize = 2;

/// Smallest number of stack columns a trace carries (auxiliary + user).
pub const MIN_STACK_DEPTH: usize = 10;

/// Largest number of stack columns a trace may carry (auxiliary + user).
pub const MAX_STACK_DEPTH: usize = 32;

/// Width of the sponge state manipulated by the HASHR opcode.
pub const HASH_STATE_WIDTH: usize = 6;

/// Ratio between the length of a constraint polynomial and the trace length.
pub const MAX_CONSTRAINT_DEGREE: usize = 8;

} // verus!
