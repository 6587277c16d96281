//! A small virtual machine with a fixed instruction set: a binary instruction
//! codec, a program builder with forward-reference resolution, a two-pass text
//! assembler, and an interpreter with bounded memory, a register file, a
//! downward-growing stack and condition flags.

use vstd::prelude::*;

pub use crate::instruction::Instruction;
pub use crate::machine::Machine;
pub use crate::program::Program;

pub mod assembler;
pub mod errors;
pub mod program;
pub mod instruction;
pub mod machine;
pub mod util;

verus! {

/// The fixed-width unsigned integer type used uniformly for memory addresses,
/// register contents and literal operand values.
pub type VmPtr = u32;

} // verus!
