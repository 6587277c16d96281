//! Error types for the codec, the program builder, the assembler and the
//! interpreter. Every error is fatal to the operation that raised it.

use vstd::prelude::*;

verus! {

/// Errors raised while decoding bytes into an instruction.
#[derive(Debug, Clone, Copy, PartialEq, Eq, Structural)]
pub enum CodecError {
    /// Fewer bytes remain than the opcode's fixed layout requires.
    Truncated,
    /// The leading byte is not a known opcode; carries that byte.
    UnrecognizedOpcode(u8),
}

/// Errors raised by the program builder.
#[derive(Debug, Clone, Copy, PartialEq, Eq, Structural)]
pub enum BuildError {
    /// The given data index does not denote any instruction.
    InvalidDataIndex,
    /// The instruction at the given data index is not a data segment.
    NotData,
    /// The given instruction index does not denote any instruction.
    InvalidInstructionIndex,
    /// The given jump target index does not denote any instruction.
    InvalidJumpIndex,
    /// The instruction to patch is not a placeholder jump or call.
    NotDummyJump,
    /// The instruction to patch is not a placeholder copy instruction.
    NotDummyCopyData,
}

/// Errors raised by the two-pass assembler. Assembly stops at the first
/// error; there are no partial programs.
#[derive(Debug, Clone, PartialEq)]
pub enum AsmError {
    /// Unknown mnemonic, or a known mnemonic with the wrong number of
    /// arguments; carries the line's first token, lowercased.
    UnknownCommand(Vec<u8>),
    /// A numeric argument did not parse as an unsigned integer of the
    /// operand's width; carries the offending token.
    InvalidNumber(Vec<u8>),
    /// A data string holds a NUL byte of its own.
    InteriorNul,
    /// The assembled program would overflow the address space.
    TooLarge,
    /// A referenced label was never declared; carries the label.
    UnresolvedLabel(Vec<u8>),
    /// A failure while patching placeholder instructions.
    Build(BuildError),
}

/// Mathematical model of an [`AsmError`].
#[verifier::ext_equal]
pub enum AsmErrorView {
    UnknownCommand(Seq<u8>),
    InvalidNumber(Seq<u8>),
    InteriorNul,
    TooLarge,
    UnresolvedLabel(Seq<u8>),
    Build(BuildError),
}

impl View for AsmError {
    type V = AsmErrorView;

    open spec fn view(&self) -> AsmErrorView {
        match self {
            AsmError::UnknownCommand(t) => AsmErrorView::UnknownCommand(t@),
            AsmError::InvalidNumber(t) => AsmErrorView::InvalidNumber(t@),
            AsmError::InteriorNul => AsmErrorView::InteriorNul,
            AsmError::TooLarge => AsmErrorView::TooLarge,
            AsmError::UnresolvedLabel(t) => AsmErrorView::UnresolvedLabel(t@),
            AsmError::Build(e) => AsmErrorView::Build(*e),
        }
    }
}

/// Errors raised while the interpreter executes a program.
#[derive(Debug, Clone, Copy, PartialEq, Eq, Structural)]
pub enum ExecError {
    /// The instruction pointer lies outside the program bytes.
    IpOutOfBounds,
    /// The bytes at the instruction pointer do not decode to an instruction.
    ParseFailed(CodecError),
    /// A memory access started past the end of memory; carries the address.
    MemoryOutOfBounds(u32),
    /// An access ran over the end of a buffer.
    BorderAccess,
    /// A program-memory access started past the end of the program bytes;
    /// carries the source address.
    ProgramOutOfBounds(u32),
    /// A side-register index is outside the configured register file.
    RegisterOutOfBounds(u8),
    /// The stack pointer would move below zero.
    StackOverflow,
    /// The stack pointer would move past the top of memory's address range.
    StackUnderflow,
    /// Division by a zero-valued side register.
    DivisionByZero,
    /// The syscall index is outside the dispatch table.
    UnknownSyscall(u8),
    /// A print syscall reached a string that is not valid UTF-8; carries the
    /// string's address.
    InvalidString(u32),
}

} // verus!
