//! The instruction set and its binary codec: the opcode table, the exact byte
//! layout of every instruction, and pure encode/decode with a typed failure
//! model.

use vstd::prelude::*;
use vstd::slice::{slice_subrange, slice_to_vec};

use crate::VmPtr;
use crate::util::{lemma_word_round_trip, push_word, word_bytes, word_value};
use crate::errors::CodecError;

verus! {

/// Width in bytes of an address word in the binary encoding.
pub const WORD_SIZE: usize = 4;

/// One instruction of the virtual machine's binary language.
#[derive(Debug, PartialEq, Clone)]
pub enum Instruction {
    /// No instruction.
    Nop,
    /// Halt execution.
    Halt,
    /// Load 8 bit value from given address into the main register.
    Load8(VmPtr),
    /// Store 8 bit value into given address from the main register.
    Store8(VmPtr),
    /// Load 16 bit value from given address into the main register.
    Load16(VmPtr),
    /// Store 16 bit value into given address from the main register.
    Store16(VmPtr),
    /// Load 32 bit value from given address into the main register.
    Load32(VmPtr),
    /// Store 32 bit value into given address from the main register.
    Store32(VmPtr),
    /// Set main register to the given value.
    SetMain(VmPtr),
    /// Dereference the pointer in register x to the 8 bit value it points to
    /// and write the result to the main register.
    Deref8(u8),
    /// Dereference the pointer in register x to the 16 bit value it points to
    /// and write the result to the main register.
    Deref16(u8),
    /// Dereference the pointer in register x to the 32 bit value it points to
    /// and write the result to the main register.
    Deref32(u8),
    /// Make a syscall to the given syscall index.
    Syscall(u8),
    /// Copy code memory to machine memory, from the given source address to
    /// the address saved in the main register. Arguments: source, size.
    CopyCodeMemory(VmPtr, VmPtr),
    /// Data segment. Arguments: size/length, data.
    Data(VmPtr, Vec<u8>),
    /// Swap main register with given side register.
    Swap(u8),
    /// Write the 8 bit value of the main register to the address in register x.
    Write8(u8),
    /// Write the 16 bit value of the main register to the address in register x.
    Write16(u8),
    /// Write the 32 bit value of the main register to the address in register x.
    Write32(u8),
    /// Read stack pointer to main register.
    ReadStackPointer,
    /// Write main register to stack pointer.
    WriteStackPointer,
    /// Jump to given code address.
    Jump(VmPtr),
    /// Call function at given code address, pushing the return address to the
    /// stack.
    Call(VmPtr),
    /// Return from function: pop the latest address from the stack and jump
    /// to it.
    Return,
    /// Increment the main register by one. Sets the zero flag to whether the
    /// result is 0.
    Increment,
    /// Decrement the main register by one. Sets the zero flag to whether the
    /// result is 0.
    Decrement,
    /// Main register += register x.
    Add(u8),
    /// Main register -= register x.
    Sub(u8),
    /// Compare main register with register x and save the result in the
    /// comparison flag for conditional jumps.
    Compare(u8),
    /// Jump if the last comparison was equal.
    JumpEqual(VmPtr),
    /// Jump if the last comparison was not equal.
    JumpNotEqual(VmPtr),
    /// Jump if the last comparison was greater than.
    JumpGreater(VmPtr),
    /// Jump if the last comparison was less than.
    JumpLess(VmPtr),
    /// Jump if the last comparison was greater than or equal.
    JumpGreaterEqual(VmPtr),
    /// Jump if the last comparison was less than or equal.
    JumpLessEqual(VmPtr),
    /// Jump if the last increment/decrement resulted in zero.
    JumpZero(VmPtr),
    /// Jump if the last increment/decrement resulted in nonzero.
    JumpNonzero(VmPtr),
    /// Push main register to the stack.
    Push,
    /// Pop from the stack to the main register.
    Pop,
    /// Push register x to the stack.
    PushRegister(u8),
    /// Pop from the stack to register x.
    PopRegister(u8),
    /// Multiply the main register by register x; the result is saved in the
    /// main register.
    Mul(u8),
    /// Divide the main register by register x; the result is saved in the
    /// main register, the remainder in register x.
    Div(u8),
    /// Increment the given side register.
    IncrementRegister(u8),
    /// Decrement the given side register.
    DecrementRegister(u8),
    /// Set a side register to a specific value.
    SetRegister(u8, VmPtr),
}

/// Mathematical model of an instruction: identical to [`Instruction`], with
/// the data payload as a byte sequence.
pub enum InstrView {
    Nop,
    Halt,
    Load8(VmPtr),
    Store8(VmPtr),
    Load16(VmPtr),
    Store16(VmPtr),
    Load32(VmPtr),
    Store32(VmPtr),
    SetMain(VmPtr),
    Deref8(u8),
    Deref16(u8),
    Deref32(u8),
    Syscall(u8),
    CopyCodeMemory(VmPtr, VmPtr),
    Data(VmPtr, Seq<u8>),
    Swap(u8),
    Write8(u8),
    Write16(u8),
    Write32(u8),
    ReadStackPointer,
    WriteStackPointer,
    Jump(VmPtr),
    Call(VmPtr),
    Return,
    Increment,
    Decrement,
    Add(u8),
    Sub(u8),
    Compare(u8),
    JumpEqual(VmPtr),
    JumpNotEqual(VmPtr),
    JumpGreater(VmPtr),
    JumpLess(VmPtr),
    JumpGreaterEqual(VmPtr),
    JumpLessEqual(VmPtr),
    JumpZero(VmPtr),
    JumpNonzero(VmPtr),
    Push,
    Pop,
    PushRegister(u8),
    PopRegister(u8),
    Mul(u8),
    Div(u8),
    IncrementRegister(u8),
    DecrementRegister(u8),
    SetRegister(u8, VmPtr),
}

impl View for Instruction {
    type V = InstrView;

    open spec fn view(&self) -> InstrView {
        match self {
            Instruction::Nop => InstrView::Nop,
            Instruction::Halt => InstrView::Halt,
            Instruction::Load8(p) => InstrView::Load8(*p),
            Instruction::Store8(p) => InstrView::Store8(*p),
            Instruction::Load16(p) => InstrView::Load16(*p),
            Instruction::Store16(p) => InstrView::Store16(*p),
            Instruction::Load32(p) => InstrView::Load32(*p),
            Instruction::Store32(p) => InstrView::Store32(*p),
            Instruction::SetMain(v) => InstrView::SetMain(*v),
            Instruction::Deref8(r) => InstrView::Deref8(*r),
            Instruction::Deref16(r) => InstrView::Deref16(*r),
            Instruction::Deref32(r) => InstrView::Deref32(*r),
            Instruction::Syscall(i) => InstrView::Syscall(*i),
            Instruction::CopyCodeMemory(s, n) => InstrView::CopyCodeMemory(*s, *n),
            Instruction::Data(len, data) => InstrView::Data(*len, data@),
            Instruction::Swap(r) => InstrView::Swap(*r),
            Instruction::Write8(r) => InstrView::Write8(*r),
            Instruction::Write16(r) => InstrView::Write16(*r),
            Instruction::Write32(r) => InstrView::Write32(*r),
            Instruction::ReadStackPointer => InstrView::ReadStackPointer,
            Instruction::WriteStackPointer => InstrView::WriteStackPointer,
            Instruction::Jump(a) => InstrView::Jump(*a),
            Instruction::Call(a) => InstrView::Call(*a),
            Instruction::Return => InstrView::Return,
            Instruction::Increment => InstrView::Increment,
            Instruction::Decrement => InstrView::Decrement,
            Instruction::Add(r) => InstrView::Add(*r),
            Instruction::Sub(r) => InstrView::Sub(*r),
            Instruction::Compare(r) => InstrView::Compare(*r),
            Instruction::JumpEqual(a) => InstrView::JumpEqual(*a),
            Instruction::JumpNotEqual(a) => InstrView::JumpNotEqual(*a),
            Instruction::JumpGreater(a) => InstrView::JumpGreater(*a),
            Instruction::JumpLess(a) => InstrView::JumpLess(*a),
            Instruction::JumpGreaterEqual(a) => InstrView::JumpGreaterEqual(*a),
            Instruction::JumpLessEqual(a) => InstrView::JumpLessEqual(*a),
            Instruction::JumpZero(a) => InstrView::JumpZero(*a),
            Instruction::JumpNonzero(a) => InstrView::JumpNonzero(*a),
            Instruction::Push => InstrView::Push,
            Instruction::Pop => InstrView::Pop,
            Instruction::PushRegister(r) => InstrView::PushRegister(*r),
            Instruction::PopRegister(r) => InstrView::PopRegister(*r),
            Instruction::Mul(r) => InstrView::Mul(*r),
            Instruction::Div(r) => InstrView::Div(*r),
            Instruction::IncrementRegister(r) => InstrView::IncrementRegister(*r),
            Instruction::DecrementRegister(r) => InstrView::DecrementRegister(*r),
            Instruction::SetRegister(r, v) => InstrView::SetRegister(*r, *v),
        }
    }
}

impl InstrView {
    /// A well-formed instruction: a data segment's stored length matches its
    /// payload, and the whole encoding fits in the address space.
    pub open spec fn wf(self) -> bool {
        self matches InstrView::Data(len, data) ==> {
            &&& data.len() == len
            &&& spec_size(self) <= usize::MAX
        }
    }
}

/// The encoded byte length of an instruction: one opcode byte, followed by
/// its fixed operand layout, plus the payload for a data segment.
pub open spec fn spec_size(i: InstrView) -> int {
    match i {
        InstrView::Nop => 1,
        InstrView::Halt => 1,
        InstrView::Load8(_) => 5,
        InstrView::Store8(_) => 5,
        InstrView::Load16(_) => 5,
        InstrView::Store16(_) => 5,
        InstrView::Load32(_) => 5,
        InstrView::Store32(_) => 5,
        InstrView::SetMain(_) => 5,
        InstrView::Deref8(_) => 2,
        InstrView::Deref16(_) => 2,
        InstrView::Deref32(_) => 2,
        InstrView::Syscall(_) => 2,
        InstrView::CopyCodeMemory(_, _) => 9,
        InstrView::Data(_, data) => 5 + data.len() as int,
        InstrView::Swap(_) => 2,
        InstrView::Write8(_) => 2,
        InstrView::Write16(_) => 2,
        InstrView::Write32(_) => 2,
        InstrView::ReadStackPointer => 1,
        InstrView::WriteStackPointer => 1,
        InstrView::Jump(_) => 5,
        InstrView::Call(_) => 5,
        InstrView::Return => 1,
        InstrView::Increment => 1,
        InstrView::Decrement => 1,
        InstrView::Add(_) => 2,
        InstrView::Sub(_) => 2,
        InstrView::Compare(_) => 2,
        InstrView::JumpEqual(_) => 5,
        InstrView::JumpNotEqual(_) => 5,
        InstrView::JumpGreater(_) => 5,
        InstrView::JumpLess(_) => 5,
        InstrView::JumpGreaterEqual(_) => 5,
        InstrView::JumpLessEqual(_) => 5,
        InstrView::JumpZero(_) => 5,
        InstrView::JumpNonzero(_) => 5,
        InstrView::Push => 1,
        InstrView::Pop => 1,
        InstrView::PushRegister(_) => 2,
        InstrView::PopRegister(_) => 2,
        InstrView::Mul(_) => 2,
        InstrView::Div(_) => 2,
        InstrView::IncrementRegister(_) => 2,
        InstrView::DecrementRegister(_) => 2,
        InstrView::SetRegister(_, _) => 6,
    }
}

impl Instruction {
    /// Return the length in bytes of this instruction's encoding.
    pub fn size(&self) -> (r: usize)
        requires
            self@.wf(),
        ensures
            r == spec_size(self@),
    {
        match self {
            Instruction::Nop => 1,
            Instruction::Halt => 1,
            Instruction::Load8(_) => 1 + WORD_SIZE,
            Instruction::Store8(_) => 1 + WORD_SIZE,
            Instruction::Load16(_) => 1 + WORD_SIZE,
            Instruction::Store16(_) => 1 + WORD_SIZE,
            Instruction::Load32(_) => 1 + WORD_SIZE,
            Instruction::Store32(_) => 1 + WORD_SIZE,
            Instruction::SetMain(_) => 1 + WORD_SIZE,
            Instruction::Deref8(_) => 2,
            Instruction::Deref16(_) => 2,
            Instruction::Deref32(_) => 2,
            Instruction::Syscall(_) => 2,
            Instruction::CopyCodeMemory(_, _) => 1 + 2 * WORD_SIZE,
            Instruction::Data(_len, data) => 1 + WORD_SIZE + data.len(),
            Instruction::Swap(_) => 2,
            Instruction::Write8(_) => 2,
            Instruction::Write16(_) => 2,
            Instruction::Write32(_) => 2,
            Instruction::ReadStackPointer => 1,
            Instruction::WriteStackPointer => 1,
            Instruction::Jump(_) => 1 + WORD_SIZE,
            Instruction::Call(_) => 1 + WORD_SIZE,
            Instruction::Return => 1,
            Instruction::Increment => 1,
            Instruction::Decrement => 1,
            Instruction::Add(_) => 2,
            Instruction::Sub(_) => 2,
            Instruction::Compare(_) => 2,
            Instruction::JumpEqual(_) => 1 + WORD_SIZE,
            Instruction::JumpNotEqual(_) => 1 + WORD_SIZE,
            Instruction::JumpGreater(_) => 1 + WORD_SIZE,
            Instruction::JumpLess(_) => 1 + WORD_SIZE,
            Instruction::JumpGreaterEqual(_) => 1 + WORD_SIZE,
            Instruction::JumpLessEqual(_) => 1 + WORD_SIZE,
            Instruction::JumpZero(_) => 1 + WORD_SIZE,
            Instruction::JumpNonzero(_) => 1 + WORD_SIZE,
            Instruction::Push => 1,
            Instruction::Pop => 1,
            Instruction::PushRegister(_) => 2,
            Instruction::PopRegister(_) => 2,
            Instruction::Mul(_) => 2,
            Instruction::Div(_) => 2,
            Instruction::IncrementRegister(_) => 2,
            Instruction::DecrementRegister(_) => 2,
            Instruction::SetRegister(_, _) => 2 + WORD_SIZE,
        }
    }
}


/// The exact binary encoding of an instruction: the opcode byte first, then
/// the operands, multi-byte operands big-endian, a data segment's payload
/// after its length prefix.
pub open spec fn spec_encode(i: InstrView) -> Seq<u8> {
    match i {
        InstrView::Nop => seq![0u8],
        InstrView::Halt => seq![1u8],
        InstrView::Load8(p) => seq![2u8] + word_bytes(p),
        InstrView::Store8(p) => seq![3u8] + word_bytes(p),
        InstrView::Load16(p) => seq![4u8] + word_bytes(p),
        InstrView::Store16(p) => seq![5u8] + word_bytes(p),
        InstrView::Load32(p) => seq![6u8] + word_bytes(p),
        InstrView::Store32(p) => seq![7u8] + word_bytes(p),
        InstrView::SetMain(p) => seq![8u8] + word_bytes(p),
        InstrView::Deref8(x) => seq![9u8, x],
        InstrView::Deref16(x) => seq![10u8, x],
        InstrView::Deref32(x) => seq![11u8, x],
        InstrView::Syscall(x) => seq![12u8, x],
        InstrView::CopyCodeMemory(src, n) => seq![13u8] + word_bytes(src) + word_bytes(n),
        InstrView::Data(len, data) => seq![14u8] + word_bytes(len) + data,
        InstrView::Swap(x) => seq![15u8, x],
        InstrView::Write8(x) => seq![16u8, x],
        InstrView::Write16(x) => seq![17u8, x],
        InstrView::Write32(x) => seq![18u8, x],
        InstrView::ReadStackPointer => seq![19u8],
        InstrView::WriteStackPointer => seq![20u8],
        InstrView::Jump(p) => seq![21u8] + word_bytes(p),
        InstrView::Call(p) => seq![22u8] + word_bytes(p),
        InstrView::Return => seq![23u8],
        InstrView::Increment => seq![24u8],
        InstrView::Decrement => seq![25u8],
        InstrView::Add(x) => seq![26u8, x],
        InstrView::Sub(x) => seq![27u8, x],
        InstrView::Compare(x) => seq![28u8, x],
        InstrView::JumpEqual(p) => seq![29u8] + word_bytes(p),
        InstrView::JumpNotEqual(p) => seq![30u8] + word_bytes(p),
        InstrView::JumpGreater(p) => seq![31u8] + word_bytes(p),
        InstrView::JumpLess(p) => seq![32u8] + word_bytes(p),
        InstrView::JumpGreaterEqual(p) => seq![33u8] + word_bytes(p),
        InstrView::JumpLessEqual(p) => seq![34u8] + word_bytes(p),
        InstrView::JumpZero(p) => seq![35u8] + word_bytes(p),
        InstrView::JumpNonzero(p) => seq![36u8] + word_bytes(p),
        InstrView::Push => seq![37u8],
        InstrView::Pop => seq![38u8],
        InstrView::PushRegister(x) => seq![39u8, x],
        InstrView::PopRegister(x) => seq![40u8, x],
        InstrView::Mul(x) => seq![41u8, x],
        InstrView::Div(x) => seq![42u8, x],
        InstrView::IncrementRegister(x) => seq![43u8, x],
        InstrView::DecrementRegister(x) => seq![44u8, x],
        InstrView::SetRegister(x, v) => seq![45u8, x] + word_bytes(v),
    }
}

/// The instruction encoded at the front of a byte sequence, or the error
/// decoding stops with: [`CodecError::Truncated`] when fewer bytes remain
/// than the opcode's layout requires, [`CodecError::UnrecognizedOpcode`] for
/// a leading byte outside the opcode table.
pub open spec fn spec_decode(s: Seq<u8>) -> Result<InstrView, CodecError> {
    if s.len() == 0 {
        Err(CodecError::Truncated)
    } else {
        let op = s[0];
        if op == 0 {
            Ok(InstrView::Nop)
        } else if op == 1 {
            Ok(InstrView::Halt)
        } else if op == 2 {
            if s.len() >= 5 {
                Ok(InstrView::Load8(word_value(s.skip(1))))
            } else {
                Err(CodecError::Truncated)
            }
        } else if op == 3 {
            if s.len() >= 5 {
                Ok(InstrView::Store8(word_value(s.skip(1))))
            } else {
                Err(CodecError::Truncated)
            }
        } else if op == 4 {
            if s.len() >= 5 {
                Ok(InstrView::Load16(word_value(s.skip(1))))
            } else {
                Err(CodecError::Truncated)
            }
        } else if op == 5 {
            if s.len() >= 5 {
                Ok(InstrView::Store16(word_value(s.skip(1))))
            } else {
                Err(CodecError::Truncated)
            }
        } else if op == 6 {
            if s.len() >= 5 {
                Ok(InstrView::Load32(word_value(s.skip(1))))
            } else {
                Err(CodecError::Truncated)
            }
        } else if op == 7 {
            if s.len() >= 5 {
                Ok(InstrView::Store32(word_value(s.skip(1))))
            } else {
                Err(CodecError::Truncated)
            }
        } else if op == 8 {
            if s.len() >= 5 {
                Ok(InstrView::SetMain(word_value(s.skip(1))))
            } else {
                Err(CodecError::Truncated)
            }
        } else if op == 9 {
            if s.len() >= 2 {
                Ok(InstrView::Deref8(s[1]))
            } else {
                Err(CodecError::Truncated)
            }
        } else if op == 10 {
            if s.len() >= 2 {
                Ok(InstrView::Deref16(s[1]))
            } else {
                Err(CodecError::Truncated)
            }
        } else if op == 11 {
            if s.len() >= 2 {
                Ok(InstrView::Deref32(s[1]))
            } else {
                Err(CodecError::Truncated)
            }
        } else if op == 12 {
            if s.len() >= 2 {
                Ok(InstrView::Syscall(s[1]))
            } else {
                Err(CodecError::Truncated)
            }
        } else if op == 13 {
            if s.len() >= 9 {
                Ok(InstrView::CopyCodeMemory(word_value(s.skip(1)), word_value(s.skip(5))))
            } else {
                Err(CodecError::Truncated)
            }
        } else if op == 14 {
            if s.len() >= 5 {
                let len = word_value(s.skip(1));
                if s.len() >= 5 + len {
                    Ok(InstrView::Data(len, s.subrange(5, 5 + len)))
                } else {
                    Err(CodecError::Truncated)
                }
            } else {
                Err(CodecError::Truncated)
            }
        } else if op == 15 {
            if s.len() >= 2 {
                Ok(InstrView::Swap(s[1]))
            } else {
                Err(CodecError::Truncated)
            }
        } else if op == 16 {
            if s.len() >= 2 {
                Ok(InstrView::Write8(s[1]))
            } else {
                Err(CodecError::Truncated)
            }
        } else if op == 17 {
            if s.len() >= 2 {
                Ok(InstrView::Write16(s[1]))
            } else {
                Err(CodecError::Truncated)
            }
        } else if op == 18 {
            if s.len() >= 2 {
                Ok(InstrView::Write32(s[1]))
            } else {
                Err(CodecError::Truncated)
            }
        } else if op == 19 {
            Ok(InstrView::ReadStackPointer)
        } else if op == 20 {
            Ok(InstrView::WriteStackPointer)
        } else if op == 21 {
            if s.len() >= 5 {
                Ok(InstrView::Jump(word_value(s.skip(1))))
            } else {
                Err(CodecError::Truncated)
            }
        } else if op == 22 {
            if s.len() >= 5 {
                Ok(InstrView::Call(word_value(s.skip(1))))
            } else {
                Err(CodecError::Truncated)
            }
        } else if op == 23 {
            Ok(InstrView::Return)
        } else if op == 24 {
            Ok(InstrView::Increment)
        } else if op == 25 {
            Ok(InstrView::Decrement)
        } else if op == 26 {
            if s.len() >= 2 {
                Ok(InstrView::Add(s[1]))
            } else {
                Err(CodecError::Truncated)
            }
        } else if op == 27 {
            if s.len() >= 2 {
                Ok(InstrView::Sub(s[1]))
            } else {
                Err(CodecError::Truncated)
            }
        } else if op == 28 {
            if s.len() >= 2 {
                Ok(InstrView::Compare(s[1]))
            } else {
                Err(CodecError::Truncated)
            }
        } else if op == 29 {
            if s.len() >= 5 {
                Ok(InstrView::JumpEqual(word_value(s.skip(1))))
            } else {
                Err(CodecError::Truncated)
            }
        } else if op == 30 {
            if s.len() >= 5 {
                Ok(InstrView::JumpNotEqual(word_value(s.skip(1))))
            } else {
                Err(CodecError::Truncated)
            }
        } else if op == 31 {
            if s.len() >= 5 {
                Ok(InstrView::JumpGreater(word_value(s.skip(1))))
            } else {
                Err(CodecError::Truncated)
            }
        } else if op == 32 {
            if s.len() >= 5 {
                Ok(InstrView::JumpLess(word_value(s.skip(1))))
            } else {
                Err(CodecError::Truncated)
            }
        } else if op == 33 {
            if s.len() >= 5 {
                Ok(InstrView::JumpGreaterEqual(word_value(s.skip(1))))
            } else {
                Err(CodecError::Truncated)
            }
        } else if op == 34 {
            if s.len() >= 5 {
                Ok(InstrView::JumpLessEqual(word_value(s.skip(1))))
            } else {
                Err(CodecError::Truncated)
            }
        } else if op == 35 {
            if s.len() >= 5 {
                Ok(InstrView::JumpZero(word_value(s.skip(1))))
            } else {
                Err(CodecError::Truncated)
            }
        } else if op == 36 {
            if s.len() >= 5 {
                Ok(InstrView::JumpNonzero(word_value(s.skip(1))))
            } else {
                Err(CodecError::Truncated)
            }
        } else if op == 37 {
            Ok(InstrView::Push)
        } else if op == 38 {
            Ok(InstrView::Pop)
        } else if op == 39 {
            if s.len() >= 2 {
                Ok(InstrView::PushRegister(s[1]))
            } else {
                Err(CodecError::Truncated)
            }
        } else if op == 40 {
            if s.len() >= 2 {
                Ok(InstrView::PopRegister(s[1]))
            } else {
                Err(CodecError::Truncated)
            }
        } else if op == 41 {
            if s.len() >= 2 {
                Ok(InstrView::Mul(s[1]))
            } else {
                Err(CodecError::Truncated)
            }
        } else if op == 42 {
            if s.len() >= 2 {
                Ok(InstrView::Div(s[1]))
            } else {
                Err(CodecError::Truncated)
            }
        } else if op == 43 {
            if s.len() >= 2 {
                Ok(InstrView::IncrementRegister(s[1]))
            } else {
                Err(CodecError::Truncated)
            }
        } else if op == 44 {
            if s.len() >= 2 {
                Ok(InstrView::DecrementRegister(s[1]))
            } else {
                Err(CodecError::Truncated)
            }
        } else if op == 45 {
            if s.len() >= 6 {
                Ok(InstrView::SetRegister(s[1], word_value(s.skip(2))))
            } else {
                Err(CodecError::Truncated)
            }
        } else {
            Err(CodecError::UnrecognizedOpcode(op))
        }
    }
}

/// The result of an executable decode, seen at the model level.
pub open spec fn decoded(r: Result<Instruction, CodecError>) -> Result<InstrView, CodecError> {
    match r {
        Ok(i) => Ok(i@),
        Err(e) => Err(e),
    }
}

/// A successfully decoded instruction fits the buffer it was decoded from.
pub proof fn lemma_decode_size(s: Seq<u8>)
    ensures
        spec_decode(s) matches Ok(i) ==> spec_size(i) <= s.len(),
{
}

/// Round trip of the codec: the encoding of a well-formed instruction is as
/// long as its reported size, and decoding a buffer that starts with that
/// encoding yields the instruction back, whatever bytes follow it.
pub proof fn lemma_codec_round_trip(i: InstrView, rest: Seq<u8>)
    requires
        i.wf(),
    ensures
        spec_encode(i).len() == spec_size(i),
        spec_decode(spec_encode(i) + rest) == Ok::<InstrView, CodecError>(i),
{
    lemma_word_round_trip();
    let s = spec_encode(i) + rest;
    match i {
        InstrView::Load8(p) | InstrView::Store8(p) | InstrView::Load16(p) | InstrView::Store16(p)
            | InstrView::Load32(p) | InstrView::Store32(p) | InstrView::SetMain(p)
            | InstrView::Jump(p) | InstrView::Call(p) | InstrView::JumpEqual(p)
            | InstrView::JumpNotEqual(p) | InstrView::JumpGreater(p) | InstrView::JumpLess(p)
            | InstrView::JumpGreaterEqual(p) | InstrView::JumpLessEqual(p)
            | InstrView::JumpZero(p) | InstrView::JumpNonzero(p) => {
            assert(s.skip(1) =~= word_bytes(p) + rest);
        },
        InstrView::CopyCodeMemory(src, n) => {
            assert(s.skip(1) =~= word_bytes(src) + (word_bytes(n) + rest));
            assert(s.skip(5) =~= word_bytes(n) + rest);
        },
        InstrView::Data(len, data) => {
            assert(s.skip(1) =~= word_bytes(len) + (data + rest));
            assert(s.subrange(5, 5 + len as int) =~= data);
        },
        InstrView::SetRegister(x, v) => {
            assert(s.skip(2) =~= word_bytes(v) + rest);
        },
        _ => {},
    }
}

/// Read the big-endian word at the given offset of a buffer.
fn word_at(code: &[u8], at: usize) -> (r: u32)
    requires
        at + 4 <= code@.len(),
    ensures
        r == word_value(code@.skip(at as int)),
{
    (code[at] as u32) << 24 | (code[at + 1] as u32) << 16 | (code[at + 2] as u32) << 8 | (
    code[at + 3] as u32)
}

impl Instruction {
    /// Convert this instruction to its encoded bytes.
    pub fn bytes(&self) -> (r: Vec<u8>)
        requires
            self@.wf(),
        ensures
            r@ == spec_encode(self@),
    {
        let mut bytes: Vec<u8> = Vec::new();
        match self {
            Instruction::Nop => bytes.push(0),
            Instruction::Halt => bytes.push(1),
            Instruction::Load8(p) => {
                bytes.push(2);
                push_word(&mut bytes, *p);
            }
            Instruction::Store8(p) => {
                bytes.push(3);
                push_word(&mut bytes, *p);
            }
            Instruction::Load16(p) => {
                bytes.push(4);
                push_word(&mut bytes, *p);
            }
            Instruction::Store16(p) => {
                bytes.push(5);
                push_word(&mut bytes, *p);
            }
            Instruction::Load32(p) => {
                bytes.push(6);
                push_word(&mut bytes, *p);
            }
            Instruction::Store32(p) => {
                bytes.push(7);
                push_word(&mut bytes, *p);
            }
            Instruction::SetMain(p) => {
                bytes.push(8);
                push_word(&mut bytes, *p);
            }
            Instruction::Deref8(x) => {
                bytes.push(9);
                bytes.push(*x);
            }
            Instruction::Deref16(x) => {
                bytes.push(10);
                bytes.push(*x);
            }
            Instruction::Deref32(x) => {
                bytes.push(11);
                bytes.push(*x);
            }
            Instruction::Syscall(x) => {
                bytes.push(12);
                bytes.push(*x);
            }
            Instruction::CopyCodeMemory(src, n) => {
                bytes.push(13);
                push_word(&mut bytes, *src);
                push_word(&mut bytes, *n);
            }
            Instruction::Data(len, data) => {
                bytes.push(14);
                push_word(&mut bytes, *len);
                bytes.extend_from_slice(data.as_slice());
            }
            Instruction::Swap(x) => {
                bytes.push(15);
                bytes.push(*x);
            }
            Instruction::Write8(x) => {
                bytes.push(16);
                bytes.push(*x);
            }
            Instruction::Write16(x) => {
                bytes.push(17);
                bytes.push(*x);
            }
            Instruction::Write32(x) => {
                bytes.push(18);
                bytes.push(*x);
            }
            Instruction::ReadStackPointer => bytes.push(19),
            Instruction::WriteStackPointer => bytes.push(20),
            Instruction::Jump(p) => {
                bytes.push(21);
                push_word(&mut bytes, *p);
            }
            Instruction::Call(p) => {
                bytes.push(22);
                push_word(&mut bytes, *p);
            }
            Instruction::Return => bytes.push(23),
            Instruction::Increment => bytes.push(24),
            Instruction::Decrement => bytes.push(25),
            Instruction::Add(x) => {
                bytes.push(26);
                bytes.push(*x);
            }
            Instruction::Sub(x) => {
                bytes.push(27);
                bytes.push(*x);
            }
            Instruction::Compare(x) => {
                bytes.push(28);
                bytes.push(*x);
            }
            Instruction::JumpEqual(p) => {
                bytes.push(29);
                push_word(&mut bytes, *p);
            }
            Instruction::JumpNotEqual(p) => {
                bytes.push(30);
                push_word(&mut bytes, *p);
            }
            Instruction::JumpGreater(p) => {
                bytes.push(31);
                push_word(&mut bytes, *p);
            }
            Instruction::JumpLess(p) => {
                bytes.push(32);
                push_word(&mut bytes, *p);
            }
            Instruction::JumpGreaterEqual(p) => {
                bytes.push(33);
                push_word(&mut bytes, *p);
            }
            Instruction::JumpLessEqual(p) => {
                bytes.push(34);
                push_word(&mut bytes, *p);
            }
            Instruction::JumpZero(p) => {
                bytes.push(35);
                push_word(&mut bytes, *p);
            }
            Instruction::JumpNonzero(p) => {
                bytes.push(36);
                push_word(&mut bytes, *p);
            }
            Instruction::Push => bytes.push(37),
            Instruction::Pop => bytes.push(38),
            Instruction::PushRegister(x) => {
                bytes.push(39);
                bytes.push(*x);
            }
            Instruction::PopRegister(x) => {
                bytes.push(40);
                bytes.push(*x);
            }
            Instruction::Mul(x) => {
                bytes.push(41);
                bytes.push(*x);
            }
            Instruction::Div(x) => {
                bytes.push(42);
                bytes.push(*x);
            }
            Instruction::IncrementRegister(x) => {
                bytes.push(43);
                bytes.push(*x);
            }
            Instruction::DecrementRegister(x) => {
                bytes.push(44);
                bytes.push(*x);
            }
            Instruction::SetRegister(x, v) => {
                bytes.push(45);
                bytes.push(*x);
                push_word(&mut bytes, *v);
            }
        }
        bytes
    }

    /// Parse the first instruction from the byte buffer. Never panics on
    /// malformed input: it returns the typed error [`spec_decode`] gives.
    pub fn parse(code: &[u8]) -> (r: Result<Instruction, CodecError>)
        ensures
            decoded(r) == spec_decode(code@),
            r matches Ok(i) ==> i@.wf(),
    {
        if code.len() == 0 {
            return Err(CodecError::Truncated);
        }
        match code[0] {
            0 => Ok(Instruction::Nop),
            1 => Ok(Instruction::Halt),
            2 => {
                if code.len() >= 5 {
                    Ok(Instruction::Load8(word_at(code, 1)))
                } else {
                    Err(CodecError::Truncated)
                }
            }
            3 => {
                if code.len() >= 5 {
                    Ok(Instruction::Store8(word_at(code, 1)))
                } else {
                    Err(CodecError::Truncated)
                }
            }
            4 => {
                if code.len() >= 5 {
                    Ok(Instruction::Load16(word_at(code, 1)))
                } else {
                    Err(CodecError::Truncated)
                }
            }
            5 => {
                if code.len() >= 5 {
                    Ok(Instruction::Store16(word_at(code, 1)))
                } else {
                    Err(CodecError::Truncated)
                }
            }
            6 => {
                if code.len() >= 5 {
                    Ok(Instruction::Load32(word_at(code, 1)))
                } else {
                    Err(CodecError::Truncated)
                }
            }
            7 => {
                if code.len() >= 5 {
                    Ok(Instruction::Store32(word_at(code, 1)))
                } else {
                    Err(CodecError::Truncated)
                }
            }
            8 => {
                if code.len() >= 5 {
                    Ok(Instruction::SetMain(word_at(code, 1)))
                } else {
                    Err(CodecError::Truncated)
                }
            }
            9 => {
                if code.len() >= 2 {
                    Ok(Instruction::Deref8(code[1]))
                } else {
                    Err(CodecError::Truncated)
                }
            }
            10 => {
                if code.len() >= 2 {
                    Ok(Instruction::Deref16(code[1]))
                } else {
                    Err(CodecError::Truncated)
                }
            }
            11 => {
                if code.len() >= 2 {
                    Ok(Instruction::Deref32(code[1]))
                } else {
                    Err(CodecError::Truncated)
                }
            }
            12 => {
                if code.len() >= 2 {
                    Ok(Instruction::Syscall(code[1]))
                } else {
                    Err(CodecError::Truncated)
                }
            }
            13 => {
                if code.len() >= 9 {
                    Ok(Instruction::CopyCodeMemory(word_at(code, 1), word_at(code, 5)))
                } else {
                    Err(CodecError::Truncated)
                }
            }
            14 => {
                if code.len() >= 5 {
                    let len = word_at(code, 1);
                    if code.len() - 5 >= len as usize {
                        let data = slice_to_vec(slice_subrange(code, 5, 5 + len as usize));
                        assert(data@ =~= code@.subrange(5, 5 + len as int));
                        Ok(Instruction::Data(len, data))
                    } else {
                        Err(CodecError::Truncated)
                    }
                } else {
                    Err(CodecError::Truncated)
                }
            }
            15 => {
                if code.len() >= 2 {
                    Ok(Instruction::Swap(code[1]))
                } else {
                    Err(CodecError::Truncated)
                }
            }
            16 => {
                if code.len() >= 2 {
                    Ok(Instruction::Write8(code[1]))
                } else {
                    Err(CodecError::Truncated)
                }
            }
            17 => {
                if code.len() >= 2 {
                    Ok(Instruction::Write16(code[1]))
                } else {
                    Err(CodecError::Truncated)
                }
            }
            18 => {
                if code.len() >= 2 {
                    Ok(Instruction::Write32(code[1]))
                } else {
                    Err(CodecError::Truncated)
                }
            }
            19 => Ok(Instruction::ReadStackPointer),
            20 => Ok(Instruction::WriteStackPointer),
            21 => {
                if code.len() >= 5 {
                    Ok(Instruction::Jump(word_at(code, 1)))
                } else {
                    Err(CodecError::Truncated)
                }
            }
            22 => {
                if code.len() >= 5 {
                    Ok(Instruction::Call(word_at(code, 1)))
                } else {
                    Err(CodecError::Truncated)
                }
            }
            23 => Ok(Instruction::Return),
            24 => Ok(Instruction::Increment),
            25 => Ok(Instruction::Decrement),
            26 => {
                if code.len() >= 2 {
                    Ok(Instruction::Add(code[1]))
                } else {
                    Err(CodecError::Truncated)
                }
            }
            27 => {
                if code.len() >= 2 {
                    Ok(Instruction::Sub(code[1]))
                } else {
                    Err(CodecError::Truncated)
                }
            }
            28 => {
                if code.len() >= 2 {
                    Ok(Instruction::Compare(code[1]))
                } else {
                    Err(CodecError::Truncated)
                }
            }
            29 => {
                if code.len() >= 5 {
                    Ok(Instruction::JumpEqual(word_at(code, 1)))
                } else {
                    Err(CodecError::Truncated)
                }
            }
            30 => {
                if code.len() >= 5 {
                    Ok(Instruction::JumpNotEqual(word_at(code, 1)))
                } else {
                    Err(CodecError::Truncated)
                }
            }
            31 => {
                if code.len() >= 5 {
                    Ok(Instruction::JumpGreater(word_at(code, 1)))
                } else {
                    Err(CodecError::Truncated)
                }
            }
            32 => {
                if code.len() >= 5 {
                    Ok(Instruction::JumpLess(word_at(code, 1)))
                } else {
                    Err(CodecError::Truncated)
                }
            }
            33 => {
                if code.len() >= 5 {
                    Ok(Instruction::JumpGreaterEqual(word_at(code, 1)))
                } else {
                    Err(CodecError::Truncated)
                }
            }
            34 => {
                if code.len() >= 5 {
                    Ok(Instruction::JumpLessEqual(word_at(code, 1)))
                } else {
                    Err(CodecError::Truncated)
                }
            }
            35 => {
                if code.len() >= 5 {
                    Ok(Instruction::JumpZero(word_at(code, 1)))
                } else {
                    Err(CodecError::Truncated)
                }
            }
            36 => {
                if code.len() >= 5 {
                    Ok(Instruction::JumpNonzero(word_at(code, 1)))
                } else {
                    Err(CodecError::Truncated)
                }
            }
            37 => Ok(Instruction::Push),
            38 => Ok(Instruction::Pop),
            39 => {
                if code.len() >= 2 {
                    Ok(Instruction::PushRegister(code[1]))
                } else {
                    Err(CodecError::Truncated)
                }
            }
            40 => {
                if code.len() >= 2 {
                    Ok(Instruction::PopRegister(code[1]))
                } else {
                    Err(CodecError::Truncated)
                }
            }
            41 => {
                if code.len() >= 2 {
                    Ok(Instruction::Mul(code[1]))
                } else {
                    Err(CodecError::Truncated)
                }
            }
            42 => {
                if code.len() >= 2 {
                    Ok(Instruction::Div(code[1]))
                } else {
                    Err(CodecError::Truncated)
                }
            }
            43 => {
                if code.len() >= 2 {
                    Ok(Instruction::IncrementRegister(code[1]))
                } else {
                    Err(CodecError::Truncated)
                }
            }
            44 => {
                if code.len() >= 2 {
                    Ok(Instruction::DecrementRegister(code[1]))
                } else {
                    Err(CodecError::Truncated)
                }
            }
            45 => {
                if code.len() >= 6 {
                    Ok(Instruction::SetRegister(code[1], word_at(code, 2)))
                } else {
                    Err(CodecError::Truncated)
                }
            }
            c => Err(CodecError::UnrecognizedOpcode(c)),
        }
    }
}

} // verus!
