//! Round-trip and error tests for the instruction codec.

use my_vm::Instruction;
use my_vm::errors::CodecError;

/// One sample value of every instruction shape.
fn samples() -> Vec<Instruction> {
    vec![
        Instruction::Nop,
        Instruction::Halt,
        Instruction::Load8(0),
        Instruction::Store8(1),
        Instruction::Load16(0x1234),
        Instruction::Store16(0xffff_ffff),
        Instruction::Load32(0x0102_0304),
        Instruction::Store32(7),
        Instruction::SetMain(0xdead_beef),
        Instruction::Deref8(0),
        Instruction::Deref16(3),
        Instruction::Deref32(255),
        Instruction::Syscall(1),
        Instruction::CopyCodeMemory(0x11, 0x2222),
        Instruction::Data(0, vec![]),
        Instruction::Data(4, vec![1, 2, 3, 4]),
        Instruction::Swap(9),
        Instruction::Write8(2),
        Instruction::Write16(4),
        Instruction::Write32(8),
        Instruction::ReadStackPointer,
        Instruction::WriteStackPointer,
        Instruction::Jump(99),
        Instruction::Call(100),
        Instruction::Return,
        Instruction::Increment,
        Instruction::Decrement,
        Instruction::Add(1),
        Instruction::Sub(2),
        Instruction::Compare(3),
        Instruction::JumpEqual(10),
        Instruction::JumpNotEqual(11),
        Instruction::JumpGreater(12),
        Instruction::JumpLess(13),
        Instruction::JumpGreaterEqual(14),
        Instruction::JumpLessEqual(15),
        Instruction::JumpZero(16),
        Instruction::JumpNonzero(17),
        Instruction::Push,
        Instruction::Pop,
        Instruction::PushRegister(5),
        Instruction::PopRegister(6),
        Instruction::Mul(7),
        Instruction::Div(8),
        Instruction::IncrementRegister(9),
        Instruction::DecrementRegister(10),
        Instruction::SetRegister(2, 0x0a0b_0c0d),
    ]
}

#[test]
fn round_trip_every_shape() {
    for i in samples() {
        let bytes = i.bytes();
        assert_eq!(i.size(), bytes.len());
        let back = Instruction::parse(&bytes).unwrap();
        assert_eq!(back, i);
    }
}

#[test]
fn round_trip_with_trailing_bytes() {
    for i in samples() {
        let mut bytes = i.bytes();
        bytes.extend_from_slice(&[0x99, 0x98, 0x97]);
        let back = Instruction::parse(&bytes).unwrap();
        assert_eq!(back, i);
    }
}

#[test]
fn exact_encodings() {
    assert_eq!(Instruction::Nop.bytes(), vec![0]);
    assert_eq!(Instruction::Halt.bytes(), vec![1]);
    assert_eq!(
        Instruction::SetMain(0x0102_0304).bytes(),
        vec![8, 0x01, 0x02, 0x03, 0x04]
    );
    assert_eq!(Instruction::Deref8(7).bytes(), vec![9, 7]);
    assert_eq!(
        Instruction::CopyCodeMemory(0x0102_0304, 0x0506_0708).bytes(),
        vec![13, 1, 2, 3, 4, 5, 6, 7, 8]
    );
    assert_eq!(
        Instruction::Data(3, vec![0xaa, 0xbb, 0xcc]).bytes(),
        vec![14, 0, 0, 0, 3, 0xaa, 0xbb, 0xcc]
    );
    assert_eq!(
        Instruction::SetRegister(2, 0x0102_0304).bytes(),
        vec![45, 2, 1, 2, 3, 4]
    );
    assert_eq!(Instruction::Jump(5).bytes(), vec![21, 0, 0, 0, 5]);
}

#[test]
fn sizes_match_layout() {
    assert_eq!(Instruction::Nop.size(), 1);
    assert_eq!(Instruction::Syscall(0).size(), 2);
    assert_eq!(Instruction::Jump(0).size(), 5);
    assert_eq!(Instruction::CopyCodeMemory(0, 0).size(), 9);
    assert_eq!(Instruction::SetRegister(0, 0).size(), 6);
    assert_eq!(Instruction::Data(2, vec![1, 2]).size(), 7);
}

#[test]
fn parse_empty_is_truncated() {
    assert_eq!(Instruction::parse(&[]), Err(CodecError::Truncated));
}

#[test]
fn parse_short_operand_is_truncated() {
    assert_eq!(Instruction::parse(&[2]), Err(CodecError::Truncated));
    assert_eq!(Instruction::parse(&[2, 0, 0, 0]), Err(CodecError::Truncated));
    assert_eq!(Instruction::parse(&[9]), Err(CodecError::Truncated));
    assert_eq!(Instruction::parse(&[45, 1, 0, 0]), Err(CodecError::Truncated));
}

#[test]
fn parse_short_data_payload_is_truncated() {
    // length prefix says five bytes but only two follow
    assert_eq!(
        Instruction::parse(&[14, 0, 0, 0, 5, 1, 2]),
        Err(CodecError::Truncated)
    );
}

#[test]
fn parse_unknown_opcode_is_typed_error() {
    assert_eq!(
        Instruction::parse(&[46]),
        Err(CodecError::UnrecognizedOpcode(46))
    );
    assert_eq!(
        Instruction::parse(&[255, 0, 0]),
        Err(CodecError::UnrecognizedOpcode(255))
    );
}
