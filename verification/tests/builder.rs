//! Tests for the program builder: addresses, compilation, placeholders and
//! patching.

use my_vm::{Instruction, Program};
use my_vm::errors::BuildError;

#[test]
fn add_instruction_returns_indices() {
    let mut p = Program::new();
    assert_eq!(p.add_instruction(Instruction::Nop), 0);
    assert_eq!(p.add_instruction(Instruction::Halt), 1);
    assert_eq!(p.add_nop(), 2);
    assert_eq!(p.add_halt(), 3);
    assert_eq!(p.add_syscall(1), 4);
    assert_eq!(p.add_return(), 5);
}

#[test]
fn resolve_sums_preceding_sizes() {
    let mut p = Program::new();
    p.add_instruction(Instruction::Nop); // size 1, address 0
    p.add_instruction(Instruction::SetMain(5)); // size 5, address 1
    p.add_instruction(Instruction::Deref8(2)); // size 2, address 6
    p.add_instruction(Instruction::Data(3, vec![7, 8, 9])); // size 8, address 8
    p.add_instruction(Instruction::Halt); // size 1, address 16

    assert_eq!(p.resolve(0).unwrap().0, 0);
    assert_eq!(p.resolve(1).unwrap().0, 1);
    assert_eq!(p.resolve(2).unwrap().0, 6);
    assert_eq!(p.resolve(3).unwrap().0, 8);
    assert_eq!(p.resolve(4).unwrap().0, 16);
    assert_eq!(p.resolve(1).unwrap().1, &Instruction::SetMain(5));
    assert!(p.resolve(5).is_none());
}

#[test]
fn compile_concatenates_encodings() {
    let mut p = Program::new();
    p.add_instruction(Instruction::SetMain(5));
    p.add_instruction(Instruction::Increment);
    p.add_instruction(Instruction::Halt);
    assert_eq!(p.compile(), vec![8, 0, 0, 0, 5, 24, 1]);
}

#[test]
fn compile_twice_yields_identical_bytes() {
    let mut p = Program::new();
    p.add_data(vec![1, 2, 3]);
    p.add_instruction(Instruction::Jump(0));
    assert_eq!(p.compile(), p.compile());
}

#[test]
fn add_data_stores_length_prefix() {
    let mut p = Program::new();
    p.add_data(vec![10, 20]);
    assert_eq!(p.compile(), vec![14, 0, 0, 0, 2, 10, 20]);
}

#[test]
fn add_copy_data_resolves_payload_address() {
    let mut p = Program::new();
    p.add_instruction(Instruction::Nop); // address 0
    let d = p.add_data(vec![1, 2, 3, 4]); // address 1, payload at 6
    let c = p.add_copy_data(d).unwrap();
    assert_eq!(c, 2);
    let (_, i) = p.resolve(c).unwrap();
    assert_eq!(i, &Instruction::CopyCodeMemory(6, 4));
}

#[test]
fn add_copy_data_rejects_bad_indices() {
    let mut p = Program::new();
    let n = p.add_nop();
    assert_eq!(p.add_copy_data(7), Err(BuildError::InvalidDataIndex));
    assert_eq!(p.add_copy_data(n), Err(BuildError::NotData));
}

#[test]
fn add_jump_targets_resolved_address() {
    let mut p = Program::new();
    p.add_instruction(Instruction::SetMain(1)); // size 5
    let target = p.add_nop(); // address 5
    let j = p.add_jump(target).unwrap();
    assert_eq!(p.resolve(j).unwrap().1, &Instruction::Jump(5));
    assert_eq!(p.add_jump(99), Err(BuildError::InvalidInstructionIndex));
}

#[test]
fn dummy_jump_patched_to_later_target() {
    let mut p = Program::new();
    let j = p.add_dummy_jump();
    assert_eq!(p.resolve(j).unwrap().1, &Instruction::Jump(u32::MAX));
    let target = p.add_halt(); // address 5
    p.replace_dummy_address(j, target).unwrap();
    assert_eq!(p.resolve(j).unwrap().1, &Instruction::Jump(5));
}

#[test]
fn every_dummy_jump_kind_patches() {
    let mut p = Program::new();
    let js = vec![
        p.add_dummy_jump(),
        p.add_dummy_call(),
        p.add_dummy_jump_equal(),
        p.add_dummy_jump_not_equal(),
        p.add_dummy_jump_greater(),
        p.add_dummy_jump_less(),
        p.add_dummy_jump_greater_equal(),
        p.add_dummy_jump_less_equal(),
        p.add_dummy_jump_zero(),
        p.add_dummy_jump_nonzero(),
    ];
    let target = p.add_halt(); // after ten 5-byte jumps: address 50
    for j in js {
        p.replace_dummy_address(j, target).unwrap();
    }
    assert_eq!(p.resolve(0).unwrap().1, &Instruction::Jump(50));
    assert_eq!(p.resolve(1).unwrap().1, &Instruction::Call(50));
    assert_eq!(p.resolve(9).unwrap().1, &Instruction::JumpNonzero(50));
}

#[test]
fn patching_non_placeholder_fails() {
    let mut p = Program::new();
    let n = p.add_nop();
    let target = p.add_halt();
    assert_eq!(
        p.replace_dummy_address(n, target),
        Err(BuildError::NotDummyJump)
    );
    // a jump that already carries a real address is not a placeholder
    let j = p.add_jump(target).unwrap();
    assert_eq!(
        p.replace_dummy_address(j, target),
        Err(BuildError::NotDummyJump)
    );
}

#[test]
fn patching_twice_fails_after_resolution() {
    let mut p = Program::new();
    let j = p.add_dummy_jump();
    let target = p.add_halt();
    p.replace_dummy_address(j, target).unwrap();
    assert_eq!(
        p.replace_dummy_address(j, target),
        Err(BuildError::NotDummyJump)
    );
}

#[test]
fn patch_rejects_bad_indices() {
    let mut p = Program::new();
    let j = p.add_dummy_jump();
    assert_eq!(
        p.replace_dummy_address(j, 9),
        Err(BuildError::InvalidJumpIndex)
    );
    assert_eq!(
        p.replace_dummy_address(9, j),
        Err(BuildError::InvalidInstructionIndex)
    );
}

#[test]
fn dummy_copy_data_patched_to_segment() {
    let mut p = Program::new();
    let c = p.add_dummy_copy_data(); // address 0, size 9
    let d = p.add_data(vec![5, 6]); // address 9, payload at 14
    p.replace_dummy_copy_data(c, d).unwrap();
    assert_eq!(p.resolve(c).unwrap().1, &Instruction::CopyCodeMemory(14, 2));
}

#[test]
fn replace_dummy_copy_data_rejects_bad_indices() {
    let mut p = Program::new();
    let c = p.add_dummy_copy_data();
    let n = p.add_nop();
    let d = p.add_data(vec![1]);
    assert_eq!(
        p.replace_dummy_copy_data(c, 9),
        Err(BuildError::InvalidDataIndex)
    );
    assert_eq!(p.replace_dummy_copy_data(c, n), Err(BuildError::NotData));
    assert_eq!(
        p.replace_dummy_copy_data(9, d),
        Err(BuildError::InvalidInstructionIndex)
    );
    assert_eq!(
        p.replace_dummy_copy_data(n, d),
        Err(BuildError::NotDummyCopyData)
    );
}

#[test]
fn default_program_is_empty() {
    let p = Program::default();
    assert!(p.compile().is_empty());
}
