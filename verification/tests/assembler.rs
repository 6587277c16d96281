//! Tests for the two-pass assembler: grammar, label resolution and the
//! compile-time failure model.

use my_vm::{Instruction, Program};
use my_vm::assembler::assemble;
use my_vm::errors::{AsmError, BuildError};

fn bytes_of(p: &Program) -> Vec<u8> {
    p.compile()
}

#[test]
fn empty_source_assembles_to_empty_program() {
    let p = assemble(b"").unwrap();
    assert!(bytes_of(&p).is_empty());
    let p = assemble(b"\n\n   \n\t\n").unwrap();
    assert!(bytes_of(&p).is_empty());
}

#[test]
fn comments_are_skipped() {
    let p = assemble(b"# a comment line\n// another\nnop\n").unwrap();
    assert_eq!(bytes_of(&p), vec![0]);
}

#[test]
fn mnemonics_are_case_insensitive() {
    let a = assemble(b"NOP\nHalt\nincrement\n").unwrap();
    let b = assemble(b"nop\nhalt\nINCREMENT\n").unwrap();
    assert_eq!(bytes_of(&a), bytes_of(&b));
    assert_eq!(bytes_of(&a), vec![0, 1, 24]);
}

#[test]
fn every_mnemonic_assembles() {
    let src = b"nop\nhalt\nload8 1\nstore8 2\nload16 3\nstore16 4\nload32 5\nstore32 6\n\
set 7\nderef8 1\nderef16 2\nderef32 3\nsyscall 0\nswap 1\nwrite8 2\nwrite16 3\nwrite32 4\n\
readstackpointer\nwritestackpointer\nreturn\nincrement\ndecrement\nadd 1\nsub 2\ncompare 3\n\
push\npop\npushregister 1\npopregister 2\nmul 3\ndiv 4\nincrementregister 5\n\
decrementregister 6\nsetregister 7 8\n";
    let p = assemble(src).unwrap();

    let mut q = Program::new();
    q.add_instruction(Instruction::Nop);
    q.add_instruction(Instruction::Halt);
    q.add_instruction(Instruction::Load8(1));
    q.add_instruction(Instruction::Store8(2));
    q.add_instruction(Instruction::Load16(3));
    q.add_instruction(Instruction::Store16(4));
    q.add_instruction(Instruction::Load32(5));
    q.add_instruction(Instruction::Store32(6));
    q.add_instruction(Instruction::SetMain(7));
    q.add_instruction(Instruction::Deref8(1));
    q.add_instruction(Instruction::Deref16(2));
    q.add_instruction(Instruction::Deref32(3));
    q.add_instruction(Instruction::Syscall(0));
    q.add_instruction(Instruction::Swap(1));
    q.add_instruction(Instruction::Write8(2));
    q.add_instruction(Instruction::Write16(3));
    q.add_instruction(Instruction::Write32(4));
    q.add_instruction(Instruction::ReadStackPointer);
    q.add_instruction(Instruction::WriteStackPointer);
    q.add_instruction(Instruction::Return);
    q.add_instruction(Instruction::Increment);
    q.add_instruction(Instruction::Decrement);
    q.add_instruction(Instruction::Add(1));
    q.add_instruction(Instruction::Sub(2));
    q.add_instruction(Instruction::Compare(3));
    q.add_instruction(Instruction::Push);
    q.add_instruction(Instruction::Pop);
    q.add_instruction(Instruction::PushRegister(1));
    q.add_instruction(Instruction::PopRegister(2));
    q.add_instruction(Instruction::Mul(3));
    q.add_instruction(Instruction::Div(4));
    q.add_instruction(Instruction::IncrementRegister(5));
    q.add_instruction(Instruction::DecrementRegister(6));
    q.add_instruction(Instruction::SetRegister(7, 8));

    assert_eq!(bytes_of(&p), bytes_of(&q));
}

#[test]
fn backward_label_reference_resolves() {
    let p = assemble(b"label start\nnop\njump start\n").unwrap();
    assert_eq!(bytes_of(&p), vec![0, 21, 0, 0, 0, 0]);
}

#[test]
fn forward_label_reference_resolves() {
    let p = assemble(b"jump end\nnop\nlabel end\nhalt\n").unwrap();
    // the jump targets the halt at address 6
    assert_eq!(bytes_of(&p), vec![21, 0, 0, 0, 6, 0, 1]);
}

#[test]
fn call_and_conditional_jumps_resolve_labels() {
    let p = assemble(
        b"label f\nreturn\ncall f\njumpequal f\njumpnotequal f\njumpgreater f\njumpless f\n\
jumpgreaterequal f\njumplessequal f\njumpzero f\njumpnonzero f\n",
    )
    .unwrap();
    let bytes = bytes_of(&p);
    assert_eq!(bytes[0], 23); // return at address 0
    assert_eq!(&bytes[1..6], &[22, 0, 0, 0, 0]); // call 0
    assert_eq!(&bytes[6..11], &[29, 0, 0, 0, 0]); // jumpEqual 0
    assert_eq!(&bytes[41..46], &[36, 0, 0, 0, 0]); // jumpNonzero 0
}

#[test]
fn data_string_embeds_nul_terminated_text() {
    let p = assemble(b"dataString Hello world!\n").unwrap();
    let mut expected = vec![14, 0, 0, 0, 13];
    expected.extend_from_slice(b"Hello world!\0");
    assert_eq!(bytes_of(&p), expected);
}

#[test]
fn data_string_takes_rest_of_line_verbatim() {
    let p = assemble(b"datastring  a b  c\n").unwrap();
    let mut expected = vec![14, 0, 0, 0, 7];
    expected.extend_from_slice(b"a b  c\0");
    assert_eq!(bytes_of(&p), expected);
}

#[test]
fn empty_data_string_is_a_lone_nul() {
    let p = assemble(b"datastring\n").unwrap();
    assert_eq!(bytes_of(&p), vec![14, 0, 0, 0, 1, 0]);
}

#[test]
fn copy_code_memory_references_data_label() {
    let p = assemble(b"label s\ndataString Hi\ncopyCodeMemory s\n").unwrap();
    // data segment: opcode + length word + "Hi\0" = 8 bytes; payload at 5
    let bytes = bytes_of(&p);
    assert_eq!(&bytes[8..17], &[13, 0, 0, 0, 5, 0, 0, 0, 3]);
}

#[test]
fn unknown_mnemonic_names_lowercased_token() {
    assert_eq!(assemble(b"bogus 1\n").unwrap_err(),
        AsmError::UnknownCommand(b"bogus".to_vec())
    );
    assert_eq!(assemble(b"FROB\n").unwrap_err(),
        AsmError::UnknownCommand(b"frob".to_vec())
    );
}

#[test]
fn wrong_argument_count_is_unknown_command() {
    assert_eq!(assemble(b"nop 1\n").unwrap_err(),
        AsmError::UnknownCommand(b"nop".to_vec())
    );
    assert_eq!(assemble(b"set\n").unwrap_err(),
        AsmError::UnknownCommand(b"set".to_vec())
    );
    assert_eq!(assemble(b"setregister 1\n").unwrap_err(),
        AsmError::UnknownCommand(b"setregister".to_vec())
    );
    assert_eq!(assemble(b"label a b\n").unwrap_err(),
        AsmError::UnknownCommand(b"label".to_vec())
    );
}

#[test]
fn bad_numbers_name_the_token() {
    assert_eq!(assemble(b"set 12x\n").unwrap_err(),
        AsmError::InvalidNumber(b"12x".to_vec())
    );
    assert_eq!(assemble(b"set -1\n").unwrap_err(),
        AsmError::InvalidNumber(b"-1".to_vec())
    );
    assert_eq!(assemble(b"set 4294967296\n").unwrap_err(),
        AsmError::InvalidNumber(b"4294967296".to_vec())
    );
    assert_eq!(assemble(b"swap 256\n").unwrap_err(),
        AsmError::InvalidNumber(b"256".to_vec())
    );
    assert_eq!(assemble(b"setregister 1 99999999999\n").unwrap_err(),
        AsmError::InvalidNumber(b"99999999999".to_vec())
    );
}

#[test]
fn numbers_accept_leading_plus_and_zeros() {
    let p = assemble(b"set +5\nswap 007\n").unwrap();
    assert_eq!(bytes_of(&p), vec![8, 0, 0, 0, 5, 15, 7]);
    assert_eq!(assemble(b"set +\n").unwrap_err(),
        AsmError::InvalidNumber(b"+".to_vec())
    );
}

#[test]
fn boundary_values_parse() {
    let p = assemble(b"set 4294967295\nswap 255\n").unwrap();
    assert_eq!(bytes_of(&p), vec![8, 0xff, 0xff, 0xff, 0xff, 15, 255]);
}

#[test]
fn unresolved_label_is_an_error() {
    assert_eq!(assemble(b"jump nowhere\n").unwrap_err(),
        AsmError::UnresolvedLabel(b"nowhere".to_vec())
    );
    assert_eq!(assemble(b"copyCodeMemory nowhere\n").unwrap_err(),
        AsmError::UnresolvedLabel(b"nowhere".to_vec())
    );
}

#[test]
fn trailing_label_cannot_be_jumped_to() {
    // the label records an instruction index one past the last instruction
    assert_eq!(
        assemble(b"jump end\nlabel end\n").unwrap_err(), AsmError::Build(BuildError::InvalidJumpIndex));
}

#[test]
fn copy_of_non_data_label_is_an_error() {
    assert_eq!(assemble(b"label a\nnop\ncopyCodeMemory a\n").unwrap_err(), AsmError::Build(BuildError::NotData));
}

#[test]
fn interior_nul_in_data_string_is_an_error() {
    assert_eq!(assemble(b"datastring a\x00b\n").unwrap_err(), AsmError::InteriorNul);
}

#[test]
fn duplicate_label_keeps_the_later_one() {
    let p = assemble(b"label a\nnop\nlabel a\nhalt\njump a\n").unwrap();
    // the jump targets the halt at address 1
    assert_eq!(bytes_of(&p), vec![0, 1, 21, 0, 0, 0, 1]);
}

#[test]
fn windows_line_endings_are_tolerated() {
    let p = assemble(b"nop\r\nhalt\r\n").unwrap();
    assert_eq!(bytes_of(&p), vec![0, 1]);
}

#[test]
fn first_error_stops_assembly() {
    // the unknown command on the first line wins over the bad number below
    assert_eq!(assemble(b"bogus\nset 12x\n").unwrap_err(),
        AsmError::UnknownCommand(b"bogus".to_vec())
    );
}
