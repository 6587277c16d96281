//! Tests for the interpreter: registers, memory, stack, flags, syscalls and
//! the failure model.

use my_vm::{Instruction, Machine, Program};
use my_vm::errors::{CodecError, ExecError};
use my_vm::machine::Event;

fn build(instrs: Vec<Instruction>) -> Vec<u8> {
    let mut p = Program::new();
    for i in instrs {
        p.add_instruction(i);
    }
    p.compile()
}

#[test]
fn new_machine_state() {
    let m = Machine::new(vec![1], 64, 4);
    assert_eq!(m.instruction_pointer(), 0);
    assert_eq!(m.stack_pointer(), 64);
    assert_eq!(m.main_register(), 0);
    assert_eq!(m.side_register(0), Ok(0));
    assert_eq!(m.side_register(3), Ok(0));
    assert_eq!(m.side_register(4), Err(ExecError::RegisterOutOfBounds(4)));
    assert!(m.output().is_empty());
}

#[test]
fn step_returns_false_only_on_halt() {
    let exe = build(vec![Instruction::Nop, Instruction::Halt]);
    let mut m = Machine::new(exe, 16, 0);
    assert_eq!(m.step(), Ok(true));
    assert_eq!(m.step(), Ok(false));
}

#[test]
fn empty_program_fails_to_parse() {
    let mut m = Machine::new(vec![], 16, 0);
    assert_eq!(m.step(), Err(ExecError::ParseFailed(CodecError::Truncated)));
}

#[test]
fn jump_outside_program_fails_on_next_step() {
    let exe = build(vec![Instruction::Jump(100)]);
    let mut m = Machine::new(exe, 16, 0);
    assert_eq!(m.step(), Ok(true));
    assert_eq!(m.instruction_pointer(), 100);
    assert_eq!(m.step(), Err(ExecError::IpOutOfBounds));
}

#[test]
fn set_load_store_round_trip() {
    let exe = build(vec![
        Instruction::SetMain(0xaabbccdd),
        Instruction::Store32(4),
        Instruction::SetMain(0),
        Instruction::Load32(4),
        Instruction::Halt,
    ]);
    let mut m = Machine::new(exe, 32, 0);
    assert_eq!(m.run(100), Ok(true));
    assert_eq!(m.main_register(), 0xaabbccdd);
}

#[test]
fn store8_truncates_and_load8_zero_extends() {
    let exe = build(vec![
        Instruction::SetMain(0x1234),
        Instruction::Store8(0),
        Instruction::SetMain(0),
        Instruction::Load8(0),
        Instruction::Halt,
    ]);
    let mut m = Machine::new(exe, 8, 0);
    assert_eq!(m.run(100), Ok(true));
    assert_eq!(m.main_register(), 0x34);
}

#[test]
fn store16_is_big_endian() {
    let exe = build(vec![
        Instruction::SetMain(0x0102),
        Instruction::Store16(0),
        Instruction::Load8(0),
        Instruction::Halt,
    ]);
    let mut m = Machine::new(exe, 8, 0);
    assert_eq!(m.run(100), Ok(true));
    assert_eq!(m.main_register(), 0x01);
}

#[test]
fn load_out_of_bounds_reports_address() {
    let exe = build(vec![Instruction::Load8(9999)]);
    let mut m = Machine::new(exe, 64, 0);
    assert_eq!(m.run(100), Err(ExecError::MemoryOutOfBounds(9999)));
}

#[test]
fn load_at_border_fails() {
    // address 62 is inside 64-byte memory, but a 32 bit read runs over
    let exe = build(vec![Instruction::Load32(62)]);
    let mut m = Machine::new(exe, 64, 0);
    assert_eq!(m.run(100), Err(ExecError::BorderAccess));
}

#[test]
fn deref_and_write_through_registers() {
    let exe = build(vec![
        Instruction::SetRegister(1, 12),
        Instruction::SetMain(0xff),
        Instruction::Write8(1),
        Instruction::SetMain(0),
        Instruction::Deref8(1),
        Instruction::Halt,
    ]);
    let mut m = Machine::new(exe, 32, 2);
    assert_eq!(m.run(100), Ok(true));
    assert_eq!(m.main_register(), 0xff);
}

#[test]
fn register_out_of_bounds_is_fatal() {
    let exe = build(vec![Instruction::Add(0)]);
    let mut m = Machine::new(exe, 16, 0);
    assert_eq!(m.run(100), Err(ExecError::RegisterOutOfBounds(0)));
}

#[test]
fn swap_exchanges_registers() {
    let exe = build(vec![
        Instruction::SetMain(5),
        Instruction::SetRegister(0, 9),
        Instruction::Swap(0),
        Instruction::Halt,
    ]);
    let mut m = Machine::new(exe, 16, 1);
    assert_eq!(m.run(100), Ok(true));
    assert_eq!(m.main_register(), 9);
    assert_eq!(m.side_register(0), Ok(5));
}

#[test]
fn read_write_stack_pointer() {
    let exe = build(vec![
        Instruction::ReadStackPointer,
        Instruction::Decrement,
        Instruction::WriteStackPointer,
        Instruction::Halt,
    ]);
    let mut m = Machine::new(exe, 16, 0);
    assert_eq!(m.run(100), Ok(true));
    assert_eq!(m.stack_pointer(), 15);
}

#[test]
fn increment_wraps_to_zero_and_sets_flag() {
    let exe = build(vec![
        Instruction::SetMain(u32::MAX),
        Instruction::Increment,
        Instruction::JumpZero(12), // to the final Halt
        Instruction::Nop,
        Instruction::Halt, // address 12
    ]);
    let mut m = Machine::new(exe, 16, 0);
    assert_eq!(m.run(100), Ok(true));
    assert_eq!(m.main_register(), 0);
    // the zero jump was taken over the Nop
    assert_eq!(m.instruction_pointer(), 13);
}

#[test]
fn decrement_wraps_to_max_and_clears_flag() {
    let exe = build(vec![
        Instruction::Decrement,
        Instruction::JumpNonzero(7), // to the final Halt
        Instruction::Nop,
        Instruction::Halt, // address 7
    ]);
    let mut m = Machine::new(exe, 16, 0);
    assert_eq!(m.run(100), Ok(true));
    assert_eq!(m.main_register(), u32::MAX);
    assert_eq!(m.instruction_pointer(), 8);
}

#[test]
fn add_sub_mul_wrap() {
    let exe = build(vec![
        Instruction::SetRegister(0, 2),
        Instruction::SetMain(0x8000_0000),
        Instruction::Mul(0),
        Instruction::Halt,
    ]);
    let mut m = Machine::new(exe, 16, 1);
    assert_eq!(m.run(100), Ok(true));
    assert_eq!(m.main_register(), 0);

    let exe = build(vec![
        Instruction::SetRegister(0, 1),
        Instruction::SetMain(u32::MAX),
        Instruction::Add(0),
        Instruction::Halt,
    ]);
    let mut m = Machine::new(exe, 16, 1);
    assert_eq!(m.run(100), Ok(true));
    assert_eq!(m.main_register(), 0);

    let exe = build(vec![
        Instruction::SetRegister(0, 3),
        Instruction::SetMain(1),
        Instruction::Sub(0),
        Instruction::Halt,
    ]);
    let mut m = Machine::new(exe, 16, 1);
    assert_eq!(m.run(100), Ok(true));
    assert_eq!(m.main_register(), u32::MAX - 1);
}

#[test]
fn div_computes_quotient_and_remainder() {
    let exe = build(vec![
        Instruction::SetRegister(0, 7),
        Instruction::SetMain(23),
        Instruction::Div(0),
        Instruction::Halt,
    ]);
    let mut m = Machine::new(exe, 16, 1);
    assert_eq!(m.run(100), Ok(true));
    assert_eq!(m.main_register(), 3);
    assert_eq!(m.side_register(0), Ok(2));
}

#[test]
fn div_by_zero_fails_without_mutating_registers() {
    let exe = build(vec![Instruction::SetMain(10), Instruction::Div(0)]);
    let mut m = Machine::new(exe, 16, 1);
    assert_eq!(m.run(100), Err(ExecError::DivisionByZero));
    assert_eq!(m.main_register(), 10);
    assert_eq!(m.side_register(0), Ok(0));
}

#[test]
fn compare_drives_conditional_jumps() {
    // main=4 vs reg=7: less; jumpLess over the Nop
    let exe = build(vec![
        Instruction::SetRegister(0, 7), // 6 bytes
        Instruction::SetMain(4),        // 5 bytes, end 11
        Instruction::Compare(0),        // 2 bytes, end 13
        Instruction::JumpLess(19),      // 5 bytes, end 18
        Instruction::Nop,               // address 18
        Instruction::Halt,              // address 19
    ]);
    let mut m = Machine::new(exe, 16, 1);
    assert_eq!(m.run(100), Ok(true));
    assert_eq!(m.instruction_pointer(), 20);
}

#[test]
fn compare_equal_takes_equal_and_not_greater() {
    let exe = build(vec![
        Instruction::Compare(0),       // 0 == 0: equal; end 2
        Instruction::JumpGreater(13),  // not taken; end 7
        Instruction::JumpEqual(13),    // taken; end 12
        Instruction::Nop,              // address 12
        Instruction::Halt,             // address 13
    ]);
    let mut m = Machine::new(exe, 16, 1);
    assert_eq!(m.run(100), Ok(true));
    assert_eq!(m.instruction_pointer(), 14);
}

#[test]
fn stack_push_pop_restores_state() {
    let exe = build(vec![
        Instruction::SetMain(42),
        Instruction::Push,
        Instruction::SetMain(7),
        Instruction::Push,
        Instruction::Pop,
        Instruction::Pop,
        Instruction::Halt,
    ]);
    let mut m = Machine::new(exe, 64, 0);
    assert_eq!(m.run(100), Ok(true));
    assert_eq!(m.main_register(), 42);
    assert_eq!(m.stack_pointer(), 64);
}

#[test]
fn stack_register_push_pop_restores_registers() {
    let exe = build(vec![
        Instruction::SetRegister(0, 11),
        Instruction::SetRegister(1, 22),
        Instruction::PushRegister(0),
        Instruction::PushRegister(1),
        Instruction::PopRegister(0),
        Instruction::PopRegister(1),
        Instruction::Halt,
    ]);
    let mut m = Machine::new(exe, 64, 2);
    assert_eq!(m.run(100), Ok(true));
    // the two registers were exchanged through the stack
    assert_eq!(m.side_register(0), Ok(22));
    assert_eq!(m.side_register(1), Ok(11));
    assert_eq!(m.stack_pointer(), 64);
}

#[test]
fn push_below_zero_is_stack_overflow() {
    let exe = build(vec![
        Instruction::SetMain(2),
        Instruction::WriteStackPointer,
        Instruction::Push,
    ]);
    let mut m = Machine::new(exe, 16, 0);
    assert_eq!(m.run(100), Err(ExecError::StackOverflow));
}

#[test]
fn pop_with_empty_stack_fails_at_border() {
    let exe = build(vec![Instruction::Pop]);
    let mut m = Machine::new(exe, 16, 0);
    assert_eq!(m.run(100), Err(ExecError::BorderAccess));
}

#[test]
fn call_pushes_return_address_and_return_pops_it() {
    let exe = build(vec![
        Instruction::Call(6),  // 5 bytes; return address 5
        Instruction::Halt,     // address 5
        Instruction::Return,   // address 6
    ]);
    let mut m = Machine::new(exe, 64, 0);
    assert_eq!(m.step(), Ok(true));
    assert_eq!(m.instruction_pointer(), 6);
    assert_eq!(m.stack_pointer(), 60);
    assert_eq!(m.step(), Ok(true));
    assert_eq!(m.instruction_pointer(), 5);
    assert_eq!(m.stack_pointer(), 64);
    assert_eq!(m.step(), Ok(false));
}

#[test]
fn copy_code_memory_copies_program_bytes() {
    let mut p = Program::new();
    let d = p.add_data(vec![0x41, 0x42, 0x43, 0]); // "ABC"
    p.add_instruction(Instruction::SetMain(2));
    p.add_copy_data(d).unwrap();
    p.add_instruction(Instruction::Load8(2));
    p.add_instruction(Instruction::Halt);
    let mut m = Machine::new(p.compile(), 32, 0);
    assert_eq!(m.run(100), Ok(true));
    assert_eq!(m.main_register(), 0x41);
}

#[test]
fn copy_code_memory_checks_both_ranges() {
    let exe = build(vec![Instruction::CopyCodeMemory(100, 4)]);
    let mut m = Machine::new(exe, 16, 0);
    assert_eq!(m.run(100), Err(ExecError::ProgramOutOfBounds(100)));

    let exe = build(vec![
        Instruction::SetMain(14),
        Instruction::CopyCodeMemory(0, 4),
    ]);
    let mut m = Machine::new(exe, 16, 0);
    assert_eq!(m.run(100), Err(ExecError::MemoryOutOfBounds(14)));
}

#[test]
fn data_is_skipped_not_executed() {
    let exe = build(vec![
        Instruction::Data(2, vec![1, 1]), // two Halt opcodes as data
        Instruction::SetMain(3),
        Instruction::Halt,
    ]);
    let mut m = Machine::new(exe, 16, 0);
    assert_eq!(m.run(100), Ok(true));
    assert_eq!(m.main_register(), 3);
}

#[test]
fn syscall_number_records_event() {
    let exe = build(vec![
        Instruction::SetMain(610),
        Instruction::Syscall(1),
        Instruction::Halt,
    ]);
    let mut m = Machine::new(exe, 16, 0);
    assert_eq!(m.run(100), Ok(true));
    assert_eq!(m.output(), &vec![Event::Number(610)]);
}

#[test]
fn syscall_print_reads_nul_terminated_string() {
    let mut p = Program::new();
    let d = p.add_data(vec![b'h', b'i', 0]);
    p.add_instruction(Instruction::SetMain(1));
    p.add_copy_data(d).unwrap();
    p.add_instruction(Instruction::SetMain(1));
    p.add_syscall(0);
    p.add_syscall(2);
    p.add_halt();
    let mut m = Machine::new(p.compile(), 32, 0);
    assert_eq!(m.run(100), Ok(true));
    assert_eq!(
        m.output(),
        &vec![Event::Line(b"hi".to_vec()), Event::Text(b"hi".to_vec())]
    );
}

#[test]
fn syscall_unknown_index_is_fatal() {
    let exe = build(vec![Instruction::Syscall(3)]);
    let mut m = Machine::new(exe, 16, 0);
    assert_eq!(m.run(100), Err(ExecError::UnknownSyscall(3)));
}

#[test]
fn syscall_invalid_utf8_reports_address() {
    let exe = build(vec![
        Instruction::SetMain(0xff),
        Instruction::Store8(0),
        Instruction::SetMain(0),
        Instruction::Syscall(0),
    ]);
    let mut m = Machine::new(exe, 16, 0);
    assert_eq!(m.run(100), Err(ExecError::InvalidString(0)));
}

fn string_program(data: Vec<u8>) -> Vec<u8> {
    let mut p = Program::new();
    let d = p.add_data(data);
    p.add_instruction(Instruction::SetMain(0));
    p.add_copy_data(d).unwrap();
    p.add_instruction(Instruction::SetMain(0));
    p.add_syscall(0);
    p.add_halt();
    p.compile()
}

#[test]
fn syscall_accepts_multibyte_utf8() {
    // a two-byte, a three-byte and a four-byte scalar
    let text = vec![0xc3, 0xa9, 0xe2, 0x82, 0xac, 0xf0, 0x9f, 0x98, 0x80];
    let mut data = text.clone();
    data.push(0);
    let mut m = Machine::new(string_program(data), 64, 0);
    assert_eq!(m.run(100), Ok(true));
    assert_eq!(m.output(), &vec![Event::Line(text)]);
}

#[test]
fn syscall_rejects_overlong_encoding() {
    let mut m = Machine::new(string_program(vec![0xc0, 0x80, b'a', 0]), 64, 0);
    assert_eq!(m.run(100), Err(ExecError::InvalidString(0)));
}

#[test]
fn syscall_rejects_surrogate_encoding() {
    let mut m = Machine::new(string_program(vec![0xed, 0xa0, 0x80, 0]), 64, 0);
    assert_eq!(m.run(100), Err(ExecError::InvalidString(0)));
}

#[test]
fn syscall_rejects_truncated_multibyte_sequence() {
    let mut m = Machine::new(string_program(vec![b'a', 0xc3, 0]), 64, 0);
    assert_eq!(m.run(100), Err(ExecError::InvalidString(0)));
}

#[test]
fn syscall_unterminated_string_fails_at_border() {
    let exe = build(vec![
        Instruction::SetMain(0x41),
        Instruction::Store8(0),
        Instruction::Store8(1),
        Instruction::Store8(2),
        Instruction::Store8(3),
        Instruction::SetMain(0),
        Instruction::Syscall(2),
    ]);
    let mut m = Machine::new(exe, 4, 0);
    assert_eq!(m.run(100), Err(ExecError::BorderAccess));
}

#[test]
fn run_out_of_budget_returns_false() {
    let exe = build(vec![Instruction::Jump(0)]);
    let mut m = Machine::new(exe, 16, 0);
    assert_eq!(m.run(1000), Ok(false)); // an endless loop exhausts the budget
}

#[test]
fn increment_register_sets_zero_flag() {
    let exe = build(vec![
        Instruction::SetRegister(0, u32::MAX),
        Instruction::IncrementRegister(0),
        Instruction::JumpZero(14), // to the final Halt
        Instruction::Nop,
        Instruction::Halt, // address 14
    ]);
    let mut m = Machine::new(exe, 16, 1);
    assert_eq!(m.run(100), Ok(true));
    assert_eq!(m.side_register(0), Ok(0));
    assert_eq!(m.instruction_pointer(), 15);
}

#[test]
fn decrement_register_wraps() {
    let exe = build(vec![
        Instruction::DecrementRegister(0),
        Instruction::Halt,
    ]);
    let mut m = Machine::new(exe, 16, 1);
    assert_eq!(m.run(100), Ok(true));
    assert_eq!(m.side_register(0), Ok(u32::MAX));
}
