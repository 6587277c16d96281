//! End-to-end scenarios: whole programs built by hand or assembled from
//! source, run on the machine, checked against their expected text events.

use my_vm::{Instruction, Machine, Program};
use my_vm::assembler::assemble;
use my_vm::errors::ExecError;
use my_vm::machine::Event;

/// Countdown loop built through the builder: prints 5 4 3 2 1 as numbers
/// with no separators, then an empty line.
#[test]
fn countdown_loop_built_by_hand() {
    let mut program = Program::new();
    program.add_instruction(Instruction::SetMain(5));
    let for_loop = program.add_syscall(1);
    program.add_instruction(Instruction::Decrement);
    program.add_jump_nonzero(for_loop).unwrap();
    program.add_instruction(Instruction::SetMain(0));
    program.add_instruction(Instruction::Store8(0));
    program.add_syscall(0);
    program.add_halt();

    let mut machine = Machine::new(program.compile(), 1024, 0);
    assert_eq!(machine.run(10_000), Ok(true));
    assert_eq!(
        machine.output(),
        &vec![
            Event::Number(5),
            Event::Number(4),
            Event::Number(3),
            Event::Number(2),
            Event::Number(1),
            Event::Line(vec![]),
        ]
    );
}

/// The same countdown written in assembly source.
#[test]
fn countdown_loop_assembled() {
    let source = b"# Set main register to 5.\n\
set 5\n\
\n\
// Start the for loop.\n\
label for_loop\n\
// Print the current value.\n\
syscall 1\n\
// Decrement value, setting the zero flag.\n\
decrement\n\
// Jump to the start of the loop if the value is not zero.\n\
jumpNonzero for_loop\n\
\n\
# Print empty string for newline.\n\
set 0\n\
store8 0\n\
syscall 0\n\
\n\
# Halt the machine.\n\
halt\n";
    let program = assemble(source).unwrap();
    let mut machine = Machine::new(program.compile(), 1024, 0);
    assert_eq!(machine.run(10_000), Ok(true));
    assert_eq!(
        machine.output(),
        &vec![
            Event::Number(5),
            Event::Number(4),
            Event::Number(3),
            Event::Number(2),
            Event::Number(1),
            Event::Line(vec![]),
        ]
    );
}

/// Hello world through a data segment, a copy and the print-line syscall.
#[test]
fn hello_world_built_by_hand() {
    let mut program = Program::new();
    let s = program.add_data(b"Hello world!\0".to_vec());
    program.add_instruction(Instruction::SetMain(10));
    program.add_copy_data(s).unwrap();
    program.add_syscall(0);
    program.add_halt();

    let mut machine = Machine::new(program.compile(), 1024, 4);
    assert_eq!(machine.run(10_000), Ok(true));
    assert_eq!(machine.output(), &vec![Event::Line(b"Hello world!".to_vec())]);
}

/// Hello world from assembly source with a data label.
#[test]
fn hello_world_assembled() {
    let source = b"# Add data segment to hold our string.\n\
label str\n\
dataString Hello world!\n\
\n\
set 10\n\
copyCodeMemory str\n\
syscall 0\n\
\n\
halt\n";
    let program = assemble(source).unwrap();
    let mut machine = Machine::new(program.compile(), 1024, 0);
    assert_eq!(machine.run(10_000), Ok(true));
    assert_eq!(machine.output(), &vec![Event::Line(b"Hello world!".to_vec())]);
}

/// Recursive Fibonacci through call, return and the stack: fibonacci(15)
/// is 610, printed as a number.
#[test]
fn recursive_fibonacci_assembled() {
    let source = b"# Start from main.\n\
jump main\n\
\n\
label fibonacci\n\
# If n < 2, return 1.\n\
setRegister 0 2\n\
compare 0\n\
jumpGreater fibonacci_continue\n\
set 1\n\
return\n\
label fibonacci_continue\n\
# Otherwise add fibonacci(n-1) + fibonacci(n-2).\n\
decrement\n\
push\n\
call fibonacci\n\
swap 1\n\
pop\n\
pushRegister 1\n\
decrement\n\
call fibonacci\n\
popRegister 1\n\
add 1\n\
return\n\
\n\
label print_number\n\
syscall 1\n\
push\n\
set 0\n\
store8 0\n\
syscall 0\n\
pop\n\
return\n\
\n\
label main\n\
set 15\n\
call fibonacci\n\
call print_number\n\
halt\n";
    let program = assemble(source).unwrap();
    let mut machine = Machine::new(program.compile(), 1024, 2);
    assert_eq!(machine.run(1_000_000), Ok(true));
    assert_eq!(
        machine.output(),
        &vec![Event::Number(610), Event::Line(vec![])]
    );
}

/// A function called repeatedly through labels, printing five lines.
#[test]
fn function_called_five_times_assembled() {
    let source = b"// Jump straight to the main function.\n\
jump main\n\
\n\
label data\n\
dataString Hello world!\n\
\n\
label function\n\
set 0\n\
copyCodeMemory data\n\
syscall 0\n\
return\n\
\n\
label main\n\
call function\n\
call function\n\
call function\n\
call function\n\
call function\n\
halt\n";
    let program = assemble(source).unwrap();
    let mut machine = Machine::new(program.compile(), 1024, 4);
    assert_eq!(machine.run(100_000), Ok(true));
    assert_eq!(
        machine.output(),
        &vec![Event::Line(b"Hello world!".to_vec()); 5]
    );
}

/// An out-of-range load fails with an out-of-bounds error naming the
/// address; it neither panics nor wraps the address.
#[test]
fn out_of_range_load_fails_cleanly() {
    let mut program = Program::new();
    program.add_instruction(Instruction::Load8(100_000));
    program.add_halt();
    let mut machine = Machine::new(program.compile(), 1024, 0);
    assert_eq!(machine.run(10), Err(ExecError::MemoryOutOfBounds(100_000)));
}
