//! The interpreter: a machine that owns an immutable executable, a bounded
//! mutable memory, registers, a downward-growing stack and condition flags,
//! and executes the executable's instructions one fetch-decode-execute step
//! at a time. Printing syscalls append text events to the machine's output;
//! a host sink prints them.

use vstd::prelude::*;
use vstd::slice::{slice_subrange, slice_to_vec};
use vstd::pervasive::VecAdditionalExecFns;
use vstd::utf8::{decode_first_codepoint, pop_first_scalar, valid_first_scalar, valid_utf8};

use crate::VmPtr;
use crate::errors::ExecError;
use crate::instruction::{Instruction, InstrView, lemma_decode_size, spec_decode, spec_size};
use crate::util::{
    half_bytes, half_value, lemma_word_round_trip, read_u8, read_u16, read_u32, splice, word_bytes,
    word_value,
};

verus! {

/// The three-valued comparison flag driving the ordering-based conditional
/// jumps.
#[derive(Debug, Clone, Copy, PartialEq, Eq, Structural)]
pub enum CmpFlag {
    /// The main register compared less than the side register.
    Less,
    /// The two registers compared equal.
    Equal,
    /// The main register compared greater than the side register.
    Greater,
}

/// One printable text event produced by a syscall. The byte payloads are
/// valid UTF-8 strings without their NUL terminator.
#[derive(Debug, Clone, PartialEq)]
pub enum Event {
    /// Print the bytes as a line of their own.
    Line(Vec<u8>),
    /// Print the bytes with no trailing newline.
    Text(Vec<u8>),
    /// Print the number in decimal with no trailing newline.
    Number(VmPtr),
}

/// Mathematical model of an [`Event`].
#[verifier::ext_equal]
pub enum EventView {
    Line(Seq<u8>),
    Text(Seq<u8>),
    Number(VmPtr),
}

impl View for Event {
    type V = EventView;

    open spec fn view(&self) -> EventView {
        match self {
            Event::Line(b) => EventView::Line(b@),
            Event::Text(b) => EventView::Text(b@),
            Event::Number(n) => EventView::Number(*n),
        }
    }
}

/// Mathematical model of the whole machine state.
#[verifier::ext_equal]
pub struct MachineView {
    /// The read-only executable bytes.
    pub program: Seq<u8>,
    /// The mutable working memory.
    pub memory: Seq<u8>,
    /// Address of the next instruction in the executable.
    pub instruction_pointer: VmPtr,
    /// Address of the stack top in memory; the stack grows downward.
    pub stack_pointer: VmPtr,
    /// The accumulator register.
    pub main_register: VmPtr,
    /// The configurable-count auxiliary register file.
    pub side_registers: Seq<VmPtr>,
    /// Whether the last increment or decrement produced zero.
    pub flag_zero: bool,
    /// The result of the last comparison.
    pub flag_comparison: CmpFlag,
    /// All text events emitted so far, oldest first.
    pub output: Seq<EventView>,
}

/// The result of one specified machine step: go on, halt cleanly, or fail
/// with an execution error, each with the machine state it leaves behind.
pub enum StepResult {
    Continue(MachineView),
    Halted(MachineView),
    Failed(MachineView, ExecError),
}

/// Virtual machine for the binary instruction language.
#[derive(Debug, PartialEq, Clone)]
pub struct Machine {
    program: Vec<u8>,
    memory: Vec<u8>,
    instruction_pointer: VmPtr,
    stack_pointer: VmPtr,
    main_register: VmPtr,
    side_registers: Vec<VmPtr>,
    flag_zero: bool,
    flag_comparison: CmpFlag,
    output: Vec<Event>,
}

impl View for Machine {
    type V = MachineView;

    closed spec fn view(&self) -> MachineView {
        MachineView {
            program: self.program@,
            memory: self.memory@,
            instruction_pointer: self.instruction_pointer,
            stack_pointer: self.stack_pointer,
            main_register: self.main_register,
            side_registers: self.side_registers@,
            flag_zero: self.flag_zero,
            flag_comparison: self.flag_comparison,
            output: self.output@.map_values(|e: Event| e@),
        }
    }
}

/// True when the side register index denotes a configured register.
pub open spec fn reg_ok(v: MachineView, x: u8) -> bool {
    (x as int) < v.side_registers.len()
}

/// The value of side register `x`.
pub open spec fn reg_val(v: MachineView, x: u8) -> VmPtr {
    v.side_registers[x as int]
}

/// The error a `w`-byte read at memory address `ptr` fails with, if any: an
/// address past the end of memory reports the address, and a read that runs
/// over the end fails at the border.
pub open spec fn mem_read_err(v: MachineView, ptr: VmPtr, w: int) -> Option<ExecError> {
    if ptr > v.memory.len() {
        Some(ExecError::MemoryOutOfBounds(ptr))
    } else if v.memory.len() - ptr < w {
        Some(ExecError::BorderAccess)
    } else {
        None
    }
}

/// The zero-extended value of the `w`-byte big-endian read at `ptr`.
pub open spec fn mem_read_val(v: MachineView, ptr: VmPtr, w: int) -> VmPtr
    recommends
        mem_read_err(v, ptr, w) is None,
{
    if w == 1 {
        v.memory[ptr as int] as VmPtr
    } else if w == 2 {
        half_value(v.memory.skip(ptr as int)) as VmPtr
    } else {
        word_value(v.memory.skip(ptr as int))
    }
}

/// The memory left behind by writing `bytes` at `ptr`: everything that fits
/// below the end of memory is written, also when the write fails at the
/// border.
pub open spec fn mem_write_result(mem: Seq<u8>, ptr: VmPtr, bytes: Seq<u8>) -> Seq<u8> {
    if ptr > mem.len() {
        mem
    } else if mem.len() - ptr < bytes.len() {
        splice(mem, ptr as int, bytes.take(mem.len() - ptr))
    } else {
        splice(mem, ptr as int, bytes)
    }
}

/// The index of the first NUL byte, if any.
pub open spec fn find_nul(s: Seq<u8>) -> Option<int>
    decreases s.len(),
{
    if s.len() == 0 {
        None
    } else if s[0] == 0 {
        Some(0)
    } else {
        match find_nul(s.skip(1)) {
            None => None,
            Some(k) => Some(k + 1),
        }
    }
}

/// What [`find_nul`] finds is a NUL with none before it; where it finds
/// nothing there is none.
pub proof fn lemma_find_nul(s: Seq<u8>)
    ensures
        match find_nul(s) {
            Some(k) => 0 <= k < s.len() && s[k] == 0 && (forall|j: int| 0 <= j < k ==> s[j] != 0),
            None => forall|j: int| 0 <= j < s.len() ==> s[j] != 0,
        },
    decreases s.len(),
{
    if s.len() > 0 && s[0] != 0 {
        let t = s.skip(1);
        lemma_find_nul(t);
        match find_nul(t) {
            Some(k) => {
                assert(s[k + 1] == t[k]);
                assert forall|j: int| 0 <= j < k + 1 implies s[j] != 0 by {
                    if j >= 1 {
                        assert(s[j] == t[j - 1]);
                    }
                }
            },
            None => {
                assert forall|j: int| 0 <= j < s.len() implies s[j] != 0 by {
                    if j >= 1 {
                        assert(s[j] == t[j - 1]);
                    }
                }
            },
        }
    }
}

/// A NUL at `k` with none before it is what [`find_nul`] finds.
pub proof fn lemma_find_nul_at(s: Seq<u8>, k: int)
    requires
        0 <= k < s.len(),
        s[k] == 0,
        forall|j: int| 0 <= j < k ==> s[j] != 0,
    ensures
        find_nul(s) == Some(k),
    decreases k,
{
    if k > 0 {
        lemma_find_nul_at(s.skip(1), k - 1);
    }
}

/// The three-way comparison of the main register against a side register.
pub open spec fn compare_flag(a: VmPtr, b: VmPtr) -> CmpFlag {
    if a < b {
        CmpFlag::Less
    } else if a == b {
        CmpFlag::Equal
    } else {
        CmpFlag::Greater
    }
}

/// Load a `w`-byte value at address `ptr` into the main register.
pub open spec fn exec_load(v: MachineView, ptr: VmPtr, w: int) -> StepResult {
    match mem_read_err(v, ptr, w) {
        Some(e) => StepResult::Failed(v, e),
        None => StepResult::Continue(
            MachineView { main_register: mem_read_val(v, ptr, w), ..v },
        ),
    }
}

/// Write `bytes` at address `ptr`: the bytes that fit are written, and a
/// write past the end of memory fails.
pub open spec fn exec_store(v: MachineView, ptr: VmPtr, bytes: Seq<u8>) -> StepResult {
    let v2 = MachineView { memory: mem_write_result(v.memory, ptr, bytes), ..v };
    if ptr > v.memory.len() {
        StepResult::Failed(v, ExecError::MemoryOutOfBounds(ptr))
    } else if v.memory.len() - ptr < bytes.len() {
        StepResult::Failed(v2, ExecError::BorderAccess)
    } else {
        StepResult::Continue(v2)
    }
}

/// Push a word: move the stack pointer down one word, then write the word
/// at the new stack pointer. The stack pointer keeps its new value also
/// when the write fails.
pub open spec fn exec_push_word(v: MachineView, value: VmPtr) -> StepResult {
    if v.stack_pointer < 4 {
        StepResult::Failed(v, ExecError::StackOverflow)
    } else {
        let v1 = MachineView { stack_pointer: (v.stack_pointer - 4) as VmPtr, ..v };
        exec_store(v1, v1.stack_pointer, word_bytes(value))
    }
}

/// Pop a word into the main register: read the word at the stack pointer,
/// then move the stack pointer up one word. The main register keeps the
/// read value also when the move past the address range fails.
pub open spec fn exec_pop(v: MachineView) -> StepResult {
    match mem_read_err(v, v.stack_pointer, 4) {
        Some(e) => StepResult::Failed(v, e),
        None => {
            let value = word_value(v.memory.skip(v.stack_pointer as int));
            let v1 = MachineView { main_register: value, ..v };
            if v.stack_pointer + 4 > u32::MAX {
                StepResult::Failed(v1, ExecError::StackUnderflow)
            } else {
                StepResult::Continue(
                    MachineView { stack_pointer: (v.stack_pointer + 4) as VmPtr, ..v1 },
                )
            }
        },
    }
}

/// Return: pop a word and jump to it. The instruction pointer keeps the
/// popped address also when the stack pointer move fails.
pub open spec fn exec_return(v: MachineView) -> StepResult {
    match mem_read_err(v, v.stack_pointer, 4) {
        Some(e) => StepResult::Failed(v, e),
        None => {
            let target = word_value(v.memory.skip(v.stack_pointer as int));
            let v1 = MachineView { instruction_pointer: target, ..v };
            if v.stack_pointer + 4 > u32::MAX {
                StepResult::Failed(v1, ExecError::StackUnderflow)
            } else {
                StepResult::Continue(
                    MachineView { stack_pointer: (v.stack_pointer + 4) as VmPtr, ..v1 },
                )
            }
        },
    }
}

/// Push a side register: the stack pointer moves before the register index
/// is checked, as the interpreter mutates in that order.
pub open spec fn exec_push_register(v: MachineView, x: u8) -> StepResult {
    if v.stack_pointer < 4 {
        StepResult::Failed(v, ExecError::StackOverflow)
    } else {
        let v1 = MachineView { stack_pointer: (v.stack_pointer - 4) as VmPtr, ..v };
        if !reg_ok(v, x) {
            StepResult::Failed(v1, ExecError::RegisterOutOfBounds(x))
        } else {
            exec_store(v1, v1.stack_pointer, word_bytes(reg_val(v, x)))
        }
    }
}

/// Pop a word into a side register: the register is written before the
/// stack pointer move is checked.
pub open spec fn exec_pop_register(v: MachineView, x: u8) -> StepResult {
    match mem_read_err(v, v.stack_pointer, 4) {
        Some(e) => StepResult::Failed(v, e),
        None => {
            let value = word_value(v.memory.skip(v.stack_pointer as int));
            if !reg_ok(v, x) {
                StepResult::Failed(v, ExecError::RegisterOutOfBounds(x))
            } else {
                let v1 = MachineView {
                    side_registers: v.side_registers.update(x as int, value),
                    ..v
                };
                if v.stack_pointer + 4 > u32::MAX {
                    StepResult::Failed(v1, ExecError::StackUnderflow)
                } else {
                    StepResult::Continue(
                        MachineView { stack_pointer: (v.stack_pointer + 4) as VmPtr, ..v1 },
                    )
                }
            }
        },
    }
}

/// Divide the main register by a side register: quotient to the main
/// register, remainder to the side register; a zero divisor fails without
/// mutating either.
pub open spec fn exec_div(v: MachineView, x: u8) -> StepResult {
    if !reg_ok(v, x) {
        StepResult::Failed(v, ExecError::RegisterOutOfBounds(x))
    } else if reg_val(v, x) == 0 {
        StepResult::Failed(v, ExecError::DivisionByZero)
    } else {
        StepResult::Continue(
            MachineView {
                main_register: v.main_register / reg_val(v, x),
                side_registers: v.side_registers.update(
                    x as int,
                    v.main_register % reg_val(v, x),
                ),
                ..v
            },
        )
    }
}

/// Copy `n` program bytes at `src` into memory at the address in the main
/// register; both ranges are bounds-checked before anything is copied.
pub open spec fn exec_copy(v: MachineView, src: VmPtr, n: VmPtr) -> StepResult {
    if src + n > v.program.len() {
        StepResult::Failed(v, ExecError::ProgramOutOfBounds(src))
    } else if v.main_register + n > v.memory.len() {
        StepResult::Failed(v, ExecError::MemoryOutOfBounds(v.main_register))
    } else {
        StepResult::Continue(
            MachineView {
                memory: splice(
                    v.memory,
                    v.main_register as int,
                    v.program.subrange(src as int, src + n),
                ),
                ..v
            },
        )
    }
}

/// The syscall dispatch table: syscall 0 prints the NUL-terminated string
/// at the address in the main register as a line, syscall 1 prints the main
/// register as a decimal number, syscall 2 prints the string without a
/// newline. Anything else is an unknown syscall.
pub open spec fn spec_syscall(v: MachineView, index: u8) -> StepResult {
    if index == 0 || index == 2 {
        if v.main_register > v.memory.len() {
            StepResult::Failed(v, ExecError::MemoryOutOfBounds(v.main_register))
        } else {
            let tail = v.memory.skip(v.main_register as int);
            match find_nul(tail) {
                None => StepResult::Failed(v, ExecError::BorderAccess),
                Some(k) => {
                    let bytes = tail.take(k);
                    if valid_utf8(bytes) {
                        let ev = if index == 0 {
                            EventView::Line(bytes)
                        } else {
                            EventView::Text(bytes)
                        };
                        StepResult::Continue(MachineView { output: v.output.push(ev), ..v })
                    } else {
                        StepResult::Failed(v, ExecError::InvalidString(v.main_register))
                    }
                },
            }
        }
    } else if index == 1 {
        StepResult::Continue(
            MachineView { output: v.output.push(EventView::Number(v.main_register)), ..v },
        )
    } else {
        StepResult::Failed(v, ExecError::UnknownSyscall(index))
    }
}

/// The effect of one decoded instruction on the machine state `v`, whose
/// instruction pointer has already advanced past the instruction.
pub open spec fn spec_exec(v: MachineView, i: InstrView) -> StepResult {
    match i {
        InstrView::Nop => StepResult::Continue(v),
        InstrView::Data(_, _) => StepResult::Continue(v),
        InstrView::Halt => StepResult::Halted(v),
        InstrView::Load8(ptr) => exec_load(v, ptr, 1),
        InstrView::Load16(ptr) => exec_load(v, ptr, 2),
        InstrView::Load32(ptr) => exec_load(v, ptr, 4),
        InstrView::Store8(ptr) => exec_store(v, ptr, seq![v.main_register as u8]),
        InstrView::Store16(ptr) => exec_store(v, ptr, half_bytes(v.main_register as u16)),
        InstrView::Store32(ptr) => exec_store(v, ptr, word_bytes(v.main_register)),
        InstrView::SetMain(value) => StepResult::Continue(
            MachineView { main_register: value, ..v },
        ),
        InstrView::Deref8(x) => if !reg_ok(v, x) {
            StepResult::Failed(v, ExecError::RegisterOutOfBounds(x))
        } else {
            exec_load(v, reg_val(v, x), 1)
        },
        InstrView::Deref16(x) => if !reg_ok(v, x) {
            StepResult::Failed(v, ExecError::RegisterOutOfBounds(x))
        } else {
            exec_load(v, reg_val(v, x), 2)
        },
        InstrView::Deref32(x) => if !reg_ok(v, x) {
            StepResult::Failed(v, ExecError::RegisterOutOfBounds(x))
        } else {
            exec_load(v, reg_val(v, x), 4)
        },
        InstrView::Syscall(index) => spec_syscall(v, index),
        InstrView::CopyCodeMemory(src, n) => exec_copy(v, src, n),
        InstrView::Swap(x) => if !reg_ok(v, x) {
            StepResult::Failed(v, ExecError::RegisterOutOfBounds(x))
        } else {
            StepResult::Continue(
                MachineView {
                    main_register: reg_val(v, x),
                    side_registers: v.side_registers.update(x as int, v.main_register),
                    ..v
                },
            )
        },
        InstrView::Write8(x) => if !reg_ok(v, x) {
            StepResult::Failed(v, ExecError::RegisterOutOfBounds(x))
        } else {
            exec_store(v, reg_val(v, x), seq![v.main_register as u8])
        },
        InstrView::Write16(x) => if !reg_ok(v, x) {
            StepResult::Failed(v, ExecError::RegisterOutOfBounds(x))
        } else {
            exec_store(v, reg_val(v, x), half_bytes(v.main_register as u16))
        },
        InstrView::Write32(x) => if !reg_ok(v, x) {
            StepResult::Failed(v, ExecError::RegisterOutOfBounds(x))
        } else {
            exec_store(v, reg_val(v, x), word_bytes(v.main_register))
        },
        InstrView::ReadStackPointer => StepResult::Continue(
            MachineView { main_register: v.stack_pointer, ..v },
        ),
        InstrView::WriteStackPointer => StepResult::Continue(
            MachineView { stack_pointer: v.main_register, ..v },
        ),
        InstrView::Jump(a) => StepResult::Continue(
            MachineView { instruction_pointer: a, ..v },
        ),
        InstrView::Call(a) => match exec_push_word(v, v.instruction_pointer) {
            StepResult::Continue(v2) => StepResult::Continue(
                MachineView { instruction_pointer: a, ..v2 },
            ),
            other => other,
        },
        InstrView::Return => exec_return(v),
        InstrView::Increment => StepResult::Continue(
            MachineView {
                main_register: v.main_register.wrapping_add(1),
                flag_zero: v.main_register.wrapping_add(1) == 0,
                ..v
            },
        ),
        InstrView::Decrement => StepResult::Continue(
            MachineView {
                main_register: v.main_register.wrapping_sub(1),
                flag_zero: v.main_register.wrapping_sub(1) == 0,
                ..v
            },
        ),
        InstrView::Add(x) => if !reg_ok(v, x) {
            StepResult::Failed(v, ExecError::RegisterOutOfBounds(x))
        } else {
            StepResult::Continue(
                MachineView {
                    main_register: v.main_register.wrapping_add(reg_val(v, x)),
                    ..v
                },
            )
        },
        InstrView::Sub(x) => if !reg_ok(v, x) {
            StepResult::Failed(v, ExecError::RegisterOutOfBounds(x))
        } else {
            StepResult::Continue(
                MachineView {
                    main_register: v.main_register.wrapping_sub(reg_val(v, x)),
                    ..v
                },
            )
        },
        InstrView::Compare(x) => if !reg_ok(v, x) {
            StepResult::Failed(v, ExecError::RegisterOutOfBounds(x))
        } else {
            StepResult::Continue(
                MachineView {
                    flag_comparison: compare_flag(v.main_register, reg_val(v, x)),
                    ..v
                },
            )
        },
        InstrView::JumpEqual(a) => StepResult::Continue(
            if v.flag_comparison == CmpFlag::Equal {
                MachineView { instruction_pointer: a, ..v }
            } else {
                v
            },
        ),
        InstrView::JumpNotEqual(a) => StepResult::Continue(
            if v.flag_comparison != CmpFlag::Equal {
                MachineView { instruction_pointer: a, ..v }
            } else {
                v
            },
        ),
        InstrView::JumpGreater(a) => StepResult::Continue(
            if v.flag_comparison == CmpFlag::Greater {
                MachineView { instruction_pointer: a, ..v }
            } else {
                v
            },
        ),
        InstrView::JumpLess(a) => StepResult::Continue(
            if v.flag_comparison == CmpFlag::Less {
                MachineView { instruction_pointer: a, ..v }
            } else {
                v
            },
        ),
        InstrView::JumpGreaterEqual(a) => StepResult::Continue(
            if v.flag_comparison != CmpFlag::Less {
                MachineView { instruction_pointer: a, ..v }
            } else {
                v
            },
        ),
        InstrView::JumpLessEqual(a) => StepResult::Continue(
            if v.flag_comparison != CmpFlag::Greater {
                MachineView { instruction_pointer: a, ..v }
            } else {
                v
            },
        ),
        InstrView::JumpZero(a) => StepResult::Continue(
            if v.flag_zero {
                MachineView { instruction_pointer: a, ..v }
            } else {
                v
            },
        ),
        InstrView::JumpNonzero(a) => StepResult::Continue(
            if !v.flag_zero {
                MachineView { instruction_pointer: a, ..v }
            } else {
                v
            },
        ),
        InstrView::Push => exec_push_word(v, v.main_register),
        InstrView::Pop => exec_pop(v),
        InstrView::PushRegister(x) => exec_push_register(v, x),
        InstrView::PopRegister(x) => exec_pop_register(v, x),
        InstrView::Mul(x) => if !reg_ok(v, x) {
            StepResult::Failed(v, ExecError::RegisterOutOfBounds(x))
        } else {
            StepResult::Continue(
                MachineView {
                    main_register: v.main_register.wrapping_mul(reg_val(v, x)),
                    ..v
                },
            )
        },
        InstrView::Div(x) => exec_div(v, x),
        InstrView::IncrementRegister(x) => if !reg_ok(v, x) {
            StepResult::Failed(v, ExecError::RegisterOutOfBounds(x))
        } else {
            StepResult::Continue(
                MachineView {
                    side_registers: v.side_registers.update(
                        x as int,
                        reg_val(v, x).wrapping_add(1),
                    ),
                    flag_zero: reg_val(v, x).wrapping_add(1) == 0,
                    ..v
                },
            )
        },
        InstrView::DecrementRegister(x) => if !reg_ok(v, x) {
            StepResult::Failed(v, ExecError::RegisterOutOfBounds(x))
        } else {
            StepResult::Continue(
                MachineView {
                    side_registers: v.side_registers.update(
                        x as int,
                        reg_val(v, x).wrapping_sub(1),
                    ),
                    flag_zero: reg_val(v, x).wrapping_sub(1) == 0,
                    ..v
                },
            )
        },
        InstrView::SetRegister(x, value) => if !reg_ok(v, x) {
            StepResult::Failed(v, ExecError::RegisterOutOfBounds(x))
        } else {
            StepResult::Continue(
                MachineView {
                    side_registers: v.side_registers.update(x as int, value),
                    ..v
                },
            )
        },
    }
}

/// One full fetch-decode-execute step: fail if the instruction pointer is
/// outside the executable, decode at the pointer, advance the pointer by
/// the decoded size, then apply the instruction's effect.
pub open spec fn spec_step(v: MachineView) -> StepResult {
    if v.instruction_pointer > v.program.len() {
        StepResult::Failed(v, ExecError::IpOutOfBounds)
    } else {
        match spec_decode(v.program.skip(v.instruction_pointer as int)) {
            Err(e) => StepResult::Failed(v, ExecError::ParseFailed(e)),
            Ok(i) => spec_exec(
                MachineView {
                    instruction_pointer: (v.instruction_pointer + spec_size(i)) as VmPtr,
                    ..v
                },
                i,
            ),
        }
    }
}

/// The result of running at most `fuel` steps from state `v`.
pub enum RunResult {
    Halted(MachineView),
    OutOfFuel(MachineView),
    Failed(MachineView, ExecError),
}

/// Step repeatedly until the machine halts, fails, or `fuel` steps have
/// run.
pub open spec fn spec_run(v: MachineView, fuel: nat) -> RunResult
    decreases fuel,
{
    if fuel == 0 {
        RunResult::OutOfFuel(v)
    } else {
        match spec_step(v) {
            StepResult::Continue(v2) => spec_run(v2, (fuel - 1) as nat),
            StepResult::Halted(v2) => RunResult::Halted(v2),
            StepResult::Failed(v2, e) => RunResult::Failed(v2, e),
        }
    }
}

impl Machine {
    /// Well-formed: memory and program each fit in the address space.
    pub open spec fn wf(self) -> bool {
        &&& self@.memory.len() <= u32::MAX
        &&& self@.program.len() <= u32::MAX
    }

    /// Create a new virtual machine with the given program, memory size and
    /// side register count. The stack pointer starts at the end of memory,
    /// the zero flag set, the comparison flag equal, and no output.
    pub fn new(program: Vec<u8>, memory_size: VmPtr, register_count: usize) -> (r: Machine)
        requires
            program@.len() <= u32::MAX,
        ensures
            r.wf(),
            r@ == (MachineView {
                program: program@,
                memory: Seq::new(memory_size as nat, |i: int| 0u8),
                instruction_pointer: 0,
                stack_pointer: memory_size,
                main_register: 0,
                side_registers: Seq::new(register_count as nat, |i: int| 0u32),
                flag_zero: true,
                flag_comparison: CmpFlag::Equal,
                output: Seq::empty(),
            }),
    {
        let r = Machine {
            program,
            memory: vec![0u8; memory_size as usize],
            instruction_pointer: 0,
            stack_pointer: memory_size,
            main_register: 0,
            side_registers: vec![0u32; register_count],
            flag_zero: true,
            flag_comparison: CmpFlag::Equal,
            output: Vec::new(),
        };
        proof {
            assert(r@.memory =~= Seq::new(memory_size as nat, |i: int| 0u8));
            assert(r@.side_registers =~= Seq::new(register_count as nat, |i: int| 0u32));
            assert(r@.output =~= Seq::<EventView>::empty());
            assert(r@ =~= (MachineView {
                program: program@,
                memory: Seq::new(memory_size as nat, |i: int| 0u8),
                instruction_pointer: 0,
                stack_pointer: memory_size,
                main_register: 0,
                side_registers: Seq::new(register_count as nat, |i: int| 0u32),
                flag_zero: true,
                flag_comparison: CmpFlag::Equal,
                output: Seq::empty(),
            }));
        }
        r
    }

    /// The text events the machine has printed so far, oldest first.
    pub fn output(&self) -> (r: &Vec<Event>)
        ensures
            r@.map_values(|e: Event| e@) == self@.output,
    {
        &self.output
    }

    /// The current instruction pointer.
    pub fn instruction_pointer(&self) -> (r: VmPtr)
        ensures
            r == self@.instruction_pointer,
    {
        self.instruction_pointer
    }

    /// The current stack pointer.
    pub fn stack_pointer(&self) -> (r: VmPtr)
        ensures
            r == self@.stack_pointer,
    {
        self.stack_pointer
    }

    /// The current main register value.
    pub fn main_register(&self) -> (r: VmPtr)
        ensures
            r == self@.main_register,
    {
        self.main_register
    }

    /// Get a side register's value, or an error for an index outside the
    /// configured register file.
    pub fn side_register(&self, reg: u8) -> (r: Result<VmPtr, ExecError>)
        ensures
            reg_ok(self@, reg) ==> r == Ok::<VmPtr, ExecError>(reg_val(self@, reg)),
            !reg_ok(self@, reg) ==> r == Err::<VmPtr, ExecError>(
                ExecError::RegisterOutOfBounds(reg),
            ),
    {
        if (reg as usize) < self.side_registers.len() {
            Ok(self.side_registers[reg as usize])
        } else {
            Err(ExecError::RegisterOutOfBounds(reg))
        }
    }

    /// Read the byte at a memory address.
    fn read_mem8(&self, ptr: VmPtr) -> (r: Result<u8, ExecError>)
        requires
            self.wf(),
        ensures
            mem_read_err(self@, ptr, 1) matches Some(e) ==> r == Err::<u8, ExecError>(e),
            mem_read_err(self@, ptr, 1) is None ==> r == Ok::<u8, ExecError>(
                self@.memory[ptr as int],
            ),
    {
        if ptr as usize > self.memory.len() {
            return Err(ExecError::MemoryOutOfBounds(ptr));
        }
        let mem = slice_subrange(self.memory.as_slice(), ptr as usize, self.memory.len());
        read_u8(mem)
    }

    /// Read the big-endian 16 bit value at a memory address.
    fn read_mem16(&self, ptr: VmPtr) -> (r: Result<u16, ExecError>)
        requires
            self.wf(),
        ensures
            mem_read_err(self@, ptr, 2) matches Some(e) ==> r == Err::<u16, ExecError>(e),
            mem_read_err(self@, ptr, 2) is None ==> r == Ok::<u16, ExecError>(
                half_value(self@.memory.skip(ptr as int)),
            ),
    {
        if ptr as usize > self.memory.len() {
            return Err(ExecError::MemoryOutOfBounds(ptr));
        }
        let mem = slice_subrange(self.memory.as_slice(), ptr as usize, self.memory.len());
        read_u16(mem)
    }

    /// Read the big-endian address word at a memory address.
    fn read_mem32(&self, ptr: VmPtr) -> (r: Result<u32, ExecError>)
        requires
            self.wf(),
        ensures
            mem_read_err(self@, ptr, 4) matches Some(e) ==> r == Err::<u32, ExecError>(e),
            mem_read_err(self@, ptr, 4) is None ==> r == Ok::<u32, ExecError>(
                word_value(self@.memory.skip(ptr as int)),
            ),
    {
        if ptr as usize > self.memory.len() {
            return Err(ExecError::MemoryOutOfBounds(ptr));
        }
        let mem = slice_subrange(self.memory.as_slice(), ptr as usize, self.memory.len());
        read_u32(mem)
    }

    /// Write one byte at a memory address.
    fn write_mem8(&mut self, ptr: VmPtr, value: u8) -> (r: Result<(), ExecError>)
        requires
            old(self).wf(),
        ensures
            final(self).wf(),
            final(self)@ == (MachineView {
                memory: mem_write_result(old(self)@.memory, ptr, seq![value]),
                ..old(self)@
            }),
            ptr > old(self)@.memory.len() ==> r == Err::<(), ExecError>(
                ExecError::MemoryOutOfBounds(ptr),
            ),
            ptr <= old(self)@.memory.len() && old(self)@.memory.len() - ptr < 1 ==> r == Err::<
                (),
                ExecError,
            >(ExecError::BorderAccess),
            ptr + 1 <= old(self)@.memory.len() ==> r == Ok::<(), ExecError>(()),
    {
        if ptr as usize > self.memory.len() {
            proof {
                assert(final(self)@ =~= (MachineView {
                    memory: mem_write_result(old(self)@.memory, ptr, seq![value]),
                    ..old(self)@
                }));
            }
            return Err(ExecError::MemoryOutOfBounds(ptr));
        }
        if self.memory.len() - ptr as usize >= 1 {
            self.memory.set(ptr as usize, value);
            proof {
                assert(self@.memory =~= splice(old(self)@.memory, ptr as int, seq![value]));
                assert(self@ =~= (MachineView {
                    memory: mem_write_result(old(self)@.memory, ptr, seq![value]),
                    ..old(self)@
                }));
            }
            Ok(())
        } else {
            proof {
                assert(seq![value].take(0) =~= Seq::<u8>::empty());
                assert(self@.memory =~= splice(old(self)@.memory, ptr as int, seq![value].take(0)));
                assert(self@ =~= (MachineView {
                    memory: mem_write_result(old(self)@.memory, ptr, seq![value]),
                    ..old(self)@
                }));
            }
            Err(ExecError::BorderAccess)
        }
    }

    /// Write a big-endian 16 bit value at a memory address; the bytes that
    /// fit below the end of memory are written even when the write fails at
    /// the border.
    fn write_mem16(&mut self, ptr: VmPtr, value: u16) -> (r: Result<(), ExecError>)
        requires
            old(self).wf(),
        ensures
            final(self).wf(),
            final(self)@ == (MachineView {
                memory: mem_write_result(old(self)@.memory, ptr, half_bytes(value)),
                ..old(self)@
            }),
            ptr > old(self)@.memory.len() ==> r == Err::<(), ExecError>(
                ExecError::MemoryOutOfBounds(ptr),
            ),
            ptr <= old(self)@.memory.len() && old(self)@.memory.len() - ptr < 2 ==> r == Err::<
                (),
                ExecError,
            >(ExecError::BorderAccess),
            ptr + 2 <= old(self)@.memory.len() ==> r == Ok::<(), ExecError>(()),
    {
        if ptr as usize > self.memory.len() {
            proof {
                assert(final(self)@ =~= (MachineView {
                    memory: mem_write_result(old(self)@.memory, ptr, half_bytes(value)),
                    ..old(self)@
                }));
            }
            return Err(ExecError::MemoryOutOfBounds(ptr));
        }
        let avail = self.memory.len() - ptr as usize;
        if avail >= 1 {
            self.memory.set(ptr as usize, ((value >> 8) & 0xff) as u8);
        }
        if avail >= 2 {
            self.memory.set(ptr as usize + 1, (value & 0xff) as u8);
            proof {
                assert(self@.memory =~= splice(old(self)@.memory, ptr as int, half_bytes(value)));
                assert(self@ =~= (MachineView {
                    memory: mem_write_result(old(self)@.memory, ptr, half_bytes(value)),
                    ..old(self)@
                }));
            }
            Ok(())
        } else {
            proof {
                assert(self@.memory =~= splice(
                    old(self)@.memory,
                    ptr as int,
                    half_bytes(value).take(avail as int),
                ));
                assert(self@ =~= (MachineView {
                    memory: mem_write_result(old(self)@.memory, ptr, half_bytes(value)),
                    ..old(self)@
                }));
            }
            Err(ExecError::BorderAccess)
        }
    }

    /// Write a big-endian address word at a memory address; the bytes that
    /// fit below the end of memory are written even when the write fails at
    /// the border.
    fn write_mem32(&mut self, ptr: VmPtr, value: u32) -> (r: Result<(), ExecError>)
        requires
            old(self).wf(),
        ensures
            final(self).wf(),
            final(self)@ == (MachineView {
                memory: mem_write_result(old(self)@.memory, ptr, word_bytes(value)),
                ..old(self)@
            }),
            ptr > old(self)@.memory.len() ==> r == Err::<(), ExecError>(
                ExecError::MemoryOutOfBounds(ptr),
            ),
            ptr <= old(self)@.memory.len() && old(self)@.memory.len() - ptr < 4 ==> r == Err::<
                (),
                ExecError,
            >(ExecError::BorderAccess),
            ptr + 4 <= old(self)@.memory.len() ==> r == Ok::<(), ExecError>(()),
    {
        if ptr as usize > self.memory.len() {
            proof {
                assert(final(self)@ =~= (MachineView {
                    memory: mem_write_result(old(self)@.memory, ptr, word_bytes(value)),
                    ..old(self)@
                }));
            }
            return Err(ExecError::MemoryOutOfBounds(ptr));
        }
        let avail = self.memory.len() - ptr as usize;
        if avail >= 1 {
            self.memory.set(ptr as usize, ((value >> 24) & 0xff) as u8);
        }
        if avail >= 2 {
            self.memory.set(ptr as usize + 1, ((value >> 16) & 0xff) as u8);
        }
        if avail >= 3 {
            self.memory.set(ptr as usize + 2, ((value >> 8) & 0xff) as u8);
        }
        if avail >= 4 {
            self.memory.set(ptr as usize + 3, (value & 0xff) as u8);
            proof {
                assert(self@.memory =~= splice(old(self)@.memory, ptr as int, word_bytes(value)));
                assert(self@ =~= (MachineView {
                    memory: mem_write_result(old(self)@.memory, ptr, word_bytes(value)),
                    ..old(self)@
                }));
            }
            Ok(())
        } else {
            proof {
                assert(self@.memory =~= splice(
                    old(self)@.memory,
                    ptr as int,
                    word_bytes(value).take(avail as int),
                ));
                assert(self@ =~= (MachineView {
                    memory: mem_write_result(old(self)@.memory, ptr, word_bytes(value)),
                    ..old(self)@
                }));
            }
            Err(ExecError::BorderAccess)
        }
    }
}

/// Whether the bytes are a valid UTF-8 encoding, as
/// `vstd::utf8::valid_utf8` defines it: every scalar has a well-formed
/// leading byte with its continuation bytes, no encoding is overlong, and
/// no codepoint falls in the surrogate range.
#[verifier::loop_isolation(false)]
#[verifier::rlimit(60)]
fn check_utf8(bytes: &[u8]) -> (r: bool)
    ensures
        r == valid_utf8(bytes@),
{
    let n = bytes.len();
    let mut i: usize = 0;
    proof {
        assert(bytes@.skip(0) =~= bytes@);
    }
    while i < n
        invariant
            i <= n,
            valid_utf8(bytes@) == valid_utf8(bytes@.skip(i as int)),
        decreases n - i,
    {
        let ghost rest = bytes@.skip(i as int);
        proof {
            assert(rest[0] == bytes@[i as int]);
        }
        let b0 = bytes[i];
        if b0 <= 0x7f {
            proof {
                assert(valid_first_scalar(rest));
                assert(pop_first_scalar(rest) =~= bytes@.skip(i as int + 1));
            }
            i = i + 1;
        } else if b0 < 0xc0 {
            // a continuation byte cannot lead a scalar
            return false;
        } else if b0 <= 0xdf {
            if n - i < 2 || !(0x80 <= bytes[i + 1] && bytes[i + 1] <= 0xbf) {
                proof {
                    if rest.len() >= 2 {
                        assert(rest[1] == bytes@[i as int + 1]);
                    }
                }
                return false;
            }
            let b1 = bytes[i + 1];
            let l = (b0 & 0x1f) as u32;
            let c1 = (b1 & 0x3f) as u32;
            let cp = (l << 6) | c1;
            proof {
                assert(rest[1] == bytes@[i as int + 1]);
                assert(decode_first_codepoint(rest) == cp);
            }
            if cp < 0x80 {
                // overlong two-byte encoding
                return false;
            }
            proof {
                assert(l < 0x20 && c1 < 0x40 ==> (l << 6 | c1) < 0x800) by (bit_vector);
                assert(((b0 & 0x1f) as u32) < 0x20) by (bit_vector);
                assert(((b1 & 0x3f) as u32) < 0x40) by (bit_vector);
                assert(valid_first_scalar(rest));
                assert(pop_first_scalar(rest) =~= bytes@.skip(i as int + 2));
            }
            i = i + 2;
        } else if b0 <= 0xef {
            if n - i < 3 || !(0x80 <= bytes[i + 1] && bytes[i + 1] <= 0xbf) || !(0x80 <= bytes[i
                + 2] && bytes[i + 2] <= 0xbf) {
                proof {
                    if rest.len() >= 2 {
                        assert(rest[1] == bytes@[i as int + 1]);
                    }
                    if rest.len() >= 3 {
                        assert(rest[2] == bytes@[i as int + 2]);
                    }
                }
                return false;
            }
            let b1 = bytes[i + 1];
            let b2 = bytes[i + 2];
            let cp = (((b0 & 0x0f) as u32) << 12) | (((b1 & 0x3f) as u32) << 6) | ((b2
                & 0x3f) as u32);
            proof {
                assert(rest[1] == bytes@[i as int + 1]);
                assert(rest[2] == bytes@[i as int + 2]);
                assert(decode_first_codepoint(rest) == cp);
            }
            if cp < 0x800 {
                // overlong three-byte encoding
                return false;
            }
            if 0xd800 <= cp && cp <= 0xdfff {
                // surrogate range
                return false;
            }
            proof {
                assert(valid_first_scalar(rest));
                assert(pop_first_scalar(rest) =~= bytes@.skip(i as int + 3));
            }
            i = i + 3;
        } else if b0 <= 0xf7 {
            if n - i < 4 || !(0x80 <= bytes[i + 1] && bytes[i + 1] <= 0xbf) || !(0x80 <= bytes[i
                + 2] && bytes[i + 2] <= 0xbf) || !(0x80 <= bytes[i + 3] && bytes[i + 3] <= 0xbf) {
                proof {
                    if rest.len() >= 2 {
                        assert(rest[1] == bytes@[i as int + 1]);
                    }
                    if rest.len() >= 3 {
                        assert(rest[2] == bytes@[i as int + 2]);
                    }
                    if rest.len() >= 4 {
                        assert(rest[3] == bytes@[i as int + 3]);
                    }
                }
                return false;
            }
            let b1 = bytes[i + 1];
            let b2 = bytes[i + 2];
            let b3 = bytes[i + 3];
            let cp = (((b0 & 0x07) as u32) << 18) | (((b1 & 0x3f) as u32) << 12) | (((b2
                & 0x3f) as u32) << 6) | ((b3 & 0x3f) as u32);
            proof {
                assert(rest[1] == bytes@[i as int + 1]);
                assert(rest[2] == bytes@[i as int + 2]);
                assert(rest[3] == bytes@[i as int + 3]);
                assert(decode_first_codepoint(rest) == cp);
            }
            if cp < 0x10000 || cp > 0x10ffff {
                // overlong four-byte encoding, or past the last scalar
                return false;
            }
            proof {
                assert(valid_first_scalar(rest));
                assert(pop_first_scalar(rest) =~= bytes@.skip(i as int + 4));
            }
            i = i + 4;
        } else {
            // no leading byte form starts with 0xf8 or above
            return false;
        }
    }
    proof {
        assert(bytes@.skip(n as int) =~= Seq::<u8>::empty());
    }
    true
}


/// Arithmetic wraparound at the word boundary: incrementing the maximum
/// address word wraps the main register to zero and raises the zero flag;
/// decrementing zero wraps it to the maximum word, which is nonzero, so the
/// zero flag is updated to cleared; dividing by a zero-valued side register
/// fails without mutating any register.
pub proof fn lemma_wraparound(v: MachineView, x: u8)
    ensures
        v.main_register == u32::MAX ==> (spec_exec(v, InstrView::Increment)
            matches StepResult::Continue(v2) && v2.main_register == 0 && v2.flag_zero),
        v.main_register == 0 ==> (spec_exec(v, InstrView::Decrement)
            matches StepResult::Continue(v2) && v2.main_register == u32::MAX && !v2.flag_zero),
        reg_ok(v, x) && reg_val(v, x) == 0 ==> spec_exec(v, InstrView::Div(x))
            == StepResult::Failed(v, ExecError::DivisionByZero),
{
}

/// Stack symmetry: a push followed by a pop, starting within the stack
/// pointer's bound, returns the stack pointer to its prior value and hands
/// the pushed word back bit for bit; the registers and the program are
/// untouched. A balanced sequence of such pairs composes this state for
/// state.
pub proof fn lemma_stack_symmetry(v: MachineView, value: VmPtr)
    requires
        4 <= v.stack_pointer <= v.memory.len(),
        v.memory.len() <= u32::MAX,
    ensures
        ({
            let r1 = exec_push_word(v, value);
            r1 matches StepResult::Continue(v1) && {
                let r2 = exec_pop(v1);
                r2 matches StepResult::Continue(v2) && v2.stack_pointer == v.stack_pointer
                    && v2.main_register == value && v2.side_registers == v.side_registers
                    && v2.instruction_pointer == v.instruction_pointer && v2.program == v.program
                    && v2.memory.len() == v.memory.len() && v2.flag_zero == v.flag_zero
                    && v2.flag_comparison == v.flag_comparison && v2.output == v.output
            }
        }),
{
    lemma_word_round_trip();
    let sp4 = v.stack_pointer - 4;
    let written = splice(v.memory, sp4, word_bytes(value));
    assert(written.skip(sp4) =~= word_bytes(value) + v.memory.skip(sp4 + 4));
    assert(word_value(written.skip(sp4)) == word_value(word_bytes(value)));
}

/// Stack symmetry for side registers: pushing a side register and popping
/// back into it, within the stack pointer's bound, restores the stack
/// pointer and leaves the whole register file bit for bit as it was.
pub proof fn lemma_stack_symmetry_register(v: MachineView, x: u8)
    requires
        4 <= v.stack_pointer <= v.memory.len(),
        v.memory.len() <= u32::MAX,
        reg_ok(v, x),
    ensures
        ({
            let r1 = exec_push_register(v, x);
            r1 matches StepResult::Continue(v1) && {
                let r2 = exec_pop_register(v1, x);
                r2 matches StepResult::Continue(v2) && v2.stack_pointer == v.stack_pointer
                    && v2.side_registers == v.side_registers && v2.main_register
                    == v.main_register && v2.instruction_pointer == v.instruction_pointer
                    && v2.program == v.program && v2.memory.len() == v.memory.len()
            }
        }),
{
    lemma_word_round_trip();
    let sp4 = v.stack_pointer - 4;
    let written = splice(v.memory, sp4, word_bytes(reg_val(v, x)));
    assert(written.skip(sp4) =~= word_bytes(reg_val(v, x)) + v.memory.skip(sp4 + 4));
    assert(word_value(written.skip(sp4)) == word_value(word_bytes(reg_val(v, x))));
    assert(v.side_registers.update(x as int, reg_val(v, x)) =~= v.side_registers);
}

/// The executable is shared-but-immutable, and the machine's shape is
/// fixed: no step, successful or failed, changes the program bytes, the
/// memory size, or the register count.
#[verifier::rlimit(60)]
pub proof fn lemma_executable_immutable(v: MachineView)
    ensures
        match spec_step(v) {
            StepResult::Continue(v2) => v2.program == v.program && v2.memory.len()
                == v.memory.len() && v2.side_registers.len() == v.side_registers.len(),
            StepResult::Halted(v2) => v2.program == v.program && v2.memory.len()
                == v.memory.len() && v2.side_registers.len() == v.side_registers.len(),
            StepResult::Failed(v2, _) => v2.program == v.program && v2.memory.len()
                == v.memory.len() && v2.side_registers.len() == v.side_registers.len(),
        },
{
    if v.instruction_pointer <= v.program.len() {
        match spec_decode(v.program.skip(v.instruction_pointer as int)) {
            Err(_) => {},
            Ok(i) => {
                let v1 = MachineView {
                    instruction_pointer: (v.instruction_pointer + spec_size(i)) as VmPtr,
                    ..v
                };
                lemma_exec_shape(v1, i);
            },
        }
    }
}

/// One instruction's effect keeps the program bytes, the memory size and
/// the register count.
#[verifier::rlimit(100)]
proof fn lemma_exec_shape(v: MachineView, i: InstrView)
    ensures
        match spec_exec(v, i) {
            StepResult::Continue(v2) => v2.program == v.program && v2.memory.len()
                == v.memory.len() && v2.side_registers.len() == v.side_registers.len(),
            StepResult::Halted(v2) => v2.program == v.program && v2.memory.len()
                == v.memory.len() && v2.side_registers.len() == v.side_registers.len(),
            StepResult::Failed(v2, _) => v2.program == v.program && v2.memory.len()
                == v.memory.len() && v2.side_registers.len() == v.side_registers.len(),
        },
{
    match i {
        InstrView::Nop => {},
        InstrView::Halt => {},
        InstrView::ReadStackPointer => {},
        InstrView::WriteStackPointer => {},
        InstrView::Return => {},
        InstrView::Increment => {},
        InstrView::Decrement => {},
        InstrView::Push => {},
        InstrView::Pop => {},
        InstrView::Load8(_) => {},
        InstrView::Store8(_) => {},
        InstrView::Load16(_) => {},
        InstrView::Store16(_) => {},
        InstrView::Load32(_) => {},
        InstrView::Store32(_) => {},
        InstrView::SetMain(_) => {},
        InstrView::Jump(_) => {},
        InstrView::Call(_) => {},
        InstrView::JumpEqual(_) => {},
        InstrView::JumpNotEqual(_) => {},
        InstrView::JumpGreater(_) => {},
        InstrView::JumpLess(_) => {},
        InstrView::JumpGreaterEqual(_) => {},
        InstrView::JumpLessEqual(_) => {},
        InstrView::JumpZero(_) => {},
        InstrView::JumpNonzero(_) => {},
        InstrView::Deref8(_) => {},
        InstrView::Deref16(_) => {},
        InstrView::Deref32(_) => {},
        InstrView::Syscall(_) => {},
        InstrView::Swap(_) => {},
        InstrView::Write8(_) => {},
        InstrView::Write16(_) => {},
        InstrView::Write32(_) => {},
        InstrView::Add(_) => {},
        InstrView::Sub(_) => {},
        InstrView::Compare(_) => {},
        InstrView::PushRegister(_) => {},
        InstrView::PopRegister(_) => {},
        InstrView::Mul(_) => {},
        InstrView::Div(_) => {},
        InstrView::IncrementRegister(_) => {},
        InstrView::DecrementRegister(_) => {},
        InstrView::CopyCodeMemory(_, _) => {},
        InstrView::Data(_, _) => {},
        InstrView::SetRegister(_, _) => {},
    }
}

/// How an executable step's result and final state realize a specified
/// step result.
pub open spec fn obeys_step_result(
    post: MachineView,
    r: Result<bool, ExecError>,
    sr: StepResult,
) -> bool {
    match sr {
        StepResult::Continue(v2) => r == Ok::<bool, ExecError>(true) && post == v2,
        StepResult::Halted(v2) => r == Ok::<bool, ExecError>(false) && post == v2,
        StepResult::Failed(v2, e) => r == Err::<bool, ExecError>(e) && post == v2,
    }
}

impl Machine {
    /// Read the NUL-terminated string at the address in the main register
    /// and check that it is valid UTF-8. Returns its bytes without the NUL.
    fn read_cstring(&self) -> (r: Result<Vec<u8>, ExecError>)
        requires
            self.wf(),
        ensures
            self@.main_register > self@.memory.len() ==> r == Err::<Vec<u8>, ExecError>(
                ExecError::MemoryOutOfBounds(self@.main_register),
            ),
            self@.main_register <= self@.memory.len() ==> (match find_nul(
                self@.memory.skip(self@.main_register as int),
            ) {
                None => r == Err::<Vec<u8>, ExecError>(ExecError::BorderAccess),
                Some(k) => if valid_utf8(self@.memory.skip(self@.main_register as int).take(k)) {
                    r matches Ok(b) && b@ == self@.memory.skip(self@.main_register as int).take(k)
                } else {
                    r == Err::<Vec<u8>, ExecError>(ExecError::InvalidString(self@.main_register))
                },
            }),
    {
        let m = self.main_register;
        if m as usize > self.memory.len() {
            return Err(ExecError::MemoryOutOfBounds(m));
        }
        let ghost tail = self@.memory.skip(m as int);
        let mut k: usize = m as usize;
        while k < self.memory.len()
            invariant
                self.wf(),
                m == self@.main_register,
                m as int <= k as int <= self@.memory.len(),
                tail == self@.memory.skip(m as int),
                forall|j: int| 0 <= j < k - m ==> tail[j] != 0,
            decreases self@.memory.len() - k,
        {
            proof {
                assert(tail[k - m as int] == self@.memory[k as int]);
            }
            if self.memory[k] == 0 {
                proof {
                    lemma_find_nul_at(tail, k - m as int);
                }
                let bytes = slice_to_vec(slice_subrange(self.memory.as_slice(), m as usize, k));
                proof {
                    assert(bytes@ =~= tail.take(k - m as int));
                }
                if check_utf8(bytes.as_slice()) {
                    return Ok(bytes);
                } else {
                    return Err(ExecError::InvalidString(m));
                }
            }
            k = k + 1;
        }
        proof {
            lemma_find_nul(tail);
            if let Some(j) = find_nul(tail) {
                assert(tail[j] != 0);
            }
        }
        Err(ExecError::BorderAccess)
    }

    /// Make a syscall at the current state, appending any printed text to
    /// the output.
    fn syscall(&mut self, index: u8) -> (r: Result<(), ExecError>)
        requires
            old(self).wf(),
        ensures
            final(self).wf(),
            match spec_syscall(old(self)@, index) {
                StepResult::Continue(v2) => r == Ok::<(), ExecError>(()) && final(self)@ == v2,
                StepResult::Halted(_) => false,
                StepResult::Failed(v2, e) => r == Err::<(), ExecError>(e) && final(self)@ == v2,
            },
    {
        match index {
            0 => {
                let bytes = match self.read_cstring() {
                    Ok(b) => b,
                    Err(e) => {
                        return Err(e);
                    },
                };
                let ghost ev = EventView::Line(bytes@);
                self.output.push(Event::Line(bytes));
                proof {
                    assert(self@.output =~= old(self)@.output.push(ev));
                    assert(self@ =~= (MachineView {
                        output: old(self)@.output.push(ev),
                        ..old(self)@
                    }));
                }
                Ok(())
            },
            1 => {
                let ghost ev = EventView::Number(self@.main_register);
                self.output.push(Event::Number(self.main_register));
                proof {
                    assert(self@.output =~= old(self)@.output.push(ev));
                    assert(self@ =~= (MachineView {
                        output: old(self)@.output.push(ev),
                        ..old(self)@
                    }));
                }
                Ok(())
            },
            2 => {
                let bytes = match self.read_cstring() {
                    Ok(b) => b,
                    Err(e) => {
                        return Err(e);
                    },
                };
                let ghost ev = EventView::Text(bytes@);
                self.output.push(Event::Text(bytes));
                proof {
                    assert(self@.output =~= old(self)@.output.push(ev));
                    assert(self@ =~= (MachineView {
                        output: old(self)@.output.push(ev),
                        ..old(self)@
                    }));
                }
                Ok(())
            },
            _ => Err(ExecError::UnknownSyscall(index)),
        }
    }

    /// Move the stack pointer down one word and write the word there. The
    /// stack pointer keeps its new value also when the write fails.
    fn stack_push(&mut self, value: VmPtr) -> (r: Result<(), ExecError>)
        requires
            old(self).wf(),
        ensures
            final(self).wf(),
            match exec_push_word(old(self)@, value) {
                StepResult::Continue(v2) => r == Ok::<(), ExecError>(()) && final(self)@ == v2,
                StepResult::Halted(_) => false,
                StepResult::Failed(v2, e) => r == Err::<(), ExecError>(e) && final(self)@ == v2,
            },
    {
        if self.stack_pointer < 4 {
            return Err(ExecError::StackOverflow);
        }
        self.stack_pointer = self.stack_pointer - 4;
        self.write_mem32(self.stack_pointer, value)
    }

    /// Load one byte at `ptr` into the main register.
    fn do_load8(&mut self, ptr: VmPtr) -> (r: Result<bool, ExecError>)
        requires
            old(self).wf(),
        ensures
            final(self).wf(),
            obeys_step_result(final(self)@, r, exec_load(old(self)@, ptr, 1)),
    {
        match self.read_mem8(ptr) {
            Ok(b) => {
                self.main_register = b as u32;
                proof {
                    assert(self@ =~= (MachineView {
                        main_register: mem_read_val(old(self)@, ptr, 1),
                        ..old(self)@
                    }));
                }
                Ok(true)
            },
            Err(e) => Err(e),
        }
    }

    /// Load a 16 bit value at `ptr` into the main register, zero-extended.
    fn do_load16(&mut self, ptr: VmPtr) -> (r: Result<bool, ExecError>)
        requires
            old(self).wf(),
        ensures
            final(self).wf(),
            obeys_step_result(final(self)@, r, exec_load(old(self)@, ptr, 2)),
    {
        match self.read_mem16(ptr) {
            Ok(b) => {
                self.main_register = b as u32;
                proof {
                    assert(self@ =~= (MachineView {
                        main_register: mem_read_val(old(self)@, ptr, 2),
                        ..old(self)@
                    }));
                }
                Ok(true)
            },
            Err(e) => Err(e),
        }
    }

    /// Load an address word at `ptr` into the main register.
    fn do_load32(&mut self, ptr: VmPtr) -> (r: Result<bool, ExecError>)
        requires
            old(self).wf(),
        ensures
            final(self).wf(),
            obeys_step_result(final(self)@, r, exec_load(old(self)@, ptr, 4)),
    {
        match self.read_mem32(ptr) {
            Ok(b) => {
                self.main_register = b;
                proof {
                    assert(self@ =~= (MachineView {
                        main_register: mem_read_val(old(self)@, ptr, 4),
                        ..old(self)@
                    }));
                }
                Ok(true)
            },
            Err(e) => Err(e),
        }
    }

    /// Store the main register's low byte at `ptr`.
    fn do_store8(&mut self, ptr: VmPtr) -> (r: Result<bool, ExecError>)
        requires
            old(self).wf(),
        ensures
            final(self).wf(),
            obeys_step_result(
                final(self)@,
                r,
                exec_store(old(self)@, ptr, seq![old(self)@.main_register as u8]),
            ),
    {
        let value = self.main_register as u8;
        let r = self.write_mem8(ptr, value);
        proof {
            if ptr > old(self)@.memory.len() {
                assert(self@ =~= old(self)@);
            }
        }
        match r {
            Ok(()) => Ok(true),
            Err(e) => Err(e),
        }
    }

    /// Store the main register's low 16 bits at `ptr`, big-endian.
    fn do_store16(&mut self, ptr: VmPtr) -> (r: Result<bool, ExecError>)
        requires
            old(self).wf(),
        ensures
            final(self).wf(),
            obeys_step_result(
                final(self)@,
                r,
                exec_store(old(self)@, ptr, half_bytes(old(self)@.main_register as u16)),
            ),
    {
        let value = self.main_register as u16;
        let r = self.write_mem16(ptr, value);
        proof {
            if ptr > old(self)@.memory.len() {
                assert(self@ =~= old(self)@);
            }
        }
        match r {
            Ok(()) => Ok(true),
            Err(e) => Err(e),
        }
    }

    /// Store the main register at `ptr`, big-endian.
    fn do_store32(&mut self, ptr: VmPtr) -> (r: Result<bool, ExecError>)
        requires
            old(self).wf(),
        ensures
            final(self).wf(),
            obeys_step_result(
                final(self)@,
                r,
                exec_store(old(self)@, ptr, word_bytes(old(self)@.main_register)),
            ),
    {
        let value = self.main_register;
        let r = self.write_mem32(ptr, value);
        proof {
            if ptr > old(self)@.memory.len() {
                assert(self@ =~= old(self)@);
            }
        }
        match r {
            Ok(()) => Ok(true),
            Err(e) => Err(e),
        }
    }

    /// Copy `n` program bytes at `src` into memory at the address in the
    /// main register.
    fn do_copy(&mut self, src: VmPtr, n: VmPtr) -> (r: Result<bool, ExecError>)
        requires
            old(self).wf(),
        ensures
            final(self).wf(),
            obeys_step_result(final(self)@, r, exec_copy(old(self)@, src, n)),
    {
        let ghost v1 = self@;
        if (src as u64) + (n as u64) > self.program.len() as u64 {
            return Err(ExecError::ProgramOutOfBounds(src));
        }
        let target = self.main_register;
        if (target as u64) + (n as u64) > self.memory.len() as u64 {
            return Err(ExecError::MemoryOutOfBounds(target));
        }
        let mut off: usize = 0;
        proof {
            assert(self@.memory =~= splice(
                v1.memory,
                target as int,
                v1.program.subrange(src as int, src as int),
            ));
        }
        while off < n as usize
            invariant
                self.wf(),
                src as int + n as int <= v1.program.len(),
                target as int + n as int <= v1.memory.len(),
                off <= n,
                target == v1.main_register,
                self@ == (MachineView {
                    memory: splice(
                        v1.memory,
                        target as int,
                        v1.program.subrange(src as int, src as int + off as int),
                    ),
                    ..v1
                }),
            decreases n as int - off as int,
        {
            let b = self.program[src as usize + off];
            self.memory.set(target as usize + off, b);
            proof {
                assert(self@.memory =~= splice(
                    v1.memory,
                    target as int,
                    v1.program.subrange(src as int, src as int + off as int + 1),
                ));
            }
            off = off + 1;
        }
        Ok(true)
    }

    /// Pop the return address from the stack and jump to it.
    fn do_return(&mut self) -> (r: Result<bool, ExecError>)
        requires
            old(self).wf(),
        ensures
            final(self).wf(),
            obeys_step_result(final(self)@, r, exec_return(old(self)@)),
    {
        let target = match self.read_mem32(self.stack_pointer) {
            Ok(v) => v,
            Err(e) => {
                return Err(e);
            },
        };
        self.instruction_pointer = target;
        if self.stack_pointer > u32::MAX - 4 {
            return Err(ExecError::StackUnderflow);
        }
        self.stack_pointer = self.stack_pointer + 4;
        Ok(true)
    }

    /// Pop a word from the stack into the main register.
    fn do_pop(&mut self) -> (r: Result<bool, ExecError>)
        requires
            old(self).wf(),
        ensures
            final(self).wf(),
            obeys_step_result(final(self)@, r, exec_pop(old(self)@)),
    {
        let value = match self.read_mem32(self.stack_pointer) {
            Ok(v) => v,
            Err(e) => {
                return Err(e);
            },
        };
        self.main_register = value;
        if self.stack_pointer > u32::MAX - 4 {
            return Err(ExecError::StackUnderflow);
        }
        self.stack_pointer = self.stack_pointer + 4;
        Ok(true)
    }

    /// Push side register `x` onto the stack.
    fn do_push_register(&mut self, x: u8) -> (r: Result<bool, ExecError>)
        requires
            old(self).wf(),
        ensures
            final(self).wf(),
            obeys_step_result(final(self)@, r, exec_push_register(old(self)@, x)),
    {
        if self.stack_pointer < 4 {
            return Err(ExecError::StackOverflow);
        }
        self.stack_pointer = self.stack_pointer - 4;
        let value = match self.side_register(x) {
            Ok(v) => v,
            Err(e) => {
                return Err(e);
            },
        };
        let r = self.write_mem32(self.stack_pointer, value);
        proof {
            if self.stack_pointer > old(self)@.memory.len() {
                assert(self@ =~= (MachineView {
                    stack_pointer: (old(self)@.stack_pointer - 4) as VmPtr,
                    ..old(self)@
                }));
            }
        }
        match r {
            Ok(()) => Ok(true),
            Err(e) => Err(e),
        }
    }

    /// Pop a word from the stack into side register `x`.
    fn do_pop_register(&mut self, x: u8) -> (r: Result<bool, ExecError>)
        requires
            old(self).wf(),
        ensures
            final(self).wf(),
            obeys_step_result(final(self)@, r, exec_pop_register(old(self)@, x)),
    {
        let value = match self.read_mem32(self.stack_pointer) {
            Ok(v) => v,
            Err(e) => {
                return Err(e);
            },
        };
        if (x as usize) >= self.side_registers.len() {
            return Err(ExecError::RegisterOutOfBounds(x));
        }
        self.side_registers.set(x as usize, value);
        proof {
            assert(self@ =~= (MachineView {
                side_registers: old(self)@.side_registers.update(x as int, value),
                ..old(self)@
            }));
        }
        if self.stack_pointer > u32::MAX - 4 {
            return Err(ExecError::StackUnderflow);
        }
        self.stack_pointer = self.stack_pointer + 4;
        Ok(true)
    }

    /// Divide the main register by side register `x`: quotient to the main
    /// register, remainder to the side register.
    fn do_div(&mut self, x: u8) -> (r: Result<bool, ExecError>)
        requires
            old(self).wf(),
        ensures
            final(self).wf(),
            obeys_step_result(final(self)@, r, exec_div(old(self)@, x)),
    {
        if (x as usize) >= self.side_registers.len() {
            return Err(ExecError::RegisterOutOfBounds(x));
        }
        let divisor = self.side_registers[x as usize];
        if divisor == 0 {
            return Err(ExecError::DivisionByZero);
        }
        let value = self.main_register;
        self.side_registers.set(x as usize, value % divisor);
        self.main_register = value / divisor;
        proof {
            assert(self@ =~= (MachineView {
                main_register: old(self)@.main_register / divisor,
                side_registers: old(self)@.side_registers.update(
                    x as int,
                    old(self)@.main_register % divisor,
                ),
                ..old(self)@
            }));
        }
        Ok(true)
    }

    /// Execute one already decoded instruction; the instruction pointer has
    /// already advanced past it.
    #[verifier::rlimit(100)]
    #[verifier::spinoff_prover]
    fn exec_instruction(&mut self, instruction: Instruction) -> (r: Result<bool, ExecError>)
        requires
            old(self).wf(),
        ensures
            final(self).wf(),
            obeys_step_result(final(self)@, r, spec_exec(old(self)@, instruction@)),
    {
        let ghost v1 = self@;
        match instruction {
            Instruction::Nop | Instruction::Data(_, _) => Ok(true),
            Instruction::Halt => Ok(false),
            Instruction::Load8(ptr) => self.do_load8(ptr),
            Instruction::Load16(ptr) => self.do_load16(ptr),
            Instruction::Load32(ptr) => self.do_load32(ptr),
            Instruction::Store8(ptr) => self.do_store8(ptr),
            Instruction::Store16(ptr) => self.do_store16(ptr),
            Instruction::Store32(ptr) => self.do_store32(ptr),
            Instruction::SetMain(value) => {
                self.main_register = value;
                Ok(true)
            },
            Instruction::Deref8(x) => {
                let ptr = match self.side_register(x) {
                    Ok(p) => p,
                    Err(e) => {
                        return Err(e);
                    },
                };
                self.do_load8(ptr)
            },
            Instruction::Deref16(x) => {
                let ptr = match self.side_register(x) {
                    Ok(p) => p,
                    Err(e) => {
                        return Err(e);
                    },
                };
                self.do_load16(ptr)
            },
            Instruction::Deref32(x) => {
                let ptr = match self.side_register(x) {
                    Ok(p) => p,
                    Err(e) => {
                        return Err(e);
                    },
                };
                self.do_load32(ptr)
            },
            Instruction::Syscall(index) => {
                match self.syscall(index) {
                    Ok(()) => Ok(true),
                    Err(e) => Err(e),
                }
            },
            Instruction::CopyCodeMemory(src, n) => self.do_copy(src, n),
            Instruction::Swap(x) => {
                if (x as usize) < self.side_registers.len() {
                    let tmp = self.side_registers[x as usize];
                    self.side_registers.set(x as usize, self.main_register);
                    self.main_register = tmp;
                    proof {
                        assert(self@ =~= (MachineView {
                            main_register: reg_val(v1, x),
                            side_registers: v1.side_registers.update(
                                x as int,
                                v1.main_register,
                            ),
                            ..v1
                        }));
                    }
                    Ok(true)
                } else {
                    Err(ExecError::RegisterOutOfBounds(x))
                }
            },
            Instruction::Write8(x) => {
                let ptr = match self.side_register(x) {
                    Ok(p) => p,
                    Err(e) => {
                        return Err(e);
                    },
                };
                self.do_store8(ptr)
            },
            Instruction::Write16(x) => {
                let ptr = match self.side_register(x) {
                    Ok(p) => p,
                    Err(e) => {
                        return Err(e);
                    },
                };
                self.do_store16(ptr)
            },
            Instruction::Write32(x) => {
                let ptr = match self.side_register(x) {
                    Ok(p) => p,
                    Err(e) => {
                        return Err(e);
                    },
                };
                self.do_store32(ptr)
            },
            Instruction::ReadStackPointer => {
                self.main_register = self.stack_pointer;
                Ok(true)
            },
            Instruction::WriteStackPointer => {
                self.stack_pointer = self.main_register;
                Ok(true)
            },
            Instruction::Jump(a) => {
                self.instruction_pointer = a;
                Ok(true)
            },
            Instruction::Call(a) => {
                let ret = self.instruction_pointer;
                match self.stack_push(ret) {
                    Ok(()) => {
                        let ghost vafter = self@;
                        self.instruction_pointer = a;
                        proof {
                            assert(self@ =~= (MachineView {
                                instruction_pointer: a,
                                ..vafter
                            }));
                        }
                        Ok(true)
                    },
                    Err(e) => Err(e),
                }
            },
            Instruction::Return => self.do_return(),
            Instruction::Increment => {
                self.main_register = self.main_register.wrapping_add(1);
                self.flag_zero = self.main_register == 0;
                Ok(true)
            },
            Instruction::Decrement => {
                self.main_register = self.main_register.wrapping_sub(1);
                self.flag_zero = self.main_register == 0;
                Ok(true)
            },
            Instruction::Add(x) => {
                let rv = match self.side_register(x) {
                    Ok(v) => v,
                    Err(e) => {
                        return Err(e);
                    },
                };
                self.main_register = self.main_register.wrapping_add(rv);
                Ok(true)
            },
            Instruction::Sub(x) => {
                let rv = match self.side_register(x) {
                    Ok(v) => v,
                    Err(e) => {
                        return Err(e);
                    },
                };
                self.main_register = self.main_register.wrapping_sub(rv);
                Ok(true)
            },
            Instruction::Compare(x) => {
                let rv = match self.side_register(x) {
                    Ok(v) => v,
                    Err(e) => {
                        return Err(e);
                    },
                };
                self.flag_comparison = if self.main_register < rv {
                    CmpFlag::Less
                } else if self.main_register == rv {
                    CmpFlag::Equal
                } else {
                    CmpFlag::Greater
                };
                Ok(true)
            },
            Instruction::JumpEqual(a) => {
                if self.flag_comparison == CmpFlag::Equal {
                    self.instruction_pointer = a;
                }
                Ok(true)
            },
            Instruction::JumpNotEqual(a) => {
                if self.flag_comparison != CmpFlag::Equal {
                    self.instruction_pointer = a;
                }
                Ok(true)
            },
            Instruction::JumpGreater(a) => {
                if self.flag_comparison == CmpFlag::Greater {
                    self.instruction_pointer = a;
                }
                Ok(true)
            },
            Instruction::JumpLess(a) => {
                if self.flag_comparison == CmpFlag::Less {
                    self.instruction_pointer = a;
                }
                Ok(true)
            },
            Instruction::JumpGreaterEqual(a) => {
                if self.flag_comparison != CmpFlag::Less {
                    self.instruction_pointer = a;
                }
                Ok(true)
            },
            Instruction::JumpLessEqual(a) => {
                if self.flag_comparison != CmpFlag::Greater {
                    self.instruction_pointer = a;
                }
                Ok(true)
            },
            Instruction::JumpZero(a) => {
                if self.flag_zero {
                    self.instruction_pointer = a;
                }
                Ok(true)
            },
            Instruction::JumpNonzero(a) => {
                if !self.flag_zero {
                    self.instruction_pointer = a;
                }
                Ok(true)
            },
            Instruction::Push => {
                let value = self.main_register;
                match self.stack_push(value) {
                    Ok(()) => Ok(true),
                    Err(e) => Err(e),
                }
            },
            Instruction::Pop => self.do_pop(),
            Instruction::PushRegister(x) => self.do_push_register(x),
            Instruction::PopRegister(x) => self.do_pop_register(x),
            Instruction::Mul(x) => {
                let rv = match self.side_register(x) {
                    Ok(v) => v,
                    Err(e) => {
                        return Err(e);
                    },
                };
                self.main_register = self.main_register.wrapping_mul(rv);
                Ok(true)
            },
            Instruction::Div(x) => self.do_div(x),
            Instruction::IncrementRegister(x) => {
                if (x as usize) >= self.side_registers.len() {
                    return Err(ExecError::RegisterOutOfBounds(x));
                }
                let nv = self.side_registers[x as usize].wrapping_add(1);
                self.side_registers.set(x as usize, nv);
                self.flag_zero = nv == 0;
                proof {
                    assert(self@ =~= (MachineView {
                        side_registers: v1.side_registers.update(
                            x as int,
                            reg_val(v1, x).wrapping_add(1),
                        ),
                        flag_zero: reg_val(v1, x).wrapping_add(1) == 0,
                        ..v1
                    }));
                }
                Ok(true)
            },
            Instruction::DecrementRegister(x) => {
                if (x as usize) >= self.side_registers.len() {
                    return Err(ExecError::RegisterOutOfBounds(x));
                }
                let nv = self.side_registers[x as usize].wrapping_sub(1);
                self.side_registers.set(x as usize, nv);
                self.flag_zero = nv == 0;
                proof {
                    assert(self@ =~= (MachineView {
                        side_registers: v1.side_registers.update(
                            x as int,
                            reg_val(v1, x).wrapping_sub(1),
                        ),
                        flag_zero: reg_val(v1, x).wrapping_sub(1) == 0,
                        ..v1
                    }));
                }
                Ok(true)
            },
            Instruction::SetRegister(x, value) => {
                if (x as usize) >= self.side_registers.len() {
                    return Err(ExecError::RegisterOutOfBounds(x));
                }
                self.side_registers.set(x as usize, value);
                proof {
                    assert(self@ =~= (MachineView {
                        side_registers: v1.side_registers.update(x as int, value),
                        ..v1
                    }));
                }
                Ok(true)
            },
        }
    }

    /// Run one step of the virtual machine: fetch, decode, advance the
    /// instruction pointer, execute. Return whether execution should
    /// continue; `Ok(false)` only for a halt.
    pub fn step(&mut self) -> (r: Result<bool, ExecError>)
        requires
            old(self).wf(),
        ensures
            final(self).wf(),
            obeys_step_result(final(self)@, r, spec_step(old(self)@)),
    {
        if self.instruction_pointer as usize > self.program.len() {
            return Err(ExecError::IpOutOfBounds);
        }
        let code = slice_subrange(
            self.program.as_slice(),
            self.instruction_pointer as usize,
            self.program.len(),
        );
        proof {
            assert(code@ =~= old(self)@.program.skip(old(self)@.instruction_pointer as int));
        }
        let instruction = match Instruction::parse(code) {
            Ok(i) => i,
            Err(e) => {
                return Err(ExecError::ParseFailed(e));
            },
        };
        proof {
            lemma_decode_size(code@);
        }
        let size = instruction.size();
        self.instruction_pointer = self.instruction_pointer + size as u32;
        proof {
            assert(self@ =~= (MachineView {
                instruction_pointer: (old(self)@.instruction_pointer + spec_size(
                    instruction@,
                )) as VmPtr,
                ..old(self)@
            }));
        }
        self.exec_instruction(instruction)
    }

    /// Run the virtual machine until it halts or errors, at most
    /// `max_steps` steps. Returns `Ok(true)` when the machine executed a
    /// halt and `Ok(false)` when the step budget ran out first.
    pub fn run(&mut self, max_steps: u64) -> (r: Result<bool, ExecError>)
        requires
            old(self).wf(),
        ensures
            final(self).wf(),
            match spec_run(old(self)@, max_steps as nat) {
                RunResult::Halted(v2) => r == Ok::<bool, ExecError>(true) && final(self)@ == v2,
                RunResult::OutOfFuel(v2) => r == Ok::<bool, ExecError>(false) && final(self)@
                    == v2,
                RunResult::Failed(v2, e) => r == Err::<bool, ExecError>(e) && final(self)@ == v2,
            },
    {
        let mut steps: u64 = 0;
        while steps < max_steps
            invariant
                self.wf(),
                steps <= max_steps,
                spec_run(old(self)@, max_steps as nat) == spec_run(
                    self@,
                    (max_steps - steps) as nat,
                ),
            decreases max_steps - steps,
        {
            let cont = match self.step() {
                Ok(c) => c,
                Err(e) => {
                    return Err(e);
                },
            };
            if !cont {
                return Ok(true);
            }
            steps = steps + 1;
        }
        Ok(false)
    }
}

} // verus!
