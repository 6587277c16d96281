//! The program builder: an ordered instruction list with address
//! bookkeeping, placeholder emission and patching for forward references,
//! and compilation to the executable byte sequence.

use vstd::prelude::*;
use vstd::pervasive::VecAdditionalExecFns;

use crate::VmPtr;
use crate::errors::BuildError;
use crate::instruction::{Instruction, InstrView, WORD_SIZE, spec_encode, spec_size};
use crate::util::vm_ptr;

verus! {

/// The sentinel operand of a placeholder jump, call or copy instruction.
pub const DUMMY_ADDRESS: VmPtr = u32::MAX;

/// The total encoded size of a sequence of instructions.
pub open spec fn sizes_total(s: Seq<InstrView>) -> int
    decreases s.len(),
{
    if s.len() == 0 {
        0
    } else {
        sizes_total(s.drop_last()) + spec_size(s.last())
    }
}

/// The byte address of the instruction at index `k`: the sum of the encoded
/// sizes of all instructions before it.
pub open spec fn spec_address(s: Seq<InstrView>, k: int) -> int {
    sizes_total(s.take(k))
}

/// The bytes of a compiled program: the concatenated encodings of its
/// instructions, in order.
pub open spec fn spec_compile(s: Seq<InstrView>) -> Seq<u8>
    decreases s.len(),
{
    if s.len() == 0 {
        Seq::empty()
    } else {
        spec_compile(s.drop_last()) + spec_encode(s.last())
    }
}

/// True of the instructions that carry a code address and can stand as a
/// placeholder: jumps, conditional jumps and calls.
pub open spec fn is_jump_or_call(i: InstrView) -> bool {
    ||| i matches InstrView::Jump(_)
    ||| i matches InstrView::Call(_)
    ||| i matches InstrView::JumpEqual(_)
    ||| i matches InstrView::JumpNotEqual(_)
    ||| i matches InstrView::JumpGreater(_)
    ||| i matches InstrView::JumpLess(_)
    ||| i matches InstrView::JumpGreaterEqual(_)
    ||| i matches InstrView::JumpLessEqual(_)
    ||| i matches InstrView::JumpZero(_)
    ||| i matches InstrView::JumpNonzero(_)
}

/// The code address a jump, conditional jump or call transfers to.
pub open spec fn jump_target(i: InstrView) -> VmPtr
    recommends
        is_jump_or_call(i),
{
    match i {
        InstrView::Jump(a) => a,
        InstrView::Call(a) => a,
        InstrView::JumpEqual(a) => a,
        InstrView::JumpNotEqual(a) => a,
        InstrView::JumpGreater(a) => a,
        InstrView::JumpLess(a) => a,
        InstrView::JumpGreaterEqual(a) => a,
        InstrView::JumpLessEqual(a) => a,
        InstrView::JumpZero(a) => a,
        InstrView::JumpNonzero(a) => a,
        _ => 0,
    }
}

/// A placeholder: a jump or call whose target is still the sentinel.
pub open spec fn is_dummy_jump(i: InstrView) -> bool {
    is_jump_or_call(i) && jump_target(i) == DUMMY_ADDRESS
}

/// The same jump or call, aimed at the given address.
pub open spec fn with_target(i: InstrView, a: VmPtr) -> InstrView {
    match i {
        InstrView::Jump(_) => InstrView::Jump(a),
        InstrView::Call(_) => InstrView::Call(a),
        InstrView::JumpEqual(_) => InstrView::JumpEqual(a),
        InstrView::JumpNotEqual(_) => InstrView::JumpNotEqual(a),
        InstrView::JumpGreater(_) => InstrView::JumpGreater(a),
        InstrView::JumpLess(_) => InstrView::JumpLess(a),
        InstrView::JumpGreaterEqual(_) => InstrView::JumpGreaterEqual(a),
        InstrView::JumpLessEqual(_) => InstrView::JumpLessEqual(a),
        InstrView::JumpZero(_) => InstrView::JumpZero(a),
        InstrView::JumpNonzero(_) => InstrView::JumpNonzero(a),
        _ => i,
    }
}

/// Every instruction size is at least the opcode byte.
pub proof fn lemma_size_pos(i: InstrView)
    ensures
        spec_size(i) >= 1,
{
}

/// A total size is never negative.
pub proof fn lemma_sizes_total_nonneg(s: Seq<InstrView>)
    ensures
        sizes_total(s) >= 0,
    decreases s.len(),
{
    if s.len() > 0 {
        lemma_sizes_total_nonneg(s.drop_last());
        lemma_size_pos(s.last());
    }
}

/// A program has at least as many bytes as instructions.
pub proof fn lemma_sizes_total_ge_len(s: Seq<InstrView>)
    ensures
        sizes_total(s) >= s.len(),
    decreases s.len(),
{
    if s.len() > 0 {
        lemma_sizes_total_ge_len(s.drop_last());
        lemma_size_pos(s.last());
    }
}

/// Appending an instruction grows the total size by the instruction's size.
pub proof fn lemma_sizes_total_push(s: Seq<InstrView>, i: InstrView)
    ensures
        sizes_total(s.push(i)) == sizes_total(s) + spec_size(i),
{
    assert(s.push(i).drop_last() =~= s);
    assert(s.push(i).last() == i);
}

/// The address one past index `k` is the address of `k` plus its size.
pub proof fn lemma_address_succ(s: Seq<InstrView>, k: int)
    requires
        0 <= k < s.len(),
    ensures
        spec_address(s, k + 1) == spec_address(s, k) + spec_size(s[k]),
{
    assert(s.take(k + 1).drop_last() =~= s.take(k));
    assert(s.take(k + 1).last() == s[k]);
}

/// A prefix of a program is no larger than the whole program.
pub proof fn lemma_sizes_total_prefix_le(s: Seq<InstrView>, k: int)
    requires
        0 <= k <= s.len(),
    ensures
        sizes_total(s.take(k)) <= sizes_total(s),
    decreases s.len() - k,
{
    if k == s.len() {
        assert(s.take(k) =~= s);
    } else {
        lemma_address_succ(s, k);
        lemma_size_pos(s[k]);
        lemma_sizes_total_prefix_le(s, k + 1);
    }
}

/// Replacing one instruction changes the total size by the difference of
/// the two instruction sizes.
pub proof fn lemma_sizes_total_update(s: Seq<InstrView>, k: int, j: InstrView)
    requires
        0 <= k < s.len(),
    ensures
        sizes_total(s.update(k, j)) == sizes_total(s) + spec_size(j) - spec_size(s[k]),
    decreases s.len(),
{
    if k == s.len() - 1 {
        assert(s.update(k, j).drop_last() =~= s.drop_last());
        assert(s.update(k, j).last() == j);
    } else {
        assert(s.update(k, j).drop_last() =~= s.drop_last().update(k, j));
        assert(s.update(k, j).last() == s.last());
        lemma_sizes_total_update(s.drop_last(), k, j);
    }
}

/// Appending an instruction appends its encoding to the compiled bytes.
pub proof fn lemma_compile_push(s: Seq<InstrView>, i: InstrView)
    ensures
        spec_compile(s.push(i)) == spec_compile(s) + spec_encode(i),
{
    assert(s.push(i).drop_last() =~= s);
    assert(s.push(i).last() == i);
}

/// The encoding of an instruction is exactly as long as its reported size.
pub proof fn lemma_encode_len(i: InstrView)
    ensures
        spec_encode(i).len() == spec_size(i),
{
}

/// A program's compiled bytes are as long as its total size.
pub proof fn lemma_compile_len(s: Seq<InstrView>)
    ensures
        spec_compile(s).len() == sizes_total(s),
    decreases s.len(),
{
    if s.len() > 0 {
        lemma_compile_len(s.drop_last());
        lemma_encode_len(s.last());
    }
}

/// Compiled bytes start with the first instruction's encoding.
pub proof fn lemma_compile_front(s: Seq<InstrView>)
    requires
        s.len() > 0,
    ensures
        spec_compile(s) == spec_encode(s[0]) + spec_compile(s.skip(1)),
    decreases s.len(),
{
    if s.len() == 1 {
        assert(s.drop_last() =~= Seq::<InstrView>::empty());
        assert(s.skip(1) =~= Seq::<InstrView>::empty());
        assert(s.last() == s[0]);
        assert(spec_compile(s) =~= spec_encode(s[0]) + spec_compile(s.skip(1)));
    } else {
        lemma_compile_front(s.drop_last());
        assert(s.drop_last()[0] == s[0]);
        assert(s.drop_last().skip(1) =~= s.skip(1).drop_last());
        assert(s.skip(1).last() == s.last());
        assert((spec_encode(s[0]) + spec_compile(s.skip(1).drop_last())) + spec_encode(s.last())
            =~= spec_encode(s[0]) + spec_compile(s.skip(1)));
    }
}

/// Compiled bytes decompose at any instruction boundary.
pub proof fn lemma_compile_split(s: Seq<InstrView>, k: int)
    requires
        0 <= k <= s.len(),
    ensures
        spec_compile(s) == spec_compile(s.take(k)) + spec_compile(s.skip(k)),
    decreases s.len() - k,
{
    if k == s.len() {
        assert(s.take(k) =~= s);
        assert(s.skip(k) =~= Seq::<InstrView>::empty());
        assert(spec_compile(s) =~= spec_compile(s.take(k)) + spec_compile(s.skip(k)));
    } else {
        lemma_compile_split(s, k + 1);
        assert(s.take(k + 1).drop_last() =~= s.take(k));
        assert(s.take(k + 1).last() == s[k]);
        lemma_compile_front(s.skip(k));
        assert(s.skip(k)[0] == s[k]);
        assert(s.skip(k).skip(1) =~= s.skip(k + 1));
        assert((spec_compile(s.take(k)) + spec_encode(s[k])) + spec_compile(s.skip(k + 1)) =~=
            spec_compile(s.take(k)) + (spec_encode(s[k]) + spec_compile(s.skip(k + 1))));
    }
}

/// Address determinism, seen in the compiled bytes: the address reported
/// for instruction `k` -- the sum of the encoded sizes of all preceding
/// instructions -- is exactly where that instruction's encoding stands in
/// the compiled program.
pub proof fn lemma_address_in_compiled_bytes(s: Seq<InstrView>, k: int)
    requires
        0 <= k < s.len(),
    ensures
        spec_compile(s).len() == sizes_total(s),
        0 <= spec_address(s, k),
        spec_address(s, k) + spec_size(s[k]) <= sizes_total(s),
        spec_compile(s).subrange(spec_address(s, k), spec_address(s, k) + spec_size(s[k]))
            == spec_encode(s[k]),
{
    lemma_compile_len(s);
    lemma_compile_len(s.take(k));
    lemma_sizes_total_nonneg(s.take(k));
    lemma_address_succ(s, k);
    lemma_sizes_total_prefix_le(s, k + 1);
    lemma_compile_split(s, k);
    lemma_compile_front(s.skip(k));
    lemma_encode_len(s[k]);
    assert(s.skip(k)[0] == s[k]);
    assert(spec_compile(s).subrange(spec_address(s, k), spec_address(s, k) + spec_size(s[k])) =~=
        spec_encode(s[k]));
}

/// A full program: an ordered instruction list used to create programs; the
/// machine runs the compiled bytes.
#[derive(Debug, Clone)]
pub struct Program {
    instructions: Vec<Instruction>,
}

impl View for Program {
    type V = Seq<InstrView>;

    closed spec fn view(&self) -> Seq<InstrView> {
        self.instructions@.map_values(|i: Instruction| i@)
    }
}

impl Default for Program {
    /// An empty program.
    fn default() -> (r: Program)
        ensures
            r@ == Seq::<InstrView>::empty(),
            r.wf(),
    {
        Program::new()
    }
}

impl Program {
    /// Well-formed: every instruction is well-formed and the whole program
    /// fits in the address space.
    pub open spec fn wf(self) -> bool {
        &&& forall|k: int| 0 <= k < self@.len() ==> (#[trigger] self@[k]).wf()
        &&& sizes_total(self@) <= u32::MAX
    }

    /// Create a new empty program.
    pub fn new() -> (r: Program)
        ensures
            r@ == Seq::<InstrView>::empty(),
            r.wf(),
    {
        let r = Program { instructions: Vec::new() };
        proof {
            assert(r@ =~= Seq::<InstrView>::empty());
        }
        r
    }

    /// Add an instruction to the program. Return the index of this
    /// instruction, to be used by jumps or calls.
    pub fn add_instruction(&mut self, instruction: Instruction) -> (r: usize)
        requires
            old(self).wf(),
            instruction@.wf(),
            sizes_total(old(self)@) + spec_size(instruction@) <= u32::MAX,
        ensures
            final(self).wf(),
            final(self)@ == old(self)@.push(instruction@),
            r == old(self)@.len(),
    {
        proof {
            lemma_sizes_total_push(old(self)@, instruction@);
            assert(old(self).instructions@.push(instruction).map_values(|i: Instruction| i@)
                =~= old(self)@.push(instruction@));
        }
        self.instructions.push(instruction);
        self.instructions.len() - 1
    }

    /// Add a NOP instruction. Return the instruction's index.
    pub fn add_nop(&mut self) -> (r: usize)
        requires
            old(self).wf(),
            sizes_total(old(self)@) + 1 <= u32::MAX,
        ensures
            final(self).wf(),
            final(self)@ == old(self)@.push(InstrView::Nop),
            r == old(self)@.len(),
    {
        self.add_instruction(Instruction::Nop)
    }

    /// Add a halt instruction. Return the instruction's index.
    pub fn add_halt(&mut self) -> (r: usize)
        requires
            old(self).wf(),
            sizes_total(old(self)@) + 1 <= u32::MAX,
        ensures
            final(self).wf(),
            final(self)@ == old(self)@.push(InstrView::Halt),
            r == old(self)@.len(),
    {
        self.add_instruction(Instruction::Halt)
    }

    /// Add a syscall instruction. Return the instruction's index.
    pub fn add_syscall(&mut self, index: u8) -> (r: usize)
        requires
            old(self).wf(),
            sizes_total(old(self)@) + 2 <= u32::MAX,
        ensures
            final(self).wf(),
            final(self)@ == old(self)@.push(InstrView::Syscall(index)),
            r == old(self)@.len(),
    {
        self.add_instruction(Instruction::Syscall(index))
    }

    /// Add a data segment. Return the instruction's index, to be used by
    /// [`Program::add_copy_data`].
    pub fn add_data(&mut self, data: Vec<u8>) -> (r: usize)
        requires
            old(self).wf(),
            sizes_total(old(self)@) + 5 + data@.len() <= u32::MAX,
        ensures
            final(self).wf(),
            final(self)@ == old(self)@.push(InstrView::Data(data@.len() as u32, data@)),
            r == old(self)@.len(),
    {
        proof {
            lemma_sizes_total_nonneg(old(self)@);
        }
        let len = vm_ptr(data.len());
        self.add_instruction(Instruction::Data(len, data))
    }

    /// Resolve an instruction index to its code memory address and its
    /// instruction. The address is the sum of the encoded sizes of all
    /// preceding instructions.
    pub fn resolve(&self, index: usize) -> (r: Option<(VmPtr, &Instruction)>)
        requires
            self.wf(),
        ensures
            index < self@.len() ==> (r matches Some(p) && p.0 == spec_address(self@, index as int)
                && p.1@ == self@[index as int]),
            index >= self@.len() ==> r is None,
    {
        if index >= self.instructions.len() {
            return None;
        }
        let ghost v = self@;
        let mut addr: u32 = 0;
        let mut k: usize = 0;
        while k < index
            invariant
                self.wf(),
                v == self@,
                index < self@.len(),
                k <= index,
                addr == spec_address(v, k as int),
            decreases index - k,
        {
            proof {
                lemma_address_succ(v, k as int);
                lemma_sizes_total_prefix_le(v, k as int + 1);
            }
            let size = self.instructions[k].size();
            addr = addr + vm_ptr(size);
            k = k + 1;
        }
        Some((addr, &self.instructions[index]))
    }

    /// Compile the program to continuous bytes: a pure, deterministic
    /// flattening of the instruction encodings.
    pub fn compile(&self) -> (r: Vec<u8>)
        requires
            self.wf(),
        ensures
            r@ == spec_compile(self@),
    {
        let ghost v = self@;
        let mut bytes: Vec<u8> = Vec::new();
        let mut k: usize = 0;
        proof {
            assert(v.take(0) =~= Seq::<InstrView>::empty());
        }
        while k < self.instructions.len()
            invariant
                self.wf(),
                v == self@,
                k <= self@.len(),
                bytes@ == spec_compile(v.take(k as int)),
            decreases self@.len() - k,
        {
            let mut ib = self.instructions[k].bytes();
            proof {
                lemma_compile_push(v.take(k as int), v[k as int]);
                assert(v.take(k as int).push(v[k as int]) =~= v.take(k as int + 1));
            }
            bytes.append(&mut ib);
            k = k + 1;
        }
        proof {
            assert(v.take(v.len() as int) =~= v);
        }
        bytes
    }

    /// Resolve an index to its byte address alone.
    fn resolve_address(&self, index: usize) -> (r: Result<VmPtr, BuildError>)
        requires
            self.wf(),
        ensures
            index < self@.len() ==> (r matches Ok(a) && a == spec_address(self@, index as int)),
            index >= self@.len() ==> r == Err::<VmPtr, BuildError>(
                BuildError::InvalidInstructionIndex,
            ),
    {
        match self.resolve(index) {
            Some((addr, _)) => Ok(addr),
            None => Err(BuildError::InvalidInstructionIndex),
        }
    }

    /// Add an instruction that jumps to the indexed instruction.
    /// Return the new instruction's index.
    pub fn add_jump(&mut self, index: usize) -> (r: Result<usize, BuildError>)
        requires
            old(self).wf(),
            sizes_total(old(self)@) + 5 <= u32::MAX,
        ensures
            final(self).wf(),
            index < old(self)@.len() ==> (r matches Ok(k) && k == old(self)@.len() && final(self)@ == old(self)@.push(
                InstrView::Jump(spec_address(old(self)@, index as int) as VmPtr),
            )),
            index >= old(self)@.len() ==> r == Err::<usize, BuildError>(
                BuildError::InvalidInstructionIndex,
            ) && final(self)@ == old(self)@,
    {
        let addr = match self.resolve_address(index) {
            Ok(a) => a,
            Err(e) => {
                return Err(e);
            },
        };
        Ok(self.add_instruction(Instruction::Jump(addr)))
    }

    /// Add a placeholder Jump instruction whose sentinel target is to be
    /// patched later. Return the new instruction's index.
    pub fn add_dummy_jump(&mut self) -> (r: usize)
        requires
            old(self).wf(),
            sizes_total(old(self)@) + 5 <= u32::MAX,
        ensures
            final(self).wf(),
            final(self)@ == old(self)@.push(InstrView::Jump(DUMMY_ADDRESS)),
            r == old(self)@.len(),
    {
        self.add_instruction(Instruction::Jump(DUMMY_ADDRESS))
    }

    /// Add an instruction that calls the indexed instruction.
    /// Return the new instruction's index.
    pub fn add_call(&mut self, index: usize) -> (r: Result<usize, BuildError>)
        requires
            old(self).wf(),
            sizes_total(old(self)@) + 5 <= u32::MAX,
        ensures
            final(self).wf(),
            index < old(self)@.len() ==> (r matches Ok(k) && k == old(self)@.len() && final(self)@ == old(self)@.push(
                InstrView::Call(spec_address(old(self)@, index as int) as VmPtr),
            )),
            index >= old(self)@.len() ==> r == Err::<usize, BuildError>(
                BuildError::InvalidInstructionIndex,
            ) && final(self)@ == old(self)@,
    {
        let addr = match self.resolve_address(index) {
            Ok(a) => a,
            Err(e) => {
                return Err(e);
            },
        };
        Ok(self.add_instruction(Instruction::Call(addr)))
    }

    /// Add a placeholder Call instruction whose sentinel target is to be
    /// patched later. Return the new instruction's index.
    pub fn add_dummy_call(&mut self) -> (r: usize)
        requires
            old(self).wf(),
            sizes_total(old(self)@) + 5 <= u32::MAX,
        ensures
            final(self).wf(),
            final(self)@ == old(self)@.push(InstrView::Call(DUMMY_ADDRESS)),
            r == old(self)@.len(),
    {
        self.add_instruction(Instruction::Call(DUMMY_ADDRESS))
    }

    /// Add an instruction that jumps, if the last comparison was equal, to the indexed instruction.
    /// Return the new instruction's index.
    pub fn add_jump_equal(&mut self, index: usize) -> (r: Result<usize, BuildError>)
        requires
            old(self).wf(),
            sizes_total(old(self)@) + 5 <= u32::MAX,
        ensures
            final(self).wf(),
            index < old(self)@.len() ==> (r matches Ok(k) && k == old(self)@.len() && final(self)@ == old(self)@.push(
                InstrView::JumpEqual(spec_address(old(self)@, index as int) as VmPtr),
            )),
            index >= old(self)@.len() ==> r == Err::<usize, BuildError>(
                BuildError::InvalidInstructionIndex,
            ) && final(self)@ == old(self)@,
    {
        let addr = match self.resolve_address(index) {
            Ok(a) => a,
            Err(e) => {
                return Err(e);
            },
        };
        Ok(self.add_instruction(Instruction::JumpEqual(addr)))
    }

    /// Add a placeholder JumpEqual instruction whose sentinel target is to be
    /// patched later. Return the new instruction's index.
    pub fn add_dummy_jump_equal(&mut self) -> (r: usize)
        requires
            old(self).wf(),
            sizes_total(old(self)@) + 5 <= u32::MAX,
        ensures
            final(self).wf(),
            final(self)@ == old(self)@.push(InstrView::JumpEqual(DUMMY_ADDRESS)),
            r == old(self)@.len(),
    {
        self.add_instruction(Instruction::JumpEqual(DUMMY_ADDRESS))
    }

    /// Add an instruction that jumps, if the last comparison was not equal, to the indexed instruction.
    /// Return the new instruction's index.
    pub fn add_jump_not_equal(&mut self, index: usize) -> (r: Result<usize, BuildError>)
        requires
            old(self).wf(),
            sizes_total(old(self)@) + 5 <= u32::MAX,
        ensures
            final(self).wf(),
            index < old(self)@.len() ==> (r matches Ok(k) && k == old(self)@.len() && final(self)@ == old(self)@.push(
                InstrView::JumpNotEqual(spec_address(old(self)@, index as int) as VmPtr),
            )),
            index >= old(self)@.len() ==> r == Err::<usize, BuildError>(
                BuildError::InvalidInstructionIndex,
            ) && final(self)@ == old(self)@,
    {
        let addr = match self.resolve_address(index) {
            Ok(a) => a,
            Err(e) => {
                return Err(e);
            },
        };
        Ok(self.add_instruction(Instruction::JumpNotEqual(addr)))
    }

    /// Add a placeholder JumpNotEqual instruction whose sentinel target is to be
    /// patched later. Return the new instruction's index.
    pub fn add_dummy_jump_not_equal(&mut self) -> (r: usize)
        requires
            old(self).wf(),
            sizes_total(old(self)@) + 5 <= u32::MAX,
        ensures
            final(self).wf(),
            final(self)@ == old(self)@.push(InstrView::JumpNotEqual(DUMMY_ADDRESS)),
            r == old(self)@.len(),
    {
        self.add_instruction(Instruction::JumpNotEqual(DUMMY_ADDRESS))
    }

    /// Add an instruction that jumps, if the last comparison was greater, to the indexed instruction.
    /// Return the new instruction's index.
    pub fn add_jump_greater(&mut self, index: usize) -> (r: Result<usize, BuildError>)
        requires
            old(self).wf(),
            sizes_total(old(self)@) + 5 <= u32::MAX,
        ensures
            final(self).wf(),
            index < old(self)@.len() ==> (r matches Ok(k) && k == old(self)@.len() && final(self)@ == old(self)@.push(
                InstrView::JumpGreater(spec_address(old(self)@, index as int) as VmPtr),
            )),
            index >= old(self)@.len() ==> r == Err::<usize, BuildError>(
                BuildError::InvalidInstructionIndex,
            ) && final(self)@ == old(self)@,
    {
        let addr = match self.resolve_address(index) {
            Ok(a) => a,
            Err(e) => {
                return Err(e);
            },
        };
        Ok(self.add_instruction(Instruction::JumpGreater(addr)))
    }

    /// Add a placeholder JumpGreater instruction whose sentinel target is to be
    /// patched later. Return the new instruction's index.
    pub fn add_dummy_jump_greater(&mut self) -> (r: usize)
        requires
            old(self).wf(),
            sizes_total(old(self)@) + 5 <= u32::MAX,
        ensures
            final(self).wf(),
            final(self)@ == old(self)@.push(InstrView::JumpGreater(DUMMY_ADDRESS)),
            r == old(self)@.len(),
    {
        self.add_instruction(Instruction::JumpGreater(DUMMY_ADDRESS))
    }

    /// Add an instruction that jumps, if the last comparison was less, to the indexed instruction.
    /// Return the new instruction's index.
    pub fn add_jump_less(&mut self, index: usize) -> (r: Result<usize, BuildError>)
        requires
            old(self).wf(),
            sizes_total(old(self)@) + 5 <= u32::MAX,
        ensures
            final(self).wf(),
            index < old(self)@.len() ==> (r matches Ok(k) && k == old(self)@.len() && final(self)@ == old(self)@.push(
                InstrView::JumpLess(spec_address(old(self)@, index as int) as VmPtr),
            )),
            index >= old(self)@.len() ==> r == Err::<usize, BuildError>(
                BuildError::InvalidInstructionIndex,
            ) && final(self)@ == old(self)@,
    {
        let addr = match self.resolve_address(index) {
            Ok(a) => a,
            Err(e) => {
                return Err(e);
            },
        };
        Ok(self.add_instruction(Instruction::JumpLess(addr)))
    }

    /// Add a placeholder JumpLess instruction whose sentinel target is to be
    /// patched later. Return the new instruction's index.
    pub fn add_dummy_jump_less(&mut self) -> (r: usize)
        requires
            old(self).wf(),
            sizes_total(old(self)@) + 5 <= u32::MAX,
        ensures
            final(self).wf(),
            final(self)@ == old(self)@.push(InstrView::JumpLess(DUMMY_ADDRESS)),
            r == old(self)@.len(),
    {
        self.add_instruction(Instruction::JumpLess(DUMMY_ADDRESS))
    }

    /// Add an instruction that jumps, if the last comparison was greater or equal, to the indexed instruction.
    /// Return the new instruction's index.
    pub fn add_jump_greater_equal(&mut self, index: usize) -> (r: Result<usize, BuildError>)
        requires
            old(self).wf(),
            sizes_total(old(self)@) + 5 <= u32::MAX,
        ensures
            final(self).wf(),
            index < old(self)@.len() ==> (r matches Ok(k) && k == old(self)@.len() && final(self)@ == old(self)@.push(
                InstrView::JumpGreaterEqual(spec_address(old(self)@, index as int) as VmPtr),
            )),
            index >= old(self)@.len() ==> r == Err::<usize, BuildError>(
                BuildError::InvalidInstructionIndex,
            ) && final(self)@ == old(self)@,
    {
        let addr = match self.resolve_address(index) {
            Ok(a) => a,
            Err(e) => {
                return Err(e);
            },
        };
        Ok(self.add_instruction(Instruction::JumpGreaterEqual(addr)))
    }

    /// Add a placeholder JumpGreaterEqual instruction whose sentinel target is to be
    /// patched later. Return the new instruction's index.
    pub fn add_dummy_jump_greater_equal(&mut self) -> (r: usize)
        requires
            old(self).wf(),
            sizes_total(old(self)@) + 5 <= u32::MAX,
        ensures
            final(self).wf(),
            final(self)@ == old(self)@.push(InstrView::JumpGreaterEqual(DUMMY_ADDRESS)),
            r == old(self)@.len(),
    {
        self.add_instruction(Instruction::JumpGreaterEqual(DUMMY_ADDRESS))
    }

    /// Add an instruction that jumps, if the last comparison was less or equal, to the indexed instruction.
    /// Return the new instruction's index.
    pub fn add_jump_less_equal(&mut self, index: usize) -> (r: Result<usize, BuildError>)
        requires
            old(self).wf(),
            sizes_total(old(self)@) + 5 <= u32::MAX,
        ensures
            final(self).wf(),
            index < old(self)@.len() ==> (r matches Ok(k) && k == old(self)@.len() && final(self)@ == old(self)@.push(
                InstrView::JumpLessEqual(spec_address(old(self)@, index as int) as VmPtr),
            )),
            index >= old(self)@.len() ==> r == Err::<usize, BuildError>(
                BuildError::InvalidInstructionIndex,
            ) && final(self)@ == old(self)@,
    {
        let addr = match self.resolve_address(index) {
            Ok(a) => a,
            Err(e) => {
                return Err(e);
            },
        };
        Ok(self.add_instruction(Instruction::JumpLessEqual(addr)))
    }

    /// Add a placeholder JumpLessEqual instruction whose sentinel target is to be
    /// patched later. Return the new instruction's index.
    pub fn add_dummy_jump_less_equal(&mut self) -> (r: usize)
        requires
            old(self).wf(),
            sizes_total(old(self)@) + 5 <= u32::MAX,
        ensures
            final(self).wf(),
            final(self)@ == old(self)@.push(InstrView::JumpLessEqual(DUMMY_ADDRESS)),
            r == old(self)@.len(),
    {
        self.add_instruction(Instruction::JumpLessEqual(DUMMY_ADDRESS))
    }

    /// Add an instruction that jumps, if the last increment or decrement resulted in zero, to the indexed instruction.
    /// Return the new instruction's index.
    pub fn add_jump_zero(&mut self, index: usize) -> (r: Result<usize, BuildError>)
        requires
            old(self).wf(),
            sizes_total(old(self)@) + 5 <= u32::MAX,
        ensures
            final(self).wf(),
            index < old(self)@.len() ==> (r matches Ok(k) && k == old(self)@.len() && final(self)@ == old(self)@.push(
                InstrView::JumpZero(spec_address(old(self)@, index as int) as VmPtr),
            )),
            index >= old(self)@.len() ==> r == Err::<usize, BuildError>(
                BuildError::InvalidInstructionIndex,
            ) && final(self)@ == old(self)@,
    {
        let addr = match self.resolve_address(index) {
            Ok(a) => a,
            Err(e) => {
                return Err(e);
            },
        };
        Ok(self.add_instruction(Instruction::JumpZero(addr)))
    }

    /// Add a placeholder JumpZero instruction whose sentinel target is to be
    /// patched later. Return the new instruction's index.
    pub fn add_dummy_jump_zero(&mut self) -> (r: usize)
        requires
            old(self).wf(),
            sizes_total(old(self)@) + 5 <= u32::MAX,
        ensures
            final(self).wf(),
            final(self)@ == old(self)@.push(InstrView::JumpZero(DUMMY_ADDRESS)),
            r == old(self)@.len(),
    {
        self.add_instruction(Instruction::JumpZero(DUMMY_ADDRESS))
    }

    /// Add an instruction that jumps, if the last increment or decrement resulted in nonzero, to the indexed instruction.
    /// Return the new instruction's index.
    pub fn add_jump_nonzero(&mut self, index: usize) -> (r: Result<usize, BuildError>)
        requires
            old(self).wf(),
            sizes_total(old(self)@) + 5 <= u32::MAX,
        ensures
            final(self).wf(),
            index < old(self)@.len() ==> (r matches Ok(k) && k == old(self)@.len() && final(self)@ == old(self)@.push(
                InstrView::JumpNonzero(spec_address(old(self)@, index as int) as VmPtr),
            )),
            index >= old(self)@.len() ==> r == Err::<usize, BuildError>(
                BuildError::InvalidInstructionIndex,
            ) && final(self)@ == old(self)@,
    {
        let addr = match self.resolve_address(index) {
            Ok(a) => a,
            Err(e) => {
                return Err(e);
            },
        };
        Ok(self.add_instruction(Instruction::JumpNonzero(addr)))
    }

    /// Add a placeholder JumpNonzero instruction whose sentinel target is to be
    /// patched later. Return the new instruction's index.
    pub fn add_dummy_jump_nonzero(&mut self) -> (r: usize)
        requires
            old(self).wf(),
            sizes_total(old(self)@) + 5 <= u32::MAX,
        ensures
            final(self).wf(),
            final(self)@ == old(self)@.push(InstrView::JumpNonzero(DUMMY_ADDRESS)),
            r == old(self)@.len(),
    {
        self.add_instruction(Instruction::JumpNonzero(DUMMY_ADDRESS))
    }

    /// Add an instruction that returns from a call. Return the new
    /// instruction's index.
    pub fn add_return(&mut self) -> (r: usize)
        requires
            old(self).wf(),
            sizes_total(old(self)@) + 1 <= u32::MAX,
        ensures
            final(self).wf(),
            final(self)@ == old(self)@.push(InstrView::Return),
            r == old(self)@.len(),
    {
        self.add_instruction(Instruction::Return)
    }

    /// Add an instruction that copies the indexed data segment to the
    /// address held in the main register. Return the new instruction's
    /// index.
    pub fn add_copy_data(&mut self, for_data_index: usize) -> (r: Result<usize, BuildError>)
        requires
            old(self).wf(),
            sizes_total(old(self)@) + 9 <= u32::MAX,
        ensures
            final(self).wf(),
            for_data_index >= old(self)@.len() ==> r == Err::<usize, BuildError>(
                BuildError::InvalidDataIndex,
            ) && final(self)@ == old(self)@,
            for_data_index < old(self)@.len() && !(old(self)@[for_data_index as int]
                matches InstrView::Data(_, _)) ==> r == Err::<usize, BuildError>(
                BuildError::NotData,
            ) && final(self)@ == old(self)@,
            for_data_index < old(self)@.len() ==> (old(self)@[for_data_index as int]
                matches InstrView::Data(dlen, _) ==> (r matches Ok(k) && k == old(self)@.len()
                && final(self)@ == old(self)@.push(
                InstrView::CopyCodeMemory(
                    (spec_address(old(self)@, for_data_index as int) + 1 + WORD_SIZE) as VmPtr,
                    dlen,
                ),
            ))),
    {
        let (addr, dlen) = match self.resolve(for_data_index) {
            None => {
                return Err(BuildError::InvalidDataIndex);
            },
            Some((addr, instruction)) => match instruction {
                Instruction::Data(size, _) => (addr, *size),
                _ => {
                    return Err(BuildError::NotData);
                },
            },
        };
        proof {
            lemma_address_succ(old(self)@, for_data_index as int);
            lemma_sizes_total_prefix_le(old(self)@, for_data_index as int + 1);
        }
        let source = addr + 1 + vm_ptr(WORD_SIZE);
        Ok(self.add_instruction(Instruction::CopyCodeMemory(source, dlen)))
    }

    /// Add a placeholder copy instruction whose sentinel source is to be
    /// patched later. Return the new instruction's index.
    pub fn add_dummy_copy_data(&mut self) -> (r: usize)
        requires
            old(self).wf(),
            sizes_total(old(self)@) + 9 <= u32::MAX,
        ensures
            final(self).wf(),
            final(self)@ == old(self)@.push(InstrView::CopyCodeMemory(DUMMY_ADDRESS, 0)),
            r == old(self)@.len(),
    {
        self.add_instruction(Instruction::CopyCodeMemory(DUMMY_ADDRESS, 0))
    }

    /// Replace a placeholder copy instruction with one that copies the
    /// indexed data segment.
    pub fn replace_dummy_copy_data(&mut self, index: usize, data_index: usize) -> (r: Result<
        (),
        BuildError,
    >)
        requires
            old(self).wf(),
        ensures
            final(self).wf(),
            data_index >= old(self)@.len() ==> r == Err::<(), BuildError>(
                BuildError::InvalidDataIndex,
            ) && final(self)@ == old(self)@,
            data_index < old(self)@.len() && !(old(self)@[data_index as int]
                matches InstrView::Data(_, _)) ==> r == Err::<(), BuildError>(
                BuildError::NotData,
            ) && final(self)@ == old(self)@,
            data_index < old(self)@.len() && (old(self)@[data_index as int]
                matches InstrView::Data(_, _)) && index >= old(self)@.len() ==> r == Err::<
                (),
                BuildError,
            >(BuildError::InvalidInstructionIndex) && final(self)@ == old(self)@,
            data_index < old(self)@.len() && (old(self)@[data_index as int]
                matches InstrView::Data(_, _)) && index < old(self)@.len() && !(old(self)@[index as int] matches InstrView::CopyCodeMemory(_, _)) ==> r == Err::<
                (),
                BuildError,
            >(BuildError::NotDummyCopyData) && final(self)@ == old(self)@,
            data_index < old(self)@.len() && index < old(self)@.len() && (old(self)@[index as int]
                matches InstrView::CopyCodeMemory(_, _)) ==> (old(self)@[data_index as int]
                matches InstrView::Data(dlen, _) ==> (r == Ok::<(), BuildError>(()) && final(self)@ == old(self)@.update(
                index as int,
                InstrView::CopyCodeMemory(
                    (spec_address(old(self)@, data_index as int) + 1 + WORD_SIZE) as VmPtr,
                    dlen,
                ),
            ))),
    {
        let (addr, dlen) = match self.resolve(data_index) {
            None => {
                return Err(BuildError::InvalidDataIndex);
            },
            Some((addr, instruction)) => match instruction {
                Instruction::Data(size, _) => (addr, *size),
                _ => {
                    return Err(BuildError::NotData);
                },
            },
        };
        proof {
            lemma_address_succ(old(self)@, data_index as int);
            lemma_sizes_total_prefix_le(old(self)@, data_index as int + 1);
        }
        let source = addr + 1 + vm_ptr(WORD_SIZE);
        if index >= self.instructions.len() {
            return Err(BuildError::InvalidInstructionIndex);
        }
        match &self.instructions[index] {
            Instruction::CopyCodeMemory(_, _) => {},
            _ => {
                return Err(BuildError::NotDummyCopyData);
            },
        }
        let replacement = Instruction::CopyCodeMemory(source, dlen);
        proof {
            lemma_sizes_total_update(old(self)@, index as int, replacement@);
            assert(old(self).instructions@.update(index as int, replacement).map_values(
                |i: Instruction| i@,
            ) =~= old(self)@.update(index as int, replacement@));
        }
        self.instructions.set(index, replacement);
        Ok(())
    }

    /// Replace a placeholder jump or call with one aimed at the indexed
    /// instruction. Patching an instruction that is not a placeholder jump
    /// or call is an error.
    pub fn replace_dummy_address(&mut self, index: usize, jump_index: usize) -> (r: Result<
        (),
        BuildError,
    >)
        requires
            old(self).wf(),
        ensures
            final(self).wf(),
            jump_index >= old(self)@.len() ==> r == Err::<(), BuildError>(
                BuildError::InvalidJumpIndex,
            ) && final(self)@ == old(self)@,
            jump_index < old(self)@.len() && index >= old(self)@.len() ==> r == Err::<
                (),
                BuildError,
            >(BuildError::InvalidInstructionIndex) && final(self)@ == old(self)@,
            jump_index < old(self)@.len() && index < old(self)@.len() && !is_dummy_jump(
                old(self)@[index as int],
            ) ==> r == Err::<(), BuildError>(BuildError::NotDummyJump) && final(self)@ == old(self)@,
            jump_index < old(self)@.len() && index < old(self)@.len() && is_dummy_jump(
                old(self)@[index as int],
            ) ==> r == Ok::<(), BuildError>(()) && final(self)@ == old(self)@.update(
                index as int,
                with_target(
                    old(self)@[index as int],
                    spec_address(old(self)@, jump_index as int) as VmPtr,
                ),
            ),
    {
        let addr = match self.resolve_address(jump_index) {
            Ok(a) => a,
            Err(_) => {
                return Err(BuildError::InvalidJumpIndex);
            },
        };
        if index >= self.instructions.len() {
            return Err(BuildError::InvalidInstructionIndex);
        }
        let replacement = match &self.instructions[index] {
            Instruction::Jump(t) => {
                if *t != DUMMY_ADDRESS {
                    return Err(BuildError::NotDummyJump);
                }
                Instruction::Jump(addr)
            },
            Instruction::Call(t) => {
                if *t != DUMMY_ADDRESS {
                    return Err(BuildError::NotDummyJump);
                }
                Instruction::Call(addr)
            },
            Instruction::JumpEqual(t) => {
                if *t != DUMMY_ADDRESS {
                    return Err(BuildError::NotDummyJump);
                }
                Instruction::JumpEqual(addr)
            },
            Instruction::JumpNotEqual(t) => {
                if *t != DUMMY_ADDRESS {
                    return Err(BuildError::NotDummyJump);
                }
                Instruction::JumpNotEqual(addr)
            },
            Instruction::JumpGreater(t) => {
                if *t != DUMMY_ADDRESS {
                    return Err(BuildError::NotDummyJump);
                }
                Instruction::JumpGreater(addr)
            },
            Instruction::JumpLess(t) => {
                if *t != DUMMY_ADDRESS {
                    return Err(BuildError::NotDummyJump);
                }
                Instruction::JumpLess(addr)
            },
            Instruction::JumpGreaterEqual(t) => {
                if *t != DUMMY_ADDRESS {
                    return Err(BuildError::NotDummyJump);
                }
                Instruction::JumpGreaterEqual(addr)
            },
            Instruction::JumpLessEqual(t) => {
                if *t != DUMMY_ADDRESS {
                    return Err(BuildError::NotDummyJump);
                }
                Instruction::JumpLessEqual(addr)
            },
            Instruction::JumpZero(t) => {
                if *t != DUMMY_ADDRESS {
                    return Err(BuildError::NotDummyJump);
                }
                Instruction::JumpZero(addr)
            },
            Instruction::JumpNonzero(t) => {
                if *t != DUMMY_ADDRESS {
                    return Err(BuildError::NotDummyJump);
                }
                Instruction::JumpNonzero(addr)
            },
            _ => {
                return Err(BuildError::NotDummyJump);
            },
        };
        proof {
            lemma_sizes_total_update(old(self)@, index as int, replacement@);
            assert(old(self).instructions@.update(index as int, replacement).map_values(
                |i: Instruction| i@,
            ) =~= old(self)@.update(index as int, replacement@));
        }
        self.instructions.set(index, replacement);
        Ok(())
    }
}

/// Placeholder discipline: a successful patch aims a placeholder at the
/// resolved address; the result is no longer a placeholder unless the
/// address happens to be the sentinel itself, so a second patch of the same
/// instruction fails instead of silently diverging.
pub proof fn lemma_patch_discipline(i: InstrView, a: VmPtr)
    requires
        is_dummy_jump(i),
        a != DUMMY_ADDRESS,
    ensures
        is_jump_or_call(with_target(i, a)),
        jump_target(with_target(i, a)) == a,
        !is_dummy_jump(with_target(i, a)),
{
}

} // verus!
