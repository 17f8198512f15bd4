//! The virtual machine: its state, the semantics of each instruction over
//! that state, and the fetch-execute loop.

use vstd::prelude::*;
use crate::instructions::{
    IntSize,
    Instruction,
    IntegerBinaryOperation,
    IntegerUnaryOperation,
    width,
    modulus,
    constant_size,
    constant_value,
};
use crate::arith::{binary_result, unary_result, is_division, binary_operation, unary_operation};
use crate::cells::{
    pow256,
    decode,
    write_cell,
    lemma_pow256_positive,
    lemma_pow256_values,
    lemma_decode_bound,
    lemma_write_frame,
};
use vstd::arithmetic::div_mod::lemma_div_denominator;

verus! {

/// Capacity of the stack in bytes.
pub const STACK_SIZE: usize = 1_048_576;

/// Size in bytes of the frame header that `Call` pushes: the return index and
/// the previous base pointer, eight bytes each.
pub const FRAME_HEADER_SIZE: usize = 16;

/// The fatal conditions that stop the machine.
#[derive(Clone, Copy, Debug, PartialEq, Eq, Structural)]
pub enum VmError {
    /// A push or base-relative access would reach past the top of the stack.
    StackOverflow,
    /// A pop or base-relative access would reach below the bottom of the stack.
    StackUnderflow,
    /// An access of width `w` at an address that is not a multiple of `w`.
    Misaligned,
    /// The instruction index was outside the program at fetch.
    InstructionOutOfRange,
    /// Integer division by zero.
    DivisionByZero,
    /// The machine was still running after `u64::MAX` instructions.
    StepBudgetExhausted,
}

/// The abstract state of a machine. Addresses are byte offsets from the
/// bottom of the stack, which is aligned for every cell width.
pub struct VmState {
    pub instructions: Seq<Instruction>,
    pub ip: int,
    pub stack: Seq<u8>,
    pub sp: int,
    pub bp: int,
    pub running: bool,
}

/// The invariant of every state: a full-size stack, the top pointer within
/// it, and index and base values that fit a machine word.
pub open spec fn state_ok(s: VmState) -> bool {
    &&& s.stack.len() == STACK_SIZE
    &&& s.instructions.len() <= u64::MAX
    &&& 0 <= s.sp <= STACK_SIZE
    &&& 0 <= s.bp <= u64::MAX
    &&& 0 <= s.ip <= u64::MAX
}

/// Pushes the `size` cell `v` on top of the stack.
pub open spec fn spec_push(s: VmState, size: IntSize, v: nat) -> Result<VmState, VmError> {
    let w = width(size) as int;
    if s.sp + w > STACK_SIZE {
        Err(VmError::StackOverflow)
    } else if s.sp % w != 0 {
        Err(VmError::Misaligned)
    } else {
        Ok(VmState { stack: write_cell(s.stack, s.sp, w as nat, v), sp: s.sp + w, ..s })
    }
}

/// Pops the `size` cell on top of the stack, giving the new state and the cell.
pub open spec fn spec_pop(s: VmState, size: IntSize) -> Result<(VmState, nat), VmError> {
    let w = width(size) as int;
    if s.sp - w < 0 {
        Err(VmError::StackUnderflow)
    } else if s.sp % w != 0 {
        Err(VmError::Misaligned)
    } else {
        Ok((VmState { sp: s.sp - w, ..s }, decode(s.stack, s.sp - w, w as nat)))
    }
}

/// The address `bp + offset` of a base-relative `size` access, if it is in
/// bounds and aligned.
pub open spec fn base_address(s: VmState, offset: int, size: IntSize) -> Result<int, VmError> {
    let w = width(size) as int;
    let a = s.bp + offset;
    if a < 0 {
        Err(VmError::StackUnderflow)
    } else if a + w > STACK_SIZE {
        Err(VmError::StackOverflow)
    } else if a % w != 0 {
        Err(VmError::Misaligned)
    } else {
        Ok(a)
    }
}

pub open spec fn spec_binary(s: VmState, op: IntegerBinaryOperation, size: IntSize) -> Result<
    VmState,
    VmError,
> {
    match spec_pop(s, size) {
        Err(e) => Err(e),
        Ok((s1, r)) => match spec_pop(s1, size) {
            Err(e) => Err(e),
            Ok((s2, l)) => if is_division(op) && r == 0 {
                Err(VmError::DivisionByZero)
            } else {
                spec_push(s2, size, binary_result(op, size, l, r))
            },
        },
    }
}

pub open spec fn spec_unary(s: VmState, op: IntegerUnaryOperation, size: IntSize) -> Result<
    VmState,
    VmError,
> {
    match spec_pop(s, size) {
        Err(e) => Err(e),
        Ok((s1, v)) => spec_push(s1, size, unary_result(op, size, v)),
    }
}

pub open spec fn spec_advance(s: VmState, amount: int) -> Result<VmState, VmError> {
    if s.sp + amount > STACK_SIZE {
        Err(VmError::StackOverflow)
    } else {
        Ok(VmState { sp: s.sp + amount, ..s })
    }
}

pub open spec fn spec_retract(s: VmState, amount: int) -> Result<VmState, VmError> {
    if s.sp - amount < 0 {
        Err(VmError::StackUnderflow)
    } else {
        Ok(VmState { sp: s.sp - amount, ..s })
    }
}

pub open spec fn spec_retract_moving(s: VmState, amount: int, size: IntSize) -> Result<
    VmState,
    VmError,
> {
    match spec_pop(s, size) {
        Err(e) => Err(e),
        Ok((s1, v)) => match spec_retract(s1, amount) {
            Err(e) => Err(e),
            Ok(s2) => spec_push(s2, size, v),
        },
    }
}

pub open spec fn spec_duplicate(s: VmState, size: IntSize) -> Result<VmState, VmError> {
    match spec_pop(s, size) {
        Err(e) => Err(e),
        Ok((s1, v)) => match spec_push(s1, size, v) {
            Err(e) => Err(e),
            Ok(s2) => spec_push(s2, size, v),
        },
    }
}

/// Reads the top `size` cell by duplicating it and popping the copy.
pub open spec fn spec_peek(s: VmState, size: IntSize) -> Result<(VmState, nat), VmError> {
    match spec_duplicate(s, size) {
        Err(e) => Err(e),
        Ok(s1) => spec_pop(s1, size),
    }
}

pub open spec fn spec_read_base(s: VmState, offset: int, size: IntSize) -> Result<VmState, VmError> {
    match base_address(s, offset, size) {
        Err(e) => Err(e),
        Ok(a) => spec_push(s, size, decode(s.stack, a, width(size))),
    }
}

pub open spec fn spec_write_base(s: VmState, offset: int, size: IntSize) -> Result<
    VmState,
    VmError,
> {
    match spec_pop(s, size) {
        Err(e) => Err(e),
        Ok((s1, v)) => match base_address(s1, offset, size) {
            Err(e) => Err(e),
            Ok(a) => Ok(VmState { stack: write_cell(s1.stack, a, width(size), v), ..s1 }),
        },
    }
}

/// A new frame whose base is the current top, with the header
/// `[return index][previous base]`, then a jump to `target`.
pub open spec fn spec_call(s: VmState, target: int) -> Result<VmState, VmError> {
    let s0 = VmState { bp: s.sp, ..s };
    match spec_push(s0, IntSize::EightByte, s.ip as nat) {
        Err(e) => Err(e),
        Ok(s1) => match spec_push(s1, IntSize::EightByte, s.bp as nat) {
            Err(e) => Err(e),
            Ok(s2) => Ok(VmState { ip: target, ..s2 }),
        },
    }
}

/// Drops the callee's working stack and restores the base pointer and the
/// instruction index from the frame header.
pub open spec fn spec_return(s: VmState) -> Result<VmState, VmError> {
    if s.bp + FRAME_HEADER_SIZE > STACK_SIZE {
        Err(VmError::StackOverflow)
    } else {
        let s0 = VmState { sp: s.bp + FRAME_HEADER_SIZE, ..s };
        match spec_pop(s0, IntSize::EightByte) {
            Err(e) => Err(e),
            Ok((s1, base)) => match spec_pop(VmState { bp: base as int, ..s1 }, IntSize::EightByte) {
                Err(e) => Err(e),
                Ok((s2, index)) => Ok(VmState { ip: index as int, ..s2 }),
            },
        }
    }
}

/// An instruction's effect that prints nothing.
pub open spec fn silent(r: Result<VmState, VmError>) -> Result<(VmState, Option<u64>), VmError> {
    match r {
        Err(e) => Err(e),
        Ok(s) => Ok((s, None)),
    }
}

/// Executes `inst` on `s` (whose instruction index already points past it):
/// the new state and the value printed, if any. `tracing` says whether
/// `DebugPrintUnsigned` prints; without it that instruction does nothing.
#[verifier::opaque]
pub open spec fn spec_step(s: VmState, inst: Instruction, tracing: bool) -> Result<
    (VmState, Option<u64>),
    VmError,
> {
    match inst {
        Instruction::IntegerBinaryOperation(op, size) => silent(spec_binary(s, op, size)),
        Instruction::UnaryOperation(op, size) => silent(spec_unary(s, op, size)),
        Instruction::AdvanceStackPtr(n) => silent(spec_advance(s, n as int)),
        Instruction::RetractStackPtr(n) => silent(spec_retract(s, n as int)),
        Instruction::RetractMoving(n, size) => silent(spec_retract_moving(s, n as int, size)),
        Instruction::Duplicate(size) => silent(spec_duplicate(s, size)),
        Instruction::PushConstant(c) => silent(
            spec_push(s, constant_size(c), constant_value(c)),
        ),
        Instruction::DebugPrintUnsigned(size) => if tracing {
            match spec_peek(s, size) {
                Err(e) => Err(e),
                Ok((s1, v)) => Ok((s1, Some(v as u64))),
            }
        } else {
            Ok((s, None))
        },
        Instruction::ReadBase(offset, size) => silent(spec_read_base(s, offset as int, size)),
        Instruction::WriteBase(offset, size) => silent(spec_write_base(s, offset as int, size)),
        Instruction::Call(target) => silent(spec_call(s, target as int)),
        Instruction::Return => silent(spec_return(s)),
        Instruction::Exit => Ok((VmState { running: false, ..s }, None)),
    }
}

/// Fetches the instruction at the index, moves the index past it and
/// executes it.
pub open spec fn spec_fetch_step(s: VmState, tracing: bool) -> Result<
    (VmState, Option<u64>),
    VmError,
> {
    if s.ip < 0 || s.ip >= s.instructions.len() {
        Err(VmError::InstructionOutOfRange)
    } else {
        spec_step(VmState { ip: s.ip + 1, ..s }, s.instructions[s.ip], tracing)
    }
}

pub open spec fn printed(out: Option<u64>) -> Seq<u64> {
    match out {
        Some(v) => seq![v],
        None => Seq::empty(),
    }
}

/// Runs `s` for at most `fuel` instructions while it is running: the outcome,
/// the final state, and the values printed on the way (up to a fault, if one
/// comes).
pub open spec fn spec_run(s: VmState, fuel: nat, tracing: bool) -> (
    Result<(), VmError>,
    VmState,
    Seq<u64>,
)
    decreases fuel,
{
    if !s.running {
        (Ok(()), s, Seq::empty())
    } else if fuel == 0 {
        (Err(VmError::StepBudgetExhausted), s, Seq::empty())
    } else {
        match spec_fetch_step(s, tracing) {
            Err(e) => (Err(e), s, Seq::empty()),
            Ok((s1, out)) => {
                let rest = spec_run(s1, (fuel - 1) as nat, tracing);
                (rest.0, rest.1, printed(out) + rest.2)
            },
        }
    }
}

/// A machine: a program, an instruction index, and a stack of `STACK_SIZE`
/// bytes with a top pointer and a frame base pointer.
pub struct Runtime {
    instructions: Vec<Instruction>,
    instruction_index: u64,
    stack: Vec<u8>,
    stack_pointer: usize,
    base_pointer: u64,
    running: bool,
}

impl View for Runtime {
    type V = VmState;

    closed spec fn view(&self) -> VmState {
        VmState {
            instructions: self.instructions@,
            ip: self.instruction_index as int,
            stack: self.stack@,
            sp: self.stack_pointer as int,
            bp: self.base_pointer as int,
            running: self.running,
        }
    }
}

/// The outcome of a single push or store: the new state, or the fault with
/// the state left as it was.
pub open spec fn push_outcome(r: Result<(), VmError>, spec: Result<VmState, VmError>, before: VmState, after: VmState) -> bool {
    match spec {
        Ok(s) => r is Ok && after == s,
        Err(e) => r == Err::<(), VmError>(e) && after == before,
    }
}

/// The outcome of an instruction: the new state, or the fault (after which
/// the state is of no further use).
pub open spec fn step_outcome(r: Result<(), VmError>, spec: Result<VmState, VmError>, after: VmState) -> bool {
    match spec {
        Ok(s) => r is Ok && after == s,
        Err(e) => r == Err::<(), VmError>(e),
    }
}

proof fn lemma_pow256_mono(i: nat, j: nat)
    requires
        i <= j,
    ensures
        pow256(i) <= pow256(j),
    decreases j,
{
    if i < j {
        lemma_pow256_mono(i, (j - 1) as nat);
        lemma_pow256_positive((j - 1) as nat);
    }
}

/// A cell of each size has `256^width` bit patterns, at most `2^64`.
pub proof fn lemma_width_modulus(size: IntSize)
    ensures
        pow256(width(size)) == modulus(size),
        modulus(size) <= pow256(8),
        modulus(size) <= 0x1_0000_0000_0000_0000,
        1 <= width(size) <= 8,
{
    lemma_pow256_values();
}

impl Runtime {
    pub open spec fn wf(&self) -> bool {
        state_ok(self@)
    }

    /// A halted machine over `instructions`, with a zeroed stack and every
    /// pointer and index at zero.
    pub fn new(instructions: Vec<Instruction>) -> (r: Runtime)
        ensures
            r.wf(),
            r@.instructions == instructions@,
            r@.ip == 0,
            r@.sp == 0,
            r@.bp == 0,
            !r@.running,
            r@.stack == Seq::new(STACK_SIZE as nat, |i: int| 0u8),
    {
        let mut stack: Vec<u8> = Vec::with_capacity(STACK_SIZE);
        let mut i: usize = 0;
        while i < STACK_SIZE
            invariant
                i <= STACK_SIZE,
                stack@ == Seq::new(i as nat, |k: int| 0u8),
            decreases STACK_SIZE - i,
        {
            stack.push(0u8);
            i = i + 1;
            assert(stack@ =~= Seq::new(i as nat, |k: int| 0u8));
        }
        // The program length fits the 64-bit instruction index.
        let length = instructions.len() as u64;
        assert(length as int == instructions@.len());
        Runtime {
            instructions,
            instruction_index: 0,
            stack,
            stack_pointer: 0,
            base_pointer: 0,
            running: false,
        }
    }

    /// Index of the next instruction to fetch.
    pub fn instruction_index(&self) -> (r: u64)
        ensures
            r as int == self@.ip,
    {
        self.instruction_index
    }

    /// The top pointer, in bytes above the bottom of the stack.
    pub fn stack_pointer(&self) -> (r: usize)
        ensures
            r as int == self@.sp,
    {
        self.stack_pointer
    }

    /// The frame base pointer, in bytes above the bottom of the stack.
    pub fn base_pointer(&self) -> (r: u64)
        ensures
            r as int == self@.bp,
    {
        self.base_pointer
    }

    /// Whether the dispatch loop is running.
    pub fn is_running(&self) -> (r: bool)
        ensures
            r == self@.running,
    {
        self.running
    }

    /// The unsigned value of the `size` cell at `address`, if it lies within the stack.
    pub fn cell(&self, address: usize, size: IntSize) -> (r: Option<u64>)
        requires
            self.wf(),
        ensures
            address + width(size) <= STACK_SIZE ==> r == Some(decode(self@.stack, address as int, width(size)) as u64),
            address + width(size) > STACK_SIZE ==> r is None,
    {
        let w = size.bytes();
        if address > STACK_SIZE - w {
            None
        } else {
            Some(self.read_bytes(address, w))
        }
    }

    /// The `n` bytes from `a` as an unsigned value, least significant first.
    fn read_bytes(&self, a: usize, n: usize) -> (r: u64)
        requires
            self.wf(),
            1 <= n <= 8,
            a + n <= STACK_SIZE,
        ensures
            r as nat == decode(self@.stack, a as int, n as nat),
    {
        let mut acc: u128 = 0;
        let mut scale: u128 = 1;
        let mut i: usize = 0;
        proof {
            lemma_pow256_values();
            lemma_pow256_mono(n as nat, 8);
        }
        while i < n
            invariant
                self.wf(),
                i <= n <= 8,
                a + n <= STACK_SIZE,
                pow256(n as nat) <= pow256(8),
                pow256(8) == 0x1_0000_0000_0000_0000,
                scale as nat == pow256(i as nat),
                acc as nat == decode(self@.stack, a as int, i as nat),
            decreases n - i,
        {
            proof {
                lemma_decode_bound(self@.stack, a as int, i as nat);
                lemma_pow256_mono(i as nat, n as nat);
            }
            let b = self.stack[a + i];
            assert(acc + scale * (b as u128) < scale * 256) by (nonlinear_arith)
                requires
                    acc < scale,
                    b < 256,
            ;
            assert(scale * 256 <= 0x1_0000_0000_0000_0000_00) by (nonlinear_arith)
                requires
                    scale <= 0x1_0000_0000_0000_0000,
            ;
            acc = acc + scale * (b as u128);
            scale = scale * 256;
            i = i + 1;
        }
        proof {
            lemma_decode_bound(self@.stack, a as int, n as nat);
        }
        acc as u64
    }

    /// Stores `v` in the `n` bytes from `a`, least significant first.
    fn write_bytes(&mut self, a: usize, n: usize, v: u64)
        requires
            old(self).wf(),
            1 <= n <= 8,
            a + n <= STACK_SIZE,
        ensures
            final(self).wf(),
            final(self)@.instructions == old(self)@.instructions,
            final(self)@ == (VmState { stack: write_cell(old(self)@.stack, a as int, n as nat, v as nat), ..old(self)@ }),
    {
        let mut x: u64 = v;
        let mut i: usize = 0;
        assert(pow256(0) == 1);
        assert(v as nat / 1 == v as nat);
        while i < n
            invariant
                old(self).wf(),
                i <= n <= 8,
                a + n <= STACK_SIZE,
                self.stack@.len() == STACK_SIZE,
                self.stack@ == write_cell(old(self)@.stack, a as int, i as nat, v as nat),
                x as nat == v as nat / pow256(i as nat),
                self.instructions == old(self).instructions,
                self.instruction_index == old(self).instruction_index,
                self.stack_pointer == old(self).stack_pointer,
                self.base_pointer == old(self).base_pointer,
                self.running == old(self).running,
            decreases n - i,
        {
            proof {
                lemma_pow256_positive(i as nat);
                lemma_write_frame(old(self)@.stack, a as int, i as nat, v as nat);
                lemma_div_denominator(v as int, pow256(i as nat) as int, 256);
                assert(pow256(i as nat) * 256 == pow256((i + 1) as nat)) by (nonlinear_arith)
                    requires
                        pow256((i + 1) as nat) == 256 * pow256(i as nat),
                ;
            }
            self.stack[a + i] = (x % 256) as u8;
            x = x / 256;
            i = i + 1;
        }
        proof {
            lemma_write_frame(old(self)@.stack, a as int, n as nat, v as nat);
        }
    }

    /// Pushes the `size` cell `v`.
    fn push_cell(&mut self, size: IntSize, v: u64) -> (r: Result<(), VmError>)
        requires
            old(self).wf(),
            (v as nat) < modulus(size),
        ensures
            final(self).wf(),
            final(self)@.instructions == old(self)@.instructions,
            push_outcome(r, spec_push(old(self)@, size, v as nat), old(self)@, final(self)@),
            r is Ok ==> old(self)@.sp % (width(size) as int) == 0,
    {
        proof {
            lemma_width_modulus(size);
        }
        let w = size.bytes();
        if self.stack_pointer > STACK_SIZE - w {
            return Err(VmError::StackOverflow);
        }
        if self.stack_pointer % w != 0 {
            return Err(VmError::Misaligned);
        }
        self.write_bytes(self.stack_pointer, w, v);
        self.stack_pointer = self.stack_pointer + w;
        Ok(())
    }

    /// Pops the `size` cell on top of the stack.
    fn pop_cell(&mut self, size: IntSize) -> (r: Result<u64, VmError>)
        requires
            old(self).wf(),
        ensures
            final(self).wf(),
            final(self)@.instructions == old(self)@.instructions,
            match spec_pop(old(self)@, size) {
                Ok((s, v)) => r == Ok::<u64, VmError>(v as u64) && final(self)@ == s && (v as nat) < modulus(size),
                Err(e) => r == Err::<u64, VmError>(e) && final(self)@ == old(self)@,
            },
    {
        proof {
            lemma_width_modulus(size);
        }
        let w = size.bytes();
        if self.stack_pointer < w {
            return Err(VmError::StackUnderflow);
        }
        if self.stack_pointer % w != 0 {
            return Err(VmError::Misaligned);
        }
        self.stack_pointer = self.stack_pointer - w;
        let v = self.read_bytes(self.stack_pointer, w);
        proof {
            lemma_decode_bound(self@.stack, self.stack_pointer as int, w as nat);
        }
        Ok(v)
    }

    fn eval_binary_int_op(&mut self, op: IntegerBinaryOperation, size: IntSize) -> (r: Result<(), VmError>)
        requires
            old(self).wf(),
        ensures
            final(self).wf(),
            final(self)@.instructions == old(self)@.instructions,
            step_outcome(r, spec_binary(old(self)@, op, size), final(self)@),
    {
        let right = match self.pop_cell(size) {
            Ok(v) => v,
            Err(e) => return Err(e),
        };
        let left = match self.pop_cell(size) {
            Ok(v) => v,
            Err(e) => return Err(e),
        };
        let division = match op {
            IntegerBinaryOperation::UnsignedDivision | IntegerBinaryOperation::SignedDivision => true,
            _ => false,
        };
        if division && right == 0 {
            return Err(VmError::DivisionByZero);
        }
        proof {
            crate::arith::lemma_result_bound(op, size, left as nat, right as nat);
        }
        let result = binary_operation(op, size, left, right);
        self.push_cell(size, result)
    }

    fn eval_unary_int_op(&mut self, op: IntegerUnaryOperation, size: IntSize) -> (r: Result<(), VmError>)
        requires
            old(self).wf(),
        ensures
            final(self).wf(),
            final(self)@.instructions == old(self)@.instructions,
            step_outcome(r, spec_unary(old(self)@, op, size), final(self)@),
    {
        let val = match self.pop_cell(size) {
            Ok(v) => v,
            Err(e) => return Err(e),
        };
        let result = unary_operation(op, size, val);
        proof {
            crate::arith::lemma_to_signed_congruent(size, val as nat);
            vstd::arithmetic::div_mod::lemma_mod_bound(-crate::arith::to_signed(size, val as nat), modulus(size) as int);
        }
        self.push_cell(size, result)
    }

    fn advance(&mut self, amount: usize) -> (r: Result<(), VmError>)
        requires
            old(self).wf(),
        ensures
            final(self).wf(),
            final(self)@.instructions == old(self)@.instructions,
            step_outcome(r, spec_advance(old(self)@, amount as int), final(self)@),
    {
        if amount > STACK_SIZE - self.stack_pointer {
            return Err(VmError::StackOverflow);
        }
        self.stack_pointer = self.stack_pointer + amount;
        Ok(())
    }

    fn retract(&mut self, amount: usize) -> (r: Result<(), VmError>)
        requires
            old(self).wf(),
        ensures
            final(self).wf(),
            final(self)@.instructions == old(self)@.instructions,
            push_outcome(r, spec_retract(old(self)@, amount as int), old(self)@, final(self)@),
    {
        if amount > self.stack_pointer {
            return Err(VmError::StackUnderflow);
        }
        self.stack_pointer = self.stack_pointer - amount;
        Ok(())
    }

    fn retract_moving(&mut self, amount: usize, size: IntSize) -> (r: Result<(), VmError>)
        requires
            old(self).wf(),
        ensures
            final(self).wf(),
            final(self)@.instructions == old(self)@.instructions,
            step_outcome(r, spec_retract_moving(old(self)@, amount as int, size), final(self)@),
    {
        let val = match self.pop_cell(size) {
            Ok(v) => v,
            Err(e) => return Err(e),
        };
        match self.retract(amount) {
            Ok(()) => {},
            Err(e) => return Err(e),
        }
        self.push_cell(size, val)
    }

    /// Pops the top `size` cell and pushes it twice.
    fn duplicate(&mut self, size: IntSize) -> (r: Result<(), VmError>)
        requires
            old(self).wf(),
        ensures
            final(self).wf(),
            final(self)@.instructions == old(self)@.instructions,
            step_outcome(r, spec_duplicate(old(self)@, size), final(self)@),
    {
        let val = match self.pop_cell(size) {
            Ok(v) => v,
            Err(e) => return Err(e),
        };
        match self.push_cell(size, val) {
            Ok(()) => {},
            Err(e) => return Err(e),
        }
        self.push_cell(size, val)
    }

    /// Checks a base-relative access of `size` at `offset` and gives its address.
    fn base_address(&self, offset: isize, size: IntSize) -> (r: Result<usize, VmError>)
        requires
            self.wf(),
        ensures
            match base_address(self@, offset as int, size) {
                Ok(a) => r == Ok::<usize, VmError>(a as usize) && a + width(size) <= STACK_SIZE,
                Err(e) => r == Err::<usize, VmError>(e),
            },
    {
        let w = size.bytes();
        let a: i128 = self.base_pointer as i128 + offset as i128;
        if a < 0 {
            return Err(VmError::StackUnderflow);
        }
        if a > (STACK_SIZE - w) as i128 {
            return Err(VmError::StackOverflow);
        }
        let address = a as usize;
        if address % w != 0 {
            return Err(VmError::Misaligned);
        }
        Ok(address)
    }

    /// Pushes the `size` cell at `bp + offset`.
    fn push_from_base(&mut self, offset: isize, size: IntSize) -> (r: Result<(), VmError>)
        requires
            old(self).wf(),
        ensures
            final(self).wf(),
            final(self)@.instructions == old(self)@.instructions,
            step_outcome(r, spec_read_base(old(self)@, offset as int, size), final(self)@),
    {
        let address = match self.base_address(offset, size) {
            Ok(a) => a,
            Err(e) => return Err(e),
        };
        let val = self.read_bytes(address, size.bytes());
        proof {
            lemma_width_modulus(size);
            lemma_decode_bound(self@.stack, address as int, width(size));
        }
        self.push_cell(size, val)
    }

    /// Pops the top `size` cell and stores it at `bp + offset`.
    fn pop_to_base(&mut self, offset: isize, size: IntSize) -> (r: Result<(), VmError>)
        requires
            old(self).wf(),
        ensures
            final(self).wf(),
            final(self)@.instructions == old(self)@.instructions,
            step_outcome(r, spec_write_base(old(self)@, offset as int, size), final(self)@),
    {
        let val = match self.pop_cell(size) {
            Ok(v) => v,
            Err(e) => return Err(e),
        };
        let address = match self.base_address(offset, size) {
            Ok(a) => a,
            Err(e) => return Err(e),
        };
        self.write_bytes(address, size.bytes(), val);
        Ok(())
    }

    fn call(&mut self, target: usize) -> (r: Result<(), VmError>)
        requires
            old(self).wf(),
        ensures
            final(self).wf(),
            final(self)@.instructions == old(self)@.instructions,
            step_outcome(r, spec_call(old(self)@, target as int), final(self)@),
    {
        let prev_base = self.base_pointer;
        self.base_pointer = self.stack_pointer as u64;
        proof {
            lemma_pow256_values();
        }
        match self.push_cell(IntSize::EightByte, self.instruction_index) {
            Ok(()) => {},
            Err(e) => return Err(e),
        }
        match self.push_cell(IntSize::EightByte, prev_base) {
            Ok(()) => {},
            Err(e) => return Err(e),
        }
        self.instruction_index = target as u64;
        Ok(())
    }

    fn return_from_call(&mut self) -> (r: Result<(), VmError>)
        requires
            old(self).wf(),
        ensures
            final(self).wf(),
            final(self)@.instructions == old(self)@.instructions,
            step_outcome(r, spec_return(old(self)@), final(self)@),
    {
        if self.base_pointer > (STACK_SIZE - FRAME_HEADER_SIZE) as u64 {
            return Err(VmError::StackOverflow);
        }
        self.stack_pointer = self.base_pointer as usize + FRAME_HEADER_SIZE;
        let base = match self.pop_cell(IntSize::EightByte) {
            Ok(v) => v,
            Err(e) => return Err(e),
        };
        self.base_pointer = base;
        let index = match self.pop_cell(IntSize::EightByte) {
            Ok(v) => v,
            Err(e) => return Err(e),
        };
        self.instruction_index = index;
        Ok(())
    }

    /// Executes `instruction`, whose index the machine has already moved past.
    fn eval_instruction(&mut self, instruction: Instruction, tracing: bool) -> (r: Result<Option<u64>, VmError>)
        requires
            old(self).wf(),
        ensures
            final(self).wf(),
            final(self)@.instructions == old(self)@.instructions,
            match spec_step(old(self)@, instruction, tracing) {
                Ok((s, out)) => r == Ok::<Option<u64>, VmError>(out) && final(self)@ == s,
                Err(e) => r == Err::<Option<u64>, VmError>(e),
            },
    {
        reveal(spec_step);
        let done = match instruction {
            Instruction::IntegerBinaryOperation(op, size) => self.eval_binary_int_op(op, size),
            Instruction::UnaryOperation(op, size) => self.eval_unary_int_op(op, size),
            Instruction::AdvanceStackPtr(amount) => self.advance(amount),
            Instruction::RetractStackPtr(amount) => self.retract(amount),
            Instruction::RetractMoving(amount, size) => self.retract_moving(amount, size),
            Instruction::Duplicate(size) => self.duplicate(size),
            Instruction::PushConstant(constant) => self.push_cell(constant.size(), constant.value()),
            Instruction::DebugPrintUnsigned(size) => {
                if !tracing {
                    return Ok(None);
                }
                match self.duplicate(size) {
                    Ok(()) => {},
                    Err(e) => return Err(e),
                }
                return match self.pop_cell(size) {
                    Ok(v) => Ok(Some(v)),
                    Err(e) => Err(e),
                };
            },
            Instruction::ReadBase(offset, size) => self.push_from_base(offset, size),
            Instruction::WriteBase(offset, size) => self.pop_to_base(offset, size),
            Instruction::Call(target) => self.call(target),
            Instruction::Return => self.return_from_call(),
            Instruction::Exit => {
                self.running = false;
                Ok(())
            },
        };
        match done {
            Ok(()) => Ok(None),
            Err(e) => Err(e),
        }
    }

    /// Fetches the next instruction, moves the index past it and executes it.
    fn step(&mut self, tracing: bool) -> (r: Result<Option<u64>, VmError>)
        requires
            old(self).wf(),
        ensures
            final(self).wf(),
            final(self)@.instructions == old(self)@.instructions,
            match spec_fetch_step(old(self)@, tracing) {
                Ok((s, out)) => r == Ok::<Option<u64>, VmError>(out) && final(self)@ == s,
                Err(e) => r == Err::<Option<u64>, VmError>(e),
            },
    {
        if self.instruction_index >= self.instructions.len() as u64 {
            return Err(VmError::InstructionOutOfRange);
        }
        let instruction = self.instructions[self.instruction_index as usize];
        self.instruction_index = self.instruction_index + 1;
        self.eval_instruction(instruction, tracing)
    }

    /// Runs the program from the current index until `Exit`, without tracing.
    /// Executes at most `u64::MAX` instructions. On `Ok` the machine is
    /// halted in the state the model gives; a fault is returned as it comes.
    pub fn run(&mut self) -> (r: Result<(), VmError>)
        requires
            old(self).wf(),
        ensures
            final(self).wf(),
            final(self)@.instructions == old(self)@.instructions,
            ({
                let (res, s, _out) = spec_run(VmState { running: true, ..old(self)@ }, u64::MAX as nat, false);
                &&& r == res
                &&& r is Ok ==> final(self)@ == s
            }),
    {
        let mut discarded: Vec<u64> = Vec::new();
        self.run_impl(false, &mut discarded)
    }

    /// Runs the program from the current index until `Exit`, with tracing:
    /// each `DebugPrintUnsigned` appends the top cell's unsigned value to
    /// `debug_out`, in execution order. Executes at most `u64::MAX`
    /// instructions. The values printed before a fault stay in `debug_out`.
    pub fn run_debug(&mut self, debug_out: &mut Vec<u64>) -> (r: Result<(), VmError>)
        requires
            old(self).wf(),
        ensures
            final(self).wf(),
            final(self)@.instructions == old(self)@.instructions,
            ({
                let (res, s, out) = spec_run(VmState { running: true, ..old(self)@ }, u64::MAX as nat, true);
                &&& r == res
                &&& final(debug_out)@ == old(debug_out)@ + out
                &&& r is Ok ==> final(self)@ == s
            }),
    {
        self.run_impl(true, debug_out)
    }

    fn run_impl(&mut self, tracing: bool, debug_out: &mut Vec<u64>) -> (r: Result<(), VmError>)
        requires
            old(self).wf(),
        ensures
            final(self).wf(),
            final(self)@.instructions == old(self)@.instructions,
            ({
                let (res, s, out) = spec_run(VmState { running: true, ..old(self)@ }, u64::MAX as nat, tracing);
                &&& r == res
                &&& final(debug_out)@ == old(debug_out)@ + out
                &&& r is Ok ==> final(self)@ == s
            }),
    {
        self.running = true;
        let ghost start = self@;
        let mut budget: u64 = u64::MAX;
        while self.running
            invariant
                self.wf(),
                self@.instructions == start.instructions,
                start == (VmState { running: true, ..old(self)@ }),
                ({
                    let whole = spec_run(start, u64::MAX as nat, tracing);
                    let rest = spec_run(self@, budget as nat, tracing);
                    &&& whole.0 == rest.0
                    &&& whole.1 == rest.1
                    &&& old(debug_out)@ + whole.2 == debug_out@ + rest.2
                }),
            decreases budget,
        {
            if budget == 0 {
                assert(debug_out@ + Seq::<u64>::empty() =~= debug_out@);
                return Err(VmError::StepBudgetExhausted);
            }
            let ghost out_before = debug_out@;
            match self.step(tracing) {
                Err(e) => {
                    return Err(e);
                },
                Ok(out) => {
                    if let Some(v) = out {
                        debug_out.push(v);
                    }
                    proof {
                        let rest = spec_run(self@, (budget - 1) as nat, tracing);
                        assert(out_before + (printed(out) + rest.2) =~= debug_out@ + rest.2);
                    }
                },
            }
            budget = budget - 1;
        }
        proof {
            assert(debug_out@ + Seq::<u64>::empty() =~= debug_out@);
        }
        Ok(())
    }
}

} // verus!
