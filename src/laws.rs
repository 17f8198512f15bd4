//! Properties of the machine's semantics that hold over all states: the
//! stack stays within bounds, every access is aligned, the top pointer moves
//! by each instruction's declared effect, and the stack-shuffling and frame
//! instructions undo one another as intended.

use vstd::prelude::*;
use crate::instructions::{IntSize, Constant, Instruction, width, modulus, constant_size, constant_value};
use crate::cells::{pow256, decode, write_cell, lemma_decode_bound, lemma_write_frame, lemma_decode_write, lemma_decode_frame, lemma_pow256_values};
use crate::runtime::{
    VmState,
    VmError,
    STACK_SIZE,
    FRAME_HEADER_SIZE,
    state_ok,
    spec_push,
    spec_pop,
    base_address,
    spec_step,
    spec_fetch_step,
    spec_run,
    silent,
    lemma_width_modulus,
    spec_duplicate,
    spec_retract_moving,
};
use vstd::arithmetic::div_mod::lemma_mod_multiples_vanish;

verus! {

/// A successful push keeps the state invariant and touches only the stack
/// bytes of the new cell.
proof fn lemma_push_ok(s: VmState, size: IntSize, v: nat)
    requires
        state_ok(s),
    ensures
        spec_push(s, size, v) is Ok ==> state_ok(spec_push(s, size, v)->Ok_0),
{
    if spec_push(s, size, v) is Ok {
        lemma_write_frame(s.stack, s.sp, width(size), v);
    }
}

/// A successful pop keeps the state invariant and yields a bit pattern of the size.
proof fn lemma_pop_ok(s: VmState, size: IntSize)
    requires
        state_ok(s),
    ensures
        spec_pop(s, size) is Ok ==> state_ok(spec_pop(s, size)->Ok_0.0) && spec_pop(s, size)->Ok_0.1
            < modulus(size),
{
    if spec_pop(s, size) is Ok {
        lemma_width_modulus(size);
        lemma_decode_bound(s.stack, s.sp - width(size), width(size));
    }
}

/// Every instruction keeps the state invariant.
pub proof fn lemma_step_ok(s: VmState, inst: Instruction, tracing: bool)
    requires
        state_ok(s),
    ensures
        spec_step(s, inst, tracing) is Ok ==> state_ok(spec_step(s, inst, tracing)->Ok_0.0),
        spec_step(s, inst, tracing) is Ok ==> spec_step(s, inst, tracing)->Ok_0.0.instructions == s.instructions,
{
    reveal(spec_step);
    match inst {
        Instruction::IntegerBinaryOperation(op, size) => {
            lemma_pop_ok(s, size);
            if let Ok((s1, r)) = spec_pop(s, size) {
                lemma_pop_ok(s1, size);
                if let Ok((s2, l)) = spec_pop(s1, size) {
                    lemma_push_ok(s2, size, crate::arith::binary_result(op, size, l, r));
                }
            }
        },
        Instruction::UnaryOperation(op, size) => {
            lemma_pop_ok(s, size);
            if let Ok((s1, v)) = spec_pop(s, size) {
                lemma_push_ok(s1, size, crate::arith::unary_result(op, size, v));
            }
        },
        Instruction::RetractMoving(n, size) => {
            lemma_pop_ok(s, size);
            if let Ok((s1, v)) = spec_pop(s, size) {
                if s1.sp - n >= 0 {
                    let s2 = VmState { sp: s1.sp - n, ..s1 };
                    lemma_push_ok(s2, size, v);
                }
            }
        },
        Instruction::Duplicate(size) => {
            lemma_pop_ok(s, size);
            if let Ok((s1, v)) = spec_pop(s, size) {
                lemma_push_ok(s1, size, v);
                if let Ok(s2) = spec_push(s1, size, v) {
                    lemma_push_ok(s2, size, v);
                }
            }
        },
        Instruction::PushConstant(c) => {
            lemma_push_ok(s, constant_size(c), constant_value(c));
        },
        Instruction::DebugPrintUnsigned(size) => {
            lemma_pop_ok(s, size);
            if let Ok((s1, v)) = spec_pop(s, size) {
                lemma_push_ok(s1, size, v);
                if let Ok(s2) = spec_push(s1, size, v) {
                    lemma_push_ok(s2, size, v);
                    if let Ok(s3) = spec_push(s2, size, v) {
                        lemma_pop_ok(s3, size);
                    }
                }
            }
        },
        Instruction::ReadBase(offset, size) => {
            if let Ok(a) = base_address(s, offset as int, size) {
                lemma_push_ok(s, size, decode(s.stack, a, width(size)));
            }
        },
        Instruction::WriteBase(offset, size) => {
            lemma_pop_ok(s, size);
            if let Ok((s1, v)) = spec_pop(s, size) {
                if let Ok(a) = base_address(s1, offset as int, size) {
                    lemma_write_frame(s1.stack, a, width(size), v);
                }
            }
        },
        Instruction::Call(target) => {
            let s0 = VmState { bp: s.sp, ..s };
            lemma_push_ok(s0, IntSize::EightByte, s.ip as nat);
            if let Ok(s1) = spec_push(s0, IntSize::EightByte, s.ip as nat) {
                lemma_push_ok(s1, IntSize::EightByte, s.bp as nat);
            }
        },
        Instruction::Return => {
            if s.bp + FRAME_HEADER_SIZE <= STACK_SIZE {
                let s0 = VmState { sp: s.bp + FRAME_HEADER_SIZE, ..s };
                lemma_pop_ok(s0, IntSize::EightByte);
                lemma_width_modulus(IntSize::EightByte);
                if let Ok((s1, base)) = spec_pop(s0, IntSize::EightByte) {
                    let s1b = VmState { bp: base as int, ..s1 };
                    lemma_pop_ok(s1b, IntSize::EightByte);
                }
            }
        },
        _ => {},
    }
}

/// The declared change of the top pointer that `inst` makes from `s`: a
/// push adds its width, a pop subtracts it, an advance adds its amount and a
/// retract subtracts it. `Call` pushes a frame header; `Return` drops the
/// frame to its base.
pub open spec fn net_effect(s: VmState, inst: Instruction) -> int {
    match inst {
        Instruction::IntegerBinaryOperation(_, size) => -width(size),
        Instruction::UnaryOperation(_, _) => 0,
        Instruction::AdvanceStackPtr(n) => n as int,
        Instruction::RetractStackPtr(n) => -n,
        Instruction::RetractMoving(n, _) => -n,
        Instruction::Duplicate(size) => width(size) as int,
        Instruction::PushConstant(c) => width(constant_size(c)) as int,
        Instruction::DebugPrintUnsigned(_) => 0,
        Instruction::ReadBase(_, size) => width(size) as int,
        Instruction::WriteBase(_, size) => -width(size),
        Instruction::Call(_) => FRAME_HEADER_SIZE as int,
        Instruction::Return => s.bp - s.sp,
        Instruction::Exit => 0,
    }
}

/// The sum of the declared effects of the instructions that a run of `s`
/// with `fuel` executes successfully.
pub open spec fn executed_effect(s: VmState, fuel: nat, tracing: bool) -> int
    decreases fuel,
{
    if !s.running || fuel == 0 {
        0
    } else {
        match spec_fetch_step(s, tracing) {
            Err(_) => 0,
            Ok((s1, _)) => net_effect(VmState { ip: s.ip + 1, ..s }, s.instructions[s.ip])
                + executed_effect(s1, (fuel - 1) as nat, tracing),
        }
    }
}

/// Each instruction that succeeds moves the top pointer by its declared effect.
pub proof fn lemma_step_stack_balance(s: VmState, inst: Instruction, tracing: bool)
    requires
        state_ok(s),
    ensures
        spec_step(s, inst, tracing) is Ok ==> spec_step(s, inst, tracing)->Ok_0.0.sp == s.sp
            + net_effect(s, inst),
{
    reveal(spec_step);
    match inst {
        Instruction::IntegerBinaryOperation(_, _) => {},
        Instruction::UnaryOperation(_, _) => {},
        Instruction::AdvanceStackPtr(_) => {},
        Instruction::RetractStackPtr(_) => {},
        Instruction::RetractMoving(_, _) => {},
        Instruction::Duplicate(_) => {},
        Instruction::PushConstant(_) => {},
        Instruction::DebugPrintUnsigned(_) => {},
        Instruction::ReadBase(_, _) => {},
        Instruction::WriteBase(_, _) => {},
        Instruction::Call(_) => {},
        Instruction::Return => {},
        Instruction::Exit => {},
    }
}

/// Stack balance: when a run halts, the top pointer has moved by the sum of
/// the declared effects of the instructions executed.
pub proof fn lemma_run_stack_balance(s: VmState, fuel: nat, tracing: bool)
    requires
        state_ok(s),
    ensures
        spec_run(s, fuel, tracing).0 is Ok ==> spec_run(s, fuel, tracing).1.sp == s.sp
            + executed_effect(s, fuel, tracing),
    decreases fuel,
{
    if s.running && fuel > 0 && 0 <= s.ip < s.instructions.len() {
        let s0 = VmState { ip: s.ip + 1, ..s };
        let inst = s.instructions[s.ip];
        lemma_step_ok(s0, inst, tracing);
        lemma_step_stack_balance(s0, inst, tracing);
        if let Ok((s1, _)) = spec_step(s0, inst, tracing) {
            lemma_run_stack_balance(s1, (fuel - 1) as nat, tracing);
        }
    }
}

/// Alignment: a push, a pop and a base-relative access of width `w` succeed
/// only at an address within the stack that is a multiple of `w`.
pub proof fn lemma_accesses_aligned(s: VmState, size: IntSize, v: nat, offset: int)
    requires
        state_ok(s),
    ensures
        spec_push(s, size, v) is Ok ==> s.sp % (width(size) as int) == 0 && 0 <= s.sp && s.sp
            + width(size) <= STACK_SIZE,
        spec_pop(s, size) is Ok ==> (s.sp - width(size)) % (width(size) as int) == 0 && 0 <= s.sp
            - width(size),
        base_address(s, offset, size) is Ok ==> ({
            let a = base_address(s, offset, size)->Ok_0;
            &&& a % (width(size) as int) == 0
            &&& 0 <= a
            &&& a + width(size) <= STACK_SIZE
        }),
{
    lemma_width_modulus(size);
    lemma_mod_multiples_vanish(-1, s.sp, width(size) as int);
}

/// Duplicate idempotence: `Duplicate(w)` followed by `RetractMoving(w, w)`
/// succeeds whenever the first does, and leaves the top pointer and the top
/// cell as they were.
pub proof fn lemma_duplicate_retract_moving(s: VmState, size: IntSize, tracing: bool)
    requires
        state_ok(s),
        spec_step(s, Instruction::Duplicate(size), tracing) is Ok,
    ensures
        ({
            let s1 = spec_step(s, Instruction::Duplicate(size), tracing)->Ok_0.0;
            let r = spec_step(s1, Instruction::RetractMoving(width(size) as usize, size), tracing);
            let w = width(size);
            &&& r is Ok
            &&& r->Ok_0.0.sp == s.sp
            &&& decode(r->Ok_0.0.stack, s.sp - w, w) == decode(s.stack, s.sp - w, w)
        }),
{
    let w = width(size);
    lemma_width_modulus(size);
    assert(spec_step(s, Instruction::Duplicate(size), tracing) == silent(spec_duplicate(s, size)))
        by {
        reveal(spec_step);
    }
    let v = decode(s.stack, s.sp - w, w);
    lemma_decode_bound(s.stack, s.sp - w, w);
    vstd::arithmetic::div_mod::lemma_small_mod(v, pow256(w));
    let st1 = write_cell(s.stack, s.sp - w, w, v);
    lemma_write_frame(s.stack, s.sp - w, w, v);
    let st2 = write_cell(st1, s.sp, w, v);
    lemma_write_frame(st1, s.sp, w, v);
    lemma_decode_write(st1, s.sp, w, v);
    lemma_mod_multiples_vanish(-1, s.sp, w as int);
    lemma_mod_multiples_vanish(1, s.sp - w, w as int);
    let s1 = VmState { stack: st2, sp: s.sp + w, ..s };
    assert(spec_duplicate(s, size) == Ok::<VmState, VmError>(s1));
    let n = w as usize;
    assert(spec_step(s1, Instruction::RetractMoving(n, size), tracing) == silent(
        spec_retract_moving(s1, n as int, size),
    )) by {
        reveal(spec_step);
    }
    let st3 = write_cell(st2, s.sp - w, w, v);
    lemma_decode_write(st2, s.sp - w, w, v);
    assert(spec_pop(s1, size) == Ok::<(VmState, nat), VmError>((VmState { sp: s.sp, ..s1 }, v)));
    assert(spec_retract_moving(s1, n as int, size) == Ok::<VmState, VmError>(
        VmState { stack: st3, sp: s.sp, ..s },
    ));
}

/// Round trip: pushing a constant, storing it at a base offset and reading
/// that offset back leaves the constant on top of the stack, where it was
/// first pushed; the read succeeds whenever the push and the store do.
pub proof fn lemma_write_read_round_trip(s: VmState, c: Constant, offset: isize, tracing: bool)
    requires
        state_ok(s),
        spec_step(s, Instruction::PushConstant(c), tracing) is Ok,
        spec_step(
            spec_step(s, Instruction::PushConstant(c), tracing)->Ok_0.0,
            Instruction::WriteBase(offset, constant_size(c)),
            tracing,
        ) is Ok,
    ensures
        ({
            let size = constant_size(c);
            let s1 = spec_step(s, Instruction::PushConstant(c), tracing)->Ok_0.0;
            let s2 = spec_step(s1, Instruction::WriteBase(offset, size), tracing)->Ok_0.0;
            let r = spec_step(s2, Instruction::ReadBase(offset, size), tracing);
            &&& r is Ok
            &&& r->Ok_0.0.sp == s.sp + width(size)
            &&& decode(r->Ok_0.0.stack, s.sp, width(size)) == constant_value(c)
        }),
{
    reveal(spec_step);
    let size = constant_size(c);
    let w = width(size);
    let v = constant_value(c);
    lemma_width_modulus(size);
    vstd::arithmetic::div_mod::lemma_small_mod(v, pow256(w));
    let st1 = write_cell(s.stack, s.sp, w, v);
    lemma_write_frame(s.stack, s.sp, w, v);
    lemma_decode_write(s.stack, s.sp, w, v);
    let s1 = spec_step(s, Instruction::PushConstant(c), tracing)->Ok_0.0;
    let (s1p, v1) = spec_pop(s1, size)->Ok_0;
    assert(v1 == v);
    let a = base_address(s1p, offset as int, size)->Ok_0;
    let st2 = write_cell(st1, a, w, v);
    lemma_write_frame(st1, a, w, v);
    lemma_decode_write(st1, a, w, v);
    let st3 = write_cell(st2, s.sp, w, v);
    lemma_write_frame(st2, s.sp, w, v);
    lemma_decode_write(st2, s.sp, w, v);
}

/// The state after `Call(target)` from `s`, or `s` when the call faults.
pub open spec fn after_call(s: VmState, target: usize, tracing: bool) -> VmState {
    match spec_step(s, Instruction::Call(target), tracing) {
        Ok((s1, _)) => s1,
        Err(_) => s,
    }
}

/// Call/return balance: after a successful `Call`, a `Return` from any
/// later state with the callee's base pointer and frame header intact
/// succeeds and restores the caller's base pointer, instruction index and
/// top pointer.
pub proof fn lemma_call_return(s: VmState, target: usize, callee: VmState, tracing: bool)
    requires
        state_ok(s),
        state_ok(callee),
        spec_step(s, Instruction::Call(target), tracing) is Ok,
        callee.bp == after_call(s, target, tracing).bp,
        forall|i: int|
            callee.bp <= i < callee.bp + FRAME_HEADER_SIZE ==> callee.stack[i] == after_call(
                s,
                target,
                tracing,
            ).stack[i],
    ensures
        ({
            let r = spec_step(callee, Instruction::Return, tracing);
            &&& r is Ok
            &&& r->Ok_0.0.bp == s.bp
            &&& r->Ok_0.0.ip == s.ip
            &&& r->Ok_0.0.sp == s.sp
        }),
{
    reveal(spec_step);
    let size = IntSize::EightByte;
    lemma_width_modulus(size);
    let s1 = after_call(s, target, tracing);
    let st1 = write_cell(s.stack, s.sp, 8, s.ip as nat);
    lemma_write_frame(s.stack, s.sp, 8, s.ip as nat);
    let st2 = write_cell(st1, s.sp + 8, 8, s.bp as nat);
    lemma_write_frame(st1, s.sp + 8, 8, s.bp as nat);
    vstd::arithmetic::div_mod::lemma_small_mod(s.ip as nat, pow256(8));
    vstd::arithmetic::div_mod::lemma_small_mod(s.bp as nat, pow256(8));
    lemma_decode_write(st1, s.sp + 8, 8, s.bp as nat);
    lemma_decode_write(s.stack, s.sp, 8, s.ip as nat);
    lemma_decode_frame(st2, st1, s.sp, 8);
    assert(s1.stack == st2);
    lemma_decode_frame(callee.stack, st2, s.sp, 8);
    lemma_decode_frame(callee.stack, st2, s.sp + 8, 8);
    lemma_mod_multiples_vanish(1, s.sp, 8);
    lemma_mod_multiples_vanish(2, s.sp, 8);
}

} // verus!
