use nomvm::instructions::{Constant, Instruction, IntSize, IntegerBinaryOperation, IntegerUnaryOperation};
use nomvm::runtime::{Runtime, VmError, STACK_SIZE};

fn run_traced(program: Vec<Instruction>) -> (Runtime, Result<(), VmError>, Vec<u64>) {
    let mut runtime = Runtime::new(program);
    let mut out = Vec::new();
    let result = runtime.run_debug(&mut out);
    (runtime, result, out)
}

#[test]
fn unsigned_32_bit_add() {
    let (rt, result, out) = run_traced(vec![
        Instruction::PushConstant(Constant::FourByte(7)),
        Instruction::PushConstant(Constant::FourByte(35)),
        Instruction::IntegerBinaryOperation(IntegerBinaryOperation::UnsignedAddition, IntSize::FourByte),
        Instruction::DebugPrintUnsigned(IntSize::FourByte),
        Instruction::Exit,
    ]);
    assert_eq!(result, Ok(()));
    assert_eq!(out, vec![42]);
    assert_eq!(rt.stack_pointer(), 4);
    assert!(!rt.is_running());
}

#[test]
fn signed_8_bit_negation() {
    let (_, result, out) = run_traced(vec![
        Instruction::PushConstant(Constant::OneByte(0x01)),
        Instruction::UnaryOperation(IntegerUnaryOperation::NegateSigned, IntSize::OneByte),
        Instruction::DebugPrintUnsigned(IntSize::OneByte),
        Instruction::Exit,
    ]);
    assert_eq!(result, Ok(()));
    assert_eq!(out, vec![255]);
}

#[test]
fn signed_subtraction_wraps() {
    let (_, result, out) = run_traced(vec![
        Instruction::PushConstant(Constant::TwoByte(0x0000)),
        Instruction::PushConstant(Constant::TwoByte(0x0001)),
        Instruction::IntegerBinaryOperation(IntegerBinaryOperation::SignedSubtraction, IntSize::TwoByte),
        Instruction::DebugPrintUnsigned(IntSize::TwoByte),
        Instruction::Exit,
    ]);
    assert_eq!(result, Ok(()));
    assert_eq!(out, vec![65535]);
}

#[test]
fn read_write_base_round_trip() {
    let (rt, result, out) = run_traced(vec![
        Instruction::AdvanceStackPtr(4),
        Instruction::PushConstant(Constant::FourByte(0xDEADBEEF)),
        Instruction::WriteBase(0, IntSize::FourByte),
        Instruction::ReadBase(0, IntSize::FourByte),
        Instruction::DebugPrintUnsigned(IntSize::FourByte),
        Instruction::Exit,
    ]);
    assert_eq!(result, Ok(()));
    assert_eq!(out, vec![3735928559]);
    assert_eq!(rt.stack_pointer(), 8);
    assert_eq!(rt.cell(0, IntSize::FourByte), Some(0xDEADBEEF));
}

#[test]
fn call_and_return() {
    let (rt, result, out) = run_traced(vec![
        Instruction::Call(2),
        Instruction::Exit,
        Instruction::Return,
        Instruction::Exit,
    ]);
    assert_eq!(result, Ok(()));
    assert!(out.is_empty());
    assert_eq!(rt.stack_pointer(), 0);
    assert_eq!(rt.base_pointer(), 0);
    assert_eq!(rt.instruction_index(), 2);
    assert!(!rt.is_running());
}

#[test]
fn duplicate_then_retract_moving() {
    let (rt, result, out) = run_traced(vec![
        Instruction::PushConstant(Constant::EightByte(0x01)),
        Instruction::AdvanceStackPtr(8),
        Instruction::PushConstant(Constant::EightByte(0x99)),
        Instruction::RetractMoving(8, IntSize::EightByte),
        Instruction::DebugPrintUnsigned(IntSize::EightByte),
        Instruction::Exit,
    ]);
    assert_eq!(result, Ok(()));
    assert_eq!(out, vec![153]);
    assert_eq!(rt.stack_pointer(), 16);
}

#[test]
fn pop_from_empty_stack_faults() {
    let (_, result, _) = run_traced(vec![
        Instruction::IntegerBinaryOperation(IntegerBinaryOperation::UnsignedAddition, IntSize::OneByte),
        Instruction::Exit,
    ]);
    assert_eq!(result, Err(VmError::StackUnderflow));
}

#[test]
fn push_past_capacity_faults() {
    let (_, result, _) = run_traced(vec![
        Instruction::AdvanceStackPtr(STACK_SIZE - 2),
        Instruction::PushConstant(Constant::TwoByte(1)),
        Instruction::PushConstant(Constant::OneByte(1)),
        Instruction::Exit,
    ]);
    assert_eq!(result, Err(VmError::StackOverflow));
}

#[test]
fn push_to_exact_capacity_succeeds() {
    let (rt, result, _) = run_traced(vec![
        Instruction::AdvanceStackPtr(STACK_SIZE - 8),
        Instruction::PushConstant(Constant::EightByte(u64::MAX)),
        Instruction::Exit,
    ]);
    assert_eq!(result, Ok(()));
    assert_eq!(rt.stack_pointer(), STACK_SIZE);
    assert_eq!(rt.cell(STACK_SIZE - 8, IntSize::EightByte), Some(u64::MAX));
    assert_eq!(rt.cell(STACK_SIZE - 7, IntSize::EightByte), None);
}

#[test]
fn advance_past_capacity_faults() {
    let (_, result, _) = run_traced(vec![Instruction::AdvanceStackPtr(STACK_SIZE + 1), Instruction::Exit]);
    assert_eq!(result, Err(VmError::StackOverflow));
}

#[test]
fn retract_below_bottom_faults() {
    let (_, result, _) = run_traced(vec![Instruction::RetractStackPtr(1), Instruction::Exit]);
    assert_eq!(result, Err(VmError::StackUnderflow));
}

#[test]
fn misaligned_read_base_faults() {
    let (_, result, _) = run_traced(vec![
        Instruction::AdvanceStackPtr(4),
        Instruction::ReadBase(1, IntSize::TwoByte),
        Instruction::Exit,
    ]);
    assert_eq!(result, Err(VmError::Misaligned));
}

#[test]
fn read_base_below_bottom_faults() {
    let (_, result, _) = run_traced(vec![Instruction::ReadBase(-2, IntSize::TwoByte), Instruction::Exit]);
    assert_eq!(result, Err(VmError::StackUnderflow));
}

#[test]
fn misaligned_push_faults() {
    let (_, result, _) = run_traced(vec![
        Instruction::PushConstant(Constant::OneByte(1)),
        Instruction::PushConstant(Constant::FourByte(2)),
        Instruction::Exit,
    ]);
    assert_eq!(result, Err(VmError::Misaligned));
}

#[test]
fn unsigned_division_by_zero_faults() {
    let (_, result, _) = run_traced(vec![
        Instruction::PushConstant(Constant::FourByte(10)),
        Instruction::PushConstant(Constant::FourByte(0)),
        Instruction::IntegerBinaryOperation(IntegerBinaryOperation::UnsignedDivision, IntSize::FourByte),
        Instruction::Exit,
    ]);
    assert_eq!(result, Err(VmError::DivisionByZero));
}

#[test]
fn running_off_the_program_faults() {
    let (_, result, _) = run_traced(vec![Instruction::PushConstant(Constant::OneByte(3))]);
    assert_eq!(result, Err(VmError::InstructionOutOfRange));
}

#[test]
fn values_printed_before_a_fault_are_kept() {
    let (_, result, out) = run_traced(vec![
        Instruction::PushConstant(Constant::OneByte(9)),
        Instruction::DebugPrintUnsigned(IntSize::OneByte),
        Instruction::RetractStackPtr(2),
        Instruction::Exit,
    ]);
    assert_eq!(result, Err(VmError::StackUnderflow));
    assert_eq!(out, vec![9]);
}

#[test]
fn debug_print_is_silent_without_tracing() {
    let program = vec![
        Instruction::AdvanceStackPtr(4),
        Instruction::PushConstant(Constant::OneByte(1)),
        Instruction::DebugPrintUnsigned(IntSize::FourByte),
        Instruction::Exit,
    ];
    let mut rt = Runtime::new(program.clone());
    assert_eq!(rt.run(), Ok(()));
    assert_eq!(rt.stack_pointer(), 5);
    let (_, traced, _) = run_traced(program);
    assert_eq!(traced, Err(VmError::Misaligned));
}

#[test]
fn duplicate_then_retract_moving_keeps_top_cell() {
    let (rt, result, out) = run_traced(vec![
        Instruction::PushConstant(Constant::TwoByte(0x1234)),
        Instruction::Duplicate(IntSize::TwoByte),
        Instruction::RetractMoving(2, IntSize::TwoByte),
        Instruction::DebugPrintUnsigned(IntSize::TwoByte),
        Instruction::Exit,
    ]);
    assert_eq!(result, Ok(()));
    assert_eq!(out, vec![0x1234]);
    assert_eq!(rt.stack_pointer(), 2);
}

#[test]
fn write_then_read_base_gives_the_constant() {
    let (rt, result, out) = run_traced(vec![
        Instruction::AdvanceStackPtr(16),
        Instruction::PushConstant(Constant::EightByte(0x0102_0304_0506_0708)),
        Instruction::WriteBase(8, IntSize::EightByte),
        Instruction::ReadBase(8, IntSize::EightByte),
        Instruction::DebugPrintUnsigned(IntSize::EightByte),
        Instruction::Exit,
    ]);
    assert_eq!(result, Ok(()));
    assert_eq!(out, vec![0x0102_0304_0506_0708]);
    assert_eq!(rt.stack_pointer(), 24);
}

#[test]
fn cells_are_little_endian() {
    let (rt, result, _) = run_traced(vec![
        Instruction::PushConstant(Constant::FourByte(0x1122_3344)),
        Instruction::Exit,
    ]);
    assert_eq!(result, Ok(()));
    assert_eq!(rt.cell(0, IntSize::OneByte), Some(0x44));
    assert_eq!(rt.cell(3, IntSize::OneByte), Some(0x11));
    assert_eq!(rt.cell(2, IntSize::TwoByte), Some(0x1122));
}

#[test]
fn callee_returns_value_below_its_frame() {
    let (rt, result, out) = run_traced(vec![
        Instruction::AdvanceStackPtr(8),
        Instruction::Call(4),
        Instruction::DebugPrintUnsigned(IntSize::FourByte),
        Instruction::Exit,
        Instruction::PushConstant(Constant::FourByte(77)),
        Instruction::WriteBase(-4, IntSize::FourByte),
        Instruction::Return,
    ]);
    assert_eq!(result, Ok(()));
    assert_eq!(out, vec![77]);
    assert_eq!(rt.base_pointer(), 0);
    assert_eq!(rt.stack_pointer(), 8);
    assert_eq!(rt.instruction_index(), 4);
}

#[test]
fn nested_calls_restore_each_frame() {
    let (rt, result, out) = run_traced(vec![
        Instruction::Call(3),
        Instruction::PushConstant(Constant::OneByte(1)),
        Instruction::Exit,
        Instruction::Call(5),
        Instruction::Return,
        Instruction::PushConstant(Constant::EightByte(5)),
        Instruction::DebugPrintUnsigned(IntSize::EightByte),
        Instruction::Return,
    ]);
    assert_eq!(result, Ok(()));
    assert_eq!(out, vec![5]);
    assert_eq!(rt.base_pointer(), 0);
    assert_eq!(rt.stack_pointer(), 1);
}

#[test]
fn new_runtime_is_halted_at_zero() {
    let rt = Runtime::new(vec![Instruction::Exit]);
    assert_eq!(rt.instruction_index(), 0);
    assert_eq!(rt.stack_pointer(), 0);
    assert_eq!(rt.base_pointer(), 0);
    assert!(!rt.is_running());
    assert_eq!(rt.cell(100, IntSize::EightByte), Some(0));
}
