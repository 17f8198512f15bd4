//! The instruction set: operand widths, constants, operators and opcodes.

use vstd::prelude::*;

verus! {

/// The width of a stack cell in bytes, which is also its required alignment.
#[derive(Clone, Copy, Debug, PartialEq, Eq, Structural)]
pub enum IntSize {
    OneByte,
    TwoByte,
    FourByte,
    EightByte,
}

/// An immediate operand: an unsigned payload of one of the four widths.
#[derive(Clone, Copy, Debug, PartialEq, Eq, Structural)]
pub enum Constant {
    OneByte(u8),
    TwoByte(u16),
    FourByte(u32),
    EightByte(u64),
}

#[derive(Clone, Copy, Debug, PartialEq, Eq, Structural)]
pub enum IntegerBinaryOperation {
    UnsignedAddition,
    SignedAddition,
    UnsignedSubtraction,
    SignedSubtraction,
    UnsignedMultiplication,
    SignedMultiplication,
    UnsignedDivision,
    SignedDivision,
}

#[derive(Clone, Copy, Debug, PartialEq, Eq, Structural)]
pub enum IntegerUnaryOperation {
    NegateSigned,
}

/// One opcode with its operands. Offsets are signed byte displacements from
/// the base pointer; call targets are absolute instruction indices.
#[derive(Clone, Copy, Debug, PartialEq, Eq, Structural)]
pub enum Instruction {
    IntegerBinaryOperation(IntegerBinaryOperation, IntSize),
    UnaryOperation(IntegerUnaryOperation, IntSize),
    AdvanceStackPtr(usize),
    RetractStackPtr(usize),
    RetractMoving(usize, IntSize),
    Duplicate(IntSize),
    PushConstant(Constant),
    DebugPrintUnsigned(IntSize),
    ReadBase(isize, IntSize),
    WriteBase(isize, IntSize),
    Call(usize),
    Return,
    Exit,
}

/// Number of bytes in a cell of this size.
pub open spec fn width(size: IntSize) -> nat {
    match size {
        IntSize::OneByte => 1,
        IntSize::TwoByte => 2,
        IntSize::FourByte => 4,
        IntSize::EightByte => 8,
    }
}

/// Number of distinct bit patterns of a cell of this size, `2^(8 * width)`.
pub open spec fn modulus(size: IntSize) -> nat {
    match size {
        IntSize::OneByte => 0x100,
        IntSize::TwoByte => 0x1_0000,
        IntSize::FourByte => 0x1_0000_0000,
        IntSize::EightByte => 0x1_0000_0000_0000_0000,
    }
}

/// The size of a constant.
pub open spec fn constant_size(c: Constant) -> IntSize {
    match c {
        Constant::OneByte(_) => IntSize::OneByte,
        Constant::TwoByte(_) => IntSize::TwoByte,
        Constant::FourByte(_) => IntSize::FourByte,
        Constant::EightByte(_) => IntSize::EightByte,
    }
}

/// The unsigned value a constant carries.
pub open spec fn constant_value(c: Constant) -> nat {
    match c {
        Constant::OneByte(v) => v as nat,
        Constant::TwoByte(v) => v as nat,
        Constant::FourByte(v) => v as nat,
        Constant::EightByte(v) => v as nat,
    }
}

impl IntSize {
    /// Number of bytes in a cell of this size.
    pub fn bytes(self) -> (r: usize)
        ensures
            r as nat == width(self),
    {
        match self {
            IntSize::OneByte => 1,
            IntSize::TwoByte => 2,
            IntSize::FourByte => 4,
            IntSize::EightByte => 8,
        }
    }
}

impl Constant {
    /// The size of this constant.
    pub fn size(self) -> (r: IntSize)
        ensures
            r == constant_size(self),
    {
        match self {
            Constant::OneByte(_) => IntSize::OneByte,
            Constant::TwoByte(_) => IntSize::TwoByte,
            Constant::FourByte(_) => IntSize::FourByte,
            Constant::EightByte(_) => IntSize::EightByte,
        }
    }

    /// The unsigned value this constant carries, widened to 64 bits.
    pub fn value(self) -> (r: u64)
        ensures
            r as nat == constant_value(self),
            (r as nat) < modulus(constant_size(self)),
    {
        match self {
            Constant::OneByte(v) => v as u64,
            Constant::TwoByte(v) => v as u64,
            Constant::FourByte(v) => v as u64,
            Constant::EightByte(v) => v,
        }
    }
}

} // verus!
