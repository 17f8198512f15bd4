use nomvm::arith::{binary_operation, unary_operation};
use nomvm::instructions::{IntSize, IntegerBinaryOperation as Op, IntegerUnaryOperation};

const SIZES: [(IntSize, u64); 4] = [
    (IntSize::OneByte, 0xff),
    (IntSize::TwoByte, 0xffff),
    (IntSize::FourByte, 0xffff_ffff),
    (IntSize::EightByte, u64::MAX),
];

#[test]
fn signed_and_unsigned_agree_except_division() {
    for (size, max) in SIZES {
        let samples = [0, 1, 2, max / 2, max / 2 + 1, max - 1, max, 0x5a & max];
        for &a in &samples {
            for &b in &samples {
                assert_eq!(binary_operation(Op::SignedAddition, size, a, b), binary_operation(Op::UnsignedAddition, size, a, b));
                assert_eq!(binary_operation(Op::SignedSubtraction, size, a, b), binary_operation(Op::UnsignedSubtraction, size, a, b));
                assert_eq!(binary_operation(Op::SignedMultiplication, size, a, b), binary_operation(Op::UnsignedMultiplication, size, a, b));
            }
        }
    }
    assert_eq!(binary_operation(Op::UnsignedDivision, IntSize::OneByte, 0xfe, 0x02), 0x7f);
    assert_eq!(binary_operation(Op::SignedDivision, IntSize::OneByte, 0xfe, 0x02), 0xff);
}

#[test]
fn overflow_wraps_at_each_width() {
    assert_eq!(binary_operation(Op::UnsignedAddition, IntSize::OneByte, 0xff, 1), 0);
    assert_eq!(binary_operation(Op::UnsignedAddition, IntSize::FourByte, 0xffff_ffff, 2), 1);
    assert_eq!(binary_operation(Op::UnsignedAddition, IntSize::EightByte, u64::MAX, u64::MAX), u64::MAX - 1);
    assert_eq!(binary_operation(Op::UnsignedSubtraction, IntSize::TwoByte, 0, 1), 0xffff);
    assert_eq!(binary_operation(Op::UnsignedMultiplication, IntSize::TwoByte, 0x100, 0x100), 0);
    assert_eq!(binary_operation(Op::UnsignedMultiplication, IntSize::EightByte, u64::MAX, u64::MAX), 1);
    assert_eq!(binary_operation(Op::SignedAddition, IntSize::OneByte, 0x7f, 1), 0x80);
    assert_eq!(binary_operation(Op::SignedMultiplication, IntSize::FourByte, 0x8000_0000, 0xffff_ffff), 0x8000_0000);
}

#[test]
fn signed_division_truncates_toward_zero() {
    // -7 / 2 == -3
    assert_eq!(binary_operation(Op::SignedDivision, IntSize::OneByte, 0xf9, 0x02), 0xfd);
    // 7 / -2 == -3
    assert_eq!(binary_operation(Op::SignedDivision, IntSize::TwoByte, 7, 0xfffe), 0xfffd);
    // -7 / -2 == 3
    assert_eq!(binary_operation(Op::SignedDivision, IntSize::FourByte, 0xffff_fff9, 0xffff_fffe), 3);
    // the minimum divided by -1 wraps to itself
    assert_eq!(binary_operation(Op::SignedDivision, IntSize::OneByte, 0x80, 0xff), 0x80);
    assert_eq!(binary_operation(Op::SignedDivision, IntSize::EightByte, 1 << 63, u64::MAX), 1 << 63);
    assert_eq!(binary_operation(Op::UnsignedDivision, IntSize::EightByte, u64::MAX, 2), u64::MAX / 2);
}

#[test]
fn negation_at_each_width() {
    assert_eq!(unary_operation(IntegerUnaryOperation::NegateSigned, IntSize::OneByte, 1), 0xff);
    assert_eq!(unary_operation(IntegerUnaryOperation::NegateSigned, IntSize::OneByte, 0), 0);
    assert_eq!(unary_operation(IntegerUnaryOperation::NegateSigned, IntSize::OneByte, 0x80), 0x80);
    assert_eq!(unary_operation(IntegerUnaryOperation::NegateSigned, IntSize::TwoByte, 0xffff), 1);
    assert_eq!(unary_operation(IntegerUnaryOperation::NegateSigned, IntSize::EightByte, 5), u64::MAX - 4);
}
