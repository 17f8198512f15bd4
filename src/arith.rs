//! Sized integer arithmetic on cell bit patterns: unsigned operations modulo
//! `2^(8 * width)`, and signed ones through two's-complement reinterpretation.

use vstd::prelude::*;
use vstd::arithmetic::div_mod::{
    lemma_add_mod_noop,
    lemma_sub_mod_noop,
    lemma_mul_mod_noop,
    lemma_mod_multiples_vanish,
    lemma_small_mod,
    lemma_mod_bound,
};
use crate::instructions::{IntSize, IntegerBinaryOperation, IntegerUnaryOperation, modulus};

verus! {

/// The bit pattern `v` read as a two's-complement signed integer of the size.
pub open spec fn to_signed(size: IntSize, v: nat) -> int {
    if 2 * v >= modulus(size) {
        v - modulus(size)
    } else {
        v as int
    }
}

/// The bit pattern of `x` at the size: `x` reduced modulo `2^(8 * width)`.
pub open spec fn wrap(size: IntSize, x: int) -> nat {
    (x % (modulus(size) as int)) as nat
}

pub open spec fn abs(x: int) -> nat {
    if x < 0 {
        (-x) as nat
    } else {
        x as nat
    }
}

/// Integer division rounding toward zero.
pub open spec fn trunc_div(a: int, b: int) -> int {
    let q = (abs(a) / abs(b)) as int;
    if (a < 0) == (b < 0) {
        q
    } else {
        -q
    }
}

pub open spec fn is_division(op: IntegerBinaryOperation) -> bool {
    op == IntegerBinaryOperation::UnsignedDivision || op == IntegerBinaryOperation::SignedDivision
}

/// The bit pattern that `op` at `size` yields on the bit patterns `l` (left)
/// and `r` (right).
pub open spec fn binary_result(op: IntegerBinaryOperation, size: IntSize, l: nat, r: nat) -> nat {
    let a = to_signed(size, l);
    let b = to_signed(size, r);
    match op {
        IntegerBinaryOperation::UnsignedAddition => wrap(size, (l + r) as int),
        IntegerBinaryOperation::SignedAddition => wrap(size, a + b),
        IntegerBinaryOperation::UnsignedSubtraction => wrap(size, l - r),
        IntegerBinaryOperation::SignedSubtraction => wrap(size, a - b),
        IntegerBinaryOperation::UnsignedMultiplication => wrap(size, (l * r) as int),
        IntegerBinaryOperation::SignedMultiplication => wrap(size, a * b),
        IntegerBinaryOperation::UnsignedDivision => l / r,
        IntegerBinaryOperation::SignedDivision => wrap(size, trunc_div(a, b)),
    }
}

/// The bit pattern that `op` at `size` yields on the bit pattern `v`.
pub open spec fn unary_result(op: IntegerUnaryOperation, size: IntSize, v: nat) -> nat {
    match op {
        IntegerUnaryOperation::NegateSigned => wrap(size, -to_signed(size, v)),
    }
}

/// `2^(8 * width)` of the size.
pub fn modulus_of(size: IntSize) -> (r: u128)
    ensures
        r as nat == modulus(size),
{
    match size {
        IntSize::OneByte => 0x100,
        IntSize::TwoByte => 0x1_0000,
        IntSize::FourByte => 0x1_0000_0000,
        IntSize::EightByte => 0x1_0000_0000_0000_0000,
    }
}

/// A bit pattern and its signed reading agree modulo `2^(8 * width)`.
pub proof fn lemma_to_signed_congruent(size: IntSize, v: nat)
    requires
        v < modulus(size),
    ensures
        to_signed(size, v) % (modulus(size) as int) == v,
        -(modulus(size) as int) <= 2 * to_signed(size, v) < modulus(size),
{
    let m = modulus(size) as int;
    lemma_small_mod(v, m as nat);
    if 2 * v >= m {
        lemma_mod_multiples_vanish(-1, v as int, m);
    }
}

/// `-x` wraps to `(m - x) % m`.
proof fn lemma_wrap_negate(size: IntSize, x: int)
    ensures
        wrap(size, -x) == wrap(size, modulus(size) - x),
{
    lemma_mod_multiples_vanish(1, -x, modulus(size) as int);
}

/// Signed and unsigned addition, subtraction and multiplication give the same
/// bit pattern on every pair of bit patterns.
pub proof fn lemma_signed_unsigned_agree(size: IntSize, l: nat, r: nat)
    requires
        l < modulus(size),
        r < modulus(size),
    ensures
        binary_result(IntegerBinaryOperation::SignedAddition, size, l, r) == binary_result(
            IntegerBinaryOperation::UnsignedAddition,
            size,
            l,
            r,
        ),
        binary_result(IntegerBinaryOperation::SignedSubtraction, size, l, r) == binary_result(
            IntegerBinaryOperation::UnsignedSubtraction,
            size,
            l,
            r,
        ),
        binary_result(IntegerBinaryOperation::SignedMultiplication, size, l, r) == binary_result(
            IntegerBinaryOperation::UnsignedMultiplication,
            size,
            l,
            r,
        ),
{
    let m = modulus(size) as int;
    let a = to_signed(size, l);
    let b = to_signed(size, r);
    lemma_to_signed_congruent(size, l);
    lemma_to_signed_congruent(size, r);
    lemma_add_mod_noop(a, b, m);
    lemma_add_mod_noop(l as int, r as int, m);
    lemma_sub_mod_noop(a, b, m);
    lemma_sub_mod_noop(l as int, r as int, m);
    lemma_mul_mod_noop(a, b, m);
    lemma_mul_mod_noop(l as int, r as int, m);
    lemma_small_mod(l, m as nat);
    lemma_small_mod(r, m as nat);
}

/// Every result is a bit pattern of the size. Addition, subtraction and
/// multiplication give the mathematical result reduced modulo `2^(8 * width)`
/// on the unsigned readings, and on the signed readings the one value of the
/// signed range congruent to the mathematical result.
pub proof fn lemma_overflow_wraps(op: IntegerBinaryOperation, size: IntSize, l: nat, r: nat)
    requires
        l < modulus(size),
        r < modulus(size),
        is_division(op) ==> r != 0,
    ensures
        binary_result(op, size, l, r) < modulus(size),
        op == IntegerBinaryOperation::UnsignedAddition ==> binary_result(op, size, l, r) as int
            == (l + r) as int % (modulus(size) as int),
        op == IntegerBinaryOperation::UnsignedSubtraction ==> binary_result(op, size, l, r) as int
            == (l - r) % (modulus(size) as int),
        op == IntegerBinaryOperation::UnsignedMultiplication ==> binary_result(op, size, l, r) as int
            == (l * r) as int % (modulus(size) as int),
        ({
            let res = to_signed(size, binary_result(op, size, l, r));
            let a = to_signed(size, l);
            let b = to_signed(size, r);
            &&& -(modulus(size) as int) <= 2 * res < modulus(size)
            &&& op == IntegerBinaryOperation::SignedAddition ==> (res - (a + b)) % (modulus(
                size,
            ) as int) == 0
            &&& op == IntegerBinaryOperation::SignedSubtraction ==> (res - (a - b)) % (modulus(
                size,
            ) as int) == 0
            &&& op == IntegerBinaryOperation::SignedMultiplication ==> (res - a * b) % (modulus(
                size,
            ) as int) == 0
        }),
{
    let m = modulus(size) as int;
    let a = to_signed(size, l);
    let b = to_signed(size, r);
    let v = binary_result(op, size, l, r);
    lemma_result_bound(op, size, l, r);
    lemma_to_signed_congruent(size, v);
    let res = to_signed(size, v);
    lemma_sub_mod_noop(res, a + b, m);
    lemma_sub_mod_noop(res, a - b, m);
    lemma_sub_mod_noop(res, a * b, m);
    vstd::arithmetic::div_mod::lemma_mod_twice(a + b, m);
    vstd::arithmetic::div_mod::lemma_mod_twice(a - b, m);
    vstd::arithmetic::div_mod::lemma_mod_twice(a * b, m);
    vstd::arithmetic::div_mod::lemma_mod_self_0(m);
}

/// Every result is a bit pattern of the size.
pub proof fn lemma_result_bound(op: IntegerBinaryOperation, size: IntSize, l: nat, r: nat)
    requires
        l < modulus(size),
        r < modulus(size),
        is_division(op) ==> r != 0,
    ensures
        binary_result(op, size, l, r) < modulus(size),
{
    let m = modulus(size) as int;
    let a = to_signed(size, l);
    let b = to_signed(size, r);
    lemma_mod_bound((l + r) as int, m);
    lemma_mod_bound(a + b, m);
    lemma_mod_bound(l - r, m);
    lemma_mod_bound(a - b, m);
    lemma_mod_bound((l * r) as int, m);
    lemma_mod_bound(a * b, m);
    lemma_mod_bound(trunc_div(a, b), m);
    if op == IntegerBinaryOperation::UnsignedDivision {
        assert(l / r <= l) by (nonlinear_arith)
            requires
                r >= 1,
        ;
    }
}

/// Evaluates `op` at `size` on the bit patterns `l` (left) and `r` (right).
pub fn binary_operation(op: IntegerBinaryOperation, size: IntSize, l: u64, r: u64) -> (res: u64)
    requires
        (l as nat) < modulus(size),
        (r as nat) < modulus(size),
        is_division(op) ==> r != 0,
    ensures
        res as nat == binary_result(op, size, l as nat, r as nat),
{
    let m = modulus_of(size);
    let lw = l as u128;
    let rw = r as u128;
    proof {
        lemma_signed_unsigned_agree(size, l as nat, r as nat);
        lemma_result_bound(op, size, l as nat, r as nat);
    }
    let res: u128 = match op {
        IntegerBinaryOperation::UnsignedAddition | IntegerBinaryOperation::SignedAddition => {
            (lw + rw) % m
        },
        IntegerBinaryOperation::UnsignedSubtraction | IntegerBinaryOperation::SignedSubtraction => {
            proof {
                lemma_mod_multiples_vanish(1, l - r, m as int);
            }
            (lw + m - rw) % m
        },
        IntegerBinaryOperation::UnsignedMultiplication
        | IntegerBinaryOperation::SignedMultiplication => {
            assert(lw * rw <= 0xffff_ffff_ffff_ffff * 0xffff_ffff_ffff_ffff) by (nonlinear_arith)
                requires
                    lw <= 0xffff_ffff_ffff_ffff,
                    rw <= 0xffff_ffff_ffff_ffff,
            ;
            (lw * rw) % m
        },
        IntegerBinaryOperation::UnsignedDivision => lw / rw,
        IntegerBinaryOperation::SignedDivision => signed_division(size, lw, rw),
    };
    res as u64
}

/// Two's-complement division of the bit patterns `l` by `r`, rounding toward
/// zero; the one quotient that leaves the signed range wraps.
fn signed_division(size: IntSize, l: u128, r: u128) -> (res: u128)
    requires
        (l as nat) < modulus(size),
        0 < r < modulus(size),
    ensures
        res as nat == wrap(size, trunc_div(to_signed(size, l as nat), to_signed(size, r as nat))),
{
    let m = modulus_of(size);
    let half = m / 2;
    let l_negative = l >= half;
    let r_negative = r >= half;
    let l_abs = if l_negative { m - l } else { l };
    let r_abs = if r_negative { m - r } else { r };
    let a = Ghost(to_signed(size, l as nat));
    let b = Ghost(to_signed(size, r as nat));
    assert(l_abs as nat == abs(a@) && (a@ < 0) == l_negative);
    assert(r_abs as nat == abs(b@) && (b@ < 0) == r_negative);
    let q = l_abs / r_abs;
    assert(q <= l_abs) by (nonlinear_arith)
        requires
            r_abs >= 1,
            q == l_abs / r_abs,
    ;
    proof {
        lemma_small_mod(q as nat, m as nat);
        lemma_wrap_negate(size, q as int);
    }
    if l_negative != r_negative {
        (m - q) % m
    } else {
        q % m
    }
}

/// Evaluates `op` at `size` on the bit pattern `v`.
pub fn unary_operation(op: IntegerUnaryOperation, size: IntSize, v: u64) -> (res: u64)
    requires
        (v as nat) < modulus(size),
    ensures
        res as nat == unary_result(op, size, v as nat),
{
    let m = modulus_of(size);
    match op {
        IntegerUnaryOperation::NegateSigned => {
            proof {
                let x = to_signed(size, v as nat);
                lemma_wrap_negate(size, v as int);
                lemma_mod_multiples_vanish(-1, modulus(size) - v, modulus(size) as int);
                lemma_mod_bound(modulus(size) - v, modulus(size) as int);
            }
            (((m - v as u128) % m) as u64)
        },
    }
}

} // verus!
