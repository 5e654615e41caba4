//! Scalars of the network: IEEE-754 single-precision values carried as their
//! 32-bit patterns (`u32` codes).
//!
//! The library never touches machine floating point. Arithmetic on codes goes
//! through trusted wrappers over `rustc_apfloat`'s `Single` type, a software
//! implementation of IEEE-754 binary32 with round-to-nearest-even; what each
//! operation returns is given a name (`fadd`, `fsub`, `fmul`, `fdiv`,
//! `f32_of_usize`), a pure function of the operand codes. The rectifier and
//! its derivative are verified code over an exact bit-level comparison.

use rustc_apfloat::Float;
use vstd::prelude::*;

verus! {

/// The code of `+0.0`.
pub const POS_ZERO: u32 = 0x0000_0000;

/// The code of `-0.0`.
pub const NEG_ZERO: u32 = 0x8000_0000;

/// The code of `1.0`.
pub const ONE_CODE: u32 = 0x3F80_0000;

/// The exponent field of a code.
pub open spec fn exp_bits(c: u32) -> u32 {
    (c >> 23u32) & 0xFFu32
}

/// The fraction field of a code.
pub open spec fn frac_bits(c: u32) -> u32 {
    c & 0x007F_FFFFu32
}

/// Whether the sign bit of a code is set.
pub open spec fn sign_bit(c: u32) -> bool {
    c & 0x8000_0000u32 != 0
}

/// Whether a code denotes a NaN.
pub open spec fn is_nan_code(c: u32) -> bool {
    exp_bits(c) == 0xFFu32 && frac_bits(c) != 0
}

/// Whether a code denotes a finite value (neither an infinity nor a NaN).
pub open spec fn is_finite_code(c: u32) -> bool {
    exp_bits(c) != 0xFFu32
}

/// Whether a code denotes a zero of either sign.
pub open spec fn is_zero_code(c: u32) -> bool {
    c == POS_ZERO || c == NEG_ZERO
}

/// Whether a code denotes a value strictly greater than zero: not a NaN,
/// sign clear, magnitude nonzero.
pub open spec fn code_gt_zero(c: u32) -> bool {
    !is_nan_code(c) && !sign_bit(c) && c != POS_ZERO
}

/// The code of the sum of two codes.
pub uninterp spec fn fadd(a: u32, b: u32) -> u32;

/// The code of the difference of two codes.
pub uninterp spec fn fsub(a: u32, b: u32) -> u32;

/// The code of the product of two codes.
pub uninterp spec fn fmul(a: u32, b: u32) -> u32;

/// The code of the quotient of two codes.
pub uninterp spec fn fdiv(a: u32, b: u32) -> u32;

/// The code of the single-precision value nearest to an unsigned integer.
pub uninterp spec fn f32_of_usize(n: usize) -> u32;

/// Relies on `rustc_apfloat::ieee::Single`'s `+` operator (`Float::add_r`
/// with round-to-nearest-even): IEEE-754 single-precision addition on bit
/// patterns, a function of the two operand codes alone. The sum of `+0.0`
/// and a zero of either sign is `+0.0` under this rounding.
#[verifier::external_body]
pub(crate) fn fadd_c(a: u32, b: u32) -> (r: u32)
    ensures
        r == fadd(a, b),
        a == POS_ZERO && is_zero_code(b) ==> r == POS_ZERO,
{
    let x = rustc_apfloat::ieee::Single::from_bits(a as u128);
    let y = rustc_apfloat::ieee::Single::from_bits(b as u128);
    (x + y).value.to_bits() as u32
}

/// Relies on `rustc_apfloat::ieee::Single`'s `-` operator (`Float::sub_r`
/// with round-to-nearest-even): IEEE-754 single-precision subtraction on bit
/// patterns, a function of the two operand codes alone.
#[verifier::external_body]
pub(crate) fn fsub_c(a: u32, b: u32) -> (r: u32)
    ensures
        r == fsub(a, b),
{
    let x = rustc_apfloat::ieee::Single::from_bits(a as u128);
    let y = rustc_apfloat::ieee::Single::from_bits(b as u128);
    (x - y).value.to_bits() as u32
}

/// Relies on `rustc_apfloat::ieee::Single`'s `*` operator (`Float::mul_r`
/// with round-to-nearest-even): IEEE-754 single-precision multiplication on
/// bit patterns, a function of the two operand codes alone. A finite value
/// times a zero is a zero.
#[verifier::external_body]
pub(crate) fn fmul_c(a: u32, b: u32) -> (r: u32)
    ensures
        r == fmul(a, b),
        is_finite_code(a) && is_zero_code(b) ==> is_zero_code(r),
{
    let x = rustc_apfloat::ieee::Single::from_bits(a as u128);
    let y = rustc_apfloat::ieee::Single::from_bits(b as u128);
    (x * y).value.to_bits() as u32
}

/// Relies on `rustc_apfloat::ieee::Single`'s `/` operator (`Float::div_r`
/// with round-to-nearest-even): IEEE-754 single-precision division on bit
/// patterns, a function of the two operand codes alone.
#[verifier::external_body]
pub(crate) fn fdiv_c(a: u32, b: u32) -> (r: u32)
    ensures
        r == fdiv(a, b),
{
    let x = rustc_apfloat::ieee::Single::from_bits(a as u128);
    let y = rustc_apfloat::ieee::Single::from_bits(b as u128);
    (x / y).value.to_bits() as u32
}

/// Relies on `rustc_apfloat::Float::from_u128` on `Single` with
/// round-to-nearest-even: the conversion of an unsigned integer to the
/// nearest single-precision value, a function of the integer alone.
#[verifier::external_body]
pub(crate) fn f32_of_usize_c(n: usize) -> (r: u32)
    ensures
        r == f32_of_usize(n),
{
    rustc_apfloat::ieee::Single::from_u128(n as u128).value.to_bits() as u32
}

/// Relies on `rustc_apfloat::ieee::Single`'s `PartialOrd`: the IEEE-754
/// ordered comparison with `+0.0`, which holds exactly of the codes that are
/// not NaN, have the sign bit clear and a nonzero magnitude.
#[verifier::external_body]
pub(crate) fn gt_zero_c(a: u32) -> (r: bool)
    ensures
        r == code_gt_zero(a),
{
    let x = rustc_apfloat::ieee::Single::from_bits(a as u128);
    x > rustc_apfloat::Float::ZERO
}

/// The rectifier on codes: the input when strictly positive, else `+0.0`.
pub open spec fn relu_code(x: u32) -> u32 {
    if code_gt_zero(x) {
        x
    } else {
        POS_ZERO
    }
}

/// The rectifier's derivative on codes, taken as `1.0` on strictly positive
/// inputs and `0.0` elsewhere.
pub open spec fn relu_derivative_code(x: u32) -> u32 {
    if code_gt_zero(x) {
        ONE_CODE
    } else {
        POS_ZERO
    }
}

/// The activation function: `max(0, x)` on the values the codes denote.
/// A NaN or a negative zero comes out as `+0.0`.
pub fn relu(x: u32) -> (r: u32)
    ensures
        r == relu_code(x),
{
    if gt_zero_c(x) {
        x
    } else {
        POS_ZERO
    }
}

/// The activation function's derivative, used as the backward error gate.
pub fn relu_derivative(x: u32) -> (r: u32)
    ensures
        r == relu_derivative_code(x),
{
    if gt_zero_c(x) {
        ONE_CODE
    } else {
        POS_ZERO
    }
}

} // verus!
