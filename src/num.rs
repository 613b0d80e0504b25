//! Numbers as IEEE-754 binary64 bit patterns.
//!
//! The library never computes with floating point itself: a constant is held
//! as the bit pattern of its double, and every arithmetic step is handed to a
//! caller-supplied function of type `Fn(NumOp, u64, u64) -> u64` (an
//! "arithmetic back end").  What the symbolic logic reads of a number
//! (is it zero, is it one, are two numbers equal, is it close to e) is decided
//! here on the bits.
use vstd::prelude::*;

verus! {

/// Bits of `0.0`.
pub const ZERO: u64 = 0;
/// Bits of `-0.0`.
pub const NEG_ZERO: u64 = 0x8000_0000_0000_0000;
/// Bits of `1.0`.
pub const ONE: u64 = 0x3FF0_0000_0000_0000;
/// Bits of `-1.0`.
pub const NEG_ONE: u64 = 0xBFF0_0000_0000_0000;
/// Bits of `2.0`.
pub const TWO: u64 = 0x4000_0000_0000_0000;
/// Bits of `0.5`.
pub const HALF: u64 = 0x3FE0_0000_0000_0000;
/// Bits of the double nearest to Euler's number.
pub const E: u64 = 0x4005_BF0A_8B14_5769;
/// Bits of the double nearest to pi.
pub const PI: u64 = 0x4009_21FB_5444_2D18;
/// Doubles in `[2, 4)` are `2^-51` apart, so the doubles strictly within
/// `1e-12` of `e` are those at most this many steps away from `E`.
pub const E_STEPS: u64 = 2251;

/// The primitive operations that an arithmetic back end performs.
///
/// Binary operations take both operands; the unary ones read the first and
/// ignore the second.  `Log` computes the logarithm of its second operand to
/// the base given by the first.  `FromInt` converts the integer held in its
/// first operand to the bits of the nearest double.
#[derive(Clone, Copy, Debug, PartialEq, Eq, Structural)]
pub enum NumOp {
    Add,
    Sub,
    Mul,
    Div,
    Pow,
    Log,
    Sin,
    Cos,
    Tan,
    Asin,
    Acos,
    Atan,
    FromInt,
}

/// The value that the back end `f` gives for `op` on `a` and `b`.
pub open spec fn num_result<F: Fn(NumOp, u64, u64) -> u64>(f: F, op: NumOp, a: u64, b: u64) -> u64 {
    choose|r: u64| f.ensures((op, a, b), r)
}

/// `f` can be called on every input and is a function of its inputs.
pub open spec fn is_arith<F: Fn(NumOp, u64, u64) -> u64>(f: F) -> bool {
    &&& forall|op: NumOp, a: u64, b: u64| #[trigger] f.requires((op, a, b))
    &&& forall|op: NumOp, a: u64, b: u64, r: u64|
        #[trigger] f.ensures((op, a, b), r) ==> r == num_result(f, op, a, b)
}

/// Calls the back end.
pub fn apply<F: Fn(NumOp, u64, u64) -> u64>(f: &F, op: NumOp, a: u64, b: u64) -> (r: u64)
    requires
        is_arith(*f),
    ensures
        r == num_result(*f, op, a, b),
{
    f(op, a, b)
}

/// `bits` is `0.0` or `-0.0`.
pub open spec fn is_zero_spec(bits: u64) -> bool {
    bits == ZERO || bits == NEG_ZERO
}

/// `bits` is `1.0`.
pub open spec fn is_one_spec(bits: u64) -> bool {
    bits == ONE
}

/// `bits` is a NaN: all exponent bits set and a nonzero fraction.
pub open spec fn is_nan_spec(bits: u64) -> bool {
    bits % NEG_ZERO > 0x7FF0_0000_0000_0000
}

/// IEEE-754 equality: the two zeros are equal, a NaN equals nothing, and
/// every other value equals exactly itself.
pub open spec fn num_eq_spec(a: u64, b: u64) -> bool {
    (is_zero_spec(a) && is_zero_spec(b)) || (a == b && !is_nan_spec(a))
}

/// `bits` lies strictly within `1e-12` of Euler's number.
pub open spec fn near_e_spec(bits: u64) -> bool {
    E - E_STEPS <= bits <= E + E_STEPS
}

pub fn is_zero(bits: u64) -> (r: bool)
    ensures
        r == is_zero_spec(bits),
{
    bits == ZERO || bits == NEG_ZERO
}

pub fn is_one(bits: u64) -> (r: bool)
    ensures
        r == is_one_spec(bits),
{
    bits == ONE
}

pub fn is_nan(bits: u64) -> (r: bool)
    ensures
        r == is_nan_spec(bits),
{
    bits % NEG_ZERO > 0x7FF0_0000_0000_0000
}

pub fn num_eq(a: u64, b: u64) -> (r: bool)
    ensures
        r == num_eq_spec(a, b),
{
    (is_zero(a) && is_zero(b)) || (a == b && !is_nan(a))
}

pub fn near_e(bits: u64) -> (r: bool)
    ensures
        r == near_e_spec(bits),
{
    E - E_STEPS <= bits && bits <= E + E_STEPS
}

} // verus!
