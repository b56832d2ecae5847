//! Bytes as digits and separators, and the arithmetic of num_traits on the
//! primitive integer types.

use crate::fixed::FixedInt;
use num_traits::{CheckedAdd, CheckedMul, FromPrimitive, ToPrimitive, Zero};
use vstd::prelude::*;

verus! {

/// Whether `byte` is an ASCII digit.
pub open spec fn is_digit(byte: u8) -> bool {
    0x30 <= byte <= 0x39
}

/// Whether `byte` separates values: space, tab, line feed, vertical tab, form
/// feed or carriage return.
pub open spec fn is_blank(byte: u8) -> bool {
    byte == 0x20 || 0x09 <= byte <= 0x0d
}

/// Says whether `byte` separates values.
pub fn is_whitespace(byte: u8) -> (blank: bool)
    ensures
        blank == is_blank(byte),
{
    byte == 0x20 || (0x09 <= byte && byte <= 0x0d)
}

/// The value of an ASCII digit; nothing for any other byte.
pub fn to_digit(val: u8) -> (digit: Option<i8>)
    ensures
        is_digit(val) ==> digit == Some((val - 0x30) as i8),
        !is_digit(val) ==> digit is None,
{
    if 0x30 <= val && val <= 0x39 {
        Some((val - 0x30) as i8)
    } else {
        None
    }
}

/// `Zero::zero` of num_traits, which for a primitive integer type is the
/// literal `0`.
#[verifier::external_body]
pub(crate) fn zero<T: FixedInt + Zero>() -> (num: T)
    ensures
        num.as_int() == 0,
{
    T::zero()
}

/// `FromPrimitive::from_i8` of num_traits: the value of `val` in the type `T`
/// where `T` can hold it, and nothing where it cannot.
#[verifier::external_body]
pub(crate) fn from_i8<T: FixedInt + FromPrimitive>(val: i8) -> (num: Option<T>)
    ensures
        num is Some <==> T::lowest() <= val <= T::highest(),
        num is Some ==> num->0.as_int() == val,
{
    T::from_i8(val)
}

/// `CheckedMul::checked_mul` of num_traits: the product where the type can
/// hold it, and nothing where it cannot.
#[verifier::external_body]
pub(crate) fn checked_mul<T: FixedInt + CheckedMul>(a: &T, b: &T) -> (product: Option<T>)
    ensures
        product is Some <==> T::lowest() <= a.as_int() * b.as_int() <= T::highest(),
        product is Some ==> product->0.as_int() == a.as_int() * b.as_int(),
{
    a.checked_mul(b)
}

/// `CheckedAdd::checked_add` of num_traits: the sum where the type can hold
/// it, and nothing where it cannot.
#[verifier::external_body]
pub(crate) fn checked_add<T: FixedInt + CheckedAdd>(a: &T, b: &T) -> (sum: Option<T>)
    ensures
        sum is Some <==> T::lowest() <= a.as_int() + b.as_int() <= T::highest(),
        sum is Some ==> sum->0.as_int() == a.as_int() + b.as_int(),
{
    a.checked_add(b)
}

/// `ToPrimitive::to_usize` of num_traits: the value as a `usize` where a
/// `usize` can hold it, and nothing where it cannot.
#[verifier::external_body]
pub(crate) fn to_usize<N: FixedInt + ToPrimitive>(n: &N) -> (count: Option<usize>)
    ensures
        count is Some <==> 0 <= n.as_int() <= usize::MAX,
        count is Some ==> count->0 == n.as_int(),
{
    n.to_usize()
}

/// A small number in the type `T`.
pub fn small_value_to_num<T: FixedInt + FromPrimitive>(val: i8) -> (num: T)
    requires
        T::lowest() <= val <= T::highest(),
    ensures
        num.as_int() == val,
{
    from_i8::<T>(val).unwrap()
}

} // verus!
