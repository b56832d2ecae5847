//! The primitive integer types as ranges of the integers.

use crate::sealed::Sealed;
use vstd::prelude::*;

verus! {

/// A primitive integer type, seen as a range of the integers.
///
/// The trait is implemented for the twelve primitive integer types and cannot
/// be implemented outside this crate: what is said here of the arithmetic of
/// num_traits on a `FixedInt` is said of these twelve types.
pub trait FixedInt: Sized + Sealed {
    /// The integer that a value of the type stands for.
    spec fn as_int(&self) -> int;

    /// The least value of the type.
    spec fn lowest() -> int;

    /// The greatest value of the type.
    spec fn highest() -> int;

    /// Every value lies within the range of its type.
    proof fn lemma_within(&self)
        ensures
            Self::lowest() <= self.as_int() <= Self::highest(),
    ;

    /// Every type holds at least what `i8` or `u8` holds.
    proof fn lemma_range()
        ensures
            Self::lowest() == 0 || Self::lowest() <= -128,
            127 <= Self::highest(),
    ;
}

impl FixedInt for u8 {
    open spec fn as_int(&self) -> int {
        *self as int
    }

    open spec fn lowest() -> int {
        u8::MIN as int
    }

    open spec fn highest() -> int {
        u8::MAX as int
    }

    proof fn lemma_within(&self) {
    }

    proof fn lemma_range() {
    }
}

impl FixedInt for u16 {
    open spec fn as_int(&self) -> int {
        *self as int
    }

    open spec fn lowest() -> int {
        u16::MIN as int
    }

    open spec fn highest() -> int {
        u16::MAX as int
    }

    proof fn lemma_within(&self) {
    }

    proof fn lemma_range() {
    }
}

impl FixedInt for u32 {
    open spec fn as_int(&self) -> int {
        *self as int
    }

    open spec fn lowest() -> int {
        u32::MIN as int
    }

    open spec fn highest() -> int {
        u32::MAX as int
    }

    proof fn lemma_within(&self) {
    }

    proof fn lemma_range() {
    }
}

impl FixedInt for u64 {
    open spec fn as_int(&self) -> int {
        *self as int
    }

    open spec fn lowest() -> int {
        u64::MIN as int
    }

    open spec fn highest() -> int {
        u64::MAX as int
    }

    proof fn lemma_within(&self) {
    }

    proof fn lemma_range() {
    }
}

impl FixedInt for u128 {
    open spec fn as_int(&self) -> int {
        *self as int
    }

    open spec fn lowest() -> int {
        u128::MIN as int
    }

    open spec fn highest() -> int {
        u128::MAX as int
    }

    proof fn lemma_within(&self) {
    }

    proof fn lemma_range() {
    }
}

impl FixedInt for usize {
    open spec fn as_int(&self) -> int {
        *self as int
    }

    open spec fn lowest() -> int {
        usize::MIN as int
    }

    open spec fn highest() -> int {
        usize::MAX as int
    }

    proof fn lemma_within(&self) {
    }

    proof fn lemma_range() {
    }
}

impl FixedInt for i8 {
    open spec fn as_int(&self) -> int {
        *self as int
    }

    open spec fn lowest() -> int {
        i8::MIN as int
    }

    open spec fn highest() -> int {
        i8::MAX as int
    }

    proof fn lemma_within(&self) {
    }

    proof fn lemma_range() {
    }
}

impl FixedInt for i16 {
    open spec fn as_int(&self) -> int {
        *self as int
    }

    open spec fn lowest() -> int {
        i16::MIN as int
    }

    open spec fn highest() -> int {
        i16::MAX as int
    }

    proof fn lemma_within(&self) {
    }

    proof fn lemma_range() {
    }
}

impl FixedInt for i32 {
    open spec fn as_int(&self) -> int {
        *self as int
    }

    open spec fn lowest() -> int {
        i32::MIN as int
    }

    open spec fn highest() -> int {
        i32::MAX as int
    }

    proof fn lemma_within(&self) {
    }

    proof fn lemma_range() {
    }
}

impl FixedInt for i64 {
    open spec fn as_int(&self) -> int {
        *self as int
    }

    open spec fn lowest() -> int {
        i64::MIN as int
    }

    open spec fn highest() -> int {
        i64::MAX as int
    }

    proof fn lemma_within(&self) {
    }

    proof fn lemma_range() {
    }
}

impl FixedInt for i128 {
    open spec fn as_int(&self) -> int {
        *self as int
    }

    open spec fn lowest() -> int {
        i128::MIN as int
    }

    open spec fn highest() -> int {
        i128::MAX as int
    }

    proof fn lemma_within(&self) {
    }

    proof fn lemma_range() {
    }
}

impl FixedInt for isize {
    open spec fn as_int(&self) -> int {
        *self as int
    }

    open spec fn lowest() -> int {
        isize::MIN as int
    }

    open spec fn highest() -> int {
        isize::MAX as int
    }

    proof fn lemma_within(&self) {
    }

    proof fn lemma_range() {
    }
}

} // verus!
