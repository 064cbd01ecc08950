use crate::sealed::Sealed;
use vstd::prelude::*;

verus! {

/// Integer types that the kernel accepts for dimensions, offsets and
/// row and column numbers.
///
/// The contracts of this crate speak of an index through `as_int`, the
/// mathematical integer it stands for.
pub trait KluIndex: Sealed + Copy {
    /// The integer that this index stands for.
    spec fn as_int(self) -> int;

    /// The largest integer that the index type holds.
    spec fn max_int() -> int;

    /// The largest index is positive and fits 64 signed bits.
    proof fn lemma_max_int()
        ensures
            0 < Self::max_int() <= i64::MAX,
    ;

    /// Every index fits 64 signed bits and lies at or below `max_int`.
    proof fn lemma_range(self)
        ensures
            i64::MIN <= self.as_int() <= Self::max_int(),
    ;

    /// Indices that stand for the same integer are the same index.
    proof fn lemma_as_int_injective(self, other: Self)
        requires
            self.as_int() == other.as_int(),
        ensures
            self == other,
    ;

    /// Whether `val` can be written in the index type.
    fn fits(val: usize) -> (b: bool)
        ensures
            b == (val <= Self::max_int()),
    ;

    /// The index that stands for `val`.
    fn from_usize(val: usize) -> (r: Self)
        requires
            val <= Self::max_int(),
        ensures
            r.as_int() == val,
    ;

    /// The position that a non-negative index stands for.
    fn into_usize(self) -> (r: usize)
        requires
            0 <= self.as_int() <= usize::MAX,
        ensures
            r == self.as_int(),
    ;

    /// The index widened to 64 signed bits.
    fn as_i64(self) -> (r: i64)
        ensures
            r == self.as_int(),
    ;
}

impl Sealed for i32 {

}

impl Sealed for i64 {

}

impl KluIndex for i32 {
    open spec fn as_int(self) -> int {
        self as int
    }

    open spec fn max_int() -> int {
        i32::MAX as int
    }

    proof fn lemma_max_int() {
    }

    proof fn lemma_range(self) {
    }

    proof fn lemma_as_int_injective(self, other: Self) {
    }

    fn fits(val: usize) -> (b: bool) {
        val <= i32::MAX as usize
    }

    fn from_usize(val: usize) -> (r: Self) {
        val as i32
    }

    fn into_usize(self) -> (r: usize) {
        self as usize
    }

    fn as_i64(self) -> (r: i64) {
        self as i64
    }
}

impl KluIndex for i64 {
    open spec fn as_int(self) -> int {
        self as int
    }

    open spec fn max_int() -> int {
        i64::MAX as int
    }

    proof fn lemma_max_int() {
    }

    proof fn lemma_range(self) {
    }

    proof fn lemma_as_int_injective(self, other: Self) {
    }

    fn fits(val: usize) -> (b: bool) {
        val as u64 <= i64::MAX as u64
    }

    fn from_usize(val: usize) -> (r: Self) {
        val as i64
    }

    fn into_usize(self) -> (r: usize) {
        self as usize
    }

    fn as_i64(self) -> (r: i64) {
        self
    }
}

} // verus!
