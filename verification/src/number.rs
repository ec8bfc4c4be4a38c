//! Block numbers and account identifiers.

use vstd::prelude::*;

verus! {

/// A value that can be compared for equality and copied.
pub trait Identity: Sized {
    /// Whether the two values are equal.
    fn same(&self, other: &Self) -> (r: bool)
        ensures
            r == (*self == *other),
    ;

    /// A copy of the value.
    fn duplicate(&self) -> (r: Self)
        ensures
            r == *self,
    ;
}

/// A type whose values stand for the natural numbers up to some limit.
pub trait Numeral: Sized {
    /// The number that the value stands for.
    spec fn value(self) -> nat;

    /// The largest number that the type can hold.
    spec fn max_value() -> nat;

    /// The value that stands for a number up to `max_value`.
    spec fn of(n: nat) -> Self;

    /// Values and the numbers up to `max_value` correspond one to one.
    proof fn lemma_value_of(self, n: nat)
        ensures
            self.value() <= Self::max_value(),
            Self::of(self.value()) == self,
            1 <= Self::max_value(),
            n <= Self::max_value() ==> Self::of(n).value() == n,
    ;
}

/// `a + b`, or the largest value of the type if the sum does not fit.
pub open spec fn sum_or_max<N: Numeral>(a: N, b: N) -> N {
    if a.value() + b.value() <= N::max_value() {
        N::of(a.value() + b.value())
    } else {
        N::of(N::max_value())
    }
}

/// `a - b`, or zero if `b` is greater.
pub open spec fn difference_or_zero<N: Numeral>(a: N, b: N) -> N {
    if a.value() >= b.value() {
        N::of((a.value() - b.value()) as nat)
    } else {
        N::of(0)
    }
}

/// `a + b`, unless the sum does not fit.
pub open spec fn sum_if_fits<N: Numeral>(a: N, b: N) -> Option<N> {
    if a.value() + b.value() <= N::max_value() {
        Some(N::of(a.value() + b.value()))
    } else {
        None
    }
}

/// An unsigned integer type that numbers blocks.
pub trait BlockNumber: Copy + Identity + Numeral {
    /// Zero.
    fn zero() -> (r: Self)
        ensures
            r == Self::of(0),
    ;

    /// One.
    fn one() -> (r: Self)
        ensures
            r == Self::of(1),
    ;

    /// The sum, or the largest value if the sum does not fit.
    fn saturating_sum(self, other: Self) -> (r: Self)
        ensures
            r == sum_or_max(self, other),
    ;

    /// The difference, or zero if it is negative.
    fn saturating_difference(self, other: Self) -> (r: Self)
        ensures
            r == difference_or_zero(self, other),
    ;

    /// The sum, if it fits.
    fn checked_sum(self, other: Self) -> (r: Option<Self>)
        ensures
            r == sum_if_fits(self, other),
    ;

    /// Whether this block comes after the other one.
    fn is_after(self, other: Self) -> (r: bool)
        ensures
            r == (self.value() > other.value()),
    ;
}

impl Identity for u32 {
    fn same(&self, other: &Self) -> (r: bool) {
        *self == *other
    }

    fn duplicate(&self) -> (r: Self) {
        *self
    }
}

impl Identity for u64 {
    fn same(&self, other: &Self) -> (r: bool) {
        *self == *other
    }

    fn duplicate(&self) -> (r: Self) {
        *self
    }
}

impl Identity for [u8; 32] {
    fn same(&self, other: &Self) -> (r: bool) {
        let mut i: usize = 0;
        while i < 32
            invariant
                0 <= i <= 32,
                forall|j: int| 0 <= j < i ==> self[j] == other[j],
            decreases 32 - i,
        {
            if self[i] != other[i] {
                return false;
            }
            i = i + 1;
        }
        assert(*self =~= *other);
        true
    }

    fn duplicate(&self) -> (r: Self) {
        *self
    }
}

impl Numeral for u32 {
    open spec fn value(self) -> nat {
        self as nat
    }

    open spec fn max_value() -> nat {
        u32::MAX as nat
    }

    open spec fn of(n: nat) -> Self {
        n as u32
    }

    proof fn lemma_value_of(self, n: nat) {
    }
}

impl BlockNumber for u32 {
    fn zero() -> (r: Self) {
        0
    }

    fn one() -> (r: Self) {
        1
    }

    fn saturating_sum(self, other: Self) -> (r: Self) {
        self.saturating_add(other)
    }

    fn saturating_difference(self, other: Self) -> (r: Self) {
        self.saturating_sub(other)
    }

    fn checked_sum(self, other: Self) -> (r: Option<Self>) {
        self.checked_add(other)
    }

    fn is_after(self, other: Self) -> (r: bool) {
        self > other
    }
}

impl Numeral for u64 {
    open spec fn value(self) -> nat {
        self as nat
    }

    open spec fn max_value() -> nat {
        u64::MAX as nat
    }

    open spec fn of(n: nat) -> Self {
        n as u64
    }

    proof fn lemma_value_of(self, n: nat) {
    }
}

impl BlockNumber for u64 {
    fn zero() -> (r: Self) {
        0
    }

    fn one() -> (r: Self) {
        1
    }

    fn saturating_sum(self, other: Self) -> (r: Self) {
        self.saturating_add(other)
    }

    fn saturating_difference(self, other: Self) -> (r: Self) {
        self.saturating_sub(other)
    }

    fn checked_sum(self, other: Self) -> (r: Option<Self>) {
        self.checked_add(other)
    }

    fn is_after(self, other: Self) -> (r: bool) {
        self > other
    }
}

} // verus!
