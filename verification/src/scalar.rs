//! The scalar types an interval can range over.

use vstd::prelude::*;

verus! {

/// A copyable scalar that stands for an integer and is ordered as that
/// integer is. Everything the interval map states about keys is stated over
/// `value`.
pub trait Scalar: Copy {
    /// The integer this scalar stands for.
    spec fn value(self) -> int;

    /// Two scalars that stand for the same integer are the same scalar.
    proof fn value_is_injective(self, other: Self)
        requires
            self.value() == other.value(),
        ensures
            self == other,
    ;

    /// Strict order: whether `self` stands for a smaller integer than `other`.
    fn less_than(&self, other: &Self) -> (b: bool)
        ensures
            b == (self.value() < other.value()),
    ;
}

impl Scalar for u8 {
    open spec fn value(self) -> int {
        self as int
    }

    proof fn value_is_injective(self, other: Self) {
    }

    fn less_than(&self, other: &Self) -> (b: bool) {
        *self < *other
    }
}

impl Scalar for u16 {
    open spec fn value(self) -> int {
        self as int
    }

    proof fn value_is_injective(self, other: Self) {
    }

    fn less_than(&self, other: &Self) -> (b: bool) {
        *self < *other
    }
}

impl Scalar for u32 {
    open spec fn value(self) -> int {
        self as int
    }

    proof fn value_is_injective(self, other: Self) {
    }

    fn less_than(&self, other: &Self) -> (b: bool) {
        *self < *other
    }
}

impl Scalar for u64 {
    open spec fn value(self) -> int {
        self as int
    }

    proof fn value_is_injective(self, other: Self) {
    }

    fn less_than(&self, other: &Self) -> (b: bool) {
        *self < *other
    }
}

impl Scalar for u128 {
    open spec fn value(self) -> int {
        self as int
    }

    proof fn value_is_injective(self, other: Self) {
    }

    fn less_than(&self, other: &Self) -> (b: bool) {
        *self < *other
    }
}

impl Scalar for usize {
    open spec fn value(self) -> int {
        self as int
    }

    proof fn value_is_injective(self, other: Self) {
    }

    fn less_than(&self, other: &Self) -> (b: bool) {
        *self < *other
    }
}

impl Scalar for i8 {
    open spec fn value(self) -> int {
        self as int
    }

    proof fn value_is_injective(self, other: Self) {
    }

    fn less_than(&self, other: &Self) -> (b: bool) {
        *self < *other
    }
}

impl Scalar for i16 {
    open spec fn value(self) -> int {
        self as int
    }

    proof fn value_is_injective(self, other: Self) {
    }

    fn less_than(&self, other: &Self) -> (b: bool) {
        *self < *other
    }
}

impl Scalar for i32 {
    open spec fn value(self) -> int {
        self as int
    }

    proof fn value_is_injective(self, other: Self) {
    }

    fn less_than(&self, other: &Self) -> (b: bool) {
        *self < *other
    }
}

impl Scalar for i64 {
    open spec fn value(self) -> int {
        self as int
    }

    proof fn value_is_injective(self, other: Self) {
    }

    fn less_than(&self, other: &Self) -> (b: bool) {
        *self < *other
    }
}

impl Scalar for i128 {
    open spec fn value(self) -> int {
        self as int
    }

    proof fn value_is_injective(self, other: Self) {
    }

    fn less_than(&self, other: &Self) -> (b: bool) {
        *self < *other
    }
}

impl Scalar for isize {
    open spec fn value(self) -> int {
        self as int
    }

    proof fn value_is_injective(self, other: Self) {
    }

    fn less_than(&self, other: &Self) -> (b: bool) {
        *self < *other
    }
}

} // verus!
