//! Scalars that can be the values of a domain.
//!
//! A domain holds values of one scalar type. What the domain logic needs of
//! that type is gathered in [`DomainValue`]: a total order, given by an
//! integer rank, an executable comparison, and the step to the next value.
use vstd::prelude::*;

verus! {

/// A totally ordered, discrete scalar.
///
/// The order is the order of the ranks: `a` comes before `b` exactly when
/// `a.rank() < b.rank()`. Two values with the same rank are the same value.
pub trait DomainValue: Copy {
    /// The position of the value in the order of its type.
    spec fn rank(self) -> int;

    /// The rank identifies the value.
    proof fn rank_determines_value(a: Self, b: Self)
        requires
            a.rank() == b.rank(),
        ensures
            a == b,
    ;

    /// Whether `self` comes strictly before `other`.
    fn precedes(&self, other: &Self) -> (r: bool)
        ensures
            r == (self.rank() < other.rank()),
    ;

    /// The value one step above `self`, or `None` when `self` is the greatest
    /// value of the type.
    fn successor(&self) -> (r: Option<Self>)
        ensures
            match r {
                Some(next) => next.rank() == self.rank() + 1,
                None => forall|x: Self| #[trigger] x.rank() <= self.rank(),
            },
    ;
}

/// Whether `a` and `b` are the same value, decided by the order alone.
pub fn same_value<T: DomainValue>(a: &T, b: &T) -> (r: bool)
    ensures
        r == (*a == *b),
        r == (a.rank() == b.rank()),
{
    let r = !a.precedes(b) && !b.precedes(a);
    proof {
        if r {
            T::rank_determines_value(*a, *b);
        }
    }
    r
}

impl DomainValue for bool {
    open spec fn rank(self) -> int {
        if self {
            1
        } else {
            0
        }
    }

    proof fn rank_determines_value(a: Self, b: Self) {
    }

    fn precedes(&self, other: &Self) -> (r: bool) {
        !*self && *other
    }

    fn successor(&self) -> (r: Option<Self>) {
        if *self {
            None
        } else {
            Some(true)
        }
    }
}

/// `<i8 as num::One>::one`, which num-traits defines as the literal `1`.
pub assume_specification[ <i8 as num::One>::one ]() -> (r: i8)
    ensures
        r == 1,
;

impl DomainValue for i8 {
    open spec fn rank(self) -> int {
        self as int
    }

    proof fn rank_determines_value(a: Self, b: Self) {
    }

    fn precedes(&self, other: &Self) -> (r: bool) {
        *self < *other
    }

    fn successor(&self) -> (r: Option<Self>) {
        if *self < i8::MAX {
            let one: i8 = num::One::one();
            Some(*self + one)
        } else {
            None
        }
    }
}

/// `<i16 as num::One>::one`, which num-traits defines as the literal `1`.
pub assume_specification[ <i16 as num::One>::one ]() -> (r: i16)
    ensures
        r == 1,
;

impl DomainValue for i16 {
    open spec fn rank(self) -> int {
        self as int
    }

    proof fn rank_determines_value(a: Self, b: Self) {
    }

    fn precedes(&self, other: &Self) -> (r: bool) {
        *self < *other
    }

    fn successor(&self) -> (r: Option<Self>) {
        if *self < i16::MAX {
            let one: i16 = num::One::one();
            Some(*self + one)
        } else {
            None
        }
    }
}

/// `<i32 as num::One>::one`, which num-traits defines as the literal `1`.
pub assume_specification[ <i32 as num::One>::one ]() -> (r: i32)
    ensures
        r == 1,
;

impl DomainValue for i32 {
    open spec fn rank(self) -> int {
        self as int
    }

    proof fn rank_determines_value(a: Self, b: Self) {
    }

    fn precedes(&self, other: &Self) -> (r: bool) {
        *self < *other
    }

    fn successor(&self) -> (r: Option<Self>) {
        if *self < i32::MAX {
            let one: i32 = num::One::one();
            Some(*self + one)
        } else {
            None
        }
    }
}

/// `<i64 as num::One>::one`, which num-traits defines as the literal `1`.
pub assume_specification[ <i64 as num::One>::one ]() -> (r: i64)
    ensures
        r == 1,
;

impl DomainValue for i64 {
    open spec fn rank(self) -> int {
        self as int
    }

    proof fn rank_determines_value(a: Self, b: Self) {
    }

    fn precedes(&self, other: &Self) -> (r: bool) {
        *self < *other
    }

    fn successor(&self) -> (r: Option<Self>) {
        if *self < i64::MAX {
            let one: i64 = num::One::one();
            Some(*self + one)
        } else {
            None
        }
    }
}

/// `<i128 as num::One>::one`, which num-traits defines as the literal `1`.
pub assume_specification[ <i128 as num::One>::one ]() -> (r: i128)
    ensures
        r == 1,
;

impl DomainValue for i128 {
    open spec fn rank(self) -> int {
        self as int
    }

    proof fn rank_determines_value(a: Self, b: Self) {
    }

    fn precedes(&self, other: &Self) -> (r: bool) {
        *self < *other
    }

    fn successor(&self) -> (r: Option<Self>) {
        if *self < i128::MAX {
            let one: i128 = num::One::one();
            Some(*self + one)
        } else {
            None
        }
    }
}

/// `<isize as num::One>::one`, which num-traits defines as the literal `1`.
pub assume_specification[ <isize as num::One>::one ]() -> (r: isize)
    ensures
        r == 1,
;

impl DomainValue for isize {
    open spec fn rank(self) -> int {
        self as int
    }

    proof fn rank_determines_value(a: Self, b: Self) {
    }

    fn precedes(&self, other: &Self) -> (r: bool) {
        *self < *other
    }

    fn successor(&self) -> (r: Option<Self>) {
        if *self < isize::MAX {
            let one: isize = num::One::one();
            Some(*self + one)
        } else {
            None
        }
    }
}

/// `<u8 as num::One>::one`, which num-traits defines as the literal `1`.
pub assume_specification[ <u8 as num::One>::one ]() -> (r: u8)
    ensures
        r == 1,
;

impl DomainValue for u8 {
    open spec fn rank(self) -> int {
        self as int
    }

    proof fn rank_determines_value(a: Self, b: Self) {
    }

    fn precedes(&self, other: &Self) -> (r: bool) {
        *self < *other
    }

    fn successor(&self) -> (r: Option<Self>) {
        if *self < u8::MAX {
            let one: u8 = num::One::one();
            Some(*self + one)
        } else {
            None
        }
    }
}

/// `<u16 as num::One>::one`, which num-traits defines as the literal `1`.
pub assume_specification[ <u16 as num::One>::one ]() -> (r: u16)
    ensures
        r == 1,
;

impl DomainValue for u16 {
    open spec fn rank(self) -> int {
        self as int
    }

    proof fn rank_determines_value(a: Self, b: Self) {
    }

    fn precedes(&self, other: &Self) -> (r: bool) {
        *self < *other
    }

    fn successor(&self) -> (r: Option<Self>) {
        if *self < u16::MAX {
            let one: u16 = num::One::one();
            Some(*self + one)
        } else {
            None
        }
    }
}

/// `<u32 as num::One>::one`, which num-traits defines as the literal `1`.
pub assume_specification[ <u32 as num::One>::one ]() -> (r: u32)
    ensures
        r == 1,
;

impl DomainValue for u32 {
    open spec fn rank(self) -> int {
        self as int
    }

    proof fn rank_determines_value(a: Self, b: Self) {
    }

    fn precedes(&self, other: &Self) -> (r: bool) {
        *self < *other
    }

    fn successor(&self) -> (r: Option<Self>) {
        if *self < u32::MAX {
            let one: u32 = num::One::one();
            Some(*self + one)
        } else {
            None
        }
    }
}

/// `<u64 as num::One>::one`, which num-traits defines as the literal `1`.
pub assume_specification[ <u64 as num::One>::one ]() -> (r: u64)
    ensures
        r == 1,
;

impl DomainValue for u64 {
    open spec fn rank(self) -> int {
        self as int
    }

    proof fn rank_determines_value(a: Self, b: Self) {
    }

    fn precedes(&self, other: &Self) -> (r: bool) {
        *self < *other
    }

    fn successor(&self) -> (r: Option<Self>) {
        if *self < u64::MAX {
            let one: u64 = num::One::one();
            Some(*self + one)
        } else {
            None
        }
    }
}

/// `<u128 as num::One>::one`, which num-traits defines as the literal `1`.
pub assume_specification[ <u128 as num::One>::one ]() -> (r: u128)
    ensures
        r == 1,
;

impl DomainValue for u128 {
    open spec fn rank(self) -> int {
        self as int
    }

    proof fn rank_determines_value(a: Self, b: Self) {
    }

    fn precedes(&self, other: &Self) -> (r: bool) {
        *self < *other
    }

    fn successor(&self) -> (r: Option<Self>) {
        if *self < u128::MAX {
            let one: u128 = num::One::one();
            Some(*self + one)
        } else {
            None
        }
    }
}

/// `<usize as num::One>::one`, which num-traits defines as the literal `1`.
pub assume_specification[ <usize as num::One>::one ]() -> (r: usize)
    ensures
        r == 1,
;

impl DomainValue for usize {
    open spec fn rank(self) -> int {
        self as int
    }

    proof fn rank_determines_value(a: Self, b: Self) {
    }

    fn precedes(&self, other: &Self) -> (r: bool) {
        *self < *other
    }

    fn successor(&self) -> (r: Option<Self>) {
        if *self < usize::MAX {
            let one: usize = num::One::one();
            Some(*self + one)
        } else {
            None
        }
    }
}

} // verus!
