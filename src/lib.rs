//! Exact fractions over checked integer scalars.
//!
//! A scalar type reports overflow of its arithmetic instead of wrapping. The
//! fraction type `CheckRdc` combines such scalars, and when a direct
//! computation overflows it retries on operands reduced by common factors.
use vstd::prelude::*;

pub mod arith;
pub mod scalar;
pub mod model;
pub mod reducible;
pub mod laws;

pub use reducible::CheckRdc;

verus! {

/// Absolute value of an integer.
pub open spec fn abs(a: int) -> nat {
    if a < 0 {
        (-a) as nat
    } else {
        a as nat
    }
}

/// Greatest common divisor of two naturals, by Euclid's algorithm.
pub open spec fn gcd_nat(a: nat, b: nat) -> nat
    decreases b,
{
    if b == 0 {
        a
    } else {
        gcd_nat(b, (a % b) as nat)
    }
}

/// Greatest common divisor of two integers; never negative, and zero only for `(0, 0)`.
pub open spec fn gcd_of(a: int, b: int) -> int {
    gcd_nat(abs(a), abs(b)) as int
}

/// Whether `v` is a value that the scalar type `T` can hold.
pub open spec fn fits<T: Checked>(v: int) -> bool {
    T::min_value() <= v <= T::max_value()
}

/// A scalar whose arithmetic reports overflow instead of wrapping.
///
/// Each scalar stands for the integer `value()`; its range is
/// `min_value() ..= max_value()`, which holds zero and one.
pub trait Checked: Sized + Copy {
    spec fn value(&self) -> int;

    spec fn min_value() -> int;

    spec fn max_value() -> int;

    proof fn lemma_range(&self)
        ensures
            Self::min_value() <= self.value() <= Self::max_value(),
    ;

    proof fn lemma_bounds()
        ensures
            Self::min_value() <= 0,
            1 <= Self::max_value(),
    ;

    fn checked_add(&self, rhs: &Self) -> (r: Option<Self>)
        ensures
            r is Some <==> Self::min_value() <= self.value() + rhs.value() <= Self::max_value(),
            r matches Some(v) ==> v.value() == self.value() + rhs.value(),
    ;

    fn checked_sub(&self, rhs: &Self) -> (r: Option<Self>)
        ensures
            r is Some <==> Self::min_value() <= self.value() - rhs.value() <= Self::max_value(),
            r matches Some(v) ==> v.value() == self.value() - rhs.value(),
    ;

    fn checked_mul(&self, rhs: &Self) -> (r: Option<Self>)
        ensures
            r is Some <==> Self::min_value() <= self.value() * rhs.value() <= Self::max_value(),
            r matches Some(v) ==> v.value() == self.value() * rhs.value(),
    ;

    /// Exact division: `rhs` divides `self`.
    fn checked_div(&self, rhs: &Self) -> (r: Option<Self>)
        requires
            rhs.value() != 0,
            self.value() % rhs.value() == 0,
        ensures
            r is Some <==> Self::min_value() <= self.value() / rhs.value() <= Self::max_value(),
            r matches Some(v) ==> v.value() == self.value() / rhs.value(),
    ;

    fn same_as(&self, rhs: &Self) -> (r: bool)
        ensures
            r == (self.value() == rhs.value()),
    ;

    fn less_than(&self, rhs: &Self) -> (r: bool)
        ensures
            r == (self.value() < rhs.value()),
    ;
}

/// A greatest common divisor that reports when the result does not fit.
pub trait CheckGcd: Sized + Checked {
    fn gcd(&self, rhs: &Self) -> (r: Option<Self>)
        ensures
            r is Some <==> Self::min_value() <= gcd_of(self.value(), rhs.value()) <= Self::max_value(),
            r matches Some(g) ==> g.value() == gcd_of(self.value(), rhs.value()),
    ;
}

/// A greatest common divisor that always fits the type.
pub trait Gcd: Sized + Checked {
    fn gcd(&self, rhs: &Self) -> (r: Self)
        ensures
            r.value() == gcd_of(self.value(), rhs.value()),
    ;
}

/// A scalar with a zero.
pub trait Zero: Checked {
    fn zero() -> (r: Self)
        ensures
            r.value() == 0,
    ;

    fn is_zero(&self) -> (r: bool)
        ensures
            r == (self.value() == 0),
    {
        self.same_as(&Self::zero())
    }
}

/// A scalar with a one, which also serves as a value that is never zero.
pub trait One: Checked {
    fn one() -> (r: Self)
        ensures
            r.value() == 1,
    ;

    fn is_one(&self) -> (r: bool)
        ensures
            r == (self.value() == 1),
    {
        self.same_as(&Self::one())
    }

    fn non_zero() -> (r: Self)
        ensures
            r.value() == 1,
    {
        Self::one()
    }
}

} // verus!
