//! The checked-scalar traits for the machine integers.
use vstd::prelude::*;

use crate::arith::lemma_gcd;
use crate::{abs, gcd_nat, CheckGcd, Checked, Gcd, One, Zero};

verus! {

/// Euclid's algorithm on machine naturals.
pub fn gcd_u64(a: u64, b: u64) -> (r: u64)
    ensures
        r as int == gcd_nat(a as nat, b as nat),
{
    let mut x: u64 = a;
    let mut y: u64 = b;
    while y != 0
        invariant
            gcd_nat(x as nat, y as nat) == gcd_nat(a as nat, b as nat),
        decreases y,
    {
        let t: u64 = x % y;
        x = y;
        y = t;
    }
    x
}

/// The magnitude of a signed integer, which always fits the unsigned type.
fn magnitude(a: i64) -> (r: u64)
    ensures
        r as int == abs(a as int),
{
    if a < 0 {
        (0i128 - a as i128) as u64
    } else {
        a as u64
    }
}

impl Checked for i64 {
    open spec fn value(&self) -> int {
        *self as int
    }

    open spec fn min_value() -> int {
        i64::MIN as int
    }

    open spec fn max_value() -> int {
        i64::MAX as int
    }

    proof fn lemma_range(&self) {
    }

    proof fn lemma_bounds() {
    }

    fn checked_add(&self, rhs: &Self) -> (r: Option<Self>) {
        i64::checked_add(*self, *rhs)
    }

    fn checked_sub(&self, rhs: &Self) -> (r: Option<Self>) {
        i64::checked_sub(*self, *rhs)
    }

    fn checked_mul(&self, rhs: &Self) -> (r: Option<Self>) {
        i64::checked_mul(*self, *rhs)
    }

    fn checked_div(&self, rhs: &Self) -> (r: Option<Self>) {
        i64::checked_div_euclid(*self, *rhs)
    }

    fn same_as(&self, rhs: &Self) -> (r: bool) {
        *self == *rhs
    }

    fn less_than(&self, rhs: &Self) -> (r: bool) {
        *self < *rhs
    }
}

impl CheckGcd for i64 {
    fn gcd(&self, rhs: &Self) -> (r: Option<Self>) {
        let g = gcd_u64(magnitude(*self), magnitude(*rhs));
        if g <= i64::MAX as u64 {
            Some(g as i64)
        } else {
            None
        }
    }
}

impl Zero for i64 {
    fn zero() -> (r: Self) {
        0
    }
}

impl One for i64 {
    fn one() -> (r: Self) {
        1
    }
}

impl Checked for i32 {
    open spec fn value(&self) -> int {
        *self as int
    }

    open spec fn min_value() -> int {
        i32::MIN as int
    }

    open spec fn max_value() -> int {
        i32::MAX as int
    }

    proof fn lemma_range(&self) {
    }

    proof fn lemma_bounds() {
    }

    fn checked_add(&self, rhs: &Self) -> (r: Option<Self>) {
        i32::checked_add(*self, *rhs)
    }

    fn checked_sub(&self, rhs: &Self) -> (r: Option<Self>) {
        i32::checked_sub(*self, *rhs)
    }

    fn checked_mul(&self, rhs: &Self) -> (r: Option<Self>) {
        i32::checked_mul(*self, *rhs)
    }

    fn checked_div(&self, rhs: &Self) -> (r: Option<Self>) {
        i32::checked_div_euclid(*self, *rhs)
    }

    fn same_as(&self, rhs: &Self) -> (r: bool) {
        *self == *rhs
    }

    fn less_than(&self, rhs: &Self) -> (r: bool) {
        *self < *rhs
    }
}

impl CheckGcd for i32 {
    fn gcd(&self, rhs: &Self) -> (r: Option<Self>) {
        let g = gcd_u64(magnitude(*self as i64), magnitude(*rhs as i64));
        if g <= i32::MAX as u64 {
            Some(g as i32)
        } else {
            None
        }
    }
}

impl Zero for i32 {
    fn zero() -> (r: Self) {
        0
    }
}

impl One for i32 {
    fn one() -> (r: Self) {
        1
    }
}

impl Checked for u64 {
    open spec fn value(&self) -> int {
        *self as int
    }

    open spec fn min_value() -> int {
        0
    }

    open spec fn max_value() -> int {
        u64::MAX as int
    }

    proof fn lemma_range(&self) {
    }

    proof fn lemma_bounds() {
    }

    fn checked_add(&self, rhs: &Self) -> (r: Option<Self>) {
        u64::checked_add(*self, *rhs)
    }

    fn checked_sub(&self, rhs: &Self) -> (r: Option<Self>) {
        u64::checked_sub(*self, *rhs)
    }

    fn checked_mul(&self, rhs: &Self) -> (r: Option<Self>) {
        u64::checked_mul(*self, *rhs)
    }

    fn checked_div(&self, rhs: &Self) -> (r: Option<Self>) {
        u64::checked_div(*self, *rhs)
    }

    fn same_as(&self, rhs: &Self) -> (r: bool) {
        *self == *rhs
    }

    fn less_than(&self, rhs: &Self) -> (r: bool) {
        *self < *rhs
    }
}

impl Gcd for u64 {
    fn gcd(&self, rhs: &Self) -> (r: Self) {
        gcd_u64(*self, *rhs)
    }
}

impl CheckGcd for u64 {
    fn gcd(&self, rhs: &Self) -> (r: Option<Self>) {
        proof {
            lemma_gcd(*self as int, *rhs as int);
        }
        Some(gcd_u64(*self, *rhs))
    }
}

impl Zero for u64 {
    fn zero() -> (r: Self) {
        0
    }
}

impl One for u64 {
    fn one() -> (r: Self) {
        1
    }
}

impl Checked for u32 {
    open spec fn value(&self) -> int {
        *self as int
    }

    open spec fn min_value() -> int {
        0
    }

    open spec fn max_value() -> int {
        u32::MAX as int
    }

    proof fn lemma_range(&self) {
    }

    proof fn lemma_bounds() {
    }

    fn checked_add(&self, rhs: &Self) -> (r: Option<Self>) {
        u32::checked_add(*self, *rhs)
    }

    fn checked_sub(&self, rhs: &Self) -> (r: Option<Self>) {
        u32::checked_sub(*self, *rhs)
    }

    fn checked_mul(&self, rhs: &Self) -> (r: Option<Self>) {
        u32::checked_mul(*self, *rhs)
    }

    fn checked_div(&self, rhs: &Self) -> (r: Option<Self>) {
        u32::checked_div(*self, *rhs)
    }

    fn same_as(&self, rhs: &Self) -> (r: bool) {
        *self == *rhs
    }

    fn less_than(&self, rhs: &Self) -> (r: bool) {
        *self < *rhs
    }
}

impl Gcd for u32 {
    fn gcd(&self, rhs: &Self) -> (r: Self) {
        proof {
            lemma_gcd(*self as int, *rhs as int);
        }
        gcd_u64(*self as u64, *rhs as u64) as u32
    }
}

impl CheckGcd for u32 {
    fn gcd(&self, rhs: &Self) -> (r: Option<Self>) {
        proof {
            lemma_gcd(*self as int, *rhs as int);
        }
        Some(gcd_u64(*self as u64, *rhs as u64) as u32)
    }
}

impl Zero for u32 {
    fn zero() -> (r: Self) {
        0
    }
}

impl One for u32 {
    fn one() -> (r: Self) {
        1
    }
}

} // verus!
