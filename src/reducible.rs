//! Fractions over a checked scalar, with arithmetic that falls back to
//! reduced operands when the direct computation overflows.
use std::cmp::Ordering;
use vstd::prelude::*;

use crate::arith::{lemma_exact_div_bounds, lemma_gcd};
use crate::model::{
    add_direct, add_outcome, after_escalation, cmp_int, cmp_outcome, combined,
    div_outcome, div_scalar_outcome, eq_outcome, flip, lemma_add_outcome, lemma_cmp_outcome,
    lemma_div_cancelled, lemma_div_scalar_outcome, lemma_eq_outcome, lemma_mul_cancelled,
    lemma_mul_scalar_outcome, lemma_simplified, mul_direct, mul_outcome,
    mul_scalar_outcome, product_pair, ratio_cmp, reduced_cross, same_ratio, simplified,
    simplify_factor, sum_pair,
};
use crate::{fits, gcd_of, CheckGcd, Checked, One, Zero};

verus! {

/// The pair that an optional fraction holds.
pub open spec fn pair_of<T: CheckGcd + Zero + One>(r: Option<CheckRdc<T>>) -> Option<(int, int)> {
    match r {
        Some(v) => Some(v.pair()),
        None => None,
    }
}

/// A fraction `num / denom` of two checked scalars. Its denominator is never zero.
#[derive(Copy, Debug)]
pub struct CheckRdc<T: CheckGcd + Zero + One> {
    num: T,
    denom: T,
}

impl<T: CheckGcd + Zero + One> Clone for CheckRdc<T> {
    fn clone(&self) -> (r: Self)
        ensures
            r == *self,
    {
        *self
    }
}

impl<T: CheckGcd + Zero + One> CheckRdc<T> {
    /// The numerator as an integer.
    pub closed spec fn num_int(self) -> int {
        self.num.value()
    }

    /// The denominator as an integer.
    pub closed spec fn denom_int(self) -> int {
        self.denom.value()
    }

    /// The fraction as a pair of integers.
    pub open spec fn pair(self) -> (int, int) {
        (self.num_int(), self.denom_int())
    }

    /// The denominator is not zero.
    pub open spec fn wf(self) -> bool {
        self.denom_int() != 0
    }

    /// Both parts are values of the scalar type.
    pub proof fn lemma_parts_fit(self)
        ensures
            fits::<T>(self.num_int()),
            fits::<T>(self.denom_int()),
    {
        self.num.lemma_range();
        self.denom.lemma_range();
    }

    /// Builds `num / denom` and simplifies it once, as far as the scalar allows.
    pub fn new(num: T, denom: T) -> (r: Self)
        requires
            denom.value() != 0,
        ensures
            r.wf(),
            r.pair() == simplified::<T>(num.value(), denom.value()),
    {
        let mut res = CheckRdc { num, denom };
        res.simplify();
        res
    }

    /// The numerator.
    pub fn num(&self) -> (r: &T)
        ensures
            r.value() == self.num_int(),
    {
        &self.num
    }

    /// The denominator.
    pub fn denom(&self) -> (r: &T)
        ensures
            r.value() == self.denom_int(),
    {
        &self.denom
    }

    /// Divides both parts by their greatest common divisor. Where the scalar
    /// cannot hold that divisor, the fraction is left as it is and `None` comes
    /// back.
    pub fn simplify(&mut self) -> (r: Option<()>)
        requires
            old(self).wf(),
        ensures
            final(self).wf(),
            final(self).pair() == simplified::<T>(old(self).num_int(), old(self).denom_int()),
            r is Some <==> fits::<T>(gcd_of(old(self).num_int(), old(self).denom_int())),
    {
        proof {
            lemma_simplified::<T>(self.num_int(), self.denom_int());
            self.lemma_parts_fit();
            lemma_gcd(self.num_int(), self.denom_int());
        }
        let g = match self.num.gcd(&self.denom) {
            Some(g) => g,
            None => return None,
        };
        self.num = self.num.checked_div(&g).unwrap();
        self.denom = self.denom.checked_div(&g).unwrap();
        Some(())
    }
}

impl<T: CheckGcd + Zero + One> CheckRdc<T> {
    /// `self ± rhs` over the denominator `self.denom * ma`, with `ma` scaling
    /// the numerator of `self` and `mc` that of `rhs`.
    fn combine_with(&self, rhs: &Self, ma: &T, mc: &T, subtract: bool) -> (r: Option<Self>)
        requires
            self.wf(),
            rhs.wf(),
            ma.value() != 0,
        ensures
            pair_of(r) == combined::<T>(self.pair(), rhs.pair(), ma.value(), mc.value(), subtract),
    {
        proof {
            assert(self.denom_int() * ma.value() != 0) by (nonlinear_arith)
                requires
                    self.denom_int() != 0,
                    ma.value() != 0,
            ;
        }
        let den = match self.denom.checked_mul(ma) {
            Some(v) => v,
            None => return None,
        };
        let p = match self.num.checked_mul(ma) {
            Some(v) => v,
            None => return None,
        };
        let q = match mc.checked_mul(&rhs.num) {
            Some(v) => v,
            None => return None,
        };
        let s = if subtract {
            p.checked_sub(&q)
        } else {
            p.checked_add(&q)
        };
        match s {
            Some(s) => Some(CheckRdc { num: s, denom: den }),
            None => None,
        }
    }

    /// Adds or subtracts `rhs`: first directly; where a step overflows, once
    /// more after simplifying both operands in place and scaling them to the
    /// least common multiple of their denominators.
    fn add_or_sub(&mut self, rhs: &mut Self, subtract: bool) -> (r: Option<Self>)
        requires
            old(self).wf(),
            old(rhs).wf(),
        ensures
            pair_of(r) == add_outcome::<T>(old(self).pair(), old(rhs).pair(), subtract),
            r matches Some(v) ==> v.wf() && same_ratio(
                v.pair(),
                sum_pair(old(self).pair(), old(rhs).pair(), subtract),
            ),
            final(self).wf(),
            final(rhs).wf(),
            final(self).pair() == after_escalation::<T>(
                old(self).pair(),
                add_direct::<T>(old(self).pair(), old(rhs).pair(), subtract) is Some,
            ),
            final(rhs).pair() == after_escalation::<T>(
                old(rhs).pair(),
                add_direct::<T>(old(self).pair(), old(rhs).pair(), subtract) is Some,
            ),
    {
        proof {
            lemma_add_outcome::<T>(self.pair(), rhs.pair(), subtract);
        }
        let direct = self.combine_with(rhs, &rhs.denom, &self.denom, subtract);
        if direct.is_some() {
            return direct;
        }
        self.simplify();
        rhs.simplify();
        proof {
            lemma_gcd(self.denom_int(), rhs.denom_int());
            T::lemma_bounds();
            self.lemma_parts_fit();
            rhs.lemma_parts_fit();
            lemma_exact_div_bounds(self.denom_int(), gcd_of(self.denom_int(), rhs.denom_int()));
            lemma_exact_div_bounds(rhs.denom_int(), gcd_of(self.denom_int(), rhs.denom_int()));
        }
        let g = match self.denom.gcd(&rhs.denom) {
            Some(g) => g,
            None => return None,
        };
        let ma = rhs.denom.checked_div(&g).unwrap();
        let mc = self.denom.checked_div(&g).unwrap();
        self.combine_with(rhs, &ma, &mc, subtract)
    }
}

impl<T: CheckGcd + Zero + One> CheckRdc<T> {
    /// `(n1 * n2) / (d1 * d2)`, or `None` where a product does not fit.
    fn product(n1: &T, d1: &T, n2: &T, d2: &T) -> (r: Option<Self>)
        requires
            d1.value() != 0,
            d2.value() != 0,
        ensures
            pair_of(r) == mul_direct::<T>((n1.value(), d1.value()), (n2.value(), d2.value())),
            r matches Some(v) ==> v.wf(),
    {
        proof {
            assert(d1.value() * d2.value() != 0) by (nonlinear_arith)
                requires
                    d1.value() != 0,
                    d2.value() != 0,
            ;
        }
        let num = n1.checked_mul(n2);
        let denom = d1.checked_mul(d2);
        match (num, denom) {
            (Some(num), Some(denom)) => Some(CheckRdc { num, denom }),
            _ => None,
        }
    }

    /// Multiplies by `rhs`. Where the direct product overflows, both operands
    /// are simplified in place; then, on copies, each numerator is cancelled
    /// against the other denominator, and the product is taken once more.
    pub fn mul_mut(&mut self, rhs: &mut Self) -> (r: Option<Self>)
        requires
            old(self).wf(),
            old(rhs).wf(),
        ensures
            pair_of(r) == mul_outcome::<T>(old(self).pair(), old(rhs).pair()),
            r matches Some(v) ==> v.wf() && same_ratio(
                v.pair(),
                product_pair(old(self).pair(), old(rhs).pair()),
            ),
            final(self).wf(),
            final(rhs).wf(),
            final(self).pair() == after_escalation::<T>(
                old(self).pair(),
                mul_direct::<T>(old(self).pair(), old(rhs).pair()) is Some,
            ),
            final(rhs).pair() == after_escalation::<T>(
                old(rhs).pair(),
                mul_direct::<T>(old(self).pair(), old(rhs).pair()) is Some,
            ),
    {
        proof {
            lemma_mul_cancelled::<T>(self.pair(), rhs.pair());
        }
        let direct = Self::product(&self.num, &self.denom, &rhs.num, &rhs.denom);
        if direct.is_some() {
            proof {
                assert(self.denom_int() * rhs.denom_int() == rhs.denom_int() * self.denom_int())
                    by (nonlinear_arith);
            }
            return direct;
        }
        self.simplify();
        rhs.simplify();
        proof {
            T::lemma_bounds();
            self.lemma_parts_fit();
            rhs.lemma_parts_fit();
            lemma_gcd(self.num_int(), rhs.denom_int());
            lemma_gcd(self.denom_int(), rhs.num_int());
            lemma_exact_div_bounds(self.num_int(), gcd_of(self.num_int(), rhs.denom_int()));
            lemma_exact_div_bounds(rhs.denom_int(), gcd_of(self.num_int(), rhs.denom_int()));
            lemma_exact_div_bounds(self.denom_int(), gcd_of(self.denom_int(), rhs.num_int()));
            lemma_exact_div_bounds(rhs.num_int(), gcd_of(self.denom_int(), rhs.num_int()));
        }
        let g1 = match self.num.gcd(&rhs.denom) {
            Some(g) => g,
            None => return None,
        };
        let g2 = match self.denom.gcd(&rhs.num) {
            Some(g) => g,
            None => return None,
        };
        let n1 = self.num.checked_div(&g1).unwrap();
        let d2 = rhs.denom.checked_div(&g1).unwrap();
        let d1 = self.denom.checked_div(&g2).unwrap();
        let n2 = rhs.num.checked_div(&g2).unwrap();
        Self::product(&n1, &d1, &n2, &d2)
    }

    /// Divides by `rhs`, whose numerator must not be zero. Where the direct
    /// quotient overflows, both operands are simplified in place; then, on
    /// copies, numerators and denominators are cancelled against each other,
    /// and the quotient is taken once more.
    pub fn div_mut(&mut self, rhs: &mut Self) -> (r: Option<Self>)
        requires
            old(self).wf(),
            old(rhs).wf(),
            old(rhs).num_int() != 0,
        ensures
            pair_of(r) == div_outcome::<T>(old(self).pair(), old(rhs).pair()),
            r matches Some(v) ==> v.wf() && same_ratio(
                v.pair(),
                product_pair(old(self).pair(), flip(old(rhs).pair())),
            ),
            final(self).wf(),
            final(rhs).wf(),
            final(rhs).num_int() != 0,
            final(self).pair() == after_escalation::<T>(
                old(self).pair(),
                mul_direct::<T>(old(self).pair(), flip(old(rhs).pair())) is Some,
            ),
            final(rhs).pair() == after_escalation::<T>(
                old(rhs).pair(),
                mul_direct::<T>(old(self).pair(), flip(old(rhs).pair())) is Some,
            ),
    {
        proof {
            lemma_div_cancelled::<T>(self.pair(), rhs.pair());
            lemma_simplified::<T>(rhs.num_int(), rhs.denom_int());
            let c = rhs.num_int();
            let c1 = simplified::<T>(rhs.num_int(), rhs.denom_int()).0;
            let f = simplify_factor::<T>(rhs.num_int(), rhs.denom_int());
            assert(c1 != 0) by (nonlinear_arith)
                requires
                    c == c1 * f,
                    c != 0,
            ;
        }
        let direct = Self::product(&self.num, &self.denom, &rhs.denom, &rhs.num);
        if direct.is_some() {
            return direct;
        }
        self.simplify();
        rhs.simplify();
        proof {
            T::lemma_bounds();
            self.lemma_parts_fit();
            rhs.lemma_parts_fit();
            lemma_gcd(self.num_int(), rhs.num_int());
            lemma_gcd(self.denom_int(), rhs.denom_int());
            lemma_exact_div_bounds(self.num_int(), gcd_of(self.num_int(), rhs.num_int()));
            lemma_exact_div_bounds(rhs.num_int(), gcd_of(self.num_int(), rhs.num_int()));
            lemma_exact_div_bounds(self.denom_int(), gcd_of(self.denom_int(), rhs.denom_int()));
            lemma_exact_div_bounds(rhs.denom_int(), gcd_of(self.denom_int(), rhs.denom_int()));
        }
        let g1 = match self.num.gcd(&rhs.num) {
            Some(g) => g,
            None => return None,
        };
        let g2 = match self.denom.gcd(&rhs.denom) {
            Some(g) => g,
            None => return None,
        };
        let n1 = self.num.checked_div(&g1).unwrap();
        let n2 = rhs.num.checked_div(&g1).unwrap();
        let d1 = self.denom.checked_div(&g2).unwrap();
        let d2 = rhs.denom.checked_div(&g2).unwrap();
        Self::product(&n1, &d1, &d2, &n2)
    }
}

impl<T: CheckGcd + Zero + One> CheckRdc<T> {
    /// The cross products of copies of both operands after simplifying them and
    /// dividing their denominators by their greatest common divisor.
    fn reduced_products(&self, other: &Self) -> (r: Option<(T, T)>)
        requires
            self.wf(),
            other.wf(),
        ensures
            match r {
                Some(c) => reduced_cross::<T>(self.pair(), other.pair()) == Some(
                    (c.0.value(), c.1.value()),
                ),
                None => reduced_cross::<T>(self.pair(), other.pair()) is None,
            },
    {
        let mut a = *self;
        let mut b = *other;
        a.simplify();
        b.simplify();
        proof {
            T::lemma_bounds();
            a.lemma_parts_fit();
            b.lemma_parts_fit();
            lemma_gcd(a.denom_int(), b.denom_int());
            lemma_exact_div_bounds(a.denom_int(), gcd_of(a.denom_int(), b.denom_int()));
            lemma_exact_div_bounds(b.denom_int(), gcd_of(a.denom_int(), b.denom_int()));
        }
        let g = match a.denom.gcd(&b.denom) {
            Some(g) => g,
            None => return None,
        };
        let mb = b.denom.checked_div(&g).unwrap();
        let ma = a.denom.checked_div(&g).unwrap();
        let l = match a.num.checked_mul(&mb) {
            Some(v) => v,
            None => return None,
        };
        let r = match b.num.checked_mul(&ma) {
            Some(v) => v,
            None => return None,
        };
        Some((l, r))
    }

    /// The order of two scalars.
    fn order(l: &T, r: &T) -> (o: Ordering)
        ensures
            o == cmp_int(l.value(), r.value()),
    {
        if l.less_than(r) {
            Ordering::Less
        } else if l.same_as(r) {
            Ordering::Equal
        } else {
            Ordering::Greater
        }
    }

    /// Whether both are the same rational number: by the raw cross products
    /// where they fit, else by those of the reduced operands; `None` where
    /// neither fits.
    pub fn checked_eq(&self, other: &Self) -> (r: Option<bool>)
        requires
            self.wf(),
            other.wf(),
        ensures
            r == eq_outcome::<T>(self.pair(), other.pair()),
            r matches Some(e) ==> e == same_ratio(self.pair(), other.pair()),
    {
        proof {
            lemma_eq_outcome::<T>(self.pair(), other.pair());
        }
        let l = self.num.checked_mul(&other.denom);
        let r = self.denom.checked_mul(&other.num);
        if let (Some(l), Some(r)) = (l, r) {
            return Some(l.same_as(&r));
        }
        match self.reduced_products(other) {
            Some(c) => Some(c.0.same_as(&c.1)),
            None => None,
        }
    }

    /// How the two compare as rational numbers: by the raw cross products where
    /// they fit, else by those of the reduced operands; `None` where neither
    /// fits.
    pub fn partial_cmp(&self, other: &Self) -> (r: Option<Ordering>)
        requires
            self.wf(),
            other.wf(),
        ensures
            r == cmp_outcome::<T>(self.pair(), other.pair()),
            r matches Some(o) ==> o == ratio_cmp(self.pair(), other.pair()),
    {
        proof {
            lemma_cmp_outcome::<T>(self.pair(), other.pair());
        }
        let zero = T::zero();
        let keep = self.denom.less_than(&zero) == other.denom.less_than(&zero);
        let l = self.num.checked_mul(&other.denom);
        let r = self.denom.checked_mul(&other.num);
        let (l, r) = match (l, r) {
            (Some(l), Some(r)) => (l, r),
            _ => match self.reduced_products(other) {
                Some(c) => c,
                None => return None,
            },
        };
        if keep {
            Some(Self::order(&l, &r))
        } else {
            Some(Self::order(&r, &l))
        }
    }
}

impl<T: CheckGcd + Zero + One> CheckRdc<T> {
    /// The fraction `0 / 1`.
    pub fn zero() -> (r: Self)
        ensures
            r.wf(),
            r.pair() == (0int, 1int),
    {
        CheckRdc { num: T::zero(), denom: T::one() }
    }

    /// Adds `rhs`; where that overflows, both operands are left simplified.
    pub fn add_mut(&mut self, rhs: &mut Self) -> (r: Option<Self>)
        requires
            old(self).wf(),
            old(rhs).wf(),
        ensures
            pair_of(r) == add_outcome::<T>(old(self).pair(), old(rhs).pair(), false),
            r matches Some(v) ==> v.wf() && same_ratio(
                v.pair(),
                sum_pair(old(self).pair(), old(rhs).pair(), false),
            ),
            final(self).wf(),
            final(rhs).wf(),
            final(self).pair() == after_escalation::<T>(
                old(self).pair(),
                add_direct::<T>(old(self).pair(), old(rhs).pair(), false) is Some,
            ),
            final(rhs).pair() == after_escalation::<T>(
                old(rhs).pair(),
                add_direct::<T>(old(self).pair(), old(rhs).pair(), false) is Some,
            ),
    {
        self.add_or_sub(rhs, false)
    }

    /// Subtracts `rhs`; where that overflows, both operands are left simplified.
    pub fn sub_mut(&mut self, rhs: &mut Self) -> (r: Option<Self>)
        requires
            old(self).wf(),
            old(rhs).wf(),
        ensures
            pair_of(r) == add_outcome::<T>(old(self).pair(), old(rhs).pair(), true),
            r matches Some(v) ==> v.wf() && same_ratio(
                v.pair(),
                sum_pair(old(self).pair(), old(rhs).pair(), true),
            ),
            final(self).wf(),
            final(rhs).wf(),
            final(self).pair() == after_escalation::<T>(
                old(self).pair(),
                add_direct::<T>(old(self).pair(), old(rhs).pair(), true) is Some,
            ),
            final(rhs).pair() == after_escalation::<T>(
                old(rhs).pair(),
                add_direct::<T>(old(self).pair(), old(rhs).pair(), true) is Some,
            ),
    {
        self.add_or_sub(rhs, true)
    }

    /// `self + rhs`, leaving both operands as they are.
    pub fn add(&self, rhs: &Self) -> (r: Option<Self>)
        requires
            self.wf(),
            rhs.wf(),
        ensures
            pair_of(r) == add_outcome::<T>(self.pair(), rhs.pair(), false),
            r matches Some(v) ==> v.wf() && same_ratio(
                v.pair(),
                sum_pair(self.pair(), rhs.pair(), false),
            ),
    {
        let mut a = *self;
        let mut b = *rhs;
        a.add_or_sub(&mut b, false)
    }

    /// `self - rhs`, leaving both operands as they are.
    pub fn sub(&self, rhs: &Self) -> (r: Option<Self>)
        requires
            self.wf(),
            rhs.wf(),
        ensures
            pair_of(r) == add_outcome::<T>(self.pair(), rhs.pair(), true),
            r matches Some(v) ==> v.wf() && same_ratio(
                v.pair(),
                sum_pair(self.pair(), rhs.pair(), true),
            ),
    {
        let mut a = *self;
        let mut b = *rhs;
        a.add_or_sub(&mut b, true)
    }

    /// `self * rhs`, leaving both operands as they are.
    pub fn mul(&self, rhs: &Self) -> (r: Option<Self>)
        requires
            self.wf(),
            rhs.wf(),
        ensures
            pair_of(r) == mul_outcome::<T>(self.pair(), rhs.pair()),
            r matches Some(v) ==> v.wf() && same_ratio(
                v.pair(),
                product_pair(self.pair(), rhs.pair()),
            ),
    {
        let mut a = *self;
        let mut b = *rhs;
        a.mul_mut(&mut b)
    }

    /// `self / rhs`, leaving both operands as they are; the numerator of `rhs`
    /// must not be zero.
    pub fn div(&self, rhs: &Self) -> (r: Option<Self>)
        requires
            self.wf(),
            rhs.wf(),
            rhs.num_int() != 0,
        ensures
            pair_of(r) == div_outcome::<T>(self.pair(), rhs.pair()),
            r matches Some(v) ==> v.wf() && same_ratio(
                v.pair(),
                product_pair(self.pair(), flip(rhs.pair())),
            ),
    {
        let mut a = *self;
        let mut b = *rhs;
        a.div_mut(&mut b)
    }

    /// `-self`, computed as `0 / 1 - self`.
    pub fn neg(&self) -> (r: Option<Self>)
        requires
            self.wf(),
        ensures
            pair_of(r) == add_outcome::<T>((0, 1), self.pair(), true),
            r matches Some(v) ==> v.wf() && same_ratio(v.pair(), (-self.num_int(), self.denom_int())),
    {
        let mut z = Self::zero();
        let mut x = *self;
        let r = z.add_or_sub(&mut x, true);
        proof {
            if r is Some {
                let v = r->0.pair();
                let (a, b) = self.pair();
                assert(v.0 * (1 * b) == (0 * b - a * 1) * v.1);
                assert(v.0 * b == (-a) * v.1) by (nonlinear_arith)
                    requires
                        v.0 * (1 * b) == (0 * b - a * 1) * v.1,
                ;
            }
        }
        r
    }

    /// `self * k` for a scalar `k`: the numerator is scaled where that fits;
    /// else a simplified copy has its denominator cancelled against `k` first.
    pub fn mul_scalar(&self, k: &T) -> (r: Option<Self>)
        requires
            self.wf(),
        ensures
            pair_of(r) == mul_scalar_outcome::<T>(self.pair(), k.value()),
            r matches Some(v) ==> v.wf() && same_ratio(
                v.pair(),
                (self.num_int() * k.value(), self.denom_int()),
            ),
    {
        proof {
            lemma_mul_scalar_outcome::<T>(self.pair(), k.value());
        }
        if let Some(n) = self.num.checked_mul(k) {
            return Some(CheckRdc { num: n, denom: self.denom });
        }
        let mut a = *self;
        a.simplify();
        proof {
            T::lemma_bounds();
            a.lemma_parts_fit();
            k.lemma_range();
            lemma_gcd(a.denom_int(), k.value());
            lemma_exact_div_bounds(a.denom_int(), gcd_of(a.denom_int(), k.value()));
            lemma_exact_div_bounds(k.value(), gcd_of(a.denom_int(), k.value()));
        }
        let g = match a.denom.gcd(k) {
            Some(g) => g,
            None => return None,
        };
        let denom = a.denom.checked_div(&g).unwrap();
        let kk = k.checked_div(&g).unwrap();
        match a.num.checked_mul(&kk) {
            Some(num) => Some(CheckRdc { num, denom }),
            None => None,
        }
    }

    /// `self / k` for a nonzero scalar `k`: the denominator is scaled where
    /// that fits; else a simplified copy has its numerator cancelled against
    /// `k` first.
    pub fn div_scalar(&self, k: &T) -> (r: Option<Self>)
        requires
            self.wf(),
            k.value() != 0,
        ensures
            pair_of(r) == div_scalar_outcome::<T>(self.pair(), k.value()),
            r matches Some(v) ==> v.wf() && same_ratio(
                v.pair(),
                (self.num_int(), self.denom_int() * k.value()),
            ),
    {
        proof {
            lemma_div_scalar_outcome::<T>(self.pair(), k.value());
        }
        if let Some(d) = self.denom.checked_mul(k) {
            return Some(CheckRdc { num: self.num, denom: d });
        }
        let mut a = *self;
        a.simplify();
        proof {
            T::lemma_bounds();
            a.lemma_parts_fit();
            k.lemma_range();
            lemma_gcd(a.num_int(), k.value());
            lemma_exact_div_bounds(a.num_int(), gcd_of(a.num_int(), k.value()));
            lemma_exact_div_bounds(k.value(), gcd_of(a.num_int(), k.value()));
        }
        let g = match a.num.gcd(k) {
            Some(g) => g,
            None => return None,
        };
        let num = a.num.checked_div(&g).unwrap();
        let kk = k.checked_div(&g).unwrap();
        match a.denom.checked_mul(&kk) {
            Some(denom) => Some(CheckRdc { num, denom }),
            None => None,
        }
    }
}

impl<T: CheckGcd + Zero + One> Default for CheckRdc<T> {
    /// The fraction `1 / 1`.
    fn default() -> (r: Self)
        ensures
            r.wf(),
            r.pair() == (1int, 1int),
    {
        CheckRdc { num: T::non_zero(), denom: T::non_zero() }
    }
}

} // verus!
