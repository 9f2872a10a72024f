//! Laws that relate the fraction operations to each other.
use std::cmp::Ordering;
use vstd::prelude::*;

use crate::arith::{lemma_gcd_reduced, lemma_regroup};
use crate::model::{
    add_outcome, cmp_outcome, cross_fits, div_cancelled, div_outcome, eq_outcome, flip,
    lemma_add_outcome, lemma_cmp_outcome, lemma_div_cancelled, lemma_eq_outcome,
    lemma_mul_cancelled, mul_cancelled, mul_direct, product_pair, same_ratio, simplified,
    sum_pair,
};
use crate::reducible::CheckRdc;
use crate::{fits, gcd_of, CheckGcd, One, Zero};

verus! {

/// Equal ratios chain through a middle pair whose denominator is not zero.
pub proof fn lemma_same_ratio_trans(p: (int, int), q: (int, int), r: (int, int))
    requires
        q.1 != 0,
        same_ratio(p, q),
        same_ratio(q, r),
    ensures
        same_ratio(p, r),
{
    let (pn, pd) = p;
    let (qn, qd) = q;
    let (rn, rd) = r;
    assert((pn * rd) * qd == (rn * pd) * qd) by (nonlinear_arith)
        requires
            pn * qd == qn * pd,
            qn * rd == rn * qd,
    ;
    assert(pn * rd == rn * pd) by (nonlinear_arith)
        requires
            (pn * rd) * qd == (rn * pd) * qd,
            qd != 0,
    ;
}

/// Multiplication distributes over a sum.
proof fn lemma_distrib(x: int, y: int, m: int)
    ensures
        (x + y) * m == x * m + y * m,
{
    assert((x + y) * m == x * m + y * m) by (nonlinear_arith);
}

/// Replacing the left operand of a sum by an equal ratio keeps the sum's ratio.
pub proof fn lemma_sum_left(p: (int, int), q: (int, int), z: (int, int))
    requires
        same_ratio(p, q),
    ensures
        same_ratio(sum_pair(p, z, false), sum_pair(q, z, false)),
{
    let (pn, pd) = p;
    let (qn, qd) = q;
    let (zn, zd) = z;
    lemma_distrib(pn * zd, zn * pd, qd * zd);
    lemma_distrib(qn * zd, zn * qd, pd * zd);
    lemma_regroup(pn, zd, qd, zd);
    lemma_regroup(qn, zd, pd, zd);
    assert((zn * pd) * (qd * zd) == (zn * qd) * (pd * zd)) by (nonlinear_arith);
    assert(pn * qd == qn * pd);
}

/// Replacing the right operand of a sum by an equal ratio keeps the sum's ratio.
pub proof fn lemma_sum_right(z: (int, int), p: (int, int), q: (int, int))
    requires
        same_ratio(p, q),
    ensures
        same_ratio(sum_pair(z, p, false), sum_pair(z, q, false)),
{
    let (pn, pd) = p;
    let (qn, qd) = q;
    let (zn, zd) = z;
    lemma_distrib(zn * pd, pn * zd, zd * qd);
    lemma_distrib(zn * qd, qn * zd, zd * pd);
    assert((zn * pd) * (zd * qd) == (zn * qd) * (zd * pd)) by (nonlinear_arith);
    assert((pn * zd) * (zd * qd) == (pn * qd) * (zd * zd)) by (nonlinear_arith);
    assert((qn * zd) * (zd * pd) == (qn * pd) * (zd * zd)) by (nonlinear_arith);
    assert(pn * qd == qn * pd);
}

/// Simplifying a fraction a second time changes nothing.
pub proof fn lemma_simplify_idempotent<T: CheckGcd + Zero + One>(x: CheckRdc<T>)
    requires
        x.wf(),
    ensures
        simplified::<T>(
            simplified::<T>(x.pair().0, x.pair().1).0,
            simplified::<T>(x.pair().0, x.pair().1).1,
        ) == simplified::<T>(x.pair().0, x.pair().1),
{
    let (n, d) = x.pair();
    T::lemma_bounds();
    assert(n / 1 == n && d / 1 == d);
    let s = simplified::<T>(n, d);
    if fits::<T>(gcd_of(n, d)) {
        lemma_gcd_reduced(n, d);
        assert(s.0 / 1 == s.0 && s.1 / 1 == s.1);
    }
}

/// Where the direct product fits, it is the same rational number as the
/// product of the cross-cancelled operands, whenever that product fits too.
pub proof fn lemma_mul_phases_agree<T: CheckGcd + Zero + One>(x: CheckRdc<T>, y: CheckRdc<T>)
    requires
        x.wf(),
        y.wf(),
    ensures
        mul_direct::<T>(x.pair(), y.pair()) matches Some(p) ==> (mul_cancelled::<T>(
            x.pair(),
            y.pair(),
        ) matches Some(ops) ==> (mul_direct::<T>(ops.0, ops.1) matches Some(q) ==> same_ratio(
            p,
            q,
        ))),
{
    lemma_mul_cancelled::<T>(x.pair(), y.pair());
    if mul_cancelled::<T>(x.pair(), y.pair()) is Some {
        let ops = mul_cancelled::<T>(x.pair(), y.pair())->0;
        assert(product_pair(ops.0, ops.1) == ((ops.0).0 * (ops.1).0, (ops.0).1 * (ops.1).1));
    }
}

/// Where `(x + y) + z` and `x + (y + z)` both come out, they are the same
/// rational number.
pub proof fn lemma_add_associative<T: CheckGcd + Zero + One>(
    x: CheckRdc<T>,
    y: CheckRdc<T>,
    z: CheckRdc<T>,
)
    requires
        x.wf(),
        y.wf(),
        z.wf(),
    ensures
        ({
            let xy = add_outcome::<T>(x.pair(), y.pair(), false);
            let yz = add_outcome::<T>(y.pair(), z.pair(), false);
            xy is Some && yz is Some && add_outcome::<T>(xy->0, z.pair(), false) is Some
                && add_outcome::<T>(x.pair(), yz->0, false) is Some ==> same_ratio(
                add_outcome::<T>(xy->0, z.pair(), false)->0,
                add_outcome::<T>(x.pair(), yz->0, false)->0,
            )
        }),
{
    let xy = add_outcome::<T>(x.pair(), y.pair(), false);
    let yz = add_outcome::<T>(y.pair(), z.pair(), false);
    lemma_add_outcome::<T>(x.pair(), y.pair(), false);
    lemma_add_outcome::<T>(y.pair(), z.pair(), false);
    if xy is Some && yz is Some && add_outcome::<T>(xy->0, z.pair(), false) is Some
        && add_outcome::<T>(x.pair(), yz->0, false) is Some {
        let (a, b) = x.pair();
        let (c, d) = y.pair();
        let (e, f) = z.pair();
        let s1 = xy->0;
        let s2 = yz->0;
        lemma_add_outcome::<T>(s1, z.pair(), false);
        lemma_add_outcome::<T>(x.pair(), s2, false);
        let rd = add_outcome::<T>(s1, z.pair(), false)->0;
        let r2 = add_outcome::<T>(x.pair(), s2, false)->0;
        let t1 = sum_pair(sum_pair(x.pair(), y.pair(), false), z.pair(), false);
        let t2 = sum_pair(x.pair(), sum_pair(y.pair(), z.pair(), false), false);
        lemma_distrib(a * d, c * b, f);
        lemma_distrib(c * f, e * d, b);
        assert((a * d) * f == a * (d * f)) by (nonlinear_arith);
        assert((c * b) * f == (c * f) * b) by (nonlinear_arith);
        assert(e * (b * d) == (e * d) * b) by (nonlinear_arith);
        assert((b * d) * f == b * (d * f)) by (nonlinear_arith);
        assert(t1 == t2);
        assert(b * d != 0 && d * f != 0 && b * (d * f) != 0) by (nonlinear_arith)
            requires
                b != 0,
                d != 0,
                f != 0,
        ;
        lemma_sum_left(s1, sum_pair(x.pair(), y.pair(), false), z.pair());
        lemma_sum_right(x.pair(), s2, sum_pair(y.pair(), z.pair(), false));
        assert(s1.1 * f != 0) by (nonlinear_arith)
            requires
                s1.1 != 0,
                f != 0,
        ;
        lemma_same_ratio_trans(rd, sum_pair(s1, z.pair(), false), t1);
        assert(same_ratio(t2, sum_pair(x.pair(), s2, false)));
        lemma_same_ratio_trans(rd, t2, sum_pair(x.pair(), s2, false));
        assert(same_ratio(sum_pair(x.pair(), s2, false), r2));
        assert(sum_pair(x.pair(), s2, false).1 == b * s2.1);
        assert(b * s2.1 != 0) by (nonlinear_arith)
            requires
                b != 0,
                s2.1 != 0,
        ;
        lemma_same_ratio_trans(rd, sum_pair(x.pair(), s2, false), r2);
    }
}

/// Every fraction equals itself: the test says so wherever it comes out, and
/// it comes out wherever the raw cross products fit.
pub proof fn lemma_eq_reflexive<T: CheckGcd + Zero + One>(x: CheckRdc<T>)
    requires
        x.wf(),
    ensures
        eq_outcome::<T>(x.pair(), x.pair()) matches Some(e) ==> e,
        cross_fits::<T>(x.pair(), x.pair()) ==> eq_outcome::<T>(x.pair(), x.pair()) == Some(true),
{
    lemma_eq_outcome::<T>(x.pair(), x.pair());
    let (n, d) = x.pair();
    assert(n * d == d * n) by (nonlinear_arith);
}

/// The equality test gives the same answer with its operands swapped.
pub proof fn lemma_eq_symmetric<T: CheckGcd + Zero + One>(x: CheckRdc<T>, y: CheckRdc<T>)
    requires
        x.wf(),
        y.wf(),
    ensures
        eq_outcome::<T>(x.pair(), y.pair()) is Some && eq_outcome::<T>(y.pair(), x.pair()) is Some
            ==> eq_outcome::<T>(x.pair(), y.pair()) == eq_outcome::<T>(y.pair(), x.pair()),
{
    lemma_eq_outcome::<T>(x.pair(), y.pair());
    lemma_eq_outcome::<T>(y.pair(), x.pair());
}

/// Where `x == y` and `y == z` hold, `x == z` holds too wherever it comes out.
pub proof fn lemma_eq_transitive<T: CheckGcd + Zero + One>(
    x: CheckRdc<T>,
    y: CheckRdc<T>,
    z: CheckRdc<T>,
)
    requires
        x.wf(),
        y.wf(),
        z.wf(),
    ensures
        eq_outcome::<T>(x.pair(), y.pair()) == Some(true) && eq_outcome::<T>(y.pair(), z.pair())
            == Some(true) && eq_outcome::<T>(x.pair(), z.pair()) is Some ==> eq_outcome::<T>(
            x.pair(),
            z.pair(),
        ) == Some(true),
{
    lemma_eq_outcome::<T>(x.pair(), y.pair());
    lemma_eq_outcome::<T>(y.pair(), z.pair());
    lemma_eq_outcome::<T>(x.pair(), z.pair());
    if eq_outcome::<T>(x.pair(), y.pair()) == Some(true) && eq_outcome::<T>(y.pair(), z.pair())
        == Some(true) {
        lemma_same_ratio_trans(x.pair(), y.pair(), z.pair());
    }
}

/// The ordering reports `Equal` exactly where the equality test reports that
/// the two are the same rational number.
pub proof fn lemma_cmp_agrees_with_eq<T: CheckGcd + Zero + One>(x: CheckRdc<T>, y: CheckRdc<T>)
    requires
        x.wf(),
        y.wf(),
    ensures
        cmp_outcome::<T>(x.pair(), y.pair()) matches Some(o) ==> (o == Ordering::Equal)
            == same_ratio(x.pair(), y.pair()),
        eq_outcome::<T>(x.pair(), y.pair()) matches Some(e) ==> (cmp_outcome::<T>(
            x.pair(),
            y.pair(),
        ) matches Some(o) ==> e == (o == Ordering::Equal)),
{
    lemma_cmp_outcome::<T>(x.pair(), y.pair());
    lemma_eq_outcome::<T>(x.pair(), y.pair());
    let (a, b) = x.pair();
    let (c, d) = y.pair();
    let s = b * d;
    assert(s != 0) by (nonlinear_arith)
        requires
            s == b * d,
            b != 0,
            d != 0,
    ;
    assert(((a * d) * s == (c * b) * s) == (a * d == c * b)) by (nonlinear_arith)
        requires
            s != 0,
    ;
}

/// Division needs a divisor whose numerator is not zero: over a zero numerator
/// the quotient's denominator would be zero. With a nonzero one, every quotient
/// that comes out has a nonzero denominator.
pub proof fn lemma_div_needs_nonzero_divisor<T: CheckGcd + Zero + One>(
    x: CheckRdc<T>,
    y: CheckRdc<T>,
)
    requires
        x.wf(),
        y.wf(),
    ensures
        y.pair().0 == 0 ==> product_pair(x.pair(), flip(y.pair())).1 == 0,
        y.pair().0 != 0 ==> (div_outcome::<T>(x.pair(), y.pair()) matches Some(q) ==> q.1 != 0),
{
    if y.pair().0 != 0 {
        lemma_div_cancelled::<T>(x.pair(), y.pair());
        let (a, b) = x.pair();
        let (c, d) = y.pair();
        assert(b * c != 0) by (nonlinear_arith)
            requires
                b != 0,
                c != 0,
        ;
        if div_cancelled::<T>(x.pair(), y.pair()) is Some {
            let ops = div_cancelled::<T>(x.pair(), y.pair())->0;
            let (bs, cs) = ((ops.0).1, (ops.1).0);
            assert(bs * cs != 0) by (nonlinear_arith)
                requires
                    bs != 0,
                    cs != 0,
            ;
        }
    }
}

} // verus!
