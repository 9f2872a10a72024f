//! The integer model of fraction arithmetic: what each operation computes on
//! `(numerator, denominator)` pairs, step by step as the scalar type allows,
//! and why every result it gives is the exact rational answer.
use std::cmp::Ordering;
use vstd::prelude::*;

use crate::arith::{
    lemma_exact_div, lemma_exact_div_bounds, lemma_factor_chain, lemma_gcd, lemma_regroup,
};
use crate::{fits, gcd_of, Checked};

verus! {

/// `n1 / d1` and `n2 / d2` are the same rational number (for nonzero denominators).
pub open spec fn same_ratio(x: (int, int), y: (int, int)) -> bool {
    x.0 * y.1 == y.0 * x.1
}

/// The factor by which simplification divides the pair `(n, d)`: their greatest
/// common divisor where the scalar type holds it, else one.
pub open spec fn simplify_factor<T: Checked>(n: int, d: int) -> int {
    if fits::<T>(gcd_of(n, d)) {
        gcd_of(n, d)
    } else {
        1
    }
}

/// The pair `(n, d)` after simplification.
pub open spec fn simplified<T: Checked>(n: int, d: int) -> (int, int) {
    (n / simplify_factor::<T>(n, d), d / simplify_factor::<T>(n, d))
}

/// Simplification divides by a positive factor that both parts are multiples of.
pub proof fn lemma_simplified<T: Checked>(n: int, d: int)
    requires
        d != 0,
    ensures
        simplify_factor::<T>(n, d) > 0,
        n == simplified::<T>(n, d).0 * simplify_factor::<T>(n, d),
        d == simplified::<T>(n, d).1 * simplify_factor::<T>(n, d),
        simplified::<T>(n, d).1 != 0,
        simplified::<T>(n, d).1 < 0 <==> d < 0,
        fits::<T>(n) ==> fits::<T>(simplified::<T>(n, d).0),
        fits::<T>(d) ==> fits::<T>(simplified::<T>(n, d).1),
        same_ratio(simplified::<T>(n, d), (n, d)),
{
    lemma_gcd(n, d);
    T::lemma_bounds();
    let f = simplify_factor::<T>(n, d);
    let s = simplified::<T>(n, d);
    lemma_exact_div(n, f);
    lemma_exact_div(d, f);
    lemma_exact_div_bounds(n, f);
    lemma_exact_div_bounds(d, f);
    assert(s.0 * d == n * s.1) by (nonlinear_arith)
        requires
            n == s.0 * f,
            d == s.1 * f,
    ;
}

/// `p + q`, or `p - q` where `subtract` holds.
pub open spec fn combine(p: int, q: int, subtract: bool) -> int {
    if subtract {
        p - q
    } else {
        p + q
    }
}

/// `x ± y` written over the denominator `x.1 * ma`, where `ma` scales `x.0`
/// and `mc` scales `y.0`; `None` where a step does not fit the scalar type.
pub open spec fn combined<T: Checked>(
    x: (int, int),
    y: (int, int),
    ma: int,
    mc: int,
    subtract: bool,
) -> Option<(int, int)> {
    let den = x.1 * ma;
    let p = x.0 * ma;
    let q = mc * y.0;
    let s = combine(p, q, subtract);
    if fits::<T>(den) && fits::<T>(p) && fits::<T>(q) && fits::<T>(s) {
        Some((s, den))
    } else {
        None
    }
}

/// `x ± y` over the raw denominators, with no reduction.
pub open spec fn add_direct<T: Checked>(x: (int, int), y: (int, int), subtract: bool) -> Option<
    (int, int),
> {
    combined::<T>(x, y, y.1, x.1, subtract)
}

/// `x ± y` after both operands are simplified, over the least common multiple
/// of their denominators; `None` where that does not fit.
pub open spec fn add_reduced<T: Checked>(x: (int, int), y: (int, int), subtract: bool) -> Option<
    (int, int),
> {
    let xs = simplified::<T>(x.0, x.1);
    let ys = simplified::<T>(y.0, y.1);
    let g = gcd_of(xs.1, ys.1);
    if fits::<T>(g) {
        combined::<T>(xs, ys, ys.1 / g, xs.1 / g, subtract)
    } else {
        None
    }
}

/// What adding (or subtracting) `y` to `x` gives: the direct result where every
/// step fits, else the reduced one.
pub open spec fn add_outcome<T: Checked>(x: (int, int), y: (int, int), subtract: bool) -> Option<
    (int, int),
> {
    if add_direct::<T>(x, y, subtract) is Some {
        add_direct::<T>(x, y, subtract)
    } else {
        add_reduced::<T>(x, y, subtract)
    }
}

/// The exact sum (or difference) of two fractions as a pair.
pub open spec fn sum_pair(x: (int, int), y: (int, int), subtract: bool) -> (int, int) {
    (combine(x.0 * y.1, y.0 * x.1, subtract), x.1 * y.1)
}

/// What an operand holds after an operation: itself where the direct attempt
/// succeeded, else its simplified form.
pub open spec fn after_escalation<T: Checked>(x: (int, int), direct: bool) -> (int, int) {
    if direct {
        x
    } else {
        simplified::<T>(x.0, x.1)
    }
}

/// Any result of addition or subtraction is the exact sum or difference.
pub proof fn lemma_add_outcome<T: Checked>(x: (int, int), y: (int, int), subtract: bool)
    requires
        x.1 != 0,
        y.1 != 0,
    ensures
        add_outcome::<T>(x, y, subtract) matches Some(p) ==> p.1 != 0 && same_ratio(
            p,
            sum_pair(x, y, subtract),
        ),
{
    let (a, b) = x;
    let (c, d) = y;
    if add_direct::<T>(x, y, subtract) is Some {
        assert(b * d != 0) by (nonlinear_arith)
            requires
                b != 0,
                d != 0,
        ;
        assert(d * c == c * d) by (nonlinear_arith);
        assert(b * c == c * b) by (nonlinear_arith);
    } else if add_reduced::<T>(x, y, subtract) is Some {
        lemma_simplified::<T>(a, b);
        lemma_simplified::<T>(c, d);
        let (a1, b1) = simplified::<T>(a, b);
        let (c1, d1) = simplified::<T>(c, d);
        let f1 = simplify_factor::<T>(a, b);
        let f2 = simplify_factor::<T>(c, d);
        lemma_gcd(b1, d1);
        let g = gcd_of(b1, d1);
        lemma_exact_div(b1, g);
        lemma_exact_div(d1, g);
        let u = b1 / g;
        let v = d1 / g;
        let p = add_reduced::<T>(x, y, subtract)->0;
        assert(p.1 == b1 * v);
        assert(p.1 != 0) by (nonlinear_arith)
            requires
                p.1 == b1 * v,
                b1 != 0,
                d1 == v * g,
                d1 != 0,
        ;
        let t = combine(a1 * v, u * c1, subtract);
        assert(p.0 == t);
        lemma_factor_chain(d, d1, f2, v, g);
        lemma_factor_chain(b, b1, f1, u, g);
        let k = f1 * (g * f2);
        lemma_regroup(a1, f1, v, g * f2);
        lemma_regroup(c1, f2, u, g * f1);
        lemma_regroup(b1, f1, v, g * f2);
        assert(f2 * (g * f1) == f1 * (g * f2)) by (nonlinear_arith);
        assert(u * c1 == c1 * u) by (nonlinear_arith);
        let lhs = combine(a * d, c * b, subtract);
        assert(lhs == k * t) by (nonlinear_arith)
            requires
                a * d == (a1 * v) * k,
                c * b == (c1 * u) * k,
                lhs == combine(a * d, c * b, subtract),
                t == combine(a1 * v, c1 * u, subtract),
        ;
        assert(t * ((b1 * v) * k) == (k * t) * (b1 * v)) by (nonlinear_arith);
    }
}

/// `x * y` over the raw parts; `None` where a product does not fit.
pub open spec fn mul_direct<T: Checked>(x: (int, int), y: (int, int)) -> Option<(int, int)> {
    if fits::<T>(x.0 * y.0) && fits::<T>(x.1 * y.1) {
        Some((x.0 * y.0, x.1 * y.1))
    } else {
        None
    }
}

/// The operands of `x * y` after each is simplified and the numerator of each
/// is cancelled against the denominator of the other; `None` where a common
/// divisor does not fit.
pub open spec fn mul_cancelled<T: Checked>(x: (int, int), y: (int, int)) -> Option<
    ((int, int), (int, int)),
> {
    let xs = simplified::<T>(x.0, x.1);
    let ys = simplified::<T>(y.0, y.1);
    let g1 = gcd_of(xs.0, ys.1);
    let g2 = gcd_of(xs.1, ys.0);
    if fits::<T>(g1) && fits::<T>(g2) {
        Some(((xs.0 / g1, xs.1 / g2), (ys.0 / g2, ys.1 / g1)))
    } else {
        None
    }
}

/// What multiplying `x` by `y` gives: the direct product where it fits, else
/// the product of the cancelled operands.
pub open spec fn mul_outcome<T: Checked>(x: (int, int), y: (int, int)) -> Option<(int, int)> {
    if mul_direct::<T>(x, y) is Some {
        mul_direct::<T>(x, y)
    } else {
        match mul_cancelled::<T>(x, y) {
            Some(ops) => mul_direct::<T>(ops.0, ops.1),
            None => None,
        }
    }
}

/// The reciprocal of a pair.
pub open spec fn flip(x: (int, int)) -> (int, int) {
    (x.1, x.0)
}

/// The operands of `x / y` after each is simplified and numerators and
/// denominators are cancelled against each other; `None` where a common
/// divisor does not fit.
pub open spec fn div_cancelled<T: Checked>(x: (int, int), y: (int, int)) -> Option<
    ((int, int), (int, int)),
> {
    let xs = simplified::<T>(x.0, x.1);
    let ys = simplified::<T>(y.0, y.1);
    let g1 = gcd_of(xs.0, ys.0);
    let g2 = gcd_of(xs.1, ys.1);
    if fits::<T>(g1) && fits::<T>(g2) {
        Some(((xs.0 / g1, xs.1 / g2), (ys.0 / g1, ys.1 / g2)))
    } else {
        None
    }
}

/// What dividing `x` by `y` gives: the direct quotient where it fits, else the
/// quotient of the cancelled operands.
pub open spec fn div_outcome<T: Checked>(x: (int, int), y: (int, int)) -> Option<(int, int)> {
    if mul_direct::<T>(x, flip(y)) is Some {
        mul_direct::<T>(x, flip(y))
    } else {
        match div_cancelled::<T>(x, y) {
            Some(ops) => mul_direct::<T>(ops.0, flip(ops.1)),
            None => None,
        }
    }
}

/// The exact product of two pairs.
pub open spec fn product_pair(x: (int, int), y: (int, int)) -> (int, int) {
    (x.0 * y.0, x.1 * y.1)
}

/// Cross-cancellation keeps the product: the cancelled operands multiply to the
/// same rational number as the originals.
pub proof fn lemma_mul_cancelled<T: Checked>(x: (int, int), y: (int, int))
    requires
        x.1 != 0,
        y.1 != 0,
    ensures
        mul_cancelled::<T>(x, y) matches Some(ops) ==> (ops.0).1 != 0 && (ops.1).1 != 0
            && same_ratio(product_pair(ops.0, ops.1), product_pair(x, y)),
{
    if mul_cancelled::<T>(x, y) is Some {
        let (a, b) = x;
        let (c, d) = y;
        lemma_simplified::<T>(a, b);
        lemma_simplified::<T>(c, d);
        let (a1, b1) = simplified::<T>(a, b);
        let (c1, d1) = simplified::<T>(c, d);
        let f1 = simplify_factor::<T>(a, b);
        let f2 = simplify_factor::<T>(c, d);
        lemma_gcd(a1, d1);
        lemma_gcd(b1, c1);
        let g1 = gcd_of(a1, d1);
        let g2 = gcd_of(b1, c1);
        lemma_exact_div(a1, g1);
        lemma_exact_div(d1, g1);
        lemma_exact_div(b1, g2);
        lemma_exact_div(c1, g2);
        lemma_exact_div_bounds(b1, g2);
        lemma_exact_div_bounds(d1, g1);
        let (al, be, ga, de) = (a1 / g1, b1 / g2, c1 / g2, d1 / g1);
        lemma_factor_chain(a, a1, f1, al, g1);
        lemma_factor_chain(c, c1, f2, ga, g2);
        lemma_factor_chain(b, b1, f1, be, g2);
        lemma_factor_chain(d, d1, f2, de, g1);
        lemma_regroup(al, g1 * f1, ga, g2 * f2);
        lemma_regroup(be, g2 * f1, de, g1 * f2);
        let k = (g1 * f1) * (g2 * f2);
        assert((g2 * f1) * (g1 * f2) == (g1 * f1) * (g2 * f2)) by (nonlinear_arith);
        assert((al * ga) * (b * d) == (a * c) * (be * de)) by (nonlinear_arith)
            requires
                a * c == (al * ga) * k,
                b * d == (be * de) * k,
        ;
    }
}

/// Cancellation keeps the quotient: the cancelled operands divide to the same
/// rational number as the originals.
pub proof fn lemma_div_cancelled<T: Checked>(x: (int, int), y: (int, int))
    requires
        x.1 != 0,
        y.1 != 0,
        y.0 != 0,
    ensures
        div_cancelled::<T>(x, y) matches Some(ops) ==> (ops.0).1 != 0 && (ops.1).1 != 0 && (ops.1).0
            != 0 && same_ratio(product_pair(ops.0, flip(ops.1)), product_pair(x, flip(y))),
{
    if div_cancelled::<T>(x, y) is Some {
        let (a, b) = x;
        let (c, d) = y;
        lemma_simplified::<T>(a, b);
        lemma_simplified::<T>(c, d);
        let (a1, b1) = simplified::<T>(a, b);
        let (c1, d1) = simplified::<T>(c, d);
        let f1 = simplify_factor::<T>(a, b);
        let f2 = simplify_factor::<T>(c, d);
        assert(c1 != 0) by (nonlinear_arith)
            requires
                c == c1 * f2,
                c != 0,
        ;
        lemma_gcd(a1, c1);
        lemma_gcd(b1, d1);
        let g1 = gcd_of(a1, c1);
        let g2 = gcd_of(b1, d1);
        lemma_exact_div(a1, g1);
        lemma_exact_div(c1, g1);
        lemma_exact_div(b1, g2);
        lemma_exact_div(d1, g2);
        lemma_exact_div_bounds(b1, g2);
        lemma_exact_div_bounds(d1, g2);
        lemma_exact_div_bounds(c1, g1);
        let (al, be, ga, de) = (a1 / g1, b1 / g2, c1 / g1, d1 / g2);
        lemma_factor_chain(a, a1, f1, al, g1);
        lemma_factor_chain(d, d1, f2, de, g2);
        lemma_factor_chain(b, b1, f1, be, g2);
        lemma_factor_chain(c, c1, f2, ga, g1);
        lemma_regroup(al, g1 * f1, de, g2 * f2);
        lemma_regroup(be, g2 * f1, ga, g1 * f2);
        let k = (g1 * f1) * (g2 * f2);
        assert((g2 * f1) * (g1 * f2) == (g1 * f1) * (g2 * f2)) by (nonlinear_arith);
        assert((al * de) * (b * c) == (a * d) * (be * ga)) by (nonlinear_arith)
            requires
                a * d == (al * de) * k,
                b * c == (be * ga) * k,
        ;
    }
}

/// The cross products `x.0 * y.1` and `y.0 * x.1` after both operands are
/// simplified and the two denominators are divided by their greatest common
/// divisor; `None` where that divisor or a product does not fit.
pub open spec fn reduced_cross<T: Checked>(x: (int, int), y: (int, int)) -> Option<(int, int)> {
    let xs = simplified::<T>(x.0, x.1);
    let ys = simplified::<T>(y.0, y.1);
    let g = gcd_of(xs.1, ys.1);
    let l = xs.0 * (ys.1 / g);
    let r = ys.0 * (xs.1 / g);
    if fits::<T>(g) && fits::<T>(l) && fits::<T>(r) {
        Some((l, r))
    } else {
        None
    }
}

/// Whether the raw cross products of `x` and `y` fit the scalar type.
pub open spec fn cross_fits<T: Checked>(x: (int, int), y: (int, int)) -> bool {
    fits::<T>(x.0 * y.1) && fits::<T>(x.1 * y.0)
}

/// What comparing `x` and `y` for equality gives: the raw cross products where
/// they fit, else the reduced ones, else `None`.
pub open spec fn eq_outcome<T: Checked>(x: (int, int), y: (int, int)) -> Option<bool> {
    if cross_fits::<T>(x, y) {
        Some(x.0 * y.1 == x.1 * y.0)
    } else {
        match reduced_cross::<T>(x, y) {
            Some(c) => Some(c.0 == c.1),
            None => None,
        }
    }
}

/// The order of two integers.
pub open spec fn cmp_int(l: int, r: int) -> Ordering {
    if l < r {
        Ordering::Less
    } else if l == r {
        Ordering::Equal
    } else {
        Ordering::Greater
    }
}

/// The order of `l` and `r`, reversed unless `keep` holds.
pub open spec fn signed_cmp(l: int, r: int, keep: bool) -> Ordering {
    if keep {
        cmp_int(l, r)
    } else {
        cmp_int(r, l)
    }
}

/// How the rational number `x.0 / x.1` compares with `y.0 / y.1`: both sides
/// brought to the common denominator `x.1 * y.1` and multiplied by it.
pub open spec fn ratio_cmp(x: (int, int), y: (int, int)) -> Ordering {
    let s = x.1 * y.1;
    cmp_int(x.0 * y.1 * s, y.0 * x.1 * s)
}

/// What ordering `x` against `y` gives: cross products as in `eq_outcome`,
/// compared in reverse where exactly one denominator is negative.
pub open spec fn cmp_outcome<T: Checked>(x: (int, int), y: (int, int)) -> Option<Ordering> {
    if cross_fits::<T>(x, y) {
        Some(signed_cmp(x.0 * y.1, x.1 * y.0, (x.1 < 0) == (y.1 < 0)))
    } else {
        match reduced_cross::<T>(x, y) {
            Some(c) => Some(signed_cmp(c.0, c.1, (x.1 < 0) == (y.1 < 0))),
            None => None,
        }
    }
}

/// Multiplying both sides by a nonzero number keeps their order, or reverses
/// it where the number is negative.
pub proof fn lemma_cmp_scaled(l: int, r: int, s: int)
    requires
        s != 0,
    ensures
        cmp_int(l * s, r * s) == signed_cmp(l, r, s > 0),
        (l * s == r * s) == (l == r),
{
    if s > 0 {
        assert(l < r ==> l * s < r * s) by (nonlinear_arith)
            requires
                s > 0,
        ;
        assert(l > r ==> l * s > r * s) by (nonlinear_arith)
            requires
                s > 0,
        ;
    } else {
        assert(l < r ==> l * s > r * s) by (nonlinear_arith)
            requires
                s < 0,
        ;
        assert(l > r ==> l * s < r * s) by (nonlinear_arith)
            requires
                s < 0,
        ;
    }
}

/// The reduced cross products are the raw ones divided by one positive factor,
/// and the denominators keep their signs.
pub proof fn lemma_reduced_cross<T: Checked>(x: (int, int), y: (int, int))
    requires
        x.1 != 0,
        y.1 != 0,
    ensures
        reduced_cross::<T>(x, y) matches Some(c) ==> exists|k: int|
            k > 0 && #[trigger] (c.0 * k) == x.0 * y.1 && c.1 * k == y.0 * x.1,
{
    if reduced_cross::<T>(x, y) is Some {
        let (a, b) = x;
        let (c, d) = y;
        lemma_simplified::<T>(a, b);
        lemma_simplified::<T>(c, d);
        let (a1, b1) = simplified::<T>(a, b);
        let (c1, d1) = simplified::<T>(c, d);
        let f1 = simplify_factor::<T>(a, b);
        let f2 = simplify_factor::<T>(c, d);
        lemma_gcd(b1, d1);
        let g = gcd_of(b1, d1);
        lemma_exact_div(b1, g);
        lemma_exact_div(d1, g);
        let u = b1 / g;
        let v = d1 / g;
        lemma_factor_chain(d, d1, f2, v, g);
        lemma_factor_chain(b, b1, f1, u, g);
        let k = f1 * (g * f2);
        lemma_regroup(a1, f1, v, g * f2);
        lemma_regroup(c1, f2, u, g * f1);
        assert(f2 * (g * f1) == f1 * (g * f2)) by (nonlinear_arith);
        assert(k > 0) by (nonlinear_arith)
            requires
                k == f1 * (g * f2),
                f1 > 0,
                f2 > 0,
                g > 0,
        ;
        let cr = reduced_cross::<T>(x, y)->0;
        assert(cr.0 * k == a * d);
        assert(cr.1 * k == c * b);
    }
}

/// Any result of an equality test is whether the two are the same rational number.
pub proof fn lemma_eq_outcome<T: Checked>(x: (int, int), y: (int, int))
    requires
        x.1 != 0,
        y.1 != 0,
    ensures
        eq_outcome::<T>(x, y) matches Some(e) ==> e == same_ratio(x, y),
{
    assert(x.1 * y.0 == y.0 * x.1) by (nonlinear_arith);
    if !cross_fits::<T>(x, y) && reduced_cross::<T>(x, y) is Some {
        lemma_reduced_cross::<T>(x, y);
        let c = reduced_cross::<T>(x, y)->0;
        let k = choose|k: int| k > 0 && #[trigger] (c.0 * k) == x.0 * y.1 && c.1 * k == y.0 * x.1;
        lemma_cmp_scaled(c.0, c.1, k);
    }
}

/// Any result of an ordering is the order of the two rational numbers.
pub proof fn lemma_cmp_outcome<T: Checked>(x: (int, int), y: (int, int))
    requires
        x.1 != 0,
        y.1 != 0,
    ensures
        cmp_outcome::<T>(x, y) matches Some(o) ==> o == ratio_cmp(x, y),
{
    let s = x.1 * y.1;
    assert(s != 0 && (s > 0) == ((x.1 < 0) == (y.1 < 0))) by (nonlinear_arith)
        requires
            s == x.1 * y.1,
            x.1 != 0,
            y.1 != 0,
    ;
    assert(x.1 * y.0 == y.0 * x.1) by (nonlinear_arith);
    if cross_fits::<T>(x, y) {
        lemma_cmp_scaled(x.0 * y.1, y.0 * x.1, s);
    } else if reduced_cross::<T>(x, y) is Some {
        lemma_reduced_cross::<T>(x, y);
        let c = reduced_cross::<T>(x, y)->0;
        let k = choose|k: int| k > 0 && #[trigger] (c.0 * k) == x.0 * y.1 && c.1 * k == y.0 * x.1;
        let ks = k * s;
        assert(x.0 * y.1 * s == c.0 * ks && y.0 * x.1 * s == c.1 * ks) by (nonlinear_arith)
            requires
                c.0 * k == x.0 * y.1,
                c.1 * k == y.0 * x.1,
                ks == k * s,
        ;
        assert(ks != 0 && (ks > 0) == (s > 0)) by (nonlinear_arith)
            requires
                ks == k * s,
                k > 0,
                s != 0,
        ;
        lemma_cmp_scaled(c.0, c.1, ks);
    }
}

/// What multiplying `x` by the scalar `k` gives: `(x.0 * k) / x.1` where it
/// fits, else `x` simplified with its denominator cancelled against `k`.
pub open spec fn mul_scalar_outcome<T: Checked>(x: (int, int), k: int) -> Option<(int, int)> {
    if fits::<T>(x.0 * k) {
        Some((x.0 * k, x.1))
    } else {
        let xs = simplified::<T>(x.0, x.1);
        let g = gcd_of(xs.1, k);
        if fits::<T>(g) && fits::<T>(xs.0 * (k / g)) {
            Some((xs.0 * (k / g), xs.1 / g))
        } else {
            None
        }
    }
}

/// What dividing `x` by the nonzero scalar `k` gives: `x.0 / (x.1 * k)` where
/// it fits, else `x` simplified with its numerator cancelled against `k`.
pub open spec fn div_scalar_outcome<T: Checked>(x: (int, int), k: int) -> Option<(int, int)> {
    if fits::<T>(x.1 * k) {
        Some((x.0, x.1 * k))
    } else {
        let xs = simplified::<T>(x.0, x.1);
        let g = gcd_of(xs.0, k);
        if fits::<T>(g) && fits::<T>(xs.1 * (k / g)) {
            Some((xs.0 / g, xs.1 * (k / g)))
        } else {
            None
        }
    }
}

/// Any result of multiplying by a scalar is the exact product.
pub proof fn lemma_mul_scalar_outcome<T: Checked>(x: (int, int), k: int)
    requires
        x.1 != 0,
    ensures
        mul_scalar_outcome::<T>(x, k) matches Some(p) ==> p.1 != 0 && same_ratio(
            p,
            (x.0 * k, x.1),
        ),
{
    if !fits::<T>(x.0 * k) && mul_scalar_outcome::<T>(x, k) is Some {
        let (a, b) = x;
        lemma_simplified::<T>(a, b);
        let (a1, b1) = simplified::<T>(a, b);
        let f = simplify_factor::<T>(a, b);
        lemma_gcd(b1, k);
        let g = gcd_of(b1, k);
        lemma_exact_div(b1, g);
        lemma_exact_div(k, g);
        lemma_exact_div_bounds(b1, g);
        let u = b1 / g;
        let w = k / g;
        assert((a1 * w) * b == (a * k) * u) by (nonlinear_arith)
            requires
                a == a1 * f,
                b == b1 * f,
                b1 == u * g,
                k == w * g,
        ;
    }
}

/// Any result of dividing by a nonzero scalar is the exact quotient.
pub proof fn lemma_div_scalar_outcome<T: Checked>(x: (int, int), k: int)
    requires
        x.1 != 0,
        k != 0,
    ensures
        div_scalar_outcome::<T>(x, k) matches Some(p) ==> p.1 != 0 && same_ratio(
            p,
            (x.0, x.1 * k),
        ),
{
    assert(x.1 * k != 0) by (nonlinear_arith)
        requires
            x.1 != 0,
            k != 0,
    ;
    if !fits::<T>(x.1 * k) && div_scalar_outcome::<T>(x, k) is Some {
        let (a, b) = x;
        lemma_simplified::<T>(a, b);
        let (a1, b1) = simplified::<T>(a, b);
        let f = simplify_factor::<T>(a, b);
        lemma_gcd(a1, k);
        let g = gcd_of(a1, k);
        lemma_exact_div(a1, g);
        lemma_exact_div(k, g);
        lemma_exact_div_bounds(k, g);
        let al = a1 / g;
        let w = k / g;
        assert(b1 * w != 0) by (nonlinear_arith)
            requires
                b1 != 0,
                w != 0,
        ;
        assert(al * (b * k) == a * (b1 * w)) by (nonlinear_arith)
            requires
                a == a1 * f,
                b == b1 * f,
                a1 == al * g,
                k == w * g,
        ;
    }
}

} // verus!
