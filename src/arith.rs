//! Facts about divisibility and the greatest common divisor.
use vstd::arithmetic::div_mod::{
    lemma_div_multiples_vanish, lemma_fundamental_div_mod, lemma_mod_multiples_basic,
};
use vstd::prelude::*;

use crate::{abs, gcd_nat, gcd_of};

verus! {

/// An exact division leaves a quotient that multiplies back.
pub proof fn lemma_exact_div(a: int, g: int)
    requires
        g > 0,
        a % g == 0,
    ensures
        a == (a / g) * g,
{
    lemma_fundamental_div_mod(a, g);
    assert(a == g * (a / g) + a % g);
    assert(g * (a / g) == (a / g) * g) by (nonlinear_arith);
}

/// A multiple of `g` divides exactly, with the expected quotient.
pub proof fn lemma_multiple(q: int, g: int)
    requires
        g > 0,
    ensures
        (q * g) % g == 0,
        (q * g) / g == q,
{
    lemma_mod_multiples_basic(q, g);
    lemma_div_multiples_vanish(q, g);
    assert(g * q == q * g) by (nonlinear_arith);
}

/// Divisibility by a positive number does not depend on the sign.
pub proof fn lemma_abs_divides(a: int, g: int)
    requires
        g > 0,
    ensures
        (a % g == 0) == (abs(a) as int % g == 0),
        a % g == 0 ==> abs(a / g) as int == abs(a) as int / g,
{
    if a % g == 0 {
        lemma_exact_div(a, g);
        let q = a / g;
        if a < 0 {
            assert(abs(a) as int == (-q) * g) by (nonlinear_arith)
                requires
                    a == q * g,
                    a < 0,
                    abs(a) as int == -a,
            ;
            lemma_multiple(-q, g);
            assert(q < 0) by (nonlinear_arith)
                requires
                    a == q * g,
                    a < 0,
                    g > 0,
            ;
        } else {
            lemma_multiple(q, g);
            assert(q >= 0) by (nonlinear_arith)
                requires
                    a == q * g,
                    a >= 0,
                    g > 0,
            ;
        }
    } else if abs(a) as int % g == 0 {
        lemma_exact_div(abs(a) as int, g);
        let q = abs(a) as int / g;
        assert(a == (-q) * g) by (nonlinear_arith)
            requires
                abs(a) as int == q * g,
                a < 0,
                abs(a) as int == -a,
        ;
        lemma_multiple(-q, g);
    }
}

/// If `g` divides `x` and `y`, it divides `x - k * y`.
pub proof fn lemma_divides_combination(x: int, y: int, k: int, g: int)
    requires
        g > 0,
        x % g == 0,
        y % g == 0,
    ensures
        (x - k * y) % g == 0,
        (x + k * y) % g == 0,
{
    lemma_exact_div(x, g);
    lemma_exact_div(y, g);
    let qx = x / g;
    let qy = y / g;
    assert(x - k * y == (qx - k * qy) * g) by (nonlinear_arith)
        requires
            x == qx * g,
            y == qy * g,
    ;
    assert(x + k * y == (qx + k * qy) * g) by (nonlinear_arith)
        requires
            x == qx * g,
            y == qy * g,
    ;
    lemma_multiple(qx - k * qy, g);
    lemma_multiple(qx + k * qy, g);
}

/// A positive multiple of `g` is at least `g`.
pub proof fn lemma_divisor_le(x: int, g: int)
    requires
        g > 0,
        x > 0,
        x % g == 0,
    ensures
        g <= x,
{
    lemma_exact_div(x, g);
    let q = x / g;
    assert(g <= x) by (nonlinear_arith)
        requires
            x == q * g,
            x > 0,
            g > 0,
    ;
}

/// The greatest common divisor divides both arguments and is zero only for `(0, 0)`.
pub proof fn lemma_gcd_nat_divides(a: nat, b: nat)
    ensures
        (gcd_nat(a, b) == 0) == (a == 0 && b == 0),
        gcd_nat(a, b) > 0 ==> a as int % gcd_nat(a, b) as int == 0 && b as int % gcd_nat(
            a,
            b,
        ) as int == 0,
    decreases b,
{
    if b == 0 {
        if a > 0 {
            lemma_multiple(1, a as int);
            lemma_multiple(0, a as int);
        }
    } else {
        let r = (a % b) as nat;
        lemma_gcd_nat_divides(b, r);
        let g = gcd_nat(a, b) as int;
        assert(g == gcd_nat(b, r) as int);
        lemma_fundamental_div_mod(a as int, b as int);
        assert(a as int == r as int + (a as int / b as int) * b as int) by (nonlinear_arith)
            requires
                a as int == b as int * (a as int / b as int) + (a as int % b as int),
                r as int == a as int % b as int,
        ;
        lemma_divides_combination(r as int, b as int, a as int / b as int, g);
    }
}

/// Every common divisor divides the greatest common divisor.
pub proof fn lemma_gcd_nat_greatest(a: nat, b: nat, k: int)
    requires
        k > 0,
        a as int % k == 0,
        b as int % k == 0,
    ensures
        gcd_nat(a, b) as int % k == 0,
    decreases b,
{
    if b > 0 {
        let r = (a % b) as nat;
        lemma_fundamental_div_mod(a as int, b as int);
        assert(r as int == a as int - (a as int / b as int) * b as int) by (nonlinear_arith)
            requires
                a as int == b as int * (a as int / b as int) + (a as int % b as int),
                r as int == a as int % b as int,
        ;
        lemma_divides_combination(a as int, b as int, a as int / b as int, k);
        lemma_gcd_nat_greatest(b, r, k);
    }
}

/// What the greatest common divisor of two integers is known for.
pub proof fn lemma_gcd(a: int, b: int)
    ensures
        gcd_of(a, b) >= 0,
        (gcd_of(a, b) == 0) == (a == 0 && b == 0),
        gcd_of(a, b) > 0 ==> a % gcd_of(a, b) == 0 && b % gcd_of(a, b) == 0,
        b != 0 ==> gcd_of(a, b) <= abs(b),
        a != 0 ==> gcd_of(a, b) <= abs(a),
{
    lemma_gcd_nat_divides(abs(a), abs(b));
    let g = gcd_of(a, b);
    if g > 0 {
        lemma_abs_divides(a, g);
        lemma_abs_divides(b, g);
        if b != 0 {
            lemma_divisor_le(abs(b) as int, g);
        }
        if a != 0 {
            lemma_divisor_le(abs(a) as int, g);
        }
    }
}

/// Dividing both arguments by their greatest common divisor leaves a greatest
/// common divisor of one.
pub proof fn lemma_gcd_reduced(a: int, b: int)
    requires
        !(a == 0 && b == 0),
    ensures
        gcd_of(a / gcd_of(a, b), b / gcd_of(a, b)) == 1,
{
    lemma_gcd(a, b);
    let g = gcd_of(a, b);
    let x = a / g;
    let y = b / g;
    lemma_exact_div(a, g);
    lemma_exact_div(b, g);
    assert(!(x == 0 && y == 0)) by (nonlinear_arith)
        requires
            a == x * g,
            b == y * g,
            !(a == 0 && b == 0),
    ;
    lemma_gcd(x, y);
    let h = gcd_of(x, y);
    lemma_exact_div(x, h);
    lemma_exact_div(y, h);
    let hg = h * g;
    assert(hg > 0) by (nonlinear_arith)
        requires
            h > 0,
            g > 0,
            hg == h * g,
    ;
    assert(a == (x / h) * hg && b == (y / h) * hg) by (nonlinear_arith)
        requires
            a == x * g,
            b == y * g,
            x == (x / h) * h,
            y == (y / h) * h,
            hg == h * g,
    ;
    lemma_multiple(x / h, hg);
    lemma_multiple(y / h, hg);
    lemma_abs_divides(a, hg);
    lemma_abs_divides(b, hg);
    lemma_gcd_nat_greatest(abs(a), abs(b), hg);
    lemma_divisor_le(g, hg);
    assert(h == 1) by (nonlinear_arith)
        requires
            hg == h * g,
            hg <= g,
            g > 0,
            h > 0,
    ;
}

/// An exact quotient by a positive divisor lies between zero and the dividend.
pub proof fn lemma_exact_div_bounds(a: int, g: int)
    requires
        g > 0,
        a % g == 0,
    ensures
        a >= 0 ==> 0 <= a / g <= a,
        a < 0 ==> a <= a / g < 0,
        (a / g == 0) == (a == 0),
{
    lemma_exact_div(a, g);
    let q = a / g;
    assert(a >= 0 ==> 0 <= q <= a) by (nonlinear_arith)
        requires
            a == q * g,
            g > 0,
    ;
    assert(a < 0 ==> a <= q < 0) by (nonlinear_arith)
        requires
            a == q * g,
            g > 0,
    ;
    assert((q == 0) == (a == 0)) by (nonlinear_arith)
        requires
            a == q * g,
            g > 0,
    ;
}

/// Two successive factorings compose.
pub proof fn lemma_factor_chain(a: int, a1: int, f: int, q: int, g: int)
    requires
        a == a1 * f,
        a1 == q * g,
    ensures
        a == q * (g * f),
{
    assert(a == q * (g * f)) by (nonlinear_arith)
        requires
            a == a1 * f,
            a1 == q * g,
    ;
}

/// Factors of a product of two products may be regrouped.
pub proof fn lemma_regroup(x: int, u: int, y: int, v: int)
    ensures
        (x * u) * (y * v) == (x * y) * (u * v),
{
    assert((x * u) * (y * v) == (x * y) * (u * v)) by (nonlinear_arith);
}

} // verus!
