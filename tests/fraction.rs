use std::cmp::Ordering;

use checked_fraction::{CheckGcd, CheckRdc, Checked, Gcd, One, Zero};

fn parts<T: Copy + CheckGcd + Zero + One>(x: &CheckRdc<T>) -> (T, T) {
    (*x.num(), *x.denom())
}

#[test]
fn new_simplifies_four_sixths() {
    let x = CheckRdc::new(4i64, 6);
    assert_eq!(parts(&x), (2, 3));
}

#[test]
fn new_keeps_fraction_whose_gcd_does_not_fit() {
    let x = CheckRdc::new(i64::MIN, i64::MIN);
    assert_eq!(parts(&x), (i64::MIN, i64::MIN));
    let y = CheckRdc::new(i64::MIN, 2);
    assert_eq!(parts(&y), (i64::MIN / 2, 1));
}

#[test]
fn new_keeps_sign_of_denominator() {
    let x = CheckRdc::new(2i32, -4);
    assert_eq!(parts(&x), (1, -2));
}

#[test]
fn simplify_twice_is_simplify_once() {
    let mut x = CheckRdc::new(12i32, 18);
    let first = parts(&x);
    assert_eq!(x.simplify(), Some(()));
    assert_eq!(parts(&x), first);
    assert_eq!(first, (2, 3));
    let mut y = CheckRdc::new(i32::MIN, i32::MIN);
    assert_eq!(y.simplify(), None);
    assert_eq!(y.simplify(), None);
    assert_eq!(parts(&y), (i32::MIN, i32::MIN));
}

#[test]
fn add_half_and_third() {
    let x = CheckRdc::new(1i64, 2);
    let y = CheckRdc::new(1i64, 3);
    let s = x.add(&y).unwrap();
    assert_eq!(parts(&s), (5, 6));
}

#[test]
fn add_escalates_on_large_denominators() {
    let x = CheckRdc::new(1i32, 100_000);
    let y = CheckRdc::new(1i32, 100_000);
    let s = x.add(&y).unwrap();
    assert_eq!(parts(&s), (2, 100_000));
}

#[test]
fn add_fails_when_the_sum_does_not_fit() {
    let x = CheckRdc::new(i32::MAX, 1);
    let y = CheckRdc::new(1i32, 1);
    assert!(x.add(&y).is_none());
}

#[test]
fn add_mut_leaves_operands_simplified_after_escalation() {
    let mut x = CheckRdc::new(1i32, 100_000);
    let mut y = CheckRdc::new(3i32, 200_000);
    let s = x.add_mut(&mut y).unwrap();
    assert_eq!(parts(&s), (5, 200_000));
    assert_eq!(parts(&x), (1, 100_000));
    assert_eq!(parts(&y), (3, 200_000));
}

#[test]
fn add_is_associative_on_values() {
    let x = CheckRdc::new(1i64, 2);
    let y = CheckRdc::new(1i64, 3);
    let z = CheckRdc::new(1i64, 7);
    let left = x.add(&y).unwrap().add(&z).unwrap();
    let right = x.add(&y.add(&z).unwrap()).unwrap();
    assert_eq!(left.checked_eq(&right), Some(true));
    assert_eq!(parts(&left), (41, 42));
}

#[test]
fn sub_half_and_third() {
    let x = CheckRdc::new(1i64, 2);
    let y = CheckRdc::new(1i64, 3);
    let d = x.sub(&y).unwrap();
    assert_eq!(parts(&d), (1, 6));
}

#[test]
fn sub_unsigned_below_zero_fails() {
    let x = CheckRdc::new(1u64, 3);
    let y = CheckRdc::new(1u64, 2);
    assert!(x.sub(&y).is_none());
    let mut a = CheckRdc::new(1u32, 2);
    let mut b = CheckRdc::new(1u32, 3);
    let d = a.sub_mut(&mut b).unwrap();
    assert_eq!(parts(&d), (1, 6));
}

#[test]
fn neg_half() {
    let x = CheckRdc::new(1i64, 2);
    let n = x.neg().unwrap();
    assert_eq!(parts(&n), (-1, 2));
}

#[test]
fn mul_direct_two_thirds_four_fifths() {
    let x = CheckRdc::new(2i64, 3);
    let y = CheckRdc::new(4i64, 5);
    let p = x.mul(&y).unwrap();
    assert_eq!(parts(&p), (8, 15));
}

#[test]
fn mul_two_thirds_three_halves_is_one() {
    let x = CheckRdc::new(2i64, 3);
    let y = CheckRdc::new(3i64, 2);
    let p = x.mul(&y).unwrap();
    assert_eq!(parts(&p), (6, 6));
    let one = CheckRdc::new(1i64, 1);
    assert_eq!(p.checked_eq(&one), Some(true));
}

#[test]
fn mul_mut_leaves_operands_simplified() {
    let mut x = CheckRdc::new(100_000i32, 7);
    let mut y = CheckRdc::new(49_999i32, 100_000);
    let p = x.mul_mut(&mut y).unwrap();
    assert_eq!(parts(&p), (49_999, 7));
    assert_eq!(parts(&x), (100_000, 7));
    assert_eq!(parts(&y), (49_999, 100_000));
}

#[test]
fn mul_fails_when_reduced_product_does_not_fit() {
    let x = CheckRdc::new(65_536i32, 3);
    let y = CheckRdc::new(65_536i32, 5);
    assert!(x.mul(&y).is_none());
}

#[test]
fn div_half_by_three_quarters() {
    let x = CheckRdc::new(1i64, 2);
    let y = CheckRdc::new(3i64, 4);
    let q = x.div(&y).unwrap();
    assert_eq!(parts(&q), (4, 6));
}

#[test]
fn div_mut_leaves_operands_simplified() {
    let mut x = CheckRdc::new(100_000i32, 7);
    let mut y = CheckRdc::new(300_000i32, 70_001);
    let q = x.div_mut(&mut y).unwrap();
    assert_eq!(parts(&q), (70_001, 21));
    assert_eq!(parts(&x), (100_000, 7));
    assert_eq!(parts(&y), (300_000, 70_001));
}

#[test]
fn mul_by_scalar() {
    let x = CheckRdc::new(2i64, 3);
    let p = x.mul_scalar(&5).unwrap();
    assert_eq!(parts(&p), (10, 3));
    let big = CheckRdc::new(i32::MAX, 6);
    let q = big.mul_scalar(&6).unwrap();
    assert_eq!(parts(&q), (i32::MAX, 1));
}

#[test]
fn div_by_scalar() {
    let x = CheckRdc::new(2i64, 3);
    let q = x.div_scalar(&5).unwrap();
    assert_eq!(parts(&q), (2, 15));
    let small = CheckRdc::new(6i32, i32::MAX);
    let r = small.div_scalar(&6).unwrap();
    assert_eq!(parts(&r), (1, i32::MAX));
}

#[test]
fn eq_is_reflexive_symmetric_transitive() {
    let x = CheckRdc::new(1i64, 2);
    let y = CheckRdc::new(-1i64, -2);
    let z = CheckRdc::new(2i64, 4);
    assert_eq!(x.checked_eq(&x), Some(true));
    assert_eq!(x.checked_eq(&y), Some(true));
    assert_eq!(y.checked_eq(&x), Some(true));
    assert_eq!(y.checked_eq(&z), Some(true));
    assert_eq!(x.checked_eq(&z), Some(true));
    let w = CheckRdc::new(1i64, 3);
    assert_eq!(x.checked_eq(&w), Some(false));
    assert_eq!(w.checked_eq(&x), Some(false));
}

#[test]
fn eq_after_escalation() {
    let x = CheckRdc::new(999_999i32, 1_000_000);
    let y = CheckRdc::new(-999_999i32, -1_000_000);
    assert_eq!(x.checked_eq(&y), Some(true));
    assert_eq!(y.checked_eq(&x), Some(true));
    let z = CheckRdc::new(1_999_999i32, 2_000_000);
    assert_eq!(x.checked_eq(&z), Some(false));
    assert_eq!(x.partial_cmp(&z), Some(Ordering::Less));
    assert_eq!(z.partial_cmp(&x), Some(Ordering::Greater));
}

#[test]
fn eq_undecided_when_reduced_products_overflow() {
    let x = CheckRdc::new(i32::MAX, i32::MAX - 1);
    let y = CheckRdc::new(i32::MAX - 2, i32::MAX - 3);
    assert_eq!(x.checked_eq(&y), None);
    assert_eq!(x.partial_cmp(&y), None);
}

#[test]
fn partial_cmp_orders_values() {
    let x = CheckRdc::new(1i64, 2);
    let y = CheckRdc::new(2i64, 3);
    assert_eq!(x.partial_cmp(&y), Some(Ordering::Less));
    assert_eq!(y.partial_cmp(&x), Some(Ordering::Greater));
    assert_eq!(x.partial_cmp(&x), Some(Ordering::Equal));
    let neg_half = CheckRdc::new(1i64, -2);
    let third = CheckRdc::new(1i64, 3);
    assert_eq!(neg_half.partial_cmp(&third), Some(Ordering::Less));
    assert_eq!(third.partial_cmp(&neg_half), Some(Ordering::Greater));
}

#[test]
fn default_is_one() {
    let x: CheckRdc<i64> = CheckRdc::default();
    assert_eq!(parts(&x), (1, 1));
    let z: CheckRdc<i64> = CheckRdc::zero();
    assert_eq!(parts(&z), (0, 1));
}

#[test]
fn scalar_traits() {
    assert_eq!(CheckGcd::gcd(&-4i32, &6), Some(2));
    assert_eq!(CheckGcd::gcd(&i32::MIN, &0), None);
    assert_eq!(CheckGcd::gcd(&i64::MIN, &6), Some(2));
    assert_eq!(CheckGcd::gcd(&0u64, &0), Some(0));
    assert_eq!(Gcd::gcd(&12u64, &18), 6);
    assert_eq!(Gcd::gcd(&7u32, &0), 7);
    assert!(0i64.is_zero());
    assert!(!5i64.is_zero());
    assert!(1u32.is_one());
    assert_eq!(i32::non_zero(), 1);
    assert_eq!(Checked::checked_mul(&i32::MAX, &2), None);
    assert_eq!(Checked::checked_div(&-12i64, &4), Some(-3));
    assert_eq!(Checked::checked_add(&u64::MAX, &1), None);
}

#[test]
fn mul_mut_simplifies_unreduced_operands_after_escalation() {
    let mut x = CheckRdc::new(2i32, 3).mul(&CheckRdc::new(3, 2)).unwrap();
    assert_eq!(parts(&x), (6, 6));
    let mut y = CheckRdc::new(i32::MAX, 7);
    let p = x.mul_mut(&mut y).unwrap();
    assert_eq!(parts(&p), (i32::MAX, 7));
    assert_eq!(parts(&x), (1, 1));
    assert_eq!(parts(&y), (i32::MAX, 7));
}

#[test]
fn div_mut_keeps_operands_when_direct() {
    let mut x = CheckRdc::new(1i64, 2);
    let mut y = CheckRdc::new(3i64, 4);
    let q = x.div_mut(&mut y).unwrap();
    assert_eq!(parts(&q), (4, 6));
    assert_eq!(parts(&x), (1, 2));
    assert_eq!(parts(&y), (3, 4));
}
