use num_bigint::{BigInt, BigUint};
use spacestorage::fraction::{pi, split, Fraction};
use spacestorage::bignum::Sign;
use std::cmp::Ordering;

fn frac(n: i32, d: u32) -> Fraction {
    Fraction::new(BigInt::from(n), BigUint::from(d))
}

fn parts(f: &Fraction) -> (BigInt, BigUint) {
    (f.numerator.clone(), f.denominator.clone())
}

#[test]
fn new_reduces_to_lowest_terms() {
    assert_eq!(parts(&frac(6, 4)), (BigInt::from(3), BigUint::from(2u32)));
    assert_eq!(parts(&frac(-6, 4)), (BigInt::from(-3), BigUint::from(2u32)));
    assert_eq!(parts(&frac(0, 7)), (BigInt::from(0), BigUint::from(1u32)));
    assert_eq!(parts(&frac(5, 1)), (BigInt::from(5), BigUint::from(1u32)));
}

#[test]
fn simplify_divides_by_gcd() {
    let mut f = Fraction { numerator: BigInt::from(-12), denominator: BigUint::from(18u32) };
    f.simplify();
    assert_eq!(parts(&f), (BigInt::from(-2), BigUint::from(3u32)));
    let mut g = Fraction { numerator: BigInt::from(4), denominator: BigUint::from(0u32) };
    g.simplify();
    assert_eq!(parts(&g), (BigInt::from(1), BigUint::from(0u32)));
}

#[test]
fn from_whole_number() {
    assert_eq!(parts(&Fraction::from(16)), (BigInt::from(16), BigUint::from(1u32)));
    assert_eq!(parts(&Fraction::from(-4)), (BigInt::from(-4), BigUint::from(1u32)));
}

#[test]
fn arithmetic() {
    let half = frac(1, 2);
    let third = frac(1, 3);
    assert_eq!(parts(&half.add(&third)), (BigInt::from(5), BigUint::from(6u32)));
    assert_eq!(parts(&half.sub(&third)), (BigInt::from(1), BigUint::from(6u32)));
    assert_eq!(parts(&third.sub(&half)), (BigInt::from(-1), BigUint::from(6u32)));
    assert_eq!(parts(&half.mul(&third)), (BigInt::from(1), BigUint::from(6u32)));
    assert_eq!(parts(&half.div(&third)), (BigInt::from(3), BigUint::from(2u32)));
    assert_eq!(parts(&frac(6, 1).div(&frac(4, 1))), (BigInt::from(3), BigUint::from(2u32)));
}

#[test]
fn inverse_and_abs() {
    assert_eq!(parts(&frac(3, 4).inverse()), (BigInt::from(4), BigUint::from(3u32)));
    assert_eq!(parts(&frac(-3, 4).inverse()), (BigInt::from(-4), BigUint::from(3u32)));
    assert_eq!(parts(&frac(-3, 4).abs()), (BigInt::from(3), BigUint::from(4u32)));
    // law: the reciprocal of the reciprocal is the fraction
    assert_eq!(parts(&frac(-5, 7).inverse().inverse()), (BigInt::from(-5), BigUint::from(7u32)));
    // law: a fraction times its reciprocal is one
    assert_eq!(parts(&frac(-5, 7).mul(&frac(-5, 7).inverse())), (BigInt::from(1), BigUint::from(1u32)));
}

#[test]
fn laws_on_values() {
    let a = frac(2, 9);
    let b = frac(-7, 4);
    // commutativity
    assert_eq!(parts(&a.add(&b)), parts(&b.add(&a)));
    assert_eq!(parts(&a.mul(&b)), parts(&b.mul(&a)));
    // x - x == 0
    assert_eq!(parts(&b.sub(&b)), (BigInt::from(0), BigUint::from(1u32)));
    // (a + b) - b == a
    assert_eq!(parts(&a.add(&b).sub(&b)), parts(&a));
}

#[test]
fn comparison() {
    assert_eq!(frac(1, 2).partial_cmp(&frac(1, 3)), Some(Ordering::Greater));
    assert_eq!(frac(1, 3).partial_cmp(&frac(1, 2)), Some(Ordering::Less));
    assert_eq!(frac(2, 4).partial_cmp(&frac(1, 2)), Some(Ordering::Equal));
    assert!(frac(-1, 2).gt(&frac(-2, 3)));
    assert!(!frac(1, 2).gt(&frac(1, 2)));
}

#[test]
fn decimal_text() {
    assert_eq!(frac(1, 3).decimal(5), "0.33333");
    assert_eq!(frac(-7, 2).decimal(3), "-3.5");
    assert_eq!(frac(4, 1).decimal(3), "4");
    assert_eq!(frac(-12, 1).decimal(0), "-12");
    assert_eq!(frac(1, 8).decimal(2), "0.12");
    assert_eq!(frac(22, 7).decimal(6), "3.142857");
    assert_eq!(frac(1, 3).decimal(0), "0.");
}

#[test]
fn pi_digits() {
    assert_eq!(pi(0), "3.");
    assert_eq!(pi(1), "3.1");
    assert_eq!(pi(5), "3.14159");
    assert_eq!(pi(10), "3.1415926535");
    assert_eq!(pi(20), "3.14159265358979323846");
}

#[test]
fn display_text() {
    assert_eq!(frac(-6, 4).to_string(), "-3 / 2");
    assert_eq!(frac(0, 5).to_string(), "0 / 1");
}

#[test]
fn normal_form() {
    // simplifying twice is simplifying once
    let mut f = Fraction { numerator: BigInt::from(30), denominator: BigUint::from(42u32) };
    f.simplify();
    let once = parts(&f);
    f.simplify();
    assert_eq!(parts(&f), once);
    assert_eq!(once, (BigInt::from(5), BigUint::from(7u32)));
    // equal values give equal fractions
    assert_eq!(frac(2, 4), frac(1, 2));
    assert_eq!(frac(-9, 12), frac(-3, 4));
    assert_ne!(frac(1, 2), frac(2, 3));
}

#[test]
fn try_new_refuses_zero_denominator() {
    assert!(Fraction::try_new(BigInt::from(3), BigUint::from(0u32)).is_none());
    let f = Fraction::try_new(BigInt::from(-10), BigUint::from(4u32)).unwrap();
    assert_eq!(parts(&f), (BigInt::from(-5), BigUint::from(2u32)));
}

#[test]
fn split_gives_sign_and_magnitude() {
    let (s, m) = split(&BigInt::from(-42));
    assert!(matches!(s, Sign::Minus));
    assert_eq!(m, BigUint::from(42u32));
    let (s, m) = split(&BigInt::from(0));
    assert!(matches!(s, Sign::NoSign));
    assert_eq!(m, BigUint::from(0u32));
    let (s, m) = split(&BigInt::from(7));
    assert!(matches!(s, Sign::Plus));
    assert_eq!(m, BigUint::from(7u32));
}
