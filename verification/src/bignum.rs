//! The arbitrary-precision integers of `num-bigint`, as the fraction
//! arithmetic uses them.
//!
//! A `BigUint` denotes a natural number and a `BigInt` an integer; the two
//! names below give those numbers, and each wrapper states what the
//! operation it makes does to them, as num-bigint documents it.
use num_bigint::{BigInt, BigUint};
use num_integer::Integer;
use num_traits::{Signed, Zero};
use std::cmp::Ordering;
use std::fmt::Write;
use vstd::prelude::*;

verus! {

#[verifier::external_type_specification]
#[verifier::external_body]
pub struct ExBigUint(BigUint);

#[verifier::external_type_specification]
#[verifier::external_body]
pub struct ExBigInt(BigInt);

/// The natural number that a `BigUint` holds.
pub uninterp spec fn nat_value(x: BigUint) -> nat;

/// The integer that a `BigInt` holds.
pub uninterp spec fn int_value(x: BigInt) -> int;

/// The sign of a `BigInt`, with the variants of `num_bigint::Sign`.
#[derive(Clone, Copy, PartialEq, Eq, Structural, Debug)]
pub enum Sign {
    Minus,
    NoSign,
    Plus,
}

/// The sign that num-bigint gives an integer.
pub open spec fn sign_of(i: int) -> Sign {
    if i < 0 {
        Sign::Minus
    } else if i == 0 {
        Sign::NoSign
    } else {
        Sign::Plus
    }
}

/// The integer that `BigInt::from_biguint(sign, m)` builds: the sign is
/// dropped for a zero magnitude and the magnitude for `NoSign`.
pub open spec fn signed(sign: Sign, m: nat) -> int {
    match sign {
        Sign::Minus => -m,
        Sign::NoSign => 0,
        Sign::Plus => m as int,
    }
}

/// The base-10 digit for `d < 10`.
pub open spec fn digit_char(d: nat) -> char {
    if d == 0 { '0' }
    else if d == 1 { '1' }
    else if d == 2 { '2' }
    else if d == 3 { '3' }
    else if d == 4 { '4' }
    else if d == 5 { '5' }
    else if d == 6 { '6' }
    else if d == 7 { '7' }
    else if d == 8 { '8' }
    else { '9' }
}

/// The decimal text of a natural number, without leading zeros.
pub open spec fn decimal_text(n: nat) -> Seq<char>
    decreases n,
{
    if n < 10 {
        seq![digit_char(n)]
    } else {
        decimal_text(n / 10).push(digit_char(n % 10))
    }
}

/// `BigUint::from(u32)`: the number `x`.
#[verifier::external_body]
pub(crate) fn biguint_from_u32(x: u32) -> (r: BigUint)
    ensures
        nat_value(r) == x,
{
    BigUint::from(x)
}

/// `BigUint::clone`: the same number.
#[verifier::external_body]
pub(crate) fn biguint_clone(x: &BigUint) -> (r: BigUint)
    ensures
        nat_value(r) == nat_value(*x),
{
    x.clone()
}

/// `Zero::is_zero` on a `BigUint`.
#[verifier::external_body]
pub(crate) fn biguint_is_zero(x: &BigUint) -> (r: bool)
    ensures
        r == (nat_value(*x) == 0),
{
    x.is_zero()
}

/// `BigUint % &BigUint`: the remainder; num-bigint panics on a zero divisor.
#[verifier::external_body]
pub(crate) fn biguint_rem(a: BigUint, b: &BigUint) -> (r: BigUint)
    requires
        nat_value(*b) != 0,
    ensures
        nat_value(r) == nat_value(a) % nat_value(*b),
{
    a % b
}

/// `BigUint / &BigUint`: the quotient rounded down; panics on a zero divisor.
#[verifier::external_body]
pub(crate) fn biguint_div(a: BigUint, b: &BigUint) -> (r: BigUint)
    requires
        nat_value(*b) != 0,
    ensures
        nat_value(r) == nat_value(a) / nat_value(*b),
{
    a / b
}

/// `BigUint /= BigUint`: the quotient rounded down; panics on a zero divisor.
#[verifier::external_body]
pub(crate) fn biguint_div_assign(a: &mut BigUint, b: BigUint)
    requires
        nat_value(b) != 0,
    ensures
        nat_value(*final(a)) == nat_value(*old(a)) / nat_value(b),
{
    *a /= b;
}

/// `&BigUint * &BigUint`: the product.
#[verifier::external_body]
pub(crate) fn biguint_mul(a: &BigUint, b: &BigUint) -> (r: BigUint)
    ensures
        nat_value(r) == nat_value(*a) * nat_value(*b),
{
    a * b
}

/// `BigUint += &BigUint`: the sum.
#[verifier::external_body]
pub(crate) fn biguint_add_assign(a: &mut BigUint, b: &BigUint)
    ensures
        nat_value(*final(a)) == nat_value(*old(a)) + nat_value(*b),
{
    *a += b;
}

/// `BigUint::pow`: `a` to the power `e`.
#[verifier::external_body]
pub(crate) fn biguint_pow(a: &BigUint, e: u32) -> (r: BigUint)
    ensures
        nat_value(r) == vstd::arithmetic::power::pow(nat_value(*a) as int, e as nat),
{
    a.pow(e)
}

/// `Integer::div_mod_floor` on `BigUint`: quotient and remainder; panics on
/// a zero divisor.
#[verifier::external_body]
pub(crate) fn biguint_div_mod_floor(a: &BigUint, b: &BigUint) -> (r: (BigUint, BigUint))
    requires
        nat_value(*b) != 0,
    ensures
        nat_value(r.0) == nat_value(*a) / nat_value(*b),
        nat_value(r.1) == nat_value(*a) % nat_value(*b),
{
    a.div_mod_floor(b)
}

/// `ToBigInt::to_bigint` on `BigUint`: always `Some`, of the same value.
#[verifier::external_body]
pub(crate) fn biguint_to_bigint(a: &BigUint) -> (r: Option<BigInt>)
    ensures
        r is Some,
        int_value(r->0) == nat_value(*a),
{
    num_bigint::ToBigInt::to_bigint(a)
}

/// `Display` of `BigUint`, written with `write!` at the end of `s`: the
/// decimal digits of the number.
#[verifier::external_body]
pub(crate) fn push_decimal(s: &mut String, q: &BigUint)
    ensures
        final(s)@ == old(s)@ + decimal_text(nat_value(*q)),
{
    write!(s, "{}", q).unwrap();
}

/// `BigInt::from(i32)`: the integer `x`.
#[verifier::external_body]
pub(crate) fn bigint_from_i32(x: i32) -> (r: BigInt)
    ensures
        int_value(r) == x,
{
    BigInt::from(x)
}

/// `BigInt::clone`: the same integer.
#[verifier::external_body]
pub(crate) fn bigint_clone(x: &BigInt) -> (r: BigInt)
    ensures
        int_value(r) == int_value(*x),
{
    x.clone()
}

/// `BigInt::sign`, one arm for each variant of `num_bigint::Sign`.
#[verifier::external_body]
pub(crate) fn bigint_sign(x: &BigInt) -> (r: Sign)
    ensures
        r == sign_of(int_value(*x)),
{
    match x.sign() {
        num_bigint::Sign::Minus => Sign::Minus,
        num_bigint::Sign::NoSign => Sign::NoSign,
        num_bigint::Sign::Plus => Sign::Plus,
    }
}

/// `BigInt::to_biguint`: the magnitude of a non-negative integer, `None`
/// for a negative one.
#[verifier::external_body]
pub(crate) fn bigint_to_biguint(x: &BigInt) -> (r: Option<BigUint>)
    ensures
        r is Some <==> int_value(*x) >= 0,
        r is Some ==> nat_value(r->0) == int_value(*x),
{
    x.to_biguint()
}

/// `-BigInt`: the negated integer.
#[verifier::external_body]
pub(crate) fn bigint_neg(x: BigInt) -> (r: BigInt)
    ensures
        int_value(r) == -int_value(x),
{
    -x
}

/// `BigInt::from_biguint`, one arm for each variant of `num_bigint::Sign`.
#[verifier::external_body]
pub(crate) fn bigint_from_biguint(sign: Sign, m: BigUint) -> (r: BigInt)
    ensures
        int_value(r) == signed(sign, nat_value(m)),
{
    let s = match sign {
        Sign::Minus => num_bigint::Sign::Minus,
        Sign::NoSign => num_bigint::Sign::NoSign,
        Sign::Plus => num_bigint::Sign::Plus,
    };
    BigInt::from_biguint(s, m)
}

/// `BigInt + BigInt`: the sum.
#[verifier::external_body]
pub(crate) fn bigint_add(a: BigInt, b: BigInt) -> (r: BigInt)
    ensures
        int_value(r) == int_value(a) + int_value(b),
{
    a + b
}

/// `BigInt - BigInt`: the difference.
#[verifier::external_body]
pub(crate) fn bigint_sub(a: BigInt, b: BigInt) -> (r: BigInt)
    ensures
        int_value(r) == int_value(a) - int_value(b),
{
    a - b
}

/// `&BigInt * &BigInt`: the product.
#[verifier::external_body]
pub(crate) fn bigint_mul(a: &BigInt, b: &BigInt) -> (r: BigInt)
    ensures
        int_value(r) == int_value(*a) * int_value(*b),
{
    a * b
}

/// `Signed::abs` on `BigInt`: the absolute value.
#[verifier::external_body]
pub(crate) fn bigint_abs(a: &BigInt) -> (r: BigInt)
    ensures
        int_value(r) == (if int_value(*a) < 0 { -int_value(*a) } else { int_value(*a) }),
{
    a.abs()
}

/// `Zero::zero` for `BigInt`.
#[verifier::external_body]
pub(crate) fn bigint_zero() -> (r: BigInt)
    ensures
        int_value(r) == 0,
{
    BigInt::zero()
}

/// The order of two integers.
pub open spec fn int_order(a: int, b: int) -> Ordering {
    if a < b {
        Ordering::Less
    } else if a == b {
        Ordering::Equal
    } else {
        Ordering::Greater
    }
}

/// `PartialOrd::partial_cmp` on `BigInt`: always `Some`, with the order of
/// the two integers.
#[verifier::external_body]
pub(crate) fn bigint_partial_cmp(a: &BigInt, b: &BigInt) -> (r: Option<Ordering>)
    ensures
        r == Some(int_order(int_value(*a), int_value(*b))),
{
    a.partial_cmp(b)
}

/// The decimal text of an integer: a minus sign for a negative one, then
/// the digits of its magnitude.
pub open spec fn int_text(i: int) -> Seq<char> {
    if i < 0 {
        seq!['-'] + decimal_text((-i) as nat)
    } else {
        decimal_text(i as nat)
    }
}

/// `Display` of `BigInt`, written with `write!` at the end of `s`.
#[verifier::external_body]
pub(crate) fn push_int_decimal(s: &mut String, x: &BigInt)
    ensures
        final(s)@ == old(s)@ + int_text(int_value(*x)),
{
    write!(s, "{}", x).unwrap();
}

} // verus!
