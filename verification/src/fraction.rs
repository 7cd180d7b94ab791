//! Exact fractions over arbitrary-precision integers, kept in lowest terms,
//! and the approximation of pi that is computed with them.
use crate::bignum::{
    bigint_abs, bigint_add, bigint_clone, bigint_from_biguint, bigint_from_i32, bigint_mul,
    bigint_neg, bigint_partial_cmp, bigint_sign, bigint_sub, bigint_to_biguint, bigint_zero,
    biguint_add_assign, biguint_clone, biguint_div, biguint_div_assign, biguint_div_mod_floor,
    biguint_from_u32, biguint_is_zero, biguint_mul, biguint_pow, biguint_rem, biguint_to_bigint,
    decimal_text, int_order, int_text, int_value, nat_value, push_decimal, push_int_decimal,
    sign_of, signed, Sign,
};
use crate::strings::string_push;
use num_bigint::{BigInt, BigUint};
use std::cmp::Ordering;
use vstd::arithmetic::power::{lemma_pow_positive, pow};
use vstd::arithmetic::div_mod::{
    lemma_div_basics, lemma_fundamental_div_mod, lemma_mod_multiples_basic, lemma_mod_self_0,
    lemma_small_mod, lemma_truncate_middle,
};
use vstd::prelude::*;

verus! {

/// The absolute value of an integer.
pub open spec fn abs(i: int) -> nat {
    if i < 0 {
        (-i) as nat
    } else {
        i as nat
    }
}

/// Euclid's greatest common divisor; `gcd_nat(a, 0) == a`.
pub open spec fn gcd_nat(a: nat, b: nat) -> nat
    decreases b,
{
    if b == 0 {
        a
    } else {
        gcd_nat(b, a % b)
    }
}

/// The pair (numerator, denominator) that `Fraction::simplify` makes of
/// `(n, d)`: both divided by their greatest common divisor, the sign kept
/// on the numerator.
pub open spec fn reduce(n: int, d: nat) -> (int, nat) {
    let g = gcd_nat(abs(n), d);
    (signed(sign_of(n), abs(n) / g), d / g)
}

/// Sum of two fractions, in lowest terms.
pub open spec fn frac_add(a: (int, nat), b: (int, nat)) -> (int, nat) {
    reduce(a.0 * b.1 + b.0 * a.1, a.1 * b.1)
}

/// Difference of two fractions, in lowest terms.
pub open spec fn frac_sub(a: (int, nat), b: (int, nat)) -> (int, nat) {
    reduce(a.0 * b.1 - b.0 * a.1, a.1 * b.1)
}

/// Product of two fractions, in lowest terms.
pub open spec fn frac_mul(a: (int, nat), b: (int, nat)) -> (int, nat) {
    reduce(a.0 * b.0, a.1 * b.1)
}

/// The reciprocal of a fraction, with the sign moved to the numerator.
pub open spec fn frac_inverse(a: (int, nat)) -> (int, nat) {
    if a.0 >= 0 {
        reduce(a.1 as int, a.0 as nat)
    } else {
        reduce(-(a.1 as int), abs(a.0))
    }
}

/// Quotient of two fractions, in lowest terms.
pub open spec fn frac_div(a: (int, nat), b: (int, nat)) -> (int, nat) {
    frac_mul(a, frac_inverse(b))
}

/// The fraction with the sign of its numerator dropped.
pub open spec fn frac_abs(a: (int, nat)) -> (int, nat) {
    (abs(a.0) as int, a.1)
}

/// `a > b` for fractions with positive denominators.
pub open spec fn frac_gt(a: (int, nat), b: (int, nat)) -> bool {
    a.0 * b.1 > b.0 * a.1
}

/// The digits after the decimal point produced by long division of `num`
/// by `d`, at most `k` of them, stopping early at a zero remainder.
pub open spec fn fraction_digits(num: nat, d: nat, k: nat) -> Seq<char>
    decreases k,
{
    if k == 0 || d == 0 {
        seq![]
    } else {
        decimal_text(num / d) + if num % d == 0 {
            seq![]
        } else {
            fraction_digits((num % d) * 10, d, (k - 1) as nat)
        }
    }
}

/// The text that `Fraction::decimal` gives for `f` and `precision`: a minus
/// sign for a negative fraction, the integral part, and, unless the fraction
/// is whole, a point and at most `precision` digits, truncated.
pub open spec fn decimal_expansion(f: (int, nat), precision: nat) -> Seq<char> {
    let a = abs(f.0);
    (if f.0 < 0 {
        seq!['-']
    } else {
        seq![]
    }) + decimal_text(a / f.1) + (if a % f.1 == 0 {
        seq![]
    } else {
        seq!['.'] + fraction_digits((a % f.1) * 10, f.1, precision)
    })
}

/// A fraction of arbitrary-precision integers. Every constructor and
/// operation leaves it in lowest terms with a positive denominator.
#[derive(Debug, PartialEq, Eq)]
pub struct Fraction {
    pub numerator: BigInt,
    pub denominator: BigUint,
}

impl View for Fraction {
    type V = (int, nat);

    open spec fn view(&self) -> (int, nat) {
        (int_value(self.numerator), nat_value(self.denominator))
    }
}

/// The greatest common divisor of two numbers, not both zero, is positive.
pub proof fn lemma_gcd_positive(a: nat, b: nat)
    requires
        a > 0 || b > 0,
    ensures
        gcd_nat(a, b) > 0,
    decreases b,
{
    if b > 0 {
        lemma_gcd_positive(b, a % b);
    }
}

/// Multiplying the magnitude and keeping the sign multiplies the integer.
proof fn lemma_signed_times(n: int, m: nat)
    ensures
        signed(sign_of(n), abs(n) * m) == n * m,
{
    if n < 0 {
        assert(-(abs(n) * m) == n * m) by (nonlinear_arith)
            requires
                n < 0,
                abs(n) == -n,
        ;
    } else if n == 0 {
        assert(abs(n) * m == 0) by (nonlinear_arith)
            requires
                abs(n) == 0,
        ;
    } else {
    }
}

/// The sign of an integer and its magnitude, from which
/// `BigInt::from_biguint` builds the integer again.
pub fn split(x: &BigInt) -> (r: (Sign, BigUint))
    ensures
        r.0 == sign_of(int_value(*x)),
        nat_value(r.1) == abs(int_value(*x)),
        signed(r.0, nat_value(r.1)) == int_value(*x),
{
    (bigint_sign(x), to_biguint_lossy(x))
}

/// The magnitude of an integer.
fn to_biguint_lossy(x: &BigInt) -> (r: BigUint)
    ensures
        nat_value(r) == abs(int_value(*x)),
{
    match bigint_to_biguint(x) {
        Some(m) => m,
        None => {
            let negated = bigint_neg(bigint_clone(x));
            bigint_to_biguint(&negated).unwrap()
        },
    }
}

/// Greatest common divisor by Euclid's algorithm.
fn gcd(a: &BigUint, b: &BigUint) -> (r: BigUint)
    ensures
        nat_value(r) == gcd_nat(nat_value(*a), nat_value(*b)),
{
    let mut x = biguint_clone(a);
    let mut y = biguint_clone(b);
    while !biguint_is_zero(&y)
        invariant
            gcd_nat(nat_value(x), nat_value(y)) == gcd_nat(nat_value(*a), nat_value(*b)),
        decreases nat_value(y),
    {
        let r = biguint_rem(x, &y);
        x = y;
        y = r;
    }
    x
}

impl Clone for Fraction {
    fn clone(&self) -> (r: Self)
        ensures
            r@ == self@,
    {
        Fraction {
            numerator: bigint_clone(&self.numerator),
            denominator: biguint_clone(&self.denominator),
        }
    }
}

impl Fraction {
    /// The fraction `numerator / denominator` in lowest terms.
    pub fn new(numerator: BigInt, denominator: BigUint) -> (r: Self)
        requires
            nat_value(denominator) != 0,
        ensures
            r@ == reduce(int_value(numerator), nat_value(denominator)),
    {
        let mut ret = Fraction { numerator, denominator };
        ret.simplify();
        ret
    }

    /// The fraction `numerator / denominator` in lowest terms, or `None`
    /// when the denominator is zero.
    pub fn try_new(numerator: BigInt, denominator: BigUint) -> (r: Option<Self>)
        ensures
            r is Some <==> nat_value(denominator) != 0,
            r matches Some(f) ==> f@ == reduce(int_value(numerator), nat_value(denominator)),
    {
        if biguint_is_zero(&denominator) {
            None
        } else {
            Some(Self::new(numerator, denominator))
        }
    }

    /// The whole number `x`.
    pub fn from(x: i32) -> (r: Self)
        ensures
            r@ == (x as int, 1nat),
    {
        let r = Self::new(bigint_from_i32(x), biguint_from_u32(1));
        proof {
            let n = x as int;
            assert(abs(n) % 1 == 0);
            assert(gcd_nat(1, 0) == 1);
            assert(gcd_nat(abs(n), 1) == 1);
            vstd::arithmetic::div_mod::lemma_div_basics(abs(n) as int);
            assert(abs(n) / 1 == abs(n));
            vstd::arithmetic::div_mod::lemma_div_basics(1);
            assert(signed(sign_of(n), abs(n)) == n);
            assert(reduce(n, 1) == (n, 1nat));
        }
        r
    }

    /// Divides numerator and denominator by their greatest common divisor.
    pub fn simplify(&mut self)
        requires
            old(self)@.0 != 0 || old(self)@.1 != 0,
        ensures
            final(self)@ == reduce(old(self)@.0, old(self)@.1),
    {
        let (sign, abs) = split(&self.numerator);
        let g = gcd(&abs, &self.denominator);
        proof {
            lemma_gcd_positive(nat_value(abs), nat_value(self.denominator));
        }
        self.numerator = bigint_from_biguint(sign, biguint_div(abs, &g));
        biguint_div_assign(&mut self.denominator, g);
    }

    /// The reciprocal; the sign stays on the numerator.
    pub fn inverse(&self) -> (r: Self)
        requires
            self@.0 != 0,
        ensures
            r@ == frac_inverse(self@),
    {
        if let Some(numerator) = bigint_to_biguint(&self.numerator) {
            Fraction::new(biguint_to_bigint(&self.denominator).unwrap(), numerator)
        } else {
            Fraction::new(
                bigint_from_biguint(bigint_sign(&self.numerator), biguint_clone(&self.denominator)),
                bigint_to_biguint(&bigint_neg(bigint_clone(&self.numerator))).unwrap(),
            )
        }
    }

    /// The fraction with a non-negative numerator.
    pub fn abs(&self) -> (r: Self)
        ensures
            r@ == frac_abs(self@),
    {
        Self {
            numerator: bigint_abs(&self.numerator),
            denominator: biguint_clone(&self.denominator),
        }
    }

    /// The decimal text of the fraction, truncated after at most
    /// `precision` digits behind the point.
    pub fn decimal(&self, precision: usize) -> (ret: String)
        requires
            self@.1 != 0,
        ensures
            ret@ == decimal_expansion(self@, precision as nat),
    {
        let mut ret = String::new();
        let numerator = bigint_clone(&self.numerator);
        let denominator = biguint_clone(&self.denominator);
        let ghost d = nat_value(denominator);
        let ghost a = abs(self@.0);
        let (sign, mut numerator) = split(&numerator);
        if let Sign::Minus = sign {
            string_push(&mut ret, '-');
        }
        let base = biguint_from_u32(10);
        let (q, r) = biguint_div_mod_floor(&numerator, &denominator);
        push_decimal(&mut ret, &q);
        if biguint_is_zero(&r) {
            assert(ret@ =~= decimal_expansion(self@, precision as nat));
            return ret;
        } else {
            string_push(&mut ret, '.');
        }
        let ghost target = decimal_expansion(self@, precision as nat);
        assert(ret@ + fraction_digits((a % d) * 10, d, precision as nat) =~= target);
        numerator = biguint_mul(&r, &base);
        let mut i: usize = 0;
        while i < precision
            invariant_except_break
                i <= precision,
                ret@ + fraction_digits(nat_value(numerator), d, (precision - i) as nat) == target,
            invariant
                nat_value(denominator) == d,
                d > 0,
                nat_value(base) == 10,
            ensures
                ret@ == target,
            decreases precision - i,
        {
            let (q, r) = biguint_div_mod_floor(&numerator, &denominator);
            push_decimal(&mut ret, &q);
            if biguint_is_zero(&r) {
                assert(ret@ =~= target);
                break;
            }
            numerator = biguint_mul(&r, &base);
            i += 1;
            assert(ret@ + fraction_digits(nat_value(numerator), d, (precision - i) as nat) =~= target);
        }
        ret
    }

    /// The text `numerator / denominator`, as the fraction is displayed.
    pub fn to_string(&self) -> (r: String)
        ensures
            r@ == int_text(self@.0) + " / "@ + decimal_text(self@.1),
    {
        let mut ret = String::new();
        push_int_decimal(&mut ret, &self.numerator);
        ret.append(" / ");
        push_decimal(&mut ret, &self.denominator);
        ret
    }

    /// Sum.
    pub fn add(&self, other: &Fraction) -> (r: Fraction)
        requires
            self@.1 != 0,
            other@.1 != 0,
        ensures
            r@ == frac_add(self@, other@),
    {
        let lhs = {
            let (sign, abs) = split(&self.numerator);
            bigint_from_biguint(sign, biguint_mul(&abs, &other.denominator))
        };
        let rhs = {
            let (sign, abs) = split(&other.numerator);
            bigint_from_biguint(sign, biguint_mul(&abs, &self.denominator))
        };
        proof {
            lemma_signed_times(self@.0, other@.1);
            lemma_signed_times(other@.0, self@.1);
            lemma_nonzero_product(self@.1, other@.1);
        }
        Fraction::new(bigint_add(lhs, rhs), biguint_mul(&self.denominator, &other.denominator))
    }

    /// Difference.
    pub fn sub(&self, other: &Fraction) -> (r: Fraction)
        requires
            self@.1 != 0,
            other@.1 != 0,
        ensures
            r@ == frac_sub(self@, other@),
    {
        let lhs = {
            let (sign, abs) = split(&self.numerator);
            bigint_from_biguint(sign, biguint_mul(&abs, &other.denominator))
        };
        let rhs = {
            let (sign, abs) = split(&other.numerator);
            bigint_from_biguint(sign, biguint_mul(&abs, &self.denominator))
        };
        proof {
            lemma_signed_times(self@.0, other@.1);
            lemma_signed_times(other@.0, self@.1);
            lemma_nonzero_product(self@.1, other@.1);
        }
        Fraction::new(bigint_sub(lhs, rhs), biguint_mul(&self.denominator, &other.denominator))
    }

    /// Product.
    pub fn mul(&self, other: &Fraction) -> (r: Fraction)
        requires
            self@.1 != 0,
            other@.1 != 0,
        ensures
            r@ == frac_mul(self@, other@),
    {
        proof {
            lemma_nonzero_product(self@.1, other@.1);
        }
        Fraction::new(
            bigint_mul(&self.numerator, &other.numerator),
            biguint_mul(&self.denominator, &other.denominator),
        )
    }

    /// Quotient: the product with the reciprocal of `other`.
    pub fn div(&self, other: &Fraction) -> (r: Fraction)
        requires
            self@.1 != 0,
            other@.0 != 0,
        ensures
            r@ == frac_div(self@, other@),
    {
        let inv = other.inverse();
        proof {
            if other@.0 >= 0 {
                lemma_reduce_value(other@.1 as int, other@.0 as nat);
            } else {
                lemma_reduce_value(-(other@.1 as int), abs(other@.0));
            }
        }
        self.mul(&inv)
    }

    /// The order of two fractions: the sign of the numerator of their
    /// difference.
    pub fn partial_cmp(&self, other: &Self) -> (r: Option<Ordering>)
        requires
            self@.1 != 0,
            other@.1 != 0,
        ensures
            r == Some(int_order(self@.0 * other@.1, other@.0 * self@.1)),
    {
        let diff = self.sub(other);
        proof {
            lemma_nonzero_product(self@.1, other@.1);
            lemma_reduce_value(self@.0 * other@.1 - other@.0 * self@.1, self@.1 * other@.1);
        }
        bigint_partial_cmp(&diff.numerator, &bigint_zero())
    }

    /// `self > other`.
    pub fn gt(&self, other: &Self) -> (r: bool)
        requires
            self@.1 != 0,
            other@.1 != 0,
        ensures
            r == frac_gt(self@, other@),
    {
        match self.partial_cmp(other) {
            Some(Ordering::Greater) => true,
            _ => false,
        }
    }
}

/// A product of non-zero numbers is non-zero.
proof fn lemma_nonzero_product(a: nat, b: nat)
    requires
        a != 0,
        b != 0,
    ensures
        a * b != 0,
{
    assert(a * b != 0) by (nonlinear_arith)
        requires
            a != 0,
            b != 0,
    ;
}


/// The greatest common divisor is positive and divides both numbers.
pub proof fn lemma_gcd_divides(a: nat, b: nat)
    requires
        a > 0 || b > 0,
    ensures
        gcd_nat(a, b) > 0,
        a % gcd_nat(a, b) == 0,
        b % gcd_nat(a, b) == 0,
    decreases b,
{
    let g = gcd_nat(a, b);
    if b == 0 {
        lemma_mod_self_0(a as int);
        lemma_small_mod(0, a);
    } else {
        lemma_gcd_divides(b, a % b);
        let r = a % b;
        lemma_fundamental_div_mod(a as int, b as int);
        lemma_fundamental_div_mod(b as int, g as int);
        lemma_fundamental_div_mod(r as int, g as int);
        let k: int = ((b / g) * (a / b) + r / g) as int;
        assert(a == k * g) by (nonlinear_arith)
            requires
                a == b * (a / b) + r,
                b == g * (b / g) + 0,
                r == g * (r / g) + 0,
                k == (b / g) * (a / b) + r / g,
        ;
        lemma_mod_multiples_basic(k, g as int);
    }
}

/// Euclid's greatest common divisor does not depend on the order of its
/// arguments.
pub proof fn lemma_gcd_commutes(a: nat, b: nat)
    ensures
        gcd_nat(a, b) == gcd_nat(b, a),
{
    if a == b {
    } else if b == 0 {
        lemma_small_mod(0, a);
        assert(gcd_nat(0, a) == gcd_nat(a, 0));
    } else if a == 0 {
        lemma_small_mod(0, b);
        assert(gcd_nat(0, b) == gcd_nat(b, 0));
    } else if a < b {
        lemma_small_mod(a, b);
        assert(gcd_nat(a, b) == gcd_nat(b, a));
    } else {
        lemma_small_mod(b, a);
        assert(gcd_nat(b, a) == gcd_nat(a, b));
    }
}

/// A common factor comes out of the greatest common divisor.
pub proof fn lemma_gcd_scales(a: nat, b: nat, k: nat)
    requires
        k > 0,
    ensures
        gcd_nat(a * k, b * k) == gcd_nat(a, b) * k,
    decreases b,
{
    if b == 0 {
        assert(b * k == 0);
    } else {
        lemma_gcd_scales(b, a % b, k);
        lemma_truncate_middle(a as int, k as int, b as int);
        assert((a * k) % (b * k) == (a % b) * k) by (nonlinear_arith)
            requires
                (k * a) % (k * b) == k * (a % b),
        ;
        assert(b * k > 0) by (nonlinear_arith)
            requires
                b > 0,
                k > 0,
        ;
    }
}

/// The gcd of 1 and a positive number is 1.
proof fn lemma_gcd_one(m: nat)
    requires
        m > 0,
    ensures
        gcd_nat(1, m) == 1,
{
    lemma_gcd_commutes(1, m);
    lemma_small_mod(0, 1);
    assert(m % 1 == 0);
    assert(gcd_nat(m, 1) == gcd_nat(1, 0));
}

/// `reduce` divides both parts by a positive common divisor: the result has
/// the value of `n / d`, a positive denominator and the sign of `n`.
pub proof fn lemma_reduce_value(n: int, d: nat)
    requires
        d > 0,
    ensures
        reduce(n, d).1 > 0,
        reduce(n, d).0 * d == n * reduce(n, d).1,
        sign_of(reduce(n, d).0) == sign_of(n),
        abs(reduce(n, d).0) == abs(n) / gcd_nat(abs(n), d),
{
    let g = gcd_nat(abs(n), d);
    lemma_gcd_divides(abs(n), d);
    let a = abs(n) / g;
    let b = d / g;
    lemma_fundamental_div_mod(abs(n) as int, g as int);
    lemma_fundamental_div_mod(d as int, g as int);
    assert(b > 0) by (nonlinear_arith)
        requires
            d == g * b + 0,
            d > 0,
    ;
    assert(abs(n) > 0 ==> a > 0) by (nonlinear_arith)
        requires
            abs(n) == g * a + 0,
    ;
    let r = reduce(n, d).0;
    assert(r * d == n * b) by (nonlinear_arith)
        requires
            abs(n) == g * a,
            d == g * b,
            n < 0 ==> r == -a && n == -abs(n),
            n >= 0 ==> r == a && n == abs(n),
    ;
}

/// `reduce` leaves the numerator and denominator without a common divisor
/// other than 1.
pub proof fn lemma_reduce_lowest(n: int, d: nat)
    requires
        d > 0,
    ensures
        gcd_nat(abs(reduce(n, d).0), reduce(n, d).1) == 1,
{
    let g = gcd_nat(abs(n), d);
    lemma_gcd_divides(abs(n), d);
    lemma_reduce_value(n, d);
    let a = abs(n) / g;
    let b = d / g;
    lemma_fundamental_div_mod(abs(n) as int, g as int);
    lemma_fundamental_div_mod(d as int, g as int);
    lemma_gcd_scales(a, b, g);
    assert(a * g == abs(n) && b * g == d) by (nonlinear_arith)
        requires
            abs(n) == g * a + 0,
            d == g * b + 0,
    ;
    assert(gcd_nat(a, b) == 1) by (nonlinear_arith)
        requires
            gcd_nat(a, b) * g == g,
            g > 0,
    ;
}

/// A fraction already in lowest terms is left as it is by `reduce`.
pub proof fn lemma_reduce_lowest_unchanged(n: int, d: nat)
    requires
        d > 0,
        gcd_nat(abs(n), d) == 1,
    ensures
        reduce(n, d) == (n, d),
{
    lemma_div_basics(abs(n) as int);
    lemma_div_basics(d as int);
}


/// Same value: `p.0 / p.1 == q.0 / q.1` for positive denominators.
pub open spec fn same_value(p: (int, int), q: (int, int)) -> bool {
    p.0 * q.1 == q.0 * p.1
}

/// A product of fractions has the value of the product of the values.
pub proof fn lemma_mul_value(p: (int, nat), q: (int, nat), a: int, b: int, c: int, e: int)
    requires
        p.1 > 0,
        q.1 > 0,
        b > 0,
        e > 0,
        p.0 * b == a * p.1,
        q.0 * e == c * q.1,
    ensures
        frac_mul(p, q).1 > 0,
        frac_mul(p, q).0 * (b * e) == (a * c) * frac_mul(p, q).1,
{
    let p1 = p.1 as int;
    let q1 = q.1 as int;
    assert(p1 * q1 > 0) by (nonlinear_arith)
        requires
            p1 > 0,
            q1 > 0,
    ;
    lemma_reduce_value(p.0 * q.0, (p.1 * q.1) as nat);
    let r = frac_mul(p, q);
    let r0 = r.0;
    let r1 = r.1 as int;
    let big_n = p.0 * q.0;
    let big_d = p1 * q1;
    let be = b * e;
    let ac = a * c;
    assert(big_n * be == ac * big_d) by (nonlinear_arith)
        requires
            big_n == p.0 * q.0,
            big_d == p1 * q1,
            be == b * e,
            ac == a * c,
            p.0 * b == a * p1,
            q.0 * e == c * q1,
    ;
    assert(r0 * be * big_d == big_n * be * r1) by (nonlinear_arith)
        requires
            r0 * big_d == big_n * r1,
    ;
    assert(r0 * be * big_d == ac * r1 * big_d) by (nonlinear_arith)
        requires
            r0 * be * big_d == big_n * be * r1,
            big_n * be == ac * big_d,
    ;
    assert(r0 * be == ac * r1) by (nonlinear_arith)
        requires
            r0 * be * big_d == ac * r1 * big_d,
            big_d > 0,
    ;
}

/// The sign of the `k`-th term of the arctangent series.
pub open spec fn alternating(k: nat) -> int {
    if k % 2 == 0 {
        1
    } else {
        -1
    }
}

/// `x` to the power `2k + 1`, as the arctangent loop builds it: `x`, then
/// multiplied by `x * x` once per step.
pub open spec fn atan_power(x: (int, nat), k: nat) -> (int, nat)
    decreases k,
{
    if k == 0 {
        x
    } else {
        frac_mul(atan_power(x, (k - 1) as nat), frac_mul(x, x))
    }
}

/// The `k`-th term `(-1)^k x^(2k+1) / (2k+1)` of the arctangent series.
pub open spec fn atan_term(x: (int, nat), k: nat) -> (int, nat) {
    if k == 0 {
        x
    } else {
        frac_mul(atan_power(x, k), reduce(alternating(k), 2 * k + 1))
    }
}

/// The sum of the first `k` terms of the arctangent series.
pub open spec fn atan_partial(x: (int, nat), k: nat) -> (int, nat)
    decreases k,
{
    if k == 0 {
        (0, 1)
    } else {
        frac_add(atan_partial(x, (k - 1) as nat), atan_term(x, (k - 1) as nat))
    }
}

/// `10` to the power `e`.
pub open spec fn ten_pow(e: u32) -> nat {
    pow(10, e as nat) as nat
}

/// The `k`-th term exceeds `10^-e` in absolute value.
pub open spec fn term_exceeds(x: (int, nat), e: u32, k: nat) -> bool {
    frac_gt(frac_abs(atan_term(x, k)), (1, ten_pow(e)))
}

/// The `k`-th term is the first that does not exceed `10^-e`.
pub open spec fn atan_stops_at(x: (int, nat), e: u32, k: nat) -> bool {
    &&& forall|j: nat| j < k ==> term_exceeds(x, e, j)
    &&& !term_exceeds(x, e, k)
}

/// The arctangent series of `x` summed while its terms exceed `10^-e`.
pub open spec fn atan_value(x: (int, nat), e: u32) -> (int, nat) {
    atan_partial(x, choose|k: nat| atan_stops_at(x, e, k))
}

/// Machin's formula `16 atan(1/5) - 4 atan(1/239)` with the series summed
/// to `precision + 2` and `precision + 1` places.
pub open spec fn pi_approx(precision: u64) -> (int, nat) {
    frac_sub(
        frac_mul((16, 1), atan_value((1, 5), (precision + 2) as u32)),
        frac_mul((4, 1), atan_value((1, 239), (precision + 1) as u32)),
    )
}

/// The arctangent loop stops at one index only: the first small term.
proof fn lemma_stop_unique(x: (int, nat), e: u32, k1: nat, k2: nat)
    requires
        atan_stops_at(x, e, k1),
        atan_stops_at(x, e, k2),
    ensures
        k1 == k2,
{
    if k1 < k2 {
        assert(term_exceeds(x, e, k1));
    } else if k2 < k1 {
        assert(term_exceeds(x, e, k2));
    }
}

/// The magnitude of a power is the power of the magnitude.
proof fn lemma_pow_abs(a: int, n: nat)
    ensures
        abs(pow(a, n)) == pow(abs(a) as int, n),
    decreases n,
{
    reveal(pow);
    if n > 0 {
        lemma_pow_abs(a, (n - 1) as nat);
        let p = pow(a, (n - 1) as nat);
        assert(abs(a * p) == abs(a) * abs(p)) by (nonlinear_arith);
    }
}

/// Powers grow with their base.
proof fn lemma_pow_base_monotone(u: nat, v: nat, n: nat)
    requires
        u <= v,
    ensures
        0 <= pow(u as int, n) <= pow(v as int, n),
    decreases n,
{
    reveal(pow);
    if n > 0 {
        lemma_pow_base_monotone(u, v, (n - 1) as nat);
        let pu = pow(u as int, (n - 1) as nat);
        let pv = pow(v as int, (n - 1) as nat);
        assert(0 <= u * pu <= v * pv) by (nonlinear_arith)
            requires
                0 <= pu <= pv,
                u <= v,
        ;
    }
}

/// `atan_power(x, k)` has the value `x^(2k+1)`.
proof fn lemma_power_value(x: (int, nat), k: nat)
    requires
        x.1 > 0,
    ensures
        atan_power(x, k).1 > 0,
        atan_power(x, k).0 * pow(x.1 as int, 2 * k + 1) == pow(x.0, 2 * k + 1) * atan_power(x, k).1,
    decreases k,
{
    reveal(pow);
    let a = x.0;
    let b = x.1 as int;
    if k == 0 {
        assert(pow(a, 1) == a * pow(a, 0));
        assert(pow(b, 1) == b * pow(b, 0));
    } else {
        let j = (k - 1) as nat;
        lemma_power_value(x, j);
        lemma_pow_positive(b, 2 * j + 1);
        lemma_mul_value(x, x, a, b, a, b);
        assert(b * b > 0) by (nonlinear_arith)
            requires
                b > 0,
        ;
        let s = frac_mul(x, x);
        lemma_mul_value(atan_power(x, j), s, pow(a, 2 * j + 1), pow(b, 2 * j + 1), a * a, b * b);
        assert(pow(a, 2 * k + 1) == a * pow(a, 2 * j + 2));
        assert(pow(a, 2 * j + 2) == a * pow(a, 2 * j + 1));
        assert(pow(b, 2 * k + 1) == b * pow(b, 2 * j + 2));
        assert(pow(b, 2 * j + 2) == b * pow(b, 2 * j + 1));
        assert(pow(a, 2 * j + 1) * (a * a) == pow(a, 2 * k + 1)) by (nonlinear_arith)
            requires
                pow(a, 2 * k + 1) == a * pow(a, 2 * j + 2),
                pow(a, 2 * j + 2) == a * pow(a, 2 * j + 1),
        ;
        assert(pow(b, 2 * j + 1) * (b * b) == pow(b, 2 * k + 1)) by (nonlinear_arith)
            requires
                pow(b, 2 * k + 1) == b * pow(b, 2 * j + 2),
                pow(b, 2 * j + 2) == b * pow(b, 2 * j + 1),
        ;
    }
}

/// `atan_term(x, k)` has the value `(-1)^k x^(2k+1) / (2k+1)`.
pub proof fn lemma_term_value(x: (int, nat), k: nat)
    requires
        x.1 > 0,
    ensures
        atan_term(x, k).1 > 0,
        atan_term(x, k).0 * (pow(x.1 as int, 2 * k + 1) * (2 * k + 1)) == (pow(x.0, 2 * k
            + 1) * alternating(k)) * atan_term(x, k).1,
{
    reveal(pow);
    let a = x.0;
    let b = x.1 as int;
    if k == 0 {
        assert(pow(a, 1) == a * pow(a, 0));
        assert(pow(b, 1) == b * pow(b, 0));
    } else {
        let n = 2 * k + 1;
        lemma_power_value(x, k);
        lemma_pow_positive(b, n);
        lemma_reduce_value(alternating(k), n);
        lemma_mul_value(
            atan_power(x, k),
            reduce(alternating(k), n),
            pow(a, n),
            pow(b, n),
            alternating(k),
            n as int,
        );
    }
}

/// While a term exceeds `10^-e` in absolute value, its index stays below
/// `10^e`: this bounds the number of steps of the arctangent loop.
proof fn lemma_term_bound(x: (int, nat), k: nat, p: nat)
    requires
        x.1 > 0,
        abs(x.0) <= x.1,
        p > 0,
        frac_gt(frac_abs(atan_term(x, k)), (1, p)),
    ensures
        2 * k + 1 < p,
{
    let n = 2 * k + 1;
    let a = x.0;
    let b = x.1 as int;
    let t = atan_term(x, k);
    lemma_term_value(x, k);
    lemma_pow_positive(b, n);
    lemma_pow_abs(a, n);
    lemma_pow_base_monotone(abs(a), x.1, n);
    let big_a = pow(a, n);
    let big_b = pow(b, n);
    let t0 = t.0;
    let t1 = t.1 as int;
    let s = alternating(k);
    assert(abs(t0) * (big_b * n) == abs(big_a) * t1) by (nonlinear_arith)
        requires
            t0 * (big_b * n) == (big_a * s) * t1,
            s == 1 || s == -1,
            big_b > 0,
            t1 > 0,
            n > 0,
    ;
    assert(abs(t0) * p > t1);
    assert(abs(big_a) * p > abs(big_a) * n && abs(big_a) > 0) by (nonlinear_arith)
        requires
            abs(t0) * (big_b * n) == abs(big_a) * t1,
            abs(t0) * p > t1,
            abs(big_a) <= big_b,
            big_b > 0,
            t1 > 0,
            n > 0,
    ;
    assert(n < p) by (nonlinear_arith)
        requires
            abs(big_a) * p > abs(big_a) * n,
            abs(big_a) > 0,
    ;
}

/// The partial sums of the arctangent series keep positive denominators.
pub proof fn lemma_partial_positive(x: (int, nat), k: nat)
    requires
        x.1 > 0,
    ensures
        atan_partial(x, k).1 > 0,
    decreases k,
{
    if k > 0 {
        let j = (k - 1) as nat;
        lemma_partial_positive(x, j);
        lemma_term_value(x, j);
        let p = atan_partial(x, j);
        let t = atan_term(x, j);
        lemma_nonzero_product(p.1, t.1);
        lemma_reduce_value(p.0 * t.1 + t.0 * p.1, p.1 * t.1);
    }
}

/// The arctangent series of `x`, summed while its terms exceed
/// `10^-precision` in absolute value (`precision` taken modulo 2^32).
fn atan(x: Fraction, precision: u64) -> (r: Fraction)
    requires
        x@.1 > 0,
        abs(x@.0) <= x@.1,
    ensures
        r@ == atan_value(x@, #[verifier::truncate] (precision as u32)),
        r@.1 > 0,
{
    let e: u32 = #[verifier::truncate] (precision as u32);
    let ghost xs = x@;
    let ghost p = ten_pow(e);
    proof {
        lemma_pow_positive(10, e as nat);
        lemma_gcd_one(p);
        lemma_reduce_lowest_unchanged(1, p);
    }
    let end: BigUint = biguint_pow(&biguint_from_u32(10), e);
    let target = Fraction::new(bigint_from_i32(1), end);
    let mut current_term = x.clone();
    let mut ret = Fraction::from(0);
    let mut sign = bigint_from_i32(1);
    let mut n = biguint_from_u32(1);
    let mut x_pow_n = x.clone();
    let two = biguint_from_u32(2);
    let x_square = x.mul(&x);
    let ghost mut k: nat = 0;
    proof {
        lemma_term_value(xs, 0);
        lemma_power_value(xs, 0);
        lemma_partial_positive(xs, 0);
        lemma_mul_value(xs, xs, xs.0, xs.1 as int, xs.0, xs.1 as int);
    }
    while current_term.abs().gt(&target)
        invariant
            xs.1 > 0,
            abs(xs.0) <= xs.1,
            p > 0,
            p == ten_pow(e),
            target@ == (1int, p),
            nat_value(two) == 2,
            x_square@ == frac_mul(xs, xs),
            ret@ == atan_partial(xs, k),
            current_term@ == atan_term(xs, k),
            x_pow_n@ == atan_power(xs, k),
            nat_value(n) == 2 * k + 1,
            int_value(sign) == alternating(k),
            ret@.1 > 0,
            current_term@.1 > 0,
            x_pow_n@.1 > 0,
            x_square@.1 > 0,
            2 * k + 1 <= p + 1,
            forall|j: nat| j < k ==> term_exceeds(xs, e, j),
        decreases p + 2 - nat_value(n),
    {
        proof {
            lemma_term_bound(xs, k, p);
            assert(term_exceeds(xs, e, k));
            lemma_partial_positive(xs, k + 1);
            lemma_term_value(xs, k + 1);
            lemma_power_value(xs, k + 1);
            lemma_reduce_value(alternating(k + 1), 2 * (k + 1) + 1);
        }
        ret = ret.add(&current_term);
        biguint_add_assign(&mut n, &two);
        sign = bigint_neg(sign);
        x_pow_n = x_pow_n.mul(&x_square);
        current_term = x_pow_n.mul(&Fraction::new(bigint_clone(&sign), biguint_clone(&n)));
        proof {
            k = k + 1;
            assert(forall|j: nat| j < k ==> term_exceeds(xs, e, j));
        }
    }
    proof {
        assert(atan_stops_at(xs, e, k));
        let c = choose|c: nat| atan_stops_at(xs, e, c);
        lemma_stop_unique(xs, e, k, c);
    }
    ret
}

/// Pi to `precision` decimal places, by Machin's formula
/// `pi = 16 atan(1/5) - 4 atan(1/239)` in exact fractions.
pub fn pi(precision: u64) -> (r: String)
    requires
        precision <= u64::MAX - 2,
        precision <= usize::MAX,
    ensures
        r@ == decimal_expansion(pi_approx(precision), precision as nat),
{
    let precision_usize = precision as usize;
    proof {
        lemma_gcd_one(5);
        lemma_reduce_lowest_unchanged(1, 5);
        lemma_gcd_one(239);
        lemma_reduce_lowest_unchanged(1, 239);
    }
    let fifth = Fraction::new(bigint_from_i32(1), biguint_from_u32(5));
    let inv_239 = Fraction::new(bigint_from_i32(1), biguint_from_u32(239));
    let atan_fifth = atan(fifth, precision + 2);
    let atan_239 = atan(inv_239, precision + 1);
    let sixteen = Fraction::from(16);
    let four = Fraction::from(4);
    let first = sixteen.mul(&atan_fifth);
    let second = four.mul(&atan_239);
    proof {
        assert(1 * atan_fifth@.1 == atan_fifth@.1);
        assert(1 * atan_239@.1 == atan_239@.1);
        lemma_reduce_value(16 * atan_fifth@.0, atan_fifth@.1);
        lemma_reduce_value(4 * atan_239@.0, atan_239@.1);
    }
    let pi_approx = Fraction::sub(&first, &second);
    proof {
        lemma_nonzero_product(first@.1, second@.1);
        lemma_reduce_value(first@.0 * second@.1 - second@.0 * first@.1, first@.1 * second@.1);
    }
    pi_approx.decimal(precision_usize)
}
} // verus!
