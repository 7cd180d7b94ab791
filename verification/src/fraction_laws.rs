//! What holds of the fraction arithmetic as a whole: every result is in
//! lowest terms, and the operations relate to one another as rational
//! arithmetic does.
use crate::bignum::{decimal_text, sign_of, signed};
use crate::fraction::{
    frac_div, lemma_mul_value,
    alternating, atan_partial, atan_term, lemma_partial_positive, lemma_term_value,
    abs, frac_abs, frac_add, frac_gt, frac_inverse, frac_mul, frac_sub, gcd_nat, lemma_gcd_commutes,
    lemma_reduce_lowest, lemma_reduce_lowest_unchanged, lemma_reduce_value, reduce, same_value,
    decimal_expansion, fraction_digits,
};
use vstd::arithmetic::div_mod::{lemma_div_basics, lemma_mod_self_0, lemma_small_mod};
use vstd::arithmetic::power::{lemma_pow_positive, pow};
use vstd::prelude::*;

verus! {

/// A fraction `(n, d)` with a positive denominator and no common divisor
/// of numerator and denominator other than 1.
pub open spec fn lowest_terms(a: (int, nat)) -> bool {
    a.1 > 0 && gcd_nat(abs(a.0), a.1) == 1
}

/// An integer is rebuilt from its sign and magnitude: splitting and
/// joining again (what `split` and `BigInt::from_biguint` do) gives it back.
pub proof fn law_sign_split_round_trip(i: int)
    ensures
        signed(sign_of(i), abs(i)) == i,
{
}

/// Simplifying `n / d` (what `Fraction::new` and `Fraction::simplify` do)
/// gives a fraction in lowest terms with the same value.
pub proof fn law_reduce_gives_lowest_terms(n: int, d: nat)
    requires
        d > 0,
    ensures
        lowest_terms(reduce(n, d)),
        same_value((reduce(n, d).0, reduce(n, d).1 as int), (n, d as int)),
{
    lemma_reduce_value(n, d);
    lemma_reduce_lowest(n, d);
}

/// Simplifying twice is simplifying once.
pub proof fn law_reduce_idempotent(n: int, d: nat)
    requires
        d > 0,
    ensures
        reduce(reduce(n, d).0, reduce(n, d).1) == reduce(n, d),
{
    lemma_reduce_value(n, d);
    lemma_reduce_lowest(n, d);
    lemma_reduce_lowest_unchanged(reduce(n, d).0, reduce(n, d).1);
}

/// The reciprocal of the reciprocal of a non-zero fraction in lowest terms
/// is the fraction itself.
pub proof fn law_inverse_involution(a: (int, nat))
    requires
        lowest_terms(a),
        a.0 != 0,
    ensures
        frac_inverse(frac_inverse(a)) == a,
{
    lemma_gcd_commutes(abs(a.0), a.1);
    if a.0 > 0 {
        lemma_reduce_lowest_unchanged(a.1 as int, a.0 as nat);
        lemma_reduce_lowest_unchanged(a.0, a.1);
    } else {
        lemma_reduce_lowest_unchanged(-(a.1 as int), abs(a.0));
        assert(abs(-(a.1 as int)) == a.1);
        assert(abs(-(abs(a.0) as int)) == abs(a.0));
        lemma_reduce_lowest_unchanged(-(abs(a.0) as int), a.1);
    }
}

/// The greatest common divisor of a positive number and itself is the number.
proof fn lemma_gcd_self(x: nat)
    requires
        x > 0,
    ensures
        gcd_nat(x, x) == x,
{
    lemma_mod_self_0(x as int);
    assert(gcd_nat(x, x) == gcd_nat(x, 0));
}

/// A non-zero fraction in lowest terms times its reciprocal is one.
pub proof fn law_mul_inverse_is_one(a: (int, nat))
    requires
        lowest_terms(a),
        a.0 != 0,
    ensures
        frac_mul(a, frac_inverse(a)) == (1int, 1nat),
{
    lemma_gcd_commutes(abs(a.0), a.1);
    let p: nat = abs(a.0) * a.1;
    assert(p > 0) by (nonlinear_arith)
        requires
            abs(a.0) > 0,
            a.1 > 0,
            p == abs(a.0) * a.1,
    ;
    lemma_gcd_self(p);
    lemma_div_basics(p as int);
    if a.0 > 0 {
        lemma_reduce_lowest_unchanged(a.1 as int, a.0 as nat);
        assert(a.0 * a.1 == p && a.1 * (a.0 as nat) == p);
    } else {
        lemma_reduce_lowest_unchanged(-(a.1 as int), abs(a.0));
        assert(a.0 * -(a.1 as int) == p) by (nonlinear_arith)
            requires
                a.0 < 0,
                abs(a.0) == -a.0,
                p == abs(a.0) * a.1,
        ;
        assert(a.1 * abs(a.0) == p) by (nonlinear_arith)
            requires
                p == abs(a.0) * a.1,
        ;
    }
}

/// A fraction minus itself is zero, written `0 / 1`.
pub proof fn law_sub_self_is_zero(a: (int, nat))
    requires
        a.1 > 0,
    ensures
        frac_sub(a, a) == (0int, 1nat),
{
    let p: nat = a.1 * a.1;
    assert(p > 0) by (nonlinear_arith)
        requires
            a.1 > 0,
            p == a.1 * a.1,
    ;
    assert(a.0 * a.1 - a.0 * a.1 == 0);
    lemma_small_mod(0, p);
    assert(gcd_nat(0, p) == gcd_nat(p, 0));
    lemma_div_basics(p as int);
    lemma_small_mod(0, p);
    assert(0nat / p == 0) by (nonlinear_arith)
        requires
            p > 0,
    ;
}

/// Addition and multiplication do not depend on the order of the operands.
pub proof fn law_add_mul_commute(a: (int, nat), b: (int, nat))
    ensures
        frac_add(a, b) == frac_add(b, a),
        frac_mul(a, b) == frac_mul(b, a),
{
    assert(a.0 * b.1 + b.0 * a.1 == b.0 * a.1 + a.0 * b.1);
    assert(a.1 * b.1 == b.1 * a.1) by (nonlinear_arith);
    assert(a.0 * b.0 == b.0 * a.0) by (nonlinear_arith);
}

/// Subtracting what was added gives back a fraction of the same value,
/// and the very same fraction when it was in lowest terms.
pub proof fn law_add_then_sub(a: (int, nat), b: (int, nat))
    requires
        a.1 > 0,
        b.1 > 0,
    ensures
        same_value(
            (frac_sub(frac_add(a, b), b).0, frac_sub(frac_add(a, b), b).1 as int),
            (a.0, a.1 as int),
        ),
        lowest_terms(a) ==> frac_sub(frac_add(a, b), b) == a,
{
    let d = (a.1 * b.1) as nat;
    assert(d > 0) by (nonlinear_arith)
        requires
            a.1 > 0,
            b.1 > 0,
            d == a.1 * b.1,
    ;
    let s0 = a.0 * b.1 + b.0 * a.1;
    lemma_reduce_value(s0, d);
    let s = frac_add(a, b);
    let d2 = (s.1 * b.1) as nat;
    assert(d2 > 0) by (nonlinear_arith)
        requires
            s.1 > 0,
            b.1 > 0,
            d2 == s.1 * b.1,
    ;
    let t0 = s.0 * b.1 - b.0 * s.1;
    lemma_reduce_value(t0, d2);
    let t = frac_sub(s, b);
    let a0 = a.0;
    let a1 = a.1 as int;
    let b0 = b.0;
    let b1 = b.1 as int;
    let s_0 = s.0;
    let s_1 = s.1 as int;
    let t_0 = t.0;
    let t_1 = t.1 as int;
    let x = s_1 * b1;
    let y = a1 * b1;
    let m = s_0 * b1 - b0 * s_1;
    assert(t_0 * x * y == m * t_1 * y) by (nonlinear_arith)
        requires
            t_0 * x == m * t_1,
    ;
    let sy = s_0 * y;
    assert(m * y == sy * b1 - b0 * s_1 * y) by (nonlinear_arith)
        requires
            m == s_0 * b1 - b0 * s_1,
            sy == s_0 * y,
    ;
    let k = a0 * b1 + b0 * a1;
    assert(sy * b1 == k * s_1 * b1) by (nonlinear_arith)
        requires
            sy == k * s_1,
    ;
    assert(k * s_1 * b1 - b0 * s_1 * y == a0 * b1 * x) by (nonlinear_arith)
        requires
            k == a0 * b1 + b0 * a1,
            y == a1 * b1,
            x == s_1 * b1,
    ;
    assert(m * y == a0 * b1 * x);
    assert(t_0 * y * x == a0 * b1 * t_1 * x) by (nonlinear_arith)
        requires
            t_0 * x * y == m * t_1 * y,
            m * y == a0 * b1 * x,
    ;
    assert(x > 0) by (nonlinear_arith)
        requires
            s_1 > 0,
            b1 > 0,
            x == s_1 * b1,
    ;
    assert(t_0 * y == a0 * b1 * t_1) by (nonlinear_arith)
        requires
            t_0 * y * x == a0 * b1 * t_1 * x,
            x > 0,
    ;
    assert(t_0 * a1 == a0 * t_1) by (nonlinear_arith)
        requires
            t_0 * y == a0 * b1 * t_1,
            y == a1 * b1,
            b1 > 0,
    ;
    if lowest_terms(a) {
        lemma_reduce_lowest(t0, d2);
        law_lowest_terms_unique(t, a);
    }
}

/// Comparison of fractions is a strict order: no fraction exceeds itself
/// and of two different values exactly one exceeds the other.
pub proof fn law_gt_strict_order(a: (int, nat), b: (int, nat))
    ensures
        !frac_gt(a, a),
        !(frac_gt(a, b) && frac_gt(b, a)),
        !same_value((a.0, a.1 as int), (b.0, b.1 as int)) ==> frac_gt(a, b) || frac_gt(b, a),
{
}

/// A whole number is written as its digits, with a minus sign when it is
/// negative and no decimal point.
pub proof fn law_decimal_of_whole(n: int, precision: nat)
    ensures
        decimal_expansion((n, 1nat), precision) == (if n < 0 {
            seq!['-']
        } else {
            Seq::<char>::empty()
        }) + decimal_text(abs(n)),
{
    lemma_div_basics(abs(n) as int);
    assert(abs(n) % 1 == 0);
    assert(decimal_expansion((n, 1nat), precision) =~= (if n < 0 {
        seq!['-']
    } else {
        Seq::<char>::empty()
    }) + decimal_text(abs(n)));
}

/// The `j`-th term `(-1)^j x^(2j+1) / (2j+1)` of the arctangent series of
/// `x = x.0 / x.1`, as an unreduced pair.
pub open spec fn taylor_term(x: (int, nat), j: nat) -> (int, int) {
    (pow(x.0, 2 * j + 1) * alternating(j), pow(x.1 as int, 2 * j + 1) * (2 * j + 1))
}

/// The sum of the first `k` terms of the arctangent series, as an
/// unreduced pair over the product of the terms' denominators.
pub open spec fn taylor_sum(x: (int, nat), k: nat) -> (int, int)
    decreases k,
{
    if k == 0 {
        (0, 1)
    } else {
        let s = taylor_sum(x, (k - 1) as nat);
        let t = taylor_term(x, (k - 1) as nat);
        (s.0 * t.1 + t.0 * s.1, s.1 * t.1)
    }
}

/// A sum of fractions has the value of the sum of the values.
proof fn lemma_add_value(p: (int, nat), q: (int, nat), a: int, b: int, c: int, e: int)
    requires
        p.1 > 0,
        q.1 > 0,
        b > 0,
        e > 0,
        p.0 * b == a * p.1,
        q.0 * e == c * q.1,
    ensures
        frac_add(p, q).1 > 0,
        frac_add(p, q).0 * (b * e) == (a * e + c * b) * frac_add(p, q).1,
{
    let p0 = p.0;
    let q0 = q.0;
    let p1 = p.1 as int;
    let q1 = q.1 as int;
    let dd = p1 * q1;
    assert(dd > 0) by (nonlinear_arith)
        requires
            p1 > 0,
            q1 > 0,
            dd == p1 * q1,
    ;
    let n = p0 * q1 + q0 * p1;
    lemma_reduce_value(n, dd as nat);
    let r = frac_add(p, q);
    let r0 = r.0;
    let r1 = r.1 as int;
    let be = b * e;
    let m = a * e + c * b;
    let x1 = p0 * q1 * b * e;
    let x2 = q0 * p1 * b * e;
    assert(x1 == a * p1 * q1 * e) by (nonlinear_arith)
        requires
            x1 == p0 * q1 * b * e,
            p0 * b == a * p1,
    ;
    assert(x2 == c * q1 * p1 * b) by (nonlinear_arith)
        requires
            x2 == q0 * p1 * b * e,
            q0 * e == c * q1,
    ;
    assert(n * be == x1 + x2) by (nonlinear_arith)
        requires
            n == p0 * q1 + q0 * p1,
            be == b * e,
            x1 == p0 * q1 * b * e,
            x2 == q0 * p1 * b * e,
    ;
    let ae = a * e;
    let cb = c * b;
    assert(a * p1 * q1 * e == ae * dd) by (nonlinear_arith)
        requires
            ae == a * e,
            dd == p1 * q1,
    ;
    assert(c * q1 * p1 * b == cb * dd) by (nonlinear_arith)
        requires
            cb == c * b,
            dd == p1 * q1,
    ;
    assert(m * dd == ae * dd + cb * dd) by (nonlinear_arith)
        requires
            m == ae + cb,
    ;
    assert(n * be == m * dd);
    assert(r0 * be * dd == m * r1 * dd) by (nonlinear_arith)
        requires
            r0 * dd == n * r1,
            n * be == m * dd,
    ;
    assert(r0 * be == m * r1) by (nonlinear_arith)
        requires
            r0 * be * dd == m * r1 * dd,
            dd > 0,
    ;
}

/// What the arctangent loop sums is the arctangent series: its `k`-th
/// partial sum has the value `sum over j < k of (-1)^j x^(2j+1) / (2j+1)`.
pub proof fn law_atan_partial_is_series(x: (int, nat), k: nat)
    requires
        x.1 > 0,
    ensures
        taylor_sum(x, k).1 > 0,
        same_value((atan_partial(x, k).0, atan_partial(x, k).1 as int), taylor_sum(x, k)),
    decreases k,
{
    if k > 0 {
        let j = (k - 1) as nat;
        law_atan_partial_is_series(x, j);
        lemma_partial_positive(x, j);
        lemma_term_value(x, j);
        lemma_pow_positive(x.1 as int, 2 * j + 1);
        let s = taylor_sum(x, j);
        let t = taylor_term(x, j);
        assert(t.1 > 0) by (nonlinear_arith)
            requires
                pow(x.1 as int, 2 * j + 1) > 0,
                t.1 == pow(x.1 as int, 2 * j + 1) * (2 * j + 1),
        ;
        lemma_add_value(atan_partial(x, j), atan_term(x, j), s.0, s.1, t.0, t.1);
        assert(s.1 * t.1 > 0) by (nonlinear_arith)
            requires
                s.1 > 0,
                t.1 > 0,
        ;
    }
}

/// Bezout's identity for Euclid's greatest common divisor: it is an
/// integer combination of the two numbers.
pub proof fn lemma_bezout(a: nat, b: nat) -> (xy: (int, int))
    ensures
        a * xy.0 + b * xy.1 == gcd_nat(a, b),
    decreases b,
{
    if b == 0 {
        (1, 0)
    } else {
        let (x, y) = lemma_bezout(b, a % b);
        let q = (a / b) as int;
        let r = (a % b) as int;
        vstd::arithmetic::div_mod::lemma_fundamental_div_mod(a as int, b as int);
        let ai = a as int;
        let bi = b as int;
        assert(ai * y + bi * (x - q * y) == bi * x + r * y) by (nonlinear_arith)
            requires
                ai == bi * q + r,
        ;
        (y, x - q * y)
    }
}

/// If `a` shares no divisor with `b` and divides `b * c`, it divides `c`.
proof fn lemma_coprime_divides(a: nat, b: nat, c: nat)
    requires
        a > 0,
        gcd_nat(a, b) == 1,
        (b * c) % a == 0,
    ensures
        c % a == 0,
{
    let (x, y) = lemma_bezout(a, b);
    let ai = a as int;
    let bi = b as int;
    let ci = c as int;
    vstd::arithmetic::div_mod::lemma_fundamental_div_mod(bi * ci, ai);
    let k = (bi * ci) / ai;
    let m = ci * x + k * y;
    assert(ci == ai * m) by (nonlinear_arith)
        requires
            ai * x + bi * y == 1,
            bi * ci == ai * k + 0,
            m == ci * x + k * y,
    ;
    vstd::arithmetic::div_mod::lemma_mod_multiples_basic(m, ai);
    assert(ai * m == m * ai) by (nonlinear_arith);
}

/// Two fractions in lowest terms with the same value are the same pair.
pub proof fn law_lowest_terms_unique(p: (int, nat), q: (int, nat))
    requires
        lowest_terms(p),
        lowest_terms(q),
        p.0 * q.1 == q.0 * p.1,
    ensures
        p == q,
{
    let a = abs(p.0);
    let b = p.1;
    let c = abs(q.0);
    let d = q.1;
    assert(a * d == c * b) by (nonlinear_arith)
        requires
            p.0 * d == q.0 * b,
            a == (if p.0 < 0 { -p.0 } else { p.0 }),
            c == (if q.0 < 0 { -q.0 } else { q.0 }),
            b > 0,
            d > 0,
    ;
    lemma_gcd_commutes(a, b);
    lemma_gcd_commutes(c, d);
    // b divides a * d, so b divides d; d divides c * b, so d divides b.
    vstd::arithmetic::div_mod::lemma_mod_multiples_basic(c as int, b as int);
    assert((a * d) % b == 0) by (nonlinear_arith)
        requires
            a * d == c * b,
            ((c as int) * (b as int)) % (b as int) == 0,
    ;
    lemma_coprime_divides(b, a, d);
    vstd::arithmetic::div_mod::lemma_mod_multiples_basic(a as int, d as int);
    assert((c * b) % d == 0) by (nonlinear_arith)
        requires
            a * d == c * b,
            ((a as int) * (d as int)) % (d as int) == 0,
    ;
    lemma_coprime_divides(d, c, b);
    vstd::arithmetic::div_mod::lemma_fundamental_div_mod(d as int, b as int);
    vstd::arithmetic::div_mod::lemma_fundamental_div_mod(b as int, d as int);
    let k = d / b;
    let m = b / d;
    assert(b == d) by (nonlinear_arith)
        requires
            d == b * k + 0,
            b == d * m + 0,
            b > 0,
            d > 0,
            k >= 0,
            m >= 0,
    ;
    assert(a == c) by (nonlinear_arith)
        requires
            a * d == c * b,
            b == d,
            d > 0,
    ;
    assert(p.0 == q.0) by (nonlinear_arith)
        requires
            p.0 * d == q.0 * b,
            b == d,
            d > 0,
    ;
}

/// Fractions are equal exactly when their values are: `Fraction::new(n1,
/// d1)` and `Fraction::new(n2, d2)` give the same numerator and denominator
/// if and only if `n1 / d1 == n2 / d2`.
pub proof fn law_same_value_same_fraction(n1: int, d1: nat, n2: int, d2: nat)
    requires
        d1 > 0,
        d2 > 0,
    ensures
        (reduce(n1, d1) == reduce(n2, d2)) <==> (n1 * d2 == n2 * d1),
{
    law_reduce_gives_lowest_terms(n1, d1);
    law_reduce_gives_lowest_terms(n2, d2);
    let r = reduce(n1, d1);
    let s = reduce(n2, d2);
    let r0 = r.0;
    let r1 = r.1 as int;
    let s0 = s.0;
    let s1 = s.1 as int;
    let e1 = d1 as int;
    let e2 = d2 as int;
    if n1 * e2 == n2 * e1 {
        let u = r0 * e1;
        let v = s0 * e2;
        let w = n1 * e2;
        assert(r0 * s1 * (e1 * e2) == u * (s1 * e2)) by (nonlinear_arith)
            requires
                u == r0 * e1,
        ;
        assert(u * (s1 * e2) == r1 * s1 * w) by (nonlinear_arith)
            requires
                u == n1 * r1,
                w == n1 * e2,
        ;
        assert(r1 * s1 * w == r1 * e1 * (n2 * s1)) by (nonlinear_arith)
            requires
                w == n2 * e1,
        ;
        assert(r1 * e1 * (n2 * s1) == s0 * r1 * (e1 * e2)) by (nonlinear_arith)
            requires
                n2 * s1 == v,
                v == s0 * e2,
        ;
        assert(e1 * e2 > 0) by (nonlinear_arith)
            requires
                e1 > 0,
                e2 > 0,
        ;
        assert(r0 * s1 == s0 * r1) by (nonlinear_arith)
            requires
                r0 * s1 * (e1 * e2) == s0 * r1 * (e1 * e2),
                e1 * e2 > 0,
        ;
        law_lowest_terms_unique(r, s);
    }
    if r == s {
        assert(n1 * e2 * (r1 * s1) == n2 * e1 * (r1 * s1)) by (nonlinear_arith)
            requires
                r0 * e1 == n1 * r1,
                s0 * e2 == n2 * s1,
                r0 == s0,
                r1 == s1,
        ;
        assert(r1 * s1 > 0) by (nonlinear_arith)
            requires
                r1 > 0,
                s1 > 0,
        ;
        assert(n1 * e2 == n2 * e1) by (nonlinear_arith)
            requires
                n1 * e2 * (r1 * s1) == n2 * e1 * (r1 * s1),
                r1 * s1 > 0,
        ;
    }
}

/// Division undoes multiplication: for `b != 0`, the quotient `a / b`
/// times `b` has the value of `a` (cross-multiplied:
/// `q.0 * a.1 * b.0 == a.0 * q.1 * b.1` for `q = a / b`), and the quotient
/// keeps a positive denominator.
pub proof fn law_div_undoes_mul(a: (int, nat), b: (int, nat))
    requires
        a.1 > 0,
        b.1 > 0,
        b.0 != 0,
    ensures
        frac_div(a, b).1 > 0,
        frac_div(a, b).0 * a.1 * b.0 == a.0 * frac_div(a, b).1 * b.1,
{
    let i = frac_inverse(b);
    let b0 = b.0;
    let b1 = b.1 as int;
    let e = abs(b0) as int;
    let c: int = if b0 > 0 { b1 } else { -b1 };
    if b0 > 0 {
        lemma_reduce_value(b1, b0 as nat);
    } else {
        lemma_reduce_value(-b1, abs(b0));
    }
    assert(i.0 * e == c * i.1);
    assert(e > 0);
    lemma_mul_value(a, i, a.0, a.1 as int, c, e);
    let q = frac_div(a, b);
    let q0 = q.0;
    let q1 = q.1 as int;
    let a0 = a.0;
    let a1 = a.1 as int;
    assert(q0 * (a1 * e) == (a0 * c) * q1);
    assert(q0 * a1 * b0 == a0 * q1 * b1) by (nonlinear_arith)
        requires
            q0 * (a1 * e) == (a0 * c) * q1,
            (b0 > 0 && e == b0 && c == b1) || (b0 < 0 && e == -b0 && c == -b1),
    ;
}

/// The decimal text of a fraction starts with a minus sign exactly when
/// the fraction is negative; otherwise it starts with a digit.
pub proof fn law_decimal_sign(f: (int, nat), precision: nat)
    requires
        f.1 > 0,
    ensures
        decimal_expansion(f, precision).len() > 0,
        (decimal_expansion(f, precision)[0] == '-') == (f.0 < 0),
{
    let a = abs(f.0);
    lemma_decimal_text_starts_with_digit(a / f.1);
    let sign = if f.0 < 0 { seq!['-'] } else { Seq::<char>::empty() };
    let rest = if a % f.1 == 0 {
        Seq::<char>::empty()
    } else {
        seq!['.'] + fraction_digits((a % f.1) * 10, f.1, precision)
    };
    assert(decimal_expansion(f, precision) == sign + decimal_text(a / f.1) + rest);
    assert((sign + decimal_text(a / f.1) + rest)[sign.len() as int] == decimal_text(a / f.1)[0]);
}

/// Negating a positive fraction puts a minus sign before its decimal text
/// and changes nothing else.
pub proof fn law_decimal_of_negation(n: int, d: nat, precision: nat)
    requires
        n > 0,
        d > 0,
    ensures
        decimal_expansion((-n, d), precision) == seq!['-'] + decimal_expansion((n, d), precision),
{
    assert(abs(-n) == abs(n));
    assert(decimal_expansion((-n, d), precision) =~= seq!['-'] + decimal_expansion((n, d), precision));
}

/// The decimal text of a number is not empty, and its first character is
/// a digit, never a minus sign.
proof fn lemma_decimal_text_starts_with_digit(n: nat)
    ensures
        decimal_text(n).len() > 0,
        decimal_text(n)[0] != '-',
    decreases n,
{
    if n >= 10 {
        lemma_decimal_text_starts_with_digit(n / 10);
        assert(decimal_text(n)[0] == decimal_text(n / 10)[0]);
    }
}

/// Sum, difference and product have the value of the sum, difference and
/// product of the values: `r.0 / r.1 == x / y` cross-multiplied as
/// `r.0 * y == x * r.1`, with `y = a.1 * b.1`.
pub proof fn law_arithmetic_values(a: (int, nat), b: (int, nat))
    requires
        a.1 > 0,
        b.1 > 0,
    ensures
        frac_add(a, b).1 > 0,
        frac_sub(a, b).1 > 0,
        frac_mul(a, b).1 > 0,
        frac_add(a, b).0 * (a.1 * b.1) == (a.0 * b.1 + b.0 * a.1) * frac_add(a, b).1,
        frac_sub(a, b).0 * (a.1 * b.1) == (a.0 * b.1 - b.0 * a.1) * frac_sub(a, b).1,
        frac_mul(a, b).0 * (a.1 * b.1) == (a.0 * b.0) * frac_mul(a, b).1,
{
    let a1 = a.1 as int;
    let b1 = b.1 as int;
    assert(a1 * b1 > 0) by (nonlinear_arith)
        requires
            a1 > 0,
            b1 > 0,
    ;
    lemma_reduce_value(a.0 * b.1 + b.0 * a.1, (a.1 * b.1) as nat);
    lemma_reduce_value(a.0 * b.1 - b.0 * a.1, (a.1 * b.1) as nat);
    lemma_reduce_value(a.0 * b.0, (a.1 * b.1) as nat);
}

} // verus!
