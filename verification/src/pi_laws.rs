//! How close the text of `pi` is to pi: the arctangent series of `1/q` is
//! alternating with shrinking terms, so each sum that `pi` takes is within
//! its first left-out term of every longer partial sum, and Machin's
//! formula over those sums is within `10^-precision` of the same formula
//! over any longer sums.
use crate::fraction::{
    abs, alternating, atan_partial, atan_stops_at, atan_term, atan_value, frac_mul, frac_sub,
    lemma_partial_positive, lemma_reduce_value, lemma_term_value, pi_approx, ten_pow,
    term_exceeds,
};
use crate::fraction_laws::{law_atan_partial_is_series, taylor_sum, taylor_term};
use vstd::arithmetic::mul::{lemma_mul_is_distributive_sub, lemma_mul_is_distributive_sub_other_way};
use vstd::arithmetic::power::{lemma1_pow, lemma_pow1, lemma_pow_adds, lemma_pow_increases, lemma_pow_positive, pow};
use vstd::prelude::*;

verus! {

/// The denominator `q^(2k+1) * (2k+1)` of the `k`-th term of the
/// arctangent series of `1/q`, whose numerator is `(-1)^k`.
pub open spec fn term_den(q: nat, k: nat) -> int {
    pow(q as int, 2 * k + 1) * (2 * k + 1)
}

/// The terms from the `k`-th up to (not including) the `n`-th of the
/// arctangent series of `x`, added up as an unreduced pair.
pub open spec fn taylor_tail(x: (int, nat), k: nat, n: nat) -> (int, int)
    decreases n - k,
{
    if k >= n {
        (0, 1)
    } else {
        let t = taylor_term(x, k);
        let u = taylor_tail(x, k + 1, n);
        (t.0 * u.1 + u.0 * t.1, t.1 * u.1)
    }
}

/// `|a - b| <= d / c` for pairs with positive denominators.
pub open spec fn dist_le(a: (int, int), b: (int, int), c: int, d: int) -> bool {
    abs(a.0 * b.1 - b.0 * a.1) * c <= d * (a.1 * b.1)
}

/// The term of the series of `1/q` is `(-1)^k / term_den(q, k)`.
proof fn lemma_term_of_inverse(q: nat, k: nat)
    requires
        q > 0,
    ensures
        taylor_term((1, q), k) == (alternating(k), term_den(q, k)),
        term_den(q, k) > 0,
{
    lemma1_pow(2 * k + 1);
    lemma_pow_positive(q as int, 2 * k + 1);
    let pq = pow(q as int, 2 * k + 1);
    assert(pq * (2 * k + 1) > 0) by (nonlinear_arith)
        requires
            pq > 0,
    ;
}

/// The terms' denominators grow.
proof fn lemma_term_den_grows(q: nat, k: nat)
    requires
        q > 0,
    ensures
        0 < term_den(q, k) <= term_den(q, k + 1),
{
    reveal(pow);
    lemma_pow_positive(q as int, 2 * k + 1);
    let a = pow(q as int, 2 * k + 1);
    assert(pow(q as int, 2 * k + 3) == q * pow(q as int, 2 * k + 2));
    assert(pow(q as int, 2 * k + 2) == q * a);
    let b = pow(q as int, 2 * k + 3);
    assert(a <= b && a * (2 * k + 1) <= b * (2 * k + 3) && 0 < a * (2 * k + 1)) by (nonlinear_arith)
        requires
            a > 0,
            q >= 1,
            b == q * (q * a),
    ;
}

/// The tail from the `k`-th term on has the sign of the `k`-th term (or is
/// zero) and is no larger than it.
proof fn lemma_tail_bound(q: nat, k: nat, n: nat)
    requires
        q > 0,
    ensures
        taylor_tail((1, q), k, n).1 > 0,
        alternating(k) * taylor_tail((1, q), k, n).0 >= 0,
        abs(taylor_tail((1, q), k, n).0) * term_den(q, k) <= taylor_tail((1, q), k, n).1,
    decreases n - k,
{
    lemma_term_of_inverse(q, k);
    if k >= n {
        assert(abs(taylor_tail((1, q), k, n).0) == 0);
    } else {
        lemma_tail_bound(q, k + 1, n);
        lemma_term_den_grows(q, k);
        let u = taylor_tail((1, q), k + 1, n);
        let u0 = u.0;
        let u1 = u.1;
        let s = alternating(k);
        let s1 = alternating(k + 1);
        let d = term_den(q, k);
        let d1 = term_den(q, k + 1);
        assert(s1 == -s && (s == 1 || s == -1));
        let r = taylor_tail((1, q), k, n);
        assert(r == (s * u1 + u0 * d, d * u1));
        assert(s * (s * u1 + u0 * d) >= 0 && abs(s * u1 + u0 * d) * d <= d * u1 && d * u1 > 0)
            by (nonlinear_arith)
            requires
                s1 == -s,
                s == 1 || s == -1,
                s1 * u0 >= 0,
                abs(u0) * d1 <= u1,
                u1 > 0,
                0 < d <= d1,
        {
            assert(s * u0 <= 0);
            assert(abs(u0) * d <= abs(u0) * d1);
            if s == 1 {
                assert(u0 <= 0);
                assert(-u0 * d <= u1);
            } else {
                assert(u0 >= 0);
                assert(u0 * d <= u1);
            }
        }
    }
}

/// A partial sum is the shorter partial sum and the tail after it.
proof fn lemma_sum_splits(x: (int, nat), k: nat, n: nat)
    requires
        k <= n,
        x.1 > 0,
    ensures
        taylor_sum(x, n).1 > 0,
        taylor_sum(x, k).1 > 0,
        taylor_tail(x, k, n).1 > 0,
        ({
            let s = taylor_sum(x, k);
            let t = taylor_tail(x, k, n);
            taylor_sum(x, n).0 * (s.1 * t.1) == (s.0 * t.1 + t.0 * s.1) * taylor_sum(x, n).1
        }),
    decreases n - k,
{
    lemma_sum_positive(x, k);
    lemma_sum_positive(x, n);
    lemma_tail_positive(x, k, n);
    if k < n {
        lemma_sum_splits(x, k + 1, n);
        lemma_sum_positive(x, k + 1);
        lemma_tail_positive(x, k + 1, n);
        lemma_pow_positive(x.1 as int, 2 * k + 1);
        let s = taylor_sum(x, k);
        let tk = taylor_term(x, k);
        let u = taylor_tail(x, k + 1, n);
        let sn = taylor_sum(x, n);
        let s1 = taylor_sum(x, k + 1);
        assert(s1 == (s.0 * tk.1 + tk.0 * s.1, s.1 * tk.1));
        let t = taylor_tail(x, k, n);
        assert(t == (tk.0 * u.1 + u.0 * tk.1, tk.1 * u.1));
        let (a0, a1, b0, b1, u0, u1, n0, n1) = (s.0, s.1, tk.0, tk.1, u.0, u.1, sn.0, sn.1);
        assert(a1 * (b1 * u1) == (a1 * b1) * u1) by (nonlinear_arith);
        assert((a0 * b1 + b0 * a1) * u1 == a0 * b1 * u1 + b0 * a1 * u1) by (nonlinear_arith);
        assert((b0 * u1 + u0 * b1) * a1 == b0 * u1 * a1 + u0 * b1 * a1) by (nonlinear_arith);
        assert(a0 * (b1 * u1) == a0 * b1 * u1) by (nonlinear_arith);
        assert(b0 * a1 * u1 == b0 * u1 * a1) by (nonlinear_arith);
        assert(u0 * (a1 * b1) == u0 * b1 * a1) by (nonlinear_arith);
        let r1 = (a0 * b1 + b0 * a1) * u1 + u0 * (a1 * b1);
        let r2 = a0 * (b1 * u1) + (b0 * u1 + u0 * b1) * a1;
        assert(r1 == r2);
        assert(n0 * ((a1 * b1) * u1) == r1 * n1);
        assert(n0 * (a1 * (b1 * u1)) == r2 * n1);
    }
}

/// The partial sums keep positive denominators.
proof fn lemma_sum_positive(x: (int, nat), k: nat)
    requires
        x.1 > 0,
    ensures
        taylor_sum(x, k).1 > 0,
    decreases k,
{
    if k > 0 {
        let j = (k - 1) as nat;
        lemma_sum_positive(x, j);
        lemma_pow_positive(x.1 as int, 2 * j + 1);
        let a = taylor_sum(x, j).1;
        let b = pow(x.1 as int, 2 * j + 1);
        assert(a * (b * (2 * j + 1)) > 0) by (nonlinear_arith)
            requires
                a > 0,
                b > 0,
        ;
    }
}

/// The tails keep positive denominators.
proof fn lemma_tail_positive(x: (int, nat), k: nat, n: nat)
    requires
        x.1 > 0,
    ensures
        taylor_tail(x, k, n).1 > 0,
    decreases n - k,
{
    if k < n {
        lemma_tail_positive(x, k + 1, n);
        lemma_pow_positive(x.1 as int, 2 * k + 1);
        let a = taylor_tail(x, k + 1, n).1;
        let b = pow(x.1 as int, 2 * k + 1);
        assert((b * (2 * k + 1)) * a > 0) by (nonlinear_arith)
            requires
                a > 0,
                b > 0,
        ;
    }
}

/// Every partial sum of the series of `1/q` from the `k`-th on is within
/// the `k`-th term of the `k`-th partial sum.
pub proof fn law_partial_sums_settle(q: nat, k: nat, n: nat)
    requires
        q > 0,
        k <= n,
    ensures
        dist_le(taylor_sum((1, q), n), taylor_sum((1, q), k), term_den(q, k), 1),
{
    lemma_sum_splits((1, q), k, n);
    lemma_tail_bound(q, k, n);
    lemma_term_of_inverse(q, k);
    let s = taylor_sum((1, q), k);
    let t = taylor_tail((1, q), k, n);
    let sn = taylor_sum((1, q), n);
    let (a0, a1, t0, t1, n0, n1) = (s.0, s.1, t.0, t.1, sn.0, sn.1);
    let d = term_den(q, k);
    assert(abs(n0 * a1 - a0 * n1) * d <= 1 * (n1 * a1)) by (nonlinear_arith)
        requires
            n0 * (a1 * t1) == (a0 * t1 + t0 * a1) * n1,
            abs(t0) * d <= t1,
            a1 > 0,
            t1 > 0,
            n1 > 0,
            d > 0,
    {
        assert((n0 * a1 - a0 * n1) * t1 == t0 * a1 * n1);
        assert(abs(n0 * a1 - a0 * n1) * t1 == abs(t0) * (a1 * n1));
        assert(abs(n0 * a1 - a0 * n1) * d * t1 == abs(t0) * d * (a1 * n1));
        assert(abs(t0) * d * (a1 * n1) <= t1 * (a1 * n1));
    }
}

/// A term of the series of `1/q` exceeds `10^-e` exactly when its
/// denominator is below `10^e`.
proof fn lemma_exceeds_iff(q: nat, e: u32, k: nat)
    requires
        q > 0,
    ensures
        term_exceeds((1, q), e, k) <==> term_den(q, k) < ten_pow(e),
{
    lemma_term_value((1, q), k);
    lemma1_pow(2 * k + 1);
    lemma_term_of_inverse(q, k);
    lemma_pow_positive(10, e as nat);
    let t = atan_term((1, q), k);
    let t0 = t.0;
    let t1 = t.1 as int;
    let d = term_den(q, k);
    let p = ten_pow(e) as int;
    let s = alternating(k);
    assert(t0 * d == s * t1);
    assert((abs(t0) * p > t1) <==> (d < p)) by (nonlinear_arith)
        requires
            t0 * d == s * t1,
            s == 1 || s == -1,
            t1 > 0,
            d > 0,
            p > 0,
    {
        assert(abs(t0) * d == t1);
        assert(abs(t0) > 0);
        if d < p {
            assert(abs(t0) * p > abs(t0) * d);
        } else {
            assert(abs(t0) * p <= abs(t0) * d);
        }
    }
}

/// Below an index whose term is small there is a first small term.
proof fn lemma_stop_exists(q: nat, e: u32, n: nat)
    requires
        q > 0,
        !term_exceeds((1, q), e, n),
    ensures
        exists|k: nat| k <= n && atan_stops_at((1, q), e, k),
    decreases n,
{
    if forall|j: nat| j < n ==> term_exceeds((1, q), e, j) {
        assert(atan_stops_at((1, q), e, n));
    } else {
        let j = choose|j: nat| j < n && !term_exceeds((1, q), e, j);
        lemma_stop_exists(q, e, j);
        let k = choose|k: nat| k <= j && atan_stops_at((1, q), e, k);
        assert(k <= n && atan_stops_at((1, q), e, k));
    }
}

/// The arctangent of `1/q` that `pi` sums to `e` places is within `10^-e`
/// of every partial sum of the series whose last term is below `10^-e`.
pub proof fn law_atan_value_close(q: nat, e: u32, n: nat)
    requires
        q > 0,
        term_den(q, n) >= ten_pow(e),
    ensures
        atan_value((1, q), e).1 > 0,
        dist_le(
            taylor_sum((1, q), n),
            (atan_value((1, q), e).0, atan_value((1, q), e).1 as int),
            ten_pow(e) as int,
            1,
        ),
{
    lemma_exceeds_iff(q, e, n);
    lemma_stop_exists(q, e, n);
    let c = choose|k: nat| atan_stops_at((1, q), e, k);
    assert(atan_stops_at((1, q), e, c));
    if c > n {
        assert(term_exceeds((1, q), e, n));
    }
    lemma_exceeds_iff(q, e, c);
    let a = atan_value((1, q), e);
    assert(a == atan_partial((1, q), c));
    lemma_partial_positive((1, q), c);
    law_atan_partial_is_series((1, q), c);
    law_partial_sums_settle(q, c, n);
    lemma_sum_positive((1, q), n);
    lemma_pow_positive(10, e as nat);
    let sc = taylor_sum((1, q), c);
    let sn = taylor_sum((1, q), n);
    let (a0, a1, c0, c1, n0, n1) = (a.0, a.1 as int, sc.0, sc.1, sn.0, sn.1);
    let d = term_den(q, c);
    let p = ten_pow(e) as int;
    lemma_dist_transfer(n0, n1, c0, c1, a0, a1, d, p);
}

/// Replacing `c` by a pair of the same value keeps a distance bound, which
/// may also be loosened from `1/d` to `1/p`.
proof fn lemma_dist_transfer(n0: int, n1: int, c0: int, c1: int, a0: int, a1: int, d: int, p: int)
    requires
        a0 * c1 == c0 * a1,
        abs(n0 * c1 - c0 * n1) * d <= 1 * (n1 * c1),
        0 < p <= d,
        a1 > 0,
        c1 > 0,
        n1 > 0,
    ensures
        abs(n0 * a1 - a0 * n1) * p <= 1 * (n1 * a1),
{
    let x = n0 * a1 - a0 * n1;
    let y = n0 * c1 - c0 * n1;
    lemma_mul_is_distributive_sub_other_way(c1, n0 * a1, a0 * n1);
    assert((n0 * a1) * c1 == a1 * (n0 * c1)) by (nonlinear_arith);
    assert((a0 * n1) * c1 == (a0 * c1) * n1) by (nonlinear_arith);
    assert((a0 * c1) * n1 == a1 * (c0 * n1)) by (nonlinear_arith)
        requires
            a0 * c1 == c0 * a1,
    ;
    lemma_mul_is_distributive_sub(a1, n0 * c1, c0 * n1);
    assert(x * c1 == a1 * y);
    assert(abs(x) * c1 == a1 * abs(y)) by (nonlinear_arith)
        requires
            x * c1 == a1 * y,
            a1 > 0,
            c1 > 0,
    ;
    let ay = abs(y);
    let ax = abs(x);
    assert(ay * p <= ay * d) by (nonlinear_arith)
        requires
            0 < p <= d,
            ay >= 0,
    ;
    assert(ax * p * c1 == a1 * (ay * p)) by (nonlinear_arith)
        requires
            ax * c1 == a1 * ay,
    ;
    assert(a1 * (ay * p) <= a1 * (n1 * c1)) by (nonlinear_arith)
        requires
            ay * p <= n1 * c1,
            a1 > 0,
    ;
    assert(ax * p <= n1 * a1) by (nonlinear_arith)
        requires
            ax * p * c1 <= a1 * (n1 * c1),
            c1 > 0,
    ;
}

/// For `q >= 4` the `n`-th term of the series of `1/q` is below `10^-n`.
proof fn lemma_term_den_vs_ten(q: nat, n: nat)
    requires
        q >= 4,
    ensures
        term_den(q, n) >= pow(10, n),
    decreases n,
{
    reveal(pow);
    lemma_pow_positive(q as int, 2 * n + 1);
    if n == 0 {
        assert(pow(q as int, 1) == q * pow(q as int, 0));
    } else {
        let j = (n - 1) as nat;
        lemma_term_den_vs_ten(q, j);
        lemma_pow_positive(q as int, 2 * j + 1);
        lemma_pow_positive(10, j);
        let a = pow(q as int, 2 * j + 1);
        let b = pow(q as int, 2 * n + 1);
        assert(b == q * pow(q as int, 2 * j + 2));
        assert(pow(q as int, 2 * j + 2) == q * a);
        let t = pow(10, j);
        assert(pow(10, n) == 10 * t);
        assert(b * (2 * n + 1) >= 10 * t) by (nonlinear_arith)
            requires
                a * (2 * j + 1) >= t,
                b == q * (q * a),
                q >= 4,
                a > 0,
                t > 0,
                n == j + 1,
        {
            assert(a * (2 * j + 1) <= a * (2 * n + 1));
            assert(q * (q * a) >= 16 * a);
            assert(b * (2 * n + 1) >= 16 * (a * (2 * n + 1)));
        }
    }
}

/// The value of the difference that `pi_approx` takes: sixteen times the
/// first arctangent less four times the second.
proof fn lemma_pi_approx_value(a: (int, nat), b: (int, nat))
    requires
        a.1 > 0,
        b.1 > 0,
    ensures
        ({
            let pa = frac_sub(frac_mul((16, 1), a), frac_mul((4, 1), b));
            &&& pa.1 > 0
            &&& pa.0 * (a.1 * b.1) == (16 * a.0 * b.1 - 4 * b.0 * a.1) * pa.1
        }),
{
    assert(1 * a.1 == a.1);
    assert(1 * b.1 == b.1);
    lemma_reduce_value(16 * a.0, a.1);
    lemma_reduce_value(4 * b.0, b.1);
    let x = frac_mul((16, 1), a);
    let y = frac_mul((4, 1), b);
    let (x0, x1, y0, y1) = (x.0, x.1 as int, y.0, y.1 as int);
    assert(x1 * y1 > 0) by (nonlinear_arith)
        requires
            x1 > 0,
            y1 > 0,
    ;
    lemma_reduce_value(x0 * y1 - y0 * x1, (x1 * y1) as nat);
    let pa = frac_sub(x, y);
    let (p0, p1, a0, a1, b0, b1) = (pa.0, pa.1 as int, a.0, a.1 as int, b.0, b.1 as int);
    let k = x1 * y1;
    let h = a1 * b1;
    let diff = x0 * y1 - y0 * x1;
    let lhs = p0 * h;
    let rhs = (16 * a0 * b1 - 4 * b0 * a1) * p1;
    assert(p0 * k * h == diff * p1 * h) by (nonlinear_arith)
        requires
            p0 * k == diff * p1,
    ;
    lemma_mul_is_distributive_sub_other_way(h, x0 * y1, y0 * x1);
    assert((x0 * y1) * h == (x0 * a1) * (y1 * b1)) by (nonlinear_arith)
        requires
            h == a1 * b1,
    ;
    assert((y0 * x1) * h == (y0 * b1) * (x1 * a1)) by (nonlinear_arith)
        requires
            h == a1 * b1,
    ;
    assert(diff * h == (x0 * a1) * (y1 * b1) - (y0 * b1) * (x1 * a1));
    assert((x0 * a1) * (y1 * b1) == (16 * a0 * x1) * (y1 * b1)) by (nonlinear_arith)
        requires
            x0 * a1 == 16 * a0 * x1,
    ;
    assert((y0 * b1) * (x1 * a1) == (4 * b0 * y1) * (x1 * a1)) by (nonlinear_arith)
        requires
            y0 * b1 == 4 * b0 * y1,
    ;
    lemma_mul_is_distributive_sub_other_way(k, 16 * a0 * b1, 4 * b0 * a1);
    assert((16 * a0 * x1) * (y1 * b1) == (16 * a0 * b1) * k) by (nonlinear_arith)
        requires
            k == x1 * y1,
    ;
    assert((4 * b0 * y1) * (x1 * a1) == (4 * b0 * a1) * k) by (nonlinear_arith)
        requires
            k == x1 * y1,
    ;
    assert(lhs * k == rhs * k) by (nonlinear_arith)
        requires
            p0 * k * h == diff * p1 * h,
            diff * h == (16 * a0 * b1 - 4 * b0 * a1) * k,
            lhs == p0 * h,
            rhs == (16 * a0 * b1 - 4 * b0 * a1) * p1,
    ;
    assert(lhs == rhs) by (nonlinear_arith)
        requires
            lhs * k == rhs * k,
            k > 0,
    ;
}

/// If `s` is within `10^-(p+2)` of `a` and `t` within `10^-(p+1)` of
/// `b`, then `16 s - 4 t` is within less than `10^-p` of any value equal
/// to `16 a - 4 b` (written over pairs: `w = 10^p`).
proof fn lemma_machin_error(
    s0: int,
    s1: int,
    t0: int,
    t1: int,
    a0: int,
    a1: int,
    b0: int,
    b1: int,
    p0: int,
    p1: int,
    w: int,
)
    requires
        s1 > 0,
        t1 > 0,
        a1 > 0,
        b1 > 0,
        p1 > 0,
        w > 0,
        abs(s0 * a1 - a0 * s1) * (100 * w) <= 1 * (s1 * a1),
        abs(t0 * b1 - b0 * t1) * (10 * w) <= 1 * (t1 * b1),
        p0 * (a1 * b1) == (16 * a0 * b1 - 4 * b0 * a1) * p1,
    ensures
        abs((16 * s0 * t1 - 4 * t0 * s1) * p1 - p0 * (s1 * t1)) * w < (s1 * t1) * p1,
{
    let h = a1 * b1;
    let u = t1 * b1;
    let v = s1 * a1;
    let m1 = s0 * a1;
    let m2 = a0 * s1;
    let n1 = t0 * b1;
    let n2 = b0 * t1;
    let d1 = m1 - m2;
    let d2 = n1 - n2;
    let e1 = 16 * s0 * t1 * p1;
    let e2 = 4 * t0 * s1 * p1;
    let e3 = p0 * (s1 * t1);
    let big_e = (16 * s0 * t1 - 4 * t0 * s1) * p1 - p0 * (s1 * t1);
    assert((16 * s0 * t1 - 4 * t0 * s1) * p1 == e1 - e2) by (nonlinear_arith)
        requires
            e1 == 16 * s0 * t1 * p1,
            e2 == 4 * t0 * s1 * p1,
    ;
    assert(big_e == e1 - e2 - e3);
    lemma_mul_is_distributive_sub_other_way(h, e1 - e2, e3);
    lemma_mul_is_distributive_sub_other_way(h, e1, e2);
    assert(big_e * h == e1 * h - e2 * h - e3 * h);
    assert(e1 * h == 16 * (p1 * u * m1)) by (nonlinear_arith)
        requires
            e1 == 16 * s0 * t1 * p1,
            h == a1 * b1,
            u == t1 * b1,
            m1 == s0 * a1,
    ;
    assert(e2 * h == 4 * (p1 * v * n1)) by (nonlinear_arith)
        requires
            e2 == 4 * t0 * s1 * p1,
            h == a1 * b1,
            v == s1 * a1,
            n1 == t0 * b1,
    ;
    let r = p0 * h;
    assert(e3 * h == r * (s1 * t1)) by (nonlinear_arith)
        requires
            e3 == p0 * (s1 * t1),
            r == p0 * h,
    ;
    let c1 = 16 * a0 * b1 * p1;
    let c2 = 4 * b0 * a1 * p1;
    assert(r == c1 - c2) by (nonlinear_arith)
        requires
            r == p0 * (a1 * b1),
            p0 * (a1 * b1) == (16 * a0 * b1 - 4 * b0 * a1) * p1,
            c1 == 16 * a0 * b1 * p1,
            c2 == 4 * b0 * a1 * p1,
    ;
    lemma_mul_is_distributive_sub_other_way(s1 * t1, c1, c2);
    assert(c1 * (s1 * t1) == 16 * (p1 * u * m2)) by (nonlinear_arith)
        requires
            c1 == 16 * a0 * b1 * p1,
            u == t1 * b1,
            m2 == a0 * s1,
    ;
    assert(c2 * (s1 * t1) == 4 * (p1 * v * n2)) by (nonlinear_arith)
        requires
            c2 == 4 * b0 * a1 * p1,
            v == s1 * a1,
            n2 == b0 * t1,
    ;
    let f1 = p1 * u * d1;
    let f2 = p1 * v * d2;
    assert(f1 == p1 * u * m1 - p1 * u * m2) by (nonlinear_arith)
        requires
            f1 == p1 * u * d1,
            d1 == m1 - m2,
    ;
    assert(f2 == p1 * v * n1 - p1 * v * n2) by (nonlinear_arith)
        requires
            f2 == p1 * v * d2,
            d2 == n1 - n2,
    ;
    assert(big_e * h == 16 * f1 - 4 * f2);
    assert(u > 0 && v > 0 && h > 0 && p1 > 0) by (nonlinear_arith)
        requires
            s1 > 0,
            t1 > 0,
            a1 > 0,
            b1 > 0,
            p1 > 0,
            u == t1 * b1,
            v == s1 * a1,
            h == a1 * b1,
    ;
    assert(abs(f1) * (100 * w) <= p1 * u * v) by (nonlinear_arith)
        requires
            f1 == p1 * u * d1,
            abs(d1) * (100 * w) <= 1 * v,
            p1 > 0,
            u > 0,
    {
        assert(abs(f1) == p1 * u * abs(d1));
    }
    assert(abs(f2) * (10 * w) <= p1 * v * u) by (nonlinear_arith)
        requires
            f2 == p1 * v * d2,
            abs(d2) * (10 * w) <= 1 * u,
            p1 > 0,
            v > 0,
    {
        assert(abs(f2) == p1 * v * abs(d2));
    }
    let puv = p1 * u * v;
    assert(p1 * v * u == puv) by (nonlinear_arith)
        requires
            puv == p1 * u * v,
    ;
    assert(abs(big_e * h) * (100 * w) <= 56 * puv) by (nonlinear_arith)
        requires
            big_e * h == 16 * f1 - 4 * f2,
            abs(f1) * (100 * w) <= puv,
            abs(f2) * (10 * w) <= puv,
            w > 0,
    {
        assert(abs(big_e * h) <= 16 * abs(f1) + 4 * abs(f2));
        assert(abs(big_e * h) * (100 * w) <= 16 * (abs(f1) * (100 * w)) + 40 * (abs(f2) * (10
            * w)));
    }
    let st = s1 * t1;
    assert(st > 0) by (nonlinear_arith)
        requires
            st == s1 * t1,
            s1 > 0,
            t1 > 0,
    ;
    assert(puv == (p1 * st) * h) by (nonlinear_arith)
        requires
            puv == p1 * u * v,
            u == t1 * b1,
            v == s1 * a1,
            h == a1 * b1,
            st == s1 * t1,
    ;
    assert(abs(big_e) * w < st * p1) by (nonlinear_arith)
        requires
            abs(big_e * h) * (100 * w) <= 56 * ((p1 * st) * h),
            h > 0,
            p1 > 0,
            st > 0,
            w > 0,
    {
        assert(abs(big_e * h) == abs(big_e) * h);
        assert((abs(big_e) * (100 * w)) * h <= (56 * (p1 * st)) * h);
        assert(abs(big_e) * (100 * w) <= 56 * (p1 * st));
    }
}

/// The fraction that `pi(precision)` writes out, `pi_approx(precision)`,
/// is within `10^-precision` of Machin's formula
/// `16 atan(1/5) - 4 atan(1/239)` with the arctangent series of `1/5`
/// summed to at least `precision + 2` terms and that of `1/239` to at
/// least `precision + 1` terms, however many more: as these sums tend to
/// pi, the text of `pi` is pi to `precision` places.
pub proof fn law_pi_within_precision(precision: u64, n: nat, m: nat)
    requires
        precision + 2 <= u32::MAX,
        n >= precision + 2,
        m >= precision + 1,
    ensures
        ({
            let s = taylor_sum((1, 5), n);
            let t = taylor_sum((1, 239), m);
            let pa = pi_approx(precision);
            &&& s.1 > 0
            &&& t.1 > 0
            &&& pa.1 > 0
            &&& abs((16 * s.0 * t.1 - 4 * t.0 * s.1) * pa.1 - pa.0 * (s.1 * t.1)) * pow(
                10,
                precision as nat,
            ) < (s.1 * t.1) * pa.1
        }),
{
    let p = precision as nat;
    let e1 = (precision + 2) as u32;
    let e2 = (precision + 1) as u32;
    assert(e1 as nat == p + 2 && e2 as nat == p + 1);
    lemma_term_den_vs_ten(5, n);
    lemma_term_den_vs_ten(239, m);
    lemma_pow_increases(10, p + 2, n);
    lemma_pow_increases(10, p + 1, m);
    lemma_pow_positive(10, p);
    lemma_pow_positive(10, p + 2);
    lemma_pow_positive(10, p + 1);
    assert(ten_pow(e1) == pow(10, p + 2));
    assert(ten_pow(e2) == pow(10, p + 1));
    law_atan_value_close(5, e1, n);
    law_atan_value_close(239, e2, m);
    lemma_sum_positive((1, 5), n);
    lemma_sum_positive((1, 239), m);
    let a = atan_value((1, 5), e1);
    let b = atan_value((1, 239), e2);
    lemma_pi_approx_value(a, b);
    lemma_pow_adds(10, p, 2);
    lemma_pow_adds(10, p, 1);
    lemma_pow_adds(10, 1, 1);
    lemma_pow1(10);
    assert(pow(10, 1) == 10);
    assert(pow(10, 2) == 100);
    let w = pow(10, p);
    assert(pow(10, p + 2) == w * pow(10, 2));
    assert(pow(10, p + 1) == w * pow(10, 1));
    assert(w * pow(10, 2) == w * 100);
    assert(w * pow(10, 1) == w * 10);
    assert(ten_pow(e1) == pow(10, p + 2));
    assert(100 * w == w * 100 && 10 * w == w * 10) by (nonlinear_arith);
    assert(ten_pow(e1) == 100 * w);
    assert(ten_pow(e2) == 10 * w);
    let sn = taylor_sum((1, 5), n);
    let tm = taylor_sum((1, 239), m);
    let pa = pi_approx(precision);
    lemma_machin_error(
        sn.0,
        sn.1,
        tm.0,
        tm.1,
        a.0,
        a.1 as int,
        b.0,
        b.1 as int,
        pa.0,
        pa.1 as int,
        w,
    );
}

} // verus!
