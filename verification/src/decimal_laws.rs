//! What the decimal text of a fraction says: read back as a number, its
//! digits are the fraction's magnitude truncated to the digits shown, and
//! fewer digits than asked for are shown only where the expansion ends.
use crate::bignum::{decimal_text, digit_char};
use crate::fraction::{abs, decimal_expansion, fraction_digits};
use vstd::arithmetic::div_mod::{lemma_fundamental_div_mod, lemma_div_pos_is_pos};
use vstd::arithmetic::power::{lemma_pow_positive, pow};
use vstd::prelude::*;

verus! {

/// A decimal digit.
pub open spec fn is_digit(c: char) -> bool {
    c == '0' || c == '1' || c == '2' || c == '3' || c == '4' || c == '5' || c == '6' || c == '7'
        || c == '8' || c == '9'
}

/// The value of a decimal digit.
pub open spec fn digit_value(c: char) -> nat {
    if c == '1' {
        1
    } else if c == '2' {
        2
    } else if c == '3' {
        3
    } else if c == '4' {
        4
    } else if c == '5' {
        5
    } else if c == '6' {
        6
    } else if c == '7' {
        7
    } else if c == '8' {
        8
    } else if c == '9' {
        9
    } else {
        0
    }
}

/// Every character is a decimal digit.
pub open spec fn all_digits(s: Seq<char>) -> bool {
    forall|i: int| 0 <= i < s.len() ==> #[trigger] is_digit(s[i])
}

/// The number that a text of decimal digits writes.
pub open spec fn digits_value(s: Seq<char>) -> nat
    decreases s.len(),
{
    if s.len() == 0 {
        0
    } else {
        digits_value(s.drop_last()) * 10 + digit_value(s.last())
    }
}

/// A digit character is a digit and reads back as its value.
proof fn lemma_digit_char(d: nat)
    requires
        d < 10,
    ensures
        is_digit(digit_char(d)),
        digit_value(digit_char(d)) == d,
{
}

/// The decimal text of a number is digits that read back as the number.
pub proof fn law_decimal_text_reads_back(n: nat)
    ensures
        decimal_text(n).len() > 0,
        all_digits(decimal_text(n)),
        digits_value(decimal_text(n)) == n,
    decreases n,
{
    if n < 10 {
        lemma_digit_char(n);
        assert(decimal_text(n).drop_last() =~= Seq::<char>::empty());
        assert(digits_value(Seq::<char>::empty()) == 0);
    } else {
        law_decimal_text_reads_back(n / 10);
        lemma_digit_char(n % 10);
        let t = decimal_text(n);
        assert(t.drop_last() =~= decimal_text(n / 10));
        assert(t.last() == digit_char(n % 10));
        lemma_fundamental_div_mod(n as int, 10);
        assert(digits_value(t) == digits_value(decimal_text(n / 10)) * 10 + n % 10);
        assert forall|i: int| 0 <= i < t.len() implies #[trigger] is_digit(t[i]) by {
            if i < t.len() - 1 {
                assert(t[i] == decimal_text(n / 10)[i]);
            }
        }
    }
}

/// Reading two texts one after the other.
proof fn lemma_digits_concat(a: Seq<char>, b: Seq<char>)
    ensures
        digits_value(a + b) == digits_value(a) * pow(10, b.len()) + digits_value(b),
    decreases b.len(),
{
    reveal(pow);
    if b.len() == 0 {
        assert(a + b =~= a);
        assert(digits_value(b) == 0);
        assert(pow(10, b.len()) == 1);
        let va = digits_value(a);
        assert(va * 1 == va);
    } else {
        lemma_digits_concat(a, b.drop_last());
        assert((a + b).drop_last() =~= a + b.drop_last());
        assert((a + b).last() == b.last());
        let va = digits_value(a);
        let p = pow(10, (b.len() - 1) as nat);
        assert(pow(10, b.len()) == 10 * p);
        let vb = digits_value(b.drop_last());
        assert((va * p + vb) * 10 == va * (10 * p) + vb * 10) by (nonlinear_arith);
        assert(digits_value(a + b.drop_last()) == va * p + vb);
        assert(digits_value(b) == vb * 10 + digit_value(b.last()));
        assert(digits_value(a + b) == digits_value(a + b.drop_last()) * 10 + digit_value(b.last()));
        let dl = digit_value(b.last());
        let big_p = pow(10, b.len());
        assert((va * p + vb) * 10 + dl == va * big_p + (vb * 10 + dl)) by (nonlinear_arith)
            requires
                big_p == 10 * p,
        ;
    }
}

/// The digits after the point, from a remainder `r < d`: read back, they
/// are `r / d` truncated to as many digits as they have; they are at most
/// `k`, and fewer only where the division comes out exact.
proof fn lemma_fraction_digits(r: nat, d: nat, k: nat)
    requires
        r < d,
    ensures
        ({
            let t = fraction_digits(r * 10, d, k);
            let v = digits_value(t);
            let p = pow(10, t.len());
            &&& t.len() <= k
            &&& all_digits(t)
            &&& v * d <= r * p < (v + 1) * d
            &&& t.len() < k ==> v * d == r * p
        }),
    decreases k,
{
    reveal(pow);
    let t = fraction_digits(r * 10, d, k);
    if k == 0 {
        assert(t.len() == 0);
        assert(pow(10, 0) == 1);
        assert(digits_value(t) == 0);
        assert(r * pow(10, t.len()) == r);
        let v0 = digits_value(t);
        assert(v0 * d <= r * 1 < (v0 + 1) * d) by (nonlinear_arith)
            requires
                v0 == 0,
                r < d,
        ;
    } else {
        let num = r * 10;
        lemma_fundamental_div_mod(num as int, d as int);
        let q = num / d;
        let r2 = num % d;
        assert(q < 10) by (nonlinear_arith)
            requires
                num == q * d + r2,
                r2 >= 0,
                num == r * 10,
                r < d,
                d > 0,
        ;
        lemma_digit_char(q);
        assert(decimal_text(q) =~= seq![digit_char(q)]);
        let head = seq![digit_char(q)];
        assert(digits_value(head) == q) by {
            assert(head.drop_last() =~= Seq::<char>::empty());
            assert(digits_value(Seq::<char>::empty()) == 0);
        }
        if r2 == 0 {
            assert(t =~= head);
            assert(pow(10, 1) == 10 * pow(10, 0));
            assert(pow(10, t.len()) == 10);
            assert(q * d == r * 10);
            assert(digits_value(t) == q);
            assert(q * d <= r * 10 < (q + 1) * d) by (nonlinear_arith)
                requires
                    q * d == r * 10,
                    d > 0,
            ;
        } else {
            lemma_fraction_digits(r2, d, (k - 1) as nat);
            let rest = fraction_digits(r2 * 10, d, (k - 1) as nat);
            assert(t =~= head + rest);
            lemma_digits_concat(head, rest);
            let vr = digits_value(rest);
            let pr = pow(10, rest.len());
            assert(pow(10, t.len()) == 10 * pr);
            let v = digits_value(t);
            assert(v == q * pr + vr);
            assert forall|i: int| 0 <= i < t.len() implies #[trigger] is_digit(t[i]) by {
                if i > 0 {
                    assert(t[i] == rest[i - 1]);
                }
            }
            assert(v * d <= r * (10 * pr) < (v + 1) * d && (rest.len() < (k - 1) as nat ==> v * d
                == r * (10 * pr))) by (nonlinear_arith)
                requires
                    v == q * pr + vr,
                    vr * d <= r2 * pr < (vr + 1) * d,
                    rest.len() < (k - 1) as nat ==> vr * d == r2 * pr,
                    r * 10 == q * d + r2,
            {
                assert(r * (10 * pr) == q * d * pr + r2 * pr);
                assert(v * d == q * pr * d + vr * d);
                assert((v + 1) * d == q * pr * d + (vr + 1) * d);
            }
            assert(r * pow(10, t.len()) == r * (10 * pr));
        }
    }
}

/// The sign that starts the decimal text of a fraction.
pub open spec fn sign_text(n: int) -> Seq<char> {
    if n < 0 {
        seq!['-']
    } else {
        seq![]
    }
}

/// `text` is the sign of `n`, the digits `i`, and either nothing more (then
/// `f` is empty) or a point and the digits `f`; read back as one number,
/// `i` and `f` are `|n| / d` truncated to the digits of `f`, and exactly
/// that where the text stops before the point or before `precision`
/// digits.
pub open spec fn reads_back(
    text: Seq<char>,
    n: int,
    d: nat,
    precision: nat,
    i: Seq<char>,
    f: Seq<char>,
) -> bool {
    let v = digits_value(i + f);
    let p = pow(10, f.len());
    &&& i.len() > 0
    &&& all_digits(i)
    &&& all_digits(f)
    &&& f.len() <= precision
    &&& v * d <= abs(n) * p < (v + 1) * d
    &&& {
        ||| (text == sign_text(n) + i && f.len() == 0 && v * d == abs(n) * p)
        ||| (text == sign_text(n) + i + (seq!['.'] + f) && (f.len() < precision ==> v * d == abs(n)
            * p))
    }
}

/// The decimal text of a fraction `n / d` is a minus sign for a negative
/// fraction, the digits `i` of the integral part, and, unless the fraction
/// is whole, a point and at most `precision` digits `f`. Read back as one
/// number, `i` and `f` are `|n| / d` truncated to the digits of `f`; there
/// are fewer than `precision` of them only where the expansion ends there.
pub proof fn law_decimal_reads_back(n: int, d: nat, precision: nat)
    requires
        d > 0,
    ensures
        exists|i: Seq<char>, f: Seq<char>|
            #![trigger digits_value(i + f)]
            reads_back(decimal_expansion((n, d), precision), n, d, precision, i, f),
{
    let a = abs(n);
    lemma_fundamental_div_mod(a as int, d as int);
    let ip = a / d;
    let r = a % d;
    law_decimal_text_reads_back(ip);
    let i = decimal_text(ip);
    reveal(pow);
    if r == 0 {
        let f = Seq::<char>::empty();
        assert(i + f =~= i);
        assert(pow(10, 0) == 1);
        assert(decimal_expansion((n, d), precision) == sign_text(n) + i + Seq::<char>::empty());
        assert(digits_value(i + f) == ip);
        assert(ip * d <= a * 1 < (ip + 1) * d) by (nonlinear_arith)
            requires
                a == d * ip + r,
                r == 0,
                d > 0,
        ;
        assert(all_digits(f));
        assert(sign_text(n) + i + Seq::<char>::empty() =~= sign_text(n) + i);
        assert(reads_back(decimal_expansion((n, d), precision), n, d, precision, i, f));
    } else {
        lemma_fraction_digits(r, d, precision);
        let f = fraction_digits(r * 10, d, precision);
        lemma_digits_concat(i, f);
        let vf = digits_value(f);
        let p = pow(10, f.len());
        let v = digits_value(i + f);
        assert(v == ip * p + vf);
        assert(v * d <= a * p < (v + 1) * d && (f.len() < precision ==> v * d == a * p))
            by (nonlinear_arith)
            requires
                v == ip * p + vf,
                vf * d <= r * p < (vf + 1) * d,
                f.len() < precision ==> vf * d == r * p,
                a == d * ip + r,
        {
            assert(a * p == ip * d * p + r * p);
            assert(v * d == ip * p * d + vf * d);
        }
        assert(decimal_expansion((n, d), precision) == sign_text(n) + i + (seq!['.'] + f));
        assert(reads_back(decimal_expansion((n, d), precision), n, d, precision, i, f));
    }
}

} // verus!
