//! Number literals of the Mathematica frontend: integers, machine reals, and
//! exact rationals written `p/q`, kept in lowest terms.

use vstd::prelude::*;
use vstd::string::*;

use crate::number::{
    Number, NumberV, all_digits, bigint_literal, canonical_bigint_text, canonical_decimal, contains_char,
    decimal_text_to_i64, decimal_text_value, digits_value, fits_i64, float_decimal_ok, float_literal_ok,
    is_digit, is_machine_text, is_white, trim_end_spec, trim_spec, trim_start_spec, trim_str, u64_to_decimal,
};
use crate::strings::concat2;

verus! {

/// Value of `str::parse::<i64>` text: an optional `+` or `-`, then digits,
/// within the `i64` range.
pub open spec fn i64_text_value(s: Seq<char>) -> Option<int> {
    let v = if s.len() > 0 && s[0] == '+' {
        if all_digits(s.drop_first()) {
            Some(digits_value(s.drop_first()))
        } else {
            None
        }
    } else {
        decimal_text_value(s)
    };
    match v {
        Some(x) => if fits_i64(x) { Some(x) } else { None },
        None => None,
    }
}

/// Index of the first `/` at or after `i` (the length when there is none).
pub open spec fn first_slash(s: Seq<char>, i: int) -> int
    decreases s.len() - i,
{
    if i >= s.len() {
        s.len() as int
    } else if i >= 0 && s[i] == '/' {
        i
    } else {
        first_slash(s, i + 1)
    }
}

/// Greatest common divisor.
pub open spec fn gcd(a: nat, b: nat) -> nat
    decreases b,
{
    if b == 0 {
        a
    } else {
        gcd(b, a % b)
    }
}

/// Magnitude of an integer.
pub open spec fn magnitude(x: int) -> nat {
    if x < 0 {
        (-x) as nat
    } else {
        x as nat
    }
}

/// The exact number `p/q` (`q != 0`) in lowest terms with a positive
/// denominator; an integer when the denominator reduces to one.
pub open spec fn ratio_view(p: int, q: int) -> NumberV {
    let g = gcd(magnitude(p), magnitude(q));
    let num = magnitude(p) / g;
    let den = magnitude(q) / g;
    let signed = if p != 0 && ((p < 0) != (q < 0)) { -(num as int) } else { num as int };
    if den == 1 {
        NumberV::Integer(canonical_decimal(signed))
    } else {
        NumberV::Rational(canonical_decimal(signed), canonical_decimal(den as int))
    }
}

/// The number a Mathematica literal denotes: machine reals for text with
/// `.`/`e`/`E`, exact rationals for `p/q` (both sides `i64`, `q != 0`),
/// exact integers otherwise.
pub open spec fn spec_exact_literal(text: Seq<char>) -> Option<NumberV> {
    let s = trim_spec(text);
    if s.len() == 0 {
        None
    } else if is_machine_text(s) {
        if float_decimal_ok(s) { Some(NumberV::Machine(s)) } else { None }
    } else if s.contains('/') {
        let k = first_slash(s, 0);
        match (i64_text_value(trim_spec(s.subrange(0, k))), i64_text_value(trim_spec(s.subrange(k + 1, s.len() as int)))) {
            (Some(p), Some(q)) => if q == 0 { None } else { Some(ratio_view(p, q)) },
            _ => None,
        }
    } else {
        match bigint_literal(s) {
            Some(v) => Some(NumberV::Integer(canonical_decimal(v))),
            None => None,
        }
    }
}

proof fn lemma_gcd_positive(a: nat, b: nat)
    requires
        b > 0,
    ensures
        gcd(a, b) > 0,
    decreases b,
{
    reveal_with_fuel(gcd, 2);
    if a % b > 0 {
        lemma_gcd_positive(b, a % b);
    }
}

/// `str::parse::<i64>` on text.
fn parse_i64(s: &str) -> (r: Option<i64>)
    ensures
        r matches Some(v) ==> i64_text_value(s@) == Some(v as int),
        r is None ==> i64_text_value(s@) is None,
{
    let n = s.unicode_len();
    if n > 0 && s.get_char(0) == '+' {
        let rest = s.substring_char(1, n);
        proof {
            assert(rest@ =~= s@.drop_first());
        }
        if rest.unicode_len() > 0 && rest.get_char(0) == '-' {
            proof {
                assert(!crate::number::is_digit(rest@[0]));
            }
            return None;
        }
        let v = decimal_text_to_i64(rest);
        proof {
            if rest@.len() > 0 && rest@[0] != '-' {
                assert(decimal_text_value(rest@) == (if all_digits(rest@) { Some(digits_value(rest@)) } else { None::<int> }));
            }
        }
        v
    } else {
        decimal_text_to_i64(s)
    }
}

fn magnitude_u64(x: i64) -> (r: u64)
    ensures
        r as int == magnitude(x as int),
{
    if x < 0 {
        (-(x as i128)) as u64
    } else {
        x as u64
    }
}

fn gcd_u64(a: u64, b: u64) -> (r: u64)
    ensures
        r as int == gcd(a as nat, b as nat),
{
    let mut x = a;
    let mut y = b;
    while y != 0
        invariant
            gcd(x as nat, y as nat) == gcd(a as nat, b as nat),
        decreases y,
    {
        let t = x % y;
        x = y;
        y = t;
    }
    x
}

/// Signed decimal text of `neg ? -m : m`.
fn signed_text(neg: bool, m: u64) -> (r: String)
    ensures
        r@ == canonical_decimal(if neg && m > 0 { -(m as int) } else { m as int }),
{
    let digits = u64_to_decimal(m);
    proof {
        reveal_strlit("-");
        assert("-"@ =~= seq!['-']);
    }
    if neg && m > 0 {
        concat2("-", digits.as_str())
    } else {
        digits
    }
}

/// The exact number `p/q` in lowest terms.
fn ratio(p: i64, q: i64) -> (r: Number)
    requires
        q != 0,
    ensures
        r@ == ratio_view(p as int, q as int),
{
    let ap = magnitude_u64(p);
    let aq = magnitude_u64(q);
    proof {
        lemma_gcd_positive(ap as nat, aq as nat);
    }
    let g = gcd_u64(ap, aq);
    let num = ap / g;
    let den = aq / g;
    let neg = p != 0 && ((p < 0) != (q < 0));
    let ptext = signed_text(neg, num);
    if den == 1 {
        Number::Integer(ptext)
    } else {
        Number::Rational(ptext, u64_to_decimal(den))
    }
}

/// Parse a Mathematica number literal: machine reals for text with
/// `.`/`e`/`E`, exact rationals for `p/q`, exact integers otherwise.
pub fn parse_number_literal(text: &str) -> (r: Option<Number>)
    ensures
        r matches Some(n) ==> spec_exact_literal(text@) == Some(n@),
        r is None ==> spec_exact_literal(text@) is None,
{
    let source = trim_str(text);
    let n = source.unicode_len();
    if n == 0 {
        return None;
    }
    let is_machine = contains_char(source, '.') || contains_char(source, 'e') || contains_char(source, 'E');
    if is_machine {
        if float_literal_ok(source) {
            return Some(Number::Machine(String::from_str(source)));
        }
        return None;
    }
    if contains_char(source, '/') {
        let mut k: usize = 0;
        while k < n && source.get_char(k) != '/'
            invariant
                n == source@.len(),
                k <= n,
                first_slash(source@, 0) == first_slash(source@, k as int),
            decreases n - k,
        {
            k = k + 1;
        }
        if k == n {
            proof {
                assert(!source@.contains('/')) by {
                    assert forall|j: int| 0 <= j < source@.len() implies source@[j] != '/' by {
                        lemma_first_slash_before(source@, 0, j);
                    }
                }
            }
            return None;
        }
        let left = trim_str(source.substring_char(0, k));
        let right = trim_str(source.substring_char(k + 1, n));
        match (parse_i64(left), parse_i64(right)) {
            (Some(p), Some(q)) => {
                if q == 0 {
                    None
                } else {
                    Some(ratio(p, q))
                }
            },
            _ => None,
        }
    } else {
        match canonical_bigint_text(source) {
            Some(c) => Some(Number::Integer(c)),
            None => None,
        }
    }
}

/// Before the first `/` found from `i`, no character from `i` on is a `/`.
proof fn lemma_first_slash_before(s: Seq<char>, i: int, j: int)
    requires
        0 <= i <= j < first_slash(s, i),
    ensures
        s[j] != '/',
    decreases s.len() - i,
{
    if i < j {
        lemma_first_slash_before(s, i + 1, j);
    }
}


/// The greatest common divisor divides both of its arguments.
proof fn lemma_gcd_divides(a: nat, b: nat)
    requires
        a > 0 || b > 0,
    ensures
        gcd(a, b) > 0,
        a % gcd(a, b) == 0,
        b % gcd(a, b) == 0,
    decreases b,
{
    if b == 0 {
        assert(a % a == 0) by (nonlinear_arith)
            requires
                a > 0,
        ;
    } else {
        lemma_gcd_divides(b, a % b);
        let g = gcd(b, a % b);
        assert(gcd(a, b) == g);
        let k1 = b / g;
        let k2 = (a % b) / g;
        vstd::arithmetic::div_mod::lemma_fundamental_div_mod(b as int, g as int);
        vstd::arithmetic::div_mod::lemma_fundamental_div_mod((a % b) as int, g as int);
        vstd::arithmetic::div_mod::lemma_fundamental_div_mod(a as int, b as int);
        assert(a == g * (k1 * (a / b) + k2)) by (nonlinear_arith)
            requires
                b == g * k1,
                a % b == g * k2,
                a == b * (a / b) + a % b,
        ;
        vstd::arithmetic::div_mod::lemma_mod_multiples_basic((k1 * (a / b) + k2) as int, g as int);
        assert((k1 * (a / b) + k2) * g == g * (k1 * (a / b) + k2)) by (nonlinear_arith);
    }
}

/// A quotient `p/q` keeps its value: when it reduces to an integer `v`,
/// `v * q == p`; otherwise it is a fraction `x/y` with `y >= 2` and
/// `x * q == p * y`.
pub proof fn lemma_ratio_value(p: int, q: int)
    requires
        q != 0,
    ensures
        ratio_view(p, q) is Integer ==> exists|v: int| #![trigger canonical_decimal(v)]
            ratio_view(p, q) == NumberV::Integer(canonical_decimal(v)) && v * q == p,
        ratio_view(p, q) is Rational ==> exists|x: int, y: int| #![trigger canonical_decimal(x), canonical_decimal(y)]
            ratio_view(p, q) == NumberV::Rational(canonical_decimal(x), canonical_decimal(y)) && y >= 2 && x * q
                == p * y,
{
    let mp = magnitude(p);
    let mq = magnitude(q);
    lemma_gcd_divides(mp, mq);
    let g = gcd(mp, mq);
    let num = mp / g;
    let den = mq / g;
    vstd::arithmetic::div_mod::lemma_fundamental_div_mod(mp as int, g as int);
    vstd::arithmetic::div_mod::lemma_fundamental_div_mod(mq as int, g as int);
    assert(mp == g * num && mq == g * den);
    assert(num * mq == mp * den) by (nonlinear_arith)
        requires
            mp == g * num,
            mq == g * den,
    ;
    assert(den > 0) by (nonlinear_arith)
        requires
            mq == g * den,
            mq > 0,
            g > 0,
    ;
    let signed: int = if p != 0 && ((p < 0) != (q < 0)) { -(num as int) } else { num as int };
    assert(signed * q == p * den) by (nonlinear_arith)
        requires
            num * mq == mp * den,
            mp == (if p < 0 { -p } else { p }),
            mq == (if q < 0 { -q } else { q }),
            signed == (if p != 0 && ((p < 0) != (q < 0)) { -num } else { num as int }),
            p == 0 ==> num == 0,
            q != 0,
    {
        if p == 0 {
            assert(num * mq == 0);
        }
    }
    if den == 1 {
        assert(ratio_view(p, q) == NumberV::Integer(canonical_decimal(signed)));
        assert(p * den == p) by (nonlinear_arith)
            requires
                den == 1,
        ;
        assert(signed * q == p);
    } else {
        assert(ratio_view(p, q) == NumberV::Rational(canonical_decimal(signed), canonical_decimal(den as int)));
    }
}


/// The first `/` from `i` on is at `k` when `s[k]` is `/` and none lies in
/// between.
proof fn lemma_first_slash_at(s: Seq<char>, i: int, k: int)
    requires
        0 <= i <= k < s.len(),
        s[k] == '/',
        forall|j: int| i <= j < k ==> s[j] != '/',
    ensures
        first_slash(s, i) == k,
    decreases k - i,
{
    if i < k {
        lemma_first_slash_at(s, i + 1, k);
    }
}

/// Digits are their own trimmed, `i64`-parsed value when it fits.
proof fn lemma_digits_i64(d: Seq<char>)
    requires
        all_digits(d),
        fits_i64(digits_value(d)),
    ensures
        trim_spec(d) == d,
        i64_text_value(d) == Some(digits_value(d)),
{
    assert(!is_white(d[0]) && !is_white(d.last()));
    assert(trim_start_spec(d) == d);
    assert(trim_end_spec(d) == d);
}

/// A fraction literal `p/q` written with digits (both within `i64`, `q`
/// nonzero) is the exact number `p/q`, read numerator first.
pub proof fn lemma_fraction_literal(d1: Seq<char>, d2: Seq<char>)
    requires
        all_digits(d1),
        all_digits(d2),
        fits_i64(digits_value(d1)),
        fits_i64(digits_value(d2)),
        digits_value(d2) != 0,
    ensures
        spec_exact_literal(d1 + seq!['/'] + d2) == Some(ratio_view(digits_value(d1), digits_value(d2))),
{
    let s = d1 + seq!['/'] + d2;
    let k = d1.len() as int;
    assert(s[0] == d1[0] && s.last() == d2.last());
    assert(!is_white(s[0]) && !is_white(s.last()));
    assert(trim_start_spec(s) == s);
    assert(trim_end_spec(s) == s);
    assert(s[k] == '/');
    assert(forall|j: int| 0 <= j < k ==> s[j] == d1[j]);
    assert(forall|j: int| k < j < s.len() ==> s[j] == d2[j - k - 1]);
    assert(!s.contains('.') && !s.contains('e') && !s.contains('E')) by {
        assert forall|j: int| 0 <= j < s.len() implies s[j] != '.' && s[j] != 'e' && s[j] != 'E' by {
            if j < k {
                assert(is_digit(d1[j]));
            } else if j > k {
                assert(is_digit(d2[j - k - 1]));
            }
        }
    }
    assert(s.contains('/'));
    lemma_first_slash_at(s, 0, k);
    assert(s.subrange(0, k) =~= d1);
    assert(s.subrange(k + 1, s.len() as int) =~= d2);
    lemma_digits_i64(d1);
    lemma_digits_i64(d2);
}


/// Scaling both arguments scales their greatest common divisor.
proof fn lemma_gcd_scale(a: nat, b: nat, m: nat)
    requires
        m > 0,
    ensures
        gcd(m * a, m * b) == m * gcd(a, b),
    decreases b,
{
    if b == 0 {
        assert(m * b == 0) by (nonlinear_arith)
            requires
                b == 0,
        ;
    } else {
        assert(m * b > 0) by (nonlinear_arith)
            requires
                m > 0,
                b > 0,
        ;
        vstd::arithmetic::div_mod::lemma_fundamental_div_mod(a as int, b as int);
        let q = a / b;
        let r = a % b;
        assert(m * a == q * (m * b) + m * r) by (nonlinear_arith)
            requires
                a == b * q + r,
        ;
        assert(0 <= m * r < m * b) by (nonlinear_arith)
            requires
                0 <= r < b,
                m > 0,
        ;
        vstd::arithmetic::div_mod::lemma_fundamental_div_mod_converse(
            (m * a) as int,
            (m * b) as int,
            q as int,
            (m * r) as int,
        );
        assert((m * a) % (m * b) == m * r);
        lemma_gcd_scale(b, r, m);
        assert(gcd(m * a, m * b) == gcd(m * b, (m * a) % (m * b)));
    }
}

/// Equal fractions are the same number: `(p*m)/(q*m)` is `p/q` for every
/// positive `m`, so `2/4` and `1/2` are one literal.
pub proof fn lemma_ratio_scaling(p: int, q: int, m: int)
    requires
        q != 0,
        m > 0,
    ensures
        ratio_view(p * m, q * m) == ratio_view(p, q),
{
    let mp = magnitude(p);
    let mq = magnitude(q);
    assert(magnitude(p * m) == m * mp && magnitude(q * m) == m * mq) by (nonlinear_arith)
        requires
            m > 0,
            mp == (if p < 0 { -p } else { p }),
            mq == (if q < 0 { -q } else { q }),
            magnitude(p * m) == (if p * m < 0 { -(p * m) } else { p * m }),
            magnitude(q * m) == (if q * m < 0 { -(q * m) } else { q * m }),
    ;
    lemma_gcd_divides(mp, mq);
    let g = gcd(mp, mq);
    lemma_gcd_scale(mp, mq, m as nat);
    let num = mp / g;
    let den = mq / g;
    vstd::arithmetic::div_mod::lemma_fundamental_div_mod(mp as int, g as int);
    vstd::arithmetic::div_mod::lemma_fundamental_div_mod(mq as int, g as int);
    assert(m * mp == num * (m * g) + 0 && m * mq == den * (m * g) + 0) by (nonlinear_arith)
        requires
            mp == g * num,
            mq == g * den,
    ;
    assert(m * g > 0) by (nonlinear_arith)
        requires
            m > 0,
            g > 0,
    ;
    vstd::arithmetic::div_mod::lemma_fundamental_div_mod_converse((m * mp) as int, (m * g) as int, num as int, 0);
    vstd::arithmetic::div_mod::lemma_fundamental_div_mod_converse((m * mq) as int, (m * g) as int, den as int, 0);
    assert((p * m < 0) == (p < 0) && (q * m < 0) == (q < 0) && (p * m != 0) == (p != 0)) by (nonlinear_arith)
        requires
            m > 0,
    ;
}

} // verus!
