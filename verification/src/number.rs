//! Kernel number atoms as the dialect layer reads them, and the frontend
//! number-literal parser / baseline renderer.
//!
//! An exact integer is held as its canonical decimal text (what the
//! arbitrary-precision integer type prints); a machine real is held as the
//! literal text it was written with.

use vstd::prelude::*;
use vstd::string::*;

use crate::strings::concat3;

verus! {

/// Number atom.
#[derive(Debug, Clone, PartialEq, Eq)]
pub enum Number {
    /// Exact integer, as canonical decimal text.
    Integer(String),
    /// Exact rational, as numerator and denominator decimal texts.
    Rational(String, String),
    /// Machine real, as its literal text.
    Machine(String),
}

/// Character view of a [`Number`].
pub enum NumberV {
    /// Exact integer text.
    Integer(Seq<char>),
    /// Exact rational texts.
    Rational(Seq<char>, Seq<char>),
    /// Machine real literal text.
    Machine(Seq<char>),
}

impl View for Number {
    type V = NumberV;

    open spec fn view(&self) -> NumberV {
        match self {
            Number::Integer(t) => NumberV::Integer(t@),
            Number::Rational(p, q) => NumberV::Rational(p@, q@),
            Number::Machine(t) => NumberV::Machine(t@),
        }
    }
}

// ---------------------------------------------------------------- decimal text

/// ASCII decimal digit.
pub open spec fn is_digit(c: char) -> bool {
    '0' <= c && c <= '9'
}

/// Value of an ASCII decimal digit.
pub open spec fn digit_value(c: char) -> int {
    c as int - '0' as int
}

/// The ASCII digit for `d` in `0..10`.
pub open spec fn digit_char(d: int) -> char {
    ('0' as int + d) as char
}

/// Decimal digits of a natural number, most significant first, no leading zeros.
pub open spec fn nat_digits(n: nat) -> Seq<char>
    decreases n,
{
    if n < 10 {
        seq![digit_char(n as int)]
    } else {
        nat_digits(n / 10).push(digit_char((n % 10) as int))
    }
}

/// Canonical decimal text of an integer: `-` for negatives, no leading zeros.
pub open spec fn canonical_decimal(i: int) -> Seq<char> {
    if i < 0 {
        seq!['-'] + nat_digits((-i) as nat)
    } else {
        nat_digits(i as nat)
    }
}

/// Value of a digit string, most significant digit first.
pub open spec fn digits_value(s: Seq<char>) -> int
    decreases s.len(),
{
    if s.len() == 0 {
        0
    } else {
        digits_value(s.drop_last()) * 10 + digit_value(s.last())
    }
}

/// Whether every character is an ASCII digit and there is at least one.
pub open spec fn all_digits(s: Seq<char>) -> bool {
    s.len() > 0 && forall|i: int| 0 <= i < s.len() ==> is_digit(#[trigger] s[i])
}

/// Value of plain decimal text `-?[0-9]+`, if it has that shape.
pub open spec fn decimal_text_value(s: Seq<char>) -> Option<int> {
    if s.len() > 0 && s[0] == '-' {
        if all_digits(s.drop_first()) { Some(-digits_value(s.drop_first())) } else { None }
    } else if all_digits(s) {
        Some(digits_value(s))
    } else {
        None
    }
}

/// Whether an integer fits in `i64`.
pub open spec fn fits_i64(v: int) -> bool {
    i64::MIN <= v <= i64::MAX
}

// ------------------------------------------------------- integer literal grammar

/// Digit groups: a leading digit, then digits or `_` separators.
pub open spec fn grouped_digits_ok(s: Seq<char>) -> bool {
    s.len() > 0 && is_digit(s[0]) && forall|i: int| 0 <= i < s.len() ==> (is_digit(#[trigger] s[i]) || s[i] == '_')
}

/// Value of grouped digits, `_` separators ignored.
pub open spec fn grouped_value(s: Seq<char>) -> int
    decreases s.len(),
{
    if s.len() == 0 {
        0
    } else if s.last() == '_' {
        grouped_value(s.drop_last())
    } else {
        grouped_value(s.drop_last()) * 10 + digit_value(s.last())
    }
}

/// Value of an arbitrary-precision decimal integer literal: an optional `-`
/// (not followed by `+`), then an optional `+` (not followed by `+`), then
/// digit groups.
pub open spec fn bigint_literal(s: Seq<char>) -> Option<int> {
    let neg = s.len() > 0 && s[0] == '-' && !(s.len() > 1 && s[1] == '+');
    let s1 = if neg { s.drop_first() } else { s };
    let s2 = if s1.len() > 0 && s1[0] == '+' && !(s1.len() > 1 && s1[1] == '+') { s1.drop_first() } else { s1 };
    if grouped_digits_ok(s2) {
        Some(if neg { -grouped_value(s2) } else { grouped_value(s2) })
    } else {
        None
    }
}

// --------------------------------------------------------- machine real grammar

/// Scanner state for the decimal float grammar
/// `[+-]? (Digit+ | Digit+ '.' Digit* | Digit* '.' Digit+) ([eE] [+-]? Digit+)?`.
pub open spec fn float_step(state: int, c: char) -> int {
    if state == 0 {
        if c == '+' || c == '-' { 1 } else if is_digit(c) { 2 } else if c == '.' { 3 } else { 8 }
    } else if state == 1 {
        if is_digit(c) { 2 } else if c == '.' { 3 } else { 8 }
    } else if state == 2 {
        if is_digit(c) { 2 } else if c == '.' { 4 } else if c == 'e' || c == 'E' { 5 } else { 8 }
    } else if state == 3 {
        if is_digit(c) { 4 } else { 8 }
    } else if state == 4 {
        if is_digit(c) { 4 } else if c == 'e' || c == 'E' { 5 } else { 8 }
    } else if state == 5 {
        if c == '+' || c == '-' { 6 } else if is_digit(c) { 7 } else { 8 }
    } else if state == 6 || state == 7 {
        if is_digit(c) { 7 } else { 8 }
    } else {
        8
    }
}

/// Scanner state after reading `s` from the start state.
pub open spec fn float_run(s: Seq<char>) -> int
    decreases s.len(),
{
    if s.len() == 0 { 0 } else { float_step(float_run(s.drop_last()), s.last()) }
}

/// Whether `s` is a finite decimal float literal (states 2, 4 and 7 accept:
/// integer part, mantissa with a dot, and a complete exponent).
pub open spec fn float_decimal_ok(s: Seq<char>) -> bool {
    let q = float_run(s);
    q == 2 || q == 4 || q == 7
}

// ------------------------------------------------------------- white space

/// Unicode `White_Space` characters (what `char::is_whitespace` accepts).
pub open spec fn is_white(c: char) -> bool {
    ('\u{9}' <= c && c <= '\u{d}') || c == ' ' || c == '\u{85}' || c == '\u{a0}' || c == '\u{1680}'
        || ('\u{2000}' <= c && c <= '\u{200a}') || c == '\u{2028}' || c == '\u{2029}' || c == '\u{202f}'
        || c == '\u{205f}' || c == '\u{3000}'
}

/// `s` without leading white space.
pub open spec fn trim_start_spec(s: Seq<char>) -> Seq<char>
    decreases s.len(),
{
    if s.len() > 0 && is_white(s[0]) { trim_start_spec(s.drop_first()) } else { s }
}

/// `s` without trailing white space.
pub open spec fn trim_end_spec(s: Seq<char>) -> Seq<char>
    decreases s.len(),
{
    if s.len() > 0 && is_white(s.last()) { trim_end_spec(s.drop_last()) } else { s }
}

/// `s` without leading and trailing white space.
pub open spec fn trim_spec(s: Seq<char>) -> Seq<char> {
    trim_end_spec(trim_start_spec(s))
}

/// `str::trim`: the slice without leading and trailing Unicode white space.
#[verifier::external_body]
pub(crate) fn trim_str(s: &str) -> (r: &str)
    ensures
        r@ == trim_spec(s@),
{
    s.trim()
}

/// `BigInt::from_str` followed by `to_string`: the canonical decimal text of
/// the integer the literal denotes, or `None` when num-bigint rejects it.
#[verifier::external_body]
pub(crate) fn canonical_bigint_text(text: &str) -> (r: Option<String>)
    ensures
        r is None <==> bigint_literal(text@) is None,
        r matches Some(c) ==> Some(c@) == option_canonical(bigint_literal(text@)),
{
    match text.parse::<num_bigint::BigInt>() {
        Ok(b) => Some(b.to_string()),
        Err(_) => None,
    }
}

/// Canonical decimal text of an optional integer.
pub open spec fn option_canonical(v: Option<int>) -> Option<Seq<char>> {
    match v {
        Some(i) => Some(canonical_decimal(i)),
        None => None,
    }
}

// ------------------------------------------------------------- number literal

/// Whether `s` holds `c`.
pub fn contains_char(s: &str, c: char) -> (r: bool)
    ensures
        r == s@.contains(c),
{
    let n = s.unicode_len();
    let mut i: usize = 0;
    while i < n
        invariant
            n == s@.len(),
            i <= n,
            forall|j: int| 0 <= j < i ==> s@[j] != c,
        decreases n - i,
    {
        if s.get_char(i) == c {
            assert(s@[i as int] == c);
            return true;
        }
        i = i + 1;
    }
    false
}

/// Whether a trimmed literal is written as a machine real (`.`, `e` or `E`).
pub open spec fn is_machine_text(s: Seq<char>) -> bool {
    s.contains('.') || s.contains('e') || s.contains('E')
}

/// The number a literal denotes: integer literals give exact integers,
/// literals with `.`/`e`/`E` give machine reals.
pub open spec fn spec_number_literal(text: Seq<char>) -> Option<NumberV> {
    let s = trim_spec(text);
    if s.len() == 0 {
        None
    } else if is_machine_text(s) {
        if float_decimal_ok(s) { Some(NumberV::Machine(s)) } else { None }
    } else {
        match bigint_literal(s) {
            Some(v) => Some(NumberV::Integer(canonical_decimal(v))),
            None => None,
        }
    }
}

fn float_step_exec(state: u8, c: char) -> (r: u8)
    requires
        state <= 8,
    ensures
        r as int == float_step(state as int, c),
        r <= 8,
{
    let digit = '0' <= c && c <= '9';
    if state == 0 {
        if c == '+' || c == '-' { 1 } else if digit { 2 } else if c == '.' { 3 } else { 8 }
    } else if state == 1 {
        if digit { 2 } else if c == '.' { 3 } else { 8 }
    } else if state == 2 {
        if digit { 2 } else if c == '.' { 4 } else if c == 'e' || c == 'E' { 5 } else { 8 }
    } else if state == 3 {
        if digit { 4 } else { 8 }
    } else if state == 4 {
        if digit { 4 } else if c == 'e' || c == 'E' { 5 } else { 8 }
    } else if state == 5 {
        if c == '+' || c == '-' { 6 } else if digit { 7 } else { 8 }
    } else if state == 6 || state == 7 {
        if digit { 7 } else { 8 }
    } else {
        8
    }
}

/// Whether `s` is a finite decimal float literal.
pub(crate) fn float_literal_ok(s: &str) -> (r: bool)
    ensures
        r == float_decimal_ok(s@),
{
    let n = s.unicode_len();
    let mut state: u8 = 0;
    let mut i: usize = 0;
    while i < n
        invariant
            n == s@.len(),
            i <= n,
            state <= 8,
            state as int == float_run(s@.subrange(0, i as int)),
        decreases n - i,
    {
        let c = s.get_char(i);
        proof {
            let next = s@.subrange(0, i + 1);
            assert(next.drop_last() =~= s@.subrange(0, i as int));
            assert(next.last() == c);
        }
        state = float_step_exec(state, c);
        i = i + 1;
    }
    assert(s@.subrange(0, n as int) =~= s@);
    state == 2 || state == 4 || state == 7
}

/// Parse source text into a number atom (integer → exact; decimal/exponent → machine).
///
/// The text is trimmed first; empty text and text that is neither an integer
/// literal nor a decimal float literal give `None`.
pub fn parse_number_literal(text: &str) -> (r: Option<Number>)
    ensures
        r matches Some(n) ==> spec_number_literal(text@) == Some(n@),
        r is None ==> spec_number_literal(text@) is None,
{
    let source = trim_str(text);
    if source.unicode_len() == 0 {
        return None;
    }
    let is_machine = contains_char(source, '.') || contains_char(source, 'e') || contains_char(source, 'E');
    if is_machine {
        if float_literal_ok(source) {
            Some(Number::Machine(String::from_str(source)))
        } else {
            None
        }
    } else {
        match canonical_bigint_text(source) {
            Some(c) => Some(Number::Integer(c)),
            None => None,
        }
    }
}

// --------------------------------------------------------- integer conversions

fn digit_str(d: u64) -> (r: &'static str)
    requires
        d < 10,
    ensures
        r@ == seq![digit_char(d as int)],
{
    proof {
        reveal_strlit("0");
        reveal_strlit("1");
        reveal_strlit("2");
        reveal_strlit("3");
        reveal_strlit("4");
        reveal_strlit("5");
        reveal_strlit("6");
        reveal_strlit("7");
        reveal_strlit("8");
        reveal_strlit("9");
    }
    if d == 0 {
        "0"
    } else if d == 1 {
        "1"
    } else if d == 2 {
        "2"
    } else if d == 3 {
        "3"
    } else if d == 4 {
        "4"
    } else if d == 5 {
        "5"
    } else if d == 6 {
        "6"
    } else if d == 7 {
        "7"
    } else if d == 8 {
        "8"
    } else {
        "9"
    }
}

/// Decimal digits of `n`.
pub fn u64_to_decimal(n: u64) -> (r: String)
    ensures
        r@ == nat_digits(n as nat),
    decreases n,
{
    if n < 10 {
        String::from_str(digit_str(n))
    } else {
        let mut r = u64_to_decimal(n / 10);
        r.append(digit_str(n % 10));
        r
    }
}

/// Canonical decimal text of `v`.
pub fn i64_to_decimal(v: i64) -> (r: String)
    ensures
        r@ == canonical_decimal(v as int),
{
    if v < 0 {
        let mag: u64 = if v == i64::MIN { 9223372036854775808u64 } else { (-v) as u64 };
        assert(mag as int == -(v as int));
        let d = u64_to_decimal(mag);
        let mut r = String::from_str("-");
        proof {
            reveal_strlit("-");
        }
        r.append(d.as_str());
        r
    } else {
        u64_to_decimal(v as u64)
    }
}

/// Value of decimal text as an `i64`, when it has the shape `-?[0-9]+` and fits.
pub fn decimal_text_to_i64(s: &str) -> (r: Option<i64>)
    ensures
        r matches Some(v) ==> decimal_text_value(s@) == Some(v as int),
        r is None ==> (decimal_text_value(s@) matches Some(v) ==> !fits_i64(v)),
{
    let n = s.unicode_len();
    if n == 0 {
        return None;
    }
    let neg = s.get_char(0) == '-';
    let start: usize = if neg { 1 } else { 0 };
    if start == n {
        proof {
            assert(s@.drop_first().len() == 0);
        }
        return None;
    }
    let ghost body = if neg { s@.drop_first() } else { s@ };
    assert(body =~= s@.subrange(start as int, n as int));
    let mut acc: i64 = 0;
    let mut i: usize = start;
    while i < n
        invariant
            n == s@.len(),
            start <= i <= n,
            start < n,
            neg == (s@[0] == '-'),
            start == (if neg { 1usize } else { 0usize }),
            body == (if neg { s@.drop_first() } else { s@ }),
            body =~= s@.subrange(start as int, n as int),
            forall|j: int| start <= j < i ==> is_digit(s@[j]),
            neg ==> acc as int == -digits_value(body.subrange(0, i - start)),
            !neg ==> acc as int == digits_value(body.subrange(0, i - start)),
        decreases n - i,
    {
        let c = s.get_char(i);
        if !('0' <= c && c <= '9') {
            proof {
                assert(body[i - start] == c);
                assert(!is_digit(body[i - start]));
                assert(!all_digits(body));
            }
            return None;
        }
        let d: i64 = (c as u32 - '0' as u32) as i64;
        let ghost pre = body.subrange(0, i - start);
        let ghost next = body.subrange(0, i - start + 1);
        assert(next.drop_last() =~= pre);
        assert(next.last() == c);
        assert(digits_value(next) == digits_value(pre) * 10 + digit_value(c));
        proof {
            lemma_digits_value_nonneg(pre);
            assert forall|j: int| 0 <= j < i - start + 1 implies is_digit(#[trigger] body[j]) by {
                assert(body[j] == s@[j + start]);
            }
            lemma_digits_prefix_bound(body, i - start + 1);
            assert(0 <= d <= 9);
            assert(digits_value(next) >= digits_value(pre) * 10);
            if neg {
                assert(decimal_text_value(s@) == (if all_digits(body) { Some(-digits_value(body)) } else { None::<int> }));
            } else {
                assert(decimal_text_value(s@) == (if all_digits(body) { Some(digits_value(body)) } else { None::<int> }));
            }
        }
        if neg {
            match acc.checked_mul(10) {
                Some(m) => match m.checked_sub(d) {
                    Some(x) => {
                        acc = x;
                    },
                    None => {
                        return None;
                    },
                },
                None => {
                    return None;
                },
            }
        } else {
            match acc.checked_mul(10) {
                Some(m) => match m.checked_add(d) {
                    Some(x) => {
                        acc = x;
                    },
                    None => {
                        return None;
                    },
                },
                None => {
                    return None;
                },
            }
        }
        i = i + 1;
    }
    proof {
        assert(body.subrange(0, n - start) =~= body);
        assert forall|j: int| 0 <= j < body.len() implies is_digit(#[trigger] body[j]) by {
            assert(body[j] == s@[j + start]);
        }
    }
    Some(acc)
}

/// Digit strings have non-negative values.
proof fn lemma_digits_value_nonneg(s: Seq<char>)
    requires
        forall|j: int| 0 <= j < s.len() ==> is_digit(#[trigger] s[j]),
    ensures
        digits_value(s) >= 0,
    decreases s.len(),
{
    if s.len() > 0 {
        lemma_digits_value_nonneg(s.drop_last());
    }
}

/// The value of a digit string grows with every digit appended, so an
/// overflowing prefix means the whole string overflows.
proof fn lemma_digits_prefix_bound(body: Seq<char>, k: int)
    requires
        0 <= k <= body.len(),
        forall|j: int| 0 <= j < k ==> is_digit(#[trigger] body[j]),
    ensures
        all_digits(body) ==> digits_value(body.subrange(0, k)) <= digits_value(body),
    decreases body.len() - k,
{
    if k < body.len() && all_digits(body) {
        lemma_digits_prefix_bound(body, k + 1);
        let pre = body.subrange(0, k);
        let next = body.subrange(0, k + 1);
        assert(next.drop_last() =~= pre);
        lemma_digits_value_nonneg(pre);
    } else if k == body.len() {
        assert(body.subrange(0, k) =~= body);
    }
}

impl Number {
    /// Exact integer `v`.
    pub fn small_int(v: i64) -> (n: Number)
        ensures
            n@ == NumberV::Integer(canonical_decimal(v as int)),
    {
        Number::Integer(i64_to_decimal(v))
    }

    /// Whether this is the exact integer `-1`.
    pub fn is_neg_one(&self) -> (r: bool)
        ensures
            r == spec_is_neg_one(self@),
    {
        match self {
            Number::Integer(t) => crate::strings::str_eq(t.as_str(), "-1"),
            _ => false,
        }
    }

    /// The exact integer value when it fits in `i64`.
    pub fn as_exact_integer(&self) -> (r: Option<i64>)
        ensures
            r matches Some(v) ==> spec_exact_integer(self@) == Some(v as int),
            r is None ==> (spec_exact_integer(self@) matches Some(v) ==> !fits_i64(v)),
    {
        match self {
            Number::Integer(t) => decimal_text_to_i64(t.as_str()),
            _ => None,
        }
    }

    /// Field-by-field copy.
    pub fn copy(&self) -> (r: Number)
        ensures
            r@ == self@,
    {
        match self {
            Number::Integer(t) => Number::Integer(t.clone()),
            Number::Rational(p, q) => Number::Rational(p.clone(), q.clone()),
            Number::Machine(t) => Number::Machine(t.clone()),
        }
    }
}

/// Whether a number view is the exact integer `-1`.
pub open spec fn spec_is_neg_one(n: NumberV) -> bool {
    n matches NumberV::Integer(t) && t == "-1"@
}

/// Exact integer value of a number view whose text is plain decimal.
pub open spec fn spec_exact_integer(n: NumberV) -> Option<int> {
    match n {
        NumberV::Integer(t) => decimal_text_value(t),
        _ => None,
    }
}

/// Baseline text of a number: integers as decimal, rationals as `p/q`,
/// machine reals as written.
pub open spec fn spec_render_number(n: NumberV) -> Seq<char> {
    match n {
        NumberV::Integer(t) => t,
        NumberV::Rational(p, q) => p + "/"@ + q,
        NumberV::Machine(t) => t,
    }
}

/// Baseline numeric render.
pub fn render_number(n: &Number) -> (r: String)
    ensures
        r@ == spec_render_number(n@),
{
    match n {
        Number::Integer(t) => t.clone(),
        Number::Rational(p, q) => concat3(p.as_str(), "/", q.as_str()),
        Number::Machine(t) => t.clone(),
    }
}

// ------------------------------------------------------------------ round trip

proof fn lemma_digit_char(d: int)
    requires
        0 <= d < 10,
    ensures
        is_digit(digit_char(d)),
        digit_value(digit_char(d)) == d,
{
}

/// The decimal digits of a natural number are digits, at least one, and
/// denote the number.
proof fn lemma_nat_digits(n: nat)
    ensures
        grouped_digits_ok(nat_digits(n)),
        grouped_value(nat_digits(n)) == n,
        forall|i: int| 0 <= i < nat_digits(n).len() ==> is_digit(#[trigger] nat_digits(n)[i]),
    decreases n,
{
    if n < 10 {
        lemma_digit_char(n as int);
        let ds = nat_digits(n);
        assert(ds.drop_last() =~= Seq::<char>::empty());
        assert(grouped_value(ds.drop_last()) == 0);
        assert(ds.last() != '_');
        assert(grouped_value(ds) == grouped_value(ds.drop_last()) * 10 + digit_value(ds.last()));
    } else {
        lemma_nat_digits(n / 10);
        lemma_digit_char((n % 10) as int);
        let ds = nat_digits(n);
        assert(ds.drop_last() =~= nat_digits(n / 10));
        assert(forall|i: int| 0 <= i < ds.len() ==> is_digit(#[trigger] ds[i])) by {
            assert forall|i: int| 0 <= i < ds.len() implies is_digit(#[trigger] ds[i]) by {
                if i < ds.len() - 1 {
                    assert(ds[i] == nat_digits(n / 10)[i]);
                }
            }
        }
        assert(ds.last() == digit_char((n % 10) as int));
        assert(ds.last() != '_');
        assert(grouped_value(ds) == grouped_value(ds.drop_last()) * 10 + digit_value(ds.last()));
        assert((n / 10) * 10 + n % 10 == n);
    }
}

/// Rendering an exact integer and parsing the text back gives the integer.
pub proof fn lemma_integer_text_roundtrip(v: int)
    ensures
        spec_number_literal(spec_render_number(NumberV::Integer(canonical_decimal(v)))) == Some(
            NumberV::Integer(canonical_decimal(v)),
        ),
{
    let m: nat = if v < 0 { (-v) as nat } else { v as nat };
    lemma_nat_digits(m);
    let ds = nat_digits(m);
    let s = canonical_decimal(v);
    assert(forall|i: int| 0 <= i < s.len() ==> (is_digit(#[trigger] s[i]) || s[i] == '-')) by {
        assert forall|i: int| 0 <= i < s.len() implies (is_digit(#[trigger] s[i]) || s[i] == '-') by {
            if v < 0 && i > 0 {
                assert(s[i] == ds[i - 1]);
            }
        }
    }
    assert(!is_white(s[0]));
    assert(!is_white(s.last()));
    assert(trim_start_spec(s) == s);
    assert(trim_end_spec(s) == s);
    assert(!s.contains('.') && !s.contains('e') && !s.contains('E')) by {
        if s.contains('.') {
            let i = choose|i: int| 0 <= i < s.len() && s[i] == '.';
            assert(is_digit(s[i]) || s[i] == '-');
        }
        if s.contains('e') {
            let i = choose|i: int| 0 <= i < s.len() && s[i] == 'e';
            assert(is_digit(s[i]) || s[i] == '-');
        }
        if s.contains('E') {
            let i = choose|i: int| 0 <= i < s.len() && s[i] == 'E';
            assert(is_digit(s[i]) || s[i] == '-');
        }
    }
    if v < 0 {
        assert(s.drop_first() =~= ds);
        assert(s[1] == ds[0]);
    }
    assert(bigint_literal(s) == Some(v));
}


/// Grouped digits without separators have their plain decimal value.
proof fn lemma_grouped_is_digits(d: Seq<char>)
    requires
        forall|i: int| 0 <= i < d.len() ==> is_digit(#[trigger] d[i]),
    ensures
        grouped_value(d) == digits_value(d),
    decreases d.len(),
{
    if d.len() > 0 {
        assert(is_digit(d.last()));
        assert forall|i: int| 0 <= i < d.drop_last().len() implies is_digit(#[trigger] d.drop_last()[i]) by {
            assert(d.drop_last()[i] == d[i]);
        }
        lemma_grouped_is_digits(d.drop_last());
    }
}

/// A run of decimal digits, possibly after a `-` and surrounded by white
/// space, is the exact integer it spells: `007` is 7, `-12` is -12.
pub proof fn lemma_digit_literals(d: Seq<char>)
    requires
        all_digits(d),
    ensures
        spec_number_literal(d) == Some(NumberV::Integer(canonical_decimal(digits_value(d)))),
        spec_number_literal(seq!['-'] + d) == Some(NumberV::Integer(canonical_decimal(-digits_value(d)))),
{
    lemma_grouped_is_digits(d);
    assert(!is_white(d[0]) && !is_white(d.last()));
    assert(trim_start_spec(d) == d);
    assert(trim_end_spec(d) == d);
    assert(!d.contains('.') && !d.contains('e') && !d.contains('E'));
    assert(grouped_digits_ok(d));
    let m = seq!['-'] + d;
    assert(m[0] == '-' && m[1] == d[0]);
    assert(m.drop_first() =~= d);
    assert(m.last() == d.last());
    assert(trim_start_spec(m) == m);
    assert(trim_end_spec(m) == m);
    assert(!m.contains('.') && !m.contains('e') && !m.contains('E')) by {
        assert forall|i: int| 0 <= i < m.len() implies m[i] != '.' && m[i] != 'e' && m[i] != 'E' by {
            if i > 0 {
                assert(m[i] == d[i - 1]);
            }
        }
    }
}


/// A rational renders numerator first: the text of `p/q` is the numerator's
/// digits, `/`, then the denominator's digits; an integer renders as its
/// canonical digits, so `-12` renders as `-12`.
pub proof fn lemma_render_number_text(p: int, q: int)
    ensures
        spec_render_number(NumberV::Rational(canonical_decimal(p), canonical_decimal(q))) == canonical_decimal(p)
            + "/"@ + canonical_decimal(q),
        spec_render_number(NumberV::Integer(canonical_decimal(p))) == canonical_decimal(p),
{
}


/// Text that starts with a character no number starts with is never read as
/// a machine real.
pub proof fn lemma_float_run_rejects(s: Seq<char>)
    requires
        s.len() > 0,
        !(s[0] == '+' || s[0] == '-' || s[0] == '.' || is_digit(s[0])),
    ensures
        float_run(s) == 8,
    decreases s.len(),
{
    assert(float_run(s) == float_step(float_run(s.drop_last()), s.last()));
    if s.len() > 1 {
        assert(s.drop_last()[0] == s[0]);
        lemma_float_run_rejects(s.drop_last());
    } else {
        assert(s.drop_last().len() == 0);
        assert(float_run(s.drop_last()) == 0);
        assert(s.last() == s[0]);
    }
}

} // verus!
