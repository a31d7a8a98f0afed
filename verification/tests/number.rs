use sxo::number::{Number, decimal_text_to_i64, i64_to_decimal, parse_number_literal, render_number, u64_to_decimal};
use sxo::term::{Atom, Term, term_from_number_literal};

fn num(s: &str) -> Number {
    Number::Integer(s.to_string())
}

#[test]
fn parse_integer_and_decimal() {
    assert_eq!(parse_number_literal("42").unwrap(), Number::small_int(42));
    assert_eq!(parse_number_literal("1.5").unwrap(), Number::Machine("1.5".to_string()));
}

#[test]
fn integer_literals_are_canonical() {
    assert_eq!(parse_number_literal("  007 ").unwrap(), num("7"));
    assert_eq!(parse_number_literal("+5").unwrap(), num("5"));
    assert_eq!(parse_number_literal("-12").unwrap(), num("-12"));
    assert_eq!(parse_number_literal("1_000").unwrap(), num("1000"));
    assert_eq!(parse_number_literal("99999999999999999999").unwrap(), num("99999999999999999999"));
    assert_eq!(parse_number_literal("-0").unwrap(), num("0"));
}

#[test]
fn machine_literals_keep_their_text() {
    assert_eq!(parse_number_literal(" 1e3 ").unwrap(), Number::Machine("1e3".to_string()));
    assert_eq!(parse_number_literal("2.5E-3").unwrap(), Number::Machine("2.5E-3".to_string()));
    assert_eq!(parse_number_literal(".5").unwrap(), Number::Machine(".5".to_string()));
    assert_eq!(parse_number_literal("3.").unwrap(), Number::Machine("3.".to_string()));
}

#[test]
fn non_numbers_are_refused() {
    assert!(parse_number_literal("").is_none());
    assert!(parse_number_literal("   ").is_none());
    assert!(parse_number_literal("x").is_none());
    assert!(parse_number_literal("1.2.3").is_none());
    assert!(parse_number_literal("e5").is_none());
    assert!(parse_number_literal("--1").is_none());
    assert!(parse_number_literal("_1").is_none());
}

#[test]
fn render_number_forms() {
    assert_eq!(render_number(&num("-42")), "-42");
    assert_eq!(render_number(&Number::Rational("3".to_string(), "4".to_string())), "3/4");
    assert_eq!(render_number(&Number::Machine("1.5".to_string())), "1.5");
}

#[test]
fn decimal_conversions() {
    assert_eq!(u64_to_decimal(0), "0");
    assert_eq!(u64_to_decimal(18446744073709551615), "18446744073709551615");
    assert_eq!(i64_to_decimal(-9223372036854775808), "-9223372036854775808");
    assert_eq!(i64_to_decimal(120), "120");
    assert_eq!(decimal_text_to_i64("-17"), Some(-17));
    assert_eq!(decimal_text_to_i64("9223372036854775807"), Some(i64::MAX));
    assert_eq!(decimal_text_to_i64("9223372036854775808"), None);
    assert_eq!(decimal_text_to_i64("1x"), None);
}

#[test]
fn number_queries() {
    assert!(Number::small_int(-1).is_neg_one());
    assert!(!Number::small_int(1).is_neg_one());
    assert!(!Number::Machine("-1.0".to_string()).is_neg_one());
    assert_eq!(Number::small_int(7).as_exact_integer(), Some(7));
    assert_eq!(num("99999999999999999999").as_exact_integer(), None);
    assert_eq!(Number::Machine("2.0".to_string()).as_exact_integer(), None);
    let n = Number::Rational("1".to_string(), "3".to_string());
    assert_eq!(n.copy(), n);
}

#[test]
fn integer_render_parse_roundtrip() {
    for v in [0, 7, -12, i64::MAX, i64::MIN] {
        let n = Number::small_int(v);
        assert_eq!(parse_number_literal(&render_number(&n)).unwrap(), n);
    }
    let big = num("-123456789012345678901234567890");
    assert_eq!(parse_number_literal(&render_number(&big)).unwrap(), big);
}

#[test]
fn number_literals_become_number_atoms() {
    assert_eq!(term_from_number_literal(" 007 "), Some(Term::Atom(Atom::Number(num("7")))));
    assert_eq!(term_from_number_literal("2.50"), Some(Term::Atom(Atom::Number(Number::Machine("2.50".to_string())))));
    assert_eq!(term_from_number_literal("x1"), None);
    assert_eq!(term_from_number_literal("   "), None);
}
