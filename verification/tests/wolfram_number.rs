use sxo::number::{Number, render_number};
use sxo::wolfram_number::parse_number_literal;

fn num(s: &str) -> Number {
    Number::Integer(s.to_string())
}
fn ratio(p: &str, q: &str) -> Number {
    Number::Rational(p.to_string(), q.to_string())
}

#[test]
fn number_literal_parse_integer_and_decimal() {
    assert_eq!(parse_number_literal("42").unwrap(), Number::small_int(42));
    assert_eq!(parse_number_literal("1.5").unwrap(), Number::Machine("1.5".to_string()));
}

#[test]
fn parse_exact_rational() {
    let n = parse_number_literal("3/4").unwrap();
    assert_eq!(render_number(&n), "3/4");
}

#[test]
fn rationals_are_kept_in_lowest_terms() {
    assert_eq!(parse_number_literal("6/8").unwrap(), ratio("3", "4"));
    assert_eq!(parse_number_literal(" -6 / 8 ").unwrap(), ratio("-3", "4"));
    assert_eq!(parse_number_literal("6/-8").unwrap(), ratio("-3", "4"));
    assert_eq!(parse_number_literal("-6/-8").unwrap(), ratio("3", "4"));
    assert_eq!(parse_number_literal("+1/3").unwrap(), ratio("1", "3"));
    assert_eq!(parse_number_literal("4/2").unwrap(), num("2"));
    assert_eq!(parse_number_literal("0/5").unwrap(), num("0"));
    assert_eq!(parse_number_literal("-9223372036854775808/-1").unwrap(), num("9223372036854775808"));
    assert_eq!(parse_number_literal("-9223372036854775808/2").unwrap(), num("-4611686018427387904"));
}

#[test]
fn bad_rationals_are_refused() {
    assert!(parse_number_literal("1/0").is_none());
    assert!(parse_number_literal("1/").is_none());
    assert!(parse_number_literal("/2").is_none());
    assert!(parse_number_literal("1/2/3").is_none());
    assert!(parse_number_literal("a/2").is_none());
    assert!(parse_number_literal("+-1/2").is_none());
    assert!(parse_number_literal("9223372036854775808/1").is_none());
}

#[test]
fn integers_and_reals_as_in_the_shared_parser() {
    assert_eq!(parse_number_literal("  007 ").unwrap(), num("7"));
    assert_eq!(parse_number_literal("99999999999999999999").unwrap(), num("99999999999999999999"));
    assert_eq!(parse_number_literal("1e3").unwrap(), Number::Machine("1e3".to_string()));
    assert!(parse_number_literal("").is_none());
    assert!(parse_number_literal("1.5/2").is_none());
}
