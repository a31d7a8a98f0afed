use sxo::bridge::{Atom, Term, copy_term, number_from_term, term_eq};
use sxo::number::Number;
use sxo::rules::{eval_part, map_one, replace_literal, replace_rules, rule_pair, substitute_slot, try_pythagorean};

fn s(name: &str) -> Term {
    Term::symbol(name.to_string())
}
fn n(v: i64) -> Term {
    Term::small_int(v)
}
fn app(h: &str, args: Vec<Term>) -> Term {
    Term::app(h.to_string(), args)
}
fn list(items: Vec<Term>) -> Term {
    Term::List(items)
}
fn sq(f: &str, x: Term) -> Term {
    app("Power", vec![app(f, vec![x]), n(2)])
}

#[test]
fn bridge_term_queries() {
    assert_eq!(app("Sin", vec![s("x")]).head_name(), Some("Sin"));
    assert_eq!(list(vec![]).head_name(), Some("List"));
    assert!(n(-1).is_neg_one());
    assert!(s("x").is_symbol("x"));
    assert_eq!(number_from_term(&n(4)), Some(&Number::small_int(4)));
    assert_eq!(s("x").as_number(), None);
    assert_eq!(Term::from_number_literal(" 12 "), Some(n(12)));
    assert_eq!(Term::from_number_literal("x"), None);
    let t = app("f", vec![list(vec![n(1), Term::Atom(Atom::String("a".to_string()))])]);
    assert!(term_eq(&t, &copy_term(&t)));
    assert!(!term_eq(&t, &app("f", vec![list(vec![n(1)])])));
}

#[test]
fn rule_pairs() {
    assert_eq!(rule_pair(&app("Rule", vec![s("x"), n(1)])), Some((s("x"), n(1))));
    assert_eq!(rule_pair(&app("RuleDelayed", vec![s("x"), n(1)])), Some((s("x"), n(1))));
    assert_eq!(rule_pair(&app("Rule", vec![s("x")])), None);
    assert_eq!(rule_pair(&app("Set", vec![s("x"), n(1)])), None);
}

#[test]
fn replace_literal_is_outermost_first() {
    let e = app("Plus", vec![s("x"), app("Times", vec![n(2), s("x")])]);
    assert_eq!(replace_literal(&e, &s("x"), &n(3)), app("Plus", vec![n(3), app("Times", vec![n(2), n(3)])]));
    assert_eq!(replace_literal(&e, &e, &s("y")), s("y"));
    assert_eq!(replace_literal(&e, &s("z"), &n(3)), e);
    assert_eq!(replace_literal(&e, &s("x"), &s("x")), e);
    let head = Term::App { head: Box::new(s("f")), args: vec![s("f")] };
    assert_eq!(replace_literal(&head, &s("f"), &s("g")), Term::App { head: Box::new(s("g")), args: vec![s("g")] });
}

#[test]
fn replace_rules_in_order() {
    let e = app("Plus", vec![s("x"), s("y")]);
    let rules = list(vec![app("Rule", vec![s("x"), s("y")]), n(7), app("Rule", vec![s("y"), n(2)])]);
    assert_eq!(replace_rules(&e, &rules), app("Plus", vec![n(2), n(2)]));
    assert_eq!(replace_rules(&e, &app("Rule", vec![s("y"), n(0)])), app("Plus", vec![s("x"), n(0)]));
    assert_eq!(replace_rules(&e, &n(5)), e);
}

#[test]
fn substitute_slot_fills_both_slot_names() {
    let body = app("Plus", vec![s("#"), app("Times", vec![s("#1"), s("y")])]);
    assert_eq!(substitute_slot(&body, &n(4)), app("Plus", vec![n(4), app("Times", vec![n(4), s("y")])]));
    assert_eq!(substitute_slot(&s("#2"), &n(4)), s("#2"));
}

#[test]
fn map_one_forms() {
    assert_eq!(map_one(&s("Sin"), &n(0)), app("Sin", vec![n(0)]));
    let f = app("Function", vec![app("Power", vec![s("#"), n(2)])]);
    assert_eq!(map_one(&f, &n(3)), app("Power", vec![n(3), n(2)]));
    assert_eq!(map_one(&n(1), &n(3)), app("Map", vec![n(1), n(3)]));
    let g = app("g", vec![s("a")]);
    assert_eq!(map_one(&g, &n(3)), app("Map", vec![g, n(3)]));
}

#[test]
fn part_of_lists() {
    let l = list(vec![n(10), n(20), n(30)]);
    assert_eq!(eval_part(&l, &n(1)), n(10));
    assert_eq!(eval_part(&l, &n(3)), n(30));
    assert_eq!(eval_part(&l, &n(-1)), n(30));
    assert_eq!(eval_part(&l, &n(-3)), n(10));
    assert_eq!(eval_part(&l, &n(4)), app("Part", vec![copy_term(&l), n(4)]));
    assert_eq!(eval_part(&l, &n(-4)), app("Part", vec![copy_term(&l), n(-4)]));
    assert_eq!(eval_part(&l, &n(0)), app("Part", vec![copy_term(&l), n(0)]));
    assert_eq!(eval_part(&l, &s("i")), app("Part", vec![copy_term(&l), s("i")]));
    assert_eq!(eval_part(&s("v"), &n(1)), app("Part", vec![s("v"), n(1)]));
    let big = Term::number(Number::Integer("99999999999999999999".to_string()));
    assert_eq!(eval_part(&l, &big), app("Part", vec![copy_term(&l), copy_term(&big)]));
    assert_eq!(eval_part(&l, &n(i64::MIN)), app("Part", vec![copy_term(&l), n(i64::MIN)]));
}

#[test]
fn pythagorean_identity() {
    let x = app("Plus", vec![s("a"), n(1)]);
    assert_eq!(try_pythagorean(&app("Plus", vec![sq("Sin", copy_term(&x)), sq("Cos", copy_term(&x))])), Some(n(1)));
    assert_eq!(try_pythagorean(&app("Plus", vec![sq("Cos", s("x")), sq("Sin", s("x"))])), Some(n(1)));
    assert_eq!(try_pythagorean(&app("Plus", vec![sq("Sin", s("x")), sq("Cos", s("y"))])), None);
    assert_eq!(try_pythagorean(&app("Plus", vec![sq("Sin", s("x")), sq("Sin", s("x"))])), None);
    assert_eq!(try_pythagorean(&app("Plus", vec![sq("Sin", s("x")), sq("Cos", s("x")), n(0)])), None);
    let cube = app("Power", vec![app("Sin", vec![s("x")]), n(3)]);
    assert_eq!(try_pythagorean(&app("Plus", vec![cube, sq("Cos", s("x"))])), None);
    assert_eq!(try_pythagorean(&app("Times", vec![sq("Sin", s("x")), sq("Cos", s("x"))])), None);
}
