use sxo::bridge::{Atom, Term};
use sxo::bridge_render::render_matlab;

fn s(name: &str) -> Term {
    Term::symbol(name.to_string())
}
fn n(v: i64) -> Term {
    Term::small_int(v)
}
fn app(h: &str, args: Vec<Term>) -> Term {
    Term::app(h.to_string(), args)
}

#[test]
fn bridge_infix_forms() {
    assert_eq!(render_matlab(&app("Plus", vec![n(1), s("x")])), "1 + x");
    assert_eq!(render_matlab(&app("Times", vec![n(-1), s("x")])), "-x");
    assert_eq!(render_matlab(&app("Times", vec![n(2), s("x"), s("y")])), "2*x*y");
    assert_eq!(render_matlab(&app("Power", vec![s("x"), n(2)])), "x^2");
    assert_eq!(render_matlab(&app("Subtract", vec![s("a"), s("b")])), "a - b");
    assert_eq!(render_matlab(&app("Divide", vec![s("a"), s("b")])), "a/b");
    assert_eq!(render_matlab(&app("Plus", vec![s("x")])), "Plus(x)");
}

#[test]
fn bridge_function_names() {
    assert_eq!(render_matlab(&app("Integrate", vec![app("Power", vec![s("x"), n(2)]), s("x")])), "int(x^2, x)");
    assert_eq!(render_matlab(&app("Sin", vec![s("x")])), "sin(x)");
    assert_eq!(render_matlab(&app("Mldivide", vec![s("A"), s("b")])), "Mldivide(A, b)");
    assert_eq!(render_matlab(&app("Eye", vec![n(2)])), "Eye(2)");
}

#[test]
fn bridge_atoms_and_lists() {
    assert_eq!(render_matlab(&Term::Atom(Atom::String("s".to_string()))), "'s'");
    assert_eq!(render_matlab(&Term::List(vec![n(1), n(2)])), "[1, 2]");
    assert_eq!(
        render_matlab(&Term::List(vec![Term::List(vec![n(1), n(2)]), Term::List(vec![n(3), n(4)])])),
        "[1, 2; 3, 4]"
    );
}

#[test]
fn bridge_computed_heads() {
    let list_head = Term::App { head: Box::new(Term::List(vec![])), args: vec![s("x")] };
    assert_eq!(render_matlab(&list_head), "List(x)");
    let call_head = Term::App { head: Box::new(app("f", vec![s("a")])), args: vec![s("x")] };
    assert_eq!(render_matlab(&call_head), "f(x)");
    let number_head = Term::App { head: Box::new(n(3)), args: vec![s("x")] };
    assert_eq!(render_matlab(&number_head), "3(x)");
}
