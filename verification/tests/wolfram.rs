use sxo::number::Number;
use sxo::request::{BindingEvaluationPolicy, BindingKind, ControlPlan, Request, SessionCommand};
use sxo::term::{Atom, Term};
use sxo::wexpr::{WAtom, WExpr};
use sxo::wolfram_lower::{lower_wexpr, wexpr_from_session};
use sxo::wolfram_render::render;
use sxo::wolfram_request::{int_progression, lower_request};

fn sym(s: &str) -> WExpr {
    WExpr::symbol(s.to_string())
}
fn num(n: i64) -> WExpr {
    WExpr::small_int(n)
}
fn call(h: &str, args: Vec<WExpr>) -> WExpr {
    WExpr::call(h.to_string(), args)
}
fn tsym(s: &str) -> Term {
    Term::symbol(s.to_string())
}
fn tint(n: i64) -> Term {
    Term::small_int(n)
}
fn app(h: &str, args: Vec<Term>) -> Term {
    Term::app(h.to_string(), args)
}

#[test]
fn sin_call_head_and_render() {
    let e = call("Sin", vec![sym("x")]);
    assert_eq!(e.head_name(), Some("Sin"));
    assert_eq!(render(&e), "Sin[x]");
}

#[test]
fn wexpr_heads_and_queries() {
    assert_eq!(WExpr::List(vec![]).head_name(), Some("List"));
    assert_eq!(sym("x").head_name(), Some("x"));
    assert_eq!(num(3).head_name(), None);
    assert!(sym("Pi").is_symbol("Pi"));
    assert!(!sym("Pi").is_symbol("E"));
    assert!(num(-1).is_neg_one());
    assert!(!num(1).is_neg_one());
}

#[test]
fn lower_maps_booleans_null_and_span() {
    assert_eq!(lower_wexpr(&sym("True")), Term::Atom(Atom::Boolean(true)));
    assert_eq!(lower_wexpr(&sym("False")), Term::Atom(Atom::Boolean(false)));
    assert_eq!(lower_wexpr(&sym("Null")), Term::Atom(Atom::Null));
    assert_eq!(lower_wexpr(&call("Span", vec![num(1), num(3)])), app("Range", vec![tint(1), tint(3)]));
    assert_eq!(
        lower_wexpr(&WExpr::List(vec![num(1), call("Plus", vec![num(2), num(2)])])),
        Term::List(vec![tint(1), app("Plus", vec![tint(2), tint(2)])])
    );
}

#[test]
fn lower_wraps_computed_heads() {
    let w = WExpr::Call { head: Box::new(call("f", vec![sym("a")])), args: vec![sym("b")] };
    assert_eq!(lower_wexpr(&w), app("Application", vec![app("f", vec![tsym("a")]), tsym("b")]));
}

#[test]
fn wexpr_roundtrip_via_session() {
    let w = call("Sin", vec![call("Plus", vec![sym("x"), num(1)])]);
    let back = wexpr_from_session(&lower_wexpr(&w));
    assert_eq!(back, w);
    let computed = WExpr::Call { head: Box::new(call("f", vec![sym("a")])), args: vec![sym("b"), num(2)] };
    assert_eq!(wexpr_from_session(&lower_wexpr(&computed)), computed);
}

#[test]
fn session_reads_back_booleans_and_null_as_symbols() {
    assert_eq!(wexpr_from_session(&Term::Atom(Atom::Boolean(true))), sym("True"));
    assert_eq!(wexpr_from_session(&Term::Atom(Atom::Null)), sym("Null"));
    assert_eq!(wexpr_from_session(&app("Application", vec![])), call("Application", vec![]));
}

#[test]
fn render_infix_and_precedence() {
    assert_eq!(render(&call("Plus", vec![num(1), call("Times", vec![num(2), num(3)])])), "1 + 2*3");
    assert_eq!(render(&call("Times", vec![num(-1), sym("x")])), "-x");
    assert_eq!(render(&call("Times", vec![num(-1), call("Plus", vec![sym("a"), sym("b")])])), "-(a + b)");
    assert_eq!(render(&call("Power", vec![call("Plus", vec![sym("a"), sym("b")]), num(2)])), "(a + b)^2");
    assert_eq!(render(&call("Subtract", vec![sym("a"), call("Plus", vec![sym("b"), sym("c")])])), "a - (b + c)");
    assert_eq!(render(&call("Divide", vec![sym("a"), call("Times", vec![sym("b"), sym("c")])])), "a/(b*c)");
    assert_eq!(render(&call("Rule", vec![sym("x"), num(1)])), "x -> 1");
    assert_eq!(render(&call("RuleDelayed", vec![sym("x"), num(1)])), "x :> 1");
    assert_eq!(render(&call("Part", vec![sym("l"), num(2)])), "l[[2]]");
    assert_eq!(render(&call("Function", vec![call("Plus", vec![sym("#"), num(1)])])), "# + 1 &");
    assert_eq!(
        render(&call("ReplaceAll", vec![sym("x"), call("Rule", vec![sym("x"), num(2)])])),
        "x /. x -> 2"
    );
    assert_eq!(render(&call("Plus", vec![sym("x")])), "Plus[x]");
}

#[test]
fn render_atoms_and_lists() {
    assert_eq!(render(&WExpr::Atom(WAtom::String("a\"b".to_string()))), "\"a\\\"b\"");
    assert_eq!(render(&WExpr::List(vec![num(1), num(2)])), "{1, 2}");
    assert_eq!(render(&WExpr::number(Number::Rational("3".to_string(), "4".to_string()))), "3/4");
    assert_eq!(render(&call("f", vec![])), "f[]");
}

#[test]
fn set_defines_with_evaluation() {
    let r = lower_request(&call("Set", vec![sym("x"), num(5)]));
    assert_eq!(
        r,
        Request::Command(SessionCommand::Define {
            symbol: "x".to_string(),
            value: tint(5),
            kind: BindingKind::Session,
            evaluation: BindingEvaluationPolicy::EvaluateBeforeStore,
        })
    );
}

#[test]
fn setdelayed_stores_residual() {
    let r = lower_request(&call("SetDelayed", vec![sym("a"), call("Plus", vec![num(1), num(1)])]));
    assert_eq!(
        r,
        Request::Command(SessionCommand::Define {
            symbol: "a".to_string(),
            value: app("Plus", vec![tint(1), tint(1)]),
            kind: BindingKind::Session,
            evaluation: BindingEvaluationPolicy::StoreResidualTerm,
        })
    );
    let pattern = lower_request(&call("SetDelayed", vec![call("f", vec![sym("x_")]), sym("x")]));
    assert!(matches!(pattern, Request::Term(_)));
}

#[test]
fn table_iterates_over_normalized_range() {
    let w = call("Table", vec![call("Power", vec![sym("i"), num(2)]), WExpr::List(vec![sym("i"), num(3)])]);
    match lower_request(&w) {
        Request::Control(ControlPlan::Iterate { binder, range, body, evaluation }) => {
            assert_eq!(binder, tsym("i"));
            assert_eq!(range, Term::List(vec![tint(1), tint(2), tint(3)]));
            assert_eq!(*body, Request::Term(app("Power", vec![tsym("i"), tint(2)])));
            assert_eq!(evaluation, BindingEvaluationPolicy::EvaluateBeforeStore);
        }
        other => panic!("unexpected {other:?}"),
    }
}

#[test]
fn table_ranges_with_bounds_and_steps() {
    let range_of = |iter: WExpr| match lower_request(&call("Table", vec![sym("i"), iter])) {
        Request::Control(ControlPlan::Iterate { range, .. }) => range,
        other => panic!("unexpected {other:?}"),
    };
    assert_eq!(range_of(WExpr::List(vec![sym("i"), num(2), num(4)])), Term::List(vec![tint(2), tint(3), tint(4)]));
    assert_eq!(range_of(WExpr::List(vec![sym("i"), num(1), num(10), num(4)])), Term::List(vec![tint(1), tint(5), tint(9)]));
    assert_eq!(range_of(WExpr::List(vec![sym("i"), num(3), num(1), num(-1)])), Term::List(vec![tint(3), tint(2), tint(1)]));
    assert_eq!(range_of(WExpr::List(vec![sym("i"), num(5), num(1)])), Term::List(vec![]));
    assert_eq!(
        range_of(WExpr::List(vec![sym("i"), num(1), num(3), num(0)])),
        Term::List(vec![tsym("i"), tint(1), tint(3), tint(0)])
    );
    assert_eq!(range_of(call("List", vec![sym("i"), num(2)])), Term::List(vec![tint(1), tint(2)]));
}

#[test]
fn other_forms_are_terms() {
    assert_eq!(lower_request(&call("Plus", vec![num(1), num(2)])), Request::Term(app("Plus", vec![tint(1), tint(2)])));
    assert_eq!(lower_request(&call("Set", vec![num(1), num(2)])), Request::Term(app("Set", vec![tint(1), tint(2)])));
}

#[test]
fn progression_stops_before_overflow() {
    assert_eq!(int_progression(i64::MAX - 1, i64::MAX, 1), vec![tint(i64::MAX - 1), tint(i64::MAX)]);
    assert_eq!(int_progression(i64::MIN + 1, i64::MIN, -1), vec![tint(i64::MIN + 1), tint(i64::MIN)]);
    assert_eq!(int_progression(0, 10, 5), vec![tint(0), tint(5), tint(10)]);
    assert_eq!(int_progression(1, 0, 1), vec![]);
}

#[test]
fn session_term_survives_read_back_and_lowering() {
    let terms = vec![
        app("Application", vec![app("f", vec![tsym("a")]), tsym("b")]),
        Term::Atom(Atom::Boolean(true)),
        Term::Atom(Atom::Null),
        Term::List(vec![tint(1), app("Plus", vec![tsym("x"), tint(2)])]),
        app("Application", vec![]),
    ];
    for t in terms {
        assert_eq!(lower_wexpr(&wexpr_from_session(&t)), t);
    }
    // a renamed head does not survive
    let span = app("Span", vec![tint(1), tint(2)]);
    assert_eq!(lower_wexpr(&wexpr_from_session(&span)), app("Range", vec![tint(1), tint(2)]));
}
