use sxo::matlab_ast::{ElseIf, MatlabExpr as X, MatlabOp as Op, MatlabStmt as S};
use sxo::matlab_lower::{lower_expr, lower_root, lower_stmt, map_matlab_head, matlab_source, script_lowerable};
use sxo::matlab_render::{head_matlab_name, render_matlab};
use sxo::matlab_request::matlab_lower_request;
use sxo::number::Number;
use sxo::request::{BindingEvaluationPolicy, BindingKind, ControlPlan, Request, SessionCommand};
use sxo::term::{Atom, Term};

fn s(name: &str) -> X {
    X::Symbol(name.to_string())
}
fn l(text: &str) -> X {
    X::Literal(text.to_string())
}
fn bin(op: Op, a: X, b: X) -> X {
    X::Binary { operator: op, lhs: Box::new(a), rhs: Box::new(b) }
}
fn callx(h: X, args: Vec<X>) -> X {
    X::Call { head: Box::new(h), arguments: args }
}
fn tsym(name: &str) -> Term {
    Term::symbol(name.to_string())
}
fn tint(n: i64) -> Term {
    Term::small_int(n)
}
fn app(h: &str, args: Vec<Term>) -> Term {
    Term::app(h.to_string(), args)
}
fn low(e: &X) -> Term {
    lower_expr(e).unwrap()
}

#[test]
fn matlab_heads_map_to_engine_heads() {
    assert_eq!(map_matlab_head("sin"), "Sin");
    assert_eq!(map_matlab_head("diff"), "D");
    assert_eq!(map_matlab_head("int"), "Integrate");
    assert_eq!(map_matlab_head("linsolve"), "LinearSolve");
    assert_eq!(map_matlab_head("myfun"), "myfun");
    assert_eq!(head_matlab_name("Integrate"), "int");
    assert_eq!(head_matlab_name("IdentityMatrix"), "eye");
    assert_eq!(head_matlab_name("Dimensions"), "size");
    assert_eq!(head_matlab_name("Plus"), "Plus");
}

#[test]
fn matlab_head_roundtrip_on_the_table() {
    for name in ["sin", "cos", "tan", "exp", "log", "diff", "simplify", "int", "sqrt", "abs", "factorial", "zeros", "ones", "eye", "size", "length", "det", "sum", "linsolve", "myfun"] {
        assert_eq!(head_matlab_name(&map_matlab_head(name)), name);
    }
    assert_eq!(head_matlab_name(&map_matlab_head("Sin")), "sin");
}

#[test]
fn parse_mldivide_keeps_head() {
    // A\b
    let t = low(&bin(Op::LeftDivide, s("A"), s("b")));
    assert_eq!(t.app_name(), Some("Mldivide"));
    assert!(render_matlab(&t).contains('\\'));
}

#[test]
fn parse_dot_times_distinct_head() {
    // x .* y
    let t = low(&bin(Op::DotTimes, s("x"), s("y")));
    assert_eq!(t, app("DotTimes", vec![tsym("x"), tsym("y")]));
    assert!(render_matlab(&t).contains(".*"));
}

#[test]
fn parse_column_vector_and_mldivide_shape() {
    // [5; 6] and [1, 2; 3, 4] \ [5; 6]
    let col = low(&X::Array(vec![vec![l("5")], vec![l("6")]]));
    assert_eq!(col, Term::List(vec![Term::List(vec![tint(5)]), Term::List(vec![tint(6)])]));
    let m = X::Array(vec![vec![l("1"), l("2")], vec![l("3"), l("4")]]);
    let v = X::Array(vec![vec![l("5")], vec![l("6")]]);
    let t = low(&bin(Op::LeftDivide, m, v));
    assert_eq!(t.app_name(), Some("Mldivide"));
}

#[test]
fn parse_call_sin() {
    assert_eq!(low(&callx(s("sin"), vec![s("x")])), app("Sin", vec![tsym("x")]));
}

#[test]
fn parse_power() {
    assert_eq!(low(&bin(Op::Power, s("x"), l("3"))), app("Power", vec![tsym("x"), tint(3)]));
}

#[test]
fn symbols_and_literals() {
    assert_eq!(low(&s("true")), Term::Atom(Atom::Boolean(true)));
    assert_eq!(low(&s("false")), Term::Atom(Atom::Boolean(false)));
    assert_eq!(low(&s("end")), tsym("end"));
    assert_eq!(low(&l(" 2.5 ")), Term::Atom(Atom::Number(Number::Machine("2.5".to_string()))));
    assert_eq!(low(&l("'abc'")), Term::Atom(Atom::String("abc".to_string())));
    assert_eq!(low(&l("\"q\"")), Term::Atom(Atom::String("q".to_string())));
    assert_eq!(low(&l("'")), tsym("'"));
    assert_eq!(low(&l("pi")), tsym("pi"));
}

#[test]
fn binary_heads() {
    assert_eq!(low(&bin(Op::Minus, s("a"), s("b"))), app("Subtract", vec![tsym("a"), tsym("b")]));
    assert_eq!(low(&bin(Op::DotTimes, s("x"), s("y"))), app("DotTimes", vec![tsym("x"), tsym("y")]));
    assert_eq!(low(&bin(Op::LeftDivide, s("A"), s("b"))), app("Mldivide", vec![tsym("A"), tsym("b")]));
    assert_eq!(low(&bin(Op::Assign, s("x"), l("5"))), app("Set", vec![tsym("x"), tint(5)]));
    assert_eq!(low(&bin(Op::NotEqual, s("a"), s("b"))), app("Unequal", vec![tsym("a"), tsym("b")]));
    assert_eq!(low(&bin(Op::AndAnd, s("p"), s("q"))), app("And", vec![tsym("p"), tsym("q")]));
    assert_eq!(low(&bin(Op::Or, s("p"), s("q"))), app("Or", vec![tsym("p"), tsym("q")]));
    assert_eq!(
        lower_expr(&bin(Op::Other("Question".to_string()), s("a"), s("b"))).unwrap_err().message,
        "matlab(ast): unsupported binary Question"
    );
}

#[test]
fn parse_colon_step_flattens() {
    // 1:2:10 parses as (1:2):10
    let e = bin(Op::Colon, bin(Op::Colon, l("1"), l("2")), l("10"));
    assert_eq!(low(&e), app("Range", vec![tint(1), tint(10), tint(2)]));
    assert_eq!(low(&bin(Op::Colon, l("1"), l("3"))), app("Range", vec![tint(1), tint(3)]));
}

#[test]
fn prefix_and_postfix() {
    assert_eq!(
        low(&X::Prefix { operator: Op::Minus, operand: Box::new(s("x")) }),
        app("Times", vec![tint(-1), tsym("x")])
    );
    assert_eq!(low(&X::Prefix { operator: Op::Plus, operand: Box::new(s("x")) }), tsym("x"));
    assert_eq!(low(&X::Prefix { operator: Op::Not, operand: Box::new(s("p")) }), app("Not", vec![tsym("p")]));
    assert_eq!(
        lower_expr(&X::Prefix { operator: Op::Times, operand: Box::new(s("x")) }).unwrap_err().message,
        "matlab(ast): unsupported prefix Times"
    );
    assert_eq!(low(&X::Postfix { operator: Op::Transpose, operand: Box::new(s("A")) }), app("Transpose", vec![tsym("A")]));
    assert_eq!(low(&X::Postfix { operator: Op::DotTranspose, operand: Box::new(s("A")) }), app("Transpose", vec![tsym("A")]));
    assert_eq!(
        lower_expr(&X::Postfix { operator: Op::Plus, operand: Box::new(s("A")) }).unwrap_err().message,
        "matlab(ast): unsupported postfix Plus"
    );
    assert_eq!(low(&X::Grouped(Box::new(s("g")))), tsym("g"));
}

#[test]
fn parse_matrix_array() {
    let row = |a: &str, b: &str| vec![l(a), l(b)];
    let t = low(&X::Array(vec![row("1", "2"), row("3", "4")]));
    assert_eq!(t, Term::List(vec![Term::List(vec![tint(1), tint(2)]), Term::List(vec![tint(3), tint(4)])]));
    assert_eq!(render_matlab(&t), "[1, 2; 3, 4]");
    assert_eq!(low(&X::Array(vec![row("1", "2")])), Term::List(vec![tint(1), tint(2)]));
}

#[test]
fn parse_array_slice() {
    let arr = X::Array(vec![vec![l("1"), l("2"), l("3")]]);
    let e = callx(arr, vec![bin(Op::Colon, l("1"), l("2"))]);
    assert_eq!(
        low(&e),
        app("Part", vec![Term::List(vec![tint(1), tint(2), tint(3)]), app("Range", vec![tint(1), tint(2)])])
    );
    let nested = callx(callx(X::Array(vec![vec![l("1")]]), vec![l("1")]), vec![l("1")]);
    assert_eq!(
        low(&nested),
        app("Part", vec![app("Part", vec![Term::List(vec![tint(1)]), tint(1)]), tint(1)])
    );
}

#[test]
fn computed_heads_apply() {
    let e = callx(bin(Op::Plus, s("f"), s("g")), vec![s("x")]);
    assert_eq!(low(&e), app("Application", vec![app("Plus", vec![tsym("f"), tsym("g")]), tsym("x")]));
}

#[test]
fn parse_if_else_end() {
    let st = S::If { condition: l("1"), then_body: vec![S::Expr(l("2"))], elseifs: vec![], else_body: vec![S::Expr(l("3"))] };
    assert_eq!(lower_stmt(&st).unwrap(), app("If", vec![tint(1), tint(2), tint(3)]));
    let no_else = S::If { condition: s("c"), then_body: vec![S::Expr(l("2"))], elseifs: vec![], else_body: vec![] };
    assert_eq!(lower_stmt(&no_else).unwrap(), app("If", vec![tsym("c"), tint(2)]));
}

#[test]
fn elseif_chains_nest() {
    let st = S::If {
        condition: s("a"),
        then_body: vec![S::Expr(l("1"))],
        elseifs: vec![ElseIf { condition: s("b"), body: vec![S::Expr(l("2"))] }],
        else_body: vec![],
    };
    assert_eq!(
        lower_stmt(&st).unwrap(),
        app("If", vec![tsym("a"), tint(1), app("If", vec![tsym("b"), tint(2), Term::Atom(Atom::Null)])])
    );
}

#[test]
fn parse_while_and_for() {
    let w = S::While { condition: l("0"), body: vec![S::Expr(l("1")), S::Expr(l("2"))] };
    assert_eq!(lower_stmt(&w).unwrap(), app("While", vec![tint(0), app("CompoundExpression", vec![tint(1), tint(2)])]));
    let f = S::For { header: bin(Op::Assign, s("i"), bin(Op::Colon, l("1"), l("3"))), body: vec![S::Expr(s("i"))] };
    assert_eq!(lower_stmt(&f).unwrap(), app("For", vec![tsym("i"), app("Range", vec![tint(1), tint(3)]), tsym("i")]));
    let g = S::For { header: s("xs"), body: vec![] };
    assert_eq!(lower_stmt(&g).unwrap(), app("For", vec![tsym("_"), tsym("xs"), Term::Atom(Atom::Null)]));
    let t = S::Try { body: vec![S::Expr(s("a"))], catch_body: vec![S::Expr(s("b"))] };
    assert_eq!(lower_stmt(&t).unwrap(), app("Try", vec![tsym("a"), tsym("b")]));
    assert_eq!(lower_stmt(&S::Error).unwrap_err().message, "matlab(oak): error node");
}

#[test]
fn parse_root_semicolon_returns_compound() {
    let items = vec![S::Expr(l("1")), S::Expr(bin(Op::Plus, l("2"), l("2")))];
    assert_eq!(lower_root(&items).unwrap(), app("CompoundExpression", vec![tint(1), app("Plus", vec![tint(2), tint(2)])]));
    assert_eq!(lower_root(&vec![S::Expr(s("x"))]).unwrap(), tsym("x"));
    assert_eq!(lower_root(&vec![]).unwrap_err().message, "matlab(oak): empty root");
}

#[test]
fn render_matlab_forms() {
    assert_eq!(render_matlab(&app("Plus", vec![tint(1), tsym("x")])), "1 + x");
    assert_eq!(render_matlab(&app("Times", vec![tint(-1), tsym("x")])), "-x");
    assert_eq!(render_matlab(&app("Times", vec![tint(2), tsym("x"), tsym("y")])), "2*x*y");
    assert_eq!(render_matlab(&app("Power", vec![tsym("x"), tint(2)])), "x^2");
    assert_eq!(render_matlab(&app("Mldivide", vec![tsym("A"), tsym("b")])), "A\\b");
    assert_eq!(render_matlab(&app("DotPower", vec![tsym("x"), tint(2)])), "x.^2");
    assert_eq!(render_matlab(&app("Range", vec![tint(1), tint(10), tint(2)])), "1:10:2");
    assert_eq!(render_matlab(&app("Integrate", vec![tsym("x"), tsym("x")])), "int(x, x)");
    assert_eq!(render_matlab(&Term::Atom(Atom::String("s".to_string()))), "'s'");
    assert_eq!(render_matlab(&Term::Atom(Atom::Null)), "[]");
    assert_eq!(render_matlab(&Term::Atom(Atom::Boolean(true))), "true");
    assert_eq!(
        render_matlab(&Term::List(vec![Term::List(vec![tint(1), tint(2)]), Term::List(vec![tint(3), tint(4)])])),
        "[1, 2; 3, 4]"
    );
    assert_eq!(render_matlab(&Term::List(vec![Term::List(vec![tint(1), tint(2)])])), "[[1, 2]]");
    assert_eq!(render_matlab(&Term::List(vec![tint(1), tint(2)])), "[1, 2]");
}

#[test]
fn requests_from_matlab_terms() {
    assert_eq!(
        matlab_lower_request(app("Set", vec![tsym("x"), tint(5)])),
        Request::Command(SessionCommand::Define {
            symbol: "x".to_string(),
            value: tint(5),
            kind: BindingKind::Session,
            evaluation: BindingEvaluationPolicy::EvaluateBeforeStore,
        })
    );
    assert_eq!(
        matlab_lower_request(app("If", vec![tsym("c"), tint(1)])),
        Request::Control(ControlPlan::Branch {
            condition: tsym("c"),
            then_branch: Box::new(Request::Term(tint(1))),
            else_branch: None,
        })
    );
    assert_eq!(
        matlab_lower_request(app("While", vec![tint(0), tint(1)])),
        Request::Control(ControlPlan::LoopWhile { condition: tint(0), body: Box::new(Request::Term(tint(1))) })
    );
    assert_eq!(
        matlab_lower_request(app("CompoundExpression", vec![app("Set", vec![tint(1), tint(2)]), tsym("x")])),
        Request::Control(ControlPlan::Sequence {
            steps: vec![Request::Term(app("Set", vec![tint(1), tint(2)])), Request::Term(tsym("x"))]
        })
    );
    assert_eq!(matlab_lower_request(app("Span", vec![tint(1), tint(3)])), Request::Term(app("Range", vec![tint(1), tint(3)])));
    assert_eq!(matlab_lower_request(app("If", vec![tsym("c")])), Request::Term(app("If", vec![tsym("c")])));
}

#[test]
fn scripts_with_a_lone_quote_cannot_be_lowered() {
    assert!(script_lowerable(&vec![S::Expr(l("'a'")), S::Expr(l("\"b\""))]));
    assert!(!script_lowerable(&vec![S::Expr(bin(Op::Plus, l("1"), l(" \" ")))]));
    let nested = S::If {
        condition: s("c"),
        then_body: vec![],
        elseifs: vec![ElseIf { condition: s("d"), body: vec![S::Expr(l("\""))] }],
        else_body: vec![],
    };
    assert!(!script_lowerable(&vec![nested]));
    assert_eq!(matlab_source("  x = 1 ").unwrap(), "x = 1");
    assert_eq!(matlab_source("\n").unwrap_err().message, "matlab: empty input");
}

#[test]
fn lowering_stops_at_an_error_before_a_lone_quote() {
    let script = vec![S::Error, S::Expr(l("\""))];
    assert!(script_lowerable(&script));
    assert_eq!(lower_root(&script).unwrap_err().message, "matlab(oak): error node");
    let bad_then_quote = bin(Op::Plus, X::Prefix { operator: Op::Times, operand: Box::new(s("x")) }, l("\""));
    let stmt = S::Expr(bad_then_quote);
    assert!(script_lowerable(&vec![stmt]));
    let stmt = S::Expr(bin(Op::Plus, X::Prefix { operator: Op::Times, operand: Box::new(s("x")) }, l("\"")));
    assert_eq!(lower_stmt(&stmt).unwrap_err().message, "matlab(ast): unsupported prefix Times");
    let quote_then_bad = vec![S::Expr(l("\"")), S::Error];
    assert!(!script_lowerable(&quote_then_bad));
}
