use sxo::semantic::{SemanticOperator as Op, UnaryFunction, application_surface_name, push_matlab_call, semantic_to_surface, surface_to_semantic};
use sxo::term::Term;

#[test]
fn surface_names_map_to_operators() {
    assert_eq!(surface_to_semantic("Plus"), Some(Op::Add));
    assert_eq!(surface_to_semantic("DotTimes"), Some(Op::ElementwiseMultiply));
    assert_eq!(surface_to_semantic("Determinant"), Some(Op::Determinant));
    assert_eq!(surface_to_semantic("Det"), Some(Op::Determinant));
    assert_eq!(surface_to_semantic("Sqrt"), Some(Op::Unary(UnaryFunction::Sqrt)));
    assert_eq!(surface_to_semantic("Mldivide"), None);
    assert_eq!(surface_to_semantic("plus"), None);
}

#[test]
fn operators_map_to_surface_names() {
    assert_eq!(semantic_to_surface(Op::Multiply), "Times");
    assert_eq!(semantic_to_surface(Op::Negate), "Minus");
    assert_eq!(semantic_to_surface(Op::Determinant), "Det");
    assert_eq!(semantic_to_surface(Op::ApplyHead), "Application");
    assert_eq!(semantic_to_surface(Op::Unary(UnaryFunction::Log)), "Log");
}

#[test]
fn operator_name_roundtrip() {
    let ops = [
        Op::Add, Op::Multiply, Op::Subtract, Op::Divide, Op::Power, Op::Negate, Op::ElementwiseMultiply,
        Op::ElementwiseDivide, Op::ElementwisePower, Op::Equal, Op::Unequal, Op::Less, Op::Greater, Op::LessEqual,
        Op::GreaterEqual, Op::And, Op::Or, Op::Not, Op::Range, Op::Simplify, Op::Factorial, Op::Zeros, Op::Ones,
        Op::Eye, Op::Size, Op::Length, Op::Determinant, Op::Sum, Op::Unary(UnaryFunction::Sin),
        Op::Unary(UnaryFunction::Cos), Op::Unary(UnaryFunction::Tan), Op::Unary(UnaryFunction::Exp),
        Op::Unary(UnaryFunction::Log), Op::Unary(UnaryFunction::Sqrt), Op::Unary(UnaryFunction::Abs),
    ];
    for op in ops {
        assert_eq!(surface_to_semantic(semantic_to_surface(op)), Some(op));
    }
    assert_eq!(surface_to_semantic(semantic_to_surface(Op::ApplyHead)), None);
}

#[test]
fn calls_read_back_under_canonical_names() {
    let det = push_matlab_call("Determinant", vec![Term::symbol("A".to_string())]);
    assert_eq!(application_surface_name(&det), Some("Det"));
    let plus = push_matlab_call("Plus", vec![]);
    assert_eq!(application_surface_name(&plus), Some("Plus"));
    let ext = push_matlab_call("Mldivide", vec![]);
    assert_eq!(ext, Term::app("Mldivide".to_string(), vec![]));
    assert_eq!(application_surface_name(&Term::symbol("x".to_string())), None);
    let twice = push_matlab_call(application_surface_name(&det).unwrap(), vec![]);
    assert_eq!(application_surface_name(&twice), Some("Det"));
}
