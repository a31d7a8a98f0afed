use sxo::dialect::{Dialect, dialect_from_str, dialect_to_str};
use sxo::frontend::{SxoEngine, SxoFrontend};
use sxo::host::{bind_request, invoke_source};
use sxo::request::{BindingEvaluationPolicy, BindingKind, Request, SessionCommand};
use sxo::term::Term;
use sxo::options::{EvalStrategy, parse_strategy};

#[test]
fn dialect_tags_parse() {
    assert_eq!(dialect_from_str(Some("mathematica")).unwrap(), Dialect::Mathematica);
    assert_eq!(dialect_from_str(Some("matlab")).unwrap(), Dialect::Matlab);
    assert_eq!(dialect_from_str(Some("simple-math")).unwrap(), Dialect::SimpleMath);
    assert_eq!(dialect_from_str(Some("sm")).unwrap(), Dialect::SimpleMath);
}

#[test]
fn dialect_missing_auto_and_unknown_are_refused() {
    assert_eq!(
        dialect_from_str(None).unwrap_err().message,
        "dialect is required (mathematica | matlab | simple-math)"
    );
    assert_eq!(
        dialect_from_str(Some("auto")).unwrap_err().message,
        "dialect auto is removed. pass an explicit dialect"
    );
    assert_eq!(dialect_from_str(Some("python")).unwrap_err().message, "unknown dialect: python");
}

#[test]
fn dialect_name_roundtrip_on_every_dialect() {
    for d in [Dialect::SimpleMath, Dialect::Mathematica, Dialect::Matlab] {
        assert_eq!(dialect_from_str(Some(dialect_to_str(d))).unwrap(), d);
    }
    assert_eq!(dialect_to_str(Dialect::Matlab), "matlab");
}

#[test]
fn default_dialect_is_simple_math() {
    assert_eq!(Dialect::default(), Dialect::SimpleMath);
    assert_eq!(SxoFrontend::new().default_dialect, Dialect::SimpleMath);
    assert_eq!(SxoEngine::new().default_dialect, Dialect::SimpleMath);
    assert_eq!(SxoFrontend::with_dialect(Dialect::Matlab).default_dialect, Dialect::Matlab);
    assert_eq!(SxoEngine::with_dialect(Dialect::Mathematica).default_dialect, Dialect::Mathematica);
}

#[test]
fn resolve_dialect_keeps_the_explicit_choice() {
    let f = SxoFrontend::new();
    assert_eq!(f.resolve_dialect("sin(x)", Dialect::Mathematica), Dialect::Mathematica);
    let e = SxoEngine::with_dialect(Dialect::Mathematica);
    assert_eq!(e.resolve_dialect("Sin[x]", Dialect::Matlab), Dialect::Matlab);
}

#[test]
fn strategy_tags_parse() {
    assert_eq!(parse_strategy(None).unwrap(), EvalStrategy::AsIs);
    assert_eq!(parse_strategy(Some("none")).unwrap(), EvalStrategy::AsIs);
    assert_eq!(parse_strategy(Some("simplify")).unwrap(), EvalStrategy::Simplify);
    assert_eq!(
        parse_strategy(Some("expand")).unwrap_err().message,
        "unknown evaluate strategy `expand` (expected `none` or `simplify`)"
    );
}

#[test]
fn invoke_source_per_dialect() {
    let names = vec!["nums".to_string(), "target".to_string()];
    assert_eq!(invoke_source(Dialect::Mathematica, "twoSum", &names), "twoSum[nums, target]");
    assert_eq!(invoke_source(Dialect::Matlab, "twoSum", &names), "twoSum(nums, target)");
    assert_eq!(invoke_source(Dialect::SimpleMath, "twoSum", &names), "twoSum");
    assert_eq!(invoke_source(Dialect::Mathematica, "maxT", &[]), "maxT[]");
    assert_eq!(invoke_source(Dialect::Matlab, "maxT", &[]), "maxT()");
}

#[test]
fn bind_request_stores_the_term_as_is() {
    assert_eq!(
        bind_request("nums", Term::List(vec![Term::small_int(3)])),
        Request::Command(SessionCommand::Define {
            symbol: "nums".to_string(),
            value: Term::List(vec![Term::small_int(3)]),
            kind: BindingKind::Session,
            evaluation: BindingEvaluationPolicy::StoreResidualTerm,
        })
    );
}
