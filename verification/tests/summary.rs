use sxo::summary::{Condition, EvalOutcome, Predicate, ResultId, SymbolId, TermId, condition_summary, trusted_kernel_evidence_summary};

#[test]
fn trusted_kernel_evidence_summary_is_stable() {
    assert_eq!(
        trusted_kernel_evidence_summary("Solve", "solution_rules coverage=Complete"),
        "TrustedKernelSummary provider=Solve solution_rules coverage=Complete"
    );
}

#[test]
fn condition_summary_names_predicate_kind() {
    let c = Condition { predicate: Predicate::SymbolReal(SymbolId(7)), resolved: false };
    assert_eq!(condition_summary(&c), "SymbolReal resolved=false");
}

#[test]
fn every_predicate_kind_is_named() {
    let t = TermId(1);
    let cases = [
        (Predicate::Equal(t, t), "Equal"),
        (Predicate::NotEqual(t, t), "NotEqual"),
        (Predicate::Less(t, t), "Less"),
        (Predicate::LessEqual(t, t), "LessEqual"),
        (Predicate::Greater(t, t), "Greater"),
        (Predicate::GreaterEqual(t, t), "GreaterEqual"),
        (Predicate::Integer(t), "Integer"),
        (Predicate::Positive(t), "Positive"),
        (Predicate::NonNegative(t), "NonNegative"),
        (Predicate::Real(t), "Real"),
        (Predicate::Complex(t), "Complex"),
        (Predicate::NonZero(t), "NonZero"),
        (Predicate::SymbolNonZero(SymbolId(2)), "SymbolNonZero"),
    ];
    for (p, name) in cases {
        let c = Condition { predicate: p, resolved: true };
        assert_eq!(condition_summary(&c), format!("{name} resolved=true"));
    }
}

#[test]
fn eval_outcome_keeps_its_fields() {
    let o = EvalOutcome::new(ResultId(3), "Exact", "Full", vec!["note".to_string()]);
    assert_eq!(o.result_id, ResultId(3));
    assert_eq!(o.status, "Exact");
    assert_eq!(o.coverage, "Full");
    assert_eq!(o.diagnostics, vec!["note".to_string()]);
}
