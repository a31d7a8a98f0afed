//! Stable machine-oriented summaries of result conditions and evidence, and the
//! host evaluation outcome record.

use vstd::prelude::*;

use crate::strings::{concat2, concat3, owned};

verus! {

/// Session-local handle of a computation result.
#[derive(Debug, Clone, Copy, PartialEq, Eq, Structural)]
pub struct ResultId(pub u32);

/// Session-local handle of a term.
#[derive(Debug, Clone, Copy, PartialEq, Eq, Structural)]
pub struct TermId(pub u32);

/// Session-local handle of an interned symbol.
#[derive(Debug, Clone, Copy, PartialEq, Eq, Structural)]
pub struct SymbolId(pub u32);

/// A side condition attached to a result.
#[derive(Debug, Clone, Copy, PartialEq, Eq, Structural)]
pub enum Predicate {
    /// `a == b`.
    Equal(TermId, TermId),
    /// `a != b`.
    NotEqual(TermId, TermId),
    /// `a < b`.
    Less(TermId, TermId),
    /// `a <= b`.
    LessEqual(TermId, TermId),
    /// `a > b`.
    Greater(TermId, TermId),
    /// `a >= b`.
    GreaterEqual(TermId, TermId),
    /// `a` is an integer.
    Integer(TermId),
    /// `a` is positive.
    Positive(TermId),
    /// `a` is non-negative.
    NonNegative(TermId),
    /// `a` is real.
    Real(TermId),
    /// `a` is complex.
    Complex(TermId),
    /// `a` is non-zero.
    NonZero(TermId),
    /// symbol is non-zero.
    SymbolNonZero(SymbolId),
    /// symbol is real.
    SymbolReal(SymbolId),
}

/// A condition and whether it has been discharged.
#[derive(Debug, Clone, Copy, PartialEq, Eq, Structural)]
pub struct Condition {
    /// The predicate.
    pub predicate: Predicate,
    /// Whether the predicate is known to hold.
    pub resolved: bool,
}

/// Machine name of a predicate's kind.
pub open spec fn spec_predicate_kind(p: Predicate) -> Seq<char> {
    match p {
        Predicate::Equal(_, _) => "Equal"@,
        Predicate::NotEqual(_, _) => "NotEqual"@,
        Predicate::Less(_, _) => "Less"@,
        Predicate::LessEqual(_, _) => "LessEqual"@,
        Predicate::Greater(_, _) => "Greater"@,
        Predicate::GreaterEqual(_, _) => "GreaterEqual"@,
        Predicate::Integer(_) => "Integer"@,
        Predicate::Positive(_) => "Positive"@,
        Predicate::NonNegative(_) => "NonNegative"@,
        Predicate::Real(_) => "Real"@,
        Predicate::Complex(_) => "Complex"@,
        Predicate::NonZero(_) => "NonZero"@,
        Predicate::SymbolNonZero(_) => "SymbolNonZero"@,
        Predicate::SymbolReal(_) => "SymbolReal"@,
    }
}

/// Text of a boolean as Rust prints it.
pub open spec fn bool_text(b: bool) -> Seq<char> {
    if b { "true"@ } else { "false"@ }
}

fn predicate_kind(predicate: &Predicate) -> (r: &'static str)
    ensures
        r@ == spec_predicate_kind(*predicate),
{
    match predicate {
        Predicate::Equal(_, _) => "Equal",
        Predicate::NotEqual(_, _) => "NotEqual",
        Predicate::Less(_, _) => "Less",
        Predicate::LessEqual(_, _) => "LessEqual",
        Predicate::Greater(_, _) => "Greater",
        Predicate::GreaterEqual(_, _) => "GreaterEqual",
        Predicate::Integer(_) => "Integer",
        Predicate::Positive(_) => "Positive",
        Predicate::NonNegative(_) => "NonNegative",
        Predicate::Real(_) => "Real",
        Predicate::Complex(_) => "Complex",
        Predicate::NonZero(_) => "NonZero",
        Predicate::SymbolNonZero(_) => "SymbolNonZero",
        Predicate::SymbolReal(_) => "SymbolReal",
    }
}

/// Stable summary of one condition: `"<Kind> resolved=<bool>"` (no term pretty-print).
pub fn condition_summary(condition: &Condition) -> (r: String)
    ensures
        r@ == spec_predicate_kind(condition.predicate) + " resolved="@ + bool_text(condition.resolved),
{
    let kind = predicate_kind(&condition.predicate);
    let flag = if condition.resolved { "true" } else { "false" };
    concat3(kind, " resolved=", flag)
}

/// Stable summary of one trusted-kernel evidence row:
/// `"TrustedKernelSummary provider=<provider> <summary>"`.
pub fn trusted_kernel_evidence_summary(provider_name: &str, summary: &str) -> (r: String)
    ensures
        r@ == "TrustedKernelSummary provider="@ + provider_name@ + " "@ + summary@,
{
    let mut r = concat2("TrustedKernelSummary provider=", provider_name);
    r.append(" ");
    r.append(summary);
    r
}

/// One host evaluation: result handle plus status / coverage / diagnostics.
#[derive(Debug, Clone, PartialEq, Eq)]
pub struct EvalOutcome {
    /// Result handle owned by the evaluation session.
    pub result_id: ResultId,
    /// Computation status machine name.
    pub status: String,
    /// Coverage machine name (`Full` / `Partial` / `Unknown` / `Unsupported`).
    pub coverage: String,
    /// Diagnostic summaries from the computation result.
    pub diagnostics: Vec<String>,
}

impl EvalOutcome {
    /// Outcome built from its four parts.
    pub fn new(result_id: ResultId, status: &str, coverage: &str, diagnostics: Vec<String>) -> (o: EvalOutcome)
        ensures
            o.result_id == result_id,
            o.status@ == status@,
            o.coverage@ == coverage@,
            o.diagnostics == diagnostics,
    {
        EvalOutcome { result_id, status: owned(status), coverage: owned(coverage), diagnostics }
    }
}


/// A comparison condition's summary names its own comparison: `a < b`
/// reads `Less`, `a > b` reads `Greater`, `a <= b` reads `LessEqual`,
/// `a >= b` reads `GreaterEqual`; opposite comparisons never read alike.
pub proof fn lemma_comparison_kind_names(a: TermId, b: TermId, resolved: bool)
    ensures
        condition_text(Predicate::Less(a, b), resolved) == "Less resolved="@ + bool_text(resolved),
        condition_text(Predicate::Greater(a, b), resolved) == "Greater resolved="@ + bool_text(resolved),
        condition_text(Predicate::LessEqual(a, b), resolved) == "LessEqual resolved="@ + bool_text(resolved),
        condition_text(Predicate::GreaterEqual(a, b), resolved) == "GreaterEqual resolved="@ + bool_text(resolved),
        condition_text(Predicate::Less(a, b), resolved) != condition_text(Predicate::Greater(a, b), resolved),
        condition_text(Predicate::LessEqual(a, b), resolved) != condition_text(
            Predicate::GreaterEqual(a, b),
            resolved,
        ),
{
    reveal_strlit("Less resolved=");
    reveal_strlit("Greater resolved=");
    reveal_strlit("LessEqual resolved=");
    reveal_strlit("GreaterEqual resolved=");
    reveal_strlit(" resolved=");
    reveal_strlit("Less");
    reveal_strlit("Greater");
    reveal_strlit("LessEqual");
    reveal_strlit("GreaterEqual");
    assert("Less"@ + " resolved="@ =~= "Less resolved="@);
    assert("Greater"@ + " resolved="@ =~= "Greater resolved="@);
    assert("LessEqual"@ + " resolved="@ =~= "LessEqual resolved="@);
    assert("GreaterEqual"@ + " resolved="@ =~= "GreaterEqual resolved="@);
    let t = bool_text(resolved);
    assert(("Less resolved="@ + t)[0] != ("Greater resolved="@ + t)[0]);
    assert(("LessEqual resolved="@ + t)[0] != ("GreaterEqual resolved="@ + t)[0]);
}

/// Text of a condition summary.
pub open spec fn condition_text(p: Predicate, resolved: bool) -> Seq<char> {
    spec_predicate_kind(p) + " resolved="@ + bool_text(resolved)
}

} // verus!
