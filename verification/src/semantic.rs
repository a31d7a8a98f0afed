//! Closed semantic operators and their dialect surface names.
//!
//! A surface name that maps to a closed operator is stored as that operator
//! and reads back under the operator's canonical surface name.

use vstd::prelude::*;

use crate::strings::{owned, str_eq};
use crate::term::{Term, TermV, terms_view};

verus! {

/// Elementary function carried by a unary operator.
#[derive(Debug, Clone, Copy, PartialEq, Eq, Structural)]
pub enum UnaryFunction {
    /// `Sin`.
    Sin,
    /// `Cos`.
    Cos,
    /// `Tan`.
    Tan,
    /// `Exp`.
    Exp,
    /// `Log`.
    Log,
    /// `Sqrt`.
    Sqrt,
    /// `Abs`.
    Abs,
}

/// Closed operator the kernel dispatches on.
#[derive(Debug, Clone, Copy, PartialEq, Eq, Structural)]
pub enum SemanticOperator {
    /// Sum.
    Add,
    /// Product.
    Multiply,
    /// Difference.
    Subtract,
    /// Quotient.
    Divide,
    /// Power.
    Power,
    /// Negation.
    Negate,
    /// Element-wise product.
    ElementwiseMultiply,
    /// Element-wise quotient.
    ElementwiseDivide,
    /// Element-wise power.
    ElementwisePower,
    /// `==`.
    Equal,
    /// `!=`.
    Unequal,
    /// `<`.
    Less,
    /// `>`.
    Greater,
    /// `<=`.
    LessEqual,
    /// `>=`.
    GreaterEqual,
    /// Conjunction.
    And,
    /// Disjunction.
    Or,
    /// Negation of a truth value.
    Not,
    /// Integer range.
    Range,
    /// Simplification request.
    Simplify,
    /// Factorial.
    Factorial,
    /// Zero matrix.
    Zeros,
    /// Matrix of ones.
    Ones,
    /// Identity matrix.
    Eye,
    /// Dimensions.
    Size,
    /// Length.
    Length,
    /// Determinant.
    Determinant,
    /// Sum of elements.
    Sum,
    /// Application of a computed head.
    ApplyHead,
    /// Elementary function.
    Unary(UnaryFunction),
}

/// Label of an elementary function.
pub open spec fn unary_label(f: UnaryFunction) -> Seq<char> {
    match f {
        UnaryFunction::Sin => "Sin"@,
        UnaryFunction::Cos => "Cos"@,
        UnaryFunction::Tan => "Tan"@,
        UnaryFunction::Exp => "Exp"@,
        UnaryFunction::Log => "Log"@,
        UnaryFunction::Sqrt => "Sqrt"@,
        UnaryFunction::Abs => "Abs"@,
    }
}

/// Surface name of an operator.
pub open spec fn spec_semantic_to_surface(op: SemanticOperator) -> Seq<char> {
    match op {
        SemanticOperator::Add => "Plus"@,
        SemanticOperator::Multiply => "Times"@,
        SemanticOperator::Subtract => "Subtract"@,
        SemanticOperator::Divide => "Divide"@,
        SemanticOperator::Power => "Power"@,
        SemanticOperator::Negate => "Minus"@,
        SemanticOperator::ElementwiseMultiply => "DotTimes"@,
        SemanticOperator::ElementwiseDivide => "DotDivide"@,
        SemanticOperator::ElementwisePower => "DotPower"@,
        SemanticOperator::Equal => "Equal"@,
        SemanticOperator::Unequal => "Unequal"@,
        SemanticOperator::Less => "Less"@,
        SemanticOperator::Greater => "Greater"@,
        SemanticOperator::LessEqual => "LessEqual"@,
        SemanticOperator::GreaterEqual => "GreaterEqual"@,
        SemanticOperator::And => "And"@,
        SemanticOperator::Or => "Or"@,
        SemanticOperator::Not => "Not"@,
        SemanticOperator::Range => "Range"@,
        SemanticOperator::Simplify => "Simplify"@,
        SemanticOperator::Factorial => "Factorial"@,
        SemanticOperator::Zeros => "Zeros"@,
        SemanticOperator::Ones => "Ones"@,
        SemanticOperator::Eye => "Eye"@,
        SemanticOperator::Size => "Size"@,
        SemanticOperator::Length => "Length"@,
        SemanticOperator::Determinant => "Det"@,
        SemanticOperator::Sum => "Sum"@,
        SemanticOperator::ApplyHead => "Application"@,
        SemanticOperator::Unary(f) => unary_label(f),
    }
}

/// Closed operator a surface name denotes, if any (`Det` and `Determinant`
/// both denote the determinant).
pub open spec fn spec_surface_to_semantic(name: Seq<char>) -> Option<SemanticOperator> {
    if name == "Plus"@ {
        Some(SemanticOperator::Add)
    } else if name == "Times"@ {
        Some(SemanticOperator::Multiply)
    } else if name == "Subtract"@ {
        Some(SemanticOperator::Subtract)
    } else if name == "Divide"@ {
        Some(SemanticOperator::Divide)
    } else if name == "Power"@ {
        Some(SemanticOperator::Power)
    } else if name == "Minus"@ {
        Some(SemanticOperator::Negate)
    } else if name == "DotTimes"@ {
        Some(SemanticOperator::ElementwiseMultiply)
    } else if name == "DotDivide"@ {
        Some(SemanticOperator::ElementwiseDivide)
    } else if name == "DotPower"@ {
        Some(SemanticOperator::ElementwisePower)
    } else if name == "Equal"@ {
        Some(SemanticOperator::Equal)
    } else if name == "Unequal"@ {
        Some(SemanticOperator::Unequal)
    } else if name == "Less"@ {
        Some(SemanticOperator::Less)
    } else if name == "Greater"@ {
        Some(SemanticOperator::Greater)
    } else if name == "LessEqual"@ {
        Some(SemanticOperator::LessEqual)
    } else if name == "GreaterEqual"@ {
        Some(SemanticOperator::GreaterEqual)
    } else if name == "And"@ {
        Some(SemanticOperator::And)
    } else if name == "Or"@ {
        Some(SemanticOperator::Or)
    } else if name == "Not"@ {
        Some(SemanticOperator::Not)
    } else if name == "Range"@ {
        Some(SemanticOperator::Range)
    } else if name == "Simplify"@ {
        Some(SemanticOperator::Simplify)
    } else if name == "Factorial"@ {
        Some(SemanticOperator::Factorial)
    } else if name == "Zeros"@ {
        Some(SemanticOperator::Zeros)
    } else if name == "Ones"@ {
        Some(SemanticOperator::Ones)
    } else if name == "Eye"@ {
        Some(SemanticOperator::Eye)
    } else if name == "Size"@ {
        Some(SemanticOperator::Size)
    } else if name == "Length"@ {
        Some(SemanticOperator::Length)
    } else if name == "Det"@ || name == "Determinant"@ {
        Some(SemanticOperator::Determinant)
    } else if name == "Sum"@ {
        Some(SemanticOperator::Sum)
    } else if name == "Sin"@ {
        Some(SemanticOperator::Unary(UnaryFunction::Sin))
    } else if name == "Cos"@ {
        Some(SemanticOperator::Unary(UnaryFunction::Cos))
    } else if name == "Tan"@ {
        Some(SemanticOperator::Unary(UnaryFunction::Tan))
    } else if name == "Exp"@ {
        Some(SemanticOperator::Unary(UnaryFunction::Exp))
    } else if name == "Log"@ {
        Some(SemanticOperator::Unary(UnaryFunction::Log))
    } else if name == "Sqrt"@ {
        Some(SemanticOperator::Unary(UnaryFunction::Sqrt))
    } else if name == "Abs"@ {
        Some(SemanticOperator::Unary(UnaryFunction::Abs))
    } else {
        None
    }
}

/// Closed operator a surface name denotes, if any.
pub fn surface_to_semantic(name: &str) -> (r: Option<SemanticOperator>)
    ensures
        r == spec_surface_to_semantic(name@),
{
    if str_eq(name, "Plus") {
        Some(SemanticOperator::Add)
    } else if str_eq(name, "Times") {
        Some(SemanticOperator::Multiply)
    } else if str_eq(name, "Subtract") {
        Some(SemanticOperator::Subtract)
    } else if str_eq(name, "Divide") {
        Some(SemanticOperator::Divide)
    } else if str_eq(name, "Power") {
        Some(SemanticOperator::Power)
    } else if str_eq(name, "Minus") {
        Some(SemanticOperator::Negate)
    } else if str_eq(name, "DotTimes") {
        Some(SemanticOperator::ElementwiseMultiply)
    } else if str_eq(name, "DotDivide") {
        Some(SemanticOperator::ElementwiseDivide)
    } else if str_eq(name, "DotPower") {
        Some(SemanticOperator::ElementwisePower)
    } else if str_eq(name, "Equal") {
        Some(SemanticOperator::Equal)
    } else if str_eq(name, "Unequal") {
        Some(SemanticOperator::Unequal)
    } else if str_eq(name, "Less") {
        Some(SemanticOperator::Less)
    } else if str_eq(name, "Greater") {
        Some(SemanticOperator::Greater)
    } else if str_eq(name, "LessEqual") {
        Some(SemanticOperator::LessEqual)
    } else if str_eq(name, "GreaterEqual") {
        Some(SemanticOperator::GreaterEqual)
    } else if str_eq(name, "And") {
        Some(SemanticOperator::And)
    } else if str_eq(name, "Or") {
        Some(SemanticOperator::Or)
    } else if str_eq(name, "Not") {
        Some(SemanticOperator::Not)
    } else if str_eq(name, "Range") {
        Some(SemanticOperator::Range)
    } else if str_eq(name, "Simplify") {
        Some(SemanticOperator::Simplify)
    } else if str_eq(name, "Factorial") {
        Some(SemanticOperator::Factorial)
    } else if str_eq(name, "Zeros") {
        Some(SemanticOperator::Zeros)
    } else if str_eq(name, "Ones") {
        Some(SemanticOperator::Ones)
    } else if str_eq(name, "Eye") {
        Some(SemanticOperator::Eye)
    } else if str_eq(name, "Size") {
        Some(SemanticOperator::Size)
    } else if str_eq(name, "Length") {
        Some(SemanticOperator::Length)
    } else if str_eq(name, "Det") || str_eq(name, "Determinant") {
        Some(SemanticOperator::Determinant)
    } else if str_eq(name, "Sum") {
        Some(SemanticOperator::Sum)
    } else if str_eq(name, "Sin") {
        Some(SemanticOperator::Unary(UnaryFunction::Sin))
    } else if str_eq(name, "Cos") {
        Some(SemanticOperator::Unary(UnaryFunction::Cos))
    } else if str_eq(name, "Tan") {
        Some(SemanticOperator::Unary(UnaryFunction::Tan))
    } else if str_eq(name, "Exp") {
        Some(SemanticOperator::Unary(UnaryFunction::Exp))
    } else if str_eq(name, "Log") {
        Some(SemanticOperator::Unary(UnaryFunction::Log))
    } else if str_eq(name, "Sqrt") {
        Some(SemanticOperator::Unary(UnaryFunction::Sqrt))
    } else if str_eq(name, "Abs") {
        Some(SemanticOperator::Unary(UnaryFunction::Abs))
    } else {
        None
    }
}

/// Surface name of a closed operator.
pub fn semantic_to_surface(op: SemanticOperator) -> (r: &'static str)
    ensures
        r@ == spec_semantic_to_surface(op),
{
    match op {
        SemanticOperator::Add => "Plus",
        SemanticOperator::Multiply => "Times",
        SemanticOperator::Subtract => "Subtract",
        SemanticOperator::Divide => "Divide",
        SemanticOperator::Power => "Power",
        SemanticOperator::Negate => "Minus",
        SemanticOperator::ElementwiseMultiply => "DotTimes",
        SemanticOperator::ElementwiseDivide => "DotDivide",
        SemanticOperator::ElementwisePower => "DotPower",
        SemanticOperator::Equal => "Equal",
        SemanticOperator::Unequal => "Unequal",
        SemanticOperator::Less => "Less",
        SemanticOperator::Greater => "Greater",
        SemanticOperator::LessEqual => "LessEqual",
        SemanticOperator::GreaterEqual => "GreaterEqual",
        SemanticOperator::And => "And",
        SemanticOperator::Or => "Or",
        SemanticOperator::Not => "Not",
        SemanticOperator::Range => "Range",
        SemanticOperator::Simplify => "Simplify",
        SemanticOperator::Factorial => "Factorial",
        SemanticOperator::Zeros => "Zeros",
        SemanticOperator::Ones => "Ones",
        SemanticOperator::Eye => "Eye",
        SemanticOperator::Size => "Size",
        SemanticOperator::Length => "Length",
        SemanticOperator::Determinant => "Det",
        SemanticOperator::Sum => "Sum",
        SemanticOperator::ApplyHead => "Application",
        SemanticOperator::Unary(f) => match f {
            UnaryFunction::Sin => "Sin",
            UnaryFunction::Cos => "Cos",
            UnaryFunction::Tan => "Tan",
            UnaryFunction::Exp => "Exp",
            UnaryFunction::Log => "Log",
            UnaryFunction::Sqrt => "Sqrt",
            UnaryFunction::Abs => "Abs",
        },
    }
}

/// Name under which a surface call reads back: the canonical surface name of
/// the operator it denotes, or the name itself.
pub open spec fn stored_head(name: Seq<char>) -> Seq<char> {
    match spec_surface_to_semantic(name) {
        Some(op) => spec_semantic_to_surface(op),
        None => name,
    }
}

/// A call of `name` on `args` as a session term: a closed operator when the
/// name denotes one (read back under its canonical name), else the name.
pub fn push_matlab_call(name: &str, args: Vec<Term>) -> (t: Term)
    ensures
        t@ == (TermV::App { op: stored_head(name@), args: terms_view(args@) }),
{
    let head = match surface_to_semantic(name) {
        Some(op) => owned(semantic_to_surface(op)),
        None => owned(name),
    };
    Term::App { op: head, args }
}

/// Head name an application reads back under, `None` for other terms.
pub fn application_surface_name(t: &Term) -> (r: Option<&str>)
    ensures
        r matches Some(s) ==> t@ matches TermV::App { op, .. } && op == s@,
        r is None ==> !(t@ is App),
{
    match t {
        Term::App { op, .. } => Some(op.as_str()),
        _ => None,
    }
}

/// A surface name that denotes a closed operator reads back as itself, except
/// that `Determinant` reads back as `Det`.
pub proof fn lemma_surface_name_reads_back(name: Seq<char>)
    requires
        spec_surface_to_semantic(name) is Some,
        name != "Determinant"@,
    ensures
        spec_semantic_to_surface(spec_surface_to_semantic(name)->0) == name,
{
}

/// Storing a call twice changes nothing: the read-back name is stable.
pub proof fn lemma_stored_head_idempotent(name: Seq<char>)
    ensures
        stored_head(stored_head(name)) == stored_head(name),
{
    if spec_surface_to_semantic(name) is Some {
        if name == "Determinant"@ {
            reveal_strlit("Plus");
            reveal_strlit("Times");
            reveal_strlit("Subtract");
            reveal_strlit("Divide");
            reveal_strlit("Power");
            reveal_strlit("Minus");
            reveal_strlit("DotTimes");
            reveal_strlit("DotDivide");
            reveal_strlit("DotPower");
            reveal_strlit("Equal");
            reveal_strlit("Unequal");
            reveal_strlit("Less");
            reveal_strlit("Greater");
            reveal_strlit("LessEqual");
            reveal_strlit("GreaterEqual");
            reveal_strlit("And");
            reveal_strlit("Or");
            reveal_strlit("Not");
            reveal_strlit("Range");
            reveal_strlit("Simplify");
            reveal_strlit("Factorial");
            reveal_strlit("Zeros");
            reveal_strlit("Ones");
            reveal_strlit("Eye");
            reveal_strlit("Size");
            reveal_strlit("Length");
            reveal_strlit("Det");
        }
    }
}

/// Length and a few characters of a name, enough to tell surface names apart.
spec fn name_key(s: Seq<char>) -> (nat, char, char, char) {
    (s.len(), s[0], s[1], s[3])
}

/// Every operator but the computed-head application is named by its surface
/// name: reading the name gives the operator back.
pub proof fn lemma_operator_name_roundtrip(op: SemanticOperator)
    requires
        op != SemanticOperator::ApplyHead,
    ensures
        spec_surface_to_semantic(spec_semantic_to_surface(op)) == Some(op),
{
    reveal_strlit("Plus");
    reveal_strlit("Times");
    reveal_strlit("Subtract");
    reveal_strlit("Divide");
    reveal_strlit("Power");
    reveal_strlit("Minus");
    reveal_strlit("DotTimes");
    reveal_strlit("DotDivide");
    reveal_strlit("DotPower");
    reveal_strlit("Equal");
    reveal_strlit("Unequal");
    reveal_strlit("Less");
    reveal_strlit("Greater");
    reveal_strlit("LessEqual");
    reveal_strlit("GreaterEqual");
    reveal_strlit("And");
    reveal_strlit("Or");
    reveal_strlit("Not");
    reveal_strlit("Range");
    reveal_strlit("Simplify");
    reveal_strlit("Factorial");
    reveal_strlit("Zeros");
    reveal_strlit("Ones");
    reveal_strlit("Eye");
    reveal_strlit("Size");
    reveal_strlit("Length");
    reveal_strlit("Det");
    reveal_strlit("Determinant");
    reveal_strlit("Sum");
    reveal_strlit("Sin");
    reveal_strlit("Cos");
    reveal_strlit("Tan");
    reveal_strlit("Exp");
    reveal_strlit("Log");
    reveal_strlit("Sqrt");
    reveal_strlit("Abs");
    assert(name_key("Plus"@) == name_key("Plus"@));
    assert(name_key("Times"@) == name_key("Times"@));
    assert(name_key("Subtract"@) == name_key("Subtract"@));
    assert(name_key("Divide"@) == name_key("Divide"@));
    assert(name_key("Power"@) == name_key("Power"@));
    assert(name_key("Minus"@) == name_key("Minus"@));
    assert(name_key("DotTimes"@) == name_key("DotTimes"@));
    assert(name_key("DotDivide"@) == name_key("DotDivide"@));
    assert(name_key("DotPower"@) == name_key("DotPower"@));
    assert(name_key("Equal"@) == name_key("Equal"@));
    assert(name_key("Unequal"@) == name_key("Unequal"@));
    assert(name_key("Less"@) == name_key("Less"@));
    assert(name_key("Greater"@) == name_key("Greater"@));
    assert(name_key("LessEqual"@) == name_key("LessEqual"@));
    assert(name_key("GreaterEqual"@) == name_key("GreaterEqual"@));
    assert(name_key("And"@) == name_key("And"@));
    assert(name_key("Or"@) == name_key("Or"@));
    assert(name_key("Not"@) == name_key("Not"@));
    assert(name_key("Range"@) == name_key("Range"@));
    assert(name_key("Simplify"@) == name_key("Simplify"@));
    assert(name_key("Factorial"@) == name_key("Factorial"@));
    assert(name_key("Zeros"@) == name_key("Zeros"@));
    assert(name_key("Ones"@) == name_key("Ones"@));
    assert(name_key("Eye"@) == name_key("Eye"@));
    assert(name_key("Size"@) == name_key("Size"@));
    assert(name_key("Length"@) == name_key("Length"@));
    assert(name_key("Det"@) == name_key("Det"@));
    assert(name_key("Determinant"@) == name_key("Determinant"@));
    assert(name_key("Sum"@) == name_key("Sum"@));
    assert(name_key("Sin"@) == name_key("Sin"@));
    assert(name_key("Cos"@) == name_key("Cos"@));
    assert(name_key("Tan"@) == name_key("Tan"@));
    assert(name_key("Exp"@) == name_key("Exp"@));
    assert(name_key("Log"@) == name_key("Log"@));
    assert(name_key("Sqrt"@) == name_key("Sqrt"@));
    assert(name_key("Abs"@) == name_key("Abs"@));
}


/// A call is stored under the name it was written with, except that
/// `Determinant` is stored under its canonical name `Det`.
pub proof fn lemma_stored_head_names(name: Seq<char>)
    ensures
        name != "Determinant"@ ==> stored_head(name) == name,
        stored_head("Determinant"@) == "Det"@,
{
    if spec_surface_to_semantic(name) is Some && name != "Determinant"@ {
        lemma_surface_name_reads_back(name);
    }
    lemma_stored_head_idempotent("Determinant"@);
    reveal_strlit("Determinant");
    reveal_strlit("Det");
    assert(spec_surface_to_semantic("Determinant"@) == Some(SemanticOperator::Determinant)) by {
        lemma_determinant_name();
    }
}


/// `Determinant` names the determinant operator.
proof fn lemma_determinant_name()
    ensures
        spec_surface_to_semantic("Determinant"@) == Some(SemanticOperator::Determinant),
{
    reveal_strlit("Plus");
    reveal_strlit("Times");
    reveal_strlit("Subtract");
    reveal_strlit("Divide");
    reveal_strlit("Power");
    reveal_strlit("Minus");
    reveal_strlit("DotTimes");
    reveal_strlit("DotDivide");
    reveal_strlit("DotPower");
    reveal_strlit("Equal");
    reveal_strlit("Unequal");
    reveal_strlit("Less");
    reveal_strlit("Greater");
    reveal_strlit("LessEqual");
    reveal_strlit("GreaterEqual");
    reveal_strlit("And");
    reveal_strlit("Or");
    reveal_strlit("Not");
    reveal_strlit("Range");
    reveal_strlit("Simplify");
    reveal_strlit("Factorial");
    reveal_strlit("Zeros");
    reveal_strlit("Ones");
    reveal_strlit("Eye");
    reveal_strlit("Size");
    reveal_strlit("Length");
    reveal_strlit("Det");
    reveal_strlit("Determinant");
    assert("Plus"@.len() == 4);
    assert("Times"@.len() == 5);
    assert("Subtract"@.len() == 8);
    assert("Divide"@.len() == 6);
    assert("Power"@.len() == 5);
    assert("Minus"@.len() == 5);
    assert("DotTimes"@.len() == 8);
    assert("DotDivide"@.len() == 9);
    assert("DotPower"@.len() == 8);
    assert("Equal"@.len() == 5);
    assert("Unequal"@.len() == 7);
    assert("Less"@.len() == 4);
    assert("Greater"@.len() == 7);
    assert("LessEqual"@.len() == 9);
    assert("GreaterEqual"@.len() == 12);
    assert("And"@.len() == 3);
    assert("Or"@.len() == 2);
    assert("Not"@.len() == 3);
    assert("Range"@.len() == 5);
    assert("Simplify"@.len() == 8);
    assert("Factorial"@.len() == 9);
    assert("Zeros"@.len() == 5);
    assert("Ones"@.len() == 4);
    assert("Eye"@.len() == 3);
    assert("Size"@.len() == 4);
    assert("Length"@.len() == 6);
    assert("Det"@.len() == 3);
    assert("Determinant"@.len() == 11);
}

} // verus!
