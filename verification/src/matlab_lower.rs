//! Lower a MATLAB syntax tree into a session term.

use vstd::prelude::*;
use vstd::string::*;

use crate::error::{SxoError, error_from_str};
use crate::matlab_ast::{ElseIf, MatlabExpr, MatlabOp, MatlabStmt};
use crate::number::{
    float_run, grouped_digits_ok, is_digit, is_white, lemma_float_run_rejects, parse_number_literal, spec_number_literal, trim_end_spec,
    trim_spec, trim_start_spec, trim_str,
};
use crate::strings::{concat2, owned, str_eq};
use crate::term::{
    Atom, AtomV, Term, TermV, app_v, int_v, lemma_terms_view, sym_v, term_view, terms_view,
};

verus! {

// ------------------------------------------------------------------ head names

/// Engine head of a MATLAB function name (identity for unmapped names).
pub open spec fn spec_map_matlab_head(name: Seq<char>) -> Seq<char> {
    if name == "sin"@ {
        "Sin"@
    } else if name == "cos"@ {
        "Cos"@
    } else if name == "tan"@ {
        "Tan"@
    } else if name == "exp"@ {
        "Exp"@
    } else if name == "log"@ {
        "Log"@
    } else if name == "diff"@ {
        "D"@
    } else if name == "simplify"@ {
        "Simplify"@
    } else if name == "int"@ {
        "Integrate"@
    } else if name == "sqrt"@ {
        "Sqrt"@
    } else if name == "abs"@ {
        "Abs"@
    } else if name == "factorial"@ {
        "Factorial"@
    } else if name == "zeros"@ {
        "Zeros"@
    } else if name == "ones"@ {
        "Ones"@
    } else if name == "eye"@ {
        "Eye"@
    } else if name == "size"@ {
        "Size"@
    } else if name == "length"@ {
        "Length"@
    } else if name == "det"@ {
        "Det"@
    } else if name == "sum"@ {
        "Sum"@
    } else if name == "linsolve"@ {
        "LinearSolve"@
    } else {
        name
    }
}

/// Map a MATLAB function name to the engine head used by evaluate/render.
pub fn map_matlab_head(name: &str) -> (r: String)
    ensures
        r@ == spec_map_matlab_head(name@),
{
    let s: &str = if str_eq(name, "sin") {
        "Sin"
    } else if str_eq(name, "cos") {
        "Cos"
    } else if str_eq(name, "tan") {
        "Tan"
    } else if str_eq(name, "exp") {
        "Exp"
    } else if str_eq(name, "log") {
        "Log"
    } else if str_eq(name, "diff") {
        "D"
    } else if str_eq(name, "simplify") {
        "Simplify"
    } else if str_eq(name, "int") {
        "Integrate"
    } else if str_eq(name, "sqrt") {
        "Sqrt"
    } else if str_eq(name, "abs") {
        "Abs"
    } else if str_eq(name, "factorial") {
        "Factorial"
    } else if str_eq(name, "zeros") {
        "Zeros"
    } else if str_eq(name, "ones") {
        "Ones"
    } else if str_eq(name, "eye") {
        "Eye"
    } else if str_eq(name, "size") {
        "Size"
    } else if str_eq(name, "length") {
        "Length"
    } else if str_eq(name, "det") {
        "Det"
    } else if str_eq(name, "sum") {
        "Sum"
    } else if str_eq(name, "linsolve") {
        "LinearSolve"
    } else {
        name
    };
    String::from_str(s)
}

// ------------------------------------------------------------------ operators

/// Debug name of an operator token.
pub open spec fn op_name(op: MatlabOp) -> Seq<char> {
    match op {
        MatlabOp::Plus => "Plus"@,
        MatlabOp::Minus => "Minus"@,
        MatlabOp::Times => "Times"@,
        MatlabOp::DotTimes => "DotTimes"@,
        MatlabOp::Divide => "Divide"@,
        MatlabOp::DotDivide => "DotDivide"@,
        MatlabOp::LeftDivide => "LeftDivide"@,
        MatlabOp::DotLeftDivide => "DotLeftDivide"@,
        MatlabOp::Power => "Power"@,
        MatlabOp::DotPower => "DotPower"@,
        MatlabOp::Assign => "Assign"@,
        MatlabOp::Equal => "Equal"@,
        MatlabOp::NotEqual => "NotEqual"@,
        MatlabOp::Less => "Less"@,
        MatlabOp::Greater => "Greater"@,
        MatlabOp::LessEqual => "LessEqual"@,
        MatlabOp::GreaterEqual => "GreaterEqual"@,
        MatlabOp::AndAnd => "AndAnd"@,
        MatlabOp::And => "And"@,
        MatlabOp::OrOr => "OrOr"@,
        MatlabOp::Or => "Or"@,
        MatlabOp::Colon => "Colon"@,
        MatlabOp::Not => "Not"@,
        MatlabOp::Transpose => "Transpose"@,
        MatlabOp::DotTranspose => "DotTranspose"@,
        MatlabOp::Other(s) => s@,
    }
}

fn op_name_exec(op: &MatlabOp) -> (r: &str)
    ensures
        r@ == op_name(*op),
{
    match op {
        MatlabOp::Plus => "Plus",
        MatlabOp::Minus => "Minus",
        MatlabOp::Times => "Times",
        MatlabOp::DotTimes => "DotTimes",
        MatlabOp::Divide => "Divide",
        MatlabOp::DotDivide => "DotDivide",
        MatlabOp::LeftDivide => "LeftDivide",
        MatlabOp::DotLeftDivide => "DotLeftDivide",
        MatlabOp::Power => "Power",
        MatlabOp::DotPower => "DotPower",
        MatlabOp::Assign => "Assign",
        MatlabOp::Equal => "Equal",
        MatlabOp::NotEqual => "NotEqual",
        MatlabOp::Less => "Less",
        MatlabOp::Greater => "Greater",
        MatlabOp::LessEqual => "LessEqual",
        MatlabOp::GreaterEqual => "GreaterEqual",
        MatlabOp::AndAnd => "AndAnd",
        MatlabOp::And => "And",
        MatlabOp::OrOr => "OrOr",
        MatlabOp::Or => "Or",
        MatlabOp::Colon => "Colon",
        MatlabOp::Not => "Not",
        MatlabOp::Transpose => "Transpose",
        MatlabOp::DotTranspose => "DotTranspose",
        MatlabOp::Other(s) => s.as_str(),
    }
}

/// Engine head of a binary operator (the range operator `:` is handled apart).
pub open spec fn binary_head(op: MatlabOp) -> Option<Seq<char>> {
    match op {
        MatlabOp::Plus => Some("Plus"@),
        MatlabOp::Minus => Some("Subtract"@),
        MatlabOp::Times => Some("Times"@),
        MatlabOp::DotTimes => Some("DotTimes"@),
        MatlabOp::Divide => Some("Divide"@),
        MatlabOp::DotDivide => Some("DotDivide"@),
        MatlabOp::LeftDivide => Some("Mldivide"@),
        MatlabOp::DotLeftDivide => Some("DotLeftDivide"@),
        MatlabOp::Power => Some("Power"@),
        MatlabOp::DotPower => Some("DotPower"@),
        MatlabOp::Assign => Some("Set"@),
        MatlabOp::Equal => Some("Equal"@),
        MatlabOp::NotEqual => Some("Unequal"@),
        MatlabOp::Less => Some("Less"@),
        MatlabOp::Greater => Some("Greater"@),
        MatlabOp::LessEqual => Some("LessEqual"@),
        MatlabOp::GreaterEqual => Some("GreaterEqual"@),
        MatlabOp::AndAnd | MatlabOp::And => Some("And"@),
        MatlabOp::OrOr | MatlabOp::Or => Some("Or"@),
        _ => None,
    }
}

fn binary_head_exec(op: &MatlabOp) -> (r: Option<&'static str>)
    ensures
        r matches Some(s) ==> binary_head(*op) == Some(s@),
        r is None ==> binary_head(*op) is None,
{
    match op {
        MatlabOp::Plus => Some("Plus"),
        MatlabOp::Minus => Some("Subtract"),
        MatlabOp::Times => Some("Times"),
        MatlabOp::DotTimes => Some("DotTimes"),
        MatlabOp::Divide => Some("Divide"),
        MatlabOp::DotDivide => Some("DotDivide"),
        MatlabOp::LeftDivide => Some("Mldivide"),
        MatlabOp::DotLeftDivide => Some("DotLeftDivide"),
        MatlabOp::Power => Some("Power"),
        MatlabOp::DotPower => Some("DotPower"),
        MatlabOp::Assign => Some("Set"),
        MatlabOp::Equal => Some("Equal"),
        MatlabOp::NotEqual => Some("Unequal"),
        MatlabOp::Less => Some("Less"),
        MatlabOp::Greater => Some("Greater"),
        MatlabOp::LessEqual => Some("LessEqual"),
        MatlabOp::GreaterEqual => Some("GreaterEqual"),
        MatlabOp::AndAnd | MatlabOp::And => Some("And"),
        MatlabOp::OrOr | MatlabOp::Or => Some("Or"),
        _ => None,
    }
}

/// `a:b` after `start:step` folds into `Range[start, end, step]`; otherwise `Range[a, b]`.
pub open spec fn spec_flatten_range(l: TermV, r: TermV) -> TermV {
    match l {
        TermV::App { op, args } => if op == "Range"@ && args.len() == 2 {
            app_v("Range"@, seq![args[0], r, args[1]])
        } else {
            app_v("Range"@, seq![l, r])
        },
        _ => app_v("Range"@, seq![l, r]),
    }
}

/// Term of a binary expression whose operands lowered to `l` and `r`.
pub open spec fn spec_binary(op: MatlabOp, l: TermV, r: TermV) -> Result<TermV, Seq<char>> {
    if op is Colon {
        Ok(spec_flatten_range(l, r))
    } else {
        match binary_head(op) {
            Some(h) => Ok(app_v(h, seq![l, r])),
            None => Err("matlab(ast): unsupported binary "@ + op_name(op)),
        }
    }
}

/// Term of a prefix expression whose operand lowered to `e`.
pub open spec fn spec_prefix(op: MatlabOp, e: TermV) -> Result<TermV, Seq<char>> {
    match op {
        MatlabOp::Minus => Ok(app_v("Times"@, seq![int_v(-1), e])),
        MatlabOp::Plus => Ok(e),
        MatlabOp::Not => Ok(app_v("Not"@, seq![e])),
        _ => Err("matlab(ast): unsupported prefix "@ + op_name(op)),
    }
}

/// Term of a postfix expression whose operand lowered to `e`.
pub open spec fn spec_postfix(op: MatlabOp, e: TermV) -> Result<TermV, Seq<char>> {
    match op {
        MatlabOp::Transpose | MatlabOp::DotTranspose => Ok(app_v("Transpose"@, seq![e])),
        _ => Err("matlab(ast): unsupported postfix "@ + op_name(op)),
    }
}

fn two(a: Term, b: Term) -> (v: Vec<Term>)
    ensures
        terms_view(v@) == seq![term_view(a), term_view(b)],
{
    let ghost av = term_view(a);
    let ghost bv = term_view(b);
    let mut v: Vec<Term> = Vec::new();
    v.push(a);
    v.push(b);
    proof {
        reveal_with_fuel(terms_view, 3);
        assert(v@.drop_last().drop_last() =~= Seq::<Term>::empty());
        assert(terms_view(v@) =~= seq![av, bv]);
    }
    v
}

fn one(a: Term) -> (v: Vec<Term>)
    ensures
        terms_view(v@) == seq![term_view(a)],
{
    let ghost av = term_view(a);
    let mut v: Vec<Term> = Vec::new();
    v.push(a);
    proof {
        reveal_with_fuel(terms_view, 2);
        assert(v@.drop_last() =~= Seq::<Term>::empty());
        assert(terms_view(v@) =~= seq![av]);
    }
    v
}

fn flatten_range(l: Term, r: Term) -> (t: Term)
    ensures
        t@ == spec_flatten_range(l@, r@),
{
    let ghost lv = l@;
    match l {
        Term::App { op, args } => {
            proof {
                lemma_terms_view(args@);
            }
            if str_eq(op.as_str(), "Range") && args.len() == 2 {
                let ghost orig = args@;
                assert(lv == app_v(op@, terms_view(orig)));
                let mut args = args;
                let step = args.pop().unwrap();
                let start = args.pop().unwrap();
                proof {
                    assert(step == orig[1]);
                    assert(start == orig[0]);
                }
                let ghost rv = r@;
                let mut v = two(start, r);
                let ghost v2 = v@;
                v.push(step);
                proof {
                    reveal_with_fuel(terms_view, 2);
                    assert(v@.drop_last() =~= v2);
                    assert(terms_view(v@) == terms_view(v2).push(term_view(step)));
                    assert(terms_view(v@) =~= seq![terms_view(orig)[0], rv, terms_view(orig)[1]]);
                }
                Term::App { op: owned("Range"), args: v }
            } else {
                Term::App { op: owned("Range"), args: two(Term::App { op, args }, r) }
            }
        },
        other => Term::App { op: owned("Range"), args: two(other, r) },
    }
}

fn binary_term(op: &MatlabOp, l: Term, r: Term) -> (t: Result<Term, SxoError>)
    ensures
        res_view(t) == spec_binary(*op, l@, r@),
{
    if let MatlabOp::Colon = op {
        return Ok(flatten_range(l, r));
    }
    match binary_head_exec(op) {
        Some(h) => Ok(Term::App { op: owned(h), args: two(l, r) }),
        None => Err(SxoError { message: concat2("matlab(ast): unsupported binary ", op_name_exec(op)) }),
    }
}

fn prefix_term(op: &MatlabOp, e: Term) -> (t: Result<Term, SxoError>)
    ensures
        res_view(t) == spec_prefix(*op, e@),
{
    match op {
        MatlabOp::Minus => Ok(Term::App { op: owned("Times"), args: two(Term::small_int(-1), e) }),
        MatlabOp::Plus => Ok(e),
        MatlabOp::Not => Ok(Term::App { op: owned("Not"), args: one(e) }),
        _ => Err(SxoError { message: concat2("matlab(ast): unsupported prefix ", op_name_exec(op)) }),
    }
}

fn postfix_term(op: &MatlabOp, e: Term) -> (t: Result<Term, SxoError>)
    ensures
        res_view(t) == spec_postfix(*op, e@),
{
    match op {
        MatlabOp::Transpose | MatlabOp::DotTranspose => Ok(Term::App { op: owned("Transpose"), args: one(e) }),
        _ => Err(SxoError { message: concat2("matlab(ast): unsupported postfix ", op_name_exec(op)) }),
    }
}

// ------------------------------------------------------------------ results

/// View of a term result: the term's view or the error message.
pub open spec fn res_view(r: Result<Term, SxoError>) -> Result<TermV, Seq<char>> {
    match r {
        Ok(t) => Ok(term_view(t)),
        Err(e) => Err(e.message@),
    }
}

/// View of a term-list result.
pub open spec fn res_seq_view(r: Result<Vec<Term>, SxoError>) -> Result<Seq<TermV>, Seq<char>> {
    match r {
        Ok(v) => Ok(terms_view(v@)),
        Err(e) => Err(e.message@),
    }
}

// ------------------------------------------------------------------ literals

/// Whether a literal's trimmed text is a lone `"` (text the lowering cannot slice).
pub open spec fn lone_quote(value: Seq<char>) -> bool {
    trim_spec(value) == seq!['"']
}

/// Term of a literal: a number when the trimmed text is a number literal,
/// the inner text of a `"…"` or `'…'` string, a symbol otherwise.
pub open spec fn spec_lower_literal(value: Seq<char>) -> TermV {
    let text = trim_spec(value);
    match spec_number_literal(text) {
        Some(n) => TermV::Atom(AtomV::Number(n)),
        None => if (text.len() > 0 && text[0] == '"' && text.last() == '"') || (text.len() >= 2 && text[0] == '\''
            && text.last() == '\'') {
            TermV::Atom(AtomV::String(text.subrange(1, text.len() - 1)))
        } else {
            TermV::Atom(AtomV::Symbol(text))
        },
    }
}

fn lower_literal(value: &String) -> (t: Term)
    requires
        !lone_quote(value@),
    ensures
        t@ == spec_lower_literal(value@),
{
    let text = trim_str(value.as_str());
    match parse_number_literal(text) {
        Some(n) => Term::Atom(Atom::Number(n)),
        None => {
            let n = text.unicode_len();
            let quoted = n > 0 && ((text.get_char(0) == '"' && text.get_char(n - 1) == '"') || (n >= 2
                && text.get_char(0) == '\'' && text.get_char(n - 1) == '\''));
            if quoted {
                if n < 2 {
                    proof {
                        assert(text@ =~= seq!['"']);
                    }
                }
                let inner = text.substring_char(1, n - 1);
                Term::Atom(Atom::String(String::from_str(inner)))
            } else {
                Term::Atom(Atom::Symbol(String::from_str(text)))
            }
        },
    }
}

// ------------------------------------------------------------------ expressions

/// Whether lowering the expression meets no lone `"` literal: its parts are
/// lowered in source order, and lowering stops at the first error.
pub open spec fn expr_lowerable(e: MatlabExpr) -> bool
    decreases e, 1int,
{
    match e {
        MatlabExpr::Symbol(_) => true,
        MatlabExpr::Literal(v) => !lone_quote(v@),
        MatlabExpr::Array(rows) => if rows.len() == 1 {
            exprs_lowerable(rows@[0]@)
        } else {
            rows_lowerable(rows@)
        },
        MatlabExpr::Call { head, arguments } => expr_lowerable(*head) && (spec_lower_expr(*head) is Ok
            ==> exprs_lowerable(arguments@)),
        MatlabExpr::Binary { lhs, rhs, .. } => expr_lowerable(*lhs) && (spec_lower_expr(*lhs) is Ok
            ==> expr_lowerable(*rhs)),
        MatlabExpr::Prefix { operand, .. } => expr_lowerable(*operand),
        MatlabExpr::Postfix { operand, .. } => expr_lowerable(*operand),
        MatlabExpr::Grouped(inner) => expr_lowerable(*inner),
    }
}

/// [`expr_lowerable`] for expressions lowered in order until the first error.
pub open spec fn exprs_lowerable(s: Seq<MatlabExpr>) -> bool
    decreases s, 0int,
{
    if s.len() == 0 {
        true
    } else {
        exprs_lowerable(s.drop_last()) && (spec_lower_exprs(s.drop_last()) is Ok ==> expr_lowerable(s.last()))
    }
}

/// [`exprs_lowerable`] for rows lowered in order until the first error.
pub open spec fn rows_lowerable(s: Seq<Vec<MatlabExpr>>) -> bool
    decreases s, 0int,
{
    if s.len() == 0 {
        true
    } else {
        rows_lowerable(s.drop_last()) && (spec_lower_rows(s.drop_last()) is Ok ==> exprs_lowerable(s.last()@))
    }
}

/// Term of a MATLAB expression, or the first error in source order.
pub open spec fn spec_lower_expr(e: MatlabExpr) -> Result<TermV, Seq<char>>
    decreases e, 1int,
{
    match e {
        MatlabExpr::Symbol(name) => if name@ == "true"@ {
            Ok(TermV::Atom(AtomV::Boolean(true)))
        } else if name@ == "false"@ {
            Ok(TermV::Atom(AtomV::Boolean(false)))
        } else {
            Ok(sym_v(name@))
        },
        MatlabExpr::Literal(v) => Ok(spec_lower_literal(v@)),
        MatlabExpr::Array(rows) => if rows.len() == 1 {
            match spec_lower_exprs(rows@[0]@) {
                Ok(items) => Ok(TermV::List(items)),
                Err(m) => Err(m),
            }
        } else {
            match spec_lower_rows(rows@) {
                Ok(items) => Ok(TermV::List(items)),
                Err(m) => Err(m),
            }
        },
        MatlabExpr::Call { head, arguments } => match spec_lower_expr(*head) {
            Err(m) => Err(m),
            Ok(h) => match spec_lower_exprs(arguments@) {
                Err(m) => Err(m),
                Ok(args) => Ok(spec_call(h, args)),
            },
        },
        MatlabExpr::Binary { operator, lhs, rhs } => match spec_lower_expr(*lhs) {
            Err(m) => Err(m),
            Ok(l) => match spec_lower_expr(*rhs) {
                Err(m) => Err(m),
                Ok(r) => spec_binary(operator, l, r),
            },
        },
        MatlabExpr::Prefix { operator, operand } => match spec_lower_expr(*operand) {
            Err(m) => Err(m),
            Ok(x) => spec_prefix(operator, x),
        },
        MatlabExpr::Postfix { operator, operand } => match spec_lower_expr(*operand) {
            Err(m) => Err(m),
            Ok(x) => spec_postfix(operator, x),
        },
        MatlabExpr::Grouped(inner) => spec_lower_expr(*inner),
    }
}

/// Terms of expressions in order, or the first error.
pub open spec fn spec_lower_exprs(s: Seq<MatlabExpr>) -> Result<Seq<TermV>, Seq<char>>
    decreases s, 0int,
{
    if s.len() == 0 {
        Ok(seq![])
    } else {
        match spec_lower_exprs(s.drop_last()) {
            Err(m) => Err(m),
            Ok(prev) => match spec_lower_expr(s.last()) {
                Err(m) => Err(m),
                Ok(t) => Ok(prev.push(t)),
            },
        }
    }
}

/// One collection per row, in order, or the first error.
pub open spec fn spec_lower_rows(s: Seq<Vec<MatlabExpr>>) -> Result<Seq<TermV>, Seq<char>>
    decreases s, 0int,
{
    if s.len() == 0 {
        Ok(seq![])
    } else {
        match spec_lower_rows(s.drop_last()) {
            Err(m) => Err(m),
            Ok(prev) => match spec_lower_exprs(s.last()@) {
                Err(m) => Err(m),
                Ok(cols) => Ok(prev.push(TermV::List(cols))),
            },
        }
    }
}

/// Term of a call whose head lowered to `h` and arguments to `args`: a symbol
/// head is renamed by [`spec_map_matlab_head`]; a collection or `Part[…]` head
/// is indexed with `Part`; a symbol head applies; any other head goes through
/// `Application[head, args…]`.
pub open spec fn spec_call(h: TermV, args: Seq<TermV>) -> TermV {
    let h2 = match h {
        TermV::Atom(AtomV::Symbol(n)) => sym_v(spec_map_matlab_head(n)),
        _ => h,
    };
    if h2 is List || (h2 matches TermV::App { op, .. } && op == "Part"@) {
        app_v("Part"@, seq![h2] + args)
    } else {
        match h2 {
            TermV::Atom(AtomV::Symbol(n)) => app_v(n, args),
            _ => app_v("Application"@, seq![h2] + args),
        }
    }
}

fn prepend(h: Term, rest: Vec<Term>) -> (v: Vec<Term>)
    ensures
        terms_view(v@) == seq![term_view(h)] + terms_view(rest@),
{
    let ghost rest_v = rest@;
    let mut rest = rest;
    let mut v = one(h);
    let ghost first = v@;
    v.append(&mut rest);
    proof {
        assert(v@ =~= first + rest_v);
        crate::wolfram_lower::lemma_terms_view_concat(first, rest_v);
    }
    v
}

fn call_term(h: Term, args: Vec<Term>) -> (t: Term)
    ensures
        t@ == spec_call(h@, terms_view(args@)),
{
    let h2 = match h {
        Term::Atom(Atom::Symbol(n)) => Term::Atom(Atom::Symbol(map_matlab_head(n.as_str()))),
        other => other,
    };
    let is_part_base = match &h2 {
        Term::List(_) => true,
        Term::App { op, .. } => str_eq(op.as_str(), "Part"),
        _ => false,
    };
    if is_part_base {
        Term::App { op: owned("Part"), args: prepend(h2, args) }
    } else {
        match h2 {
            Term::Atom(Atom::Symbol(n)) => Term::App { op: n, args },
            other => Term::App { op: owned("Application"), args: prepend(other, args) },
        }
    }
}

fn lower_exprs(v: &Vec<MatlabExpr>) -> (r: Result<Vec<Term>, SxoError>)
    requires
        exprs_lowerable(v@),
    ensures
        res_seq_view(r) == spec_lower_exprs(v@),
    decreases v@, 0int,
{
    let mut out: Vec<Term> = Vec::new();
    let mut i: usize = 0;
    proof {
        assert(v@.subrange(0, 0) =~= Seq::<MatlabExpr>::empty());
    }
    while i < v.len()
        invariant
            i <= v.len(),
            exprs_lowerable(v@),
            spec_lower_exprs(v@.subrange(0, i as int)) == Ok::<Seq<TermV>, Seq<char>>(terms_view(out@)),
        decreases v.len() - i,
    {
        proof {
            assert(decreases_to!(v@ => v@[i as int]));
            assert(v@.subrange(0, i + 1).drop_last() =~= v@.subrange(0, i as int));
            assert(v@.subrange(0, i + 1).last() == v@[i as int]);
            lemma_exprs_lowerable_prefix(v@, i + 1);
        }
        let t = lower_expr(&v[i]);
        match t {
            Err(e) => {
                proof {
                    lemma_lower_exprs_err_extends(v@, i as int + 1);
                }
                return Err(e);
            },
            Ok(t) => {
                let ghost old_out = out@;
                out.push(t);
                proof {
                    assert(out@.drop_last() =~= old_out);
                }
            },
        }
        i = i + 1;
    }
    proof {
        assert(v@.subrange(0, v.len() as int) =~= v@);
    }
    Ok(out)
}

/// An error in a prefix is the error of the whole sequence.
proof fn lemma_lower_exprs_err_extends(s: Seq<MatlabExpr>, k: int)
    requires
        0 <= k <= s.len(),
        spec_lower_exprs(s.subrange(0, k)) is Err,
    ensures
        spec_lower_exprs(s) == spec_lower_exprs(s.subrange(0, k)),
    decreases s.len() - k,
{
    if k < s.len() {
        assert(s.subrange(0, k + 1).drop_last() =~= s.subrange(0, k));
        lemma_lower_exprs_err_extends(s, k + 1);
    } else {
        assert(s.subrange(0, k) =~= s);
    }
}

/// A prefix of a lowerable sequence is lowerable.
proof fn lemma_exprs_lowerable_prefix(s: Seq<MatlabExpr>, k: int)
    requires
        0 <= k <= s.len(),
        exprs_lowerable(s),
    ensures
        exprs_lowerable(s.subrange(0, k)),
    decreases s.len() - k,
{
    if k < s.len() {
        lemma_exprs_lowerable_prefix(s, k + 1);
        assert(s.subrange(0, k + 1).drop_last() =~= s.subrange(0, k));
    } else {
        assert(s.subrange(0, k) =~= s);
    }
}

/// Once a lowerable prefix fails, the whole sequence is lowerable.
proof fn lemma_exprs_lowerable_after_err(s: Seq<MatlabExpr>, k: int)
    requires
        0 <= k <= s.len(),
        exprs_lowerable(s.subrange(0, k)),
        spec_lower_exprs(s.subrange(0, k)) is Err,
    ensures
        exprs_lowerable(s),
    decreases s.len() - k,
{
    if k < s.len() {
        assert(s.subrange(0, k + 1).drop_last() =~= s.subrange(0, k));
        lemma_exprs_lowerable_after_err(s, k + 1);
    } else {
        assert(s.subrange(0, k) =~= s);
    }
}

/// A prefix of lowerable rows is lowerable.
proof fn lemma_rows_lowerable_prefix(s: Seq<Vec<MatlabExpr>>, k: int)
    requires
        0 <= k <= s.len(),
        rows_lowerable(s),
    ensures
        rows_lowerable(s.subrange(0, k)),
    decreases s.len() - k,
{
    if k < s.len() {
        lemma_rows_lowerable_prefix(s, k + 1);
        assert(s.subrange(0, k + 1).drop_last() =~= s.subrange(0, k));
    } else {
        assert(s.subrange(0, k) =~= s);
    }
}

/// Once a lowerable prefix of rows fails, all rows are lowerable.
proof fn lemma_rows_lowerable_after_err(s: Seq<Vec<MatlabExpr>>, k: int)
    requires
        0 <= k <= s.len(),
        rows_lowerable(s.subrange(0, k)),
        spec_lower_rows(s.subrange(0, k)) is Err,
    ensures
        rows_lowerable(s),
    decreases s.len() - k,
{
    if k < s.len() {
        assert(s.subrange(0, k + 1).drop_last() =~= s.subrange(0, k));
        lemma_rows_lowerable_after_err(s, k + 1);
    } else {
        assert(s.subrange(0, k) =~= s);
    }
}

/// An error in a prefix of rows is the error of all rows.
proof fn lemma_lower_rows_err_extends(s: Seq<Vec<MatlabExpr>>, k: int)
    requires
        0 <= k <= s.len(),
        spec_lower_rows(s.subrange(0, k)) is Err,
    ensures
        spec_lower_rows(s) == spec_lower_rows(s.subrange(0, k)),
    decreases s.len() - k,
{
    if k < s.len() {
        assert(s.subrange(0, k + 1).drop_last() =~= s.subrange(0, k));
        lemma_lower_rows_err_extends(s, k + 1);
    } else {
        assert(s.subrange(0, k) =~= s);
    }
}

fn lower_rows(rows: &Vec<Vec<MatlabExpr>>) -> (r: Result<Vec<Term>, SxoError>)
    requires
        rows_lowerable(rows@),
    ensures
        res_seq_view(r) == spec_lower_rows(rows@),
    decreases rows@, 0int,
{
    let mut out: Vec<Term> = Vec::new();
    let mut i: usize = 0;
    proof {
        assert(rows@.subrange(0, 0) =~= Seq::<Vec<MatlabExpr>>::empty());
    }
    while i < rows.len()
        invariant
            i <= rows.len(),
            rows_lowerable(rows@),
            spec_lower_rows(rows@.subrange(0, i as int)) == Ok::<Seq<TermV>, Seq<char>>(terms_view(out@)),
        decreases rows.len() - i,
    {
        proof {
            assert(decreases_to!(rows@ => rows@[i as int]));
            assert(decreases_to!(rows@[i as int] => rows@[i as int]@));
            assert(rows@.subrange(0, i + 1).drop_last() =~= rows@.subrange(0, i as int));
            assert(rows@.subrange(0, i + 1).last() == rows@[i as int]);
            lemma_rows_lowerable_prefix(rows@, i + 1);
        }
        let cols = lower_exprs(&rows[i]);
        match cols {
            Err(e) => {
                proof {
                    lemma_lower_rows_err_extends(rows@, i as int + 1);
                }
                return Err(e);
            },
            Ok(cols) => {
                let ghost old_out = out@;
                let ghost cols_v = terms_view(cols@);
                let row = Term::List(cols);
                assert(term_view(row) == TermV::List(cols_v));
                out.push(row);
                proof {
                    assert(out@.drop_last() =~= old_out);
                    assert(out@.last() == row);
                    assert(terms_view(out@) == terms_view(old_out).push(TermV::List(cols_v)));
                }
            },
        }
        i = i + 1;
    }
    proof {
        assert(rows@.subrange(0, rows.len() as int) =~= rows@);
    }
    Ok(out)
}

/// Lower a MATLAB expression into a session term.
pub fn lower_expr(e: &MatlabExpr) -> (r: Result<Term, SxoError>)
    requires
        expr_lowerable(*e),
    ensures
        res_view(r) == spec_lower_expr(*e),
    decreases e, 1int,
{
    match e {
        MatlabExpr::Symbol(name) => {
            if str_eq(name.as_str(), "true") {
                Ok(Term::Atom(Atom::Boolean(true)))
            } else if str_eq(name.as_str(), "false") {
                Ok(Term::Atom(Atom::Boolean(false)))
            } else {
                Ok(Term::Atom(Atom::Symbol(name.clone())))
            }
        },
        MatlabExpr::Literal(v) => Ok(lower_literal(v)),
        MatlabExpr::Array(rows) => {
            proof {
                assert(decreases_to!(*e => (*e)->Array_0));
            }
            if rows.len() == 1 {
                proof {
                    assert(decreases_to!(rows@ => rows@[0]));
                }
                match lower_exprs(&rows[0]) {
                    Ok(items) => Ok(Term::List(items)),
                    Err(m) => Err(m),
                }
            } else {
                match lower_rows(rows) {
                    Ok(items) => Ok(Term::List(items)),
                    Err(m) => Err(m),
                }
            }
        },
        MatlabExpr::Call { head, arguments } => {
            proof {
                assert(decreases_to!(*e => (*e)->head));
                assert(decreases_to!(*e => (*e)->arguments));
            }
            let h = lower_expr(head);
            match h {
                Err(m) => Err(m),
                Ok(h) => match lower_exprs(arguments) {
                    Err(m) => Err(m),
                    Ok(args) => Ok(call_term(h, args)),
                },
            }
        },
        MatlabExpr::Binary { operator, lhs, rhs } => {
            proof {
                assert(decreases_to!(*e => (*e)->lhs));
                assert(decreases_to!(*e => (*e)->rhs));
            }
            match lower_expr(lhs) {
                Err(m) => Err(m),
                Ok(l) => match lower_expr(rhs) {
                    Err(m) => Err(m),
                    Ok(r) => binary_term(operator, l, r),
                },
            }
        },
        MatlabExpr::Prefix { operator, operand } => {
            proof {
                assert(decreases_to!(*e => (*e)->Prefix_operand));
            }
            match lower_expr(operand) {
                Err(m) => Err(m),
                Ok(x) => prefix_term(operator, x),
            }
        },
        MatlabExpr::Postfix { operator, operand } => {
            proof {
                assert(decreases_to!(*e => (*e)->Postfix_operand));
            }
            match lower_expr(operand) {
                Err(m) => Err(m),
                Ok(x) => postfix_term(operator, x),
            }
        },
        MatlabExpr::Grouped(inner) => {
            proof {
                assert(decreases_to!(*e => (*e)->Grouped_0));
            }
            lower_expr(inner)
        },
    }
}

// ------------------------------------------------------------------ laws

/// A binary MATLAB expression whose operands lower to `l` and `r` lowers to
/// the engine head of its operator applied to `l` then `r`: `+` Plus, `-`
/// Subtract, `*` Times, `.*` DotTimes, `/` Divide, `./` DotDivide, `\`
/// Mldivide, `.\` DotLeftDivide, `^` Power, `.^` DotPower, `=` Set, `==`
/// Equal, `~=` Unequal, `<` Less, `>` Greater, `<=` LessEqual, `>=`
/// GreaterEqual, `&&` and `&` And, `||` and `|` Or. `a:b` is `Range[a, b]`,
/// and `s:k:e` (parsed as `(s:k):e`) is `Range[s, e, k]`. A token with no
/// binary meaning is reported by name.
pub proof fn lemma_binary_operator_heads(op: MatlabOp, lhs: MatlabExpr, rhs: MatlabExpr, l: TermV, r: TermV)
    requires
        spec_lower_expr(lhs) == Ok::<TermV, Seq<char>>(l),
        spec_lower_expr(rhs) == Ok::<TermV, Seq<char>>(r),
    ensures
        ({
            let t = spec_lower_expr(MatlabExpr::Binary { operator: op, lhs: Box::new(lhs), rhs: Box::new(rhs) });
            let lr = seq![l, r];
            &&& op is Plus ==> t == Ok::<TermV, Seq<char>>(app_v("Plus"@, lr))
            &&& op is Minus ==> t == Ok::<TermV, Seq<char>>(app_v("Subtract"@, lr))
            &&& op is Times ==> t == Ok::<TermV, Seq<char>>(app_v("Times"@, lr))
            &&& op is DotTimes ==> t == Ok::<TermV, Seq<char>>(app_v("DotTimes"@, lr))
            &&& op is Divide ==> t == Ok::<TermV, Seq<char>>(app_v("Divide"@, lr))
            &&& op is DotDivide ==> t == Ok::<TermV, Seq<char>>(app_v("DotDivide"@, lr))
            &&& op is LeftDivide ==> t == Ok::<TermV, Seq<char>>(app_v("Mldivide"@, lr))
            &&& op is DotLeftDivide ==> t == Ok::<TermV, Seq<char>>(app_v("DotLeftDivide"@, lr))
            &&& op is Power ==> t == Ok::<TermV, Seq<char>>(app_v("Power"@, lr))
            &&& op is DotPower ==> t == Ok::<TermV, Seq<char>>(app_v("DotPower"@, lr))
            &&& op is Assign ==> t == Ok::<TermV, Seq<char>>(app_v("Set"@, lr))
            &&& op is Equal ==> t == Ok::<TermV, Seq<char>>(app_v("Equal"@, lr))
            &&& op is NotEqual ==> t == Ok::<TermV, Seq<char>>(app_v("Unequal"@, lr))
            &&& op is Less ==> t == Ok::<TermV, Seq<char>>(app_v("Less"@, lr))
            &&& op is Greater ==> t == Ok::<TermV, Seq<char>>(app_v("Greater"@, lr))
            &&& op is LessEqual ==> t == Ok::<TermV, Seq<char>>(app_v("LessEqual"@, lr))
            &&& op is GreaterEqual ==> t == Ok::<TermV, Seq<char>>(app_v("GreaterEqual"@, lr))
            &&& (op is AndAnd || op is And) ==> t == Ok::<TermV, Seq<char>>(app_v("And"@, lr))
            &&& (op is OrOr || op is Or) ==> t == Ok::<TermV, Seq<char>>(app_v("Or"@, lr))
            &&& op is Colon ==> t == Ok::<TermV, Seq<char>>(
                match l {
                    TermV::App { op: h, args } => if h == "Range"@ && args.len() == 2 {
                        app_v("Range"@, seq![args[0], r, args[1]])
                    } else {
                        app_v("Range"@, lr)
                    },
                    _ => app_v("Range"@, lr),
                },
            )
            &&& op matches MatlabOp::Other(name) ==> t == Err::<TermV, Seq<char>>(
                "matlab(ast): unsupported binary "@ + name@,
            )
            &&& (op is Not || op is Transpose || op is DotTranspose) ==> t is Err
        }),
{
}

/// Lowering a binary expression is lowering its operands: the result reads
/// the operands only through their lowered terms, and comparison operators
/// are told apart: `a < b` and `a > b` never lower alike, nor do `a <= b`
/// and `a >= b`, and `a < b` keeps `a` first.
pub proof fn lemma_comparisons_distinct(lhs: MatlabExpr, rhs: MatlabExpr, l: TermV, r: TermV)
    requires
        spec_lower_expr(lhs) == Ok::<TermV, Seq<char>>(l),
        spec_lower_expr(rhs) == Ok::<TermV, Seq<char>>(r),
    ensures
        spec_lower_expr(MatlabExpr::Binary { operator: MatlabOp::Less, lhs: Box::new(lhs), rhs: Box::new(rhs) })
            != spec_lower_expr(MatlabExpr::Binary { operator: MatlabOp::Greater, lhs: Box::new(lhs), rhs: Box::new(rhs) }),
        spec_lower_expr(MatlabExpr::Binary { operator: MatlabOp::LessEqual, lhs: Box::new(lhs), rhs: Box::new(rhs) })
            != spec_lower_expr(MatlabExpr::Binary { operator: MatlabOp::GreaterEqual, lhs: Box::new(lhs), rhs: Box::new(rhs) }),
        spec_lower_expr(MatlabExpr::Binary { operator: MatlabOp::Less, lhs: Box::new(lhs), rhs: Box::new(rhs) })
            matches Ok(TermV::App { op, args }) && op == "Less"@ && args == seq![l, r],
{
    lemma_binary_operator_heads(MatlabOp::Less, lhs, rhs, l, r);
    lemma_binary_operator_heads(MatlabOp::Greater, lhs, rhs, l, r);
    lemma_binary_operator_heads(MatlabOp::LessEqual, lhs, rhs, l, r);
    lemma_binary_operator_heads(MatlabOp::GreaterEqual, lhs, rhs, l, r);
    reveal_strlit("Less");
    reveal_strlit("Greater");
    reveal_strlit("LessEqual");
    reveal_strlit("GreaterEqual");
    assert("Less"@.len() != "Greater"@.len());
    assert("LessEqual"@.len() != "GreaterEqual"@.len());
}

/// Expressions lower element by element: when `s` lowers to `ts`, `ts` has
/// one term per expression, each the term of that expression; and when every
/// expression lowers, so does the sequence.
pub proof fn lemma_exprs_elements(s: Seq<MatlabExpr>)
    ensures
        spec_lower_exprs(s) matches Ok(ts) ==> ts.len() == s.len() && forall|i: int|
            0 <= i < s.len() ==> spec_lower_expr(#[trigger] s[i]) == Ok::<TermV, Seq<char>>(ts[i]),
        (forall|i: int| 0 <= i < s.len() ==> (#[trigger] spec_lower_expr(s[i])) is Ok) ==> spec_lower_exprs(s) is Ok,
    decreases s.len(),
{
    if s.len() > 0 {
        lemma_exprs_elements(s.drop_last());
        assert forall|i: int| 0 <= i < s.len() - 1 implies s.drop_last()[i] == #[trigger] s[i] by {}
        if forall|i: int| 0 <= i < s.len() ==> (#[trigger] spec_lower_expr(s[i])) is Ok {
            assert forall|i: int| 0 <= i < s.drop_last().len() implies (#[trigger] spec_lower_expr(
                s.drop_last()[i],
            )) is Ok by {
                assert(s.drop_last()[i] == s[i]);
            }
            assert(spec_lower_expr(s[s.len() - 1]) is Ok);
        }
    }
}

/// A call `f(x1, …, xn)` whose head is the name `f` and whose arguments lower
/// to `args` applies the engine name of `f` to `args`, in order (`sin(x)` is
/// `Sin[x]`); a one-row array `[x1, …, xn]` is the list of the items' terms.
pub proof fn lemma_call_and_row(e: MatlabExpr, f: String, args: Seq<TermV>)
    ensures
        (e matches MatlabExpr::Call { head, arguments } && *head == MatlabExpr::Symbol(f) && f@ != "true"@ && f@
            != "false"@ && spec_lower_exprs(arguments@) == Ok::<Seq<TermV>, Seq<char>>(args)) ==> spec_lower_expr(e)
            == Ok::<TermV, Seq<char>>(app_v(spec_map_matlab_head(f@), args)),
        (e matches MatlabExpr::Array(rows) && rows.len() == 1 && spec_lower_exprs(rows@[0]@) == Ok::<
            Seq<TermV>,
            Seq<char>,
        >(args)) ==> spec_lower_expr(e) == Ok::<TermV, Seq<char>>(TermV::List(args)),
{
    if let MatlabExpr::Call { head, arguments } = e {
        if *head == MatlabExpr::Symbol(f) && f@ != "true"@ && f@ != "false"@ {
            assert(spec_lower_expr(*head) == Ok::<TermV, Seq<char>>(sym_v(f@)));
            assert(spec_call(sym_v(f@), args) == app_v(spec_map_matlab_head(f@), args));
        }
    }
}

/// A literal written between quotes, `'t'` or `"t"`, lowers to the string
/// `t` (the text between the quotes, as written).
pub proof fn lemma_quoted_literals(t: Seq<char>, q: char, v: String)
    requires
        q == '\'' || q == '"',
        v@ == seq![q] + t + seq![q],
    ensures
        spec_lower_expr(MatlabExpr::Literal(v)) == Ok::<TermV, Seq<char>>(TermV::Atom(AtomV::String(t))),
{
    let s = v@;
    assert(s[0] == q && s.last() == q && s.len() == t.len() + 2);
    assert(!is_white(s[0]) && !is_white(s.last()));
    assert(trim_start_spec(s) == s);
    assert(trim_end_spec(s) == s);
    lemma_float_run_rejects(s);
    assert(!grouped_digits_ok(s));
    assert(s.subrange(1, s.len() - 1) =~= t);
}

/// Names: `true` and `false` are the booleans, every other name is the
/// symbol of that name; a parenthesized expression is the expression.
pub proof fn lemma_names_and_groups(name: String, inner: MatlabExpr)
    ensures
        name@ == "true"@ ==> spec_lower_expr(MatlabExpr::Symbol(name)) == Ok::<TermV, Seq<char>>(
            TermV::Atom(AtomV::Boolean(true)),
        ),
        name@ == "false"@ ==> spec_lower_expr(MatlabExpr::Symbol(name)) == Ok::<TermV, Seq<char>>(
            TermV::Atom(AtomV::Boolean(false)),
        ),
        (name@ != "true"@ && name@ != "false"@) ==> spec_lower_expr(MatlabExpr::Symbol(name)) == Ok::<
            TermV,
            Seq<char>,
        >(TermV::Atom(AtomV::Symbol(name@))),
        spec_lower_expr(MatlabExpr::Grouped(Box::new(inner))) == spec_lower_expr(inner),
{
    reveal_strlit("true");
    reveal_strlit("false");
    assert("true"@.len() != "false"@.len());
}

/// A prefix or postfix MATLAB expression whose operand lowers to `x`:
/// `-a` is `Times[-1, x]`, `+a` is `x`, `~a` is `Not[x]`, and `a'` and `a.'`
/// are `Transpose[x]`.
pub proof fn lemma_unary_operators(operand: MatlabExpr, x: TermV)
    requires
        spec_lower_expr(operand) == Ok::<TermV, Seq<char>>(x),
    ensures
        spec_lower_expr(MatlabExpr::Prefix { operator: MatlabOp::Minus, operand: Box::new(operand) })
            == Ok::<TermV, Seq<char>>(app_v("Times"@, seq![int_v(-1), x])),
        spec_lower_expr(MatlabExpr::Prefix { operator: MatlabOp::Plus, operand: Box::new(operand) })
            == Ok::<TermV, Seq<char>>(x),
        spec_lower_expr(MatlabExpr::Prefix { operator: MatlabOp::Not, operand: Box::new(operand) })
            == Ok::<TermV, Seq<char>>(app_v("Not"@, seq![x])),
        spec_lower_expr(MatlabExpr::Postfix { operator: MatlabOp::Transpose, operand: Box::new(operand) })
            == Ok::<TermV, Seq<char>>(app_v("Transpose"@, seq![x])),
        spec_lower_expr(MatlabExpr::Postfix { operator: MatlabOp::DotTranspose, operand: Box::new(operand) })
            == Ok::<TermV, Seq<char>>(app_v("Transpose"@, seq![x])),
{
}

} // verus!

verus! {

// ------------------------------------------------------------------ statements

/// Whether lowering the statement meets no lone `"` literal, lowering its
/// parts in the order [`spec_lower_stmt`] gives and stopping at the first error.
pub open spec fn stmt_lowerable(st: MatlabStmt) -> bool
    decreases st, 1int,
{
    match st {
        MatlabStmt::Expr(e) => expr_lowerable(e),
        MatlabStmt::If { condition, then_body, elseifs, else_body } => stmts_lowerable(else_body@) && match spec_compound(
            else_body@,
        ) {
            Err(_) => true,
            Ok(else0) => elseifs_lowerable(elseifs@) && match spec_elseif_chain(elseifs@, else0) {
                Err(_) => true,
                Ok(_) => stmts_lowerable(then_body@) && (spec_compound(then_body@) is Ok ==> expr_lowerable(
                    condition,
                )),
            },
        },
        MatlabStmt::While { condition, body } => expr_lowerable(condition) && (spec_lower_expr(condition) is Ok
            ==> stmts_lowerable(body@)),
        MatlabStmt::For { header, body } => expr_lowerable(header) && (spec_lower_expr(header) is Ok ==> stmts_lowerable(
            body@,
        )),
        MatlabStmt::Try { body, catch_body } => stmts_lowerable(body@) && (spec_compound(body@) is Ok
            ==> stmts_lowerable(catch_body@)),
        MatlabStmt::Error => true,
    }
}

/// [`stmt_lowerable`] for statements lowered in order until the first error.
pub open spec fn stmts_lowerable(s: Seq<MatlabStmt>) -> bool
    decreases s, 0int,
{
    if s.len() == 0 {
        true
    } else {
        stmts_lowerable(s.drop_last()) && (spec_lower_stmts(s.drop_last()) is Ok ==> stmt_lowerable(s.last()))
    }
}

/// Whether the `elseif` branches lower, as [`spec_elseif_chain`] does (last
/// branch first, body before condition), meeting no lone `"` literal.
pub open spec fn elseifs_lowerable(s: Seq<ElseIf>) -> bool
    decreases s, 0int,
{
    if s.len() == 0 {
        true
    } else {
        stmts_lowerable(s.last().body@) && (spec_compound(s.last().body@) is Ok ==> expr_lowerable(
            s.last().condition,
        ) && (spec_lower_expr(s.last().condition) is Ok ==> elseifs_lowerable(s.drop_last())))
    }
}

/// A block's term: null when empty, the statement when single, a
/// `CompoundExpression` otherwise.
pub open spec fn spec_compound_or_single(items: Seq<TermV>) -> TermV {
    if items.len() == 0 {
        TermV::Atom(AtomV::Null)
    } else if items.len() == 1 {
        items[0]
    } else {
        app_v("CompoundExpression"@, items)
    }
}

/// Term of a MATLAB statement, or the first error met while lowering it.
///
/// `if` lowers its `else` body first, then the `elseif` branches from the last
/// one back (body before condition), then the `then` body and the condition,
/// nesting `If[c, t, else]`; a plain `if` without `else` is `If[c, t]`.
/// `for i = r` lowers to `For[i, r, body]`, another header to `For[_, header, body]`.
pub open spec fn spec_lower_stmt(st: MatlabStmt) -> Result<TermV, Seq<char>>
    decreases st, 2int,
{
    match st {
        MatlabStmt::Expr(e) => spec_lower_expr(e),
        MatlabStmt::If { condition, then_body, elseifs, else_body } => match spec_compound(else_body@) {
            Err(m) => Err(m),
            Ok(else0) => match spec_elseif_chain(elseifs@, else0) {
                Err(m) => Err(m),
                Ok(else_term) => match spec_compound(then_body@) {
                    Err(m) => Err(m),
                    Ok(then_t) => match spec_lower_expr(condition) {
                        Err(m) => Err(m),
                        Ok(cond_t) => if else_term == TermV::Atom(AtomV::Null) && elseifs.len() == 0 {
                            Ok(app_v("If"@, seq![cond_t, then_t]))
                        } else {
                            Ok(app_v("If"@, seq![cond_t, then_t, else_term]))
                        },
                    },
                },
            },
        },
        MatlabStmt::While { condition, body } => match spec_lower_expr(condition) {
            Err(m) => Err(m),
            Ok(cond_t) => match spec_compound(body@) {
                Err(m) => Err(m),
                Ok(body_t) => Ok(app_v("While"@, seq![cond_t, body_t])),
            },
        },
        MatlabStmt::For { header, body } => match spec_lower_expr(header) {
            Err(m) => Err(m),
            Ok(header_t) => match spec_compound(body@) {
                Err(m) => Err(m),
                Ok(body_t) => match header_t {
                    TermV::App { op, args } => if op == "Set"@ && args.len() == 2 {
                        Ok(app_v("For"@, seq![args[0], args[1], body_t]))
                    } else {
                        Ok(app_v("For"@, seq![sym_v("_"@), header_t, body_t]))
                    },
                    _ => Ok(app_v("For"@, seq![sym_v("_"@), header_t, body_t])),
                },
            },
        },
        MatlabStmt::Try { body, catch_body } => match spec_compound(body@) {
            Err(m) => Err(m),
            Ok(body_t) => match spec_compound(catch_body@) {
                Err(m) => Err(m),
                Ok(catch_t) => Ok(app_v("Try"@, seq![body_t, catch_t])),
            },
        },
        MatlabStmt::Error => Err("matlab(oak): error node"@),
    }
}

/// Terms of statements in order, or the first error.
pub open spec fn spec_lower_stmts(s: Seq<MatlabStmt>) -> Result<Seq<TermV>, Seq<char>>
    decreases s, 0int,
{
    if s.len() == 0 {
        Ok(seq![])
    } else {
        match spec_lower_stmts(s.drop_last()) {
            Err(m) => Err(m),
            Ok(prev) => match spec_lower_stmt(s.last()) {
                Err(m) => Err(m),
                Ok(t) => Ok(prev.push(t)),
            },
        }
    }
}

/// Term of a block.
pub open spec fn spec_compound(s: Seq<MatlabStmt>) -> Result<TermV, Seq<char>>
    decreases s, 1int,
{
    match spec_lower_stmts(s) {
        Err(m) => Err(m),
        Ok(items) => Ok(spec_compound_or_single(items)),
    }
}

/// Nest the `elseif` branches around `acc`, last branch innermost.
pub open spec fn spec_elseif_chain(s: Seq<ElseIf>, acc: TermV) -> Result<TermV, Seq<char>>
    decreases s, 0int,
{
    if s.len() == 0 {
        Ok(acc)
    } else {
        match spec_compound(s.last().body@) {
            Err(m) => Err(m),
            Ok(then_t) => match spec_lower_expr(s.last().condition) {
                Err(m) => Err(m),
                Ok(cond_t) => spec_elseif_chain(s.drop_last(), app_v("If"@, seq![cond_t, then_t, acc])),
            },
        }
    }
}

/// Term of a script: its single statement, or a `CompoundExpression` of all of them.
pub open spec fn spec_lower_root(items: Seq<MatlabStmt>) -> Result<TermV, Seq<char>> {
    match spec_lower_stmts(items) {
        Err(m) => Err(m),
        Ok(ts) => if ts.len() == 0 {
            Err("matlab(oak): empty root"@)
        } else if ts.len() == 1 {
            Ok(ts[0])
        } else {
            Ok(app_v("CompoundExpression"@, ts))
        },
    }
}

/// A prefix of lowerable statements is lowerable.
proof fn lemma_stmts_lowerable_prefix(s: Seq<MatlabStmt>, k: int)
    requires
        0 <= k <= s.len(),
        stmts_lowerable(s),
    ensures
        stmts_lowerable(s.subrange(0, k)),
    decreases s.len() - k,
{
    if k < s.len() {
        lemma_stmts_lowerable_prefix(s, k + 1);
        assert(s.subrange(0, k + 1).drop_last() =~= s.subrange(0, k));
    } else {
        assert(s.subrange(0, k) =~= s);
    }
}

/// Once a lowerable prefix of statements fails, all of them are lowerable.
proof fn lemma_stmts_lowerable_after_err(s: Seq<MatlabStmt>, k: int)
    requires
        0 <= k <= s.len(),
        stmts_lowerable(s.subrange(0, k)),
        spec_lower_stmts(s.subrange(0, k)) is Err,
    ensures
        stmts_lowerable(s),
    decreases s.len() - k,
{
    if k < s.len() {
        assert(s.subrange(0, k + 1).drop_last() =~= s.subrange(0, k));
        lemma_stmts_lowerable_after_err(s, k + 1);
    } else {
        assert(s.subrange(0, k) =~= s);
    }
}

proof fn lemma_lower_stmts_err_extends(s: Seq<MatlabStmt>, k: int)
    requires
        0 <= k <= s.len(),
        spec_lower_stmts(s.subrange(0, k)) is Err,
    ensures
        spec_lower_stmts(s) == spec_lower_stmts(s.subrange(0, k)),
    decreases s.len() - k,
{
    if k < s.len() {
        assert(s.subrange(0, k + 1).drop_last() =~= s.subrange(0, k));
        lemma_lower_stmts_err_extends(s, k + 1);
    } else {
        assert(s.subrange(0, k) =~= s);
    }
}

fn lower_stmts(v: &Vec<MatlabStmt>) -> (r: Result<Vec<Term>, SxoError>)
    requires
        stmts_lowerable(v@),
    ensures
        res_seq_view(r) == spec_lower_stmts(v@),
    decreases v@, 0int,
{
    let mut out: Vec<Term> = Vec::new();
    let mut i: usize = 0;
    proof {
        assert(v@.subrange(0, 0) =~= Seq::<MatlabStmt>::empty());
    }
    while i < v.len()
        invariant
            i <= v.len(),
            stmts_lowerable(v@),
            spec_lower_stmts(v@.subrange(0, i as int)) == Ok::<Seq<TermV>, Seq<char>>(terms_view(out@)),
        decreases v.len() - i,
    {
        proof {
            assert(decreases_to!(v@ => v@[i as int]));
            assert(v@.subrange(0, i + 1).drop_last() =~= v@.subrange(0, i as int));
            assert(v@.subrange(0, i + 1).last() == v@[i as int]);
            lemma_stmts_lowerable_prefix(v@, i + 1);
        }
        match lower_stmt(&v[i]) {
            Err(e) => {
                proof {
                    lemma_lower_stmts_err_extends(v@, i as int + 1);
                }
                return Err(e);
            },
            Ok(t) => {
                let ghost old_out = out@;
                out.push(t);
                proof {
                    assert(out@.drop_last() =~= old_out);
                }
            },
        }
        i = i + 1;
    }
    proof {
        assert(v@.subrange(0, v.len() as int) =~= v@);
    }
    Ok(out)
}

fn compound_or_single(items: Vec<Term>) -> (t: Term)
    ensures
        t@ == spec_compound_or_single(terms_view(items@)),
{
    proof {
        lemma_terms_view(items@);
    }
    if items.len() == 0 {
        Term::Atom(Atom::Null)
    } else if items.len() == 1 {
        let ghost orig = items@;
        let mut items = items;
        let t = items.pop().unwrap();
        proof {
            assert(t == orig[0]);
        }
        t
    } else {
        Term::App { op: owned("CompoundExpression"), args: items }
    }
}

fn compound_stmts(v: &Vec<MatlabStmt>) -> (r: Result<Term, SxoError>)
    requires
        stmts_lowerable(v@),
    ensures
        res_view(r) == spec_compound(v@),
    decreases v@, 1int,
{
    match lower_stmts(v) {
        Err(e) => Err(e),
        Ok(items) => Ok(compound_or_single(items)),
    }
}

fn three(a: Term, b: Term, c: Term) -> (v: Vec<Term>)
    ensures
        terms_view(v@) == seq![term_view(a), term_view(b), term_view(c)],
{
    let ghost cv = term_view(c);
    let mut v = two(a, b);
    let ghost v2 = v@;
    v.push(c);
    proof {
        assert(v@.drop_last() =~= v2);
        assert(terms_view(v@) == terms_view(v2).push(cv));
        assert(terms_view(v@) =~= seq![terms_view(v2)[0], terms_view(v2)[1], cv]);
    }
    v
}

fn elseif_chain(elseifs: &Vec<ElseIf>, else_term: Term) -> (r: Result<Term, SxoError>)
    requires
        elseifs_lowerable(elseifs@),
    ensures
        res_view(r) == spec_elseif_chain(elseifs@, else_term@),
    decreases elseifs@, 0int,
{
    let mut acc = else_term;
    let mut i: usize = elseifs.len();
    proof {
        assert(elseifs@.subrange(0, i as int) =~= elseifs@);
    }
    while i > 0
        invariant
            i <= elseifs.len(),
            elseifs_lowerable(elseifs@.subrange(0, i as int)),
            spec_elseif_chain(elseifs@, else_term@) == spec_elseif_chain(elseifs@.subrange(0, i as int), acc@),
        decreases i,
    {
        i = i - 1;
        let ei = &elseifs[i];
        proof {
            assert(decreases_to!(elseifs@ => elseifs@[i as int]));
            assert(decreases_to!(elseifs@[i as int] => elseifs@[i as int].body));
            let pre = elseifs@.subrange(0, i + 1);
            assert(pre.drop_last() =~= elseifs@.subrange(0, i as int));
            assert(pre.last() == elseifs@[i as int]);
        }
        let then_t = match compound_stmts(&ei.body) {
            Err(e) => {
                return Err(e);
            },
            Ok(t) => t,
        };
        let cond_t = match lower_expr(&ei.condition) {
            Err(e) => {
                return Err(e);
            },
            Ok(t) => t,
        };
        acc = Term::App { op: owned("If"), args: three(cond_t, then_t, acc) };
    }
    Ok(acc)
}

fn lower_if(st: &MatlabStmt) -> (r: Result<Term, SxoError>)
    requires
        stmt_lowerable(*st),
        st is If,
    ensures
        res_view(r) == spec_lower_stmt(*st),
    decreases st, 1int,
{
    match st {
        MatlabStmt::If { condition, then_body, elseifs, else_body } => {
            let else0 = match compound_stmts(else_body) {
                Err(e) => {
                    return Err(e);
                },
                Ok(t) => t,
            };
            let else_term = match elseif_chain(elseifs, else0) {
                Err(e) => {
                    return Err(e);
                },
                Ok(t) => t,
            };
            let then_t = match compound_stmts(then_body) {
                Err(e) => {
                    return Err(e);
                },
                Ok(t) => t,
            };
            let cond_t = match lower_expr(condition) {
                Err(e) => {
                    return Err(e);
                },
                Ok(t) => t,
            };
            let else_is_null = match &else_term {
                Term::Atom(Atom::Null) => true,
                _ => false,
            };
            if else_is_null && elseifs.len() == 0 {
                Ok(Term::App { op: owned("If"), args: two(cond_t, then_t) })
            } else {
                Ok(Term::App { op: owned("If"), args: three(cond_t, then_t, else_term) })
            }
        },
        _ => Err(error_from_str("matlab(oak): error node")),
    }
}

fn lower_for(st: &MatlabStmt) -> (r: Result<Term, SxoError>)
    requires
        stmt_lowerable(*st),
        st is For,
    ensures
        res_view(r) == spec_lower_stmt(*st),
    decreases st, 1int,
{
    match st {
        MatlabStmt::For { header, body } => {
            let header_t = match lower_expr(header) {
                Err(e) => {
                    return Err(e);
                },
                Ok(t) => t,
            };
            let body_t = match compound_stmts(body) {
                Err(e) => {
                    return Err(e);
                },
                Ok(t) => t,
            };
            let is_set = match &header_t {
                Term::App { op, args } => {
                    proof {
                        lemma_terms_view(args@);
                    }
                    str_eq(op.as_str(), "Set") && args.len() == 2
                },
                _ => false,
            };
            let ghost hv = header_t@;
            let ghost bv = body_t@;
            if is_set {
                match header_t {
                    Term::App { op, args } => {
                        let ghost orig = args@;
                        proof {
                            lemma_terms_view(orig);
                            assert(hv == app_v(op@, terms_view(orig)));
                            assert(op@ == "Set"@);
                        }
                        let mut args = args;
                        let b = args.pop().unwrap();
                        let a = args.pop().unwrap();
                        proof {
                            assert(b == orig[1]);
                            assert(a == orig[0]);
                        }
                        let r = Term::App { op: owned("For"), args: three(a, b, body_t) };
                        proof {
                            assert(r@ == app_v("For"@, seq![terms_view(orig)[0], terms_view(orig)[1], bv]));
                        }
                        Ok(r)
                    },
                    other => Ok(Term::App { op: owned("For"), args: three(Term::symbol(owned("_")), other, body_t) }),
                }
            } else {
                Ok(Term::App { op: owned("For"), args: three(Term::symbol(owned("_")), header_t, body_t) })
            }
        },
        _ => Err(error_from_str("matlab(oak): error node")),
    }
}

/// Lower a MATLAB statement into a session term.
pub fn lower_stmt(st: &MatlabStmt) -> (r: Result<Term, SxoError>)
    requires
        stmt_lowerable(*st),
    ensures
        res_view(r) == spec_lower_stmt(*st),
    decreases st, 2int,
{
    match st {
        MatlabStmt::Expr(e) => lower_expr(e),
        MatlabStmt::If { .. } => lower_if(st),
        MatlabStmt::While { condition, body } => {
            let cond_t = match lower_expr(condition) {
                Err(e) => {
                    return Err(e);
                },
                Ok(t) => t,
            };
            let body_t = match compound_stmts(body) {
                Err(e) => {
                    return Err(e);
                },
                Ok(t) => t,
            };
            Ok(Term::App { op: owned("While"), args: two(cond_t, body_t) })
        },
        MatlabStmt::For { .. } => lower_for(st),
        MatlabStmt::Try { body, catch_body } => {
            let body_t = match compound_stmts(body) {
                Err(e) => {
                    return Err(e);
                },
                Ok(t) => t,
            };
            let catch_t = match compound_stmts(catch_body) {
                Err(e) => {
                    return Err(e);
                },
                Ok(t) => t,
            };
            Ok(Term::App { op: owned("Try"), args: two(body_t, catch_t) })
        },
        MatlabStmt::Error => Err(error_from_str("matlab(oak): error node")),
    }
}

/// Lower a MATLAB script (its top-level statements) into a session term.
pub fn lower_root(items: &Vec<MatlabStmt>) -> (r: Result<Term, SxoError>)
    requires
        stmts_lowerable(items@),
    ensures
        res_view(r) == spec_lower_root(items@),
{
    let ts = match lower_stmts(items) {
        Err(e) => {
            return Err(e);
        },
        Ok(ts) => ts,
    };
    proof {
        lemma_terms_view(ts@);
    }
    if ts.len() == 0 {
        Err(error_from_str("matlab(oak): empty root"))
    } else if ts.len() == 1 {
        let ghost orig = ts@;
        let mut ts = ts;
        let t = ts.pop().unwrap();
        proof {
            assert(t == orig[0]);
        }
        Ok(t)
    } else {
        Ok(Term::App { op: owned("CompoundExpression"), args: ts })
    }
}

// ------------------------------------------------------------------ checks

fn literal_ok(value: &String) -> (r: bool)
    ensures
        r == !lone_quote(value@),
{
    let text = trim_str(value.as_str());
    proof {
        if text@.len() == 1 && text@[0] == '"' {
            assert(text@ =~= seq!['"']);
        }
    }
    !(text.unicode_len() == 1 && text.get_char(0) == '"')
}

fn expr_lowerable_exec(e: &MatlabExpr) -> (r: bool)
    ensures
        r == expr_lowerable(*e),
    decreases e, 1int,
{
    match e {
        MatlabExpr::Symbol(_) => true,
        MatlabExpr::Literal(v) => literal_ok(v),
        MatlabExpr::Array(rows) => {
            proof {
                assert(decreases_to!(*e => (*e)->Array_0));
            }
            if rows.len() == 1 {
                proof {
                    assert(decreases_to!(rows@ => rows@[0]));
                }
                exprs_lowerable_exec(&rows[0])
            } else {
                rows_lowerable_exec(rows)
            }
        },
        MatlabExpr::Call { head, arguments } => {
            proof {
                assert(decreases_to!(*e => (*e)->head));
                assert(decreases_to!(*e => (*e)->arguments));
            }
            if !expr_lowerable_exec(head) {
                false
            } else {
                match lower_expr(head) {
                    Err(_) => true,
                    Ok(_) => exprs_lowerable_exec(arguments),
                }
            }
        },
        MatlabExpr::Binary { lhs, rhs, .. } => {
            proof {
                assert(decreases_to!(*e => (*e)->lhs));
                assert(decreases_to!(*e => (*e)->rhs));
            }
            if !expr_lowerable_exec(lhs) {
                false
            } else {
                match lower_expr(lhs) {
                    Err(_) => true,
                    Ok(_) => expr_lowerable_exec(rhs),
                }
            }
        },
        MatlabExpr::Prefix { operand, .. } => {
            proof {
                assert(decreases_to!(*e => (*e)->Prefix_operand));
            }
            expr_lowerable_exec(operand)
        },
        MatlabExpr::Postfix { operand, .. } => {
            proof {
                assert(decreases_to!(*e => (*e)->Postfix_operand));
            }
            expr_lowerable_exec(operand)
        },
        MatlabExpr::Grouped(inner) => {
            proof {
                assert(decreases_to!(*e => (*e)->Grouped_0));
            }
            expr_lowerable_exec(inner)
        },
    }
}

fn exprs_lowerable_exec(v: &Vec<MatlabExpr>) -> (r: bool)
    ensures
        r == exprs_lowerable(v@),
    decreases v@, 0int,
{
    let mut i: usize = 0;
    proof {
        assert(v@.subrange(0, 0) =~= Seq::<MatlabExpr>::empty());
    }
    while i < v.len()
        invariant
            i <= v.len(),
            exprs_lowerable(v@.subrange(0, i as int)),
            spec_lower_exprs(v@.subrange(0, i as int)) is Ok,
        decreases v.len() - i,
    {
        proof {
            assert(decreases_to!(v@ => v@[i as int]));
            assert(v@.subrange(0, i + 1).drop_last() =~= v@.subrange(0, i as int));
            assert(v@.subrange(0, i + 1).last() == v@[i as int]);
        }
        if !expr_lowerable_exec(&v[i]) {
            proof {
                if exprs_lowerable(v@) {
                    lemma_exprs_lowerable_prefix(v@, i + 1);
                }
            }
            return false;
        }
        match lower_expr(&v[i]) {
            Err(_) => {
                proof {
                    lemma_exprs_lowerable_after_err(v@, i + 1);
                }
                return true;
            },
            Ok(_) => {},
        }
        i = i + 1;
    }
    assert(v@.subrange(0, v.len() as int) =~= v@);
    true
}

fn rows_lowerable_exec(rows: &Vec<Vec<MatlabExpr>>) -> (r: bool)
    ensures
        r == rows_lowerable(rows@),
    decreases rows@, 0int,
{
    let mut i: usize = 0;
    proof {
        assert(rows@.subrange(0, 0) =~= Seq::<Vec<MatlabExpr>>::empty());
    }
    while i < rows.len()
        invariant
            i <= rows.len(),
            rows_lowerable(rows@.subrange(0, i as int)),
            spec_lower_rows(rows@.subrange(0, i as int)) is Ok,
        decreases rows.len() - i,
    {
        proof {
            assert(decreases_to!(rows@ => rows@[i as int]));
            assert(decreases_to!(rows@[i as int] => rows@[i as int]@));
            assert(rows@.subrange(0, i + 1).drop_last() =~= rows@.subrange(0, i as int));
            assert(rows@.subrange(0, i + 1).last() == rows@[i as int]);
        }
        if !exprs_lowerable_exec(&rows[i]) {
            proof {
                if rows_lowerable(rows@) {
                    lemma_rows_lowerable_prefix(rows@, i + 1);
                }
            }
            return false;
        }
        match lower_exprs(&rows[i]) {
            Err(_) => {
                proof {
                    lemma_rows_lowerable_after_err(rows@, i + 1);
                }
                return true;
            },
            Ok(_) => {},
        }
        i = i + 1;
    }
    assert(rows@.subrange(0, rows.len() as int) =~= rows@);
    true
}

fn stmt_lowerable_exec(st: &MatlabStmt) -> (r: bool)
    ensures
        r == stmt_lowerable(*st),
    decreases st, 1int,
{
    match st {
        MatlabStmt::Expr(e) => expr_lowerable_exec(e),
        MatlabStmt::If { condition, then_body, elseifs, else_body } => {
            proof {
                assert(decreases_to!(*st => (*st)->then_body));
                assert(decreases_to!(*st => (*st)->elseifs));
                assert(decreases_to!(*st => (*st)->else_body));
            }
            if !stmts_lowerable_exec(else_body) {
                return false;
            }
            let else0 = match compound_stmts(else_body) {
                Err(_) => {
                    return true;
                },
                Ok(t) => t,
            };
            if !elseifs_lowerable_exec(elseifs) {
                return false;
            }
            match elseif_chain(elseifs, else0) {
                Err(_) => {
                    return true;
                },
                Ok(_) => {},
            }
            if !stmts_lowerable_exec(then_body) {
                return false;
            }
            match compound_stmts(then_body) {
                Err(_) => true,
                Ok(_) => expr_lowerable_exec(condition),
            }
        },
        MatlabStmt::While { condition, body } => {
            proof {
                assert(decreases_to!(*st => (*st)->While_body));
            }
            if !expr_lowerable_exec(condition) {
                return false;
            }
            match lower_expr(condition) {
                Err(_) => true,
                Ok(_) => stmts_lowerable_exec(body),
            }
        },
        MatlabStmt::For { header, body } => {
            proof {
                assert(decreases_to!(*st => (*st)->For_body));
            }
            if !expr_lowerable_exec(header) {
                return false;
            }
            match lower_expr(header) {
                Err(_) => true,
                Ok(_) => stmts_lowerable_exec(body),
            }
        },
        MatlabStmt::Try { body, catch_body } => {
            proof {
                assert(decreases_to!(*st => (*st)->Try_body));
                assert(decreases_to!(*st => (*st)->catch_body));
            }
            if !stmts_lowerable_exec(body) {
                return false;
            }
            match compound_stmts(body) {
                Err(_) => true,
                Ok(_) => stmts_lowerable_exec(catch_body),
            }
        },
        MatlabStmt::Error => true,
    }
}

fn stmts_lowerable_exec(v: &Vec<MatlabStmt>) -> (r: bool)
    ensures
        r == stmts_lowerable(v@),
    decreases v@, 0int,
{
    let mut i: usize = 0;
    proof {
        assert(v@.subrange(0, 0) =~= Seq::<MatlabStmt>::empty());
    }
    while i < v.len()
        invariant
            i <= v.len(),
            stmts_lowerable(v@.subrange(0, i as int)),
            spec_lower_stmts(v@.subrange(0, i as int)) is Ok,
        decreases v.len() - i,
    {
        proof {
            assert(decreases_to!(v@ => v@[i as int]));
            assert(v@.subrange(0, i + 1).drop_last() =~= v@.subrange(0, i as int));
            assert(v@.subrange(0, i + 1).last() == v@[i as int]);
        }
        if !stmt_lowerable_exec(&v[i]) {
            proof {
                if stmts_lowerable(v@) {
                    lemma_stmts_lowerable_prefix(v@, i + 1);
                }
            }
            return false;
        }
        match lower_stmt(&v[i]) {
            Err(_) => {
                proof {
                    lemma_stmts_lowerable_after_err(v@, i + 1);
                }
                return true;
            },
            Ok(_) => {},
        }
        i = i + 1;
    }
    assert(v@.subrange(0, v.len() as int) =~= v@);
    true
}

fn elseifs_lowerable_exec(v: &Vec<ElseIf>) -> (r: bool)
    ensures
        r == elseifs_lowerable(v@),
    decreases v@, 0int,
{
    let mut i: usize = v.len();
    proof {
        assert(v@.subrange(0, i as int) =~= v@);
    }
    while i > 0
        invariant
            i <= v.len(),
            elseifs_lowerable(v@) == elseifs_lowerable(v@.subrange(0, i as int)),
        decreases i,
    {
        i = i - 1;
        proof {
            assert(decreases_to!(v@ => v@[i as int]));
            assert(decreases_to!(v@[i as int] => v@[i as int].body));
            let pre = v@.subrange(0, i + 1);
            assert(pre.drop_last() =~= v@.subrange(0, i as int));
            assert(pre.last() == v@[i as int]);
        }
        if !stmts_lowerable_exec(&v[i].body) {
            return false;
        }
        match compound_stmts(&v[i].body) {
            Err(_) => {
                return true;
            },
            Ok(_) => {},
        }
        if !expr_lowerable_exec(&v[i].condition) {
            return false;
        }
        match lower_expr(&v[i].condition) {
            Err(_) => {
                return true;
            },
            Ok(_) => {},
        }
    }
    true
}

/// Whether a script can be lowered: lowering it, in order and up to the
/// first error, meets no literal whose text is a lone `"`.
pub fn script_lowerable(items: &Vec<MatlabStmt>) -> (r: bool)
    ensures
        r == stmts_lowerable(items@),
{
    stmts_lowerable_exec(items)
}

/// The source text the MATLAB parser reads: the input trimmed, or an error
/// when nothing is left.
pub fn matlab_source(input: &str) -> (r: Result<&str, SxoError>)
    ensures
        r matches Ok(t) ==> t@ == trim_spec(input@) && t@.len() > 0,
        r matches Err(e) ==> trim_spec(input@).len() == 0 && e.message@ == "matlab: empty input"@,
{
    let trimmed = trim_str(input);
    if trimmed.unicode_len() == 0 {
        Err(error_from_str("matlab: empty input"))
    } else {
        Ok(trimmed)
    }
}


// ------------------------------------------------------------------ statement laws

/// A block lowers statement by statement: when it lowers to `ts`, `ts` has
/// one term per statement, each the term of that statement; and when every
/// statement lowers, so does the block.
pub proof fn lemma_block_elements(s: Seq<MatlabStmt>)
    ensures
        spec_lower_stmts(s) matches Ok(ts) ==> ts.len() == s.len() && forall|i: int|
            0 <= i < s.len() ==> spec_lower_stmt(#[trigger] s[i]) == Ok::<TermV, Seq<char>>(ts[i]),
        (forall|i: int| 0 <= i < s.len() ==> (#[trigger] spec_lower_stmt(s[i])) is Ok) ==> spec_lower_stmts(s) is Ok,
    decreases s.len(),
{
    if s.len() > 0 {
        lemma_block_elements(s.drop_last());
        assert forall|i: int| 0 <= i < s.len() - 1 implies s.drop_last()[i] == #[trigger] s[i] by {}
        if forall|i: int| 0 <= i < s.len() ==> (#[trigger] spec_lower_stmt(s[i])) is Ok {
            assert forall|i: int| 0 <= i < s.drop_last().len() implies (#[trigger] spec_lower_stmt(
                s.drop_last()[i],
            )) is Ok by {
                assert(s.drop_last()[i] == s[i]);
            }
            assert(spec_lower_stmt(s[s.len() - 1]) is Ok);
        }
    }
}

/// A block's term: nothing is `Null`, one statement is its own term, more
/// are a `CompoundExpression` of the statements' terms in order.
pub proof fn lemma_block_term(s: Seq<MatlabStmt>, ts: Seq<TermV>)
    requires
        spec_lower_stmts(s) == Ok::<Seq<TermV>, Seq<char>>(ts),
    ensures
        s.len() == 0 ==> spec_compound(s) == Ok::<TermV, Seq<char>>(TermV::Atom(AtomV::Null)),
        s.len() == 1 ==> spec_compound(s) == spec_lower_stmt(s[0]),
        s.len() >= 2 ==> spec_compound(s) == Ok::<TermV, Seq<char>>(app_v("CompoundExpression"@, ts)),
        s.len() == 0 ==> spec_lower_root(s) == Err::<TermV, Seq<char>>("matlab(oak): empty root"@),
        s.len() == 1 ==> spec_lower_root(s) == spec_lower_stmt(s[0]),
        s.len() >= 2 ==> spec_lower_root(s) == Ok::<TermV, Seq<char>>(app_v("CompoundExpression"@, ts)),
{
    lemma_block_elements(s);
}

/// Loops, `try` and error statements: `while c, b, end` is `While[c, b]`;
/// `try b catch k end` is `Try[b, k]`; an error node is the error
/// `matlab(oak): error node`.
pub proof fn lemma_loop_try_statements(st: MatlabStmt, c: TermV, b: TermV, k: TermV)
    ensures
        (st matches MatlabStmt::While { condition, body } && spec_lower_expr(condition) == Ok::<TermV, Seq<char>>(c)
            && spec_compound(body@) == Ok::<TermV, Seq<char>>(b)) ==> spec_lower_stmt(st) == Ok::<TermV, Seq<char>>(
            app_v("While"@, seq![c, b]),
        ),
        (st matches MatlabStmt::Try { body, catch_body } && spec_compound(body@) == Ok::<TermV, Seq<char>>(b)
            && spec_compound(catch_body@) == Ok::<TermV, Seq<char>>(k)) ==> spec_lower_stmt(st) == Ok::<
            TermV,
            Seq<char>,
        >(app_v("Try"@, seq![b, k])),
        st is Error ==> spec_lower_stmt(st) == Err::<TermV, Seq<char>>("matlab(oak): error node"@),
{
}

/// `for i = r, b, end`: a header that lowers to `Set[i, r]` gives
/// `For[i, r, b]`; any other header `h` gives `For[_, h, b]`.
pub proof fn lemma_for_statement(st: MatlabStmt, h: TermV, b: TermV)
    requires
        st matches MatlabStmt::For { header, body } && spec_lower_expr(header) == Ok::<TermV, Seq<char>>(h)
            && spec_compound(body@) == Ok::<TermV, Seq<char>>(b),
    ensures
        (h matches TermV::App { op, args } && op == "Set"@ && args.len() == 2) ==> spec_lower_stmt(st) == Ok::<
            TermV,
            Seq<char>,
        >(app_v("For"@, seq![h->App_args[0], h->App_args[1], b])),
        !(h matches TermV::App { op, args } && op == "Set"@ && args.len() == 2) ==> spec_lower_stmt(st) == Ok::<
            TermV,
            Seq<char>,
        >(app_v("For"@, seq![sym_v("_"@), h, b])),
{
}

/// `if c, t, else e, end` without `elseif`: the condition's term `c`, the
/// then block's term `t` and the else block's term `e` give `If[c, t, e]`,
/// or `If[c, t]` when the else block is empty (its term is `Null`).
/// With one `elseif d, u` branch the else part nests: `If[c, t, If[d, u, e]]`.
pub proof fn lemma_if_statement(st: MatlabStmt, c: TermV, t: TermV, e: TermV, d: TermV, u: TermV)
    requires
        st matches MatlabStmt::If { condition, then_body, elseifs, else_body } && spec_lower_expr(condition)
            == Ok::<TermV, Seq<char>>(c) && spec_compound(then_body@) == Ok::<TermV, Seq<char>>(t) && spec_compound(
            else_body@,
        ) == Ok::<TermV, Seq<char>>(e),
    ensures
        (st->If_elseifs.len() == 0 && e != TermV::Atom(AtomV::Null)) ==> spec_lower_stmt(st) == Ok::<
            TermV,
            Seq<char>,
        >(app_v("If"@, seq![c, t, e])),
        (st->If_elseifs.len() == 0 && e == TermV::Atom(AtomV::Null)) ==> spec_lower_stmt(st) == Ok::<
            TermV,
            Seq<char>,
        >(app_v("If"@, seq![c, t])),
        (st->If_elseifs.len() == 1 && spec_lower_expr(st->If_elseifs@[0].condition) == Ok::<TermV, Seq<char>>(d)
            && spec_compound(st->If_elseifs@[0].body@) == Ok::<TermV, Seq<char>>(u)) ==> spec_lower_stmt(st)
            == Ok::<TermV, Seq<char>>(app_v("If"@, seq![c, t, app_v("If"@, seq![d, u, e])])),
{
    let s = st->If_elseifs@;
    if s.len() == 1 {
        assert(s.drop_last().len() == 0);
        assert(s.last() == s[0]);
    }
}

} // verus!
