//! Render a session term as MATLAB text.

use vstd::prelude::*;

use crate::matlab_lower::spec_map_matlab_head;
use crate::number::{render_number, spec_render_number};
use crate::strings::{lemma_sep_join_pair, sep_join, str_eq};
use crate::term::{
    Atom, AtomV, Term, TermV, app_v, lemma_terms_view, lemma_terms_view_prefix, spec_t_is_neg_one,
    term_view, terms_view,
};

verus! {

/// MATLAB display name of an operator name (identity for unmapped names).
pub open spec fn spec_head_matlab_name(name: Seq<char>) -> Seq<char> {
    if name == "Sin"@ {
        "sin"@
    } else if name == "Cos"@ {
        "cos"@
    } else if name == "Tan"@ {
        "tan"@
    } else if name == "Exp"@ {
        "exp"@
    } else if name == "Log"@ {
        "log"@
    } else if name == "D"@ {
        "diff"@
    } else if name == "Simplify"@ {
        "simplify"@
    } else if name == "Integrate"@ {
        "int"@
    } else if name == "Sqrt"@ {
        "sqrt"@
    } else if name == "Abs"@ {
        "abs"@
    } else if name == "Factorial"@ {
        "factorial"@
    } else if name == "Zeros"@ {
        "zeros"@
    } else if name == "Ones"@ {
        "ones"@
    } else if name == "Eye"@ || name == "IdentityMatrix"@ {
        "eye"@
    } else if name == "Size"@ || name == "Dimensions"@ {
        "size"@
    } else if name == "Length"@ {
        "length"@
    } else if name == "Det"@ {
        "det"@
    } else if name == "Sum"@ {
        "sum"@
    } else if name == "LinearSolve"@ {
        "linsolve"@
    } else {
        name
    }
}

/// MATLAB display name of an operator name.
pub fn head_matlab_name(name: &str) -> (r: String)
    ensures
        r@ == spec_head_matlab_name(name@),
{
    let s: &str = if str_eq(name, "Sin") {
        "sin"
    } else if str_eq(name, "Cos") {
        "cos"
    } else if str_eq(name, "Tan") {
        "tan"
    } else if str_eq(name, "Exp") {
        "exp"
    } else if str_eq(name, "Log") {
        "log"
    } else if str_eq(name, "D") {
        "diff"
    } else if str_eq(name, "Simplify") {
        "simplify"
    } else if str_eq(name, "Integrate") {
        "int"
    } else if str_eq(name, "Sqrt") {
        "sqrt"
    } else if str_eq(name, "Abs") {
        "abs"
    } else if str_eq(name, "Factorial") {
        "factorial"
    } else if str_eq(name, "Zeros") {
        "zeros"
    } else if str_eq(name, "Ones") {
        "ones"
    } else if str_eq(name, "Eye") || str_eq(name, "IdentityMatrix") {
        "eye"
    } else if str_eq(name, "Size") || str_eq(name, "Dimensions") {
        "size"
    } else if str_eq(name, "Length") {
        "length"
    } else if str_eq(name, "Det") {
        "det"
    } else if str_eq(name, "Sum") {
        "sum"
    } else if str_eq(name, "LinearSolve") {
        "linsolve"
    } else {
        name
    };
    String::from_str(s)
}

/// Whether a collection's items are all collections, with more than one item.
pub open spec fn spec_is_matrix_rows(items: Seq<TermV>) -> bool {
    items.len() > 1 && forall|i: int| 0 <= i < items.len() ==> (#[trigger] items[i]) is List
}

/// MATLAB text of a session term view.
pub open spec fn spec_render_matlab(t: TermV) -> Seq<char>
    decreases t, 1int,
{
    match t {
        TermV::Atom(AtomV::Number(n)) => spec_render_number(n),
        TermV::Atom(AtomV::String(s)) => "'"@ + s + "'"@,
        TermV::Atom(AtomV::Symbol(s)) => s,
        TermV::Atom(AtomV::Boolean(b)) => if b { "true"@ } else { "false"@ },
        TermV::Atom(AtomV::Null) => "[]"@,
        TermV::List(items) => if spec_is_matrix_rows(items) {
            "["@ + sep_join(spec_render_rows(items), "; "@) + "]"@
        } else {
            "["@ + sep_join(spec_render_matlab_all(items), ", "@) + "]"@
        },
        TermV::App { op, args } => match spec_matlab_infix(t) {
            Some(x) => x,
            None => spec_head_matlab_name(op) + "("@ + sep_join(spec_render_matlab_all(args), ", "@) + ")"@,
        },
    }
}

/// MATLAB texts of each element.
pub open spec fn spec_render_matlab_all(s: Seq<TermV>) -> Seq<Seq<char>>
    decreases s, 0int,
{
    if s.len() == 0 {
        seq![]
    } else {
        spec_render_matlab_all(s.drop_last()).push(spec_render_matlab(s.last()))
    }
}

/// MATLAB texts of matrix rows: a row's entries joined by `, `.
pub open spec fn spec_render_rows(s: Seq<TermV>) -> Seq<Seq<char>>
    decreases s, 0int,
{
    if s.len() == 0 {
        seq![]
    } else {
        spec_render_rows(s.drop_last()).push(
            match s.last() {
                TermV::List(cols) => sep_join(spec_render_matlab_all(cols), ", "@),
                other => spec_render_matlab(other),
            },
        )
    }
}

/// Infix MATLAB text of an application, when its operator has one.
pub open spec fn spec_matlab_infix(t: TermV) -> Option<Seq<char>>
    decreases t, 0int,
{
    match t {
        TermV::App { op, args } => {
            if op == "Plus"@ && args.len() >= 2 {
                Some(sep_join(spec_render_matlab_all(args), " + "@))
            } else if op == "Times"@ && args.len() >= 2 {
                if args.len() == 2 && spec_t_is_neg_one(args[0]) {
                    Some("-"@ + spec_render_matlab(args[1]))
                } else {
                    Some(sep_join(spec_render_matlab_all(args), "*"@))
                }
            } else if op == "Power"@ && args.len() == 2 {
                Some(spec_render_matlab(args[0]) + "^"@ + spec_render_matlab(args[1]))
            } else if op == "Subtract"@ && args.len() == 2 {
                Some(spec_render_matlab(args[0]) + " - "@ + spec_render_matlab(args[1]))
            } else if op == "Divide"@ && args.len() == 2 {
                Some(spec_render_matlab(args[0]) + "/"@ + spec_render_matlab(args[1]))
            } else if op == "Mldivide"@ && args.len() == 2 {
                Some(spec_render_matlab(args[0]) + "\\"@ + spec_render_matlab(args[1]))
            } else if op == "DotTimes"@ && args.len() == 2 {
                Some(spec_render_matlab(args[0]) + ".*"@ + spec_render_matlab(args[1]))
            } else if op == "DotDivide"@ && args.len() == 2 {
                Some(spec_render_matlab(args[0]) + "./"@ + spec_render_matlab(args[1]))
            } else if op == "DotPower"@ && args.len() == 2 {
                Some(spec_render_matlab(args[0]) + ".^"@ + spec_render_matlab(args[1]))
            } else if (op == "Span"@ || op == "Range"@) && args.len() == 2 {
                Some(spec_render_matlab(args[0]) + ":"@ + spec_render_matlab(args[1]))
            } else if (op == "Span"@ || op == "Range"@) && args.len() == 3 {
                Some(spec_render_matlab(args[0]) + ":"@ + spec_render_matlab(args[1]) + ":"@ + spec_render_matlab(args[2]))
            } else {
                None
            }
        },
        _ => None,
    }
}

proof fn lemma_render_matlab_all_len(s: Seq<TermV>)
    ensures
        spec_render_matlab_all(s).len() == s.len(),
    decreases s.len(),
{
    if s.len() > 0 {
        lemma_render_matlab_all_len(s.drop_last());
    }
}

proof fn lemma_render_rows_len(s: Seq<TermV>)
    ensures
        spec_render_rows(s).len() == s.len(),
    decreases s.len(),
{
    if s.len() > 0 {
        lemma_render_rows_len(s.drop_last());
    }
}

fn is_matrix_rows(items: &Vec<Term>) -> (r: bool)
    ensures
        r == spec_is_matrix_rows(terms_view(items@)),
{
    proof {
        lemma_terms_view(items@);
    }
    if items.len() <= 1 {
        return false;
    }
    let mut i: usize = 0;
    while i < items.len()
        invariant
            i <= items.len(),
            terms_view(items@).len() == items.len(),
            forall|j: int| 0 <= j < items.len() ==> #[trigger] terms_view(items@)[j] == term_view(items@[j]),
            forall|j: int| 0 <= j < i ==> (#[trigger] terms_view(items@)[j]) is List,
        decreases items.len() - i,
    {
        match &items[i] {
            Term::List(_) => {},
            _ => {
                assert(!(terms_view(items@)[i as int] is List));
                return false;
            },
        }
        i = i + 1;
    }
    true
}

fn join_all(args: &Vec<Term>, sep: &str) -> (r: String)
    ensures
        r@ == sep_join(spec_render_matlab_all(terms_view(args@)), sep@),
    decreases args@, 0int,
{
    let mut r = String::new();
    let mut i: usize = 0;
    proof {
        assert(args@.subrange(0, 0) =~= Seq::<Term>::empty());
    }
    while i < args.len()
        invariant
            i <= args.len(),
            r@ == sep_join(spec_render_matlab_all(terms_view(args@.subrange(0, i as int))), sep@),
        decreases args.len() - i,
    {
        proof {
            assert(decreases_to!(args@ => args@[i as int]));
        }
        let part = render_matlab(&args[i]);
        proof {
            let pre = terms_view(args@.subrange(0, i as int));
            lemma_terms_view_prefix(args@, i as int);
            let nxt = terms_view(args@.subrange(0, i + 1));
            assert(nxt.drop_last() =~= pre);
            lemma_render_matlab_all_len(pre);
            let parts = spec_render_matlab_all(nxt);
            assert(parts.drop_last() =~= spec_render_matlab_all(pre));
        }
        if i > 0 {
            r.append(sep);
        }
        r.append(part.as_str());
        i = i + 1;
    }
    assert(args@.subrange(0, args.len() as int) =~= args@);
    r
}

fn join_rows(rows: &Vec<Term>) -> (r: String)
    ensures
        r@ == sep_join(spec_render_rows(terms_view(rows@)), "; "@),
    decreases rows@, 0int,
{
    let mut r = String::new();
    let mut i: usize = 0;
    proof {
        assert(rows@.subrange(0, 0) =~= Seq::<Term>::empty());
    }
    while i < rows.len()
        invariant
            i <= rows.len(),
            r@ == sep_join(spec_render_rows(terms_view(rows@.subrange(0, i as int))), "; "@),
        decreases rows.len() - i,
    {
        proof {
            assert(decreases_to!(rows@ => rows@[i as int]));
            reveal_strlit(", ");
        }
        let part = match &rows[i] {
            Term::List(cols) => {
                proof {
                    assert(decreases_to!(rows@[i as int] => rows@[i as int]->List_0));
                }
                join_all(cols, ", ")
            },
            other => render_matlab(other),
        };
        proof {
            let pre = terms_view(rows@.subrange(0, i as int));
            lemma_terms_view_prefix(rows@, i as int);
            let nxt = terms_view(rows@.subrange(0, i + 1));
            assert(nxt.drop_last() =~= pre);
            lemma_render_rows_len(pre);
            let parts = spec_render_rows(nxt);
            assert(parts.drop_last() =~= spec_render_rows(pre));
        }
        if i > 0 {
            r.append("; ");
        }
        r.append(part.as_str());
        i = i + 1;
    }
    assert(rows@.subrange(0, rows.len() as int) =~= rows@);
    r
}

/// Render a session term as MATLAB text.
pub fn render_matlab(t: &Term) -> (r: String)
    ensures
        r@ == spec_render_matlab(t@),
    decreases t, 1int,
{
    proof {
        reveal_strlit("'");
        reveal_strlit("[");
        reveal_strlit("]");
        reveal_strlit("(");
        reveal_strlit(")");
        reveal_strlit(", ");
        reveal_strlit("; ");
    }
    match t {
        Term::Atom(Atom::Number(n)) => render_number(n),
        Term::Atom(Atom::String(s)) => {
            let mut r = String::from_str("'");
            r.append(s.as_str());
            r.append("'");
            r
        },
        Term::Atom(Atom::Symbol(s)) => s.clone(),
        Term::Atom(Atom::Boolean(b)) => if *b {
            String::from_str("true")
        } else {
            String::from_str("false")
        },
        Term::Atom(Atom::Null) => String::from_str("[]"),
        Term::List(items) => {
            proof {
                assert(decreases_to!(*t => (*t)->List_0));
            }
            let inner = if is_matrix_rows(items) {
                join_rows(items)
            } else {
                join_all(items, ", ")
            };
            let mut r = String::from_str("[");
            r.append(inner.as_str());
            r.append("]");
            r
        },
        Term::App { op, args } => {
            proof {
                assert(decreases_to!(*t => (*t)->args));
            }
            match try_infix(t) {
                Some(x) => x,
                None => {
                    let mut r = head_matlab_name(op.as_str());
                    r.append("(");
                    let inner = join_all(args, ", ");
                    r.append(inner.as_str());
                    r.append(")");
                    r
                },
            }
        },
    }
}

fn join3(a: String, sep: &str, b: String) -> (r: String)
    ensures
        r@ == a@ + sep@ + b@,
{
    let mut r = a;
    r.append(sep);
    r.append(b.as_str());
    r
}

fn try_infix(t: &Term) -> (r: Option<String>)
    ensures
        r matches Some(x) ==> spec_matlab_infix(t@) == Some(x@),
        r is None ==> spec_matlab_infix(t@) is None,
    decreases t, 0int,
{
    proof {
        reveal_strlit(" + ");
        reveal_strlit("-");
        reveal_strlit("*");
        reveal_strlit("^");
        reveal_strlit(" - ");
        reveal_strlit("/");
        reveal_strlit("\\");
        reveal_strlit(".*");
        reveal_strlit("./");
        reveal_strlit(".^");
        reveal_strlit(":");
    }
    match t {
        Term::App { op, args } => {
            let name = op.as_str();
            proof {
                lemma_terms_view(args@);
                assert(decreases_to!(*t => (*t)->args));
                assert(decreases_to!((*t)->args => (*t)->args@));
                if args.len() > 0 {
                    assert(decreases_to!(args@ => args@[0]));
                }
                if args.len() > 1 {
                    assert(decreases_to!(args@ => args@[1]));
                }
                if args.len() > 2 {
                    assert(decreases_to!(args@ => args@[2]));
                }
            }
            let n = args.len();
            if str_eq(name, "Plus") && n >= 2 {
                Some(join_all(args, " + "))
            } else if str_eq(name, "Times") && n >= 2 {
                if n == 2 && args[0].is_neg_one() {
                    let mut r = String::from_str("-");
                    let b = render_matlab(&args[1]);
                    r.append(b.as_str());
                    Some(r)
                } else {
                    Some(join_all(args, "*"))
                }
            } else if str_eq(name, "Power") && n == 2 {
                Some(join3(render_matlab(&args[0]), "^", render_matlab(&args[1])))
            } else if str_eq(name, "Subtract") && n == 2 {
                Some(join3(render_matlab(&args[0]), " - ", render_matlab(&args[1])))
            } else if str_eq(name, "Divide") && n == 2 {
                Some(join3(render_matlab(&args[0]), "/", render_matlab(&args[1])))
            } else if str_eq(name, "Mldivide") && n == 2 {
                Some(join3(render_matlab(&args[0]), "\\", render_matlab(&args[1])))
            } else if str_eq(name, "DotTimes") && n == 2 {
                Some(join3(render_matlab(&args[0]), ".*", render_matlab(&args[1])))
            } else if str_eq(name, "DotDivide") && n == 2 {
                Some(join3(render_matlab(&args[0]), "./", render_matlab(&args[1])))
            } else if str_eq(name, "DotPower") && n == 2 {
                Some(join3(render_matlab(&args[0]), ".^", render_matlab(&args[1])))
            } else if (str_eq(name, "Span") || str_eq(name, "Range")) && n == 2 {
                Some(join3(render_matlab(&args[0]), ":", render_matlab(&args[1])))
            } else if (str_eq(name, "Span") || str_eq(name, "Range")) && n == 3 {
                let ab = join3(render_matlab(&args[0]), ":", render_matlab(&args[1]));
                Some(join3(ab, ":", render_matlab(&args[2])))
            } else {
                None
            }
        },
        _ => None,
    }
}

/// Length and a few characters of a name, enough to tell engine heads apart.
spec fn head_key(s: Seq<char>) -> (nat, char, char, char) {
    (s.len(), s[0], s[1], s[3])
}

/// A MATLAB name reads back as itself after lowering and rendering: the
/// functions the lowering maps render under their MATLAB name again, and a
/// name it leaves alone renders unchanged unless it is itself an engine head.
pub proof fn lemma_matlab_head_roundtrip(name: Seq<char>)
    requires
        spec_map_matlab_head(name) != name || spec_head_matlab_name(name) == name,
    ensures
        spec_head_matlab_name(spec_map_matlab_head(name)) == name,
{
    reveal_strlit("Sin");
    reveal_strlit("Cos");
    reveal_strlit("Tan");
    reveal_strlit("Exp");
    reveal_strlit("Log");
    reveal_strlit("D");
    reveal_strlit("Simplify");
    reveal_strlit("Integrate");
    reveal_strlit("Sqrt");
    reveal_strlit("Abs");
    reveal_strlit("Factorial");
    reveal_strlit("Zeros");
    reveal_strlit("Ones");
    reveal_strlit("Eye");
    reveal_strlit("IdentityMatrix");
    reveal_strlit("Size");
    reveal_strlit("Dimensions");
    reveal_strlit("Length");
    reveal_strlit("Det");
    reveal_strlit("Sum");
    reveal_strlit("LinearSolve");
    assert(head_key("Sin"@) == head_key("Sin"@));
    assert(head_key("Cos"@) == head_key("Cos"@));
    assert(head_key("Tan"@) == head_key("Tan"@));
    assert(head_key("Exp"@) == head_key("Exp"@));
    assert(head_key("Log"@) == head_key("Log"@));
    assert(head_key("D"@) == head_key("D"@));
    assert(head_key("Simplify"@) == head_key("Simplify"@));
    assert(head_key("Integrate"@) == head_key("Integrate"@));
    assert(head_key("Sqrt"@) == head_key("Sqrt"@));
    assert(head_key("Abs"@) == head_key("Abs"@));
    assert(head_key("Factorial"@) == head_key("Factorial"@));
    assert(head_key("Zeros"@) == head_key("Zeros"@));
    assert(head_key("Ones"@) == head_key("Ones"@));
    assert(head_key("Eye"@) == head_key("Eye"@));
    assert(head_key("IdentityMatrix"@) == head_key("IdentityMatrix"@));
    assert(head_key("Size"@) == head_key("Size"@));
    assert(head_key("Dimensions"@) == head_key("Dimensions"@));
    assert(head_key("Length"@) == head_key("Length"@));
    assert(head_key("Det"@) == head_key("Det"@));
    assert(head_key("Sum"@) == head_key("Sum"@));
    assert(head_key("LinearSolve"@) == head_key("LinearSolve"@));
}


// ------------------------------------------------------------------ laws

/// The MATLAB infix operator names are pairwise different.
proof fn lemma_matlab_infix_names_distinct()
    ensures
        "Plus"@ != "Times"@,
        "Plus"@ != "Power"@,
        "Plus"@ != "Subtract"@,
        "Plus"@ != "Divide"@,
        "Plus"@ != "Mldivide"@,
        "Plus"@ != "DotTimes"@,
        "Plus"@ != "DotDivide"@,
        "Plus"@ != "DotPower"@,
        "Plus"@ != "Span"@,
        "Plus"@ != "Range"@,
        "Times"@ != "Power"@,
        "Times"@ != "Subtract"@,
        "Times"@ != "Divide"@,
        "Times"@ != "Mldivide"@,
        "Times"@ != "DotTimes"@,
        "Times"@ != "DotDivide"@,
        "Times"@ != "DotPower"@,
        "Times"@ != "Span"@,
        "Times"@ != "Range"@,
        "Power"@ != "Subtract"@,
        "Power"@ != "Divide"@,
        "Power"@ != "Mldivide"@,
        "Power"@ != "DotTimes"@,
        "Power"@ != "DotDivide"@,
        "Power"@ != "DotPower"@,
        "Power"@ != "Span"@,
        "Power"@ != "Range"@,
        "Subtract"@ != "Divide"@,
        "Subtract"@ != "Mldivide"@,
        "Subtract"@ != "DotTimes"@,
        "Subtract"@ != "DotDivide"@,
        "Subtract"@ != "DotPower"@,
        "Subtract"@ != "Span"@,
        "Subtract"@ != "Range"@,
        "Divide"@ != "Mldivide"@,
        "Divide"@ != "DotTimes"@,
        "Divide"@ != "DotDivide"@,
        "Divide"@ != "DotPower"@,
        "Divide"@ != "Span"@,
        "Divide"@ != "Range"@,
        "Mldivide"@ != "DotTimes"@,
        "Mldivide"@ != "DotDivide"@,
        "Mldivide"@ != "DotPower"@,
        "Mldivide"@ != "Span"@,
        "Mldivide"@ != "Range"@,
        "DotTimes"@ != "DotDivide"@,
        "DotTimes"@ != "DotPower"@,
        "DotTimes"@ != "Span"@,
        "DotTimes"@ != "Range"@,
        "DotDivide"@ != "DotPower"@,
        "DotDivide"@ != "Span"@,
        "DotDivide"@ != "Range"@,
        "DotPower"@ != "Span"@,
        "DotPower"@ != "Range"@,
        "Span"@ != "Range"@,
{
    reveal_strlit("Plus");
    reveal_strlit("Times");
    reveal_strlit("Power");
    reveal_strlit("Subtract");
    reveal_strlit("Divide");
    reveal_strlit("Mldivide");
    reveal_strlit("DotTimes");
    reveal_strlit("DotDivide");
    reveal_strlit("DotPower");
    reveal_strlit("Span");
    reveal_strlit("Range");
    assert("Plus"@.len() != "Times"@.len());
    assert("Plus"@.len() != "Power"@.len());
    assert("Plus"@.len() != "Subtract"@.len());
    assert("Plus"@.len() != "Divide"@.len());
    assert("Plus"@.len() != "Mldivide"@.len());
    assert("Plus"@.len() != "DotTimes"@.len());
    assert("Plus"@.len() != "DotDivide"@.len());
    assert("Plus"@.len() != "DotPower"@.len());
    assert("Plus"@[0] != "Span"@[0]);
    assert("Plus"@.len() != "Range"@.len());
    assert("Times"@[0] != "Power"@[0]);
    assert("Times"@.len() != "Subtract"@.len());
    assert("Times"@.len() != "Divide"@.len());
    assert("Times"@.len() != "Mldivide"@.len());
    assert("Times"@.len() != "DotTimes"@.len());
    assert("Times"@.len() != "DotDivide"@.len());
    assert("Times"@.len() != "DotPower"@.len());
    assert("Times"@.len() != "Span"@.len());
    assert("Times"@[0] != "Range"@[0]);
    assert("Power"@.len() != "Subtract"@.len());
    assert("Power"@.len() != "Divide"@.len());
    assert("Power"@.len() != "Mldivide"@.len());
    assert("Power"@.len() != "DotTimes"@.len());
    assert("Power"@.len() != "DotDivide"@.len());
    assert("Power"@.len() != "DotPower"@.len());
    assert("Power"@.len() != "Span"@.len());
    assert("Power"@[0] != "Range"@[0]);
    assert("Subtract"@.len() != "Divide"@.len());
    assert("Subtract"@[0] != "Mldivide"@[0]);
    assert("Subtract"@[0] != "DotTimes"@[0]);
    assert("Subtract"@.len() != "DotDivide"@.len());
    assert("Subtract"@[0] != "DotPower"@[0]);
    assert("Subtract"@.len() != "Span"@.len());
    assert("Subtract"@.len() != "Range"@.len());
    assert("Divide"@.len() != "Mldivide"@.len());
    assert("Divide"@.len() != "DotTimes"@.len());
    assert("Divide"@.len() != "DotDivide"@.len());
    assert("Divide"@.len() != "DotPower"@.len());
    assert("Divide"@.len() != "Span"@.len());
    assert("Divide"@.len() != "Range"@.len());
    assert("Mldivide"@[0] != "DotTimes"@[0]);
    assert("Mldivide"@.len() != "DotDivide"@.len());
    assert("Mldivide"@[0] != "DotPower"@[0]);
    assert("Mldivide"@.len() != "Span"@.len());
    assert("Mldivide"@.len() != "Range"@.len());
    assert("DotTimes"@.len() != "DotDivide"@.len());
    assert("DotTimes"@[3] != "DotPower"@[3]);
    assert("DotTimes"@.len() != "Span"@.len());
    assert("DotTimes"@.len() != "Range"@.len());
    assert("DotDivide"@.len() != "DotPower"@.len());
    assert("DotDivide"@.len() != "Span"@.len());
    assert("DotDivide"@.len() != "Range"@.len());
    assert("DotPower"@.len() != "Span"@.len());
    assert("DotPower"@.len() != "Range"@.len());
    assert("Span"@.len() != "Range"@.len());
}

/// The texts of a sequence of terms are the texts of its elements.
proof fn lemma_render_matlab_all_elements(s: Seq<TermV>)
    ensures
        spec_render_matlab_all(s) == Seq::new(s.len(), |i: int| spec_render_matlab(s[i])),
    decreases s.len(),
{
    if s.len() > 0 {
        lemma_render_matlab_all_elements(s.drop_last());
        assert forall|i: int| 0 <= i < s.len() - 1 implies s.drop_last()[i] == #[trigger] s[i] by {}
    }
    assert(spec_render_matlab_all(s) =~= Seq::new(s.len(), |i: int| spec_render_matlab(s[i])));
}

/// MATLAB operators render infix with their operands in order: `x/y`,
/// `x\y`, `x^y`, `x - y`, `x.*y`, `x./y`, `x.^y`, `x:y` for ranges and spans,
/// `x:y:z` for three-part ranges and spans; a sum joins its terms with ` + `,
/// a product its factors with `*`, and a product of `-1` and `y` is `-y`.
pub proof fn lemma_matlab_infix_operators(x: TermV, y: TermV, z: TermV, args: Seq<TermV>)
    ensures
        spec_render_matlab(app_v("Divide"@, seq![x, y])) == spec_render_matlab(x) + "/"@ + spec_render_matlab(y),
        spec_render_matlab(app_v("Mldivide"@, seq![x, y])) == spec_render_matlab(x) + "\\"@ + spec_render_matlab(y),
        spec_render_matlab(app_v("Power"@, seq![x, y])) == spec_render_matlab(x) + "^"@ + spec_render_matlab(y),
        spec_render_matlab(app_v("Subtract"@, seq![x, y])) == spec_render_matlab(x) + " - "@ + spec_render_matlab(y),
        spec_render_matlab(app_v("DotTimes"@, seq![x, y])) == spec_render_matlab(x) + ".*"@ + spec_render_matlab(y),
        spec_render_matlab(app_v("DotDivide"@, seq![x, y])) == spec_render_matlab(x) + "./"@ + spec_render_matlab(y),
        spec_render_matlab(app_v("DotPower"@, seq![x, y])) == spec_render_matlab(x) + ".^"@ + spec_render_matlab(y),
        spec_render_matlab(app_v("Range"@, seq![x, y])) == spec_render_matlab(x) + ":"@ + spec_render_matlab(y),
        spec_render_matlab(app_v("Span"@, seq![x, y])) == spec_render_matlab(x) + ":"@ + spec_render_matlab(y),
        spec_render_matlab(app_v("Range"@, seq![x, y, z])) == spec_render_matlab(x) + ":"@ + spec_render_matlab(y)
            + ":"@ + spec_render_matlab(z),
        spec_render_matlab(app_v("Span"@, seq![x, y, z])) == spec_render_matlab(x) + ":"@ + spec_render_matlab(y)
            + ":"@ + spec_render_matlab(z),
        spec_render_matlab(app_v("Plus"@, seq![x, y])) == spec_render_matlab(x) + " + "@ + spec_render_matlab(y),
        !spec_t_is_neg_one(x) ==> spec_render_matlab(app_v("Times"@, seq![x, y])) == spec_render_matlab(x) + "*"@
            + spec_render_matlab(y),
        spec_t_is_neg_one(x) ==> spec_render_matlab(app_v("Times"@, seq![x, y])) == "-"@ + spec_render_matlab(y),
        args.len() >= 2 ==> spec_render_matlab(app_v("Plus"@, args)) == sep_join(
            Seq::new(args.len(), |i: int| spec_render_matlab(args[i])),
            " + "@,
        ),
        (args.len() >= 3 || (args.len() == 2 && !spec_t_is_neg_one(args[0]))) ==> spec_render_matlab(
            app_v("Times"@, args),
        ) == sep_join(Seq::new(args.len(), |i: int| spec_render_matlab(args[i])), "*"@),
{
    lemma_matlab_infix_names_distinct();
    lemma_render_matlab_all_elements(args);
    let xy = seq![x, y];
    lemma_render_matlab_all_elements(xy);
    assert(Seq::new(xy.len(), |i: int| spec_render_matlab(xy[i])) =~= seq![spec_render_matlab(x), spec_render_matlab(y)]);
    lemma_sep_join_pair(spec_render_matlab(x), spec_render_matlab(y), " + "@);
    lemma_sep_join_pair(spec_render_matlab(x), spec_render_matlab(y), "*"@);
}


/// MATLAB atoms and collections: strings in single quotes, booleans as
/// `true`/`false`, null as `[]`; a row `[x, y]` lists its items in order
/// separated by `, `; a matrix of rows `[a, b; c, d]` separates rows by `; `
/// and a row's entries by `, `.
pub proof fn lemma_matlab_atoms_and_collections(t: Seq<char>, x: TermV, y: TermV, a: TermV, b: TermV, c: TermV, d: TermV)
    ensures
        spec_render_matlab(TermV::Atom(AtomV::String(t))) == "'"@ + t + "'"@,
        spec_render_matlab(TermV::Atom(AtomV::Boolean(true))) == "true"@,
        spec_render_matlab(TermV::Atom(AtomV::Boolean(false))) == "false"@,
        spec_render_matlab(TermV::Atom(AtomV::Null)) == "[]"@,
        !(x is List && y is List) ==> spec_render_matlab(TermV::List(seq![x, y])) == "["@ + spec_render_matlab(x)
            + ", "@ + spec_render_matlab(y) + "]"@,
        spec_render_matlab(TermV::List(seq![TermV::List(seq![a, b]), TermV::List(seq![c, d])])) == "["@
            + spec_render_matlab(a) + ", "@ + spec_render_matlab(b) + "; "@ + spec_render_matlab(c) + ", "@
            + spec_render_matlab(d) + "]"@,
{
    let xy = seq![x, y];
    lemma_render_matlab_all_elements(xy);
    assert(Seq::new(xy.len(), |i: int| spec_render_matlab(xy[i])) =~= seq![spec_render_matlab(x), spec_render_matlab(y)]);
    lemma_sep_join_pair(spec_render_matlab(x), spec_render_matlab(y), ", "@);
    if !(x is List && y is List) {
        assert(!spec_is_matrix_rows(xy)) by {
            if !(x is List) {
                assert(xy[0] == x);
            } else {
                assert(xy[1] == y);
            }
        }
    }
    let ab = seq![a, b];
    let cd = seq![c, d];
    lemma_render_matlab_all_elements(ab);
    lemma_render_matlab_all_elements(cd);
    assert(Seq::new(ab.len(), |i: int| spec_render_matlab(ab[i])) =~= seq![spec_render_matlab(a), spec_render_matlab(b)]);
    assert(Seq::new(cd.len(), |i: int| spec_render_matlab(cd[i])) =~= seq![spec_render_matlab(c), spec_render_matlab(d)]);
    let ra = spec_render_matlab(a) + ", "@ + spec_render_matlab(b);
    let rc = spec_render_matlab(c) + ", "@ + spec_render_matlab(d);
    lemma_sep_join_pair(spec_render_matlab(a), spec_render_matlab(b), ", "@);
    lemma_sep_join_pair(spec_render_matlab(c), spec_render_matlab(d), ", "@);
    let rows = seq![TermV::List(ab), TermV::List(cd)];
    assert(spec_is_matrix_rows(rows));
    assert(rows.drop_last() =~= seq![TermV::List(ab)]);
    assert(seq![TermV::List(ab)].drop_last() =~= Seq::<TermV>::empty());
    assert(spec_render_rows(Seq::<TermV>::empty()) =~= Seq::<Seq<char>>::empty());
    assert(seq![TermV::List(ab)].last() == TermV::List(ab));
    assert(spec_render_rows(seq![TermV::List(ab)]) == spec_render_rows(Seq::<TermV>::empty()).push(
        sep_join(spec_render_matlab_all(ab), ", "@),
    ));
    assert(spec_render_rows(seq![TermV::List(ab)]) =~= seq![ra]);
    assert(rows.last() == TermV::List(cd));
    assert(spec_render_rows(rows) =~= seq![ra, rc]);
    lemma_sep_join_pair(ra, rc, "; "@);
    assert("["@ + (ra + "; "@ + rc) + "]"@ =~= "["@ + spec_render_matlab(a) + ", "@ + spec_render_matlab(b) + "; "@
        + spec_render_matlab(c) + ", "@ + spec_render_matlab(d) + "]"@);
    assert("["@ + (spec_render_matlab(x) + ", "@ + spec_render_matlab(y)) + "]"@ =~= "["@ + spec_render_matlab(x)
        + ", "@ + spec_render_matlab(y) + "]"@);
}

} // verus!
