//! Render a bridge term as MATLAB text.

use vstd::prelude::*;

use crate::bridge::{Atom, Term, bridge_view, bridges_view, lemma_bridges_view};
use crate::number::{render_number, spec_render_number};
use crate::strings::{lemma_sep_join_pair, sep_join, str_eq};
use crate::wexpr::{WAtomV, WExprV, spec_w_head_name, spec_w_is_neg_one};

verus! {

/// MATLAB name of an engine function name (identity for unmapped names).
pub open spec fn spec_matlab_fn_name(name: Seq<char>) -> Seq<char> {
    if name == "Sin"@ {
        "sin"@
    } else if name == "Cos"@ {
        "cos"@
    } else if name == "Tan"@ {
        "tan"@
    } else if name == "Exp"@ {
        "exp"@
    } else if name == "Log"@ {
        "log"@
    } else if name == "D"@ {
        "diff"@
    } else if name == "Simplify"@ {
        "simplify"@
    } else if name == "Integrate"@ {
        "int"@
    } else if name == "Sqrt"@ {
        "sqrt"@
    } else if name == "Abs"@ {
        "abs"@
    } else if name == "Factorial"@ {
        "factorial"@
    } else {
        name
    }
}

fn matlab_fn_name(name: &str) -> (r: String)
    ensures
        r@ == spec_matlab_fn_name(name@),
{
    let s = if str_eq(name, "Sin") {
        "sin"
    } else if str_eq(name, "Cos") {
        "cos"
    } else if str_eq(name, "Tan") {
        "tan"
    } else if str_eq(name, "Exp") {
        "exp"
    } else if str_eq(name, "Log") {
        "log"
    } else if str_eq(name, "D") {
        "diff"
    } else if str_eq(name, "Simplify") {
        "simplify"
    } else if str_eq(name, "Integrate") {
        "int"
    } else if str_eq(name, "Sqrt") {
        "sqrt"
    } else if str_eq(name, "Abs") {
        "abs"
    } else if str_eq(name, "Factorial") {
        "factorial"
    } else {
        name
    };
    String::from_str(s)
}

/// Whether a list's items are all lists, with more than one item.
pub open spec fn spec_bridge_matrix_rows(items: Seq<WExprV>) -> bool {
    items.len() > 1 && forall|i: int| 0 <= i < items.len() ==> (#[trigger] items[i]) is List
}

/// MATLAB text of a bridge term view: numbers, quoted strings and symbols as
/// atoms, lists in brackets (rows split by `;`), applications infix where the
/// head names an infix operator, otherwise `name(args…)` under the head's
/// MATLAB name (or the head's own text when it has no name).
pub open spec fn spec_bridge_render(e: WExprV) -> Seq<char>
    decreases e, 1int,
{
    match e {
        WExprV::Atom(WAtomV::Number(n)) => spec_render_number(n),
        WExprV::Atom(WAtomV::String(s)) => "'"@ + s + "'"@,
        WExprV::Atom(WAtomV::Symbol(s)) => s,
        WExprV::List(items) => if spec_bridge_matrix_rows(items) {
            "["@ + sep_join(spec_bridge_rows(items), "; "@) + "]"@
        } else {
            "["@ + sep_join(spec_bridge_render_all(items), ", "@) + "]"@
        },
        WExprV::Call { head, args } => match spec_bridge_infix(e) {
            Some(x) => x,
            None => (match spec_w_head_name(*head) {
                Some(n) => spec_matlab_fn_name(n),
                None => spec_bridge_render(*head),
            }) + "("@ + sep_join(spec_bridge_render_all(args), ", "@) + ")"@,
        },
    }
}

/// MATLAB texts of each element.
pub open spec fn spec_bridge_render_all(s: Seq<WExprV>) -> Seq<Seq<char>>
    decreases s, 0int,
{
    if s.len() == 0 {
        seq![]
    } else {
        spec_bridge_render_all(s.drop_last()).push(spec_bridge_render(s.last()))
    }
}

/// MATLAB texts of matrix rows: a row's entries joined by `, `.
pub open spec fn spec_bridge_rows(s: Seq<WExprV>) -> Seq<Seq<char>>
    decreases s, 0int,
{
    if s.len() == 0 {
        seq![]
    } else {
        spec_bridge_rows(s.drop_last()).push(
            match s.last() {
                WExprV::List(cols) => sep_join(spec_bridge_render_all(cols), ", "@),
                other => spec_bridge_render(other),
            },
        )
    }
}

/// Infix MATLAB text of an application whose head names `Plus`, `Times`,
/// `Power`, `Subtract` or `Divide` with enough arguments.
pub open spec fn spec_bridge_infix(e: WExprV) -> Option<Seq<char>>
    decreases e, 0int,
{
    match e {
        WExprV::Call { head, args } => match spec_w_head_name(*head) {
            None => None,
            Some(name) => if name == "Plus"@ && args.len() >= 2 {
                Some(sep_join(spec_bridge_render_all(args), " + "@))
            } else if name == "Times"@ && args.len() >= 2 {
                if args.len() == 2 && spec_w_is_neg_one(args[0]) {
                    Some("-"@ + spec_bridge_render(args[1]))
                } else {
                    Some(sep_join(spec_bridge_render_all(args), "*"@))
                }
            } else if name == "Power"@ && args.len() == 2 {
                Some(spec_bridge_render(args[0]) + "^"@ + spec_bridge_render(args[1]))
            } else if name == "Subtract"@ && args.len() == 2 {
                Some(spec_bridge_render(args[0]) + " - "@ + spec_bridge_render(args[1]))
            } else if name == "Divide"@ && args.len() == 2 {
                Some(spec_bridge_render(args[0]) + "/"@ + spec_bridge_render(args[1]))
            } else {
                None
            },
        },
        _ => None,
    }
}

proof fn lemma_bridge_render_all_len(s: Seq<WExprV>)
    ensures
        spec_bridge_render_all(s).len() == s.len(),
    decreases s.len(),
{
    if s.len() > 0 {
        lemma_bridge_render_all_len(s.drop_last());
    }
}

proof fn lemma_bridge_rows_len(s: Seq<WExprV>)
    ensures
        spec_bridge_rows(s).len() == s.len(),
    decreases s.len(),
{
    if s.len() > 0 {
        lemma_bridge_rows_len(s.drop_last());
    }
}

fn is_matrix_rows(items: &Vec<Term>) -> (r: bool)
    ensures
        r == spec_bridge_matrix_rows(bridges_view(items@)),
{
    proof {
        lemma_bridges_view(items@);
    }
    if items.len() <= 1 {
        return false;
    }
    let mut i: usize = 0;
    while i < items.len()
        invariant
            i <= items.len(),
            bridges_view(items@).len() == items.len(),
            forall|j: int| 0 <= j < items.len() ==> #[trigger] bridges_view(items@)[j] == bridge_view(items@[j]),
            forall|j: int| 0 <= j < i ==> (#[trigger] bridges_view(items@)[j]) is List,
        decreases items.len() - i,
    {
        match &items[i] {
            Term::List(_) => {},
            _ => {
                assert(!(bridges_view(items@)[i as int] is List));
                return false;
            },
        }
        i = i + 1;
    }
    true
}

fn join_all(args: &Vec<Term>, sep: &str) -> (r: String)
    ensures
        r@ == sep_join(spec_bridge_render_all(bridges_view(args@)), sep@),
    decreases args@, 0int,
{
    let mut r = String::new();
    let mut i: usize = 0;
    proof {
        assert(args@.subrange(0, 0) =~= Seq::<Term>::empty());
    }
    while i < args.len()
        invariant
            i <= args.len(),
            r@ == sep_join(spec_bridge_render_all(bridges_view(args@.subrange(0, i as int))), sep@),
        decreases args.len() - i,
    {
        proof {
            assert(decreases_to!(args@ => args@[i as int]));
        }
        let part = render_matlab(&args[i]);
        proof {
            let pre = bridges_view(args@.subrange(0, i as int));
            assert(args@.subrange(0, i + 1) =~= args@.subrange(0, i as int).push(args@[i as int]));
            crate::bridge::lemma_bridges_push(args@.subrange(0, i as int), args@[i as int]);
            let nxt = bridges_view(args@.subrange(0, i + 1));
            assert(nxt.drop_last() =~= pre);
            lemma_bridge_render_all_len(pre);
            let parts = spec_bridge_render_all(nxt);
            assert(parts.drop_last() =~= spec_bridge_render_all(pre));
        }
        if i > 0 {
            r.append(sep);
        }
        r.append(part.as_str());
        i = i + 1;
    }
    assert(args@.subrange(0, args.len() as int) =~= args@);
    r
}

fn join_rows(rows: &Vec<Term>) -> (r: String)
    ensures
        r@ == sep_join(spec_bridge_rows(bridges_view(rows@)), "; "@),
    decreases rows@, 0int,
{
    let mut r = String::new();
    let mut i: usize = 0;
    proof {
        assert(rows@.subrange(0, 0) =~= Seq::<Term>::empty());
    }
    while i < rows.len()
        invariant
            i <= rows.len(),
            r@ == sep_join(spec_bridge_rows(bridges_view(rows@.subrange(0, i as int))), "; "@),
        decreases rows.len() - i,
    {
        proof {
            assert(decreases_to!(rows@ => rows@[i as int]));
        }
        let part = match &rows[i] {
            Term::List(cols) => {
                proof {
                    assert(decreases_to!(rows@[i as int] => rows@[i as int]->List_0));
                }
                join_all(cols, ", ")
            },
            other => render_matlab(other),
        };
        proof {
            let pre = bridges_view(rows@.subrange(0, i as int));
            assert(rows@.subrange(0, i + 1) =~= rows@.subrange(0, i as int).push(rows@[i as int]));
            crate::bridge::lemma_bridges_push(rows@.subrange(0, i as int), rows@[i as int]);
            let nxt = bridges_view(rows@.subrange(0, i + 1));
            assert(nxt.drop_last() =~= pre);
            lemma_bridge_rows_len(pre);
            let parts = spec_bridge_rows(nxt);
            assert(parts.drop_last() =~= spec_bridge_rows(pre));
        }
        if i > 0 {
            r.append("; ");
        }
        r.append(part.as_str());
        i = i + 1;
    }
    assert(rows@.subrange(0, rows.len() as int) =~= rows@);
    r
}

fn join3(a: String, sep: &str, b: String) -> (r: String)
    ensures
        r@ == a@ + sep@ + b@,
{
    let mut r = a;
    r.append(sep);
    r.append(b.as_str());
    r
}

fn try_infix(e: &Term) -> (r: Option<String>)
    ensures
        r matches Some(x) ==> spec_bridge_infix(e@) == Some(x@),
        r is None ==> spec_bridge_infix(e@) is None,
    decreases e, 0int,
{
    match e {
        Term::App { head, args } => {
            proof {
                lemma_bridges_view(args@);
                assert(decreases_to!(*e => (*e)->args));
                assert(decreases_to!((*e)->args => (*e)->args@));
                if args.len() > 0 {
                    assert(decreases_to!(args@ => args@[0]));
                }
                if args.len() > 1 {
                    assert(decreases_to!(args@ => args@[1]));
                }
            }
            let name = match head.head_name() {
                Some(n) => n,
                None => {
                    return None;
                },
            };
            let n = args.len();
            if str_eq(name, "Plus") && n >= 2 {
                Some(join_all(args, " + "))
            } else if str_eq(name, "Times") && n >= 2 {
                if n == 2 && args[0].is_neg_one() {
                    let mut r = String::from_str("-");
                    let b = render_matlab(&args[1]);
                    r.append(b.as_str());
                    Some(r)
                } else {
                    Some(join_all(args, "*"))
                }
            } else if str_eq(name, "Power") && n == 2 {
                Some(join3(render_matlab(&args[0]), "^", render_matlab(&args[1])))
            } else if str_eq(name, "Subtract") && n == 2 {
                Some(join3(render_matlab(&args[0]), " - ", render_matlab(&args[1])))
            } else if str_eq(name, "Divide") && n == 2 {
                Some(join3(render_matlab(&args[0]), "/", render_matlab(&args[1])))
            } else {
                None
            }
        },
        _ => None,
    }
}

/// Render a bridge term as MATLAB text.
pub fn render_matlab(e: &Term) -> (r: String)
    ensures
        r@ == spec_bridge_render(e@),
    decreases e, 1int,
{
    match e {
        Term::Atom(Atom::Number(n)) => render_number(n),
        Term::Atom(Atom::String(s)) => {
            let mut r = String::from_str("'");
            r.append(s.as_str());
            r.append("'");
            r
        },
        Term::Atom(Atom::Symbol(s)) => s.clone(),
        Term::List(items) => {
            proof {
                assert(decreases_to!(*e => (*e)->List_0));
            }
            let inner = if is_matrix_rows(items) {
                join_rows(items)
            } else {
                join_all(items, ", ")
            };
            let mut r = String::from_str("[");
            r.append(inner.as_str());
            r.append("]");
            r
        },
        Term::App { head, args } => {
            proof {
                assert(decreases_to!(*e => (*e)->args));
                assert(decreases_to!(*e => (*e)->head));
            }
            match try_infix(e) {
                Some(x) => x,
                None => {
                    let mut r = match head.head_name() {
                        Some(n) => matlab_fn_name(n),
                        None => render_matlab(head),
                    };
                    r.append("(");
                    let inner = join_all(args, ", ");
                    r.append(inner.as_str());
                    r.append(")");
                    r
                },
            }
        },
    }
}


// ------------------------------------------------------------------ laws

proof fn lemma_bridge_infix_names_distinct()
    ensures
        "Plus"@ != "Times"@,
        "Plus"@ != "Power"@,
        "Plus"@ != "Subtract"@,
        "Plus"@ != "Divide"@,
        "Times"@ != "Power"@,
        "Times"@ != "Subtract"@,
        "Times"@ != "Divide"@,
        "Power"@ != "Subtract"@,
        "Power"@ != "Divide"@,
        "Subtract"@ != "Divide"@,
{
    reveal_strlit("Plus");
    reveal_strlit("Times");
    reveal_strlit("Power");
    reveal_strlit("Subtract");
    reveal_strlit("Divide");
    assert("Plus"@.len() != "Times"@.len());
    assert("Plus"@.len() != "Power"@.len());
    assert("Plus"@.len() != "Subtract"@.len());
    assert("Plus"@.len() != "Divide"@.len());
    assert("Times"@[0] != "Power"@[0]);
    assert("Times"@.len() != "Subtract"@.len());
    assert("Times"@.len() != "Divide"@.len());
    assert("Power"@.len() != "Subtract"@.len());
    assert("Power"@.len() != "Divide"@.len());
    assert("Subtract"@.len() != "Divide"@.len());
}

/// `head[args…]` bridge view with a symbol head.
pub open spec fn bridge_call(name: Seq<char>, args: Seq<WExprV>) -> WExprV {
    WExprV::Call { head: Box::new(WExprV::Atom(WAtomV::Symbol(name))), args }
}

/// The text of a call with a symbol head: its infix text when it has one.
proof fn lemma_bridge_render_call(name: Seq<char>, args: Seq<WExprV>)
    ensures
        spec_bridge_infix(bridge_call(name, args)) is Some ==> spec_bridge_render(bridge_call(name, args))
            == spec_bridge_infix(bridge_call(name, args))->0,
        spec_w_head_name(WExprV::Atom(WAtomV::Symbol(name))) == Some(name),
{
}

/// Bridge terms render their operators infix with operands in order:
/// `x/y`, `x^y`, `x - y`, `x + y`, `x*y`, and a product of `-1` and `y` as
/// `-y`.
pub proof fn lemma_bridge_infix_operators(x: WExprV, y: WExprV)
    ensures
        spec_bridge_render(bridge_call("Divide"@, seq![x, y])) == spec_bridge_render(x) + "/"@ + spec_bridge_render(y),
        spec_bridge_render(bridge_call("Power"@, seq![x, y])) == spec_bridge_render(x) + "^"@ + spec_bridge_render(y),
        spec_bridge_render(bridge_call("Subtract"@, seq![x, y])) == spec_bridge_render(x) + " - "@ + spec_bridge_render(
            y,
        ),
        spec_bridge_render(bridge_call("Plus"@, seq![x, y])) == spec_bridge_render(x) + " + "@ + spec_bridge_render(y),
        !spec_w_is_neg_one(x) ==> spec_bridge_render(bridge_call("Times"@, seq![x, y])) == spec_bridge_render(x) + "*"@
            + spec_bridge_render(y),
        spec_w_is_neg_one(x) ==> spec_bridge_render(bridge_call("Times"@, seq![x, y])) == "-"@ + spec_bridge_render(y),
{
    lemma_bridge_infix_names_distinct();
    let xy = seq![x, y];
    assert(xy.drop_last() =~= seq![x]);
    assert(seq![x].drop_last() =~= Seq::<WExprV>::empty());
    assert(spec_bridge_render_all(Seq::<WExprV>::empty()) =~= Seq::<Seq<char>>::empty());
    assert(spec_bridge_render_all(seq![x]) == spec_bridge_render_all(seq![x].drop_last()).push(
        spec_bridge_render(seq![x].last()),
    ));
    assert(spec_bridge_render_all(seq![x]) =~= seq![spec_bridge_render(x)]);
    assert(spec_bridge_render_all(xy) =~= seq![spec_bridge_render(x), spec_bridge_render(y)]);
    lemma_bridge_render_call("Divide"@, xy);
    lemma_bridge_render_call("Power"@, xy);
    lemma_bridge_render_call("Subtract"@, xy);
    lemma_bridge_render_call("Plus"@, xy);
    lemma_bridge_render_call("Times"@, xy);
    lemma_sep_join_pair(spec_bridge_render(x), spec_bridge_render(y), " + "@);
    lemma_sep_join_pair(spec_bridge_render(x), spec_bridge_render(y), "*"@);
}

} // verus!
