//! Lift a Mathematica form into a dialect-neutral request: assignments become
//! definitions, `Table` becomes an iteration plan, anything else a term.

use vstd::prelude::*;

use crate::number::{fits_i64, spec_exact_integer};
use crate::request::{
    BindingEvaluationPolicy, BindingKind, ControlPlan, ControlPlanV, Request, RequestV, SessionCommand,
    SessionCommandV,
};
use crate::strings::str_eq;
use crate::term::{Term, TermV, int_v, terms_view};
use crate::wexpr::{WAtom, WAtomV, WExpr, WExprV, lemma_wexprs_view, spec_w_is_symbol, wexpr_view, wexprs_view};
use crate::wolfram_lower::{lower_wexpr, spec_lower_wexpr};

verus! {

/// Exact `i64` value of a number atom form.
pub open spec fn spec_exact_i64(w: WExprV) -> Option<int> {
    match w {
        WExprV::Atom(WAtomV::Number(n)) => match spec_exact_integer(n) {
            Some(v) => if fits_i64(v) { Some(v) } else { None },
            None => None,
        },
        _ => None,
    }
}

fn exact_i64(w: &WExpr) -> (r: Option<i64>)
    ensures
        r matches Some(v) ==> spec_exact_i64(w@) == Some(v as int),
        r is None ==> spec_exact_i64(w@) is None,
{
    match w {
        WExpr::Atom(WAtom::Number(n)) => n.as_exact_integer(),
        _ => None,
    }
}

/// The values `a, a+s, a+2s, …` that do not pass `b` (ascending for `s > 0`,
/// descending for `s < 0`; empty for `s == 0`).
pub open spec fn progression(a: int, b: int, s: int) -> Seq<int>
    decreases (if s > 0 && a <= b { b - a + 1 } else if s < 0 && a >= b { a - b + 1 } else { 0 }),
{
    if (s > 0 && a <= b) || (s < 0 && a >= b) {
        seq![a] + progression(a + s, b, s)
    } else {
        seq![]
    }
}

/// Integer atom views of `vals`.
pub open spec fn ints_view(vals: Seq<int>) -> Seq<TermV> {
    vals.map_values(|v: int| int_v(v))
}

/// Iterator items of a `Table` iterator form: a list's items, or the
/// arguments of a `List[…]` call.
pub open spec fn table_items(w: WExprV) -> Option<Seq<WExprV>> {
    match w {
        WExprV::List(items) => Some(items),
        WExprV::Call { head, args } => if spec_w_is_symbol(*head, "List"@) { Some(args) } else { None },
        _ => None,
    }
}

/// Range collection of a `Table` iterator: `{i, n}` gives `1..=n`, `{i, a, b}`
/// gives `a..=b`, `{i, a, b, s}` with `s != 0` gives the step-`s` progression
/// from `a` not passing `b`; any other iterator is lowered as it stands.
pub open spec fn spec_normalize_table_range(w: WExprV) -> TermV {
    let fallback = spec_lower_wexpr(w);
    match table_items(w) {
        Some(items) => if items.len() == 2 {
            match spec_exact_i64(items[1]) {
                Some(n) => TermV::List(ints_view(progression(1, n, 1))),
                None => fallback,
            }
        } else if items.len() == 3 {
            match (spec_exact_i64(items[1]), spec_exact_i64(items[2])) {
                (Some(a), Some(b)) => TermV::List(ints_view(progression(a, b, 1))),
                _ => fallback,
            }
        } else if items.len() == 4 {
            match (spec_exact_i64(items[1]), spec_exact_i64(items[2]), spec_exact_i64(items[3])) {
                (Some(a), Some(b), Some(s)) => if s != 0 {
                    TermV::List(ints_view(progression(a, b, s)))
                } else {
                    fallback
                },
                _ => fallback,
            }
        } else {
            fallback
        },
        None => fallback,
    }
}

/// The integer atoms of the step-`s` progression from `a` not passing `b`.
pub fn int_progression(a: i64, b: i64, s: i64) -> (r: Vec<Term>)
    requires
        s != 0,
    ensures
        terms_view(r@) == ints_view(progression(a as int, b as int, s as int)),
{
    let mut vals: Vec<Term> = Vec::new();
    let mut cur: i64 = a;
    let ghost mut done: Seq<int> = seq![];
    proof {
        assert(terms_view(vals@) =~= ints_view(done));
        assert(progression(a as int, b as int, s as int) =~= done + progression(cur as int, b as int, s as int));
    }
    loop
        invariant_except_break
            s != 0,
            progression(a as int, b as int, s as int) == done + progression(cur as int, b as int, s as int),
            terms_view(vals@) == ints_view(done),
        ensures
            progression(a as int, b as int, s as int) == done,
            terms_view(vals@) == ints_view(done),
        decreases (if s > 0 && cur <= b { b - cur + 1 } else if s < 0 && cur >= b { cur - b + 1 } else { 0 }),
    {
        let go = if s > 0 { cur <= b } else { cur >= b };
        if !go {
            proof {
                assert(progression(cur as int, b as int, s as int) =~= Seq::<int>::empty());
                assert(done + Seq::<int>::empty() =~= done);
            }
            break;
        }
        let ghost old_vals = vals@;
        let ghost old_done = done;
        vals.push(Term::small_int(cur));
        proof {
            done = done.push(cur as int);
            assert(vals@.drop_last() =~= old_vals);
            assert(ints_view(done) =~= ints_view(old_done).push(int_v(cur as int)));
            let rest = progression(cur as int + s as int, b as int, s as int);
            assert(progression(cur as int, b as int, s as int) == seq![cur as int] + rest);
            assert(old_done + (seq![cur as int] + rest) =~= done + rest);
        }
        match cur.checked_add(s) {
            Some(next) => {
                cur = next;
            },
            None => {
                proof {
                    let rest = progression(cur as int + s as int, b as int, s as int);
                    assert(rest =~= Seq::<int>::empty());
                    assert(done + rest =~= done);
                }
                break;
            },
        }
    }
    vals
}

fn table_items_exec(w: &WExpr) -> (r: Option<&Vec<WExpr>>)
    ensures
        r matches Some(v) ==> table_items(w@) == Some(wexprs_view(v@)),
        r is None ==> table_items(w@) is None,
{
    proof {
        reveal_with_fuel(wexpr_view, 2);
    }
    match w {
        WExpr::List(items) => Some(items),
        WExpr::Call { head, args } => if head.is_symbol("List") {
            Some(args)
        } else {
            None
        },
        _ => None,
    }
}

fn normalize_table_range(iter: &WExpr) -> (t: Term)
    ensures
        t@ == spec_normalize_table_range(iter@),
{
    match table_items_exec(iter) {
        Some(items) => {
            proof {
                lemma_wexprs_view(items@);
            }
            if items.len() == 2 {
                if let Some(n) = exact_i64(&items[1]) {
                    return Term::List(int_progression(1, n, 1));
                }
            } else if items.len() == 3 {
                if let (Some(a), Some(b)) = (exact_i64(&items[1]), exact_i64(&items[2])) {
                    return Term::List(int_progression(a, b, 1));
                }
            } else if items.len() == 4 {
                if let (Some(a), Some(b), Some(s)) = (exact_i64(&items[1]), exact_i64(&items[2]), exact_i64(&items[3])) {
                    if s != 0 {
                        return Term::List(int_progression(a, b, s));
                    }
                }
            }
            lower_wexpr(iter)
        },
        None => lower_wexpr(iter),
    }
}

/// Binder of a `Table` iterator: the first item of a non-empty iterator list.
pub open spec fn spec_table_binder(iter: WExprV) -> Option<TermV> {
    match iter {
        WExprV::List(items) => if items.len() > 0 { Some(spec_lower_wexpr(items[0])) } else { None },
        WExprV::Call { head, args } => if spec_w_is_symbol(*head, "List"@) && args.len() > 0 {
            Some(spec_lower_wexpr(args[0]))
        } else {
            None
        },
        _ => None,
    }
}

fn extract_table_binder(iter: &WExpr) -> (r: Option<Term>)
    ensures
        r matches Some(t) ==> spec_table_binder(iter@) == Some(t@),
        r is None ==> spec_table_binder(iter@) is None,
{
    proof {
        reveal_with_fuel(wexpr_view, 2);
    }
    match iter {
        WExpr::List(items) => {
            proof {
                lemma_wexprs_view(items@);
            }
            if items.len() > 0 {
                Some(lower_wexpr(&items[0]))
            } else {
                None
            }
        },
        WExpr::Call { head, args } => {
            proof {
                lemma_wexprs_view(args@);
            }
            if head.is_symbol("List") && args.len() > 0 {
                Some(lower_wexpr(&args[0]))
            } else {
                None
            }
        },
        _ => None,
    }
}

/// Request of a Mathematica form: `sym = rhs` defines `sym` (value evaluated
/// before it is stored), `sym := rhs` defines `sym` (value stored
/// unevaluated), `Table[body, iter]` iterates the binder over the normalized
/// range (binder defaults to the body when the iterator has none); anything
/// else is the lowered term.
pub open spec fn spec_lower_request(w: WExprV) -> RequestV {
    let plain = RequestV::Term(spec_lower_wexpr(w));
    match w {
        WExprV::Call { head, args } => match *head {
            WExprV::Atom(WAtomV::Symbol(name)) => if name == "Set"@ && args.len() == 2 {
                match args[0] {
                    WExprV::Atom(WAtomV::Symbol(sym)) => RequestV::Command(
                        SessionCommandV::Define {
                            symbol: sym,
                            value: spec_lower_wexpr(args[1]),
                            kind: BindingKind::Session,
                            evaluation: BindingEvaluationPolicy::EvaluateBeforeStore,
                        },
                    ),
                    _ => plain,
                }
            } else if name == "SetDelayed"@ && args.len() == 2 {
                match args[0] {
                    WExprV::Atom(WAtomV::Symbol(sym)) => RequestV::Command(
                        SessionCommandV::Define {
                            symbol: sym,
                            value: spec_lower_wexpr(args[1]),
                            kind: BindingKind::Session,
                            evaluation: BindingEvaluationPolicy::StoreResidualTerm,
                        },
                    ),
                    _ => plain,
                }
            } else if name == "Table"@ && args.len() == 2 {
                let body = spec_lower_wexpr(args[0]);
                RequestV::Control(
                    ControlPlanV::Iterate {
                        binder: match spec_table_binder(args[1]) {
                            Some(b) => b,
                            None => body,
                        },
                        range: spec_normalize_table_range(args[1]),
                        body: Box::new(RequestV::Term(body)),
                        evaluation: BindingEvaluationPolicy::EvaluateBeforeStore,
                    },
                )
            } else {
                plain
            },
            _ => plain,
        },
        _ => plain,
    }
}

/// Lift a Mathematica form into a request.
pub fn lower_request(w: &WExpr) -> (r: Request)
    ensures
        r@ == spec_lower_request(w@),
{
    proof {
        reveal_with_fuel(wexpr_view, 2);
    }
    if let WExpr::Call { head, args } = w {
        if let WExpr::Atom(WAtom::Symbol(name)) = &**head {
            proof {
                lemma_wexprs_view(args@);
            }
            if str_eq(name.as_str(), "Set") && args.len() == 2 {
                if let WExpr::Atom(WAtom::Symbol(sym)) = &args[0] {
                    let value = lower_wexpr(&args[1]);
                    return Request::Command(
                        SessionCommand::Define {
                            symbol: sym.clone(),
                            value,
                            kind: BindingKind::Session,
                            evaluation: BindingEvaluationPolicy::EvaluateBeforeStore,
                        },
                    );
                }
            } else if str_eq(name.as_str(), "SetDelayed") && args.len() == 2 {
                if let WExpr::Atom(WAtom::Symbol(sym)) = &args[0] {
                    let value = lower_wexpr(&args[1]);
                    return Request::Command(
                        SessionCommand::Define {
                            symbol: sym.clone(),
                            value,
                            kind: BindingKind::Session,
                            evaluation: BindingEvaluationPolicy::StoreResidualTerm,
                        },
                    );
                }
            } else if str_eq(name.as_str(), "Table") && args.len() == 2 {
                let body_term = lower_wexpr(&args[0]);
                let binder = match extract_table_binder(&args[1]) {
                    Some(b) => b,
                    None => body_term.copy(),
                };
                let range = normalize_table_range(&args[1]);
                proof {
                    reveal_with_fuel(crate::request::request_view, 2);
                }
                return Request::Control(
                    ControlPlan::Iterate {
                        binder,
                        range,
                        body: Box::new(Request::Term(body_term)),
                        evaluation: BindingEvaluationPolicy::EvaluateBeforeStore,
                    },
                );
            }
        }
    }
    Request::Term(lower_wexpr(w))
}

/// An ascending progression holds `a, a+s, …` up to `b`: its `k`-th value is
/// `a + k*s`, and it has `(b - a) / s + 1` values when `a <= b`, none
/// otherwise.
pub proof fn lemma_progression_ascending(a: int, b: int, s: int)
    requires
        s > 0,
    ensures
        progression(a, b, s).len() == (if a <= b { (b - a) / s + 1 } else { 0 }),
        forall|k: int| 0 <= k < progression(a, b, s).len() ==> #[trigger] progression(a, b, s)[k] == a + k * s,
    decreases (if a <= b { b - a + 1 } else { 0 }),
{
    if a <= b {
        lemma_progression_ascending(a + s, b, s);
        let rest = progression(a + s, b, s);
        assert(progression(a, b, s) == seq![a] + rest);
        if a + s <= b {
            assert((b - a) / s == (b - (a + s)) / s + 1) by (nonlinear_arith)
                requires
                    s > 0,
                    a + s <= b,
            {
                vstd::arithmetic::div_mod::lemma_div_plus_one(b - a - s, s);
            }
        } else {
            assert((b - a) / s == 0) by (nonlinear_arith)
                requires
                    s > 0,
                    0 <= b - a < s,
            ;
        }
        assert forall|k: int| 0 <= k < progression(a, b, s).len() implies #[trigger] progression(a, b, s)[k] == a + k * s by {
            if k > 0 {
                assert(progression(a, b, s)[k] == rest[k - 1]);
                assert(0 <= k - 1 < rest.len());
                assert(rest[k - 1] == (a + s) + (k - 1) * s);
                assert(a + s + (k - 1) * s == a + k * s) by (nonlinear_arith);
            } else {
                assert(a + 0 * s == a) by (nonlinear_arith);
            }
        }
    }
}

/// A descending progression holds `a, a+s, …` down to `b`: its `k`-th value
/// is `a + k*s`, and it has `(a - b) / (-s) + 1` values when `a >= b`, none
/// otherwise.
pub proof fn lemma_progression_descending(a: int, b: int, s: int)
    requires
        s < 0,
    ensures
        progression(a, b, s).len() == (if a >= b { (a - b) / (-s) + 1 } else { 0 }),
        forall|k: int| 0 <= k < progression(a, b, s).len() ==> #[trigger] progression(a, b, s)[k] == a + k * s,
    decreases (if a >= b { a - b + 1 } else { 0 }),
{
    if a >= b {
        lemma_progression_descending(a + s, b, s);
        let rest = progression(a + s, b, s);
        assert(progression(a, b, s) == seq![a] + rest);
        let t = -s;
        if a + s >= b {
            assert((a - b) / t == (a + s - b) / t + 1) by (nonlinear_arith)
                requires
                    t > 0,
                    t == -s,
                    a + s >= b,
            {
                vstd::arithmetic::div_mod::lemma_div_plus_one(a + s - b, t);
            }
        } else {
            assert((a - b) / t == 0) by (nonlinear_arith)
                requires
                    t > 0,
                    0 <= a - b < t,
            ;
        }
        assert forall|k: int| 0 <= k < progression(a, b, s).len() implies #[trigger] progression(a, b, s)[k] == a + k * s by {
            if k > 0 {
                assert(progression(a, b, s)[k] == rest[k - 1]);
                assert(0 <= k - 1 < rest.len());
                assert(rest[k - 1] == (a + s) + (k - 1) * s);
                assert(a + s + (k - 1) * s == a + k * s) by (nonlinear_arith);
            } else {
                assert(a + 0 * s == a) by (nonlinear_arith);
            }
        }
    }
}


// ------------------------------------------------------------------ laws

/// The request head names are pairwise different.
proof fn lemma_request_names_distinct()
    ensures
        "Set"@ != "SetDelayed"@,
        "Set"@ != "Table"@,
        "SetDelayed"@ != "Table"@,
        "List"@ != "Set"@,
{
    reveal_strlit("Set");
    reveal_strlit("SetDelayed");
    reveal_strlit("Table");
    reveal_strlit("List");
    assert("Set"@.len() == 3 && "SetDelayed"@.len() == 10 && "Table"@.len() == 5 && "List"@.len() == 4);
}

/// `x = v` and `x := v` both define the symbol `x` in the session with the
/// lowered `v`; `=` evaluates `v` before storing it, `:=` stores it as it
/// stands. The two requests differ in that policy only.
pub proof fn lemma_assignment_requests(x: Seq<char>, v: WExprV)
    ensures
        spec_lower_request(call_wr("Set"@, seq![symbol_wr(x), v])) == RequestV::Command(
            SessionCommandV::Define {
                symbol: x,
                value: spec_lower_wexpr(v),
                kind: BindingKind::Session,
                evaluation: BindingEvaluationPolicy::EvaluateBeforeStore,
            },
        ),
        spec_lower_request(call_wr("SetDelayed"@, seq![symbol_wr(x), v])) == RequestV::Command(
            SessionCommandV::Define {
                symbol: x,
                value: spec_lower_wexpr(v),
                kind: BindingKind::Session,
                evaluation: BindingEvaluationPolicy::StoreResidualTerm,
            },
        ),
        spec_lower_request(call_wr("Set"@, seq![symbol_wr(x), v])) != spec_lower_request(
            call_wr("SetDelayed"@, seq![symbol_wr(x), v]),
        ),
{
    lemma_request_names_distinct();
}

/// `Table[body, {i, n}]` iterates the binder `i` over `1, 2, …, n` (nothing
/// when `n < 1`) evaluating `body`; `Table[body, {i, a, b}]` iterates over
/// `a, a+1, …, b`.
pub proof fn lemma_table_requests(body: WExprV, i: Seq<char>, a: WExprV, b: WExprV, va: int, vb: int)
    requires
        spec_exact_i64(a) == Some(va),
        spec_exact_i64(b) == Some(vb),
    ensures
        ({
            let r = spec_lower_request(call_wr("Table"@, seq![body, WExprV::List(seq![symbol_wr(i), b])]));
            &&& r matches RequestV::Control(ControlPlanV::Iterate { binder, range, body: bd, evaluation })
            &&& binder == spec_lower_wexpr(symbol_wr(i))
            &&& *bd == RequestV::Term(spec_lower_wexpr(body))
            &&& evaluation == BindingEvaluationPolicy::EvaluateBeforeStore
            &&& range matches TermV::List(vals)
            &&& vals.len() == (if vb >= 1 { vb } else { 0 })
            &&& forall|k: int| 0 <= k < vals.len() ==> #[trigger] vals[k] == int_v(k + 1)
        }),
        ({
            let r = spec_lower_request(call_wr("Table"@, seq![body, WExprV::List(seq![symbol_wr(i), a, b])]));
            &&& r matches RequestV::Control(ControlPlanV::Iterate { binder, range, body: bd, evaluation })
            &&& binder == spec_lower_wexpr(symbol_wr(i))
            &&& *bd == RequestV::Term(spec_lower_wexpr(body))
            &&& evaluation == BindingEvaluationPolicy::EvaluateBeforeStore
            &&& range matches TermV::List(vals)
            &&& vals.len() == (if va <= vb { vb - va + 1 } else { 0 })
            &&& forall|k: int| 0 <= k < vals.len() ==> #[trigger] vals[k] == int_v(va + k)
        }),
{
    lemma_request_names_distinct();
    lemma_progression_ascending(1, vb, 1);
    lemma_progression_ascending(va, vb, 1);
    let items2 = seq![symbol_wr(i), b];
    let items3 = seq![symbol_wr(i), a, b];
    assert(table_items(WExprV::List(items2)) == Some(items2));
    assert(table_items(WExprV::List(items3)) == Some(items3));
    assert(spec_normalize_table_range(WExprV::List(items2)) == TermV::List(ints_view(progression(1, vb, 1))));
    assert(spec_normalize_table_range(WExprV::List(items3)) == TermV::List(ints_view(progression(va, vb, 1))));
    if vb >= 1 {
        assert((vb - 1) / 1 + 1 == vb);
    }
    if va <= vb {
        assert((vb - va) / 1 + 1 == vb - va + 1);
    }
}

/// Symbol form view.
pub open spec fn symbol_wr(name: Seq<char>) -> WExprV {
    WExprV::Atom(WAtomV::Symbol(name))
}

/// `head[args…]` form view with a symbol head.
pub open spec fn call_wr(head: Seq<char>, args: Seq<WExprV>) -> WExprV {
    WExprV::Call { head: Box::new(symbol_wr(head)), args }
}

} // verus!
