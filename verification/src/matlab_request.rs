//! Lift a MATLAB-lowered session term into a dialect-neutral request.

use vstd::prelude::*;

use crate::request::{
    BindingEvaluationPolicy, BindingKind, ControlPlan, ControlPlanV, Request, RequestV, SessionCommand,
    SessionCommandV, lemma_requests_view_prefix, request_view, requests_view,
};
use crate::strings::{owned, str_eq};
use crate::term::{Atom, AtomV, Term, TermV, app_v, lemma_terms_view, term_view, terms_view};

verus! {

/// Request of a MATLAB-lowered term: `Set[sym, v]` defines `sym` (value
/// evaluated before it is stored), `CompoundExpression[…]` runs each step in
/// order, `If`/`Branch` with two or three arguments branch, `While`/`LoopWhile`
/// with two arguments loop, `Span[…]` is evaluated as `Range[…]`; anything
/// else is evaluated as a term.
pub open spec fn spec_matlab_request(t: TermV) -> RequestV
    decreases t, 1int,
{
    match t {
        TermV::App { op, args } => if op == "Set"@ && args.len() == 2 && args[0] is Atom
            && args[0]->Atom_0 is Symbol {
            RequestV::Command(
                SessionCommandV::Define {
                    symbol: args[0]->Atom_0->Symbol_0,
                    value: args[1],
                    kind: BindingKind::Session,
                    evaluation: BindingEvaluationPolicy::EvaluateBeforeStore,
                },
            )
        } else if op == "CompoundExpression"@ {
            RequestV::Control(ControlPlanV::Sequence { steps: spec_matlab_requests(args) })
        } else if (op == "If"@ || op == "Branch"@) && args.len() == 2 {
            RequestV::Control(
                ControlPlanV::Branch {
                    condition: args[0],
                    then_branch: Box::new(spec_matlab_request(args[1])),
                    else_branch: None,
                },
            )
        } else if (op == "If"@ || op == "Branch"@) && args.len() == 3 {
            RequestV::Control(
                ControlPlanV::Branch {
                    condition: args[0],
                    then_branch: Box::new(spec_matlab_request(args[1])),
                    else_branch: Some(Box::new(spec_matlab_request(args[2]))),
                },
            )
        } else if (op == "While"@ || op == "LoopWhile"@) && args.len() == 2 {
            RequestV::Control(
                ControlPlanV::LoopWhile { condition: args[0], body: Box::new(spec_matlab_request(args[1])) },
            )
        } else if op == "Span"@ {
            RequestV::Term(app_v("Range"@, args))
        } else {
            RequestV::Term(t)
        },
        _ => RequestV::Term(t),
    }
}

/// Element-wise [`spec_matlab_request`].
pub open spec fn spec_matlab_requests(s: Seq<TermV>) -> Seq<RequestV>
    decreases s, 0int,
{
    if s.len() == 0 {
        seq![]
    } else {
        spec_matlab_requests(s.drop_last()).push(spec_matlab_request(s.last()))
    }
}

fn lower_requests(args: Vec<Term>) -> (r: Vec<Request>)
    ensures
        requests_view(r@) == spec_matlab_requests(terms_view(args@)),
    decreases args@, 0int,
{
    let ghost orig = args@;
    let mut rest = args;
    let mut out: Vec<Request> = Vec::new();
    let mut i: usize = 0;
    let n = rest.len();
    proof {
        assert(orig.subrange(0, 0) =~= Seq::<Term>::empty());
        assert(rest@ =~= orig.subrange(0, orig.len() as int));
    }
    while i < n
        invariant
            n == orig.len(),
            orig == args@,
            i <= n,
            out@.len() == i,
            rest@ == orig.subrange(i as int, n as int),
            requests_view(out@) == spec_matlab_requests(terms_view(orig.subrange(0, i as int))),
        decreases n - i,
    {
        let t = rest.remove(0);
        proof {
            assert(t == orig[i as int]);
            assert(decreases_to!(orig => orig[i as int]));
            assert(rest@ =~= orig.subrange(i + 1, n as int));
        }
        let ghost tv = term_view(t);
        let q = matlab_lower_request(t);
        proof {
            crate::term::lemma_terms_view_prefix(orig, i as int);
            let nxt = terms_view(orig.subrange(0, i + 1));
            assert(nxt.drop_last() =~= terms_view(orig.subrange(0, i as int)));
            assert(nxt.last() == tv);
        }
        let ghost old_out = out@;
        out.push(q);
        proof {
            lemma_requests_view_prefix(out@, i as int);
            assert(out@.subrange(0, i as int) =~= old_out);
            assert(out@.subrange(0, i + 1) =~= out@);
            assert(old_out.subrange(0, i as int) =~= old_out);
        }
        i = i + 1;
    }
    proof {
        assert(orig.subrange(0, n as int) =~= orig);
    }
    out
}

/// Lift a MATLAB-lowered term into a request.
#[verifier::rlimit(50)]
pub fn matlab_lower_request(t: Term) -> (r: Request)
    ensures
        r@ == spec_matlab_request(t@),
    decreases t, 1int,
{
    proof {
        reveal_with_fuel(request_view, 2);
        reveal_strlit("Set");
        reveal_strlit("CompoundExpression");
        reveal_strlit("If");
        reveal_strlit("Branch");
        reveal_strlit("While");
        reveal_strlit("LoopWhile");
        reveal_strlit("Span");
        assert("Set"@.len() == 3 && "CompoundExpression"@.len() == 18 && "If"@.len() == 2);
        assert("Branch"@.len() == 6 && "While"@.len() == 5 && "LoopWhile"@.len() == 9 && "Span"@.len() == 4);
    }
    let ghost tv = term_view(t);
    match t {
        Term::App { op, args } => {
            proof {
                lemma_terms_view(args@);
                assert(tv == app_v(op@, terms_view(args@)));
            }
            let ghost orig = args@;
            let mut args = args;
            let n = args.len();
            if str_eq(op.as_str(), "Set") && n == 2 {
                let is_sym = match &args[0] {
                    Term::Atom(Atom::Symbol(_)) => true,
                    _ => false,
                };
                if is_sym {
                    let value = args.pop().unwrap();
                    let lhs = args.pop().unwrap();
                    proof {
                        assert(value == orig[1]);
                        assert(lhs == orig[0]);
                    }
                    match lhs {
                        Term::Atom(Atom::Symbol(sym)) => {
                            return Request::Command(
                                SessionCommand::Define {
                                    symbol: sym,
                                    value,
                                    kind: BindingKind::Session,
                                    evaluation: BindingEvaluationPolicy::EvaluateBeforeStore,
                                },
                            );
                        },
                        _ => {
                            proof {
                                assert(false);
                            }
                            return Request::Term(Term::App { op, args });
                        },
                    }
                }
                Request::Term(Term::App { op, args })
            } else if str_eq(op.as_str(), "CompoundExpression") {
                proof {
                    assert(decreases_to!(tv => terms_view(orig)));
                }
                let steps = lower_requests(args);
                Request::Control(ControlPlan::Sequence { steps })
            } else if (str_eq(op.as_str(), "If") || str_eq(op.as_str(), "Branch")) && (n == 2 || n == 3) {
                let else_branch = if n == 3 {
                    let e = args.pop().unwrap();
                    proof {
                        assert(e == orig[2]);
                        assert(decreases_to!(orig => orig[2]));
                    }
                    Some(Box::new(matlab_lower_request(e)))
                } else {
                    None
                };
                let then_t = args.pop().unwrap();
                let cond = args.pop().unwrap();
                proof {
                    assert(then_t == orig[1]);
                    assert(cond == orig[0]);
                    assert(decreases_to!(orig => orig[1]));
                }
                let then_branch = Box::new(matlab_lower_request(then_t));
                Request::Control(ControlPlan::Branch { condition: cond, then_branch, else_branch })
            } else if (str_eq(op.as_str(), "While") || str_eq(op.as_str(), "LoopWhile")) && n == 2 {
                let body_t = args.pop().unwrap();
                let cond = args.pop().unwrap();
                proof {
                    assert(body_t == orig[1]);
                    assert(cond == orig[0]);
                    assert(decreases_to!(orig => orig[1]));
                }
                let body = Box::new(matlab_lower_request(body_t));
                Request::Control(ControlPlan::LoopWhile { condition: cond, body })
            } else if str_eq(op.as_str(), "Span") {
                Request::Term(Term::App { op: owned("Range"), args })
            } else {
                Request::Term(Term::App { op, args })
            }
        },
        other => Request::Term(other),
    }
}


// ------------------------------------------------------------------ laws

/// The control head names are pairwise different.
proof fn lemma_control_names_distinct()
    ensures
        "If"@ != "Set"@,
        "If"@ != "CompoundExpression"@,
        "Branch"@ != "Set"@,
        "Branch"@ != "CompoundExpression"@,
        "While"@ != "Set"@,
        "While"@ != "CompoundExpression"@,
        "While"@ != "If"@,
        "While"@ != "Branch"@,
        "LoopWhile"@ != "Set"@,
        "LoopWhile"@ != "CompoundExpression"@,
        "LoopWhile"@ != "If"@,
        "LoopWhile"@ != "Branch"@,
        "Span"@ != "Set"@,
        "Span"@ != "CompoundExpression"@,
        "Span"@ != "If"@,
        "Span"@ != "Branch"@,
        "Span"@ != "While"@,
        "Span"@ != "LoopWhile"@,
        "CompoundExpression"@ != "Set"@,
{
    reveal_strlit("Set");
    reveal_strlit("CompoundExpression");
    reveal_strlit("If");
    reveal_strlit("Branch");
    reveal_strlit("While");
    reveal_strlit("LoopWhile");
    reveal_strlit("Span");
    assert("Set"@.len() == 3 && "CompoundExpression"@.len() == 18 && "If"@.len() == 2);
    assert("Branch"@.len() == 6 && "While"@.len() == 5 && "LoopWhile"@.len() == 9 && "Span"@.len() == 4);
}

/// `if c t else e end` (`If[c, t, e]`) becomes a branch on `c` whose then
/// branch is the request of `t` and whose else branch is the request of
/// `e`: the else body is kept, and it is requested exactly as it would be as
/// the then body of `If[c, e]`. Without an else body (`If[c, t]`) there is
/// no else branch. `Branch` is read as `If`.
pub proof fn lemma_if_branches(c: TermV, t: TermV, e: TermV)
    ensures
        spec_matlab_request(app_v("If"@, seq![c, t, e])) == RequestV::Control(
            ControlPlanV::Branch {
                condition: c,
                then_branch: Box::new(spec_matlab_request(t)),
                else_branch: Some(Box::new(spec_matlab_request(e))),
            },
        ),
        spec_matlab_request(app_v("If"@, seq![c, t])) == RequestV::Control(
            ControlPlanV::Branch { condition: c, then_branch: Box::new(spec_matlab_request(t)), else_branch: None },
        ),
        spec_matlab_request(app_v("If"@, seq![c, t, e])) matches RequestV::Control(
            ControlPlanV::Branch { else_branch: Some(eb), .. },
        ) && spec_matlab_request(app_v("If"@, seq![c, e])) matches RequestV::Control(
            ControlPlanV::Branch { then_branch: tb, .. },
        ) && *eb == *tb,
        spec_matlab_request(app_v("Branch"@, seq![c, t, e])) == spec_matlab_request(app_v("If"@, seq![c, t, e])),
        spec_matlab_request(app_v("Branch"@, seq![c, t])) == spec_matlab_request(app_v("If"@, seq![c, t])),
{
    lemma_control_names_distinct();
}

/// `while c b end` (`While[c, b]`) loops on `c` over the request of `b`;
/// `x = v` with a symbol `x` defines `x` in the session, evaluating `v`
/// before it is stored; a compound's steps are the requests of its parts,
/// in order; `Span[…]` is the term `Range[…]` with the same arguments.
pub proof fn lemma_other_requests(c: TermV, b: TermV, x: Seq<char>, v: TermV, parts: Seq<TermV>)
    ensures
        spec_matlab_request(app_v("While"@, seq![c, b])) == RequestV::Control(
            ControlPlanV::LoopWhile { condition: c, body: Box::new(spec_matlab_request(b)) },
        ),
        spec_matlab_request(app_v("LoopWhile"@, seq![c, b])) == spec_matlab_request(app_v("While"@, seq![c, b])),
        spec_matlab_request(app_v("Set"@, seq![TermV::Atom(AtomV::Symbol(x)), v])) == RequestV::Command(
            SessionCommandV::Define {
                symbol: x,
                value: v,
                kind: BindingKind::Session,
                evaluation: BindingEvaluationPolicy::EvaluateBeforeStore,
            },
        ),
        spec_matlab_request(app_v("CompoundExpression"@, parts)) == RequestV::Control(
            ControlPlanV::Sequence { steps: Seq::new(parts.len(), |i: int| spec_matlab_request(parts[i])) },
        ),
        spec_matlab_request(app_v("Span"@, parts)) == RequestV::Term(app_v("Range"@, parts)),
{
    lemma_control_names_distinct();
    lemma_matlab_requests_elements(parts);
}

/// The requests of a sequence of terms are the requests of its elements.
proof fn lemma_matlab_requests_elements(s: Seq<TermV>)
    ensures
        spec_matlab_requests(s) == Seq::new(s.len(), |i: int| spec_matlab_request(s[i])),
    decreases s.len(),
{
    if s.len() > 0 {
        lemma_matlab_requests_elements(s.drop_last());
        assert forall|i: int| 0 <= i < s.len() - 1 implies s.drop_last()[i] == #[trigger] s[i] by {}
    }
    assert(spec_matlab_requests(s) =~= Seq::new(s.len(), |i: int| spec_matlab_request(s[i])));
}

} // verus!
