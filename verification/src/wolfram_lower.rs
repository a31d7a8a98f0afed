//! Lower a Mathematica form into session terms and requests, and read a
//! session term back as a form.

use vstd::prelude::*;

use crate::strings::{owned, str_eq};
use crate::term::{Atom, AtomV, Term, TermV, app_v, lemma_terms_view, term_view, terms_view};
use crate::wexpr::{WAtom, WAtomV, WExpr, WExprV, lemma_wexprs_view_prefix, spec_w_is_symbol, wexpr_view, wexprs_view};

verus! {

// ------------------------------------------------------------------ form → term

/// Session term of a form view: `True`/`False`/`Null` become boolean and null
/// atoms, `Span[…]` becomes `Range[…]`, a call with a non-symbol head becomes
/// `Application[head, args…]`.
pub open spec fn spec_lower_wexpr(w: WExprV) -> TermV
    decreases w, 1int,
{
    match w {
        WExprV::Atom(WAtomV::Number(n)) => TermV::Atom(AtomV::Number(n)),
        WExprV::Atom(WAtomV::String(s)) => TermV::Atom(AtomV::String(s)),
        WExprV::Atom(WAtomV::Symbol(s)) => if s == "True"@ {
            TermV::Atom(AtomV::Boolean(true))
        } else if s == "False"@ {
            TermV::Atom(AtomV::Boolean(false))
        } else if s == "Null"@ {
            TermV::Atom(AtomV::Null)
        } else {
            TermV::Atom(AtomV::Symbol(s))
        },
        WExprV::List(items) => TermV::List(spec_lower_all(items)),
        WExprV::Call { head, args } => match *head {
            WExprV::Atom(WAtomV::Symbol(name)) => if name == "Span"@ {
                app_v("Range"@, spec_lower_all(args))
            } else {
                app_v(name, spec_lower_all(args))
            },
            other => app_v("Application"@, seq![spec_lower_wexpr(other)] + spec_lower_all(args)),
        },
    }
}

/// Element-wise [`spec_lower_wexpr`].
pub open spec fn spec_lower_all(s: Seq<WExprV>) -> Seq<TermV>
    decreases s, 0int,
{
    if s.len() == 0 {
        seq![]
    } else {
        spec_lower_all(s.drop_last()).push(spec_lower_wexpr(s.last()))
    }
}

/// [`spec_lower_all`] keeps the length and lowers each element.
pub proof fn lemma_lower_all(s: Seq<WExprV>)
    ensures
        spec_lower_all(s).len() == s.len(),
        forall|i: int| 0 <= i < s.len() ==> #[trigger] spec_lower_all(s)[i] == spec_lower_wexpr(s[i]),
    decreases s.len(),
{
    if s.len() > 0 {
        lemma_lower_all(s.drop_last());
    }
}

fn lower_all(v: &Vec<WExpr>) -> (r: Vec<Term>)
    ensures
        terms_view(r@) == spec_lower_all(wexprs_view(v@)),
    decreases v@, 0int,
{
    let mut r: Vec<Term> = Vec::new();
    let mut i: usize = 0;
    proof {
        assert(v@.subrange(0, 0) =~= Seq::<WExpr>::empty());
    }
    while i < v.len()
        invariant
            i <= v.len(),
            terms_view(r@) == spec_lower_all(wexprs_view(v@.subrange(0, i as int))),
        decreases v.len() - i,
    {
        proof {
            assert(decreases_to!(v@ => v@[i as int]));
        }
        let t = lower_wexpr(&v[i]);
        proof {
            lemma_wexprs_view_prefix(v@, i as int);
            let nxt = wexprs_view(v@.subrange(0, i + 1));
            assert(nxt.drop_last() =~= wexprs_view(v@.subrange(0, i as int)));
        }
        let ghost old_r = r@;
        r.push(t);
        proof {
            assert(r@.drop_last() =~= old_r);
        }
        i = i + 1;
    }
    assert(v@.subrange(0, v.len() as int) =~= v@);
    r
}

/// Lower a form into a session term.
pub fn lower_wexpr(w: &WExpr) -> (t: Term)
    ensures
        t@ == spec_lower_wexpr(w@),
    decreases w, 1int,
{
    proof {
        reveal_with_fuel(wexpr_view, 2);
    }
    match w {
        WExpr::Atom(WAtom::Number(n)) => Term::Atom(Atom::Number(n.copy())),
        WExpr::Atom(WAtom::String(s)) => Term::Atom(Atom::String(s.clone())),
        WExpr::Atom(WAtom::Symbol(s)) => {
            if str_eq(s.as_str(), "True") {
                Term::Atom(Atom::Boolean(true))
            } else if str_eq(s.as_str(), "False") {
                Term::Atom(Atom::Boolean(false))
            } else if str_eq(s.as_str(), "Null") {
                Term::Atom(Atom::Null)
            } else {
                Term::Atom(Atom::Symbol(s.clone()))
            }
        },
        WExpr::List(items) => {
            proof {
                assert(decreases_to!(*w => (*w)->List_0));
            }
            Term::List(lower_all(items))
        },
        WExpr::Call { head, args } => {
            proof {
                assert(decreases_to!(*w => (*w)->args));
                assert(decreases_to!(*w => (*w)->head));
            }
            match &**head {
                WExpr::Atom(WAtom::Symbol(name)) => {
                    if str_eq(name.as_str(), "Span") {
                        lower_span_as_range(args)
                    } else {
                        Term::App { op: name.clone(), args: lower_all(args) }
                    }
                },
                other => {
                    let h = lower_wexpr(other);
                    let mut rest = lower_all(args);
                    let ghost rest_v = rest@;
                    let mut wrapped: Vec<Term> = Vec::new();
                    let ghost hv = h;
                    wrapped.push(h);
                    let ghost first = wrapped@;
                    wrapped.append(&mut rest);
                    proof {
                        reveal_with_fuel(terms_view, 2);
                        assert(first.drop_last() =~= Seq::<Term>::empty());
                        assert(first.last() == hv);
                        assert(terms_view(first) =~= seq![spec_lower_wexpr(wexpr_view(*other))]);
                        assert(wrapped@ =~= first + rest_v);
                        lemma_terms_view_concat(first, rest_v);
                    }
                    Term::App { op: owned("Application"), args: wrapped }
                },
            }
        },
    }
}

/// The view of a concatenation is the concatenation of the views.
pub proof fn lemma_terms_view_concat(a: Seq<Term>, b: Seq<Term>)
    ensures
        terms_view(a + b) == terms_view(a) + terms_view(b),
    decreases b.len(),
{
    if b.len() == 0 {
        assert(a + b =~= a);
        assert(terms_view(a) + terms_view(b) =~= terms_view(a));
    } else {
        lemma_terms_view_concat(a, b.drop_last());
        assert((a + b).drop_last() =~= a + b.drop_last());
        assert(terms_view(a) + terms_view(b) =~= (terms_view(a) + terms_view(b.drop_last())).push(term_view(b.last())));
    }
}

fn lower_span_as_range(args: &Vec<WExpr>) -> (t: Term)
    ensures
        t@ == app_v("Range"@, spec_lower_all(wexprs_view(args@))),
    decreases args@, 1int,
{
    Term::App { op: owned("Range"), args: lower_all(args) }
}

// ------------------------------------------------------------------ term → form

/// Form view of a session term: boolean and null atoms become the symbols
/// `True`/`False`/`Null`, `Application[h, args…]` becomes `h[args…]`.
pub open spec fn spec_wexpr_from_session(t: TermV) -> WExprV
    decreases t, 1int,
{
    match t {
        TermV::Atom(AtomV::Number(n)) => WExprV::Atom(WAtomV::Number(n)),
        TermV::Atom(AtomV::String(s)) => WExprV::Atom(WAtomV::String(s)),
        TermV::Atom(AtomV::Boolean(b)) => WExprV::Atom(WAtomV::Symbol(if b { "True"@ } else { "False"@ })),
        TermV::Atom(AtomV::Null) => WExprV::Atom(WAtomV::Symbol("Null"@)),
        TermV::Atom(AtomV::Symbol(s)) => WExprV::Atom(WAtomV::Symbol(s)),
        TermV::List(items) => WExprV::List(spec_from_session_all(items)),
        TermV::App { op, args } => if op == "Application"@ && args.len() > 0 {
            WExprV::Call {
                head: Box::new(spec_wexpr_from_session(args[0])),
                args: spec_from_session_all(args.drop_first()),
            }
        } else {
            WExprV::Call { head: Box::new(WExprV::Atom(WAtomV::Symbol(op))), args: spec_from_session_all(args) }
        },
    }
}

/// Element-wise [`spec_wexpr_from_session`].
pub open spec fn spec_from_session_all(s: Seq<TermV>) -> Seq<WExprV>
    decreases s, 0int,
{
    if s.len() == 0 {
        seq![]
    } else {
        spec_from_session_all(s.drop_last()).push(spec_wexpr_from_session(s.last()))
    }
}

/// [`spec_from_session_all`] keeps the length and converts each element.
pub proof fn lemma_from_session_all(s: Seq<TermV>)
    ensures
        spec_from_session_all(s).len() == s.len(),
        forall|i: int| 0 <= i < s.len() ==> #[trigger] spec_from_session_all(s)[i] == spec_wexpr_from_session(s[i]),
    decreases s.len(),
{
    if s.len() > 0 {
        lemma_from_session_all(s.drop_last());
    }
}

fn from_session_all(v: &Vec<Term>, start: usize) -> (r: Vec<WExpr>)
    requires
        start <= v.len(),
    ensures
        wexprs_view(r@) == spec_from_session_all(terms_view(v@).subrange(start as int, v.len() as int)),
    decreases v@, 0int,
{
    let mut r: Vec<WExpr> = Vec::new();
    let mut i: usize = start;
    proof {
        lemma_terms_view(v@);
        assert(terms_view(v@).subrange(start as int, start as int) =~= Seq::<TermV>::empty());
    }
    while i < v.len()
        invariant
            start <= i <= v.len(),
            terms_view(v@).len() == v.len(),
            forall|j: int| 0 <= j < v.len() ==> #[trigger] terms_view(v@)[j] == term_view(v@[j]),
            wexprs_view(r@) == spec_from_session_all(terms_view(v@).subrange(start as int, i as int)),
        decreases v.len() - i,
    {
        proof {
            assert(decreases_to!(v@ => v@[i as int]));
        }
        let w = wexpr_from_session(&v[i]);
        proof {
            let nxt = terms_view(v@).subrange(start as int, i + 1);
            assert(nxt.drop_last() =~= terms_view(v@).subrange(start as int, i as int));
            assert(nxt.last() == term_view(v@[i as int]));
        }
        let ghost old_r = r@;
        r.push(w);
        proof {
            assert(r@.drop_last() =~= old_r);
        }
        i = i + 1;
    }
    r
}

/// Read a session term back as a form.
pub fn wexpr_from_session(t: &Term) -> (w: WExpr)
    ensures
        w@ == spec_wexpr_from_session(t@),
    decreases t, 1int,
{
    proof {
        reveal_with_fuel(wexpr_view, 2);
    }
    match t {
        Term::Atom(Atom::Number(n)) => WExpr::Atom(WAtom::Number(n.copy())),
        Term::Atom(Atom::String(s)) => WExpr::Atom(WAtom::String(s.clone())),
        Term::Atom(Atom::Boolean(b)) => WExpr::Atom(WAtom::Symbol(if *b { owned("True") } else { owned("False") })),
        Term::Atom(Atom::Null) => WExpr::Atom(WAtom::Symbol(owned("Null"))),
        Term::Atom(Atom::Symbol(s)) => WExpr::Atom(WAtom::Symbol(s.clone())),
        Term::List(items) => {
            proof {
                assert(decreases_to!(*t => (*t)->List_0));
                assert(terms_view(items@).subrange(0, items.len() as int) =~= terms_view(items@)) by {
                    lemma_terms_view(items@);
                }
            }
            WExpr::List(from_session_all(items, 0))
        },
        Term::App { op, args } => {
            proof {
                assert(decreases_to!(*t => (*t)->args));
                lemma_terms_view(args@);
            }
            if str_eq(op.as_str(), "Application") && args.len() > 0 {
                proof {
                    assert(decreases_to!(args@ => args@[0]));
                    assert(terms_view(args@).subrange(1, args.len() as int) =~= terms_view(args@).drop_first());
                }
                let h = wexpr_from_session(&args[0]);
                WExpr::Call { head: Box::new(h), args: from_session_all(args, 1) }
            } else {
                proof {
                    assert(terms_view(args@).subrange(0, args.len() as int) =~= terms_view(args@));
                }
                WExpr::Call { head: Box::new(WExpr::Atom(WAtom::Symbol(op.clone()))), args: from_session_all(args, 0) }
            }
        },
    }
}

} // verus!

verus! {

// ------------------------------------------------------------------ round trip

/// Whether a form uses none of the heads that lowering renames: no `Span[…]`
/// call and no `Application[…]` call with arguments, at any depth.
pub open spec fn plain_form(w: WExprV) -> bool
    decreases w, 1int,
{
    match w {
        WExprV::Atom(_) => true,
        WExprV::List(items) => plain_all(items),
        WExprV::Call { head, args } => {
            &&& !spec_w_is_symbol(*head, "Span"@)
            &&& !(spec_w_is_symbol(*head, "Application"@) && args.len() > 0)
            &&& plain_form(*head)
            &&& plain_all(args)
        },
    }
}

/// Every element is a [`plain_form`].
pub open spec fn plain_all(s: Seq<WExprV>) -> bool
    decreases s, 0int,
{
    if s.len() == 0 {
        true
    } else {
        plain_all(s.drop_last()) && plain_form(s.last())
    }
}

/// Reading back a lowered form gives the form again, for every form that
/// uses no renamed head.
pub proof fn lemma_lower_then_read_back(w: WExprV)
    requires
        plain_form(w),
    ensures
        spec_wexpr_from_session(spec_lower_wexpr(w)) == w,
    decreases w, 1int,
{
    reveal_strlit("True");
    reveal_strlit("False");
    reveal_strlit("Null");
    reveal_strlit("Span");
    reveal_strlit("Application");
    assert("True"@.len() == 4 && "Null"@.len() == 4 && "False"@.len() == 5);
    assert("True"@[0] != "Null"@[0]);
    match w {
        WExprV::Atom(WAtomV::Symbol(s)) => {
            if s == "True"@ || s == "False"@ || s == "Null"@ {
            }
        },
        WExprV::Atom(_) => {},
        WExprV::List(items) => {
            lemma_lower_then_read_back_all(items);
        },
        WExprV::Call { head, args } => {
            lemma_lower_then_read_back_all(args);
            match *head {
                WExprV::Atom(WAtomV::Symbol(name)) => {
                    assert(name != "Span"@);
                    lemma_lower_all(args);
                },
                other => {
                    lemma_lower_then_read_back(other);
                    let lowered = seq![spec_lower_wexpr(other)] + spec_lower_all(args);
                    assert(lowered.drop_first() =~= spec_lower_all(args));
                    assert(lowered[0] == spec_lower_wexpr(other));
                },
            }
        },
    }
}

/// Element-wise [`lemma_lower_then_read_back`].
pub proof fn lemma_lower_then_read_back_all(s: Seq<WExprV>)
    requires
        plain_all(s),
    ensures
        spec_from_session_all(spec_lower_all(s)) == s,
    decreases s, 0int,
{
    if s.len() > 0 {
        lemma_lower_then_read_back_all(s.drop_last());
        lemma_lower_then_read_back(s.last());
        assert(spec_lower_all(s).drop_last() == spec_lower_all(s.drop_last()));
        assert(s.drop_last().push(s.last()) =~= s);
    }
}

/// Whether a session atom reads back as a symbol form.
pub open spec fn symbol_like(t: TermV) -> bool {
    t matches TermV::Atom(a) && (a is Symbol || a is Boolean || a is Null)
}

/// Whether a session term survives reading back and lowering: no symbol
/// named `True`, `False` or `Null`, no `Span[…]` application, and no
/// `Application[h, …]` whose head `h` reads back as a symbol, at any depth.
pub open spec fn plain_term(t: TermV) -> bool
    decreases t, 1int,
{
    match t {
        TermV::Atom(AtomV::Symbol(s)) => s != "True"@ && s != "False"@ && s != "Null"@,
        TermV::Atom(_) => true,
        TermV::List(items) => plain_terms(items),
        TermV::App { op, args } => {
            &&& op != "Span"@
            &&& (op == "Application"@ && args.len() > 0 ==> !symbol_like(args[0]))
            &&& plain_terms(args)
        },
    }
}

/// Every element is a [`plain_term`].
pub open spec fn plain_terms(s: Seq<TermV>) -> bool
    decreases s, 0int,
{
    if s.len() == 0 {
        true
    } else {
        plain_terms(s.drop_last()) && plain_term(s.last())
    }
}

proof fn lemma_plain_terms_each(s: Seq<TermV>, i: int)
    requires
        plain_terms(s),
        0 <= i < s.len(),
    ensures
        plain_term(s[i]),
    decreases s.len(),
{
    if i < s.len() - 1 {
        lemma_plain_terms_each(s.drop_last(), i);
    }
}

proof fn lemma_plain_terms_drop_first(s: Seq<TermV>)
    requires
        plain_terms(s),
        s.len() > 0,
    ensures
        plain_terms(s.drop_first()),
    decreases s.len(),
{
    if s.len() > 1 {
        lemma_plain_terms_drop_first(s.drop_last());
        assert(s.drop_first().drop_last() =~= s.drop_last().drop_first());
        assert(s.drop_first().last() == s.last());
    }
}

/// Lowering a session term's form view gives the term again, for every
/// term that uses no renamed head or name.
pub proof fn lemma_read_back_then_lower(t: TermV)
    requires
        plain_term(t),
    ensures
        spec_lower_wexpr(spec_wexpr_from_session(t)) == t,
    decreases t, 1int,
{
    reveal_strlit("True");
    reveal_strlit("False");
    reveal_strlit("Null");
    reveal_strlit("Span");
    reveal_strlit("Application");
    assert("True"@.len() == 4 && "Null"@.len() == 4 && "False"@.len() == 5);
    assert("True"@[0] != "Null"@[0]);
    match t {
        TermV::Atom(_) => {},
        TermV::List(items) => {
            lemma_read_back_then_lower_all(items);
        },
        TermV::App { op, args } => {
            if op == "Application"@ && args.len() > 0 {
                lemma_plain_terms_each(args, 0);
                lemma_plain_terms_drop_first(args);
                lemma_read_back_then_lower(args[0]);
                lemma_read_back_then_lower_all(args.drop_first());
                let h = spec_wexpr_from_session(args[0]);
                assert(!(h is Atom && h->Atom_0 is Symbol));
                let lowered = seq![spec_lower_wexpr(h)] + spec_lower_all(spec_from_session_all(args.drop_first()));
                assert(lowered =~= args);
            } else {
                lemma_read_back_then_lower_all(args);
            }
        },
    }
}

/// Element-wise [`lemma_read_back_then_lower`].
pub proof fn lemma_read_back_then_lower_all(s: Seq<TermV>)
    requires
        plain_terms(s),
    ensures
        spec_lower_all(spec_from_session_all(s)) == s,
    decreases s, 0int,
{
    if s.len() > 0 {
        lemma_read_back_then_lower_all(s.drop_last());
        lemma_read_back_then_lower(s.last());
        assert(spec_from_session_all(s).drop_last() == spec_from_session_all(s.drop_last()));
        assert(s.drop_last().push(s.last()) =~= s);
    }
}


// ------------------------------------------------------------------ laws

/// How forms become session terms: the symbols `True`, `False` and `Null`
/// become the boolean and null atoms and other symbols stay symbols;
/// `Span[…]` becomes `Range[…]`; any other named call keeps its name and
/// lowers its arguments in order; a call whose head is not a symbol becomes
/// `Application[head, args…]`; a list lowers item by item.
pub proof fn lemma_lower_wexpr_cases(name: Seq<char>, h: WExprV, args: Seq<WExprV>)
    ensures
        spec_lower_wexpr(WExprV::Atom(WAtomV::Symbol("True"@))) == TermV::Atom(AtomV::Boolean(true)),
        spec_lower_wexpr(WExprV::Atom(WAtomV::Symbol("False"@))) == TermV::Atom(AtomV::Boolean(false)),
        spec_lower_wexpr(WExprV::Atom(WAtomV::Symbol("Null"@))) == TermV::Atom(AtomV::Null),
        (name != "True"@ && name != "False"@ && name != "Null"@) ==> spec_lower_wexpr(
            WExprV::Atom(WAtomV::Symbol(name)),
        ) == TermV::Atom(AtomV::Symbol(name)),
        spec_lower_wexpr(WExprV::Call { head: Box::new(WExprV::Atom(WAtomV::Symbol("Span"@))), args }) == app_v(
            "Range"@,
            Seq::new(args.len(), |i: int| spec_lower_wexpr(args[i])),
        ),
        name != "Span"@ ==> spec_lower_wexpr(WExprV::Call { head: Box::new(WExprV::Atom(WAtomV::Symbol(name))), args })
            == app_v(name, Seq::new(args.len(), |i: int| spec_lower_wexpr(args[i]))),
        !(h is Atom && h->Atom_0 is Symbol) ==> spec_lower_wexpr(WExprV::Call { head: Box::new(h), args }) == app_v(
            "Application"@,
            seq![spec_lower_wexpr(h)] + Seq::new(args.len(), |i: int| spec_lower_wexpr(args[i])),
        ),
        spec_lower_wexpr(WExprV::List(args)) == TermV::List(Seq::new(args.len(), |i: int| spec_lower_wexpr(args[i]))),
{
    reveal_strlit("True");
    reveal_strlit("False");
    reveal_strlit("Null");
    assert("True"@.len() == 4 && "False"@.len() == 5 && "Null"@.len() == 4);
    assert("True"@[0] != "Null"@[0]);
    lemma_lower_all(args);
    assert(spec_lower_all(args) =~= Seq::new(args.len(), |i: int| spec_lower_wexpr(args[i])));
}


/// How session terms read back as forms: booleans are the symbols `True`
/// and `False`, null is `Null`, `Application[h, a…]` is `h'[a'…]`, and any
/// other application keeps its name with its arguments read back in order.
pub proof fn lemma_read_back_cases(op: Seq<char>, h: TermV, args: Seq<TermV>)
    ensures
        spec_wexpr_from_session(TermV::Atom(AtomV::Boolean(true))) == WExprV::Atom(WAtomV::Symbol("True"@)),
        spec_wexpr_from_session(TermV::Atom(AtomV::Boolean(false))) == WExprV::Atom(WAtomV::Symbol("False"@)),
        spec_wexpr_from_session(TermV::Atom(AtomV::Null)) == WExprV::Atom(WAtomV::Symbol("Null"@)),
        spec_wexpr_from_session(app_v("Application"@, seq![h] + args)) == (WExprV::Call {
            head: Box::new(spec_wexpr_from_session(h)),
            args: Seq::new(args.len(), |i: int| spec_wexpr_from_session(args[i])),
        }),
        op != "Application"@ ==> spec_wexpr_from_session(app_v(op, args)) == (WExprV::Call {
            head: Box::new(WExprV::Atom(WAtomV::Symbol(op))),
            args: Seq::new(args.len(), |i: int| spec_wexpr_from_session(args[i])),
        }),
{
    lemma_from_session_all(args);
    assert(spec_from_session_all(args) =~= Seq::new(args.len(), |i: int| spec_wexpr_from_session(args[i])));
    let ha = seq![h] + args;
    assert(ha.drop_first() =~= args);
    assert(ha[0] == h);
}

} // verus!
