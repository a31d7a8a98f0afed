//! Bridge terms: the frontend tree the engine evaluates (`head[args…]` with
//! any head), and the structural rules it applies without arithmetic.
//!
//! A bridge term is modelled by the form view it corresponds to one for one.

use vstd::prelude::*;

use crate::number::{Number, parse_number_literal, spec_number_literal};
use crate::strings::str_eq;
use crate::wexpr::{WAtomV, WExprV, spec_w_head_name, spec_w_is_neg_one, spec_w_is_symbol};

verus! {

/// Atomic value of a bridge term.
#[derive(Debug, Clone, PartialEq, Eq)]
pub enum Atom {
    /// Number.
    Number(Number),
    /// String literal.
    String(String),
    /// Symbol name.
    Symbol(String),
}

/// Bridge expression tree.
#[derive(Debug, PartialEq, Eq)]
pub enum Term {
    /// Atom.
    Atom(Atom),
    /// Ordered collection.
    List(Vec<Term>),
    /// Application `head(args…)`.
    App {
        /// Head term (usually a symbol).
        head: Box<Term>,
        /// Arguments.
        args: Vec<Term>,
    },
}

/// View of an atom.
pub open spec fn atom_view(a: Atom) -> WAtomV {
    match a {
        Atom::Number(n) => WAtomV::Number(n@),
        Atom::String(s) => WAtomV::String(s@),
        Atom::Symbol(s) => WAtomV::Symbol(s@),
    }
}

/// View of a bridge term.
pub open spec fn bridge_view(t: Term) -> WExprV
    decreases t,
{
    match t {
        Term::Atom(a) => WExprV::Atom(atom_view(a)),
        Term::List(items) => WExprV::List(bridges_view(items@)),
        Term::App { head, args } => WExprV::Call { head: Box::new(bridge_view(*head)), args: bridges_view(args@) },
    }
}

/// Element-wise view of a sequence of bridge terms.
pub open spec fn bridges_view(s: Seq<Term>) -> Seq<WExprV>
    decreases s,
{
    if s.len() == 0 {
        seq![]
    } else {
        bridges_view(s.drop_last()).push(bridge_view(s.last()))
    }
}

/// The element-wise view keeps the length and views each element.
pub proof fn lemma_bridges_view(s: Seq<Term>)
    ensures
        bridges_view(s).len() == s.len(),
        forall|i: int| 0 <= i < s.len() ==> #[trigger] bridges_view(s)[i] == bridge_view(s[i]),
    decreases s.len(),
{
    if s.len() > 0 {
        lemma_bridges_view(s.drop_last());
    }
}

/// Viewing a sequence with one more element pushes that element's view.
pub proof fn lemma_bridges_push(s: Seq<Term>, t: Term)
    ensures
        bridges_view(s.push(t)) == bridges_view(s).push(bridge_view(t)),
{
    assert(s.push(t).drop_last() =~= s);
}

impl View for Term {
    type V = WExprV;

    open spec fn view(&self) -> WExprV {
        bridge_view(*self)
    }
}

/// Kernel number of a bridge term that is a number atom.
pub fn number_from_term(term: &Term) -> (r: Option<&Number>)
    ensures
        r matches Some(n) ==> term@ == WExprV::Atom(WAtomV::Number(n@)),
        r is None ==> !(term@ matches WExprV::Atom(WAtomV::Number(_))),
{
    match term {
        Term::Atom(Atom::Number(n)) => Some(n),
        _ => None,
    }
}

/// Field-by-field copy of a number.
fn copy_number(n: &Number) -> (r: Number)
    ensures
        r@ == n@,
{
    n.copy()
}

/// Whether two numbers have the same view.
pub fn number_eq(a: &Number, b: &Number) -> (r: bool)
    ensures
        r == (a@ == b@),
{
    match (a, b) {
        (Number::Integer(x), Number::Integer(y)) => str_eq(x.as_str(), y.as_str()),
        (Number::Rational(p, q), Number::Rational(r, s)) => str_eq(p.as_str(), r.as_str()) && str_eq(q.as_str(), s.as_str()),
        (Number::Machine(x), Number::Machine(y)) => str_eq(x.as_str(), y.as_str()),
        _ => false,
    }
}

fn atom_eq(a: &Atom, b: &Atom) -> (r: bool)
    ensures
        r == (atom_view(*a) == atom_view(*b)),
{
    match (a, b) {
        (Atom::Number(x), Atom::Number(y)) => number_eq(x, y),
        (Atom::String(x), Atom::String(y)) => str_eq(x.as_str(), y.as_str()),
        (Atom::Symbol(x), Atom::Symbol(y)) => str_eq(x.as_str(), y.as_str()),
        _ => false,
    }
}

/// Whether two bridge terms have the same view.
pub fn term_eq(a: &Term, b: &Term) -> (r: bool)
    ensures
        r == (a@ == b@),
    decreases a, 1int,
{
    match (a, b) {
        (Term::Atom(x), Term::Atom(y)) => atom_eq(x, y),
        (Term::List(xs), Term::List(ys)) => {
            proof {
                assert(decreases_to!(*a => (*a)->List_0));
            }
            terms_eq(xs, ys)
        },
        (Term::App { head: h1, args: a1 }, Term::App { head: h2, args: a2 }) => {
            proof {
                assert(decreases_to!(*a => (*a)->head));
                assert(decreases_to!(*a => (*a)->args));
            }
            let heads = term_eq(h1, h2);
            if !heads {
                return false;
            }
            terms_eq(a1, a2)
        },
        _ => false,
    }
}

/// Whether two sequences of bridge terms have equal views.
pub fn terms_eq(xs: &Vec<Term>, ys: &Vec<Term>) -> (r: bool)
    ensures
        r == (bridges_view(xs@) == bridges_view(ys@)),
    decreases xs, 0int,
{
    proof {
        lemma_bridges_view(xs@);
        lemma_bridges_view(ys@);
    }
    if xs.len() != ys.len() {
        return false;
    }
    let mut i: usize = 0;
    while i < xs.len()
        invariant
            i <= xs.len(),
            xs.len() == ys.len(),
            bridges_view(xs@).len() == xs.len(),
            bridges_view(ys@).len() == ys.len(),
            forall|k: int| 0 <= k < xs@.len() ==> #[trigger] bridges_view(xs@)[k] == bridge_view(xs@[k]),
            forall|k: int| 0 <= k < ys@.len() ==> #[trigger] bridges_view(ys@)[k] == bridge_view(ys@[k]),
            forall|k: int| 0 <= k < i ==> bridges_view(xs@)[k] == bridges_view(ys@)[k],
        decreases xs.len() - i,
    {
        proof {
            assert(decreases_to!(*xs => xs@));
            assert(decreases_to!(xs@ => xs@[i as int]));
        }
        if !term_eq(&xs[i], &ys[i]) {
            assert(bridges_view(xs@)[i as int] != bridges_view(ys@)[i as int]);
            return false;
        }
        i = i + 1;
    }
    assert(bridges_view(xs@) =~= bridges_view(ys@));
    true
}

/// Field-by-field copy of a bridge term.
pub fn copy_term(t: &Term) -> (r: Term)
    ensures
        r@ == t@,
    decreases t, 1int,
{
    match t {
        Term::Atom(Atom::Number(n)) => Term::Atom(Atom::Number(copy_number(n))),
        Term::Atom(Atom::String(s)) => Term::Atom(Atom::String(s.clone())),
        Term::Atom(Atom::Symbol(s)) => Term::Atom(Atom::Symbol(s.clone())),
        Term::List(items) => {
            proof {
                assert(decreases_to!(*t => (*t)->List_0));
            }
            Term::List(copy_terms(items))
        },
        Term::App { head, args } => {
            proof {
                assert(decreases_to!(*t => (*t)->head));
                assert(decreases_to!(*t => (*t)->args));
            }
            let h = copy_term(head);
            let a = copy_terms(args);
            Term::App { head: Box::new(h), args: a }
        },
    }
}

/// Copy of each bridge term in order.
pub fn copy_terms(v: &Vec<Term>) -> (r: Vec<Term>)
    ensures
        bridges_view(r@) == bridges_view(v@),
    decreases v, 0int,
{
    let mut out: Vec<Term> = Vec::new();
    let mut i: usize = 0;
    proof {
        assert(v@.subrange(0, 0) =~= Seq::<Term>::empty());
        assert(out@ =~= Seq::<Term>::empty());
    }
    while i < v.len()
        invariant
            i <= v.len(),
            bridges_view(out@) == bridges_view(v@.subrange(0, i as int)),
        decreases v.len() - i,
    {
        proof {
            assert(decreases_to!(*v => v@));
            assert(decreases_to!(v@ => v@[i as int]));
        }
        let c = copy_term(&v[i]);
        let ghost before = out@;
        out.push(c);
        proof {
            lemma_bridges_push(before, c);
            assert(v@.subrange(0, i + 1) =~= v@.subrange(0, i as int).push(v@[i as int]));
            lemma_bridges_push(v@.subrange(0, i as int), v@[i as int]);
        }
        i = i + 1;
    }
    assert(v@.subrange(0, v.len() as int) =~= v@);
    out
}

impl Term {
    /// Symbol atom.
    pub fn symbol(name: String) -> (t: Term)
        ensures
            t@ == WExprV::Atom(WAtomV::Symbol(name@)),
    {
        Term::Atom(Atom::Symbol(name))
    }

    /// Exact integer atom.
    pub fn small_int(n: i64) -> (t: Term)
        ensures
            t@ == WExprV::Atom(WAtomV::Number(crate::number::NumberV::Integer(crate::number::canonical_decimal(n as int)))),
    {
        Term::Atom(Atom::Number(Number::small_int(n)))
    }

    /// Number atom.
    pub fn number(n: Number) -> (t: Term)
        ensures
            t@ == WExprV::Atom(WAtomV::Number(n@)),
    {
        Term::Atom(Atom::Number(n))
    }

    /// Number atom of a literal, if the text is a number literal.
    pub fn from_number_literal(text: &str) -> (r: Option<Term>)
        ensures
            r matches Some(t) ==> spec_number_literal(text@) matches Some(n) && t@ == WExprV::Atom(WAtomV::Number(n)),
            r is None ==> spec_number_literal(text@) is None,
    {
        match parse_number_literal(text) {
            Some(n) => Some(Term::Atom(Atom::Number(n))),
            None => None,
        }
    }

    /// `head[args…]` with a symbol head.
    pub fn app(head: String, args: Vec<Term>) -> (t: Term)
        ensures
            t@ == (WExprV::Call { head: Box::new(WExprV::Atom(WAtomV::Symbol(head@))), args: bridges_view(args@) }),
    {
        proof {
            reveal_with_fuel(bridge_view, 2);
        }
        Term::App { head: Box::new(Term::Atom(Atom::Symbol(head))), args }
    }

    /// Head symbol name, if any.
    pub fn head_name(&self) -> (r: Option<&str>)
        ensures
            r matches Some(s) ==> spec_w_head_name(self@) == Some(s@),
            r is None ==> spec_w_head_name(self@) is None,
    {
        proof {
            reveal_strlit("List");
            reveal_with_fuel(bridge_view, 2);
        }
        match self {
            Term::App { head, .. } => match &**head {
                Term::Atom(Atom::Symbol(s)) => Some(s.as_str()),
                _ => None,
            },
            Term::List(_) => Some("List"),
            Term::Atom(Atom::Symbol(s)) => Some(s.as_str()),
            _ => None,
        }
    }

    /// The number, when this is a number atom.
    pub fn as_number(&self) -> (r: Option<&Number>)
        ensures
            r matches Some(n) ==> self@ == WExprV::Atom(WAtomV::Number(n@)),
            r is None ==> !(self@ matches WExprV::Atom(WAtomV::Number(_))),
    {
        number_from_term(self)
    }

    /// Whether this is the symbol `name`.
    pub fn is_symbol(&self, name: &str) -> (r: bool)
        ensures
            r == spec_w_is_symbol(self@, name@),
    {
        match self {
            Term::Atom(Atom::Symbol(s)) => str_eq(s.as_str(), name),
            _ => false,
        }
    }

    /// Whether this is the exact integer `-1`.
    pub fn is_neg_one(&self) -> (r: bool)
        ensures
            r == spec_w_is_neg_one(self@),
    {
        match self {
            Term::Atom(Atom::Number(n)) => n.is_neg_one(),
            _ => false,
        }
    }
}

} // verus!
