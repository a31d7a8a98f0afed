//! Session terms: the dialect-neutral tree that forms lower into and that
//! renderers read back (atoms, collections, named applications).

use vstd::prelude::*;

use crate::number::{Number, NumberV, canonical_decimal, parse_number_literal, spec_is_neg_one, spec_number_literal};

verus! {

/// Atomic session value.
#[derive(Debug, Clone, PartialEq, Eq)]
pub enum Atom {
    /// Number.
    Number(Number),
    /// String.
    String(String),
    /// Symbol name.
    Symbol(String),
    /// Boolean.
    Boolean(bool),
    /// The null value.
    Null,
}

/// Session term.
#[derive(Debug, PartialEq, Eq)]
pub enum Term {
    /// Atom.
    Atom(Atom),
    /// Ordered collection.
    List(Vec<Term>),
    /// Application of a named operator.
    App {
        /// Operator name.
        op: String,
        /// Arguments.
        args: Vec<Term>,
    },
}

/// Character view of an [`Atom`].
pub enum AtomV {
    /// Number.
    Number(NumberV),
    /// String.
    String(Seq<char>),
    /// Symbol.
    Symbol(Seq<char>),
    /// Boolean.
    Boolean(bool),
    /// Null.
    Null,
}

/// Character view of a [`Term`].
pub enum TermV {
    /// Atom.
    Atom(AtomV),
    /// Collection.
    List(Seq<TermV>),
    /// Application.
    App { op: Seq<char>, args: Seq<TermV> },
}

/// View of an atom.
pub open spec fn atom_view(a: Atom) -> AtomV {
    match a {
        Atom::Number(n) => AtomV::Number(n@),
        Atom::String(s) => AtomV::String(s@),
        Atom::Symbol(s) => AtomV::Symbol(s@),
        Atom::Boolean(b) => AtomV::Boolean(b),
        Atom::Null => AtomV::Null,
    }
}

/// View of a term.
pub open spec fn term_view(t: Term) -> TermV
    decreases t,
{
    match t {
        Term::Atom(a) => TermV::Atom(atom_view(a)),
        Term::List(items) => TermV::List(terms_view(items@)),
        Term::App { op, args } => TermV::App { op: op@, args: terms_view(args@) },
    }
}

/// Element-wise view of a sequence of terms.
pub open spec fn terms_view(s: Seq<Term>) -> Seq<TermV>
    decreases s,
{
    if s.len() == 0 {
        seq![]
    } else {
        terms_view(s.drop_last()).push(term_view(s.last()))
    }
}

/// The element-wise view has the same length and views each element.
pub proof fn lemma_terms_view(s: Seq<Term>)
    ensures
        terms_view(s).len() == s.len(),
        forall|i: int| 0 <= i < s.len() ==> #[trigger] terms_view(s)[i] == term_view(s[i]),
    decreases s.len(),
{
    if s.len() > 0 {
        lemma_terms_view(s.drop_last());
    }
}

/// Viewing a prefix one element longer pushes that element's view.
pub proof fn lemma_terms_view_prefix(s: Seq<Term>, i: int)
    requires
        0 <= i < s.len(),
    ensures
        terms_view(s.subrange(0, i + 1)) == terms_view(s.subrange(0, i)).push(term_view(s[i])),
{
    assert(s.subrange(0, i + 1).drop_last() =~= s.subrange(0, i));
}

impl View for Term {
    type V = TermV;

    open spec fn view(&self) -> TermV {
        term_view(*self)
    }
}

/// Symbol atom view.
pub open spec fn sym_v(name: Seq<char>) -> TermV {
    TermV::Atom(AtomV::Symbol(name))
}

/// Exact integer atom view.
pub open spec fn int_v(v: int) -> TermV {
    TermV::Atom(AtomV::Number(NumberV::Integer(canonical_decimal(v))))
}

/// Application view.
pub open spec fn app_v(op: Seq<char>, args: Seq<TermV>) -> TermV {
    TermV::App { op, args }
}

/// Operator name of an application view.
pub open spec fn spec_app_name(t: TermV) -> Option<Seq<char>> {
    match t {
        TermV::App { op, .. } => Some(op),
        _ => None,
    }
}

/// Name of a symbol atom view.
pub open spec fn spec_symbol_name(t: TermV) -> Option<Seq<char>> {
    match t {
        TermV::Atom(AtomV::Symbol(s)) => Some(s),
        _ => None,
    }
}

/// Whether a term view is the exact integer `-1`.
pub open spec fn spec_t_is_neg_one(t: TermV) -> bool {
    t matches TermV::Atom(AtomV::Number(n)) && spec_is_neg_one(n)
}

impl Term {
    /// Symbol atom.
    pub fn symbol(name: String) -> (t: Term)
        ensures
            t@ == sym_v(name@),
    {
        Term::Atom(Atom::Symbol(name))
    }

    /// Exact integer atom.
    pub fn small_int(v: i64) -> (t: Term)
        ensures
            t@ == int_v(v as int),
    {
        Term::Atom(Atom::Number(Number::small_int(v)))
    }

    /// Application of `op` to `args`.
    pub fn app(op: String, args: Vec<Term>) -> (t: Term)
        ensures
            t@ == app_v(op@, terms_view(args@)),
    {
        Term::App { op, args }
    }

    /// Operator name when this is an application.
    pub fn app_name(&self) -> (r: Option<&str>)
        ensures
            r matches Some(s) ==> spec_app_name(self@) == Some(s@),
            r is None ==> spec_app_name(self@) is None,
    {
        match self {
            Term::App { op, .. } => Some(op.as_str()),
            _ => None,
        }
    }

    /// Name when this is a symbol atom.
    pub fn symbol_name(&self) -> (r: Option<&str>)
        ensures
            r matches Some(s) ==> spec_symbol_name(self@) == Some(s@),
            r is None ==> spec_symbol_name(self@) is None,
    {
        match self {
            Term::Atom(Atom::Symbol(s)) => Some(s.as_str()),
            _ => None,
        }
    }

    /// Whether this is the exact integer `-1`.
    pub fn is_neg_one(&self) -> (r: bool)
        ensures
            r == spec_t_is_neg_one(self@),
    {
        match self {
            Term::Atom(Atom::Number(n)) => n.is_neg_one(),
            _ => false,
        }
    }

    /// Deep copy.
    pub fn copy(&self) -> (r: Term)
        ensures
            r@ == self@,
        decreases self,
    {
        match self {
            Term::Atom(a) => Term::Atom(copy_atom(a)),
            Term::List(items) => {
                proof {
                    assert(decreases_to!(*self => (*self)->List_0));
                }
                Term::List(copy_terms(items))
            },
            Term::App { op, args } => {
                proof {
                    assert(decreases_to!(*self => (*self)->args));
                }
                Term::App { op: op.clone(), args: copy_terms(args) }
            },
        }
    }
}

/// Number atom of a numeric literal, or `None` when the text is not one.
pub fn term_from_number_literal(text: &str) -> (r: Option<Term>)
    ensures
        r matches Some(t) ==> spec_number_literal(text@) matches Some(n) && t@ == TermV::Atom(AtomV::Number(n)),
        r is None <==> spec_number_literal(text@) is None,
{
    match parse_number_literal(text) {
        Some(n) => Some(Term::Atom(Atom::Number(n))),
        None => None,
    }
}

/// Copy of an atom.
pub fn copy_atom(a: &Atom) -> (r: Atom)
    ensures
        atom_view(r) == atom_view(*a),
{
    match a {
        Atom::Number(n) => Atom::Number(n.copy()),
        Atom::String(s) => Atom::String(s.clone()),
        Atom::Symbol(s) => Atom::Symbol(s.clone()),
        Atom::Boolean(b) => Atom::Boolean(*b),
        Atom::Null => Atom::Null,
    }
}

/// Element-wise deep copy.
pub fn copy_terms(v: &Vec<Term>) -> (r: Vec<Term>)
    ensures
        terms_view(r@) == terms_view(v@),
    decreases v@,
{
    let mut r: Vec<Term> = Vec::new();
    let mut i: usize = 0;
    while i < v.len()
        invariant
            i <= v.len(),
            terms_view(r@) == terms_view(v@.subrange(0, i as int)),
        decreases v.len() - i,
    {
        proof {
            assert(decreases_to!(v@ => v@[i as int]));
        }
        let c = v[i].copy();
        proof {
            lemma_terms_view_prefix(v@, i as int);
        }
        let ghost old_r = r@;
        r.push(c);
        proof {
            assert(r@.drop_last() =~= old_r);
        }
        i = i + 1;
    }
    assert(v@.subrange(0, v.len() as int) =~= v@);
    r
}

} // verus!
