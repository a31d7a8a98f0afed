//! Mathematica frontend form (`WExpr`): Wolfram-shaped `Head[args…]` trees.

use vstd::prelude::*;

use crate::number::{Number, NumberV, spec_is_neg_one};
use crate::strings::str_eq;

verus! {

/// Atomic Wolfram-facing value.
#[derive(Debug, Clone, PartialEq, Eq)]
pub enum WAtom {
    /// Number.
    Number(Number),
    /// String literal.
    String(String),
    /// Symbol name.
    Symbol(String),
}

/// Wolfram-shaped tree.
#[derive(Debug, PartialEq, Eq)]
pub enum WExpr {
    /// Atom.
    Atom(WAtom),
    /// `{a, b, …}`.
    List(Vec<WExpr>),
    /// `head[args…]`.
    Call {
        /// Head (usually a symbol).
        head: Box<WExpr>,
        /// Arguments.
        args: Vec<WExpr>,
    },
}

/// Character view of a [`WAtom`].
pub enum WAtomV {
    /// Number.
    Number(NumberV),
    /// String literal.
    String(Seq<char>),
    /// Symbol name.
    Symbol(Seq<char>),
}

/// Character view of a [`WExpr`].
pub enum WExprV {
    /// Atom.
    Atom(WAtomV),
    /// List.
    List(Seq<WExprV>),
    /// Call.
    Call { head: Box<WExprV>, args: Seq<WExprV> },
}

/// View of an atom.
pub open spec fn watom_view(a: WAtom) -> WAtomV {
    match a {
        WAtom::Number(n) => WAtomV::Number(n@),
        WAtom::String(s) => WAtomV::String(s@),
        WAtom::Symbol(s) => WAtomV::Symbol(s@),
    }
}

/// View of a tree.
pub open spec fn wexpr_view(e: WExpr) -> WExprV
    decreases e,
{
    match e {
        WExpr::Atom(a) => WExprV::Atom(watom_view(a)),
        WExpr::List(items) => WExprV::List(wexprs_view(items@)),
        WExpr::Call { head, args } => WExprV::Call { head: Box::new(wexpr_view(*head)), args: wexprs_view(args@) },
    }
}

/// Element-wise view of a sequence of trees.
pub open spec fn wexprs_view(s: Seq<WExpr>) -> Seq<WExprV>
    decreases s,
{
    if s.len() == 0 {
        seq![]
    } else {
        wexprs_view(s.drop_last()).push(wexpr_view(s.last()))
    }
}

/// The element-wise view has the same length and views each element.
pub proof fn lemma_wexprs_view(s: Seq<WExpr>)
    ensures
        wexprs_view(s).len() == s.len(),
        forall|i: int| 0 <= i < s.len() ==> #[trigger] wexprs_view(s)[i] == wexpr_view(s[i]),
    decreases s.len(),
{
    if s.len() > 0 {
        lemma_wexprs_view(s.drop_last());
    }
}

/// Viewing a prefix one element longer pushes that element's view.
pub proof fn lemma_wexprs_view_prefix(s: Seq<WExpr>, i: int)
    requires
        0 <= i < s.len(),
    ensures
        wexprs_view(s.subrange(0, i + 1)) == wexprs_view(s.subrange(0, i)).push(wexpr_view(s[i])),
{
    assert(s.subrange(0, i + 1).drop_last() =~= s.subrange(0, i));
}

impl View for WExpr {
    type V = WExprV;

    open spec fn view(&self) -> WExprV {
        wexpr_view(*self)
    }
}

/// Head symbol name of a form view: the call head's symbol, `List` for
/// lists, the symbol itself for symbol atoms.
pub open spec fn spec_w_head_name(e: WExprV) -> Option<Seq<char>> {
    match e {
        WExprV::Call { head, .. } => match *head {
            WExprV::Atom(WAtomV::Symbol(s)) => Some(s),
            _ => None,
        },
        WExprV::List(_) => Some("List"@),
        WExprV::Atom(WAtomV::Symbol(s)) => Some(s),
        _ => None,
    }
}

/// Whether a form view is the symbol `name`.
pub open spec fn spec_w_is_symbol(e: WExprV, name: Seq<char>) -> bool {
    e matches WExprV::Atom(WAtomV::Symbol(s)) && s == name
}

/// Whether a form view is the exact integer `-1`.
pub open spec fn spec_w_is_neg_one(e: WExprV) -> bool {
    e matches WExprV::Atom(WAtomV::Number(n)) && spec_is_neg_one(n)
}

impl WExpr {
    /// Symbol atom.
    pub fn symbol(name: String) -> (e: WExpr)
        ensures
            e@ == WExprV::Atom(WAtomV::Symbol(name@)),
    {
        WExpr::Atom(WAtom::Symbol(name))
    }

    /// Exact integer atom.
    pub fn small_int(n: i64) -> (e: WExpr)
        ensures
            e@ == WExprV::Atom(WAtomV::Number(NumberV::Integer(crate::number::canonical_decimal(n as int)))),
    {
        let num = Number::small_int(n);
        WExpr::Atom(WAtom::Number(num))
    }

    /// Number atom.
    pub fn number(n: Number) -> (e: WExpr)
        ensures
            e@ == WExprV::Atom(WAtomV::Number(n@)),
    {
        WExpr::Atom(WAtom::Number(n))
    }

    /// `head[args…]` with a symbol head.
    pub fn call(head: String, args: Vec<WExpr>) -> (e: WExpr)
        ensures
            e@ == (WExprV::Call { head: Box::new(WExprV::Atom(WAtomV::Symbol(head@))), args: wexprs_view(args@) }),
    {
        proof {
            reveal_with_fuel(wexpr_view, 2);
        }
        WExpr::Call { head: Box::new(WExpr::Atom(WAtom::Symbol(head))), args }
    }

    /// Head symbol name, if any.
    pub fn head_name(&self) -> (r: Option<&str>)
        ensures
            r matches Some(s) ==> spec_w_head_name(self@) == Some(s@),
            r is None ==> spec_w_head_name(self@) is None,
    {
        proof {
            reveal_strlit("List");
            reveal_with_fuel(wexpr_view, 2);
        }
        match self {
            WExpr::Call { head, .. } => match &**head {
                WExpr::Atom(WAtom::Symbol(s)) => Some(s.as_str()),
                _ => None,
            },
            WExpr::List(_) => Some("List"),
            WExpr::Atom(WAtom::Symbol(s)) => Some(s.as_str()),
            _ => None,
        }
    }

    /// Whether this is the symbol `name`.
    pub fn is_symbol(&self, name: &str) -> (r: bool)
        ensures
            r == spec_w_is_symbol(self@, name@),
    {
        match self {
            WExpr::Atom(WAtom::Symbol(s)) => str_eq(s.as_str(), name),
            _ => false,
        }
    }

    /// Whether this is the exact integer `-1`.
    pub fn is_neg_one(&self) -> (r: bool)
        ensures
            r == spec_w_is_neg_one(self@),
    {
        match self {
            WExpr::Atom(WAtom::Number(n)) => n.is_neg_one(),
            _ => false,
        }
    }
}

} // verus!
