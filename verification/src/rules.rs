//! Structural rules of the builtin evaluator on bridge terms: rule pairs,
//! literal replacement, slot substitution, part extraction and the
//! Pythagorean identity. None of them does arithmetic.

use vstd::prelude::*;

use crate::bridge::{
    Atom, Term, bridge_view, bridges_view, copy_term, lemma_bridges_push, lemma_bridges_view, number_from_term,
    term_eq,
};
use crate::number::{NumberV, canonical_decimal, fits_i64, spec_exact_integer};
use crate::strings::{owned, str_eq};
use crate::wexpr::{WAtomV, WExprV, spec_w_is_symbol};

verus! {

/// `head[args…]` view with a symbol head.
pub open spec fn app_w(head: Seq<char>, args: Seq<WExprV>) -> WExprV {
    WExprV::Call { head: Box::new(WExprV::Atom(WAtomV::Symbol(head))), args }
}

// ------------------------------------------------------------------ rule pairs

/// Left and right side of `Rule[l, r]` or `RuleDelayed[l, r]`.
pub open spec fn spec_rule_pair(e: WExprV) -> Option<(WExprV, WExprV)> {
    match e {
        WExprV::Call { head, args } => if args.len() == 2 && (spec_w_is_symbol(*head, "Rule"@) || spec_w_is_symbol(
            *head,
            "RuleDelayed"@,
        )) {
            Some((args[0], args[1]))
        } else {
            None
        },
        _ => None,
    }
}

/// Left and right side of a rule.
pub fn rule_pair(expr: &Term) -> (r: Option<(Term, Term)>)
    ensures
        r matches Some(p) ==> spec_rule_pair(expr@) == Some((p.0@, p.1@)),
        r is None ==> spec_rule_pair(expr@) is None,
{
    match expr {
        Term::App { head, args } => {
            proof {
                lemma_bridges_view(args@);
            }
            if args.len() == 2 && (head.is_symbol("Rule") || head.is_symbol("RuleDelayed")) {
                Some((copy_term(&args[0]), copy_term(&args[1])))
            } else {
                None
            }
        },
        _ => None,
    }
}

// ------------------------------------------------------------------ replacement

/// `e` with every subterm equal to `lhs` replaced by `rhs` (outermost first;
/// a replaced subterm is not searched again).
pub open spec fn spec_replace_literal(e: WExprV, lhs: WExprV, rhs: WExprV) -> WExprV
    decreases e, 1int,
{
    if e == lhs {
        rhs
    } else {
        match e {
            WExprV::List(items) => WExprV::List(spec_replace_all(items, lhs, rhs)),
            WExprV::Call { head, args } => WExprV::Call {
                head: Box::new(spec_replace_literal(*head, lhs, rhs)),
                args: spec_replace_all(args, lhs, rhs),
            },
            _ => e,
        }
    }
}

/// Element-wise [`spec_replace_literal`].
pub open spec fn spec_replace_all(s: Seq<WExprV>, lhs: WExprV, rhs: WExprV) -> Seq<WExprV>
    decreases s, 0int,
{
    if s.len() == 0 {
        seq![]
    } else {
        spec_replace_all(s.drop_last(), lhs, rhs).push(spec_replace_literal(s.last(), lhs, rhs))
    }
}

/// Replace every subterm equal to `lhs` by `rhs`.
pub fn replace_literal(expr: &Term, lhs: &Term, rhs: &Term) -> (r: Term)
    ensures
        r@ == spec_replace_literal(expr@, lhs@, rhs@),
    decreases expr, 1int,
{
    if term_eq(expr, lhs) {
        return copy_term(rhs);
    }
    match expr {
        Term::List(items) => {
            proof {
                assert(decreases_to!(*expr => (*expr)->List_0));
            }
            Term::List(replace_each(items, lhs, rhs))
        },
        Term::App { head, args } => {
            proof {
                assert(decreases_to!(*expr => (*expr)->head));
                assert(decreases_to!(*expr => (*expr)->args));
            }
            let h = replace_literal(head, lhs, rhs);
            let a = replace_each(args, lhs, rhs);
            Term::App { head: Box::new(h), args: a }
        },
        _ => copy_term(expr),
    }
}

fn replace_each(v: &Vec<Term>, lhs: &Term, rhs: &Term) -> (r: Vec<Term>)
    ensures
        bridges_view(r@) == spec_replace_all(bridges_view(v@), lhs@, rhs@),
    decreases v, 0int,
{
    let mut out: Vec<Term> = Vec::new();
    let mut i: usize = 0;
    proof {
        assert(v@.subrange(0, 0) =~= Seq::<Term>::empty());
    }
    while i < v.len()
        invariant
            i <= v.len(),
            bridges_view(out@) == spec_replace_all(bridges_view(v@.subrange(0, i as int)), lhs@, rhs@),
        decreases v.len() - i,
    {
        proof {
            assert(decreases_to!(*v => v@));
            assert(decreases_to!(v@ => v@[i as int]));
        }
        let t = replace_literal(&v[i], lhs, rhs);
        let ghost before = out@;
        out.push(t);
        proof {
            lemma_bridges_push(before, t);
            assert(v@.subrange(0, i + 1) =~= v@.subrange(0, i as int).push(v@[i as int]));
            lemma_bridges_push(v@.subrange(0, i as int), v@[i as int]);
            let pre = bridges_view(v@.subrange(0, i as int));
            assert(pre.push(bridge_view(v@[i as int])).drop_last() =~= pre);
        }
        i = i + 1;
    }
    assert(v@.subrange(0, v.len() as int) =~= v@);
    out
}

/// Rules a `ReplaceAll` argument holds: the rule items of a list in order,
/// or the argument itself when it is a rule.
pub open spec fn spec_rules_of(rules: WExprV) -> Seq<(WExprV, WExprV)> {
    match rules {
        WExprV::List(items) => rule_items(items),
        other => match spec_rule_pair(other) {
            Some(p) => seq![p],
            None => seq![],
        },
    }
}

/// Rule pairs among `items`, in order.
pub open spec fn rule_items(items: Seq<WExprV>) -> Seq<(WExprV, WExprV)>
    decreases items.len(),
{
    if items.len() == 0 {
        seq![]
    } else {
        let rest = rule_items(items.drop_last());
        match spec_rule_pair(items.last()) {
            Some(p) => rest.push(p),
            None => rest,
        }
    }
}

/// `e` after each rule's literal replacement, in order.
pub open spec fn apply_rules(e: WExprV, rules: Seq<(WExprV, WExprV)>) -> WExprV
    decreases rules.len(),
{
    if rules.len() == 0 {
        e
    } else {
        spec_replace_literal(apply_rules(e, rules.drop_last()), rules.last().0, rules.last().1)
    }
}

/// `expr` after the literal replacements of every rule in `rules`, in order
/// (the step `ReplaceAll` takes before evaluating the result).
pub fn replace_rules(expr: &Term, rules: &Term) -> (r: Term)
    ensures
        r@ == apply_rules(expr@, spec_rules_of(rules@)),
{
    let mut cur = copy_term(expr);
    match rules {
        Term::List(items) => {
            proof {
                lemma_bridges_view(items@);
                assert(bridges_view(items@).subrange(0, 0) =~= Seq::<WExprV>::empty());
            }
            let mut i: usize = 0;
            while i < items.len()
                invariant
                    i <= items.len(),
                    bridges_view(items@).len() == items@.len(),
                    forall|k: int| 0 <= k < items@.len() ==> #[trigger] bridges_view(items@)[k] == bridge_view(items@[k]),
                    cur@ == apply_rules(expr@, rule_items(bridges_view(items@).subrange(0, i as int))),
                decreases items.len() - i,
            {
                let ghost pre = bridges_view(items@).subrange(0, i as int);
                let ghost nxt = bridges_view(items@).subrange(0, i + 1);
                proof {
                    assert(nxt.drop_last() =~= pre);
                    assert(nxt.last() == bridge_view(items@[i as int]));
                }
                match rule_pair(&items[i]) {
                    Some((l, r)) => {
                        proof {
                            let rs = rule_items(pre);
                            assert(rs.push((l@, r@)).drop_last() =~= rs);
                        }
                        cur = replace_literal(&cur, &l, &r);
                    },
                    None => {},
                }
                i = i + 1;
            }
            proof {
                assert(bridges_view(items@).subrange(0, items.len() as int) =~= bridges_view(items@));
                assert(rules@ == WExprV::List(bridges_view(items@)));
            }
            cur
        },
        other => {
            match rule_pair(other) {
                Some((l, r)) => {
                    proof {
                        assert(seq![(l@, r@)].drop_last() =~= Seq::<(WExprV, WExprV)>::empty());
                        assert(apply_rules(expr@, Seq::<(WExprV, WExprV)>::empty()) == expr@);
                    }
                    replace_literal(&cur, &l, &r)
                },
                None => cur,
            }
        },
    }
}

/// Replacing a subterm by itself changes nothing.
pub proof fn lemma_replace_self(e: WExprV, x: WExprV)
    ensures
        spec_replace_literal(e, x, x) == e,
    decreases e, 1int,
{
    if e != x {
        match e {
            WExprV::List(items) => {
                lemma_replace_all_self(items, x);
            },
            WExprV::Call { head, args } => {
                lemma_replace_self(*head, x);
                lemma_replace_all_self(args, x);
            },
            _ => {},
        }
    }
}

/// Replacing a subterm by itself changes no element.
pub proof fn lemma_replace_all_self(s: Seq<WExprV>, x: WExprV)
    ensures
        spec_replace_all(s, x, x) == s,
    decreases s, 0int,
{
    if s.len() > 0 {
        lemma_replace_all_self(s.drop_last(), x);
        lemma_replace_self(s.last(), x);
        assert(s.drop_last().push(s.last()) =~= s);
    }
}

// ------------------------------------------------------------------ slots

/// Whether a symbol name is a slot (`#` or `#1`).
pub open spec fn is_slot(s: Seq<char>) -> bool {
    s == "#"@ || s == "#1"@
}

/// `body` with every slot replaced by `value`.
pub open spec fn spec_substitute_slot(body: WExprV, value: WExprV) -> WExprV
    decreases body, 1int,
{
    match body {
        WExprV::Atom(WAtomV::Symbol(s)) => if is_slot(s) {
            value
        } else {
            body
        },
        WExprV::Atom(_) => body,
        WExprV::List(items) => WExprV::List(spec_substitute_all(items, value)),
        WExprV::Call { head, args } => WExprV::Call {
            head: Box::new(spec_substitute_slot(*head, value)),
            args: spec_substitute_all(args, value),
        },
    }
}

/// Element-wise [`spec_substitute_slot`].
pub open spec fn spec_substitute_all(s: Seq<WExprV>, value: WExprV) -> Seq<WExprV>
    decreases s, 0int,
{
    if s.len() == 0 {
        seq![]
    } else {
        spec_substitute_all(s.drop_last(), value).push(spec_substitute_slot(s.last(), value))
    }
}

/// Replace every slot (`#`, `#1`) in `body` by `value`.
pub fn substitute_slot(body: &Term, value: &Term) -> (r: Term)
    ensures
        r@ == spec_substitute_slot(body@, value@),
    decreases body, 1int,
{
    match body {
        Term::Atom(Atom::Symbol(s)) => {
            if str_eq(s.as_str(), "#") || str_eq(s.as_str(), "#1") {
                copy_term(value)
            } else {
                copy_term(body)
            }
        },
        Term::Atom(_) => copy_term(body),
        Term::List(items) => {
            proof {
                assert(decreases_to!(*body => (*body)->List_0));
            }
            Term::List(substitute_each(items, value))
        },
        Term::App { head, args } => {
            proof {
                assert(decreases_to!(*body => (*body)->head));
                assert(decreases_to!(*body => (*body)->args));
            }
            let h = substitute_slot(head, value);
            let a = substitute_each(args, value);
            Term::App { head: Box::new(h), args: a }
        },
    }
}

fn substitute_each(v: &Vec<Term>, value: &Term) -> (r: Vec<Term>)
    ensures
        bridges_view(r@) == spec_substitute_all(bridges_view(v@), value@),
    decreases v, 0int,
{
    let mut out: Vec<Term> = Vec::new();
    let mut i: usize = 0;
    proof {
        assert(v@.subrange(0, 0) =~= Seq::<Term>::empty());
    }
    while i < v.len()
        invariant
            i <= v.len(),
            bridges_view(out@) == spec_substitute_all(bridges_view(v@.subrange(0, i as int)), value@),
        decreases v.len() - i,
    {
        proof {
            assert(decreases_to!(*v => v@));
            assert(decreases_to!(v@ => v@[i as int]));
        }
        let t = substitute_slot(&v[i], value);
        let ghost before = out@;
        out.push(t);
        proof {
            lemma_bridges_push(before, t);
            assert(v@.subrange(0, i + 1) =~= v@.subrange(0, i as int).push(v@[i as int]));
            lemma_bridges_push(v@.subrange(0, i as int), v@[i as int]);
            let pre = bridges_view(v@.subrange(0, i as int));
            assert(pre.push(bridge_view(v@[i as int])).drop_last() =~= pre);
        }
        i = i + 1;
    }
    assert(v@.subrange(0, v.len() as int) =~= v@);
    out
}

/// One item of `Map[f, list]`: `f[item]` for a symbol `f`, the slots of
/// `Function[body]` filled with the item, `Map[f, item]` otherwise.
pub open spec fn spec_map_one(func: WExprV, item: WExprV) -> WExprV {
    match func {
        WExprV::Atom(WAtomV::Symbol(name)) => app_w(name, seq![item]),
        WExprV::Call { head, args } => if spec_w_is_symbol(*head, "Function"@) && args.len() == 1 {
            spec_substitute_slot(args[0], item)
        } else {
            app_w("Map"@, seq![func, item])
        },
        _ => app_w("Map"@, seq![func, item]),
    }
}

fn pair(a: Term, b: Term) -> (v: Vec<Term>)
    ensures
        bridges_view(v@) == seq![a@, b@],
{
    let mut v: Vec<Term> = Vec::new();
    v.push(a);
    let ghost v1 = v@;
    v.push(b);
    proof {
        lemma_bridges_push(Seq::empty(), a);
        assert(Seq::<Term>::empty().push(a) =~= v1);
        lemma_bridges_push(v1, b);
        assert(seq![a@, b@] =~= Seq::<WExprV>::empty().push(a@).push(b@));
    }
    v
}

fn single(a: Term) -> (v: Vec<Term>)
    ensures
        bridges_view(v@) == seq![a@],
{
    let mut v: Vec<Term> = Vec::new();
    v.push(a);
    proof {
        lemma_bridges_push(Seq::empty(), a);
        assert(Seq::<Term>::empty().push(a) =~= v@);
        assert(seq![a@] =~= Seq::<WExprV>::empty().push(a@));
    }
    v
}

/// One item of `Map[f, list]`.
pub fn map_one(func: &Term, item: &Term) -> (r: Term)
    ensures
        r@ == spec_map_one(func@, item@),
{
    proof {
        reveal_with_fuel(bridge_view, 2);
    }
    match func {
        Term::Atom(Atom::Symbol(name)) => Term::app(name.clone(), single(copy_term(item))),
        Term::App { head, args } => {
            proof {
                lemma_bridges_view(args@);
            }
            if head.is_symbol("Function") && args.len() == 1 {
                substitute_slot(&args[0], item)
            } else {
                Term::app(owned("Map"), pair(copy_term(func), copy_term(item)))
            }
        },
        _ => Term::app(owned("Map"), pair(copy_term(func), copy_term(item))),
    }
}

// ------------------------------------------------------------------ parts

/// Exact `i64` value of an index term.
pub open spec fn spec_index_value(index: WExprV) -> Option<int> {
    match index {
        WExprV::Atom(WAtomV::Number(n)) => match spec_exact_integer(n) {
            Some(v) => if fits_i64(v) { Some(v) } else { None },
            None => None,
        },
        _ => None,
    }
}

/// `Part[expr, index]`: the `index`-th item of a list (1-based; negative
/// indices count from the end), or the unevaluated `Part` form when the
/// index is not an `i64`, is zero, or lies outside the list.
pub open spec fn spec_eval_part(e: WExprV, index: WExprV) -> WExprV {
    let fallback = app_w("Part"@, seq![e, index]);
    match spec_index_value(index) {
        None => fallback,
        Some(idx) => match e {
            WExprV::List(items) => if idx > 0 && idx <= items.len() {
                items[idx - 1]
            } else if idx < 0 && items.len() + idx >= 0 {
                items[items.len() + idx]
            } else {
                fallback
            },
            _ => fallback,
        },
    }
}

/// Extract a part of a list.
pub fn eval_part(expr: &Term, index: &Term) -> (r: Term)
    ensures
        r@ == spec_eval_part(expr@, index@),
{
    let idx: Option<i64> = match number_from_term(index) {
        Some(n) => n.as_exact_integer(),
        None => None,
    };
    let fallback = Term::app(owned("Part"), pair(copy_term(expr), copy_term(index)));
    match idx {
        None => fallback,
        Some(idx) => match expr {
            Term::List(items) => {
                proof {
                    lemma_bridges_view(items@);
                }
                let len = items.len() as i128;
                let pos: i128 = if idx > 0 {
                    idx as i128 - 1
                } else if idx < 0 {
                    len + idx as i128
                } else {
                    -1
                };
                if idx != 0 && 0 <= pos && pos < len {
                    copy_term(&items[pos as usize])
                } else {
                    fallback
                }
            },
            _ => fallback,
        },
    }
}

// ------------------------------------------------------------------ identities

/// Whether `e` is `name[x]^2` for some single argument `x`.
pub open spec fn spec_is_trig_sq(e: WExprV, name: Seq<char>) -> bool {
    match e {
        WExprV::Call { head, args } => spec_w_is_symbol(*head, "Power"@) && args.len() == 2 && args[1]
            == WExprV::Atom(WAtomV::Number(NumberV::Integer(canonical_decimal(2)))) && match args[0] {
            WExprV::Call { head: h, args: a } => spec_w_is_symbol(*h, name) && a.len() == 1,
            _ => false,
        },
        _ => false,
    }
}

/// The argument `x` of `f[x]^e`, if `e` has that shape.
pub open spec fn trig_arg(e: WExprV) -> Option<WExprV> {
    match e {
        WExprV::Call { head, args } => if spec_w_is_symbol(*head, "Power"@) && args.len() == 2 {
            match args[0] {
                WExprV::Call { args: inner, .. } => if inner.len() == 1 {
                    Some(inner[0])
                } else {
                    None
                },
                _ => None,
            }
        } else {
            None
        },
        _ => None,
    }
}

/// Whether two squared trigonometric terms have the same argument.
pub open spec fn spec_same_trig_arg(a: WExprV, b: WExprV) -> bool {
    trig_arg(a) is Some && trig_arg(b) is Some && trig_arg(a) == trig_arg(b)
}

/// `Sin[x]^2 + Cos[x]^2` (in either order) is `1`.
pub open spec fn spec_try_pythagorean(e: WExprV) -> Option<WExprV> {
    match e {
        WExprV::Call { head, args } => if spec_w_is_symbol(*head, "Plus"@) && args.len() == 2 && ((spec_is_trig_sq(
            args[0],
            "Sin"@,
        ) && spec_is_trig_sq(args[1], "Cos"@)) || (spec_is_trig_sq(args[0], "Cos"@) && spec_is_trig_sq(
            args[1],
            "Sin"@,
        ))) && spec_same_trig_arg(args[0], args[1]) {
            Some(WExprV::Atom(WAtomV::Number(NumberV::Integer(canonical_decimal(1)))))
        } else {
            None
        },
        _ => None,
    }
}

fn is_trig_sq(expr: &Term, name: &str) -> (r: bool)
    ensures
        r == spec_is_trig_sq(expr@, name@),
{
    proof {
        reveal_with_fuel(bridge_view, 2);
    }
    match expr {
        Term::App { head, args } => {
            proof {
                lemma_bridges_view(args@);
            }
            if !(head.is_symbol("Power") && args.len() == 2) {
                return false;
            }
            let two = match number_from_term(&args[1]) {
                Some(n) => {
                    let t = crate::number::Number::small_int(2);
                    crate::bridge::number_eq(n, &t)
                },
                None => false,
            };
            if !two {
                return false;
            }
            match &args[0] {
                Term::App { head: h, args: a } => {
                    proof {
                        lemma_bridges_view(a@);
                    }
                    h.is_symbol(name) && a.len() == 1
                },
                _ => false,
            }
        },
        _ => false,
    }
}

fn trig_arg_exec(e: &Term) -> (r: Option<&Term>)
    ensures
        r matches Some(x) ==> trig_arg(e@) == Some(x@),
        r is None ==> trig_arg(e@) is None,
{
    proof {
        reveal_with_fuel(bridge_view, 2);
    }
    match e {
        Term::App { head, args } => {
            proof {
                lemma_bridges_view(args@);
            }
            if head.is_symbol("Power") && args.len() == 2 {
                match &args[0] {
                    Term::App { args: inner, .. } => {
                        proof {
                            lemma_bridges_view(inner@);
                        }
                        if inner.len() == 1 {
                            Some(&inner[0])
                        } else {
                            None
                        }
                    },
                    _ => None,
                }
            } else {
                None
            }
        },
        _ => None,
    }
}

fn same_trig_arg(a: &Term, b: &Term) -> (r: bool)
    ensures
        r == spec_same_trig_arg(a@, b@),
{
    match (trig_arg_exec(a), trig_arg_exec(b)) {
        (Some(x), Some(y)) => term_eq(x, y),
        _ => false,
    }
}

/// `1` when `expr` is `Sin[x]^2 + Cos[x]^2` in either order.
pub fn try_pythagorean(expr: &Term) -> (r: Option<Term>)
    ensures
        r matches Some(t) ==> spec_try_pythagorean(expr@) == Some(t@),
        r is None ==> spec_try_pythagorean(expr@) is None,
{
    proof {
        reveal_with_fuel(bridge_view, 2);
    }
    match expr {
        Term::App { head, args } => {
            proof {
                lemma_bridges_view(args@);
            }
            if !(head.is_symbol("Plus") && args.len() == 2) {
                return None;
            }
            let a = &args[0];
            let b = &args[1];
            let shape = (is_trig_sq(a, "Sin") && is_trig_sq(b, "Cos")) || (is_trig_sq(a, "Cos") && is_trig_sq(b, "Sin"));
            if shape && same_trig_arg(a, b) {
                Some(Term::small_int(1))
            } else {
                None
            }
        },
        _ => None,
    }
}

/// The Pythagorean identity does not depend on the order of the two addends.
pub proof fn lemma_pythagorean_symmetric(a: WExprV, b: WExprV)
    ensures
        spec_try_pythagorean(app_w("Plus"@, seq![a, b])) == spec_try_pythagorean(app_w("Plus"@, seq![b, a])),
{
}


// ------------------------------------------------------------------ laws

/// Whether `x` occurs in `e` as a subterm (`e` itself included).
pub open spec fn occurs_in(x: WExprV, e: WExprV) -> bool
    decreases e, 1int,
{
    e == x || match e {
        WExprV::List(items) => occurs_in_any(x, items),
        WExprV::Call { head, args } => occurs_in(x, *head) || occurs_in_any(x, args),
        _ => false,
    }
}

/// Whether `x` occurs in any element of `s`.
pub open spec fn occurs_in_any(x: WExprV, s: Seq<WExprV>) -> bool
    decreases s, 0int,
{
    s.len() > 0 && (occurs_in_any(x, s.drop_last()) || occurs_in(x, s.last()))
}

/// Literal replacement touches occurrences only: a form in which `x` does
/// not occur is left as it is, and `x` itself becomes `r`.
pub proof fn lemma_replace_occurrences(e: WExprV, x: WExprV, r: WExprV)
    ensures
        !occurs_in(x, e) ==> spec_replace_literal(e, x, r) == e,
        spec_replace_literal(x, x, r) == r,
    decreases e, 1int,
{
    if e != x {
        match e {
            WExprV::List(items) => {
                lemma_replace_all_occurrences(items, x, r);
            },
            WExprV::Call { head, args } => {
                lemma_replace_occurrences(*head, x, r);
                lemma_replace_all_occurrences(args, x, r);
            },
            _ => {},
        }
    }
}

/// [`lemma_replace_occurrences`] for each element of a sequence.
pub proof fn lemma_replace_all_occurrences(s: Seq<WExprV>, x: WExprV, r: WExprV)
    ensures
        !occurs_in_any(x, s) ==> spec_replace_all(s, x, r) == s,
        spec_replace_all(s, x, r).len() == s.len(),
    decreases s, 0int,
{
    if s.len() > 0 {
        lemma_replace_all_occurrences(s.drop_last(), x, r);
        lemma_replace_occurrences(s.last(), x, r);
        if !occurs_in_any(x, s) {
            assert(s.drop_last().push(s.last()) =~= s);
        }
    }
}

/// `Part[list, k]` picks the `k`-th item counting from one, and a negative
/// index `k - n - 1` (for a list of `n` items) picks the same item counting
/// from the end; index `0` leaves `Part` unevaluated.
pub proof fn lemma_part_positions(items: Seq<WExprV>, i: WExprV, j: WExprV, z: WExprV, k: int)
    requires
        spec_index_value(i) == Some(k),
        spec_index_value(j) == Some(k - items.len() - 1),
        spec_index_value(z) == Some(0int),
        1 <= k <= items.len(),
    ensures
        spec_eval_part(WExprV::List(items), i) == items[k - 1],
        spec_eval_part(WExprV::List(items), j) == items[k - 1],
        spec_eval_part(WExprV::List(items), z) == app_w("Part"@, seq![WExprV::List(items), z]),
{
}

/// Mapping over one item: a symbol `f` applies to it (`f[item]`), a pure
/// function `Function[body]` puts the item in place of its slots `#` and
/// `#1`; rule pairs are read from `Rule` and `RuleDelayed` alike.
pub proof fn lemma_map_and_rules(f: Seq<char>, body: WExprV, item: WExprV, a: WExprV, b: WExprV)
    ensures
        spec_map_one(WExprV::Atom(WAtomV::Symbol(f)), item) == app_w(f, seq![item]),
        spec_map_one(app_w("Function"@, seq![body]), item) == spec_substitute_slot(body, item),
        spec_substitute_slot(WExprV::Atom(WAtomV::Symbol("#"@)), item) == item,
        spec_substitute_slot(WExprV::Atom(WAtomV::Symbol("#1"@)), item) == item,
        spec_rule_pair(app_w("Rule"@, seq![a, b])) == Some((a, b)),
        spec_rule_pair(app_w("RuleDelayed"@, seq![a, b])) == Some((a, b)),
{
}


/// `f[x]^2` as a form.
pub open spec fn squared(f: Seq<char>, x: WExprV) -> WExprV {
    app_w("Power"@, seq![app_w(f, seq![x]), WExprV::Atom(WAtomV::Number(NumberV::Integer(canonical_decimal(2))))])
}

/// `Sin[x]^2 + Cos[x]^2` and `Cos[x]^2 + Sin[x]^2` are `1` for every `x`;
/// with different arguments (`Sin[x]^2 + Cos[y]^2`), or with a sum of two
/// sines, nothing is simplified.
pub proof fn lemma_pythagorean_identity(x: WExprV, y: WExprV)
    ensures
        spec_try_pythagorean(app_w("Plus"@, seq![squared("Sin"@, x), squared("Cos"@, x)])) == Some(
            WExprV::Atom(WAtomV::Number(NumberV::Integer(canonical_decimal(1)))),
        ),
        spec_try_pythagorean(app_w("Plus"@, seq![squared("Cos"@, x), squared("Sin"@, x)])) == Some(
            WExprV::Atom(WAtomV::Number(NumberV::Integer(canonical_decimal(1)))),
        ),
        x != y ==> spec_try_pythagorean(app_w("Plus"@, seq![squared("Sin"@, x), squared("Cos"@, y)])) is None,
        spec_try_pythagorean(app_w("Plus"@, seq![squared("Sin"@, x), squared("Sin"@, x)])) is None,
{
    reveal_strlit("Sin");
    reveal_strlit("Cos");
    assert("Sin"@[0] != "Cos"@[0]);
}

} // verus!
