//! Render a Mathematica form as Wolfram text (infix for arithmetic, rules,
//! replacement, pure functions and parts; `Head[args]` otherwise).

use vstd::prelude::*;
use vstd::string::*;

use crate::number::{render_number, spec_render_number};
use crate::strings::{lemma_sep_join_pair, sep_join, str_eq};
use crate::wolfram_parse::{call_w, symbol_w};
use crate::wexpr::{WAtom, WAtomV, WExpr, WExprV, lemma_wexprs_view, lemma_wexprs_view_prefix, spec_w_head_name, spec_w_is_neg_one, wexpr_view, wexprs_view};

verus! {

/// Precedence level of a form view, by its head name.
pub open spec fn w_prec(e: WExprV) -> int {
    match spec_w_head_name(e) {
        Some(h) => if h == "ReplaceAll"@ || h == "ReplaceRepeated"@ {
            1
        } else if h == "Function"@ {
            2
        } else if h == "Plus"@ || h == "Subtract"@ {
            3
        } else if h == "Times"@ || h == "Divide"@ {
            4
        } else if h == "Power"@ {
            5
        } else if h == "Part"@ {
            7
        } else {
            8
        },
        None => 8,
    }
}

/// `s` with every `"` replaced by `\"`.
pub open spec fn escape_quotes(s: Seq<char>) -> Seq<char>
    decreases s.len(),
{
    if s.len() == 0 {
        seq![]
    } else {
        escape_quotes(s.drop_last()) + (if s.last() == '"' { seq!['\\', '"'] } else { seq![s.last()] })
    }
}

/// Wolfram text of a form view.
pub open spec fn spec_render(e: WExprV) -> Seq<char>
    decreases e, 2int,
{
    match e {
        WExprV::Atom(WAtomV::Number(n)) => spec_render_number(n),
        WExprV::Atom(WAtomV::String(s)) => "\""@ + escape_quotes(s) + "\""@,
        WExprV::Atom(WAtomV::Symbol(s)) => s,
        WExprV::List(items) => "{"@ + sep_join(spec_render_all(items, 0), ", "@) + "}"@,
        WExprV::Call { head, args } => match spec_infix(e) {
            Some(x) => x,
            None => spec_render(*head) + "["@ + sep_join(spec_render_all(args, 0), ", "@) + "]"@,
        },
    }
}

/// Wolfram text of `e`, parenthesized when it binds looser than `parent`.
pub open spec fn spec_paren(e: WExprV, parent: int) -> Seq<char>
    decreases e, 3int,
{
    if w_prec(e) < parent {
        "("@ + spec_render(e) + ")"@
    } else {
        spec_render(e)
    }
}

/// Wolfram texts of each element, parenthesized against `parent`.
pub open spec fn spec_render_all(s: Seq<WExprV>, parent: int) -> Seq<Seq<char>>
    decreases s, 0int,
{
    if s.len() == 0 {
        seq![]
    } else {
        spec_render_all(s.drop_last(), parent).push(spec_paren(s.last(), parent))
    }
}

/// Infix text of a call whose symbol head has an infix form.
pub open spec fn spec_infix(e: WExprV) -> Option<Seq<char>>
    decreases e, 1int,
{
    match e {
        WExprV::Call { head, args } => match *head {
            WExprV::Atom(WAtomV::Symbol(name)) => if name == "Plus"@ && args.len() >= 2 {
                Some(sep_join(spec_render_all(args, 3), " + "@))
            } else if name == "Times"@ && args.len() >= 2 {
                if args.len() == 2 && spec_w_is_neg_one(args[0]) {
                    Some("-"@ + spec_paren(args[1], 6))
                } else {
                    Some(sep_join(spec_render_all(args, 4), "*"@))
                }
            } else if name == "Power"@ && args.len() == 2 {
                Some(spec_paren(args[0], 5) + "^"@ + spec_paren(args[1], 5))
            } else if name == "Subtract"@ && args.len() == 2 {
                Some(spec_paren(args[0], 3) + " - "@ + spec_paren(args[1], 4))
            } else if name == "Divide"@ && args.len() == 2 {
                Some(spec_paren(args[0], 4) + "/"@ + spec_paren(args[1], 5))
            } else if name == "Rule"@ && args.len() == 2 {
                Some(spec_render(args[0]) + " -> "@ + spec_render(args[1]))
            } else if name == "RuleDelayed"@ && args.len() == 2 {
                Some(spec_render(args[0]) + " :> "@ + spec_render(args[1]))
            } else if name == "ReplaceAll"@ && args.len() == 2 {
                Some(spec_paren(args[0], 1) + " /. "@ + spec_paren(args[1], 1))
            } else if name == "Function"@ && args.len() == 1 {
                Some(spec_paren(args[0], 2) + " &"@)
            } else if name == "Part"@ && args.len() == 2 {
                Some(spec_paren(args[0], 7) + "[["@ + spec_render(args[1]) + "]]"@)
            } else {
                None
            },
            _ => None,
        },
        _ => None,
    }
}

proof fn lemma_render_all_len(s: Seq<WExprV>, parent: int)
    ensures
        spec_render_all(s, parent).len() == s.len(),
    decreases s.len(),
{
    if s.len() > 0 {
        lemma_render_all_len(s.drop_last(), parent);
    }
}

fn escape_quotes_exec(s: &str) -> (r: String)
    ensures
        r@ == escape_quotes(s@),
{
    proof {
        reveal_strlit("\\\"");
    }
    let n = s.unicode_len();
    let mut r = String::new();
    let mut i: usize = 0;
    while i < n
        invariant
            n == s@.len(),
            i <= n,
            r@ == escape_quotes(s@.subrange(0, i as int)),
        decreases n - i,
    {
        let c = s.get_char(i);
        proof {
            assert(s@.subrange(0, i + 1).drop_last() =~= s@.subrange(0, i as int));
            assert(s@.subrange(0, i + 1).last() == c);
            reveal_strlit("\\\"");
            assert("\\\""@ =~= seq!['\\', '"']);
        }
        if c == '"' {
            r.append("\\\"");
        } else {
            let one = s.substring_char(i, i + 1);
            assert(one@ =~= seq![c]);
            r.append(one);
        }
        i = i + 1;
    }
    assert(s@.subrange(0, n as int) =~= s@);
    r
}

fn prec_exec(e: &WExpr) -> (p: u8)
    ensures
        p as int == w_prec(e@),
{
    match e.head_name() {
        Some(h) => if str_eq(h, "ReplaceAll") || str_eq(h, "ReplaceRepeated") {
            1
        } else if str_eq(h, "Function") {
            2
        } else if str_eq(h, "Plus") || str_eq(h, "Subtract") {
            3
        } else if str_eq(h, "Times") || str_eq(h, "Divide") {
            4
        } else if str_eq(h, "Power") {
            5
        } else if str_eq(h, "Part") {
            7
        } else {
            8
        },
        None => 8,
    }
}

/// Render a Wolfram form as text.
pub fn render(expr: &WExpr) -> (r: String)
    ensures
        r@ == spec_render(expr@),
    decreases expr, 2int,
{
    proof {
        reveal_strlit("\"");
        reveal_strlit("{");
        reveal_strlit("}");
        reveal_strlit("[");
        reveal_strlit("]");
        reveal_strlit(", ");
    }
    match expr {
        WExpr::Atom(WAtom::Number(n)) => render_number(n),
        WExpr::Atom(WAtom::String(s)) => {
            let mut r = String::from_str("\"");
            let esc = escape_quotes_exec(s.as_str());
            r.append(esc.as_str());
            r.append("\"");
            r
        },
        WExpr::Atom(WAtom::Symbol(s)) => s.clone(),
        WExpr::List(items) => {
            proof {
                assert(decreases_to!(*expr => (*expr)->List_0));
            }
            let inner = paren_join(items, 0, ", ");
            let mut r = String::from_str("{");
            r.append(inner.as_str());
            r.append("}");
            r
        },
        WExpr::Call { head, args } => {
            proof {
                assert(decreases_to!(*expr => (*expr)->head));
                assert(decreases_to!(*expr => (*expr)->args));
            }
            match try_infix(expr) {
                Some(x) => x,
                None => {
                    let h = render(head);
                    let inner = paren_join(args, 0, ", ");
                    let mut r = h;
                    r.append("[");
                    r.append(inner.as_str());
                    r.append("]");
                    r
                },
            }
        },
    }
}

fn maybe_paren(expr: &WExpr, parent: u8) -> (r: String)
    ensures
        r@ == spec_paren(expr@, parent as int),
    decreases expr, 3int,
{
    proof {
        reveal_strlit("(");
        reveal_strlit(")");
    }
    let s = render(expr);
    if prec_exec(expr) < parent {
        let mut r = String::from_str("(");
        r.append(s.as_str());
        r.append(")");
        r
    } else {
        s
    }
}

fn paren_join(args: &Vec<WExpr>, parent: u8, sep: &str) -> (r: String)
    ensures
        r@ == sep_join(spec_render_all(wexprs_view(args@), parent as int), sep@),
    decreases args@, 0int,
{
    let mut r = String::new();
    let mut i: usize = 0;
    proof {
        lemma_wexprs_view(args@);
        assert(args@.subrange(0, 0) =~= Seq::<WExpr>::empty());
    }
    while i < args.len()
        invariant
            i <= args.len(),
            r@ == sep_join(spec_render_all(wexprs_view(args@.subrange(0, i as int)), parent as int), sep@),
        decreases args.len() - i,
    {
        proof {
            assert(decreases_to!(args@ => args@[i as int]));
        }
        let part = maybe_paren(&args[i], parent);
        proof {
            let pre = wexprs_view(args@.subrange(0, i as int));
            lemma_wexprs_view_prefix(args@, i as int);
            let nxt = wexprs_view(args@.subrange(0, i + 1));
            assert(nxt.drop_last() =~= pre);
            lemma_wexprs_view(args@.subrange(0, i as int));
            lemma_render_all_len(pre, parent as int);
            let parts = spec_render_all(nxt, parent as int);
            assert(parts.drop_last() =~= spec_render_all(pre, parent as int));
        }
        if i > 0 {
            r.append(sep);
        }
        r.append(part.as_str());
        i = i + 1;
    }
    assert(args@.subrange(0, args.len() as int) =~= args@);
    r
}

fn try_infix(expr: &WExpr) -> (r: Option<String>)
    ensures
        r matches Some(x) ==> spec_infix(expr@) == Some(x@),
        r is None ==> spec_infix(expr@) is None,
    decreases expr, 1int,
{
    proof {
        reveal_strlit(" + ");
        reveal_strlit("-");
        reveal_strlit("*");
        reveal_strlit("^");
        reveal_strlit(" - ");
        reveal_strlit("/");
        reveal_strlit(" -> ");
        reveal_strlit(" :> ");
        reveal_strlit(" /. ");
        reveal_strlit(" &");
        reveal_strlit("[[");
        reveal_strlit("]]");
        reveal_with_fuel(wexpr_view, 2);
    }
    match expr {
        WExpr::Call { head, args } => {
            let name: &str = match &**head {
                WExpr::Atom(WAtom::Symbol(s)) => s.as_str(),
                _ => {
                    return None;
                },
            };
            proof {
                lemma_wexprs_view(args@);
                assert(decreases_to!(*expr => (*expr)->args));
                assert(decreases_to!((*expr)->args => (*expr)->args@));
                if args.len() > 0 {
                    assert(decreases_to!(args@ => args@[0]));
                }
                if args.len() > 1 {
                    assert(decreases_to!(args@ => args@[1]));
                }
            }
            let n = args.len();
            if str_eq(name, "Plus") && n >= 2 {
                Some(paren_join(args, 3, " + "))
            } else if str_eq(name, "Times") && n >= 2 {
                if n == 2 && args[0].is_neg_one() {
                    let mut r = String::from_str("-");
                    let b = maybe_paren(&args[1], 6);
                    r.append(b.as_str());
                    Some(r)
                } else {
                    Some(paren_join(args, 4, "*"))
                }
            } else if str_eq(name, "Power") && n == 2 {
                Some(join_pair(maybe_paren(&args[0], 5), "^", maybe_paren(&args[1], 5)))
            } else if str_eq(name, "Subtract") && n == 2 {
                Some(join_pair(maybe_paren(&args[0], 3), " - ", maybe_paren(&args[1], 4)))
            } else if str_eq(name, "Divide") && n == 2 {
                Some(join_pair(maybe_paren(&args[0], 4), "/", maybe_paren(&args[1], 5)))
            } else if str_eq(name, "Rule") && n == 2 {
                Some(join_pair(render(&args[0]), " -> ", render(&args[1])))
            } else if str_eq(name, "RuleDelayed") && n == 2 {
                Some(join_pair(render(&args[0]), " :> ", render(&args[1])))
            } else if str_eq(name, "ReplaceAll") && n == 2 {
                Some(join_pair(maybe_paren(&args[0], 1), " /. ", maybe_paren(&args[1], 1)))
            } else if str_eq(name, "Function") && n == 1 {
                let mut r = maybe_paren(&args[0], 2);
                r.append(" &");
                Some(r)
            } else if str_eq(name, "Part") && n == 2 {
                let mut r = maybe_paren(&args[0], 7);
                r.append("[[");
                let b = render(&args[1]);
                r.append(b.as_str());
                r.append("]]");
                Some(r)
            } else {
                None
            }
        },
        _ => None,
    }
}

fn join_pair(a: String, sep: &str, b: String) -> (r: String)
    ensures
        r@ == a@ + sep@ + b@,
{
    let mut r = a;
    r.append(sep);
    r.append(b.as_str());
    r
}


// ------------------------------------------------------------------ laws

/// Whether the form's head is one of the given names.
pub open spec fn headed_among(e: WExprV, names: Seq<Seq<char>>) -> bool {
    match spec_w_head_name(e) {
        Some(h) => exists|i: int| 0 <= i < names.len() && names[i] == h,
        None => false,
    }
}

/// Heads that bind looser than a pure function: replacements.
pub open spec fn looser_than_function(e: WExprV) -> bool {
    headed_among(e, seq!["ReplaceAll"@, "ReplaceRepeated"@])
}

/// Heads that bind looser than a sum: replacements and pure functions.
pub open spec fn looser_than_sum(e: WExprV) -> bool {
    headed_among(e, seq!["ReplaceAll"@, "ReplaceRepeated"@, "Function"@])
}

/// Heads that bind looser than a product: replacements, pure functions,
/// sums and differences.
pub open spec fn looser_than_product(e: WExprV) -> bool {
    headed_among(e, seq!["ReplaceAll"@, "ReplaceRepeated"@, "Function"@, "Plus"@, "Subtract"@])
}

/// Heads that bind looser than a power: those looser than a product, and
/// products and quotients.
pub open spec fn looser_than_power(e: WExprV) -> bool {
    headed_among(e, seq!["ReplaceAll"@, "ReplaceRepeated"@, "Function"@, "Plus"@, "Subtract"@, "Times"@, "Divide"@])
}

/// Heads that bind looser than a negation or a part: those looser than a
/// power, and powers.
pub open spec fn looser_than_unary(e: WExprV) -> bool {
    headed_among(
        e,
        seq!["ReplaceAll"@, "ReplaceRepeated"@, "Function"@, "Plus"@, "Subtract"@, "Times"@, "Divide"@, "Power"@],
    )
}

/// The text of `e`, in parentheses when `wrap` holds.
pub open spec fn bracketed(e: WExprV, wrap: bool) -> Seq<char> {
    if wrap {
        "("@ + spec_render(e) + ")"@
    } else {
        spec_render(e)
    }
}

/// Each looser-binding class is exactly the heads below a precedence level.
proof fn lemma_looser_levels(e: WExprV)
    ensures
        looser_than_function(e) <==> w_prec(e) < 2,
        looser_than_sum(e) <==> w_prec(e) < 3,
        looser_than_product(e) <==> w_prec(e) < 4,
        looser_than_power(e) <==> w_prec(e) < 5,
        looser_than_unary(e) <==> w_prec(e) < 6,
        looser_than_unary(e) <==> w_prec(e) < 7,
{
    match spec_w_head_name(e) {
        Some(h) => {
            let l2 = seq!["ReplaceAll"@, "ReplaceRepeated"@];
            let l3 = seq!["ReplaceAll"@, "ReplaceRepeated"@, "Function"@];
            let l4 = seq!["ReplaceAll"@, "ReplaceRepeated"@, "Function"@, "Plus"@, "Subtract"@];
            let l5 = seq!["ReplaceAll"@, "ReplaceRepeated"@, "Function"@, "Plus"@, "Subtract"@, "Times"@, "Divide"@];
            let l6 = seq![
                "ReplaceAll"@,
                "ReplaceRepeated"@,
                "Function"@,
                "Plus"@,
                "Subtract"@,
                "Times"@,
                "Divide"@,
                "Power"@,
            ];
            if w_prec(e) == 1 {
                if h == "ReplaceAll"@ {
                    assert(l2[0] == h && l3[0] == h && l4[0] == h && l5[0] == h && l6[0] == h);
                } else {
                    assert(l2[1] == h && l3[1] == h && l4[1] == h && l5[1] == h && l6[1] == h);
                }
            } else if w_prec(e) == 2 {
                assert(l3[2] == h && l4[2] == h && l5[2] == h && l6[2] == h);
            } else if w_prec(e) == 3 {
                if h == "Plus"@ {
                    assert(l4[3] == h && l5[3] == h && l6[3] == h);
                } else {
                    assert(l4[4] == h && l5[4] == h && l6[4] == h);
                }
            } else if w_prec(e) == 4 {
                if h == "Times"@ {
                    assert(l5[5] == h && l6[5] == h);
                } else {
                    assert(l5[6] == h && l6[6] == h);
                }
            } else if w_prec(e) == 5 {
                assert(l6[7] == h);
            }
        },
        None => {},
    }
}

/// Operands rendered against a parent level are bracketed exactly when
/// they bind looser than a product (at level 4) or a sum (at level 3).
proof fn lemma_render_all_bracketed(s: Seq<WExprV>)
    ensures
        spec_render_all(s, 4) == Seq::new(s.len(), |i: int| bracketed(s[i], looser_than_product(s[i]))),
        spec_render_all(s, 3) == Seq::new(s.len(), |i: int| bracketed(s[i], looser_than_sum(s[i]))),
    decreases s.len(),
{
    if s.len() > 0 {
        lemma_render_all_bracketed(s.drop_last());
        lemma_looser_levels(s.last());
        assert forall|i: int| 0 <= i < s.len() - 1 implies s.drop_last()[i] == #[trigger] s[i] by {}
        assert(spec_render_all(s, 4) == spec_render_all(s.drop_last(), 4).push(spec_paren(s.last(), 4)));
        assert(spec_render_all(s, 3) == spec_render_all(s.drop_last(), 3).push(spec_paren(s.last(), 3)));
        assert(spec_paren(s.last(), 4) == bracketed(s.last(), looser_than_product(s.last())));
        assert(spec_paren(s.last(), 3) == bracketed(s.last(), looser_than_sum(s.last())));
        assert(spec_render_all(s, 4) =~= Seq::new(s.len(), |i: int| bracketed(s[i], looser_than_product(s[i]))));
        assert(spec_render_all(s, 3) =~= Seq::new(s.len(), |i: int| bracketed(s[i], looser_than_sum(s[i]))));
    } else {
        assert(spec_render_all(s, 4) =~= Seq::new(s.len(), |i: int| bracketed(s[i], looser_than_product(s[i]))));
        assert(spec_render_all(s, 3) =~= Seq::new(s.len(), |i: int| bracketed(s[i], looser_than_sum(s[i]))));
    }
}

/// The infix head names are pairwise different.
proof fn lemma_infix_names_distinct()
    ensures
        "Plus"@ != "Times"@,
        "Plus"@ != "Power"@,
        "Plus"@ != "Subtract"@,
        "Plus"@ != "Divide"@,
        "Plus"@ != "Rule"@,
        "Plus"@ != "RuleDelayed"@,
        "Plus"@ != "ReplaceAll"@,
        "Plus"@ != "Function"@,
        "Plus"@ != "Part"@,
        "Times"@ != "Power"@,
        "Times"@ != "Subtract"@,
        "Times"@ != "Divide"@,
        "Times"@ != "Rule"@,
        "Times"@ != "RuleDelayed"@,
        "Times"@ != "ReplaceAll"@,
        "Times"@ != "Function"@,
        "Times"@ != "Part"@,
        "Power"@ != "Subtract"@,
        "Power"@ != "Divide"@,
        "Power"@ != "Rule"@,
        "Power"@ != "RuleDelayed"@,
        "Power"@ != "ReplaceAll"@,
        "Power"@ != "Function"@,
        "Power"@ != "Part"@,
        "Subtract"@ != "Divide"@,
        "Subtract"@ != "Rule"@,
        "Subtract"@ != "RuleDelayed"@,
        "Subtract"@ != "ReplaceAll"@,
        "Subtract"@ != "Function"@,
        "Subtract"@ != "Part"@,
        "Divide"@ != "Rule"@,
        "Divide"@ != "RuleDelayed"@,
        "Divide"@ != "ReplaceAll"@,
        "Divide"@ != "Function"@,
        "Divide"@ != "Part"@,
        "Rule"@ != "RuleDelayed"@,
        "Rule"@ != "ReplaceAll"@,
        "Rule"@ != "Function"@,
        "Rule"@ != "Part"@,
        "RuleDelayed"@ != "ReplaceAll"@,
        "RuleDelayed"@ != "Function"@,
        "RuleDelayed"@ != "Part"@,
        "ReplaceAll"@ != "Function"@,
        "ReplaceAll"@ != "Part"@,
        "Function"@ != "Part"@,
{
    reveal_strlit("Plus");
    reveal_strlit("Times");
    reveal_strlit("Power");
    reveal_strlit("Subtract");
    reveal_strlit("Divide");
    reveal_strlit("Rule");
    reveal_strlit("RuleDelayed");
    reveal_strlit("ReplaceAll");
    reveal_strlit("Function");
    reveal_strlit("Part");
    assert("Plus"@.len() != "Times"@.len());
    assert("Plus"@.len() != "Power"@.len());
    assert("Plus"@.len() != "Subtract"@.len());
    assert("Plus"@.len() != "Divide"@.len());
    assert("Plus"@[0] != "Rule"@[0]);
    assert("Plus"@.len() != "RuleDelayed"@.len());
    assert("Plus"@.len() != "ReplaceAll"@.len());
    assert("Plus"@.len() != "Function"@.len());
    assert("Plus"@[1] != "Part"@[1]);
    assert("Times"@[0] != "Power"@[0]);
    assert("Times"@.len() != "Subtract"@.len());
    assert("Times"@.len() != "Divide"@.len());
    assert("Times"@.len() != "Rule"@.len());
    assert("Times"@.len() != "RuleDelayed"@.len());
    assert("Times"@.len() != "ReplaceAll"@.len());
    assert("Times"@.len() != "Function"@.len());
    assert("Times"@.len() != "Part"@.len());
    assert("Power"@.len() != "Subtract"@.len());
    assert("Power"@.len() != "Divide"@.len());
    assert("Power"@.len() != "Rule"@.len());
    assert("Power"@.len() != "RuleDelayed"@.len());
    assert("Power"@.len() != "ReplaceAll"@.len());
    assert("Power"@.len() != "Function"@.len());
    assert("Power"@.len() != "Part"@.len());
    assert("Subtract"@.len() != "Divide"@.len());
    assert("Subtract"@.len() != "Rule"@.len());
    assert("Subtract"@.len() != "RuleDelayed"@.len());
    assert("Subtract"@.len() != "ReplaceAll"@.len());
    assert("Subtract"@[0] != "Function"@[0]);
    assert("Subtract"@.len() != "Part"@.len());
    assert("Divide"@.len() != "Rule"@.len());
    assert("Divide"@.len() != "RuleDelayed"@.len());
    assert("Divide"@.len() != "ReplaceAll"@.len());
    assert("Divide"@.len() != "Function"@.len());
    assert("Divide"@.len() != "Part"@.len());
    assert("Rule"@.len() != "RuleDelayed"@.len());
    assert("Rule"@.len() != "ReplaceAll"@.len());
    assert("Rule"@.len() != "Function"@.len());
    assert("Rule"@[0] != "Part"@[0]);
    assert("RuleDelayed"@.len() != "ReplaceAll"@.len());
    assert("RuleDelayed"@.len() != "Function"@.len());
    assert("RuleDelayed"@.len() != "Part"@.len());
    assert("ReplaceAll"@.len() != "Function"@.len());
    assert("ReplaceAll"@.len() != "Part"@.len());
    assert("Function"@.len() != "Part"@.len());
}

/// Rendering against a level brackets exactly the looser-binding heads.
proof fn lemma_paren_bracketed(e: WExprV)
    ensures
        spec_paren(e, 1) == spec_render(e),
        spec_paren(e, 2) == bracketed(e, looser_than_function(e)),
        spec_paren(e, 3) == bracketed(e, looser_than_sum(e)),
        spec_paren(e, 4) == bracketed(e, looser_than_product(e)),
        spec_paren(e, 5) == bracketed(e, looser_than_power(e)),
        spec_paren(e, 6) == bracketed(e, looser_than_unary(e)),
        spec_paren(e, 7) == bracketed(e, looser_than_unary(e)),
{
    lemma_looser_levels(e);
    assert(w_prec(e) >= 1);
}

/// The text of a call with a symbol head: its infix text when it has one.
proof fn lemma_render_call(name: Seq<char>, args: Seq<WExprV>)
    ensures
        spec_render(call_w(name, args)) == match spec_infix(call_w(name, args)) {
            Some(x) => x,
            None => name + "["@ + sep_join(spec_render_all(args, 0), ", "@) + "]"@,
        },
{
    assert(spec_render(symbol_w(name)) == name);
}

/// Products and sums: the factors of a product are joined by `*`, each in
/// parentheses exactly when it binds looser than a product (a sum, a
/// difference, a pure function or a replacement), so `(a + b)*c` reads back
/// as the same product; the terms of a sum are joined by ` + `, each in
/// parentheses exactly when it binds looser than a sum. A two-factor product
/// whose first factor is `-1` renders as a negation.
pub proof fn lemma_render_products_and_sums(args: Seq<WExprV>)
    requires
        args.len() >= 2,
    ensures
        !(args.len() == 2 && spec_w_is_neg_one(args[0])) ==> spec_render(call_w("Times"@, args)) == sep_join(
            Seq::new(args.len(), |i: int| bracketed(args[i], looser_than_product(args[i]))),
            "*"@,
        ),
        spec_render(call_w("Plus"@, args)) == sep_join(
            Seq::new(args.len(), |i: int| bracketed(args[i], looser_than_sum(args[i]))),
            " + "@,
        ),
        (args.len() == 2 && spec_w_is_neg_one(args[0])) ==> spec_render(call_w("Times"@, args)) == "-"@ + bracketed(
            args[1],
            looser_than_unary(args[1]),
        ),
{
    lemma_infix_names_distinct();
    lemma_render_all_bracketed(args);
    lemma_looser_levels(args[1]);
    let t = call_w("Times"@, args);
    let p = call_w("Plus"@, args);
    assert(spec_render(t) == match spec_infix(t) {
        Some(x) => x,
        None => spec_render(symbol_w("Times"@)) + "["@ + sep_join(spec_render_all(args, 0), ", "@) + "]"@,
    });
    assert(spec_render(p) == match spec_infix(p) {
        Some(x) => x,
        None => spec_render(symbol_w("Plus"@)) + "["@ + sep_join(spec_render_all(args, 0), ", "@) + "]"@,
    });
    assert(spec_infix(p) == Some(sep_join(spec_render_all(args, 3), " + "@)));
    if !(args.len() == 2 && spec_w_is_neg_one(args[0])) {
        assert(spec_infix(t) == Some(sep_join(spec_render_all(args, 4), "*"@)));
    } else {
        assert(spec_infix(t) == Some("-"@ + spec_paren(args[1], 6)));
    }
}

/// Two-factor products, in order: `x*y` with each factor bracketed exactly
/// when it binds looser than a product; in particular `Times[Plus[a, b], c]`
/// renders as `(a + b)*` followed by `c`'s text.
pub proof fn lemma_render_product_pair(x: WExprV, y: WExprV)
    requires
        !spec_w_is_neg_one(x),
    ensures
        spec_render(call_w("Times"@, seq![x, y])) == bracketed(x, looser_than_product(x)) + "*"@ + bracketed(
            y,
            looser_than_product(y),
        ),
        looser_than_product(x) ==> spec_render(call_w("Times"@, seq![x, y])) == "("@ + spec_render(x) + ")*"@
            + bracketed(y, looser_than_product(y)),
{
    let args = seq![x, y];
    lemma_render_products_and_sums(args);
    let parts = Seq::new(args.len(), |i: int| bracketed(args[i], looser_than_product(args[i])));
    assert(parts =~= seq![bracketed(x, looser_than_product(x)), bracketed(y, looser_than_product(y))]);
    lemma_sep_join_pair(bracketed(x, looser_than_product(x)), bracketed(y, looser_than_product(y)), "*"@);
    reveal_strlit(")*");
    reveal_strlit(")");
    reveal_strlit("*");
    assert(")*"@ =~= ")"@ + "*"@);
    assert(("("@ + spec_render(x) + ")"@) + "*"@ + bracketed(y, looser_than_product(y)) =~= "("@ + spec_render(x)
        + ")*"@ + bracketed(y, looser_than_product(y)));
}

/// Binary operators in order: `x - y` (left bracketed when looser than a
/// sum, right when looser than a product), `x/y` (left when looser than a
/// product, right when looser than a power), `x^y` (both when looser than a
/// power), `x -> y` and `x :> y` bare, `x /. y` bare, `x &` (bracketed when
/// a replacement), `x[[i]]` (bracketed when looser than a part).
pub proof fn lemma_render_binary_operators(x: WExprV, y: WExprV)
    ensures
        spec_render(call_w("Subtract"@, seq![x, y])) == bracketed(x, looser_than_sum(x)) + " - "@ + bracketed(
            y,
            looser_than_product(y),
        ),
        spec_render(call_w("Divide"@, seq![x, y])) == bracketed(x, looser_than_product(x)) + "/"@ + bracketed(
            y,
            looser_than_power(y),
        ),
        spec_render(call_w("Power"@, seq![x, y])) == bracketed(x, looser_than_power(x)) + "^"@ + bracketed(
            y,
            looser_than_power(y),
        ),
        spec_render(call_w("Rule"@, seq![x, y])) == spec_render(x) + " -> "@ + spec_render(y),
        spec_render(call_w("RuleDelayed"@, seq![x, y])) == spec_render(x) + " :> "@ + spec_render(y),
        spec_render(call_w("ReplaceAll"@, seq![x, y])) == spec_render(x) + " /. "@ + spec_render(y),
        spec_render(call_w("Function"@, seq![x])) == bracketed(x, looser_than_function(x)) + " &"@,
        spec_render(call_w("Part"@, seq![x, y])) == bracketed(x, looser_than_unary(x)) + "[["@ + spec_render(y)
            + "]]"@,
{
    lemma_infix_names_distinct();
    lemma_paren_bracketed(x);
    lemma_paren_bracketed(y);
    let xy = seq![x, y];
    lemma_render_call("Subtract"@, xy);
    lemma_render_call("Divide"@, xy);
    lemma_render_call("Power"@, xy);
    lemma_render_call("Rule"@, xy);
    lemma_render_call("RuleDelayed"@, xy);
    lemma_render_call("ReplaceAll"@, xy);
    lemma_render_call("Function"@, seq![x]);
    lemma_render_call("Part"@, xy);
}


/// Escaping quotes: a text without `"` is left alone, a `"` becomes `\"`,
/// and escaping works piece by piece.
pub proof fn lemma_escape_quotes(a: Seq<char>, b: Seq<char>)
    ensures
        (forall|i: int| 0 <= i < a.len() ==> a[i] != '"') ==> escape_quotes(a) == a,
        escape_quotes(seq!['"']) == seq!['\\', '"'],
        escape_quotes(a + b) == escape_quotes(a) + escape_quotes(b),
    decreases a.len() + b.len(),
{
    assert(seq!['"'].drop_last() =~= Seq::<char>::empty());
    assert(escape_quotes(Seq::<char>::empty()) == Seq::<char>::empty());
    assert(seq!['"'].last() == '"');
    assert(escape_quotes(seq!['"']) =~= Seq::<char>::empty() + seq!['\\', '"']);
    if b.len() > 0 {
        lemma_escape_quotes(a, b.drop_last());
        assert((a + b).drop_last() =~= a + b.drop_last());
        assert((a + b).last() == b.last());
    } else {
        assert(a + b =~= a);
    }
    if a.len() > 0 && (forall|i: int| 0 <= i < a.len() ==> a[i] != '"') {
        lemma_escape_quotes(a.drop_last(), Seq::<char>::empty());
        assert(a.drop_last() + Seq::<char>::empty() =~= a.drop_last());
        assert(forall|i: int| 0 <= i < a.drop_last().len() ==> a.drop_last()[i] == a[i]);
        assert(escape_quotes(a.drop_last()) == a.drop_last());
        assert(a.drop_last().push(a.last()) =~= a);
    }
}

/// Lists and ordinary calls: `{x, y}` and `f[x, y]` list their items'
/// texts in order, separated by `, ` and never parenthesized; a string
/// renders between double quotes with its quotes escaped.
pub proof fn lemma_render_lists_and_calls(f: Seq<char>, x: WExprV, y: WExprV, t: Seq<char>)
    requires
        f != "Plus"@ && f != "Times"@ && f != "Power"@ && f != "Subtract"@ && f != "Divide"@ && f != "Rule"@ && f
            != "RuleDelayed"@ && f != "ReplaceAll"@ && f != "Function"@ && f != "Part"@,
    ensures
        spec_render(WExprV::List(seq![x, y])) == "{"@ + spec_render(x) + ", "@ + spec_render(y) + "}"@,
        spec_render(call_w(f, seq![x, y])) == f + "["@ + spec_render(x) + ", "@ + spec_render(y) + "]"@,
        spec_render(WExprV::Atom(WAtomV::String(t))) == "\""@ + escape_quotes(t) + "\""@,
{
    let xy = seq![x, y];
    lemma_paren_bracketed(x);
    lemma_paren_bracketed(y);
    assert(xy.drop_last() =~= seq![x]);
    assert(seq![x].drop_last() =~= Seq::<WExprV>::empty());
    assert(spec_render_all(seq![x], 0) == spec_render_all(Seq::<WExprV>::empty(), 0).push(spec_paren(x, 0)));
    assert(spec_paren(x, 0) == spec_render(x) && spec_paren(y, 0) == spec_render(y)) by {
        lemma_looser_levels(x);
        lemma_looser_levels(y);
    }
    assert(spec_render_all(xy, 0) =~= seq![spec_render(x), spec_render(y)]);
    lemma_sep_join_pair(spec_render(x), spec_render(y), ", "@);
    lemma_render_call(f, xy);
    assert("{"@ + (spec_render(x) + ", "@ + spec_render(y)) + "}"@ =~= "{"@ + spec_render(x) + ", "@ + spec_render(y)
        + "}"@);
    assert(f + "["@ + (spec_render(x) + ", "@ + spec_render(y)) + "]"@ =~= f + "["@ + spec_render(x) + ", "@
        + spec_render(y) + "]"@);
}

} // verus!
