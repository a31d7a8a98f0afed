//! Lower a Wolfram concrete syntax tree into a form. Symbol and literal text
//! is read from the source by byte span; offsets follow the children's
//! lengths left to right.

use vstd::prelude::*;
use vstd::string::*;
use vstd::utf8::*;

use crate::error::{SxoError, error_from_str};
use crate::number::{
    NumberV, all_digits, canonical_decimal, digits_value, grouped_digits_ok, is_white, lemma_digit_literals,
    lemma_float_run_rejects, nat_digits, parse_number_literal, spec_number_literal, trim_end_spec, trim_spec,
    trim_start_spec, trim_str, u64_to_decimal,
};
use crate::strings::{concat2, concat3};
use crate::wexpr::{WAtom, WAtomV, WExpr, WExprV, lemma_wexprs_view, spec_w_is_symbol, wexprs_view};
use crate::wolfram_tree::{
    GreenChild, GreenLeaf, GreenNode, WolframElement, WolframToken, child_offset, child_weight, is_trivia,
    is_trivia_exec, lemma_child_fits, lemma_weight_upto, lemma_weight_upto_mono, node_span, token_name, token_name_exec, tree_weight,
    weight_upto,
};

verus! {

// ------------------------------------------------------------------ source text

/// Text of the source bytes `start..start + len`, when that span lies inside
/// the source and both ends fall on character boundaries.
pub open spec fn span_text(src: Seq<u8>, start: int, len: int) -> Option<Seq<char>> {
    if 0 <= start && 0 <= len && start + len <= src.len() && is_char_boundary(src, start) && is_char_boundary(
        src,
        start + len,
    ) {
        Some(decode_utf8(src.subrange(start, start + len)))
    } else {
        None
    }
}

/// Message for a span that does not lie on the source.
pub open spec fn bad_span_message(start: int, end: int) -> Seq<char> {
    "mathematica(oak): bad span "@ + nat_digits(start as nat) + ".."@ + nat_digits(end as nat)
}

/// `s` without leading `"` characters.
pub open spec fn trim_start_quotes(s: Seq<char>) -> Seq<char>
    decreases s.len(),
{
    if s.len() > 0 && s[0] == '"' {
        trim_start_quotes(s.drop_first())
    } else {
        s
    }
}

/// `s` without trailing `"` characters.
pub open spec fn trim_end_quotes(s: Seq<char>) -> Seq<char>
    decreases s.len(),
{
    if s.len() > 0 && s.last() == '"' {
        trim_end_quotes(s.drop_last())
    } else {
        s
    }
}

/// `s` without leading and trailing `"` characters.
pub open spec fn trim_quotes_spec(s: Seq<char>) -> Seq<char> {
    trim_end_quotes(trim_start_quotes(s))
}

/// `str::get` on a byte range: the sub-slice when both ends are in bounds,
/// ordered and on character boundaries, `None` otherwise.
#[verifier::external_body]
fn str_get(s: &str, start: usize, end: usize) -> (r: Option<&str>)
    ensures
        r is Some <==> (start <= end && end <= s.spec_bytes().len() && is_char_boundary(
            s.spec_bytes(),
            start as int,
        ) && is_char_boundary(s.spec_bytes(), end as int)),
        r matches Some(t) ==> t.spec_bytes() == s.spec_bytes().subrange(start as int, end as int),
{
    s.get(start..end)
}

/// `str::trim_matches('"')`: the slice with every leading and trailing `"`
/// removed.
#[verifier::external_body]
fn trim_quotes(s: &str) -> (r: &str)
    ensures
        r@ == trim_quotes_spec(s@),
{
    s.trim_matches('"')
}

/// The source text of `start..start + len`, or the bad-span error.
pub fn slice(src: &str, start: usize, len: u32) -> (r: Result<&str, SxoError>)
    requires
        start + len <= usize::MAX,
    ensures
        r matches Ok(t) ==> span_text(src.spec_bytes(), start as int, len as int) == Some(t@),
        r matches Err(e) ==> span_text(src.spec_bytes(), start as int, len as int) is None && e.message@
            == bad_span_message(start as int, start + len),
{
    let end = start + len as usize;
    match str_get(src, start, end) {
        Some(t) => {
            proof {
                encode_utf8_decode_utf8(t@);
            }
            Ok(t)
        },
        None => {
            let mut msg = String::from_str("mathematica(oak): bad span ");
            let a = u64_to_decimal(start as u64);
            msg.append(a.as_str());
            msg.append("..");
            let b = u64_to_decimal(end as u64);
            msg.append(b.as_str());
            Err(SxoError::new(msg))
        },
    }
}

// ------------------------------------------------------------------ form helpers

/// Symbol atom view.
pub open spec fn symbol_w(s: Seq<char>) -> WExprV {
    WExprV::Atom(WAtomV::Symbol(s))
}

/// `head[args…]` with a symbol head.
pub open spec fn call_w(head: Seq<char>, args: Seq<WExprV>) -> WExprV {
    WExprV::Call { head: Box::new(symbol_w(head)), args }
}

/// Exact integer atom view.
pub open spec fn int_w(v: int) -> WExprV {
    WExprV::Atom(WAtomV::Number(NumberV::Integer(canonical_decimal(v))))
}

/// View of a lowering result: the form, or the error message.
pub open spec fn form_result(r: Result<WExpr, SxoError>) -> Result<WExprV, Seq<char>> {
    match r {
        Ok(w) => Ok(w@),
        Err(e) => Err(e.message@),
    }
}

/// View of a lowering result of several forms.
pub open spec fn forms_result(r: Result<Vec<WExpr>, SxoError>) -> Result<Seq<WExprV>, Seq<char>> {
    match r {
        Ok(v) => Ok(wexprs_view(v@)),
        Err(e) => Err(e.message@),
    }
}

/// `prefix` followed by the forms of `r`, or the error of `r`.
pub open spec fn prepend_forms(prefix: Seq<WExprV>, r: Result<Seq<WExprV>, Seq<char>>) -> Result<
    Seq<WExprV>,
    Seq<char>,
> {
    match r {
        Ok(rest) => Ok(prefix + rest),
        Err(e) => Err(e),
    }
}

// ------------------------------------------------------------------ literals

/// Form of a literal: a number when the trimmed text is a number literal, a
/// string (quotes trimmed) when it starts with `"`, an error otherwise.
pub open spec fn literal_spec(src: Seq<u8>, start: int, len: int) -> Result<WExprV, Seq<char>> {
    match span_text(src, start, len) {
        None => Err(bad_span_message(start, start + len)),
        Some(t) => {
            let s = trim_spec(t);
            match spec_number_literal(s) {
                Some(n) => Ok(WExprV::Atom(WAtomV::Number(n))),
                None => if s.len() > 0 && s[0] == '"' {
                    Ok(WExprV::Atom(WAtomV::String(trim_quotes_spec(s))))
                } else {
                    Err("mathematica(oak): bad literal `"@ + s + "`"@)
                },
            }
        },
    }
}

/// Lower a literal node.
fn lower_literal(src: &str, start: usize, len: u32) -> (r: Result<WExpr, SxoError>)
    requires
        start + len <= usize::MAX,
    ensures
        form_result(r) == literal_spec(src.spec_bytes(), start as int, len as int),
{
    match slice(src, start, len) {
        Err(e) => Err(e),
        Ok(raw) => {
            let text = trim_str(raw);
            match parse_number_literal(text) {
                Some(n) => Ok(WExpr::number(n)),
                None => {
                    if text.unicode_len() > 0 && text.get_char(0) == '"' {
                        let inner = trim_quotes(text);
                        Ok(WExpr::Atom(WAtom::String(String::from_str(inner))))
                    } else {
                        Err(SxoError::new(concat3("mathematica(oak): bad literal `", text, "`")))
                    }
                },
            }
        },
    }
}

// ------------------------------------------------------------------ operators

/// First non-trivia token leaf from child `i` on.
pub open spec fn first_op(cs: Seq<GreenChild>, i: int) -> Option<WolframToken>
    decreases cs.len() - i,
{
    if i < 0 || i >= cs.len() {
        None
    } else {
        match cs[i] {
            GreenChild::Leaf(l) => if !is_trivia(l.kind) {
                Some(l.kind)
            } else {
                first_op(cs, i + 1)
            },
            GreenChild::Node(_) => first_op(cs, i + 1),
        }
    }
}

/// First non-trivia token leaf from child `i` on that comes after a node
/// child (`seen`: a node child came before `i`).
pub open spec fn op_after_node(cs: Seq<GreenChild>, i: int, seen: bool) -> Option<WolframToken>
    decreases cs.len() - i,
{
    if i < 0 || i >= cs.len() {
        None
    } else {
        match cs[i] {
            GreenChild::Leaf(l) => if seen && !is_trivia(l.kind) {
                Some(l.kind)
            } else {
                op_after_node(cs, i + 1, seen)
            },
            GreenChild::Node(_) => op_after_node(cs, i + 1, true),
        }
    }
}

/// Whether a token is a postfix operator (`&` or `!`).
pub open spec fn is_postfix_token(k: WolframToken) -> bool {
    k is Ampersand || k is Factorial
}

/// Last postfix operator leaf from child `i` on.
pub open spec fn postfix_op(cs: Seq<GreenChild>, i: int) -> Option<WolframToken>
    decreases cs.len() - i,
{
    if i < 0 || i >= cs.len() {
        None
    } else {
        let rest = postfix_op(cs, i + 1);
        if rest is Some {
            rest
        } else {
            match cs[i] {
                GreenChild::Leaf(l) => if !is_trivia(l.kind) && is_postfix_token(l.kind) {
                    Some(l.kind)
                } else {
                    None
                },
                GreenChild::Node(_) => None,
            }
        }
    }
}

/// Head a binary operator token names when it builds `head[left, right]`.
pub open spec fn binary_head(k: WolframToken) -> Option<Seq<char>> {
    match k {
        WolframToken::Plus => Some("Plus"@),
        WolframToken::Minus => Some("Subtract"@),
        WolframToken::Times => Some("Times"@),
        WolframToken::Divide => Some("Divide"@),
        WolframToken::Power => Some("Power"@),
        WolframToken::Arrow => Some("Rule"@),
        WolframToken::Rule => Some("Rule"@),
        WolframToken::RuleDelayedOp => Some("RuleDelayed"@),
        WolframToken::RuleDelayed => Some("RuleDelayed"@),
        WolframToken::DoubleArrow => Some("RuleDelayed"@),
        WolframToken::MapOperator => Some("Map"@),
        WolframToken::ApplyOperator => Some("Apply"@),
        WolframToken::MapAllOperator => Some("MapAll"@),
        WolframToken::Semicolon => Some("CompoundExpression"@),
        WolframToken::Assign => Some("Set"@),
        WolframToken::SetKeyword => Some("Set"@),
        WolframToken::SetDelayed => Some("SetDelayed"@),
        WolframToken::Equal => Some("Equal"@),
        WolframToken::NotEqual => Some("Unequal"@),
        WolframToken::Less => Some("Less"@),
        WolframToken::Greater => Some("Greater"@),
        WolframToken::LessEqual => Some("LessEqual"@),
        WolframToken::GreaterEqual => Some("GreaterEqual"@),
        WolframToken::And => Some("And"@),
        WolframToken::Or => Some("Or"@),
        _ => None,
    }
}

/// Form of `left op right`: `f @ x` is `f[x]`, `x // f` is `f[x]`, `@@@`
/// applies at level one, the other operators name a head.
pub open spec fn binary_apply(l: WExprV, k: WolframToken, r: WExprV) -> Result<WExprV, Seq<char>> {
    match k {
        WolframToken::At => Ok(WExprV::Call { head: Box::new(l), args: seq![r] }),
        WolframToken::SlashSlash => Ok(WExprV::Call { head: Box::new(r), args: seq![l] }),
        WolframToken::ApplyLevelOperator => Ok(call_w("Apply"@, seq![l, r, WExprV::List(seq![int_w(1)])])),
        _ => match binary_head(k) {
            Some(h) => Ok(call_w(h, seq![l, r])),
            None => Err("mathematica(oak): unsupported binary "@ + token_name(k)),
        },
    }
}

/// Form of a prefix node from its operator and its lowered operands.
pub open spec fn prefix_form(op: Option<WolframToken>, ws: Result<Seq<WExprV>, Seq<char>>) -> Result<
    WExprV,
    Seq<char>,
> {
    match ws {
        Err(e) => Err(e),
        Ok(ws) => match op {
            None => Err("mathematica(oak): malformed PrefixExpr"@),
            Some(k) => if k is Minus && ws.len() > 0 {
                Ok(call_w("Times"@, seq![int_w(-1), ws.last()]))
            } else if k is Factorial && ws.len() > 0 {
                Ok(call_w("Not"@, seq![ws.last()]))
            } else {
                Err("mathematica(oak): unsupported prefix "@ + token_name(k))
            },
        },
    }
}

/// Form of a binary node: the first operand, the operator after it, the last
/// operand.
pub open spec fn binary_form(op: Option<WolframToken>, ws: Result<Seq<WExprV>, Seq<char>>) -> Result<
    WExprV,
    Seq<char>,
> {
    match ws {
        Err(e) => Err(e),
        Ok(ws) => if ws.len() >= 2 && op is Some {
            binary_apply(ws[0], op->0, ws.last())
        } else {
            Err("mathematica(oak): malformed BinaryExpr"@)
        },
    }
}

/// Form of a postfix node: `x&` is `Function[x]`, `x!` is `Factorial[x]`.
pub open spec fn postfix_form(op: Option<WolframToken>, ws: Result<Seq<WExprV>, Seq<char>>) -> Result<
    WExprV,
    Seq<char>,
> {
    match ws {
        Err(e) => Err(e),
        Ok(ws) => if ws.len() == 0 {
            Err("mathematica(oak): malformed PostfixExpr"@)
        } else {
            match op {
                None => Ok(ws.last()),
                Some(k) => if k is Ampersand {
                    Ok(call_w("Function"@, seq![ws.last()]))
                } else if k is Factorial {
                    Ok(call_w("Factorial"@, seq![ws.last()]))
                } else {
                    Err("mathematica(oak): unsupported postfix "@ + token_name(k))
                },
            }
        },
    }
}

/// `h` applied to each bracket group in turn: `h[g0][g1]…`.
pub open spec fn apply_groups(h: WExprV, gs: Seq<Seq<WExprV>>) -> WExprV
    decreases gs.len(),
{
    if gs.len() == 0 {
        h
    } else {
        apply_groups(WExprV::Call { head: Box::new(h), args: gs[0] }, gs.drop_first())
    }
}

/// Form of a call from its head and bracket groups: no group gives `h[]`,
/// `List` with one group gives a list, otherwise the groups apply in turn.
pub open spec fn call_form(head: Option<WExprV>, groups: Seq<Seq<WExprV>>) -> Result<WExprV, Seq<char>> {
    match head {
        None => Err("mathematica(oak): call missing head"@),
        Some(h) => if groups.len() == 0 {
            Ok(WExprV::Call { head: Box::new(h), args: seq![] })
        } else if spec_w_is_symbol(h, "List"@) && groups.len() == 1 {
            Ok(WExprV::List(groups[0]))
        } else {
            Ok(apply_groups(h, groups))
        },
    }
}

// ------------------------------------------------------------------ tree lowering

/// Form of a node whose text starts at byte `start` of `src`.
pub open spec fn lower_node_spec(n: GreenNode, src: Seq<u8>, start: int) -> Result<WExprV, Seq<char>>
    decreases n, 2int,
{
    let cs = n.children@;
    match n.kind {
        WolframElement::Root => first_node_spec(cs, src, start, 0),
        WolframElement::Expression => first_node_spec(cs, src, start, 0),
        WolframElement::Literal => literal_spec(src, start, n.byte_length as int),
        WolframElement::Symbol => match span_text(src, start, n.byte_length as int) {
            None => Err(bad_span_message(start, start + n.byte_length)),
            Some(t) => Ok(symbol_w(trim_spec(t))),
        },
        WolframElement::List => match lower_nodes_spec(cs, src, start, 0, true) {
            Ok(ws) => Ok(WExprV::List(ws)),
            Err(e) => Err(e),
        },
        WolframElement::PrefixExpr => prefix_form(first_op(cs, 0), lower_nodes_spec(cs, src, start, 0, false)),
        WolframElement::BinaryExpr => binary_form(
            op_after_node(cs, 0, false),
            lower_nodes_spec(cs, src, start, 0, false),
        ),
        WolframElement::PostfixExpr => postfix_form(postfix_op(cs, 0), lower_nodes_spec(cs, src, start, 0, false)),
        WolframElement::Call => match call_scan_spec(cs, src, start, 0, None, seq![]) {
            Err(e) => Err(e),
            Ok(st) => call_form(st.0, st.1),
        },
        WolframElement::Arguments => Err("mathematica(oak): unexpected Arguments"@),
        WolframElement::Error => Err("mathematica(oak): error node"@),
    }
}

/// Forms of the node children from child `i` on, in order (error nodes
/// skipped when `skip_errors`); the first failure is the result.
pub open spec fn lower_nodes_spec(cs: Seq<GreenChild>, src: Seq<u8>, start: int, i: int, skip_errors: bool) -> Result<
    Seq<WExprV>,
    Seq<char>,
>
    decreases cs, cs.len() - i,
{
    if i < 0 || i >= cs.len() {
        Ok(seq![])
    } else {
        match cs[i] {
            GreenChild::Leaf(_) => lower_nodes_spec(cs, src, start, i + 1, skip_errors),
            GreenChild::Node(m) => if skip_errors && m.kind is Error {
                lower_nodes_spec(cs, src, start, i + 1, skip_errors)
            } else {
                match lower_node_spec(m, src, child_offset(cs, start, i)) {
                    Err(e) => Err(e),
                    Ok(w) => prepend_forms(seq![w], lower_nodes_spec(cs, src, start, i + 1, skip_errors)),
                }
            },
        }
    }
}

/// Form of the first node child from child `i` on.
pub open spec fn first_node_spec(cs: Seq<GreenChild>, src: Seq<u8>, start: int, i: int) -> Result<WExprV, Seq<char>>
    decreases cs, cs.len() - i,
{
    if i < 0 || i >= cs.len() {
        Err("mathematica(oak): empty Expression"@)
    } else {
        match cs[i] {
            GreenChild::Leaf(_) => first_node_spec(cs, src, start, i + 1),
            GreenChild::Node(m) => lower_node_spec(m, src, child_offset(cs, start, i)),
        }
    }
}

/// Head and bracket groups of a call, scanning from child `i` on: the first
/// identifier leaf or non-argument node gives the head, each argument node
/// gives a group.
pub open spec fn call_scan_spec(
    cs: Seq<GreenChild>,
    src: Seq<u8>,
    start: int,
    i: int,
    head: Option<WExprV>,
    groups: Seq<Seq<WExprV>>,
) -> Result<(Option<WExprV>, Seq<Seq<WExprV>>), Seq<char>>
    decreases cs, cs.len() - i,
{
    if i < 0 || i >= cs.len() {
        Ok((head, groups))
    } else {
        let off = child_offset(cs, start, i);
        match cs[i] {
            GreenChild::Leaf(l) => if l.kind is Identifier && head is None {
                match span_text(src, off, l.length as int) {
                    None => Err(bad_span_message(off, off + l.length)),
                    Some(t) => call_scan_spec(cs, src, start, i + 1, Some(symbol_w(trim_spec(t))), groups),
                }
            } else {
                call_scan_spec(cs, src, start, i + 1, head, groups)
            },
            GreenChild::Node(m) => if m.kind is Arguments {
                match lower_nodes_spec(m.children@, src, off, 0, true) {
                    Err(e) => Err(e),
                    Ok(args) => call_scan_spec(cs, src, start, i + 1, head, groups.push(args)),
                }
            } else if head is None {
                match lower_node_spec(m, src, off) {
                    Err(e) => Err(e),
                    Ok(w) => call_scan_spec(cs, src, start, i + 1, Some(w), groups),
                }
            } else {
                call_scan_spec(cs, src, start, i + 1, head, groups)
            },
        }
    }
}

/// Form of a whole tree: the last top-level node that is not an error node.
pub open spec fn lower_root_spec(root: GreenNode, src: Seq<u8>) -> Result<WExprV, Seq<char>> {
    match lower_nodes_spec(root.children@, src, 0, 0, true) {
        Err(e) => Err(e),
        Ok(ws) => if ws.len() == 0 {
            Err("mathematica(oak): empty root"@)
        } else {
            Ok(ws.last())
        },
    }
}

// ------------------------------------------------------------------ executable lowering

/// Views of bracket groups.
pub open spec fn groups_view(gs: Seq<Vec<WExpr>>) -> Seq<Seq<WExprV>> {
    Seq::new(gs.len(), |j: int| wexprs_view(gs[j]@))
}

/// View of an optional form.
pub open spec fn opt_form(h: Option<WExpr>) -> Option<WExprV> {
    match h {
        Some(w) => Some(w@),
        None => None,
    }
}

/// View of an optional token reference.
pub open spec fn opt_token(k: Option<&WolframToken>) -> Option<WolframToken> {
    match k {
        Some(t) => Some(*t),
        None => None,
    }
}

proof fn lemma_prepend_push(p: Seq<WExprV>, w: WExprV, r: Result<Seq<WExprV>, Seq<char>>)
    ensures
        prepend_forms(p, prepend_forms(seq![w], r)) == prepend_forms(p.push(w), r),
{
    if let Ok(rest) = r {
        assert(p + (seq![w] + rest) =~= p.push(w) + rest);
    }
}

proof fn lemma_wexprs_push(s: Seq<WExpr>, w: WExpr)
    ensures
        wexprs_view(s.push(w)) == wexprs_view(s).push(w@),
{
    assert(s.push(w).drop_last() =~= s);
}

fn one_form(a: WExpr) -> (v: Vec<WExpr>)
    ensures
        wexprs_view(v@) == seq![a@],
{
    let mut v: Vec<WExpr> = Vec::new();
    v.push(a);
    proof {
        lemma_wexprs_push(Seq::empty(), a);
        assert(Seq::<WExpr>::empty().push(a) =~= v@);
        assert(Seq::<WExprV>::empty().push(a@) =~= seq![a@]);
    }
    v
}

fn two_forms(a: WExpr, b: WExpr) -> (v: Vec<WExpr>)
    ensures
        wexprs_view(v@) == seq![a@, b@],
{
    let mut v = one_form(a);
    let ghost v0 = v@;
    v.push(b);
    proof {
        lemma_wexprs_push(v0, b);
        assert(seq![a@].push(b@) =~= seq![a@, b@]);
    }
    v
}

fn three_forms(a: WExpr, b: WExpr, c: WExpr) -> (v: Vec<WExpr>)
    ensures
        wexprs_view(v@) == seq![a@, b@, c@],
{
    let mut v = two_forms(a, b);
    let ghost v0 = v@;
    v.push(c);
    proof {
        lemma_wexprs_push(v0, c);
        assert(seq![a@, b@].push(c@) =~= seq![a@, b@, c@]);
    }
    v
}

fn first_op_exec(cs: &Vec<GreenChild>) -> (r: Option<&WolframToken>)
    ensures
        opt_token(r) == first_op(cs@, 0),
{
    let mut i: usize = 0;
    while i < cs.len()
        invariant
            i <= cs.len(),
            first_op(cs@, 0) == first_op(cs@, i as int),
        decreases cs.len() - i,
    {
        match &cs[i] {
            GreenChild::Leaf(leaf) => {
                if !is_trivia_exec(&leaf.kind) {
                    return Some(&leaf.kind);
                }
            },
            GreenChild::Node(_) => {},
        }
        i = i + 1;
    }
    None
}

fn op_after_node_exec(cs: &Vec<GreenChild>) -> (r: Option<&WolframToken>)
    ensures
        opt_token(r) == op_after_node(cs@, 0, false),
{
    let mut seen = false;
    let mut i: usize = 0;
    while i < cs.len()
        invariant
            i <= cs.len(),
            op_after_node(cs@, 0, false) == op_after_node(cs@, i as int, seen),
        decreases cs.len() - i,
    {
        match &cs[i] {
            GreenChild::Leaf(leaf) => {
                if seen && !is_trivia_exec(&leaf.kind) {
                    return Some(&leaf.kind);
                }
            },
            GreenChild::Node(_) => {
                seen = true;
            },
        }
        i = i + 1;
    }
    None
}

fn postfix_op_exec(cs: &Vec<GreenChild>) -> (r: Option<&WolframToken>)
    ensures
        opt_token(r) == postfix_op(cs@, 0),
{
    let mut op: Option<&WolframToken> = None;
    let mut i: usize = 0;
    while i < cs.len()
        invariant
            i <= cs.len(),
            postfix_op(cs@, 0) == (if postfix_op(cs@, i as int) is Some {
                postfix_op(cs@, i as int)
            } else {
                opt_token(op)
            }),
        decreases cs.len() - i,
    {
        match &cs[i] {
            GreenChild::Leaf(leaf) => {
                let postfix = match leaf.kind {
                    WolframToken::Ampersand => true,
                    WolframToken::Factorial => true,
                    _ => false,
                };
                if !is_trivia_exec(&leaf.kind) && postfix {
                    op = Some(&leaf.kind);
                }
            },
            GreenChild::Node(_) => {},
        }
        i = i + 1;
    }
    op
}

fn binary_head_exec(k: &WolframToken) -> (r: Option<&'static str>)
    ensures
        r matches Some(h) ==> binary_head(*k) == Some(h@),
        r is None ==> binary_head(*k) is None,
{
    match k {
        WolframToken::Plus => Some("Plus"),
        WolframToken::Minus => Some("Subtract"),
        WolframToken::Times => Some("Times"),
        WolframToken::Divide => Some("Divide"),
        WolframToken::Power => Some("Power"),
        WolframToken::Arrow => Some("Rule"),
        WolframToken::Rule => Some("Rule"),
        WolframToken::RuleDelayedOp => Some("RuleDelayed"),
        WolframToken::RuleDelayed => Some("RuleDelayed"),
        WolframToken::DoubleArrow => Some("RuleDelayed"),
        WolframToken::MapOperator => Some("Map"),
        WolframToken::ApplyOperator => Some("Apply"),
        WolframToken::MapAllOperator => Some("MapAll"),
        WolframToken::Semicolon => Some("CompoundExpression"),
        WolframToken::Assign => Some("Set"),
        WolframToken::SetKeyword => Some("Set"),
        WolframToken::SetDelayed => Some("SetDelayed"),
        WolframToken::Equal => Some("Equal"),
        WolframToken::NotEqual => Some("Unequal"),
        WolframToken::Less => Some("Less"),
        WolframToken::Greater => Some("Greater"),
        WolframToken::LessEqual => Some("LessEqual"),
        WolframToken::GreaterEqual => Some("GreaterEqual"),
        WolframToken::And => Some("And"),
        WolframToken::Or => Some("Or"),
        _ => None,
    }
}

fn binary_apply_exec(l: WExpr, k: &WolframToken, r: WExpr) -> (res: Result<WExpr, SxoError>)
    ensures
        form_result(res) == binary_apply(l@, *k, r@),
{
    match k {
        WolframToken::At => Ok(WExpr::Call { head: Box::new(l), args: one_form(r) }),
        WolframToken::SlashSlash => Ok(WExpr::Call { head: Box::new(r), args: one_form(l) }),
        WolframToken::ApplyLevelOperator => {
            let level = WExpr::List(one_form(WExpr::small_int(1)));
            Ok(WExpr::call(String::from_str("Apply"), three_forms(l, r, level)))
        },
        _ => match binary_head_exec(k) {
            Some(h) => Ok(WExpr::call(String::from_str(h), two_forms(l, r))),
            None => Err(SxoError::new(concat2("mathematica(oak): unsupported binary ", token_name_exec(k)))),
        },
    }
}

/// Lower the node children of `cs` (the first starting at byte `start`) in
/// order, skipping error nodes when `skip_errors`; the first failure ends it.
pub fn lower_children(cs: &Vec<GreenChild>, src: &str, start: usize, skip_errors: bool) -> (r: Result<
    Vec<WExpr>,
    SxoError,
>)
    requires
        start + weight_upto(cs@, cs@.len() as int) <= usize::MAX,
    ensures
        forms_result(r) == lower_nodes_spec(cs@, src.spec_bytes(), start as int, 0, skip_errors),
    decreases cs, 0int,
{
    let ghost bytes = src.spec_bytes();
    let ghost total = lower_nodes_spec(cs@, bytes, start as int, 0, skip_errors);
    let mut items: Vec<WExpr> = Vec::new();
    let mut offset: usize = start;
    let mut i: usize = 0;
    proof {
        assert(Seq::<WExprV>::empty() + total->Ok_0 =~= total->Ok_0);
    }
    while i < cs.len()
        invariant
            i <= cs.len(),
            bytes == src.spec_bytes(),
            start + weight_upto(cs@, cs@.len() as int) <= usize::MAX,
            offset as int == child_offset(cs@, start as int, i as int),
            total == lower_nodes_spec(cs@, bytes, start as int, 0, skip_errors),
            total == prepend_forms(wexprs_view(items@), lower_nodes_spec(cs@, bytes, start as int, i as int, skip_errors)),
        decreases cs.len() - i,
    {
        proof {
            lemma_child_fits(cs@, start as int, i as int);
        }
        match &cs[i] {
            GreenChild::Leaf(leaf) => {
                offset = offset + leaf.length as usize;
            },
            GreenChild::Node(n) => {
                let is_error = n.kind == WolframElement::Error;
                if !(skip_errors && is_error) {
                    proof {
                        assert(decreases_to!(*cs => cs@));
                        assert(decreases_to!(cs@ => cs@[i as int]));
                        assert(decreases_to!(cs@[i as int] => cs@[i as int]->Node_0));
                    }
                    match lower_node(n, src, offset) {
                        Err(e) => {
                            return Err(e);
                        },
                        Ok(w) => {
                            let ghost before = items@;
                            items.push(w);
                            proof {
                                lemma_wexprs_push(before, w);
                                lemma_prepend_push(
                                    wexprs_view(before),
                                    w@,
                                    lower_nodes_spec(cs@, bytes, start as int, i + 1, skip_errors),
                                );
                            }
                        },
                    }
                }
                offset = offset + n.byte_length as usize;
            },
        }
        i = i + 1;
    }
    proof {
        assert(wexprs_view(items@) + Seq::<WExprV>::empty() =~= wexprs_view(items@));
    }
    Ok(items)
}

fn lower_first_node(node: &GreenNode, src: &str, start: usize) -> (r: Result<WExpr, SxoError>)
    requires
        start + node_span(*node) <= usize::MAX,
    ensures
        form_result(r) == first_node_spec(node.children@, src.spec_bytes(), start as int, 0),
    decreases node, 1int,
{
    let cs = &node.children;
    let ghost bytes = src.spec_bytes();
    let mut offset: usize = start;
    let mut i: usize = 0;
    proof {
        lemma_weight_upto(cs@, cs@.len() as int);
    }
    while i < cs.len()
        invariant
            i <= cs.len(),
            cs == &node.children,
            bytes == src.spec_bytes(),
            start + weight_upto(cs@, cs@.len() as int) <= usize::MAX,
            offset as int == child_offset(cs@, start as int, i as int),
            first_node_spec(cs@, bytes, start as int, 0) == first_node_spec(cs@, bytes, start as int, i as int),
        decreases cs.len() - i,
    {
        proof {
            lemma_child_fits(cs@, start as int, i as int);
        }
        match &cs[i] {
            GreenChild::Leaf(leaf) => {
                offset = offset + leaf.length as usize;
            },
            GreenChild::Node(n) => {
                proof {
                    assert(decreases_to!(*node => node.children));
                    assert(decreases_to!(node.children => node.children@));
                    assert(decreases_to!(node.children@ => node.children@[i as int]));
                    assert(decreases_to!(node.children@[i as int] => node.children@[i as int]->Node_0));
                }
                return lower_node(n, src, offset);
            },
        }
        i = i + 1;
    }
    Err(error_from_str("mathematica(oak): empty Expression"))
}

fn lower_prefix(node: &GreenNode, src: &str, start: usize) -> (r: Result<WExpr, SxoError>)
    requires
        start + node_span(*node) <= usize::MAX,
    ensures
        form_result(r) == prefix_form(
            first_op(node.children@, 0),
            lower_nodes_spec(node.children@, src.spec_bytes(), start as int, 0, false),
        ),
    decreases node, 1int,
{
    proof {
        lemma_weight_upto(node.children@, node.children@.len() as int);
    }
    let items = lower_children(&node.children, src, start, false);
    let op = first_op_exec(&node.children);
    match items {
        Err(e) => Err(e),
        Ok(mut ws) => match op {
            None => Err(error_from_str("mathematica(oak): malformed PrefixExpr")),
            Some(k) => {
                let is_minus = match k {
                    WolframToken::Minus => true,
                    _ => false,
                };
                let is_factorial = match k {
                    WolframToken::Factorial => true,
                    _ => false,
                };
                proof {
                    lemma_wexprs_view(ws@);
                }
                if is_minus && ws.len() > 0 {
                    let e = ws.pop().unwrap();
                    Ok(WExpr::call(String::from_str("Times"), two_forms(WExpr::small_int(-1), e)))
                } else if is_factorial && ws.len() > 0 {
                    let e = ws.pop().unwrap();
                    Ok(WExpr::call(String::from_str("Not"), one_form(e)))
                } else {
                    Err(SxoError::new(concat2("mathematica(oak): unsupported prefix ", token_name_exec(k))))
                }
            },
        },
    }
}

fn lower_binary(node: &GreenNode, src: &str, start: usize) -> (r: Result<WExpr, SxoError>)
    requires
        start + node_span(*node) <= usize::MAX,
    ensures
        form_result(r) == binary_form(
            op_after_node(node.children@, 0, false),
            lower_nodes_spec(node.children@, src.spec_bytes(), start as int, 0, false),
        ),
    decreases node, 1int,
{
    proof {
        lemma_weight_upto(node.children@, node.children@.len() as int);
    }
    let items = lower_children(&node.children, src, start, false);
    let op = op_after_node_exec(&node.children);
    match items {
        Err(e) => Err(e),
        Ok(mut ws) => {
            proof {
                lemma_wexprs_view(ws@);
            }
            if ws.len() >= 2 && op.is_some() {
                let k = op.unwrap();
                let right = ws.pop().unwrap();
                let left = ws.remove(0);
                binary_apply_exec(left, k, right)
            } else {
                Err(error_from_str("mathematica(oak): malformed BinaryExpr"))
            }
        },
    }
}

fn lower_postfix(node: &GreenNode, src: &str, start: usize) -> (r: Result<WExpr, SxoError>)
    requires
        start + node_span(*node) <= usize::MAX,
    ensures
        form_result(r) == postfix_form(
            postfix_op(node.children@, 0),
            lower_nodes_spec(node.children@, src.spec_bytes(), start as int, 0, false),
        ),
    decreases node, 1int,
{
    proof {
        lemma_weight_upto(node.children@, node.children@.len() as int);
    }
    let items = lower_children(&node.children, src, start, false);
    let op = postfix_op_exec(&node.children);
    match items {
        Err(e) => Err(e),
        Ok(mut ws) => {
            proof {
                lemma_wexprs_view(ws@);
            }
            if ws.len() == 0 {
                Err(error_from_str("mathematica(oak): malformed PostfixExpr"))
            } else {
                let e = ws.pop().unwrap();
                match op {
                    None => Ok(e),
                    Some(k) => match k {
                        WolframToken::Ampersand => Ok(WExpr::call(String::from_str("Function"), one_form(e))),
                        WolframToken::Factorial => Ok(WExpr::call(String::from_str("Factorial"), one_form(e))),
                        _ => Err(SxoError::new(concat2("mathematica(oak): unsupported postfix ", token_name_exec(k)))),
                    },
                }
            }
        },
    }
}

fn lower_call(node: &GreenNode, src: &str, start: usize) -> (r: Result<WExpr, SxoError>)
    requires
        start + node_span(*node) <= usize::MAX,
    ensures
        form_result(r) == (match call_scan_spec(node.children@, src.spec_bytes(), start as int, 0, None, seq![]) {
            Err(e) => Err(e),
            Ok(st) => call_form(st.0, st.1),
        }),
    decreases node, 1int,
{
    let cs = &node.children;
    let ghost bytes = src.spec_bytes();
    let ghost total = call_scan_spec(cs@, bytes, start as int, 0, None, seq![]);
    let mut head: Option<WExpr> = None;
    let mut groups: Vec<Vec<WExpr>> = Vec::new();
    let mut offset: usize = start;
    let mut i: usize = 0;
    proof {
        lemma_weight_upto(cs@, cs@.len() as int);
        assert(groups_view(groups@) =~= Seq::<Seq<WExprV>>::empty());
    }
    while i < cs.len()
        invariant
            i <= cs.len(),
            cs == &node.children,
            bytes == src.spec_bytes(),
            start + weight_upto(cs@, cs@.len() as int) <= usize::MAX,
            offset as int == child_offset(cs@, start as int, i as int),
            total == call_scan_spec(cs@, bytes, start as int, 0, None, seq![]),
            total == call_scan_spec(cs@, bytes, start as int, i as int, opt_form(head), groups_view(groups@)),
        decreases cs.len() - i,
    {
        proof {
            lemma_child_fits(cs@, start as int, i as int);
        }
        match &cs[i] {
            GreenChild::Leaf(leaf) => {
                let is_ident = match leaf.kind {
                    WolframToken::Identifier => true,
                    _ => false,
                };
                if is_ident && head.is_none() {
                    match slice(src, offset, leaf.length) {
                        Err(e) => {
                            return Err(e);
                        },
                        Ok(t) => {
                            let name = trim_str(t);
                            head = Some(WExpr::symbol(String::from_str(name)));
                        },
                    }
                }
                offset = offset + leaf.length as usize;
            },
            GreenChild::Node(n) => {
                proof {
                    assert(decreases_to!(*node => node.children));
                    assert(decreases_to!(node.children => node.children@));
                    assert(decreases_to!(node.children@ => node.children@[i as int]));
                    assert(decreases_to!(node.children@[i as int] => node.children@[i as int]->Node_0));
                    assert(decreases_to!(node.children@[i as int]->Node_0 => node.children@[i as int]->Node_0.children));
                    lemma_weight_upto(n.children@, n.children@.len() as int);
                }
                let is_args = n.kind == WolframElement::Arguments;
                if is_args {
                    match lower_children(&n.children, src, offset, true) {
                        Err(e) => {
                            return Err(e);
                        },
                        Ok(args) => {
                            let ghost before = groups@;
                            groups.push(args);
                            proof {
                                assert(groups_view(groups@) =~= groups_view(before).push(wexprs_view(args@)));
                            }
                        },
                    }
                } else if head.is_none() {
                    match lower_node(n, src, offset) {
                        Err(e) => {
                            return Err(e);
                        },
                        Ok(w) => {
                            head = Some(w);
                        },
                    }
                }
                offset = offset + n.byte_length as usize;
            },
        }
        i = i + 1;
    }
    match head {
        None => Err(error_from_str("mathematica(oak): call missing head")),
        Some(h) => {
            if groups.len() == 0 {
                let empty: Vec<WExpr> = Vec::new();
                proof {
                    assert(wexprs_view(empty@) =~= Seq::<WExprV>::empty());
                }
                Ok(WExpr::Call { head: Box::new(h), args: empty })
            } else if h.is_symbol("List") && groups.len() == 1 {
                let g = groups.pop().unwrap();
                Ok(WExpr::List(g))
            } else {
                let ghost all = groups_view(groups@);
                let ghost hv = h@;
                let mut expr = h;
                while groups.len() > 0
                    invariant
                        apply_groups(hv, all) == apply_groups(expr@, groups_view(groups@)),
                    decreases groups.len(),
                {
                    let ghost before = groups@;
                    let g = groups.remove(0);
                    proof {
                        assert(groups_view(groups@) =~= groups_view(before).drop_first());
                    }
                    expr = WExpr::Call { head: Box::new(expr), args: g };
                }
                Ok(expr)
            }
        },
    }
}

/// Lower one node of the tree whose text starts at byte `start` of `src`.
pub fn lower_node(node: &GreenNode, src: &str, start: usize) -> (r: Result<WExpr, SxoError>)
    requires
        start + node_span(*node) <= usize::MAX,
    ensures
        form_result(r) == lower_node_spec(*node, src.spec_bytes(), start as int),
    decreases node, 2int,
{
    proof {
        lemma_weight_upto(node.children@, node.children@.len() as int);
    }
    match node.kind {
        WolframElement::Root => lower_first_node(node, src, start),
        WolframElement::Expression => lower_first_node(node, src, start),
        WolframElement::Literal => lower_literal(src, start, node.byte_length),
        WolframElement::Symbol => match slice(src, start, node.byte_length) {
            Err(e) => Err(e),
            Ok(t) => {
                let name = trim_str(t);
                Ok(WExpr::symbol(String::from_str(name)))
            },
        },
        WolframElement::List => match lower_children(&node.children, src, start, true) {
            Err(e) => Err(e),
            Ok(items) => Ok(WExpr::List(items)),
        },
        WolframElement::PrefixExpr => lower_prefix(node, src, start),
        WolframElement::BinaryExpr => lower_binary(node, src, start),
        WolframElement::PostfixExpr => lower_postfix(node, src, start),
        WolframElement::Call => lower_call(node, src, start),
        WolframElement::Arguments => Err(error_from_str("mathematica(oak): unexpected Arguments")),
        WolframElement::Error => Err(error_from_str("mathematica(oak): error node")),
    }
}

/// Lower a whole tree over its source: the last top-level node that is not
/// an error node.
pub fn lower_root(root: &GreenNode, src: &str) -> (r: Result<WExpr, SxoError>)
    requires
        tree_weight(*root) <= usize::MAX,
    ensures
        form_result(r) == lower_root_spec(*root, src.spec_bytes()),
{
    match lower_children(&root.children, src, 0, true) {
        Err(e) => Err(e),
        Ok(mut items) => {
            proof {
                lemma_wexprs_view(items@);
            }
            match items.pop() {
                None => Err(error_from_str("mathematica(oak): empty root")),
                Some(w) => Ok(w),
            }
        },
    }
}

/// Total weight of a sequence of children, or `None` when it exceeds
/// `usize::MAX`.
fn children_weight(cs: &Vec<GreenChild>) -> (r: Option<usize>)
    ensures
        r matches Some(w) ==> w as int == weight_upto(cs@, cs@.len() as int),
        r is None ==> weight_upto(cs@, cs@.len() as int) > usize::MAX,
    decreases cs,
{
    let mut total: usize = 0;
    let mut i: usize = 0;
    while i < cs.len()
        invariant
            i <= cs.len(),
            total as int == weight_upto(cs@, i as int),
        decreases cs.len() - i,
    {
        proof {
            lemma_weight_upto(cs@, i as int);
            lemma_weight_upto_mono(cs@, i + 1, cs@.len() as int);
        }
        let w: Option<usize> = match &cs[i] {
            GreenChild::Leaf(leaf) => Some(leaf.length as usize),
            GreenChild::Node(n) => {
                proof {
                    assert(decreases_to!(*cs => cs@));
                    assert(decreases_to!(cs@ => cs@[i as int]));
                    assert(decreases_to!(cs@[i as int] => cs@[i as int]->Node_0));
                    assert(decreases_to!(cs@[i as int]->Node_0 => cs@[i as int]->Node_0.children));
                }
                match children_weight(&n.children) {
                    None => None,
                    Some(inner) => (n.byte_length as usize).checked_add(inner),
                }
            },
        };
        proof {
            lemma_child_fits(cs@, 0, i as int);
            assert(weight_upto(cs@, i + 1) == weight_upto(cs@, i as int) + child_weight(cs@[i as int]));
            assert(w matches Some(x) ==> x as int == child_weight(cs@[i as int]));
            assert(w is None ==> child_weight(cs@[i as int]) > usize::MAX);
        }
        match w {
            None => {
                return None;
            },
            Some(w) => match total.checked_add(w) {
                None => {
                    return None;
                },
                Some(t) => {
                    total = t;
                },
            },
        }
        i = i + 1;
    }
    Some(total)
}

/// Whether every offset the lowering of `root` computes fits in `usize`.
pub fn offsets_fit(root: &GreenNode) -> (r: bool)
    ensures
        r == (tree_weight(*root) <= usize::MAX),
{
    children_weight(&root.children).is_some()
}

/// The source text the Mathematica parser reads: the input trimmed, or an
/// error when nothing is left.
pub fn mathematica_source(input: &str) -> (r: Result<&str, SxoError>)
    ensures
        r matches Ok(t) ==> t@ == trim_spec(input@) && t@.len() > 0,
        r matches Err(e) ==> trim_spec(input@).len() == 0 && e.message@ == "mathematica: empty input"@,
{
    let trimmed = trim_str(input);
    if trimmed.unicode_len() == 0 {
        Err(error_from_str("mathematica: empty input"))
    } else {
        Ok(trimmed)
    }
}


// ------------------------------------------------------------------ laws

/// A binary node whose operands lower to `ws` (first `ws[0]`, last
/// `ws.last()`) and whose operator token after the first operand is `k`
/// lowers to the head that `k` names, applied to the first then the last
/// operand: `+` Plus, `-` Subtract, `*` Times, `/` Divide, `^` Power, `->`
/// Rule, `:>` RuleDelayed, `/@` Map, `@@` Apply, `//@` MapAll, `;`
/// CompoundExpression, `=` Set, `:=` SetDelayed, `==` Equal, `!=` Unequal,
/// `<` Less, `>` Greater, `<=` LessEqual, `>=` GreaterEqual, `&&` And, `||`
/// Or; `f @ x` is `f[x]`, `x // f` is `f[x]`, `f @@@ x` is
/// `Apply[f, x, {1}]`.
pub proof fn lemma_binary_node_heads(n: GreenNode, src: Seq<u8>, start: int, ws: Seq<WExprV>, k: WolframToken)
    requires
        n.kind == WolframElement::BinaryExpr,
        op_after_node(n.children@, 0, false) == Some(k),
        lower_nodes_spec(n.children@, src, start, 0, false) == Ok::<Seq<WExprV>, Seq<char>>(ws),
        ws.len() >= 2,
    ensures
        ({
            let t = lower_node_spec(n, src, start);
            let a = ws[0];
            let b = ws.last();
            let ab = seq![a, b];
            &&& k is Plus ==> t == Ok::<WExprV, Seq<char>>(call_w("Plus"@, ab))
            &&& k is Minus ==> t == Ok::<WExprV, Seq<char>>(call_w("Subtract"@, ab))
            &&& k is Times ==> t == Ok::<WExprV, Seq<char>>(call_w("Times"@, ab))
            &&& k is Divide ==> t == Ok::<WExprV, Seq<char>>(call_w("Divide"@, ab))
            &&& k is Power ==> t == Ok::<WExprV, Seq<char>>(call_w("Power"@, ab))
            &&& (k is Arrow || k is Rule) ==> t == Ok::<WExprV, Seq<char>>(call_w("Rule"@, ab))
            &&& (k is RuleDelayedOp || k is RuleDelayed || k is DoubleArrow) ==> t == Ok::<WExprV, Seq<char>>(
                call_w("RuleDelayed"@, ab),
            )
            &&& k is MapOperator ==> t == Ok::<WExprV, Seq<char>>(call_w("Map"@, ab))
            &&& k is ApplyOperator ==> t == Ok::<WExprV, Seq<char>>(call_w("Apply"@, ab))
            &&& k is MapAllOperator ==> t == Ok::<WExprV, Seq<char>>(call_w("MapAll"@, ab))
            &&& k is Semicolon ==> t == Ok::<WExprV, Seq<char>>(call_w("CompoundExpression"@, ab))
            &&& (k is Assign || k is SetKeyword) ==> t == Ok::<WExprV, Seq<char>>(call_w("Set"@, ab))
            &&& k is SetDelayed ==> t == Ok::<WExprV, Seq<char>>(call_w("SetDelayed"@, ab))
            &&& k is Equal ==> t == Ok::<WExprV, Seq<char>>(call_w("Equal"@, ab))
            &&& k is NotEqual ==> t == Ok::<WExprV, Seq<char>>(call_w("Unequal"@, ab))
            &&& k is Less ==> t == Ok::<WExprV, Seq<char>>(call_w("Less"@, ab))
            &&& k is Greater ==> t == Ok::<WExprV, Seq<char>>(call_w("Greater"@, ab))
            &&& k is LessEqual ==> t == Ok::<WExprV, Seq<char>>(call_w("LessEqual"@, ab))
            &&& k is GreaterEqual ==> t == Ok::<WExprV, Seq<char>>(call_w("GreaterEqual"@, ab))
            &&& k is And ==> t == Ok::<WExprV, Seq<char>>(call_w("And"@, ab))
            &&& k is Or ==> t == Ok::<WExprV, Seq<char>>(call_w("Or"@, ab))
            &&& k is At ==> t == Ok::<WExprV, Seq<char>>(WExprV::Call { head: Box::new(a), args: seq![b] })
            &&& k is SlashSlash ==> t == Ok::<WExprV, Seq<char>>(WExprV::Call { head: Box::new(b), args: seq![a] })
            &&& k is ApplyLevelOperator ==> t == Ok::<WExprV, Seq<char>>(
                call_w("Apply"@, seq![a, b, WExprV::List(seq![int_w(1)])]),
            )
            &&& k matches WolframToken::Other(name) ==> t == Err::<WExprV, Seq<char>>(
                "mathematica(oak): unsupported binary "@ + name@,
            )
        }),
{
}

/// A literal node whose source text is a double-quoted string `"t"` (with no
/// `"` inside) is the string `t`; one whose text is a run of digits is the
/// exact integer those digits spell.
pub proof fn lemma_literal_nodes(src: Seq<u8>, start: int, len: int, t: Seq<char>)
    ensures
        (span_text(src, start, len) == Some(seq!['"'] + t + seq!['"']) && forall|i: int| 0 <= i < t.len() ==> t[i]
            != '"') ==> literal_spec(src, start, len) == Ok::<WExprV, Seq<char>>(WExprV::Atom(WAtomV::String(t))),
        (span_text(src, start, len) == Some(t) && all_digits(t)) ==> literal_spec(src, start, len) == Ok::<
            WExprV,
            Seq<char>,
        >(WExprV::Atom(WAtomV::Number(NumberV::Integer(canonical_decimal(digits_value(t)))))),
{
    let s = seq!['"'] + t + seq!['"'];
    if span_text(src, start, len) == Some(s) && forall|i: int| 0 <= i < t.len() ==> t[i] != '"' {
        assert(s[0] == '"' && s.last() == '"');
        assert(!is_white(s[0]) && !is_white(s.last()));
        assert(trim_start_spec(s) == s);
        assert(trim_end_spec(s) == s);
        assert(trim_spec(s) == s);
        lemma_float_run_rejects(s);
        assert(!grouped_digits_ok(s));
        assert(s.drop_first() =~= t + seq!['"']);
        assert(trim_start_quotes(s) == trim_start_quotes(s.drop_first()));
        if t.len() == 0 {
            let one = s.drop_first();
            assert(one.len() == 1 && one[0] == '"');
            assert(one.drop_first() =~= Seq::<char>::empty());
            assert(trim_start_quotes(one) == trim_start_quotes(one.drop_first()));
            assert(trim_start_quotes(Seq::<char>::empty()) == Seq::<char>::empty());
            assert(trim_start_quotes(s) =~= Seq::<char>::empty());
            assert(trim_end_quotes(Seq::<char>::empty()) == Seq::<char>::empty());
            assert(t =~= Seq::<char>::empty());
        } else {
            assert((t + seq!['"'])[0] == t[0]);
            assert(trim_start_quotes(t + seq!['"']) == t + seq!['"']);
            assert((t + seq!['"']).drop_last() =~= t);
            assert(t.last() == t[t.len() - 1]);
            assert(trim_end_quotes(t) == t);
            assert(trim_end_quotes(t + seq!['"']) == trim_end_quotes((t + seq!['"']).drop_last()));
        }
        assert(trim_quotes_spec(s) == t);
    }
    if span_text(src, start, len) == Some(t) && all_digits(t) {
        lemma_digit_literals(t);
        assert(!is_white(t[0]) && !is_white(t.last()));
        assert(trim_start_spec(t) == t);
        assert(trim_end_spec(t) == t);
    }
}

/// Prefix and postfix nodes whose operands lower to `ws` (the operand is the
/// last of them): `-x` is `Times[-1, x]`, `!x` is `Not[x]`, `x&` is
/// `Function[x]`, `x!` is `Factorial[x]`, and a postfix node without an
/// operator token is its operand.
pub proof fn lemma_unary_nodes(n: GreenNode, src: Seq<u8>, start: int, ws: Seq<WExprV>)
    requires
        ws.len() > 0,
        lower_nodes_spec(n.children@, src, start, 0, false) == Ok::<Seq<WExprV>, Seq<char>>(ws),
    ensures
        (n.kind == WolframElement::PrefixExpr && first_op(n.children@, 0) == Some(WolframToken::Minus))
            ==> lower_node_spec(n, src, start) == Ok::<WExprV, Seq<char>>(call_w("Times"@, seq![int_w(-1), ws.last()])),
        (n.kind == WolframElement::PrefixExpr && first_op(n.children@, 0) == Some(WolframToken::Factorial))
            ==> lower_node_spec(n, src, start) == Ok::<WExprV, Seq<char>>(call_w("Not"@, seq![ws.last()])),
        (n.kind == WolframElement::PostfixExpr && postfix_op(n.children@, 0) == Some(WolframToken::Ampersand))
            ==> lower_node_spec(n, src, start) == Ok::<WExprV, Seq<char>>(call_w("Function"@, seq![ws.last()])),
        (n.kind == WolframElement::PostfixExpr && postfix_op(n.children@, 0) == Some(WolframToken::Factorial))
            ==> lower_node_spec(n, src, start) == Ok::<WExprV, Seq<char>>(call_w("Factorial"@, seq![ws.last()])),
        (n.kind == WolframElement::PostfixExpr && postfix_op(n.children@, 0) is None) ==> lower_node_spec(n, src, start)
            == Ok::<WExprV, Seq<char>>(ws.last()),
{
}

/// A list node `{x1, …, xn}` is the list of its items' forms (error items
/// skipped); a call node with head `h` and no bracket group is `h[]`, with
/// the groups `g1, …` it is `h[g1]…`, except that `List` with one group is
/// the list of that group.
pub proof fn lemma_list_and_call_nodes(
    n: GreenNode,
    src: Seq<u8>,
    start: int,
    ws: Seq<WExprV>,
    h: WExprV,
    gs: Seq<Seq<WExprV>>,
)
    ensures
        (n.kind == WolframElement::List && lower_nodes_spec(n.children@, src, start, 0, true) == Ok::<
            Seq<WExprV>,
            Seq<char>,
        >(ws)) ==> lower_node_spec(n, src, start) == Ok::<WExprV, Seq<char>>(WExprV::List(ws)),
        (n.kind == WolframElement::Call && call_scan_spec(n.children@, src, start, 0, None, seq![]) == Ok::<
            (Option<WExprV>, Seq<Seq<WExprV>>),
            Seq<char>,
        >((Some(h), gs))) ==> lower_node_spec(n, src, start) == Ok::<WExprV, Seq<char>>(
            if gs.len() == 0 {
                (WExprV::Call { head: Box::new(h), args: seq![] })
            } else if h == symbol_w("List"@) && gs.len() == 1 {
                WExprV::List(gs[0])
            } else {
                apply_groups(h, gs)
            },
        ),
        gs.len() == 1 ==> apply_groups(h, gs) == (WExprV::Call { head: Box::new(h), args: gs[0] }),
        gs.len() == 2 ==> apply_groups(h, gs) == (WExprV::Call {
            head: Box::new((WExprV::Call { head: Box::new(h), args: gs[0] })),
            args: gs[1],
        }),
{
    reveal_with_fuel(apply_groups, 3);
    if gs.len() >= 1 {
        assert(gs.drop_first().len() == gs.len() - 1);
        if gs.len() == 2 {
            assert(gs.drop_first()[0] == gs[1]);
            assert(gs.drop_first().drop_first().len() == 0);
        }
    }
}

/// The source shape `a op b`: a binary node whose children are the operand
/// node `a`, the operator leaf, and the operand node `b` (which starts after
/// `a` and the operator) lowers to the operator's head applied to the form
/// of `a` then the form of `b`; so `a<b` is `Less[a, b]`, never
/// `Greater[a, b]` or `Less[b, a]`.
pub proof fn lemma_binary_source_shape(
    n: GreenNode,
    src: Seq<u8>,
    start: int,
    a: GreenNode,
    op: GreenLeaf,
    b: GreenNode,
    x: WExprV,
    y: WExprV,
)
    requires
        n.kind == WolframElement::BinaryExpr,
        n.children@ == seq![GreenChild::Node(a), GreenChild::Leaf(op), GreenChild::Node(b)],
        !is_trivia(op.kind),
        lower_node_spec(a, src, start) == Ok::<WExprV, Seq<char>>(x),
        lower_node_spec(b, src, start + a.byte_length + op.length) == Ok::<WExprV, Seq<char>>(y),
    ensures
        op_after_node(n.children@, 0, false) == Some(op.kind),
        lower_nodes_spec(n.children@, src, start, 0, false) == Ok::<Seq<WExprV>, Seq<char>>(seq![x, y]),
        op.kind is Less ==> lower_node_spec(n, src, start) == Ok::<WExprV, Seq<char>>(call_w("Less"@, seq![x, y])),
        op.kind is Greater ==> lower_node_spec(n, src, start) == Ok::<WExprV, Seq<char>>(
            call_w("Greater"@, seq![x, y]),
        ),
        op.kind is LessEqual ==> lower_node_spec(n, src, start) == Ok::<WExprV, Seq<char>>(
            call_w("LessEqual"@, seq![x, y]),
        ),
        op.kind is GreaterEqual ==> lower_node_spec(n, src, start) == Ok::<WExprV, Seq<char>>(
            call_w("GreaterEqual"@, seq![x, y]),
        ),
{
    let cs = n.children@;
    assert(op_after_node(cs, 1, true) == Some(op.kind));
    assert(op_after_node(cs, 0, false) == Some(op.kind));
    assert(child_offset(cs, start, 0) == start);
    assert(child_offset(cs, start, 1) == start + a.byte_length);
    assert(child_offset(cs, start, 2) == start + a.byte_length + op.length);
    assert(lower_nodes_spec(cs, src, start, 3, false) == Ok::<Seq<WExprV>, Seq<char>>(seq![]));
    assert(lower_nodes_spec(cs, src, start, 2, false) == Ok::<Seq<WExprV>, Seq<char>>(seq![y])) by {
        assert(seq![y] + seq![] =~= seq![y]);
    }
    assert(lower_nodes_spec(cs, src, start, 1, false) == Ok::<Seq<WExprV>, Seq<char>>(seq![y]));
    assert(lower_nodes_spec(cs, src, start, 0, false) == Ok::<Seq<WExprV>, Seq<char>>(seq![x, y])) by {
        assert(seq![x] + seq![y] =~= seq![x, y]);
    }
    lemma_binary_node_heads(n, src, start, seq![x, y], op.kind);
}

/// A tree with a single top-level node lowers to that node's form, or to
/// its error.
pub proof fn lemma_root_single_node(root: GreenNode, src: Seq<u8>, m: GreenNode)
    requires
        root.children@ == seq![GreenChild::Node(m)],
        m.kind != WolframElement::Error,
    ensures
        lower_root_spec(root, src) == lower_node_spec(m, src, 0),
{
    let cs = root.children@;
    assert(child_offset(cs, 0, 0) == 0);
    assert(lower_nodes_spec(cs, src, 0, 1, true) == Ok::<Seq<WExprV>, Seq<char>>(seq![]));
    match lower_node_spec(m, src, 0) {
        Ok(w) => {
            assert(seq![w] + seq![] =~= seq![w]);
        },
        Err(_) => {},
    }
}

} // verus!
