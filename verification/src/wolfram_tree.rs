//! Concrete syntax tree of Wolfram source as the Mathematica lowering reads
//! it: element nodes with byte lengths, and token leaves.

use vstd::prelude::*;

verus! {

/// Token kind of a leaf.
#[derive(Debug, Clone, PartialEq, Eq)]
pub enum WolframToken {
    /// Spaces and tabs.
    Whitespace,
    /// Line break.
    Newline,
    /// Comment.
    Comment,
    /// Identifier.
    Identifier,
    /// `+`
    Plus,
    /// `-`
    Minus,
    /// `*`
    Times,
    /// `/`
    Divide,
    /// `^`
    Power,
    /// `@`
    At,
    /// `//`
    SlashSlash,
    /// `->`
    Arrow,
    /// `Rule`
    Rule,
    /// `:>`
    RuleDelayedOp,
    /// `RuleDelayed`
    RuleDelayed,
    /// `=>`
    DoubleArrow,
    /// `/@`
    MapOperator,
    /// `@@`
    ApplyOperator,
    /// `@@@`
    ApplyLevelOperator,
    /// `//@`
    MapAllOperator,
    /// `;`
    Semicolon,
    /// `=`
    Assign,
    /// `Set`
    SetKeyword,
    /// `:=`
    SetDelayed,
    /// `==`
    Equal,
    /// `!=`
    NotEqual,
    /// `<`
    Less,
    /// `>`
    Greater,
    /// `<=`
    LessEqual,
    /// `>=`
    GreaterEqual,
    /// `&&`
    And,
    /// `||`
    Or,
    /// `!`
    Factorial,
    /// `&`
    Ampersand,
    /// Any other token, by its debug name.
    Other(String),
}

/// Element kind of a node.
#[derive(Debug, Clone, Copy, PartialEq, Eq, Structural)]
pub enum WolframElement {
    /// Root node.
    Root,
    /// General expression.
    Expression,
    /// `f[x]`.
    Call,
    /// `[x, y]`.
    Arguments,
    /// `{a, b}`.
    List,
    /// Identifier.
    Symbol,
    /// Literal.
    Literal,
    /// `x + y`.
    BinaryExpr,
    /// `!x`.
    PrefixExpr,
    /// `x!`.
    PostfixExpr,
    /// Error node.
    Error,
}

/// Token leaf.
#[derive(Debug, Clone, PartialEq, Eq)]
pub struct GreenLeaf {
    /// Token kind.
    pub kind: WolframToken,
    /// Byte length.
    pub length: u32,
}

/// Element node.
#[derive(Debug, PartialEq, Eq)]
pub struct GreenNode {
    /// Element kind.
    pub kind: WolframElement,
    /// Byte length.
    pub byte_length: u32,
    /// Children in source order.
    pub children: Vec<GreenChild>,
}

/// Child of a node.
#[derive(Debug, PartialEq, Eq)]
pub enum GreenChild {
    /// Token leaf.
    Leaf(GreenLeaf),
    /// Element node.
    Node(GreenNode),
}

/// Bytes a child occupies among its siblings.
pub open spec fn child_len(c: GreenChild) -> int {
    match c {
        GreenChild::Leaf(l) => l.length as int,
        GreenChild::Node(n) => n.byte_length as int,
    }
}

/// Start offset of child `i` of `cs` when the first child starts at `start`.
pub open spec fn child_offset(cs: Seq<GreenChild>, start: int, i: int) -> int
    decreases i,
{
    if i <= 0 {
        start
    } else {
        child_offset(cs, start, i - 1) + child_len(cs[i - 1])
    }
}

/// Upper bound of the offsets reached below a child: a leaf weighs its
/// length, a node its own length plus the weight of its children.
pub open spec fn child_weight(c: GreenChild) -> int
    decreases c, 0int,
{
    match c {
        GreenChild::Leaf(l) => l.length as int,
        GreenChild::Node(n) => n.byte_length as int + tree_weight(n),
    }
}

/// Sum of the weights of the first `i` children.
pub open spec fn weight_upto(cs: Seq<GreenChild>, i: int) -> int
    decreases cs, i,
{
    if i <= 0 || i > cs.len() {
        0
    } else {
        weight_upto(cs, i - 1) + child_weight(cs[i - 1])
    }
}

/// Sum of the weights of a node's children.
pub open spec fn tree_weight(n: GreenNode) -> int
    decreases n, 1int,
{
    weight_upto(n.children@, n.children@.len() as int)
}

/// Weight of a node together with its own length.
pub open spec fn node_span(n: GreenNode) -> int {
    n.byte_length as int + tree_weight(n)
}

/// Weights are never negative, and a child weighs at least its length.
pub proof fn lemma_child_weight(c: GreenChild)
    ensures
        child_weight(c) >= child_len(c) >= 0,
    decreases c, 0int,
{
    match c {
        GreenChild::Leaf(_) => {},
        GreenChild::Node(n) => {
            lemma_weight_upto(n.children@, n.children@.len() as int);
        },
    }
}

/// Prefix weights are never negative and grow with the prefix.
pub proof fn lemma_weight_upto(cs: Seq<GreenChild>, i: int)
    ensures
        weight_upto(cs, i) >= 0,
        0 < i <= cs.len() ==> weight_upto(cs, i) >= weight_upto(cs, i - 1),
    decreases cs, i,
{
    if 0 < i <= cs.len() {
        lemma_weight_upto(cs, i - 1);
        lemma_child_weight(cs[i - 1]);
    }
}

/// Prefix weights grow with the prefix.
pub proof fn lemma_weight_upto_mono(cs: Seq<GreenChild>, i: int, j: int)
    requires
        0 <= i <= j <= cs.len(),
    ensures
        weight_upto(cs, i) <= weight_upto(cs, j),
    decreases j - i,
{
    if i < j {
        lemma_weight_upto(cs, j);
        lemma_weight_upto_mono(cs, i, j - 1);
    }
}

/// The offset of a child stays within `start` plus the weight before it.
pub proof fn lemma_child_offset(cs: Seq<GreenChild>, start: int, i: int)
    requires
        0 <= i <= cs.len(),
    ensures
        start <= child_offset(cs, start, i) <= start + weight_upto(cs, i),
    decreases i,
{
    if i > 0 {
        lemma_child_offset(cs, start, i - 1);
        lemma_child_weight(cs[i - 1]);
    }
}

/// A child's offset plus its weight stays within `start` plus the weight of
/// all children.
pub proof fn lemma_child_fits(cs: Seq<GreenChild>, start: int, i: int)
    requires
        0 <= i < cs.len(),
    ensures
        start <= child_offset(cs, start, i),
        child_offset(cs, start, i) + child_len(cs[i]) <= child_offset(cs, start, i) + child_weight(cs[i]),
        child_offset(cs, start, i) + child_weight(cs[i]) <= start + weight_upto(cs, cs.len() as int),
{
    lemma_child_offset(cs, start, i);
    lemma_child_weight(cs[i]);
    lemma_weight_upto_mono(cs, i + 1, cs.len() as int);
}

/// Whether a token is trivia (white space, line break, comment).
pub open spec fn is_trivia(k: WolframToken) -> bool {
    k is Whitespace || k is Newline || k is Comment
}

/// Debug name of a token kind.
pub open spec fn token_name(k: WolframToken) -> Seq<char> {
    match k {
        WolframToken::Whitespace => "Whitespace"@,
        WolframToken::Newline => "Newline"@,
        WolframToken::Comment => "Comment"@,
        WolframToken::Identifier => "Identifier"@,
        WolframToken::Plus => "Plus"@,
        WolframToken::Minus => "Minus"@,
        WolframToken::Times => "Times"@,
        WolframToken::Divide => "Divide"@,
        WolframToken::Power => "Power"@,
        WolframToken::At => "At"@,
        WolframToken::SlashSlash => "SlashSlash"@,
        WolframToken::Arrow => "Arrow"@,
        WolframToken::Rule => "Rule"@,
        WolframToken::RuleDelayedOp => "RuleDelayedOp"@,
        WolframToken::RuleDelayed => "RuleDelayed"@,
        WolframToken::DoubleArrow => "DoubleArrow"@,
        WolframToken::MapOperator => "MapOperator"@,
        WolframToken::ApplyOperator => "ApplyOperator"@,
        WolframToken::ApplyLevelOperator => "ApplyLevelOperator"@,
        WolframToken::MapAllOperator => "MapAllOperator"@,
        WolframToken::Semicolon => "Semicolon"@,
        WolframToken::Assign => "Assign"@,
        WolframToken::SetKeyword => "Set"@,
        WolframToken::SetDelayed => "SetDelayed"@,
        WolframToken::Equal => "Equal"@,
        WolframToken::NotEqual => "NotEqual"@,
        WolframToken::Less => "Less"@,
        WolframToken::Greater => "Greater"@,
        WolframToken::LessEqual => "LessEqual"@,
        WolframToken::GreaterEqual => "GreaterEqual"@,
        WolframToken::And => "And"@,
        WolframToken::Or => "Or"@,
        WolframToken::Factorial => "Factorial"@,
        WolframToken::Ampersand => "Ampersand"@,
        WolframToken::Other(s) => s@,
    }
}

/// Debug name of a token kind.
pub fn token_name_exec(k: &WolframToken) -> (r: &str)
    ensures
        r@ == token_name(*k),
{
    match k {
        WolframToken::Whitespace => "Whitespace",
        WolframToken::Newline => "Newline",
        WolframToken::Comment => "Comment",
        WolframToken::Identifier => "Identifier",
        WolframToken::Plus => "Plus",
        WolframToken::Minus => "Minus",
        WolframToken::Times => "Times",
        WolframToken::Divide => "Divide",
        WolframToken::Power => "Power",
        WolframToken::At => "At",
        WolframToken::SlashSlash => "SlashSlash",
        WolframToken::Arrow => "Arrow",
        WolframToken::Rule => "Rule",
        WolframToken::RuleDelayedOp => "RuleDelayedOp",
        WolframToken::RuleDelayed => "RuleDelayed",
        WolframToken::DoubleArrow => "DoubleArrow",
        WolframToken::MapOperator => "MapOperator",
        WolframToken::ApplyOperator => "ApplyOperator",
        WolframToken::ApplyLevelOperator => "ApplyLevelOperator",
        WolframToken::MapAllOperator => "MapAllOperator",
        WolframToken::Semicolon => "Semicolon",
        WolframToken::Assign => "Assign",
        WolframToken::SetKeyword => "Set",
        WolframToken::SetDelayed => "SetDelayed",
        WolframToken::Equal => "Equal",
        WolframToken::NotEqual => "NotEqual",
        WolframToken::Less => "Less",
        WolframToken::Greater => "Greater",
        WolframToken::LessEqual => "LessEqual",
        WolframToken::GreaterEqual => "GreaterEqual",
        WolframToken::And => "And",
        WolframToken::Or => "Or",
        WolframToken::Factorial => "Factorial",
        WolframToken::Ampersand => "Ampersand",
        WolframToken::Other(s) => s.as_str(),
    }
}

/// Whether a token is trivia.
pub fn is_trivia_exec(k: &WolframToken) -> (r: bool)
    ensures
        r == is_trivia(*k),
{
    match k {
        WolframToken::Whitespace | WolframToken::Newline | WolframToken::Comment => true,
        _ => false,
    }
}

} // verus!
