//! MATLAB syntax tree as the MATLAB lowering reads it: statements,
//! expressions and operator tokens.

use vstd::prelude::*;

verus! {

/// Operator token of a MATLAB unary or binary expression.
#[derive(Debug, Clone, PartialEq, Eq)]
pub enum MatlabOp {
    /// `+`
    Plus,
    /// `-`
    Minus,
    /// `*`
    Times,
    /// `.*`
    DotTimes,
    /// `/`
    Divide,
    /// `./`
    DotDivide,
    /// `\`
    LeftDivide,
    /// `.\`
    DotLeftDivide,
    /// `^`
    Power,
    /// `.^`
    DotPower,
    /// `=`
    Assign,
    /// `==`
    Equal,
    /// `~=`
    NotEqual,
    /// `<`
    Less,
    /// `>`
    Greater,
    /// `<=`
    LessEqual,
    /// `>=`
    GreaterEqual,
    /// `&&`
    AndAnd,
    /// `&`
    And,
    /// `||`
    OrOr,
    /// `|`
    Or,
    /// `:`
    Colon,
    /// `~`
    Not,
    /// `'`
    Transpose,
    /// `.'`
    DotTranspose,
    /// Any other token, by its debug name.
    Other(String),
}

/// MATLAB expression.
#[derive(Debug, PartialEq, Eq)]
pub enum MatlabExpr {
    /// Identifier.
    Symbol(String),
    /// Literal, as written.
    Literal(String),
    /// `[a, b; c, d]`: rows of cells.
    Array(Vec<Vec<MatlabExpr>>),
    /// `head(arguments…)`.
    Call {
        /// Callee or indexed value.
        head: Box<MatlabExpr>,
        /// Arguments.
        arguments: Vec<MatlabExpr>,
    },
    /// `lhs op rhs`.
    Binary {
        /// Operator.
        operator: MatlabOp,
        /// Left operand.
        lhs: Box<MatlabExpr>,
        /// Right operand.
        rhs: Box<MatlabExpr>,
    },
    /// `op operand`.
    Prefix {
        /// Operator.
        operator: MatlabOp,
        /// Operand.
        operand: Box<MatlabExpr>,
    },
    /// `operand op`.
    Postfix {
        /// Operator.
        operator: MatlabOp,
        /// Operand.
        operand: Box<MatlabExpr>,
    },
    /// `(expression)`.
    Grouped(Box<MatlabExpr>),
}

/// `elseif condition, body`.
#[derive(Debug, PartialEq, Eq)]
pub struct ElseIf {
    /// Condition.
    pub condition: MatlabExpr,
    /// Body.
    pub body: Vec<MatlabStmt>,
}

/// MATLAB statement.
#[derive(Debug, PartialEq, Eq)]
pub enum MatlabStmt {
    /// Expression statement.
    Expr(MatlabExpr),
    /// `if … elseif … else … end`.
    If {
        /// Condition.
        condition: MatlabExpr,
        /// Body when the condition holds.
        then_body: Vec<MatlabStmt>,
        /// `elseif` branches in source order.
        elseifs: Vec<ElseIf>,
        /// `else` body (empty when absent).
        else_body: Vec<MatlabStmt>,
    },
    /// `while condition, body, end`.
    While {
        /// Condition.
        condition: MatlabExpr,
        /// Body.
        body: Vec<MatlabStmt>,
    },
    /// `for header, body, end`.
    For {
        /// Loop header, usually `i = range`.
        header: MatlabExpr,
        /// Body.
        body: Vec<MatlabStmt>,
    },
    /// `try body catch catch_body end`.
    Try {
        /// Body.
        body: Vec<MatlabStmt>,
        /// Handler.
        catch_body: Vec<MatlabStmt>,
    },
    /// Parse error node.
    Error,
}

} // verus!
