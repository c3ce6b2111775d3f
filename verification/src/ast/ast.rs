use vstd::prelude::*;

use crate::ast::symbol::Symbol;
use std::rc::Rc;

verus! {

/// The operator of a binary expression: arithmetic (`+ - * / ^`) or
/// comparison (`== > < >= <=`). Comparison operators have precedence 0 and
/// are never consumed by the parser's precedence-climbing loop; they can
/// appear only in trees built directly.
#[derive(Debug, Clone, Copy, PartialEq, Eq, Structural)]
pub enum BinaryOperator {
    Plus,
    Minus,
    Asterisk,
    ForwardSlash,
    Carat,
    DoubleEquals,
    GreaterThan,
    LessThan,
    GreaterThanOrEqualTo,
    LessThanOrEqualTo,
}

/// A node of the abstract syntax tree: a closed, tagged union covering
/// programs, statements and expressions.
#[derive(Debug)]
pub enum ASTNode {
    /// The root: one per parse, holding the top-level statements in order.
    Program(Vec<ASTNode>),
    /// A function definition. The definition is shared: the evaluator keeps
    /// a handle to it in the environment, and every later call site uses the
    /// same definition.
    FunctionExpression(Rc<FunctionExpression>),
    FunctionCall(FunctionCall),
    /// Valid only as a statement at the top level of a function body.
    ReturnExpression(Box<ASTNode>),
    VariableExpression(VariableExpression),
    BinaryExpression(BinaryExpression),
    /// Arithmetic negation.
    UnaryExpression(Box<ASTNode>),
    IfStatement(IfStatement),
    /// Reserved: never constructed by the parser, evaluates to no value.
    BlockStatement(BlockStatement),
    Variable(String),
    Number(i64),
    /// Reserved: never constructed by the parser, evaluates to no value.
    Boolean(bool),
}

#[derive(Debug)]
pub struct BinaryExpression {
    pub left: Box<ASTNode>,
    pub operator: BinaryOperator,
    pub right: Box<ASTNode>,
}

/// An assignment statement: `name = value`.
#[derive(Debug)]
pub struct VariableExpression {
    pub name: String,
    pub value: Box<ASTNode>,
}

/// A function definition: `func name(args) { body }`.
#[derive(Debug)]
pub struct FunctionExpression {
    pub name: String,
    pub body: Vec<ASTNode>,
    pub args: Vec<String>,
}

/// A call site: arguments are literal numbers or bare variable references,
/// resolved in the caller's environment at call time.
#[derive(Debug)]
pub struct FunctionCall {
    pub name: String,
    pub args: Vec<Symbol>,
}

/// `if condition { consequence }`, with an alternative branch that is parsed
/// for but never evaluated by the current evaluator.
#[derive(Debug)]
pub struct IfStatement {
    pub condition: Box<ASTNode>,
    pub consequence: Vec<ASTNode>,
    pub alternative: Option<Vec<ASTNode>>,
}

/// Reserved node kind: carried in the type, never constructed or consumed.
#[derive(Debug)]
pub struct BlockStatement {
    pub body: Vec<ASTNode>,
}

} // verus!
