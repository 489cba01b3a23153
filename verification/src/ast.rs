//! Syntax-tree node definitions for the stage that consumes the token
//! sequence.  These are plain data shapes; no logic of the tokenizer depends
//! on them.

use vstd::prelude::*;

verus! {

/// A primitive type name of the language.
pub enum Type {
    U8,
    U16,
    U32,
    U64,
    I8,
    I16,
    I32,
    I64,
    USIZE,
}

/// A named, typed argument or field.
pub struct ArgNode {
    id: String,
    ty: Type,
}

/// A top-level item: a statement, a function declaration, or a struct
/// declaration.
pub enum BaseNode {
    Statement(StatementNode),
    FunctionDeclaration { id: String, args: Vec<ArgNode>, body: Vec<StatementNode> },
    StructDeclaration { id: String, fields: Vec<ArgNode> },
}

/// A statement.
pub enum StatementNode {
    Declaration { id: String, ty: Type, expr: Option<ExpressionNode> },
    Assignment { id: String, expr: Option<ExpressionNode> },
    If { condition: ConditionExpr, body: Vec<StatementNode> },
    Loop { body: Vec<StatementNode> },
    Break,
    Expression(ExpressionNode),
}

/// A condition: a term or an operator application.
pub enum ConditionExpr {
    ConditionTerm(ConditionTerm),
    Operator(ConditionOperator),
}

/// A term of a condition: a literal or a nested condition.
pub enum ConditionTerm {
    Literal(bool),
    ConditionExpr(Box<ConditionExpr>),
}

/// A boolean connective.
pub enum ConditionOperator {
    Or,
    And,
}

/// An expression; only the simplest form is defined so far.
pub enum ExpressionNode {
    NumericalLiteral(i32),
}

} // verus!
