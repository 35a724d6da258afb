//! The syntax tree: statements and the expressions they hold.

use crate::number::Number;
use crate::tokenizer::{TokenKind, TokenType};
use vstd::prelude::*;

verus! {

/// A statement: one logical line of input.
#[derive(Debug, PartialEq)]
pub enum Statement {
    /// An expression by itself, such as `1 + 2`.
    Expression(Expr),
    /// A declaration, such as `let x: Int = 10`. The type annotation is kept
    /// and has no effect.
    Let { name: String, annotation: Option<String>, value: Expr },
    /// An assignment, such as `x = 10`.
    Assignment { name: String, value: Expr },
    /// A compound assignment, such as `x += 10`; `op` is the token of the
    /// operator.
    CompoundAssignment { name: String, op: TokenType, value: Expr },
}

/// An expression.
#[derive(Debug, PartialEq)]
pub enum Expr {
    /// A number literal.
    Number(Number),
    /// A reference to a variable.
    Variable(String),
    /// A sign before an operand; `op` is the token of the sign.
    UnaryOp { op: TokenType, expr: Box<Expr> },
    /// An operator between two operands; `op` is the token of the operator.
    BinaryOp { left: Box<Expr>, op: TokenType, right: Box<Expr> },
    /// The expression of an empty input.
    Empty,
    /// Empty parentheses `()`, whose value is zero.
    EmptyParen,
}

/// The mathematical value of an [`Expr`].
pub enum ExprView {
    Number(Number),
    Variable(Seq<char>),
    UnaryOp { op: TokenKind, expr: Box<ExprView> },
    BinaryOp { left: Box<ExprView>, op: TokenKind, right: Box<ExprView> },
    Empty,
    EmptyParen,
}

/// The mathematical value of a [`Statement`].
pub enum StatementView {
    Expression(ExprView),
    Let { name: Seq<char>, annotation: Option<Seq<char>>, value: ExprView },
    Assignment { name: Seq<char>, value: ExprView },
    CompoundAssignment { name: Seq<char>, op: TokenKind, value: ExprView },
}

/// The mathematical value of an expression.
pub open spec fn expr_view(e: Expr) -> ExprView
    decreases e,
{
    match e {
        Expr::Number(n) => ExprView::Number(n),
        Expr::Variable(name) => ExprView::Variable(name@),
        Expr::UnaryOp { op, expr } => ExprView::UnaryOp { op: op@, expr: Box::new(expr_view(*expr)) },
        Expr::BinaryOp { left, op, right } => ExprView::BinaryOp {
            left: Box::new(expr_view(*left)),
            op: op@,
            right: Box::new(expr_view(*right)),
        },
        Expr::Empty => ExprView::Empty,
        Expr::EmptyParen => ExprView::EmptyParen,
    }
}

impl View for Expr {
    type V = ExprView;

    open spec fn view(&self) -> ExprView {
        expr_view(*self)
    }
}

/// The characters of an optional string.
pub open spec fn optional_text(s: Option<String>) -> Option<Seq<char>> {
    match s {
        Some(s) => Some(s@),
        None => None,
    }
}

impl View for Statement {
    type V = StatementView;

    open spec fn view(&self) -> StatementView {
        match self {
            Statement::Expression(e) => StatementView::Expression(e@),
            Statement::Let { name, annotation, value } => StatementView::Let {
                name: name@,
                annotation: optional_text(*annotation),
                value: value@,
            },
            Statement::Assignment { name, value } => StatementView::Assignment {
                name: name@,
                value: value@,
            },
            Statement::CompoundAssignment { name, op, value } => StatementView::CompoundAssignment {
                name: name@,
                op: op@,
                value: value@,
            },
        }
    }
}

} // verus!
