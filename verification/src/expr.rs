use vstd::prelude::*;

use crate::token::Token;

verus! {

/// A value of LEXOR. `F` is the number type that holds FLOAT values; in a
/// literal of the syntax tree it is the literal's decimal text.
#[derive(Debug, Clone, PartialEq)]
pub enum LiteralValue<F, S = String> {
    Int(i64),
    Float(F),
    String(S),
    Char(char),
    Bool(bool),
    Nil,
}

/// An expression of the syntax tree.
#[derive(Debug)]
pub enum Expr<S = String> {
    /// `name = value`
    Assign { name: Token<S>, value: Box<Expr<S>> },
    /// arithmetic, comparison, equality and `&`
    Binary { left: Box<Expr<S>>, operator: Token<S>, right: Box<Expr<S>> },
    /// `( expression )`
    Grouping { expression: Box<Expr<S>> },
    Literal { value: LiteralValue<S, S> },
    /// `AND`, `OR`
    Logical { left: Box<Expr<S>>, operator: Token<S>, right: Box<Expr<S>> },
    /// `+`, `-`, `NOT`
    Unary { operator: Token<S>, right: Box<Expr<S>> },
    Variable { name: Token<S> },
}

/// The view of a literal of the syntax tree.
pub open spec fn literal_view(v: LiteralValue<String, String>) -> LiteralValue<Seq<char>, Seq<char>> {
    match v {
        LiteralValue::Int(i) => LiteralValue::Int(i),
        LiteralValue::Float(f) => LiteralValue::Float(f@),
        LiteralValue::String(s) => LiteralValue::String(s@),
        LiteralValue::Char(c) => LiteralValue::Char(c),
        LiteralValue::Bool(b) => LiteralValue::Bool(b),
        LiteralValue::Nil => LiteralValue::Nil,
    }
}

pub open spec fn expr_view(e: Expr) -> Expr<Seq<char>>
    decreases e,
{
    match e {
        Expr::Assign { name, value } => Expr::Assign { name: name@, value: Box::new(expr_view(*value)) },
        Expr::Binary { left, operator, right } => Expr::Binary {
            left: Box::new(expr_view(*left)),
            operator: operator@,
            right: Box::new(expr_view(*right)),
        },
        Expr::Grouping { expression } => Expr::Grouping { expression: Box::new(expr_view(*expression)) },
        Expr::Literal { value } => Expr::Literal { value: literal_view(value) },
        Expr::Logical { left, operator, right } => Expr::Logical {
            left: Box::new(expr_view(*left)),
            operator: operator@,
            right: Box::new(expr_view(*right)),
        },
        Expr::Unary { operator, right } => Expr::Unary { operator: operator@, right: Box::new(expr_view(*right)) },
        Expr::Variable { name } => Expr::Variable { name: name@ },
    }
}

impl View for Expr {
    type V = Expr<Seq<char>>;

    open spec fn view(&self) -> Expr<Seq<char>> {
        expr_view(*self)
    }
}

} // verus!
