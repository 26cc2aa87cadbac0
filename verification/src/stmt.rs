use vstd::prelude::*;

use crate::expr::Expr;
use crate::token::{Token, TokenType};

verus! {

/// A statement of the syntax tree.
#[derive(Debug)]
pub enum Stmt {
    /// the statements between `START ...` and `END ...`
    Block { statements: Vec<Stmt> },
    /// an expression run for its effect, such as `x = y = 4`
    Expression { expression: Expr },
    /// `FOR (initializer, condition, increment)`
    For { initializer: Expr, condition: Expr, increment: Expr, body: Box<Stmt> },
    /// `IF`, `ELSE IF`, `ELSE`
    If { condition: Expr, then_branch: Box<Stmt>, else_branch: Option<Box<Stmt>> },
    /// `PRINT: expression`
    Print { expression: Expr },
    /// `SCAN: a, b, ...` with the declared type name of each variable
    Scan { variables: Vec<Token>, types: Vec<String> },
    /// `DECLARE type name [= initializer]`
    Var { data_type: Token, name: Token, initializer: Option<Expr> },
    /// `REPEAT WHEN (condition)`
    While { condition: Expr, body: Box<Stmt> },
}

/// The abstract form of a statement, with text as character sequences.
pub enum StmtView {
    Block { statements: Seq<StmtView> },
    Expression { expression: Expr<Seq<char>> },
    For {
        initializer: Expr<Seq<char>>,
        condition: Expr<Seq<char>>,
        increment: Expr<Seq<char>>,
        body: Box<StmtView>,
    },
    If { condition: Expr<Seq<char>>, then_branch: Box<StmtView>, else_branch: Option<Box<StmtView>> },
    Print { expression: Expr<Seq<char>> },
    Scan { variables: Seq<Token<Seq<char>>>, types: Seq<Seq<char>> },
    Var { data_type: Token<Seq<char>>, name: Token<Seq<char>>, initializer: Option<Expr<Seq<char>>> },
    While { condition: Expr<Seq<char>>, body: Box<StmtView> },
}

pub open spec fn stmt_view(s: Stmt) -> StmtView
    decreases s, 1nat,
{
    match s {
        Stmt::Block { statements } => StmtView::Block { statements: stmts_view(statements@) },
        Stmt::Expression { expression } => StmtView::Expression { expression: expression@ },
        Stmt::For { initializer, condition, increment, body } => StmtView::For {
            initializer: initializer@,
            condition: condition@,
            increment: increment@,
            body: Box::new(stmt_view(*body)),
        },
        Stmt::If { condition, then_branch, else_branch } => StmtView::If {
            condition: condition@,
            then_branch: Box::new(stmt_view(*then_branch)),
            else_branch: match else_branch {
                Some(b) => Some(Box::new(stmt_view(*b))),
                None => None,
            },
        },
        Stmt::Print { expression } => StmtView::Print { expression: expression@ },
        Stmt::Scan { variables, types } => StmtView::Scan {
            variables: variables@.map_values(|t: Token| t@),
            types: types@.map_values(|t: String| t@),
        },
        Stmt::Var { data_type, name, initializer } => StmtView::Var {
            data_type: data_type@,
            name: name@,
            initializer: match initializer {
                Some(e) => Some(e@),
                None => None,
            },
        },
        Stmt::While { condition, body } => StmtView::While { condition: condition@, body: Box::new(stmt_view(*body)) },
    }
}

pub open spec fn stmts_view(v: Seq<Stmt>) -> Seq<StmtView>
    decreases v, 0nat,
{
    if v.len() == 0 {
        Seq::empty()
    } else {
        stmts_view(v.drop_last()).push(stmt_view(v.last()))
    }
}

impl View for Stmt {
    type V = StmtView;

    open spec fn view(&self) -> StmtView {
        stmt_view(*self)
    }
}


pub proof fn lemma_stmts_view_push(a: Seq<Stmt>, x: Stmt)
    ensures
        stmts_view(a.push(x)) == stmts_view(a).push(stmt_view(x)),
{
    assert(a.push(x).drop_last() =~= a);
}

pub proof fn lemma_stmts_view_append(a: Seq<Stmt>, b: Seq<Stmt>)
    ensures
        stmts_view(a + b) == stmts_view(a) + stmts_view(b),
    decreases b.len(),
{
    if b.len() == 0 {
        assert(a + b =~= a);
        assert(stmts_view(a) + stmts_view(b) =~= stmts_view(a));
    } else {
        lemma_stmts_view_append(a, b.drop_last());
        assert((a + b).drop_last() =~= a + b.drop_last());
        assert((a + b).last() == b.last());
        assert(stmts_view(a) + stmts_view(b) =~= (stmts_view(a) + stmts_view(b.drop_last())).push(stmt_view(b.last())));
    }
}

pub proof fn lemma_stmts_view_len(a: Seq<Stmt>)
    ensures
        stmts_view(a).len() == a.len(),
    decreases a.len(),
{
    if a.len() > 0 {
        lemma_stmts_view_len(a.drop_last());
    }
}

pub proof fn lemma_stmts_view_index(a: Seq<Stmt>, i: int)
    requires
        0 <= i < a.len(),
    ensures
        stmts_view(a)[i] == stmt_view(a[i]),
    decreases a.len(),
{
    lemma_stmts_view_len(a.drop_last());
    if i < a.len() - 1 {
        lemma_stmts_view_index(a.drop_last(), i);
    }
}

/// An operator that evaluating a binary expression knows.
pub open spec fn is_binary_operator(k: TokenType<Seq<char>>) -> bool {
    k is Ampersand || k is EqualEqual || k is NotEqual || k is Plus || k is Minus || k is Star || k is Slash
        || k is Modulo || k is Greater || k is GreaterEqual || k is Less || k is LessEqual
}

/// An expression whose every operator is one that evaluation knows for its
/// kind of expression: `AND` and `OR` for a logical one, `NOT`, `-` and `+`
/// for a unary one.
pub open spec fn expr_wf(e: Expr<Seq<char>>) -> bool
    decreases e,
{
    match e {
        Expr::Assign { name, value } => expr_wf(*value),
        Expr::Binary { left, operator, right } => is_binary_operator(operator.token_type) && expr_wf(*left)
            && expr_wf(*right),
        Expr::Grouping { expression } => expr_wf(*expression),
        Expr::Literal { .. } => true,
        Expr::Logical { left, operator, right } => (operator.token_type is Or || operator.token_type is And)
            && expr_wf(*left) && expr_wf(*right),
        Expr::Unary { operator, right } => (operator.token_type is Not || operator.token_type is Minus
            || operator.token_type is Plus) && expr_wf(*right),
        Expr::Variable { .. } => true,
    }
}

pub open spec fn opt_expr_wf(e: Option<Expr<Seq<char>>>) -> bool {
    match e {
        Some(x) => expr_wf(x),
        None => true,
    }
}

/// A statement that the interpreter can run without an internal fault: its
/// expressions are well formed, a declaration names one of the four types,
/// and a SCAN has a type for each of its variables.
pub open spec fn stmt_wf(s: StmtView) -> bool
    decreases s, 1nat,
{
    match s {
        StmtView::Block { statements } => stmts_wf(statements),
        StmtView::Expression { expression } => expr_wf(expression),
        StmtView::For { initializer, condition, increment, body } => expr_wf(initializer) && expr_wf(condition)
            && expr_wf(increment) && stmt_wf(*body),
        StmtView::If { condition, then_branch, else_branch } => expr_wf(condition) && stmt_wf(*then_branch)
            && match else_branch {
            Some(b) => stmt_wf(*b),
            None => true,
        },
        StmtView::Print { expression } => expr_wf(expression),
        StmtView::Scan { variables, types } => types.len() == variables.len(),
        StmtView::Var { data_type, name, initializer } => (data_type.token_type is IntType
            || data_type.token_type is FloatType || data_type.token_type is BoolType
            || data_type.token_type is CharType) && opt_expr_wf(initializer),
        StmtView::While { condition, body } => expr_wf(condition) && stmt_wf(*body),
    }
}

pub open spec fn stmts_wf(v: Seq<StmtView>) -> bool
    decreases v, 0nat,
{
    if v.len() == 0 {
        true
    } else {
        stmts_wf(v.drop_last()) && stmt_wf(v.last())
    }
}

pub proof fn lemma_stmts_wf_index(v: Seq<StmtView>, i: int)
    requires
        stmts_wf(v),
        0 <= i < v.len(),
    ensures
        stmt_wf(v[i]),
    decreases v.len(),
{
    if i < v.len() - 1 {
        lemma_stmts_wf_index(v.drop_last(), i);
    }
}

pub proof fn lemma_stmts_wf_append(a: Seq<StmtView>, b: Seq<StmtView>)
    requires
        stmts_wf(a),
        stmts_wf(b),
    ensures
        stmts_wf(a + b),
    decreases b.len(),
{
    if b.len() == 0 {
        assert(a + b =~= a);
    } else {
        lemma_stmts_wf_append(a, b.drop_last());
        assert((a + b).drop_last() =~= a + b.drop_last());
        assert((a + b).last() == b.last());
    }
}

pub proof fn lemma_stmts_wf_push(a: Seq<StmtView>, x: StmtView)
    requires
        stmts_wf(a),
        stmt_wf(x),
    ensures
        stmts_wf(a.push(x)),
{
    assert(a.push(x).drop_last() =~= a);
}

} // verus!
