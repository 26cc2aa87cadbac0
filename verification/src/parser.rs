use vstd::prelude::*;

use crate::expr::{Expr, LiteralValue};
use crate::stmt::{Stmt, StmtView};
use crate::text::{nat_text, push_all, push_char, string_of, usize_to_text};
use crate::token::{Token, TokenType};

verus! {

/// The marker with which a parsing function gives up; the report itself is
/// in the parser's list of syntax errors.
#[derive(Debug)]
pub struct ParseError;

/// A syntax error as the parser reports it.
#[derive(Debug)]
pub struct SyntaxError<S = String> {
    pub line: usize,
    /// The error was found at the end of the input.
    pub at_end: bool,
    /// The text of the token where it was found.
    pub lexeme: S,
    pub message: S,
}

impl View for SyntaxError {
    type V = SyntaxError<Seq<char>>;

    open spec fn view(&self) -> SyntaxError<Seq<char>> {
        SyntaxError { line: self.line, at_end: self.at_end, lexeme: self.lexeme@, message: self.message@ }
    }
}

/// A syntax error as it is printed.
pub open spec fn syntax_error_text(e: SyntaxError<Seq<char>>) -> Seq<char> {
    if e.at_end {
        "[Line "@ + nat_text(e.line as nat) + "] Error at end: "@ + e.message
    } else {
        "[Line "@ + nat_text(e.line as nat) + "] Error at '"@ + e.lexeme + "': "@ + e.message
    }
}

impl SyntaxError {
    /// The error as it is printed.
    pub fn to_display_string(&self) -> (s: String)
        ensures
            s@ == syntax_error_text(self@),
    {
        let mut s = string_of("[Line ");
        let n = usize_to_text(self.line);
        push_all(&mut s, n.as_str());
        if self.at_end {
            push_all(&mut s, "] Error at end: ");
        } else {
            push_all(&mut s, "] Error at '");
            push_all(&mut s, self.lexeme.as_str());
            push_all(&mut s, "': ");
        }
        push_all(&mut s, self.message.as_str());
        s
    }
}

pub type TokenV = Token<Seq<char>>;

pub type KindV = TokenType<Seq<char>>;

pub type ExprV = Expr<Seq<char>>;

/// The state of a parse: the tokens, the position, the declared variables
/// with their type tokens, whether declarations are still allowed, and the
/// syntax errors reported so far.
pub struct PState {
    pub tokens: Seq<TokenV>,
    pub current: int,
    pub types: Seq<(Seq<char>, KindV)>,
    pub allow: bool,
    pub errors: Seq<SyntaxError<Seq<char>>>,
}

pub open spec fn is_type_kind(k: KindV) -> bool {
    k == TokenType::<Seq<char>>::IntType || k == TokenType::<Seq<char>>::FloatType
        || k == TokenType::<Seq<char>>::BoolType || k == TokenType::<Seq<char>>::CharType
}

/// A parse state that parsing can reach: tokens that end with `Eof`, a
/// position on one of them, and only type tokens recorded for variables.
pub open spec fn pstate_ok(st: PState) -> bool {
    &&& st.tokens.len() > 0
    &&& st.tokens.last().token_type == TokenType::<Seq<char>>::Eof
    &&& 0 <= st.current < st.tokens.len()
    &&& forall|k: int| 0 <= k < st.types.len() ==> is_type_kind(#[trigger] st.types[k].1)
}

/// `b` is a state that parsing from `a` can lead to: same tokens, a position
/// no earlier.
pub open spec fn moved_on(a: PState, b: PState) -> bool {
    &&& pstate_ok(b)
    &&& b.tokens == a.tokens
    &&& a.current <= b.current
}

pub open spec fn peek(st: PState) -> TokenV {
    st.tokens[st.current]
}

pub open spec fn at_end(st: PState) -> bool {
    peek(st).token_type == TokenType::<Seq<char>>::Eof
}

pub open spec fn check(st: PState, t: KindV) -> bool {
    !at_end(st) && peek(st).token_type == t
}

pub open spec fn check_any(st: PState, ts: Seq<KindV>) -> bool {
    !at_end(st) && ts.contains(peek(st).token_type)
}

pub open spec fn advance(st: PState) -> PState {
    if at_end(st) {
        st
    } else {
        PState { current: st.current + 1, ..st }
    }
}

/// The report of a syntax error at `tok`.
pub open spec fn error_at(tok: TokenV, message: Seq<char>) -> SyntaxError<Seq<char>> {
    SyntaxError {
        line: tok.line,
        at_end: tok.token_type == TokenType::<Seq<char>>::Eof,
        lexeme: tok.lexeme,
        message,
    }
}

pub open spec fn report(st: PState, tok: TokenV, message: Seq<char>) -> PState {
    PState { errors: st.errors.push(error_at(tok, message)), ..st }
}

/// Expects a token of kind `t`: takes it, or reports `message` at the
/// current token.
pub open spec fn consume(st: PState, t: KindV, message: Seq<char>) -> (PState, Result<TokenV, ()>) {
    if check(st, t) {
        (advance(st), Ok(peek(st)))
    } else {
        (report(st, peek(st), message), Err(()))
    }
}

pub open spec fn rem(st: PState) -> int {
    st.tokens.len() - st.current
}

/// Skips line breaks and comments.
pub open spec fn swallow(st: PState) -> PState
    decreases rem(st),
{
    if pstate_ok(st) && check_any(st, seq![TokenType::NewLine, TokenType::Comment]) {
        swallow(advance(st))
    } else {
        st
    }
}

pub open spec fn is_sync_point(k: KindV) -> bool {
    k == TokenType::<Seq<char>>::Declare || k == TokenType::<Seq<char>>::Print
        || k == TokenType::<Seq<char>>::Scan || k == TokenType::<Seq<char>>::If
        || k == TokenType::<Seq<char>>::For || k == TokenType::<Seq<char>>::RepeatWhen
        || k == TokenType::<Seq<char>>::EndScript
}

pub open spec fn sync_rest(st: PState) -> PState
    decreases rem(st),
{
    if !pstate_ok(st) || at_end(st) || st.current < 1 {
        st
    } else if st.tokens[st.current - 1].token_type == TokenType::<Seq<char>>::NewLine {
        st
    } else if is_sync_point(peek(st).token_type) {
        st
    } else {
        sync_rest(advance(st))
    }
}

/// After a syntax error: skips to the start of the next line or to the next
/// keyword that begins a statement.
pub open spec fn synchronize(st: PState) -> PState {
    sync_rest(advance(st))
}

pub proof fn lemma_advance(st: PState)
    requires
        pstate_ok(st),
    ensures
        moved_on(st, advance(st)),
        !at_end(st) ==> advance(st).current == st.current + 1,
        advance(st).types == st.types,
        advance(st).allow == st.allow,
        advance(st).errors == st.errors,
{
    if !at_end(st) && st.current + 1 >= st.tokens.len() {
        assert(st.current == st.tokens.len() - 1);
    }
}

pub proof fn lemma_swallow(st: PState)
    requires
        pstate_ok(st),
    ensures
        moved_on(st, swallow(st)),
        swallow(st).types == st.types,
        swallow(st).allow == st.allow,
        swallow(st).errors == st.errors,
        !check_any(swallow(st), seq![TokenType::NewLine, TokenType::Comment]),
        swallow(st).current == st.current ==> swallow(st) == st,
    decreases rem(st),
{
    if check_any(st, seq![TokenType::NewLine, TokenType::Comment]) {
        lemma_advance(st);
        lemma_swallow(advance(st));
    }
}

pub proof fn lemma_sync_rest(st: PState)
    requires
        pstate_ok(st),
    ensures
        moved_on(st, sync_rest(st)),
        sync_rest(st).types == st.types,
        sync_rest(st).allow == st.allow,
        sync_rest(st).errors == st.errors,
    decreases rem(st),
{
    if !(at_end(st) || st.current < 1 || st.tokens[st.current - 1].token_type == TokenType::<Seq<char>>::NewLine
        || is_sync_point(peek(st).token_type)) {
        lemma_advance(st);
        lemma_sync_rest(advance(st));
    }
}

pub proof fn lemma_synchronize(st: PState)
    requires
        pstate_ok(st),
    ensures
        moved_on(st, synchronize(st)),
        !at_end(st) ==> synchronize(st).current > st.current,
        synchronize(st).types == st.types,
        synchronize(st).allow == st.allow,
        synchronize(st).errors == st.errors,
{
    lemma_advance(st);
    lemma_sync_rest(advance(st));
}

pub proof fn lemma_report(st: PState, tok: TokenV, m: Seq<char>)
    requires
        pstate_ok(st),
    ensures
        moved_on(st, report(st, tok, m)),
        report(st, tok, m).current == st.current,
        report(st, tok, m).types == st.types,
        report(st, tok, m).allow == st.allow,
{
}

pub proof fn lemma_consume(st: PState, t: KindV, m: Seq<char>)
    requires
        pstate_ok(st),
    ensures
        moved_on(st, consume(st, t, m).0),
        consume(st, t, m).1 is Ok ==> consume(st, t, m).0.current == st.current + 1,
        consume(st, t, m).0.types == st.types,
        consume(st, t, m).0.allow == st.allow,
{
    lemma_advance(st);
}

/// The operators of each binary precedence level.
pub open spec fn level_ops(lvl: int) -> Seq<KindV> {
    if lvl == 11 {
        seq![TokenType::Ampersand]
    } else if lvl == 10 {
        seq![TokenType::Or]
    } else if lvl == 9 {
        seq![TokenType::And]
    } else if lvl == 7 {
        seq![TokenType::NotEqual, TokenType::EqualEqual]
    } else if lvl == 6 {
        seq![TokenType::Greater, TokenType::GreaterEqual, TokenType::Less, TokenType::LessEqual]
    } else if lvl == 5 {
        seq![TokenType::Minus, TokenType::Plus]
    } else {
        seq![TokenType::Slash, TokenType::Star, TokenType::Modulo]
    }
}

/// The levels with a left-associative binary operator: `&`, `OR`, `AND`,
/// equality, comparison, terms, factors.
pub open spec fn is_binary_level(lvl: int) -> bool {
    lvl == 11 || lvl == 10 || lvl == 9 || lvl == 7 || lvl == 6 || lvl == 5 || lvl == 4
}

pub open spec fn combine(lvl: int, left: ExprV, op: TokenV, right: ExprV) -> ExprV {
    if lvl == 10 || lvl == 9 {
        Expr::Logical { left: Box::new(left), operator: op, right: Box::new(right) }
    } else {
        Expr::Binary { left: Box::new(left), operator: op, right: Box::new(right) }
    }
}

pub open spec fn literal(v: LiteralValue<Seq<char>, Seq<char>>) -> ExprV {
    Expr::Literal { value: v }
}

/// The text inside the brackets of an escape code: `[[]` gives `[`, `[]`
/// gives nothing.
pub open spec fn escape_text(lexeme: Seq<char>) -> Seq<char> {
    if lexeme.len() > 2 {
        lexeme.subrange(1, lexeme.len() - 1)
    } else {
        Seq::empty()
    }
}

/// Parses an expression at precedence level `lvl`, from 12 (assignment)
/// down to 1 (primary): the grammar
///
///   assignment    ::= identifier "=" assignment | concatenation
///   concatenation ::= or ( "&" or )*
///   or            ::= and ( "OR" and )*
///   and           ::= not ( "AND" not )*
///   not           ::= "NOT" not | equality
///   equality      ::= comparison ( ( "==" | "<>" ) comparison )*
///   comparison    ::= term ( ( ">" | ">=" | "<" | "<=" ) term )*
///   term          ::= factor ( ( "+" | "-" ) factor )*
///   factor        ::= unary ( ( "*" | "/" | "%" ) unary )*
///   unary         ::= ( "+" | "-" ) unary | postfix
///   postfix       ::= primary ( "++" | "--" )?
///   primary       ::= literal | "$" | escape | identifier | "(" assignment ")"
pub open spec fn parse_expr(st: PState, lvl: int) -> (PState, Result<ExprV, ()>)
    decreases rem(st), lvl,
{
    if !pstate_ok(st) || lvl < 1 || lvl > 12 {
        (st, Err(()))
    } else if lvl == 12 {
        let (s1, r) = parse_expr(st, 11);
        match r {
            Err(_) => (s1, Err(())),
            Ok(e) => if !moved_on(st, s1) {
                (s1, Err(()))
            } else if check(s1, TokenType::Equal) {
                let equals = peek(s1);
                proof { lemma_advance(s1); }
                let (s3, v) = parse_expr(advance(s1), 12);
                match v {
                    Err(_) => (s3, Err(())),
                    Ok(value) => match e {
                        Expr::Variable { name } => (s3, Ok(Expr::Assign { name, value: Box::new(value) })),
                        _ => (report(s3, equals, "Invalid assignment target."@), Err(())),
                    },
                }
            } else {
                (s1, Ok(e))
            },
        }
    } else if is_binary_level(lvl) {
        let (s1, r) = parse_expr(st, lvl - 1);
        match r {
            Err(_) => (s1, Err(())),
            Ok(e) => if !moved_on(st, s1) {
                (s1, Err(()))
            } else {
                parse_rest(s1, lvl, e)
            },
        }
    } else if lvl == 8 {
        if check(st, TokenType::Not) {
            let op = peek(st);
            proof { lemma_advance(st); }
            let (s2, r) = parse_expr(advance(st), 8);
            match r {
                Err(_) => (s2, Err(())),
                Ok(e) => (s2, Ok(Expr::Unary { operator: op, right: Box::new(e) })),
            }
        } else {
            parse_expr(st, 7)
        }
    } else if lvl == 3 {
        if check_any(st, seq![TokenType::Minus, TokenType::Plus]) {
            let op = peek(st);
            proof { lemma_advance(st); }
            let (s2, r) = parse_expr(advance(st), 3);
            match r {
                Err(_) => (s2, Err(())),
                Ok(e) => (s2, Ok(Expr::Unary { operator: op, right: Box::new(e) })),
            }
        } else {
            parse_expr(st, 2)
        }
    } else if lvl == 2 {
        let (s1, r) = parse_expr(st, 1);
        match r {
            Err(_) => (s1, Err(())),
            Ok(e) => if !moved_on(st, s1) {
                (s1, Err(()))
            } else if check_any(s1, seq![TokenType::PlusPlus, TokenType::MinusMinus]) {
                let op = peek(s1);
                let s2 = advance(s1);
                match e {
                    Expr::Variable { name } => {
                        let synthetic = if op.token_type == TokenType::<Seq<char>>::PlusPlus {
                            Token { token_type: TokenType::Plus, lexeme: "+"@, line: op.line }
                        } else {
                            Token { token_type: TokenType::Minus, lexeme: "-"@, line: op.line }
                        };
                        let sum = Expr::Binary {
                            left: Box::new(Expr::Variable { name }),
                            operator: synthetic,
                            right: Box::new(literal(LiteralValue::Int(1))),
                        };
                        (s2, Ok(Expr::Assign { name, value: Box::new(sum) }))
                    },
                    _ => (report(s2, op, "Invalid target for increment/decrement operator."@), Err(())),
                }
            } else {
                (s1, Ok(e))
            },
        }
    } else {
        let t = peek(st);
        match t.token_type {
            TokenType::IntLiteral(v) => (advance(st), Ok(literal(LiteralValue::Int(v)))),
            TokenType::FloatLiteral(f) => (advance(st), Ok(literal(LiteralValue::Float(f)))),
            TokenType::StringLiteral(s) => (advance(st), Ok(literal(LiteralValue::String(s)))),
            TokenType::CharLiteral(c) => (advance(st), Ok(literal(LiteralValue::Char(c)))),
            TokenType::BoolLiteral(b) => (advance(st), Ok(literal(LiteralValue::Bool(b)))),
            TokenType::Dollar => (advance(st), Ok(literal(LiteralValue::String(seq!['\n'])))),
            TokenType::EscapeCode => (advance(st), Ok(literal(LiteralValue::String(escape_text(t.lexeme))))),
            TokenType::Identifier(_) => (advance(st), Ok(Expr::Variable { name: t })),
            TokenType::LeftPar => {
                proof { lemma_advance(st); }
                let (s2, r) = parse_expr(advance(st), 12);
                match r {
                    Err(_) => (s2, Err(())),
                    Ok(e) => if check(s2, TokenType::RightPar) {
                        (advance(s2), Ok(Expr::Grouping { expression: Box::new(e) }))
                    } else {
                        (report(s2, peek(s2), "Expect ')' after expression."@), Err(()))
                    },
                }
            },
            _ => (report(st, t, "Expect expression."@), Err(())),
        }
    }
}

/// The operator-and-operand pairs that follow the first operand of a binary
/// level, folded to the left.
pub open spec fn parse_rest(st: PState, lvl: int, left: ExprV) -> (PState, Result<ExprV, ()>)
    decreases rem(st), 0int,
{
    if !pstate_ok(st) || !(1 <= lvl - 1) {
        (st, Err(()))
    } else if check_any(st, level_ops(lvl)) {
        let op = peek(st);
        let s1 = advance(st);
        proof { lemma_advance(st); }
        let (s2, r) = parse_expr(s1, lvl - 1);
        match r {
            Err(_) => (s2, Err(())),
            Ok(right) => if !moved_on(s1, s2) {
                (s2, Err(()))
            } else {
                parse_rest(s2, lvl, combine(lvl, left, op, right))
            },
        }
    } else {
        (st, Ok(left))
    }
}


pub open spec fn is_reserved_kind(k: KindV) -> bool {
    is_type_kind(k) || k == TokenType::<Seq<char>>::Declare || k == TokenType::<Seq<char>>::Print
        || k == TokenType::<Seq<char>>::Scan || k == TokenType::<Seq<char>>::If
        || k == TokenType::<Seq<char>>::Else || k == TokenType::<Seq<char>>::ElseIf
        || k == TokenType::<Seq<char>>::For || k == TokenType::<Seq<char>>::And
        || k == TokenType::<Seq<char>>::Or || k == TokenType::<Seq<char>>::Not
        || k == TokenType::<Seq<char>>::ScriptArea || k == TokenType::<Seq<char>>::StartScript
        || k == TokenType::<Seq<char>>::EndScript || k == TokenType::<Seq<char>>::RepeatWhen
        || k == TokenType::<Seq<char>>::StartRepeat || k == TokenType::<Seq<char>>::EndRepeat
        || k == TokenType::<Seq<char>>::StartIf || k == TokenType::<Seq<char>>::EndIf
        || k == TokenType::<Seq<char>>::StartFor || k == TokenType::<Seq<char>>::EndFor
}

pub open spec fn reserved_message(lexeme: Seq<char>) -> Seq<char> {
    "Reserved keyword '"@ + lexeme + "' cannot be used as a variable name."@
}

/// Expects an identifier; a reserved word in its place gets its own report.
pub open spec fn consume_identifier(st: PState, message: Seq<char>) -> (PState, Result<TokenV, ()>) {
    let t = peek(st);
    if t.token_type is Identifier {
        (advance(st), Ok(t))
    } else if is_reserved_kind(t.token_type) {
        (report(st, t, reserved_message(t.lexeme)), Err(()))
    } else {
        (report(st, t, message + " Got '"@ + t.lexeme + "' instead."@), Err(()))
    }
}

/// Expects one of the four type names.
pub open spec fn consume_any_type(st: PState, message: Seq<char>) -> (PState, Result<TokenV, ()>) {
    let t = peek(st);
    if is_type_kind(t.token_type) {
        (advance(st), Ok(t))
    } else {
        (report(st, t, message), Err(()))
    }
}

/// The type token recorded for a variable, if it is declared.
pub open spec fn type_of(types: Seq<(Seq<char>, KindV)>, name: Seq<char>) -> Option<KindV>
    decreases types.len(),
{
    if types.len() == 0 {
        None
    } else if types.last().0 == name {
        Some(types.last().1)
    } else {
        type_of(types.drop_last(), name)
    }
}

/// The name of a type as SCAN records it.
pub open spec fn declared_type_name(k: KindV) -> Seq<char> {
    if k == TokenType::<Seq<char>>::IntType {
        "INT"@
    } else if k == TokenType::<Seq<char>>::FloatType {
        "FLOAT"@
    } else if k == TokenType::<Seq<char>>::BoolType {
        "BOOL"@
    } else {
        "CHAR"@
    }
}

/// The name of a block's closing token as the reports spell it.
pub open spec fn end_name(k: KindV) -> Seq<char> {
    if k == TokenType::<Seq<char>>::EndIf {
        "EndIf"@
    } else if k == TokenType::<Seq<char>>::EndFor {
        "EndFor"@
    } else {
        "EndRepeat"@
    }
}

/// The tokens that may end an expression statement.
pub open spec fn ends_statement(st: PState) -> bool {
    at_end(st) || check(st, TokenType::NewLine) || check(st, TokenType::EndScript)
        || check(st, TokenType::EndIf) || check(st, TokenType::EndFor)
        || check(st, TokenType::EndRepeat) || check(st, TokenType::Else)
        || check(st, TokenType::ElseIf)
}

pub type StmtsR = Result<Seq<StmtView>, ()>;

pub type StmtR = Result<StmtView, ()>;

/// The ranks that order the mutually recursive parsing functions that may
/// call each other without taking a token first.
pub open spec fn rank_inner() -> int { 14 }
pub open spec fn rank_statement() -> int { 15 }
pub open spec fn rank_block_rest() -> int { 16 }
pub open spec fn rank_block() -> int { 17 }

/// `expression` followed by the end of the statement.
pub open spec fn expression_statement(st: PState) -> (PState, StmtR)
{
    if !pstate_ok(st) {
        (st, Err(()))
    } else {
        let (s1, r) = parse_expr(st, 12);
        match r {
            Err(_) => (s1, Err(())),
            Ok(e) => if !moved_on(st, s1) {
                (s1, Err(()))
            } else if !ends_statement(s1) {
                (report(s1, peek(s1), "Expect new line after statement."@), Err(()))
            } else {
                (swallow(s1), Ok(StmtView::Expression { expression: e }))
            },
        }
    }
}

/// `PRINT` has been taken: `: expression`.
pub open spec fn print_statement(st: PState) -> (PState, StmtR)
{
    if !pstate_ok(st) {
        (st, Err(()))
    } else {
        let (s1, c) = consume(st, TokenType::Colon, "Expect ':' after 'PRINT'."@);
        if c is Err {
            (s1, Err(()))
        } else {
            let (s2, r) = parse_expr(s1, 12);
            match r {
                Err(_) => (s2, Err(())),
                Ok(e) => (swallow(s2), Ok(StmtView::Print { expression: e })),
            }
        }
    }
}

/// The variables of a SCAN, from the next one on.
pub open spec fn scan_vars(
    st: PState,
    vars: Seq<TokenV>,
    types: Seq<Seq<char>>,
) -> (PState, StmtR)
    decreases rem(st), rank_inner(),
{
    if !pstate_ok(st) {
        (st, Err(()))
    } else {
        let (s1, r) = consume_identifier(st, "Expect variable name for SCAN."@);
        match r {
            Err(_) => (s1, Err(())),
            Ok(tok) => match type_of(s1.types, tok.lexeme) {
                None => (
                    report(s1, tok, "Variable '"@ + tok.lexeme + "' must be declared before SCAN."@),
                    Err(()),
                ),
                Some(k) => {
                    let vars2 = vars.push(tok);
                    let types2 = types.push(declared_type_name(k));
                    if check(s1, TokenType::Comma) {
                        proof { lemma_advance(st); lemma_advance(s1); }
                        scan_vars(advance(s1), vars2, types2)
                    } else {
                        let s2 = if check(s1, TokenType::NewLine) { advance(s1) } else { s1 };
                        (s2, Ok(StmtView::Scan { variables: vars2, types: types2 }))
                    }
                },
            },
        }
    }
}

/// `SCAN` has been taken: `: name, name, ...`.
pub open spec fn scan_statement(st: PState) -> (PState, StmtR) {
    let (s1, c) = consume(st, TokenType::Colon, "Expect ':' after 'SCAN'."@);
    if c is Err {
        (s1, Err(()))
    } else {
        scan_vars(s1, Seq::empty(), Seq::empty())
    }
}

/// The declarations of one DECLARE line, from the next name on.
pub open spec fn var_rest(st: PState, ty: TokenV, decls: Seq<StmtView>) -> (PState, StmtsR)
    decreases rem(st), rank_inner(),
{
    if !pstate_ok(st) || !is_type_kind(ty.token_type) {
        (st, Err(()))
    } else {
        let (s1, r) = consume_identifier(st, "Expect variable name."@);
        match r {
            Err(_) => (s1, Err(())),
            Ok(name) => if type_of(s1.types, name.lexeme) is Some {
                (report(s1, name, "Variable '"@ + name.lexeme + "' is already defined."@), Err(()))
            } else {
                let s2 = PState { types: s1.types.push((name.lexeme, ty.token_type)), ..s1 };
                proof { lemma_advance(st); }
                if check(s2, TokenType::Equal) {
                    let s3 = advance(s2);
                    if check(s3, TokenType::NewLine) {
                        (
                            report(s3, peek(s3), "Variable '"@ + name.lexeme + "' requires an initial value after '='."@),
                            Err(()),
                        )
                    } else {
                        let (s4, v) = parse_expr(s3, 12);
                        match v {
                            Err(_) => (s4, Err(())),
                            Ok(init) => if !moved_on(s3, s4) {
                                (s4, Err(()))
                            } else {
                                let decls2 = decls.push(
                                    StmtView::Var { data_type: ty, name, initializer: Some(init) },
                                );
                                if check(s4, TokenType::Comma) {
                                    var_rest(advance(s4), ty, decls2)
                                } else {
                                    (s4, Ok(decls2))
                                }
                            },
                        }
                    }
                } else {
                    let decls2 = decls.push(StmtView::Var { data_type: ty, name, initializer: None });
                    if check(s2, TokenType::Comma) {
                        var_rest(advance(s2), ty, decls2)
                    } else {
                        (s2, Ok(decls2))
                    }
                }
            },
        }
    }
}

/// `DECLARE` has been taken: a type, then names with optional initializers.
pub open spec fn var_declaration(st: PState) -> (PState, StmtsR)
{
    if !pstate_ok(st) {
        (st, Err(()))
    } else {
        let (s1, r) = consume_any_type(st, "Expect data type after 'DECLARE'."@);
        match r {
            Err(_) => (s1, Err(())),
            Ok(ty) => if check(s1, TokenType::NewLine) {
                (report(s1, peek(s1), "Missing variable name after '"@ + ty.lexeme + "'."@), Err(()))
            } else if !(peek(s1).token_type is Identifier) {
                (report(s1, peek(s1), reserved_message(peek(s1).lexeme)), Err(()))
            } else {
                let (s2, d) = var_rest(s1, ty, Seq::empty());
                match d {
                    Err(_) => (s2, Err(())),
                    Ok(decls) => (swallow(s2), Ok(decls)),
                }
            },
        }
    }
}

/// A statement, with the line breaks around it; a lone line break gives no
/// statement.
pub open spec fn statement(st: PState) -> (PState, StmtsR)
    decreases rem(st), rank_statement(),
{
    if !pstate_ok(st) {
        (st, Err(()))
    } else {
        let s0 = swallow(st);
        proof { lemma_swallow(st); lemma_advance(s0); }
        if check_any(
            s0,
            seq![TokenType::EndIf, TokenType::Else, TokenType::ElseIf, TokenType::EndFor, TokenType::EndRepeat, TokenType::EndScript],
        ) {
            let t = peek(s0);
            (report(s0, t, "Unexpected '"@ + t.lexeme + "' found. Missing matching START block."@), Err(()))
        } else if check(s0, TokenType::NewLine) {
            (advance(s0), Ok(Seq::empty()))
        } else {
            let (s1, r) = if check(s0, TokenType::Print) {
                print_statement(advance(s0))
            } else if check(s0, TokenType::Scan) {
                scan_statement(advance(s0))
            } else if check(s0, TokenType::If) {
                if_statement(advance(s0))
            } else if check(s0, TokenType::RepeatWhen) {
                repeat_when_statement(advance(s0))
            } else if check(s0, TokenType::For) {
                for_statement(advance(s0))
            } else {
                expression_statement(s0)
            };
            match r {
                Err(_) => (s1, Err(())),
                Ok(stmt) => (swallow(s1), Ok(seq![stmt])),
            }
        }
    }
}

/// `IF` (or `ELSE IF`) has been taken: the condition and the first block.
pub open spec fn if_statement(st: PState) -> (PState, StmtR)
    decreases rem(st), rank_inner(),
{
    if !pstate_ok(st) {
        (st, Err(()))
    } else {
        let (s1, c1) = consume(st, TokenType::LeftPar, "Expect '(' after 'IF'."@);
        proof { lemma_consume(st, TokenType::LeftPar, "Expect '(' after 'IF'."@); }
        let (s2, cr) = parse_expr(s1, 12);
        if c1 is Err {
            (s1, Err(()))
        } else if cr is Err {
            (s2, Err(()))
        } else if !moved_on(s1, s2) {
            (s2, Err(()))
        } else {
            let (s3, c3) = consume(s2, TokenType::RightPar, "Expect ')' after IF condition."@);
            proof { lemma_consume(s2, TokenType::RightPar, "Expect ')' after IF condition."@); lemma_swallow(s3); }
            let s4 = swallow(s3);
            let (s5, c5) = consume(s4, TokenType::StartIf, "Expect 'START IF' to begin block."@);
            proof { lemma_consume(s4, TokenType::StartIf, "Expect 'START IF' to begin block."@); lemma_swallow(s5); }
            let s6 = swallow(s5);
            if c3 is Err {
                (s3, Err(()))
            } else if c5 is Err {
                (s5, Err(()))
            } else {
                let (s7, tb) = block(s6, TokenType::EndIf);
                if tb is Err {
                    (s7, Err(()))
                } else if !moved_on(s6, s7) {
                    (s7, Err(()))
                } else {
                    proof { lemma_swallow(s7); }
                    if_else(swallow(s7), cr->Ok_0, tb->Ok_0)
                }
            }
        }
    }
}

/// What follows the first block of an IF: `ELSE IF ...`, `ELSE` and a block,
/// or nothing.
pub open spec fn if_else(st: PState, condition: ExprV, then_branch: StmtView) -> (PState, StmtR)
    decreases rem(st), rank_inner(),
{
    if !pstate_ok(st) {
        (st, Err(()))
    } else {
        proof { lemma_advance(st); }
        if check(st, TokenType::ElseIf) {
            let (s9, eb) = if_statement(advance(st));
            match eb {
                Err(_) => (s9, Err(())),
                Ok(else_branch) => (s9, Ok(StmtView::If {
                    condition,
                    then_branch: Box::new(then_branch),
                    else_branch: Some(Box::new(else_branch)),
                })),
            }
        } else if check(st, TokenType::Else) {
            proof { lemma_swallow(advance(st)); }
            let s9 = swallow(advance(st));
            let (s10, c10) = consume(s9, TokenType::StartIf, "Expect 'START IF' after 'ELSE'."@);
            proof { lemma_consume(s9, TokenType::StartIf, "Expect 'START IF' after 'ELSE'."@); lemma_swallow(s10); }
            let s11 = swallow(s10);
            if c10 is Err {
                (s10, Err(()))
            } else {
                let (s12, eb) = block(s11, TokenType::EndIf);
                match eb {
                    Err(_) => (s12, Err(())),
                    Ok(else_branch) => (swallow(s12), Ok(StmtView::If {
                        condition,
                        then_branch: Box::new(then_branch),
                        else_branch: Some(Box::new(else_branch)),
                    })),
                }
            }
        } else {
            (st, Ok(StmtView::If { condition, then_branch: Box::new(then_branch), else_branch: None }))
        }
    }
}

/// `REPEAT WHEN` has been taken.
pub open spec fn repeat_when_statement(st: PState) -> (PState, StmtR)
    decreases rem(st), rank_inner(),
{
    if !pstate_ok(st) {
        (st, Err(()))
    } else {
        let (s1, c1) = consume(st, TokenType::LeftPar, "Expect '(' after 'REPEAT WHEN'."@);
        proof { lemma_consume(st, TokenType::LeftPar, "Expect '(' after 'REPEAT WHEN'."@); }
        let (s2, cr) = parse_expr(s1, 12);
        if c1 is Err {
            (s1, Err(()))
        } else if cr is Err {
            (s2, Err(()))
        } else if !moved_on(s1, s2) {
            (s2, Err(()))
        } else {
            let (s3, c3) = consume(s2, TokenType::RightPar, "Expect ')' after condition."@);
            proof { lemma_consume(s2, TokenType::RightPar, "Expect ')' after condition."@); lemma_swallow(s3); }
            let s4 = swallow(s3);
            let (s5, c5) = consume(s4, TokenType::StartRepeat, "Expect 'START REPEAT'."@);
            proof { lemma_consume(s4, TokenType::StartRepeat, "Expect 'START REPEAT'."@); lemma_swallow(s5); }
            let s6 = swallow(s5);
            if c3 is Err {
                (s3, Err(()))
            } else if c5 is Err {
                (s5, Err(()))
            } else {
                let (s7, b) = block(s6, TokenType::EndRepeat);
                match b {
                    Err(_) => (s7, Err(())),
                    Ok(body) => (swallow(s7), Ok(StmtView::While { condition: cr->Ok_0, body: Box::new(body) })),
                }
            }
        }
    }
}

/// `FOR` has been taken: `( initializer ,` and the rest.
pub open spec fn for_statement(st: PState) -> (PState, StmtR)
    decreases rem(st), rank_inner(),
{
    if !pstate_ok(st) {
        (st, Err(()))
    } else {
        let (s1, c1) = consume(st, TokenType::LeftPar, "Expect '(' after 'FOR'."@);
        proof { lemma_consume(st, TokenType::LeftPar, "Expect '(' after 'FOR'."@); }
        let (s2, ir) = parse_expr(s1, 12);
        if c1 is Err {
            (s1, Err(()))
        } else if ir is Err {
            (s2, Err(()))
        } else if !moved_on(s1, s2) {
            (s2, Err(()))
        } else {
            let (s3, c3) = consume(s2, TokenType::Comma, "Expect ',' after initializer."@);
            proof { lemma_consume(s2, TokenType::Comma, "Expect ',' after initializer."@); }
            if c3 is Err {
                (s3, Err(()))
            } else {
                for_condition(s3, ir->Ok_0)
            }
        }
    }
}

/// The condition of a FOR and the rest.
pub open spec fn for_condition(st: PState, initializer: ExprV) -> (PState, StmtR)
    decreases rem(st), rank_inner(),
{
    if !pstate_ok(st) {
        (st, Err(()))
    } else {
        let (s4, cr) = parse_expr(st, 12);
        if cr is Err {
            (s4, Err(()))
        } else if !moved_on(st, s4) {
            (s4, Err(()))
        } else {
            let (s5, c5) = consume(s4, TokenType::Comma, "Expect ',' after condition."@);
            proof { lemma_consume(s4, TokenType::Comma, "Expect ',' after condition."@); }
            if c5 is Err {
                (s5, Err(()))
            } else {
                for_increment(s5, initializer, cr->Ok_0)
            }
        }
    }
}

/// The increment of a FOR, then its block.
pub open spec fn for_increment(st: PState, initializer: ExprV, condition: ExprV) -> (PState, StmtR)
    decreases rem(st), rank_inner(),
{
    if !pstate_ok(st) {
        (st, Err(()))
    } else {
        let (s6, incr) = parse_expr(st, 12);
        if incr is Err {
            (s6, Err(()))
        } else if !moved_on(st, s6) {
            (s6, Err(()))
        } else {
            let (s7, c7) = consume(s6, TokenType::RightPar, "Expect ')' after FOR clauses."@);
            proof { lemma_consume(s6, TokenType::RightPar, "Expect ')' after FOR clauses."@); lemma_swallow(s7); }
            let s8 = swallow(s7);
            let (s9, c9) = consume(s8, TokenType::StartFor, "Expect 'START FOR'."@);
            proof { lemma_consume(s8, TokenType::StartFor, "Expect 'START FOR'."@); lemma_swallow(s9); }
            let s10 = swallow(s9);
            if c7 is Err {
                (s7, Err(()))
            } else if c9 is Err {
                (s9, Err(()))
            } else {
                let (s11, b) = block(s10, TokenType::EndFor);
                match b {
                    Err(_) => (s11, Err(())),
                    Ok(body) => (swallow(s11), Ok(StmtView::For {
                        initializer,
                        condition,
                        increment: incr->Ok_0,
                        body: Box::new(body),
                    })),
                }
            }
        }
    }
}

/// The statements of a block up to its closing token `end`.
pub open spec fn block_rest(st: PState, end: KindV, acc: Seq<StmtView>) -> (PState, StmtR)
    decreases rem(st), rank_block_rest(),
{
    if !pstate_ok(st) {
        (st, Err(()))
    } else if !check(st, end) && !at_end(st) {
        if check(st, TokenType::EndScript) {
            (report(st, peek(st), "Missing '"@ + end_name(end) + "' before END SCRIPT."@), Err(()))
        } else {
            let (s1, r) = statement(st);
            match r {
                Err(_) => (s1, Err(())),
                Ok(list) => if !(moved_on(st, s1) && st.current < s1.current) {
                    (s1, Err(()))
                } else {
                    proof { lemma_swallow(s1); }
                    block_rest(swallow(s1), end, acc + list)
                },
            }
        }
    } else {
        let (s1, c) = consume(st, end, "Expect "@ + end_name(end) + " to close block."@);
        if c is Err {
            (s1, Err(()))
        } else {
            (s1, Ok(StmtView::Block { statements: acc }))
        }
    }
}

/// A block's statements and its closing token `end`.
pub open spec fn block(st: PState, end: KindV) -> (PState, StmtR)
    decreases rem(st), rank_block(),
{
    block_rest(st, end, Seq::empty())
}

/// A declaration where declarations are allowed, or else a statement.
pub open spec fn declaration(st: PState) -> (PState, StmtsR)
{
    if !pstate_ok(st) {
        (st, Err(()))
    } else {
        let s0 = swallow(st);
        if check(s0, TokenType::EndScript) || at_end(s0) {
            (s0, Ok(Seq::empty()))
        } else if check(s0, TokenType::Declare) {
            let s1 = advance(s0);
            if !s1.allow {
                (report(s1, peek(s0), "Declarations must come before executable code."@), Err(()))
            } else {
                var_declaration(s1)
            }
        } else {
            statement(PState { allow: false, ..s0 })
        }
    }
}

/// The declarations and statements of the script body, up to `END SCRIPT`:
/// the state reached, the statements, and whether an error was reported.
pub open spec fn parse_body(st: PState, acc: Seq<StmtView>, had_error: bool) -> (PState, Seq<StmtView>, bool)
    decreases rem(st),
{
    if !pstate_ok(st) {
        (st, acc, true)
    } else if !check(st, TokenType::EndScript) && !at_end(st) {
        let s0 = swallow(st);
        let (s1, r) = declaration(s0);
        let (s2, acc2, had2) = match r {
            Ok(list) => (s1, acc + list, had_error),
            Err(_) => (synchronize(s1), acc, true),
        };
        if !(moved_on(st, s2) && st.current < s2.current) {
            (s2, acc2, true)
        } else {
            parse_body(s2, acc2, had2)
        }
    } else {
        (st, acc, had_error)
    }
}


/// The whole parse: `SCRIPT AREA`, `START SCRIPT` and a line break, the body,
/// `END SCRIPT`, and nothing after it but line breaks. The statements come
/// back only when no syntax error was reported. An empty input (or one of
/// line breaks alone) is an empty program.
pub open spec fn parse_tokens(tokens: Seq<TokenV>) -> (PState, Option<Seq<StmtView>>) {
    let s0 = PState { tokens, current: 0, types: Seq::empty(), allow: true, errors: Seq::empty() };
    let s1 = swallow(s0);
    if at_end(s1) {
        (s1, Some(Seq::empty()))
    } else {
        let (a, ra) = consume(s1, TokenType::ScriptArea, "Expect 'SCRIPT AREA' at the beginning of the script."@);
        let (a2, h1) = if ra is Err { (synchronize(a), true) } else { (a, false) };
        let b0 = swallow(a2);
        let (b, rb) = consume(b0, TokenType::StartScript, "Expect 'START SCRIPT' after 'SCRIPT AREA'."@);
        let (b2, h2) = if rb is Err { (synchronize(b), true) } else { (b, h1) };
        let (c, rc) = consume(b2, TokenType::NewLine, "Expect newline after 'START SCRIPT'."@);
        let (c2, h3) = if rc is Err { (synchronize(c), true) } else { (c, h2) };
        let (d, stmts, h4) = parse_body(c2, Seq::empty(), h3);
        let (e, re) = consume(d, TokenType::EndScript, "Expect 'END SCRIPT' at the end of the script."@);
        let (e2, h5) = if re is Err { (synchronize(e), true) } else { (e, h4) };
        let f = swallow(e2);
        let (g, h6) = if !at_end(f) {
            (
                report(f, peek(f), "Unexpected code found after 'END SCRIPT'. Only one script block is allowed."@),
                true,
            )
        } else {
            (f, h5)
        };
        (g, if h6 { None } else { Some(stmts) })
    }
}

/// The index of the first `Eof` token from `i` on; the length where there
/// is none.
pub open spec fn first_eof_from(tokens: Seq<TokenV>, i: int) -> int
    decreases tokens.len() - i,
{
    if i < 0 || i >= tokens.len() {
        tokens.len() as int
    } else if tokens[i].token_type == TokenType::<Seq<char>>::Eof {
        i
    } else {
        first_eof_from(tokens, i + 1)
    }
}

/// The tokens up to and including the first `Eof`: all that parsing reads.
pub open spec fn through_first_eof(tokens: Seq<TokenV>) -> Seq<TokenV> {
    tokens.subrange(0, first_eof_from(tokens, 0) + 1)
}

proof fn lemma_first_eof_from(tokens: Seq<TokenV>, i: int, k: int)
    requires
        0 <= i <= k < tokens.len(),
        tokens[k].token_type == TokenType::<Seq<char>>::Eof,
    ensures
        i <= first_eof_from(tokens, i) <= k,
        tokens[first_eof_from(tokens, i)].token_type == TokenType::<Seq<char>>::Eof,
    decreases tokens.len() - i,
{
    if tokens[i].token_type != TokenType::<Seq<char>>::Eof {
        lemma_first_eof_from(tokens, i + 1, k);
    }
}

/// What parsing reads of a token list that holds an `Eof` ends with that
/// `Eof`, so the laws about `parse_tokens` apply to it.
pub proof fn lemma_through_first_eof(tokens: Seq<TokenV>, k: int)
    requires
        0 <= k < tokens.len(),
        tokens[k].token_type == TokenType::<Seq<char>>::Eof,
    ensures
        through_first_eof(tokens).len() > 0,
        through_first_eof(tokens).last().token_type == TokenType::<Seq<char>>::Eof,
{
    lemma_first_eof_from(tokens, 0, k);
}

pub open spec fn expr_r(r: Result<Expr, ParseError>) -> Result<ExprV, ()> {
    match r {
        Ok(e) => Ok(e@),
        Err(_) => Err(()),
    }
}

pub open spec fn stmt_r(r: Result<Stmt, ParseError>) -> StmtR {
    match r {
        Ok(s) => Ok(s@),
        Err(_) => Err(()),
    }
}

pub open spec fn stmts_r(r: Result<Vec<Stmt>, ParseError>) -> StmtsR {
    match r {
        Ok(v) => Ok(crate::stmt::stmts_view(v@)),
        Err(_) => Err(()),
    }
}

pub open spec fn token_r(r: Result<Token, ParseError>) -> Result<TokenV, ()> {
    match r {
        Ok(t) => Ok(t@),
        Err(_) => Err(()),
    }
}

pub open spec fn types_view(v: Seq<(String, TokenType)>) -> Seq<(Seq<char>, KindV)> {
    v.map_values(|p: (String, TokenType)| (p.0@, p.1@))
}

pub open spec fn errors_view(v: Seq<SyntaxError>) -> Seq<SyntaxError<Seq<char>>> {
    v.map_values(|e: SyntaxError| e@)
}

/// The recursive-descent parser.
pub struct Parser {
    tokens: Vec<Token>,
    current: usize,
    variable_types: Vec<(String, TokenType)>,
    allow_declarations: bool,
    errors: Vec<SyntaxError>,
}

impl View for Parser {
    type V = PState;

    closed spec fn view(&self) -> PState {
        PState {
            tokens: crate::lexer::tokens_view(self.tokens@),
            current: self.current as int,
            types: types_view(self.variable_types@),
            allow: self.allow_declarations,
            errors: errors_view(self.errors@),
        }
    }
}

fn text3(a: &str, mid: &str, b: &str) -> (m: String)
    ensures
        m@ == a@ + mid@ + b@,
{
    let mut m = string_of(a);
    push_all(&mut m, mid);
    push_all(&mut m, b);
    m
}

impl Parser {
    /// A parser over `tokens`, at the first one.
    pub fn new(tokens: Vec<Token>) -> (p: Parser)
        ensures
            p@.tokens == crate::lexer::tokens_view(tokens@),
            p@.current == 0,
            p@.types == Seq::<(Seq<char>, KindV)>::empty(),
            p@.allow,
            p@.errors == Seq::<SyntaxError<Seq<char>>>::empty(),
    {
        let p = Parser {
            tokens,
            current: 0,
            variable_types: Vec::new(),
            allow_declarations: true,
            errors: Vec::new(),
        };
        assert(types_view(p.variable_types@) =~= Seq::empty());
        assert(errors_view(p.errors@) =~= Seq::empty());
        p
    }

    /// The syntax errors reported by the last parse, in order.
    pub fn errors(&self) -> (e: &Vec<SyntaxError>)
        ensures
            errors_view(e@) == self@.errors,
    {
        &self.errors
    }

    fn at_end(&self) -> (r: bool)
        requires
            pstate_ok(self@),
        ensures
            r == at_end(self@),
    {
        match self.tokens[self.current].token_type {
            TokenType::Eof => true,
            _ => false,
        }
    }

    fn check(&self, t: TokenType) -> (r: bool)
        requires
            pstate_ok(self@),
        ensures
            r == check(self@, t@),
    {
        !self.at_end() && self.tokens[self.current].token_type.same_as(&t)
    }

    fn peek(&self) -> (t: Token)
        requires
            pstate_ok(self@),
        ensures
            t@ == peek(self@),
    {
        self.tokens[self.current].duplicate()
    }

    fn advance(&mut self)
        requires
            pstate_ok(old(self)@),
        ensures
            final(self)@ == advance(old(self)@),
    {
        proof { lemma_advance(self@); }
        if !self.at_end() {
            let n = self.tokens.len();
            assert(self.current < n);
            self.current = self.current + 1;
        }
    }

    fn report(&mut self, tok: &Token, message: String)
        ensures
            final(self)@ == report(old(self)@, tok@, message@),
    {
        let at_end = match tok.token_type {
            TokenType::Eof => true,
            _ => false,
        };
        let e = SyntaxError { line: tok.line, at_end, lexeme: tok.lexeme.clone(), message };
        let ghost before = self.errors@;
        self.errors.push(e);
        assert(errors_view(self.errors@) =~= errors_view(before).push(e@));
    }

    fn consume(&mut self, t: TokenType, message: &str) -> (r: Result<Token, ParseError>)
        requires
            pstate_ok(old(self)@),
        ensures
            (final(self)@, token_r(r)) == consume(old(self)@, t@, message@),
    {
        if self.check(t) {
            let tok = self.peek();
            self.advance();
            Ok(tok)
        } else {
            let tok = self.peek();
            self.report(&tok, string_of(message));
            Err(ParseError)
        }
    }

    fn swallow_new_lines(&mut self)
        requires
            pstate_ok(old(self)@),
        ensures
            final(self)@ == swallow(old(self)@),
    {
        while self.check(TokenType::NewLine) || self.check(TokenType::Comment)
            invariant
                pstate_ok(self@),
                swallow(self@) == swallow(old(self)@),
            decreases self.tokens@.len() - self.current,
        {
            assert(check_any(self@, seq![TokenType::NewLine, TokenType::Comment]));
            proof { lemma_advance(self@); }
            self.advance();
        }
        assert(!check_any(self@, seq![TokenType::NewLine, TokenType::Comment]));
    }

    fn synchronize(&mut self)
        requires
            pstate_ok(old(self)@),
        ensures
            final(self)@ == synchronize(old(self)@),
    {
        proof { lemma_advance(self@); }
        self.advance();
        while !self.at_end() && self.current >= 1
            invariant
                pstate_ok(self@),
                sync_rest(self@) == synchronize(old(self)@),
            decreases self.tokens@.len() - self.current,
        {
            match self.tokens[self.current - 1].token_type {
                TokenType::NewLine => return,
                _ => {},
            }
            match self.tokens[self.current].token_type {
                TokenType::Declare | TokenType::Print | TokenType::Scan | TokenType::If | TokenType::For
                | TokenType::RepeatWhen | TokenType::EndScript => return,
                _ => {},
            }
            proof { lemma_advance(self@); }
            self.advance();
        }
    }
}


pub(crate) proof fn lemma_contains1(a: KindV, x: KindV)
    ensures
        seq![a].contains(x) <==> x == a,
{
    if x == a {
        assert(seq![a][0] == x);
    }
}

pub(crate) proof fn lemma_contains2(a: KindV, b: KindV, x: KindV)
    ensures
        seq![a, b].contains(x) <==> (x == a || x == b),
{
    if x == a {
        assert(seq![a, b][0] == x);
    }
    if x == b {
        assert(seq![a, b][1] == x);
    }
}

pub(crate) proof fn lemma_contains3(a: KindV, b: KindV, c: KindV, x: KindV)
    ensures
        seq![a, b, c].contains(x) <==> (x == a || x == b || x == c),
{
    if x == a {
        assert(seq![a, b, c][0] == x);
    }
    if x == b {
        assert(seq![a, b, c][1] == x);
    }
    if x == c {
        assert(seq![a, b, c][2] == x);
    }
}

pub(crate) proof fn lemma_contains4(a: KindV, b: KindV, c: KindV, d: KindV, x: KindV)
    ensures
        seq![a, b, c, d].contains(x) <==> (x == a || x == b || x == c || x == d),
{
    if x == a {
        assert(seq![a, b, c, d][0] == x);
    }
    if x == b {
        assert(seq![a, b, c, d][1] == x);
    }
    if x == c {
        assert(seq![a, b, c, d][2] == x);
    }
    if x == d {
        assert(seq![a, b, c, d][3] == x);
    }
}

proof fn lemma_contains6(a: KindV, b: KindV, c: KindV, d: KindV, e: KindV, f: KindV, x: KindV)
    ensures
        seq![a, b, c, d, e, f].contains(x) <==> (x == a || x == b || x == c || x == d || x == e || x == f),
{
    let s = seq![a, b, c, d, e, f];
    if x == a {
        assert(s[0] == x);
    }
    if x == b {
        assert(s[1] == x);
    }
    if x == c {
        assert(s[2] == x);
    }
    if x == d {
        assert(s[3] == x);
    }
    if x == e {
        assert(s[4] == x);
    }
    if x == f {
        assert(s[5] == x);
    }
}

impl Parser {
    /// Whether the current token is an operator of binary level `lvl`.
    fn check_level(&self, lvl: u8) -> (r: bool)
        requires
            pstate_ok(self@),
            is_binary_level(lvl as int),
        ensures
            r == check_any(self@, level_ops(lvl as int)),
    {
        let ghost k = peek(self@).token_type;
        if lvl == 11 {
            proof { lemma_contains1(TokenType::Ampersand, k); }
            self.check(TokenType::Ampersand)
        } else if lvl == 10 {
            proof { lemma_contains1(TokenType::Or, k); }
            self.check(TokenType::Or)
        } else if lvl == 9 {
            proof { lemma_contains1(TokenType::And, k); }
            self.check(TokenType::And)
        } else if lvl == 7 {
            proof { lemma_contains2(TokenType::NotEqual, TokenType::EqualEqual, k); }
            self.check(TokenType::NotEqual) || self.check(TokenType::EqualEqual)
        } else if lvl == 6 {
            proof {
                lemma_contains4(TokenType::Greater, TokenType::GreaterEqual, TokenType::Less, TokenType::LessEqual, k);
            }
            self.check(TokenType::Greater) || self.check(TokenType::GreaterEqual) || self.check(TokenType::Less)
                || self.check(TokenType::LessEqual)
        } else if lvl == 5 {
            proof { lemma_contains2(TokenType::Minus, TokenType::Plus, k); }
            self.check(TokenType::Minus) || self.check(TokenType::Plus)
        } else {
            proof { lemma_contains3(TokenType::Slash, TokenType::Star, TokenType::Modulo, k); }
            self.check(TokenType::Slash) || self.check(TokenType::Star) || self.check(TokenType::Modulo)
        }
    }

    /// Parses an expression at precedence level `lvl` (see `parse_expr`).
    fn expression_at(&mut self, lvl: u8) -> (r: Result<Expr, ParseError>)
        requires
            pstate_ok(old(self)@),
            1 <= lvl <= 12,
        ensures
            (final(self)@, expr_r(r)) == parse_expr(old(self)@, lvl as int),
            moved_on(old(self)@, final(self)@),
            r is Ok ==> final(self)@.current > old(self)@.current,
            final(self)@.types == old(self)@.types,
            final(self)@.allow == old(self)@.allow,
        decreases old(self).tokens@.len() - old(self).current, lvl,
    {
        let ghost st = self@;
        if lvl == 12 {
            let e = match self.expression_at(11) {
                Ok(e) => e,
                Err(x) => return Err(x),
            };
            if self.check(TokenType::Equal) {
                let equals = self.peek();
                proof { lemma_advance(self@); }
                self.advance();
                let value = match self.expression_at(12) {
                    Ok(v) => v,
                    Err(x) => return Err(x),
                };
                match e {
                    Expr::Variable { name } => Ok(Expr::Assign { name, value: Box::new(value) }),
                    _ => {
                        self.report(&equals, string_of("Invalid assignment target."));
                        Err(ParseError)
                    },
                }
            } else {
                Ok(e)
            }
        } else if lvl == 11 || lvl == 10 || lvl == 9 || lvl == 7 || lvl == 6 || lvl == 5 || lvl == 4 {
            let e = match self.expression_at(lvl - 1) {
                Ok(e) => e,
                Err(x) => return Err(x),
            };
            self.expression_rest(lvl, e)
        } else if lvl == 8 {
            if self.check(TokenType::Not) {
                let op = self.peek();
                proof { lemma_advance(self@); }
                self.advance();
                let right = match self.expression_at(8) {
                    Ok(e) => e,
                    Err(x) => return Err(x),
                };
                Ok(Expr::Unary { operator: op, right: Box::new(right) })
            } else {
                self.expression_at(7)
            }
        } else if lvl == 3 {
            proof { lemma_contains2(TokenType::Minus, TokenType::Plus, peek(self@).token_type); }
            if self.check(TokenType::Minus) || self.check(TokenType::Plus) {
                let op = self.peek();
                proof { lemma_advance(self@); }
                self.advance();
                let right = match self.expression_at(3) {
                    Ok(e) => e,
                    Err(x) => return Err(x),
                };
                Ok(Expr::Unary { operator: op, right: Box::new(right) })
            } else {
                self.expression_at(2)
            }
        } else if lvl == 2 {
            self.postfix()
        } else {
            self.primary()
        }
    }

    /// The operator-and-operand pairs after the first operand of binary
    /// level `lvl`, folded to the left onto `left`.
    fn expression_rest(&mut self, lvl: u8, left: Expr) -> (r: Result<Expr, ParseError>)
        requires
            pstate_ok(old(self)@),
            is_binary_level(lvl as int),
        ensures
            (final(self)@, expr_r(r)) == parse_rest(old(self)@, lvl as int, left@),
            moved_on(old(self)@, final(self)@),
            final(self)@.types == old(self)@.types,
            final(self)@.allow == old(self)@.allow,
        decreases old(self).tokens@.len() - old(self).current, 0u8,
    {
        if self.check_level(lvl) {
            let op = self.peek();
            proof { lemma_advance(self@); }
            self.advance();
            let right = match self.expression_at(lvl - 1) {
                Ok(e) => e,
                Err(x) => return Err(x),
            };
            let node = if lvl == 10 || lvl == 9 {
                Expr::Logical { left: Box::new(left), operator: op, right: Box::new(right) }
            } else {
                Expr::Binary { left: Box::new(left), operator: op, right: Box::new(right) }
            };
            self.expression_rest(lvl, node)
        } else {
            Ok(left)
        }
    }

    /// `primary` followed by an optional `++` or `--`, which stands for
    /// `name = name + 1` or `name = name - 1`.
    fn postfix(&mut self) -> (r: Result<Expr, ParseError>)
        requires
            pstate_ok(old(self)@),
        ensures
            (final(self)@, expr_r(r)) == parse_expr(old(self)@, 2),
            moved_on(old(self)@, final(self)@),
            r is Ok ==> final(self)@.current > old(self)@.current,
            final(self)@.types == old(self)@.types,
            final(self)@.allow == old(self)@.allow,
        decreases old(self).tokens@.len() - old(self).current, 1u8,
    {
        let e = match self.primary() {
            Ok(e) => e,
            Err(x) => return Err(x),
        };
        proof { lemma_contains2(TokenType::PlusPlus, TokenType::MinusMinus, peek(self@).token_type); }
        if self.check(TokenType::PlusPlus) || self.check(TokenType::MinusMinus) {
            let op = self.peek();
            proof { lemma_advance(self@); }
            self.advance();
            match e {
                Expr::Variable { name } => {
                    let synthetic = match op.token_type {
                        TokenType::PlusPlus => Token::new(TokenType::Plus, string_of("+"), op.line),
                        _ => Token::new(TokenType::Minus, string_of("-"), op.line),
                    };
                    let var = Expr::Variable { name: name.duplicate() };
                    let one: Expr = Expr::Literal { value: LiteralValue::Int(1) };
                    assert(var@ == Expr::<Seq<char>>::Variable { name: name@ });
                    assert(one@ == literal(LiteralValue::Int(1)));
                    let sum = Expr::Binary { left: Box::new(var), operator: synthetic, right: Box::new(one) };
                    assert(sum@ == Expr::<Seq<char>>::Binary {
                        left: Box::new(Expr::Variable { name: name@ }),
                        operator: synthetic@,
                        right: Box::new(literal(LiteralValue::Int(1))),
                    });
                    Ok(Expr::Assign { name, value: Box::new(sum) })
                },
                _ => {
                    self.report(&op, string_of("Invalid target for increment/decrement operator."));
                    Err(ParseError)
                },
            }
        } else {
            Ok(e)
        }
    }

    /// A literal, `$`, an escape code, a variable, or a parenthesized
    /// expression.
    fn primary(&mut self) -> (r: Result<Expr, ParseError>)
        requires
            pstate_ok(old(self)@),
        ensures
            (final(self)@, expr_r(r)) == parse_expr(old(self)@, 1),
            moved_on(old(self)@, final(self)@),
            r is Ok ==> final(self)@.current > old(self)@.current,
            final(self)@.types == old(self)@.types,
            final(self)@.allow == old(self)@.allow,
        decreases old(self).tokens@.len() - old(self).current, 0u8,
    {
        proof { lemma_advance(self@); }
        let t = self.peek();
        let kind = t.token_type.duplicate();
        match kind {
            TokenType::IntLiteral(v) => {
                self.advance();
                Ok(Expr::Literal { value: LiteralValue::Int(v) })
            },
            TokenType::FloatLiteral(f) => {
                self.advance();
                Ok(Expr::Literal { value: LiteralValue::Float(f) })
            },
            TokenType::StringLiteral(s) => {
                self.advance();
                Ok(Expr::Literal { value: LiteralValue::String(s) })
            },
            TokenType::CharLiteral(c) => {
                self.advance();
                Ok(Expr::Literal { value: LiteralValue::Char(c) })
            },
            TokenType::BoolLiteral(b) => {
                self.advance();
                Ok(Expr::Literal { value: LiteralValue::Bool(b) })
            },
            TokenType::Dollar => {
                self.advance();
                let nl = string_of("\n");
                proof { reveal_strlit("\n"); }
                assert(nl@ =~= seq!['\n']);
                Ok(Expr::Literal { value: LiteralValue::String(nl) })
            },
            TokenType::EscapeCode => {
                self.advance();
                let chars = crate::text::chars_of(t.lexeme.as_str());
                let n = chars.len();
                let inner = if n > 2 {
                    crate::text::string_from_range(&chars, 1, n - 1)
                } else {
                    String::new()
                };
                assert(inner@ =~= escape_text(t@.lexeme));
                Ok(Expr::Literal { value: LiteralValue::String(inner) })
            },
            TokenType::Identifier(_) => {
                self.advance();
                Ok(Expr::Variable { name: t })
            },
            TokenType::LeftPar => {
                self.advance();
                let e = match self.expression_at(12) {
                    Ok(e) => e,
                    Err(x) => return Err(x),
                };
                if self.check(TokenType::RightPar) {
                    proof { lemma_advance(self@); }
                    self.advance();
                    Ok(Expr::Grouping { expression: Box::new(e) })
                } else {
                    let tok = self.peek();
                    self.report(&tok, string_of("Expect ')' after expression."));
                    Err(ParseError)
                }
            },
            _ => {
                self.report(&t, string_of("Expect expression."));
                Err(ParseError)
            },
        }
    }
}


fn declared_type_text(k: &TokenType) -> (r: String)
    ensures
        r@ == declared_type_name(k@),
{
    match k {
        TokenType::IntType => string_of("INT"),
        TokenType::FloatType => string_of("FLOAT"),
        TokenType::BoolType => string_of("BOOL"),
        _ => string_of("CHAR"),
    }
}

fn end_text(k: &TokenType) -> (r: &'static str)
    ensures
        r@ == end_name(k@),
{
    match k {
        TokenType::EndIf => "EndIf",
        TokenType::EndFor => "EndFor",
        _ => "EndRepeat",
    }
}

fn is_reserved(k: &TokenType) -> (r: bool)
    ensures
        r == is_reserved_kind(k@),
{
    match k {
        TokenType::IntType | TokenType::FloatType | TokenType::BoolType | TokenType::CharType
        | TokenType::Declare | TokenType::Print | TokenType::Scan | TokenType::If | TokenType::Else
        | TokenType::ElseIf | TokenType::For | TokenType::And | TokenType::Or | TokenType::Not
        | TokenType::ScriptArea | TokenType::StartScript | TokenType::EndScript | TokenType::RepeatWhen
        | TokenType::StartRepeat | TokenType::EndRepeat | TokenType::StartIf | TokenType::EndIf
        | TokenType::StartFor | TokenType::EndFor => true,
        _ => false,
    }
}

impl Parser {
    fn consume_identifier(&mut self, message: &str) -> (r: Result<Token, ParseError>)
        requires
            pstate_ok(old(self)@),
        ensures
            (final(self)@, token_r(r)) == consume_identifier(old(self)@, message@),
    {
        proof { lemma_advance(self@); }
        let t = self.peek();
        match t.token_type {
            TokenType::Identifier(_) => {
                self.advance();
                Ok(t)
            },
            _ => {
                let m = if is_reserved(&t.token_type) {
                    text3("Reserved keyword '", t.lexeme.as_str(), "' cannot be used as a variable name.")
                } else {
                    let mut m = string_of(message);
                    push_all(&mut m, " Got '");
                    push_all(&mut m, t.lexeme.as_str());
                    push_all(&mut m, "' instead.");
                    m
                };
                self.report(&t, m);
                Err(ParseError)
            },
        }
    }

    fn consume_any_type(&mut self, message: &str) -> (r: Result<Token, ParseError>)
        requires
            pstate_ok(old(self)@),
        ensures
            (final(self)@, token_r(r)) == consume_any_type(old(self)@, message@),
    {
        proof { lemma_advance(self@); }
        let t = self.peek();
        match t.token_type {
            TokenType::IntType | TokenType::FloatType | TokenType::BoolType | TokenType::CharType => {
                self.advance();
                Ok(t)
            },
            _ => {
                self.report(&t, string_of(message));
                Err(ParseError)
            },
        }
    }

    fn lookup_type(&self, name: &String) -> (r: Option<TokenType>)
        ensures
            r matches Some(k) ==> type_of(self@.types, name@) == Some(k@),
            r is None ==> type_of(self@.types, name@) is None,
    {
        let mut k = self.variable_types.len();
        assert(self@.types.subrange(0, k as int) =~= self@.types);
        while k > 0
            invariant
                k <= self.variable_types@.len(),
                type_of(self@.types, name@) == type_of(self@.types.subrange(0, k as int), name@),
            decreases k,
        {
            let ghost sub = self@.types.subrange(0, k as int);
            assert(sub.drop_last() =~= self@.types.subrange(0, k - 1));
            assert(sub.last() == (self.variable_types@[k - 1].0@, self.variable_types@[k - 1].1@));
            if self.variable_types[k - 1].0 == *name {
                return Some(self.variable_types[k - 1].1.duplicate());
            }
            k = k - 1;
        }
        None
    }

    /// `expression` followed by the end of the statement.
    fn expression_statement(&mut self) -> (r: Result<Stmt, ParseError>)
        requires
            pstate_ok(old(self)@),
        ensures
            (final(self)@, stmt_r(r)) == expression_statement(old(self)@),
            moved_on(old(self)@, final(self)@),
            r is Ok ==> final(self)@.current > old(self)@.current,
    {
        let e = match self.expression_at(12) {
            Ok(e) => e,
            Err(x) => return Err(x),
        };
        if !(self.at_end() || self.check(TokenType::NewLine) || self.check(TokenType::EndScript)
            || self.check(TokenType::EndIf) || self.check(TokenType::EndFor) || self.check(TokenType::EndRepeat)
            || self.check(TokenType::Else) || self.check(TokenType::ElseIf)) {
            let t = self.peek();
            self.report(&t, string_of("Expect new line after statement."));
            return Err(ParseError);
        }
        proof { lemma_swallow(self@); }
        self.swallow_new_lines();
        Ok(Stmt::Expression { expression: e })
    }

    /// `PRINT` has been taken.
    fn print_statement(&mut self) -> (r: Result<Stmt, ParseError>)
        requires
            pstate_ok(old(self)@),
        ensures
            (final(self)@, stmt_r(r)) == print_statement(old(self)@),
            moved_on(old(self)@, final(self)@),
    {
        proof { lemma_consume(self@, TokenType::Colon, "Expect ':' after 'PRINT'."@); }
        match self.consume(TokenType::Colon, "Expect ':' after 'PRINT'.") {
            Ok(_) => {},
            Err(x) => return Err(x),
        }
        let e = match self.expression_at(12) {
            Ok(e) => e,
            Err(x) => return Err(x),
        };
        proof { lemma_swallow(self@); }
        self.swallow_new_lines();
        Ok(Stmt::Print { expression: e })
    }

    fn scan_vars(&mut self, vars: Vec<Token>, types: Vec<String>) -> (r: Result<Stmt, ParseError>)
        requires
            pstate_ok(old(self)@),
        ensures
            (final(self)@, stmt_r(r)) == scan_vars(
                old(self)@,
                crate::lexer::tokens_view(vars@),
                types@.map_values(|t: String| t@),
            ),
            moved_on(old(self)@, final(self)@),
        decreases old(self).tokens@.len() - old(self).current,
    {
        let mut vars = vars;
        let mut types = types;
        proof { lemma_advance(self@); }
        let tok = match self.consume_identifier("Expect variable name for SCAN.") {
            Ok(t) => t,
            Err(x) => return Err(x),
        };
        match self.lookup_type(&tok.lexeme) {
            None => {
                let m = text3("Variable '", tok.lexeme.as_str(), "' must be declared before SCAN.");
                self.report(&tok, m);
                Err(ParseError)
            },
            Some(k) => {
                let ghost vv = crate::lexer::tokens_view(vars@);
                let ghost tv = types@.map_values(|t: String| t@);
                let name = declared_type_text(&k);
                vars.push(tok);
                types.push(name);
                assert(crate::lexer::tokens_view(vars@) =~= vv.push(tok@));
                assert(types@.map_values(|t: String| t@) =~= tv.push(name@));
                proof { lemma_advance(self@); }
                if self.check(TokenType::Comma) {
                    self.advance();
                    self.scan_vars(vars, types)
                } else {
                    if self.check(TokenType::NewLine) {
                        self.advance();
                    }
                    Ok(Stmt::Scan { variables: vars, types })
                }
            },
        }
    }

    /// `SCAN` has been taken.
    fn scan_statement(&mut self) -> (r: Result<Stmt, ParseError>)
        requires
            pstate_ok(old(self)@),
        ensures
            (final(self)@, stmt_r(r)) == scan_statement(old(self)@),
            moved_on(old(self)@, final(self)@),
    {
        proof { lemma_consume(self@, TokenType::Colon, "Expect ':' after 'SCAN'."@); }
        match self.consume(TokenType::Colon, "Expect ':' after 'SCAN'.") {
            Ok(_) => {},
            Err(x) => return Err(x),
        }
        let vars: Vec<Token> = Vec::new();
        let types: Vec<String> = Vec::new();
        assert(crate::lexer::tokens_view(vars@) =~= Seq::empty());
        assert(types@.map_values(|t: String| t@) =~= Seq::empty());
        self.scan_vars(vars, types)
    }
}


pub open spec fn stmts_opt(r: Option<Vec<Stmt>>) -> Option<Seq<StmtView>> {
    match r {
        Some(v) => Some(crate::stmt::stmts_view(v@)),
        None => None,
    }
}

impl Parser {
    /// The declarations of one DECLARE line, from the next name on.
    fn var_rest(&mut self, ty: &Token, decls: Vec<Stmt>) -> (r: Result<Vec<Stmt>, ParseError>)
        requires
            pstate_ok(old(self)@),
            is_type_kind(ty@.token_type),
        ensures
            (final(self)@, stmts_r(r)) == var_rest(old(self)@, ty@, crate::stmt::stmts_view(decls@)),
            moved_on(old(self)@, final(self)@),
        decreases old(self).tokens@.len() - old(self).current,
    {
        let ghost decls0 = decls@;
        let mut decls = decls;
        proof { lemma_advance(self@); }
        let name = match self.consume_identifier("Expect variable name.") {
            Ok(t) => t,
            Err(x) => return Err(x),
        };
        if self.lookup_type(&name.lexeme).is_some() {
            let m = text3("Variable '", name.lexeme.as_str(), "' is already defined.");
            self.report(&name, m);
            return Err(ParseError);
        }
        let ghost before = self.variable_types@;
        let entry = (name.lexeme.clone(), ty.token_type.duplicate());
        self.variable_types.push(entry);
        assert(types_view(self.variable_types@) =~= types_view(before).push((name@.lexeme, ty@.token_type)));
        let ghost s2 = self@;
        proof { lemma_advance(s2); }
        let init = if self.check(TokenType::Equal) {
            self.advance();
            proof { lemma_advance(self@); }
            if self.check(TokenType::NewLine) {
                let t = self.peek();
                let m = text3("Variable '", name.lexeme.as_str(), "' requires an initial value after '='.");
                self.report(&t, m);
                return Err(ParseError);
            }
            match self.expression_at(12) {
                Ok(e) => Some(e),
                Err(x) => return Err(x),
            }
        } else {
            None
        };
        let ghost dv = crate::stmt::stmts_view(decls@);
        let d = Stmt::Var { data_type: ty.duplicate(), name, initializer: init };
        decls.push(d);
        proof { crate::stmt::lemma_stmts_view_push(decls@.drop_last(), d); }
        assert(decls@.drop_last() =~= decls0);
        proof { lemma_advance(self@); }
        if self.check(TokenType::Comma) {
            self.advance();
            self.var_rest(ty, decls)
        } else {
            Ok(decls)
        }
    }

    /// `DECLARE` has been taken.
    fn var_declaration(&mut self) -> (r: Result<Vec<Stmt>, ParseError>)
        requires
            pstate_ok(old(self)@),
        ensures
            (final(self)@, stmts_r(r)) == var_declaration(old(self)@),
            moved_on(old(self)@, final(self)@),
    {
        proof { lemma_advance(self@); }
        let ty = match self.consume_any_type("Expect data type after 'DECLARE'.") {
            Ok(t) => t,
            Err(x) => return Err(x),
        };
        if self.check(TokenType::NewLine) {
            let t = self.peek();
            let m = text3("Missing variable name after '", ty.lexeme.as_str(), "'.");
            self.report(&t, m);
            return Err(ParseError);
        }
        let t = self.peek();
        match t.token_type {
            TokenType::Identifier(_) => {},
            _ => {
                let m = text3("Reserved keyword '", t.lexeme.as_str(), "' cannot be used as a variable name.");
                self.report(&t, m);
                return Err(ParseError);
            },
        }
        let decls = match self.var_rest(&ty, Vec::new()) {
            Ok(d) => d,
            Err(x) => return Err(x),
        };
        proof { lemma_swallow(self@); }
        self.swallow_new_lines();
        Ok(decls)
    }

    /// A statement with the line breaks around it.
    fn statement(&mut self) -> (r: Result<Vec<Stmt>, ParseError>)
        requires
            pstate_ok(old(self)@),
        ensures
            (final(self)@, stmts_r(r)) == statement(old(self)@),
            moved_on(old(self)@, final(self)@),
            r is Ok ==> final(self)@.current > old(self)@.current,
        decreases old(self).tokens@.len() - old(self).current, 15u8,
    {
        proof { lemma_swallow(self@); }
        self.swallow_new_lines();
        proof {
            lemma_advance(self@);
            lemma_contains6(
                TokenType::EndIf, TokenType::Else, TokenType::ElseIf, TokenType::EndFor, TokenType::EndRepeat,
                TokenType::EndScript, peek(self@).token_type,
            );
        }
        if self.check(TokenType::EndIf) || self.check(TokenType::Else) || self.check(TokenType::ElseIf)
            || self.check(TokenType::EndFor) || self.check(TokenType::EndRepeat) || self.check(TokenType::EndScript) {
            let t = self.peek();
            let m = text3("Unexpected '", t.lexeme.as_str(), "' found. Missing matching START block.");
            self.report(&t, m);
            return Err(ParseError);
        }
        if self.check(TokenType::NewLine) {
            self.advance();
            let v: Vec<Stmt> = Vec::new();
            assert(crate::stmt::stmts_view(v@) =~= Seq::empty());
            return Ok(v);
        }
        let r = if self.check(TokenType::Print) {
            self.advance();
            self.print_statement()
        } else if self.check(TokenType::Scan) {
            self.advance();
            self.scan_statement()
        } else if self.check(TokenType::If) {
            self.advance();
            self.if_statement()
        } else if self.check(TokenType::RepeatWhen) {
            self.advance();
            self.repeat_when_statement()
        } else if self.check(TokenType::For) {
            self.advance();
            self.for_statement()
        } else {
            self.expression_statement()
        };
        match r {
            Err(x) => Err(x),
            Ok(stmt) => {
                proof { lemma_swallow(self@); }
                self.swallow_new_lines();
                let mut v: Vec<Stmt> = Vec::new();
                v.push(stmt);
                proof { crate::stmt::lemma_stmts_view_push(Seq::empty(), stmt); }
                assert(v@ =~= Seq::<Stmt>::empty().push(stmt));
                assert(crate::stmt::stmts_view(Seq::<Stmt>::empty()) =~= Seq::empty());
                assert(crate::stmt::stmts_view(v@) =~= seq![stmt@]);
                Ok(v)
            },
        }
    }

    /// `IF` (or `ELSE IF`) has been taken.
    fn if_statement(&mut self) -> (r: Result<Stmt, ParseError>)
        requires
            pstate_ok(old(self)@),
        ensures
            (final(self)@, stmt_r(r)) == if_statement(old(self)@),
            moved_on(old(self)@, final(self)@),
        decreases old(self).tokens@.len() - old(self).current, 14u8,
    {
        proof { lemma_consume(self@, TokenType::LeftPar, "Expect '(' after 'IF'."@); }
        match self.consume(TokenType::LeftPar, "Expect '(' after 'IF'.") {
            Ok(_) => {},
            Err(x) => return Err(x),
        }
        let condition = match self.expression_at(12) {
            Ok(e) => e,
            Err(x) => return Err(x),
        };
        proof { lemma_consume(self@, TokenType::RightPar, "Expect ')' after IF condition."@); }
        match self.consume(TokenType::RightPar, "Expect ')' after IF condition.") {
            Ok(_) => {},
            Err(x) => return Err(x),
        }
        proof { lemma_swallow(self@); }
        self.swallow_new_lines();
        proof { lemma_consume(self@, TokenType::StartIf, "Expect 'START IF' to begin block."@); }
        match self.consume(TokenType::StartIf, "Expect 'START IF' to begin block.") {
            Ok(_) => {},
            Err(x) => return Err(x),
        }
        proof { lemma_swallow(self@); }
        self.swallow_new_lines();
        let then_branch = match self.block(TokenType::EndIf) {
            Ok(b) => b,
            Err(x) => return Err(x),
        };
        proof { lemma_swallow(self@); }
        self.swallow_new_lines();
        self.if_else(condition, then_branch)
    }

    /// What follows the first block of an IF.
    fn if_else(&mut self, condition: Expr, then_branch: Stmt) -> (r: Result<Stmt, ParseError>)
        requires
            pstate_ok(old(self)@),
        ensures
            (final(self)@, stmt_r(r)) == if_else(old(self)@, condition@, then_branch@),
            moved_on(old(self)@, final(self)@),
        decreases old(self).tokens@.len() - old(self).current, 14u8,
    {
        proof { lemma_advance(self@); }
        if self.check(TokenType::ElseIf) {
            self.advance();
            let else_branch = match self.if_statement() {
                Ok(b) => b,
                Err(x) => return Err(x),
            };
            Ok(Stmt::If {
                condition,
                then_branch: Box::new(then_branch),
                else_branch: Some(Box::new(else_branch)),
            })
        } else if self.check(TokenType::Else) {
            self.advance();
            proof { lemma_swallow(self@); }
            self.swallow_new_lines();
            proof { lemma_consume(self@, TokenType::StartIf, "Expect 'START IF' after 'ELSE'."@); }
            match self.consume(TokenType::StartIf, "Expect 'START IF' after 'ELSE'.") {
                Ok(_) => {},
                Err(x) => return Err(x),
            }
            proof { lemma_swallow(self@); }
            self.swallow_new_lines();
            let else_branch = match self.block(TokenType::EndIf) {
                Ok(b) => b,
                Err(x) => return Err(x),
            };
            proof { lemma_swallow(self@); }
            self.swallow_new_lines();
            Ok(Stmt::If {
                condition,
                then_branch: Box::new(then_branch),
                else_branch: Some(Box::new(else_branch)),
            })
        } else {
            Ok(Stmt::If { condition, then_branch: Box::new(then_branch), else_branch: None })
        }
    }

    /// `REPEAT WHEN` has been taken.
    fn repeat_when_statement(&mut self) -> (r: Result<Stmt, ParseError>)
        requires
            pstate_ok(old(self)@),
        ensures
            (final(self)@, stmt_r(r)) == repeat_when_statement(old(self)@),
            moved_on(old(self)@, final(self)@),
        decreases old(self).tokens@.len() - old(self).current, 14u8,
    {
        proof { lemma_consume(self@, TokenType::LeftPar, "Expect '(' after 'REPEAT WHEN'."@); }
        match self.consume(TokenType::LeftPar, "Expect '(' after 'REPEAT WHEN'.") {
            Ok(_) => {},
            Err(x) => return Err(x),
        }
        let condition = match self.expression_at(12) {
            Ok(e) => e,
            Err(x) => return Err(x),
        };
        proof { lemma_consume(self@, TokenType::RightPar, "Expect ')' after condition."@); }
        match self.consume(TokenType::RightPar, "Expect ')' after condition.") {
            Ok(_) => {},
            Err(x) => return Err(x),
        }
        proof { lemma_swallow(self@); }
        self.swallow_new_lines();
        proof { lemma_consume(self@, TokenType::StartRepeat, "Expect 'START REPEAT'."@); }
        match self.consume(TokenType::StartRepeat, "Expect 'START REPEAT'.") {
            Ok(_) => {},
            Err(x) => return Err(x),
        }
        proof { lemma_swallow(self@); }
        self.swallow_new_lines();
        let body = match self.block(TokenType::EndRepeat) {
            Ok(b) => b,
            Err(x) => return Err(x),
        };
        proof { lemma_swallow(self@); }
        self.swallow_new_lines();
        Ok(Stmt::While { condition, body: Box::new(body) })
    }

    /// `FOR` has been taken.
    fn for_statement(&mut self) -> (r: Result<Stmt, ParseError>)
        requires
            pstate_ok(old(self)@),
        ensures
            (final(self)@, stmt_r(r)) == for_statement(old(self)@),
            moved_on(old(self)@, final(self)@),
        decreases old(self).tokens@.len() - old(self).current, 14u8,
    {
        proof { lemma_consume(self@, TokenType::LeftPar, "Expect '(' after 'FOR'."@); }
        match self.consume(TokenType::LeftPar, "Expect '(' after 'FOR'.") {
            Ok(_) => {},
            Err(x) => return Err(x),
        }
        let initializer = match self.expression_at(12) {
            Ok(e) => e,
            Err(x) => return Err(x),
        };
        proof { lemma_consume(self@, TokenType::Comma, "Expect ',' after initializer."@); }
        match self.consume(TokenType::Comma, "Expect ',' after initializer.") {
            Ok(_) => {},
            Err(x) => return Err(x),
        }
        self.for_condition(initializer)
    }

    fn for_condition(&mut self, initializer: Expr) -> (r: Result<Stmt, ParseError>)
        requires
            pstate_ok(old(self)@),
        ensures
            (final(self)@, stmt_r(r)) == for_condition(old(self)@, initializer@),
            moved_on(old(self)@, final(self)@),
        decreases old(self).tokens@.len() - old(self).current, 14u8,
    {
        let condition = match self.expression_at(12) {
            Ok(e) => e,
            Err(x) => return Err(x),
        };
        proof { lemma_consume(self@, TokenType::Comma, "Expect ',' after condition."@); }
        match self.consume(TokenType::Comma, "Expect ',' after condition.") {
            Ok(_) => {},
            Err(x) => return Err(x),
        }
        self.for_increment(initializer, condition)
    }

    fn for_increment(&mut self, initializer: Expr, condition: Expr) -> (r: Result<Stmt, ParseError>)
        requires
            pstate_ok(old(self)@),
        ensures
            (final(self)@, stmt_r(r)) == for_increment(old(self)@, initializer@, condition@),
            moved_on(old(self)@, final(self)@),
        decreases old(self).tokens@.len() - old(self).current, 14u8,
    {
        let increment = match self.expression_at(12) {
            Ok(e) => e,
            Err(x) => return Err(x),
        };
        proof { lemma_consume(self@, TokenType::RightPar, "Expect ')' after FOR clauses."@); }
        match self.consume(TokenType::RightPar, "Expect ')' after FOR clauses.") {
            Ok(_) => {},
            Err(x) => return Err(x),
        }
        proof { lemma_swallow(self@); }
        self.swallow_new_lines();
        proof { lemma_consume(self@, TokenType::StartFor, "Expect 'START FOR'."@); }
        match self.consume(TokenType::StartFor, "Expect 'START FOR'.") {
            Ok(_) => {},
            Err(x) => return Err(x),
        }
        proof { lemma_swallow(self@); }
        self.swallow_new_lines();
        let body = match self.block(TokenType::EndFor) {
            Ok(b) => b,
            Err(x) => return Err(x),
        };
        proof { lemma_swallow(self@); }
        self.swallow_new_lines();
        Ok(Stmt::For { initializer, condition, increment, body: Box::new(body) })
    }

    fn block_rest(&mut self, end: TokenType, acc: Vec<Stmt>) -> (r: Result<Stmt, ParseError>)
        requires
            pstate_ok(old(self)@),
        ensures
            (final(self)@, stmt_r(r)) == block_rest(old(self)@, end@, crate::stmt::stmts_view(acc@)),
            moved_on(old(self)@, final(self)@),
        decreases old(self).tokens@.len() - old(self).current, 16u8,
    {
        let mut acc = acc;
        if !self.check(end.duplicate()) && !self.at_end() {
            if self.check(TokenType::EndScript) {
                let t = self.peek();
                let m = text3("Missing '", end_text(&end), "' before END SCRIPT.");
                self.report(&t, m);
                return Err(ParseError);
            }
            let mut list = match self.statement() {
                Ok(l) => l,
                Err(x) => return Err(x),
            };
            proof { lemma_swallow(self@); }
            self.swallow_new_lines();
            let ghost a = acc@;
            let ghost b = list@;
            acc.append(&mut list);
            proof { crate::stmt::lemma_stmts_view_append(a, b); }
            self.block_rest(end, acc)
        } else {
            let m = text3("Expect ", end_text(&end), " to close block.");
            match self.consume(end.duplicate(), m.as_str()) {
                Ok(_) => {},
                Err(x) => return Err(x),
            }
            Ok(Stmt::Block { statements: acc })
        }
    }

    /// A block's statements and its closing token `end`.
    fn block(&mut self, end: TokenType) -> (r: Result<Stmt, ParseError>)
        requires
            pstate_ok(old(self)@),
        ensures
            (final(self)@, stmt_r(r)) == block(old(self)@, end@),
            moved_on(old(self)@, final(self)@),
        decreases old(self).tokens@.len() - old(self).current, 17u8,
    {
        let acc: Vec<Stmt> = Vec::new();
        assert(crate::stmt::stmts_view(acc@) =~= Seq::empty());
        self.block_rest(end, acc)
    }

    /// A declaration where they are allowed, or else a statement.
    fn declaration(&mut self) -> (r: Result<Vec<Stmt>, ParseError>)
        requires
            pstate_ok(old(self)@),
        ensures
            (final(self)@, stmts_r(r)) == declaration(old(self)@),
            moved_on(old(self)@, final(self)@),
            r is Ok && final(self)@.current == old(self)@.current
                ==> check(final(self)@, TokenType::EndScript) || at_end(final(self)@),
    {
        proof { lemma_swallow(self@); }
        self.swallow_new_lines();
        proof { lemma_advance(self@); }
        if self.check(TokenType::EndScript) || self.at_end() {
            let v: Vec<Stmt> = Vec::new();
            assert(crate::stmt::stmts_view(v@) =~= Seq::empty());
            return Ok(v);
        }
        if self.check(TokenType::Declare) {
            let t = self.peek();
            self.advance();
            if !self.allow_declarations {
                self.report(&t, string_of("Declarations must come before executable code."));
                return Err(ParseError);
            }
            return self.var_declaration();
        }
        self.allow_declarations = false;
        self.statement()
    }

    fn parse_body(&mut self, acc: Vec<Stmt>, had_error: bool) -> (r: (Vec<Stmt>, bool))
        requires
            pstate_ok(old(self)@),
        ensures
            (final(self)@, crate::stmt::stmts_view(r.0@), r.1)
                == parse_body(old(self)@, crate::stmt::stmts_view(acc@), had_error),
            moved_on(old(self)@, final(self)@),
        decreases old(self).tokens@.len() - old(self).current,
    {
        let mut acc = acc;
        if !self.check(TokenType::EndScript) && !self.at_end() {
            let ghost st = self@;
            proof { lemma_swallow(self@); }
            self.swallow_new_lines();
            let ghost s0 = self@;
            let r = self.declaration();
            let ghost s1 = self@;
            let had2 = match r {
                Ok(mut list) => {
                    let ghost a = acc@;
                    let ghost b = list@;
                    acc.append(&mut list);
                    proof { crate::stmt::lemma_stmts_view_append(a, b); }
                    had_error
                },
                Err(_) => {
                    proof { lemma_synchronize(self@); }
                    self.synchronize();
                    true
                },
            };
            assert(st.current < self@.current);
            self.parse_body(acc, had2)
        } else {
            (acc, had_error)
        }
    }

    /// Parses the whole token list as one script. The statements come back
    /// when no syntax error was found; the errors are in `errors()`. The
    /// tokens after the first `Eof` are never read, and the tokens stay as
    /// they were, so a second parse gives the same result.
    pub fn parse(&mut self) -> (r: Option<Vec<Stmt>>)
        requires
            exists|k: int| 0 <= k < old(self)@.tokens.len() && (#[trigger] old(self)@.tokens[k]).token_type
                == TokenType::<Seq<char>>::Eof,
        ensures
            final(self)@ == (PState { tokens: old(self)@.tokens, ..parse_tokens(through_first_eof(old(self)@.tokens)).0 }),
            stmts_opt(r) == parse_tokens(through_first_eof(old(self)@.tokens)).1,
    {
        let ghost toks = self@.tokens;
        let n = self.tokens.len();
        let mut k: usize = 0;
        while !self.tokens[k].token_type.same_as(&TokenType::Eof)
            invariant
                toks == self@.tokens,
                n == self.tokens@.len(),
                k < n,
                exists|j: int| k <= j < n && (#[trigger] toks[j]).token_type == TokenType::<Seq<char>>::Eof,
                first_eof_from(toks, 0) == first_eof_from(toks, k as int),
            decreases n - k,
        {
            assert(toks[k as int] == self.tokens@[k as int]@);
            proof {
                let j = choose|j: int| k <= j < n && (#[trigger] toks[j]).token_type == TokenType::<Seq<char>>::Eof;
                assert(j != k);
            }
            k = k + 1;
        }
        assert(toks[k as int] == self.tokens@[k as int]@);
        let ghost before = self.tokens@;
        let mut rest = self.tokens.split_off(k + 1);
        proof {
            assert(crate::lexer::tokens_view(self.tokens@) =~= through_first_eof(toks));
        }
        let r = self.parse_ending();
        let ghost mid = self.tokens@;
        let ghost rest_v = rest@;
        self.tokens.append(&mut rest);
        proof {
            assert(crate::lexer::tokens_view(self.tokens@) =~= crate::lexer::tokens_view(mid)
                + crate::lexer::tokens_view(rest_v));
            assert(crate::lexer::tokens_view(self.tokens@) =~= toks);
        }
        r
    }

    /// Parses a token list that ends with its first `Eof`.
    #[verifier::rlimit(40)]
    fn parse_ending(&mut self) -> (r: Option<Vec<Stmt>>)
        requires
            old(self)@.tokens.len() > 0,
            old(self)@.tokens.last().token_type == TokenType::<Seq<char>>::Eof,
        ensures
            final(self)@ == parse_tokens(old(self)@.tokens).0,
            stmts_opt(r) == parse_tokens(old(self)@.tokens).1,
            final(self)@.tokens == old(self)@.tokens,
    {
        self.current = 0;
        self.allow_declarations = true;
        self.variable_types = Vec::new();
        self.errors = Vec::new();
        assert(types_view(self.variable_types@) =~= Seq::empty());
        assert(errors_view(self.errors@) =~= Seq::empty());
        proof { lemma_swallow(self@); }
        self.swallow_new_lines();
        if self.at_end() {
            let v: Vec<Stmt> = Vec::new();
            assert(crate::stmt::stmts_view(v@) =~= Seq::empty());
            return Some(v);
        }
        let mut had_error = false;
        proof { lemma_consume(self@, TokenType::ScriptArea, "Expect 'SCRIPT AREA' at the beginning of the script."@); }
        if self.consume(TokenType::ScriptArea, "Expect 'SCRIPT AREA' at the beginning of the script.").is_err() {
            had_error = true;
            proof { lemma_synchronize(self@); }
            self.synchronize();
        }
        proof { lemma_swallow(self@); }
        self.swallow_new_lines();
        proof { lemma_consume(self@, TokenType::StartScript, "Expect 'START SCRIPT' after 'SCRIPT AREA'."@); }
        if self.consume(TokenType::StartScript, "Expect 'START SCRIPT' after 'SCRIPT AREA'.").is_err() {
            had_error = true;
            proof { lemma_synchronize(self@); }
            self.synchronize();
        }
        proof { lemma_consume(self@, TokenType::NewLine, "Expect newline after 'START SCRIPT'."@); }
        if self.consume(TokenType::NewLine, "Expect newline after 'START SCRIPT'.").is_err() {
            had_error = true;
            proof { lemma_synchronize(self@); }
            self.synchronize();
        }
        let acc: Vec<Stmt> = Vec::new();
        assert(crate::stmt::stmts_view(acc@) =~= Seq::empty());
        let (statements, had_body_error) = self.parse_body(acc, had_error);
        had_error = had_body_error;
        proof { lemma_consume(self@, TokenType::EndScript, "Expect 'END SCRIPT' at the end of the script."@); }
        if self.consume(TokenType::EndScript, "Expect 'END SCRIPT' at the end of the script.").is_err() {
            had_error = true;
            proof { lemma_synchronize(self@); }
            self.synchronize();
        }
        proof { lemma_swallow(self@); }
        self.swallow_new_lines();
        if !self.at_end() {
            had_error = true;
            let t = self.peek();
            self.report(
                &t,
                string_of("Unexpected code found after 'END SCRIPT'. Only one script block is allowed."),
            );
        }
        if had_error {
            None
        } else {
            Some(statements)
        }
    }
}

} // verus!
