//! Properties of the LEXOR grammar, proved over the spec functions of the
//! parser: what a script that parses looks like, and when the parser reports
//! errors.

use vstd::prelude::*;

use crate::parser::{
    ExprV, KindV, PState, TokenV, advance, at_end, block, block_rest, check, check_any, combine, consume,
    consume_any_type, consume_identifier, declaration, declared_type_name, end_name, ends_statement,
    expression_statement, for_condition, for_increment, for_statement, if_else, if_statement,
    is_binary_level, is_sync_point, is_type_kind, lemma_advance, lemma_consume, lemma_contains1,
    lemma_contains2, lemma_contains3, lemma_contains4, lemma_report, lemma_swallow, lemma_synchronize,
    level_ops, moved_on, parse_body, parse_expr, parse_rest, parse_tokens, peek, print_statement, pstate_ok,
    rank_block, rank_block_rest, rank_inner, rank_statement, rem, repeat_when_statement, reserved_message,
    scan_statement, scan_vars, statement, swallow, sync_rest, synchronize, type_of, var_declaration,
    var_rest,
};
use crate::stmt::{expr_wf, is_binary_operator, lemma_stmts_wf_append, lemma_stmts_wf_push, stmt_wf, stmts_wf, StmtView};
use crate::expr::{Expr, LiteralValue};
use crate::token::{Token, TokenType};

verus! {

proof fn lemma_expr_allow(st: PState, lvl: int)
    ensures
        parse_expr(st, lvl).0.allow == st.allow,
    decreases rem(st), lvl,
{
    if !pstate_ok(st) || lvl < 1 || lvl > 12 {
    } else if lvl == 12 {
        lemma_expr_allow(st, 11);
        let (s1, r) = parse_expr(st, 11);
        if r is Ok && moved_on(st, s1) && check(s1, TokenType::Equal) {
            lemma_advance(s1);
            lemma_expr_allow(advance(s1), 12);
        }
    } else if is_binary_level(lvl) {
        lemma_expr_allow(st, lvl - 1);
        let (s1, r) = parse_expr(st, lvl - 1);
        if r is Ok && moved_on(st, s1) {
            lemma_rest_allow(s1, lvl, r->Ok_0);
        }
    } else if lvl == 8 {
        lemma_advance(st);
        if check(st, TokenType::Not) {
            lemma_expr_allow(advance(st), 8);
        } else {
            lemma_expr_allow(st, 7);
        }
    } else if lvl == 3 {
        lemma_advance(st);
        if check_any(st, seq![TokenType::Minus, TokenType::Plus]) {
            lemma_expr_allow(advance(st), 3);
        } else {
            lemma_expr_allow(st, 2);
        }
    } else if lvl == 2 {
        lemma_expr_allow(st, 1);
    } else {
        lemma_advance(st);
        if peek(st).token_type is LeftPar {
            lemma_expr_allow(advance(st), 12);
        }
    }
}

proof fn lemma_rest_allow(st: PState, lvl: int, left: ExprV)
    ensures
        parse_rest(st, lvl, left).0.allow == st.allow,
    decreases rem(st), 0int,
{
    if pstate_ok(st) && 1 <= lvl - 1 && check_any(st, level_ops(lvl)) {
        let op = peek(st);
        let s1 = advance(st);
        lemma_advance(st);
        lemma_expr_allow(s1, lvl - 1);
        let (s2, r) = parse_expr(s1, lvl - 1);
        if r is Ok && moved_on(s1, s2) {
            lemma_rest_allow(s2, lvl, combine(lvl, left, op, r->Ok_0));
        }
    }
}

proof fn lemma_expression_statement_allow(st: PState)
    ensures
        expression_statement(st).0.allow == st.allow,
{
    if pstate_ok(st) {
        lemma_expr_allow(st, 12);
        let (s1, r) = parse_expr(st, 12);
        if r is Ok && moved_on(st, s1) && ends_statement(s1) {
            lemma_swallow(s1);
        }
    }
}

proof fn lemma_print_allow(st: PState)
    ensures
        print_statement(st).0.allow == st.allow,
{
    if pstate_ok(st) {
        let (s1, c) = consume(st, TokenType::Colon, "Expect ':' after 'PRINT'."@);
        lemma_consume(st, TokenType::Colon, "Expect ':' after 'PRINT'."@);
        if c is Ok {
            lemma_expr_allow(s1, 12);
            let (s2, r) = parse_expr(s1, 12);
            if r is Ok {
                if pstate_ok(s2) {
                    lemma_swallow(s2);
                }
            }
        }
    }
}

proof fn lemma_scan_vars_allow(st: PState, vars: Seq<TokenV>, types: Seq<Seq<char>>)
    ensures
        scan_vars(st, vars, types).0.allow == st.allow,
    decreases rem(st),
{
    if pstate_ok(st) {
        let (s1, r) = consume_identifier(st, "Expect variable name for SCAN."@);
        lemma_advance(st);
        if let Ok(tok) = r {
            if let Some(k) = type_of(s1.types, tok.lexeme) {
                lemma_advance(s1);
                if check(s1, TokenType::Comma) {
                    lemma_scan_vars_allow(advance(s1), vars.push(tok), types.push(declared_type_name(k)));
                }
            }
        }
    }
}

proof fn lemma_scan_allow(st: PState)
    ensures
        scan_statement(st).0.allow == st.allow,
{
    let (s1, c) = consume(st, TokenType::Colon, "Expect ':' after 'SCAN'."@);
    if c is Ok {
        lemma_scan_vars_allow(s1, Seq::empty(), Seq::empty());
    }
}

proof fn lemma_var_rest_allow(st: PState, ty: TokenV, decls: Seq<StmtView>)
    ensures
        var_rest(st, ty, decls).0.allow == st.allow,
    decreases rem(st),
{
    if pstate_ok(st) && is_type_kind(ty.token_type) {
        let (s1, r) = consume_identifier(st, "Expect variable name."@);
        lemma_advance(st);
        if let Ok(name) = r {
            if type_of(s1.types, name.lexeme) is None {
                let s2 = PState { types: s1.types.push((name.lexeme, ty.token_type)), ..s1 };
                lemma_advance(s2);
                if check(s2, TokenType::Equal) {
                    let s3 = advance(s2);
                    if !check(s3, TokenType::NewLine) {
                        lemma_expr_allow(s3, 12);
                        let (s4, v) = parse_expr(s3, 12);
                        if let Ok(init) = v {
                            if moved_on(s3, s4) && check(s4, TokenType::Comma) {
                                lemma_advance(s4);
                                lemma_var_rest_allow(
                                    advance(s4),
                                    ty,
                                    decls.push(StmtView::Var { data_type: ty, name, initializer: Some(init) }),
                                );
                            }
                        }
                    }
                } else if check(s2, TokenType::Comma) {
                    lemma_var_rest_allow(
                        advance(s2),
                        ty,
                        decls.push(StmtView::Var { data_type: ty, name, initializer: None }),
                    );
                }
            }
        }
    }
}

proof fn lemma_var_declaration_allow(st: PState)
    ensures
        var_declaration(st).0.allow == st.allow,
{
    if pstate_ok(st) {
        let (s1, r) = consume_any_type(st, "Expect data type after 'DECLARE'."@);
        lemma_advance(st);
        if let Ok(ty) = r {
            if !check(s1, TokenType::NewLine) && peek(s1).token_type is Identifier {
                lemma_var_rest_allow(s1, ty, Seq::empty());
                let (s2, d) = var_rest(s1, ty, Seq::empty());
                if d is Ok && pstate_ok(s2) {
                    lemma_swallow(s2);
                }
            }
        }
    }
}

proof fn lemma_statement_allow(st: PState)
    ensures
        statement(st).0.allow == st.allow,
    decreases rem(st), rank_statement(),
{
    if pstate_ok(st) {
        let s0 = swallow(st);
        lemma_swallow(st);
        lemma_advance(s0);
        if !check_any(
            s0,
            seq![TokenType::EndIf, TokenType::Else, TokenType::ElseIf, TokenType::EndFor, TokenType::EndRepeat, TokenType::EndScript],
        ) && !check(s0, TokenType::NewLine) {
            let s1 = advance(s0);
            if check(s0, TokenType::Print) {
                lemma_print_allow(s1);
            } else if check(s0, TokenType::Scan) {
                lemma_scan_allow(s1);
            } else if check(s0, TokenType::If) {
                lemma_if_allow(s1);
            } else if check(s0, TokenType::RepeatWhen) {
                lemma_repeat_allow(s1);
            } else if check(s0, TokenType::For) {
                lemma_for_allow(s1);
            } else {
                lemma_expression_statement_allow(s0);
            }
            let (s2, r) = if check(s0, TokenType::Print) {
                print_statement(s1)
            } else if check(s0, TokenType::Scan) {
                scan_statement(s1)
            } else if check(s0, TokenType::If) {
                if_statement(s1)
            } else if check(s0, TokenType::RepeatWhen) {
                repeat_when_statement(s1)
            } else if check(s0, TokenType::For) {
                for_statement(s1)
            } else {
                expression_statement(s0)
            };
            if r is Ok && pstate_ok(s2) {
                lemma_swallow(s2);
            }
        }
    }
}

proof fn lemma_if_allow(st: PState)
    ensures
        if_statement(st).0.allow == st.allow,
    decreases rem(st), rank_inner(),
{
    if pstate_ok(st) {
        let (s1, c1) = consume(st, TokenType::LeftPar, "Expect '(' after 'IF'."@);
        lemma_consume(st, TokenType::LeftPar, "Expect '(' after 'IF'."@);
        lemma_expr_allow(s1, 12);
        let (s2, cr) = parse_expr(s1, 12);
        if c1 is Ok && cr is Ok && moved_on(s1, s2) {
            let (s3, c3) = consume(s2, TokenType::RightPar, "Expect ')' after IF condition."@);
            lemma_consume(s2, TokenType::RightPar, "Expect ')' after IF condition."@);
            lemma_swallow(s3);
            let s4 = swallow(s3);
            let (s5, c5) = consume(s4, TokenType::StartIf, "Expect 'START IF' to begin block."@);
            lemma_consume(s4, TokenType::StartIf, "Expect 'START IF' to begin block."@);
            lemma_swallow(s5);
            let s6 = swallow(s5);
            if c3 is Ok && c5 is Ok {
                lemma_block_allow(s6, TokenType::EndIf);
                let (s7, tb) = block(s6, TokenType::EndIf);
                if tb is Ok && moved_on(s6, s7) {
                    lemma_swallow(s7);
                    lemma_if_else_allow(swallow(s7), cr->Ok_0, tb->Ok_0);
                }
            }
        }
    }
}

proof fn lemma_if_else_allow(st: PState, condition: ExprV, then_branch: StmtView)
    ensures
        if_else(st, condition, then_branch).0.allow == st.allow,
    decreases rem(st), rank_inner(),
{
    if pstate_ok(st) {
        lemma_advance(st);
        if check(st, TokenType::ElseIf) {
            lemma_if_allow(advance(st));
        } else if check(st, TokenType::Else) {
            lemma_swallow(advance(st));
            let s9 = swallow(advance(st));
            let (s10, c10) = consume(s9, TokenType::StartIf, "Expect 'START IF' after 'ELSE'."@);
            lemma_consume(s9, TokenType::StartIf, "Expect 'START IF' after 'ELSE'."@);
            lemma_swallow(s10);
            let s11 = swallow(s10);
            if c10 is Ok {
                lemma_block_allow(s11, TokenType::EndIf);
                let (s12, eb) = block(s11, TokenType::EndIf);
                if eb is Ok && pstate_ok(s12) {
                    lemma_swallow(s12);
                }
            }
        }
    }
}

proof fn lemma_repeat_allow(st: PState)
    ensures
        repeat_when_statement(st).0.allow == st.allow,
    decreases rem(st), rank_inner(),
{
    if pstate_ok(st) {
        let (s1, c1) = consume(st, TokenType::LeftPar, "Expect '(' after 'REPEAT WHEN'."@);
        lemma_consume(st, TokenType::LeftPar, "Expect '(' after 'REPEAT WHEN'."@);
        lemma_expr_allow(s1, 12);
        let (s2, cr) = parse_expr(s1, 12);
        if c1 is Ok && cr is Ok && moved_on(s1, s2) {
            let (s3, c3) = consume(s2, TokenType::RightPar, "Expect ')' after condition."@);
            lemma_consume(s2, TokenType::RightPar, "Expect ')' after condition."@);
            lemma_swallow(s3);
            let s4 = swallow(s3);
            let (s5, c5) = consume(s4, TokenType::StartRepeat, "Expect 'START REPEAT'."@);
            lemma_consume(s4, TokenType::StartRepeat, "Expect 'START REPEAT'."@);
            lemma_swallow(s5);
            let s6 = swallow(s5);
            if c3 is Ok && c5 is Ok {
                lemma_block_allow(s6, TokenType::EndRepeat);
                let (s7, b) = block(s6, TokenType::EndRepeat);
                if b is Ok && pstate_ok(s7) {
                    lemma_swallow(s7);
                }
            }
        }
    }
}

proof fn lemma_for_allow(st: PState)
    ensures
        for_statement(st).0.allow == st.allow,
    decreases rem(st), rank_inner(),
{
    if pstate_ok(st) {
        let (s1, c1) = consume(st, TokenType::LeftPar, "Expect '(' after 'FOR'."@);
        lemma_consume(st, TokenType::LeftPar, "Expect '(' after 'FOR'."@);
        lemma_expr_allow(s1, 12);
        let (s2, ir) = parse_expr(s1, 12);
        if c1 is Ok && ir is Ok && moved_on(s1, s2) {
            let (s3, c3) = consume(s2, TokenType::Comma, "Expect ',' after initializer."@);
            lemma_consume(s2, TokenType::Comma, "Expect ',' after initializer."@);
            if c3 is Ok {
                lemma_for_condition_allow(s3, ir->Ok_0);
            }
        }
    }
}

proof fn lemma_for_condition_allow(st: PState, initializer: ExprV)
    ensures
        for_condition(st, initializer).0.allow == st.allow,
    decreases rem(st), rank_inner(),
{
    if pstate_ok(st) {
        lemma_expr_allow(st, 12);
        let (s4, cr) = parse_expr(st, 12);
        if cr is Ok && moved_on(st, s4) {
            let (s5, c5) = consume(s4, TokenType::Comma, "Expect ',' after condition."@);
            lemma_consume(s4, TokenType::Comma, "Expect ',' after condition."@);
            if c5 is Ok {
                lemma_for_increment_allow(s5, initializer, cr->Ok_0);
            }
        }
    }
}

proof fn lemma_for_increment_allow(st: PState, initializer: ExprV, condition: ExprV)
    ensures
        for_increment(st, initializer, condition).0.allow == st.allow,
    decreases rem(st), rank_inner(),
{
    if pstate_ok(st) {
        lemma_expr_allow(st, 12);
        let (s6, incr) = parse_expr(st, 12);
        if incr is Ok && moved_on(st, s6) {
            let (s7, c7) = consume(s6, TokenType::RightPar, "Expect ')' after FOR clauses."@);
            lemma_consume(s6, TokenType::RightPar, "Expect ')' after FOR clauses."@);
            lemma_swallow(s7);
            let s8 = swallow(s7);
            let (s9, c9) = consume(s8, TokenType::StartFor, "Expect 'START FOR'."@);
            lemma_consume(s8, TokenType::StartFor, "Expect 'START FOR'."@);
            lemma_swallow(s9);
            let s10 = swallow(s9);
            if c7 is Ok && c9 is Ok {
                lemma_block_allow(s10, TokenType::EndFor);
                let (s11, b) = block(s10, TokenType::EndFor);
                if b is Ok && pstate_ok(s11) {
                    lemma_swallow(s11);
                }
            }
        }
    }
}

proof fn lemma_block_rest_allow(st: PState, end: KindV, acc: Seq<StmtView>)
    ensures
        block_rest(st, end, acc).0.allow == st.allow,
    decreases rem(st), rank_block_rest(),
{
    if pstate_ok(st) && !check(st, end) && !at_end(st) && !check(st, TokenType::EndScript) {
        lemma_statement_allow(st);
        let (s1, r) = statement(st);
        if r is Ok && moved_on(st, s1) && st.current < s1.current {
            lemma_swallow(s1);
            lemma_block_rest_allow(swallow(s1), end, acc + r->Ok_0);
        }
    }
}

proof fn lemma_block_allow(st: PState, end: KindV)
    ensures
        block(st, end).0.allow == st.allow,
    decreases rem(st), rank_block(),
{
    lemma_block_rest_allow(st, end, Seq::empty());
}

/// No statement before a declaration: the declarations of a script come
/// first.
pub open spec fn declarations_first(s: Seq<StmtView>) -> bool {
    forall|i: int, j: int| 0 <= i < j < s.len() && (#[trigger] s[j]) is Var ==> (#[trigger] s[i]) is Var
}

pub open spec fn all_declarations(s: Seq<StmtView>) -> bool {
    forall|i: int| 0 <= i < s.len() ==> (#[trigger] s[i]) is Var
}

pub open spec fn no_declarations(s: Seq<StmtView>) -> bool {
    forall|i: int| 0 <= i < s.len() ==> !((#[trigger] s[i]) is Var)
}

proof fn lemma_var_rest_declarations(st: PState, ty: TokenV, decls: Seq<StmtView>)
    requires
        all_declarations(decls),
    ensures
        var_rest(st, ty, decls).1 matches Ok(d) ==> all_declarations(d),
    decreases rem(st),
{
    if pstate_ok(st) && is_type_kind(ty.token_type) {
        let (s1, r) = consume_identifier(st, "Expect variable name."@);
        lemma_advance(st);
        if let Ok(name) = r {
            if type_of(s1.types, name.lexeme) is None {
                let s2 = PState { types: s1.types.push((name.lexeme, ty.token_type)), ..s1 };
                lemma_advance(s2);
                if check(s2, TokenType::Equal) {
                    let s3 = advance(s2);
                    if !check(s3, TokenType::NewLine) {
                        let (s4, v) = parse_expr(s3, 12);
                        if let Ok(init) = v {
                            let d2 = decls.push(StmtView::Var { data_type: ty, name, initializer: Some(init) });
                            assert(all_declarations(d2));
                            if moved_on(s3, s4) && check(s4, TokenType::Comma) {
                                lemma_advance(s4);
                                lemma_var_rest_declarations(advance(s4), ty, d2);
                            }
                        }
                    }
                } else {
                    let d2 = decls.push(StmtView::Var { data_type: ty, name, initializer: None });
                    assert(all_declarations(d2));
                    if check(s2, TokenType::Comma) {
                        lemma_var_rest_declarations(advance(s2), ty, d2);
                    }
                }
            }
        }
    }
}

proof fn lemma_scan_vars_kind(st: PState, vars: Seq<TokenV>, types: Seq<Seq<char>>)
    ensures
        scan_vars(st, vars, types).1 matches Ok(s) ==> s is Scan,
    decreases rem(st),
{
    if pstate_ok(st) {
        let (s1, r) = consume_identifier(st, "Expect variable name for SCAN."@);
        lemma_advance(st);
        if let Ok(tok) = r {
            if let Some(k) = type_of(s1.types, tok.lexeme) {
                lemma_advance(s1);
                if check(s1, TokenType::Comma) {
                    lemma_scan_vars_kind(advance(s1), vars.push(tok), types.push(declared_type_name(k)));
                }
            }
        }
    }
}

proof fn lemma_statement_no_declarations(st: PState)
    ensures
        statement(st).1 matches Ok(list) ==> no_declarations(list),
{
    if pstate_ok(st) {
        let s0 = swallow(st);
        lemma_swallow(st);
        lemma_advance(s0);
        let s1 = advance(s0);
        if check(s0, TokenType::Scan) {
            let (a, c) = consume(s1, TokenType::Colon, "Expect ':' after 'SCAN'."@);
            if c is Ok {
                lemma_scan_vars_kind(a, Seq::empty(), Seq::empty());
            }
        }
        if check(s0, TokenType::If) {
            let (s7, tb) = block(swallow(consume(swallow(consume(parse_expr(consume(s1, TokenType::LeftPar, "Expect '(' after 'IF'."@).0, 12).0, TokenType::RightPar, "Expect ')' after IF condition."@).0), TokenType::StartIf, "Expect 'START IF' to begin block."@).0), TokenType::EndIf);
            let r = if_statement(s1);
            assert(r.1 matches Ok(x) ==> x is If);
        }
        if check(s0, TokenType::For) {
            let r = for_statement(s1);
            assert(r.1 matches Ok(x) ==> x is For) by {
                if pstate_ok(s1) {
                    let (a, c1) = consume(s1, TokenType::LeftPar, "Expect '(' after 'FOR'."@);
                    let (b, ir) = parse_expr(a, 12);
                    let (c, c3) = consume(b, TokenType::Comma, "Expect ',' after initializer."@);
                    if c1 is Ok && ir is Ok && moved_on(a, b) && c3 is Ok {
                        let fc = for_condition(c, ir->Ok_0);
                        if pstate_ok(c) {
                            let (d, cr) = parse_expr(c, 12);
                            let (e, c5) = consume(d, TokenType::Comma, "Expect ',' after condition."@);
                            if cr is Ok && moved_on(c, d) && c5 is Ok {
                                let fi = for_increment(e, ir->Ok_0, cr->Ok_0);
                                assert(fi.1 matches Ok(x) ==> x is For);
                            }
                        }
                    }
                }
            }
        }
    }
}

proof fn lemma_sync_allow(st: PState)
    ensures
        sync_rest(st).allow == st.allow,
    decreases rem(st),
{
    if pstate_ok(st) && !at_end(st) && st.current >= 1
        && st.tokens[st.current - 1].token_type != TokenType::<Seq<char>>::NewLine
        && !is_sync_point(peek(st).token_type) {
        lemma_advance(st);
        lemma_sync_allow(advance(st));
    }
}

proof fn lemma_body_declarations_first(st: PState, acc: Seq<StmtView>, had: bool)
    requires
        declarations_first(acc),
        st.allow ==> all_declarations(acc),
    ensures
        declarations_first(parse_body(st, acc, had).1),
    decreases rem(st),
{
    if pstate_ok(st) && !check(st, TokenType::EndScript) && !at_end(st) {
        let s0 = swallow(st);
        lemma_swallow(st);
        lemma_advance(s0);
        let (s1, r) = declaration(s0);
        let (s2, acc2, had2) = match r {
            Ok(list) => (s1, acc + list, had),
            Err(_) => (synchronize(s1), acc, true),
        };
        if check(s0, TokenType::EndScript) || at_end(s0) {
            assert(acc2 =~= acc);
        } else if check(s0, TokenType::Declare) {
            let a = advance(s0);
            if a.allow {
                lemma_var_declaration_allow(a);
                if pstate_ok(a) {
                    let (b, rr) = consume_any_type(a, "Expect data type after 'DECLARE'."@);
                    lemma_advance(a);
                    if let Ok(ty) = rr {
                        if !check(b, TokenType::NewLine) && peek(b).token_type is Identifier {
                            lemma_var_rest_declarations(b, ty, Seq::empty());
                        }
                    }
                }
                if let Ok(list) = r {
                    assert(all_declarations(acc2));
                }
            }
        } else {
            let a = PState { allow: false, ..s0 };
            lemma_statement_allow(a);
            lemma_statement_no_declarations(a);
            if let Ok(list) = r {
                assert forall|i: int, j: int| 0 <= i < j < acc2.len() && (#[trigger] acc2[j]) is Var
                    implies (#[trigger] acc2[i]) is Var by {
                    if j >= acc.len() {
                        assert(acc2[j] == list[j - acc.len()]);
                    } else {
                        assert(acc2[j] == acc[j]);
                        assert(acc2[i] == acc[i]);
                    }
                }
            }
        }
        if r is Err {
            lemma_sync_allow(advance(s1));
        }
        if moved_on(st, s2) && st.current < s2.current {
            lemma_body_declarations_first(s2, acc2, had2);
        }
    }
}

/// Declarations come before executable code: in a script that parses, no
/// statement precedes a declaration.
pub proof fn law_declarations_come_first(tokens: Seq<TokenV>)
    requires
        tokens.len() > 0,
        tokens.last().token_type == TokenType::<Seq<char>>::Eof,
        parse_tokens(tokens).1 is Some,
    ensures
        declarations_first(parse_tokens(tokens).1->0),
{
    let s0 = PState { tokens, current: 0, types: Seq::empty(), allow: true, errors: Seq::empty() };
    lemma_swallow(s0);
    let s1 = swallow(s0);
    if !at_end(s1) {
        let (a, ra) = consume(s1, TokenType::ScriptArea, "Expect 'SCRIPT AREA' at the beginning of the script."@);
        lemma_consume(s1, TokenType::ScriptArea, "Expect 'SCRIPT AREA' at the beginning of the script."@);
        lemma_synchronize(a);
        let a2 = if ra is Err { synchronize(a) } else { a };
        lemma_swallow(a2);
        let b0 = swallow(a2);
        let (b, rb) = consume(b0, TokenType::StartScript, "Expect 'START SCRIPT' after 'SCRIPT AREA'."@);
        lemma_consume(b0, TokenType::StartScript, "Expect 'START SCRIPT' after 'SCRIPT AREA'."@);
        lemma_synchronize(b);
        let b2 = if rb is Err { synchronize(b) } else { b };
        let (c, rc) = consume(b2, TokenType::NewLine, "Expect newline after 'START SCRIPT'."@);
        lemma_consume(b2, TokenType::NewLine, "Expect newline after 'START SCRIPT'."@);
        lemma_synchronize(c);
        let c2 = if rc is Err { synchronize(c) } else { c };
        let h3 = ra is Err || rb is Err || rc is Err;
        assert(all_declarations(Seq::<StmtView>::empty()));
        lemma_body_declarations_first(c2, Seq::empty(), h3);
    }
}

proof fn lemma_level_op_wf(lvl: int, k: KindV)
    requires
        is_binary_level(lvl),
        level_ops(lvl).contains(k),
    ensures
        (lvl == 10 || lvl == 9) ==> (k is Or || k is And),
        !(lvl == 10 || lvl == 9) ==> is_binary_operator(k),
{
    if lvl == 11 {
        lemma_contains1(TokenType::Ampersand, k);
    } else if lvl == 10 {
        lemma_contains1(TokenType::Or, k);
    } else if lvl == 9 {
        lemma_contains1(TokenType::And, k);
    } else if lvl == 7 {
        lemma_contains2(TokenType::NotEqual, TokenType::EqualEqual, k);
    } else if lvl == 6 {
        lemma_contains4(TokenType::Greater, TokenType::GreaterEqual, TokenType::Less, TokenType::LessEqual, k);
    } else if lvl == 5 {
        lemma_contains2(TokenType::Minus, TokenType::Plus, k);
    } else {
        lemma_contains3(TokenType::Slash, TokenType::Star, TokenType::Modulo, k);
    }
}

proof fn lemma_expr_wf(st: PState, lvl: int)
    ensures
        parse_expr(st, lvl).1 matches Ok(e) ==> expr_wf(e),
    decreases rem(st), lvl,
{
    if !pstate_ok(st) || lvl < 1 || lvl > 12 {
    } else if lvl == 12 {
        lemma_expr_wf(st, 11);
        let (s1, r) = parse_expr(st, 11);
        if r is Ok && moved_on(st, s1) && check(s1, TokenType::Equal) {
            lemma_advance(s1);
            lemma_expr_wf(advance(s1), 12);
        }
    } else if is_binary_level(lvl) {
        lemma_expr_wf(st, lvl - 1);
        let (s1, r) = parse_expr(st, lvl - 1);
        if r is Ok && moved_on(st, s1) {
            lemma_rest_wf(s1, lvl, r->Ok_0);
        }
    } else if lvl == 8 {
        lemma_advance(st);
        if check(st, TokenType::Not) {
            lemma_expr_wf(advance(st), 8);
        } else {
            lemma_expr_wf(st, 7);
        }
    } else if lvl == 3 {
        lemma_advance(st);
        if check_any(st, seq![TokenType::Minus, TokenType::Plus]) {
            lemma_contains2(TokenType::Minus, TokenType::Plus, peek(st).token_type);
            lemma_expr_wf(advance(st), 3);
        } else {
            lemma_expr_wf(st, 2);
        }
    } else if lvl == 2 {
        lemma_expr_wf(st, 1);
        reveal_with_fuel(expr_wf, 3);
    } else {
        lemma_advance(st);
        if peek(st).token_type is LeftPar {
            lemma_expr_wf(advance(st), 12);
        }
    }
}

proof fn lemma_rest_wf(st: PState, lvl: int, left: ExprV)
    requires
        expr_wf(left),
        is_binary_level(lvl),
    ensures
        parse_rest(st, lvl, left).1 matches Ok(e) ==> expr_wf(e),
    decreases rem(st), 0int,
{
    if pstate_ok(st) && 1 <= lvl - 1 && check_any(st, level_ops(lvl)) {
        let op = peek(st);
        let s1 = advance(st);
        lemma_advance(st);
        lemma_level_op_wf(lvl, op.token_type);
        lemma_expr_wf(s1, lvl - 1);
        let (s2, r) = parse_expr(s1, lvl - 1);
        if r is Ok && moved_on(s1, s2) {
            lemma_rest_wf(s2, lvl, combine(lvl, left, op, r->Ok_0));
        }
    }
}

proof fn lemma_single_wf(x: StmtView)
    requires
        stmt_wf(x),
    ensures
        stmts_wf(seq![x]),
{
    assert(seq![x] =~= Seq::<StmtView>::empty().push(x));
    lemma_stmts_wf_push(Seq::empty(), x);
}

proof fn lemma_expression_statement_wf(st: PState)
    ensures
        expression_statement(st).1 matches Ok(x) ==> stmt_wf(x),
{
    lemma_expr_wf(st, 12);
}

proof fn lemma_print_wf(st: PState)
    ensures
        print_statement(st).1 matches Ok(x) ==> stmt_wf(x),
{
    let (s1, c) = consume(st, TokenType::Colon, "Expect ':' after 'PRINT'."@);
    lemma_expr_wf(s1, 12);
}

proof fn lemma_scan_vars_wf(st: PState, vars: Seq<TokenV>, types: Seq<Seq<char>>)
    requires
        vars.len() == types.len(),
    ensures
        scan_vars(st, vars, types).1 matches Ok(x) ==> stmt_wf(x),
    decreases rem(st),
{
    if pstate_ok(st) {
        let (s1, r) = consume_identifier(st, "Expect variable name for SCAN."@);
        lemma_advance(st);
        if let Ok(tok) = r {
            if let Some(k) = type_of(s1.types, tok.lexeme) {
                lemma_advance(s1);
                if check(s1, TokenType::Comma) {
                    lemma_scan_vars_wf(advance(s1), vars.push(tok), types.push(declared_type_name(k)));
                }
            }
        }
    }
}

proof fn lemma_scan_wf(st: PState)
    ensures
        scan_statement(st).1 matches Ok(x) ==> stmt_wf(x),
{
    let (s1, c) = consume(st, TokenType::Colon, "Expect ':' after 'SCAN'."@);
    lemma_scan_vars_wf(s1, Seq::empty(), Seq::empty());
}

proof fn lemma_var_rest_wf(st: PState, ty: TokenV, decls: Seq<StmtView>)
    requires
        stmts_wf(decls),
    ensures
        var_rest(st, ty, decls).1 matches Ok(d) ==> stmts_wf(d),
    decreases rem(st),
{
    if pstate_ok(st) && is_type_kind(ty.token_type) {
        let (s1, r) = consume_identifier(st, "Expect variable name."@);
        lemma_advance(st);
        if let Ok(name) = r {
            if type_of(s1.types, name.lexeme) is None {
                let s2 = PState { types: s1.types.push((name.lexeme, ty.token_type)), ..s1 };
                lemma_advance(s2);
                if check(s2, TokenType::Equal) {
                    let s3 = advance(s2);
                    if !check(s3, TokenType::NewLine) {
                        lemma_expr_wf(s3, 12);
                        let (s4, v) = parse_expr(s3, 12);
                        if let Ok(init) = v {
                            let x = StmtView::Var { data_type: ty, name, initializer: Some(init) };
                            lemma_stmts_wf_push(decls, x);
                            if moved_on(s3, s4) && check(s4, TokenType::Comma) {
                                lemma_advance(s4);
                                lemma_var_rest_wf(advance(s4), ty, decls.push(x));
                            }
                        }
                    }
                } else {
                    let x = StmtView::Var { data_type: ty, name, initializer: None };
                    lemma_stmts_wf_push(decls, x);
                    if check(s2, TokenType::Comma) {
                        lemma_var_rest_wf(advance(s2), ty, decls.push(x));
                    }
                }
            }
        }
    }
}

proof fn lemma_var_declaration_wf(st: PState)
    ensures
        var_declaration(st).1 matches Ok(d) ==> stmts_wf(d),
{
    if pstate_ok(st) {
        let (s1, r) = consume_any_type(st, "Expect data type after 'DECLARE'."@);
        if let Ok(ty) = r {
            lemma_var_rest_wf(s1, ty, Seq::empty());
        }
    }
}

proof fn lemma_statement_wf(st: PState)
    ensures
        statement(st).1 matches Ok(list) ==> stmts_wf(list),
    decreases rem(st), rank_statement(),
{
    if pstate_ok(st) {
        let s0 = swallow(st);
        lemma_swallow(st);
        lemma_advance(s0);
        if !check_any(
            s0,
            seq![TokenType::EndIf, TokenType::Else, TokenType::ElseIf, TokenType::EndFor, TokenType::EndRepeat, TokenType::EndScript],
        ) && !check(s0, TokenType::NewLine) {
            let s1 = advance(s0);
            if check(s0, TokenType::Print) {
                lemma_print_wf(s1);
            } else if check(s0, TokenType::Scan) {
                lemma_scan_wf(s1);
            } else if check(s0, TokenType::If) {
                lemma_if_wf(s1);
            } else if check(s0, TokenType::RepeatWhen) {
                lemma_repeat_wf(s1);
            } else if check(s0, TokenType::For) {
                lemma_for_wf(s1);
            } else {
                lemma_expression_statement_wf(s0);
            }
            let (s2, r) = if check(s0, TokenType::Print) {
                print_statement(s1)
            } else if check(s0, TokenType::Scan) {
                scan_statement(s1)
            } else if check(s0, TokenType::If) {
                if_statement(s1)
            } else if check(s0, TokenType::RepeatWhen) {
                repeat_when_statement(s1)
            } else if check(s0, TokenType::For) {
                for_statement(s1)
            } else {
                expression_statement(s0)
            };
            if let Ok(x) = r {
                lemma_single_wf(x);
            }
        }
    }
}

proof fn lemma_if_wf(st: PState)
    ensures
        if_statement(st).1 matches Ok(x) ==> stmt_wf(x),
    decreases rem(st), rank_inner(),
{
    if pstate_ok(st) {
        let (s1, c1) = consume(st, TokenType::LeftPar, "Expect '(' after 'IF'."@);
        lemma_consume(st, TokenType::LeftPar, "Expect '(' after 'IF'."@);
        lemma_expr_wf(s1, 12);
        let (s2, cr) = parse_expr(s1, 12);
        if c1 is Ok && cr is Ok && moved_on(s1, s2) {
            let (s3, c3) = consume(s2, TokenType::RightPar, "Expect ')' after IF condition."@);
            lemma_consume(s2, TokenType::RightPar, "Expect ')' after IF condition."@);
            lemma_swallow(s3);
            let s4 = swallow(s3);
            let (s5, c5) = consume(s4, TokenType::StartIf, "Expect 'START IF' to begin block."@);
            lemma_consume(s4, TokenType::StartIf, "Expect 'START IF' to begin block."@);
            lemma_swallow(s5);
            let s6 = swallow(s5);
            if c3 is Ok && c5 is Ok {
                lemma_block_wf(s6, TokenType::EndIf);
                let (s7, tb) = block(s6, TokenType::EndIf);
                if tb is Ok && moved_on(s6, s7) {
                    lemma_swallow(s7);
                    lemma_if_else_wf(swallow(s7), cr->Ok_0, tb->Ok_0);
                }
            }
        }
    }
}

proof fn lemma_if_else_wf(st: PState, condition: ExprV, then_branch: StmtView)
    requires
        expr_wf(condition),
        stmt_wf(then_branch),
    ensures
        if_else(st, condition, then_branch).1 matches Ok(x) ==> stmt_wf(x),
    decreases rem(st), rank_inner(),
{
    if pstate_ok(st) {
        lemma_advance(st);
        if check(st, TokenType::ElseIf) {
            lemma_if_wf(advance(st));
        } else if check(st, TokenType::Else) {
            lemma_swallow(advance(st));
            let s9 = swallow(advance(st));
            let (s10, c10) = consume(s9, TokenType::StartIf, "Expect 'START IF' after 'ELSE'."@);
            lemma_consume(s9, TokenType::StartIf, "Expect 'START IF' after 'ELSE'."@);
            lemma_swallow(s10);
            let s11 = swallow(s10);
            if c10 is Ok {
                lemma_block_wf(s11, TokenType::EndIf);
            }
        }
    }
}

proof fn lemma_repeat_wf(st: PState)
    ensures
        repeat_when_statement(st).1 matches Ok(x) ==> stmt_wf(x),
    decreases rem(st), rank_inner(),
{
    if pstate_ok(st) {
        let (s1, c1) = consume(st, TokenType::LeftPar, "Expect '(' after 'REPEAT WHEN'."@);
        lemma_consume(st, TokenType::LeftPar, "Expect '(' after 'REPEAT WHEN'."@);
        lemma_expr_wf(s1, 12);
        let (s2, cr) = parse_expr(s1, 12);
        if c1 is Ok && cr is Ok && moved_on(s1, s2) {
            let (s3, c3) = consume(s2, TokenType::RightPar, "Expect ')' after condition."@);
            lemma_consume(s2, TokenType::RightPar, "Expect ')' after condition."@);
            lemma_swallow(s3);
            let s4 = swallow(s3);
            let (s5, c5) = consume(s4, TokenType::StartRepeat, "Expect 'START REPEAT'."@);
            lemma_consume(s4, TokenType::StartRepeat, "Expect 'START REPEAT'."@);
            lemma_swallow(s5);
            let s6 = swallow(s5);
            if c3 is Ok && c5 is Ok {
                lemma_block_wf(s6, TokenType::EndRepeat);
            }
        }
    }
}

proof fn lemma_for_wf(st: PState)
    ensures
        for_statement(st).1 matches Ok(x) ==> stmt_wf(x),
    decreases rem(st), rank_inner(),
{
    if pstate_ok(st) {
        let (s1, c1) = consume(st, TokenType::LeftPar, "Expect '(' after 'FOR'."@);
        lemma_consume(st, TokenType::LeftPar, "Expect '(' after 'FOR'."@);
        lemma_expr_wf(s1, 12);
        let (s2, ir) = parse_expr(s1, 12);
        if c1 is Ok && ir is Ok && moved_on(s1, s2) {
            let (s3, c3) = consume(s2, TokenType::Comma, "Expect ',' after initializer."@);
            lemma_consume(s2, TokenType::Comma, "Expect ',' after initializer."@);
            if c3 is Ok {
                lemma_for_condition_wf(s3, ir->Ok_0);
            }
        }
    }
}

proof fn lemma_for_condition_wf(st: PState, initializer: ExprV)
    requires
        expr_wf(initializer),
    ensures
        for_condition(st, initializer).1 matches Ok(x) ==> stmt_wf(x),
    decreases rem(st), rank_inner(),
{
    if pstate_ok(st) {
        lemma_expr_wf(st, 12);
        let (s4, cr) = parse_expr(st, 12);
        if cr is Ok && moved_on(st, s4) {
            let (s5, c5) = consume(s4, TokenType::Comma, "Expect ',' after condition."@);
            lemma_consume(s4, TokenType::Comma, "Expect ',' after condition."@);
            if c5 is Ok {
                lemma_for_increment_wf(s5, initializer, cr->Ok_0);
            }
        }
    }
}

proof fn lemma_for_increment_wf(st: PState, initializer: ExprV, condition: ExprV)
    requires
        expr_wf(initializer),
        expr_wf(condition),
    ensures
        for_increment(st, initializer, condition).1 matches Ok(x) ==> stmt_wf(x),
    decreases rem(st), rank_inner(),
{
    if pstate_ok(st) {
        lemma_expr_wf(st, 12);
        let (s6, incr) = parse_expr(st, 12);
        if incr is Ok && moved_on(st, s6) {
            let (s7, c7) = consume(s6, TokenType::RightPar, "Expect ')' after FOR clauses."@);
            lemma_consume(s6, TokenType::RightPar, "Expect ')' after FOR clauses."@);
            lemma_swallow(s7);
            let s8 = swallow(s7);
            let (s9, c9) = consume(s8, TokenType::StartFor, "Expect 'START FOR'."@);
            lemma_consume(s8, TokenType::StartFor, "Expect 'START FOR'."@);
            lemma_swallow(s9);
            let s10 = swallow(s9);
            if c7 is Ok && c9 is Ok {
                lemma_block_wf(s10, TokenType::EndFor);
            }
        }
    }
}

proof fn lemma_block_rest_wf(st: PState, end: KindV, acc: Seq<StmtView>)
    requires
        stmts_wf(acc),
    ensures
        block_rest(st, end, acc).1 matches Ok(x) ==> stmt_wf(x),
    decreases rem(st), rank_block_rest(),
{
    if pstate_ok(st) && !check(st, end) && !at_end(st) && !check(st, TokenType::EndScript) {
        lemma_statement_wf(st);
        let (s1, r) = statement(st);
        if r is Ok && moved_on(st, s1) && st.current < s1.current {
            lemma_swallow(s1);
            lemma_stmts_wf_append(acc, r->Ok_0);
            lemma_block_rest_wf(swallow(s1), end, acc + r->Ok_0);
        }
    }
}

proof fn lemma_block_wf(st: PState, end: KindV)
    ensures
        block(st, end).1 matches Ok(x) ==> stmt_wf(x),
    decreases rem(st), rank_block(),
{
    lemma_block_rest_wf(st, end, Seq::empty());
}

proof fn lemma_declaration_wf(st: PState)
    ensures
        declaration(st).1 matches Ok(list) ==> stmts_wf(list),
{
    if pstate_ok(st) {
        let s0 = swallow(st);
        lemma_swallow(st);
        let a = advance(s0);
        lemma_var_declaration_wf(a);
        lemma_statement_wf(PState { allow: false, ..s0 });
    }
}

proof fn lemma_body_wf(st: PState, acc: Seq<StmtView>, had: bool)
    requires
        stmts_wf(acc),
    ensures
        stmts_wf(parse_body(st, acc, had).1),
    decreases rem(st),
{
    if pstate_ok(st) && !check(st, TokenType::EndScript) && !at_end(st) {
        let s0 = swallow(st);
        lemma_declaration_wf(s0);
        let (s1, r) = declaration(s0);
        let (s2, acc2, had2) = match r {
            Ok(list) => (s1, acc + list, had),
            Err(_) => (synchronize(s1), acc, true),
        };
        if let Ok(list) = r {
            lemma_stmts_wf_append(acc, list);
        }
        if moved_on(st, s2) && st.current < s2.current {
            lemma_body_wf(s2, acc2, had2);
        }
    }
}

/// A script that parses is well formed: every operator is one that
/// evaluation knows, every declaration names one of the four types, and
/// every SCAN has the type of each of its variables.
pub proof fn law_parsed_scripts_well_formed(tokens: Seq<TokenV>)
    ensures
        parse_tokens(tokens).1 matches Some(stmts) ==> stmts_wf(stmts),
{
    let s0 = PState { tokens, current: 0, types: Seq::empty(), allow: true, errors: Seq::empty() };
    let s1 = swallow(s0);
    if !at_end(s1) {
        let (a, ra) = consume(s1, TokenType::ScriptArea, "Expect 'SCRIPT AREA' at the beginning of the script."@);
        let a2 = if ra is Err { synchronize(a) } else { a };
        let b0 = swallow(a2);
        let (b, rb) = consume(b0, TokenType::StartScript, "Expect 'START SCRIPT' after 'SCRIPT AREA'."@);
        let b2 = if rb is Err { synchronize(b) } else { b };
        let (c, rc) = consume(b2, TokenType::NewLine, "Expect newline after 'START SCRIPT'."@);
        let c2 = if rc is Err { synchronize(c) } else { c };
        let h3 = ra is Err || rb is Err || rc is Err;
        lemma_body_wf(c2, Seq::empty(), h3);
    }
}


proof fn lemma_swallow_errors(st: PState)
    ensures
        swallow(st).errors == st.errors,
    decreases rem(st),
{
    if pstate_ok(st) && check_any(st, seq![TokenType::NewLine, TokenType::Comment]) {
        lemma_advance(st);
        lemma_swallow_errors(advance(st));
    }
}

/// What a parse that succeeds leaves of the errors: what it found.
pub open spec fn clean<T>(st: PState, out: (PState, Result<T, ()>)) -> bool {
    out.1 is Ok ==> out.0.errors == st.errors
}

proof fn lemma_expr_clean(st: PState, lvl: int)
    ensures
        clean(st, parse_expr(st, lvl)),
    decreases rem(st), lvl,
{
    if !pstate_ok(st) || lvl < 1 || lvl > 12 {
    } else if lvl == 12 {
        lemma_expr_clean(st, 11);
        let (s1, r) = parse_expr(st, 11);
        if r is Ok && moved_on(st, s1) && check(s1, TokenType::Equal) {
            lemma_advance(s1);
            lemma_expr_clean(advance(s1), 12);
        }
    } else if is_binary_level(lvl) {
        lemma_expr_clean(st, lvl - 1);
        let (s1, r) = parse_expr(st, lvl - 1);
        if r is Ok && moved_on(st, s1) {
            lemma_rest_clean(s1, lvl, r->Ok_0);
        }
    } else if lvl == 8 {
        lemma_advance(st);
        if check(st, TokenType::Not) {
            lemma_expr_clean(advance(st), 8);
        } else {
            lemma_expr_clean(st, 7);
        }
    } else if lvl == 3 {
        lemma_advance(st);
        if check_any(st, seq![TokenType::Minus, TokenType::Plus]) {
            lemma_expr_clean(advance(st), 3);
        } else {
            lemma_expr_clean(st, 2);
        }
    } else if lvl == 2 {
        lemma_expr_clean(st, 1);
    } else {
        lemma_advance(st);
        if peek(st).token_type is LeftPar {
            lemma_expr_clean(advance(st), 12);
        }
    }
}

proof fn lemma_rest_clean(st: PState, lvl: int, left: ExprV)
    ensures
        clean(st, parse_rest(st, lvl, left)),
    decreases rem(st), 0int,
{
    if pstate_ok(st) && 1 <= lvl - 1 && check_any(st, level_ops(lvl)) {
        let op = peek(st);
        let s1 = advance(st);
        lemma_advance(st);
        lemma_expr_clean(s1, lvl - 1);
        let (s2, r) = parse_expr(s1, lvl - 1);
        if r is Ok && moved_on(s1, s2) {
            lemma_rest_clean(s2, lvl, combine(lvl, left, op, r->Ok_0));
        }
    }
}

proof fn lemma_expression_statement_clean(st: PState)
    ensures
        clean(st, expression_statement(st)),
{
    lemma_expr_clean(st, 12);
    lemma_swallow_errors(parse_expr(st, 12).0);
}

proof fn lemma_print_clean(st: PState)
    ensures
        clean(st, print_statement(st)),
{
    let (s1, c) = consume(st, TokenType::Colon, "Expect ':' after 'PRINT'."@);
    lemma_expr_clean(s1, 12);
    lemma_swallow_errors(parse_expr(s1, 12).0);
}

proof fn lemma_scan_vars_clean(st: PState, vars: Seq<TokenV>, types: Seq<Seq<char>>)
    ensures
        clean(st, scan_vars(st, vars, types)),
    decreases rem(st),
{
    if pstate_ok(st) {
        let (s1, r) = consume_identifier(st, "Expect variable name for SCAN."@);
        lemma_advance(st);
        if let Ok(tok) = r {
            if let Some(k) = type_of(s1.types, tok.lexeme) {
                lemma_advance(s1);
                if check(s1, TokenType::Comma) {
                    lemma_scan_vars_clean(advance(s1), vars.push(tok), types.push(declared_type_name(k)));
                }
            }
        }
    }
}

proof fn lemma_scan_clean(st: PState)
    ensures
        clean(st, scan_statement(st)),
{
    let (s1, c) = consume(st, TokenType::Colon, "Expect ':' after 'SCAN'."@);
    lemma_scan_vars_clean(s1, Seq::empty(), Seq::empty());
}

proof fn lemma_var_rest_clean(st: PState, ty: TokenV, decls: Seq<StmtView>)
    ensures
        clean(st, var_rest(st, ty, decls)),
    decreases rem(st),
{
    if pstate_ok(st) && is_type_kind(ty.token_type) {
        let (s1, r) = consume_identifier(st, "Expect variable name."@);
        lemma_advance(st);
        if let Ok(name) = r {
            if type_of(s1.types, name.lexeme) is None {
                let s2 = PState { types: s1.types.push((name.lexeme, ty.token_type)), ..s1 };
                lemma_advance(s2);
                if check(s2, TokenType::Equal) {
                    let s3 = advance(s2);
                    if !check(s3, TokenType::NewLine) {
                        lemma_expr_clean(s3, 12);
                        let (s4, v) = parse_expr(s3, 12);
                        if let Ok(init) = v {
                            let x = StmtView::Var { data_type: ty, name, initializer: Some(init) };
                            if moved_on(s3, s4) && check(s4, TokenType::Comma) {
                                lemma_advance(s4);
                                lemma_var_rest_clean(advance(s4), ty, decls.push(x));
                            }
                        }
                    }
                } else {
                    let x = StmtView::Var { data_type: ty, name, initializer: None };
                    if check(s2, TokenType::Comma) {
                        lemma_var_rest_clean(advance(s2), ty, decls.push(x));
                    }
                }
            }
        }
    }
}

proof fn lemma_var_declaration_clean(st: PState)
    ensures
        clean(st, var_declaration(st)),
{
    if pstate_ok(st) {
        let (s1, r) = consume_any_type(st, "Expect data type after 'DECLARE'."@);
        if let Ok(ty) = r {
            lemma_var_rest_clean(s1, ty, Seq::empty());
            lemma_swallow_errors(var_rest(s1, ty, Seq::empty()).0);
        }
    }
}

proof fn lemma_statement_clean(st: PState)
    ensures
        clean(st, statement(st)),
    decreases rem(st), rank_statement(),
{
    if pstate_ok(st) {
        let s0 = swallow(st);
        lemma_swallow(st);
        lemma_advance(s0);
        if !check_any(
            s0,
            seq![TokenType::EndIf, TokenType::Else, TokenType::ElseIf, TokenType::EndFor, TokenType::EndRepeat, TokenType::EndScript],
        ) && !check(s0, TokenType::NewLine) {
            let s1 = advance(s0);
            if check(s0, TokenType::Print) {
                lemma_print_clean(s1);
            } else if check(s0, TokenType::Scan) {
                lemma_scan_clean(s1);
            } else if check(s0, TokenType::If) {
                lemma_if_clean(s1);
            } else if check(s0, TokenType::RepeatWhen) {
                lemma_repeat_clean(s1);
            } else if check(s0, TokenType::For) {
                lemma_for_clean(s1);
            } else {
                lemma_expression_statement_clean(s0);
            }
            let (s2, r) = if check(s0, TokenType::Print) {
                print_statement(s1)
            } else if check(s0, TokenType::Scan) {
                scan_statement(s1)
            } else if check(s0, TokenType::If) {
                if_statement(s1)
            } else if check(s0, TokenType::RepeatWhen) {
                repeat_when_statement(s1)
            } else if check(s0, TokenType::For) {
                for_statement(s1)
            } else {
                expression_statement(s0)
            };
            lemma_swallow_errors(s2);
        }
    }
}

proof fn lemma_if_clean(st: PState)
    ensures
        clean(st, if_statement(st)),
    decreases rem(st), rank_inner(),
{
    if pstate_ok(st) {
        let (s1, c1) = consume(st, TokenType::LeftPar, "Expect '(' after 'IF'."@);
        lemma_consume(st, TokenType::LeftPar, "Expect '(' after 'IF'."@);
        lemma_expr_clean(s1, 12);
        let (s2, cr) = parse_expr(s1, 12);
        if c1 is Ok && cr is Ok && moved_on(s1, s2) {
            let (s3, c3) = consume(s2, TokenType::RightPar, "Expect ')' after IF condition."@);
            lemma_consume(s2, TokenType::RightPar, "Expect ')' after IF condition."@);
            lemma_swallow(s3);
            let s4 = swallow(s3);
            let (s5, c5) = consume(s4, TokenType::StartIf, "Expect 'START IF' to begin block."@);
            lemma_consume(s4, TokenType::StartIf, "Expect 'START IF' to begin block."@);
            lemma_swallow(s5);
            let s6 = swallow(s5);
            if c3 is Ok && c5 is Ok {
                lemma_block_clean(s6, TokenType::EndIf);
                let (s7, tb) = block(s6, TokenType::EndIf);
                if tb is Ok && moved_on(s6, s7) {
                    lemma_swallow(s7);
                    lemma_if_else_clean(swallow(s7), cr->Ok_0, tb->Ok_0);
                }
            }
        }
    }
}

proof fn lemma_if_else_clean(st: PState, condition: ExprV, then_branch: StmtView)
    ensures
        clean(st, if_else(st, condition, then_branch)),
    decreases rem(st), rank_inner(),
{
    if pstate_ok(st) {
        lemma_advance(st);
        if check(st, TokenType::ElseIf) {
            lemma_if_clean(advance(st));
        } else if check(st, TokenType::Else) {
            lemma_swallow(advance(st));
            let s9 = swallow(advance(st));
            let (s10, c10) = consume(s9, TokenType::StartIf, "Expect 'START IF' after 'ELSE'."@);
            lemma_consume(s9, TokenType::StartIf, "Expect 'START IF' after 'ELSE'."@);
            lemma_swallow(s10);
            let s11 = swallow(s10);
            if c10 is Ok {
                lemma_block_clean(s11, TokenType::EndIf);
                lemma_swallow_errors(block(s11, TokenType::EndIf).0);
            }
        }
    }
}

proof fn lemma_repeat_clean(st: PState)
    ensures
        clean(st, repeat_when_statement(st)),
    decreases rem(st), rank_inner(),
{
    if pstate_ok(st) {
        let (s1, c1) = consume(st, TokenType::LeftPar, "Expect '(' after 'REPEAT WHEN'."@);
        lemma_consume(st, TokenType::LeftPar, "Expect '(' after 'REPEAT WHEN'."@);
        lemma_expr_clean(s1, 12);
        let (s2, cr) = parse_expr(s1, 12);
        if c1 is Ok && cr is Ok && moved_on(s1, s2) {
            let (s3, c3) = consume(s2, TokenType::RightPar, "Expect ')' after condition."@);
            lemma_consume(s2, TokenType::RightPar, "Expect ')' after condition."@);
            lemma_swallow(s3);
            let s4 = swallow(s3);
            let (s5, c5) = consume(s4, TokenType::StartRepeat, "Expect 'START REPEAT'."@);
            lemma_consume(s4, TokenType::StartRepeat, "Expect 'START REPEAT'."@);
            lemma_swallow(s5);
            let s6 = swallow(s5);
            if c3 is Ok && c5 is Ok {
                lemma_block_clean(s6, TokenType::EndRepeat);
                lemma_swallow_errors(block(s6, TokenType::EndRepeat).0);
            }
        }
    }
}

proof fn lemma_for_clean(st: PState)
    ensures
        clean(st, for_statement(st)),
    decreases rem(st), rank_inner(),
{
    if pstate_ok(st) {
        let (s1, c1) = consume(st, TokenType::LeftPar, "Expect '(' after 'FOR'."@);
        lemma_consume(st, TokenType::LeftPar, "Expect '(' after 'FOR'."@);
        lemma_expr_clean(s1, 12);
        let (s2, ir) = parse_expr(s1, 12);
        if c1 is Ok && ir is Ok && moved_on(s1, s2) {
            let (s3, c3) = consume(s2, TokenType::Comma, "Expect ',' after initializer."@);
            lemma_consume(s2, TokenType::Comma, "Expect ',' after initializer."@);
            if c3 is Ok {
                lemma_for_condition_clean(s3, ir->Ok_0);
            }
        }
    }
}

proof fn lemma_for_condition_clean(st: PState, initializer: ExprV)
    ensures
        clean(st, for_condition(st, initializer)),
    decreases rem(st), rank_inner(),
{
    if pstate_ok(st) {
        lemma_expr_clean(st, 12);
        let (s4, cr) = parse_expr(st, 12);
        if cr is Ok && moved_on(st, s4) {
            let (s5, c5) = consume(s4, TokenType::Comma, "Expect ',' after condition."@);
            lemma_consume(s4, TokenType::Comma, "Expect ',' after condition."@);
            if c5 is Ok {
                lemma_for_increment_clean(s5, initializer, cr->Ok_0);
            }
        }
    }
}

proof fn lemma_for_increment_clean(st: PState, initializer: ExprV, condition: ExprV)
    ensures
        clean(st, for_increment(st, initializer, condition)),
    decreases rem(st), rank_inner(),
{
    if pstate_ok(st) {
        lemma_expr_clean(st, 12);
        let (s6, incr) = parse_expr(st, 12);
        if incr is Ok && moved_on(st, s6) {
            let (s7, c7) = consume(s6, TokenType::RightPar, "Expect ')' after FOR clauses."@);
            lemma_consume(s6, TokenType::RightPar, "Expect ')' after FOR clauses."@);
            lemma_swallow(s7);
            let s8 = swallow(s7);
            let (s9, c9) = consume(s8, TokenType::StartFor, "Expect 'START FOR'."@);
            lemma_consume(s8, TokenType::StartFor, "Expect 'START FOR'."@);
            lemma_swallow(s9);
            let s10 = swallow(s9);
            if c7 is Ok && c9 is Ok {
                lemma_block_clean(s10, TokenType::EndFor);
                lemma_swallow_errors(block(s10, TokenType::EndFor).0);
            }
        }
    }
}

proof fn lemma_block_rest_clean(st: PState, end: KindV, acc: Seq<StmtView>)
    ensures
        clean(st, block_rest(st, end, acc)),
    decreases rem(st), rank_block_rest(),
{
    if pstate_ok(st) && !check(st, end) && !at_end(st) && !check(st, TokenType::EndScript) {
        lemma_statement_clean(st);
        let (s1, r) = statement(st);
        if r is Ok && moved_on(st, s1) && st.current < s1.current {
            lemma_swallow(s1);
            lemma_block_rest_clean(swallow(s1), end, acc + r->Ok_0);
        }
    }
}

proof fn lemma_block_clean(st: PState, end: KindV)
    ensures
        clean(st, block(st, end)),
    decreases rem(st), rank_block(),
{
    lemma_block_rest_clean(st, end, Seq::empty());
}

proof fn lemma_declaration_clean(st: PState)
    ensures
        clean(st, declaration(st)),
{
    if pstate_ok(st) {
        let s0 = swallow(st);
        lemma_swallow(st);
        lemma_var_declaration_clean(advance(s0));
        lemma_statement_clean(PState { allow: false, ..s0 });
    }
}

proof fn lemma_body_clean(st: PState, acc: Seq<StmtView>, had: bool)
    ensures
        !parse_body(st, acc, had).2 ==> parse_body(st, acc, had).0.errors == st.errors,
        had ==> parse_body(st, acc, had).2,
    decreases rem(st),
{
    if pstate_ok(st) && !check(st, TokenType::EndScript) && !at_end(st) {
        let s0 = swallow(st);
        lemma_swallow(st);
        lemma_declaration_clean(s0);
        let (s1, r) = declaration(s0);
        let (s2, acc2, had2) = match r {
            Ok(list) => (s1, acc + list, had),
            Err(_) => (synchronize(s1), acc, true),
        };
        if moved_on(st, s2) && st.current < s2.current {
            lemma_body_clean(s2, acc2, had2);
        }
    }
}

proof fn lemma_script_only_without_errors(tokens: Seq<TokenV>)
    ensures
        parse_tokens(tokens).1 is Some ==> parse_tokens(tokens).0.errors.len() == 0,
{
    let s0 = PState { tokens, current: 0, types: Seq::empty(), allow: true, errors: Seq::empty() };
    lemma_swallow_errors(s0);
    let s1 = swallow(s0);
    if !at_end(s1) {
        let (a, ra) = consume(s1, TokenType::ScriptArea, "Expect 'SCRIPT AREA' at the beginning of the script."@);
        let a2 = if ra is Err { synchronize(a) } else { a };
        lemma_swallow_errors(a2);
        let b0 = swallow(a2);
        let (b, rb) = consume(b0, TokenType::StartScript, "Expect 'START SCRIPT' after 'SCRIPT AREA'."@);
        let b2 = if rb is Err { synchronize(b) } else { b };
        let (c, rc) = consume(b2, TokenType::NewLine, "Expect newline after 'START SCRIPT'."@);
        let c2 = if rc is Err { synchronize(c) } else { c };
        let h3 = ra is Err || rb is Err || rc is Err;
        lemma_body_clean(c2, Seq::empty(), h3);
        let (d, stmts, h4) = parse_body(c2, Seq::empty(), h3);
        let (e, re) = consume(d, TokenType::EndScript, "Expect 'END SCRIPT' at the end of the script."@);
        let e2 = if re is Err { synchronize(e) } else { e };
        lemma_swallow_errors(e2);
    }
}


/// A parse from `st` ends in a state parsing can reach, keeps every error
/// reported so far, and reports one more where it fails.
pub open spec fn fails_with_report<T>(st: PState, out: (PState, Result<T, ()>)) -> bool {
    &&& moved_on(st, out.0)
    &&& st.errors.len() <= out.0.errors.len()
    &&& (out.1 is Err ==> st.errors.len() < out.0.errors.len())
}

/// A parse that succeeds takes at least one token.
pub open spec fn takes_token<T>(st: PState, out: (PState, Result<T, ()>)) -> bool {
    out.1 is Ok ==> st.current < out.0.current
}

proof fn lemma_expr_reports(st: PState, lvl: int)
    requires
        pstate_ok(st),
        1 <= lvl <= 12,
    ensures
        fails_with_report(st, parse_expr(st, lvl)),
        takes_token(st, parse_expr(st, lvl)),
    decreases rem(st), lvl,
{
    if lvl == 12 {
        lemma_expr_reports(st, 11);
        let (s1, r) = parse_expr(st, 11);
        if r is Ok && check(s1, TokenType::Equal) {
            lemma_advance(s1);
            let s2 = advance(s1);
            lemma_expr_reports(s2, 12);
            let (s3, v) = parse_expr(s2, 12);
            lemma_report(s3, peek(s1), "Invalid assignment target."@);
        }
    } else if is_binary_level(lvl) {
        lemma_expr_reports(st, lvl - 1);
        let (s1, r) = parse_expr(st, lvl - 1);
        if r is Ok {
            lemma_rest_reports(s1, lvl, r->Ok_0);
        }
    } else if lvl == 8 {
        lemma_advance(st);
        if check(st, TokenType::Not) {
            lemma_expr_reports(advance(st), 8);
        } else {
            lemma_expr_reports(st, 7);
        }
    } else if lvl == 3 {
        lemma_advance(st);
        if check_any(st, seq![TokenType::Minus, TokenType::Plus]) {
            lemma_expr_reports(advance(st), 3);
        } else {
            lemma_expr_reports(st, 2);
        }
    } else if lvl == 2 {
        lemma_expr_reports(st, 1);
        let (s1, r) = parse_expr(st, 1);
        if r is Ok {
            lemma_advance(s1);
            lemma_report(advance(s1), peek(s1), "Invalid target for increment/decrement operator."@);
        }
    } else {
        lemma_advance(st);
        let t = peek(st);
        lemma_report(st, t, "Expect expression."@);
        if t.token_type is LeftPar {
            let s1 = advance(st);
            lemma_expr_reports(s1, 12);
            let (s2, r) = parse_expr(s1, 12);
            lemma_advance(s2);
            lemma_report(s2, peek(s2), "Expect ')' after expression."@);
        }
    }
}

proof fn lemma_rest_reports(st: PState, lvl: int, left: ExprV)
    requires
        pstate_ok(st),
        is_binary_level(lvl),
    ensures
        fails_with_report(st, parse_rest(st, lvl, left)),
        parse_rest(st, lvl, left).1 is Ok ==> st.current <= parse_rest(st, lvl, left).0.current,
    decreases rem(st), 0int,
{
    if check_any(st, level_ops(lvl)) {
        let op = peek(st);
        let s1 = advance(st);
        lemma_advance(st);
        lemma_expr_reports(s1, lvl - 1);
        let (s2, r) = parse_expr(s1, lvl - 1);
        if r is Ok {
            lemma_rest_reports(s2, lvl, combine(lvl, left, op, r->Ok_0));
        }
    }
}

proof fn lemma_expression_statement_reports(st: PState)
    requires
        pstate_ok(st),
    ensures
        fails_with_report(st, expression_statement(st)),
        takes_token(st, expression_statement(st)),
{
    lemma_expr_reports(st, 12);
    let (s1, r) = parse_expr(st, 12);
    lemma_report(s1, peek(s1), "Expect new line after statement."@);
    lemma_swallow(s1);
}

proof fn lemma_print_reports(st: PState)
    requires
        pstate_ok(st),
    ensures
        fails_with_report(st, print_statement(st)),
{
    let (s1, c) = consume(st, TokenType::Colon, "Expect ':' after 'PRINT'."@);
    lemma_consume(st, TokenType::Colon, "Expect ':' after 'PRINT'."@);
    if c is Ok {
        lemma_expr_reports(s1, 12);
        lemma_swallow(parse_expr(s1, 12).0);
    }
}

proof fn lemma_scan_vars_reports(st: PState, vars: Seq<TokenV>, types: Seq<Seq<char>>)
    requires
        pstate_ok(st),
    ensures
        fails_with_report(st, scan_vars(st, vars, types)),
    decreases rem(st),
{
    let (s1, r) = consume_identifier(st, "Expect variable name for SCAN."@);
    lemma_advance(st);
    let t = peek(st);
    lemma_report(st, t, reserved_message(t.lexeme));
    lemma_report(st, t, "Expect variable name for SCAN."@ + " Got '"@ + t.lexeme + "' instead."@);
    if let Ok(tok) = r {
        lemma_report(s1, tok, "Variable '"@ + tok.lexeme + "' must be declared before SCAN."@);
        if let Some(k) = type_of(s1.types, tok.lexeme) {
            lemma_advance(s1);
            if check(s1, TokenType::Comma) {
                lemma_scan_vars_reports(advance(s1), vars.push(tok), types.push(declared_type_name(k)));
            }
        }
    }
}

proof fn lemma_scan_reports(st: PState)
    requires
        pstate_ok(st),
    ensures
        fails_with_report(st, scan_statement(st)),
{
    let (s1, c) = consume(st, TokenType::Colon, "Expect ':' after 'SCAN'."@);
    lemma_consume(st, TokenType::Colon, "Expect ':' after 'SCAN'."@);
    if c is Ok {
        lemma_scan_vars_reports(s1, Seq::empty(), Seq::empty());
    }
}

proof fn lemma_var_rest_reports(st: PState, ty: TokenV, decls: Seq<StmtView>)
    requires
        pstate_ok(st),
        is_type_kind(ty.token_type),
    ensures
        fails_with_report(st, var_rest(st, ty, decls)),
    decreases rem(st),
{
    let (s1, r) = consume_identifier(st, "Expect variable name."@);
    lemma_advance(st);
    let t = peek(st);
    lemma_report(st, t, reserved_message(t.lexeme));
    lemma_report(st, t, "Expect variable name."@ + " Got '"@ + t.lexeme + "' instead."@);
    if let Ok(name) = r {
        lemma_report(s1, name, "Variable '"@ + name.lexeme + "' is already defined."@);
        if type_of(s1.types, name.lexeme) is None {
            let s2 = PState { types: s1.types.push((name.lexeme, ty.token_type)), ..s1 };
            assert(pstate_ok(s2)) by {
                assert forall|k: int| 0 <= k < s2.types.len() implies is_type_kind(#[trigger] s2.types[k].1) by {
                    if k < s1.types.len() {
                        assert(s2.types[k] == s1.types[k]);
                    }
                }
            }
            lemma_advance(s2);
            if check(s2, TokenType::Equal) {
                let s3 = advance(s2);
                lemma_report(s3, peek(s3), "Variable '"@ + name.lexeme + "' requires an initial value after '='."@);
                if !check(s3, TokenType::NewLine) {
                    lemma_expr_reports(s3, 12);
                    let (s4, v) = parse_expr(s3, 12);
                    if let Ok(init) = v {
                        let x = StmtView::Var { data_type: ty, name, initializer: Some(init) };
                        if check(s4, TokenType::Comma) {
                            lemma_advance(s4);
                            lemma_var_rest_reports(advance(s4), ty, decls.push(x));
                        }
                    }
                }
            } else {
                let x = StmtView::Var { data_type: ty, name, initializer: None };
                if check(s2, TokenType::Comma) {
                    lemma_var_rest_reports(advance(s2), ty, decls.push(x));
                }
            }
        }
    }
}

proof fn lemma_var_declaration_reports(st: PState)
    requires
        pstate_ok(st),
    ensures
        fails_with_report(st, var_declaration(st)),
        takes_token(st, var_declaration(st)),
{
    let (s1, r) = consume_any_type(st, "Expect data type after 'DECLARE'."@);
    lemma_advance(st);
    lemma_report(st, peek(st), "Expect data type after 'DECLARE'."@);
    if let Ok(ty) = r {
        lemma_report(s1, peek(s1), "Missing variable name after '"@ + ty.lexeme + "'."@);
        lemma_report(s1, peek(s1), reserved_message(peek(s1).lexeme));
        lemma_var_rest_reports(s1, ty, Seq::empty());
        let (s2, d) = var_rest(s1, ty, Seq::empty());
        lemma_swallow(s2);
    }
}

proof fn lemma_statement_reports(st: PState)
    requires
        pstate_ok(st),
    ensures
        fails_with_report(st, statement(st)),
        takes_token(st, statement(st)),
    decreases rem(st), rank_statement(),
{
    let s0 = swallow(st);
    lemma_swallow(st);
    lemma_advance(s0);
    let t = peek(s0);
    lemma_report(s0, t, "Unexpected '"@ + t.lexeme + "' found. Missing matching START block."@);
    if !check_any(
        s0,
        seq![TokenType::EndIf, TokenType::Else, TokenType::ElseIf, TokenType::EndFor, TokenType::EndRepeat, TokenType::EndScript],
    ) && !check(s0, TokenType::NewLine) {
        let s1 = advance(s0);
        if check(s0, TokenType::Print) {
            lemma_print_reports(s1);
        } else if check(s0, TokenType::Scan) {
            lemma_scan_reports(s1);
        } else if check(s0, TokenType::If) {
            lemma_if_reports(s1);
        } else if check(s0, TokenType::RepeatWhen) {
            lemma_repeat_reports(s1);
        } else if check(s0, TokenType::For) {
            lemma_for_reports(s1);
        } else {
            lemma_expression_statement_reports(s0);
        }
        let (s2, r) = if check(s0, TokenType::Print) {
            print_statement(s1)
        } else if check(s0, TokenType::Scan) {
            scan_statement(s1)
        } else if check(s0, TokenType::If) {
            if_statement(s1)
        } else if check(s0, TokenType::RepeatWhen) {
            repeat_when_statement(s1)
        } else if check(s0, TokenType::For) {
            for_statement(s1)
        } else {
            expression_statement(s0)
        };
        lemma_swallow(s2);
    }
}

proof fn lemma_if_reports(st: PState)
    requires
        pstate_ok(st),
    ensures
        fails_with_report(st, if_statement(st)),
    decreases rem(st), rank_inner(),
{
    let (s1, c1) = consume(st, TokenType::LeftPar, "Expect '(' after 'IF'."@);
    lemma_consume(st, TokenType::LeftPar, "Expect '(' after 'IF'."@);
    lemma_expr_reports(s1, 12);
    let (s2, cr) = parse_expr(s1, 12);
    if c1 is Ok && cr is Ok {
        let (s3, c3) = consume(s2, TokenType::RightPar, "Expect ')' after IF condition."@);
        lemma_consume(s2, TokenType::RightPar, "Expect ')' after IF condition."@);
        lemma_swallow(s3);
        let s4 = swallow(s3);
        let (s5, c5) = consume(s4, TokenType::StartIf, "Expect 'START IF' to begin block."@);
        lemma_consume(s4, TokenType::StartIf, "Expect 'START IF' to begin block."@);
        lemma_swallow(s5);
        let s6 = swallow(s5);
        if c3 is Ok && c5 is Ok {
            lemma_block_reports(s6, TokenType::EndIf);
            let (s7, tb) = block(s6, TokenType::EndIf);
            if tb is Ok {
                lemma_swallow(s7);
                lemma_if_else_reports(swallow(s7), cr->Ok_0, tb->Ok_0);
            }
        }
    }
}

proof fn lemma_if_else_reports(st: PState, condition: ExprV, then_branch: StmtView)
    requires
        pstate_ok(st),
    ensures
        fails_with_report(st, if_else(st, condition, then_branch)),
    decreases rem(st), rank_inner(),
{
    lemma_advance(st);
    if check(st, TokenType::ElseIf) {
        lemma_if_reports(advance(st));
    } else if check(st, TokenType::Else) {
        lemma_swallow(advance(st));
        let s9 = swallow(advance(st));
        let (s10, c10) = consume(s9, TokenType::StartIf, "Expect 'START IF' after 'ELSE'."@);
        lemma_consume(s9, TokenType::StartIf, "Expect 'START IF' after 'ELSE'."@);
        lemma_swallow(s10);
        let s11 = swallow(s10);
        if c10 is Ok {
            lemma_block_reports(s11, TokenType::EndIf);
            lemma_swallow(block(s11, TokenType::EndIf).0);
        }
    }
}

proof fn lemma_repeat_reports(st: PState)
    requires
        pstate_ok(st),
    ensures
        fails_with_report(st, repeat_when_statement(st)),
    decreases rem(st), rank_inner(),
{
    let (s1, c1) = consume(st, TokenType::LeftPar, "Expect '(' after 'REPEAT WHEN'."@);
    lemma_consume(st, TokenType::LeftPar, "Expect '(' after 'REPEAT WHEN'."@);
    lemma_expr_reports(s1, 12);
    let (s2, cr) = parse_expr(s1, 12);
    if c1 is Ok && cr is Ok {
        let (s3, c3) = consume(s2, TokenType::RightPar, "Expect ')' after condition."@);
        lemma_consume(s2, TokenType::RightPar, "Expect ')' after condition."@);
        lemma_swallow(s3);
        let s4 = swallow(s3);
        let (s5, c5) = consume(s4, TokenType::StartRepeat, "Expect 'START REPEAT'."@);
        lemma_consume(s4, TokenType::StartRepeat, "Expect 'START REPEAT'."@);
        lemma_swallow(s5);
        let s6 = swallow(s5);
        if c3 is Ok && c5 is Ok {
            lemma_block_reports(s6, TokenType::EndRepeat);
            lemma_swallow(block(s6, TokenType::EndRepeat).0);
        }
    }
}

proof fn lemma_for_reports(st: PState)
    requires
        pstate_ok(st),
    ensures
        fails_with_report(st, for_statement(st)),
    decreases rem(st), rank_inner(),
{
    let (s1, c1) = consume(st, TokenType::LeftPar, "Expect '(' after 'FOR'."@);
    lemma_consume(st, TokenType::LeftPar, "Expect '(' after 'FOR'."@);
    lemma_expr_reports(s1, 12);
    let (s2, ir) = parse_expr(s1, 12);
    if c1 is Ok && ir is Ok {
        let (s3, c3) = consume(s2, TokenType::Comma, "Expect ',' after initializer."@);
        lemma_consume(s2, TokenType::Comma, "Expect ',' after initializer."@);
        if c3 is Ok {
            lemma_for_condition_reports(s3, ir->Ok_0);
        }
    }
}

proof fn lemma_for_condition_reports(st: PState, initializer: ExprV)
    requires
        pstate_ok(st),
    ensures
        fails_with_report(st, for_condition(st, initializer)),
    decreases rem(st), rank_inner(),
{
    lemma_expr_reports(st, 12);
    let (s4, cr) = parse_expr(st, 12);
    if cr is Ok {
        let (s5, c5) = consume(s4, TokenType::Comma, "Expect ',' after condition."@);
        lemma_consume(s4, TokenType::Comma, "Expect ',' after condition."@);
        if c5 is Ok {
            lemma_for_increment_reports(s5, initializer, cr->Ok_0);
        }
    }
}

proof fn lemma_for_increment_reports(st: PState, initializer: ExprV, condition: ExprV)
    requires
        pstate_ok(st),
    ensures
        fails_with_report(st, for_increment(st, initializer, condition)),
    decreases rem(st), rank_inner(),
{
    lemma_expr_reports(st, 12);
    let (s6, incr) = parse_expr(st, 12);
    if incr is Ok {
        let (s7, c7) = consume(s6, TokenType::RightPar, "Expect ')' after FOR clauses."@);
        lemma_consume(s6, TokenType::RightPar, "Expect ')' after FOR clauses."@);
        lemma_swallow(s7);
        let s8 = swallow(s7);
        let (s9, c9) = consume(s8, TokenType::StartFor, "Expect 'START FOR'."@);
        lemma_consume(s8, TokenType::StartFor, "Expect 'START FOR'."@);
        lemma_swallow(s9);
        let s10 = swallow(s9);
        if c7 is Ok && c9 is Ok {
            lemma_block_reports(s10, TokenType::EndFor);
            lemma_swallow(block(s10, TokenType::EndFor).0);
        }
    }
}

proof fn lemma_block_rest_reports(st: PState, end: KindV, acc: Seq<StmtView>)
    requires
        pstate_ok(st),
    ensures
        fails_with_report(st, block_rest(st, end, acc)),
    decreases rem(st), rank_block_rest(),
{
    lemma_consume(st, end, "Expect "@ + end_name(end) + " to close block."@);
    lemma_report(st, peek(st), "Missing '"@ + end_name(end) + "' before END SCRIPT."@);
    if !check(st, end) && !at_end(st) && !check(st, TokenType::EndScript) {
        lemma_statement_reports(st);
        let (s1, r) = statement(st);
        if r is Ok {
            lemma_swallow(s1);
            lemma_block_rest_reports(swallow(s1), end, acc + r->Ok_0);
        }
    }
}

proof fn lemma_block_reports(st: PState, end: KindV)
    requires
        pstate_ok(st),
    ensures
        fails_with_report(st, block(st, end)),
    decreases rem(st), rank_block(),
{
    lemma_block_rest_reports(st, end, Seq::empty());
}

proof fn lemma_declaration_reports(st: PState)
    requires
        pstate_ok(st),
    ensures
        fails_with_report(st, declaration(st)),
        declaration(st).1 is Ok ==> st.current < declaration(st).0.current
            || check(declaration(st).0, TokenType::EndScript) || at_end(declaration(st).0),
{
    let s0 = swallow(st);
    lemma_swallow(st);
    lemma_advance(s0);
    let s1 = advance(s0);
    lemma_report(s1, peek(s0), "Declarations must come before executable code."@);
    lemma_var_declaration_reports(s1);
    lemma_statement_reports(PState { allow: false, ..s0 });
}

proof fn lemma_body_reports(st: PState, acc: Seq<StmtView>, had: bool)
    requires
        pstate_ok(st),
    ensures
        moved_on(st, parse_body(st, acc, had).0),
        st.errors.len() <= parse_body(st, acc, had).0.errors.len(),
        parse_body(st, acc, had).2 ==> had || st.errors.len() < parse_body(st, acc, had).0.errors.len(),
    decreases rem(st),
{
    if !check(st, TokenType::EndScript) && !at_end(st) {
        let s0 = swallow(st);
        lemma_swallow(st);
        lemma_declaration_reports(s0);
        let (s1, r) = declaration(s0);
        if r is Err {
            lemma_synchronize(s1);
        }
        let (s2, acc2, had2) = match r {
            Ok(list) => (s1, acc + list, had),
            Err(_) => (synchronize(s1), acc, true),
        };
        assert(moved_on(st, s2) && st.current < s2.current);
        lemma_body_reports(s2, acc2, had2);
    }
}

proof fn lemma_no_script_means_errors(tokens: Seq<TokenV>)
    requires
        tokens.len() > 0,
        tokens.last().token_type == TokenType::<Seq<char>>::Eof,
    ensures
        parse_tokens(tokens).1 is None ==> parse_tokens(tokens).0.errors.len() > 0,
{
    let s0 = PState { tokens, current: 0, types: Seq::empty(), allow: true, errors: Seq::empty() };
    lemma_swallow(s0);
    let s1 = swallow(s0);
    if !at_end(s1) {
        let (a, ra) = consume(s1, TokenType::ScriptArea, "Expect 'SCRIPT AREA' at the beginning of the script."@);
        lemma_consume(s1, TokenType::ScriptArea, "Expect 'SCRIPT AREA' at the beginning of the script."@);
        lemma_synchronize(a);
        let a2 = if ra is Err { synchronize(a) } else { a };
        lemma_swallow(a2);
        let b0 = swallow(a2);
        let (b, rb) = consume(b0, TokenType::StartScript, "Expect 'START SCRIPT' after 'SCRIPT AREA'."@);
        lemma_consume(b0, TokenType::StartScript, "Expect 'START SCRIPT' after 'SCRIPT AREA'."@);
        lemma_synchronize(b);
        let b2 = if rb is Err { synchronize(b) } else { b };
        let (c, rc) = consume(b2, TokenType::NewLine, "Expect newline after 'START SCRIPT'."@);
        lemma_consume(b2, TokenType::NewLine, "Expect newline after 'START SCRIPT'."@);
        lemma_synchronize(c);
        let c2 = if rc is Err { synchronize(c) } else { c };
        let h3 = ra is Err || rb is Err || rc is Err;
        assert(h3 ==> c2.errors.len() > 0);
        lemma_body_reports(c2, Seq::empty(), h3);
        let (d, stmts, h4) = parse_body(c2, Seq::empty(), h3);
        let (e, re) = consume(d, TokenType::EndScript, "Expect 'END SCRIPT' at the end of the script."@);
        lemma_consume(d, TokenType::EndScript, "Expect 'END SCRIPT' at the end of the script."@);
        lemma_synchronize(e);
        let e2 = if re is Err { synchronize(e) } else { e };
        lemma_swallow(e2);
    }
}


/// The parser gives a script exactly where it reports no syntax error: a
/// script with errors is never run, and a script that is refused always
/// says why.
pub proof fn law_script_exactly_without_errors(tokens: Seq<TokenV>)
    requires
        tokens.len() > 0,
        tokens.last().token_type == TokenType::<Seq<char>>::Eof,
    ensures
        parse_tokens(tokens).1 is Some <==> parse_tokens(tokens).0.errors.len() == 0,
{
    lemma_script_only_without_errors(tokens);
    lemma_no_script_means_errors(tokens);
}

/// `name++` stands for `name = name + 1` and `name--` for `name = name - 1`:
/// an identifier followed by `++` or `--` parses, at the postfix level, to
/// the assignment to that identifier of its own value plus or minus the
/// INT 1, with the operator's line, and the parse goes on after the
/// operator.
pub proof fn law_increment_and_decrement(st: PState)
    requires
        pstate_ok(st),
        st.current + 1 < st.tokens.len(),
        st.tokens[st.current].token_type is Identifier,
        st.tokens[st.current + 1].token_type is PlusPlus || st.tokens[st.current + 1].token_type is MinusMinus,
    ensures
        ({
            let name = st.tokens[st.current];
            let op = st.tokens[st.current + 1];
            let arith = if op.token_type is PlusPlus {
                Token { token_type: TokenType::<Seq<char>>::Plus, lexeme: seq!['+'], line: op.line }
            } else {
                Token { token_type: TokenType::<Seq<char>>::Minus, lexeme: seq!['-'], line: op.line }
            };
            parse_expr(st, 2) == (
                PState { current: st.current + 2, ..st },
                Ok::<ExprV, ()>(
                    Expr::Assign {
                        name,
                        value: Box::new(
                            Expr::Binary {
                                left: Box::new(Expr::Variable { name }),
                                operator: arith,
                                right: Box::new(Expr::Literal { value: LiteralValue::Int(1) }),
                            },
                        ),
                    },
                ),
            )
        }),
{
    reveal_strlit("+");
    reveal_strlit("-");
    let s1 = advance(st);
    assert(parse_expr(st, 1) == (s1, Ok::<ExprV, ()>(Expr::Variable { name: st.tokens[st.current] })));
    assert(peek(s1) == st.tokens[st.current + 1]);
    lemma_contains2(TokenType::PlusPlus, TokenType::MinusMinus, peek(s1).token_type);
    assert(check_any(s1, seq![TokenType::PlusPlus, TokenType::MinusMinus]));
    assert(advance(s1) == PState { current: st.current + 2, ..st });
    assert("+"@ =~= seq!['+']);
    assert("-"@ =~= seq!['-']);
    assert(moved_on(st, s1));
}

} // verus!
