//! Properties of runs, proved over the interpreter's step machine: the
//! scopes stay tied to the statements that opened them, and a well-formed
//! program meets no internal fault.

use vstd::prelude::*;

use crate::environment::{assign_scopes, define_scopes, lookup, redefined_message, undefined_message, Scopes, ValueV};
use crate::error::RuntimeError;
use crate::expr::{Expr, LiteralValue};
use crate::interpreter::{
    after_eval, declare, default_value, enter_scope, eval_may, float_declaration_may, float_defined, float_init_outcome, halted,
    init_check, input_with, int_binary, law_evaluation_keeps_scopes, leave_scope, owns_scope, restore,
    scan_assign_with, scan_piece, start_rel, step_rel, takes, trace_ok, trace_out, with_env, EvalRes, EvalTrace,
    Event, EventV, Fault, FrameV, Halt, HaltV, MState,
};
use crate::parser::{ExprV, TokenV};
use crate::stmt::{expr_wf, is_binary_operator, lemma_stmts_wf_index, stmt_wf, stmts_wf, StmtView};
use crate::text::nat_text;
use crate::token::TokenType;
use crate::value::{FloatArith, scanned_value, split_commas, trim, truthy, value_debug_text};

verus! {

/// The number of scopes that the statements under way own.
pub open spec fn owned_scopes(frames: Seq<FrameV>) -> nat
    decreases frames.len(),
{
    if frames.len() == 0 {
        0
    } else {
        owned_scopes(frames.drop_last()) + if owns_scope(frames.last()) { 1nat } else { 0nat }
    }
}

/// Every scope but the global one belongs to a block or FOR loop under way.
pub open spec fn scopes_balanced<F: FloatArith>(m: MState<F>) -> bool {
    m.env.len() == 1 + owned_scopes(m.frames)
}

proof fn lemma_owned_push(frames: Seq<FrameV>, f: FrameV)
    ensures
        owned_scopes(frames.push(f)) == owned_scopes(frames) + if owns_scope(f) { 1nat } else { 0nat },
{
    assert(frames.push(f).drop_last() =~= frames);
}

proof fn lemma_owned_update_top(frames: Seq<FrameV>, f: FrameV)
    requires
        frames.len() > 0,
        owns_scope(f) == owns_scope(frames.last()),
    ensures
        owned_scopes(frames.update(frames.len() - 1, f)) == owned_scopes(frames),
{
    assert(frames.update(frames.len() - 1, f).drop_last() =~= frames.drop_last());
}

proof fn lemma_restore<F: FloatArith>(m: MState<F>)
    requires
        scopes_balanced(m),
    ensures
        restore(m).frames.len() == 0,
        restore(m).env.len() == 1,
    decreases m.frames.len(),
{
    if m.frames.len() > 0 {
        let m1 = MState { frames: m.frames.drop_last(), ..m };
        let m2 = if owns_scope(m.frames.last()) { leave_scope(m1) } else { m1 };
        assert(scopes_balanced(m2));
        lemma_restore(m2);
    }
}

pub open spec fn run_ended(ev: EventV) -> bool {
    ev is Finished || ev is Failed || ev is Fault
}

proof fn lemma_scan_assign_balanced<F: FloatArith>(
    m: MState<F>,
    vars: Seq<TokenV>,
    types: Seq<Seq<char>>,
    parts: Seq<Seq<char>>,
    i: int,
    chosen: Seq<ValueV<F>>,
)
    requires
        scopes_balanced(m),
    ensures
        scan_assign_with(m, vars, types, parts, i, chosen) matches Some((m2, ev)) ==> scopes_balanced(m2)
            && ((ev is Failed || ev is Fault) ==> m2.frames.len() == 0) && !(ev is Finished),
    decreases vars.len() - i,
{
    lemma_restore(m);
    if !(i >= vars.len() || i < 0 || i >= parts.len()) && i < types.len() {
        if let Ok(v) = scan_piece::<F>(trim(parts[i]), types[i], vars[i].lexeme, chosen[i]) {
            crate::environment::lemma_assign_len(m.env, vars[i].lexeme, v);
            if let Some(env2) = assign_scopes(m.env, vars[i].lexeme, v) {
                lemma_scan_assign_balanced(with_env(m, env2), vars, types, parts, i + 1, chosen);
            }
        }
    }
}

/// A run starts with only the global scope.
pub proof fn law_run_starts_balanced<F: FloatArith>(statements: Seq<StmtView>)
    ensures
        scopes_balanced(MState::<F> {
            env: seq![Map::<Seq<char>, ValueV<F>>::empty()],
            frames: seq![FrameV::Block { statements, next: 0, scoped: false }],
            pending: None,
        }),
{
    let frames = seq![FrameV::Block { statements, next: 0, scoped: false }];
    assert(frames.drop_last() =~= Seq::<FrameV>::empty());
    assert(frames.last() == FrameV::Block { statements, next: 0, scoped: false });
    assert(owned_scopes(Seq::<FrameV>::empty()) == 0);
    assert(owned_scopes(frames) == 0);
    assert(seq![Map::<Seq<char>, ValueV<F>>::empty()].len() == 1);
}

proof fn lemma_may_len<F: FloatArith>(e: ExprV, env: Scopes<F>, o: EvalRes<F>)
    requires
        eval_may(e, env, o),
    ensures
        o.0.len() == env.len(),
{
    law_evaluation_keeps_scopes(e, env, o);
}

proof fn lemma_declare_balanced<F: FloatArith>(m: MState<F>, name: TokenV, v: ValueV<F>)
    requires
        scopes_balanced(m),
    ensures
        declare(m, name, v) matches Some((m2, ev)) ==> scopes_balanced(m2) && ((ev is Failed || ev is Fault)
            ==> m2.frames.len() == 0) && !(ev is Finished),
{
    lemma_restore(m);
    if define_scopes(m.env, name.lexeme, v) is Some {
        crate::environment::law_define_keeps_outer_scopes(m.env, name.lexeme, v);
    }
}

proof fn lemma_float_declaration_balanced<F: FloatArith>(
    m: MState<F>,
    name: TokenV,
    initializer: Option<ExprV>,
    m2: MState<F>,
    ev: EventV,
)
    requires
        scopes_balanced(m),
        float_declaration_may(m, name, initializer, m2, ev),
    ensures
        scopes_balanced(m2),
        (ev is Failed || ev is Fault) ==> m2.frames.len() == 0,
        !(ev is Finished),
{
    lemma_restore(m);
    match initializer {
        None => {
            lemma_declare_balanced(m, name, m2.env[0][name.lexeme]);
        },
        Some(e) => {
            let o = choose|o: EvalRes<F>| #[trigger] eval_may(e, m.env, o) && float_init_outcome(m, name, o, m2, ev);
            lemma_may_len(e, m.env, o);
            lemma_restore(with_env(m, o.0));
            if m2.env.len() > 0 {
                lemma_declare_balanced(with_env(m, o.0), name, m2.env[0][name.lexeme]);
            }
        },
    }
}

proof fn lemma_start_rel_balanced<F: FloatArith>(m: MState<F>, s: StmtView, os: Seq<EvalRes<F>>, m2: MState<F>, ev: EventV)
    requires
        scopes_balanced(m),
        start_rel(m, s, os, m2, ev),
    ensures
        scopes_balanced(m2),
        (ev is Failed || ev is Fault) ==> m2.frames.len() == 0,
        !(ev is Finished),
    decreases s,
{
    lemma_restore(m);
    match s {
        StmtView::Block { statements } => {
            lemma_owned_push(m.frames, FrameV::Block { statements, next: 0, scoped: true });
        },
        StmtView::Expression { expression } => {
            lemma_may_len(expression, m.env, os[0]);
            lemma_restore(with_env(m, os[0].0));
        },
        StmtView::If { condition, then_branch, else_branch } => {
            lemma_may_len(condition, m.env, os[0]);
            lemma_restore(with_env(m, os[0].0));
            if let Ok(c) = os[0].1 {
                if truthy(c) {
                    lemma_start_rel_balanced(with_env(m, os[0].0), *then_branch, os.drop_first(), m2, ev);
                } else if let Some(b) = else_branch {
                    lemma_start_rel_balanced(with_env(m, os[0].0), *b, os.drop_first(), m2, ev);
                }
            }
        },
        StmtView::Print { expression } => {
            lemma_may_len(expression, m.env, os[0]);
            lemma_restore(with_env(m, os[0].0));
        },
        StmtView::Var { data_type, name, initializer } => {
            if data_type.token_type == TokenType::<Seq<char>>::FloatType {
                lemma_float_declaration_balanced(m, name, initializer, m2, ev);
            } else if let Some(d) = default_value::<F>(data_type) {
                lemma_declare_balanced(m, name, d);
                if let Some(e) = initializer {
                    lemma_may_len(e, m.env, os[0]);
                    lemma_restore(with_env(m, os[0].0));
                    if let Ok(v) = os[0].1 {
                        lemma_declare_balanced(with_env(m, os[0].0), name, v);
                    }
                }
            }
        },
        StmtView::While { condition, body } => {
            lemma_owned_push(m.frames, FrameV::Repeat { condition, body: *body });
        },
        StmtView::For { initializer, condition, increment, body } => {
            let m1 = enter_scope(m);
            lemma_may_len(initializer, m1.env, os[0]);
            lemma_owned_push(m.frames, FrameV::Loop { condition, increment, body: *body, at_increment: false });
            lemma_restore(leave_scope(with_env(m1, os[0].0)));
        },
        _ => {},
    }
}

/// Each scope belongs to the block or FOR loop that opened it: every step
/// keeps that so, whatever values the number type gives, and when a run
/// ends, normally or with an error, only the global scope is left and
/// nothing is under way.
pub proof fn law_step_keeps_scopes<F: FloatArith>(m: MState<F>, os: Seq<EvalRes<F>>, m2: MState<F>, ev: EventV)
    requires
        scopes_balanced(m),
        step_rel(m, os, m2, ev),
    ensures
        scopes_balanced(m2),
        run_ended(ev) ==> m2.frames.len() == 0 && m2.env.len() == 1,
{
    lemma_restore(m);
    if m.pending is None && m.frames.len() > 0 {
        let k = m.frames.len() - 1;
        assert(m.frames[k] == m.frames.last());
        assert(m.frames.drop_last().len() == k);
        match m.frames[k] {
            FrameV::Block { statements, next, scoped } => {
                if next < statements.len() {
                    let f = FrameV::Block { statements, next: next + 1, scoped };
                    lemma_owned_update_top(m.frames, f);
                    let m1 = MState { frames: m.frames.update(k, f), ..m };
                    lemma_start_rel_balanced(m1, statements[next], os, m2, ev);
                }
            },
            FrameV::Repeat { condition, body } => {
                lemma_may_len(condition, m.env, os[0]);
                lemma_restore(with_env(m, os[0].0));
                if let Ok(c) = os[0].1 {
                    if truthy(c) {
                        lemma_start_rel_balanced(with_env(m, os[0].0), body, os.drop_first(), m2, ev);
                    }
                }
            },
            FrameV::Loop { condition, increment, body, at_increment } => {
                let f1 = FrameV::Loop { condition, increment, body, at_increment: false };
                let f2 = FrameV::Loop { condition, increment, body, at_increment: true };
                lemma_owned_update_top(m.frames, f1);
                lemma_owned_update_top(m.frames, f2);
                if at_increment {
                    lemma_may_len(increment, m.env, os[0]);
                    lemma_restore(with_env(m, os[0].0));
                } else {
                    lemma_may_len(condition, m.env, os[0]);
                    lemma_restore(with_env(m, os[0].0));
                    if let Ok(c) = os[0].1 {
                        if truthy(c) {
                            let m1 = MState { frames: m.frames.update(k, f2), ..with_env(m, os[0].0) };
                            lemma_start_rel_balanced(m1, body, os.drop_first(), m2, ev);
                        }
                    }
                }
            },
        }
    }
}

/// A line of input keeps every scope tied to its statement too, whatever
/// the number type makes of the pieces for FLOAT variables, and where it
/// ends the run only the global scope is left.
pub proof fn law_input_keeps_scopes<F: FloatArith>(m: MState<F>, line: Seq<char>, chosen: Seq<ValueV<F>>)
    requires
        scopes_balanced(m),
    ensures
        input_with(m, line, chosen) matches Some((m2, ev)) ==> scopes_balanced(m2)
            && (run_ended(ev) ==> m2.frames.len() == 0 && m2.env.len() == 1),
{
    lemma_restore(m);
    if let Some((vars, types)) = m.pending {
        let m0 = MState { pending: None, ..m };
        lemma_restore(m0);
        lemma_scan_assign_balanced(m0, vars, types, split_commas(trim(line)), 0, chosen);
    }
}


/// The only faults left to a well-formed program: an integer division or
/// remainder that overflows.
pub open spec fn overflow_only(h: HaltV) -> bool {
    h matches Halt::Fault(f) ==> (f == Fault::DivideOverflow || f == Fault::RemainderOverflow)
}

pub open spec fn event_overflow_only(ev: EventV) -> bool {
    ev matches Event::Fault(f) ==> (f == Fault::DivideOverflow || f == Fault::RemainderOverflow)
}

pub open spec fn frame_wf(f: FrameV) -> bool {
    match f {
        FrameV::Block { statements, next, .. } => next >= 0 && stmts_wf(statements),
        FrameV::Repeat { condition, body } => expr_wf(condition) && stmt_wf(body),
        FrameV::Loop { condition, increment, body, .. } => expr_wf(condition) && expr_wf(increment)
            && stmt_wf(body),
    }
}

/// Every statement under way is well formed, and a waiting SCAN has a type
/// for each of its variables.
pub open spec fn machine_wf<F: FloatArith>(m: MState<F>) -> bool {
    &&& forall|i: int| 0 <= i < m.frames.len() ==> frame_wf(#[trigger] m.frames[i])
    &&& (m.pending matches Some((vars, types)) ==> vars.len() <= types.len())
}

proof fn lemma_int_binary_overflow_only<F: FloatArith>(op: TokenV, a: i64, b: i64)
    requires
        is_binary_operator(op.token_type),
        !(op.token_type is Ampersand || op.token_type is EqualEqual || op.token_type is NotEqual),
    ensures
        int_binary::<F>(op, a, b) matches Err(h) ==> overflow_only(h),
{
}

proof fn lemma_trace_overflow_only<F: FloatArith>(e: ExprV, env: Scopes<F>, t: EvalTrace<F>)
    requires
        expr_wf(e),
        trace_ok(e, env, t),
    ensures
        trace_out(t).1 matches Err(h) ==> overflow_only(h),
    decreases e,
{
    match e {
        Expr::Grouping { expression } => {
            if let EvalTrace::One(o, s) = t {
                lemma_trace_overflow_only(*expression, env, *s);
            }
        },
        Expr::Assign { name, value } => {
            if let EvalTrace::One(o, s) = t {
                lemma_trace_overflow_only(*value, env, *s);
            }
        },
        Expr::Logical { left, operator, right } => {
            match t {
                EvalTrace::One(o, s) => {
                    lemma_trace_overflow_only(*left, env, *s);
                },
                EvalTrace::Two(o, s1, s2) => {
                    lemma_trace_overflow_only(*left, env, *s1);
                    lemma_trace_overflow_only(*right, trace_out(*s1).0, *s2);
                },
                _ => {},
            }
        },
        Expr::Unary { operator, right } => {
            if let EvalTrace::One(o, s) = t {
                lemma_trace_overflow_only(*right, env, *s);
            }
        },
        Expr::Binary { left, operator, right } => {
            match t {
                EvalTrace::One(o, s) => {
                    lemma_trace_overflow_only(*left, env, *s);
                },
                EvalTrace::Two(o, s1, s2) => {
                    lemma_trace_overflow_only(*left, env, *s1);
                    lemma_trace_overflow_only(*right, trace_out(*s1).0, *s2);
                    if let (Ok(LiteralValue::Int(a)), Ok(LiteralValue::Int(b))) = (trace_out(*s1).1, trace_out(*s2).1) {
                        if !(operator.token_type is Ampersand || operator.token_type is EqualEqual
                            || operator.token_type is NotEqual) {
                            lemma_int_binary_overflow_only::<F>(operator, a, b);
                        }
                    }
                },
                _ => {},
            }
        },
        _ => {},
    }
}

/// Evaluating a well-formed expression meets no fault but an overflowing
/// integer division or remainder, whatever values the number type gives.
proof fn lemma_may_overflow_only<F: FloatArith>(e: ExprV, env: Scopes<F>, o: EvalRes<F>)
    requires
        expr_wf(e),
        eval_may(e, env, o),
    ensures
        o.1 matches Err(h) ==> overflow_only(h),
{
    let t = choose|t: EvalTrace<F>| #[trigger] trace_ok(e, env, t) && trace_out(t) == o;
    lemma_trace_overflow_only(e, env, t);
}

proof fn lemma_restore_empties<F: FloatArith>(m: MState<F>)
    ensures
        restore(m).frames.len() == 0,
    decreases m.frames.len(),
{
    if m.frames.len() > 0 {
        let m1 = MState { frames: m.frames.drop_last(), ..m };
        lemma_restore_empties(if owns_scope(m.frames.last()) { leave_scope(m1) } else { m1 });
    }
}

proof fn lemma_halted_wf<F: FloatArith>(m: MState<F>, h: HaltV)
    requires
        overflow_only(h),
    ensures
        machine_wf(halted(m, h).0),
        event_overflow_only(halted(m, h).1),
{
    lemma_restore_empties(m);
}

proof fn lemma_frames_push_wf<F: FloatArith>(m: MState<F>, f: FrameV)
    requires
        machine_wf(m),
        frame_wf(f),
    ensures
        forall|i: int| 0 <= i < m.frames.push(f).len() ==> frame_wf(#[trigger] m.frames.push(f)[i]),
{
    assert forall|i: int| 0 <= i < m.frames.push(f).len() implies frame_wf(#[trigger] m.frames.push(f)[i]) by {
        if i < m.frames.len() {
            assert(m.frames.push(f)[i] == m.frames[i]);
        }
    }
}

proof fn lemma_after_eval_wf<F: FloatArith>(m: MState<F>, e: ExprV, os: Seq<EvalRes<F>>, m2: MState<F>, ev: EventV)
    requires
        expr_wf(e),
        takes(e, m.env, os),
        after_eval(m, os[0], m2, ev),
    ensures
        machine_wf(m2),
        event_overflow_only(ev),
{
    lemma_may_overflow_only(e, m.env, os[0]);
    if let Err(h) = os[0].1 {
        lemma_halted_wf(with_env(m, os[0].0), h);
    }
}

proof fn lemma_start_rel_wf<F: FloatArith>(m: MState<F>, s: StmtView, os: Seq<EvalRes<F>>, m2: MState<F>, ev: EventV)
    requires
        machine_wf(m),
        stmt_wf(s),
        start_rel(m, s, os, m2, ev),
    ensures
        machine_wf(m2),
        event_overflow_only(ev),
    decreases s,
{
    match s {
        StmtView::Block { statements } => {
            lemma_frames_push_wf(m, FrameV::Block { statements, next: 0, scoped: true });
        },
        StmtView::Expression { expression } => {
            if after_eval(m, os[0], m2, ev) {
                lemma_after_eval_wf(m, expression, os, m2, ev);
            }
        },
        StmtView::If { condition, then_branch, else_branch } => {
            if after_eval(m, os[0], m2, ev) {
                lemma_after_eval_wf(m, condition, os, m2, ev);
            } else if let Ok(c) = os[0].1 {
                if truthy(c) {
                    lemma_start_rel_wf(with_env(m, os[0].0), *then_branch, os.drop_first(), m2, ev);
                } else if let Some(b) = else_branch {
                    lemma_start_rel_wf(with_env(m, os[0].0), *b, os.drop_first(), m2, ev);
                }
            }
        },
        StmtView::Print { expression } => {
            if after_eval(m, os[0], m2, ev) {
                lemma_after_eval_wf(m, expression, os, m2, ev);
            }
        },
        StmtView::Var { data_type, name, initializer } => {
            let redefined = Halt::Error(RuntimeError { token: name, message: redefined_message(name.lexeme) });
            lemma_halted_wf(m, redefined);
            if data_type.token_type == TokenType::<Seq<char>>::FloatType {
                match initializer {
                    None => {},
                    Some(e) => {
                        let o = choose|o: EvalRes<F>| #[trigger] eval_may(e, m.env, o) && float_init_outcome(m, name, o, m2, ev);
                        lemma_may_overflow_only(e, m.env, o);
                        lemma_halted_wf(with_env(m, o.0), redefined);
                        match o.1 {
                            Err(h) => {
                                lemma_halted_wf(with_env(m, o.0), h);
                            },
                            Ok(v) => {
                                if let Some(t) = value_debug_text(v) {
                                    lemma_halted_wf(
                                        with_env(m, o.0),
                                        Halt::Error(RuntimeError { token: name, message: "type mismatch cannot initialize FLOAT with "@ + t }),
                                    );
                                }
                            },
                        }
                    },
                }
            } else if let Some(d) = default_value::<F>(data_type) {
                if let Some(e) = initializer {
                    if after_eval(m, os[0], m2, ev) {
                        lemma_after_eval_wf(m, e, os, m2, ev);
                    } else if let Ok(v) = os[0].1 {
                        let m1 = with_env(m, os[0].0);
                        lemma_halted_wf(m1, redefined);
                        match init_check(d, v) {
                            Some(Err(msg)) => {
                                lemma_halted_wf(m1, Halt::Error(RuntimeError { token: name, message: msg }));
                            },
                            None => {
                                lemma_halted_wf(
                                    m1,
                                    Halt::Error(RuntimeError { token: name, message: "type mismatch cannot initialize INT with "@ }),
                                );
                            },
                            _ => {},
                        }
                    }
                }
            }
        },
        StmtView::While { condition, body } => {
            lemma_frames_push_wf(m, FrameV::Repeat { condition, body: *body });
        },
        StmtView::For { initializer, condition, increment, body } => {
            let m1 = enter_scope(m);
            lemma_may_overflow_only(initializer, m1.env, os[0]);
            lemma_frames_push_wf(m1, FrameV::Loop { condition, increment, body: *body, at_increment: false });
            if let Err(h) = os[0].1 {
                lemma_halted_wf(leave_scope(with_env(m1, os[0].0)), h);
            }
        },
        _ => {},
    }
}

proof fn lemma_scan_assign_wf<F: FloatArith>(
    m: MState<F>,
    vars: Seq<TokenV>,
    types: Seq<Seq<char>>,
    parts: Seq<Seq<char>>,
    i: int,
    chosen: Seq<ValueV<F>>,
)
    requires
        machine_wf(m),
        vars.len() <= types.len(),
    ensures
        scan_assign_with(m, vars, types, parts, i, chosen) matches Some((m2, ev)) ==> machine_wf(m2)
            && event_overflow_only(ev),
    decreases vars.len() - i,
{
    if !(i >= vars.len() || i < 0 || i >= parts.len()) {
        match scan_piece::<F>(trim(parts[i]), types[i], vars[i].lexeme, chosen[i]) {
            Err(msg) => {
                lemma_halted_wf(m, Halt::Error(RuntimeError { token: vars[i], message: msg }));
            },
            Ok(v) => {
                lemma_halted_wf(
                    m,
                    Halt::Error(RuntimeError { token: vars[i], message: undefined_message(vars[i].lexeme) }),
                );
                if let Some(env2) = assign_scopes(m.env, vars[i].lexeme, v) {
                    lemma_scan_assign_wf(with_env(m, env2), vars, types, parts, i + 1, chosen);
                }
            },
        }
    }
}

/// A run of a well-formed program starts well formed.
pub proof fn law_run_starts_well_formed<F: FloatArith>(statements: Seq<StmtView>)
    requires
        stmts_wf(statements),
    ensures
        machine_wf(MState::<F> {
            env: seq![Map::<Seq<char>, ValueV<F>>::empty()],
            frames: seq![FrameV::Block { statements, next: 0, scoped: false }],
            pending: None,
        }),
{
    let frames = seq![FrameV::Block { statements, next: 0, scoped: false }];
    assert forall|i: int| 0 <= i < frames.len() implies frame_wf(#[trigger] frames[i]) by {
        assert(frames[i] == FrameV::Block { statements, next: 0, scoped: false });
    }
}

/// A well-formed program never reaches the cases the interpreter cannot
/// handle: whatever values the number type gives, a step keeps the run well
/// formed and meets no fault but an overflowing integer division or
/// remainder.
pub proof fn law_step_without_internal_fault<F: FloatArith>(m: MState<F>, os: Seq<EvalRes<F>>, m2: MState<F>, ev: EventV)
    requires
        machine_wf(m),
        step_rel(m, os, m2, ev),
    ensures
        machine_wf(m2),
        event_overflow_only(ev),
{
    if m.pending is None && m.frames.len() > 0 {
        let k = m.frames.len() - 1;
        assert(frame_wf(m.frames[k]));
        let dropped = m.frames.drop_last();
        assert forall|i: int| 0 <= i < dropped.len() implies frame_wf(#[trigger] dropped[i]) by {
            assert(dropped[i] == m.frames[i]);
        }
        match m.frames[k] {
            FrameV::Block { statements, next, scoped } => {
                if next < statements.len() {
                    lemma_stmts_wf_index(statements, next);
                    let f = FrameV::Block { statements, next: next + 1, scoped };
                    let m1 = MState { frames: m.frames.update(k, f), ..m };
                    assert forall|i: int| 0 <= i < m1.frames.len() implies frame_wf(#[trigger] m1.frames[i]) by {
                        if i != k {
                            assert(m1.frames[i] == m.frames[i]);
                        }
                    }
                    lemma_start_rel_wf(m1, statements[next], os, m2, ev);
                }
            },
            FrameV::Repeat { condition, body } => {
                if after_eval(m, os[0], m2, ev) {
                    lemma_after_eval_wf(m, condition, os, m2, ev);
                } else if let Ok(c) = os[0].1 {
                    if truthy(c) {
                        lemma_start_rel_wf(with_env(m, os[0].0), body, os.drop_first(), m2, ev);
                    }
                }
            },
            FrameV::Loop { condition, increment, body, at_increment } => {
                let f1 = FrameV::Loop { condition, increment, body, at_increment: false };
                let f2 = FrameV::Loop { condition, increment, body, at_increment: true };
                let u1 = m.frames.update(k, f1);
                let u2 = m.frames.update(k, f2);
                assert forall|i: int| 0 <= i < u1.len() implies frame_wf(#[trigger] u1[i]) by {
                    if i != k {
                        assert(u1[i] == m.frames[i]);
                    }
                }
                assert forall|i: int| 0 <= i < u2.len() implies frame_wf(#[trigger] u2[i]) by {
                    if i != k {
                        assert(u2[i] == m.frames[i]);
                    }
                }
                if at_increment {
                    if after_eval(m, os[0], m2, ev) {
                        lemma_after_eval_wf(m, increment, os, m2, ev);
                    }
                } else if after_eval(m, os[0], m2, ev) {
                    lemma_after_eval_wf(m, condition, os, m2, ev);
                } else if let Ok(c) = os[0].1 {
                    if truthy(c) {
                        lemma_start_rel_wf(MState { frames: u2, ..with_env(m, os[0].0) }, body, os.drop_first(), m2, ev);
                    }
                }
            },
        }
    }
}

/// A line of input keeps a well-formed run well formed, and meets no fault
/// at all, whatever the number type makes of the pieces for FLOAT
/// variables: each variable of the SCAN has its type.
pub proof fn law_input_without_internal_fault<F: FloatArith>(m: MState<F>, line: Seq<char>, chosen: Seq<ValueV<F>>)
    requires
        machine_wf(m),
    ensures
        input_with(m, line, chosen) matches Some((m2, ev)) ==> machine_wf(m2) && event_overflow_only(ev),
{
    if let Some((vars, types)) = m.pending {
        let m0 = MState { pending: None, ..m };
        let parts = split_commas(trim(line));
        if parts.len() < vars.len() {
            lemma_halted_wf(
                m0,
                Halt::Error(RuntimeError {
                    token: vars[0],
                    message: "insufficient input for SCAN. Expected "@ + nat_text(vars.len()) + " values."@,
                }),
            );
        }
        lemma_scan_assign_wf(m0, vars, types, parts, 0, chosen);
    }
}

proof fn lemma_split_without_commas(s: Seq<char>)
    requires
        !s.contains(','),
    ensures
        split_commas(s) == seq![s],
    decreases s.len(),
{
    if s.len() > 0 {
        assert(s.last() == s[s.len() - 1]);
        assert(!s.drop_last().contains(',')) by {
            if s.drop_last().contains(',') {
                let k = choose|k: int| 0 <= k < s.drop_last().len() && s.drop_last()[k] == ',';
                assert(s[k] == ',');
            }
        }
        lemma_split_without_commas(s.drop_last());
        assert(s.drop_last().push(s.last()) =~= s);
        assert(seq![s.drop_last()].update(0, s) =~= seq![s]);
    } else {
        assert(s =~= Seq::<char>::empty());
    }
}

/// SCAN into one FLOAT variable, for a number type that obeys its spec
/// functions: a line without commas or surrounding blanks gives the
/// variable the FLOAT the number type reads from it, and where it reads none the run stops
/// with the conversion error at the variable, whatever else was chosen.
pub proof fn law_scan_reads_float<F: FloatArith>(m: MState<F>, var: TokenV, line: Seq<char>, chosen: Seq<ValueV<F>>)
    requires
        F::obeys_arith_spec(),
        m.pending == Some((seq![var], seq!["FLOAT"@])),
        !line.contains(','),
        trim(line) == line,
        lookup(m.env, var.lexeme) is Some,
    ensures
        input_with(m, line, chosen) matches Some((m2, ev)) && match F::parsed_spec(line) {
            Some(f) => ev == Event::<Seq<char>>::Continue && lookup(m2.env, var.lexeme) == Some(
                LiteralValue::<F, Seq<char>>::Float(f),
            ),
            None => ev == Event::<Seq<char>>::Failed(
                RuntimeError { token: var, message: "type mismatch cannot convert '"@ + line + "' to FLOAT."@ },
            ),
        },
{
    let t = trim(line);
    lemma_split_without_commas(t);
    reveal_strlit("FLOAT");
    reveal_strlit("INT");
    assert("FLOAT"@.len() == 5 && "INT"@.len() == 3);
    assert("FLOAT"@ != "INT"@);
    assert(scanned_value::<F>(t, "FLOAT"@, var.lexeme) is None);
    let m0 = MState { pending: None, ..m };
    let vars = seq![var];
    let types = seq!["FLOAT"@];
    let parts = split_commas(t);
    assert(parts[0] == t);
    assert(parts.len() == 1);
    assert(input_with(m, line, chosen) == scan_assign_with(m0, vars, types, parts, 0, chosen));
    if let Some(f) = F::parsed_spec(t) {
        let v = LiteralValue::<F, Seq<char>>::Float(f);
        crate::environment::law_assign_needs_declaration(m0.env, var.lexeme, v);
        crate::environment::law_get_after_assign(m0.env, var.lexeme, v);
        let env2 = assign_scopes(m0.env, var.lexeme, v)->0;
        assert(scan_assign_with(with_env(m0, env2), vars, types, parts, 1, chosen) == Some((with_env(m0, env2), Event::<Seq<char>>::Continue)));
    }
}

} // verus!
