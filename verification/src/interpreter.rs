use vstd::prelude::*;

use crate::environment::{
    assign_scopes, define_scopes, lookup, redefined_message, undefined_message, value_view, Environment, Scopes,
    ValueV,
};
use crate::error::RuntimeError;
use crate::expr::{Expr, LiteralValue};
use crate::stmt::{lemma_stmts_view_index, lemma_stmts_view_len, stmts_view, Stmt, StmtView};
use crate::parser::{ExprV, TokenV};
use crate::text::{chars_of, nat_text, push_all, string_of, usize_to_text};
use crate::token::{Token, TokenType};
use crate::value::{
    cast_to_type, debug_value, equal_values, is_equal, is_truthy, pieces_view, scanned_value, split_at_commas,
    split_commas, stringify, trim, trim_chars, truthy, value_debug_text, value_text, FloatArith, as_float, values_equal, printed_text, debugged_text,
};

verus! {

/// A failure of the host program rather than of the LEXOR program: an
/// operator that the syntax tree should not hold there, an integer division
/// that overflows, or a SCAN without a type for one of its variables.
#[derive(Debug, Clone, Copy, PartialEq, Eq)]
pub enum Fault {
    Unreachable,
    DivideOverflow,
    RemainderOverflow,
    MissingScanType,
}

/// Why evaluation stopped: a runtime error of the program, or a fault.
#[derive(Debug)]
pub enum Halt<S = String> {
    Error(RuntimeError<S>),
    Fault(Fault),
}

pub type HaltV = Halt<Seq<char>>;

pub open spec fn halt_view(h: Halt) -> HaltV {
    match h {
        Halt::Error(e) => Halt::Error(e@),
        Halt::Fault(f) => Halt::Fault(f),
    }
}

pub open spec fn eval_r<F: FloatArith>(r: Result<LiteralValue<F>, Halt>) -> Result<ValueV<F>, HaltV> {
    match r {
        Ok(v) => Ok(value_view(v)),
        Err(h) => Err(halt_view(h)),
    }
}

pub open spec fn fail<F: FloatArith>(tok: TokenV, message: Seq<char>) -> Result<ValueV<F>, HaltV> {
    Err(Halt::Error(RuntimeError { token: tok, message }))
}

pub open spec fn is_number<F: FloatArith>(v: ValueV<F>) -> bool {
    v is Int || v is Float
}

/// The outcome of an arithmetic or comparison operator on two INTs. `+`, `-`
/// and `*` wrap around on overflow.
pub open spec fn int_binary<F: FloatArith>(op: TokenV, a: i64, b: i64) -> Result<ValueV<F>, HaltV> {
    match op.token_type {
        TokenType::Plus => Ok(LiteralValue::Int(a.wrapping_add(b))),
        TokenType::Minus => Ok(LiteralValue::Int(a.wrapping_sub(b))),
        TokenType::Star => Ok(LiteralValue::Int(a.wrapping_mul(b))),
        TokenType::Slash => if b == 0 {
            fail(op, "Error, Division by 0"@)
        } else {
            match a.checked_div(b) {
                Some(q) => Ok(LiteralValue::Int(q)),
                None => Err(Halt::Fault(Fault::DivideOverflow)),
            }
        },
        TokenType::Modulo => if b == 0 {
            fail(op, "Error, Modulo by 0"@)
        } else {
            match a.checked_rem(b) {
                Some(q) => Ok(LiteralValue::Int(q)),
                None => Err(Halt::Fault(Fault::RemainderOverflow)),
            }
        },
        TokenType::Greater => Ok(LiteralValue::Bool(a > b)),
        TokenType::GreaterEqual => Ok(LiteralValue::Bool(a >= b)),
        TokenType::Less => Ok(LiteralValue::Bool(a < b)),
        TokenType::LessEqual => Ok(LiteralValue::Bool(a <= b)),
        _ => Err(Halt::Fault(Fault::Unreachable)),
    }
}

/// What an arithmetic or comparison operator gives for the numbers `a`
/// (left) and `b` (right) of a number type that obeys its spec functions:
/// the number type's operation applied to `a` and `b` in that order, and the
/// division or modulo error for a zero divisor.
pub open spec fn float_arith<F: FloatArith>(op: TokenV, a: F, b: F) -> Result<ValueV<F>, HaltV> {
    match op.token_type {
        TokenType::Plus => Ok(LiteralValue::Float(a.add_spec(b))),
        TokenType::Minus => Ok(LiteralValue::Float(a.sub_spec(b))),
        TokenType::Star => Ok(LiteralValue::Float(a.mul_spec(b))),
        TokenType::Slash => if b.is_zero_spec() {
            fail::<F>(op, "Error, Division by 0"@)
        } else {
            Ok(LiteralValue::Float(a.div_spec(b)))
        },
        TokenType::Modulo => if b.is_zero_spec() {
            fail::<F>(op, "Error, Modulo by 0"@)
        } else {
            Ok(LiteralValue::Float(a.rem_spec(b)))
        },
        TokenType::Greater => Ok(LiteralValue::Bool(a.greater_spec(b))),
        TokenType::GreaterEqual => Ok(LiteralValue::Bool(a.greater_eq_spec(b))),
        TokenType::Less => Ok(LiteralValue::Bool(a.less_spec(b))),
        TokenType::LessEqual => Ok(LiteralValue::Bool(a.less_eq_spec(b))),
        _ => Err(Halt::Fault(Fault::Unreachable)),
    }
}

/// What an arithmetic or comparison operator on the numbers `a` and `b`
/// gives, where a FLOAT takes part: of the right kind for every number type
/// (`+`, `-` and `*` give a FLOAT; `/` and `%` a FLOAT or, for a zero
/// divisor, the division or modulo error at the operator; comparisons a
/// BOOL; any other operator is a fault), and exactly `float_arith` for one
/// that obeys its spec functions.
pub open spec fn float_binary_outcome<F: FloatArith>(op: TokenV, a: F, b: F, r: Result<ValueV<F>, HaltV>) -> bool {
    &&& match op.token_type {
        TokenType::Plus | TokenType::Minus | TokenType::Star => r matches Ok(LiteralValue::Float(_)),
        TokenType::Slash => r matches Ok(LiteralValue::Float(_)) || r == fail::<F>(op, "Error, Division by 0"@),
        TokenType::Modulo => r matches Ok(LiteralValue::Float(_)) || r == fail::<F>(op, "Error, Modulo by 0"@),
        TokenType::Greater | TokenType::GreaterEqual | TokenType::Less | TokenType::LessEqual => r matches Ok(
            LiteralValue::Bool(_),
        ),
        _ => r == Err::<ValueV<F>, HaltV>(Halt::Fault(Fault::Unreachable)),
    }
    &&& F::obeys_arith_spec() ==> r == float_arith(op, a, b)
}

/// The value an assignment stores into a variable that holds `existing`, or
/// the type error; `None` where an INT variable gets a FLOAT, which is stored
/// truncated when the number type finds it whole.
pub open spec fn coerce<F: FloatArith>(existing: ValueV<F>, v: ValueV<F>, name: Seq<char>) -> Option<Result<ValueV<F>, Seq<char>>> {
    match (existing, v) {
        (LiteralValue::Int(_), LiteralValue::Float(_)) => None,
        (LiteralValue::Int(_), LiteralValue::Int(_)) => Some(Ok(v)),
        (LiteralValue::Int(_), _) => Some(Err("type mismatch cannot assign to INT variable '"@ + name + "'."@)),
        (LiteralValue::Float(_), LiteralValue::Float(_)) => Some(Ok(v)),
        (LiteralValue::Float(_), LiteralValue::Int(_)) => None,
        (LiteralValue::Float(_), _) => Some(Err("type mismatch cannot assign to FLOAT variable '"@ + name + "'."@)),
        (LiteralValue::Bool(_), LiteralValue::Bool(_)) => Some(Ok(v)),
        (LiteralValue::Bool(_), _) => Some(Err("type mismatch expected BOOL value."@)),
        (LiteralValue::Char(_), LiteralValue::Char(_)) => Some(Ok(v)),
        (LiteralValue::Char(_), _) => Some(Err("type mismatch expected CHAR value."@)),
        _ => Some(Ok(v)),
    }
}

pub type EvalOut<F> = Option<(Scopes<F>, Result<ValueV<F>, HaltV>)>;

/// What evaluating `e` in the scopes `env` gives: the scopes after it (an
/// assignment changes them) and the value or why evaluation stopped.
/// `None` where the outcome turns on an operation of the number type.
pub open spec fn eval<F: FloatArith>(e: ExprV, env: Scopes<F>) -> EvalOut<F>
    decreases e,
{
    match e {
        Expr::Literal { value } => match value {
            LiteralValue::Int(i) => Some((env, Ok(LiteralValue::Int(i)))),
            LiteralValue::Float(_) => None,
            LiteralValue::String(s) => Some((env, Ok(LiteralValue::String(s)))),
            LiteralValue::Char(c) => Some((env, Ok(LiteralValue::Char(c)))),
            LiteralValue::Bool(b) => Some((env, Ok(LiteralValue::Bool(b)))),
            LiteralValue::Nil => Some((env, Ok(LiteralValue::Nil))),
        },
        Expr::Grouping { expression } => eval(*expression, env),
        Expr::Variable { name } => Some((env, match lookup(env, name.lexeme) {
            Some(v) => Ok(v),
            None => fail(name, undefined_message(name.lexeme)),
        })),
        Expr::Assign { name, value } => match eval(*value, env) {
            None => None,
            Some((env1, Err(h))) => Some((env1, Err(h))),
            Some((env1, Ok(nv))) => match lookup(env1, name.lexeme) {
                None => Some((env1, fail(name, undefined_message(name.lexeme)))),
                Some(existing) => match coerce(existing, nv, name.lexeme) {
                    None => None,
                    Some(Err(m)) => Some((env1, fail(name, m))),
                    Some(Ok(v2)) => match assign_scopes(env1, name.lexeme, v2) {
                        Some(env2) => Some((env2, Ok(v2))),
                        None => Some((env1, fail(name, undefined_message(name.lexeme)))),
                    },
                },
            },
        },
        Expr::Logical { left, operator, right } => match eval(*left, env) {
            None => None,
            Some((env1, Err(h))) => Some((env1, Err(h))),
            Some((env1, Ok(l))) => if operator.token_type == TokenType::<Seq<char>>::Or && truthy(l) {
                Some((env1, Ok(LiteralValue::Bool(true))))
            } else if operator.token_type == TokenType::<Seq<char>>::And && !truthy(l) {
                Some((env1, Ok(LiteralValue::Bool(false))))
            } else if operator.token_type != TokenType::<Seq<char>>::Or
                && operator.token_type != TokenType::<Seq<char>>::And {
                Some((env1, Err(Halt::Fault(Fault::Unreachable))))
            } else {
                match eval(*right, env1) {
                    None => None,
                    Some((env2, Err(h))) => Some((env2, Err(h))),
                    Some((env2, Ok(r))) => Some((env2, Ok(LiteralValue::Bool(truthy(r))))),
                }
            },
        },
        Expr::Unary { operator, right } => match eval(*right, env) {
            None => None,
            Some((env1, Err(h))) => Some((env1, Err(h))),
            Some((env1, Ok(v))) => match operator.token_type {
                TokenType::Not => Some((env1, Ok(LiteralValue::Bool(!truthy(v))))),
                TokenType::Minus => match v {
                    LiteralValue::Int(i) => Some((env1, Ok(LiteralValue::Int(0i64.wrapping_sub(i))))),
                    LiteralValue::Float(_) => None,
                    _ => Some((env1, fail(operator, "operand must be a number."@))),
                },
                TokenType::Plus => match v {
                    LiteralValue::Int(i) => Some((env1, Ok(LiteralValue::Int(i)))),
                    LiteralValue::Float(f) => Some((env1, Ok(LiteralValue::Float(f)))),
                    _ => Some((env1, fail(operator, "operand must be a number."@))),
                },
                _ => Some((env1, Err(Halt::Fault(Fault::Unreachable)))),
            },
        },
        Expr::Binary { left, operator, right } => match eval(*left, env) {
            None => None,
            Some((env1, Err(h))) => Some((env1, Err(h))),
            Some((env1, Ok(l))) => match eval(*right, env1) {
                None => None,
                Some((env2, Err(h))) => Some((env2, Err(h))),
                Some((env2, Ok(r))) => match operator.token_type {
                    TokenType::Ampersand => match (value_text(l), value_text(r)) {
                        (Some(a), Some(b)) => Some((env2, Ok(LiteralValue::String(a + b)))),
                        _ => None,
                    },
                    TokenType::EqualEqual => match equal_values(l, r) {
                        Some(b) => Some((env2, Ok(LiteralValue::Bool(b)))),
                        None => None,
                    },
                    TokenType::NotEqual => match equal_values(l, r) {
                        Some(b) => Some((env2, Ok(LiteralValue::Bool(!b)))),
                        None => None,
                    },
                    _ => match (l, r) {
                        (LiteralValue::Int(a), LiteralValue::Int(b)) => Some((env2, int_binary(operator, a, b))),
                        _ => if !is_number(l) || !is_number(r) {
                            Some((env2, fail(operator, "Operand must be a number."@)))
                        } else {
                            None
                        },
                    },
                },
            },
        },
    }
}

pub type EvalRes<F> = (Scopes<F>, Result<ValueV<F>, HaltV>);

/// An error result passed on unchanged, or `then` for a value.
pub open spec fn passes_on<F: FloatArith>(mid: EvalRes<F>, out: EvalRes<F>) -> bool {
    mid.1 is Err && out == mid
}

/// Storing `v` into the variable `name` in `env`, as an assignment ends.
pub open spec fn stores<F: FloatArith>(env: Scopes<F>, name: TokenV, v: ValueV<F>, out: EvalRes<F>) -> bool {
    match assign_scopes(env, name.lexeme, v) {
        Some(env2) => out == (env2, Ok::<ValueV<F>, HaltV>(v)),
        None => out == (env, fail::<F>(name, undefined_message(name.lexeme))),
    }
}

/// How an assignment of `nv` to `name` can end in `env`, whatever the
/// number type gives: an INT variable given a FLOAT takes a whole number as
/// some INT, and a FLOAT variable given an INT holds some FLOAT.
pub open spec fn assign_may<F: FloatArith>(env: Scopes<F>, name: TokenV, nv: ValueV<F>, out: EvalRes<F>) -> bool {
    match lookup(env, name.lexeme) {
        None => out == (env, fail::<F>(name, undefined_message(name.lexeme))),
        Some(existing) => match coerce(existing, nv, name.lexeme) {
            Some(Err(m)) => out == (env, fail::<F>(name, m)),
            Some(Ok(v2)) => stores(env, name, v2, out),
            None => if existing is Int {
                &&& (out == (env, fail::<F>(name, "type mismatch cannot assign to INT variable '"@ + name.lexeme + "'."@))
                    || (out.1 matches Ok(w) && w is Int && stores(env, name, w, out)))
                &&& (F::obeys_arith_spec() ==> if as_float(nv).is_whole_spec() {
                    stores(env, name, LiteralValue::Int(as_float(nv).to_int_spec()), out)
                } else {
                    out == (env, fail::<F>(name, "type mismatch cannot assign to INT variable '"@ + name.lexeme + "'."@))
                })
            } else {
                &&& out.1 matches Ok(w) && w is Float && stores(env, name, w, out)
                &&& (F::obeys_arith_spec() ==> stores(env, name, LiteralValue::Float(as_float(nv)), out))
            },
        },
    }
}

/// What a binary operator gives for the values `l` and `r`, whatever the
/// number type gives: exact where no FLOAT takes part, and of the right kind
/// where one does.
pub open spec fn binary_may<F: FloatArith>(op: TokenV, l: ValueV<F>, r: ValueV<F>, res: Result<ValueV<F>, HaltV>) -> bool {
    match op.token_type {
        TokenType::Ampersand => match (value_text(l), value_text(r)) {
            (Some(a), Some(b)) => res == Ok::<ValueV<F>, HaltV>(LiteralValue::String(a + b)),
            _ => res matches Ok(LiteralValue::String(_)) && (F::obeys_arith_spec() ==> res == Ok::<
                ValueV<F>,
                HaltV,
            >(LiteralValue::String(printed_text(l) + printed_text(r)))),
        },
        TokenType::EqualEqual => match equal_values(l, r) {
            Some(b) => res == Ok::<ValueV<F>, HaltV>(LiteralValue::Bool(b)),
            None => res matches Ok(LiteralValue::Bool(_)) && (F::obeys_arith_spec() ==> res == Ok::<
                ValueV<F>,
                HaltV,
            >(LiteralValue::Bool(values_equal(l, r)))),
        },
        TokenType::NotEqual => match equal_values(l, r) {
            Some(b) => res == Ok::<ValueV<F>, HaltV>(LiteralValue::Bool(!b)),
            None => res matches Ok(LiteralValue::Bool(_)) && (F::obeys_arith_spec() ==> res == Ok::<
                ValueV<F>,
                HaltV,
            >(LiteralValue::Bool(!values_equal(l, r)))),
        },
        _ => match (l, r) {
            (LiteralValue::Int(a), LiteralValue::Int(b)) => res == int_binary::<F>(op, a, b),
            _ => if !is_number(l) || !is_number(r) {
                res == fail::<F>(op, "Operand must be a number."@)
            } else {
                float_binary_outcome(op, as_float(l), as_float(r), res)
            },
        },
    }
}

/// The outcomes of an evaluation and of its parts, innermost first: what
/// `eval_may` holds an outcome of the whole against.
pub enum EvalTrace<F> {
    Leaf(EvalRes<F>),
    One(EvalRes<F>, Box<EvalTrace<F>>),
    Two(EvalRes<F>, Box<EvalTrace<F>>, Box<EvalTrace<F>>),
}

pub open spec fn trace_out<F: FloatArith>(t: EvalTrace<F>) -> EvalRes<F> {
    match t {
        EvalTrace::Leaf(o) => o,
        EvalTrace::One(o, _) => o,
        EvalTrace::Two(o, _, _) => o,
    }
}

/// A logical operator whose left operand gave `l` does not evaluate its
/// right operand: `OR` after a true value, `AND` after a false one, and an
/// operator that is neither.
pub open spec fn short_circuits<F: FloatArith>(operator: TokenV, l: ValueV<F>) -> bool {
    (operator.token_type == TokenType::<Seq<char>>::Or && truthy(l)) || (operator.token_type
        == TokenType::<Seq<char>>::And && !truthy(l)) || (operator.token_type != TokenType::<Seq<char>>::Or
        && operator.token_type != TokenType::<Seq<char>>::And)
}

/// How a logical operator ends once its left operand gave `l`, where it does
/// not need its right operand.
pub open spec fn logical_short<F: FloatArith>(operator: TokenV, mid: EvalRes<F>, l: ValueV<F>, out: EvalRes<F>) -> bool {
    if operator.token_type == TokenType::<Seq<char>>::Or && truthy(l) {
        out == (mid.0, Ok::<ValueV<F>, HaltV>(LiteralValue::Bool(true)))
    } else if operator.token_type == TokenType::<Seq<char>>::And && !truthy(l) {
        out == (mid.0, Ok::<ValueV<F>, HaltV>(LiteralValue::Bool(false)))
    } else if operator.token_type != TokenType::<Seq<char>>::Or
        && operator.token_type != TokenType::<Seq<char>>::And {
        out == (mid.0, Err::<ValueV<F>, HaltV>(Halt::Fault(Fault::Unreachable)))
    } else {
        false
    }
}

/// What a unary operator gives for the value `v`, whatever the number type
/// gives.
pub open spec fn unary_may<F: FloatArith>(operator: TokenV, v: ValueV<F>, res: Result<ValueV<F>, HaltV>) -> bool {
    match operator.token_type {
        TokenType::Not => res == Ok::<ValueV<F>, HaltV>(LiteralValue::Bool(!truthy(v))),
        TokenType::Minus => match v {
            LiteralValue::Int(i) => res == Ok::<ValueV<F>, HaltV>(LiteralValue::Int(0i64.wrapping_sub(i))),
            LiteralValue::Float(f) => res matches Ok(LiteralValue::Float(_)) && (F::obeys_arith_spec() ==> res == Ok::<
                ValueV<F>,
                HaltV,
            >(LiteralValue::Float(f.neg_spec()))),
            _ => res == fail::<F>(operator, "operand must be a number."@),
        },
        TokenType::Plus => match v {
            LiteralValue::Int(_) => res == Ok::<ValueV<F>, HaltV>(v),
            LiteralValue::Float(_) => res == Ok::<ValueV<F>, HaltV>(v),
            _ => res == fail::<F>(operator, "operand must be a number."@),
        },
        _ => res == Err::<ValueV<F>, HaltV>(Halt::Fault(Fault::Unreachable)),
    }
}

/// `t` records an evaluation of `e` in `env` as the interpreter does it,
/// with each value that the number type computes taken as it came out.
pub open spec fn trace_ok<F: FloatArith>(e: ExprV, env: Scopes<F>, t: EvalTrace<F>) -> bool
    decreases e,
{
    let out = trace_out(t);
    match e {
        Expr::Literal { value } => match value {
            LiteralValue::Float(text) => {
                &&& out.0 == env
                &&& out.1 matches Ok(LiteralValue::Float(_))
                &&& F::obeys_arith_spec() ==> out.1 == Ok::<ValueV<F>, HaltV>(LiteralValue::Float(F::literal_spec(text)))
            },
            _ => eval(e, env) == Some(out),
        },
        Expr::Variable { .. } => eval(e, env) == Some(out),
        Expr::Grouping { expression } => t matches EvalTrace::One(o, s) && trace_ok(*expression, env, *s)
            && o == trace_out(*s),
        Expr::Assign { name, value } => t matches EvalTrace::One(o, s) && trace_ok(*value, env, *s) && (
        passes_on(trace_out(*s), o) || (trace_out(*s).1 matches Ok(nv) && assign_may(trace_out(*s).0, name, nv, o))),
        Expr::Logical { left, operator, right } => match t {
            EvalTrace::One(o, s) => trace_ok(*left, env, *s) && (passes_on(trace_out(*s), o) || (trace_out(*s).1 matches Ok(
                l,
            ) && logical_short(operator, trace_out(*s), l, o))),
            EvalTrace::Two(o, s1, s2) => trace_ok(*left, env, *s1) && (trace_out(*s1).1 matches Ok(l)
                && !short_circuits(operator, l) && trace_ok(
                *right,
                trace_out(*s1).0,
                *s2,
            ) && (passes_on(trace_out(*s2), o) || (trace_out(*s2).1 matches Ok(rv) && o == (
            trace_out(*s2).0, Ok::<ValueV<F>, HaltV>(LiteralValue::Bool(truthy(rv))))))),
            EvalTrace::Leaf(_) => false,
        },
        Expr::Unary { operator, right } => t matches EvalTrace::One(o, s) && trace_ok(*right, env, *s) && (
        passes_on(trace_out(*s), o) || (trace_out(*s).1 matches Ok(v) && o.0 == trace_out(*s).0 && unary_may(
            operator,
            v,
            o.1,
        ))),
        Expr::Binary { left, operator, right } => match t {
            EvalTrace::One(o, s) => trace_ok(*left, env, *s) && passes_on(trace_out(*s), o),
            EvalTrace::Two(o, s1, s2) => trace_ok(*left, env, *s1) && (trace_out(*s1).1 matches Ok(l) && trace_ok(
                *right,
                trace_out(*s1).0,
                *s2,
            ) && (passes_on(trace_out(*s2), o) || (trace_out(*s2).1 matches Ok(rv) && o.0 == trace_out(*s2).0
                && binary_may(operator, l, rv, o.1)))),
            EvalTrace::Leaf(_) => false,
        },
    }
}

/// The outcomes that evaluating `e` in `env` can have, whatever values the
/// number type gives: the scopes after it and the value or why it stopped.
/// Where no FLOAT takes part there is exactly one, the one `eval` gives.
pub open spec fn eval_may<F: FloatArith>(e: ExprV, env: Scopes<F>, out: EvalRes<F>) -> bool {
    exists|t: EvalTrace<F>| #[trigger] trace_ok(e, env, t) && trace_out(t) == out
}
/// The type a variable keeps: INT and BOOL variables only ever hold values
/// of their type.
pub open spec fn same_kind<F: FloatArith>(a: ValueV<F>, b: ValueV<F>) -> bool {
    (a is Int && b is Int) || (a is Float && b is Float) || (a is Bool && b is Bool) || (a is Char && b is Char)
}

proof fn lemma_trace_keeps_types<F: FloatArith>(e: ExprV, env: Scopes<F>, t: EvalTrace<F>, x: Seq<char>)
    requires
        trace_ok(e, env, t),
        lookup(env, x) matches Some(v) && (v is Int || v is Float || v is Bool || v is Char),
    ensures
        lookup(trace_out(t).0, x) matches Some(w) && same_kind(lookup(env, x)->0, w),
    decreases e,
{
    match e {
        Expr::Grouping { expression } => {
            if let EvalTrace::One(o, s) = t {
                lemma_trace_keeps_types(*expression, env, *s, x);
            }
        },
        Expr::Assign { name, value } => {
            if let EvalTrace::One(o, s) = t {
                lemma_trace_keeps_types(*value, env, *s, x);
                let mid = trace_out(*s);
                if let Ok(nv) = mid.1 {
                    if let Some(existing) = lookup(mid.0, name.lexeme) {
                        match coerce(existing, nv, name.lexeme) {
                            Some(Ok(v2)) => {
                                if name.lexeme == x {
                                    assert(same_kind(existing, v2) || !(existing is Int || existing is Float
                                        || existing is Bool || existing is Char));
                                }
                                if assign_scopes(mid.0, name.lexeme, v2) is Some {
                                    if name.lexeme == x {
                                        crate::environment::law_get_after_assign(mid.0, name.lexeme, v2);
                                    } else {
                                        crate::environment::law_assign_keeps_others(mid.0, name.lexeme, x, v2);
                                    }
                                }
                            },
                            None => {
                                if let Ok(w) = o.1 {
                                    if assign_scopes(mid.0, name.lexeme, w) is Some {
                                        if name.lexeme == x {
                                            crate::environment::law_get_after_assign(mid.0, name.lexeme, w);
                                        } else {
                                            crate::environment::law_assign_keeps_others(mid.0, name.lexeme, x, w);
                                        }
                                    }
                                }
                            },
                            _ => {},
                        }
                    }
                }
            }
        },
        Expr::Logical { left, operator, right } => {
            match t {
                EvalTrace::One(o, s) => {
                    lemma_trace_keeps_types(*left, env, *s, x);
                },
                EvalTrace::Two(o, s1, s2) => {
                    lemma_trace_keeps_types(*left, env, *s1, x);
                    lemma_trace_keeps_types(*right, trace_out(*s1).0, *s2, x);
                },
                _ => {},
            }
        },
        Expr::Unary { operator, right } => {
            if let EvalTrace::One(o, s) = t {
                lemma_trace_keeps_types(*right, env, *s, x);
            }
        },
        Expr::Binary { left, operator, right } => {
            match t {
                EvalTrace::One(o, s) => {
                    lemma_trace_keeps_types(*left, env, *s, x);
                },
                EvalTrace::Two(o, s1, s2) => {
                    lemma_trace_keeps_types(*left, env, *s1, x);
                    lemma_trace_keeps_types(*right, trace_out(*s1).0, *s2, x);
                },
                _ => {},
            }
        },
        _ => {},
    }
}

/// `e` holds an assignment somewhere.
pub open spec fn has_assignment(e: ExprV) -> bool
    decreases e,
{
    match e {
        Expr::Assign { .. } => true,
        Expr::Grouping { expression } => has_assignment(*expression),
        Expr::Logical { left, right, .. } => has_assignment(*left) || has_assignment(*right),
        Expr::Binary { left, right, .. } => has_assignment(*left) || has_assignment(*right),
        Expr::Unary { right, .. } => has_assignment(*right),
        _ => false,
    }
}

proof fn lemma_trace_scopes<F: FloatArith>(e: ExprV, env: Scopes<F>, t: EvalTrace<F>)
    requires
        trace_ok(e, env, t),
    ensures
        trace_out(t).0.len() == env.len(),
        !has_assignment(e) ==> trace_out(t).0 == env,
    decreases e,
{
    match e {
        Expr::Grouping { expression } => {
            if let EvalTrace::One(o, s) = t {
                lemma_trace_scopes(*expression, env, *s);
            }
        },
        Expr::Assign { name, value } => {
            if let EvalTrace::One(o, s) = t {
                lemma_trace_scopes(*value, env, *s);
                let mid = trace_out(*s);
                if let Ok(nv) = mid.1 {
                    if let Some(existing) = lookup(mid.0, name.lexeme) {
                        if let Some(Ok(v2)) = coerce(existing, nv, name.lexeme) {
                            crate::environment::lemma_assign_len(mid.0, name.lexeme, v2);
                        }
                        if let Ok(w) = o.1 {
                            crate::environment::lemma_assign_len(mid.0, name.lexeme, w);
                        }
                    }
                }
            }
        },
        Expr::Logical { left, operator, right } => {
            match t {
                EvalTrace::One(o, s) => {
                    lemma_trace_scopes(*left, env, *s);
                },
                EvalTrace::Two(o, s1, s2) => {
                    lemma_trace_scopes(*left, env, *s1);
                    lemma_trace_scopes(*right, trace_out(*s1).0, *s2);
                },
                _ => {},
            }
        },
        Expr::Unary { operator, right } => {
            if let EvalTrace::One(o, s) = t {
                lemma_trace_scopes(*right, env, *s);
            }
        },
        Expr::Binary { left, operator, right } => {
            match t {
                EvalTrace::One(o, s) => {
                    lemma_trace_scopes(*left, env, *s);
                },
                EvalTrace::Two(o, s1, s2) => {
                    lemma_trace_scopes(*left, env, *s1);
                    lemma_trace_scopes(*right, trace_out(*s1).0, *s2);
                },
                _ => {},
            }
        },
        _ => {},
    }
}

/// Evaluation never changes the number of scopes, and an expression without
/// an assignment leaves every scope as it was, whatever it computes.
pub proof fn law_evaluation_keeps_scopes<F: FloatArith>(e: ExprV, env: Scopes<F>, out: EvalRes<F>)
    requires
        eval_may(e, env, out),
    ensures
        out.0.len() == env.len(),
        !has_assignment(e) ==> out.0 == env,
{
    let t = choose|t: EvalTrace<F>| #[trigger] trace_ok(e, env, t) && trace_out(t) == out;
    lemma_trace_scopes(e, env, t);
}

/// Strong typing: whatever an expression computes, and whatever values the
/// number type gives, evaluating it leaves a variable of each of the four
/// types holding a value of that type.
pub proof fn law_evaluation_keeps_types<F: FloatArith>(e: ExprV, env: Scopes<F>, x: Seq<char>, out: EvalRes<F>)
    requires
        lookup(env, x) matches Some(v) && (v is Int || v is Float || v is Bool || v is Char),
        eval_may(e, env, out),
    ensures
        lookup(out.0, x) matches Some(w) && same_kind(lookup(env, x)->0, w),
{
    let t = choose|t: EvalTrace<F>| #[trigger] trace_ok(e, env, t) && trace_out(t) == out;
    lemma_trace_keeps_types(e, env, t, x);
}

/// The binary expression `x op y` over two variables.
pub open spec fn binary_of_variables(x: TokenV, op: TokenV, y: TokenV) -> ExprV {
    Expr::Binary {
        left: Box::new(Expr::Variable { name: x }),
        operator: op,
        right: Box::new(Expr::Variable { name: y }),
    }
}

/// Arithmetic where a FLOAT takes part, for a number type that obeys its
/// spec functions: `x op y` over variables that hold the numbers `l` and `r`
/// applies the number type's operation to the left number and the right
/// one, in that order (an INT widened first); `/` and `%` by a zero are the
/// division and modulo errors; `==` is the number type's equality and `<>`
/// its negation. Nothing else changes.
pub proof fn law_float_operations_in_order<F: FloatArith>(
    env: Scopes<F>,
    x: TokenV,
    op: TokenV,
    y: TokenV,
    l: ValueV<F>,
    r: ValueV<F>,
    out: EvalRes<F>,
)
    requires
        F::obeys_arith_spec(),
        lookup(env, x.lexeme) == Some(l),
        lookup(env, y.lexeme) == Some(r),
        l is Float || r is Float,
        l is Float || l is Int,
        r is Float || r is Int,
        eval_may(binary_of_variables(x, op, y), env, out),
    ensures
        out.0 == env,
        ({
            let a = as_float(l);
            let b = as_float(r);
            match op.token_type {
                TokenType::Plus => out.1 == Ok::<ValueV<F>, HaltV>(LiteralValue::Float(a.add_spec(b))),
                TokenType::Minus => out.1 == Ok::<ValueV<F>, HaltV>(LiteralValue::Float(a.sub_spec(b))),
                TokenType::Star => out.1 == Ok::<ValueV<F>, HaltV>(LiteralValue::Float(a.mul_spec(b))),
                TokenType::Slash => out.1 == if b.is_zero_spec() {
                    Err::<ValueV<F>, HaltV>(Halt::Error(RuntimeError { token: op, message: "Error, Division by 0"@ }))
                } else {
                    Ok(LiteralValue::Float(a.div_spec(b)))
                },
                TokenType::Modulo => out.1 == if b.is_zero_spec() {
                    Err::<ValueV<F>, HaltV>(Halt::Error(RuntimeError { token: op, message: "Error, Modulo by 0"@ }))
                } else {
                    Ok(LiteralValue::Float(a.rem_spec(b)))
                },
                TokenType::Greater => out.1 == Ok::<ValueV<F>, HaltV>(LiteralValue::Bool(a.greater_spec(b))),
                TokenType::GreaterEqual => out.1 == Ok::<ValueV<F>, HaltV>(LiteralValue::Bool(a.greater_eq_spec(b))),
                TokenType::Less => out.1 == Ok::<ValueV<F>, HaltV>(LiteralValue::Bool(a.less_spec(b))),
                TokenType::LessEqual => out.1 == Ok::<ValueV<F>, HaltV>(LiteralValue::Bool(a.less_eq_spec(b))),
                TokenType::EqualEqual => out.1 == Ok::<ValueV<F>, HaltV>(LiteralValue::Bool(a.equals_spec(b))),
                TokenType::NotEqual => out.1 == Ok::<ValueV<F>, HaltV>(LiteralValue::Bool(!a.equals_spec(b))),
                _ => true,
            }
        }),
{
    let e = binary_of_variables(x, op, y);
    let t = choose|t: EvalTrace<F>| #[trigger] trace_ok(e, env, t) && trace_out(t) == out;
    reveal_with_fuel(trace_ok, 2);
    match t {
        EvalTrace::Two(o, s1, s2) => {
            assert(trace_out(*s1) == (env, Ok::<ValueV<F>, HaltV>(l)));
            assert(trace_out(*s2) == (env, Ok::<ValueV<F>, HaltV>(r)));
        },
        EvalTrace::One(o, s1) => {
            assert(trace_out(*s1) == (env, Ok::<ValueV<F>, HaltV>(l)));
        },
        _ => {},
    }
}

/// A float literal and its negation, for a number type that obeys its spec
/// functions: `-text` gives the negation of the value the number type reads
/// from the literal's text, and changes no variable.
pub proof fn law_negated_float_literal<F: FloatArith>(env: Scopes<F>, op: TokenV, text: Seq<char>, out: EvalRes<F>)
    requires
        F::obeys_arith_spec(),
        op.token_type == TokenType::<Seq<char>>::Minus,
        eval_may(
            Expr::Unary { operator: op, right: Box::new(Expr::Literal { value: LiteralValue::Float(text) }) },
            env,
            out,
        ),
    ensures
        out == (env, Ok::<ValueV<F>, HaltV>(LiteralValue::Float(F::literal_spec(text).neg_spec()))),
{
    let e = Expr::Unary { operator: op, right: Box::new(Expr::Literal { value: LiteralValue::Float(text) }) };
    let t = choose|t: EvalTrace<F>| #[trigger] trace_ok(e, env, t) && trace_out(t) == out;
    reveal_with_fuel(trace_ok, 2);
    if let EvalTrace::One(o, s1) = t {
        assert(trace_out(*s1) == (env, Ok::<ValueV<F>, HaltV>(LiteralValue::Float(F::literal_spec(text)))));
    }
}

/// Assigning a FLOAT to an INT variable, for a number type that obeys its
/// spec functions: a whole number is stored truncated, any other is the
/// type error at the variable; a FLOAT variable given an INT stores it
/// widened by `from_int`.
pub proof fn law_assignment_converts_numbers<F: FloatArith>(
    env: Scopes<F>,
    x: TokenV,
    y: TokenV,
    old_value: ValueV<F>,
    nv: ValueV<F>,
    out: EvalRes<F>,
)
    requires
        F::obeys_arith_spec(),
        lookup(env, x.lexeme) == Some(old_value),
        lookup(env, y.lexeme) == Some(nv),
        (old_value is Int && nv is Float) || (old_value is Float && nv is Int),
        eval_may(Expr::Assign { name: x, value: Box::new(Expr::Variable { name: y }) }, env, out),
    ensures
        match (old_value, nv) {
            (LiteralValue::Int(_), LiteralValue::Float(f)) => if f.is_whole_spec() {
                out.1 == Ok::<ValueV<F>, HaltV>(LiteralValue::Int(f.to_int_spec())) && lookup(out.0, x.lexeme) == Some(
                    LiteralValue::<F, Seq<char>>::Int(f.to_int_spec()),
                )
            } else {
                out == (env, Err::<ValueV<F>, HaltV>(Halt::Error(RuntimeError {
                    token: x,
                    message: "type mismatch cannot assign to INT variable '"@ + x.lexeme + "'."@,
                })))
            },
            (LiteralValue::Float(_), LiteralValue::Int(i)) => out.1 == Ok::<ValueV<F>, HaltV>(
                LiteralValue::Float(F::from_int_spec(i)),
            ) && lookup(out.0, x.lexeme) == Some(LiteralValue::<F, Seq<char>>::Float(F::from_int_spec(i))),
            _ => true,
        },
{
    let e = Expr::Assign { name: x, value: Box::new(Expr::Variable { name: y }) };
    let t = choose|t: EvalTrace<F>| #[trigger] trace_ok(e, env, t) && trace_out(t) == out;
    reveal_with_fuel(trace_ok, 2);
    if let EvalTrace::One(o, s1) = t {
        assert(trace_out(*s1) == (env, Ok::<ValueV<F>, HaltV>(nv)));
        let w = match (old_value, nv) {
            (LiteralValue::Int(_), LiteralValue::Float(f)) => LiteralValue::Int(f.to_int_spec()),
            (_, LiteralValue::Int(i)) => LiteralValue::Float(F::from_int_spec(i)),
            _ => nv,
        };
        crate::environment::law_assign_needs_declaration(env, x.lexeme, w);
        crate::environment::law_get_after_assign(env, x.lexeme, w);
    }
}

/// PRINT of a FLOAT variable, for a number type that obeys its spec
/// functions: the output is exactly the number type's text of the value,
/// with nothing added, and nothing else changes.
pub proof fn law_print_shows_float<F: FloatArith>(
    m: MState<F>,
    x: TokenV,
    f: F,
    os: Seq<EvalRes<F>>,
    m2: MState<F>,
    ev: EventV,
)
    requires
        F::obeys_arith_spec(),
        lookup(m.env, x.lexeme) == Some(LiteralValue::<F, Seq<char>>::Float(f)),
        start_rel(m, StmtView::Print { expression: Expr::Variable { name: x } }, os, m2, ev),
    ensures
        ev == Event::<Seq<char>>::Output(f.display_spec()),
        m2 == m,
{
    let t = choose|t: EvalTrace<F>| #[trigger] trace_ok(Expr::Variable { name: x }, m.env, t) && trace_out(t) == os[0];
    assert(os[0] == (m.env, Ok::<ValueV<F>, HaltV>(LiteralValue::Float(f))));
}

/// `DECLARE FLOAT name [= i]` for an INT literal `i`, for a number type that
/// obeys its spec functions: where the name is new in the innermost scope,
/// the run goes on and the variable holds `i` widened by `from_int`, or,
/// without an initializer, the number type's zero.
pub proof fn law_float_declaration_value<F: FloatArith>(
    m: MState<F>,
    data_type: TokenV,
    name: TokenV,
    i: Option<i64>,
    os: Seq<EvalRes<F>>,
    m2: MState<F>,
    ev: EventV,
)
    requires
        F::obeys_arith_spec(),
        data_type.token_type == TokenType::<Seq<char>>::FloatType,
        m.env.len() > 0,
        !m.env[0].dom().contains(name.lexeme),
        start_rel(
            m,
            StmtView::Var {
                data_type,
                name,
                initializer: match i {
                    Some(k) => Some(Expr::Literal { value: LiteralValue::Int(k) }),
                    None => None,
                },
            },
            os,
            m2,
            ev,
        ),
    ensures
        ev == Event::<Seq<char>>::Continue,
        lookup(m2.env, name.lexeme) == Some(
            LiteralValue::<F, Seq<char>>::Float(
                match i {
                    Some(k) => F::from_int_spec(k),
                    None => F::zero_spec(),
                },
            ),
        ),
{
    if let Some(k) = i {
        let e = Expr::Literal { value: LiteralValue::<Seq<char>, Seq<char>>::Int(k) };
        let o = choose|o: EvalRes<F>| #[trigger] eval_may(e, m.env, o) && float_init_outcome(m, name, o, m2, ev);
        let t = choose|t: EvalTrace<F>| #[trigger] trace_ok(e, m.env, t) && trace_out(t) == o;
        assert(o == (m.env, Ok::<ValueV<F>, HaltV>(LiteralValue::Int(k))));
    }
}

fn runtime_error(tok: &Token, message: &str) -> (h: Halt)
    ensures
        halt_view(h) == Halt::<Seq<char>>::Error(RuntimeError { token: tok@, message: message@ }),
{
    Halt::Error(RuntimeError::new(tok.duplicate(), string_of(message)))
}

fn error_with_name(tok: &Token, before: &str, after: &str) -> (h: Halt)
    ensures
        halt_view(h) == Halt::<Seq<char>>::Error(RuntimeError { token: tok@, message: before@ + tok@.lexeme + after@ }),
{
    let mut m = string_of(before);
    push_all(&mut m, tok.lexeme.as_str());
    push_all(&mut m, after);
    Halt::Error(RuntimeError::new(tok.duplicate(), m))
}

fn int_op<F: FloatArith>(op: &Token, a: i64, b: i64) -> (r: Result<LiteralValue<F>, Halt>)
    ensures
        eval_r(r) == int_binary::<F>(op@, a, b),
{
    match op.token_type {
        TokenType::Plus => Ok(LiteralValue::Int(a.wrapping_add(b))),
        TokenType::Minus => Ok(LiteralValue::Int(a.wrapping_sub(b))),
        TokenType::Star => Ok(LiteralValue::Int(a.wrapping_mul(b))),
        TokenType::Slash => if b == 0 {
            Err(runtime_error(op, "Error, Division by 0"))
        } else {
            match a.checked_div(b) {
                Some(q) => Ok(LiteralValue::Int(q)),
                None => Err(Halt::Fault(Fault::DivideOverflow)),
            }
        },
        TokenType::Modulo => if b == 0 {
            Err(runtime_error(op, "Error, Modulo by 0"))
        } else {
            match a.checked_rem(b) {
                Some(q) => Ok(LiteralValue::Int(q)),
                None => Err(Halt::Fault(Fault::RemainderOverflow)),
            }
        },
        TokenType::Greater => Ok(LiteralValue::Bool(a > b)),
        TokenType::GreaterEqual => Ok(LiteralValue::Bool(a >= b)),
        TokenType::Less => Ok(LiteralValue::Bool(a < b)),
        TokenType::LessEqual => Ok(LiteralValue::Bool(a <= b)),
        _ => Err(Halt::Fault(Fault::Unreachable)),
    }
}

fn float_op<F: FloatArith>(op: &Token, a: F, b: F) -> (r: Result<LiteralValue<F>, Halt>)
    ensures
        float_binary_outcome(op@, a, b, eval_r(r)),
{
    match op.token_type {
        TokenType::Plus => Ok(LiteralValue::Float(a.add(b))),
        TokenType::Minus => Ok(LiteralValue::Float(a.sub(b))),
        TokenType::Star => Ok(LiteralValue::Float(a.mul(b))),
        TokenType::Slash => if b.is_zero() {
            Err(runtime_error(op, "Error, Division by 0"))
        } else {
            Ok(LiteralValue::Float(a.div(b)))
        },
        TokenType::Modulo => if b.is_zero() {
            Err(runtime_error(op, "Error, Modulo by 0"))
        } else {
            Ok(LiteralValue::Float(a.rem(b)))
        },
        TokenType::Greater => Ok(LiteralValue::Bool(a.greater(b))),
        TokenType::GreaterEqual => Ok(LiteralValue::Bool(a.greater_eq(b))),
        TokenType::Less => Ok(LiteralValue::Bool(a.less(b))),
        TokenType::LessEqual => Ok(LiteralValue::Bool(a.less_eq(b))),
        _ => Err(Halt::Fault(Fault::Unreachable)),
    }
}

/// A number as a FLOAT; an error at `op` for any other value.
fn as_double<F: FloatArith>(v: &LiteralValue<F>, op: &Token) -> (r: Result<F, Halt>)
    ensures
        r is Err <==> !is_number(value_view(*v)),
        r matches Err(h) ==> halt_view(h) == Halt::<Seq<char>>::Error(
            RuntimeError { token: op@, message: "Operand must be a number."@ },
        ),
        F::obeys_arith_spec() ==> (r matches Ok(x) ==> x == as_float(value_view(*v))),
{
    match v {
        LiteralValue::Int(i) => Ok(F::from_int(*i)),
        LiteralValue::Float(f) => Ok(*f),
        _ => Err(runtime_error(op, "Operand must be a number.")),
    }
}

/// Assigns `nv` to the variable `name` as an assignment does: checked
/// against the type of the value the variable holds.
fn assign_value<F: FloatArith>(env: &mut Environment<F>, name: &Token, nv: LiteralValue<F>) -> (r: Result<LiteralValue<F>, Halt>)
    ensures
        assign_may(old(env)@, name@, value_view(nv), (final(env)@, eval_r(r))),
{
    let ghost nvv = value_view(nv);
    let existing = match env.get(name) {
        Ok(v) => v,
        Err(e) => return Err(Halt::Error(e)),
    };
    let stored = match (&existing, &nv) {
        (LiteralValue::Int(_), LiteralValue::Float(f)) => {
            if f.is_whole() {
                LiteralValue::Int(f.to_int())
            } else {
                return Err(error_with_name(name, "type mismatch cannot assign to INT variable '", "'."));
            }
        },
        (LiteralValue::Int(_), LiteralValue::Int(_)) => nv,
        (LiteralValue::Int(_), _) => {
            return Err(error_with_name(name, "type mismatch cannot assign to INT variable '", "'."));
        },
        (LiteralValue::Float(_), LiteralValue::Float(_)) => nv,
        (LiteralValue::Float(_), LiteralValue::Int(i)) => LiteralValue::Float(F::from_int(*i)),
        (LiteralValue::Float(_), _) => {
            return Err(error_with_name(name, "type mismatch cannot assign to FLOAT variable '", "'."));
        },
        (LiteralValue::Bool(_), LiteralValue::Bool(_)) => nv,
        (LiteralValue::Bool(_), _) => {
            return Err(runtime_error(name, "type mismatch expected BOOL value."));
        },
        (LiteralValue::Char(_), LiteralValue::Char(_)) => nv,
        (LiteralValue::Char(_), _) => {
            return Err(runtime_error(name, "type mismatch expected CHAR value."));
        },
        _ => nv,
    };
    let ghost before = env@;
    let ghost w = value_view(stored);
    proof {
        crate::environment::law_assign_needs_declaration(before, name@.lexeme, w);
    }
    let result = stored.duplicate();
    let r = match env.assign(name, stored) {
        Ok(()) => Ok(result),
        Err(e) => Err(Halt::Error(e)),
    };
    assert(stores(before, name@, w, (env@, eval_r(r))));
    r
}

/// What a unary operator gives for `v`.
fn unary_value<F: FloatArith>(operator: &Token, v: LiteralValue<F>) -> (r: Result<LiteralValue<F>, Halt>)
    ensures
        unary_may(operator@, value_view(v), eval_r(r)),
{
    match operator.token_type {
        TokenType::Not => Ok(LiteralValue::Bool(!is_truthy(&v))),
        TokenType::Minus => match v {
            LiteralValue::Int(i) => Ok(LiteralValue::Int(0i64.wrapping_sub(i))),
            LiteralValue::Float(f) => Ok(LiteralValue::Float(f.neg())),
            _ => Err(runtime_error(operator, "operand must be a number.")),
        },
        TokenType::Plus => match v {
            LiteralValue::Int(i) => Ok(LiteralValue::Int(i)),
            LiteralValue::Float(f) => Ok(LiteralValue::Float(f)),
            _ => Err(runtime_error(operator, "operand must be a number.")),
        },
        _ => Err(Halt::Fault(Fault::Unreachable)),
    }
}

/// What a binary operator gives for `l` and `r`.
fn binary_value<F: FloatArith>(operator: &Token, l: LiteralValue<F>, r: LiteralValue<F>) -> (res: Result<LiteralValue<F>, Halt>)
    ensures
        binary_may(operator@, value_view(l), value_view(r), eval_r(res)),
{
    match operator.token_type {
        TokenType::Ampersand => {
            let mut s = stringify(&l);
            let t = stringify(&r);
            push_all(&mut s, t.as_str());
            Ok(LiteralValue::String(s))
        },
        TokenType::EqualEqual => Ok(LiteralValue::Bool(is_equal(&l, &r))),
        TokenType::NotEqual => Ok(LiteralValue::Bool(!is_equal(&l, &r))),
        _ => match (&l, &r) {
            (LiteralValue::Int(a), LiteralValue::Int(b)) => int_op(operator, *a, *b),
            _ => {
                let a = match as_double(&l, operator) {
                    Ok(x) => x,
                    Err(h) => return Err(h),
                };
                let b = match as_double(&r, operator) {
                    Ok(x) => x,
                    Err(h) => return Err(h),
                };
                float_op(operator, a, b)
            },
        },
    }
}

/// Evaluates `expr` in `env`, with the record of how it went.
fn evaluate_traced<F: FloatArith>(env: &mut Environment<F>, expr: &Expr) -> (res: (
    Result<LiteralValue<F>, Halt>,
    Ghost<EvalTrace<F>>,
))
    ensures
        trace_ok(expr@, old(env)@, res.1@),
        trace_out(res.1@) == (final(env)@, eval_r(res.0)),
    decreases expr,
{
    let ghost e0 = env@;
    match expr {
        Expr::Literal { value } => {
            let r = match value {
                LiteralValue::Int(i) => Ok(LiteralValue::Int(*i)),
                LiteralValue::Float(text) => Ok(LiteralValue::Float(F::from_literal(text.as_str()))),
                LiteralValue::String(s) => Ok(LiteralValue::String(s.clone())),
                LiteralValue::Char(c) => Ok(LiteralValue::Char(*c)),
                LiteralValue::Bool(b) => Ok(LiteralValue::Bool(*b)),
                LiteralValue::Nil => Ok(LiteralValue::Nil),
            };
            let ghost o = (env@, eval_r(r));
            (r, Ghost(EvalTrace::Leaf(o)))
        },
        Expr::Grouping { expression } => {
            let (r, Ghost(t1)) = evaluate_traced(env, expression);
            let ghost o = (env@, eval_r(r));
            (r, Ghost(EvalTrace::One(o, Box::new(t1))))
        },
        Expr::Variable { name } => {
            let r = match env.get(name) {
                Ok(v) => Ok(v),
                Err(e) => Err(Halt::Error(e)),
            };
            let ghost o = (env@, eval_r(r));
            (r, Ghost(EvalTrace::Leaf(o)))
        },
        Expr::Assign { name, value } => {
            let (r1, Ghost(t1)) = evaluate_traced(env, value);
            let r = match r1 {
                Ok(nv) => assign_value(env, name, nv),
                Err(h) => Err(h),
            };
            let ghost o = (env@, eval_r(r));
            (r, Ghost(EvalTrace::One(o, Box::new(t1))))
        },
        Expr::Logical { left, operator, right } => {
            let (r1, Ghost(t1)) = evaluate_traced(env, left);
            let l = match r1 {
                Ok(v) => v,
                Err(h) => {
                    let r = Err(h);
                    let ghost o = (env@, eval_r(r));
                    return (r, Ghost(EvalTrace::One(o, Box::new(t1))));
                },
            };
            let short = match operator.token_type {
                TokenType::Or => if is_truthy(&l) {
                    Some(Ok(LiteralValue::Bool(true)))
                } else {
                    None
                },
                TokenType::And => if !is_truthy(&l) {
                    Some(Ok(LiteralValue::Bool(false)))
                } else {
                    None
                },
                _ => Some(Err(Halt::Fault(Fault::Unreachable))),
            };
            if let Some(r) = short {
                let ghost o = (env@, eval_r(r));
                return (r, Ghost(EvalTrace::One(o, Box::new(t1))));
            }
            let (r2, Ghost(t2)) = evaluate_traced(env, right);
            let r = match r2 {
                Ok(v) => Ok(LiteralValue::Bool(is_truthy(&v))),
                Err(h) => Err(h),
            };
            let ghost o = (env@, eval_r(r));
            (r, Ghost(EvalTrace::Two(o, Box::new(t1), Box::new(t2))))
        },
        Expr::Unary { operator, right } => {
            let (r1, Ghost(t1)) = evaluate_traced(env, right);
            let r = match r1 {
                Ok(v) => unary_value(operator, v),
                Err(h) => Err(h),
            };
            let ghost o = (env@, eval_r(r));
            (r, Ghost(EvalTrace::One(o, Box::new(t1))))
        },
        Expr::Binary { left, operator, right } => {
            let (r1, Ghost(t1)) = evaluate_traced(env, left);
            let l = match r1 {
                Ok(v) => v,
                Err(h) => {
                    let r = Err(h);
                    let ghost o = (env@, eval_r(r));
                    return (r, Ghost(EvalTrace::One(o, Box::new(t1))));
                },
            };
            let (r2, Ghost(t2)) = evaluate_traced(env, right);
            let r = match r2 {
                Ok(v) => binary_value(operator, l, v),
                Err(h) => Err(h),
            };
            let ghost o = (env@, eval_r(r));
            (r, Ghost(EvalTrace::Two(o, Box::new(t1), Box::new(t2))))
        },
    }
}

/// Where `eval` gives an outcome, every outcome `eval_may` allows is that one.
proof fn lemma_trace_exact<F: FloatArith>(e: ExprV, env: Scopes<F>, t: EvalTrace<F>)
    requires
        trace_ok(e, env, t),
    ensures
        eval(e, env) matches Some(o) ==> trace_out(t) == o,
    decreases e,
{
    match e {
        Expr::Grouping { expression } => {
            if let EvalTrace::One(o, s) = t {
                lemma_trace_exact(*expression, env, *s);
            }
        },
        Expr::Assign { name, value } => {
            if let EvalTrace::One(o, s) = t {
                lemma_trace_exact(*value, env, *s);
            }
        },
        Expr::Logical { left, operator, right } => {
            match t {
                EvalTrace::One(o, s) => {
                    lemma_trace_exact(*left, env, *s);
                },
                EvalTrace::Two(o, s1, s2) => {
                    lemma_trace_exact(*left, env, *s1);
                    lemma_trace_exact(*right, trace_out(*s1).0, *s2);
                },
                _ => {},
            }
        },
        Expr::Unary { operator, right } => {
            if let EvalTrace::One(o, s) = t {
                lemma_trace_exact(*right, env, *s);
            }
        },
        Expr::Binary { left, operator, right } => {
            match t {
                EvalTrace::One(o, s) => {
                    lemma_trace_exact(*left, env, *s);
                },
                EvalTrace::Two(o, s1, s2) => {
                    lemma_trace_exact(*left, env, *s1);
                    lemma_trace_exact(*right, trace_out(*s1).0, *s2);
                },
                _ => {},
            }
        },
        _ => {},
    }
}

/// Evaluates `expr` in `env`.
pub fn evaluate<F: FloatArith>(env: &mut Environment<F>, expr: &Expr) -> (r: Result<LiteralValue<F>, Halt>)
    ensures
        eval(expr@, old(env)@) matches Some((e2, out)) ==> final(env)@ == e2 && eval_r(r) == out,
        eval_may(expr@, old(env)@, (final(env)@, eval_r(r))),
{
    let ghost e0 = env@;
    let (r, Ghost(t)) = evaluate_traced(env, expr);
    proof {
        lemma_trace_exact(expr@, e0, t);
    }
    r
}

/// A statement under way: the rest of a block, a REPEAT WHEN loop, or a FOR
/// loop (about to test its condition, or to run its increment).
#[derive(Clone, Copy)]
pub enum Frame<'a> {
    Block { statements: &'a Vec<Stmt>, next: usize, scoped: bool },
    Repeat { condition: &'a Expr, body: &'a Stmt },
    Loop { condition: &'a Expr, increment: &'a Expr, body: &'a Stmt, at_increment: bool },
}

pub enum FrameV {
    Block { statements: Seq<StmtView>, next: int, scoped: bool },
    Repeat { condition: ExprV, body: StmtView },
    Loop { condition: ExprV, increment: ExprV, body: StmtView, at_increment: bool },
}

pub open spec fn frame_view(f: Frame) -> FrameV {
    match f {
        Frame::Block { statements, next, scoped } => FrameV::Block {
            statements: stmts_view(statements@),
            next: next as int,
            scoped,
        },
        Frame::Repeat { condition, body } => FrameV::Repeat { condition: condition@, body: body@ },
        Frame::Loop { condition, increment, body, at_increment } => FrameV::Loop {
            condition: condition@,
            increment: increment@,
            body: body@,
            at_increment,
        },
    }
}

/// What one step of the interpreter gives: nothing to show, text to print,
/// a request for a line of input, the end of the program, a runtime error,
/// or a fault.
#[derive(Debug)]
pub enum Event<S = String> {
    Continue,
    Output(S),
    NeedInput,
    Finished,
    Failed(RuntimeError<S>),
    Fault(Fault),
}

pub type EventV = Event<Seq<char>>;

pub open spec fn event_view(e: Event) -> EventV {
    match e {
        Event::Continue => Event::Continue,
        Event::Output(s) => Event::Output(s@),
        Event::NeedInput => Event::NeedInput,
        Event::Finished => Event::Finished,
        Event::Failed(r) => Event::Failed(r@),
        Event::Fault(f) => Event::Fault(f),
    }
}

/// The state of a run: the scopes, the statements under way (innermost
/// last), and the SCAN waiting for input.
pub struct MState<F> {
    pub env: Scopes<F>,
    pub frames: Seq<FrameV>,
    pub pending: Option<(Seq<TokenV>, Seq<Seq<char>>)>,
}

pub type StepOut<F> = Option<(MState<F>, EventV)>;

pub open spec fn leave_scope<F: FloatArith>(m: MState<F>) -> MState<F> {
    MState { env: if m.env.len() > 1 { m.env.drop_first() } else { m.env }, ..m }
}

pub open spec fn enter_scope<F: FloatArith>(m: MState<F>) -> MState<F> {
    MState { env: seq![Map::empty()] + m.env, ..m }
}

/// A block that opened a scope and a FOR loop each own a scope.
pub open spec fn owns_scope(f: FrameV) -> bool {
    match f {
        FrameV::Block { scoped, .. } => scoped,
        FrameV::Repeat { .. } => false,
        FrameV::Loop { .. } => true,
    }
}

/// Drops every frame, innermost first, leaving the scopes they own.
pub open spec fn restore<F: FloatArith>(m: MState<F>) -> MState<F>
    decreases m.frames.len(),
{
    if m.frames.len() == 0 {
        m
    } else {
        let m1 = MState { frames: m.frames.drop_last(), ..m };
        restore(if owns_scope(m.frames.last()) { leave_scope(m1) } else { m1 })
    }
}

/// The run stops: every statement under way is dropped and the scopes it
/// entered are left.
pub open spec fn halted<F: FloatArith>(m: MState<F>, h: HaltV) -> (MState<F>, EventV) {
    (
        MState { pending: None, ..restore(m) },
        match h {
            Halt::Error(e) => Event::Failed(e),
            Halt::Fault(f) => Event::Fault(f),
        },
    )
}

pub open spec fn with_env<F: FloatArith>(m: MState<F>, env: Scopes<F>) -> MState<F> {
    MState { env, ..m }
}

/// The value a declaration of type `ty` starts with; `None` for FLOAT, whose
/// zero the number type gives, and for a token that names no type.
pub open spec fn default_value<F: FloatArith>(ty: TokenV) -> Option<ValueV<F>> {
    match ty.token_type {
        TokenType::IntType => Some(LiteralValue::Int(0)),
        TokenType::BoolType => Some(LiteralValue::Bool(false)),
        TokenType::CharType => Some(LiteralValue::Char(' ')),
        _ => None,
    }
}

/// The type check of an initializer: the error message where `v` does not
/// suit a variable that starts as `d`; `None` where the message holds the
/// debug text of a FLOAT.
pub open spec fn init_check<F: FloatArith>(d: ValueV<F>, v: ValueV<F>) -> Option<Result<(), Seq<char>>> {
    match (d, v) {
        (LiteralValue::Int(_), LiteralValue::Int(_)) => Some(Ok(())),
        (LiteralValue::Int(_), _) => match value_debug_text(v) {
            Some(t) => Some(Err("type mismatch cannot initialize INT with "@ + t)),
            None => None,
        },
        (LiteralValue::Bool(_), LiteralValue::Bool(_)) => Some(Ok(())),
        (LiteralValue::Bool(_), _) => Some(Err("type mismatch expected BOOL value."@)),
        (LiteralValue::Char(_), LiteralValue::Char(_)) => Some(Ok(())),
        (LiteralValue::Char(_), _) => Some(Err("type mismatch expected CHAR value."@)),
        _ => Some(Ok(())),
    }
}

/// `DECLARE`: the value defined in the innermost scope, or the error.
pub open spec fn declare<F: FloatArith>(m: MState<F>, name: TokenV, v: ValueV<F>) -> StepOut<F> {
    match define_scopes(m.env, name.lexeme, v) {
        Some(env2) => Some((with_env(m, env2), Event::Continue)),
        None => Some(halted(m, Halt::Error(RuntimeError { token: name, message: redefined_message(name.lexeme) }))),
    }
}

/// A FLOAT variable `name` declared in the innermost scope of `m`, with the
/// FLOAT value the number type gave; the error where that scope already
/// holds the name.
pub open spec fn float_defined<F: FloatArith>(m: MState<F>, name: TokenV, m2: MState<F>, ev: EventV) -> bool {
    if m.env.len() == 0 || m.env[0].dom().contains(name.lexeme) {
        (m2, ev) == halted(m, Halt::Error(RuntimeError { token: name, message: redefined_message(name.lexeme) }))
    } else {
        &&& m2.env.len() > 0
        &&& m2.env[0].dom().contains(name.lexeme)
        &&& m2.env[0][name.lexeme] is Float
        &&& declare(m, name, m2.env[0][name.lexeme]) == Some((m2, ev))
    }
}

/// `float_defined`, and where `w` is given and the name is new in the
/// innermost scope, the variable holds `w`.
pub open spec fn float_defined_with<F: FloatArith>(m: MState<F>, name: TokenV, w: Option<ValueV<F>>, m2: MState<F>, ev: EventV) -> bool {
    &&& float_defined(m, name, m2, ev)
    &&& match w {
        Some(x) => m.env.len() > 0 && !m.env[0].dom().contains(name.lexeme) ==> m2.env[0][name.lexeme] == x,
        None => true,
    }
}

/// How `DECLARE FLOAT name = initializer` ends once the initializer's
/// evaluation had the outcome `o`: its error stops the run; a FLOAT is
/// stored as it is; an INT is widened (for a number type that obeys its
/// spec functions, to the FLOAT `from_int` names); any other value is
/// refused.
pub open spec fn float_init_outcome<F: FloatArith>(m: MState<F>, name: TokenV, o: EvalRes<F>, m2: MState<F>, ev: EventV) -> bool {
    match o.1 {
        Err(h) => (m2, ev) == halted(with_env(m, o.0), h),
        Ok(v) => match v {
            LiteralValue::Float(_) => float_defined_with(with_env(m, o.0), name, Some(v), m2, ev),
            LiteralValue::Int(i) => float_defined_with(
                with_env(m, o.0),
                name,
                if F::obeys_arith_spec() {
                    Some(LiteralValue::Float(F::from_int_spec(i)))
                } else {
                    None
                },
                m2,
                ev,
            ),
            _ => value_debug_text(v) matches Some(t) && (m2, ev) == halted(
                with_env(m, o.0),
                Halt::Error(RuntimeError { token: name, message: "type mismatch cannot initialize FLOAT with "@ + t }),
            ),
        },
    }
}

/// How `DECLARE FLOAT name [= initializer]` can end, whatever values the
/// number type gives: the variable holds a FLOAT (an INT initializer is
/// widened; without an initializer, the number type's zero), or the
/// initializer's error stops the run, or an initializer that is no number
/// is refused.
pub open spec fn float_declaration_may<F: FloatArith>(m: MState<F>, name: TokenV, initializer: Option<ExprV>, m2: MState<F>, ev: EventV) -> bool {
    match initializer {
        None => float_defined_with(
            m,
            name,
            if F::obeys_arith_spec() {
                Some(LiteralValue::Float(F::zero_spec()))
            } else {
                None
            },
            m2,
            ev,
        ),
        Some(e) => exists|o: EvalRes<F>| #[trigger] eval_may(e, m.env, o) && float_init_outcome(m, name, o, m2, ev),
    }
}

/// Starts the statement `s`: runs what it does at once and leaves the rest
/// (a block's statements, a loop) as frames.
pub open spec fn start<F: FloatArith>(m: MState<F>, s: StmtView) -> StepOut<F>
    decreases s,
{
    match s {
        StmtView::Block { statements } => Some((
            MState {
                frames: m.frames.push(FrameV::Block { statements, next: 0, scoped: true }),
                ..enter_scope(m)
            },
            Event::Continue,
        )),
        StmtView::Expression { expression } => match eval(expression, m.env) {
            None => None,
            Some((env1, Err(h))) => Some(halted(with_env(m, env1), h)),
            Some((env1, Ok(_))) => Some((with_env(m, env1), Event::Continue)),
        },
        StmtView::If { condition, then_branch, else_branch } => match eval(condition, m.env) {
            None => None,
            Some((env1, Err(h))) => Some(halted(with_env(m, env1), h)),
            Some((env1, Ok(c))) => if truthy(c) {
                start(with_env(m, env1), *then_branch)
            } else {
                match else_branch {
                    Some(b) => start(with_env(m, env1), *b),
                    None => Some((with_env(m, env1), Event::Continue)),
                }
            },
        },
        StmtView::Print { expression } => match eval(expression, m.env) {
            None => None,
            Some((env1, Err(h))) => Some(halted(with_env(m, env1), h)),
            Some((env1, Ok(v))) => match value_text(v) {
                Some(t) => Some((with_env(m, env1), Event::Output(t))),
                None => None,
            },
        },
        StmtView::Scan { variables, types } => Some((
            MState { pending: Some((variables, types)), ..m },
            Event::NeedInput,
        )),
        StmtView::Var { data_type, name, initializer } => if data_type.token_type
            == TokenType::<Seq<char>>::FloatType {
            None
        } else {
            match default_value::<F>(data_type) {
                None => Some(halted(m, Halt::Fault(Fault::Unreachable))),
                Some(d) => match initializer {
                    None => declare(m, name, d),
                    Some(e) => match eval(e, m.env) {
                        None => None,
                        Some((env1, Err(h))) => Some(halted(with_env(m, env1), h)),
                        Some((env1, Ok(v))) => match init_check(d, v) {
                            None => None,
                            Some(Err(msg)) => Some(halted(
                                with_env(m, env1),
                                Halt::Error(RuntimeError { token: name, message: msg }),
                            )),
                            Some(Ok(())) => declare(with_env(m, env1), name, v),
                        },
                    },
                },
            }
        },
        StmtView::While { condition, body } => Some((
            MState { frames: m.frames.push(FrameV::Repeat { condition, body: *body }), ..m },
            Event::Continue,
        )),
        StmtView::For { initializer, condition, increment, body } => {
            let m1 = enter_scope(m);
            match eval(initializer, m1.env) {
                None => None,
                Some((env1, Err(h))) => Some(halted(leave_scope(with_env(m1, env1)), h)),
                Some((env1, Ok(_))) => Some((
                    MState {
                        frames: m1.frames.push(
                            FrameV::Loop { condition, increment, body: *body, at_increment: false },
                        ),
                        ..with_env(m1, env1)
                    },
                    Event::Continue,
                )),
            }
        },
    }
}

/// One step of a run.
pub open spec fn step_spec<F: FloatArith>(m: MState<F>) -> StepOut<F> {
    if m.pending is Some {
        Some((m, Event::NeedInput))
    } else if m.frames.len() == 0 {
        Some((m, Event::Finished))
    } else {
        let k = m.frames.len() - 1;
        match m.frames[k] {
            FrameV::Block { statements, next, scoped } => if next >= statements.len() {
                let m1 = MState { frames: m.frames.drop_last(), ..m };
                Some((if scoped { leave_scope(m1) } else { m1 }, Event::Continue))
            } else {
                let m1 = MState {
                    frames: m.frames.update(k, FrameV::Block { statements, next: next + 1, scoped }),
                    ..m
                };
                start(m1, statements[next])
            },
            FrameV::Repeat { condition, body } => match eval(condition, m.env) {
                None => None,
                Some((env1, Err(h))) => Some(halted(with_env(m, env1), h)),
                Some((env1, Ok(c))) => if truthy(c) {
                    start(with_env(m, env1), body)
                } else {
                    Some((MState { frames: m.frames.drop_last(), ..with_env(m, env1) }, Event::Continue))
                },
            },
            FrameV::Loop { condition, increment, body, at_increment } => if at_increment {
                match eval(increment, m.env) {
                    None => None,
                    Some((env1, Err(h))) => Some(halted(with_env(m, env1), h)),
                    Some((env1, Ok(_))) => Some((
                        MState {
                            frames: m.frames.update(
                                k,
                                FrameV::Loop { condition, increment, body, at_increment: false },
                            ),
                            ..with_env(m, env1)
                        },
                        Event::Continue,
                    )),
                }
            } else {
                match eval(condition, m.env) {
                    None => None,
                    Some((env1, Err(h))) => Some(halted(with_env(m, env1), h)),
                    Some((env1, Ok(c))) => if truthy(c) {
                        let m1 = MState {
                            frames: m.frames.update(
                                k,
                                FrameV::Loop { condition, increment, body, at_increment: true },
                            ),
                            ..with_env(m, env1)
                        };
                        start(m1, body)
                    } else {
                        Some((
                            leave_scope(MState { frames: m.frames.drop_last(), ..with_env(m, env1) }),
                            Event::Continue,
                        ))
                    },
                }
            },
        }
    }
}

/// `os[0]` is an outcome that evaluating `e` in `env` can have, whatever
/// values the number type gives.
pub open spec fn takes<F: FloatArith>(e: ExprV, env: Scopes<F>, os: Seq<EvalRes<F>>) -> bool {
    os.len() > 0 && eval_may(e, env, os[0])
}

/// The run stops because the evaluation with the outcome `o` failed.
pub open spec fn after_eval<F: FloatArith>(m: MState<F>, o: EvalRes<F>, m2: MState<F>, ev: EventV) -> bool {
    o.1 matches Err(h) && (m2, ev) == halted(with_env(m, o.0), h)
}

/// A declaration refused because its value does not fit: the run stops with
/// an error at the name whose message starts with `prefix` and goes on with
/// the text the number type gives of the value.
pub open spec fn refused_with_prefix<F: FloatArith>(m: MState<F>, name: TokenV, prefix: Seq<char>, m2: MState<F>, ev: EventV) -> bool {
    &&& m2 == halted(m, Halt::Error(RuntimeError { token: name, message: prefix })).0
    &&& ev matches Event::Failed(err) && err.token == name && prefix.is_prefix_of(err.message)
}

/// How starting the statement `s` can end, whatever values the number type
/// gives: `os` holds, in order, the outcome of each evaluation made (the
/// condition of an IF before the statements of its branch). Where no FLOAT
/// takes part this is `start`.
pub open spec fn start_rel<F: FloatArith>(m: MState<F>, s: StmtView, os: Seq<EvalRes<F>>, m2: MState<F>, ev: EventV) -> bool
    decreases s,
{
    match s {
        StmtView::Block { statements } => (m2, ev) == (
            MState { frames: m.frames.push(FrameV::Block { statements, next: 0, scoped: true }), ..enter_scope(m) },
            Event::<Seq<char>>::Continue,
        ),
        StmtView::Expression { expression } => takes(expression, m.env, os) && (after_eval(m, os[0], m2, ev) || (
        os[0].1 is Ok && (m2, ev) == (with_env(m, os[0].0), Event::<Seq<char>>::Continue))),
        StmtView::If { condition, then_branch, else_branch } => takes(condition, m.env, os) && (after_eval(
            m,
            os[0],
            m2,
            ev,
        ) || (os[0].1 matches Ok(c) && if truthy(c) {
            start_rel(with_env(m, os[0].0), *then_branch, os.drop_first(), m2, ev)
        } else {
            match else_branch {
                Some(b) => start_rel(with_env(m, os[0].0), *b, os.drop_first(), m2, ev),
                None => (m2, ev) == (with_env(m, os[0].0), Event::<Seq<char>>::Continue),
            }
        })),
        StmtView::Print { expression } => takes(expression, m.env, os) && (after_eval(m, os[0], m2, ev) || (
        os[0].1 matches Ok(v) && m2 == with_env(m, os[0].0) && match value_text(v) {
            Some(t) => ev == Event::<Seq<char>>::Output(t),
            None => ev is Output && (F::obeys_arith_spec() ==> ev == Event::<Seq<char>>::Output(printed_text(v))),
        })),
        StmtView::Scan { variables, types } => (m2, ev) == (
            MState { pending: Some((variables, types)), ..m },
            Event::<Seq<char>>::NeedInput,
        ),
        StmtView::Var { data_type, name, initializer } => if data_type.token_type
            == TokenType::<Seq<char>>::FloatType {
            float_declaration_may(m, name, initializer, m2, ev)
        } else {
            match default_value::<F>(data_type) {
                None => (m2, ev) == halted(m, Halt::Fault(Fault::Unreachable)),
                Some(d) => match initializer {
                    None => declare(m, name, d) == Some((m2, ev)),
                    Some(e) => takes(e, m.env, os) && (after_eval(m, os[0], m2, ev) || (os[0].1 matches Ok(v)
                        && match init_check(d, v) {
                        Some(Err(msg)) => (m2, ev) == halted(
                            with_env(m, os[0].0),
                            Halt::Error(RuntimeError { token: name, message: msg }),
                        ),
                        Some(Ok(())) => declare(with_env(m, os[0].0), name, v) == Some((m2, ev)),
                        None => refused_with_prefix(
                            with_env(m, os[0].0),
                            name,
                            "type mismatch cannot initialize INT with "@,
                            m2,
                            ev,
                        ) && (F::obeys_arith_spec() ==> ev == Event::<Seq<char>>::Failed(
                            RuntimeError { token: name, message: "type mismatch cannot initialize INT with "@ + debugged_text(v) },
                        )),
                    })),
                },
            }
        },
        StmtView::While { condition, body } => (m2, ev) == (
            MState { frames: m.frames.push(FrameV::Repeat { condition, body: *body }), ..m },
            Event::<Seq<char>>::Continue,
        ),
        StmtView::For { initializer, condition, increment, body } => takes(initializer, enter_scope(m).env, os) && (
        (os[0].1 matches Err(h) && (m2, ev) == halted(leave_scope(with_env(enter_scope(m), os[0].0)), h)) || (
        os[0].1 is Ok && (m2, ev) == (
            MState {
                frames: m.frames.push(FrameV::Loop { condition, increment, body: *body, at_increment: false }),
                ..with_env(enter_scope(m), os[0].0)
            },
            Event::<Seq<char>>::Continue,
        ))),
    }
}

/// How one step of a run can end, whatever values the number type gives:
/// `os` holds the outcomes of the evaluations the step makes, in order.
/// Where no FLOAT takes part this is `step_spec`.
pub open spec fn step_rel<F: FloatArith>(m: MState<F>, os: Seq<EvalRes<F>>, m2: MState<F>, ev: EventV) -> bool {
    if m.pending is Some {
        (m2, ev) == (m, Event::<Seq<char>>::NeedInput)
    } else if m.frames.len() == 0 {
        (m2, ev) == (m, Event::<Seq<char>>::Finished)
    } else {
        let k = m.frames.len() - 1;
        match m.frames[k] {
            FrameV::Block { statements, next, scoped } => if next >= statements.len() {
                let m1 = MState { frames: m.frames.drop_last(), ..m };
                (m2, ev) == (if scoped { leave_scope(m1) } else { m1 }, Event::<Seq<char>>::Continue)
            } else {
                let m1 = MState {
                    frames: m.frames.update(k, FrameV::Block { statements, next: next + 1, scoped }),
                    ..m
                };
                start_rel(m1, statements[next], os, m2, ev)
            },
            FrameV::Repeat { condition, body } => takes(condition, m.env, os) && (after_eval(m, os[0], m2, ev) || (
            os[0].1 matches Ok(c) && if truthy(c) {
                start_rel(with_env(m, os[0].0), body, os.drop_first(), m2, ev)
            } else {
                (m2, ev) == (
                    MState { frames: m.frames.drop_last(), ..with_env(m, os[0].0) },
                    Event::<Seq<char>>::Continue,
                )
            })),
            FrameV::Loop { condition, increment, body, at_increment } => if at_increment {
                takes(increment, m.env, os) && (after_eval(m, os[0], m2, ev) || (os[0].1 is Ok && (m2, ev) == (
                    MState {
                        frames: m.frames.update(k, FrameV::Loop { condition, increment, body, at_increment: false }),
                        ..with_env(m, os[0].0)
                    },
                    Event::<Seq<char>>::Continue,
                )))
            } else {
                takes(condition, m.env, os) && (after_eval(m, os[0], m2, ev) || (os[0].1 matches Ok(c) && if truthy(
                    c,
                ) {
                    start_rel(
                        MState {
                            frames: m.frames.update(k, FrameV::Loop { condition, increment, body, at_increment: true }),
                            ..with_env(m, os[0].0)
                        },
                        body,
                        os.drop_first(),
                        m2,
                        ev,
                    )
                } else {
                    (m2, ev) == (
                        leave_scope(MState { frames: m.frames.drop_last(), ..with_env(m, os[0].0) }),
                        Event::<Seq<char>>::Continue,
                    )
                }))
            },
        }
    }
}

/// The values typed in for the variables of a SCAN, from the `i`-th on:
/// each piece converted to its variable's type and assigned.
pub open spec fn scan_assign<F: FloatArith>(
    m: MState<F>,
    vars: Seq<TokenV>,
    types: Seq<Seq<char>>,
    parts: Seq<Seq<char>>,
    i: int,
) -> StepOut<F>
    decreases vars.len() - i,
{
    if i >= vars.len() || i < 0 || i >= parts.len() {
        Some((m, Event::Continue))
    } else if i >= types.len() {
        Some(halted(m, Halt::Fault(Fault::MissingScanType)))
    } else {
        match scanned_value::<F>(trim(parts[i]), types[i], vars[i].lexeme) {
            None => None,
            Some(Err(msg)) => Some(halted(m, Halt::Error(RuntimeError { token: vars[i], message: msg }))),
            Some(Ok(v)) => match assign_scopes(m.env, vars[i].lexeme, v) {
                Some(env2) => scan_assign(with_env(m, env2), vars, types, parts, i + 1),
                None => Some(halted(
                    m,
                    Halt::Error(RuntimeError { token: vars[i], message: undefined_message(vars[i].lexeme) }),
                )),
            },
        }
    }
}

/// A line of input handed to the SCAN that waits for it: the line is cut at
/// commas, and each variable gets its piece.
pub open spec fn input_spec<F: FloatArith>(m: MState<F>, line: Seq<char>) -> StepOut<F> {
    match m.pending {
        None => Some((m, Event::Continue)),
        Some((vars, types)) => {
            let m0 = MState { pending: None, ..m };
            let parts = split_commas(trim(line));
            if parts.len() < vars.len() {
                Some(halted(
                    m0,
                    Halt::Error(RuntimeError {
                        token: vars[0],
                        message: "insufficient input for SCAN. Expected "@ + nat_text(vars.len()) + " values."@,
                    }),
                ))
            } else {
                scan_assign(m0, vars, types, parts, 0)
            }
        },
    }
}


/// The value a SCAN makes of the typed-in `piece` for a variable of type
/// `ty`. Where the type is FLOAT, a number type that obeys its spec
/// functions gives the FLOAT it reads from the piece, or the error where it
/// reads none; for any other, `chosen` stands for what it made of the piece:
/// a FLOAT where the text converted, any other value where it did not.
pub open spec fn scan_piece<F: FloatArith>(piece: Seq<char>, ty: Seq<char>, lexeme: Seq<char>, chosen: ValueV<F>) -> Result<ValueV<F>, Seq<char>> {
    match scanned_value::<F>(piece, ty, lexeme) {
        Some(x) => x,
        None => if F::obeys_arith_spec() {
            match F::parsed_spec(piece) {
                Some(f) => Ok(LiteralValue::Float(f)),
                None => Err("type mismatch cannot convert '"@ + piece + "' to FLOAT."@),
            }
        } else if chosen is Float {
            Ok(chosen)
        } else {
            Err("type mismatch cannot convert '"@ + piece + "' to FLOAT."@)
        },
    }
}

/// The assignments of a SCAN from the `i`-th variable on, with `chosen[j]`
/// standing for what the number type made of the `j`-th piece.
pub open spec fn scan_assign_with<F: FloatArith>(
    m: MState<F>,
    vars: Seq<TokenV>,
    types: Seq<Seq<char>>,
    parts: Seq<Seq<char>>,
    i: int,
    chosen: Seq<ValueV<F>>,
) -> StepOut<F>
    decreases vars.len() - i,
{
    if i >= vars.len() || i < 0 || i >= parts.len() {
        Some((m, Event::Continue))
    } else if i >= types.len() {
        Some(halted(m, Halt::Fault(Fault::MissingScanType)))
    } else {
        match scan_piece::<F>(trim(parts[i]), types[i], vars[i].lexeme, chosen[i]) {
            Err(msg) => Some(halted(m, Halt::Error(RuntimeError { token: vars[i], message: msg }))),
            Ok(v) => match assign_scopes(m.env, vars[i].lexeme, v) {
                Some(env2) => scan_assign_with(with_env(m, env2), vars, types, parts, i + 1, chosen),
                None => Some(halted(
                    m,
                    Halt::Error(RuntimeError { token: vars[i], message: undefined_message(vars[i].lexeme) }),
                )),
            },
        }
    }
}

/// A line of input handed to the waiting SCAN, with `chosen` standing for
/// what the number type makes of the pieces for FLOAT variables.
pub open spec fn input_with<F: FloatArith>(m: MState<F>, line: Seq<char>, chosen: Seq<ValueV<F>>) -> StepOut<F> {
    match m.pending {
        None => Some((m, Event::Continue)),
        Some((vars, types)) => {
            let m0 = MState { pending: None, ..m };
            let parts = split_commas(trim(line));
            if parts.len() < vars.len() {
                Some(halted(
                    m0,
                    Halt::Error(RuntimeError {
                        token: vars[0],
                        message: "insufficient input for SCAN. Expected "@ + nat_text(vars.len()) + " values."@,
                    }),
                ))
            } else {
                scan_assign_with(m0, vars, types, parts, 0, chosen)
            }
        },
    }
}

pub open spec fn pending_view(p: Option<(&Vec<Token>, &Vec<String>)>) -> Option<(Seq<TokenV>, Seq<Seq<char>>)> {
    match p {
        Some((v, t)) => Some((crate::lexer::tokens_view(v@), t@.map_values(|x: String| x@))),
        None => None,
    }
}

pub open spec fn frames_view(v: Seq<Frame>) -> Seq<FrameV> {
    v.map_values(|f: Frame| frame_view(f))
}

fn owns_scope_exec(f: &Frame) -> (r: bool)
    ensures
        r == owns_scope(frame_view(*f)),
{
    match f {
        Frame::Block { scoped, .. } => *scoped,
        Frame::Repeat { .. } => false,
        Frame::Loop { .. } => true,
    }
}

/// The tree-walking interpreter, run one step at a time so that the program
/// around it can print and read between steps.
pub struct Interpreter<'a, F> {
    pub environment: Environment<F>,
    frames: Vec<Frame<'a>>,
    pending: Option<(&'a Vec<Token>, &'a Vec<String>)>,
}

impl<'a, F> View for Interpreter<'a, F> {
    type V = MState<F>;

    closed spec fn view(&self) -> MState<F> {
        MState { env: self.environment@, frames: frames_view(self.frames@), pending: pending_view(self.pending) }
    }
}

impl<'a, F: FloatArith> Interpreter<'a, F> {
    /// An interpreter with an empty global scope and nothing to run.
    pub fn new() -> (i: Self)
        ensures
            i@ == (MState::<F> {
                env: seq![Map::<Seq<char>, ValueV<F>>::empty()],
                frames: Seq::empty(),
                pending: None,
            }),
    {
        let i = Interpreter { environment: Environment::new(), frames: Vec::new(), pending: None };
        assert(frames_view(i.frames@) =~= Seq::empty());
        i
    }

    /// Sets the interpreter to run `statements` from the first one, in the
    /// scopes it has.
    pub fn begin(&mut self, statements: &'a Vec<Stmt>)
        ensures
            final(self)@ == (MState::<F> {
                env: old(self)@.env,
                frames: seq![FrameV::Block { statements: stmts_view(statements@), next: 0, scoped: false }],
                pending: None,
            }),
    {
        let mut frames: Vec<Frame<'a>> = Vec::new();
        frames.push(Frame::Block { statements, next: 0, scoped: false });
        self.frames = frames;
        self.pending = None;
        assert(frames_view(self.frames@) =~= seq![
            FrameV::Block { statements: stmts_view(statements@), next: 0, scoped: false },
        ]);
    }

    /// A SCAN waits for a line of input.
    pub fn waits_for_input(&self) -> (r: bool)
        ensures
            r == (self@.pending is Some),
    {
        self.pending.is_some()
    }

    fn leave(&mut self)
        ensures
            final(self)@ == leave_scope(old(self)@),
    {
        self.environment.exit_scope();
    }

    fn enter(&mut self)
        ensures
            final(self)@ == enter_scope(old(self)@),
    {
        self.environment.enter_scope();
    }

    fn pop_frame(&mut self)
        requires
            old(self).frames@.len() > 0,
        ensures
            final(self)@ == (MState { frames: old(self)@.frames.drop_last(), ..old(self)@ }),
    {
        let ghost before = self.frames@;
        self.frames.pop();
        assert(frames_view(self.frames@) =~= frames_view(before).drop_last());
    }

    fn push_frame(&mut self, f: Frame<'a>)
        ensures
            final(self)@ == (MState { frames: old(self)@.frames.push(frame_view(f)), ..old(self)@ }),
    {
        let ghost before = self.frames@;
        self.frames.push(f);
        assert(frames_view(self.frames@) =~= frames_view(before).push(frame_view(f)));
    }

    fn set_top(&mut self, f: Frame<'a>)
        requires
            old(self).frames@.len() > 0,
        ensures
            final(self)@ == (MState {
                frames: old(self)@.frames.update(old(self)@.frames.len() - 1, frame_view(f)),
                ..old(self)@
            }),
    {
        let ghost before = self.frames@;
        let n = self.frames.len();
        self.frames.set(n - 1, f);
        assert(frames_view(self.frames@) =~= frames_view(before).update(n - 1, frame_view(f)));
    }

    /// Stops the run: drops every frame, leaving the scopes they own.
    fn halt(&mut self, h: Halt) -> (e: Event)
        ensures
            (final(self)@, event_view(e)) == halted(old(self)@, halt_view(h)),
    {
        while self.frames.len() > 0
            invariant
                restore(self@) == restore(old(self)@),
            decreases self.frames@.len(),
        {
            let n = self.frames.len();
            let last = self.frames[n - 1];
            assert(self@.frames.last() == frame_view(last));
            self.pop_frame();
            if owns_scope_exec(&last) {
                self.leave();
            }
        }
        self.pending = None;
        match h {
            Halt::Error(e) => Event::Failed(e),
            Halt::Fault(f) => Event::Fault(f),
        }
    }

    fn define_var(&mut self, name: &Token, v: LiteralValue<F>) -> (e: Event)
        ensures
            declare(old(self)@, name@, value_view(v)) matches Some((m2, ev)) ==> final(self)@ == m2
                && event_view(e) == ev,
    {
        match self.environment.define(name, v) {
            Ok(()) => Event::Continue,
            Err(err) => self.halt(Halt::Error(err)),
        }
    }

    /// Starts the statement `s`.
    #[verifier::rlimit(40)]
    fn start(&mut self, s: &'a Stmt) -> (e: Event)
        ensures
            start(old(self)@, s@) matches Some((m2, ev)) ==> final(self)@ == m2 && event_view(e) == ev,
            exists|os: Seq<EvalRes<F>>| #[trigger] start_rel(old(self)@, s@, os, final(self)@, event_view(e)),
        decreases s,
    {
        let ghost m0 = self@;
        match s {
            Stmt::Block { statements } => {
                self.push_frame(Frame::Block { statements, next: 0, scoped: true });
                self.enter();
                let e = Event::Continue;
                assert(start_rel(m0, s@, Seq::empty(), self@, event_view(e)));
                e
            },
            Stmt::Expression { expression } => {
                let r = evaluate(&mut self.environment, expression);
                let ghost os = seq![(self@.env, eval_r(r))];
                let e = match r {
                    Ok(_) => Event::Continue,
                    Err(h) => self.halt(h),
                };
                assert(start_rel(m0, s@, os, self@, event_view(e)));
                e
            },
            Stmt::If { condition, then_branch, else_branch } => {
                let r = evaluate(&mut self.environment, condition);
                let ghost o = (self@.env, eval_r(r));
                let ghost m1 = self@;
                let c = match r {
                    Ok(v) => v,
                    Err(h) => {
                        let e = self.halt(h);
                        assert(start_rel(m0, s@, seq![o], self@, event_view(e)));
                        return e;
                    },
                };
                if is_truthy(&c) {
                    let e = self.start(then_branch);
                    proof {
                        let os2 = choose|os: Seq<EvalRes<F>>| #[trigger] start_rel(m1, (**then_branch)@, os, self@, event_view(e));
                        assert((seq![o] + os2).drop_first() =~= os2);
                        assert(start_rel(m0, s@, seq![o] + os2, self@, event_view(e)));
                    }
                    e
                } else {
                    match else_branch {
                        Some(b) => {
                            let e = self.start(b);
                            proof {
                                let os2 = choose|os: Seq<EvalRes<F>>| #[trigger] start_rel(m1, (**b)@, os, self@, event_view(e));
                                assert((seq![o] + os2).drop_first() =~= os2);
                                assert(start_rel(m0, s@, seq![o] + os2, self@, event_view(e)));
                            }
                            e
                        },
                        None => {
                            let e = Event::Continue;
                            assert(start_rel(m0, s@, seq![o], self@, event_view(e)));
                            e
                        },
                    }
                }
            },
            Stmt::Print { expression } => {
                let r = evaluate(&mut self.environment, expression);
                let ghost os = seq![(self@.env, eval_r(r))];
                let v = match r {
                    Ok(v) => v,
                    Err(h) => {
                        let e = self.halt(h);
                        assert(start_rel(m0, s@, os, self@, event_view(e)));
                        return e;
                    },
                };
                let e = Event::Output(stringify(&v));
                assert(start_rel(m0, s@, os, self@, event_view(e)));
                e
            },
            Stmt::Scan { variables, types } => {
                self.pending = Some((variables, types));
                let e = Event::NeedInput;
                assert(start_rel(m0, s@, Seq::empty(), self@, event_view(e)));
                e
            },
            Stmt::Var { data_type, name, initializer } => {
                let default = match data_type.token_type {
                    TokenType::IntType => LiteralValue::Int(0),
                    TokenType::FloatType => LiteralValue::Float(F::zero()),
                    TokenType::BoolType => LiteralValue::Bool(false),
                    TokenType::CharType => LiteralValue::Char(' '),
                    _ => {
                        let e = self.halt(Halt::Fault(Fault::Unreachable));
                        assert(start_rel(m0, s@, Seq::empty(), self@, event_view(e)));
                        return e;
                    },
                };
                match initializer {
                    None => {
                        let e = self.define_var(name, default);
                        assert(start_rel(m0, s@, Seq::empty(), self@, event_view(e)));
                        e
                    },
                    Some(init) => {
                        let r = evaluate(&mut self.environment, init);
                        let ghost os = seq![(self@.env, eval_r(r))];
                        let v = match r {
                            Ok(v) => v,
                            Err(h) => {
                                let e = self.halt(h);
                                assert(start_rel(m0, s@, os, self@, event_view(e)));
                                return e;
                            },
                        };
                        let problem: Option<String> = match (&default, &v) {
                            (LiteralValue::Int(_), LiteralValue::Int(_)) => None,
                            (LiteralValue::Int(_), _) => {
                                let mut m = string_of("type mismatch cannot initialize INT with ");
                                let t = debug_value(&v);
                                push_all(&mut m, t.as_str());
                                assert("type mismatch cannot initialize INT with "@.is_prefix_of(m@)) by {
                                    assert(m@.subrange(0, "type mismatch cannot initialize INT with "@.len() as int)
                                        =~= "type mismatch cannot initialize INT with "@);
                                }
                                Some(m)
                            },
                            (LiteralValue::Float(_), LiteralValue::Float(_)) => None,
                            (LiteralValue::Float(_), LiteralValue::Int(_)) => None,
                            (LiteralValue::Float(_), _) => {
                                let mut m = string_of("type mismatch cannot initialize FLOAT with ");
                                let t = debug_value(&v);
                                push_all(&mut m, t.as_str());
                                Some(m)
                            },
                            (LiteralValue::Bool(_), LiteralValue::Bool(_)) => None,
                            (LiteralValue::Bool(_), _) => Some(string_of("type mismatch expected BOOL value.")),
                            (LiteralValue::Char(_), LiteralValue::Char(_)) => None,
                            (LiteralValue::Char(_), _) => Some(string_of("type mismatch expected CHAR value.")),
                            _ => None,
                        };
                        match problem {
                            Some(m) => {
                                let e = self.halt(Halt::Error(RuntimeError::new(name.duplicate(), m)));
                                assert(start_rel(m0, s@, os, self@, event_view(e)));
                                e
                            },
                            None => {
                                let stored = match (&default, &v) {
                                    (LiteralValue::Float(_), LiteralValue::Int(i)) => LiteralValue::Float(F::from_int(*i)),
                                    _ => v,
                                };
                                let e = self.define_var(name, stored);
                                assert(start_rel(m0, s@, os, self@, event_view(e)));
                                e
                            },
                        }
                    },
                }
            },
            Stmt::While { condition, body } => {
                self.push_frame(Frame::Repeat { condition, body });
                let e = Event::Continue;
                assert(start_rel(m0, s@, Seq::empty(), self@, event_view(e)));
                e
            },
            Stmt::For { initializer, condition, increment, body } => {
                self.enter();
                let r = evaluate(&mut self.environment, initializer);
                let ghost os = seq![(self@.env, eval_r(r))];
                let e = match r {
                    Ok(_) => {
                        self.push_frame(Frame::Loop { condition, increment, body, at_increment: false });
                        Event::Continue
                    },
                    Err(h) => {
                        self.leave();
                        self.halt(h)
                    },
                };
                assert(start_rel(m0, s@, os, self@, event_view(e)));
                e
            },
        }
    }

    /// Runs one step: starts the next statement of the innermost block, or
    /// tests a loop's condition, or runs a FOR loop's increment, or ends a
    /// block or loop. While a SCAN waits for input the step does nothing
    /// but say so.
    #[verifier::rlimit(40)]
    pub fn step(&mut self) -> (e: Event)
        ensures
            step_spec(old(self)@) matches Some((m2, ev)) ==> final(self)@ == m2 && event_view(e) == ev,
            exists|os: Seq<EvalRes<F>>| #[trigger] step_rel(old(self)@, os, final(self)@, event_view(e)),
    {
        let ghost m0 = self@;
        if self.pending.is_some() {
            let e = Event::NeedInput;
            assert(step_rel(m0, Seq::empty(), self@, event_view(e)));
            return e;
        }
        let n = self.frames.len();
        if n == 0 {
            let e = Event::Finished;
            assert(step_rel(m0, Seq::empty(), self@, event_view(e)));
            return e;
        }
        let top = self.frames[n - 1];
        assert(self@.frames[n - 1] == frame_view(top));
        match top {
            Frame::Block { statements, next, scoped } => {
                proof { lemma_stmts_view_len(statements@); }
                if next >= statements.len() {
                    self.pop_frame();
                    if scoped {
                        self.leave();
                    }
                    let e = Event::Continue;
                    assert(step_rel(m0, Seq::empty(), self@, event_view(e)));
                    e
                } else {
                    proof { lemma_stmts_view_index(statements@, next as int); }
                    self.set_top(Frame::Block { statements, next: next + 1, scoped });
                    let ghost m1 = self@;
                    let e = self.start(&statements[next]);
                    proof {
                        let os = choose|os: Seq<EvalRes<F>>| #[trigger] start_rel(m1, statements@[next as int]@, os, self@, event_view(e));
                        assert(step_rel(m0, os, self@, event_view(e)));
                    }
                    e
                }
            },
            Frame::Repeat { condition, body } => {
                let r = evaluate(&mut self.environment, condition);
                let ghost o = (self@.env, eval_r(r));
                let ghost m1 = self@;
                let c = match r {
                    Ok(v) => v,
                    Err(h) => {
                        let e = self.halt(h);
                        assert(step_rel(m0, seq![o], self@, event_view(e)));
                        return e;
                    },
                };
                if is_truthy(&c) {
                    let e = self.start(body);
                    proof {
                        let os2 = choose|os: Seq<EvalRes<F>>| #[trigger] start_rel(m1, (*body)@, os, self@, event_view(e));
                        assert((seq![o] + os2).drop_first() =~= os2);
                        assert(step_rel(m0, seq![o] + os2, self@, event_view(e)));
                    }
                    e
                } else {
                    self.pop_frame();
                    let e = Event::Continue;
                    assert(step_rel(m0, seq![o], self@, event_view(e)));
                    e
                }
            },
            Frame::Loop { condition, increment, body, at_increment } => {
                if at_increment {
                    let r = evaluate(&mut self.environment, increment);
                    let ghost o = (self@.env, eval_r(r));
                    let e = match r {
                        Ok(_) => {
                            self.set_top(Frame::Loop { condition, increment, body, at_increment: false });
                            Event::Continue
                        },
                        Err(h) => self.halt(h),
                    };
                    assert(step_rel(m0, seq![o], self@, event_view(e)));
                    e
                } else {
                    let r = evaluate(&mut self.environment, condition);
                    let ghost o = (self@.env, eval_r(r));
                    let c = match r {
                        Ok(v) => v,
                        Err(h) => {
                            let e = self.halt(h);
                            assert(step_rel(m0, seq![o], self@, event_view(e)));
                            return e;
                        },
                    };
                    if is_truthy(&c) {
                        self.set_top(Frame::Loop { condition, increment, body, at_increment: true });
                        let ghost m1 = self@;
                        let e = self.start(body);
                        proof {
                            let os2 = choose|os: Seq<EvalRes<F>>| #[trigger] start_rel(m1, (*body)@, os, self@, event_view(e));
                            assert((seq![o] + os2).drop_first() =~= os2);
                            assert(step_rel(m0, seq![o] + os2, self@, event_view(e)));
                        }
                        e
                    } else {
                        self.pop_frame();
                        self.leave();
                        let e = Event::Continue;
                        assert(step_rel(m0, seq![o], self@, event_view(e)));
                        e
                    }
                }
            },
        }
    }

    /// Hands a line of input to the SCAN that waits for it.
    pub fn provide_input(&mut self, line: &str) -> (e: Event)
        ensures
            input_spec(old(self)@, line@) matches Some((m2, ev)) ==> final(self)@ == m2 && event_view(e) == ev,
            exists|c: Seq<ValueV<F>>| #[trigger] input_with(old(self)@, line@, c) == Some((final(self)@, event_view(e))),
    {
        let (vars, types) = match self.pending {
            None => {
                assert(input_with(self@, line@, Seq::empty()) == Some((self@, event_view(Event::Continue))));
                return Event::Continue;
            },
            Some(p) => p,
        };
        self.pending = None;
        let ghost m0 = self@;
        let ghost vv = crate::lexer::tokens_view(vars@);
        let ghost tv = types@.map_values(|x: String| x@);
        let chars = chars_of(line);
        let trimmed = trim_chars(&chars);
        let parts = split_at_commas(&trimmed);
        let ghost pv = pieces_view(parts@);
        if parts.len() < vars.len() {
            let mut m = string_of("insufficient input for SCAN. Expected ");
            let count = usize_to_text(vars.len());
            push_all(&mut m, count.as_str());
            push_all(&mut m, " values.");
            let e = self.halt(Halt::Error(RuntimeError::new(vars[0].duplicate(), m)));
            assert(input_with(old(self)@, line@, Seq::empty()) == Some((self@, event_view(e))));
            return e;
        }
        assert(input_spec(old(self)@, line@) == scan_assign(m0, vv, tv, pv, 0));
        assert(forall|c: Seq<ValueV<F>>| #[trigger] input_with(old(self)@, line@, c) == scan_assign_with(m0, vv, tv, pv, 0, c));
        let ghost mut chosen: Seq<ValueV<F>> = Seq::empty();
        let mut i: usize = 0;
        while i < vars.len()
            invariant
                i <= vars@.len() <= parts@.len(),
                input_spec(old(self)@, line@) == scan_assign(m0, vv, tv, pv, 0),
                forall|c: Seq<ValueV<F>>| #[trigger] input_with(old(self)@, line@, c) == scan_assign_with(m0, vv, tv, pv, 0, c),
                vv == crate::lexer::tokens_view(vars@),
                tv == types@.map_values(|x: String| x@),
                pv == pieces_view(parts@),
                scan_assign(m0, vv, tv, pv, 0) is Some ==> scan_assign(self@, vv, tv, pv, i as int)
                    == scan_assign(m0, vv, tv, pv, 0),
                chosen.len() == i,
                forall|c: Seq<ValueV<F>>| c.len() >= i && c.subrange(0, i as int) == chosen ==> #[trigger] scan_assign_with(
                    m0,
                    vv,
                    tv,
                    pv,
                    0,
                    c,
                ) == scan_assign_with(self@, vv, tv, pv, i as int, c),
            decreases vars@.len() - i,
        {
            assert(tv.len() == types@.len());
            assert(vv.len() == vars@.len());
            assert(pv.len() == parts@.len());
            let ghost cur = self@;
            let ghost pad = chosen.push(LiteralValue::<F, Seq<char>>::Nil);
            assert(pad.subrange(0, i as int) =~= chosen);
            if i >= types.len() {
                let e = self.halt(Halt::Fault(Fault::MissingScanType));
                assert(scan_assign_with(m0, vv, tv, pv, 0, pad) == scan_assign_with(cur, vv, tv, pv, i as int, pad));
                assert(input_with(old(self)@, line@, pad) == Some((self@, event_view(e))));
                return e;
            }
            let piece = trim_chars(&parts[i]);
            let var = &vars[i];
            assert(pv[i as int] == parts@[i as int]@);
            assert(tv[i as int] == types@[i as int]@);
            assert(vv[i as int] == vars@[i as int]@);
            let conv = cast_to_type::<F>(&piece, &types[i], &var.lexeme);
            let ghost x: ValueV<F> = if conv is Ok {
                value_view(conv->Ok_0)
            } else {
                LiteralValue::Nil
            };
            let ghost c2 = chosen.push(x);
            assert(c2.subrange(0, i as int) =~= chosen);
            assert(scan_assign_with(m0, vv, tv, pv, 0, c2) == scan_assign_with(cur, vv, tv, pv, i as int, c2));
            match conv {
                Err(m) => {
                    let e = self.halt(Halt::Error(RuntimeError::new(var.duplicate(), m)));
                    assert(input_with(old(self)@, line@, c2) == Some((self@, event_view(e))));
                    return e;
                },
                Ok(v) => match self.environment.assign(var, v) {
                    Ok(()) => {},
                    Err(err) => {
                        let e = self.halt(Halt::Error(err));
                        assert(input_with(old(self)@, line@, c2) == Some((self@, event_view(e))));
                        return e;
                    },
                },
            }
            proof {
                assert forall|c: Seq<ValueV<F>>| c.len() >= i + 1 && c.subrange(0, i + 1) == c2 implies #[trigger] scan_assign_with(
                    m0,
                    vv,
                    tv,
                    pv,
                    0,
                    c,
                ) == scan_assign_with(self@, vv, tv, pv, i + 1, c) by {
                    assert(c.subrange(0, i as int) =~= c2.subrange(0, i as int));
                    assert(c[i as int] == c2[i as int]);
                }
                chosen = c2;
            }
            i = i + 1;
        }
        assert(chosen.subrange(0, i as int) =~= chosen);
        assert(scan_assign_with(m0, vv, tv, pv, 0, chosen) == scan_assign_with(self@, vv, tv, pv, i as int, chosen));
        assert(input_with(old(self)@, line@, chosen) == Some((self@, event_view(Event::Continue))));
        Event::Continue
    }
}

} // verus!
