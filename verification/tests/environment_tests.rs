use lexor::environment::Environment;
use lexor::expr::LiteralValue;
use lexor::token::{Token, TokenType};

fn name(n: &str) -> Token {
    Token::new(TokenType::Identifier(n.to_string()), n.to_string(), 7)
}

fn int_of(v: LiteralValue<f64>) -> i64 {
    match v {
        LiteralValue::Int(i) => i,
        other => panic!("not an INT: {:?}", other),
    }
}

#[test]
fn get_after_define_gives_the_value() {
    let mut env: Environment<f64> = Environment::new();
    env.define(&name("x"), LiteralValue::Int(5)).unwrap();
    assert_eq!(int_of(env.get(&name("x")).unwrap()), 5);
}

#[test]
fn define_twice_in_one_scope_fails() {
    let mut env: Environment<f64> = Environment::new();
    env.define(&name("x"), LiteralValue::Int(5)).unwrap();
    let e = env.define(&name("x"), LiteralValue::Int(6)).unwrap_err();
    assert_eq!(e.message, "Variable 'x' is already defined in this scope.");
    assert_eq!(e.to_display_string(), "[Line 7] Runtime Error at 'x': Variable 'x' is already defined in this scope.");
    // the first value stays
    assert_eq!(int_of(env.get(&name("x")).unwrap()), 5);
}

#[test]
fn undefined_variable_errors() {
    let mut env: Environment<f64> = Environment::new();
    let e = env.get(&name("y")).unwrap_err();
    assert_eq!(e.message, "Undefined variable 'y'.");
    let e2 = env.assign(&name("y"), LiteralValue::Int(1)).unwrap_err();
    assert_eq!(e2.message, "Undefined variable 'y'.");
}

#[test]
fn get_after_assign_and_others_kept() {
    let mut env: Environment<f64> = Environment::new();
    env.define(&name("a"), LiteralValue::Int(1)).unwrap();
    env.define(&name("b"), LiteralValue::Int(2)).unwrap();
    env.assign(&name("a"), LiteralValue::Int(10)).unwrap();
    assert_eq!(int_of(env.get(&name("a")).unwrap()), 10);
    assert_eq!(int_of(env.get(&name("b")).unwrap()), 2);
}

#[test]
fn inner_scope_shadows_and_assigns_through() {
    let mut global: Environment<f64> = Environment::new();
    global.define(&name("x"), LiteralValue::Int(1)).unwrap();
    global.define(&name("y"), LiteralValue::Int(2)).unwrap();
    let mut inner = Environment::new_with_enclosing(global);
    inner.define(&name("x"), LiteralValue::Int(100)).unwrap();
    assert_eq!(int_of(inner.get(&name("x")).unwrap()), 100);
    // assignment reaches the outer variable where the inner scope lacks it
    inner.assign(&name("y"), LiteralValue::Int(20)).unwrap();
    inner.exit_scope();
    assert_eq!(int_of(inner.get(&name("x")).unwrap()), 1);
    assert_eq!(int_of(inner.get(&name("y")).unwrap()), 20);
    assert!(inner.enclosing.is_none());
}

#[test]
fn global_scope_is_never_left() {
    let mut env: Environment<f64> = Environment::new();
    env.define(&name("g"), LiteralValue::Int(3)).unwrap();
    env.exit_scope();
    assert_eq!(int_of(env.get(&name("g")).unwrap()), 3);
    env.enter_scope();
    assert!(env.enclosing.is_some());
    env.define(&name("g"), LiteralValue::Int(4)).unwrap();
    assert_eq!(int_of(env.get(&name("g")).unwrap()), 4);
    env.exit_scope();
    assert_eq!(int_of(env.get(&name("g")).unwrap()), 3);
}
