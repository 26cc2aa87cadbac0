use lexor::interpreter::{Event, Fault, Interpreter};
use lexor::expr::{Expr, LiteralValue};
use lexor::stmt::Stmt;
use lexor::token::{Token, TokenType};
use lexor::lexer::Lexer;
use lexor::parser::Parser;
use lexor::text::{int_to_text, parse_i64, usize_to_text};
use lexor::value::{cast_to_type, debug_value, is_equal, is_truthy, split_at_commas, trim_chars, FloatArith};

/// FLOAT values as 64-bit floating point.
#[derive(Debug, Clone, Copy, PartialEq)]
struct Num(f64);

impl FloatArith for Num {
    fn from_literal(text: &str) -> Self {
        Num(text.parse().unwrap())
    }
    fn parse_text(text: &str) -> Option<Self> {
        text.parse::<f64>().ok().map(Num)
    }
    fn from_int(i: i64) -> Self {
        Num(i as f64)
    }
    fn zero() -> Self {
        Num(0.0)
    }
    fn add(self, o: Self) -> Self {
        Num(self.0 + o.0)
    }
    fn sub(self, o: Self) -> Self {
        Num(self.0 - o.0)
    }
    fn mul(self, o: Self) -> Self {
        Num(self.0 * o.0)
    }
    fn div(self, o: Self) -> Self {
        Num(self.0 / o.0)
    }
    fn rem(self, o: Self) -> Self {
        Num(self.0 % o.0)
    }
    fn neg(self) -> Self {
        Num(-self.0)
    }
    fn equals(self, o: Self) -> bool {
        self.0 == o.0
    }
    fn greater(self, o: Self) -> bool {
        self.0 > o.0
    }
    fn greater_eq(self, o: Self) -> bool {
        self.0 >= o.0
    }
    fn less(self, o: Self) -> bool {
        self.0 < o.0
    }
    fn less_eq(self, o: Self) -> bool {
        self.0 <= o.0
    }
    fn is_zero(self) -> bool {
        self.0 == 0.0
    }
    fn is_whole(self) -> bool {
        self.0.fract() == 0.0
    }
    fn to_int(self) -> i64 {
        self.0 as i64
    }
    fn display_text(self) -> String {
        if self.0.fract() == 0.0 { (self.0 as i64).to_string() } else { self.0.to_string() }
    }
    fn debug_text(self) -> String {
        format!("{:?}", self.0)
    }
}

/// Runs a script with the given lines of input: what it printed, and the
/// runtime error it stopped with, if any.
fn run(source: &str, input: &[&str]) -> (String, Option<String>) {
    let mut lexer = Lexer::new(source);
    let tokens = lexer.scan_tokens();
    let mut parser = Parser::new(tokens);
    let stmts = parser.parse().expect("syntax errors");
    let mut interp: Interpreter<Num> = Interpreter::new();
    interp.begin(&stmts);
    let mut out = String::new();
    let mut lines = input.iter();
    loop {
        let mut ev = interp.step();
        if let Event::NeedInput = ev {
            let line = lines.next().map(|s| s.to_string()).unwrap_or_default();
            ev = interp.provide_input(&line);
        }
        match ev {
            Event::Continue | Event::NeedInput => {},
            Event::Output(s) => out.push_str(&s),
            Event::Finished => return (out, None),
            Event::Failed(e) => return (out, Some(e.to_display_string())),
            Event::Fault(f) => panic!("fault {:?}", f),
        }
    }
}

fn script(body: &str) -> String {
    format!("SCRIPT AREA\nSTART SCRIPT\n{}\nEND SCRIPT", body)
}

#[test]
fn readme_arithmetic_example() {
    let src = script("DECLARE INT xyz, abc = 100\nxyz = ((abc * 5) / 10 + 10) * -1\nPRINT: [[] & xyz & []]");
    assert_eq!(run(&src, &[]), ("[-60]".to_string(), None));
}

#[test]
fn readme_logical_example() {
    let src = script("DECLARE INT a = 100, b = 200, c = 300\nDECLARE BOOL d = \"FALSE\"\nd = (a < b AND c <> 200)\nPRINT: d");
    assert_eq!(run(&src, &[]), ("TRUE".to_string(), None));
}

#[test]
fn readme_hello_world_with_scan() {
    let src = script(
        "DECLARE INT age = 0\nDECLARE CHAR grade = 'A'\nPRINT: \"Hello, LEXOR!\" & $\nPRINT: \"Enter your age:\"\nSCAN: age\nPRINT: \"You are \" & age & \" years old.\" & $\nPRINT: \"Your grade is: \" & grade",
    );
    let (out, err) = run(&src, &["17\n"]);
    assert_eq!(err, None);
    assert_eq!(out, "Hello, LEXOR!\nEnter your age:You are 17 years old.\nYour grade is: A");
}

#[test]
fn readme_countdown_with_float() {
    let src = script(
        "DECLARE INT count, limit = 0\nDECLARE FLOAT multi = 1.5\nPRINT: \"Enter a starting number:\"\nSCAN: count\nREPEAT WHEN (count > limit)\nSTART REPEAT\nPRINT: \"T-Minus \" & count & \"...\" & $\ncount = count - 1\nEND REPEAT\nPRINT: \"BLASTOFF! Final calc: \" & (limit * multi)",
    );
    let (out, err) = run(&src, &["3"]);
    assert_eq!(err, None);
    assert_eq!(out, "Enter a starting number:T-Minus 3...\nT-Minus 2...\nT-Minus 1...\nBLASTOFF! Final calc: 0");
}

#[test]
fn readme_if_else() {
    let src = script(
        "DECLARE INT score = 0\nSCAN: score\nIF (score >= 75)\nSTART IF\nPRINT: \"Passed!\" & $\nEND IF\nELSE\nSTART IF\nPRINT: \"Failed.\" & $\nEND IF",
    );
    assert_eq!(run(&src, &["80"]).0, "Passed!\n");
    assert_eq!(run(&src, &["10"]).0, "Failed.\n");
}

#[test]
fn for_loop_counts() {
    let src = script("DECLARE INT i = 0\nFOR (i = 0, i < 3, i++)\nSTART FOR\nPRINT: i\nEND FOR\nPRINT: \"|\" & i");
    assert_eq!(run(&src, &[]), ("012|3".to_string(), None));
}

#[test]
fn block_scopes_end_with_the_block() {
    // a variable assigned inside a block keeps the new value outside it
    let src = script("DECLARE INT x = 1\nIF (x == 1)\nSTART IF\nx = 2\nEND IF\nPRINT: x");
    assert_eq!(run(&src, &[]), ("2".to_string(), None));
}

#[test]
fn division_by_zero_is_a_runtime_error() {
    let src = script("DECLARE INT x = 0\nx = 5 / x");
    let (_, err) = run(&src, &[]);
    assert_eq!(err, Some("[Line 4] Runtime Error at '/': Error, Division by 0".to_string()));
}

#[test]
fn modulo_by_zero_is_a_runtime_error() {
    let src = script("DECLARE INT x = 0\nx = 5 % x");
    let (_, err) = run(&src, &[]);
    assert_eq!(err, Some("[Line 4] Runtime Error at '%': Error, Modulo by 0".to_string()));
}

#[test]
fn integer_division_truncates() {
    let src = script("PRINT: (7 / 2) & \" \" & (-7 / 2) & \" \" & (-7 % 3)");
    assert_eq!(run(&src, &[]).0, "3 -3 -1");
}

#[test]
fn mixed_arithmetic_promotes_to_float() {
    let src = script("PRINT: (1 + 0.5) & \" \" & (2 * 1.5) & \" \" & (1 == 1.0)");
    assert_eq!(run(&src, &[]).0, "1.5 3 TRUE");
}

#[test]
fn init_type_mismatch() {
    let src = script("DECLARE INT x = \"abc\"");
    let (_, err) = run(&src, &[]);
    assert_eq!(err, Some("[Line 3] Runtime Error at 'x': type mismatch cannot initialize INT with String(\"abc\")".to_string()));
}

#[test]
fn bool_init_mismatch() {
    let src = script("DECLARE BOOL b = 1");
    let (_, err) = run(&src, &[]);
    assert_eq!(err, Some("[Line 3] Runtime Error at 'b': type mismatch expected BOOL value.".to_string()));
}

#[test]
fn assign_type_mismatch() {
    let src = script("DECLARE INT x\nx = 'c'");
    let (_, err) = run(&src, &[]);
    assert_eq!(err, Some("[Line 4] Runtime Error at 'x': type mismatch cannot assign to INT variable 'x'.".to_string()));
}

#[test]
fn whole_float_assigned_to_int_is_truncated() {
    let src = script("DECLARE INT x\nx = 2.0 * 3\nPRINT: x");
    assert_eq!(run(&src, &[]), ("6".to_string(), None));
    let bad = script("DECLARE INT x\nx = 2.5");
    assert_eq!(
        run(&bad, &[]).1,
        Some("[Line 4] Runtime Error at 'x': type mismatch cannot assign to INT variable 'x'.".to_string())
    );
}

#[test]
fn operand_must_be_a_number() {
    let src = script("PRINT: 'a' - 1");
    assert_eq!(run(&src, &[]).1, Some("[Line 3] Runtime Error at '-': Operand must be a number.".to_string()));
    let neg = script("PRINT: -'a'");
    assert_eq!(run(&neg, &[]).1, Some("[Line 3] Runtime Error at '-': operand must be a number.".to_string()));
}

#[test]
fn undefined_variable() {
    let src = script("x = 1");
    assert_eq!(run(&src, &[]).1, Some("[Line 3] Runtime Error at 'x': Undefined variable 'x'.".to_string()));
}

#[test]
fn scan_several_values() {
    let src = script("DECLARE INT a\nDECLARE BOOL b\nDECLARE CHAR c\nDECLARE FLOAT f\nSCAN: a, b, c, f\nPRINT: a & b & c & f");
    assert_eq!(run(&src, &[" 4 , true,z, 2.5 \n"]), ("4TRUEz2.5".to_string(), None));
}

#[test]
fn scan_errors() {
    let src = script("DECLARE INT a, b\nSCAN: a, b");
    assert_eq!(
        run(&src, &["1"]).1,
        Some("[Line 4] Runtime Error at 'a': insufficient input for SCAN. Expected 2 values.".to_string())
    );
    assert_eq!(
        run(&src, &["1, x"]).1,
        Some("[Line 4] Runtime Error at 'b': type mismatch cannot convert 'x' to INT.".to_string())
    );
    let c = script("DECLARE CHAR c\nSCAN: c");
    assert_eq!(run(&c, &["xy"]).1, Some("[Line 4] Runtime Error at 'c': expected single CHAR for 'c'.".to_string()));
    let b = script("DECLARE BOOL b\nSCAN: b");
    assert_eq!(
        run(&b, &["yes"]).1,
        Some("[Line 4] Runtime Error at 'b': expected BOOL (TRUE/FALSE) for 'b', got: yes".to_string())
    );
}

#[test]
fn logical_short_circuit() {
    // the right side would fail if it ran
    let src = script("DECLARE BOOL b\nb = \"TRUE\" OR (1 / 0 > 0)\nPRINT: b & NOT b");
    assert_eq!(run(&src, &[]), ("TRUEFALSE".to_string(), None));
}

#[test]
fn wrapping_integer_arithmetic() {
    let src = script("DECLARE INT x = 9223372036854775807\nx = x + 1\nPRINT: x");
    assert_eq!(run(&src, &[]).0, "-9223372036854775808");
}

#[test]
fn min_divided_by_minus_one_is_a_fault() {
    let src = script("DECLARE INT x = 9223372036854775807\nx = x + 1\nx = x / -1");
    let mut lexer = Lexer::new(&src);
    let tokens = lexer.scan_tokens();
    let mut parser = Parser::new(tokens);
    let stmts = parser.parse().unwrap();
    let mut interp: Interpreter<Num> = Interpreter::new();
    interp.begin(&stmts);
    let mut fault = None;
    for _ in 0..100 {
        match interp.step() {
            Event::Fault(f) => {
                fault = Some(f);
                break;
            },
            Event::Finished => break,
            _ => {},
        }
    }
    assert_eq!(fault, Some(Fault::DivideOverflow));
}

#[test]
fn environment_is_restored_after_error() {
    let src = script("DECLARE INT x = 1\nIF (x == 1)\nSTART IF\nx = y\nEND IF");
    let mut lexer = Lexer::new(&src);
    let tokens = lexer.scan_tokens();
    let mut parser = Parser::new(tokens);
    let stmts = parser.parse().unwrap();
    let mut interp: Interpreter<Num> = Interpreter::new();
    interp.begin(&stmts);
    loop {
        match interp.step() {
            Event::Failed(_) => break,
            Event::Finished => panic!("expected an error"),
            _ => {},
        }
    }
    assert!(interp.environment.enclosing.is_none());
    assert!(matches!(interp.step(), Event::Finished));
}

fn chars(s: &str) -> Vec<char> {
    s.chars().collect()
}

#[test]
fn trim_and_split_input() {
    assert_eq!(trim_chars(&chars("  a b \t\n")), chars("a b"));
    assert_eq!(trim_chars(&chars(" \n ")), Vec::<char>::new());
    let parts = split_at_commas(&chars("1, 2,,x"));
    assert_eq!(parts, vec![chars("1"), chars(" 2"), chars(""), chars("x")]);
    assert_eq!(split_at_commas(&chars("")), vec![Vec::<char>::new()]);
}

#[test]
fn cast_typed_in_values() {
    let lx = "v".to_string();
    let int: LiteralValue<Num> = cast_to_type(&chars("-42"), &"INT".to_string(), &lx).unwrap();
    assert!(matches!(int, LiteralValue::Int(-42)));
    let plus: LiteralValue<Num> = cast_to_type(&chars("+7"), &"INT".to_string(), &lx).unwrap();
    assert!(matches!(plus, LiteralValue::Int(7)));
    let fl: LiteralValue<Num> = cast_to_type(&chars("2.5"), &"FLOAT".to_string(), &lx).unwrap();
    assert!(matches!(fl, LiteralValue::Float(Num(x)) if x == 2.5));
    let b: LiteralValue<Num> = cast_to_type(&chars("FaLsE"), &"BOOL".to_string(), &lx).unwrap();
    assert!(matches!(b, LiteralValue::Bool(false)));
    let c: LiteralValue<Num> = cast_to_type(&chars("q"), &"CHAR".to_string(), &lx).unwrap();
    assert!(matches!(c, LiteralValue::Char('q')));
    let e1 = cast_to_type::<Num>(&chars("99999999999999999999"), &"INT".to_string(), &lx).unwrap_err();
    assert_eq!(e1, "type mismatch cannot convert '99999999999999999999' to INT.");
    let e2 = cast_to_type::<Num>(&chars("abc"), &"FLOAT".to_string(), &lx).unwrap_err();
    assert_eq!(e2, "type mismatch cannot convert 'abc' to FLOAT.");
    let e3 = cast_to_type::<Num>(&chars("x"), &"TEXT".to_string(), &lx).unwrap_err();
    assert_eq!(e3, "unknown type for SCAN.");
}

#[test]
fn parse_integers_as_std_does() {
    assert_eq!(parse_i64(&chars("0")), Some(0));
    assert_eq!(parse_i64(&chars("-9223372036854775808")), Some(i64::MIN));
    assert_eq!(parse_i64(&chars("9223372036854775807")), Some(i64::MAX));
    assert_eq!(parse_i64(&chars("9223372036854775808")), None);
    assert_eq!(parse_i64(&chars("")), None);
    assert_eq!(parse_i64(&chars("-")), None);
    assert_eq!(parse_i64(&chars(" 1")), None);
    assert_eq!(parse_i64(&chars("1_0")), None);
}

#[test]
fn integer_text() {
    assert_eq!(int_to_text(0), "0");
    assert_eq!(int_to_text(-120), "-120");
    assert_eq!(int_to_text(i64::MIN), "-9223372036854775808");
    assert_eq!(usize_to_text(4096), "4096");
}

#[test]
fn values_as_printed_and_debugged() {
    assert_eq!(lexor::value::stringify::<Num>(&LiteralValue::Bool(true)), "TRUE");
    assert_eq!(lexor::value::stringify::<Num>(&LiteralValue::Nil), "null");
    assert_eq!(lexor::value::stringify::<Num>(&LiteralValue::Char('z')), "z");
    assert_eq!(lexor::value::stringify::<Num>(&LiteralValue::Int(-3)), "-3");
    assert_eq!(lexor::value::stringify(&LiteralValue::Float(Num(2.0))), "2");
    assert_eq!(debug_value::<Num>(&LiteralValue::String("a\"b".to_string())), "String(\"a\\\"b\")");
    assert_eq!(debug_value::<Num>(&LiteralValue::Char('\n')), "Char('\\n')");
    assert_eq!(debug_value::<Num>(&LiteralValue::Int(4)), "Int(4)");
    assert!(is_equal::<Num>(&LiteralValue::Int(2), &LiteralValue::Int(2)));
    assert!(!is_equal::<Num>(&LiteralValue::Int(2), &LiteralValue::Bool(true)));
    assert!(is_equal::<Num>(&LiteralValue::Nil, &LiteralValue::Nil));
    assert!(!is_truthy::<Num>(&LiteralValue::Nil));
    assert!(is_truthy::<Num>(&LiteralValue::Int(0)));
}

#[test]
fn char_init_mismatch_shows_debug_form() {
    let src = script("DECLARE INT x = 'c'");
    assert_eq!(
        run(&src, &[]).1,
        Some("[Line 3] Runtime Error at 'x': type mismatch cannot initialize INT with Char('c')".to_string())
    );
}

#[test]
fn scopes_are_left_after_error_in_for_loop() {
    let src = script("DECLARE INT i\nFOR (i = 0, i < 5, i++)\nSTART FOR\nIF (i == 2)\nSTART IF\ni = 'x'\nEND IF\nEND FOR");
    let mut lexer = Lexer::new(&src);
    let tokens = lexer.scan_tokens();
    let mut parser = Parser::new(tokens);
    let stmts = parser.parse().unwrap();
    let mut interp: Interpreter<Num> = Interpreter::new();
    interp.begin(&stmts);
    let mut failed = false;
    for _ in 0..1000 {
        match interp.step() {
            Event::Failed(_) => {
                failed = true;
                break;
            },
            Event::Finished => break,
            _ => {},
        }
    }
    assert!(failed);
    assert!(interp.environment.enclosing.is_none());
    assert!(matches!(interp.step(), Event::Finished));
}

#[test]
fn variables_keep_their_types() {
    // an INT variable stays an INT and a BOOL stays a BOOL
    let src = script("DECLARE INT n = 1\nDECLARE BOOL b\nb = \"TRUE\"\nn = 4.0\nPRINT: n & b");
    assert_eq!(run(&src, &[]), ("4TRUE".to_string(), None));
    let bad = script("DECLARE BOOL b\nb = 3");
    assert_eq!(run(&bad, &[]).1, Some("[Line 4] Runtime Error at 'b': type mismatch expected BOOL value.".to_string()));
}

#[test]
fn input_waits_until_given() {
    let src = script("DECLARE INT a\nSCAN: a\nPRINT: a");
    let mut lexer = Lexer::new(&src);
    let tokens = lexer.scan_tokens();
    let mut parser = Parser::new(tokens);
    let stmts = parser.parse().unwrap();
    let mut interp: Interpreter<Num> = Interpreter::new();
    interp.begin(&stmts);
    let mut ev = interp.step();
    while !matches!(ev, Event::NeedInput) {
        ev = interp.step();
    }
    assert!(interp.waits_for_input());
    assert!(matches!(interp.step(), Event::NeedInput));
    assert!(matches!(interp.provide_input("12"), Event::Continue));
    assert!(!interp.waits_for_input());
    assert!(matches!(interp.step(), Event::Output(ref s) if s == "12"));
    assert!(matches!(interp.step(), Event::Continue));
    assert!(matches!(interp.step(), Event::Finished));
}

fn run_until_end(stmts: &Vec<Stmt>, input: &str) -> Event {
    let mut interp: Interpreter<Num> = Interpreter::new();
    interp.begin(stmts);
    for _ in 0..1000 {
        let mut ev = interp.step();
        if let Event::NeedInput = ev {
            ev = interp.provide_input(input);
        }
        match ev {
            Event::Continue | Event::Output(_) | Event::NeedInput => {},
            other => return other,
        }
    }
    panic!("the run did not end");
}

#[test]
fn min_remainder_minus_one_is_a_fault() {
    let src = script("DECLARE INT x = 9223372036854775807\nx = x + 1\nx = x % -1");
    let mut lexer = Lexer::new(&src);
    let tokens = lexer.scan_tokens();
    let mut parser = Parser::new(tokens);
    let stmts = parser.parse().unwrap();
    assert!(matches!(run_until_end(&stmts, ""), Event::Fault(Fault::RemainderOverflow)));
}

#[test]
fn trees_the_parser_never_builds_are_faults() {
    let name = Token::new(TokenType::Identifier("v".to_string()), "v".to_string(), 1);
    // a declaration whose type token names no type
    let bad_decl = vec![Stmt::Var { data_type: name.clone(), name: name.clone(), initializer: None }];
    assert!(matches!(run_until_end(&bad_decl, ""), Event::Fault(Fault::Unreachable)));
    // a SCAN without a type for its variable
    let int_type = Token::new(TokenType::IntType, "INT".to_string(), 1);
    let bad_scan = vec![
        Stmt::Var { data_type: int_type, name: name.clone(), initializer: None },
        Stmt::Scan { variables: vec![name.clone()], types: vec![] },
    ];
    assert!(matches!(run_until_end(&bad_scan, "5"), Event::Fault(Fault::MissingScanType)));
    // an operator that no binary expression has
    let bad_op = vec![Stmt::Print {
        expression: Expr::Binary {
            left: Box::new(Expr::Literal { value: LiteralValue::Int(1) }),
            operator: Token::new(TokenType::Comma, ",".to_string(), 1),
            right: Box::new(Expr::Literal { value: LiteralValue::Int(2) }),
        },
    }];
    assert!(matches!(run_until_end(&bad_op, ""), Event::Fault(Fault::Unreachable)));
}

#[test]
fn char_variable_refuses_other_values() {
    let src = script("DECLARE CHAR c = 'a'\nc = 5");
    assert_eq!(run(&src, &[]).1, Some("[Line 4] Runtime Error at 'c': type mismatch expected CHAR value.".to_string()));
    let ok = script("DECLARE CHAR c = 'a'\nc = 'b'\nPRINT: c");
    assert_eq!(run(&ok, &[]), ("b".to_string(), None));
}

#[test]
fn float_variable_stays_decimal() {
    // an INT given to a FLOAT variable is widened, so a decimal fits afterwards
    let src = script("DECLARE FLOAT f = 1\nf = 2.5\nPRINT: f");
    assert_eq!(run(&src, &[]), ("2.5".to_string(), None));
    let assigned = script("DECLARE FLOAT f\nf = 2\nf = f + 0.5\nPRINT: f");
    assert_eq!(run(&assigned, &[]), ("2.5".to_string(), None));
    let bad = script("DECLARE FLOAT f = 'c'");
    assert_eq!(
        run(&bad, &[]).1,
        Some("[Line 3] Runtime Error at 'f': type mismatch cannot initialize FLOAT with Char('c')".to_string())
    );
}

#[test]
fn scan_into_float() {
    let src = script("DECLARE FLOAT f\nSCAN: f\nPRINT: f * 2");
    assert_eq!(run(&src, &["1.25"]), ("2.5".to_string(), None));
    assert_eq!(
        run(&src, &["x"]).1,
        Some("[Line 4] Runtime Error at 'f': type mismatch cannot convert 'x' to FLOAT.".to_string())
    );
}

#[test]
fn equality_is_symmetric() {
    let vals: Vec<LiteralValue<Num>> = vec![
        LiteralValue::Int(1),
        LiteralValue::Float(Num(1.0)),
        LiteralValue::String("1".to_string()),
        LiteralValue::Char('1'),
        LiteralValue::Bool(true),
        LiteralValue::Nil,
    ];
    for a in vals.iter() {
        assert!(is_equal(a, a));
        for b in vals.iter() {
            assert_eq!(is_equal(a, b), is_equal(b, a));
        }
    }
    assert!(is_equal::<Num>(&LiteralValue::Int(1), &LiteralValue::Float(Num(1.0))));
    assert!(!is_equal::<Num>(&LiteralValue::Int(1), &LiteralValue::String("1".to_string())));
}

#[test]
fn print_of_a_float_prints_its_text() {
    let src = script("DECLARE FLOAT f = 2.5\nPRINT: f & \"|\"\nPRINT: f * 2");
    assert_eq!(run(&src, &[]), ("2.5|5".to_string(), None));
}

#[test]
fn float_condition_runs_one_branch() {
    let body = "DECLARE FLOAT x = X\nIF (x > 1.5)\nSTART IF\nPRINT: \"big\"\nEND IF\nELSE\nSTART IF\nPRINT: \"small\"\nEND IF";
    assert_eq!(run(&script(&body.replace('X', "2.5")), &[]), ("big".to_string(), None));
    assert_eq!(run(&script(&body.replace('X', "0.5")), &[]), ("small".to_string(), None));
}

#[test]
fn repeat_when_with_float_condition() {
    let src = script("DECLARE FLOAT f = 0.25\nREPEAT WHEN (f < 1)\nSTART REPEAT\nPRINT: f & \";\"\nf = f * 2\nEND REPEAT\nPRINT: f");
    assert_eq!(run(&src, &[]), ("0.25;0.5;1".to_string(), None));
}

#[test]
fn for_loop_with_float_condition() {
    let src = script("DECLARE INT i = 0\nDECLARE FLOAT limit = 2.5\nFOR (i = 0, i < limit, i++)\nSTART FOR\nPRINT: i\nEND FOR\nPRINT: \"|\" & i");
    assert_eq!(run(&src, &[]), ("012|3".to_string(), None));
}

#[test]
fn declarations_refuse_floats_that_do_not_fit() {
    let src = script("DECLARE FLOAT f = 1.5\nDECLARE INT x = f\nPRINT: \"never\"");
    assert_eq!(
        run(&src, &[]),
        (String::new(), Some("[Line 4] Runtime Error at 'x': type mismatch cannot initialize INT with Float(1.5)".to_string()))
    );
    let ok = script("DECLARE BOOL ok = 2.5 > 1.0\nPRINT: ok");
    assert_eq!(run(&ok, &[]), ("TRUE".to_string(), None));
    let b = script("DECLARE BOOL no = 2.5\nPRINT: \"never\"");
    assert_eq!(run(&b, &[]), (String::new(), Some("[Line 3] Runtime Error at 'no': type mismatch expected BOOL value.".to_string())));
    let c = script("DECLARE CHAR c = 0.5");
    assert_eq!(run(&c, &[]).1, Some("[Line 3] Runtime Error at 'c': type mismatch expected CHAR value.".to_string()));
}

#[test]
fn block_with_floats_keeps_outer_assignments() {
    let src = script("DECLARE FLOAT f = 1.5\nIF (f > 1)\nSTART IF\nf = f * 2\nEND IF\nPRINT: f");
    assert_eq!(run(&src, &[]), ("3".to_string(), None));
}

#[test]
fn error_in_float_expression_stops_the_run() {
    let src = script("DECLARE FLOAT f = 1.5\nPRINT: f\nf = f / 0\nPRINT: \"never\"");
    let (out, err) = run(&src, &[]);
    assert_eq!(out, "1.5");
    assert!(err.unwrap().contains("Division by 0"));
}
