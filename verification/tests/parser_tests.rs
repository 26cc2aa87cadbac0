use lexor::expr::{Expr, LiteralValue};
use lexor::lexer::Lexer;
use lexor::parser::Parser;
use lexor::stmt::Stmt;
use lexor::token::TokenType;

fn parse(source: &str) -> (Option<Vec<Stmt>>, Vec<String>) {
    let mut lexer = Lexer::new(source);
    let tokens = lexer.scan_tokens();
    let mut parser = Parser::new(tokens);
    let r = parser.parse();
    let errors = parser.errors().iter().map(|e| e.to_display_string()).collect();
    (r, errors)
}

fn script(body: &str) -> String {
    format!("SCRIPT AREA\nSTART SCRIPT\n{}\nEND SCRIPT", body)
}

#[test]
fn empty_input_is_an_empty_program() {
    let (r, e) = parse("\n\n");
    assert_eq!(r.unwrap().len(), 0);
    assert!(e.is_empty());
}

#[test]
fn declarations_then_statements() {
    let (r, e) = parse(&script("DECLARE INT a = 1, b\nDECLARE CHAR c = 'x'\nPRINT: a"));
    assert!(e.is_empty(), "{:?}", e);
    let stmts = r.unwrap();
    assert_eq!(stmts.len(), 4);
    assert!(matches!(&stmts[0], Stmt::Var { initializer: Some(_), .. }));
    assert!(matches!(&stmts[1], Stmt::Var { initializer: None, .. }));
    assert!(matches!(&stmts[2], Stmt::Var { .. }));
    assert!(matches!(&stmts[3], Stmt::Print { .. }));
}

#[test]
fn precedence_of_arithmetic() {
    let (r, _) = parse(&script("x = 1 + 2 * 3"));
    let stmts = r.unwrap();
    match &stmts[0] {
        Stmt::Expression { expression: Expr::Assign { value, .. } } => match &**value {
            Expr::Binary { left, operator, right } => {
                assert_eq!(operator.token_type, TokenType::Plus);
                assert!(matches!(&**left, Expr::Literal { value: LiteralValue::Int(1) }));
                assert!(matches!(&**right, Expr::Binary { .. }));
            },
            other => panic!("unexpected {:?}", other),
        },
        other => panic!("unexpected {:?}", other),
    }
}

#[test]
fn postfix_increment_becomes_assignment() {
    let (r, _) = parse(&script("i++"));
    let stmts = r.unwrap();
    match &stmts[0] {
        Stmt::Expression { expression: Expr::Assign { name, value } } => {
            assert_eq!(name.lexeme, "i");
            match &**value {
                Expr::Binary { operator, right, .. } => {
                    assert_eq!(operator.token_type, TokenType::Plus);
                    assert_eq!(operator.lexeme, "+");
                    assert!(matches!(&**right, Expr::Literal { value: LiteralValue::Int(1) }));
                },
                other => panic!("unexpected {:?}", other),
            }
        },
        other => panic!("unexpected {:?}", other),
    }
}

#[test]
fn dollar_and_escape_codes_are_strings() {
    let (r, _) = parse(&script("PRINT: [[] & $ & []"));
    let stmts = r.unwrap();
    let text = format!("{:?}", stmts[0]);
    assert!(text.contains("String(\"[\")"), "{}", text);
    assert!(text.contains("String(\"\\n\")"), "{}", text);
    assert!(text.contains("String(\"\")"), "{}", text);
}

#[test]
fn if_else_if_else_chain() {
    let src = script(
        "DECLARE INT a = 1\nIF (a > 1)\nSTART IF\nPRINT: a\nEND IF\nELSE IF (a == 1)\nSTART IF\nPRINT: a\nEND IF\nELSE\nSTART IF\nPRINT: a\nEND IF",
    );
    let (r, e) = parse(&src);
    assert!(e.is_empty(), "{:?}", e);
    let stmts = r.unwrap();
    assert_eq!(stmts.len(), 2);
    match &stmts[1] {
        Stmt::If { else_branch: Some(b), .. } => assert!(matches!(&**b, Stmt::If { else_branch: Some(_), .. })),
        other => panic!("unexpected {:?}", other),
    }
}

#[test]
fn loops_parse() {
    let src = script(
        "DECLARE INT i = 0\nFOR (i = 0, i < 3, i++)\nSTART FOR\nPRINT: i\nEND FOR\nREPEAT WHEN (i > 0)\nSTART REPEAT\ni = i - 1\nEND REPEAT",
    );
    let (r, e) = parse(&src);
    assert!(e.is_empty(), "{:?}", e);
    let stmts = r.unwrap();
    assert!(matches!(&stmts[1], Stmt::For { .. }));
    assert!(matches!(&stmts[2], Stmt::While { .. }));
}

#[test]
fn scan_records_declared_types() {
    let (r, e) = parse(&script("DECLARE INT x\nDECLARE BOOL b\nSCAN: x, b"));
    assert!(e.is_empty(), "{:?}", e);
    match &r.unwrap()[2] {
        Stmt::Scan { variables, types } => {
            assert_eq!(variables.len(), 2);
            assert_eq!(types, &vec!["INT".to_string(), "BOOL".to_string()]);
        },
        other => panic!("unexpected {:?}", other),
    }
}

#[test]
fn declaration_after_statement_is_an_error() {
    let (r, e) = parse(&script("PRINT: 1\nDECLARE INT x"));
    assert!(r.is_none());
    assert_eq!(e, vec!["[Line 4] Error at 'DECLARE': Declarations must come before executable code.".to_string()]);
}

#[test]
fn duplicate_declaration_is_an_error() {
    let (r, e) = parse(&script("DECLARE INT x\nDECLARE FLOAT x"));
    assert!(r.is_none());
    assert_eq!(e, vec!["[Line 4] Error at 'x': Variable 'x' is already defined.".to_string()]);
}

#[test]
fn scan_of_undeclared_variable_is_an_error() {
    let (r, e) = parse(&script("SCAN: y"));
    assert!(r.is_none());
    assert_eq!(e, vec!["[Line 3] Error at 'y': Variable 'y' must be declared before SCAN.".to_string()]);
}

#[test]
fn missing_header_is_an_error() {
    let (r, e) = parse("START SCRIPT\nEND SCRIPT");
    assert!(r.is_none());
    assert_eq!(e[0], "[Line 1] Error at 'START SCRIPT': Expect 'SCRIPT AREA' at the beginning of the script.");
}

#[test]
fn code_after_end_script_is_an_error() {
    let (r, e) = parse("SCRIPT AREA\nSTART SCRIPT\nEND SCRIPT\nPRINT: 1");
    assert!(r.is_none());
    assert_eq!(
        e,
        vec!["[Line 4] Error at 'PRINT': Unexpected code found after 'END SCRIPT'. Only one script block is allowed.".to_string()]
    );
}

#[test]
fn missing_expression_at_end() {
    let (r, e) = parse("SCRIPT AREA\nSTART SCRIPT\nPRINT:");
    assert!(r.is_none());
    assert_eq!(e[0], "[Line 3] Error at end: Expect expression.");
}

#[test]
fn reserved_word_as_name() {
    let (r, e) = parse(&script("DECLARE INT PRINT"));
    assert!(r.is_none());
    assert_eq!(e[0], "[Line 3] Error at 'PRINT': Reserved keyword 'PRINT' cannot be used as a variable name.");
}

#[test]
fn invalid_assignment_target() {
    let (r, e) = parse(&script("1 = 2"));
    assert!(r.is_none());
    assert_eq!(e[0], "[Line 3] Error at '=': Invalid assignment target.");
}

#[test]
fn unclosed_block_before_end_script() {
    let (r, e) = parse(&script("IF (1 > 0)\nSTART IF\nPRINT: 1"));
    assert!(r.is_none());
    assert_eq!(e[0], "[Line 6] Error at 'END SCRIPT': Missing 'EndIf' before END SCRIPT.");
}

#[test]
fn stray_end_if() {
    let (r, e) = parse(&script("END IF"));
    assert!(r.is_none());
    assert_eq!(e[0], "[Line 3] Error at 'END IF': Unexpected 'END IF' found. Missing matching START block.");
}

#[test]
fn parsed_scripts_declare_first() {
    let (r, e) = parse(&script("DECLARE INT a\nDECLARE BOOL b = \"TRUE\", c\na = 2\nIF (b)\nSTART IF\nPRINT: a\nEND IF"));
    assert!(e.is_empty(), "{:?}", e);
    let stmts = r.unwrap();
    let first_statement = stmts.iter().position(|s| !matches!(s, Stmt::Var { .. })).unwrap();
    assert_eq!(first_statement, 3);
    assert!(stmts[first_statement..].iter().all(|s| !matches!(s, Stmt::Var { .. })));
}

#[test]
fn script_exactly_when_no_errors() {
    let sources = [
        script("DECLARE INT x = 1\nPRINT: x"),
        script("PRINT: 1\nDECLARE INT x"),
        script("x = "),
        "SCRIPT AREA\nSTART SCRIPT\nPRINT: 1\n".to_string(),
        "START SCRIPT\nEND SCRIPT".to_string(),
        script("IF (1)\nSTART IF\nPRINT: 2\nEND IF\nELSE\nSTART IF\nEND IF"),
        script("FOR (i = 0, i < 2, i++)\nSTART FOR\nEND FOR"),
        String::new(),
    ];
    for src in sources.iter() {
        let (r, e) = parse(src);
        assert_eq!(r.is_some(), e.is_empty(), "{:?}", src);
    }
}

#[test]
fn parsed_scripts_are_well_formed() {
    // every SCAN carries one type per variable; every declaration names a type
    let (r, e) = parse(&script("DECLARE INT a, b\nDECLARE CHAR c\nSCAN: a, c, b"));
    assert!(e.is_empty(), "{:?}", e);
    for s in r.unwrap().iter() {
        match s {
            Stmt::Scan { variables, types } => assert_eq!(variables.len(), types.len()),
            Stmt::Var { data_type, .. } => assert!(matches!(
                data_type.token_type,
                TokenType::IntType | TokenType::FloatType | TokenType::BoolType | TokenType::CharType
            )),
            _ => {},
        }
    }
}

#[test]
fn parse_stops_at_first_eof_and_repeats() {
    let mut lexer = Lexer::new(&script("DECLARE INT x = 1\nPRINT: x"));
    let mut tokens = lexer.scan_tokens();
    // tokens after the first Eof are never read
    tokens.push(lexor::token::Token::new(TokenType::Print, "PRINT".to_string(), 9));
    let mut parser = Parser::new(tokens);
    let first = parser.parse();
    assert!(parser.errors().is_empty());
    let second = parser.parse();
    assert_eq!(first.unwrap().len(), 2);
    assert_eq!(second.unwrap().len(), 2);
}
