use lexor::lexer::{LexError, LexFault, Lexer};
use lexor::token::{Token, TokenType};

fn kinds(source: &str) -> Vec<TokenType> {
    let mut lexer = Lexer::new(source);
    lexer.scan_tokens().into_iter().map(|t: Token| t.token_type).collect()
}

#[test]
fn scans_script_header_and_keywords() {
    let k = kinds("SCRIPT AREA\nSTART SCRIPT\nEND SCRIPT");
    assert_eq!(
        k,
        vec![
            TokenType::ScriptArea,
            TokenType::NewLine,
            TokenType::StartScript,
            TokenType::NewLine,
            TokenType::EndScript,
            TokenType::Eof,
        ]
    );
}

#[test]
fn empty_source_gives_only_eof() {
    let mut lexer = Lexer::new("");
    let tokens = lexer.scan_tokens();
    assert_eq!(tokens.len(), 1);
    assert_eq!(tokens[0].token_type, TokenType::Eof);
    assert_eq!(tokens[0].lexeme, "");
    assert_eq!(tokens[0].line, 1);
}

#[test]
fn declaration_line_tokens() {
    let k = kinds("DECLARE INT xyz, abc = 100");
    assert_eq!(
        k,
        vec![
            TokenType::Declare,
            TokenType::IntType,
            TokenType::Identifier("xyz".to_string()),
            TokenType::Comma,
            TokenType::Identifier("abc".to_string()),
            TokenType::Equal,
            TokenType::IntLiteral(100),
            TokenType::Eof,
        ]
    );
}

#[test]
fn literals_of_each_kind() {
    let k = kinds("3.14 'A' \"TRUE\" \"FALSE\" \"hi\" TRUE FALSE 42");
    assert_eq!(
        k,
        vec![
            TokenType::FloatLiteral("3.14".to_string()),
            TokenType::CharLiteral('A'),
            TokenType::BoolLiteral(true),
            TokenType::BoolLiteral(false),
            TokenType::StringLiteral("hi".to_string()),
            TokenType::Identifier("TRUE".to_string()),
            TokenType::Identifier("FALSE".to_string()),
            TokenType::IntLiteral(42),
            TokenType::Eof,
        ]
    );
}

#[test]
fn curly_quote_char_literal() {
    let k = kinds("\u{2019}x\u{2019}");
    assert_eq!(k, vec![TokenType::CharLiteral('x'), TokenType::Eof]);
}

#[test]
fn operators_longest_first() {
    let k = kinds("== >= <= <> != ++ -- + - * / % & < > = ( ) , : $");
    assert_eq!(
        k,
        vec![
            TokenType::EqualEqual,
            TokenType::GreaterEqual,
            TokenType::LessEqual,
            TokenType::NotEqual,
            TokenType::NotEqual,
            TokenType::PlusPlus,
            TokenType::MinusMinus,
            TokenType::Plus,
            TokenType::Minus,
            TokenType::Star,
            TokenType::Slash,
            TokenType::Modulo,
            TokenType::Ampersand,
            TokenType::Less,
            TokenType::Greater,
            TokenType::Equal,
            TokenType::LeftPar,
            TokenType::RightPar,
            TokenType::Comma,
            TokenType::Colon,
            TokenType::Dollar,
            TokenType::Eof,
        ]
    );
}

#[test]
fn escape_codes_and_brackets() {
    let mut lexer = Lexer::new("[[] []] [] [ ] [ 1 ]");
    let tokens = lexer.scan_tokens();
    let got: Vec<(TokenType, String)> = tokens.into_iter().map(|t| (t.token_type, t.lexeme)).collect();
    assert_eq!(
        got,
        vec![
            (TokenType::EscapeCode, "[[]".to_string()),
            (TokenType::EscapeCode, "[]]".to_string()),
            (TokenType::EscapeCode, "[]".to_string()),
            (TokenType::EscapeCode, "[ ]".to_string()),
            (TokenType::LeftBracket, "[".to_string()),
            (TokenType::IntLiteral(1), "1".to_string()),
            (TokenType::RightBracket, "]".to_string()),
            (TokenType::Eof, "".to_string()),
        ]
    );
}

#[test]
fn comments_are_skipped() {
    let k = kinds("%% a comment\nPRINT: x %% trailing");
    assert_eq!(
        k,
        vec![
            TokenType::NewLine,
            TokenType::Print,
            TokenType::Colon,
            TokenType::Identifier("x".to_string()),
            TokenType::Eof,
        ]
    );
}

#[test]
fn lines_are_counted() {
    let mut lexer = Lexer::new("a\nb\n\"x\ny\" c");
    let tokens = lexer.scan_tokens();
    let lines: Vec<usize> = tokens.iter().map(|t| t.line).collect();
    // a, \n, b, \n, string (ends on line 4), c, eof
    assert_eq!(lines, vec![1, 1, 2, 2, 4, 4, 4]);
}

#[test]
fn multi_word_keyword_needs_boundary() {
    let k = kinds("END IFX START IF");
    assert_eq!(
        k,
        vec![
            TokenType::Identifier("END".to_string()),
            TokenType::Identifier("IFX".to_string()),
            TokenType::StartIf,
            TokenType::Eof,
        ]
    );
}

#[test]
fn number_before_name_is_reported_and_skipped() {
    let mut lexer = Lexer::new("12abc 5");
    let tokens = lexer.scan_tokens();
    assert_eq!(tokens.len(), 2);
    assert_eq!(tokens[0].token_type, TokenType::IntLiteral(5));
    assert_eq!(lexer.errors().clone(), vec![LexError::NumberBeforeName { line: 1 }]);
    assert_eq!(lexer.errors()[0].message(), "[Line 1] Error: Identifiers cannot start with a number.");
}

#[test]
fn unexpected_character_is_reported() {
    let mut lexer = Lexer::new("a # b");
    let tokens = lexer.scan_tokens();
    assert_eq!(tokens.len(), 3);
    assert_eq!(lexer.errors().clone(), vec![LexError::UnexpectedChar { line: 1, found: '#' }]);
    assert_eq!(lexer.errors()[0].message(), "[Line 1] Error: Unexpected character '#'");
}

#[test]
fn unterminated_string_reports_the_quote() {
    let mut lexer = Lexer::new("\"abc");
    let tokens = lexer.scan_tokens();
    assert_eq!(tokens[0].token_type, TokenType::Identifier("abc".to_string()));
    assert_eq!(lexer.errors().clone(), vec![LexError::UnexpectedChar { line: 1, found: '"' }]);
}

#[test]
fn double_ampersand_is_a_fault() {
    let mut lexer = Lexer::new("a && b");
    lexer.scan_tokens();
    assert_eq!(lexer.fault(), Some(LexFault::UnknownOperator { line: 1 }));
}

#[test]
fn huge_integer_is_a_fault() {
    let mut lexer = Lexer::new("99999999999999999999");
    lexer.scan_tokens();
    assert_eq!(lexer.fault(), Some(LexFault::IntegerTooLarge { line: 1 }));
    let mut ok = Lexer::new("9223372036854775807");
    let t = ok.scan_tokens();
    assert_eq!(ok.fault(), None);
    assert_eq!(t[0].token_type, TokenType::IntLiteral(i64::MAX));
}

#[test]
fn float_needs_digits_after_point() {
    let mut lexer = Lexer::new("1.");
    let tokens = lexer.scan_tokens();
    assert_eq!(tokens[0].token_type, TokenType::IntLiteral(1));
    assert_eq!(lexer.errors().clone(), vec![LexError::UnexpectedChar { line: 1, found: '.' }]);
}

#[test]
fn tokens_come_in_line_order_with_one_eof() {
    let mut lexer = Lexer::new("SCRIPT AREA\nSTART SCRIPT\nPRINT: \"a\nb\" & 1\n%% note\nEND SCRIPT\n");
    let tokens = lexer.scan_tokens();
    let eofs = tokens.iter().filter(|t| t.token_type == TokenType::Eof).count();
    assert_eq!(eofs, 1);
    assert_eq!(tokens.last().unwrap().token_type, TokenType::Eof);
    for w in tokens.windows(2) {
        assert!(w[0].line <= w[1].line);
    }
    assert_eq!(tokens.last().unwrap().line, 7);
}

#[test]
fn keyword_boundary_follows_unicode_word_characters() {
    // a letter outside ASCII continues the word, so `END IF` is not a keyword here
    let mut lexer = Lexer::new("END IF\u{e9}");
    let tokens = lexer.scan_tokens();
    let k: Vec<TokenType> = tokens.into_iter().map(|t: Token| t.token_type).collect();
    assert_eq!(k, vec![TokenType::Identifier("END".to_string()), TokenType::If, TokenType::Eof]);
    assert_eq!(lexer.errors().clone(), vec![LexError::UnexpectedChar { line: 1, found: '\u{e9}' }]);
    // punctuation outside ASCII does not
    assert_eq!(kinds("END IF\u{2014}")[0], TokenType::EndIf);
    assert_eq!(kinds("END IF(")[0], TokenType::EndIf);
    assert_eq!(kinds("END IF_")[0], TokenType::Identifier("END".to_string()));
}
