use vstd::prelude::*;

verus! {

/// The kinds of token of LEXOR. Literal kinds carry their value; a float
/// literal carries its decimal text as written, which the interpreter hands
/// to its number type.
#[derive(Debug, Clone, PartialEq)]
pub enum TokenType<S = String> {
    // single-character tokens
    LeftPar,
    RightPar,
    LeftBracket,
    RightBracket,
    Comma,
    Colon,
    Modulo,
    Star,
    Slash,
    Plus,
    Minus,
    Dollar,
    Ampersand,
    PlusPlus,
    MinusMinus,
    // `[x]` and `[]`
    EscapeCode,
    // comparison
    Greater,
    GreaterEqual,
    Less,
    LessEqual,
    Equal,
    EqualEqual,
    NotEqual,
    // literals
    Identifier(S),
    IntLiteral(i64),
    FloatLiteral(S),
    CharLiteral(char),
    BoolLiteral(bool),
    StringLiteral(S),
    // data types
    IntType,
    CharType,
    BoolType,
    FloatType,
    // logical operators
    And,
    Or,
    Not,
    // keywords
    ScriptArea,
    StartScript,
    EndScript,
    Declare,
    Print,
    Scan,
    // control flow
    If,
    StartIf,
    EndIf,
    Else,
    ElseIf,
    For,
    StartFor,
    EndFor,
    RepeatWhen,
    StartRepeat,
    EndRepeat,
    NewLine,
    Comment,
    Eof,
}

/// A token: its kind (with the literal's value), its text, and its line.
#[derive(Debug, Clone)]
pub struct Token<S = String> {
    pub token_type: TokenType<S>,
    pub lexeme: S,
    pub line: usize,
}

impl View for TokenType {
    type V = TokenType<Seq<char>>;

    open spec fn view(&self) -> TokenType<Seq<char>> {
        match self {
            TokenType::LeftPar => TokenType::LeftPar,
            TokenType::RightPar => TokenType::RightPar,
            TokenType::LeftBracket => TokenType::LeftBracket,
            TokenType::RightBracket => TokenType::RightBracket,
            TokenType::Comma => TokenType::Comma,
            TokenType::Colon => TokenType::Colon,
            TokenType::Modulo => TokenType::Modulo,
            TokenType::Star => TokenType::Star,
            TokenType::Slash => TokenType::Slash,
            TokenType::Plus => TokenType::Plus,
            TokenType::Minus => TokenType::Minus,
            TokenType::Dollar => TokenType::Dollar,
            TokenType::Ampersand => TokenType::Ampersand,
            TokenType::PlusPlus => TokenType::PlusPlus,
            TokenType::MinusMinus => TokenType::MinusMinus,
            TokenType::EscapeCode => TokenType::EscapeCode,
            TokenType::Greater => TokenType::Greater,
            TokenType::GreaterEqual => TokenType::GreaterEqual,
            TokenType::Less => TokenType::Less,
            TokenType::LessEqual => TokenType::LessEqual,
            TokenType::Equal => TokenType::Equal,
            TokenType::EqualEqual => TokenType::EqualEqual,
            TokenType::NotEqual => TokenType::NotEqual,
            TokenType::Identifier(s) => TokenType::Identifier(s@),
            TokenType::IntLiteral(x) => TokenType::IntLiteral(*x),
            TokenType::FloatLiteral(s) => TokenType::FloatLiteral(s@),
            TokenType::CharLiteral(x) => TokenType::CharLiteral(*x),
            TokenType::BoolLiteral(x) => TokenType::BoolLiteral(*x),
            TokenType::StringLiteral(s) => TokenType::StringLiteral(s@),
            TokenType::IntType => TokenType::IntType,
            TokenType::CharType => TokenType::CharType,
            TokenType::BoolType => TokenType::BoolType,
            TokenType::FloatType => TokenType::FloatType,
            TokenType::And => TokenType::And,
            TokenType::Or => TokenType::Or,
            TokenType::Not => TokenType::Not,
            TokenType::ScriptArea => TokenType::ScriptArea,
            TokenType::StartScript => TokenType::StartScript,
            TokenType::EndScript => TokenType::EndScript,
            TokenType::Declare => TokenType::Declare,
            TokenType::Print => TokenType::Print,
            TokenType::Scan => TokenType::Scan,
            TokenType::If => TokenType::If,
            TokenType::StartIf => TokenType::StartIf,
            TokenType::EndIf => TokenType::EndIf,
            TokenType::Else => TokenType::Else,
            TokenType::ElseIf => TokenType::ElseIf,
            TokenType::For => TokenType::For,
            TokenType::StartFor => TokenType::StartFor,
            TokenType::EndFor => TokenType::EndFor,
            TokenType::RepeatWhen => TokenType::RepeatWhen,
            TokenType::StartRepeat => TokenType::StartRepeat,
            TokenType::EndRepeat => TokenType::EndRepeat,
            TokenType::NewLine => TokenType::NewLine,
            TokenType::Comment => TokenType::Comment,
            TokenType::Eof => TokenType::Eof,
        }
    }
}

impl TokenType {
    /// A copy of this token kind that is equal to it.
    pub fn duplicate(&self) -> (r: TokenType)
        ensures
            r == *self,
            r@ == self@,
    {
        match self {
            TokenType::LeftPar => TokenType::LeftPar,
            TokenType::RightPar => TokenType::RightPar,
            TokenType::LeftBracket => TokenType::LeftBracket,
            TokenType::RightBracket => TokenType::RightBracket,
            TokenType::Comma => TokenType::Comma,
            TokenType::Colon => TokenType::Colon,
            TokenType::Modulo => TokenType::Modulo,
            TokenType::Star => TokenType::Star,
            TokenType::Slash => TokenType::Slash,
            TokenType::Plus => TokenType::Plus,
            TokenType::Minus => TokenType::Minus,
            TokenType::Dollar => TokenType::Dollar,
            TokenType::Ampersand => TokenType::Ampersand,
            TokenType::PlusPlus => TokenType::PlusPlus,
            TokenType::MinusMinus => TokenType::MinusMinus,
            TokenType::EscapeCode => TokenType::EscapeCode,
            TokenType::Greater => TokenType::Greater,
            TokenType::GreaterEqual => TokenType::GreaterEqual,
            TokenType::Less => TokenType::Less,
            TokenType::LessEqual => TokenType::LessEqual,
            TokenType::Equal => TokenType::Equal,
            TokenType::EqualEqual => TokenType::EqualEqual,
            TokenType::NotEqual => TokenType::NotEqual,
            TokenType::Identifier(s) => TokenType::Identifier(s.clone()),
            TokenType::IntLiteral(x) => TokenType::IntLiteral(*x),
            TokenType::FloatLiteral(s) => TokenType::FloatLiteral(s.clone()),
            TokenType::CharLiteral(x) => TokenType::CharLiteral(*x),
            TokenType::BoolLiteral(x) => TokenType::BoolLiteral(*x),
            TokenType::StringLiteral(s) => TokenType::StringLiteral(s.clone()),
            TokenType::IntType => TokenType::IntType,
            TokenType::CharType => TokenType::CharType,
            TokenType::BoolType => TokenType::BoolType,
            TokenType::FloatType => TokenType::FloatType,
            TokenType::And => TokenType::And,
            TokenType::Or => TokenType::Or,
            TokenType::Not => TokenType::Not,
            TokenType::ScriptArea => TokenType::ScriptArea,
            TokenType::StartScript => TokenType::StartScript,
            TokenType::EndScript => TokenType::EndScript,
            TokenType::Declare => TokenType::Declare,
            TokenType::Print => TokenType::Print,
            TokenType::Scan => TokenType::Scan,
            TokenType::If => TokenType::If,
            TokenType::StartIf => TokenType::StartIf,
            TokenType::EndIf => TokenType::EndIf,
            TokenType::Else => TokenType::Else,
            TokenType::ElseIf => TokenType::ElseIf,
            TokenType::For => TokenType::For,
            TokenType::StartFor => TokenType::StartFor,
            TokenType::EndFor => TokenType::EndFor,
            TokenType::RepeatWhen => TokenType::RepeatWhen,
            TokenType::StartRepeat => TokenType::StartRepeat,
            TokenType::EndRepeat => TokenType::EndRepeat,
            TokenType::NewLine => TokenType::NewLine,
            TokenType::Comment => TokenType::Comment,
            TokenType::Eof => TokenType::Eof,
        }
    }

    /// Whether two token kinds are the same, payload included.
    pub fn same_as(&self, other: &TokenType) -> (r: bool)
        ensures
            r == (self@ == other@),
    {
        match (self, other) {
            (TokenType::LeftPar, TokenType::LeftPar) => true,
            (TokenType::RightPar, TokenType::RightPar) => true,
            (TokenType::LeftBracket, TokenType::LeftBracket) => true,
            (TokenType::RightBracket, TokenType::RightBracket) => true,
            (TokenType::Comma, TokenType::Comma) => true,
            (TokenType::Colon, TokenType::Colon) => true,
            (TokenType::Modulo, TokenType::Modulo) => true,
            (TokenType::Star, TokenType::Star) => true,
            (TokenType::Slash, TokenType::Slash) => true,
            (TokenType::Plus, TokenType::Plus) => true,
            (TokenType::Minus, TokenType::Minus) => true,
            (TokenType::Dollar, TokenType::Dollar) => true,
            (TokenType::Ampersand, TokenType::Ampersand) => true,
            (TokenType::PlusPlus, TokenType::PlusPlus) => true,
            (TokenType::MinusMinus, TokenType::MinusMinus) => true,
            (TokenType::EscapeCode, TokenType::EscapeCode) => true,
            (TokenType::Greater, TokenType::Greater) => true,
            (TokenType::GreaterEqual, TokenType::GreaterEqual) => true,
            (TokenType::Less, TokenType::Less) => true,
            (TokenType::LessEqual, TokenType::LessEqual) => true,
            (TokenType::Equal, TokenType::Equal) => true,
            (TokenType::EqualEqual, TokenType::EqualEqual) => true,
            (TokenType::NotEqual, TokenType::NotEqual) => true,
            (TokenType::Identifier(x), TokenType::Identifier(y)) => *x == *y,
            (TokenType::IntLiteral(x), TokenType::IntLiteral(y)) => *x == *y,
            (TokenType::FloatLiteral(x), TokenType::FloatLiteral(y)) => *x == *y,
            (TokenType::CharLiteral(x), TokenType::CharLiteral(y)) => *x == *y,
            (TokenType::BoolLiteral(x), TokenType::BoolLiteral(y)) => *x == *y,
            (TokenType::StringLiteral(x), TokenType::StringLiteral(y)) => *x == *y,
            (TokenType::IntType, TokenType::IntType) => true,
            (TokenType::CharType, TokenType::CharType) => true,
            (TokenType::BoolType, TokenType::BoolType) => true,
            (TokenType::FloatType, TokenType::FloatType) => true,
            (TokenType::And, TokenType::And) => true,
            (TokenType::Or, TokenType::Or) => true,
            (TokenType::Not, TokenType::Not) => true,
            (TokenType::ScriptArea, TokenType::ScriptArea) => true,
            (TokenType::StartScript, TokenType::StartScript) => true,
            (TokenType::EndScript, TokenType::EndScript) => true,
            (TokenType::Declare, TokenType::Declare) => true,
            (TokenType::Print, TokenType::Print) => true,
            (TokenType::Scan, TokenType::Scan) => true,
            (TokenType::If, TokenType::If) => true,
            (TokenType::StartIf, TokenType::StartIf) => true,
            (TokenType::EndIf, TokenType::EndIf) => true,
            (TokenType::Else, TokenType::Else) => true,
            (TokenType::ElseIf, TokenType::ElseIf) => true,
            (TokenType::For, TokenType::For) => true,
            (TokenType::StartFor, TokenType::StartFor) => true,
            (TokenType::EndFor, TokenType::EndFor) => true,
            (TokenType::RepeatWhen, TokenType::RepeatWhen) => true,
            (TokenType::StartRepeat, TokenType::StartRepeat) => true,
            (TokenType::EndRepeat, TokenType::EndRepeat) => true,
            (TokenType::NewLine, TokenType::NewLine) => true,
            (TokenType::Comment, TokenType::Comment) => true,
            (TokenType::Eof, TokenType::Eof) => true,
            _ => false,
        }
    }
}

impl View for Token {
    type V = Token<Seq<char>>;

    open spec fn view(&self) -> Token<Seq<char>> {
        Token { token_type: self.token_type@, lexeme: self.lexeme@, line: self.line }
    }
}

impl Token {
    /// A copy of this token that is equal to it.
    pub fn duplicate(&self) -> (r: Token)
        ensures
            r == *self,
            r@ == self@,
    {
        Token { token_type: self.token_type.duplicate(), lexeme: self.lexeme.clone(), line: self.line }
    }

    pub fn new(token_type: TokenType, lexeme: String, line: usize) -> (t: Self)
        ensures
            t.token_type == token_type,
            t.lexeme == lexeme,
            t.line == line,
    {
        Token { token_type, lexeme, line }
    }
}

} // verus!
