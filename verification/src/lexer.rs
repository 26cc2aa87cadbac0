use vstd::prelude::*;

use crate::text::{chars_of, digits_value, is_digit, lemma_digits_value_nonneg, nat_text, parse_i64, parse_i64_text, push_all, push_char, string_from_range, string_of, usize_to_text};
use crate::token::{Token, TokenType};

verus! {

/// A problem the lexer reports and then skips over.
#[derive(Debug, Clone, Copy, PartialEq, Eq)]
pub enum LexError {
    /// A number runs straight into letters, as in `12abc`.
    NumberBeforeName { line: usize },
    /// A character that starts no token.
    UnexpectedChar { line: usize, found: char },
}

/// A source on which scanning cannot go on: an operator that the symbol
/// table lists but gives no token (`&&`, `||`), or an integer literal too
/// large for 64 bits.
#[derive(Debug, Clone, Copy, PartialEq, Eq)]
pub enum LexFault {
    UnknownOperator { line: usize },
    IntegerTooLarge { line: usize },
}

/// The classes of character that the token patterns are made of.
#[derive(Debug, Clone, Copy, PartialEq, Eq)]
pub enum CharClass {
    /// space, tab, carriage return
    Blank,
    /// `0`-`9`
    Digit,
    /// ASCII letters, digits and `_`
    Word,
    /// anything but a line feed
    NotNewline,
    /// anything but a double quote
    NotQuote,
}

pub open spec fn is_alpha(c: char) -> bool {
    ('a' <= c && c <= 'z') || ('A' <= c && c <= 'Z')
}

pub open spec fn is_word_char(c: char) -> bool {
    is_alpha(c) || is_digit(c) || c == '_'
}

pub open spec fn is_quote(c: char) -> bool {
    c == '\'' || c == '\u{2019}'
}

pub open spec fn in_class(c: char, cls: CharClass) -> bool {
    match cls {
        CharClass::Blank => c == ' ' || c == '\t' || c == '\r',
        CharClass::Digit => is_digit(c),
        CharClass::Word => is_word_char(c),
        CharClass::NotNewline => c != '\n',
        CharClass::NotQuote => c != '"',
    }
}

fn class_has(c: char, cls: CharClass) -> (r: bool)
    ensures
        r == in_class(c, cls),
{
    match cls {
        CharClass::Blank => c == ' ' || c == '\t' || c == '\r',
        CharClass::Digit => '0' <= c && c <= '9',
        CharClass::Word => ('a' <= c && c <= 'z') || ('A' <= c && c <= 'Z') || ('0' <= c && c <= '9')
            || c == '_',
        CharClass::NotNewline => c != '\n',
        CharClass::NotQuote => c != '"',
    }
}

/// The length of the longest run of characters of class `cls` that starts
/// at `i`.
pub open spec fn run_len(s: Seq<char>, i: int, cls: CharClass) -> nat
    decreases s.len() - i,
{
    if 0 <= i < s.len() && in_class(s[i], cls) {
        1 + run_len(s, i + 1, cls)
    } else {
        0
    }
}

/// `s[i]` exists and is `c`.
pub open spec fn char_at(s: Seq<char>, i: int, c: char) -> bool {
    0 <= i < s.len() && s[i] == c
}

/// `s[i..]` starts with `w`.
pub open spec fn word_at(s: Seq<char>, i: int, w: Seq<char>) -> bool {
    0 <= i && i + w.len() <= s.len() && s.subrange(i, i + w.len()) == w
}

/// Whether `c` is a word character as the `\w` class and the `\b`
/// assertion of the regex crate see it: `\p{Alphabetic}`, `\p{M}`, `\d`,
/// `\p{Pc}` or `\p{Join_Control}`.
pub uninterp spec fn unicode_word_char(c: char) -> bool;

/// Whether `c` is a Unicode word character.
///
/// Trusted: asks `regex::Regex::is_match` whether `^\w$` matches `c`. The
/// contract names the result and states what the regex documentation's
/// definition of `\w` gives on ASCII: the letters, the digits and `_`.
#[verifier::external_body]
fn regex_word_char(c: char) -> (r: bool)
    ensures
        r == unicode_word_char(c),
        (c as u32) < 128 ==> (r == is_word_char(c)),
{
    let mut buf = [0u8; 4];
    let text: &str = c.encode_utf8(&mut buf);
    regex::Regex::new(r"^\w$").unwrap().is_match(text)
}

/// A word boundary after a keyword that ends in a letter: the end of the
/// source, or a character that is not a word character.
pub open spec fn boundary_at(s: Seq<char>, j: int) -> bool {
    j >= s.len() || !unicode_word_char(s[j])
}

/// The keywords made of two words, in the order they are tried.
pub open spec fn multi_word(k: int) -> Seq<char> {
    if k == 0 { "SCRIPT AREA"@ }
    else if k == 1 { "START SCRIPT"@ }
    else if k == 2 { "END SCRIPT"@ }
    else if k == 3 { "START IF"@ }
    else if k == 4 { "END IF"@ }
    else if k == 5 { "ELSE IF"@ }
    else if k == 6 { "START FOR"@ }
    else if k == 7 { "END FOR"@ }
    else if k == 8 { "REPEAT WHEN"@ }
    else if k == 9 { "START REPEAT"@ }
    else { "END REPEAT"@ }
}

pub open spec fn multi_kind(k: int) -> TokenType<Seq<char>> {
    if k == 0 { TokenType::ScriptArea }
    else if k == 1 { TokenType::StartScript }
    else if k == 2 { TokenType::EndScript }
    else if k == 3 { TokenType::StartIf }
    else if k == 4 { TokenType::EndIf }
    else if k == 5 { TokenType::ElseIf }
    else if k == 6 { TokenType::StartFor }
    else if k == 7 { TokenType::EndFor }
    else if k == 8 { TokenType::RepeatWhen }
    else if k == 9 { TokenType::StartRepeat }
    else { TokenType::EndRepeat }
}

/// The first two-word keyword, from the `k`-th on, that stands at `i` and is
/// followed by a word boundary.
pub open spec fn multi_keyword_from(s: Seq<char>, i: int, k: int) -> Option<int>
    decreases 11 - k,
{
    if k < 0 || k >= 11 {
        None
    } else if word_at(s, i, multi_word(k)) && boundary_at(s, i + multi_word(k).len()) {
        Some(k)
    } else {
        multi_keyword_from(s, i, k + 1)
    }
}

/// The kind of a reserved single word.
pub open spec fn keyword_kind(w: Seq<char>) -> Option<TokenType<Seq<char>>> {
    if w == "DECLARE"@ { Some(TokenType::Declare) }
    else if w == "PRINT"@ { Some(TokenType::Print) }
    else if w == "SCAN"@ { Some(TokenType::Scan) }
    else if w == "INT"@ { Some(TokenType::IntType) }
    else if w == "BOOL"@ { Some(TokenType::BoolType) }
    else if w == "CHAR"@ { Some(TokenType::CharType) }
    else if w == "FLOAT"@ { Some(TokenType::FloatType) }
    else if w == "AND"@ { Some(TokenType::And) }
    else if w == "OR"@ { Some(TokenType::Or) }
    else if w == "NOT"@ { Some(TokenType::Not) }
    else if w == "IF"@ { Some(TokenType::If) }
    else if w == "ELSE"@ { Some(TokenType::Else) }
    else if w == "FOR"@ { Some(TokenType::For) }
    else { None }
}

/// The kind of a word that matched the identifier pattern. BOOL literals
/// are written in double quotes, so a bare `TRUE` or `FALSE` is a name.
pub open spec fn word_kind(w: Seq<char>) -> TokenType<Seq<char>> {
    match keyword_kind(w) {
        Some(k) => k,
        None => TokenType::Identifier(w),
    }
}

/// The kind of a double-quoted literal with the given contents.
pub open spec fn quoted_kind(v: Seq<char>) -> TokenType<Seq<char>> {
    if v == "TRUE"@ {
        TokenType::BoolLiteral(true)
    } else if v == "FALSE"@ {
        TokenType::BoolLiteral(false)
    } else {
        TokenType::StringLiteral(v)
    }
}

pub open spec fn pair_at(s: Seq<char>, i: int, a: char, b: char) -> bool {
    char_at(s, i, a) && char_at(s, i + 1, b)
}

/// The operator at `i`: its length and its kind, the kind being `None` for
/// `&&` and `||`, which the operator pattern matches but no kind names.
/// Longer operators are tried first, as the pattern lists them.
pub open spec fn symbol_at(s: Seq<char>, i: int) -> Option<(int, Option<TokenType<Seq<char>>>)> {
    if pair_at(s, i, '=', '=') { Some((2, Some(TokenType::EqualEqual))) }
    else if pair_at(s, i, '>', '=') { Some((2, Some(TokenType::GreaterEqual))) }
    else if pair_at(s, i, '<', '=') { Some((2, Some(TokenType::LessEqual))) }
    else if pair_at(s, i, '<', '>') { Some((2, Some(TokenType::NotEqual))) }
    else if pair_at(s, i, '!', '=') { Some((2, Some(TokenType::NotEqual))) }
    else if pair_at(s, i, '+', '+') { Some((2, Some(TokenType::PlusPlus))) }
    else if pair_at(s, i, '-', '-') { Some((2, Some(TokenType::MinusMinus))) }
    else if char_at(s, i, '[') && i + 2 < s.len() && s[i + 1] != '\n' && s[i + 2] == ']' {
        Some((3, Some(TokenType::EscapeCode)))
    }
    else if pair_at(s, i, '[', ']') { Some((2, Some(TokenType::EscapeCode))) }
    else if pair_at(s, i, '&', '&') || pair_at(s, i, '|', '|') { Some((2, None)) }
    else if char_at(s, i, '!') { Some((1, Some(TokenType::Not))) }
    else if char_at(s, i, '+') { Some((1, Some(TokenType::Plus))) }
    else if char_at(s, i, '-') { Some((1, Some(TokenType::Minus))) }
    else if char_at(s, i, '*') { Some((1, Some(TokenType::Star))) }
    else if char_at(s, i, '/') { Some((1, Some(TokenType::Slash))) }
    else if char_at(s, i, '%') { Some((1, Some(TokenType::Modulo))) }
    else if char_at(s, i, '&') { Some((1, Some(TokenType::Ampersand))) }
    else if char_at(s, i, '<') { Some((1, Some(TokenType::Less))) }
    else if char_at(s, i, '>') { Some((1, Some(TokenType::Greater))) }
    else if char_at(s, i, '=') { Some((1, Some(TokenType::Equal))) }
    else if char_at(s, i, '[') { Some((1, Some(TokenType::LeftBracket))) }
    else if char_at(s, i, ']') { Some((1, Some(TokenType::RightBracket))) }
    else if char_at(s, i, '(') { Some((1, Some(TokenType::LeftPar))) }
    else if char_at(s, i, ')') { Some((1, Some(TokenType::RightPar))) }
    else if char_at(s, i, ',') { Some((1, Some(TokenType::Comma))) }
    else if char_at(s, i, ':') { Some((1, Some(TokenType::Colon))) }
    else if char_at(s, i, '$') { Some((1, Some(TokenType::Dollar))) }
    else { None }
}

/// The number of line feeds in `v`.
pub open spec fn newline_count(v: Seq<char>) -> nat
    decreases v.len(),
{
    if v.len() == 0 {
        0
    } else {
        newline_count(v.drop_last()) + if v.last() == '\n' { 1nat } else { 0nat }
    }
}

/// The state of a scan: the source, the tokens so far, the position and line
/// reached, the problems reported, and the fault that stopped it, if any.
pub struct LexState {
    pub source: Seq<char>,
    pub tokens: Seq<Token<Seq<char>>>,
    pub current: int,
    pub line: int,
    pub errors: Seq<LexError>,
    pub fault: Option<LexFault>,
}

/// `st` with a token of kind `k` made of the next `n` characters, on line `l`.
pub open spec fn emit(st: LexState, k: TokenType<Seq<char>>, n: int, l: int) -> LexState {
    LexState {
        tokens: st.tokens.push(
            Token { token_type: k, lexeme: st.source.subrange(st.current, st.current + n), line: l as usize },
        ),
        current: st.current + n,
        line: l,
        ..st
    }
}

/// `st` with the next `n` characters skipped.
pub open spec fn skip(st: LexState, n: int) -> LexState {
    LexState { current: st.current + n, ..st }
}

/// The length of a number at `i`: digits, then optionally a point and more
/// digits.
pub open spec fn number_len(s: Seq<char>, i: int) -> int {
    let d = run_len(s, i, CharClass::Digit) as int;
    if char_at(s, i + d, '.') && run_len(s, i + d + 1, CharClass::Digit) > 0 {
        d + 1 + run_len(s, i + d + 1, CharClass::Digit)
    } else {
        d
    }
}

/// One step of the scan: what the token patterns, tried in their order, make
/// of the source at the current position.
pub open spec fn scan_step(st: LexState) -> LexState {
    let s = st.source;
    let i = st.current;
    let line = st.line;
    if run_len(s, i, CharClass::Blank) > 0 {
        skip(st, run_len(s, i, CharClass::Blank) as int)
    } else if char_at(s, i, '\n') {
        LexState { line: line + 1, ..emit(st, TokenType::NewLine, 1, line) }
    } else if pair_at(s, i, '%', '%') {
        skip(st, 2 + run_len(s, i + 2, CharClass::NotNewline) as int)
    } else if multi_keyword_from(s, i, 0) is Some {
        let k = multi_keyword_from(s, i, 0)->0;
        emit(st, multi_kind(k), multi_word(k).len() as int, line)
    } else if char_at(s, i, '"') && i + 1 + run_len(s, i + 1, CharClass::NotQuote) < s.len() {
        let j = i + 1 + run_len(s, i + 1, CharClass::NotQuote);
        let value = s.subrange(i + 1, j);
        emit(st, quoted_kind(value), j + 1 - i, line + newline_count(value))
    } else if i + 2 < s.len() && is_quote(s[i]) && !is_quote(s[i + 1]) && is_quote(s[i + 2]) {
        emit(st, TokenType::CharLiteral(s[i + 1]), 3, line)
    } else if 0 <= i < s.len() && is_digit(s[i]) {
        let n = number_len(s, i);
        let d = run_len(s, i, CharClass::Digit) as int;
        if i + n < s.len() && is_alpha(s[i + n]) {
            LexState {
                errors: st.errors.push(LexError::NumberBeforeName { line: line as usize }),
                ..skip(st, n + run_len(s, i + n, CharClass::Word) as int)
            }
        } else if n > d {
            emit(st, TokenType::FloatLiteral(s.subrange(i, i + n)), n, line)
        } else if digits_value(s.subrange(i, i + n)) <= i64::MAX {
            emit(st, TokenType::IntLiteral(digits_value(s.subrange(i, i + n)) as i64), n, line)
        } else {
            LexState { fault: Some(LexFault::IntegerTooLarge { line: line as usize }), ..skip(st, n) }
        }
    } else if 0 <= i < s.len() && (is_alpha(s[i]) || s[i] == '_') {
        let n = run_len(s, i, CharClass::Word) as int;
        emit(st, word_kind(s.subrange(i, i + n)), n, line)
    } else if symbol_at(s, i) is Some {
        let (n, k) = symbol_at(s, i)->0;
        match k {
            Some(kind) => emit(st, kind, n, line),
            None => LexState { fault: Some(LexFault::UnknownOperator { line: line as usize }), ..skip(st, n) },
        }
    } else {
        LexState {
            errors: st.errors.push(LexError::UnexpectedChar { line: line as usize, found: s[i] }),
            ..skip(st, 1)
        }
    }
}

/// The state is one a scan can be in: the position within the source, and the
/// line no further than one past the position.
pub open spec fn lex_state_ok(st: LexState) -> bool {
    &&& 0 <= st.current <= st.source.len()
    &&& 1 <= st.line <= st.current + 1
    &&& st.source.len() < usize::MAX
}

proof fn lemma_run_len_bound(s: Seq<char>, i: int, cls: CharClass)
    requires
        0 <= i <= s.len(),
    ensures
        i + run_len(s, i, cls) <= s.len(),
        forall|k: int| i <= k < i + run_len(s, i, cls) ==> in_class(#[trigger] s[k], cls),
    decreases s.len() - i,
{
    if i < s.len() && in_class(s[i], cls) {
        lemma_run_len_bound(s, i + 1, cls);
    }
}

proof fn lemma_newline_count_bound(v: Seq<char>)
    ensures
        newline_count(v) <= v.len(),
    decreases v.len(),
{
    if v.len() > 0 {
        lemma_newline_count_bound(v.drop_last());
    }
}

proof fn lemma_multi_keyword_fits(s: Seq<char>, i: int, k: int)
    requires
        multi_keyword_from(s, i, k) is Some,
    ensures
        ({
            let m = multi_keyword_from(s, i, k)->0;
            &&& 0 <= m < 11
            &&& word_at(s, i, multi_word(m))
            &&& multi_word(m).len() >= 1
        }),
    decreases 11 - k,
{
    reveal_strlit("SCRIPT AREA");
    reveal_strlit("START SCRIPT");
    reveal_strlit("END SCRIPT");
    reveal_strlit("START IF");
    reveal_strlit("END IF");
    reveal_strlit("ELSE IF");
    reveal_strlit("START FOR");
    reveal_strlit("END FOR");
    reveal_strlit("REPEAT WHEN");
    reveal_strlit("START REPEAT");
    reveal_strlit("END REPEAT");
    if 0 <= k < 11 && !(word_at(s, i, multi_word(k)) && boundary_at(s, i + multi_word(k).len())) {
        lemma_multi_keyword_fits(s, i, k + 1);
    }
}

/// Each step moves forward by at least one character, stays within the source
/// and keeps the line within bounds.
pub proof fn lemma_scan_step_advances(st: LexState)
    requires
        lex_state_ok(st),
        st.current < st.source.len(),
    ensures
        lex_state_ok(scan_step(st)),
        scan_step(st).current > st.current,
        scan_step(st).source == st.source,
{
    let s = st.source;
    let i = st.current;
    lemma_run_len_bound(s, i, CharClass::Blank);
    lemma_run_len_bound(s, i + 1, CharClass::NotQuote);
    lemma_run_len_bound(s, i, CharClass::Digit);
    lemma_run_len_bound(s, i, CharClass::Word);
    if pair_at(s, i, '%', '%') {
        lemma_run_len_bound(s, i + 2, CharClass::NotNewline);
    }
    if multi_keyword_from(s, i, 0) is Some {
        lemma_multi_keyword_fits(s, i, 0);
    }
    if char_at(s, i, '"') {
        let j = i + 1 + run_len(s, i + 1, CharClass::NotQuote);
        lemma_newline_count_bound(s.subrange(i + 1, j));
    }
    let d = run_len(s, i, CharClass::Digit) as int;
    if 0 <= i + d + 1 <= s.len() {
        lemma_run_len_bound(s, i + d + 1, CharClass::Digit);
    }
    let n = number_len(s, i);
    if 0 <= i + n <= s.len() {
        lemma_run_len_bound(s, i + n, CharClass::Word);
    }
}

/// Scans from `st` until the source is used up or a fault stops the scan.
pub open spec fn scan_all(st: LexState) -> LexState
    decreases st.source.len() - st.current,
{
    if lex_state_ok(st) && st.current < st.source.len() && st.fault is None {
        proof { lemma_scan_step_advances(st); }
        scan_all(scan_step(st))
    } else {
        st
    }
}

/// The whole scan: every step, then the end-of-file token.
pub open spec fn scan_finish(st: LexState) -> LexState {
    let e = scan_all(st);
    LexState {
        tokens: e.tokens.push(Token { token_type: TokenType::Eof, lexeme: Seq::empty(), line: e.line as usize }),
        ..e
    }
}


impl LexError {
    /// The report as the lexer prints it.
    pub open spec fn text(&self) -> Seq<char> {
        match self {
            LexError::NumberBeforeName { line } =>
                "[Line "@ + nat_text(*line as nat) + "] Error: Identifiers cannot start with a number."@,
            LexError::UnexpectedChar { line, found } =>
                "[Line "@ + nat_text(*line as nat) + "] Error: Unexpected character '"@ + seq![*found] + "'"@,
        }
    }

    /// The report as the lexer prints it.
    pub fn message(&self) -> (m: String)
        ensures
            m@ == self.text(),
    {
        let mut m = string_of("[Line ");
        match self {
            LexError::NumberBeforeName { line } => {
                let n = usize_to_text(*line);
                push_all(&mut m, n.as_str());
                push_all(&mut m, "] Error: Identifiers cannot start with a number.");
            },
            LexError::UnexpectedChar { line, found } => {
                let n = usize_to_text(*line);
                push_all(&mut m, n.as_str());
                push_all(&mut m, "] Error: Unexpected character '");
                push_char(&mut m, *found);
                push_all(&mut m, "'");
                assert(m@ =~= self.text());
            },
        }
        m
    }
}

/// The lexer: turns LEXOR source into tokens.
pub struct Lexer {
    source: Vec<char>,
    tokens: Vec<Token>,
    current: usize,
    line: usize,
    errors: Vec<LexError>,
    fault: Option<LexFault>,
}

pub open spec fn tokens_view(v: Seq<Token>) -> Seq<Token<Seq<char>>> {
    v.map_values(|t: Token| t@)
}

impl View for Lexer {
    type V = LexState;

    closed spec fn view(&self) -> LexState {
        LexState {
            source: self.source@,
            tokens: tokens_view(self.tokens@),
            current: self.current as int,
            line: self.line as int,
            errors: self.errors@,
            fault: self.fault,
        }
    }
}

fn multi_word_text(k: usize) -> (w: &'static str)
    requires
        k < 11,
    ensures
        w@ == multi_word(k as int),
{
    if k == 0 { "SCRIPT AREA" }
    else if k == 1 { "START SCRIPT" }
    else if k == 2 { "END SCRIPT" }
    else if k == 3 { "START IF" }
    else if k == 4 { "END IF" }
    else if k == 5 { "ELSE IF" }
    else if k == 6 { "START FOR" }
    else if k == 7 { "END FOR" }
    else if k == 8 { "REPEAT WHEN" }
    else if k == 9 { "START REPEAT" }
    else { "END REPEAT" }
}

fn multi_word_kind(k: usize) -> (t: TokenType)
    requires
        k < 11,
    ensures
        t@ == multi_kind(k as int),
{
    if k == 0 { TokenType::ScriptArea }
    else if k == 1 { TokenType::StartScript }
    else if k == 2 { TokenType::EndScript }
    else if k == 3 { TokenType::StartIf }
    else if k == 4 { TokenType::EndIf }
    else if k == 5 { TokenType::ElseIf }
    else if k == 6 { TokenType::StartFor }
    else if k == 7 { TokenType::EndFor }
    else if k == 8 { TokenType::RepeatWhen }
    else if k == 9 { TokenType::StartRepeat }
    else { TokenType::EndRepeat }
}

impl Lexer {
    /// The lexer is in a state a scan can reach.
    pub open spec fn wf(&self) -> bool {
        lex_state_ok(self@)
    }

    /// A lexer at the start of `source`, on line 1, with nothing scanned.
    pub fn new(source: &str) -> (l: Lexer)
        requires
            source@.len() < usize::MAX,
        ensures
            l.wf(),
            l@ == (LexState {
                source: source@,
                tokens: Seq::empty(),
                current: 0,
                line: 1,
                errors: Seq::empty(),
                fault: None,
            }),
    {
        let l = Lexer {
            source: chars_of(source),
            tokens: Vec::new(),
            current: 0,
            line: 1,
            errors: Vec::new(),
            fault: None,
        };
        assert(tokens_view(l.tokens@) =~= Seq::empty());
        l
    }

    /// The problems reported so far, in order.
    pub fn errors(&self) -> (e: &Vec<LexError>)
        ensures
            e@ == self@.errors,
    {
        &self.errors
    }

    /// The fault that stopped the scan, if one did.
    pub fn fault(&self) -> (f: Option<LexFault>)
        ensures
            f == self@.fault,
    {
        self.fault
    }

    fn run_end(&self, i: usize, cls: CharClass) -> (j: usize)
        requires
            i <= self.source@.len(),
        ensures
            j == i + run_len(self.source@, i as int, cls),
    {
        let n = self.source.len();
        let mut j = i;
        while j < n && class_has(self.source[j], cls)
            invariant
                n == self.source@.len(),
                i <= j <= n,
                run_len(self.source@, i as int, cls) == (j - i) + run_len(self.source@, j as int, cls),
            decreases n - j,
        {
            j = j + 1;
        }
        j
    }

    fn at(&self, i: usize, c: char) -> (r: bool)
        ensures
            r == char_at(self.source@, i as int, c),
    {
        i < self.source.len() && self.source[i] == c
    }

    /// `source[start..end]` spells `w`.
    fn range_is(&self, start: usize, end: usize, w: &str) -> (r: bool)
        requires
            start <= end <= self.source@.len(),
        ensures
            r == (self.source@.subrange(start as int, end as int) == w@),
    {
        let len = w.unicode_len();
        if end - start != len {
            return false;
        }
        let mut k: usize = 0;
        while k < len
            invariant
                len == w@.len(),
                start + len == end <= self.source@.len(),
                k <= len,
                forall|m: int| 0 <= m < k ==> self.source@[start + m] == w@[m],
            decreases len - k,
        {
            if self.source[start + k] != w.get_char(k) {
                assert(self.source@.subrange(start as int, end as int)[k as int] != w@[k as int]);
                return false;
            }
            k = k + 1;
        }
        assert(self.source@.subrange(start as int, end as int) =~= w@);
        true
    }

    /// `source[i..]` starts with `w`.
    fn word_here(&self, i: usize, w: &str) -> (r: bool)
        ensures
            r == word_at(self.source@, i as int, w@),
    {
        let len = w.unicode_len();
        if i <= self.source.len() && len <= self.source.len() - i {
            self.range_is(i, i + len, w)
        } else {
            false
        }
    }

    fn multi_keyword(&self, i: usize) -> (r: Option<usize>)
        ensures
            r is Some <==> multi_keyword_from(self.source@, i as int, 0) is Some,
            r matches Some(k) ==> k < 11 && k as int == multi_keyword_from(self.source@, i as int, 0)->0,
    {
        let mut k: usize = 0;
        while k < 11
            invariant
                k <= 11,
                multi_keyword_from(self.source@, i as int, 0) == multi_keyword_from(self.source@, i as int, k as int),
            decreases 11 - k,
        {
            let w = multi_word_text(k);
            if self.word_here(i, w) {
                let len = w.unicode_len();
                assert(i + len <= self.source@.len());
                let total = self.source.len();
                let end = i + len;
                if end >= self.source.len() || !regex_word_char(self.source[end]) {
                    return Some(k);
                }
            }
            k = k + 1;
        }
        None
    }

    fn keyword(&self, start: usize, end: usize) -> (r: Option<TokenType>)
        requires
            start <= end <= self.source@.len(),
        ensures
            r matches Some(t) ==> keyword_kind(self.source@.subrange(start as int, end as int)) == Some(t@),
            r is None ==> keyword_kind(self.source@.subrange(start as int, end as int)) is None,
    {
        if self.range_is(start, end, "DECLARE") { Some(TokenType::Declare) }
        else if self.range_is(start, end, "PRINT") { Some(TokenType::Print) }
        else if self.range_is(start, end, "SCAN") { Some(TokenType::Scan) }
        else if self.range_is(start, end, "INT") { Some(TokenType::IntType) }
        else if self.range_is(start, end, "BOOL") { Some(TokenType::BoolType) }
        else if self.range_is(start, end, "CHAR") { Some(TokenType::CharType) }
        else if self.range_is(start, end, "FLOAT") { Some(TokenType::FloatType) }
        else if self.range_is(start, end, "AND") { Some(TokenType::And) }
        else if self.range_is(start, end, "OR") { Some(TokenType::Or) }
        else if self.range_is(start, end, "NOT") { Some(TokenType::Not) }
        else if self.range_is(start, end, "IF") { Some(TokenType::If) }
        else if self.range_is(start, end, "ELSE") { Some(TokenType::Else) }
        else if self.range_is(start, end, "FOR") { Some(TokenType::For) }
        else { None }
    }

    fn word_token(&self, start: usize, end: usize) -> (t: TokenType)
        requires
            start <= end <= self.source@.len(),
        ensures
            t@ == word_kind(self.source@.subrange(start as int, end as int)),
    {
        match self.keyword(start, end) {
            Some(k) => k,
            None => TokenType::Identifier(string_from_range(&self.source, start, end)),
        }
    }

    fn quoted_token(&self, start: usize, end: usize) -> (t: TokenType)
        requires
            start <= end <= self.source@.len(),
        ensures
            t@ == quoted_kind(self.source@.subrange(start as int, end as int)),
    {
        if self.range_is(start, end, "TRUE") {
            TokenType::BoolLiteral(true)
        } else if self.range_is(start, end, "FALSE") {
            TokenType::BoolLiteral(false)
        } else {
            TokenType::StringLiteral(string_from_range(&self.source, start, end))
        }
    }

    fn pair(&self, i: usize, a: char, b: char) -> (r: bool)
        ensures
            r == pair_at(self.source@, i as int, a, b),
    {
        if self.at(i, a) {
            let total = self.source.len();
            self.at(i + 1, b)
        } else {
            false
        }
    }

    fn symbol(&self, i: usize) -> (r: Option<(usize, Option<TokenType>)>)
        requires
            i < self.source@.len(),
        ensures
            r is Some <==> symbol_at(self.source@, i as int) is Some,
            r matches Some((n, k)) ==> {
                let (sn, sk) = symbol_at(self.source@, i as int)->0;
                &&& n as int == sn
                &&& (k is Some <==> sk is Some)
                &&& (k matches Some(t) ==> sk == Some(t@))
            },
    {
        let n = self.source.len();
        if self.pair(i, '=', '=') { Some((2, Some(TokenType::EqualEqual))) }
        else if self.pair(i, '>', '=') { Some((2, Some(TokenType::GreaterEqual))) }
        else if self.pair(i, '<', '=') { Some((2, Some(TokenType::LessEqual))) }
        else if self.pair(i, '<', '>') { Some((2, Some(TokenType::NotEqual))) }
        else if self.pair(i, '!', '=') { Some((2, Some(TokenType::NotEqual))) }
        else if self.pair(i, '+', '+') { Some((2, Some(TokenType::PlusPlus))) }
        else if self.pair(i, '-', '-') { Some((2, Some(TokenType::MinusMinus))) }
        else if self.at(i, '[') && n - i > 2 && self.source[i + 1] != '\n' && self.source[i + 2] == ']' {
            Some((3, Some(TokenType::EscapeCode)))
        }
        else if self.pair(i, '[', ']') { Some((2, Some(TokenType::EscapeCode))) }
        else if self.pair(i, '&', '&') || self.pair(i, '|', '|') { Some((2, None)) }
        else if self.at(i, '!') { Some((1, Some(TokenType::Not))) }
        else if self.at(i, '+') { Some((1, Some(TokenType::Plus))) }
        else if self.at(i, '-') { Some((1, Some(TokenType::Minus))) }
        else if self.at(i, '*') { Some((1, Some(TokenType::Star))) }
        else if self.at(i, '/') { Some((1, Some(TokenType::Slash))) }
        else if self.at(i, '%') { Some((1, Some(TokenType::Modulo))) }
        else if self.at(i, '&') { Some((1, Some(TokenType::Ampersand))) }
        else if self.at(i, '<') { Some((1, Some(TokenType::Less))) }
        else if self.at(i, '>') { Some((1, Some(TokenType::Greater))) }
        else if self.at(i, '=') { Some((1, Some(TokenType::Equal))) }
        else if self.at(i, '[') { Some((1, Some(TokenType::LeftBracket))) }
        else if self.at(i, ']') { Some((1, Some(TokenType::RightBracket))) }
        else if self.at(i, '(') { Some((1, Some(TokenType::LeftPar))) }
        else if self.at(i, ')') { Some((1, Some(TokenType::RightPar))) }
        else if self.at(i, ',') { Some((1, Some(TokenType::Comma))) }
        else if self.at(i, ':') { Some((1, Some(TokenType::Colon))) }
        else if self.at(i, '$') { Some((1, Some(TokenType::Dollar))) }
        else { None }
    }

    fn newlines_in(&self, start: usize, end: usize) -> (c: usize)
        requires
            start <= end <= self.source@.len(),
        ensures
            c == newline_count(self.source@.subrange(start as int, end as int)),
    {
        let mut c: usize = 0;
        let mut k = start;
        while k < end
            invariant
                start <= k <= end <= self.source@.len(),
                c == newline_count(self.source@.subrange(start as int, k as int)),
                c <= k - start,
            decreases end - k,
        {
            assert(self.source@.subrange(start as int, k + 1).drop_last()
                =~= self.source@.subrange(start as int, k as int));
            if self.source[k] == '\n' {
                c = c + 1;
            }
            k = k + 1;
        }
        c
    }

    /// The value of the digits `source[start..end]`, where it fits in an `i64`.
    fn digits_number(&self, start: usize, end: usize) -> (r: Option<i64>)
        requires
            start < end <= self.source@.len(),
            forall|k: int| start <= k < end ==> is_digit(#[trigger] self.source@[k]),
        ensures
            r is Some <==> digits_value(self.source@.subrange(start as int, end as int)) <= i64::MAX,
            r matches Some(v) ==> v as int == digits_value(self.source@.subrange(start as int, end as int)),
    {
        let mut digits: Vec<char> = Vec::new();
        let mut k = start;
        while k < end
            invariant
                start <= k <= end <= self.source@.len(),
                digits@ == self.source@.subrange(start as int, k as int),
            decreases end - k,
        {
            digits.push(self.source[k]);
            assert(self.source@.subrange(start as int, k + 1)
                =~= self.source@.subrange(start as int, k as int).push(self.source@[k as int]));
            k = k + 1;
        }
        let ghost body = digits@;
        assert(crate::text::all_digits(body));
        assert(is_digit(body[0]));
        proof { lemma_digits_value_nonneg(body); }
        parse_i64(&digits)
    }

    fn emit_token(&mut self, kind: TokenType, n: usize, line: usize)
        requires
            old(self).current + n <= old(self).source@.len(),
        ensures
            final(self)@ == emit(old(self)@, kind@, n as int, line as int),
    {
        let total = self.source.len();
        let lexeme = string_from_range(&self.source, self.current, self.current + n);
        let t = Token::new(kind, lexeme, line);
        let ghost before = self.tokens@;
        self.tokens.push(t);
        assert(tokens_view(self.tokens@) =~= tokens_view(before).push(t@));
        self.current = self.current + n;
        self.line = line;
    }

    /// Scans one token, or skips blanks, a comment or a bad character. Each
    /// call moves forward in the source and appends at most one token, so a
    /// scan of the whole source ends.
    pub fn scan_token(&mut self)
        requires
            lex_state_ok(old(self)@),
            old(self)@.current < old(self)@.source.len(),
        ensures
            final(self)@ == scan_step(old(self)@),
            lex_state_ok(final(self)@),
            old(self)@.current < final(self)@.current <= final(self)@.source.len(),
            final(self)@.source == old(self)@.source,
            final(self)@.line >= old(self)@.line,
            step_emits_in_order(old(self)@, final(self)@),
    {
        proof {
            lemma_scan_step_advances(self@);
            lemma_step_emits(self@);
        }
        let ghost s = self.source@;
        let n = self.source.len();
        let i = self.current;
        let line = self.line;
        let blank_end = self.run_end(i, CharClass::Blank);
        if blank_end > i {
            self.current = blank_end;
            return;
        }
        if self.at(i, '\n') {
            self.emit_token(TokenType::NewLine, 1, line);
            self.line = line + 1;
            return;
        }
        if self.pair(i, '%', '%') {
            self.current = self.run_end(i + 2, CharClass::NotNewline);
            return;
        }
        if let Some(k) = self.multi_keyword(i) {
            proof { lemma_multi_keyword_fits(s, i as int, 0); }
            let w = multi_word_text(k);
            let len = w.unicode_len();
            self.emit_token(multi_word_kind(k), len, line);
            return;
        }
        if self.at(i, '"') {
            let j = self.run_end(i + 1, CharClass::NotQuote);
            if j < n {
                let kind = self.quoted_token(i + 1, j);
                let extra = self.newlines_in(i + 1, j);
                proof { lemma_newline_count_bound(s.subrange(i + 1, j as int)); }
                self.emit_token(kind, j + 1 - i, line + extra);
                return;
            }
        }
        if i + 2 < n && (self.source[i] == '\'' || self.source[i] == '\u{2019}')
            && !(self.source[i + 1] == '\'' || self.source[i + 1] == '\u{2019}')
            && (self.source[i + 2] == '\'' || self.source[i + 2] == '\u{2019}') {
            let c = self.source[i + 1];
            self.emit_token(TokenType::CharLiteral(c), 3, line);
            return;
        }
        if class_has(self.source[i], CharClass::Digit) {
            let int_end = self.run_end(i, CharClass::Digit);
            proof { lemma_run_len_bound(s, i as int, CharClass::Digit); }
            let mut end = int_end;
            if self.at(int_end, '.') {
                let frac_end = self.run_end(int_end + 1, CharClass::Digit);
                if frac_end > int_end + 1 {
                    end = frac_end;
                }
            }
            assert(end == i + number_len(s, i as int));
            if end < n && (('a' <= self.source[end] && self.source[end] <= 'z')
                || ('A' <= self.source[end] && self.source[end] <= 'Z')) {
                let skip_end = self.run_end(end, CharClass::Word);
                self.errors.push(LexError::NumberBeforeName { line });
                self.current = skip_end;
                return;
            }
            if end > int_end {
                let text = string_from_range(&self.source, i, end);
                self.emit_token(TokenType::FloatLiteral(text), end - i, line);
                return;
            }
            match self.digits_number(i, end) {
                Some(v) => {
                    self.emit_token(TokenType::IntLiteral(v), end - i, line);
                },
                None => {
                    self.fault = Some(LexFault::IntegerTooLarge { line });
                    self.current = end;
                },
            }
            return;
        }
        let c = self.source[i];
        if ('a' <= c && c <= 'z') || ('A' <= c && c <= 'Z') || c == '_' {
            let end = self.run_end(i, CharClass::Word);
            let kind = self.word_token(i, end);
            self.emit_token(kind, end - i, line);
            return;
        }
        match self.symbol(i) {
            Some((len, Some(kind))) => {
                self.emit_token(kind, len, line);
            },
            Some((len, None)) => {
                self.fault = Some(LexFault::UnknownOperator { line });
                self.current = i + len;
            },
            None => {
                self.errors.push(LexError::UnexpectedChar { line, found: c });
                self.current = i + 1;
            },
        }
    }

    /// Scans the rest of the source and ends the token list with `Eof`.
    /// Returns the whole token list. A fault stops the scan where it occurs.
    pub fn scan_tokens(&mut self) -> (r: Vec<Token>)
        requires
            old(self).wf(),
        ensures
            final(self).wf(),
            final(self)@ == scan_finish(old(self)@),
            tokens_view(r@) == final(self)@.tokens,
    {
        while self.current < self.source.len() && self.fault.is_none()
            invariant
                lex_state_ok(self@),
                scan_all(self@) == scan_all(old(self)@),
            decreases self.source@.len() - self.current,
        {
            proof { lemma_scan_step_advances(self@); }
            self.scan_token();
        }
        let eof = Token::new(TokenType::Eof, String::new(), self.line);
        let ghost before = self.tokens@;
        self.tokens.push(eof);
        assert(tokens_view(self.tokens@) =~= tokens_view(before).push(eof@));
        assert(eof@.lexeme =~= Seq::<char>::empty());
        let mut out: Vec<Token> = Vec::new();
        let mut k: usize = 0;
        while k < self.tokens.len()
            invariant
                k <= self.tokens@.len(),
                out@.len() == k,
                forall|m: int| 0 <= m < k ==> #[trigger] out@[m] == self.tokens@[m],
            decreases self.tokens@.len() - k,
        {
            out.push(self.tokens[k].duplicate());
            k = k + 1;
        }
        assert(out@ =~= self.tokens@);
        out
    }
}

/// Tokens in the order of their lines, none of them `Eof`, and none on a
/// line past `line`.
pub open spec fn tokens_in_order(toks: Seq<Token<Seq<char>>>, line: int) -> bool {
    &&& forall|i: int, j: int| 0 <= i <= j < toks.len() ==> (#[trigger] toks[i]).line <= (#[trigger] toks[j]).line
    &&& forall|i: int| 0 <= i < toks.len() ==> (#[trigger] toks[i]).line <= line
    &&& forall|i: int| 0 <= i < toks.len() ==> !((#[trigger] toks[i]).token_type is Eof)
}

proof fn lemma_symbol_not_eof(s: Seq<char>, i: int)
    ensures
        symbol_at(s, i) matches Some((_, Some(k))) ==> !(k is Eof),
{
}

/// A step adds at most one token, never `Eof`, on a line between the line
/// before and the line after.
pub open spec fn step_emits_in_order(st: LexState, n: LexState) -> bool {
    &&& n.line >= st.line
    &&& n.tokens == st.tokens || ({
        let t = n.tokens.last();
        &&& n.tokens == st.tokens.push(t)
        &&& st.line <= t.line <= n.line
        &&& !(t.token_type is Eof)
    })
}

proof fn lemma_emit_in_order(st: LexState, k: TokenType<Seq<char>>, n: int, l: int)
    requires
        0 <= st.line <= l <= usize::MAX,
        !(k is Eof),
    ensures
        step_emits_in_order(st, emit(st, k, n, l)),
        step_emits_in_order(st, LexState { line: l + 1, ..emit(st, k, n, l) }),
{
    let e = emit(st, k, n, l);
    assert((l as usize) as int == l);
    assert(e.tokens.last().line == l as usize);
    assert(e.tokens == st.tokens.push(e.tokens.last()));
}

proof fn lemma_step_emits(st: LexState)
    requires
        lex_state_ok(st),
        st.current < st.source.len(),
    ensures
        step_emits_in_order(st, scan_step(st)),
{
    lemma_scan_step_advances(st);
    let s = st.source;
    let i = st.current;
    let line = st.line;
    if run_len(s, i, CharClass::Blank) > 0 {
    } else if char_at(s, i, '\n') {
        lemma_emit_in_order(st, TokenType::NewLine, 1, line);
    } else if pair_at(s, i, '%', '%') {
    } else if multi_keyword_from(s, i, 0) is Some {
        lemma_multi_keyword_fits(s, i, 0);
        let k = multi_keyword_from(s, i, 0)->0;
        lemma_emit_in_order(st, multi_kind(k), multi_word(k).len() as int, line);
    } else if char_at(s, i, '"') && i + 1 + run_len(s, i + 1, CharClass::NotQuote) < s.len() {
        let j = i + 1 + run_len(s, i + 1, CharClass::NotQuote);
        let value = s.subrange(i + 1, j);
        lemma_emit_in_order(st, quoted_kind(value), j + 1 - i, line + newline_count(value));
    } else if i + 2 < s.len() && is_quote(s[i]) && !is_quote(s[i + 1]) && is_quote(s[i + 2]) {
        lemma_emit_in_order(st, TokenType::CharLiteral(s[i + 1]), 3, line);
    } else if 0 <= i < s.len() && is_digit(s[i]) {
        let n = number_len(s, i);
        let d = run_len(s, i, CharClass::Digit) as int;
        lemma_emit_in_order(st, TokenType::FloatLiteral(s.subrange(i, i + n)), n, line);
        lemma_emit_in_order(st, TokenType::IntLiteral(digits_value(s.subrange(i, i + n)) as i64), n, line);
    } else if 0 <= i < s.len() && (is_alpha(s[i]) || s[i] == '_') {
        let n = run_len(s, i, CharClass::Word) as int;
        lemma_emit_in_order(st, word_kind(s.subrange(i, i + n)), n, line);
    } else if symbol_at(s, i) is Some {
        lemma_symbol_not_eof(s, i);
        let (n, k) = symbol_at(s, i)->0;
        if let Some(kind) = k {
            lemma_emit_in_order(st, kind, n, line);
        }
    } else {
    }
}

proof fn lemma_step_in_order(st: LexState)
    requires
        lex_state_ok(st),
        st.current < st.source.len(),
        tokens_in_order(st.tokens, st.line),
    ensures
        tokens_in_order(scan_step(st).tokens, scan_step(st).line),
{
    lemma_step_emits(st);
    let n = scan_step(st);
    if n.tokens != st.tokens {
        assert(n.tokens.drop_last() =~= st.tokens);
        assert forall|i: int| 0 <= i < n.tokens.len() implies (#[trigger] n.tokens[i]).line <= n.line
            && !(n.tokens[i].token_type is Eof) by {
            if i < st.tokens.len() {
                assert(n.tokens[i] == st.tokens[i]);
            }
        }
        assert forall|i: int, j: int| 0 <= i <= j < n.tokens.len() implies (#[trigger] n.tokens[i]).line
            <= (#[trigger] n.tokens[j]).line by {
            if j < st.tokens.len() {
                assert(n.tokens[i] == st.tokens[i]);
                assert(n.tokens[j] == st.tokens[j]);
            } else if i < st.tokens.len() {
                assert(n.tokens[i] == st.tokens[i]);
            }
        }
    }
}

proof fn lemma_scan_all_in_order(st: LexState)
    requires
        lex_state_ok(st),
        tokens_in_order(st.tokens, st.line),
    ensures
        tokens_in_order(scan_all(st).tokens, scan_all(st).line),
        lex_state_ok(scan_all(st)),
    decreases st.source.len() - st.current,
{
    if st.current < st.source.len() && st.fault is None {
        lemma_scan_step_advances(st);
        lemma_step_in_order(st);
        lemma_scan_all_in_order(scan_step(st));
    }
}

/// The scan of any source gives its tokens in the order of their lines,
/// closed by one `Eof` token, the only one.
pub proof fn law_tokens_in_line_order(source: Seq<char>)
    requires
        source.len() < usize::MAX,
    ensures
        ({
            let toks = scan_finish(LexState {
                source,
                tokens: Seq::empty(),
                current: 0,
                line: 1,
                errors: Seq::empty(),
                fault: None,
            }).tokens;
            &&& toks.len() > 0
            &&& toks.last().token_type is Eof
            &&& forall|i: int| 0 <= i < toks.len() - 1 ==> !((#[trigger] toks[i]).token_type is Eof)
            &&& forall|i: int, j: int| 0 <= i <= j < toks.len() ==> (#[trigger] toks[i]).line <= (#[trigger] toks[j]).line
        }),
{
    let st = LexState { source, tokens: Seq::empty(), current: 0, line: 1, errors: Seq::empty(), fault: None };
    lemma_scan_all_in_order(st);
    let e = scan_all(st);
    let toks = scan_finish(st).tokens;
    assert(toks.drop_last() =~= e.tokens);
    assert forall|i: int| 0 <= i < toks.len() - 1 implies !((#[trigger] toks[i]).token_type is Eof) by {
        assert(toks[i] == e.tokens[i]);
    }
    assert forall|i: int, j: int| 0 <= i <= j < toks.len() implies (#[trigger] toks[i]).line
        <= (#[trigger] toks[j]).line by {
        if j < toks.len() - 1 {
            assert(toks[i] == e.tokens[i]);
            assert(toks[j] == e.tokens[j]);
        } else if i < toks.len() - 1 {
            assert(toks[i] == e.tokens[i]);
        }
    }
}


/// Each step of the scan moves forward within the source, keeps the tokens
/// it had, adds at most one (never `Eof`), and never moves the line back: so
/// the scan ends.
pub proof fn law_scan_step_progress(st: LexState)
    requires
        lex_state_ok(st),
        st.current < st.source.len(),
    ensures
        lex_state_ok(scan_step(st)),
        st.current < scan_step(st).current <= st.source.len(),
        scan_step(st).source == st.source,
        step_emits_in_order(st, scan_step(st)),
{
    lemma_scan_step_advances(st);
    lemma_step_emits(st);
}

} // verus!
