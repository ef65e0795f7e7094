//! Tokens of Suru source text and the lexer that produces them.

use vstd::prelude::*;
use crate::limits::CompilerLimits;
use crate::text::{chars_text, concat2};

verus! {

/// The kinds of tokens of Suru source text
#[derive(Debug, Clone, Copy, PartialEq, Eq, Structural)]
pub enum TokenKind {
    Identifier,
    Number,
    Text,
    True,
    False,
    Module,
    Import,
    Export,
    Return,
    TypeKw,
    Match,
    And,
    Or,
    Not,
    This,
    Try,
    Partial,
    Colon,
    Comma,
    Dot,
    LParen,
    RParen,
    LBrace,
    RBrace,
    LBracket,
    RBracket,
    Lt,
    Gt,
    Plus,
    Minus,
    Star,
    Pipe,
    Underscore,
    Newline,
    Eof,
}

/// A token: its kind, its text, and where it starts (1-based line and column)
#[derive(Debug)]
pub struct Token {
    pub kind: TokenKind,
    pub text: String,
    pub line: usize,
    pub column: usize,
}

impl Clone for Token {
    fn clone(&self) -> (r: Self)
        ensures
            r == *self,
    {
        Token { kind: self.kind, text: self.text.clone(), line: self.line, column: self.column }
    }
}

/// An error found while splitting source text into tokens
#[derive(Debug)]
pub struct LexError {
    pub message: String,
    pub line: usize,
    pub column: usize,
}

impl LexError {
    /// The error rendered as text
    pub fn to_string(&self) -> (r: String)
        ensures
            r@ == self.message@,
    {
        self.message.clone()
    }
}

/// Whether a character may start an identifier.
pub open spec fn is_ident_start(c: char) -> bool {
    ('a' <= c && c <= 'z') || ('A' <= c && c <= 'Z') || c == '_'
}

/// Whether a character is a decimal digit.
pub open spec fn is_digit(c: char) -> bool {
    '0' <= c && c <= '9'
}

fn ident_start(c: char) -> (r: bool)
    ensures
        r == is_ident_start(c),
{
    ('a' <= c && c <= 'z') || ('A' <= c && c <= 'Z') || c == '_'
}

fn digit_char(c: char) -> (r: bool)
    ensures
        r == is_digit(c),
{
    '0' <= c && c <= '9'
}

/// The keyword (or literal) kind of an identifier-like word.
pub open spec fn keyword_kind(w: Seq<char>) -> TokenKind {
    if w == "true"@ {
        TokenKind::True
    } else if w == "false"@ {
        TokenKind::False
    } else if w == "module"@ {
        TokenKind::Module
    } else if w == "import"@ {
        TokenKind::Import
    } else if w == "export"@ {
        TokenKind::Export
    } else if w == "return"@ {
        TokenKind::Return
    } else if w == "type"@ {
        TokenKind::TypeKw
    } else if w == "match"@ {
        TokenKind::Match
    } else if w == "and"@ {
        TokenKind::And
    } else if w == "or"@ {
        TokenKind::Or
    } else if w == "not"@ {
        TokenKind::Not
    } else if w == "this"@ {
        TokenKind::This
    } else if w == "try"@ {
        TokenKind::Try
    } else if w == "partial"@ {
        TokenKind::Partial
    } else if w == "_"@ {
        TokenKind::Underscore
    } else {
        TokenKind::Identifier
    }
}

fn word_is(w: &Vec<char>, s: &str) -> (r: bool)
    ensures
        r == (w@ == s@),
{
    let n = s.unicode_len();
    if w.len() != n {
        return false;
    }
    let mut i: usize = 0;
    while i < n
        invariant
            n == s@.len(),
            w@.len() == n,
            0 <= i <= n,
            forall|k: int| 0 <= k < i ==> w@[k] == s@[k],
        decreases n - i,
    {
        if w[i] != s.get_char(i) {
            return false;
        }
        i = i + 1;
    }
    assert(w@ =~= s@);
    true
}

fn keyword(w: &Vec<char>) -> (r: TokenKind)
    ensures
        r == keyword_kind(w@),
{
    if word_is(w, "true") {
        TokenKind::True
    } else if word_is(w, "false") {
        TokenKind::False
    } else if word_is(w, "module") {
        TokenKind::Module
    } else if word_is(w, "import") {
        TokenKind::Import
    } else if word_is(w, "export") {
        TokenKind::Export
    } else if word_is(w, "return") {
        TokenKind::Return
    } else if word_is(w, "type") {
        TokenKind::TypeKw
    } else if word_is(w, "match") {
        TokenKind::Match
    } else if word_is(w, "and") {
        TokenKind::And
    } else if word_is(w, "or") {
        TokenKind::Or
    } else if word_is(w, "not") {
        TokenKind::Not
    } else if word_is(w, "this") {
        TokenKind::This
    } else if word_is(w, "try") {
        TokenKind::Try
    } else if word_is(w, "partial") {
        TokenKind::Partial
    } else if word_is(w, "_") {
        TokenKind::Underscore
    } else {
        TokenKind::Identifier
    }
}

/// The token kind of a single punctuation character, if it is one.
pub open spec fn punct_kind(c: char) -> Option<TokenKind> {
    if c == ':' {
        Some(TokenKind::Colon)
    } else if c == ',' {
        Some(TokenKind::Comma)
    } else if c == '.' {
        Some(TokenKind::Dot)
    } else if c == '(' {
        Some(TokenKind::LParen)
    } else if c == ')' {
        Some(TokenKind::RParen)
    } else if c == '{' {
        Some(TokenKind::LBrace)
    } else if c == '}' {
        Some(TokenKind::RBrace)
    } else if c == '[' {
        Some(TokenKind::LBracket)
    } else if c == ']' {
        Some(TokenKind::RBracket)
    } else if c == '<' {
        Some(TokenKind::Lt)
    } else if c == '>' {
        Some(TokenKind::Gt)
    } else if c == '+' {
        Some(TokenKind::Plus)
    } else if c == '-' {
        Some(TokenKind::Minus)
    } else if c == '*' {
        Some(TokenKind::Star)
    } else if c == '|' {
        Some(TokenKind::Pipe)
    } else {
        None
    }
}

fn punct(c: char) -> (r: Option<TokenKind>)
    ensures
        r == punct_kind(c),
{
    if c == ':' {
        Some(TokenKind::Colon)
    } else if c == ',' {
        Some(TokenKind::Comma)
    } else if c == '.' {
        Some(TokenKind::Dot)
    } else if c == '(' {
        Some(TokenKind::LParen)
    } else if c == ')' {
        Some(TokenKind::RParen)
    } else if c == '{' {
        Some(TokenKind::LBrace)
    } else if c == '}' {
        Some(TokenKind::RBrace)
    } else if c == '[' {
        Some(TokenKind::LBracket)
    } else if c == ']' {
        Some(TokenKind::RBracket)
    } else if c == '<' {
        Some(TokenKind::Lt)
    } else if c == '>' {
        Some(TokenKind::Gt)
    } else if c == '+' {
        Some(TokenKind::Plus)
    } else if c == '-' {
        Some(TokenKind::Minus)
    } else if c == '*' {
        Some(TokenKind::Star)
    } else if c == '|' {
        Some(TokenKind::Pipe)
    } else {
        None
    }
}

/// Whether every token but the last is not an end marker and the last one is.
pub open spec fn ends_with_eof(ts: Seq<Token>) -> bool {
    ts.len() >= 1 && ts.last().kind == TokenKind::Eof && forall|i: int|
        0 <= i < ts.len() - 1 ==> ts[i].kind != TokenKind::Eof
}

/// The text holds only spaces, tabs and carriage returns.
pub open spec fn all_blank(s: Seq<char>) -> bool {
    forall|i: int| 0 <= i < s.len() ==> s[i] == ' ' || s[i] == '\t' || s[i] == '\r'
}

fn lex_error(message: &str, line: usize, column: usize) -> (r: LexError)
    ensures
        r.message@ == message@,
        r.line == line,
        r.column == column,
{
    LexError { message: String::from_str(message), line, column }
}

/// Splits Suru source text into tokens.
///
/// Spaces, tabs and carriage returns separate tokens; `//` starts a comment
/// that runs to the end of the line; line breaks are tokens of their own.
/// The result always ends with a single end-of-file token.
pub fn lex(source: &str, limits: &CompilerLimits) -> (r: Result<Vec<Token>, LexError>)
    ensures
        r matches Ok(ts) ==> ends_with_eof(ts@) && ts@.len() <= limits.max_tokens + 1,
        source@.len() >= usize::MAX / 2 ==> (r matches Err(e) && e.message@ == "Source text too long"@),
        source@.len() < usize::MAX / 2 && (limits.max_tokens > 0 || source@.len() == 0) && all_blank(source@) ==> (
        r matches Ok(ts) && ts@.len() == 1),
{
    let n = source.unicode_len();
    if n >= usize::MAX / 2 {
        return Err(lex_error("Source text too long", 1, 1));
    }
    let mut chars: Vec<char> = Vec::new();
    let mut k: usize = 0;
    while k < n
        invariant
            n == source@.len(),
            0 <= k <= n,
            chars@ == source@.subrange(0, k as int),
        decreases n - k,
    {
        chars.push(source.get_char(k));
        k = k + 1;
        assert(chars@ =~= source@.subrange(0, k as int));
    }
    let mut tokens: Vec<Token> = Vec::new();
    let mut i: usize = 0;
    let mut line: usize = 1;
    let mut column: usize = 1;
    while i < n
        invariant
            n == chars@.len(),
            n < usize::MAX / 2,
            0 <= i <= n,
            1 <= line <= i + 1,
            1 <= column <= i + 1,
            forall|q: int| 0 <= q < tokens@.len() ==> tokens@[q].kind != TokenKind::Eof,
            tokens@.len() <= limits.max_tokens,
            chars@ == source@,
            all_blank(source@) ==> tokens@.len() == 0,
        decreases n - i,
    {
        if tokens.len() >= limits.max_tokens {
            return Err(lex_error("Too many tokens", line, column));
        }
        let c = chars[i];
        if c == ' ' || c == '\t' || c == '\r' {
            i = i + 1;
            column = column + 1;
        } else if c == '\n' {
            tokens.push(Token { kind: TokenKind::Newline, text: String::from_str("\n"), line, column });
            i = i + 1;
            line = line + 1;
            column = 1;
        } else if c == '/' && i + 1 < n && chars[i + 1] == '/' {
            let start = i;
            i = i + 2;
            column = column + 2;
            while i < n && chars[i] != '\n'
                invariant
                    n == chars@.len(),
                    n < usize::MAX / 2,
                    start + 2 <= i <= n,
                    1 <= column <= i + 1,
                decreases n - i,
            {
                i = i + 1;
                column = column + 1;
            }
        } else if ident_start(c) {
            let start = i;
            let mut word: Vec<char> = Vec::new();
            word.push(c);
            i = i + 1;
            while i < n && (ident_start(chars[i]) || digit_char(chars[i]))
                invariant
                    n == chars@.len(),
                    start < i <= n,
                decreases n - i,
            {
                word.push(chars[i]);
                i = i + 1;
            }
            let kind = keyword(&word);
            let text = chars_text(word.as_slice());
            tokens.push(Token { kind, text, line, column });
            column = column + (i - start);
        } else if digit_char(c) {
            let start = i;
            let mut word: Vec<char> = Vec::new();
            word.push(c);
            i = i + 1;
            while i < n && digit_char(chars[i])
                invariant
                    n == chars@.len(),
                    start < i <= n,
                decreases n - i,
            {
                word.push(chars[i]);
                i = i + 1;
            }
            if i + 1 < n && chars[i] == '.' && digit_char(chars[i + 1]) {
                word.push('.');
                i = i + 1;
                while i < n && digit_char(chars[i])
                    invariant
                        n == chars@.len(),
                        start < i <= n,
                    decreases n - i,
                {
                    word.push(chars[i]);
                    i = i + 1;
                }
            }
            let text = chars_text(word.as_slice());
            tokens.push(Token { kind: TokenKind::Number, text, line, column });
            column = column + (i - start);
        } else if c == '"' {
            let start = i;
            let start_line = line;
            let start_column = column;
            i = i + 1;
            let mut word: Vec<char> = Vec::new();
            let mut closed = false;
            while i < n && !closed
                invariant
                    n == chars@.len(),
                    start < i <= n,
                decreases n - i,
            {
                let d = chars[i];
                if d == '"' {
                    closed = true;
                    i = i + 1;
                } else if d == '\\' && i + 1 < n {
                    let e = chars[i + 1];
                    if e == 'n' {
                        word.push('\n');
                    } else if e == 't' {
                        word.push('\t');
                    } else {
                        word.push(e);
                    }
                    i = i + 2;
                } else {
                    word.push(d);
                    i = i + 1;
                }
            }
            if !closed {
                return Err(lex_error("Unterminated string literal", start_line, start_column));
            }
            let text = chars_text(word.as_slice());
            tokens.push(Token { kind: TokenKind::Text, text, line: start_line, column: start_column });
            column = column + (i - start);
        } else {
            match punct(c) {
                Some(kind) => {
                    let mut one: Vec<char> = Vec::new();
                    one.push(c);
                    let text = chars_text(one.as_slice());
                    tokens.push(Token { kind, text, line, column });
                    i = i + 1;
                    column = column + 1;
                },
                None => {
                    let mut one: Vec<char> = Vec::new();
                    one.push(c);
                    let shown = chars_text(one.as_slice());
                    let message = concat2("Unexpected character: ", shown.as_str());
                    return Err(LexError { message, line, column });
                },
            }
        }
    }
    tokens.push(Token { kind: TokenKind::Eof, text: String::new(), line, column });
    Ok(tokens)
}

} // verus!
