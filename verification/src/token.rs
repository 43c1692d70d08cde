//! The tokens that the lexer produces, and their mathematical view.

use vstd::prelude::*;

verus! {

/// Why a stretch of input could not become a regular token.
#[derive(Debug, Clone, Copy, PartialEq, Eq, Structural)]
pub enum LexErrorKind {
    /// A character that starts no token.
    IllegalCharacter,
    /// A string literal whose closing quote is missing.
    UnterminatedString,
    /// A run of digits whose value does not fit the integer type.
    MalformedNumber,
}

/// One lexical unit of the source text.
#[derive(Debug, Clone, PartialEq, Eq)]
pub enum Token {
    // Keywords
    Fn,
    Flow,
    Record,
    Type,
    Let,
    If,
    True,
    False,
    As,
    // Single-character symbols
    LeftParen,
    RightParen,
    LeftBrace,
    RightBrace,
    Colon,
    Comma,
    Semicolon,
    Plus,
    Minus,
    Star,
    Slash,
    Dot,
    // One or two character symbols
    Bang,
    BangEqual,
    Equal,
    EqualEqual,
    GreaterThan,
    GreaterThanOrEqual,
    LessThan,
    LessThanOrEqual,
    Arrow,
    // Literals
    /// A name, with its spelling.
    Identifier(String),
    /// A whole number, with its value.
    Integer(i64),
    /// A number with a fractional part, as the decimal digits that denote it:
    /// one or more digits, a dot, one or more digits.
    Float(String),
    /// A string literal, with the characters between its quotes.
    StringLiteral(String),
    // Special tokens
    /// A lexical error: its kind, the offending text, and the line on which
    /// that text begins.
    Error { kind: LexErrorKind, text: String, line: u64 },
    /// The end of the input.
    EOF,
}

/// What a [`Token`] is, with every piece of text as a sequence of characters.
pub enum TokenView {
    Fn,
    Flow,
    Record,
    Type,
    Let,
    If,
    True,
    False,
    As,
    LeftParen,
    RightParen,
    LeftBrace,
    RightBrace,
    Colon,
    Comma,
    Semicolon,
    Plus,
    Minus,
    Star,
    Slash,
    Dot,
    Bang,
    BangEqual,
    Equal,
    EqualEqual,
    GreaterThan,
    GreaterThanOrEqual,
    LessThan,
    LessThanOrEqual,
    Arrow,
    Identifier(Seq<char>),
    Integer(i64),
    Float(Seq<char>),
    StringLiteral(Seq<char>),
    Error { kind: LexErrorKind, text: Seq<char>, line: u64 },
    EOF,
}

impl View for Token {
    type V = TokenView;

    open spec fn view(&self) -> TokenView {
        match *self {
            Token::Fn => TokenView::Fn,
            Token::Flow => TokenView::Flow,
            Token::Record => TokenView::Record,
            Token::Type => TokenView::Type,
            Token::Let => TokenView::Let,
            Token::If => TokenView::If,
            Token::True => TokenView::True,
            Token::False => TokenView::False,
            Token::As => TokenView::As,
            Token::LeftParen => TokenView::LeftParen,
            Token::RightParen => TokenView::RightParen,
            Token::LeftBrace => TokenView::LeftBrace,
            Token::RightBrace => TokenView::RightBrace,
            Token::Colon => TokenView::Colon,
            Token::Comma => TokenView::Comma,
            Token::Semicolon => TokenView::Semicolon,
            Token::Plus => TokenView::Plus,
            Token::Minus => TokenView::Minus,
            Token::Star => TokenView::Star,
            Token::Slash => TokenView::Slash,
            Token::Dot => TokenView::Dot,
            Token::Bang => TokenView::Bang,
            Token::BangEqual => TokenView::BangEqual,
            Token::Equal => TokenView::Equal,
            Token::EqualEqual => TokenView::EqualEqual,
            Token::GreaterThan => TokenView::GreaterThan,
            Token::GreaterThanOrEqual => TokenView::GreaterThanOrEqual,
            Token::LessThan => TokenView::LessThan,
            Token::LessThanOrEqual => TokenView::LessThanOrEqual,
            Token::Arrow => TokenView::Arrow,
            Token::Identifier(text) => TokenView::Identifier(text@),
            Token::Integer(value) => TokenView::Integer(value),
            Token::Float(text) => TokenView::Float(text@),
            Token::StringLiteral(text) => TokenView::StringLiteral(text@),
            Token::Error { kind, text, line } => TokenView::Error { kind, text: text@, line },
            Token::EOF => TokenView::EOF,
        }
    }
}

impl Token {
    /// Whether this token marks the end of the input.
    pub fn is_eof(&self) -> (eof: bool)
        ensures
            eof == (self@ is EOF),
    {
        matches!(self, Token::EOF)
    }

    /// Whether this token reports a lexical error.
    pub fn is_error(&self) -> (error: bool)
        ensures
            error == (self@ is Error),
    {
        matches!(self, Token::Error { .. })
    }
}

/// The views of a sequence of tokens, in order.
pub open spec fn token_views(tokens: Seq<Token>) -> Seq<TokenView> {
    Seq::new(tokens.len(), |i: int| tokens[i]@)
}

} // verus!
