//! The lexer: a cursor over the source text that hands out one token per
//! call.

use vstd::prelude::*;
use crate::chars::{
    is_digit, is_identifier_start, lemma_run_end_bounds, lemma_run_end_from_inside, run_end,
    CharClass,
};
use crate::grammar::{
    double_symbol, error_token, lemma_lex_at_advances, lemma_number_text_shows_its_fraction,
    lemma_trivia_end_bounds, lex_at, line_at, number_end, single_symbol, symbol_char, trivia_end,
    word_token,
};
use crate::laws::law_forward_progress;
use crate::number::parse_integer;
use crate::text::{chars_of, holds_char, same_text, string_of};
use crate::token::{LexErrorKind, Token, TokenView};

verus! {

/// The state of a [`Lexer`] as plain values.
pub struct LexerView {
    /// The whole source text.
    pub source: Seq<char>,
    /// The number of the line on which the text begins.
    pub first_line: u64,
    /// Whether a minus sign alone is a token.
    pub minus_operator: bool,
    /// Where the token handed out last begins.
    pub start: int,
    /// Where scanning goes on: the position behind what was consumed.
    pub position: int,
    /// The line on which the token handed out last begins.
    pub token_line: u64,
    /// The line that holds `position`.
    pub line: u64,
}

impl LexerView {
    /// The cursor lies inside the text, the token's start is not behind it,
    /// and both line numbers count the newlines before their positions.
    pub open spec fn wf(self) -> bool {
        &&& 0 <= self.start <= self.position <= self.source.len()
        &&& self.token_line == line_at(self.source, self.first_line, self.start)
        &&& self.line == line_at(self.source, self.first_line, self.position)
    }

    /// The state before anything was read.
    pub open spec fn initial(source: Seq<char>, first_line: u64, minus_operator: bool) -> LexerView {
        LexerView {
            source,
            first_line,
            minus_operator,
            start: 0,
            position: 0,
            token_line: first_line,
            line: first_line,
        }
    }

    /// The same state with the cursor at `position`.
    pub open spec fn moved_to(self, position: int) -> LexerView {
        LexerView { position, line: line_at(self.source, self.first_line, position), ..self }
    }

    /// The state after `n` calls for the next token.
    pub open spec fn after(self, n: nat) -> LexerView
        decreases n,
    {
        if n == 0 {
            self
        } else {
            self.step().1.after((n - 1) as nat)
        }
    }

    /// One call for the next token: the token, and the state after the call.
    /// Blanks and comments are passed over, the token begins behind them,
    /// and the cursor is left right behind the token.
    pub open spec fn step(self) -> (TokenView, LexerView) {
        let start = trivia_end(self.source, self.position);
        let token_line = line_at(self.source, self.first_line, start);
        let lexed = lex_at(self.source, start, token_line, self.minus_operator);
        (
            lexed.token,
            LexerView {
                start,
                position: lexed.end,
                token_line,
                line: line_at(self.source, self.first_line, lexed.end),
                ..self
            },
        )
    }
}

/// Every token that repeated calls hand out from `state` on, up to and
/// with the end-of-input token.
pub open spec fn token_stream(state: LexerView) -> Seq<TokenView>
    decreases state.source.len() - state.position,
    via token_stream_terminates
{
    let (token, next) = state.step();
    if token is EOF {
        seq![token]
    } else {
        seq![token] + token_stream(next)
    }
}

#[via_fn]
proof fn token_stream_terminates(state: LexerView) {
    let start = trivia_end(state.source, state.position);
    if 0 <= start < state.source.len() {
        let line = line_at(state.source, state.first_line, start);
        lemma_lex_at_advances(state.source, start, line, state.minus_operator);
        if 0 <= state.position {
            lemma_trivia_end_bounds(state.source, state.position);
        }
    }
}

/// Where `position + 1` lies, unless the text ends at `position`.
pub open spec fn next_position(source: Seq<char>, position: int) -> int {
    if position < source.len() {
        position + 1
    } else {
        position
    }
}

/// The character at `position`, or the null character outside the text.
pub open spec fn char_at(source: Seq<char>, position: int) -> char {
    if 0 <= position < source.len() {
        source[position]
    } else {
        '\0'
    }
}

/// Turns source text into tokens, one per call of [`Lexer::next_token`].
pub struct Lexer {
    source: Vec<char>,
    first_line: u64,
    minus_operator: bool,
    start: usize,
    position: usize,
    token_line: u64,
    line: u64,
}

impl View for Lexer {
    type V = LexerView;

    closed spec fn view(&self) -> LexerView {
        LexerView {
            source: self.source@,
            first_line: self.first_line,
            minus_operator: self.minus_operator,
            start: self.start as int,
            position: self.position as int,
            token_line: self.token_line,
            line: self.line,
        }
    }
}

impl Lexer {
    /// What every lexer satisfies between calls.
    pub open spec fn wf(&self) -> bool {
        self@.wf()
    }

    /// Creates a lexer at the beginning of `source`, which it counts from
    /// line 1. A minus sign alone is no token to it.
    pub fn new(source: String) -> (lexer: Lexer)
        ensures
            lexer.wf(),
            lexer@ == LexerView::initial(source@, 1, false),
    {
        Lexer::with_first_line(source, 1)
    }

    /// Creates a lexer at the beginning of `source`, which it counts from
    /// line `first_line`. A minus sign alone is no token to it.
    pub fn with_first_line(source: String, first_line: u64) -> (lexer: Lexer)
        ensures
            lexer.wf(),
            lexer@ == LexerView::initial(source@, first_line, false),
    {
        Lexer {
            source: chars_of(source.as_str()),
            first_line,
            minus_operator: false,
            start: 0,
            position: 0,
            token_line: first_line,
            line: first_line,
        }
    }

    /// The same lexer, to which a minus sign alone is a token if `enabled`,
    /// and an illegal character if not. An arrow is a token either way.
    pub fn with_minus_operator(self, enabled: bool) -> (lexer: Lexer)
        requires
            self.wf(),
        ensures
            lexer.wf(),
            lexer@ == (LexerView { minus_operator: enabled, ..self@ }),
    {
        Lexer { minus_operator: enabled, ..self }
    }

    /// The line that holds the cursor.
    pub fn line(&self) -> (line: u64)
        ensures
            line == self@.line,
    {
        self.line
    }

    /// The line on which the token handed out last begins.
    pub fn token_line(&self) -> (line: u64)
        ensures
            line == self@.token_line,
    {
        self.token_line
    }

    /// The position of the cursor: how many characters were consumed.
    pub fn position(&self) -> (position: usize)
        ensures
            position == self@.position,
    {
        self.position
    }

    /// The position at which the token handed out last begins.
    pub fn token_start(&self) -> (start: usize)
        ensures
            start == self@.start,
    {
        self.start
    }

    /// Reads the next character and advances the lexer's position. At the
    /// end of the text nothing changes.
    pub fn read_char(&mut self)
        requires
            old(self).wf(),
        ensures
            final(self).wf(),
            final(self)@ == old(self)@.moved_to(
                next_position(old(self)@.source, old(self)@.position),
            ),
    {
        if self.position < self.source.len() {
            if self.source[self.position] == '\n' {
                self.line = self.line.saturating_add(1);
            }
            self.position = self.position + 1;
        }
    }

    /// The character at the cursor, or the null character at the end of the
    /// text.
    pub fn current_char(&self) -> (ch: char)
        ensures
            ch == char_at(self@.source, self@.position),
    {
        if self.position < self.source.len() {
            self.source[self.position]
        } else {
            '\0'
        }
    }

    /// Peeks at the character after the one at the cursor without consuming
    /// anything: the null character where there is none.
    pub fn peek_char(&self) -> (ch: char)
        ensures
            ch == char_at(self@.source, self@.position + 1),
    {
        if self.position < self.source.len() && self.position + 1 < self.source.len() {
            self.source[self.position + 1]
        } else {
            '\0'
        }
    }

    /// Consumes the longest run of `class` characters at the cursor.
    pub fn advance_while(&mut self, class: CharClass)
        requires
            old(self).wf(),
        ensures
            final(self).wf(),
            final(self)@ == old(self)@.moved_to(
                run_end(old(self)@.source, old(self)@.position, class),
            ),
    {
        while self.position < self.source.len() && class.has(self.source[self.position])
            invariant
                self.wf(),
                self@ == old(self)@.moved_to(self@.position),
                run_end(self@.source, self@.position, class) == run_end(
                    old(self)@.source,
                    old(self)@.position,
                    class,
                ),
            decreases self.source.len() - self.position,
        {
            self.read_char();
        }
    }

    /// Skips over any blanks at the cursor.
    pub fn skip_whitespace(&mut self)
        requires
            old(self).wf(),
        ensures
            final(self).wf(),
            final(self)@ == old(self)@.moved_to(
                run_end(old(self)@.source, old(self)@.position, CharClass::Blank),
            ),
    {
        self.advance_while(CharClass::Blank);
    }

    /// Skips over the blanks and comments at the cursor, up to the place
    /// where the next token begins.
    pub fn skip_trivia(&mut self)
        requires
            old(self).wf(),
        ensures
            final(self).wf(),
            final(self)@ == old(self)@.moved_to(
                trivia_end(old(self)@.source, old(self)@.position),
            ),
    {
        self.skip_whitespace();
        proof {
            lemma_run_end_bounds(old(self)@.source, old(self)@.position, CharClass::Blank);
            lemma_run_end_from_inside(
                self@.source,
                old(self)@.position,
                self@.position,
                CharClass::Blank,
            );
        }
        while self.current_char() == '/' && self.peek_char() == '/'
            invariant
                self.wf(),
                self@ == old(self)@.moved_to(self@.position),
                run_end(self@.source, self@.position, CharClass::Blank) == self@.position,
                trivia_end(self@.source, self@.position) == trivia_end(
                    old(self)@.source,
                    old(self)@.position,
                ),
            decreases self.source.len() - self.position,
        {
            let ghost comment: int = self@.position;
            self.advance_while(CharClass::CommentText);
            let ghost line_end: int = self@.position;
            self.skip_whitespace();
            proof {
                lemma_run_end_bounds(self@.source, comment + 1, CharClass::CommentText);
                lemma_run_end_bounds(self@.source, line_end, CharClass::Blank);
                lemma_run_end_from_inside(
                    self@.source,
                    line_end,
                    self@.position,
                    CharClass::Blank,
                );
                assert(trivia_end(self@.source, line_end) == trivia_end(
                    self@.source,
                    self@.position,
                ));
            }
        }
    }

    /// Reads a full identifier from the source: the longest run of
    /// identifier characters at the cursor.
    pub fn read_identifier(&mut self) -> (text: String)
        requires
            old(self).wf(),
        ensures
            final(self).wf(),
            final(self)@ == old(self)@.moved_to(
                run_end(old(self)@.source, old(self)@.position, CharClass::Identifier),
            ),
            text@ == old(self)@.source.subrange(old(self)@.position, final(self)@.position),
    {
        let from: usize = self.position;
        self.advance_while(CharClass::Identifier);
        proof {
            lemma_run_end_bounds(self@.source, from as int, CharClass::Identifier);
        }
        string_of(&self.source, from, self.position)
    }

    /// Reads a number (integer or float) from the source: the longest run of
    /// digits at the cursor, and, where a dot and a digit follow it, the dot
    /// and the longest run of digits after it.
    pub fn read_number(&mut self) -> (text: String)
        requires
            old(self).wf(),
        ensures
            final(self).wf(),
            final(self)@ == old(self)@.moved_to(
                number_end(old(self)@.source, old(self)@.position),
            ),
            text@ == old(self)@.source.subrange(old(self)@.position, final(self)@.position),
    {
        let from: usize = self.position;
        self.advance_while(CharClass::Digit);
        proof {
            lemma_run_end_bounds(self@.source, from as int, CharClass::Digit);
        }
        if self.current_char() == '.' && is_digit(self.peek_char()) {
            let ghost dot: int = self@.position;
            self.read_char();
            self.advance_while(CharClass::Digit);
            proof {
                lemma_run_end_bounds(self@.source, dot + 1, CharClass::Digit);
            }
        }
        string_of(&self.source, from, self.position)
    }

    /// Reads a string literal from the source. The character at the cursor
    /// is taken for the opening quote; what lies between it and the next
    /// quote is returned, and the cursor is left behind that closing quote.
    /// Without a closing quote the rest of the text is consumed and nothing
    /// is returned.
    pub fn read_string(&mut self) -> (text: Option<String>)
        requires
            old(self).wf(),
        ensures
            final(self).wf(),
            ({
                let source = old(self)@.source;
                let open = old(self)@.position;
                let close = run_end(source, open + 1, CharClass::StringText);
                if close < source.len() {
                    &&& text is Some
                    &&& text.unwrap()@ == source.subrange(open + 1, close)
                    &&& final(self)@ == old(self)@.moved_to(close + 1)
                } else {
                    &&& text is None
                    &&& final(self)@ == old(self)@.moved_to(source.len() as int)
                }
            }),
    {
        self.read_char();
        let from: usize = self.position;
        self.advance_while(CharClass::StringText);
        proof {
            lemma_run_end_bounds(self@.source, old(self)@.position + 1, CharClass::StringText);
        }
        if self.position < self.source.len() {
            let text = string_of(&self.source, from, self.position);
            self.read_char();
            Some(text)
        } else {
            None
        }
    }

    /// Maps the spelling of a word to its keyword token, or else to an
    /// identifier token.
    pub fn lookup_ident(ident: &str) -> (token: Token)
        ensures
            token@ == word_token(ident@),
    {
        if same_text(ident, "fn") {
            Token::Fn
        } else if same_text(ident, "flow") {
            Token::Flow
        } else if same_text(ident, "record") {
            Token::Record
        } else if same_text(ident, "type") {
            Token::Type
        } else if same_text(ident, "let") {
            Token::Let
        } else if same_text(ident, "if") {
            Token::If
        } else if same_text(ident, "true") {
            Token::True
        } else if same_text(ident, "false") {
            Token::False
        } else if same_text(ident, "as") {
            Token::As
        } else {
            Token::Identifier(ident.to_owned())
        }
    }

    /// The error token of kind `kind` for the text between the token's start
    /// and the cursor.
    fn error(&self, kind: LexErrorKind) -> (token: Token)
        requires
            self.wf(),
        ensures
            token@ == error_token(
                kind,
                self@.source,
                self@.start,
                self@.position,
                self@.token_line,
            ),
    {
        Token::Error {
            kind,
            text: string_of(&self.source, self.start, self.position),
            line: self.token_line,
        }
    }

    /// Returns the next token from the source code and leaves the cursor
    /// right behind it. At the end of the text every call returns the
    /// end-of-input token.
    pub fn next_token(&mut self) -> (token: Token)
        requires
            old(self).wf(),
        ensures
            final(self).wf(),
            token@ == old(self)@.step().0,
            final(self)@ == old(self)@.step().1,
            ({
                let before = old(self)@;
                let after = final(self)@;
                &&& before.position < before.source.len() ==> before.position < after.position
                &&& before.position == before.source.len() ==> token@ is EOF && after.position
                    == before.position
                &&& token@ is EOF <==> after.start == before.source.len()
                &&& !(token@ is EOF) ==> after.start < after.position
            }),
    {
        proof {
            law_forward_progress(old(self)@);
        }
        self.skip_trivia();
        self.start = self.position;
        self.token_line = self.line;
        let ghost source = self@.source;
        let ghost start: int = self@.start;
        if self.position >= self.source.len() {
            return Token::EOF;
        }
        let ch = self.current_char();
        if ch == '"' {
            match self.read_string() {
                Some(text) => Token::StringLiteral(text),
                None => self.error(LexErrorKind::UnterminatedString),
            }
        } else if is_digit(ch) {
            let text = self.read_number();
            proof {
                lemma_number_text_shows_its_fraction(source, start);
            }
            if holds_char(text.as_str(), '.') {
                Token::Float(text)
            } else {
                match parse_integer(text.as_str()) {
                    Some(value) => Token::Integer(value),
                    None => self.error(LexErrorKind::MalformedNumber),
                }
            }
        } else if !is_symbol_char(ch) && is_identifier_start(ch) {
            let literal = self.read_identifier();
            Self::lookup_ident(literal.as_str())
        } else {
            match double_symbol_token(ch, self.peek_char()) {
                Some(token) => {
                    self.read_char();
                    self.read_char();
                    token
                },
                None => {
                    self.read_char();
                    match single_symbol_token(ch, self.minus_operator) {
                        Some(token) => token,
                        None => self.error(LexErrorKind::IllegalCharacter),
                    }
                },
            }
        }
    }
}

/// Whether `ch` is one of the characters that symbols are made of.
pub fn is_symbol_char(ch: char) -> (b: bool)
    ensures
        b == symbol_char(ch),
{
    ch == '(' || ch == ')' || ch == '{' || ch == '}' || ch == ':' || ch == ',' || ch == ';' || ch
        == '+' || ch == '-' || ch == '*' || ch == '/' || ch == '.' || ch == '=' || ch == '!' || ch
        == '<' || ch == '>'
}

/// The symbol that `first` and `second` spell together, if there is one.
pub fn double_symbol_token(first: char, second: char) -> (token: Option<Token>)
    ensures
        match token {
            Some(t) => double_symbol(first, second) == Some(t@),
            None => double_symbol(first, second) is None,
        },
{
    if first == '-' && second == '>' {
        Some(Token::Arrow)
    } else if first == '=' && second == '=' {
        Some(Token::EqualEqual)
    } else if first == '!' && second == '=' {
        Some(Token::BangEqual)
    } else if first == '<' && second == '=' {
        Some(Token::LessThanOrEqual)
    } else if first == '>' && second == '=' {
        Some(Token::GreaterThanOrEqual)
    } else {
        None
    }
}

/// The symbol that `ch` spells alone, if there is one. A minus sign is one
/// only where `minus_operator` says so.
pub fn single_symbol_token(ch: char, minus_operator: bool) -> (token: Option<Token>)
    ensures
        match token {
            Some(t) => single_symbol(ch, minus_operator) == Some(t@),
            None => single_symbol(ch, minus_operator) is None,
        },
{
    if ch == '(' {
        Some(Token::LeftParen)
    } else if ch == ')' {
        Some(Token::RightParen)
    } else if ch == '{' {
        Some(Token::LeftBrace)
    } else if ch == '}' {
        Some(Token::RightBrace)
    } else if ch == ':' {
        Some(Token::Colon)
    } else if ch == ',' {
        Some(Token::Comma)
    } else if ch == ';' {
        Some(Token::Semicolon)
    } else if ch == '+' {
        Some(Token::Plus)
    } else if ch == '-' && minus_operator {
        Some(Token::Minus)
    } else if ch == '*' {
        Some(Token::Star)
    } else if ch == '/' {
        Some(Token::Slash)
    } else if ch == '.' {
        Some(Token::Dot)
    } else if ch == '=' {
        Some(Token::Equal)
    } else if ch == '!' {
        Some(Token::Bang)
    } else if ch == '<' {
        Some(Token::LessThan)
    } else if ch == '>' {
        Some(Token::GreaterThan)
    } else {
        None
    }
}

} // verus!
