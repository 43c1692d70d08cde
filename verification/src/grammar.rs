//! The lexical grammar, as functions on a text and a position in it.
//!
//! Blanks and comments separate tokens. A token begins at the first
//! character that is neither, and what that character is decides which rule
//! reads the token: a string literal, a number, a symbol, a word. Each rule
//! takes the longest stretch of text it can.

use vstd::prelude::*;
use crate::chars::{
    digit, identifier_start, is_longest_run, lemma_run_end_bounds, lemma_run_end_is_longest,
    run_end, CharClass,
};
use crate::number::{all_digits, decimal_value};
use crate::token::{LexErrorKind, TokenView};

verus! {

/// Whether a comment begins at `pos`: two slashes in a row.
pub open spec fn comment_at(src: Seq<char>, pos: int) -> bool {
    0 <= pos && pos + 1 < src.len() && src[pos] == '/' && src[pos + 1] == '/'
}

/// Where the blanks and comments that begin at `pos` end, which is where
/// the next token begins: the first position from `pos` on that lies behind
/// every blank and every comment in the way. A comment runs from its two
/// slashes to the end of its line. The result is the length of `src` where
/// nothing but blanks and comments is left.
pub open spec fn trivia_end(src: Seq<char>, pos: int) -> int
    decreases src.len() - pos,
    via trivia_end_terminates
{
    let p = run_end(src, pos, CharClass::Blank);
    if comment_at(src, p) {
        trivia_end(src, run_end(src, p, CharClass::CommentText))
    } else {
        p
    }
}

#[via_fn]
proof fn trivia_end_terminates(src: Seq<char>, pos: int) {
    let p = run_end(src, pos, CharClass::Blank);
    lemma_run_end_bounds(src, pos, CharClass::Blank);
    if comment_at(src, p) {
        lemma_run_end_bounds(src, p + 1, CharClass::CommentText);
    }
}

/// The next token begins at or after `pos` and inside the text, or at its
/// end.
pub proof fn lemma_trivia_end_bounds(src: Seq<char>, pos: int)
    requires
        0 <= pos <= src.len(),
    ensures
        pos <= trivia_end(src, pos) <= src.len(),
    decreases src.len() - pos,
{
    let p = run_end(src, pos, CharClass::Blank);
    lemma_run_end_bounds(src, pos, CharClass::Blank);
    if comment_at(src, p) {
        lemma_run_end_bounds(src, p + 1, CharClass::CommentText);
        lemma_trivia_end_bounds(src, run_end(src, p, CharClass::CommentText));
    }
}

/// How many newline characters `src` holds before `pos`.
pub open spec fn newlines_before(src: Seq<char>, pos: int) -> nat
    decreases pos,
{
    if pos <= 0 {
        0
    } else {
        newlines_before(src, pos - 1) + if src[pos - 1] == '\n' {
            1nat
        } else {
            0nat
        }
    }
}

/// The number of the line that holds position `pos`, where the text begins
/// on line `first_line`: one more for each newline before `pos`. The count
/// stops at the largest `u64`.
pub open spec fn line_at(src: Seq<char>, first_line: u64, pos: int) -> u64 {
    let line = first_line + newlines_before(src, pos);
    if line <= u64::MAX {
        line as u64
    } else {
        u64::MAX
    }
}

/// A token and the position behind its last character.
pub struct Lexed {
    pub token: TokenView,
    pub end: int,
}

/// The error token for the text from `start` to `end`.
pub open spec fn error_token(
    kind: LexErrorKind,
    src: Seq<char>,
    start: int,
    end: int,
    line: u64,
) -> TokenView {
    TokenView::Error { kind, text: src.subrange(start, end), line }
}

/// A string literal whose opening quote is at `start`: everything up to the
/// next quote, with no escapes. Without a closing quote the rest of the text
/// is an error.
pub open spec fn lex_string(src: Seq<char>, start: int, line: u64) -> Lexed {
    let close = run_end(src, start + 1, CharClass::StringText);
    if close < src.len() {
        Lexed { token: TokenView::StringLiteral(src.subrange(start + 1, close)), end: close + 1 }
    } else {
        Lexed {
            token: error_token(
                LexErrorKind::UnterminatedString,
                src,
                start,
                src.len() as int,
                line,
            ),
            end: src.len() as int,
        }
    }
}

/// Whether a fractional part begins at `pos`: a dot and then a digit.
pub open spec fn fraction_at(src: Seq<char>, pos: int) -> bool {
    0 <= pos && pos + 1 < src.len() && src[pos] == '.' && digit(src[pos + 1])
}

/// The token for a run of digits with no fractional part: its value, or an
/// error where the value is too large for an `i64`.
pub open spec fn integer_token(src: Seq<char>, start: int, end: int, line: u64) -> TokenView {
    let value = decimal_value(src.subrange(start, end));
    if value <= i64::MAX {
        TokenView::Integer(value as i64)
    } else {
        error_token(LexErrorKind::MalformedNumber, src, start, end, line)
    }
}

/// Where the number that begins at `start` ends: behind the longest run of
/// digits, and, where a dot and a digit follow that run, behind the dot and
/// the longest run of digits after it. A dot that no digit follows is not
/// part of the number.
pub open spec fn number_end(src: Seq<char>, start: int) -> int {
    let whole_end = run_end(src, start, CharClass::Digit);
    if fraction_at(src, whole_end) {
        run_end(src, whole_end + 1, CharClass::Digit)
    } else {
        whole_end
    }
}

/// Whether the number that begins at `start` has a fractional part.
pub open spec fn has_fraction(src: Seq<char>, start: int) -> bool {
    fraction_at(src, run_end(src, start, CharClass::Digit))
}

/// A number whose first digit is at `start`: the text up to `number_end`,
/// which is a float where it has a fractional part and an integer where it
/// has none.
pub open spec fn lex_number(src: Seq<char>, start: int, line: u64) -> Lexed {
    let end = number_end(src, start);
    if has_fraction(src, start) {
        Lexed { token: TokenView::Float(src.subrange(start, end)), end }
    } else {
        Lexed { token: integer_token(src, start, end, line), end }
    }
}

/// From a digit on, a number is one or more digits, or one or more digits, a
/// dot and one or more digits: each run of digits is the longest there is,
/// and a fractional part is taken wherever there is one.
pub proof fn lemma_number_end_shape(src: Seq<char>, start: int)
    requires
        0 <= start < src.len(),
        digit(src[start]),
    ensures
        ({
            let whole_end = run_end(src, start, CharClass::Digit);
            let end = number_end(src, start);
            &&& start < whole_end <= end <= src.len()
            &&& is_longest_run(src, start, whole_end, CharClass::Digit)
            &&& if has_fraction(src, start) {
                &&& src[whole_end] == '.'
                &&& whole_end + 1 < end
                &&& is_longest_run(src, whole_end + 1, end, CharClass::Digit)
            } else {
                &&& end == whole_end
                &&& !fraction_at(src, end)
            }
        }),
{
    let whole_end = run_end(src, start, CharClass::Digit);
    lemma_run_end_is_longest(src, start, CharClass::Digit);
    lemma_run_end_bounds(src, start + 1, CharClass::Digit);
    if fraction_at(src, whole_end) {
        lemma_run_end_is_longest(src, whole_end + 1, CharClass::Digit);
        lemma_run_end_bounds(src, whole_end + 2, CharClass::Digit);
    }
}

/// The text of a number holds a dot exactly where the number has a
/// fractional part, and is made of digits alone where it has none.
pub proof fn lemma_number_text_shows_its_fraction(src: Seq<char>, start: int)
    requires
        0 <= start < src.len(),
        digit(src[start]),
    ensures
        src.subrange(start, number_end(src, start)).contains('.') == has_fraction(src, start),
        !has_fraction(src, start) ==> all_digits(src.subrange(start, number_end(src, start))),
        src.subrange(start, number_end(src, start)).len() > 0,
{
    lemma_number_end_shape(src, start);
    let whole_end = run_end(src, start, CharClass::Digit);
    let text = src.subrange(start, number_end(src, start));
    if has_fraction(src, start) {
        assert(text[whole_end - start] == '.');
    } else {
        assert forall|i: int| 0 <= i < text.len() implies digit(#[trigger] text[i]) by {
            assert(CharClass::Digit.contains(src[start + i]));
        }
    }
}

/// The keyword that is spelled exactly `text`, if there is one.
pub open spec fn keyword(text: Seq<char>) -> Option<TokenView> {
    if text == "fn"@ {
        Some(TokenView::Fn)
    } else if text == "flow"@ {
        Some(TokenView::Flow)
    } else if text == "record"@ {
        Some(TokenView::Record)
    } else if text == "type"@ {
        Some(TokenView::Type)
    } else if text == "let"@ {
        Some(TokenView::Let)
    } else if text == "if"@ {
        Some(TokenView::If)
    } else if text == "true"@ {
        Some(TokenView::True)
    } else if text == "false"@ {
        Some(TokenView::False)
    } else if text == "as"@ {
        Some(TokenView::As)
    } else {
        None
    }
}

/// How a keyword is spelled; `None` for every other token.
pub open spec fn keyword_spelling(token: TokenView) -> Option<Seq<char>> {
    match token {
        TokenView::Fn => Some("fn"@),
        TokenView::Flow => Some("flow"@),
        TokenView::Record => Some("record"@),
        TokenView::Type => Some("type"@),
        TokenView::Let => Some("let"@),
        TokenView::If => Some("if"@),
        TokenView::True => Some("true"@),
        TokenView::False => Some("false"@),
        TokenView::As => Some("as"@),
        _ => None,
    }
}

/// The token for a whole word: its keyword, or else an identifier.
pub open spec fn word_token(text: Seq<char>) -> TokenView {
    match keyword(text) {
        Some(token) => token,
        None => TokenView::Identifier(text),
    }
}

/// A word that begins at `start`: the longest run of identifier characters.
pub open spec fn lex_word(src: Seq<char>, start: int) -> Lexed {
    let end = run_end(src, start, CharClass::Identifier);
    Lexed { token: word_token(src.subrange(start, end)), end }
}

/// The characters that symbols are made of.
pub open spec fn symbol_char(c: char) -> bool {
    c == '(' || c == ')' || c == '{' || c == '}' || c == ':' || c == ',' || c == ';' || c == '+'
        || c == '-' || c == '*' || c == '/' || c == '.' || c == '=' || c == '!' || c == '<' || c
        == '>'
}

/// The symbol that `first` and `second` spell together, if there is one.
pub open spec fn double_symbol(first: char, second: char) -> Option<TokenView> {
    if first == '-' && second == '>' {
        Some(TokenView::Arrow)
    } else if first == '=' && second == '=' {
        Some(TokenView::EqualEqual)
    } else if first == '!' && second == '=' {
        Some(TokenView::BangEqual)
    } else if first == '<' && second == '=' {
        Some(TokenView::LessThanOrEqual)
    } else if first == '>' && second == '=' {
        Some(TokenView::GreaterThanOrEqual)
    } else {
        None
    }
}

/// The symbol that `c` spells alone, if there is one. A minus sign is one
/// only where `minus_operator` says so.
pub open spec fn single_symbol(c: char, minus_operator: bool) -> Option<TokenView> {
    if c == '(' {
        Some(TokenView::LeftParen)
    } else if c == ')' {
        Some(TokenView::RightParen)
    } else if c == '{' {
        Some(TokenView::LeftBrace)
    } else if c == '}' {
        Some(TokenView::RightBrace)
    } else if c == ':' {
        Some(TokenView::Colon)
    } else if c == ',' {
        Some(TokenView::Comma)
    } else if c == ';' {
        Some(TokenView::Semicolon)
    } else if c == '+' {
        Some(TokenView::Plus)
    } else if c == '-' && minus_operator {
        Some(TokenView::Minus)
    } else if c == '*' {
        Some(TokenView::Star)
    } else if c == '/' {
        Some(TokenView::Slash)
    } else if c == '.' {
        Some(TokenView::Dot)
    } else if c == '=' {
        Some(TokenView::Equal)
    } else if c == '!' {
        Some(TokenView::Bang)
    } else if c == '<' {
        Some(TokenView::LessThan)
    } else if c == '>' {
        Some(TokenView::GreaterThan)
    } else {
        None
    }
}

/// Whether the two characters at `start` spell one symbol.
pub open spec fn double_symbol_at(src: Seq<char>, start: int) -> bool {
    0 <= start && start + 1 < src.len() && double_symbol(src[start], src[start + 1]) is Some
}

/// A symbol at `start`, or a character that starts no token. Two characters
/// that spell a symbol together are taken together; otherwise one character
/// is taken, as the symbol it spells alone or else as an error.
pub open spec fn lex_symbol(src: Seq<char>, start: int, line: u64, minus_operator: bool) -> Lexed {
    if double_symbol_at(src, start) {
        Lexed { token: double_symbol(src[start], src[start + 1])->0, end: start + 2 }
    } else {
        Lexed {
            token: match single_symbol(src[start], minus_operator) {
                Some(token) => token,
                None => error_token(LexErrorKind::IllegalCharacter, src, start, start + 1, line),
            },
            end: start + 1,
        }
    }
}

/// The token that begins at `start`, which is on line `line`, and where the
/// token ends. At the end of the text, and anywhere outside it, that is the
/// end-of-input token, which takes no character.
pub open spec fn lex_at(src: Seq<char>, start: int, line: u64, minus_operator: bool) -> Lexed {
    if !(0 <= start < src.len()) {
        Lexed { token: TokenView::EOF, end: start }
    } else if src[start] == '"' {
        lex_string(src, start, line)
    } else if digit(src[start]) {
        lex_number(src, start, line)
    } else if identifier_start(src[start]) && !symbol_char(src[start]) {
        lex_word(src, start)
    } else {
        lex_symbol(src, start, line, minus_operator)
    }
}

/// Inside the text every token takes at least one character, and none
/// reaches past the end of the text: only the end-of-input token is empty.
pub proof fn lemma_lex_at_advances(src: Seq<char>, start: int, line: u64, minus_operator: bool)
    requires
        0 <= start < src.len(),
    ensures
        start < lex_at(src, start, line, minus_operator).end <= src.len(),
        !(lex_at(src, start, line, minus_operator).token is EOF),
{
    if src[start] == '"' {
        lemma_run_end_bounds(src, start + 1, CharClass::StringText);
    } else if digit(src[start]) {
        let whole_end = run_end(src, start, CharClass::Digit);
        lemma_run_end_bounds(src, start + 1, CharClass::Digit);
        if fraction_at(src, whole_end) {
            lemma_run_end_bounds(src, whole_end + 1, CharClass::Digit);
        }
    } else if identifier_start(src[start]) && !symbol_char(src[start]) {
        lemma_run_end_bounds(src, start + 1, CharClass::Identifier);
    }
}

} // verus!
