//! What holds of the lexer on every text.

use vstd::prelude::*;
use crate::chars::{
    blank, identifier_start, is_longest_run, lemma_run_end_bounds, lemma_run_end_is_longest,
    run_end, CharClass,
};
use crate::grammar::{
    comment_at, double_symbol, double_symbol_at, fraction_at, has_fraction, keyword,
    keyword_spelling, lemma_lex_at_advances, lemma_trivia_end_bounds, line_at, newlines_before,
    number_end, single_symbol, symbol_char, trivia_end, word_token,
};
use crate::lexer::{token_stream, LexerView};
use crate::number::decimal_value;
use crate::token::{LexErrorKind, TokenView};

verus! {

/// A call leaves the lexer well formed: the cursor inside the text, the
/// token's start not behind it, the line numbers right.
pub proof fn law_step_keeps_well_formed(state: LexerView)
    requires
        state.wf(),
    ensures
        state.step().1.wf(),
        state.step().1.source == state.source,
        state.step().1.first_line == state.first_line,
        state.step().1.minus_operator == state.minus_operator,
        state.position <= state.step().1.start,
{
    let start = trivia_end(state.source, state.position);
    let line = line_at(state.source, state.first_line, start);
    lemma_trivia_end_bounds(state.source, state.position);
    if start < state.source.len() {
        lemma_lex_at_advances(state.source, start, line, state.minus_operator);
    }
}

/// A call moves the cursor forward unless the cursor is at the end of the
/// text already. Then the call hands out the end-of-input token and the
/// cursor stays. Every token but the end-of-input token holds at least one
/// character.
pub proof fn law_forward_progress(state: LexerView)
    requires
        state.wf(),
    ensures
        state.position < state.source.len() ==> state.position < state.step().1.position,
        state.position == state.source.len() ==> state.step().0 is EOF && state.step().1.position
            == state.position,
        state.step().0 is EOF <==> state.step().1.start == state.source.len(),
        state.step().0 is EOF ==> state.step().1.position == state.source.len(),
        !(state.step().0 is EOF) ==> state.step().1.start < state.step().1.position,
        state.step().1.position <= state.source.len(),
{
    let start = trivia_end(state.source, state.position);
    let line = line_at(state.source, state.first_line, start);
    lemma_trivia_end_bounds(state.source, state.position);
    if start < state.source.len() {
        lemma_lex_at_advances(state.source, start, line, state.minus_operator);
    }
}

/// Once a call has handed out the end-of-input token, every later call hands
/// it out again and changes nothing.
pub proof fn law_end_of_input_is_final(state: LexerView)
    requires
        state.wf(),
        state.step().0 is EOF,
    ensures
        state.step().1.step() == (TokenView::EOF, state.step().1),
{
    law_step_keeps_well_formed(state);
}

/// From any state repeated calls reach the end of the input. The tokens
/// they hand out are finitely many, the last of them is the end-of-input
/// token, and no token before it is.
pub proof fn law_stream_ends_with_one_end_of_input(state: LexerView)
    requires
        state.wf(),
    ensures
        1 <= token_stream(state).len() <= state.source.len() - state.position + 1,
        token_stream(state).last() is EOF,
        forall|i: int| 0 <= i < token_stream(state).len() - 1 ==> !(token_stream(state)[i] is EOF),
    decreases state.source.len() - state.position,
{
    law_forward_progress(state);
    let (token, next) = state.step();
    if !(token is EOF) {
        law_stream_ends_with_one_end_of_input(next);
        let rest = token_stream(next);
        let all = token_stream(state);
        assert forall|i: int| 0 <= i < all.len() - 1 implies !(all[i] is EOF) by {
            if i > 0 {
                assert(all[i] == rest[i - 1]);
            }
        }
    }
}

/// After the end-of-input token every further call hands it out again.
pub proof fn lemma_calls_after_the_end(state: LexerView, n: nat)
    requires
        state.wf(),
        state.step().0 is EOF,
    ensures
        state.after(n).wf(),
        state.after(n).step().0 is EOF,
    decreases n,
{
    if n > 0 {
        law_step_keeps_well_formed(state);
        lemma_calls_after_the_end(state.step().1, (n - 1) as nat);
    }
}

/// Repeated calls reach the end of the input, and stay there: from some
/// call on, which comes after at most as many calls as characters are left,
/// every call hands out the end-of-input token, and no call before it does.
/// The calls up to that one hand out the token stream. The result is the
/// number of calls before that one.
pub proof fn law_calls_reach_the_end(state: LexerView) -> (n: nat)
    requires
        state.wf(),
    ensures
        n <= state.source.len() - state.position,
        n + 1 == token_stream(state).len(),
        forall|m: nat| m < n ==> !((#[trigger] state.after(m)).step().0 is EOF),
        forall|m: nat| m >= n ==> (#[trigger] state.after(m)).step().0 is EOF,
        forall|m: nat|
            m <= n ==> (#[trigger] state.after(m)).step().0 == token_stream(state)[m as int],
    decreases state.source.len() - state.position,
{
    law_forward_progress(state);
    let (token, next) = state.step();
    if token is EOF {
        assert forall|m: nat| m >= 0 implies (#[trigger] state.after(m)).step().0 is EOF by {
            lemma_calls_after_the_end(state, m);
        }
        0
    } else {
        let rest = law_calls_reach_the_end(next);
        let n = rest + 1;
        assert forall|m: nat| m < n implies !((#[trigger] state.after(m)).step().0 is EOF) by {
            if m > 0 {
                assert(state.after(m) == next.after((m - 1) as nat));
            }
        }
        assert forall|m: nat| m >= n implies (#[trigger] state.after(m)).step().0 is EOF by {
            assert(state.after(m) == next.after((m - 1) as nat));
        }
        assert forall|m: nat| m <= n implies (#[trigger] state.after(m)).step().0 == token_stream(
            state,
        )[m as int] by {
            if m > 0 {
                assert(state.after(m) == next.after((m - 1) as nat));
            }
        }
        n
    }
}

/// There is only one longest run from a position: no other end can be
/// chosen for it.
pub proof fn law_longest_run_is_unique(src: Seq<char>, pos: int, end: int, class: CharClass)
    requires
        0 <= pos,
        is_longest_run(src, pos, end, class),
    ensures
        end == run_end(src, pos, class),
    decreases end - pos,
{
    if pos < end {
        law_longest_run_is_unique(src, pos + 1, end, class);
    }
}

/// Blanks and comments are passed over whole: the place where the next
/// token begins is the end of the text, or holds a character that is no
/// blank and opens no comment. Nothing more could have been passed over.
pub proof fn law_trivia_is_skipped_whole(src: Seq<char>, pos: int)
    requires
        0 <= pos <= src.len(),
    ensures
        ({
            let start = trivia_end(src, pos);
            &&& pos <= start <= src.len()
            &&& start < src.len() ==> !blank(src[start]) && !comment_at(src, start)
            &&& trivia_end(src, start) == start
        }),
    decreases src.len() - pos,
{
    let p = run_end(src, pos, CharClass::Blank);
    lemma_run_end_is_longest(src, pos, CharClass::Blank);
    if comment_at(src, p) {
        lemma_run_end_bounds(src, p + 1, CharClass::CommentText);
        law_trivia_is_skipped_whole(src, run_end(src, p, CharClass::CommentText));
    }
}

/// Reading on never lowers the count of newlines.
pub proof fn lemma_newlines_grow(src: Seq<char>, from: int, to: int)
    requires
        from <= to,
    ensures
        newlines_before(src, from) <= newlines_before(src, to),
    decreases to - from,
{
    if from < to {
        lemma_newlines_grow(src, from, to - 1);
    }
}

/// A token's line is the first line plus one for each newline in the text
/// before the token (up to the largest `u64`), an error token carries the
/// line of its token, and line numbers never go down.
pub proof fn law_lines_count_newlines(state: LexerView)
    requires
        state.wf(),
    ensures
        ({
            let (token, next) = state.step();
            let line = state.first_line + newlines_before(state.source, next.start);
            &&& next.token_line == if line <= u64::MAX {
                line as u64
            } else {
                u64::MAX
            }
            &&& token matches TokenView::Error { line: reported, .. } ==> reported
                == next.token_line
            &&& state.token_line <= state.line <= next.token_line <= next.line
        }),
{
    law_step_keeps_well_formed(state);
    let next = state.step().1;
    lemma_newlines_grow(state.source, state.start, state.position);
    lemma_newlines_grow(state.source, state.position, next.start);
    lemma_newlines_grow(state.source, next.start, next.position);
}

/// The text of the token that a call hands out: what lies between the
/// token's start and the cursor after the call.
pub open spec fn span(state: LexerView) -> Seq<char> {
    state.source.subrange(state.step().1.start, state.step().1.position)
}

/// A word is a keyword only if it is spelled exactly as that keyword, and
/// the token that stands for a word is a keyword or an identifier with that
/// very spelling.
pub proof fn law_keyword_spells_the_word(text: Seq<char>)
    ensures
        match keyword(text) {
            Some(token) => word_token(text) == token && keyword_spelling(token) == Some(text),
            None => word_token(text) == TokenView::Identifier(text),
        },
{
}

/// Each of the nine spellings gives its keyword, and no two keywords share a
/// spelling.
pub proof fn law_keyword_is_found(token: TokenView)
    requires
        keyword_spelling(token) is Some,
    ensures
        keyword(keyword_spelling(token)->0) == Some(token),
{
    reveal_strlit("fn");
    reveal_strlit("flow");
    reveal_strlit("record");
    reveal_strlit("type");
    reveal_strlit("let");
    reveal_strlit("if");
    reveal_strlit("true");
    reveal_strlit("false");
    reveal_strlit("as");
    // Two spellings differ in their length,
    assert("fn"@.len() == 2 && "if"@.len() == 2 && "as"@.len() == 2 && "let"@.len() == 3);
    assert("flow"@.len() == 4 && "type"@.len() == 4 && "true"@.len() == 4);
    assert("false"@.len() == 5 && "record"@.len() == 6);
    // or else in their first or second character.
    assert("fn"@[0] == 'f' && "if"@[0] == 'i' && "as"@[0] == 'a');
    assert("flow"@[0] == 'f' && "type"@[1] == 'y' && "true"@[1] == 'r');
}

/// An identifier or a keyword is a run of identifier characters that cannot
/// be made longer, its first character may start an identifier, and its
/// spelling is the whole run. Only a run that spells no keyword is an
/// identifier.
pub proof fn law_words_are_longest_runs(state: LexerView)
    requires
        state.wf(),
    ensures
        ({
            let (token, next) = state.step();
            token is Identifier || keyword_spelling(token) is Some ==> {
                &&& is_longest_run(
                    state.source,
                    next.start,
                    next.position,
                    CharClass::Identifier,
                )
                &&& next.start < next.position
                &&& identifier_start(state.source[next.start])
                &&& token == word_token(span(state))
                &&& token matches TokenView::Identifier(text) ==> text == span(state) && keyword(
                    text,
                ) is None
                &&& keyword_spelling(token) matches Some(text) ==> text == span(state)
            }
        }),
{
    law_step_keeps_well_formed(state);
    let start = state.step().1.start;
    if start < state.source.len() {
        lemma_run_end_is_longest(state.source, start, CharClass::Identifier);
    }
}

/// A number ends where the number scan ends. An integer token is a run of
/// digits that cannot be made longer, with no fractional part behind it, and
/// holds the run's value. A float token is such a run, a dot, and a second
/// such run, both with at least one digit, and holds exactly that text. A
/// run of digits is malformed only where its value is too large.
pub proof fn law_numbers_are_longest_runs(state: LexerView)
    requires
        state.wf(),
    ensures
        ({
            let (token, next) = state.step();
            let whole_end = run_end(state.source, next.start, CharClass::Digit);
            &&& token matches TokenView::Integer(value) ==> {
                &&& next.position == number_end(state.source, next.start)
                &&& !has_fraction(state.source, next.start)
                &&& is_longest_run(state.source, next.start, next.position, CharClass::Digit)
                &&& next.start < next.position
                &&& !fraction_at(state.source, next.position)
                &&& value == decimal_value(span(state))
            }
            &&& token matches TokenView::Float(text) ==> {
                &&& next.position == number_end(state.source, next.start)
                &&& has_fraction(state.source, next.start)
                &&& text == span(state)
                &&& is_longest_run(state.source, next.start, whole_end, CharClass::Digit)
                &&& next.start < whole_end
                &&& state.source[whole_end] == '.'
                &&& is_longest_run(state.source, whole_end + 1, next.position, CharClass::Digit)
                &&& whole_end + 1 < next.position
            }
            &&& token matches TokenView::Error { kind: LexErrorKind::MalformedNumber, .. } ==> {
                &&& next.position == number_end(state.source, next.start)
                &&& !has_fraction(state.source, next.start)
                &&& is_longest_run(state.source, next.start, next.position, CharClass::Digit)
                &&& next.start < next.position
                &&& !fraction_at(state.source, next.position)
                &&& decimal_value(span(state)) > i64::MAX
            }
        }),
{
    law_step_keeps_well_formed(state);
    let start = state.step().1.start;
    if start < state.source.len() {
        let whole_end = run_end(state.source, start, CharClass::Digit);
        lemma_run_end_is_longest(state.source, start, CharClass::Digit);
        if fraction_at(state.source, whole_end) {
            lemma_run_end_is_longest(state.source, whole_end + 1, CharClass::Digit);
        }
    }
}

/// A string token begins and ends with a double quote and holds what lies
/// between the two, which has no double quote in it. A string without a
/// closing quote is an error that takes the rest of the text.
pub proof fn law_strings_are_quoted(state: LexerView)
    requires
        state.wf(),
    ensures
        ({
            let (token, next) = state.step();
            &&& token matches TokenView::StringLiteral(text) ==> {
                &&& next.start + 2 <= next.position
                &&& state.source[next.start] == '"'
                &&& state.source[next.position - 1] == '"'
                &&& text == state.source.subrange(next.start + 1, next.position - 1)
                &&& forall|i: int| 0 <= i < text.len() ==> #[trigger] text[i] != '"'
            }
            &&& token matches TokenView::Error { kind: LexErrorKind::UnterminatedString, .. } ==> {
                &&& state.source[next.start] == '"'
                &&& next.position == state.source.len()
                &&& forall|i: int|
                    next.start < i < state.source.len() ==> #[trigger] state.source[i] != '"'
            }
        }),
{
    law_step_keeps_well_formed(state);
    let start = state.step().1.start;
    if start < state.source.len() {
        lemma_run_end_is_longest(state.source, start + 1, CharClass::StringText);
    }
}

/// The text of an error token is the text of the token, and an illegal
/// character is an error of exactly one character.
pub proof fn law_errors_carry_their_text(state: LexerView)
    requires
        state.wf(),
    ensures
        ({
            let (token, next) = state.step();
            token matches TokenView::Error { kind, text, line } ==> {
                &&& text == span(state)
                &&& text.len() > 0
                &&& line == next.token_line
                &&& kind == LexErrorKind::IllegalCharacter ==> text.len() == 1
            }
        }),
{
}

/// Where two characters spell a symbol together, the token is that symbol
/// and takes both; elsewhere a symbol character is taken alone. A minus sign
/// that no `>` follows is the minus token where the lexer was told so, and
/// an illegal character where not.
pub proof fn law_symbols_prefer_two_characters(state: LexerView)
    requires
        state.wf(),
        state.step().1.start < state.source.len(),
        symbol_char(state.source[state.step().1.start]),
    ensures
        ({
            let (token, next) = state.step();
            let first = state.source[next.start];
            if double_symbol_at(state.source, next.start) {
                &&& Some(token) == double_symbol(first, state.source[next.start + 1])
                &&& next.position == next.start + 2
            } else {
                &&& next.position == next.start + 1
                &&& first != '-' || state.minus_operator ==> Some(token) == single_symbol(
                    first,
                    state.minus_operator,
                )
                &&& first == '-' && !state.minus_operator ==> token == (TokenView::Error {
                    kind: LexErrorKind::IllegalCharacter,
                    text: seq!['-'],
                    line: next.token_line,
                })
            }
        }),
{
    law_step_keeps_well_formed(state);
    let start = state.step().1.start;
    assert(state.source.subrange(start, start + 1) =~= seq![state.source[start]]);
}

/// The minus token is handed out only by a lexer that was told to.
pub proof fn law_minus_needs_the_operator(state: LexerView)
    requires
        state.wf(),
    ensures
        state.step().0 is Minus ==> state.minus_operator,
{
}

} // verus!
