//! A hand-written lexer for a small language: source text in, tokens out,
//! one token per call.
//!
//! [`lexer::Lexer`] walks the text; [`grammar`] says, as plain functions on
//! sequences of characters, which token begins where; [`laws`] holds what
//! follows from that for every text.

pub mod chars;
pub mod grammar;
pub mod laws;
pub mod lexer;
pub mod number;
pub mod text;
pub mod token;

use vstd::prelude::*;
use crate::laws::law_stream_ends_with_one_end_of_input;
use crate::lexer::{token_stream, Lexer, LexerView};
use crate::token::{token_views, Token};

verus! {

/// Lexes the whole of `source`: every token in order, the last of them the
/// end-of-input token. Lines count from 1, and a minus sign alone is an
/// illegal character.
pub fn run_compiler(source: &str) -> (tokens: Vec<Token>)
    ensures
        token_views(tokens@) == token_stream(LexerView::initial(source@, 1, false)),
        tokens.len() >= 1,
        tokens[tokens.len() - 1]@ is EOF,
        forall|i: int| 0 <= i < tokens.len() - 1 ==> !(#[trigger] tokens[i]@ is EOF),
{
    proof {
        law_stream_ends_with_one_end_of_input(LexerView::initial(source@, 1, false));
    }
    let mut lexer = Lexer::new(source.to_owned());
    let mut tokens: Vec<Token> = Vec::new();
    loop
        invariant_except_break
            lexer.wf(),
            token_views(tokens@) + token_stream(lexer@) == token_stream(
                LexerView::initial(source@, 1, false),
            ),
        ensures
            token_views(tokens@) == token_stream(LexerView::initial(source@, 1, false)),
        decreases lexer@.source.len() - lexer@.position,
    {
        let ghost seen = tokens@;
        let token = lexer.next_token();
        let is_eof = token.is_eof();
        tokens.push(token);
        proof {
            assert(token_views(seen) + (seq![token@] + token_stream(lexer@)) =~= (token_views(seen)
                + seq![token@]) + token_stream(lexer@));
        }
        if is_eof {
            break;
        }
    }
    proof {
        let stream = token_stream(LexerView::initial(source@, 1, false));
        assert forall|i: int| 0 <= i < tokens.len() - 1 implies !(#[trigger] tokens[i]@ is EOF) by {
            assert(!(stream[i] is EOF));
        }
    }
    tokens
}

} // verus!
