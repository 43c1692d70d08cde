use karac::lexer::Lexer;
use karac::run_compiler;
use karac::token::{LexErrorKind, Token};

fn identifier(name: &str) -> Token {
    Token::Identifier(name.to_string())
}

fn error(kind: LexErrorKind, text: &str, line: u64) -> Token {
    Token::Error { kind, text: text.to_string(), line }
}

fn float_value(token: &Token) -> f64 {
    match token {
        Token::Float(text) => text.parse().unwrap(),
        other => panic!("not a float token: {:?}", other),
    }
}

#[test]
fn empty_input_is_end_of_input() {
    assert_eq!(run_compiler(""), vec![Token::EOF]);
}

#[test]
fn blank_input_is_end_of_input() {
    assert_eq!(run_compiler(" \t\r\n  \n"), vec![Token::EOF]);
}

#[test]
fn end_of_input_repeats() {
    let mut lexer = Lexer::new("x".to_string());
    assert_eq!(lexer.next_token(), identifier("x"));
    for _ in 0..10 {
        assert_eq!(lexer.next_token(), Token::EOF);
        assert_eq!(lexer.position(), 1);
        assert_eq!(lexer.token_start(), 1);
    }
}

#[test]
fn end_of_input_repeats_on_empty_input() {
    let mut lexer = Lexer::new(String::new());
    for _ in 0..3 {
        assert_eq!(lexer.next_token(), Token::EOF);
        assert_eq!(lexer.position(), 0);
    }
}

#[test]
fn exactly_one_end_of_input_in_a_stream() {
    let tokens = run_compiler("a b // c\n \"s\" 1 2.5 @ -> -");
    let ends = tokens.iter().filter(|token| token.is_eof()).count();
    assert_eq!(ends, 1);
    assert_eq!(tokens.last(), Some(&Token::EOF));
    assert_eq!(tokens.len(), 9);
}

#[test]
fn every_call_moves_the_cursor_forward() {
    let source = "let x = 5;\n// note\n  \"text\" 10.5 -> @ - \"open";
    let length = source.chars().count();
    let mut lexer = Lexer::new(source.to_string());
    loop {
        let before = lexer.position();
        let token = lexer.next_token();
        if before < length {
            assert!(lexer.position() > before);
        } else {
            assert_eq!(lexer.position(), before);
            assert_eq!(token, Token::EOF);
        }
        assert!(lexer.token_start() <= lexer.position());
        if token.is_eof() {
            break;
        }
        assert!(lexer.token_start() < lexer.position());
    }
    assert_eq!(lexer.position(), length);
}

#[test]
fn trailing_blanks_are_consumed_with_the_end_of_input() {
    let mut lexer = Lexer::new("x  \n".to_string());
    assert_eq!(lexer.next_token(), identifier("x"));
    assert_eq!(lexer.position(), 1);
    assert_eq!(lexer.next_token(), Token::EOF);
    assert_eq!(lexer.position(), 4);
    assert_eq!(lexer.token_start(), 4);
}

#[test]
fn maximal_munch_lets() {
    assert_eq!(run_compiler("lets"), vec![identifier("lets"), Token::EOF]);
}

#[test]
fn keyword_exactness_iffy() {
    assert_eq!(run_compiler("iffy"), vec![identifier("iffy"), Token::EOF]);
}

#[test]
fn every_keyword_is_found() {
    assert_eq!(
        run_compiler("fn flow record type let if true false as"),
        vec![
            Token::Fn,
            Token::Flow,
            Token::Record,
            Token::Type,
            Token::Let,
            Token::If,
            Token::True,
            Token::False,
            Token::As,
            Token::EOF,
        ]
    );
}

#[test]
fn keywords_are_case_sensitive() {
    assert_eq!(
        run_compiler("Let IF True fN"),
        vec![identifier("Let"), identifier("IF"), identifier("True"), identifier("fN"), Token::EOF]
    );
}

#[test]
fn keyword_prefixes_and_extensions_are_identifiers() {
    assert_eq!(
        run_compiler("f flo records types le i tru falsey a ass let_ _let"),
        vec![
            identifier("f"),
            identifier("flo"),
            identifier("records"),
            identifier("types"),
            identifier("le"),
            identifier("i"),
            identifier("tru"),
            identifier("falsey"),
            identifier("a"),
            identifier("ass"),
            identifier("let_"),
            identifier("_let"),
            Token::EOF,
        ]
    );
}

#[test]
fn identifiers_hold_letters_digits_and_underscores() {
    assert_eq!(
        run_compiler("_ _x1 x_1 i64 a1b2 __init__"),
        vec![
            identifier("_"),
            identifier("_x1"),
            identifier("x_1"),
            identifier("i64"),
            identifier("a1b2"),
            identifier("__init__"),
            Token::EOF,
        ]
    );
}

#[test]
fn identifiers_may_be_written_in_any_script() {
    assert_eq!(
        run_compiler("Sūtra 京都 été x٣"),
        vec![
            identifier("Sūtra"),
            identifier("京都"),
            identifier("été"),
            identifier("x٣"),
            Token::EOF,
        ]
    );
}

#[test]
fn a_number_ends_before_a_letter() {
    assert_eq!(run_compiler("1abc"), vec![Token::Integer(1), identifier("abc"), Token::EOF]);
}

#[test]
fn numeric_classification_integer() {
    assert_eq!(run_compiler("42"), vec![Token::Integer(42), Token::EOF]);
}

#[test]
fn numeric_classification_float() {
    let tokens = run_compiler("42.5");
    assert_eq!(tokens, vec![Token::Float("42.5".to_string()), Token::EOF]);
    assert_eq!(float_value(&tokens[0]), 42.5);
}

#[test]
fn numeric_classification_trailing_dot() {
    assert_eq!(run_compiler("42."), vec![Token::Integer(42), Token::Dot, Token::EOF]);
}

#[test]
fn a_dot_before_a_letter_ends_the_number() {
    assert_eq!(
        run_compiler("42.x"),
        vec![Token::Integer(42), Token::Dot, identifier("x"), Token::EOF]
    );
}

#[test]
fn a_second_dot_ends_the_float() {
    assert_eq!(
        run_compiler("1.2.3"),
        vec![Token::Float("1.2".to_string()), Token::Dot, Token::Integer(3), Token::EOF]
    );
}

#[test]
fn a_leading_dot_is_a_dot() {
    assert_eq!(run_compiler(".5"), vec![Token::Dot, Token::Integer(5), Token::EOF]);
}

#[test]
fn leading_zeros_do_not_change_the_value() {
    assert_eq!(
        run_compiler("007 0 000000000000000000000000000012"),
        vec![Token::Integer(7), Token::Integer(0), Token::Integer(12), Token::EOF]
    );
}

#[test]
fn the_largest_integer_is_read() {
    assert_eq!(
        run_compiler("9223372036854775807"),
        vec![Token::Integer(i64::MAX), Token::EOF]
    );
}

#[test]
fn an_integer_too_large_is_malformed() {
    assert_eq!(
        run_compiler("9223372036854775808"),
        vec![error(LexErrorKind::MalformedNumber, "9223372036854775808", 1), Token::EOF]
    );
}

#[test]
fn scanning_goes_on_after_a_malformed_number() {
    assert_eq!(
        run_compiler("x\n99999999999999999999999 y"),
        vec![
            identifier("x"),
            error(LexErrorKind::MalformedNumber, "99999999999999999999999", 2),
            identifier("y"),
            Token::EOF,
        ]
    );
}

#[test]
fn a_long_float_keeps_all_its_digits() {
    let tokens = run_compiler("99999999999999999999999.000000000000000000001");
    assert_eq!(
        tokens,
        vec![Token::Float("99999999999999999999999.000000000000000000001".to_string()), Token::EOF]
    );
    assert_eq!(float_value(&tokens[0]), 1e23);
}

#[test]
fn string_round_trip() {
    assert_eq!(
        run_compiler("\"hello world\""),
        vec![Token::StringLiteral("hello world".to_string()), Token::EOF]
    );
}

#[test]
fn string_unterminated() {
    let mut lexer = Lexer::new("\"unterminated".to_string());
    assert_eq!(
        lexer.next_token(),
        error(LexErrorKind::UnterminatedString, "\"unterminated", 1)
    );
    assert_eq!(lexer.position(), 13);
    assert_eq!(lexer.next_token(), Token::EOF);
    assert_eq!(lexer.next_token(), Token::EOF);
}

#[test]
fn a_lone_quote_is_an_unterminated_string() {
    assert_eq!(
        run_compiler("x \""),
        vec![identifier("x"), error(LexErrorKind::UnterminatedString, "\"", 1), Token::EOF]
    );
}

#[test]
fn an_empty_string_is_a_string() {
    assert_eq!(run_compiler("\"\""), vec![Token::StringLiteral(String::new()), Token::EOF]);
}

#[test]
fn a_backslash_is_an_ordinary_character() {
    assert_eq!(
        run_compiler(r#""a\nb" "c\" d"#),
        vec![
            Token::StringLiteral("a\\nb".to_string()),
            Token::StringLiteral("c\\".to_string()),
            identifier("d"),
            Token::EOF,
        ]
    );
}

#[test]
fn a_string_keeps_comment_signs_and_blanks() {
    assert_eq!(
        run_compiler("\" // not a comment\t\" x"),
        vec![Token::StringLiteral(" // not a comment\t".to_string()), identifier("x"), Token::EOF]
    );
}

#[test]
fn adjacent_strings_are_two_tokens() {
    assert_eq!(
        run_compiler("\"a\"\"b\""),
        vec![
            Token::StringLiteral("a".to_string()),
            Token::StringLiteral("b".to_string()),
            Token::EOF,
        ]
    );
}

#[test]
fn operator_disambiguation_arrow() {
    assert_eq!(run_compiler("->"), vec![Token::Arrow, Token::EOF]);
}

#[test]
fn operator_disambiguation_lone_minus() {
    assert_eq!(
        run_compiler("-"),
        vec![error(LexErrorKind::IllegalCharacter, "-", 1), Token::EOF]
    );
}

#[test]
fn a_minus_and_a_distant_greater_than_are_two_tokens() {
    assert_eq!(
        run_compiler("- >"),
        vec![error(LexErrorKind::IllegalCharacter, "-", 1), Token::GreaterThan, Token::EOF]
    );
}

#[test]
fn the_minus_operator_can_be_switched_on() {
    let mut lexer = Lexer::new("a - b -> -".to_string()).with_minus_operator(true);
    assert_eq!(lexer.next_token(), identifier("a"));
    assert_eq!(lexer.next_token(), Token::Minus);
    assert_eq!(lexer.next_token(), identifier("b"));
    assert_eq!(lexer.next_token(), Token::Arrow);
    assert_eq!(lexer.next_token(), Token::Minus);
    assert_eq!(lexer.next_token(), Token::EOF);
}

#[test]
fn the_minus_operator_can_be_switched_off_again() {
    let mut lexer =
        Lexer::new("- -".to_string()).with_minus_operator(true).with_minus_operator(false);
    assert_eq!(lexer.next_token(), error(LexErrorKind::IllegalCharacter, "-", 1));
    let mut lexer = lexer.with_minus_operator(true);
    assert_eq!(lexer.next_token(), Token::Minus);
    assert_eq!(lexer.next_token(), Token::EOF);
}

#[test]
fn two_character_symbols_come_first() {
    assert_eq!(
        run_compiler("== != <= >= ->"),
        vec![
            Token::EqualEqual,
            Token::BangEqual,
            Token::LessThanOrEqual,
            Token::GreaterThanOrEqual,
            Token::Arrow,
            Token::EOF,
        ]
    );
}

#[test]
fn single_character_symbols() {
    assert_eq!(
        run_compiler("( ) { } : , ; + * / . = ! < >"),
        vec![
            Token::LeftParen,
            Token::RightParen,
            Token::LeftBrace,
            Token::RightBrace,
            Token::Colon,
            Token::Comma,
            Token::Semicolon,
            Token::Plus,
            Token::Star,
            Token::Slash,
            Token::Dot,
            Token::Equal,
            Token::Bang,
            Token::LessThan,
            Token::GreaterThan,
            Token::EOF,
        ]
    );
}

#[test]
fn symbols_need_no_blanks_between_them() {
    assert_eq!(
        run_compiler("===>=<!==>(){}"),
        vec![
            Token::EqualEqual,
            Token::Equal,
            Token::GreaterThanOrEqual,
            Token::LessThan,
            Token::BangEqual,
            Token::Equal,
            Token::GreaterThan,
            Token::LeftParen,
            Token::RightParen,
            Token::LeftBrace,
            Token::RightBrace,
            Token::EOF,
        ]
    );
}

#[test]
fn a_symbol_at_the_very_end_stands_alone() {
    assert_eq!(run_compiler("x="), vec![identifier("x"), Token::Equal, Token::EOF]);
    assert_eq!(run_compiler("x!"), vec![identifier("x"), Token::Bang, Token::EOF]);
    assert_eq!(run_compiler("x<"), vec![identifier("x"), Token::LessThan, Token::EOF]);
    assert_eq!(run_compiler("x>"), vec![identifier("x"), Token::GreaterThan, Token::EOF]);
}

#[test]
fn illegal_characters_are_reported_one_by_one() {
    assert_eq!(
        run_compiler("@#x $"),
        vec![
            error(LexErrorKind::IllegalCharacter, "@", 1),
            error(LexErrorKind::IllegalCharacter, "#", 1),
            identifier("x"),
            error(LexErrorKind::IllegalCharacter, "$", 1),
            Token::EOF,
        ]
    );
}

#[test]
fn a_null_character_is_illegal_and_does_not_end_the_input() {
    assert_eq!(
        run_compiler("a\0b"),
        vec![
            identifier("a"),
            error(LexErrorKind::IllegalCharacter, "\0", 1),
            identifier("b"),
            Token::EOF,
        ]
    );
}

#[test]
fn only_four_characters_are_blanks() {
    assert_eq!(
        run_compiler("a\u{a0}b\u{c}c"),
        vec![
            identifier("a"),
            error(LexErrorKind::IllegalCharacter, "\u{a0}", 1),
            identifier("b"),
            error(LexErrorKind::IllegalCharacter, "\u{c}", 1),
            identifier("c"),
            Token::EOF,
        ]
    );
}

#[test]
fn symbols_and_currency_signs_outside_the_alphabet_are_illegal() {
    assert_eq!(
        run_compiler("€ ½"),
        vec![
            error(LexErrorKind::IllegalCharacter, "€", 1),
            error(LexErrorKind::IllegalCharacter, "½", 1),
            Token::EOF,
        ]
    );
}

#[test]
fn a_comment_runs_to_the_end_of_its_line() {
    assert_eq!(
        run_compiler("a // b c \"d\n e"),
        vec![identifier("a"), identifier("e"), Token::EOF]
    );
}

#[test]
fn a_comment_may_end_the_input() {
    assert_eq!(run_compiler("// nothing else"), vec![Token::EOF]);
    assert_eq!(run_compiler("x //"), vec![identifier("x"), Token::EOF]);
}

#[test]
fn comments_may_follow_one_another() {
    assert_eq!(
        run_compiler("// one\n// two\n\n   // three\nx // four\n// five"),
        vec![identifier("x"), Token::EOF]
    );
}

#[test]
fn a_single_slash_is_a_token() {
    assert_eq!(
        run_compiler("a / b / / c"),
        vec![
            identifier("a"),
            Token::Slash,
            identifier("b"),
            Token::Slash,
            Token::Slash,
            identifier("c"),
            Token::EOF,
        ]
    );
}

#[test]
fn three_slashes_are_a_comment() {
    assert_eq!(run_compiler("/// x\ny"), vec![identifier("y"), Token::EOF]);
}

#[test]
fn line_tracking_two_newlines() {
    let mut lexer = Lexer::new("\n\nfoo".to_string());
    assert_eq!(lexer.line(), 1);
    assert_eq!(lexer.next_token(), identifier("foo"));
    assert_eq!(lexer.token_line(), 3);
    assert_eq!(lexer.line(), 3);
}

#[test]
fn line_tracking_counts_each_newline_once() {
    let mut lexer = Lexer::new("a\r\nb\n\n// c\n\td\n".to_string());
    assert_eq!(lexer.next_token(), identifier("a"));
    assert_eq!(lexer.token_line(), 1);
    assert_eq!(lexer.next_token(), identifier("b"));
    assert_eq!(lexer.token_line(), 2);
    assert_eq!(lexer.next_token(), identifier("d"));
    assert_eq!(lexer.token_line(), 5);
    assert_eq!(lexer.line(), 5);
    assert_eq!(lexer.next_token(), Token::EOF);
    assert_eq!(lexer.token_line(), 6);
    assert_eq!(lexer.line(), 6);
}

#[test]
fn line_tracking_starts_where_it_is_told() {
    let mut lexer = Lexer::with_first_line("\n\nfoo @".to_string(), 10);
    assert_eq!(lexer.line(), 10);
    assert_eq!(lexer.token_line(), 10);
    assert_eq!(lexer.next_token(), identifier("foo"));
    assert_eq!(lexer.token_line(), 12);
    assert_eq!(lexer.next_token(), error(LexErrorKind::IllegalCharacter, "@", 12));
}

#[test]
fn line_tracking_stops_at_the_largest_number() {
    let mut lexer = Lexer::with_first_line("a\nb\nc".to_string(), u64::MAX - 1);
    assert_eq!(lexer.next_token(), identifier("a"));
    assert_eq!(lexer.token_line(), u64::MAX - 1);
    assert_eq!(lexer.next_token(), identifier("b"));
    assert_eq!(lexer.token_line(), u64::MAX);
    assert_eq!(lexer.next_token(), identifier("c"));
    assert_eq!(lexer.token_line(), u64::MAX);
}

#[test]
fn a_string_may_span_lines() {
    let mut lexer = Lexer::new("x\n\"a\nb\n\" y".to_string());
    assert_eq!(lexer.next_token(), identifier("x"));
    assert_eq!(lexer.next_token(), Token::StringLiteral("a\nb\n".to_string()));
    assert_eq!(lexer.token_line(), 2);
    assert_eq!(lexer.line(), 4);
    assert_eq!(lexer.next_token(), identifier("y"));
    assert_eq!(lexer.token_line(), 4);
}

#[test]
fn an_error_reports_the_line_on_which_it_begins() {
    let mut lexer = Lexer::new("\n\n@\n\"open\n\n".to_string());
    assert_eq!(lexer.next_token(), error(LexErrorKind::IllegalCharacter, "@", 3));
    assert_eq!(lexer.next_token(), error(LexErrorKind::UnterminatedString, "\"open\n\n", 4));
    assert_eq!(lexer.token_line(), 4);
    assert_eq!(lexer.line(), 6);
    assert_eq!(lexer.next_token(), Token::EOF);
    assert_eq!(lexer.token_line(), 6);
}

#[test]
fn several_errors_surface_in_one_pass() {
    let tokens = run_compiler("@ 99999999999999999999 ok - \"open");
    let errors: Vec<&Token> = tokens.iter().filter(|token| token.is_error()).collect();
    assert_eq!(
        errors,
        vec![
            &error(LexErrorKind::IllegalCharacter, "@", 1),
            &error(LexErrorKind::MalformedNumber, "99999999999999999999", 1),
            &error(LexErrorKind::IllegalCharacter, "-", 1),
            &error(LexErrorKind::UnterminatedString, "\"open", 1),
        ]
    );
    assert_eq!(tokens.len(), 6);
}

#[test]
fn end_to_end_example() {
    let tokens = run_compiler("let x = 5;\nlet y = 10.5;");
    assert_eq!(
        tokens,
        vec![
            Token::Let,
            identifier("x"),
            Token::Equal,
            Token::Integer(5),
            Token::Semicolon,
            Token::Let,
            identifier("y"),
            Token::Equal,
            Token::Float("10.5".to_string()),
            Token::Semicolon,
            Token::EOF,
        ]
    );
    assert_eq!(float_value(&tokens[8]), 10.5);
}

#[test]
fn token_start_and_position_bound_the_token() {
    let source: Vec<char> = "  let   count = \"a b\";".chars().collect();
    let mut lexer = Lexer::new(source.iter().collect());
    let mut spans: Vec<String> = Vec::new();
    loop {
        let token = lexer.next_token();
        spans.push(source[lexer.token_start()..lexer.position()].iter().collect());
        if token.is_eof() {
            break;
        }
    }
    assert_eq!(spans, vec!["let", "count", "=", "\"a b\"", ";", ""]);
}

#[test]
fn the_stream_is_what_the_lexer_hands_out_call_by_call() {
    let source = "flow f(a) -> { a + 1.5; } // done";
    let mut lexer = Lexer::new(source.to_string());
    let mut tokens = Vec::new();
    loop {
        let token = lexer.next_token();
        let done = token.is_eof();
        tokens.push(token);
        if done {
            break;
        }
    }
    assert_eq!(tokens, run_compiler(source));
    assert_eq!(tokens.len(), 13);
}
