use karac::lexer::Lexer;
use karac::run_compiler;
use karac::token::Token;

/// A token as a reader of numbers sees it: whole and fractional literals
/// alike stand for a number.
#[derive(Debug, PartialEq)]
enum Seen {
    Number(f64),
    Other(Token),
}

fn seen(token: Token) -> Seen {
    match token {
        Token::Integer(value) => Seen::Number(value as f64),
        Token::Float(text) => Seen::Number(text.parse().unwrap()),
        other => Seen::Other(other),
    }
}

fn number(value: f64) -> Seen {
    Seen::Number(value)
}

fn plain(token: Token) -> Seen {
    Seen::Other(token)
}

fn identifier(name: &str) -> Seen {
    Seen::Other(Token::Identifier(name.to_string()))
}

fn string(text: &str) -> Seen {
    Seen::Other(Token::StringLiteral(text.to_string()))
}

#[test]
fn test_lexer() {
    let source = r#"
        let x = 5;
        let y = 10.5;
        let add = fn(a, b) -> {
            a + b;
        };
        let result = add(x, y);
        "hello world"
    "#;

    let tokens: Vec<Seen> = run_compiler(source).into_iter().map(seen).collect();

    let expected_tokens = vec![
        plain(Token::Let),
        identifier("x"),
        plain(Token::Equal),
        number(5.0),
        plain(Token::Semicolon),
        plain(Token::Let),
        identifier("y"),
        plain(Token::Equal),
        number(10.5),
        plain(Token::Semicolon),
        plain(Token::Let),
        identifier("add"),
        plain(Token::Equal),
        plain(Token::Fn),
        plain(Token::LeftParen),
        identifier("a"),
        plain(Token::Comma),
        identifier("b"),
        plain(Token::RightParen),
        plain(Token::Arrow),
        plain(Token::LeftBrace),
        identifier("a"),
        plain(Token::Plus),
        identifier("b"),
        plain(Token::Semicolon),
        plain(Token::RightBrace),
        plain(Token::Semicolon),
        plain(Token::Let),
        identifier("result"),
        plain(Token::Equal),
        identifier("add"),
        plain(Token::LeftParen),
        identifier("x"),
        plain(Token::Comma),
        identifier("y"),
        plain(Token::RightParen),
        plain(Token::Semicolon),
        string("hello world"),
        plain(Token::EOF),
    ];

    assert_eq!(tokens, expected_tokens);
}

#[test]
fn test_basic_tokenization() {
    let source = r#"
            // Define a new semantic type
            type UserId i64;

            flow PromoteUser(id: UserId) {
                let user_age = 30;
                if user_age >= 18 {
                    // This is a valid user
                }
            }
        "#;

    let tokens = run_compiler(source);

    let expected_tokens = vec![
        // type UserId i64;
        Token::Type,
        Token::Identifier("UserId".to_string()),
        Token::Identifier("i64".to_string()),
        Token::Semicolon,
        // flow PromoteUser(id: UserId) {
        Token::Flow,
        Token::Identifier("PromoteUser".to_string()),
        Token::LeftParen,
        Token::Identifier("id".to_string()),
        Token::Colon,
        Token::Identifier("UserId".to_string()),
        Token::RightParen,
        Token::LeftBrace,
        // let user_age = 30;
        Token::Let,
        Token::Identifier("user_age".to_string()),
        Token::Equal,
        Token::Integer(30),
        Token::Semicolon,
        // if user_age >= 18 {
        Token::If,
        Token::Identifier("user_age".to_string()),
        Token::GreaterThanOrEqual,
        Token::Integer(18),
        Token::LeftBrace,
        // }
        Token::RightBrace,
        // }
        Token::RightBrace,
        Token::EOF,
    ];

    assert_eq!(tokens, expected_tokens, "The token stream did not match the expected output.");
}

#[test]
fn test_full_syntax_lexing() {
    let source = r#"
// Define a complex data structure
Record User {
    id: i64,
    name: String,
    // email is optional
    email: String, 
}

// Define a simple flow
flow RegisterUser {
    let new_user = User {
        id: 101,
        name: "Kāra",
        email: "contact@kara.dev",
    };

    // Use the 'Sūtra' keyword
    Sūtra: LogUser -> ();

    new_user -> LogUser;
}
"#;

    let mut lexer = Lexer::new(source.to_string());

    // Keywords are spelled in lower case: `Record` and `Sūtra` are names.
    let expected_tokens = vec![
        identifier("Record"),
        identifier("User"),
        plain(Token::LeftBrace),
        identifier("id"),
        plain(Token::Colon),
        identifier("i64"),
        plain(Token::Comma),
        identifier("name"),
        plain(Token::Colon),
        identifier("String"),
        plain(Token::Comma),
        identifier("email"),
        plain(Token::Colon),
        identifier("String"),
        plain(Token::Comma),
        plain(Token::RightBrace),
        plain(Token::Flow),
        identifier("RegisterUser"),
        plain(Token::LeftBrace),
        plain(Token::Let),
        identifier("new_user"),
        plain(Token::Equal),
        identifier("User"),
        plain(Token::LeftBrace),
        identifier("id"),
        plain(Token::Colon),
        number(101.0),
        plain(Token::Comma),
        identifier("name"),
        plain(Token::Colon),
        string("Kāra"),
        plain(Token::Comma),
        identifier("email"),
        plain(Token::Colon),
        string("contact@kara.dev"),
        plain(Token::Comma),
        plain(Token::RightBrace),
        plain(Token::Semicolon),
        identifier("Sūtra"),
        plain(Token::Colon),
        identifier("LogUser"),
        plain(Token::Arrow),
        plain(Token::LeftParen),
        plain(Token::RightParen),
        plain(Token::Semicolon),
        identifier("new_user"),
        plain(Token::Arrow),
        identifier("LogUser"),
        plain(Token::Semicolon),
        plain(Token::RightBrace),
        plain(Token::EOF),
    ];

    for expected_token in expected_tokens {
        let actual_token = seen(lexer.next_token());
        println!("Expected: {:?}, Got: {:?}", expected_token, actual_token);
        assert_eq!(actual_token, expected_token);
    }
}
