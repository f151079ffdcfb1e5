use eval::lexer::Lexer;
use eval::token::{Token, TokenKind};

fn kinds(tokens: &[Token]) -> Vec<TokenKind> {
    tokens.iter().map(|t| t.kind).collect()
}

#[test]
fn test_next_for_proper_lexing() {
    let test_string = String::from("3.0f/-+*|**()");
    let control_tokens = vec![
        TokenKind::NumberToken,
        TokenKind::BadSymbol,
        TokenKind::Slash,
        TokenKind::Minus,
        TokenKind::Plus,
        TokenKind::Star,
        TokenKind::Pipe,
        TokenKind::DoubleStar,
        TokenKind::OpenParenthesis,
        TokenKind::CloseParenthesis,
    ]
    .into_iter();

    let mut lexer = Lexer::new(test_string);

    for control_token_kind in control_tokens {
        let token_kind = lexer.next().unwrap().kind;
        assert_eq!(control_token_kind, token_kind);
    }
}

#[test]
fn bad_symbol_is_reported_and_scanning_resumes() {
    let mut lexer = Lexer::new(String::from("3@5"));
    let mut tokens = Vec::new();
    while let Some(t) = lexer.next() {
        tokens.push(t);
    }
    assert_eq!(
        kinds(&tokens),
        vec![TokenKind::NumberToken, TokenKind::BadSymbol, TokenKind::NumberToken, TokenKind::EndOfFile]
    );
    assert_eq!(tokens[0].value, "3");
    assert_eq!(tokens[1].value, "@");
    assert_eq!(tokens[1].index, 1);
    assert_eq!(tokens[2].value, "5");
    assert_eq!(tokens[2].index, 2);
    assert_eq!(lexer.errors, vec![String::from("invalid symbol '@' at index 1")]);
}

#[test]
fn lex_ends_with_end_of_file() {
    let tokens = Lexer::lex(String::new());
    assert_eq!(kinds(&tokens), vec![TokenKind::EndOfFile]);
    assert_eq!(tokens[0].value, "\0");
    assert_eq!(tokens[0].index, 0);
}

#[test]
fn lex_numbers_and_functions() {
    let tokens = Lexer::lex(String::from("12.5 + sqrt(4) ^ 3."));
    assert_eq!(
        kinds(&tokens),
        vec![
            TokenKind::NumberToken,
            TokenKind::WhiteSpace,
            TokenKind::Plus,
            TokenKind::WhiteSpace,
            TokenKind::FunctionCall,
            TokenKind::OpenParenthesis,
            TokenKind::NumberToken,
            TokenKind::CloseParenthesis,
            TokenKind::WhiteSpace,
            TokenKind::Caret,
            TokenKind::WhiteSpace,
            TokenKind::NumberToken,
            TokenKind::EndOfFile,
        ]
    );
    assert_eq!(tokens[0].value, "12.5");
    assert_eq!(tokens[4].value, "sqrt");
    assert_eq!(tokens[4].index, 7);
    assert_eq!(tokens[11].value, "3.");
    assert_eq!(tokens[12].index, 19);
}

#[test]
fn identifier_without_parenthesis_is_bad() {
    let mut lexer = Lexer::new(String::from("pi,%"));
    let mut tokens = Vec::new();
    while let Some(t) = lexer.next() {
        tokens.push(t);
    }
    assert_eq!(
        kinds(&tokens),
        vec![
            TokenKind::BadSymbol,
            TokenKind::BadSymbol,
            TokenKind::Comma,
            TokenKind::Percent,
            TokenKind::EndOfFile
        ]
    );
    assert_eq!(lexer.errors.len(), 2);
    assert_eq!(lexer.errors[1], "invalid symbol 'i' at index 1");
}

#[test]
fn unicode_white_space_and_large_index() {
    let tokens = Lexer::lex(String::from("1\u{3000}2"));
    assert_eq!(
        kinds(&tokens),
        vec![TokenKind::NumberToken, TokenKind::WhiteSpace, TokenKind::NumberToken, TokenKind::EndOfFile]
    );
    assert_eq!(tokens[2].index, 4);
    assert_eq!(tokens[3].index, 5);
    let mut lexer = Lexer::new(String::from("\u{e9}@"));
    while lexer.next().is_some() {}
    assert_eq!(
        lexer.errors,
        vec![String::from("invalid symbol '\u{e9}' at index 0"), String::from("invalid symbol '@' at index 2")]
    );
    let mut lexer = Lexer::new(String::from("1234567890@"));
    while lexer.next().is_some() {}
    assert_eq!(lexer.errors, vec![String::from("invalid symbol '@' at index 10")]);
}

#[test]
fn nul_inside_the_source_is_bad() {
    let tokens = Lexer::lex(String::from("1\u{0}"));
    assert_eq!(
        kinds(&tokens),
        vec![TokenKind::NumberToken, TokenKind::BadSymbol, TokenKind::EndOfFile]
    );
}

#[test]
fn numeric_literal_check() {
    assert!(Lexer::is_valid_int("12"));
    assert!(Lexer::is_valid_int("1.25"));
    assert!(Lexer::is_valid_int("7."));
    assert!(!Lexer::is_valid_int(""));
    assert!(!Lexer::is_valid_int(".5"));
    assert!(!Lexer::is_valid_int("1.2.3"));
}

#[test]
fn token_metadata() {
    let t = Token::new(TokenKind::DoubleStar, 0, String::from("**"));
    assert_eq!(t.get_binary_precedence(), 3);
    assert_eq!(Token::new(TokenKind::Caret, 0, String::from("^")).get_binary_precedence(), 3);
    assert_eq!(Token::new(TokenKind::Percent, 0, String::from("%")).get_binary_precedence(), 2);
    assert_eq!(Token::new(TokenKind::Minus, 0, String::from("-")).get_binary_precedence(), 1);
    assert_eq!(Token::new(TokenKind::Pipe, 0, String::from("|")).get_binary_precedence(), 0);
    assert_eq!(Token::new(TokenKind::Plus, 0, String::from("+")).get_unary_precedence(), 1);
    assert_eq!(t.get_unary_precedence(), 0);
    assert!(Token::is_usable_token(&t));
    assert!(!Token::is_usable_token(&Token::new(TokenKind::Comma, 0, String::from(","))));
    assert!(!Token::is_usable_token(&Token::new(TokenKind::WhiteSpace, 0, String::from(" "))));
    assert!(!Token::is_usable_token(&Token::new(TokenKind::BadSymbol, 0, String::from("?"))));
}
