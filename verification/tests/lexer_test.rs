use rsap::expression::{Lexer, Token};

fn collect_tokens(mut lexer: Lexer) -> Vec<Token> {
    let mut out = Vec::new();
    while let Some(t) = lexer.next() {
        out.push(t);
    }
    out
}

#[test]
fn test_tokenize() {
    let tokens = collect_tokens(Lexer::new("-x + (1 - 2) * 3 / 4"));
    assert_eq!(
        tokens,
        [
            Token::Operator("-".to_string()),
            Token::Identifier("x".to_string()),
            Token::WhiteSpace(' '),
            Token::Operator("+".to_string()),
            Token::WhiteSpace(' '),
            Token::OpenParenthesis,
            Token::Number("1".to_string()),
            Token::WhiteSpace(' '),
            Token::Operator("-".to_string()),
            Token::WhiteSpace(' '),
            Token::Number("2".to_string()),
            Token::CloseParenthesis,
            Token::WhiteSpace(' '),
            Token::Operator("*".to_string()),
            Token::WhiteSpace(' '),
            Token::Number("3".to_string()),
            Token::WhiteSpace(' '),
            Token::Operator("/".to_string()),
            Token::WhiteSpace(' '),
            Token::Number("4".to_string())
        ]
    );
}

#[test]
fn test_display() {
    let mut lexer = Lexer::new("-1.1 + x");
    assert_eq!(lexer.describe(), "expression: \"-1.1 + x\", position: 0");
    lexer.next();
    assert_eq!(lexer.describe(), "expression: \"-1.1 + x\", position: 1");
    lexer.next();
    assert_eq!(lexer.describe(), "expression: \"-1.1 + x\", position: 4");
}

#[test]
fn test_tokenize_power_and_invalid() {
    let tokens = collect_tokens(Lexer::new("x ** 2"));
    assert_eq!(
        tokens,
        [
            Token::Identifier("x".to_string()),
            Token::WhiteSpace(' '),
            Token::Operator("**".to_string()),
            Token::WhiteSpace(' '),
            Token::Number("2".to_string()),
        ]
    );
    // a dangling dot makes the whole run an invalid lexeme
    let tokens = collect_tokens(Lexer::new("1.x"));
    assert_eq!(
        tokens,
        [Token::Other("1.".to_string()), Token::Identifier("x".to_string())]
    );
    // a comma is a one-character `Other` token
    let tokens = collect_tokens(Lexer::new("log(2,8)"));
    assert_eq!(
        tokens,
        [
            Token::Identifier("log".to_string()),
            Token::OpenParenthesis,
            Token::Number("2".to_string()),
            Token::Other(",".to_string()),
            Token::Number("8".to_string()),
            Token::CloseParenthesis,
        ]
    );
}

#[test]
fn test_token_predicates() {
    assert!(Token::WhiteSpace(' ').is_whitespace());
    assert!(Token::Eof.is_eof());
    assert!(Token::Operator("+".to_string()).is_operator());
    assert!(Token::OpenParenthesis.is_open_parenthesis());
    assert!(Token::CloseParenthesis.is_close_parenthesis());
    assert!(Token::Other(",".to_string()).is_comma());
    assert!(!Token::Other("!".to_string()).is_comma());
    assert_eq!(Token::Operator("+".to_string()).precedence(), Some(10));
    assert_eq!(Token::Operator("-".to_string()).precedence(), Some(10));
    assert_eq!(Token::Operator("*".to_string()).precedence(), Some(20));
    assert_eq!(Token::Operator("/".to_string()).precedence(), Some(20));
    assert_eq!(Token::Operator("**".to_string()).precedence(), Some(30));
    assert_eq!(Token::Operator("%".to_string()).precedence(), None);
    assert_eq!(Token::Number("1".to_string()).precedence(), None);
}

#[test]
fn test_lexer_exhaustion() {
    let mut lexer = Lexer::new("x");
    assert_eq!(lexer.next(), Some(Token::Identifier("x".to_string())));
    assert_eq!(lexer.next(), None);
    assert_eq!(lexer.next(), None);
}
