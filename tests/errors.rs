use rcommitlint::errors::{decimal_string, SyntaxError, UnexpectedEndOfFileError, UnexpectedTokenError};
use rcommitlint::lexer::Lexer;
use rcommitlint::token::Token;
use std::rc::Rc;

fn lex(text: &str) -> Vec<Token> {
    Lexer::new().process(&Rc::new(text.to_string()))
}

#[test]
fn should_parse_error_correctly() {
    let token = lex("test").pop().unwrap();
    let error = SyntaxError::UnexpectedToken(token, "':'".to_string());
    assert_eq!(
        error.to_string(),
        "Syntax error: Unexpected token 'test' at index 0. Expected ':'."
    );
}

#[test]
fn should_parse_error_index_correctly() {
    let token = lex("test:value");
    let error = SyntaxError::UnexpectedToken(token[2].clone(), "a space".to_string());
    assert_eq!(
        error.to_string(),
        "Syntax error: Unexpected token 'value' at index 5. Expected a space."
    );
}

#[test]
fn should_display_newline_char_correctly() {
    let token = lex("test");
    let error = SyntaxError::UnexpectedToken(token[0].clone(), "'\n'".to_string());
    assert_eq!(
        error.to_string(),
        "Syntax error: Unexpected token 'test' at index 0. Expected '\n'."
    );
}

#[test]
fn should_return_error_message() {
    let token = lex("test").pop().unwrap();
    let error = UnexpectedTokenError::new(token);
    assert_eq!(error.to_string(), "Unexpected token at index 0".to_string());
}

#[test]
fn end_of_file_error_message() {
    assert_eq!(
        SyntaxError::UnexpectedEndOfFile.to_string(),
        "Syntax error: Unexpected end of file."
    );
    let token = lex("feat").pop().unwrap();
    assert_eq!(
        UnexpectedEndOfFileError::new(token).to_string(),
        "Unexpected end of file after 'feat'"
    );
}

#[test]
fn expected_descriptions() {
    let t = lex("x").pop().unwrap();
    let cases = vec![
        (SyntaxError::expected_newline(t.clone()), "'\n'"),
        (SyntaxError::expected_string(t.clone()), "a string"),
        (SyntaxError::expected_colon(t.clone()), "':'"),
        (SyntaxError::expected_space(t.clone()), "a space"),
        (SyntaxError::expected_parent_open(t.clone()), "'('"),
        (SyntaxError::expected_parent_close(t.clone()), "')'"),
        (SyntaxError::no_newline_before_body(t.clone()), "No newline before body"),
    ];
    for (e, x) in cases {
        match e {
            SyntaxError::UnexpectedToken(tok, s) => {
                assert_eq!(s, x);
                assert_eq!(tok.get_value(), "x");
            }
            SyntaxError::UnexpectedEndOfFile => panic!("wrong variant"),
        }
    }
}

#[test]
fn error_index_beyond_nine() {
    let tokens = lex("0123456789ab:cd");
    let error = SyntaxError::expected_space(tokens[2].clone());
    assert_eq!(
        error.to_string(),
        "Syntax error: Unexpected token 'cd' at index 13. Expected a space."
    );
}

#[test]
fn decimal_digits() {
    assert_eq!(decimal_string(0), "0");
    assert_eq!(decimal_string(7), "7");
    assert_eq!(decimal_string(10), "10");
    assert_eq!(decimal_string(4096), "4096");
    assert_eq!(decimal_string(usize::MAX), usize::MAX.to_string());
}
