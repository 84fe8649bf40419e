use rcommitlint::lexer::Lexer;
use rcommitlint::slicable_rc_string::SlicableRcString;
use rcommitlint::token::{Token, TokenType};
use std::rc::Rc;

fn lex(text: &str) -> Vec<Token> {
    Lexer::new().process(&Rc::new(text.to_string()))
}

fn kinds(tokens: &[Token]) -> Vec<TokenType> {
    tokens.iter().map(|t| t.token_type()).collect()
}

#[test]
fn lexer_should_return_word_with_correct_indecies() {
    let message = Rc::new("test".to_string());
    let mut lexer = Lexer::new();
    let tokens = lexer.process(&message);

    if let Some(token) = tokens.get(0) {
        match token {
            Token::Word(data) => {
                assert_eq!(data.value(), "test".to_string());
                assert_eq!(data.start_index(), 0);
                assert_eq!(data.end_index(), 4);
                assert_eq!(data.len(), 4);
            }
            _ => {}
        }
    }
}

#[test]
fn lexer_impl_should_return_word_with_correct_indecies() {
    let message = Rc::new("test".to_string());
    let mut lexer = Lexer::new();
    let tokens = lexer.process(&message);

    if let Some(token) = tokens.get(0) {
        match token {
            Token::Word(data) => {
                assert_eq!(data.value(), "test".to_string());
                assert_eq!(data.start_index(), 0);
                assert_eq!(data.end_index(), 4);
                assert_eq!(data.len(), 4);
            }
            _ => {}
        }
    }
}

#[test]
fn lexer_should_tokenize_simple_string() {
    let message = Rc::new("feat: test".to_string());
    let mut lexer = Lexer::new();
    let tokens = lexer.process(&message);
    assert_eq!(tokens.len(), 3);

    match &tokens[1] {
        Token::ColonSpace(d) => assert_eq!(d.value(), ": "),
        _ => {}
    }
}

#[test]
fn should_tokenize_tags() {
    let message = Rc::new("hello-world: #tag\nAnother-tag: Hi there".to_string());
    let mut lexer = Lexer::new();
    let tokens = lexer.process(&message);
    assert_eq!(tokens.len(), 10);

    match &tokens[0] {
        Token::Word(d) => assert_eq!(d.value(), "hello-world"),
        _ => {}
    }

    match &tokens[1] {
        Token::ColonSpace(d) => assert_eq!(d.value(), ": "),
        _ => {}
    }
    match &tokens[6] {
        Token::ColonSpace(d) => assert_eq!(d.value(), ": "),
        _ => {}
    }
}

#[test]
fn should_tokenize_section_separator() {
    let message = Rc::new("feat test\n\n".to_string());
    let mut lexer = Lexer::new();
    let tokens = lexer.process(&message);
    assert_eq!(tokens.len(), 4);

    match &tokens[3] {
        Token::SectionSeparator(d) => assert_eq!(d.value(), "\n\n"),
        _ => {}
    }
}

#[test]
fn should_tokenize_space_hash() {
    let msg = Rc::new("fix #12".to_string());
    let mut lexer = Lexer::new();
    let tokens = lexer.process(&msg);
    assert_eq!(tokens.len(), 3);
    assert_eq!(tokens[1].get_value(), " #");
}

#[test]
fn compound_colon_space_is_one_token() {
    let tokens = lex("a: b");
    assert_eq!(
        kinds(&tokens),
        vec![TokenType::Word, TokenType::ColonSpace, TokenType::Word]
    );
    assert_eq!(tokens[1].get_value(), ": ");
    assert_eq!(tokens[1].get_start_index(), 1);
    assert_eq!(tokens[1].get_length(), 2);
    assert_eq!(tokens[1].get_end_index(), 2);
}

#[test]
fn token_values_concatenate_to_input() {
    for text in [
        "",
        "feat",
        "feat(api)!: add a thing\n\nbody here\n\n\nmore\nkey: v\nref #12",
        " #::  ##\n\n\n(x)",
        "caf\u{e9}: cr\u{e8}me br\u{fb}l\u{e9}e",
    ] {
        let tokens = lex(text);
        let joined: String = tokens.iter().map(|t| t.get_value()).collect();
        assert_eq!(joined, text);
        let mut at = 0;
        for t in &tokens {
            assert_eq!(t.get_start_index(), at);
            at += t.len();
        }
        assert_eq!(at, text.len());
    }
}

#[test]
fn empty_input_has_no_tokens() {
    assert!(lex("").is_empty());
}

#[test]
fn plain_text_is_one_word() {
    let tokens = lex("justoneword");
    assert_eq!(kinds(&tokens), vec![TokenType::Word]);
    assert_eq!(tokens[0].get_value(), "justoneword");
}

#[test]
fn three_newlines_and_colon_space_hash() {
    let tokens = lex("\n\n\n");
    assert_eq!(
        kinds(&tokens),
        vec![TokenType::SectionSeparator, TokenType::NewLine]
    );
    let tokens = lex(": #");
    assert_eq!(kinds(&tokens), vec![TokenType::ColonSpace, TokenType::Hash]);
    let tokens = lex("x!()");
    assert_eq!(
        kinds(&tokens),
        vec![
            TokenType::Word,
            TokenType::Bang,
            TokenType::ParenthesisOpen,
            TokenType::ParenthesisClose
        ]
    );
    assert_eq!(tokens[2].get_variant_name(), "ParenthesisOpen");
    assert_eq!(lex("\n")[0].get_variant_name(), "NewLine");
}

#[test]
fn shared_string_views() {
    let s = SlicableRcString::new(Rc::new("hello world".to_string()));
    assert_eq!(s.len(), 11);
    assert!(!s.is_empty());
    let w = s.substr(6..11);
    assert_eq!(w.value(), "world");
    assert_eq!(w.start_index(), 6);
    assert_eq!(w.end_index(), 11);
    let r = w.substr(1..3);
    assert_eq!(r.value(), "or");
    assert_eq!(r.start_index(), 7);
    let h = r.super_slice(0..5);
    assert_eq!(h.value(), "hello");
    let c = h.clone();
    assert_eq!(c.value(), "hello");
    assert!(s.substr(3..3).is_empty());
    let t = &lex("ab cd")[2];
    assert_eq!(t.get_super_slice(0..2).value(), "ab");
}

#[test]
fn mod_should_return_word_with_correct_indecies() {
    let tokens = lex("test");
    assert_eq!(tokens[0].token_type(), TokenType::Word);
    assert_eq!(tokens[0].get_start_index(), 0);
    assert_eq!(tokens[0].get_end_index(), 3);
    assert_eq!(tokens[0].get_value(), "test");
}

#[test]
fn should_return_token_with_correct_indecies() {
    let tokens = lex("!");
    assert_eq!(tokens[0].token_type(), TokenType::Bang);
    assert_eq!(tokens[0].get_start_index(), 0);
    assert_eq!(tokens[0].get_end_index(), 0);
}

#[test]
fn should_return_spaces_and_word_with_correct_indecies() {
    let tokens = lex("  test");
    assert_eq!(tokens[0].token_type(), TokenType::Space);
    assert_eq!(tokens[1].token_type(), TokenType::Space);
    assert_eq!(tokens[2].token_type(), TokenType::Word);
    assert_eq!(tokens[2].get_start_index(), 2);
    assert_eq!(tokens[2].get_end_index(), 5);
}

#[test]
fn lexing_twice_gives_the_same_tokens() {
    let text = "a: b\n\n\n c #d ::  (e)!";
    let first = lex(text);
    let second = lex(text);
    assert_eq!(first.len(), second.len());
    for (x, y) in first.iter().zip(second.iter()) {
        assert_eq!(x.token_type(), y.token_type());
        assert_eq!(x.get_start_index(), y.get_start_index());
        assert_eq!(x.len(), y.len());
    }
    assert_eq!(
        kinds(&first),
        vec![
            TokenType::Word,
            TokenType::ColonSpace,
            TokenType::Word,
            TokenType::SectionSeparator,
            TokenType::NewLine,
            TokenType::Space,
            TokenType::Word,
            TokenType::SpaceHash,
            TokenType::Word,
            TokenType::Space,
            TokenType::Colon,
            TokenType::ColonSpace,
            TokenType::Space,
            TokenType::ParenthesisOpen,
            TokenType::Word,
            TokenType::ParenthesisClose,
            TokenType::Bang,
        ]
    );
}
