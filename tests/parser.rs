use rcommitlint::errors::SyntaxError;
use rcommitlint::lexer::Lexer;
use rcommitlint::parser::{
    has_double_newline, has_footer_start, parse_body, parse_description, parse_footers,
    parse_scope, parse_start_delimiter, parse_topic, take_until_newline_cond, Breakout,
    CommitMessage, Parser,
};
use rcommitlint::slicable_rc_string::SlicableRcString;
use rcommitlint::symbol::Symbol;
use rcommitlint::token::Token;
use rcommitlint::token_stream::TokenStream;
use rcommitlint::{parse, CommitMessageParser};
use std::rc::Rc;

fn lex(text: &str) -> Vec<Token> {
    Lexer::new().process(&Rc::new(text.to_string()))
}

fn stream(text: &str) -> TokenStream {
    TokenStream::new(lex(text))
}

fn check_part(part: &Option<Symbol>, expected: Option<(&str, &str)>) {
    match (part, expected) {
        (Some(s), Some((content, full))) => {
            assert_eq!(s.content_string(), content);
            assert_eq!(s.full_string(), full);
        }
        (None, None) => {}
        _ => panic!("part and expected value should both be present or absent"),
    }
}

fn check_footers(footers: &Option<Vec<Symbol>>, expected: Option<Vec<&str>>) {
    match (footers, expected) {
        (Some(fs), Some(xs)) => {
            assert_eq!(fs.len(), xs.len());
            for (f, x) in fs.iter().zip(xs) {
                assert_eq!(f.content_string(), x);
                assert_eq!(f.full_string(), x);
            }
        }
        (None, None) => {}
        _ => panic!("footers should both be present or absent"),
    }
}

fn error_of(r: Result<CommitMessage, SyntaxError>) -> SyntaxError {
    match r {
        Ok(_) => panic!("expected a syntax error"),
        Err(e) => e,
    }
}

#[test]
fn parser_should_parse_simple_message() {
    let tokens = lex("feat(api): added a new endpoint for users");
    let parsed = Parser::process(tokens).unwrap();
    assert!(matches!(parsed.topic, Some(Symbol::Topic { .. })));
    assert!(matches!(parsed.scope, Some(Symbol::Scope { .. })));
    assert!(matches!(parsed.description, Some(Symbol::Description { .. })));
    check_part(&parsed.topic, Some(("feat", "feat")));
    check_part(&parsed.scope, Some(("api", "(api)")));
    check_part(
        &parsed.description,
        Some((
            "added a new endpoint for users",
            ": added a new endpoint for users",
        )),
    );
    check_part(&parsed.body, None);
    check_footers(&parsed.footers, None);
}

#[test]
fn parser_should_parse_message_with_body_and_footer() {
    let tokens = lex(
        "feat(api): added a new endpoint for users\n\nthis is the body of the commit message\ntest: this is a footer",
    );
    let parsed = Parser::process(tokens).unwrap();
    check_part(&parsed.topic, Some(("feat", "feat")));
    check_part(&parsed.scope, Some(("api", "(api)")));
    check_part(
        &parsed.description,
        Some((
            "added a new endpoint for users",
            ": added a new endpoint for users",
        )),
    );
    check_part(
        &parsed.body,
        Some((
            "this is the body of the commit message\n",
            "\n\nthis is the body of the commit message\n",
        )),
    );
    check_footers(&parsed.footers, Some(vec!["test: this is a footer"]));
}

#[test]
fn parser_should_parse_message_with_a_lot_of_stuff() {
    let text = "feat(api)!: added a new endpoint for users\n\nthis is the body of the commit message\n\n\n\nthis is the second line of the body\ntest: this is a footer\ntest2: this is another footer\ntest3 #test this is yet another footer\ntest4 #test footer with a newline\nthis is still part of the last footer";
    let parsed = Parser::process(lex(text)).unwrap();
    check_part(&parsed.topic, Some(("feat", "feat")));
    check_part(&parsed.scope, Some(("api", "(api)")));
    check_part(
        &parsed.description,
        Some((
            "added a new endpoint for users",
            "!: added a new endpoint for users",
        )),
    );
    check_part(
        &parsed.body,
        Some((
            "this is the body of the commit message\n\n\n\nthis is the second line of the body\n",
            "\n\nthis is the body of the commit message\n\n\n\nthis is the second line of the body\n",
        )),
    );
    check_footers(
        &parsed.footers,
        Some(vec![
            "test: this is a footer\n",
            "test2: this is another footer\n",
            "test3 #test this is yet another footer\n",
            "test4 #test footer with a newline\nthis is still part of the last footer",
        ]),
    );
}

#[test]
fn parse_topic_should_parse_type() {
    let mut tokens = stream("feat");
    let symbol = parse_topic(&mut tokens).unwrap();
    assert!(matches!(symbol, Symbol::Topic { .. }));
    assert_eq!(symbol.content_length(), 4);
    assert_eq!(symbol.full_string(), "feat");
}

#[test]
fn parse_topic_should_return_error() {
    let mut tokens = stream(":");
    let res = parse_topic(&mut tokens);
    assert!(matches!(res, Err(SyntaxError::UnexpectedToken(..))));
    assert_eq!(
        res.err().unwrap().to_string(),
        "Syntax error: Unexpected token ':' at index 0. Expected a string."
    )
}

#[test]
fn should_parse_scope_with_word() {
    let mut tokens = stream("(scope)");
    let symbol = parse_scope(&mut tokens).unwrap().unwrap();
    assert!(matches!(symbol, Symbol::Scope { .. }));
    assert_eq!(symbol.content_length(), 5);
    assert_eq!(symbol.total_length(), 7);
    assert_eq!(symbol.full_string(), "(scope)");
    assert_eq!(symbol.content_string(), "scope");
    assert_eq!(symbol.start_delimiter(), Some("(".to_string()));
    assert_eq!(symbol.end_delimiter(), Some(")".to_string()));
    assert_eq!(
        symbol.delimiters(),
        Some((Some("(".to_string()), Some(")".to_string())))
    );
    assert_eq!(symbol.start_i(), 0);
    assert_eq!(symbol.end_i(), 6);
}

#[test]
fn parse_description_should_parse_description() {
    let mut tokens = stream(": description is this\n\n");
    let symbol = parse_description(&mut tokens).unwrap();
    match &symbol {
        Symbol::Description {
            start_delimiter,
            text_tokens,
            breaking_change_token: _,
        } => {
            assert_eq!(start_delimiter.len(), 1);
            assert_eq!(text_tokens.len(), 5);
            assert_eq!(symbol.full_string(), ": description is this");
            assert_eq!(symbol.content_string(), "description is this");
        }
        _ => panic!("not a description"),
    }
}

#[test]
fn parse_description_should_parse_description_with_bang() {
    let mut tokens = stream("!: description is this");
    let symbol = parse_description(&mut tokens).unwrap();
    assert_eq!(symbol.full_string(), "!: description is this");
    assert_eq!(symbol.start_delimiter(), Some("!: ".to_string()));
}

#[test]
fn parse_body_should_parse_body() {
    let mut tokens = stream("\n\nthis is a body\n\n");
    let symbol = parse_body(&mut tokens).unwrap().unwrap();
    match &symbol {
        Symbol::Body {
            start_delimiter,
            text_tokens: _,
        } => {
            assert_eq!(start_delimiter.len(), 1);
            assert_eq!(symbol.full_string(), "\n\nthis is a body\n\n", "symbol.full_string()");
            assert_eq!(symbol.content_string(), "this is a body\n\n", "symbol.no_delims_string()");
        }
        _ => panic!("Invalid symbol type"),
    }
}

#[test]
fn parse_body_should_parse_multi_line_body() {
    let mut tokens = stream("\n\nthis is a body\n with multiple lines\n\n yupyup");
    let symbol = parse_body(&mut tokens).unwrap().unwrap();
    let expected_str = "\n\nthis is a body\n with multiple lines\n\n yupyup".to_string();
    assert_eq!(symbol.full_string(), expected_str);
}

#[test]
fn parse_body_should_leave_footer_alone() {
    let mut tokens = stream("\n\nthis is a body\ntest: this is a footer\n");
    let symbol = parse_body(&mut tokens).unwrap().unwrap();
    let mut left: Vec<Token> = Vec::new();
    while let Some(t) = tokens.next() {
        left.push(t);
    }
    assert!(left.len() > 0);
    assert_eq!(left.len(), 10);
    assert_eq!(symbol.content_string(), "this is a body\n");
    assert_eq!(symbol.full_string(), "\n\nthis is a body\n");
    let left_str = left.iter().map(|t| t.get_value()).collect::<String>();
    assert_eq!(left_str, "test: this is a footer\n");
}

#[test]
fn should_parse_single_footer() {
    let mut tokens = stream("footer: this");
    let symbol = parse_footers(&mut tokens).unwrap().unwrap().pop().unwrap();
    assert!(matches!(symbol, Symbol::Footer { .. }));
    assert_eq!(symbol.content_string(), "footer: this");
}

#[test]
fn should_parse_multiple_footers() {
    let mut tokens = stream("footer: this\nanother-footer #12");
    let symbols = parse_footers(&mut tokens).unwrap().unwrap();
    assert_eq!(symbols.len(), 2);
    assert!(matches!(symbols[0], Symbol::Footer { .. }));
    assert!(matches!(symbols[1], Symbol::Footer { .. }));
    assert_eq!(symbols[0].content_string(), "footer: this\n");
    assert_eq!(symbols[1].content_string(), "another-footer #12");
}

#[test]
fn scenario_simple_header() {
    let m = parse("feat: add new feature".to_string()).unwrap();
    assert_eq!(m.topic.as_ref().unwrap().content_string(), "feat");
    assert_eq!(m.description.as_ref().unwrap().content_string(), "add new feature");
    assert!(m.scope.is_none());
    assert!(m.body.is_none());
    assert!(m.footers.is_none());
}

#[test]
fn scenario_scope() {
    let m = parse("feat(api): add endpoint".to_string()).unwrap();
    let scope = m.scope.unwrap();
    assert_eq!(scope.content_string(), "api");
    assert_eq!(scope.full_string(), "(api)");
}

#[test]
fn scenario_breaking_change() {
    let m = parse("feat!: breaking change".to_string()).unwrap();
    let d = m.description.unwrap();
    match &d {
        Symbol::Description {
            breaking_change_token,
            ..
        } => assert!(breaking_change_token.is_some()),
        _ => panic!("not a description"),
    }
    assert_eq!(d.full_string(), "!: breaking change");
}

#[test]
fn scenario_body_and_footer() {
    let m = parse("fix: bug\n\nBody text here\n\nfooter: value".to_string()).unwrap();
    assert_eq!(m.body.unwrap().content_string(), "Body text here\n\n");
    let footers = m.footers.unwrap();
    assert_eq!(footers.len(), 1);
    assert_eq!(footers[0].content_string(), "footer: value");
}

#[test]
fn scenario_missing_colon() {
    let e = error_of(parse("feat add".to_string()));
    match e {
        SyntaxError::UnexpectedToken(t, expected) => {
            assert_eq!(expected, "':'");
            assert_eq!(t.get_start_index(), 4);
            assert_eq!(t.get_value(), " ");
        }
        _ => panic!("expected an unexpected token"),
    }
}

#[test]
fn scenario_two_footers() {
    let m = parse("feat: x\n\nbody\nfirst: one\nsecond: two".to_string()).unwrap();
    let footers = m.footers.unwrap();
    assert_eq!(footers.len(), 2);
    assert_eq!(footers[0].start_delimiter(), Some("first: ".to_string()));
    assert_eq!(footers[0].full_string(), "first: one\n");
    assert_eq!(footers[1].full_string(), "second: two");
    match &footers[1] {
        Symbol::Footer {
            start_delimiter, ..
        } => {
            let key: String = start_delimiter.iter().map(|t| t.get_value()).collect();
            assert_eq!(key, "second: ");
        }
        _ => panic!("not a footer"),
    }
}

#[test]
fn delimiters_are_left_out_of_content() {
    let m = parse("feat(core)!: do it\n\nsome body".to_string()).unwrap();
    let s = m.scope.unwrap();
    assert_eq!(s.full_string(), format!("({})", s.content_string()));
    let d = m.description.unwrap();
    assert_eq!(d.full_string(), format!("!: {}", d.content_string()));
    let b = m.body.unwrap();
    assert_eq!(b.full_string(), format!("\n\n{}", b.content_string()));
    assert_eq!(b.start_delimiter(), Some("\n\n".to_string()));
}

#[test]
fn full_strings_are_source_slices() {
    let text = "fix(ui)!: stop it\n\nline one\nline two\n\nRefs #42\nSee: x";
    let m = parse(text.to_string()).unwrap();
    let mut parts: Vec<Symbol> = vec![
        m.topic.unwrap(),
        m.scope.unwrap(),
        m.description.unwrap(),
        m.body.unwrap(),
    ];
    parts.extend(m.footers.unwrap());
    let mut joined = String::new();
    for p in &parts {
        let start = p.start_i();
        let end = p.end_i();
        assert_eq!(p.full_string(), &text[start..=end]);
        joined.push_str(&p.full_string());
    }
    assert_eq!(joined, text);
}

#[test]
fn error_cases() {
    assert!(matches!(
        error_of(parse(String::new())),
        SyntaxError::UnexpectedEndOfFile
    ));
    assert!(matches!(
        error_of(parse("feat".to_string())),
        SyntaxError::UnexpectedEndOfFile
    ));
    assert!(matches!(
        error_of(parse("feat: ".to_string())),
        SyntaxError::UnexpectedEndOfFile
    ));
    assert_eq!(
        error_of(parse("feat:add".to_string())).to_string(),
        "Syntax error: Unexpected token 'add' at index 5. Expected a space."
    );
    assert_eq!(
        error_of(parse("feat(api x): y".to_string())).to_string(),
        "Syntax error: Unexpected token ' ' at index 8. Expected ')'."
    );
    assert_eq!(
        error_of(parse("feat(: y".to_string())).to_string(),
        "Syntax error: Unexpected token ': ' at index 5. Expected a string."
    );
    assert_eq!(
        error_of(parse("feat: x\nbody".to_string())).to_string(),
        "Syntax error: Unexpected token '\n' at index 7. Expected No newline before body."
    );
    assert_eq!(
        error_of(parse("feat: x\n\nbody\nkey: v\n\nmore".to_string())).to_string(),
        "Syntax error: Unexpected token '\n\n' at index 20. Expected a string."
    );
    assert_eq!(
        error_of(parse("feat: x\n\nbody\nkey:v".to_string())).to_string(),
        "Syntax error: Unexpected token 'v' at index 18. Expected a space."
    );
}

#[test]
fn body_only_and_empty_body() {
    let m = parse("docs: readme\n\n".to_string()).unwrap();
    let b = m.body.unwrap();
    assert_eq!(b.content_string(), "");
    assert_eq!(b.full_string(), "\n\n");
    assert_eq!(b.content_length(), 0);
    assert!(m.footers.is_none());
}

#[test]
fn message_strings() {
    let mut p = CommitMessageParser::new();
    let m = p
        .process("feat(api): add\n\nbody\nkey #1".to_string())
        .unwrap();
    let m2 = parse("feat(api): add\n\nbody\nkey #1".to_string()).unwrap();
    let content = CommitMessage::to_no_delim_strings(m);
    assert_eq!(content.topic.unwrap(), "feat");
    assert_eq!(content.scope.unwrap(), "api");
    assert_eq!(content.description.unwrap(), "add");
    assert_eq!(content.body.unwrap(), "body\n");
    assert_eq!(content.footers.unwrap(), vec!["key #1".to_string()]);
    let full = CommitMessage::to_full_strings(m2);
    assert_eq!(full.scope.unwrap(), "(api)");
    assert_eq!(full.description.unwrap(), ": add");
    assert_eq!(full.body.unwrap(), "\n\nbody\n");
}

#[test]
fn stream_lookahead() {
    let mut s = stream("\n\nkey: v");
    assert!(has_double_newline(&mut s));
    let d = parse_start_delimiter(&mut s).unwrap();
    assert_eq!(d.len(), 1);
    assert!(has_footer_start(&mut s).unwrap());
    let first = s.peek().unwrap();
    let second = s.peek().unwrap();
    assert_eq!(first.get_value(), "key");
    assert_eq!(second.get_value(), ": ");
    s.reset_peek();
    assert_eq!(s.peek().unwrap().get_value(), "key");
    assert_eq!(s.next().unwrap().get_value(), "key");
    assert_eq!(s.peek().unwrap().get_value(), ": ");
    let mut t = stream("one\ntwo\nk: v");
    let taken = take_until_newline_cond(&mut t, Breakout::EndOfBody).unwrap();
    let text: String = taken.iter().map(|t| t.get_value()).collect();
    assert_eq!(text, "one\ntwo\n");
    assert!(parse_start_delimiter(&mut t).is_none());
}

#[test]
fn should_generate_correct_test_strings() {
    let text = "topic(scope): description\n\nthis is a body\nfooter: footer\nfooter #footer\nmulti: line\nfooter";
    let m = parse(text.to_string()).unwrap();
    check_part(&m.topic, Some(("topic", "topic")));
    check_part(&m.scope, Some(("scope", "(scope)")));
    check_part(&m.description, Some(("description", ": description")));
    check_part(&m.body, Some(("this is a body\n", "\n\nthis is a body\n")));
    check_footers(
        &m.footers,
        Some(vec!["footer: footer\n", "footer #footer\n", "multi: line\nfooter"]),
    );
}

#[test]
fn views_compare_by_value() {
    let a = SlicableRcString::new(Rc::new("ab-ab".to_string()));
    let b = SlicableRcString::new(Rc::new("xxab".to_string()));
    assert!(a.substr(0..2) == a.substr(3..5));
    assert!(a.substr(0..2) == b.substr(2..4));
    assert!(a.substr(0..2) != b.substr(1..3));
    assert!(a.substr(0..2) != a.substr(0..3));
}

#[test]
fn footers_absent_consume_nothing() {
    let mut s = stream("just words\nkey: v");
    assert!(parse_footers(&mut s).unwrap().is_none());
    assert_eq!(s.next().unwrap().get_value(), "just");
    let mut e = stream("");
    assert!(parse_footers(&mut e).unwrap().is_none());
    assert!(e.next().is_none());
}

#[test]
fn delimiter_texts_and_no_delims_string() {
    let m = parse("feat(x): y\n\nbody\nRefs #7".to_string()).unwrap();
    let topic = m.topic.unwrap();
    assert_eq!(topic.start_delimiter(), None);
    assert_eq!(topic.delimiters(), None);
    let d = m.description.unwrap();
    assert_eq!(d.no_delims_string(), "y");
    assert_eq!(d.delimiters(), Some((Some(": ".to_string()), None)));
    let f = &m.footers.unwrap()[0];
    assert_eq!(f.start_delimiter(), Some("Refs #".to_string()));
    assert_eq!(f.no_delims_string(), "Refs #7");
    let empty = Symbol::Body {
        start_delimiter: Vec::new(),
        text_tokens: Vec::new(),
    };
    assert_eq!(empty.start_delimiter(), Some(String::new()));
    assert_eq!(empty.delimiters(), Some((Some(String::new()), None)));
}

#[test]
fn take_line_stops_at_line_break() {
    let mut s = stream("a b\nc");
    let line = s.take_line();
    let text: String = line.iter().map(|t| t.get_value()).collect();
    assert_eq!(text, "a b");
    assert_eq!(s.next().unwrap().get_value(), "\n");
    let rest = s.take_line();
    assert_eq!(rest.len(), 1);
    assert_eq!(rest[0].get_value(), "c");
    assert!(s.next().is_none());
    let mut t = stream("\n\nx");
    assert!(t.take_line().is_empty());
    assert_eq!(t.peek().unwrap().get_value(), "\n\n");
}
