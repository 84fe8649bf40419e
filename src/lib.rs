//! Parsing of commit messages that follow the Conventional Commits convention:
//! `type(scope)!: description`, an optional body and optional trailers.
//!
//! Text is split into positioned tokens by [`lexer::Lexer`], and the recursive-descent
//! functions of [`parser`] turn them into a [`parser::CommitMessage`] tree whose symbols keep
//! their delimiters apart from their values.
use std::rc::Rc;
use vstd::prelude::*;

pub mod errors;
pub mod grammar;
pub mod laws;
pub mod lexer;
pub mod parser;
pub mod rules;
pub mod slicable_rc_string;
pub mod symbol;
pub mod text_case;
pub mod token;
pub mod token_stream;

use crate::errors::SyntaxError;
use crate::grammar::message_spec;
use crate::lexer::{lexes, Lexer};
use crate::parser::{fails_as, lemma_parsed_well_formed, message_matches, CommitMessage, Parser};
use crate::token::Token;

verus! {

/// `r` is what parsing the text `text` gives: the grammar's verdict on its tokens.
pub open spec fn parses_to(text: Seq<char>, r: Result<CommitMessage, SyntaxError>) -> bool {
    exists|ts: Seq<Token>|
        #![trigger lexes(text, ts)]
        lexes(text, ts) && match message_spec(ts) {
            Ok(l) => r matches Ok(m) && message_matches(m, ts, l),
            Err(f) => r matches Err(e) && fails_as(e, f, ts),
        }
}

/// Lexes and parses commit messages.
pub struct CommitMessageParser {
    lexer: Lexer,
}

impl CommitMessageParser {
    pub fn new() -> (r: Self) {
        CommitMessageParser { lexer: Lexer::new() }
    }

    /// Parses one commit message.
    pub fn process(&mut self, commit_message: String) -> (r: Result<CommitMessage, SyntaxError>)
        ensures
            parses_to(commit_message@, r),
            r matches Ok(m) ==> m.well_formed() && m.of_text(commit_message@),
    {
        let ghost text = commit_message@;
        let message = Rc::new(commit_message);
        let tokens = self.lexer.process(&message);
        let ghost ts = tokens@;
        let parsed = Parser::process(tokens);
        proof {
            if message_spec(ts) is Ok {
                let l = message_spec(ts)->Ok_0;
                lemma_parsed_well_formed(text, ts, l, parsed->Ok_0);
            }
            assert(lexes(text, ts));
        }
        parsed
    }
}

/// Parses one commit message.
pub fn parse(commit_message: String) -> (r: Result<CommitMessage, SyntaxError>)
    ensures
        parses_to(commit_message@, r),
        r matches Ok(m) ==> m.well_formed() && m.of_text(commit_message@),
{
    let mut parser = CommitMessageParser::new();
    parser.process(commit_message)
}

} // verus!
