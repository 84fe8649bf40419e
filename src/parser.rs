//! Recursive-descent parsing of a token stream, one function per grammar rule.
use vstd::prelude::*;

use crate::errors::{expected_text, is_unexpected, Expected, SyntaxError};
use crate::grammar::{
    body_spec, description_spec, footer_start, footers_spec, lemma_line_end,
    lemma_scan_lines, line_end, message_spec, scan_lines, scope_spec, topic_spec, Failure, Layout,
};
use crate::lexer::{adjacent_ok, lexes, token_ok};
use crate::symbol::{content_text, contiguous, full_text, Symbol};
use crate::token::{Token, TokenType};
use crate::token_stream::TokenStream;

verus! {

/// `e` is the error that `f` describes.
pub open spec fn fails_as(e: SyntaxError, f: Failure, ts: Seq<Token>) -> bool {
    match f {
        Failure::At(i, x) => 0 <= i < ts.len() && is_unexpected(e, ts[i], expected_text(x)),
        Failure::Eof => e is UnexpectedEndOfFile,
    }
}

pub open spec fn topic_at(s: Symbol, ts: Seq<Token>, i: int) -> bool {
    s == (Symbol::Topic { text_token: ts[i] })
}

pub open spec fn scope_at(s: Symbol, ts: Seq<Token>, i: int) -> bool {
    s == (Symbol::Scope { text_token: ts[i + 1], start_delimiter: ts[i], end_delimiter: ts[i + 2] })
}

/// `s` is the description whose `'!'` (if any) is at `p`, whose text runs over `[t, e)`, and
/// whose `": "` is just before `t`.
pub open spec fn description_at(s: Symbol, ts: Seq<Token>, p: int, bang: bool, t: int, e: int) -> bool {
    s matches Symbol::Description { text_tokens, start_delimiter, breaking_change_token }
        && text_tokens@ == ts.subrange(t, e) && start_delimiter@ == seq![ts[t - 1]]
        && breaking_change_token == (if bang {
        Some(ts[p])
    } else {
        None
    })
}

/// `s` is the body whose blank line is at `p` and whose text ends at `e`.
pub open spec fn body_at(s: Symbol, ts: Seq<Token>, p: int, e: int) -> bool {
    s matches Symbol::Body { start_delimiter, text_tokens } && start_delimiter@ == seq![ts[p]]
        && text_tokens@ == ts.subrange(p + 1, e)
}

/// `s` is the trailer that starts at `p` and ends at `e`.
pub open spec fn footer_at(s: Symbol, ts: Seq<Token>, p: int, e: int) -> bool {
    s matches Symbol::Footer { start_delimiter, text_tokens } && start_delimiter@ == ts.subrange(
        p,
        p + 2,
    ) && text_tokens@ == ts.subrange(p + 2, e)
}

/// `r` failed at the end of the input.
pub open spec fn err_eof<T>(r: Result<T, SyntaxError>) -> bool {
    r matches Err(e) && e is UnexpectedEndOfFile
}

/// `r` failed on token `t` where `x` was expected.
pub open spec fn err_at<T>(r: Result<T, SyntaxError>, t: Token, x: Expected) -> bool {
    r matches Err(e) && is_unexpected(e, t, expected_text(x))
}

/// Parses the commit type: a single word.
pub fn parse_topic(tokens: &mut TokenStream) -> (r: Result<Symbol, SyntaxError>)
    ensures
        final(tokens).items() == old(tokens).items(),
        match topic_spec(old(tokens).items(), old(tokens).pos() as int) {
            Ok(p) => r matches Ok(s) && topic_at(s, old(tokens).items(), old(tokens).pos() as int)
                && final(tokens).pos() == p,
            Err(f) => r matches Err(e) && fails_as(e, f, old(tokens).items()),
        },
{
    let current = tokens.next();
    match current {
        Some(t) => {
            if t.token_type() == TokenType::Word {
                Ok(Symbol::Topic { text_token: t })
            } else {
                Err(SyntaxError::expected_string(t))
            }
        },
        None => Err(SyntaxError::UnexpectedEndOfFile),
    }
}

fn take_word(tokens: &mut TokenStream) -> (r: Result<Token, SyntaxError>)
    ensures
        final(tokens).items() == old(tokens).items(),
        old(tokens).pos() >= old(tokens).items().len() ==> err_eof(r),
        old(tokens).pos() < old(tokens).items().len() ==> {
            let t = old(tokens).items()[old(tokens).pos() as int];
            &&& final(tokens).pos() == old(tokens).pos() + 1
            &&& t.kind() == TokenType::Word ==> r == Ok::<Token, SyntaxError>(t)
            &&& t.kind() != TokenType::Word ==> err_at(r, t, Expected::AString)
        },
{
    let current = tokens.next();
    match current {
        Some(t) => {
            if t.token_type() == TokenType::Word {
                Ok(t)
            } else {
                Err(SyntaxError::expected_string(t))
            }
        },
        None => Err(SyntaxError::UnexpectedEndOfFile),
    }
}

fn check_end_delimiter(tokens: &mut TokenStream) -> (r: Result<Token, SyntaxError>)
    ensures
        final(tokens).items() == old(tokens).items(),
        old(tokens).pos() >= old(tokens).items().len() ==> err_eof(r),
        old(tokens).pos() < old(tokens).items().len() ==> {
            let t = old(tokens).items()[old(tokens).pos() as int];
            &&& final(tokens).pos() == old(tokens).pos() + 1
            &&& t.kind() == TokenType::ParenthesisClose ==> r == Ok::<Token, SyntaxError>(t)
            &&& t.kind() != TokenType::ParenthesisClose ==> err_at(r, t, Expected::ParenClose)
        },
{
    let current = tokens.next();
    match current {
        Some(t) => {
            if t.token_type() == TokenType::ParenthesisClose {
                Ok(t)
            } else {
                Err(SyntaxError::expected_parent_close(t))
            }
        },
        None => Err(SyntaxError::UnexpectedEndOfFile),
    }
}

/// Parses the optional `(scope)`. It is absent when a colon or `'!'` follows the topic.
pub fn parse_scope(tokens: &mut TokenStream) -> (r: Result<Option<Symbol>, SyntaxError>)
    ensures
        final(tokens).items() == old(tokens).items(),
        match scope_spec(old(tokens).items(), old(tokens).pos() as int) {
            Ok((present, p)) => r matches Ok(o) && final(tokens).pos() == p && (present ==> (o matches Some(
                s,
            ) && scope_at(s, old(tokens).items(), old(tokens).pos() as int))) && (!present ==> o is None),
            Err(f) => r matches Err(e) && fails_as(e, f, old(tokens).items()),
        },
{
    tokens.reset_peek();
    let current = tokens.peek();
    tokens.reset_peek();
    match current {
        None => Err(SyntaxError::UnexpectedEndOfFile),
        Some(t) => {
            let k = t.token_type();
            if k == TokenType::ParenthesisOpen {
                let open = tokens.next();
                let word = take_word(tokens);
                match word {
                    Err(e) => Err(e),
                    Ok(w) => {
                        let close = check_end_delimiter(tokens);
                        match close {
                            Err(e) => Err(e),
                            Ok(c) => Ok(
                                Some(
                                    Symbol::Scope { text_token: w, start_delimiter: t, end_delimiter: c },
                                ),
                            ),
                        }
                    },
                }
            } else if k == TokenType::Colon || k == TokenType::ColonSpace || k == TokenType::Bang {
                Ok(None)
            } else {
                Err(SyntaxError::expected_colon(t))
            }
        },
    }
}

fn check_bang(tokens: &mut TokenStream) -> (r: Result<Option<Token>, SyntaxError>)
    ensures
        final(tokens).items() == old(tokens).items(),
        old(tokens).pos() >= old(tokens).items().len() ==> err_eof(r),
        old(tokens).pos() < old(tokens).items().len() ==> {
            let t = old(tokens).items()[old(tokens).pos() as int];
            &&& t.kind() == TokenType::Bang ==> r == Ok::<Option<Token>, SyntaxError>(Some(t))
                && final(tokens).pos() == old(tokens).pos() + 1
            &&& t.kind() != TokenType::Bang ==> r == Ok::<Option<Token>, SyntaxError>(None)
                && final(tokens).pos() == old(tokens).pos()
        },
{
    tokens.reset_peek();
    let current = tokens.peek();
    tokens.reset_peek();
    match current {
        Some(t) => {
            if t.token_type() == TokenType::Bang {
                let bang = tokens.next();
                Ok(bang)
            } else {
                Ok(None)
            }
        },
        None => Err(SyntaxError::UnexpectedEndOfFile),
    }
}


fn check_start_delimiter(tokens: &mut TokenStream) -> (r: Result<Vec<Token>, SyntaxError>)
    ensures
        final(tokens).items() == old(tokens).items(),
        ({
            let ts = old(tokens).items();
            let d = old(tokens).pos() as int;
            &&& d >= ts.len() ==> err_eof(r)
            &&& d < ts.len() && ts[d].kind() == TokenType::ColonSpace ==> (r matches Ok(v) && v@
                == seq![ts[d]]) && final(tokens).pos() == d + 1
            &&& d < ts.len() && ts[d].kind() == TokenType::Colon ==> (d + 1 < ts.len() ==> err_at(
                r,
                ts[d + 1],
                Expected::Space,
            )) && (d + 1 >= ts.len() ==> err_eof(r))
            &&& d < ts.len() && ts[d].kind() != TokenType::Colon && ts[d].kind()
                != TokenType::ColonSpace ==> err_at(r, ts[d], Expected::Colon)
        }),
{
    let current = tokens.next();
    match current {
        None => Err(SyntaxError::UnexpectedEndOfFile),
        Some(t) => {
            let k = t.token_type();
            if k == TokenType::ColonSpace {
                let mut v: Vec<Token> = Vec::new();
                v.push(t);
                Ok(v)
            } else if k == TokenType::Colon {
                let next = tokens.next();
                match next {
                    Some(n) => Err(SyntaxError::expected_space(n)),
                    None => Err(SyntaxError::UnexpectedEndOfFile),
                }
            } else {
                Err(SyntaxError::expected_colon(t))
            }
        },
    }
}

/// The description's text: the rest of the line. At the end of the input there is none.
fn take_words(tokens: &mut TokenStream) -> (r: Result<Vec<Token>, SyntaxError>)
    ensures
        final(tokens).items() == old(tokens).items(),
        old(tokens).pos() >= old(tokens).items().len() ==> err_eof(r),
        old(tokens).pos() < old(tokens).items().len() ==> (r matches Ok(v) && v@ == old(
            tokens,
        ).items().subrange(old(tokens).pos() as int, final(tokens).pos() as int))
            && final(tokens).pos() == line_end(old(tokens).items(), old(tokens).pos() as int),
{
    tokens.reset_peek();
    let next = tokens.peek();
    tokens.reset_peek();
    if next.is_none() {
        return Err(SyntaxError::UnexpectedEndOfFile);
    }
    Ok(tokens.take_line())
}

/// Parses the description: an optional `'!'`, then `": "`, then the rest of the line.
pub fn parse_description(tokens: &mut TokenStream) -> (r: Result<Symbol, SyntaxError>)
    ensures
        final(tokens).items() == old(tokens).items(),
        match description_spec(old(tokens).items(), old(tokens).pos() as int) {
            Ok((bang, t, e)) => r matches Ok(s) && description_at(
                s,
                old(tokens).items(),
                old(tokens).pos() as int,
                bang,
                t,
                e,
            ) && final(tokens).pos() == e,
            Err(f) => r matches Err(e) && fails_as(e, f, old(tokens).items()),
        },
{
    tokens.check();
    let breaking_change_token = match check_bang(tokens) {
        Ok(b) => b,
        Err(e) => {
            return Err(e);
        },
    };
    let start_delimiter = match check_start_delimiter(tokens) {
        Ok(d) => d,
        Err(e) => {
            return Err(e);
        },
    };
    let text_tokens = match take_words(tokens) {
        Ok(w) => w,
        Err(e) => {
            return Err(e);
        },
    };
    Ok(Symbol::Description { text_tokens, start_delimiter, breaking_change_token })
}


/// Looks ahead, without consuming, for the start of a trailer: `key: ` followed by anything,
/// or `key #word`. A key followed by a colon without a space is an error.
pub fn has_footer_start(tokens: &mut TokenStream) -> (r: Result<bool, SyntaxError>)
    ensures
        final(tokens).items() == old(tokens).items(),
        final(tokens).pos() == old(tokens).pos(),
        match footer_start(old(tokens).items(), old(tokens).pos() as int) {
            Ok(b) => r == Ok::<bool, SyntaxError>(b),
            Err(f) => r matches Err(e) && fails_as(e, f, old(tokens).items()),
        },
{
    tokens.reset_peek();
    let t0 = tokens.peek();
    let t1 = tokens.peek();
    let t2 = tokens.peek();
    tokens.reset_peek();
    match t0 {
        Some(a) => match t1 {
            Some(b) => match t2 {
                Some(c) => {
                    if a.token_type() == TokenType::Word {
                        let kb = b.token_type();
                        if kb == TokenType::ColonSpace {
                            Ok(true)
                        } else if kb == TokenType::SpaceHash && c.token_type() == TokenType::Word {
                            Ok(true)
                        } else if kb == TokenType::Colon {
                            Err(SyntaxError::expected_space(c))
                        } else {
                            Ok(false)
                        }
                    } else {
                        Ok(false)
                    }
                },
                None => Ok(false),
            },
            None => Ok(false),
        },
        None => Ok(false),
    }
}

/// Which test ends a run of lines.
pub enum Breakout {
    /// A body ends where a trailer starts.
    EndOfBody,
    /// A trailer ends where the next one starts; a blank line inside it is an error.
    EndOfFooter,
}

pub open spec fn in_footer(b: Breakout) -> bool {
    b is EndOfFooter
}

/// Consumes whole lines, line breaks included, until the `breakout` test says that the next
/// line belongs to something else, or the input ends.
pub fn take_until_newline_cond(tokens: &mut TokenStream, breakout: Breakout) -> (r: Result<
    Vec<Token>,
    SyntaxError,
>)
    ensures
        final(tokens).items() == old(tokens).items(),
        match scan_lines(old(tokens).items(), old(tokens).pos() as int, in_footer(breakout)) {
            Ok(e) => (r matches Ok(v) && v@ == old(tokens).items().subrange(
                old(tokens).pos() as int,
                e,
            )) && final(tokens).pos() == e,
            Err(f) => r matches Err(e) && fails_as(e, f, old(tokens).items()),
        },
{
    let ghost ts = tokens.items();
    let ghost start = tokens.pos() as int;
    let ghost fm = in_footer(breakout);
    tokens.check();
    let mut text: Vec<Token> = Vec::new();
    loop
        invariant
            tokens.items() == ts,
            ts == old(tokens).items(),
            start == old(tokens).pos(),
            fm == in_footer(breakout),
            0 <= start <= tokens.pos() <= ts.len(),
            text@ == ts.subrange(start, tokens.pos() as int),
            scan_lines(ts, start, fm) == scan_lines(ts, tokens.pos() as int, fm),
        decreases ts.len() - tokens.pos(),
    {
        let ghost p = tokens.pos() as int;
        proof {
            lemma_line_end(ts, p);
        }
        let line = tokens.take_line();
        let ghost q = tokens.pos() as int;
        let mut line = line;
        text.append(&mut line);
        proof {
            assert(text@ =~= ts.subrange(start, q));
        }
        let newline = tokens.next();
        match newline {
            None => {
                return Ok(text);
            },
            Some(t) => {
                let k = t.token_type();
                if k == TokenType::SectionSeparator {
                    if let Breakout::EndOfFooter = breakout {
                        return Err(SyntaxError::expected_string(t));
                    }
                }
                text.push(t);
                proof {
                    assert(ts.subrange(start, q + 1) =~= ts.subrange(start, q).push(ts[q]));
                }
                tokens.reset_peek();
                let more = tokens.peek();
                tokens.reset_peek();
                if more.is_none() {
                    return Ok(text);
                }
                match has_footer_start(tokens) {
                    Err(e) => {
                        return Err(e);
                    },
                    Ok(true) => {
                        return Ok(text);
                    },
                    Ok(false) => {},
                }
            },
        }
    }
}

/// Whether a blank line comes next.
pub fn has_double_newline(tokens: &mut TokenStream) -> (r: bool)
    ensures
        final(tokens).items() == old(tokens).items(),
        final(tokens).pos() == old(tokens).pos(),
        r == (old(tokens).pos() < old(tokens).items().len() && old(tokens).items()[old(
            tokens,
        ).pos() as int].kind() == TokenType::SectionSeparator),
{
    tokens.reset_peek();
    let next = tokens.peek();
    tokens.reset_peek();
    match next {
        Some(t) => t.token_type() == TokenType::SectionSeparator,
        None => false,
    }
}

/// Consumes the blank line that opens a body, if one comes next.
pub fn parse_start_delimiter(tokens: &mut TokenStream) -> (r: Option<Vec<Token>>)
    ensures
        final(tokens).items() == old(tokens).items(),
        ({
            let ts = old(tokens).items();
            let p = old(tokens).pos() as int;
            if p < ts.len() && ts[p].kind() == TokenType::SectionSeparator {
                (r matches Some(v) && v@ == seq![ts[p]]) && final(tokens).pos() == p + 1
            } else {
                r is None && final(tokens).pos() == p
            }
        }),
{
    if has_double_newline(tokens) {
        let mut v: Vec<Token> = Vec::new();
        match tokens.next() {
            Some(t) => v.push(t),
            None => {},
        }
        Some(v)
    } else {
        None
    }
}

/// Parses the optional body: a blank line, then text up to the first trailer or the end.
pub fn parse_body(tokens: &mut TokenStream) -> (r: Result<Option<Symbol>, SyntaxError>)
    ensures
        final(tokens).items() == old(tokens).items(),
        match body_spec(old(tokens).items(), old(tokens).pos() as int) {
            Ok(None) => r matches Ok(o) && o is None && final(tokens).pos() == old(tokens).pos(),
            Ok(Some(e)) => (r matches Ok(o) && o matches Some(s) && body_at(
                s,
                old(tokens).items(),
                old(tokens).pos() as int,
                e,
            )) && final(tokens).pos() == e,
            Err(f) => r matches Err(e) && fails_as(e, f, old(tokens).items()),
        },
{
    tokens.check();
    let start_delimiter = parse_start_delimiter(tokens);
    match start_delimiter {
        None => {
            tokens.reset_peek();
            let next = tokens.peek();
            tokens.reset_peek();
            match next {
                Some(t) => Err(SyntaxError::no_newline_before_body(t)),
                None => Ok(None),
            }
        },
        Some(d) => {
            match take_until_newline_cond(tokens, Breakout::EndOfBody) {
                Err(e) => Err(e),
                Ok(text_tokens) => Ok(Some(Symbol::Body { start_delimiter: d, text_tokens })),
            }
        },
    }
}

/// Consumes the key and separator of a trailer, if one starts here.
fn parse_key(tokens: &mut TokenStream) -> (r: Result<Option<Vec<Token>>, SyntaxError>)
    ensures
        final(tokens).items() == old(tokens).items(),
        match footer_start(old(tokens).items(), old(tokens).pos() as int) {
            Ok(true) => (r matches Ok(o) && o matches Some(v) && v@ == old(tokens).items().subrange(
                old(tokens).pos() as int,
                old(tokens).pos() + 2int,
            )) && final(tokens).pos() == old(tokens).pos() + 2,
            Ok(false) => (r matches Ok(o) && o is None) && final(tokens).pos() == old(tokens).pos(),
            Err(f) => r matches Err(e) && fails_as(e, f, old(tokens).items()),
        },
{
    let ghost ts = tokens.items();
    let ghost p = tokens.pos() as int;
    match has_footer_start(tokens) {
        Err(e) => Err(e),
        Ok(false) => Ok(None),
        Ok(true) => {
            let mut key: Vec<Token> = Vec::new();
            match tokens.next() {
                Some(t) => key.push(t),
                None => {},
            }
            match tokens.next() {
                Some(t) => key.push(t),
                None => {},
            }
            proof {
                assert(key@ =~= ts.subrange(p, p + 2));
            }
            Ok(Some(key))
        },
    }
}

/// The trailers, in source order, each from the given start to its end.
pub open spec fn footers_from(fs: Seq<Symbol>, ts: Seq<Token>, start: int, ends: Seq<int>) -> bool {
    &&& fs.len() == ends.len()
    &&& forall|i: int| 0 <= i < fs.len() ==> footer_at(#[trigger] fs[i], ts, piece_start(start, ends, i), ends[i])
}

/// Where piece `i` starts, when the first starts at `start` and each next one where the
/// previous ends.
pub open spec fn piece_start(start: int, ends: Seq<int>, i: int) -> int {
    if i == 0 {
        start
    } else {
        ends[i - 1]
    }
}

/// Parses the trailers, one after the other; `None` when there is none.
pub fn parse_footers(tokens: &mut TokenStream) -> (r: Result<Option<Vec<Symbol>>, SyntaxError>)
    ensures
        final(tokens).items() == old(tokens).items(),
        match footers_spec(old(tokens).items(), old(tokens).pos() as int) {
            Ok(ends) => (r matches Ok(o) && (ends.len() == 0 ==> o is None) && (ends.len() > 0 ==> (
            o matches Some(fs) && footers_from(fs@, old(tokens).items(), old(tokens).pos() as int, ends))))
                && final(tokens).pos() == (if ends.len() == 0 {
                old(tokens).pos() as int
            } else {
                ends.last()
            }),
            Err(f) => r matches Err(e) && fails_as(e, f, old(tokens).items()),
        },
{
    let ghost ts = tokens.items();
    let ghost start = tokens.pos() as int;
    let ghost mut ends: Seq<int> = seq![];
    tokens.check();
    let mut footers: Vec<Symbol> = Vec::new();
    loop
        invariant
            tokens.items() == ts,
            ts == old(tokens).items(),
            start == old(tokens).pos(),
            0 <= start <= tokens.pos() <= ts.len(),
            footers_from(footers@, ts, start, ends),
            ends.len() > 0 ==> ends.last() == tokens.pos(),
            ends.len() == 0 ==> tokens.pos() == start,
            footers_spec(ts, start) == match footers_spec(ts, tokens.pos() as int) {
                Ok(rest) => Ok::<Seq<int>, Failure>(ends + rest),
                Err(f) => Err(f),
            },
        ensures
            tokens.items() == ts,
            footers_from(footers@, ts, start, ends),
            footers_spec(ts, start) == Ok::<Seq<int>, Failure>(ends),
            ends.len() > 0 ==> ends.last() == tokens.pos(),
            ends.len() == 0 ==> tokens.pos() == start,
        decreases ts.len() - tokens.pos(),
    {
        let ghost p = tokens.pos() as int;
        let key = match parse_key(tokens) {
            Err(e) => {
                return Err(e);
            },
            Ok(None) => {
                proof {
                    assert(footers_spec(ts, p) == Ok::<Seq<int>, Failure>(seq![]));
                    assert(ends + seq![] =~= ends);
                }
                break ;
            },
            Ok(Some(k)) => k,
        };
        proof {
            lemma_scan_lines(ts, p + 2, true);
        }
        let text_tokens = match take_until_newline_cond(tokens, Breakout::EndOfFooter) {
            Err(e) => {
                return Err(e);
            },
            Ok(t) => t,
        };
        let ghost e = tokens.pos() as int;
        footers.push(Symbol::Footer { start_delimiter: key, text_tokens });
        proof {
            let old_ends = ends;
            ends = ends.push(e);
            assert forall|i: int| 0 <= i < footers@.len() implies footer_at(
                #[trigger] footers@[i],
                ts,
                piece_start(start, ends, i),
                ends[i],
            ) by {
                if i < footers@.len() - 1 {
                    assert(footer_at(footers@[i], ts, piece_start(start, old_ends, i), old_ends[i]));
                }
            }
            match footers_spec(ts, e) {
                Ok(rest) => {
                    assert(old_ends + (seq![e] + rest) =~= ends + rest);
                },
                Err(f) => {},
            }
        }
    }
    if footers.len() == 0 {
        Ok(None)
    } else {
        Ok(Some(footers))
    }
}


/// A parsed commit message.
#[derive(Debug)]
pub struct CommitMessage {
    pub topic: Option<Symbol>,
    pub scope: Option<Symbol>,
    pub description: Option<Symbol>,
    pub body: Option<Symbol>,
    pub footers: Option<Vec<Symbol>>,
}

impl CommitMessage {
    /// Each symbol of the message points into `text`.
    pub open spec fn of_text(&self, text: Seq<char>) -> bool {
        &&& self.topic matches Some(s) ==> s.all()[0].text() == text
        &&& self.scope matches Some(s) ==> s.all()[0].text() == text
        &&& self.description matches Some(s) ==> s.all()[0].text() == text
        &&& self.body matches Some(s) ==> s.all()[0].text() == text
        &&& self.footers matches Some(fs) ==> forall|i: int|
            0 <= i < fs@.len() ==> (#[trigger] fs@[i]).all()[0].text() == text
    }

    /// Each symbol is an unbroken stretch of one text.
    pub open spec fn well_formed(&self) -> bool {
        &&& self.topic matches Some(s) ==> s.well_formed()
        &&& self.scope matches Some(s) ==> s.well_formed()
        &&& self.description matches Some(s) ==> s.well_formed()
        &&& self.body matches Some(s) ==> s.well_formed()
        &&& self.footers matches Some(fs) ==> forall|i: int|
            0 <= i < fs@.len() ==> (#[trigger] fs@[i]).well_formed()
    }
}

/// A run of tokens of a lexed text is an unbroken stretch of that text.
pub proof fn lemma_run_contiguous(text: Seq<char>, ts: Seq<Token>, a: int, b: int)
    requires
        lexes(text, ts),
        0 <= a < b <= ts.len(),
    ensures
        contiguous(ts.subrange(a, b)),
{
    let r = ts.subrange(a, b);
    assert forall|i: int| 0 <= i < r.len() implies (#[trigger] r[i]).text() == r[0].text() && r[i].lo()
        < r[i].hi() by {
        assert(token_ok(text, ts[a + i]));
        assert(token_ok(text, ts[a]));
    }
    assert forall|i: int| 0 <= i < r.len() - 1 implies #[trigger] r[i].hi() == r[i + 1].lo() by {
        assert(adjacent_ok(ts, a + i));
    }
}

/// Where the trailers that `footers_spec` finds lie: each starts with two delimiter tokens and
/// ends inside the input.
pub proof fn lemma_footer_pieces(ts: Seq<Token>, p: int, ends: Seq<int>)
    requires
        0 <= p <= ts.len(),
        footers_spec(ts, p) == Ok::<Seq<int>, Failure>(ends),
    ensures
        forall|i: int| 0 <= i < ends.len() ==> #[trigger] piece_ok(ts, p, ends, i),
    decreases ts.len() - p,
{
    if footer_start(ts, p) == Ok::<bool, Failure>(true) {
        lemma_scan_lines(ts, p + 2, true);
        let e = scan_lines(ts, p + 2, true)->Ok_0;
        let rest = footers_spec(ts, e)->Ok_0;
        lemma_footer_pieces(ts, e, rest);
        assert(ends == seq![e] + rest);
        assert forall|i: int| 0 <= i < ends.len() implies #[trigger] piece_ok(ts, p, ends, i) by {
            if i > 0 {
                assert(piece_ok(ts, e, rest, i - 1));
                assert(ends[i] == rest[i - 1]);
                assert(piece_start(p, ends, i) == piece_start(e, rest, i - 1));
            }
        }
    } else {
        assert(footer_start(ts, p) == Ok::<bool, Failure>(false));
        assert(ends.len() == 0);
    }
}

/// Piece `i` starts at or after `p`, with two delimiter tokens, and ends inside the input.
pub open spec fn piece_ok(ts: Seq<Token>, p: int, ends: Seq<int>, i: int) -> bool {
    &&& p <= piece_start(p, ends, i)
    &&& piece_start(p, ends, i) + 2 < ts.len()
    &&& piece_start(p, ends, i) + 2 <= ends[i]
    &&& ends[i] <= ts.len()
}

/// Every symbol of a message parsed from a lexed text is an unbroken stretch of that text.
pub proof fn lemma_parsed_well_formed(text: Seq<char>, ts: Seq<Token>, l: Layout, m: CommitMessage)
    requires
        lexes(text, ts),
        message_spec(ts) == Ok::<Layout, Failure>(l),
        message_matches(m, ts, l),
    ensures
        m.well_formed(),
        m.of_text(text),
{
    let n = ts.len() as int;
    let p2 = after_scope(l);
    assert(topic_spec(ts, 0) == Ok::<int, Failure>(1));
    assert(scope_spec(ts, 1) == Ok::<(bool, int), Failure>((l.scope, p2)));
    let (bang, t, e) = description_spec(ts, p2)->Ok_0;
    lemma_line_end(ts, t);
    let top = m.topic->Some_0;
    assert(top.all() =~= ts.subrange(0, 1));
    assert(token_ok(text, ts[0]));
    lemma_run_contiguous(text, ts, 0, 1);
    if l.scope {
        let sc = m.scope->Some_0;
        assert(sc.all() =~= ts.subrange(1, 4));
        assert(token_ok(text, ts[1]));
        lemma_run_contiguous(text, ts, 1, 4);
    }
    let d = m.description->Some_0;
    assert(d.all() =~= ts.subrange(p2, e));
    assert(token_ok(text, ts[p2]));
    lemma_run_contiguous(text, ts, p2, e);
    if l.body_end is Some {
        let b = l.body_end->Some_0;
        lemma_scan_lines(ts, e + 1, false);
        let bs = m.body->Some_0;
        assert(bs.all() =~= ts.subrange(e, b));
        assert(token_ok(text, ts[e]));
        lemma_run_contiguous(text, ts, e, b);
        assert(footers_spec(ts, b) == Ok::<Seq<int>, Failure>(l.footer_ends));
        lemma_footer_pieces(ts, b, l.footer_ends);
        if l.footer_ends.len() > 0 {
            let fs = m.footers->Some_0;
            assert forall|i: int| 0 <= i < fs@.len() implies (#[trigger] fs@[i]).well_formed()
                && fs@[i].all()[0].text() == text by {
                let a = piece_start(b, l.footer_ends, i);
                let z = l.footer_ends[i];
                assert(piece_ok(ts, b, l.footer_ends, i));
                assert(footer_at(fs@[i], ts, a, z));
                assert(fs@[i].all() =~= ts.subrange(a, z));
                assert(token_ok(text, ts[a]));
                lemma_run_contiguous(text, ts, a, z);
            }
        }
    }
}

/// The text of each part of a message.
#[derive(Debug)]
pub struct CommitMessageStr {
    pub topic: Option<String>,
    pub scope: Option<String>,
    pub description: Option<String>,
    pub body: Option<String>,
    pub footers: Option<Vec<String>>,
}

/// `r` holds the given text of `o`'s symbol, if it has one.
pub open spec fn text_matches(o: Option<Symbol>, r: Option<String>, full: bool) -> bool {
    match o {
        None => r is None,
        Some(s) => r matches Some(x) && x@ == (if full {
            full_text(s)
        } else {
            content_text(s)
        }),
    }
}

/// `r` holds the given text of each of the symbols.
pub open spec fn texts_match(o: Option<Vec<Symbol>>, r: Option<Vec<String>>, full: bool) -> bool {
    match o {
        None => r is None,
        Some(fs) => r matches Some(xs) && xs@.len() == fs@.len() && forall|i: int|
            0 <= i < fs@.len() ==> (#[trigger] xs@[i])@ == (if full {
                full_text(fs@[i])
            } else {
                content_text(fs@[i])
            }),
    }
}

fn symbol_text(o: &Option<Symbol>, full: bool) -> (r: Option<String>)
    requires
        o matches Some(s) ==> s.well_formed(),
    ensures
        text_matches(*o, r, full),
{
    match o {
        None => None,
        Some(s) => {
            if full {
                Some(s.full_string())
            } else {
                Some(s.content_string())
            }
        },
    }
}

fn symbol_texts(o: &Option<Vec<Symbol>>, full: bool) -> (r: Option<Vec<String>>)
    requires
        o matches Some(fs) ==> forall|i: int| 0 <= i < fs@.len() ==> (#[trigger] fs@[i]).well_formed(),
    ensures
        texts_match(*o, r, full),
{
    match o {
        None => None,
        Some(fs) => {
            let mut xs: Vec<String> = Vec::new();
            let mut i: usize = 0;
            while i < fs.len()
                invariant
                    i <= fs@.len(),
                    xs@.len() == i,
                    forall|j: int| 0 <= j < fs@.len() ==> (#[trigger] fs@[j]).well_formed(),
                    forall|j: int|
                        0 <= j < i ==> (#[trigger] xs@[j])@ == (if full {
                            full_text(fs@[j])
                        } else {
                            content_text(fs@[j])
                        }),
                decreases fs@.len() - i,
            {
                let x = if full {
                    fs[i].full_string()
                } else {
                    fs[i].content_string()
                };
                xs.push(x);
                i = i + 1;
            }
            Some(xs)
        },
    }
}

impl CommitMessage {
    /// The value of each part, without delimiters.
    pub fn to_no_delim_strings(msg: CommitMessage) -> (r: CommitMessageStr)
        requires
            msg.well_formed(),
        ensures
            text_matches(msg.topic, r.topic, false),
            text_matches(msg.scope, r.scope, false),
            text_matches(msg.description, r.description, false),
            text_matches(msg.body, r.body, false),
            texts_match(msg.footers, r.footers, false),
    {
        CommitMessageStr {
            topic: symbol_text(&msg.topic, false),
            scope: symbol_text(&msg.scope, false),
            description: symbol_text(&msg.description, false),
            body: symbol_text(&msg.body, false),
            footers: symbol_texts(&msg.footers, false),
        }
    }

    /// The source text of each part, delimiters included.
    pub fn to_full_strings(msg: CommitMessage) -> (r: CommitMessageStr)
        requires
            msg.well_formed(),
        ensures
            text_matches(msg.topic, r.topic, true),
            text_matches(msg.scope, r.scope, true),
            text_matches(msg.description, r.description, true),
            text_matches(msg.body, r.body, true),
            texts_match(msg.footers, r.footers, true),
    {
        CommitMessageStr {
            topic: symbol_text(&msg.topic, true),
            scope: symbol_text(&msg.scope, true),
            description: symbol_text(&msg.description, true),
            body: symbol_text(&msg.body, true),
            footers: symbol_texts(&msg.footers, true),
        }
    }
}

/// Index of the token after the topic and the optional scope.
pub open spec fn after_scope(l: Layout) -> int {
    if l.scope {
        4
    } else {
        1
    }
}

/// Index just past the body, or past the description when there is no body.
pub open spec fn after_body(l: Layout) -> int {
    match l.body_end {
        Some(b) => b,
        None => l.desc_end,
    }
}

/// `m` holds the symbols that layout `l` gives to tokens `ts`.
pub open spec fn message_matches(m: CommitMessage, ts: Seq<Token>, l: Layout) -> bool {
    &&& m.topic matches Some(t) && topic_at(t, ts, 0)
    &&& l.scope ==> (m.scope matches Some(s) && scope_at(s, ts, 1))
    &&& !l.scope ==> m.scope is None
    &&& m.description matches Some(d) && description_at(
        d,
        ts,
        after_scope(l),
        l.bang,
        l.desc_start,
        l.desc_end,
    )
    &&& l.body_end is None ==> m.body is None
    &&& l.body_end matches Some(b) ==> (m.body matches Some(s) && body_at(s, ts, l.desc_end, b))
    &&& l.footer_ends.len() == 0 ==> m.footers is None
    &&& l.footer_ends.len() > 0 ==> (m.footers matches Some(fs) && footers_from(
        fs@,
        ts,
        after_body(l),
        l.footer_ends,
    ))
}

/// Parses a token sequence.
pub struct Parser {}

impl Parser {
    /// Runs the grammar over `tokens`: topic, scope, description, body, trailers. Stops at the
    /// first syntax error.
    pub fn process(tokens: Vec<Token>) -> (r: Result<CommitMessage, SyntaxError>)
        ensures
            match message_spec(tokens@) {
                Ok(l) => r matches Ok(m) && message_matches(m, tokens@, l),
                Err(f) => r matches Err(e) && fails_as(e, f, tokens@),
            },
    {
        let ghost ts = tokens@;
        let mut stream = TokenStream::new(tokens);
        let topic = match parse_topic(&mut stream) {
            Ok(t) => t,
            Err(e) => {
                return Err(e);
            },
        };
        let scope = match parse_scope(&mut stream) {
            Ok(s) => s,
            Err(e) => {
                return Err(e);
            },
        };
        let description = match parse_description(&mut stream) {
            Ok(d) => d,
            Err(e) => {
                return Err(e);
            },
        };
        let body = match parse_body(&mut stream) {
            Ok(b) => b,
            Err(e) => {
                return Err(e);
            },
        };
        stream.check();
        let ghost e = stream.pos() as int;
        proof {
            if body is None {
                assert(footers_spec(ts, e) == Ok::<Seq<int>, Failure>(seq![]));
            }
        }
        let footers = match parse_footers(&mut stream) {
            Ok(f) => f,
            Err(e) => {
                return Err(e);
            },
        };
        Ok(
            CommitMessage {
                topic: Some(topic),
                scope,
                description: Some(description),
                body,
                footers,
            },
        )
    }
}

} // verus!
