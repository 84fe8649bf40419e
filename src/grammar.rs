//! The commit-message grammar over token sequences, as specification: where each part
//! starts and ends, or which token is the first one out of place.
use vstd::prelude::*;

use crate::errors::Expected;
use crate::token::{Token, TokenType};

verus! {

/// Why a token sequence is not a commit message: an unexpected token at an index, with what
/// was wanted there, or the end of the input.
pub enum Failure {
    At(int, Expected),
    Eof,
}

/// The shape of a parsed message, as token indices.
pub struct Layout {
    /// Whether `(scope)` follows the topic.
    pub scope: bool,
    /// Whether `'!'` precedes the description's `": "`.
    pub bang: bool,
    /// Index of the description's first token, just after `": "`.
    pub desc_start: int,
    /// Index just past the description's last token.
    pub desc_end: int,
    /// Index just past the body's last token, when there is a body.
    pub body_end: Option<int>,
    /// Index just past each footer's last token; each footer starts where the previous one ends.
    pub footer_ends: Seq<int>,
}

pub open spec fn is_line_break(k: TokenType) -> bool {
    k == TokenType::NewLine || k == TokenType::SectionSeparator
}

/// Index of the first line break at or after `p`, or the length when there is none.
pub open spec fn line_end(ts: Seq<Token>, p: int) -> int
    decreases ts.len() - p,
{
    if p < 0 || p >= ts.len() {
        ts.len() as int
    } else if is_line_break(ts[p].kind()) {
        p
    } else {
        line_end(ts, p + 1)
    }
}

pub proof fn lemma_line_end(ts: Seq<Token>, p: int)
    requires
        0 <= p <= ts.len(),
    ensures
        p <= line_end(ts, p) <= ts.len(),
        line_end(ts, p) < ts.len() ==> is_line_break(ts[line_end(ts, p)].kind()),
        forall|j: int| p <= j < line_end(ts, p) ==> !is_line_break(#[trigger] ts[j].kind()),
    decreases ts.len() - p,
{
    if p < ts.len() && !is_line_break(ts[p].kind()) {
        lemma_line_end(ts, p + 1);
    }
}

/// Whether a trailer starts at `p`: `key: value` or `key #word`. A key followed by a colon
/// without a space is an error.
pub open spec fn footer_start(ts: Seq<Token>, p: int) -> Result<bool, Failure> {
    if 0 <= p && p + 2 < ts.len() && ts[p].kind() == TokenType::Word {
        if ts[p + 1].kind() == TokenType::ColonSpace {
            Ok(true)
        } else if ts[p + 1].kind() == TokenType::SpaceHash && ts[p + 2].kind() == TokenType::Word {
            Ok(true)
        } else if ts[p + 1].kind() == TokenType::Colon {
            Err(Failure::At(p + 2, Expected::Space))
        } else {
            Ok(false)
        }
    } else {
        Ok(false)
    }
}

/// Where text that starts at `p` ends: line by line, until a trailer starts on the next line
/// or the input ends. In a trailer (`in_footer`), a blank line is an error.
pub open spec fn scan_lines(ts: Seq<Token>, p: int, in_footer: bool) -> Result<int, Failure>
    decreases ts.len() - p,
    when 0 <= p <= ts.len()
    via scan_lines_decreases
{
    let q = line_end(ts, p);
    if q >= ts.len() {
        Ok(ts.len() as int)
    } else if in_footer && ts[q].kind() == TokenType::SectionSeparator {
        Err(Failure::At(q, Expected::AString))
    } else if q + 1 >= ts.len() {
        Ok(q + 1)
    } else {
        match footer_start(ts, q + 1) {
            Err(f) => Err(f),
            Ok(true) => Ok(q + 1),
            Ok(false) => scan_lines(ts, q + 1, in_footer),
        }
    }
}

#[via_fn]
proof fn scan_lines_decreases(ts: Seq<Token>, p: int, in_footer: bool) {
    lemma_line_end(ts, p);
}

pub proof fn lemma_scan_lines(ts: Seq<Token>, p: int, in_footer: bool)
    requires
        0 <= p <= ts.len(),
    ensures
        scan_lines(ts, p, in_footer) matches Ok(e) ==> p <= e <= ts.len() && (p < ts.len() ==> p < e),
    decreases ts.len() - p,
{
    lemma_line_end(ts, p);
    let q = line_end(ts, p);
    if q < ts.len() && q + 1 < ts.len() {
        lemma_scan_lines(ts, q + 1, in_footer);
    }
}

/// The topic: one word.
pub open spec fn topic_spec(ts: Seq<Token>, p: int) -> Result<int, Failure> {
    if p >= ts.len() {
        Err(Failure::Eof)
    } else if ts[p].kind() == TokenType::Word {
        Ok(p + 1)
    } else {
        Err(Failure::At(p, Expected::AString))
    }
}

/// The optional scope `(word)`, absent when a colon or `'!'` comes next: whether it is there,
/// and where parsing goes on.
pub open spec fn scope_spec(ts: Seq<Token>, p: int) -> Result<(bool, int), Failure> {
    if p >= ts.len() {
        Err(Failure::Eof)
    } else if ts[p].kind() == TokenType::ParenthesisOpen {
        if p + 1 >= ts.len() {
            Err(Failure::Eof)
        } else if ts[p + 1].kind() != TokenType::Word {
            Err(Failure::At(p + 1, Expected::AString))
        } else if p + 2 >= ts.len() {
            Err(Failure::Eof)
        } else if ts[p + 2].kind() != TokenType::ParenthesisClose {
            Err(Failure::At(p + 2, Expected::ParenClose))
        } else {
            Ok((true, p + 3))
        }
    } else if ts[p].kind() == TokenType::Colon || ts[p].kind() == TokenType::ColonSpace
        || ts[p].kind() == TokenType::Bang {
        Ok((false, p))
    } else {
        Err(Failure::At(p, Expected::Colon))
    }
}

/// The description: an optional `'!'`, then `": "`, then the rest of the line. Gives whether
/// the `'!'` is there, the index of the first text token and the index of the line break (or
/// the length).
pub open spec fn description_spec(ts: Seq<Token>, p: int) -> Result<(bool, int, int), Failure> {
    if p < 0 || p >= ts.len() {
        Err(Failure::Eof)
    } else {
        let bang = ts[p].kind() == TokenType::Bang;
        let d = if bang {
            p + 1
        } else {
            p
        };
        if d >= ts.len() {
            Err(Failure::Eof)
        } else if ts[d].kind() == TokenType::Colon {
            if d + 1 < ts.len() {
                Err(Failure::At(d + 1, Expected::Space))
            } else {
                Err(Failure::Eof)
            }
        } else if ts[d].kind() != TokenType::ColonSpace {
            Err(Failure::At(d, Expected::Colon))
        } else if d + 1 >= ts.len() {
            Err(Failure::Eof)
        } else {
            Ok((bang, d + 1, line_end(ts, d + 1)))
        }
    }
}

/// The optional body after a blank line: where it ends, or `None` at the end of the input.
pub open spec fn body_spec(ts: Seq<Token>, p: int) -> Result<Option<int>, Failure> {
    if p < 0 || p >= ts.len() {
        Ok(None)
    } else if ts[p].kind() == TokenType::SectionSeparator {
        match scan_lines(ts, p + 1, false) {
            Ok(e) => Ok(Some(e)),
            Err(f) => Err(f),
        }
    } else {
        Err(Failure::At(p, Expected::BlankLine))
    }
}

/// The trailers from `p` on: where each one ends.
pub open spec fn footers_spec(ts: Seq<Token>, p: int) -> Result<Seq<int>, Failure>
    decreases ts.len() - p,
    when 0 <= p <= ts.len()
    via footers_spec_decreases
{
    match footer_start(ts, p) {
        Err(f) => Err(f),
        Ok(false) => Ok(seq![]),
        Ok(true) => match scan_lines(ts, p + 2, true) {
            Err(f) => Err(f),
            Ok(e) => match footers_spec(ts, e) {
                Err(f) => Err(f),
                Ok(rest) => Ok(seq![e] + rest),
            },
        },
    }
}

#[via_fn]
proof fn footers_spec_decreases(ts: Seq<Token>, p: int) {
    if footer_start(ts, p) matches Ok(true) {
        lemma_scan_lines(ts, p + 2, true);
    }
}

/// The whole grammar, in order: topic, scope, description, body, trailers.
pub open spec fn message_spec(ts: Seq<Token>) -> Result<Layout, Failure> {
    match topic_spec(ts, 0) {
        Err(f) => Err(f),
        Ok(p1) => match scope_spec(ts, p1) {
            Err(f) => Err(f),
            Ok((scope, p2)) => match description_spec(ts, p2) {
                Err(f) => Err(f),
                Ok((bang, t, e)) => match body_spec(ts, e) {
                    Err(f) => Err(f),
                    Ok(body_end) => {
                        let p4 = match body_end {
                            Some(b) => b,
                            None => e,
                        };
                        if body_end is None {
                            Ok(
                                Layout {
                                    scope,
                                    bang,
                                    desc_start: t,
                                    desc_end: e,
                                    body_end,
                                    footer_ends: seq![],
                                },
                            )
                        } else {
                            match footers_spec(ts, p4) {
                                Err(f) => Err(f),
                                Ok(ends) => Ok(
                                    Layout {
                                        scope,
                                        bang,
                                        desc_start: t,
                                        desc_end: e,
                                        body_end,
                                        footer_ends: ends,
                                    },
                                ),
                            }
                        }
                    },
                },
            },
        },
    }
}

} // verus!
