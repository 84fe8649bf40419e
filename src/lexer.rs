//! The lexer: one left-to-right pass that turns a message into tokens.
use std::ops::Range;
use std::rc::Rc;
use vstd::prelude::*;
use vstd::utf8::*;

use crate::slicable_rc_string::{bytes_of, lemma_ascii_byte_boundaries, share, SlicableRcString};
use crate::token::{Token, TokenType, WordDetails};

verus! {

pub const BANG: u8 = 0x21;

pub const COLON: u8 = 0x3a;

pub const HASH: u8 = 0x23;

pub const NEWLINE: u8 = 0x0a;

pub const PAREN_CLOSE: u8 = 0x29;

pub const PAREN_OPEN: u8 = 0x28;

pub const SPACE: u8 = 0x20;

/// The characters that end a word and make tokens of their own.
pub open spec fn is_special(b: u8) -> bool {
    b == BANG || b == COLON || b == HASH || b == NEWLINE || b == PAREN_CLOSE || b == PAREN_OPEN
        || b == SPACE
}

/// The token covers bytes of `b` that its kind allows.
pub open spec fn fits(b: Seq<u8>, t: Token) -> bool {
    let lo = t.lo() as int;
    let hi = t.hi() as int;
    &&& hi <= b.len()
    &&& match t.kind() {
        TokenType::Word => lo < hi && forall|j: int| lo <= j < hi ==> !is_special(#[trigger] b[j]),
        TokenType::Bang => hi == lo + 1 && b[lo] == BANG,
        TokenType::Colon => hi == lo + 1 && b[lo] == COLON,
        TokenType::Hash => hi == lo + 1 && b[lo] == HASH,
        TokenType::NewLine => hi == lo + 1 && b[lo] == NEWLINE,
        TokenType::ParenthesisClose => hi == lo + 1 && b[lo] == PAREN_CLOSE,
        TokenType::ParenthesisOpen => hi == lo + 1 && b[lo] == PAREN_OPEN,
        TokenType::Space => hi == lo + 1 && b[lo] == SPACE,
        TokenType::ColonSpace => hi == lo + 2 && b[lo] == COLON && b[lo + 1] == SPACE,
        TokenType::SpaceHash => hi == lo + 2 && b[lo] == SPACE && b[lo + 1] == HASH,
        TokenType::SectionSeparator => hi == lo + 2 && b[lo] == NEWLINE && b[lo + 1] == NEWLINE,
    }
}

/// Whether token kind `b` may directly follow token kind `a`: words are maximal, and a pair
/// that forms a compound token is never left as two tokens.
pub open spec fn may_follow(a: TokenType, b: TokenType) -> bool {
    &&& !(a == TokenType::Word && b == TokenType::Word)
    &&& !(a == TokenType::Colon && (b == TokenType::Space || b == TokenType::SpaceHash))
    &&& !(a == TokenType::Space && b == TokenType::Hash)
    &&& !(a == TokenType::NewLine && (b == TokenType::NewLine || b == TokenType::SectionSeparator))
}

/// Token `i` of `ts` fits the text and is a token of it.
pub open spec fn token_ok(text: Seq<char>, t: Token) -> bool {
    t.text() == text && fits(bytes_of(text), t)
}

/// Tokens `i` and `i + 1` touch and may stand next to each other.
pub open spec fn adjacent_ok(ts: Seq<Token>, i: int) -> bool {
    ts[i].hi() == ts[i + 1].lo() && may_follow(ts[i].kind(), ts[i + 1].kind())
}

/// `ts` tokenizes the first `upto` bytes of `text`, left to right and without gaps.
pub open spec fn lexes_prefix(text: Seq<char>, ts: Seq<Token>, upto: int) -> bool {
    &&& 0 <= upto <= bytes_of(text).len()
    &&& forall|i: int| 0 <= i < ts.len() ==> #[trigger] token_ok(text, ts[i])
    &&& ts.len() == 0 ==> upto == 0
    &&& ts.len() > 0 ==> ts[0].lo() == 0 && ts.last().hi() == upto
    &&& forall|i: int| 0 <= i < ts.len() - 1 ==> #[trigger] adjacent_ok(ts, i)
}

/// `ts` is the token sequence of `text`.
pub open spec fn lexes(text: Seq<char>, ts: Seq<Token>) -> bool {
    lexes_prefix(text, ts, bytes_of(text).len() as int)
}

/// Turns a commit message into tokens in one pass, merging `": "`, `" #"` and `"\n\n"`.
pub struct Lexer {
    tokens: Vec<Token>,
    word_length: usize,
    message: SlicableRcString,
}

impl Lexer {
    /// The message is the whole shared string and the tokens so far cover its first `upto` bytes.
    spec fn covers(&self, upto: int) -> bool {
        &&& self.message.lo() == 0
        &&& self.message.hi() == bytes_of(self.message.text()).len()
        &&& bytes_of(self.message.text()).len() <= usize::MAX
        &&& lexes_prefix(self.message.text(), self.tokens@, upto)
    }

    /// The pending word `[i - word_length, i)` may be flushed.
    spec fn pending_ok(&self, i: int) -> bool {
        let b = bytes_of(self.message.text());
        &&& self.word_length <= i <= b.len()
        &&& valid_utf8(b)
        &&& is_char_boundary(b, i - self.word_length)
        &&& forall|j: int| i - self.word_length <= j < i ==> !is_special(#[trigger] b[j])
        &&& self.covers(i - self.word_length)
        &&& self.word_length > 0 && self.tokens@.len() > 0 ==> self.tokens@.last().kind()
            != TokenType::Word
    }

    pub fn new() -> (r: Lexer) {
        Lexer {
            tokens: Vec::new(),
            word_length: 0,
            message: SlicableRcString::new(Rc::new(String::from_str("empty"))),
        }
    }

    /// Splits `message` into tokens.
    pub fn process(&mut self, message: &Rc<String>) -> (r: Vec<Token>)
        ensures
            lexes(message@, r@),
    {
        self.message = SlicableRcString::new(share(message));
        self.tokens.clear();
        self.word_length = 0;
        let whole: &str = message.as_str();
        let bytes: &[u8] = whole.as_bytes();
        let ghost b = bytes_of(message@);
        let n: usize = bytes.len();
        proof {
            encode_utf8_valid_utf8(message@);
            is_char_boundary_start_end_of_seq(b);
        }
        let mut i: usize = 0;
        while i < bytes.len()
            invariant
                bytes@ == b,
                b == bytes_of(self.message.text()),
                self.message.text() == message@,
                i <= b.len(),
                self.pending_ok(i as int),
                self.tokens@.len() > 0 ==> self.tokens@.last().kind() != TokenType::Word,
            decreases b.len() - i,
        {
            let c = bytes[i];
            if c == BANG || c == COLON || c == HASH || c == NEWLINE || c == PAREN_CLOSE || c == PAREN_OPEN
                || c == SPACE {
                proof {
                    lemma_ascii_byte_boundaries(b, i as int);
                }
                if c == BANG {
                    self.push_bang(i);
                } else if c == COLON {
                    self.push_colon(i);
                } else if c == HASH {
                    self.handle_hash(i);
                } else if c == NEWLINE {
                    self.handle_newline(i);
                } else if c == PAREN_CLOSE {
                    self.push_parenthesis_close(i);
                } else if c == PAREN_OPEN {
                    self.push_parenthesis_open(i);
                } else {
                    self.handle_space(i);
                }
            } else {
                self.word_length = self.word_length + 1;
            }
            i = i + 1;
        }
        self.push_if_word(bytes.len());
        let mut result: Vec<Token> = Vec::new();
        std::mem::swap(&mut self.tokens, &mut result);
        self.reset();
        result
    }

    /// State before handling the special byte at `index`.
    spec fn before_special(&self, index: int, c: u8) -> bool {
        let b = bytes_of(self.message.text());
        &&& self.pending_ok(index)
        &&& index < b.len()
        &&& b[index] == c
        &&& is_char_boundary(b, index)
        &&& is_char_boundary(b, index + 1)
        &&& self.tokens@.len() > 0 ==> self.tokens@.last().kind() != TokenType::Word
    }

    /// State after handling the special byte at `index`.
    spec fn after_special(&self, old_lexer: Lexer, index: int) -> bool {
        &&& self.message == old_lexer.message
        &&& self.word_length == 0
        &&& self.pending_ok(index + 1)
        &&& self.tokens@.len() > 0
        &&& self.tokens@.last().kind() != TokenType::Word
    }

    fn push_colon(&mut self, index: usize)
        requires
            old(self).before_special(index as int, COLON),
        ensures
            final(self).after_special(*old(self), index as int),
    {
        self.push_if_word(index);
        let t = Token::Colon(self.message.substr(Range { start: index, end: index + 1 }));
        self.push_token(t, index);
    }

    fn push_bang(&mut self, index: usize)
        requires
            old(self).before_special(index as int, BANG),
        ensures
            final(self).after_special(*old(self), index as int),
    {
        self.push_if_word(index);
        let t = Token::Bang(self.message.substr(Range { start: index, end: index + 1 }));
        self.push_token(t, index);
    }

    fn push_parenthesis_close(&mut self, index: usize)
        requires
            old(self).before_special(index as int, PAREN_CLOSE),
        ensures
            final(self).after_special(*old(self), index as int),
    {
        self.push_if_word(index);
        let t = Token::ParenthesisClose(self.message.substr(Range { start: index, end: index + 1 }));
        self.push_token(t, index);
    }

    fn push_parenthesis_open(&mut self, index: usize)
        requires
            old(self).before_special(index as int, PAREN_OPEN),
        ensures
            final(self).after_special(*old(self), index as int),
    {
        self.push_if_word(index);
        let t = Token::ParenthesisOpen(self.message.substr(Range { start: index, end: index + 1 }));
        self.push_token(t, index);
    }

    fn handle_space(&mut self, index: usize)
        requires
            old(self).before_special(index as int, SPACE),
        ensures
            final(self).after_special(*old(self), index as int),
    {
        self.push_if_word(index);
        let n = self.tokens.len();
        if n > 0 && self.tokens[n - 1].token_type() == TokenType::Colon {
            self.merge_last(index, TokenType::ColonSpace);
        } else {
            let t = Token::Space(self.message.substr(Range { start: index, end: index + 1 }));
            self.push_token(t, index);
        }
    }

    fn handle_hash(&mut self, index: usize)
        requires
            old(self).before_special(index as int, HASH),
        ensures
            final(self).after_special(*old(self), index as int),
    {
        self.push_if_word(index);
        let n = self.tokens.len();
        if n > 0 && self.tokens[n - 1].token_type() == TokenType::Space {
            self.merge_last(index, TokenType::SpaceHash);
        } else {
            let t = Token::Hash(self.message.substr(Range { start: index, end: index + 1 }));
            self.push_token(t, index);
        }
    }

    fn handle_newline(&mut self, index: usize)
        requires
            old(self).before_special(index as int, NEWLINE),
        ensures
            final(self).after_special(*old(self), index as int),
    {
        self.push_if_word(index);
        let n = self.tokens.len();
        if n > 0 && self.tokens[n - 1].token_type() == TokenType::NewLine {
            self.merge_last(index, TokenType::SectionSeparator);
        } else {
            let t = Token::Newline(self.message.substr(Range { start: index, end: index + 1 }));
            self.push_token(t, index);
        }
    }

    /// Replaces the last token by the compound token that ends with the byte at `index`.
    fn merge_last(&mut self, index: usize, kind: TokenType)
        requires
            old(self).word_length == 0,
            old(self).covers(index as int),
            old(self).tokens@.len() > 0,
            index < bytes_of(old(self).message.text()).len(),
            is_char_boundary(bytes_of(old(self).message.text()), index + 1),
            kind == TokenType::ColonSpace ==> old(self).tokens@.last().kind() == TokenType::Colon
                && bytes_of(old(self).message.text())[index as int] == SPACE,
            kind == TokenType::SpaceHash ==> old(self).tokens@.last().kind() == TokenType::Space
                && bytes_of(old(self).message.text())[index as int] == HASH,
            kind == TokenType::SectionSeparator ==> old(self).tokens@.last().kind()
                == TokenType::NewLine && bytes_of(old(self).message.text())[index as int]
                == NEWLINE,
            kind == TokenType::ColonSpace || kind == TokenType::SpaceHash || kind
                == TokenType::SectionSeparator,
        ensures
            final(self).message == old(self).message,
            final(self).word_length == 0,
            final(self).covers(index + 1),
            final(self).tokens@.len() > 0,
            final(self).tokens@.last().kind() == kind,
    {
        let ghost old_ts = self.tokens@;
        let ghost text = self.message.text();
        let prev = self.tokens.pop().unwrap();
        let prev_i = prev.get_start_index();
        proof {
            let n = old_ts.len() as int;
            assert(token_ok(text, old_ts[n - 1]));
            if n >= 2 {
                assert(adjacent_ok(old_ts, n - 2));
            }
        }
        let span = self.message.substr(Range { start: prev_i, end: index + 1 });
        let t = if kind == TokenType::ColonSpace {
            Token::ColonSpace(span)
        } else if kind == TokenType::SpaceHash {
            Token::SpaceHash(span)
        } else {
            Token::SectionSeparator(span)
        };
        self.tokens.push(t);
        proof {
            let ts = self.tokens@;
            let n = ts.len() as int;
            assert forall|i: int| 0 <= i < ts.len() implies #[trigger] token_ok(text, ts[i]) by {
                if i < n - 1 {
                    assert(ts[i] == old_ts[i]);
                }
            }
            assert forall|i: int| 0 <= i < ts.len() - 1 implies #[trigger] adjacent_ok(ts, i) by {
                assert(adjacent_ok(old_ts, i));
                if i == n - 2 && n >= 2 {
                    assert(old_ts[n - 1].lo() == prev_i);
                }
            }
        }
    }

    /// Appends a token for the special byte at `index`.
    fn push_token(&mut self, token: Token, index: usize)
        requires
            old(self).word_length == 0,
            old(self).covers(index as int),
            token.text() == old(self).message.text(),
            token.lo() == index,
            fits(bytes_of(old(self).message.text()), token),
            token.kind() != TokenType::Word,
            old(self).tokens@.len() > 0 ==> may_follow(old(self).tokens@.last().kind(), token.kind()),
        ensures
            final(self).message == old(self).message,
            final(self).word_length == 0,
            final(self).covers(token.hi() as int),
            final(self).tokens@ == old(self).tokens@.push(token),
    {
        let ghost old_ts = self.tokens@;
        let ghost text = self.message.text();
        self.tokens.push(token);
        proof {
            let ts = self.tokens@;
            let n = ts.len() as int;
            assert forall|i: int| 0 <= i < ts.len() implies #[trigger] token_ok(text, ts[i]) by {
                if i < n - 1 {
                    assert(ts[i] == old_ts[i]);
                }
            }
            assert forall|i: int| 0 <= i < ts.len() - 1 implies #[trigger] adjacent_ok(ts, i) by {
                if i < n - 2 {
                    assert(adjacent_ok(old_ts, i));
                }
            }
        }
    }

    /// Flushes the pending word, if there is one, as a token ending at `index`.
    fn push_if_word(&mut self, index: usize)
        requires
            old(self).pending_ok(index as int),
            index == bytes_of(old(self).message.text()).len() || (index < bytes_of(
                old(self).message.text(),
            ).len() && is_char_boundary(bytes_of(old(self).message.text()), index as int)),
        ensures
            final(self).message == old(self).message,
            final(self).word_length == 0,
            final(self).covers(index as int),
            old(self).word_length == 0 ==> final(self).tokens@ == old(self).tokens@,
            old(self).word_length > 0 ==> final(self).tokens@.len() > 0
                && final(self).tokens@.last().kind() == TokenType::Word,
    {
        proof {
            is_char_boundary_start_end_of_seq(bytes_of(self.message.text()));
        }
        if self.word_length != 0 {
            self.push_word(index);
        }
    }

    fn push_word(&mut self, end_i: usize)
        requires
            old(self).word_length > 0,
            old(self).pending_ok(end_i as int),
            is_char_boundary(bytes_of(old(self).message.text()), end_i as int),
        ensures
            final(self).message == old(self).message,
            final(self).word_length == 0,
            final(self).covers(end_i as int),
            final(self).tokens@.len() > 0,
            final(self).tokens@.last().kind() == TokenType::Word,
    {
        let ghost old_ts = self.tokens@;
        let ghost text = self.message.text();
        let start_i = end_i - self.word_length;
        let string: SlicableRcString = self.message.substr(Range { start: start_i, end: end_i });
        self.tokens.push(Token::Word(WordDetails::new(string)));
        self.word_length = 0;
        proof {
            let ts = self.tokens@;
            let n = ts.len() as int;
            assert forall|i: int| 0 <= i < ts.len() implies #[trigger] token_ok(text, ts[i]) by {
                if i < n - 1 {
                    assert(ts[i] == old_ts[i]);
                }
            }
            assert forall|i: int| 0 <= i < ts.len() - 1 implies #[trigger] adjacent_ok(ts, i) by {
                if i < n - 2 {
                    assert(adjacent_ok(old_ts, i));
                }
            }
        }
    }

    fn reset(&mut self)
        ensures
            final(self).tokens@.len() == 0,
            final(self).word_length == 0,
    {
        self.tokens.clear();
        self.word_length = 0;
    }
}

} // verus!
