//! Tokens: positioned pieces of the message text.
use std::ops::Range;
use vstd::prelude::*;
use vstd::utf8::*;

use crate::slicable_rc_string::{bytes_of, SlicableRcString};

verus! {

/// The kind of a token: a run of ordinary text, one special character, or a pair of them.
#[derive(Clone, Copy, Debug, PartialEq, Eq, Structural)]
pub enum TokenType {
    Word,
    Bang,
    Colon,
    Hash,
    NewLine,
    ParenthesisClose,
    ParenthesisOpen,
    Space,
    ColonSpace,
    SpaceHash,
    SectionSeparator,
}

/// The text of a `Word` token.
#[derive(Debug)]
pub struct WordDetails {
    text: SlicableRcString,
}

impl WordDetails {
    pub closed spec fn srs(&self) -> SlicableRcString {
        self.text
    }

    pub fn new(value: SlicableRcString) -> (r: WordDetails)
        ensures
            r.srs() == value,
    {
        WordDetails { text: value }
    }

    pub fn value(&self) -> (r: String)
        ensures
            bytes_of(r@) == self.srs().view_bytes(),
            r@ == decode_utf8(self.srs().view_bytes()),
    {
        self.text.value()
    }

    /// Byte offset just past the word.
    pub fn end_index(&self) -> (r: usize)
        ensures
            r == self.srs().hi(),
    {
        self.text.end_index()
    }

    pub fn len(&self) -> (r: usize)
        ensures
            r == self.srs().hi() - self.srs().lo(),
    {
        self.text.len()
    }

    pub fn start_index(&self) -> (r: usize)
        ensures
            r == self.srs().lo(),
    {
        self.text.start_index()
    }
}

/// One lexical unit of a commit message, pointing into the shared message text.
#[derive(Debug)]
pub enum Token {
    Word(WordDetails),
    Bang(SlicableRcString),
    Colon(SlicableRcString),
    Hash(SlicableRcString),
    Newline(SlicableRcString),
    ParenthesisClose(SlicableRcString),
    ParenthesisOpen(SlicableRcString),
    Space(SlicableRcString),
    ColonSpace(SlicableRcString),
    SpaceHash(SlicableRcString),
    SectionSeparator(SlicableRcString),
}

impl Token {
    /// The view of the message text that the token covers.
    pub open spec fn srs(&self) -> SlicableRcString {
        match self {
            Token::Word(d) => d.srs(),
            Token::Bang(v) => *v,
            Token::Colon(v) => *v,
            Token::Hash(v) => *v,
            Token::Newline(v) => *v,
            Token::ParenthesisClose(v) => *v,
            Token::ParenthesisOpen(v) => *v,
            Token::Space(v) => *v,
            Token::ColonSpace(v) => *v,
            Token::SpaceHash(v) => *v,
            Token::SectionSeparator(v) => *v,
        }
    }

    pub open spec fn kind(&self) -> TokenType {
        match self {
            Token::Word(_) => TokenType::Word,
            Token::Bang(_) => TokenType::Bang,
            Token::Colon(_) => TokenType::Colon,
            Token::Hash(_) => TokenType::Hash,
            Token::Newline(_) => TokenType::NewLine,
            Token::ParenthesisClose(_) => TokenType::ParenthesisClose,
            Token::ParenthesisOpen(_) => TokenType::ParenthesisOpen,
            Token::Space(_) => TokenType::Space,
            Token::ColonSpace(_) => TokenType::ColonSpace,
            Token::SpaceHash(_) => TokenType::SpaceHash,
            Token::SectionSeparator(_) => TokenType::SectionSeparator,
        }
    }

    pub open spec fn lo(&self) -> nat {
        self.srs().lo()
    }

    pub open spec fn hi(&self) -> nat {
        self.srs().hi()
    }

    pub open spec fn text(&self) -> Seq<char> {
        self.srs().text()
    }

    /// The bytes of the message that the token covers.
    pub open spec fn bytes(&self) -> Seq<u8> {
        self.srs().view_bytes()
    }

    fn get_srcs_ref(&self) -> (r: &SlicableRcString)
        ensures
            *r == self.srs(),
    {
        match self {
            Token::Word(d) => &d.text,
            Token::Bang(v) => v,
            Token::Colon(v) => v,
            Token::Hash(v) => v,
            Token::Newline(v) => v,
            Token::ParenthesisClose(v) => v,
            Token::ParenthesisOpen(v) => v,
            Token::Space(v) => v,
            Token::ColonSpace(v) => v,
            Token::SpaceHash(v) => v,
            Token::SectionSeparator(v) => v,
        }
    }

    pub fn token_type(&self) -> (r: TokenType)
        ensures
            r == self.kind(),
    {
        match self {
            Token::Word(_) => TokenType::Word,
            Token::Bang(_) => TokenType::Bang,
            Token::Colon(_) => TokenType::Colon,
            Token::Hash(_) => TokenType::Hash,
            Token::Newline(_) => TokenType::NewLine,
            Token::ParenthesisClose(_) => TokenType::ParenthesisClose,
            Token::ParenthesisOpen(_) => TokenType::ParenthesisOpen,
            Token::Space(_) => TokenType::Space,
            Token::ColonSpace(_) => TokenType::ColonSpace,
            Token::SpaceHash(_) => TokenType::SpaceHash,
            Token::SectionSeparator(_) => TokenType::SectionSeparator,
        }
    }

    /// The characters that the token covers.
    pub fn get_value(&self) -> (r: String)
        ensures
            bytes_of(r@) == self.bytes(),
            r@ == decode_utf8(self.bytes()),
    {
        self.get_srcs_ref().value()
    }

    pub fn get_start_index(&self) -> (r: usize)
        ensures
            r == self.lo(),
            self.srs().valid_range(),
    {
        self.get_srcs_ref().start_index()
    }

    /// Number of bytes the token covers.
    pub fn get_length(&self) -> (r: usize)
        ensures
            r == self.hi() - self.lo(),
    {
        self.get_srcs_ref().len()
    }

    /// Byte offset of the token's last byte.
    pub fn get_end_index(&self) -> (r: usize)
        requires
            self.lo() < self.hi(),
        ensures
            r == self.hi() - 1,
            self.srs().valid_range(),
    {
        self.get_srcs_ref().end_index() - 1
    }

    /// Byte offset just past the token.
    pub fn end_offset(&self) -> (r: usize)
        ensures
            r == self.hi(),
            self.srs().valid_range(),
    {
        self.get_srcs_ref().end_index()
    }

    pub fn get_variant_name(&self) -> (r: String)
        ensures
            r@ == variant_name(self.kind()),
    {
        match self {
            Token::Word(_) => String::from_str("Word"),
            Token::Bang(_) => String::from_str("Bang"),
            Token::Colon(_) => String::from_str("Colon"),
            Token::Hash(_) => String::from_str("Hash"),
            Token::Newline(_) => String::from_str("NewLine"),
            Token::ParenthesisClose(_) => String::from_str("ParenthesisClose"),
            Token::ParenthesisOpen(_) => String::from_str("ParenthesisOpen"),
            Token::Space(_) => String::from_str("Space"),
            Token::ColonSpace(_) => String::from_str("ColonSpace"),
            Token::SpaceHash(_) => String::from_str("SpaceHash"),
            Token::SectionSeparator(_) => String::from_str("SectionSeparator"),
        }
    }

    /// The characters that the token covers.
    pub fn to_string(&self) -> (r: String)
        ensures
            r@ == decode_utf8(self.bytes()),
    {
        self.get_value()
    }

    /// Number of bytes the token covers.
    pub fn len(&self) -> (r: usize)
        ensures
            r == self.hi() - self.lo(),
    {
        self.get_srcs_ref().len()
    }

    /// A view of the token's message text at absolute byte offsets.
    pub fn get_super_slice(&self, span: Range<usize>) -> (r: SlicableRcString)
        requires
            span.start <= span.end <= bytes_of(self.text()).len(),
            is_char_boundary(bytes_of(self.text()), span.start as int),
            is_char_boundary(bytes_of(self.text()), span.end as int),
        ensures
            r.text() == self.text(),
            r.lo() == span.start,
            r.hi() == span.end,
    {
        self.get_srcs_ref().super_slice(span)
    }
}

impl Clone for WordDetails {
    fn clone(&self) -> (r: Self)
        ensures
            r == *self,
    {
        WordDetails { text: self.text.clone() }
    }
}

impl Clone for Token {
    fn clone(&self) -> (r: Self)
        ensures
            r == *self,
    {
        match self {
            Token::Word(d) => Token::Word(d.clone()),
            Token::Bang(v) => Token::Bang(v.clone()),
            Token::Colon(v) => Token::Colon(v.clone()),
            Token::Hash(v) => Token::Hash(v.clone()),
            Token::Newline(v) => Token::Newline(v.clone()),
            Token::ParenthesisClose(v) => Token::ParenthesisClose(v.clone()),
            Token::ParenthesisOpen(v) => Token::ParenthesisOpen(v.clone()),
            Token::Space(v) => Token::Space(v.clone()),
            Token::ColonSpace(v) => Token::ColonSpace(v.clone()),
            Token::SpaceHash(v) => Token::SpaceHash(v.clone()),
            Token::SectionSeparator(v) => Token::SectionSeparator(v.clone()),
        }
    }
}

/// The name of a token kind.
pub open spec fn variant_name(k: TokenType) -> Seq<char> {
    match k {
        TokenType::Word => "Word"@,
        TokenType::Bang => "Bang"@,
        TokenType::Colon => "Colon"@,
        TokenType::Hash => "Hash"@,
        TokenType::NewLine => "NewLine"@,
        TokenType::ParenthesisClose => "ParenthesisClose"@,
        TokenType::ParenthesisOpen => "ParenthesisOpen"@,
        TokenType::Space => "Space"@,
        TokenType::ColonSpace => "ColonSpace"@,
        TokenType::SpaceHash => "SpaceHash"@,
        TokenType::SectionSeparator => "SectionSeparator"@,
    }
}

} // verus!
