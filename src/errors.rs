//! Syntax errors of the parser and how they read.
use vstd::prelude::*;

use vstd::utf8::decode_utf8;
use crate::token::Token;

verus! {

/// What the grammar wanted where it found something else.
pub enum Expected {
    AString,
    Colon,
    Space,
    ParenOpen,
    ParenClose,
    Newline,
    /// The blank line that opens a body.
    BlankLine,
}

/// The wording of an expectation in an error message.
pub open spec fn expected_text(e: Expected) -> Seq<char> {
    match e {
        Expected::AString => "a string"@,
        Expected::Colon => "':'"@,
        Expected::Space => "a space"@,
        Expected::ParenOpen => "'('"@,
        Expected::ParenClose => "')'"@,
        Expected::Newline => "'\n'"@,
        Expected::BlankLine => "No newline before body"@,
    }
}

/// A syntax error: the parse stops at the first one.
#[derive(Debug)]
pub enum SyntaxError {
    /// The token found, and a description of what was expected instead.
    UnexpectedToken(Token, String),
    UnexpectedEndOfFile,
}

/// `e` reports token `t` where `x` was expected.
pub open spec fn is_unexpected(e: SyntaxError, t: Token, x: Seq<char>) -> bool {
    match e {
        SyntaxError::UnexpectedToken(found, s) => found == t && s@ == x,
        SyntaxError::UnexpectedEndOfFile => false,
    }
}

/// The decimal digits of `n`.
pub open spec fn decimal(n: nat) -> Seq<char>
    decreases n,
{
    if n < 10 {
        seq![digit_char(n)]
    } else {
        decimal(n / 10) + seq![digit_char(n % 10)]
    }
}

pub open spec fn digit_char(d: nat) -> char {
    if d == 0 {
        '0'
    } else if d == 1 {
        '1'
    } else if d == 2 {
        '2'
    } else if d == 3 {
        '3'
    } else if d == 4 {
        '4'
    } else if d == 5 {
        '5'
    } else if d == 6 {
        '6'
    } else if d == 7 {
        '7'
    } else if d == 8 {
        '8'
    } else {
        '9'
    }
}

fn digit_str(d: usize) -> (r: &'static str)
    requires
        d < 10,
    ensures
        r@ == seq![digit_char(d as nat)],
{
    proof {
        reveal_strlit("0");
        reveal_strlit("1");
        reveal_strlit("2");
        reveal_strlit("3");
        reveal_strlit("4");
        reveal_strlit("5");
        reveal_strlit("6");
        reveal_strlit("7");
        reveal_strlit("8");
        reveal_strlit("9");
    }
    if d == 0 {
        "0"
    } else if d == 1 {
        "1"
    } else if d == 2 {
        "2"
    } else if d == 3 {
        "3"
    } else if d == 4 {
        "4"
    } else if d == 5 {
        "5"
    } else if d == 6 {
        "6"
    } else if d == 7 {
        "7"
    } else if d == 8 {
        "8"
    } else {
        "9"
    }
}

/// Writes `n` in decimal.
pub fn decimal_string(n: usize) -> (r: String)
    ensures
        r@ == decimal(n as nat),
    decreases n,
{
    if n < 10 {
        String::from_str(digit_str(n))
    } else {
        let mut s = decimal_string(n / 10);
        s.append(digit_str(n % 10));
        s
    }
}

impl SyntaxError {
    pub fn expected_newline(token: Token) -> (r: Self)
        ensures
            is_unexpected(r, token, expected_text(Expected::Newline)),
    {
        SyntaxError::UnexpectedToken(token, String::from_str("'\n'"))
    }

    /// A body that does not start with a blank line.
    pub fn no_newline_before_body(token: Token) -> (r: Self)
        ensures
            is_unexpected(r, token, expected_text(Expected::BlankLine)),
    {
        SyntaxError::UnexpectedToken(token, String::from_str("No newline before body"))
    }

    pub fn expected_string(token: Token) -> (r: Self)
        ensures
            is_unexpected(r, token, expected_text(Expected::AString)),
    {
        SyntaxError::UnexpectedToken(token, String::from_str("a string"))
    }

    pub fn expected_colon(token: Token) -> (r: Self)
        ensures
            is_unexpected(r, token, expected_text(Expected::Colon)),
    {
        SyntaxError::UnexpectedToken(token, String::from_str("':'"))
    }

    pub fn expected_space(token: Token) -> (r: Self)
        ensures
            is_unexpected(r, token, expected_text(Expected::Space)),
    {
        SyntaxError::UnexpectedToken(token, String::from_str("a space"))
    }

    pub fn expected_parent_open(token: Token) -> (r: Self)
        ensures
            is_unexpected(r, token, expected_text(Expected::ParenOpen)),
    {
        SyntaxError::UnexpectedToken(token, String::from_str("'('"))
    }

    pub fn expected_parent_close(token: Token) -> (r: Self)
        ensures
            is_unexpected(r, token, expected_text(Expected::ParenClose)),
    {
        SyntaxError::UnexpectedToken(token, String::from_str("')'"))
    }

    /// The message shown to the user.
    pub fn to_string(&self) -> (r: String)
        ensures
            r@ == error_message(*self),
    {
        match self {
            SyntaxError::UnexpectedToken(token, expected) => {
                let mut s = String::from_str("Syntax error: Unexpected token '");
                let value = token.get_value();
                s.append(value.as_str());
                s.append("' at index ");
                let index = decimal_string(token.get_start_index());
                s.append(index.as_str());
                s.append(". Expected ");
                s.append(expected.as_str());
                s.append(".");
                s
            },
            SyntaxError::UnexpectedEndOfFile => String::from_str(
                "Syntax error: Unexpected end of file.",
            ),
        }
    }
}

/// The text of a token's value: the characters whose UTF-8 bytes it covers.
pub open spec fn value_of(t: Token) -> Seq<char> {
    decode_utf8(t.bytes())
}

/// How a syntax error reads.
pub open spec fn error_message(e: SyntaxError) -> Seq<char> {
    match e {
        SyntaxError::UnexpectedToken(t, x) => "Syntax error: Unexpected token '"@ + value_of(t)
            + "' at index "@ + decimal(t.lo()) + ". Expected "@ + x@ + "."@,
        SyntaxError::UnexpectedEndOfFile => "Syntax error: Unexpected end of file."@,
    }
}

/// An unexpected token, reported by its position.
#[derive(Debug)]
pub struct UnexpectedTokenError {
    pub token: Token,
}

impl UnexpectedTokenError {
    pub fn new(token: Token) -> (r: UnexpectedTokenError)
        ensures
            r.token == token,
    {
        UnexpectedTokenError { token }
    }

    pub fn to_string(&self) -> (r: String)
        ensures
            r@ == "Unexpected token at index "@ + decimal(self.token.lo()),
    {
        let mut s = String::from_str("Unexpected token at index ");
        let index = decimal_string(self.token.get_start_index());
        s.append(index.as_str());
        s
    }
}

/// The input ended after the given token.
#[derive(Debug)]
pub struct UnexpectedEndOfFileError {
    pub token: Token,
}

impl UnexpectedEndOfFileError {
    pub fn new(token: Token) -> (r: UnexpectedEndOfFileError)
        ensures
            r.token == token,
    {
        UnexpectedEndOfFileError { token }
    }

    pub fn to_string(&self) -> (r: String)
        ensures
            r@ == "Unexpected end of file after '"@ + value_of(self.token) + "'"@,
    {
        let mut s = String::from_str("Unexpected end of file after '");
        let value = self.token.get_value();
        s.append(value.as_str());
        s.append("'");
        s
    }
}

} // verus!
