//! The symbols of the parse tree and the two ways of rendering them.
use std::ops::Range;
use vstd::prelude::*;
use vstd::utf8::*;

use crate::errors::value_of;
use crate::slicable_rc_string::bytes_of;
use crate::token::Token;

verus! {

/// Each token is non-empty, all point into one text, and each starts where the previous ends.
pub open spec fn contiguous(ts: Seq<Token>) -> bool {
    &&& ts.len() > 0
    &&& forall|i: int| 0 <= i < ts.len() ==> (#[trigger] ts[i]).text() == ts[0].text() && ts[i].lo() < ts[i].hi()
    &&& forall|i: int| 0 <= i < ts.len() - 1 ==> #[trigger] ts[i].hi() == ts[i + 1].lo()
}

/// The bytes of the text from the start of the first token to the end of the last.
pub open spec fn span_bytes(ts: Seq<Token>) -> Seq<u8> {
    bytes_of(ts[0].text()).subrange(ts[0].lo() as int, ts.last().hi() as int)
}

/// The source text of a symbol, delimiters included.
pub open spec fn full_text(s: Symbol) -> Seq<char> {
    decode_utf8(span_bytes(s.all()))
}

/// The source text of a symbol's value, without its delimiters.
pub open spec fn content_text(s: Symbol) -> Seq<char> {
    if s.content().len() == 0 {
        seq![]
    } else {
        decode_utf8(span_bytes(s.content()))
    }
}

/// The values of the tokens, one after the other.
pub open spec fn values_joined(ts: Seq<Token>) -> Seq<char>
    decreases ts.len(),
{
    if ts.len() == 0 {
        seq![]
    } else {
        values_joined(ts.drop_last()) + value_of(ts.last())
    }
}

/// A node of the parse tree. Each keeps its delimiter tokens apart from its content tokens.
#[allow(inconsistent_fields)]
#[derive(Debug)]
pub enum Symbol {
    /// The commit type.
    Topic { text_token: Token },
    /// The parenthesized scope.
    Scope { text_token: Token, start_delimiter: Token, end_delimiter: Token },
    /// The summary line, after `": "` and the optional `'!'` before it.
    Description {
        text_tokens: Vec<Token>,
        start_delimiter: Vec<Token>,
        breaking_change_token: Option<Token>,
    },
    /// The free text after the first blank line.
    Body { start_delimiter: Vec<Token>, text_tokens: Vec<Token> },
    /// One trailer; its delimiter is `key: ` or `key #`.
    Footer { start_delimiter: Vec<Token>, text_tokens: Vec<Token> },
}

impl Symbol {
    /// The delimiter tokens that come before the content, in source order.
    pub open spec fn leading(&self) -> Seq<Token> {
        match self {
            Symbol::Topic { .. } => seq![],
            Symbol::Scope { start_delimiter, .. } => seq![*start_delimiter],
            Symbol::Description { start_delimiter, breaking_change_token, .. } => {
                match breaking_change_token {
                    Some(b) => seq![*b] + start_delimiter@,
                    None => start_delimiter@,
                }
            },
            Symbol::Body { start_delimiter, .. } => start_delimiter@,
            Symbol::Footer { .. } => seq![],
        }
    }

    /// The tokens that open the symbol: those before the value, and a trailer's key with its
    /// separator.
    pub open spec fn opening(&self) -> Seq<Token> {
        match self {
            Symbol::Footer { start_delimiter, .. } => start_delimiter@,
            _ => self.leading(),
        }
    }

    /// The tokens that carry the symbol's value.
    pub open spec fn content(&self) -> Seq<Token> {
        match self {
            Symbol::Topic { text_token } => seq![*text_token],
            Symbol::Scope { text_token, .. } => seq![*text_token],
            Symbol::Description { text_tokens, .. } => text_tokens@,
            Symbol::Body { text_tokens, .. } => text_tokens@,
            Symbol::Footer { start_delimiter, text_tokens } => start_delimiter@ + text_tokens@,
        }
    }

    /// The delimiter tokens that come after the content.
    pub open spec fn trailing(&self) -> Seq<Token> {
        match self {
            Symbol::Scope { end_delimiter, .. } => seq![*end_delimiter],
            _ => seq![],
        }
    }

    /// All tokens of the symbol, in source order.
    pub open spec fn all(&self) -> Seq<Token> {
        self.leading() + self.content() + self.trailing()
    }

    /// The symbol's tokens form one unbroken stretch of a text.
    pub open spec fn well_formed(&self) -> bool {
        contiguous(self.all())
    }

    pub fn get_content_tokens(&self) -> (r: Vec<Token>)
        ensures
            r@ == self.content(),
    {
        let mut r: Vec<Token> = Vec::new();
        match self {
            Symbol::Topic { text_token } => r.push(text_token.clone()),
            Symbol::Scope { text_token, .. } => r.push(text_token.clone()),
            Symbol::Description { text_tokens, .. } => append_tokens(&mut r, text_tokens),
            Symbol::Body { text_tokens, .. } => append_tokens(&mut r, text_tokens),
            Symbol::Footer { start_delimiter, text_tokens } => {
                append_tokens(&mut r, start_delimiter);
                append_tokens(&mut r, text_tokens);
            },
        }
        proof {
            assert(r@ =~= self.content());
        }
        r
    }

    pub fn get_all_tokens(&self) -> (r: Vec<Token>)
        ensures
            r@ == self.all(),
    {
        let mut r: Vec<Token> = Vec::new();
        match self {
            Symbol::Topic { text_token } => {
                r.push(text_token.clone());
            },
            Symbol::Scope { text_token, end_delimiter, start_delimiter } => {
                r.push(start_delimiter.clone());
                r.push(text_token.clone());
                r.push(end_delimiter.clone());
            },
            Symbol::Description { text_tokens, start_delimiter, breaking_change_token } => {
                if let Some(b) = breaking_change_token {
                    r.push(b.clone());
                }
                append_tokens(&mut r, start_delimiter);
                append_tokens(&mut r, text_tokens);
            },
            Symbol::Body { start_delimiter, text_tokens } => {
                append_tokens(&mut r, start_delimiter);
                append_tokens(&mut r, text_tokens);
            },
            Symbol::Footer { start_delimiter, text_tokens } => {
                append_tokens(&mut r, start_delimiter);
                append_tokens(&mut r, text_tokens);
            },
        }
        proof {
            assert(r@ =~= self.all());
        }
        r
    }

    /// The source text of the whole symbol, delimiters included.
    pub fn full_string(&self) -> (r: String)
        requires
            self.well_formed(),
        ensures
            bytes_of(r@) == span_bytes(self.all()),
            r@ == full_text(*self),
    {
        let all = self.get_all_tokens();
        span_string(&all)
    }

    /// The source text of the symbol's value, without its delimiters.
    pub fn content_string(&self) -> (r: String)
        requires
            self.well_formed(),
        ensures
            self.content().len() == 0 ==> r@.len() == 0,
            self.content().len() > 0 ==> bytes_of(r@) == span_bytes(self.content()),
            r@ == content_text(*self),
    {
        let content = self.get_content_tokens();
        proof {
            self.lemma_content_contiguous();
        }
        if content.len() == 0 {
            String::new()
        } else {
            span_string(&content)
        }
    }

    /// The source text of the symbol's value, without its delimiters (the same as
    /// `content_string`).
    pub fn no_delims_string(&self) -> (r: String)
        requires
            self.well_formed(),
        ensures
            r@ == content_text(*self),
    {
        self.content_string()
    }

    /// The content is itself an unbroken stretch of the text.
    pub proof fn lemma_content_contiguous(&self)
        requires
            self.well_formed(),
        ensures
            self.content().len() > 0 ==> contiguous(self.content()),
    {
        let all = self.all();
        let c = self.content();
        let k = self.leading().len() as int;
        assert(c =~= all.subrange(k, k + c.len()));
        if c.len() > 0 {
            assert forall|i: int| 0 <= i < c.len() implies (#[trigger] c[i]).text() == c[0].text()
                && c[i].lo() < c[i].hi() by {
                assert(c[i] == all[k + i]);
                assert(c[0] == all[k]);
            }
            assert forall|i: int| 0 <= i < c.len() - 1 implies #[trigger] c[i].hi() == c[i
                + 1].lo() by {
                assert(c[i] == all[k + i]);
                assert(c[i + 1] == all[k + i + 1]);
            }
        }
    }

    /// Number of bytes of the value.
    pub fn content_length(&self) -> (r: usize)
        requires
            self.well_formed(),
        ensures
            self.content().len() == 0 ==> r == 0,
            self.content().len() > 0 ==> r == self.content().last().hi() - self.content()[0].lo(),
    {
        let content = self.get_content_tokens();
        proof {
            self.lemma_content_contiguous();
        }
        span_length(&content)
    }

    /// Number of bytes of the whole symbol.
    pub fn total_length(&self) -> (r: usize)
        requires
            self.well_formed(),
        ensures
            r == self.all().last().hi() - self.all()[0].lo(),
    {
        let all = self.get_all_tokens();
        span_length(&all)
    }

    /// Byte offset of the symbol's first byte.
    pub fn start_i(&self) -> (r: usize)
        requires
            self.well_formed(),
        ensures
            r == self.all()[0].lo(),
    {
        let all = self.get_all_tokens();
        all[0].get_start_index()
    }

    /// Byte offset of the symbol's last byte.
    pub fn end_i(&self) -> (r: usize)
        requires
            self.well_formed(),
        ensures
            r == self.all().last().hi() - 1,
    {
        let all = self.get_all_tokens();
        all[all.len() - 1].get_end_index()
    }

    /// The text of the opening delimiter; a topic has none.
    pub fn start_delimiter(&self) -> (r: Option<String>)
        ensures
            r.is_none() <==> self is Topic,
            r.is_some() ==> r.unwrap()@ == values_joined(self.opening()),
    {
        match self {
            Symbol::Topic { .. } => None,
            Symbol::Scope { start_delimiter, .. } => {
                let v = start_delimiter.get_value();
                proof {
                    assert(seq![*start_delimiter].drop_last() =~= Seq::<Token>::empty());
                    reveal_with_fuel(values_joined, 2);
                    assert(values_joined(seq![*start_delimiter]) =~= value_of(*start_delimiter));
                }
                Some(v)
            },
            Symbol::Description { start_delimiter, breaking_change_token, .. } => {
                let mut lead: Vec<Token> = Vec::new();
                if let Some(b) = breaking_change_token {
                    lead.push(b.clone());
                }
                append_tokens(&mut lead, start_delimiter);
                proof {
                    assert(lead@ =~= self.leading());
                }
                Some(join_values(&lead))
            },
            Symbol::Body { start_delimiter, .. } => Some(join_values(start_delimiter)),
            Symbol::Footer { start_delimiter, .. } => Some(join_values(start_delimiter)),
        }
    }

    /// The text of the delimiter after the value, which only a scope has.
    pub fn end_delimiter(&self) -> (r: Option<String>)
        ensures
            r.is_none() <==> self.trailing().len() == 0,
            r.is_some() ==> r.unwrap()@ == values_joined(self.trailing()),
    {
        match self {
            Symbol::Scope { end_delimiter, .. } => {
                let v = end_delimiter.get_value();
                proof {
                    assert(seq![*end_delimiter].drop_last() =~= Seq::<Token>::empty());
                    reveal_with_fuel(values_joined, 2);
                    assert(values_joined(seq![*end_delimiter]) =~= value_of(*end_delimiter));
                }
                Some(v)
            },
            _ => None,
        }
    }

    /// Both delimiters of the symbol, or `None` for a topic, which has none.
    pub fn delimiters(&self) -> (r: Option<(Option<String>, Option<String>)>)
        ensures
            r.is_none() <==> self is Topic,
            r.is_some() ==> match r.unwrap() {
                (s, e) => s.is_some() && s.unwrap()@ == values_joined(self.opening()) && (e.is_none()
                    <==> self.trailing().len() == 0) && (e.is_some() ==> e.unwrap()@
                    == values_joined(self.trailing())),
            },
    {
        match self {
            Symbol::Topic { .. } => None,
            _ => Some((self.start_delimiter(), self.end_delimiter())),
        }
    }
}

/// Appends clones of the tokens of `src` to `dst`.
fn append_tokens(dst: &mut Vec<Token>, src: &Vec<Token>)
    ensures
        final(dst)@ == old(dst)@ + src@,
{
    let mut i: usize = 0;
    while i < src.len()
        invariant
            i <= src@.len(),
            dst@ == old(dst)@ + src@.subrange(0, i as int),
        decreases src@.len() - i,
    {
        dst.push(src[i].clone());
        proof {
            assert(src@.subrange(0, i + 1) =~= src@.subrange(0, i as int).push(src@[i as int]));
        }
        i = i + 1;
    }
    proof {
        assert(src@.subrange(0, i as int) =~= src@);
    }
}

/// Concatenates the values of the tokens.
fn join_values(ts: &Vec<Token>) -> (r: String)
    ensures
        r@ == values_joined(ts@),
{
    let mut r = String::new();
    let mut i: usize = 0;
    while i < ts.len()
        invariant
            i <= ts@.len(),
            r@ == values_joined(ts@.subrange(0, i as int)),
        decreases ts@.len() - i,
    {
        let v = ts[i].get_value();
        r.append(v.as_str());
        proof {
            assert(ts@.subrange(0, i + 1).drop_last() =~= ts@.subrange(0, i as int));
        }
        i = i + 1;
    }
    proof {
        assert(ts@.subrange(0, i as int) =~= ts@);
    }
    r
}

/// The text from the start of the first token to the end of the last.
fn span_string(ts: &Vec<Token>) -> (r: String)
    requires
        contiguous(ts@),
    ensures
        bytes_of(r@) == span_bytes(ts@),
        r@ == decode_utf8(span_bytes(ts@)),
{
    let first = &ts[0];
    let last = &ts[ts.len() - 1];
    let start = first.get_start_index();
    let end = last.end_offset();
    proof {
        lemma_span_ordered(ts@);
    }
    let view = first.get_super_slice(Range { start, end });
    view.value()
}

/// Number of bytes from the start of the first token to the end of the last.
fn span_length(ts: &Vec<Token>) -> (r: usize)
    requires
        ts@.len() > 0 ==> contiguous(ts@),
    ensures
        ts@.len() == 0 ==> r == 0,
        ts@.len() > 0 ==> r == ts@.last().hi() - ts@[0].lo(),
{
    if ts.len() == 0 {
        0
    } else {
        let start = ts[0].get_start_index();
        let end = ts[ts.len() - 1].end_offset();
        proof {
            lemma_span_ordered(ts@);
        }
        end - start
    }
}

/// In a contiguous run, the first token starts no later than the last one ends.
pub proof fn lemma_span_ordered(ts: Seq<Token>)
    requires
        contiguous(ts),
    ensures
        ts[0].lo() <= ts.last().hi(),
        ts.last().text() == ts[0].text(),
{
    let n = ts.len() as int;
    assert forall|k: int| 0 <= k < n implies ts[0].lo() <= #[trigger] ts[k].lo() by {
        lemma_lo_increasing(ts, k);
    }
    assert(ts[0].lo() <= ts[n - 1].lo());
    assert(ts[n - 1].lo() < ts[n - 1].hi());
}

proof fn lemma_lo_increasing(ts: Seq<Token>, k: int)
    requires
        contiguous(ts),
        0 <= k < ts.len(),
    ensures
        ts[0].lo() <= ts[k].lo(),
    decreases k,
{
    if k > 0 {
        lemma_lo_increasing(ts, k - 1);
        assert(ts[k - 1].hi() == ts[k].lo());
        assert(ts[k - 1].lo() < ts[k - 1].hi());
    }
}

} // verus!
