//! Properties of lexing and parsing that hold for every input.
use vstd::prelude::*;
use vstd::utf8::*;

use crate::lexer::{
    adjacent_ok, is_special, lexes, lexes_prefix, token_ok, BANG, HASH, COLON, NEWLINE, PAREN_CLOSE, PAREN_OPEN, SPACE,
};
use crate::slicable_rc_string::{bytes_of, lemma_ascii_byte_boundaries};
use crate::symbol::values_joined;
use crate::errors::value_of;
use crate::grammar::{description_spec, lemma_line_end, lemma_scan_lines, message_spec, scope_spec};
use crate::parser::{after_scope, lemma_parsed_well_formed, message_matches, CommitMessage};
use crate::symbol::{span_bytes, Symbol};
use crate::token::{Token, TokenType};
use crate::parses_to;

verus! {

/// The bytes of the tokens, one after the other.
pub open spec fn joined_bytes(ts: Seq<Token>) -> Seq<u8>
    decreases ts.len(),
{
    if ts.len() == 0 {
        seq![]
    } else {
        joined_bytes(ts.drop_last()) + ts.last().bytes()
    }
}

/// Dropping the last token of a tokenization of a prefix tokenizes a shorter prefix.
proof fn lemma_lexes_prefix_drop_last(text: Seq<char>, ts: Seq<Token>, upto: int)
    requires
        lexes_prefix(text, ts, upto),
        ts.len() > 0,
    ensures
        lexes_prefix(text, ts.drop_last(), ts.last().lo() as int),
        ts.last().lo() < ts.last().hi() == upto,
{
    let n = ts.len() as int;
    let d = ts.drop_last();
    assert(token_ok(text, ts[n - 1]));
    if n >= 2 {
        assert(adjacent_ok(ts, n - 2));
    }
    assert forall|i: int| 0 <= i < d.len() implies #[trigger] token_ok(text, d[i]) by {
        assert(token_ok(text, ts[i]));
    }
    assert forall|i: int| 0 <= i < d.len() - 1 implies #[trigger] adjacent_ok(d, i) by {
        assert(adjacent_ok(ts, i));
    }
}

/// The tokens of a prefix, one after the other, give back the bytes of that prefix.
pub proof fn lemma_prefix_is_total(text: Seq<char>, ts: Seq<Token>, upto: int)
    requires
        lexes_prefix(text, ts, upto),
    ensures
        joined_bytes(ts) == bytes_of(text).subrange(0, upto),
    decreases ts.len(),
{
    if ts.len() == 0 {
        assert(bytes_of(text).subrange(0, upto) =~= Seq::<u8>::empty());
    } else {
        let last = ts.last();
        lemma_lexes_prefix_drop_last(text, ts, upto);
        lemma_prefix_is_total(text, ts.drop_last(), last.lo() as int);
        let b = bytes_of(text);
        assert(b.subrange(0, last.lo() as int) + b.subrange(last.lo() as int, upto) =~= b.subrange(
            0,
            upto,
        ));
        assert(token_ok(text, ts[ts.len() - 1]));
        assert(last.bytes() == b.subrange(last.lo() as int, upto));
        assert(joined_bytes(ts) == joined_bytes(ts.drop_last()) + last.bytes());
        assert(joined_bytes(ts) =~= b.subrange(0, upto));
    }
}

/// Lexing loses and repeats nothing: the bytes of the tokens, one after the other, are the
/// bytes of the text.
pub proof fn lemma_lexing_is_total(text: Seq<char>, ts: Seq<Token>)
    requires
        lexes(text, ts),
    ensures
        joined_bytes(ts) == bytes_of(text),
{
    lemma_prefix_is_total(text, ts, bytes_of(text).len() as int);
    assert(bytes_of(text).subrange(0, bytes_of(text).len() as int) =~= bytes_of(text));
}

/// Every token of a lexed text starts and ends on a character boundary.
pub proof fn lemma_token_boundaries(text: Seq<char>, ts: Seq<Token>, i: int)
    requires
        lexes(text, ts),
        0 <= i < ts.len(),
    ensures
        is_char_boundary(bytes_of(text), ts[i].lo() as int),
        is_char_boundary(bytes_of(text), ts[i].hi() as int),
{
    let b = bytes_of(text);
    encode_utf8_valid_utf8(text);
    is_char_boundary_start_end_of_seq(b);
    let n = ts.len() as int;
    assert(token_ok(text, ts[i]));
    let t = ts[i];
    if t.kind() != TokenType::Word {
        lemma_ascii_byte_boundaries(b, t.lo() as int);
        lemma_ascii_byte_boundaries(b, t.hi() - 1);
    } else {
        if i > 0 {
            assert(adjacent_ok(ts, i - 1));
            assert(token_ok(text, ts[i - 1]));
            lemma_ascii_byte_boundaries(b, ts[i - 1].hi() - 1);
        }
        if i < n - 1 {
            assert(adjacent_ok(ts, i));
            assert(token_ok(text, ts[i + 1]));
            lemma_ascii_byte_boundaries(b, ts[i + 1].lo() as int);
        }
    }
}


/// Where the first `k` tokens end.
pub open spec fn end_of_first(ts: Seq<Token>, k: int) -> int {
    if k == 0 {
        0
    } else {
        ts[k - 1].hi() as int
    }
}

proof fn lemma_values_prefix(text: Seq<char>, ts: Seq<Token>, k: int)
    requires
        lexes(text, ts),
        0 <= k <= ts.len(),
    ensures
        values_joined(ts.subrange(0, k)) == decode_utf8(
            bytes_of(text).subrange(0, end_of_first(ts, k)),
        ),
    decreases k,
{
    let b = bytes_of(text);
    if k == 0 {
        assert(b.subrange(0, 0) =~= Seq::<u8>::empty());
        assert(ts.subrange(0, 0) =~= Seq::<Token>::empty());
    } else {
        lemma_values_prefix(text, ts, k - 1);
        let t = ts[k - 1];
        assert(token_ok(text, t));
        if k >= 2 {
            assert(adjacent_ok(ts, k - 2));
        }
        assert(end_of_first(ts, k - 1) == t.lo());
        let sub = ts.subrange(0, k);
        assert(sub.drop_last() =~= ts.subrange(0, k - 1));
        assert(sub.last() == t);
        lemma_token_boundaries(text, ts, k - 1);
        encode_utf8_valid_utf8(text);
        let lo = t.lo() as int;
        let hi = t.hi() as int;
        let p = b.subrange(0, hi);
        valid_utf8_split(b, hi);
        crate::slicable_rc_string::lemma_boundary_in_prefix(b, hi, lo);
        decode_utf8_split(p, lo);
        assert(p.subrange(0, lo) =~= b.subrange(0, lo));
        assert(p.subrange(lo, p.len() as int) =~= b.subrange(lo, hi));
        assert(value_of(t) == decode_utf8(b.subrange(lo, hi)));
    }
}

/// Lexing loses and repeats nothing: the values of the tokens, one after the other, spell
/// the text.
pub proof fn lemma_values_spell_text(text: Seq<char>, ts: Seq<Token>)
    requires
        lexes(text, ts),
    ensures
        values_joined(ts) == text,
{
    let n = ts.len() as int;
    lemma_values_prefix(text, ts, n);
    assert(ts.subrange(0, n) =~= ts);
    let b = bytes_of(text);
    if n > 0 {
        assert(ts[n - 1].hi() == b.len());
    }
    assert(b.subrange(0, end_of_first(ts, n)) =~= b);
    encode_utf8_decode_utf8(text);
}


/// `s` is one of the symbols of `m`.
pub open spec fn symbol_of(m: CommitMessage, s: Symbol) -> bool {
    ||| m.topic == Some(s)
    ||| m.scope == Some(s)
    ||| m.description == Some(s)
    ||| m.body == Some(s)
    ||| (m.footers matches Some(fs) && fs@.contains(s))
}

/// A message parsed from `text` is made of well-formed symbols that point into `text`.
pub proof fn lemma_parsed_message_of_text(text: Seq<char>, m: CommitMessage)
    requires
        parses_to(text, Ok(m)),
    ensures
        m.well_formed(),
        m.of_text(text),
{
    let ts = choose|ts: Seq<Token>|
        #![trigger lexes(text, ts)]
        lexes(text, ts) && match message_spec(ts) {
            Ok(l) => Ok::<CommitMessage, crate::errors::SyntaxError>(m) matches Ok(x)
                && crate::parser::message_matches(x, ts, l),
            Err(f) => Ok::<CommitMessage, crate::errors::SyntaxError>(m) matches Err(e)
                && crate::parser::fails_as(e, f, ts),
        };
    let l = message_spec(ts)->Ok_0;
    lemma_parsed_well_formed(text, ts, l, m);
}

/// Round trip of the full string: each symbol of a message parsed from `text` covers, with
/// its delimiters, exactly the bytes of `text` from the start of its first token to the end
/// of its last (which `Symbol::full_string` returns).
pub proof fn lemma_full_string_round_trip(text: Seq<char>, m: CommitMessage, s: Symbol)
    requires
        parses_to(text, Ok(m)),
        symbol_of(m, s),
    ensures
        s.well_formed(),
        span_bytes(s.all()) == bytes_of(text).subrange(
            s.all()[0].lo() as int,
            s.all().last().hi() as int,
        ),
{
    lemma_parsed_message_of_text(text, m);
    if m.footers is Some {
        let fs = m.footers->Some_0;
        if fs@.contains(s) {
            let i = choose|i: int| 0 <= i < fs@.len() && fs@[i] == s;
            assert(fs@[i].well_formed());
        }
    }
}


proof fn lemma_joined_concat(x: Seq<Token>, y: Seq<Token>)
    ensures
        joined_bytes(x + y) == joined_bytes(x) + joined_bytes(y),
    decreases y.len(),
{
    if y.len() == 0 {
        assert(x + y =~= x);
        assert(joined_bytes(x) + joined_bytes(y) =~= joined_bytes(x));
    } else {
        lemma_joined_concat(x, y.drop_last());
        assert((x + y).drop_last() =~= x + y.drop_last());
        assert((x + y).last() == y.last());
        assert(joined_bytes(x + y) =~= joined_bytes(x) + joined_bytes(y));
    }
}

/// Over a run of tokens of a lexed text, the text they span is their bytes one after the other.
proof fn lemma_run_span_joined(text: Seq<char>, ts: Seq<Token>, a: int, z: int)
    requires
        lexes(text, ts),
        0 <= a < z <= ts.len(),
    ensures
        span_bytes(ts.subrange(a, z)) == joined_bytes(ts.subrange(a, z)),
    decreases z - a,
{
    let r = ts.subrange(a, z);
    let b = bytes_of(text);
    assert(token_ok(text, ts[a]));
    assert(token_ok(text, ts[z - 1]));
    assert(r.drop_last() =~= ts.subrange(a, z - 1));
    if z == a + 1 {
        assert(r.drop_last() =~= Seq::<Token>::empty());
        assert(r.last() == ts[a]);
        reveal_with_fuel(joined_bytes, 2);
        assert(joined_bytes(r) =~= ts[a].bytes());
    } else {
        lemma_run_span_joined(text, ts, a, z - 1);
        assert(adjacent_ok(ts, z - 2));
        assert(token_ok(text, ts[z - 2]));
        crate::parser::lemma_run_contiguous(text, ts, a, z - 1);
        crate::symbol::lemma_span_ordered(ts.subrange(a, z - 1));
        let lo = ts[a].lo() as int;
        let mid = ts[z - 1].lo() as int;
        let hi = ts[z - 1].hi() as int;
        assert(lo <= mid);
        assert(b.subrange(lo, mid) + b.subrange(mid, hi) =~= b.subrange(lo, hi));
        assert(span_bytes(ts.subrange(a, z - 1)) == b.subrange(lo, mid));
        assert(r.last() == ts[z - 1]);
        assert(r[0] == ts[a]);
        assert(ts[z - 1].bytes() == b.subrange(mid, hi));
        assert(joined_bytes(r) == joined_bytes(r.drop_last()) + r.last().bytes());
        assert(span_bytes(r) == b.subrange(lo, hi));
    }
}

/// The delimiter bytes in front of a scope, description or body.
pub open spec fn lead_bytes(s: Symbol) -> Seq<u8> {
    match s {
        Symbol::Scope { .. } => seq![PAREN_OPEN],
        Symbol::Description { breaking_change_token, .. } => if breaking_change_token is Some {
            seq![BANG, COLON, SPACE]
        } else {
            seq![COLON, SPACE]
        },
        Symbol::Body { .. } => seq![NEWLINE, NEWLINE],
        _ => seq![],
    }
}

/// The delimiter bytes after a scope.
pub open spec fn trail_bytes(s: Symbol) -> Seq<u8> {
    match s {
        Symbol::Scope { .. } => seq![PAREN_CLOSE],
        _ => seq![],
    }
}

/// The bytes of a symbol's value (those that `Symbol::content_string` returns).
pub open spec fn content_bytes(s: Symbol) -> Seq<u8> {
    if s.content().len() == 0 {
        seq![]
    } else {
        span_bytes(s.content())
    }
}

/// The tokens and layout of a message parsed from `text`.
proof fn parsed_layout(text: Seq<char>, m: CommitMessage) -> (r: (Seq<Token>, crate::grammar::Layout))
    requires
        parses_to(text, Ok(m)),
    ensures
        lexes(text, r.0),
        message_spec(r.0) == Ok::<crate::grammar::Layout, crate::grammar::Failure>(r.1),
        message_matches(m, r.0, r.1),
        crate::grammar::topic_spec(r.0, 0) == Ok::<int, crate::grammar::Failure>(1),
        scope_spec(r.0, 1) == Ok::<(bool, int), crate::grammar::Failure>(
            (r.1.scope, after_scope(r.1)),
        ),
        description_spec(r.0, after_scope(r.1)) == Ok::<(bool, int, int), crate::grammar::Failure>(
            (r.1.bang, r.1.desc_start, r.1.desc_end),
        ),
{
    let ts = choose|ts: Seq<Token>|
        #![trigger lexes(text, ts)]
        lexes(text, ts) && match message_spec(ts) {
            Ok(l) => Ok::<CommitMessage, crate::errors::SyntaxError>(m) matches Ok(x)
                && crate::parser::message_matches(x, ts, l),
            Err(f) => Ok::<CommitMessage, crate::errors::SyntaxError>(m) matches Err(e)
                && crate::parser::fails_as(e, f, ts),
        };
    let l = message_spec(ts)->Ok_0;
    (ts, l)
}

proof fn lemma_scope_delimiters(text: Seq<char>, ts: Seq<Token>, s: Symbol)
    requires
        lexes(text, ts),
        scope_spec(ts, 1) == Ok::<(bool, int), crate::grammar::Failure>((true, 4)),
        crate::parser::scope_at(s, ts, 1),
    ensures
        span_bytes(s.all()) == lead_bytes(s) + content_bytes(s) + trail_bytes(s),
{
    lemma_run_span_joined(text, ts, 1, 4);
    lemma_run_span_joined(text, ts, 2, 3);
    assert(token_ok(text, ts[1]));
    assert(token_ok(text, ts[3]));
    assert(s.all() =~= ts.subrange(1, 4));
    assert(s.content() =~= ts.subrange(2, 3));
    assert(ts.subrange(1, 4) =~= seq![ts[1]] + ts.subrange(2, 3) + seq![ts[3]]);
    lemma_joined_concat(seq![ts[1]] + ts.subrange(2, 3), seq![ts[3]]);
    lemma_joined_concat(seq![ts[1]], ts.subrange(2, 3));
    assert(seq![ts[1]].drop_last() =~= Seq::<Token>::empty());
    assert(seq![ts[3]].drop_last() =~= Seq::<Token>::empty());
    assert(ts[1].bytes() =~= seq![PAREN_OPEN]);
    assert(ts[3].bytes() =~= seq![PAREN_CLOSE]);
    reveal_with_fuel(joined_bytes, 2);
    assert(joined_bytes(seq![ts[1]]) =~= seq![PAREN_OPEN]);
    assert(joined_bytes(seq![ts[3]]) =~= seq![PAREN_CLOSE]);
}

proof fn lemma_description_delimiters(
    text: Seq<char>,
    ts: Seq<Token>,
    s: Symbol,
    p2: int,
    bang: bool,
    t: int,
    e: int,
)
    requires
        lexes(text, ts),
        description_spec(ts, p2) == Ok::<(bool, int, int), crate::grammar::Failure>((bang, t, e)),
        crate::parser::description_at(s, ts, p2, bang, t, e),
    ensures
        span_bytes(s.all()) == lead_bytes(s) + content_bytes(s) + trail_bytes(s),
{
    lemma_line_end(ts, t);
    let lead = if bang {
        seq![ts[p2], ts[t - 1]]
    } else {
        seq![ts[t - 1]]
    };
    assert(s.all() =~= ts.subrange(p2, e));
    assert(s.content() =~= ts.subrange(t, e));
    assert(ts.subrange(p2, e) =~= lead + ts.subrange(t, e));
    lemma_run_span_joined(text, ts, p2, e);
    lemma_joined_concat(lead, ts.subrange(t, e));
    assert(token_ok(text, ts[t - 1]));
    assert(ts[t - 1].bytes() =~= seq![COLON, SPACE]);
    reveal_with_fuel(joined_bytes, 3);
    if bang {
        assert(token_ok(text, ts[p2]));
        assert(ts[p2].bytes() =~= seq![BANG]);
        assert(lead.drop_last() =~= seq![ts[p2]]);
        assert(seq![ts[p2]].drop_last() =~= Seq::<Token>::empty());
        assert(joined_bytes(lead) =~= seq![BANG, COLON, SPACE]);
    } else {
        assert(lead.drop_last() =~= Seq::<Token>::empty());
        assert(joined_bytes(lead) =~= seq![COLON, SPACE]);
    }
    if t < e {
        lemma_run_span_joined(text, ts, t, e);
    } else {
        assert(ts.subrange(t, e) =~= Seq::<Token>::empty());
    }
    assert(lead_bytes(s) + content_bytes(s) + trail_bytes(s) =~= joined_bytes(lead) + joined_bytes(
        ts.subrange(t, e),
    ));
}

proof fn lemma_body_delimiters(text: Seq<char>, ts: Seq<Token>, s: Symbol, e: int, bend: int)
    requires
        lexes(text, ts),
        0 <= e < bend <= ts.len(),
        ts[e].kind() == TokenType::SectionSeparator,
        crate::parser::body_at(s, ts, e, bend),
    ensures
        span_bytes(s.all()) == lead_bytes(s) + content_bytes(s) + trail_bytes(s),
{
    let lead = seq![ts[e]];
    assert(s.all() =~= ts.subrange(e, bend));
    assert(s.content() =~= ts.subrange(e + 1, bend));
    assert(ts.subrange(e, bend) =~= lead + ts.subrange(e + 1, bend));
    lemma_run_span_joined(text, ts, e, bend);
    lemma_joined_concat(lead, ts.subrange(e + 1, bend));
    assert(token_ok(text, ts[e]));
    assert(ts[e].bytes() =~= seq![NEWLINE, NEWLINE]);
    reveal_with_fuel(joined_bytes, 2);
    assert(lead.drop_last() =~= Seq::<Token>::empty());
    assert(joined_bytes(lead) =~= seq![NEWLINE, NEWLINE]);
    if e + 1 < bend {
        lemma_run_span_joined(text, ts, e + 1, bend);
    } else {
        assert(ts.subrange(e + 1, bend) =~= Seq::<Token>::empty());
    }
    assert(lead_bytes(s) + content_bytes(s) + trail_bytes(s) =~= joined_bytes(lead) + joined_bytes(
        ts.subrange(e + 1, bend),
    ));
}

/// Content against full text: the full text of a parsed scope, description or body is its
/// delimiters (`(`, `": "` or `"!: "`, the blank line), then exactly its value, then `)` for a
/// scope. The value holds none of the delimiter tokens.
pub proof fn lemma_content_drops_delimiters(text: Seq<char>, m: CommitMessage, s: Symbol)
    requires
        parses_to(text, Ok(m)),
        m.scope == Some(s) || m.description == Some(s) || m.body == Some(s),
    ensures
        span_bytes(s.all()) == lead_bytes(s) + content_bytes(s) + trail_bytes(s),
{
    let (ts, l) = parsed_layout(text, m);
    if m.scope == Some(s) {
        lemma_scope_delimiters(text, ts, s);
    } else if m.description == Some(s) {
        lemma_description_delimiters(
            text,
            ts,
            s,
            after_scope(l),
            l.bang,
            l.desc_start,
            l.desc_end,
        );
    } else {
        let e = l.desc_end;
        let bend = l.body_end->Some_0;
        lemma_line_end(ts, l.desc_start);
        assert(crate::grammar::body_spec(ts, e) == Ok::<Option<int>, crate::grammar::Failure>(l.body_end));
        lemma_scan_lines(ts, e + 1, false);
        lemma_body_delimiters(text, ts, s, e, bend);
    }
}


/// Index of the first special byte at or after `p`, or the length.
pub open spec fn word_end(b: Seq<u8>, p: int) -> int
    decreases b.len() - p,
{
    if p < 0 || p >= b.len() {
        b.len() as int
    } else if is_special(b[p]) {
        p
    } else {
        word_end(b, p + 1)
    }
}

/// The kind and end of the token that starts at byte `p`: a word runs to the next special
/// byte, and `": "`, `" #"` and `"\n\n"` are always taken as one token.
pub open spec fn token_at(b: Seq<u8>, p: int) -> (TokenType, int) {
    let c = b[p];
    let has_next = p + 1 < b.len();
    if !is_special(c) {
        (TokenType::Word, word_end(b, p))
    } else if c == COLON {
        if has_next && b[p + 1] == SPACE {
            (TokenType::ColonSpace, p + 2)
        } else {
            (TokenType::Colon, p + 1)
        }
    } else if c == SPACE {
        if has_next && b[p + 1] == HASH {
            (TokenType::SpaceHash, p + 2)
        } else {
            (TokenType::Space, p + 1)
        }
    } else if c == NEWLINE {
        if has_next && b[p + 1] == NEWLINE {
            (TokenType::SectionSeparator, p + 2)
        } else {
            (TokenType::NewLine, p + 1)
        }
    } else if c == BANG {
        (TokenType::Bang, p + 1)
    } else if c == HASH {
        (TokenType::Hash, p + 1)
    } else if c == PAREN_OPEN {
        (TokenType::ParenthesisOpen, p + 1)
    } else {
        (TokenType::ParenthesisClose, p + 1)
    }
}

proof fn lemma_word_end(b: Seq<u8>, lo: int, hi: int)
    requires
        0 <= lo <= hi <= b.len(),
        forall|j: int| lo <= j < hi ==> !is_special(#[trigger] b[j]),
        hi == b.len() || is_special(b[hi]),
    ensures
        word_end(b, lo) == hi,
    decreases hi - lo,
{
    if lo < hi {
        lemma_word_end(b, lo + 1, hi);
    }
}

/// Each token of a lexed text is the one that the greedy rule reads at its start.
pub proof fn lemma_token_is_greedy(text: Seq<char>, ts: Seq<Token>, k: int)
    requires
        lexes(text, ts),
        0 <= k < ts.len(),
    ensures
        token_at(bytes_of(text), ts[k].lo() as int) == (ts[k].kind(), ts[k].hi() as int),
{
    let b = bytes_of(text);
    let n = ts.len() as int;
    let t = ts[k];
    assert(token_ok(text, t));
    let lo = t.lo() as int;
    let hi = t.hi() as int;
    if k + 1 < n {
        assert(adjacent_ok(ts, k));
        assert(token_ok(text, ts[k + 1]));
        assert(ts[k + 1].lo() == hi);
        assert(hi < b.len());
    } else {
        assert(hi == b.len());
    }
    if t.kind() == TokenType::Word {
        lemma_word_end(b, lo, hi);
    }
}

/// Two tokens are alike: same kind, same place.
pub open spec fn same_place(x: Token, y: Token) -> bool {
    x.kind() == y.kind() && x.lo() == y.lo() && x.hi() == y.hi()
}

proof fn lemma_unique_upto(text: Seq<char>, xs: Seq<Token>, ys: Seq<Token>, k: int)
    requires
        lexes(text, xs),
        lexes(text, ys),
        0 <= k <= xs.len(),
        k <= ys.len(),
    ensures
        forall|j: int| 0 <= j < k ==> #[trigger] same_place(xs[j], ys[j]),
    decreases k,
{
    if k > 0 {
        lemma_unique_upto(text, xs, ys, k - 1);
        let j = k - 1;
        if j > 0 {
            assert(same_place(xs[j - 1], ys[j - 1]));
            assert(adjacent_ok(xs, j - 1));
            assert(adjacent_ok(ys, j - 1));
        }
        assert(xs[j].lo() == ys[j].lo());
        lemma_token_is_greedy(text, xs, j);
        lemma_token_is_greedy(text, ys, j);
    }
}

/// Lexing is deterministic: two token sequences of one text have the same tokens, of the same
/// kinds, in the same places.
pub proof fn lemma_lexing_is_unique(text: Seq<char>, xs: Seq<Token>, ys: Seq<Token>)
    requires
        lexes(text, xs),
        lexes(text, ys),
    ensures
        xs.len() == ys.len(),
        forall|j: int| 0 <= j < xs.len() ==> #[trigger] same_place(xs[j], ys[j]),
{
    let b = bytes_of(text);
    if xs.len() < ys.len() {
        let m = xs.len() as int;
        lemma_unique_upto(text, xs, ys, m);
        assert(token_ok(text, ys[m]));
        if m > 0 {
            assert(same_place(xs[m - 1], ys[m - 1]));
            assert(adjacent_ok(ys, m - 1));
        }
        assert(false);
    } else if ys.len() < xs.len() {
        let m = ys.len() as int;
        lemma_unique_upto(text, ys, xs, m);
        assert(token_ok(text, xs[m]));
        if m > 0 {
            assert(same_place(ys[m - 1], xs[m - 1]));
            assert(adjacent_ok(xs, m - 1));
        }
        assert(false);
    }
    lemma_unique_upto(text, xs, ys, xs.len() as int);
}

} // verus!
