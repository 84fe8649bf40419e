//! A cursor over tokens with unlimited look-ahead.
use itertools::{Itertools, MultiPeek};
use std::vec::IntoIter;
use vstd::prelude::*;

use crate::grammar::{is_line_break, line_end};
use crate::token::{Token, TokenType};

verus! {

#[verifier::external_type_specification]
#[verifier::external_body]
#[verifier::reject_recursive_types(I)]
pub struct ExMultiPeek<I: Iterator>(MultiPeek<I>);

/// The items that a peeking cursor has not handed out through `next` yet, in order.
pub uninterp spec fn pending(s: MultiPeek<IntoIter<usize>>) -> Seq<usize>;

/// How many pending items the cursor has peeked at since the last `next` or `reset_peek`.
pub uninterp spec fn peeked(s: MultiPeek<IntoIter<usize>>) -> nat;

/// Relies on `itertools::multipeek`: the cursor yields the vector's items in order and has
/// peeked at none.
#[verifier::external_body]
fn start_cursor(v: Vec<usize>) -> (r: MultiPeek<IntoIter<usize>>)
    ensures
        pending(r) == v@,
        peeked(r) == 0,
{
    itertools::multipeek(v)
}

/// Relies on `MultiPeek::next`: it hands out the first pending item, if any, and resets the
/// peek position.
#[verifier::external_body]
fn cursor_next(s: &mut MultiPeek<IntoIter<usize>>) -> (r: Option<usize>)
    ensures
        peeked(*final(s)) == 0,
        pending(*old(s)).len() == 0 ==> r is None && pending(*final(s)) == pending(*old(s)),
        pending(*old(s)).len() > 0 ==> r == Some(pending(*old(s))[0]) && pending(*final(s))
            == pending(*old(s)).drop_first(),
    no_unwind
{
    s.next()
}

/// Relies on `MultiPeek::peek`: it shows the pending item at the peek position and moves the
/// position on, or returns `None` past the end; nothing is handed out.
#[verifier::external_body]
fn cursor_peek(s: &mut MultiPeek<IntoIter<usize>>) -> (r: Option<usize>)
    ensures
        pending(*final(s)) == pending(*old(s)),
        peeked(*old(s)) < pending(*old(s)).len() ==> r == Some(pending(*old(s))[peeked(*old(s)) as int])
            && peeked(*final(s)) == peeked(*old(s)) + 1,
        peeked(*old(s)) >= pending(*old(s)).len() ==> r is None && peeked(*final(s)) == peeked(*old(s)),
    no_unwind
{
    s.peek().copied()
}

/// Relies on `MultiPeek::reset_peek`: it moves the peek position back to the first pending item.
#[verifier::external_body]
fn cursor_reset(s: &mut MultiPeek<IntoIter<usize>>)
    ensures
        pending(*final(s)) == pending(*old(s)),
        peeked(*final(s)) == 0,
    no_unwind
{
    s.reset_peek()
}

/// The token at index `i` of `ts` is a line break.
pub open spec fn index_ends_line(ts: Seq<Token>, i: usize) -> bool {
    i < ts.len() && is_line_break(ts[i as int].kind())
}

/// Whether the token at index `i` is a line break.
pub fn ends_line(tokens: &Vec<Token>, i: usize) -> (r: bool)
    ensures
        r == index_ends_line(tokens@, i),
{
    if i < tokens.len() {
        let k = tokens[i].token_type();
        k == TokenType::NewLine || k == TokenType::SectionSeparator
    } else {
        false
    }
}

/// Relies on `Itertools::take_while_ref` on a `MultiPeek`: it hands out pending items up to,
/// not including, the first one at which the test fails, which stays pending. The test here
/// is `ends_line`, negated.
#[verifier::external_body]
fn cursor_take_line(s: &mut MultiPeek<IntoIter<usize>>, tokens: &Vec<Token>) -> (r: Vec<usize>)
    ensures
        r@.len() <= pending(*old(s)).len(),
        r@ == pending(*old(s)).take(r@.len() as int),
        pending(*final(s)) == pending(*old(s)).skip(r@.len() as int),
        forall|j: int| 0 <= j < r@.len() ==> !index_ends_line(tokens@, #[trigger] r@[j]),
        r@.len() < pending(*old(s)).len() ==> index_ends_line(
            tokens@,
            pending(*old(s))[r@.len() as int],
        ),
        peeked(*final(s)) <= pending(*final(s)).len(),
    no_unwind
{
    s.take_while_ref(|i: &usize| !ends_line(tokens, *i)).collect()
}

/// A cursor over a token sequence: `next` consumes, `peek` looks further ahead each time it is
/// called, and `reset_peek` moves the look-ahead back to the first unconsumed token.
pub struct TokenStream {
    tokens: Vec<Token>,
    cursor: MultiPeek<IntoIter<usize>>,
}

impl TokenStream {
    /// The whole token sequence, consumed or not.
    pub closed spec fn items(&self) -> Seq<Token> {
        self.tokens@
    }

    /// Index of the first token not consumed yet.
    pub closed spec fn pos(&self) -> nat {
        (self.tokens@.len() - pending(self.cursor).len()) as nat
    }

    /// Index of the token that the next `peek` shows.
    pub closed spec fn peek_pos(&self) -> nat {
        self.pos() + peeked(self.cursor)
    }

    #[verifier::type_invariant]
    spec fn well_formed(&self) -> bool {
        let p = pending(self.cursor);
        let n = self.tokens@.len();
        &&& p.len() <= n
        &&& peeked(self.cursor) <= p.len()
        &&& forall|j: int| 0 <= j < p.len() ==> #[trigger] p[j] == n - p.len() + j
    }

    /// Bounds that every stream keeps.
    pub fn check(&self)
        ensures
            self.pos() <= self.peek_pos() <= self.items().len(),
    {
        proof {
            use_type_invariant(self);
        }
    }

    /// A stream at the start of `tokens`.
    pub fn new(tokens: Vec<Token>) -> (r: TokenStream)
        ensures
            r.items() == tokens@,
            r.pos() == 0,
            r.peek_pos() == 0,
    {
        let n = tokens.len();
        let mut indices: Vec<usize> = Vec::new();
        let mut i: usize = 0;
        while i < n
            invariant
                i <= n,
                indices@.len() == i,
                forall|j: int| 0 <= j < i ==> #[trigger] indices@[j] == j,
            decreases n - i,
        {
            indices.push(i);
            i = i + 1;
        }
        let cursor = start_cursor(indices);
        TokenStream { tokens, cursor }
    }

    /// Consumes the next token.
    pub fn next(&mut self) -> (r: Option<Token>)
        ensures
            final(self).items() == old(self).items(),
            final(self).peek_pos() == final(self).pos(),
            old(self).pos() < old(self).items().len() ==> r == Some(old(self).items()[old(self).pos() as int])
                && final(self).pos() == old(self).pos() + 1,
            old(self).pos() >= old(self).items().len() ==> r is None && final(self).pos() == old(self).pos(),
    {
        proof {
            use_type_invariant(&*self);
        }
        let r = cursor_next(&mut self.cursor);
        match r {
            Some(i) => Some(self.tokens[i].clone()),
            None => None,
        }
    }

    /// Shows the token at the look-ahead position and moves that position on.
    pub fn peek(&mut self) -> (r: Option<Token>)
        ensures
            final(self).items() == old(self).items(),
            final(self).pos() == old(self).pos(),
            old(self).peek_pos() < old(self).items().len() ==> r == Some(
                old(self).items()[old(self).peek_pos() as int],
            ) && final(self).peek_pos() == old(self).peek_pos() + 1,
            old(self).peek_pos() >= old(self).items().len() ==> r is None && final(self).peek_pos()
                == old(self).peek_pos(),
    {
        proof {
            use_type_invariant(&*self);
        }
        let r = cursor_peek(&mut self.cursor);
        proof {
            let p = pending(old(self).cursor);
            if peeked(old(self).cursor) < p.len() {
                assert(p[peeked(old(self).cursor) as int] == old(self).peek_pos());
            }
        }
        match r {
            Some(i) => Some(self.tokens[i].clone()),
            None => None,
        }
    }

    /// Moves the look-ahead position back to the first unconsumed token.
    pub fn reset_peek(&mut self)
        ensures
            final(self).items() == old(self).items(),
            final(self).pos() == old(self).pos(),
            final(self).peek_pos() == old(self).pos(),
    {
        proof {
            use_type_invariant(&*self);
        }
        cursor_reset(&mut self.cursor);
    }

    /// Consumes tokens up to, not including, the next line break or the end of the input.
    pub fn take_line(&mut self) -> (r: Vec<Token>)
        ensures
            final(self).items() == old(self).items(),
            final(self).pos() == line_end(old(self).items(), old(self).pos() as int),
            r@ == old(self).items().subrange(old(self).pos() as int, final(self).pos() as int),
    {
        proof {
            use_type_invariant(&*self);
        }
        let ghost ts = self.tokens@;
        let ghost p = self.pos() as int;
        let ghost pend = pending(self.cursor);
        let indices = cursor_take_line(&mut self.cursor, &self.tokens);
        let ghost k = indices@.len() as int;
        proof {
            assert forall|j: int| 0 <= j < k implies indices@[j] == p + j by {
                assert(indices@[j] == pend[j]);
            }
            assert forall|j: int| p <= j < p + k implies !is_line_break(#[trigger] ts[j].kind()) by {
                assert(!index_ends_line(ts, indices@[j - p]));
                assert(indices@[j - p] == p + (j - p));
            }
            if k < pend.len() {
                assert(pend[k] == p + k);
            }
            lemma_line_end_at(ts, p, p + k);
        }
        let mut r: Vec<Token> = Vec::new();
        let mut i: usize = 0;
        while i < indices.len()
            invariant
                self.tokens@ == ts,
                0 <= p,
                p + k <= ts.len(),
                indices@.len() == k,
                forall|j: int| 0 <= j < k ==> #[trigger] indices@[j] == p + j,
                i <= k,
                r@ == ts.subrange(p, p + i),
            decreases k - i,
        {
            let t = self.tokens[indices[i]].clone();
            r.push(t);
            proof {
                assert(ts.subrange(p, p + i + 1) =~= ts.subrange(p, p + i).push(ts[p + i]));
            }
            i = i + 1;
        }
        r
    }
}

/// A line starting at `p` ends at `q` when no token in between is a line break and `q` is
/// one, or the end.
proof fn lemma_line_end_at(ts: Seq<Token>, p: int, q: int)
    requires
        0 <= p <= q <= ts.len(),
        forall|j: int| p <= j < q ==> !is_line_break(#[trigger] ts[j].kind()),
        q < ts.len() ==> is_line_break(ts[q].kind()),
    ensures
        line_end(ts, p) == q,
    decreases q - p,
{
    if p < q {
        lemma_line_end_at(ts, p + 1, q);
    }
}

} // verus!
