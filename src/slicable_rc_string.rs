//! Views into one shared, immutable string.
use std::ops::Range;
use std::rc::Rc;
use vstd::prelude::*;
use vstd::string::StringSliceAdditionalSpecFns;
use vstd::utf8::*;

verus! {

broadcast use vstd::string::group_string_axioms;

/// Relies on `Rc::clone`: the result is a new handle to the same string.
#[verifier::external_body]
pub(crate) fn share(r: &Rc<String>) -> (res: Rc<String>)
    ensures
        res == *r,
{
    Rc::clone(r)
}

/// The UTF-8 bytes of a character sequence.
pub open spec fn bytes_of(text: Seq<char>) -> Seq<u8> {
    encode_utf8(text)
}

/// An ASCII byte of valid UTF-8 starts a character, and so does the byte after it.
pub proof fn lemma_ascii_byte_boundaries(b: Seq<u8>, i: int)
    requires
        valid_utf8(b),
        0 <= i < b.len(),
        b[i] < 0x80,
    ensures
        is_char_boundary(b, i),
        is_char_boundary(b, i + 1),
    decreases b.len(),
{
    is_char_boundary_iff_not_is_continuation_byte(b, i);
    let l = length_of_first_scalar(b);
    if i < l {
        if i > 0 {
            assert(is_continuation_byte(b[i]));
        }
        assert(l == 1);
        reveal_with_fuel(is_char_boundary, 2);
    } else {
        let rest = pop_first_scalar(b);
        assert(rest[i - l] == b[i]);
        lemma_ascii_byte_boundaries(rest, i - l);
        reveal_with_fuel(is_char_boundary, 2);
    }
}


/// A view into one shared, immutable string: the string itself and a byte range of it.
/// Cloning and slicing share the string; only `value` copies characters out.
#[derive(Debug)]
pub struct SlicableRcString {
    string: Rc<String>,
    span: Range<usize>,
}

impl SlicableRcString {
    /// The whole shared string.
    pub closed spec fn text(&self) -> Seq<char> {
        self.string@
    }

    /// Absolute byte offset where the view starts.
    pub closed spec fn lo(&self) -> nat {
        self.span.start as nat
    }

    /// Absolute byte offset where the view ends (exclusive).
    pub closed spec fn hi(&self) -> nat {
        self.span.end as nat
    }

    /// The bytes that the view covers.
    pub open spec fn view_bytes(&self) -> Seq<u8> {
        bytes_of(self.text()).subrange(self.lo() as int, self.hi() as int)
    }

    #[verifier::type_invariant]
    spec fn well_formed(&self) -> bool {
        let b = bytes_of(self.string@);
        &&& self.span.start <= self.span.end <= b.len()
        &&& is_char_boundary(b, self.span.start as int)
        &&& is_char_boundary(b, self.span.end as int)
    }

    /// What every view satisfies: its range lies on character boundaries of the string.
    pub open spec fn valid_range(&self) -> bool {
        &&& self.lo() <= self.hi() <= bytes_of(self.text()).len()
        &&& valid_utf8(bytes_of(self.text()))
        &&& is_char_boundary(bytes_of(self.text()), self.lo() as int)
        &&& is_char_boundary(bytes_of(self.text()), self.hi() as int)
    }

    /// A view over the whole string.
    pub fn new(string: Rc<String>) -> (r: Self)
        ensures
            r.text() == string@,
            r.lo() == 0,
            r.hi() == bytes_of(string@).len(),
    {
        let whole: &str = string.as_str();
        let n = whole.as_bytes().len();
        proof {
            assert(whole@ == string@);
            encode_utf8_valid_utf8(string@);
            is_char_boundary_start_end_of_seq(bytes_of(string@));
        }
        SlicableRcString { string, span: Range { start: 0, end: n } }
    }

    /// A sub-view; `range` counts from the start of this view.
    pub fn substr(&self, range: Range<usize>) -> (r: Self)
        requires
            range.start <= range.end,
            self.lo() + range.end <= self.hi(),
            is_char_boundary(bytes_of(self.text()), self.lo() + range.start),
            is_char_boundary(bytes_of(self.text()), self.lo() + range.end),
        ensures
            r.text() == self.text(),
            r.lo() == self.lo() + range.start,
            r.hi() == self.lo() + range.end,
    {
        proof {
            use_type_invariant(self);
        }
        SlicableRcString {
            string: share(&self.string),
            span: Range { start: self.span.start + range.start, end: self.span.start + range.end },
        }
    }

    pub fn start_index(&self) -> (r: usize)
        ensures
            r == self.lo(),
            self.valid_range(),
    {
        proof {
            use_type_invariant(self);
            encode_utf8_valid_utf8(self.string@);
        }
        self.span.start
    }

    pub fn end_index(&self) -> (r: usize)
        ensures
            r == self.hi(),
            self.valid_range(),
    {
        proof {
            use_type_invariant(self);
            encode_utf8_valid_utf8(self.string@);
        }
        self.span.end
    }

    pub fn len(&self) -> (r: usize)
        ensures
            r == self.hi() - self.lo(),
    {
        proof {
            use_type_invariant(self);
        }
        self.span.end - self.span.start
    }

    pub fn is_empty(&self) -> (r: bool)
        ensures
            r == (self.hi() == self.lo()),
    {
        self.len() == 0
    }

    /// Copies the characters of the view out into a new string.
    pub fn value(&self) -> (r: String)
        ensures
            bytes_of(r@) == self.view_bytes(),
            r@ == decode_utf8(self.view_bytes()),
    {
        proof {
            use_type_invariant(self);
            encode_utf8_valid_utf8(self.string@);
        }
        let whole: &str = self.string.as_str();
        let (head, _) = whole.split_at(self.span.end);
        proof {
            let b = bytes_of(self.string@);
            assert(head.spec_bytes() =~= b.subrange(0, self.span.end as int));
            valid_utf8_split(b, self.span.end as int);
            assert(is_char_boundary(head.spec_bytes(), self.span.start as int)) by {
                lemma_boundary_in_prefix(b, self.span.end as int, self.span.start as int);
            }
        }
        let (_, piece) = head.split_at(self.span.start);
        proof {
            assert(piece.spec_bytes() =~= self.view_bytes());
            encode_utf8_decode_utf8(piece@);
        }
        piece.to_owned()
    }

    /// A view of the same string at absolute byte offsets.
    pub fn super_slice(&self, span: Range<usize>) -> (r: Self)
        requires
            span.start <= span.end <= bytes_of(self.text()).len(),
            is_char_boundary(bytes_of(self.text()), span.start as int),
            is_char_boundary(bytes_of(self.text()), span.end as int),
        ensures
            r.text() == self.text(),
            r.lo() == span.start,
            r.hi() == span.end,
    {
        SlicableRcString { string: share(&self.string), span }
    }
}

impl Clone for SlicableRcString {
    fn clone(&self) -> (r: Self)
        ensures
            r == *self,
    {
        proof {
            use_type_invariant(self);
        }
        SlicableRcString {
            string: share(&self.string),
            span: Range { start: self.span.start, end: self.span.end },
        }
    }
}

impl PartialEq for SlicableRcString {
    /// Two views are equal when they cover the same characters, wherever they point.
    fn eq(&self, other: &SlicableRcString) -> (r: bool)
        ensures
            r == (self.view_bytes() == other.view_bytes()),
    {
        proof {
            use_type_invariant(self);
            use_type_invariant(other);
        }
        let a: &[u8] = self.string.as_str().as_bytes();
        let b: &[u8] = other.string.as_str().as_bytes();
        let n = self.span.end - self.span.start;
        if n != other.span.end - other.span.start {
            proof {
                assert(self.view_bytes().len() != other.view_bytes().len());
            }
            return false;
        }
        let mut i: usize = 0;
        while i < n
            invariant
                a@ == bytes_of(self.text()),
                b@ == bytes_of(other.text()),
                n == self.hi() - self.lo(),
                n == other.hi() - other.lo(),
                self.hi() <= a@.len(),
                other.hi() <= b@.len(),
                i <= n,
                forall|j: int| 0 <= j < i ==> self.view_bytes()[j] == other.view_bytes()[j],
            decreases n - i,
        {
            if a[self.span.start + i] != b[other.span.start + i] {
                proof {
                    assert(self.view_bytes()[i as int] != other.view_bytes()[i as int]);
                }
                return false;
            }
            i = i + 1;
        }
        proof {
            assert(self.view_bytes() =~= other.view_bytes());
        }
        true
    }
}

impl vstd::std_specs::cmp::PartialEqSpecImpl for SlicableRcString {
    open spec fn obeys_eq_spec() -> bool {
        true
    }

    open spec fn eq_spec(&self, other: &SlicableRcString) -> bool {
        self.view_bytes() == other.view_bytes()
    }
}

/// A boundary of a valid string that lies before a boundary `k` is a boundary of the first `k` bytes.
pub proof fn lemma_boundary_in_prefix(b: Seq<u8>, k: int, i: int)
    requires
        valid_utf8(b),
        is_char_boundary(b, k),
        is_char_boundary(b, i),
        0 <= i <= k,
    ensures
        is_char_boundary(b.subrange(0, k), i),
    decreases b.len(),
{
    valid_utf8_split(b, k);
    if i == 0 {
    } else {
        reveal_with_fuel(is_char_boundary, 2);
        let l = length_of_first_scalar(b);
        let p = b.subrange(0, k);
        assert(pop_first_scalar(b).subrange(0, k - l) =~= pop_first_scalar(p));
        lemma_boundary_in_prefix(pop_first_scalar(b), k - l, i - l);
    }
}

} // verus!
