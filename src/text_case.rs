//! Telling which naming convention a word follows.
use vstd::prelude::*;
use vstd::string::StringSliceAdditionalSpecFns;

verus! {

/// The naming convention that a piece of text follows.
#[derive(Clone, Copy, Debug, PartialEq, Eq, Structural)]
pub enum TextCase {
    Camel,
    Kebab,
    Lower,
    Pascal,
    Scream,
    Snake,
    Upper,
    Unknown,
}

pub open spec fn is_upper(b: u8) -> bool {
    0x41 <= b <= 0x5a
}

pub open spec fn is_lower(b: u8) -> bool {
    0x61 <= b <= 0x7a
}

/// The case after reading one more byte, given the case of what came before.
pub open spec fn next_case(c: TextCase, b: u8) -> TextCase {
    match c {
        TextCase::Upper => if is_upper(b) {
            TextCase::Upper
        } else if is_lower(b) {
            TextCase::Pascal
        } else if b == 0x5f || b == 0x20 {
            TextCase::Scream
        } else {
            TextCase::Unknown
        },
        TextCase::Lower => if is_upper(b) {
            TextCase::Camel
        } else if is_lower(b) {
            TextCase::Lower
        } else if b == 0x5f {
            TextCase::Snake
        } else if b == 0x2d {
            TextCase::Kebab
        } else {
            TextCase::Unknown
        },
        TextCase::Camel => if is_upper(b) || is_lower(b) {
            TextCase::Camel
        } else if b == 0x2d {
            TextCase::Kebab
        } else if b == 0x5f {
            TextCase::Snake
        } else {
            TextCase::Unknown
        },
        TextCase::Kebab => if b == 0x2d || is_lower(b) {
            TextCase::Kebab
        } else {
            TextCase::Unknown
        },
        TextCase::Pascal => if is_upper(b) || is_lower(b) {
            TextCase::Pascal
        } else if b == 0x5f {
            TextCase::Scream
        } else {
            TextCase::Unknown
        },
        TextCase::Scream => if is_upper(b) || b == 0x5f || b == 0x20 {
            TextCase::Scream
        } else {
            TextCase::Unknown
        },
        TextCase::Snake => if is_lower(b) || b == 0x5f {
            TextCase::Snake
        } else if is_upper(b) {
            TextCase::Scream
        } else {
            TextCase::Unknown
        },
        TextCase::Unknown => TextCase::Unknown,
    }
}

/// The case of a text, read byte by byte from its first letter.
pub open spec fn case_of(b: Seq<u8>) -> TextCase
    decreases b.len(),
{
    if b.len() <= 1 {
        if b.len() == 1 && is_upper(b[0]) {
            TextCase::Upper
        } else {
            TextCase::Lower
        }
    } else {
        next_case(case_of(b.drop_last()), b.last())
    }
}

fn step_case(c: TextCase, b: u8) -> (r: TextCase)
    ensures
        r == next_case(c, b),
{
    let upper = 0x41 <= b && b <= 0x5a;
    let lower = 0x61 <= b && b <= 0x7a;
    match c {
        TextCase::Upper => if upper {
            TextCase::Upper
        } else if lower {
            TextCase::Pascal
        } else if b == 0x5f || b == 0x20 {
            TextCase::Scream
        } else {
            TextCase::Unknown
        },
        TextCase::Lower => if upper {
            TextCase::Camel
        } else if lower {
            TextCase::Lower
        } else if b == 0x5f {
            TextCase::Snake
        } else if b == 0x2d {
            TextCase::Kebab
        } else {
            TextCase::Unknown
        },
        TextCase::Camel => if upper || lower {
            TextCase::Camel
        } else if b == 0x2d {
            TextCase::Kebab
        } else if b == 0x5f {
            TextCase::Snake
        } else {
            TextCase::Unknown
        },
        TextCase::Kebab => if b == 0x2d || lower {
            TextCase::Kebab
        } else {
            TextCase::Unknown
        },
        TextCase::Pascal => if upper || lower {
            TextCase::Pascal
        } else if b == 0x5f {
            TextCase::Scream
        } else {
            TextCase::Unknown
        },
        TextCase::Scream => if upper || b == 0x5f || b == 0x20 {
            TextCase::Scream
        } else {
            TextCase::Unknown
        },
        TextCase::Snake => if lower || b == 0x5f {
            TextCase::Snake
        } else if upper {
            TextCase::Scream
        } else {
            TextCase::Unknown
        },
        TextCase::Unknown => TextCase::Unknown,
    }
}

/// Tells which naming convention `content` follows. The text must start with an ASCII letter.
pub fn determine_text_case(content: &str) -> (r: TextCase)
    requires
        content.spec_bytes().len() > 0,
        is_upper(content.spec_bytes()[0]) || is_lower(content.spec_bytes()[0]),
    ensures
        r == case_of(content.spec_bytes()),
{
    let b: &[u8] = content.as_bytes();
    let ghost bs = content.spec_bytes();
    let mut found: TextCase = if 0x41 <= b[0] && b[0] <= 0x5a {
        TextCase::Upper
    } else {
        TextCase::Lower
    };
    let mut i: usize = 1;
    proof {
        assert(bs.subrange(0, 1).len() == 1);
    }
    while i < b.len()
        invariant
            b@ == bs,
            1 <= i <= bs.len(),
            found == case_of(bs.subrange(0, i as int)),
        decreases bs.len() - i,
    {
        proof {
            assert(bs.subrange(0, i + 1).drop_last() =~= bs.subrange(0, i as int));
        }
        found = step_case(found, b[i]);
        i = i + 1;
    }
    proof {
        assert(bs.subrange(0, i as int) =~= bs);
    }
    found
}

} // verus!
