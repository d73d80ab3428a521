//! Character classification: each input symbol falls in exactly one
//! class, and only the class matters to the grammar transition.

use vstd::prelude::*;

verus! {

/// The character classes the grammar distinguishes.
#[derive(Debug, Clone, Copy, PartialEq, Eq, Hash, Structural)]
pub enum SpecialChar {
    /// `\` (code 0x5c)
    Backslash,
    /// `"` (code 0x22)
    DoubleQuote,
    /// `{` (code 0x7b)
    OpenBrace,
    /// `}` (code 0x7d)
    CloseBrace,
    /// `:` (code 0x3a)
    Colon,
    /// `,` (code 0x2c)
    Comma,
    /// Any white-space character.
    WhiteSpace,
    /// A decimal digit or `.`.
    Numeric,
    /// Everything else.
    Other,
}

/// The Unicode White_Space code points (the set `char::is_whitespace`
/// recognises), written out.
pub open spec fn spec_white_space(u: u32) -> bool {
    ||| u == 0x09
    ||| u == 0x0a
    ||| u == 0x0b
    ||| u == 0x0c
    ||| u == 0x0d
    ||| u == 0x20
    ||| u == 0x85
    ||| u == 0xa0
    ||| u == 0x1680
    ||| (0x2000 <= u && u <= 0x200a)
    ||| u == 0x2028
    ||| u == 0x2029
    ||| u == 0x202f
    ||| u == 0x205f
    ||| u == 0x3000
}

/// The class of a character: total and deterministic.
pub open spec fn classify(c: char) -> SpecialChar {
    let u = c as u32;
    if u == 0x5c {
        SpecialChar::Backslash
    } else if u == 0x22 {
        SpecialChar::DoubleQuote
    } else if u == 0x7b {
        SpecialChar::OpenBrace
    } else if u == 0x7d {
        SpecialChar::CloseBrace
    } else if u == 0x3a {
        SpecialChar::Colon
    } else if u == 0x2c {
        SpecialChar::Comma
    } else if spec_white_space(u) {
        SpecialChar::WhiteSpace
    } else if (0x30 <= u && u <= 0x39) || u == 0x2e {
        SpecialChar::Numeric
    } else {
        SpecialChar::Other
    }
}

/// The class of a single-byte symbol.
pub open spec fn byte_class(j: u8) -> SpecialChar {
    classify(j as char)
}

/// Every class is realised by some single-byte symbol, so the
/// transition table's 256 inputs exercise the whole alphabet of
/// classes.
pub proof fn lemma_class_witness(c: SpecialChar)
    ensures
        exists|j: u8| #[trigger] byte_class(j) == c,
{
    match c {
        SpecialChar::Backslash => {
            assert(byte_class(0x5c) == c);
        },
        SpecialChar::DoubleQuote => {
            assert(byte_class(0x22) == c);
        },
        SpecialChar::OpenBrace => {
            assert(byte_class(0x7b) == c);
        },
        SpecialChar::CloseBrace => {
            assert(byte_class(0x7d) == c);
        },
        SpecialChar::Colon => {
            assert(byte_class(0x3a) == c);
        },
        SpecialChar::Comma => {
            assert(byte_class(0x2c) == c);
        },
        SpecialChar::WhiteSpace => {
            assert(byte_class(0x20) == c);
        },
        SpecialChar::Numeric => {
            assert(byte_class(0x30) == c);
        },
        SpecialChar::Other => {
            assert(byte_class(0x61) == c);
        },
    }
}

impl SpecialChar {
    /// Classifies one character.
    pub fn from(ch: char) -> (sc: SpecialChar)
        ensures
            sc == classify(ch),
    {
        let u = ch as u32;
        if u == 0x5c {
            SpecialChar::Backslash
        } else if u == 0x22 {
            SpecialChar::DoubleQuote
        } else if u == 0x7b {
            SpecialChar::OpenBrace
        } else if u == 0x7d {
            SpecialChar::CloseBrace
        } else if u == 0x3a {
            SpecialChar::Colon
        } else if u == 0x2c {
            SpecialChar::Comma
        } else if u == 0x09 || u == 0x0a || u == 0x0b || u == 0x0c || u == 0x0d || u == 0x20
            || u == 0x85 || u == 0xa0 || u == 0x1680 || (0x2000 <= u && u <= 0x200a)
            || u == 0x2028 || u == 0x2029 || u == 0x202f || u == 0x205f || u == 0x3000 {
            SpecialChar::WhiteSpace
        } else if (0x30 <= u && u <= 0x39) || u == 0x2e {
            SpecialChar::Numeric
        } else {
            SpecialChar::Other
        }
    }
}

} // verus!
