//! Character classification: whitespace, alphabetic and numeric characters.

use vstd::prelude::*;

verus! {

/// The Unicode `White_Space` code points, the characters that
/// `char::is_whitespace` recognises.
pub open spec fn spec_whitespace(c: char) -> bool {
    ||| c == '\t'
    ||| c == '\n'
    ||| c == '\u{b}'
    ||| c == '\u{c}'
    ||| c == '\r'
    ||| c == ' '
    ||| c == '\u{85}'
    ||| c == '\u{a0}'
    ||| c == '\u{1680}'
    ||| ('\u{2000}' <= c && c <= '\u{200a}')
    ||| c == '\u{2028}'
    ||| c == '\u{2029}'
    ||| c == '\u{202f}'
    ||| c == '\u{205f}'
    ||| c == '\u{3000}'
}

/// Whether a character is whitespace.
pub fn is_whitespace_char(c: char) -> (r: bool)
    ensures
        r == spec_whitespace(c),
{
    c == '\t' || c == '\n' || c == '\u{b}' || c == '\u{c}' || c == '\r' || c == ' '
        || c == '\u{85}' || c == '\u{a0}' || c == '\u{1680}'
        || ('\u{2000}' <= c && c <= '\u{200a}') || c == '\u{2028}' || c == '\u{2029}'
        || c == '\u{202f}' || c == '\u{205f}' || c == '\u{3000}'
}

/// What `char::is_alphabetic` returns on characters outside the ASCII
/// letter and digit ranges; it depends on the character alone.
pub uninterp spec fn alphabetic_ext(c: char) -> bool;

/// Whether a character starts an identifier lexeme.  ASCII letters do,
/// ASCII digits do not; elsewhere the Unicode `Alphabetic` property
/// decides, named here by `alphabetic_ext`.
pub open spec fn spec_alphabetic(c: char) -> bool {
    if ('a' <= c && c <= 'z') || ('A' <= c && c <= 'Z') {
        true
    } else if '0' <= c && c <= '9' {
        false
    } else {
        alphabetic_ext(c)
    }
}

/// What `char::is_numeric` returns on characters outside the ASCII digit
/// range; it depends on the character alone.
pub uninterp spec fn numeric_ext(c: char) -> bool;

/// Whether a character starts a numeric lexeme.  ASCII digits do;
/// elsewhere the Unicode numeric general categories decide, named here
/// by `numeric_ext`.
pub open spec fn spec_numeric(c: char) -> bool {
    if '0' <= c && c <= '9' {
        true
    } else {
        numeric_ext(c)
    }
}

/// Relies on `char::is_alphabetic`: ASCII letters are alphabetic, ASCII
/// digits are not, and the result depends on the character alone.
#[verifier::external_body]
pub(crate) fn char_alphabetic(c: char) -> (r: bool)
    ensures
        r == spec_alphabetic(c),
        !(('a' <= c && c <= 'z') || ('A' <= c && c <= 'Z') || ('0' <= c && c <= '9')) ==> r
            == alphabetic_ext(c),
{
    c.is_alphabetic()
}

/// Relies on `char::is_numeric`: ASCII digits are numeric, and the
/// result depends on the character alone.
#[verifier::external_body]
pub(crate) fn char_numeric(c: char) -> (r: bool)
    ensures
        r == spec_numeric(c),
        !('0' <= c && c <= '9') ==> r == numeric_ext(c),
{
    c.is_numeric()
}

} // verus!
