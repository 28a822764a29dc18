//! Classification of characters into whitespace, word characters
//! and punctuation, used by the word-boundary movement primitives
//! and by the wrap engine's break opportunities.

use vstd::prelude::*;

verus! {

/// Whether `c` has the Unicode White_Space property.
pub uninterp spec fn char_is_whitespace(c: char) -> bool;

/// Whether `c` is Unicode-alphabetic or numeric.
pub uninterp spec fn char_is_alphanumeric(c: char) -> bool;

/// Relies on char::is_whitespace: true exactly for chars with the
/// Unicode White_Space property; in particular true for space, tab,
/// line feed and carriage return, and false for ASCII letters,
/// digits and underscore.
#[verifier::external_body]
pub fn is_whitespace_char(c: char) -> (r: bool)
    ensures
        r == char_is_whitespace(c),
        (c == ' ' || c == '\t' || c == '\n' || c == '\r') ==> r,
        (('a' <= c && c <= 'z') || ('A' <= c && c <= 'Z') || ('0' <= c && c <= '9') || c == '_')
            ==> !r,
{
    c.is_whitespace()
}

/// Relies on char::is_alphanumeric: true exactly for Unicode
/// alphabetic or numeric chars; in particular true for ASCII
/// letters and digits, and false for space, tab, line feed,
/// carriage return and underscore.
#[verifier::external_body]
pub fn is_alphanumeric_char(c: char) -> (r: bool)
    ensures
        r == char_is_alphanumeric(c),
        (('a' <= c && c <= 'z') || ('A' <= c && c <= 'Z') || ('0' <= c && c <= '9')) ==> r,
        (c == ' ' || c == '\t' || c == '\n' || c == '\r' || c == '_') ==> !r,
{
    c.is_alphanumeric()
}

/// The three character classes of the word model. A word boundary
/// is any class transition except one out of whitespace, and a run
/// of punctuation is treated as a single word-like unit.
#[derive(Clone, Copy, PartialEq, Eq, Structural, Debug)]
pub enum CharKind {
    WhiteSpace,
    Word,
    Punctuation,
}

/// The class of `c`: whitespace first, then word characters
/// (alphanumeric or underscore), everything else punctuation.
pub open spec fn char_kind_of(c: char) -> CharKind {
    if char_is_whitespace(c) {
        CharKind::WhiteSpace
    } else if char_is_alphanumeric(c) || c == '_' {
        CharKind::Word
    } else {
        CharKind::Punctuation
    }
}

impl CharKind {
    pub fn kind(c: char) -> (r: CharKind)
        ensures
            r == char_kind_of(c),
    {
        if is_whitespace_char(c) {
            return CharKind::WhiteSpace;
        } else if is_alphanumeric_char(c) || c == '_' {
            return CharKind::Word;
        }

        CharKind::Punctuation
    }
}

} // verus!
