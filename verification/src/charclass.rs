//! Character classes of the token grammar.
//!
//! Two of the classes follow Unicode: whitespace, and the characters that may
//! continue a word. Up to U+007F every class is spelled out here, so that
//! statements about ASCII text can be proved outright. Beyond, the two follow
//! the standard library's report.

use vstd::prelude::*;
use crate::stdlib::{alphanumeric, white_space};

verus! {

/// The characters up to U+007F.
pub open spec fn is_ascii(c: char) -> bool {
    c <= '\x7f'
}

/// An ASCII letter, upper or lower case.
pub open spec fn is_ascii_letter(c: char) -> bool {
    ('a' <= c && c <= 'z') || ('A' <= c && c <= 'Z')
}

/// A decimal digit, `0` to `9`.
pub open spec fn is_digit(c: char) -> bool {
    '0' <= c && c <= '9'
}

/// Whitespace, which separates tokens and is otherwise ignored: U+0009 to
/// U+000D and the space, and beyond ASCII what Unicode marks as whitespace.
pub open spec fn is_blank(c: char) -> bool {
    if is_ascii(c) {
        c == ' ' || ('\t' <= c && c <= '\r')
    } else {
        white_space(c)
    }
}

/// A character that may begin a word: an ASCII letter or the underscore.
pub open spec fn is_word_start(c: char) -> bool {
    is_ascii_letter(c) || c == '_'
}

/// A character that may continue a word: the underscore, an ASCII letter or
/// digit, and beyond ASCII what Unicode counts as a letter or a number.
pub open spec fn is_word_part(c: char) -> bool {
    c == '_' || if is_ascii(c) {
        is_ascii_letter(c) || is_digit(c)
    } else {
        alphanumeric(c)
    }
}

/// One of the two operator characters, `=` and `;`.
pub open spec fn is_operator(c: char) -> bool {
    c == '=' || c == ';'
}

/// The classes of which the tokenizer reads whole runs.
pub enum CharClass {
    Whitespace,
    Word,
    Digit,
}

impl CharClass {
    /// Whether `c` belongs to the class.
    pub open spec fn contains(self, c: char) -> bool {
        match self {
            CharClass::Whitespace => is_blank(c),
            CharClass::Word => is_word_part(c),
            CharClass::Digit => is_digit(c),
        }
    }
}

} // verus!
