//! What this crate takes on trust about the standard library.
//!
//! Verus has no specification of its own for the three functions below. The
//! contracts given here are assumed, not proved. Everything else in the crate
//! is proved, from these and from what Verus's own library states.

use vstd::prelude::*;

verus! {

/// What `char::is_whitespace` answers for `c`: whether `c` has Unicode's
/// `White_Space` property.
pub uninterp spec fn white_space(c: char) -> bool;

/// What `char::is_alphanumeric` answers for `c`: whether Unicode counts `c`
/// as alphabetic or numeric.
pub uninterp spec fn alphanumeric(c: char) -> bool;

/// `char::is_whitespace` tests Unicode's `White_Space` property. Up to U+007F
/// the characters that have it are U+0009 to U+000D (tab, line feed, vertical
/// tab, form feed, carriage return) and the space; which later characters
/// have it is left to `white_space`.
pub assume_specification[ char::is_whitespace ](c: char) -> (b: bool)
    ensures
        b == white_space(c),
        c <= '\x7f' ==> b == (c == ' ' || ('\t' <= c && c <= '\r')),
;

/// `char::is_alphanumeric` holds of the characters that Unicode counts as
/// alphabetic or numeric. Up to U+007F these are the letters `a` to `z` and
/// `A` to `Z` and the digits `0` to `9`; which later characters count is left
/// to `alphanumeric`.
pub assume_specification[ char::is_alphanumeric ](c: char) -> (b: bool)
    ensures
        b == alphanumeric(c),
        c <= '\x7f' ==> b == (('a' <= c && c <= 'z') || ('A' <= c && c <= 'Z') || ('0' <= c && c
            <= '9')),
;

/// `String::push` appends `c` to the end of the string and changes nothing
/// else.
pub assume_specification[ String::push ](text: &mut String, c: char)
    ensures
        final(text)@ == old(text)@.push(c),
;

} // verus!
