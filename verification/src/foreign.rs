//! Contracts for the functions of `std` and `nom` that the renderer calls and
//! that come without one. Nothing here is proved: each contract restates what
//! the function's documentation or source says.

use vstd::prelude::*;

verus! {

/// `nom::character::is_digit`: true exactly for the bytes `0x30..=0x39`, the
/// ASCII digits `0` to `9`.
pub assume_specification[ nom::character::is_digit ](chr: u8) -> (digit: bool)
    ensures
        digit == (0x30 <= chr && chr <= 0x39),
;

/// `u8::is_ascii_alphanumeric`: true exactly for the bytes of `0..=9`,
/// `A..=Z` and `a..=z`.
pub assume_specification[ u8::is_ascii_alphanumeric ](byte: &u8) -> (alnum: bool)
    ensures
        alnum == ((0x30 <= *byte && *byte <= 0x39) || (0x41 <= *byte && *byte <= 0x5a) || (0x61
            <= *byte && *byte <= 0x7a)),
;

/// `String::push`: appends one character to the end of the string.
pub assume_specification[ String::push ](text: &mut String, ch: char)
    ensures
        final(text)@ == old(text)@.push(ch),
;

} // verus!
