//! The URL-safe base64 alphabet that consent strings are written in.

use vstd::prelude::*;

verus! {

/// The ways in which a consent string can fail to decode.
#[derive(Debug, Clone, Copy, PartialEq, Eq, Structural)]
pub enum DecodeError {
    /// A character outside the URL-safe base64 alphabet.
    InvalidCharacter,
    /// A read asked for bits past the end of the input.
    TruncatedInput,
    /// A field holds a value outside the range it may take.
    OutOfRange,
}

/// The 6-bit value of a character of the URL-safe base64 alphabet.
pub open spec fn sextet(c: char) -> Option<u8> {
    let x = c as u32;
    if 65 <= x <= 90 {
        Some((x - 65) as u8)
    } else if 97 <= x <= 122 {
        Some((x - 97 + 26) as u8)
    } else if 48 <= x <= 57 {
        Some((x - 48 + 52) as u8)
    } else if x == 45 {
        Some(62u8)
    } else if x == 95 {
        Some(63u8)
    } else {
        None
    }
}

/// Maps a character to its 6-bit value, or `None` where it is not in the alphabet.
pub fn decode(c: char) -> (r: Option<u8>)
    ensures
        r == sextet(c),
        r matches Some(v) ==> v < 64,
{
    let x = c as u32;
    if 65 <= x && x <= 90 {
        Some((x - 65) as u8)
    } else if 97 <= x && x <= 122 {
        Some((x - 97 + 26) as u8)
    } else if 48 <= x && x <= 57 {
        Some((x - 48 + 52) as u8)
    } else if x == 45 {
        Some(62)
    } else if x == 95 {
        Some(63)
    } else {
        None
    }
}

} // verus!
