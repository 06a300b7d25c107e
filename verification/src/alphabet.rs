//! The base32 alphabet `A`-`Z`, `2`-`7`, its inverse, and the padding
//! character: the two constant tables of the codec, written as functions
//! from byte values to byte values.

use vstd::prelude::*;

verus! {

/// The padding character `=`.
pub const PAD: u8 = 61;

/// How the decoder reads one input byte: a 5-bit symbol value, the padding
/// marker, or a byte outside the alphabet.
pub enum Sym {
    Value(u8),
    Padding,
    Invalid,
}

/// The alphabet: the character that encodes the 5-bit value `v`, namely
/// `A`-`Z` for 0-25 and `2`-`7` for 26-31.
pub open spec fn alpha(v: u8) -> u8 {
    if v < 26 {
        (v + 65) as u8
    } else {
        (v + 24) as u8
    }
}

/// The inverse table: exactly the 32 alphabet bytes map to their 5-bit
/// value, `=` maps to the padding marker, and every other byte is invalid.
pub open spec fn classify(c: u8) -> Sym {
    if 65 <= c && c <= 90 {
        Sym::Value((c - 65) as u8)
    } else if 50 <= c && c <= 55 {
        Sym::Value(((c - 50) + 26) as u8)
    } else if c == PAD {
        Sym::Padding
    } else {
        Sym::Invalid
    }
}

/// The symbol character of the 5-bit value `v`.
pub fn alpha_byte(v: u8) -> (r: u8)
    requires
        v < 32,
    ensures
        r == alpha(v),
{
    if v < 26 {
        v + 65
    } else {
        v + 24
    }
}

/// Looks one input byte up in the inverse table.
pub fn classify_byte(c: u8) -> (r: Sym)
    ensures
        r == classify(c),
{
    if 65 <= c && c <= 90 {
        Sym::Value(c - 65)
    } else if 50 <= c && c <= 55 {
        Sym::Value((c - 50) + 26)
    } else if c == PAD {
        Sym::Padding
    } else {
        Sym::Invalid
    }
}

/// The inverse table inverts the alphabet: looking up the character of a
/// 5-bit value gives that value back, and never the padding marker.
pub proof fn lemma_classify_alpha(v: u8)
    requires
        v < 32,
    ensures
        classify(alpha(v)) == Sym::Value(v),
        alpha(v) != PAD,
{
}

} // verus!
