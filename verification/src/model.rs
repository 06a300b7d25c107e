//! The mathematical model of the codec: what `encode` returns for every
//! input, and what `decode` returns for every input, as functions on
//! sequences of bytes.

use vstd::prelude::*;

use crate::alphabet::PAD;
use crate::alphabet::Sym;
use crate::alphabet::alpha;
use crate::alphabet::classify;

verus! {

/// The number of symbol characters that a trailing partial group of `r`
/// bytes produces: its `8 * r` bits, rounded up to whole 5-bit symbols.
pub open spec fn tail_syms(r: nat) -> nat {
    if r == 1 {
        2
    } else if r == 2 {
        4
    } else if r == 3 {
        5
    } else if r == 4 {
        7
    } else {
        0
    }
}

/// The number of `=` characters that round the output of a non-empty input
/// whose length leaves remainder `r` modulo 5 up to a multiple of 8.
pub open spec fn pad_chars(r: nat) -> nat {
    if r == 1 {
        6
    } else if r == 2 {
        4
    } else if r == 3 {
        3
    } else if r == 4 {
        1
    } else {
        0
    }
}

/// The eight 5-bit values of one full 5-byte group, most significant bits
/// first: 40 bits split into 8 groups of 5.
pub open spec fn group_vals(c0: u8, c1: u8, c2: u8, c3: u8, c4: u8) -> Seq<u8> {
    seq![
        c0 >> 3,
        ((c0 & 0x07) << 2) | (c1 >> 6),
        (c1 >> 1) & 0x1f,
        ((c1 & 0x01) << 4) | (c2 >> 4),
        ((c2 & 0x0f) << 1) | (c3 >> 7),
        (c3 >> 2) & 0x1f,
        ((c3 & 0x03) << 3) | (c4 >> 5),
        c4 & 0x1f,
    ]
}

/// Byte `i` of `d`, or zero past the end: a trailing partial group is
/// encoded as if extended with zero bytes, whose zero bits fill the last
/// symbol.
pub open spec fn byte_or_zero(d: Seq<u8>, i: int) -> u8 {
    if 0 <= i < d.len() {
        d[i]
    } else {
        0
    }
}

/// The 5-bit values of the whole input: one group of eight values per full
/// 5-byte group, then the values of the zero-extended trailing group, cut
/// to the symbols its own bits reach into.
pub open spec fn enc_vals(d: Seq<u8>) -> Seq<u8>
    decreases d.len(),
{
    if d.len() >= 5 {
        group_vals(d[0], d[1], d[2], d[3], d[4]) + enc_vals(d.skip(5))
    } else if d.len() == 0 {
        Seq::empty()
    } else {
        group_vals(d[0], byte_or_zero(d, 1), byte_or_zero(d, 2), byte_or_zero(d, 3), 0).take(
            tail_syms(d.len()) as int,
        )
    }
}

/// The characters of a sequence of 5-bit values.
pub open spec fn sym_chars(vs: Seq<u8>) -> Seq<u8> {
    vs.map(|i: int, v: u8| alpha(v))
}

/// What `encode` returns: nothing for empty input; otherwise the symbol
/// characters of the input's 5-bit values, then `=` characters up to the
/// next multiple of 8.
pub open spec fn encode_spec(d: Seq<u8>) -> Seq<u8> {
    if d.len() == 0 {
        Seq::empty()
    } else {
        sym_chars(enc_vals(d)) + Seq::new(pad_chars(d.len() % 5), |i: int| PAD)
    }
}

/// True when every character before the first padding character is an
/// alphabet symbol. Characters after the first `=` are never examined:
/// padding ends the symbol stream.
pub open spec fn scan_ok(s: Seq<u8>) -> bool
    decreases s.len(),
{
    if s.len() == 0 {
        true
    } else {
        match classify(s[0]) {
            Sym::Value(v) => scan_ok(s.skip(1)),
            Sym::Padding => true,
            Sym::Invalid => false,
        }
    }
}

/// The 5-bit values of the symbols before the first padding or invalid
/// character.
pub open spec fn scan_vals(s: Seq<u8>) -> Seq<u8>
    decreases s.len(),
{
    if s.len() == 0 {
        Seq::empty()
    } else {
        match classify(s[0]) {
            Sym::Value(v) => seq![v] + scan_vals(s.skip(1)),
            Sym::Padding => Seq::empty(),
            Sym::Invalid => Seq::empty(),
        }
    }
}

/// The mask that keeps the low `k` bits of the decoder's accumulator. The
/// accumulator never keeps more than 4 bits between symbols.
pub open spec fn low_mask(k: nat) -> u32 {
    if k == 0 {
        0
    } else if k == 1 {
        1
    } else if k == 2 {
        3
    } else if k == 3 {
        7
    } else {
        15
    }
}

/// The bytes that the decoder's bit accumulator emits while it shifts in
/// one 5-bit value after another: whenever 8 or more bits are pending, the
/// top 8 become one output byte. Bits still pending when the values run out
/// are dropped; `decode_spec` explains why they are always zero then.
pub open spec fn dec_bytes(vals: Seq<u8>, acc: u32, nbits: nat) -> Seq<u8>
    decreases vals.len(),
{
    if vals.len() == 0 {
        Seq::empty()
    } else {
        let a = (acc << 5u32) | (vals[0] as u32);
        if nbits + 5 >= 8 {
            seq![(((a >> ((nbits + 5 - 8) as u32)) & 0xff) as u8)] + dec_bytes(
                vals.skip(1),
                a & low_mask((nbits + 5 - 8) as nat),
                (nbits + 5 - 8) as nat,
            )
        } else {
            dec_bytes(vals.skip(1), a, nbits + 5)
        }
    }
}

/// What `decode` returns: rejection unless the length is a non-zero
/// multiple of 8 and every character before the first `=` is an alphabet
/// symbol; otherwise the bytes the accumulator emits from those symbols.
///
/// No separate check on pending bits is needed at the end: when no padding
/// occurs the input holds a multiple of 8 symbols, so their bits divide
/// into whole bytes, and when padding occurs the symbol stream simply ends
/// there, the pending zero bits that the encoder appended being dropped.
pub open spec fn decode_spec(s: Seq<u8>) -> Option<Seq<u8>> {
    if s.len() == 0 || s.len() % 8 != 0 {
        None
    } else if !scan_ok(s) {
        None
    } else {
        Some(dec_bytes(scan_vals(s), 0, 0))
    }
}

} // verus!
