//! The executable codec: `encode` and `decode`, each proved to return
//! exactly what the model says.

use vstd::prelude::*;

use crate::alphabet::PAD;
use crate::alphabet::Sym;
use crate::alphabet::alpha_byte;
use crate::alphabet::classify_byte;
use crate::model::byte_or_zero;
use crate::model::dec_bytes;
use crate::model::decode_spec;
use crate::model::enc_vals;
use crate::model::encode_spec;
use crate::model::group_vals;
use crate::model::low_mask;
use crate::model::pad_chars;
use crate::model::scan_ok;
use crate::model::scan_vals;
use crate::model::sym_chars;
use crate::model::tail_syms;

verus! {

/// Every 5-bit value cut out of a 5-byte group is below 32, so each has a
/// symbol character.
pub proof fn lemma_group_vals_in_range(c0: u8, c1: u8, c2: u8, c3: u8, c4: u8)
    by (bit_vector)
    ensures
        c0 >> 3 < 32,
        (((c0 & 0x07) << 2) | (c1 >> 6)) < 32,
        ((c1 >> 1) & 0x1f) < 32,
        (((c1 & 0x01) << 4) | (c2 >> 4)) < 32,
        (((c2 & 0x0f) << 1) | (c3 >> 7)) < 32,
        ((c3 >> 2) & 0x1f) < 32,
        (((c3 & 0x03) << 3) | (c4 >> 5)) < 32,
        (c4 & 0x1f) < 32,
{
}

/// Encodes arbitrary bytes as base32 text: empty input gives empty output,
/// and any other input gives its symbol characters followed by `=` padding
/// up to a multiple of 8. Encoding cannot fail.
pub fn encode(data: &[u8]) -> (r: Vec<u8>)
    ensures
        r@ == encode_spec(data@),
{
    let n = data.len();
    let mut out: Vec<u8> = Vec::new();
    if n == 0 {
        return out;
    }
    let mut i: usize = 0;
    proof {
        assert(data@.skip(0) =~= data@);
        assert(out@ + sym_chars(enc_vals(data@)) =~= sym_chars(enc_vals(data@)));
    }
    while n - i >= 5
        invariant
            n == data@.len(),
            i <= n,
            sym_chars(enc_vals(data@)) == out@ + sym_chars(enc_vals(data@.skip(i as int))),
        decreases n - i,
    {
        let c0 = data[i];
        let c1 = data[i + 1];
        let c2 = data[i + 2];
        let c3 = data[i + 3];
        let c4 = data[i + 4];
        proof {
            lemma_group_vals_in_range(c0, c1, c2, c3, c4);
        }
        let ghost before = out@;
        out.push(alpha_byte(c0 >> 3));
        out.push(alpha_byte(((c0 & 0x07) << 2) | (c1 >> 6)));
        out.push(alpha_byte((c1 >> 1) & 0x1f));
        out.push(alpha_byte(((c1 & 0x01) << 4) | (c2 >> 4)));
        out.push(alpha_byte(((c2 & 0x0f) << 1) | (c3 >> 7)));
        out.push(alpha_byte((c3 >> 2) & 0x1f));
        out.push(alpha_byte(((c3 & 0x03) << 3) | (c4 >> 5)));
        out.push(alpha_byte(c4 & 0x1f));
        proof {
            let tail = data@.skip(i as int);
            let rest = enc_vals(data@.skip(i as int + 5));
            assert(tail.skip(5) =~= data@.skip(i as int + 5));
            assert(out@ =~= before + sym_chars(group_vals(c0, c1, c2, c3, c4)));
            assert(sym_chars(group_vals(c0, c1, c2, c3, c4) + rest) =~= sym_chars(
                group_vals(c0, c1, c2, c3, c4),
            ) + sym_chars(rest));
            assert((before + sym_chars(group_vals(c0, c1, c2, c3, c4))) + sym_chars(rest) =~= before
                + (sym_chars(group_vals(c0, c1, c2, c3, c4)) + sym_chars(rest)));
        }
        i += 5;
    }
    let t = n - i;
    if t > 0 {
        let c0 = data[i];
        let c1 = if t > 1 {
            data[i + 1]
        } else {
            0
        };
        let c2 = if t > 2 {
            data[i + 2]
        } else {
            0
        };
        let c3 = if t > 3 {
            data[i + 3]
        } else {
            0
        };
        proof {
            lemma_group_vals_in_range(c0, c1, c2, c3, 0);
            let tail = data@.skip(i as int);
            assert(byte_or_zero(tail, 1) == c1 && byte_or_zero(tail, 2) == c2 && byte_or_zero(
                tail,
                3,
            ) == c3);
            assert(enc_vals(tail) == group_vals(c0, c1, c2, c3, 0).take(
                tail_syms(tail.len()) as int,
            ));
        }
        let ghost before = out@;
        out.push(alpha_byte(c0 >> 3));
        out.push(alpha_byte(((c0 & 0x07) << 2) | (c1 >> 6)));
        if t > 1 {
            out.push(alpha_byte((c1 >> 1) & 0x1f));
            out.push(alpha_byte(((c1 & 0x01) << 4) | (c2 >> 4)));
        }
        if t > 2 {
            out.push(alpha_byte(((c2 & 0x0f) << 1) | (c3 >> 7)));
        }
        if t > 3 {
            out.push(alpha_byte((c3 >> 2) & 0x1f));
            // the low bits of the last symbol come from the absent fifth
            // byte, which the model takes as zero
            out.push(alpha_byte(((c3 & 0x03) << 3) | (0u8 >> 5)));
        }
        proof {
            assert(out@ =~= before + sym_chars(enc_vals(data@.skip(i as int))));
        }
    } else {
        proof {
            assert(data@.skip(i as int) =~= Seq::<u8>::empty());
            assert(sym_chars(enc_vals(Seq::<u8>::empty())) =~= Seq::<u8>::empty());
            assert(out@ + Seq::<u8>::empty() =~= out@);
        }
    }
    let rem = n % 5;
    let p: usize = if rem == 0 {
        0
    } else if rem == 1 {
        6
    } else if rem == 2 {
        4
    } else if rem == 3 {
        3
    } else {
        1
    };
    let mut j: usize = 0;
    while j < p
        invariant
            data@.len() > 0,
            p == pad_chars(data@.len() % 5),
            j <= p,
            out@ == sym_chars(enc_vals(data@)) + Seq::new(j as nat, |k: int| PAD),
        decreases p - j,
    {
        out.push(PAD);
        proof {
            assert(out@ =~= sym_chars(enc_vals(data@)) + Seq::new((j + 1) as nat, |k: int| PAD));
        }
        j += 1;
    }
    proof {
        assert(out@ =~= encode_spec(data@));
    }
    out
}

/// The mask that keeps the low `k` bits of the accumulator.
fn low_mask_u32(k: u32) -> (r: u32)
    requires
        k <= 4,
    ensures
        r == low_mask(k as nat),
{
    if k == 0 {
        0
    } else if k == 1 {
        1
    } else if k == 2 {
        3
    } else if k == 3 {
        7
    } else {
        15
    }
}

/// Decodes base32 text back into bytes. The input must be a non-zero
/// multiple of 8 bytes long, and every byte before the first `=` must be an
/// alphabet symbol; anything else is rejected with `None`, never with a
/// partial result. Bytes after the first `=` are not examined: padding ends
/// the symbol stream. The result is a function of the input sequence alone,
/// as the contract states, so repeated calls agree.
pub fn decode(data: &[u8]) -> (r: Option<Vec<u8>>)
    ensures
        match r {
            Some(v) => decode_spec(data@) == Some(v@),
            None => decode_spec(data@) == None::<Seq<u8>>,
        },
{
    let n = data.len();
    if n == 0 || n % 8 != 0 {
        return None;
    }
    let mut out: Vec<u8> = Vec::new();
    let mut acc: u32 = 0;
    let mut nbits: u32 = 0;
    let mut i: usize = 0;
    proof {
        assert(data@.skip(0) =~= data@);
        assert(out@ + dec_bytes(scan_vals(data@), 0, 0) =~= dec_bytes(scan_vals(data@), 0, 0));
    }
    while i < n
        invariant
            n == data@.len(),
            n % 8 == 0,
            n > 0,
            i <= n,
            nbits <= 7,
            scan_ok(data@) == scan_ok(data@.skip(i as int)),
            dec_bytes(scan_vals(data@), 0, 0) == out@ + dec_bytes(
                scan_vals(data@.skip(i as int)),
                acc,
                nbits as nat,
            ),
        decreases n - i,
    {
        let c = data[i];
        proof {
            assert(data@.skip(i as int).skip(1) =~= data@.skip(i as int + 1));
        }
        match classify_byte(c) {
            Sym::Invalid => {
                return None;
            },
            Sym::Padding => {
                proof {
                    assert(dec_bytes(scan_vals(data@.skip(i as int)), acc, nbits as nat)
                        == Seq::<u8>::empty());
                    assert(out@ + Seq::<u8>::empty() =~= out@);
                }
                return Some(out);
            },
            Sym::Value(v) => {
                let ghost rest_vals = scan_vals(data@.skip(i as int + 1));
                proof {
                    assert(scan_vals(data@.skip(i as int)) == seq![v] + rest_vals);
                    assert((seq![v] + rest_vals).skip(1) =~= rest_vals);
                }
                let a = (acc << 5) | (v as u32);
                if nbits + 5 >= 8 {
                    let sh = nbits + 5 - 8;
                    proof {
                        assert(((a >> sh) & 0xff) < 256) by (bit_vector);
                    }
                    let b = ((a >> sh) & 0xff) as u8;
                    let ghost before = out@;
                    out.push(b);
                    acc = a & low_mask_u32(sh);
                    nbits = sh;
                    proof {
                        assert(before + (seq![b] + dec_bytes(rest_vals, acc, nbits as nat)) =~= (
                        before + seq![b]) + dec_bytes(rest_vals, acc, nbits as nat));
                    }
                } else {
                    acc = a;
                    nbits = nbits + 5;
                }
            },
        }
        i += 1;
    }
    proof {
        assert(data@.skip(n as int) =~= Seq::<u8>::empty());
        assert(out@ + dec_bytes(scan_vals(Seq::<u8>::empty()), acc, nbits as nat) =~= out@);
    }
    Some(out)
}

} // verus!
