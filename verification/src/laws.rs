//! The laws of the codec: encoding followed by decoding gives the input
//! back, the encoded length is the smallest fitting multiple of 8, and the
//! empty input is the one asymmetric case.

use vstd::prelude::*;

use crate::alphabet::PAD;
use crate::alphabet::Sym;
use crate::alphabet::alpha;
use crate::alphabet::classify;
use crate::alphabet::lemma_classify_alpha;
use crate::codec::lemma_group_vals_in_range;
use crate::model::byte_or_zero;
use crate::model::dec_bytes;
use crate::model::decode_spec;
use crate::model::enc_vals;
use crate::model::encode_spec;
use crate::model::group_vals;
use crate::model::low_mask;
use crate::model::pad_chars;
use crate::model::scan_ok;
use crate::model::scan_vals;
use crate::model::sym_chars;
use crate::model::tail_syms;

verus! {

/// Every value in the sequence fits in 5 bits.
pub open spec fn all_syms(vs: Seq<u8>) -> bool {
    forall|j: int| 0 <= j < vs.len() ==> vs[j] < 32
}

/// Every 5-bit value the encoder produces fits in 5 bits.
proof fn lemma_enc_vals_in_range(d: Seq<u8>)
    ensures
        all_syms(enc_vals(d)),
    decreases d.len(),
{
    if d.len() >= 5 {
        lemma_group_vals_in_range(d[0], d[1], d[2], d[3], d[4]);
        lemma_enc_vals_in_range(d.skip(5));
        assert forall|j: int| 0 <= j < enc_vals(d).len() implies enc_vals(d)[j] < 32 by {
            if j >= 8 {
                assert(enc_vals(d)[j] == enc_vals(d.skip(5))[j - 8]);
            }
        }
    } else if d.len() == 0 {
    } else {
        lemma_group_vals_in_range(
            d[0],
            byte_or_zero(d, 1),
            byte_or_zero(d, 2),
            byte_or_zero(d, 3),
            0,
        );
    }
}

/// Scanning the symbol characters of 5-bit values, followed by padding or
/// by nothing, accepts them and reads the same values back.
proof fn lemma_scan_syms(vs: Seq<u8>, suffix: Seq<u8>)
    requires
        all_syms(vs),
        suffix.len() == 0 || classify(suffix[0]) == Sym::Padding,
    ensures
        scan_ok(sym_chars(vs) + suffix),
        scan_vals(sym_chars(vs) + suffix) == vs,
    decreases vs.len(),
{
    let s = sym_chars(vs) + suffix;
    if vs.len() == 0 {
        assert(s =~= suffix);
        assert(scan_vals(s) =~= vs);
    } else {
        assert(s[0] == alpha(vs[0]));
        lemma_classify_alpha(vs[0]);
        assert(s.skip(1) =~= sym_chars(vs.skip(1)) + suffix);
        assert(all_syms(vs.skip(1))) by {
            assert(forall|j: int|
                0 <= j < vs.skip(1).len() ==> vs.skip(1)[j] == vs[j + 1] && vs[j + 1] < 32);
        }
        lemma_scan_syms(vs.skip(1), suffix);
        assert(seq![vs[0]] + vs.skip(1) =~= vs);
    }
}

/// Feeding the eight 5-bit values of one full 5-byte group into the
/// accumulator emits exactly those five bytes and hands the accumulator on
/// empty.
proof fn lemma_dec_group(c0: u8, c1: u8, c2: u8, c3: u8, c4: u8, rest: Seq<u8>)
    ensures
        dec_bytes(group_vals(c0, c1, c2, c3, c4) + rest, 0, 0) == seq![c0, c1, c2, c3, c4]
            + dec_bytes(rest, 0, 0),
{
    let v0 = c0 >> 3;
    let v1 = ((c0 & 0x07) << 2) | (c1 >> 6);
    let v2 = (c1 >> 1) & 0x1f;
    let v3 = ((c1 & 0x01) << 4) | (c2 >> 4);
    let v4 = ((c2 & 0x0f) << 1) | (c3 >> 7);
    let v5 = (c3 >> 2) & 0x1f;
    let v6 = ((c3 & 0x03) << 3) | (c4 >> 5);
    let v7 = c4 & 0x1f;
    let a1 = (0u32 << 5u32) | (v0 as u32);
    let e1 = (a1 << 5u32) | (v1 as u32);
    let a2 = e1 & 3;
    let a3 = (a2 << 5u32) | (v2 as u32);
    let e3 = (a3 << 5u32) | (v3 as u32);
    let a4 = e3 & 15;
    let e4 = (a4 << 5u32) | (v4 as u32);
    let a5 = e4 & 1;
    let a6 = (a5 << 5u32) | (v5 as u32);
    let e6 = (a6 << 5u32) | (v6 as u32);
    let a7 = e6 & 7;
    let e7 = (a7 << 5u32) | (v7 as u32);
    let a8 = e7 & 0;
    assert((e1 >> 2) & 0xff == c0 as u32 && (e3 >> 4) & 0xff == c1 as u32 && (e4 >> 1) & 0xff == c2
        as u32 && (e6 >> 3) & 0xff == c3 as u32 && (e7 >> 0) & 0xff == c4 as u32 && a8 == 0)
        by (bit_vector)
        requires
            v0 == c0 >> 3,
            v1 == ((c0 & 0x07) << 2) | (c1 >> 6),
            v2 == (c1 >> 1) & 0x1f,
            v3 == ((c1 & 0x01) << 4) | (c2 >> 4),
            v4 == ((c2 & 0x0f) << 1) | (c3 >> 7),
            v5 == (c3 >> 2) & 0x1f,
            v6 == ((c3 & 0x03) << 3) | (c4 >> 5),
            v7 == c4 & 0x1f,
            a1 == (0u32 << 5u32) | (v0 as u32),
            e1 == (a1 << 5u32) | (v1 as u32),
            a2 == e1 & 3,
            a3 == (a2 << 5u32) | (v2 as u32),
            e3 == (a3 << 5u32) | (v3 as u32),
            a4 == e3 & 15,
            e4 == (a4 << 5u32) | (v4 as u32),
            a5 == e4 & 1,
            a6 == (a5 << 5u32) | (v5 as u32),
            e6 == (a6 << 5u32) | (v6 as u32),
            a7 == e6 & 7,
            e7 == (a7 << 5u32) | (v7 as u32),
            a8 == e7 & 0,
    ;
    let s0 = group_vals(c0, c1, c2, c3, c4) + rest;
    let s1 = seq![v1, v2, v3, v4, v5, v6, v7] + rest;
    let s2 = seq![v2, v3, v4, v5, v6, v7] + rest;
    let s3 = seq![v3, v4, v5, v6, v7] + rest;
    let s4 = seq![v4, v5, v6, v7] + rest;
    let s5 = seq![v5, v6, v7] + rest;
    let s6 = seq![v6, v7] + rest;
    let s7 = seq![v7] + rest;
    assert(s0.skip(1) =~= s1);
    assert(s1.skip(1) =~= s2);
    assert(s2.skip(1) =~= s3);
    assert(s3.skip(1) =~= s4);
    assert(s4.skip(1) =~= s5);
    assert(s5.skip(1) =~= s6);
    assert(s6.skip(1) =~= s7);
    assert(s7.skip(1) =~= rest);
    assert(dec_bytes(s0, 0, 0) == dec_bytes(s1, a1, 5));
    assert(dec_bytes(s1, a1, 5) == seq![(((e1 >> 2) & 0xff) as u8)] + dec_bytes(s2, a2, 2));
    assert(dec_bytes(s2, a2, 2) == dec_bytes(s3, a3, 7));
    assert(dec_bytes(s3, a3, 7) == seq![(((e3 >> 4) & 0xff) as u8)] + dec_bytes(s4, a4, 4));
    assert(dec_bytes(s4, a4, 4) == seq![(((e4 >> 1) & 0xff) as u8)] + dec_bytes(s5, a5, 1));
    assert(dec_bytes(s5, a5, 1) == dec_bytes(s6, a6, 6));
    assert(dec_bytes(s6, a6, 6) == seq![(((e6 >> 3) & 0xff) as u8)] + dec_bytes(s7, a7, 3));
    assert(dec_bytes(s7, a7, 3) == seq![(((e7 >> 0) & 0xff) as u8)] + dec_bytes(rest, a8, 0));
    assert(dec_bytes(rest, a8, 0) == dec_bytes(rest, 0, 0));
    assert(dec_bytes(s0, 0, 0) =~= seq![c0, c1, c2, c3, c4] + dec_bytes(rest, 0, 0));
}

/// A trailing single byte: its two symbols decode to that byte, the two
/// pending zero bits being dropped.
proof fn lemma_dec_tail1(c0: u8)
    ensures
        dec_bytes(group_vals(c0, 0, 0, 0, 0).take(2), 0, 0) == seq![c0],
{
    let v0 = c0 >> 3;
    let v1 = ((c0 & 0x07) << 2) | (0u8 >> 6);
    let a1 = (0u32 << 5u32) | (v0 as u32);
    let e1 = (a1 << 5u32) | (v1 as u32);
    assert((e1 >> 2) & 0xff == c0 as u32) by (bit_vector)
        requires
            v0 == c0 >> 3,
            v1 == ((c0 & 0x07) << 2) | (0u8 >> 6),
            a1 == (0u32 << 5u32) | (v0 as u32),
            e1 == (a1 << 5u32) | (v1 as u32),
    ;
    let s0 = group_vals(c0, 0, 0, 0, 0).take(2);
    let s1 = seq![v1];
    assert(s0 =~= seq![v0, v1]);
    assert(s0.skip(1) =~= s1);
    assert(s1.skip(1) =~= Seq::<u8>::empty());
    assert(dec_bytes(s0, 0, 0) == dec_bytes(s1, a1, 5));
    assert(dec_bytes(s1, a1, 5) == seq![(((e1 >> 2) & 0xff) as u8)] + dec_bytes(
        Seq::<u8>::empty(),
        e1 & low_mask(2),
        2,
    ));
    assert(dec_bytes(s0, 0, 0) =~= seq![c0]);
}

/// A trailing pair of bytes: its four symbols decode to those bytes, the
/// four pending zero bits being dropped.
proof fn lemma_dec_tail2(c0: u8, c1: u8)
    ensures
        dec_bytes(group_vals(c0, c1, 0, 0, 0).take(4), 0, 0) == seq![c0, c1],
{
    let v0 = c0 >> 3;
    let v1 = ((c0 & 0x07) << 2) | (c1 >> 6);
    let v2 = (c1 >> 1) & 0x1f;
    let v3 = ((c1 & 0x01) << 4) | (0u8 >> 4);
    let a1 = (0u32 << 5u32) | (v0 as u32);
    let e1 = (a1 << 5u32) | (v1 as u32);
    let a2 = e1 & 3;
    let a3 = (a2 << 5u32) | (v2 as u32);
    let e3 = (a3 << 5u32) | (v3 as u32);
    assert((e1 >> 2) & 0xff == c0 as u32 && (e3 >> 4) & 0xff == c1 as u32) by (bit_vector)
        requires
            v0 == c0 >> 3,
            v1 == ((c0 & 0x07) << 2) | (c1 >> 6),
            v2 == (c1 >> 1) & 0x1f,
            v3 == ((c1 & 0x01) << 4) | (0u8 >> 4),
            a1 == (0u32 << 5u32) | (v0 as u32),
            e1 == (a1 << 5u32) | (v1 as u32),
            a2 == e1 & 3,
            a3 == (a2 << 5u32) | (v2 as u32),
            e3 == (a3 << 5u32) | (v3 as u32),
    ;
    let s0 = group_vals(c0, c1, 0, 0, 0).take(4);
    let s1 = seq![v1, v2, v3];
    let s2 = seq![v2, v3];
    let s3 = seq![v3];
    assert(s0 =~= seq![v0, v1, v2, v3]);
    assert(s0.skip(1) =~= s1);
    assert(s1.skip(1) =~= s2);
    assert(s2.skip(1) =~= s3);
    assert(s3.skip(1) =~= Seq::<u8>::empty());
    assert(dec_bytes(s0, 0, 0) == dec_bytes(s1, a1, 5));
    assert(dec_bytes(s1, a1, 5) == seq![(((e1 >> 2) & 0xff) as u8)] + dec_bytes(s2, a2, 2));
    assert(dec_bytes(s2, a2, 2) == dec_bytes(s3, a3, 7));
    assert(dec_bytes(s3, a3, 7) == seq![(((e3 >> 4) & 0xff) as u8)] + dec_bytes(
        Seq::<u8>::empty(),
        e3 & low_mask(4),
        4,
    ));
    assert(dec_bytes(s0, 0, 0) =~= seq![c0, c1]);
}

/// A trailing run of three bytes: its five symbols decode to those bytes,
/// the one pending zero bit being dropped.
proof fn lemma_dec_tail3(c0: u8, c1: u8, c2: u8)
    ensures
        dec_bytes(group_vals(c0, c1, c2, 0, 0).take(5), 0, 0) == seq![c0, c1, c2],
{
    let v0 = c0 >> 3;
    let v1 = ((c0 & 0x07) << 2) | (c1 >> 6);
    let v2 = (c1 >> 1) & 0x1f;
    let v3 = ((c1 & 0x01) << 4) | (c2 >> 4);
    let v4 = ((c2 & 0x0f) << 1) | (0u8 >> 7);
    let a1 = (0u32 << 5u32) | (v0 as u32);
    let e1 = (a1 << 5u32) | (v1 as u32);
    let a2 = e1 & 3;
    let a3 = (a2 << 5u32) | (v2 as u32);
    let e3 = (a3 << 5u32) | (v3 as u32);
    let a4 = e3 & 15;
    let e4 = (a4 << 5u32) | (v4 as u32);
    assert((e1 >> 2) & 0xff == c0 as u32 && (e3 >> 4) & 0xff == c1 as u32 && (e4 >> 1) & 0xff == c2
        as u32) by (bit_vector)
        requires
            v0 == c0 >> 3,
            v1 == ((c0 & 0x07) << 2) | (c1 >> 6),
            v2 == (c1 >> 1) & 0x1f,
            v3 == ((c1 & 0x01) << 4) | (c2 >> 4),
            v4 == ((c2 & 0x0f) << 1) | (0u8 >> 7),
            a1 == (0u32 << 5u32) | (v0 as u32),
            e1 == (a1 << 5u32) | (v1 as u32),
            a2 == e1 & 3,
            a3 == (a2 << 5u32) | (v2 as u32),
            e3 == (a3 << 5u32) | (v3 as u32),
            a4 == e3 & 15,
            e4 == (a4 << 5u32) | (v4 as u32),
    ;
    let s0 = group_vals(c0, c1, c2, 0, 0).take(5);
    let s1 = seq![v1, v2, v3, v4];
    let s2 = seq![v2, v3, v4];
    let s3 = seq![v3, v4];
    let s4 = seq![v4];
    assert(s0 =~= seq![v0, v1, v2, v3, v4]);
    assert(s0.skip(1) =~= s1);
    assert(s1.skip(1) =~= s2);
    assert(s2.skip(1) =~= s3);
    assert(s3.skip(1) =~= s4);
    assert(s4.skip(1) =~= Seq::<u8>::empty());
    assert(dec_bytes(s0, 0, 0) == dec_bytes(s1, a1, 5));
    assert(dec_bytes(s1, a1, 5) == seq![(((e1 >> 2) & 0xff) as u8)] + dec_bytes(s2, a2, 2));
    assert(dec_bytes(s2, a2, 2) == dec_bytes(s3, a3, 7));
    assert(dec_bytes(s3, a3, 7) == seq![(((e3 >> 4) & 0xff) as u8)] + dec_bytes(s4, a4, 4));
    assert(dec_bytes(s4, a4, 4) == seq![(((e4 >> 1) & 0xff) as u8)] + dec_bytes(
        Seq::<u8>::empty(),
        e4 & low_mask(1),
        1,
    ));
    assert(dec_bytes(s0, 0, 0) =~= seq![c0, c1, c2]);
}

/// A trailing run of four bytes: its seven symbols decode to those bytes,
/// the three pending zero bits being dropped.
proof fn lemma_dec_tail4(c0: u8, c1: u8, c2: u8, c3: u8)
    ensures
        dec_bytes(group_vals(c0, c1, c2, c3, 0).take(7), 0, 0) == seq![c0, c1, c2, c3],
{
    let v0 = c0 >> 3;
    let v1 = ((c0 & 0x07) << 2) | (c1 >> 6);
    let v2 = (c1 >> 1) & 0x1f;
    let v3 = ((c1 & 0x01) << 4) | (c2 >> 4);
    let v4 = ((c2 & 0x0f) << 1) | (c3 >> 7);
    let v5 = (c3 >> 2) & 0x1f;
    let v6 = ((c3 & 0x03) << 3) | (0u8 >> 5);
    let a1 = (0u32 << 5u32) | (v0 as u32);
    let e1 = (a1 << 5u32) | (v1 as u32);
    let a2 = e1 & 3;
    let a3 = (a2 << 5u32) | (v2 as u32);
    let e3 = (a3 << 5u32) | (v3 as u32);
    let a4 = e3 & 15;
    let e4 = (a4 << 5u32) | (v4 as u32);
    let a5 = e4 & 1;
    let a6 = (a5 << 5u32) | (v5 as u32);
    let e6 = (a6 << 5u32) | (v6 as u32);
    assert((e1 >> 2) & 0xff == c0 as u32 && (e3 >> 4) & 0xff == c1 as u32 && (e4 >> 1) & 0xff == c2
        as u32 && (e6 >> 3) & 0xff == c3 as u32) by (bit_vector)
        requires
            v0 == c0 >> 3,
            v1 == ((c0 & 0x07) << 2) | (c1 >> 6),
            v2 == (c1 >> 1) & 0x1f,
            v3 == ((c1 & 0x01) << 4) | (c2 >> 4),
            v4 == ((c2 & 0x0f) << 1) | (c3 >> 7),
            v5 == (c3 >> 2) & 0x1f,
            v6 == ((c3 & 0x03) << 3) | (0u8 >> 5),
            a1 == (0u32 << 5u32) | (v0 as u32),
            e1 == (a1 << 5u32) | (v1 as u32),
            a2 == e1 & 3,
            a3 == (a2 << 5u32) | (v2 as u32),
            e3 == (a3 << 5u32) | (v3 as u32),
            a4 == e3 & 15,
            e4 == (a4 << 5u32) | (v4 as u32),
            a5 == e4 & 1,
            a6 == (a5 << 5u32) | (v5 as u32),
            e6 == (a6 << 5u32) | (v6 as u32),
    ;
    let s0 = group_vals(c0, c1, c2, c3, 0).take(7);
    let s1 = seq![v1, v2, v3, v4, v5, v6];
    let s2 = seq![v2, v3, v4, v5, v6];
    let s3 = seq![v3, v4, v5, v6];
    let s4 = seq![v4, v5, v6];
    let s5 = seq![v5, v6];
    let s6 = seq![v6];
    assert(s0 =~= seq![v0, v1, v2, v3, v4, v5, v6]);
    assert(s0.skip(1) =~= s1);
    assert(s1.skip(1) =~= s2);
    assert(s2.skip(1) =~= s3);
    assert(s3.skip(1) =~= s4);
    assert(s4.skip(1) =~= s5);
    assert(s5.skip(1) =~= s6);
    assert(s6.skip(1) =~= Seq::<u8>::empty());
    assert(dec_bytes(s0, 0, 0) == dec_bytes(s1, a1, 5));
    assert(dec_bytes(s1, a1, 5) == seq![(((e1 >> 2) & 0xff) as u8)] + dec_bytes(s2, a2, 2));
    assert(dec_bytes(s2, a2, 2) == dec_bytes(s3, a3, 7));
    assert(dec_bytes(s3, a3, 7) == seq![(((e3 >> 4) & 0xff) as u8)] + dec_bytes(s4, a4, 4));
    assert(dec_bytes(s4, a4, 4) == seq![(((e4 >> 1) & 0xff) as u8)] + dec_bytes(s5, a5, 1));
    assert(dec_bytes(s5, a5, 1) == dec_bytes(s6, a6, 6));
    assert(dec_bytes(s6, a6, 6) == seq![(((e6 >> 3) & 0xff) as u8)] + dec_bytes(
        Seq::<u8>::empty(),
        e6 & low_mask(3),
        3,
    ));
    assert(dec_bytes(s0, 0, 0) =~= seq![c0, c1, c2, c3]);
}

/// The accumulator turns the encoder's 5-bit values back into the bytes
/// they came from.
proof fn lemma_dec_enc_vals(d: Seq<u8>)
    ensures
        dec_bytes(enc_vals(d), 0, 0) == d,
    decreases d.len(),
{
    if d.len() >= 5 {
        lemma_dec_group(d[0], d[1], d[2], d[3], d[4], enc_vals(d.skip(5)));
        lemma_dec_enc_vals(d.skip(5));
        assert(seq![d[0], d[1], d[2], d[3], d[4]] + d.skip(5) =~= d);
    } else if d.len() == 0 {
        assert(d =~= Seq::<u8>::empty());
    } else if d.len() == 1 {
        lemma_dec_tail1(d[0]);
        assert(seq![d[0]] =~= d);
    } else if d.len() == 2 {
        lemma_dec_tail2(d[0], d[1]);
        assert(seq![d[0], d[1]] =~= d);
    } else if d.len() == 3 {
        lemma_dec_tail3(d[0], d[1], d[2]);
        assert(seq![d[0], d[1], d[2]] =~= d);
    } else {
        lemma_dec_tail4(d[0], d[1], d[2], d[3]);
        assert(seq![d[0], d[1], d[2], d[3]] =~= d);
    }
}

/// How many 5-bit values the encoder produces: eight per full group, and
/// the table's worth for the trailing partial group.
proof fn lemma_enc_vals_len(d: Seq<u8>)
    ensures
        enc_vals(d).len() == 8 * (d.len() / 5) + tail_syms(d.len() % 5),
    decreases d.len(),
{
    if d.len() >= 5 {
        lemma_enc_vals_len(d.skip(5));
    }
}

/// Length law: for non-empty input the encoded text is the smallest
/// multiple of 8 that holds one symbol per started 5-bit group, namely
/// `8 * ceil(len / 5)` characters.
pub proof fn lemma_encode_len(d: Seq<u8>)
    requires
        d.len() > 0,
    ensures
        encode_spec(d).len() == 8 * ((d.len() + 4) / 5),
        encode_spec(d).len() % 8 == 0,
{
    lemma_enc_vals_len(d);
}

/// Round-trip law: decoding an encoding gives the encoded bytes back, for
/// every non-empty input.
pub proof fn lemma_round_trip(d: Seq<u8>)
    requires
        d.len() > 0,
    ensures
        decode_spec(encode_spec(d)) == Some(d),
{
    let e = encode_spec(d);
    let pads = Seq::new(pad_chars(d.len() % 5), |i: int| PAD);
    lemma_encode_len(d);
    lemma_enc_vals_in_range(d);
    assert(e =~= sym_chars(enc_vals(d)) + pads);
    lemma_scan_syms(enc_vals(d), pads);
    lemma_dec_enc_vals(d);
}

/// The empty input is the one asymmetric case: it encodes to the empty
/// text, yet the empty text is not decodable, a length of zero being
/// rejected.
pub proof fn lemma_empty_asymmetry()
    ensures
        encode_spec(Seq::<u8>::empty()) == Seq::<u8>::empty(),
        decode_spec(Seq::<u8>::empty()) == None::<Seq<u8>>,
{
}

} // verus!
