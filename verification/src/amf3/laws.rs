//! The laws tying the successor format's encoder and decoder
//! together.
use crate::amf3::decoder::{dec_u29, dec_value};
use crate::amf3::{enc_u29, enc_value, sign_extend_29, unsign_29, valid, Value};
use crate::wire::lemma_u64_be_roundtrip;
use crate::DecodeError;
use vstd::prelude::*;

verus! {

/// A 29-bit signed integer survives the trip through its unsigned
/// wire carrier.
pub proof fn lemma_sign_unsign(i: i32)
    requires
        -0x10000000 <= i < 0x10000000,
    ensures
        unsign_29(i) < 0x20000000,
        sign_extend_29(unsign_29(i)) == i,
{
    let u = unsign_29(i);
    if i < 0 {
        assert(0x10000000 <= u < 0x20000000 ==> u & 0x10000000 != 0) by (bit_vector);
    } else {
        assert(u < 0x10000000 ==> u & 0x10000000 == 0) by (bit_vector);
    }
}

/// Decoding the variable-length bytes written for a 29-bit quantity,
/// wherever they stand in a buffer, gives the quantity back.
pub proof fn lemma_enc_dec_u29(u: u32, b: Seq<u8>, pos: int)
    requires
        u < 0x20000000,
        0 <= pos,
        pos + enc_u29(u).len() <= b.len(),
        b.subrange(pos, pos + enc_u29(u).len()) == enc_u29(u),
    ensures
        dec_u29(b, pos) == Ok::<(u32, int), DecodeError>((u, pos + enc_u29(u).len())),
{
    let e = enc_u29(u);
    assert forall|i: int| pos <= i < pos + e.len() implies #[trigger] b[i] == e[i - pos] by {
        assert(b.subrange(pos, pos + e.len())[i - pos] == b[i]);
    }
    if u < 0x80 {
        let b0 = (u & 0x7f) as u8;
        assert(b0 < 0x80 && ((b0 & 0x7f) as u32) == u) by (bit_vector)
            requires
                u < 0x80 && b0 == (u & 0x7f) as u8,
        ;
    } else if u < 0x4000 {
        let b0 = (0x80 | ((u >> 7) & 0x7f)) as u8;
        let b1 = (u & 0x7f) as u8;
        assert(b0 >= 0x80 && b1 < 0x80 && (((b0 & 0x7f) as u32) << 7) | ((b1 & 0x7f) as u32)
            == u) by (bit_vector)
            requires
                0x80 <= u < 0x4000 && b0 == (0x80 | ((u >> 7) & 0x7f)) as u8 && b1 == (u
                    & 0x7f) as u8,
        ;
    } else if u < 0x200000 {
        let b0 = (0x80 | ((u >> 14) & 0x7f)) as u8;
        let b1 = (0x80 | ((u >> 7) & 0x7f)) as u8;
        let b2 = (u & 0x7f) as u8;
        assert(b0 >= 0x80 && b1 >= 0x80 && b2 < 0x80 && (((b0 & 0x7f) as u32) << 14) | (((b1
            & 0x7f) as u32) << 7) | ((b2 & 0x7f) as u32) == u) by (bit_vector)
            requires
                0x4000 <= u < 0x200000 && b0 == (0x80 | ((u >> 14) & 0x7f)) as u8 && b1 == (0x80 | (
                (u >> 7) & 0x7f)) as u8 && b2 == (u & 0x7f) as u8,
        ;
    } else {
        let b0 = (0x80 | ((u >> 22) & 0x7f)) as u8;
        let b1 = (0x80 | ((u >> 15) & 0x7f)) as u8;
        let b2 = (0x80 | ((u >> 8) & 0x7f)) as u8;
        let b3 = (u & 0xff) as u8;
        assert(b0 >= 0x80 && b1 >= 0x80 && b2 >= 0x80 && (((b0 & 0x7f) as u32) << 22) | (((b1
            & 0x7f) as u32) << 15) | (((b2 & 0x7f) as u32) << 8) | (b3 as u32) == u)
            by (bit_vector)
            requires
                0x200000 <= u < 0x20000000 && b0 == (0x80 | ((u >> 22) & 0x7f)) as u8 && b1 == (0x80
                    | ((u >> 15) & 0x7f)) as u8 && b2 == (0x80 | ((u >> 8) & 0x7f)) as u8 && b3 == (
                u & 0xff) as u8,
        ;
    }
}

/// Round trip: decoding the encoding of any valid scalar value gives
/// the value itself and consumes the whole encoding.
pub proof fn lemma_round_trip(v: Value)
    requires
        valid(v),
    ensures
        dec_value(enc_value(v), 0) == Ok::<(Value, int), DecodeError>(
            (v, enc_value(v).len() as int),
        ),
{
    let b = enc_value(v);
    match v {
        Value::Integer(i) => {
            lemma_sign_unsign(i);
            let u = unsign_29(i);
            assert(b.subrange(1, 1 + enc_u29(u).len() as int) =~= enc_u29(u));
            lemma_enc_dec_u29(u, b, 1);
        },
        Value::Double(bits) => {
            lemma_u64_be_roundtrip(bits);
        },
        _ => {
        },
    }
}

} // verus!
