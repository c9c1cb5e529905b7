//! The serializer for the successor format, mirroring the decoder's
//! scalar coverage.
use crate::amf3::{enc_u29, enc_value, unsign_29, valid, Value, MARKER_DOUBLE, MARKER_FALSE,
    MARKER_INTEGER, MARKER_NULL, MARKER_TRUE, MARKER_UNDEFINED};
use crate::wire::{write_u64_be, write_u8};
use vstd::prelude::*;

verus! {

/// Writes the variable-length encoding of a 29-bit unsigned quantity.
fn write_u29(w: &mut Vec<u8>, u: u32)
    requires
        u < 0x20000000,
    ensures
        final(w)@ == old(w)@ + enc_u29(u),
{
    if u < 0x80 {
        proof {
            assert((u & 0x7f) < 0x100) by (bit_vector);
        }
        write_u8(w, (u & 0x7f) as u8);
        assert(w@ =~= old(w)@ + enc_u29(u));
    } else if u < 0x4000 {
        proof {
            assert((0x80 | ((u >> 7) & 0x7f)) < 0x100 && (u & 0x7f) < 0x100) by (bit_vector);
        }
        write_u8(w, (0x80 | ((u >> 7) & 0x7f)) as u8);
        write_u8(w, (u & 0x7f) as u8);
        assert(w@ =~= old(w)@ + enc_u29(u));
    } else if u < 0x200000 {
        proof {
            assert((0x80 | ((u >> 14) & 0x7f)) < 0x100 && (0x80 | ((u >> 7) & 0x7f)) < 0x100 && (u
                & 0x7f) < 0x100) by (bit_vector);
        }
        write_u8(w, (0x80 | ((u >> 14) & 0x7f)) as u8);
        write_u8(w, (0x80 | ((u >> 7) & 0x7f)) as u8);
        write_u8(w, (u & 0x7f) as u8);
        assert(w@ =~= old(w)@ + enc_u29(u));
    } else {
        proof {
            assert((0x80 | ((u >> 22) & 0x7f)) < 0x100 && (0x80 | ((u >> 15) & 0x7f)) < 0x100 && (
            0x80 | ((u >> 8) & 0x7f)) < 0x100 && (u & 0xff) < 0x100) by (bit_vector);
        }
        write_u8(w, (0x80 | ((u >> 22) & 0x7f)) as u8);
        write_u8(w, (0x80 | ((u >> 15) & 0x7f)) as u8);
        write_u8(w, (0x80 | ((u >> 8) & 0x7f)) as u8);
        write_u8(w, (u & 0xff) as u8);
        assert(w@ =~= old(w)@ + enc_u29(u));
    }
}

/// Writes the exact byte encoding of a scalar value after the bytes
/// already in `w`.
pub fn to_bytes(w: &mut Vec<u8>, v: &Value)
    requires
        valid(*v),
    ensures
        final(w)@ == old(w)@ + enc_value(*v),
{
    match v {
        Value::Undefined => {
            write_u8(w, MARKER_UNDEFINED);
            assert(w@ =~= old(w)@ + enc_value(*v));
        },
        Value::Null => {
            write_u8(w, MARKER_NULL);
            assert(w@ =~= old(w)@ + enc_value(*v));
        },
        Value::False => {
            write_u8(w, MARKER_FALSE);
            assert(w@ =~= old(w)@ + enc_value(*v));
        },
        Value::True => {
            write_u8(w, MARKER_TRUE);
            assert(w@ =~= old(w)@ + enc_value(*v));
        },
        Value::Integer(i) => {
            write_u8(w, MARKER_INTEGER);
            let u: u32 = if *i < 0 {
                (*i + 0x20000000) as u32
            } else {
                *i as u32
            };
            write_u29(w, u);
            assert(w@ =~= old(w)@ + enc_value(*v));
        },
        Value::Double(bits) => {
            write_u8(w, MARKER_DOUBLE);
            write_u64_be(w, *bits);
            assert(w@ =~= old(w)@ + enc_value(*v));
        },
    }
}

} // verus!
