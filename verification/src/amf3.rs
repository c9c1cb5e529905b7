//! The successor tagged-value wire format.  Only the scalar subset is
//! decodable here: the composite kinds have marker values but are a
//! deliberate extension surface, and seeing one is a hard decode
//! failure rather than the legacy format's lossy fallback.
use vstd::prelude::*;

pub mod decoder;
pub mod encoder;
pub mod laws;

verus! {

pub const MARKER_UNDEFINED: u8 = 0x00;

pub const MARKER_NULL: u8 = 0x01;

pub const MARKER_FALSE: u8 = 0x02;

pub const MARKER_TRUE: u8 = 0x03;

pub const MARKER_INTEGER: u8 = 0x04;

pub const MARKER_DOUBLE: u8 = 0x05;

pub const MARKER_STRING: u8 = 0x06;

pub const MARKER_XML_DOC: u8 = 0x07;

pub const MARKER_DATE: u8 = 0x08;

pub const MARKER_ARRAY: u8 = 0x09;

pub const MARKER_OBJECT: u8 = 0x0A;

pub const MARKER_XML: u8 = 0x0B;

pub const MARKER_BYTE_ARRAY: u8 = 0x0C;

pub const MARKER_VECTOR_INT: u8 = 0x0D;

pub const MARKER_VECTOR_UINT: u8 = 0x0E;

pub const MARKER_VECTOR_DOUBLE: u8 = 0x0F;

pub const MARKER_VECTOR_OBJECT: u8 = 0x10;

pub const MARKER_DICTIONARY: u8 = 0x11;

/// A decoded value of the successor format's scalar subset.  The
/// float payload is held as its IEEE-754 bit pattern.
#[derive(Debug, PartialEq, Eq, Structural, Clone, Copy)]
pub enum Value {
    Undefined,
    Null,
    False,
    True,
    /// A 29-bit signed integer, sign-extended from the wire.
    Integer(i32),
    /// A 64-bit float, held as its IEEE-754 bit pattern.
    Double(u64),
}

/// The integer variant stays within the 29-bit signed range that the
/// wire can carry; every other variant is unconstrained.
pub open spec fn valid(v: Value) -> bool {
    match v {
        Value::Integer(i) => -0x10000000 <= i < 0x10000000,
        _ => true,
    }
}

/// The 29-bit unsigned quantity that carries a signed integer: a
/// negative value is offset by 2^29.
pub open spec fn unsign_29(i: i32) -> u32
    recommends
        -0x10000000 <= i < 0x10000000,
{
    if i < 0 {
        (i + 0x20000000) as u32
    } else {
        i as u32
    }
}

/// The signed reading of a 29-bit unsigned quantity: if bit 28 is
/// set, 2^29 is subtracted.
pub open spec fn sign_extend_29(u: u32) -> i32
    recommends
        u < 0x20000000,
{
    if u & 0x10000000 != 0 {
        (u - 0x20000000) as i32
    } else {
        u as i32
    }
}

/// The variable-length encoding of a 29-bit unsigned quantity: up to
/// three bytes of seven data bits with a continuation flag, most
/// significant group first; a fourth byte, when present, contributes
/// all eight of its bits.
pub open spec fn enc_u29(u: u32) -> Seq<u8>
    recommends
        u < 0x20000000,
{
    if u < 0x80 {
        seq![(u & 0x7f) as u8]
    } else if u < 0x4000 {
        seq![(0x80 | ((u >> 7) & 0x7f)) as u8, (u & 0x7f) as u8]
    } else if u < 0x200000 {
        seq![
            (0x80 | ((u >> 14) & 0x7f)) as u8,
            (0x80 | ((u >> 7) & 0x7f)) as u8,
            (u & 0x7f) as u8,
        ]
    } else {
        seq![
            (0x80 | ((u >> 22) & 0x7f)) as u8,
            (0x80 | ((u >> 15) & 0x7f)) as u8,
            (0x80 | ((u >> 8) & 0x7f)) as u8,
            (u & 0xff) as u8,
        ]
    }
}

/// The exact byte encoding of a scalar value.
pub open spec fn enc_value(v: Value) -> Seq<u8>
    recommends
        valid(v),
{
    match v {
        Value::Undefined => seq![MARKER_UNDEFINED],
        Value::Null => seq![MARKER_NULL],
        Value::False => seq![MARKER_FALSE],
        Value::True => seq![MARKER_TRUE],
        Value::Integer(i) => seq![MARKER_INTEGER] + enc_u29(unsign_29(i)),
        Value::Double(bits) => seq![MARKER_DOUBLE] + crate::wire::u64_to_be(bits),
    }
}

} // verus!
