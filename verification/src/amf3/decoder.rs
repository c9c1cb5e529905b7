//! The marker-dispatch parser for the successor format's scalar
//! subset, and the spec-level decoder it is proved against.
use crate::amf3::{
    sign_extend_29, Value, MARKER_DOUBLE, MARKER_FALSE, MARKER_INTEGER, MARKER_NULL, MARKER_TRUE,
    MARKER_UNDEFINED,
};
use crate::wire::{u64_from_be, Reader};
use crate::DecodeError;
use vstd::prelude::*;

verus! {

/// The variable-length 29-bit unsigned quantity: seven data bits per
/// byte while the continuation flag is set, stopping early after at
/// most three such bytes; after three flagged bytes a fourth is
/// consumed unconditionally and contributes all eight of its bits.
pub open spec fn dec_u29(b: Seq<u8>, pos: int) -> Result<(u32, int), DecodeError> {
    if pos < 0 || pos + 1 > b.len() {
        Err(DecodeError::Truncated)
    } else if b[pos] < 0x80 {
        Ok(((b[pos] & 0x7f) as u32, pos + 1))
    } else if pos + 2 > b.len() {
        Err(DecodeError::Truncated)
    } else if b[pos + 1] < 0x80 {
        Ok(((((b[pos] & 0x7f) as u32) << 7) | ((b[pos + 1] & 0x7f) as u32), pos + 2))
    } else if pos + 3 > b.len() {
        Err(DecodeError::Truncated)
    } else if b[pos + 2] < 0x80 {
        Ok(
            (
                ((((b[pos] & 0x7f) as u32) << 14) | (((b[pos + 1] & 0x7f) as u32) << 7) | ((b[pos
                    + 2] & 0x7f) as u32)),
                pos + 3,
            ),
        )
    } else if pos + 4 > b.len() {
        Err(DecodeError::Truncated)
    } else {
        Ok(
            (
                ((((b[pos] & 0x7f) as u32) << 22) | (((b[pos + 1] & 0x7f) as u32) << 15) | (((b[pos
                    + 2] & 0x7f) as u32) << 8) | (b[pos + 3] as u32)),
                pos + 4,
            ),
        )
    }
}

/// The decoded 29-bit quantity is always below 2^29.
pub proof fn lemma_dec_u29_range(b: Seq<u8>, pos: int)
    ensures
        dec_u29(b, pos) matches Ok(r) ==> r.0 < 0x20000000,
{
    if dec_u29(b, pos) is Ok {
        let b0 = b[pos];
        if pos + 2 <= b.len() {
            let b1 = b[pos + 1];
            if pos + 3 <= b.len() {
                let b2 = b[pos + 2];
                if pos + 4 <= b.len() {
                    let b3 = b[pos + 3];
                    assert(((((b0 & 0x7f) as u32) << 22) | (((b1 & 0x7f) as u32) << 15) | (((b2
                        & 0x7f) as u32) << 8) | (b3 as u32)) < 0x20000000) by (bit_vector);
                }
                assert(((((b0 & 0x7f) as u32) << 14) | (((b1 & 0x7f) as u32) << 7) | ((b2
                    & 0x7f) as u32)) < 0x20000000) by (bit_vector);
            }
            assert(((((b0 & 0x7f) as u32) << 7) | ((b1 & 0x7f) as u32)) < 0x20000000)
                by (bit_vector);
        }
        assert(((b0 & 0x7f) as u32) < 0x20000000) by (bit_vector);
    }
}

/// One whole scalar value: a marker byte, then its payload.  Any
/// marker outside the scalar subset is a hard decode failure.
pub open spec fn dec_value(b: Seq<u8>, pos: int) -> Result<(Value, int), DecodeError> {
    if pos < 0 || pos >= b.len() {
        Err(DecodeError::Truncated)
    } else {
        let m = b[pos];
        let p = pos + 1;
        if m == MARKER_UNDEFINED {
            Ok((Value::Undefined, p))
        } else if m == MARKER_NULL {
            Ok((Value::Null, p))
        } else if m == MARKER_FALSE {
            Ok((Value::False, p))
        } else if m == MARKER_TRUE {
            Ok((Value::True, p))
        } else if m == MARKER_INTEGER {
            match dec_u29(b, p) {
                Ok((u, end)) => Ok((Value::Integer(sign_extend_29(u)), end)),
                Err(e) => Err(e),
            }
        } else if m == MARKER_DOUBLE {
            if p + 8 <= b.len() {
                Ok(
                    (
                        Value::Double(
                            u64_from_be(
                                b[p],
                                b[p + 1],
                                b[p + 2],
                                b[p + 3],
                                b[p + 4],
                                b[p + 5],
                                b[p + 6],
                                b[p + 7],
                            ),
                        ),
                        p + 8,
                    ),
                )
            } else {
                Err(DecodeError::Truncated)
            }
        } else {
            Err(DecodeError::UnsupportedMarker)
        }
    }
}

/// Reads the variable-length 29-bit unsigned quantity: at most three
/// continuation-flagged bytes of seven bits, then one full byte.
pub fn parse_u29(r: &mut Reader) -> (res: Result<u32, DecodeError>)
    requires
        old(r).wf(),
    ensures
        final(r).data() == old(r).data(),
        final(r).wf(),
        match res {
            Ok(u) => dec_u29(old(r).data(), old(r).pos()) == Ok::<(u32, int), DecodeError>(
                (u, final(r).pos()),
            ) && u < 0x20000000,
            Err(e) => dec_u29(old(r).data(), old(r).pos()) == Err::<(u32, int), DecodeError>(e),
        },
{
    proof {
        lemma_dec_u29_range(old(r).data(), old(r).pos());
    }
    let b0 = match r.read_u8() {
        Ok(x) => x,
        Err(e) => {
            return Err(e);
        },
    };
    if b0 < 0x80 {
        return Ok((b0 & 0x7f) as u32);
    }
    let b1 = match r.read_u8() {
        Ok(x) => x,
        Err(e) => {
            return Err(e);
        },
    };
    if b1 < 0x80 {
        return Ok((((b0 & 0x7f) as u32) << 7) | ((b1 & 0x7f) as u32));
    }
    let b2 = match r.read_u8() {
        Ok(x) => x,
        Err(e) => {
            return Err(e);
        },
    };
    if b2 < 0x80 {
        return Ok(
            (((b0 & 0x7f) as u32) << 14) | (((b1 & 0x7f) as u32) << 7) | ((b2 & 0x7f) as u32),
        );
    }
    let b3 = match r.read_u8() {
        Ok(x) => x,
        Err(e) => {
            return Err(e);
        },
    };
    Ok(
        (((b0 & 0x7f) as u32) << 22) | (((b1 & 0x7f) as u32) << 15) | (((b2 & 0x7f) as u32) << 8)
            | (b3 as u32),
    )
}

/// Reads the integer payload after its marker and sign-extends it
/// within 29 bits: if bit 28 is set, 2^29 is subtracted.
fn parse_integer(r: &mut Reader) -> (res: Result<Value, DecodeError>)
    requires
        old(r).wf(),
    ensures
        final(r).data() == old(r).data(),
        final(r).wf(),
        match res {
            Ok(v) => match dec_u29(old(r).data(), old(r).pos()) {
                Ok((u, end)) => v == Value::Integer(sign_extend_29(u)) && final(r).pos() == end,
                Err(_) => false,
            },
            Err(e) => dec_u29(old(r).data(), old(r).pos()) == Err::<(u32, int), DecodeError>(e),
        },
{
    let u = match parse_u29(r) {
        Ok(u) => u,
        Err(e) => {
            return Err(e);
        },
    };
    let i: i32 = if 0 != (u & 0x10000000) {
        proof {
            assert(u & 0x10000000 != 0 && u < 0x20000000 ==> u >= 0x10000000) by (bit_vector);
        }
        (u as i32) - 0x20000000
    } else {
        proof {
            assert(u & 0x10000000 == 0 && u < 0x20000000 ==> u < 0x10000000) by (bit_vector);
        }
        u as i32
    };
    Ok(Value::Integer(i))
}

/// Reads the double payload after its marker: eight big-endian bytes
/// as a float's bit pattern.
fn parse_double(r: &mut Reader) -> (res: Result<Value, DecodeError>)
    requires
        old(r).wf(),
    ensures
        final(r).data() == old(r).data(),
        final(r).wf(),
        match res {
            Ok(v) => old(r).pos() + 8 <= old(r).data().len() && v == Value::Double(
                u64_from_be(
                    old(r).data()[old(r).pos()],
                    old(r).data()[old(r).pos() + 1],
                    old(r).data()[old(r).pos() + 2],
                    old(r).data()[old(r).pos() + 3],
                    old(r).data()[old(r).pos() + 4],
                    old(r).data()[old(r).pos() + 5],
                    old(r).data()[old(r).pos() + 6],
                    old(r).data()[old(r).pos() + 7],
                ),
            ) && final(r).pos() == old(r).pos() + 8,
            Err(e) => e == DecodeError::Truncated && old(r).pos() + 8 > old(r).data().len(),
        },
{
    match r.read_u64() {
        Ok(bits) => Ok(Value::Double(bits)),
        Err(e) => Err(e),
    }
}

/// Decodes one whole scalar value from the reader: a marker byte,
/// then its payload.  A marker outside the scalar subset is a hard
/// decode failure, in contrast with the legacy format's permissive
/// fallback.
pub fn from_bytes(r: &mut Reader) -> (res: Result<Value, DecodeError>)
    requires
        old(r).wf(),
    ensures
        final(r).data() == old(r).data(),
        final(r).wf(),
        match res {
            Ok(v) => dec_value(old(r).data(), old(r).pos()) == Ok::<(Value, int), DecodeError>(
                (v, final(r).pos()),
            ) && old(r).pos() < final(r).pos(),
            Err(e) => dec_value(old(r).data(), old(r).pos()) == Err::<(Value, int), DecodeError>(e),
        },
{
    let m = match r.read_u8() {
        Ok(m) => m,
        Err(e) => {
            return Err(e);
        },
    };
    if m == MARKER_UNDEFINED {
        Ok(Value::Undefined)
    } else if m == MARKER_NULL {
        Ok(Value::Null)
    } else if m == MARKER_FALSE {
        Ok(Value::False)
    } else if m == MARKER_TRUE {
        Ok(Value::True)
    } else if m == MARKER_INTEGER {
        parse_integer(r)
    } else if m == MARKER_DOUBLE {
        parse_double(r)
    } else {
        Err(DecodeError::UnsupportedMarker)
    }
}

} // verus!
