//! Byte-level primitives shared by both formats: big-endian
//! fixed-width integers, a position-tracking byte reader, and writers
//! that append to a byte vector.
use crate::DecodeError;
use vstd::prelude::*;

verus! {

/// The unsigned value of two big-endian bytes.
pub open spec fn u16_from_be(b0: u8, b1: u8) -> u16 {
    ((b0 as u16) << 8) | (b1 as u16)
}

/// The unsigned value of four big-endian bytes.
pub open spec fn u32_from_be(b0: u8, b1: u8, b2: u8, b3: u8) -> u32 {
    ((b0 as u32) << 24) | ((b1 as u32) << 16) | ((b2 as u32) << 8) | (b3 as u32)
}

/// The unsigned value of eight big-endian bytes.
pub open spec fn u64_from_be(b0: u8, b1: u8, b2: u8, b3: u8, b4: u8, b5: u8, b6: u8, b7: u8) -> u64 {
    ((b0 as u64) << 56) | ((b1 as u64) << 48) | ((b2 as u64) << 40) | ((b3 as u64) << 32) | ((
    b4 as u64) << 24) | ((b5 as u64) << 16) | ((b6 as u64) << 8) | (b7 as u64)
}

/// The two big-endian bytes of a 16-bit value.
pub open spec fn u16_to_be(x: u16) -> Seq<u8> {
    seq![((x >> 8) & 0xff) as u8, (x & 0xff) as u8]
}

/// The four big-endian bytes of a 32-bit value.
pub open spec fn u32_to_be(x: u32) -> Seq<u8> {
    seq![
        ((x >> 24) & 0xff) as u8,
        ((x >> 16) & 0xff) as u8,
        ((x >> 8) & 0xff) as u8,
        (x & 0xff) as u8,
    ]
}

/// The eight big-endian bytes of a 64-bit value.
pub open spec fn u64_to_be(x: u64) -> Seq<u8> {
    seq![
        ((x >> 56) & 0xff) as u8,
        ((x >> 48) & 0xff) as u8,
        ((x >> 40) & 0xff) as u8,
        ((x >> 32) & 0xff) as u8,
        ((x >> 24) & 0xff) as u8,
        ((x >> 16) & 0xff) as u8,
        ((x >> 8) & 0xff) as u8,
        (x & 0xff) as u8,
    ]
}

/// Reading back the two big-endian bytes of a value gives the value.
pub proof fn lemma_u16_be_roundtrip(x: u16)
    ensures
        u16_from_be(u16_to_be(x)[0], u16_to_be(x)[1]) == x,
{
    let b0 = ((x >> 8) & 0xff) as u8;
    let b1 = (x & 0xff) as u8;
    assert((((b0 as u16) << 8) | (b1 as u16)) == x) by (bit_vector)
        requires
            b0 == ((x >> 8) & 0xff) as u8 && b1 == (x & 0xff) as u8,
    ;
}

/// Reading back the four big-endian bytes of a value gives the value.
pub proof fn lemma_u32_be_roundtrip(x: u32)
    ensures
        u32_from_be(u32_to_be(x)[0], u32_to_be(x)[1], u32_to_be(x)[2], u32_to_be(x)[3]) == x,
{
    let b0 = ((x >> 24) & 0xff) as u8;
    let b1 = ((x >> 16) & 0xff) as u8;
    let b2 = ((x >> 8) & 0xff) as u8;
    let b3 = (x & 0xff) as u8;
    assert((((b0 as u32) << 24) | ((b1 as u32) << 16) | ((b2 as u32) << 8) | (b3 as u32)) == x)
        by (bit_vector)
        requires
            b0 == ((x >> 24) & 0xff) as u8 && b1 == ((x >> 16) & 0xff) as u8 && b2 == ((x >> 8)
                & 0xff) as u8 && b3 == (x & 0xff) as u8,
    ;
}

/// Reading back the eight big-endian bytes of a value gives the value.
pub proof fn lemma_u64_be_roundtrip(x: u64)
    ensures
        u64_from_be(
            u64_to_be(x)[0],
            u64_to_be(x)[1],
            u64_to_be(x)[2],
            u64_to_be(x)[3],
            u64_to_be(x)[4],
            u64_to_be(x)[5],
            u64_to_be(x)[6],
            u64_to_be(x)[7],
        ) == x,
{
    let b0 = ((x >> 56) & 0xff) as u8;
    let b1 = ((x >> 48) & 0xff) as u8;
    let b2 = ((x >> 40) & 0xff) as u8;
    let b3 = ((x >> 32) & 0xff) as u8;
    let b4 = ((x >> 24) & 0xff) as u8;
    let b5 = ((x >> 16) & 0xff) as u8;
    let b6 = ((x >> 8) & 0xff) as u8;
    let b7 = (x & 0xff) as u8;
    assert((((b0 as u64) << 56) | ((b1 as u64) << 48) | ((b2 as u64) << 40) | ((b3 as u64) << 32) | (
    (b4 as u64) << 24) | ((b5 as u64) << 16) | ((b6 as u64) << 8) | (b7 as u64)) == x)
        by (bit_vector)
        requires
            b0 == ((x >> 56) & 0xff) as u8 && b1 == ((x >> 48) & 0xff) as u8 && b2 == ((x >> 40)
                & 0xff) as u8 && b3 == ((x >> 32) & 0xff) as u8 && b4 == ((x >> 24) & 0xff) as u8
                && b5 == ((x >> 16) & 0xff) as u8 && b6 == ((x >> 8) & 0xff) as u8 && b7 == (x
                & 0xff) as u8,
    ;
}

/// Relies on String::from_utf8: it succeeds exactly on valid UTF-8
/// input and returns the string whose encoding the input is.
#[verifier::external_body]
pub fn utf8_to_string(bytes: Vec<u8>) -> (r: Option<String>)
    ensures
        r is Some <==> vstd::utf8::valid_utf8(bytes@),
        r matches Some(s) ==> s@ == vstd::utf8::decode_utf8(bytes@),
{
    String::from_utf8(bytes).ok()
}

/// A length reduced modulo 2^16, as a 16-bit length prefix records it.
pub open spec fn clip16(n: nat) -> u16 {
    (n % 0x10000) as u16
}

/// A length reduced modulo 2^32, as a 32-bit length prefix records it.
pub open spec fn clip32(n: nat) -> u32 {
    (n % 0x100000000) as u32
}

/// The low 16 bits of a length, as written into a 16-bit prefix.
pub fn clip16_exec(n: usize) -> (r: u16)
    ensures
        r == clip16(n as nat),
{
    (n % 0x10000) as u16
}

/// The low 32 bits of a length, as written into a 32-bit prefix.
pub fn clip32_exec(n: usize) -> (r: u32)
    ensures
        r == clip32(n as nat),
{
    ((n as u64) % 0x100000000u64) as u32
}

/// A byte source with a position; each read consumes from the front.
pub struct Reader {
    bytes: Vec<u8>,
    pos: usize,
}

impl Reader {
    /// The whole underlying byte sequence.
    pub closed spec fn data(&self) -> Seq<u8> {
        self.bytes@
    }

    /// The position of the next unread byte.
    pub closed spec fn pos(&self) -> int {
        self.pos as int
    }

    /// The position never runs past the end of the data.
    pub open spec fn wf(&self) -> bool {
        0 <= self.pos() <= self.data().len()
    }

    /// A reader positioned at the start of the given bytes.
    pub fn new(bytes: Vec<u8>) -> (r: Reader)
        ensures
            r.data() == bytes@,
            r.pos() == 0,
            r.wf(),
    {
        Reader { bytes, pos: 0 }
    }

    /// The number of bytes consumed so far.
    pub fn position(&self) -> (p: usize)
        ensures
            p == self.pos(),
    {
        self.pos
    }

    /// One byte, or `Truncated` at the end of the data.
    pub fn read_u8(&mut self) -> (res: Result<u8, DecodeError>)
        requires
            old(self).wf(),
        ensures
            final(self).data() == old(self).data(),
            final(self).wf(),
            res is Ok <==> old(self).pos() < old(self).data().len(),
            match res {
                Ok(b) => b == old(self).data()[old(self).pos()] && final(self).pos() == old(
                    self,
                ).pos() + 1,
                Err(e) => e == DecodeError::Truncated && final(self).pos() == old(self).pos(),
            },
    {
        if self.pos < self.bytes.len() {
            let b = self.bytes[self.pos];
            self.pos = self.pos + 1;
            Ok(b)
        } else {
            Err(DecodeError::Truncated)
        }
    }

    /// A big-endian 16-bit value, or `Truncated`.
    pub fn read_u16(&mut self) -> (res: Result<u16, DecodeError>)
        requires
            old(self).wf(),
        ensures
            final(self).data() == old(self).data(),
            final(self).wf(),
            res is Ok <==> old(self).pos() + 2 <= old(self).data().len(),
            match res {
                Ok(x) => x == u16_from_be(
                    old(self).data()[old(self).pos()],
                    old(self).data()[old(self).pos() + 1],
                ) && final(self).pos() == old(self).pos() + 2,
                Err(e) => e == DecodeError::Truncated && final(self).pos() == old(self).pos(),
            },
    {
        if self.bytes.len() - self.pos >= 2 {
            let b0 = self.bytes[self.pos];
            let b1 = self.bytes[self.pos + 1];
            self.pos = self.pos + 2;
            Ok(((b0 as u16) << 8) | (b1 as u16))
        } else {
            Err(DecodeError::Truncated)
        }
    }

    /// A big-endian 32-bit value, or `Truncated`.
    pub fn read_u32(&mut self) -> (res: Result<u32, DecodeError>)
        requires
            old(self).wf(),
        ensures
            final(self).data() == old(self).data(),
            final(self).wf(),
            res is Ok <==> old(self).pos() + 4 <= old(self).data().len(),
            match res {
                Ok(x) => x == u32_from_be(
                    old(self).data()[old(self).pos()],
                    old(self).data()[old(self).pos() + 1],
                    old(self).data()[old(self).pos() + 2],
                    old(self).data()[old(self).pos() + 3],
                ) && final(self).pos() == old(self).pos() + 4,
                Err(e) => e == DecodeError::Truncated && final(self).pos() == old(self).pos(),
            },
    {
        if self.bytes.len() - self.pos >= 4 {
            let b0 = self.bytes[self.pos];
            let b1 = self.bytes[self.pos + 1];
            let b2 = self.bytes[self.pos + 2];
            let b3 = self.bytes[self.pos + 3];
            self.pos = self.pos + 4;
            Ok(((b0 as u32) << 24) | ((b1 as u32) << 16) | ((b2 as u32) << 8) | (b3 as u32))
        } else {
            Err(DecodeError::Truncated)
        }
    }

    /// A big-endian 64-bit value, or `Truncated`.
    pub fn read_u64(&mut self) -> (res: Result<u64, DecodeError>)
        requires
            old(self).wf(),
        ensures
            final(self).data() == old(self).data(),
            final(self).wf(),
            res is Ok <==> old(self).pos() + 8 <= old(self).data().len(),
            match res {
                Ok(x) => x == u64_from_be(
                    old(self).data()[old(self).pos()],
                    old(self).data()[old(self).pos() + 1],
                    old(self).data()[old(self).pos() + 2],
                    old(self).data()[old(self).pos() + 3],
                    old(self).data()[old(self).pos() + 4],
                    old(self).data()[old(self).pos() + 5],
                    old(self).data()[old(self).pos() + 6],
                    old(self).data()[old(self).pos() + 7],
                ) && final(self).pos() == old(self).pos() + 8,
                Err(e) => e == DecodeError::Truncated && final(self).pos() == old(self).pos(),
            },
    {
        if self.bytes.len() - self.pos >= 8 {
            let b0 = self.bytes[self.pos];
            let b1 = self.bytes[self.pos + 1];
            let b2 = self.bytes[self.pos + 2];
            let b3 = self.bytes[self.pos + 3];
            let b4 = self.bytes[self.pos + 4];
            let b5 = self.bytes[self.pos + 5];
            let b6 = self.bytes[self.pos + 6];
            let b7 = self.bytes[self.pos + 7];
            self.pos = self.pos + 8;
            Ok(
                ((b0 as u64) << 56) | ((b1 as u64) << 48) | ((b2 as u64) << 40) | ((b3 as u64)
                    << 32) | ((b4 as u64) << 24) | ((b5 as u64) << 16) | ((b6 as u64) << 8) | (
                b7 as u64),
            )
        } else {
            Err(DecodeError::Truncated)
        }
    }

    /// Exactly `n` bytes, or `Truncated`.
    pub fn read_bytes(&mut self, n: usize) -> (res: Result<Vec<u8>, DecodeError>)
        requires
            old(self).wf(),
        ensures
            final(self).data() == old(self).data(),
            final(self).wf(),
            res is Ok <==> old(self).pos() + n <= old(self).data().len(),
            match res {
                Ok(v) => v@ == old(self).data().subrange(
                    old(self).pos(),
                    old(self).pos() + n,
                ) && final(self).pos() == old(self).pos() + n,
                Err(e) => e == DecodeError::Truncated && final(self).pos() == old(self).pos(),
            },
    {
        if self.bytes.len() - self.pos >= n {
            let mut out: Vec<u8> = Vec::new();
            let mut i: usize = 0;
            while i < n
                invariant
                    i <= n,
                    self.pos + n <= self.bytes@.len(),
                    self.bytes@.len() <= usize::MAX,
                    out@ == self.bytes@.subrange(self.pos as int, self.pos + i),
                decreases n - i,
            {
                out.push(self.bytes[self.pos + i]);
                assert(out@ =~= self.bytes@.subrange(self.pos as int, self.pos + i + 1));
                i = i + 1;
            }
            self.pos = self.pos + n;
            Ok(out)
        } else {
            Err(DecodeError::Truncated)
        }
    }
}

/// Appends one byte.
pub fn write_u8(w: &mut Vec<u8>, b: u8)
    ensures
        final(w)@ == old(w)@ + seq![b],
{
    w.push(b);
    assert(w@ =~= old(w)@ + seq![b]);
}

/// Appends the two big-endian bytes of a 16-bit value.
pub fn write_u16_be(w: &mut Vec<u8>, x: u16)
    ensures
        final(w)@ == old(w)@ + u16_to_be(x),
{
    assert(((x >> 8) & 0xff) < 256 && (x & 0xff) < 256) by (bit_vector);
    w.push(((x >> 8) & 0xff) as u8);
    w.push((x & 0xff) as u8);
    assert(w@ =~= old(w)@ + u16_to_be(x));
}

/// Appends the four big-endian bytes of a 32-bit value.
pub fn write_u32_be(w: &mut Vec<u8>, x: u32)
    ensures
        final(w)@ == old(w)@ + u32_to_be(x),
{
    assert(((x >> 24) & 0xff) < 256 && ((x >> 16) & 0xff) < 256 && ((x >> 8) & 0xff) < 256 && (x
        & 0xff) < 256) by (bit_vector);
    w.push(((x >> 24) & 0xff) as u8);
    w.push(((x >> 16) & 0xff) as u8);
    w.push(((x >> 8) & 0xff) as u8);
    w.push((x & 0xff) as u8);
    assert(w@ =~= old(w)@ + u32_to_be(x));
}

/// Appends the eight big-endian bytes of a 64-bit value.
pub fn write_u64_be(w: &mut Vec<u8>, x: u64)
    ensures
        final(w)@ == old(w)@ + u64_to_be(x),
{
    assert(((x >> 56) & 0xff) < 256 && ((x >> 48) & 0xff) < 256 && ((x >> 40) & 0xff) < 256 && ((x
        >> 32) & 0xff) < 256 && ((x >> 24) & 0xff) < 256 && ((x >> 16) & 0xff) < 256 && ((x >> 8)
        & 0xff) < 256 && (x & 0xff) < 256) by (bit_vector);
    w.push(((x >> 56) & 0xff) as u8);
    w.push(((x >> 48) & 0xff) as u8);
    w.push(((x >> 40) & 0xff) as u8);
    w.push(((x >> 32) & 0xff) as u8);
    w.push(((x >> 24) & 0xff) as u8);
    w.push(((x >> 16) & 0xff) as u8);
    w.push(((x >> 8) & 0xff) as u8);
    w.push((x & 0xff) as u8);
    assert(w@ =~= old(w)@ + u64_to_be(x));
}

/// Appends all bytes of a slice.
pub fn write_bytes(w: &mut Vec<u8>, bytes: &[u8])
    ensures
        final(w)@ == old(w)@ + bytes@,
{
    let n = bytes.len();
    let mut i: usize = 0;
    while i < n
        invariant
            i <= n,
            n == bytes@.len(),
            w@ == old(w)@ + bytes@.subrange(0, i as int),
        decreases n - i,
    {
        let b = *vstd::slice::slice_index_get(bytes, i);
        w.push(b);
        assert(w@ =~= old(w)@ + bytes@.subrange(0, i + 1));
        i = i + 1;
    }
    assert(bytes@.subrange(0, n as int) =~= bytes@);
}

} // verus!
