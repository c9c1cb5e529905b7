//! The marker-dispatch recursive-descent parser for the legacy
//! format, together with the spec-level decoder it is proved against.
//!
//! Decoding consumes exactly the bytes of one value.  An unrecognized
//! or reserved marker yields the `Unsupported` sentinel and consumes
//! nothing beyond the marker byte: such a marker has no self-described
//! payload length, so the stream cannot be resynchronized past it and
//! any following sibling is not decodable.
use crate::amf0::{
    lemma_model_elems, lemma_model_props, Value, ValueModel, MARKER_BOOLEAN, MARKER_DATE, MARKER_ECMA_ARRAY, MARKER_LONG_STRING,
    MARKER_NULL, MARKER_NUMBER, MARKER_OBJECT, MARKER_OBJECT_END, MARKER_REFERENCE,
    MARKER_STRICT_ARRAY, MARKER_STRING, MARKER_TYPED_OBJECT, MARKER_UNDEFINED,
    MARKER_XML_DOCUMENT,
};
use crate::wire::{u16_from_be, u32_from_be, u64_from_be, utf8_to_string, Reader};
use crate::DecodeError;
use vstd::prelude::*;

verus! {

/// The first index of the property list holding `k`, or the length
/// when no entry does.
pub open spec fn index_of_key(ps: Seq<(Seq<char>, ValueModel)>, k: Seq<char>) -> int
    decreases ps,
{
    if ps.len() == 0 {
        0
    } else if ps[0].0 == k {
        0
    } else {
        1 + index_of_key(ps.subrange(1, ps.len() as int), k)
    }
}

/// `index_of_key` finds the first occurrence of the key, or the
/// length when the key is absent.
pub proof fn lemma_index_of_key(ps: Seq<(Seq<char>, ValueModel)>, k: Seq<char>)
    ensures
        0 <= index_of_key(ps, k) <= ps.len(),
        index_of_key(ps, k) < ps.len() ==> ps[index_of_key(ps, k)].0 == k,
        forall|i: int| 0 <= i < index_of_key(ps, k) ==> (#[trigger] ps[i]).0 != k,
    decreases ps,
{
    if ps.len() > 0 && ps[0].0 != k {
        let rest = ps.subrange(1, ps.len() as int);
        lemma_index_of_key(rest, k);
        assert forall|i: int| 0 <= i < index_of_key(ps, k) implies (#[trigger] ps[i]).0 != k by {
            if i > 0 {
                assert(ps[i] == rest[i - 1]);
            }
        }
    }
}

/// A map insertion on a property list: an existing entry for the key
/// is overwritten in place, a new key is appended.
pub open spec fn insert_prop(
    ps: Seq<(Seq<char>, ValueModel)>,
    k: Seq<char>,
    v: ValueModel,
) -> Seq<(Seq<char>, ValueModel)> {
    let i = index_of_key(ps, k);
    if i < ps.len() {
        ps.update(i, (k, v))
    } else {
        ps.push((k, v))
    }
}

/// The number payload: eight big-endian bytes taken as the bit
/// pattern of a 64-bit float, with no validation.
pub open spec fn dec_number(b: Seq<u8>, p: int) -> Result<(ValueModel, int), DecodeError> {
    if p + 8 <= b.len() {
        Ok(
            (
                ValueModel::Number(
                    u64_from_be(
                        b[p],
                        b[p + 1],
                        b[p + 2],
                        b[p + 3],
                        b[p + 4],
                        b[p + 5],
                        b[p + 6],
                        b[p + 7],
                    ),
                ),
                p + 8,
            ),
        )
    } else {
        Err(DecodeError::Truncated)
    }
}

/// The boolean payload: one byte, true exactly when nonzero.
pub open spec fn dec_boolean(b: Seq<u8>, p: int) -> Result<(ValueModel, int), DecodeError> {
    if p + 1 <= b.len() {
        Ok((ValueModel::Boolean(b[p] != 0), p + 1))
    } else {
        Err(DecodeError::Truncated)
    }
}

/// A 16-bit length prefix followed by that many bytes of UTF-8 text.
/// Bytes that are not valid UTF-8 are a decode failure, not a lossy
/// fallback.
pub open spec fn dec_text16(b: Seq<u8>, p: int) -> Result<(Seq<char>, int), DecodeError> {
    if p + 2 <= b.len() {
        let n = u16_from_be(b[p], b[p + 1]) as int;
        if p + 2 + n <= b.len() {
            let bs = b.subrange(p + 2, p + 2 + n);
            if vstd::utf8::valid_utf8(bs) {
                Ok((vstd::utf8::decode_utf8(bs), p + 2 + n))
            } else {
                Err(DecodeError::InvalidUtf8)
            }
        } else {
            Err(DecodeError::Truncated)
        }
    } else {
        Err(DecodeError::Truncated)
    }
}

/// A 32-bit length prefix followed by that many bytes of UTF-8 text.
pub open spec fn dec_text32(b: Seq<u8>, p: int) -> Result<(Seq<char>, int), DecodeError> {
    if p + 4 <= b.len() {
        let n = u32_from_be(b[p], b[p + 1], b[p + 2], b[p + 3]) as int;
        if p + 4 + n <= b.len() {
            let bs = b.subrange(p + 4, p + 4 + n);
            if vstd::utf8::valid_utf8(bs) {
                Ok((vstd::utf8::decode_utf8(bs), p + 4 + n))
            } else {
                Err(DecodeError::InvalidUtf8)
            }
        } else {
            Err(DecodeError::Truncated)
        }
    } else {
        Err(DecodeError::Truncated)
    }
}

/// The reference payload: a 16-bit table index, returned
/// uninterpreted.
pub open spec fn dec_reference(b: Seq<u8>, p: int) -> Result<(ValueModel, int), DecodeError> {
    if p + 2 <= b.len() {
        Ok((ValueModel::Reference(u16_from_be(b[p], b[p + 1])), p + 2))
    } else {
        Err(DecodeError::Truncated)
    }
}

/// The date payload: the timestamp bits, then the reserved timezone
/// field, decoded but not interpreted.
pub open spec fn dec_date(b: Seq<u8>, p: int) -> Result<(ValueModel, int), DecodeError> {
    if p + 10 <= b.len() {
        Ok(
            (
                ValueModel::Date {
                    millis: u64_from_be(
                        b[p],
                        b[p + 1],
                        b[p + 2],
                        b[p + 3],
                        b[p + 4],
                        b[p + 5],
                        b[p + 6],
                        b[p + 7],
                    ),
                    timezone: u16_from_be(b[p + 8], b[p + 9]),
                },
                p + 10,
            ),
        )
    } else {
        Err(DecodeError::Truncated)
    }
}

/// The short-string payload, tagged as a string value.
pub open spec fn dec_string(b: Seq<u8>, p: int) -> Result<(ValueModel, int), DecodeError> {
    match dec_text16(b, p) {
        Ok((s, end)) => Ok((ValueModel::String(s), end)),
        Err(e) => Err(e),
    }
}

/// The long-string payload, tagged as a string value.
pub open spec fn dec_long_string(b: Seq<u8>, p: int) -> Result<(ValueModel, int), DecodeError> {
    match dec_text32(b, p) {
        Ok((s, end)) => Ok((ValueModel::String(s), end)),
        Err(e) => Err(e),
    }
}

/// The markup payload: like a long string, tagged distinctly.
pub open spec fn dec_xml_document(b: Seq<u8>, p: int) -> Result<(ValueModel, int), DecodeError> {
    match dec_text32(b, p) {
        Ok((s, end)) => Ok((ValueModel::XMLDocument(s), end)),
        Err(e) => Err(e),
    }
}

/// The anonymous-object payload: the property loop, with an empty
/// class name.
pub open spec fn dec_object(b: Seq<u8>, p: int) -> Result<(ValueModel, int), DecodeError>
    decreases b.len() - p, 2int,
{
    match dec_props(b, p, Seq::empty()) {
        Ok((ps, end)) => Ok((ValueModel::Object { class_name: Seq::empty(), property: ps }, end)),
        Err(e) => Err(e),
    }
}

/// The associative-array payload: a 32-bit element count that is
/// advisory on the wire, read and discarded, then the property loop.
pub open spec fn dec_ecma_array(b: Seq<u8>, p: int) -> Result<(ValueModel, int), DecodeError>
    decreases b.len() - p, 2int,
{
    if p + 4 <= b.len() {
        match dec_props(b, p + 4, Seq::empty()) {
            Ok((ps, end)) => Ok((ValueModel::ECMAArray(ps), end)),
            Err(e) => Err(e),
        }
    } else {
        Err(DecodeError::Truncated)
    }
}

/// The strict-array payload: a trusted 32-bit count, then exactly
/// that many values.
pub open spec fn dec_strict_array(b: Seq<u8>, p: int) -> Result<(ValueModel, int), DecodeError>
    decreases b.len() - p, 2int,
{
    if p + 4 <= b.len() {
        let n = u32_from_be(b[p], b[p + 1], b[p + 2], b[p + 3]) as int;
        match dec_elems(b, p + 4, n) {
            Ok((vs, end)) => Ok((ValueModel::StrictArray(vs), end)),
            Err(e) => Err(e),
        }
    } else {
        Err(DecodeError::Truncated)
    }
}

/// The typed-object payload: a length-prefixed class name, then the
/// property loop.
pub open spec fn dec_typed_object(b: Seq<u8>, p: int) -> Result<(ValueModel, int), DecodeError>
    decreases b.len() - p, 2int,
{
    match dec_text16(b, p) {
        Ok((cn, p2)) => {
            if p < p2 <= b.len() {
                match dec_props(b, p2, Seq::empty()) {
                    Ok((ps, end)) => Ok((ValueModel::Object { class_name: cn, property: ps }, end)),
                    Err(e) => Err(e),
                }
            } else {
                Err(DecodeError::Truncated)
            }
        },
        Err(e) => Err(e),
    }
}

/// One whole value: a marker byte, then its payload; reserved and
/// unrecognized markers yield `Unsupported` with no payload read.
pub open spec fn dec_value(b: Seq<u8>, pos: int) -> Result<(ValueModel, int), DecodeError>
    decreases b.len() - pos, 2int,
{
    if pos < 0 || pos >= b.len() {
        Err(DecodeError::Truncated)
    } else {
        let m = b[pos];
        let p = pos + 1;
        if m == MARKER_NUMBER {
            dec_number(b, p)
        } else if m == MARKER_BOOLEAN {
            dec_boolean(b, p)
        } else if m == MARKER_STRING {
            dec_string(b, p)
        } else if m == MARKER_OBJECT {
            dec_object(b, p)
        } else if m == MARKER_NULL {
            Ok((ValueModel::Null, p))
        } else if m == MARKER_UNDEFINED {
            Ok((ValueModel::Undefined, p))
        } else if m == MARKER_REFERENCE {
            dec_reference(b, p)
        } else if m == MARKER_ECMA_ARRAY {
            dec_ecma_array(b, p)
        } else if m == MARKER_OBJECT_END {
            Ok((ValueModel::ObjectEnd, p))
        } else if m == MARKER_STRICT_ARRAY {
            dec_strict_array(b, p)
        } else if m == MARKER_DATE {
            dec_date(b, p)
        } else if m == MARKER_LONG_STRING {
            dec_long_string(b, p)
        } else if m == MARKER_XML_DOCUMENT {
            dec_xml_document(b, p)
        } else if m == MARKER_TYPED_OBJECT {
            dec_typed_object(b, p)
        } else {
            Ok((ValueModel::Unsupported, p))
        }
    }
}

/// The property loop: a length-prefixed key, then one value; the
/// end-of-properties sentinel stops the loop and the key read with it
/// is discarded.  A later occurrence of a key overwrites the earlier
/// entry in place.
pub open spec fn dec_props(b: Seq<u8>, pos: int, acc: Seq<(Seq<char>, ValueModel)>) -> Result<
    (Seq<(Seq<char>, ValueModel)>, int),
    DecodeError,
>
    decreases b.len() - pos, 1int,
{
    match dec_text16(b, pos) {
        Ok((key, p2)) => match dec_value(b, p2) {
            Ok((v, p3)) => {
                if v == ValueModel::ObjectEnd {
                    Ok((acc, p3))
                } else if pos < p3 <= b.len() {
                    dec_props(b, p3, insert_prop(acc, key, v))
                } else {
                    Err(DecodeError::Truncated)
                }
            },
            Err(e) => Err(e),
        },
        Err(e) => Err(e),
    }
}

/// Exactly `n` values in sequence, preserving order, with no
/// terminator; fewer available values than declared is a truncation
/// error.
pub open spec fn dec_elems(b: Seq<u8>, pos: int, n: int) -> Result<
    (Seq<ValueModel>, int),
    DecodeError,
>
    decreases b.len() - pos, 3int,
{
    if n <= 0 {
        Ok((Seq::empty(), pos))
    } else {
        match dec_value(b, pos) {
            Ok((v, p2)) => {
                if pos < p2 <= b.len() {
                    match dec_elems(b, p2, n - 1) {
                        Ok((vs, end)) => Ok((seq![v] + vs, end)),
                        Err(e) => Err(e),
                    }
                } else {
                    Err(DecodeError::Truncated)
                }
            },
            Err(e) => Err(e),
        }
    }
}

/// A value models the end-of-properties sentinel exactly when it is
/// that sentinel.
proof fn lemma_model_is_object_end(v: Value)
    ensures
        v.model() is ObjectEnd <==> v matches Value::ObjectEnd,
{
    match v {
        Value::ObjectEnd => {
        },
        _ => {
        },
    }
}

/// Inserts a property as the decode loop does: overwrite the first
/// entry with the same key in place, else append.
fn insert_prop_exec(ps: &mut Vec<(String, Value)>, key: String, v: Value)
    ensures
        Value::model_props(final(ps)@) == insert_prop(
            Value::model_props(old(ps)@),
            key@,
            v@,
        ),
{
    let ghost m = Value::model_props(old(ps)@);
    proof {
        lemma_model_props(old(ps)@);
        lemma_index_of_key(m, key@);
    }
    let n = ps.len();
    let mut j: usize = 0;
    while j < n
        invariant
            j <= n,
            n == ps@.len(),
            ps@ == old(ps)@,
            m == Value::model_props(ps@),
            m.len() == n,
            forall|i: int| 0 <= i < n ==> #[trigger] m[i] == (ps@[i].0@, ps@[i].1@),
            forall|i: int| 0 <= i < j ==> (#[trigger] m[i]).0 != key@,
        decreases n - j,
    {
        if ps[j].0 == key {
            proof {
                assert(ps@[j as int].0@ == key@);
                assert(m[j as int].0 == key@);
            }
            ps.set(j, (key, v));
            proof {
                lemma_index_of_key(m, key@);
                assert(index_of_key(m, key@) == j);
                lemma_model_props(ps@);
                assert(Value::model_props(ps@) =~= m.update(j as int, (key@, v@)));
            }
            return ;
        }
        j = j + 1;
    }
    ps.push((key, v));
    proof {
        lemma_index_of_key(m, key@);
        assert(index_of_key(m, key@) == m.len());
        lemma_model_props(ps@);
        assert(Value::model_props(ps@) =~= m.push((key@, v@)));
    }
}

/// Reads the number payload after its marker.
fn parse_number(r: &mut Reader) -> (res: Result<Value, DecodeError>)
    requires
        old(r).wf(),
    ensures
        final(r).data() == old(r).data(),
        final(r).wf(),
        match res {
            Ok(v) => dec_number(old(r).data(), old(r).pos()) == Ok::<(ValueModel, int), DecodeError>(
                (v@, final(r).pos()),
            ) && old(r).pos() <= final(r).pos(),
            Err(e) => dec_number(old(r).data(), old(r).pos()) == Err::<
                (ValueModel, int),
                DecodeError,
            >(e),
        },
{
    match r.read_u64() {
        Ok(bits) => Ok(Value::Number(bits)),
        Err(e) => Err(e),
    }
}

/// Reads the boolean payload after its marker: any nonzero byte is
/// true.
fn parse_boolean(r: &mut Reader) -> (res: Result<Value, DecodeError>)
    requires
        old(r).wf(),
    ensures
        final(r).data() == old(r).data(),
        final(r).wf(),
        match res {
            Ok(v) => dec_boolean(old(r).data(), old(r).pos()) == Ok::<
                (ValueModel, int),
                DecodeError,
            >((v@, final(r).pos())) && old(r).pos() <= final(r).pos(),
            Err(e) => dec_boolean(old(r).data(), old(r).pos()) == Err::<
                (ValueModel, int),
                DecodeError,
            >(e),
        },
{
    match r.read_u8() {
        Ok(b) => Ok(Value::Boolean(0 != b)),
        Err(e) => Err(e),
    }
}

/// Reads a 16-bit length prefix and that many bytes of UTF-8 text.
fn parse_text16(r: &mut Reader) -> (res: Result<String, DecodeError>)
    requires
        old(r).wf(),
    ensures
        final(r).data() == old(r).data(),
        final(r).wf(),
        match res {
            Ok(s) => dec_text16(old(r).data(), old(r).pos()) == Ok::<(Seq<char>, int), DecodeError>(
                (s@, final(r).pos()),
            ) && old(r).pos() <= final(r).pos(),
            Err(e) => dec_text16(old(r).data(), old(r).pos()) == Err::<
                (Seq<char>, int),
                DecodeError,
            >(e),
        },
{
    let n = match r.read_u16() {
        Ok(n) => n,
        Err(e) => {
            return Err(e);
        },
    };
    let buf = match r.read_bytes(n as usize) {
        Ok(buf) => buf,
        Err(e) => {
            return Err(e);
        },
    };
    match utf8_to_string(buf) {
        Some(s) => Ok(s),
        None => Err(DecodeError::InvalidUtf8),
    }
}

/// Reads a 32-bit length prefix and that many bytes of UTF-8 text.
fn parse_text32(r: &mut Reader) -> (res: Result<String, DecodeError>)
    requires
        old(r).wf(),
    ensures
        final(r).data() == old(r).data(),
        final(r).wf(),
        match res {
            Ok(s) => dec_text32(old(r).data(), old(r).pos()) == Ok::<(Seq<char>, int), DecodeError>(
                (s@, final(r).pos()),
            ) && old(r).pos() <= final(r).pos(),
            Err(e) => dec_text32(old(r).data(), old(r).pos()) == Err::<
                (Seq<char>, int),
                DecodeError,
            >(e),
        },
{
    let n = match r.read_u32() {
        Ok(n) => n,
        Err(e) => {
            return Err(e);
        },
    };
    let buf = match r.read_bytes(n as usize) {
        Ok(buf) => buf,
        Err(e) => {
            return Err(e);
        },
    };
    match utf8_to_string(buf) {
        Some(s) => Ok(s),
        None => Err(DecodeError::InvalidUtf8),
    }
}

/// Reads the short-string payload after its marker.
fn parse_string(r: &mut Reader) -> (res: Result<Value, DecodeError>)
    requires
        old(r).wf(),
    ensures
        final(r).data() == old(r).data(),
        final(r).wf(),
        match res {
            Ok(v) => dec_string(old(r).data(), old(r).pos()) == Ok::<(ValueModel, int), DecodeError>(
                (v@, final(r).pos()),
            ) && old(r).pos() <= final(r).pos(),
            Err(e) => dec_string(old(r).data(), old(r).pos()) == Err::<
                (ValueModel, int),
                DecodeError,
            >(e),
        },
{
    match parse_text16(r) {
        Ok(s) => Ok(Value::String(s)),
        Err(e) => Err(e),
    }
}

/// Reads the long-string payload after its marker.
fn parse_long_string(r: &mut Reader) -> (res: Result<Value, DecodeError>)
    requires
        old(r).wf(),
    ensures
        final(r).data() == old(r).data(),
        final(r).wf(),
        match res {
            Ok(v) => dec_long_string(old(r).data(), old(r).pos()) == Ok::<
                (ValueModel, int),
                DecodeError,
            >((v@, final(r).pos())) && old(r).pos() <= final(r).pos(),
            Err(e) => dec_long_string(old(r).data(), old(r).pos()) == Err::<
                (ValueModel, int),
                DecodeError,
            >(e),
        },
{
    match parse_text32(r) {
        Ok(s) => Ok(Value::String(s)),
        Err(e) => Err(e),
    }
}

/// Reads the markup payload after its marker.
fn parse_xml_document(r: &mut Reader) -> (res: Result<Value, DecodeError>)
    requires
        old(r).wf(),
    ensures
        final(r).data() == old(r).data(),
        final(r).wf(),
        match res {
            Ok(v) => dec_xml_document(old(r).data(), old(r).pos()) == Ok::<
                (ValueModel, int),
                DecodeError,
            >((v@, final(r).pos())) && old(r).pos() <= final(r).pos(),
            Err(e) => dec_xml_document(old(r).data(), old(r).pos()) == Err::<
                (ValueModel, int),
                DecodeError,
            >(e),
        },
{
    match parse_text32(r) {
        Ok(s) => Ok(Value::XMLDocument(s)),
        Err(e) => Err(e),
    }
}

/// Reads the reference payload after its marker.
fn parse_reference(r: &mut Reader) -> (res: Result<Value, DecodeError>)
    requires
        old(r).wf(),
    ensures
        final(r).data() == old(r).data(),
        final(r).wf(),
        match res {
            Ok(v) => dec_reference(old(r).data(), old(r).pos()) == Ok::<
                (ValueModel, int),
                DecodeError,
            >((v@, final(r).pos())) && old(r).pos() <= final(r).pos(),
            Err(e) => dec_reference(old(r).data(), old(r).pos()) == Err::<
                (ValueModel, int),
                DecodeError,
            >(e),
        },
{
    match r.read_u16() {
        Ok(idx) => Ok(Value::Reference(idx)),
        Err(e) => Err(e),
    }
}

/// Reads the date payload after its marker: timestamp bits, then the
/// reserved timezone field.
fn parse_date(r: &mut Reader) -> (res: Result<Value, DecodeError>)
    requires
        old(r).wf(),
    ensures
        final(r).data() == old(r).data(),
        final(r).wf(),
        match res {
            Ok(v) => dec_date(old(r).data(), old(r).pos()) == Ok::<(ValueModel, int), DecodeError>(
                (v@, final(r).pos()),
            ) && old(r).pos() <= final(r).pos(),
            Err(e) => dec_date(old(r).data(), old(r).pos()) == Err::<(ValueModel, int), DecodeError>(
                e,
            ),
        },
{
    let millis = match r.read_u64() {
        Ok(x) => x,
        Err(e) => {
            return Err(e);
        },
    };
    match r.read_u16() {
        Ok(timezone) => Ok(Value::Date(crate::Date { millis, timezone })),
        Err(e) => Err(e),
    }
}

/// Reads the property loop after an object or associative-array
/// header: key, value, repeat, until the end-of-properties sentinel.
fn parse_object_property(r: &mut Reader) -> (res: Result<Vec<(String, Value)>, DecodeError>)
    requires
        old(r).wf(),
    ensures
        final(r).data() == old(r).data(),
        final(r).wf(),
        match res {
            Ok(ps) => dec_props(old(r).data(), old(r).pos(), Seq::empty()) == Ok::<
                (Seq<(Seq<char>, ValueModel)>, int),
                DecodeError,
            >((Value::model_props(ps@), final(r).pos())) && old(r).pos() <= final(r).pos(),
            Err(e) => dec_props(old(r).data(), old(r).pos(), Seq::empty()) == Err::<
                (Seq<(Seq<char>, ValueModel)>, int),
                DecodeError,
            >(e),
        },
    decreases old(r).data().len() - old(r).pos(), 1int,
{
    let ghost b = old(r).data();
    let ghost p0 = old(r).pos();
    let mut property: Vec<(String, Value)> = Vec::new();
    proof {
        assert(Value::model_props(property@) =~= Seq::<(Seq<char>, ValueModel)>::empty());
    }
    loop
        invariant
            r.wf(),
            r.data() == b,
            b == old(r).data(),
            p0 == old(r).pos(),
            p0 <= r.pos(),
            dec_props(b, p0, Seq::empty()) == dec_props(b, r.pos(), Value::model_props(property@)),
        decreases b.len() - r.pos(),
    {
        let key = match parse_text16(r) {
            Ok(k) => k,
            Err(e) => {
                return Err(e);
            },
        };
        match from_bytes(r) {
            Ok(v) => {
                proof {
                    lemma_model_is_object_end(v);
                }
                if matches!(v, Value::ObjectEnd) {
                    return Ok(property);
                }
                insert_prop_exec(&mut property, key, v);
                proof {
                    assert(dec_props(b, p0, Seq::empty()) == dec_props(
                        b,
                        r.pos(),
                        Value::model_props(property@),
                    ));
                }
            },
            Err(e) => {
                return Err(e);
            },
        }
    }
}

/// Reads the anonymous-object payload after its marker.
fn parse_object(r: &mut Reader) -> (res: Result<Value, DecodeError>)
    requires
        old(r).wf(),
    ensures
        final(r).data() == old(r).data(),
        final(r).wf(),
        match res {
            Ok(v) => dec_object(old(r).data(), old(r).pos()) == Ok::<(ValueModel, int), DecodeError>(
                (v@, final(r).pos()),
            ) && old(r).pos() <= final(r).pos(),
            Err(e) => dec_object(old(r).data(), old(r).pos()) == Err::<
                (ValueModel, int),
                DecodeError,
            >(e),
        },
    decreases old(r).data().len() - old(r).pos(), 2int,
{
    match parse_object_property(r) {
        Ok(property) => Ok(Value::Object(crate::Object { class_name: String::new(), property })),
        Err(e) => Err(e),
    }
}

/// Reads the associative-array payload after its marker; the declared
/// count is advisory and discarded.
fn parse_ecma_array(r: &mut Reader) -> (res: Result<Value, DecodeError>)
    requires
        old(r).wf(),
    ensures
        final(r).data() == old(r).data(),
        final(r).wf(),
        match res {
            Ok(v) => dec_ecma_array(old(r).data(), old(r).pos()) == Ok::<
                (ValueModel, int),
                DecodeError,
            >((v@, final(r).pos())) && old(r).pos() <= final(r).pos(),
            Err(e) => dec_ecma_array(old(r).data(), old(r).pos()) == Err::<
                (ValueModel, int),
                DecodeError,
            >(e),
        },
    decreases old(r).data().len() - old(r).pos(), 2int,
{
    match r.read_u32() {
        Ok(_) => {},
        Err(e) => {
            return Err(e);
        },
    }
    match parse_object_property(r) {
        Ok(property) => Ok(Value::ECMAArray(property)),
        Err(e) => Err(e),
    }
}

/// Reads the typed-object payload after its marker: a class name,
/// then the property loop.
fn parse_typed_object(r: &mut Reader) -> (res: Result<Value, DecodeError>)
    requires
        old(r).wf(),
    ensures
        final(r).data() == old(r).data(),
        final(r).wf(),
        match res {
            Ok(v) => dec_typed_object(old(r).data(), old(r).pos()) == Ok::<
                (ValueModel, int),
                DecodeError,
            >((v@, final(r).pos())) && old(r).pos() <= final(r).pos(),
            Err(e) => dec_typed_object(old(r).data(), old(r).pos()) == Err::<
                (ValueModel, int),
                DecodeError,
            >(e),
        },
    decreases old(r).data().len() - old(r).pos(), 2int,
{
    let class_name = match parse_text16(r) {
        Ok(s) => s,
        Err(e) => {
            return Err(e);
        },
    };
    match parse_object_property(r) {
        Ok(property) => Ok(Value::Object(crate::Object { class_name, property })),
        Err(e) => Err(e),
    }
}

/// Reads the strict-array payload after its marker: the count is
/// trusted, and exactly that many values follow.
fn parse_strict_array(r: &mut Reader) -> (res: Result<Value, DecodeError>)
    requires
        old(r).wf(),
    ensures
        final(r).data() == old(r).data(),
        final(r).wf(),
        match res {
            Ok(v) => dec_strict_array(old(r).data(), old(r).pos()) == Ok::<
                (ValueModel, int),
                DecodeError,
            >((v@, final(r).pos())) && old(r).pos() <= final(r).pos(),
            Err(e) => dec_strict_array(old(r).data(), old(r).pos()) == Err::<
                (ValueModel, int),
                DecodeError,
            >(e),
        },
    decreases old(r).data().len() - old(r).pos(), 2int,
{
    let ghost b = old(r).data();
    let n = match r.read_u32() {
        Ok(x) => x,
        Err(e) => {
            return Err(e);
        },
    };
    let ghost p0 = r.pos();
    let mut vec: Vec<Value> = Vec::new();
    proof {
        assert(Value::model_elems(vec@) =~= Seq::<ValueModel>::empty());
    }
    let mut i: u32 = 0;
    while i < n
        invariant
            r.wf(),
            r.data() == b,
            b == old(r).data(),
            p0 == old(r).pos() + 4,
            p0 <= r.pos(),
            i <= n,
            old(r).pos() + 4 <= b.len(),
            n == crate::wire::u32_from_be(
                b[old(r).pos()],
                b[old(r).pos() + 1],
                b[old(r).pos() + 2],
                b[old(r).pos() + 3],
            ),
            ({
                let cont = dec_elems(b, r.pos(), n - i);
                match cont {
                    Ok((vs, end)) => dec_elems(b, p0, n as int) == Ok::<
                        (Seq<ValueModel>, int),
                        DecodeError,
                    >((Value::model_elems(vec@) + vs, end)),
                    Err(e) => dec_elems(b, p0, n as int) == Err::<
                        (Seq<ValueModel>, int),
                        DecodeError,
                    >(e),
                }
            }),
        decreases n - i,
    {
        let ghost pit = r.pos();
        let ghost acc = Value::model_elems(vec@);
        let ghost old_vec = vec@;
        match from_bytes(r) {
            Ok(v) => {
                let ghost vm = v@;
                vec.push(v);
                proof {
                    lemma_model_elems(old_vec);
                    lemma_model_elems(vec@);
                    assert(Value::model_elems(vec@) =~= acc.push(vm));
                    match dec_elems(b, r.pos(), n - i - 1) {
                        Ok((vs2, end)) => {
                            assert(dec_elems(b, pit, n - i) == Ok::<
                                (Seq<ValueModel>, int),
                                DecodeError,
                            >((seq![vm] + vs2, end)));
                            assert(acc + (seq![vm] + vs2) =~= acc.push(vm) + vs2);
                        },
                        Err(_) => {},
                    }
                }
            },
            Err(e) => {
                proof {
                    assert(dec_elems(b, pit, n - i) == Err::<(Seq<ValueModel>, int), DecodeError>(
                        e,
                    ));
                    assert(dec_strict_array(b, old(r).pos()) == Err::<
                        (ValueModel, int),
                        DecodeError,
                    >(e));
                }
                return Err(e);
            },
        }
        i = i + 1;
    }
    proof {
        assert(Value::model_elems(vec@) + Seq::<ValueModel>::empty() =~= Value::model_elems(vec@));
        assert(dec_elems(b, r.pos(), 0) == Ok::<(Seq<ValueModel>, int), DecodeError>(
            (Seq::empty(), r.pos()),
        ));
        assert(dec_elems(b, p0, n as int) == Ok::<(Seq<ValueModel>, int), DecodeError>(
            (Value::model_elems(vec@), r.pos()),
        ));
        assert(dec_strict_array(b, old(r).pos()) == Ok::<(ValueModel, int), DecodeError>(
            (ValueModel::StrictArray(Value::model_elems(vec@)), r.pos()),
        ));
    }
    Ok(Value::StrictArray(vec))
}

/// Decodes one whole value from the reader: a marker byte, then the
/// payload that marker calls for.  Consumes exactly the bytes of one
/// value, so repeated calls decode a stream of concatenated values.
/// A reserved or unrecognized marker yields `Unsupported` and
/// consumes only the marker byte.
pub fn from_bytes(r: &mut Reader) -> (res: Result<Value, DecodeError>)
    requires
        old(r).wf(),
    ensures
        final(r).data() == old(r).data(),
        final(r).wf(),
        match res {
            Ok(v) => dec_value(old(r).data(), old(r).pos()) == Ok::<(ValueModel, int), DecodeError>(
                (v@, final(r).pos()),
            ) && old(r).pos() < final(r).pos(),
            Err(e) => dec_value(old(r).data(), old(r).pos()) == Err::<
                (ValueModel, int),
                DecodeError,
            >(e),
        },
    decreases old(r).data().len() - old(r).pos(), 2int,
{
    let m = match r.read_u8() {
        Ok(m) => m,
        Err(e) => {
            return Err(e);
        },
    };
    if m == MARKER_NUMBER {
        parse_number(r)
    } else if m == MARKER_BOOLEAN {
        parse_boolean(r)
    } else if m == MARKER_STRING {
        parse_string(r)
    } else if m == MARKER_OBJECT {
        parse_object(r)
    } else if m == MARKER_NULL {
        Ok(Value::Null)
    } else if m == MARKER_UNDEFINED {
        Ok(Value::Undefined)
    } else if m == MARKER_REFERENCE {
        parse_reference(r)
    } else if m == MARKER_ECMA_ARRAY {
        parse_ecma_array(r)
    } else if m == MARKER_OBJECT_END {
        Ok(Value::ObjectEnd)
    } else if m == MARKER_STRICT_ARRAY {
        parse_strict_array(r)
    } else if m == MARKER_DATE {
        parse_date(r)
    } else if m == MARKER_LONG_STRING {
        parse_long_string(r)
    } else if m == MARKER_XML_DOCUMENT {
        parse_xml_document(r)
    } else if m == MARKER_TYPED_OBJECT {
        parse_typed_object(r)
    } else {
        Ok(Value::Unsupported)
    }
}

} // verus!
