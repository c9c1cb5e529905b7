//! The laws tying the encoder and decoder together: decoding an
//! encoded value gives the value back and consumes exactly its bytes.
use crate::amf0::decoder::{
    dec_date, dec_elems, dec_number, dec_props, dec_text16, dec_text32, dec_value, index_of_key,
    insert_prop, lemma_index_of_key,
};
use crate::amf0::{
    elems_encodable, enc_elems, enc_props, enc_terminator, enc_value, encodable,
    lemma_encode_utf8_empty, props_each_encodable, unique_keys, ValueModel, MARKER_OBJECT_END,
};
use crate::wire::{
    clip16, clip32, lemma_u16_be_roundtrip, lemma_u32_be_roundtrip, lemma_u64_be_roundtrip,
    u16_from_be, u16_to_be, u32_to_be,
};
use crate::DecodeError;
use vstd::prelude::*;

verus! {

/// Splitting a window of the buffer that holds a concatenation gives
/// a window for each part.
proof fn lemma_prefix_suffix(b: Seq<u8>, pos: int, x: Seq<u8>, y: Seq<u8>)
    requires
        0 <= pos,
        pos + x.len() + y.len() <= b.len(),
        b.subrange(pos, pos + x.len() + y.len()) == x + y,
    ensures
        b.subrange(pos, pos + x.len()) == x,
        b.subrange(pos + x.len(), pos + x.len() + y.len()) == y,
{
    let l = x.len() + y.len();
    lemma_window_bytes(b, pos, x + y);
    assert forall|i: int| 0 <= i < x.len() implies b.subrange(pos, pos + x.len())[i] == x[i] by {
        assert(b[pos + i] == (x + y)[pos + i - pos]);
    }
    assert(b.subrange(pos, pos + x.len()) =~= x);
    assert forall|i: int|
        0 <= i < y.len() implies b.subrange(pos + x.len(), pos + l)[i] == y[i] by {
        assert(b[pos + x.len() + i] == (x + y)[pos + x.len() + i - pos]);
    }
    assert(b.subrange(pos + x.len(), pos + l) =~= y);
}

/// Every byte of a window that holds `e` is the matching byte of `e`.
proof fn lemma_window_bytes(b: Seq<u8>, pos: int, e: Seq<u8>)
    requires
        0 <= pos,
        pos + e.len() <= b.len(),
        b.subrange(pos, pos + e.len()) == e,
    ensures
        forall|i: int| pos <= i < pos + e.len() ==> #[trigger] b[i] == e[i - pos],
{
    assert forall|i: int| pos <= i < pos + e.len() implies #[trigger] b[i] == e[i - pos] by {
        assert(b.subrange(pos, pos + e.len())[i - pos] == b[i]);
    }
}

/// No key of `acc` occurs in `ps`.
pub open spec fn keys_disjoint(
    acc: Seq<(Seq<char>, ValueModel)>,
    ps: Seq<(Seq<char>, ValueModel)>,
) -> bool {
    forall|i: int, j: int|
        0 <= i < acc.len() && 0 <= j < ps.len() ==> (#[trigger] acc[i]).0 != (#[trigger] ps[j]).0
}

/// Decoding a length-prefixed text field that was written from a
/// character sequence gives the characters back.
proof fn lemma_enc_dec_text16(s: Seq<char>, b: Seq<u8>, pos: int)
    requires
        vstd::utf8::encode_utf8(s).len() <= 0xffff,
        0 <= pos,
        pos + 2 + vstd::utf8::encode_utf8(s).len() <= b.len(),
        b.subrange(pos, pos + 2 + vstd::utf8::encode_utf8(s).len()) == u16_to_be(
            clip16(vstd::utf8::encode_utf8(s).len()),
        ) + vstd::utf8::encode_utf8(s),
    ensures
        dec_text16(b, pos) == Ok::<(Seq<char>, int), DecodeError>(
            (s, pos + 2 + vstd::utf8::encode_utf8(s).len()),
        ),
{
    let kb = vstd::utf8::encode_utf8(s);
    let n16 = clip16(kb.len());
    lemma_prefix_suffix(b, pos, u16_to_be(n16), kb);
    lemma_u16_be_roundtrip(n16);
    assert(b[pos] == u16_to_be(n16)[0] && b[pos + 1] == u16_to_be(n16)[1]) by {
        assert(b.subrange(pos, pos + 2)[0] == b[pos]);
        assert(b.subrange(pos, pos + 2)[1] == b[pos + 1]);
    }
    assert(u16_from_be(b[pos], b[pos + 1]) == n16);
    assert(n16 == kb.len());
    assert(b.subrange(pos + 2, pos + 2 + n16) == kb);
    vstd::utf8::encode_utf8_valid_utf8(s);
    vstd::utf8::encode_utf8_decode_utf8(s);
}

/// The 32-bit form of the text lemma.
proof fn lemma_enc_dec_text32(s: Seq<char>, b: Seq<u8>, pos: int)
    requires
        vstd::utf8::encode_utf8(s).len() <= 0xffffffff,
        0 <= pos,
        pos + 4 + vstd::utf8::encode_utf8(s).len() <= b.len(),
        b.subrange(pos, pos + 4 + vstd::utf8::encode_utf8(s).len()) == u32_to_be(
            clip32(vstd::utf8::encode_utf8(s).len()),
        ) + vstd::utf8::encode_utf8(s),
    ensures
        dec_text32(b, pos) == Ok::<(Seq<char>, int), DecodeError>(
            (s, pos + 4 + vstd::utf8::encode_utf8(s).len()),
        ),
{
    let kb = vstd::utf8::encode_utf8(s);
    let n32 = clip32(kb.len());
    lemma_prefix_suffix(b, pos, u32_to_be(n32), kb);
    lemma_u32_be_roundtrip(n32);
    assert(b[pos] == u32_to_be(n32)[0] && b[pos + 1] == u32_to_be(n32)[1] && b[pos + 2] == u32_to_be(
        n32,
    )[2] && b[pos + 3] == u32_to_be(n32)[3]) by {
        assert(b.subrange(pos, pos + 4)[0] == b[pos]);
        assert(b.subrange(pos, pos + 4)[1] == b[pos + 1]);
        assert(b.subrange(pos, pos + 4)[2] == b[pos + 2]);
        assert(b.subrange(pos, pos + 4)[3] == b[pos + 3]);
    }
    assert(n32 == kb.len());
    assert(b.subrange(pos + 4, pos + 4 + n32) == kb);
    vstd::utf8::encode_utf8_valid_utf8(s);
    vstd::utf8::encode_utf8_decode_utf8(s);
}

/// The flat cases of [`lemma_enc_dec_value`]: every variant whose
/// payload holds no nested values.
#[verifier::rlimit(100)]
#[verifier::spinoff_prover]
proof fn lemma_enc_dec_value_flat(v: ValueModel, b: Seq<u8>, pos: int)
    requires
        encodable(v),
        !(v is Object),
        !(v is ECMAArray),
        !(v is StrictArray),
        0 <= pos,
        pos + enc_value(v).len() <= b.len(),
        b.subrange(pos, pos + enc_value(v).len()) == enc_value(v),
    ensures
        dec_value(b, pos) == Ok::<(ValueModel, int), DecodeError>(
            (v, pos + enc_value(v).len()),
        ),
{
    let e = enc_value(v);
    let l = e.len();
    lemma_window_bytes(b, pos, e);
    match v {
        ValueModel::Number(bits) => {
            lemma_u64_be_roundtrip(bits);
            assert(dec_number(b, pos + 1) == Ok::<(ValueModel, int), DecodeError>((v, pos + 9)));
        },
        ValueModel::Boolean(_) => {
        },
        ValueModel::String(s) => {
            let bs = vstd::utf8::encode_utf8(s);
            if bs.len() > 0xffff {
                assert(b.subrange(pos + 1, pos + 1 + (4 + bs.len())) =~= u32_to_be(
                    clip32(bs.len()),
                ) + bs);
                lemma_enc_dec_text32(s, b, pos + 1);
            } else {
                assert(clip16(bs.len()) == bs.len());
                assert(u16_to_be(clip16(bs.len())) == u16_to_be(bs.len() as u16));
                assert(b.subrange(pos + 1, pos + 1 + (2 + bs.len())) =~= u16_to_be(
                    clip16(bs.len()),
                ) + bs);
                lemma_enc_dec_text16(s, b, pos + 1);
            }
        },
        ValueModel::Date { millis, timezone } => {
            lemma_u64_be_roundtrip(millis);
            lemma_u16_be_roundtrip(timezone);
            assert(dec_date(b, pos + 1) == Ok::<(ValueModel, int), DecodeError>((v, pos + 11)));
        },
        ValueModel::XMLDocument(s) => {
            let bs = vstd::utf8::encode_utf8(s);
            assert(b.subrange(pos + 1, pos + 1 + (4 + bs.len())) =~= u32_to_be(clip32(bs.len()))
                + bs);
            lemma_enc_dec_text32(s, b, pos + 1);
        },
        _ => {
        },
    }
}

/// The object case of [`lemma_enc_dec_value`], anonymous or typed.
#[verifier::rlimit(100)]
#[verifier::spinoff_prover]
proof fn lemma_enc_dec_object_case(
    class_name: Seq<char>,
    property: Seq<(Seq<char>, ValueModel)>,
    b: Seq<u8>,
    pos: int,
)
    requires
        encodable(ValueModel::Object { class_name, property }),
        0 <= pos,
        pos + enc_value(ValueModel::Object { class_name, property }).len() <= b.len(),
        b.subrange(pos, pos + enc_value(ValueModel::Object { class_name, property }).len())
            == enc_value(ValueModel::Object { class_name, property }),
    ensures
        dec_value(b, pos) == Ok::<(ValueModel, int), DecodeError>(
            (
                ValueModel::Object { class_name, property },
                pos + enc_value(ValueModel::Object { class_name, property }).len(),
            ),
        ),
    decreases property, 1int,
{
    let v = ValueModel::Object { class_name, property };
    let e = enc_value(v);
    lemma_window_bytes(b, pos, e);
    let cn = vstd::utf8::encode_utf8(class_name);
    let pl = enc_props(property).len();
    lemma_encode_utf8_empty(class_name);
    if class_name.len() == 0 {
        assert(b.subrange(pos + 1, pos + 1 + (pl + 3)) =~= enc_props(property) + enc_terminator());
        lemma_enc_dec_props(property, Seq::empty(), b, pos + 1);
        assert(Seq::empty() + property =~= property);
        assert(class_name =~= Seq::<char>::empty());
    } else {
        let hl = 2 + cn.len();
        assert(b.subrange(pos + 1, pos + 1 + (hl + pl + 3)) =~= (u16_to_be(clip16(cn.len())) + cn)
            + (enc_props(property) + enc_terminator()));
        lemma_prefix_suffix(
            b,
            pos + 1,
            u16_to_be(clip16(cn.len())) + cn,
            enc_props(property) + enc_terminator(),
        );
        lemma_enc_dec_text16(class_name, b, pos + 1);
        lemma_enc_dec_props(property, Seq::empty(), b, pos + 1 + hl);
        assert(Seq::empty() + property =~= property);
    }
}

/// The associative-array case of [`lemma_enc_dec_value`].
#[verifier::rlimit(100)]
#[verifier::spinoff_prover]
proof fn lemma_enc_dec_ecma_case(ps: Seq<(Seq<char>, ValueModel)>, b: Seq<u8>, pos: int)
    requires
        encodable(ValueModel::ECMAArray(ps)),
        0 <= pos,
        pos + enc_value(ValueModel::ECMAArray(ps)).len() <= b.len(),
        b.subrange(pos, pos + enc_value(ValueModel::ECMAArray(ps)).len()) == enc_value(
            ValueModel::ECMAArray(ps),
        ),
    ensures
        dec_value(b, pos) == Ok::<(ValueModel, int), DecodeError>(
            (ValueModel::ECMAArray(ps), pos + enc_value(ValueModel::ECMAArray(ps)).len()),
        ),
    decreases ps, 1int,
{
    let v = ValueModel::ECMAArray(ps);
    let e = enc_value(v);
    lemma_window_bytes(b, pos, e);
    let pl = enc_props(ps).len();
    assert(b.subrange(pos + 1, pos + 1 + (4 + pl + 3)) =~= u32_to_be(clip32(ps.len())) + (
    enc_props(ps) + enc_terminator()));
    lemma_prefix_suffix(b, pos + 1, u32_to_be(clip32(ps.len())), enc_props(ps) + enc_terminator());
    lemma_enc_dec_props(ps, Seq::empty(), b, pos + 5);
    assert(Seq::empty() + ps =~= ps);
}

/// The strict-array case of [`lemma_enc_dec_value`].
#[verifier::rlimit(100)]
#[verifier::spinoff_prover]
proof fn lemma_enc_dec_strict_case(vs: Seq<ValueModel>, b: Seq<u8>, pos: int)
    requires
        encodable(ValueModel::StrictArray(vs)),
        0 <= pos,
        pos + enc_value(ValueModel::StrictArray(vs)).len() <= b.len(),
        b.subrange(pos, pos + enc_value(ValueModel::StrictArray(vs)).len()) == enc_value(
            ValueModel::StrictArray(vs),
        ),
    ensures
        dec_value(b, pos) == Ok::<(ValueModel, int), DecodeError>(
            (ValueModel::StrictArray(vs), pos + enc_value(ValueModel::StrictArray(vs)).len()),
        ),
    decreases vs, 1int,
{
    let v = ValueModel::StrictArray(vs);
    let e = enc_value(v);
    lemma_window_bytes(b, pos, e);
    let el = enc_elems(vs).len();
    assert(b.subrange(pos + 1, pos + 1 + (4 + el)) =~= u32_to_be(clip32(vs.len())) + enc_elems(vs));
    lemma_prefix_suffix(b, pos + 1, u32_to_be(clip32(vs.len())), enc_elems(vs));
    lemma_u32_be_roundtrip(clip32(vs.len()));
    lemma_window_bytes(b, pos + 1, u32_to_be(clip32(vs.len())));
    assert(clip32(vs.len()) == vs.len());
    lemma_enc_dec_elems(vs, b, pos + 5);
}

/// Decoding the encoding of an encodable value, wherever it stands in
/// a buffer, gives the value back and stops exactly at its end.
pub proof fn lemma_enc_dec_value(v: ValueModel, b: Seq<u8>, pos: int)
    requires
        encodable(v),
        0 <= pos,
        pos + enc_value(v).len() <= b.len(),
        b.subrange(pos, pos + enc_value(v).len()) == enc_value(v),
    ensures
        dec_value(b, pos) == Ok::<(ValueModel, int), DecodeError>(
            (v, pos + enc_value(v).len()),
        ),
    decreases v, 0int,
{
    match v {
        ValueModel::Object { class_name, property } => {
            lemma_enc_dec_object_case(class_name, property, b, pos);
        },
        ValueModel::ECMAArray(ps) => {
            lemma_enc_dec_ecma_case(ps, b, pos);
        },
        ValueModel::StrictArray(vs) => {
            lemma_enc_dec_strict_case(vs, b, pos);
        },
        _ => {
            lemma_enc_dec_value_flat(v, b, pos);
        },
    }
}

/// One key-value entry of the property loop: the key text and the
/// value decode from their windows.
#[verifier::rlimit(100)]
#[verifier::spinoff_prover]
proof fn lemma_dec_prop_entry(k: Seq<char>, v0: ValueModel, b: Seq<u8>, pos: int)
    requires
        vstd::utf8::encode_utf8(k).len() <= 0xffff,
        encodable(v0),
        0 <= pos,
        pos + 2 + vstd::utf8::encode_utf8(k).len() + enc_value(v0).len() <= b.len(),
        b.subrange(pos, pos + 2 + vstd::utf8::encode_utf8(k).len() + enc_value(v0).len())
            == u16_to_be(clip16(vstd::utf8::encode_utf8(k).len())) + vstd::utf8::encode_utf8(k)
            + enc_value(v0),
    ensures
        dec_text16(b, pos) == Ok::<(Seq<char>, int), DecodeError>(
            (k, pos + 2 + vstd::utf8::encode_utf8(k).len()),
        ),
        dec_value(b, pos + 2 + vstd::utf8::encode_utf8(k).len()) == Ok::<
            (ValueModel, int),
            DecodeError,
        >((v0, pos + 2 + vstd::utf8::encode_utf8(k).len() + enc_value(v0).len())),
    decreases v0, 1int,
{
    let kb = vstd::utf8::encode_utf8(k);
    assert(b.subrange(pos, pos + (2 + kb.len()) + enc_value(v0).len()) =~= (u16_to_be(
        clip16(kb.len()),
    ) + kb) + enc_value(v0));
    lemma_prefix_suffix(b, pos, u16_to_be(clip16(kb.len())) + kb, enc_value(v0));
    lemma_enc_dec_text16(k, b, pos);
    lemma_enc_dec_value(v0, b, pos + 2 + kb.len());
}

/// At a terminator, the property loop stops: the empty key is read,
/// the end sentinel follows, and the accumulator is the result.
#[verifier::rlimit(100)]
#[verifier::spinoff_prover]
proof fn lemma_dec_terminator(acc: Seq<(Seq<char>, ValueModel)>, b: Seq<u8>, pos: int)
    requires
        0 <= pos,
        pos + 3 <= b.len(),
        b[pos] == 0,
        b[pos + 1] == 0,
        b[pos + 2] == MARKER_OBJECT_END,
    ensures
        dec_props(b, pos, acc) == Ok::<(Seq<(Seq<char>, ValueModel)>, int), DecodeError>(
            (acc, pos + 3),
        ),
{
    assert(u16_from_be(0, 0) == 0) by (bit_vector);
    assert(b.subrange(pos + 2, pos + 2) =~= Seq::<u8>::empty());
    assert(vstd::utf8::valid_utf8(Seq::<u8>::empty()));
    assert(vstd::utf8::decode_utf8(Seq::<u8>::empty()) =~= Seq::<char>::empty());
    assert(dec_text16(b, pos) == Ok::<(Seq<char>, int), DecodeError>((Seq::empty(), pos + 2)));
    assert(dec_value(b, pos + 2) == Ok::<(ValueModel, int), DecodeError>(
        (ValueModel::ObjectEnd, pos + 3),
    ));
}

/// Decoding the property-loop bytes written for a key-unique property
/// list, followed by the terminator, appends the list to the
/// accumulator and stops just past the terminator.
#[verifier::rlimit(100)]
#[verifier::spinoff_prover]
pub proof fn lemma_enc_dec_props(
    ps: Seq<(Seq<char>, ValueModel)>,
    acc: Seq<(Seq<char>, ValueModel)>,
    b: Seq<u8>,
    pos: int,
)
    requires
        unique_keys(ps),
        props_each_encodable(ps),
        keys_disjoint(acc, ps),
        0 <= pos,
        pos + enc_props(ps).len() + 3 <= b.len(),
        b.subrange(pos, pos + enc_props(ps).len() + 3) == enc_props(ps) + enc_terminator(),
    ensures
        dec_props(b, pos, acc) == Ok::<(Seq<(Seq<char>, ValueModel)>, int), DecodeError>(
            (acc + ps, pos + enc_props(ps).len() + 3),
        ),
    decreases ps, 0int,
{
    let pl = enc_props(ps).len();
    lemma_window_bytes(b, pos, enc_props(ps) + enc_terminator());
    if ps.len() == 0 {
        assert(b[pos] == 0 && b[pos + 1] == 0 && b[pos + 2] == MARKER_OBJECT_END);
        lemma_dec_terminator(acc, b, pos);
        assert(acc + ps =~= acc);
    } else {
        let k = ps[0].0;
        let v0 = ps[0].1;
        let kb = vstd::utf8::encode_utf8(k);
        let rest = ps.subrange(1, ps.len() as int);
        let head = u16_to_be(clip16(kb.len())) + kb + enc_value(v0);
        assert(enc_props(ps) == head + enc_props(rest));
        assert(b.subrange(pos, pos + head.len() + (enc_props(rest).len() + 3)) =~= head + (
        enc_props(rest) + enc_terminator()));
        lemma_prefix_suffix(b, pos, head, enc_props(rest) + enc_terminator());
        lemma_dec_prop_entry(k, v0, b, pos);
        let p3 = pos + 2 + kb.len() + enc_value(v0).len();
        assert(v0 != ValueModel::ObjectEnd);
        assert(index_of_key(acc, k) == acc.len()) by {
            lemma_index_of_key(acc, k);
        }
        assert(insert_prop(acc, k, v0) == acc.push((k, v0)));
        assert(keys_disjoint(acc.push((k, v0)), rest)) by {
            assert(forall|j: int|
                0 <= j < rest.len() ==> (#[trigger] rest[j]) == ps[j + 1] && rest[j].0 != k);
        }
        assert(props_each_encodable(rest) && unique_keys(rest)) by {
            assert(forall|i: int, j: int|
                0 <= i < j < rest.len() ==> (#[trigger] rest[i]).0 != (#[trigger] rest[j]).0);
        }
        assert(b.subrange(p3, p3 + enc_props(rest).len() + 3) =~= enc_props(rest)
            + enc_terminator());
        lemma_enc_dec_props(rest, acc.push((k, v0)), b, p3);
        assert(acc.push((k, v0)) + rest =~= acc + ps);
    }
}

/// Decoding the element bytes written for an encodable element list
/// gives the elements back, in order.
pub proof fn lemma_enc_dec_elems(vs: Seq<ValueModel>, b: Seq<u8>, pos: int)
    requires
        elems_encodable(vs),
        0 <= pos,
        pos + enc_elems(vs).len() <= b.len(),
        b.subrange(pos, pos + enc_elems(vs).len()) == enc_elems(vs),
    ensures
        dec_elems(b, pos, vs.len() as int) == Ok::<(Seq<ValueModel>, int), DecodeError>(
            (vs, pos + enc_elems(vs).len()),
        ),
    decreases vs, 0int,
{
    if vs.len() == 0 {
        assert(vs =~= Seq::<ValueModel>::empty());
    } else {
        let v0 = vs[0];
        let rest = vs.subrange(1, vs.len() as int);
        assert(enc_elems(vs) == enc_value(v0) + enc_elems(rest));
        lemma_prefix_suffix(b, pos, enc_value(v0), enc_elems(rest));
        lemma_enc_dec_value(v0, b, pos);
        let p2 = pos + enc_value(v0).len();
        lemma_enc_dec_elems(rest, b, p2);
        assert(seq![v0] + rest =~= vs);
    }
}

/// Round trip: decoding the encoding of any encodable value yields
/// the value itself and consumes the whole encoding.
pub proof fn lemma_round_trip(v: ValueModel)
    requires
        encodable(v),
    ensures
        dec_value(enc_value(v), 0) == Ok::<(ValueModel, int), DecodeError>(
            (v, enc_value(v).len() as int),
        ),
{
    let b = enc_value(v);
    assert(b.subrange(0, b.len() as int) =~= b);
    lemma_enc_dec_value(v, b, 0);
}

/// A reserved or unrecognized marker decodes to the `Unsupported`
/// sentinel rather than failing, and consumes only the marker byte.
pub proof fn lemma_unsupported_marker(b: Seq<u8>, pos: int)
    requires
        0 <= pos < b.len(),
        b[pos] != crate::amf0::MARKER_NUMBER,
        b[pos] != crate::amf0::MARKER_BOOLEAN,
        b[pos] != crate::amf0::MARKER_STRING,
        b[pos] != crate::amf0::MARKER_OBJECT,
        b[pos] != crate::amf0::MARKER_NULL,
        b[pos] != crate::amf0::MARKER_UNDEFINED,
        b[pos] != crate::amf0::MARKER_REFERENCE,
        b[pos] != crate::amf0::MARKER_ECMA_ARRAY,
        b[pos] != MARKER_OBJECT_END,
        b[pos] != crate::amf0::MARKER_STRICT_ARRAY,
        b[pos] != crate::amf0::MARKER_DATE,
        b[pos] != crate::amf0::MARKER_LONG_STRING,
        b[pos] != crate::amf0::MARKER_XML_DOCUMENT,
        b[pos] != crate::amf0::MARKER_TYPED_OBJECT,
    ensures
        dec_value(b, pos) == Ok::<(ValueModel, int), DecodeError>(
            (ValueModel::Unsupported, pos + 1),
        ),
{
}

/// The string marker is chosen by byte length: exactly 65535 bytes
/// still take the short form, 65536 bytes take the long form.
pub proof fn lemma_string_marker_boundary(s: Seq<char>)
    requires
        vstd::utf8::encode_utf8(s).len() <= 0xffffffff,
    ensures
        vstd::utf8::encode_utf8(s).len() <= 0xffff ==> enc_value(ValueModel::String(s))[0]
            == crate::amf0::MARKER_STRING,
        vstd::utf8::encode_utf8(s).len() > 0xffff ==> enc_value(ValueModel::String(s))[0]
            == crate::amf0::MARKER_LONG_STRING,
{
}

/// Buffers of one length that agree from `pos` on decode alike from
/// `pos`: a value's decoding never reads bytes before its own start.
pub proof fn lemma_dec_value_frame(b1: Seq<u8>, b2: Seq<u8>, pos: int)
    requires
        0 <= pos,
        b1.len() == b2.len(),
        forall|i: int| pos <= i < b1.len() ==> b1[i] == b2[i],
    ensures
        dec_value(b1, pos) == dec_value(b2, pos),
    decreases b1.len() - pos, 2int,
{
    if 0 <= pos < b1.len() {
        let m = b1[pos];
        let p = pos + 1;
        if m == crate::amf0::MARKER_STRING {
            lemma_dec_text16_frame(b1, b2, p);
        } else if m == crate::amf0::MARKER_OBJECT {
            lemma_dec_props_frame(b1, b2, p, Seq::empty());
        } else if m == crate::amf0::MARKER_ECMA_ARRAY {
            if p + 4 <= b1.len() {
                lemma_dec_props_frame(b1, b2, p + 4, Seq::empty());
            }
        } else if m == crate::amf0::MARKER_STRICT_ARRAY {
            if p + 4 <= b1.len() {
                let n = crate::wire::u32_from_be(b1[p], b1[p + 1], b1[p + 2], b1[p + 3]) as int;
                lemma_dec_elems_frame(b1, b2, p + 4, n);
            }
        } else if m == crate::amf0::MARKER_LONG_STRING {
            lemma_dec_text32_frame(b1, b2, p);
        } else if m == crate::amf0::MARKER_XML_DOCUMENT {
            lemma_dec_text32_frame(b1, b2, p);
        } else if m == crate::amf0::MARKER_TYPED_OBJECT {
            lemma_dec_text16_frame(b1, b2, p);
            match dec_text16(b1, p) {
                Ok((cn, p2)) => {
                    if p < p2 <= b1.len() {
                        lemma_dec_props_frame(b1, b2, p2, Seq::empty());
                    }
                },
                Err(_) => {},
            }
        }
    }
}

/// The frame property for a length-prefixed 16-bit text field.
proof fn lemma_dec_text16_frame(b1: Seq<u8>, b2: Seq<u8>, p: int)
    requires
        0 <= p,
        b1.len() == b2.len(),
        forall|i: int| p <= i < b1.len() ==> b1[i] == b2[i],
    ensures
        dec_text16(b1, p) == dec_text16(b2, p),
{
    if p + 2 <= b1.len() {
        let n = u16_from_be(b1[p], b1[p + 1]) as int;
        if p + 2 + n <= b1.len() {
            assert(b1.subrange(p + 2, p + 2 + n) =~= b2.subrange(p + 2, p + 2 + n));
        }
    }
}

/// The frame property for a length-prefixed 32-bit text field.
proof fn lemma_dec_text32_frame(b1: Seq<u8>, b2: Seq<u8>, p: int)
    requires
        0 <= p,
        b1.len() == b2.len(),
        forall|i: int| p <= i < b1.len() ==> b1[i] == b2[i],
    ensures
        dec_text32(b1, p) == dec_text32(b2, p),
{
    if p + 4 <= b1.len() {
        let n = crate::wire::u32_from_be(b1[p], b1[p + 1], b1[p + 2], b1[p + 3]) as int;
        if p + 4 + n <= b1.len() {
            assert(b1.subrange(p + 4, p + 4 + n) =~= b2.subrange(p + 4, p + 4 + n));
        }
    }
}

/// The frame property for the property loop.
pub proof fn lemma_dec_props_frame(
    b1: Seq<u8>,
    b2: Seq<u8>,
    pos: int,
    acc: Seq<(Seq<char>, ValueModel)>,
)
    requires
        0 <= pos,
        b1.len() == b2.len(),
        forall|i: int| pos <= i < b1.len() ==> b1[i] == b2[i],
    ensures
        dec_props(b1, pos, acc) == dec_props(b2, pos, acc),
    decreases b1.len() - pos, 1int,
{
    lemma_dec_text16_frame(b1, b2, pos);
    match dec_text16(b1, pos) {
        Ok((key, p2)) => {
            lemma_dec_value_frame(b1, b2, p2);
            match dec_value(b1, p2) {
                Ok((v, p3)) => {
                    if v != ValueModel::ObjectEnd && pos < p3 <= b1.len() {
                        lemma_dec_props_frame(b1, b2, p3, insert_prop(acc, key, v));
                    }
                },
                Err(_) => {},
            }
        },
        Err(_) => {},
    }
}

/// The frame property for a counted element list.
proof fn lemma_dec_elems_frame(b1: Seq<u8>, b2: Seq<u8>, pos: int, n: int)
    requires
        0 <= pos,
        b1.len() == b2.len(),
        forall|i: int| pos <= i < b1.len() ==> b1[i] == b2[i],
    ensures
        dec_elems(b1, pos, n) == dec_elems(b2, pos, n),
    decreases b1.len() - pos, 3int,
{
    if n > 0 {
        lemma_dec_value_frame(b1, b2, pos);
        match dec_value(b1, pos) {
            Ok((v, p2)) => {
                if pos < p2 <= b1.len() {
                    lemma_dec_elems_frame(b1, b2, p2, n - 1);
                }
            },
            Err(_) => {},
        }
    }
}

/// The declared element count of an associative array is advisory:
/// two same-length buffers holding the array marker at `pos` and the
/// same bytes after the count field decode to the same result, no
/// matter what either count field says.
pub proof fn lemma_assoc_count_advisory(b1: Seq<u8>, b2: Seq<u8>, pos: int)
    requires
        0 <= pos,
        b1.len() == b2.len(),
        pos + 5 <= b1.len(),
        b1[pos] == crate::amf0::MARKER_ECMA_ARRAY,
        b2[pos] == crate::amf0::MARKER_ECMA_ARRAY,
        forall|i: int| pos + 5 <= i < b1.len() ==> b1[i] == b2[i],
    ensures
        dec_value(b1, pos) == dec_value(b2, pos),
{
    lemma_dec_props_frame(b1, b2, pos + 5, Seq::empty());
}

} // verus!
