//! The recursive serializer for the legacy format: writes the exact
//! byte encoding of a value, as [`enc_value`] states it.
use crate::amf0::{
    enc_elems, enc_props, enc_string, enc_terminator, enc_value, lemma_enc_elems_concat,
    lemma_enc_props_concat, lemma_encode_utf8_empty, lemma_model_elems, lemma_model_props, Value, ValueModel,
    MARKER_BOOLEAN, MARKER_DATE, MARKER_ECMA_ARRAY, MARKER_LONG_STRING, MARKER_NULL, MARKER_NUMBER,
    MARKER_OBJECT, MARKER_OBJECT_END, MARKER_STRICT_ARRAY, MARKER_STRING, MARKER_TYPED_OBJECT,
    MARKER_UNDEFINED, MARKER_UNSUPPORTED, MARKER_XML_DOCUMENT,
};
use crate::wire::{
    clip16, clip16_exec, clip32, clip32_exec, u16_to_be, write_bytes, write_u16_be, write_u32_be,
    write_u64_be, write_u8,
};
use vstd::prelude::*;
use vstd::string::StringSliceAdditionalSpecFns;

verus! {

/// The terminator bytes are a zero key length followed by the end
/// marker.
proof fn lemma_terminator_bytes()
    ensures
        u16_to_be(0) + seq![MARKER_OBJECT_END] =~= enc_terminator(),
{
    assert((0u16 >> 8) & 0xff == 0 && 0u16 & 0xff == 0) by (bit_vector);
}

/// Writes the exact byte encoding of `v` after the bytes already in
/// `w`.  Every variant is written: one with no encoding rule falls
/// back to the single unsupported-marker byte.
#[verifier::rlimit(50)]
pub fn to_bytes(w: &mut Vec<u8>, v: &Value)
    ensures
        final(w)@ == old(w)@ + enc_value(v@),
    decreases v,
{
    match v {
        Value::Number(bits) => {
            write_u8(w, MARKER_NUMBER);
            write_u64_be(w, *bits);
            assert(w@ =~= old(w)@ + enc_value(v@));
        },
        Value::Boolean(b) => {
            write_u8(w, MARKER_BOOLEAN);
            write_u8(w, if *b {
                0xFF
            } else {
                0x00
            });
            assert(w@ =~= old(w)@ + enc_value(v@));
        },
        Value::String(s) => {
            let bs = s.as_str().as_bytes();
            if bs.len() > 0xffff {
                write_u8(w, MARKER_LONG_STRING);
                write_u32_be(w, clip32_exec(bs.len()));
                write_bytes(w, bs);
            } else {
                write_u8(w, MARKER_STRING);
                write_u16_be(w, bs.len() as u16);
                write_bytes(w, bs);
            }
            assert(w@ =~= old(w)@ + enc_string(s@));
        },
        Value::Object(obj) => {
            proof {
                lemma_encode_utf8_empty(obj.class_name@);
            }
            let cb = obj.class_name.as_str().as_bytes();
            if cb.len() == 0 {
                write_u8(w, MARKER_OBJECT);
            } else {
                write_u8(w, MARKER_TYPED_OBJECT);
                write_u16_be(w, clip16_exec(cb.len()));
                write_bytes(w, cb);
            }
            write_props(w, &obj.property);
            write_u16_be(w, 0);
            write_u8(w, MARKER_OBJECT_END);
            proof {
                lemma_terminator_bytes();
                assert(w@ =~= old(w)@ + enc_value(v@));
            }
        },
        Value::Null => {
            write_u8(w, MARKER_NULL);
            assert(w@ =~= old(w)@ + enc_value(v@));
        },
        Value::Undefined => {
            write_u8(w, MARKER_UNDEFINED);
            assert(w@ =~= old(w)@ + enc_value(v@));
        },
        Value::Reference(_) => {
            write_u8(w, MARKER_UNSUPPORTED);
            assert(w@ =~= old(w)@ + enc_value(v@));
        },
        Value::ECMAArray(ps) => {
            write_u8(w, MARKER_ECMA_ARRAY);
            proof {
                lemma_model_props(ps@);
            }
            write_u32_be(w, clip32_exec(ps.len()));
            write_props(w, ps);
            write_u16_be(w, 0);
            write_u8(w, MARKER_OBJECT_END);
            proof {
                lemma_terminator_bytes();
                assert(w@ =~= old(w)@ + enc_value(v@));
            }
        },
        Value::ObjectEnd => {
            write_u16_be(w, 0);
            write_u8(w, MARKER_OBJECT_END);
            proof {
                lemma_terminator_bytes();
                assert(w@ =~= old(w)@ + enc_value(v@));
            }
        },
        Value::StrictArray(vs) => {
            write_u8(w, MARKER_STRICT_ARRAY);
            proof {
                lemma_model_elems(vs@);
            }
            write_u32_be(w, clip32_exec(vs.len()));
            write_elems(w, vs);
            assert(w@ =~= old(w)@ + enc_value(v@));
        },
        Value::Date(d) => {
            write_u8(w, MARKER_DATE);
            write_u64_be(w, d.millis);
            write_u16_be(w, d.timezone);
            assert(w@ =~= old(w)@ + enc_value(v@));
        },
        Value::Unsupported => {
            write_u8(w, MARKER_UNSUPPORTED);
            assert(w@ =~= old(w)@ + enc_value(v@));
        },
        Value::XMLDocument(s) => {
            write_u8(w, MARKER_XML_DOCUMENT);
            let bs = s.as_str().as_bytes();
            write_u32_be(w, clip32_exec(bs.len()));
            write_bytes(w, bs);
            assert(w@ =~= old(w)@ + enc_value(v@));
        },
    }
}

/// Writes every property as a length-prefixed key and an encoded
/// value, in list order, without the terminator.
fn write_props(w: &mut Vec<u8>, ps: &Vec<(String, Value)>)
    ensures
        final(w)@ == old(w)@ + enc_props(Value::model_props(ps@)),
    decreases ps,
{
    let ghost m = Value::model_props(ps@);
    proof {
        lemma_model_props(ps@);
        assert(enc_props(m.subrange(0, 0)) =~= Seq::empty());
        assert(w@ =~= w@ + enc_props(m.subrange(0, 0)));
    }
    let n = ps.len();
    let mut j: usize = 0;
    while j < n
        invariant
            j <= n,
            n == ps@.len(),
            m == Value::model_props(ps@),
            m.len() == n,
            forall|i: int| 0 <= i < n ==> #[trigger] m[i] == (ps@[i].0@, ps@[i].1@),
            w@ == old(w)@ + enc_props(m.subrange(0, j as int)),
        decreases n - j,
    {
        let kb = ps[j].0.as_str().as_bytes();
        write_u16_be(w, clip16_exec(kb.len()));
        write_bytes(w, kb);
        to_bytes(w, &ps[j].1);
        proof {
            let one = seq![m[j as int]];
            lemma_enc_props_concat(m.subrange(0, j as int), one);
            assert(m.subrange(0, j + 1) =~= m.subrange(0, j as int) + one);
            assert(one.subrange(1, 1) =~= Seq::<(Seq<char>, ValueModel)>::empty());
            assert(enc_props(one.subrange(1, 1)) =~= Seq::<u8>::empty());
            assert(enc_props(one) =~= u16_to_be(clip16(vstd::utf8::encode_utf8(m[j as int].0).len()))
                + vstd::utf8::encode_utf8(m[j as int].0) + enc_value(m[j as int].1));
            assert(w@ =~= old(w)@ + enc_props(m.subrange(0, j + 1)));
        }
        j = j + 1;
    }
    proof {
        assert(m.subrange(0, n as int) =~= m);
    }
}

/// Writes every element in order, with no separators and no
/// terminator.
fn write_elems(w: &mut Vec<u8>, vs: &Vec<Value>)
    ensures
        final(w)@ == old(w)@ + enc_elems(Value::model_elems(vs@)),
    decreases vs,
{
    let ghost m = Value::model_elems(vs@);
    proof {
        lemma_model_elems(vs@);
        assert(enc_elems(m.subrange(0, 0)) =~= Seq::empty());
        assert(w@ =~= w@ + enc_elems(m.subrange(0, 0)));
    }
    let n = vs.len();
    let mut j: usize = 0;
    while j < n
        invariant
            j <= n,
            n == vs@.len(),
            m == Value::model_elems(vs@),
            m.len() == n,
            forall|i: int| 0 <= i < n ==> #[trigger] m[i] == vs@[i]@,
            w@ == old(w)@ + enc_elems(m.subrange(0, j as int)),
        decreases n - j,
    {
        to_bytes(w, &vs[j]);
        proof {
            let one = seq![m[j as int]];
            lemma_enc_elems_concat(m.subrange(0, j as int), one);
            assert(m.subrange(0, j + 1) =~= m.subrange(0, j as int) + one);
            assert(one.subrange(1, 1) =~= Seq::<ValueModel>::empty());
            assert(enc_elems(one.subrange(1, 1)) =~= Seq::<u8>::empty());
            assert(enc_elems(one) =~= enc_value(m[j as int]));
            assert(w@ =~= old(w)@ + enc_elems(m.subrange(0, j + 1)));
        }
        j = j + 1;
    }
    proof {
        assert(m.subrange(0, n as int) =~= m);
    }
}

} // verus!
