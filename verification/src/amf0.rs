//! The legacy tagged-value wire format: its value model, the
//! mathematical model of a value, and the byte encoding of a value.
use vstd::prelude::*;

pub mod decoder;
pub mod laws;
pub mod encoder;

verus! {

pub const MARKER_NUMBER: u8 = 0x00;

pub const MARKER_BOOLEAN: u8 = 0x01;

pub const MARKER_STRING: u8 = 0x02;

pub const MARKER_OBJECT: u8 = 0x03;

pub const MARKER_NULL: u8 = 0x05;

pub const MARKER_UNDEFINED: u8 = 0x06;

pub const MARKER_REFERENCE: u8 = 0x07;

pub const MARKER_ECMA_ARRAY: u8 = 0x08;

pub const MARKER_OBJECT_END: u8 = 0x09;

pub const MARKER_STRICT_ARRAY: u8 = 0x0A;

pub const MARKER_DATE: u8 = 0x0B;

pub const MARKER_LONG_STRING: u8 = 0x0C;

pub const MARKER_UNSUPPORTED: u8 = 0x0D;

pub const MARKER_XML_DOCUMENT: u8 = 0x0F;

pub const MARKER_TYPED_OBJECT: u8 = 0x10;

/// A decoded value of the legacy format.  Floating-point payloads are
/// transported as their raw IEEE-754 bit patterns, so a round trip is
/// exact for every bit pattern.
#[derive(Debug, PartialEq)]
pub enum Value {
    /// A 64-bit float, held as its IEEE-754 bit pattern.
    Number(u64),
    Boolean(bool),
    String(String),
    Object(crate::Object<Value>),
    Null,
    Undefined,
    /// An index into a table of previously decoded values, returned
    /// uninterpreted.
    Reference(u16),
    /// A property map whose on-wire element count is advisory only.
    ECMAArray(crate::Property<Value>),
    /// The end-of-properties sentinel; produced as a loop terminator,
    /// never a meaningful standalone result.
    ObjectEnd,
    StrictArray(Vec<Value>),
    Date(crate::Date),
    /// Decoded in place of any reserved or unrecognized marker.
    Unsupported,
    XMLDocument(String),
}

/// The mathematical model of a [`Value`]: strings become character
/// sequences and vectors become sequences.
pub enum ValueModel {
    Number(u64),
    Boolean(bool),
    String(Seq<char>),
    Object { class_name: Seq<char>, property: Seq<(Seq<char>, ValueModel)> },
    Null,
    Undefined,
    Reference(u16),
    ECMAArray(Seq<(Seq<char>, ValueModel)>),
    ObjectEnd,
    StrictArray(Seq<ValueModel>),
    Date { millis: u64, timezone: u16 },
    Unsupported,
    XMLDocument(Seq<char>),
}

impl Value {
    /// The model of this value.
    pub closed spec fn model(self) -> ValueModel
        decreases self,
    {
        match self {
            Value::Number(bits) => ValueModel::Number(bits),
            Value::Boolean(b) => ValueModel::Boolean(b),
            Value::String(s) => ValueModel::String(s@),
            Value::Object(obj) => ValueModel::Object {
                class_name: obj.class_name@,
                property: Value::model_props(obj.property@),
            },
            Value::Null => ValueModel::Null,
            Value::Undefined => ValueModel::Undefined,
            Value::Reference(idx) => ValueModel::Reference(idx),
            Value::ECMAArray(ps) => ValueModel::ECMAArray(Value::model_props(ps@)),
            Value::ObjectEnd => ValueModel::ObjectEnd,
            Value::StrictArray(vs) => ValueModel::StrictArray(Value::model_elems(vs@)),
            Value::Date(d) => ValueModel::Date { millis: d.millis, timezone: d.timezone },
            Value::Unsupported => ValueModel::Unsupported,
            Value::XMLDocument(s) => ValueModel::XMLDocument(s@),
        }
    }

    /// The model of a property list.
    pub closed spec fn model_props(ps: Seq<(String, Value)>) -> Seq<(Seq<char>, ValueModel)>
        decreases ps,
    {
        if ps.len() == 0 {
            Seq::empty()
        } else {
            seq![(ps[0].0@, ps[0].1.model())] + Value::model_props(
                ps.subrange(1, ps.len() as int),
            )
        }
    }

    /// The model of an element list.
    pub closed spec fn model_elems(vs: Seq<Value>) -> Seq<ValueModel>
        decreases vs,
    {
        if vs.len() == 0 {
            Seq::empty()
        } else {
            seq![vs[0].model()] + Value::model_elems(vs.subrange(1, vs.len() as int))
        }
    }
}

impl View for Value {
    type V = ValueModel;

    open spec fn view(&self) -> ValueModel {
        self.model()
    }
}

/// The model of a property list is the list of models, index by index.
pub proof fn lemma_model_props(ps: Seq<(String, Value)>)
    ensures
        Value::model_props(ps).len() == ps.len(),
        forall|i: int|
            0 <= i < ps.len() ==> #[trigger] Value::model_props(ps)[i] == (
            ps[i].0@,
            ps[i].1.model(),
            ),
    decreases ps.len(),
{
    if ps.len() > 0 {
        lemma_model_props(ps.subrange(1, ps.len() as int));
    }
}

/// The byte encoding of a short or long string payload: the marker is
/// chosen by byte length, never character count.
pub open spec fn enc_string(s: Seq<char>) -> Seq<u8> {
    let bs = vstd::utf8::encode_utf8(s);
    if bs.len() > 0xffff {
        seq![MARKER_LONG_STRING] + crate::wire::u32_to_be(crate::wire::clip32(bs.len())) + bs
    } else {
        seq![MARKER_STRING] + crate::wire::u16_to_be(bs.len() as u16) + bs
    }
}

/// The end-of-properties terminator: an empty key and the end marker.
pub open spec fn enc_terminator() -> Seq<u8> {
    seq![0u8, 0u8, MARKER_OBJECT_END]
}

/// The exact byte encoding of a value.  A variant with no encoding
/// rule (`Reference`, `Unsupported`) falls back to the single
/// unsupported-marker byte, deliberately lossy and asymmetric with
/// decoding.  Length prefixes record the low bits of oversized
/// lengths, as the fixed-width fields force.
pub open spec fn enc_value(v: ValueModel) -> Seq<u8>
    decreases v,
{
    match v {
        ValueModel::Number(bits) => seq![MARKER_NUMBER] + crate::wire::u64_to_be(bits),
        ValueModel::Boolean(b) => seq![MARKER_BOOLEAN, if b {
                0xFFu8
            } else {
                0x00u8
            }],
        ValueModel::String(s) => enc_string(s),
        ValueModel::Object { class_name, property } => {
            let cn = vstd::utf8::encode_utf8(class_name);
            (if class_name.len() == 0 {
                seq![MARKER_OBJECT]
            } else {
                seq![MARKER_TYPED_OBJECT] + crate::wire::u16_to_be(crate::wire::clip16(cn.len()))
                    + cn
            }) + enc_props(property) + enc_terminator()
        },
        ValueModel::Null => seq![MARKER_NULL],
        ValueModel::Undefined => seq![MARKER_UNDEFINED],
        ValueModel::Reference(_) => seq![MARKER_UNSUPPORTED],
        ValueModel::ECMAArray(ps) => seq![MARKER_ECMA_ARRAY] + crate::wire::u32_to_be(
            crate::wire::clip32(ps.len()),
        ) + enc_props(ps) + enc_terminator(),
        ValueModel::ObjectEnd => enc_terminator(),
        ValueModel::StrictArray(vs) => seq![MARKER_STRICT_ARRAY] + crate::wire::u32_to_be(
            crate::wire::clip32(vs.len()),
        ) + enc_elems(vs),
        ValueModel::Date { millis, timezone } => seq![MARKER_DATE] + crate::wire::u64_to_be(millis)
            + crate::wire::u16_to_be(timezone),
        ValueModel::Unsupported => seq![MARKER_UNSUPPORTED],
        ValueModel::XMLDocument(s) => {
            let bs = vstd::utf8::encode_utf8(s);
            seq![MARKER_XML_DOCUMENT] + crate::wire::u32_to_be(crate::wire::clip32(bs.len())) + bs
        },
    }
}

/// The byte encoding of a property list, one length-prefixed key and
/// one value per entry, without the terminator.
pub open spec fn enc_props(ps: Seq<(Seq<char>, ValueModel)>) -> Seq<u8>
    decreases ps,
{
    if ps.len() == 0 {
        Seq::empty()
    } else {
        let kb = vstd::utf8::encode_utf8(ps[0].0);
        crate::wire::u16_to_be(crate::wire::clip16(kb.len())) + kb + enc_value(ps[0].1)
            + enc_props(ps.subrange(1, ps.len() as int))
    }
}

/// The byte encoding of an element list, in order, with no separators
/// and no terminator.
pub open spec fn enc_elems(vs: Seq<ValueModel>) -> Seq<u8>
    decreases vs,
{
    if vs.len() == 0 {
        Seq::empty()
    } else {
        enc_value(vs[0]) + enc_elems(vs.subrange(1, vs.len() as int))
    }
}

/// Property lists encode piecewise: the encoding of a concatenation
/// is the concatenation of the encodings.
pub proof fn lemma_enc_props_concat(
    a: Seq<(Seq<char>, ValueModel)>,
    b: Seq<(Seq<char>, ValueModel)>,
)
    ensures
        enc_props(a + b) == enc_props(a) + enc_props(b),
    decreases a.len(),
{
    if a.len() == 0 {
        assert(a + b =~= b);
        assert(enc_props(a) + enc_props(b) =~= enc_props(b));
    } else {
        lemma_enc_props_concat(a.subrange(1, a.len() as int), b);
        assert((a + b).subrange(1, (a + b).len() as int) =~= a.subrange(1, a.len() as int) + b);
        assert(enc_props(a + b) =~= enc_props(a) + enc_props(b));
    }
}

/// Element lists encode piecewise, like property lists.
pub proof fn lemma_enc_elems_concat(a: Seq<ValueModel>, b: Seq<ValueModel>)
    ensures
        enc_elems(a + b) == enc_elems(a) + enc_elems(b),
    decreases a.len(),
{
    if a.len() == 0 {
        assert(a + b =~= b);
        assert(enc_elems(a) + enc_elems(b) =~= enc_elems(b));
    } else {
        lemma_enc_elems_concat(a.subrange(1, a.len() as int), b);
        assert((a + b).subrange(1, (a + b).len() as int) =~= a.subrange(1, a.len() as int) + b);
        assert(enc_elems(a + b) =~= enc_elems(a) + enc_elems(b));
    }
}

/// A character sequence and its UTF-8 encoding are empty together.
pub proof fn lemma_encode_utf8_empty(s: Seq<char>)
    ensures
        vstd::utf8::encode_utf8(s).len() == 0 <==> s.len() == 0,
{
    if s.len() > 0 {
        assert(vstd::utf8::encode_scalar(s[0] as u32).len() >= 1);
    }
}

/// No two entries of the property list share a key.
pub open spec fn unique_keys(ps: Seq<(Seq<char>, ValueModel)>) -> bool {
    forall|i: int, j: int| 0 <= i < j < ps.len() ==> ps[i].0 != ps[j].0
}

/// Every entry of the property list has an encodable key and value.
pub open spec fn props_each_encodable(ps: Seq<(Seq<char>, ValueModel)>) -> bool
    decreases ps,
{
    if ps.len() == 0 {
        true
    } else {
        vstd::utf8::encode_utf8(ps[0].0).len() <= 0xffff && encodable(ps[0].1)
            && props_each_encodable(ps.subrange(1, ps.len() as int))
    }
}

/// Every element of the list is encodable.
pub open spec fn elems_encodable(vs: Seq<ValueModel>) -> bool
    decreases vs,
{
    if vs.len() == 0 {
        true
    } else {
        encodable(vs[0]) && elems_encodable(vs.subrange(1, vs.len() as int))
    }
}

/// True when encoding the value loses nothing, so that decoding the
/// encoding gives the value back: every length fits its prefix field,
/// property keys are unique, and no `Reference`, `ObjectEnd` or
/// `Unsupported` sentinel occurs anywhere in the tree.
pub open spec fn encodable(v: ValueModel) -> bool
    decreases v,
{
    match v {
        ValueModel::Number(_) => true,
        ValueModel::Boolean(_) => true,
        ValueModel::String(s) => vstd::utf8::encode_utf8(s).len() <= 0xffffffff,
        ValueModel::Object { class_name, property } => vstd::utf8::encode_utf8(class_name).len()
            <= 0xffff && unique_keys(property) && props_each_encodable(property),
        ValueModel::Null => true,
        ValueModel::Undefined => true,
        ValueModel::Reference(_) => false,
        ValueModel::ECMAArray(ps) => unique_keys(ps) && props_each_encodable(ps),
        ValueModel::ObjectEnd => false,
        ValueModel::StrictArray(vs) => vs.len() <= 0xffffffff && elems_encodable(vs),
        ValueModel::Date { .. } => true,
        ValueModel::Unsupported => false,
        ValueModel::XMLDocument(s) => vstd::utf8::encode_utf8(s).len() <= 0xffffffff,
    }
}

/// The model of an element list is the list of models, index by index.
pub proof fn lemma_model_elems(vs: Seq<Value>)
    ensures
        Value::model_elems(vs).len() == vs.len(),
        forall|i: int|
            0 <= i < vs.len() ==> #[trigger] Value::model_elems(vs)[i] == vs[i].model(),
    decreases vs.len(),
{
    if vs.len() > 0 {
        lemma_model_elems(vs.subrange(1, vs.len() as int));
    }
}

} // verus!
