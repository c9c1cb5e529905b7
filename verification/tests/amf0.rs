//! Round trips and wire-level scenarios for the legacy format.
use amf::amf0::decoder::from_bytes;
use amf::amf0::encoder::to_bytes;
use amf::amf0::Value;
use amf::wire::Reader;
use amf::{Date, DecodeError, Object};

fn encode(v: &Value) -> Vec<u8> {
    let mut encoded = Vec::new();
    to_bytes(&mut encoded, v);
    encoded
}

fn round_trip(expected: Value) {
    let encoded = encode(&expected);
    let n = encoded.len();
    let mut r = Reader::new(encoded);
    let decoded = from_bytes(&mut r).unwrap();
    assert_eq!(decoded, expected);
    assert_eq!(r.position(), n);
}

fn decode(bytes: Vec<u8>) -> Result<Value, DecodeError> {
    from_bytes(&mut Reader::new(bytes))
}

#[test]
fn amf0_boolean() {
    round_trip(Value::Boolean(true));
    round_trip(Value::Boolean(false));
}

#[test]
fn amf0_null() {
    round_trip(Value::Null);
}

#[test]
fn amf0_undefined() {
    round_trip(Value::Undefined);
}

#[test]
fn amf0_number() {
    round_trip(Value::Number(3.5f64.to_bits()));
    round_trip(Value::Number(f64::INFINITY.to_bits()));
    round_trip(Value::Number(f64::NEG_INFINITY.to_bits()));
}

#[test]
fn amf0_string() {
    round_trip(Value::String("this is test".to_string()));
    round_trip(Value::String("this is 테스트".to_string()));
    round_trip(Value::String("this is テスト".to_string()));
}

#[test]
fn amf0_long_string() {
    round_trip(Value::String(std::iter::repeat('a').take(0x10013).collect()));
}

#[test]
fn amf0_object() {
    round_trip(Value::Object(Object {
        class_name: "".to_string(),
        property: vec![
            ("".to_string(), Value::String("".to_string())),
            ("foo".to_string(), Value::String("baz".to_string())),
            ("bar".to_string(), Value::Number(3.14f64.to_bits())),
        ],
    }));
    round_trip(Value::Object(Object {
        class_name: "".to_string(),
        property: vec![
            ("foo".to_string(), Value::String("bar".to_string())),
            ("baz".to_string(), Value::Null),
        ],
    }));
}

#[test]
fn amf0_typed_object() {
    round_trip(Value::Object(Object {
        class_name: "org.amf.ASClass".to_string(),
        property: vec![
            ("foo".to_string(), Value::String("bar".to_string())),
            ("baz".to_string(), Value::Null),
        ],
    }));
}

#[test]
fn amf0_ecma_array() {
    round_trip(Value::ECMAArray(vec![
        ("0".to_string(), Value::String("a".to_string())),
        ("1".to_string(), Value::String("b".to_string())),
        ("2".to_string(), Value::String("c".to_string())),
        ("3".to_string(), Value::String("d".to_string())),
    ]));
}

#[test]
fn amf0_strict_array() {
    round_trip(Value::StrictArray(vec![
        Value::Number(1.0f64.to_bits()),
        Value::String("2".to_string()),
        Value::Number(3.0f64.to_bits()),
    ]));
}

#[test]
fn amf0_date() {
    round_trip(Value::Date(Date::new(1_590_796_800_000_f64.to_bits())));
    round_trip(Value::Date(Date::new(1_045_112_400_000_f64.to_bits())));
    round_trip(Value::Date(Date::new((-1.0f64).to_bits())));
    round_trip(Value::Date(Date::new(f64::INFINITY.to_bits())));
}

#[test]
fn amf0_xml_doc() {
    round_trip(Value::String(
        "<parent><child prop=\"test\" /></parent>".to_string(),
    ));
}

#[test]
fn string_marker_boundary() {
    let short: String = std::iter::repeat('a').take(65535).collect();
    let long: String = std::iter::repeat('a').take(65536).collect();
    let short_bytes = encode(&Value::String(short.clone()));
    let long_bytes = encode(&Value::String(long.clone()));
    assert_eq!(short_bytes[0], 0x02);
    assert_eq!(short_bytes.len(), 3 + 65535);
    assert_eq!(long_bytes[0], 0x0C);
    assert_eq!(long_bytes.len(), 5 + 65536);
    round_trip(Value::String(short));
    round_trip(Value::String(long));
}

#[test]
fn object_termination() {
    // An object marker immediately followed by the empty key and the
    // end marker is an object with no properties.
    let decoded = decode(vec![0x03, 0x00, 0x00, 0x09]).unwrap();
    assert_eq!(
        decoded,
        Value::Object(Object { class_name: "".to_string(), property: vec![] })
    );
}

#[test]
fn ecma_array_count_is_advisory() {
    // Declared count 99 with a single property before the terminator.
    let bytes = vec![
        0x08, 0x00, 0x00, 0x00, 0x63, // marker, advisory count
        0x00, 0x01, b'a', // key "a"
        0x02, 0x00, 0x01, b'b', // String "b"
        0x00, 0x00, 0x09, // terminator
    ];
    let decoded = decode(bytes).unwrap();
    assert_eq!(
        decoded,
        Value::ECMAArray(vec![("a".to_string(), Value::String("b".to_string()))])
    );
}

#[test]
fn strict_array_exact_bytes() {
    let mut bytes = vec![0x0A, 0x00, 0x00, 0x00, 0x03, 0x00];
    bytes.extend_from_slice(&1.0f64.to_bits().to_be_bytes());
    bytes.extend_from_slice(&[0x02, 0x00, 0x01, b'2', 0x00]);
    bytes.extend_from_slice(&3.0f64.to_bits().to_be_bytes());
    let n = bytes.len();
    let mut r = Reader::new(bytes);
    let decoded = from_bytes(&mut r).unwrap();
    assert_eq!(
        decoded,
        Value::StrictArray(vec![
            Value::Number(1.0f64.to_bits()),
            Value::String("2".to_string()),
            Value::Number(3.0f64.to_bits()),
        ])
    );
    assert_eq!(r.position(), n);
}

#[test]
fn strict_array_truncated() {
    // Declared count 3 with only two values available.
    let mut bytes = vec![0x0A, 0x00, 0x00, 0x00, 0x03, 0x00];
    bytes.extend_from_slice(&1.0f64.to_bits().to_be_bytes());
    bytes.extend_from_slice(&[0x05]);
    assert_eq!(decode(bytes), Err(DecodeError::Truncated));
}

#[test]
fn unsupported_markers_decode_leniently() {
    assert_eq!(decode(vec![0x04]).unwrap(), Value::Unsupported);
    assert_eq!(decode(vec![0x0D]).unwrap(), Value::Unsupported);
    assert_eq!(decode(vec![0x0E]).unwrap(), Value::Unsupported);
    assert_eq!(decode(vec![0x11]).unwrap(), Value::Unsupported);
    assert_eq!(decode(vec![0xFF]).unwrap(), Value::Unsupported);
    // Only the marker byte is consumed.
    let mut r = Reader::new(vec![0x04, 0x05]);
    assert_eq!(from_bytes(&mut r).unwrap(), Value::Unsupported);
    assert_eq!(r.position(), 1);
}

#[test]
fn date_timezone_preserved() {
    let encoded = encode(&Value::Date(Date::new((-1.0f64).to_bits())));
    match decode(encoded).unwrap() {
        Value::Date(d) => {
            assert_eq!(d.millis, (-1.0f64).to_bits());
            assert_eq!(d.timezone, 0);
        },
        other => panic!("expected a date, got {:?}", other),
    }
    // A nonzero reserved timezone from the wire is preserved verbatim.
    round_trip(Value::Date(Date { millis: 0, timezone: 0x1234 }));
}

#[test]
fn duplicate_keys_overwrite_in_place() {
    let bytes = vec![
        0x03, // object marker
        0x00, 0x01, b'k', 0x00, 0x3F, 0xF0, 0x00, 0x00, 0x00, 0x00, 0x00, 0x00, // k -> 1.0
        0x00, 0x01, b'm', 0x05, // m -> Null
        0x00, 0x01, b'k', 0x00, 0x40, 0x00, 0x00, 0x00, 0x00, 0x00, 0x00, 0x00, // k -> 2.0
        0x00, 0x00, 0x09, // terminator
    ];
    let decoded = decode(bytes).unwrap();
    assert_eq!(
        decoded,
        Value::Object(Object {
            class_name: "".to_string(),
            property: vec![
                ("k".to_string(), Value::Number(2.0f64.to_bits())),
                ("m".to_string(), Value::Null),
            ],
        })
    );
}

#[test]
fn truncated_inputs_fail() {
    assert_eq!(decode(vec![]), Err(DecodeError::Truncated));
    assert_eq!(decode(vec![0x00, 0x01]), Err(DecodeError::Truncated));
    assert_eq!(decode(vec![0x02, 0x00, 0x05, b'a']), Err(DecodeError::Truncated));
    assert_eq!(decode(vec![0x03, 0x00, 0x01, b'k']), Err(DecodeError::Truncated));
    assert_eq!(decode(vec![0x0B, 0x00]), Err(DecodeError::Truncated));
}

#[test]
fn invalid_utf8_fails() {
    assert_eq!(decode(vec![0x02, 0x00, 0x01, 0xFF]), Err(DecodeError::InvalidUtf8));
    assert_eq!(
        decode(vec![0x03, 0x00, 0x01, 0xC0, 0x05, 0x00, 0x00, 0x09]),
        Err(DecodeError::InvalidUtf8)
    );
}

#[test]
fn unencodable_variants_fall_back_to_unsupported_marker() {
    assert_eq!(encode(&Value::Reference(7)), vec![0x0D]);
    assert_eq!(encode(&Value::Unsupported), vec![0x0D]);
    assert_eq!(encode(&Value::ObjectEnd), vec![0x00, 0x00, 0x09]);
}

#[test]
fn object_index_finds_property() {
    let obj = Object {
        class_name: "".to_string(),
        property: vec![
            ("foo".to_string(), Value::Null),
            ("bar".to_string(), Value::Boolean(true)),
        ],
    };
    assert_eq!(*obj.index(&"bar".to_string()), Value::Boolean(true));
}

#[test]
fn concatenated_values_decode_in_sequence() {
    let mut bytes = encode(&Value::Boolean(true));
    bytes.extend_from_slice(&encode(&Value::Null));
    bytes.extend_from_slice(&encode(&Value::String("x".to_string())));
    let mut r = Reader::new(bytes);
    assert_eq!(from_bytes(&mut r).unwrap(), Value::Boolean(true));
    assert_eq!(from_bytes(&mut r).unwrap(), Value::Null);
    assert_eq!(from_bytes(&mut r).unwrap(), Value::String("x".to_string()));
    assert_eq!(from_bytes(&mut r), Err(DecodeError::Truncated));
}

#[test]
fn any_nonzero_boolean_byte_is_true() {
    assert_eq!(decode(vec![0x01, 0x01]).unwrap(), Value::Boolean(true));
    assert_eq!(decode(vec![0x01, 0x7F]).unwrap(), Value::Boolean(true));
    assert_eq!(decode(vec![0x01, 0x00]).unwrap(), Value::Boolean(false));
}

#[test]
fn reference_index_is_uninterpreted() {
    assert_eq!(decode(vec![0x07, 0x00, 0x2A]).unwrap(), Value::Reference(42));
    assert_eq!(decode(vec![0x07, 0x00]), Err(DecodeError::Truncated));
}

#[test]
fn xml_document_round_trip() {
    round_trip(Value::XMLDocument("<a><b c=\"d\"/></a>".to_string()));
    let encoded = encode(&Value::XMLDocument("x".to_string()));
    assert_eq!(encoded, vec![0x0F, 0x00, 0x00, 0x00, 0x01, b'x']);
}
