//! Round trips, variable-length integer boundaries, and failure
//! scenarios for the successor format's scalar subset.
use amf::amf3::decoder::{from_bytes, parse_u29};
use amf::amf3::encoder::to_bytes;
use amf::amf3::Value;
use amf::wire::Reader;
use amf::DecodeError;

fn round_trip(expected: Value) {
    let mut encoded = Vec::new();
    to_bytes(&mut encoded, &expected);
    let n = encoded.len();
    let mut r = Reader::new(encoded);
    let decoded = from_bytes(&mut r).unwrap();
    assert_eq!(decoded, expected);
    assert_eq!(r.position(), n);
}

fn decode(bytes: Vec<u8>) -> Result<Value, DecodeError> {
    from_bytes(&mut Reader::new(bytes))
}

fn u29(bytes: Vec<u8>) -> Result<u32, DecodeError> {
    parse_u29(&mut Reader::new(bytes))
}

#[test]
fn amf3_scalars_round_trip() {
    round_trip(Value::Undefined);
    round_trip(Value::Null);
    round_trip(Value::False);
    round_trip(Value::True);
    round_trip(Value::Double(3.5f64.to_bits()));
    round_trip(Value::Double(f64::NEG_INFINITY.to_bits()));
}

#[test]
fn amf3_integers_round_trip() {
    round_trip(Value::Integer(0));
    round_trip(Value::Integer(1));
    round_trip(Value::Integer(127));
    round_trip(Value::Integer(128));
    round_trip(Value::Integer(2097151));
    round_trip(Value::Integer(268435455));
    round_trip(Value::Integer(-1));
    round_trip(Value::Integer(-268435456));
}

#[test]
fn u29_boundaries() {
    assert_eq!(u29(vec![0x00]), Ok(0));
    assert_eq!(u29(vec![0x7F]), Ok(127));
    assert_eq!(u29(vec![0x81, 0x00]), Ok(128));
    // The largest value of the three-byte form: the third byte has
    // its continuation flag clear.
    assert_eq!(u29(vec![0xFF, 0xFF, 0x7F]), Ok(2097151));
    // Three continuation-flagged bytes force a fourth byte, which
    // contributes all eight of its bits.
    assert_eq!(u29(vec![0xFF, 0xFF, 0xFF, 0x00]), Ok(0x1FFFFF00));
    assert_eq!(u29(vec![0xFF, 0xFF, 0xFF, 0xFF]), Ok(0x1FFFFFFF));
    // Without the fourth byte, the stream is exhausted mid-value.
    assert_eq!(u29(vec![0xFF, 0xFF, 0xFF]), Err(DecodeError::Truncated));
}

#[test]
fn integer_sign_extension() {
    // Raw 29-bit value 0x10000000 has bit 28 set and reads as -2^28.
    assert_eq!(
        decode(vec![0x04, 0xC0, 0x80, 0x80, 0x00]).unwrap(),
        Value::Integer(-268435456)
    );
    assert_eq!(
        decode(vec![0x04, 0xFF, 0xFF, 0xFF, 0xFF]).unwrap(),
        Value::Integer(-1)
    );
    assert_eq!(decode(vec![0x04, 0x7F]).unwrap(), Value::Integer(127));
}

#[test]
fn amf3_markers_outside_subset_fail() {
    // String, date, array, object, dictionary markers and anything
    // past the marker table are hard failures in the scalar subset.
    assert_eq!(decode(vec![0x06, 0x03, b'a']), Err(DecodeError::UnsupportedMarker));
    assert_eq!(decode(vec![0x08]), Err(DecodeError::UnsupportedMarker));
    assert_eq!(decode(vec![0x09]), Err(DecodeError::UnsupportedMarker));
    assert_eq!(decode(vec![0x0A]), Err(DecodeError::UnsupportedMarker));
    assert_eq!(decode(vec![0x11]), Err(DecodeError::UnsupportedMarker));
    assert_eq!(decode(vec![0x12]), Err(DecodeError::UnsupportedMarker));
}

#[test]
fn amf3_truncated_inputs_fail() {
    assert_eq!(decode(vec![]), Err(DecodeError::Truncated));
    assert_eq!(decode(vec![0x04]), Err(DecodeError::Truncated));
    assert_eq!(decode(vec![0x04, 0x81]), Err(DecodeError::Truncated));
    assert_eq!(decode(vec![0x05, 0x00, 0x00]), Err(DecodeError::Truncated));
}
