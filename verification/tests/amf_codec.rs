use streamx::amf::{decode_value, encode_value, AmfValue};
use streamx::error::StreamError;

fn bits(x: f64) -> u64 {
    u64::from_be_bytes(x.to_be_bytes())
}

fn round_trip(v: AmfValue) -> AmfValue {
    let mut out: Vec<u8> = Vec::new();
    encode_value(&v, &mut out);
    let (decoded, used) = decode_value(&out, 0).expect("decode");
    assert_eq!(used, out.len());
    decoded
}

#[test]
fn number_round_trip_is_bitwise() {
    let v = AmfValue::Number(bits(1.0));
    assert_eq!(round_trip(v), AmfValue::Number(bits(1.0)));
    let w = AmfValue::Number(bits(-0.0));
    assert_eq!(round_trip(w), AmfValue::Number(bits(-0.0)));
}

#[test]
fn scalar_round_trips() {
    assert_eq!(round_trip(AmfValue::Boolean(true)), AmfValue::Boolean(true));
    assert_eq!(round_trip(AmfValue::Boolean(false)), AmfValue::Boolean(false));
    assert_eq!(round_trip(AmfValue::Null), AmfValue::Null);
    assert_eq!(round_trip(AmfValue::Undefined), AmfValue::Undefined);
    assert_eq!(
        round_trip(AmfValue::Str(b"hello".to_vec())),
        AmfValue::Str(b"hello".to_vec())
    );
    assert_eq!(
        round_trip(AmfValue::LongStr(b"long".to_vec())),
        AmfValue::LongStr(b"long".to_vec())
    );
    assert_eq!(
        round_trip(AmfValue::Date(bits(1234567890000.0), 0)),
        AmfValue::Date(bits(1234567890000.0), 0)
    );
}

#[test]
fn object_round_trip_preserves_key_order() {
    let v = AmfValue::Object(vec![
        (b"app".to_vec(), AmfValue::Str(b"live".to_vec())),
        (b"capabilities".to_vec(), AmfValue::Number(bits(31.0))),
        (
            b"nested".to_vec(),
            AmfValue::Object(vec![(b"k".to_vec(), AmfValue::Null)]),
        ),
    ]);
    let w = AmfValue::Object(vec![
        (b"app".to_vec(), AmfValue::Str(b"live".to_vec())),
        (b"capabilities".to_vec(), AmfValue::Number(bits(31.0))),
        (
            b"nested".to_vec(),
            AmfValue::Object(vec![(b"k".to_vec(), AmfValue::Null)]),
        ),
    ]);
    assert_eq!(round_trip(v), w);
}

#[test]
fn array_round_trips() {
    let v = AmfValue::StrictArray(vec![
        AmfValue::Number(bits(1.0)),
        AmfValue::Str(b"x".to_vec()),
        AmfValue::Boolean(true),
    ]);
    let mut out: Vec<u8> = Vec::new();
    encode_value(&v, &mut out);
    let (decoded, used) = decode_value(&out, 0).expect("decode");
    assert_eq!(used, out.len());
    assert_eq!(decoded, v);

    let e = AmfValue::EcmaArray(vec![(b"a".to_vec(), AmfValue::Number(bits(2.0)))]);
    let mut out2: Vec<u8> = Vec::new();
    encode_value(&e, &mut out2);
    let (decoded2, used2) = decode_value(&out2, 0).expect("decode");
    assert_eq!(used2, out2.len());
    assert_eq!(decoded2, e);
}

#[test]
fn number_wire_image_is_big_endian_ieee() {
    let mut out: Vec<u8> = Vec::new();
    encode_value(&AmfValue::Number(bits(1.0)), &mut out);
    assert_eq!(out, vec![0x00, 0x3F, 0xF0, 0, 0, 0, 0, 0, 0]);
}

#[test]
fn string_wire_image_has_length_prefix() {
    let mut out: Vec<u8> = Vec::new();
    encode_value(&AmfValue::Str(b"connect".to_vec()), &mut out);
    assert_eq!(out[0], 0x02);
    assert_eq!(&out[1..3], &[0x00, 0x07]);
    assert_eq!(&out[3..], b"connect");
}

#[test]
fn decode_rejects_unknown_marker() {
    assert_eq!(decode_value(&[0x07, 0, 0], 0), Err(StreamError::AmfDecodeError));
}

#[test]
fn decode_rejects_truncated_input() {
    assert_eq!(decode_value(&[], 0), Err(StreamError::AmfDecodeError));
    assert_eq!(decode_value(&[0x00, 1, 2], 0), Err(StreamError::AmfDecodeError));
    assert_eq!(
        decode_value(&[0x02, 0x00, 0x05, b'a'], 0),
        Err(StreamError::AmfDecodeError)
    );
    // an object whose end marker never comes
    assert_eq!(
        decode_value(&[0x03, 0x00, 0x01, b'k', 0x05], 0),
        Err(StreamError::AmfDecodeError)
    );
}
