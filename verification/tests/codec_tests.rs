use structs_ser_deser::codec::{Deser, DeserError, Ser};
use structs_ser_deser::engine::{decode_value, encode_value, value_len, Field, Shape, Value};
use structs_ser_deser::primitives::{F32Bits, F64Bits};

fn encode(v: &Value) -> Vec<u8> {
    let mut buf = Vec::new();
    encode_value(v, &mut buf);
    buf
}

fn conformance_value() -> Value {
    Value::Record(vec![
        Value::U32(10),
        Value::F64(F64Bits(2.4f64.to_bits())),
        Value::Str(String::from("Hello, World!")),
        Value::Bool(false),
        Value::Tuple(vec![Value::U32(12345), Value::Str(String::from("e!"))]),
    ])
}

fn conformance_shape() -> Shape {
    Shape::Record(vec![
        Field { name: String::from("a"), shape: Shape::U32 },
        Field { name: String::from("b"), shape: Shape::F64 },
        Field { name: String::from("c"), shape: Shape::Str },
        Field { name: String::from("d"), shape: Shape::Bool },
        Field { name: String::from("e"), shape: Shape::Tuple(vec![Shape::U32, Shape::Str]) },
    ])
}

const CONFORMANCE_BYTES: [u8; 48] = [
    0xa, 0x0, 0x0, 0x0, 0x33, 0x33, 0x33, 0x33, 0x33, 0x33, 0x3, 0x40, 0xd, 0x0, 0x0, 0x0, 0x0,
    0x0, 0x0, 0x0, 0x48, 0x65, 0x6c, 0x6c, 0x6f, 0x2c, 0x20, 0x57, 0x6f, 0x72, 0x6c, 0x64, 0x21,
    0x0, 0x39, 0x30, 0x0, 0x0, 0x2, 0x0, 0x0, 0x0, 0x0, 0x0, 0x0, 0x0, 0x65, 0x21,
];

#[test]
fn ser_deser_works_for_struct_with_inner_custom_struct() {
    let s = conformance_value();

    let mut serialized = Vec::with_capacity(value_len(&s));
    encode_value(&s, &mut serialized);
    assert_eq!(CONFORMANCE_BYTES.as_ref(), serialized.as_slice());

    let (deserialized, _) =
        decode_value(&conformance_shape(), &serialized, 0).expect("Failed to deserialize");

    assert_eq!(s, deserialized);
}

#[test]
fn decode_consumes_exactly_the_encoded_bytes() {
    let s = conformance_value();
    let mut bytes = encode(&s);
    // trailing bytes on the stream are left untouched
    bytes.push(0xAB);
    bytes.push(0xCD);
    let (v, end) = decode_value(&conformance_shape(), &bytes, 0).unwrap();
    assert_eq!(v, s);
    assert_eq!(end, CONFORMANCE_BYTES.len());
}

#[test]
fn encoded_length_matches_encode_exactly() {
    let s = conformance_value();
    assert_eq!(value_len(&s), encode(&s).len());
    assert_eq!(value_len(&s), CONFORMANCE_BYTES.len());
    assert_eq!(s.ser_len(), CONFORMANCE_BYTES.len());

    let empty = Value::Str(String::new());
    assert_eq!(value_len(&empty), 8);
    assert_eq!(encode(&empty).len(), 8);

    let nested = Value::Record(vec![Value::Tuple(vec![]), Value::U16(7)]);
    assert_eq!(value_len(&nested), 2);
    assert_eq!(encode(&nested).len(), 2);
}

#[test]
fn integer_boundary_values_round_trip() {
    let cases = vec![
        Value::U8(u8::MIN),
        Value::U8(u8::MAX),
        Value::U8(0),
        Value::I8(i8::MIN),
        Value::I8(i8::MAX),
        Value::I8(0),
        Value::U16(u16::MIN),
        Value::U16(u16::MAX),
        Value::U16(0),
        Value::I16(i16::MIN),
        Value::I16(i16::MAX),
        Value::I16(0),
        Value::U32(u32::MIN),
        Value::U32(u32::MAX),
        Value::U32(0),
        Value::I32(i32::MIN),
        Value::I32(i32::MAX),
        Value::I32(0),
        Value::U64(u64::MIN),
        Value::U64(u64::MAX),
        Value::U64(0),
        Value::I64(i64::MIN),
        Value::I64(i64::MAX),
        Value::I64(0),
        Value::U128(u128::MIN),
        Value::U128(u128::MAX),
        Value::U128(0),
        Value::I128(i128::MIN),
        Value::I128(i128::MAX),
        Value::I128(0),
    ];
    let shapes = vec![
        Shape::U8,
        Shape::U8,
        Shape::U8,
        Shape::I8,
        Shape::I8,
        Shape::I8,
        Shape::U16,
        Shape::U16,
        Shape::U16,
        Shape::I16,
        Shape::I16,
        Shape::I16,
        Shape::U32,
        Shape::U32,
        Shape::U32,
        Shape::I32,
        Shape::I32,
        Shape::I32,
        Shape::U64,
        Shape::U64,
        Shape::U64,
        Shape::I64,
        Shape::I64,
        Shape::I64,
        Shape::U128,
        Shape::U128,
        Shape::U128,
        Shape::I128,
        Shape::I128,
        Shape::I128,
    ];
    for (v, shape) in cases.iter().zip(shapes.iter()) {
        let bytes = encode(v);
        assert_eq!(bytes.len(), value_len(v));
        let (back, end) = decode_value(shape, &bytes, 0).unwrap();
        assert_eq!(&back, v);
        assert_eq!(end, bytes.len());
    }
}

#[test]
fn integer_encodings_are_little_endian() {
    assert_eq!(encode(&Value::U16(0x0102)), vec![0x02, 0x01]);
    assert_eq!(encode(&Value::U32(0x01020304)), vec![0x04, 0x03, 0x02, 0x01]);
    assert_eq!(
        encode(&Value::U64(0x0102030405060708)),
        vec![0x08, 0x07, 0x06, 0x05, 0x04, 0x03, 0x02, 0x01]
    );
    assert_eq!(encode(&Value::I8(-1)), vec![0xFF]);
    assert_eq!(encode(&Value::I16(-2)), vec![0xFE, 0xFF]);
    assert_eq!(encode(&Value::I32(-1)), vec![0xFF, 0xFF, 0xFF, 0xFF]);
    let (v, _) = decode_value(&Shape::I32, &[0xFF, 0xFF, 0xFF, 0xFF], 0).unwrap();
    assert_eq!(v, Value::I32(-1));
}

#[test]
fn float_values_round_trip_bit_for_bit() {
    let f64_cases = [f64::NAN, f64::INFINITY, f64::NEG_INFINITY, 0.0f64, -0.0f64, 2.4f64];
    for f in f64_cases.iter() {
        let v = Value::F64(F64Bits(f.to_bits()));
        let bytes = encode(&v);
        assert_eq!(bytes, f.to_le_bytes().to_vec());
        let (back, _) = decode_value(&Shape::F64, &bytes, 0).unwrap();
        match back {
            Value::F64(F64Bits(bits)) => assert_eq!(bits, f.to_bits()),
            other => panic!("decoded the wrong variant: {:?}", other),
        }
    }
    let f32_cases = [f32::NAN, f32::INFINITY, f32::NEG_INFINITY, 0.0f32, -0.0f32, 1.5f32];
    for f in f32_cases.iter() {
        let v = Value::F32(F32Bits(f.to_bits()));
        let bytes = encode(&v);
        assert_eq!(bytes, f.to_le_bytes().to_vec());
        let (back, _) = decode_value(&Shape::F32, &bytes, 0).unwrap();
        match back {
            Value::F32(F32Bits(bits)) => assert_eq!(bits, f.to_bits()),
            other => panic!("decoded the wrong variant: {:?}", other),
        }
    }
}

#[test]
fn invalid_boolean_byte_is_invalid_representation() {
    let r = decode_value(&Shape::Bool, &[0x02], 0);
    assert_eq!(r, Err(DeserError::InvalidRepresentation));
    let r = <bool as Deser>::deser(&[0xFF], 0);
    assert!(matches!(r, Err(DeserError::InvalidRepresentation)));
    // the two legal bytes still decode
    assert_eq!(decode_value(&Shape::Bool, &[0x00], 0).unwrap().0, Value::Bool(false));
    assert_eq!(decode_value(&Shape::Bool, &[0x01], 0).unwrap().0, Value::Bool(true));
}

#[test]
fn truncated_stream_is_an_io_error() {
    // fewer bytes than the fixed width declares
    assert_eq!(decode_value(&Shape::U32, &[0x01, 0x02], 0), Err(DeserError::Io));
    assert_eq!(decode_value(&Shape::U64, &[], 0), Err(DeserError::Io));
    // a string length prefix that promises more bytes than remain
    let bytes = [0x05, 0x00, 0x00, 0x00, 0x00, 0x00, 0x00, 0x00, b'a', b'b'];
    assert_eq!(decode_value(&Shape::Str, &bytes, 0), Err(DeserError::Io));
    // truncation at the exact field boundary of a record: the first field
    // decodes, the second fails
    let shape = Shape::Record(vec![
        Field { name: String::from("x"), shape: Shape::U32 },
        Field { name: String::from("y"), shape: Shape::U64 },
    ]);
    let bytes = encode(&Value::Record(vec![Value::U32(1), Value::U64(2)]));
    assert_eq!(decode_value(&shape, &bytes[..6], 0), Err(DeserError::Io));
    assert!(decode_value(&shape, &bytes, 0).is_ok());
}

#[test]
fn malformed_utf8_payload_is_an_encoding_error() {
    // a valid 2-byte length prefix followed by bytes that are not UTF-8
    let bytes = [0x02, 0x00, 0x00, 0x00, 0x00, 0x00, 0x00, 0x00, 0xFF, 0xFE];
    assert_eq!(decode_value(&Shape::Str, &bytes, 0), Err(DeserError::Utf8));
    let r = <String as Deser>::deser(&bytes, 0);
    assert!(matches!(r, Err(DeserError::Utf8)));
}

#[test]
fn strings_round_trip_including_multibyte_text() {
    for text in ["", "e!", "Hello, World!", "na\u{ef}ve caf\u{e9} \u{1F600}"].iter() {
        let v = Value::Str(String::from(*text));
        let bytes = encode(&v);
        assert_eq!(bytes.len(), 8 + text.len());
        let (back, end) = decode_value(&Shape::Str, &bytes, 0).unwrap();
        assert_eq!(back, v);
        assert_eq!(end, bytes.len());
    }
}

#[test]
fn permuting_field_order_permutes_the_wire_format() {
    let forward = Value::Record(vec![Value::U8(0x01), Value::U16(0x0203)]);
    let backward = Value::Record(vec![Value::U16(0x0203), Value::U8(0x01)]);
    assert_eq!(encode(&forward), vec![0x01, 0x03, 0x02]);
    assert_eq!(encode(&backward), vec![0x03, 0x02, 0x01]);

    let forward_shape = Shape::Record(vec![
        Field { name: String::from("small"), shape: Shape::U8 },
        Field { name: String::from("wide"), shape: Shape::U16 },
    ]);
    let backward_shape = Shape::Record(vec![
        Field { name: String::from("wide"), shape: Shape::U16 },
        Field { name: String::from("small"), shape: Shape::U8 },
    ]);
    let (v, _) = decode_value(&forward_shape, &[0x01, 0x03, 0x02], 0).unwrap();
    assert_eq!(v, forward);
    let (v, _) = decode_value(&backward_shape, &[0x03, 0x02, 0x01], 0).unwrap();
    assert_eq!(v, backward);
}

#[test]
fn record_and_tuple_with_the_same_fields_share_a_wire_format() {
    let record = Value::Record(vec![Value::U32(7), Value::Bool(true)]);
    let tuple = Value::Tuple(vec![Value::U32(7), Value::Bool(true)]);
    assert_eq!(encode(&record), encode(&tuple));
}

#[test]
fn trait_level_codec_round_trips() {
    let mut buf: Vec<u8> = Vec::new();
    42u32.ser(&mut buf);
    (-7i64).ser(&mut buf);
    String::from("hi").ser(&mut buf);
    true.ser(&mut buf);
    assert_eq!(buf.len(), 42u32.ser_len() + (-7i64).ser_len() + String::from("hi").ser_len() + true.ser_len());

    let (a, p) = <u32 as Deser>::deser(&buf, 0).unwrap();
    let (b, p) = <i64 as Deser>::deser(&buf, p).unwrap();
    let (c, p) = <String as Deser>::deser(&buf, p).unwrap();
    let (d, p) = <bool as Deser>::deser(&buf, p).unwrap();
    assert_eq!(a, 42u32);
    assert_eq!(b, -7i64);
    assert_eq!(c, String::from("hi"));
    assert_eq!(d, true);
    assert_eq!(p, buf.len());
}

#[test]
fn nested_composites_round_trip() {
    let inner = Value::Tuple(vec![Value::I8(-5), Value::Str(String::from("deep"))]);
    let middle = Value::Record(vec![inner, Value::U128(u128::MAX)]);
    let outer = Value::Tuple(vec![middle, Value::Bool(true)]);

    let shape = Shape::Tuple(vec![
        Shape::Record(vec![
            Field {
                name: String::from("pair"),
                shape: Shape::Tuple(vec![Shape::I8, Shape::Str]),
            },
            Field { name: String::from("big"), shape: Shape::U128 },
        ]),
        Shape::Bool,
    ]);

    let bytes = encode(&outer);
    assert_eq!(bytes.len(), value_len(&outer));
    let (back, end) = decode_value(&shape, &bytes, 0).unwrap();
    assert_eq!(back, outer);
    assert_eq!(end, bytes.len());
}
