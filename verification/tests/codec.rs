use convex_ffi::primitives::has_remaining;
use convex_ffi::{CodecError, Value, ValueMap, ValueObject, ValueSet};

fn integer(value: i64) -> Value {
    Value::Int { value }
}

fn text(value: &str) -> Value {
    Value::String { value: value.to_string() }
}

fn sample_object() -> Value {
    let fields = vec![
        ("a".to_string(), integer(1)),
        (
            "b".to_string(),
            Value::Array { value: vec![Value::Null, Value::Bool { value: true }] },
        ),
    ];
    Value::Object { value: ValueObject::from_vec(fields) }
}

#[test]
fn object_example_has_exact_bytes() {
    let bytes = sample_object().encode().unwrap();
    let expected: Vec<u8> = vec![
        0, 0, 0, 11, // object
        0, 0, 0, 2, // two fields
        0, 0, 0, 1, 0x61, // "a"
        0, 0, 0, 3, 0, 0, 0, 0, 0, 0, 0, 1, // integer 1
        0, 0, 0, 1, 0x62, // "b"
        0, 0, 0, 8, 0, 0, 0, 2, // array of two
        0, 0, 0, 2, // null
        0, 0, 0, 5, 1, // true
    ];
    assert_eq!(bytes, expected);
}

#[test]
fn object_example_round_trips_and_reencodes_identically() {
    let value = sample_object();
    let bytes = value.encode().unwrap();
    let decoded = Value::decode(&bytes).unwrap();
    assert_eq!(decoded, value);
    assert_eq!(decoded.encode().unwrap(), bytes);
}

#[test]
fn every_variant_round_trips() {
    let mut map = ValueMap::new();
    map.insert(integer(2), text("two"));
    map.insert(Value::Null, Value::Float { value: 0x7ff8_0000_0000_0000 });
    let values = vec![
        Value::Id { id: "abc123".to_string() },
        Value::Null,
        integer(i64::MIN),
        integer(-1),
        integer(i64::MAX),
        Value::Float { value: 0 },
        Value::Float { value: 0x8000_0000_0000_0000 },
        Value::Float { value: u64::MAX },
        Value::Bool { value: false },
        Value::Bool { value: true },
        text(""),
        text("héllo ✓ 𝄞"),
        Value::Bytes { value: vec![] },
        Value::Bytes { value: vec![0, 255, 7] },
        Value::Array { value: vec![] },
        Value::Array { value: vec![Value::Array { value: vec![Value::Array { value: vec![] }] }] },
        Value::SetOf { value: ValueSet::from_vec(vec![integer(3), integer(1), integer(2)]) },
        Value::MapOf { value: map },
        sample_object(),
    ];
    for value in values {
        let bytes = value.encode().unwrap();
        assert_eq!(Value::decode(&bytes), Ok(value));
    }
}

#[test]
fn empty_collections_are_a_tag_and_a_zero_count() {
    let cases: Vec<(Value, u8)> = vec![
        (Value::Array { value: vec![] }, 8),
        (Value::SetOf { value: ValueSet::new() }, 9),
        (Value::MapOf { value: ValueMap::new() }, 10),
        (Value::Object { value: ValueObject::new() }, 11),
    ];
    for (value, tag) in cases {
        let bytes = value.encode().unwrap();
        assert_eq!(bytes, vec![0, 0, 0, tag, 0, 0, 0, 0]);
        assert_eq!(Value::decode(&bytes), Ok(value));
    }
    let mut buf = Vec::new();
    ValueSet::new().write(&mut buf).unwrap();
    assert_eq!(buf, vec![0, 0, 0, 0]);
    let (set, rest) = ValueSet::try_read(&buf).unwrap();
    assert_eq!(set.len(), 0);
    assert!(rest.is_empty());
}

#[test]
fn every_truncation_is_reported_as_truncated() {
    let bytes = sample_object().encode().unwrap();
    for cut in 0..bytes.len() {
        assert_eq!(Value::decode(&bytes[..cut]), Err(CodecError::TruncatedInput));
        assert_eq!(Value::try_read(&bytes[..cut]).err(), Some(CodecError::TruncatedInput));
    }
}

#[test]
fn sets_encode_the_same_whatever_the_insertion_order() {
    let a = ValueSet::from_vec(vec![integer(1), text("x"), Value::Null, integer(-5)]);
    let b = ValueSet::from_vec(vec![Value::Null, integer(-5), integer(1), text("x"), integer(1)]);
    let bytes_a = Value::SetOf { value: a }.encode().unwrap();
    let bytes_b = Value::SetOf { value: b }.encode().unwrap();
    assert_eq!(bytes_a, bytes_b);
}

#[test]
fn maps_encode_the_same_whatever_the_insertion_order() {
    let mut a = ValueMap::new();
    a.insert(integer(1), text("one"));
    a.insert(integer(2), text("two"));
    let mut b = ValueMap::new();
    b.insert(integer(2), text("two"));
    b.insert(integer(1), text("one"));
    assert_eq!(
        Value::MapOf { value: a }.encode().unwrap(),
        Value::MapOf { value: b }.encode().unwrap()
    );
}

#[test]
fn decoding_makes_a_set_canonical() {
    // A set written as 2, 1, 2: out of order and with a repeat.
    let bytes: Vec<u8> = vec![
        0, 0, 0, 9, 0, 0, 0, 3, //
        0, 0, 0, 3, 0, 0, 0, 0, 0, 0, 0, 2, //
        0, 0, 0, 3, 0, 0, 0, 0, 0, 0, 0, 1, //
        0, 0, 0, 3, 0, 0, 0, 0, 0, 0, 0, 2,
    ];
    let decoded = Value::decode(&bytes).unwrap();
    let expected = Value::SetOf { value: ValueSet::from_vec(vec![integer(1), integer(2)]) };
    assert_eq!(decoded, expected);
    let canonical: Vec<u8> = vec![
        0, 0, 0, 9, 0, 0, 0, 2, //
        0, 0, 0, 3, 0, 0, 0, 0, 0, 0, 0, 1, //
        0, 0, 0, 3, 0, 0, 0, 0, 0, 0, 0, 2,
    ];
    assert_eq!(decoded.encode().unwrap(), canonical);
}

#[test]
fn decode_errors_name_their_cause() {
    assert_eq!(Value::decode(&[]), Err(CodecError::TruncatedInput));
    assert_eq!(Value::decode(&[0, 0, 0, 0]), Err(CodecError::InvalidTag { tag: 0 }));
    assert_eq!(Value::decode(&[0, 0, 0, 12]), Err(CodecError::InvalidTag { tag: 12 }));
    assert_eq!(Value::decode(&[255, 255, 255, 255]), Err(CodecError::InvalidTag { tag: -1 }));
    assert_eq!(Value::decode(&[0, 0, 0, 5, 2]), Err(CodecError::InvalidBoolean));
    assert_eq!(Value::decode(&[0, 0, 0, 6, 0, 0, 0, 1, 0xff]), Err(CodecError::InvalidText));
    assert_eq!(
        Value::decode(&[0, 0, 0, 8, 255, 255, 255, 255]),
        Err(CodecError::NegativeLength)
    );
    assert_eq!(Value::decode(&[0, 0, 0, 2, 0]), Err(CodecError::TrailingBytes));
    // A count that promises more elements than there are bytes.
    assert_eq!(
        Value::decode(&[0, 0, 0, 8, 0x7f, 0xff, 0xff, 0xff]),
        Err(CodecError::TruncatedInput)
    );
}

#[test]
fn try_read_hands_back_the_rest() {
    let mut bytes = integer(7).encode().unwrap();
    bytes.extend_from_slice(&[9, 9]);
    let (value, rest) = Value::try_read(&bytes).unwrap();
    assert_eq!(value, integer(7));
    assert_eq!(rest, &[9, 9]);
}

#[test]
fn write_appends_to_what_the_buffer_holds() {
    let mut buf = vec![42u8];
    Value::Null.write(&mut buf).unwrap();
    assert_eq!(buf, vec![42, 0, 0, 0, 2]);
}

#[test]
fn scalars_have_exact_big_endian_bytes() {
    assert_eq!(
        integer(-2).encode().unwrap(),
        vec![0, 0, 0, 3, 0xff, 0xff, 0xff, 0xff, 0xff, 0xff, 0xff, 0xfe]
    );
    assert_eq!(
        integer(0x0102_0304_0506_0708).encode().unwrap(),
        vec![0, 0, 0, 3, 1, 2, 3, 4, 5, 6, 7, 8]
    );
    assert_eq!(
        Value::Float { value: 1.0f64.to_bits() }.encode().unwrap(),
        vec![0, 0, 0, 4, 0x3f, 0xf0, 0, 0, 0, 0, 0, 0]
    );
    assert_eq!(
        Value::Float { value: 0x8000_0000_0000_0001 }.encode().unwrap(),
        vec![0, 0, 0, 4, 0x80, 0, 0, 0, 0, 0, 0, 1]
    );
    assert_eq!(Value::Bool { value: false }.encode().unwrap(), vec![0, 0, 0, 5, 0]);
    assert_eq!(
        Value::Id { id: "é".to_string() }.encode().unwrap(),
        vec![0, 0, 0, 1, 0, 0, 0, 2, 0xc3, 0xa9]
    );
    assert_eq!(
        Value::Bytes { value: vec![9, 8] }.encode().unwrap(),
        vec![0, 0, 0, 7, 0, 0, 0, 2, 9, 8]
    );
}

#[test]
fn scalars_are_read_from_exact_bytes() {
    assert_eq!(
        Value::decode(&[0, 0, 0, 3, 0x80, 0, 0, 0, 0, 0, 0, 0]),
        Ok(integer(i64::MIN))
    );
    assert_eq!(
        Value::decode(&[0, 0, 0, 4, 0x7f, 0xf0, 0, 0, 0, 0, 0, 0]),
        Ok(Value::Float { value: f64::INFINITY.to_bits() })
    );
    assert_eq!(
        Value::decode(&[0, 0, 0, 6, 0, 0, 0, 3, 0xe2, 0x9c, 0x93]),
        Ok(text("✓"))
    );
}

#[test]
fn a_byte_string_of_two_to_the_31_bytes_overflows() {
    let huge = Value::Bytes { value: vec![0u8; 1 << 31] };
    assert_eq!(huge.encode(), Err(CodecError::CodecOverflow));
    let nested = Value::Array { value: vec![Value::Null, huge] };
    let mut buf = vec![7u8, 7];
    assert_eq!(nested.write(&mut buf), Err(CodecError::CodecOverflow));
    assert_eq!(buf, vec![7, 7]);
}

#[test]
fn remaining_bytes_are_counted() {
    assert!(has_remaining(&[], 0));
    assert!(!has_remaining(&[], 1));
    assert!(has_remaining(&[1, 2, 3, 4], 4));
    assert!(!has_remaining(&[1, 2, 3], 4));
}
