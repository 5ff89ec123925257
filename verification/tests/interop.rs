use convex_ffi::{Value, ValueObject, ValueSet};
use std::collections::HashMap;
use uniffi::FfiConverter;

type Tag = ();

fn body(value: Value) -> Vec<u8> {
    let bytes = value.encode().unwrap();
    bytes[4..].to_vec()
}

#[test]
fn text_is_written_as_the_foreign_side_reads_it() {
    for sample in ["", "plain", "héllo ✓ 𝄞"] {
        let mut expected = Vec::new();
        <String as FfiConverter<Tag>>::write(sample.to_string(), &mut expected);
        assert_eq!(body(Value::String { value: sample.to_string() }), expected);
        assert_eq!(body(Value::Id { id: sample.to_string() }), expected);
    }
}

#[test]
fn numbers_are_written_as_the_foreign_side_reads_them() {
    for sample in [0i64, 1, -1, i64::MIN, i64::MAX, 0x0102_0304_0506_0708] {
        let mut expected = Vec::new();
        <i64 as FfiConverter<Tag>>::write(sample, &mut expected);
        assert_eq!(body(Value::Int { value: sample }), expected);
    }
    for sample in [0.0f64, -0.0, 1.5, f64::NEG_INFINITY, f64::NAN, f64::MIN_POSITIVE] {
        let mut expected = Vec::new();
        <f64 as FfiConverter<Tag>>::write(sample, &mut expected);
        assert_eq!(body(Value::Float { value: sample.to_bits() }), expected);
    }
    for sample in [false, true] {
        let mut expected = Vec::new();
        <bool as FfiConverter<Tag>>::write(sample, &mut expected);
        assert_eq!(body(Value::Bool { value: sample }), expected);
    }
}

#[test]
fn byte_strings_are_written_as_lists_of_bytes() {
    for sample in [vec![], vec![0u8], vec![1, 2, 3, 255]] {
        let mut expected = Vec::new();
        <Vec<u8> as FfiConverter<Tag>>::write(sample.clone(), &mut expected);
        assert_eq!(body(Value::Bytes { value: sample }), expected);
    }
}

#[test]
fn the_foreign_side_reads_back_what_was_written() {
    let bytes = body(Value::String { value: "round trip".to_string() });
    let mut cursor = &bytes[..];
    let read = <String as FfiConverter<Tag>>::try_read(&mut cursor).unwrap();
    assert_eq!(read, "round trip");
    assert!(cursor.is_empty());

    let bytes = body(Value::Int { value: -42 });
    let mut cursor = &bytes[..];
    assert_eq!(<i64 as FfiConverter<Tag>>::try_read(&mut cursor).unwrap(), -42);

    let bytes = body(Value::Float { value: 2.5f64.to_bits() });
    let mut cursor = &bytes[..];
    assert_eq!(<f64 as FfiConverter<Tag>>::try_read(&mut cursor).unwrap(), 2.5);
}

#[test]
fn a_collection_has_the_count_that_a_list_has() {
    let set = ValueSet::from_vec(vec![Value::Null, Value::Bool { value: true }]);
    let mut written = Vec::new();
    set.write(&mut written).unwrap();
    let mut list = Vec::new();
    <Vec<bool> as FfiConverter<Tag>>::write(vec![false, false], &mut list);
    assert_eq!(written[..4], list[..4]);

    let object = ValueObject::from_vec(vec![("k".to_string(), Value::Null)]);
    let mut written = Vec::new();
    object.write(&mut written).unwrap();
    let mut table = Vec::new();
    let mut map = HashMap::new();
    map.insert("k".to_string(), true);
    <HashMap<String, bool> as FfiConverter<Tag>>::write(map, &mut table);
    // The count and the name are written alike; the values differ.
    assert_eq!(written[..9], table[..9]);
}

#[test]
fn what_the_foreign_side_wrote_is_read() {
    let mut bytes = vec![0, 0, 0, 6];
    <String as FfiConverter<Tag>>::write("from afar".to_string(), &mut bytes);
    assert_eq!(Value::decode(&bytes), Ok(Value::String { value: "from afar".to_string() }));

    let mut bytes = vec![0, 0, 0, 4];
    <f64 as FfiConverter<Tag>>::write(-1.25, &mut bytes);
    assert_eq!(Value::decode(&bytes), Ok(Value::Float { value: (-1.25f64).to_bits() }));

    let mut bytes = vec![0, 0, 0, 7];
    <Vec<u8> as FfiConverter<Tag>>::write(vec![5, 6], &mut bytes);
    assert_eq!(Value::decode(&bytes), Ok(Value::Bytes { value: vec![5, 6] }));
}
