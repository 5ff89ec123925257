use convex_ffi::type_meta::{
    map_type_meta, object_type_meta, set_type_meta, value_type_meta, TYPE_ENUM, TYPE_HASH_MAP,
    TYPE_STRING, TYPE_VEC,
};
use uniffi::metadata::codes;
use uniffi::{FfiConverter, MetadataBuffer};

#[test]
fn the_codes_are_those_of_the_binding_generator() {
    assert_eq!(TYPE_STRING, codes::TYPE_STRING);
    assert_eq!(TYPE_ENUM, codes::TYPE_ENUM);
    assert_eq!(TYPE_VEC, codes::TYPE_VEC);
    assert_eq!(TYPE_HASH_MAP, codes::TYPE_HASH_MAP);
}

#[test]
fn a_value_is_announced_as_an_enumeration_by_name() {
    let expected = MetadataBuffer::from_code(codes::TYPE_ENUM).concat_str("Value");
    assert_eq!(value_type_meta(), expected.as_ref());
    assert_eq!(value_type_meta(), vec![14, 5, b'V', b'a', b'l', b'u', b'e']);
}

#[test]
fn a_set_is_announced_as_a_list_of_values() {
    assert_eq!(set_type_meta(), vec![17, 14, 5, b'V', b'a', b'l', b'u', b'e']);
}

#[test]
fn a_map_is_announced_as_a_table_from_values_to_values() {
    assert_eq!(
        map_type_meta(),
        vec![18, 14, 5, b'V', b'a', b'l', b'u', b'e', 14, 5, b'V', b'a', b'l', b'u', b'e']
    );
}

#[test]
fn an_object_is_announced_as_a_table_from_text_to_values() {
    assert_eq!(object_type_meta(), vec![18, 11, 14, 5, b'V', b'a', b'l', b'u', b'e']);
}

fn value_tags() -> MetadataBuffer {
    MetadataBuffer::from_code(codes::TYPE_ENUM).concat_str("Value")
}

#[test]
fn the_tags_are_those_that_the_binding_generator_puts_together() {
    let set = MetadataBuffer::from_code(codes::TYPE_VEC).concat(value_tags());
    assert_eq!(set_type_meta(), set.as_ref());
    let map = MetadataBuffer::from_code(codes::TYPE_HASH_MAP)
        .concat(value_tags())
        .concat(value_tags());
    assert_eq!(map_type_meta(), map.as_ref());
    let object = MetadataBuffer::from_code(codes::TYPE_HASH_MAP)
        .concat(<String as FfiConverter<()>>::TYPE_ID_META)
        .concat(value_tags());
    assert_eq!(object_type_meta(), object.as_ref());
}
