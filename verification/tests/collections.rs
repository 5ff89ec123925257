use convex_ffi::{Value, ValueMap, ValueObject, ValueSet};

fn num(value: i64) -> Value {
    Value::Int { value }
}

fn word(value: &str) -> Value {
    Value::String { value: value.to_string() }
}

#[test]
fn set_keeps_its_elements_sorted_and_once() {
    let mut set = ValueSet::new();
    assert_eq!(set.len(), 0);
    assert!(set.insert(num(3)));
    assert!(set.insert(num(1)));
    assert!(set.insert(word("a")));
    assert!(!set.insert(num(3)));
    assert!(set.insert(Value::Null));
    assert_eq!(set.len(), 4);
    assert_eq!(set.into_vec(), vec![Value::Null, num(1), num(3), word("a")]);
}

#[test]
fn set_finds_what_it_holds() {
    let set = ValueSet::from_vec(vec![num(5), num(2), num(8)]);
    assert!(set.contains(&num(2)));
    assert!(set.contains(&num(8)));
    assert!(!set.contains(&num(3)));
    assert!(!set.contains(&Value::Null));
    assert_eq!(set.get(0), &num(2));
    assert_eq!(set.get(2), &num(8));
    assert_eq!(set.items(), &vec![num(2), num(5), num(8)]);
}

#[test]
fn sets_with_the_same_elements_are_equal() {
    let a = ValueSet::from_vec(vec![num(1), num(2), num(3)]);
    let b = ValueSet::from_vec(vec![num(3), num(3), num(1), num(2), num(1)]);
    assert_eq!(a, b);
    assert_eq!(a.clone(), b);
}

#[test]
fn map_insert_replaces_and_hands_back_the_old_value() {
    let mut map = ValueMap::new();
    assert_eq!(map.insert(num(2), word("two")), None);
    assert_eq!(map.insert(num(1), word("one")), None);
    assert_eq!(map.insert(num(2), word("zwei")), Some(word("two")));
    assert_eq!(map.len(), 2);
    assert_eq!(map.get(&num(2)), Some(&word("zwei")));
    assert_eq!(map.get(&num(3)), None);
    assert_eq!(map.key_at(0), &num(1));
    assert_eq!(map.value_at(0), &word("one"));
    assert_eq!(map.into_vec(), vec![(num(1), word("one")), (num(2), word("zwei"))]);
}

#[test]
fn map_built_from_entries_keeps_the_last_value_of_a_key() {
    let map = ValueMap::from_vec(vec![
        (num(1), word("first")),
        (num(0), word("zero")),
        (num(1), word("last")),
    ]);
    assert_eq!(map.entries(), &vec![(num(0), word("zero")), (num(1), word("last"))]);
}

#[test]
fn object_orders_its_fields_by_name() {
    let mut object = ValueObject::new();
    assert_eq!(object.insert("b".to_string(), num(2)), None);
    assert_eq!(object.insert("a".to_string(), num(1)), None);
    assert_eq!(object.insert("c".to_string(), num(3)), None);
    assert_eq!(object.insert("a".to_string(), num(10)), Some(num(1)));
    assert_eq!(object.len(), 3);
    assert_eq!(object.name_at(0), "a");
    assert_eq!(object.value_at(0), &num(10));
    assert_eq!(object.get("c"), Some(&num(3)));
    assert_eq!(object.get("d"), None);
    assert_eq!(
        object.fields(),
        &vec![("a".to_string(), num(10)), ("b".to_string(), num(2)), ("c".to_string(), num(3))]
    );
    let same = ValueObject::from_vec(vec![
        ("c".to_string(), num(3)),
        ("a".to_string(), num(10)),
        ("b".to_string(), num(2)),
    ]);
    assert_eq!(object, same);
    assert_eq!(object.into_vec(), same.into_vec());
}

#[test]
fn a_clone_equals_what_it_was_made_from() {
    let value = Value::Array {
        value: vec![
            Value::Id { id: "id".to_string() },
            Value::Bytes { value: vec![1, 2, 3] },
            Value::SetOf { value: ValueSet::from_vec(vec![num(2), num(1)]) },
            Value::MapOf { value: ValueMap::from_vec(vec![(num(1), Value::Null)]) },
            Value::Object { value: ValueObject::from_vec(vec![("k".to_string(), word("v"))]) },
            Value::Float { value: 1 },
            Value::Bool { value: true },
        ],
    };
    assert_eq!(value.clone(), value);
}
