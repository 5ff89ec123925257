use convex_ffi::compare::{compare_bytes, compare_floats, compare_text};
use convex_ffi::{compare, Order, Value, ValueMap, ValueObject, ValueSet};

fn number(value: i64) -> Value {
    Value::Int { value }
}

fn float(value: f64) -> Value {
    Value::Float { value: value.to_bits() }
}

fn one_of_each() -> Vec<Value> {
    vec![
        Value::Id { id: "z".to_string() },
        Value::Null,
        number(i64::MAX),
        float(f64::NAN),
        Value::Bool { value: true },
        Value::String { value: "zzz".to_string() },
        Value::Bytes { value: vec![255] },
        Value::Array { value: vec![number(9)] },
        Value::SetOf { value: ValueSet::from_vec(vec![number(9)]) },
        Value::MapOf { value: ValueMap::from_vec(vec![(number(9), number(9))]) },
        Value::Object { value: ValueObject::from_vec(vec![("z".to_string(), number(9))]) },
    ]
}

#[test]
fn variants_order_by_their_rank() {
    let values = one_of_each();
    for i in 0..values.len() {
        assert_eq!(values[i].rank(), u8::try_from(i).unwrap());
        for j in 0..values.len() {
            let expected = if i < j {
                Order::Less
            } else if i == j {
                Order::Equal
            } else {
                Order::Greater
            };
            assert_eq!(compare(&values[i], &values[j]), expected);
        }
    }
}

#[test]
fn floats_follow_the_ieee_total_order() {
    let negative_nan = f64::from_bits(0xfff8_0000_0000_0000);
    let ascending = [
        negative_nan,
        f64::NEG_INFINITY,
        -1.5,
        -f64::MIN_POSITIVE,
        -0.0,
        0.0,
        f64::MIN_POSITIVE,
        1.5,
        f64::INFINITY,
        f64::NAN,
    ];
    for i in 0..ascending.len() {
        for j in 0..ascending.len() {
            let got = compare_floats(ascending[i].to_bits(), ascending[j].to_bits());
            let expected = if i < j {
                Order::Less
            } else if i == j {
                Order::Equal
            } else {
                Order::Greater
            };
            assert_eq!(got, expected);
            assert_eq!(got == Order::Less, ascending[i].total_cmp(&ascending[j]).is_lt());
            assert_eq!(compare(&float(ascending[i]), &float(ascending[j])), expected);
        }
    }
}

#[test]
fn signed_zeros_and_nans_are_told_apart_by_their_bits() {
    assert_eq!(compare(&float(-0.0), &float(0.0)), Order::Less);
    let quiet = Value::Float { value: 0x7ff8_0000_0000_0000 };
    let other = Value::Float { value: 0x7ff8_0000_0000_0001 };
    assert_eq!(compare(&quiet, &other), Order::Less);
    assert_eq!(compare(&quiet, &quiet), Order::Equal);
    let set = ValueSet::from_vec(vec![float(0.0), float(-0.0), float(0.0)]);
    assert_eq!(set.len(), 2);
}

#[test]
fn text_orders_by_code_point() {
    assert_eq!(compare_text("", "a"), Order::Less);
    assert_eq!(compare_text("a", "b"), Order::Less);
    assert_eq!(compare_text("Z", "a"), Order::Less);
    assert_eq!(compare_text("ab", "abc"), Order::Less);
    assert_eq!(compare_text("z", "é"), Order::Less);
    assert_eq!(compare_text("é", "𝄞"), Order::Less);
    assert_eq!(compare_text("same", "same"), Order::Equal);
    assert_eq!(compare_text("b", "a"), Order::Greater);
}

#[test]
fn bytes_order_lexicographically() {
    assert_eq!(compare_bytes(&[], &[]), Order::Equal);
    assert_eq!(compare_bytes(&[], &[0]), Order::Less);
    assert_eq!(compare_bytes(&[1, 2], &[1, 3]), Order::Less);
    assert_eq!(compare_bytes(&[2], &[1, 255]), Order::Greater);
    assert_eq!(compare_bytes(&[1, 2, 3], &[1, 2]), Order::Greater);
}

#[test]
fn integers_and_booleans_order_naturally() {
    assert_eq!(compare(&number(-1), &number(0)), Order::Less);
    assert_eq!(compare(&number(i64::MIN), &number(i64::MAX)), Order::Less);
    assert_eq!(compare(&number(5), &number(5)), Order::Equal);
    let no = Value::Bool { value: false };
    let yes = Value::Bool { value: true };
    assert_eq!(compare(&no, &yes), Order::Less);
    assert_eq!(compare(&yes, &no), Order::Greater);
}

#[test]
fn collections_order_lexicographically() {
    let short = Value::Array { value: vec![number(1)] };
    let long = Value::Array { value: vec![number(1), number(0)] };
    let big = Value::Array { value: vec![number(2)] };
    assert_eq!(compare(&short, &long), Order::Less);
    assert_eq!(compare(&long, &big), Order::Less);
    assert_eq!(compare(&short, &big), Order::Less);
    let nested_a = Value::Array { value: vec![Value::Array { value: vec![number(1)] }] };
    let nested_b = Value::Array { value: vec![Value::Array { value: vec![number(2)] }] };
    assert_eq!(compare(&nested_a, &nested_b), Order::Less);

    let by_key = |key: i64, value: i64| Value::MapOf {
        value: ValueMap::from_vec(vec![(number(key), number(value))]),
    };
    assert_eq!(compare(&by_key(1, 9), &by_key(2, 0)), Order::Less);
    assert_eq!(compare(&by_key(1, 1), &by_key(1, 2)), Order::Less);
    assert_eq!(compare(&by_key(1, 1), &by_key(1, 1)), Order::Equal);

    let field = |name: &str, value: i64| Value::Object {
        value: ValueObject::from_vec(vec![(name.to_string(), number(value))]),
    };
    assert_eq!(compare(&field("a", 9), &field("b", 0)), Order::Less);
    assert_eq!(compare(&field("a", 2), &field("a", 1)), Order::Greater);
}

#[test]
fn order_is_antisymmetric_and_transitive_on_samples() {
    let mut samples = one_of_each();
    samples.push(number(-3));
    samples.push(float(-2.0));
    samples.push(Value::String { value: String::new() });
    samples.push(Value::Array { value: vec![] });
    for a in &samples {
        for b in &samples {
            let ab = compare(a, b);
            let ba = compare(b, a);
            assert_eq!(ab == Order::Less, ba == Order::Greater);
            assert_eq!(ab == Order::Equal, a == b);
            for c in &samples {
                if ab == Order::Less && compare(b, c) == Order::Less {
                    assert_eq!(compare(a, c), Order::Less);
                }
            }
        }
    }
}

#[test]
fn the_operators_follow_the_canonical_order() {
    assert!(number(1) < number(2));
    assert!(float(-0.0) < float(0.0));
    assert!(float(f64::INFINITY) < float(f64::NAN));
    assert!(Value::Null < number(i64::MIN));
    assert!(number(3) >= number(3));
    assert!(number(3) == number(3));
    assert!(number(3) != float(3.0));
    let mut values = vec![number(2), Value::Null, float(1.0), number(-1)];
    values.sort_by(|a, b| a.partial_cmp(b).unwrap());
    assert_eq!(values, vec![Value::Null, number(-1), number(2), float(1.0)]);
}
