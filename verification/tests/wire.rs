use convex_ffi::{to_bridge, to_convex_args, to_wire, Value, ValueMap, ValueObject, ValueSet, WireValue};

fn wire_scalars() -> Vec<(WireValue, Value)> {
    vec![
        (WireValue::Id("doc".to_string()), Value::Id { id: "doc".to_string() }),
        (WireValue::Null, Value::Null),
        (WireValue::Int64(-7), Value::Int { value: -7 }),
        (WireValue::Float64(1.5f64.to_bits()), Value::Float { value: 1.5f64.to_bits() }),
        (WireValue::Boolean(true), Value::Bool { value: true }),
        (WireValue::String("s".to_string()), Value::String { value: "s".to_string() }),
        (WireValue::Bytes(vec![1, 2]), Value::Bytes { value: vec![1, 2] }),
    ]
}

#[test]
fn scalars_cross_unchanged_in_both_directions() {
    for (wire, bridge) in wire_scalars() {
        assert_eq!(to_wire(bridge.clone()), wire);
        assert_eq!(to_bridge(wire), bridge);
    }
}

#[test]
fn a_wire_set_becomes_canonical() {
    let wire = WireValue::SetOf(vec![
        WireValue::Int64(3),
        WireValue::Int64(1),
        WireValue::Int64(3),
        WireValue::Null,
    ]);
    let bridge = to_bridge(wire);
    let expected = Value::SetOf {
        value: ValueSet::from_vec(vec![
            Value::Null,
            Value::Int { value: 1 },
            Value::Int { value: 3 },
        ]),
    };
    assert_eq!(bridge, expected);
    assert_eq!(
        to_wire(bridge),
        WireValue::SetOf(vec![WireValue::Null, WireValue::Int64(1), WireValue::Int64(3)])
    );
}

#[test]
fn nested_collections_become_canonical_at_every_depth() {
    let wire = WireValue::Array(vec![WireValue::MapOf(vec![
        (WireValue::Int64(2), WireValue::SetOf(vec![WireValue::Int64(9), WireValue::Int64(8)])),
        (WireValue::Int64(1), WireValue::Object(vec![
            ("b".to_string(), WireValue::Null),
            ("a".to_string(), WireValue::Null),
        ])),
    ])]);
    let back = to_wire(to_bridge(wire));
    let expected = WireValue::Array(vec![WireValue::MapOf(vec![
        (WireValue::Int64(1), WireValue::Object(vec![
            ("a".to_string(), WireValue::Null),
            ("b".to_string(), WireValue::Null),
        ])),
        (WireValue::Int64(2), WireValue::SetOf(vec![WireValue::Int64(8), WireValue::Int64(9)])),
    ])]);
    assert_eq!(back, expected);
}

#[test]
fn crossing_twice_is_crossing_once() {
    let wire = || {
        WireValue::Object(vec![
            ("z".to_string(), WireValue::SetOf(vec![WireValue::Boolean(true), WireValue::Boolean(false)])),
            ("a".to_string(), WireValue::Array(vec![WireValue::Float64(0), WireValue::Float64(1 << 63)])),
            ("z".to_string(), WireValue::Int64(0)),
        ])
    };
    let once = to_bridge(wire());
    let twice = to_bridge(to_wire(to_bridge(wire())));
    assert_eq!(once, twice);
    let expected = Value::Object {
        value: ValueObject::from_vec(vec![
            (
                "a".to_string(),
                Value::Array { value: vec![Value::Float { value: 0 }, Value::Float { value: 1 << 63 }] },
            ),
            ("z".to_string(), Value::Int { value: 0 }),
        ]),
    };
    assert_eq!(once, expected);
}

#[test]
fn a_bridge_value_survives_the_wire() {
    let mut map = ValueMap::new();
    map.insert(Value::String { value: "k".to_string() }, Value::Bytes { value: vec![0] });
    let value = Value::Array {
        value: vec![
            Value::MapOf { value: map },
            Value::SetOf { value: ValueSet::from_vec(vec![Value::Null]) },
        ],
    };
    assert_eq!(to_bridge(to_wire(value.clone())), value);
}

#[test]
fn arguments_go_out_by_name_in_canonical_order() {
    let args = ValueObject::from_vec(vec![
        ("limit".to_string(), Value::Int { value: 10 }),
        ("channel".to_string(), Value::String { value: "general".to_string() }),
    ]);
    assert_eq!(
        to_convex_args(args),
        vec![
            ("channel".to_string(), WireValue::String("general".to_string())),
            ("limit".to_string(), WireValue::Int64(10)),
        ]
    );
    assert_eq!(to_convex_args(ValueObject::new()), vec![]);
}
