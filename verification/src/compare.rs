//! Deciding the canonical order between two values.

use vstd::prelude::*;
use vstd::utf8::encode_utf8_decode_utf8;
use crate::model::{
    bytes_lt, bytes_lt_from, entries_lt_from, entry_lt, float_key, lt, pair_lt, pairs_lt_from,
    seq_lt_from, text_lt, Model,
};
use crate::value::{values_model, Value, ValueMap, ValueObject, ValueSet};

verus! {

/// How one thing stands to another in an order.
#[derive(Clone, Copy, Debug, PartialEq, Eq, Structural)]
pub enum Order {
    Less,
    Equal,
    Greater,
}

/// Names the case that holds of two things of which `less` says whether the
/// first precedes the second.
pub open spec fn order_from(equal: bool, less: bool) -> Order {
    if equal {
        Order::Equal
    } else if less {
        Order::Less
    } else {
        Order::Greater
    }
}

/// How `a` stands to `b` in the canonical order.
pub open spec fn order_of(a: Model, b: Model) -> Order {
    order_from(a == b, lt(a, b))
}

/// Three-way lexicographic comparison of two byte strings.
pub fn compare_bytes(x: &[u8], y: &[u8]) -> (r: Order)
    ensures
        r == order_from(x@ == y@, bytes_lt(x@, y@)),
{
    let mut i: usize = 0;
    while i < x.len() && i < y.len()
        invariant
            i <= x@.len(),
            i <= y@.len(),
            forall|j: int| 0 <= j < i ==> x@[j] == y@[j],
            bytes_lt_from(x@, y@, 0) == bytes_lt_from(x@, y@, i as int),
        decreases x@.len() - i,
    {
        if x[i] < y[i] {
            return Order::Less;
        }
        if x[i] > y[i] {
            return Order::Greater;
        }
        i = i + 1;
    }
    if x.len() < y.len() {
        Order::Less
    } else if x.len() > y.len() {
        Order::Greater
    } else {
        assert(x@ =~= y@);
        Order::Equal
    }
}

/// Three-way comparison of two texts by their code points.
pub fn compare_text(x: &str, y: &str) -> (r: Order)
    ensures
        r == order_from(x@ == y@, text_lt(x@, y@)),
{
    proof {
        encode_utf8_decode_utf8(x@);
        encode_utf8_decode_utf8(y@);
    }
    compare_bytes(x.as_bytes(), y.as_bytes())
}

/// Three-way comparison of two numbers in the IEEE-754 total order, each
/// given by its bit pattern.
pub fn compare_floats(x: u64, y: u64) -> (r: Order)
    ensures
        r == order_from(x == y, float_key(x) < float_key(y)),
{
    let x_negative = x >= 0x8000_0000_0000_0000u64;
    let y_negative = y >= 0x8000_0000_0000_0000u64;
    if x == y {
        Order::Equal
    } else if x_negative != y_negative {
        if x_negative {
            Order::Less
        } else {
            Order::Greater
        }
    } else if (x < y) != x_negative {
        Order::Less
    } else {
        Order::Greater
    }
}

/// Three-way comparison of two values in the canonical order.
pub fn compare(a: &Value, b: &Value) -> (r: Order)
    ensures
        r == order_of(a@, b@),
    decreases a,
{
    let rank_a = a.rank();
    let rank_b = b.rank();
    if rank_a < rank_b {
        return Order::Less;
    }
    if rank_a > rank_b {
        return Order::Greater;
    }
    match (a, b) {
        (Value::Id { id: x }, Value::Id { id: y }) => compare_text(x.as_str(), y.as_str()),
        (Value::Int { value: x }, Value::Int { value: y }) => {
            if *x < *y {
                Order::Less
            } else if *x == *y {
                Order::Equal
            } else {
                Order::Greater
            }
        },
        (Value::Float { value: x }, Value::Float { value: y }) => compare_floats(*x, *y),
        (Value::Bool { value: x }, Value::Bool { value: y }) => {
            if *x == *y {
                Order::Equal
            } else if *y {
                Order::Less
            } else {
                Order::Greater
            }
        },
        (Value::String { value: x }, Value::String { value: y }) => compare_text(
            x.as_str(),
            y.as_str(),
        ),
        (Value::Bytes { value: x }, Value::Bytes { value: y }) => compare_bytes(
            x.as_slice(),
            y.as_slice(),
        ),
        (Value::Array { value: x }, Value::Array { value: y }) => compare_arrays(x, y),
        (Value::SetOf { value: x }, Value::SetOf { value: y }) => compare_sets(x, y),
        (Value::MapOf { value: x }, Value::MapOf { value: y }) => compare_maps(x, y),
        (Value::Object { value: x }, Value::Object { value: y }) => compare_objects(x, y),
        _ => Order::Equal,
    }
}

/// Three-way lexicographic comparison of two arrays.
#[verifier::loop_isolation(false)]
pub fn compare_arrays(x: &Vec<Value>, y: &Vec<Value>) -> (r: Order)
    ensures
        r == order_from(
            values_model(x@) == values_model(y@),
            seq_lt_from(values_model(x@), values_model(y@), 0),
        ),
    decreases x,
{
    let ghost xm = values_model(x@);
    let ghost ym = values_model(y@);
    let mut i: usize = 0;
    while i < x.len() && i < y.len()
        invariant
            i <= x@.len(),
            i <= y@.len(),
            forall|j: int| 0 <= j < i ==> xm[j] == ym[j],
            seq_lt_from(xm, ym, 0) == seq_lt_from(xm, ym, i as int),
        decreases x@.len() - i,
    {
        let c = compare(&x[i], &y[i]);
        match c {
            Order::Equal => {},
            _ => {
                return c;
            },
        }
        i = i + 1;
    }
    if x.len() < y.len() {
        Order::Less
    } else if x.len() > y.len() {
        Order::Greater
    } else {
        assert(xm =~= ym);
        Order::Equal
    }
}

/// Three-way lexicographic comparison of two sets.
#[verifier::loop_isolation(false)]
pub fn compare_sets(x: &ValueSet, y: &ValueSet) -> (r: Order)
    ensures
        r == order_from(x@ == y@, seq_lt_from(x@, y@, 0)),
    decreases x,
{
    let mut i: usize = 0;
    while i < x.len() && i < y.len()
        invariant
            i <= x@.len(),
            i <= y@.len(),
            forall|j: int| 0 <= j < i ==> x@[j] == y@[j],
            seq_lt_from(x@, y@, 0) == seq_lt_from(x@, y@, i as int),
        decreases x@.len() - i,
    {
        let c = compare(x.get(i), y.get(i));
        match c {
            Order::Equal => {},
            _ => {
                return c;
            },
        }
        i = i + 1;
    }
    if x.len() < y.len() {
        Order::Less
    } else if x.len() > y.len() {
        Order::Greater
    } else {
        assert(x@ =~= y@);
        Order::Equal
    }
}

/// Three-way lexicographic comparison of two maps, entry by entry, each
/// entry by its key and then by its value.
#[verifier::loop_isolation(false)]
pub fn compare_maps(x: &ValueMap, y: &ValueMap) -> (r: Order)
    ensures
        r == order_from(x@ == y@, pairs_lt_from(x@, y@, 0)),
    decreases x,
{
    let mut i: usize = 0;
    while i < x.len() && i < y.len()
        invariant
            i <= x@.len(),
            i <= y@.len(),
            forall|j: int| 0 <= j < i ==> x@[j] == y@[j],
            pairs_lt_from(x@, y@, 0) == pairs_lt_from(x@, y@, i as int),
        decreases x@.len() - i,
    {
        let by_key = compare(x.key_at(i), y.key_at(i));
        match by_key {
            Order::Equal => {},
            _ => {
                proof {
                    let (p, q) = (x@[i as int], y@[i as int]);
                    assert(pair_lt(p, q) == lt(p.0, q.0));
                    assert(pairs_lt_from(x@, y@, i as int) == pair_lt(p, q));
                }
                return by_key;
            },
        }
        let by_value = compare(x.value_at(i), y.value_at(i));
        match by_value {
            Order::Equal => {},
            _ => {
                proof {
                    let (p, q) = (x@[i as int], y@[i as int]);
                    assert(pair_lt(p, q) == lt(p.1, q.1));
                    assert(pairs_lt_from(x@, y@, i as int) == pair_lt(p, q));
                }
                return by_value;
            },
        }
        i = i + 1;
    }
    if x.len() < y.len() {
        Order::Less
    } else if x.len() > y.len() {
        Order::Greater
    } else {
        assert(x@ =~= y@);
        Order::Equal
    }
}

/// Three-way lexicographic comparison of two objects, field by field, each
/// field by its name and then by its value.
#[verifier::loop_isolation(false)]
pub fn compare_objects(x: &ValueObject, y: &ValueObject) -> (r: Order)
    ensures
        r == order_from(x@ == y@, entries_lt_from(x@, y@, 0)),
    decreases x,
{
    let mut i: usize = 0;
    while i < x.len() && i < y.len()
        invariant
            i <= x@.len(),
            i <= y@.len(),
            forall|j: int| 0 <= j < i ==> x@[j] == y@[j],
            entries_lt_from(x@, y@, 0) == entries_lt_from(x@, y@, i as int),
        decreases x@.len() - i,
    {
        let by_name = compare_text(x.name_at(i).as_str(), y.name_at(i).as_str());
        match by_name {
            Order::Equal => {},
            _ => {
                proof {
                    let (p, q) = (x@[i as int], y@[i as int]);
                    assert(entry_lt(p, q) == text_lt(p.0, q.0));
                    assert(entries_lt_from(x@, y@, i as int) == entry_lt(p, q));
                }
                return by_name;
            },
        }
        let by_value = compare(x.value_at(i), y.value_at(i));
        match by_value {
            Order::Equal => {},
            _ => {
                proof {
                    let (p, q) = (x@[i as int], y@[i as int]);
                    assert(entry_lt(p, q) == lt(p.1, q.1));
                    assert(entries_lt_from(x@, y@, i as int) == entry_lt(p, q));
                }
                return by_value;
            },
        }
        i = i + 1;
    }
    if x.len() < y.len() {
        Order::Less
    } else if x.len() > y.len() {
        Order::Greater
    } else {
        assert(x@ =~= y@);
        Order::Equal
    }
}

} // verus!
