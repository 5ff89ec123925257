//! Values as the backend's client hands them over, and the conversion
//! between them and the values of the bridge.

use vstd::prelude::*;
use crate::canonical::{
    canonical, canonical_fields, canonical_items, canonical_pairs, lemma_canonical_of_wf,
    lemma_canonical_wf, wf,
};
use crate::model::Model;
use crate::value::{
    fields_model, pairs_model, values_model, Value, ValueMap, ValueObject, ValueSet,
};

verus! {

/// A value of the backend's wire protocol. A set or a map lists what it
/// holds in the order in which the wire had it.
#[derive(Debug, PartialEq, Eq)]
pub enum WireValue {
    Id(String),
    Null,
    Int64(i64),
    /// A 64-bit IEEE-754 number, held as its bit pattern.
    Float64(u64),
    Boolean(bool),
    String(String),
    Bytes(Vec<u8>),
    Array(Vec<WireValue>),
    SetOf(Vec<WireValue>),
    MapOf(Vec<(WireValue, WireValue)>),
    Object(Vec<(String, WireValue)>),
}

/// What a wire value is.
pub open spec fn wire_model(w: WireValue) -> Model
    decreases w,
{
    match w {
        WireValue::Id(x) => Model::Id(x@),
        WireValue::Null => Model::Null,
        WireValue::Int64(x) => Model::Int(x),
        WireValue::Float64(x) => Model::Float(x),
        WireValue::Boolean(x) => Model::Bool(x),
        WireValue::String(x) => Model::Str(x@),
        WireValue::Bytes(x) => Model::Bytes(x@),
        WireValue::Array(x) => Model::Array(wires_model(x@)),
        WireValue::SetOf(x) => Model::SetOf(wires_model(x@)),
        WireValue::MapOf(x) => Model::MapOf(wire_pairs_model(x@)),
        WireValue::Object(x) => Model::Object(wire_fields_model(x@)),
    }
}

/// What each wire value of a sequence is.
pub open spec fn wires_model(s: Seq<WireValue>) -> Seq<Model>
    decreases s,
{
    Seq::new(
        s.len(),
        |i: int|
            if 0 <= i < s.len() {
                wire_model(s[i])
            } else {
                Model::Null
            },
    )
}

/// What each key and each value of a sequence of wire pairs is.
pub open spec fn wire_pairs_model(s: Seq<(WireValue, WireValue)>) -> Seq<(Model, Model)>
    decreases s,
{
    Seq::new(
        s.len(),
        |i: int|
            if 0 <= i < s.len() {
                (wire_model(s[i].0), wire_model(s[i].1))
            } else {
                (Model::Null, Model::Null)
            },
    )
}

/// The name and what the value is, for each of a sequence of named wire values.
pub open spec fn wire_fields_model(s: Seq<(String, WireValue)>) -> Seq<(Seq<char>, Model)>
    decreases s,
{
    Seq::new(
        s.len(),
        |i: int|
            if 0 <= i < s.len() {
                (s[i].0@, wire_model(s[i].1))
            } else {
                (Seq::empty(), Model::Null)
            },
    )
}

impl View for WireValue {
    type V = Model;

    open spec fn view(&self) -> Model {
        wire_model(*self)
    }
}

/// The bridge value for a wire value: the same content, with every set and
/// map in canonical order.
pub fn to_bridge(w: WireValue) -> (v: Value)
    ensures
        v@ == canonical(w@),
        wf(v@),
    decreases w,
{
    proof {
        lemma_canonical_wf(w@);
    }
    match w {
        WireValue::Id(id) => Value::Id { id },
        WireValue::Null => Value::Null,
        WireValue::Int64(value) => Value::Int { value },
        WireValue::Float64(value) => Value::Float { value },
        WireValue::Boolean(value) => Value::Bool { value },
        WireValue::String(value) => Value::String { value },
        WireValue::Bytes(value) => Value::Bytes { value },
        WireValue::Array(items) => Value::Array { value: bridge_items(items) },
        WireValue::SetOf(items) => Value::SetOf { value: ValueSet::from_vec(bridge_items(items)) },
        WireValue::MapOf(entries) => Value::MapOf {
            value: ValueMap::from_vec(bridge_pairs(entries)),
        },
        WireValue::Object(entries) => Value::Object {
            value: ValueObject::from_vec(bridge_fields(entries)),
        },
    }
}

#[verifier::loop_isolation(false)]
fn bridge_items(items: Vec<WireValue>) -> (r: Vec<Value>)
    ensures
        values_model(r@) == canonical_items(wires_model(items@)),
    decreases items,
{
    let mut r: Vec<Value> = Vec::new();
    for w in it: items
        invariant
            it.seq() == items@,
            r@.len() == it.index(),
            forall|j: int| 0 <= j < r@.len() ==> r@[j]@ == canonical(items@[j]@),
    {
        r.push(to_bridge(w));
    }
    assert(values_model(r@) =~= canonical_items(wires_model(items@)));
    r
}

#[verifier::loop_isolation(false)]
fn bridge_pairs(entries: Vec<(WireValue, WireValue)>) -> (r: Vec<(Value, Value)>)
    ensures
        pairs_model(r@) == canonical_pairs(wire_pairs_model(entries@)),
    decreases entries,
{
    let mut r: Vec<(Value, Value)> = Vec::new();
    for e in it: entries
        invariant
            it.seq() == entries@,
            r@.len() == it.index(),
            forall|j: int|
                0 <= j < r@.len() ==> r@[j].0@ == canonical(entries@[j].0@) && r@[j].1@
                    == canonical(entries@[j].1@),
    {
        r.push((to_bridge(e.0), to_bridge(e.1)));
    }
    assert(pairs_model(r@) =~= canonical_pairs(wire_pairs_model(entries@)));
    r
}

#[verifier::loop_isolation(false)]
fn bridge_fields(entries: Vec<(String, WireValue)>) -> (r: Vec<(String, Value)>)
    ensures
        fields_model(r@) == canonical_fields(wire_fields_model(entries@)),
    decreases entries,
{
    let mut r: Vec<(String, Value)> = Vec::new();
    for e in it: entries
        invariant
            it.seq() == entries@,
            r@.len() == it.index(),
            forall|j: int|
                0 <= j < r@.len() ==> r@[j].0@ == entries@[j].0@ && r@[j].1@ == canonical(
                    entries@[j].1@,
                ),
    {
        r.push((e.0, to_bridge(e.1)));
    }
    assert(fields_model(r@) =~= canonical_fields(wire_fields_model(entries@)));
    r
}

/// The wire value for a bridge value: the same content, a set or a map
/// listing what it holds in canonical order.
pub fn to_wire(v: Value) -> (w: WireValue)
    ensures
        w@ == v@,
    decreases v,
{
    match v {
        Value::Id { id } => WireValue::Id(id),
        Value::Null => WireValue::Null,
        Value::Int { value } => WireValue::Int64(value),
        Value::Float { value } => WireValue::Float64(value),
        Value::Bool { value } => WireValue::Boolean(value),
        Value::String { value } => WireValue::String(value),
        Value::Bytes { value } => WireValue::Bytes(value),
        Value::Array { value } => WireValue::Array(wire_items(value)),
        Value::SetOf { value } => WireValue::SetOf(wire_items(value.into_vec())),
        Value::MapOf { value } => WireValue::MapOf(wire_pairs(value.into_vec())),
        Value::Object { value } => WireValue::Object(wire_fields(value.into_vec())),
    }
}

#[verifier::loop_isolation(false)]
fn wire_items(items: Vec<Value>) -> (r: Vec<WireValue>)
    ensures
        wires_model(r@) == values_model(items@),
    decreases items,
{
    let mut r: Vec<WireValue> = Vec::new();
    for v in it: items
        invariant
            it.seq() == items@,
            r@.len() == it.index(),
            forall|j: int| 0 <= j < r@.len() ==> r@[j]@ == items@[j]@,
    {
        r.push(to_wire(v));
    }
    assert(wires_model(r@) =~= values_model(items@));
    r
}

#[verifier::loop_isolation(false)]
fn wire_pairs(entries: Vec<(Value, Value)>) -> (r: Vec<(WireValue, WireValue)>)
    ensures
        wire_pairs_model(r@) == pairs_model(entries@),
    decreases entries,
{
    let mut r: Vec<(WireValue, WireValue)> = Vec::new();
    for e in it: entries
        invariant
            it.seq() == entries@,
            r@.len() == it.index(),
            forall|j: int|
                0 <= j < r@.len() ==> r@[j].0@ == entries@[j].0@ && r@[j].1@ == entries@[j].1@,
    {
        r.push((to_wire(e.0), to_wire(e.1)));
    }
    assert(wire_pairs_model(r@) =~= pairs_model(entries@));
    r
}

/// The named wire values for named bridge values, name by name.
#[verifier::loop_isolation(false)]
pub fn wire_fields(entries: Vec<(String, Value)>) -> (r: Vec<(String, WireValue)>)
    ensures
        wire_fields_model(r@) == fields_model(entries@),
    decreases entries,
{
    let mut r: Vec<(String, WireValue)> = Vec::new();
    for e in it: entries
        invariant
            it.seq() == entries@,
            r@.len() == it.index(),
            forall|j: int|
                0 <= j < r@.len() ==> r@[j].0@ == entries@[j].0@ && r@[j].1@ == entries@[j].1@,
    {
        r.push((e.0, to_wire(e.1)));
    }
    assert(wire_fields_model(r@) =~= fields_model(entries@));
    r
}

/// The named arguments of a call, as the backend's client takes them: each
/// field of `args` with its wire value, in canonical order of the names.
pub fn to_convex_args(args: ValueObject) -> (r: Vec<(String, WireValue)>)
    ensures
        wire_fields_model(r@) == args@,
{
    wire_fields(args.into_vec())
}

/// Going to the wire and back changes nothing in a well-formed value: the
/// bridge value of its wire value is the value itself.
pub proof fn lemma_wire_round_trip(m: Model)
    requires
        wf(m),
    ensures
        canonical(m) == m,
{
    lemma_canonical_of_wf(m);
}

/// Crossing from the wire to the bridge is a fixed point: the bridge value
/// of any wire value, sent to the wire and brought back, is the same bridge
/// value.
pub proof fn lemma_bridge_fixed_point(m: Model)
    ensures
        canonical(canonical(m)) == canonical(m),
        wf(canonical(m)),
{
    lemma_canonical_wf(m);
    lemma_canonical_of_wf(canonical(m));
}

} // verus!
