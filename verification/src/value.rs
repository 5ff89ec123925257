//! The value model: every value that crosses the bridge.

use vstd::prelude::*;
use vstd::slice::slice_to_vec;
use crate::canonical::{
    build, insert_point, lemma_build_sorted, lemma_insert_point_is, lemma_insert_point_sorted,
    lemma_precedes_up_to, lemma_put, put, sorted, Keyed,
};
use crate::compare::{compare, compare_text, Order};
use crate::model::{lt, Model};

verus! {

/// A value of the remote backend, as the foreign side sees it.
#[allow(inconsistent_fields)]
#[derive(Debug, Eq)]
pub enum Value {
    Id { id: String },
    Null,
    Int { value: i64 },
    /// A 64-bit IEEE-754 number, held as its bit pattern.
    Float { value: u64 },
    Bool { value: bool },
    String { value: String },
    Bytes { value: Vec<u8> },
    Array { value: Vec<Value> },
    SetOf { value: ValueSet },
    MapOf { value: ValueMap },
    Object { value: ValueObject },
}

/// A set of values, held in canonical order.
#[derive(Debug, PartialEq, Eq)]
pub struct ValueSet {
    items: Vec<Value>,
}

/// A map from values to values, held in canonical order of its keys.
#[derive(Debug, PartialEq, Eq)]
pub struct ValueMap {
    entries: Vec<(Value, Value)>,
}

/// A map from names to values, held in canonical order of its names.
#[derive(Debug, PartialEq, Eq)]
pub struct ValueObject {
    entries: Vec<(String, Value)>,
}

/// What a value is.
pub open spec fn value_model(v: Value) -> Model
    decreases v,
{
    match v {
        Value::Id { id } => Model::Id(id@),
        Value::Null => Model::Null,
        Value::Int { value } => Model::Int(value),
        Value::Float { value } => Model::Float(value),
        Value::Bool { value } => Model::Bool(value),
        Value::String { value } => Model::Str(value@),
        Value::Bytes { value } => Model::Bytes(value@),
        Value::Array { value } => Model::Array(values_model(value@)),
        Value::SetOf { value } => Model::SetOf(set_model(value)),
        Value::MapOf { value } => Model::MapOf(map_model(value)),
        Value::Object { value } => Model::Object(object_model(value)),
    }
}

/// What each value of a sequence is.
pub open spec fn values_model(s: Seq<Value>) -> Seq<Model>
    decreases s,
{
    Seq::new(
        s.len(),
        |i: int|
            if 0 <= i < s.len() {
                value_model(s[i])
            } else {
                Model::Null
            },
    )
}

/// What each key and each value of a sequence of pairs is.
pub open spec fn pairs_model(s: Seq<(Value, Value)>) -> Seq<(Model, Model)>
    decreases s,
{
    Seq::new(
        s.len(),
        |i: int|
            if 0 <= i < s.len() {
                (value_model(s[i].0), value_model(s[i].1))
            } else {
                (Model::Null, Model::Null)
            },
    )
}

/// The name and what the value is, for each of a sequence of named values.
pub open spec fn fields_model(s: Seq<(String, Value)>) -> Seq<(Seq<char>, Model)>
    decreases s,
{
    Seq::new(
        s.len(),
        |i: int|
            if 0 <= i < s.len() {
                (s[i].0@, value_model(s[i].1))
            } else {
                (Seq::empty(), Model::Null)
            },
    )
}

/// The elements of a set, in the order in which it holds them.
pub closed spec fn set_model(s: ValueSet) -> Seq<Model>
    decreases s,
{
    values_model(s.items@)
}

/// The entries of a map, in the order in which it holds them.
pub closed spec fn map_model(m: ValueMap) -> Seq<(Model, Model)>
    decreases m,
{
    pairs_model(m.entries@)
}

/// The fields of an object, in the order in which it holds them.
pub closed spec fn object_model(o: ValueObject) -> Seq<(Seq<char>, Model)>
    decreases o,
{
    fields_model(o.entries@)
}

impl View for Value {
    type V = Model;

    open spec fn view(&self) -> Model {
        value_model(*self)
    }
}

impl View for ValueSet {
    type V = Seq<Model>;

    open spec fn view(&self) -> Seq<Model> {
        set_model(*self)
    }
}

impl View for ValueMap {
    type V = Seq<(Model, Model)>;

    open spec fn view(&self) -> Seq<(Model, Model)> {
        map_model(*self)
    }
}

impl View for ValueObject {
    type V = Seq<(Seq<char>, Model)>;

    open spec fn view(&self) -> Seq<(Seq<char>, Model)> {
        object_model(*self)
    }
}

impl Value {
    /// The position of this value's variant in the canonical order.
    pub fn rank(&self) -> (r: u8)
        ensures
            r == crate::model::rank(self@),
    {
        match self {
            Value::Id { .. } => 0,
            Value::Null => 1,
            Value::Int { .. } => 2,
            Value::Float { .. } => 3,
            Value::Bool { .. } => 4,
            Value::String { .. } => 5,
            Value::Bytes { .. } => 6,
            Value::Array { .. } => 7,
            Value::SetOf { .. } => 8,
            Value::MapOf { .. } => 9,
            Value::Object { .. } => 10,
        }
    }
}

impl ValueSet {
    #[verifier::type_invariant]
    spec fn in_order(self) -> bool {
        sorted(self@)
    }

    /// The empty set.
    pub fn new() -> (s: ValueSet)
        ensures
            s@ == Seq::<Model>::empty(),
    {
        let s = ValueSet { items: Vec::new() };
        assert(s@ =~= Seq::<Model>::empty());
        s
    }

    /// The number of elements.
    pub fn len(&self) -> (n: usize)
        ensures
            n == self@.len(),
    {
        self.items.len()
    }

    /// The element at position `i` of the canonical order.
    pub fn get(&self, i: usize) -> (r: &Value)
        requires
            i < self@.len(),
        ensures
            r@ == self@[i as int],
            decreases_to!(self => r),
    {
        &self.items[i]
    }

    /// Where `x` belongs in the canonical order, and whether it is there:
    /// found by halving the range in which it can lie.
    fn locate(&self, x: &Value) -> (r: (usize, bool))
        ensures
            r.0 == insert_point(self@, x@),
            r.1 == (r.0 < self@.len() && self@[r.0 as int] == x@),
    {
        proof {
            use_type_invariant(self);
            lemma_insert_point_sorted(self@, x@);
        }
        let mut lo: usize = 0;
        let mut hi: usize = self.items.len();
        while lo < hi
            invariant
                lo <= hi <= self.items@.len(),
                self.items@.len() == self@.len(),
                sorted(self@),
                forall|j: int| 0 <= j < lo ==> lt(#[trigger] self@[j].key(), x@),
                hi < self@.len() ==> !lt(self@[hi as int].key(), x@) && self@[hi as int].key() != x@,
                forall|j: int|
                    0 <= j < self@.len() && #[trigger] self@[j].key() == x@ ==> j == insert_point(
                        self@,
                        x@,
                    ),
            decreases hi - lo,
        {
            let mid = lo + (hi - lo) / 2;
            match compare(&self.items[mid], x) {
                Order::Less => {
                    proof {
                        lemma_precedes_up_to(self@, x@, mid as int);
                    }
                    lo = mid + 1;
                },
                Order::Equal => {
                    assert(self@[mid as int].key() == x@);
                    return (mid, true);
                },
                Order::Greater => {
                    hi = mid;
                },
            }
        }
        proof {
            lemma_insert_point_is(self@, x@, lo as int);
        }
        (lo, false)
    }

    /// Whether `x` is an element of the set.
    pub fn contains(&self, x: &Value) -> (found: bool)
        ensures
            found == self@.contains(x@),
    {
        proof {
            use_type_invariant(self);
            lemma_insert_point_sorted(self@, x@);
        }
        let (p, found) = self.locate(x);
        proof {
            if self@.contains(x@) {
                let j = choose|j: int| 0 <= j < self@.len() && self@[j] == x@;
                assert(self@[j].key() == x@);
            }
        }
        found
    }

    /// Adds `x` to the set, and tells whether it was new.
    pub fn insert(&mut self, x: Value) -> (added: bool)
        ensures
            final(self)@ == put(old(self)@, x@),
            sorted(final(self)@),
            added == !old(self)@.contains(x@),
    {
        proof {
            use_type_invariant(&*self);
            lemma_insert_point_sorted(self@, x@);
            lemma_put(self@, x@);
        }
        let (p, found) = self.locate(&x);
        if found {
            assert(self@.update(p as int, x@) =~= self@);
            false
        } else {
            let mut items: Vec<Value> = Vec::new();
            core::mem::swap(&mut self.items, &mut items);
            items.insert(p, x);
            assert(values_model(items@) =~= old(self)@.insert(p as int, x@));
            self.items = items;
            true
        }
    }

    /// The set of the values of `items`.
    pub fn from_vec(items: Vec<Value>) -> (s: ValueSet)
        ensures
            s@ == build(values_model(items@)),
            sorted(s@),
    {
        let ghost all = values_model(items@);
        proof {
            lemma_build_sorted(all);
        }
        let mut s = ValueSet::new();
        for x in it: items
            invariant
                it.seq() == items@,
                all == values_model(items@),
                s@ == build(all.take(it.index())),
        {
            assert(all.take(it.index() + 1).drop_last() =~= all.take(it.index()));
            s.insert(x);
        }
        assert(all.take(all.len() as int) =~= all);
        s
    }

    /// The elements as they are held, in canonical order.
    pub fn items(&self) -> (items: &Vec<Value>)
        ensures
            values_model(items@) == self@,
            sorted(self@),
            decreases_to!(self => items),
    {
        proof {
            use_type_invariant(self);
        }
        &self.items
    }

    /// The elements, in canonical order.
    pub fn into_vec(self) -> (items: Vec<Value>)
        ensures
            values_model(items@) == self@,
            decreases_to!(self => items),
    {
        self.items
    }
}

impl ValueMap {
    #[verifier::type_invariant]
    spec fn in_order(self) -> bool {
        sorted(self@)
    }

    /// The empty map.
    pub fn new() -> (m: ValueMap)
        ensures
            m@ == Seq::<(Model, Model)>::empty(),
    {
        let m = ValueMap { entries: Vec::new() };
        assert(m@ =~= Seq::<(Model, Model)>::empty());
        m
    }

    /// The number of entries.
    pub fn len(&self) -> (n: usize)
        ensures
            n == self@.len(),
    {
        self.entries.len()
    }

    /// The key of the entry at position `i` of the canonical order.
    pub fn key_at(&self, i: usize) -> (r: &Value)
        requires
            i < self@.len(),
        ensures
            r@ == self@[i as int].0,
            decreases_to!(self => r),
    {
        &self.entries[i].0
    }

    /// The value of the entry at position `i` of the canonical order.
    pub fn value_at(&self, i: usize) -> (r: &Value)
        requires
            i < self@.len(),
        ensures
            r@ == self@[i as int].1,
            decreases_to!(self => r),
    {
        &self.entries[i].1
    }

    /// Where `key` belongs in the canonical order, and whether it is there:
    /// found by halving the range in which it can lie.
    fn locate(&self, key: &Value) -> (r: (usize, bool))
        ensures
            r.0 == insert_point(self@, key@),
            r.1 == (r.0 < self@.len() && self@[r.0 as int].0 == key@),
    {
        proof {
            use_type_invariant(self);
            lemma_insert_point_sorted(self@, key@);
        }
        let mut lo: usize = 0;
        let mut hi: usize = self.entries.len();
        while lo < hi
            invariant
                lo <= hi <= self.entries@.len(),
                self.entries@.len() == self@.len(),
                sorted(self@),
                forall|j: int| 0 <= j < lo ==> lt(#[trigger] self@[j].key(), key@),
                hi < self@.len() ==> !lt(self@[hi as int].key(), key@) && self@[hi as int].key()
                    != key@,
                forall|j: int|
                    0 <= j < self@.len() && #[trigger] self@[j].key() == key@ ==> j
                        == insert_point(self@, key@),
            decreases hi - lo,
        {
            let mid = lo + (hi - lo) / 2;
            match compare(&self.entries[mid].0, key) {
                Order::Less => {
                    proof {
                        lemma_precedes_up_to(self@, key@, mid as int);
                    }
                    lo = mid + 1;
                },
                Order::Equal => {
                    assert(self@[mid as int].key() == key@);
                    return (mid, true);
                },
                Order::Greater => {
                    hi = mid;
                },
            }
        }
        proof {
            lemma_insert_point_is(self@, key@, lo as int);
        }
        (lo, false)
    }

    /// The value that the map holds for `key`, if any.
    pub fn get(&self, key: &Value) -> (r: Option<&Value>)
        ensures
            match r {
                Some(v) => self@.contains((key@, v@)),
                None => forall|i: int| 0 <= i < self@.len() ==> (#[trigger] self@[i]).0 != key@,
            },
    {
        proof {
            use_type_invariant(self);
            lemma_insert_point_sorted(self@, key@);
        }
        let (p, found) = self.locate(key);
        if found {
            assert(self@[p as int] == (key@, self.entries@[p as int].1@));
            Some(&self.entries[p].1)
        } else {
            assert forall|i: int| 0 <= i < self@.len() implies (#[trigger] self@[i]).0 != key@ by {
                if self@[i].0 == key@ {
                    assert(self@[i].key() == key@);
                }
            }
            None
        }
    }

    /// Gives `key` the value `value`, and hands back the value it had.
    pub fn insert(&mut self, key: Value, value: Value) -> (previous: Option<Value>)
        ensures
            final(self)@ == put(old(self)@, (key@, value@)),
            sorted(final(self)@),
            match previous {
                Some(v) => old(self)@.contains((key@, v@)),
                None => forall|i: int|
                    0 <= i < old(self)@.len() ==> (#[trigger] old(self)@[i]).0 != key@,
            },
    {
        proof {
            use_type_invariant(&*self);
            lemma_insert_point_sorted(self@, key@);
            lemma_put(self@, (key@, value@));
        }
        let (p, found) = self.locate(&key);
        let mut entries: Vec<(Value, Value)> = Vec::new();
        core::mem::swap(&mut self.entries, &mut entries);
        let previous = if found {
            let replaced = entries.remove(p);
            assert(old(self)@[p as int] == (key@, replaced.1@));
            Some(replaced.1)
        } else {
            assert forall|i: int| 0 <= i < old(self)@.len() implies (#[trigger] old(self)@[i]).0
                != key@ by {
                if old(self)@[i].0 == key@ {
                    assert(old(self)@[i].key() == key@);
                }
            }
            None
        };
        entries.insert(p, (key, value));
        assert(pairs_model(entries@) =~= put(old(self)@, (key@, value@)));
        self.entries = entries;
        previous
    }

    /// The map that results from inserting the entries one after the other.
    pub fn from_vec(entries: Vec<(Value, Value)>) -> (m: ValueMap)
        ensures
            m@ == build(pairs_model(entries@)),
            sorted(m@),
    {
        let ghost all = pairs_model(entries@);
        proof {
            lemma_build_sorted(all);
        }
        let mut m = ValueMap::new();
        for e in it: entries
            invariant
                it.seq() == entries@,
                all == pairs_model(entries@),
                m@ == build(all.take(it.index())),
        {
            assert(all.take(it.index() + 1).drop_last() =~= all.take(it.index()));
            m.insert(e.0, e.1);
        }
        assert(all.take(all.len() as int) =~= all);
        m
    }

    /// The entries as they are held, in canonical order of their keys.
    pub fn entries(&self) -> (entries: &Vec<(Value, Value)>)
        ensures
            pairs_model(entries@) == self@,
            sorted(self@),
            decreases_to!(self => entries),
    {
        proof {
            use_type_invariant(self);
        }
        &self.entries
    }

    /// The entries, in canonical order of their keys.
    pub fn into_vec(self) -> (entries: Vec<(Value, Value)>)
        ensures
            pairs_model(entries@) == self@,
            decreases_to!(self => entries),
    {
        self.entries
    }
}

impl ValueObject {
    #[verifier::type_invariant]
    spec fn in_order(self) -> bool {
        sorted(self@)
    }

    /// The object without fields.
    pub fn new() -> (o: ValueObject)
        ensures
            o@ == Seq::<(Seq<char>, Model)>::empty(),
    {
        let o = ValueObject { entries: Vec::new() };
        assert(o@ =~= Seq::<(Seq<char>, Model)>::empty());
        o
    }

    /// The number of fields.
    pub fn len(&self) -> (n: usize)
        ensures
            n == self@.len(),
    {
        self.entries.len()
    }

    /// The name of the field at position `i` of the canonical order.
    pub fn name_at(&self, i: usize) -> (r: &String)
        requires
            i < self@.len(),
        ensures
            r@ == self@[i as int].0,
    {
        &self.entries[i].0
    }

    /// The value of the field at position `i` of the canonical order.
    pub fn value_at(&self, i: usize) -> (r: &Value)
        requires
            i < self@.len(),
        ensures
            r@ == self@[i as int].1,
            decreases_to!(self => r),
    {
        &self.entries[i].1
    }

    /// Where `name` belongs in the canonical order, and whether it is there:
    /// found by halving the range in which it can lie.
    fn locate(&self, name: &str) -> (r: (usize, bool))
        ensures
            r.0 == insert_point(self@, Model::Str(name@)),
            r.1 == (r.0 < self@.len() && self@[r.0 as int].0 == name@),
    {
        let ghost k = Model::Str(name@);
        proof {
            use_type_invariant(self);
            lemma_insert_point_sorted(self@, k);
        }
        let mut lo: usize = 0;
        let mut hi: usize = self.entries.len();
        while lo < hi
            invariant
                lo <= hi <= self.entries@.len(),
                self.entries@.len() == self@.len(),
                sorted(self@),
                k == Model::Str(name@),
                forall|j: int| 0 <= j < lo ==> lt(#[trigger] self@[j].key(), k),
                hi < self@.len() ==> !lt(self@[hi as int].key(), k) && self@[hi as int].key() != k,
                forall|j: int|
                    0 <= j < self@.len() && #[trigger] self@[j].key() == k ==> j == insert_point(
                        self@,
                        k,
                    ),
            decreases hi - lo,
        {
            let mid = lo + (hi - lo) / 2;
            match compare_text(self.entries[mid].0.as_str(), name) {
                Order::Less => {
                    proof {
                        lemma_precedes_up_to(self@, k, mid as int);
                    }
                    lo = mid + 1;
                },
                Order::Equal => {
                    assert(self@[mid as int].key() == k);
                    return (mid, true);
                },
                Order::Greater => {
                    hi = mid;
                },
            }
        }
        proof {
            lemma_insert_point_is(self@, k, lo as int);
        }
        (lo, false)
    }

    /// The value of the field `name`, if there is one.
    pub fn get(&self, name: &str) -> (r: Option<&Value>)
        ensures
            match r {
                Some(v) => self@.contains((name@, v@)),
                None => forall|i: int| 0 <= i < self@.len() ==> (#[trigger] self@[i]).0 != name@,
            },
    {
        proof {
            use_type_invariant(self);
            lemma_insert_point_sorted(self@, Model::Str(name@));
        }
        let (p, found) = self.locate(name);
        if found {
            assert(self@[p as int] == (name@, self.entries@[p as int].1@));
            Some(&self.entries[p].1)
        } else {
            assert forall|i: int| 0 <= i < self@.len() implies (#[trigger] self@[i]).0 != name@ by {
                if self@[i].0 == name@ {
                    assert(self@[i].key() == Model::Str(name@));
                }
            }
            None
        }
    }

    /// Gives the field `name` the value `value`, and hands back the value it had.
    pub fn insert(&mut self, name: String, value: Value) -> (previous: Option<Value>)
        ensures
            final(self)@ == put(old(self)@, (name@, value@)),
            sorted(final(self)@),
            match previous {
                Some(v) => old(self)@.contains((name@, v@)),
                None => forall|i: int|
                    0 <= i < old(self)@.len() ==> (#[trigger] old(self)@[i]).0 != name@,
            },
    {
        proof {
            use_type_invariant(&*self);
            lemma_insert_point_sorted(self@, Model::Str(name@));
            lemma_put(self@, (name@, value@));
        }
        let (p, found) = self.locate(name.as_str());
        let mut entries: Vec<(String, Value)> = Vec::new();
        core::mem::swap(&mut self.entries, &mut entries);
        let previous = if found {
            let replaced = entries.remove(p);
            assert(old(self)@[p as int] == (name@, replaced.1@));
            Some(replaced.1)
        } else {
            assert forall|i: int| 0 <= i < old(self)@.len() implies (#[trigger] old(self)@[i]).0
                != name@ by {
                if old(self)@[i].0 == name@ {
                    assert(old(self)@[i].key() == Model::Str(name@));
                }
            }
            None
        };
        entries.insert(p, (name, value));
        assert(fields_model(entries@) =~= put(old(self)@, (name@, value@)));
        self.entries = entries;
        previous
    }

    /// The object that results from setting the fields one after the other.
    pub fn from_vec(entries: Vec<(String, Value)>) -> (o: ValueObject)
        ensures
            o@ == build(fields_model(entries@)),
            sorted(o@),
    {
        let ghost all = fields_model(entries@);
        proof {
            lemma_build_sorted(all);
        }
        let mut o = ValueObject::new();
        for e in it: entries
            invariant
                it.seq() == entries@,
                all == fields_model(entries@),
                o@ == build(all.take(it.index())),
        {
            assert(all.take(it.index() + 1).drop_last() =~= all.take(it.index()));
            o.insert(e.0, e.1);
        }
        assert(all.take(all.len() as int) =~= all);
        o
    }

    /// The fields as they are held, in canonical order of their names.
    pub fn fields(&self) -> (entries: &Vec<(String, Value)>)
        ensures
            fields_model(entries@) == self@,
            sorted(self@),
            decreases_to!(self => entries),
    {
        proof {
            use_type_invariant(self);
        }
        &self.entries
    }

    /// The fields, in canonical order of their names.
    pub fn into_vec(self) -> (entries: Vec<(String, Value)>)
        ensures
            fields_model(entries@) == self@,
            decreases_to!(self => entries),
    {
        self.entries
    }
}

/// A copy of `v`.
fn copy_value(v: &Value) -> (r: Value)
    ensures
        r@ == v@,
    decreases v,
{
    match v {
        Value::Id { id } => Value::Id { id: id.clone() },
        Value::Null => Value::Null,
        Value::Int { value } => Value::Int { value: *value },
        Value::Float { value } => Value::Float { value: *value },
        Value::Bool { value } => Value::Bool { value: *value },
        Value::String { value } => Value::String { value: value.clone() },
        Value::Bytes { value } => Value::Bytes { value: slice_to_vec(value.as_slice()) },
        Value::Array { value } => Value::Array { value: copy_values(value) },
        Value::SetOf { value } => Value::SetOf { value: copy_set(value) },
        Value::MapOf { value } => Value::MapOf { value: copy_map(value) },
        Value::Object { value } => Value::Object { value: copy_object(value) },
    }
}

#[verifier::loop_isolation(false)]
fn copy_values(items: &Vec<Value>) -> (r: Vec<Value>)
    ensures
        values_model(r@) == values_model(items@),
    decreases items,
{
    let mut r: Vec<Value> = Vec::new();
    let mut i: usize = 0;
    while i < items.len()
        invariant
            i <= items@.len(),
            r@.len() == i,
            forall|j: int| 0 <= j < i ==> r@[j]@ == items@[j]@,
        decreases items@.len() - i,
    {
        r.push(copy_value(&items[i]));
        i = i + 1;
    }
    assert(values_model(r@) =~= values_model(items@));
    r
}

#[verifier::loop_isolation(false)]
fn copy_pairs(entries: &Vec<(Value, Value)>) -> (r: Vec<(Value, Value)>)
    ensures
        pairs_model(r@) == pairs_model(entries@),
    decreases entries,
{
    let mut r: Vec<(Value, Value)> = Vec::new();
    let mut i: usize = 0;
    while i < entries.len()
        invariant
            i <= entries@.len(),
            r@.len() == i,
            forall|j: int|
                0 <= j < i ==> r@[j].0@ == entries@[j].0@ && r@[j].1@ == entries@[j].1@,
        decreases entries@.len() - i,
    {
        r.push((copy_value(&entries[i].0), copy_value(&entries[i].1)));
        i = i + 1;
    }
    assert(pairs_model(r@) =~= pairs_model(entries@));
    r
}

#[verifier::loop_isolation(false)]
fn copy_fields(entries: &Vec<(String, Value)>) -> (r: Vec<(String, Value)>)
    ensures
        fields_model(r@) == fields_model(entries@),
    decreases entries,
{
    let mut r: Vec<(String, Value)> = Vec::new();
    let mut i: usize = 0;
    while i < entries.len()
        invariant
            i <= entries@.len(),
            r@.len() == i,
            forall|j: int|
                0 <= j < i ==> r@[j].0@ == entries@[j].0@ && r@[j].1@ == entries@[j].1@,
        decreases entries@.len() - i,
    {
        r.push((entries[i].0.clone(), copy_value(&entries[i].1)));
        i = i + 1;
    }
    assert(fields_model(r@) =~= fields_model(entries@));
    r
}

fn copy_set(s: &ValueSet) -> (r: ValueSet)
    ensures
        r@ == s@,
    decreases s,
{
    proof {
        use_type_invariant(s);
    }
    ValueSet { items: copy_values(&s.items) }
}

fn copy_map(m: &ValueMap) -> (r: ValueMap)
    ensures
        r@ == m@,
    decreases m,
{
    proof {
        use_type_invariant(m);
    }
    ValueMap { entries: copy_pairs(&m.entries) }
}

fn copy_object(o: &ValueObject) -> (r: ValueObject)
    ensures
        r@ == o@,
    decreases o,
{
    proof {
        use_type_invariant(o);
    }
    ValueObject { entries: copy_fields(&o.entries) }
}

impl Clone for Value {
    fn clone(&self) -> (r: Value)
        ensures
            r@ == self@,
    {
        copy_value(self)
    }
}

impl Clone for ValueSet {
    fn clone(&self) -> (r: ValueSet)
        ensures
            r@ == self@,
    {
        copy_set(self)
    }
}

impl Clone for ValueMap {
    fn clone(&self) -> (r: ValueMap)
        ensures
            r@ == self@,
    {
        copy_map(self)
    }
}

impl Clone for ValueObject {
    fn clone(&self) -> (r: ValueObject)
        ensures
            r@ == self@,
    {
        copy_object(self)
    }
}

} // verus!
