//! The mathematical content of a value and the canonical order over it.

use vstd::prelude::*;
use vstd::utf8::encode_utf8;

verus! {

/// What a value is, apart from how it is stored: scalars as themselves,
/// text as its characters, collections as sequences in iteration order.
pub enum Model {
    Id(Seq<char>),
    Null,
    Int(i64),
    /// A 64-bit IEEE-754 number, held as its bit pattern.
    Float(u64),
    Bool(bool),
    Str(Seq<char>),
    Bytes(Seq<u8>),
    Array(Seq<Model>),
    SetOf(Seq<Model>),
    MapOf(Seq<(Model, Model)>),
    Object(Seq<(Seq<char>, Model)>),
}

/// Position of a variant in the order: values of different variants compare
/// by this number alone.
pub open spec fn rank(m: Model) -> int {
    match m {
        Model::Id(_) => 0,
        Model::Null => 1,
        Model::Int(_) => 2,
        Model::Float(_) => 3,
        Model::Bool(_) => 4,
        Model::Str(_) => 5,
        Model::Bytes(_) => 6,
        Model::Array(_) => 7,
        Model::SetOf(_) => 8,
        Model::MapOf(_) => 9,
        Model::Object(_) => 10,
    }
}

/// The place of a bit pattern in the IEEE-754 total order: negative numbers
/// descend from -0.0 (key -1) to the negative NaNs, the others ascend from
/// +0.0 (key 0) to the positive NaNs. Distinct bit patterns have distinct keys.
pub open spec fn float_key(bits: u64) -> int {
    if bits < 0x8000_0000_0000_0000u64 {
        bits as int
    } else {
        0x7fff_ffff_ffff_ffff - bits
    }
}

/// Lexicographic order on byte strings, decided from position `i` on.
pub open spec fn bytes_lt_from(x: Seq<u8>, y: Seq<u8>, i: int) -> bool
    decreases x.len() - i,
{
    if i < 0 || i >= y.len() {
        false
    } else if i >= x.len() {
        true
    } else if x[i] != y[i] {
        x[i] < y[i]
    } else {
        bytes_lt_from(x, y, i + 1)
    }
}

/// Lexicographic order on byte strings.
pub open spec fn bytes_lt(x: Seq<u8>, y: Seq<u8>) -> bool {
    bytes_lt_from(x, y, 0)
}

/// Order on text: that of its UTF-8 bytes, which is the order of its code points.
pub open spec fn text_lt(x: Seq<char>, y: Seq<char>) -> bool {
    bytes_lt(encode_utf8(x), encode_utf8(y))
}

/// The canonical strict order on values: by variant first, then by content,
/// collections lexicographically.
pub open spec fn lt(a: Model, b: Model) -> bool
    decreases a, 0nat,
{
    if rank(a) != rank(b) {
        rank(a) < rank(b)
    } else {
        match (a, b) {
            (Model::Id(x), Model::Id(y)) => text_lt(x, y),
            (Model::Int(x), Model::Int(y)) => x < y,
            (Model::Float(x), Model::Float(y)) => float_key(x) < float_key(y),
            (Model::Bool(x), Model::Bool(y)) => !x && y,
            (Model::Str(x), Model::Str(y)) => text_lt(x, y),
            (Model::Bytes(x), Model::Bytes(y)) => bytes_lt(x, y),
            (Model::Array(x), Model::Array(y)) => seq_lt_from(x, y, 0),
            (Model::SetOf(x), Model::SetOf(y)) => seq_lt_from(x, y, 0),
            (Model::MapOf(x), Model::MapOf(y)) => pairs_lt_from(x, y, 0),
            (Model::Object(x), Model::Object(y)) => entries_lt_from(x, y, 0),
            _ => false,
        }
    }
}

/// Lexicographic order on sequences of values, decided from position `i` on.
pub open spec fn seq_lt_from(x: Seq<Model>, y: Seq<Model>, i: int) -> bool
    decreases x, x.len() - i,
{
    if i < 0 || i >= y.len() {
        false
    } else if i >= x.len() {
        true
    } else if x[i] != y[i] {
        lt(x[i], y[i])
    } else {
        seq_lt_from(x, y, i + 1)
    }
}

/// Order on two key-value pairs: by key, then by value.
pub open spec fn pair_lt(p: (Model, Model), q: (Model, Model)) -> bool
    decreases p, 0nat,
{
    if p.0 != q.0 {
        lt(p.0, q.0)
    } else {
        lt(p.1, q.1)
    }
}

/// Lexicographic order on sequences of key-value pairs.
pub open spec fn pairs_lt_from(x: Seq<(Model, Model)>, y: Seq<(Model, Model)>, i: int) -> bool
    decreases x, x.len() - i,
{
    if i < 0 || i >= y.len() {
        false
    } else if i >= x.len() {
        true
    } else if x[i] != y[i] {
        pair_lt(x[i], y[i])
    } else {
        pairs_lt_from(x, y, i + 1)
    }
}

/// Order on two named fields: by name, then by value.
pub open spec fn entry_lt(p: (Seq<char>, Model), q: (Seq<char>, Model)) -> bool
    decreases p, 0nat,
{
    if p.0 != q.0 {
        text_lt(p.0, q.0)
    } else {
        lt(p.1, q.1)
    }
}

/// Lexicographic order on sequences of named fields.
pub open spec fn entries_lt_from(
    x: Seq<(Seq<char>, Model)>,
    y: Seq<(Seq<char>, Model)>,
    i: int,
) -> bool
    decreases x, x.len() - i,
{
    if i < 0 || i >= y.len() {
        false
    } else if i >= x.len() {
        true
    } else if x[i] != y[i] {
        entry_lt(x[i], y[i])
    } else {
        entries_lt_from(x, y, i + 1)
    }
}

} // verus!
