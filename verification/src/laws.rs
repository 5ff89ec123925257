//! What holds of the byte format: a value that was written is read back as
//! it was, and bytes that end too early are never taken for a value.

use vstd::prelude::*;
use vstd::utf8::{
    decode_utf8_encode_utf8, encode_utf8, encode_utf8_decode_utf8, encode_utf8_valid_utf8,
    valid_utf8,
};
use crate::canonical::{
    build, functional, lemma_build_of_sorted, lemma_build_order_independent, lemma_build_sorted,
    lemma_build_within, wf,
};
use crate::format::{
    decode, decode_bytes, decode_fields, decode_fields_n, decode_items, decode_items_n,
    decode_len, decode_map, decode_object, decode_pairs, decode_pairs_n, decode_set, decode_text,
    decode_value, encodable, encode_fields, encode_fields_from, encode_items, encode_items_from,
    encode_len, encode_pairs, encode_pairs_from, encode_text, encode_value, fits, CodecError,
};
use crate::model::Model;
use crate::primitives::{
    be_i32, be_i64, be_u64, i32_of_be, lemma_be_u32_zero, lemma_i32_round_trip,
    lemma_i64_round_trip, lemma_u32_range, lemma_u32_round_trip, lemma_u64_round_trip,
};

verus! {

// ---------------------------------------------------------------------------
// Parts of a value
// ---------------------------------------------------------------------------

/// A tag in front of any bytes is read as that tag, and the bytes follow.
proof fn lemma_tagged(tag: i32, body: Seq<u8>)
    ensures
        be_i32(tag).len() == 4,
        i32_of_be(be_i32(tag) + body) == tag,
        (be_i32(tag) + body).skip(4) == body,
{
    lemma_i32_round_trip(tag, body);
    assert((be_i32(tag) + body).skip(4) =~= body);
}

/// A count that was written is read back.
proof fn lemma_len_round_trip(n: nat, tail: Seq<u8>)
    requires
        fits(n),
    ensures
        encode_len(n).len() == 4,
        decode_len(encode_len(n) + tail) == Ok::<(nat, Seq<u8>), CodecError>((n, tail)),
{
    lemma_u32_round_trip(n as int, tail);
    assert((encode_len(n) + tail).skip(4) =~= tail);
}

/// A counted run of bytes that was written is read back.
proof fn lemma_bytes_round_trip(x: Seq<u8>, tail: Seq<u8>)
    requires
        fits(x.len()),
    ensures
        decode_bytes(encode_len(x.len()) + x + tail) == Ok::<(Seq<u8>, Seq<u8>), CodecError>(
            (x, tail),
        ),
{
    let s = encode_len(x.len()) + x + tail;
    assert(s =~= encode_len(x.len()) + (x + tail));
    lemma_len_round_trip(x.len(), x + tail);
    assert((x + tail).take(x.len() as int) =~= x);
    assert((x + tail).skip(x.len() as int) =~= tail);
}

/// A text that was written is read back.
proof fn lemma_text_round_trip(x: Seq<char>, tail: Seq<u8>)
    requires
        fits(encode_utf8(x).len()),
    ensures
        decode_text(encode_text(x) + tail) == Ok::<(Seq<char>, Seq<u8>), CodecError>((x, tail)),
{
    lemma_bytes_round_trip(encode_utf8(x), tail);
    encode_utf8_valid_utf8(x);
    encode_utf8_decode_utf8(x);
}

/// A counted run of bytes that ends too early is refused as truncated.
proof fn lemma_bytes_truncated(x: Seq<u8>, k: int)
    requires
        fits(x.len()),
        0 <= k < (encode_len(x.len()) + x).len(),
    ensures
        decode_bytes((encode_len(x.len()) + x).take(k)) == Err::<(Seq<u8>, Seq<u8>), CodecError>(
            CodecError::TruncatedInput,
        ),
{
    let s = (encode_len(x.len()) + x).take(k);
    lemma_len_round_trip(x.len(), Seq::empty());
    if k >= 4 {
        assert(s =~= encode_len(x.len()) + x.take(k - 4));
        lemma_len_round_trip(x.len(), x.take(k - 4));
    }
}

/// A text that ends too early is refused as truncated.
proof fn lemma_text_truncated(x: Seq<char>, k: int)
    requires
        fits(encode_utf8(x).len()),
        0 <= k < encode_text(x).len(),
    ensures
        decode_text(encode_text(x).take(k)) == Err::<(Seq<char>, Seq<u8>), CodecError>(
            CodecError::TruncatedInput,
        ),
{
    lemma_bytes_truncated(encode_utf8(x), k);
}

/// Every value is written as four bytes of tag at least.
pub proof fn lemma_encode_value_len(m: Model)
    ensures
        encode_value(m).len() >= 4,
{
    lemma_tagged((crate::model::rank(m) + 1) as i32, Seq::empty());
}

// ---------------------------------------------------------------------------
// The round trip
// ---------------------------------------------------------------------------

/// A well-formed value that was written is read back as it was, whatever
/// bytes follow it, and those bytes are left over.
pub proof fn lemma_round_trip(m: Model, tail: Seq<u8>)
    requires
        wf(m),
        encodable(m),
    ensures
        decode_value(encode_value(m) + tail) == Ok::<(Model, Seq<u8>), CodecError>((m, tail)),
    decreases m, 0nat,
{
    let s = encode_value(m) + tail;
    match m {
        Model::Id(x) => {
            assert(s =~= be_i32(1) + (encode_text(x) + tail));
            lemma_tagged(1, encode_text(x) + tail);
            lemma_text_round_trip(x, tail);
        },
        Model::Null => {
            lemma_tagged(2, tail);
        },
        Model::Int(x) => {
            assert(s =~= be_i32(3) + (be_i64(x) + tail));
            lemma_tagged(3, be_i64(x) + tail);
            lemma_i64_round_trip(x, tail);
            assert((be_i64(x) + tail).skip(8) =~= tail);
        },
        Model::Float(x) => {
            assert(s =~= be_i32(4) + (be_u64(x as int) + tail));
            lemma_tagged(4, be_u64(x as int) + tail);
            lemma_u64_round_trip(x as int, tail);
            assert((be_u64(x as int) + tail).skip(8) =~= tail);
        },
        Model::Bool(x) => {
            let b = seq![if x { 1u8 } else { 0u8 }];
            assert(s =~= be_i32(5) + (b + tail));
            lemma_tagged(5, b + tail);
            assert((b + tail).skip(1) =~= tail);
        },
        Model::Str(x) => {
            assert(s =~= be_i32(6) + (encode_text(x) + tail));
            lemma_tagged(6, encode_text(x) + tail);
            lemma_text_round_trip(x, tail);
        },
        Model::Bytes(x) => {
            assert(s =~= be_i32(7) + (encode_len(x.len()) + x + tail));
            lemma_tagged(7, encode_len(x.len()) + x + tail);
            lemma_bytes_round_trip(x, tail);
        },
        Model::Array(x) => {
            assert(s =~= be_i32(8) + (encode_items(x) + tail));
            lemma_tagged(8, encode_items(x) + tail);
            lemma_items_round_trip(x, tail);
        },
        Model::SetOf(x) => {
            assert(s =~= be_i32(9) + (encode_items(x) + tail));
            lemma_tagged(9, encode_items(x) + tail);
            lemma_items_round_trip(x, tail);
            lemma_build_of_sorted(x);
        },
        Model::MapOf(x) => {
            assert(s =~= be_i32(10) + (encode_pairs(x) + tail));
            lemma_tagged(10, encode_pairs(x) + tail);
            lemma_pairs_round_trip(x, tail);
            lemma_build_of_sorted(x);
        },
        Model::Object(x) => {
            assert(s =~= be_i32(11) + (encode_fields(x) + tail));
            lemma_tagged(11, encode_fields(x) + tail);
            lemma_fields_round_trip(x, tail);
            lemma_build_of_sorted(x);
        },
    }
}

/// Well-formed values that were written as a counted list are read back as
/// they were listed, and the bytes after them are left over.
pub proof fn lemma_items_round_trip(x: Seq<Model>, tail: Seq<u8>)
    requires
        fits(x.len()),
        forall|j: int| 0 <= j < x.len() ==> wf(#[trigger] x[j]) && encodable(x[j]),
    ensures
        decode_items(encode_items(x) + tail) == Ok::<(Seq<Model>, Seq<u8>), CodecError>(
            (x, tail),
        ),
    decreases x, x.len() + 1,
{
    assert(encode_items(x) + tail =~= encode_len(x.len()) + (encode_items_from(x, 0) + tail));
    lemma_len_round_trip(x.len(), encode_items_from(x, 0) + tail);
    lemma_items_from_round_trip(x, 0, tail);
    assert(x.skip(0) =~= x);
}

proof fn lemma_items_from_round_trip(x: Seq<Model>, i: int, tail: Seq<u8>)
    requires
        0 <= i <= x.len(),
        forall|j: int| 0 <= j < x.len() ==> wf(#[trigger] x[j]) && encodable(x[j]),
    ensures
        decode_items_n(encode_items_from(x, i) + tail, (x.len() - i) as nat) == Ok::<
            (Seq<Model>, Seq<u8>),
            CodecError,
        >((x.skip(i), tail)),
    decreases x, x.len() - i,
{
    let s = encode_items_from(x, i) + tail;
    if i < x.len() {
        let rest = encode_items_from(x, i + 1) + tail;
        assert(s =~= encode_value(x[i]) + rest);
        lemma_round_trip(x[i], rest);
        lemma_encode_value_len(x[i]);
        lemma_items_from_round_trip(x, i + 1, tail);
        assert(seq![x[i]] + x.skip(i + 1) =~= x.skip(i));
    } else {
        assert(s =~= tail);
        assert(x.skip(i) =~= Seq::<Model>::empty());
    }
}

/// Entries of well-formed keys and values that were written as a counted
/// list are read back as they were listed, and the bytes after them are left
/// over.
pub proof fn lemma_pairs_round_trip(x: Seq<(Model, Model)>, tail: Seq<u8>)
    requires
        fits(x.len()),
        forall|j: int|
            0 <= j < x.len() ==> wf((#[trigger] x[j]).0) && wf(x[j].1) && encodable(x[j].0)
                && encodable(x[j].1),
    ensures
        decode_pairs(encode_pairs(x) + tail) == Ok::<(Seq<(Model, Model)>, Seq<u8>), CodecError>(
            (x, tail),
        ),
    decreases x, x.len() + 1,
{
    assert(encode_pairs(x) + tail =~= encode_len(x.len()) + (encode_pairs_from(x, 0) + tail));
    lemma_len_round_trip(x.len(), encode_pairs_from(x, 0) + tail);
    lemma_pairs_from_round_trip(x, 0, tail);
    assert(x.skip(0) =~= x);
}

proof fn lemma_pairs_from_round_trip(x: Seq<(Model, Model)>, i: int, tail: Seq<u8>)
    requires
        0 <= i <= x.len(),
        forall|j: int|
            0 <= j < x.len() ==> wf((#[trigger] x[j]).0) && wf(x[j].1) && encodable(x[j].0)
                && encodable(x[j].1),
    ensures
        decode_pairs_n(encode_pairs_from(x, i) + tail, (x.len() - i) as nat) == Ok::<
            (Seq<(Model, Model)>, Seq<u8>),
            CodecError,
        >((x.skip(i), tail)),
    decreases x, x.len() - i,
{
    let s = encode_pairs_from(x, i) + tail;
    if i < x.len() {
        let rest = encode_pairs_from(x, i + 1) + tail;
        let after_key = encode_value(x[i].1) + rest;
        assert(s =~= encode_value(x[i].0) + after_key);
        lemma_round_trip(x[i].0, after_key);
        lemma_encode_value_len(x[i].0);
        lemma_round_trip(x[i].1, rest);
        lemma_encode_value_len(x[i].1);
        lemma_pairs_from_round_trip(x, i + 1, tail);
        assert(seq![x[i]] + x.skip(i + 1) =~= x.skip(i));
    } else {
        assert(s =~= tail);
        assert(x.skip(i) =~= Seq::<(Model, Model)>::empty());
    }
}

/// Fields of well-formed values that were written as a counted list are read
/// back as they were listed, and the bytes after them are left over.
pub proof fn lemma_fields_round_trip(x: Seq<(Seq<char>, Model)>, tail: Seq<u8>)
    requires
        fits(x.len()),
        forall|j: int|
            0 <= j < x.len() ==> wf((#[trigger] x[j]).1) && encodable(x[j].1) && fits(
                encode_utf8(x[j].0).len(),
            ),
    ensures
        decode_fields(encode_fields(x) + tail) == Ok::<
            (Seq<(Seq<char>, Model)>, Seq<u8>),
            CodecError,
        >((x, tail)),
    decreases x, x.len() + 1,
{
    assert(encode_fields(x) + tail =~= encode_len(x.len()) + (encode_fields_from(x, 0) + tail));
    lemma_len_round_trip(x.len(), encode_fields_from(x, 0) + tail);
    lemma_fields_from_round_trip(x, 0, tail);
    assert(x.skip(0) =~= x);
}

proof fn lemma_fields_from_round_trip(x: Seq<(Seq<char>, Model)>, i: int, tail: Seq<u8>)
    requires
        0 <= i <= x.len(),
        forall|j: int|
            0 <= j < x.len() ==> wf((#[trigger] x[j]).1) && encodable(x[j].1) && fits(
                encode_utf8(x[j].0).len(),
            ),
    ensures
        decode_fields_n(encode_fields_from(x, i) + tail, (x.len() - i) as nat) == Ok::<
            (Seq<(Seq<char>, Model)>, Seq<u8>),
            CodecError,
        >((x.skip(i), tail)),
    decreases x, x.len() - i,
{
    let s = encode_fields_from(x, i) + tail;
    if i < x.len() {
        let rest = encode_fields_from(x, i + 1) + tail;
        let after_name = encode_value(x[i].1) + rest;
        assert(s =~= encode_text(x[i].0) + after_name);
        lemma_text_round_trip(x[i].0, after_name);
        lemma_round_trip(x[i].1, rest);
        lemma_encode_value_len(x[i].1);
        lemma_fields_from_round_trip(x, i + 1, tail);
        assert(seq![x[i]] + x.skip(i + 1) =~= x.skip(i));
    } else {
        assert(s =~= tail);
        assert(x.skip(i) =~= Seq::<(Seq<char>, Model)>::empty());
    }
}

/// Reading the bytes of a well-formed value gives that value.
pub proof fn lemma_decode_encode(m: Model)
    requires
        wf(m),
        encodable(m),
    ensures
        decode(encode_value(m)) == Ok::<Model, CodecError>(m),
{
    lemma_round_trip(m, Seq::empty());
    assert(encode_value(m) + Seq::<u8>::empty() =~= encode_value(m));
}

// ---------------------------------------------------------------------------
// Truncation
// ---------------------------------------------------------------------------

/// The bytes of a well-formed value, cut anywhere before their end, are
/// refused as truncated: they are never read as a value.
pub proof fn lemma_truncated(m: Model, k: int)
    requires
        wf(m),
        encodable(m),
        0 <= k < encode_value(m).len(),
    ensures
        decode_value(encode_value(m).take(k)) == Err::<(Model, Seq<u8>), CodecError>(
            CodecError::TruncatedInput,
        ),
    decreases m, 0nat,
{
    let s = encode_value(m).take(k);
    lemma_tagged((crate::model::rank(m) + 1) as i32, Seq::empty());
    if k >= 4 {
        match m {
            Model::Id(x) => {
                assert(s =~= be_i32(1) + encode_text(x).take(k - 4));
                lemma_tagged(1, encode_text(x).take(k - 4));
                lemma_text_truncated(x, k - 4);
            },
            Model::Null => {},
            Model::Int(x) => {
                assert(s =~= be_i32(3) + be_i64(x).take(k - 4));
                lemma_tagged(3, be_i64(x).take(k - 4));
                lemma_i64_round_trip(x, Seq::empty());
            },
            Model::Float(x) => {
                assert(s =~= be_i32(4) + be_u64(x as int).take(k - 4));
                lemma_tagged(4, be_u64(x as int).take(k - 4));
                lemma_u64_round_trip(x as int, Seq::empty());
            },
            Model::Bool(x) => {
                let b = seq![if x { 1u8 } else { 0u8 }];
                assert(s =~= be_i32(5) + b.take(k - 4));
                lemma_tagged(5, b.take(k - 4));
            },
            Model::Str(x) => {
                assert(s =~= be_i32(6) + encode_text(x).take(k - 4));
                lemma_tagged(6, encode_text(x).take(k - 4));
                lemma_text_truncated(x, k - 4);
            },
            Model::Bytes(x) => {
                let body = encode_len(x.len()) + x;
                assert(encode_value(m) =~= be_i32(7) + body);
                assert(s =~= be_i32(7) + body.take(k - 4));
                lemma_tagged(7, body.take(k - 4));
                lemma_bytes_truncated(x, k - 4);
            },
            Model::Array(x) => {
                assert(s =~= be_i32(8) + encode_items(x).take(k - 4));
                lemma_tagged(8, encode_items(x).take(k - 4));
                lemma_items_truncated(x, k - 4);
            },
            Model::SetOf(x) => {
                assert(s =~= be_i32(9) + encode_items(x).take(k - 4));
                lemma_tagged(9, encode_items(x).take(k - 4));
                lemma_items_truncated(x, k - 4);
            },
            Model::MapOf(x) => {
                assert(s =~= be_i32(10) + encode_pairs(x).take(k - 4));
                lemma_tagged(10, encode_pairs(x).take(k - 4));
                lemma_pairs_truncated(x, k - 4);
            },
            Model::Object(x) => {
                assert(s =~= be_i32(11) + encode_fields(x).take(k - 4));
                lemma_tagged(11, encode_fields(x).take(k - 4));
                lemma_fields_truncated(x, k - 4);
            },
        }
    }
}

/// The bytes of a counted list of well-formed values, cut anywhere before
/// their end, are refused as truncated.
pub proof fn lemma_items_truncated(x: Seq<Model>, k: int)
    requires
        fits(x.len()),
        forall|j: int| 0 <= j < x.len() ==> wf(#[trigger] x[j]) && encodable(x[j]),
        0 <= k < encode_items(x).len(),
    ensures
        decode_items(encode_items(x).take(k)) == Err::<(Seq<Model>, Seq<u8>), CodecError>(
            CodecError::TruncatedInput,
        ),
    decreases x, x.len() + 1,
{
    lemma_len_round_trip(x.len(), Seq::empty());
    if k >= 4 {
        let body = encode_items_from(x, 0);
        assert(encode_items(x).take(k) =~= encode_len(x.len()) + body.take(k - 4));
        lemma_len_round_trip(x.len(), body.take(k - 4));
        lemma_items_from_truncated(x, 0, k - 4);
    }
}

proof fn lemma_items_from_truncated(x: Seq<Model>, i: int, k: int)
    requires
        0 <= i <= x.len(),
        forall|j: int| 0 <= j < x.len() ==> wf(#[trigger] x[j]) && encodable(x[j]),
        0 <= k < encode_items_from(x, i).len(),
    ensures
        decode_items_n(encode_items_from(x, i).take(k), (x.len() - i) as nat) == Err::<
            (Seq<Model>, Seq<u8>),
            CodecError,
        >(CodecError::TruncatedInput),
    decreases x, x.len() - i,
{
    if i < x.len() {
        let e = encode_value(x[i]);
        let f = encode_items_from(x, i + 1);
        lemma_encode_value_len(x[i]);
        if k < e.len() {
            assert((e + f).take(k) =~= e.take(k));
            lemma_truncated(x[i], k);
        } else {
            let cut = f.take(k - e.len());
            assert((e + f).take(k) =~= e + cut);
            lemma_round_trip(x[i], cut);
            lemma_items_from_truncated(x, i + 1, k - e.len());
        }
    }
}

/// The bytes of a counted list of entries, cut anywhere before their end,
/// are refused as truncated.
pub proof fn lemma_pairs_truncated(x: Seq<(Model, Model)>, k: int)
    requires
        fits(x.len()),
        forall|j: int|
            0 <= j < x.len() ==> wf((#[trigger] x[j]).0) && wf(x[j].1) && encodable(x[j].0)
                && encodable(x[j].1),
        0 <= k < encode_pairs(x).len(),
    ensures
        decode_pairs(encode_pairs(x).take(k)) == Err::<(Seq<(Model, Model)>, Seq<u8>), CodecError>(
            CodecError::TruncatedInput,
        ),
    decreases x, x.len() + 1,
{
    lemma_len_round_trip(x.len(), Seq::empty());
    if k >= 4 {
        let body = encode_pairs_from(x, 0);
        assert(encode_pairs(x).take(k) =~= encode_len(x.len()) + body.take(k - 4));
        lemma_len_round_trip(x.len(), body.take(k - 4));
        lemma_pairs_from_truncated(x, 0, k - 4);
    }
}

proof fn lemma_pairs_from_truncated(x: Seq<(Model, Model)>, i: int, k: int)
    requires
        0 <= i <= x.len(),
        forall|j: int|
            0 <= j < x.len() ==> wf((#[trigger] x[j]).0) && wf(x[j].1) && encodable(x[j].0)
                && encodable(x[j].1),
        0 <= k < encode_pairs_from(x, i).len(),
    ensures
        decode_pairs_n(encode_pairs_from(x, i).take(k), (x.len() - i) as nat) == Err::<
            (Seq<(Model, Model)>, Seq<u8>),
            CodecError,
        >(CodecError::TruncatedInput),
    decreases x, x.len() - i,
{
    if i < x.len() {
        let ek = encode_value(x[i].0);
        let ev = encode_value(x[i].1);
        let f = encode_pairs_from(x, i + 1);
        let all = ek + ev + f;
        lemma_encode_value_len(x[i].0);
        lemma_encode_value_len(x[i].1);
        if k < ek.len() {
            assert(all.take(k) =~= ek.take(k));
            lemma_truncated(x[i].0, k);
        } else if k < ek.len() + ev.len() {
            let cut = ev.take(k - ek.len());
            assert(all.take(k) =~= ek + cut);
            lemma_round_trip(x[i].0, cut);
            lemma_truncated(x[i].1, k - ek.len());
        } else {
            let cut = f.take(k - ek.len() - ev.len());
            assert(all.take(k) =~= ek + (ev + cut));
            lemma_round_trip(x[i].0, ev + cut);
            lemma_round_trip(x[i].1, cut);
            lemma_pairs_from_truncated(x, i + 1, k - ek.len() - ev.len());
        }
    }
}

/// The bytes of a counted list of fields, cut anywhere before their end, are
/// refused as truncated.
pub proof fn lemma_fields_truncated(x: Seq<(Seq<char>, Model)>, k: int)
    requires
        fits(x.len()),
        forall|j: int|
            0 <= j < x.len() ==> wf((#[trigger] x[j]).1) && encodable(x[j].1) && fits(
                encode_utf8(x[j].0).len(),
            ),
        0 <= k < encode_fields(x).len(),
    ensures
        decode_fields(encode_fields(x).take(k)) == Err::<
            (Seq<(Seq<char>, Model)>, Seq<u8>),
            CodecError,
        >(CodecError::TruncatedInput),
    decreases x, x.len() + 1,
{
    lemma_len_round_trip(x.len(), Seq::empty());
    if k >= 4 {
        let body = encode_fields_from(x, 0);
        assert(encode_fields(x).take(k) =~= encode_len(x.len()) + body.take(k - 4));
        lemma_len_round_trip(x.len(), body.take(k - 4));
        lemma_fields_from_truncated(x, 0, k - 4);
    }
}

proof fn lemma_fields_from_truncated(x: Seq<(Seq<char>, Model)>, i: int, k: int)
    requires
        0 <= i <= x.len(),
        forall|j: int|
            0 <= j < x.len() ==> wf((#[trigger] x[j]).1) && encodable(x[j].1) && fits(
                encode_utf8(x[j].0).len(),
            ),
        0 <= k < encode_fields_from(x, i).len(),
    ensures
        decode_fields_n(encode_fields_from(x, i).take(k), (x.len() - i) as nat) == Err::<
            (Seq<(Seq<char>, Model)>, Seq<u8>),
            CodecError,
        >(CodecError::TruncatedInput),
    decreases x, x.len() - i,
{
    if i < x.len() {
        let en = encode_text(x[i].0);
        let ev = encode_value(x[i].1);
        let f = encode_fields_from(x, i + 1);
        let all = en + ev + f;
        lemma_encode_value_len(x[i].1);
        if k < en.len() {
            assert(all.take(k) =~= en.take(k));
            lemma_text_truncated(x[i].0, k);
        } else if k < en.len() + ev.len() {
            let cut = ev.take(k - en.len());
            assert(all.take(k) =~= en + cut);
            lemma_text_round_trip(x[i].0, cut);
            lemma_truncated(x[i].1, k - en.len());
        } else {
            let cut = f.take(k - en.len() - ev.len());
            assert(all.take(k) =~= en + (ev + cut));
            lemma_text_round_trip(x[i].0, ev + cut);
            lemma_round_trip(x[i].1, cut);
            lemma_fields_from_truncated(x, i + 1, k - en.len() - ev.len());
        }
    }
}

/// The bytes of a well-formed value, cut anywhere before their end, are not
/// read as a value by the reader that wants them all either.
pub proof fn lemma_decode_truncated(m: Model, k: int)
    requires
        wf(m),
        encodable(m),
        0 <= k < encode_value(m).len(),
    ensures
        decode(encode_value(m).take(k)) == Err::<Model, CodecError>(CodecError::TruncatedInput),
{
    lemma_truncated(m, k);
}

// ---------------------------------------------------------------------------
// What was read
// ---------------------------------------------------------------------------

/// Whatever is read as a value is well formed and can be written again,
/// and took at least the four bytes of its tag.
pub proof fn lemma_decoded(s: Seq<u8>)
    ensures
        decode_value(s) matches Ok((m, rest)) ==> wf(m) && encodable(m) && rest.len() + 4
            <= s.len(),
    decreases s.len(), 0nat,
{
    if s.len() >= 4 {
        let tag = i32_of_be(s);
        let r = s.skip(4);
        if tag == 1 || tag == 6 {
            lemma_decoded_text(r);
        } else if tag == 7 {
            lemma_u32_range(r);
        } else if tag == 8 {
            lemma_decoded_items(r);
        } else if tag == 9 {
            lemma_decoded_set(r);
        } else if tag == 10 {
            lemma_decoded_map(r);
        } else if tag == 11 {
            lemma_decoded_object(r);
        }
    }
}

/// Whatever is read as a set is canonical, holds well-formed values only and
/// can be written again, and took at least the four bytes of its count.
pub proof fn lemma_decoded_set(s: Seq<u8>)
    ensures
        decode_set(s) matches Ok((x, rest)) ==> wf(Model::SetOf(x)) && encodable(
            Model::SetOf(x),
        ) && rest.len() + 4 <= s.len(),
    decreases s.len(), 1nat,
{
    lemma_decoded_items(s);
    if let Ok((x, rest)) = decode_items(s) {
        let b = build(x);
        lemma_build_sorted(x);
        lemma_build_within(x);
        assert forall|i: int| 0 <= i < b.len() implies wf(#[trigger] b[i]) && encodable(b[i]) by {
            assert(b.contains(b[i]));
            let j = choose|j: int| 0 <= j < x.len() && x[j] == b[i];
            assert(wf(x[j]));
        }
    }
}

/// Whatever is read as a map is canonical, holds well-formed keys and values
/// only and can be written again, and took at least the four bytes of its
/// count.
pub proof fn lemma_decoded_map(s: Seq<u8>)
    ensures
        decode_map(s) matches Ok((x, rest)) ==> wf(Model::MapOf(x)) && encodable(
            Model::MapOf(x),
        ) && rest.len() + 4 <= s.len(),
    decreases s.len(), 1nat,
{
    lemma_decoded_pairs(s);
    if let Ok((x, rest)) = decode_pairs(s) {
        let b = build(x);
        lemma_build_sorted(x);
        lemma_build_within(x);
        assert forall|i: int| 0 <= i < b.len() implies wf((#[trigger] b[i]).0) && wf(b[i].1)
            && encodable(b[i].0) && encodable(b[i].1) by {
            assert(b.contains(b[i]));
            let j = choose|j: int| 0 <= j < x.len() && x[j] == b[i];
            assert(wf(x[j].0));
        }
    }
}

/// Whatever is read as an object is canonical, holds well-formed values only
/// and can be written again, and took at least the four bytes of its count.
pub proof fn lemma_decoded_object(s: Seq<u8>)
    ensures
        decode_object(s) matches Ok((x, rest)) ==> wf(Model::Object(x)) && encodable(
            Model::Object(x),
        ) && rest.len() + 4 <= s.len(),
    decreases s.len(), 1nat,
{
    lemma_decoded_fields(s);
    if let Ok((x, rest)) = decode_fields(s) {
        let b = build(x);
        lemma_build_sorted(x);
        lemma_build_within(x);
        assert forall|i: int| 0 <= i < b.len() implies wf((#[trigger] b[i]).1) && encodable(
            b[i].1,
        ) && fits(encode_utf8(b[i].0).len()) by {
            assert(b.contains(b[i]));
            let j = choose|j: int| 0 <= j < x.len() && x[j] == b[i];
            assert(wf(x[j].1));
        }
    }
}

proof fn lemma_decoded_text(s: Seq<u8>)
    ensures
        decode_text(s) matches Ok((x, rest)) ==> fits(encode_utf8(x).len()) && rest.len() + 4
            <= s.len(),
{
    lemma_u32_range(s);
    if let Ok((b, rest)) = decode_bytes(s) {
        if valid_utf8(b) {
            decode_utf8_encode_utf8(b);
        }
    }
}

proof fn lemma_decoded_items(s: Seq<u8>)
    ensures
        decode_items(s) matches Ok((x, rest)) ==> fits(x.len()) && rest.len() + 4 <= s.len()
            && forall|j: int| 0 <= j < x.len() ==> wf(#[trigger] x[j]) && encodable(x[j]),
    decreases s.len(), 0nat,
{
    lemma_u32_range(s);
    if let Ok((n, r)) = decode_len(s) {
        lemma_decoded_items_n(r, n);
    }
}

proof fn lemma_decoded_items_n(s: Seq<u8>, n: nat)
    ensures
        decode_items_n(s, n) matches Ok((x, rest)) ==> x.len() == n && rest.len() <= s.len()
            && forall|j: int| 0 <= j < x.len() ==> wf(#[trigger] x[j]) && encodable(x[j]),
    decreases s.len(), n + 1,
{
    if n > 0 {
        lemma_decoded(s);
        if let Ok((m, r)) = decode_value(s) {
            lemma_decoded_items_n(r, (n - 1) as nat);
        }
    }
}

proof fn lemma_decoded_pairs(s: Seq<u8>)
    ensures
        decode_pairs(s) matches Ok((x, rest)) ==> fits(x.len()) && rest.len() + 4 <= s.len()
            && forall|j: int|
            0 <= j < x.len() ==> wf((#[trigger] x[j]).0) && wf(x[j].1) && encodable(x[j].0)
                && encodable(x[j].1),
    decreases s.len(), 0nat,
{
    lemma_u32_range(s);
    if let Ok((n, r)) = decode_len(s) {
        lemma_decoded_pairs_n(r, n);
    }
}

proof fn lemma_decoded_pairs_n(s: Seq<u8>, n: nat)
    ensures
        decode_pairs_n(s, n) matches Ok((x, rest)) ==> x.len() == n && rest.len() <= s.len()
            && forall|j: int|
            0 <= j < x.len() ==> wf((#[trigger] x[j]).0) && wf(x[j].1) && encodable(x[j].0)
                && encodable(x[j].1),
    decreases s.len(), n + 1,
{
    if n > 0 {
        lemma_decoded(s);
        if let Ok((k, r1)) = decode_value(s) {
            lemma_decoded(r1);
            if let Ok((v, r2)) = decode_value(r1) {
                lemma_decoded_pairs_n(r2, (n - 1) as nat);
            }
        }
    }
}

proof fn lemma_decoded_fields(s: Seq<u8>)
    ensures
        decode_fields(s) matches Ok((x, rest)) ==> fits(x.len()) && rest.len() + 4 <= s.len()
            && forall|j: int|
            0 <= j < x.len() ==> wf((#[trigger] x[j]).1) && encodable(x[j].1) && fits(
                encode_utf8(x[j].0).len(),
            ),
    decreases s.len(), 0nat,
{
    lemma_u32_range(s);
    if let Ok((n, r)) = decode_len(s) {
        lemma_decoded_fields_n(r, n);
    }
}

proof fn lemma_decoded_fields_n(s: Seq<u8>, n: nat)
    ensures
        decode_fields_n(s, n) matches Ok((x, rest)) ==> x.len() == n && rest.len() <= s.len()
            && forall|j: int|
            0 <= j < x.len() ==> wf((#[trigger] x[j]).1) && encodable(x[j].1) && fits(
                encode_utf8(x[j].0).len(),
            ),
    decreases s.len(), n + 1,
{
    if n > 0 {
        lemma_decoded_text(s);
        if let Ok((name, r1)) = decode_text(s) {
            lemma_decoded(r1);
            if let Ok((v, r2)) = decode_value(r1) {
                lemma_decoded_fields_n(r2, (n - 1) as nat);
            }
        }
    }
}

// ---------------------------------------------------------------------------
// Canonical bytes
// ---------------------------------------------------------------------------

/// Two sets with the same elements, put in whatever order, are written as
/// the same bytes.
pub proof fn lemma_set_bytes_canonical(xs: Seq<Model>, ys: Seq<Model>)
    requires
        forall|x: Model|
            #![trigger xs.contains(x)]
            #![trigger ys.contains(x)]
            xs.contains(x) <==> ys.contains(x),
    ensures
        encode_value(Model::SetOf(build(xs))) == encode_value(Model::SetOf(build(ys))),
{
    lemma_build_order_independent(xs, ys);
}

/// Two maps with the same entries, put in whatever order, are written as the
/// same bytes, provided that no key comes with two values.
pub proof fn lemma_map_bytes_canonical(xs: Seq<(Model, Model)>, ys: Seq<(Model, Model)>)
    requires
        functional(xs),
        forall|x: (Model, Model)|
            #![trigger xs.contains(x)]
            #![trigger ys.contains(x)]
            xs.contains(x) <==> ys.contains(x),
    ensures
        encode_value(Model::MapOf(build(xs))) == encode_value(Model::MapOf(build(ys))),
{
    lemma_build_order_independent(xs, ys);
}

/// Two objects with the same fields, put in whatever order, are written as
/// the same bytes, provided that no name comes with two values.
pub proof fn lemma_object_bytes_canonical(
    xs: Seq<(Seq<char>, Model)>,
    ys: Seq<(Seq<char>, Model)>,
)
    requires
        functional(xs),
        forall|x: (Seq<char>, Model)|
            #![trigger xs.contains(x)]
            #![trigger ys.contains(x)]
            xs.contains(x) <==> ys.contains(x),
    ensures
        encode_value(Model::Object(build(xs))) == encode_value(Model::Object(build(ys))),
{
    lemma_build_order_independent(xs, ys);
}

// ---------------------------------------------------------------------------
// Counts
// ---------------------------------------------------------------------------

/// A collection of 2^31 elements or more cannot be written, whatever it is
/// a collection of; nor can a text or a byte string of as many bytes.
pub proof fn lemma_length_bound(m: Model)
    requires
        match m {
            Model::Id(x) => encode_utf8(x).len() >= 0x8000_0000,
            Model::Str(x) => encode_utf8(x).len() >= 0x8000_0000,
            Model::Bytes(x) => x.len() >= 0x8000_0000,
            Model::Array(x) => x.len() >= 0x8000_0000,
            Model::SetOf(x) => x.len() >= 0x8000_0000,
            Model::MapOf(x) => x.len() >= 0x8000_0000,
            Model::Object(x) => x.len() >= 0x8000_0000,
            _ => false,
        },
    ensures
        !encodable(m),
{
}

/// A collection of nothing is written as a count of four zero bytes, and
/// those are read as a collection of nothing.
pub proof fn lemma_empty_collection(tail: Seq<u8>)
    ensures
        encode_items(Seq::empty()) == seq![0u8, 0u8, 0u8, 0u8],
        encode_pairs(Seq::empty()) == seq![0u8, 0u8, 0u8, 0u8],
        encode_fields(Seq::empty()) == seq![0u8, 0u8, 0u8, 0u8],
        decode_set(seq![0u8, 0u8, 0u8, 0u8] + tail) == Ok::<(Seq<Model>, Seq<u8>), CodecError>(
            (Seq::empty(), tail),
        ),
        decode_map(seq![0u8, 0u8, 0u8, 0u8] + tail) == Ok::<
            (Seq<(Model, Model)>, Seq<u8>),
            CodecError,
        >((Seq::empty(), tail)),
        decode_object(seq![0u8, 0u8, 0u8, 0u8] + tail) == Ok::<
            (Seq<(Seq<char>, Model)>, Seq<u8>),
            CodecError,
        >((Seq::empty(), tail)),
{
    lemma_be_u32_zero();
    lemma_len_round_trip(0, tail);
    assert(encode_items(Seq::empty()) =~= seq![0u8, 0u8, 0u8, 0u8]);
    assert(encode_pairs(Seq::empty()) =~= seq![0u8, 0u8, 0u8, 0u8]);
    assert(encode_fields(Seq::empty()) =~= seq![0u8, 0u8, 0u8, 0u8]);
    assert(build(Seq::<Model>::empty()) =~= Seq::<Model>::empty());
    assert(build(Seq::<(Model, Model)>::empty()) =~= Seq::<(Model, Model)>::empty());
    assert(build(Seq::<(Seq<char>, Model)>::empty()) =~= Seq::<(Seq<char>, Model)>::empty());
}

// ---------------------------------------------------------------------------
// Sets, maps and objects by themselves
// ---------------------------------------------------------------------------

/// A well-formed set that was written is read back as it was, whatever
/// bytes follow it, and those bytes are left over.
pub proof fn lemma_set_round_trip(x: Seq<Model>, tail: Seq<u8>)
    requires
        wf(Model::SetOf(x)),
        encodable(Model::SetOf(x)),
    ensures
        decode_set(encode_items(x) + tail) == Ok::<(Seq<Model>, Seq<u8>), CodecError>((x, tail)),
{
    lemma_items_round_trip(x, tail);
    lemma_build_of_sorted(x);
}

/// A well-formed map that was written is read back as it was, whatever
/// bytes follow it, and those bytes are left over.
pub proof fn lemma_map_round_trip(x: Seq<(Model, Model)>, tail: Seq<u8>)
    requires
        wf(Model::MapOf(x)),
        encodable(Model::MapOf(x)),
    ensures
        decode_map(encode_pairs(x) + tail) == Ok::<(Seq<(Model, Model)>, Seq<u8>), CodecError>(
            (x, tail),
        ),
{
    lemma_pairs_round_trip(x, tail);
    lemma_build_of_sorted(x);
}

/// A well-formed object that was written is read back as it was, whatever
/// bytes follow it, and those bytes are left over.
pub proof fn lemma_object_round_trip(x: Seq<(Seq<char>, Model)>, tail: Seq<u8>)
    requires
        wf(Model::Object(x)),
        encodable(Model::Object(x)),
    ensures
        decode_object(encode_fields(x) + tail) == Ok::<
            (Seq<(Seq<char>, Model)>, Seq<u8>),
            CodecError,
        >((x, tail)),
{
    lemma_fields_round_trip(x, tail);
    lemma_build_of_sorted(x);
}

/// The bytes of a well-formed set, cut anywhere before their end, are
/// refused as truncated: they are never read as a set.
pub proof fn lemma_set_truncated(x: Seq<Model>, k: int)
    requires
        wf(Model::SetOf(x)),
        encodable(Model::SetOf(x)),
        0 <= k < encode_items(x).len(),
    ensures
        decode_set(encode_items(x).take(k)) == Err::<(Seq<Model>, Seq<u8>), CodecError>(
            CodecError::TruncatedInput,
        ),
{
    lemma_items_truncated(x, k);
}

/// The bytes of a well-formed map, cut anywhere before their end, are
/// refused as truncated: they are never read as a map.
pub proof fn lemma_map_truncated(x: Seq<(Model, Model)>, k: int)
    requires
        wf(Model::MapOf(x)),
        encodable(Model::MapOf(x)),
        0 <= k < encode_pairs(x).len(),
    ensures
        decode_map(encode_pairs(x).take(k)) == Err::<(Seq<(Model, Model)>, Seq<u8>), CodecError>(
            CodecError::TruncatedInput,
        ),
{
    lemma_pairs_truncated(x, k);
}

/// The bytes of a well-formed object, cut anywhere before their end, are
/// refused as truncated: they are never read as an object.
pub proof fn lemma_object_truncated(x: Seq<(Seq<char>, Model)>, k: int)
    requires
        wf(Model::Object(x)),
        encodable(Model::Object(x)),
        0 <= k < encode_fields(x).len(),
    ensures
        decode_object(encode_fields(x).take(k)) == Err::<
            (Seq<(Seq<char>, Model)>, Seq<u8>),
            CodecError,
        >(CodecError::TruncatedInput),
{
    lemma_fields_truncated(x, k);
}

} // verus!
