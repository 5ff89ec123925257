//! Writing values into a buffer and reading them back.

use vstd::prelude::*;
use vstd::slice::{slice_subrange, slice_to_vec};
use vstd::utf8::encode_utf8;
use crate::canonical::wf;
use crate::format::{
    decode, decode_bytes, decode_fields, decode_fields_n, decode_items, decode_items_n,
    decode_len, decode_map, decode_object, decode_pairs, decode_pairs_n, decode_set, decode_text,
    decode_value, encodable, encode_fields, encode_fields_from, encode_items, encode_items_from,
    encode_len, encode_pairs, encode_pairs_from, encode_text, encode_value, fits, CodecError,
    Decoded, MAX_COUNT,
};
use crate::laws::{
    lemma_decode_encode, lemma_decoded, lemma_decoded_map, lemma_decoded_object,
    lemma_decoded_set,
};
use crate::model::Model;
use crate::primitives::{
    get_i32, get_i64, get_u64, has_remaining, put_i32, put_i64, put_u64, string_from_utf8,
};
use crate::value::{
    fields_model, pairs_model, values_model, Value, ValueMap, ValueObject, ValueSet,
};

verus! {

// ---------------------------------------------------------------------------
// Writing
// ---------------------------------------------------------------------------

/// Appends every byte of `x`.
fn put_raw(buf: &mut Vec<u8>, x: &[u8])
    ensures
        final(buf)@ == old(buf)@ + x@,
{
    let mut i: usize = 0;
    while i < x.len()
        invariant
            i <= x@.len(),
            buf@ == old(buf)@ + x@.take(i as int),
        decreases x@.len() - i,
    {
        buf.push(x[i]);
        assert(x@.take(i + 1) =~= x@.take(i as int).push(x@[i as int]));
        i = i + 1;
    }
    assert(x@.take(x@.len() as int) =~= x@);
}

/// Appends a count, where it can be written.
fn put_len(buf: &mut Vec<u8>, n: usize) -> (ok: bool)
    ensures
        ok == fits(n as nat),
        ok ==> final(buf)@ == old(buf)@ + encode_len(n as nat),
        !ok ==> final(buf)@ == old(buf)@,
{
    if n > MAX_COUNT {
        false
    } else {
        put_i32(buf, n as i32);
        true
    }
}

/// Appends a counted run of bytes, where its count can be written.
fn put_bytes(buf: &mut Vec<u8>, x: &[u8]) -> (ok: bool)
    ensures
        ok == fits(x@.len()),
        ok ==> final(buf)@ == old(buf)@ + (encode_len(x@.len()) + x@),
        !ok ==> final(buf)@ == old(buf)@,
{
    if put_len(buf, x.len()) {
        put_raw(buf, x);
        assert(buf@ =~= old(buf)@ + (encode_len(x@.len()) + x@));
        true
    } else {
        false
    }
}

/// Appends a text, where its count can be written.
fn put_text(buf: &mut Vec<u8>, x: &str) -> (ok: bool)
    ensures
        ok == fits(encode_utf8(x@).len()),
        ok ==> final(buf)@ == old(buf)@ + encode_text(x@),
        !ok ==> final(buf)@ == old(buf)@,
{
    put_bytes(buf, x.as_bytes())
}

/// Appends a value. Where the format cannot hold it, the buffer keeps what
/// it had and may have grown.
fn put_value(v: &Value, buf: &mut Vec<u8>) -> (ok: bool)
    ensures
        ok == encodable(v@),
        ok ==> final(buf)@ == old(buf)@ + encode_value(v@),
        ok ==> wf(v@),
        old(buf)@.is_prefix_of(final(buf)@),
    decreases v,
{
    let ok = match v {
        Value::Id { id } => {
            put_i32(buf, 1);
            put_text(buf, id.as_str())
        },
        Value::Null => {
            put_i32(buf, 2);
            true
        },
        Value::Int { value } => {
            put_i32(buf, 3);
            put_i64(buf, *value);
            true
        },
        Value::Float { value } => {
            put_i32(buf, 4);
            put_u64(buf, *value);
            true
        },
        Value::Bool { value } => {
            put_i32(buf, 5);
            buf.push(
                if *value {
                    1u8
                } else {
                    0u8
                },
            );
            true
        },
        Value::String { value } => {
            put_i32(buf, 6);
            put_text(buf, value.as_str())
        },
        Value::Bytes { value } => {
            put_i32(buf, 7);
            put_bytes(buf, value.as_slice())
        },
        Value::Array { value } => {
            put_i32(buf, 8);
            put_items(value, buf)
        },
        Value::SetOf { value } => {
            put_i32(buf, 9);
            put_items(value.items(), buf)
        },
        Value::MapOf { value } => {
            put_i32(buf, 10);
            put_pairs(value.entries(), buf)
        },
        Value::Object { value } => {
            put_i32(buf, 11);
            put_fields(value.fields(), buf)
        },
    };
    if ok {
        assert(buf@ =~= old(buf)@ + encode_value(v@));
    }
    ok
}

/// Appends a count and the values of `items`.
#[verifier::loop_isolation(false)]
fn put_items(items: &Vec<Value>, buf: &mut Vec<u8>) -> (ok: bool)
    ensures
        ok == encodable(Model::Array(values_model(items@))),
        ok ==> final(buf)@ == old(buf)@ + encode_items(values_model(items@)),
        ok ==> wf(Model::Array(values_model(items@))),
        old(buf)@.is_prefix_of(final(buf)@),
    decreases items,
{
    let ghost x = values_model(items@);
    if !put_len(buf, items.len()) {
        return false;
    }
    let mut i: usize = 0;
    while i < items.len()
        invariant
            i <= items@.len(),
            forall|j: int| 0 <= j < i ==> encodable(#[trigger] x[j]) && wf(x[j]),
            buf@ + encode_items_from(x, i as int) == old(buf)@ + encode_items(x),
            old(buf)@.is_prefix_of(buf@),
        decreases items@.len() - i,
    {
        let ghost before = buf@;
        if !put_value(&items[i], buf) {
            return false;
        }
        assert(buf@ + encode_items_from(x, i + 1) =~= before + encode_items_from(x, i as int));
        i = i + 1;
    }
    assert(buf@ =~= buf@ + encode_items_from(x, i as int));
    true
}

/// Appends a count and the entries of `entries`, of each its key and its value.
#[verifier::loop_isolation(false)]
fn put_pairs(entries: &Vec<(Value, Value)>, buf: &mut Vec<u8>) -> (ok: bool)
    ensures
        ok == encodable(Model::MapOf(pairs_model(entries@))),
        ok ==> final(buf)@ == old(buf)@ + encode_pairs(pairs_model(entries@)),
        ok ==> forall|j: int|
            0 <= j < entries@.len() ==> wf((#[trigger] pairs_model(entries@)[j]).0) && wf(
                pairs_model(entries@)[j].1,
            ),
        old(buf)@.is_prefix_of(final(buf)@),
    decreases entries,
{
    let ghost x = pairs_model(entries@);
    if !put_len(buf, entries.len()) {
        return false;
    }
    let mut i: usize = 0;
    while i < entries.len()
        invariant
            i <= entries@.len(),
            forall|j: int|
                0 <= j < i ==> encodable((#[trigger] x[j]).0) && encodable(x[j].1) && wf(x[j].0)
                    && wf(x[j].1),
            buf@ + encode_pairs_from(x, i as int) == old(buf)@ + encode_pairs(x),
            old(buf)@.is_prefix_of(buf@),
        decreases entries@.len() - i,
    {
        let ghost before = buf@;
        if !put_value(&entries[i].0, buf) {
            assert(!encodable(x[i as int].0));
            return false;
        }
        if !put_value(&entries[i].1, buf) {
            assert(!encodable(x[i as int].1));
            return false;
        }
        assert(buf@ + encode_pairs_from(x, i + 1) =~= before + encode_pairs_from(x, i as int));
        i = i + 1;
    }
    assert(buf@ =~= buf@ + encode_pairs_from(x, i as int));
    true
}

/// Appends a count and the fields of `entries`, of each its name and its value.
#[verifier::loop_isolation(false)]
fn put_fields(entries: &Vec<(String, Value)>, buf: &mut Vec<u8>) -> (ok: bool)
    ensures
        ok == encodable(Model::Object(fields_model(entries@))),
        ok ==> final(buf)@ == old(buf)@ + encode_fields(fields_model(entries@)),
        ok ==> forall|j: int|
            0 <= j < entries@.len() ==> wf((#[trigger] fields_model(entries@)[j]).1),
        old(buf)@.is_prefix_of(final(buf)@),
    decreases entries,
{
    let ghost x = fields_model(entries@);
    if !put_len(buf, entries.len()) {
        return false;
    }
    let mut i: usize = 0;
    while i < entries.len()
        invariant
            i <= entries@.len(),
            forall|j: int|
                0 <= j < i ==> fits(encode_utf8((#[trigger] x[j]).0).len()) && encodable(x[j].1)
                    && wf(x[j].1),
            buf@ + encode_fields_from(x, i as int) == old(buf)@ + encode_fields(x),
            old(buf)@.is_prefix_of(buf@),
        decreases entries@.len() - i,
    {
        let ghost before = buf@;
        if !put_text(buf, entries[i].0.as_str()) {
            assert(!fits(encode_utf8(x[i as int].0).len()));
            return false;
        }
        if !put_value(&entries[i].1, buf) {
            assert(!encodable(x[i as int].1));
            return false;
        }
        assert(buf@ + encode_fields_from(x, i + 1) =~= before + encode_fields_from(x, i as int));
        i = i + 1;
    }
    assert(buf@ =~= buf@ + encode_fields_from(x, i as int));
    true
}

/// Ends a write: on failure the buffer is cut back to what it held before.
fn settle(ok: bool, buf: &mut Vec<u8>, Ghost(before): Ghost<Seq<u8>>, len: usize) -> (r: Result<
    (),
    CodecError,
>)
    requires
        len == before.len(),
        before.is_prefix_of(old(buf)@),
    ensures
        r is Ok <==> ok,
        ok ==> final(buf)@ == old(buf)@,
        !ok ==> r == Err::<(), CodecError>(CodecError::CodecOverflow) && final(buf)@ == before,
{
    if ok {
        Ok(())
    } else {
        buf.truncate(len);
        assert(buf@ =~= before);
        Err(CodecError::CodecOverflow)
    }
}

impl Value {
    /// Appends the bytes of this value to `buf`. A value that the format
    /// cannot hold is refused, and the buffer is left as it was.
    pub fn write(&self, buf: &mut Vec<u8>) -> (r: Result<(), CodecError>)
        ensures
            r is Ok <==> encodable(self@),
            r is Ok ==> final(buf)@ == old(buf)@ + encode_value(self@) && wf(self@),
            r is Err ==> r == Err::<(), CodecError>(CodecError::CodecOverflow) && final(buf)@
                == old(buf)@,
    {
        let len = buf.len();
        let ok = put_value(self, buf);
        settle(ok, buf, Ghost(old(buf)@), len)
    }

    /// The bytes of this value: those from which it is read back.
    pub fn encode(&self) -> (r: Result<Vec<u8>, CodecError>)
        ensures
            match r {
                Ok(bytes) => encodable(self@) && bytes@ == encode_value(self@) && decode(bytes@)
                    == Ok::<Model, CodecError>(self@),
                Err(e) => !encodable(self@) && e == CodecError::CodecOverflow,
            },
    {
        let mut buf: Vec<u8> = Vec::new();
        if put_value(self, &mut buf) {
            assert(buf@ =~= encode_value(self@));
            proof {
                lemma_decode_encode(self@);
            }
            Ok(buf)
        } else {
            Err(CodecError::CodecOverflow)
        }
    }
}

impl ValueSet {
    /// Appends the count and the elements of this set to `buf`, or refuses
    /// and leaves the buffer as it was.
    pub fn write(&self, buf: &mut Vec<u8>) -> (r: Result<(), CodecError>)
        ensures
            r is Ok <==> encodable(Model::SetOf(self@)),
            r is Ok ==> final(buf)@ == old(buf)@ + encode_items(self@) && wf(Model::SetOf(self@)),
            r is Err ==> r == Err::<(), CodecError>(CodecError::CodecOverflow) && final(buf)@
                == old(buf)@,
    {
        let len = buf.len();
        let ok = put_items(self.items(), buf);
        settle(ok, buf, Ghost(old(buf)@), len)
    }
}

impl ValueMap {
    /// Appends the count and the entries of this map to `buf`, or refuses
    /// and leaves the buffer as it was.
    pub fn write(&self, buf: &mut Vec<u8>) -> (r: Result<(), CodecError>)
        ensures
            r is Ok <==> encodable(Model::MapOf(self@)),
            r is Ok ==> final(buf)@ == old(buf)@ + encode_pairs(self@) && wf(Model::MapOf(self@)),
            r is Err ==> r == Err::<(), CodecError>(CodecError::CodecOverflow) && final(buf)@
                == old(buf)@,
    {
        let len = buf.len();
        let ok = put_pairs(self.entries(), buf);
        settle(ok, buf, Ghost(old(buf)@), len)
    }
}

impl ValueObject {
    /// Appends the count and the fields of this object to `buf`, or refuses
    /// and leaves the buffer as it was.
    pub fn write(&self, buf: &mut Vec<u8>) -> (r: Result<(), CodecError>)
        ensures
            r is Ok <==> encodable(Model::Object(self@)),
            r is Ok ==> final(buf)@ == old(buf)@ + encode_fields(self@) && wf(
                Model::Object(self@),
            ),
            r is Err ==> r == Err::<(), CodecError>(CodecError::CodecOverflow) && final(buf)@
                == old(buf)@,
    {
        let len = buf.len();
        let ok = put_fields(self.fields(), buf);
        settle(ok, buf, Ghost(old(buf)@), len)
    }
}

// ---------------------------------------------------------------------------
// Reading
// ---------------------------------------------------------------------------

/// Reads a count from the front of `buf`.
fn take_len<'a>(buf: &'a [u8]) -> (r: Result<(usize, &'a [u8]), CodecError>)
    ensures
        match r {
            Ok((n, rest)) => decode_len(buf@) == Ok::<(nat, Seq<u8>), CodecError>(
                (n as nat, rest@),
            ),
            Err(e) => decode_len(buf@) == Err::<(nat, Seq<u8>), CodecError>(e),
        },
{
    if !has_remaining(buf, 4) {
        return Err(CodecError::TruncatedInput);
    }
    let n = get_i32(buf);
    if n < 0 {
        return Err(CodecError::NegativeLength);
    }
    Ok((n as usize, slice_subrange(buf, 4, buf.len())))
}

/// Reads a counted run of bytes from the front of `buf`.
fn take_bytes<'a>(buf: &'a [u8]) -> (r: Result<(&'a [u8], &'a [u8]), CodecError>)
    ensures
        match r {
            Ok((x, rest)) => decode_bytes(buf@) == Ok::<(Seq<u8>, Seq<u8>), CodecError>(
                (x@, rest@),
            ),
            Err(e) => decode_bytes(buf@) == Err::<(Seq<u8>, Seq<u8>), CodecError>(e),
        },
{
    match take_len(buf) {
        Err(e) => Err(e),
        Ok((n, r)) => {
            if !has_remaining(r, n) {
                Err(CodecError::TruncatedInput)
            } else {
                Ok((slice_subrange(r, 0, n), slice_subrange(r, n, r.len())))
            }
        },
    }
}

/// Reads a text from the front of `buf`.
fn take_text<'a>(buf: &'a [u8]) -> (r: Result<(String, &'a [u8]), CodecError>)
    ensures
        match r {
            Ok((x, rest)) => decode_text(buf@) == Ok::<(Seq<char>, Seq<u8>), CodecError>(
                (x@, rest@),
            ),
            Err(e) => decode_text(buf@) == Err::<(Seq<char>, Seq<u8>), CodecError>(e),
        },
{
    match take_bytes(buf) {
        Err(e) => Err(e),
        Ok((b, rest)) => match string_from_utf8(slice_to_vec(b)) {
            Some(x) => Ok((x, rest)),
            None => Err(CodecError::InvalidText),
        },
    }
}

/// Reads a value from the front of `buf`.
fn take_value<'a>(buf: &'a [u8]) -> (r: Result<(Value, &'a [u8]), CodecError>)
    ensures
        match r {
            Ok((v, rest)) => decode_value(buf@) == Ok::<(Model, Seq<u8>), CodecError>(
                (v@, rest@),
            ) && rest@.len() < buf@.len(),
            Err(e) => decode_value(buf@) == Err::<(Model, Seq<u8>), CodecError>(e),
        },
    decreases buf@.len(), 0nat,
{
    if !has_remaining(buf, 4) {
        return Err(CodecError::TruncatedInput);
    }
    let tag = get_i32(buf);
    let r = slice_subrange(buf, 4, buf.len());
    if tag == 1 {
        match take_text(r) {
            Err(e) => Err(e),
            Ok((id, rest)) => Ok((Value::Id { id }, rest)),
        }
    } else if tag == 2 {
        Ok((Value::Null, r))
    } else if tag == 3 {
        if !has_remaining(r, 8) {
            Err(CodecError::TruncatedInput)
        } else {
            Ok((Value::Int { value: get_i64(r) }, slice_subrange(r, 8, r.len())))
        }
    } else if tag == 4 {
        if !has_remaining(r, 8) {
            Err(CodecError::TruncatedInput)
        } else {
            Ok((Value::Float { value: get_u64(r) }, slice_subrange(r, 8, r.len())))
        }
    } else if tag == 5 {
        if !has_remaining(r, 1) {
            Err(CodecError::TruncatedInput)
        } else if r[0] == 0 {
            Ok((Value::Bool { value: false }, slice_subrange(r, 1, r.len())))
        } else if r[0] == 1 {
            Ok((Value::Bool { value: true }, slice_subrange(r, 1, r.len())))
        } else {
            Err(CodecError::InvalidBoolean)
        }
    } else if tag == 6 {
        match take_text(r) {
            Err(e) => Err(e),
            Ok((value, rest)) => Ok((Value::String { value }, rest)),
        }
    } else if tag == 7 {
        match take_bytes(r) {
            Err(e) => Err(e),
            Ok((x, rest)) => Ok((Value::Bytes { value: slice_to_vec(x) }, rest)),
        }
    } else if tag == 8 {
        match take_items(r) {
            Err(e) => Err(e),
            Ok((value, rest)) => Ok((Value::Array { value }, rest)),
        }
    } else if tag == 9 {
        match take_items(r) {
            Err(e) => Err(e),
            Ok((items, rest)) => Ok((Value::SetOf { value: ValueSet::from_vec(items) }, rest)),
        }
    } else if tag == 10 {
        match take_pairs(r) {
            Err(e) => Err(e),
            Ok((entries, rest)) => Ok(
                (Value::MapOf { value: ValueMap::from_vec(entries) }, rest),
            ),
        }
    } else if tag == 11 {
        match take_fields(r) {
            Err(e) => Err(e),
            Ok((entries, rest)) => Ok(
                (Value::Object { value: ValueObject::from_vec(entries) }, rest),
            ),
        }
    } else {
        Err(CodecError::InvalidTag { tag })
    }
}

/// What `d` becomes when the values read before it are put in front.
pub open spec fn after<T>(front: Seq<T>, d: Decoded<Seq<T>>) -> Decoded<Seq<T>> {
    match d {
        Err(e) => Err(e),
        Ok((x, rest)) => Ok((front + x, rest)),
    }
}

/// Reads a count and that many values from the front of `buf`.
fn take_items<'a>(buf: &'a [u8]) -> (r: Result<(Vec<Value>, &'a [u8]), CodecError>)
    ensures
        match r {
            Ok((items, rest)) => decode_items(buf@) == Ok::<(Seq<Model>, Seq<u8>), CodecError>(
                (values_model(items@), rest@),
            ) && rest@.len() < buf@.len(),
            Err(e) => decode_items(buf@) == Err::<(Seq<Model>, Seq<u8>), CodecError>(e),
        },
    decreases buf@.len(), 1nat,
{
    let (n, start) = match take_len(buf) {
        Err(e) => {
            return Err(e);
        },
        Ok(p) => p,
    };
    let mut items: Vec<Value> = Vec::new();
    let mut cur = start;
    let mut left = n;
    while left > 0
        invariant
            cur@.len() <= start@.len(),
            start@.len() < buf@.len(),
            decode_items(buf@) == after(values_model(items@), decode_items_n(cur@, left as nat)),
        decreases left,
    {
        match take_value(cur) {
            Err(e) => {
                return Err(e);
            },
            Ok((v, rest)) => {
                let ghost front = values_model(items@);
                proof {
                    let d = decode_items_n(rest@, (left - 1) as nat);
                    if let Ok((x, tail)) = d {
                        assert(front + (seq![v@] + x) =~= front.push(v@) + x);
                    }
                }
                items.push(v);
                assert(values_model(items@) =~= front.push(v@));
                cur = rest;
                left = left - 1;
            },
        }
    }
    assert(values_model(items@) + Seq::<Model>::empty() =~= values_model(items@));
    Ok((items, cur))
}

/// Reads a count and that many entries from the front of `buf`.
fn take_pairs<'a>(buf: &'a [u8]) -> (r: Result<(Vec<(Value, Value)>, &'a [u8]), CodecError>)
    ensures
        match r {
            Ok((entries, rest)) => decode_pairs(buf@) == Ok::<
                (Seq<(Model, Model)>, Seq<u8>),
                CodecError,
            >((pairs_model(entries@), rest@)) && rest@.len() < buf@.len(),
            Err(e) => decode_pairs(buf@) == Err::<(Seq<(Model, Model)>, Seq<u8>), CodecError>(e),
        },
    decreases buf@.len(), 1nat,
{
    let (n, start) = match take_len(buf) {
        Err(e) => {
            return Err(e);
        },
        Ok(p) => p,
    };
    let mut entries: Vec<(Value, Value)> = Vec::new();
    let mut cur = start;
    let mut left = n;
    while left > 0
        invariant
            cur@.len() <= start@.len(),
            start@.len() < buf@.len(),
            decode_pairs(buf@) == after(pairs_model(entries@), decode_pairs_n(cur@, left as nat)),
        decreases left,
    {
        let (key, after_key) = match take_value(cur) {
            Err(e) => {
                return Err(e);
            },
            Ok(p) => p,
        };
        let (value, rest) = match take_value(after_key) {
            Err(e) => {
                return Err(e);
            },
            Ok(p) => p,
        };
        let ghost front = pairs_model(entries@);
        proof {
            let d = decode_pairs_n(rest@, (left - 1) as nat);
            if let Ok((x, tail)) = d {
                assert(front + (seq![(key@, value@)] + x) =~= front.push((key@, value@)) + x);
            }
        }
        entries.push((key, value));
        assert(pairs_model(entries@) =~= front.push((key@, value@)));
        cur = rest;
        left = left - 1;
    }
    assert(pairs_model(entries@) + Seq::<(Model, Model)>::empty() =~= pairs_model(entries@));
    Ok((entries, cur))
}

/// Reads a count and that many fields from the front of `buf`.
fn take_fields<'a>(buf: &'a [u8]) -> (r: Result<(Vec<(String, Value)>, &'a [u8]), CodecError>)
    ensures
        match r {
            Ok((entries, rest)) => decode_fields(buf@) == Ok::<
                (Seq<(Seq<char>, Model)>, Seq<u8>),
                CodecError,
            >((fields_model(entries@), rest@)) && rest@.len() < buf@.len(),
            Err(e) => decode_fields(buf@) == Err::<(Seq<(Seq<char>, Model)>, Seq<u8>), CodecError>(
                e,
            ),
        },
    decreases buf@.len(), 1nat,
{
    let (n, start) = match take_len(buf) {
        Err(e) => {
            return Err(e);
        },
        Ok(p) => p,
    };
    let mut entries: Vec<(String, Value)> = Vec::new();
    let mut cur = start;
    let mut left = n;
    while left > 0
        invariant
            cur@.len() <= start@.len(),
            start@.len() < buf@.len(),
            decode_fields(buf@) == after(
                fields_model(entries@),
                decode_fields_n(cur@, left as nat),
            ),
        decreases left,
    {
        let (name, after_name) = match take_text(cur) {
            Err(e) => {
                return Err(e);
            },
            Ok(p) => p,
        };
        let (value, rest) = match take_value(after_name) {
            Err(e) => {
                return Err(e);
            },
            Ok(p) => p,
        };
        let ghost front = fields_model(entries@);
        proof {
            let d = decode_fields_n(rest@, (left - 1) as nat);
            if let Ok((x, tail)) = d {
                assert(front + (seq![(name@, value@)] + x) =~= front.push((name@, value@)) + x);
            }
        }
        entries.push((name, value));
        assert(fields_model(entries@) =~= front.push((name@, value@)));
        cur = rest;
        left = left - 1;
    }
    assert(fields_model(entries@) + Seq::<(Seq<char>, Model)>::empty() =~= fields_model(
        entries@,
    ));
    Ok((entries, cur))
}

impl Value {
    /// Reads a value from the front of `buf`, and hands back the bytes
    /// after it.
    pub fn try_read<'a>(buf: &'a [u8]) -> (r: Result<(Value, &'a [u8]), CodecError>)
        ensures
            match r {
                Ok((v, rest)) => decode_value(buf@) == Ok::<(Model, Seq<u8>), CodecError>(
                    (v@, rest@),
                ) && wf(v@) && encodable(v@),
                Err(e) => decode_value(buf@) == Err::<(Model, Seq<u8>), CodecError>(e),
            },
    {
        proof {
            lemma_decoded(buf@);
        }
        take_value(buf)
    }

    /// Reads the value that `bytes` hold, all of them.
    pub fn decode(bytes: &[u8]) -> (r: Result<Value, CodecError>)
        ensures
            match r {
                Ok(v) => decode(bytes@) == Ok::<Model, CodecError>(v@) && wf(v@) && encodable(v@),
                Err(e) => decode(bytes@) == Err::<Model, CodecError>(e),
            },
    {
        proof {
            lemma_decoded(bytes@);
        }
        match take_value(bytes) {
            Err(e) => Err(e),
            Ok((v, rest)) => if rest.len() == 0 {
                Ok(v)
            } else {
                Err(CodecError::TrailingBytes)
            },
        }
    }
}

impl ValueSet {
    /// Reads a count and that many elements from the front of `buf`, and
    /// hands back the set of them and the bytes after them.
    pub fn try_read<'a>(buf: &'a [u8]) -> (r: Result<(ValueSet, &'a [u8]), CodecError>)
        ensures
            match r {
                Ok((s, rest)) => decode_set(buf@) == Ok::<(Seq<Model>, Seq<u8>), CodecError>(
                    (s@, rest@),
                ) && wf(Model::SetOf(s@)) && encodable(Model::SetOf(s@)),
                Err(e) => decode_set(buf@) == Err::<(Seq<Model>, Seq<u8>), CodecError>(e),
            },
    {
        proof {
            lemma_decoded_set(buf@);
        }
        match take_items(buf) {
            Err(e) => Err(e),
            Ok((items, rest)) => Ok((ValueSet::from_vec(items), rest)),
        }
    }
}

impl ValueMap {
    /// Reads a count and that many entries from the front of `buf`, and
    /// hands back the map of them and the bytes after them.
    pub fn try_read<'a>(buf: &'a [u8]) -> (r: Result<(ValueMap, &'a [u8]), CodecError>)
        ensures
            match r {
                Ok((m, rest)) => decode_map(buf@) == Ok::<
                    (Seq<(Model, Model)>, Seq<u8>),
                    CodecError,
                >((m@, rest@)) && wf(Model::MapOf(m@)) && encodable(Model::MapOf(m@)),
                Err(e) => decode_map(buf@) == Err::<(Seq<(Model, Model)>, Seq<u8>), CodecError>(e),
            },
    {
        proof {
            lemma_decoded_map(buf@);
        }
        match take_pairs(buf) {
            Err(e) => Err(e),
            Ok((entries, rest)) => Ok((ValueMap::from_vec(entries), rest)),
        }
    }
}

impl ValueObject {
    /// Reads a count and that many fields from the front of `buf`, and
    /// hands back the object of them and the bytes after them.
    pub fn try_read<'a>(buf: &'a [u8]) -> (r: Result<(ValueObject, &'a [u8]), CodecError>)
        ensures
            match r {
                Ok((o, rest)) => decode_object(buf@) == Ok::<
                    (Seq<(Seq<char>, Model)>, Seq<u8>),
                    CodecError,
                >((o@, rest@)) && wf(Model::Object(o@)) && encodable(Model::Object(o@)),
                Err(e) => decode_object(buf@) == Err::<
                    (Seq<(Seq<char>, Model)>, Seq<u8>),
                    CodecError,
                >(e),
            },
    {
        proof {
            lemma_decoded_object(buf@);
        }
        match take_fields(buf) {
            Err(e) => Err(e),
            Ok((entries, rest)) => Ok((ValueObject::from_vec(entries), rest)),
        }
    }
}

} // verus!
