//! The byte format of a value: what is written for it, and what is read
//! from a run of bytes.
//!
//! A value is a four-byte tag that names its variant, followed by the
//! content. Every integer is big-endian. Text is a four-byte count of bytes
//! and its UTF-8 encoding; a collection is a four-byte count of elements and
//! the elements in turn, a map entry being its key and then its value. Counts
//! are signed and never negative.

use vstd::prelude::*;
use vstd::utf8::{decode_utf8, encode_utf8, valid_utf8};
use crate::canonical::build;
use crate::model::Model;
use crate::primitives::{be_i32, be_i64, be_u32, be_u64, i32_of_be, i64_of_be, u64_of_be};

verus! {

/// Why a value could not be written or read.
#[derive(Clone, Copy, Debug, PartialEq, Eq, Structural)]
pub enum CodecError {
    /// The bytes end before the value that they announce.
    TruncatedInput,
    /// A text, a byte string or a collection is longer than a count can say.
    CodecOverflow,
    /// The tag names no variant.
    InvalidTag { tag: i32 },
    /// The byte of a boolean is neither 0 nor 1.
    InvalidBoolean,
    /// The bytes of a text are not valid UTF-8.
    InvalidText,
    /// A count is negative.
    NegativeLength,
    /// Bytes follow the value where none may.
    TrailingBytes,
}

/// The greatest count that the format can say.
pub const MAX_COUNT: usize = 0x7fff_ffff;

/// Whether a count of `n` can be written.
pub open spec fn fits(n: nat) -> bool {
    n <= 0x7fff_ffff
}

/// Whether the format can hold `m`: no text, byte string or collection in it
/// is longer than a count can say.
pub open spec fn encodable(m: Model) -> bool
    decreases m,
{
    match m {
        Model::Id(x) => fits(encode_utf8(x).len()),
        Model::Str(x) => fits(encode_utf8(x).len()),
        Model::Bytes(x) => fits(x.len()),
        Model::Array(x) => fits(x.len()) && forall|i: int|
            0 <= i < x.len() ==> encodable(#[trigger] x[i]),
        Model::SetOf(x) => fits(x.len()) && forall|i: int|
            0 <= i < x.len() ==> encodable(#[trigger] x[i]),
        Model::MapOf(x) => fits(x.len()) && forall|i: int|
            0 <= i < x.len() ==> encodable((#[trigger] x[i]).0) && encodable(x[i].1),
        Model::Object(x) => fits(x.len()) && forall|i: int|
            0 <= i < x.len() ==> fits(encode_utf8((#[trigger] x[i]).0).len()) && encodable(
                x[i].1,
            ),
        _ => true,
    }
}

// ---------------------------------------------------------------------------
// Writing
// ---------------------------------------------------------------------------

/// The bytes of a count.
pub open spec fn encode_len(n: nat) -> Seq<u8> {
    be_u32(n as int)
}

/// The bytes of a text.
pub open spec fn encode_text(x: Seq<char>) -> Seq<u8> {
    encode_len(encode_utf8(x).len()) + encode_utf8(x)
}

/// The bytes of a value.
pub open spec fn encode_value(m: Model) -> Seq<u8>
    decreases m, 0nat,
{
    match m {
        Model::Id(x) => be_i32(1) + encode_text(x),
        Model::Null => be_i32(2),
        Model::Int(x) => be_i32(3) + be_i64(x),
        Model::Float(x) => be_i32(4) + be_u64(x as int),
        Model::Bool(x) => be_i32(5) + seq![if x { 1u8 } else { 0u8 }],
        Model::Str(x) => be_i32(6) + encode_text(x),
        Model::Bytes(x) => be_i32(7) + encode_len(x.len()) + x,
        Model::Array(x) => be_i32(8) + encode_items(x),
        Model::SetOf(x) => be_i32(9) + encode_items(x),
        Model::MapOf(x) => be_i32(10) + encode_pairs(x),
        Model::Object(x) => be_i32(11) + encode_fields(x),
    }
}

/// The bytes of the values of `x` from position `i` on.
pub open spec fn encode_items_from(x: Seq<Model>, i: int) -> Seq<u8>
    decreases x, x.len() - i,
{
    if i < 0 || i >= x.len() {
        Seq::empty()
    } else {
        encode_value(x[i]) + encode_items_from(x, i + 1)
    }
}

/// The bytes of a sequence of values: their count, and each in turn.
pub open spec fn encode_items(x: Seq<Model>) -> Seq<u8>
    decreases x, x.len() + 1,
{
    encode_len(x.len()) + encode_items_from(x, 0)
}

/// The bytes of the entries of `x` from position `i` on.
pub open spec fn encode_pairs_from(x: Seq<(Model, Model)>, i: int) -> Seq<u8>
    decreases x, x.len() - i,
{
    if i < 0 || i >= x.len() {
        Seq::empty()
    } else {
        encode_value(x[i].0) + encode_value(x[i].1) + encode_pairs_from(x, i + 1)
    }
}

/// The bytes of a sequence of entries: their count, and of each its key and
/// its value.
pub open spec fn encode_pairs(x: Seq<(Model, Model)>) -> Seq<u8>
    decreases x, x.len() + 1,
{
    encode_len(x.len()) + encode_pairs_from(x, 0)
}

/// The bytes of the fields of `x` from position `i` on.
pub open spec fn encode_fields_from(x: Seq<(Seq<char>, Model)>, i: int) -> Seq<u8>
    decreases x, x.len() - i,
{
    if i < 0 || i >= x.len() {
        Seq::empty()
    } else {
        encode_text(x[i].0) + encode_value(x[i].1) + encode_fields_from(x, i + 1)
    }
}

/// The bytes of a sequence of fields: their count, and of each its name and
/// its value.
pub open spec fn encode_fields(x: Seq<(Seq<char>, Model)>) -> Seq<u8>
    decreases x, x.len() + 1,
{
    encode_len(x.len()) + encode_fields_from(x, 0)
}

// ---------------------------------------------------------------------------
// Reading
// ---------------------------------------------------------------------------

/// What was read from the front of a run of bytes, and the bytes after it.
pub type Decoded<T> = Result<(T, Seq<u8>), CodecError>;

/// Reads a count.
pub open spec fn decode_len(s: Seq<u8>) -> Decoded<nat> {
    if s.len() < 4 {
        Err(CodecError::TruncatedInput)
    } else if i32_of_be(s) < 0 {
        Err(CodecError::NegativeLength)
    } else {
        Ok((i32_of_be(s) as nat, s.skip(4)))
    }
}

/// Reads a counted run of bytes.
pub open spec fn decode_bytes(s: Seq<u8>) -> Decoded<Seq<u8>> {
    match decode_len(s) {
        Err(e) => Err(e),
        Ok((n, r)) => if r.len() < n {
            Err(CodecError::TruncatedInput)
        } else {
            Ok((r.take(n as int), r.skip(n as int)))
        },
    }
}

/// Reads a text.
pub open spec fn decode_text(s: Seq<u8>) -> Decoded<Seq<char>> {
    match decode_bytes(s) {
        Err(e) => Err(e),
        Ok((b, r)) => if valid_utf8(b) {
            Ok((decode_utf8(b), r))
        } else {
            Err(CodecError::InvalidText)
        },
    }
}

/// Reads a value. A set or a map is made canonical as it is read: its
/// elements are put into it one after the other, whatever their order in the
/// bytes.
pub open spec fn decode_value(s: Seq<u8>) -> Decoded<Model>
    decreases s.len(), 0nat,
{
    if s.len() < 4 {
        Err(CodecError::TruncatedInput)
    } else {
        let tag = i32_of_be(s);
        let r = s.skip(4);
        if tag == 1 {
            match decode_text(r) {
                Err(e) => Err(e),
                Ok((x, rest)) => Ok((Model::Id(x), rest)),
            }
        } else if tag == 2 {
            Ok((Model::Null, r))
        } else if tag == 3 {
            if r.len() < 8 {
                Err(CodecError::TruncatedInput)
            } else {
                Ok((Model::Int(i64_of_be(r) as i64), r.skip(8)))
            }
        } else if tag == 4 {
            if r.len() < 8 {
                Err(CodecError::TruncatedInput)
            } else {
                Ok((Model::Float(u64_of_be(r) as u64), r.skip(8)))
            }
        } else if tag == 5 {
            if r.len() < 1 {
                Err(CodecError::TruncatedInput)
            } else if r[0] == 0 {
                Ok((Model::Bool(false), r.skip(1)))
            } else if r[0] == 1 {
                Ok((Model::Bool(true), r.skip(1)))
            } else {
                Err(CodecError::InvalidBoolean)
            }
        } else if tag == 6 {
            match decode_text(r) {
                Err(e) => Err(e),
                Ok((x, rest)) => Ok((Model::Str(x), rest)),
            }
        } else if tag == 7 {
            match decode_bytes(r) {
                Err(e) => Err(e),
                Ok((x, rest)) => Ok((Model::Bytes(x), rest)),
            }
        } else if tag == 8 {
            match decode_items(r) {
                Err(e) => Err(e),
                Ok((x, rest)) => Ok((Model::Array(x), rest)),
            }
        } else if tag == 9 {
            match decode_set(r) {
                Err(e) => Err(e),
                Ok((x, rest)) => Ok((Model::SetOf(x), rest)),
            }
        } else if tag == 10 {
            match decode_map(r) {
                Err(e) => Err(e),
                Ok((x, rest)) => Ok((Model::MapOf(x), rest)),
            }
        } else if tag == 11 {
            match decode_object(r) {
                Err(e) => Err(e),
                Ok((x, rest)) => Ok((Model::Object(x), rest)),
            }
        } else {
            Err(CodecError::InvalidTag { tag: tag as i32 })
        }
    }
}

/// Reads a set: a count and that many values, put into the set one after
/// the other.
pub open spec fn decode_set(s: Seq<u8>) -> Decoded<Seq<Model>>
    decreases s.len(), 1nat,
{
    match decode_items(s) {
        Err(e) => Err(e),
        Ok((x, rest)) => Ok((build(x), rest)),
    }
}

/// Reads a map: a count and that many entries, put into the map one after
/// the other.
pub open spec fn decode_map(s: Seq<u8>) -> Decoded<Seq<(Model, Model)>>
    decreases s.len(), 1nat,
{
    match decode_pairs(s) {
        Err(e) => Err(e),
        Ok((x, rest)) => Ok((build(x), rest)),
    }
}

/// Reads an object: a count and that many fields, put into the object one
/// after the other.
pub open spec fn decode_object(s: Seq<u8>) -> Decoded<Seq<(Seq<char>, Model)>>
    decreases s.len(), 1nat,
{
    match decode_fields(s) {
        Err(e) => Err(e),
        Ok((x, rest)) => Ok((build(x), rest)),
    }
}

/// Reads a count and that many values.
pub open spec fn decode_items(s: Seq<u8>) -> Decoded<Seq<Model>>
    decreases s.len(), 0nat,
{
    match decode_len(s) {
        Err(e) => Err(e),
        Ok((n, r)) => decode_items_n(r, n),
    }
}

/// Reads `n` values. Every value takes at least the four bytes of its tag,
/// so the bytes after it are fewer: the test for that never fails.
pub open spec fn decode_items_n(s: Seq<u8>, n: nat) -> Decoded<Seq<Model>>
    decreases s.len(), n + 1,
{
    if n == 0 {
        Ok((Seq::empty(), s))
    } else {
        match decode_value(s) {
            Err(e) => Err(e),
            Ok((m, r)) => if r.len() >= s.len() {
                Err(CodecError::TruncatedInput)
            } else {
                match decode_items_n(r, (n - 1) as nat) {
                    Err(e) => Err(e),
                    Ok((ms, rest)) => Ok((seq![m] + ms, rest)),
                }
            },
        }
    }
}

/// Reads a count and that many entries.
pub open spec fn decode_pairs(s: Seq<u8>) -> Decoded<Seq<(Model, Model)>>
    decreases s.len(), 0nat,
{
    match decode_len(s) {
        Err(e) => Err(e),
        Ok((n, r)) => decode_pairs_n(r, n),
    }
}

/// Reads `n` entries, of each its key and then its value.
pub open spec fn decode_pairs_n(s: Seq<u8>, n: nat) -> Decoded<Seq<(Model, Model)>>
    decreases s.len(), n + 1,
{
    if n == 0 {
        Ok((Seq::empty(), s))
    } else {
        match decode_value(s) {
            Err(e) => Err(e),
            Ok((k, r1)) => if r1.len() >= s.len() {
                Err(CodecError::TruncatedInput)
            } else {
                match decode_value(r1) {
                    Err(e) => Err(e),
                    Ok((v, r2)) => if r2.len() >= r1.len() {
                        Err(CodecError::TruncatedInput)
                    } else {
                        match decode_pairs_n(r2, (n - 1) as nat) {
                            Err(e) => Err(e),
                            Ok((ps, rest)) => Ok((seq![(k, v)] + ps, rest)),
                        }
                    },
                }
            },
        }
    }
}

/// Reads a count and that many fields.
pub open spec fn decode_fields(s: Seq<u8>) -> Decoded<Seq<(Seq<char>, Model)>>
    decreases s.len(), 0nat,
{
    match decode_len(s) {
        Err(e) => Err(e),
        Ok((n, r)) => decode_fields_n(r, n),
    }
}

/// Reads `n` fields, of each its name and then its value.
pub open spec fn decode_fields_n(s: Seq<u8>, n: nat) -> Decoded<Seq<(Seq<char>, Model)>>
    decreases s.len(), n + 1,
{
    if n == 0 {
        Ok((Seq::empty(), s))
    } else {
        match decode_text(s) {
            Err(e) => Err(e),
            Ok((name, r1)) => match decode_value(r1) {
                Err(e) => Err(e),
                Ok((v, r2)) => if r2.len() >= r1.len() {
                    Err(CodecError::TruncatedInput)
                } else {
                    match decode_fields_n(r2, (n - 1) as nat) {
                        Err(e) => Err(e),
                        Ok((fs, rest)) => Ok((seq![(name, v)] + fs, rest)),
                    }
                },
            },
        }
    }
}

/// Reads one value that must take all the bytes.
pub open spec fn decode(s: Seq<u8>) -> Result<Model, CodecError> {
    match decode_value(s) {
        Err(e) => Err(e),
        Ok((m, rest)) => if rest.len() == 0 {
            Ok(m)
        } else {
            Err(CodecError::TrailingBytes)
        },
    }
}

} // verus!
