//! The static description of how each type crosses the boundary: the tag
//! sequence from which the foreign side's bindings are generated.
//!
//! A set is announced as a list of values and a map as a table, from values
//! to values or from text to values: the shapes that the byte format writes
//! for them.

use uniffi::MetadataBuffer;
use vstd::prelude::*;
use vstd::utf8::{encode_utf8, is_ascii_chars_encode_utf8};

verus! {

/// The code of text in a tag sequence.
pub const TYPE_STRING: u8 = 11;

/// The code of an enumeration, which its name follows.
pub const TYPE_ENUM: u8 = 14;

/// The code of a list, which the tags of its element follow.
pub const TYPE_VEC: u8 = 17;

/// The code of a table, which the tags of its key and of its value follow.
pub const TYPE_HASH_MAP: u8 = 18;

/// The buffer of uniffi in which a tag sequence is put together.
#[verifier::external_type_specification]
#[verifier::external_body]
pub struct ExMetadataBuffer(MetadataBuffer);

/// The bytes that a buffer holds.
pub uninterp spec fn meta_bytes(buf: MetadataBuffer) -> Seq<u8>;

/// `MetadataBuffer::from_code` of uniffi: a buffer that holds the one byte
/// `code`.
#[verifier::external_body]
fn meta_from_code(code: u8) -> (r: MetadataBuffer)
    ensures
        meta_bytes(r) == seq![code],
{
    MetadataBuffer::from_code(code)
}

/// `MetadataBuffer::concat` of uniffi: the bytes of `a` and then those of
/// `b`. The call panics where the two hold more than 2048 bytes together.
#[verifier::external_body]
fn meta_concat(a: MetadataBuffer, b: MetadataBuffer) -> (r: MetadataBuffer)
    requires
        meta_bytes(a).len() + meta_bytes(b).len() <= 2048,
    ensures
        meta_bytes(r) == meta_bytes(a) + meta_bytes(b),
{
    a.concat(b)
}

/// `MetadataBuffer::concat_str` of uniffi: the bytes of `a`, then the
/// number of bytes of `s` in one byte, then the UTF-8 bytes of `s`. The call
/// panics on a text of 256 bytes or more, and where the buffer would come to
/// hold 2048 bytes or more.
#[verifier::external_body]
fn meta_concat_str(a: MetadataBuffer, s: &str) -> (r: MetadataBuffer)
    requires
        encode_utf8(s@).len() < 256,
        meta_bytes(a).len() + encode_utf8(s@).len() < 2048,
    ensures
        meta_bytes(r) == meta_bytes(a) + seq![encode_utf8(s@).len() as u8] + encode_utf8(s@),
{
    a.concat_str(s)
}

/// `AsRef<[u8]>::as_ref` of uniffi's buffer: the bytes that it holds.
#[verifier::external_body]
fn meta_to_vec(a: &MetadataBuffer) -> (r: Vec<u8>)
    ensures
        r@ == meta_bytes(*a),
{
    a.as_ref().to_vec()
}

/// The tags of a value: an enumeration by the name of `Value`.
pub open spec fn value_tags() -> Seq<u8> {
    seq![14u8, 5, 86, 97, 108, 117, 101]
}

/// The tags of a set: a list of values.
pub open spec fn set_tags() -> Seq<u8> {
    seq![17u8] + value_tags()
}

/// The tags of a map: a table from values to values.
pub open spec fn map_tags() -> Seq<u8> {
    seq![18u8] + value_tags() + value_tags()
}

/// The tags of an object: a table from text to values.
pub open spec fn object_tags() -> Seq<u8> {
    seq![18u8, 11] + value_tags()
}

/// The buffer with the tags of a value.
fn value_meta() -> (r: MetadataBuffer)
    ensures
        meta_bytes(r) == value_tags(),
{
    proof {
        reveal_strlit("Value");
        is_ascii_chars_encode_utf8("Value"@);
        assert(encode_utf8("Value"@) =~= seq![86u8, 97, 108, 117, 101]);
    }
    let r = meta_concat_str(meta_from_code(TYPE_ENUM), "Value");
    assert(meta_bytes(r) =~= value_tags());
    r
}

/// The tag sequence of a value.
pub fn value_type_meta() -> (tags: Vec<u8>)
    ensures
        tags@ == value_tags(),
{
    meta_to_vec(&value_meta())
}

/// The tag sequence of a set of values.
pub fn set_type_meta() -> (tags: Vec<u8>)
    ensures
        tags@ == set_tags(),
{
    meta_to_vec(&meta_concat(meta_from_code(TYPE_VEC), value_meta()))
}

/// The tag sequence of a map from values to values.
pub fn map_type_meta() -> (tags: Vec<u8>)
    ensures
        tags@ == map_tags(),
{
    let key = meta_concat(meta_from_code(TYPE_HASH_MAP), value_meta());
    meta_to_vec(&meta_concat(key, value_meta()))
}

/// The tag sequence of an object, a map from text to values.
pub fn object_type_meta() -> (tags: Vec<u8>)
    ensures
        tags@ == object_tags(),
{
    let key = meta_concat(meta_from_code(TYPE_HASH_MAP), meta_from_code(TYPE_STRING));
    let all = meta_concat(key, value_meta());
    assert(meta_bytes(all) =~= object_tags());
    meta_to_vec(&all)
}

} // verus!
