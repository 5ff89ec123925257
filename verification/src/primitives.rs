//! The fixed-width integers of the byte format, and the calls that write
//! and read them.

use uniffi::deps::bytes::{Buf, BufMut};
use vstd::prelude::*;
use vstd::utf8::{decode_utf8, valid_utf8};

verus! {

/// The four bytes of `v`, most significant first.
#[verifier::opaque]
pub open spec fn be_u32(v: int) -> Seq<u8> {
    seq![
        (v / 0x100_0000 % 256) as u8,
        (v / 0x1_0000 % 256) as u8,
        (v / 0x100 % 256) as u8,
        (v % 256) as u8,
    ]
}

/// The number whose four bytes, most significant first, open `s`.
#[verifier::opaque]
pub open spec fn u32_of_be(s: Seq<u8>) -> int {
    s[0] * 0x100_0000 + s[1] * 0x1_0000 + s[2] * 0x100 + s[3]
}

/// The eight bytes of `v`, most significant first.
pub open spec fn be_u64(v: int) -> Seq<u8> {
    be_u32(v / 0x1_0000_0000) + be_u32(v % 0x1_0000_0000)
}

/// The number whose eight bytes, most significant first, open `s`.
pub open spec fn u64_of_be(s: Seq<u8>) -> int {
    u32_of_be(s.subrange(0, 4)) * 0x1_0000_0000 + u32_of_be(s.subrange(4, 8))
}

/// The four bytes of `v` in two's complement, most significant first.
pub open spec fn be_i32(v: i32) -> Seq<u8> {
    be_u32(
        if v < 0 {
            v + 0x1_0000_0000
        } else {
            v as int
        },
    )
}

/// The signed number whose four bytes in two's complement open `s`.
pub open spec fn i32_of_be(s: Seq<u8>) -> int {
    let u = u32_of_be(s);
    if u >= 0x8000_0000 {
        u - 0x1_0000_0000
    } else {
        u
    }
}

/// The eight bytes of `v` in two's complement, most significant first.
pub open spec fn be_i64(v: i64) -> Seq<u8> {
    be_u64(
        if v < 0 {
            v + 0x1_0000_0000_0000_0000
        } else {
            v as int
        },
    )
}

/// The signed number whose eight bytes in two's complement open `s`.
pub open spec fn i64_of_be(s: Seq<u8>) -> int {
    let u = u64_of_be(s);
    if u >= 0x8000_0000_0000_0000 {
        u - 0x1_0000_0000_0000_0000
    } else {
        u
    }
}

/// Four bytes hold every number below 2^32, and give it back.
pub proof fn lemma_u32_round_trip(v: int, rest: Seq<u8>)
    requires
        0 <= v < 0x1_0000_0000,
    ensures
        be_u32(v).len() == 4,
        u32_of_be(be_u32(v) + rest) == v,
{
    reveal(be_u32);
    reveal(u32_of_be);
}

/// Any four bytes stand for a number below 2^32.
pub proof fn lemma_u32_range(s: Seq<u8>)
    ensures
        0 <= u32_of_be(s) < 0x1_0000_0000,
        -0x8000_0000 <= i32_of_be(s) < 0x8000_0000,
{
    reveal(u32_of_be);
}

/// The count of nothing is four zero bytes.
pub proof fn lemma_be_u32_zero()
    ensures
        be_u32(0) == seq![0u8, 0u8, 0u8, 0u8],
{
    reveal(be_u32);
    assert(be_u32(0) =~= seq![0u8, 0u8, 0u8, 0u8]);
}

/// A signed 32-bit number survives being written and read.
pub proof fn lemma_i32_round_trip(v: i32, rest: Seq<u8>)
    ensures
        be_i32(v).len() == 4,
        i32_of_be(be_i32(v) + rest) == v,
{
    let u = if v < 0 {
        v + 0x1_0000_0000
    } else {
        v as int
    };
    lemma_u32_round_trip(u, rest);
}

/// An unsigned 64-bit number survives being written and read.
pub proof fn lemma_u64_round_trip(v: int, rest: Seq<u8>)
    requires
        0 <= v < 0x1_0000_0000_0000_0000,
    ensures
        be_u64(v).len() == 8,
        u64_of_be(be_u64(v) + rest) == v,
{
    let hi = v / 0x1_0000_0000;
    let lo = v % 0x1_0000_0000;
    let s = be_u64(v) + rest;
    lemma_u32_round_trip(hi, Seq::empty());
    lemma_u32_round_trip(lo, Seq::empty());
    assert(s.subrange(0, 4) =~= be_u32(hi) + Seq::<u8>::empty());
    assert(s.subrange(4, 8) =~= be_u32(lo) + Seq::<u8>::empty());
}

/// A signed 64-bit number survives being written and read.
pub proof fn lemma_i64_round_trip(v: i64, rest: Seq<u8>)
    ensures
        be_i64(v).len() == 8,
        i64_of_be(be_i64(v) + rest) == v,
{
    let u = if v < 0 {
        v + 0x1_0000_0000_0000_0000
    } else {
        v as int
    };
    lemma_u64_round_trip(u, rest);
}

/// `BufMut::put_i32` of the bytes crate, on a `Vec<u8>`: it appends the four
/// bytes of `v` in two's complement, most significant first.
#[verifier::external_body]
pub(crate) fn put_i32(buf: &mut Vec<u8>, v: i32)
    ensures
        final(buf)@ == old(buf)@ + be_i32(v),
{
    buf.put_i32(v)
}

/// `BufMut::put_i64` of the bytes crate, on a `Vec<u8>`: it appends the eight
/// bytes of `v` in two's complement, most significant first.
#[verifier::external_body]
pub(crate) fn put_i64(buf: &mut Vec<u8>, v: i64)
    ensures
        final(buf)@ == old(buf)@ + be_i64(v),
{
    buf.put_i64(v)
}

/// `BufMut::put_u64` of the bytes crate, on a `Vec<u8>`: it appends the eight
/// bytes of `v`, most significant first.
#[verifier::external_body]
pub(crate) fn put_u64(buf: &mut Vec<u8>, v: u64)
    ensures
        final(buf)@ == old(buf)@ + be_u64(v as int),
{
    buf.put_u64(v)
}

/// `Buf::get_i32` of the bytes crate, on a byte slice: the signed number
/// that the first four bytes hold, most significant first. The call panics
/// on fewer than four bytes.
#[verifier::external_body]
pub(crate) fn get_i32(buf: &[u8]) -> (v: i32)
    requires
        buf@.len() >= 4,
    ensures
        v == i32_of_be(buf@),
{
    let mut cursor = buf;
    cursor.get_i32()
}

/// `Buf::get_i64` of the bytes crate, on a byte slice: the signed number
/// that the first eight bytes hold, most significant first. The call panics
/// on fewer than eight bytes.
#[verifier::external_body]
pub(crate) fn get_i64(buf: &[u8]) -> (v: i64)
    requires
        buf@.len() >= 8,
    ensures
        v == i64_of_be(buf@),
{
    let mut cursor = buf;
    cursor.get_i64()
}

/// `Buf::get_u64` of the bytes crate, on a byte slice: the number that the
/// first eight bytes hold, most significant first. The call panics on fewer
/// than eight bytes.
#[verifier::external_body]
pub(crate) fn get_u64(buf: &[u8]) -> (v: u64)
    requires
        buf@.len() >= 8,
    ensures
        v == u64_of_be(buf@),
{
    let mut cursor = buf;
    cursor.get_u64()
}

/// The error type of the anyhow crate, which `check_remaining` returns.
#[verifier::external_type_specification]
#[verifier::external_body]
pub struct ExAnyhowError(anyhow::Error);

/// `check_remaining` of uniffi: an error exactly when the slice holds fewer
/// than `num_bytes` bytes.
pub assume_specification[ uniffi::check_remaining ](buf: &[u8], num_bytes: usize) -> (r: Result<
    (),
    anyhow::Error,
>)
    ensures
        r.is_ok() <==> buf@.len() >= num_bytes,
;

/// `String::from_utf8` of std: the text that the bytes encode, where they
/// are valid UTF-8, and nothing where they are not.
#[verifier::external_body]
pub(crate) fn string_from_utf8(bytes: Vec<u8>) -> (r: Option<String>)
    ensures
        r.is_some() <==> valid_utf8(bytes@),
        r matches Some(s) ==> s@ == decode_utf8(bytes@),
{
    String::from_utf8(bytes).ok()
}

/// Whether `buf` holds at least `n` bytes.
pub fn has_remaining(buf: &[u8], n: usize) -> (ok: bool)
    ensures
        ok == (buf@.len() >= n),
{
    match uniffi::check_remaining(buf, n) {
        Ok(_) => true,
        Err(_) => false,
    }
}

} // verus!
