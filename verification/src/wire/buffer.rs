//! The byte buffer that frames are read from and written to.

use tokio_util::bytes::{Buf, BufMut, BytesMut, TryGetError};
use vstd::prelude::*;
use vstd::utf8::{decode_utf8, valid_utf8};

verus! {

/// `BytesMut` of the `bytes` crate, by way of `tokio_util`: a growable run of bytes.
#[verifier::external_type_specification]
#[verifier::external_body]
pub struct ExBytesMut(tokio_util::bytes::BytesMut);

/// The error of a `try_get` on a buffer that holds too few bytes.
#[verifier::external_type_specification]
#[verifier::external_body]
pub struct ExTryGetError(tokio_util::bytes::TryGetError);

/// The bytes that a buffer holds, the next one to be read first.
pub uninterp spec fn held(buf: BytesMut) -> Seq<u8>;

/// The bytes of `v`, the low one first.
pub open spec fn le16(v: u16) -> Seq<u8> {
    seq![(v % 256) as u8, (v / 256) as u8]
}

/// The bytes of `v`, the lowest one first.
pub open spec fn le32(v: u32) -> Seq<u8> {
    le16((v % 0x1_0000) as u16) + le16((v / 0x1_0000) as u16)
}

/// The bytes of `v`, the lowest one first.
pub open spec fn le64(v: u64) -> Seq<u8> {
    le32((v % 0x1_0000_0000) as u32) + le32((v / 0x1_0000_0000) as u32)
}

/// The number whose low byte is `s[at]` and whose high byte is `s[at + 1]`.
pub open spec fn u16_at(s: Seq<u8>, at: int) -> u16 {
    (s[at] + 256 * s[at + 1]) as u16
}

/// The number whose four bytes stand at `at`, the lowest one first.
pub open spec fn u32_at(s: Seq<u8>, at: int) -> u32 {
    (u16_at(s, at) + 0x1_0000 * u16_at(s, at + 2)) as u32
}

/// The number whose eight bytes stand at `at`, the lowest one first.
pub open spec fn u64_at(s: Seq<u8>, at: int) -> u64 {
    (u32_at(s, at) + 0x1_0000_0000 * u32_at(s, at + 4)) as u64
}

/// One byte off the front of `s`, and what is left.
pub open spec fn take_u8(s: Seq<u8>) -> Option<(u8, Seq<u8>)> {
    if s.len() >= 1 {
        Some((s[0], s.skip(1)))
    } else {
        None
    }
}

/// One signed byte off the front of `s`, and what is left.
pub open spec fn take_i8(s: Seq<u8>) -> Option<(i8, Seq<u8>)> {
    if s.len() >= 1 {
        Some((
            if s[0] < 128 {
                s[0] as i8
            } else {
                (s[0] - 256) as i8
            },
            s.skip(1),
        ))
    } else {
        None
    }
}

/// A two-byte number off the front of `s`, and what is left.
pub open spec fn take_u16(s: Seq<u8>) -> Option<(u16, Seq<u8>)> {
    if s.len() >= 2 {
        Some((u16_at(s, 0), s.skip(2)))
    } else {
        None
    }
}

/// A four-byte number off the front of `s`, and what is left.
pub open spec fn take_u32(s: Seq<u8>) -> Option<(u32, Seq<u8>)> {
    if s.len() >= 4 {
        Some((u32_at(s, 0), s.skip(4)))
    } else {
        None
    }
}

/// An eight-byte number off the front of `s`, and what is left.
pub open spec fn take_u64(s: Seq<u8>) -> Option<(u64, Seq<u8>)> {
    if s.len() >= 8 {
        Some((u64_at(s, 0), s.skip(8)))
    } else {
        None
    }
}

/// `BytesMut::len`: how many bytes are held.
#[verifier::external_body]
pub(crate) fn buffer_len(buf: &BytesMut) -> (n: usize)
    ensures
        n == held(*buf).len(),
{
    buf.len()
}

/// Indexing of the slice that a `BytesMut` derefs to: the byte at `at`.
#[verifier::external_body]
pub(crate) fn byte_at(buf: &BytesMut, at: usize) -> (b: u8)
    requires
        at < held(*buf).len(),
    ensures
        b == held(*buf)[at as int],
{
    buf[at]
}

/// Indexed assignment to the slice that a `BytesMut` derefs to: the byte at `at` becomes `b`.
#[verifier::external_body]
pub(crate) fn set_byte(buf: &mut BytesMut, at: usize, b: u8)
    requires
        at < held(*old(buf)).len(),
    ensures
        held(*final(buf)) == held(*old(buf)).update(at as int, b),
{
    buf[at] = b;
}

/// `Buf::advance` on a `BytesMut`: the first `n` bytes are dropped.
#[verifier::external_body]
pub(crate) fn advance(buf: &mut BytesMut, n: usize)
    requires
        n <= held(*old(buf)).len(),
    ensures
        held(*final(buf)) == held(*old(buf)).skip(n as int),
{
    buf.advance(n);
}

/// `BytesMut::split_to`: the first `n` bytes move to a buffer of their own.
#[verifier::external_body]
pub(crate) fn split_to(buf: &mut BytesMut, n: usize) -> (front: BytesMut)
    requires
        n <= held(*old(buf)).len(),
    ensures
        held(front) == held(*old(buf)).take(n as int),
        held(*final(buf)) == held(*old(buf)).skip(n as int),
{
    buf.split_to(n)
}

/// `to_vec` of the slice that a `BytesMut` derefs to: a copy of the bytes held.
#[verifier::external_body]
pub(crate) fn to_vec(buf: &BytesMut) -> (bytes: Vec<u8>)
    ensures
        bytes@ == held(*buf),
{
    buf.to_vec()
}

/// `String::from_utf8`: the text that the bytes encode, `None` in place of its error where they
/// are not UTF-8.
#[verifier::external_body]
pub(crate) fn from_utf8(bytes: Vec<u8>) -> (text: Option<String>)
    ensures
        text is Some <==> valid_utf8(bytes@),
        text matches Some(t) ==> t@ == decode_utf8(bytes@),
{
    String::from_utf8(bytes).ok()
}

/// `Buf::try_get_u8` on a `BytesMut`: takes one byte, or nothing where there is none.
#[verifier::external_body]
pub(crate) fn try_get_u8(buf: &mut BytesMut) -> (r: Result<u8, TryGetError>)
    ensures
        match take_u8(held(*old(buf))) {
            Some((v, rest)) => r == Ok::<u8, TryGetError>(v) && held(*final(buf)) == rest,
            None => r is Err && held(*final(buf)) == held(*old(buf)),
        },
{
    buf.try_get_u8()
}

/// `Buf::try_get_i8` on a `BytesMut`: takes one signed byte, or nothing where there is none.
#[verifier::external_body]
pub(crate) fn try_get_i8(buf: &mut BytesMut) -> (r: Result<i8, TryGetError>)
    ensures
        match take_i8(held(*old(buf))) {
            Some((v, rest)) => r == Ok::<i8, TryGetError>(v) && held(*final(buf)) == rest,
            None => r is Err && held(*final(buf)) == held(*old(buf)),
        },
{
    buf.try_get_i8()
}

/// `Buf::try_get_u16_le` on a `BytesMut`: takes two bytes, or nothing where there are fewer.
#[verifier::external_body]
pub(crate) fn try_get_u16_le(buf: &mut BytesMut) -> (r: Result<u16, TryGetError>)
    ensures
        match take_u16(held(*old(buf))) {
            Some((v, rest)) => r == Ok::<u16, TryGetError>(v) && held(*final(buf)) == rest,
            None => r is Err && held(*final(buf)) == held(*old(buf)),
        },
{
    buf.try_get_u16_le()
}

/// `Buf::try_get_u32_le` on a `BytesMut`: takes four bytes, or nothing where there are fewer.
#[verifier::external_body]
pub(crate) fn try_get_u32_le(buf: &mut BytesMut) -> (r: Result<u32, TryGetError>)
    ensures
        match take_u32(held(*old(buf))) {
            Some((v, rest)) => r == Ok::<u32, TryGetError>(v) && held(*final(buf)) == rest,
            None => r is Err && held(*final(buf)) == held(*old(buf)),
        },
{
    buf.try_get_u32_le()
}

/// `Buf::try_get_u64_le` on a `BytesMut`: takes eight bytes, or nothing where there are fewer.
#[verifier::external_body]
pub(crate) fn try_get_u64_le(buf: &mut BytesMut) -> (r: Result<u64, TryGetError>)
    ensures
        match take_u64(held(*old(buf))) {
            Some((v, rest)) => r == Ok::<u64, TryGetError>(v) && held(*final(buf)) == rest,
            None => r is Err && held(*final(buf)) == held(*old(buf)),
        },
{
    buf.try_get_u64_le()
}

/// `BufMut::put_u8` on a `BytesMut`: appends one byte.
#[verifier::external_body]
pub(crate) fn put_u8(dst: &mut BytesMut, v: u8)
    requires
        held(*old(dst)).len() + 1 <= isize::MAX,
    ensures
        held(*final(dst)) == held(*old(dst)) + seq![v],
{
    dst.put_u8(v);
}

/// `BufMut::put_u16_le` on a `BytesMut`: appends the two bytes of `v`, the low one first.
#[verifier::external_body]
pub(crate) fn put_u16_le(dst: &mut BytesMut, v: u16)
    requires
        held(*old(dst)).len() + 2 <= isize::MAX,
    ensures
        held(*final(dst)) == held(*old(dst)) + le16(v),
{
    dst.put_u16_le(v);
}

/// `BufMut::put_u32_le` on a `BytesMut`: appends the four bytes of `v`, the lowest one first.
#[verifier::external_body]
pub(crate) fn put_u32_le(dst: &mut BytesMut, v: u32)
    requires
        held(*old(dst)).len() + 4 <= isize::MAX,
    ensures
        held(*final(dst)) == held(*old(dst)) + le32(v),
{
    dst.put_u32_le(v);
}

/// `BufMut::put_slice` on a `BytesMut`: appends the bytes.
#[verifier::external_body]
pub(crate) fn put_slice(dst: &mut BytesMut, bytes: &[u8])
    requires
        held(*old(dst)).len() + bytes@.len() <= isize::MAX,
    ensures
        held(*final(dst)) == held(*old(dst)) + bytes@,
{
    dst.put_slice(bytes);
}

} // verus!
