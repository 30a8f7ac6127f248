//! Byte buffers of the `bytes` crate, as the codec sees them.
//!
//! `BytesMut` is the growing buffer that encoders append to, `Bytes` the cursor
//! that decoders consume from the front. Both are opaque to the verifier: all
//! that is known of them is stated here, over the bytes that they hold.

use bytes::{Buf, BufMut, Bytes, BytesMut};
use vstd::prelude::*;

use crate::wire::{be_bytes, be_value};

verus! {

/// `bytes::BytesMut`, opaque.
#[verifier::external_type_specification]
#[verifier::external_body]
pub struct ExBytesMut(bytes::BytesMut);

/// `bytes::Bytes`, opaque.
#[verifier::external_type_specification]
#[verifier::external_body]
pub struct ExBytes(bytes::Bytes);

/// The bytes written to a `BytesMut` and not yet taken out of it.
pub uninterp spec fn written(buf: BytesMut) -> Seq<u8>;

/// The bytes that a `Bytes` still has to give.
pub uninterp spec fn unread(buf: Bytes) -> Seq<u8>;

/// `BytesMut::new`: a buffer with nothing in it.
pub assume_specification[ BytesMut::new ]() -> (buf: BytesMut)
    ensures
        written(buf) == Seq::<u8>::empty(),
;

/// `BytesMut::len`: how many bytes the buffer holds.
pub assume_specification[ BytesMut::len ](buf: &BytesMut) -> (n: usize)
    ensures
        n == written(*buf).len(),
;

/// `BytesMut::freeze`: the same bytes, to be read.
pub assume_specification[ BytesMut::freeze ](buf: BytesMut) -> (out: Bytes)
    ensures
        unread(out) == written(buf),
;

/// `BytesMut::extend_from_slice`: appends the slice.
pub assume_specification[ BytesMut::extend_from_slice ](buf: &mut BytesMut, extend: &[u8])
    requires
        written(*old(buf)).len() + extend@.len() <= isize::MAX,
    ensures
        written(*final(buf)) == written(*old(buf)) + extend@,
;

/// `BytesMut::split_to`: takes the first `at` bytes out.
pub assume_specification[ BytesMut::split_to ](buf: &mut BytesMut, at: usize) -> (front: BytesMut)
    requires
        at <= written(*old(buf)).len(),
    ensures
        written(front) == written(*old(buf)).take(at as int),
        written(*final(buf)) == written(*old(buf)).skip(at as int),
;

/// `Bytes::len`: how many bytes are left to read.
pub assume_specification[ Bytes::len ](buf: &Bytes) -> (n: usize)
    ensures
        n == unread(*buf).len(),
;

/// `Bytes::split_to`: takes the first `at` bytes out.
pub assume_specification[ Bytes::split_to ](buf: &mut Bytes, at: usize) -> (front: Bytes)
    requires
        at <= unread(*old(buf)).len(),
    ensures
        unread(front) == unread(*old(buf)).take(at as int),
        unread(*final(buf)) == unread(*old(buf)).skip(at as int),
;

/// `Clone` of a `BytesMut`: the same bytes again.
pub assume_specification[ <BytesMut as Clone>::clone ](buf: &BytesMut) -> (copy: BytesMut)
    ensures
        written(copy) == written(*buf),
;

/// `From<Vec<u8>>` of a `Bytes`: the bytes of the vector, to be read.
#[verifier::external_body]
pub(crate) fn bytes_from_vec(v: Vec<u8>) -> (buf: Bytes)
    ensures
        unread(buf) == v@,
{
    Bytes::from(v)
}

/// `BufMut::put_u8` on a `BytesMut`: appends one byte.
#[verifier::external_body]
pub(crate) fn put_u8(buf: &mut BytesMut, n: u8)
    requires
        written(*old(buf)).len() + 1 <= isize::MAX,
    ensures
        written(*final(buf)) == written(*old(buf)).push(n),
{
    buf.put_u8(n)
}

/// `BufMut::put_u16` on a `BytesMut`: appends two bytes, most significant first.
#[verifier::external_body]
pub(crate) fn put_u16(buf: &mut BytesMut, n: u16)
    requires
        written(*old(buf)).len() + 2 <= isize::MAX,
    ensures
        written(*final(buf)) == written(*old(buf)) + be_bytes(n as nat, 2),
{
    buf.put_u16(n)
}

/// `BufMut::put_u32` on a `BytesMut`: appends four bytes, most significant first.
#[verifier::external_body]
pub(crate) fn put_u32(buf: &mut BytesMut, n: u32)
    requires
        written(*old(buf)).len() + 4 <= isize::MAX,
    ensures
        written(*final(buf)) == written(*old(buf)) + be_bytes(n as nat, 4),
{
    buf.put_u32(n)
}

/// `BufMut::put_u64` on a `BytesMut`: appends eight bytes, most significant first.
#[verifier::external_body]
pub(crate) fn put_u64(buf: &mut BytesMut, n: u64)
    requires
        written(*old(buf)).len() + 8 <= isize::MAX,
    ensures
        written(*final(buf)) == written(*old(buf)) + be_bytes(n as nat, 8),
{
    buf.put_u64(n)
}

/// `Buf::chunk` on a `BytesMut`: everything that it holds, as one slice.
#[verifier::external_body]
pub(crate) fn contents(buf: &BytesMut) -> (s: &[u8])
    ensures
        s@ == written(*buf),
{
    buf.chunk()
}

/// `Buf::chunk` on a `Bytes`: everything left to read, as one slice.
#[verifier::external_body]
pub(crate) fn chunk(buf: &Bytes) -> (s: &[u8])
    ensures
        s@ == unread(*buf),
{
    buf.chunk()
}

/// `Buf::advance` on a `Bytes`: drops the first `cnt` bytes.
#[verifier::external_body]
pub(crate) fn advance(buf: &mut Bytes, cnt: usize)
    requires
        cnt <= unread(*old(buf)).len(),
    ensures
        unread(*final(buf)) == unread(*old(buf)).skip(cnt as int),
{
    buf.advance(cnt)
}

/// `Buf::get_u8` on a `Bytes`: takes the first byte.
#[verifier::external_body]
pub(crate) fn get_u8(buf: &mut Bytes) -> (n: u8)
    requires
        unread(*old(buf)).len() >= 1,
    ensures
        n == unread(*old(buf))[0],
        unread(*final(buf)) == unread(*old(buf)).skip(1),
{
    buf.get_u8()
}

/// `Buf::get_u16` on a `Bytes`: takes two bytes, most significant first.
#[verifier::external_body]
pub(crate) fn get_u16(buf: &mut Bytes) -> (n: u16)
    requires
        unread(*old(buf)).len() >= 2,
    ensures
        n == be_value(unread(*old(buf)).take(2)),
        unread(*final(buf)) == unread(*old(buf)).skip(2),
{
    buf.get_u16()
}

} // verus!
