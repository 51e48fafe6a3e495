//! The byte buffers of the `bytes` crate, behind trusted wrappers. Each buffer
//! is described by the bytes it holds.

use vstd::prelude::*;
use bytes::{Bytes, BytesMut};

verus! {

/// An immutable, cheaply sliced byte buffer of the `bytes` crate.
#[verifier::external_type_specification]
#[verifier::external_body]
pub struct ExBytes(bytes::Bytes);

/// A growable byte buffer of the `bytes` crate.
#[verifier::external_type_specification]
#[verifier::external_body]
pub struct ExBytesMut(bytes::BytesMut);

/// The bytes that a `Bytes` holds, in order.
pub uninterp spec fn bytes_contents(b: bytes::Bytes) -> Seq<u8>;

/// The bytes that a `BytesMut` holds, in order.
pub uninterp spec fn bytes_mut_contents(b: bytes::BytesMut) -> Seq<u8>;

/// Calls `Bytes::from(Vec<u8>)`, which takes over the vector's bytes.
#[verifier::external_body]
pub(crate) fn bytes_from_vec(v: Vec<u8>) -> (r: Bytes)
    ensures
        bytes_contents(r) == v@,
{
    Bytes::from(v)
}

/// Calls `Bytes::len`: how many bytes it holds.
#[verifier::external_body]
pub(crate) fn bytes_len(b: &Bytes) -> (n: usize)
    ensures
        n == bytes_contents(*b).len(),
{
    b.len()
}

/// Calls `Bytes::slice` with `begin..end`: the bytes from `begin` up to
/// `end`. `slice` panics unless `begin <= end <= len`; `requires` leaves that
/// out.
#[verifier::external_body]
pub(crate) fn bytes_slice(b: &Bytes, begin: usize, end: usize) -> (r: Bytes)
    requires
        begin <= end <= bytes_contents(*b).len(),
    ensures
        bytes_contents(r) == bytes_contents(*b).subrange(begin as int, end as int),
{
    b.slice(begin..end)
}

/// Dereferences a `Bytes` to the slice of the bytes it holds.
#[verifier::external_body]
pub(crate) fn bytes_as_slice(b: &Bytes) -> (r: &[u8])
    ensures
        r@ == bytes_contents(*b),
{
    b
}

/// Calls `BytesMut::new`: an empty buffer.
#[verifier::external_body]
pub(crate) fn bytes_mut_new() -> (r: BytesMut)
    ensures
        bytes_mut_contents(r) == Seq::<u8>::empty(),
{
    BytesMut::new()
}

/// Calls `BytesMut::extend` with the bytes of `data`, which appends them.
#[verifier::external_body]
pub(crate) fn bytes_mut_extend(buf: &mut BytesMut, data: Bytes)
    ensures
        bytes_mut_contents(*final(buf)) == bytes_mut_contents(*old(buf)) + bytes_contents(data),
{
    buf.extend(data)
}

/// Calls `BytesMut::freeze`: an immutable buffer of the same bytes.
#[verifier::external_body]
pub(crate) fn bytes_mut_freeze(buf: BytesMut) -> (r: Bytes)
    ensures
        bytes_contents(r) == bytes_mut_contents(buf),
{
    buf.freeze()
}

} // verus!
