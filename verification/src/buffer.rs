//! Byte buffers of the `bytes` crate, as seen by the verified code.
//!
//! `BytesMut` and `Bytes` are opaque to Verus. Their contents are named by
//! [`bytes_mut_view`] and [`bytes_view`], and every method that the library
//! calls goes through one of the wrappers below, whose contracts state what
//! the `bytes` crate documents for that method.
use bytes::{Buf, BufMut, Bytes, BytesMut};
use vstd::prelude::*;

verus! {

/// The growable buffer of the `bytes` crate.
#[verifier::external_type_specification]
#[verifier::external_body]
pub struct ExBytesMut(BytesMut);

/// The shared, immutable buffer of the `bytes` crate.
#[verifier::external_type_specification]
#[verifier::external_body]
pub struct ExBytes(Bytes);

/// The bytes that a `BytesMut` holds, in order.
pub uninterp spec fn bytes_mut_view(b: BytesMut) -> Seq<u8>;

/// The bytes that a `Bytes` holds, in order.
pub uninterp spec fn bytes_view(b: Bytes) -> Seq<u8>;

/// Largest buffer length that an allocation can hold.
pub open spec fn alloc_limit() -> int {
    isize::MAX as int
}

/// `BytesMut::new`: an empty buffer.
#[verifier::external_body]
pub(crate) fn bytes_mut_new() -> (res: BytesMut)
    ensures
        bytes_mut_view(res) == Seq::<u8>::empty(),
{
    BytesMut::new()
}

/// `BytesMut::with_capacity`: an empty buffer; the capacity is a hint only.
#[verifier::external_body]
pub(crate) fn bytes_mut_with_capacity(capacity: usize) -> (res: BytesMut)
    ensures
        bytes_mut_view(res) == Seq::<u8>::empty(),
{
    BytesMut::with_capacity(capacity)
}

/// `BytesMut::len`: the number of bytes held.
#[verifier::external_body]
pub(crate) fn bytes_mut_len(b: &BytesMut) -> (res: usize)
    ensures
        res == bytes_mut_view(*b).len(),
        res <= isize::MAX,
{
    b.len()
}

/// Indexing a `BytesMut` (through its `Deref` to `[u8]`).
#[verifier::external_body]
pub(crate) fn bytes_mut_at(b: &BytesMut, i: usize) -> (res: u8)
    requires
        i < bytes_mut_view(*b).len(),
    ensures
        res == bytes_mut_view(*b)[i as int],
{
    b[i]
}

/// `Buf::advance` on a `BytesMut`: drops the first `n` bytes.
#[verifier::external_body]
pub(crate) fn bytes_mut_advance(b: &mut BytesMut, n: usize)
    requires
        n <= bytes_mut_view(*old(b)).len(),
    ensures
        bytes_mut_view(*final(b)) == bytes_mut_view(*old(b)).skip(n as int),
    no_unwind
{
    b.advance(n)
}

/// `Buf::get_u8` on a `BytesMut`: takes the first byte off the front.
#[verifier::external_body]
pub(crate) fn bytes_mut_get_u8(b: &mut BytesMut) -> (res: u8)
    requires
        1 <= bytes_mut_view(*old(b)).len(),
    ensures
        res == bytes_mut_view(*old(b))[0],
        bytes_mut_view(*final(b)) == bytes_mut_view(*old(b)).skip(1),
    no_unwind
{
    b.get_u8()
}

/// `Buf::get_u16` on a `BytesMut`: takes two bytes off the front and reads
/// them as a big-endian number.
#[verifier::external_body]
pub(crate) fn bytes_mut_get_u16(b: &mut BytesMut) -> (res: u16)
    requires
        2 <= bytes_mut_view(*old(b)).len(),
    ensures
        u16_be_bytes(res) == bytes_mut_view(*old(b)).take(2),
        bytes_mut_view(*final(b)) == bytes_mut_view(*old(b)).skip(2),
    no_unwind
{
    b.get_u16()
}

/// `Buf::get_u64` on a `BytesMut`: takes eight bytes off the front and
/// reads them as a big-endian number.
#[verifier::external_body]
pub(crate) fn bytes_mut_get_u64(b: &mut BytesMut) -> (res: u64)
    requires
        8 <= bytes_mut_view(*old(b)).len(),
    ensures
        u64_be_bytes(res) == bytes_mut_view(*old(b)).take(8),
        bytes_mut_view(*final(b)) == bytes_mut_view(*old(b)).skip(8),
    no_unwind
{
    b.get_u64()
}

/// The bytes of a `BytesMut` as a slice (through `Deref`).
#[verifier::external_body]
pub(crate) fn bytes_mut_as_slice(b: &BytesMut) -> (res: &[u8])
    ensures
        res@ == bytes_mut_view(*b),
{
    b
}

/// `BytesMut::split_to`: hands out the first `n` bytes and keeps the rest.
#[verifier::external_body]
pub(crate) fn bytes_mut_split_to(b: &mut BytesMut, n: usize) -> (res: BytesMut)
    requires
        n <= bytes_mut_view(*old(b)).len(),
    ensures
        bytes_mut_view(res) == bytes_mut_view(*old(b)).take(n as int),
        bytes_mut_view(*final(b)) == bytes_mut_view(*old(b)).skip(n as int),
    no_unwind
{
    b.split_to(n)
}

/// `BytesMut::split_off`: hands out the bytes from `at` on and keeps the
/// ones before.
#[verifier::external_body]
pub(crate) fn bytes_mut_split_off(b: &mut BytesMut, at: usize) -> (res: BytesMut)
    requires
        at <= bytes_mut_view(*old(b)).len(),
    ensures
        bytes_mut_view(res) == bytes_mut_view(*old(b)).skip(at as int),
        bytes_mut_view(*final(b)) == bytes_mut_view(*old(b)).take(at as int),
    no_unwind
{
    b.split_off(at)
}

/// `BytesMut::split`: hands out all bytes and leaves the buffer empty.
#[verifier::external_body]
pub(crate) fn bytes_mut_split(b: &mut BytesMut) -> (res: BytesMut)
    ensures
        bytes_mut_view(res) == bytes_mut_view(*old(b)),
        bytes_mut_view(*final(b)) == Seq::<u8>::empty(),
    no_unwind
{
    b.split()
}

/// `BufMut::put_slice` on a `BytesMut`: appends the bytes of `src`.
#[verifier::external_body]
pub(crate) fn bytes_mut_put_slice(b: &mut BytesMut, src: &[u8])
    requires
        bytes_mut_view(*old(b)).len() + src@.len() <= alloc_limit(),
    ensures
        bytes_mut_view(*final(b)) == bytes_mut_view(*old(b)) + src@,
    no_unwind
{
    b.put_slice(src)
}

/// `BufMut::put` of a `Bytes` into a `BytesMut`: appends its bytes.
#[verifier::external_body]
pub(crate) fn bytes_mut_put_slice_bytes(b: &mut BytesMut, src: &Bytes)
    requires
        bytes_mut_view(*old(b)).len() + bytes_view(*src).len() <= alloc_limit(),
    ensures
        bytes_mut_view(*final(b)) == bytes_mut_view(*old(b)) + bytes_view(*src),
    no_unwind
{
    b.put(src.clone())
}

/// `BufMut::put_u8` on a `BytesMut`: appends one byte.
#[verifier::external_body]
pub(crate) fn bytes_mut_put_u8(b: &mut BytesMut, n: u8)
    requires
        bytes_mut_view(*old(b)).len() + 1 <= alloc_limit(),
    ensures
        bytes_mut_view(*final(b)) == bytes_mut_view(*old(b)).push(n),
{
    b.put_u8(n)
}

/// The two bytes of `n` in big-endian order.
pub open spec fn u16_be_bytes(n: u16) -> Seq<u8> {
    seq![(n / 256) as u8, (n % 256) as u8]
}

/// The eight bytes of `n` in big-endian order.
pub open spec fn u64_be_bytes(n: u64) -> Seq<u8> {
    Seq::new(8, |i: int| ((n as nat / pow256((7 - i) as nat)) % 256) as u8)
}

/// `256` raised to `k`.
pub open spec fn pow256(k: nat) -> nat
    decreases k,
{
    if k == 0 {
        1
    } else {
        256 * pow256((k - 1) as nat)
    }
}

/// `BufMut::put_u16` on a `BytesMut`: appends `n` in big-endian order.
#[verifier::external_body]
pub(crate) fn bytes_mut_put_u16(b: &mut BytesMut, n: u16)
    requires
        bytes_mut_view(*old(b)).len() + 2 <= alloc_limit(),
    ensures
        bytes_mut_view(*final(b)) == bytes_mut_view(*old(b)) + u16_be_bytes(n),
{
    b.put_u16(n)
}

/// `BufMut::put_u64` on a `BytesMut`: appends `n` in big-endian order.
#[verifier::external_body]
pub(crate) fn bytes_mut_put_u64(b: &mut BytesMut, n: u64)
    requires
        bytes_mut_view(*old(b)).len() + 8 <= alloc_limit(),
    ensures
        bytes_mut_view(*final(b)) == bytes_mut_view(*old(b)) + u64_be_bytes(n),
{
    b.put_u64(n)
}

/// `BytesMut::freeze`: the same bytes as an immutable `Bytes`.
#[verifier::external_body]
pub(crate) fn bytes_mut_freeze(b: BytesMut) -> (res: Bytes)
    ensures
        bytes_view(res) == bytes_mut_view(b),
{
    b.freeze()
}

/// The bytes of a `BytesMut` as a mutable slice (through `DerefMut`); what is
/// written through the slice is what the buffer holds afterwards.
#[verifier::external_body]
pub(crate) fn bytes_mut_as_mut_slice(b: &mut BytesMut) -> (res: &mut [u8])
    ensures
        res@ == bytes_mut_view(*old(b)),
        bytes_mut_view(*final(b)) == final(res)@,
{
    &mut b[..]
}

/// `Clone` on `Bytes`: a handle to the same bytes.
pub assume_specification[ <Bytes as Clone>::clone ](b: &Bytes) -> (res: Bytes)
    ensures
        bytes_view(res) == bytes_view(*b),
;

/// `Bytes::copy_from_slice`: a copy of `src`.
#[verifier::external_body]
pub(crate) fn bytes_copy_from_slice(src: &[u8]) -> (res: Bytes)
    ensures
        bytes_view(res) == src@,
{
    Bytes::copy_from_slice(src)
}

/// `Bytes::from(Vec<u8>)`: the bytes of the vector.
#[verifier::external_body]
pub(crate) fn bytes_from_vec(v: Vec<u8>) -> (res: Bytes)
    ensures
        bytes_view(res) == v@,
{
    Bytes::from(v)
}

/// `Bytes::len`: the number of bytes held; like every Rust object, a
/// buffer holds at most `isize::MAX` bytes.
#[verifier::external_body]
pub(crate) fn bytes_len(b: &Bytes) -> (res: usize)
    ensures
        res == bytes_view(*b).len(),
        res <= isize::MAX,
{
    b.len()
}

/// The bytes of a `Bytes` as a slice (through `Deref`).
#[verifier::external_body]
pub(crate) fn bytes_as_slice(b: &Bytes) -> (res: &[u8])
    ensures
        res@ == bytes_view(*b),
{
    b
}

} // verus!
