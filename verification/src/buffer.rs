//! What the library takes on trust about `bytes::BytesMut`, the growable
//! byte buffer that holds a connection's pending input and the packets
//! built for sending.

use bytes::BufMut;
use bytes::BytesMut;
use vstd::prelude::*;

verus! {

/// `bytes::BytesMut`, taken as it is: nothing of its layout is known here,
/// and all that is said of a buffer is said through `buf_bytes`.
#[verifier::external_type_specification]
#[verifier::external_body]
pub struct ExBytesMut(bytes::BytesMut);

/// The bytes that a buffer holds, first to last.
pub uninterp spec fn buf_bytes(buffer: BytesMut) -> Seq<u8>;

/// `BytesMut::with_capacity`: a buffer that holds no bytes yet, whatever
/// room it was asked to set aside. The call panics when asked for more room
/// than an allocation can have, which `requires` rules out.
pub assume_specification[ BytesMut::with_capacity ](capacity: usize) -> (buffer: BytesMut)
    requires
        capacity <= isize::MAX,
    ensures
        buf_bytes(buffer) == Seq::<u8>::empty(),
;

/// `BytesMut::len`: the number of bytes held.
pub assume_specification[ BytesMut::len ](buffer: &BytesMut) -> (len: usize)
    ensures
        len == buf_bytes(*buffer).len(),
;

/// `BytesMut::split_to`: the first `at` bytes leave the buffer and are
/// handed back as a buffer of their own; the others stay, in order. The
/// call panics when `at` is past the end, which `requires` rules out.
pub assume_specification[ BytesMut::split_to ](buffer: &mut BytesMut, at: usize) -> (front:
    BytesMut)
    requires
        at <= buf_bytes(*old(buffer)).len(),
    ensures
        buf_bytes(front) == buf_bytes(*old(buffer)).take(at as int),
        buf_bytes(*final(buffer)) == buf_bytes(*old(buffer)).skip(at as int),
;

/// `BytesMut::extend_from_slice`: the bytes of `extend` are appended, and
/// the buffer grows as needed. Growing panics when the room asked for is
/// more than an allocation can have; `requires` keeps the new length
/// within that.
pub assume_specification[ BytesMut::extend_from_slice ](buffer: &mut BytesMut, extend: &[u8])
    requires
        buf_bytes(*old(buffer)).len() + extend@.len() <= isize::MAX,
    ensures
        buf_bytes(*final(buffer)) == buf_bytes(*old(buffer)) + extend@,
;

/// `BytesMut::clear`: every byte is dropped.
pub assume_specification[ BytesMut::clear ](buffer: &mut BytesMut)
    ensures
        buf_bytes(*final(buffer)) == Seq::<u8>::empty(),
;

/// `BufMut::put_u8` on a `BytesMut`: one byte is appended, by way of
/// `extend_from_slice` and under the same condition.
#[verifier::external_body]
pub(crate) fn put_byte(buffer: &mut BytesMut, byte: u8)
    requires
        buf_bytes(*old(buffer)).len() < isize::MAX,
    ensures
        buf_bytes(*final(buffer)) == buf_bytes(*old(buffer)).push(byte),
{
    buffer.put_u8(byte)
}

/// `AsRef<[u8]>` of a `BytesMut`: the bytes held, as a slice.
#[verifier::external_body]
pub(crate) fn as_slice(buffer: &BytesMut) -> (bytes: &[u8])
    ensures
        bytes@ == buf_bytes(*buffer),
{
    buffer.as_ref()
}

} // verus!
