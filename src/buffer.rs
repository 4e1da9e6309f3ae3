//! The framer's accumulator: a `bytes::BytesMut`, seen by the proofs as the
//! sequence of bytes it holds.
use vstd::prelude::*;

verus! {

#[verifier::external_type_specification]
#[verifier::external_body]
pub struct ExBytesMut(bytes::BytesMut);

/// The bytes that a buffer holds, from its head to its tail.
pub uninterp spec fn buffer_contents(b: bytes::BytesMut) -> Seq<u8>;

/// Relies on `BytesMut::with_capacity`: a new buffer holds no bytes.
#[verifier::external_body]
pub(crate) fn new_buffer() -> (r: bytes::BytesMut)
    ensures
        buffer_contents(r) == Seq::<u8>::empty(),
{
    bytes::BytesMut::with_capacity(65536)
}

/// Relies on `BytesMut::extend_from_slice`: the slice is appended at the tail.
/// It panics when the new length would pass `isize::MAX`.
#[verifier::external_body]
pub(crate) fn buffer_append(b: &mut bytes::BytesMut, data: &[u8])
    requires
        buffer_contents(*old(b)).len() + data@.len() <= isize::MAX,
    ensures
        buffer_contents(*final(b)) == buffer_contents(*old(b)) + data@,
{
    b.extend_from_slice(data)
}

/// Relies on `<BytesMut as AsRef<[u8]>>::as_ref`: a view of all the bytes held.
#[verifier::external_body]
pub(crate) fn buffer_bytes(b: &bytes::BytesMut) -> (r: &[u8])
    ensures
        r@ == buffer_contents(*b),
{
    b.as_ref()
}

/// Relies on `<BytesMut as Buf>::advance`: drops `n` bytes from the head.
/// It panics when `n` passes the length.
#[verifier::external_body]
pub(crate) fn buffer_advance(b: &mut bytes::BytesMut, n: usize)
    requires
        n <= buffer_contents(*old(b)).len(),
    ensures
        buffer_contents(*final(b)) == buffer_contents(*old(b)).subrange(
            n as int,
            buffer_contents(*old(b)).len() as int,
        ),
{
    bytes::Buf::advance(b, n)
}

/// Relies on `BytesMut::split_to`: the first `n` bytes leave the buffer and
/// are returned (copied into a `Vec`). It panics when `n` passes the length.
#[verifier::external_body]
pub(crate) fn buffer_split_to(b: &mut bytes::BytesMut, n: usize) -> (r: Vec<u8>)
    requires
        n <= buffer_contents(*old(b)).len(),
    ensures
        r@ == buffer_contents(*old(b)).subrange(0, n as int),
        buffer_contents(*final(b)) == buffer_contents(*old(b)).subrange(
            n as int,
            buffer_contents(*old(b)).len() as int,
        ),
{
    b.split_to(n).to_vec()
}

} // verus!
