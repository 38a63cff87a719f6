//! Byte buffers. Frames come in and sub-chunks go out as `bytes::Bytes`;
//! this module states what the planner's neighbours rely on when they look
//! into one or make one.

use vstd::prelude::*;
use vstd::slice::slice_to_vec;

verus! {

/// `bytes::Bytes`, an immutable byte buffer. Nothing of its layout is
/// visible here; what it holds is named by [`bytes_contents`].
#[verifier::external_type_specification]
#[verifier::external_body]
pub struct ExBytes(bytes::Bytes);

/// The bytes that a `bytes::Bytes` holds, first to last.
pub uninterp spec fn bytes_contents(b: bytes::Bytes) -> Seq<u8>;

/// `Bytes::new` makes a buffer that holds no bytes.
pub assume_specification[ bytes::Bytes::new ]() -> (b: bytes::Bytes)
    ensures
        bytes_contents(b) == Seq::<u8>::empty(),
;

/// `Bytes::copy_from_slice` copies the slice into a new buffer: the buffer
/// holds the bytes of the slice, in the same order.
pub assume_specification[ bytes::Bytes::copy_from_slice ](data: &[u8]) -> (b: bytes::Bytes)
    ensures
        bytes_contents(b) == data@,
;

/// `<Bytes as AsRef<[u8]>>::as_ref` lends out the bytes that the buffer
/// holds, as a slice.
#[verifier::external_body]
pub(crate) fn bytes_as_slice(b: &bytes::Bytes) -> (s: &[u8])
    ensures
        s@ == bytes_contents(*b),
{
    b.as_ref()
}

/// Copies the bytes of a chunk into a vector.
pub fn chunk_to_vec(chunk: &bytes::Bytes) -> (v: Vec<u8>)
    ensures
        v@ == bytes_contents(*chunk),
{
    slice_to_vec(bytes_as_slice(chunk))
}

/// Number of bytes in a chunk.
pub fn chunk_len(chunk: &bytes::Bytes) -> (n: usize)
    ensures
        n == bytes_contents(*chunk).len(),
{
    bytes_as_slice(chunk).len()
}

} // verus!
