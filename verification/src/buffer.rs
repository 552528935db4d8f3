//! The byte buffers of the `bytes` crate, as the verifier sees them.
//!
//! `Bytes` and `BytesMut` are opaque to the verifier. What a buffer holds is
//! named by [`bytes_view`] and [`bytes_mut_view`]; every function below states
//! what the corresponding method of the crate does to those contents. None of
//! these contracts is proved: they restate the crate's source.
//!
//! As for `Vec` in `vstd`, running out of memory is not modelled.

use bytes::BufMut;
use bytes::Bytes;
use bytes::BytesMut;
use core::cmp::Ordering;
use vstd::prelude::*;
use vstd::utf8::encode_utf8;

use crate::order::lex_lt;

verus! {

/// `bytes::Bytes`, an immutable byte buffer. Nothing inside it is visible
/// here: its contents go by [`bytes_view`].
#[verifier::external_type_specification]
#[verifier::external_body]
pub struct ExBytes(bytes::Bytes);

/// `bytes::BytesMut`, a growable byte buffer. Nothing inside it is visible
/// here: its contents go by [`bytes_mut_view`].
#[verifier::external_type_specification]
#[verifier::external_body]
pub struct ExBytesMut(bytes::BytesMut);

/// The bytes that an immutable buffer holds, in order.
pub uninterp spec fn bytes_view(b: Bytes) -> Seq<u8>;

/// The bytes that a growable buffer holds, in order.
pub uninterp spec fn bytes_mut_view(b: BytesMut) -> Seq<u8>;

/// `Bytes::from(String)`: the buffer takes over the string's allocation and
/// holds its UTF-8 encoding.
#[verifier::external_body]
pub(crate) fn bytes_from_string(s: String) -> (b: Bytes)
    ensures
        bytes_view(b) == encode_utf8(s@),
{
    Bytes::from(s)
}

/// `Bytes::new`: an empty buffer.
#[verifier::external_body]
pub(crate) fn bytes_new() -> (b: Bytes)
    ensures
        bytes_view(b) == Seq::<u8>::empty(),
{
    Bytes::new()
}

/// `Bytes::len`: the number of bytes held.
#[verifier::external_body]
pub(crate) fn bytes_len(b: &Bytes) -> (n: usize)
    ensures
        n == bytes_view(*b).len(),
{
    b.len()
}

/// `BytesMut::with_capacity`: an empty growable buffer. The capacity only
/// reserves room; it is no part of the contents. The underlying allocation
/// panics on a capacity beyond `isize::MAX`, which is therefore left out.
#[verifier::external_body]
pub(crate) fn bytes_mut_with_capacity(capacity: usize) -> (buf: BytesMut)
    requires
        capacity <= isize::MAX,
    ensures
        bytes_mut_view(buf) == Seq::<u8>::empty(),
{
    BytesMut::with_capacity(capacity)
}

/// `BufMut::put_slice` on a `BytesMut`, fed with the bytes of `src`: they are
/// appended to the contents, and the buffer grows as needed.
#[verifier::external_body]
pub(crate) fn bytes_mut_put_slice(buf: &mut BytesMut, src: &Bytes)
    ensures
        bytes_mut_view(*final(buf)) == bytes_mut_view(*old(buf)) + bytes_view(*src),
{
    buf.put_slice(src.as_ref());
}

/// `BufMut::put_u8` on a `BytesMut`: one byte is appended to the contents.
#[verifier::external_body]
pub(crate) fn bytes_mut_put_u8(buf: &mut BytesMut, byte: u8)
    ensures
        bytes_mut_view(*final(buf)) == bytes_mut_view(*old(buf)).push(byte),
{
    buf.put_u8(byte);
}

/// `BytesMut::freeze`: the same contents, now immutable.
#[verifier::external_body]
pub(crate) fn bytes_mut_freeze(buf: BytesMut) -> (b: Bytes)
    ensures
        bytes_view(b) == bytes_mut_view(buf),
{
    buf.freeze()
}

/// `==` on `Bytes`: the two buffers hold the same bytes.
#[verifier::external_body]
pub(crate) fn bytes_eq(a: &Bytes, b: &Bytes) -> (same: bool)
    ensures
        same == (bytes_view(*a) == bytes_view(*b)),
{
    a == b
}

/// `Ord::cmp` on `Bytes`, which compares the two byte slices
/// lexicographically.
#[verifier::external_body]
pub(crate) fn bytes_cmp(a: &Bytes, b: &Bytes) -> (o: Ordering)
    ensures
        o is Less ==> lex_lt(bytes_view(*a), bytes_view(*b)),
        o is Equal ==> bytes_view(*a) == bytes_view(*b),
        o is Greater ==> lex_lt(bytes_view(*b), bytes_view(*a)),
{
    a.cmp(b)
}

} // verus!
