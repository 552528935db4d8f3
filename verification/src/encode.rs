//! The byte encoder: a string as its bytes, the separator, and a key joined to
//! its value.

use bytes::Bytes;
use vstd::prelude::*;
use vstd::utf8::encode_utf8;

use crate::buffer::bytes_from_string;
use crate::buffer::bytes_len;
use crate::buffer::bytes_mut_freeze;
use crate::buffer::bytes_mut_put_slice;
use crate::buffer::bytes_mut_put_u8;
use crate::buffer::bytes_mut_view;
use crate::buffer::bytes_mut_with_capacity;
use crate::buffer::bytes_view;
use crate::model::separator_byte;

verus! {

/// A key and a value joined by the separator.
pub open spec fn join_spec(key: Seq<u8>, value: Seq<u8>) -> Seq<u8> {
    key.push(separator_byte()) + value
}

/// Encoding is lossless: two strings with the same encoding are the same
/// string.
pub proof fn lemma_encode_is_injective(a: Seq<char>, b: Seq<char>)
    requires
        encode_utf8(a) == encode_utf8(b),
    ensures
        a == b,
{
    vstd::utf8::encode_utf8_decode_utf8(a);
    vstd::utf8::encode_utf8_decode_utf8(b);
}

/// The separator: a single zero byte.
pub fn separator() -> (b: u8)
    ensures
        b == separator_byte(),
{
    0u8
}

/// Encodes a string as its raw UTF-8 bytes, without escaping.
pub fn encode(value: String) -> (b: Bytes)
    ensures
        bytes_view(b) == encode_utf8(value@),
{
    bytes_from_string(value)
}

/// The room to reserve for two spans and a separator, or nothing where that
/// sum is more than a buffer can hold.
fn joined_capacity(a: usize, b: usize) -> (n: usize)
    ensures
        n <= isize::MAX,
        a + b + 1 <= isize::MAX ==> n == a + b + 1,
{
    let limit: usize = isize::MAX as usize;
    if a < limit && b < limit - a {
        a + b + 1
    } else {
        0
    }
}

/// Joins a key and a value: the key's bytes, the separator, the value's bytes.
pub fn join_tuple(a: Bytes, b: Bytes) -> (joined: Bytes)
    ensures
        bytes_view(joined) == join_spec(bytes_view(a), bytes_view(b)),
{
    let mut buf = bytes_mut_with_capacity(joined_capacity(bytes_len(&a), bytes_len(&b)));
    bytes_mut_put_slice(&mut buf, &a);
    bytes_mut_put_u8(&mut buf, separator());
    bytes_mut_put_slice(&mut buf, &b);
    assert(bytes_mut_view(buf) =~= join_spec(bytes_view(a), bytes_view(b)));
    bytes_mut_freeze(buf)
}

} // verus!
