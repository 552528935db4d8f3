//! The mathematical model that the contracts of this crate are stated over.
//!
//! A value is an optional byte string, a pair is a key and a value, and a
//! string stands for its UTF-8 encoding.

use bytes::Bytes;
use vstd::prelude::*;
use vstd::utf8::encode_utf8;

use crate::buffer::bytes_view;

verus! {

/// A nullable byte string: `None` is the null value.
pub type Field = Option<Seq<u8>>;

/// A key and a value.
pub type Pair = (Option<Seq<u8>>, Option<Seq<u8>>);

/// The byte that separates the parts of a canonical buffer.
pub open spec fn separator_byte() -> u8 {
    0u8
}

/// What an optional buffer stands for.
pub open spec fn field_view(v: Option<Bytes>) -> Field {
    match v {
        Some(b) => Some(bytes_view(b)),
        None => None,
    }
}

/// What a pair of optional buffers stands for.
pub open spec fn pair_view(p: (Option<Bytes>, Option<Bytes>)) -> Pair {
    (field_view(p.0), field_view(p.1))
}

/// What a sequence of pairs of optional buffers stands for.
pub open spec fn pairs_view(v: Seq<(Option<Bytes>, Option<Bytes>)>) -> Seq<Pair> {
    Seq::new(v.len(), |i: int| pair_view(v[i]))
}

/// What a sequence of buffers stands for.
pub open spec fn spans_view(v: Seq<Bytes>) -> Seq<Seq<u8>> {
    Seq::new(v.len(), |i: int| bytes_view(v[i]))
}

/// What an optional string stands for: its UTF-8 encoding, or null.
pub open spec fn text_view(v: Option<String>) -> Field {
    match v {
        Some(s) => Some(encode_utf8(s@)),
        None => None,
    }
}

/// What a sequence of optional strings stands for.
pub open spec fn texts_view(v: Seq<Option<String>>) -> Seq<Field> {
    Seq::new(v.len(), |i: int| text_view(v[i]))
}

/// The UTF-8 encodings of a sequence of strings.
pub open spec fn strings_view(v: Seq<String>) -> Seq<Seq<u8>> {
    Seq::new(v.len(), |i: int| encode_utf8(v[i]@))
}

} // verus!
