//! The canonical sequence builder: spans joined by the separator into one
//! buffer.

use bytes::Bytes;
use vstd::prelude::*;

use crate::buffer::bytes_mut_freeze;
use crate::buffer::bytes_mut_put_slice;
use crate::buffer::bytes_mut_put_u8;
use crate::buffer::bytes_mut_view;
use crate::buffer::bytes_mut_with_capacity;
use crate::buffer::bytes_view;
use crate::encode::encode;
use crate::encode::separator;
use crate::error::FingerprintError;
use crate::model::separator_byte;
use crate::model::spans_view;
use crate::model::strings_view;
use crate::model::texts_view;
use crate::model::Field;

verus! {

/// The spans in order, with `between` interposed between consecutive spans
/// and nothing before the first or behind the last.
pub open spec fn joined(spans: Seq<Seq<u8>>, between: u8) -> Seq<u8>
    decreases spans.len(),
{
    if spans.len() == 0 {
        Seq::empty()
    } else if spans.len() == 1 {
        spans[0]
    } else {
        joined(spans.drop_last(), between).push(between) + spans.last()
    }
}

/// The canonical buffer of a sequence of spans: the spans joined by the
/// separator.
pub open spec fn canonical(spans: Seq<Seq<u8>>) -> Seq<u8> {
    joined(spans, separator_byte())
}

/// No span holds the separator.
pub open spec fn separator_free(spans: Seq<Seq<u8>>) -> bool {
    forall|i: int, j: int|
        0 <= i < spans.len() && 0 <= j < spans[i].len() ==> spans[i][j] != separator_byte()
}

/// The canonical buffer tells sequences of spans apart, as long as no span
/// holds the separator: two such sequences with the same buffer are the same
/// sequence.
///
/// Nothing escapes a separator inside a span, so without that condition two
/// different sequences can share a buffer. The sequence of no span and the
/// sequence of one empty span share the empty buffer; hence both sequences
/// are taken to hold a span.
pub proof fn lemma_canonical_is_injective(a: Seq<Seq<u8>>, b: Seq<Seq<u8>>)
    requires
        separator_free(a),
        separator_free(b),
        a.len() > 0,
        b.len() > 0,
        canonical(a) == canonical(b),
    ensures
        a == b,
    decreases a.len() + b.len(),
{
    let zero = separator_byte();
    if a.len() == 1 && b.len() == 1 {
        assert(a =~= b);
    } else if a.len() == 1 {
        let front = canonical(b.drop_last());
        assert(canonical(b)[front.len() as int] == zero);
    } else if b.len() == 1 {
        let front = canonical(a.drop_last());
        assert(canonical(a)[front.len() as int] == zero);
    } else {
        let front_a = canonical(a.drop_last());
        let front_b = canonical(b.drop_last());
        let whole = canonical(a);
        assert(whole == front_a.push(zero) + a.last());
        assert(whole == front_b.push(zero) + b.last());
        if front_a.len() < front_b.len() {
            assert(whole[front_b.len() as int] == zero);
            assert(whole[front_b.len() as int] == a.last()[front_b.len() - front_a.len() - 1]);
        } else if front_b.len() < front_a.len() {
            assert(whole[front_a.len() as int] == zero);
            assert(whole[front_a.len() as int] == b.last()[front_a.len() - front_b.len() - 1]);
        }
        assert(front_a =~= whole.take(front_a.len() as int));
        assert(front_b =~= whole.take(front_b.len() as int));
        assert(a.last() =~= whole.skip(front_a.len() as int + 1));
        assert(b.last() =~= whole.skip(front_b.len() as int + 1));
        assert(separator_free(a.drop_last())) by {
            let shorter = a.drop_last();
            assert forall|i: int, j: int|
                0 <= i < shorter.len() && 0 <= j < shorter[i].len() implies shorter[i][j]
                != zero by {
                assert(shorter[i] == a[i]);
            }
        }
        assert(separator_free(b.drop_last())) by {
            let shorter = b.drop_last();
            assert forall|i: int, j: int|
                0 <= i < shorter.len() && 0 <= j < shorter[i].len() implies shorter[i][j]
                != zero by {
                assert(shorter[i] == b[i]);
            }
        }
        lemma_canonical_is_injective(a.drop_last(), b.drop_last());
        assert(a =~= a.drop_last().push(a.last()));
        assert(b =~= b.drop_last().push(b.last()));
    }
}

/// The values of a sequence without nulls.
pub open spec fn present(values: Seq<Field>) -> Seq<Seq<u8>> {
    Seq::new(values.len(), |i: int| values[i].unwrap())
}

/// Joins spans into one buffer, with `between` interposed between consecutive
/// spans.
pub fn join_spans(spans: &Vec<Bytes>, between: u8) -> (buffer: Bytes)
    ensures
        bytes_view(buffer) == joined(spans_view(spans@), between),
{
    let mut buf = bytes_mut_with_capacity(0);
    for i in 0..spans.len()
        invariant
            bytes_mut_view(buf) == joined(spans_view(spans@.take(i as int)), between),
    {
        let ghost done = spans_view(spans@.take(i + 1));
        proof {
            assert(done.drop_last() =~= spans_view(spans@.take(i as int)));
            assert(done.last() == bytes_view(spans@[i as int]));
        }
        if i > 0 {
            bytes_mut_put_u8(&mut buf, between);
        }
        bytes_mut_put_slice(&mut buf, &spans[i]);
        proof {
            if i == 0 {
                assert(bytes_mut_view(buf) =~= done[0]);
            }
        }
    }
    proof {
        assert(spans@.take(spans@.len() as int) =~= spans@);
    }
    bytes_mut_freeze(buf)
}

/// Builds the canonical buffer of a sequence of spans: the spans in the given
/// order, separated by the zero byte. No span gives an empty buffer.
pub fn build(spans: &Vec<Bytes>) -> (buffer: Bytes)
    ensures
        bytes_view(buffer) == canonical(spans_view(spans@)),
{
    join_spans(spans, separator())
}

/// Encodes each string and hands the encodings out in the same order.
pub fn encode_all(values: Vec<String>) -> (spans: Vec<Bytes>)
    ensures
        spans_view(spans@) == strings_view(values@),
{
    let mut spans: Vec<Bytes> = Vec::new();
    for value in it: values
        invariant
            it.seq() == values@,
            spans_view(spans@) == strings_view(values@.take(it.index() as int)),
    {
        let ghost n = it.index() as int;
        let ghost before = spans_view(spans@);
        let span = encode(value);
        spans.push(span);
        proof {
            assert(spans_view(spans@) =~= before.push(bytes_view(span)));
            assert(strings_view(values@.take(n + 1)) =~= strings_view(values@.take(n)).push(
                bytes_view(span),
            ));
        }
    }
    proof {
        assert(values@.take(values@.len() as int) =~= values@);
    }
    spans
}

/// The canonical buffer of a sequence of strings in the order given: no
/// sorting and no removal of repeats.
pub fn id_iter_to_bytes(values: Vec<String>) -> (buffer: Bytes)
    ensures
        bytes_view(buffer) == canonical(strings_view(values@)),
{
    let spans = encode_all(values);
    build(&spans)
}

/// Hands out the strings of a sequence without nulls, and rejects a sequence
/// that holds a null.
pub fn deny_null(values: Vec<Option<String>>) -> (result: Result<Vec<String>, FingerprintError>)
    ensures
        texts_view(values@).contains(None) ==> result == Err::<Vec<String>, FingerprintError>(
            FingerprintError::NullValue,
        ),
        !texts_view(values@).contains(None) ==> result is Ok && strings_view(result.unwrap()@)
            == present(texts_view(values@)),
{
    let mut strings: Vec<String> = Vec::new();
    for value in it: values
        invariant
            it.seq() == values@,
            !texts_view(values@.take(it.index() as int)).contains(None),
            strings_view(strings@) == present(texts_view(values@.take(it.index() as int))),
    {
        let ghost n = it.index() as int;
        let ghost before = strings_view(strings@);
        match value {
            Some(text) => {
                strings.push(text);
                proof {
                    let shorter = texts_view(values@.take(n));
                    let longer = texts_view(values@.take(n + 1));
                    assert(longer =~= shorter.push(texts_view(values@)[n]));
                    assert(strings_view(strings@) =~= before.push(longer[n].unwrap()));
                    assert(present(longer) =~= present(shorter).push(longer[n].unwrap()));
                    assert forall|i: int| 0 <= i < longer.len() implies longer[i] != None::<
                        Seq<u8>,
                    > by {
                        if i < n {
                            assert(shorter.contains(shorter[i]));
                        }
                    }
                }
            },
            None => {
                proof {
                    assert(texts_view(values@)[n] == None::<Seq<u8>>);
                }
                return Err(FingerprintError::NullValue);
            },
        }
    }
    proof {
        assert(values@.take(values@.len() as int) =~= values@);
    }
    Ok(strings)
}

/// The canonical buffer of a sequence of strings, none of which may be null.
pub fn ids_to_bytes(values: Vec<Option<String>>) -> (result: Result<Bytes, FingerprintError>)
    ensures
        texts_view(values@).contains(None) ==> result == Err::<Bytes, FingerprintError>(
            FingerprintError::NullValue,
        ),
        !texts_view(values@).contains(None) ==> result is Ok && bytes_view(result.unwrap())
            == canonical(present(texts_view(values@))),
{
    match deny_null(values) {
        Ok(strings) => Ok(id_iter_to_bytes(strings)),
        Err(e) => Err(e),
    }
}

} // verus!
