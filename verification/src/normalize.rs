//! The pair normalizer: grouping a flat sequence into pairs, ordering them by
//! key, dropping repeated pairs, and applying a null policy.

use bytes::Bytes;
use vstd::prelude::*;

use crate::buffer::bytes_eq;
use crate::buffer::bytes_new;
use crate::buffer::bytes_view;
use crate::canonical::build;
use crate::canonical::canonical;
use crate::encode::encode;
use crate::encode::join_spec;
use crate::encode::join_tuple;
use crate::error::FingerprintError;
use crate::model::field_view;
use crate::model::pair_view;
use crate::model::pairs_view;
use crate::model::spans_view;
use crate::model::text_view;
use crate::model::texts_view;
use crate::model::Field;
use crate::model::Pair;
use crate::order::key_before;
use crate::order::key_lt;

verus! {

/// How a pair with a null in it enters the canonical buffer.
#[derive(Clone, Copy, Debug, PartialEq, Eq, Structural)]
pub enum NullPolicy {
    /// A pair with a null key or a null value is dropped.
    Strict,
    /// A pair with a null key is dropped; a null value counts as empty.
    KeepNullValues,
}

/// The span of a pair under the strict policy.
pub open spec fn strict_span(p: Pair) -> Field {
    match p {
        (Some(k), Some(v)) => Some(join_spec(k, v)),
        _ => None,
    }
}

/// The span of a pair under the policy that keeps null values.
pub open spec fn keep_null_span(p: Pair) -> Field {
    match p {
        (Some(k), Some(v)) => Some(join_spec(k, v)),
        (Some(k), None) => Some(join_spec(k, Seq::empty())),
        _ => None,
    }
}

/// The span that a pair contributes under `policy`, if any.
pub open spec fn policy_span(policy: NullPolicy, p: Pair) -> Field {
    match policy {
        NullPolicy::Strict => strict_span(p),
        NullPolicy::KeepNullValues => keep_null_span(p),
    }
}

/// The flat sequence grouped by consecutive twos. A last element without a
/// partner is left out.
pub open spec fn pairs_of(values: Seq<Field>) -> Seq<Pair> {
    Seq::new((values.len() / 2) as nat, |i: int| (values[2 * i], values[2 * i + 1]))
}

/// `sorted` with `p` put in behind every pair whose key does not sort after
/// the key of `p`.
pub open spec fn insert_by_key(sorted: Seq<Pair>, p: Pair) -> Seq<Pair>
    decreases sorted.len(),
{
    if sorted.len() == 0 {
        seq![p]
    } else if key_lt(p, sorted.last()) {
        insert_by_key(sorted.drop_last(), p).push(sorted.last())
    } else {
        sorted.push(p)
    }
}

/// The pairs in key order. Pairs with the same key keep the order in which
/// they came.
pub open spec fn sort_by_key(pairs: Seq<Pair>) -> Seq<Pair>
    decreases pairs.len(),
{
    if pairs.len() == 0 {
        Seq::empty()
    } else {
        insert_by_key(sort_by_key(pairs.drop_last()), pairs.last())
    }
}

/// The pairs without those that repeat the pair just before them.
pub open spec fn dedup_adjacent(pairs: Seq<Pair>) -> Seq<Pair>
    decreases pairs.len(),
{
    if pairs.len() == 0 {
        Seq::empty()
    } else if pairs.len() >= 2 && pairs[pairs.len() - 2] == pairs.last() {
        dedup_adjacent(pairs.drop_last())
    } else {
        dedup_adjacent(pairs.drop_last()).push(pairs.last())
    }
}

/// The spans that the pairs contribute under `policy`, in the order of the
/// pairs.
pub open spec fn policy_spans(policy: NullPolicy, pairs: Seq<Pair>) -> Seq<Seq<u8>>
    decreases pairs.len(),
{
    if pairs.len() == 0 {
        Seq::empty()
    } else {
        match policy_span(policy, pairs.last()) {
            Some(span) => policy_spans(policy, pairs.drop_last()).push(span),
            None => policy_spans(policy, pairs.drop_last()),
        }
    }
}

/// The spans of a flat sequence of keys and values: paired, sorted, without
/// repeats, and filtered by `policy`.
pub open spec fn normalized_spans(values: Seq<Field>, policy: NullPolicy) -> Seq<Seq<u8>> {
    policy_spans(policy, dedup_adjacent(sort_by_key(pairs_of(values))))
}

/// The canonical buffer of a flat sequence of keys and values under `policy`.
pub open spec fn normalized_bytes(values: Seq<Field>, policy: NullPolicy) -> Seq<u8> {
    canonical(normalized_spans(values, policy))
}

/// Joins a pair if neither its key nor its value is null.
pub fn filter_and_join_tuple(pair: (Option<Bytes>, Option<Bytes>)) -> (span: Option<Bytes>)
    ensures
        field_view(span) == strict_span(pair_view(pair)),
{
    if let (Some(a), Some(b)) = pair {
        Some(join_tuple(a, b))
    } else {
        None
    }
}

/// Joins a pair if its key is not null. A null value is joined as empty.
pub fn filter_and_join_tuple_keep_null_values(pair: (Option<Bytes>, Option<Bytes>)) -> (span:
    Option<Bytes>)
    ensures
        field_view(span) == keep_null_span(pair_view(pair)),
{
    match pair {
        (Some(a), Some(b)) => Some(join_tuple(a, b)),
        (Some(a), _) => Some(join_tuple(a, bytes_new())),
        _ => None,
    }
}

/// Sorts pairs by key. Pairs with the same key keep their order.
pub fn sort_pairs(pairs: Vec<(Option<Bytes>, Option<Bytes>)>) -> (sorted: Vec<
    (Option<Bytes>, Option<Bytes>),
>)
    ensures
        pairs_view(sorted@) == sort_by_key(pairs_view(pairs@)),
{
    let mut sorted: Vec<(Option<Bytes>, Option<Bytes>)> = Vec::new();
    for p in it: pairs
        invariant
            it.seq() == pairs@,
            pairs_view(sorted@) == sort_by_key(pairs_view(pairs@.take(it.index() as int))),
    {
        let ghost before = pairs_view(sorted@);
        let ghost new = pair_view(p);
        let mut j: usize = sorted.len();
        proof {
            assert(before.take(j as int) =~= before);
            assert(before.skip(j as int) =~= Seq::<Pair>::empty());
            assert(insert_by_key(before, new) =~= insert_by_key(before, new) + Seq::<
                Pair,
            >::empty());
        }
        while j > 0 && key_before(&p, &sorted[j - 1])
            invariant
                j <= sorted.len(),
                before == pairs_view(sorted@),
                new == pair_view(p),
                insert_by_key(before, new) == insert_by_key(before.take(j as int), new)
                    + before.skip(j as int),
            decreases j,
        {
            proof {
                let head = before.take(j as int);
                assert(head.last() == before[j - 1]);
                assert(head.drop_last() =~= before.take(j - 1));
                assert(insert_by_key(before.take(j - 1), new).push(before[j - 1]) + before.skip(
                    j as int,
                ) =~= insert_by_key(before.take(j - 1), new) + before.skip(j - 1));
            }
            j = j - 1;
        }
        proof {
            let head = before.take(j as int);
            if j > 0 {
                assert(head.last() == before[j - 1]);
            }
            assert(insert_by_key(head, new) =~= head.push(new));
            assert(head.push(new) + before.skip(j as int) =~= before.insert(j as int, new));
        }
        let ghost old_sorted = sorted@;
        sorted.insert(j, p);
        proof {
            assert(pairs_view(sorted@) =~= before.insert(j as int, new));
            let done = pairs_view(pairs@.take(it.index() + 1));
            assert(done.drop_last() =~= pairs_view(pairs@.take(it.index() as int)));
            assert(done.last() == new);
        }
    }
    proof {
        assert(pairs@.take(pairs@.len() as int) =~= pairs@);
    }
    sorted
}

/// Groups a flat sequence of optional strings into pairs of encoded keys and
/// values. A last element without a partner is left out.
pub fn pair_up(values: Vec<Option<String>>) -> (pairs: Vec<(Option<Bytes>, Option<Bytes>)>)
    ensures
        pairs_view(pairs@) == pairs_of(texts_view(values@)),
{
    let mut pairs: Vec<(Option<Bytes>, Option<Bytes>)> = Vec::new();
    let mut key: Option<Option<Bytes>> = None;
    for value in it: values
        invariant
            it.seq() == values@,
            pairs_view(pairs@) == pairs_of(texts_view(values@.take(it.index() as int))),
            it.index() % 2 == 0 ==> key is None,
            it.index() % 2 == 1 ==> key is Some && field_view(key.unwrap()) == text_view(
                values@[it.index() - 1],
            ),
    {
        let ghost n = it.index() as int;
        let field = match value {
            Some(text) => Some(encode(text)),
            None => None,
        };
        match key {
            None => {
                key = Some(field);
                proof {
                    let shorter = texts_view(values@.take(n));
                    let longer = texts_view(values@.take(n + 1));
                    assert forall|i: int| 0 <= i < n / 2 implies pairs_of(longer)[i] == pairs_of(
                        shorter,
                    )[i] by {
                        assert(longer[2 * i] == shorter[2 * i]);
                        assert(longer[2 * i + 1] == shorter[2 * i + 1]);
                    }
                    assert(pairs_of(longer) =~= pairs_of(shorter));
                }
            },
            Some(k) => {
                let ghost before = pairs_view(pairs@);
                pairs.push((k, field));
                key = None;
                proof {
                    let shorter = texts_view(values@.take(n));
                    let longer = texts_view(values@.take(n + 1));
                    let m = n / 2;
                    assert(n == 2 * m + 1);
                    assert(longer[2 * m] == text_view(values@[n - 1]));
                    assert(longer[2 * m + 1] == text_view(values@[n]));
                    assert(pairs_view(pairs@) =~= before.push((field_view(k), field_view(field))));
                    assert forall|i: int| 0 <= i < m implies pairs_of(longer)[i] == pairs_of(
                        shorter,
                    )[i] by {
                        assert(longer[2 * i] == shorter[2 * i]);
                        assert(longer[2 * i + 1] == shorter[2 * i + 1]);
                    }
                    assert(pairs_view(pairs@) =~= pairs_of(longer));
                }
            },
        }
    }
    proof {
        assert(values@.take(values@.len() as int) =~= values@);
    }
    pairs
}

/// Whether two optional buffers are both null or hold the same bytes.
fn field_eq(a: &Option<Bytes>, b: &Option<Bytes>) -> (same: bool)
    ensures
        same == (field_view(*a) == field_view(*b)),
{
    match (a, b) {
        (Some(x), Some(y)) => bytes_eq(x, y),
        (None, None) => true,
        _ => false,
    }
}

/// Whether two pairs have the same key and the same value.
pub fn pair_eq(a: &(Option<Bytes>, Option<Bytes>), b: &(Option<Bytes>, Option<Bytes>)) -> (same:
    bool)
    ensures
        same == (pair_view(*a) == pair_view(*b)),
{
    field_eq(&a.0, &b.0) && field_eq(&a.1, &b.1)
}

/// Drops every pair that repeats the pair just before it.
pub fn dedup_pairs(pairs: Vec<(Option<Bytes>, Option<Bytes>)>) -> (kept: Vec<
    (Option<Bytes>, Option<Bytes>),
>)
    ensures
        pairs_view(kept@) == dedup_adjacent(pairs_view(pairs@)),
{
    let mut kept: Vec<(Option<Bytes>, Option<Bytes>)> = Vec::new();
    for p in it: pairs
        invariant
            it.seq() == pairs@,
            pairs_view(kept@) == dedup_adjacent(pairs_view(pairs@.take(it.index() as int))),
            it.index() > 0 ==> kept@.len() > 0 && pair_view(kept@.last()) == pair_view(
                pairs@[it.index() - 1],
            ),
    {
        let ghost n = it.index() as int;
        let ghost done = pairs_view(pairs@.take(n + 1));
        proof {
            assert(done.drop_last() =~= pairs_view(pairs@.take(n)));
            assert(done.last() == pair_view(p));
            if n > 0 {
                assert(done[done.len() - 2] == pair_view(pairs@[n - 1]));
            }
        }
        let repeated = kept.len() > 0 && pair_eq(&kept[kept.len() - 1], &p);
        if !repeated {
            let ghost before = pairs_view(kept@);
            kept.push(p);
            proof {
                assert(pairs_view(kept@) =~= before.push(pair_view(p)));
            }
        }
    }
    proof {
        assert(pairs@.take(pairs@.len() as int) =~= pairs@);
    }
    kept
}

/// Turns each pair into its span under `policy`, leaving out the pairs that
/// the policy drops.
pub fn apply_policy(pairs: Vec<(Option<Bytes>, Option<Bytes>)>, policy: NullPolicy) -> (spans: Vec<
    Bytes,
>)
    ensures
        spans_view(spans@) == policy_spans(policy, pairs_view(pairs@)),
{
    let mut spans: Vec<Bytes> = Vec::new();
    for p in it: pairs
        invariant
            it.seq() == pairs@,
            spans_view(spans@) == policy_spans(
                policy,
                pairs_view(pairs@.take(it.index() as int)),
            ),
    {
        let ghost n = it.index() as int;
        let ghost done = pairs_view(pairs@.take(n + 1));
        proof {
            assert(done.drop_last() =~= pairs_view(pairs@.take(n)));
            assert(done.last() == pair_view(p));
        }
        let span = match policy {
            NullPolicy::Strict => filter_and_join_tuple(p),
            NullPolicy::KeepNullValues => filter_and_join_tuple_keep_null_values(p),
        };
        if let Some(joined) = span {
            let ghost before = spans_view(spans@);
            spans.push(joined);
            proof {
                assert(spans_view(spans@) =~= before.push(bytes_view(joined)));
            }
        }
    }
    proof {
        assert(pairs@.take(pairs@.len() as int) =~= pairs@);
    }
    spans
}

/// Normalizes a flat sequence of keys and values into the spans of its pairs:
/// sorted by key, without repeats, filtered by `policy`. A sequence of odd
/// length is rejected.
pub fn normalize_pairs(values: Vec<Option<String>>, policy: NullPolicy) -> (result: Result<
    Vec<Bytes>,
    FingerprintError,
>)
    ensures
        values@.len() % 2 != 0 ==> result == Err::<Vec<Bytes>, FingerprintError>(
            FingerprintError::InvalidArity,
        ),
        values@.len() % 2 == 0 ==> result is Ok && spans_view(result.unwrap()@)
            == normalized_spans(texts_view(values@), policy),
{
    if values.len() % 2 != 0 {
        return Err(FingerprintError::InvalidArity);
    }
    let pairs = pair_up(values);
    let sorted = sort_pairs(pairs);
    let kept = dedup_pairs(sorted);
    Ok(apply_policy(kept, policy))
}

/// The canonical buffer of a flat sequence of keys and values: the spans of
/// its normalized pairs, joined by the separator. A sequence of odd length is
/// rejected; nulls never are.
pub fn normalized_pairs_bytes(values: Vec<Option<String>>, policy: NullPolicy) -> (result: Result<
    Bytes,
    FingerprintError,
>)
    ensures
        values@.len() % 2 != 0 ==> result == Err::<Bytes, FingerprintError>(
            FingerprintError::InvalidArity,
        ),
        values@.len() % 2 == 0 ==> result is Ok && bytes_view(result.unwrap()) == normalized_bytes(
            texts_view(values@),
            policy,
        ),
{
    match normalize_pairs(values, policy) {
        Ok(spans) => Ok(build(&spans)),
        Err(e) => Err(e),
    }
}

} // verus!
