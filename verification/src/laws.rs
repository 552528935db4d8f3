//! What holds of checksums whatever the input: they do not depend on the
//! order between pairs of different keys, nor on a pair that is given twice.
//!
//! The laws have a limit, which their conditions state. Pairs are sorted by
//! key alone and only neighbours are compared, so two different pairs with one
//! key stay in the order in which they came, and a repeat that is parted from
//! its twin by another pair of the same key is not found.

use vstd::prelude::*;

use crate::fingerprint::fingerprint128;
use crate::fingerprint::fingerprint64;
use crate::model::Field;
use crate::model::Pair;
use crate::normalize::dedup_adjacent;
use crate::normalize::normalized_bytes;
use crate::normalize::normalized_spans;
use crate::normalize::pairs_of;
use crate::normalize::policy_span;
use crate::normalize::policy_spans;
use crate::normalize::sort_by_key;
use crate::normalize::NullPolicy;
use crate::order::key_lt;
use crate::sorting::insert_position;
use crate::sorting::lemma_insert_position;
use crate::sorting::lemma_key_trichotomy;
use crate::sorting::lemma_sort_is_permutation;
use crate::sorting::lemma_sort_is_sorted;
use crate::sorting::lemma_sort_is_stable;
use crate::sorting::sorted_by_key;
use crate::sorting::with_key;

verus! {

/// `p` is the last of the pairs that have its key.
pub open spec fn repeats_last_of_key(pairs: Seq<Pair>, p: Pair) -> bool {
    with_key(pairs, p.0).len() > 0 && with_key(pairs, p.0).last() == p
}

/// The index of the last pair whose key is `key`, or -1 if there is none.
spec fn last_index_with_key(pairs: Seq<Pair>, key: Field) -> int
    decreases pairs.len(),
{
    if pairs.len() == 0 {
        -1
    } else if pairs.last().0 == key {
        pairs.len() - 1
    } else {
        last_index_with_key(pairs.drop_last(), key)
    }
}

/// The last index with a key is where the last pair of that key stands, and
/// no pair behind it has the key.
proof fn lemma_last_index_with_key(pairs: Seq<Pair>, key: Field)
    ensures
        -1 <= last_index_with_key(pairs, key) < pairs.len(),
        last_index_with_key(pairs, key) >= 0 <==> with_key(pairs, key).len() > 0,
        last_index_with_key(pairs, key) >= 0 ==> pairs[last_index_with_key(pairs, key)]
            == with_key(pairs, key).last() && pairs[last_index_with_key(pairs, key)].0 == key,
        forall|i: int| last_index_with_key(pairs, key) < i < pairs.len() ==> pairs[i].0 != key,
    decreases pairs.len(),
{
    if pairs.len() > 0 {
        let shorter = pairs.drop_last();
        lemma_last_index_with_key(shorter, key);
        if pairs.last().0 != key {
            assert forall|i: int| last_index_with_key(pairs, key) < i < pairs.len() implies pairs[i].0
                != key by {
                if i < shorter.len() {
                    assert(pairs[i] == shorter[i]);
                }
            }
            if last_index_with_key(pairs, key) >= 0 {
                assert(pairs[last_index_with_key(pairs, key)] == shorter[last_index_with_key(
                    shorter,
                    key,
                )]);
            }
        }
    }
}

/// In a sorted sequence, a pair is put in straight behind the last pair that
/// has its key.
proof fn lemma_insert_behind_last_of_key(sorted: Seq<Pair>, p: Pair)
    requires
        sorted_by_key(sorted),
        with_key(sorted, p.0).len() > 0,
    ensures
        insert_position(sorted, p) > 0,
        sorted[insert_position(sorted, p) - 1] == with_key(sorted, p.0).last(),
{
    lemma_insert_position(sorted, p);
    lemma_last_index_with_key(sorted, p.0);
    let pos = insert_position(sorted, p);
    let m = last_index_with_key(sorted, p.0);
    lemma_key_trichotomy(p, sorted[m]);
    if pos <= m {
        assert(key_lt(p, sorted[m]));
    }
    let before = sorted[pos - 1];
    if pos - 1 > m {
        assert(!key_lt(before, sorted[m]));
        lemma_key_trichotomy(before, sorted[m]);
        lemma_key_trichotomy(before, p);
        lemma_key_trichotomy(p, sorted[m]);
        if key_lt(sorted[m], before) {
            assert(key_lt(p, before)) by {
                assert(p.0 == sorted[m].0);
            }
        }
        assert(before.0 == p.0);
    }
}

/// Putting in a pair that the policy drops, at a place where it parts no two
/// equal neighbours and does not repeat the pair behind it, changes no span.
proof fn lemma_dropped_pair_changes_nothing(
    pairs: Seq<Pair>,
    pos: int,
    p: Pair,
    policy: NullPolicy,
)
    requires
        0 <= pos <= pairs.len(),
        policy_span(policy, p) is None,
        pos < pairs.len() ==> pairs[pos] != p,
        0 < pos < pairs.len() ==> pairs[pos - 1] != pairs[pos],
    ensures
        policy_spans(policy, dedup_adjacent(pairs.insert(pos, p))) == policy_spans(
            policy,
            dedup_adjacent(pairs),
        ),
    decreases pairs.len(),
{
    let longer = pairs.insert(pos, p);
    if pos == pairs.len() {
        assert(longer.drop_last() =~= pairs);
        assert(longer.last() == p);
        let kept = dedup_adjacent(pairs);
        assert(kept.push(p).drop_last() =~= kept);
    } else {
        let shorter = pairs.drop_last();
        assert(longer.last() == pairs.last());
        assert(longer.drop_last() =~= shorter.insert(pos, p));
        lemma_dropped_pair_changes_nothing(shorter, pos, p, policy);
        let with = dedup_adjacent(shorter.insert(pos, p));
        let without = dedup_adjacent(shorter);
        assert(with.push(pairs.last()).drop_last() =~= with);
        assert(without.push(pairs.last()).drop_last() =~= without);
        if pos < pairs.len() - 1 {
            assert(longer[longer.len() - 2] == pairs[pairs.len() - 2]);
        } else {
            assert(longer[longer.len() - 2] == p);
        }
    }
}

/// Putting a pair in straight behind an equal pair changes nothing once
/// repeats are dropped.
proof fn lemma_repeat_is_dropped(pairs: Seq<Pair>, pos: int, p: Pair)
    requires
        0 < pos <= pairs.len(),
        pairs[pos - 1] == p,
    ensures
        dedup_adjacent(pairs.insert(pos, p)) == dedup_adjacent(pairs),
    decreases pairs.len(),
{
    let longer = pairs.insert(pos, p);
    if pos == pairs.len() {
        assert(longer.drop_last() =~= pairs);
        assert(longer[longer.len() - 2] == pairs[pos - 1]);
    } else {
        let shorter = pairs.drop_last();
        assert(longer.last() == pairs.last());
        assert(longer.drop_last() =~= shorter.insert(pos, p));
        lemma_repeat_is_dropped(shorter, pos, p);
        if pos < pairs.len() - 1 {
            assert(longer[longer.len() - 2] == pairs[pairs.len() - 2]);
        } else {
            assert(longer[longer.len() - 2] == p);
            assert(pairs[pairs.len() - 2] == p);
        }
    }
}

/// Two more values at the end of an even sequence are one more pair.
pub proof fn lemma_pairs_of_push(values: Seq<Field>, key: Field, value: Field)
    requires
        values.len() % 2 == 0,
    ensures
        pairs_of(values.push(key).push(value)) == pairs_of(values).push((key, value)),
{
    let longer = values.push(key).push(value);
    let n: int = values.len() as int / 2;
    assert(values.len() == 2 * n);
    assert forall|i: int| 0 <= i < n implies pairs_of(longer)[i] == pairs_of(values)[i] by {
        assert(longer[2 * i] == values[2 * i]);
        assert(longer[2 * i + 1] == values[2 * i + 1]);
    }
    assert(longer[2 * n] == key);
    assert(longer[2 * n + 1] == value);
    assert(pairs_of(longer) =~= pairs_of(values).push((key, value)));
}

/// Duplicate insensitivity. A pair given once more at the end changes neither
/// the canonical buffer nor a checksum, if it repeats the last pair that has
/// its key, or if the policy drops it.
///
/// A repeat of an earlier pair is not found where a different pair with the
/// same key came in between: the two are no neighbours once sorted.
pub proof fn lemma_duplicate_insensitivity(
    values: Seq<Field>,
    key: Field,
    value: Field,
    policy: NullPolicy,
)
    requires
        values.len() % 2 == 0,
        repeats_last_of_key(pairs_of(values), (key, value)) || policy_span(policy, (key, value))
            is None,
    ensures
        normalized_spans(values.push(key).push(value), policy) == normalized_spans(values, policy),
        normalized_bytes(values.push(key).push(value), policy) == normalized_bytes(values, policy),
        fingerprint64(normalized_bytes(values.push(key).push(value), policy)) == fingerprint64(
            normalized_bytes(values, policy),
        ),
        fingerprint128(normalized_bytes(values.push(key).push(value), policy)) == fingerprint128(
            normalized_bytes(values, policy),
        ),
{
    let p = (key, value);
    let pairs = pairs_of(values);
    let sorted = sort_by_key(pairs);
    let pos = insert_position(sorted, p);
    lemma_pairs_of_push(values, key, value);
    assert(pairs.push(p).drop_last() =~= pairs);
    lemma_insert_position(sorted, p);
    assert(sort_by_key(pairs.push(p)) == sorted.insert(pos, p));
    if repeats_last_of_key(pairs, p) {
        lemma_sort_is_sorted(pairs);
        lemma_sort_is_stable(pairs, key);
        lemma_insert_behind_last_of_key(sorted, p);
        lemma_repeat_is_dropped(sorted, pos, p);
    } else {
        if pos < sorted.len() {
            lemma_key_trichotomy(p, sorted[pos]);
        }
        lemma_dropped_pair_changes_nothing(sorted, pos, p, policy);
    }
}

/// Any two of the pairs that have the same key, and that key is not null,
/// are the same pair.
pub open spec fn keys_determine_pairs(pairs: Seq<Pair>) -> bool {
    forall|x: Pair, y: Pair|
        #![trigger pairs.contains(x), pairs.contains(y)]
        pairs.contains(x) && pairs.contains(y) && x.0 is Some && x.0 == y.0 ==> x == y
}

/// The number of pairs in front of the null keys of a sorted sequence.
spec fn keyed_len(sorted: Seq<Pair>) -> int
    decreases sorted.len(),
{
    if sorted.len() == 0 {
        0
    } else if sorted.last().0 is None {
        keyed_len(sorted.drop_last())
    } else {
        sorted.len() as int
    }
}

/// A sorted sequence has its null keys at the end.
proof fn lemma_keyed_len(sorted: Seq<Pair>)
    requires
        sorted_by_key(sorted),
    ensures
        0 <= keyed_len(sorted) <= sorted.len(),
        forall|i: int| 0 <= i < keyed_len(sorted) ==> sorted[i].0 is Some,
        forall|i: int| keyed_len(sorted) <= i < sorted.len() ==> sorted[i].0 is None,
    decreases sorted.len(),
{
    if sorted.len() > 0 {
        let shorter = sorted.drop_last();
        assert(sorted_by_key(shorter)) by {
            assert forall|i: int, j: int| 0 <= i < j < shorter.len() implies !key_lt(
                shorter[j],
                shorter[i],
            ) by {
                assert(shorter[i] == sorted[i] && shorter[j] == sorted[j]);
            }
        }
        lemma_keyed_len(shorter);
        if sorted.last().0 is None {
            assert forall|i: int| 0 <= i < keyed_len(sorted) implies sorted[i].0 is Some by {
                assert(sorted[i] == shorter[i]);
            }
            assert forall|i: int| keyed_len(sorted) <= i < sorted.len() implies sorted[i].0
                is None by {
                if i < shorter.len() {
                    assert(sorted[i] == shorter[i]);
                }
            }
        } else {
            assert forall|i: int| 0 <= i < sorted.len() implies sorted[i].0 is Some by {
                if i < sorted.len() - 1 {
                    assert(!key_lt(sorted.last(), sorted[i]));
                }
            }
        }
    }
}

/// The pairs behind `keyed` all have null keys, so they add no span.
proof fn lemma_null_keys_add_nothing(pairs: Seq<Pair>, keyed: int, policy: NullPolicy)
    requires
        0 <= keyed <= pairs.len(),
        forall|i: int| keyed <= i < pairs.len() ==> pairs[i].0 is None,
    ensures
        policy_spans(policy, dedup_adjacent(pairs)) == policy_spans(
            policy,
            dedup_adjacent(pairs.take(keyed)),
        ),
    decreases pairs.len() - keyed,
{
    if keyed == pairs.len() {
        assert(pairs.take(keyed) =~= pairs);
    } else {
        let shorter = pairs.drop_last();
        assert(pairs.last().0 is None);
        assert forall|i: int| keyed <= i < shorter.len() implies shorter[i].0 is None by {
            assert(shorter[i] == pairs[i]);
        }
        lemma_null_keys_add_nothing(shorter, keyed, policy);
        assert(shorter.take(keyed) =~= pairs.take(keyed));
        let kept = dedup_adjacent(shorter);
        assert(kept.push(pairs.last()).drop_last() =~= kept);
    }
}

/// Two sorted sequences with the same pairs, whose keys are not null and
/// tell the pairs apart, are the same sequence.
proof fn lemma_sorted_is_unique(a: Seq<Pair>, b: Seq<Pair>)
    requires
        sorted_by_key(a),
        sorted_by_key(b),
        a.to_multiset() == b.to_multiset(),
        keys_determine_pairs(a),
        forall|i: int| 0 <= i < a.len() ==> a[i].0 is Some,
    ensures
        a == b,
    decreases a.len(),
{
    vstd::seq_lib::to_multiset_len(a);
    vstd::seq_lib::to_multiset_len(b);
    if a.len() == 0 {
        assert(a =~= b);
    } else {
        let x = a.last();
        let y = b.last();
        assert(a.contains(x));
        assert(b.contains(y));
        vstd::seq_lib::to_multiset_contains(a, x);
        vstd::seq_lib::to_multiset_contains(b, x);
        vstd::seq_lib::to_multiset_contains(a, y);
        vstd::seq_lib::to_multiset_contains(b, y);
        let i = choose|i: int| 0 <= i < a.len() && a[i] == y;
        let j = choose|j: int| 0 <= j < b.len() && b[j] == x;
        assert(!key_lt(x, y)) by {
            if i < a.len() - 1 {
                assert(!key_lt(a[a.len() - 1], a[i]));
            } else {
                lemma_key_trichotomy(x, y);
            }
        }
        assert(!key_lt(y, x)) by {
            if j < b.len() - 1 {
                assert(!key_lt(b[b.len() - 1], b[j]));
            } else {
                lemma_key_trichotomy(x, y);
            }
        }
        lemma_key_trichotomy(x, y);
        assert(x == y);
        let shorter_a = a.drop_last();
        let shorter_b = b.drop_last();
        assert(a.remove(a.len() - 1) =~= shorter_a);
        assert(b.remove(b.len() - 1) =~= shorter_b);
        vstd::seq_lib::to_multiset_remove(a, a.len() - 1);
        vstd::seq_lib::to_multiset_remove(b, b.len() - 1);
        assert(sorted_by_key(shorter_a)) by {
            assert forall|i: int, j: int| 0 <= i < j < shorter_a.len() implies !key_lt(
                shorter_a[j],
                shorter_a[i],
            ) by {
                assert(shorter_a[i] == a[i] && shorter_a[j] == a[j]);
            }
        }
        assert(sorted_by_key(shorter_b)) by {
            assert forall|i: int, j: int| 0 <= i < j < shorter_b.len() implies !key_lt(
                shorter_b[j],
                shorter_b[i],
            ) by {
                assert(shorter_b[i] == b[i] && shorter_b[j] == b[j]);
            }
        }
        assert(keys_determine_pairs(shorter_a)) by {
            assert forall|x: Pair, y: Pair|
                shorter_a.contains(x) && shorter_a.contains(y) && x.0 is Some && x.0
                    == y.0 implies x == y by {
                let i = choose|i: int| 0 <= i < shorter_a.len() && shorter_a[i] == x;
                let j = choose|j: int| 0 <= j < shorter_a.len() && shorter_a[j] == y;
                assert(a[i] == x && a[j] == y);
                assert(a.contains(x) && a.contains(y));
            }
        }
        assert forall|i: int| 0 <= i < shorter_a.len() implies shorter_a[i].0 is Some by {
            assert(shorter_a[i] == a[i]);
        }
        lemma_sorted_is_unique(shorter_a, shorter_b);
        assert(a =~= shorter_a.push(x));
        assert(b =~= shorter_b.push(y));
    }
}

/// The keyed front of a sorted sequence holds every pair with a key as often
/// as the whole sequence does, and no pair without a key.
proof fn lemma_keyed_front_counts(sorted: Seq<Pair>, x: Pair)
    requires
        sorted_by_key(sorted),
    ensures
        sorted.take(keyed_len(sorted)).to_multiset().count(x) == if x.0 is Some {
            sorted.to_multiset().count(x)
        } else {
            0
        },
{
    lemma_keyed_len(sorted);
    let k = keyed_len(sorted);
    let front = sorted.take(k);
    let back = sorted.skip(k);
    assert(front + back =~= sorted);
    vstd::seq_lib::lemma_multiset_commutative(front, back);
    vstd::seq_lib::to_multiset_contains(front, x);
    vstd::seq_lib::to_multiset_contains(back, x);
    if x.0 is Some {
        if back.contains(x) {
            let i = choose|i: int| 0 <= i < back.len() && back[i] == x;
            assert(back[i] == sorted[k + i]);
        }
    } else {
        if front.contains(x) {
            let i = choose|i: int| 0 <= i < front.len() && front[i] == x;
            assert(front[i] == sorted[i]);
        }
    }
}

/// Order independence. Two even sequences whose pairs are the same up to
/// their order have the same canonical buffer and the same checksums, if the
/// keys tell the pairs apart: no two different pairs have the same key,
/// unless that key is null.
///
/// Different pairs with one key stay in the order in which they came, so
/// exchanging two of them changes the buffer.
pub proof fn lemma_order_independence(a: Seq<Field>, b: Seq<Field>, policy: NullPolicy)
    requires
        a.len() % 2 == 0,
        b.len() % 2 == 0,
        pairs_of(a).to_multiset() == pairs_of(b).to_multiset(),
        keys_determine_pairs(pairs_of(a)),
    ensures
        normalized_spans(a, policy) == normalized_spans(b, policy),
        normalized_bytes(a, policy) == normalized_bytes(b, policy),
        fingerprint64(normalized_bytes(a, policy)) == fingerprint64(normalized_bytes(b, policy)),
        fingerprint128(normalized_bytes(a, policy)) == fingerprint128(normalized_bytes(b, policy)),
{
    let pairs_a = pairs_of(a);
    let pairs_b = pairs_of(b);
    let sorted_a = sort_by_key(pairs_a);
    let sorted_b = sort_by_key(pairs_b);
    lemma_sort_is_sorted(pairs_a);
    lemma_sort_is_sorted(pairs_b);
    lemma_sort_is_permutation(pairs_a);
    lemma_sort_is_permutation(pairs_b);
    lemma_keyed_len(sorted_a);
    lemma_keyed_len(sorted_b);
    let front_a = sorted_a.take(keyed_len(sorted_a));
    let front_b = sorted_b.take(keyed_len(sorted_b));
    assert forall|x: Pair| front_a.to_multiset().count(x) == front_b.to_multiset().count(x) by {
        lemma_keyed_front_counts(sorted_a, x);
        lemma_keyed_front_counts(sorted_b, x);
    }
    assert(front_a.to_multiset() =~= front_b.to_multiset());
    assert(keys_determine_pairs(front_a)) by {
        assert forall|x: Pair, y: Pair|
            front_a.contains(x) && front_a.contains(y) && x.0 is Some && x.0 == y.0 implies x
            == y by {
            let i = choose|i: int| 0 <= i < front_a.len() && front_a[i] == x;
            let j = choose|j: int| 0 <= j < front_a.len() && front_a[j] == y;
            assert(sorted_a[i] == x && sorted_a[j] == y);
            assert(sorted_a.contains(x) && sorted_a.contains(y));
            vstd::seq_lib::to_multiset_contains(sorted_a, x);
            vstd::seq_lib::to_multiset_contains(sorted_a, y);
            vstd::seq_lib::to_multiset_contains(pairs_a, x);
            vstd::seq_lib::to_multiset_contains(pairs_a, y);
        }
    }
    assert(sorted_by_key(front_a)) by {
        assert forall|i: int, j: int| 0 <= i < j < front_a.len() implies !key_lt(
            front_a[j],
            front_a[i],
        ) by {
            assert(front_a[i] == sorted_a[i] && front_a[j] == sorted_a[j]);
        }
    }
    assert(sorted_by_key(front_b)) by {
        assert forall|i: int, j: int| 0 <= i < j < front_b.len() implies !key_lt(
            front_b[j],
            front_b[i],
        ) by {
            assert(front_b[i] == sorted_b[i] && front_b[j] == sorted_b[j]);
        }
    }
    assert forall|i: int| 0 <= i < front_a.len() implies front_a[i].0 is Some by {
        assert(front_a[i] == sorted_a[i]);
    }
    lemma_sorted_is_unique(front_a, front_b);
    lemma_null_keys_add_nothing(sorted_a, keyed_len(sorted_a), policy);
    lemma_null_keys_add_nothing(sorted_b, keyed_len(sorted_b), policy);
}

/// Pairs behind `front` that do not have the key `key` add nothing to the
/// pairs of that key.
proof fn lemma_with_key_of_front(pairs: Seq<Pair>, front: int, key: Field)
    requires
        0 <= front <= pairs.len(),
        forall|i: int| front <= i < pairs.len() ==> pairs[i].0 != key,
    ensures
        with_key(pairs.take(front), key) == with_key(pairs, key),
    decreases pairs.len() - front,
{
    if front == pairs.len() {
        assert(pairs.take(front) =~= pairs);
    } else {
        let shorter = pairs.drop_last();
        assert forall|i: int| front <= i < shorter.len() implies shorter[i].0 != key by {
            assert(shorter[i] == pairs[i]);
        }
        lemma_with_key_of_front(shorter, front, key);
        assert(shorter.take(front) =~= pairs.take(front));
    }
}

/// Two sorted sequences that hold, for every key, the same pairs of that key
/// in the same order are the same sequence.
proof fn lemma_stable_sort_is_unique(a: Seq<Pair>, b: Seq<Pair>)
    requires
        sorted_by_key(a),
        sorted_by_key(b),
        forall|key: Field| with_key(a, key) == with_key(b, key),
    ensures
        a == b,
    decreases a.len() + b.len(),
{
    if a.len() == 0 && b.len() == 0 {
        assert(a =~= b);
    } else if a.len() == 0 {
        assert(with_key(a, b.last().0) == with_key(b, b.last().0));
    } else if b.len() == 0 {
        assert(with_key(a, a.last().0) == with_key(b, a.last().0));
    } else {
        let x = a.last();
        let y = b.last();
        assert(with_key(a, x.0) == with_key(b, x.0));
        assert(with_key(a, y.0) == with_key(b, y.0));
        assert(with_key(a, x.0).len() > 0 && with_key(a, x.0).last() == x);
        assert(with_key(b, y.0).len() > 0 && with_key(b, y.0).last() == y);
        lemma_last_index_with_key(a, y.0);
        lemma_last_index_with_key(b, x.0);
        let i = last_index_with_key(a, y.0);
        let j = last_index_with_key(b, x.0);
        lemma_key_trichotomy(x, y);
        assert(!key_lt(x, y)) by {
            assert(a[i].0 == y.0);
            if i < a.len() - 1 {
                assert(!key_lt(a[a.len() - 1], a[i]));
            }
        }
        assert(!key_lt(y, x)) by {
            assert(b[j].0 == x.0);
            if j < b.len() - 1 {
                assert(!key_lt(b[b.len() - 1], b[j]));
            }
        }
        assert(x.0 == y.0);
        assert(x == y);
        let shorter_a = a.drop_last();
        let shorter_b = b.drop_last();
        assert(sorted_by_key(shorter_a)) by {
            assert forall|i: int, j: int| 0 <= i < j < shorter_a.len() implies !key_lt(
                shorter_a[j],
                shorter_a[i],
            ) by {
                assert(shorter_a[i] == a[i] && shorter_a[j] == a[j]);
            }
        }
        assert(sorted_by_key(shorter_b)) by {
            assert forall|i: int, j: int| 0 <= i < j < shorter_b.len() implies !key_lt(
                shorter_b[j],
                shorter_b[i],
            ) by {
                assert(shorter_b[i] == b[i] && shorter_b[j] == b[j]);
            }
        }
        assert forall|key: Field| with_key(shorter_a, key) == with_key(shorter_b, key) by {
            assert(with_key(a, key) == with_key(b, key));
            if key == x.0 {
                assert(with_key(shorter_a, key) =~= with_key(a, key).drop_last());
                assert(with_key(shorter_b, key) =~= with_key(b, key).drop_last());
            }
        }
        lemma_stable_sort_is_unique(shorter_a, shorter_b);
        assert(a =~= shorter_a.push(x));
        assert(b =~= shorter_b.push(y));
    }
}

/// The order between pairs of different keys makes no difference. Two even
/// sequences that hold, for every key that is not null, the same pairs of
/// that key in the same order have the same canonical buffer and the same
/// checksums.
pub proof fn lemma_order_between_keys_is_immaterial(
    a: Seq<Field>,
    b: Seq<Field>,
    policy: NullPolicy,
)
    requires
        a.len() % 2 == 0,
        b.len() % 2 == 0,
        forall|key: Field| key is Some ==> with_key(pairs_of(a), key) == with_key(pairs_of(b), key),
    ensures
        normalized_spans(a, policy) == normalized_spans(b, policy),
        normalized_bytes(a, policy) == normalized_bytes(b, policy),
        fingerprint64(normalized_bytes(a, policy)) == fingerprint64(normalized_bytes(b, policy)),
        fingerprint128(normalized_bytes(a, policy)) == fingerprint128(normalized_bytes(b, policy)),
{
    let pairs_a = pairs_of(a);
    let pairs_b = pairs_of(b);
    let sorted_a = sort_by_key(pairs_a);
    let sorted_b = sort_by_key(pairs_b);
    lemma_sort_is_sorted(pairs_a);
    lemma_sort_is_sorted(pairs_b);
    lemma_keyed_len(sorted_a);
    lemma_keyed_len(sorted_b);
    let front_a = sorted_a.take(keyed_len(sorted_a));
    let front_b = sorted_b.take(keyed_len(sorted_b));
    assert(sorted_by_key(front_a)) by {
        assert forall|i: int, j: int| 0 <= i < j < front_a.len() implies !key_lt(
            front_a[j],
            front_a[i],
        ) by {
            assert(front_a[i] == sorted_a[i] && front_a[j] == sorted_a[j]);
        }
    }
    assert(sorted_by_key(front_b)) by {
        assert forall|i: int, j: int| 0 <= i < j < front_b.len() implies !key_lt(
            front_b[j],
            front_b[i],
        ) by {
            assert(front_b[i] == sorted_b[i] && front_b[j] == sorted_b[j]);
        }
    }
    assert forall|key: Field| with_key(front_a, key) == with_key(front_b, key) by {
        if key is Some {
            lemma_with_key_of_front(sorted_a, keyed_len(sorted_a), key);
            lemma_with_key_of_front(sorted_b, keyed_len(sorted_b), key);
            lemma_sort_is_stable(pairs_a, key);
            lemma_sort_is_stable(pairs_b, key);
            assert(with_key(pairs_a, key) == with_key(pairs_b, key));
        } else {
            assert forall|i: int| 0 <= i < front_a.len() implies front_a[i].0 != key by {
                assert(front_a[i] == sorted_a[i]);
            }
            assert forall|i: int| 0 <= i < front_b.len() implies front_b[i].0 != key by {
                assert(front_b[i] == sorted_b[i]);
            }
            lemma_with_key_of_front(front_a, 0, key);
            lemma_with_key_of_front(front_b, 0, key);
            assert(front_a.take(0) =~= front_b.take(0));
        }
    }
    lemma_stable_sort_is_unique(front_a, front_b);
    lemma_null_keys_add_nothing(sorted_a, keyed_len(sorted_a), policy);
    lemma_null_keys_add_nothing(sorted_b, keyed_len(sorted_b), policy);
}

} // verus!
