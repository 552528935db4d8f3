//! What the key order and the sort by key are: the order is a strict weak
//! order, and the sort is the stable sort.

use vstd::prelude::*;

use crate::model::Field;
use crate::model::Pair;
use crate::normalize::insert_by_key;
use crate::normalize::sort_by_key;
use crate::order::key_lt;
use crate::order::lemma_lex_trichotomy;
use crate::order::lex_lt;

verus! {

/// No pair further on sorts strictly before a pair further back.
pub open spec fn sorted_by_key(pairs: Seq<Pair>) -> bool {
    forall|i: int, j: int| 0 <= i < j < pairs.len() ==> !key_lt(pairs[j], pairs[i])
}

/// The pairs whose key is `key`, in their order.
pub open spec fn with_key(pairs: Seq<Pair>, key: Field) -> Seq<Pair>
    decreases pairs.len(),
{
    if pairs.len() == 0 {
        Seq::empty()
    } else if pairs.last().0 == key {
        with_key(pairs.drop_last(), key).push(pairs.last())
    } else {
        with_key(pairs.drop_last(), key)
    }
}

/// Where `p` goes into `sorted`: behind the last pair whose key does not sort
/// after the key of `p`.
pub open spec fn insert_position(sorted: Seq<Pair>, p: Pair) -> int
    decreases sorted.len(),
{
    if sorted.len() == 0 {
        0
    } else if key_lt(p, sorted.last()) {
        insert_position(sorted.drop_last(), p)
    } else {
        sorted.len() as int
    }
}

/// The lexicographic order is transitive.
pub proof fn lemma_lex_transitive(a: Seq<u8>, b: Seq<u8>, c: Seq<u8>)
    requires
        lex_lt(a, b),
        lex_lt(b, c),
    ensures
        lex_lt(a, c),
    decreases a.len(),
{
    if a.len() > 0 && a[0] == b[0] && b[0] == c[0] {
        lemma_lex_transitive(a.drop_first(), b.drop_first(), c.drop_first());
    }
}

/// The key order is a strict weak order: of two pairs exactly one holds, the
/// first sorts before the second, their keys are the same, or the second
/// sorts before the first.
pub proof fn lemma_key_trichotomy(a: Pair, b: Pair)
    ensures
        key_lt(a, b) || a.0 == b.0 || key_lt(b, a),
        !(key_lt(a, b) && a.0 == b.0),
        !(key_lt(b, a) && a.0 == b.0),
        !(key_lt(a, b) && key_lt(b, a)),
{
    if a.0 is Some && b.0 is Some {
        lemma_lex_trichotomy(a.0.unwrap(), b.0.unwrap());
    }
}

/// The key order is transitive.
pub proof fn lemma_key_transitive(a: Pair, b: Pair, c: Pair)
    requires
        key_lt(a, b),
        key_lt(b, c),
    ensures
        key_lt(a, c),
{
    if c.0 is Some {
        lemma_lex_transitive(a.0.unwrap(), b.0.unwrap(), c.0.unwrap());
    }
}

/// If `a` does not sort after `b` and `b` does not sort after `c`, then `a`
/// does not sort after `c`.
pub proof fn lemma_key_not_after_transitive(a: Pair, b: Pair, c: Pair)
    requires
        !key_lt(b, a),
        !key_lt(c, b),
    ensures
        !key_lt(c, a),
{
    lemma_key_trichotomy(a, b);
    lemma_key_trichotomy(b, c);
    lemma_key_trichotomy(a, c);
    if key_lt(c, a) {
        if key_lt(a, b) {
            lemma_key_transitive(c, a, b);
        } else {
            assert(a.0 == b.0);
        }
    }
}

/// Inserting by key is inserting at the insert position, and that position
/// lies behind every pair that `p` does not sort before and in front of every
/// pair that `p` sorts before.
pub proof fn lemma_insert_position(sorted: Seq<Pair>, p: Pair)
    ensures
        0 <= insert_position(sorted, p) <= sorted.len(),
        insert_by_key(sorted, p) == sorted.insert(insert_position(sorted, p), p),
        forall|i: int| insert_position(sorted, p) <= i < sorted.len() ==> key_lt(p, sorted[i]),
        insert_position(sorted, p) > 0 ==> !key_lt(p, sorted[insert_position(sorted, p) - 1]),
        sorted_by_key(sorted) ==> forall|i: int|
            0 <= i < insert_position(sorted, p) ==> !key_lt(p, sorted[i]),
    decreases sorted.len(),
{
    let pos = insert_position(sorted, p);
    if sorted.len() == 0 {
        assert(insert_by_key(sorted, p) =~= sorted.insert(pos, p));
    } else if key_lt(p, sorted.last()) {
        let shorter = sorted.drop_last();
        lemma_insert_position(shorter, p);
        assert(shorter.insert(pos, p).push(sorted.last()) =~= sorted.insert(pos, p));
        assert forall|i: int| pos <= i < sorted.len() implies key_lt(p, sorted[i]) by {
            if i < shorter.len() {
                assert(sorted[i] == shorter[i]);
            }
        }
        if pos > 0 {
            assert(sorted[pos - 1] == shorter[pos - 1]);
        }
        if sorted_by_key(sorted) {
            assert(sorted_by_key(shorter)) by {
                assert forall|i: int, j: int| 0 <= i < j < shorter.len() implies !key_lt(
                    shorter[j],
                    shorter[i],
                ) by {
                    assert(shorter[i] == sorted[i] && shorter[j] == sorted[j]);
                }
            }
            assert forall|i: int| 0 <= i < pos implies !key_lt(p, sorted[i]) by {
                assert(sorted[i] == shorter[i]);
            }
        }
    } else {
        assert(sorted.push(p) =~= sorted.insert(pos, p));
        if sorted_by_key(sorted) {
            assert forall|i: int| 0 <= i < pos implies !key_lt(p, sorted[i]) by {
                if i < sorted.len() - 1 {
                    lemma_key_not_after_transitive(sorted[i], sorted.last(), p);
                }
            }
        }
    }
}

/// Inserting by key into a sorted sequence gives a sorted sequence.
pub proof fn lemma_insert_keeps_sorted(sorted: Seq<Pair>, p: Pair)
    requires
        sorted_by_key(sorted),
    ensures
        sorted_by_key(insert_by_key(sorted, p)),
{
    lemma_insert_position(sorted, p);
    let pos = insert_position(sorted, p);
    let out = sorted.insert(pos, p);
    assert forall|i: int, j: int| 0 <= i < j < out.len() implies !key_lt(out[j], out[i]) by {
        if j == pos {
            assert(out[i] == sorted[i]);
        } else if i == pos {
            assert(out[j] == sorted[j - 1]);
            lemma_key_trichotomy(out[j], out[i]);
        } else {
            let a = if i < pos { i } else { i - 1 };
            let b = if j < pos { j } else { j - 1 };
            assert(out[i] == sorted[a] && out[j] == sorted[b]);
        }
    }
}

/// The sort by key gives a sorted sequence.
pub proof fn lemma_sort_is_sorted(pairs: Seq<Pair>)
    ensures
        sorted_by_key(sort_by_key(pairs)),
    decreases pairs.len(),
{
    if pairs.len() > 0 {
        lemma_sort_is_sorted(pairs.drop_last());
        lemma_insert_keeps_sorted(sort_by_key(pairs.drop_last()), pairs.last());
    }
}

/// The sort by key gives a permutation: every pair occurs as often as before.
pub proof fn lemma_sort_is_permutation(pairs: Seq<Pair>)
    ensures
        sort_by_key(pairs).to_multiset() == pairs.to_multiset(),
        sort_by_key(pairs).len() == pairs.len(),
    decreases pairs.len(),
{
    if pairs.len() > 0 {
        let shorter = pairs.drop_last();
        lemma_sort_is_permutation(shorter);
        lemma_insert_position(sort_by_key(shorter), pairs.last());
        vstd::seq_lib::to_multiset_insert(
            sort_by_key(shorter),
            insert_position(sort_by_key(shorter), pairs.last()),
            pairs.last(),
        );
        vstd::seq_lib::to_multiset_build(shorter, pairs.last());
        assert(shorter.push(pairs.last()) =~= pairs);
    } else {
        assert(sort_by_key(pairs) =~= pairs);
    }
}

/// Inserting by key puts the new pair behind the pairs that have its key and
/// leaves the pairs of every other key as they were.
pub proof fn lemma_insert_is_stable(sorted: Seq<Pair>, p: Pair, key: Field)
    ensures
        with_key(insert_by_key(sorted, p), key) == if p.0 == key {
            with_key(sorted, key).push(p)
        } else {
            with_key(sorted, key)
        },
    decreases sorted.len(),
{
    if sorted.len() == 0 {
        let out = seq![p];
        assert(out.last() == p);
        assert(out.drop_last() =~= Seq::<Pair>::empty());
        assert(with_key(out.drop_last(), key) =~= Seq::<Pair>::empty());
        assert(with_key(sorted, key) =~= Seq::<Pair>::empty());
    } else if key_lt(p, sorted.last()) {
        let shorter = sorted.drop_last();
        let out = insert_by_key(shorter, p).push(sorted.last());
        lemma_insert_is_stable(shorter, p, key);
        lemma_key_trichotomy(p, sorted.last());
        assert(out.last() == sorted.last());
        assert(out.drop_last() =~= insert_by_key(shorter, p));
    } else {
        let out = sorted.push(p);
        assert(out.last() == p);
        assert(out.drop_last() =~= sorted);
    }
}

/// The sort by key is stable: for every key, the pairs with that key come out
/// in the order in which they went in.
pub proof fn lemma_sort_is_stable(pairs: Seq<Pair>, key: Field)
    ensures
        with_key(sort_by_key(pairs), key) == with_key(pairs, key),
    decreases pairs.len(),
{
    if pairs.len() > 0 {
        lemma_sort_is_stable(pairs.drop_last(), key);
        lemma_insert_is_stable(sort_by_key(pairs.drop_last()), pairs.last(), key);
    }
}

} // verus!
