//! The order in which pairs are sorted: by key, bytewise, null keys last.

use bytes::Bytes;
use core::cmp::Ordering;
use vstd::prelude::*;

use crate::buffer::bytes_cmp;
use crate::model::field_view;
use crate::model::pair_view;
use crate::model::Pair;

verus! {

/// `a` comes strictly before `b` in the lexicographic order on byte strings.
pub open spec fn lex_lt(a: Seq<u8>, b: Seq<u8>) -> bool
    decreases a.len(),
{
    if b.len() == 0 {
        false
    } else if a.len() == 0 {
        true
    } else if a[0] != b[0] {
        a[0] < b[0]
    } else {
        lex_lt(a.drop_first(), b.drop_first())
    }
}

/// The key of `a` sorts strictly before the key of `b`: present keys go by
/// their bytes, and every present key comes before a null key.
pub open spec fn key_lt(a: Pair, b: Pair) -> bool {
    match (a.0, b.0) {
        (Some(x), Some(y)) => lex_lt(x, y),
        (Some(_), None) => true,
        (None, _) => false,
    }
}

/// Of two byte strings exactly one holds: the first comes before the second,
/// they are equal, or the second comes before the first.
pub proof fn lemma_lex_trichotomy(a: Seq<u8>, b: Seq<u8>)
    ensures
        lex_lt(a, b) || a == b || lex_lt(b, a),
        !(lex_lt(a, b) && a == b),
        !(lex_lt(b, a) && a == b),
        !(lex_lt(a, b) && lex_lt(b, a)),
    decreases a.len(),
{
    if a.len() == 0 || b.len() == 0 {
        if a.len() == 0 && b.len() == 0 {
            assert(a =~= b);
        }
    } else if a[0] != b[0] {
    } else {
        lemma_lex_trichotomy(a.drop_first(), b.drop_first());
        if a.drop_first() == b.drop_first() {
            assert(a =~= seq![a[0]] + a.drop_first());
            assert(b =~= seq![b[0]] + b.drop_first());
        }
    }
}

/// Compares two pairs by key alone: present keys by their bytes, a present
/// key before a null key, and two null keys as equal.
pub fn cmp_option_tuple(
    a: &(Option<Bytes>, Option<Bytes>),
    b: &(Option<Bytes>, Option<Bytes>),
) -> (o: Ordering)
    ensures
        (o is Less) <==> key_lt(pair_view(*a), pair_view(*b)),
        (o is Greater) <==> key_lt(pair_view(*b), pair_view(*a)),
        (o is Equal) <==> pair_view(*a).0 == pair_view(*b).0,
{
    match (&a.0, &b.0) {
        (Some(x), Some(y)) => {
            proof {
                lemma_lex_trichotomy(field_view(a.0).unwrap(), field_view(b.0).unwrap());
            }
            bytes_cmp(x, y)
        },
        (Some(_), None) => Ordering::Less,
        (None, Some(_)) => Ordering::Greater,
        (None, None) => Ordering::Equal,
    }
}

/// Whether the key of `a` sorts strictly before the key of `b`.
pub fn key_before(
    a: &(Option<Bytes>, Option<Bytes>),
    b: &(Option<Bytes>, Option<Bytes>),
) -> (before: bool)
    ensures
        before == key_lt(pair_view(*a), pair_view(*b)),
{
    match cmp_option_tuple(a, b) {
        Ordering::Less => true,
        _ => false,
    }
}

} // verus!
