//! The union of two arrays of nullable scalars: every value that occurs in
//! either array, once, with nulls left out.

use vstd::prelude::*;

use crate::order::lemma_lex_trichotomy;
use crate::order::lex_lt;
use crate::sorting::lemma_lex_transitive;
use crate::uuid::Uuid;

verus! {

/// A scalar that can be an element of an array union: two elements can be
/// told apart.
pub trait UnionItem: View + Sized {
    /// Whether two elements stand for the same value.
    fn same(&self, other: &Self) -> (same: bool)
        ensures
            same == (self@ == other@),
    ;
}

impl UnionItem for i32 {
    fn same(&self, other: &Self) -> (same: bool) {
        *self == *other
    }
}

impl UnionItem for i64 {
    fn same(&self, other: &Self) -> (same: bool) {
        *self == *other
    }
}

impl UnionItem for String {
    fn same(&self, other: &Self) -> (same: bool) {
        *self == *other
    }
}

impl UnionItem for Uuid {
    fn same(&self, other: &Self) -> (same: bool) {
        self.same_bytes(other)
    }
}

/// A scalar that can be sorted: of two different values one comes first.
pub trait SortableItem: UnionItem {
    /// The value `a` comes strictly before the value `b`.
    spec fn sorts_before(a: Self::V, b: Self::V) -> bool;

    /// Whether this element comes strictly before `other`.
    fn before(&self, other: &Self) -> (before: bool)
        ensures
            before == Self::sorts_before(self@, other@),
    ;

    /// Coming before is a strict total order: of two values exactly one
    /// holds, the first comes before the second, they are equal, or the
    /// second comes before the first; and the order is transitive.
    proof fn lemma_strict_total_order(a: Self::V, b: Self::V, c: Self::V)
        ensures
            Self::sorts_before(a, b) || a == b || Self::sorts_before(b, a),
            !(Self::sorts_before(a, b) && a == b),
            !(Self::sorts_before(a, b) && Self::sorts_before(b, a)),
            Self::sorts_before(a, b) && Self::sorts_before(b, c) ==> Self::sorts_before(a, c),
    ;
}

impl SortableItem for i32 {
    open spec fn sorts_before(a: i32, b: i32) -> bool {
        a < b
    }

    fn before(&self, other: &Self) -> (before: bool) {
        *self < *other
    }

    proof fn lemma_strict_total_order(a: i32, b: i32, c: i32) {
    }
}

impl SortableItem for i64 {
    open spec fn sorts_before(a: i64, b: i64) -> bool {
        a < b
    }

    fn before(&self, other: &Self) -> (before: bool) {
        *self < *other
    }

    proof fn lemma_strict_total_order(a: i64, b: i64, c: i64) {
    }
}

impl SortableItem for Uuid {
    open spec fn sorts_before(a: Seq<u8>, b: Seq<u8>) -> bool {
        lex_lt(a, b)
    }

    fn before(&self, other: &Self) -> (before: bool) {
        self.precedes(other)
    }

    proof fn lemma_strict_total_order(a: Seq<u8>, b: Seq<u8>, c: Seq<u8>) {
        lemma_lex_trichotomy(a, b);
        if lex_lt(a, b) && lex_lt(b, c) {
            lemma_lex_transitive(a, b, c);
        }
    }
}

/// What the elements of a sequence stand for.
pub open spec fn views<T: View>(items: Seq<T>) -> Seq<T::V> {
    Seq::new(items.len(), |i: int| items[i]@)
}

/// What the elements of a sequence of nullable elements stand for.
pub open spec fn nullable_views<T: View>(items: Seq<Option<T>>) -> Seq<Option<T::V>> {
    Seq::new(
        items.len(),
        |i: int|
            match items[i] {
                Some(item) => Some(item@),
                None => None,
            },
    )
}

/// `found` with every value of `items` added at the end that is not null and
/// is not yet there.
pub open spec fn add_new<V>(found: Seq<V>, items: Seq<Option<V>>) -> Seq<V>
    decreases items.len(),
{
    if items.len() == 0 {
        found
    } else {
        let before = add_new(found, items.drop_last());
        match items.last() {
            Some(value) => if before.contains(value) {
                before
            } else {
                before.push(value)
            },
            None => before,
        }
    }
}

/// The union of two arrays: the values of `a` and then of `b`, each where it
/// first occurs, without the nulls.
pub open spec fn union_of<V>(a: Seq<Option<V>>, b: Seq<Option<V>>) -> Seq<V> {
    add_new(add_new(Seq::empty(), a), b)
}

/// An array that is not there counts as empty.
pub open spec fn or_empty<T>(array: Option<Vec<Option<T>>>) -> Seq<Option<T>> {
    match array {
        Some(items) => items@,
        None => Seq::empty(),
    }
}

/// Adding values keeps what was found, adds no value twice, and adds exactly
/// the values that are not null.
pub proof fn lemma_add_new<V>(found: Seq<V>, items: Seq<Option<V>>)
    ensures
        found.no_duplicates() ==> add_new(found, items).no_duplicates(),
        forall|value: V| #[trigger]
            add_new(found, items).contains(value) <==> found.contains(value) || items.contains(
                Some(value),
            ),
    decreases items.len(),
{
    if items.len() > 0 {
        let shorter = items.drop_last();
        let before = add_new(found, shorter);
        lemma_add_new(found, shorter);
        assert forall|value: V| #[trigger]
            add_new(found, items).contains(value) <==> found.contains(value) || items.contains(
                Some(value),
            ) by {
            if items.contains(Some(value)) {
                let i = choose|i: int| 0 <= i < items.len() && items[i] == Some(value);
                if i < shorter.len() {
                    assert(shorter[i] == Some(value));
                    assert(shorter.contains(Some(value)));
                } else {
                    assert(items.last() == Some(value));
                    if !before.contains(value) {
                        assert(before.push(value)[before.len() as int] == value);
                    }
                }
            }
            if shorter.contains(Some(value)) {
                let i = choose|i: int| 0 <= i < shorter.len() && shorter[i] == Some(value);
                assert(items[i] == Some(value));
            }
            if before.contains(value) {
                let i = choose|i: int| 0 <= i < before.len() && before[i] == value;
                assert(add_new(found, items)[i] == value);
            }
            if add_new(found, items).contains(value) && !before.contains(value) {
                let i = choose|i: int|
                    0 <= i < add_new(found, items).len() && add_new(found, items)[i] == value;
                if i < before.len() {
                    assert(before[i] == value);
                }
                assert(items[items.len() - 1] == Some(value));
            }
        }
        if found.no_duplicates() {
            match items.last() {
                Some(value) => {
                    if !before.contains(value) {
                        let out = before.push(value);
                        assert forall|i: int, j: int|
                            0 <= i < out.len() && 0 <= j < out.len() && i != j implies out[i]
                            != out[j] by {
                            if i < before.len() && j < before.len() {
                            } else if i < before.len() {
                                assert(before.contains(before[i]));
                            } else {
                                assert(before.contains(before[j]));
                            }
                        }
                    }
                },
                None => {},
            }
        }
    } else {
        assert forall|value: V| !items.contains(Some(value)) by {}
    }
}

/// The union holds no value twice, and it holds exactly the values that
/// occur in one of the two arrays.
pub proof fn lemma_union_is_a_set<V>(a: Seq<Option<V>>, b: Seq<Option<V>>)
    ensures
        union_of(a, b).no_duplicates(),
        forall|value: V| #[trigger]
            union_of(a, b).contains(value) <==> a.contains(Some(value)) || b.contains(Some(value)),
{
    let empty = Seq::<V>::empty();
    lemma_add_new(empty, a);
    lemma_add_new(add_new(empty, a), b);
    assert forall|value: V| #[trigger]
        union_of(a, b).contains(value) <==> a.contains(Some(value)) || b.contains(
            Some(value),
        ) by {
        assert(!empty.contains(value));
    }
}

/// Whether one of `items` stands for the same value as `item`.
fn holds<T: UnionItem>(items: &Vec<T>, item: &T) -> (found: bool)
    ensures
        found == views(items@).contains(item@),
{
    for i in 0..items.len()
        invariant
            !views(items@.take(i as int)).contains(item@),
    {
        if items[i].same(item) {
            proof {
                assert(views(items@)[i as int] == item@);
            }
            return true;
        }
        proof {
            let longer = views(items@.take(i + 1));
            assert forall|j: int| 0 <= j < longer.len() implies longer[j] != item@ by {
                if j < i {
                    assert(views(items@.take(i as int))[j] == longer[j]);
                    assert(views(items@.take(i as int)).contains(longer[j]));
                }
            }
        }
    }
    proof {
        assert(items@.take(items@.len() as int) =~= items@);
    }
    false
}

/// Adds to `found` every element of `items` that is not null and whose value
/// is not yet there.
fn add_all<T: UnionItem>(found: &mut Vec<T>, items: Vec<Option<T>>)
    ensures
        views(final(found)@) == add_new(views(old(found)@), nullable_views(items@)),
{
    let ghost start = views(found@);
    for item in it: items
        invariant
            it.seq() == items@,
            views(found@) == add_new(start, nullable_views(items@.take(it.index() as int))),
    {
        let ghost n = it.index() as int;
        let ghost before = views(found@);
        proof {
            let longer = nullable_views(items@.take(n + 1));
            assert(longer.drop_last() =~= nullable_views(items@.take(n)));
        }
        if let Some(value) = item {
            if !holds(found, &value) {
                found.push(value);
                proof {
                    assert(views(found@) =~= before.push(value@));
                }
            }
        }
    }
    proof {
        assert(items@.take(items@.len() as int) =~= items@);
    }
}

/// The union of two arrays: every value that occurs in `a` or in `b`, once,
/// in the order of first occurrence. Nulls are silently left out.
pub fn array_union_generic<T: UnionItem>(a: Vec<Option<T>>, b: Vec<Option<T>>) -> (union: Vec<T>)
    ensures
        views(union@) == union_of(nullable_views(a@), nullable_views(b@)),
{
    let mut union: Vec<T> = Vec::new();
    proof {
        assert(views(union@) =~= Seq::<T::V>::empty());
    }
    add_all(&mut union, a);
    add_all(&mut union, b);
    union
}

/// `sorted` with `value` put in behind every value that it does not come
/// before.
pub open spec fn insert_item<T: SortableItem>(sorted: Seq<T::V>, value: T::V) -> Seq<T::V>
    decreases sorted.len(),
{
    if sorted.len() == 0 {
        seq![value]
    } else if T::sorts_before(value, sorted.last()) {
        insert_item::<T>(sorted.drop_last(), value).push(sorted.last())
    } else {
        sorted.push(value)
    }
}

/// The values in ascending order.
pub open spec fn sort_items<T: SortableItem>(values: Seq<T::V>) -> Seq<T::V>
    decreases values.len(),
{
    if values.len() == 0 {
        Seq::empty()
    } else {
        insert_item::<T>(sort_items::<T>(values.drop_last()), values.last())
    }
}

/// No value comes before a value in front of it.
pub open spec fn ascending<T: SortableItem>(values: Seq<T::V>) -> bool {
    forall|i: int, j: int| 0 <= i < j < values.len() ==> !T::sorts_before(values[j], values[i])
}

/// Every value comes strictly before the values behind it.
pub open spec fn strictly_ascending<T: SortableItem>(values: Seq<T::V>) -> bool {
    forall|i: int, j: int| 0 <= i < j < values.len() ==> T::sorts_before(values[i], values[j])
}

/// Where `value` goes into `sorted`.
pub open spec fn item_position<T: SortableItem>(sorted: Seq<T::V>, value: T::V) -> int
    decreases sorted.len(),
{
    if sorted.len() == 0 {
        0
    } else if T::sorts_before(value, sorted.last()) {
        item_position::<T>(sorted.drop_last(), value)
    } else {
        sorted.len() as int
    }
}

/// Putting a value in is inserting it at its position, which lies behind the
/// values that it does not come before and in front of those that it comes
/// before.
pub proof fn lemma_item_position<T: SortableItem>(sorted: Seq<T::V>, value: T::V)
    ensures
        0 <= item_position::<T>(sorted, value) <= sorted.len(),
        insert_item::<T>(sorted, value) == sorted.insert(item_position::<T>(sorted, value), value),
        forall|i: int|
            item_position::<T>(sorted, value) <= i < sorted.len() ==> T::sorts_before(
                value,
                sorted[i],
            ),
        ascending::<T>(sorted) ==> forall|i: int|
            0 <= i < item_position::<T>(sorted, value) ==> !T::sorts_before(value, sorted[i]),
    decreases sorted.len(),
{
    let pos = item_position::<T>(sorted, value);
    if sorted.len() == 0 {
        assert(insert_item::<T>(sorted, value) =~= sorted.insert(pos, value));
    } else if T::sorts_before(value, sorted.last()) {
        let shorter = sorted.drop_last();
        lemma_item_position::<T>(shorter, value);
        assert(shorter.insert(pos, value).push(sorted.last()) =~= sorted.insert(pos, value));
        assert forall|i: int| pos <= i < sorted.len() implies T::sorts_before(
            value,
            sorted[i],
        ) by {
            if i < shorter.len() {
                assert(sorted[i] == shorter[i]);
            }
        }
        if ascending::<T>(sorted) {
            assert(ascending::<T>(shorter)) by {
                assert forall|i: int, j: int| 0 <= i < j < shorter.len() implies !T::sorts_before(
                    shorter[j],
                    shorter[i],
                ) by {
                    assert(shorter[i] == sorted[i] && shorter[j] == sorted[j]);
                }
            }
            assert forall|i: int| 0 <= i < pos implies !T::sorts_before(value, sorted[i]) by {
                assert(sorted[i] == shorter[i]);
            }
        }
    } else {
        assert(sorted.push(value) =~= sorted.insert(pos, value));
        if ascending::<T>(sorted) {
            assert forall|i: int| 0 <= i < pos implies !T::sorts_before(value, sorted[i]) by {
                if i < sorted.len() - 1 {
                    assert(!T::sorts_before(sorted.last(), sorted[i]));
                    T::lemma_strict_total_order(value, sorted[i], sorted.last());
                    T::lemma_strict_total_order(sorted[i], sorted.last(), value);
                    T::lemma_strict_total_order(sorted.last(), value, sorted[i]);
                }
            }
        }
    }
}

/// Sorting gives the same values, as often as before, in ascending order.
pub proof fn lemma_sort_items<T: SortableItem>(values: Seq<T::V>)
    ensures
        ascending::<T>(sort_items::<T>(values)),
        sort_items::<T>(values).to_multiset() == values.to_multiset(),
        sort_items::<T>(values).len() == values.len(),
    decreases values.len(),
{
    if values.len() > 0 {
        let shorter = values.drop_last();
        let sorted = sort_items::<T>(shorter);
        let value = values.last();
        let pos = item_position::<T>(sorted, value);
        lemma_sort_items::<T>(shorter);
        lemma_item_position::<T>(sorted, value);
        let out = sorted.insert(pos, value);
        assert forall|i: int, j: int| 0 <= i < j < out.len() implies !T::sorts_before(
            out[j],
            out[i],
        ) by {
            if j == pos {
                assert(out[i] == sorted[i]);
            } else if i == pos {
                assert(out[j] == sorted[j - 1]);
                T::lemma_strict_total_order(out[j], out[i], out[i]);
            } else {
                let a = if i < pos { i } else { i - 1 };
                let b = if j < pos { j } else { j - 1 };
                assert(out[i] == sorted[a] && out[j] == sorted[b]);
            }
        }
        vstd::seq_lib::to_multiset_insert(sorted, pos, value);
        vstd::seq_lib::to_multiset_build(shorter, value);
        assert(shorter.push(value) =~= values);
    } else {
        assert(sort_items::<T>(values) =~= values);
    }
}

/// The sorted union holds exactly the values that occur in one of the two
/// arrays, each once, every value strictly before the values behind it.
pub proof fn lemma_sorted_union_is_a_sorted_set<T: SortableItem>(
    a: Seq<Option<T::V>>,
    b: Seq<Option<T::V>>,
)
    ensures
        strictly_ascending::<T>(sort_items::<T>(union_of(a, b))),
        forall|value: T::V| #[trigger]
            sort_items::<T>(union_of(a, b)).contains(value) <==> a.contains(Some(value))
                || b.contains(Some(value)),
{
    let union = union_of(a, b);
    let sorted = sort_items::<T>(union);
    lemma_union_is_a_set(a, b);
    lemma_sort_items::<T>(union);
    assert(sorted.no_duplicates()) by {
        union.lemma_multiset_has_no_duplicates();
        sorted.lemma_multiset_has_no_duplicates_conv();
    }
    assert forall|i: int, j: int| 0 <= i < j < sorted.len() implies T::sorts_before(
        sorted[i],
        sorted[j],
    ) by {
        T::lemma_strict_total_order(sorted[i], sorted[j], sorted[j]);
    }
    assert forall|value: T::V| #[trigger]
        sorted.contains(value) <==> a.contains(Some(value)) || b.contains(Some(value)) by {
        vstd::seq_lib::to_multiset_contains(sorted, value);
        vstd::seq_lib::to_multiset_contains(union, value);
    }
}

/// Sorts elements into ascending order.
pub fn sort_elements<T: SortableItem>(items: Vec<T>) -> (sorted: Vec<T>)
    ensures
        views(sorted@) == sort_items::<T>(views(items@)),
{
    let mut sorted: Vec<T> = Vec::new();
    proof {
        assert(views(sorted@) =~= Seq::<T::V>::empty());
    }
    for item in it: items
        invariant
            it.seq() == items@,
            views(sorted@) == sort_items::<T>(views(items@.take(it.index() as int))),
    {
        let ghost before = views(sorted@);
        let ghost new = item@;
        let mut j: usize = sorted.len();
        proof {
            assert(before.take(j as int) =~= before);
            assert(before.skip(j as int) =~= Seq::<T::V>::empty());
            assert(insert_item::<T>(before, new) =~= insert_item::<T>(before, new) + Seq::<
                T::V,
            >::empty());
        }
        while j > 0 && item.before(&sorted[j - 1])
            invariant
                j <= sorted.len(),
                before == views(sorted@),
                new == item@,
                insert_item::<T>(before, new) == insert_item::<T>(before.take(j as int), new)
                    + before.skip(j as int),
            decreases j,
        {
            proof {
                let head = before.take(j as int);
                assert(head.last() == before[j - 1]);
                assert(head.drop_last() =~= before.take(j - 1));
                assert(insert_item::<T>(before.take(j - 1), new).push(before[j - 1]) + before.skip(
                    j as int,
                ) =~= insert_item::<T>(before.take(j - 1), new) + before.skip(j - 1));
            }
            j = j - 1;
        }
        proof {
            let head = before.take(j as int);
            if j > 0 {
                assert(head.last() == before[j - 1]);
            }
            assert(insert_item::<T>(head, new) =~= head.push(new));
            assert(head.push(new) + before.skip(j as int) =~= before.insert(j as int, new));
        }
        sorted.insert(j, item);
        proof {
            assert(views(sorted@) =~= before.insert(j as int, new));
            let done = views(items@.take(it.index() + 1));
            assert(done.drop_last() =~= views(items@.take(it.index() as int)));
            assert(done.last() == new);
        }
    }
    proof {
        assert(items@.take(items@.len() as int) =~= items@);
    }
    sorted
}

/// The union of two arrays in ascending order: every value that occurs in
/// `a` or in `b`, once. Nulls are silently left out.
pub fn array_union_generic_sorted<T: SortableItem>(a: Vec<Option<T>>, b: Vec<Option<T>>) -> (union:
    Vec<T>)
    ensures
        views(union@) == sort_items::<T>(union_of(nullable_views(a@), nullable_views(b@))),
{
    let s = array_union_generic(a, b);
    sort_elements(s)
}

/// The array, or an empty one where there is none.
fn unwrap_or_empty<T>(array: Option<Vec<Option<T>>>) -> (items: Vec<Option<T>>)
    ensures
        items@ == or_empty(array),
{
    match array {
        Some(items) => items,
        None => Vec::new(),
    }
}

/// The union of two arrays of identifiers. An array that is not there counts
/// as empty.
pub fn array_union_uuid(a: Option<Vec<Option<Uuid>>>, b: Option<Vec<Option<Uuid>>>) -> (union: Vec<
    Uuid,
>)
    ensures
        views(union@) == union_of(nullable_views(or_empty(a)), nullable_views(or_empty(b))),
{
    array_union_generic(unwrap_or_empty(a), unwrap_or_empty(b))
}

/// The union of two arrays of strings. An array that is not there counts as
/// empty.
pub fn array_union_text(a: Option<Vec<Option<String>>>, b: Option<Vec<Option<String>>>) -> (union:
    Vec<String>)
    ensures
        views(union@) == union_of(nullable_views(or_empty(a)), nullable_views(or_empty(b))),
{
    array_union_generic(unwrap_or_empty(a), unwrap_or_empty(b))
}

/// The union of two arrays of 64-bit numbers. An array that is not there
/// counts as empty.
pub fn array_union_i64(a: Option<Vec<Option<i64>>>, b: Option<Vec<Option<i64>>>) -> (union: Vec<
    i64,
>)
    ensures
        views(union@) == union_of(nullable_views(or_empty(a)), nullable_views(or_empty(b))),
{
    array_union_generic(unwrap_or_empty(a), unwrap_or_empty(b))
}

/// The union of two arrays of 32-bit numbers. An array that is not there
/// counts as empty.
pub fn array_union_i32(a: Option<Vec<Option<i32>>>, b: Option<Vec<Option<i32>>>) -> (union: Vec<
    i32,
>)
    ensures
        views(union@) == union_of(nullable_views(or_empty(a)), nullable_views(or_empty(b))),
{
    array_union_generic(unwrap_or_empty(a), unwrap_or_empty(b))
}

/// The union of two arrays of identifiers in ascending order. An array that
/// is not there counts as empty.
pub fn array_union_sorted(a: Option<Vec<Option<Uuid>>>, b: Option<Vec<Option<Uuid>>>) -> (union:
    Vec<Uuid>)
    ensures
        views(union@) == sort_items::<Uuid>(
            union_of(nullable_views(or_empty(a)), nullable_views(or_empty(b))),
        ),
{
    array_union_generic_sorted(unwrap_or_empty(a), unwrap_or_empty(b))
}

} // verus!
