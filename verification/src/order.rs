//! The order of names, and what it is to be sorted by it.
use vstd::prelude::*;

verus! {

/// `a` comes before `b`: at the first difference its character is the lesser one, or it ends.
pub open spec fn precedes(a: Seq<char>, b: Seq<char>) -> bool
    decreases a.len(),
{
    if b.len() == 0 {
        false
    } else if a.len() == 0 {
        true
    } else if a[0] != b[0] {
        a[0] < b[0]
    } else {
        precedes(a.drop_first(), b.drop_first())
    }
}

/// The items with key `key`, in their order; `of` gives the key of an item.
pub open spec fn with_key<T>(
    items: Seq<T>,
    of: spec_fn(T) -> Seq<char>,
    key: Seq<char>,
) -> Seq<T> {
    items.filter(|item: T| of(item) == key)
}

/// No item stands after one that its key precedes.
pub open spec fn ordered<T>(items: Seq<T>, of: spec_fn(T) -> Seq<char>) -> bool {
    forall|i: int, j: int|
        0 <= i < j < items.len() ==> !precedes(of(#[trigger] items[j]), of(#[trigger] items[i]))
}

/// `sorted` holds the items of `items` in the order of their keys, and those with equal keys in
/// the order in which they came.
pub open spec fn stably_sorted<T>(
    items: Seq<T>,
    of: spec_fn(T) -> Seq<char>,
    sorted: Seq<T>,
) -> bool {
    &&& ordered(sorted, of)
    &&& forall|key: Seq<char>| #[trigger] with_key(sorted, of, key) == with_key(items, of, key)
}

proof fn lemma_precedes_total(a: Seq<char>, b: Seq<char>)
    ensures
        !(precedes(a, b) && precedes(b, a)),
        precedes(a, b) || precedes(b, a) || a == b,
        a == b ==> !precedes(a, b),
    decreases a.len(),
{
    if a.len() == 0 || b.len() == 0 {
        if a.len() == b.len() {
            assert(a =~= b);
        }
    } else if a[0] == b[0] {
        lemma_precedes_total(a.drop_first(), b.drop_first());
        if a.drop_first() == b.drop_first() {
            assert(a =~= seq![a[0]] + a.drop_first());
            assert(b =~= seq![b[0]] + b.drop_first());
        }
    }
}

proof fn lemma_precedes_transitive(a: Seq<char>, b: Seq<char>, c: Seq<char>)
    requires
        precedes(a, b),
        precedes(b, c),
    ensures
        precedes(a, c),
    decreases a.len(),
{
    if a.len() > 0 && a[0] == b[0] && b[0] == c[0] {
        lemma_precedes_transitive(a.drop_first(), b.drop_first(), c.drop_first());
    }
}

/// Names have a strict total order.
pub proof fn law_precedes_orders_names(a: Seq<char>, b: Seq<char>, c: Seq<char>)
    ensures
        !precedes(a, a),
        !(precedes(a, b) && precedes(b, a)),
        precedes(a, b) || precedes(b, a) || a == b,
        precedes(a, b) && precedes(b, c) ==> precedes(a, c),
{
    lemma_precedes_total(a, a);
    lemma_precedes_total(a, b);
    if precedes(a, b) && precedes(b, c) {
        lemma_precedes_transitive(a, b, c);
    }
}

pub(crate) proof fn lemma_with_key_split<T>(
    a: Seq<T>,
    b: Seq<T>,
    of: spec_fn(T) -> Seq<char>,
    key: Seq<char>,
)
    ensures
        with_key(a + b, of, key) == with_key(a, of, key) + with_key(b, of, key),
{
    Seq::filter_distributes_over_add(a, b, |item: T| of(item) == key);
}

pub(crate) proof fn lemma_with_key_absent<T>(
    items: Seq<T>,
    of: spec_fn(T) -> Seq<char>,
    key: Seq<char>,
)
    requires
        forall|i: int| 0 <= i < items.len() ==> of(#[trigger] items[i]) != key,
    ensures
        with_key(items, of, key) == Seq::<T>::empty(),
    decreases items.len(),
{
    reveal(Seq::filter);
    if items.len() > 0 {
        lemma_with_key_absent(items.drop_last(), of, key);
    }
    assert(with_key(items, of, key) =~= Seq::empty());
}

proof fn lemma_with_key_last<T>(items: Seq<T>, of: spec_fn(T) -> Seq<char>)
    requires
        items.len() > 0,
    ensures
        with_key(items, of, of(items.last())) == with_key(
            items.drop_last(),
            of,
            of(items.last()),
        ).push(items.last()),
{
    reveal(Seq::filter);
}

proof fn lemma_with_key_drop_last<T>(items: Seq<T>, of: spec_fn(T) -> Seq<char>, key: Seq<char>)
    requires
        items.len() > 0,
    ensures
        with_key(items.drop_last(), of, key) == if of(items.last()) == key {
            with_key(items, of, key).drop_last()
        } else {
            with_key(items, of, key)
        },
{
    reveal(Seq::filter);
    assert(with_key(items.drop_last(), of, key) =~= if of(items.last()) == key {
        with_key(items, of, key).drop_last()
    } else {
        with_key(items, of, key)
    });
}

proof fn lemma_with_key_member<T>(items: Seq<T>, of: spec_fn(T) -> Seq<char>, key: Seq<char>)
    requires
        with_key(items, of, key).len() > 0,
    ensures
        exists|i: int| 0 <= i < items.len() && of(#[trigger] items[i]) == key,
{
    if forall|i: int| 0 <= i < items.len() ==> of(#[trigger] items[i]) != key {
        lemma_with_key_absent(items, of, key);
    }
}

/// No key in a sorted list comes after that of its last item.
proof fn lemma_last_is_greatest<T>(a: Seq<T>, b: Seq<T>, of: spec_fn(T) -> Seq<char>)
    requires
        ordered(a, of),
        a.len() > 0,
        b.len() > 0,
        forall|key: Seq<char>| #[trigger] with_key(a, of, key) == with_key(b, of, key),
    ensures
        !precedes(of(a.last()), of(b.last())),
{
    let key = of(b.last());
    lemma_with_key_last(b, of);
    assert(with_key(a, of, key) == with_key(b, of, key));
    lemma_with_key_member(a, of, key);
    let i = choose|i: int| 0 <= i < a.len() && of(#[trigger] a[i]) == key;
    lemma_precedes_total(of(a.last()), key);
}

/// A list has one stable sort only.
pub proof fn law_stable_sort_is_unique<T>(
    items: Seq<T>,
    of: spec_fn(T) -> Seq<char>,
    one: Seq<T>,
    two: Seq<T>,
)
    requires
        stably_sorted(items, of, one),
        stably_sorted(items, of, two),
    ensures
        one == two,
    decreases one.len(),
{
    assert forall|key: Seq<char>| #[trigger] with_key(one, of, key) == with_key(two, of, key) by {
        assert(with_key(one, of, key) == with_key(items, of, key));
        assert(with_key(two, of, key) == with_key(items, of, key));
    }
    if one.len() == 0 {
        if two.len() > 0 {
            let key = of(two.last());
            lemma_with_key_last(two, of);
            assert(with_key(one, of, key) == with_key(two, of, key));
            lemma_with_key_absent(one, of, key);
        }
        assert(one =~= two);
    } else if two.len() == 0 {
        let key = of(one.last());
        lemma_with_key_last(one, of);
        assert(with_key(one, of, key) == with_key(two, of, key));
        lemma_with_key_absent(two, of, key);
    } else {
        let key = of(one.last());
        lemma_last_is_greatest(one, two, of);
        lemma_last_is_greatest(two, one, of);
        lemma_precedes_total(key, of(two.last()));
        lemma_with_key_last(one, of);
        lemma_with_key_last(two, of);
        assert(with_key(one, of, key) == with_key(two, of, key));
        assert(with_key(one, of, key).last() == one.last());
        assert(with_key(two, of, key).last() == two.last());
        assert forall|k: Seq<char>| #[trigger]
            with_key(two.drop_last(), of, k) == with_key(one.drop_last(), of, k) by {
            assert(with_key(one, of, k) == with_key(two, of, k));
            lemma_with_key_drop_last(one, of, k);
            lemma_with_key_drop_last(two, of, k);
        }
        law_stable_sort_is_unique(one.drop_last(), of, one.drop_last(), two.drop_last());
        assert(one =~= one.drop_last().push(one.last()));
        assert(two =~= two.drop_last().push(two.last()));
    }
}

proof fn lemma_count_with_key<T>(items: Seq<T>, of: spec_fn(T) -> Seq<char>, item: T)
    ensures
        items.to_multiset().count(item) == with_key(items, of, of(item)).to_multiset().count(item),
    decreases items.len(),
{
    broadcast use vstd::seq_lib::group_to_multiset_ensures;

    reveal(Seq::filter);
    if items.len() > 0 {
        lemma_count_with_key(items.drop_last(), of, item);
        assert(items =~= items.drop_last().push(items.last()));
    }
}

/// A stable sort loses nothing and adds nothing.
pub proof fn law_stable_sort_keeps_items<T>(
    items: Seq<T>,
    of: spec_fn(T) -> Seq<char>,
    sorted: Seq<T>,
)
    requires
        stably_sorted(items, of, sorted),
    ensures
        sorted.to_multiset() == items.to_multiset(),
        sorted.len() == items.len(),
{
    broadcast use vstd::seq_lib::group_to_multiset_ensures;

    assert forall|item: T| #[trigger]
        sorted.to_multiset().count(item) == items.to_multiset().count(item) by {
        lemma_count_with_key(items, of, item);
        lemma_count_with_key(sorted, of, item);
        assert(with_key(sorted, of, of(item)) == with_key(items, of, of(item)));
    }
    assert(sorted.to_multiset() =~= items.to_multiset());
    assert(sorted.len() == sorted.to_multiset().len());
    assert(items.len() == items.to_multiset().len());
}

proof fn lemma_distinct_keys<T>(items: Seq<T>, of: spec_fn(T) -> Seq<char>, key: Seq<char>)
    requires
        forall|i: int, j: int|
            0 <= i < j < items.len() ==> of(#[trigger] items[i]) != of(#[trigger] items[j]),
    ensures
        with_key(items, of, key).len() <= 1,
    decreases items.len(),
{
    reveal(Seq::filter);
    if items.len() > 0 {
        let rest = items.drop_last();
        lemma_distinct_keys(rest, of, key);
        if of(items.last()) == key {
            assert forall|i: int| 0 <= i < rest.len() implies of(#[trigger] rest[i]) != key by {
                assert(rest[i] == items[i]);
                assert(of(items[i]) != of(items[items.len() - 1]));
            }
            lemma_with_key_absent(rest, of, key);
        }
    }
}

/// Two lists with the same items, no two of them with equal keys, have the same items for a key.
proof fn lemma_same_items_with_key<T>(
    a: Seq<T>,
    b: Seq<T>,
    of: spec_fn(T) -> Seq<char>,
    key: Seq<char>,
)
    requires
        a.to_multiset() == b.to_multiset(),
        forall|i: int, j: int|
            0 <= i < j < a.len() ==> of(#[trigger] a[i]) != of(#[trigger] a[j]),
    ensures
        with_key(a, of, key) == with_key(b, of, key),
{
    broadcast use vstd::seq_lib::group_to_multiset_ensures;

    let one = with_key(a, of, key);
    let two = with_key(b, of, key);
    let has_key = |item: T| of(item) == key;
    assert forall|item: T| #[trigger]
        one.to_multiset().count(item) == two.to_multiset().count(item) by {
        if of(item) == key {
            lemma_count_with_key(a, of, item);
            lemma_count_with_key(b, of, item);
        } else {
            if one.contains(item) {
                let i = choose|i: int| 0 <= i < one.len() && one[i] == item;
                a.lemma_filter_pred(has_key, i);
            }
            if two.contains(item) {
                let i = choose|i: int| 0 <= i < two.len() && two[i] == item;
                b.lemma_filter_pred(has_key, i);
            }
            assert(!one.contains(item) && !two.contains(item));
        }
    }
    assert(one.to_multiset() =~= two.to_multiset());
    assert(one.len() == one.to_multiset().len());
    assert(two.len() == two.to_multiset().len());
    lemma_distinct_keys(a, of, key);
    if one.len() == 1 {
        assert(one.contains(one[0]));
        assert(two.to_multiset().count(one[0]) > 0);
        assert(two.contains(one[0]));
    }
    assert(one =~= two);
}

/// Where no two keys are equal, the order in which the items came does not matter to the sort.
pub proof fn law_sort_forgets_first_order<T>(
    a: Seq<T>,
    b: Seq<T>,
    of: spec_fn(T) -> Seq<char>,
    sorted_a: Seq<T>,
    sorted_b: Seq<T>,
)
    requires
        a.to_multiset() == b.to_multiset(),
        forall|i: int, j: int|
            0 <= i < j < a.len() ==> of(#[trigger] a[i]) != of(#[trigger] a[j]),
        stably_sorted(a, of, sorted_a),
        stably_sorted(b, of, sorted_b),
    ensures
        sorted_a == sorted_b,
{
    assert forall|key: Seq<char>| #[trigger]
        with_key(sorted_b, of, key) == with_key(a, of, key) by {
        lemma_same_items_with_key(a, b, of, key);
        assert(with_key(sorted_b, of, key) == with_key(b, of, key));
    }
    law_stable_sort_is_unique(a, of, sorted_a, sorted_b);
}

/// One name comes before another exactly where, behind a start that both share, it ends and the
/// other goes on, or its character is the lesser one.
pub proof fn law_first_difference_decides(a: Seq<char>, b: Seq<char>)
    ensures
        precedes(a, b) <==> exists|k: int|
            {
                &&& 0 <= k <= a.len()
                &&& k < b.len()
                &&& #[trigger] a.take(k) == b.take(k)
                &&& k == a.len() || a[k] < b[k]
            },
    decreases a.len(),
{
    if precedes(a, b) {
        lemma_difference(a, b);
    }
    if exists|k: int|
        {
            &&& 0 <= k <= a.len()
            &&& k < b.len()
            &&& #[trigger] a.take(k) == b.take(k)
            &&& k == a.len() || a[k] < b[k]
        } {
        let k = choose|k: int|
            {
                &&& 0 <= k <= a.len()
                &&& k < b.len()
                &&& #[trigger] a.take(k) == b.take(k)
                &&& k == a.len() || a[k] < b[k]
            };
        lemma_at_difference(a, b, k);
    }
}

proof fn lemma_difference(a: Seq<char>, b: Seq<char>) -> (k: int)
    requires
        precedes(a, b),
    ensures
        0 <= k <= a.len(),
        k < b.len(),
        a.take(k) == b.take(k),
        k == a.len() || a[k] < b[k],
    decreases a.len(),
{
    if a.len() == 0 || a[0] != b[0] {
        assert(a.take(0) =~= b.take(0));
        0
    } else {
        let k = lemma_difference(a.drop_first(), b.drop_first());
        assert(a.take(k + 1) =~= seq![a[0]] + a.drop_first().take(k));
        assert(b.take(k + 1) =~= seq![b[0]] + b.drop_first().take(k));
        k + 1
    }
}

proof fn lemma_at_difference(a: Seq<char>, b: Seq<char>, k: int)
    requires
        0 <= k <= a.len(),
        k < b.len(),
        a.take(k) == b.take(k),
        k == a.len() || a[k] < b[k],
    ensures
        precedes(a, b),
    decreases k,
{
    if k > 0 {
        assert(a[0] == a.take(k)[0]);
        assert(b[0] == b.take(k)[0]);
        assert(a.drop_first().take(k - 1) =~= a.take(k).drop_first());
        assert(b.drop_first().take(k - 1) =~= b.take(k).drop_first());
        lemma_at_difference(a.drop_first(), b.drop_first(), k - 1);
    }
}

/// To filter by a key is to filter by any test that says the same.
pub(crate) proof fn lemma_with_key_as_filter<T>(
    items: Seq<T>,
    of: spec_fn(T) -> Seq<char>,
    key: Seq<char>,
    keeps: spec_fn(T) -> bool,
)
    requires
        forall|item: T| #[trigger] keeps(item) == (of(item) == key),
    ensures
        with_key(items, of, key) == items.filter(keeps),
    decreases items.len(),
{
    reveal(Seq::filter);
    if items.len() > 0 {
        lemma_with_key_as_filter(items.drop_last(), of, key, keeps);
        assert(keeps(items.last()) == (of(items.last()) == key));
    }
}

/// What `keeps` holds of stands, in the filtered list, behind all that it holds of before.
pub(crate) proof fn lemma_filtered_place<T>(items: Seq<T>, keeps: spec_fn(T) -> bool, i: int)
    requires
        0 <= i < items.len(),
        keeps(items[i]),
    ensures
        items.take(i).filter(keeps).len() < items.filter(keeps).len(),
        items.filter(keeps)[items.take(i).filter(keeps).len() as int] == items[i],
        items.take(i + 1).filter(keeps).len() == items.take(i).filter(keeps).len() + 1,
{
    let before = items.take(i);
    let upto = items.take(i + 1);
    let after = items.skip(i + 1);
    assert(upto.drop_last() =~= before);
    assert(upto.filter(keeps) == before.filter(keeps).push(items[i])) by {
        reveal(Seq::filter);
    }
    assert(items =~= upto + after);
    Seq::filter_distributes_over_add(upto, after, keeps);
}

/// A longer start of a list has no fewer items that `keeps` holds of.
pub(crate) proof fn lemma_filtered_grows<T>(
    items: Seq<T>,
    keeps: spec_fn(T) -> bool,
    i: int,
    j: int,
)
    requires
        0 <= i <= j <= items.len(),
    ensures
        items.take(i).filter(keeps).len() <= items.take(j).filter(keeps).len(),
{
    assert(items.take(j) =~= items.take(i) + items.subrange(i, j));
    Seq::filter_distributes_over_add(items.take(i), items.subrange(i, j), keeps);
}

/// Where an item of the filtered list comes from.
pub(crate) proof fn lemma_filtered_source<T>(
    items: Seq<T>,
    keeps: spec_fn(T) -> bool,
    place: int,
) -> (i: int)
    requires
        0 <= place < items.filter(keeps).len(),
    ensures
        0 <= i < items.len(),
        keeps(items[i]),
        items[i] == items.filter(keeps)[place],
        items.take(i).filter(keeps).len() == place,
    decreases items.len(),
{
    let rest = items.drop_last();
    assert(items.filter(keeps) == if keeps(items.last()) {
        rest.filter(keeps).push(items.last())
    } else {
        rest.filter(keeps)
    }) by {
        reveal(Seq::filter);
    }
    if place < rest.filter(keeps).len() {
        let i = lemma_filtered_source(rest, keeps, place);
        assert(items.take(i) =~= rest.take(i));
        i
    } else {
        assert(items.take(items.len() - 1) =~= rest);
        items.len() - 1
    }
}

/// In a sorted list no key precedes one that stands before it, and of two items with the same key
/// the one that stands first came first.
pub proof fn law_sorted_places<T>(
    items: Seq<T>,
    of: spec_fn(T) -> Seq<char>,
    sorted: Seq<T>,
    i: int,
    j: int,
)
    requires
        stably_sorted(items, of, sorted),
        0 <= i < j < sorted.len(),
    ensures
        precedes(of(sorted[i]), of(sorted[j])) || of(sorted[i]) == of(sorted[j]) && exists|
            a: int,
            b: int,
        |
            0 <= a < b < items.len() && #[trigger] items[a] == sorted[i] && #[trigger] items[b]
                == sorted[j],
{
    lemma_precedes_total(of(sorted[i]), of(sorted[j]));
    if of(sorted[i]) == of(sorted[j]) {
        let key = of(sorted[i]);
        let keeps = |item: T| of(item) == key;
        assert(with_key(sorted, of, key) == with_key(items, of, key));
        let one = sorted.take(i).filter(keeps).len() as int;
        let two = sorted.take(j).filter(keeps).len() as int;
        lemma_filtered_place(sorted, keeps, i);
        lemma_filtered_place(sorted, keeps, j);
        lemma_filtered_grows(sorted, keeps, i + 1, j);
        assert(one < two);
        lemma_with_key_as_filter(sorted, of, key, keeps);
        lemma_with_key_as_filter(items, of, key, keeps);
        let a = lemma_filtered_source(items, keeps, one);
        let b = lemma_filtered_source(items, keeps, two);
        if b <= a {
            lemma_filtered_grows(items, keeps, b, a);
        }
        assert(items[a] == sorted[i] && items[b] == sorted[j]);
    }
}

/// Two items with the same key that came in some order are listed in that order, each at a place
/// of its own.
pub proof fn law_first_come_stays_first<T>(
    items: Seq<T>,
    of: spec_fn(T) -> Seq<char>,
    sorted: Seq<T>,
    a: int,
    b: int,
)
    requires
        stably_sorted(items, of, sorted),
        0 <= a < b < items.len(),
        of(items[a]) == of(items[b]),
    ensures
        exists|i: int, j: int|
            0 <= i < j < sorted.len() && #[trigger] sorted[i] == items[a] && #[trigger] sorted[j]
                == items[b],
{
    let key = of(items[a]);
    let keeps = |item: T| of(item) == key;
    assert(with_key(sorted, of, key) == with_key(items, of, key));
    lemma_with_key_as_filter(sorted, of, key, keeps);
    lemma_with_key_as_filter(items, of, key, keeps);
    let one = items.take(a).filter(keeps).len() as int;
    let two = items.take(b).filter(keeps).len() as int;
    lemma_filtered_place(items, keeps, a);
    lemma_filtered_place(items, keeps, b);
    lemma_filtered_grows(items, keeps, a + 1, b);
    let i = lemma_filtered_source(sorted, keeps, one);
    let j = lemma_filtered_source(sorted, keeps, two);
    if j <= i {
        lemma_filtered_grows(sorted, keeps, j, i);
    }
    assert(sorted[i] == items[a] && sorted[j] == items[b]);
}

} // verus!
