//! A stable merge sort of directory entries by their keys.
use vstd::prelude::*;
use vstd::std_specs::iter::IteratorSpec;

use crate::files::Prepared;
use crate::order::{
    law_precedes_orders_names, lemma_with_key_absent, lemma_with_key_split, ordered, precedes,
    stably_sorted, with_key,
};

verus! {

/// The key that an entry was prepared with.
pub open spec fn own_key() -> spec_fn(Prepared) -> Seq<char> {
    |item: Prepared| item.key@
}

/// Whether `a` comes before `b`.
pub fn comes_before(a: &str, b: &str) -> (res: bool)
    ensures
        res == precedes(a@, b@),
{
    let mut left = a.chars();
    let mut right = b.chars();
    loop
        invariant
            left.obeys_prophetic_iter_laws(),
            right.obeys_prophetic_iter_laws(),
            right.decrease() is Some,
            precedes(left.remaining(), right.remaining()) == precedes(a@, b@),
        decreases right.decrease()->0,
    {
        match right.next() {
            None => {
                return false;
            },
            Some(r) => {
                match left.next() {
                    None => {
                        return true;
                    },
                    Some(l) => {
                        if l != r {
                            return l < r;
                        }
                    },
                }
            },
        }
    }
}

/// What is not preceded along two steps is not preceded over both.
proof fn lemma_not_after(a: Seq<char>, b: Seq<char>, c: Seq<char>)
    requires
        !precedes(b, a),
        !precedes(c, b),
    ensures
        !precedes(c, a),
{
    law_precedes_orders_names(a, b, c);
    law_precedes_orders_names(b, c, a);
    law_precedes_orders_names(c, a, b);
}

proof fn lemma_with_key_single<T>(item: T, of: spec_fn(T) -> Seq<char>, key: Seq<char>)
    ensures
        with_key(seq![item], of, key) == if of(item) == key {
            seq![item]
        } else {
            Seq::empty()
        },
{
    reveal_with_fuel(Seq::filter, 2);
    assert(seq![item].drop_last() =~= Seq::<T>::empty());
    assert(with_key(seq![item], of, key) =~= if of(item) == key {
        seq![item]
    } else {
        Seq::empty()
    });
}

/// Moving the last item of `left` past `right` keeps every key's items in order, where `right`
/// has none with that item's key.
proof fn lemma_take_from_left<T>(
    left: Seq<T>,
    right: Seq<T>,
    tail: Seq<T>,
    of: spec_fn(T) -> Seq<char>,
    key: Seq<char>,
)
    requires
        left.len() > 0,
        forall|i: int| 0 <= i < right.len() ==> of(#[trigger] right[i]) != of(left.last()),
    ensures
        with_key(left.drop_last(), of, key) + with_key(right, of, key) + with_key(
            seq![left.last()] + tail,
            of,
            key,
        ) == with_key(left, of, key) + with_key(right, of, key) + with_key(tail, of, key),
{
    assert(left =~= left.drop_last() + seq![left.last()]);
    lemma_with_key_split(left.drop_last(), seq![left.last()], of, key);
    lemma_with_key_split(seq![left.last()], tail, of, key);
    lemma_with_key_single(left.last(), of, key);
    if of(left.last()) == key {
        lemma_with_key_absent(right, of, key);
    }
    assert(with_key(left.drop_last(), of, key) + with_key(right, of, key) + with_key(
        seq![left.last()] + tail,
        of,
        key,
    ) =~= with_key(left, of, key) + with_key(right, of, key) + with_key(tail, of, key));
}

proof fn lemma_take_from_right<T>(
    left: Seq<T>,
    right: Seq<T>,
    tail: Seq<T>,
    of: spec_fn(T) -> Seq<char>,
    key: Seq<char>,
)
    requires
        right.len() > 0,
    ensures
        with_key(left, of, key) + with_key(right.drop_last(), of, key) + with_key(
            seq![right.last()] + tail,
            of,
            key,
        ) == with_key(left, of, key) + with_key(right, of, key) + with_key(tail, of, key),
{
    assert(right =~= right.drop_last() + seq![right.last()]);
    lemma_with_key_split(right.drop_last(), seq![right.last()], of, key);
    lemma_with_key_split(seq![right.last()], tail, of, key);
    assert(with_key(left, of, key) + with_key(right.drop_last(), of, key) + with_key(
        seq![right.last()] + tail,
        of,
        key,
    ) =~= with_key(left, of, key) + with_key(right, of, key) + with_key(tail, of, key));
}

/// No item of `head` is preceded by one of `tail`.
spec fn before_all<T>(head: Seq<T>, tail: Seq<T>, of: spec_fn(T) -> Seq<char>) -> bool {
    forall|i: int, j: int|
        0 <= i < head.len() && 0 <= j < tail.len() ==> !precedes(
            of(#[trigger] tail[j]),
            of(#[trigger] head[i]),
        )
}

/// The items in reverse.
fn turned(items: Vec<Prepared>) -> (res: Vec<Prepared>)
    ensures
        res@ == items@.reverse(),
{
    let mut from = items;
    let mut res: Vec<Prepared> = Vec::new();
    while from.len() > 0
        invariant
            from@.len() + res@.len() == items@.len(),
            from@ == items@.take(from@.len() as int),
            res@ =~= items@.skip(from@.len() as int).reverse(),
        decreases from@.len(),
    {
        let ghost before = from@;
        if let Some(item) = from.pop() {
            assert(before.last() == items@[before.len() - 1]);
            res.push(item);
        }
    }
    assert(items@.skip(0) =~= items@);
    res
}

/// What holds while two sorted lists `left` and `right` are merged from their ends: `a` and `b`
/// are left of them, and `tail` is merged.
#[verifier::opaque]
spec fn merging<T>(
    left: Seq<T>,
    right: Seq<T>,
    a: Seq<T>,
    b: Seq<T>,
    tail: Seq<T>,
    of: spec_fn(T) -> Seq<char>,
) -> bool {
    &&& ordered(a, of)
    &&& ordered(b, of)
    &&& ordered(tail, of)
    &&& before_all(a, tail, of)
    &&& before_all(b, tail, of)
    &&& forall|key: Seq<char>|
        with_key(left, of, key) + with_key(right, of, key) == with_key(a, of, key) + with_key(
            b,
            of,
            key,
        ) + #[trigger] with_key(tail, of, key)
}

proof fn lemma_merge_starts<T>(left: Seq<T>, right: Seq<T>, of: spec_fn(T) -> Seq<char>)
    requires
        ordered(left, of),
        ordered(right, of),
    ensures
        merging(left, right, left, right, Seq::empty(), of),
{
    reveal(merging);
    let tail = Seq::<T>::empty();
    assert forall|key: Seq<char>|
        with_key(left, of, key) + with_key(right, of, key) == with_key(left, of, key) + with_key(
            right,
            of,
            key,
        ) + #[trigger] with_key(tail, of, key) by {
        let both = with_key(left, of, key) + with_key(right, of, key);
        lemma_with_key_absent(tail, of, key);
        assert(both =~= both + with_key(tail, of, key));
    }
}

proof fn lemma_merge_takes_left<T>(
    left: Seq<T>,
    right: Seq<T>,
    a: Seq<T>,
    b: Seq<T>,
    tail: Seq<T>,
    of: spec_fn(T) -> Seq<char>,
)
    requires
        merging(left, right, a, b, tail, of),
        a.len() > 0,
        b.len() > 0 ==> precedes(of(b.last()), of(a.last())),
    ensures
        merging(left, right, a.drop_last(), b, seq![a.last()] + tail, of),
{
    reveal(merging);
    let item = a.last();
    assert forall|i: int| 0 <= i < b.len() implies precedes(of(#[trigger] b[i]), of(item)) by {
        law_precedes_orders_names(of(b[i]), of(b.last()), of(item));
    }
    assert forall|i: int| 0 <= i < b.len() implies of(#[trigger] b[i]) != of(item)
        && !precedes(of(item), of(b[i])) by {
        law_precedes_orders_names(of(b[i]), of(item), of(item));
    }
    assert forall|key: Seq<char>|
        with_key(left, of, key) + with_key(right, of, key) == with_key(a.drop_last(), of, key)
            + with_key(b, of, key) + #[trigger] with_key(seq![item] + tail, of, key) by {
        lemma_take_from_left(a, b, tail, of, key);
    }
}

proof fn lemma_merge_takes_right<T>(
    left: Seq<T>,
    right: Seq<T>,
    a: Seq<T>,
    b: Seq<T>,
    tail: Seq<T>,
    of: spec_fn(T) -> Seq<char>,
)
    requires
        merging(left, right, a, b, tail, of),
        b.len() > 0,
        a.len() > 0 ==> !precedes(of(b.last()), of(a.last())),
    ensures
        merging(left, right, a, b.drop_last(), seq![b.last()] + tail, of),
{
    reveal(merging);
    let item = b.last();
    assert forall|i: int| 0 <= i < a.len() implies !precedes(of(item), of(#[trigger] a[i])) by {
        if i < a.len() - 1 {
            lemma_not_after(of(a[i]), of(a.last()), of(item));
        }
    }
    assert forall|key: Seq<char>|
        with_key(left, of, key) + with_key(right, of, key) == with_key(a, of, key) + with_key(
            b.drop_last(),
            of,
            key,
        ) + #[trigger] with_key(seq![item] + tail, of, key) by {
        lemma_take_from_right(a, b, tail, of, key);
    }
}

proof fn lemma_merge_ends<T>(left: Seq<T>, right: Seq<T>, tail: Seq<T>, of: spec_fn(T) -> Seq<char>)
    requires
        merging(left, right, Seq::empty(), Seq::empty(), tail, of),
    ensures
        stably_sorted(left + right, of, tail),
{
    reveal(merging);
    let none = Seq::<T>::empty();
    assert forall|key: Seq<char>| #[trigger]
        with_key(tail, of, key) == with_key(left + right, of, key) by {
        lemma_with_key_split(left, right, of, key);
        lemma_with_key_absent(none, of, key);
        assert(none + none + with_key(tail, of, key) =~= with_key(tail, of, key));
    }
}

/// Merges two sorted lists. Of items with equal keys those of `left` come first.
fn merged(left: Vec<Prepared>, right: Vec<Prepared>) -> (res: Vec<Prepared>)
    requires
        ordered(left@, own_key()),
        ordered(right@, own_key()),
    ensures
        stably_sorted(left@ + right@, own_key(), res@),
{
    let mut a = left;
    let mut b = right;
    // Filled from the greatest item down.
    let mut out: Vec<Prepared> = Vec::new();
    proof {
        lemma_merge_starts(left@, right@, own_key());
        assert(out@.reverse() =~= Seq::empty());
    }
    while a.len() > 0 || b.len() > 0
        invariant
            merging(left@, right@, a@, b@, out@.reverse(), own_key()),
        decreases a@.len() + b@.len(),
    {
        let ghost a0 = a@;
        let ghost b0 = b@;
        let ghost tail = out@.reverse();
        let from_left: bool = if b.len() == 0 {
            true
        } else if a.len() == 0 {
            false
        } else {
            comes_before(b[b.len() - 1].key.as_str(), a[a.len() - 1].key.as_str())
        };
        let taken = if from_left {
            a.pop()
        } else {
            b.pop()
        };
        if let Some(item) = taken {
            out.push(item);
            proof {
                assert(out@.reverse() =~= seq![item] + tail);
                if from_left {
                    assert(a@ =~= a0.drop_last());
                    lemma_merge_takes_left(left@, right@, a0, b0, tail, own_key());
                } else {
                    assert(b@ =~= b0.drop_last());
                    lemma_merge_takes_right(left@, right@, a0, b0, tail, own_key());
                }
            }
        }
    }
    proof {
        assert(a@ =~= Seq::empty());
        assert(b@ =~= Seq::empty());
        lemma_merge_ends(left@, right@, out@.reverse(), own_key());
    }
    turned(out)
}

/// Sorts the items by their keys, and keeps the order of those with equal keys.
pub fn sorted(items: Vec<Prepared>) -> (res: Vec<Prepared>)
    ensures
        stably_sorted(items@, own_key(), res@),
        forall|i: int, j: int|
            0 <= i < j < res@.len() ==> !precedes(
                (#[trigger] res@[j]).key@,
                (#[trigger] res@[i]).key@,
            ),
    decreases items@.len(),
{
    let len: usize = items.len();
    if len <= 1 {
        return items;
    }
    let mut left = items;
    let right = left.split_off(len / 2);
    let ghost left0 = left@;
    let ghost right0 = right@;
    let left = sorted(left);
    let right = sorted(right);
    let res = merged(left, right);
    proof {
        assert(left0 + right0 =~= items@);
        assert forall|key: Seq<char>| #[trigger]
            with_key(res@, own_key(), key) == with_key(items@, own_key(), key) by {
            lemma_with_key_split(left0, right0, own_key(), key);
            lemma_with_key_split(left@, right@, own_key(), key);
            assert(with_key(left@, own_key(), key) == with_key(left0, own_key(), key));
            assert(with_key(right@, own_key(), key) == with_key(right0, own_key(), key));
        }
    }
    res
}

} // verus!
