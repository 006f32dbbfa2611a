//! Stable sorting by an integer key.
use vstd::prelude::*;

verus! {

/// A sequence with one more item, behind the last one whose key is not larger.
pub open spec fn inserted_by<T>(items: Seq<T>, item: T, key: spec_fn(T) -> int) -> Seq<T>
    decreases items.len(),
{
    if items.len() > 0 && key(item) < key(items.last()) {
        inserted_by(items.drop_last(), item, key).push(items.last())
    } else {
        items.push(item)
    }
}

/// The items in order of their keys; items with the same key keep their order.
pub open spec fn sorted_by<T>(items: Seq<T>, key: spec_fn(T) -> int) -> Seq<T>
    decreases items.len(),
{
    if items.len() == 0 {
        Seq::empty()
    } else {
        inserted_by(sorted_by(items.drop_last(), key), items.last(), key)
    }
}

/// Whether the keys never fall.
pub open spec fn is_sorted_by<T>(items: Seq<T>, key: spec_fn(T) -> int) -> bool {
    forall|i: int, j: int|
        #![trigger items[i], items[j]]
        0 <= i <= j < items.len() ==> key(items[i]) <= key(items[j])
}

pub(crate) proof fn lemma_inserted_at<T>(items: Seq<T>, item: T, key: spec_fn(T) -> int, k: int)
    requires
        0 <= k <= items.len(),
        k > 0 ==> key(items[k - 1]) <= key(item),
        forall|i: int| k <= i < items.len() ==> key(item) < key(#[trigger] items[i]),
    ensures
        inserted_by(items, item, key) == items.insert(k, item),
    decreases items.len(),
{
    if k < items.len() {
        let init = items.drop_last();
        lemma_inserted_at(init, item, key, k);
        assert(init.insert(k, item).push(items.last()) =~= items.insert(k, item));
    } else {
        assert(items.push(item) =~= items.insert(k, item));
    }
}

proof fn lemma_inserted_sorted<T>(items: Seq<T>, item: T, key: spec_fn(T) -> int)
    requires
        is_sorted_by(items, key),
    ensures
        is_sorted_by(inserted_by(items, item, key), key),
        inserted_by(items, item, key).len() == items.len() + 1,
        key(inserted_by(items, item, key).last()) == key(item) || items.len() > 0 && inserted_by(
            items,
            item,
            key,
        ).last() == items.last(),
    decreases items.len(),
{
    if items.len() > 0 && key(item) < key(items.last()) {
        let init = items.drop_last();
        assert(is_sorted_by(init, key)) by {
            assert forall|i: int, j: int|
                #![trigger init[i], init[j]]
                0 <= i <= j < init.len() implies key(init[i]) <= key(init[j]) by {
                assert(key(items[i]) <= key(items[j]));
            }
        }
        lemma_inserted_sorted(init, item, key);
        let rest = inserted_by(init, item, key);
        let all = rest.push(items.last());
        assert(key(rest.last()) <= key(items.last())) by {
            if init.len() > 0 {
                assert(key(items[items.len() - 2]) <= key(items[items.len() - 1]));
            }
        }
        assert forall|i: int, j: int|
            #![trigger all[i], all[j]]
            0 <= i <= j < all.len() implies key(all[i]) <= key(all[j]) by {
            if j < rest.len() {
                assert(key(rest[i]) <= key(rest[j]));
            } else if i < rest.len() {
                assert(key(rest[i]) <= key(rest[rest.len() - 1]));
            }
        }
    } else {
        let all = items.push(item);
        assert forall|i: int, j: int|
            #![trigger all[i], all[j]]
            0 <= i <= j < all.len() implies key(all[i]) <= key(all[j]) by {
            if j < items.len() {
                assert(key(items[i]) <= key(items[j]));
            } else if i < items.len() {
                assert(key(items[i]) <= key(items[items.len() - 1]));
            }
        }
    }
}

/// Sorting puts the keys in order.
pub proof fn lemma_sorted<T>(items: Seq<T>, key: spec_fn(T) -> int)
    ensures
        is_sorted_by(sorted_by(items, key), key),
        sorted_by(items, key).len() == items.len(),
    decreases items.len(),
{
    if items.len() > 0 {
        lemma_sorted(items.drop_last(), key);
        lemma_inserted_sorted(sorted_by(items.drop_last(), key), items.last(), key);
    }
}

proof fn lemma_inserted_multiset<T>(items: Seq<T>, item: T, key: spec_fn(T) -> int)
    ensures
        inserted_by(items, item, key).to_multiset() == items.to_multiset().insert(item),
    decreases items.len(),
{
    broadcast use vstd::seq_lib::group_to_multiset_ensures;

    if items.len() > 0 && key(item) < key(items.last()) {
        lemma_inserted_multiset(items.drop_last(), item, key);
        assert(items.drop_last().push(items.last()) =~= items);
        assert(inserted_by(items, item, key).to_multiset() =~= items.to_multiset().insert(item));
    }
}

/// Sorting neither adds nor drops items.
pub proof fn lemma_sorted_multiset<T>(items: Seq<T>, key: spec_fn(T) -> int)
    ensures
        sorted_by(items, key).to_multiset() == items.to_multiset(),
    decreases items.len(),
{
    broadcast use vstd::seq_lib::group_to_multiset_ensures;

    if items.len() > 0 {
        lemma_sorted_multiset(items.drop_last(), key);
        lemma_inserted_multiset(sorted_by(items.drop_last(), key), items.last(), key);
        assert(items.drop_last().push(items.last()) =~= items);
    } else {
        assert(items =~= sorted_by(items, key));
    }
}

/// What holds of all items holds of all sorted items.
pub(crate) proof fn lemma_sorted_all<T>(
    items: Seq<T>,
    key: spec_fn(T) -> int,
    good: spec_fn(T) -> bool,
)
    requires
        forall|i: int| 0 <= i < items.len() ==> good(#[trigger] items[i]),
    ensures
        forall|i: int|
            0 <= i < items.len() ==> good(#[trigger] sorted_by(items, key)[i]),
{
    broadcast use vstd::seq_lib::group_to_multiset_ensures;

    lemma_sorted(items, key);
    lemma_sorted_multiset(items, key);
    let sorted = sorted_by(items, key);
    assert forall|i: int| 0 <= i < items.len() implies good(#[trigger] sorted[i]) by {
        assert(sorted.to_multiset().contains(sorted[i]));
        assert(items.contains(sorted[i]));
    }
}

pub(crate) proof fn lemma_inserted_somewhere<T>(items: Seq<T>, item: T, key: spec_fn(T) -> int) -> (k: int)
    ensures
        0 <= k <= items.len(),
        inserted_by(items, item, key) == items.insert(k, item),
    decreases items.len(),
{
    if items.len() > 0 && key(item) < key(items.last()) {
        let init = items.drop_last();
        let k = lemma_inserted_somewhere(init, item, key);
        assert(init.insert(k, item).push(items.last()) =~= items.insert(k, item));
        k
    } else {
        assert(items.push(item) =~= items.insert(items.len() as int, item));
        items.len() as int
    }
}

/// Items that differ in a property still do when they are sorted.
pub(crate) proof fn lemma_sorted_distinct<T>(
    items: Seq<T>,
    key: spec_fn(T) -> int,
    property: spec_fn(T) -> int,
)
    requires
        forall|i: int, j: int|
            #![trigger items[i], items[j]]
            0 <= i < j < items.len() ==> property(items[i]) != property(items[j]),
    ensures
        forall|i: int, j: int|
            #![trigger sorted_by(items, key)[i], sorted_by(items, key)[j]]
            0 <= i < j < items.len() ==> property(sorted_by(items, key)[i]) != property(
                sorted_by(items, key)[j],
            ),
    decreases items.len(),
{
    if items.len() > 0 {
        let init = items.drop_last();
        let last = items.last();
        lemma_sorted_distinct(init, key, property);
        lemma_sorted(init, key);
        let sorted = sorted_by(init, key);
        let good = |t: T| property(t) != property(last);
        assert forall|i: int| 0 <= i < init.len() implies good(#[trigger] init[i]) by {
            assert(property(items[i]) != property(items[items.len() - 1]));
        }
        lemma_sorted_all(init, key, good);
        let k = lemma_inserted_somewhere(sorted, last, key);
        let all = sorted.insert(k, last);
        assert forall|i: int, j: int|
            #![trigger all[i], all[j]]
            0 <= i < j < items.len() implies property(all[i]) != property(all[j]) by {
            let a = if i < k {
                i
            } else {
                i - 1
            };
            let b = if j < k {
                j
            } else {
                j - 1
            };
            if i == k {
                assert(good(sorted[b]));
            } else if j == k {
                assert(good(sorted[a]));
            } else {
                assert(property(sorted[a]) != property(sorted[b]));
            }
        }
    }
}

/// Items that are in order already stay as they are.
pub proof fn lemma_sorted_is_idempotent<T>(items: Seq<T>, key: spec_fn(T) -> int)
    requires
        is_sorted_by(items, key),
    ensures
        sorted_by(items, key) == items,
    decreases items.len(),
{
    if items.len() > 0 {
        let init = items.drop_last();
        assert forall|i: int, j: int|
            #![trigger init[i], init[j]]
            0 <= i <= j < init.len() implies key(init[i]) <= key(init[j]) by {
            assert(key(items[i]) <= key(items[j]));
        }
        lemma_sorted_is_idempotent(init, key);
        if init.len() > 0 {
            assert(key(items[items.len() - 2]) <= key(items[items.len() - 1]));
        }
        assert(init.push(items.last()) =~= items);
    } else {
        assert(items =~= sorted_by(items, key));
    }
}

/// Sorts items by a key, in one pass over items that are almost in order.
pub(crate) fn sort_by_key<T, F: Fn(&T) -> u64>(
    items: Vec<T>,
    key: F,
    Ghost(spec_key): Ghost<spec_fn(T) -> int>,
) -> (r: Vec<T>)
    requires
        forall|t: &T| call_requires(key, (t,)),
        forall|t: &T, k: u64| call_ensures(key, (t,), k) ==> k == spec_key(*t),
    ensures
        r@ == sorted_by(items@, spec_key),
{
    let ghost all = items@;
    let mut sorted: Vec<T> = Vec::new();
    for item in it: items
        invariant
            it.seq() == all,
            sorted@ == sorted_by(all.take(it.index() as int), spec_key),
            forall|t: &T| call_requires(key, (t,)),
            forall|t: &T, k: u64| call_ensures(key, (t,), k) ==> k == spec_key(*t),
    {
        let item_key: u64 = key(&item);
        let mut k: usize = sorted.len();
        while k > 0 && item_key < key(&sorted[k - 1])
            invariant
                k <= sorted@.len(),
                item_key == spec_key(item),
                forall|i: int| k <= i < sorted@.len() ==> spec_key(item) < spec_key(
                    #[trigger] sorted@[i],
                ),
                forall|t: &T| call_requires(key, (t,)),
                forall|t: &T, k: u64| call_ensures(key, (t,), k) ==> k == spec_key(*t),
            decreases k,
        {
            k = k - 1;
        }
        proof {
            lemma_inserted_at(sorted@, item, spec_key, k as int);
            assert(all.take(it.index() + 1).drop_last() =~= all.take(it.index() as int));
        }
        sorted.insert(k, item);
    }
    assert(all.take(all.len() as int) =~= all);
    sorted
}

/// What is kept of a sequence are its items that are to be kept.
pub(crate) proof fn lemma_kept<T>(all: Seq<T>, keep: spec_fn(T) -> bool, item: T)
    ensures
        all.filter(keep).contains(item) <==> all.contains(item) && keep(item),
{
    if all.filter(keep).contains(item) {
        let i = choose|i: int| 0 <= i < all.filter(keep).len() && all.filter(keep)[i] == item;
        all.lemma_filter_pred(keep, i);
        all.lemma_filter_contains_rev(keep, item);
    }
    if all.contains(item) && keep(item) {
        let i = choose|i: int| 0 <= i < all.len() && all[i] == item;
        all.lemma_filter_contains(keep, i);
    }
}

} // verus!
