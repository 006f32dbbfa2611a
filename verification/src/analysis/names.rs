//! Names that mark split points, and the order of names.
use crate::text::{chars_at, chars_of, find_chars, occurs_at};
use vstd::prelude::*;
use vstd::string::StrSliceExecFns;

verus! {

/// Names of split points start with this prefix.
pub const WAMEX_ENTRY_PREFIX: &'static str = "__wamex_00";

/// Stands behind the module name of an import.
pub const SPLIT_IMPORT_POSTFIX: &'static str = "00_import_";

/// Stands behind the module name of an export.
pub const SPLIT_EXPORT_POSTFIX: &'static str = "00_export_";

/// The place of the first occurrence of a text.
pub open spec fn first_occurrence(text: Seq<char>, needle: Seq<char>, at: int) -> bool {
    occurs_at(text, needle, at) && forall|i: int| 0 <= i < at ==> !#[trigger] occurs_at(
        text,
        needle,
        i,
    )
}

/// Whether a name is made of a prefix, a module name, a postfix that stands there for the first
/// time, and the name of a function.
pub open spec fn is_entry_name(
    name: Seq<char>,
    prefix: Seq<char>,
    postfix: Seq<char>,
    module_name: Seq<char>,
    fn_name: Seq<char>,
) -> bool {
    &&& name == prefix + (module_name + postfix + fn_name)
    &&& first_occurrence(module_name + postfix + fn_name, postfix, module_name.len() as int)
}

/// The module name and the function name in the name of a split point.
pub fn parser<'a>(name: &'a str, prefix: &str, postfix: &str) -> (r: Option<(&'a str, &'a str)>)
    ensures
        match r {
            Some((module_name, fn_name)) => is_entry_name(
                name@,
                prefix@,
                postfix@,
                module_name@,
                fn_name@,
            ),
            None => forall|module_name: Seq<char>, fn_name: Seq<char>|
                !is_entry_name(name@, prefix@, postfix@, module_name, fn_name),
        },
{
    let chars = chars_of(name);
    let start = chars_of(prefix);
    let end = chars_of(postfix);
    if !chars_at(chars.as_slice(), start.as_slice(), 0) {
        proof {
            assert forall|m: Seq<char>, f: Seq<char>|
                !is_entry_name(name@, prefix@, postfix@, m, f) by {
                if is_entry_name(name@, prefix@, postfix@, m, f) {
                    assert(name@.subrange(0, prefix@.len() as int) =~= prefix@);
                }
            }
        }
        return None;
    }
    let ghost rest = name@.skip(prefix@.len() as int);
    assert(name@.subrange(0, prefix@.len() as int) == prefix@);
    assert(name@ =~= prefix@ + rest);
    let tail = vstd::slice::slice_subrange(chars.as_slice(), start.len(), chars.len());
    assert(tail@ =~= rest);
    match find_chars(tail, end.as_slice()) {
        None => {
            proof {
                assert forall|m: Seq<char>, f: Seq<char>|
                    !is_entry_name(name@, prefix@, postfix@, m, f) by {
                    if is_entry_name(name@, prefix@, postfix@, m, f) {
                        assert(rest =~= m + postfix@ + f);
                    }
                }
            }
            None
        },
        Some(at) => {
            let middle: usize = start.len() + at;
            let module_name = name.substring_char(start.len(), middle);
            let fn_name = name.substring_char(middle + end.len(), chars.len());
            proof {
                assert(rest.subrange(at as int, at + postfix@.len()) == postfix@);
                assert(rest =~= module_name@ + postfix@ + fn_name@);
            }
            Some((module_name, fn_name))
        },
    }
}

/// A name is read in one way only.
pub proof fn lemma_entry_name_is_unique(
    name: Seq<char>,
    prefix: Seq<char>,
    postfix: Seq<char>,
    a: (Seq<char>, Seq<char>),
    b: (Seq<char>, Seq<char>),
)
    requires
        is_entry_name(name, prefix, postfix, a.0, a.1),
        is_entry_name(name, prefix, postfix, b.0, b.1),
    ensures
        a == b,
{
    let x = a.0 + postfix + a.1;
    let y = b.0 + postfix + b.1;
    assert(x =~= (prefix + x).skip(prefix.len() as int));
    assert(y =~= (prefix + y).skip(prefix.len() as int));
    assert(x == y);
    if a.0.len() < b.0.len() {
        assert(!occurs_at(y, postfix, a.0.len() as int));
    }
    if b.0.len() < a.0.len() {
        assert(!occurs_at(x, postfix, b.0.len() as int));
    }
    let k = a.0.len() as int;
    assert(a.0 =~= x.take(k));
    assert(b.0 =~= y.take(k));
    assert(a.1 =~= x.skip(k + postfix.len()));
    assert(b.1 =~= y.skip(k + postfix.len()));
}

/// The module name and the function name in the name of a split point, be it an import or an
/// export.
pub fn parse_wamex_entry_name<'a>(name: &'a str) -> (r: Option<(&'a str, &'a str)>)
    ensures
        match r {
            Some((m, f)) => {
                ||| is_entry_name(name@, WAMEX_ENTRY_PREFIX@, SPLIT_IMPORT_POSTFIX@, m@, f@)
                ||| is_entry_name(name@, WAMEX_ENTRY_PREFIX@, SPLIT_EXPORT_POSTFIX@, m@, f@)
                    && !is_marked(name@, WAMEX_ENTRY_PREFIX@, SPLIT_IMPORT_POSTFIX@)
            },
            None => !is_marked(name@, WAMEX_ENTRY_PREFIX@, SPLIT_IMPORT_POSTFIX@) && !is_marked(
                name@,
                WAMEX_ENTRY_PREFIX@,
                SPLIT_EXPORT_POSTFIX@,
            ),
        },
{
    if let Some(v) = parser(name, WAMEX_ENTRY_PREFIX, SPLIT_IMPORT_POSTFIX) {
        return Some(v);
    }
    parser(name, WAMEX_ENTRY_PREFIX, SPLIT_EXPORT_POSTFIX)
}

/// Whether a name has a prefix, and a postfix behind it.
pub open spec fn is_marked(name: Seq<char>, prefix: Seq<char>, postfix: Seq<char>) -> bool {
    exists|m: Seq<char>, f: Seq<char>| is_entry_name(name, prefix, postfix, m, f)
}

/// Whether a text comes before another one: at the first place where they differ it has the smaller
/// character, or it ends there.
pub open spec fn text_less(a: Seq<char>, b: Seq<char>) -> bool {
    exists|k: int| is_difference(a, b, k)
}

/// Whether a text comes before another one because of the place `k`.
pub open spec fn is_difference(a: Seq<char>, b: Seq<char>, k: int) -> bool {
    &&& 0 <= k <= a.len()
    &&& k < b.len()
    &&& a.take(k) == b.take(k)
    &&& k < a.len() ==> a[k] < b[k]
}

/// How two texts are ordered.
#[derive(Debug, Clone, Copy, PartialEq, Eq, Structural)]
pub enum TextOrder {
    Less,
    Equal,
    Greater,
}

/// Whether an order is that of two texts.
pub open spec fn is_order(a: Seq<char>, b: Seq<char>, order: TextOrder) -> bool {
    match order {
        TextOrder::Less => text_less(a, b),
        TextOrder::Equal => a == b,
        TextOrder::Greater => text_less(b, a),
    }
}

/// No text comes before itself, and no two texts before each other.
pub proof fn lemma_text_less_is_asymmetric(a: Seq<char>, b: Seq<char>)
    requires
        text_less(a, b),
    ensures
        a != b,
        !text_less(b, a),
{
    let k = choose|k: int| is_difference(a, b, k);
    if text_less(b, a) {
        let j = choose|j: int| is_difference(b, a, j);
        if k < j {
            assert(b.take(j)[k] == b[k]);
            assert(a.take(j)[k] == a[k]);
        } else if j < k {
            assert(b.take(k)[j] == b[j]);
            assert(a.take(k)[j] == a[j]);
        }
    }
}

/// What comes before a text comes before all that the text comes before.
pub proof fn lemma_text_less_is_transitive(a: Seq<char>, b: Seq<char>, c: Seq<char>)
    requires
        text_less(a, b),
        text_less(b, c),
    ensures
        text_less(a, c),
{
    let j = choose|j: int| is_difference(a, b, j);
    let k = choose|k: int| is_difference(b, c, k);
    let m = if j < k {
        j
    } else {
        k
    };
    assert(a.take(m) =~= c.take(m)) by {
        assert(a.take(m) =~= a.take(j).take(m));
        assert(b.take(m) =~= b.take(j).take(m));
        assert(b.take(m) =~= b.take(k).take(m));
        assert(c.take(m) =~= c.take(k).take(m));
    }
    if j < k {
        assert(b.take(k)[j] == b[j]);
        assert(c.take(k)[j] == c[j]);
    } else if k < j {
        assert(a.take(j)[k] == a[k]);
        assert(b.take(j)[k] == b[k]);
    }
    assert(is_difference(a, c, m));
}

/// Tells how two texts are ordered.
pub fn text_order(a: &str, b: &str) -> (r: TextOrder)
    ensures
        is_order(a@, b@, r),
{
    let x = chars_of(a);
    let y = chars_of(b);
    let mut i: usize = 0;
    while i < x.len() && i < y.len()
        invariant
            i <= x@.len(),
            i <= y@.len(),
            x@ == a@,
            y@ == b@,
            x@.take(i as int) == y@.take(i as int),
        decreases x@.len() - i,
    {
        if x[i] < y[i] {
            assert(is_difference(a@, b@, i as int));
            return TextOrder::Less;
        }
        if y[i] < x[i] {
            assert(is_difference(b@, a@, i as int));
            return TextOrder::Greater;
        }
        assert(x@.take(i + 1) =~= x@.take(i as int).push(x@[i as int]));
        assert(y@.take(i + 1) =~= y@.take(i as int).push(y@[i as int]));
        i = i + 1;
    }
    if i < y.len() {
        assert(is_difference(a@, b@, i as int));
        TextOrder::Less
    } else if i < x.len() {
        assert(is_difference(b@, a@, i as int));
        TextOrder::Greater
    } else {
        assert(x@.take(i as int) =~= x@);
        assert(y@.take(i as int) =~= y@);
        TextOrder::Equal
    }
}

/// Items in the order of their names, with one more, behind those with names up to its name.
pub open spec fn inserted_by_text<T>(items: Seq<T>, item: T, key: spec_fn(T) -> Seq<char>) -> Seq<T>
    decreases items.len(),
{
    if items.len() > 0 && text_less(key(item), key(items.last())) {
        inserted_by_text(items.drop_last(), item, key).push(items.last())
    } else {
        items.push(item)
    }
}

/// Items in the order of their names. Items with equal names keep their order.
pub open spec fn sorted_by_text<T>(items: Seq<T>, key: spec_fn(T) -> Seq<char>) -> Seq<T>
    decreases items.len(),
{
    if items.len() == 0 {
        Seq::empty()
    } else {
        inserted_by_text(sorted_by_text(items.drop_last(), key), items.last(), key)
    }
}

/// Whether items are in the order of their names.
pub open spec fn is_sorted_by_text<T>(items: Seq<T>, key: spec_fn(T) -> Seq<char>) -> bool {
    forall|i: int, j: int|
        #![trigger items[i], items[j]]
        0 <= i < j < items.len() ==> !text_less(key(items[j]), key(items[i]))
}

/// The place at which one more item is inserted.
pub(crate) open spec fn is_text_place<T>(
    items: Seq<T>,
    item: T,
    key: spec_fn(T) -> Seq<char>,
    at: int,
) -> bool {
    &&& 0 <= at <= items.len()
    &&& at > 0 ==> !text_less(key(item), key(items[at - 1]))
    &&& forall|i: int| at <= i < items.len() ==> text_less(key(item), key(#[trigger] items[i]))
}

pub(crate) proof fn lemma_inserted_at<T>(
    items: Seq<T>,
    item: T,
    key: spec_fn(T) -> Seq<char>,
    at: int,
)
    requires
        is_text_place(items, item, key, at),
    ensures
        inserted_by_text(items, item, key) == items.insert(at, item),
    decreases items.len(),
{
    if at < items.len() {
        assert(text_less(key(item), key(items[items.len() - 1])));
        let init = items.drop_last();
        assert forall|i: int| at <= i < init.len() implies text_less(
            key(item),
            key(#[trigger] init[i]),
        ) by {
            assert(text_less(key(item), key(items[i])));
        }
        lemma_inserted_at(init, item, key, at);
        assert(items.insert(at, item) =~= init.insert(at, item).push(items.last()));
    } else {
        assert(items.insert(at, item) =~= items.push(item));
    }
}

proof fn lemma_inserted_is_sorted<T>(items: Seq<T>, item: T, key: spec_fn(T) -> Seq<char>)
    requires
        is_sorted_by_text(items, key),
    ensures
        is_sorted_by_text(inserted_by_text(items, item, key), key),
        inserted_by_text(items, item, key).to_multiset() == items.to_multiset().insert(item),
        inserted_by_text(items, item, key).len() == items.len() + 1,
    decreases items.len(),
{
    let result = inserted_by_text(items, item, key);
    broadcast use vstd::seq_lib::group_to_multiset_ensures;

    if items.len() > 0 && text_less(key(item), key(items.last())) {
        let init = items.drop_last();
        let last = items.last();
        assert forall|i: int, j: int|
            #![trigger init[i], init[j]]
            0 <= i < j < init.len() implies !text_less(key(init[j]), key(init[i])) by {
            assert(!text_less(key(items[j]), key(items[i])));
        }
        lemma_inserted_is_sorted(init, item, key);
        let rest = inserted_by_text(init, item, key);
        assert(items =~= init.push(last));
        assert(result.to_multiset() =~= items.to_multiset().insert(item));
        assert forall|i: int, j: int|
            #![trigger result[i], result[j]]
            0 <= i < j < result.len() implies !text_less(key(result[j]), key(result[i])) by {
            if j < rest.len() {
                assert(rest[i] == result[i]);
                assert(rest[j] == result[j]);
            } else {
                assert(rest[i] == result[i]);
                assert(rest.to_multiset().contains(rest[i]));
                if rest[i] == item {
                    lemma_text_less_is_asymmetric(key(item), key(last));
                } else {
                    assert(init.to_multiset().contains(rest[i]));
                    let k = choose|k: int| 0 <= k < init.len() && init[k] == rest[i];
                    assert(items[k] == rest[i]);
                    assert(items[items.len() - 1] == last);
                }
            }
        }
    } else {
        assert forall|i: int, j: int|
            #![trigger result[i], result[j]]
            0 <= i < j < result.len() implies !text_less(key(result[j]), key(result[i])) by {
            if j < items.len() {
                assert(items[i] == result[i]);
                assert(items[j] == result[j]);
            } else if i < items.len() - 1 {
                let last = items[items.len() - 1];
                assert(items[i] == result[i]);
                assert(!text_less(key(last), key(items[i])));
                if text_less(key(item), key(items[i])) {
                    lemma_text_less_is_connected(key(items[i]), key(last));
                    if text_less(key(items[i]), key(last)) {
                        lemma_text_less_is_transitive(key(item), key(items[i]), key(last));
                    }
                }
            }
        }
        assert(result.to_multiset() =~= items.to_multiset().insert(item));
    }
}

/// Of two different texts one comes before the other.
pub proof fn lemma_text_less_is_connected(a: Seq<char>, b: Seq<char>)
    requires
        a != b,
    ensures
        text_less(a, b) || text_less(b, a),
{
    assert(a.take(0) =~= b.take(0));
    lemma_difference_exists(a, b, 0);
}

proof fn lemma_difference_exists(a: Seq<char>, b: Seq<char>, k: int)
    requires
        a != b,
        0 <= k <= a.len(),
        k <= b.len(),
        a.take(k) == b.take(k),
    ensures
        text_less(a, b) || text_less(b, a),
    decreases a.len() - k,
{
    if k == a.len() {
        if k == b.len() {
            assert(a.take(k) =~= a);
            assert(b.take(k) =~= b);
        } else {
            assert(is_difference(a, b, k));
        }
    } else if k == b.len() {
        assert(is_difference(b, a, k));
    } else if a[k] == b[k] {
        assert(a.take(k + 1) =~= a.take(k).push(a[k]));
        assert(b.take(k + 1) =~= b.take(k).push(b[k]));
        lemma_difference_exists(a, b, k + 1);
    } else if a[k] < b[k] {
        assert(is_difference(a, b, k));
    } else {
        assert(is_difference(b, a, k));
    }
}

/// Sorting by names gives the same items, in the order of their names.
pub proof fn lemma_sorted_by_text<T>(items: Seq<T>, key: spec_fn(T) -> Seq<char>)
    ensures
        is_sorted_by_text(sorted_by_text(items, key), key),
        sorted_by_text(items, key).to_multiset() == items.to_multiset(),
        sorted_by_text(items, key).len() == items.len(),
    decreases items.len(),
{
    broadcast use vstd::seq_lib::group_to_multiset_ensures;

    if items.len() > 0 {
        lemma_sorted_by_text(items.drop_last(), key);
        lemma_inserted_is_sorted(sorted_by_text(items.drop_last(), key), items.last(), key);
        assert(items =~= items.drop_last().push(items.last()));
        assert(items.drop_last().push(items.last()).to_multiset()
            =~= items.drop_last().to_multiset().insert(items.last()));
    }
}

} // verus!
