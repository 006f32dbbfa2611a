//! Typed indices of entities, and the collections that are indexed by them.
//!
//! - [`TempIndex`]: any type-safe 32-bit index of a collection.
//! - [`PrimaryMap`]: a vector whose index is typed.
//! - [`GappedMap`]: a map from indices to values that tolerates gaps.
//! - [`Temp`]: an index whose final value is not known yet.
//! - [`WithStart`]: a vector whose first element has a chosen index.
use core::marker::PhantomData;
use vstd::prelude::*;

verus! {

pub type AnySymbolId = usize;

pub type SectionId = u32;

/// A type-safe 32-bit index. The largest value is reserved and never names an entity.
pub trait TempIndex: Copy {
    /// The number that the index wraps.
    spec fn id(self) -> u32;

    /// Two indices with the same number are the same index.
    proof fn lemma_id_injective(a: Self, b: Self)
        requires
            a.id() == b.id(),
        ensures
            a == b,
    ;

    /// Wraps any number, the reserved one among them.
    fn from_raw(value: u32) -> (r: Self)
        ensures
            r.id() == value,
    ;

    fn as_u32(&self) -> (r: u32)
        ensures
            r == self.id(),
    ;

    fn from_u32(value: u32) -> (r: Self)
        requires
            value < u32::MAX,
        ensures
            r.id() == value,
    {
        Self::from_raw(value)
    }

    fn new(index: usize) -> (r: Self)
        requires
            index < u32::MAX,
        ensures
            r.id() == index,
    {
        Self::from_raw(index as u32)
    }

    fn index(&self) -> (r: usize)
        ensures
            r == self.id(),
    {
        self.as_u32() as usize
    }

    /// The index after this one.
    fn next(&self) -> (r: Self)
        requires
            self.id() + 1 < u32::MAX,
        ensures
            r.id() == self.id() + 1,
    {
        Self::from_raw(self.as_u32() + 1)
    }

    /// The index `rhs` places after this one.
    fn plus(&self, rhs: u32) -> (r: Self)
        requires
            self.id() + rhs < u32::MAX,
        ensures
            r.id() == self.id() + rhs,
    {
        Self::from_raw(self.as_u32() + rhs)
    }

    /// The index `rhs` places before this one.
    fn minus(&self, rhs: u32) -> (r: Self)
        requires
            rhs <= self.id(),
            self.id() - rhs < u32::MAX,
        ensures
            r.id() == self.id() - rhs,
    {
        Self::from_raw(self.as_u32() - rhs)
    }

    /// The index that names no entity.
    fn reserved() -> (r: Self)
        ensures
            r.id() == u32::MAX,
    {
        Self::from_raw(u32::MAX)
    }

    fn is_reserved(&self) -> (r: bool)
        ensures
            r == (self.id() == u32::MAX),
    {
        self.as_u32() == u32::MAX
    }

    /// Whether the two indices are the same.
    fn same(&self, other: &Self) -> (r: bool)
        ensures
            r == (*self == *other),
    {
        proof {
            if self.id() == other.id() {
                Self::lemma_id_injective(*self, *other);
            }
        }
        self.as_u32() == other.as_u32()
    }
}

/// A value type with one state that stands for "no value".
pub trait ReservedValue: Sized {
    spec fn is_reserved_spec(&self) -> bool;

    fn reserved_value() -> (r: Self)
        ensures
            r.is_reserved_spec(),
    ;

    fn is_reserved_value(&self) -> (r: bool)
        ensures
            r == self.is_reserved_spec(),
    ;
}

/// A vector of `V` whose elements are named by indices of type `K`, in order of insertion.
#[verifier::reject_recursive_types(K)]
#[verifier::reject_recursive_types(V)]
#[derive(Debug, PartialEq, Eq)]
pub struct PrimaryMap<K, V> {
    elems: Vec<V>,
    unused: PhantomData<K>,
}

impl<K, V> View for PrimaryMap<K, V> {
    type V = Seq<V>;

    closed spec fn view(&self) -> Seq<V> {
        self.elems@
    }
}

impl<K: TempIndex, V> PrimaryMap<K, V> {
    pub fn new() -> (r: Self)
        ensures
            r@ == Seq::<V>::empty(),
    {
        PrimaryMap { elems: Vec::new(), unused: PhantomData }
    }

    pub fn from_vec(elems: Vec<V>) -> (r: Self)
        ensures
            r@ == elems@,
    {
        PrimaryMap { elems, unused: PhantomData }
    }

    pub fn into_vec(self) -> (r: Vec<V>)
        ensures
            r@ == self@,
    {
        self.elems
    }

    pub fn as_slice(&self) -> (r: &[V])
        ensures
            r@ == self@,
    {
        self.elems.as_slice()
    }

    pub fn len(&self) -> (r: usize)
        ensures
            r == self@.len(),
    {
        self.elems.len()
    }

    pub fn is_empty(&self) -> (r: bool)
        ensures
            r == (self@.len() == 0),
    {
        self.elems.len() == 0
    }

    /// Appends a value and returns its index.
    pub fn push(&mut self, value: V) -> (r: K)
        requires
            old(self)@.len() < u32::MAX,
        ensures
            r.id() == old(self)@.len(),
            final(self)@ == old(self)@.push(value),
    {
        let key = K::new(self.elems.len());
        self.elems.push(value);
        key
    }

    /// The index that the next pushed value gets.
    pub fn next_key(&self) -> (r: K)
        requires
            self@.len() < u32::MAX,
        ensures
            r.id() == self@.len(),
    {
        K::new(self.elems.len())
    }

    pub fn is_valid(&self, key: K) -> (r: bool)
        ensures
            r == (key.id() < self@.len()),
    {
        key.index() < self.elems.len()
    }

    pub fn get(&self, key: K) -> (r: Option<&V>)
        ensures
            r == if key.id() < self@.len() {
                Some(&self@[key.id() as int])
            } else {
                None::<&V>
            },
    {
        if key.index() < self.elems.len() {
            Some(&self.elems[key.index()])
        } else {
            None
        }
    }

    /// The value at a valid index.
    pub fn at(&self, key: K) -> (r: &V)
        requires
            key.id() < self@.len(),
        ensures
            *r == self@[key.id() as int],
    {
        &self.elems[key.index()]
    }

    /// A mutable reference to the value at a valid index.
    pub fn at_mut(&mut self, key: K) -> (r: &mut V)
        requires
            key.id() < old(self)@.len(),
        ensures
            *r == old(self)@[key.id() as int],
            final(self)@ == old(self)@.update(key.id() as int, *final(r)),
    {
        &mut self.elems[key.index()]
    }

    /// Replaces the value at a valid index.
    pub fn set(&mut self, key: K, value: V)
        requires
            key.id() < old(self)@.len(),
        ensures
            final(self)@ == old(self)@.update(key.id() as int, value),
    {
        self.elems.set(key.index(), value);
    }
}

/// Number of filled slots.
pub open spec fn filled<V>(slots: Seq<Option<V>>) -> nat
    decreases slots.len(),
{
    if slots.len() == 0 {
        0
    } else {
        filled(slots.drop_last()) + if slots.last() is Some {
            1nat
        } else {
            0nat
        }
    }
}

/// The key and value of every filled slot, in order of the keys.
pub open spec fn entries<V>(slots: Seq<Option<V>>) -> Seq<(u32, V)>
    decreases slots.len(),
{
    if slots.len() == 0 {
        Seq::empty()
    } else {
        match slots.last() {
            Some(v) => entries(slots.drop_last()).push(((slots.len() - 1) as u32, v)),
            None => entries(slots.drop_last()),
        }
    }
}

/// The slots after room was made for the slot with number `key`.
pub open spec fn grown<V>(slots: Seq<Option<V>>, key: nat) -> Seq<Option<V>> {
    if key < slots.len() {
        slots
    } else {
        slots + Seq::new((key + 1 - slots.len()) as nat, |i: int| None::<V>)
    }
}

/// What the slots hold for `key`.
pub open spec fn slot_at<V>(slots: Seq<Option<V>>, key: nat) -> Option<V> {
    if key < slots.len() {
        slots[key as int]
    } else {
        None
    }
}

proof fn lemma_filled_append_empty<V>(slots: Seq<Option<V>>, n: nat)
    ensures
        filled(slots + Seq::new(n, |i: int| None::<V>)) == filled(slots),
    decreases n,
{
    let empty = Seq::new(n, |i: int| None::<V>);
    if n == 0 {
        assert(slots + empty =~= slots);
    } else {
        lemma_filled_append_empty(slots, (n - 1) as nat);
        assert((slots + empty).drop_last() =~= slots + Seq::new(
            (n - 1) as nat,
            |i: int| None::<V>,
        ));
    }
}

proof fn lemma_filled_grown<V>(slots: Seq<Option<V>>, key: nat)
    ensures
        filled(grown(slots, key)) == filled(slots),
        key < grown(slots, key).len(),
        forall|k: nat| slot_at(grown(slots, key), k) == slot_at(slots, k),
{
    if key >= slots.len() {
        lemma_filled_append_empty(slots, (key + 1 - slots.len()) as nat);
    }
}

proof fn lemma_filled_update<V>(slots: Seq<Option<V>>, i: int, value: Option<V>)
    requires
        0 <= i < slots.len(),
    ensures
        filled(slots.update(i, value)) == filled(slots) - (if slots[i] is Some {
            1int
        } else {
            0
        }) + (if value is Some {
            1int
        } else {
            0
        }),
    decreases slots.len(),
{
    let updated = slots.update(i, value);
    if i == slots.len() - 1 {
        assert(updated.drop_last() =~= slots.drop_last());
    } else {
        lemma_filled_update(slots.drop_last(), i, value);
        assert(updated.drop_last() =~= slots.drop_last().update(i, value));
    }
}

pub(crate) proof fn lemma_filled_bound<V>(slots: Seq<Option<V>>)
    ensures
        filled(slots) <= slots.len(),
    decreases slots.len(),
{
    if slots.len() > 0 {
        lemma_filled_bound(slots.drop_last());
    }
}

/// If every slot is filled, their number is that of all slots.
pub(crate) proof fn lemma_all_filled<V>(slots: Seq<Option<V>>)
    requires
        forall|i: int| 0 <= i < slots.len() ==> #[trigger] slots[i] is Some,
    ensures
        filled(slots) == slots.len(),
    decreases slots.len(),
{
    if slots.len() > 0 {
        lemma_all_filled(slots.drop_last());
    }
}

proof fn lemma_filled_zero<V>(slots: Seq<Option<V>>)
    ensures
        filled(slots) == 0 <==> forall|k: nat| slot_at(slots, k) is None,
    decreases slots.len(),
{
    if slots.len() > 0 {
        let init = slots.drop_last();
        lemma_filled_zero(init);
        assert forall|k: nat| filled(slots) == 0 implies slot_at(slots, k) is None by {
            assert(slot_at(init, k) is None);
        }
        if forall|k: nat| slot_at(slots, k) is None {
            assert forall|k: nat| slot_at(init, k) is None by {
                assert(slot_at(slots, k) is None);
            }
            assert(slot_at(slots, (slots.len() - 1) as nat) is None);
        }
    }
}

/// A filled slot is one of the entries.
pub(crate) proof fn lemma_slot_is_entry<V>(slots: Seq<Option<V>>, key: nat) -> (i: int)
    requires
        slot_at(slots, key) is Some,
        slots.len() <= u32::MAX,
    ensures
        0 <= i < entries(slots).len(),
        entries(slots)[i] == (key as u32, slot_at(slots, key)->0),
    decreases slots.len(),
{
    if key == slots.len() - 1 {
        entries(slots).len() - 1
    } else {
        lemma_slot_is_entry(slots.drop_last(), key)
    }
}

/// Every entry is a filled slot.
pub(crate) proof fn lemma_entry_is_slot<V>(slots: Seq<Option<V>>, i: int)
    requires
        0 <= i < entries(slots).len(),
        slots.len() <= u32::MAX,
    ensures
        slot_at(slots, entries(slots)[i].0 as nat) == Some(entries(slots)[i].1),
    decreases slots.len(),
{
    let init = slots.drop_last();
    if slots.last() is None || i < entries(slots).len() - 1 {
        lemma_entry_is_slot(init, i);
        assert(entries(slots)[i] == entries(init)[i]);
        assert(slot_at(init, entries(init)[i].0 as nat) is Some);
    }
}

/// A map from indices to values that tolerates gaps. Every index up to the largest one that was
/// ever touched has a slot, so a lookup is one access.
#[verifier::reject_recursive_types(K)]
#[verifier::reject_recursive_types(V)]
#[derive(Debug, PartialEq, Eq)]
pub struct GappedMap<K, V> {
    slots: Vec<Option<V>>,
    length: usize,
    unused: PhantomData<K>,
}

impl<K, V> View for GappedMap<K, V> {
    type V = Seq<Option<V>>;

    /// The slots; the slot with number `i` belongs to the index `i`.
    closed spec fn view(&self) -> Seq<Option<V>> {
        self.slots@
    }
}

impl<K: TempIndex, V> GappedMap<K, V> {
    /// The number of filled slots is tracked, and every slot has an index.
    pub closed spec fn wf(&self) -> bool {
        &&& self.length == filled(self@)
        &&& self@.len() < u32::MAX
    }

    /// A map with the same values.
    pub fn duplicate(&self) -> (r: Self)
        where V: Copy
        requires
            self.wf(),
        ensures
            r.wf(),
            r@ == self@,
    {
        let mut slots: Vec<Option<V>> = Vec::new();
        let mut i: usize = 0;
        while i < self.slots.len()
            invariant
                i <= self.slots@.len(),
                slots@ == self.slots@.take(i as int),
            decreases self.slots@.len() - i,
        {
            slots.push(self.slots[i]);
            assert(self.slots@.take(i + 1) =~= self.slots@.take(i as int).push(
                self.slots@[i as int],
            ));
            i = i + 1;
        }
        assert(slots@ =~= self.slots@);
        GappedMap { slots, length: self.length, unused: PhantomData }
    }

    /// The value at `key`, if any.
    pub open spec fn lookup(&self, key: K) -> Option<V> {
        slot_at(self@, key.id() as nat)
    }

    /// Every slot has an index.
    pub proof fn lemma_len(&self)
        requires
            self.wf(),
        ensures
            self@.len() < u32::MAX,
    {
    }

    pub fn new() -> (r: Self)
        ensures
            r.wf(),
            r@ == Seq::<Option<V>>::empty(),
    {
        GappedMap { slots: Vec::new(), length: 0, unused: PhantomData }
    }

    /// Makes room for the slot of `key`.
    fn grow(&mut self, key: usize)
        requires
            old(self).wf(),
            key + 1 < u32::MAX,
        ensures
            final(self).wf(),
            final(self)@ == grown(old(self)@, key as nat),
    {
        let ghost before = self@;
        proof {
            lemma_filled_grown(before, key as nat);
        }
        while self.slots.len() <= key
            invariant
                before.len() <= self@.len(),
                self@.len() <= before.len() || self@.len() <= key + 1,
                self@ =~= before + Seq::new(
                    (self@.len() - before.len()) as nat,
                    |i: int| None::<V>,
                ),
                self.length == filled(before),
                before.len() < u32::MAX,
                key + 1 < u32::MAX,
            decreases key + 1 - self@.len(),
        {
            self.slots.push(None);
        }
        assert(self@ =~= grown(before, key as nat));
    }

    /// Inserts a value and returns the one that it replaces, if any.
    pub fn insert(&mut self, key: K, value: V) -> (r: Option<V>)
        where V: ReservedValue
        requires
            old(self).wf(),
            key.id() + 1 < u32::MAX,
            !value.is_reserved_spec(),
        ensures
            final(self).wf(),
            r == old(self).lookup(key),
            final(self)@ == grown(old(self)@, key.id() as nat).update(key.id() as int, Some(value)),
    {
        let i: usize = key.index();
        proof {
            lemma_filled_grown(self@, i as nat);
        }
        self.grow(i);
        let ghost before = self@;
        proof {
            lemma_filled_update(before, i as int, Some(value));
            lemma_filled_update(before, i as int, None);
            lemma_filled_bound(before.update(i as int, None));
        }
        let previous = self.slots[i].take();
        self.slots.set(i, Some(value));
        assert(self@ =~= before.update(i as int, Some(value)));
        if previous.is_none() {
            self.length = self.length + 1;
        }
        previous
    }

    /// Inserts a value behind the last slot and returns its index.
    pub fn push(&mut self, value: V) -> (r: K)
        where V: ReservedValue
        requires
            old(self).wf(),
            old(self)@.len() + 1 < u32::MAX,
            !value.is_reserved_spec(),
        ensures
            final(self).wf(),
            r.id() == old(self)@.len(),
            final(self)@ == old(self)@.push(Some(value)),
    {
        let key = K::new(self.slots.len());
        let ghost before = self@;
        let _ = self.insert(key, value);
        assert(self@ =~= before.push(Some(value)));
        key
    }

    /// Empties the slot of `key` and returns what it held.
    pub fn remove(&mut self, key: K) -> (r: Option<V>)
        requires
            old(self).wf(),
            key.id() + 1 < u32::MAX,
        ensures
            final(self).wf(),
            r == old(self).lookup(key),
            final(self)@ == grown(old(self)@, key.id() as nat).update(key.id() as int, None),
    {
        let i: usize = key.index();
        proof {
            lemma_filled_grown(self@, i as nat);
        }
        self.grow(i);
        let ghost before = self@;
        proof {
            lemma_filled_update(before, i as int, None);
        }
        let previous = self.slots[i].take();
        assert(self@ =~= before.update(i as int, None));
        if previous.is_some() {
            self.length = self.length - 1;
        }
        previous
    }

    pub fn get(&self, key: K) -> (r: Option<&V>)
        ensures
            r == match self.lookup(key) {
                Some(v) => Some(&v),
                None => None,
            },
    {
        if key.index() < self.slots.len() {
            self.slots[key.index()].as_ref()
        } else {
            None
        }
    }

    /// A mutable reference to the value at `key`; makes room for the slot.
    pub fn get_mut(&mut self, key: K) -> (r: Option<&mut V>)
        requires
            old(self).wf(),
            key.id() + 1 < u32::MAX,
        ensures
            final(self).wf(),
            match r {
                Some(v) => old(self).lookup(key) == Some(*v) && final(self)@ == old(self)@.update(
                    key.id() as int,
                    Some(*final(v)),
                ),
                None => old(self).lookup(key) is None && final(self)@ == grown(
                    old(self)@,
                    key.id() as nat,
                ),
            },
    {
        let i: usize = key.index();
        proof {
            lemma_filled_grown(self@, i as nat);
        }
        self.grow(i);
        if self.slots[i].is_none() {
            return None;
        }
        let ghost slots = self@;
        proof {
            assert forall|v: V| #[trigger] filled(slots.update(i as int, Some(v))) == filled(
                slots,
            ) by {
                lemma_filled_update(slots, i as int, Some(v));
            }
        }
        self.slots[i].as_mut()
    }

    /// The value in a filled slot.
    fn slot_mut(&mut self, key: K) -> (r: &mut V)
        requires
            old(self).wf(),
            old(self).lookup(key) is Some,
        ensures
            final(self).wf(),
            Some(*r) == old(self).lookup(key),
            final(self)@ == old(self)@.update(key.id() as int, Some(*final(r))),
    {
        let i: usize = key.index();
        let ghost slots = self@;
        proof {
            assert forall|v: V| #[trigger] filled(slots.update(i as int, Some(v))) == filled(
                slots,
            ) by {
                lemma_filled_update(slots, i as int, Some(v));
            }
        }
        self.slots[i].as_mut().unwrap()
    }

    /// The slot of `key`.
    pub fn entry(&mut self, key: K) -> (r: GappedMapEntry<'_, K, V>)
        ensures
            *r.map == *old(self),
            *final(r.map) == *final(self),
            r.key == key,
    {
        GappedMapEntry { map: self, key }
    }

    /// Every filled slot with its index, in order of the indices.
    pub fn iter(&self) -> (r: Vec<(K, &V)>)
        requires
            self.wf(),
        ensures
            r@.len() == entries(self@).len(),
            forall|i: int|
                0 <= i < r@.len() ==> (#[trigger] r@[i]).0.id() == entries(self@)[i].0
                    && *r@[i].1 == entries(self@)[i].1,
    {
        let mut result: Vec<(K, &V)> = Vec::new();
        let mut i: usize = 0;
        while i < self.slots.len()
            invariant
                self.wf(),
                i <= self@.len(),
                result@.len() == entries(self@.take(i as int)).len(),
                forall|j: int|
                    0 <= j < result@.len() ==> (#[trigger] result@[j]).0.id() == entries(
                        self@.take(i as int),
                    )[j].0 && *result@[j].1 == entries(self@.take(i as int))[j].1,
            decreases self@.len() - i,
        {
            assert(self@.take(i + 1).drop_last() =~= self@.take(i as int));
            if let Some(v) = &self.slots[i] {
                result.push((K::new(i), v));
            }
            i = i + 1;
        }
        assert(self@.take(i as int) =~= self@);
        result
    }

    /// The largest index that has a value.
    pub fn last_key(&self) -> (r: Option<K>)
        requires
            self.wf(),
        ensures
            match r {
                Some(k) => self.lookup(k) is Some && forall|j: nat|
                    j > k.id() ==> slot_at(self@, j) is None,
                None => forall|j: nat| slot_at(self@, j) is None,
            },
    {
        let mut i: usize = self.slots.len();
        while i > 0
            invariant
                self.wf(),
                i <= self@.len(),
                forall|j: nat| i <= j ==> slot_at(self@, j) is None,
            decreases i,
        {
            i = i - 1;
            if self.slots[i].is_some() {
                return Some(K::new(i));
            }
        }
        None
    }

    /// The index after the largest one that has a value.
    pub fn next_key(&self) -> (r: K)
        requires
            self.wf(),
        ensures
            forall|j: nat| j >= r.id() ==> slot_at(self@, j) is None,
            r.id() > 0 ==> slot_at(self@, (r.id() - 1) as nat) is Some,
    {
        match self.last_key() {
            Some(k) => K::new(k.index() + 1),
            None => K::new(0),
        }
    }

    /// Number of values in the map.
    pub fn len(&self) -> (r: usize)
        requires
            self.wf(),
        ensures
            r == filled(self@),
    {
        self.length
    }

    pub fn is_empty(&self) -> (r: bool)
        requires
            self.wf(),
        ensures
            r == forall|k: nat| slot_at(self@, k) is None,
    {
        proof {
            lemma_filled_zero(self@);
        }
        self.length == 0
    }

    /// Whether no key has a value, whatever the number of values is taken to be.
    pub(crate) fn is_vacant(&self) -> (r: bool)
        ensures
            r == forall|k: nat| slot_at(self@, k) is None,
    {
        let mut i: usize = 0;
        while i < self.slots.len()
            invariant
                i <= self@.len(),
                forall|k: nat| k < i ==> slot_at(self@, k) is None,
            decreases self@.len() - i,
        {
            if self.slots[i].is_some() {
                assert(slot_at(self@, i as nat) is Some);
                return false;
            }
            i = i + 1;
        }
        true
    }

    /// Inserts every pair, in order.
    pub fn extend(&mut self, items: Vec<(K, V)>)
        where V: ReservedValue
        requires
            old(self).wf(),
            forall|i: int|
                0 <= i < items@.len() ==> (#[trigger] items@[i]).0.id() + 1 < u32::MAX
                    && !items@[i].1.is_reserved_spec(),
        ensures
            final(self).wf(),
            final(self)@ == inserted(old(self)@, items@),
    {
        let ghost all = items@;
        let ghost before = self@;
        for item in it: items
            invariant
                self.wf(),
                it.seq() == all,
                self@ == inserted(before, all.take(it.index() as int)),
                forall|i: int|
                    0 <= i < all.len() ==> (#[trigger] all[i]).0.id() + 1 < u32::MAX
                        && !all[i].1.is_reserved_spec(),
        {
            proof {
                assert(item == all[it.index() as int]);
                assert(all.take(it.index() + 1).drop_last() =~= all.take(it.index() as int));
            }
            let (key, value) = item;
            let _ = self.insert(key, value);
        }
        assert(all.take(all.len() as int) =~= all);
    }

    pub fn from_iter(items: Vec<(K, V)>) -> (r: Self)
        where V: ReservedValue
        requires
            forall|i: int|
                0 <= i < items@.len() ==> (#[trigger] items@[i]).0.id() + 1 < u32::MAX
                    && !items@[i].1.is_reserved_spec(),
        ensures
            r.wf(),
            r@ == inserted(Seq::<Option<V>>::empty(), items@),
    {
        let mut map = GappedMap::new();
        map.extend(items);
        map
    }
}

/// The slot of an index in a map.
#[verifier::reject_recursive_types(K)]
#[verifier::reject_recursive_types(V)]
pub struct GappedMapEntry<'a, K, V> {
    pub map: &'a mut GappedMap<K, V>,
    pub key: K,
}

impl<'a, K: TempIndex, V: ReservedValue> GappedMapEntry<'a, K, V> {
    /// The value in the slot, after `value` was inserted there if there was none.
    pub fn or_insert(self, value: V) -> (r: &'a mut V)
        requires
            self.map.wf(),
            self.key.id() + 1 < u32::MAX,
            !value.is_reserved_spec(),
        ensures
            final(self.map).wf(),
            *r == match old(self.map).lookup(self.key) {
                Some(v) => v,
                None => value,
            },
            final(self.map)@ == grown(old(self.map)@, self.key.id() as nat).update(
                self.key.id() as int,
                Some(*final(r)),
            ),
    {
        let map = self.map;
        let ghost before = map@;
        if map.get(self.key).is_none() {
            let _ = map.insert(self.key, value);
        }
        let ghost i = self.key.id() as int;
        assert(map@ =~= grown(before, i as nat).update(i, map@[i]));
        map.slot_mut(self.key)
    }

    /// The value in the slot, after what the function gives was inserted there if there was none.
    pub fn or_insert_with<F: FnOnce() -> V>(self, f: F) -> (r: &'a mut V)
        requires
            self.map.wf(),
            self.key.id() + 1 < u32::MAX,
            self.map.lookup(self.key) is None ==> call_requires(f, ()),
            forall|v: V| call_ensures(f, (), v) ==> !v.is_reserved_spec(),
        ensures
            final(self.map).wf(),
            match old(self.map).lookup(self.key) {
                Some(v) => *r == v,
                None => call_ensures(f, (), *r),
            },
            final(self.map)@ == grown(old(self.map)@, self.key.id() as nat).update(
                self.key.id() as int,
                Some(*final(r)),
            ),
    {
        let map = self.map;
        let ghost before = map@;
        if map.get(self.key).is_none() {
            let _ = map.insert(self.key, f());
        }
        let ghost i = self.key.id() as int;
        assert(map@ =~= grown(before, i as nat).update(i, map@[i]));
        map.slot_mut(self.key)
    }
}

/// The slots after every pair was inserted, in order.
pub open spec fn inserted<K: TempIndex, V>(
    slots: Seq<Option<V>>,
    items: Seq<(K, V)>,
) -> Seq<Option<V>>
    decreases items.len(),
{
    if items.len() == 0 {
        slots
    } else {
        let (key, value) = items.last();
        grown(inserted(slots, items.drop_last()), key.id() as nat).update(
            key.id() as int,
            Some(value),
        )
    }
}

/// An inserted value is what a lookup of its index gives; every other lookup is unchanged.
pub proof fn lemma_insert_then_get<V>(slots: Seq<Option<V>>, key: nat, value: V, other: nat)
    ensures
        slot_at(grown(slots, key).update(key as int, Some(value)), other) == if other == key {
            Some(value)
        } else {
            slot_at(slots, other)
        },
{
    lemma_filled_grown(slots, key);
    assert(slot_at(grown(slots, key), other) == slot_at(slots, other));
}

/// A removed index has no value; every other lookup is unchanged.
pub proof fn lemma_remove_then_get<V>(slots: Seq<Option<V>>, key: nat, other: nat)
    ensures
        slot_at(grown(slots, key).update(key as int, None), other) == if other == key {
            None
        } else {
            slot_at(slots, other)
        },
{
    lemma_filled_grown(slots, key);
    assert(slot_at(grown(slots, key), other) == slot_at(slots, other));
}

/// Removing what was inserted at a fresh index leaves every lookup as it was.
pub proof fn lemma_remove_undoes_insert<V>(slots: Seq<Option<V>>, key: nat, value: V, other: nat)
    requires
        slot_at(slots, key) is None,
    ensures
        ({
            let with = grown(slots, key).update(key as int, Some(value));
            slot_at(grown(with, key).update(key as int, None), other) == slot_at(slots, other)
        }),
{
    let with = grown(slots, key).update(key as int, Some(value));
    lemma_insert_then_get(slots, key, value, other);
    lemma_remove_then_get(with, key, other);
}

/// A map from indices to values in which every index that was not set has a default value.
#[verifier::reject_recursive_types(K)]
#[verifier::reject_recursive_types(V)]
#[derive(Debug, PartialEq, Eq)]
pub struct SecondaryMap<K, V> {
    elems: Vec<V>,
    default: V,
    unused: PhantomData<K>,
}

impl<K: TempIndex, V: Copy> SecondaryMap<K, V> {
    /// How many first keys have a value of their own.
    pub closed spec fn span(&self) -> nat {
        self.elems@.len()
    }

    /// How many first keys have a value of their own.
    pub fn len(&self) -> (r: usize)
        ensures
            r == self.span(),
    {
        self.elems.len()
    }

    pub closed spec fn value(&self, key: nat) -> V {
        if key < self.elems@.len() {
            self.elems@[key as int]
        } else {
            self.default
        }
    }

    /// The map in which every index has the same value.
    pub fn with_default(default: V) -> (r: Self)
        ensures
            forall|key: nat| r.value(key) == default,
    {
        SecondaryMap { elems: Vec::new(), default, unused: PhantomData }
    }

    pub fn get(&self, key: K) -> (r: V)
        ensures
            r == self.value(key.id() as nat),
    {
        if key.index() < self.elems.len() {
            self.elems[key.index()]
        } else {
            self.default
        }
    }

    pub fn set(&mut self, key: K, value: V)
        ensures
            forall|k: nat|
                final(self).value(k) == if k == key.id() {
                    value
                } else {
                    old(self).value(k)
                },
    {
        let ghost before = *self;
        let index: usize = key.index();
        while self.elems.len() <= index
            invariant
                index == key.id(),
                self.default == before.default,
                forall|k: nat| self.value(k) == before.value(k),
            decreases index + 1 - self.elems@.len(),
        {
            let ghost shorter = *self;
            self.elems.push(self.default);
            proof {
                assert forall|k: nat| self.value(k) == before.value(k) by {
                    assert(self.value(k) == shorter.value(k));
                }
            }
        }
        self.elems.set(index, value);
        proof {
            assert forall|k: nat| #[trigger] self.value(k) == if k == key.id() {
                value
            } else {
                before.value(k)
            } by {}
        }
    }
}

/// Flag of a defined entity in the bits of a [`Temp`].
pub const DEFINED_FLAG: u32 = 0x8000_0000;

/// Flag of an external entity in the bits of a [`Temp`].
pub const EXTERNAL_FLAG: u32 = 0x4000_0000;

/// Largest index that a [`Temp`] can hold.
pub const MAX_VALUE: u32 = 0x3fff_ffff;

/// What a [`Temp`] stands for.
pub enum TempKind {
    Import(u32),
    Defined(u32),
    External(u32),
}

/// Temporary index, a packed representation of an imported, defined or external index. It is used
/// while a module is built, when imports may still shift the defined entities.
///
/// It has three states:
/// - `[1<value>]`: defined entity,
/// - `[00<value>]`: imported entity,
/// - `[01<value>]`: external entity.
#[verifier::reject_recursive_types(Idx)]
#[derive(Debug, PartialEq, Eq, PartialOrd, Ord, Hash)]
pub struct Temp<Idx> {
    bits: u32,
    unused: PhantomData<Idx>,
}

impl<Idx> Copy for Temp<Idx> {

}

impl<Idx> Clone for Temp<Idx> {
    fn clone(&self) -> (r: Self)
        ensures
            r == *self,
    {
        *self
    }
}

impl<Idx> Temp<Idx> {
    pub closed spec fn bits_spec(self) -> u32 {
        self.bits
    }

    /// The two flags are never set together.
    pub open spec fn wf(self) -> bool {
        self.bits_spec() < DEFINED_FLAG + EXTERNAL_FLAG
    }

    pub open spec fn kind(self) -> TempKind {
        let bits = self.bits_spec();
        if bits >= DEFINED_FLAG {
            TempKind::Defined((bits - DEFINED_FLAG) as u32)
        } else if bits >= EXTERNAL_FLAG {
            TempKind::External((bits - EXTERNAL_FLAG) as u32)
        } else {
            TempKind::Import(bits)
        }
    }

    /// The final index among `num_imports` imported, then `num_defined` defined, then external
    /// entities.
    pub open spec fn stable(self, num_imports: nat, num_defined: nat) -> nat {
        match self.kind() {
            TempKind::Import(i) => i as nat,
            TempKind::Defined(i) => num_imports + i as nat,
            TempKind::External(i) => num_imports + num_defined + i as nat,
        }
    }

    pub fn from_import(index: usize) -> (r: Self)
        requires
            index <= MAX_VALUE,
        ensures
            r.wf(),
            r.kind() == TempKind::Import(index as u32),
    {
        Temp { bits: index as u32, unused: PhantomData }
    }

    pub fn from_defined(index: usize) -> (r: Self)
        requires
            index <= MAX_VALUE,
        ensures
            r.wf(),
            r.kind() == TempKind::Defined(index as u32),
    {
        let value: u32 = index as u32;
        assert(value <= 0x3fff_ffffu32 ==> value | 0x8000_0000u32 == value + 0x8000_0000u32)
            by (bit_vector);
        Temp { bits: value | DEFINED_FLAG, unused: PhantomData }
    }

    pub fn from_external(index: usize) -> (r: Self)
        requires
            index <= MAX_VALUE,
        ensures
            r.wf(),
            r.kind() == TempKind::External(index as u32),
    {
        let value: u32 = index as u32;
        assert(value <= 0x3fff_ffffu32 ==> value | 0x4000_0000u32 == value + 0x4000_0000u32)
            by (bit_vector);
        Temp { bits: value | EXTERNAL_FLAG, unused: PhantomData }
    }

    /// The index with the given bits; both flags set together make it ill-formed.
    pub fn from_bits(value: u32) -> (r: Self)
        ensures
            r.bits_spec() == value,
    {
        Temp { bits: value, unused: PhantomData }
    }

    pub fn as_bits(&self) -> (r: u32)
        ensures
            r == self.bits_spec(),
    {
        self.bits
    }
}

impl<Idx: TempIndex> Temp<Idx> {
    pub fn as_import(&self) -> (r: Option<Idx>)
        ensures
            match r {
                Some(idx) => self.kind() == TempKind::Import(idx.id()),
                None => !(self.kind() is Import),
            },
    {
        let bits: u32 = self.bits;
        assert(bits & 0x8000_0000u32 == 0 <==> bits < 0x8000_0000u32) by (bit_vector);
        assert(bits < 0x8000_0000u32 ==> (bits & 0x4000_0000u32 == 0 <==> bits < 0x4000_0000u32))
            by (bit_vector);
        if bits & DEFINED_FLAG == 0 && bits & EXTERNAL_FLAG == 0 {
            Some(Idx::from_u32(bits))
        } else {
            None
        }
    }

    pub fn as_defined(&self) -> (r: Option<u32>)
        ensures
            r == match self.kind() {
                TempKind::Defined(i) => Some(i),
                _ => None,
            },
    {
        let bits: u32 = self.bits;
        assert(bits & 0x8000_0000u32 != 0 <==> bits >= 0x8000_0000u32) by (bit_vector);
        assert(bits >= 0x8000_0000u32 ==> bits & !0x8000_0000u32 == bits - 0x8000_0000u32)
            by (bit_vector);
        if bits & DEFINED_FLAG != 0 {
            Some(bits & !DEFINED_FLAG)
        } else {
            None
        }
    }

    /// The final index, once the numbers of imported and of defined entities are known.
    pub fn to_stable(self, num_imports: usize, num_defined: usize) -> (r: Idx)
        requires
            self.wf(),
            self.stable(num_imports as nat, num_defined as nat) < u32::MAX,
        ensures
            r.id() == self.stable(num_imports as nat, num_defined as nat),
    {
        let bits: u32 = self.bits;
        assert(bits & 0x3fff_ffffu32 == if bits >= 0x8000_0000u32 {
            bits - 0x8000_0000u32
        } else if bits >= 0x4000_0000u32 {
            bits - 0x4000_0000u32
        } else {
            bits as int
        }) by (bit_vector)
            requires
                bits < 0xc000_0000u32,
        ;
        let index: u32 = bits & MAX_VALUE;
        if bits < EXTERNAL_FLAG {
            Idx::from_u32(index)
        } else if bits < DEFINED_FLAG {
            Idx::from_u32(num_imports as u32 + num_defined as u32 + index)
        } else {
            Idx::from_u32(num_imports as u32 + index)
        }
    }
}

/// Well-formed temporary indices of the same kind and number are equal.
pub proof fn lemma_kind_injective<Idx>(a: Temp<Idx>, b: Temp<Idx>)
    requires
        a.kind() == b.kind(),
    ensures
        a == b,
{
}

/// Imported, defined and external entities get distinct final indices, as long as the indices of
/// imported and of defined entities stay below their numbers.
pub proof fn lemma_stable_injective<Idx>(
    a: Temp<Idx>,
    b: Temp<Idx>,
    num_imports: nat,
    num_defined: nat,
)
    requires
        a.kind() matches TempKind::Import(i) ==> i < num_imports,
        b.kind() matches TempKind::Import(i) ==> i < num_imports,
        a.kind() matches TempKind::Defined(i) ==> i < num_defined,
        b.kind() matches TempKind::Defined(i) ==> i < num_defined,
        a.stable(num_imports, num_defined) == b.stable(num_imports, num_defined),
    ensures
        a.kind() == b.kind(),
        a == b,
{
}

/// A vector whose first element has the index `start`.
#[verifier::reject_recursive_types(Idx)]
#[verifier::reject_recursive_types(Val)]
#[derive(Debug, Clone, PartialEq, Eq)]
pub struct WithStart<Idx, Val> {
    start: Idx,
    value: Vec<Val>,
}

impl<Idx, Val> View for WithStart<Idx, Val> {
    type V = Seq<Val>;

    closed spec fn view(&self) -> Seq<Val> {
        self.value@
    }
}

impl<Idx, Val> WithStart<Idx, Val> {
    pub closed spec fn start_spec(&self) -> Idx {
        self.start
    }

    pub fn new(start: Idx, value: Vec<Val>) -> (r: Self)
        ensures
            r@ == value@,
            r.start_spec() == start,
    {
        WithStart { start, value }
    }

    pub fn as_mut_slice(&mut self) -> (r: &mut [Val])
        ensures
            r@ == old(self)@,
            final(self)@ == final(r)@,
            final(self).start_spec() == old(self).start_spec(),
    {
        self.value.as_mut_slice()
    }

    pub fn as_slice(&self) -> (r: &[Val])
        ensures
            r@ == self@,
    {
        self.value.as_slice()
    }

    pub fn len(&self) -> (r: usize)
        ensures
            r == self@.len(),
    {
        self.value.len()
    }

    pub fn is_empty(&self) -> (r: bool)
        ensures
            r == (self@.len() == 0),
    {
        self.value.len() == 0
    }
}

impl<Idx: TempIndex, Val> WithStart<Idx, Val> {
    /// Index of the first value.
    pub fn start(&self) -> (r: Idx)
        where Idx: Copy
        ensures
            r == self.start_spec(),
    {
        self.start
    }

    /// The element with the given index.
    pub fn get(&self, idx: Idx) -> (r: Option<&Val>)
        ensures
            r == if self.start_spec().id() <= idx.id() < self.start_spec().id() + self@.len() {
                Some(&self@[idx.id() - self.start_spec().id()])
            } else {
                None::<&Val>
            },
    {
        let start: usize = self.start.index();
        let index: usize = idx.index();
        if start <= index && index - start < self.value.len() {
            Some(&self.value[index - start])
        } else {
            None
        }
    }

    /// Every element with its index.
    pub fn iter(&self) -> (r: Vec<(Idx, &Val)>)
        requires
            self.start_spec().id() + self@.len() <= u32::MAX,
        ensures
            r@.len() == self@.len(),
            forall|i: int|
                0 <= i < r@.len() ==> (#[trigger] r@[i]).0.id() == self.start_spec().id() + i
                    && *r@[i].1 == self@[i],
    {
        let mut result: Vec<(Idx, &Val)> = Vec::new();
        let mut i: usize = 0;
        while i < self.value.len()
            invariant
                i <= self@.len(),
                result@.len() == i,
                self.start_spec().id() + self@.len() <= u32::MAX,
                forall|j: int|
                    0 <= j < i ==> (#[trigger] result@[j]).0.id() == self.start_spec().id() + j
                        && *result@[j].1 == self@[j],
            decreases self@.len() - i,
        {
            result.push((Idx::new(self.start.index() + i), &self.value[i]));
            i = i + 1;
        }
        result
    }

    /// Every element with its index, by value.
    pub fn into_iter(self) -> (r: Vec<(Idx, Val)>)
        requires
            self.start_spec().id() + self@.len() <= u32::MAX,
        ensures
            r@.len() == self@.len(),
            forall|i: int|
                0 <= i < r@.len() ==> (#[trigger] r@[i]).0.id() == self.start_spec().id() + i
                    && r@[i].1 == self@[i],
    {
        let ghost all = self@;
        let start = self.start;
        let mut result: Vec<(Idx, Val)> = Vec::new();
        for item in it: self.value
            invariant
                it.seq() == all,
                result@.len() == it.index(),
                start.id() + all.len() <= u32::MAX,
                forall|j: int|
                    0 <= j < result@.len() ==> (#[trigger] result@[j]).0.id() == start.id() + j
                        && result@[j].1 == all[j],
        {
            let index: usize = start.index() + result.len();
            result.push((Idx::new(index), item));
        }
        result
    }
}

/// A value that is known to differ from the default of its type.
#[derive(Debug, Clone, Copy, PartialEq, Eq, PartialOrd, Ord, Hash)]
pub struct NonDefault<T> {
    value: T,
}

impl<T> NonDefault<T> {
    pub closed spec fn inner(self) -> T {
        self.value
    }

    pub fn into_inner(self) -> (r: T)
        ensures
            r == self.inner(),
    {
        self.value
    }
}

impl<T: Default> NonDefault<T> {
    pub fn new(value: T) -> (r: Self)
        requires
            forall|d: T| call_ensures(T::default, (), d) ==> d != value,
        ensures
            r.inner() == value,
    {
        NonDefault { value }
    }
}

/// Additional information about a section, to apply relocations.
#[derive(Debug)]
pub struct IndexedSection<T> {
    pub starting_offset: usize,
    pub section_index: usize,
    pub section_payload: T,
}

impl<T: Default> Default for IndexedSection<T> {
    fn default() -> (r: Self)
        ensures
            r.starting_offset == 0,
            r.section_index == usize::MAX,
            call_ensures(T::default, (), r.section_payload),
    {
        IndexedSection {
            section_payload: T::default(),
            starting_offset: 0,
            section_index: usize::MAX,
        }
    }
}

} // verus!
