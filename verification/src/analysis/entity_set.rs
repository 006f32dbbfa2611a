//! Sets of entities.
use crate::index::TempIndex;
use crate::typed::snapshot::FlatEntityRef;
use vstd::prelude::*;

verus! {

/// Whether entities are in order, and none occurs twice.
pub open spec fn increasing(items: Seq<FlatEntityRef>) -> bool {
    forall|i: int, j: int|
        #![trigger items[i], items[j]]
        0 <= i < j < items.len() ==> items[i].id() < items[j].id()
}

/// A set of entities, which hands them out in order.
#[derive(Debug)]
pub struct EntitySet {
    items: Vec<FlatEntityRef>,
}

impl View for EntitySet {
    type V = Set<FlatEntityRef>;

    open spec fn view(&self) -> Set<FlatEntityRef> {
        self.seq().to_set()
    }
}

impl EntitySet {
    /// The entities in order.
    pub closed spec fn seq(&self) -> Seq<FlatEntityRef> {
        self.items@
    }

    pub open spec fn wf(&self) -> bool {
        increasing(self.seq())
    }

    pub fn new() -> (r: Self)
        ensures
            r.wf(),
            r@ == Set::<FlatEntityRef>::empty(),
    {
        let r = EntitySet { items: Vec::new() };
        assert(r@ =~= Set::<FlatEntityRef>::empty());
        r
    }

    /// Number of members before an entity.
    fn rank(&self, entity: FlatEntityRef) -> (r: usize)
        requires
            self.wf(),
        ensures
            r <= self.seq().len(),
            forall|i: int| 0 <= i < r ==> (#[trigger] self.seq()[i]).id() < entity.id(),
            forall|i: int| r <= i < self.seq().len() ==> (#[trigger] self.seq()[i]).id()
                >= entity.id(),
    {
        let mut low: usize = 0;
        let mut high: usize = self.items.len();
        while low < high
            invariant
                self.wf(),
                low <= high <= self.seq().len(),
                forall|i: int| 0 <= i < low ==> (#[trigger] self.seq()[i]).id() < entity.id(),
                forall|i: int|
                    high <= i < self.seq().len() ==> (#[trigger] self.seq()[i]).id()
                        >= entity.id(),
            decreases high - low,
        {
            let middle: usize = low + (high - low) / 2;
            if self.items[middle].as_u32() < entity.as_u32() {
                low = middle + 1;
            } else {
                high = middle;
            }
        }
        low
    }

    pub fn contains(&self, entity: FlatEntityRef) -> (r: bool)
        requires
            self.wf(),
        ensures
            r == self@.contains(entity),
    {
        let at: usize = self.rank(entity);
        proof {
            if self@.contains(entity) {
                let i = choose|i: int| 0 <= i < self.seq().len() && self.seq()[i] == entity;
                assert(self.seq()[at as int].id() <= entity.id());
            }
            if at < self.seq().len() && self.seq()[at as int].id() == entity.id() {
                FlatEntityRef::lemma_id_injective(self.seq()[at as int], entity);
                assert(self.seq().contains(entity));
            }
        }
        at < self.items.len() && self.items[at].as_u32() == entity.as_u32()
    }

    /// Adds an entity, and tells whether it is new.
    pub fn insert(&mut self, entity: FlatEntityRef) -> (r: bool)
        requires
            old(self).wf(),
        ensures
            final(self).wf(),
            final(self)@ == old(self)@.insert(entity),
            r == !old(self)@.contains(entity),
    {
        let at: usize = self.rank(entity);
        if self.contains(entity) {
            assert(self@ =~= self@.insert(entity));
            return false;
        }
        let ghost before = self.seq();
        self.items.insert(at, entity);
        proof {
            let after = self.seq();
            assert(after == before.insert(at as int, entity));
            if at < before.len() && before[at as int].id() == entity.id() {
                FlatEntityRef::lemma_id_injective(before[at as int], entity);
                assert(before.contains(entity));
            }
            assert forall|i: int, j: int|
                #![trigger after[i], after[j]]
                0 <= i < j < after.len() implies after[i].id() < after[j].id() by {
                let a = if i < at {
                    before[i]
                } else {
                    before[i - 1]
                };
                let b = if j < at {
                    before[j]
                } else {
                    before[j - 1]
                };
            }
            assert forall|e: FlatEntityRef| after.to_set().contains(e) <==> before.to_set().insert(
                entity,
            ).contains(e) by {
                if after.contains(e) {
                    let i = choose|i: int| 0 <= i < after.len() && after[i] == e;
                    if i < at {
                        assert(before[i] == e);
                    } else if i > at {
                        assert(before[i - 1] == e);
                    }
                }
                if before.contains(e) {
                    let i = choose|i: int| 0 <= i < before.len() && before[i] == e;
                    if i < at {
                        assert(after[i] == e);
                    } else {
                        assert(after[i + 1] == e);
                    }
                }
                assert(after[at as int] == entity);
            }
            assert(self@ =~= before.to_set().insert(entity));
        }
        true
    }

    /// Takes an entity out, and tells whether it was there.
    pub fn remove(&mut self, entity: FlatEntityRef) -> (r: bool)
        requires
            old(self).wf(),
        ensures
            final(self).wf(),
            final(self)@ == old(self)@.remove(entity),
            r == old(self)@.contains(entity),
    {
        if !self.contains(entity) {
            assert(self@ =~= self@.remove(entity));
            return false;
        }
        let at: usize = self.rank(entity);
        let ghost before = self.seq();
        proof {
            let i = choose|i: int| 0 <= i < before.len() && before[i] == entity;
            if i != at {
                assert(before[at as int].id() < before[i].id());
            }
            assert(before[at as int] == entity);
        }
        self.items.remove(at);
        proof {
            let after = self.seq();
            assert(after == before.remove(at as int));
            assert forall|i: int, j: int|
                #![trigger after[i], after[j]]
                0 <= i < j < after.len() implies after[i].id() < after[j].id() by {
                let a = if i < at {
                    before[i]
                } else {
                    before[i + 1]
                };
                let b = if j < at {
                    before[j]
                } else {
                    before[j + 1]
                };
            }
            assert forall|e: FlatEntityRef| after.to_set().contains(e) <==> before.to_set().remove(
                entity,
            ).contains(e) by {
                if after.contains(e) {
                    let i = choose|i: int| 0 <= i < after.len() && after[i] == e;
                    if i < at {
                        assert(before[i] == e);
                        assert(before[i].id() < before[at as int].id());
                    } else {
                        assert(before[i + 1] == e);
                        assert(before[at as int].id() < before[i + 1].id());
                    }
                }
                if before.contains(e) && e != entity {
                    let i = choose|i: int| 0 <= i < before.len() && before[i] == e;
                    if i < at {
                        assert(after[i] == e);
                    } else {
                        assert(after[i - 1] == e);
                    }
                }
            }
            assert(self@ =~= before.to_set().remove(entity));
        }
        true
    }

    /// Number of members.
    pub fn len(&self) -> (r: usize)
        ensures
            r == self.seq().len(),
    {
        self.items.len()
    }

    pub fn is_empty(&self) -> (r: bool)
        ensures
            r == (self@ == Set::<FlatEntityRef>::empty()),
    {
        proof {
            if self.seq().len() > 0 {
                assert(self@.contains(self.seq()[0]));
            } else {
                assert(self@ =~= Set::<FlatEntityRef>::empty());
            }
        }
        self.items.len() == 0
    }

    /// The members in order.
    pub fn as_slice(&self) -> (r: &[FlatEntityRef])
        ensures
            r@ == self.seq(),
    {
        self.items.as_slice()
    }

    /// Adds all members of another set.
    pub fn extend(&mut self, other: &EntitySet)
        requires
            old(self).wf(),
        ensures
            final(self).wf(),
            final(self)@ == old(self)@.union(other@),
    {
        let ghost before = self@;
        let ghost all = other.seq();
        let mut i: usize = 0;
        assert(self@ =~= before.union(all.take(0).to_set()));
        while i < other.items.len()
            invariant
                i <= all.len(),
                all == other.seq(),
                self.wf(),
                self@ == before.union(all.take(i as int).to_set()),
            decreases all.len() - i,
        {
            let _ = self.insert(other.items[i]);
            proof {
                let longer = all.take(i + 1);
                assert forall|e: FlatEntityRef| longer.contains(e) <==> all.take(i as int).contains(
                    e,
                ) || e == all[i as int] by {
                    if longer.contains(e) {
                        let k = choose|k: int| 0 <= k < longer.len() && longer[k] == e;
                        if k < i {
                            assert(all.take(i as int)[k] == e);
                        }
                    }
                    if all.take(i as int).contains(e) {
                        let k = choose|k: int| 0 <= k < i && all.take(i as int)[k] == e;
                        assert(longer[k] == e);
                    }
                    assert(longer[i as int] == all[i as int]);
                }
                assert(self@ =~= before.union(longer.to_set()));
            }
            i = i + 1;
        }
        assert(all.take(i as int) =~= all);
    }

    /// A copy of the set.
    pub fn copy(&self) -> (r: Self)
        ensures
            r.seq() == self.seq(),
    {
        let mut items: Vec<FlatEntityRef> = Vec::new();
        let mut i: usize = 0;
        while i < self.items.len()
            invariant
                i <= self.items@.len(),
                items@ == self.items@.take(i as int),
            decreases self.items@.len() - i,
        {
            items.push(self.items[i]);
            i = i + 1;
            assert(items@ =~= self.items@.take(i as int));
        }
        assert(self.items@.take(i as int) =~= self.items@);
        EntitySet { items }
    }
}

impl Default for EntitySet {
    fn default() -> (r: Self)
        ensures
            r.wf(),
            r@ == Set::<FlatEntityRef>::empty(),
    {
        EntitySet::new()
    }
}

} // verus!
