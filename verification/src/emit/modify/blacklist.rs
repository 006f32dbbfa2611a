//! Entities that are left as they are.
use crate::typed::snapshot::FlatEntityRef;
use vstd::prelude::*;

verus! {

/// A set of entities, given by a function that tells its members.
#[verifier::reject_recursive_types(F)]
#[derive(Clone)]
pub struct Blacklist<F> {
    list: F,
}

impl<F: Fn(FlatEntityRef) -> bool> Blacklist<F> {
    /// The function that tells the members.
    pub closed spec fn member_fn(&self) -> F {
        self.list
    }

    pub fn new(list: F) -> (r: Self)
        ensures
            r.member_fn() == list,
    {
        Blacklist { list }
    }
}

/// Sets of entities.
pub trait IsSet {
    /// Whether the set can be asked for an entity.
    spec fn can_ask(&self, entity: FlatEntityRef) -> bool;

    /// Whether the set may answer a question for an entity in a way.
    spec fn answers(&self, entity: FlatEntityRef, answer: bool) -> bool;

    fn contains(&self, entity: FlatEntityRef) -> (r: bool)
        requires
            self.can_ask(entity),
        ensures
            self.answers(entity, r),
    ;
}

impl<F: Fn(FlatEntityRef) -> bool> IsSet for Blacklist<F> {
    open spec fn can_ask(&self, entity: FlatEntityRef) -> bool {
        call_requires(self.member_fn(), (entity,))
    }

    open spec fn answers(&self, entity: FlatEntityRef, answer: bool) -> bool {
        call_ensures(self.member_fn(), (entity,), answer)
    }

    fn contains(&self, entity: FlatEntityRef) -> (r: bool) {
        (self.list)(entity)
    }
}

} // verus!
