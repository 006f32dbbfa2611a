//! Plans for emitting output modules.
pub mod context;
pub mod copy;
pub mod definition;
pub mod laws;
pub mod layouts;
pub mod output;

use crate::index::{slot_at, GappedMap, ReservedValue};
use crate::typed::{FileId, GlobalRef};
use vstd::prelude::*;

verus! {

/// The globals that hold the bases of a module in memory and in the indirect function table.
#[derive(Clone, Copy, Debug, PartialEq, Eq)]
pub struct GotInfo<T = GlobalRef> {
    pub memory_base: T,
    pub table_base: T,
}

impl<Ref: ReservedValue> ReservedValue for GotInfo<Ref> {
    open spec fn is_reserved_spec(&self) -> bool {
        self.memory_base.is_reserved_spec() && self.table_base.is_reserved_spec()
    }

    fn reserved_value() -> (r: Self) {
        GotInfo { memory_base: Ref::reserved_value(), table_base: Ref::reserved_value() }
    }

    fn is_reserved_value(&self) -> (r: bool) {
        self.memory_base.is_reserved_value() && self.table_base.is_reserved_value()
    }
}

/// The globals that hold the bases of a position independent module, and of the modules that it
/// uses.
#[verifier::reject_recursive_types(Ref)]
#[derive(Debug)]
pub struct DyLinkGots<Ref = GlobalRef> {
    pub our_got: GotInfo<Ref>,
    pub deps: GappedMap<FileId, GotInfo<Ref>>,
}

impl<Ref: ReservedValue> ReservedValue for DyLinkGots<Ref> {
    open spec fn is_reserved_spec(&self) -> bool {
        self.our_got.is_reserved_spec() && forall|k: nat| slot_at(self.deps@, k) is None
    }

    fn reserved_value() -> (r: Self) {
        DyLinkGots { our_got: GotInfo::reserved_value(), deps: GappedMap::new() }
    }

    fn is_reserved_value(&self) -> (r: bool) {
        self.our_got.is_reserved_value() && self.deps.is_vacant()
    }
}

/// How a module is linked.
#[derive(Debug)]
pub enum DyLinkInfo {
    /// Everything has a fixed place.
    Static,
    /// The module is position independent, and uses other modules.
    Dynamic { used_modules: Vec<FileId> },
}

} // verus!
