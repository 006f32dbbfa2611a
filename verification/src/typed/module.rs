//! Modules.
use crate::layouts::data::sealed::MemLayoutSealed;
use crate::layouts::elements::IndirectFunctionsSealed;
use crate::typed::entities::{DefinedEntity, EntityCollection, ImportedEntity};
use crate::typed::types::{FuncType, GlobalType, MemoryType, TableType, TagType};
use crate::typed::{FunctionRef, GlobalRef, MemoryRef, TableRef, TagRef};
use vstd::prelude::*;

verus! {

pub type ImportedFunction = ImportedEntity<FuncType>;

pub type DefinedFunction = DefinedEntity<FuncType>;

pub type ImportedGlobal = ImportedEntity<GlobalType>;

pub type DefinedGlobal = DefinedEntity<GlobalType>;

pub type ImportedTable = ImportedEntity<TableType>;

pub type DefinedTable = DefinedEntity<TableType>;

pub type ImportedMemory = ImportedEntity<MemoryType>;

pub type DefinedMemory = DefinedEntity<MemoryType>;

pub type ImportedTag = ImportedEntity<TagType>;

pub type DefinedTag = DefinedEntity<TagType>;

/// The parts of a module that have no index space of their own.
#[derive(Debug)]
pub struct ModuleExtra {
    pub mem_layout: MemLayoutSealed,
    /// The functions that can be called through tables.
    pub function_elements: IndirectFunctionsSealed,
    pub start_function: Option<FunctionRef>,
}

/// A module.
#[derive(Debug)]
pub struct Module {
    pub functions: EntityCollection<FunctionRef, ImportedFunction, DefinedFunction>,
    pub globals: EntityCollection<GlobalRef, ImportedGlobal, DefinedGlobal>,
    pub tables: EntityCollection<TableRef, ImportedTable, DefinedTable>,
    pub memories: EntityCollection<MemoryRef, ImportedMemory, DefinedMemory>,
    pub tags: EntityCollection<TagRef, ImportedTag, DefinedTag>,
    pub extra: ModuleExtra,
}

} // verus!
