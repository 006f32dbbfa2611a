//! Typed references to the entities of a module, and the entities themselves.
pub mod body;
pub mod builder;
pub mod duplicate;
pub mod entities;
pub mod exports;
pub mod file_loader;
pub mod locking_laws;
pub mod lookup;
pub mod module;
pub mod snapshot;
pub mod types;

use crate::index::{ReservedValue, TempIndex};
use crate::layouts::data::DataSymbolRef;
use vstd::prelude::*;

verus! {

/// Index of a function.
#[derive(Clone, Copy, Debug, PartialEq, Eq, PartialOrd, Ord, Hash, Structural)]
pub struct FunctionRef {
    pub id: u32,
}

impl TempIndex for FunctionRef {
    open spec fn id(self) -> u32 {
        self.id
    }

    proof fn lemma_id_injective(a: Self, b: Self) {
    }

    fn from_raw(value: u32) -> (r: Self) {
        FunctionRef { id: value }
    }

    fn as_u32(&self) -> (r: u32) {
        self.id
    }
}

impl ReservedValue for FunctionRef {
    open spec fn is_reserved_spec(&self) -> bool {
        self.id() == u32::MAX
    }

    fn reserved_value() -> (r: Self) {
        Self::reserved()
    }

    fn is_reserved_value(&self) -> (r: bool) {
        self.is_reserved()
    }
}

impl Default for FunctionRef {
    fn default() -> (r: Self)
        ensures
            r.id() == u32::MAX,
    {
        Self::reserved()
    }
}

/// Index of a global.
#[derive(Clone, Copy, Debug, PartialEq, Eq, PartialOrd, Ord, Hash, Structural)]
pub struct GlobalRef {
    pub id: u32,
}

impl TempIndex for GlobalRef {
    open spec fn id(self) -> u32 {
        self.id
    }

    proof fn lemma_id_injective(a: Self, b: Self) {
    }

    fn from_raw(value: u32) -> (r: Self) {
        GlobalRef { id: value }
    }

    fn as_u32(&self) -> (r: u32) {
        self.id
    }
}

impl ReservedValue for GlobalRef {
    open spec fn is_reserved_spec(&self) -> bool {
        self.id() == u32::MAX
    }

    fn reserved_value() -> (r: Self) {
        Self::reserved()
    }

    fn is_reserved_value(&self) -> (r: bool) {
        self.is_reserved()
    }
}

impl Default for GlobalRef {
    fn default() -> (r: Self)
        ensures
            r.id() == u32::MAX,
    {
        Self::reserved()
    }
}

/// Index of a table.
#[derive(Clone, Copy, Debug, PartialEq, Eq, PartialOrd, Ord, Hash, Structural)]
pub struct TableRef {
    pub id: u32,
}

impl TempIndex for TableRef {
    open spec fn id(self) -> u32 {
        self.id
    }

    proof fn lemma_id_injective(a: Self, b: Self) {
    }

    fn from_raw(value: u32) -> (r: Self) {
        TableRef { id: value }
    }

    fn as_u32(&self) -> (r: u32) {
        self.id
    }
}

impl ReservedValue for TableRef {
    open spec fn is_reserved_spec(&self) -> bool {
        self.id() == u32::MAX
    }

    fn reserved_value() -> (r: Self) {
        Self::reserved()
    }

    fn is_reserved_value(&self) -> (r: bool) {
        self.is_reserved()
    }
}

impl Default for TableRef {
    fn default() -> (r: Self)
        ensures
            r.id() == u32::MAX,
    {
        Self::reserved()
    }
}

/// Index of a memory.
#[derive(Clone, Copy, Debug, PartialEq, Eq, PartialOrd, Ord, Hash, Structural)]
pub struct MemoryRef {
    pub id: u32,
}

impl TempIndex for MemoryRef {
    open spec fn id(self) -> u32 {
        self.id
    }

    proof fn lemma_id_injective(a: Self, b: Self) {
    }

    fn from_raw(value: u32) -> (r: Self) {
        MemoryRef { id: value }
    }

    fn as_u32(&self) -> (r: u32) {
        self.id
    }
}

impl ReservedValue for MemoryRef {
    open spec fn is_reserved_spec(&self) -> bool {
        self.id() == u32::MAX
    }

    fn reserved_value() -> (r: Self) {
        Self::reserved()
    }

    fn is_reserved_value(&self) -> (r: bool) {
        self.is_reserved()
    }
}

impl Default for MemoryRef {
    fn default() -> (r: Self)
        ensures
            r.id() == u32::MAX,
    {
        Self::reserved()
    }
}

/// Index of a tag.
#[derive(Clone, Copy, Debug, PartialEq, Eq, PartialOrd, Ord, Hash, Structural)]
pub struct TagRef {
    pub id: u32,
}

impl TempIndex for TagRef {
    open spec fn id(self) -> u32 {
        self.id
    }

    proof fn lemma_id_injective(a: Self, b: Self) {
    }

    fn from_raw(value: u32) -> (r: Self) {
        TagRef { id: value }
    }

    fn as_u32(&self) -> (r: u32) {
        self.id
    }
}

impl ReservedValue for TagRef {
    open spec fn is_reserved_spec(&self) -> bool {
        self.id() == u32::MAX
    }

    fn reserved_value() -> (r: Self) {
        Self::reserved()
    }

    fn is_reserved_value(&self) -> (r: bool) {
        self.is_reserved()
    }
}

impl Default for TagRef {
    fn default() -> (r: Self)
        ensures
            r.id() == u32::MAX,
    {
        Self::reserved()
    }
}

/// Index of a function type.
#[derive(Clone, Copy, Debug, PartialEq, Eq, PartialOrd, Ord, Hash, Structural)]
pub struct FnTypeRef {
    pub id: u32,
}

impl TempIndex for FnTypeRef {
    open spec fn id(self) -> u32 {
        self.id
    }

    proof fn lemma_id_injective(a: Self, b: Self) {
    }

    fn from_raw(value: u32) -> (r: Self) {
        FnTypeRef { id: value }
    }

    fn as_u32(&self) -> (r: u32) {
        self.id
    }
}

impl ReservedValue for FnTypeRef {
    open spec fn is_reserved_spec(&self) -> bool {
        self.id() == u32::MAX
    }

    fn reserved_value() -> (r: Self) {
        Self::reserved()
    }

    fn is_reserved_value(&self) -> (r: bool) {
        self.is_reserved()
    }
}

impl Default for FnTypeRef {
    fn default() -> (r: Self)
        ensures
            r.id() == u32::MAX,
    {
        Self::reserved()
    }
}

/// Index of a symbol in the symbol table of a file.
#[derive(Clone, Copy, Debug, PartialEq, Eq, PartialOrd, Ord, Hash, Structural)]
pub struct SymbolId {
    pub id: u32,
}

impl TempIndex for SymbolId {
    open spec fn id(self) -> u32 {
        self.id
    }

    proof fn lemma_id_injective(a: Self, b: Self) {
    }

    fn from_raw(value: u32) -> (r: Self) {
        SymbolId { id: value }
    }

    fn as_u32(&self) -> (r: u32) {
        self.id
    }
}

impl ReservedValue for SymbolId {
    open spec fn is_reserved_spec(&self) -> bool {
        self.id() == u32::MAX
    }

    fn reserved_value() -> (r: Self) {
        Self::reserved()
    }

    fn is_reserved_value(&self) -> (r: bool) {
        self.is_reserved()
    }
}

impl Default for SymbolId {
    fn default() -> (r: Self)
        ensures
            r.id() == u32::MAX,
    {
        Self::reserved()
    }
}

/// Index of an input file.
#[derive(Clone, Copy, Debug, PartialEq, Eq, PartialOrd, Ord, Hash, Structural)]
pub struct FileId {
    pub id: u32,
}

impl TempIndex for FileId {
    open spec fn id(self) -> u32 {
        self.id
    }

    proof fn lemma_id_injective(a: Self, b: Self) {
    }

    fn from_raw(value: u32) -> (r: Self) {
        FileId { id: value }
    }

    fn as_u32(&self) -> (r: u32) {
        self.id
    }
}

impl ReservedValue for FileId {
    open spec fn is_reserved_spec(&self) -> bool {
        self.id() == u32::MAX
    }

    fn reserved_value() -> (r: Self) {
        Self::reserved()
    }

    fn is_reserved_value(&self) -> (r: bool) {
        self.is_reserved()
    }
}

impl Default for FileId {
    fn default() -> (r: Self)
        ensures
            r.id() == u32::MAX,
    {
        Self::reserved()
    }
}

/// Reference to an entity of any kind.
#[derive(Clone, Copy, Debug, PartialEq, Eq, PartialOrd, Ord, Hash, Structural)]
pub enum EntityKind {
    Function(FunctionRef),
    Global(GlobalRef),
    Table(TableRef),
    Memory(MemoryRef),
    Tag(TagRef),
    DataSymbol(DataSymbolRef),
    Type(FnTypeRef),
}

impl EntityKind {
    /// The number that the reference wraps.
    pub open spec fn inner_id(self) -> u32 {
        match self {
            EntityKind::Function(r) => r.id(),
            EntityKind::Global(r) => r.id(),
            EntityKind::Table(r) => r.id(),
            EntityKind::Memory(r) => r.id(),
            EntityKind::Tag(r) => r.id(),
            EntityKind::DataSymbol(r) => r.id(),
            EntityKind::Type(r) => r.id(),
        }
    }

    /// A number that tells entities of all kinds apart.
    pub open spec fn code_spec(self) -> u64 {
        (self.inner_id() + 0x1_0000_0000 * match self {
            EntityKind::Function(_) => 0int,
            EntityKind::Global(_) => 1,
            EntityKind::Table(_) => 2,
            EntityKind::Memory(_) => 3,
            EntityKind::Tag(_) => 4,
            EntityKind::DataSymbol(_) => 5,
            EntityKind::Type(_) => 6,
        }) as u64
    }

    /// A number that tells entities of all kinds apart.
    pub(crate) fn code(&self) -> (r: u64)
        ensures
            r == self.code_spec(),
    {
        let kind: u64 = match self {
            EntityKind::Function(_) => 0,
            EntityKind::Global(_) => 1,
            EntityKind::Table(_) => 2,
            EntityKind::Memory(_) => 3,
            EntityKind::Tag(_) => 4,
            EntityKind::DataSymbol(_) => 5,
            EntityKind::Type(_) => 6,
        };
        self.to_inner_u32() as u64 + 0x1_0000_0000 * kind
    }

    pub(crate) proof fn lemma_code_injective(a: EntityKind, b: EntityKind)
        requires
            a.code_spec() == b.code_spec(),
        ensures
            a == b,
    {
    }

    pub fn is_function(&self) -> (r: bool)
        ensures
            r == (*self is Function),
    {
        match self {
            EntityKind::Function(_) => true,
            _ => false,
        }
    }

    pub fn is_data(&self) -> (r: bool)
        ensures
            r == (*self is DataSymbol),
    {
        match self {
            EntityKind::DataSymbol(_) => true,
            _ => false,
        }
    }

    /// The number that the reference wraps.
    pub fn to_inner_u32(&self) -> (r: u32)
        ensures
            r == self.inner_id(),
    {
        match self {
            EntityKind::Function(r) => r.as_u32(),
            EntityKind::Global(r) => r.as_u32(),
            EntityKind::Table(r) => r.as_u32(),
            EntityKind::Memory(r) => r.as_u32(),
            EntityKind::Tag(r) => r.as_u32(),
            EntityKind::DataSymbol(r) => r.as_u32(),
            EntityKind::Type(r) => r.as_u32(),
        }
    }
}

} // verus!
