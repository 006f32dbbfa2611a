//! Types of entities.
use vstd::prelude::*;

verus! {

/// Type of a value.
#[derive(Debug, Clone, Copy, PartialEq, Eq, Hash, PartialOrd, Ord, Structural)]
pub enum ValType {
    I32,
    I64,
    F32,
    F64,
    V128,
    FuncRef,
    ExternRef,
}

/// Type of a function.
#[derive(Debug, PartialEq, Eq)]
pub struct FuncType {
    pub params: Vec<ValType>,
    pub results: Vec<ValType>,
}

/// Type of a global.
#[derive(Debug, Clone, Copy, PartialEq, Eq, Structural)]
pub struct GlobalType {
    pub content_type: ValType,
    pub mutable: bool,
    pub shared: bool,
}

/// Type of a table.
#[derive(Debug, Clone, Copy, PartialEq, Eq)]
pub struct TableType {
    pub element_type: ValType,
    pub initial: u64,
    pub maximum: Option<u64>,
}

/// Type of a memory.
#[derive(Debug, Clone, Copy, PartialEq, Eq)]
pub struct MemoryType {
    pub memory64: bool,
    pub shared: bool,
    pub initial: u64,
    pub maximum: Option<u64>,
}

/// Type of a tag.
#[derive(Debug, Clone, Copy, PartialEq, Eq, Structural)]
pub struct TagType {
    pub func_type_idx: u32,
}

} // verus!
