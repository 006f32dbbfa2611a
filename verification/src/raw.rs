//! The parts of an object file that the library works on, as they stand in the file.
use crate::index::PrimaryMap;
use crate::layouts::SegmentId;
use crate::linkage::reloc::RawRelocationEntry;
use core::ops::Range;
use vstd::prelude::*;

verus! {

/// Where a data symbol is defined.
#[derive(Debug, Clone, Copy, PartialEq, Eq, Structural)]
pub struct DefinedDataSymbol {
    /// Index of the data segment.
    pub index: u32,
    /// Offset in the segment.
    pub offset: u32,
    pub size: u32,
}

/// An entry of the symbol table.
#[allow(inconsistent_fields)]
#[derive(Debug, PartialEq, Eq)]
pub enum SymbolInfo {
    Func { flags: u32, index: u32, name: Option<String> },
    Data { flags: u32, name: String, symbol: Option<DefinedDataSymbol> },
    Global { flags: u32, index: u32, name: Option<String> },
    Section { flags: u32, section: u32 },
    Event { flags: u32, index: u32, name: Option<String> },
    Table { flags: u32, index: u32, name: Option<String> },
}

/// Linking metadata of a data segment.
#[derive(Debug, PartialEq, Eq)]
pub struct SegmentInfo {
    pub name: String,
    /// Alignment as a power of two.
    pub alignment: u32,
}

/// How a data segment is placed. The offset expression holds its encoded operators.
#[derive(Debug, PartialEq, Eq)]
pub enum RawDataKind {
    Passive,
    Active { memory_index: u32, offset_expr: Vec<u8> },
}

/// A data segment.
#[derive(Debug, PartialEq, Eq)]
pub struct RawData {
    pub kind: RawDataKind,
    pub data: Vec<u8>,
    /// The place of the whole segment in the file; the data stands at its end.
    pub range: Range<usize>,
}

/// How an element segment is placed. The offset expression holds its encoded operators.
#[derive(Debug, PartialEq, Eq)]
pub enum RawElementKind {
    Passive,
    Declared,
    Active { table_index: Option<u32>, offset_expr: Vec<u8> },
}

/// The items of an element segment.
#[derive(Debug, PartialEq, Eq)]
pub enum RawElementItems {
    Functions(Vec<u32>),
    /// Items that are given by constant expressions.
    Expressions,
}

/// An element segment.
#[derive(Debug, PartialEq, Eq)]
pub struct RawElement {
    pub kind: RawElementKind,
    pub items: RawElementItems,
}

/// An object file.
#[derive(Debug, PartialEq, Eq)]
pub struct ObjectReader {
    pub linking_symbols: Vec<SymbolInfo>,
    pub segments_info: Vec<SegmentInfo>,
    pub data_segments: PrimaryMap<SegmentId, RawData>,
    pub elements: PrimaryMap<SegmentId, RawElement>,
    /// Relocations of the code section, and where that section starts in the file.
    pub code_relocs: Vec<RawRelocationEntry>,
    pub code_start: usize,
    /// Relocations of the data section, and where that section starts in the file.
    pub data_relocs: Vec<RawRelocationEntry>,
    pub data_start: usize,
}

} // verus!
