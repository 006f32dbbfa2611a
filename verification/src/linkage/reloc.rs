//! Decomposed relocation entries.
//!
//! A relocation can be represented by this pseudocode:
//! ```text
//! pointer = offset_of(symbol that holds the relocation) + offset;
//! *pointer = encode(address_of(target symbol) + addend);
//! ```
//! The linking convention has one number for each combination of
//! - the type of the target symbol (function, data, global, ...),
//! - the encoding (fixed, LEB128, signed LEB128) and its width (32 or 64 bits),
//! - the base that the value is relative to.
//!
//! Here the combination is taken apart.
use crate::helpers::RangeExt;
use crate::index::{SectionId, TempIndex};
use crate::typed::{EntityKind, FnTypeRef, FunctionRef, SymbolId};
use core::ops::Range;
use vstd::prelude::*;

verus! {

/// Types of relocation entries in the linking convention.
#[derive(Clone, Copy, Debug, PartialEq, Eq, Hash, Structural)]
pub enum RelocationType {
    FunctionIndexLeb,
    TableIndexSleb,
    TableIndexI32,
    MemoryAddrLeb,
    MemoryAddrSleb,
    MemoryAddrI32,
    TypeIndexLeb,
    GlobalIndexLeb,
    FunctionOffsetI32,
    SectionOffsetI32,
    EventIndexLeb,
    MemoryAddrRelSleb,
    TableIndexRelSleb,
    GlobalIndexI32,
    MemoryAddrLeb64,
    MemoryAddrSleb64,
    MemoryAddrI64,
    MemoryAddrRelSleb64,
    TableIndexSleb64,
    TableIndexI64,
    TableNumberLeb,
    MemoryAddrTlsSleb,
    FunctionOffsetI64,
    MemoryAddrLocrelI32,
    TableIndexRelSleb64,
    MemoryAddrTlsSleb64,
    FunctionIndexI32,
}

/// A relocation entry as it is stored in a file.
#[derive(Clone, Copy, Debug, PartialEq, Eq, Hash, Structural)]
pub struct RawRelocationEntry {
    pub ty: RelocationType,
    /// Offset from the start of the section.
    pub offset: u32,
    /// Index of the target symbol, or of the type for [`RelocationType::TypeIndexLeb`].
    pub index: u32,
    pub addend: i64,
}

pub type LinkageRelocationEntry = RelocationEntry<SymbolId, SymbolType>;

pub type EntityRelocationEntry = RelocationEntry<EntityKind, EntityAddressMode>;

/// Lossless representation of [`RawRelocationEntry`].
#[derive(Debug, PartialEq, Eq, Hash, Clone, Copy)]
pub enum AnyRelocationEntry {
    Linkage(LinkageRelocationEntry),
    Type(TypeRelocationEntry),
}

/// Relocation of a function type index; always LEB128 of 32 bits, without addend.
#[derive(Clone, Copy, Debug, PartialEq, Eq, Hash, PartialOrd, Ord, Structural)]
pub struct TypeRelocationEntry {
    pub offset: u32,
    pub index: FnTypeRef,
}

/// A symbol of the symbol table, and its type.
#[derive(Clone, Copy, Debug, PartialEq, Eq, Hash, PartialOrd, Ord, Structural)]
pub struct LinkageSymbol {
    pub id: SymbolId,
    pub ty: SymbolType,
}

/// Which number of an entity a relocation stands for.
#[derive(Clone, Copy, Debug, PartialEq, Eq, Hash, PartialOrd, Ord, Structural)]
pub enum EntityAddressMode {
    /// Index of the entity in its index space.
    StaticIndex,
    /// Address of the entity at run time: that of a data symbol in memory, or the index of a
    /// function in the indirect function table.
    RuntimeAddr,
    /// Offset of the definition in the file.
    FileOffset,
    /// Index of the global that holds the base of the entity.
    BaseStaticIndex,
}

/// Types of symbols in a symbol table.
#[derive(Clone, Copy, Debug, PartialEq, Eq, Hash, PartialOrd, Ord, Structural)]
pub enum SymbolType {
    MemoryAddr,
    TableNumber,
    GlobalIndex,
    FunctionIndex,
    /// Index of a function in the indirect function table.
    TableIndex,
    FunctionOffset,
    SectionOffset,
    EventIndex,
    /// Types are no symbols of the symbol table.
    TypeIndex,
}

/// How the value of a relocation is written.
#[derive(Clone, Copy, Debug, PartialEq, Eq, Hash, PartialOrd, Ord, Structural)]
pub enum Encoding {
    /// Little endian integer.
    Fixed,
    /// Signed LEB128 in full length.
    Sleb,
    /// LEB128 in full length.
    Leb,
}

/// The base that the value of a relocation is relative to.
#[derive(Clone, Copy, Debug, PartialEq, Eq, Hash, PartialOrd, Ord, Structural)]
pub enum Relative {
    /// Absolute address.
    Absolute,
    /// Relative to the global `__memory_base` or `__table_base`.
    Got,
    /// Relative to the global `__tls_base`.
    Tls,
    /// Relative to the place of the relocation in memory.
    LocRel,
}

#[derive(Clone, Copy, Debug, PartialEq, Eq, Hash, PartialOrd, Ord, Structural)]
pub enum RelocationWidth {
    Bits32,
    Bits64,
}

/// Index of a function in the indirect function table.
#[derive(Clone, Copy, Debug, PartialEq, Eq, Hash, PartialOrd, Ord, Structural)]
pub struct IndirectFunctionIndex(pub FunctionRef);

/// Index of an event.
#[derive(Clone, Copy, Debug, PartialEq, Eq, Hash, PartialOrd, Ord, Structural)]
pub struct EventIndex {
    pub index: u32,
}

/// Address of a chunk in memory.
#[derive(Clone, Copy, Debug, PartialEq, Eq, Hash, PartialOrd, Ord, Structural)]
pub struct MemoryAddr {
    pub mem_chunk_id: u32,
}

/// Address of a chunk relative to its place.
#[derive(Clone, Copy, Debug, PartialEq, Eq, Hash, PartialOrd, Ord, Structural)]
pub struct MemoryAddrLoc(MemoryAddr);

/// Place in the code of a function.
#[derive(Clone, Copy, Debug, PartialEq, Eq, Hash, PartialOrd, Ord, Structural)]
pub struct FunctionOffset {
    pub function: FunctionRef,
}

/// Place in a section.
#[derive(Clone, Copy, Debug, PartialEq, Eq, Hash, PartialOrd, Ord, Structural)]
pub struct SectionOffset {
    pub section: SectionId,
}

/// Value that is added to a relocated address. It does not apply to functions, globals and events.
#[derive(Clone, Copy, Debug, PartialEq, Eq, Hash, PartialOrd, Ord, Structural)]
pub struct Addend {
    pub value: i64,
}

/// A relocation: a place, what it refers to and how the reference is written there.
#[derive(Clone, Copy, Debug, PartialEq, Eq, Hash, PartialOrd, Ord)]
pub struct RelocationEntry<SymbolIndex, SymbolOp> {
    /// Added to the resulting value.
    pub addend: i64,
    /// Offset in bytes of the relocated place.
    pub offset: u32,
    /// What the relocation refers to.
    pub symbol_id: SymbolIndex,
    /// Which number of the referenced entity is meant.
    pub symbol_op: SymbolOp,
    /// Base of the value, if the relocation is position independent.
    pub relation: Relative,
    pub encoding: Encoding,
    pub width: RelocationWidth,
}

/// Number of bytes of an encoding.
pub open spec fn encoded_size(encoding: Encoding, width: RelocationWidth) -> nat {
    match (encoding, width) {
        (Encoding::Fixed, RelocationWidth::Bits32) => 4,
        (Encoding::Fixed, RelocationWidth::Bits64) => 8,
        (_, RelocationWidth::Bits32) => 5,
        (_, RelocationWidth::Bits64) => 10,
    }
}

impl<SymbolIndex, SymbolOp> RelocationEntry<SymbolIndex, SymbolOp> {
    /// First byte of the relocated place, and the one behind its last byte.
    pub open spec fn place(&self) -> (int, int) {
        (self.offset as int, self.offset + encoded_size(self.encoding, self.width))
    }

    /// Number of relocated bytes.
    pub fn extent(&self) -> (r: usize)
        ensures
            r == encoded_size(self.encoding, self.width),
    {
        match (self.encoding, self.width) {
            (Encoding::Fixed, RelocationWidth::Bits32) => 4,
            (Encoding::Fixed, RelocationWidth::Bits64) => 8,
            (Encoding::Sleb | Encoding::Leb, RelocationWidth::Bits32) => 5,
            (Encoding::Sleb | Encoding::Leb, RelocationWidth::Bits64) => 10,
        }
    }

    /// The relocated bytes.
    pub fn relocation_range(&self) -> (r: Range<usize>)
        requires
            self.place().1 <= usize::MAX,
        ensures
            (r.start as int, r.end as int) == self.place(),
    {
        let start: usize = self.offset as usize;
        let len: usize = self.extent();
        Range { start, end: start + len }
    }
}

impl EntityRelocationEntry {
    /// The reference to the base global of an entity.
    pub fn index_base(offset_of_got: u32, symbol_ref: EntityKind) -> (r: Self)
        ensures
            r == (RelocationEntry {
                symbol_id: symbol_ref,
                symbol_op: EntityAddressMode::BaseStaticIndex,
                offset: offset_of_got,
                encoding: Encoding::Leb,
                width: RelocationWidth::Bits32,
                relation: Relative::Absolute,
                addend: 0,
            }),
    {
        RelocationEntry {
            symbol_id: symbol_ref,
            symbol_op: EntityAddressMode::BaseStaticIndex,
            offset: offset_of_got,
            encoding: Encoding::Leb,
            width: RelocationWidth::Bits32,
            relation: Relative::Absolute,
            addend: 0,
        }
    }

    /// The reference to the run time address of a function or a data symbol.
    pub fn runtime_addr(place_for_addr: u32, symbol_ref: EntityKind, is_got: bool) -> (r: Self)
        requires
            symbol_ref is Function || symbol_ref is DataSymbol,
        ensures
            r == (RelocationEntry {
                symbol_id: symbol_ref,
                symbol_op: EntityAddressMode::RuntimeAddr,
                offset: place_for_addr,
                encoding: Encoding::Sleb,
                width: RelocationWidth::Bits32,
                relation: if is_got {
                    Relative::Got
                } else {
                    Relative::Absolute
                },
                addend: 0,
            }),
    {
        RelocationEntry {
            symbol_id: symbol_ref,
            symbol_op: EntityAddressMode::RuntimeAddr,
            offset: place_for_addr,
            encoding: Encoding::Sleb,
            width: RelocationWidth::Bits32,
            relation: if is_got {
                Relative::Got
            } else {
                Relative::Absolute
            },
            addend: 0,
        }
    }
}

impl EntityAddressMode {
    /// The number that a symbol type stands for, where it applies to the kind of entity.
    pub open spec fn of(entity_kind: EntityKind, reloc_ty: SymbolType) -> Option<
        EntityAddressMode,
    > {
        match (entity_kind, reloc_ty) {
            (EntityKind::Function(_), SymbolType::FunctionIndex) => Some(
                EntityAddressMode::StaticIndex,
            ),
            (EntityKind::Global(_), SymbolType::GlobalIndex) => Some(
                EntityAddressMode::StaticIndex,
            ),
            (EntityKind::Table(_), SymbolType::TableNumber) => Some(EntityAddressMode::StaticIndex),
            (EntityKind::DataSymbol(_), SymbolType::MemoryAddr) => Some(
                EntityAddressMode::RuntimeAddr,
            ),
            (EntityKind::Function(_), SymbolType::TableIndex) => Some(
                EntityAddressMode::RuntimeAddr,
            ),
            (EntityKind::Function(_), SymbolType::FunctionOffset) => Some(
                EntityAddressMode::FileOffset,
            ),
            _ => None,
        }
    }

    /// The number that a symbol type stands for. The type has to apply to the kind of entity.
    pub fn from_llvm_relocs(entity_kind: EntityKind, reloc_ty: SymbolType) -> (r: Self)
        requires
            EntityAddressMode::of(entity_kind, reloc_ty) is Some,
        ensures
            EntityAddressMode::of(entity_kind, reloc_ty) == Some(r),
    {
        match reloc_ty {
            SymbolType::FunctionIndex | SymbolType::GlobalIndex | SymbolType::TableNumber => {
                EntityAddressMode::StaticIndex
            },
            SymbolType::MemoryAddr | SymbolType::TableIndex => EntityAddressMode::RuntimeAddr,
            _ => EntityAddressMode::FileOffset,
        }
    }
}

impl AnyRelocationEntry {
    pub open spec fn offset_spec(&self) -> u32 {
        match self {
            AnyRelocationEntry::Linkage(reloc) => reloc.offset,
            AnyRelocationEntry::Type(reloc) => reloc.offset,
        }
    }

    /// The entry at another offset.
    pub open spec fn at_offset(self, offset: u32) -> AnyRelocationEntry {
        match self {
            AnyRelocationEntry::Linkage(reloc) => AnyRelocationEntry::Linkage(
                RelocationEntry { offset, ..reloc },
            ),
            AnyRelocationEntry::Type(reloc) => AnyRelocationEntry::Type(
                TypeRelocationEntry { offset, ..reloc },
            ),
        }
    }

    /// First byte of the relocated place, and the one behind its last byte.
    pub open spec fn place(&self) -> (int, int) {
        match self {
            AnyRelocationEntry::Linkage(reloc) => reloc.place(),
            AnyRelocationEntry::Type(reloc) => (reloc.offset as int, reloc.offset + 5),
        }
    }

    /// The symbol, if the entry refers to one.
    pub fn symbol_id(&self) -> (r: Option<SymbolId>)
        ensures
            r == match self {
                AnyRelocationEntry::Linkage(reloc) => Some(reloc.symbol_id),
                AnyRelocationEntry::Type(_) => None,
            },
    {
        match self {
            AnyRelocationEntry::Linkage(reloc) => Some(reloc.symbol_id),
            AnyRelocationEntry::Type(_) => None,
        }
    }

    /// Offset of the relocated place.
    pub fn offset(&self) -> (r: u32)
        ensures
            r == self.offset_spec(),
    {
        match self {
            AnyRelocationEntry::Linkage(reloc) => reloc.offset,
            AnyRelocationEntry::Type(reloc) => reloc.offset,
        }
    }

    pub fn set_offset(&mut self, new_offset: u32)
        ensures
            *final(self) == old(self).at_offset(new_offset),
    {
        match self {
            AnyRelocationEntry::Linkage(reloc) => {
                reloc.offset = new_offset;
            },
            AnyRelocationEntry::Type(reloc) => {
                reloc.offset = new_offset;
            },
        }
    }

    /// The entry, if it refers to a symbol.
    pub fn linkage(&self) -> (r: Option<&LinkageRelocationEntry>)
        ensures
            r == match self {
                AnyRelocationEntry::Linkage(reloc) => Some(reloc),
                AnyRelocationEntry::Type(_) => None,
            },
    {
        match self {
            AnyRelocationEntry::Linkage(reloc) => Some(reloc),
            AnyRelocationEntry::Type(_) => None,
        }
    }

    /// The relocated bytes.
    pub fn relocation_range(&self) -> (r: Range<usize>)
        requires
            self.place().1 <= usize::MAX,
        ensures
            (r.start as int, r.end as int) == self.place(),
    {
        let start: usize = self.offset() as usize;
        let len: usize = match self {
            AnyRelocationEntry::Type(_) => 5,
            AnyRelocationEntry::Linkage(reloc) => reloc.extent(),
        };
        Range { start, end: start + len }
    }

    /// Whether the entry is a stored one, taken apart. `entry_offset` is added to its offset.
    pub open spec fn is_raw(&self, entry: RawRelocationEntry, entry_offset: int) -> bool {
        match self {
            AnyRelocationEntry::Type(reloc) => entry.ty is TypeIndexLeb && reloc.offset
                == entry.offset + entry_offset && reloc.index.id() == entry.index,
            AnyRelocationEntry::Linkage(reloc) => {
                &&& !(entry.ty is TypeIndexLeb)
                &&& reloc.offset == entry.offset + entry_offset
                &&& reloc.addend == entry.addend
                &&& reloc.symbol_id.id() == entry.index
                &&& (reloc.symbol_op, reloc.encoding, reloc.relation, reloc.width) == decomposed(
                    entry.ty,
                )
            },
        }
    }

    /// Takes a stored entry apart. `entry_offset` is added to its offset.
    pub fn from_raw(entry: RawRelocationEntry, entry_offset: isize) -> (r: Self)
        requires
            0 <= entry.offset + entry_offset <= u32::MAX,
            entry.index < u32::MAX,
        ensures
            r.is_raw(entry, entry_offset as int),
    {
        let offset: u32 = (entry.offset as i128 + entry_offset as i128) as u32;
        let (symbol_op, encoding, relation, width) = match entry.ty {
            RelocationType::TypeIndexLeb => {
                return AnyRelocationEntry::Type(
                    TypeRelocationEntry { offset, index: FnTypeRef::from_u32(entry.index) },
                );
            },
            ty => decompose(ty),
        };
        AnyRelocationEntry::Linkage(
            RelocationEntry {
                offset,
                addend: entry.addend,
                symbol_id: SymbolId::from_u32(entry.index),
                symbol_op,
                relation,
                encoding,
                width,
            },
        )
    }
}

/// The parts of a type of relocation entries.
pub open spec fn decomposed(ty: RelocationType) -> (
    SymbolType,
    Encoding,
    Relative,
    RelocationWidth,
) {
    match ty {
        RelocationType::FunctionIndexLeb => (
            SymbolType::FunctionIndex,
            Encoding::Leb,
            Relative::Absolute,
            RelocationWidth::Bits32,
        ),
        RelocationType::FunctionIndexI32 => (
            SymbolType::FunctionIndex,
            Encoding::Fixed,
            Relative::Absolute,
            RelocationWidth::Bits32,
        ),
        RelocationType::TableIndexSleb => (
            SymbolType::TableIndex,
            Encoding::Sleb,
            Relative::Absolute,
            RelocationWidth::Bits32,
        ),
        RelocationType::TableIndexSleb64 => (
            SymbolType::TableIndex,
            Encoding::Sleb,
            Relative::Absolute,
            RelocationWidth::Bits64,
        ),
        RelocationType::TableIndexRelSleb => (
            SymbolType::TableIndex,
            Encoding::Sleb,
            Relative::Got,
            RelocationWidth::Bits32,
        ),
        RelocationType::TableIndexRelSleb64 => (
            SymbolType::TableIndex,
            Encoding::Sleb,
            Relative::Got,
            RelocationWidth::Bits64,
        ),
        RelocationType::TableIndexI32 => (
            SymbolType::TableIndex,
            Encoding::Fixed,
            Relative::Absolute,
            RelocationWidth::Bits32,
        ),
        RelocationType::TableIndexI64 => (
            SymbolType::TableIndex,
            Encoding::Fixed,
            Relative::Absolute,
            RelocationWidth::Bits64,
        ),
        RelocationType::MemoryAddrLeb => (
            SymbolType::MemoryAddr,
            Encoding::Leb,
            Relative::Absolute,
            RelocationWidth::Bits32,
        ),
        RelocationType::MemoryAddrLeb64 => (
            SymbolType::MemoryAddr,
            Encoding::Leb,
            Relative::Absolute,
            RelocationWidth::Bits64,
        ),
        RelocationType::MemoryAddrSleb => (
            SymbolType::MemoryAddr,
            Encoding::Sleb,
            Relative::Absolute,
            RelocationWidth::Bits32,
        ),
        RelocationType::MemoryAddrSleb64 => (
            SymbolType::MemoryAddr,
            Encoding::Sleb,
            Relative::Absolute,
            RelocationWidth::Bits64,
        ),
        RelocationType::MemoryAddrRelSleb => (
            SymbolType::MemoryAddr,
            Encoding::Sleb,
            Relative::Got,
            RelocationWidth::Bits32,
        ),
        RelocationType::MemoryAddrRelSleb64 => (
            SymbolType::MemoryAddr,
            Encoding::Sleb,
            Relative::Got,
            RelocationWidth::Bits64,
        ),
        RelocationType::MemoryAddrTlsSleb => (
            SymbolType::MemoryAddr,
            Encoding::Sleb,
            Relative::Tls,
            RelocationWidth::Bits32,
        ),
        RelocationType::MemoryAddrTlsSleb64 => (
            SymbolType::MemoryAddr,
            Encoding::Sleb,
            Relative::Tls,
            RelocationWidth::Bits64,
        ),
        RelocationType::MemoryAddrI32 => (
            SymbolType::MemoryAddr,
            Encoding::Fixed,
            Relative::Absolute,
            RelocationWidth::Bits32,
        ),
        RelocationType::MemoryAddrI64 => (
            SymbolType::MemoryAddr,
            Encoding::Fixed,
            Relative::Absolute,
            RelocationWidth::Bits64,
        ),
        RelocationType::MemoryAddrLocrelI32 => (
            SymbolType::MemoryAddr,
            Encoding::Fixed,
            Relative::LocRel,
            RelocationWidth::Bits32,
        ),
        RelocationType::GlobalIndexLeb => (
            SymbolType::GlobalIndex,
            Encoding::Leb,
            Relative::Absolute,
            RelocationWidth::Bits32,
        ),
        RelocationType::GlobalIndexI32 => (
            SymbolType::GlobalIndex,
            Encoding::Fixed,
            Relative::Absolute,
            RelocationWidth::Bits32,
        ),
        RelocationType::FunctionOffsetI32 => (
            SymbolType::FunctionOffset,
            Encoding::Fixed,
            Relative::Absolute,
            RelocationWidth::Bits32,
        ),
        RelocationType::FunctionOffsetI64 => (
            SymbolType::FunctionOffset,
            Encoding::Fixed,
            Relative::Absolute,
            RelocationWidth::Bits64,
        ),
        RelocationType::SectionOffsetI32 => (
            SymbolType::SectionOffset,
            Encoding::Fixed,
            Relative::Absolute,
            RelocationWidth::Bits32,
        ),
        RelocationType::EventIndexLeb => (
            SymbolType::EventIndex,
            Encoding::Leb,
            Relative::Absolute,
            RelocationWidth::Bits32,
        ),
        RelocationType::TableNumberLeb => (
            SymbolType::TableNumber,
            Encoding::Leb,
            Relative::Absolute,
            RelocationWidth::Bits32,
        ),
        RelocationType::TypeIndexLeb => (
            SymbolType::TypeIndex,
            Encoding::Leb,
            Relative::Absolute,
            RelocationWidth::Bits32,
        ),
    }
}

/// Takes a type of relocation entries apart.
fn decompose(ty: RelocationType) -> (r: (SymbolType, Encoding, Relative, RelocationWidth))
    ensures
        r == decomposed(ty),
{
    let symbol_op = match ty {
        RelocationType::TypeIndexLeb => SymbolType::TypeIndex,
        RelocationType::EventIndexLeb => SymbolType::EventIndex,
        RelocationType::TableNumberLeb => SymbolType::TableNumber,
        RelocationType::SectionOffsetI32 => SymbolType::SectionOffset,
        RelocationType::FunctionOffsetI32 | RelocationType::FunctionOffsetI64 => {
            SymbolType::FunctionOffset
        },
        RelocationType::GlobalIndexI32 | RelocationType::GlobalIndexLeb => SymbolType::GlobalIndex,
        RelocationType::FunctionIndexLeb | RelocationType::FunctionIndexI32 => {
            SymbolType::FunctionIndex
        },
        RelocationType::TableIndexSleb | RelocationType::TableIndexI32
        | RelocationType::TableIndexI64 | RelocationType::TableIndexRelSleb
        | RelocationType::TableIndexRelSleb64 | RelocationType::TableIndexSleb64 => {
            SymbolType::TableIndex
        },
        _ => SymbolType::MemoryAddr,
    };
    let encoding = match ty {
        RelocationType::SectionOffsetI32 | RelocationType::FunctionOffsetI32
        | RelocationType::GlobalIndexI32 | RelocationType::FunctionIndexI32
        | RelocationType::TableIndexI32 | RelocationType::MemoryAddrI32
        | RelocationType::FunctionOffsetI64 | RelocationType::TableIndexI64
        | RelocationType::MemoryAddrI64 | RelocationType::MemoryAddrLocrelI32 => Encoding::Fixed,
        RelocationType::FunctionIndexLeb | RelocationType::GlobalIndexLeb
        | RelocationType::TableNumberLeb | RelocationType::MemoryAddrLeb
        | RelocationType::MemoryAddrLeb64 | RelocationType::EventIndexLeb
        | RelocationType::TypeIndexLeb => Encoding::Leb,
        _ => Encoding::Sleb,
    };
    let relation = match ty {
        RelocationType::TableIndexRelSleb | RelocationType::TableIndexRelSleb64
        | RelocationType::MemoryAddrRelSleb | RelocationType::MemoryAddrRelSleb64 => {
            Relative::Got
        },
        RelocationType::MemoryAddrTlsSleb64 | RelocationType::MemoryAddrTlsSleb => Relative::Tls,
        RelocationType::MemoryAddrLocrelI32 => Relative::LocRel,
        _ => Relative::Absolute,
    };
    let width = match ty {
        RelocationType::FunctionOffsetI64 | RelocationType::TableIndexI64
        | RelocationType::TableIndexRelSleb64 | RelocationType::TableIndexSleb64
        | RelocationType::MemoryAddrI64 | RelocationType::MemoryAddrLeb64
        | RelocationType::MemoryAddrSleb64 | RelocationType::MemoryAddrRelSleb64
        | RelocationType::MemoryAddrTlsSleb64 => RelocationWidth::Bits64,
        _ => RelocationWidth::Bits32,
    };
    (symbol_op, encoding, relation, width)
}

/// Types whose fields are little endian integers of 32 bits.
pub open spec fn is_i32_field(ty: RelocationType) -> bool {
    ||| ty is TableIndexI32
    ||| ty is MemoryAddrI32
    ||| ty is FunctionOffsetI32
    ||| ty is SectionOffsetI32
    ||| ty is GlobalIndexI32
    ||| ty is MemoryAddrLocrelI32
    ||| ty is FunctionIndexI32
}

/// Types whose fields are little endian integers of 64 bits.
pub open spec fn is_i64_field(ty: RelocationType) -> bool {
    ty is MemoryAddrI64 || ty is TableIndexI64 || ty is FunctionOffsetI64
}

/// Types whose fields are LEB128 numbers of 32 bits.
pub open spec fn is_leb_field(ty: RelocationType) -> bool {
    ||| ty is FunctionIndexLeb
    ||| ty is MemoryAddrLeb
    ||| ty is TypeIndexLeb
    ||| ty is GlobalIndexLeb
    ||| ty is EventIndexLeb
    ||| ty is TableNumberLeb
}

/// Types whose fields are signed LEB128 numbers of 32 bits.
pub open spec fn is_sleb_field(ty: RelocationType) -> bool {
    ||| ty is TableIndexSleb
    ||| ty is MemoryAddrSleb
    ||| ty is MemoryAddrRelSleb
    ||| ty is TableIndexRelSleb
    ||| ty is MemoryAddrTlsSleb
}

/// Types whose fields are signed LEB128 numbers of 64 bits.
pub open spec fn is_sleb64_field(ty: RelocationType) -> bool {
    ||| ty is MemoryAddrSleb64
    ||| ty is MemoryAddrRelSleb64
    ||| ty is TableIndexSleb64
    ||| ty is TableIndexRelSleb64
    ||| ty is MemoryAddrTlsSleb64
}

/// Every entry takes up the bytes that its type has in the linking convention: integers have 4 or 8
/// bytes, LEB128 numbers 5 or 10. They start where the stored entry says.
pub proof fn lemma_field_sizes(
    entry: RawRelocationEntry,
    entry_offset: int,
    reloc: AnyRelocationEntry,
)
    requires
        reloc.is_raw(entry, entry_offset),
    ensures
        reloc.place().0 == entry.offset + entry_offset,
        is_i32_field(entry.ty) <==> reloc.place().1 - reloc.place().0 == 4,
        is_i64_field(entry.ty) <==> reloc.place().1 - reloc.place().0 == 8,
        is_leb_field(entry.ty) || is_sleb_field(entry.ty) <==> reloc.place().1 - reloc.place().0
            == 5,
        entry.ty is MemoryAddrLeb64 || is_sleb64_field(entry.ty) <==> reloc.place().1
            - reloc.place().0 == 10,
{
}

/// Every entry is written as its type says, and an entry that is no index of a type keeps its
/// symbol and its addend.
pub proof fn lemma_field_encodings(
    entry: RawRelocationEntry,
    entry_offset: int,
    reloc: AnyRelocationEntry,
)
    requires
        reloc.is_raw(entry, entry_offset),
    ensures
        entry.ty is TypeIndexLeb <==> reloc is Type,
        reloc matches AnyRelocationEntry::Type(reloc) ==> reloc.index.id() == entry.index,
        reloc matches AnyRelocationEntry::Linkage(reloc) ==> {
            &&& reloc.symbol_id.id() == entry.index
            &&& reloc.addend == entry.addend
            &&& is_i32_field(entry.ty) || is_i64_field(entry.ty) <==> reloc.encoding is Fixed
            &&& is_leb_field(entry.ty) || entry.ty is MemoryAddrLeb64 <==> reloc.encoding is Leb
            &&& is_sleb_field(entry.ty) || is_sleb64_field(entry.ty) <==> reloc.encoding is Sleb
            &&& is_i64_field(entry.ty) || is_sleb64_field(entry.ty) || entry.ty is MemoryAddrLeb64
                <==> reloc.width is Bits64
        },
{
}

/// Every entry refers to the kind of symbol that its type names.
pub proof fn lemma_field_symbols(
    entry: RawRelocationEntry,
    entry_offset: int,
    reloc: LinkageRelocationEntry,
)
    requires
        AnyRelocationEntry::Linkage(reloc).is_raw(entry, entry_offset),
    ensures
        reloc.symbol_op is FunctionIndex <==> entry.ty is FunctionIndexLeb
            || entry.ty is FunctionIndexI32,
        reloc.symbol_op is TableIndex <==> {
            ||| entry.ty is TableIndexSleb
            ||| entry.ty is TableIndexI32
            ||| entry.ty is TableIndexRelSleb
            ||| entry.ty is TableIndexSleb64
            ||| entry.ty is TableIndexI64
            ||| entry.ty is TableIndexRelSleb64
        },
        reloc.symbol_op is GlobalIndex <==> entry.ty is GlobalIndexLeb
            || entry.ty is GlobalIndexI32,
        reloc.symbol_op is FunctionOffset <==> entry.ty is FunctionOffsetI32
            || entry.ty is FunctionOffsetI64,
        reloc.symbol_op is SectionOffset <==> entry.ty is SectionOffsetI32,
        reloc.symbol_op is EventIndex <==> entry.ty is EventIndexLeb,
        reloc.symbol_op is TableNumber <==> entry.ty is TableNumberLeb,
        reloc.symbol_op is MemoryAddr <==> {
            ||| entry.ty is MemoryAddrLeb
            ||| entry.ty is MemoryAddrSleb
            ||| entry.ty is MemoryAddrI32
            ||| entry.ty is MemoryAddrRelSleb
            ||| entry.ty is MemoryAddrLeb64
            ||| entry.ty is MemoryAddrSleb64
            ||| entry.ty is MemoryAddrI64
            ||| entry.ty is MemoryAddrRelSleb64
            ||| entry.ty is MemoryAddrTlsSleb
            ||| entry.ty is MemoryAddrLocrelI32
            ||| entry.ty is MemoryAddrTlsSleb64
        },
{
}

/// Only entries whose type says so are relative: to the base of the module, to the thread-local
/// base, or to their own place.
pub proof fn lemma_field_bases(
    entry: RawRelocationEntry,
    entry_offset: int,
    reloc: LinkageRelocationEntry,
)
    requires
        AnyRelocationEntry::Linkage(reloc).is_raw(entry, entry_offset),
    ensures
        reloc.relation is Got <==> {
            ||| entry.ty is MemoryAddrRelSleb
            ||| entry.ty is TableIndexRelSleb
            ||| entry.ty is MemoryAddrRelSleb64
            ||| entry.ty is TableIndexRelSleb64
        },
        reloc.relation is Tls <==> entry.ty is MemoryAddrTlsSleb
            || entry.ty is MemoryAddrTlsSleb64,
        reloc.relation is LocRel <==> entry.ty is MemoryAddrLocrelI32,
{
}

/// An entry stands for the address of data or of a function in the table, for the number of a
/// function, a global or a table, or for a place in the file, as its symbol type says; where the
/// symbol is of another kind there is no such number.
pub proof fn lemma_address_modes(entity: EntityKind, ty: SymbolType)
    ensures
        EntityAddressMode::of(entity, ty) == Some(EntityAddressMode::RuntimeAddr) <==> (
        entity is DataSymbol && ty is MemoryAddr) || (entity is Function && ty is TableIndex),
        EntityAddressMode::of(entity, ty) == Some(EntityAddressMode::StaticIndex) <==> (
        entity is Function && ty is FunctionIndex) || (entity is Global && ty is GlobalIndex) || (
        entity is Table && ty is TableNumber),
        EntityAddressMode::of(entity, ty) == Some(EntityAddressMode::FileOffset) <==> entity
            is Function && ty is FunctionOffset,
        EntityAddressMode::of(entity, ty) != Some(EntityAddressMode::BaseStaticIndex),
{
}

/// Nothing is lost when an entry is taken apart: its type can be told from the parts.
pub proof fn lemma_decomposition_is_lossless(a: RelocationType, b: RelocationType)
    requires
        decomposed(a) == decomposed(b),
    ensures
        a == b,
{
}

impl RangeExt for AnyRelocationEntry {
    open spec fn can_move(&self, distance: int) -> bool {
        0 <= self.offset_spec() + distance <= u32::MAX
    }

    open spec fn is_moved(&self, other: &Self, distance: int) -> bool {
        *other == self.at_offset((self.offset_spec() + distance) as u32)
    }

    fn shift_left(&self, offset: usize) -> (r: Self) {
        let mut modified = *self;
        modified.set_offset(self.offset() - offset as u32);
        modified
    }

    fn shift_right(&self, offset: usize) -> (r: Self) {
        let mut modified = *self;
        modified.set_offset(self.offset() + offset as u32);
        modified
    }
}

impl<Any: Copy, Other: Copy> RangeExt for RelocationEntry<Any, Other> {
    open spec fn can_move(&self, distance: int) -> bool {
        0 <= self.offset + distance <= u32::MAX
    }

    open spec fn is_moved(&self, other: &Self, distance: int) -> bool {
        *other == (RelocationEntry { offset: (self.offset + distance) as u32, ..*self })
    }

    fn shift_left(&self, offset: usize) -> (r: Self) {
        let mut modified = *self;
        modified.offset = modified.offset - offset as u32;
        modified
    }

    fn shift_right(&self, offset: usize) -> (r: Self) {
        let mut modified = *self;
        modified.offset = modified.offset + offset as u32;
        modified
    }
}

/// Moving to the right and back to the left gives back the entry.
pub proof fn lemma_shift_roundtrip<Any: Copy, Other: Copy>(
    entry: RelocationEntry<Any, Other>,
    moved: RelocationEntry<Any, Other>,
    back: RelocationEntry<Any, Other>,
    distance: int,
)
    requires
        entry.can_move(distance),
        entry.is_moved(&moved, distance),
        moved.is_moved(&back, -distance),
    ensures
        back == entry,
{
}

} // verus!
