//! Resolution of relocations against the layout of an output module.
pub mod encode;
pub mod resolver;

use crate::emit::modify::wasm_emitter::overwritten;
use crate::emit::plan::GotInfo;
use crate::emit::relocation::encode::{
    byte_range, encode_leb128_i32_5byte, encode_leb128_i64_10byte, encode_leb128_u32_5byte,
    encode_leb128_u64_10byte, encode_u32, encode_u64, fixed_leb, is_leb, le_bytes, le_value,
    leb_range, leb_value, lemma_fixed_leb_is_leb, lemma_fixed_leb_len, lemma_fixed_leb_roundtrip,
    lemma_fixed_leb_signed_roundtrip, lemma_le_roundtrip, signed_leb_value,
};
use crate::index::{GappedMap, ReservedValue, SecondaryMap, TempIndex};
use crate::layouts::data::{DataSymbolRef, DataSymbolsOffsets, Offsets};
use crate::layouts::elements::ElementItemId;
use crate::linkage::file_db::{lemma_code_owner, lemma_data_owner, lemma_sections_cover, FileRelocs};
use crate::linkage::reloc::{
    encoded_size, Encoding, EntityAddressMode, EntityRelocationEntry, Relative, RelocationEntry,
    RelocationWidth,
};
use crate::typed::entities::ImportOrDefined;
use crate::typed::module::Module;
use crate::typed::{EntityKind, FileId, FunctionRef, GlobalRef};
use core::ops::Range;
use vstd::prelude::*;

verus! {

/// An entity of some file.
#[derive(Debug, Clone, Copy, PartialEq, Eq, Hash)]
pub struct EntityLocation<Entity = EntityKind> {
    pub file_id: FileId,
    pub entity: Entity,
}

impl<Entity> EntityLocation<Entity> {
    pub fn from_parts(file_id: FileId, entity: Entity) -> (r: Self)
        ensures
            r == (EntityLocation { file_id, entity }),
    {
        EntityLocation { file_id, entity }
    }

    /// Another entity of the same file.
    pub fn other_entity(&self, entity: Entity) -> (r: Self)
        ensures
            r == (EntityLocation { file_id: self.file_id, entity }),
    {
        EntityLocation { file_id: self.file_id, entity }
    }
}

impl EntityLocation<EntityKind> {
    /// A number that tells entities of all files apart.
    pub open spec fn code_spec(self) -> u128 {
        (self.file_id.id() * 0x1_0000_0000_0000_0000 + self.entity.code_spec()) as u128
    }

    /// A number that tells entities of all files apart.
    pub(crate) fn code(&self) -> (r: u128)
        ensures
            r == self.code_spec(),
    {
        self.file_id.as_u32() as u128 * 0x1_0000_0000_0000_0000 + self.entity.code() as u128
    }

    pub(crate) proof fn lemma_code_injective(a: EntityLocation, b: EntityLocation)
        requires
            a.code_spec() == b.code_spec(),
        ensures
            a == b,
    {
        EntityKind::lemma_code_injective(a.entity, b.entity);
    }
}

impl<E: ReservedValue> ReservedValue for EntityLocation<E> {
    open spec fn is_reserved_spec(&self) -> bool {
        self.file_id.is_reserved_spec() && self.entity.is_reserved_spec()
    }

    fn reserved_value() -> (r: Self) {
        EntityLocation { file_id: FileId::reserved_value(), entity: E::reserved_value() }
    }

    fn is_reserved_value(&self) -> (r: bool) {
        self.file_id.is_reserved_value() && self.entity.is_reserved_value()
    }
}

/// Where a function is in an output module.
#[derive(Debug, Clone, Copy, PartialEq, Eq, Hash)]
pub struct FunctionInfo {
    /// Offset of its body in the code section.
    pub code_offset: u32,
    /// Its index in the indirect function table.
    pub indirect_table_index: Option<ElementItemId>,
}

/// Where the parts of an output module are.
#[derive(Debug)]
pub struct ModuleLayout {
    /// The code section in the bytes of the module.
    pub code_section: Range<usize>,
    /// The data section in the bytes of the module.
    pub data_section: Range<usize>,
    pub functions_mapping: SecondaryMap<FunctionRef, FunctionInfo>,
    pub data_mapping: DataSymbolsOffsets,
}

/// Where a data symbol of another module is.
#[derive(Debug, Clone, Copy, PartialEq, Eq)]
pub struct ImportedDataDep {
    /// Place of the symbol in the module that defines it.
    pub output_location: Offsets,
    /// The global that holds the base of that module; none if the module has a fixed place.
    pub got_entry: Option<GlobalRef>,
}

impl ReservedValue for ImportedDataDep {
    open spec fn is_reserved_spec(&self) -> bool {
        self.got_entry matches Some(got) && got.is_reserved_spec()
            && self.output_location.is_reserved_spec()
    }

    fn reserved_value() -> (r: Self) {
        ImportedDataDep {
            got_entry: Some(GlobalRef::reserved()),
            output_location: Offsets::reserved_value(),
        }
    }

    fn is_reserved_value(&self) -> (r: bool) {
        match self.got_entry {
            Some(got) => got.is_reserved() && self.output_location.is_reserved_value(),
            None => false,
        }
    }
}

/// A number of 32 bits, read as a signed one.
pub open spec fn as_signed(value: u32) -> int {
    if value >= 0x8000_0000 {
        value - 0x1_0000_0000
    } else {
        value as int
    }
}

/// The bytes of a relocated field.
pub open spec fn field_bytes(value: u32, encoding: Encoding, width: RelocationWidth) -> Seq<u8> {
    match (encoding, width) {
        (Encoding::Fixed, RelocationWidth::Bits32) => le_bytes(value as int, 4),
        (Encoding::Leb, RelocationWidth::Bits32) => fixed_leb(value as int, 5),
        (Encoding::Sleb, RelocationWidth::Bits32) => fixed_leb(as_signed(value), 5),
        (Encoding::Fixed, RelocationWidth::Bits64) => le_bytes(value as int, 8),
        (Encoding::Leb, RelocationWidth::Bits64) => fixed_leb(value as int, 10),
        (Encoding::Sleb, RelocationWidth::Bits64) => fixed_leb(value as int, 10),
    }
}

proof fn lemma_le_bytes_len(value: int, size: nat)
    ensures
        le_bytes(value, size).len() == size,
    decreases size,
{
    if size > 0 {
        lemma_le_bytes_len(value / 256, (size - 1) as nat);
    }
}

/// The bytes of a relocated field fill it.
pub proof fn lemma_field_fills_place(value: u32, encoding: Encoding, width: RelocationWidth)
    ensures
        field_bytes(value, encoding, width).len() == encoded_size(encoding, width),
{
    lemma_le_bytes_len(value as int, 4);
    lemma_le_bytes_len(value as int, 8);
    lemma_fixed_leb_len(value as int, 5);
    lemma_fixed_leb_len(as_signed(value), 5);
    lemma_fixed_leb_len(value as int, 10);
}

/// Writes bytes over others.
pub(crate) fn write_at(target: &mut Vec<u8>, at: usize, bytes: &[u8])
    requires
        at + bytes@.len() <= old(target)@.len(),
    ensures
        final(target)@ == overwritten(old(target)@, at as int, bytes@),
{
    let ghost before = target@;
    let len: usize = target.len();
    let mut i: usize = 0;
    while i < bytes.len()
        invariant
            i <= bytes@.len(),
            at + bytes@.len() <= len == before.len(),
            target@.len() == before.len(),
            forall|j: int| 0 <= j < i ==> target@[at + j] == #[trigger] bytes@[j],
            forall|j: int|
                0 <= j < before.len() && !(at <= j < at + i) ==> #[trigger] target@[j] == before[j],
        decreases bytes@.len() - i,
    {
        target.set(at + i, bytes[i]);
        i = i + 1;
    }
    proof {
        let expected = overwritten(before, at as int, bytes@);
        assert forall|j: int| 0 <= j < before.len() implies target@[j] == expected[j] by {
            if at <= j < at + bytes@.len() {
                assert(target@[at + (j - at)] == bytes@[j - at]);
            }
        }
        assert(target@ =~= expected);
    }
}

/// Writes a relocated field.
fn encode_field(
    target: &mut Vec<u8>,
    at: usize,
    value: u32,
    encoding: Encoding,
    width: RelocationWidth,
)
    requires
        at + encoded_size(encoding, width) <= old(target)@.len(),
    ensures
        final(target)@ == overwritten(
            old(target)@,
            at as int,
            field_bytes(value, encoding, width),
        ),
{
    proof {
        lemma_field_fills_place(value, encoding, width);
    }
    match (encoding, width) {
        (Encoding::Fixed, RelocationWidth::Bits32) => {
            let mut buf: [u8; 4] = [0; 4];
            encode_u32(value, &mut buf);
            write_at(target, at, buf.as_slice());
        },
        (Encoding::Leb, RelocationWidth::Bits32) => {
            let mut buf: [u8; 5] = [0; 5];
            encode_leb128_u32_5byte(value, &mut buf);
            write_at(target, at, buf.as_slice());
        },
        (Encoding::Sleb, RelocationWidth::Bits32) => {
            let signed: i32 = if value >= 0x8000_0000 {
                (value as i64 - 0x1_0000_0000) as i32
            } else {
                value as i32
            };
            let mut buf: [u8; 5] = [0; 5];
            encode_leb128_i32_5byte(signed, &mut buf);
            write_at(target, at, buf.as_slice());
        },
        (Encoding::Fixed, RelocationWidth::Bits64) => {
            let mut buf: [u8; 8] = [0; 8];
            encode_u64(value as u64, &mut buf);
            write_at(target, at, buf.as_slice());
        },
        (Encoding::Leb, RelocationWidth::Bits64) => {
            let mut buf: [u8; 10] = [0; 10];
            encode_leb128_u64_10byte(value as u64, &mut buf);
            write_at(target, at, buf.as_slice());
        },
        (Encoding::Sleb, RelocationWidth::Bits64) => {
            let mut buf: [u8; 10] = [0; 10];
            encode_leb128_i64_10byte(value as i64, &mut buf);
            write_at(target, at, buf.as_slice());
        },
    }
}

/// What relocations of a module are resolved against.
pub struct RelocationState<'any> {
    current_module: &'any Module,
    current_module_layout: &'any ModuleLayout,
    current_got: Option<GotInfo>,
    imported_data: GappedMap<DataSymbolRef, ImportedDataDep>,
}

impl<'any> RelocationState<'any> {
    pub closed spec fn module(&self) -> Module {
        *self.current_module
    }

    pub closed spec fn layout(&self) -> ModuleLayout {
        *self.current_module_layout
    }

    pub closed spec fn got(&self) -> Option<GotInfo> {
        self.current_got
    }

    pub closed spec fn imported(&self) -> GappedMap<DataSymbolRef, ImportedDataDep> {
        self.imported_data
    }

    pub fn new(
        current_module: &'any Module,
        current_module_layout: &'any ModuleLayout,
        current_got: Option<GotInfo>,
        imported_data: GappedMap<DataSymbolRef, ImportedDataDep>,
    ) -> (r: Self)
        ensures
            r.module() == *current_module,
            r.layout() == *current_module_layout,
            r.got() == current_got,
            r.imported() == imported_data,
    {
        RelocationState { current_module, current_module_layout, current_got, imported_data }
    }

    /// Whether a data symbol of the module is defined by another one.
    pub open spec fn is_external(&self, data: DataSymbolRef) -> bool {
        self.module().extra.mem_layout.is_external_ref(data)
    }

    /// Whether the module has a data symbol.
    pub open spec fn has_data(&self, data: DataSymbolRef) -> bool {
        self.is_external(data) || self.module().extra.mem_layout.defined.lookup(data) is Some
    }

    /// The number of an entity that a relocation stands for, if it has one.
    pub open spec fn target_value(&self, reloc: EntityRelocationEntry) -> Option<u32> {
        match reloc.symbol_op {
            EntityAddressMode::StaticIndex => if reloc.relation is Absolute {
                Some(reloc.symbol_id.inner_id())
            } else {
                None
            },
            EntityAddressMode::RuntimeAddr => match reloc.symbol_id {
                EntityKind::Function(f) => match self.layout().functions_mapping.value(
                    f.id() as nat,
                ).indirect_table_index {
                    Some(index) => Some(index.id()),
                    None => None,
                },
                EntityKind::DataSymbol(d) => if !self.has_data(d) {
                    None
                } else if self.is_external(d) {
                    match self.imported().lookup(d) {
                        Some(dep) => Some(dep.output_location.va_address as u32),
                        None => None,
                    }
                } else {
                    match self.layout().data_mapping.lookup(d) {
                        Some(place) => Some(place.offsets.va_address as u32),
                        None => None,
                    }
                },
                _ => None,
            },
            EntityAddressMode::BaseStaticIndex => match reloc.symbol_id {
                EntityKind::DataSymbol(d) => if !self.has_data(d) {
                    None
                } else if self.is_external(d) {
                    match self.imported().lookup(d) {
                        Some(dep) => match dep.got_entry {
                            Some(got) => Some(got.id()),
                            None => None,
                        },
                        None => None,
                    }
                } else {
                    match self.got() {
                        Some(got) => Some(got.memory_base.id()),
                        None => None,
                    }
                },
                EntityKind::Function(f) => if f.id() < self.module().functions@.len()
                    && self.module().functions@.entity(f.id() as int) is Defined {
                    match self.got() {
                        Some(got) => Some(got.memory_base.id()),
                        None => None,
                    }
                } else {
                    None
                },
                _ => None,
            },
            EntityAddressMode::FileOffset => None,
        }
    }

    /// The value of a relocation: the number that it stands for, plus its addend.
    pub open spec fn reloc_value(&self, reloc: EntityRelocationEntry) -> Option<u32> {
        match self.target_value(reloc) {
            Some(value) => if 0 <= value + reloc.addend <= u32::MAX {
                Some((value + reloc.addend) as u32)
            } else {
                None
            },
            None => None,
        }
    }

    /// Whether a relocation can be applied to a section of the given length.
    pub open spec fn applies(&self, reloc: EntityRelocationEntry, section_len: int) -> bool {
        self.reloc_value(reloc) is Some && reloc.place().1 <= section_len
    }

    /// The bytes of the module after relocations of a section were applied.
    pub open spec fn applied(
        &self,
        bytes: Seq<u8>,
        section_start: int,
        relocs: Seq<EntityRelocationEntry>,
    ) -> Seq<u8>
        decreases relocs.len(),
    {
        if relocs.len() == 0 {
            bytes
        } else {
            let reloc = relocs.last();
            overwritten(
                self.applied(bytes, section_start, relocs.drop_last()),
                section_start + reloc.offset,
                field_bytes(self.reloc_value(reloc)->0, reloc.encoding, reloc.width),
            )
        }
    }

    /// The number of an entity that a relocation stands for, if it has one.
    fn target(&self, reloc: &EntityRelocationEntry) -> (r: Option<u32>)
        requires
            self.module().extra.mem_layout.wf(),
            self.module().functions@.len() <= usize::MAX,
        ensures
            r == self.target_value(*reloc),
    {
        match reloc.symbol_op {
            EntityAddressMode::StaticIndex => match reloc.relation {
                Relative::Absolute => Some(reloc.symbol_id.to_inner_u32()),
                _ => None,
            },
            EntityAddressMode::RuntimeAddr => match reloc.symbol_id {
                EntityKind::Function(f) => {
                    match self.current_module_layout.functions_mapping.get(
                        f,
                    ).indirect_table_index {
                        Some(index) => Some(index.as_u32()),
                        None => None,
                    }
                },
                EntityKind::DataSymbol(d) => self.data_address(d),
                _ => None,
            },
            EntityAddressMode::BaseStaticIndex => match reloc.symbol_id {
                EntityKind::DataSymbol(d) => self.data_base(d),
                EntityKind::Function(f) => {
                    if (f.as_u32() as usize) < self.current_module.functions.len() {
                        match self.current_module.functions.get_entity(f) {
                            ImportOrDefined::Defined(_) => match self.current_got {
                                Some(got) => Some(got.memory_base.as_u32()),
                                None => None,
                            },
                            _ => None,
                        }
                    } else {
                        None
                    }
                },
                _ => None,
            },
            EntityAddressMode::FileOffset => None,
        }
    }

    /// The address of a data symbol, in the module that defines it.
    fn data_address(&self, d: DataSymbolRef) -> (r: Option<u32>)
        requires
            self.module().extra.mem_layout.wf(),
        ensures
            r == if !self.has_data(d) {
                None::<u32>
            } else if self.is_external(d) {
                match self.imported().lookup(d) {
                    Some(dep) => Some(dep.output_location.va_address as u32),
                    None => None,
                }
            } else {
                match self.layout().data_mapping.lookup(d) {
                    Some(place) => Some(place.offsets.va_address as u32),
                    None => None,
                }
            },
    {
        if self.is_external_data(d) {
            match self.imported_data.get(d) {
                Some(dep) => Some(
                    #[verifier::truncate]
                    (dep.output_location.va_address as u32),
                ),
                None => None,
            }
        } else if self.current_module.extra.mem_layout.item_places().get(d).is_some() {
            match self.current_module_layout.data_mapping.get(d) {
                Some(place) => Some(
                    #[verifier::truncate]
                    (place.offsets.va_address as u32),
                ),
                None => None,
            }
        } else {
            None
        }
    }

    /// The global that holds the base of the module that defines a data symbol.
    fn data_base(&self, d: DataSymbolRef) -> (r: Option<u32>)
        requires
            self.module().extra.mem_layout.wf(),
        ensures
            r == if !self.has_data(d) {
                None::<u32>
            } else if self.is_external(d) {
                match self.imported().lookup(d) {
                    Some(dep) => match dep.got_entry {
                        Some(got) => Some(got.id()),
                        None => None,
                    },
                    None => None,
                }
            } else {
                match self.got() {
                    Some(got) => Some(got.memory_base.id()),
                    None => None,
                }
            },
    {
        if self.is_external_data(d) {
            match self.imported_data.get(d) {
                Some(dep) => match dep.got_entry {
                    Some(got) => Some(got.as_u32()),
                    None => None,
                },
                None => None,
            }
        } else if self.current_module.extra.mem_layout.item_places().get(d).is_some() {
            match self.current_got {
                Some(got) => Some(got.memory_base.as_u32()),
                None => None,
            }
        } else {
            None
        }
    }

    fn is_external_data(&self, d: DataSymbolRef) -> (r: bool)
        ensures
            r == self.is_external(d),
    {
        self.current_module.extra.mem_layout.external().get(d).is_some()
    }

    /// The value of a relocation, if it has one.
    fn value(&self, reloc: &EntityRelocationEntry) -> (r: Option<u32>)
        requires
            self.module().extra.mem_layout.wf(),
            self.module().functions@.len() <= usize::MAX,
        ensures
            r == self.reloc_value(*reloc),
    {
        match self.target(reloc) {
            Some(value) => {
                let sum: i128 = value as i128 + reloc.addend as i128;
                if 0 <= sum && sum <= u32::MAX as i128 {
                    Some(sum as u32)
                } else {
                    None
                }
            },
            None => None,
        }
    }

    /// Applies a relocation to a section.
    fn apply_relocation(
        &self,
        bytes: &mut Vec<u8>,
        section: &Range<usize>,
        reloc: &EntityRelocationEntry,
    )
        requires
            self.module().extra.mem_layout.wf(),
            self.module().functions@.len() <= usize::MAX,
            section.start <= section.end <= old(bytes)@.len(),
            self.applies(*reloc, section.end - section.start),
        ensures
            final(bytes)@ == overwritten(
                old(bytes)@,
                section.start + reloc.offset,
                field_bytes(self.reloc_value(*reloc)->0, reloc.encoding, reloc.width),
            ),
            final(bytes)@.len() == old(bytes)@.len(),
    {
        proof {
            lemma_field_fills_place(self.reloc_value(*reloc)->0, reloc.encoding, reloc.width);
        }
        let value: u32 = self.value(reloc).unwrap();
        let at: usize = section.start + reloc.offset as usize;
        encode_field(bytes, at, value, reloc.encoding, reloc.width);
    }

    /// Applies relocations to a section.
    fn apply_relocations(
        &self,
        bytes: &mut Vec<u8>,
        section: &Range<usize>,
        relocs: &[EntityRelocationEntry],
    )
        requires
            self.module().extra.mem_layout.wf(),
            self.module().functions@.len() <= usize::MAX,
            section.start <= section.end <= old(bytes)@.len(),
            forall|i: int|
                0 <= i < relocs@.len() ==> self.applies(
                    #[trigger] relocs@[i],
                    section.end - section.start,
                ),
        ensures
            final(bytes)@ == self.applied(old(bytes)@, section.start as int, relocs@),
            final(bytes)@.len() == old(bytes)@.len(),
    {
        let ghost before = bytes@;
        let mut i: usize = 0;
        assert(relocs@.take(0) =~= Seq::<EntityRelocationEntry>::empty());
        while i < relocs.len()
            invariant
                i <= relocs@.len(),
                self.module().extra.mem_layout.wf(),
                self.module().functions@.len() <= usize::MAX,
                section.start <= section.end <= before.len(),
                bytes@.len() == before.len(),
                forall|i: int|
                    0 <= i < relocs@.len() ==> self.applies(
                        #[trigger] relocs@[i],
                        section.end - section.start,
                    ),
                bytes@ == self.applied(before, section.start as int, relocs@.take(i as int)),
            decreases relocs@.len() - i,
        {
            assert(relocs@.take(i + 1).drop_last() =~= relocs@.take(i as int));
            assert(self.applies(relocs@[i as int], section.end - section.start));
            self.apply_relocation(bytes, section, &relocs[i]);
            i = i + 1;
        }
        assert(relocs@.take(i as int) =~= relocs@);
    }

    /// How far the relocations of an entity are moved, from the start of the entity to the start
    /// of the section.
    pub open spec fn entity_shift(&self, owner: EntityKind) -> Option<int> {
        match owner {
            EntityKind::Function(f) => Some(
                self.layout().functions_mapping.value(f.id() as nat).code_offset as int,
            ),
            EntityKind::DataSymbol(d) => match self.layout().data_mapping.lookup(d) {
                Some(place) => Some(place.offsets.section_offset as int),
                None => None,
            },
            _ => None,
        }
    }

    /// Whether the relocations of an entity can be moved.
    pub open spec fn can_shift(&self, owner: EntityKind, reloc: EntityRelocationEntry) -> bool {
        self.entity_shift(owner) matches Some(shift) && reloc.offset + shift <= u32::MAX
    }

    /// The relocation of an entity, relative to the start of the section.
    pub open spec fn shifted(
        &self,
        owner: EntityKind,
        reloc: EntityRelocationEntry,
    ) -> EntityRelocationEntry {
        RelocationEntry {
            offset: (reloc.offset + self.entity_shift(owner)->0) as u32,
            ..reloc
        }
    }

    /// Makes the offsets of relocations relative to the start of the section, from being relative
    /// to the start of the entity.
    fn shift_reloc_offsets(&self, relocs: &mut FileRelocs)
        requires
            old(relocs).wf(),
            forall|i: int, j: int|
                #![trigger old(relocs).entities()[i], old(relocs).all()[j]]
                0 <= i < old(relocs).entities().len() && old(relocs).entities()[i].1.0 <= j < old(
                    relocs,
                ).entities()[i].1.1 ==> self.can_shift(
                    old(relocs).entities()[i].0,
                    old(relocs).all()[j],
                ),
        ensures
            final(relocs).wf(),
            final(relocs).code() == old(relocs).code(),
            final(relocs).data() == old(relocs).data(),
            final(relocs).all().len() == old(relocs).all().len(),
            forall|i: int, j: int|
                #![trigger old(relocs).entities()[i], final(relocs).all()[j]]
                0 <= i < old(relocs).entities().len() && old(relocs).entities()[i].1.0 <= j < old(
                    relocs,
                ).entities()[i].1.1 ==> final(relocs).all()[j] == self.shifted(
                    old(relocs).entities()[i].0,
                    old(relocs).all()[j],
                ),
    {
        let shift = |owner: EntityKind, reloc: EntityRelocationEntry| -> (r: EntityRelocationEntry)
            requires
                self.can_shift(owner, reloc),
            ensures
                r == self.shifted(owner, reloc),
            {
                let distance: u32 = match owner {
                    EntityKind::Function(func) => {
                        self.current_module_layout.functions_mapping.get(func).code_offset
                    },
                    EntityKind::DataSymbol(data) => {
                        let place = self.current_module_layout.data_mapping.get(data);
                        place.unwrap().offsets.section_offset as u32
                    },
                    _ => 0,
                };
                let mut moved = reloc;
                moved.offset = reloc.offset + distance;
                moved
            };
        relocs.update_relocs(shift);
    }

    /// Whether a relocation of an entity can be moved and applied.
    pub open spec fn can_apply(&self, owner: EntityKind, reloc: EntityRelocationEntry) -> bool {
        let section = if owner is Function {
            self.layout().code_section
        } else {
            self.layout().data_section
        };
        &&& self.can_shift(owner, reloc)
        &&& self.applies(self.shifted(owner, reloc), section.end - section.start)
    }

    /// Whether relocations can be applied to a module of the given length.
    pub open spec fn ready(&self, len: int, relocs: FileRelocs) -> bool {
        &&& self.module().extra.mem_layout.wf()
        &&& self.module().functions@.len() <= usize::MAX
        &&& relocs.wf()
        &&& self.layout().code_section.start <= self.layout().code_section.end <= len
        &&& self.layout().data_section.start <= self.layout().data_section.end <= len
        &&& forall|i: int, j: int|
            #![trigger relocs.entities()[i], relocs.all()[j]]
            0 <= i < relocs.entities().len() && relocs.entities()[i].1.0 <= j
                < relocs.entities()[i].1.1 ==> self.can_apply(
                relocs.entities()[i].0,
                relocs.all()[j],
            )
    }

    fn check_reloc(&self, owner: EntityKind, reloc: &EntityRelocationEntry) -> (r: bool)
        requires
            self.module().extra.mem_layout.wf(),
            self.module().functions@.len() <= usize::MAX,
            self.layout().code_section.start <= self.layout().code_section.end,
            self.layout().data_section.start <= self.layout().data_section.end,
        ensures
            r == self.can_apply(owner, *reloc),
    {
        let layout = self.current_module_layout;
        let (shift, len): (u128, u128) = match owner {
            EntityKind::Function(func) => (
                layout.functions_mapping.get(func).code_offset as u128,
                (layout.code_section.end - layout.code_section.start) as u128,
            ),
            EntityKind::DataSymbol(data) => match layout.data_mapping.get(data) {
                Some(place) => (
                    place.offsets.section_offset as u128,
                    (layout.data_section.end - layout.data_section.start) as u128,
                ),
                None => {
                    return false;
                },
            },
            _ => {
                return false;
            },
        };
        let offset: u128 = reloc.offset as u128 + shift;
        if offset > u32::MAX as u128 {
            return false;
        }
        let mut moved = *reloc;
        moved.offset = offset as u32;
        self.value(&moved).is_some() && offset + moved.extent() as u128 <= len
    }

    /// Tells whether relocations can be applied to a module of the given length.
    pub fn is_ready(&self, len: usize, relocs: &FileRelocs) -> (r: bool)
        requires
            self.module().extra.mem_layout.wf(),
            self.module().functions@.len() <= usize::MAX,
            relocs.wf(),
        ensures
            r == self.ready(len as int, *relocs),
    {
        let layout = self.current_module_layout;
        if layout.code_section.start > layout.code_section.end || layout.code_section.end > len
            || layout.data_section.start > layout.data_section.end || layout.data_section.end
            > len {
            return false;
        }
        proof {
            relocs.lemma_entities();
        }
        let entities = relocs.iter_relocs();
        let ghost spans = relocs.entities();
        let mut i: usize = 0;
        while i < entities.len()
            invariant
                i <= entities@.len() == spans.len(),
                spans == relocs.entities(),
                self.module().extra.mem_layout.wf(),
                self.module().functions@.len() <= usize::MAX,
                self.layout().code_section.start <= self.layout().code_section.end <= len,
                self.layout().data_section.start <= self.layout().data_section.end <= len,
                forall|k: int|
                    0 <= k < entities@.len() ==> (#[trigger] entities@[k]).0 == spans[k].0
                        && entities@[k].1@ == relocs.all().subrange(spans[k].1.0, spans[k].1.1),
                forall|k: int|
                    0 <= k < spans.len() ==> 0 <= (#[trigger] spans[k]).1.0 <= spans[k].1.1
                        <= relocs.all().len(),
                forall|k: int, j: int|
                    #![trigger spans[k], relocs.all()[j]]
                    0 <= k < i && spans[k].1.0 <= j < spans[k].1.1 ==> self.can_apply(
                        spans[k].0,
                        relocs.all()[j],
                    ),
            decreases entities@.len() - i,
        {
            let owner = entities[i].0;
            let own_relocs = entities[i].1;
            let ghost start = spans[i as int].1.0;
            assert(0 <= spans[i as int].1.0 <= spans[i as int].1.1 <= relocs.all().len());
            let mut j: usize = 0;
            while j < own_relocs.len()
                invariant
                    0 <= i < spans.len(),
                    j <= own_relocs@.len(),
                    spans == relocs.entities(),
                    owner == spans[i as int].0,
                    start == spans[i as int].1.0,
                    0 <= start <= spans[i as int].1.1 <= relocs.all().len(),
                    own_relocs@ == relocs.all().subrange(start, spans[i as int].1.1),
                    self.module().extra.mem_layout.wf(),
                    self.module().functions@.len() <= usize::MAX,
                    self.layout().code_section.start <= self.layout().code_section.end <= len,
                    self.layout().data_section.start <= self.layout().data_section.end <= len,
                    forall|l: int|
                        start <= l < start + j ==> self.can_apply(
                            owner,
                            #[trigger] relocs.all()[l],
                        ),
                decreases own_relocs@.len() - j,
            {
                assert(own_relocs@[j as int] == relocs.all()[start + j]);
                if !self.check_reloc(owner, &own_relocs[j]) {
                    assert(!self.can_apply(
                        relocs.entities()[i as int].0,
                        relocs.all()[start + j],
                    ));
                    return false;
                }
                j = j + 1;
            }
            i = i + 1;
        }
        true
    }

    /// Makes the offsets of relocations relative to their sections, and applies those of the code
    /// section and then those of the data section.
    pub fn shift_offsets_and_apply_relocs(
        &self,
        module_bytes: &mut Vec<u8>,
        relocs: &mut FileRelocs,
    )
        requires
            self.ready(old(module_bytes)@.len() as int, *old(relocs)),
        ensures
            final(relocs).wf(),
            final(relocs).code() == old(relocs).code(),
            final(relocs).data() == old(relocs).data(),
            final(relocs).all().len() == old(relocs).all().len(),
            forall|i: int, j: int|
                #![trigger old(relocs).entities()[i], final(relocs).all()[j]]
                0 <= i < old(relocs).entities().len() && old(relocs).entities()[i].1.0 <= j < old(
                    relocs,
                ).entities()[i].1.1 ==> final(relocs).all()[j] == self.shifted(
                    old(relocs).entities()[i].0,
                    old(relocs).all()[j],
                ),
            final(module_bytes)@ == self.applied(
                self.applied(
                    old(module_bytes)@,
                    self.layout().code_section.start as int,
                    final(relocs).all().take(final(relocs).code_len()),
                ),
                self.layout().data_section.start as int,
                final(relocs).all().skip(final(relocs).code_len()),
            ),
    {
        let ghost before = *relocs;
        self.shift_reloc_offsets(relocs);
        let ghost mid = relocs.code_len();
        proof {
            lemma_sections_cover(before);
            assert(mid == before.code_len());
            let layout = self.layout();
            assert forall|j: int| 0 <= j < mid implies self.applies(
                #[trigger] relocs.all().take(mid)[j],
                layout.code_section.end - layout.code_section.start,
            ) by {
                let owner = lemma_code_owner(before, j);
                assert(before.entities()[owner].1.0 <= j < before.entities()[owner].1.1);
                assert(relocs.all()[j] == self.shifted(
                    before.entities()[owner].0,
                    before.all()[j],
                ));
            }
            assert forall|j: int| 0 <= j < relocs.all().len() - mid implies self.applies(
                #[trigger] relocs.all().skip(mid)[j],
                layout.data_section.end - layout.data_section.start,
            ) by {
                let owner = lemma_data_owner(before, mid + j);
                assert(before.entities()[owner].1.0 <= mid + j < before.entities()[owner].1.1);
                assert(relocs.all()[mid + j] == self.shifted(
                    before.entities()[owner].0,
                    before.all()[mid + j],
                ));
            }
        }
        let code_relocs = relocs.get_code_section_relocs();
        self.apply_relocations(
            module_bytes,
            &self.current_module_layout.code_section,
            code_relocs,
        );
        let data_relocs = relocs.get_data_section_relocs();
        self.apply_relocations(
            module_bytes,
            &self.current_module_layout.data_section,
            data_relocs,
        );
    }
}

/// Applying relocations does not change the number of bytes, and changes only relocated bytes.
pub proof fn lemma_applied_changes_places_only<'any>(
    state: RelocationState<'any>,
    bytes: Seq<u8>,
    section_start: int,
    relocs: Seq<EntityRelocationEntry>,
)
    requires
        0 <= section_start,
        forall|i: int|
            0 <= i < relocs.len() ==> section_start + (#[trigger] relocs[i]).place().1
                <= bytes.len(),
    ensures
        state.applied(bytes, section_start, relocs).len() == bytes.len(),
        forall|at: int|
            0 <= at < bytes.len() && (forall|i: int|
                0 <= i < relocs.len() ==> !(section_start + (#[trigger] relocs[i]).place().0 <= at
                    < section_start + relocs[i].place().1)) ==> #[trigger] state.applied(
                bytes,
                section_start,
                relocs,
            )[at] == bytes[at],
    decreases relocs.len(),
{
    if relocs.len() > 0 {
        let init = relocs.drop_last();
        let reloc = relocs.last();
        assert forall|i: int| 0 <= i < init.len() implies section_start + (
        #[trigger] init[i]).place().1 <= bytes.len() by {
            assert(section_start + relocs[i].place().1 <= bytes.len());
        }
        lemma_applied_changes_places_only(state, bytes, section_start, init);
        lemma_field_fills_place(state.reloc_value(reloc)->0, reloc.encoding, reloc.width);
        assert(section_start + relocs[relocs.len() - 1].place().1 <= bytes.len());
        let before = state.applied(bytes, section_start, init);
        assert forall|at: int|
            0 <= at < bytes.len() && (forall|i: int|
                0 <= i < relocs.len() ==> !(section_start + (#[trigger] relocs[i]).place().0 <= at
                    < section_start + relocs[i].place().1)) implies #[trigger] state.applied(
            bytes,
            section_start,
            relocs,
        )[at] == bytes[at] by {
            assert forall|i: int| 0 <= i < init.len() implies !(section_start + (
            #[trigger] init[i]).place().0 <= at < section_start + init[i].place().1) by {
                assert(!(section_start + relocs[i].place().0 <= at < section_start
                    + relocs[i].place().1));
            }
            assert(before[at] == bytes[at]);
            assert(!(section_start + relocs[relocs.len() - 1].place().0 <= at < section_start
                + relocs[relocs.len() - 1].place().1));
        }
    }
}

/// After relocations that do not overlap were applied, every relocated place holds the encoding of
/// the value of its relocation.
pub proof fn lemma_applied_places_hold_values<'any>(
    state: RelocationState<'any>,
    bytes: Seq<u8>,
    section_start: int,
    relocs: Seq<EntityRelocationEntry>,
    k: int,
)
    requires
        0 <= section_start,
        0 <= k < relocs.len(),
        forall|i: int|
            0 <= i < relocs.len() ==> section_start + (#[trigger] relocs[i]).place().1
                <= bytes.len(),
        forall|i: int|
            k < i < relocs.len() ==> relocs[k].place().1 <= (#[trigger] relocs[i]).place().0
                || relocs[i].place().1 <= relocs[k].place().0,
    ensures
        state.applied(bytes, section_start, relocs).subrange(
            section_start + relocs[k].place().0,
            section_start + relocs[k].place().1,
        ) == field_bytes(
            state.reloc_value(relocs[k])->0,
            relocs[k].encoding,
            relocs[k].width,
        ),
    decreases relocs.len(),
{
    let init = relocs.drop_last();
    let last = relocs.len() - 1;
    let reloc = relocs.last();
    assert(section_start + relocs[last].place().1 <= bytes.len());
    assert forall|i: int| 0 <= i < init.len() implies section_start + (
    #[trigger] init[i]).place().1 <= bytes.len() by {
        assert(section_start + relocs[i].place().1 <= bytes.len());
    }
    lemma_applied_changes_places_only(state, bytes, section_start, init);
    lemma_applied_changes_places_only(state, bytes, section_start, relocs);
    lemma_field_fills_place(state.reloc_value(reloc)->0, reloc.encoding, reloc.width);
    lemma_field_fills_place(
        state.reloc_value(relocs[k])->0,
        relocs[k].encoding,
        relocs[k].width,
    );
    let before = state.applied(bytes, section_start, init);
    let after = state.applied(bytes, section_start, relocs);
    let from = section_start + relocs[k].place().0;
    let to = section_start + relocs[k].place().1;
    if k == last {
        assert(after.subrange(from, to) =~= field_bytes(
            state.reloc_value(reloc)->0,
            reloc.encoding,
            reloc.width,
        ));
    } else {
        assert forall|i: int| k < i < init.len() implies init[k].place().1 <= (
        #[trigger] init[i]).place().0 || init[i].place().1 <= init[k].place().0 by {
            assert(relocs[k].place().1 <= relocs[i].place().0 || relocs[i].place().1
                <= relocs[k].place().0);
        }
        lemma_applied_places_hold_values(state, bytes, section_start, init, k);
        assert(relocs[k].place().1 <= relocs[last].place().0 || relocs[last].place().1
            <= relocs[k].place().0);
        assert(section_start + relocs[k].place().1 <= bytes.len());
        assert(after.subrange(from, to) =~= before.subrange(from, to));
    }
}

/// Whether a field holds a number, read as its encoding says: an integer in 4 or 8 bytes, or a LEB128
/// number in 5 or 10 bytes. A signed number of 32 bits stands for all numbers with the same bits.
pub open spec fn field_holds(
    bytes: Seq<u8>,
    encoding: Encoding,
    width: RelocationWidth,
    value: int,
) -> bool {
    match encoding {
        Encoding::Fixed => {
            &&& bytes.len() == if width is Bits32 {
                4
            } else {
                8int
            }
            &&& le_value(bytes) == value
        },
        Encoding::Leb => {
            &&& bytes.len() == if width is Bits32 {
                5
            } else {
                10int
            }
            &&& is_leb(bytes)
            &&& leb_value(bytes) == value
        },
        Encoding::Sleb => {
            &&& bytes.len() == if width is Bits32 {
                5
            } else {
                10int
            }
            &&& is_leb(bytes)
            &&& if width is Bits32 {
                &&& -0x8000_0000 <= signed_leb_value(bytes) < 0x8000_0000
                &&& (signed_leb_value(bytes) - value) % 0x1_0000_0000 == 0
            } else {
                signed_leb_value(bytes) == value
            }
        },
    }
}

/// A relocated field holds the number that was written.
pub proof fn lemma_field_holds_value(value: u32, encoding: Encoding, width: RelocationWidth)
    ensures
        field_holds(field_bytes(value, encoding, width), encoding, width, value as int),
{
    reveal_with_fuel(leb_range, 11);
    reveal_with_fuel(byte_range, 9);
    lemma_field_fills_place(value, encoding, width);
    let size: nat = if width is Bits32 {
        5
    } else {
        10
    };
    match encoding {
        Encoding::Fixed => {
            if width is Bits32 {
                lemma_le_roundtrip(value as int, 4);
            } else {
                lemma_le_roundtrip(value as int, 8);
            }
        },
        Encoding::Leb => {
            lemma_fixed_leb_is_leb(value as int, size);
            lemma_fixed_leb_roundtrip(value as int, size);
        },
        Encoding::Sleb => {
            if width is Bits32 {
                lemma_fixed_leb_is_leb(as_signed(value), size);
                lemma_fixed_leb_signed_roundtrip(as_signed(value), size);
            } else {
                lemma_fixed_leb_is_leb(value as int, size);
                lemma_fixed_leb_signed_roundtrip(value as int, size);
            }
        },
    }
}

/// Whether a relocation stands for a number: the address of a data symbol in the module that defines
/// it, the entry of a function in the table, the index of an entity, or the index of the global that
/// holds a base.
pub open spec fn stands_for<'any>(
    state: RelocationState<'any>,
    reloc: EntityRelocationEntry,
    number: int,
) -> bool {
    let mem_layout = state.module().extra.mem_layout;
    match reloc.symbol_op {
        EntityAddressMode::RuntimeAddr => match reloc.symbol_id {
            EntityKind::DataSymbol(d) => {
                ||| mem_layout.is_external_ref(d) && (state.imported().lookup(d) matches Some(dep)
                    && dep.output_location.va_address == number)
                ||| !mem_layout.is_external_ref(d) && mem_layout.defined.lookup(d) is Some && (
                state.layout().data_mapping.lookup(d) matches Some(place)
                    && place.offsets.va_address == number)
            },
            EntityKind::Function(f) => state.layout().functions_mapping.value(
                f.id() as nat,
            ).indirect_table_index matches Some(index) && index.id() == number,
            _ => false,
        },
        EntityAddressMode::BaseStaticIndex => match reloc.symbol_id {
            EntityKind::DataSymbol(d) => {
                ||| mem_layout.is_external_ref(d) && (state.imported().lookup(d) matches Some(dep)
                    && dep.got_entry matches Some(got) && got.id() == number)
                ||| !mem_layout.is_external_ref(d) && mem_layout.defined.lookup(d) is Some && (
                state.got() matches Some(got) && got.memory_base.id() == number)
            },
            EntityKind::Function(f) => {
                &&& f.id() < state.module().functions@.len()
                &&& state.module().functions@.entity(f.id() as int) is Defined
                &&& state.got() matches Some(got)
                &&& got.memory_base.id() == number
            },
            _ => false,
        },
        EntityAddressMode::StaticIndex => reloc.relation is Absolute && match reloc.symbol_id {
            EntityKind::Function(r) => r.id() == number,
            EntityKind::Global(r) => r.id() == number,
            EntityKind::Table(r) => r.id() == number,
            EntityKind::Memory(r) => r.id() == number,
            EntityKind::Tag(r) => r.id() == number,
            EntityKind::DataSymbol(r) => r.id() == number,
            EntityKind::Type(r) => r.id() == number,
        },
        EntityAddressMode::FileOffset => false,
    }
}

/// A relocation that stands for a number can be applied exactly where the number and the addend have
/// a sum of 32 bits, and its value is that sum.
pub proof fn lemma_value_is_number_plus_addend<'any>(
    state: RelocationState<'any>,
    reloc: EntityRelocationEntry,
    number: int,
)
    requires
        stands_for(state, reloc, number),
        number <= u32::MAX,
    ensures
        state.reloc_value(reloc) is Some <==> 0 <= number + reloc.addend <= u32::MAX,
        state.reloc_value(reloc) matches Some(value) ==> value == number + reloc.addend,
{
}

/// A relocation that stands for no number has no value.
pub proof fn lemma_value_needs_number<'any>(
    state: RelocationState<'any>,
    reloc: EntityRelocationEntry,
)
    requires
        forall|number: int| !#[trigger] stands_for(state, reloc, number),
    ensures
        state.reloc_value(reloc) is None,
{
    if let Some(value) = state.target_value(reloc) {
        let mem_layout = state.module().extra.mem_layout;
        if reloc.symbol_op is RuntimeAddr {
            if let EntityKind::DataSymbol(d) = reloc.symbol_id {
                if mem_layout.is_external_ref(d) {
                    assert(stands_for(
                        state,
                        reloc,
                        (state.imported().lookup(d)->0).output_location.va_address as int,
                    ));
                } else {
                    assert(stands_for(
                        state,
                        reloc,
                        (state.layout().data_mapping.lookup(d)->0).offsets.va_address as int,
                    ));
                }
            }
        }
        assert(stands_for(state, reloc, value as int) || reloc.symbol_op is RuntimeAddr);
        assert(!stands_for(state, reloc, value as int));
    }
}

/// Relocations that differ in their addends only have values that differ by as much.
pub proof fn lemma_addends_move_values<'any>(
    state: RelocationState<'any>,
    a: EntityRelocationEntry,
    b: EntityRelocationEntry,
)
    requires
        b == (RelocationEntry { addend: b.addend, ..a }),
        state.reloc_value(a) is Some,
        state.reloc_value(b) is Some,
    ensures
        state.reloc_value(b)->0 - state.reloc_value(a)->0 == b.addend - a.addend,
{
}

/// After relocations that do not overlap were applied, the number that is read from every relocated
/// field is the number that its relocation stands for, plus its addend.
pub proof fn lemma_relocated_field_is_read_back<'any>(
    state: RelocationState<'any>,
    bytes: Seq<u8>,
    section_start: int,
    relocs: Seq<EntityRelocationEntry>,
    k: int,
    number: int,
)
    requires
        0 <= section_start,
        0 <= k < relocs.len(),
        forall|i: int|
            0 <= i < relocs.len() ==> section_start + (#[trigger] relocs[i]).place().1
                <= bytes.len(),
        forall|i: int|
            k < i < relocs.len() ==> relocs[k].place().1 <= (#[trigger] relocs[i]).place().0
                || relocs[i].place().1 <= relocs[k].place().0,
        stands_for(state, relocs[k], number),
        number <= u32::MAX,
        0 <= number + relocs[k].addend <= u32::MAX,
    ensures
        relocs[k].place().0 == relocs[k].offset,
        field_holds(
            state.applied(bytes, section_start, relocs).subrange(
                section_start + relocs[k].place().0,
                section_start + relocs[k].place().1,
            ),
            relocs[k].encoding,
            relocs[k].width,
            number + relocs[k].addend,
        ),
{
    lemma_applied_places_hold_values(state, bytes, section_start, relocs, k);
    lemma_value_is_number_plus_addend(state, relocs[k], number);
    lemma_field_holds_value(
        state.reloc_value(relocs[k])->0,
        relocs[k].encoding,
        relocs[k].width,
    );
}

/// The place of a relocation is moved by as much as its function or data symbol stands behind the
/// start of its section, and nothing else changes.
pub proof fn lemma_shifted_by_owner<'any>(
    state: RelocationState<'any>,
    owner: EntityKind,
    reloc: EntityRelocationEntry,
)
    requires
        state.can_shift(owner, reloc),
    ensures
        state.shifted(owner, reloc) == (RelocationEntry {
            offset: state.shifted(owner, reloc).offset,
            ..reloc
        }),
        owner matches EntityKind::Function(f) ==> state.shifted(owner, reloc).place().0
            == state.layout().functions_mapping.value(f.id() as nat).code_offset
            + reloc.place().0,
        owner matches EntityKind::DataSymbol(d) ==> (state.layout().data_mapping.lookup(d) matches
            Some(place) && state.shifted(owner, reloc).place().0 == place.offsets.section_offset
            + reloc.place().0),
{
}

} // verus!
