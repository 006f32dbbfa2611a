//! Relocations and symbols of a file.
use crate::helpers::{cmp_range, range_relation, RangeComp};
use crate::index::{
    entries, grown, lemma_slot_is_entry, slot_at, GappedMap, PrimaryMap, ReservedValue, TempIndex,
};
use crate::layouts::data::DataSymbolRef;
use crate::linkage::reloc::{
    AnyRelocationEntry, Encoding, EntityAddressMode, EntityRelocationEntry, Relative,
    RelocationEntry, RelocationWidth, SymbolType,
};
use crate::sorting::{lemma_sorted, lemma_sorted_all, sort_by_key, sorted_by};
use crate::typed::{EntityKind, FnTypeRef, FunctionRef, SymbolId};
use core::ops::Range;
use std::collections::HashSet;
use vstd::prelude::*;
use vstd::slice::slice_subrange;

verus! {

/// A range of relocations in the relocations of a file.
#[derive(Debug, PartialEq, Eq)]
pub struct RelocRange {
    pub relocs: Range<usize>,
}

impl RelocRange {
    pub fn from_range(relocs: Range<usize>) -> (r: Self)
        ensures
            r.relocs == relocs,
    {
        RelocRange { relocs }
    }

    pub open spec fn bounds(&self) -> (int, int) {
        (self.relocs.start as int, self.relocs.end as int)
    }
}

impl ReservedValue for RelocRange {
    open spec fn is_reserved_spec(&self) -> bool {
        self.relocs.start == usize::MAX && self.relocs.end == 0
    }

    fn reserved_value() -> (r: Self) {
        RelocRange { relocs: Range { start: usize::MAX, end: 0 } }
    }

    fn is_reserved_value(&self) -> (r: bool) {
        self.relocs.start == usize::MAX && self.relocs.end == 0
    }
}

/// The entity of a symbol.
#[derive(Debug, Clone, Copy, PartialEq, Eq, PartialOrd, Ord, Structural)]
pub struct SymbolOffset {
    pub entity: EntityKind,
    /// Where the symbol starts in the entity, if it was merged into another one. Only data symbols
    /// are merged.
    pub offset_in_entity: u32,
    /// Whether the definition of the symbol is still in use.
    pub used_definition: bool,
}

impl SymbolOffset {
    pub fn new(entity: EntityKind) -> (r: Self)
        ensures
            r == (SymbolOffset { entity, offset_in_entity: 0, used_definition: true }),
    {
        SymbolOffset { entity, offset_in_entity: 0, used_definition: true }
    }
}

/// The symbols of a file with the entities that they stand for.
#[derive(Debug, PartialEq, Eq)]
pub struct FileSymbolDb {
    pub symbols: PrimaryMap<SymbolId, SymbolOffset>,
}

impl FileSymbolDb {
    /// The entity of a symbol.
    pub fn symbol_entity(&self, symbol_id: SymbolId) -> (r: Option<&SymbolOffset>)
        ensures
            r == if symbol_id.id() < self.symbols@.len() {
                Some(&self.symbols@[symbol_id.id() as int])
            } else {
                None::<&SymbolOffset>
            },
    {
        self.symbols.get(symbol_id)
    }

    /// The entity of a function type.
    pub fn resolve_type_id(&self, type_id: FnTypeRef) -> (r: Option<EntityKind>)
        ensures
            r == Some(EntityKind::Type(type_id)),
    {
        Some(EntityKind::Type(type_id))
    }
}

/// Whether an addend applies to a type of symbols: only offsets in memory or in the file have one.
pub open spec fn takes_addend(symbol_type: SymbolType) -> bool {
    symbol_type is SectionOffset || symbol_type is FunctionOffset || symbol_type is MemoryAddr
}

/// Whether the target of a relocation is known, and the relocation applies to it.
pub open spec fn resolvable(symbols: Seq<SymbolOffset>, reloc: AnyRelocationEntry) -> bool {
    match reloc {
        AnyRelocationEntry::Linkage(l) => {
            let target = symbols[l.symbol_id.id() as int];
            &&& l.symbol_id.id() < symbols.len()
            &&& EntityAddressMode::of(target.entity, l.symbol_op) is Some
            &&& if takes_addend(l.symbol_op) {
                l.addend + target.offset_in_entity <= i64::MAX
            } else {
                l.addend == 0 && target.offset_in_entity == 0
            }
        },
        AnyRelocationEntry::Type(_) => true,
    }
}

/// The relocation with its symbol replaced by the entity of the symbol.
pub open spec fn resolved(
    symbols: Seq<SymbolOffset>,
    reloc: AnyRelocationEntry,
) -> EntityRelocationEntry {
    match reloc {
        AnyRelocationEntry::Linkage(l) => {
            let target = symbols[l.symbol_id.id() as int];
            RelocationEntry {
                addend: (l.addend + target.offset_in_entity) as i64,
                offset: l.offset,
                symbol_id: target.entity,
                symbol_op: EntityAddressMode::of(target.entity, l.symbol_op)->0,
                relation: l.relation,
                encoding: l.encoding,
                width: l.width,
            }
        },
        AnyRelocationEntry::Type(t) => RelocationEntry {
            addend: 0,
            offset: t.offset,
            symbol_id: EntityKind::Type(t.index),
            symbol_op: EntityAddressMode::StaticIndex,
            relation: Relative::Absolute,
            encoding: Encoding::Leb,
            width: RelocationWidth::Bits32,
        },
    }
}

pub open spec fn resolved_all(
    symbols: Seq<SymbolOffset>,
    relocs: Seq<AnyRelocationEntry>,
) -> Seq<EntityRelocationEntry> {
    Seq::new(relocs.len(), |i: int| resolved(symbols, relocs[i]))
}

/// The key by which relocations are ordered.
pub open spec fn reloc_key() -> spec_fn(EntityRelocationEntry) -> int {
    |e: EntityRelocationEntry| e.offset as int
}

/// The key by which regions of a file are ordered.
pub open spec fn region_key<U>() -> spec_fn((Range<usize>, U)) -> int {
    |r: (Range<usize>, U)| r.0.start as int
}

/// Whether a region of the file holds the place of a relocation.
pub open spec fn holds(region: Range<usize>, reloc: EntityRelocationEntry) -> bool {
    region.start <= reloc.place().0 && reloc.place().1 <= region.end
}

/// The first relocation, from `from` on, that a region does not hold.
pub open spec fn run_end(
    region: Range<usize>,
    relocs: Seq<EntityRelocationEntry>,
    from: int,
) -> int
    decreases relocs.len() - from,
{
    if 0 <= from < relocs.len() && holds(region, relocs[from]) {
        run_end(region, relocs, from + 1)
    } else {
        from
    }
}

/// Gives each region the relocations that it holds, in order, from `from` on. Returns the slots of
/// the owners, and the first relocation without an owner.
pub open spec fn owned<U: TempIndex>(
    regions: Seq<(Range<usize>, U)>,
    relocs: Seq<EntityRelocationEntry>,
    from: int,
) -> (Seq<Option<RelocRange>>, int)
    decreases regions.len(),
{
    if regions.len() == 0 {
        (Seq::empty(), from)
    } else {
        let (slots, start) = owned(regions.drop_last(), relocs, from);
        let (region, symbol) = regions.last();
        let end = run_end(region, relocs, start);
        if end == start {
            (slots, start)
        } else {
            let range = RelocRange { relocs: Range { start: start as usize, end: end as usize } };
            (grown(slots, symbol.id() as nat).update(symbol.id() as int, Some(range)), end)
        }
    }
}

/// Whether the first relocation that is left after each region lies behind that region.
pub open spec fn regions_fit<U: TempIndex>(
    regions: Seq<(Range<usize>, U)>,
    relocs: Seq<EntityRelocationEntry>,
    from: int,
) -> bool {
    forall|i: int|
        0 <= i < regions.len() ==> {
            let next = owned(regions.take(i + 1), relocs, from).1;
            let region = #[trigger] regions[i];
            &&& region.1.id() + 1 < u32::MAX
            &&& next < relocs.len() ==> range_relation(
                region.0.start as int,
                region.0.end as int,
                relocs[next].place().0,
                relocs[next].place().1,
            ) is Left
        }
}

/// Whether ranges follow one another without gaps from `from` to `to`.
pub open spec fn consecutive(ranges: Seq<(u32, RelocRange)>, from: int, to: int) -> bool {
    &&& from <= to
    &&& ranges.len() == 0 ==> from == to
    &&& ranges.len() > 0 ==> ranges[0].1.bounds().0 == from && ranges.last().1.bounds().1 == to
    &&& forall|i: int|
        0 <= i < ranges.len() ==> (#[trigger] ranges[i]).1.bounds().0 <= ranges[i].1.bounds().1
    &&& forall|i: int|
        0 < i < ranges.len() ==> ranges[i - 1].1.bounds().1 == (#[trigger] ranges[i]).1.bounds().0
}

/// End of the last range.
pub open spec fn ranges_end(ranges: Seq<(u32, RelocRange)>) -> int {
    if ranges.len() == 0 {
        0
    } else {
        ranges.last().1.bounds().1
    }
}

/// Whether every relocation has one owner: the ranges of the functions, in order of their indices,
/// and then those of the data symbols cover all relocations without gaps.
pub open spec fn owners_in_order(
    code: Seq<Option<RelocRange>>,
    data: Seq<Option<RelocRange>>,
    len: nat,
) -> bool {
    &&& consecutive(entries(code), 0, ranges_end(entries(code)))
    &&& consecutive(entries(data), ranges_end(entries(code)), len as int)
}

proof fn lemma_consecutive_bounds(ranges: Seq<(u32, RelocRange)>, from: int, to: int, i: int)
    requires
        consecutive(ranges, from, to),
        0 <= i < ranges.len(),
    ensures
        from <= ranges[i].1.bounds().0 <= ranges[i].1.bounds().1 <= to,
{
    lemma_bounds_from(ranges, from, to, i);
    lemma_bounds_to(ranges, from, to, i);
}

proof fn lemma_bounds_from(ranges: Seq<(u32, RelocRange)>, from: int, to: int, i: int)
    requires
        consecutive(ranges, from, to),
        0 <= i < ranges.len(),
    ensures
        from <= ranges[i].1.bounds().0,
    decreases i,
{
    if i > 0 {
        lemma_bounds_from(ranges, from, to, i - 1);
        assert(ranges[i - 1].1.bounds().0 <= ranges[i - 1].1.bounds().1);
    }
}

proof fn lemma_bounds_to(ranges: Seq<(u32, RelocRange)>, from: int, to: int, i: int)
    requires
        consecutive(ranges, from, to),
        0 <= i < ranges.len(),
    ensures
        ranges[i].1.bounds().1 <= to,
    decreases ranges.len() - i,
{
    if i < ranges.len() - 1 {
        lemma_bounds_to(ranges, from, to, i + 1);
        assert(ranges[i].1.bounds().1 == ranges[i + 1].1.bounds().0);
        assert(ranges[i + 1].1.bounds().0 <= ranges[i + 1].1.bounds().1);
    }
}

/// Regions of the file that belong to functions and to data symbols.
pub type Regions = (Vec<(Range<usize>, FunctionRef)>, Vec<(Range<usize>, DataSymbolRef)>);

/// The relocations of a file, in order of their offsets, and what owns each.
#[derive(Debug, PartialEq, Eq)]
pub struct FileRelocs {
    array: Vec<EntityRelocationEntry>,
    code_owners: GappedMap<FunctionRef, RelocRange>,
    data_owners: GappedMap<DataSymbolRef, RelocRange>,
}

impl FileRelocs {
    /// All relocations.
    pub closed spec fn all(&self) -> Seq<EntityRelocationEntry> {
        self.array@
    }

    /// Ranges of the relocations of functions.
    pub closed spec fn code(&self) -> Seq<Option<RelocRange>> {
        self.code_owners@
    }

    /// Ranges of the relocations of data symbols.
    pub closed spec fn data(&self) -> Seq<Option<RelocRange>> {
        self.data_owners@
    }

    /// Number of relocations in functions.
    pub open spec fn code_len(&self) -> int {
        ranges_end(entries(self.code()))
    }

    pub closed spec fn wf(&self) -> bool {
        &&& self.code_owners.wf()
        &&& self.data_owners.wf()
        &&& owners_in_order(self.code(), self.data(), self.all().len())
    }

    /// The relocations of a range.
    pub open spec fn of_range(&self, range: RelocRange) -> Seq<EntityRelocationEntry> {
        self.all().subrange(range.bounds().0, range.bounds().1)
    }

    /// The relocations in an entity, if it has any.
    pub open spec fn of_entity(&self, entity: EntityKind) -> Option<Seq<EntityRelocationEntry>> {
        match entity {
            EntityKind::Function(f) => match slot_at(self.code(), f.id() as nat) {
                Some(range) => Some(self.of_range(range)),
                None => None,
            },
            EntityKind::DataSymbol(d) => match slot_at(self.data(), d.id() as nat) {
                Some(range) => Some(self.of_range(range)),
                None => None,
            },
            _ => None,
        }
    }

    proof fn lemma_code_range(&self, key: nat)
        requires
            self.wf(),
            slot_at(self.code(), key) is Some,
        ensures
            0 <= slot_at(self.code(), key)->0.bounds().0 <= slot_at(self.code(), key)->0.bounds().1
                <= self.code_len() <= self.all().len(),
    {
        self.code_owners.lemma_len();
        let i = lemma_slot_is_entry(self.code(), key);
        lemma_consecutive_bounds(entries(self.code()), 0, self.code_len(), i);
    }

    proof fn lemma_data_range(&self, key: nat)
        requires
            self.wf(),
            slot_at(self.data(), key) is Some,
        ensures
            0 <= self.code_len() <= slot_at(self.data(), key)->0.bounds().0 <= slot_at(
                self.data(),
                key,
            )->0.bounds().1 <= self.all().len(),
    {
        self.data_owners.lemma_len();
        let i = lemma_slot_is_entry(self.data(), key);
        lemma_consecutive_bounds(
            entries(self.data()),
            self.code_len(),
            self.all().len() as int,
            i,
        );
    }

    /// Relocations from their parts. The owners have to cover all relocations in order.
    pub fn build_from_parts(
        array: Vec<EntityRelocationEntry>,
        code_owners: GappedMap<FunctionRef, RelocRange>,
        data_owners: GappedMap<DataSymbolRef, RelocRange>,
    ) -> (r: Self)
        requires
            code_owners.wf(),
            data_owners.wf(),
            owners_in_order(code_owners@, data_owners@, array@.len()),
        ensures
            r.wf(),
            r.all() == array@,
            r.code() == code_owners@,
            r.data() == data_owners@,
    {
        FileRelocs { array, code_owners, data_owners }
    }

    /// The relocations in a data symbol.
    pub fn get_data_relocs(&self, data_symbol: DataSymbolRef) -> (r: Option<
        &[EntityRelocationEntry],
    >)
        requires
            self.wf(),
        ensures
            match r {
                Some(relocs) => self.of_entity(EntityKind::DataSymbol(data_symbol)) == Some(
                    relocs@,
                ),
                None => self.of_entity(EntityKind::DataSymbol(data_symbol)) is None,
            },
    {
        match self.data_owners.get(data_symbol) {
            Some(range) => {
                proof {
                    self.lemma_data_range(data_symbol.id() as nat);
                }
                Some(slice_subrange(self.array.as_slice(), range.relocs.start, range.relocs.end))
            },
            None => None,
        }
    }

    /// The relocations in a function.
    pub fn get_code_relocs(&self, func: FunctionRef) -> (r: Option<&[EntityRelocationEntry]>)
        requires
            self.wf(),
        ensures
            match r {
                Some(relocs) => self.of_entity(EntityKind::Function(func)) == Some(relocs@),
                None => self.of_entity(EntityKind::Function(func)) is None,
            },
    {
        match self.code_owners.get(func) {
            Some(range) => {
                proof {
                    self.lemma_code_range(func.id() as nat);
                }
                Some(slice_subrange(self.array.as_slice(), range.relocs.start, range.relocs.end))
            },
            None => None,
        }
    }

    /// The relocations in an entity. Only functions and data symbols have any.
    pub fn get_entity_relocs(&self, entity: EntityKind) -> (r: Option<&[EntityRelocationEntry]>)
        requires
            self.wf(),
        ensures
            match r {
                Some(relocs) => self.of_entity(entity) == Some(relocs@),
                None => self.of_entity(entity) is None,
            },
    {
        match entity {
            EntityKind::Function(func) => self.get_code_relocs(func),
            EntityKind::DataSymbol(data) => self.get_data_relocs(data),
            _ => None,
        }
    }

    /// The range that the owners of a section cover.
    fn section_range<K: TempIndex>(
        owners: &GappedMap<K, RelocRange>,
        Ghost(from): Ghost<int>,
        Ghost(to): Ghost<int>,
    ) -> (r: Option<(usize, usize)>)
        requires
            owners.wf(),
            consecutive(entries(owners@), from, to),
        ensures
            match r {
                Some((start, end)) => start == from && end == to,
                None => from == to,
            },
    {
        let all = owners.iter();
        if all.len() == 0 {
            return None;
        }
        let start: usize = all[0].1.relocs.start;
        let end: usize = all[all.len() - 1].1.relocs.end;
        assert(all@[0].1.bounds().0 == from);
        assert(all@[all@.len() - 1].1.bounds().1 == to);
        Some((start, end))
    }

    /// All relocations in functions.
    pub fn get_code_section_relocs(&self) -> (r: &[EntityRelocationEntry])
        requires
            self.wf(),
        ensures
            r@ == self.all().take(self.code_len()),
    {
        let range = Self::section_range(&self.code_owners, Ghost(0), Ghost(self.code_len()));
        let (start, end) = match range {
            Some(range) => range,
            None => (0, 0),
        };
        let relocs = slice_subrange(self.array.as_slice(), start, end);
        assert(relocs@ =~= self.all().take(self.code_len()));
        relocs
    }

    /// All relocations in data symbols.
    pub fn get_data_section_relocs(&self) -> (r: &[EntityRelocationEntry])
        requires
            self.wf(),
        ensures
            r@ == self.all().skip(self.code_len()),
    {
        let len: usize = self.array.len();
        let range = Self::section_range(
            &self.data_owners,
            Ghost(self.code_len()),
            Ghost(len as int),
        );
        let (start, end) = match range {
            Some(range) => range,
            None => (len, len),
        };
        let relocs = slice_subrange(self.array.as_slice(), start, end);
        assert(relocs@ =~= self.all().skip(self.code_len()));
        relocs
    }

    /// Every entity that has relocations with their range: functions, then data symbols, each in
    /// order of their indices.
    pub open spec fn entities(&self) -> Seq<(EntityKind, (int, int))> {
        Seq::new(
            entries(self.code()).len(),
            |i: int|
                (
                    EntityKind::Function(FunctionRef { id: entries(self.code())[i].0 }),
                    entries(self.code())[i].1.bounds(),
                ),
        ) + Seq::new(
            entries(self.data()).len(),
            |i: int|
                (
                    EntityKind::DataSymbol(DataSymbolRef { id: entries(self.data())[i].0 }),
                    entries(self.data())[i].1.bounds(),
                ),
        )
    }

    /// The ranges of all entities cover the relocations in order.
    pub proof fn lemma_entities(&self)
        requires
            self.wf(),
        ensures
            forall|i: int|
                0 <= i < self.entities().len() ==> 0 <= (#[trigger] self.entities()[i]).1.0
                    <= self.entities()[i].1.1 <= self.all().len(),
            forall|i: int, j: int|
                #![trigger self.entities()[i], self.entities()[j]]
                0 <= i < j < self.entities().len() ==> self.entities()[i].1.1
                    <= self.entities()[j].1.0,
    {
        let all = self.entities();
        let code = entries(self.code());
        let data = entries(self.data());
        let mid = self.code_len();
        let len = self.all().len() as int;
        assert forall|i: int| 0 <= i < all.len() implies 0 <= (#[trigger] all[i]).1.0 <= all[i].1.1
            <= len by {
            if i < code.len() {
                lemma_consecutive_bounds(code, 0, mid, i);
            } else {
                lemma_consecutive_bounds(data, mid, len, i - code.len());
            }
        }
        assert forall|i: int, j: int|
            #![trigger all[i], all[j]]
            0 <= i < j < all.len() implies all[i].1.1 <= all[j].1.0 by {
            if j < code.len() {
                lemma_consecutive_order(code, 0, mid, i, j);
            } else if i >= code.len() {
                lemma_consecutive_order(data, mid, len, i - code.len(), j - code.len());
            } else {
                lemma_consecutive_bounds(code, 0, mid, i);
                lemma_consecutive_bounds(data, mid, len, j - code.len());
            }
        }
    }

    /// Every relocation has an owner: the first entity starts with the first relocation, every other
    /// one starts where the one before it ends, and the last one ends with the last relocation.
    pub proof fn lemma_ordered_no_gaps(&self)
        requires
            self.wf(),
        ensures
            self.entities().len() == 0 ==> self.all().len() == 0,
            self.entities().len() > 0 ==> self.entities()[0].1.0 == 0 && self.entities().last().1.1
                == self.all().len(),
            forall|i: int|
                0 < i < self.entities().len() ==> self.entities()[i - 1].1.1 == (
                #[trigger] self.entities()[i]).1.0,
    {
        let all = self.entities();
        let code = entries(self.code());
        let data = entries(self.data());
        assert forall|i: int| 0 < i < all.len() implies all[i - 1].1.1 == (
        #[trigger] all[i]).1.0 by {
            if i < code.len() {
                assert(code[i - 1].1.bounds().1 == code[i].1.bounds().0);
            } else if i > code.len() {
                let j = i - code.len();
                assert(data[j - 1].1.bounds().1 == data[j].1.bounds().0);
            }
        }
    }

    fn iter_entities(&self) -> (r: Vec<(EntityKind, Range<usize>)>)
        requires
            self.wf(),
        ensures
            r@.len() == self.entities().len(),
            forall|i: int|
                0 <= i < r@.len() ==> (#[trigger] r@[i]).0 == self.entities()[i].0 && (
                    r@[i].1.start as int,
                    r@[i].1.end as int,
                ) == self.entities()[i].1,
    {
        let mut result: Vec<(EntityKind, Range<usize>)> = Vec::new();
        let code = self.code_owners.iter();
        let mut i: usize = 0;
        while i < code.len()
            invariant
                i <= code@.len(),
                result@.len() == i,
                code@.len() == entries(self.code()).len(),
                forall|j: int|
                    0 <= j < code@.len() ==> (#[trigger] code@[j]).0.id() == entries(self.code())[j].0
                        && *code@[j].1 == entries(self.code())[j].1,
                forall|j: int|
                    0 <= j < i ==> (#[trigger] result@[j]).0 == self.entities()[j].0 && (
                        result@[j].1.start as int,
                        result@[j].1.end as int,
                    ) == self.entities()[j].1,
            decreases code@.len() - i,
        {
            let range = Range { start: code[i].1.relocs.start, end: code[i].1.relocs.end };
            result.push((EntityKind::Function(code[i].0), range));
            i = i + 1;
        }
        let data = self.data_owners.iter();
        let mut i: usize = 0;
        while i < data.len()
            invariant
                i <= data@.len(),
                result@.len() == code@.len() + i,
                code@.len() == entries(self.code()).len(),
                data@.len() == entries(self.data()).len(),
                forall|j: int|
                    0 <= j < data@.len() ==> (#[trigger] data@[j]).0.id() == entries(self.data())[j].0
                        && *data@[j].1 == entries(self.data())[j].1,
                forall|j: int|
                    0 <= j < result@.len() ==> (#[trigger] result@[j]).0 == self.entities()[j].0 && (
                        result@[j].1.start as int,
                        result@[j].1.end as int,
                    ) == self.entities()[j].1,
            decreases data@.len() - i,
        {
            let range = Range { start: data[i].1.relocs.start, end: data[i].1.relocs.end };
            result.push((EntityKind::DataSymbol(data[i].0), range));
            i = i + 1;
        }
        result
    }

    /// Every entity that has relocations, with its relocations.
    pub fn iter_relocs(&self) -> (r: Vec<(EntityKind, &[EntityRelocationEntry])>)
        requires
            self.wf(),
        ensures
            r@.len() == self.entities().len(),
            forall|i: int|
                0 <= i < r@.len() ==> (#[trigger] r@[i]).0 == self.entities()[i].0 && r@[i].1@
                    == self.all().subrange(self.entities()[i].1.0, self.entities()[i].1.1),
    {
        let entities = self.iter_entities();
        let mut result: Vec<(EntityKind, &[EntityRelocationEntry])> = Vec::new();
        let mut i: usize = 0;
        proof {
            self.lemma_entities();
        }
        while i < entities.len()
            invariant
                self.wf(),
                i <= entities@.len(),
                result@.len() == i,
                entities@.len() == self.entities().len(),
                forall|j: int|
                    0 <= j < entities@.len() ==> (#[trigger] entities@[j]).0 == self.entities()[j].0
                        && (entities@[j].1.start as int, entities@[j].1.end as int)
                        == self.entities()[j].1,
                forall|j: int|
                    0 <= j < self.entities().len() ==> 0 <= (#[trigger] self.entities()[j]).1.0
                        <= self.entities()[j].1.1 <= self.all().len(),
                forall|j: int|
                    0 <= j < i ==> (#[trigger] result@[j]).0 == self.entities()[j].0 && result@[j].1@
                        == self.all().subrange(self.entities()[j].1.0, self.entities()[j].1.1),
            decreases entities@.len() - i,
        {
            assert(0 <= self.entities()[i as int].1.0 <= self.entities()[i as int].1.1
                <= self.all().len());
            let start: usize = entities[i].1.start;
            let end: usize = entities[i].1.end;
            result.push((entities[i].0, slice_subrange(self.array.as_slice(), start, end)));
            i = i + 1;
        }
        result
    }

    /// Replaces every relocation by what a function makes of it and of the entity that it is in.
    pub fn update_relocs<F>(&mut self, func: F)
        where F: Fn(EntityKind, EntityRelocationEntry) -> EntityRelocationEntry
        requires
            old(self).wf(),
            forall|i: int, j: int|
                #![trigger old(self).entities()[i], old(self).all()[j]]
                0 <= i < old(self).entities().len() && old(self).entities()[i].1.0 <= j < old(
                    self,
                ).entities()[i].1.1 ==> call_requires(
                    func,
                    (old(self).entities()[i].0, old(self).all()[j]),
                ),
        ensures
            final(self).wf(),
            final(self).code() == old(self).code(),
            final(self).data() == old(self).data(),
            final(self).all().len() == old(self).all().len(),
            forall|i: int, j: int|
                #![trigger old(self).entities()[i], final(self).all()[j]]
                0 <= i < old(self).entities().len() && old(self).entities()[i].1.0 <= j < old(
                    self,
                ).entities()[i].1.1 ==> call_ensures(
                    func,
                    (old(self).entities()[i].0, old(self).all()[j]),
                    final(self).all()[j],
                ),
    {
        let ghost before = *self;
        let ghost spans = self.entities();
        proof {
            self.lemma_entities();
        }
        let entities = self.iter_entities();
        let mut i: usize = 0;
        while i < entities.len()
            invariant
                i <= entities@.len(),
                spans == before.entities(),
                entities@.len() == spans.len(),
                self.code_owners == before.code_owners,
                self.data_owners == before.data_owners,
                self.array@.len() == before.array@.len(),
                forall|k: int|
                    0 <= k < entities@.len() ==> (#[trigger] entities@[k]).0 == spans[k].0 && (
                        entities@[k].1.start as int,
                        entities@[k].1.end as int,
                    ) == spans[k].1,
                forall|k: int|
                    0 <= k < spans.len() ==> 0 <= (#[trigger] spans[k]).1.0 <= spans[k].1.1
                        <= before.array@.len(),
                forall|k: int, l: int|
                    #![trigger spans[k], spans[l]]
                    0 <= k < l < spans.len() ==> spans[k].1.1 <= spans[l].1.0,
                forall|k: int, j: int|
                    #![trigger spans[k], before.array@[j]]
                    0 <= k < spans.len() && spans[k].1.0 <= j < spans[k].1.1 ==> call_requires(
                        func,
                        (spans[k].0, before.array@[j]),
                    ),
                forall|k: int, j: int|
                    #![trigger spans[k], self.array@[j]]
                    0 <= k < i && spans[k].1.0 <= j < spans[k].1.1 ==> call_ensures(
                        func,
                        (spans[k].0, before.array@[j]),
                        self.array@[j],
                    ),
                forall|k: int, j: int|
                    #![trigger spans[k], self.array@[j]]
                    i <= k < spans.len() && spans[k].1.0 <= j < spans[k].1.1 ==> self.array@[j]
                        == before.array@[j],
            decreases entities@.len() - i,
        {
            let entity: EntityKind = entities[i].0;
            let start: usize = entities[i].1.start;
            let end: usize = entities[i].1.end;
            let ghost outer = self.array@;
            let mut j: usize = start;
            assert(spans[i as int].1.0 <= spans[i as int].1.1 <= before.array@.len());
            while j < end
                invariant
                    0 <= i < spans.len(),
                    entity == spans[i as int].0,
                    (start as int, end as int) == spans[i as int].1,
                    start <= j <= end <= before.array@.len(),
                    self.code_owners == before.code_owners,
                    self.data_owners == before.data_owners,
                    self.array@.len() == before.array@.len(),
                    outer.len() == self.array@.len(),
                    forall|k: int, l: int|
                        #![trigger spans[k], before.array@[l]]
                        0 <= k < spans.len() && spans[k].1.0 <= l < spans[k].1.1 ==> call_requires(
                            func,
                            (spans[k].0, before.array@[l]),
                        ),
                    forall|l: int|
                        j <= l < end ==> #[trigger] self.array@[l] == before.array@[l],
                    forall|l: int|
                        start <= l < j ==> call_ensures(
                            func,
                            (entity, before.array@[l]),
                            #[trigger] self.array@[l],
                        ),
                    forall|l: int|
                        0 <= l < outer.len() && !(start <= l < end) ==> #[trigger] self.array@[l]
                            == outer[l],
                decreases end - j,
            {
                let reloc = func(entity, self.array[j]);
                self.array.set(j, reloc);
                j = j + 1;
            }
            proof {
                assert forall|k: int, l: int|
                    #![trigger spans[k], self.array@[l]]
                    0 <= k < i + 1 && spans[k].1.0 <= l < spans[k].1.1 implies call_ensures(
                    func,
                    (spans[k].0, before.array@[l]),
                    self.array@[l],
                ) by {
                    if k < i {
                        assert(spans[k].1.1 <= spans[i as int].1.0);
                        assert(self.array@[l] == outer[l]);
                    }
                }
                assert forall|k: int, l: int|
                    #![trigger spans[k], self.array@[l]]
                    i + 1 <= k < spans.len() && spans[k].1.0 <= l < spans[k].1.1 implies self.array@[l]
                    == before.array@[l] by {
                    assert(spans[i as int].1.1 <= spans[k].1.0);
                    assert(self.array@[l] == outer[l]);
                }
            }
            i = i + 1;
        }
    }
}

/// The functions that relocations refer to by their index in a table, each once, in order.
pub open spec fn indirect_fns(relocs: Seq<EntityRelocationEntry>) -> Seq<FunctionRef>
    decreases relocs.len(),
{
    if relocs.len() == 0 {
        Seq::empty()
    } else {
        let rest = indirect_fns(relocs.drop_last());
        match indirect_fn(relocs.last()) {
            Some(function) => if rest.contains(function) {
                rest
            } else {
                rest.push(function)
            },
            None => rest,
        }
    }
}

/// The function that a relocation refers to by its index in a table.
pub open spec fn indirect_fn(reloc: EntityRelocationEntry) -> Option<FunctionRef> {
    match (reloc.symbol_id, reloc.symbol_op) {
        (EntityKind::Function(function), EntityAddressMode::RuntimeAddr) => Some(function),
        _ => None,
    }
}

impl FileRelocs {
    /// The functions that relocations refer to by their index in a table, each once, in the order
    /// of the relocations.
    pub fn list_indirect_fns(&self) -> (r: Vec<FunctionRef>)
        ensures
            r@ == indirect_fns(self.all()),
    {
        broadcast use vstd::std_specs::hash::group_hash_axioms;

        let ghost all = self.all();
        let mut seen: HashSet<u32> = HashSet::new();
        let mut result: Vec<FunctionRef> = Vec::new();
        let mut i: usize = 0;
        assert(all.take(0) =~= Seq::<EntityRelocationEntry>::empty());
        while i < self.array.len()
            invariant
                i <= all.len(),
                all == self.array@,
                result@ == indirect_fns(all.take(i as int)),
                forall|f: FunctionRef| #[trigger] result@.contains(f) <==> seen@.contains(f.id),
            decreases all.len() - i,
        {
            let reloc = &self.array[i];
            let ghost before = result@;
            proof {
                assert(all.take(i + 1).drop_last() =~= all.take(i as int));
                assert(all.take(i + 1).last() == all[i as int]);
            }
            if let EntityKind::Function(function) = reloc.symbol_id {
                if let EntityAddressMode::RuntimeAddr = reloc.symbol_op {
                    if !seen.contains(&function.id) {
                        assert(!result@.contains(function));
                        seen.insert(function.id);
                        result.push(function);
                        proof {
                            assert forall|f: FunctionRef| #[trigger]
                                result@.contains(f) <==> seen@.contains(f.id) by {
                                if before.contains(f) {
                                    let k = choose|k: int| 0 <= k < before.len() && before[k] == f;
                                    assert(result@[k] == f);
                                }
                                if f == function {
                                    assert(result@[before.len() as int] == f);
                                }
                                if result@.contains(f) {
                                    let k = choose|k: int|
                                        0 <= k < result@.len() && result@[k] == f;
                                    if k < before.len() {
                                        assert(before[k] == f);
                                    }
                                }
                            }
                        }
                    } else {
                        assert(result@.contains(function));
                    }
                }
            }
            i = i + 1;
        }
        assert(all.take(i as int) =~= all);
        result
    }
}

proof fn lemma_consecutive_order(
    ranges: Seq<(u32, RelocRange)>,
    from: int,
    to: int,
    i: int,
    j: int,
)
    requires
        consecutive(ranges, from, to),
        0 <= i < j < ranges.len(),
    ensures
        ranges[i].1.bounds().1 <= ranges[j].1.bounds().0,
    decreases j - i,
{
    if i + 1 < j {
        lemma_consecutive_order(ranges, from, to, i, j - 1);
        assert(ranges[j - 1].1.bounds().0 <= ranges[j - 1].1.bounds().1);
    }
    assert(ranges[j - 1].1.bounds().1 == ranges[j].1.bounds().0);
}

/// Whether owners can be found for relocations: the regions of functions and then those of data
/// symbols hold all relocations in order.
pub open spec fn regions_own(
    regions: (Seq<(Range<usize>, FunctionRef)>, Seq<(Range<usize>, DataSymbolRef)>),
    relocs: Seq<EntityRelocationEntry>,
) -> bool {
    let code = sorted_by(regions.0, region_key());
    let data = sorted_by(regions.1, region_key());
    let (code_slots, mid) = owned(code, relocs, 0);
    let (data_slots, end) = owned(data, relocs, mid);
    &&& regions_fit(code, relocs, 0)
    &&& regions_fit(data, relocs, mid)
    &&& owners_in_order(code_slots, data_slots, relocs.len())
}

proof fn lemma_run_end(region: Range<usize>, relocs: Seq<EntityRelocationEntry>, from: int)
    requires
        0 <= from <= relocs.len(),
    ensures
        from <= run_end(region, relocs, from) <= relocs.len(),
        forall|i: int|
            from <= i < run_end(region, relocs, from) ==> holds(region, #[trigger] relocs[i]),
    decreases relocs.len() - from,
{
    if from < relocs.len() && holds(region, relocs[from]) {
        lemma_run_end(region, relocs, from + 1);
    }
}

proof fn lemma_owned_end<U: TempIndex>(
    regions: Seq<(Range<usize>, U)>,
    relocs: Seq<EntityRelocationEntry>,
    from: int,
)
    requires
        0 <= from <= relocs.len(),
    ensures
        from <= owned(regions, relocs, from).1 <= relocs.len(),
    decreases regions.len(),
{
    if regions.len() > 0 {
        lemma_owned_end(regions.drop_last(), relocs, from);
        lemma_run_end(regions.last().0, relocs, owned(regions.drop_last(), relocs, from).1);
    }
}

/// Adds the addend of a relocation and the place of its target in an entity.
fn checked_addend_increase(addend: i64, increase: u32, symbol_type: SymbolType) -> (r: i64)
    requires
        if takes_addend(symbol_type) {
            addend + increase <= i64::MAX
        } else {
            addend == 0 && increase == 0
        },
    ensures
        r == addend + increase,
{
    match symbol_type {
        SymbolType::SectionOffset | SymbolType::FunctionOffset | SymbolType::MemoryAddr => {
            addend + increase as i64
        },
        _ => 0,
    }
}

/// Whether a region of the file holds the place of a relocation.
fn region_holds(region: &Range<usize>, reloc: &EntityRelocationEntry) -> (r: bool)
    requires
        reloc.place().1 <= usize::MAX,
    ensures
        r == holds(*region, *reloc),
{
    match cmp_range(region, &reloc.relocation_range()) {
        RangeComp::Equal | RangeComp::Overlap => true,
        _ => false,
    }
}

/// Gives each region the relocations that it holds, in order, from `start` on. Returns the first
/// relocation without an owner.
fn move_relocs<U: TempIndex>(
    map: &mut GappedMap<U, RelocRange>,
    symbol_regions: &Vec<(Range<usize>, U)>,
    start: usize,
    relocs: &Vec<EntityRelocationEntry>,
) -> (r: usize)
    requires
        old(map).wf(),
        old(map)@ == Seq::<Option<RelocRange>>::empty(),
        start <= relocs@.len(),
        regions_fit(symbol_regions@, relocs@, start as int),
        forall|i: int| 0 <= i < relocs@.len() ==> (#[trigger] relocs@[i]).place().1 <= usize::MAX,
    ensures
        final(map).wf(),
        (final(map)@, r as int) == owned(symbol_regions@, relocs@, start as int),
        start <= r <= relocs@.len(),
{
    let mut begin: usize = start;
    let mut i: usize = 0;
    assert(symbol_regions@.take(0) =~= Seq::<(Range<usize>, U)>::empty());
    while i < symbol_regions.len()
        invariant
            i <= symbol_regions@.len(),
            map.wf(),
            start <= begin <= relocs@.len(),
            (map@, begin as int) == owned(symbol_regions@.take(i as int), relocs@, start as int),
            regions_fit(symbol_regions@, relocs@, start as int),
            forall|i: int|
                0 <= i < relocs@.len() ==> (#[trigger] relocs@[i]).place().1 <= usize::MAX,
        decreases symbol_regions@.len() - i,
    {
        let region = &symbol_regions[i].0;
        let symbol = symbol_regions[i].1;
        let mut end: usize = begin;
        let ghost target = run_end(*region, relocs@, begin as int);
        proof {
            let longer = symbol_regions@.take(i + 1);
            assert(longer.drop_last() =~= symbol_regions@.take(i as int));
            assert(longer.last() == symbol_regions@[i as int]);
            lemma_run_end(*region, relocs@, begin as int);
            assert(owned(longer, relocs@, start as int).1 == target);
        }
        while end < relocs.len()
            invariant_except_break
                begin <= end <= relocs@.len(),
                target == run_end(*region, relocs@, end as int),
                0 <= target <= relocs@.len(),
                target < relocs@.len() ==> range_relation(
                    region.start as int,
                    region.end as int,
                    relocs@[target].place().0,
                    relocs@[target].place().1,
                ) is Left,
                forall|i: int|
                    0 <= i < relocs@.len() ==> (#[trigger] relocs@[i]).place().1 <= usize::MAX,
            ensures
                end == target,
            decreases relocs@.len() - end,
        {
            if !region_holds(region, &relocs[end]) {
                break;
            }
            end = end + 1;
        }
        if end != begin {
            let range = RelocRange { relocs: Range { start: begin, end } };
            let _ = map.insert(symbol, range);
            begin = end;
        }
        i = i + 1;
    }
    assert(symbol_regions@.take(i as int) =~= symbol_regions@);
    begin
}

impl FileRelocs {
    /// Resolves the symbols of relocations to their entities, and finds the owner of each
    /// relocation by the regions of the file that belong to functions and to data symbols.
    pub fn build_relocs_static(
        file_relocs: Vec<AnyRelocationEntry>,
        file_db: &FileSymbolDb,
        regions: Regions,
    ) -> (r: Self)
        requires
            forall|i: int|
                0 <= i < file_relocs@.len() ==> resolvable(
                    file_db.symbols@,
                    #[trigger] file_relocs@[i],
                ) && file_relocs@[i].place().1 <= usize::MAX,
            regions_own(
                (regions.0@, regions.1@),
                sorted_by(resolved_all(file_db.symbols@, file_relocs@), reloc_key()),
            ),
        ensures
            r.wf(),
            r.all() == sorted_by(resolved_all(file_db.symbols@, file_relocs@), reloc_key()),
            ({
                let (code, mid) = owned(sorted_by(regions.0@, region_key()), r.all(), 0);
                let (data, end) = owned(sorted_by(regions.1@, region_key()), r.all(), mid);
                r.code() == code && r.data() == data
            }),
    {
        let ghost symbols = file_db.symbols@;
        let mut array: Vec<EntityRelocationEntry> = Vec::new();
        let mut i: usize = 0;
        while i < file_relocs.len()
            invariant
                i <= file_relocs@.len(),
                symbols == file_db.symbols@,
                array@.len() == i,
                forall|i: int|
                    0 <= i < file_relocs@.len() ==> resolvable(symbols, #[trigger] file_relocs@[i])
                        && file_relocs@[i].place().1 <= usize::MAX,
                forall|j: int|
                    0 <= j < i ==> #[trigger] array@[j] == resolved(symbols, file_relocs@[j])
                        && array@[j].place().1 <= usize::MAX,
            decreases file_relocs@.len() - i,
        {
            assert(resolvable(symbols, file_relocs@[i as int]));
            let entry = match file_relocs[i] {
                AnyRelocationEntry::Linkage(l) => {
                    let target = file_db.symbols.at(l.symbol_id);
                    RelocationEntry {
                        symbol_id: target.entity,
                        symbol_op: EntityAddressMode::from_llvm_relocs(target.entity, l.symbol_op),
                        offset: l.offset,
                        encoding: l.encoding,
                        width: l.width,
                        relation: l.relation,
                        addend: checked_addend_increase(
                            l.addend,
                            target.offset_in_entity,
                            l.symbol_op,
                        ),
                    }
                },
                AnyRelocationEntry::Type(t) => RelocationEntry {
                    offset: t.offset,
                    symbol_id: EntityKind::Type(t.index),
                    symbol_op: EntityAddressMode::StaticIndex,
                    encoding: Encoding::Leb,
                    width: RelocationWidth::Bits32,
                    relation: Relative::Absolute,
                    addend: 0,
                },
            };
            array.push(entry);
            i = i + 1;
        }
        assert(array@ =~= resolved_all(symbols, file_relocs@));
        proof {
            let good = |e: EntityRelocationEntry| e.place().1 <= usize::MAX;
            lemma_sorted_all(array@, reloc_key(), good);
            lemma_sorted(array@, reloc_key());
            let sorted = sorted_by(array@, reloc_key());
            assert forall|i: int| 0 <= i < sorted.len() implies (#[trigger] sorted[i]).place().1
                <= usize::MAX by {
                assert(good(sorted[i]));
            }
        }
        let key = |e: &EntityRelocationEntry| -> (k: u64)
            ensures
                k == e.offset,
            { e.offset as u64 };
        let array = sort_by_key(array, key, Ghost(reloc_key()));
        let (code_owners, data_owners) = Self::build_owners(&array, regions);
        FileRelocs { array, code_owners, data_owners }
    }

    /// Finds the owner of each relocation.
    fn build_owners(relocs: &Vec<EntityRelocationEntry>, regions: Regions) -> (r: (
        GappedMap<FunctionRef, RelocRange>,
        GappedMap<DataSymbolRef, RelocRange>,
    ))
        requires
            regions_own((regions.0@, regions.1@), relocs@),
            forall|i: int|
                0 <= i < relocs@.len() ==> (#[trigger] relocs@[i]).place().1 <= usize::MAX,
        ensures
            r.0.wf(),
            r.1.wf(),
            ({
                let (code, mid) = owned(sorted_by(regions.0@, region_key()), relocs@, 0);
                let (data, end) = owned(sorted_by(regions.1@, region_key()), relocs@, mid);
                r.0@ == code && r.1@ == data
            }),
    {
        let code_key = |r: &(Range<usize>, FunctionRef)| -> (k: u64)
            ensures
                k == r.0.start,
            { r.0.start as u64 };
        let code_regions = sort_by_key(regions.0, code_key, Ghost(region_key()));
        let data_key = |r: &(Range<usize>, DataSymbolRef)| -> (k: u64)
            ensures
                k == r.0.start,
            { r.0.start as u64 };
        let data_regions = sort_by_key(regions.1, data_key, Ghost(region_key()));
        let mut code_owners = GappedMap::new();
        let mut data_owners = GappedMap::new();
        let mid: usize = move_relocs(&mut code_owners, &code_regions, 0, relocs);
        let _ = move_relocs(&mut data_owners, &data_regions, mid, relocs);
        (code_owners, data_owners)
    }
}

/// The relocations of the two sections are all relocations, in order.
pub proof fn lemma_sections_cover(relocs: FileRelocs)
    requires
        relocs.wf(),
    ensures
        relocs.all().take(relocs.code_len()) + relocs.all().skip(relocs.code_len())
            == relocs.all(),
        0 <= relocs.code_len() <= relocs.all().len(),
{
    assert(relocs.all().take(relocs.code_len()) + relocs.all().skip(relocs.code_len())
        =~= relocs.all());
}

/// Every relocation is in the relocations of exactly one entity.
pub proof fn lemma_one_owner(relocs: FileRelocs, i: int) -> (owner: int)
    requires
        relocs.wf(),
        0 <= i < relocs.all().len(),
    ensures
        0 <= owner < relocs.entities().len(),
        relocs.entities()[owner].1.0 <= i < relocs.entities()[owner].1.1,
        forall|j: int|
            0 <= j < relocs.entities().len() && j != owner ==> !((
            #[trigger] relocs.entities()[j]).1.0 <= i < relocs.entities()[j].1.1),
{
    relocs.lemma_entities();
    let code = entries(relocs.code());
    let data = entries(relocs.data());
    let mid = relocs.code_len();
    let owner = if i < mid {
        let k = lemma_covered(code, 0, mid, i);
        assert(relocs.entities()[k].1 == code[k].1.bounds());
        k
    } else {
        let k = lemma_covered(data, mid, relocs.all().len() as int, i);
        assert(relocs.entities()[code.len() + k].1 == data[k].1.bounds());
        code.len() + k
    };
    assert forall|j: int| 0 <= j < relocs.entities().len() && j != owner implies !((
    #[trigger] relocs.entities()[j]).1.0 <= i < relocs.entities()[j].1.1) by {
        if j < owner {
            assert(relocs.entities()[j].1.1 <= relocs.entities()[owner].1.0);
        } else {
            assert(relocs.entities()[owner].1.1 <= relocs.entities()[j].1.0);
        }
    }
    owner
}

/// A relocation before the end of those in functions is in a function.
pub(crate) proof fn lemma_code_owner(relocs: FileRelocs, i: int) -> (owner: int)
    requires
        relocs.wf(),
        0 <= i < relocs.code_len(),
    ensures
        0 <= owner < relocs.entities().len(),
        relocs.entities()[owner].1.0 <= i < relocs.entities()[owner].1.1,
        relocs.entities()[owner].0 is Function,
{
    let code = entries(relocs.code());
    let k = lemma_covered(code, 0, relocs.code_len(), i);
    assert(relocs.entities()[k].1 == code[k].1.bounds());
    k
}

/// A relocation behind those in functions is in a data symbol.
pub(crate) proof fn lemma_data_owner(relocs: FileRelocs, i: int) -> (owner: int)
    requires
        relocs.wf(),
        relocs.code_len() <= i < relocs.all().len(),
    ensures
        0 <= owner < relocs.entities().len(),
        relocs.entities()[owner].1.0 <= i < relocs.entities()[owner].1.1,
        relocs.entities()[owner].0 is DataSymbol,
{
    let code = entries(relocs.code());
    let data = entries(relocs.data());
    let k = lemma_covered(data, relocs.code_len(), relocs.all().len() as int, i);
    assert(relocs.entities()[code.len() + k].1 == data[k].1.bounds());
    code.len() + k
}

proof fn lemma_covered(ranges: Seq<(u32, RelocRange)>, from: int, to: int, i: int) -> (k: int)
    requires
        consecutive(ranges, from, to),
        from <= i < to,
    ensures
        0 <= k < ranges.len(),
        ranges[k].1.bounds().0 <= i < ranges[k].1.bounds().1,
    decreases ranges.len(),
{
    if i >= ranges.last().1.bounds().0 {
        ranges.len() - 1
    } else {
        let init = ranges.drop_last();
        let mid = ranges.last().1.bounds().0;
        if init.len() > 0 {
            assert(ranges[ranges.len() - 2].1.bounds().1 == ranges[ranges.len() - 1].1.bounds().0);
            lemma_consecutive_bounds(ranges, from, to, ranges.len() - 1);
            assert forall|j: int| 0 <= j < init.len() implies (#[trigger] init[j]).1.bounds().0
                <= init[j].1.bounds().1 by {
                assert(ranges[j].1.bounds().0 <= ranges[j].1.bounds().1);
            }
            assert forall|j: int| 0 < j < init.len() implies init[j - 1].1.bounds().1 == (
            #[trigger] init[j]).1.bounds().0 by {
                assert(ranges[j - 1].1.bounds().1 == ranges[j].1.bounds().0);
            }
        }
        lemma_covered(init, from, mid, i)
    }
}

pub(crate) proof fn lemma_entries_of_later_key<V>(slots: Seq<Option<V>>, key: nat, value: V)
    requires
        slots.len() <= key,
        key < u32::MAX,
    ensures
        entries(grown(slots, key).update(key as int, Some(value))) == entries(slots).push(
            (key as u32, value),
        ),
{
    let longer = grown(slots, key).update(key as int, Some(value));
    let empty = Seq::new((key - slots.len()) as nat, |i: int| None::<V>);
    assert(longer.drop_last() =~= slots + empty);
    lemma_entries_append_empty(slots, (key - slots.len()) as nat);
}

proof fn lemma_entries_append_empty<V>(slots: Seq<Option<V>>, n: nat)
    ensures
        entries(slots + Seq::new(n, |i: int| None::<V>)) == entries(slots),
    decreases n,
{
    let all = slots + Seq::new(n, |i: int| None::<V>);
    if n == 0 {
        assert(all =~= slots);
    } else {
        lemma_entries_append_empty(slots, (n - 1) as nat);
        assert(all.drop_last() =~= slots + Seq::new((n - 1) as nat, |i: int| None::<V>));
    }
}

/// Regions in the order of their symbols own their relocations in order, without gaps.
pub proof fn lemma_ordered_regions_own_in_order<U: TempIndex>(
    regions: Seq<(Range<usize>, U)>,
    relocs: Seq<EntityRelocationEntry>,
    from: int,
)
    requires
        0 <= from <= relocs.len() <= usize::MAX,
        forall|i: int| 0 <= i < regions.len() ==> (#[trigger] regions[i]).1.id() < u32::MAX,
        forall|i: int, j: int|
            #![trigger regions[i], regions[j]]
            0 <= i < j < regions.len() ==> regions[i].1.id() < regions[j].1.id(),
    ensures
        consecutive(
            entries(owned(regions, relocs, from).0),
            from,
            owned(regions, relocs, from).1,
        ),
        from <= owned(regions, relocs, from).1 <= relocs.len(),
        regions.len() == 0 ==> owned(regions, relocs, from).0.len() == 0,
        regions.len() > 0 ==> owned(regions, relocs, from).0.len() <= regions.last().1.id() + 1,
    decreases regions.len(),
{
    lemma_owned_end(regions, relocs, from);
    if regions.len() > 0 {
        let init = regions.drop_last();
        lemma_ordered_regions_own_in_order(init, relocs, from);
        let (slots, start) = owned(init, relocs, from);
        let (region, symbol) = regions.last();
        let end = run_end(region, relocs, start);
        lemma_run_end(region, relocs, start);
        if init.len() > 0 {
            assert(regions[regions.len() - 2].1.id() < regions[regions.len() - 1].1.id());
        }
        if end != start {
            let range = RelocRange { relocs: Range { start: start as usize, end: end as usize } };
            let ranges = entries(slots);
            lemma_entries_of_later_key(slots, symbol.id() as nat, range);
            let longer = ranges.push((symbol.id(), range));
            assert forall|i: int| 0 < i < longer.len() implies longer[i - 1].1.bounds().1 == (
            #[trigger] longer[i]).1.bounds().0 by {
                if i < ranges.len() {
                    assert(ranges[i - 1].1.bounds().1 == ranges[i].1.bounds().0);
                }
            }
            assert forall|i: int| 0 <= i < longer.len() implies (
            #[trigger] longer[i]).1.bounds().0 <= longer[i].1.bounds().1 by {
                if i < ranges.len() {
                    assert(ranges[i].1.bounds().0 <= ranges[i].1.bounds().1);
                }
            }
        }
    }
}

} // verus!
