//! Linking metadata: relocations, symbols and their owners.
pub mod file_db;
pub mod laws;
pub mod name_resolver;
pub mod regions;
pub mod reloc;

use crate::index::{PrimaryMap, TempIndex};
use crate::layouts::data::DataSymbolRef;
use crate::layouts::SegmentId;
use crate::linkage::file_db::{FileSymbolDb, SymbolOffset};
use crate::linkage::reloc::{decomposed, encoded_size, AnyRelocationEntry, RawRelocationEntry};
use crate::raw::{DefinedDataSymbol, ObjectReader, SymbolInfo};
use crate::sorting::{lemma_sorted, lemma_sorted_all, lemma_sorted_distinct, sort_by_key, sorted_by};
use crate::typed::{EntityKind, FunctionRef, GlobalRef, SymbolId, TableRef, TagRef};
use core::ops::Range;
use vstd::prelude::*;

verus! {

/// A defined data symbol.
#[derive(Debug, PartialEq, Eq)]
pub struct DataDefined {
    pub segment_id: SegmentId,
    pub name: String,
    /// The bytes of the data segment that belong to the symbol.
    pub range: Range<u32>,
}

impl DataDefined {
    pub open spec fn of(value: DefinedDataSymbol, name: String) -> DataDefined {
        DataDefined {
            segment_id: SegmentId { id: value.index },
            name,
            range: Range { start: value.offset, end: (value.offset + value.size) as u32 },
        }
    }

    pub fn from_defined(value: &DefinedDataSymbol, name: String) -> (r: Self)
        requires
            value.offset + value.size <= u32::MAX,
            value.index < u32::MAX,
        ensures
            r == DataDefined::of(*value, name),
    {
        DataDefined {
            segment_id: SegmentId::from_u32(value.index),
            range: Range { start: value.offset, end: value.offset + value.size },
            name,
        }
    }
}

/// What the symbol table of a file says.
#[derive(Debug)]
pub struct LinkageInfo {
    pub file_symbol_db: FileSymbolDb,
    /// The defined data symbols in order of their places, with their indices.
    pub defined_data_symbols: Vec<(SymbolId, DataDefined, DataSymbolRef)>,
}

/// Whether a symbol stands for an entity: undefined data symbols and sections do not.
pub open spec fn supported(symbol: SymbolInfo) -> bool {
    match symbol {
        SymbolInfo::Section { .. } => false,
        SymbolInfo::Data { symbol, .. } => symbol is Some,
        _ => true,
    }
}

/// Whether the numbers of a symbol are in range.
pub open spec fn symbol_in_range(symbol: SymbolInfo) -> bool {
    match symbol {
        SymbolInfo::Func { index, .. } => index < u32::MAX,
        SymbolInfo::Global { index, .. } => index < u32::MAX,
        SymbolInfo::Event { index, .. } => index < u32::MAX,
        SymbolInfo::Table { index, .. } => index < u32::MAX,
        SymbolInfo::Data { symbol: Some(d), .. } => d.index < u32::MAX && d.offset + d.size
            <= u32::MAX,
        _ => true,
    }
}

/// The entity of a symbol that is no data symbol.
pub open spec fn indexed_entity(symbol: SymbolInfo) -> EntityKind {
    match symbol {
        SymbolInfo::Func { index, .. } => EntityKind::Function(FunctionRef { id: index }),
        SymbolInfo::Event { index, .. } => EntityKind::Tag(TagRef { id: index }),
        SymbolInfo::Global { index, .. } => EntityKind::Global(GlobalRef { id: index }),
        SymbolInfo::Table { index, .. } => EntityKind::Table(TableRef { id: index }),
        _ => arbitrary(),
    }
}

/// The defined data symbols of a symbol table, in its order.
pub open spec fn defined_data(symbols: Seq<SymbolInfo>) -> Seq<(SymbolId, DataDefined)>
    decreases symbols.len(),
{
    if symbols.len() == 0 {
        Seq::empty()
    } else {
        let rest = defined_data(symbols.drop_last());
        match symbols.last() {
            SymbolInfo::Data { name, symbol: Some(d), .. } => rest.push(
                (SymbolId { id: (symbols.len() - 1) as u32 }, DataDefined::of(d, name)),
            ),
            _ => rest,
        }
    }
}

/// The key by which data symbols are ordered: their segment, then their place in it.
pub open spec fn data_key() -> spec_fn((SymbolId, DataDefined)) -> int {
    |d: (SymbolId, DataDefined)| d.1.segment_id.id * 0x1_0000_0000 + d.1.range.start
}

/// The defined data symbols of a symbol table, in order of their places.
pub open spec fn ordered_data(symbols: Seq<SymbolInfo>) -> Seq<(SymbolId, DataDefined)> {
    sorted_by(defined_data(symbols), data_key())
}

pub(crate) proof fn lemma_defined_data(symbols: Seq<SymbolInfo>)
    requires
        symbols.len() <= u32::MAX,
    ensures
        defined_data(symbols).len() <= symbols.len(),
        forall|i: int|
            0 <= i < defined_data(symbols).len() ==> {
                let symbol = (#[trigger] defined_data(symbols)[i]).0.id;
                &&& symbol < symbols.len()
                &&& symbols[symbol as int] matches SymbolInfo::Data { name, symbol: Some(d), .. }
                    && defined_data(symbols)[i].1 == DataDefined::of(d, name)
            },
        forall|i: int, j: int|
            #![trigger defined_data(symbols)[i], defined_data(symbols)[j]]
            0 <= i < j < defined_data(symbols).len() ==> defined_data(symbols)[i].0.id
                < defined_data(symbols)[j].0.id,
    decreases symbols.len(),
{
    if symbols.len() > 0 {
        lemma_defined_data(symbols.drop_last());
    }
}

impl LinkageInfo {
    /// Reads a symbol table. The symbols that stand for entities have to come first.
    ///
    /// Data symbols get their indices in order of their places.
    pub fn from_reader(reader: &ObjectReader) -> (r: Self)
        requires
            reader.linking_symbols@.len() < u32::MAX,
            forall|i: int|
                0 <= i < reader.linking_symbols@.len() ==> symbol_in_range(
                    #[trigger] reader.linking_symbols@[i],
                ),
            forall|i: int, j: int|
                #![trigger reader.linking_symbols@[i], reader.linking_symbols@[j]]
                0 <= i < j < reader.linking_symbols@.len() && supported(reader.linking_symbols@[j])
                    ==> supported(reader.linking_symbols@[i]),
        ensures
            ({
                let infos = reader.linking_symbols@;
                let symbols = r.file_symbol_db.symbols@;
                let ordered = ordered_data(infos);
                &&& symbols.len() <= infos.len()
                &&& forall|i: int|
                    0 <= i < infos.len() ==> (i < symbols.len() <==> supported(#[trigger] infos[i]))
                &&& forall|i: int|
                    0 <= i < symbols.len() && !(infos[i] is Data) ==> #[trigger] symbols[i] == (
                    SymbolOffset {
                        entity: indexed_entity(infos[i]),
                        offset_in_entity: 0,
                        used_definition: true,
                    })
                &&& r.defined_data_symbols@.len() == ordered.len()
                &&& forall|j: int|
                    0 <= j < ordered.len() ==> {
                        let (symbol, defined, data_ref) = #[trigger] r.defined_data_symbols@[j];
                        &&& (symbol, defined) == ordered[j]
                        &&& data_ref == (DataSymbolRef { id: j as u32 })
                        &&& symbol.id < symbols.len()
                        &&& symbols[symbol.id as int] == (SymbolOffset {
                            entity: EntityKind::DataSymbol(data_ref),
                            offset_in_entity: 0,
                            used_definition: true,
                        })
                    }
            }),
    {
        let ghost infos = reader.linking_symbols@;
        let mut symbols: PrimaryMap<SymbolId, SymbolOffset> = PrimaryMap::new();
        let mut defined: Vec<(SymbolId, DataDefined)> = Vec::new();
        let mut i: usize = 0;
        proof {
            assert(infos.take(0) =~= Seq::<SymbolInfo>::empty());
        }
        while i < reader.linking_symbols.len()
            invariant
                i <= infos.len() < u32::MAX,
                infos == reader.linking_symbols@,
                symbols@.len() <= i,
                defined@ == defined_data(infos.take(i as int)),
                forall|i: int| 0 <= i < infos.len() ==> symbol_in_range(#[trigger] infos[i]),
                forall|i: int, j: int|
                    #![trigger infos[i], infos[j]]
                    0 <= i < j < infos.len() && supported(infos[j]) ==> supported(infos[i]),
                forall|j: int|
                    0 <= j < i ==> (j < symbols@.len() <==> supported(#[trigger] infos[j])),
                forall|j: int|
                    0 <= j < symbols@.len() ==> (#[trigger] symbols@[j]).offset_in_entity == 0
                        && symbols@[j].used_definition && (!(infos[j] is Data)
                        ==> symbols@[j].entity == indexed_entity(infos[j])),
            decreases infos.len() - i,
        {
            proof {
                assert(infos.take(i + 1).drop_last() =~= infos.take(i as int));
                assert(infos.take(i + 1).last() == infos[i as int]);
                assert(symbol_in_range(infos[i as int]));
                if supported(infos[i as int]) && symbols@.len() < i {
                    assert(supported(infos[symbols@.len() as int]));
                }
            }
            match &reader.linking_symbols[i] {
                SymbolInfo::Func { index, .. } => {
                    let entity = EntityKind::Function(FunctionRef::from_u32(*index));
                    let _ = symbols.push(SymbolOffset::new(entity));
                },
                SymbolInfo::Event { index, .. } => {
                    let entity = EntityKind::Tag(TagRef::from_u32(*index));
                    let _ = symbols.push(SymbolOffset::new(entity));
                },
                SymbolInfo::Global { index, .. } => {
                    let entity = EntityKind::Global(GlobalRef::from_u32(*index));
                    let _ = symbols.push(SymbolOffset::new(entity));
                },
                SymbolInfo::Table { index, .. } => {
                    let entity = EntityKind::Table(TableRef::from_u32(*index));
                    let _ = symbols.push(SymbolOffset::new(entity));
                },
                SymbolInfo::Data { name, symbol: Some(place), .. } => {
                    // the index is set below, when the order of the data symbols is known
                    let entity = EntityKind::DataSymbol(DataSymbolRef::reserved());
                    let symbol_id = symbols.push(SymbolOffset::new(entity));
                    defined.push((symbol_id, DataDefined::from_defined(place, name.clone())));
                },
                _ => {},
            }
            i = i + 1;
        }
        proof {
            assert(infos.take(i as int) =~= infos);
            lemma_defined_data(infos);
            lemma_sorted(defined@, data_key());
            lemma_sorted_distinct(defined@, data_key(), |d: (SymbolId, DataDefined)| d.0.id as int);
            let good = |d: (SymbolId, DataDefined)|
                d.0.id < infos.len() && infos[d.0.id as int] is Data && supported(
                    infos[d.0.id as int],
                );
            lemma_sorted_all(defined@, data_key(), good);
            assert forall|j: int| 0 <= j < ordered_data(infos).len() implies (
            #[trigger] ordered_data(infos)[j]).0.id < symbols@.len()
                && infos[ordered_data(infos)[j].0.id as int] is Data by {
                assert(good(ordered_data(infos)[j]));
            }
        }
        let key = |d: &(SymbolId, DataDefined)| -> (k: u64)
            ensures
                k == d.1.segment_id.id * 0x1_0000_0000 + d.1.range.start,
            { d.1.segment_id.as_u32() as u64 * 0x1_0000_0000 + d.1.range.start as u64 };
        let ordered = sort_by_key(defined, key, Ghost(data_key()));
        let ghost all = ordered@;
        let mut defined_data_symbols: Vec<(SymbolId, DataDefined, DataSymbolRef)> = Vec::new();
        for item in it: ordered
            invariant
                it.seq() == all,
                all.len() <= infos.len() < u32::MAX,
                defined_data_symbols@.len() == it.index(),
                symbols@.len() <= infos.len(),
                forall|j: int|
                    0 <= j < all.len() ==> (#[trigger] all[j]).0.id < symbols@.len()
                        && infos[all[j].0.id as int] is Data,
                forall|j: int, k: int|
                    #![trigger all[j], all[k]]
                    0 <= j < k < all.len() ==> all[j].0.id as int != all[k].0.id as int,
                forall|j: int|
                    0 <= j < infos.len() ==> (j < symbols@.len() <==> supported(
                        #[trigger] infos[j],
                    )),
                forall|j: int|
                    0 <= j < symbols@.len() ==> (#[trigger] symbols@[j]).offset_in_entity == 0
                        && symbols@[j].used_definition && (!(infos[j] is Data)
                        ==> symbols@[j].entity == indexed_entity(infos[j])),
                forall|j: int|
                    0 <= j < it.index() ==> {
                        let (symbol, defined, data_ref) = #[trigger] defined_data_symbols@[j];
                        &&& (symbol, defined) == all[j]
                        &&& data_ref == (DataSymbolRef { id: j as u32 })
                        &&& symbols@[symbol.id as int].entity == EntityKind::DataSymbol(data_ref)
                    },
        {
            let (symbol_id, data) = item;
            let data_ref = DataSymbolRef::new(defined_data_symbols.len());
            proof {
                assert(all[it.index() as int] == (symbol_id, data));
                assert forall|j: int| 0 <= j < it.index() implies (
                #[trigger] defined_data_symbols@[j]).0.id != symbol_id.id by {
                    assert(all[j].0.id as int != all[it.index() as int].0.id as int);
                }
            }
            symbols.at_mut(symbol_id).entity = EntityKind::DataSymbol(data_ref);
            defined_data_symbols.push((symbol_id, data, data_ref));
        }
        LinkageInfo { file_symbol_db: FileSymbolDb { symbols }, defined_data_symbols }
    }

    /// The relocations of the code section and then those of the data section, with offsets
    /// relative to the start of the file. Relocations in code must be in order and must not
    /// overlap.
    pub fn collect_ordered_relocs(input: &ObjectReader) -> (r: Vec<AnyRelocationEntry>)
        requires
            input.code_start <= isize::MAX,
            input.data_start <= isize::MAX,
            forall|i: int|
                0 <= i < input.code_relocs@.len() ==> raw_in_range(
                    #[trigger] input.code_relocs@[i],
                    input.code_start as int,
                ),
            forall|i: int|
                0 <= i < input.data_relocs@.len() ==> raw_in_range(
                    #[trigger] input.data_relocs@[i],
                    input.data_start as int,
                ),
            forall|i: int|
                0 < i < input.code_relocs@.len() ==> raw_end(input.code_relocs@[i - 1]) <= (
                #[trigger] input.code_relocs@[i]).offset,
        ensures
            r@.len() == input.code_relocs@.len() + input.data_relocs@.len(),
            forall|i: int|
                0 <= i < input.code_relocs@.len() ==> is_raw(
                    #[trigger] r@[i],
                    input.code_relocs@[i],
                    input.code_start as int,
                ),
            forall|i: int|
                input.code_relocs@.len() <= i < r@.len() ==> is_raw(
                    #[trigger] r@[i],
                    input.data_relocs@[i - input.code_relocs@.len()],
                    input.data_start as int,
                ),
    {
        let mut result: Vec<AnyRelocationEntry> = Vec::new();
        let mut i: usize = 0;
        while i < input.code_relocs.len()
            invariant
                i <= input.code_relocs@.len(),
                result@.len() == i,
                input.code_start <= isize::MAX,
                forall|j: int|
                    0 <= j < input.code_relocs@.len() ==> raw_in_range(
                        #[trigger] input.code_relocs@[j],
                        input.code_start as int,
                    ),
                forall|j: int|
                    0 <= j < i ==> is_raw(
                        #[trigger] result@[j],
                        input.code_relocs@[j],
                        input.code_start as int,
                    ),
            decreases input.code_relocs@.len() - i,
        {
            assert(raw_in_range(input.code_relocs@[i as int], input.code_start as int));
            let entry = AnyRelocationEntry::from_raw(
                input.code_relocs[i],
                input.code_start as isize,
            );
            result.push(entry);
            i = i + 1;
        }
        let mut i: usize = 0;
        while i < input.data_relocs.len()
            invariant
                i <= input.data_relocs@.len(),
                result@.len() == input.code_relocs@.len() + i,
                input.data_start <= isize::MAX,
                forall|j: int|
                    0 <= j < input.data_relocs@.len() ==> raw_in_range(
                        #[trigger] input.data_relocs@[j],
                        input.data_start as int,
                    ),
                forall|j: int|
                    0 <= j < input.code_relocs@.len() ==> is_raw(
                        #[trigger] result@[j],
                        input.code_relocs@[j],
                        input.code_start as int,
                    ),
                forall|j: int|
                    input.code_relocs@.len() <= j < result@.len() ==> is_raw(
                        #[trigger] result@[j],
                        input.data_relocs@[j - input.code_relocs@.len()],
                        input.data_start as int,
                    ),
            decreases input.data_relocs@.len() - i,
        {
            assert(raw_in_range(input.data_relocs@[i as int], input.data_start as int));
            let entry = AnyRelocationEntry::from_raw(
                input.data_relocs[i],
                input.data_start as isize,
            );
            result.push(entry);
            i = i + 1;
        }
        result
    }
}

/// Whether a stored relocation can be taken apart.
pub open spec fn raw_in_range(raw: RawRelocationEntry, start: int) -> bool {
    raw.offset + start <= u32::MAX && raw.index < u32::MAX
}

/// The byte behind the place of a stored relocation.
pub open spec fn raw_end(raw: RawRelocationEntry) -> int {
    raw.offset + encoded_size(decomposed(raw.ty).1, decomposed(raw.ty).3)
}

/// Whether `entry` is what a stored relocation says, with `start` added to its offset.
pub open spec fn is_raw(entry: AnyRelocationEntry, raw: RawRelocationEntry, start: int) -> bool {
    entry.is_raw(raw, start)
}

/// The end of a stored relocation is that of the entry that is made of it.
pub proof fn lemma_raw_end(entry: AnyRelocationEntry, raw: RawRelocationEntry, start: int)
    requires
        is_raw(entry, raw, start),
    ensures
        raw_end(raw) + start == entry.place().1,
        entry.place().0 == raw.offset + start,
{
}

} // verus!
