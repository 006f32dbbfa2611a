//! What relocations mean once their symbols are known, and where they belong.
use crate::index::{slot_at, TempIndex};
use crate::linkage::file_db::{
    indirect_fn, indirect_fns, owned, resolvable, resolved, run_end, RelocRange, SymbolOffset,
};
use crate::linkage::reloc::{
    AnyRelocationEntry, EntityAddressMode, EntityRelocationEntry, LinkageRelocationEntry,
};
use crate::linkage::{
    data_key, defined_data, indexed_entity, lemma_defined_data, ordered_data, supported,
    symbol_in_range, DataDefined, SymbolInfo,
};
use crate::sorting::{lemma_sorted, lemma_sorted_all, lemma_sorted_multiset};
use crate::typed::{EntityKind, FunctionRef, SymbolId};
use core::ops::Range;
use vstd::prelude::*;

verus! {

/// A relocation of a symbol is one of the entity of the symbol, at the same bytes and in the same
/// encoding, for the same address, wherever the entity is.
pub proof fn lemma_resolved_relocation(
    symbols: Seq<SymbolOffset>,
    entry: LinkageRelocationEntry,
    address: int,
)
    requires
        resolvable(symbols, AnyRelocationEntry::Linkage(entry)),
        -0x8000_0000_0000_0000 <= entry.addend,
    ensures
        ({
            let symbol = symbols[entry.symbol_id.id() as int];
            let reloc = resolved(symbols, AnyRelocationEntry::Linkage(entry));
            &&& reloc.symbol_id == symbol.entity
            &&& address + reloc.addend == (address + symbol.offset_in_entity) + entry.addend
            &&& reloc.place() == AnyRelocationEntry::Linkage(entry).place()
            &&& reloc.encoding == entry.encoding
            &&& reloc.width == entry.width
            &&& reloc.relation == entry.relation
            &&& EntityAddressMode::of(symbol.entity, entry.symbol_op) == Some(reloc.symbol_op)
        }),
{
}

/// The number of an entity is written as it is: only addresses are moved.
pub proof fn lemma_numbers_are_not_moved(
    symbols: Seq<SymbolOffset>,
    entry: LinkageRelocationEntry,
)
    requires
        resolvable(symbols, AnyRelocationEntry::Linkage(entry)),
        entry.symbol_op is FunctionIndex || entry.symbol_op is TableIndex || entry.symbol_op
            is GlobalIndex || entry.symbol_op is TableNumber || entry.symbol_op is EventIndex,
    ensures
        resolved(symbols, AnyRelocationEntry::Linkage(entry)).addend == 0,
        entry.addend == 0,
{
}

/// A relocation of a type is one of that type, at the same bytes.
pub proof fn lemma_resolved_type(symbols: Seq<SymbolOffset>, entry: AnyRelocationEntry)
    requires
        entry is Type,
    ensures
        ({
            let reloc = resolved(symbols, entry);
            &&& reloc.symbol_id == EntityKind::Type(entry->Type_0.index)
            &&& reloc.addend == 0
            &&& reloc.place() == entry.place()
        }),
{
}

/// Whether all relocations of a range lie in a region of the file.
pub open spec fn lie_in(
    relocs: Seq<EntityRelocationEntry>,
    range: RelocRange,
    region: Range<usize>,
) -> bool {
    forall|i: int|
        range.bounds().0 <= i < range.bounds().1 ==> region.start <= (
        #[trigger] relocs[i]).place().0 && relocs[i].place().1 <= region.end
}

proof fn lemma_run(region: Range<usize>, relocs: Seq<EntityRelocationEntry>, from: int)
    requires
        0 <= from <= relocs.len(),
    ensures
        from <= run_end(region, relocs, from) <= relocs.len(),
        forall|i: int|
            from <= i < run_end(region, relocs, from) ==> region.start <= (
            #[trigger] relocs[i]).place().0 && relocs[i].place().1 <= region.end,
    decreases relocs.len() - from,
{
    if from < relocs.len() {
        lemma_run(region, relocs, from + 1);
    }
}

proof fn lemma_owned_bounds<U: TempIndex>(
    regions: Seq<(Range<usize>, U)>,
    relocs: Seq<EntityRelocationEntry>,
    from: int,
)
    requires
        0 <= from <= relocs.len(),
    ensures
        from <= owned(regions, relocs, from).1 <= relocs.len(),
    decreases regions.len(),
{
    if regions.len() > 0 {
        lemma_owned_bounds(regions.drop_last(), relocs, from);
        lemma_run(regions.last().0, relocs, owned(regions.drop_last(), relocs, from).1);
    }
}

/// The relocations that belong to an entity lie in its region of the file. Entities without a
/// region have none.
pub proof fn lemma_owners_hold_their_relocations<U: TempIndex>(
    regions: Seq<(Range<usize>, U)>,
    relocs: Seq<EntityRelocationEntry>,
    from: int,
    key: nat,
)
    requires
        0 <= from <= relocs.len() <= usize::MAX,
    ensures
        slot_at(owned(regions, relocs, from).0, key) matches Some(range) ==> {
            &&& from <= range.bounds().0 < range.bounds().1 <= owned(regions, relocs, from).1
            &&& exists|r: int|
                0 <= r < regions.len() && (#[trigger] regions[r]).1.id() == key && lie_in(
                    relocs,
                    range,
                    regions[r].0,
                )
        },
    decreases regions.len(),
{
    if regions.len() > 0 {
        let init = regions.drop_last();
        let n = regions.len() - 1;
        let (slots, start) = owned(init, relocs, from);
        lemma_owners_hold_their_relocations(init, relocs, from, key);
        lemma_owned_bounds(init, relocs, from);
        lemma_run(regions[n].0, relocs, start);
        let end = run_end(regions[n].0, relocs, start);
        if let Some(range) = slot_at(owned(regions, relocs, from).0, key) {
            if end > start && regions[n].1.id() == key {
                assert(range.bounds() == (start, end));
                assert(lie_in(relocs, range, regions[n].0));
            } else {
                assert(slot_at(slots, key) == Some(range));
                let r = choose|r: int|
                    0 <= r < init.len() && (#[trigger] init[r]).1.id() == key && lie_in(
                        relocs,
                        range,
                        init[r].0,
                    );
                assert(regions[r] == init[r]);
            }
        }
    }
}

/// A symbol stands for the entity of its kind with its number.
pub proof fn lemma_symbols_stand_for_entities(symbol: SymbolInfo)
    requires
        supported(symbol),
        symbol !is Data,
    ensures
        ({
            let entity = indexed_entity(symbol);
            match symbol {
                SymbolInfo::Func { index, .. } => entity is Function && entity.inner_id() == index,
                SymbolInfo::Global { index, .. } => entity is Global && entity.inner_id() == index,
                SymbolInfo::Table { index, .. } => entity is Table && entity.inner_id() == index,
                SymbolInfo::Event { index, .. } => entity is Tag && entity.inner_id() == index,
                _ => false,
            }
        }),
{
}

/// Data symbols are numbered in the order of their segments, and those of a segment in the order of
/// their places. Each is one of the symbol table, with its place and its name.
pub proof fn lemma_data_symbols_are_ordered(symbols: Seq<SymbolInfo>, i: int)
    requires
        symbols.len() < u32::MAX,
        forall|k: int| 0 <= k < symbols.len() ==> symbol_in_range(#[trigger] symbols[k]),
        0 <= i < ordered_data(symbols).len(),
    ensures
        ({
            let (id, data) = ordered_data(symbols)[i];
            &&& id.id() < symbols.len()
            &&& symbols[id.id() as int] matches SymbolInfo::Data { name, symbol: Some(place), .. }
            &&& data.segment_id.id() == place.index
            &&& data.range.start == place.offset
            &&& data.range.end == place.offset + place.size
            &&& data.name == name
        }),
        forall|j: int|
            i < j < ordered_data(symbols).len() ==> {
                let later = (#[trigger] ordered_data(symbols)[j]).1;
                let data = ordered_data(symbols)[i].1;
                ||| data.segment_id.id() < later.segment_id.id()
                ||| data.segment_id.id() == later.segment_id.id() && data.range.start
                    <= later.range.start
            },
{
    let all = defined_data(symbols);
    let ordered = ordered_data(symbols);
    lemma_defined_data(symbols);
    lemma_sorted(all, data_key());
    let good = |d: (SymbolId, DataDefined)|
        {
            &&& d.0.id() < symbols.len()
            &&& symbols[d.0.id() as int] matches SymbolInfo::Data { name, symbol: Some(place), .. }
            &&& d.1 == DataDefined::of(place, name)
        };
    lemma_sorted_all(all, data_key(), good);
    assert(good(ordered[i]));
    assert(symbol_in_range(symbols[ordered[i].0.id() as int]));
    assert forall|j: int| i < j < ordered.len() implies {
        let later = (#[trigger] ordered[j]).1;
        let data = ordered[i].1;
        ||| data.segment_id.id() < later.segment_id.id()
        ||| data.segment_id.id() == later.segment_id.id() && data.range.start <= later.range.start
    } by {
        assert(good(ordered[j]));
        assert(symbol_in_range(symbols[ordered[j].0.id() as int]));
        assert(data_key()(ordered[i]) <= data_key()(ordered[j]));
    }
}

/// No defined data symbol is lost.
pub proof fn lemma_all_data_symbols_are_numbered(symbols: Seq<SymbolInfo>, k: int)
    requires
        symbols.len() < u32::MAX,
        0 <= k < symbols.len(),
        symbols[k] matches SymbolInfo::Data { symbol: Some(_), .. },
    ensures
        exists|i: int|
            0 <= i < ordered_data(symbols).len() && (#[trigger] ordered_data(symbols)[i]).0.id()
                == k,
{
    broadcast use vstd::seq_lib::group_to_multiset_ensures;

    let all = defined_data(symbols);
    let j = lemma_data_is_listed(symbols, k);
    lemma_sorted_multiset(all, data_key());
    assert(all.to_multiset().contains(all[j]));
    assert(ordered_data(symbols).contains(all[j]));
}

proof fn lemma_data_is_listed(symbols: Seq<SymbolInfo>, k: int) -> (j: int)
    requires
        symbols.len() < u32::MAX,
        0 <= k < symbols.len(),
        symbols[k] matches SymbolInfo::Data { symbol: Some(_), .. },
    ensures
        0 <= j < defined_data(symbols).len(),
        defined_data(symbols)[j].0.id() == k,
    decreases symbols.len(),
{
    if k == symbols.len() - 1 {
        defined_data(symbols).len() - 1
    } else {
        lemma_data_is_listed(symbols.drop_last(), k)
    }
}

/// The functions that are called indirectly are those whose index in a table some relocation
/// writes, each once.
pub proof fn lemma_indirect_functions(relocs: Seq<EntityRelocationEntry>, function: FunctionRef)
    ensures
        indirect_fns(relocs).contains(function) <==> exists|i: int|
            {
                &&& 0 <= i < relocs.len()
                &&& (#[trigger] relocs[i]).symbol_id == EntityKind::Function(function)
                &&& relocs[i].symbol_op is RuntimeAddr
            },
        indirect_fns(relocs).no_duplicates(),
    decreases relocs.len(),
{
    if relocs.len() > 0 {
        let init = relocs.drop_last();
        let n = relocs.len() - 1;
        let rest = indirect_fns(init);
        let all = indirect_fns(relocs);
        lemma_indirect_functions(init, function);
        assert forall|i: int| 0 <= i < n implies init[i] == #[trigger] relocs[i] by {}
        if let Some(last) = indirect_fn(relocs[n]) {
            if !rest.contains(last) {
                assert(all == rest.push(last));
                assert(all[rest.len() as int] == last);
                if rest.contains(function) {
                    let k = choose|k: int| 0 <= k < rest.len() && rest[k] == function;
                    assert(all[k] == function);
                }
                if all.contains(function) && function != last {
                    let k = choose|k: int| 0 <= k < all.len() && all[k] == function;
                    assert(rest[k] == function);
                }
            }
        }
        if exists|i: int|
            {
                &&& 0 <= i < relocs.len()
                &&& (#[trigger] relocs[i]).symbol_id == EntityKind::Function(function)
                &&& relocs[i].symbol_op is RuntimeAddr
            } {
            let i = choose|i: int|
                {
                    &&& 0 <= i < relocs.len()
                    &&& (#[trigger] relocs[i]).symbol_id == EntityKind::Function(function)
                    &&& relocs[i].symbol_op is RuntimeAddr
                };
            if i < n {
                assert(init[i] == relocs[i]);
            }
        }
    }
}

} // verus!
