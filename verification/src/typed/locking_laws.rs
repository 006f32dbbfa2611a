//! What stays the same when a module gets its final indices.
use crate::emit::reading::{
    lemma_read_byte, lemma_read_fixed_number, lemma_read_number, lemma_read_one_more, read_byte,
    read_items, read_number, Reader,
};
use crate::emit::relocation::encode::{fixed_leb, leb_range, uleb};
use crate::index::{Temp, TempIndex};
use crate::layouts::data::builder::DataKind;
use crate::layouts::elements::{ElementInTable, ElementKind};
use crate::layouts::SegmentPlacement;
use crate::typed::body::EntityBody;
use crate::typed::builder::{
    calls, is_start_function, kind_known, stable_items, stable_kind, stable_space,
};
use crate::typed::entities::{lemma_stable_entity, CollectionView};
use crate::typed::module::{
    DefinedFunction, DefinedGlobal, DefinedMemory, DefinedTable, ImportedFunction, ImportedGlobal,
    ImportedMemory, ImportedTable,
};
use crate::typed::{FunctionRef, GlobalRef, MemoryRef, TableRef};
use vstd::prelude::*;

verus! {

/// Reads the call of a function.
pub open spec fn read_call(bytes: Seq<u8>) -> Option<(nat, Seq<u8>)> {
    match read_byte(bytes) {
        Some((opcode, rest)) => if opcode == 0x10 {
            read_number(rest)
        } else {
            None
        },
        None => None,
    }
}

proof fn lemma_calls(ids: Seq<u32>, tail: Seq<u8>)
    ensures
        ({
            let read: Reader<nat> = |bytes: Seq<u8>| read_call(bytes);
            read_items(calls(ids) + tail, ids.len(), read) == Some(
                (ids.map_values(|id: u32| id as nat), tail),
            )
        }),
    decreases ids.len(),
{
    let read: Reader<nat> = |bytes: Seq<u8>| read_call(bytes);
    let numbers = ids.map_values(|id: u32| id as nat);
    if ids.len() == 0 {
        assert(calls(ids) + tail =~= tail);
        assert(numbers =~= Seq::<nat>::empty());
    } else {
        let init = ids.drop_last();
        let last = ids.last();
        let operand = fixed_leb(last as int, 5) + tail;
        let rest = seq![0x10u8] + operand;
        lemma_calls(init, rest);
        assert(calls(ids) + tail =~= calls(init) + rest);
        lemma_read_byte(0x10, operand);
        reveal_with_fuel(leb_range, 6);
        lemma_read_fixed_number(last as nat, tail);
        assert(read_call(rest) == Some((last as nat, tail)));
        lemma_read_one_more(calls(ids) + tail, init.len(), read);
        assert(numbers =~= init.map_values(|id: u32| id as nat).push(last as nat));
    }
}

/// The function that starts a module with several start functions has no locals, calls all of them
/// in order, and ends.
pub proof fn lemma_start_function_calls_all(function: DefinedFunction, ids: Seq<u32>)
    requires
        is_start_function(function, ids),
    ensures
        ({
            let read: Reader<nat> = |bytes: Seq<u8>| read_call(bytes);
            &&& function.entity_type.params@.len() == 0
            &&& function.entity_type.results@.len() == 0
            &&& function.body matches EntityBody::New { new_bytes, .. }
            &&& read_number(new_bytes@) matches Some((locals, code))
            &&& locals == 0
            &&& read_items(code, ids.len(), read) matches Some((called, end))
            &&& called == ids.map_values(|id: u32| id as nat)
            &&& end == seq![0x0bu8]
        }),
{
    let bytes = function.body->new_bytes@;
    let end = seq![0x0bu8];
    let code = calls(ids) + end;
    assert(uleb(0) =~= seq![0x00u8]);
    assert(bytes =~= uleb(0) + code);
    lemma_read_number(0, code);
    lemma_calls(ids, end);
}

/// An element keeps its function and its segment.
pub proof fn lemma_elements_keep_their_functions(
    functions: CollectionView<ImportedFunction, DefinedFunction>,
    items: Seq<ElementInTable<Temp<FunctionRef>>>,
    i: int,
)
    requires
        0 <= i < items.len(),
        functions.holds(items[i].item.kind()),
        functions.len() < u32::MAX,
    ensures
        ({
            let stable = stable_items(functions, items);
            &&& stable.len() == items.len()
            &&& functions.entity(stable[i].item.id() as int) == functions.temp_entity(
                items[i].item.kind(),
            )
            &&& stable[i].segment_id == items[i].segment_id
        }),
{
    lemma_stable_entity(functions, items[i].item);
}

/// A segment of elements keeps its table and its place. If it is relative to a global, it stays
/// relative to that.
pub proof fn lemma_element_segments_keep_their_places(
    tables: CollectionView<ImportedTable, DefinedTable>,
    globals: CollectionView<ImportedGlobal, DefinedGlobal>,
    kind: ElementKind<Temp<TableRef>, Temp<GlobalRef>>,
)
    requires
        kind_known(tables, globals, kind),
        tables.len() < u32::MAX,
        globals.len() < u32::MAX,
    ensures
        match (kind, stable_kind(tables, globals, kind)) {
            (
                ElementKind::Active { table_ref: temp, location: from },
                ElementKind::Active { table_ref: table, location: to },
            ) => {
                &&& tables.entity(table.id() as int) == tables.temp_entity(temp.kind())
                &&& match (from, to) {
                    (
                        SegmentPlacement::GotBased { global: a, offset: x },
                        SegmentPlacement::GotBased { global: b, offset: y },
                    ) => x == y && globals.entity(b.id() as int) == globals.temp_entity(a.kind()),
                    (
                        SegmentPlacement::ConstantOffset(x),
                        SegmentPlacement::ConstantOffset(y),
                    ) => x == y,
                    _ => false,
                }
            },
            (ElementKind::Passive, ElementKind::Passive) => true,
            (ElementKind::Declared, ElementKind::Declared) => true,
            _ => false,
        },
{
    if let ElementKind::Active { table_ref, location } = kind {
        lemma_stable_entity(tables, table_ref);
        if let SegmentPlacement::GotBased { global, .. } = location {
            lemma_stable_entity(globals, global);
        }
    }
}

/// A virtual space of data keeps its memory and its place.
pub proof fn lemma_spaces_keep_their_places(
    memories: CollectionView<ImportedMemory, DefinedMemory>,
    space: DataKind<Temp<MemoryRef>>,
)
    requires
        space matches DataKind::Active { memory_ref, .. } ==> memories.holds(memory_ref.kind()),
        memories.len() < u32::MAX,
    ensures
        match (space, stable_space(memories, space)) {
            (
                DataKind::Active { memory_ref: temp, location: from },
                DataKind::Active { memory_ref: memory, location: to },
            ) => memories.entity(memory.id() as int) == memories.temp_entity(temp.kind()) && from
                == to,
            (DataKind::Passive, DataKind::Passive) => true,
            _ => false,
        },
{
    if let DataKind::Active { memory_ref, .. } = space {
        lemma_stable_entity(memories, memory_ref);
    }
}

} // verus!
