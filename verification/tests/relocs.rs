use std::mem::{align_of, size_of};
use wamex_object::index::{GappedMap, TempIndex};
use wamex_object::layouts::data::DataSymbolRef;
use wamex_object::linkage::file_db::{FileRelocs, RelocRange};
use wamex_object::linkage::reloc::{
    Encoding, EntityAddressMode, EntityRelocationEntry, LinkageRelocationEntry, Relative,
    RelocationEntry, RelocationWidth,
};
use wamex_object::typed::{EntityKind, FunctionRef};

#[test]
fn runtime_assert_size() {
    println!("Size of LinkageRelocation: {}", size_of::<LinkageRelocationEntry>());

    println!(
        "Size of wasmparser::RelocationEntry: {}",
        size_of::<wasmparser::RelocationEntry>()
    );
    assert!(size_of::<LinkageRelocationEntry>() <= size_of::<wasmparser::RelocationEntry>());

    assert!(align_of::<LinkageRelocationEntry>() <= align_of::<wasmparser::RelocationEntry>());
}

fn reloc(offset: u32, entity: EntityKind, op: EntityAddressMode) -> EntityRelocationEntry {
    RelocationEntry {
        addend: 0,
        offset,
        symbol_id: entity,
        symbol_op: op,
        relation: Relative::Absolute,
        encoding: Encoding::Leb,
        width: RelocationWidth::Bits32,
    }
}

fn func(id: u32) -> FunctionRef {
    FunctionRef::from_u32(id)
}

fn data(id: u32) -> DataSymbolRef {
    DataSymbolRef::from_u32(id)
}

/// Two functions and a data symbol with relocations.
fn relocs() -> FileRelocs {
    let array = vec![
        reloc(10, EntityKind::Function(func(4)), EntityAddressMode::StaticIndex),
        reloc(20, EntityKind::Function(func(5)), EntityAddressMode::RuntimeAddr),
        reloc(40, EntityKind::DataSymbol(data(0)), EntityAddressMode::RuntimeAddr),
        reloc(60, EntityKind::Function(func(2)), EntityAddressMode::RuntimeAddr),
    ];
    let mut code_owners = GappedMap::new();
    code_owners.insert(func(1), RelocRange::from_range(0..2));
    code_owners.insert(func(3), RelocRange::from_range(2..3));
    let mut data_owners = GappedMap::new();
    data_owners.insert(data(2), RelocRange::from_range(3..4));
    FileRelocs::build_from_parts(array, code_owners, data_owners)
}

fn rebuild_relocs(relocs: &FileRelocs) -> FileRelocs {
    let mut new_array = Vec::new();
    let mut code_owners = GappedMap::new();
    let mut data_owners = GappedMap::new();
    for (entity, original_relocs) in relocs.iter_relocs() {
        let start = new_array.len();
        new_array.extend_from_slice(original_relocs);
        let range = start..new_array.len();
        if range.is_empty() {
            continue;
        }
        match entity {
            EntityKind::Function(func) => {
                code_owners.insert(func, RelocRange::from_range(range));
            }
            EntityKind::DataSymbol(data) => {
                data_owners.insert(data, RelocRange::from_range(range));
            }
            _ => {}
        };
    }
    FileRelocs::build_from_parts(new_array, code_owners, data_owners)
}

#[test]
fn test_rebuild_relocs() {
    let relocs = relocs();
    let rebuilt = rebuild_relocs(&relocs);
    assert_eq!(relocs, rebuilt);
}

#[test]
fn check_ordered() {
    let relocs = relocs();
    let offsets = |relocs: &FileRelocs| -> Vec<u32> {
        relocs.iter_relocs().iter().flat_map(|(_, r)| r.iter().map(|r| r.offset)).collect()
    };
    assert_eq!(offsets(&relocs), vec![10, 20, 40, 60]);
    let rebuilt = rebuild_relocs(&relocs);
    assert_eq!(offsets(&rebuilt), vec![10, 20, 40, 60]);
}

#[test]
fn check_multiple_files_iter_mut() {
    let mut loaded = relocs();
    let copy = rebuild_relocs(&loaded);
    loaded.update_relocs(|_, mut reloc| {
        reloc.addend += 1; // modify addend to check that all relocs are handed out
        reloc
    });
    for ((left_entity, left), (right_entity, right)) in
        copy.iter_relocs().into_iter().zip(loaded.iter_relocs())
    {
        assert_eq!(left_entity, right_entity);
        for (l, r) in left.iter().zip(right.iter()) {
            let mut changed = *l;
            changed.addend += 1;
            assert_eq!(changed, *r);
        }
    }
}

#[test]
fn check_sections_range() {
    let relocs = relocs();
    let code_relocs = relocs.get_code_section_relocs();
    let data_relocs = relocs.get_data_section_relocs();
    let count: usize = relocs.iter_relocs().iter().map(|(_, relocs)| relocs.len()).sum();
    assert_eq!(code_relocs.len() + data_relocs.len(), count);
    let all = relocs.iter_relocs();
    assert_eq!(code_relocs.first(), all.first().unwrap().1.first());
    assert_eq!(data_relocs.last(), all.last().unwrap().1.last());
}

#[test]
fn relocs_are_found_by_their_owner() {
    let relocs = relocs();
    assert_eq!(relocs.get_code_relocs(func(1)).unwrap().len(), 2);
    assert_eq!(relocs.get_code_relocs(func(2)), None);
    assert_eq!(relocs.get_data_relocs(data(2)).unwrap()[0].offset, 60);
    assert_eq!(
        relocs.get_entity_relocs(EntityKind::Function(func(3))).unwrap()[0].offset,
        40
    );
}

#[test]
fn functions_in_tables_are_listed() {
    // Those whose address in the table is needed, once each.
    assert_eq!(relocs().list_indirect_fns(), vec![func(5), func(2)]);
}
