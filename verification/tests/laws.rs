use wamex_object::analysis::compute::compute_split_modules;
use wamex_object::analysis::entity_set::EntitySet;
use wamex_object::analysis::modules::{NamedGraph, SharedEntry};
use wamex_object::analysis::split_point::ModuleIdentifier;
use wamex_object::emit::modify::Rewrite;
use wamex_object::helpers::RangeExt;
use wamex_object::index::{Temp, TempIndex};
use wamex_object::layouts::data::builder::{
    DataKind, DataSegmentSpec, MemLayoutBuilder, SegmentFlags,
};
use wamex_object::layouts::data::ItemType;
use wamex_object::layouts::SegmentPlacement;
use wamex_object::linkage::reloc::{AnyRelocationEntry, RawRelocationEntry, RelocationType};
use wamex_object::typed::body::{EntityBody, EntityBodyCopy};
use wamex_object::typed::entities::DefinedEntity;
use wamex_object::typed::snapshot::FlatEntityRef;
use wamex_object::typed::MemoryRef;

const TYPES: [RelocationType; 27] = [
    RelocationType::FunctionIndexLeb,
    RelocationType::TableIndexSleb,
    RelocationType::TableIndexI32,
    RelocationType::MemoryAddrLeb,
    RelocationType::MemoryAddrSleb,
    RelocationType::MemoryAddrI32,
    RelocationType::TypeIndexLeb,
    RelocationType::GlobalIndexLeb,
    RelocationType::FunctionOffsetI32,
    RelocationType::SectionOffsetI32,
    RelocationType::EventIndexLeb,
    RelocationType::MemoryAddrRelSleb,
    RelocationType::TableIndexRelSleb,
    RelocationType::GlobalIndexI32,
    RelocationType::MemoryAddrLeb64,
    RelocationType::MemoryAddrSleb64,
    RelocationType::MemoryAddrI64,
    RelocationType::MemoryAddrRelSleb64,
    RelocationType::TableIndexSleb64,
    RelocationType::TableIndexI64,
    RelocationType::TableNumberLeb,
    RelocationType::MemoryAddrTlsSleb,
    RelocationType::FunctionOffsetI64,
    RelocationType::MemoryAddrLocrelI32,
    RelocationType::TableIndexRelSleb64,
    RelocationType::MemoryAddrTlsSleb64,
    RelocationType::FunctionIndexI32,
];

fn taken_apart(ty: RelocationType, start: isize) -> AnyRelocationEntry {
    AnyRelocationEntry::from_raw(RawRelocationEntry { ty, offset: 20, index: 3, addend: 4 }, start)
}

#[test]
fn no_two_relocation_types_have_the_same_parts() {
    for (i, a) in TYPES.iter().enumerate() {
        for b in &TYPES[i + 1..] {
            assert_ne!(
                format!("{:?}", taken_apart(*a, 0)),
                format!("{:?}", taken_apart(*b, 0))
            );
        }
    }
}

#[test]
fn relocations_move_there_and_back() {
    for ty in TYPES {
        let entry = taken_apart(ty, 0);
        let moved = entry.shift_right(7);
        assert_eq!(moved.offset(), 27);
        assert_eq!(
            format!("{:?}", moved.shift_left(7)),
            format!("{:?}", entry)
        );
        assert_eq!(taken_apart(ty, -5).offset(), 15);
    }
}

fn set(ids: &[u32]) -> EntitySet {
    let mut result = EntitySet::new();
    for id in ids {
        result.insert(FlatEntityRef::from_u32(*id));
    }
    result
}

#[test]
fn nothing_that_main_shares_is_lost() {
    let part = || ModuleIdentifier::Split("part".into());
    let graphs = vec![
        NamedGraph {
            module: ModuleIdentifier::Main,
            reachable: set(&[1]),
            imports: set(&[5]),
        },
        NamedGraph { module: part(), reachable: set(&[2]), imports: set(&[5]) },
    ];
    let shared = || SharedEntry {
        module_names: vec![ModuleIdentifier::Main, part()],
        shared_deps: set(&[5, 6]),
        imports: set(&[]),
        exports: set(&[5]),
    };
    let program = compute_split_modules(graphs, vec![shared()], &[], true);
    assert_eq!(program.output_modules.len(), 2);
    let (_, main) = &program.output_modules[0];
    for id in [1, 5, 6] {
        assert!(main.defined_symbols.contains(FlatEntityRef::from_u32(id)));
        assert_eq!(program.symbol_output_module.get(FlatEntityRef::from_u32(id)), 0);
    }
    assert!(main.exports.contains(FlatEntityRef::from_u32(5)));
    assert!(!main.imports.contains(FlatEntityRef::from_u32(5)));
    assert_eq!(program.symbol_output_module.get(FlatEntityRef::from_u32(2)), 1);
}

#[test]
fn changes_keep_what_is_around_them() {
    let mut copy = EntityBodyCopy::new(vec![1, 2, 3, 4, 5], 0..5);
    copy.fixups.push(Rewrite { old_range: 1..2, new_bytes: vec![7, 8, 9], new_relocs: vec![] });
    copy.fixups.push(Rewrite { old_range: 4..5, new_bytes: vec![], new_relocs: vec![] });
    let body = EntityBody::Copied(copy);
    assert!(body.is_valid());
    assert_eq!(body.len(), 6);
    let mut bytes = vec![];
    body.append_to(&mut bytes);
    assert_eq!(bytes, vec![1, 7, 8, 9, 3, 4]);
}

#[test]
fn segments_are_found_again() {
    let mut builder = MemLayoutBuilder::new();
    let vs_id = builder.virtual_spaces.push(DataKind::Active {
        memory_ref: Temp::from_import(0),
        location: SegmentPlacement::ConstantOffset(16),
    });
    for name in [".rodata", ".data"] {
        let segment = builder.segments.push(DataSegmentSpec {
            vs_id,
            name: name.into(),
            align: 0,
            segment_flags: SegmentFlags::Writable,
        });
        builder.items.push_defined(DefinedEntity {
            entity_type: ItemType::data_chunk(segment, 0),
            name: None,
            export_as: vec![],
            body: EntityBody::new_empty(vec![1, 2, 3]),
        });
    }
    let sealed = builder.seal_at(0, |temp: Temp<MemoryRef>| temp.to_stable(0, 0));
    assert!(sealed.check_recoverable());
    let found = sealed.recover_vs_segments(|_| Temp::from_defined(0));
    // Neighbours are in one virtual space.
    assert_eq!(found.virtual_spaces.len(), 1);
    let names: Vec<&str> = found.segments.as_slice().iter().map(|s| s.name.as_str()).collect();
    assert_eq!(names, vec![".rodata", ".data"]);
}

#[test]
fn intersecting_segments_are_noticed() {
    let mut builder = MemLayoutBuilder::new();
    for offset in [0, 1] {
        let vs_id = builder.virtual_spaces.push(DataKind::Active {
            memory_ref: Temp::from_import(0),
            location: SegmentPlacement::ConstantOffset(offset),
        });
        let segment = builder.segments.push(DataSegmentSpec {
            vs_id,
            name: ".data".into(),
            align: 0,
            segment_flags: SegmentFlags::Writable,
        });
        builder.items.push_defined(DefinedEntity {
            entity_type: ItemType::data_chunk(segment, 0),
            name: None,
            export_as: vec![],
            body: EntityBody::new_empty(vec![1, 2, 3]),
        });
    }
    let sealed = builder.seal_at(0, |temp: Temp<MemoryRef>| temp.to_stable(0, 0));
    assert!(!sealed.check_recoverable());
}
