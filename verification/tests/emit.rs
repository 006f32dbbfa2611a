use wamex_object::analysis::compute::{compute_split_modules, SplitProgramInfo};
use wamex_object::analysis::emit::emit_split_modules;
use wamex_object::analysis::entity_set::EntitySet;
use wamex_object::analysis::modules::NamedGraph;
use wamex_object::analysis::split_point::{ModuleIdentifier, SplitPoint};
use wamex_object::emit::plan::copy::check_files;
use wamex_object::emit::plan::definition::PlanError;
use wamex_object::emit::relocation::EntityLocation;
use wamex_object::index::{GappedMap, TempIndex};
use wamex_object::layouts::data::builder::{DataKind, DataSegmentSpec, SegmentFlags};
use wamex_object::layouts::data::{DataSymbolRef, ItemType};
use wamex_object::layouts::SegmentPlacement;
use wamex_object::linkage::file_db::{FileRelocs, RelocRange};
use wamex_object::linkage::reloc::{
    Encoding, EntityAddressMode, EntityRelocationEntry, Relative, RelocationEntry, RelocationWidth,
};
use wamex_object::typed::body::{EntityBody, EntityBodyCopy};
use wamex_object::typed::builder::ModuleBuilder;
use wamex_object::typed::entities::{DefinedEntity, ImportedEntity};
use wamex_object::typed::file_loader::{FileLoader, LoadedFile};
use wamex_object::typed::module::DefinedFunction;
use wamex_object::typed::snapshot::{EntitiesSnapshot, FlatEntityRef};
use wamex_object::typed::types::{FuncType, MemoryType};
use wamex_object::typed::{EntityKind, FileId, FunctionRef, MemoryRef};

fn function(name: &str, bytes: Vec<u8>, start: usize, exports: &[&str]) -> DefinedFunction {
    let end = start + bytes.len();
    DefinedEntity {
        entity_type: FuncType { params: vec![], results: vec![] },
        name: Some(name.into()),
        export_as: exports.iter().map(|name| name.to_string()).collect(),
        body: EntityBody::Copied(EntityBodyCopy::new(bytes, start..end)),
    }
}

fn reloc(
    offset: u32,
    symbol_id: EntityKind,
    symbol_op: EntityAddressMode,
    encoding: Encoding,
) -> EntityRelocationEntry {
    RelocationEntry {
        addend: 0,
        offset,
        symbol_id,
        symbol_op,
        relation: Relative::Absolute,
        encoding,
        width: RelocationWidth::Bits32,
    }
}

/// Two functions and two data symbols, behind an imported function. The last function calls the
/// function `callee` and the imported one, and drops the address of the second data symbol.
fn input(callee: u32) -> LoadedFile {
    let mut module = ModuleBuilder::new();
    module.functions.push_import(ImportedEntity {
        module: "env".into(),
        name: "lazy".into(),
        entity_type: FuncType { params: vec![], results: vec![] },
        export_as: vec![],
    });
    module.functions.push_defined(function("callee", vec![0x00, 0x0b], 50, &[]));
    let calls = vec![
        0x00, // no locals
        0x10, 0xff, 0xff, 0xff, 0xff, 0x0f, // call
        0x10, 0xff, 0xff, 0xff, 0xff, 0x0f, // call
        0x41, 0x80, 0x80, 0x80, 0x80, 0x00, // i32.const
        0x1a, 0x0b,
    ];
    module.functions.push_defined(function("caller", calls, 100, &["run"]));
    let memory = module.memories.push_defined(DefinedEntity {
        entity_type: MemoryType { memory64: false, shared: false, initial: 1, maximum: None },
        name: None,
        export_as: vec!["memory".into()],
        body: EntityBody::new_empty(vec![]),
    });
    let data = &mut module.extra.mem_layout;
    let vs_id = data.virtual_spaces.push(DataKind::Active {
        memory_ref: memory,
        location: SegmentPlacement::ConstantOffset(1024),
    });
    let segment = data.segments.push(DataSegmentSpec {
        vs_id,
        name: ".data".into(),
        align: 2,
        segment_flags: SegmentFlags::Writable,
    });
    data.items.push_defined(DefinedEntity {
        entity_type: ItemType::data_chunk(segment, 2),
        name: Some("first".into()),
        export_as: vec![],
        body: EntityBody::Copied(EntityBodyCopy::new(vec![1, 2, 3, 4], 200..204)),
    });
    data.items.push_defined(DefinedEntity {
        entity_type: ItemType::data_chunk(segment, 2),
        name: Some("second".into()),
        export_as: vec![],
        body: EntityBody::Copied(EntityBodyCopy::new(vec![5, 6, 7, 8], 204..208)),
    });
    let relocs = vec![
        reloc(
            102,
            EntityKind::Function(FunctionRef::from_u32(callee)),
            EntityAddressMode::StaticIndex,
            Encoding::Leb,
        ),
        reloc(
            108,
            EntityKind::Function(FunctionRef::from_u32(0)),
            EntityAddressMode::StaticIndex,
            Encoding::Leb,
        ),
        reloc(
            114,
            EntityKind::DataSymbol(DataSymbolRef::from_u32(1)),
            EntityAddressMode::RuntimeAddr,
            Encoding::Sleb,
        ),
    ];
    let mut code_owners = GappedMap::new();
    code_owners.insert(FunctionRef::from_u32(2), RelocRange::from_range(0..3));
    LoadedFile {
        module: module.into_locked().unwrap(),
        relocs: FileRelocs::build_from_parts(relocs, code_owners, GappedMap::new()),
        snapshot: EntitiesSnapshot {
            functions: 3,
            globals: 0,
            tables: 0,
            memories: 1,
            tags: 0,
            data_symbols: 2,
            types: 0,
        },
    }
}

fn loader(callee: u32) -> FileLoader {
    let mut files = FileLoader::new();
    files.add_file(input(callee));
    files
}

fn flat(files: &FileLoader, entity: EntityKind) -> FlatEntityRef {
    files.get_snapshot().pack_ref(EntityLocation { file_id: FileId::from_u32(0), entity })
}

fn set(files: &FileLoader, entities: &[EntityKind]) -> EntitySet {
    let mut result = EntitySet::new();
    for entity in entities {
        result.insert(flat(files, *entity));
    }
    result
}

fn func(id: u32) -> EntityKind {
    EntityKind::Function(FunctionRef::from_u32(id))
}

fn data(id: u32) -> EntityKind {
    EntityKind::DataSymbol(DataSymbolRef::from_u32(id))
}

fn memory() -> EntityKind {
    EntityKind::Memory(MemoryRef::from_u32(0))
}

/// The code of all functions of a module.
fn bodies(bytes: &[u8]) -> Vec<Vec<u8>> {
    let mut result = vec![];
    for payload in wasmparser::Parser::new(0).parse_all(bytes) {
        if let wasmparser::Payload::CodeSectionEntry(body) = payload.unwrap() {
            result.push(bytes[body.range().start..body.range().end].to_vec());
        }
    }
    result
}

// Use split routine without extraction as a smoke test.
// In the result we should get one module with all entities as in input module.
#[test]
fn emit_loaded_split_roundtrip() {
    let files = loader(1);
    assert!(check_files(&files));
    let all = [func(0), func(1), func(2), memory(), data(0), data(1)];
    let main = NamedGraph {
        module: ModuleIdentifier::Main,
        reachable: set(&files, &all),
        imports: EntitySet::new(),
    };
    let split: SplitProgramInfo = compute_split_modules(vec![main], vec![], &[], true);
    assert_eq!(split.output_modules.len(), 1);
    let emitted = emit_split_modules(&files, &split).unwrap();
    assert_eq!(emitted.len(), 1);
    let (name, bytes) = &emitted[0];
    assert_eq!(name, "main");
    wasmparser::validate(bytes).unwrap();
    // The virtual space of the data starts at its base.
    let code = bodies(bytes);
    assert_eq!(code.len(), 2);
    assert_eq!(code[0], vec![0x00, 0x0b]);
    assert_eq!(
        code[1],
        vec![
            0x00, // no locals
            0x10, 0x81, 0x80, 0x80, 0x80, 0x00, // call 1
            0x10, 0x80, 0x80, 0x80, 0x80, 0x00, // call 0
            0x41, 0x84, 0x80, 0x80, 0x80, 0x00, // i32.const 4
            0x1a, 0x0b,
        ]
    );
    // The data stands at the end, behind its length.
    assert_eq!(&bytes[bytes.len() - 8..], &[1, 2, 3, 4, 5, 6, 7, 8]);
}

/// The main module, and a part that has the first function.
fn split_program(files: &FileLoader) -> SplitProgramInfo {
    let point =
        SplitPoint::new("part".into(), "id".into(), flat(files, func(0)), flat(files, func(1)));
    let main = NamedGraph {
        module: ModuleIdentifier::Main,
        reachable: set(files, &[func(0), func(2), memory(), data(0), data(1)]),
        imports: EntitySet::new(),
    };
    let part = NamedGraph {
        module: ModuleIdentifier::Split("part".into()),
        reachable: set(files, &[func(1)]),
        imports: set(files, &[memory()]),
    };
    compute_split_modules(vec![main, part], vec![], &[point], false)
}

#[test]
fn a_part_is_split_off() {
    let files = loader(0);
    let split = split_program(&files);
    assert_eq!(split.output_modules.len(), 2);
    let emitted = emit_split_modules(&files, &split).unwrap();
    assert_eq!(emitted[0].0, "main");
    assert_eq!(emitted[1].0, "part");
    wasmparser::validate(&emitted[0].1).unwrap();
    // The main module has no function of the part, but one that calls it through the table.
    let code = bodies(&emitted[0].1);
    assert_eq!(code.len(), 2);
    assert!(code.iter().all(|body| *body != vec![0x00, 0x0b]));
    assert!(code.iter().any(|body| body.contains(&0x11)));
    assert!(bodies(&emitted[1].1).contains(&vec![0x00, 0x0b]));
}

#[test]
fn addresses_of_parts_are_relative() {
    let files = loader(1);
    let point =
        SplitPoint::new("part".into(), "id".into(), flat(&files, func(0)), flat(&files, func(2)));
    let main = NamedGraph {
        module: ModuleIdentifier::Main,
        reachable: set(&files, &[func(0), memory(), data(0)]),
        imports: EntitySet::new(),
    };
    let part = NamedGraph {
        module: ModuleIdentifier::Split("part".into()),
        reachable: set(&files, &[func(1), func(2), data(1)]),
        imports: set(&files, &[func(0), memory()]),
    };
    let split = compute_split_modules(vec![main, part], vec![], &[point], false);
    let emitted = emit_split_modules(&files, &split).unwrap();
    let code = bodies(&emitted[1].1);
    let caller = code.iter().find(|body| body.contains(&0x1a)).unwrap();
    assert_eq!(
        caller,
        &vec![
            0x00, // no locals
            0x10, 0x82, 0x80, 0x80, 0x80, 0x00, // call 2, behind the start function
            0x10, 0x80, 0x80, 0x80, 0x80, 0x00, // call 0
            0x23, 0x80, 0x80, 0x80, 0x80, 0x00, // global.get 0
            0x41, 0x80, 0x80, 0x80, 0x80, 0x00, // i32.const 0
            0x6a, // i32.add
            0x1a, 0x0b,
        ]
    );
}

#[test]
fn parts_are_called_through_split_points_only() {
    // The caller refers to the function that is split off, which the main module does not have.
    let files = loader(1);
    let result = emit_split_modules(&files, &split_program(&files));
    assert_eq!(result, Err(PlanError::Unresolved));
}

#[test]
fn too_few_entities_are_found() {
    let mut file = input(1);
    file.snapshot.functions = 4;
    let mut files = FileLoader::new();
    files.add_file(file);
    assert!(!check_files(&files));
}
