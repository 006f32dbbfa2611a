use wamex_object::emit::generate::GenerateError;
use wamex_object::emit::modify::Rewrite;
use wamex_object::index::TempIndex;
use wamex_object::layouts::data::builder::{DataKind, DataSegmentSpec, SegmentFlags};
use wamex_object::layouts::data::ItemType;
use wamex_object::layouts::{SegmentId, SegmentPlacement};
use wamex_object::typed::body::{EntityBody, EntityBodyCopy};
use wamex_object::typed::builder::{LockError, ModuleBuilder};
use wamex_object::typed::entities::{DefinedEntity, ImportedEntity};
use wamex_object::typed::module::{DefinedFunction, ImportedFunction};
use wamex_object::typed::types::{
    FuncType, GlobalType, MemoryType, TableType, TagType, ValType,
};
use wamex_object::typed::{FunctionRef, GlobalRef};

fn no_type() -> FuncType {
    FuncType { params: vec![], results: vec![] }
}

fn imported(name: &str) -> ImportedFunction {
    ImportedEntity {
        module: "env".into(),
        name: name.into(),
        entity_type: no_type(),
        export_as: vec![],
    }
}

fn defined(bytes: Vec<u8>, exports: &[&str]) -> DefinedFunction {
    DefinedEntity {
        entity_type: no_type(),
        name: None,
        export_as: exports.iter().map(|name| name.to_string()).collect(),
        body: EntityBody::new_empty(bytes),
    }
}

fn memory() -> DefinedEntity<MemoryType> {
    DefinedEntity {
        entity_type: MemoryType { memory64: false, shared: false, initial: 1, maximum: None },
        name: Some("__base_memory".into()),
        export_as: vec![],
        body: EntityBody::new_empty(vec![]),
    }
}

/// How many entities and segments a module has.
#[derive(Debug, Default, PartialEq, Eq)]
struct Counts {
    types: usize,
    imports: usize,
    functions: usize,
    tables: usize,
    memories: usize,
    globals: usize,
    exports: usize,
    elements: usize,
    data: usize,
    start: Option<u32>,
}

fn counts(bytes: &[u8]) -> Counts {
    let mut result = Counts::default();
    for payload in wasmparser::Parser::new(0).parse_all(bytes) {
        match payload.unwrap() {
            wasmparser::Payload::TypeSection(reader) => {
                result.types += reader.count() as usize;
            }
            wasmparser::Payload::ImportSection(reader) => {
                result.imports += reader.into_imports().count();
            }
            wasmparser::Payload::FunctionSection(reader) => {
                result.functions += reader.count() as usize;
            }
            wasmparser::Payload::TableSection(reader) => {
                result.tables += reader.count() as usize;
            }
            wasmparser::Payload::MemorySection(reader) => {
                result.memories += reader.count() as usize;
            }
            wasmparser::Payload::GlobalSection(reader) => {
                result.globals += reader.count() as usize;
            }
            wasmparser::Payload::ExportSection(reader) => {
                result.exports += reader.count() as usize;
            }
            wasmparser::Payload::ElementSection(reader) => {
                result.elements += reader.count() as usize;
            }
            wasmparser::Payload::DataSection(reader) => {
                result.data += reader.count() as usize;
            }
            wasmparser::Payload::StartSection { func, .. } => {
                result.start = Some(func);
            }
            _ => {}
        }
    }
    result
}

#[test]
fn create_from_scratch() {
    let mut module = ModuleBuilder::new();

    let imported = module.functions.push_import(imported("bar"));
    module.extra.start_functions.push(imported);
    module.create_empty_indirect_fn_table();
    let id = module.memories.push_defined(memory());
    let data = &mut module.extra.mem_layout;
    // Add virtual space where this data should stay
    let vs = data.virtual_spaces.push(DataKind::Active {
        memory_ref: id,
        location: SegmentPlacement::ConstantOffset(0),
    });

    data.segments.push(DataSegmentSpec {
        vs_id: vs,
        name: "data".into(),
        align: 0,
        segment_flags: SegmentFlags::Readonly,
    });

    data.items.push_defined(DefinedEntity {
        body: EntityBody::New { new_bytes: vec![1, 2, 3], new_relocs: vec![] },
        name: Some("data".into()),
        entity_type: ItemType::data_chunk(SegmentId::from_u32(0), 0),
        export_as: vec![],
    });

    let module = module.into_locked().unwrap();

    assert_eq!(module.functions.len(), 1);
    assert_eq!(module.tables.len(), 1);
    assert_eq!(module.memories.len(), 1);
    assert_eq!(module.extra.mem_layout.defined.len(), 1);

    let mut bytes = vec![];
    module.generate(&mut bytes).unwrap();

    let loaded = counts(&bytes);
    assert_eq!(loaded.imports + loaded.functions, 1);
    assert_eq!(loaded.tables, 1);
    assert_eq!(loaded.memories, 1);
    assert_eq!(loaded.data, 1);
    assert_eq!(loaded.start, Some(0));
    wasmparser::validate(&bytes).unwrap();
}

#[test]
fn every_kind_of_entity_is_written() {
    let mut module = ModuleBuilder::new();
    module.functions.push_import(imported("f"));
    module.globals.push_import(ImportedEntity {
        module: "env".into(),
        name: "g".into(),
        entity_type: GlobalType { content_type: ValType::I32, mutable: false, shared: false },
        export_as: vec![],
    });
    module.functions.push_defined(defined(vec![0x00, 0x0b], &["one", "two"]));
    module.functions.push_defined(DefinedEntity {
        entity_type: FuncType { params: vec![ValType::I64], results: vec![ValType::F64] },
        name: None,
        export_as: vec![],
        body: EntityBody::new_empty(vec![0x00, 0x44, 0, 0, 0, 0, 0, 0, 0, 0, 0x0b]),
    });
    module.globals.push_defined(DefinedEntity {
        entity_type: GlobalType { content_type: ValType::I64, mutable: true, shared: false },
        name: None,
        export_as: vec!["global".into()],
        body: EntityBody::new_empty(vec![0x42, 0x05, 0x0b]),
    });
    module.tables.push_defined(DefinedEntity {
        entity_type: TableType { element_type: ValType::FuncRef, initial: 2, maximum: Some(300) },
        name: None,
        export_as: vec![],
        body: EntityBody::new_empty(vec![]),
    });
    module.memories.push_defined(memory());
    module.tags.push_defined(DefinedEntity {
        entity_type: TagType { func_type_idx: 0 },
        name: None,
        export_as: vec![],
        body: EntityBody::new_empty(vec![]),
    });
    let module = module.into_locked().unwrap();
    let mut bytes = vec![];
    let layout = module.generate(&mut bytes).unwrap();
    wasmparser::validate(&bytes).unwrap();
    let loaded = counts(&bytes);
    assert_eq!(
        loaded,
        Counts {
            types: 2,
            imports: 2,
            functions: 2,
            tables: 1,
            memories: 1,
            globals: 1,
            exports: 3,
            elements: 0,
            data: 0,
            start: None,
        }
    );
    // The first body stands behind the count and its own length.
    let first = layout.functions_mapping.get(FunctionRef::from_u32(1)).code_offset as usize;
    let code = &bytes[layout.code_section.start..layout.code_section.end];
    assert_eq!(first, 10);
    assert_eq!(&code[first..first + 2], &[0x00, 0x0b]);
    let second = layout.functions_mapping.get(FunctionRef::from_u32(2)).code_offset as usize;
    assert_eq!(second, 10 + 2 + 5);
    assert_eq!(code[second + 1], 0x44);
    assert_eq!(layout.functions_mapping.get(FunctionRef::from_u32(0)).code_offset, 0);
}

#[test]
fn a_module_is_appended() {
    let module = ModuleBuilder::new().into_locked().unwrap();
    let mut alone = vec![];
    module.generate(&mut alone).unwrap();
    assert_eq!(&alone[0..8], b"\0asm\x01\0\0\0");
    let mut behind = vec![7, 8];
    module.generate(&mut behind).unwrap();
    assert_eq!(&behind[0..2], &[7, 8]);
    assert_eq!(&behind[2..], &alone[..]);
}

#[test]
fn several_start_functions_are_called_in_order() {
    let mut module = ModuleBuilder::new();
    let first = module.functions.push_import(imported("first"));
    let second = module.functions.push_defined(defined(vec![0x00, 0x0b], &[]));
    module.extra.start_functions.push(second);
    module.extra.start_functions.push(first);
    let module = module.into_locked().unwrap();
    assert_eq!(module.functions.len(), 3);
    assert_eq!(module.extra.start_function, Some(FunctionRef::from_u32(2)));
    let mut bytes = vec![];
    module.functions.defined()[1].body.append_to(&mut bytes);
    assert_eq!(bytes[0], 0x00);
    assert_eq!(bytes[1], 0x10);
    assert_eq!(*bytes.last().unwrap(), 0x0b);
    let mut output = vec![];
    module.generate(&mut output).unwrap();
    wasmparser::validate(&output).unwrap();
    assert_eq!(counts(&output).start, Some(2));
}

#[test]
fn unknown_start_functions_are_refused() {
    let mut other = ModuleBuilder::new();
    let unknown = other.functions.push_import(imported("f"));
    let mut module = ModuleBuilder::new();
    module.extra.start_functions.push(unknown);
    assert!(matches!(module.into_locked(), Err(LockError::UnknownEntity)));
}

#[test]
fn changed_bodies_need_changes_in_order() {
    let mut copy = EntityBodyCopy::new(vec![0x00, 0x01, 0x0b], 10..13);
    copy.fixups.push(Rewrite { old_range: 2..1, new_bytes: vec![], new_relocs: vec![] });
    let mut module = ModuleBuilder::new();
    module.functions.push_defined(DefinedEntity {
        entity_type: no_type(),
        name: None,
        export_as: vec![],
        body: EntityBody::Copied(copy),
    });
    let module = module.into_locked().unwrap();
    let mut bytes = vec![5];
    assert!(matches!(module.generate(&mut bytes), Err(GenerateError::Unwritable)));
    assert_eq!(bytes, vec![5]);
}

#[test]
fn globals_are_found_by_name() {
    let mut module = ModuleBuilder::new();
    module.globals.push_import(ImportedEntity {
        module: "env".into(),
        name: "a".into(),
        entity_type: GlobalType { content_type: ValType::I32, mutable: false, shared: false },
        export_as: vec![],
    });
    module.globals.push_defined(DefinedEntity {
        entity_type: GlobalType { content_type: ValType::I32, mutable: false, shared: false },
        name: Some("b".into()),
        export_as: vec![],
        body: EntityBody::new_empty(vec![0x41, 0x00, 0x0b]),
    });
    let module = module.into_locked().unwrap();
    assert_eq!(module.find_global_id_by_name(&"b".to_string()), Some(GlobalRef::from_u32(1)));
    assert_eq!(module.find_global_id_by_name(&"c".to_string()), None);
}
