use wamex_object::analysis::split_point::{
    ModuleIdentifier, SharedModuleIdentifier, SplitModuleIdentifier,
};
use wamex_object::analysis::trampolines::add_trampoline_body;
use wamex_object::emit::object::segments::SourceSegment;
use wamex_object::emit::object::split::{CommonEmitInfo, Split, SplitObjectInfo};
use wamex_object::emit::object::InputObject;
use wamex_object::index::{Temp, TempIndex};
use wamex_object::typed::body::EntityBody;
use wamex_object::typed::builder::ModuleBuilder;
use wamex_object::typed::entities::DefinedEntity;
use wamex_object::typed::types::FuncType;
use wamex_object::typed::{FunctionRef, TableRef};

#[test]
fn test_is_part_of() {
    let a = SplitModuleIdentifier::Single(ModuleIdentifier::Split("a".into()));
    let b = SplitModuleIdentifier::Single(ModuleIdentifier::Split("b".into()));
    let c = SplitModuleIdentifier::Single(ModuleIdentifier::Split("c".into()));

    let shared = SharedModuleIdentifier(vec![
        ModuleIdentifier::Split("a".into()),
        ModuleIdentifier::Split("b".into()),
        ModuleIdentifier::Split("c".into()),
    ]);

    assert!(a.is_part_of(&shared));
    assert!(b.is_part_of(&shared));
    assert!(c.is_part_of(&shared));

    let ab = SplitModuleIdentifier::Shared(SharedModuleIdentifier(vec![
        ModuleIdentifier::Split("a".into()),
        ModuleIdentifier::Split("b".into()),
    ]));
    assert!(ab.is_part_of(&shared));
}

/// A program with one function that is split off.
fn object() -> InputObject {
    let mut module = ModuleBuilder::new();
    module.functions.push_defined(DefinedEntity {
        entity_type: FuncType { params: vec![], results: vec![] },
        name: Some("run".into()),
        export_as: vec![],
        body: EntityBody::new_empty(vec![0x00, 0x0b]),
    });
    InputObject {
        module: module.into_locked().unwrap(),
        symbols: vec![],
        indirect_function_table: vec![],
    }
}

#[test]
fn a_split_object_is_made_for_a_linkage_and_a_version() {
    let object = object();
    let emit_info = CommonEmitInfo {
        entrypoints: vec![FunctionRef::from_u32(0)],
        src_data_segments: vec![SourceSegment {
            name: ".data".into(),
            memory_offset: 1024,
            pow2align: 0,
            symbols: vec![],
        }],
        main_global_exports: vec![],
    };
    let info = SplitObjectInfo {
        defined_symbols: vec![],
        imports: vec![],
        exports: vec![],
        entrypoints: vec![FunctionRef::from_u32(0)],
    };
    let main = SplitModuleIdentifier::Single(ModuleIdentifier::Main);
    let state = Split::build_split_object(
        &object,
        &emit_info,
        &main,
        &info,
        &vec![],
        "static",
        &vec![],
        &vec![],
        7u32,
    )
    .unwrap();
    assert!(state.sub_module_extra.is_none());
    assert_eq!((state.linkage_type, state.incremental_version), ("static", 7));
    assert_eq!(state.indirect_functions.num_entrypoints, Some(1));

    let shared = SharedModuleIdentifier(vec![ModuleIdentifier::Split("a".into())]);
    let part = SplitModuleIdentifier::Single(ModuleIdentifier::Split("part".into()));
    let state = Split::build_split_object(
        &object,
        &emit_info,
        &part,
        &info,
        &vec![shared],
        "dynamic",
        &vec![],
        &vec![],
        8u32,
    )
    .unwrap();
    assert_eq!((state.linkage_type, state.incremental_version), ("dynamic", 8));
    assert_eq!(state.linked_modules.len(), 1);
    let extra = state.sub_module_extra.unwrap();
    assert_eq!(extra.entrypoints, vec![FunctionRef::from_u32(0)]);
    assert_eq!(extra.extern_modules.len(), 1);
    assert!(extra.export_got_with_id.is_none());
}

#[test]
fn a_trampoline_holds_the_bits_of_its_index() {
    let mut object = object();
    for (index, constant) in [(3, 0x03), (0xffff_fffe, 0x7e)] {
        add_trampoline_body(
            &mut object.module,
            Temp::from_defined(0),
            index,
            TableRef::from_u32(1),
        )
        .unwrap();
        match &object.module.functions.defined()[0].body {
            EntityBody::New { new_bytes, .. } => {
                assert_eq!(*new_bytes, vec![0x00, 0x41, constant, 0x11, 0x00, 0x01, 0x0b])
            }
            other => panic!("{:?}", other),
        }
    }
}
