use wamex_object::analysis::debug::format_dep_graph;
use wamex_object::analysis::entity_set::EntitySet;
use wamex_object::analysis::module_roots::module_roots;
use wamex_object::analysis::names::{parse_wamex_entry_name, text_order, TextOrder};
use wamex_object::analysis::parse::{find_split_points, SplitError};
use wamex_object::analysis::roots::{main_roots, wbg_closures, DepGraph, DepNode};
use wamex_object::analysis::split_point::{
    merge_split_points_by_name, ModuleIdentifier, SplitPoint, SplitPointExtractor,
};
use wamex_object::index::TempIndex;
use wamex_object::typed::body::EntityBody;
use wamex_object::typed::builder::ModuleBuilder;
use wamex_object::typed::entities::{DefinedEntity, ImportedEntity};
use wamex_object::typed::module::Module;
use wamex_object::typed::snapshot::{EntitiesSnapshot, FlatEntityRef};
use wamex_object::typed::types::FuncType;
use wamex_object::typed::{EntityKind, FunctionRef};

/// A module with one import and one function that is exported.
fn module(import: &str, export: &str) -> Module {
    let mut module = ModuleBuilder::new();
    module.functions.push_import(ImportedEntity {
        module: "env".into(),
        name: import.into(),
        entity_type: FuncType { params: vec![], results: vec![] },
        export_as: vec![],
    });
    module.functions.push_defined(DefinedEntity {
        entity_type: FuncType { params: vec![], results: vec![] },
        name: Some("a\"b".into()),
        export_as: vec![export.into()],
        body: EntityBody::new_empty(vec![0x00, 0x0b]),
    });
    module.into_locked().unwrap()
}

fn snapshot() -> EntitiesSnapshot {
    EntitiesSnapshot {
        functions: 2,
        globals: 0,
        tables: 0,
        memories: 0,
        tags: 0,
        data_symbols: 0,
        types: 0,
    }
}

fn flat(id: u32) -> FlatEntityRef {
    FlatEntityRef::from_u32(id)
}

#[test]
fn entry_names_hold_two_names() {
    assert_eq!(parse_wamex_entry_name("__wamex_00part00_import_f"), Some(("part", "f")));
    assert_eq!(parse_wamex_entry_name("__wamex_00part00_export_f"), Some(("part", "f")));
    assert_eq!(parse_wamex_entry_name("other"), None);
}

#[test]
fn split_points_join_an_import_and_an_export() {
    let info = module("__wasm_split_00part00_import_f", "__wasm_split_00part00_export_f");
    let points = find_split_points(&info, &snapshot(), SplitPointExtractor::Legacy).unwrap();
    assert_eq!(points, vec![SplitPoint::new("part".into(), "f".into(), flat(0), flat(1))]);
    // Names of the other kind are not looked at.
    let none = find_split_points(&info, &snapshot(), SplitPointExtractor::Wamex).unwrap();
    assert!(none.is_empty());
    let by_name = merge_split_points_by_name(&points);
    assert_eq!(by_name.len(), 1);
}

#[test]
fn an_import_needs_its_export() {
    let info = module("__wasm_split_00part00_import_f", "__wasm_split_00part00_export_g");
    let result = find_split_points(&info, &snapshot(), SplitPointExtractor::Legacy);
    assert_eq!(
        result,
        Err(SplitError::NoExport { module_name: "part".into(), unique_id: "f".into() })
    );
}

#[test]
fn texts_are_ordered_by_characters() {
    assert!(matches!(text_order("a", "b"), TextOrder::Less));
    assert!(matches!(text_order("ab", "a"), TextOrder::Greater));
    assert!(matches!(text_order("a", "a"), TextOrder::Equal));
}

#[test]
fn imports_and_exports_are_roots() {
    let info = module("f", "run");
    let roots = main_roots(&info, &snapshot(), &[], &EntitySet::new());
    assert_eq!(roots.as_slice(), &[flat(0), flat(1)]);
    // But for those of split points.
    let point = SplitPoint::new("part".into(), "f".into(), flat(0), flat(1));
    let roots = main_roots(&info, &snapshot(), &[point], &EntitySet::new());
    assert!(roots.is_empty());
}

#[test]
fn names_are_quoted() {
    let graph = DepGraph {
        nodes: vec![DepNode { node: flat(1), parents: vec![], children: vec![flat(0)] }],
    };
    let info = module("f", "run");
    let text = format_dep_graph(&graph, &info, &snapshot());
    assert!(text.contains("\"a\\\"b\""));
    assert!(text.contains("  -> "));
    assert_eq!(info.get_name(EntityKind::Function(FunctionRef::from_u32(1))), "a\"b");
    assert_eq!(graph.get_children(flat(1)), Some(&vec![flat(0)]));
    assert_eq!(graph.get_children(flat(0)), None);
}

#[test]
fn users_of_cast_descriptors_describe_too() {
    let mut builder = ModuleBuilder::new();
    for (module, name) in [
        ("__wbindgen_placeholder__", "__wbindgen_describe_cast"),
        ("__wbindgen_placeholder__", "__wbg_log"),
        ("env", "__wbindgen_describe_cast"),
    ] {
        builder.functions.push_import(ImportedEntity {
            module: module.into(),
            name: name.into(),
            entity_type: FuncType { params: vec![], results: vec![] },
            export_as: vec![],
        });
    }
    let info = builder.into_locked().unwrap();
    let snapshot = EntitiesSnapshot { functions: 9, ..snapshot() };
    let uses = |node: u32, user: u32| DepNode {
        node: flat(node),
        parents: vec![flat(user)],
        children: vec![],
    };
    let graph = DepGraph { nodes: vec![uses(0, 5), uses(1, 6), uses(2, 7)] };
    assert_eq!(wbg_closures(&info, &snapshot, &graph).as_slice(), &[flat(0), flat(1), flat(5)]);
}

#[test]
fn every_module_has_its_roots() {
    let info = module("f", "run");
    let points = [
        SplitPoint::new("b".into(), "f".into(), flat(0), flat(1)),
        SplitPoint::new("a".into(), "g".into(), flat(4), flat(3)),
        SplitPoint::new("b".into(), "h".into(), flat(6), flat(2)),
    ];
    let mut descriptors = EntitySet::new();
    descriptors.insert(flat(1));
    let modules = module_roots(&info, &snapshot(), &points, &descriptors);
    let named: Vec<_> = modules.iter().map(|(name, roots)| (name, roots.as_slice())).collect();
    assert_eq!(
        named,
        vec![
            (&ModuleIdentifier::Main, &[flat(1)][..]),
            (&ModuleIdentifier::Split("a".into()), &[flat(3)][..]),
            (&ModuleIdentifier::Split("b".into()), &[flat(1), flat(2)][..]),
        ]
    );
}
