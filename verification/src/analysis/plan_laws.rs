//! How the plans of the modules of a split program fit together.
use crate::analysis::modules::OutputModuleInfo;
use crate::analysis::split_plan::{
    is_called, is_declared_for, is_import_for, is_kept, is_new_plan, location_of, SplitModulePlan,
};
use crate::analysis::split_point::SplitPoint;
use crate::analysis::trampolines::{lemma_import_number, ExtraExport};
use crate::index::{SecondaryMap, TempIndex};
use crate::sorting::lemma_kept;
use crate::typed::file_loader::LoadedFile;
use crate::typed::snapshot::{FlatEntityRef, MultiSnapshot};
use vstd::prelude::*;

verus! {

/// Whether an entity is to be copied, and exported under a name or not.
pub open spec fn copies<S>(
    plan: SplitModulePlan<S>,
    entity: FlatEntityRef,
    i: int,
    name: Option<Seq<char>>,
) -> bool {
    &&& 0 <= i < plan.entities@.len()
    &&& plan.entities@[i].0 == entity
    &&& match plan.entities@[i].1 {
        ExtraExport::AddExport(text) => name == Some(text@),
        ExtraExport::Nothing => name is None,
    }
}

/// Whether an entity is to be called through the table, and exported under a name or not.
pub open spec fn calls<S>(
    plan: SplitModulePlan<S>,
    entity: FlatEntityRef,
    i: int,
    name: Option<Seq<char>>,
) -> bool {
    &&& plan.trampoline_fns is Declared
    &&& 0 <= i < plan.trampoline_fns->declared@.len()
    &&& plan.trampoline_fns->declared@[i].flat_entity == entity
    &&& match plan.trampoline_fns->declared@[i].extra {
        ExtraExport::AddExport(text) => name == Some(text@),
        ExtraExport::Nothing => name is None,
    }
}

/// Whether an entity, or a function that calls it, is to be exported under a name.
pub open spec fn exports_under<S>(
    plan: SplitModulePlan<S>,
    entity: FlatEntityRef,
    i: int,
    name: Seq<char>,
) -> bool {
    copies(plan, entity, i, Some(name)) || calls(plan, entity, i, Some(name))
}

/// Whether an entity is to be imported from a module under a name.
pub open spec fn imports<S>(
    plan: SplitModulePlan<S>,
    snapshot: MultiSnapshot,
    entity: FlatEntityRef,
    i: int,
    module: int,
    name: Seq<char>,
) -> bool {
    &&& 0 <= i < plan.static_imports@.len()
    &&& plan.static_imports@[i].0 == location_of(snapshot, entity)
    &&& plan.static_imports@[i].1.1.id() == module
    &&& plan.static_imports@[i].1.2@ == name
}

/// Every entity of a module is copied, or called through the table where a split point imports it.
/// It is exported if and only if other modules need it.
pub proof fn lemma_entities_are_copied_or_called<S>(
    plan: SplitModulePlan<S>,
    files: Seq<LoadedFile>,
    snapshot: MultiSnapshot,
    info: OutputModuleInfo,
    owners: SecondaryMap<FlatEntityRef, usize>,
    points: Seq<SplitPoint>,
    entity: FlatEntityRef,
)
    requires
        is_new_plan(plan, files, snapshot, info, owners, points),
        info.wf(),
        info.defined_symbols@.contains(entity),
    ensures
        (forall|k: int| 0 <= k < points.len() ==> (#[trigger] points[k]).import_func != entity)
            ==> exists|i: int, name: Option<Seq<char>>| #[trigger]
            copies(plan, entity, i, name) && (name is Some <==> info.exports@.contains(entity)),
        (exists|k: int| 0 <= k < points.len() && (#[trigger] points[k]).import_func == entity)
            ==> exists|i: int, name: Option<Seq<char>>| #[trigger]
            calls(plan, entity, i, name) && (name is Some <==> info.exports@.contains(entity)),
{
    let defined = info.defined_symbols.seq();
    lemma_import_number(points, entity);
    lemma_kept(defined, is_kept(points), entity);
    lemma_kept(defined, is_called(points), entity);
    if is_kept(points)(entity) {
        let flats = defined.filter(is_kept(points));
        let i = choose|i: int| 0 <= i < flats.len() && flats[i] == entity;
        assert(plan.entities@[i].0 == flats[i]);
        let name = match plan.entities@[i].1 {
            ExtraExport::AddExport(text) => Some(text@),
            ExtraExport::Nothing => None,
        };
        assert(copies(plan, entity, i, name));
    } else {
        let flats = defined.filter(is_called(points));
        let i = choose|i: int| 0 <= i < flats.len() && flats[i] == entity;
        let declared = plan.trampoline_fns->declared@;
        assert(is_declared_for(files, snapshot, info.exports@, flats[i], declared[i]));
        let name = match declared[i].extra {
            ExtraExport::AddExport(text) => Some(text@),
            ExtraExport::Nothing => None,
        };
        assert(calls(plan, entity, i, name));
    }
}

/// An entity is imported under the name that the module that defines it exports it under, from that
/// module.
pub proof fn lemma_imports_have_exports<S, T>(
    importing: SplitModulePlan<S>,
    exporting: SplitModulePlan<T>,
    files: Seq<LoadedFile>,
    snapshot: MultiSnapshot,
    importer: OutputModuleInfo,
    exporter: OutputModuleInfo,
    owners: SecondaryMap<FlatEntityRef, usize>,
    points: Seq<SplitPoint>,
    entity: FlatEntityRef,
)
    requires
        is_new_plan(importing, files, snapshot, importer, owners, points),
        is_new_plan(exporting, files, snapshot, exporter, owners, points),
        importer.wf(),
        exporter.wf(),
        importer.imports@.contains(entity),
        exporter.exports@.contains(entity),
        exporter.defined_symbols@.contains(entity),
    ensures
        exists|i: int, j: int, name: Seq<char>|
            {
                &&& #[trigger] imports(
                    importing,
                    snapshot,
                    entity,
                    i,
                    owners.value(entity.id() as nat) as int,
                    name,
                )
                &&& #[trigger] exports_under(exporting, entity, j, name)
            },
{
    let flats = importer.imports.seq();
    let i = choose|i: int| 0 <= i < flats.len() && flats[i] == entity;
    let import = importing.static_imports@[i];
    assert(is_import_for(files, snapshot, owners, flats[i], import));
    let name = import.1.2@;
    assert(imports(
        importing,
        snapshot,
        entity,
        i,
        owners.value(entity.id() as nat) as int,
        name,
    ));
    let defined = exporter.defined_symbols.seq();
    lemma_kept(defined, is_kept(points), entity);
    lemma_kept(defined, is_called(points), entity);
    if is_kept(points)(entity) {
        let kept = defined.filter(is_kept(points));
        let j = choose|j: int| 0 <= j < kept.len() && kept[j] == entity;
        assert(exporting.entities@[j].0 == kept[j]);
        assert(exports_under(exporting, entity, j, name));
    } else {
        let called = defined.filter(is_called(points));
        let j = choose|j: int| 0 <= j < called.len() && called[j] == entity;
        let declared = exporting.trampoline_fns->declared@;
        assert(is_declared_for(files, snapshot, exporter.exports@, called[j], declared[j]));
        assert(exports_under(exporting, entity, j, name));
    }
}

} // verus!
