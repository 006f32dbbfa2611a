//! What the steps of the plans of a split program do to its modules.
use crate::analysis::split_plan::StaticImport;
use crate::analysis::split_steps::{
    added_outputs, added_sources, are_static_imports, has_export, has_static_imports, is_exported,
    is_static_import,
};
use crate::analysis::trampolines::ExtraExport;
use crate::emit::plan::definition::{AnyEntity, TempEntityKind};
use crate::emit::plan::output::file_text;
use crate::emit::relocation::EntityLocation;
use crate::index::TempKind;
use crate::typed::builder::ModuleBuilder;
use crate::typed::entities::{DefinedEntity, ImportOrDefined, ImportedEntity};
use crate::typed::module::Module;
use crate::typed::EntityKind;
use vstd::prelude::*;

verus! {

/// The module and the name of an import, by its number.
pub open spec fn import_at<T>(imports: Seq<ImportedEntity<T>>, k: u32) -> Option<
    (Seq<char>, Seq<char>),
> {
    if k < imports.len() {
        Some((imports[k as int].module@, imports[k as int].name@))
    } else {
        None
    }
}

/// The module and the name that an entity is imported from and under. Data is external.
pub open spec fn import_of(module: ModuleBuilder, entity: TempEntityKind) -> Option<
    (Seq<char>, Seq<char>),
> {
    match entity {
        TempEntityKind::Function(id) => match id.kind() {
            TempKind::Import(k) => import_at(module.functions@.imports, k),
            _ => None,
        },
        TempEntityKind::Global(id) => match id.kind() {
            TempKind::Import(k) => import_at(module.globals@.imports, k),
            _ => None,
        },
        TempEntityKind::Table(id) => match id.kind() {
            TempKind::Import(k) => import_at(module.tables@.imports, k),
            _ => None,
        },
        TempEntityKind::Memory(id) => match id.kind() {
            TempKind::Import(k) => import_at(module.memories@.imports, k),
            _ => None,
        },
        TempEntityKind::Tag(id) => match id.kind() {
            TempKind::Import(k) => import_at(module.tags@.imports, k),
            _ => None,
        },
        TempEntityKind::DataSymbol(id) => match id.kind() {
            TempKind::External(k) => import_at(module.extra.mem_layout.items@.external, k),
            _ => None,
        },
    }
}

/// Whether an import can be found by its number.
spec fn has_room(module: ModuleBuilder) -> bool {
    &&& module.functions@.imports.len() < u32::MAX
    &&& module.globals@.imports.len() < u32::MAX
    &&& module.tables@.imports.len() < u32::MAX
    &&& module.memories@.imports.len() < u32::MAX
    &&& module.tags@.imports.len() < u32::MAX
    &&& module.extra.mem_layout.items@.external.len() < u32::MAX
}

proof fn lemma_step(
    before: ModuleBuilder,
    import: StaticImport,
    after: ModuleBuilder,
    temp: TempEntityKind,
    other: TempEntityKind,
)
    requires
        is_static_import(before, import, after, temp),
        has_room(before),
    ensures
        import_of(after, temp) == Some((file_text(import.1.1), import.1.2@)),
        import_of(before, other) is Some ==> import_of(after, other) == import_of(before, other),
{
}

proof fn lemma_states(
    imports: Seq<StaticImport>,
    states: Seq<ModuleBuilder>,
    refs: Seq<(EntityLocation, TempEntityKind)>,
    i: int,
    t: int,
)
    requires
        are_static_imports(imports, states, refs),
        0 <= i < t <= refs.len(),
        forall|s: int| 0 <= s < states.len() ==> has_room(#[trigger] states[s]),
    ensures
        import_of(states[t], refs[i].1) == Some((file_text(imports[i].1.1), imports[i].1.2@)),
    decreases t,
{
    assert(refs[t - 1].0 == imports[t - 1].0);
    assert(is_static_import(states[t - 1], imports[t - 1], states[t - 1 + 1], refs[t - 1].1));
    lemma_step(states[t - 1], imports[t - 1], states[t], refs[t - 1].1, refs[i].1);
    if i < t - 1 {
        lemma_states(imports, states, refs, i, t - 1);
    }
}

/// Every entity of another module is imported from that module, under its name, and stands for the
/// entity of the input files.
pub proof fn lemma_entities_of_other_modules_are_imported(
    imports: Seq<StaticImport>,
    refs: Seq<(EntityLocation, TempEntityKind)>,
    before: ModuleBuilder,
    after: ModuleBuilder,
    i: int,
)
    requires
        has_static_imports(imports, refs, before, after),
        0 <= i < refs.len(),
        after.functions@.imports.len() < u32::MAX,
        after.globals@.imports.len() < u32::MAX,
        after.tables@.imports.len() < u32::MAX,
        after.memories@.imports.len() < u32::MAX,
        after.tags@.imports.len() < u32::MAX,
        after.extra.mem_layout.items@.external.len() < u32::MAX,
    ensures
        refs[i].0 == imports[i].0,
        import_of(after, refs[i].1) == Some((file_text(imports[i].1.1), imports[i].1.2@)),
{
    let states = choose|states: Seq<ModuleBuilder>|
        {
            &&& #[trigger] are_static_imports(imports, states, refs)
            &&& states[0] == before
            &&& states.last() == after
        };
    assert forall|s: int| 0 <= s < states.len() implies has_room(#[trigger] states[s]) by {
        lemma_rooms(imports, states, refs, s);
    }
    lemma_states(imports, states, refs, i, refs.len() as int);
}

proof fn lemma_rooms(
    imports: Seq<StaticImport>,
    states: Seq<ModuleBuilder>,
    refs: Seq<(EntityLocation, TempEntityKind)>,
    s: int,
)
    requires
        are_static_imports(imports, states, refs),
        0 <= s < states.len(),
        has_room(states.last()),
    ensures
        has_room(states[s]),
    decreases states.len() - s,
{
    if s < states.len() - 1 {
        lemma_rooms(imports, states, refs, s + 1);
        assert(refs[s].0 == imports[s].0);
        assert(is_static_import(states[s], imports[s], states[s + 1], refs[s].1));
    }
}

/// An entity of an input file is found under its final index, which leads back to it, as long as
/// nothing else is entered for the same place or the same index later. What was known of other
/// places stays.
pub proof fn lemma_mappings_are_added(
    outputs: Map<EntityLocation, EntityKind>,
    sources: Map<EntityKind, EntityLocation>,
    refs: Seq<(EntityLocation, TempEntityKind)>,
    module: Module,
    i: int,
    other: EntityLocation,
)
    requires
        0 <= i < refs.len(),
        forall|j: int| i < j < refs.len() ==> (#[trigger] refs[j]).0 != refs[i].0,
        forall|j: int|
            i < j < refs.len() ==> (#[trigger] refs[j]).1.stable(module) != refs[i].1.stable(module),
    ensures
        added_outputs(outputs, refs, module).contains_key(refs[i].0),
        added_outputs(outputs, refs, module)[refs[i].0] == refs[i].1.stable(module),
        added_sources(sources, refs, module).contains_key(refs[i].1.stable(module)),
        added_sources(sources, refs, module)[refs[i].1.stable(module)] == refs[i].0,
        (forall|j: int| 0 <= j < refs.len() ==> (#[trigger] refs[j]).0 != other)
            ==> added_outputs(outputs, refs, module).contains_key(other) == outputs.contains_key(
            other,
        ) && (outputs.contains_key(other) ==> added_outputs(outputs, refs, module)[other]
            == outputs[other]),
    decreases refs.len(),
{
    let init = refs.drop_last();
    lemma_others(outputs, refs, module, other);
    if i < refs.len() - 1 {
        assert forall|j: int| i < j < init.len() implies (#[trigger] init[j]).0 != init[i].0
            && init[j].1.stable(module) != init[i].1.stable(module) by {
            assert(refs[j].0 != refs[i].0);
        }
        lemma_mappings_are_added(outputs, sources, init, module, i, other);
        assert(refs[refs.len() - 1].0 != refs[i].0);
    }
}

proof fn lemma_others(
    outputs: Map<EntityLocation, EntityKind>,
    refs: Seq<(EntityLocation, TempEntityKind)>,
    module: Module,
    other: EntityLocation,
)
    ensures
        (forall|j: int| 0 <= j < refs.len() ==> (#[trigger] refs[j]).0 != other)
            ==> added_outputs(outputs, refs, module).contains_key(other) == outputs.contains_key(
            other,
        ) && (outputs.contains_key(other) ==> added_outputs(outputs, refs, module)[other]
            == outputs[other]),
    decreases refs.len(),
{
    if refs.len() > 0 {
        lemma_others(outputs, refs.drop_last(), module, other);
        if forall|j: int| 0 <= j < refs.len() ==> (#[trigger] refs[j]).0 != other {
            assert(refs[refs.len() - 1].0 != other);
            assert forall|j: int| 0 <= j < refs.drop_last().len() implies (
            #[trigger] refs.drop_last()[j]).0 != other by {
                assert(refs[j].0 != other);
            }
        }
    }
}

/// The names that an entity is exported under.
pub open spec fn names_of<T, U>(
    entity: ImportOrDefined<ImportedEntity<T>, DefinedEntity<U>>,
) -> Seq<String> {
    match entity {
        ImportOrDefined::Import(import) => import.export_as@,
        ImportOrDefined::External(import) => import.export_as@,
        ImportOrDefined::Defined(defined) => defined.export_as@,
    }
}

/// An entity that gets an export name keeps those that it had.
pub proof fn lemma_export_is_added<T, U>(
    before: ImportOrDefined<ImportedEntity<T>, DefinedEntity<U>>,
    name: String,
    after: ImportOrDefined<ImportedEntity<T>, DefinedEntity<U>>,
)
    requires
        has_export(before, name, after),
    ensures
        names_of(after) == names_of(before).push(name),
        names_of(after).contains(name),
        before is Import == after is Import,
        before is Defined == after is Defined,
{
    assert(names_of(after).last() == name);
}

/// A function that other modules need is exported under its name, and other functions stay as they
/// are.
pub proof fn lemma_needed_functions_are_exported(
    before: AnyEntity,
    extra: ExtraExport,
    after: AnyEntity,
)
    requires
        is_exported(before, extra, after),
        before is Function,
    ensures
        after is Function,
        after->Function_new_ref == before->Function_new_ref,
        match extra {
            ExtraExport::AddExport(name) => names_of(after->Function_entity).contains(name),
            ExtraExport::Nothing => after == before,
        },
{
    if let ExtraExport::AddExport(name) = extra {
        lemma_export_is_added(before->Function_entity, name, after->Function_entity);
    }
}

} // verus!
