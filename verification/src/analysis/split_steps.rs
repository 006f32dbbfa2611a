//! The steps of the plan for a module of a split program.
use crate::analysis::split_plan::{GotConverter, SplitModulePlan, StaticImport};
use crate::analysis::trampolines::{
    declare_trampoline, fill_error, is_declared, is_filled_module, Export, ExtraExport,
    IndirectFnLayout, TrampolineCreated, TrampolineDeclared, TrampolinesState,
};
use crate::emit::modify::abs_to_got::{has_room_for_got, start_error, AbsToGot, Artifact};
use crate::emit::modify::blacklist::IsSet;
use crate::emit::plan::definition::{
    AnyEntity, Merge, OutputPlan, PlanError, SourceInfo, TempEntityKind,
};
use crate::emit::plan::output::file_text;
use crate::emit::relocation::resolver::OutputEntitiesResolver;
use crate::emit::relocation::EntityLocation;
use crate::index::{Temp, TempIndex};
use crate::layouts::elements::{ElementInTable, ElementKind, ElementSegmentSpec};
use crate::layouts::SegmentPlacement;
use crate::text::{decimal, decimal_string};
use crate::typed::builder::{
    first_active_kind, has_indices, lemma_first_active_kind, BuilderExtra, ModuleBuilder,
};
use crate::typed::duplicate::Duplicate;
use crate::typed::entities::{DefinedEntity, ImportOrDefined, ImportedEntity};
use crate::typed::lookup::EntityType;
use crate::typed::module::Module;
use crate::typed::snapshot::FlatEntityRef;
use crate::typed::{EntityKind, FileId, GlobalRef, TableRef};
use vstd::prelude::*;
use vstd::string::StringExecFns;

verus! {

/// What the transformations of a plan leave behind.
#[derive(Debug)]
pub struct SplitModuleResult {
    pub abs_to_got_res: Artifact,
    /// The functions that fill entries of split points.
    pub sp_defined_exports: Vec<Export>,
}

impl Merge for SplitModuleResult {
    open spec fn is_new(self) -> bool {
        self.abs_to_got_res.is_new() && self.sp_defined_exports.is_new()
    }

    open spec fn is_merged(self, other: Self, merged: Self) -> bool {
        &&& self.abs_to_got_res.is_merged(other.abs_to_got_res, merged.abs_to_got_res)
        &&& self.sp_defined_exports.is_merged(other.sp_defined_exports, merged.sp_defined_exports)
    }

    fn new() -> (r: Self) {
        SplitModuleResult {
            abs_to_got_res: <Artifact as Merge>::new(),
            sp_defined_exports: <Vec<Export> as Merge>::new(),
        }
    }

    fn merge(&mut self, other: Self) {
        self.abs_to_got_res.merge(other.abs_to_got_res);
        self.sp_defined_exports.merge(other.sp_defined_exports);
    }
}

/// Whether an import is that of an entity of another output module.
pub open spec fn is_new_import<T: Duplicate>(
    import: ImportedEntity<T>,
    ty: T,
    file: FileId,
    name: Seq<char>,
) -> bool {
    &&& import.module@ == file_text(file)
    &&& import.name@ == name
    &&& ty.same_as(&import.entity_type)
    &&& import.export_as@.len() == 0
}

fn new_import<T: Duplicate>(ty: &T, file: FileId, name: &String) -> (r: ImportedEntity<T>)
    ensures
        is_new_import(r, *ty, file, name@),
{
    ImportedEntity {
        module: file.to_text(),
        name: name.clone(),
        entity_type: ty.duplicate(),
        export_as: Vec::new(),
    }
}

/// Whether a module has one more import, with a temporary index.
pub open spec fn is_static_import(
    before: ModuleBuilder,
    import: StaticImport,
    after: ModuleBuilder,
    temp: TempEntityKind,
) -> bool {
    let (file, name) = (import.1.1, import.1.2@);
    match (import.1.0, temp) {
        (EntityType::Function(ty), TempEntityKind::Function(id)) => {
            let entity = after.functions@.imports.last();
            &&& is_new_import(entity, ty, file, name)
            &&& id.kind() == before.functions@.next_kind(ImportOrDefined::Import(entity))
            &&& after.functions@ == before.functions@.with(ImportOrDefined::Import(entity))
            &&& after == (ModuleBuilder { functions: after.functions, ..before })
        },
        (EntityType::Global(ty), TempEntityKind::Global(id)) => {
            let entity = after.globals@.imports.last();
            &&& is_new_import(entity, ty, file, name)
            &&& id.kind() == before.globals@.next_kind(ImportOrDefined::Import(entity))
            &&& after.globals@ == before.globals@.with(ImportOrDefined::Import(entity))
            &&& after == (ModuleBuilder { globals: after.globals, ..before })
        },
        (EntityType::Table(ty), TempEntityKind::Table(id)) => {
            let entity = after.tables@.imports.last();
            &&& is_new_import(entity, ty, file, name)
            &&& id.kind() == before.tables@.next_kind(ImportOrDefined::Import(entity))
            &&& after.tables@ == before.tables@.with(ImportOrDefined::Import(entity))
            &&& after == (ModuleBuilder { tables: after.tables, ..before })
        },
        (EntityType::Memory(ty), TempEntityKind::Memory(id)) => {
            let entity = after.memories@.imports.last();
            &&& is_new_import(entity, ty, file, name)
            &&& id.kind() == before.memories@.next_kind(ImportOrDefined::Import(entity))
            &&& after.memories@ == before.memories@.with(ImportOrDefined::Import(entity))
            &&& after == (ModuleBuilder { memories: after.memories, ..before })
        },
        (EntityType::Tag(ty), TempEntityKind::Tag(id)) => {
            let entity = after.tags@.imports.last();
            &&& is_new_import(entity, ty, file, name)
            &&& id.kind() == before.tags@.next_kind(ImportOrDefined::Import(entity))
            &&& after.tags@ == before.tags@.with(ImportOrDefined::Import(entity))
            &&& after == (ModuleBuilder { tags: after.tags, ..before })
        },
        (EntityType::DataSymbol, TempEntityKind::DataSymbol(id)) => {
            let layout = after.extra.mem_layout;
            let entity = layout.items@.external.last();
            &&& is_new_import(entity, (), file, name)
            &&& id.kind() == before.extra.mem_layout.items@.next_kind(
                ImportOrDefined::External(entity),
            )
            &&& layout.items@ == before.extra.mem_layout.items@.with(
                ImportOrDefined::External(entity),
            )
            &&& layout.virtual_spaces@ == before.extra.mem_layout.virtual_spaces@
            &&& layout.segments@ == before.extra.mem_layout.segments@
            &&& after == (ModuleBuilder {
                extra: BuilderExtra { mem_layout: layout, ..before.extra },
                ..before
            })
        },
        _ => false,
    }
}

/// Whether a module has an index for one more import.
pub open spec fn has_import_room(module: ModuleBuilder, ty: EntityType) -> bool {
    match ty {
        EntityType::Function(_) => has_indices(module.functions@),
        EntityType::Global(_) => has_indices(module.globals@),
        EntityType::Table(_) => has_indices(module.tables@),
        EntityType::Memory(_) => has_indices(module.memories@),
        EntityType::Tag(_) => has_indices(module.tags@),
        EntityType::DataSymbol => has_indices(module.extra.mem_layout.items@),
    }
}

/// Adds an import to a module.
fn add_static_import(module: &mut ModuleBuilder, import: &StaticImport) -> (r: Result<
    TempEntityKind,
    PlanError,
>)
    ensures
        match r {
            Ok(temp) => has_import_room(*old(module), import.1.0) && is_static_import(
                *old(module),
                *import,
                *final(module),
                temp,
            ),
            Err(error) => error == PlanError::TooManyEntities && !has_import_room(
                *old(module),
                import.1.0,
            ) && *final(module) == *old(module),
        },
{
    let file = import.1.1;
    let name = &import.1.2;
    match &import.1.0 {
        EntityType::Function(ty) => {
            if !module.functions.is_small() {
                return Err(PlanError::TooManyEntities);
            }
            Ok(TempEntityKind::Function(module.functions.push_import(new_import(ty, file, name))))
        },
        EntityType::Global(ty) => {
            if !module.globals.is_small() {
                return Err(PlanError::TooManyEntities);
            }
            Ok(TempEntityKind::Global(module.globals.push_import(new_import(ty, file, name))))
        },
        EntityType::Table(ty) => {
            if !module.tables.is_small() {
                return Err(PlanError::TooManyEntities);
            }
            Ok(TempEntityKind::Table(module.tables.push_import(new_import(ty, file, name))))
        },
        EntityType::Memory(ty) => {
            if !module.memories.is_small() {
                return Err(PlanError::TooManyEntities);
            }
            Ok(TempEntityKind::Memory(module.memories.push_import(new_import(ty, file, name))))
        },
        EntityType::Tag(ty) => {
            if !module.tags.is_small() {
                return Err(PlanError::TooManyEntities);
            }
            Ok(TempEntityKind::Tag(module.tags.push_import(new_import(ty, file, name))))
        },
        EntityType::DataSymbol => {
            if !module.extra.mem_layout.items.is_small() {
                return Err(PlanError::TooManyEntities);
            }
            let temp = module.extra.mem_layout.push_import(new_import(&(), file, name));
            Ok(TempEntityKind::DataSymbol(temp))
        },
    }
}

/// Whether imports are added to a module one after the other.
pub open spec fn are_static_imports(
    imports: Seq<StaticImport>,
    states: Seq<ModuleBuilder>,
    refs: Seq<(EntityLocation, TempEntityKind)>,
) -> bool {
    &&& states.len() == refs.len() + 1
    &&& refs.len() <= imports.len()
    &&& forall|i: int|
        0 <= i < refs.len() ==> (#[trigger] refs[i]).0 == imports[i].0 && is_static_import(
            states[i],
            imports[i],
            states[i + 1],
            refs[i].1,
        )
}

/// Whether functions that call others through the table are added to a module one after the other.
pub open spec fn are_trampolines(
    declared: Seq<TrampolineDeclared>,
    states: Seq<ModuleBuilder>,
    created: Seq<TrampolineCreated>,
    refs: Seq<(EntityLocation, TempEntityKind)>,
) -> bool {
    &&& states.len() == created.len() + 1
    &&& refs.len() == created.len() <= declared.len()
    &&& forall|t: int|
        0 <= t < created.len() ==> is_declared(
            states[t],
            declared[t],
            states[t + 1],
            #[trigger] created[t],
        )
    &&& forall|t: int|
        0 <= t < refs.len() ==> #[trigger] refs[t] == (
            declared[t].src_location,
            TempEntityKind::Function(created[t].defined_func),
        )
}

/// Whether a module is another one with imports.
pub open spec fn has_static_imports(
    imports: Seq<StaticImport>,
    refs: Seq<(EntityLocation, TempEntityKind)>,
    before: ModuleBuilder,
    after: ModuleBuilder,
) -> bool {
    exists|states: Seq<ModuleBuilder>|
        {
            &&& #[trigger] are_static_imports(imports, states, refs)
            &&& states[0] == before
            &&& states.last() == after
        }
}

/// Whether a module is another one with functions that call others through the table.
pub open spec fn has_trampolines(
    declared: Seq<TrampolineDeclared>,
    created: Seq<TrampolineCreated>,
    refs: Seq<(EntityLocation, TempEntityKind)>,
    before: ModuleBuilder,
    after: ModuleBuilder,
) -> bool {
    exists|states: Seq<ModuleBuilder>|
        {
            &&& #[trigger] are_trampolines(declared, states, created, refs)
            &&& states[0] == before
            &&& states.last() == after
        }
}

/// Whether a module has no index for one of some imports.
pub open spec fn imports_full(imports: Seq<StaticImport>, module: ModuleBuilder) -> bool {
    exists|states: Seq<ModuleBuilder>, refs: Seq<(EntityLocation, TempEntityKind)>|
        {
            &&& #[trigger] are_static_imports(imports, states, refs)
            &&& states[0] == module
            &&& refs.len() < imports.len()
            &&& !has_import_room(states.last(), imports[refs.len() as int].1.0)
        }
}

/// Whether a module has no index for one of some functions that call others through the table.
pub open spec fn trampolines_full(declared: Seq<TrampolineDeclared>, module: ModuleBuilder) -> bool {
    exists|
        states: Seq<ModuleBuilder>,
        created: Seq<TrampolineCreated>,
        refs: Seq<(EntityLocation, TempEntityKind)>,
    |
        {
            &&& #[trigger] are_trampolines(declared, states, created, refs)
            &&& states[0] == module
            &&& created.len() < declared.len()
            &&& !has_indices(states.last().functions@)
        }
}

/// Adds all imports to a module.
fn add_static_imports(module: &mut ModuleBuilder, imports: &Vec<StaticImport>) -> (r: Result<
    Vec<(EntityLocation, TempEntityKind)>,
    PlanError,
>)
    ensures
        r matches Ok(refs) ==> refs@.len() == imports@.len(),
        r matches Ok(refs) ==> has_static_imports(imports@, refs@, *old(module), *final(module)),
        r matches Err(error) ==> error == PlanError::TooManyEntities && imports_full(
            imports@,
            *old(module),
        ),
{
    let mut refs: Vec<(EntityLocation, TempEntityKind)> = Vec::new();
    let ghost mut states: Seq<ModuleBuilder> = seq![*module];
    let mut i: usize = 0;
    while i < imports.len()
        invariant
            i <= imports@.len(),
            refs@.len() == i,
            are_static_imports(imports@, states, refs@),
            states[0] == *old(module),
            states.last() == *module,
        decreases imports@.len() - i,
    {
        let ghost before_states = states;
        let ghost before_refs = refs@;
        let temp = match add_static_import(module, &imports[i]) {
            Ok(temp) => temp,
            Err(error) => {
                proof {
                    assert(are_static_imports(imports@, states, refs@));
                    assert(!has_import_room(states.last(), imports@[refs@.len() as int].1.0));
                    assert(imports_full(imports@, *old(module)));
                }
                return Err(error);
            },
        };
        refs.push((imports[i].0, temp));
        proof {
            states = before_states.push(*module);
            assert forall|j: int| 0 <= j < refs@.len() implies (
            #[trigger] refs@[j]).0 == imports@[j].0 && is_static_import(
                states[j],
                imports@[j],
                states[j + 1],
                refs@[j].1,
            ) by {
                if j < i {
                    assert(refs@[j] == before_refs[j]);
                    assert(states[j] == before_states[j]);
                    assert(states[j + 1] == before_states[j + 1]);
                }
            }
        }
        i = i + 1;
    }
    assert(has_static_imports(imports@, refs@, *old(module), *module));
    Ok(refs)
}

/// Adds all functions that call others through the table to a module.
fn add_trampolines(module: &mut ModuleBuilder, declared: &Vec<TrampolineDeclared>) -> (r: Result<
    (Vec<TrampolineCreated>, Vec<(EntityLocation, TempEntityKind)>),
    PlanError,
>)
    ensures
        r matches Ok((created, _)) ==> created@.len() == declared@.len(),
        r matches Ok((created, refs)) ==> has_trampolines(
            declared@,
            created@,
            refs@,
            *old(module),
            *final(module),
        ),
        r matches Err(error) ==> error == PlanError::TooManyEntities && trampolines_full(
            declared@,
            *old(module),
        ),
{
    let mut created: Vec<TrampolineCreated> = Vec::new();
    let mut refs: Vec<(EntityLocation, TempEntityKind)> = Vec::new();
    let ghost mut states: Seq<ModuleBuilder> = seq![*module];
    let mut t: usize = 0;
    while t < declared.len()
        invariant
            t <= declared@.len(),
            created@.len() == t,
            are_trampolines(declared@, states, created@, refs@),
            states[0] == *old(module),
            states.last() == *module,
        decreases declared@.len() - t,
    {
        let ghost before_states = states;
        let ghost before_created = created@;
        let ghost before_refs = refs@;
        let trampoline = match declare_trampoline(&declared[t], module) {
            Ok(trampoline) => trampoline,
            Err(error) => {
                proof {
                    assert(are_trampolines(declared@, states, created@, refs@));
                    assert(trampolines_full(declared@, *old(module)));
                }
                return Err(error);
            },
        };
        created.push(trampoline);
        refs.push(
            (declared[t].src_location, TempEntityKind::Function(trampoline.defined_func)),
        );
        proof {
            states = before_states.push(*module);
            assert forall|u: int| 0 <= u < created@.len() implies is_declared(
                states[u],
                declared@[u],
                states[u + 1],
                #[trigger] created@[u],
            ) by {
                if u < t {
                    assert(created@[u] == before_created[u]);
                    assert(states[u] == before_states[u]);
                    assert(states[u + 1] == before_states[u + 1]);
                }
            }
            assert forall|u: int| 0 <= u < refs@.len() implies #[trigger] refs@[u] == (
                declared@[u].src_location,
                TempEntityKind::Function(created@[u].defined_func),
            ) by {
                if u < t {
                    assert(refs@[u] == before_refs[u]);
                    assert(created@[u] == before_created[u]);
                }
            }
        }
        t = t + 1;
    }
    assert(has_trampolines(declared@, created@, refs@, *old(module), *module));
    Ok((created, refs))
}

/// What setting up goes through: the modules while imports are added, and while functions that call
/// others through the table are added.
pub ghost struct SetupRun {
    pub imported: Seq<ModuleBuilder>,
    pub import_refs: Seq<(EntityLocation, TempEntityKind)>,
    pub called: Seq<ModuleBuilder>,
    pub call_refs: Seq<(EntityLocation, TempEntityKind)>,
}

/// Whether setting up makes a plan and a module ready for copying.
pub open spec fn is_setup_run<S: IsSet>(
    run: SetupRun,
    before: SplitModulePlan<S>,
    after: SplitModulePlan<S>,
    module: ModuleBuilder,
    done: ModuleBuilder,
) -> bool {
    &&& after.entities == before.entities
    &&& after.static_imports == before.static_imports
    &&& are_static_imports(before.static_imports@, run.imported, run.import_refs)
    &&& run.import_refs.len() == before.static_imports@.len()
    &&& run.imported[0] == module
    &&& match (before.is_main, after.is_main) {
        (GotConverter::Static, GotConverter::Static) => run.called[0] == run.imported.last(),
        (
            GotConverter::NotInitted { blacklist, main_layout, sp_exports },
            GotConverter::Initted { converter, main_layout: same_layout, sp_exports: same_exports },
        ) => {
            &&& converter.is_set_up(blacklist, run.imported.last(), run.called[0])
            &&& same_layout == main_layout
            &&& same_exports == sp_exports
        },
        _ => false,
    }
    &&& before.trampoline_fns matches TrampolinesState::Declared { declared }
    &&& after.trampoline_fns matches TrampolinesState::Created { created }
    &&& are_trampolines(declared@, run.called, created@, run.call_refs)
    &&& created@.len() == declared@.len()
    &&& run.called.last() == done
    &&& after.tmp_refs@ == before.tmp_refs@ + run.import_refs + run.call_refs
}

/// Whether a plan cannot be set up after its imports are added to a module.
pub open spec fn setup_stops<S: IsSet>(
    plan: SplitModulePlan<S>,
    imported: ModuleBuilder,
    error: PlanError,
) -> bool {
    match plan.is_main {
        GotConverter::Initted { .. } => error is WrongStep,
        GotConverter::Static => calls_stop(plan, imported, error),
        GotConverter::NotInitted { blacklist, .. } => {
            ||| error is TooManyEntities && imported.extra.got_info is Some && !has_room_for_got(
                imported,
            )
            ||| calls_stop_when_based(plan, blacklist, imported, error)
        },
    }
}

/// Whether a plan cannot be set up after a module was prepared for relative addresses.
pub open spec fn calls_stop_when_based<S: IsSet>(
    plan: SplitModulePlan<S>,
    blacklist: S,
    imported: ModuleBuilder,
    error: PlanError,
) -> bool {
    exists|converter: AbsToGot<S>, based: ModuleBuilder| #[trigger]
        converter.is_set_up(blacklist, imported, based) && calls_stop(plan, based, error)
}

/// Whether the functions of a plan that call others through the table cannot be added to a module.
pub open spec fn calls_stop<S: IsSet>(
    plan: SplitModulePlan<S>,
    module: ModuleBuilder,
    error: PlanError,
) -> bool {
    match plan.trampoline_fns {
        TrampolinesState::Created { .. } => error is WrongStep,
        TrampolinesState::Declared { declared } => error is TooManyEntities && trampolines_full(
            declared@,
            module,
        ),
    }
}

/// Whether an entity has one more export name.
pub open spec fn has_export<T, U>(
    before: ImportOrDefined<ImportedEntity<T>, DefinedEntity<U>>,
    name: String,
    after: ImportOrDefined<ImportedEntity<T>, DefinedEntity<U>>,
) -> bool {
    match (before, after) {
        (ImportOrDefined::Import(a), ImportOrDefined::Import(b)) => {
            &&& b == (ImportedEntity { export_as: b.export_as, ..a })
            &&& b.export_as@ == a.export_as@.push(name)
        },
        (ImportOrDefined::External(a), ImportOrDefined::External(b)) => {
            &&& b == (ImportedEntity { export_as: b.export_as, ..a })
            &&& b.export_as@ == a.export_as@.push(name)
        },
        (ImportOrDefined::Defined(a), ImportOrDefined::Defined(b)) => {
            &&& b == (DefinedEntity { export_as: b.export_as, ..a })
            &&& b.export_as@ == a.export_as@.push(name)
        },
        _ => false,
    }
}

fn add_export<T, U>(
    entity: &mut ImportOrDefined<ImportedEntity<T>, DefinedEntity<U>>,
    name: String,
)
    ensures
        has_export(*old(entity), name, *final(entity)),
{
    match entity {
        ImportOrDefined::Import(import) => import.export_as.push(name),
        ImportOrDefined::External(import) => import.export_as.push(name),
        ImportOrDefined::Defined(defined) => defined.export_as.push(name),
    }
}

/// Whether an entity has the export name that it needs.
pub open spec fn is_exported(before: AnyEntity, extra: ExtraExport, after: AnyEntity) -> bool {
    match extra {
        ExtraExport::Nothing => after == before,
        ExtraExport::AddExport(name) => match (before, after) {
            (
                AnyEntity::Function { new_ref: a, entity: e },
                AnyEntity::Function { new_ref: b, entity: f },
            ) => a == b && has_export(e, name, f),
            (
                AnyEntity::Global { new_ref: a, entity: e },
                AnyEntity::Global { new_ref: b, entity: f },
            ) => a == b && has_export(e, name, f),
            (
                AnyEntity::Table { new_ref: a, entity: e },
                AnyEntity::Table { new_ref: b, entity: f },
            ) => a == b && has_export(e, name, f),
            (
                AnyEntity::Memory { new_ref: a, entity: e },
                AnyEntity::Memory { new_ref: b, entity: f },
            ) => a == b && has_export(e, name, f),
            (
                AnyEntity::Tag { new_ref: a, entity: e },
                AnyEntity::Tag { new_ref: b, entity: f },
            ) => a == b && has_export(e, name, f),
            (
                AnyEntity::DataSymbol { new_ref: a, entity: e },
                AnyEntity::DataSymbol { new_ref: b, entity: f },
            ) => a == b && has_export(e, name, f),
            _ => false,
        },
    }
}

fn export_entity(entity: &mut AnyEntity, extra: ExtraExport)
    ensures
        is_exported(*old(entity), extra, *final(entity)),
        old(entity).same_place(*final(entity)),
{
    if let ExtraExport::AddExport(name) = extra {
        match entity {
            AnyEntity::Function { entity, .. } => add_export(entity, name),
            AnyEntity::Global { entity, .. } => add_export(entity, name),
            AnyEntity::Table { entity, .. } => add_export(entity, name),
            AnyEntity::Memory { entity, .. } => add_export(entity, name),
            AnyEntity::Tag { entity, .. } => add_export(entity, name),
            AnyEntity::DataSymbol { entity, .. } => add_export(entity, name),
        }
    }
}

/// The functions that fill entries of split points, given one copied entity.
pub open spec fn exports_for(
    layout: IndirectFnLayout,
    sp_exports: Seq<FlatEntityRef>,
    flat: FlatEntityRef,
    entity: AnyEntity,
) -> Seq<Export> {
    match entity {
        AnyEntity::Function { new_ref, .. } => if sp_exports.contains(flat) {
            seq![
                Export {
                    defined_ref: new_ref,
                    sp_index: layout.export_index(flat)->0 as usize,
                },
            ]
        } else {
            Seq::empty()
        },
        _ => Seq::empty(),
    }
}

fn contains_flat(flats: &Vec<FlatEntityRef>, flat: FlatEntityRef) -> (r: bool)
    ensures
        r == flats@.contains(flat),
{
    let mut i: usize = 0;
    while i < flats.len()
        invariant
            i <= flats@.len(),
            forall|j: int| 0 <= j < i ==> #[trigger] flats@[j] != flat,
        decreases flats@.len() - i,
    {
        if flats[i] == flat {
            return true;
        }
        i = i + 1;
    }
    false
}

/// Name of the segment that fills an entry.
pub open spec fn export_segment_name(sp_index: nat) -> Seq<char> {
    "export_init_"@ + decimal(sp_index)
}

/// Whether a module fills the entries of split points. Every entry has a virtual space of its own,
/// so that it stays in its place.
pub open spec fn are_entries_filled(
    before: ModuleBuilder,
    exports: Seq<Export>,
    after: ModuleBuilder,
) -> bool {
    let elements = after.extra.function_elements;
    let old_elements = before.extra.function_elements;
    let spaces = old_elements.virtual_spaces@;
    let segments = old_elements.segments@;
    &&& first_active_kind(spaces) matches Some(v)
    &&& after == (ModuleBuilder {
        extra: BuilderExtra { function_elements: elements, ..before.extra },
        ..before
    })
    &&& elements.virtual_spaces@.len() == spaces.len() + exports.len()
    &&& elements.virtual_spaces@.take(spaces.len() as int) == spaces
    &&& elements.segments@.len() == segments.len() + exports.len()
    &&& elements.segments@.take(segments.len() as int) == segments
    &&& elements.items@.len() == old_elements.items@.len() + exports.len()
    &&& elements.items@.take(old_elements.items@.len() as int) == old_elements.items@
    &&& forall|i: int|
        0 <= i < exports.len() ==> is_entry_filled(
            before,
            #[trigger] exports[i],
            spaces[v]->Active_table_ref,
            i,
            after,
        )
}

/// Whether a module fills the entry of a split point.
pub open spec fn is_entry_filled(
    before: ModuleBuilder,
    export: Export,
    table: Temp<TableRef>,
    i: int,
    after: ModuleBuilder,
) -> bool {
    let elements = after.extra.function_elements;
    let old_elements = before.extra.function_elements;
    let space = old_elements.virtual_spaces@.len() + i;
    let segment = old_elements.segments@.len() + i;
    let item = elements.items@[old_elements.items@.len() + i];
    &&& elements.virtual_spaces@[space] == ElementKind::<Temp<TableRef>, Temp<GlobalRef>>::Active {
        table_ref: table,
        location: SegmentPlacement::ConstantOffset(export.sp_index as u32),
    }
    &&& elements.segments@[segment].vs_id.id() == space
    &&& elements.segments@[segment].name@ == export_segment_name(export.sp_index as nat)
    &&& item.item == export.defined_ref
    &&& item.segment_id.id() == segment
}

/// Why a module cannot fill the entries of split points.
pub open spec fn export_error(module: ModuleBuilder, exports: Seq<Export>) -> Option<PlanError> {
    let elements = module.extra.function_elements;
    if elements.virtual_spaces@.len() + exports.len() >= u32::MAX || elements.segments@.len()
        + exports.len() >= u32::MAX {
        Some(PlanError::TooManyEntities)
    } else if first_active_kind(elements.virtual_spaces@) is None {
        Some(PlanError::NoIndirectSegment)
    } else {
        None
    }
}

/// Adds the segments that fill the entries of split points.
pub fn add_export_init_segment(module: &mut ModuleBuilder, sp_exports: &Vec<Export>) -> (r: Result<
    (),
    PlanError,
>)
    ensures
        match export_error(*old(module), sp_exports@) {
            Some(error) => r == Err::<(), _>(error) && *final(module) == *old(module),
            None => r is Ok && are_entries_filled(*old(module), sp_exports@, *final(module)),
        },
{
    let spaces: usize = module.extra.function_elements.virtual_spaces.len();
    let segments: usize = module.extra.function_elements.segments.len();
    if spaces as u128 + sp_exports.len() as u128 >= u32::MAX as u128 || segments as u128
        + sp_exports.len() as u128 >= u32::MAX as u128 {
        return Err(PlanError::TooManyEntities);
    }
    proof {
        lemma_first_active_kind(module.extra.function_elements.virtual_spaces@);
    }
    let vs = match module.extra.get_indirect_fn_vs() {
        Some(vs) => vs,
        None => {
            return Err(PlanError::NoIndirectSegment);
        },
    };
    let table_ref = match module.extra.function_elements.virtual_spaces.at(vs) {
        ElementKind::Active { table_ref, .. } => *table_ref,
        _ => {
            return Err(PlanError::NoIndirectSegment);
        },
    };
    let ghost before = *module;
    let ghost old_elements = module.extra.function_elements;
    let ghost exports = sp_exports@;
    let mut i: usize = 0;
    proof {
        assert(old_elements.virtual_spaces@.take(spaces as int) =~= old_elements.virtual_spaces@);
        assert(old_elements.segments@.take(segments as int) =~= old_elements.segments@);
        assert(old_elements.items@.take(old_elements.items@.len() as int) =~= old_elements.items@);
    }
    while i < sp_exports.len()
        invariant
            i <= exports.len(),
            exports == sp_exports@,
            before == *old(module),
            old_elements == before.extra.function_elements,
            spaces == old_elements.virtual_spaces@.len(),
            segments == old_elements.segments@.len(),
            spaces + exports.len() < u32::MAX,
            segments + exports.len() < u32::MAX,
            *module == (ModuleBuilder {
                extra: BuilderExtra {
                    function_elements: module.extra.function_elements,
                    ..before.extra
                },
                ..before
            }),
            module.extra.function_elements.virtual_spaces@.len() == spaces + i,
            module.extra.function_elements.virtual_spaces@.take(spaces as int)
                == old_elements.virtual_spaces@,
            module.extra.function_elements.segments@.len() == segments + i,
            module.extra.function_elements.segments@.take(segments as int)
                == old_elements.segments@,
            module.extra.function_elements.items@.len() == old_elements.items@.len() + i,
            module.extra.function_elements.items@.take(old_elements.items@.len() as int)
                == old_elements.items@,
            forall|j: int|
                0 <= j < i ==> is_entry_filled(before, #[trigger] exports[j], table_ref, j, *module),
        decreases exports.len() - i,
    {
        let export = sp_exports[i];
        let ghost earlier = *module;
        let space = ElementKind::Active {
            table_ref,
            location: SegmentPlacement::ConstantOffset(export.sp_index as u32),
        };
        let mut name = "export_init_".to_owned();
        name.append(decimal_string(export.sp_index as u64).as_str());
        let vs_id = module.extra.function_elements.virtual_spaces.push(space);
        let segment_id = module.extra.function_elements.segments.push(
            ElementSegmentSpec { vs_id, name },
        );
        module.extra.function_elements.items.push(
            ElementInTable { segment_id, item: export.defined_ref },
        );
        proof {
            let elements = module.extra.function_elements;
            assert(elements.virtual_spaces@.take(spaces as int)
                =~= earlier.extra.function_elements.virtual_spaces@.take(spaces as int));
            assert(elements.segments@.take(segments as int)
                =~= earlier.extra.function_elements.segments@.take(segments as int));
            assert(elements.items@.take(old_elements.items@.len() as int)
                =~= earlier.extra.function_elements.items@.take(old_elements.items@.len() as int));
            assert forall|j: int| 0 <= j < i + 1 implies is_entry_filled(
                before,
                #[trigger] exports[j],
                table_ref,
                j,
                *module,
            ) by {
                if j < i {
                    assert(is_entry_filled(before, exports[j], table_ref, j, earlier));
                }
            }
        }
        i = i + 1;
    }
    Ok(())
}

/// The entities that stand for entities of input files, with more of them.
pub open spec fn added_outputs(
    outputs: Map<EntityLocation, EntityKind>,
    refs: Seq<(EntityLocation, TempEntityKind)>,
    module: Module,
) -> Map<EntityLocation, EntityKind>
    decreases refs.len(),
{
    if refs.len() == 0 {
        outputs
    } else {
        added_outputs(outputs, refs.drop_last(), module).insert(
            refs.last().0,
            refs.last().1.stable(module),
        )
    }
}

/// Where entities come from, with more of them.
pub open spec fn added_sources(
    sources: Map<EntityKind, EntityLocation>,
    refs: Seq<(EntityLocation, TempEntityKind)>,
    module: Module,
) -> Map<EntityKind, EntityLocation>
    decreases refs.len(),
{
    if refs.len() == 0 {
        sources
    } else {
        added_sources(sources, refs.drop_last(), module).insert(
            refs.last().1.stable(module),
            refs.last().0,
        )
    }
}

/// Says which entities stand for entities of input files.
fn add_mappings(
    resolver: &mut OutputEntitiesResolver,
    refs: &Vec<(EntityLocation, TempEntityKind)>,
    module: &Module,
) -> (r: Result<(), PlanError>)
    requires
        module.extra.mem_layout.wf(),
        old(resolver).wf(),
    ensures
        final(resolver).wf(),
        match r {
            Ok(_) => {
                &&& forall|i: int| 0 <= i < refs@.len() ==> (#[trigger] refs@[i]).1.is_known(*module)
                &&& final(resolver).outputs() == added_outputs(
                    old(resolver).outputs(),
                    refs@,
                    *module,
                )
                &&& final(resolver).sources() == added_sources(
                    old(resolver).sources(),
                    refs@,
                    *module,
                )
            },
            Err(error) => error == PlanError::UnknownEntity && exists|i: int|
                0 <= i < refs@.len() && !(#[trigger] refs@[i]).1.is_known(*module),
        },
{
    let ghost all = refs@;
    let mut i: usize = 0;
    assert(all.take(0) =~= Seq::<(EntityLocation, TempEntityKind)>::empty());
    while i < refs.len()
        invariant
            i <= all.len(),
            all == refs@,
            module.extra.mem_layout.wf(),
            resolver.wf(),
            forall|j: int| 0 <= j < i ==> (#[trigger] all[j]).1.is_known(*module),
            resolver.outputs() == added_outputs(
                old(resolver).outputs(),
                all.take(i as int),
                *module,
            ),
            resolver.sources() == added_sources(
                old(resolver).sources(),
                all.take(i as int),
                *module,
            ),
        decreases all.len() - i,
    {
        let (location, temp) = refs[i];
        proof {
            assert(all.take(i + 1).drop_last() =~= all.take(i as int));
            assert(all.take(i + 1).last() == all[i as int]);
        }
        match temp.to_stable(module) {
            Some(entity) => resolver.add_entity_mapping(location, entity),
            None => {
                assert(!refs@[i as int].1.is_known(*module));
                return Err(PlanError::UnknownEntity);
            },
        }
        i = i + 1;
    }
    assert(all.take(i as int) =~= all);
    Ok(())
}

/// Whether the start function and the functions that call others through the table have their
/// bodies.
pub open spec fn is_finished_module<S: IsSet>(
    converter: AbsToGot<S>,
    main_layout: IndirectFnLayout,
    trampolines: TrampolinesState,
    artifacts: SplitModuleResult,
    outputs: Map<EntityLocation, EntityKind>,
    module: Module,
    started: Module,
    done: Module,
) -> bool {
    &&& converter.is_finished(module, started, outputs, artifacts.abs_to_got_res.1@, Ok(()))
    &&& fill_error(main_layout, trampolines, started) is None
    &&& is_filled_module(main_layout, trampolines, started, done)
}

impl<S: IsSet + Copy> OutputPlan for SplitModulePlan<S> {
    type Artifacts = SplitModuleResult;

    type ExtraData = ExtraExport;

    open spec fn valid(self) -> bool {
        self.is_main.valid()
    }

    open spec fn is_setup(before: Self, after: Self, module: ModuleBuilder, done: ModuleBuilder) -> bool {
        exists|run: SetupRun| #[trigger] is_setup_run(run, before, after, module, done)
    }

    open spec fn setup_refused(self, module: ModuleBuilder, error: PlanError) -> bool {
        ||| error is TooManyEntities && imports_full(self.static_imports@, module)
        ||| exists|refs: Seq<(EntityLocation, TempEntityKind)>, imported: ModuleBuilder| #[trigger]
            has_static_imports(self.static_imports@, refs, module, imported) && setup_stops(
                self,
                imported,
                error,
            )
    }

    fn setup(&mut self, module: &mut ModuleBuilder) -> (r: Result<(), PlanError>) {
        let ghost before = *self;
        let mut import_refs = add_static_imports(module, &self.static_imports)?;
        let ghost with_imports = *module;
        let ghost refs = import_refs@;
        let ghost imported = choose|states: Seq<ModuleBuilder>|
            {
                &&& #[trigger] are_static_imports(before.static_imports@, states, refs)
                &&& states[0] == *old(module)
                &&& states.last() == *module
            };
        self.tmp_refs.append(&mut import_refs);
        assert(has_static_imports(before.static_imports@, refs, *old(module), with_imports));
        let mut converter = GotConverter::Static;
        core::mem::swap(&mut converter, &mut self.is_main);
        match converter {
            GotConverter::Static => {},
            GotConverter::Initted { .. } => {
                assert(setup_stops(before, with_imports, PlanError::WrongStep));
                return Err(PlanError::WrongStep);
            },
            GotConverter::NotInitted { blacklist, main_layout, sp_exports } => {
                let converter = match AbsToGot::setup(blacklist, module) {
                    Ok(converter) => converter,
                    Err(error) => {
                        assert(setup_stops(before, with_imports, error));
                        return Err(error);
                    },
                };
                assert(converter.is_set_up(blacklist, with_imports, *module));
                self.is_main = GotConverter::Initted { converter, main_layout, sp_exports };
            },
        }
        let ghost ready = *module;
        let (created, mut call_refs) = match &self.trampoline_fns {
            TrampolinesState::Declared { declared } => match add_trampolines(module, declared) {
                Ok(result) => result,
                Err(error) => {
                    proof {
                        assert(calls_stop(before, ready, error));
                        assert(setup_stops(before, with_imports, error));
                    }
                    return Err(error);
                },
            },
            TrampolinesState::Created { .. } => {
                proof {
                    assert(calls_stop(before, ready, PlanError::WrongStep));
                    assert(setup_stops(before, with_imports, PlanError::WrongStep));
                }
                return Err(PlanError::WrongStep);
            },
        };
        let ghost last_refs = call_refs@;
        let ghost based = choose|states: Seq<ModuleBuilder>|
            {
                &&& #[trigger] are_trampolines(
                    before.trampoline_fns->declared@,
                    states,
                    created@,
                    last_refs,
                )
                &&& states.last() == *module
                &&& match (before.is_main, self.is_main) {
                    (GotConverter::Static, GotConverter::Static) => states[0] == imported.last(),
                    (
                        GotConverter::NotInitted { blacklist, .. },
                        GotConverter::Initted { converter, .. },
                    ) => converter.is_set_up(blacklist, imported.last(), states[0]),
                    _ => false,
                }
            };
        self.tmp_refs.append(&mut call_refs);
        self.trampoline_fns = TrampolinesState::Created { created };
        proof {
            let run = SetupRun {
                imported,
                import_refs: refs,
                called: based,
                call_refs: last_refs,
            };
            assert(is_setup_run(run, before, *self, *old(module), *module));
        }
        Ok(())
    }

    open spec fn entities(self) -> Seq<(FlatEntityRef, ExtraExport)> {
        self.entities@
    }

    fn entities_to_copy(&self) -> (r: Vec<(FlatEntityRef, ExtraExport)>) {
        let mut result: Vec<(FlatEntityRef, ExtraExport)> = Vec::new();
        let mut i: usize = 0;
        while i < self.entities.len()
            invariant
                i <= self.entities@.len(),
                result@ == self.entities@.take(i as int),
            decreases self.entities@.len() - i,
        {
            result.push((self.entities[i].0, self.entities[i].1.clone()));
            assert(result@ =~= self.entities@.take(i + 1));
            i = i + 1;
        }
        assert(self.entities@.take(i as int) =~= self.entities@);
        result
    }

    /// An entity gets the export name that it needs. In a position independent module its addresses
    /// are made relative, and the functions of split points are kept for the entries of the table.
    open spec fn is_transformed(
        self,
        source_info: SourceInfo<'_>,
        extra_data: ExtraExport,
        before: AnyEntity,
        after: AnyEntity,
        artifacts: SplitModuleResult,
    ) -> bool {
        exists|exported: AnyEntity| #[trigger]
            is_exported(before, extra_data, exported) && match self.is_main {
                GotConverter::Initted { converter, main_layout, sp_exports } => {
                    &&& converter.is_modified(
                        source_info,
                        exported,
                        after,
                        Ok(artifacts.abs_to_got_res),
                    )
                    &&& artifacts.sp_defined_exports@ == exports_for(
                        main_layout,
                        sp_exports@,
                        source_info.source_flat,
                        after,
                    )
                },
                _ => after == exported && artifacts.is_new(),
            }
    }

    /// An address cannot be made relative, or the entry of a function of a split point is not known.
    open spec fn transform_refused(
        self,
        source_info: SourceInfo<'_>,
        extra_data: ExtraExport,
        entity: AnyEntity,
        error: PlanError,
    ) -> bool {
        match self.is_main {
            GotConverter::Initted { converter, main_layout, sp_exports } => {
                ||| exists|exported: AnyEntity, after: AnyEntity|
                    is_exported(entity, extra_data, exported) && #[trigger] converter.is_modified(
                        source_info,
                        exported,
                        after,
                        Err(error),
                    )
                ||| error is UnknownEntity && entity is Function && sp_exports@.contains(
                    source_info.source_flat,
                ) && main_layout.export_index(source_info.source_flat) is None
            },
            _ => false,
        }
    }

    fn transform(
        &self,
        source_info: SourceInfo<'_>,
        entity: &mut AnyEntity,
        extra_data: ExtraExport,
    ) -> (r: Result<SplitModuleResult, PlanError>) {
        export_entity(entity, extra_data);
        let ghost exported = *entity;
        match &self.is_main {
            GotConverter::Initted { converter, main_layout, sp_exports } => {
                let abs_to_got_res = match converter.modify_entity(source_info, entity) {
                    Ok(result) => result,
                    Err(error) => {
                        assert(converter.is_modified(source_info, exported, *entity, Err(error)));
                        return Err(error);
                    },
                };
                let mut sp_defined_exports: Vec<Export> = Vec::new();
                if let AnyEntity::Function { new_ref, .. } = entity {
                    if contains_flat(sp_exports, source_info.source_flat) {
                        match main_layout.find_export_fn(source_info.source_flat) {
                            Some(sp_index) => sp_defined_exports.push(
                                Export { defined_ref: *new_ref, sp_index },
                            ),
                            None => {
                                return Err(PlanError::UnknownEntity);
                            },
                        }
                    }
                }
                proof {
                    assert(is_exported(*old(entity), extra_data, exported));
                    assert(sp_defined_exports@ =~= exports_for(
                        *main_layout,
                        sp_exports@,
                        source_info.source_flat,
                        *entity,
                    ));
                }
                Ok(SplitModuleResult { abs_to_got_res, sp_defined_exports })
            },
            _ => {
                assert(is_exported(*old(entity), extra_data, exported));
                Ok(SplitModuleResult::new())
            },
        }
    }

    open spec fn is_prepared(
        before: Self,
        after: Self,
        artifacts: SplitModuleResult,
        module: ModuleBuilder,
        done: ModuleBuilder,
    ) -> bool {
        &&& after == before
        &&& are_entries_filled(module, artifacts.sp_defined_exports@, done)
    }

    open spec fn prepare_refused(
        self,
        artifacts: SplitModuleResult,
        module: ModuleBuilder,
        error: PlanError,
    ) -> bool {
        export_error(module, artifacts.sp_defined_exports@) == Some(error)
    }

    fn before_lock(
        &mut self,
        module: &mut ModuleBuilder,
        aggregated_data: &SplitModuleResult,
    ) -> (r: Result<(), PlanError>) {
        add_export_init_segment(module, &aggregated_data.sp_defined_exports)
    }

    open spec fn is_finished(
        before: Self,
        after: Self,
        artifacts: SplitModuleResult,
        module: Module,
        done: Module,
        resolver: OutputEntitiesResolver,
        done_resolver: OutputEntitiesResolver,
    ) -> bool {
        &&& after == before
        &&& done_resolver.outputs() == added_outputs(resolver.outputs(), before.tmp_refs@, module)
        &&& done_resolver.sources() == added_sources(resolver.sources(), before.tmp_refs@, module)
        &&& match before.is_main {
            GotConverter::Static => done == module,
            GotConverter::Initted { converter, main_layout, .. } => exists|started: Module|
                #[trigger] is_finished_module(
                    converter,
                    main_layout,
                    before.trampoline_fns,
                    artifacts,
                    done_resolver.outputs(),
                    module,
                    started,
                    done,
                ),
            GotConverter::NotInitted { .. } => false,
        }
    }

    /// An entity has no final index, or the start function or a function that calls another one
    /// through the table cannot have its body.
    open spec fn finish_refused(
        self,
        artifacts: SplitModuleResult,
        module: Module,
        resolver: OutputEntitiesResolver,
        error: PlanError,
    ) -> bool {
        let outputs = added_outputs(resolver.outputs(), self.tmp_refs@, module);
        ||| error is UnknownEntity && exists|i: int|
            0 <= i < self.tmp_refs@.len() && !(#[trigger] self.tmp_refs@[i]).1.is_known(module)
        ||| match self.is_main {
            GotConverter::Static => false,
            GotConverter::NotInitted { .. } => error is WrongStep,
            GotConverter::Initted { converter, main_layout, .. } => {
                ||| (converter.data_modifier matches Some(data) && start_error(
                    data,
                    module,
                    outputs,
                    artifacts.abs_to_got_res.1@,
                ) == Some(error))
                ||| exists|started: Module| #[trigger]
                    converter.is_finished(
                        module,
                        started,
                        outputs,
                        artifacts.abs_to_got_res.1@,
                        Ok(()),
                    ) && fill_error(main_layout, self.trampoline_fns, started) == Some(error)
            },
        }
    }

    fn finish(
        &mut self,
        module: &mut Module,
        aggregated_data: SplitModuleResult,
        resolver: &mut OutputEntitiesResolver,
    ) -> (r: Result<(), PlanError>) {
        add_mappings(resolver, &self.tmp_refs, module)?;
        match &self.is_main {
            GotConverter::Static => Ok(()),
            GotConverter::Initted { converter, main_layout, .. } => {
                let ghost before = *module;
                let ghost temps = aggregated_data.abs_to_got_res.1@;
                converter.finish(module, resolver, aggregated_data.abs_to_got_res)?;
                let ghost started = *module;
                assert(converter.is_finished(before, started, resolver.outputs(), temps, Ok(())));
                main_layout.fill_trampolines(&self.trampoline_fns, module)?;
                assert(is_finished_module(
                    *converter,
                    *main_layout,
                    self.trampoline_fns,
                    aggregated_data,
                    resolver.outputs(),
                    before,
                    started,
                    *module,
                ));
                Ok(())
            },
            GotConverter::NotInitted { .. } => Err(PlanError::WrongStep),
        }
    }
}

} // verus!
