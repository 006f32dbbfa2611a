//! Copies of entities of input files.
use crate::emit::copy_relocs::file_relocs;
use crate::emit::plan::definition::{
    AnyEntity, Merge, OutputPlan, PlanError, SourceInfo, TempEntityKind,
};
use crate::emit::relocation::EntityLocation;
use crate::index::{lemma_kind_injective, TempIndex};
use crate::layouts::data::sealed::MemLayoutSealed;
use crate::layouts::data::{DataSymbolRef, DefinedDataChunk, ImportedDataChunk};
use crate::linkage::reloc::EntityRelocationEntry;
use crate::typed::builder::{has_indices, BuilderExtra, ModuleBuilder};
use crate::typed::duplicate::same_entity;
use crate::typed::entities::{CollectionView, EntityCollection, ImportOrDefined};
use crate::typed::file_loader::{snapshots, FileLoader, LoadedFile};
use crate::typed::module::Module;
use crate::typed::snapshot::{files_total, EntitiesSnapshot, FlatEntityRef, MultiSnapshot};
use crate::typed::{EntityKind, FileId};
use vstd::prelude::*;

verus! {

/// A data symbol of a layout.
pub open spec fn data_entity(layout: MemLayoutSealed, data: DataSymbolRef) -> ImportOrDefined<
    ImportedDataChunk,
    DefinedDataChunk,
> {
    if layout.is_external_ref(data) {
        ImportOrDefined::External(layout.external@[data.id() - layout.external.start_spec().id()])
    } else {
        ImportOrDefined::Defined(layout.chunk_at(layout.defined.lookup(data)->0))
    }
}

/// Whether a file has the entities that its snapshot counts, and its parts are well formed.
pub open spec fn file_valid(file: LoadedFile) -> bool {
    let layout = file.module.extra.mem_layout;
    &&& file.snapshot.fits()
    &&& file.relocs.wf()
    &&& layout.wf()
    &&& file.snapshot.functions <= file.module.functions@.len()
    &&& file.snapshot.globals <= file.module.globals@.len()
    &&& file.snapshot.tables <= file.module.tables@.len()
    &&& file.snapshot.memories <= file.module.memories@.len()
    &&& file.snapshot.tags <= file.module.tags@.len()
    &&& forall|data: DataSymbolRef|
        #![trigger layout.defined.lookup(data)]
        data.id() < file.snapshot.data_symbols ==> layout.is_external_ref(data)
            || layout.defined.lookup(data) is Some
}

/// Whether all files have the entities that their snapshots count, and these have indices.
pub open spec fn files_valid(files: Seq<LoadedFile>) -> bool {
    &&& forall|f: int| 0 <= f < files.len() ==> file_valid(#[trigger] files[f])
    &&& files_total(snapshots(files)) < u32::MAX
    &&& files.len() < u32::MAX
}

fn has_entities<Idx: TempIndex, I, D>(all: &EntityCollection<Idx, I, D>, count: u32) -> (r: bool)
    ensures
        r == (count <= all@.len()),
{
    count as u128 <= all.imports().len() as u128 + all.defined().len() as u128
        + all.external().len() as u128
}

fn check_data(layout: &MemLayoutSealed, count: u32) -> (r: bool)
    requires
        layout.wf(),
    ensures
        r == forall|data: DataSymbolRef|
            #![trigger layout.defined.lookup(data)]
            data.id() < count ==> layout.is_external_ref(data) || layout.defined.lookup(data)
                is Some,
{
    let start: u64 = layout.external.start().as_u32() as u64;
    let end: u128 = start as u128 + layout.external.len() as u128;
    let mut i: u32 = 0;
    while i < count
        invariant
            i <= count,
            layout.wf(),
            start == layout.external.start_spec().id(),
            end == start + layout.external@.len(),
            forall|data: DataSymbolRef|
                #![trigger layout.defined.lookup(data)]
                data.id() < i ==> layout.is_external_ref(data) || layout.defined.lookup(data)
                    is Some,
        decreases count - i,
    {
        let data = DataSymbolRef::from_raw(i);
        let is_external = start <= i as u64 && (i as u128) < end;
        if !is_external && layout.defined.get(data).is_none() {
            assert(layout.defined.lookup(data) is None);
            return false;
        }
        proof {
            assert forall|other: DataSymbolRef| #![trigger layout.defined.lookup(other)] other.id()
                < i + 1 implies layout.is_external_ref(other) || layout.defined.lookup(other)
                is Some by {
                if other.id() == i {
                    DataSymbolRef::lemma_id_injective(other, data);
                }
            }
        }
        i = i + 1;
    }
    true
}

/// Whether a file has the entities that its snapshot counts.
pub fn check_file(file: &LoadedFile) -> (r: bool)
    requires
        file.relocs.wf(),
        file.module.extra.mem_layout.wf(),
    ensures
        r == file_valid(*file),
{
    let counts = &file.snapshot;
    let total: u64 = counts.functions as u64 + counts.globals as u64 + counts.tables as u64
        + counts.memories as u64 + counts.tags as u64 + counts.data_symbols as u64
        + counts.types as u64;
    total < u32::MAX as u64 && has_entities(&file.module.functions, counts.functions)
        && has_entities(&file.module.globals, counts.globals) && has_entities(
        &file.module.tables,
        counts.tables,
    ) && has_entities(&file.module.memories, counts.memories) && has_entities(
        &file.module.tags,
        counts.tags,
    ) && check_data(&file.module.extra.mem_layout, counts.data_symbols)
}

/// Whether all files have the entities that their snapshots count, and these have indices.
pub fn check_files(input_files: &FileLoader) -> (r: bool)
    requires
        forall|f: int|
            0 <= f < input_files@.len() ==> (#[trigger] input_files@[f]).relocs.wf()
                && input_files@[f].module.extra.mem_layout.wf(),
    ensures
        r == files_valid(input_files@),
{
    let ghost all = input_files@;
    if input_files.len() >= u32::MAX as usize {
        return false;
    }
    let mut total: u64 = 0;
    let mut f: usize = 0;
    assert(snapshots(all).take(0) =~= Seq::<EntitiesSnapshot>::empty());
    while f < input_files.len()
        invariant
            f <= all.len() < u32::MAX,
            all == input_files@,
            forall|f: int|
                0 <= f < all.len() ==> (#[trigger] all[f]).relocs.wf()
                    && all[f].module.extra.mem_layout.wf(),
            forall|g: int| 0 <= g < f ==> file_valid(#[trigger] all[g]),
            total <= f * u32::MAX,
            total == files_total(snapshots(all).take(f as int)),
        decreases all.len() - f,
    {
        let file = input_files.get_file(FileId::from_u32(f as u32));
        assert(all[f as int].relocs.wf());
        if !check_file(file) {
            assert(!file_valid(all[f as int]));
            return false;
        }
        let counts = &file.snapshot;
        let ghost shots = snapshots(all);
        proof {
            assert(shots.take(f + 1).drop_last() =~= shots.take(f as int));
            assert(shots.take(f + 1).last() == all[f as int].snapshot);
            assert(f * u32::MAX + u32::MAX == (f + 1) * u32::MAX) by (nonlinear_arith);
            assert(f * u32::MAX <= u32::MAX * u32::MAX) by (nonlinear_arith)
                requires
                    f < u32::MAX,
            ;
        }
        total = total + (counts.functions as u64 + counts.globals as u64 + counts.tables as u64
            + counts.memories as u64 + counts.tags as u64 + counts.data_symbols as u64
            + counts.types as u64);
        f = f + 1;
    }
    assert(snapshots(all).take(f as int) =~= snapshots(all));
    total < u32::MAX as u64
}

/// Whether an entity is a copy of an entity of a file, with the index that it gets in a module.
pub open spec fn is_source(
    source: Module,
    kind: EntityKind,
    module: ModuleBuilder,
    copy: AnyEntity,
) -> bool {
    match (kind, copy) {
        (EntityKind::Function(f), AnyEntity::Function { new_ref, entity }) => {
            &&& same_entity(source.functions@.entity(f.id() as int), entity)
            &&& new_ref.kind() == module.functions@.next_kind(entity)
        },
        (EntityKind::Global(g), AnyEntity::Global { new_ref, entity }) => {
            &&& same_entity(source.globals@.entity(g.id() as int), entity)
            &&& new_ref.kind() == module.globals@.next_kind(entity)
        },
        (EntityKind::Table(t), AnyEntity::Table { new_ref, entity }) => {
            &&& same_entity(source.tables@.entity(t.id() as int), entity)
            &&& new_ref.kind() == module.tables@.next_kind(entity)
        },
        (EntityKind::Memory(m), AnyEntity::Memory { new_ref, entity }) => {
            &&& same_entity(source.memories@.entity(m.id() as int), entity)
            &&& new_ref.kind() == module.memories@.next_kind(entity)
        },
        (EntityKind::Tag(t), AnyEntity::Tag { new_ref, entity }) => {
            &&& same_entity(source.tags@.entity(t.id() as int), entity)
            &&& new_ref.kind() == module.tags@.next_kind(entity)
        },
        (EntityKind::DataSymbol(d), AnyEntity::DataSymbol { new_ref, entity }) => {
            &&& same_entity(data_entity(source.extra.mem_layout, d), entity)
            &&& new_ref.kind() == module.extra.mem_layout.items@.next_kind(entity)
        },
        _ => false,
    }
}

/// Why one more entity of a kind cannot be copied.
pub open spec fn group_error<I, D>(
    entity: ImportOrDefined<I, D>,
    all: CollectionView<I, D>,
) -> Option<PlanError> {
    if entity is External {
        Some(PlanError::ExternalEntity)
    } else if !has_indices(all) {
        Some(PlanError::TooManyEntities)
    } else {
        None
    }
}

/// Why an entity of a file cannot be copied into a module.
pub open spec fn copy_error(source: Module, kind: EntityKind, module: ModuleBuilder) -> Option<
    PlanError,
> {
    match kind {
        EntityKind::Function(f) => group_error(
            source.functions@.entity(f.id() as int),
            module.functions@,
        ),
        EntityKind::Global(g) => group_error(
            source.globals@.entity(g.id() as int),
            module.globals@,
        ),
        EntityKind::Table(t) => group_error(source.tables@.entity(t.id() as int), module.tables@),
        EntityKind::Memory(m) => group_error(
            source.memories@.entity(m.id() as int),
            module.memories@,
        ),
        EntityKind::Tag(t) => group_error(source.tags@.entity(t.id() as int), module.tags@),
        EntityKind::DataSymbol(d) => group_error(
            data_entity(source.extra.mem_layout, d),
            module.extra.mem_layout.items@,
        ),
        EntityKind::Type(_) => None,
    }
}

/// A copy of an entity of a file, with the index that it gets in a module.
pub fn copy_source(file: &LoadedFile, kind: EntityKind, module: &ModuleBuilder) -> (r: Result<
    AnyEntity,
    PlanError,
>)
    requires
        file_valid(*file),
        file.snapshot.has(kind),
        !(kind is Type),
    ensures
        match copy_error(file.module, kind, *module) {
            Some(error) => r matches Err(e) && e == error,
            None => r matches Ok(copy) && is_source(file.module, kind, *module, copy),
        },
{
    match kind {
        EntityKind::Function(f) => {
            let entity = file.module.functions.get_entity(f).cloned();
            if entity.is_external() {
                return Err(PlanError::ExternalEntity);
            }
            if !module.functions.is_small() {
                return Err(PlanError::TooManyEntities);
            }
            let new_ref = module.functions.dry_push_entity(&entity);
            Ok(AnyEntity::Function { new_ref, entity })
        },
        EntityKind::Global(g) => {
            let entity = file.module.globals.get_entity(g).cloned();
            if entity.is_external() {
                return Err(PlanError::ExternalEntity);
            }
            if !module.globals.is_small() {
                return Err(PlanError::TooManyEntities);
            }
            let new_ref = module.globals.dry_push_entity(&entity);
            Ok(AnyEntity::Global { new_ref, entity })
        },
        EntityKind::Table(t) => {
            let entity = file.module.tables.get_entity(t).cloned();
            if entity.is_external() {
                return Err(PlanError::ExternalEntity);
            }
            if !module.tables.is_small() {
                return Err(PlanError::TooManyEntities);
            }
            let new_ref = module.tables.dry_push_entity(&entity);
            Ok(AnyEntity::Table { new_ref, entity })
        },
        EntityKind::Memory(m) => {
            let entity = file.module.memories.get_entity(m).cloned();
            if entity.is_external() {
                return Err(PlanError::ExternalEntity);
            }
            if !module.memories.is_small() {
                return Err(PlanError::TooManyEntities);
            }
            let new_ref = module.memories.dry_push_entity(&entity);
            Ok(AnyEntity::Memory { new_ref, entity })
        },
        EntityKind::Tag(t) => {
            let entity = file.module.tags.get_entity(t).cloned();
            if entity.is_external() {
                return Err(PlanError::ExternalEntity);
            }
            if !module.tags.is_small() {
                return Err(PlanError::TooManyEntities);
            }
            let new_ref = module.tags.dry_push_entity(&entity);
            Ok(AnyEntity::Tag { new_ref, entity })
        },
        EntityKind::DataSymbol(d) => {
            assert(file.module.extra.mem_layout.is_external_ref(d)
                || file.module.extra.mem_layout.defined.lookup(d) is Some);
            let entity = file.module.extra.mem_layout.get_entity(d).cloned();
            if entity.is_external() {
                return Err(PlanError::ExternalEntity);
            }
            if !module.extra.mem_layout.items.is_small() {
                return Err(PlanError::TooManyEntities);
            }
            let new_ref = module.extra.mem_layout.dry_push_entity(&entity);
            Ok(AnyEntity::DataSymbol { new_ref, entity })
        },
        EntityKind::Type(_) => Err(PlanError::UnknownEntity),
    }
}

/// Whether a module is another one with one more entity.
pub open spec fn is_pushed(before: ModuleBuilder, copy: AnyEntity, after: ModuleBuilder) -> bool {
    match copy {
        AnyEntity::Function { entity, .. } => {
            &&& after.functions@ == before.functions@.with(entity)
            &&& after == (ModuleBuilder { functions: after.functions, ..before })
        },
        AnyEntity::Global { entity, .. } => {
            &&& after.globals@ == before.globals@.with(entity)
            &&& after == (ModuleBuilder { globals: after.globals, ..before })
        },
        AnyEntity::Table { entity, .. } => {
            &&& after.tables@ == before.tables@.with(entity)
            &&& after == (ModuleBuilder { tables: after.tables, ..before })
        },
        AnyEntity::Memory { entity, .. } => {
            &&& after.memories@ == before.memories@.with(entity)
            &&& after == (ModuleBuilder { memories: after.memories, ..before })
        },
        AnyEntity::Tag { entity, .. } => {
            &&& after.tags@ == before.tags@.with(entity)
            &&& after == (ModuleBuilder { tags: after.tags, ..before })
        },
        AnyEntity::DataSymbol { entity, .. } => {
            let layout = after.extra.mem_layout;
            &&& layout.items@ == before.extra.mem_layout.items@.with(entity)
            &&& layout.virtual_spaces@ == before.extra.mem_layout.virtual_spaces@
            &&& layout.segments@ == before.extra.mem_layout.segments@
            &&& after == (ModuleBuilder {
                extra: BuilderExtra { mem_layout: layout, ..before.extra },
                ..before
            })
        },
    }
}

/// Whether a module has room for an entity, which gets the index that it names.
pub open spec fn can_push(module: ModuleBuilder, copy: AnyEntity) -> bool {
    match copy {
        AnyEntity::Function { new_ref, entity } => module.functions@.has_room(entity)
            && new_ref.kind() == module.functions@.next_kind(entity),
        AnyEntity::Global { new_ref, entity } => module.globals@.has_room(entity) && new_ref.kind()
            == module.globals@.next_kind(entity),
        AnyEntity::Table { new_ref, entity } => module.tables@.has_room(entity) && new_ref.kind()
            == module.tables@.next_kind(entity),
        AnyEntity::Memory { new_ref, entity } => module.memories@.has_room(entity)
            && new_ref.kind() == module.memories@.next_kind(entity),
        AnyEntity::Tag { new_ref, entity } => module.tags@.has_room(entity) && new_ref.kind()
            == module.tags@.next_kind(entity),
        AnyEntity::DataSymbol { new_ref, entity } => module.extra.mem_layout.items@.has_room(entity)
            && new_ref.kind() == module.extra.mem_layout.items@.next_kind(entity),
    }
}

/// Adds a copied entity to a module.
pub fn push_copy(module: &mut ModuleBuilder, copy: AnyEntity) -> (r: TempEntityKind)
    requires
        can_push(*old(module), copy),
    ensures
        is_pushed(*old(module), copy, *final(module)),
        r == copy.temp_ref(),
{
    match copy {
        AnyEntity::Function { new_ref, entity } => {
            let temp = module.functions.push_entity(entity);
            proof {
                lemma_kind_injective(temp, new_ref);
            }
            TempEntityKind::Function(temp)
        },
        AnyEntity::Global { new_ref, entity } => {
            let temp = module.globals.push_entity(entity);
            proof {
                lemma_kind_injective(temp, new_ref);
            }
            TempEntityKind::Global(temp)
        },
        AnyEntity::Table { new_ref, entity } => {
            let temp = module.tables.push_entity(entity);
            proof {
                lemma_kind_injective(temp, new_ref);
            }
            TempEntityKind::Table(temp)
        },
        AnyEntity::Memory { new_ref, entity } => {
            let temp = module.memories.push_entity(entity);
            proof {
                lemma_kind_injective(temp, new_ref);
            }
            TempEntityKind::Memory(temp)
        },
        AnyEntity::Tag { new_ref, entity } => {
            let temp = module.tags.push_entity(entity);
            proof {
                lemma_kind_injective(temp, new_ref);
            }
            TempEntityKind::Tag(temp)
        },
        AnyEntity::DataSymbol { new_ref, entity } => {
            let temp = module.extra.mem_layout.push_entity(entity);
            proof {
                lemma_kind_injective(temp, new_ref);
            }
            TempEntityKind::DataSymbol(temp)
        },
    }
}

/// What a run of a plan has reached: the module, what the transformations left behind, and where
/// the copied entities come from.
#[verifier::reject_recursive_types(A)]
pub ghost struct CopyState<A> {
    pub module: ModuleBuilder,
    pub artifacts: A,
    pub refs: Seq<(EntityLocation, TempEntityKind)>,
}

/// Whether a number among the entities of all files is that of an entity.
pub open spec fn is_located(
    snapshot: MultiSnapshot,
    flat: FlatEntityRef,
    location: EntityLocation,
) -> bool {
    snapshot.has(location) && snapshot.flat(location) == flat.id()
}

/// Whether a plan is told where an entity comes from.
pub open spec fn is_info(
    info: SourceInfo<'_>,
    files: Seq<LoadedFile>,
    location: EntityLocation,
    flat: FlatEntityRef,
) -> bool {
    &&& info.source_entity == location.entity
    &&& info.source_flat == flat
    &&& info.input_file == location.file_id
    &&& *info.snapshot == files[location.file_id.id() as int].snapshot
    &&& info.entity_relocs@ == file_relocs(files, location)
}

/// Whether an entity is copied, changed by a plan and added to a module.
pub open spec fn is_copied<M: OutputPlan>(
    plan: M,
    files: Seq<LoadedFile>,
    item: (FlatEntityRef, M::ExtraData),
    before: CopyState<M::Artifacts>,
    after: CopyState<M::Artifacts>,
    location: EntityLocation,
    info: SourceInfo<'_>,
    source: AnyEntity,
    result: AnyEntity,
    artifacts: M::Artifacts,
) -> bool {
    &&& is_info(info, files, location, item.0)
    &&& is_source(
        files[location.file_id.id() as int].module,
        location.entity,
        before.module,
        source,
    )
    &&& source.same_place(result)
    &&& plan.is_transformed(info, item.1, source, result, artifacts)
    &&& is_pushed(before.module, result, after.module)
    &&& before.artifacts.is_merged(artifacts, after.artifacts)
    &&& after.refs == before.refs.push((location, result.temp_ref()))
}

/// Whether an entity of a plan is processed. Types are not copied.
pub open spec fn is_step<M: OutputPlan>(
    plan: M,
    files: Seq<LoadedFile>,
    snapshot: MultiSnapshot,
    item: (FlatEntityRef, M::ExtraData),
    before: CopyState<M::Artifacts>,
    after: CopyState<M::Artifacts>,
) -> bool {
    exists|location: EntityLocation| #[trigger]
        is_located(snapshot, item.0, location) && if location.entity is Type {
            after == before
        } else {
            exists|
                info: SourceInfo<'_>,
                source: AnyEntity,
                result: AnyEntity,
                artifacts: M::Artifacts,
            | #[trigger]
                is_copied(
                    plan,
                    files,
                    item,
                    before,
                    after,
                    location,
                    info,
                    source,
                    result,
                    artifacts,
                )
        }
}

/// Whether the entities of a plan are processed one after the other.
pub open spec fn are_steps<M: OutputPlan>(
    plan: M,
    files: Seq<LoadedFile>,
    snapshot: MultiSnapshot,
    states: Seq<CopyState<M::Artifacts>>,
    count: int,
) -> bool {
    &&& states.len() == count + 1
    &&& states[0].artifacts.is_new()
    &&& states[0].refs.len() == 0
    &&& forall|i: int|
        0 <= i < count ==> is_step(
            plan,
            files,
            snapshot,
            #[trigger] plan.entities()[i],
            states[i],
            states[i + 1],
        )
}

/// Why an entity of a plan cannot be processed.
pub open spec fn step_refused<M: OutputPlan>(
    plan: M,
    files: Seq<LoadedFile>,
    snapshot: MultiSnapshot,
    item: (FlatEntityRef, M::ExtraData),
    before: CopyState<M::Artifacts>,
    error: PlanError,
) -> bool {
    ||| error == PlanError::UnknownEntity && item.0.id() >= files_total(snapshot@)
    ||| exists|location: EntityLocation| #[trigger]
        is_located(snapshot, item.0, location) && !(location.entity is Type) && {
            let source_module = files[location.file_id.id() as int].module;
            ||| copy_error(source_module, location.entity, before.module) == Some(error)
            ||| exists|info: SourceInfo<'_>, source: AnyEntity|
                {
                    &&& is_info(info, files, location, item.0)
                    &&& is_source(source_module, location.entity, before.module, source)
                    &&& #[trigger] plan.transform_refused(info, item.1, source, error)
                }
        }
}

/// Why the entities of a plan cannot be copied into a module: those before some entity can, and it
/// cannot.
pub open spec fn copy_refused<M: OutputPlan>(
    plan: M,
    files: Seq<LoadedFile>,
    snapshot: MultiSnapshot,
    module: ModuleBuilder,
    error: PlanError,
) -> bool {
    exists|states: Seq<CopyState<M::Artifacts>>, i: int|
        {
            &&& #[trigger] are_steps(plan, files, snapshot, states, i)
            &&& 0 <= i < plan.entities().len()
            &&& states[0].module == module
            &&& step_refused(plan, files, snapshot, plan.entities()[i], states.last(), error)
        }
}

/// The relocations of an entity of a file.
fn relocs_of<'a>(file: &'a LoadedFile, entity: EntityKind, Ghost(files): Ghost<Seq<LoadedFile>>, Ghost(
    location,
): Ghost<EntityLocation>) -> (r: &'a [EntityRelocationEntry])
    requires
        file.relocs.wf(),
        files[location.file_id.id() as int] == *file,
        location.entity == entity,
    ensures
        r@ == file_relocs(files, location),
{
    match file.relocs.get_entity_relocs(entity) {
        Some(relocs) => relocs,
        None => {
            let relocs: &[EntityRelocationEntry] = &[];
            assert(relocs@ =~= Seq::<EntityRelocationEntry>::empty());
            relocs
        },
    }
}

proof fn lemma_can_push(source: Module, kind: EntityKind, module: ModuleBuilder, a: AnyEntity, b: AnyEntity)
    requires
        copy_error(source, kind, module) is None,
        is_source(source, kind, module, a),
        a.same_place(b),
    ensures
        can_push(module, b),
{
}

/// Copies the entities of a plan into a module.
pub fn copy_entities<M: OutputPlan>(
    plan: &M,
    module: &mut ModuleBuilder,
    input_files: &FileLoader,
    snapshot: &MultiSnapshot,
) -> (r: Result<(M::Artifacts, Vec<(EntityLocation, TempEntityKind)>), PlanError>)
    requires
        plan.valid(),
        files_valid(input_files@),
        snapshot@ == snapshots(input_files@),
    ensures
        r matches Ok((artifacts, refs)) ==> exists|states: Seq<CopyState<M::Artifacts>>|
            {
                &&& #[trigger] are_steps(
                    *plan,
                    input_files@,
                    *snapshot,
                    states,
                    plan.entities().len() as int,
                )
                &&& states[0].module == *old(module)
                &&& states.last() == (CopyState {
                    module: *final(module),
                    artifacts,
                    refs: refs@,
                })
            },
        r matches Err(error) ==> copy_refused(
            *plan,
            input_files@,
            *snapshot,
            *old(module),
            error,
        ),
{
    let ghost files = input_files@;
    let ghost all = plan.entities();
    let mut artifacts = <M::Artifacts as Merge>::new();
    let mut refs: Vec<(EntityLocation, TempEntityKind)> = Vec::new();
    let ghost mut states: Seq<CopyState<M::Artifacts>> = seq![
        CopyState { module: *module, artifacts, refs: refs@ },
    ];
    let items = plan.entities_to_copy();
    let end = snapshot.total();
    for item in it: items
        invariant
            it.seq() == all,
            plan.valid(),
            all == plan.entities(),
            files == input_files@,
            files_valid(files),
            snapshot@ == snapshots(files),
            end == files_total(snapshot@),
            are_steps(*plan, files, *snapshot, states, it.index() as int),
            states[0].module == *old(module),
            states.last() == (CopyState { module: *module, artifacts, refs: refs@ }),
    {
        let ghost before = states.last();
        let ghost i = it.index() as int;
        let (flat, extra) = item;
        if flat.as_u32() >= end {
            proof {
                let error = PlanError::UnknownEntity;
                assert(step_refused(*plan, files, *snapshot, all[i], before, error));
                assert(copy_refused(*plan, files, *snapshot, *old(module), error));
            }
            return Err(PlanError::UnknownEntity);
        }
        assert(snapshot@.len() == files.len());
        let location = snapshot.unpack_ref(flat);
        let file = input_files.get_file(location.file_id);
        assert(file_valid(files[location.file_id.id() as int]));
        assert(snapshot@[location.file_id.id() as int]
            == files[location.file_id.id() as int].snapshot);
        let is_type = match location.entity {
            EntityKind::Type(_) => true,
            _ => false,
        };
        if is_type {
            proof {
                assert(is_located(*snapshot, all[i].0, location));
                let longer = states.push(before);
                assert(is_step(*plan, files, *snapshot, all[i], before, before));
                lemma_one_more_step(*plan, files, *snapshot, states, before, i);
                states = longer;
            }
        } else {
            let mut copy = match copy_source(file, location.entity, module) {
                Ok(copy) => copy,
                Err(error) => {
                    proof {
                        assert(is_located(*snapshot, all[i].0, location));
                        assert(step_refused(*plan, files, *snapshot, all[i], before, error));
                        assert(copy_refused(*plan, files, *snapshot, *old(module), error));
                    }
                    return Err(error);
                },
            };
            let ghost source = copy;
            let info = SourceInfo {
                source_entity: location.entity,
                source_flat: flat,
                input_file: location.file_id,
                snapshot: snapshot.file_snapshot(location.file_id),
                entity_relocs: relocs_of(
                    file,
                    location.entity,
                    Ghost(files),
                    Ghost(location),
                ),
            };
            let left = match plan.transform(info, &mut copy, extra) {
                Ok(left) => left,
                Err(error) => {
                    proof {
                        assert(is_located(*snapshot, all[i].0, location));
                        assert(is_info(info, files, location, all[i].0));
                        assert(plan.transform_refused(info, all[i].1, source, error));
                        assert(step_refused(*plan, files, *snapshot, all[i], before, error));
                        assert(copy_refused(*plan, files, *snapshot, *old(module), error));
                    }
                    return Err(error);
                },
            };
            let ghost result = copy;
            proof {
                lemma_can_push(file.module, location.entity, *module, source, result);
            }
            artifacts.merge(left);
            let new_ref = push_copy(module, copy);
            refs.push((location, new_ref));
            proof {
                let after = CopyState { module: *module, artifacts, refs: refs@ };
                assert(is_located(*snapshot, all[i].0, location));
                assert(is_copied(
                    *plan,
                    files,
                    all[i],
                    before,
                    after,
                    location,
                    info,
                    source,
                    result,
                    left,
                ));
                assert(is_step(*plan, files, *snapshot, all[i], before, after));
                lemma_one_more_step(*plan, files, *snapshot, states, after, i);
                states = states.push(after);
            }
        }
    }
    Ok((artifacts, refs))
}

proof fn lemma_one_more_step<M: OutputPlan>(
    plan: M,
    files: Seq<LoadedFile>,
    snapshot: MultiSnapshot,
    states: Seq<CopyState<M::Artifacts>>,
    after: CopyState<M::Artifacts>,
    i: int,
)
    requires
        0 <= i < plan.entities().len(),
        are_steps(plan, files, snapshot, states, i),
        is_step(plan, files, snapshot, plan.entities()[i], states.last(), after),
    ensures
        are_steps(plan, files, snapshot, states.push(after), i + 1),
{
    let longer = states.push(after);
    assert forall|j: int| 0 <= j < i + 1 implies is_step(
        plan,
        files,
        snapshot,
        #[trigger] plan.entities()[j],
        longer[j],
        longer[j + 1],
    ) by {
        if j < i {
            assert(longer[j] == states[j]);
            assert(longer[j + 1] == states[j + 1]);
        }
    }
}

} // verus!
