//! Plans for the modules of a split program.
use crate::analysis::modules::OutputModuleInfo;
use crate::analysis::split_point::SplitPoint;
use crate::analysis::trampolines::{
    import_number, lemma_import_number, ExtraExport, IndirectFnLayout, TrampolineDeclared,
    TrampolinesState,
};
use crate::emit::modify::abs_to_got::{asks_all, AbsToGot};
use crate::emit::modify::blacklist::IsSet;
use crate::emit::plan::copy::{file_valid, files_valid, is_located};
use crate::emit::plan::definition::{PlanError, TempEntityKind};
use crate::emit::relocation::EntityLocation;
use crate::index::{SecondaryMap, TempIndex};
use crate::typed::file_loader::{snapshots, FileLoader, LoadedFile};
use crate::typed::lookup::{entity_name, has_entity, is_type_of, EntityType};
use crate::typed::snapshot::{files_total, lemma_multi_flat_injective, FlatEntityRef, MultiSnapshot};
use crate::typed::{EntityKind, FileId};
use vstd::prelude::*;

verus! {

/// How the addresses of a module are made.
#[derive(Debug)]
pub enum GotConverter<S> {
    /// All addresses are fixed.
    Static,
    /// Addresses are relative to base globals, which the module does not have yet.
    NotInitted { blacklist: S, main_layout: IndirectFnLayout, sp_exports: Vec<FlatEntityRef> },
    /// Addresses are relative to base globals. The functions of split points fill entries of the
    /// table.
    Initted {
        converter: AbsToGot<S>,
        main_layout: IndirectFnLayout,
        sp_exports: Vec<FlatEntityRef>,
    },
}

impl<S: IsSet> GotConverter<S> {
    /// Whether references can be modified, and the entries of split points have indices.
    pub open spec fn valid(self) -> bool {
        match self {
            GotConverter::Static => true,
            GotConverter::NotInitted { blacklist, main_layout, .. } => asks_all(blacklist)
                && main_layout.fits(),
            GotConverter::Initted { converter, main_layout, .. } => converter.valid()
                && main_layout.fits(),
        }
    }
}

/// An entity of another module.
pub type StaticImport = (EntityLocation, (EntityType, FileId, String));

/// A plan for one module of a split program.
#[derive(Debug)]
pub struct SplitModulePlan<S> {
    /// The entities that are copied.
    pub entities: Vec<(FlatEntityRef, ExtraExport)>,
    /// The entities that are imported from other modules. Imported data is external.
    pub static_imports: Vec<StaticImport>,
    pub is_main: GotConverter<S>,
    pub trampoline_fns: TrampolinesState,
    /// The new entities that stand for entities of input files.
    pub tmp_refs: Vec<(EntityLocation, TempEntityKind)>,
}

/// The entity with a number among the entities of all files.
pub open spec fn location_of(snapshot: MultiSnapshot, flat: FlatEntityRef) -> EntityLocation {
    choose|location: EntityLocation| is_located(snapshot, flat, location)
}

/// The name of an entity of the input files.
pub open spec fn name_at(
    files: Seq<LoadedFile>,
    snapshot: MultiSnapshot,
    flat: FlatEntityRef,
) -> Seq<char> {
    let location = location_of(snapshot, flat);
    entity_name(files[location.file_id.id() as int].module, location.entity)
}

/// Whether a type is that of an entity of the input files.
pub open spec fn is_type_at(
    files: Seq<LoadedFile>,
    snapshot: MultiSnapshot,
    flat: FlatEntityRef,
    ty: EntityType,
) -> bool {
    let location = location_of(snapshot, flat);
    is_type_of(files[location.file_id.id() as int].module, location.entity, ty)
}

/// Whether an entity is exported under its name, if other modules need it.
pub open spec fn is_extra(
    files: Seq<LoadedFile>,
    snapshot: MultiSnapshot,
    exports: Set<FlatEntityRef>,
    flat: FlatEntityRef,
    extra: ExtraExport,
) -> bool {
    match extra {
        ExtraExport::AddExport(name) => exports.contains(flat) && name@ == name_at(
            files,
            snapshot,
            flat,
        ),
        ExtraExport::Nothing => !exports.contains(flat),
    }
}

/// Tells the entities that split points do not import.
pub open spec fn is_kept(points: Seq<SplitPoint>) -> spec_fn(FlatEntityRef) -> bool {
    |flat: FlatEntityRef| import_number(points, flat) is None
}

/// Tells the entities that split points import.
pub open spec fn is_called(points: Seq<SplitPoint>) -> spec_fn(FlatEntityRef) -> bool {
    |flat: FlatEntityRef| import_number(points, flat) is Some
}

/// Whether entities are those to copy.
pub open spec fn are_entities(
    files: Seq<LoadedFile>,
    snapshot: MultiSnapshot,
    exports: Set<FlatEntityRef>,
    flats: Seq<FlatEntityRef>,
    entities: Seq<(FlatEntityRef, ExtraExport)>,
) -> bool {
    &&& entities.len() == flats.len()
    &&& forall|i: int|
        0 <= i < flats.len() ==> (#[trigger] entities[i]).0 == flats[i] && is_extra(
            files,
            snapshot,
            exports,
            flats[i],
            entities[i].1,
        )
}

/// Whether a function stands for one that a split point imports.
pub open spec fn is_declared_for(
    files: Seq<LoadedFile>,
    snapshot: MultiSnapshot,
    exports: Set<FlatEntityRef>,
    flat: FlatEntityRef,
    declared: TrampolineDeclared,
) -> bool {
    &&& declared.flat_entity == flat
    &&& declared.src_location == location_of(snapshot, flat)
    &&& is_type_at(files, snapshot, flat, declared.src_type)
    &&& declared.name@ == name_at(files, snapshot, flat)
    &&& is_extra(files, snapshot, exports, flat, declared.extra)
}

/// Whether functions stand for those that split points import.
pub open spec fn are_declared(
    files: Seq<LoadedFile>,
    snapshot: MultiSnapshot,
    exports: Set<FlatEntityRef>,
    flats: Seq<FlatEntityRef>,
    declared: Seq<TrampolineDeclared>,
) -> bool {
    &&& declared.len() == flats.len()
    &&& forall|i: int|
        0 <= i < flats.len() ==> is_declared_for(
            files,
            snapshot,
            exports,
            flats[i],
            #[trigger] declared[i],
        )
}

/// Whether an import is that of an entity of another module.
pub open spec fn is_import_for(
    files: Seq<LoadedFile>,
    snapshot: MultiSnapshot,
    dep_info: SecondaryMap<FlatEntityRef, usize>,
    flat: FlatEntityRef,
    import: StaticImport,
) -> bool {
    &&& import.0 == location_of(snapshot, flat)
    &&& is_type_at(files, snapshot, flat, import.1.0)
    &&& import.1.1.id() == dep_info.value(flat.id() as nat)
    &&& import.1.2@ == name_at(files, snapshot, flat)
}

/// Whether imports are those of entities of other modules.
pub open spec fn are_imports(
    files: Seq<LoadedFile>,
    snapshot: MultiSnapshot,
    dep_info: SecondaryMap<FlatEntityRef, usize>,
    flats: Seq<FlatEntityRef>,
    imports: Seq<StaticImport>,
) -> bool {
    &&& imports.len() == flats.len()
    &&& forall|i: int|
        0 <= i < flats.len() ==> is_import_for(
            files,
            snapshot,
            dep_info,
            flats[i],
            #[trigger] imports[i],
        )
}

/// Whether a plan is a new one for a module.
pub open spec fn is_new_plan<S>(
    plan: SplitModulePlan<S>,
    files: Seq<LoadedFile>,
    snapshot: MultiSnapshot,
    info: OutputModuleInfo,
    dep_info: SecondaryMap<FlatEntityRef, usize>,
    points: Seq<SplitPoint>,
) -> bool {
    let defined = info.defined_symbols.seq();
    &&& are_entities(
        files,
        snapshot,
        info.exports@,
        defined.filter(is_kept(points)),
        plan.entities@,
    )
    &&& plan.trampoline_fns is Declared
    &&& are_declared(
        files,
        snapshot,
        info.exports@,
        defined.filter(is_called(points)),
        plan.trampoline_fns->declared@,
    )
    &&& are_imports(files, snapshot, dep_info, info.imports.seq(), plan.static_imports@)
    &&& plan.tmp_refs@.len() == 0
}

/// Whether the entities of a module are known, and those that need a type have one.
pub open spec fn info_known(
    snapshot: MultiSnapshot,
    info: OutputModuleInfo,
    dep_info: SecondaryMap<FlatEntityRef, usize>,
    points: Seq<SplitPoint>,
) -> bool {
    let total = files_total(snapshot@);
    let defined = info.defined_symbols.seq();
    let imports = info.imports.seq();
    &&& forall|i: int|
        0 <= i < defined.len() ==> defined_known(snapshot, points, #[trigger] defined[i])
    &&& forall|i: int|
        0 <= i < imports.len() ==> import_known(snapshot, dep_info, #[trigger] imports[i])
}

pub open spec fn defined_known(
    snapshot: MultiSnapshot,
    points: Seq<SplitPoint>,
    flat: FlatEntityRef,
) -> bool {
    &&& flat.id() < files_total(snapshot@)
    &&& import_number(points, flat) is Some ==> !(location_of(snapshot, flat).entity is Type)
}

pub open spec fn import_known(
    snapshot: MultiSnapshot,
    dep_info: SecondaryMap<FlatEntityRef, usize>,
    flat: FlatEntityRef,
) -> bool {
    &&& flat.id() < files_total(snapshot@)
    &&& !(location_of(snapshot, flat).entity is Type)
    &&& dep_info.value(flat.id() as nat) < u32::MAX
}

proof fn lemma_file_has(file: LoadedFile, entity: EntityKind)
    requires
        file_valid(file),
        file.snapshot.has(entity),
    ensures
        has_entity(file.module, entity),
{
    if let EntityKind::DataSymbol(d) = entity {
        let slot = file.module.extra.mem_layout.defined.lookup(d);
    }
}

/// The entity with a number, and the file that holds it.
fn locate<'a>(
    snapshot: &MultiSnapshot,
    input_files: &'a FileLoader,
    flat: FlatEntityRef,
) -> (r: (EntityLocation, &'a LoadedFile))
    requires
        files_valid(input_files@),
        snapshot@ == snapshots(input_files@),
        flat.id() < files_total(snapshot@),
    ensures
        is_located(*snapshot, flat, r.0),
        r.0 == location_of(*snapshot, flat),
        r.0.file_id.id() < input_files@.len(),
        *r.1 == input_files@[r.0.file_id.id() as int],
        file_valid(*r.1),
        has_entity(r.1.module, r.0.entity),
{
    assert(snapshot@.len() == input_files@.len());
    let location = snapshot.unpack_ref(flat);
    proof {
        assert(is_located(*snapshot, flat, location));
        lemma_multi_flat_injective(*snapshot, location, location_of(*snapshot, flat));
    }
    let file = input_files.get_file(location.file_id);
    proof {
        assert(file_valid(input_files@[location.file_id.id() as int]));
        assert(snapshot@[location.file_id.id() as int] == file.snapshot);
        lemma_file_has(*file, location.entity);
    }
    (location, file)
}

fn is_imported(split_points: &Vec<SplitPoint>, flat: FlatEntityRef) -> (r: bool)
    ensures
        r == import_number(split_points@, flat) is Some,
{
    proof {
        lemma_import_number(split_points@, flat);
    }
    let mut i: usize = 0;
    while i < split_points.len()
        invariant
            i <= split_points@.len(),
            forall|j: int| 0 <= j < i ==> (#[trigger] split_points@[j]).import_func != flat,
            match import_number(split_points@, flat) {
                Some(n) => 0 <= n < split_points@.len() && split_points@[n].import_func == flat,
                None => forall|j: int|
                    0 <= j < split_points@.len() ==> (#[trigger] split_points@[j]).import_func
                        != flat,
            },
        decreases split_points@.len() - i,
    {
        if split_points[i].import_func() == flat {
            return true;
        }
        i = i + 1;
    }
    false
}

proof fn lemma_filter_step(all: Seq<FlatEntityRef>, i: int, keep: spec_fn(FlatEntityRef) -> bool)
    requires
        0 <= i < all.len(),
    ensures
        all.take(i + 1).filter(keep) == if keep(all[i]) {
            all.take(i).filter(keep).push(all[i])
        } else {
            all.take(i).filter(keep)
        },
{
    reveal(Seq::filter);
    assert(all.take(i + 1).drop_last() =~= all.take(i));
}

/// Tells which entities of a module are copied, and which are called through the table.
fn sort_defined(
    snapshot: &MultiSnapshot,
    input_files: &FileLoader,
    info: &OutputModuleInfo,
    split_points: &Vec<SplitPoint>,
) -> (r: Result<(Vec<(FlatEntityRef, ExtraExport)>, Vec<TrampolineDeclared>), PlanError>)
    requires
        info.wf(),
        files_valid(input_files@),
        snapshot@ == snapshots(input_files@),
    ensures
        ({
            let defined = info.defined_symbols.seq();
            let known = forall|i: int|
                0 <= i < defined.len() ==> defined_known(
                    *snapshot,
                    split_points@,
                    #[trigger] defined[i],
                );
            match r {
                Ok((entities, declared)) => {
                    &&& known
                    &&& are_entities(
                        input_files@,
                        *snapshot,
                        info.exports@,
                        defined.filter(is_kept(split_points@)),
                        entities@,
                    )
                    &&& are_declared(
                        input_files@,
                        *snapshot,
                        info.exports@,
                        defined.filter(is_called(split_points@)),
                        declared@,
                    )
                },
                Err(error) => error == PlanError::UnknownEntity && !known,
            }
        }),
{
    let ghost files = input_files@;
    let ghost points = split_points@;
    let ghost all = info.defined_symbols.seq();
    let defined = info.defined_symbols.as_slice();
    let total: u32 = snapshot.total();
    let mut entities: Vec<(FlatEntityRef, ExtraExport)> = Vec::new();
    let mut declared: Vec<TrampolineDeclared> = Vec::new();
    let mut i: usize = 0;
    proof {
        reveal(Seq::filter);
        assert(all.take(0).filter(is_kept(points)) =~= Seq::<FlatEntityRef>::empty());
        assert(all.take(0).filter(is_called(points)) =~= Seq::<FlatEntityRef>::empty());
    }
    while i < defined.len()
        invariant
            i <= all.len(),
            defined@ == all,
            all == info.defined_symbols.seq(),
            files == input_files@,
            points == split_points@,
            info.wf(),
            files_valid(files),
            snapshot@ == snapshots(files),
            total == files_total(snapshot@),
            forall|j: int|
                0 <= j < i ==> defined_known(*snapshot, points, #[trigger] all[j]),
            are_entities(
                files,
                *snapshot,
                info.exports@,
                all.take(i as int).filter(is_kept(points)),
                entities@,
            ),
            are_declared(
                files,
                *snapshot,
                info.exports@,
                all.take(i as int).filter(is_called(points)),
                declared@,
            ),
        decreases all.len() - i,
    {
        let flat = defined[i];
        if flat.as_u32() >= total {
            assert(!defined_known(*snapshot, points, all[i as int]));
            return Err(PlanError::UnknownEntity);
        }
        let (location, file) = locate(snapshot, input_files, flat);
        let extra = if info.exports.contains(flat) {
            ExtraExport::AddExport(file.module.get_name(location.entity))
        } else {
            ExtraExport::Nothing
        };
        proof {
            lemma_filter_step(all, i as int, is_kept(points));
            lemma_filter_step(all, i as int, is_called(points));
        }
        let ghost old_entities = entities@;
        let ghost old_declared = declared@;
        if is_imported(split_points, flat) {
            let name = file.module.get_name(location.entity);
            let src_type = match file.module.get_type(location.entity) {
                Some(src_type) => src_type,
                None => {
                    assert(!defined_known(*snapshot, points, all[i as int]));
                    return Err(PlanError::UnknownEntity);
                },
            };
            declared.push(
                TrampolineDeclared {
                    flat_entity: flat,
                    name,
                    src_location: location,
                    src_type,
                    extra,
                },
            );
            proof {
                let flats = all.take(i + 1).filter(is_called(points));
                assert forall|j: int| 0 <= j < flats.len() implies is_declared_for(
                    files,
                    *snapshot,
                    info.exports@,
                    flats[j],
                    #[trigger] declared@[j],
                ) by {
                    if j < old_declared.len() {
                        assert(declared@[j] == old_declared[j]);
                    }
                }
            }
        } else {
            entities.push((flat, extra));
            proof {
                let flats = all.take(i + 1).filter(is_kept(points));
                assert forall|j: int| 0 <= j < flats.len() implies (
                #[trigger] entities@[j]).0 == flats[j] && is_extra(
                    files,
                    *snapshot,
                    info.exports@,
                    flats[j],
                    entities@[j].1,
                ) by {
                    if j < old_entities.len() {
                        assert(entities@[j] == old_entities[j]);
                    }
                }
            }
        }
        i = i + 1;
    }
    assert(all.take(i as int) =~= all);
    Ok((entities, declared))
}

/// The imports of a module from other modules.
fn list_imports(
    snapshot: &MultiSnapshot,
    input_files: &FileLoader,
    info: &OutputModuleInfo,
    dep_info: &SecondaryMap<FlatEntityRef, usize>,
) -> (r: Result<Vec<StaticImport>, PlanError>)
    requires
        files_valid(input_files@),
        snapshot@ == snapshots(input_files@),
    ensures
        ({
            let imports = info.imports.seq();
            let known = forall|i: int|
                0 <= i < imports.len() ==> import_known(
                    *snapshot,
                    *dep_info,
                    #[trigger] imports[i],
                );
            match r {
                Ok(list) => known && are_imports(
                    input_files@,
                    *snapshot,
                    *dep_info,
                    imports,
                    list@,
                ),
                Err(error) => error == PlanError::UnknownEntity && !known,
            }
        }),
{
    let ghost files = input_files@;
    let ghost all = info.imports.seq();
    let imports = info.imports.as_slice();
    let total: u32 = snapshot.total();
    let mut list: Vec<StaticImport> = Vec::new();
    let mut i: usize = 0;
    while i < imports.len()
        invariant
            i <= all.len(),
            imports@ == all,
            all == info.imports.seq(),
            files == input_files@,
            files_valid(files),
            snapshot@ == snapshots(files),
            total == files_total(snapshot@),
            list@.len() == i,
            forall|j: int|
                0 <= j < i ==> import_known(*snapshot, *dep_info, #[trigger] all[j]),
            forall|j: int|
                0 <= j < i ==> is_import_for(
                    files,
                    *snapshot,
                    *dep_info,
                    all[j],
                    #[trigger] list@[j],
                ),
        decreases all.len() - i,
    {
        let flat = imports[i];
        let module_number: usize = dep_info.get(flat);
        if flat.as_u32() >= total || module_number >= u32::MAX as usize {
            assert(!import_known(*snapshot, *dep_info, all[i as int]));
            return Err(PlanError::UnknownEntity);
        }
        let (location, file) = locate(snapshot, input_files, flat);
        let name = file.module.get_name(location.entity);
        match file.module.get_type(location.entity) {
            Some(entity_ty) => list.push(
                (location, (entity_ty, FileId::new(module_number), name)),
            ),
            None => {
                assert(!import_known(*snapshot, *dep_info, all[i as int]));
                return Err(PlanError::UnknownEntity);
            },
        }
        i = i + 1;
    }
    Ok(list)
}

/// The functions that the split points of a module export.
pub open spec fn export_funcs(points: Seq<SplitPoint>) -> Seq<FlatEntityRef> {
    points.map_values(|point: SplitPoint| point.export_func)
}

fn list_export_funcs(points: &Vec<SplitPoint>) -> (r: Vec<FlatEntityRef>)
    ensures
        r@ == export_funcs(points@),
{
    let mut result: Vec<FlatEntityRef> = Vec::new();
    let mut i: usize = 0;
    while i < points.len()
        invariant
            i <= points@.len(),
            result@ == export_funcs(points@).take(i as int),
        decreases points@.len() - i,
    {
        result.push(points[i].export_func());
        assert(result@ =~= export_funcs(points@).take(i + 1));
        i = i + 1;
    }
    assert(export_funcs(points@).take(i as int) =~= export_funcs(points@));
    result
}

impl<S: IsSet> SplitModulePlan<S> {
    /// A plan for the main module, whose addresses are fixed. Functions that split points import
    /// are called through the table.
    pub fn new_main(
        snapshot: &MultiSnapshot,
        input_files: &FileLoader,
        info: &OutputModuleInfo,
        dep_info: &SecondaryMap<FlatEntityRef, usize>,
        split_points: &Vec<SplitPoint>,
    ) -> (r: Result<Self, PlanError>)
        requires
            info.wf(),
            info.split_points@.len() == 0,
            files_valid(input_files@),
            snapshot@ == snapshots(input_files@),
        ensures
            match r {
                Ok(plan) => {
                    &&& info_known(*snapshot, *info, *dep_info, split_points@)
                    &&& is_new_plan(
                        plan,
                        input_files@,
                        *snapshot,
                        *info,
                        *dep_info,
                        split_points@,
                    )
                    &&& plan.is_main == GotConverter::<S>::Static
                },
                Err(error) => error == PlanError::UnknownEntity && !info_known(
                    *snapshot,
                    *info,
                    *dep_info,
                    split_points@,
                ),
            },
    {
        Self::new_inner(
            snapshot,
            input_files,
            info,
            GotConverter::Static,
            dep_info,
            split_points,
        )
    }

    /// A plan for a module that is loaded later. Its addresses are relative to base globals, but for
    /// those of entities in `blacklist`.
    pub fn new_submodule(
        snapshot: &MultiSnapshot,
        input_files: &FileLoader,
        info: &OutputModuleInfo,
        dep_info: &SecondaryMap<FlatEntityRef, usize>,
        split_points: &Vec<SplitPoint>,
        blacklist: S,
        static_layout: IndirectFnLayout,
    ) -> (r: Result<Self, PlanError>)
        requires
            info.wf(),
            files_valid(input_files@),
            snapshot@ == snapshots(input_files@),
        ensures
            match r {
                Ok(plan) => {
                    &&& info_known(*snapshot, *info, *dep_info, split_points@)
                    &&& is_new_plan(
                        plan,
                        input_files@,
                        *snapshot,
                        *info,
                        *dep_info,
                        split_points@,
                    )
                    &&& plan.is_main matches GotConverter::NotInitted {
                        blacklist: list,
                        main_layout,
                        sp_exports,
                    }
                    &&& list == blacklist
                    &&& main_layout == static_layout
                    &&& sp_exports@ == export_funcs(info.split_points@)
                },
                Err(error) => error == PlanError::UnknownEntity && !info_known(
                    *snapshot,
                    *info,
                    *dep_info,
                    split_points@,
                ),
            },
    {
        let converter = GotConverter::NotInitted {
            sp_exports: list_export_funcs(&info.split_points),
            blacklist,
            main_layout: static_layout,
        };
        Self::new_inner(snapshot, input_files, info, converter, dep_info, split_points)
    }

    fn new_inner(
        snapshot: &MultiSnapshot,
        input_files: &FileLoader,
        info: &OutputModuleInfo,
        got_converter: GotConverter<S>,
        dep_info: &SecondaryMap<FlatEntityRef, usize>,
        split_points: &Vec<SplitPoint>,
    ) -> (r: Result<Self, PlanError>)
        requires
            info.wf(),
            files_valid(input_files@),
            snapshot@ == snapshots(input_files@),
        ensures
            match r {
                Ok(plan) => {
                    &&& info_known(*snapshot, *info, *dep_info, split_points@)
                    &&& is_new_plan(
                        plan,
                        input_files@,
                        *snapshot,
                        *info,
                        *dep_info,
                        split_points@,
                    )
                    &&& plan.is_main == got_converter
                },
                Err(error) => error == PlanError::UnknownEntity && !info_known(
                    *snapshot,
                    *info,
                    *dep_info,
                    split_points@,
                ),
            },
    {
        let (entities, declared) = sort_defined(snapshot, input_files, info, split_points)?;
        let static_imports = list_imports(snapshot, input_files, info, dep_info)?;
        Ok(
            SplitModulePlan {
                entities,
                static_imports,
                trampoline_fns: TrampolinesState::Declared { declared },
                is_main: got_converter,
                tmp_refs: Vec::new(),
            },
        )
    }
}

} // verus!
