//! Output modules, made by plans.
use crate::emit::copy_relocs::{
    data_owns, functions_own, is_drained_entity, is_drained_layout, lemma_drained_wf, module_ready,
};
use crate::emit::plan::copy::{
    are_steps, copy_entities, copy_refused, file_valid, files_valid, CopyState,
};
use crate::emit::plan::definition::{OutputPlan, PlanError, TempEntityKind};
use crate::emit::plan::{DyLinkGots, DyLinkInfo, GotInfo};
use crate::emit::readiness::module_is_ready;
use crate::emit::relocation::resolver::OutputEntitiesResolver;
use crate::emit::relocation::EntityLocation;
use crate::index::{grown, GappedMap, MAX_VALUE, ReservedValue, Temp, TempIndex, TempKind};
use crate::layouts::data::builder::{DataKind, MemLayoutBuilder};
use crate::layouts::data::sealed::MemLayoutSealed;
use crate::layouts::elements::{ElementKind, SealedElementSegment};
use crate::layouts::recover::{
    are_recovered, are_specs_of, can_add, is_imported_space, is_recoverable, VsState,
};
use crate::layouts::SegmentId;
use crate::linkage::file_db::{indirect_fns, FileRelocs};
use crate::text::{decimal, decimal_string};
use crate::typed::builder::{
    first_active_kind, has_new_place, is_locked, lemma_first_active_kind, lock_error, BuilderExtra,
    ModuleBuilder,
};
use crate::typed::entities::{CollectionView, ImportedEntity};
use crate::typed::file_loader::{snapshots, FileLoader, LoadedFile};
use crate::typed::module::{ImportedGlobal, Module, ModuleExtra};
use crate::typed::snapshot::MultiSnapshot;
use crate::typed::types::{GlobalType, ValType};
use crate::typed::{EntityKind, FileId, FunctionRef, GlobalRef, MemoryRef, TableRef};
use vstd::prelude::*;
use vstd::string::StringExecFns;

verus! {

/// A module that is ready to be written.
#[derive(Debug)]
pub struct OutputModule {
    pub module: Module,
    /// Where the entities of the module come from.
    pub resolver: OutputEntitiesResolver,
    pub dyn_info: Option<DyLinkGots>,
    /// The relocations of the module, relative to the starts of the entities.
    pub relocs: FileRelocs,
}

/// Text of a file index.
pub open spec fn file_text(file: FileId) -> Seq<char> {
    "file"@ + decimal(file.id() as nat)
}

impl FileId {
    /// Text of the index, which is the name of the module for imports from it.
    pub fn to_text(&self) -> (r: String)
        ensures
            r@ == file_text(*self),
    {
        let mut text = "file".to_owned();
        text.append(decimal_string(self.as_u32() as u64).as_str());
        text
    }
}

/// Whether a global is imported under a name, as a constant number of 32 bits.
pub open spec fn is_base_import(global: ImportedGlobal, module: Seq<char>, name: Seq<char>) -> bool {
    &&& global.module@ == module
    &&& global.name@ == name
    &&& global.entity_type == (GlobalType {
        content_type: ValType::I32,
        mutable: false,
        shared: false,
    })
    &&& global.export_as@.len() == 0
}

impl ImportedEntity<GlobalType> {
    /// The global that holds the base of a module in memory.
    pub fn memory_base() -> (r: Self)
        ensures
            is_base_import(r, "env"@, "__memory_base"@),
    {
        ImportedEntity {
            module: "env".to_owned(),
            name: "__memory_base".to_owned(),
            entity_type: GlobalType {
                content_type: ValType::I32,
                mutable: false,
                shared: false,
            },
            export_as: Vec::new(),
        }
    }

    /// The global that holds the base of a module in the indirect function table.
    pub fn table_base() -> (r: Self)
        ensures
            is_base_import(r, "env"@, "__table_base"@),
    {
        ImportedEntity {
            module: "env".to_owned(),
            name: "__table_base".to_owned(),
            entity_type: GlobalType {
                content_type: ValType::I32,
                mutable: false,
                shared: false,
            },
            export_as: Vec::new(),
        }
    }

    /// The same import, from another module.
    pub fn with_module(self, module: String) -> (r: Self)
        ensures
            r == (ImportedEntity { module, ..self }),
    {
        ImportedEntity { module, ..self }
    }
}

/// Whether virtual spaces and segments are those of a layout. Every space is in the first memory
/// that the module defines.
pub open spec fn is_copied_layout(source: MemLayoutSealed, copy: MemLayoutBuilder) -> bool {
    &&& copy.items@.len() == 0
    &&& exists|spaces: Seq<VsState>|
        {
            &&& #[trigger] are_recovered(source.segments@, spaces)
            &&& are_specs_of(copy.segments@, source.segments@, spaces)
            &&& copy.virtual_spaces@.len() == spaces.len()
            &&& forall|v: int|
                0 <= v < spaces.len() ==> is_copied_space(
                    spaces[v].location,
                    #[trigger] copy.virtual_spaces@[v],
                )
        }
}

pub open spec fn is_copied_space(
    source: DataKind<MemoryRef>,
    copy: DataKind<Temp<MemoryRef>>,
) -> bool {
    match (source, copy) {
        (
            DataKind::Active { location: a, .. },
            DataKind::Active { memory_ref, location: b },
        ) => memory_ref.kind() == TempKind::Defined(0) && a == b,
        (DataKind::Passive, DataKind::Passive) => true,
        _ => false,
    }
}

/// Whether one more pair of base globals is imported.
pub open spec fn are_base_imports(
    before: Seq<ImportedGlobal>,
    after: Seq<ImportedGlobal>,
    module: Seq<char>,
) -> bool {
    &&& after.len() == before.len() + 2
    &&& after.take(before.len() as int) == before
    &&& is_base_import(after[before.len() as int], module, "__memory_base"@)
    &&& is_base_import(after[before.len() as int + 1], module, "__table_base"@)
}

/// Whether the imported globals hold the bases of the module itself, and then of others.
pub open spec fn are_got_imports(imports: Seq<ImportedGlobal>, used: Seq<FileId>) -> bool
    decreases used.len(),
{
    if used.len() == 0 {
        are_base_imports(Seq::empty(), imports, "env"@)
    } else {
        let rest = imports.take(imports.len() - 2);
        &&& imports.len() >= 2
        &&& are_got_imports(rest, used.drop_last())
        &&& are_base_imports(rest, imports, file_text(used.last()))
    }
}

/// The base globals of other modules. Those of the module with number `i` have the indices
/// `2 * i + 2` and `2 * i + 3`.
pub open spec fn dep_gots(used: Seq<FileId>) -> Seq<Option<GotInfo>>
    decreases used.len(),
{
    if used.len() == 0 {
        Seq::empty()
    } else {
        let id = used.last().id();
        grown(dep_gots(used.drop_last()), id as nat).update(
            id as int,
            Some(
                GotInfo {
                    memory_base: GlobalRef { id: (2 * used.len()) as u32 },
                    table_base: GlobalRef { id: (2 * used.len() + 1) as u32 },
                },
            ),
        )
    }
}

/// Whether a module knows the base globals of itself and of others.
pub open spec fn is_dyn_info(info: Option<DyLinkGots>, dylink: DyLinkInfo) -> bool {
    match dylink {
        DyLinkInfo::Static => info is None,
        DyLinkInfo::Dynamic { used_modules } => {
            &&& info matches Some(gots)
            &&& gots.our_got == (GotInfo {
                memory_base: GlobalRef { id: 0 },
                table_base: GlobalRef { id: 1 },
            })
            &&& gots.deps.wf()
            &&& gots.deps@ == dep_gots(used_modules@)
        },
    }
}

/// Whether a new module has the virtual spaces and segments of a layout and the base globals.
pub open spec fn is_started(module: ModuleBuilder, layout: MemLayoutSealed, dylink: DyLinkInfo) -> bool {
    &&& module.functions@.len() == 0
    &&& module.tables@.len() == 0
    &&& module.memories@.len() == 0
    &&& module.tags@.len() == 0
    &&& is_copied_layout(layout, module.extra.mem_layout)
    &&& module.extra.function_elements.virtual_spaces@.len() == 0
    &&& module.extra.function_elements.segments@.len() == 0
    &&& module.extra.function_elements.items@.len() == 0
    &&& module.extra.start_functions@.len() == 0
    &&& module.globals@.defined.len() == 0
    &&& module.globals@.external.len() == 0
    &&& match dylink {
        DyLinkInfo::Static => module.globals@.imports.len() == 0 && module.extra.got_info is None,
        DyLinkInfo::Dynamic { used_modules } => {
            &&& are_got_imports(module.globals@.imports, used_modules@)
            &&& module.extra.got_info matches Some(got)
            &&& got.memory_base.kind() == TempKind::Import(0)
            &&& got.table_base.kind() == TempKind::Import(1)
        },
    }
}

/// Whether there are more modules than indices for their base globals.
pub open spec fn uses_too_many(dylink: DyLinkInfo) -> bool {
    dylink matches DyLinkInfo::Dynamic { used_modules } && 2 * used_modules@.len() + 1
        > MAX_VALUE
}

fn import_bases(module: &mut ModuleBuilder, name: String) -> (r: GotInfo<Temp<GlobalRef>>)
    requires
        old(module).globals@.imports.len() + 1 <= MAX_VALUE,
    ensures
        final(module).globals@ == (CollectionView {
            imports: final(module).globals@.imports,
            ..old(module).globals@
        }),
        are_base_imports(old(module).globals@.imports, final(module).globals@.imports, name@),
        *final(module) == (ModuleBuilder { globals: final(module).globals, ..*old(module) }),
        r.memory_base.kind() == TempKind::Import(old(module).globals@.imports.len() as u32),
        r.table_base.kind() == TempKind::Import((old(module).globals@.imports.len() + 1) as u32),
{
    let ghost before = module.globals@.imports;
    let memory_base = module.globals.push_import(
        ImportedGlobal::memory_base().with_module(name.clone()),
    );
    let table_base = module.globals.push_import(ImportedGlobal::table_base().with_module(name));
    assert(module.globals@.imports.take(before.len() as int) =~= before);
    GotInfo { memory_base, table_base }
}

impl OutputModule {
    /// Copies the virtual spaces and segments of the first input file.
    pub fn copy_vs_segments(output: &mut ModuleBuilder, input_files: &FileLoader)
        requires
            input_files@.len() > 0,
            is_recoverable(input_files@[0].module.extra.mem_layout),
        ensures
            *final(output) == (ModuleBuilder {
                extra: BuilderExtra {
                    mem_layout: final(output).extra.mem_layout,
                    ..old(output).extra
                },
                ..*old(output)
            }),
            is_copied_layout(
                input_files@[0].module.extra.mem_layout,
                final(output).extra.mem_layout,
            ),
    {
        let first = input_files.get_file(FileId::from_u32(0));
        let import_mem = |memory: MemoryRef| -> (temp: Temp<MemoryRef>)
            ensures
                temp.kind() == TempKind::Defined(0),
            { Temp::from_defined(0) };
        let layout = first.module.extra.mem_layout.recover_vs_segments(import_mem);
        output.extra.mem_layout = layout;
        proof {
            let source = first.module.extra.mem_layout;
            let spaces = choose|spaces: Seq<VsState>|
                {
                    &&& #[trigger] are_recovered(source.segments@, spaces)
                    &&& are_specs_of(layout.segments@, source.segments@, spaces)
                    &&& layout.virtual_spaces@.len() == spaces.len()
                    &&& forall|v: int|
                        0 <= v < spaces.len() ==> is_imported_space(
                            import_mem,
                            spaces[v].location,
                            #[trigger] layout.virtual_spaces@[v],
                        )
                };
            assert forall|v: int| 0 <= v < spaces.len() implies is_copied_space(
                spaces[v].location,
                #[trigger] layout.virtual_spaces@[v],
            ) by {
                assert(is_imported_space(
                    import_mem,
                    spaces[v].location,
                    layout.virtual_spaces@[v],
                ));
            }
        }
    }

    /// A new module with the virtual spaces and segments of the first input file. A position
    /// independent module imports the globals that hold its bases, and those of the modules that
    /// it uses.
    pub fn start_module(input_files: &FileLoader, dylink: &DyLinkInfo) -> (r: Result<
        ModuleBuilder,
        PlanError,
    >)
        requires
            input_files@.len() > 0,
            is_recoverable(input_files@[0].module.extra.mem_layout),
        ensures
            match r {
                Ok(module) => is_started(
                    module,
                    input_files@[0].module.extra.mem_layout,
                    *dylink,
                ) && !uses_too_many(*dylink),
                Err(error) => error == PlanError::TooManyEntities && uses_too_many(*dylink),
            },
    {
        let mut module = ModuleBuilder::new();
        Self::copy_vs_segments(&mut module, input_files);
        if let DyLinkInfo::Dynamic { used_modules } = dylink {
            if used_modules.len() > (MAX_VALUE / 2) as usize {
                return Err(PlanError::TooManyEntities);
            }
            let ghost all = used_modules@;
            let ghost started = module;
            let our_got = import_bases(&mut module, "env".to_owned());
            assert(all.take(0) =~= Seq::<FileId>::empty());
            assert(started.globals@.imports =~= Seq::<ImportedGlobal>::empty());
            let mut i: usize = 0;
            while i < used_modules.len()
                invariant
                    i <= all.len() <= MAX_VALUE / 2,
                    all == used_modules@,
                    module == (ModuleBuilder { globals: module.globals, ..started }),
                    module.globals@.defined.len() == 0,
                    module.globals@.external.len() == 0,
                    module.globals@.imports.len() == 2 * i + 2,
                    are_got_imports(module.globals@.imports, all.take(i as int)),
                decreases all.len() - i,
            {
                let ghost before = module.globals@.imports;
                let _ = import_bases(&mut module, used_modules[i].to_text());
                proof {
                    assert(all.take(i + 1).drop_last() =~= all.take(i as int));
                    assert(module.globals@.imports.take(module.globals@.imports.len() - 2)
                        =~= before);
                }
                i = i + 1;
            }
            assert(all.take(i as int) =~= all);
            module.extra.got_info = Some(our_got);
        }
        Ok(module)
    }
}

/// Where the copied entities of a module come from.
pub open spec fn ref_sources(
    refs: Seq<(EntityLocation, TempEntityKind)>,
    module: Module,
) -> Map<EntityKind, EntityLocation>
    decreases refs.len(),
{
    if refs.len() == 0 {
        Map::empty()
    } else {
        ref_sources(refs.drop_last(), module).insert(refs.last().1.stable(module), refs.last().0)
    }
}

/// The entities of a module that stand for entities of input files.
pub open spec fn ref_outputs(
    refs: Seq<(EntityLocation, TempEntityKind)>,
    module: Module,
) -> Map<EntityLocation, EntityKind>
    decreases refs.len(),
{
    if refs.len() == 0 {
        Map::empty()
    } else {
        ref_outputs(refs.drop_last(), module).insert(refs.last().0, refs.last().1.stable(module))
    }
}

/// An entity of an input file that is copied is found under its final index, which leads back to
/// it, as long as nothing else is copied from the same place or to the same index later.
pub proof fn lemma_copied_entity_is_found(
    refs: Seq<(EntityLocation, TempEntityKind)>,
    module: Module,
    i: int,
)
    requires
        0 <= i < refs.len(),
        forall|j: int| i < j < refs.len() ==> (#[trigger] refs[j]).0 != refs[i].0,
        forall|j: int|
            i < j < refs.len() ==> (#[trigger] refs[j]).1.stable(module) != refs[i].1.stable(module),
    ensures
        ref_outputs(refs, module).contains_key(refs[i].0),
        ref_outputs(refs, module)[refs[i].0] == refs[i].1.stable(module),
        ref_sources(refs, module).contains_key(refs[i].1.stable(module)),
        ref_sources(refs, module)[refs[i].1.stable(module)] == refs[i].0,
    decreases refs.len(),
{
    if i < refs.len() - 1 {
        let rest = refs.drop_last();
        assert forall|j: int| i < j < rest.len() implies (#[trigger] rest[j]).0 != rest[i].0
            && rest[j].1.stable(module) != rest[i].1.stable(module) by {
            assert(refs[j].0 != refs[i].0);
        }
        assert(refs[refs.len() - 1].0 != refs[i].0);
        lemma_copied_entity_is_found(rest, module, i);
    }
}

/// Whether all copied entities have final indices.
pub open spec fn refs_stable(refs: Seq<(EntityLocation, TempEntityKind)>, module: Module) -> bool {
    forall|i: int| 0 <= i < refs.len() ==> (#[trigger] refs[i]).1.is_known(module)
}

/// Says where the copied entities of a module come from, by their final indices.
pub fn resolve_refs(refs: &Vec<(EntityLocation, TempEntityKind)>, module: &Module) -> (r: Result<
    OutputEntitiesResolver,
    PlanError,
>)
    requires
        module.extra.mem_layout.wf(),
    ensures
        match r {
            Ok(resolver) => {
                &&& refs_stable(refs@, *module)
                &&& resolver.wf()
                &&& resolver.sources() == ref_sources(refs@, *module)
                &&& resolver.outputs() == ref_outputs(refs@, *module)
            },
            Err(error) => error == PlanError::UnknownEntity && !refs_stable(refs@, *module),
        },
{
    let ghost all = refs@;
    let mut resolver = OutputEntitiesResolver::new();
    let mut i: usize = 0;
    assert(all.take(0) =~= Seq::<(EntityLocation, TempEntityKind)>::empty());
    while i < refs.len()
        invariant
            i <= all.len(),
            all == refs@,
            module.extra.mem_layout.wf(),
            resolver.wf(),
            forall|j: int| 0 <= j < i ==> (#[trigger] all[j]).1.is_known(*module),
            resolver.sources() == ref_sources(all.take(i as int), *module),
            resolver.outputs() == ref_outputs(all.take(i as int), *module),
        decreases all.len() - i,
    {
        let (location, temp) = refs[i];
        proof {
            assert(all.take(i + 1).drop_last() =~= all.take(i as int));
            assert(all.take(i + 1).last() == all[i as int]);
        }
        match temp.to_stable(module) {
            Some(entity) => resolver.add_entity_mapping(location, entity),
            None => {
                assert(!all[i as int].1.is_known(*module));
                return Err(PlanError::UnknownEntity);
            },
        }
        i = i + 1;
    }
    assert(all.take(i as int) =~= all);
    Ok(resolver)
}

/// Whether the modules that are used have indices.
pub open spec fn used_known(dylink: DyLinkInfo) -> bool {
    dylink matches DyLinkInfo::Dynamic { used_modules } ==> forall|i: int|
        0 <= i < used_modules@.len() ==> (#[trigger] used_modules@[i]).id() + 1 < u32::MAX
}

/// The base globals of a module and of the modules that it uses, by their final indices.
pub fn stable_gots(dylink: &DyLinkInfo) -> (r: Result<Option<DyLinkGots>, PlanError>)
    requires
        !uses_too_many(*dylink),
    ensures
        match r {
            Ok(info) => used_known(*dylink) && is_dyn_info(info, *dylink),
            Err(error) => error == PlanError::UnknownEntity && !used_known(*dylink),
        },
{
    match dylink {
        DyLinkInfo::Static => Ok(None),
        DyLinkInfo::Dynamic { used_modules } => {
            let ghost all = used_modules@;
            let mut deps: GappedMap<FileId, GotInfo> = GappedMap::new();
            let mut i: usize = 0;
            assert(all.take(0) =~= Seq::<FileId>::empty());
            while i < used_modules.len()
                invariant
                    i <= all.len() <= MAX_VALUE / 2,
                    all == used_modules@,
                    dylink matches DyLinkInfo::Dynamic { used_modules: used } && *used_modules
                        == used,
                    forall|j: int| 0 <= j < i ==> (#[trigger] all[j]).id() + 1 < u32::MAX,
                    deps.wf(),
                    deps@ == dep_gots(all.take(i as int)),
                decreases all.len() - i,
            {
                let file = used_modules[i];
                proof {
                    assert(all.take(i + 1).drop_last() =~= all.take(i as int));
                    assert(all.take(i + 1).last() == all[i as int]);
                }
                if file.as_u32() >= u32::MAX - 1 {
                    assert(!used_known(*dylink)) by {
                        assert(!(used_modules@[i as int].id() + 1 < u32::MAX));
                    }
                    return Err(PlanError::UnknownEntity);
                }
                let number: u32 = 2 * i as u32 + 2;
                let got = GotInfo {
                    memory_base: GlobalRef::from_u32(number),
                    table_base: GlobalRef::from_u32(number + 1),
                };
                let _ = deps.insert(file, got);
                i = i + 1;
            }
            assert(all.take(i as int) =~= all);
            let our_got = GotInfo {
                memory_base: GlobalRef::from_u32(0),
                table_base: GlobalRef::from_u32(1),
            };
            Ok(Some(DyLinkGots { our_got, deps }))
        },
    }
}

/// How the element segments of a module are placed.
pub open spec fn segment_kinds<T>(segments: Seq<SealedElementSegment<T>>) -> Seq<
    ElementKind<TableRef, GlobalRef>,
> {
    segments.map_values(|segment: SealedElementSegment<T>| segment.kind)
}

impl ModuleExtra {
    /// The segment of the functions that are called indirectly: the first one that is placed in a
    /// table.
    pub open spec fn indirect_segment(&self) -> Option<int> {
        first_active_kind(segment_kinds(self.function_elements.segments@))
    }

    /// The segment of the functions that are called indirectly: the first one that is placed in a
    /// table.
    pub fn get_indirect_fn_segment(&self) -> (r: Option<SegmentId>)
        requires
            self.function_elements.segments@.len() < u32::MAX,
        ensures
            match self.indirect_segment() {
                Some(s) => r matches Some(id) && id.id() == s && 0 <= s
                    < self.function_elements.segments@.len()
                    && self.function_elements.segments@[s].kind is Active,
                None => r is None,
            },
    {
        let segments = self.function_elements.segments.as_slice();
        let ghost kinds = segment_kinds(segments@);
        let mut s: usize = 0;
        proof {
            lemma_first_active_kind(kinds);
        }
        while s < segments.len()
            invariant
                s <= segments@.len() < u32::MAX,
                segments@ == self.function_elements.segments@,
                kinds == segment_kinds(segments@),
                forall|w: int| 0 <= w < s ==> !(#[trigger] kinds[w] is Active),
                match first_active_kind(kinds) {
                    Some(v) => 0 <= v < kinds.len() && kinds[v] is Active && forall|w: int|
                        0 <= w < v ==> !(#[trigger] kinds[w] is Active),
                    None => forall|w: int|
                        0 <= w < kinds.len() ==> !(#[trigger] kinds[w] is Active),
                },
            decreases segments@.len() - s,
        {
            assert(kinds[s as int] == segments@[s as int].kind);
            if segments[s].kind.is_active() {
                return Some(SegmentId::new(s));
            }
            s = s + 1;
        }
        None
    }
}

/// Whether functions are added to the segment of those that are called indirectly.
pub open spec fn has_indirect(before: Module, fns: Seq<FunctionRef>, after: Module) -> bool {
    let old_segments = before.extra.function_elements.segments@;
    let segments = after.extra.function_elements.segments@;
    &&& after == (Module {
        extra: ModuleExtra {
            function_elements: after.extra.function_elements,
            ..before.extra
        },
        ..before
    })
    &&& before.extra.indirect_segment() matches Some(s)
    &&& segments.len() == old_segments.len()
    &&& segments == old_segments.update(s, segments[s])
    &&& segments[s].kind == old_segments[s].kind
    &&& segments[s].name == old_segments[s].name
    &&& segments[s].parts@ == old_segments[s].parts@ + fns
}

/// Why functions cannot be added to the segment of those that are called indirectly.
pub open spec fn indirect_error(module: Module, count: nat) -> Option<PlanError> {
    let segments = module.extra.function_elements.segments@;
    if segments.len() >= u32::MAX {
        Some(PlanError::TooManyEntities)
    } else {
        match module.extra.indirect_segment() {
            None => Some(PlanError::NoIndirectSegment),
            Some(s) => if segments[s].parts@.len() + count >= u32::MAX {
                Some(PlanError::TooManyEntities)
            } else {
                None
            },
        }
    }
}

impl OutputModule {
    /// Adds functions to the segment of those that are called indirectly.
    pub fn add_indirect_fns_to_segment(module: &mut Module, indirect_fns: Vec<FunctionRef>) -> (r:
        Result<(), PlanError>)
        ensures
            match indirect_error(*old(module), indirect_fns@.len()) {
                Some(error) => r matches Err(e) && e == error && *final(module) == *old(module),
                None => r is Ok && has_indirect(*old(module), indirect_fns@, *final(module)),
            },
    {
        if module.extra.function_elements.segments.len() >= u32::MAX as usize {
            return Err(PlanError::TooManyEntities);
        }
        let segment_id = match module.extra.get_indirect_fn_segment() {
            Some(segment_id) => segment_id,
            None => return Err(PlanError::NoIndirectSegment),
        };
        let used: usize = module.extra.function_elements.segments.at(segment_id).parts.len();
        if used as u128 + indirect_fns.len() as u128 >= u32::MAX as u128 {
            return Err(PlanError::TooManyEntities);
        }
        let ghost before = *module;
        let ghost s = segment_id.id() as int;
        let ghost old_segments = module.extra.function_elements.segments@;
        let segment = module.extra.function_elements.segments.at_mut(segment_id);
        let mut i: usize = 0;
        assert(segment.parts@ =~= old_segments[s].parts@ + indirect_fns@.take(0));
        while i < indirect_fns.len()
            invariant
                i <= indirect_fns@.len(),
                segment.kind == old_segments[s].kind,
                segment.name == old_segments[s].name,
                old_segments[s].parts@.len() + indirect_fns@.len() < u32::MAX,
                segment.parts@ == old_segments[s].parts@ + indirect_fns@.take(i as int),
                after_borrow(module.extra.function_elements.segments)@ == old_segments.update(
                    s,
                    *final(segment),
                ),
            decreases indirect_fns@.len() - i,
        {
            let _ = segment.parts.push(indirect_fns[i]);
            i = i + 1;
            assert(segment.parts@ =~= old_segments[s].parts@ + indirect_fns@.take(i as int));
        }
        assert(indirect_fns@.take(i as int) =~= indirect_fns@);
        proof {
            assert(module.extra.function_elements.segments@ =~= old_segments.update(
                s,
                module.extra.function_elements.segments@[s],
            ));
        }
        Ok(())
    }
}

/// What a run of a plan goes through.
#[verifier::reject_recursive_types(M)]
pub ghost struct PlanRun<M: OutputPlan> {
    /// The module before the plan is set up.
    pub started: ModuleBuilder,
    /// The plan while entities are copied.
    pub copying: M,
    pub states: Seq<CopyState<M::Artifacts>>,
    /// The module with a place for functions that are called indirectly.
    pub placed: ModuleBuilder,
    /// The plan and the module before indices are fixed.
    pub prepared_plan: M,
    pub prepared: ModuleBuilder,
    /// The module right after indices are fixed, and where its entities come from.
    pub locked: Module,
    pub resolver: OutputEntitiesResolver,
    /// The module that the plan leaves behind.
    pub finished: Module,
    /// The module without the relocations in its bodies.
    pub drained: Module,
}

/// Whether the relocations are moved out of the bodies of a module.
pub open spec fn relocs_taken(
    resolver: OutputEntitiesResolver,
    files: Seq<LoadedFile>,
    before: Module,
    after: Module,
    relocs: FileRelocs,
) -> bool {
    let functions = before.functions@;
    let layout = before.extra.mem_layout;
    &&& module_ready(resolver, files, before)
    &&& relocs.wf()
    &&& functions_own(
        resolver,
        files,
        functions.defined,
        functions.imports.len() as int,
        relocs.code(),
        relocs.all(),
    )
    &&& data_owns(resolver, files, layout, layout.defined@.len(), relocs.data(), relocs.all())
    &&& after.globals == before.globals
    &&& after.tables == before.tables
    &&& after.memories == before.memories
    &&& after.tags == before.tags
    &&& after.extra.function_elements == before.extra.function_elements
    &&& after.extra.start_function == before.extra.start_function
    &&& after.functions@.imports == functions.imports
    &&& after.functions@.external == functions.external
    &&& after.functions@.defined.len() == functions.defined.len()
    &&& forall|i: int|
        0 <= i < functions.defined.len() ==> is_drained_entity(
            functions.defined[i],
            #[trigger] after.functions@.defined[i],
        )
    &&& is_drained_layout(layout, after.extra.mem_layout, layout.defined@.len())
}

/// Whether a run of a plan leads to an output module.
pub open spec fn is_run<M: OutputPlan>(
    run: PlanRun<M>,
    before: M,
    after: M,
    files: Seq<LoadedFile>,
    snapshot: MultiSnapshot,
    dylink: DyLinkInfo,
    output: OutputModule,
) -> bool {
    let copied = run.states.last();
    &&& is_started(run.started, files[0].module.extra.mem_layout, dylink)
    &&& M::is_setup(before, run.copying, run.started, run.states[0].module)
    &&& are_steps(
        run.copying,
        files,
        snapshot,
        run.states,
        run.copying.entities().len() as int,
    )
    &&& match first_active_kind(copied.module.extra.function_elements.virtual_spaces@) {
        Some(_) => run.placed == copied.module,
        None => has_new_place(copied.module, run.placed),
    }
    &&& M::is_prepared(
        run.copying,
        run.prepared_plan,
        copied.artifacts,
        run.placed,
        run.prepared,
    )
    &&& is_locked(run.prepared, run.locked)
    &&& refs_stable(copied.refs, run.locked)
    &&& run.resolver.sources() == ref_sources(copied.refs, run.locked)
    &&& run.resolver.outputs() == ref_outputs(copied.refs, run.locked)
    &&& M::is_finished(
        run.prepared_plan,
        after,
        copied.artifacts,
        run.locked,
        run.finished,
        run.resolver,
        output.resolver,
    )
    &&& relocs_taken(output.resolver, files, run.finished, run.drained, output.relocs)
    &&& has_indirect(run.drained, indirect_fns(output.relocs.all()), output.module)
    &&& is_dyn_info(output.dyn_info, dylink)
}

/// What a run of a plan that fails leaves behind last: the plan, where the entities of the module
/// come from, and the relocations of the module.
#[verifier::reject_recursive_types(M)]
pub ghost struct PlanEnd<M: OutputPlan> {
    pub plan: M,
    pub resolver: OutputEntitiesResolver,
    pub relocs: FileRelocs,
}

/// Why a plan cannot be finished after the indices of its module are fixed.
pub open spec fn locked_refused<M: OutputPlan>(
    run: PlanRun<M>,
    end: PlanEnd<M>,
    files: Seq<LoadedFile>,
    dylink: DyLinkInfo,
    error: PlanError,
) -> bool {
    let copied = run.states.last();
    ||| error == PlanError::UnknownEntity && !refs_stable(copied.refs, run.locked)
    ||| error == PlanError::UnknownEntity && !used_known(dylink)
    ||| {
        &&& run.resolver.sources() == ref_sources(copied.refs, run.locked)
        &&& run.resolver.outputs() == ref_outputs(copied.refs, run.locked)
        &&& {
            ||| run.prepared_plan.finish_refused(copied.artifacts, run.locked, run.resolver, error)
            ||| {
                &&& M::is_finished(
                    run.prepared_plan,
                    end.plan,
                    copied.artifacts,
                    run.locked,
                    run.finished,
                    run.resolver,
                    end.resolver,
                )
                &&& {
                    ||| error == PlanError::Unresolved && !module_ready(
                        end.resolver,
                        files,
                        run.finished,
                    )
                    ||| relocs_taken(end.resolver, files, run.finished, run.drained, end.relocs)
                        && indirect_error(run.drained, indirect_fns(end.relocs.all()).len())
                        == Some(error)
                }
            }
        }
    }
}

/// Why a plan cannot be executed after its entities are copied.
pub open spec fn copied_refused<M: OutputPlan>(
    run: PlanRun<M>,
    end: PlanEnd<M>,
    files: Seq<LoadedFile>,
    dylink: DyLinkInfo,
    error: PlanError,
) -> bool {
    let copied = run.states.last();
    let elements = copied.module.extra.function_elements;
    ||| error == PlanError::TooManyEntities && (elements.virtual_spaces@.len() >= u32::MAX
        || elements.segments@.len() >= u32::MAX)
    ||| {
        &&& match first_active_kind(elements.virtual_spaces@) {
            Some(_) => run.placed == copied.module,
            None => has_new_place(copied.module, run.placed),
        }
        &&& {
            ||| run.copying.prepare_refused(copied.artifacts, run.placed, error)
            ||| {
                &&& M::is_prepared(
                    run.copying,
                    run.prepared_plan,
                    copied.artifacts,
                    run.placed,
                    run.prepared,
                )
                &&& match lock_error(run.prepared) {
                    Some(e) => error == PlanError::Lock(e),
                    None => is_locked(run.prepared, run.locked) && locked_refused(
                        run,
                        end,
                        files,
                        dylink,
                        error,
                    ),
                }
            }
        }
    }
}

/// Whether a run of a plan ends with an error.
pub open spec fn is_refused_run<M: OutputPlan>(
    run: PlanRun<M>,
    end: PlanEnd<M>,
    before: M,
    files: Seq<LoadedFile>,
    snapshot: MultiSnapshot,
    dylink: DyLinkInfo,
    error: PlanError,
) -> bool {
    if uses_too_many(dylink) {
        error == PlanError::TooManyEntities
    } else {
        &&& is_started(run.started, files[0].module.extra.mem_layout, dylink)
        &&& {
            ||| before.setup_refused(run.started, error)
            ||| {
                &&& M::is_setup(before, run.copying, run.started, run.states[0].module)
                &&& {
                    ||| copy_refused(run.copying, files, snapshot, run.states[0].module, error)
                    ||| are_steps(
                        run.copying,
                        files,
                        snapshot,
                        run.states,
                        run.copying.entities().len() as int,
                    ) && copied_refused(run, end, files, dylink, error)
                }
            }
        }
    }
}

/// Why a plan cannot be executed.
pub open spec fn plan_refused<M: OutputPlan>(
    before: M,
    files: Seq<LoadedFile>,
    snapshot: MultiSnapshot,
    dylink: DyLinkInfo,
    error: PlanError,
) -> bool {
    exists|run: PlanRun<M>, end: PlanEnd<M>| #[trigger]
        is_refused_run(run, end, before, files, snapshot, dylink, error)
}

impl OutputModule {
    /// Executes a plan: copies entities of input files into a new module, fixes their indices and
    /// collects their relocations. Functions that relocations refer to by their index in a table
    /// get one.
    pub fn from_copy_plan<M: OutputPlan>(
        plan: &mut M,
        input_files: &FileLoader,
        snapshot: &MultiSnapshot,
        dylink: DyLinkInfo,
    ) -> (r: Result<OutputModule, PlanError>)
        requires
            old(plan).valid(),
            input_files@.len() > 0,
            files_valid(input_files@),
            snapshot@ == snapshots(input_files@),
            is_recoverable(input_files@[0].module.extra.mem_layout),
        ensures
            final(plan).valid(),
            r matches Ok(output) ==> output.module.extra.mem_layout.wf() && output.relocs.wf(),
            r matches Ok(output) ==> exists|run: PlanRun<M>| #[trigger]
                is_run(run, *old(plan), *final(plan), input_files@, *snapshot, dylink, output),
            r matches Err(error) ==> plan_refused(
                *old(plan),
                input_files@,
                *snapshot,
                dylink,
                error,
            ),
    {
        let ghost files = input_files@;
        let ghost before = *plan;
        let ghost mut run: PlanRun<M> = arbitrary();
        let ghost mut end: PlanEnd<M> = arbitrary();
        let mut module = match Self::start_module(input_files, &dylink) {
            Ok(module) => module,
            Err(error) => {
                assert(is_refused_run(run, end, before, files, *snapshot, dylink, error));
                return Err(error);
            },
        };
        proof {
            run.started = module;
        }
        match plan.setup(&mut module) {
            Ok(_) => {},
            Err(error) => {
                assert(is_refused_run(run, end, before, files, *snapshot, dylink, error));
                return Err(error);
            },
        }
        let ghost copying = *plan;
        let ghost set_up = module;
        proof {
            run.copying = copying;
        }
        let (artifacts, refs) = match copy_entities(plan, &mut module, input_files, snapshot) {
            Ok(copied) => copied,
            Err(error) => {
                proof {
                    run.states = seq![CopyState { module: set_up, artifacts: arbitrary(), refs: seq![] }];
                    assert(is_refused_run(run, end, before, files, *snapshot, dylink, error));
                }
                return Err(error);
            },
        };
        let ghost states = choose|states: Seq<CopyState<M::Artifacts>>|
            {
                &&& #[trigger] are_steps(
                    copying,
                    files,
                    *snapshot,
                    states,
                    copying.entities().len() as int,
                )
                &&& states[0].module == set_up
                &&& states.last() == (CopyState { module, artifacts, refs: refs@ })
            };
        proof {
            run.states = states;
        }
        if module.extra.function_elements.virtual_spaces.len() >= u32::MAX as usize
            || module.extra.function_elements.segments.len() >= u32::MAX as usize {
            let error = PlanError::TooManyEntities;
            assert(is_refused_run(run, end, before, files, *snapshot, dylink, error));
            return Err(error);
        }
        module.create_empty_indirect_fn_table();
        proof {
            run.placed = module;
        }
        match plan.before_lock(&mut module, &artifacts) {
            Ok(_) => {},
            Err(error) => {
                assert(is_refused_run(run, end, before, files, *snapshot, dylink, error));
                return Err(error);
            },
        }
        proof {
            run.prepared_plan = *plan;
            run.prepared = module;
        }
        let mut module = match module.into_locked() {
            Ok(module) => module,
            Err(error) => {
                let error = PlanError::Lock(error);
                assert(is_refused_run(run, end, before, files, *snapshot, dylink, error));
                return Err(error);
            },
        };
        proof {
            run.locked = module;
        }
        let mut resolver = match resolve_refs(&refs, &module) {
            Ok(resolver) => resolver,
            Err(error) => {
                assert(is_refused_run(run, end, before, files, *snapshot, dylink, error));
                return Err(error);
            },
        };
        proof {
            run.resolver = resolver;
        }
        let dyn_info = match stable_gots(&dylink) {
            Ok(dyn_info) => dyn_info,
            Err(error) => {
                assert(is_refused_run(run, end, before, files, *snapshot, dylink, error));
                return Err(error);
            },
        };
        match plan.finish(&mut module, artifacts, &mut resolver) {
            Ok(_) => {},
            Err(error) => {
                assert(is_refused_run(run, end, before, files, *snapshot, dylink, error));
                return Err(error);
            },
        }
        let ghost finished = module;
        proof {
            run.finished = module;
            end.plan = *plan;
            end.resolver = resolver;
        }
        assert forall|f: int| 0 <= f < files.len() implies (#[trigger] files[f]).relocs.wf() by {
            assert(file_valid(files[f]));
        }
        if !module_is_ready(&resolver, input_files, &module) {
            let error = PlanError::Unresolved;
            assert(is_refused_run(run, end, before, files, *snapshot, dylink, error));
            return Err(error);
        }
        let relocs = module.copy_and_resolve_relocs(&resolver, input_files);
        proof {
            run.drained = module;
            end.relocs = relocs;
            lemma_drained_wf(
                finished.extra.mem_layout,
                module.extra.mem_layout,
                finished.extra.mem_layout.defined@.len(),
            );
        }
        match Self::add_indirect_fns_to_segment(&mut module, relocs.list_indirect_fns()) {
            Ok(_) => {},
            Err(error) => {
                assert(is_refused_run(run, end, before, files, *snapshot, dylink, error));
                return Err(error);
            },
        }
        let output = OutputModule { module, resolver, dyn_info, relocs };
        assert(is_run(run, before, *plan, files, *snapshot, dylink, output));
        Ok(output)
    }
}

} // verus!
