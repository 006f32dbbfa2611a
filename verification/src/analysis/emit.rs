//! The output modules of a split program.
use crate::analysis::compute::{modules_valid, SplitProgramInfo};
use crate::analysis::entity_set::EntitySet;
use crate::analysis::modules::{NamedModule, OutputModuleInfo};
use crate::analysis::split_plan::{
    export_funcs, info_known, is_new_plan, GotConverter, SplitModulePlan,
};
use crate::analysis::split_point::{
    split_text, ModuleName, SharedModuleIdentifier, SplitModuleIdentifier, SplitName, SplitPoint,
};
use crate::analysis::trampolines::{
    copy_split_points, fill_error, is_filled_module, IndirectFnLayout,
};
use crate::emit::modify::blacklist::IsSet;
use crate::emit::plan::context::EmitContext;
use crate::emit::plan::copy::files_valid;
use crate::emit::plan::definition::{OutputId, PlanError};
use crate::emit::plan::layouts::{are_files, cannot_emit, is_emitted, write_error};
use crate::emit::plan::output::{is_run, plan_refused, OutputModule, PlanRun};
use crate::emit::plan::DyLinkInfo;
use crate::index::{lemma_insert_then_get, slot_at, GappedMap, PrimaryMap, SecondaryMap, TempIndex};
use crate::layouts::recover::is_recoverable;
use crate::typed::file_loader::{snapshots, FileLoader, LoadedFile};
use crate::typed::snapshot::{FlatEntityRef, MultiSnapshot};
use crate::typed::FileId;
use vstd::prelude::*;

verus! {

/// The entities of the main module, whose addresses are fixed.
#[derive(Debug, Clone, Copy)]
pub struct MainEntities<'a> {
    pub entities: &'a EntitySet,
}

impl<'a> IsSet for MainEntities<'a> {
    open spec fn can_ask(&self, entity: FlatEntityRef) -> bool {
        self.entities.wf()
    }

    open spec fn answers(&self, entity: FlatEntityRef, answer: bool) -> bool {
        answer == self.entities@.contains(entity)
    }

    fn contains(&self, entity: FlatEntityRef) -> (r: bool) {
        self.entities.contains(entity)
    }
}

/// The split points of all modules.
pub open spec fn all_points(modules: Seq<NamedModule>) -> Seq<SplitPoint>
    decreases modules.len(),
{
    if modules.len() == 0 {
        Seq::empty()
    } else {
        all_points(modules.drop_last()) + modules.last().1.split_points@
    }
}

fn list_points(modules: &Vec<NamedModule>) -> (r: Vec<SplitPoint>)
    ensures
        r@ == all_points(modules@),
{
    let mut points: Vec<SplitPoint> = Vec::new();
    let mut i: usize = 0;
    assert(modules@.take(0) =~= Seq::<NamedModule>::empty());
    while i < modules.len()
        invariant
            i <= modules@.len(),
            points@ == all_points(modules@.take(i as int)),
        decreases modules@.len() - i,
    {
        let mut more = copy_split_points(&modules[i].1.split_points);
        points.append(&mut more);
        assert(modules@.take(i + 1).drop_last() =~= modules@.take(i as int));
        i = i + 1;
    }
    assert(modules@.take(i as int) =~= modules@);
    points
}

/// Whether names are those of modules.
pub open spec fn are_names(names: Seq<OutputId>, modules: Seq<NamedModule>) -> bool {
    &&& names.len() == modules.len()
    &&& forall|i: int|
        0 <= i < names.len() ==> (#[trigger] names[i])@ == split_text(modules[i].0@)
}

fn list_names(modules: &Vec<NamedModule>) -> (r: PrimaryMap<FileId, OutputId>)
    ensures
        are_names(r@, modules@),
{
    let mut names: Vec<OutputId> = Vec::new();
    let mut i: usize = 0;
    while i < modules.len()
        invariant
            i <= modules@.len(),
            names@.len() == i,
            forall|j: int| 0 <= j < i ==> (#[trigger] names@[j])@ == split_text(modules@[j].0@),
        decreases modules@.len() - i,
    {
        names.push(modules[i].0.to_text());
        i = i + 1;
    }
    PrimaryMap::from_vec(names)
}

/// Whether a map tells the modules of entities.
pub open spec fn are_owners(
    map: GappedMap<FlatEntityRef, FileId>,
    owners: SecondaryMap<FlatEntityRef, usize>,
    count: nat,
) -> bool {
    &&& map.wf()
    &&& forall|k: nat| #[trigger]
        slot_at(map@, k) == if k < count {
            Some(FileId { id: owners.value(k) as u32 })
        } else {
            None
        }
}

/// Whether all entities and their modules have indices.
pub open spec fn owners_fit(owners: SecondaryMap<FlatEntityRef, usize>) -> bool {
    &&& owners.span() + 1 < u32::MAX
    &&& forall|k: nat| k < owners.span() ==> #[trigger] owners.value(k) < u32::MAX
}

fn list_owners(owners: &SecondaryMap<FlatEntityRef, usize>) -> (r: Result<
    GappedMap<FlatEntityRef, FileId>,
    PlanError,
>)
    ensures
        match r {
            Ok(map) => owners_fit(*owners) && are_owners(map, *owners, owners.span()),
            Err(error) => error == PlanError::TooManyEntities && !owners_fit(*owners),
        },
{
    if owners.len() as u128 + 1 >= u32::MAX as u128 {
        return Err(PlanError::TooManyEntities);
    }
    let mut map: GappedMap<FlatEntityRef, FileId> = GappedMap::new();
    let count: u32 = owners.len() as u32;
    let mut i: u32 = 0;
    while i < count
        invariant
            i <= count == owners.span(),
            count + 1 < u32::MAX,
            forall|k: nat| k < i ==> #[trigger] owners.value(k) < u32::MAX,
            are_owners(map, *owners, i as nat),
        decreases count - i,
    {
        let key = FlatEntityRef::from_u32(i);
        let number: usize = owners.get(key);
        if number as u128 >= u32::MAX as u128 {
            assert(!(owners.value(i as nat) < u32::MAX));
            return Err(PlanError::TooManyEntities);
        }
        let file = FileId::new(number);
        let ghost before = map@;
        let _ = map.insert(key, file);
        proof {
            assert forall|k: nat| #[trigger] slot_at(map@, k) == if k < i + 1 {
                Some(FileId { id: owners.value(k) as u32 })
            } else {
                None
            } by {
                lemma_insert_then_get(before, i as nat, file, k);
            }
        }
        i = i + 1;
    }
    Ok(map)
}

/// Whether a module is the first one with a name.
pub open spec fn is_module_number(
    modules: Seq<NamedModule>,
    names: Seq<ModuleName>,
    number: int,
) -> bool {
    &&& 0 <= number < modules.len()
    &&& modules[number].0@ == SplitName::Shared(names)
    &&& forall|j: int|
        0 <= j < number ==> (#[trigger] modules[j]).0@ != SplitName::Shared(names)
}

/// Whether files are the modules that a module depends on.
pub open spec fn are_used(
    modules: Seq<NamedModule>,
    deps: Seq<(SharedModuleIdentifier, EntitySet)>,
    used: Seq<FileId>,
) -> bool {
    &&& used.len() == deps.len()
    &&& forall|i: int|
        0 <= i < deps.len() ==> is_module_number(
            modules,
            deps[i].0@,
            (#[trigger] used[i]).id() as int,
        )
}

fn find_module(modules: &Vec<NamedModule>, id: &SharedModuleIdentifier) -> (r: Option<usize>)
    ensures
        match r {
            Some(number) => is_module_number(modules@, id@, number as int),
            None => forall|j: int|
                0 <= j < modules@.len() ==> (#[trigger] modules@[j]).0@ != SplitName::Shared(id@),
        },
{
    let mut i: usize = 0;
    while i < modules.len()
        invariant
            i <= modules@.len(),
            forall|j: int|
                0 <= j < i ==> (#[trigger] modules@[j]).0@ != SplitName::Shared(id@),
        decreases modules@.len() - i,
    {
        if let SplitModuleIdentifier::Shared(shared) = &modules[i].0 {
            if shared.same(id) {
                return Some(i);
            }
        }
        i = i + 1;
    }
    None
}

/// Whether a module depends on one that is not there.
pub open spec fn lacks_module(
    modules: Seq<NamedModule>,
    deps: Seq<(SharedModuleIdentifier, EntitySet)>,
) -> bool {
    exists|i: int|
        0 <= i < deps.len() && forall|j: int|
            0 <= j < modules.len() ==> (#[trigger] modules[j]).0@ != SplitName::Shared(
                (#[trigger] deps[i]).0@,
            )
}

fn list_used(modules: &Vec<NamedModule>, info: &OutputModuleInfo) -> (r: Result<
    Vec<FileId>,
    PlanError,
>)
    requires
        modules@.len() < u32::MAX,
    ensures
        match r {
            Ok(used) => are_used(modules@, info.dependencies@, used@),
            Err(error) => error == PlanError::UnknownEntity && lacks_module(
                modules@,
                info.dependencies@,
            ),
        },
{
    let mut used: Vec<FileId> = Vec::new();
    let mut i: usize = 0;
    while i < info.dependencies.len()
        invariant
            i <= info.dependencies@.len(),
            modules@.len() < u32::MAX,
            used@.len() == i,
            forall|k: int|
                0 <= k < i ==> is_module_number(
                    modules@,
                    info.dependencies@[k].0@,
                    (#[trigger] used@[k]).id() as int,
                ),
        decreases info.dependencies@.len() - i,
    {
        match find_module(modules, &info.dependencies[i].0) {
            Some(number) => used.push(FileId::new(number)),
            None => {
                assert(lacks_module(modules@, info.dependencies@)) by {
                    let dep = info.dependencies@[i as int];
                }
                return Err(PlanError::UnknownEntity);
            },
        }
        i = i + 1;
    }
    Ok(used)
}

/// How the main module of a split program comes about.
pub ghost struct MainRun<'a> {
    pub plan: SplitModulePlan<MainEntities<'a>>,
    pub finished_plan: SplitModulePlan<MainEntities<'a>>,
    pub run: PlanRun<SplitModulePlan<MainEntities<'a>>>,
    /// The module before the functions that call others through the table have their bodies.
    pub output: OutputModule,
}

/// Whether a module is the main module of a split program. The entries of split points stand behind
/// its functions in the table.
pub open spec fn is_main_output(
    program: SplitProgramInfo,
    files: Seq<LoadedFile>,
    snapshot: MultiSnapshot,
    main: MainRun<'_>,
    layout: IndirectFnLayout,
    output: OutputModule,
) -> bool {
    let modules = program.output_modules@;
    let points = all_points(modules);
    &&& is_new_plan(
        main.plan,
        files,
        snapshot,
        modules[0].1,
        program.symbol_output_module,
        points,
    )
    &&& main.plan.is_main is Static
    &&& is_run(
        main.run,
        main.plan,
        main.finished_plan,
        files,
        snapshot,
        DyLinkInfo::Static,
        main.output,
    )
    &&& IndirectFnLayout::module_end(main.output.module) == Ok::<int, PlanError>(
        layout.start_dyn as int,
    )
    &&& layout.dyn_fns@ == points
    &&& is_filled_module(
        layout,
        main.finished_plan.trampoline_fns,
        main.output.module,
        output.module,
    )
    &&& output == (OutputModule { module: output.module, ..main.output })
}

/// How a module of a split program that is loaded later comes about.
pub ghost struct SubRun<'a> {
    pub plan: SplitModulePlan<MainEntities<'a>>,
    pub finished_plan: SplitModulePlan<MainEntities<'a>>,
    pub run: PlanRun<SplitModulePlan<MainEntities<'a>>>,
    pub used: Vec<FileId>,
}

/// Whether a plan is that of a module of a split program that is loaded later. The addresses of the
/// entities of the main module are fixed in it, and others are relative.
pub open spec fn is_sub_plan(
    program: SplitProgramInfo,
    files: Seq<LoadedFile>,
    snapshot: MultiSnapshot,
    i: int,
    plan: SplitModulePlan<MainEntities<'_>>,
    layout: IndirectFnLayout,
) -> bool {
    let modules = program.output_modules@;
    &&& is_new_plan(
        plan,
        files,
        snapshot,
        modules[i].1,
        program.symbol_output_module,
        all_points(modules),
    )
    &&& plan.is_main matches GotConverter::NotInitted { blacklist, main_layout, sp_exports }
    &&& *blacklist.entities == modules[0].1.defined_symbols
    &&& main_layout.start_dyn == layout.start_dyn
    &&& main_layout.dyn_fns@ == layout.dyn_fns@
    &&& sp_exports@ == export_funcs(modules[i].1.split_points@)
}

/// Whether a module is one of a split program that is loaded later.
pub open spec fn is_sub_output(
    program: SplitProgramInfo,
    files: Seq<LoadedFile>,
    snapshot: MultiSnapshot,
    i: int,
    sub: SubRun<'_>,
    layout: IndirectFnLayout,
    output: OutputModule,
) -> bool {
    let modules = program.output_modules@;
    &&& is_sub_plan(program, files, snapshot, i, sub.plan, layout)
    &&& are_used(modules, modules[i].1.dependencies@, sub.used@)
    &&& is_run(
        sub.run,
        sub.plan,
        sub.finished_plan,
        files,
        snapshot,
        DyLinkInfo::Dynamic { used_modules: sub.used },
        output,
    )
}

/// Whether the plan of the main module of a split program cannot be executed, or its table has no
/// room for the entries of split points, or its functions that call those entries have no bodies.
pub open spec fn is_refused_main(
    program: SplitProgramInfo,
    files: Seq<LoadedFile>,
    snapshot: MultiSnapshot,
    main: MainRun<'_>,
    layout: IndirectFnLayout,
    error: PlanError,
) -> bool {
    let modules = program.output_modules@;
    let points = all_points(modules);
    let module = main.output.module;
    &&& is_new_plan(
        main.plan,
        files,
        snapshot,
        modules[0].1,
        program.symbol_output_module,
        points,
    )
    &&& main.plan.is_main is Static
    &&& {
        ||| plan_refused(main.plan, files, snapshot, DyLinkInfo::Static, error)
        ||| {
            &&& is_run(
                main.run,
                main.plan,
                main.finished_plan,
                files,
                snapshot,
                DyLinkInfo::Static,
                main.output,
            )
            &&& match IndirectFnLayout::module_end(module) {
                Err(e) => error == e,
                Ok(end) => if end + points.len() > u32::MAX {
                    error == PlanError::TooManyEntities
                } else {
                    &&& layout.start_dyn == end
                    &&& layout.dyn_fns@ == points
                    &&& fill_error(layout, main.finished_plan.trampoline_fns, module) == Some(error)
                },
            }
        }
    }
}

/// Why the main module of a split program cannot be made.
pub open spec fn main_refused(
    program: SplitProgramInfo,
    files: Seq<LoadedFile>,
    snapshot: MultiSnapshot,
    error: PlanError,
) -> bool {
    let modules = program.output_modules@;
    ||| error == PlanError::UnknownEntity && !info_known(
        snapshot,
        modules[0].1,
        program.symbol_output_module,
        all_points(modules),
    )
    ||| exists|main: MainRun<'_>, layout: IndirectFnLayout| #[trigger]
        is_refused_main(program, files, snapshot, main, layout, error)
}

/// Whether the plan of a module that is loaded later cannot be executed.
pub open spec fn is_refused_sub(
    program: SplitProgramInfo,
    files: Seq<LoadedFile>,
    snapshot: MultiSnapshot,
    i: int,
    plan: SplitModulePlan<MainEntities<'_>>,
    used: Vec<FileId>,
    layout: IndirectFnLayout,
    error: PlanError,
) -> bool {
    let modules = program.output_modules@;
    &&& is_sub_plan(program, files, snapshot, i, plan, layout)
    &&& are_used(modules, modules[i].1.dependencies@, used@)
    &&& plan_refused(
        plan,
        files,
        snapshot,
        DyLinkInfo::Dynamic { used_modules: used },
        error,
    )
}

/// Why a module of a split program that is loaded later cannot be made.
pub open spec fn sub_refused(
    program: SplitProgramInfo,
    files: Seq<LoadedFile>,
    snapshot: MultiSnapshot,
    i: int,
    layout: IndirectFnLayout,
    error: PlanError,
) -> bool {
    let modules = program.output_modules@;
    ||| error == PlanError::UnknownEntity && !info_known(
        snapshot,
        modules[i].1,
        program.symbol_output_module,
        all_points(modules),
    )
    ||| error == PlanError::UnknownEntity && lacks_module(modules, modules[i].1.dependencies@)
    ||| exists|plan: SplitModulePlan<MainEntities<'_>>, used: Vec<FileId>| #[trigger]
        is_refused_sub(program, files, snapshot, i, plan, used, layout, error)
}

/// Whether a module is the main module of a split program.
pub open spec fn has_main_run(
    program: SplitProgramInfo,
    files: Seq<LoadedFile>,
    snapshot: MultiSnapshot,
    layout: IndirectFnLayout,
    output: OutputModule,
) -> bool {
    exists|main: MainRun<'_>| #[trigger]
        is_main_output(program, files, snapshot, main, layout, output)
}

/// Whether a module is one of a split program that is loaded later.
pub open spec fn has_sub_run(
    program: SplitProgramInfo,
    files: Seq<LoadedFile>,
    snapshot: MultiSnapshot,
    i: int,
    layout: IndirectFnLayout,
    output: OutputModule,
) -> bool {
    exists|sub: SubRun<'_>| #[trigger]
        is_sub_output(program, files, snapshot, i, sub, layout, output)
}

/// Whether output modules are those of a split program.
pub open spec fn are_split_outputs(
    program: SplitProgramInfo,
    files: Seq<LoadedFile>,
    snapshot: MultiSnapshot,
    layout: IndirectFnLayout,
    outputs: Seq<OutputModule>,
) -> bool {
    &&& outputs.len() > 0
    &&& has_main_run(program, files, snapshot, layout, outputs[0])
    &&& forall|i: int|
        1 <= i < outputs.len() ==> has_sub_run(
            program,
            files,
            snapshot,
            i,
            layout,
            #[trigger] outputs[i],
        )
}

/// Whether the first modules of a split program can be made, and the next one cannot.
pub open spec fn stops_at(
    program: SplitProgramInfo,
    files: Seq<LoadedFile>,
    snapshot: MultiSnapshot,
    layout: IndirectFnLayout,
    outputs: Seq<OutputModule>,
    error: PlanError,
) -> bool {
    &&& outputs.len() < program.output_modules@.len()
    &&& are_split_outputs(program, files, snapshot, layout, outputs)
    &&& sub_refused(program, files, snapshot, outputs.len() as int, layout, error)
}

/// Why the output modules of a split program cannot be made, by the snapshot of the input files.
pub open spec fn outputs_refused(
    program: SplitProgramInfo,
    files: Seq<LoadedFile>,
    snapshot: MultiSnapshot,
    error: PlanError,
) -> bool {
    &&& snapshot@ == snapshots(files)
    &&& {
        ||| main_refused(program, files, snapshot, error)
        ||| exists|layout: IndirectFnLayout, outputs: Seq<OutputModule>| #[trigger]
            stops_at(program, files, snapshot, layout, outputs, error)
    }
}

/// Why the output modules of a split program cannot be made.
pub open spec fn emit_refused(
    program: SplitProgramInfo,
    files: Seq<LoadedFile>,
    error: PlanError,
) -> bool {
    ||| error == PlanError::TooManyEntities && !owners_fit(program.symbol_output_module)
    ||| exists|snapshot: MultiSnapshot| #[trigger]
        outputs_refused(program, files, snapshot, error)
}

/// Whether a context holds the output modules of a split program, which are not written yet.
pub open spec fn is_emit_context(
    program: SplitProgramInfo,
    files: Seq<LoadedFile>,
    context: EmitContext<'_>,
) -> bool {
    let outputs = context.output_modules@;
    &&& context.snapshot@ == snapshots(files)
    &&& are_names(context.output_names@, program.output_modules@)
    &&& are_owners(
        context.dylink_exports_map,
        program.symbol_output_module,
        program.symbol_output_module.span(),
    )
    &&& outputs.len() == program.output_modules@.len()
    &&& context.writers@.len() == 0
    &&& context.layouts@.len() == 0
    &&& forall|i: int|
        0 <= i < outputs.len() ==> (#[trigger] outputs[i]).module.extra.mem_layout.wf()
            && outputs[i].relocs.wf()
    &&& exists|layout: IndirectFnLayout| #[trigger]
        are_split_outputs(program, files, context.snapshot, layout, outputs)
}

/// Whether a list holds the names and bytes of the output modules of a split program.
pub open spec fn are_split_files(
    program: SplitProgramInfo,
    files: Seq<LoadedFile>,
    result: Seq<(OutputId, Vec<u8>)>,
) -> bool {
    exists|before: EmitContext<'_>, after: EmitContext<'_>|
        {
            &&& is_emit_context(program, files, before)
            &&& write_error(before.output_modules@) is None
            &&& #[trigger] is_emitted(before, after)
            &&& are_files(result, after)
        }
}

/// Why a module of a context cannot be written.
pub open spec fn write_refused(context: EmitContext<'_>, error: PlanError) -> bool {
    match write_error(context.output_modules@) {
        Some(e) => error == e,
        None => error is Unresolved && exists|after: EmitContext<'_>| #[trigger]
            cannot_emit(context, after),
    }
}

/// Why the output modules of a split program cannot be written.
pub open spec fn split_refused(
    program: SplitProgramInfo,
    files: Seq<LoadedFile>,
    error: PlanError,
) -> bool {
    ||| emit_refused(program, files, error)
    ||| exists|context: EmitContext<'_>| #[trigger]
        is_emit_context(program, files, context) && write_refused(context, error)
}

/// Writes the output modules of a split program. Returns their names and bytes.
pub fn emit_split_modules(input_files: &FileLoader, program_info: &SplitProgramInfo) -> (r: Result<
    Vec<(OutputId, Vec<u8>)>,
    PlanError,
>)
    requires
        input_files@.len() > 0,
        files_valid(input_files@),
        is_recoverable(input_files@[0].module.extra.mem_layout),
        0 < program_info.output_modules@.len() < u32::MAX,
        modules_valid(program_info.output_modules@),
        program_info.output_modules@[0].0@ == SplitName::Single(None),
        program_info.output_modules@[0].1.split_points@.len() == 0,
    ensures
        match r {
            Ok(files) => are_split_files(*program_info, input_files@, files@),
            Err(error) => split_refused(*program_info, input_files@, error),
        },
{
    let mut context = program_info.into_emit_context(input_files)?;
    let ghost before = context;
    assert(is_emit_context(*program_info, input_files@, before));
    match context.emit_modules() {
        Ok(files) => {
            assert(is_emitted(before, context));
            Ok(files)
        },
        Err(error) => {
            assert(write_refused(before, error));
            Err(error)
        },
    }
}

impl SplitProgramInfo {
    /// The main module, and where the entries of split points stand in its table.
    fn make_main<'a>(
        &'a self,
        input_files: &FileLoader,
        snapshot: &MultiSnapshot,
        split_points: &Vec<SplitPoint>,
    ) -> (r: Result<(OutputModule, IndirectFnLayout), PlanError>)
        requires
            input_files@.len() > 0,
            files_valid(input_files@),
            snapshot@ == snapshots(input_files@),
            is_recoverable(input_files@[0].module.extra.mem_layout),
            self.output_modules@.len() > 0,
            self.output_modules@[0].1.wf(),
            self.output_modules@[0].1.split_points@.len() == 0,
            split_points@ == all_points(self.output_modules@),
        ensures
            r matches Ok((output, layout)) ==> layout.fits()
                && output.module.extra.mem_layout.wf() && output.relocs.wf(),
            r matches Ok((output, layout)) ==> has_main_run(
                *self,
                input_files@,
                *snapshot,
                layout,
                output,
            ),
            r matches Err(error) ==> main_refused(*self, input_files@, *snapshot, error),
    {
        let ghost mut main: MainRun<'a> = arbitrary();
        let mut plan: SplitModulePlan<MainEntities<'a>> = SplitModulePlan::new_main(
            snapshot,
            input_files,
            &self.output_modules[0].1,
            &self.symbol_output_module,
            split_points,
        )?;
        let ghost new_plan = plan;
        proof {
            main.plan = plan;
        }
        let mut output = match OutputModule::from_copy_plan(
            &mut plan,
            input_files,
            snapshot,
            DyLinkInfo::Static,
        ) {
            Ok(output) => output,
            Err(error) => {
                proof {
                    let layout: IndirectFnLayout = arbitrary();
                    assert(is_refused_main(*self, input_files@, *snapshot, main, layout, error));
                }
                return Err(error);
            },
        };
        proof {
            let first = output;
            main.finished_plan = plan;
            main.output = output;
            main.run = choose|run: PlanRun<SplitModulePlan<MainEntities<'a>>>| #[trigger]
                is_run(run, new_plan, plan, input_files@, *snapshot, DyLinkInfo::Static, first);
        }
        let layout = match IndirectFnLayout::from_module(
            &output.module,
            copy_split_points(split_points),
        ) {
            Ok(layout) => layout,
            Err(error) => {
                proof {
                    let layout: IndirectFnLayout = arbitrary();
                    assert(is_refused_main(*self, input_files@, *snapshot, main, layout, error));
                }
                return Err(error);
            },
        };
        match layout.fill_trampolines(&plan.trampoline_fns, &mut output.module) {
            Ok(_) => {},
            Err(error) => {
                assert(is_refused_main(*self, input_files@, *snapshot, main, layout, error));
                return Err(error);
            },
        }
        assert(is_main_output(*self, input_files@, *snapshot, main, layout, output));
        Ok((output, layout))
    }

    /// A module that is loaded later.
    fn make_submodule<'a>(
        &'a self,
        input_files: &FileLoader,
        snapshot: &MultiSnapshot,
        split_points: &Vec<SplitPoint>,
        layout: &IndirectFnLayout,
        i: usize,
    ) -> (r: Result<OutputModule, PlanError>)
        requires
            input_files@.len() > 0,
            files_valid(input_files@),
            snapshot@ == snapshots(input_files@),
            is_recoverable(input_files@[0].module.extra.mem_layout),
            0 < i < self.output_modules@.len() < u32::MAX,
            self.output_modules@[0].1.wf(),
            self.output_modules@[i as int].1.wf(),
            split_points@ == all_points(self.output_modules@),
            layout.fits(),
        ensures
            r matches Ok(output) ==> output.module.extra.mem_layout.wf() && output.relocs.wf(),
            r matches Ok(output) ==> has_sub_run(
                *self,
                input_files@,
                *snapshot,
                i as int,
                *layout,
                output,
            ),
            r matches Err(error) ==> sub_refused(
                *self,
                input_files@,
                *snapshot,
                i as int,
                *layout,
                error,
            ),
    {
        let info = &self.output_modules[i].1;
        let mut plan: SplitModulePlan<MainEntities<'a>> = SplitModulePlan::new_submodule(
            snapshot,
            input_files,
            info,
            &self.symbol_output_module,
            split_points,
            MainEntities { entities: &self.output_modules[0].1.defined_symbols },
            layout.clone(),
        )?;
        let ghost new_plan = plan;
        let used_modules = list_used(&self.output_modules, info)?;
        let ghost used = used_modules;
        let output = match OutputModule::from_copy_plan(
            &mut plan,
            input_files,
            snapshot,
            DyLinkInfo::Dynamic { used_modules },
        ) {
            Ok(output) => output,
            Err(error) => {
                assert(is_refused_sub(
                    *self,
                    input_files@,
                    *snapshot,
                    i as int,
                    new_plan,
                    used,
                    *layout,
                    error,
                ));
                return Err(error);
            },
        };
        proof {
            let run = choose|run: PlanRun<SplitModulePlan<MainEntities<'a>>>| #[trigger]
                is_run(
                    run,
                    new_plan,
                    plan,
                    input_files@,
                    *snapshot,
                    DyLinkInfo::Dynamic { used_modules: used },
                    output,
                );
            let sub = SubRun { plan: new_plan, finished_plan: plan, run, used };
            assert(is_sub_output(
                *self,
                input_files@,
                *snapshot,
                i as int,
                sub,
                *layout,
                output,
            ));
        }
        Ok(output)
    }

    /// Makes the output modules: first the main module, then those that are loaded later, which know
    /// where their entries stand in the table of the main module.
    pub fn into_emit_context<'a>(&self, input_files: &'a FileLoader) -> (r: Result<
        EmitContext<'a>,
        PlanError,
    >)
        requires
            input_files@.len() > 0,
            files_valid(input_files@),
            is_recoverable(input_files@[0].module.extra.mem_layout),
            0 < self.output_modules@.len() < u32::MAX,
            modules_valid(self.output_modules@),
            self.output_modules@[0].0@ == SplitName::Single(None),
            self.output_modules@[0].1.split_points@.len() == 0,
        ensures
            r matches Ok(context) ==> context.input_files == input_files && is_emit_context(
                *self,
                input_files@,
                context,
            ),
            r matches Err(error) ==> emit_refused(*self, input_files@, error),
    {
        let split_points = list_points(&self.output_modules);
        let mut context = EmitContext::new_plan(
            input_files,
            list_names(&self.output_modules),
            list_owners(&self.symbol_output_module)?,
        );
        let ghost snapshot = context.snapshot;
        assert(self.output_modules@[0].1.wf());
        let (main, layout) = match self.make_main(input_files, &context.snapshot, &split_points) {
            Ok(made) => made,
            Err(error) => {
                assert(outputs_refused(*self, input_files@, snapshot, error));
                return Err(error);
            },
        };
        let _ = context.output_modules.push(main);
        let mut i: usize = 1;
        while i < self.output_modules.len()
            invariant
                1 <= i <= self.output_modules@.len() < u32::MAX,
                input_files@.len() > 0,
                files_valid(input_files@),
                is_recoverable(input_files@[0].module.extra.mem_layout),
                modules_valid(self.output_modules@),
                split_points@ == all_points(self.output_modules@),
                layout.fits(),
                snapshot == context.snapshot,
                context.input_files == input_files,
                snapshot@ == snapshots(input_files@),
                are_names(context.output_names@, self.output_modules@),
                are_owners(
                    context.dylink_exports_map,
                    self.symbol_output_module,
                    self.symbol_output_module.span(),
                ),
                context.writers@.len() == 0,
                context.layouts@.len() == 0,
                context.output_modules@.len() == i,
                forall|k: int|
                    0 <= k < context.output_modules@.len() ==> (
                    #[trigger] context.output_modules@[k]).module.extra.mem_layout.wf()
                        && context.output_modules@[k].relocs.wf(),
                are_split_outputs(
                    *self,
                    input_files@,
                    snapshot,
                    layout,
                    context.output_modules@,
                ),
            decreases self.output_modules@.len() - i,
        {
            assert(self.output_modules@[0].1.wf());
            assert(self.output_modules@[i as int].1.wf());
            let ghost before = context.output_modules@;
            let output = match self.make_submodule(
                input_files,
                &context.snapshot,
                &split_points,
                &layout,
                i,
            ) {
                Ok(output) => output,
                Err(error) => {
                    proof {
                        assert(stops_at(*self, input_files@, snapshot, layout, before, error));
                        assert(outputs_refused(*self, input_files@, snapshot, error));
                    }
                    return Err(error);
                },
            };
            let _ = context.output_modules.push(output);
            proof {
                let outputs = context.output_modules@;
                assert(outputs[0] == before[0]);
                assert forall|k: int| 1 <= k < outputs.len() implies has_sub_run(
                    *self,
                    input_files@,
                    snapshot,
                    k,
                    layout,
                    #[trigger] outputs[k],
                ) by {
                    if k < i {
                        assert(outputs[k] == before[k]);
                    } else {
                        assert(outputs[k] == output);
                    }
                }
            }
            i = i + 1;
        }
        assert(is_emit_context(*self, input_files@, context));
        Ok(context)
    }
}

} // verus!
