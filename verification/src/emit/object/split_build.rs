//! Making the output modules of a split program.
use crate::analysis::split_point::{
    shared_names, SharedModuleIdentifier, SplitModuleIdentifier, SplitName,
};
use crate::emit::modify::code_abs_to_got::{init_each_store_var, StoreType};
use crate::emit::modify::start_fn_gen::DataModifyEntry;
use crate::emit::modify::FixupError;
use crate::emit::object::builder::{
    has_bad_segment, is_locked_object, memory_start, segments_fit, symbols_fit,
    BuilderContextToBeRemoved, Object, ObjectBuilder,
};
use crate::emit::object::globals::{is_base, DefinedGlobal, GlobalImport};
use crate::emit::object::segments::{DataSegmentOutput, SourceSegment};
use crate::emit::object::split::{
    are_function_steps, are_new_imports, has_bad_function, has_functions, has_unnamed,
    is_function_step, is_kept_segment, CommonEmitInfo, Split, SplitContext, SplitError,
    SplitObjectInfo,
};
use crate::emit::object::split_globals::{
    are_extern_bases, are_main_imports, are_source_globals, misses_global,
};
use crate::emit::object::{
    DefinedFunction, GotBase, ImportedFunction, ImportsOrDefined, InputObject, OutputGlobalId,
    SubModuleExtra, SymbolKind,
};
use crate::index::TempIndex;
use crate::typed::types::{GlobalType, ValType};
use crate::typed::{FunctionRef, SymbolId};
use vstd::prelude::*;

verus! {

/// The functions of an output module that are called through the table.
#[derive(Debug)]
pub struct IndirectFunctionEmitInfo {
    /// The number of entries behind those functions, in the main module.
    pub num_entrypoints: Option<usize>,
    pub indirect_function_table: Vec<FunctionRef>,
}

/// The entry of the first function with a number, in a table whose functions start at `first`.
pub open spec fn table_entry(table: Seq<FunctionRef>, first: int, function: FunctionRef) -> Option<
    int,
>
    decreases table.len(),
{
    if table.len() == 0 {
        None
    } else {
        match table_entry(table.drop_last(), first, function) {
            Some(entry) => Some(entry),
            None => if table.last() == function {
                Some(first + table.len() - 1)
            } else {
                None
            },
        }
    }
}

proof fn lemma_table_entry(table: Seq<FunctionRef>, first: int, k: int, function: FunctionRef)
    requires
        0 <= k < table.len(),
        table_entry(table.take(k), first, function) is None,
        table[k] == function,
    ensures
        table_entry(table, first, function) == Some(first + k),
    decreases table.len(),
{
    if k == table.len() - 1 {
        assert(table.take(k) =~= table.drop_last());
    } else {
        assert(table.drop_last().take(k) =~= table.take(k));
        lemma_table_entry(table.drop_last(), first, k, function);
    }
}

impl IndirectFunctionEmitInfo {
    pub fn new(num_entrypoints: Option<usize>, indirect_function_table: Vec<FunctionRef>) -> (r:
        Self)
        ensures
            r.num_entrypoints == num_entrypoints,
            r.indirect_function_table@ == indirect_function_table@,
    {
        IndirectFunctionEmitInfo { num_entrypoints, indirect_function_table }
    }

    /// The first entry: the main module leaves the first one empty, all others are relative to a
    /// base.
    pub open spec fn first(&self) -> int {
        if self.num_entrypoints is Some {
            1
        } else {
            0
        }
    }

    /// The entry of the table that holds a function.
    pub open spec fn entry_of(&self, function: FunctionRef) -> Option<int> {
        table_entry(self.indirect_function_table@, self.first(), function)
    }

    /// The entry of the table that holds a function.
    pub fn function_table_index(&self, function: FunctionRef) -> (r: Option<usize>)
        requires
            self.indirect_function_table@.len() < usize::MAX,
        ensures
            match r {
                Some(entry) => self.entry_of(function) == Some(entry as int),
                None => self.entry_of(function) is None,
            },
    {
        let first: usize = if self.num_entrypoints.is_some() {
            1
        } else {
            0
        };
        let table = &self.indirect_function_table;
        let mut i: usize = 0;
        assert(table@.take(0) =~= Seq::<FunctionRef>::empty());
        while i < table.len()
            invariant
                i <= table@.len() < usize::MAX,
                first <= 1,
                first == self.first(),
                table@ == self.indirect_function_table@,
                table_entry(table@.take(i as int), first as int, function) is None,
            decreases table@.len() - i,
        {
            proof {
                assert(table@.take(i + 1).drop_last() =~= table@.take(i as int));
            }
            if table[i] == function {
                proof {
                    lemma_table_entry(table@, first as int, i as int, function);
                }
                return Some(first + i);
            }
            i = i + 1;
        }
        assert(table@.take(i as int) =~= table@);
        None
    }
}

/// An output module that is ready to be written. How modules are linked, and the version that they
/// are made for, are handed on as they are.
#[derive(Debug)]
pub struct ModuleEmitState<L, V> {
    /// The modules that it uses.
    pub linked_modules: Vec<SharedModuleIdentifier>,
    pub linkage_type: L,
    pub incremental_version: V,
    pub sub_module_extra: Option<SubModuleExtra>,
    pub data: Vec<DataSegmentOutput>,
    pub data_relocations: Vec<Vec<DataModifyEntry>>,
    pub functions: ImportsOrDefined<ImportedFunction, DefinedFunction>,
    pub globals: ImportsOrDefined<GlobalImport, DefinedGlobal>,
    /// The globals that hold a value for a moment, by its type.
    pub global_tmp_store: Vec<(StoreType, OutputGlobalId)>,
    pub indirect_functions: IndirectFunctionEmitInfo,
}

/// The base of the first module with a name.
pub open spec fn extern_base(
    modules: Seq<(SharedModuleIdentifier, GotBase)>,
    name: SplitName,
    from: int,
) -> Option<GotBase>
    decreases modules.len() - from,
{
    if from >= modules.len() {
        None
    } else if SplitName::Shared(modules[from].0@) == name {
        Some(modules[from].1)
    } else {
        extern_base(modules, name, from + 1)
    }
}

impl<L, V> ModuleEmitState<L, V> {
    /// The bases of the module itself.
    pub open spec fn own_base(&self) -> Option<GotBase> {
        match self.sub_module_extra {
            Some(extra) => Some(extra.self_base),
            None => None,
        }
    }

    /// The bases of a module that it uses.
    pub open spec fn base_of(&self, module: SharedModuleIdentifier) -> Option<GotBase> {
        match self.sub_module_extra {
            Some(extra) => extern_base(extra.extern_modules@, SplitName::Shared(module@), 0),
            None => None,
        }
    }

    /// The bases of the module itself, or of a module that it uses.
    pub fn get_submodule_extra(&self, module: Option<&SharedModuleIdentifier>) -> (r: Option<
        GotBase,
    >)
        ensures
            r == match module {
                Some(id) => self.base_of(*id),
                None => self.own_base(),
            },
    {
        let extra = match &self.sub_module_extra {
            Some(extra) => extra,
            None => {
                return None;
            },
        };
        let id = match module {
            Some(id) => id,
            None => {
                return Some(extra.self_base);
            },
        };
        let mut i: usize = 0;
        while i < extra.extern_modules.len()
            invariant
                i <= extra.extern_modules@.len(),
                self.sub_module_extra == Some(*extra),
                module == Some(id),
                extern_base(extra.extern_modules@, SplitName::Shared(id@), 0) == extern_base(
                    extra.extern_modules@,
                    SplitName::Shared(id@),
                    i as int,
                ),
            decreases extra.extern_modules@.len() - i,
        {
            if extra.extern_modules[i].0.same(id) {
                return Some(extra.extern_modules[i].1);
            }
            i = i + 1;
        }
        None
    }

    /// The object that the module was made of.
    pub open spec fn object(&self) -> Object {
        Object {
            globals: self.globals,
            functions: self.functions,
            data: self.data,
            data_relocations: self.data_relocations,
        }
    }
}

/// A builder that holds nothing.
pub open spec fn is_empty_builder(builder: ObjectBuilder) -> bool {
    &&& builder.globals.imports@.len() == 0
    &&& builder.globals.defined@.len() == 0
    &&& builder.functions.imports@.len() == 0
    &&& builder.functions.defined@.len() == 0
    &&& builder.data@.len() == 0
}

/// Whether the functions of an output module are complete.
pub open spec fn has_all_functions(
    context: SplitContext<'_>,
    info: SplitObjectInfo,
    functions: ImportsOrDefined<ImportedFunction, DefinedFunction>,
) -> bool {
    exists|empty: ObjectBuilder, filled: ObjectBuilder|
        {
            &&& is_empty_builder(empty)
            &&& #[trigger] has_functions(context, info, empty, filled)
            &&& if context.main_module {
                functions == filled.functions
            } else {
                let n = filled.functions.imports@.len() as int;
                &&& functions.defined == filled.functions.defined
                &&& n <= functions.imports@.len()
                &&& functions.imports@.take(n) == filled.functions.imports@
                &&& are_new_imports(
                    *context.module_info,
                    info.imports@,
                    functions.imports@.skip(n),
                )
            }
        }
}

/// Whether the segments of the input module are kept with the data symbols of an output module.
pub open spec fn are_kept(
    context: SplitContext<'_>,
    symbols: Seq<SymbolId>,
    data: Seq<SourceSegment>,
) -> bool {
    &&& data.len() == context.emit_info.src_data_segments@.len()
    &&& forall|k: int|
        0 <= k < data.len() ==> is_kept_segment(
            *context.module_info,
            symbols,
            k,
            context.emit_info.src_data_segments@[k],
            #[trigger] data[k],
        )
}

/// What the layout of data depends on.
pub open spec fn lock_context<'a>(
    context: SplitContext<'a>,
    extra: &'a Option<SubModuleExtra>,
) -> BuilderContextToBeRemoved<'a> {
    BuilderContextToBeRemoved {
        module_info: context.module_info,
        sub_module_extra: extra,
        static_symbols: context.static_symbols,
    }
}

/// Whether the data of an output module fits in memory.
pub open spec fn data_fits(context: SplitContext<'_>, symbols: Seq<SymbolId>) -> bool {
    &&& context.main_module ==> context.emit_info.src_data_segments@.len() > 0
    &&& context.emit_info.src_data_segments@.len() < u32::MAX
    &&& forall|data: Seq<SourceSegment>| #[trigger]
        are_kept(context, symbols, data) ==> {
            &&& segments_fit(data, memory_start(data, context.main_module))
            &&& symbols_fit(lock_context(context, &None), data)
        }
}

/// Whether a global is one that holds a value for a moment.
pub open spec fn is_tmp_global(global: DefinedGlobal, content_type: ValType) -> bool {
    global == DefinedGlobal::WithConstructor(
        GlobalType { content_type, mutable: true, shared: false },
    )
}

/// Whether the globals that hold values for a moment are defined behind the imports.
pub open spec fn are_tmp_globals(
    imports: int,
    defined: Seq<DefinedGlobal>,
    store: Seq<(StoreType, OutputGlobalId)>,
) -> bool {
    &&& store.len() == 4
    &&& defined.len() == 4
    &&& forall|i: int| 0 <= i < 4 ==> (#[trigger] store[i]).1.id == imports + i
    &&& store[0].0 is I32
    &&& store[1].0 is I64
    &&& store[2].0 is F32
    &&& store[3].0 is F64
    &&& is_tmp_global(defined[0], ValType::I32)
    &&& is_tmp_global(defined[1], ValType::I64)
    &&& is_tmp_global(defined[2], ValType::F32)
    &&& is_tmp_global(defined[3], ValType::F64)
}

/// Whether a module that is loaded later has its globals: those of the main module, its own bases,
/// and those of the modules that it uses.
pub open spec fn has_sub_globals(
    context: SplitContext<'_>,
    shared: Seq<SharedModuleIdentifier>,
    globals: ImportsOrDefined<GlobalImport, DefinedGlobal>,
    extra: SubModuleExtra,
    store: Seq<(StoreType, OutputGlobalId)>,
) -> bool {
    let imports = globals.imports@;
    let n = context.emit_info.main_global_exports@.len() as int;
    &&& imports.len() == n + 2 + 2 * shared.len()
    &&& are_main_imports(
        context.module_info.module.globals@,
        context.emit_info.main_global_exports@,
        imports.take(n),
    )
    &&& extra.self_base.lib_base_id.id == n
    &&& extra.self_base.table_base_id.id == n + 1
    &&& is_base(imports[n], "__lib_base"@)
    &&& is_base(imports[n + 1], "__table_base"@)
    &&& are_extern_bases(shared, n + 2, imports, extra.extern_modules@)
    &&& are_tmp_globals(imports.len() as int, globals.defined@, store)
}

/// Whether a module that is loaded later knows what it exports.
pub open spec fn knows_exports(
    info: SplitObjectInfo,
    module: SplitName,
    extra: SubModuleExtra,
) -> bool {
    &&& extra.entrypoints@ == info.entrypoints@
    &&& match (module, extra.export_got_with_id) {
        (SplitName::Shared(name), Some(id)) => id@ == name,
        (SplitName::Single(_), None) => true,
        _ => false,
    }
}

/// Tells the functions that an output module has.
pub open spec fn is_present(
    functions: ImportsOrDefined<ImportedFunction, DefinedFunction>,
) -> spec_fn(FunctionRef) -> bool {
    |function: FunctionRef| functions.output_of(function) is Some
}

/// Whether a builder holds all of an output module.
pub open spec fn is_complete(
    context: SplitContext<'_>,
    info: SplitObjectInfo,
    builder: ObjectBuilder,
) -> bool {
    &&& has_all_functions(context, info, builder.functions)
    &&& are_kept(context, info.defined_symbols@, builder.data@)
}

/// Whether an output module is made of its symbols.
pub open spec fn is_split_module<L, V>(
    context: SplitContext<'_>,
    info: SplitObjectInfo,
    module: SplitName,
    shared: Seq<SharedModuleIdentifier>,
    state: ModuleEmitState<L, V>,
) -> bool {
    &&& shared_names(state.linked_modules@) == shared_names(shared)
    &&& match state.sub_module_extra {
        None => {
            &&& context.main_module
            &&& are_source_globals(
                context.module_info.module.globals@,
                state.globals.imports@,
                state.globals.defined@,
            )
            &&& state.global_tmp_store@.len() == 0
        },
        Some(extra) => {
            &&& !context.main_module
            &&& has_sub_globals(context, shared, state.globals, extra, state.global_tmp_store@)
            &&& knows_exports(info, module, extra)
        },
    }
    &&& is_locked_state(context, info, state)
    &&& state.indirect_functions.num_entrypoints == if context.main_module {
        Some(context.emit_info.entrypoints@.len() as usize)
    } else {
        None
    }
    &&& state.indirect_functions.indirect_function_table@
        == context.module_info.indirect_function_table@.filter(is_present(state.functions))
}

/// Whether the functions and the data of an output module are those of a complete builder.
pub open spec fn is_locked_state<L, V>(
    context: SplitContext<'_>,
    info: SplitObjectInfo,
    state: ModuleEmitState<L, V>,
) -> bool {
    exists|builder: ObjectBuilder|
        {
            &&& #[trigger] is_complete(context, info, builder)
            &&& is_locked_object(
                builder,
                lock_context(context, &state.sub_module_extra),
                state.object(),
            )
        }
}

/// Whether a segment of an output module has a relocation that is not supported.
pub open spec fn has_bad_data(
    context: SplitContext<'_>,
    symbols: Seq<SymbolId>,
    error: FixupError,
) -> bool {
    exists|data: Seq<SourceSegment>, extra: Option<SubModuleExtra>|
        {
            &&& are_kept(context, symbols, data)
            &&& context.main_module == extra is None
            &&& #[trigger] has_bad_segment(data, lock_context(context, &extra), error)
        }
}

/// How many indices an output module may need.
pub open spec fn index_bound(
    context: SplitContext<'_>,
    info: SplitObjectInfo,
    shared: Seq<SharedModuleIdentifier>,
) -> nat {
    2 * info.defined_symbols@.len() + info.imports@.len()
        + context.emit_info.main_global_exports@.len() + 2 * shared.len() + 16
}

/// Whether an output module cannot be made.
pub open spec fn is_split_failure(
    context: SplitContext<'_>,
    info: SplitObjectInfo,
    shared: Seq<SharedModuleIdentifier>,
    error: SplitError,
) -> bool {
    ||| cannot_include(context, info, error)
    ||| error is UnnamedFunction && !context.main_module && has_unnamed(
        *context.module_info,
        info.imports@,
    )
    ||| error is MissingGlobal && !context.main_module && misses_global(
        context.module_info.module.globals@,
        context.emit_info.main_global_exports@,
    )
    ||| error is TooManyEntities && index_bound(context, info, shared) > u32::MAX
    ||| (error matches SplitError::Fixup(e) && has_bad_data(context, info.defined_symbols@, e))
}

/// Whether a function of an output module cannot be included.
pub open spec fn cannot_include(
    context: SplitContext<'_>,
    info: SplitObjectInfo,
    error: SplitError,
) -> bool {
    exists|empty: ObjectBuilder|
        is_empty_builder(empty) && #[trigger] has_bad_function(context, info, empty, error)
}

proof fn lemma_function_count(
    context: SplitContext<'_>,
    info: SplitObjectInfo,
    states: Seq<ObjectBuilder>,
    count: int,
    i: int,
)
    requires
        are_function_steps(context, info, states, count),
        0 <= i <= count,
    ensures
        states[i].functions.imports@.len() + states[i].functions.defined@.len()
            <= states[0].functions.imports@.len() + states[0].functions.defined@.len() + 2 * i,
        states[i].globals == states[0].globals,
        states[i].data == states[0].data,
    decreases i,
{
    if i > 0 {
        lemma_function_count(context, info, states, count, i - 1);
        assert(is_function_step(context, info, i - 1, states[i - 1], states[i - 1 + 1]));
    }
}

proof fn lemma_functions_bound(
    context: SplitContext<'_>,
    info: SplitObjectInfo,
    before: ObjectBuilder,
    after: ObjectBuilder,
)
    requires
        has_functions(context, info, before, after),
        is_empty_builder(before),
    ensures
        after.functions.imports@.len() + after.functions.defined@.len() <= 2
            * info.defined_symbols@.len(),
        after.globals == before.globals,
        after.data == before.data,
{
    let n = info.defined_symbols@.len() as int;
    let states = choose|states: Seq<ObjectBuilder>|
        {
            &&& #[trigger] are_function_steps(context, info, states, n)
            &&& states[0] == before
            &&& states.last() == after
        };
    lemma_function_count(context, info, states, n, n);
}

fn list_present(
    table: &Vec<FunctionRef>,
    functions: &ImportsOrDefined<ImportedFunction, DefinedFunction>,
) -> (r: Vec<FunctionRef>)
    requires
        functions.imports@.len() + functions.defined@.len() <= u32::MAX,
    ensures
        r@ == table@.filter(is_present(*functions)),
{
    let ghost all = table@;
    let ghost keep = is_present(*functions);
    let mut list: Vec<FunctionRef> = Vec::new();
    let mut i: usize = 0;
    proof {
        reveal(Seq::filter);
        assert(list@ =~= all.take(0).filter(keep));
    }
    while i < table.len()
        invariant
            i <= all.len(),
            all == table@,
            keep == is_present(*functions),
            functions.imports@.len() + functions.defined@.len() <= u32::MAX,
            list@ == all.take(i as int).filter(keep),
        decreases all.len() - i,
    {
        proof {
            reveal(Seq::filter);
            assert(all.take(i + 1).drop_last() =~= all.take(i as int));
            assert(all.take(i + 1).last() == all[i as int]);
        }
        if functions.get_output_id(table[i]).is_some() {
            list.push(table[i]);
        }
        i = i + 1;
    }
    assert(all.take(i as int) =~= all);
    list
}

fn copy_functions(functions: &Vec<FunctionRef>) -> (r: Vec<FunctionRef>)
    ensures
        r@ == functions@,
{
    let mut list: Vec<FunctionRef> = Vec::new();
    let mut i: usize = 0;
    while i < functions.len()
        invariant
            i <= functions@.len(),
            list@ == functions@.take(i as int),
        decreases functions@.len() - i,
    {
        list.push(functions[i]);
        assert(functions@.take(i + 1) =~= functions@.take(i as int).push(functions@[i as int]));
        i = i + 1;
    }
    assert(functions@.take(i as int) =~= functions@);
    list
}

fn copy_shared(modules: &Vec<SharedModuleIdentifier>) -> (r: Vec<SharedModuleIdentifier>)
    ensures
        shared_names(r@) == shared_names(modules@),
{
    let mut list: Vec<SharedModuleIdentifier> = Vec::new();
    let mut i: usize = 0;
    while i < modules.len()
        invariant
            i <= modules@.len(),
            list@.len() == i,
            forall|j: int| 0 <= j < i ==> (#[trigger] list@[j])@ == modules@[j]@,
        decreases modules@.len() - i,
    {
        list.push(modules[i].clone());
        i = i + 1;
    }
    assert(shared_names(list@) =~= shared_names(modules@));
    list
}

impl Split<ObjectBuilder> {
    /// Adds the globals that hold values for a moment.
    fn add_tmp_globals(&mut self) -> (r: Vec<(StoreType, OutputGlobalId)>)
        requires
            old(self).state.globals.imports@.len() <= u32::MAX - 8,
            old(self).state.globals.defined@.len() == 0,
        ensures
            final(self).state.functions == old(self).state.functions,
            final(self).state.data == old(self).state.data,
            final(self).state.globals.imports == old(self).state.globals.imports,
            are_tmp_globals(
                old(self).state.globals.imports@.len() as int,
                final(self).state.globals.defined@,
                r@,
            ),
    {
        let types = init_each_store_var();
        let mut store: Vec<(StoreType, OutputGlobalId)> = Vec::new();
        let mut i: usize = 0;
        while i < types.len()
            invariant
                i <= types@.len() == 4,
                self.state.functions == old(self).state.functions,
                self.state.data == old(self).state.data,
                self.state.globals.imports == old(self).state.globals.imports,
                self.state.globals.imports@.len() <= u32::MAX - 8,
                self.state.globals.defined@.len() == i,
                store@.len() == i,
                forall|j: int|
                    0 <= j < i ==> {
                        &&& (#[trigger] store@[j]).1.id == self.state.globals.imports@.len() + j
                        &&& store@[j].0 == types@[j].0
                        &&& is_tmp_global(self.state.globals.defined@[j], types@[j].1)
                    },
            decreases types@.len() - i,
        {
            let id: u32 = (self.state.globals.imports.len() + self.state.globals.defined.len())
                as u32;
            store.push((types[i].0, OutputGlobalId { id }));
            self.state.add_defined_global(
                DefinedGlobal::WithConstructor(
                    GlobalType { content_type: types[i].1, mutable: true, shared: false },
                ),
            );
            i = i + 1;
        }
        assert(store@[0].0 == types@[0].0 && store@[1].0 == types@[1].0 && store@[2].0
            == types@[2].0 && store@[3].0 == types@[3].0);
        store
    }

    /// Adds the globals of a module that is loaded later.
    fn add_sub_globals(
        &mut self,
        context: &SplitContext<'_>,
        info: &SplitObjectInfo,
        module_id: &SplitModuleIdentifier,
        shared: &Vec<SharedModuleIdentifier>,
    ) -> (r: Result<(SubModuleExtra, Vec<(StoreType, OutputGlobalId)>), SplitError>)
        requires
            !context.main_module,
            context.module_info.module.globals@.len() < u32::MAX,
            old(self).state.globals.imports@.len() == 0,
            old(self).state.globals.defined@.len() == 0,
        ensures
            final(self).state.functions == old(self).state.functions,
            final(self).state.data == old(self).state.data,
            match r {
                Ok((extra, store)) => {
                    &&& has_sub_globals(
                        *context,
                        shared@,
                        final(self).state.globals,
                        extra,
                        store@,
                    )
                    &&& knows_exports(*info, module_id@, extra)
                },
                Err(error) => is_split_failure(*context, *info, shared@, error),
            },
    {
        match self.add_submodule_global_imports(context) {
            Ok(_) => {},
            Err(error) => {
                return Err(error);
            },
        }
        let ghost main_imports = self.state.globals.imports@;
        let ghost n = main_imports.len() as int;
        if self.state.globals.imports.len() >= (u32::MAX - 8) as usize {
            return Err(SplitError::TooManyEntities);
        }
        let lib_base_id = self.state.add_imported_global(
            GlobalImport::base("__lib_base".to_owned()),
        );
        let table_base_id = self.state.add_imported_global(
            GlobalImport::base("__table_base".to_owned()),
        );
        let ghost with_base = self.state.globals.imports@;
        let extern_modules = match self.add_extern_bases(shared) {
            Some(bases) => bases,
            None => {
                return Err(SplitError::TooManyEntities);
            },
        };
        if self.state.globals.imports.len() > (u32::MAX - 8) as usize {
            return Err(SplitError::TooManyEntities);
        }
        let ghost all = self.state.globals.imports@;
        proof {
            assert(all.take(n + 2) == with_base);
            assert(all.take(n) =~= with_base.take(n));
            assert(with_base.take(n) =~= main_imports);
            assert(all[n] == all.take(n + 2)[n]);
            assert(all[n + 1] == all.take(n + 2)[n + 1]);
        }
        let store = self.add_tmp_globals();
        let export_got_with_id = match module_id.as_shared() {
            Some(id) => Some(id.clone()),
            None => None,
        };
        let extra = SubModuleExtra {
            self_base: GotBase { lib_base_id, table_base_id },
            extern_modules,
            entrypoints: copy_functions(&info.entrypoints),
            export_got_with_id,
        };
        Ok((extra, store))
    }
}

impl Split<()> {
    /// Makes an output module: its functions and data are those of its symbols, all others are
    /// imported. In a module that is loaded later addresses are relative to its bases.
    pub fn build_split_object<L, V>(
        module_info: &InputObject,
        emit_info: &CommonEmitInfo,
        module_id: &SplitModuleIdentifier,
        output_module_info: &SplitObjectInfo,
        shared_modules: &Vec<SharedModuleIdentifier>,
        linkage_type: L,
        static_symbols: &Vec<SymbolId>,
        nonexported_symbols: &Vec<SymbolId>,
        version: V,
    ) -> (r: Result<ModuleEmitState<L, V>, SplitError>)
        requires
            ({
                let context = SplitContext {
                    module_info,
                    emit_info,
                    static_symbols,
                    nonexported_symbols,
                    main_module: module_id@ == SplitName::Single(None),
                };
                &&& context.knows(output_module_info.defined_symbols@)
                &&& !context.main_module ==> context.knows(output_module_info.imports@)
                &&& module_info.module.globals@.len() < u32::MAX
                &&& data_fits(context, output_module_info.defined_symbols@)
            }),
        ensures
            ({
                let context = SplitContext {
                    module_info,
                    emit_info,
                    static_symbols,
                    nonexported_symbols,
                    main_module: module_id@ == SplitName::Single(None),
                };
                match r {
                    Ok(state) => {
                        &&& is_split_module(
                            context,
                            *output_module_info,
                            module_id@,
                            shared_modules@,
                            state,
                        )
                        &&& state.linkage_type == linkage_type
                        &&& state.incremental_version == version
                    },
                    Err(error) => is_split_failure(
                        context,
                        *output_module_info,
                        shared_modules@,
                        error,
                    ),
                }
            }),
    {
        let main_module = module_id.is_main();
        let context = SplitContext {
            module_info,
            emit_info,
            static_symbols,
            nonexported_symbols,
            main_module,
        };
        let mut split = Split { state: ObjectBuilder::new() };
        let ghost empty = split.state;
        match split.add_functions(&context, output_module_info) {
            Ok(_) => {},
            Err(error) => {
                assert(cannot_include(context, *output_module_info, error));
                return Err(error);
            },
        }
        let ghost filled = split.state;
        proof {
            lemma_functions_bound(context, *output_module_info, empty, filled);
        }
        if !main_module {
            proof {
                assert forall|i: int| 0 <= i < output_module_info.imports@.len() implies (
                module_info.function_of(#[trigger] output_module_info.imports@[i]) matches Some(f)
                    ==> f.id() < module_info.module.functions@.len()) by {
                    assert(match module_info.kind_of(output_module_info.imports@[i]) {
                        Some(SymbolKind::Func { input_id }) => input_id.id()
                            < module_info.module.functions@.len(),
                        Some(SymbolKind::DataDefined { .. }) => true,
                        _ => false,
                    });
                }
            }
            match split.add_function_imports(&context, &output_module_info.imports) {
                Ok(_) => {},
                Err(error) => {
                    return Err(error);
                },
            }
        }
        assert(has_all_functions(context, *output_module_info, split.state.functions));
        let imported: usize = split.state.functions.imports.len();
        let defined: usize = split.state.functions.defined.len();
        if imported > u32::MAX as usize || defined > u32::MAX as usize - imported {
            proof {
                if !main_module {
                    lemma_new_imports_bound(
                        *module_info,
                        output_module_info.imports@,
                        split.state.functions.imports@.skip(
                            filled.functions.imports@.len() as int,
                        ),
                    );
                }
            }
            return Err(SplitError::TooManyEntities);
        }
        split.add_data(&context, &output_module_info.defined_symbols);
        let mut sub_module_extra: Option<SubModuleExtra> = None;
        let mut global_tmp_store: Vec<(StoreType, OutputGlobalId)> = Vec::new();
        if main_module {
            split.copy_src_globals(&context);
        } else {
            match split.add_sub_globals(&context, output_module_info, module_id, shared_modules) {
                Ok((extra, store)) => {
                    sub_module_extra = Some(extra);
                    global_tmp_store = store;
                },
                Err(error) => {
                    return Err(error);
                },
            }
        }
        let ghost builder = split.state;
        let ghost data = builder.data@;
        proof {
            assert(are_kept(context, output_module_info.defined_symbols@, data));
            assert(is_complete(context, *output_module_info, builder));
        }
        let lock = BuilderContextToBeRemoved {
            module_info,
            sub_module_extra: &sub_module_extra,
            static_symbols,
        };
        assert(lock == lock_context(context, &sub_module_extra));
        assert(symbols_fit(lock, data)) by {
            assert(symbols_fit(lock_context(context, &None), data));
        }
        let object = match split.state.lock(lock) {
            Ok(object) => object,
            Err(error) => {
                proof {
                    assert(has_bad_segment(
                        data,
                        lock_context(context, &sub_module_extra),
                        error,
                    ));
                    assert(has_bad_data(context, output_module_info.defined_symbols@, error));
                }
                return Err(SplitError::Fixup(error));
            },
        };
        let table = list_present(&module_info.indirect_function_table, &object.functions);
        let num_entrypoints = if main_module {
            Some(emit_info.num_entrypoints())
        } else {
            None
        };
        let indirect_functions = IndirectFunctionEmitInfo::new(num_entrypoints, table);
        let Object { globals, functions, data, data_relocations } = object;
        let state = ModuleEmitState {
            linked_modules: copy_shared(shared_modules),
            linkage_type,
            incremental_version: version,
            sub_module_extra,
            data,
            data_relocations,
            functions,
            globals,
            global_tmp_store,
            indirect_functions,
        };
        proof {
            assert(state.object() == object);
            assert(is_locked_state(context, *output_module_info, state));
        }
        Ok(state)
    }
}

proof fn lemma_new_imports_bound(
    input: InputObject,
    symbols: Seq<SymbolId>,
    imports: Seq<ImportedFunction>,
)
    requires
        are_new_imports(input, symbols, imports),
    ensures
        imports.len() <= symbols.len(),
    decreases symbols.len(),
{
    if symbols.len() > 0 {
        if input.function_of(symbols.last()) is Some {
            lemma_new_imports_bound(input, symbols.drop_last(), imports.drop_last());
        } else {
            lemma_new_imports_bound(input, symbols.drop_last(), imports);
        }
    }
}

} // verus!
