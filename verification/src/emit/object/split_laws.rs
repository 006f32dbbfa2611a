//! What is in the output modules of a split program, and where.
use crate::analysis::split_point::{shared_text, SharedModuleIdentifier, SplitName};
use crate::emit::modify::code_abs_to_got::StoreType;
use crate::emit::object::builder::{
    is_locked_object, is_output, memory_start, segments_end, BuilderContextToBeRemoved, Object,
    ObjectBuilder,
};
use crate::emit::object::globals::{DefinedGlobal, GlobalImport};
use crate::emit::object::segments::{
    is_listed, lemma_symbols_are_at_their_places, raw_of, symbol_views, SourceSegment, SymbolView,
};
use crate::emit::object::split::{
    are_function_steps, are_new_imports, function_number, has_functions, in_data_segment,
    is_function_step, is_kept_segment, is_seen, SplitContext, SplitObjectInfo,
};
use crate::emit::object::relocate_laws::{lemma_outputs_stand_for_inputs, stands_for};
use crate::emit::object::split_build::{
    has_sub_globals, is_present, is_split_module, ModuleEmitState,
};
use crate::emit::object::{
    DefinedFunction, DefinedFunctionKind, ImportFunctionKind, ImportedFunction, ImportsOrDefined,
    InputObject, OutputGlobalId, SubModuleExtra, SymbolKind,
};
use crate::index::TempIndex;
use crate::layouts::data::lemma_padding_aligns;
use crate::sorting::lemma_kept;
use crate::typed::entities::ImportOrDefined;
use crate::typed::lookup::own_name;
use crate::typed::{FunctionRef, SymbolId};
use vstd::arithmetic::power2::{lemma_pow2_pos, pow2};
use vstd::prelude::*;

verus! {

/// Whether a defined function stands for an input function and calls an entry of the table.
pub open spec fn calls_entry_point(
    defined: Seq<DefinedFunction>,
    function: FunctionRef,
    k: int,
    entry: int,
) -> bool {
    &&& 0 <= k < defined.len()
    &&& defined[k].input_func_id == function
    &&& defined[k].kind matches DefinedFunctionKind::IndirectTrampoline { table_index_offset }
    &&& table_index_offset == entry
}

/// Whether a defined function is a copy of an input function.
pub open spec fn is_copy_of(
    defined: Seq<DefinedFunction>,
    function: FunctionRef,
    k: int,
) -> bool {
    &&& 0 <= k < defined.len()
    &&& defined[k].input_func_id == function
    &&& defined[k].kind is Copied
}

/// Whether an import is one of the input module.
pub open spec fn is_import_of(
    imports: Seq<ImportedFunction>,
    function: FunctionRef,
    k: int,
    module: Seq<char>,
    name: Seq<char>,
) -> bool {
    &&& 0 <= k < imports.len()
    &&& imports[k].input_func_id == function
    &&& imports[k].kind matches ImportFunctionKind::Existing { module_name, func_name }
    &&& module_name@ == module
    &&& func_name@ == name
}

/// Whether a defined function exports an input function.
pub open spec fn exports_function(
    defined: Seq<DefinedFunction>,
    function: FunctionRef,
    k: int,
) -> bool {
    0 <= k < defined.len() && defined[k].input_func_id == function && defined[k].export
}

/// Whether a function is in an output module: one that other modules are entered by is called
/// through the entry of its number in the table, one that the input module defines is copied, and
/// one that it imports is imported as it was.
pub open spec fn has_function(
    context: SplitContext<'_>,
    functions: ImportsOrDefined<ImportedFunction, DefinedFunction>,
    function: FunctionRef,
) -> bool {
    let entrypoints = context.emit_info.entrypoints@;
    if entrypoints.contains(function) {
        exists|k: int, n: int|
            {
                &&& 0 <= n < entrypoints.len()
                &&& #[trigger] entrypoints[n] == function
                &&& #[trigger] calls_entry_point(functions.defined@, function, k, n)
            }
    } else {
        match context.module_info.module.functions@.entity(function.id() as int) {
            ImportOrDefined::Defined(_) => exists|k: int| #[trigger]
                is_copy_of(functions.defined@, function, k),
            ImportOrDefined::Import(import) => exists|k: int| #[trigger]
                is_import_of(functions.imports@, function, k, import.module@, import.name@),
            ImportOrDefined::External(import) => exists|k: int| #[trigger]
                is_import_of(functions.imports@, function, k, import.module@, import.name@),
        }
    }
}

proof fn lemma_numbers(functions: Seq<FunctionRef>, function: FunctionRef)
    ensures
        match function_number(functions, function) {
            Some(i) => 0 <= i < functions.len() && functions[i] == function,
            None => !functions.contains(function),
        },
    decreases functions.len(),
{
    if functions.len() > 0 {
        let init = functions.drop_last();
        lemma_numbers(init, function);
        if function_number(functions, function) is None && functions.contains(function) {
            let i = choose|i: int| 0 <= i < functions.len() && functions[i] == function;
            assert(init[i] == function);
        }
    }
}

/// Functions are only added.
proof fn lemma_step_keeps(
    context: SplitContext<'_>,
    info: SplitObjectInfo,
    i: int,
    before: ObjectBuilder,
    after: ObjectBuilder,
)
    requires
        is_function_step(context, info, i, before, after),
    ensures
        before.functions.defined@.len() <= after.functions.defined@.len(),
        before.functions.imports@.len() <= after.functions.imports@.len(),
        forall|k: int|
            0 <= k < before.functions.defined@.len() ==> #[trigger] after.functions.defined@[k]
                == before.functions.defined@[k],
        forall|k: int|
            0 <= k < before.functions.imports@.len() ==> #[trigger] after.functions.imports@[k]
                == before.functions.imports@[k],
{
}

/// The function of a symbol is added.
proof fn lemma_step_adds(
    context: SplitContext<'_>,
    info: SplitObjectInfo,
    i: int,
    before: ObjectBuilder,
    after: ObjectBuilder,
    function: FunctionRef,
)
    requires
        is_function_step(context, info, i, before, after),
        context.emit_info.entrypoints@.len() <= u32::MAX,
        context.module_info.function_of(info.defined_symbols@[i]) == Some(function),
        !is_seen(*context.module_info, info.defined_symbols@, i, function),
    ensures
        has_function(context, after.functions, function),
        info.entrypoints@.contains(function) || info.exports@.contains(info.defined_symbols@[i])
            ==> exists|k: int| #[trigger]
            exports_function(after.functions.defined@, function, k),
{
    let entrypoints = context.emit_info.entrypoints@;
    let defined = after.functions.defined@;
    let n = defined.len() - 1;
    let export = info.needs_export(info.defined_symbols@[i], function);
    lemma_numbers(entrypoints, function);
    match function_number(entrypoints, function) {
        Some(entry) => {
            assert(entrypoints[entry] == function);
            assert(calls_entry_point(defined, function, n, entry));
            assert(export ==> exports_function(defined, function, n));
        },
        None => match context.module_info.module.functions@.entity(function.id() as int) {
            ImportOrDefined::Defined(_) => {
                assert(is_copy_of(defined, function, n));
                if export && context.nonexported_symbols@.contains(info.defined_symbols@[i]) {
                    assert(exports_function(defined, function, n - 1));
                } else if export {
                    assert(exports_function(defined, function, n));
                }
            },
            ImportOrDefined::Import(import) => {
                let last = after.functions.imports@.len() - 1;
                assert(is_import_of(
                    after.functions.imports@,
                    function,
                    last,
                    import.module@,
                    import.name@,
                ));
                assert(export ==> exports_function(defined, function, n));
            },
            ImportOrDefined::External(import) => {
                let last = after.functions.imports@.len() - 1;
                assert(is_import_of(
                    after.functions.imports@,
                    function,
                    last,
                    import.module@,
                    import.name@,
                ));
                assert(export ==> exports_function(defined, function, n));
            },
        },
    }
}

proof fn lemma_has_function_stays(
    context: SplitContext<'_>,
    before: ImportsOrDefined<ImportedFunction, DefinedFunction>,
    after: ImportsOrDefined<ImportedFunction, DefinedFunction>,
    function: FunctionRef,
)
    requires
        has_function(context, before, function),
        before.defined@.len() <= after.defined@.len(),
        before.imports@.len() <= after.imports@.len(),
        forall|k: int|
            0 <= k < before.defined@.len() ==> #[trigger] after.defined@[k] == before.defined@[k],
        forall|k: int|
            0 <= k < before.imports@.len() ==> #[trigger] after.imports@[k] == before.imports@[k],
    ensures
        has_function(context, after, function),
{
    let entrypoints = context.emit_info.entrypoints@;
    if entrypoints.contains(function) {
        let (k, n) = choose|k: int, n: int|
            {
                &&& 0 <= n < entrypoints.len()
                &&& #[trigger] entrypoints[n] == function
                &&& #[trigger] calls_entry_point(before.defined@, function, k, n)
            };
        assert(entrypoints[n] == function);
        assert(after.defined@[k] == before.defined@[k]);
        assert(calls_entry_point(after.defined@, function, k, n));
    } else {
        match context.module_info.module.functions@.entity(function.id() as int) {
            ImportOrDefined::Defined(_) => {
                let k = choose|k: int| #[trigger] is_copy_of(before.defined@, function, k);
                assert(after.defined@[k] == before.defined@[k]);
                assert(is_copy_of(after.defined@, function, k));
            },
            ImportOrDefined::Import(import) | ImportOrDefined::External(import) => {
                let k = choose|k: int| #[trigger]
                    is_import_of(before.imports@, function, k, import.module@, import.name@);
                assert(after.imports@[k] == before.imports@[k]);
                assert(is_import_of(
                    after.imports@,
                    function,
                    k,
                    import.module@,
                    import.name@,
                ));
            },
        }
    }
}

proof fn lemma_states(
    context: SplitContext<'_>,
    info: SplitObjectInfo,
    states: Seq<ObjectBuilder>,
    count: int,
    i: int,
    t: int,
    function: FunctionRef,
)
    requires
        are_function_steps(context, info, states, count),
        context.emit_info.entrypoints@.len() <= u32::MAX,
        0 <= i < t <= count <= info.defined_symbols@.len(),
        context.module_info.function_of(info.defined_symbols@[i]) == Some(function),
        !is_seen(*context.module_info, info.defined_symbols@, i, function),
    ensures
        has_function(context, states[t].functions, function),
        info.entrypoints@.contains(function) || info.exports@.contains(info.defined_symbols@[i])
            ==> exists|k: int| #[trigger]
            exports_function(states[t].functions.defined@, function, k),
    decreases t,
{
    let before = states[t - 1];
    assert(is_function_step(context, info, t - 1, before, states[t - 1 + 1]));
    lemma_step_keeps(context, info, t - 1, before, states[t]);
    if i == t - 1 {
        lemma_step_adds(context, info, i, before, states[t], function);
    } else {
        lemma_states(context, info, states, count, i, t - 1, function);
        lemma_has_function_stays(context, before.functions, states[t].functions, function);
        if info.entrypoints@.contains(function) || info.exports@.contains(
            info.defined_symbols@[i],
        ) {
            let k = choose|k: int| #[trigger]
                exports_function(before.functions.defined@, function, k);
            assert(states[t].functions.defined@[k] == before.functions.defined@[k]);
            assert(exports_function(states[t].functions.defined@, function, k));
        }
    }
}

/// Every function that an output module is to have is in it. Those that other modules need are
/// exported.
pub proof fn lemma_functions_are_included(
    context: SplitContext<'_>,
    info: SplitObjectInfo,
    before: ObjectBuilder,
    after: ObjectBuilder,
    i: int,
    function: FunctionRef,
)
    requires
        has_functions(context, info, before, after),
        context.emit_info.entrypoints@.len() <= u32::MAX,
        0 <= i < info.defined_symbols@.len(),
        context.module_info.function_of(info.defined_symbols@[i]) == Some(function),
        forall|j: int|
            0 <= j < i ==> context.module_info.function_of(#[trigger] info.defined_symbols@[j])
                != Some(function),
    ensures
        has_function(context, after.functions, function),
        info.entrypoints@.contains(function) || info.exports@.contains(info.defined_symbols@[i])
            ==> exists|k: int| #[trigger]
            exports_function(after.functions.defined@, function, k),
{
    let n = info.defined_symbols@.len() as int;
    let states = choose|states: Seq<ObjectBuilder>|
        {
            &&& #[trigger] are_function_steps(context, info, states, n)
            &&& states[0] == before
            &&& states.last() == after
        };
    lemma_states(context, info, states, n, i, n, function);
}

proof fn lemma_segments_end(segments: Seq<SourceSegment>, j: int, k: int)
    requires
        0 <= j < k <= segments.len(),
    ensures
        ({
            let start = segments[j].start_behind(segments_end(segments.take(j)));
            &&& 0 <= segments_end(segments.take(j)) <= start
            &&& start % pow2(segments[j].pow2align as nat) as int == 0
            &&& start + raw_of(symbol_views(segments[j].symbols@)).len() <= segments_end(
                segments.take(k),
            )
        }),
    decreases k,
{
    let last = segments[k - 1];
    assert(segments.take(k).drop_last() =~= segments.take(k - 1));
    assert(segments.take(k).last() == last);
    if k > 1 {
        lemma_segments_end(segments, if j < k - 1 {
            j
        } else {
            k - 2
        }, k - 1);
    } else {
        assert(segments.take(0) =~= Seq::<SourceSegment>::empty());
    }
    let before = segments_end(segments.take(k - 1));
    lemma_pow2_pos(last.pow2align as nat);
    lemma_padding_aligns(before, pow2(last.pow2align as nat) as int);
}

/// The segments of the main module start where its first segment was, and those of a module that is
/// loaded later at the base of that module. Each starts at a multiple of its alignment from there
/// on, behind the segments before it.
pub proof fn lemma_segments_are_laid_out(
    builder: ObjectBuilder,
    context: BuilderContextToBeRemoved<'_>,
    object: Object,
    k: int,
)
    requires
        is_locked_object(builder, context, object),
        0 <= k < builder.data@.len(),
    ensures
        ({
            let segment = object.data@[k];
            let start = match *context.sub_module_extra {
                Some(_) => 0,
                None => builder.data@[0].memory_offset as int,
            };
            &&& start <= segment.memory_offset
            &&& (segment.memory_offset - start) % pow2(builder.data@[k].pow2align as nat) as int == 0
            &&& match *context.sub_module_extra {
                Some(extra) => segment.lib_base == Some(extra.self_base.lib_base_id),
                None => segment.lib_base is None,
            }
            &&& forall|j: int|
                0 <= j < k ==> (#[trigger] object.data@[j]).memory_offset
                    + object.data@[j].raw@.len() <= segment.memory_offset
        }),
{
    let segments = builder.data@;
    let mem_start = memory_start(segments, *context.sub_module_extra is None);
    let base = context.lib_base();
    assert(is_output(segments, k, mem_start, base, object.data@[k]));
    lemma_segments_end(segments, k, k + 1);
    assert forall|j: int| 0 <= j < k implies (#[trigger] object.data@[j]).memory_offset
        + object.data@[j].raw@.len() <= object.data@[k].memory_offset by {
        assert(is_output(segments, j, mem_start, base, object.data@[j]));
        lemma_segments_end(segments, j, k);
    }
}

/// The bytes of every data symbol stand at its place in its segment, at a multiple of its
/// alignment.
pub proof fn lemma_data_is_at_its_place(
    builder: ObjectBuilder,
    context: BuilderContextToBeRemoved<'_>,
    object: Object,
    k: int,
    i: int,
)
    requires
        is_locked_object(builder, context, object),
        0 <= k < builder.data@.len(),
        0 <= i < builder.data@[k].symbols@.len(),
    ensures
        ({
            let symbol = builder.data@[k].symbols@[i];
            let segment = object.data@[k];
            let place = segment.symbols@[i];
            let start = place.data_mem_offset as int;
            &&& i < segment.symbols@.len()
            &&& place.symbol == symbol.symbol
            &&& start % pow2(symbol.pow2align as nat) as int == 0
            &&& start + symbol.bytes@.len() <= segment.raw@.len()
            &&& segment.raw@.subrange(start, start + symbol.bytes@.len()) == symbol.bytes@
        }),
{
    let segments = builder.data@;
    let mem_start = memory_start(segments, *context.sub_module_extra is None);
    assert(is_output(segments, k, mem_start, context.lib_base(), object.data@[k]));
    lemma_symbols_are_at_their_places(
        object.data@[k].symbols@,
        symbol_views(segments[k].symbols@),
        i,
    );
}

/// Whether a global is imported as a constant address under a name.
pub open spec fn imports_base(
    imports: Seq<GlobalImport>,
    global: OutputGlobalId,
    name: Seq<char>,
) -> bool {
    &&& global.id < imports.len()
    &&& imports[global.id as int] matches GlobalImport::New {
        input_global_id,
        global_name,
        global_type,
    }
    &&& input_global_id is None
    &&& global_name@ == name
    &&& global_type.content_type is I32
    &&& !global_type.mutable
}

/// A module that is loaded later imports its own bases, and those of the parts that it uses, under
/// the names of these parts. The base in memory and that in the table are different globals.
pub proof fn lemma_bases_are_imported(
    context: SplitContext<'_>,
    shared: Seq<SharedModuleIdentifier>,
    globals: ImportsOrDefined<GlobalImport, DefinedGlobal>,
    extra: SubModuleExtra,
    store: Seq<(StoreType, OutputGlobalId)>,
    i: int,
)
    requires
        has_sub_globals(context, shared, globals, extra, store),
    ensures
        imports_base(globals.imports@, extra.self_base.lib_base_id, "__lib_base"@),
        imports_base(globals.imports@, extra.self_base.table_base_id, "__table_base"@),
        extra.extern_modules@.len() == shared.len(),
        0 <= i < shared.len() ==> {
            let (part, base) = extra.extern_modules@[i];
            let name = shared_text(shared[i]@);
            &&& part@ == shared[i]@
            &&& imports_base(globals.imports@, base.lib_base_id, "__"@ + name + "_lib_base"@)
            &&& imports_base(globals.imports@, base.table_base_id, "__"@ + name + "_table_base"@)
        },
{
    if 0 <= i < shared.len() {
        assert(extra.extern_modules@[i].0@ == shared[i]@);
    }
}

/// The globals that hold values for a while are defined behind all imports, are variable, and have
/// the types of the values that they are for.
pub proof fn lemma_tmp_globals_are_defined(
    context: SplitContext<'_>,
    shared: Seq<SharedModuleIdentifier>,
    globals: ImportsOrDefined<GlobalImport, DefinedGlobal>,
    extra: SubModuleExtra,
    store: Seq<(StoreType, OutputGlobalId)>,
    i: int,
)
    requires
        has_sub_globals(context, shared, globals, extra, store),
        0 <= i < store.len(),
    ensures
        ({
            let (kind, global) = store[i];
            let k = global.id - globals.imports@.len();
            &&& 0 <= k < globals.defined@.len()
            &&& globals.defined@[k] matches DefinedGlobal::WithConstructor(ty)
            &&& ty.mutable
            &&& match kind {
                StoreType::I32 => ty.content_type is I32,
                StoreType::I64 => ty.content_type is I64,
                StoreType::F32 => ty.content_type is F32,
                StoreType::F64 => ty.content_type is F64,
            }
        }),
        forall|j: int|
            0 <= j < store.len() && j != i ==> (#[trigger] store[j]).1.id != store[i].1.id
                && store[j].0 != store[i].0,
{
    assert(store[i].1.id == globals.imports@.len() + i);
}

/// Every function of another module is imported, under its name.
pub proof fn lemma_functions_of_other_modules_are_imported(
    input: InputObject,
    symbols: Seq<SymbolId>,
    imports: Seq<ImportedFunction>,
    i: int,
    function: FunctionRef,
)
    requires
        are_new_imports(input, symbols, imports),
        0 <= i < symbols.len(),
        input.function_of(symbols[i]) == Some(function),
    ensures
        exists|k: int|
            {
                &&& 0 <= k < imports.len()
                &&& (#[trigger] imports[k]).input_func_id == function
                &&& imports[k].kind matches ImportFunctionKind::New { mangled_function_name, .. }
                &&& own_name(input.module.functions@.entity(function.id() as int)) == Some(
                    mangled_function_name@,
                )
            },
    decreases symbols.len(),
{
    if i == symbols.len() - 1 {
        let k = imports.len() - 1;
        assert(imports[k].input_func_id == function);
    } else {
        let init = symbols.drop_last();
        let rest = if input.function_of(symbols.last()) is Some {
            imports.drop_last()
        } else {
            imports
        };
        assert(init[i] == symbols[i]);
        lemma_functions_of_other_modules_are_imported(input, init, rest, i, function);
        let k = choose|k: int|
            {
                &&& 0 <= k < rest.len()
                &&& (#[trigger] rest[k]).input_func_id == function
                &&& rest[k].kind matches ImportFunctionKind::New { mangled_function_name, .. }
                &&& own_name(input.module.functions@.entity(function.id() as int)) == Some(
                    mangled_function_name@,
                )
            };
        assert(imports[k] == rest[k]);
    }
}

/// The functions of an output module that are called through the table are those of the input
/// module that the output module has. Only the main module has entries for other modules to fill,
/// one for each function that they are entered by.
pub proof fn lemma_indirect_functions_are_kept<L, V>(
    context: SplitContext<'_>,
    info: SplitObjectInfo,
    module: SplitName,
    shared: Seq<SharedModuleIdentifier>,
    state: ModuleEmitState<L, V>,
    function: FunctionRef,
)
    requires
        is_split_module(context, info, module, shared, state),
    ensures
        state.indirect_functions.indirect_function_table@.contains(function)
            <==> context.module_info.indirect_function_table@.contains(function) && (exists|k: int|
            #[trigger] stands_for(state.functions, k, function)),
        match state.indirect_functions.num_entrypoints {
            Some(count) => context.main_module && count
                == context.emit_info.entrypoints@.len() as usize,
            None => !context.main_module,
        },
{
    lemma_kept(
        context.module_info.indirect_function_table@,
        is_present(state.functions),
        function,
    );
    lemma_outputs_stand_for_inputs(state.functions, function);
}

/// A segment of an output module has those data symbols of the segment of the input module that
/// belong to the output module, with their bytes and alignments.
pub proof fn lemma_data_symbols_are_kept(
    input: InputObject,
    symbols: Seq<SymbolId>,
    k: int,
    source: SourceSegment,
    kept: SourceSegment,
    view: SymbolView,
)
    requires
        is_kept_segment(input, symbols, k, source, kept),
    ensures
        symbol_views(kept.symbols@).contains(view) <==> {
            &&& symbol_views(source.symbols@).contains(view)
            &&& symbols.contains(view.0)
            &&& input.kind_of(view.0) matches Some(SymbolKind::DataDefined { segment_id })
            &&& segment_id.id() == k
        },
        kept.pow2align == source.pow2align,
{
    let listed = symbols.filter(in_data_segment(input, k));
    lemma_kept(symbol_views(source.symbols@), is_listed(listed), view);
    lemma_kept(symbols, in_data_segment(input, k), view.0);
}

} // verus!
