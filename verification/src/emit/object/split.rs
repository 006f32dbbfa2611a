//! Output modules of a split program, made of the symbols of one input module.
use crate::emit::modify::constant_extraction::{
    code_modify_entry, CodeModifyEntry, RelocationContext,
};
use crate::emit::modify::FixupError;
use crate::emit::object::builder::ObjectBuilder;
use crate::emit::object::segments::{is_listed, symbol_views, SourceSegment};
use crate::emit::object::{
    contains_function, contains_symbol, DefinedFunction, DefinedFunctionKind, ImportFunctionKind,
    ImportedFunction, InputObject, SymbolKind,
};
use crate::index::TempIndex;
use crate::linkage::reloc::AnyRelocationEntry;
use crate::typed::duplicate::Duplicate;
use crate::typed::entities::ImportOrDefined;
use crate::typed::lookup::own_name;
use crate::typed::{FunctionRef, SymbolId};
use vstd::prelude::*;
use vstd::string::StringExecFns;

verus! {

/// Why an output module cannot be made.
#[derive(Debug, Clone, Copy, PartialEq, Eq, Structural)]
pub enum SplitError {
    /// A relocation is not supported.
    Fixup(FixupError),
    /// A function that is imported has no name.
    UnnamedFunction,
    /// A global of the main module that others need does not exist.
    MissingGlobal,
    /// There are more entities than indices.
    TooManyEntities,
}

/// What is the same for all output modules.
#[derive(Debug)]
pub struct CommonEmitInfo {
    /// The functions that are called through entries of the table behind the functions of the main
    /// module.
    pub entrypoints: Vec<FunctionRef>,
    pub src_data_segments: Vec<SourceSegment>,
    /// Names of the globals of the main module that other modules import.
    pub main_global_exports: Vec<String>,
}

/// The number of the first occurrence of a function.
pub open spec fn function_number(functions: Seq<FunctionRef>, function: FunctionRef) -> Option<int>
    decreases functions.len(),
{
    if functions.len() == 0 {
        None
    } else {
        match function_number(functions.drop_last(), function) {
            Some(i) => Some(i),
            None => if functions.last() == function {
                Some(functions.len() - 1)
            } else {
                None
            },
        }
    }
}

proof fn lemma_function_number(functions: Seq<FunctionRef>, k: int, function: FunctionRef)
    requires
        0 <= k < functions.len(),
        function_number(functions.take(k), function) is None,
        functions[k] == function,
    ensures
        function_number(functions, function) == Some(k),
    decreases functions.len(),
{
    if k == functions.len() - 1 {
        assert(functions.take(k) =~= functions.drop_last());
    } else {
        assert(functions.drop_last().take(k) =~= functions.take(k));
        lemma_function_number(functions.drop_last(), k, function);
    }
}

impl CommonEmitInfo {
    /// The entry behind the functions of the main module through which a function is called.
    pub fn external_entrypoint_index(&self, input_func_id: FunctionRef) -> (r: Option<u32>)
        requires
            self.entrypoints@.len() <= u32::MAX,
        ensures
            match r {
                Some(i) => function_number(self.entrypoints@, input_func_id) == Some(i as int),
                None => function_number(self.entrypoints@, input_func_id) is None,
            },
    {
        let mut i: usize = 0;
        assert(self.entrypoints@.take(0) =~= Seq::<FunctionRef>::empty());
        while i < self.entrypoints.len()
            invariant
                i <= self.entrypoints@.len() <= u32::MAX,
                function_number(self.entrypoints@.take(i as int), input_func_id) is None,
            decreases self.entrypoints@.len() - i,
        {
            proof {
                assert(self.entrypoints@.take(i + 1).drop_last()
                    =~= self.entrypoints@.take(i as int));
            }
            if self.entrypoints[i] == input_func_id {
                proof {
                    lemma_function_number(self.entrypoints@, i as int, input_func_id);
                }
                return Some(i as u32);
            }
            i = i + 1;
        }
        assert(self.entrypoints@.take(i as int) =~= self.entrypoints@);
        None
    }

    pub fn num_entrypoints(&self) -> (r: usize)
        ensures
            r == self.entrypoints@.len(),
    {
        self.entrypoints.len()
    }
}

/// The content of an output module.
#[derive(Debug)]
pub struct SplitObjectInfo {
    pub defined_symbols: Vec<SymbolId>,
    pub imports: Vec<SymbolId>,
    pub exports: Vec<SymbolId>,
    /// The functions that split points export.
    pub entrypoints: Vec<FunctionRef>,
}

impl SplitObjectInfo {
    pub open spec fn needs_export(&self, symbol: SymbolId, function: FunctionRef) -> bool {
        self.exports@.contains(symbol) || self.entrypoints@.contains(function)
    }

    /// Whether another module needs a function: it is linked to it, or calls it through the table.
    pub fn need_export(&self, symbol: SymbolId, input_func_id: FunctionRef) -> (r: bool)
        ensures
            r == self.needs_export(symbol, input_func_id),
    {
        contains_symbol(&self.exports, symbol) || contains_function(
            &self.entrypoints,
            input_func_id,
        )
    }
}

/// What surrounds the symbols of an output module.
pub struct SplitContext<'any> {
    pub module_info: &'any InputObject,
    pub emit_info: &'any CommonEmitInfo,
    pub static_symbols: &'any Vec<SymbolId>,
    pub nonexported_symbols: &'any Vec<SymbolId>,
    pub main_module: bool,
}

impl<'any> SplitContext<'any> {
    /// Whether the target of a relocation of code is relative to a base.
    pub open spec fn is_dynamic(&self, reloc: AnyRelocationEntry) -> bool {
        &&& !self.main_module
        &&& match reloc {
            AnyRelocationEntry::Linkage(linkage) => !self.static_symbols@.contains(
                linkage.symbol_id,
            ),
            AnyRelocationEntry::Type(_) => true,
        }
    }

    /// Whether symbols stand for functions or data, and functions exist.
    pub open spec fn knows(&self, symbols: Seq<SymbolId>) -> bool {
        &&& self.emit_info.entrypoints@.len() <= u32::MAX
        &&& forall|i: int|
            0 <= i < symbols.len() ==> match self.module_info.kind_of(#[trigger] symbols[i]) {
                Some(SymbolKind::Func { input_id }) => input_id.id()
                    < self.module_info.module.functions@.len(),
                Some(SymbolKind::DataDefined { .. }) => true,
                _ => false,
            }
    }
}

/// A builder in some stage.
pub struct Split<S> {
    pub state: S,
}

/// What is made of the relocations of a function.
pub open spec fn code_entries(context: SplitContext<'_>, relocs: Seq<AnyRelocationEntry>) -> Result<
    Seq<CodeModifyEntry>,
    FixupError,
>
    decreases relocs.len(),
{
    if relocs.len() == 0 {
        Ok(Seq::empty())
    } else {
        match code_entries(context, relocs.drop_last()) {
            Err(error) => Err(error),
            Ok(entries) => match code_modify_entry(
                relocs.last(),
                context.is_dynamic(relocs.last()),
            ) {
                Err(error) => Err(error),
                Ok(entry) => Ok(entries.push(entry)),
            },
        }
    }
}

proof fn lemma_code_entries_stop(
    context: SplitContext<'_>,
    relocs: Seq<AnyRelocationEntry>,
    k: int,
)
    requires
        0 <= k <= relocs.len(),
        code_entries(context, relocs.take(k)) is Err,
    ensures
        code_entries(context, relocs) == code_entries(context, relocs.take(k)),
    decreases relocs.len() - k,
{
    if k == relocs.len() {
        assert(relocs.take(k) =~= relocs);
    } else {
        assert(relocs.take(k + 1).drop_last() =~= relocs.take(k));
        lemma_code_entries_stop(context, relocs, k + 1);
    }
}

fn list_code_entries(context: &SplitContext<'_>, relocs: &Vec<AnyRelocationEntry>) -> (r: Result<
    Vec<CodeModifyEntry>,
    FixupError,
>)
    ensures
        match code_entries(*context, relocs@) {
            Ok(entries) => r matches Ok(list) && list@ == entries,
            Err(error) => r matches Err(e) && e == error,
        },
{
    let ghost all = relocs@;
    let mut list: Vec<CodeModifyEntry> = Vec::new();
    let mut i: usize = 0;
    assert(all.take(0) =~= Seq::<AnyRelocationEntry>::empty());
    while i < relocs.len()
        invariant
            i <= all.len(),
            all == relocs@,
            code_entries(*context, all.take(i as int)) == Ok::<Seq<CodeModifyEntry>, FixupError>(
                list@,
            ),
        decreases all.len() - i,
    {
        let reloc = relocs[i];
        proof {
            assert(all.take(i + 1).drop_last() =~= all.take(i as int));
            assert(all.take(i + 1).last() == all[i as int]);
        }
        let dyn_base = !context.main_module && match reloc {
            AnyRelocationEntry::Linkage(linkage) => !contains_symbol(
                context.static_symbols,
                linkage.symbol_id,
            ),
            AnyRelocationEntry::Type(_) => true,
        };
        let relocation_context = RelocationContext { dyn_base, containing_symbol: None };
        match CodeModifyEntry::from_relocation_entry(&reloc, &relocation_context) {
            Ok(entry) => list.push(entry),
            Err(error) => {
                proof {
                    lemma_code_entries_stop(*context, all, i + 1);
                }
                return Err(error);
            },
        }
        i = i + 1;
    }
    assert(all.take(i as int) =~= all);
    Ok(list)
}

/// Whether a function is a copy with the modifications of its relocations.
pub open spec fn is_copied_function(
    context: SplitContext<'_>,
    symbol: SymbolId,
    function: FunctionRef,
    export: bool,
    defined: DefinedFunction,
) -> bool {
    &&& defined.export == export
    &&& defined.input_func_id == function
    &&& defined.kind matches DefinedFunctionKind::Copied { modification_list }
    &&& code_entries(context, context.module_info.symbols@[symbol.id() as int].relocs@) == Ok::<
        Seq<CodeModifyEntry>,
        FixupError,
    >(modification_list@)
}

/// The function that exports another one under a new name.
pub open spec fn export_trampoline(function: FunctionRef) -> DefinedFunction {
    DefinedFunction {
        export: true,
        input_func_id: function,
        kind: DefinedFunctionKind::Trampoline,
    }
}

/// Whether a function is in an output module:
/// - A function that a split point imports is called through the table.
/// - An imported function stays imported. To be exported too, it needs a new function.
/// - A defined function is copied. If it cannot be exported itself, a new function is.
pub open spec fn is_included(
    context: SplitContext<'_>,
    symbol: SymbolId,
    function: FunctionRef,
    export: bool,
    before: ObjectBuilder,
    after: ObjectBuilder,
) -> bool {
    let defined = before.functions.defined@;
    let imports = before.functions.imports@;
    let last = after.functions.defined@.last();
    &&& after.globals == before.globals
    &&& after.data == before.data
    &&& match function_number(context.emit_info.entrypoints@, function) {
        Some(i) => {
            &&& after.functions.imports == before.functions.imports
            &&& after.functions.defined@ == defined.push(
                DefinedFunction {
                    export,
                    input_func_id: function,
                    kind: DefinedFunctionKind::IndirectTrampoline { table_index_offset: i as u32 },
                },
            )
        },
        None => match context.module_info.module.functions@.entity(function.id() as int) {
            ImportOrDefined::Defined(_) => {
                &&& after.functions.imports == before.functions.imports
                &&& if export && context.nonexported_symbols@.contains(symbol) {
                    &&& after.functions.defined@ == defined.push(
                        export_trampoline(function),
                    ).push(last)
                    &&& is_copied_function(context, symbol, function, false, last)
                } else {
                    &&& after.functions.defined@ == defined.push(last)
                    &&& is_copied_function(context, symbol, function, export, last)
                }
            },
            ImportOrDefined::Import(import) | ImportOrDefined::External(import) => {
                &&& after.functions.imports@ == imports.push(after.functions.imports@.last())
                &&& is_existing_import(after.functions.imports@.last(), function, import)
                &&& after.functions.defined@ == if export {
                    defined.push(export_trampoline(function))
                } else {
                    defined
                }
            },
        },
    }
}

/// Whether an import is that of the input module.
pub open spec fn is_existing_import(
    import: ImportedFunction,
    function: FunctionRef,
    input: crate::typed::module::ImportedFunction,
) -> bool {
    &&& import.input_func_id == function
    &&& import.kind matches ImportFunctionKind::Existing { module_name, func_name }
    &&& module_name@ == input.module@
    &&& func_name@ == input.name@
}

/// Why a function cannot be in an output module.
pub open spec fn include_error(
    context: SplitContext<'_>,
    symbol: SymbolId,
    function: FunctionRef,
    before: ObjectBuilder,
) -> Option<SplitError> {
    if function_number(context.emit_info.entrypoints@, function) is Some {
        None
    } else if context.module_info.module.functions@.entity(function.id() as int) is Defined {
        match code_entries(context, context.module_info.symbols@[symbol.id() as int].relocs@) {
            Ok(_) => None,
            Err(error) => Some(SplitError::Fixup(error)),
        }
    } else if before.functions.imports@.len() >= u32::MAX {
        Some(SplitError::TooManyEntities)
    } else {
        None
    }
}

impl Split<ObjectBuilder> {
    /// Adds a function to the output module.
    fn include_function_by_symbol(
        &mut self,
        context: &SplitContext<'_>,
        symbol: SymbolId,
        input_func_id: FunctionRef,
        export: bool,
    ) -> (r: Result<(), SplitError>)
        requires
            context.emit_info.entrypoints@.len() <= u32::MAX,
            symbol.id() < context.module_info.symbols@.len(),
            input_func_id.id() < context.module_info.module.functions@.len(),
        ensures
            match include_error(*context, symbol, input_func_id, old(self).state) {
                Some(error) => r == Err::<(), _>(error) && final(self).state == old(self).state,
                None => r is Ok && is_included(
                    *context,
                    symbol,
                    input_func_id,
                    export,
                    old(self).state,
                    final(self).state,
                ),
            },
    {
        if let Some(table_index_offset) = context.emit_info.external_entrypoint_index(
            input_func_id,
        ) {
            self.state.add_defined_function(
                DefinedFunction {
                    export,
                    input_func_id,
                    kind: DefinedFunctionKind::IndirectTrampoline { table_index_offset },
                },
            );
            return Ok(());
        }
        match context.module_info.module.functions.get_entity(input_func_id) {
            ImportOrDefined::Defined(_) => {
                let relocs = &context.module_info.symbols[symbol.index()].relocs;
                let modification_list = match list_code_entries(context, relocs) {
                    Ok(list) => list,
                    Err(error) => {
                        return Err(SplitError::Fixup(error));
                    },
                };
                let mut need_export = export;
                if need_export && contains_symbol(context.nonexported_symbols, symbol) {
                    self.state.add_defined_function(
                        DefinedFunction {
                            export: true,
                            input_func_id,
                            kind: DefinedFunctionKind::Trampoline,
                        },
                    );
                    need_export = false;
                }
                self.state.add_defined_function(
                    DefinedFunction {
                        export: need_export,
                        input_func_id,
                        kind: DefinedFunctionKind::Copied { modification_list },
                    },
                );
            },
            ImportOrDefined::Import(import) | ImportOrDefined::External(import) => {
                if self.state.functions.imports.len() >= u32::MAX as usize {
                    return Err(SplitError::TooManyEntities);
                }
                let kind = ImportFunctionKind::Existing {
                    module_name: import.module.clone(),
                    func_name: import.name.clone(),
                };
                let _ = self.state.add_imported_function(ImportedFunction { input_func_id, kind });
                if export {
                    self.state.add_defined_function(
                        DefinedFunction {
                            export: true,
                            input_func_id,
                            kind: DefinedFunctionKind::Trampoline,
                        },
                    );
                }
            },
        }
        Ok(())
    }
}

/// Whether an earlier symbol stands for the same function.
pub open spec fn is_seen(
    input: InputObject,
    symbols: Seq<SymbolId>,
    i: int,
    function: FunctionRef,
) -> bool {
    exists|j: int| 0 <= j < i && input.function_of(#[trigger] symbols[j]) == Some(function)
}

/// Whether a symbol is processed: functions are included once, and data is not.
pub open spec fn is_function_step(
    context: SplitContext<'_>,
    info: SplitObjectInfo,
    i: int,
    before: ObjectBuilder,
    after: ObjectBuilder,
) -> bool {
    let symbols = info.defined_symbols@;
    match context.module_info.function_of(symbols[i]) {
        Some(function) => if is_seen(*context.module_info, symbols, i, function) {
            after == before
        } else {
            is_included(
                context,
                symbols[i],
                function,
                info.needs_export(symbols[i], function),
                before,
                after,
            )
        },
        None => after == before,
    }
}

/// Whether the first symbols are processed one after the other.
pub open spec fn are_function_steps(
    context: SplitContext<'_>,
    info: SplitObjectInfo,
    states: Seq<ObjectBuilder>,
    count: int,
) -> bool {
    &&& states.len() == count + 1
    &&& forall|i: int|
        #![trigger states[i]]
        0 <= i < count ==> is_function_step(context, info, i, states[i], states[i + 1])
}

/// Whether the functions of an output module are included.
pub open spec fn has_functions(
    context: SplitContext<'_>,
    info: SplitObjectInfo,
    before: ObjectBuilder,
    after: ObjectBuilder,
) -> bool {
    exists|states: Seq<ObjectBuilder>|
        {
            &&& #[trigger] are_function_steps(
                context,
                info,
                states,
                info.defined_symbols@.len() as int,
            )
            &&& states[0] == before
            &&& states.last() == after
        }
}

/// Whether a function of an output module cannot be included.
pub open spec fn has_bad_function(
    context: SplitContext<'_>,
    info: SplitObjectInfo,
    before: ObjectBuilder,
    error: SplitError,
) -> bool {
    exists|states: Seq<ObjectBuilder>, i: int|
        {
            &&& 0 <= i < info.defined_symbols@.len()
            &&& #[trigger] are_function_steps(context, info, states, i)
            &&& states[0] == before
            &&& is_bad_function(context, info, i, states.last(), error)
        }
}

/// Whether the function of a symbol cannot be included.
pub open spec fn is_bad_function(
    context: SplitContext<'_>,
    info: SplitObjectInfo,
    i: int,
    before: ObjectBuilder,
    error: SplitError,
) -> bool {
    let symbols = info.defined_symbols@;
    &&& context.module_info.function_of(symbols[i]) matches Some(function)
    &&& !is_seen(*context.module_info, symbols, i, function)
    &&& include_error(context, symbols[i], function, before) == Some(error)
}

/// Whether functions are imported from other output modules. Only functions are.
pub open spec fn are_new_imports(
    input: InputObject,
    symbols: Seq<SymbolId>,
    imports: Seq<ImportedFunction>,
) -> bool
    decreases symbols.len(),
{
    if symbols.len() == 0 {
        imports.len() == 0
    } else {
        match input.function_of(symbols.last()) {
            Some(function) => {
                &&& imports.len() > 0
                &&& are_new_imports(input, symbols.drop_last(), imports.drop_last())
                &&& is_new_function_import(input, function, imports.last())
            },
            None => are_new_imports(input, symbols.drop_last(), imports),
        }
    }
}

/// Whether a function is imported from another output module.
pub open spec fn is_new_function_import(
    input: InputObject,
    function: FunctionRef,
    import: ImportedFunction,
) -> bool {
    &&& import.input_func_id == function
    &&& import.kind matches ImportFunctionKind::New {
        link_module,
        output_function_index,
        mangled_function_name,
    }
    &&& link_module == 0
    &&& output_function_index == 0
    &&& own_name(input.module.functions@.entity(function.id() as int)) == Some(
        mangled_function_name@,
    )
}

/// Whether a function that is imported has no name.
pub open spec fn has_unnamed(input: InputObject, symbols: Seq<SymbolId>) -> bool {
    exists|i: int| 0 <= i < symbols.len() && is_unnamed(input, #[trigger] symbols[i])
}

/// Whether a symbol stands for a function without a name.
pub open spec fn is_unnamed(input: InputObject, symbol: SymbolId) -> bool {
    input.function_of(symbol) matches Some(function) && own_name(
        input.module.functions@.entity(function.id() as int),
    ) is None
}

fn function_name(input: &InputObject, function: FunctionRef) -> (r: Option<String>)
    requires
        function.id() < input.module.functions@.len(),
    ensures
        match own_name(input.module.functions@.entity(function.id() as int)) {
            Some(name) => r matches Some(text) && text@ == name,
            None => r is None,
        },
{
    match input.module.functions.get_entity(function) {
        ImportOrDefined::Import(import) => Some(import.name.clone()),
        ImportOrDefined::External(import) => Some(import.name.clone()),
        ImportOrDefined::Defined(defined) => match &defined.name {
            Some(name) => Some(name.clone()),
            None => None,
        },
    }
}

/// Tells the data symbols of a segment.
pub open spec fn in_data_segment(input: InputObject, k: int) -> spec_fn(SymbolId) -> bool {
    |symbol: SymbolId|
        input.kind_of(symbol) matches Some(SymbolKind::DataDefined { segment_id })
            && segment_id.id() == k
}

/// Whether a segment of the input module keeps the data symbols of an output module.
pub open spec fn is_kept_segment(
    input: InputObject,
    symbols: Seq<SymbolId>,
    k: int,
    source: SourceSegment,
    kept: SourceSegment,
) -> bool {
    &&& kept.name@ == source.name@
    &&& kept.memory_offset == source.memory_offset
    &&& kept.pow2align == source.pow2align
    &&& symbol_views(kept.symbols@) == symbol_views(source.symbols@).filter(
        is_listed(symbols.filter(in_data_segment(input, k))),
    )
}

fn list_data_symbols(input: &InputObject, symbols: &Vec<SymbolId>, k: usize) -> (r: Vec<SymbolId>)
    ensures
        r@ == symbols@.filter(in_data_segment(*input, k as int)),
{
    let ghost all = symbols@;
    let ghost keep = in_data_segment(*input, k as int);
    let mut list: Vec<SymbolId> = Vec::new();
    let mut i: usize = 0;
    proof {
        reveal(Seq::filter);
        assert(list@ =~= all.take(0).filter(keep));
    }
    while i < symbols.len()
        invariant
            i <= all.len(),
            all == symbols@,
            keep == in_data_segment(*input, k as int),
            list@ == all.take(i as int).filter(keep),
        decreases all.len() - i,
    {
        proof {
            reveal(Seq::filter);
            assert(all.take(i + 1).drop_last() =~= all.take(i as int));
            assert(all.take(i + 1).last() == all[i as int]);
        }
        if let Some(SymbolKind::DataDefined { segment_id }) = input.symbol_kind(symbols[i]) {
            if segment_id.as_u32() as usize == k {
                list.push(symbols[i]);
            }
        }
        i = i + 1;
    }
    assert(all.take(i as int) =~= all);
    list
}

impl Split<ObjectBuilder> {
    /// Adds the functions of the output module. A function with several symbols is added once.
    pub(crate) fn add_functions(
        &mut self,
        context: &SplitContext<'_>,
        info: &SplitObjectInfo,
    ) -> (r: Result<
        (),
        SplitError,
    >)
        requires
            context.knows(info.defined_symbols@),
        ensures
            match r {
                Ok(_) => has_functions(*context, *info, old(self).state, final(self).state),
                Err(error) => has_bad_function(*context, *info, old(self).state, error),
            },
    {
        let ghost symbols = info.defined_symbols@;
        let ghost mut states: Seq<ObjectBuilder> = seq![self.state];
        let mut used_funcs: Vec<FunctionRef> = Vec::new();
        let mut i: usize = 0;
        while i < info.defined_symbols.len()
            invariant
                i <= symbols.len(),
                symbols == info.defined_symbols@,
                context.knows(symbols),
                forall|f: FunctionRef| #[trigger]
                    used_funcs@.contains(f) <==> is_seen(
                        *context.module_info,
                        symbols,
                        i as int,
                        f,
                    ),
                are_function_steps(*context, *info, states, i as int),
                states[0] == old(self).state,
                states.last() == self.state,
            decreases symbols.len() - i,
        {
            let symbol = info.defined_symbols[i];
            let ghost before = self.state;
            let ghost shorter = states;
            let ghost old_used = used_funcs@;
            assert(match context.module_info.kind_of(symbols[i as int]) {
                Some(SymbolKind::Func { input_id }) => input_id.id()
                    < context.module_info.module.functions@.len(),
                Some(SymbolKind::DataDefined { .. }) => true,
                _ => false,
            });
            if let Some(input_func_id) = context.module_info.as_input_function(symbol) {
                if !contains_function(&used_funcs, input_func_id) {
                    used_funcs.push(input_func_id);
                    let need_export = info.need_export(symbol, input_func_id);
                    match self.include_function_by_symbol(
                        context,
                        symbol,
                        input_func_id,
                        need_export,
                    ) {
                        Ok(_) => {},
                        Err(error) => {
                            proof {
                                assert(old_used.contains(input_func_id) == is_seen(
                                    *context.module_info,
                                    symbols,
                                    i as int,
                                    input_func_id,
                                ));
                                assert(is_bad_function(*context, *info, i as int, before, error));
                                assert(has_bad_function(*context, *info, old(self).state, error));
                            }
                            return Err(error);
                        },
                    }
                }
            }
            proof {
                let function = context.module_info.function_of(symbols[i as int]);
                assert forall|f: FunctionRef| #[trigger]
                    used_funcs@.contains(f) <==> is_seen(
                        *context.module_info,
                        symbols,
                        i + 1,
                        f,
                    ) by {
                    assert(old_used.contains(f) <==> is_seen(
                        *context.module_info,
                        symbols,
                        i as int,
                        f,
                    ));
                    if used_funcs@.contains(f) {
                        if old_used.contains(f) {
                            let j = choose|j: int|
                                0 <= j < i && context.module_info.function_of(
                                    #[trigger] symbols[j],
                                ) == Some(f);
                            assert(context.module_info.function_of(symbols[j]) == Some(f));
                        } else {
                            assert(function == Some(f));
                        }
                    }
                    if is_seen(*context.module_info, symbols, i + 1, f) {
                        let j = choose|j: int|
                            0 <= j < i + 1 && context.module_info.function_of(
                                #[trigger] symbols[j],
                            ) == Some(f);
                        if j < i {
                            assert(is_seen(*context.module_info, symbols, i as int, f));
                            let n = choose|n: int| 0 <= n < old_used.len() && old_used[n] == f;
                            assert(used_funcs@[n] == f);
                        } else if old_used.contains(f) {
                            let n = choose|n: int| 0 <= n < old_used.len() && old_used[n] == f;
                            assert(used_funcs@[n] == f);
                        } else {
                            assert(used_funcs@[used_funcs@.len() - 1] == f);
                        }
                    }
                }
                states = shorter.push(self.state);
                assert forall|j: int|
                    #![trigger states[j]]
                    0 <= j < i + 1 implies is_function_step(
                    *context,
                    *info,
                    j,
                    states[j],
                    states[j + 1],
                ) by {
                    if j < i {
                        assert(states[j] == shorter[j]);
                        assert(states[j + 1] == shorter[j + 1]);
                    }
                }
            }
            i = i + 1;
        }
        assert(has_functions(*context, *info, old(self).state, self.state));
        Ok(())
    }

    /// Imports functions from other output modules.
    pub(crate) fn add_function_imports(
        &mut self,
        context: &SplitContext<'_>,
        symbols: &Vec<SymbolId>,
    ) -> (r:
        Result<(), SplitError>)
        requires
            forall|i: int|
                0 <= i < symbols@.len() ==> (context.module_info.function_of(
                    #[trigger] symbols@[i],
                ) matches Some(f) ==> f.id() < context.module_info.module.functions@.len()),
        ensures
            final(self).state.globals == old(self).state.globals,
            final(self).state.data == old(self).state.data,
            final(self).state.functions.defined == old(self).state.functions.defined,
            match r {
                Ok(_) => {
                    let before = old(self).state.functions.imports@;
                    let after = final(self).state.functions.imports@;
                    &&& before.len() <= after.len()
                    &&& after.take(before.len() as int) == before
                    &&& are_new_imports(
                        *context.module_info,
                        symbols@,
                        after.skip(before.len() as int),
                    )
                },
                Err(error) => {
                    ||| error is UnnamedFunction && has_unnamed(*context.module_info, symbols@)
                    ||| error is TooManyEntities && old(self).state.functions.imports@.len()
                        + symbols@.len() > u32::MAX
                },
            },
    {
        let ghost before = self.state.functions.imports@;
        let ghost all = symbols@;
        let ghost n = before.len() as int;
        let mut i: usize = 0;
        proof {
            assert(all.take(0) =~= Seq::<SymbolId>::empty());
            assert(before.take(n) =~= before);
        }
        while i < symbols.len()
            invariant
                i <= all.len(),
                all == symbols@,
                before == old(self).state.functions.imports@,
                n == before.len() <= self.state.functions.imports@.len() <= n + i,
                forall|i: int|
                    0 <= i < symbols@.len() ==> (context.module_info.function_of(
                        #[trigger] symbols@[i],
                    ) matches Some(f) ==> f.id() < context.module_info.module.functions@.len()),
                self.state.globals == old(self).state.globals,
                self.state.data == old(self).state.data,
                self.state.functions.defined == old(self).state.functions.defined,
                self.state.functions.imports@.take(n) == before,
                are_new_imports(
                    *context.module_info,
                    all.take(i as int),
                    self.state.functions.imports@.skip(n),
                ),
            decreases all.len() - i,
        {
            let ghost imports = self.state.functions.imports@;
            proof {
                assert(all.take(i + 1).drop_last() =~= all.take(i as int));
                assert(all.take(i + 1).last() == all[i as int]);
            }
            if let Some(input_func_id) = context.module_info.as_input_function(symbols[i]) {
                if self.state.functions.imports.len() >= u32::MAX as usize {
                    return Err(SplitError::TooManyEntities);
                }
                let mangled_function_name = match function_name(
                    context.module_info,
                    input_func_id,
                ) {
                    Some(name) => name,
                    None => {
                        assert(is_unnamed(*context.module_info, symbols@[i as int]));
                        return Err(SplitError::UnnamedFunction);
                    },
                };
                let kind = ImportFunctionKind::New {
                    link_module: 0,
                    output_function_index: 0,
                    mangled_function_name,
                };
                let _ = self.state.add_imported_function(ImportedFunction { input_func_id, kind });
                proof {
                    let longer = self.state.functions.imports@;
                    assert(longer.take(n) =~= imports.take(n));
                    assert(longer.skip(n).drop_last() =~= imports.skip(n));
                    assert(longer.skip(n).last() == longer.last());
                }
            }
            i = i + 1;
        }
        assert(all.take(i as int) =~= all);
        Ok(())
    }

    /// Adds the data segments with the symbols of the output module.
    pub(crate) fn add_data(&mut self, context: &SplitContext<'_>, symbols: &Vec<SymbolId>)
        requires
            old(self).state.data@.len() == 0,
        ensures
            final(self).state.globals == old(self).state.globals,
            final(self).state.functions == old(self).state.functions,
            final(self).state.data@.len() == context.emit_info.src_data_segments@.len(),
            forall|k: int|
                0 <= k < final(self).state.data@.len() ==> is_kept_segment(
                    *context.module_info,
                    symbols@,
                    k,
                    context.emit_info.src_data_segments@[k],
                    #[trigger] final(self).state.data@[k],
                ),
    {
        let mut k: usize = 0;
        while k < context.emit_info.src_data_segments.len()
            invariant
                k <= context.emit_info.src_data_segments@.len(),
                self.state.globals == old(self).state.globals,
                self.state.functions == old(self).state.functions,
                self.state.data@.len() == k,
                forall|j: int|
                    0 <= j < k ==> is_kept_segment(
                        *context.module_info,
                        symbols@,
                        j,
                        context.emit_info.src_data_segments@[j],
                        #[trigger] self.state.data@[j],
                    ),
            decreases context.emit_info.src_data_segments@.len() - k,
        {
            let whitelist = list_data_symbols(context.module_info, symbols, k);
            let segment = context.emit_info.src_data_segments[k].new_with_whitelist(&whitelist);
            self.state.add_prebuilt_data_segment(segment);
            k = k + 1;
        }
    }
}

} // verus!
