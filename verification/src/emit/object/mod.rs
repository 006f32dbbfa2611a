//! Output modules that are made of the symbols of one input module.
pub mod builder;
pub mod globals;
pub mod relocate;
pub mod relocate_laws;
pub mod segments;
pub mod split;
pub mod split_build;
pub mod split_globals;
pub mod split_laws;

use crate::analysis::split_point::SharedModuleIdentifier;
use crate::emit::modify::constant_extraction::CodeModifyEntry;
use crate::index::TempIndex;
use crate::layouts::SegmentId;
use crate::linkage::reloc::AnyRelocationEntry;
use crate::typed::module::Module;
use crate::typed::{FunctionRef, GlobalRef, SymbolId};
use vstd::prelude::*;
use vstd::string::StringExecFns;

verus! {

/// Index of a function of an output module; imported functions come first.
#[derive(Clone, Copy, Debug, PartialEq, Eq, PartialOrd, Ord, Hash, Structural)]
pub struct OutputFuncId {
    pub id: u32,
}

/// Index of a global of an output module; imported globals come first.
#[derive(Clone, Copy, Debug, PartialEq, Eq, PartialOrd, Ord, Hash, Structural)]
pub struct OutputGlobalId {
    pub id: u32,
}

/// What a symbol of the input module stands for.
#[derive(Clone, Copy, Debug, PartialEq, Eq, Structural)]
pub enum SymbolKind {
    Func { input_id: FunctionRef },
    DataDefined { segment_id: SegmentId },
    Global(GlobalRef),
    Other,
}

/// A symbol of the input module, with the relocations in it.
#[derive(Debug)]
pub struct InputSymbol {
    pub kind: SymbolKind,
    /// Relocations, relative to the start of the symbol.
    pub relocs: Vec<AnyRelocationEntry>,
}

/// An input module with its symbols.
#[derive(Debug)]
pub struct InputObject {
    pub module: Module,
    pub symbols: Vec<InputSymbol>,
    /// The functions of the indirect function table.
    pub indirect_function_table: Vec<FunctionRef>,
}

impl InputObject {
    /// What a symbol stands for, if there is such a symbol.
    pub open spec fn kind_of(&self, symbol: SymbolId) -> Option<SymbolKind> {
        if symbol.id() < self.symbols@.len() {
            Some(self.symbols@[symbol.id() as int].kind)
        } else {
            None
        }
    }

    /// The function that a symbol stands for.
    pub open spec fn function_of(&self, symbol: SymbolId) -> Option<FunctionRef> {
        match self.kind_of(symbol) {
            Some(SymbolKind::Func { input_id }) => Some(input_id),
            _ => None,
        }
    }

    pub fn symbol_kind(&self, symbol: SymbolId) -> (r: Option<SymbolKind>)
        ensures
            r == self.kind_of(symbol),
    {
        if symbol.index() < self.symbols.len() {
            Some(self.symbols[symbol.index()].kind)
        } else {
            None
        }
    }

    /// The function that a symbol stands for.
    pub fn as_input_function(&self, symbol: SymbolId) -> (r: Option<FunctionRef>)
        ensures
            r == self.function_of(symbol),
    {
        match self.symbol_kind(symbol) {
            Some(SymbolKind::Func { input_id }) => Some(input_id),
            _ => None,
        }
    }
}

/// The globals that hold the bases of a module in memory and in the indirect function table.
#[derive(Clone, Copy, Debug, PartialEq, Eq, Structural)]
pub struct GotBase {
    pub lib_base_id: OutputGlobalId,
    pub table_base_id: OutputGlobalId,
}

/// What a module that is loaded later has beside its entities.
#[derive(Debug)]
pub struct SubModuleExtra {
    pub self_base: GotBase,
    /// The bases of the modules that it uses.
    pub extern_modules: Vec<(SharedModuleIdentifier, GotBase)>,
    /// The functions that it exports for the main module.
    pub entrypoints: Vec<FunctionRef>,
    /// The name under which the module exports its bases, if it is shared.
    pub export_got_with_id: Option<SharedModuleIdentifier>,
}

/// How a function of an output module is made.
#[derive(Debug)]
pub enum DefinedFunctionKind {
    /// A copy with modifications.
    Copied { modification_list: Vec<CodeModifyEntry> },
    /// A call through the table, to an entry behind the functions of the main module.
    IndirectTrampoline { table_index_offset: u32 },
    /// A call of the function itself, to export it under another name.
    Trampoline,
}

/// A function that an output module defines.
#[derive(Debug)]
pub struct DefinedFunction {
    pub export: bool,
    pub input_func_id: FunctionRef,
    pub kind: DefinedFunctionKind,
}

/// How a function of an output module is imported.
#[derive(Debug)]
pub enum ImportFunctionKind {
    /// As the input module does.
    Existing { module_name: String, func_name: String },
    /// From another output module.
    New { link_module: usize, output_function_index: usize, mangled_function_name: String },
}

/// A function that an output module imports.
#[derive(Debug)]
pub struct ImportedFunction {
    pub input_func_id: FunctionRef,
    pub kind: ImportFunctionKind,
}

impl ImportedFunction {
    pub fn input_func_id(&self) -> (r: FunctionRef)
        ensures
            r == self.input_func_id,
    {
        self.input_func_id
    }

    /// The name of the import. Functions of other output modules have a prefix.
    pub fn import_name(&self) -> (r: String)
        ensures
            r@ == match self.kind {
                ImportFunctionKind::Existing { func_name, .. } => func_name@,
                ImportFunctionKind::New { mangled_function_name, .. } => "__wamex_"@
                    + mangled_function_name@,
            },
    {
        match &self.kind {
            ImportFunctionKind::Existing { func_name, .. } => func_name.clone(),
            ImportFunctionKind::New { mangled_function_name, .. } => {
                let mut name = "__wamex_".to_owned();
                name.append(mangled_function_name.as_str());
                name
            },
        }
    }

    /// The module that the function is imported from.
    pub fn module_name(&self) -> (r: String)
        ensures
            r@ == match self.kind {
                ImportFunctionKind::Existing { module_name, .. } => module_name@,
                ImportFunctionKind::New { .. } => "__wamex"@,
            },
    {
        match &self.kind {
            ImportFunctionKind::Existing { module_name, .. } => module_name.clone(),
            ImportFunctionKind::New { .. } => "__wamex".to_owned(),
        }
    }
}

/// How an entity of an output module and one of the input module stand for each other.
#[derive(Clone, Copy, Debug, PartialEq, Eq)]
pub enum OutputMapType<Ref> {
    /// Each stands for the other.
    BidirectionalMap(Ref),
    /// The output entity comes from the input entity, but does not stand for it.
    OutputHasInput(Ref),
    /// The output entity is new.
    Unmapped,
}

/// Output entities that may stand for input entities.
pub trait GetInputRef<Ref> {
    spec fn input_index(&self) -> OutputMapType<Ref>;

    fn get_input_index(&self) -> (r: OutputMapType<Ref>)
        ensures
            r == self.input_index(),
    ;
}

impl GetInputRef<FunctionRef> for DefinedFunction {
    /// A function that only exports another one under a new name does not stand for it.
    open spec fn input_index(&self) -> OutputMapType<FunctionRef> {
        if self.kind is Trampoline {
            OutputMapType::OutputHasInput(self.input_func_id)
        } else {
            OutputMapType::BidirectionalMap(self.input_func_id)
        }
    }

    fn get_input_index(&self) -> (r: OutputMapType<FunctionRef>) {
        match self.kind {
            DefinedFunctionKind::Trampoline => OutputMapType::OutputHasInput(self.input_func_id),
            _ => OutputMapType::BidirectionalMap(self.input_func_id),
        }
    }
}

impl GetInputRef<FunctionRef> for ImportedFunction {
    open spec fn input_index(&self) -> OutputMapType<FunctionRef> {
        OutputMapType::BidirectionalMap(self.input_func_id)
    }

    fn get_input_index(&self) -> (r: OutputMapType<FunctionRef>) {
        OutputMapType::BidirectionalMap(self.input_func_id)
    }
}

/// Imported and defined entities of one kind.
#[derive(Debug)]
pub struct ImportsOrDefined<I, D> {
    pub imports: Vec<I>,
    pub defined: Vec<D>,
}

/// The number of the first entity that stands for an input entity.
pub open spec fn first_output<Ref, T: GetInputRef<Ref>>(items: Seq<T>, input: Ref) -> Option<int>
    decreases items.len(),
{
    if items.len() == 0 {
        None
    } else {
        match first_output(items.drop_last(), input) {
            Some(i) => Some(i),
            None => if items.last().input_index() == OutputMapType::BidirectionalMap(input) {
                Some(items.len() - 1)
            } else {
                None
            },
        }
    }
}

pub(crate) proof fn lemma_first_output<Ref, T: GetInputRef<Ref>>(items: Seq<T>, k: int, input: Ref)
    requires
        0 <= k < items.len(),
        first_output(items.take(k), input) is None,
        items[k].input_index() == OutputMapType::BidirectionalMap(input),
    ensures
        first_output(items, input) == Some(k),
    decreases items.len(),
{
    if k == items.len() - 1 {
        assert(items.take(k) =~= items.drop_last());
    } else {
        let rest = items.drop_last();
        assert(rest.take(k) =~= items.take(k));
        lemma_first_output(rest, k, input);
    }
}

impl<I, D> ImportsOrDefined<I, D> {
    /// The index of the entity that stands for an input entity: imported entities come first.
    pub open spec fn output_of<Ref>(&self, input: Ref) -> Option<int>
        where I: GetInputRef<Ref>, D: GetInputRef<Ref>
    {
        match first_output(self.imports@, input) {
            Some(i) => Some(i),
            None => match first_output(self.defined@, input) {
                Some(i) => Some(self.imports@.len() + i),
                None => None,
            },
        }
    }

    pub fn new() -> (r: Self)
        ensures
            r.imports@.len() == 0,
            r.defined@.len() == 0,
    {
        ImportsOrDefined { imports: Vec::new(), defined: Vec::new() }
    }

    /// Adds an import. Its index is final.
    pub fn push_import(&mut self, import: I) -> (r: u32)
        requires
            old(self).imports@.len() < u32::MAX,
        ensures
            r == old(self).imports@.len(),
            final(self).imports@ == old(self).imports@.push(import),
            final(self).defined == old(self).defined,
    {
        let id: u32 = self.imports.len() as u32;
        self.imports.push(import);
        id
    }
}

fn find_output<T: GetInputRef<FunctionRef>>(items: &Vec<T>, input: FunctionRef) -> (r: Option<usize>)
    ensures
        match r {
            Some(i) => first_output(items@, input) == Some(i as int) && i < items@.len(),
            None => first_output(items@, input) is None,
        },
{
    let mut i: usize = 0;
    assert(items@.take(0) =~= Seq::<T>::empty());
    while i < items.len()
        invariant
            i <= items@.len(),
            first_output(items@.take(i as int), input) is None,
        decreases items@.len() - i,
    {
        proof {
            assert(items@.take(i + 1).drop_last() =~= items@.take(i as int));
        }
        if let OutputMapType::BidirectionalMap(id) = items[i].get_input_index() {
            if id == input {
                proof {
                    lemma_first_output(items@, i as int, input);
                }
                return Some(i);
            }
        }
        i = i + 1;
    }
    assert(items@.take(i as int) =~= items@);
    None
}

impl ImportsOrDefined<ImportedFunction, DefinedFunction> {
    /// The function that stands for an input function.
    pub fn get_output_id(&self, input: FunctionRef) -> (r: Option<OutputFuncId>)
        requires
            self.imports@.len() + self.defined@.len() <= u32::MAX,
        ensures
            match r {
                Some(id) => self.output_of(input) == Some(id.id as int),
                None => self.output_of(input) is None,
            },
    {
        match find_output(&self.imports, input) {
            Some(i) => Some(OutputFuncId { id: i as u32 }),
            None => match find_output(&self.defined, input) {
                Some(i) => Some(OutputFuncId { id: (self.imports.len() + i) as u32 }),
                None => None,
            },
        }
    }
}

/// Whether a list holds a symbol.
pub fn contains_symbol(symbols: &Vec<SymbolId>, symbol: SymbolId) -> (r: bool)
    ensures
        r == symbols@.contains(symbol),
{
    let mut i: usize = 0;
    while i < symbols.len()
        invariant
            i <= symbols@.len(),
            forall|j: int| 0 <= j < i ==> #[trigger] symbols@[j] != symbol,
        decreases symbols@.len() - i,
    {
        if symbols[i] == symbol {
            return true;
        }
        i = i + 1;
    }
    false
}

/// Whether a list holds a function.
pub fn contains_function(functions: &Vec<FunctionRef>, function: FunctionRef) -> (r: bool)
    ensures
        r == functions@.contains(function),
{
    let mut i: usize = 0;
    while i < functions.len()
        invariant
            i <= functions@.len(),
            forall|j: int| 0 <= j < i ==> #[trigger] functions@[j] != function,
        decreases functions@.len() - i,
    {
        if functions[i] == function {
            return true;
        }
        i = i + 1;
    }
    false
}

} // verus!
