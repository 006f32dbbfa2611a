//! Relocations of the output modules of a split program.
use crate::analysis::split_point::SharedModuleIdentifier;
use crate::emit::modify::constant_extraction::SymbolOp;
use crate::emit::modify::wasm_emitter::overwritten;
use crate::emit::object::globals::{DefinedGlobal, GlobalImport};
use crate::emit::object::segments::PlacedSymbol;
use crate::emit::object::split_build::{table_entry, ModuleEmitState};
use crate::emit::object::{
    first_output, lemma_first_output, GetInputRef, GotBase, ImportsOrDefined, InputObject,
    OutputGlobalId, OutputMapType, SymbolKind,
};
use crate::emit::relocation::encode::{
    encode_leb128_i32_5byte, encode_leb128_u32_5byte, encode_u32, fixed_leb, le_bytes,
};
use crate::emit::relocation::write_at;
use crate::index::TempIndex;
use crate::layouts::SegmentId;
use crate::linkage::reloc::{
    AnyRelocationEntry, Encoding, LinkageRelocationEntry, Relative, RelocationWidth, SymbolType,
};
use crate::typed::{FunctionRef, GlobalRef, SymbolId};
use vstd::prelude::*;

verus! {

/// Why a relocation cannot be applied.
#[derive(Debug, Clone, Copy, PartialEq, Eq, Structural)]
pub enum RelocateError {
    /// An index has an addend.
    NonZeroAddend,
    /// The target is no function.
    NotAFunction,
    /// The target is no global.
    NotAGlobal,
    /// The target is in no module that the module knows.
    NotFound,
    /// The place of the target is only known when the module is loaded.
    NotStatic,
    /// The place of the target is no number of 64 bits.
    OutOfRange,
    /// The relocation is not supported.
    Unsupported,
}

/// The output modules that are complete.
#[derive(Debug)]
pub struct ComputedModules<L, V> {
    pub main_module: ModuleEmitState<L, V>,
    pub shared_modules: Vec<(SharedModuleIdentifier, ModuleEmitState<L, V>)>,
}

/// Something that has a place in some output modules.
pub trait EntryTypeTag<L, V> {
    /// Its index or offset in a module.
    spec fn mapped(&self, input: InputObject, module: ModuleEmitState<L, V>) -> Option<int>;

    /// The global that its place is relative to.
    spec fn base(got_base: GotBase) -> OutputGlobalId;

    fn get_mapped_value(&self, input: &InputObject, module: &ModuleEmitState<L, V>) -> (r: Option<
        i64,
    >)
        requires
            has_small_table(*module),
        ensures
            match r {
                Some(value) => self.mapped(*input, *module) == Some(value as int),
                None => self.mapped(*input, *module) is None,
            },
    ;

    fn get_got(got_base: &GotBase) -> (r: OutputGlobalId)
        ensures
            r == Self::base(*got_base),
    ;
}

/// Whether the entries of the table of a module have indices.
pub open spec fn has_small_table<L, V>(module: ModuleEmitState<L, V>) -> bool {
    module.indirect_functions.indirect_function_table@.len() < u32::MAX
}

/// A function that is called through the table.
#[derive(Clone, Copy, Debug, PartialEq, Eq, Structural)]
pub struct FunctionIndexTag {
    pub symbol: SymbolId,
}

/// A data symbol.
#[derive(Clone, Copy, Debug, PartialEq, Eq, Structural)]
pub struct DataSymbolTag {
    pub symbol: SymbolId,
}

/// A data symbol of some segment.
#[derive(Clone, Copy, Debug, PartialEq, Eq, Structural)]
pub struct DataPlaceTag {
    pub segment_id: SegmentId,
    pub symbol: SymbolId,
}

/// The entry of the table of a module that holds the function of a symbol.
pub open spec fn function_entry<L, V>(
    input: InputObject,
    module: ModuleEmitState<L, V>,
    symbol: SymbolId,
) -> Option<int> {
    match input.function_of(symbol) {
        Some(function) => module.indirect_functions.entry_of(function),
        None => None,
    }
}

impl<L, V> EntryTypeTag<L, V> for FunctionIndexTag {
    open spec fn mapped(&self, input: InputObject, module: ModuleEmitState<L, V>) -> Option<int> {
        function_entry(input, module, self.symbol)
    }

    open spec fn base(got_base: GotBase) -> OutputGlobalId {
        got_base.table_base_id
    }

    fn get_mapped_value(&self, input: &InputObject, module: &ModuleEmitState<L, V>) -> (r: Option<
        i64,
    >) {
        match input.as_input_function(self.symbol) {
            Some(function) => match module.indirect_functions.function_table_index(function) {
                Some(entry) => {
                    proof {
                        lemma_entry_bound(
                            module.indirect_functions.indirect_function_table@,
                            module.indirect_functions.first(),
                            function,
                        );
                    }
                    Some(entry as i64)
                },
                None => None,
            },
            None => None,
        }
    }

    fn get_got(got_base: &GotBase) -> (r: OutputGlobalId) {
        got_base.table_base_id
    }
}

proof fn lemma_entry_bound(
    table: Seq<FunctionRef>,
    first: int,
    function: FunctionRef,
)
    ensures
        table_entry(table, first, function) matches Some(entry)
            ==> first <= entry < first + table.len(),
    decreases table.len(),
{
    if table.len() > 0 {
        lemma_entry_bound(table.drop_last(), first, function);
    }
}

/// The offset of the first symbol with a number.
pub open spec fn placed_offset(symbols: Seq<PlacedSymbol>, symbol: SymbolId, from: int) -> Option<int>
    decreases symbols.len() - from,
{
    if from >= symbols.len() {
        None
    } else if symbols[from].symbol == symbol {
        Some(symbols[from].data_mem_offset as int)
    } else {
        placed_offset(symbols, symbol, from + 1)
    }
}

/// Where a symbol of a segment is in memory, or from the base of its module on.
pub open spec fn symbol_offset<L, V>(
    module: ModuleEmitState<L, V>,
    segment_id: SegmentId,
    symbol: SymbolId,
) -> Option<int> {
    if segment_id.id() < module.data@.len() {
        let segment = module.data@[segment_id.id() as int];
        match placed_offset(segment.symbols@, symbol, 0) {
            Some(offset) => Some(segment.memory_offset + offset),
            None => None,
        }
    } else {
        None
    }
}

impl DataSymbolTag {
    /// Where a symbol of a segment is in memory, or from the base of its module on.
    fn get_symbol_offset<L, V>(
        module: &ModuleEmitState<L, V>,
        segment_id: SegmentId,
        data_symbol_id: SymbolId,
    ) -> (r: Option<i64>)
        ensures
            match r {
                Some(offset) => symbol_offset(*module, segment_id, data_symbol_id) == Some(
                    offset as int,
                ),
                None => symbol_offset(*module, segment_id, data_symbol_id) is None,
            },
    {
        if segment_id.index() >= module.data.len() {
            return None;
        }
        let segment = &module.data[segment_id.index()];
        let mut i: usize = 0;
        while i < segment.symbols.len()
            invariant
                i <= segment.symbols@.len(),
                segment_id.id() < module.data@.len(),
                *segment == module.data@[segment_id.id() as int],
                placed_offset(segment.symbols@, data_symbol_id, 0) == placed_offset(
                    segment.symbols@,
                    data_symbol_id,
                    i as int,
                ),
            decreases segment.symbols@.len() - i,
        {
            if segment.symbols[i].symbol == data_symbol_id {
                return Some(
                    segment.memory_offset as i64 + segment.symbols[i].data_mem_offset as i64,
                );
            }
            i = i + 1;
        }
        None
    }
}

/// Where a data symbol is in memory, or from the base of its module on.
pub open spec fn data_offset<L, V>(
    input: InputObject,
    module: ModuleEmitState<L, V>,
    symbol: SymbolId,
) -> Option<int> {
    match input.kind_of(symbol) {
        Some(SymbolKind::DataDefined { segment_id }) => symbol_offset(module, segment_id, symbol),
        _ => None,
    }
}

impl<L, V> EntryTypeTag<L, V> for DataSymbolTag {
    open spec fn mapped(&self, input: InputObject, module: ModuleEmitState<L, V>) -> Option<int> {
        data_offset(input, module, self.symbol)
    }

    open spec fn base(got_base: GotBase) -> OutputGlobalId {
        got_base.lib_base_id
    }

    fn get_mapped_value(&self, input: &InputObject, module: &ModuleEmitState<L, V>) -> (r: Option<
        i64,
    >) {
        match input.symbol_kind(self.symbol) {
            Some(SymbolKind::DataDefined { segment_id }) => DataSymbolTag::get_symbol_offset(
                module,
                segment_id,
                self.symbol,
            ),
            _ => None,
        }
    }

    fn get_got(got_base: &GotBase) -> (r: OutputGlobalId) {
        got_base.lib_base_id
    }
}

impl<L, V> EntryTypeTag<L, V> for DataPlaceTag {
    open spec fn mapped(&self, input: InputObject, module: ModuleEmitState<L, V>) -> Option<int> {
        symbol_offset(module, self.segment_id, self.symbol)
    }

    open spec fn base(got_base: GotBase) -> OutputGlobalId {
        got_base.lib_base_id
    }

    fn get_mapped_value(&self, input: &InputObject, module: &ModuleEmitState<L, V>) -> (r: Option<
        i64,
    >) {
        DataSymbolTag::get_symbol_offset(module, self.segment_id, self.symbol)
    }

    fn get_got(got_base: &GotBase) -> (r: OutputGlobalId) {
        got_base.lib_base_id
    }
}

/// What relocations of an output module depend on.
pub struct RelocateState<'any, L, V> {
    pub input_module: &'any InputObject,
    pub computed_modules: &'any ComputedModules<L, V>,
    pub emit_module: &'any ModuleEmitState<L, V>,
}

impl<'any, L, V> Copy for RelocateState<'any, L, V> {

}

impl<'any, L, V> Clone for RelocateState<'any, L, V> {
    fn clone(&self) -> (r: Self)
        ensures
            r == *self,
    {
        *self
    }
}

/// A place: the global that it is relative to, and the offset.
pub type Place = (Option<OutputGlobalId>, int);

/// The place that a value stands for.
pub open spec fn place_of(op: SymbolOp<i64>) -> Place {
    match op {
        SymbolOp::StaticOffset { value } => (None, value as int),
        SymbolOp::GotBased { got, value } => (Some(got), value as int),
    }
}

/// The place of something in the first shared module that has it.
pub open spec fn shared_place<T: EntryTypeTag<L, V>, L, V>(
    state: RelocateState<'_, L, V>,
    tag: T,
    from: int,
) -> Option<Place>
    decreases state.computed_modules.shared_modules@.len() - from,
{
    let shared = state.computed_modules.shared_modules@;
    if from >= shared.len() {
        None
    } else {
        match tag.mapped(*state.input_module, shared[from].1) {
            Some(value) => match state.emit_module.base_of(shared[from].0) {
                Some(base) => Some((Some(T::base(base)), value)),
                None => None,
            },
            None => shared_place(state, tag, from + 1),
        }
    }
}

/// The place of something: fixed in the main module, relative to a base in all others.
pub open spec fn symbol_place<T: EntryTypeTag<L, V>, L, V>(
    state: RelocateState<'_, L, V>,
    tag: T,
) -> Option<Place> {
    match tag.mapped(*state.input_module, state.computed_modules.main_module) {
        Some(value) => Some((None, value)),
        None => match tag.mapped(*state.input_module, *state.emit_module) {
            Some(value) => match state.emit_module.own_base() {
                Some(base) => Some((Some(T::base(base)), value)),
                None => None,
            },
            None => shared_place(state, tag, 0),
        },
    }
}

/// The place of something with an offset.
pub open spec fn moved_place(place: Option<Place>, addend: int) -> Result<Place, RelocateError> {
    match place {
        None => Err(RelocateError::NotFound),
        Some((got, value)) => if i64::MIN <= value + addend <= i64::MAX {
            Ok((got, value + addend))
        } else {
            Err(RelocateError::OutOfRange)
        },
    }
}

/// The number of the output global that stands for an input global.
pub open spec fn global_index<L, V>(state: RelocateState<'_, L, V>, symbol: SymbolId) -> Result<
    int,
    RelocateError,
> {
    match state.input_module.kind_of(symbol) {
        Some(SymbolKind::Global(global)) => match state.emit_module.globals.output_of(global) {
            Some(id) => Ok(id),
            None => Err(RelocateError::NotFound),
        },
        _ => Err(RelocateError::NotAGlobal),
    }
}

/// The number of the output function that stands for an input function.
pub open spec fn function_index<L, V>(
    state: RelocateState<'_, L, V>,
    entry: LinkageRelocationEntry,
) -> Result<int, RelocateError> {
    if entry.addend != 0 {
        Err(RelocateError::NonZeroAddend)
    } else {
        match state.input_module.function_of(entry.symbol_id) {
            Some(function) => match state.emit_module.functions.output_of(function) {
                Some(id) => Ok(id),
                None => Err(RelocateError::NotFound),
            },
            None => Err(RelocateError::NotAFunction),
        }
    }
}

/// The offset of a place that is fixed.
pub open spec fn static_offset(place: Result<Place, RelocateError>) -> Result<int, RelocateError> {
    match place {
        Err(error) => Err(error),
        Ok((None, value)) => Ok(value),
        Ok((Some(_), _)) => Err(RelocateError::NotStatic),
    }
}

/// The entry of the table that holds a function.
pub open spec fn function_table_index<L, V>(
    state: RelocateState<'_, L, V>,
    entry: LinkageRelocationEntry,
) -> Result<int, RelocateError> {
    if entry.addend != 0 {
        Err(RelocateError::NonZeroAddend)
    } else {
        static_offset(
            moved_place(symbol_place(state, FunctionIndexTag { symbol: entry.symbol_id }), 0),
        )
    }
}

/// The place of a data symbol in memory.
pub open spec fn memory_offset<L, V>(
    state: RelocateState<'_, L, V>,
    entry: LinkageRelocationEntry,
) -> Result<int, RelocateError> {
    static_offset(
        moved_place(
            symbol_place(state, DataSymbolTag { symbol: entry.symbol_id }),
            entry.addend as int,
        ),
    )
}

/// A number as LEB128 in five bytes, cut off at 32 bits.
pub open spec fn leb_bytes(value: Result<int, RelocateError>) -> Result<
    Option<Seq<u8>>,
    RelocateError,
> {
    match value {
        Ok(v) => Ok(Some(fixed_leb((v as u32) as int, 5))),
        Err(error) => Err(error),
    }
}

/// A number as signed LEB128 in five bytes, cut off at 32 bits.
pub open spec fn sleb_bytes(value: Result<int, RelocateError>) -> Result<
    Option<Seq<u8>>,
    RelocateError,
> {
    match value {
        Ok(v) => Ok(Some(fixed_leb((v as i32) as int, 5))),
        Err(error) => Err(error),
    }
}

/// A number in four bytes, the lowest first.
pub open spec fn word_bytes(value: Result<int, RelocateError>) -> Result<
    Option<Seq<u8>>,
    RelocateError,
> {
    match value {
        Ok(v) => Ok(Some(le_bytes((v as u32) as int, 4))),
        Err(error) => Err(error),
    }
}

/// What a relocation writes. Types and the table keep their numbers.
pub open spec fn relocated<L, V>(
    state: RelocateState<'_, L, V>,
    entry: AnyRelocationEntry,
) -> Result<Option<Seq<u8>>, RelocateError> {
    match entry {
        AnyRelocationEntry::Type(_) => Ok(None),
        AnyRelocationEntry::Linkage(entry) => if !(entry.relation is Absolute && entry.width
            is Bits32) {
            Err(RelocateError::Unsupported)
        } else {
            match (entry.symbol_op, entry.encoding) {
                (SymbolType::FunctionIndex, Encoding::Leb) => leb_bytes(
                    function_index(state, entry),
                ),
                (SymbolType::FunctionIndex, Encoding::Fixed) => word_bytes(
                    function_index(state, entry),
                ),
                (SymbolType::TableIndex, Encoding::Sleb) => sleb_bytes(
                    function_table_index(state, entry),
                ),
                (SymbolType::TableIndex, Encoding::Fixed) => word_bytes(
                    function_table_index(state, entry),
                ),
                (SymbolType::TableNumber, Encoding::Leb) => Ok(None),
                (SymbolType::MemoryAddr, Encoding::Leb) => leb_bytes(memory_offset(state, entry)),
                (SymbolType::MemoryAddr, Encoding::Sleb) => sleb_bytes(
                    memory_offset(state, entry),
                ),
                (SymbolType::MemoryAddr, Encoding::Fixed) => word_bytes(
                    memory_offset(state, entry),
                ),
                (SymbolType::GlobalIndex, Encoding::Leb) => leb_bytes(
                    global_index(state, entry.symbol_id),
                ),
                _ => Err(RelocateError::Unsupported),
            }
        },
    }
}

fn find_global<T: GetInputRef<GlobalRef>>(items: &Vec<T>, input: GlobalRef) -> (r: Option<usize>)
    ensures
        match r {
            Some(i) => first_output(items@, input) == Some(i as int) && i < items@.len(),
            None => first_output(items@, input) is None,
        },
{
    let mut i: usize = 0;
    assert(items@.take(0) =~= Seq::<T>::empty());
    while i < items.len()
        invariant
            i <= items@.len(),
            first_output(items@.take(i as int), input) is None,
        decreases items@.len() - i,
    {
        proof {
            assert(items@.take(i + 1).drop_last() =~= items@.take(i as int));
        }
        if let OutputMapType::BidirectionalMap(id) = items[i].get_input_index() {
            if id == input {
                proof {
                    lemma_first_output(items@, i as int, input);
                }
                return Some(i);
            }
        }
        i = i + 1;
    }
    assert(items@.take(i as int) =~= items@);
    None
}

impl ImportsOrDefined<GlobalImport, DefinedGlobal> {
    /// The global that stands for an input global.
    pub fn get_output_global(&self, input: GlobalRef) -> (r: Option<OutputGlobalId>)
        requires
            self.imports@.len() + self.defined@.len() <= u32::MAX,
        ensures
            match r {
                Some(id) => self.output_of(input) == Some(id.id as int),
                None => self.output_of(input) is None,
            },
    {
        match find_global(&self.imports, input) {
            Some(i) => Some(OutputGlobalId { id: i as u32 }),
            None => match find_global(&self.defined, input) {
                Some(i) => Some(OutputGlobalId { id: (self.imports.len() + i) as u32 }),
                None => None,
            },
        }
    }
}

impl<'any, L, V> RelocateState<'any, L, V> {
    /// Whether all entities of the modules have indices.
    pub open spec fn valid(&self) -> bool {
        &&& has_small_table(*self.emit_module)
        &&& has_small_table(self.computed_modules.main_module)
        &&& forall|i: int|
            0 <= i < self.computed_modules.shared_modules@.len() ==> has_small_table(
                (#[trigger] self.computed_modules.shared_modules@[i]).1,
            )
        &&& self.emit_module.functions.imports@.len() + self.emit_module.functions.defined@.len()
            <= u32::MAX
        &&& self.emit_module.globals.imports@.len() + self.emit_module.globals.defined@.len()
            <= u32::MAX
    }

    /// The place of something: fixed in the main module, relative to a base in all others.
    fn get_symbol_op<T: EntryTypeTag<L, V>>(&self, tag: &T) -> (r: Option<SymbolOp<i64>>)
        requires
            self.valid(),
        ensures
            match r {
                Some(op) => symbol_place(*self, *tag) == Some(place_of(op)),
                None => symbol_place(*self, *tag) is None,
            },
    {
        if let Some(value) = tag.get_mapped_value(
            self.input_module,
            &self.computed_modules.main_module,
        ) {
            return Some(SymbolOp::StaticOffset { value });
        }
        if let Some(value) = tag.get_mapped_value(self.input_module, self.emit_module) {
            return match self.emit_module.get_submodule_extra(None) {
                Some(base) => Some(SymbolOp::GotBased { got: T::get_got(&base), value }),
                None => None,
            };
        }
        let shared = &self.computed_modules.shared_modules;
        let mut i: usize = 0;
        while i < shared.len()
            invariant
                i <= shared@.len(),
                shared@ == self.computed_modules.shared_modules@,
                self.valid(),
                symbol_place(*self, *tag) == shared_place(*self, *tag, i as int),
            decreases shared@.len() - i,
        {
            assert(has_small_table(self.computed_modules.shared_modules@[i as int].1));
            if let Some(value) = tag.get_mapped_value(self.input_module, &shared[i].1) {
                return match self.emit_module.get_submodule_extra(Some(&shared[i].0)) {
                    Some(base) => Some(SymbolOp::GotBased { got: T::get_got(&base), value }),
                    None => None,
                };
            }
            i = i + 1;
        }
        None
    }

    /// The place of something with an offset.
    pub(crate) fn get_moved_op<T: EntryTypeTag<L, V>>(&self, tag: &T, addend: i64) -> (r: Result<
        SymbolOp<i64>,
        RelocateError,
    >)
        requires
            self.valid(),
        ensures
            match r {
                Ok(op) => moved_place(symbol_place(*self, *tag), addend as int) == Ok::<
                    Place,
                    RelocateError,
                >(place_of(op)),
                Err(error) => moved_place(symbol_place(*self, *tag), addend as int) == Err::<
                    Place,
                    RelocateError,
                >(error),
            },
    {
        match self.get_symbol_op(tag) {
            None => Err(RelocateError::NotFound),
            Some(SymbolOp::StaticOffset { value }) => match value.checked_add(addend) {
                Some(value) => Ok(SymbolOp::StaticOffset { value }),
                None => Err(RelocateError::OutOfRange),
            },
            Some(SymbolOp::GotBased { got, value }) => match value.checked_add(addend) {
                Some(value) => Ok(SymbolOp::GotBased { got, value }),
                None => Err(RelocateError::OutOfRange),
            },
        }
    }

    fn get_relocated_function_index(&self, relocation: &LinkageRelocationEntry) -> (r: Result<
        u32,
        RelocateError,
    >)
        requires
            self.valid(),
        ensures
            match r {
                Ok(id) => function_index(*self, *relocation) == Ok::<int, RelocateError>(id as int),
                Err(error) => function_index(*self, *relocation) == Err::<int, RelocateError>(
                    error,
                ),
            },
    {
        if relocation.addend != 0 {
            return Err(RelocateError::NonZeroAddend);
        }
        match self.input_module.as_input_function(relocation.symbol_id) {
            Some(function) => match self.emit_module.functions.get_output_id(function) {
                Some(id) => Ok(id.id),
                None => Err(RelocateError::NotFound),
            },
            None => Err(RelocateError::NotAFunction),
        }
    }

    fn get_relocated_function_table_index(&self, relocation: &LinkageRelocationEntry) -> (r: Result<
        i64,
        RelocateError,
    >)
        requires
            self.valid(),
        ensures
            match r {
                Ok(entry) => function_table_index(*self, *relocation) == Ok::<int, RelocateError>(
                    entry as int,
                ),
                Err(error) => function_table_index(*self, *relocation) == Err::<
                    int,
                    RelocateError,
                >(error),
            },
    {
        if relocation.addend != 0 {
            return Err(RelocateError::NonZeroAddend);
        }
        match self.get_moved_op(&FunctionIndexTag { symbol: relocation.symbol_id }, 0) {
            Ok(SymbolOp::StaticOffset { value }) => Ok(value),
            Ok(SymbolOp::GotBased { .. }) => Err(RelocateError::NotStatic),
            Err(error) => Err(error),
        }
    }

    fn get_relocated_memory_offset(&self, relocation: &LinkageRelocationEntry) -> (r: Result<
        i64,
        RelocateError,
    >)
        requires
            self.valid(),
        ensures
            match r {
                Ok(offset) => memory_offset(*self, *relocation) == Ok::<int, RelocateError>(
                    offset as int,
                ),
                Err(error) => memory_offset(*self, *relocation) == Err::<int, RelocateError>(error),
            },
    {
        match self.get_moved_op(
            &DataSymbolTag { symbol: relocation.symbol_id },
            relocation.addend,
        ) {
            Ok(SymbolOp::StaticOffset { value }) => Ok(value),
            Ok(SymbolOp::GotBased { .. }) => Err(RelocateError::NotStatic),
            Err(error) => Err(error),
        }
    }

    fn get_global_id(&self, relocation: &LinkageRelocationEntry) -> (r: Result<u32, RelocateError>)
        requires
            self.valid(),
        ensures
            match r {
                Ok(id) => global_index(*self, relocation.symbol_id) == Ok::<int, RelocateError>(
                    id as int,
                ),
                Err(error) => global_index(*self, relocation.symbol_id) == Err::<
                    int,
                    RelocateError,
                >(error),
            },
    {
        match self.input_module.symbol_kind(relocation.symbol_id) {
            Some(SymbolKind::Global(global)) => match self.emit_module.globals.get_output_global(
                global,
            ) {
                Some(id) => Ok(id.id),
                None => Err(RelocateError::NotFound),
            },
            _ => Err(RelocateError::NotAGlobal),
        }
    }
}

/// A number as it is written.
#[derive(Clone, Copy)]
enum Number {
    Leb(u32),
    Sleb(i32),
    Word(u32),
}

spec fn number_bytes(number: Number) -> Seq<u8> {
    match number {
        Number::Leb(v) => fixed_leb(v as int, 5),
        Number::Sleb(v) => fixed_leb(v as int, 5),
        Number::Word(v) => le_bytes(v as int, 4),
    }
}

impl<'any, L, V> RelocateState<'any, L, V> {
    /// The number that a relocation writes.
    fn get_number(&self, relocation: &AnyRelocationEntry) -> (r: Result<
        Option<Number>,
        RelocateError,
    >)
        requires
            self.valid(),
        ensures
            match r {
                Ok(Some(number)) => relocated(*self, *relocation) == Ok::<
                    Option<Seq<u8>>,
                    RelocateError,
                >(Some(number_bytes(number))),
                Ok(None) => relocated(*self, *relocation) == Ok::<Option<Seq<u8>>, RelocateError>(
                    None,
                ),
                Err(error) => relocated(*self, *relocation) == Err::<
                    Option<Seq<u8>>,
                    RelocateError,
                >(error),
            },
            r matches Ok(Some(number)) ==> relocation.offset_spec() + (if number is Word {
                4int
            } else {
                5
            }) == relocation.place().1,
    {
        let entry = match relocation {
            AnyRelocationEntry::Type(_) => {
                return Ok(None);
            },
            AnyRelocationEntry::Linkage(entry) => entry,
        };
        match (entry.relation, entry.width) {
            (Relative::Absolute, RelocationWidth::Bits32) => {},
            _ => {
                return Err(RelocateError::Unsupported);
            },
        }
        let number = match (entry.symbol_op, entry.encoding) {
            (SymbolType::FunctionIndex, Encoding::Leb) => Number::Leb(
                self.get_relocated_function_index(entry)?,
            ),
            (SymbolType::FunctionIndex, Encoding::Fixed) => Number::Word(
                self.get_relocated_function_index(entry)?,
            ),
            (SymbolType::TableIndex, Encoding::Sleb) => Number::Sleb(
                #[verifier::truncate] (self.get_relocated_function_table_index(entry)? as i32),
            ),
            (SymbolType::TableIndex, Encoding::Fixed) => Number::Word(
                #[verifier::truncate] (self.get_relocated_function_table_index(entry)? as u32),
            ),
            (SymbolType::TableNumber, Encoding::Leb) => {
                return Ok(None);
            },
            (SymbolType::MemoryAddr, Encoding::Leb) => Number::Leb(
                #[verifier::truncate] (self.get_relocated_memory_offset(entry)? as u32),
            ),
            (SymbolType::MemoryAddr, Encoding::Sleb) => Number::Sleb(
                #[verifier::truncate] (self.get_relocated_memory_offset(entry)? as i32),
            ),
            (SymbolType::MemoryAddr, Encoding::Fixed) => Number::Word(
                #[verifier::truncate] (self.get_relocated_memory_offset(entry)? as u32),
            ),
            (SymbolType::GlobalIndex, Encoding::Leb) => Number::Leb(self.get_global_id(entry)?),
            _ => {
                return Err(RelocateError::Unsupported);
            },
        };
        Ok(Some(number))
    }

    /// Writes the place of the target of a relocation. Types and the table keep their numbers.
    pub fn apply_relocation(&self, data: &mut Vec<u8>, relocation: &AnyRelocationEntry) -> (r:
        Result<(), RelocateError>)
        requires
            self.valid(),
            relocation.place().1 <= old(data)@.len(),
        ensures
            match relocated(*self, *relocation) {
                Ok(Some(bytes)) => r is Ok && final(data)@ == overwritten(
                    old(data)@,
                    relocation.offset_spec() as int,
                    bytes,
                ),
                Ok(None) => r is Ok && *final(data) == *old(data),
                Err(error) => r == Err::<(), _>(error) && *final(data) == *old(data),
            },
    {
        let at: usize = relocation.offset() as usize;
        match self.get_number(relocation) {
            Err(error) => {
                return Err(error);
            },
            Ok(None) => {},
            Ok(Some(Number::Leb(value))) => {
                let mut buf: [u8; 5] = [0, 0, 0, 0, 0];
                encode_leb128_u32_5byte(value, &mut buf);
                write_at(data, at, buf.as_slice());
            },
            Ok(Some(Number::Sleb(value))) => {
                let mut buf: [u8; 5] = [0, 0, 0, 0, 0];
                encode_leb128_i32_5byte(value, &mut buf);
                write_at(data, at, buf.as_slice());
            },
            Ok(Some(Number::Word(value))) => {
                let mut buf: [u8; 4] = [0, 0, 0, 0];
                encode_u32(value, &mut buf);
                write_at(data, at, buf.as_slice());
            },
        }
        Ok(())
    }
}

} // verus!
