//! What relocations of the output modules of a split program write.
use crate::analysis::split_point::{SharedModuleIdentifier, SplitName};
use crate::emit::object::relocate::{
    placed_offset, relocated, shared_place, symbol_place, DataSymbolTag, EntryTypeTag,
    FunctionIndexTag, RelocateError, RelocateState,
};
use crate::emit::object::segments::PlacedSymbol;
use crate::emit::object::split_build::{extern_base, table_entry, ModuleEmitState};
use crate::emit::object::{
    first_output, GetInputRef, GotBase, ImportsOrDefined, InputObject, OutputMapType, SymbolKind,
};
use crate::emit::relocation::encode::{
    byte_range, fixed_leb, le_bytes, leb_range, lemma_fixed_leb_is_leb, lemma_fixed_leb_len,
    lemma_fixed_leb_roundtrip, lemma_fixed_leb_signed_roundtrip, lemma_le_roundtrip,
};
use crate::emit::relocation::field_holds;
use crate::index::TempIndex;
use crate::linkage::reloc::{AnyRelocationEntry, Encoding, LinkageRelocationEntry, RelocationWidth};
use crate::typed::{FunctionRef, GlobalRef, SymbolId};
use vstd::prelude::*;

verus! {

/// Whether a relocation writes an absolute number of 32 bits.
pub open spec fn is_plain(entry: LinkageRelocationEntry) -> bool {
    entry.relation is Absolute && entry.width is Bits32
}

/// Whether a number fits in the field of a relocation.
pub open spec fn fits(encoding: Encoding, value: int) -> bool {
    if encoding is Sleb {
        i32::MIN <= value <= i32::MAX
    } else {
        0 <= value <= u32::MAX
    }
}

/// Whether a relocation writes bytes that are read as a number.
pub open spec fn writes<L, V>(
    state: RelocateState<'_, L, V>,
    entry: LinkageRelocationEntry,
    value: int,
) -> bool {
    &&& relocated(state, AnyRelocationEntry::Linkage(entry)) matches Ok(Some(bytes))
    &&& field_holds(bytes, entry.encoding, RelocationWidth::Bits32, value)
}

proof fn lemma_ranges()
    ensures
        leb_range(5) == 0x8_0000_0000,
        byte_range(4) == 0x1_0000_0000,
{
    reveal_with_fuel(leb_range, 6);
    reveal_with_fuel(byte_range, 5);
}

proof fn lemma_written(value: int)
    ensures
        0 <= value <= u32::MAX ==> field_holds(
            fixed_leb((value as u32) as int, 5),
            Encoding::Leb,
            RelocationWidth::Bits32,
            value,
        ) && field_holds(
            le_bytes((value as u32) as int, 4),
            Encoding::Fixed,
            RelocationWidth::Bits32,
            value,
        ),
        i32::MIN <= value <= i32::MAX ==> field_holds(
            fixed_leb((value as i32) as int, 5),
            Encoding::Sleb,
            RelocationWidth::Bits32,
            value,
        ),
{
    lemma_ranges();
    lemma_fixed_leb_len(value, 5);
    lemma_fixed_leb_is_leb(value, 5);
    if 0 <= value <= u32::MAX {
        lemma_fixed_leb_roundtrip(value, 5);
        lemma_le_roundtrip(value, 4);
    }
    if i32::MIN <= value <= i32::MAX {
        lemma_fixed_leb_signed_roundtrip(value, 5);
    }
}

/// Whether a symbol has a number, and no smaller one.
pub open spec fn is_first_symbol(symbols: Seq<PlacedSymbol>, symbol: SymbolId, k: int) -> bool {
    &&& 0 <= k < symbols.len()
    &&& symbols[k].symbol == symbol
    &&& forall|j: int| 0 <= j < k ==> (#[trigger] symbols[j]).symbol != symbol
}

/// Whether a data symbol is at an address of a module: its segment starts at some place, and it is
/// at some offset of that.
pub open spec fn is_data_at<L, V>(
    input: InputObject,
    module: ModuleEmitState<L, V>,
    symbol: SymbolId,
    address: int,
) -> bool {
    &&& input.kind_of(symbol) matches Some(SymbolKind::DataDefined { segment_id })
    &&& segment_id.id() < module.data@.len()
    &&& exists|k: int|
        {
            let segment = module.data@[segment_id.id() as int];
            &&& #[trigger] is_first_symbol(
                module.data@[segment_id.id() as int].symbols@,
                symbol,
                k,
            )
            &&& segment.memory_offset + segment.symbols@[k].data_mem_offset == address
        }
}

/// Whether a module has no bytes of a data symbol.
pub open spec fn has_no_data<L, V>(
    input: InputObject,
    module: ModuleEmitState<L, V>,
    symbol: SymbolId,
) -> bool {
    input.kind_of(symbol) matches Some(SymbolKind::DataDefined { segment_id }) ==> (
    segment_id.id() < module.data@.len() ==> forall|k: int|
        !#[trigger] is_first_symbol(module.data@[segment_id.id() as int].symbols@, symbol, k))
}

proof fn lemma_data_at<L, V>(
    input: InputObject,
    module: ModuleEmitState<L, V>,
    symbol: SymbolId,
)
    ensures
        forall|address: int|
            is_data_at(input, module, symbol, address) ==> (DataSymbolTag { symbol }).mapped(
                input,
                module,
            ) == Some(address),
        has_no_data(input, module, symbol) ==> (DataSymbolTag { symbol }).mapped(input, module)
            is None,
{
    if let Some(SymbolKind::DataDefined { segment_id }) = input.kind_of(symbol) {
        if segment_id.id() < module.data@.len() {
            let symbols = module.data@[segment_id.id() as int].symbols@;
            lemma_placed(symbols, symbol, 0);
            assert forall|k: int| #[trigger] is_first_symbol(symbols, symbol, k) implies
                placed_offset(symbols, symbol, 0) == Some(symbols[k].data_mem_offset as int) by {
                assert(symbols[k].symbol == symbol);
            }
            if has_no_data(input, module, symbol) {
                lemma_no_first(symbols, symbol, symbols.len() as int);
            }
        }
    }
}

proof fn lemma_no_first(symbols: Seq<PlacedSymbol>, symbol: SymbolId, n: int)
    requires
        0 <= n <= symbols.len(),
        forall|k: int| !#[trigger] is_first_symbol(symbols, symbol, k),
    ensures
        forall|j: int| 0 <= j < n ==> (#[trigger] symbols[j]).symbol != symbol,
    decreases n,
{
    if n > 0 {
        lemma_no_first(symbols, symbol, n - 1);
        assert(!is_first_symbol(symbols, symbol, n - 1));
    }
}

proof fn lemma_placed(
    symbols: Seq<PlacedSymbol>,
    symbol: SymbolId,
    from: int,
)
    requires
        0 <= from,
    ensures
        forall|k: int|
            {
                &&& from <= k < symbols.len()
                &&& (#[trigger] symbols[k]).symbol == symbol
                &&& forall|j: int| from <= j < k ==> (#[trigger] symbols[j]).symbol != symbol
            } ==> placed_offset(symbols, symbol, from) == Some(symbols[k].data_mem_offset as int),
        (forall|j: int| from <= j < symbols.len() ==> (#[trigger] symbols[j]).symbol != symbol)
            ==> placed_offset(symbols, symbol, from) is None,
    decreases symbols.len() - from,
{
    if from < symbols.len() {
        lemma_placed(symbols, symbol, from + 1);
    }
}

/// The address of data of the main module is fixed: a relocation writes it, plus the addend.
pub proof fn lemma_data_of_main_module<L, V>(
    state: RelocateState<'_, L, V>,
    entry: LinkageRelocationEntry,
    address: int,
)
    requires
        is_plain(entry),
        entry.symbol_op is MemoryAddr,
        is_data_at(
            *state.input_module,
            state.computed_modules.main_module,
            entry.symbol_id,
            address,
        ),
        fits(entry.encoding, address + entry.addend),
    ensures
        writes(state, entry, address + entry.addend),
{
    lemma_data_at(
        *state.input_module,
        state.computed_modules.main_module,
        entry.symbol_id,
    );
    lemma_written(address + entry.addend);
}

/// The address of other data is only known when its module is loaded: a relocation cannot write it.
pub proof fn lemma_data_of_other_modules<L, V>(
    state: RelocateState<'_, L, V>,
    entry: LinkageRelocationEntry,
)
    requires
        is_plain(entry),
        entry.symbol_op is MemoryAddr,
        has_no_data(
            *state.input_module,
            state.computed_modules.main_module,
            entry.symbol_id,
        ),
    ensures
        relocated(state, AnyRelocationEntry::Linkage(entry)) is Err,
{
    let tag = DataSymbolTag { symbol: entry.symbol_id };
    lemma_data_at(
        *state.input_module,
        state.computed_modules.main_module,
        entry.symbol_id,
    );
    lemma_shared_places_have_bases(state, tag, 0);
}

proof fn lemma_shared_places_have_bases<T: EntryTypeTag<L, V>, L, V>(
    state: RelocateState<'_, L, V>,
    tag: T,
    from: int,
)
    ensures
        shared_place(state, tag, from) matches Some(place) ==> place.0 is Some,
    decreases state.computed_modules.shared_modules@.len() - from,
{
    if from < state.computed_modules.shared_modules@.len() {
        lemma_shared_places_have_bases(state, tag, from + 1);
    }
}

/// Data of the module itself is relative to the base of the module in memory, and functions of it
/// that are called through the table to its base in the table.
pub proof fn lemma_own_places<L, V>(
    state: RelocateState<'_, L, V>,
    symbol: SymbolId,
    base: GotBase,
    value: int,
)
    requires
        state.emit_module.own_base() == Some(base),
    ensures
        ({
            &&& has_no_data(
                *state.input_module,
                state.computed_modules.main_module,
                symbol,
            )
            &&& is_data_at(*state.input_module, *state.emit_module, symbol, value)
        }) ==> symbol_place(state, DataSymbolTag { symbol }) == Some(
            (Some(base.lib_base_id), value),
        ),
        ({
            &&& has_no_entry(
                *state.input_module,
                state.computed_modules.main_module,
                symbol,
            )
            &&& is_entry_at(*state.input_module, *state.emit_module, symbol, value)
        }) ==> symbol_place(state, FunctionIndexTag { symbol }) == Some(
            (Some(base.table_base_id), value),
        ),
{
    lemma_data_at(*state.input_module, state.computed_modules.main_module, symbol);
    lemma_data_at(*state.input_module, *state.emit_module, symbol);
    lemma_entry_at(*state.input_module, state.computed_modules.main_module, symbol);
    lemma_entry_at(*state.input_module, *state.emit_module, symbol);
}

/// Whether a shared module is known to the module under some bases.
pub open spec fn knows_base<L, V>(
    module: ModuleEmitState<L, V>,
    shared: SharedModuleIdentifier,
    base: GotBase,
) -> bool {
    &&& module.sub_module_extra matches Some(extra)
    &&& exists|k: int|
        {
            &&& 0 <= k < extra.extern_modules@.len()
            &&& (#[trigger] extra.extern_modules@[k]).0@ == shared@
            &&& extra.extern_modules@[k].1 == base
            &&& forall|j: int|
                0 <= j < k ==> (#[trigger] extra.extern_modules@[j]).0@ != shared@
        }
}

proof fn lemma_extern_base(
    known: Seq<(SharedModuleIdentifier, GotBase)>,
    shared: SharedModuleIdentifier,
    from: int,
)
    requires
        0 <= from,
    ensures
        forall|k: int|
            {
                &&& from <= k < known.len()
                &&& (#[trigger] known[k]).0@ == shared@
                &&& forall|j: int| from <= j < k ==> (#[trigger] known[j]).0@ != shared@
            } ==> extern_base(known, SplitName::Shared(shared@), from) == Some(known[k].1),
    decreases known.len() - from,
{
    if from < known.len() {
        lemma_extern_base(known, shared, from + 1);
    }
}

/// Data of a shared module is relative to the base of that module in memory, and functions of it
/// that are called through the table to its base in the table.
pub proof fn lemma_shared_places<L, V>(
    state: RelocateState<'_, L, V>,
    i: int,
    symbol: SymbolId,
    base: GotBase,
    value: int,
)
    requires
        0 <= i < state.computed_modules.shared_modules@.len(),
        knows_base(*state.emit_module, state.computed_modules.shared_modules@[i].0, base),
    ensures
        ({
            let input = *state.input_module;
            let shared = state.computed_modules.shared_modules@;
            &&& has_no_data(input, state.computed_modules.main_module, symbol)
            &&& has_no_data(input, *state.emit_module, symbol)
            &&& forall|j: int| 0 <= j < i ==> has_no_data(input, (#[trigger] shared[j]).1, symbol)
            &&& is_data_at(input, shared[i].1, symbol, value)
        }) ==> symbol_place(state, DataSymbolTag { symbol }) == Some(
            (Some(base.lib_base_id), value),
        ),
        ({
            let input = *state.input_module;
            let shared = state.computed_modules.shared_modules@;
            &&& has_no_entry(input, state.computed_modules.main_module, symbol)
            &&& has_no_entry(input, *state.emit_module, symbol)
            &&& forall|j: int| 0 <= j < i ==> has_no_entry(input, (#[trigger] shared[j]).1, symbol)
            &&& is_entry_at(input, shared[i].1, symbol, value)
        }) ==> symbol_place(state, FunctionIndexTag { symbol }) == Some(
            (Some(base.table_base_id), value),
        ),
{
    let input = *state.input_module;
    let shared = state.computed_modules.shared_modules@;
    let main = state.computed_modules.main_module;
    lemma_extern_base(state.emit_module.sub_module_extra->0.extern_modules@, shared[i].0, 0);
    assert(state.emit_module.base_of(shared[i].0) == Some(base));
    lemma_data_at(input, main, symbol);
    lemma_data_at(input, *state.emit_module, symbol);
    lemma_data_at(input, shared[i].1, symbol);
    lemma_entry_at(input, main, symbol);
    lemma_entry_at(input, *state.emit_module, symbol);
    lemma_entry_at(input, shared[i].1, symbol);
    if forall|j: int| 0 <= j < i ==> has_no_data(input, (#[trigger] shared[j]).1, symbol) {
        let tag = DataSymbolTag { symbol };
        assert forall|j: int| 0 <= j < i implies tag.mapped(input, (#[trigger] shared[j]).1)
            is None by {
            lemma_data_at(input, shared[j].1, symbol);
        }
        if is_data_at(input, shared[i].1, symbol, value) {
            lemma_first_shared(state, tag, 0, i);
        }
    }
    if forall|j: int| 0 <= j < i ==> has_no_entry(input, (#[trigger] shared[j]).1, symbol) {
        let tag = FunctionIndexTag { symbol };
        assert forall|j: int| 0 <= j < i implies tag.mapped(input, (#[trigger] shared[j]).1)
            is None by {
            lemma_entry_at(input, shared[j].1, symbol);
        }
        if is_entry_at(input, shared[i].1, symbol, value) {
            lemma_first_shared(state, tag, 0, i);
        }
    }
}

proof fn lemma_first_shared<T: EntryTypeTag<L, V>, L, V>(
    state: RelocateState<'_, L, V>,
    tag: T,
    from: int,
    i: int,
)
    requires
        0 <= from <= i < state.computed_modules.shared_modules@.len(),
        forall|j: int|
            from <= j < i ==> tag.mapped(
                *state.input_module,
                (#[trigger] state.computed_modules.shared_modules@[j]).1,
            ) is None,
        tag.mapped(*state.input_module, state.computed_modules.shared_modules@[i].1) is Some,
    ensures
        shared_place(state, tag, from) == shared_place(state, tag, i),
    decreases i - from,
{
    if from < i {
        lemma_first_shared(state, tag, from + 1, i);
    }
}

/// Whether a module holds the function of a symbol at an entry of the table. The main module leaves
/// the first entry empty.
pub open spec fn is_entry_at<L, V>(
    input: InputObject,
    module: ModuleEmitState<L, V>,
    symbol: SymbolId,
    entry: int,
) -> bool {
    let table = module.indirect_functions.indirect_function_table@;
    let empty: int = if module.indirect_functions.num_entrypoints is Some {
        1
    } else {
        0
    };
    &&& input.kind_of(symbol) matches Some(SymbolKind::Func { input_id })
    &&& 0 <= entry - empty < table.len()
    &&& table[entry - empty] == input_id
    &&& !table.take(entry - empty).contains(input_id)
}

/// Whether a module does not hold the function of a symbol in the table.
pub open spec fn has_no_entry<L, V>(
    input: InputObject,
    module: ModuleEmitState<L, V>,
    symbol: SymbolId,
) -> bool {
    input.kind_of(symbol) matches Some(SymbolKind::Func { input_id })
        ==> !module.indirect_functions.indirect_function_table@.contains(input_id)
}

proof fn lemma_table_entries(table: Seq<FunctionRef>, first: int, function: FunctionRef)
    ensures
        match table_entry(table, first, function) {
            Some(entry) => {
                &&& 0 <= entry - first < table.len()
                &&& table[entry - first] == function
                &&& !table.take(entry - first).contains(function)
            },
            None => !table.contains(function),
        },
    decreases table.len(),
{
    if table.len() > 0 {
        let init = table.drop_last();
        lemma_table_entries(init, first, function);
        match table_entry(init, first, function) {
            Some(entry) => {
                assert(init.take(entry - first) =~= table.take(entry - first));
            },
            None => {
                assert(table.take(table.len() - 1) =~= init);
                assert forall|i: int| 0 <= i < table.len() && table[i] == function implies i
                    == table.len() - 1 by {
                    if i < table.len() - 1 {
                        assert(init[i] == function);
                        assert(init.contains(function));
                    }
                }
            },
        }
    }
}

proof fn lemma_entry_at<L, V>(
    input: InputObject,
    module: ModuleEmitState<L, V>,
    symbol: SymbolId,
)
    ensures
        forall|entry: int|
            is_entry_at(input, module, symbol, entry) ==> (FunctionIndexTag { symbol }).mapped(
                input,
                module,
            ) == Some(entry),
        has_no_entry(input, module, symbol) ==> (FunctionIndexTag { symbol }).mapped(input, module)
            is None,
{
    if let Some(SymbolKind::Func { input_id }) = input.kind_of(symbol) {
        let table = module.indirect_functions.indirect_function_table@;
        let first = module.indirect_functions.first();
        lemma_table_entries(table, first, input_id);
        assert forall|entry: int| is_entry_at(input, module, symbol, entry) implies (
        FunctionIndexTag { symbol }).mapped(input, module) == Some(entry) by {
            let k = entry - first;
            assert(table[k] == input_id);
            assert(table.contains(input_id));
            let found = table_entry(table, first, input_id)->0 - first;
            if found < k {
                assert(table.take(k)[found] == input_id);
            }
            if k < found {
                assert(table.take(found)[k] == input_id);
            }
        }
    }
}

/// The entry of a function of the main module in the table is fixed: a relocation without an addend
/// writes it.
pub proof fn lemma_entry_of_main_module<L, V>(
    state: RelocateState<'_, L, V>,
    entry: LinkageRelocationEntry,
    index: int,
)
    requires
        is_plain(entry),
        entry.symbol_op is TableIndex,
        entry.encoding is Sleb || entry.encoding is Fixed,
        entry.addend == 0,
        is_entry_at(
            *state.input_module,
            state.computed_modules.main_module,
            entry.symbol_id,
            index,
        ),
        fits(entry.encoding, index),
    ensures
        writes(state, entry, index),
{
    lemma_entry_at(
        *state.input_module,
        state.computed_modules.main_module,
        entry.symbol_id,
    );
    lemma_written(index);
}

/// The entry of another function in the table is only known when its module is loaded: a relocation
/// cannot write it.
pub proof fn lemma_entry_of_other_modules<L, V>(
    state: RelocateState<'_, L, V>,
    entry: LinkageRelocationEntry,
)
    requires
        is_plain(entry),
        entry.symbol_op is TableIndex,
        has_no_entry(
            *state.input_module,
            state.computed_modules.main_module,
            entry.symbol_id,
        ),
    ensures
        relocated(state, AnyRelocationEntry::Linkage(entry)) is Err,
{
    let tag = FunctionIndexTag { symbol: entry.symbol_id };
    lemma_entry_at(
        *state.input_module,
        state.computed_modules.main_module,
        entry.symbol_id,
    );
    lemma_shared_places_have_bases(state, tag, 0);
}

/// An entity that stands for an input entity, by its index: imported entities come first.
pub open spec fn stands_for<Ref, I: GetInputRef<Ref>, D: GetInputRef<Ref>>(
    entities: ImportsOrDefined<I, D>,
    index: int,
    input: Ref,
) -> bool {
    let imports = entities.imports@.len() as int;
    if index < imports {
        0 <= index && entities.imports@[index].input_index() == OutputMapType::BidirectionalMap(
            input,
        )
    } else {
        index < imports + entities.defined@.len() && entities.defined@[index
            - imports].input_index() == OutputMapType::BidirectionalMap(input)
    }
}

proof fn lemma_first_outputs<Ref, T: GetInputRef<Ref>>(items: Seq<T>, input: Ref)
    ensures
        match first_output(items, input) {
            Some(i) => {
                &&& 0 <= i < items.len()
                &&& items[i].input_index() == OutputMapType::BidirectionalMap(input)
            },
            None => forall|i: int|
                0 <= i < items.len() ==> (#[trigger] items[i]).input_index()
                    != OutputMapType::BidirectionalMap(input),
        },
    decreases items.len(),
{
    if items.len() > 0 {
        lemma_first_outputs(items.drop_last(), input);
        if first_output(items.drop_last(), input) is None {
            assert forall|i: int| 0 <= i < items.len() - 1 implies (
            #[trigger] items[i]).input_index() != OutputMapType::BidirectionalMap(input) by {
                assert(items.drop_last()[i] == items[i]);
            }
        }
    }
}

/// The entity that an input entity is looked up as stands for it. If none is found, none does.
pub proof fn lemma_outputs_stand_for_inputs<Ref, I: GetInputRef<Ref>, D: GetInputRef<Ref>>(
    entities: ImportsOrDefined<I, D>,
    input: Ref,
)
    ensures
        match entities.output_of(input) {
            Some(index) => stands_for(entities, index, input),
            None => forall|index: int| !#[trigger] stands_for(entities, index, input),
        },
{
    lemma_first_outputs(entities.imports@, input);
    lemma_first_outputs(entities.defined@, input);
}

/// A relocation of a function writes the index of a function of the output module that stands for
/// it. Functions that the module does not have, and addends, are errors.
pub proof fn lemma_relocated_function<L, V>(
    state: RelocateState<'_, L, V>,
    entry: LinkageRelocationEntry,
    function: FunctionRef,
)
    requires
        is_plain(entry),
        entry.symbol_op is FunctionIndex,
        entry.encoding is Leb || entry.encoding is Fixed,
        state.input_module.kind_of(entry.symbol_id) == Some(
            SymbolKind::Func { input_id: function },
        ),
        state.valid(),
    ensures
        match relocated(state, AnyRelocationEntry::Linkage(entry)) {
            Ok(_) => entry.addend == 0 && exists|index: int|
                #[trigger] stands_for(state.emit_module.functions, index, function) && writes(
                    state,
                    entry,
                    index,
                ),
            Err(RelocateError::NotFound) => forall|index: int|
                !#[trigger] stands_for(state.emit_module.functions, index, function),
            Err(error) => error is NonZeroAddend && entry.addend != 0,
        },
{
    lemma_outputs_stand_for_inputs(state.emit_module.functions, function);
    if let Some(index) = state.emit_module.functions.output_of(function) {
        lemma_written(index);
        assert(stands_for(state.emit_module.functions, index, function));
    }
}

/// A relocation of a global writes the index of a global of the output module that stands for it.
/// Globals that the module does not have are errors.
pub proof fn lemma_relocated_global<L, V>(
    state: RelocateState<'_, L, V>,
    entry: LinkageRelocationEntry,
    global: GlobalRef,
)
    requires
        is_plain(entry),
        entry.symbol_op is GlobalIndex,
        entry.encoding is Leb,
        state.input_module.kind_of(entry.symbol_id) == Some(SymbolKind::Global(global)),
        state.valid(),
    ensures
        match relocated(state, AnyRelocationEntry::Linkage(entry)) {
            Ok(_) => exists|index: int|
                #[trigger] stands_for(state.emit_module.globals, index, global) && writes(
                    state,
                    entry,
                    index,
                ),
            Err(error) => error is NotFound && forall|index: int|
                !#[trigger] stands_for(state.emit_module.globals, index, global),
        },
{
    lemma_outputs_stand_for_inputs(state.emit_module.globals, global);
    if let Some(index) = state.emit_module.globals.output_of(global) {
        lemma_written(index);
        assert(stands_for(state.emit_module.globals, index, global));
    }
}

} // verus!
