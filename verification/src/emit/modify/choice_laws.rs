//! Which references become relative to a base.
use crate::emit::modify::blacklist::IsSet;
use crate::emit::modify::code_abs_to_got::{is_number, zero_expr, CodeAbsToGot};
use crate::emit::modify::constant_extraction::{
    code_modify_entry, ModifyEntry, RelocationContext,
};
use crate::emit::modify::cursor::CursorView;
use crate::emit::modify::data_abs_to_got::{DataAbsToGot, DataSymbolInit};
use crate::emit::modify::start_fn_gen::data_modify_entry;
use crate::emit::modify::{FixupError, HandleFixups, Rewrite};
use crate::index::Temp;
use crate::layouts::data::DataSymbolRef;
use crate::linkage::reloc::{AnyRelocationEntry, EntityRelocationEntry, LinkageRelocationEntry};
use crate::typed::snapshot::{EntitiesSnapshot, FlatEntityRef};
use crate::typed::types::ValType;
use crate::typed::{FileId, FunctionRef};
use vstd::prelude::*;

verus! {

/// Whether a relocation writes an address: one in memory, or one of a function in the table.
pub open spec fn writes_address(entry: LinkageRelocationEntry) -> bool {
    entry.symbol_op is MemoryAddr || entry.symbol_op is TableIndex
}

/// In code, only addresses are made relative, and only those that are relative to a base. An
/// address in memory that is the operand of an instruction is always made relative then. Nothing
/// else changes, and absolute numbers of 32 bits are never refused.
pub proof fn lemma_addresses_in_code_are_relative(entry: LinkageRelocationEntry, dyn_base: bool)
    ensures
        ({
            let outcome = code_modify_entry(AnyRelocationEntry::Linkage(entry), dyn_base);
            &&& outcome matches Ok(ModifyEntry::Custom(made)) ==> made.entry == entry && dyn_base
                && writes_address(entry)
            &&& outcome matches Ok(ModifyEntry::Other(kept)) ==> kept
                == AnyRelocationEntry::Linkage(entry)
            &&& dyn_base && entry.symbol_op is MemoryAddr && entry.encoding !is Fixed
                && outcome is Ok ==> outcome->Ok_0 is Custom
            &&& dyn_base && entry.symbol_op is TableIndex && entry.encoding is Sleb
                && outcome is Ok ==> outcome->Ok_0 is Custom
            &&& entry.width is Bits32 && entry.relation is Absolute && entry.symbol_op
                !is SectionOffset && entry.symbol_op !is FunctionOffset ==> outcome is Ok
            &&& outcome is Ok ==> entry.width is Bits32 && entry.relation is Absolute
        }),
{
}

/// In data, every address that is relative to a base is written later, into the symbol that holds
/// it. Nothing else changes, and absolute numbers of 32 bits are never refused.
pub proof fn lemma_addresses_in_data_are_relative(
    entry: LinkageRelocationEntry,
    context: RelocationContext,
)
    requires
        context.containing_symbol is Some,
    ensures
        ({
            let outcome = data_modify_entry(AnyRelocationEntry::Linkage(entry), context);
            &&& outcome matches Ok(ModifyEntry::Custom(made)) ==> made.relocation == entry
                && Some(made.storage) == context.containing_symbol
            &&& outcome matches Ok(ModifyEntry::Other(kept)) ==> kept
                == AnyRelocationEntry::Linkage(entry)
            &&& outcome is Ok ==> (outcome->Ok_0 is Custom <==> context.dyn_base && writes_address(
                entry,
            ))
            &&& outcome is Ok <==> entry.width is Bits32 && entry.relation is Absolute
                && entry.encoding is Fixed
        }),
{
}

/// In a module that is loaded later, the address of an entity of the main module stays in code as
/// it is, and every other address becomes relative: the rewritten bytes are those of the address
/// and of the opcode before it, with the alignment between them where a load or store has the
/// address.
pub proof fn lemma_code_of_later_modules<S: IsSet>(
    converter: CodeAbsToGot<S>,
    entity: Temp<FunctionRef>,
    buffer: CursorView,
    input_file: (FileId, EntitiesSnapshot),
    entry: EntityRelocationEntry,
    outcome: Result<Option<(Rewrite, ())>, FixupError>,
)
    requires
        converter.is_entry(entity, buffer, input_file, entry, outcome),
        entry.symbol_id is DataSymbol || entry.symbol_id is Function,
        entry.width is Bits32,
        entry.relation is Absolute,
        entry.symbol_op is RuntimeAddr,
    ensures
        ({
            let flat = FlatEntityRef { id: input_file.1.flat(entry.symbol_id) as u32 };
            &&& !converter.always_static_symbols.answers(flat, false) ==> outcome is Ok
                && outcome->Ok_0 is None
            &&& !converter.always_static_symbols.answers(flat, true) ==> outcome is Err
                || outcome->Ok_0 is Some
            &&& outcome matches Ok(Some((rewrite, _))) ==> {
                &&& rewrite.old_range.end == buffer.green.1
                &&& entry.encoding is Sleb && 1 <= buffer.green.0 ==> rewrite.old_range.start
                    == buffer.green.0 - 1
                &&& entry.encoding is Leb && 2 <= buffer.green.0 ==> rewrite.old_range.start
                    == buffer.green.0 - 2
            }
        }),
{
}

/// Code that refers to something else, or to an entity by its number, stays as it is.
pub proof fn lemma_numbers_in_code_stay<S: IsSet>(
    converter: CodeAbsToGot<S>,
    entity: Temp<FunctionRef>,
    buffer: CursorView,
    input_file: (FileId, EntitiesSnapshot),
    entry: EntityRelocationEntry,
    outcome: Result<Option<(Rewrite, ())>, FixupError>,
)
    requires
        converter.is_entry(entity, buffer, input_file, entry, outcome),
        !(entry.symbol_id is DataSymbol || entry.symbol_id is Function) || entry.symbol_op
            !is RuntimeAddr,
    ensures
        outcome matches Ok(None),
{
}

/// In a module that is loaded later, every address in data is written when the module starts, into
/// the data that holds it. It is relative unless it is that of an entity of the main module.
pub proof fn lemma_data_of_later_modules<S: IsSet>(
    converter: DataAbsToGot<S>,
    entity: Temp<DataSymbolRef>,
    buffer: CursorView,
    input_file: (FileId, EntitiesSnapshot),
    entry: EntityRelocationEntry,
    outcome: Result<Option<(Rewrite, DataSymbolInit)>, FixupError>,
)
    requires
        converter.is_entry(entity, buffer, input_file, entry, outcome),
        entry.symbol_id is DataSymbol || entry.symbol_id is Function,
        entry.width is Bits32,
        entry.relation is Absolute,
        entry.encoding is Fixed,
    ensures
        ({
            let flat = FlatEntityRef { id: input_file.1.flat(entry.symbol_id) as u32 };
            &&& outcome matches Ok(Some((rewrite, init)))
            &&& init.storage == entity
            &&& init.relocated_symbol.file_id == input_file.0
            &&& init.relocated_symbol.entity == entry.symbol_id
            &&& (rewrite.old_range.start as int, rewrite.old_range.end as int) == entry.place()
            &&& rewrite.new_bytes@.len() == entry.place().1 - entry.place().0
            &&& rewrite.new_relocs@.len() == 0
            &&& !converter.is_static_symbol.answers(flat, false) ==> !init.is_got_based
            &&& !converter.is_static_symbol.answers(flat, true) ==> init.is_got_based
        }),
{
}

/// The global for a number starts as zero: the expression is one constant, all of whose bytes are
/// zero, of the size that its type has, and the end.
pub proof fn lemma_tmps_start_as_zero(val_type: ValType)
    requires
        is_number(val_type),
    ensures
        ({
            let expr = zero_expr(val_type);
            let size: int = match val_type {
                ValType::F32 => 4,
                ValType::F64 => 8,
                _ => 1,
            };
            &&& expr.len() == size + 2
            &&& expr[0] == match val_type {
                ValType::I32 => 0x41u8,
                ValType::I64 => 0x42u8,
                ValType::F32 => 0x43u8,
                _ => 0x44u8,
            }
            &&& forall|i: int| 1 <= i <= size ==> #[trigger] expr[i] == 0
            &&& expr.last() == 0x0b
        }),
{
}

} // verus!
