//! Takes the addresses of data and of functions out of code.
//!
//! A constant that is an address becomes the sum of a base global and an offset. The same is done for
//! the offsets of loads and stores, and for indices of the indirect function table.
use crate::emit::modify::code_abs_to_got::{store_type, stored_type, Instruction, StoreGlobals};
use crate::emit::modify::start_fn_gen::DataSymbolWithOffset;
use crate::emit::modify::wasm_emitter::MemArg;
use crate::emit::modify::FixupError;
use crate::emit::object::OutputGlobalId;
use crate::emit::relocation::encode::{sleb, uleb, variable_s32, variable_u32};
use crate::index::TempIndex;
use crate::linkage::reloc::{
    AnyRelocationEntry, Encoding, LinkageRelocationEntry, Relative, RelocationWidth, SymbolType,
};
use vstd::prelude::*;

verus! {

/// Where the target of a relocation is.
#[derive(Clone, Copy, Debug, PartialEq, Eq)]
pub enum SymbolOp<V> {
    /// At a fixed place.
    StaticOffset { value: V },
    /// Relative to the value of a global.
    GotBased { got: OutputGlobalId, value: V },
}

/// A relocation, or a modification that takes its place.
#[derive(Clone, Copy, Debug)]
pub enum ModifyEntry<T> {
    Custom(T),
    Other(AnyRelocationEntry),
}

/// A relocation of code, or a modification that takes its place.
pub type CodeModifyEntry = ModifyEntry<ConstantExtractionEntry>;

/// What surrounds a relocation.
#[derive(Clone, Copy, Debug)]
pub struct RelocationContext {
    /// Whether the target is relative to a base.
    pub dyn_base: bool,
    /// The data symbol that holds the relocation.
    pub containing_symbol: Option<DataSymbolWithOffset>,
}

/// A relocation of code whose target is relative to a base.
#[derive(Clone, Copy, Debug)]
pub struct ConstantExtractionEntry {
    pub entry: LinkageRelocationEntry,
}

/// Why a relocation of code is not supported.
pub open spec fn code_entry_refusal(entry: LinkageRelocationEntry) -> Option<FixupError> {
    if entry.width is Bits64 {
        Some(FixupError::UnsupportedWidth)
    } else if !(entry.relation is Absolute) {
        Some(FixupError::UnsupportedRelation)
    } else if entry.symbol_op is SectionOffset || entry.symbol_op is FunctionOffset {
        Some(FixupError::UnsupportedTarget)
    } else {
        None
    }
}

/// Whether the operand of an instruction is an address.
pub open spec fn is_extracted(entry: LinkageRelocationEntry) -> bool {
    ||| entry.symbol_op is TableIndex && entry.encoding is Sleb
    ||| entry.symbol_op is MemoryAddr && entry.encoding is Sleb
    ||| entry.symbol_op is MemoryAddr && entry.encoding is Leb
}

/// What is made of a relocation of code.
pub open spec fn code_modify_entry(entry: AnyRelocationEntry, dyn_base: bool) -> Result<
    CodeModifyEntry,
    FixupError,
> {
    match entry {
        AnyRelocationEntry::Linkage(linkage) => match code_entry_refusal(linkage) {
            Some(error) => Err(error),
            None => if dyn_base && is_extracted(linkage) {
                Ok(ModifyEntry::Custom(ConstantExtractionEntry { entry: linkage }))
            } else {
                Ok(ModifyEntry::Other(entry))
            },
        },
        AnyRelocationEntry::Type(_) => Ok(ModifyEntry::Other(entry)),
    }
}

/// The bytes of `global.get`.
pub open spec fn get_bytes(global: int) -> Seq<u8> {
    seq![0x23u8] + uleb(global as nat)
}

/// The bytes of `global.set`.
pub open spec fn set_bytes(global: int) -> Seq<u8> {
    seq![0x24u8] + uleb(global as nat)
}

/// The bytes of the operand of a load or store.
pub open spec fn memarg_bytes(memarg: MemArg) -> Seq<u8> {
    if memarg.memory_index == 0 {
        uleb(memarg.align as nat) + uleb(memarg.offset as nat)
    } else {
        uleb((memarg.align | 64) as nat) + uleb(memarg.memory_index as nat) + uleb(
            memarg.offset as nat,
        )
    }
}

/// The bytes that compute an address relative to a base: `global.get`, `i32.const`, `i32.add`.
pub open spec fn extracted_const(got: OutputGlobalId, value: i64) -> Seq<u8> {
    get_bytes(got.id as int) + (seq![0x41u8] + sleb((value as i32) as int)) + seq![0x6au8]
}

/// The bytes of a load or store whose address has a base added to it. The value that is stored waits
/// in a global meanwhile.
pub open spec fn extracted_memory(
    tmps: StoreGlobals,
    got: OutputGlobalId,
    value: i64,
    opcode: u8,
    memarg: MemArg,
) -> Seq<u8> {
    let (save, restore) = match stored_type(opcode) {
        Some(t) => (set_bytes(tmps.of(t).id() as int), get_bytes(tmps.of(t).id() as int)),
        None => (Seq::empty(), Seq::empty()),
    };
    save + (get_bytes(got.id as int) + seq![0x6au8]) + restore + (seq![opcode] + memarg_bytes(
        MemArg { offset: value as u64, ..memarg },
    ))
}

pub(crate) fn push_uleb(writer: &mut Vec<u8>, value: u32)
    ensures
        final(writer)@ == old(writer)@ + uleb(value as nat),
{
    let ghost before = writer@;
    let (bytes, len) = variable_u32(value);
    let mut i: usize = 0;
    while i < len
        invariant
            i <= len <= 5,
            len == uleb(value as nat).len(),
            bytes@ == uleb(value as nat) + Seq::new((5 - len) as nat, |i: int| 0u8),
            writer@ == before + uleb(value as nat).take(i as int),
        decreases len - i,
    {
        writer.push(bytes[i]);
        assert(writer@ =~= before + uleb(value as nat).take(i + 1));
        i = i + 1;
    }
    assert(uleb(value as nat).take(i as int) =~= uleb(value as nat));
}

pub(crate) fn push_sleb(writer: &mut Vec<u8>, value: i32)
    ensures
        final(writer)@ == old(writer)@ + sleb(value as int),
{
    let ghost before = writer@;
    let (bytes, len) = variable_s32(value);
    let mut i: usize = 0;
    while i < len
        invariant
            i <= len <= 5,
            len == sleb(value as int).len(),
            bytes@ == sleb(value as int) + Seq::new((5 - len) as nat, |i: int| 0u8),
            writer@ == before + sleb(value as int).take(i as int),
        decreases len - i,
    {
        writer.push(bytes[i]);
        assert(writer@ =~= before + sleb(value as int).take(i + 1));
        i = i + 1;
    }
    assert(sleb(value as int).take(i as int) =~= sleb(value as int));
}

pub(crate) fn push_get(writer: &mut Vec<u8>, global: u32)
    ensures
        final(writer)@ == old(writer)@ + get_bytes(global as int),
{
    let ghost before = writer@;
    writer.push(0x23);
    push_uleb(writer, global);
    assert(writer@ =~= before + get_bytes(global as int));
}

fn push_set(writer: &mut Vec<u8>, global: u32)
    ensures
        final(writer)@ == old(writer)@ + set_bytes(global as int),
{
    let ghost before = writer@;
    writer.push(0x24);
    push_uleb(writer, global);
    assert(writer@ =~= before + set_bytes(global as int));
}

pub(crate) fn push_memarg(writer: &mut Vec<u8>, memarg: MemArg)
    requires
        memarg.offset <= u32::MAX,
    ensures
        final(writer)@ == old(writer)@ + memarg_bytes(memarg),
{
    let ghost before = writer@;
    if memarg.memory_index == 0 {
        push_uleb(writer, memarg.align);
    } else {
        push_uleb(writer, memarg.align | 64);
        push_uleb(writer, memarg.memory_index);
    }
    push_uleb(writer, memarg.offset as u32);
    assert(writer@ =~= before + memarg_bytes(memarg));
}

impl ConstantExtractionEntry {
    /// Tells whether a relocation of code is supported.
    fn check_whitelisted_code_relocation(entry: &LinkageRelocationEntry) -> (r: Result<
        (),
        FixupError,
    >)
        ensures
            match code_entry_refusal(*entry) {
                Some(error) => r == Err::<(), FixupError>(error),
                None => r is Ok,
            },
    {
        match entry.width {
            RelocationWidth::Bits64 => {
                return Err(FixupError::UnsupportedWidth);
            },
            RelocationWidth::Bits32 => {},
        }
        match entry.relation {
            Relative::Absolute => {},
            _ => {
                return Err(FixupError::UnsupportedRelation);
            },
        }
        match entry.symbol_op {
            SymbolType::SectionOffset | SymbolType::FunctionOffset => Err(
                FixupError::UnsupportedTarget,
            ),
            _ => Ok(()),
        }
    }

    /// A relocation whose target is relative to a base, if it is one that can be taken out of code.
    pub fn try_from_entry(entry: &AnyRelocationEntry, context: &RelocationContext) -> (r: Result<
        Option<Self>,
        FixupError,
    >)
        ensures
            match code_modify_entry(*entry, context.dyn_base) {
                Ok(ModifyEntry::Custom(custom)) => r == Ok::<Option<Self>, FixupError>(Some(custom)),
                Ok(ModifyEntry::Other(_)) => r == Ok::<Option<Self>, FixupError>(None),
                Err(error) => r == Err::<Option<Self>, FixupError>(error),
            },
    {
        match entry {
            AnyRelocationEntry::Linkage(linkage) => {
                match Self::check_whitelisted_code_relocation(linkage) {
                    Ok(_) => {},
                    Err(error) => {
                        return Err(error);
                    },
                }
                let extracted = match (linkage.symbol_op, linkage.encoding) {
                    (SymbolType::TableIndex, Encoding::Sleb)
                    | (SymbolType::MemoryAddr, Encoding::Sleb)
                    | (SymbolType::MemoryAddr, Encoding::Leb) => true,
                    _ => false,
                };
                if extracted && context.dyn_base {
                    Ok(Some(ConstantExtractionEntry { entry: *linkage }))
                } else {
                    Ok(None)
                }
            },
            AnyRelocationEntry::Type(_) => Ok(None),
        }
    }

    /// Replaces `i32.const` by the sum of a base global and a constant.
    pub fn replace_const_get_with_global_get(
        &self,
        symbol_offset: SymbolOp<i64>,
        instruction: Instruction,
        writer: &mut Vec<u8>,
    ) -> (r: Result<(), FixupError>)
        ensures
            match (instruction, symbol_offset) {
                (Instruction::I32Const, SymbolOp::GotBased { got, value }) => if value >= 0 {
                    r is Ok && final(writer)@ == old(writer)@ + extracted_const(got, value)
                } else {
                    r == Err::<(), _>(FixupError::OffsetOutOfRange) && *final(writer)
                        == *old(writer)
                },
                (Instruction::I32Const, SymbolOp::StaticOffset { .. }) => r == Err::<(), _>(
                    FixupError::NotBased,
                ) && *final(writer) == *old(writer),
                _ => r == Err::<(), _>(FixupError::UnsupportedInstruction) && *final(writer)
                    == *old(writer),
            },
    {
        match instruction {
            Instruction::I32Const => {},
            _ => {
                return Err(FixupError::UnsupportedInstruction);
            },
        }
        match symbol_offset {
            SymbolOp::StaticOffset { .. } => Err(FixupError::NotBased),
            SymbolOp::GotBased { got, value } => {
                if value < 0 {
                    return Err(FixupError::OffsetOutOfRange);
                }
                let ghost before = writer@;
                push_get(writer, got.id);
                writer.push(0x41);
                push_sleb(
                    writer,
                    #[verifier::truncate]
                    (value as i32),
                );
                writer.push(0x6a);
                assert(writer@ =~= before + extracted_const(got, value));
                Ok(())
            },
        }
    }

    /// Replaces a load or store by one whose address has a base global added to it:
    /// - for a store the value waits in a global: `global.set`,
    /// - `global.get` of the base, `i32.add`,
    /// - for a store the value comes back: `global.get`,
    /// - the instruction itself, with the offset of the symbol.
    pub fn replace_memory_offset_with_global_get(
        &self,
        symbol_offset: SymbolOp<i64>,
        instruction: Instruction,
        tmps: &StoreGlobals,
        writer: &mut Vec<u8>,
    ) -> (r: Result<(), FixupError>)
        requires
            symbol_offset matches SymbolOp::GotBased { value, .. } ==> 0 <= value <= u32::MAX,
        ensures
            match (symbol_offset, instruction) {
                (SymbolOp::StaticOffset { .. }, _) => r == Err::<(), _>(FixupError::NotBased)
                    && *final(writer) == *old(writer),
                (
                    SymbolOp::GotBased { got, value },
                    Instruction::Memory { opcode, memarg },
                ) => r is Ok && final(writer)@ == old(writer)@ + extracted_memory(
                    *tmps,
                    got,
                    value,
                    opcode,
                    memarg,
                ),
                _ => r == Err::<(), _>(FixupError::UnsupportedInstruction) && *final(writer)
                    == *old(writer),
            },
    {
        let (got, value) = match symbol_offset {
            SymbolOp::StaticOffset { .. } => {
                return Err(FixupError::NotBased);
            },
            SymbolOp::GotBased { got, value } => (got, value),
        };
        let (opcode, memarg) = match instruction {
            Instruction::Memory { opcode, memarg } => (opcode, memarg),
            _ => {
                return Err(FixupError::UnsupportedInstruction);
            },
        };
        let ghost before = writer@;
        let store = store_type(opcode);
        let fixed = MemArg {
            offset: value as u64,
            align: memarg.align,
            memory_index: memarg.memory_index,
        };
        if let Some(t) = store {
            push_set(writer, tmps.get(t).as_u32());
        }
        push_get(writer, got.id);
        writer.push(0x6a);
        if let Some(t) = store {
            push_get(writer, tmps.get(t).as_u32());
        }
        writer.push(opcode);
        push_memarg(writer, fixed);
        assert(writer@ =~= before + extracted_memory(*tmps, got, value, opcode, memarg));
        Ok(())
    }

    /// Replaces the instruction with the relocation, given the place of the target.
    pub fn try_apply(
        &self,
        symbol_offset: SymbolOp<i64>,
        instruction: Instruction,
        tmps: &StoreGlobals,
        writer: &mut Vec<u8>,
    ) -> (r: Result<(), FixupError>)
        requires
            symbol_offset matches SymbolOp::GotBased { value, .. } ==> 0 <= value <= u32::MAX,
        ensures
            !is_extracted(self.entry) ==> r == Err::<(), _>(FixupError::UnsupportedEncoding)
                && *final(writer) == *old(writer),
            is_extracted(self.entry) ==> match (symbol_offset, instruction) {
                (
                    SymbolOp::GotBased { got, value },
                    Instruction::Memory { opcode, memarg },
                ) => if self.entry.encoding is Leb {
                    r is Ok && final(writer)@ == old(writer)@ + extracted_memory(
                        *tmps,
                        got,
                        value,
                        opcode,
                        memarg,
                    )
                } else {
                    r == Err::<(), _>(FixupError::UnsupportedInstruction)
                },
                (SymbolOp::GotBased { got, value }, Instruction::I32Const) => if self.entry.encoding
                    is Sleb {
                    r is Ok && final(writer)@ == old(writer)@ + extracted_const(got, value)
                } else {
                    r == Err::<(), _>(FixupError::UnsupportedInstruction)
                },
                _ => r is Err && *final(writer) == *old(writer),
            },
    {
        match (self.entry.symbol_op, self.entry.encoding) {
            (SymbolType::MemoryAddr, Encoding::Leb) => self.replace_memory_offset_with_global_get(
                symbol_offset,
                instruction,
                tmps,
                writer,
            ),
            (SymbolType::MemoryAddr, Encoding::Sleb) | (
                SymbolType::TableIndex,
                Encoding::Sleb,
            ) => self.replace_const_get_with_global_get(symbol_offset, instruction, writer),
            _ => Err(FixupError::UnsupportedEncoding),
        }
    }
}

impl ModifyEntry<ConstantExtractionEntry> {
    /// What is made of a relocation of code.
    pub fn from_relocation_entry(entry: &AnyRelocationEntry, context: &RelocationContext) -> (r:
        Result<Self, FixupError>)
        ensures
            r == code_modify_entry(*entry, context.dyn_base),
    {
        match ConstantExtractionEntry::try_from_entry(entry, context) {
            Ok(Some(custom)) => Ok(ModifyEntry::Custom(custom)),
            Ok(None) => Ok(ModifyEntry::Other(*entry)),
            Err(error) => Err(error),
        }
    }
}

} // verus!
