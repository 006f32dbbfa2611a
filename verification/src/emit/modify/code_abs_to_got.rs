//! Makes code use addresses relative to base globals in place of absolute ones, for accesses to
//! memory and to the indirect function table.
//!
//! Relocations tell the instructions whose operands are addresses.
use crate::emit::modify::blacklist::IsSet;
use crate::emit::modify::cursor::{Cursor, CursorView};
use crate::emit::modify::wasm_emitter::{
    lemma_after_at_end, lemma_after_twice, Encoder, EncoderView, MemArg, MemArgOffsets,
};
use crate::emit::modify::{
    FixupError, HandleFixups, OutputEntityRef, OutputRelocationEntry, Rewrite,
};
use crate::emit::relocation::encode::{fixed_leb, le_bytes, lemma_fixed_leb_len, sleb};
use crate::index::{MAX_VALUE, Temp, TempIndex};
use crate::layouts::{const_expr, operator_at, read_operator, ConstOp, SegmentPlacement};
use crate::linkage::reloc::{
    Encoding, EntityAddressMode, EntityRelocationEntry, Relative, RelocationEntry, RelocationWidth,
};
use crate::typed::body::EntityBody;
use crate::typed::entities::{DefinedEntity, EntityCollection};
use crate::typed::module::{DefinedGlobal, ImportedGlobal};
use crate::typed::snapshot::{EntitiesSnapshot, FlatEntityRef};
use crate::typed::types::{GlobalType, ValType};
use crate::typed::{EntityKind, FileId, FunctionRef, GlobalRef};
use core::ops::Range;
use vstd::prelude::*;
use wasmparser::Operator::{
    F32Load, F32Store, F64Load, F64Store, I32Load, I32Load16S, I32Load16U, I32Load8S, I32Load8U,
    I32Store, I32Store16, I32Store8, I64Load, I64Load16S, I64Load16U, I64Load32S, I64Load32U,
    I64Load8S, I64Load8U, I64Store, I64Store16, I64Store32, I64Store8,
};

verus! {

/// Stands in the place of a global index that a relocation fills in.
pub const INVALID_U32: u32 = 0xEFBE_ADDE;

/// Type of a stored value.
#[derive(Debug, Clone, Copy, PartialEq, Eq, Hash, PartialOrd, Ord, Structural)]
pub enum StoreType {
    I32,
    I64,
    F32,
    F64,
}

/// Every type of stored values, with its value type.
pub fn init_each_store_var() -> (r: Vec<(StoreType, ValType)>)
    ensures
        r@ == seq![
            (StoreType::I32, ValType::I32),
            (StoreType::I64, ValType::I64),
            (StoreType::F32, ValType::F32),
            (StoreType::F64, ValType::F64),
        ],
{
    let r = vec![
        (StoreType::I32, ValType::I32),
        (StoreType::I64, ValType::I64),
        (StoreType::F32, ValType::F32),
        (StoreType::F64, ValType::F64),
    ];
    assert(r@ =~= seq![
        (StoreType::I32, ValType::I32),
        (StoreType::I64, ValType::I64),
        (StoreType::F32, ValType::F32),
        (StoreType::F64, ValType::F64),
    ]);
    r
}

/// `wasm_encoder::ConstExpr::i64_const`, encoded: the operator, its operand in the fewest bytes,
/// and the end of the expression.
#[verifier::external_body]
fn i64_const_expr(value: i64) -> (r: Vec<u8>)
    ensures
        r@ == seq![0x42u8] + sleb(value as int) + seq![0x0bu8],
{
    let mut bytes = Vec::new();
    wasm_encoder::Encode::encode(&wasm_encoder::ConstExpr::i64_const(value), &mut bytes);
    bytes
}

/// `wasm_encoder::ConstExpr::f32_const`, encoded: the operator, the bits of its operand, and the
/// end of the expression.
#[verifier::external_body]
fn f32_const_expr(bits: u32) -> (r: Vec<u8>)
    ensures
        r@ == seq![0x43u8] + le_bytes(bits as int, 4) + seq![0x0bu8],
{
    let mut bytes = Vec::new();
    let expr = wasm_encoder::ConstExpr::f32_const(wasm_encoder::Ieee32::new(bits));
    wasm_encoder::Encode::encode(&expr, &mut bytes);
    bytes
}

/// `wasm_encoder::ConstExpr::f64_const`, encoded: the operator, the bits of its operand, and the
/// end of the expression.
#[verifier::external_body]
fn f64_const_expr(bits: u64) -> (r: Vec<u8>)
    ensures
        r@ == seq![0x44u8] + le_bytes(bits as int, 8) + seq![0x0bu8],
{
    let mut bytes = Vec::new();
    let expr = wasm_encoder::ConstExpr::f64_const(wasm_encoder::Ieee64::new(bits));
    wasm_encoder::Encode::encode(&expr, &mut bytes);
    bytes
}

/// Whether values of a type are numbers.
pub open spec fn is_number(val_type: ValType) -> bool {
    val_type is I32 || val_type is I64 || val_type is F32 || val_type is F64
}

/// The expression for zero of a number type: the operator, the operand and the end.
pub open spec fn zero_expr(val_type: ValType) -> Seq<u8> {
    match val_type {
        ValType::I32 => seq![0x41u8, 0x00u8, 0x0bu8],
        ValType::I64 => seq![0x42u8, 0x00u8, 0x0bu8],
        ValType::F32 => seq![0x43u8] + Seq::new(4, |i: int| 0u8) + seq![0x0bu8],
        _ => seq![0x44u8] + Seq::new(8, |i: int| 0u8) + seq![0x0bu8],
    }
}

proof fn lemma_zero_bytes(size: nat)
    ensures
        le_bytes(0, size) == Seq::new(size, |i: int| 0u8),
    decreases size,
{
    if size > 0 {
        lemma_zero_bytes((size - 1) as nat);
    }
    assert(le_bytes(0, size) =~= Seq::new(size, |i: int| 0u8));
}

/// The initial value of a global that holds a number for a while.
pub fn global_init_tmp(val_type: ValType) -> (r: Vec<u8>)
    requires
        is_number(val_type),
    ensures
        r@ == zero_expr(val_type),
{
    proof {
        lemma_zero_bytes(4);
        lemma_zero_bytes(8);
        assert(sleb(0) =~= seq![0u8]);
    }
    let r = match val_type {
        ValType::I32 => const_expr(0),
        ValType::I64 => i64_const_expr(0),
        ValType::F32 => f32_const_expr(0),
        _ => f64_const_expr(0),
    };
    assert(r@ =~= zero_expr(val_type));
    r
}

/// The globals that hold a value while its address is computed.
#[derive(Debug, Clone, Copy, PartialEq, Eq, Structural)]
pub struct StoreGlobals {
    pub i32_tmp: GlobalRef,
    pub i64_tmp: GlobalRef,
    pub f32_tmp: GlobalRef,
    pub f64_tmp: GlobalRef,
}

impl StoreGlobals {
    pub open spec fn of(self, store: StoreType) -> GlobalRef {
        match store {
            StoreType::I32 => self.i32_tmp,
            StoreType::I64 => self.i64_tmp,
            StoreType::F32 => self.f32_tmp,
            StoreType::F64 => self.f64_tmp,
        }
    }

    pub fn get(&self, store: StoreType) -> (r: GlobalRef)
        ensures
            r == self.of(store),
    {
        match store {
            StoreType::I32 => self.i32_tmp,
            StoreType::I64 => self.i64_tmp,
            StoreType::F32 => self.f32_tmp,
            StoreType::F64 => self.f64_tmp,
        }
    }
}

/// The globals with four indices in a row.
pub open spec fn tmps_from(first: int) -> StoreGlobals {
    StoreGlobals {
        i32_tmp: GlobalRef { id: first as u32 },
        i64_tmp: GlobalRef { id: (first + 1) as u32 },
        f32_tmp: GlobalRef { id: (first + 2) as u32 },
        f64_tmp: GlobalRef { id: (first + 3) as u32 },
    }
}

/// Whether a global can hold values of a type for a while.
pub open spec fn is_tmp_global(global: DefinedGlobal, val_type: ValType) -> bool {
    &&& global.entity_type == (GlobalType { content_type: val_type, mutable: true, shared: false })
    &&& global.name is None
    &&& global.export_as@.len() == 0
    &&& global.body matches EntityBody::New { new_relocs, new_bytes }
    &&& new_relocs@.len() == 0
    &&& new_bytes@ == zero_expr(val_type)
}

/// Whether the globals that hold values for a while come behind others.
pub open spec fn has_tmps(before: Seq<DefinedGlobal>, after: Seq<DefinedGlobal>) -> bool {
    &&& after.len() == before.len() + 4
    &&& after.take(before.len() as int) == before
    &&& is_tmp_global(after[before.len() as int], ValType::I32)
    &&& is_tmp_global(after[before.len() as int + 1], ValType::I64)
    &&& is_tmp_global(after[before.len() as int + 2], ValType::F32)
    &&& is_tmp_global(after[before.len() as int + 3], ValType::F64)
}

fn tmp_global(content_type: ValType) -> (r: DefinedGlobal)
    requires
        is_number(content_type),
    ensures
        is_tmp_global(r, content_type),
{
    DefinedEntity {
        entity_type: GlobalType { content_type, mutable: true, shared: false },
        body: EntityBody::new_empty(global_init_tmp(content_type)),
        export_as: Vec::new(),
        name: None,
    }
}

/// An instruction, as far as it matters here.
#[derive(Debug, Clone, Copy, PartialEq, Eq, Structural)]
pub enum Instruction {
    I32Const,
    /// A load or a store.
    Memory { opcode: u8, memarg: MemArg },
    Other,
}

/// The argument of the load or store that `wasmparser` reads at the start of some bytes.
pub uninterp spec fn memarg_at(bytes: Seq<u8>) -> Option<MemArg>;

/// `wasmparser::OperatorsReader::read` on the start of some bytes: the argument of the load or
/// store that they hold there. It is a function of the bytes, and there is none where they hold
/// something else. Loads and stores have one opcode byte each, from `0x28` to `0x3e`.
#[verifier::external_body]
fn read_memarg(bytes: &[u8]) -> (r: Option<MemArg>)
    ensures
        r == memarg_at(bytes@),
        r is Some ==> bytes@.len() > 0 && 0x28 <= bytes@[0] <= 0x3e,
{
    match wasmparser::OperatorsReader::new(wasmparser::BinaryReader::new(bytes, 0)).read() {
        Ok(
            F32Load { memarg } | F64Load { memarg } | I32Load { memarg } | I64Load { memarg }
            | I32Load8U { memarg } | I32Load8S { memarg } | I32Load16U { memarg }
            | I32Load16S { memarg } | I64Load8U { memarg } | I64Load8S { memarg }
            | I64Load16U { memarg } | I64Load16S { memarg } | I64Load32U { memarg }
            | I64Load32S { memarg } | I32Store { memarg } | I64Store { memarg }
            | F32Store { memarg } | F64Store { memarg } | I32Store8 { memarg }
            | I32Store16 { memarg } | I64Store8 { memarg } | I64Store16 { memarg }
            | I64Store32 { memarg },
        ) => Some(MemArg { offset: memarg.offset, align: memarg.align as u32, memory_index: memarg.memory }),
        _ => None,
    }
}

/// The instruction that some bytes hold, if what was read from them is one instruction.
pub open spec fn instruction_of(
    bytes: Seq<u8>,
    read: Option<(ConstOp, int)>,
    memarg: Option<MemArg>,
) -> Result<Instruction, FixupError> {
    match read {
        None => Err(FixupError::Malformed),
        Some((op, next)) => if next != bytes.len() {
            Err(FixupError::ExtraOperators)
        } else {
            match memarg {
                Some(memarg) => Ok(Instruction::Memory { opcode: bytes[0], memarg }),
                None => if op is I32Const {
                    Ok(Instruction::I32Const)
                } else {
                    Ok(Instruction::Other)
                },
            }
        },
    }
}

/// Reads the one instruction that some bytes hold.
fn read_instruction(bytes: &[u8]) -> (r: Result<Instruction, FixupError>)
    ensures
        r == instruction_of(bytes@, operator_at(bytes@, 0), memarg_at(bytes@)),
        r matches Ok(Instruction::Memory { opcode, .. }) ==> 0x28 <= opcode <= 0x3e,
{
    match read_operator(bytes, 0) {
        None => Err(FixupError::Malformed),
        Some((op, next)) => if next != bytes.len() {
            Err(FixupError::ExtraOperators)
        } else {
            match read_memarg(bytes) {
                Some(memarg) => Ok(Instruction::Memory { opcode: bytes[0], memarg }),
                None => match op {
                    ConstOp::I32Const(_) => Ok(Instruction::I32Const),
                    _ => Ok(Instruction::Other),
                },
            }
        },
    }
}

/// The type of the value that a load or store with an opcode stores; loads store nothing.
pub open spec fn stored_type(opcode: u8) -> Option<StoreType> {
    if opcode == 0x36 || opcode == 0x3a || opcode == 0x3b {
        Some(StoreType::I32)
    } else if opcode == 0x37 || opcode == 0x3c || opcode == 0x3d || opcode == 0x3e {
        Some(StoreType::I64)
    } else if opcode == 0x38 {
        Some(StoreType::F32)
    } else if opcode == 0x39 {
        Some(StoreType::F64)
    } else {
        None
    }
}

/// The type of the value that a load or store with an opcode stores; loads store nothing.
pub fn store_type(opcode: u8) -> (r: Option<StoreType>)
    ensures
        r == stored_type(opcode),
{
    match opcode {
        0x36 | 0x3a | 0x3b => Some(StoreType::I32),
        0x37 | 0x3c | 0x3d | 0x3e => Some(StoreType::I64),
        0x38 => Some(StoreType::F32),
        0x39 => Some(StoreType::F64),
        _ => None,
    }
}

/// Whether a relocation can be made relative to a base.
pub open spec fn code_refusal(entry: EntityRelocationEntry) -> Option<FixupError> {
    if entry.width is Bits64 {
        Some(FixupError::UnsupportedWidth)
    } else if !(entry.relation is Absolute) {
        Some(FixupError::UnsupportedRelation)
    } else if !(entry.symbol_op is RuntimeAddr) {
        Some(FixupError::UnsupportedTarget)
    } else {
        None
    }
}

/// Tells whether a relocation can be made relative to a base.
pub fn check_whitelisted_code_relocation(entry: &EntityRelocationEntry) -> (r: Result<
    (),
    FixupError,
>)
    ensures
        match code_refusal(*entry) {
            Some(error) => r == Err::<(), FixupError>(error),
            None => r is Ok,
        },
{
    match entry.width {
        RelocationWidth::Bits64 => {
            return Err(FixupError::UnsupportedWidth);
        },
        RelocationWidth::Bits32 => {},
    }
    match entry.relation {
        Relative::Absolute => {},
        _ => {
            return Err(FixupError::UnsupportedRelation);
        },
    }
    match entry.symbol_op {
        EntityAddressMode::RuntimeAddr => Ok(()),
        _ => Err(FixupError::UnsupportedTarget),
    }
}

/// The relocation of a global index.
pub open spec fn global_reloc(
    target: OutputEntityRef,
    symbol_op: EntityAddressMode,
    offset: int,
) -> OutputRelocationEntry {
    RelocationEntry {
        symbol_id: target,
        symbol_op,
        offset: offset as u32,
        encoding: Encoding::Leb,
        width: RelocationWidth::Bits32,
        relation: Relative::Absolute,
        addend: 0,
    }
}

/// The relocation of an address, relative to its base.
pub open spec fn based_reloc(entry: EntityRelocationEntry, offset: int) -> OutputRelocationEntry {
    RelocationEntry {
        symbol_id: OutputEntityRef::FromInput(entry.symbol_id),
        symbol_op: entry.symbol_op,
        offset: offset as u32,
        relation: Relative::Got,
        encoding: entry.encoding,
        width: entry.width,
        addend: entry.addend,
    }
}

fn new_global_reloc(
    target: OutputEntityRef,
    symbol_op: EntityAddressMode,
    offset: u32,
) -> (r: OutputRelocationEntry)
    ensures
        r == global_reloc(target, symbol_op, offset as int),
{
    RelocationEntry {
        symbol_id: target,
        symbol_op,
        offset,
        encoding: Encoding::Leb,
        width: RelocationWidth::Bits32,
        relation: Relative::Absolute,
        addend: 0,
    }
}

fn new_based_reloc(entry: &EntityRelocationEntry, offset: u32) -> (r: OutputRelocationEntry)
    ensures
        r == based_reloc(*entry, offset as int),
{
    RelocationEntry {
        symbol_id: OutputEntityRef::from_input(entry.symbol_id),
        symbol_op: entry.symbol_op,
        offset,
        relation: Relative::Got,
        encoding: entry.encoding,
        width: entry.width,
        addend: entry.addend,
    }
}

/// What takes the place of `i32.const <address>`:
/// `global.get <base>`, `i32.const <address relative to base>`, `i32.add`.
pub open spec fn const_patch() -> Seq<u8> {
    seq![0x23u8] + fixed_leb(INVALID_U32 as int, 5) + (seq![0x41u8] + fixed_leb(0, 5)) + seq![
        0x6au8,
    ]
}

pub open spec fn const_relocs(entry: EntityRelocationEntry) -> Seq<OutputRelocationEntry> {
    seq![
        global_reloc(
            OutputEntityRef::FromInput(entry.symbol_id),
            EntityAddressMode::BaseStaticIndex,
            1,
        ),
        based_reloc(entry, 7),
    ]
}

/// The bytes that save a stored value.
pub open spec fn save_bytes(tmps: StoreGlobals, store: Option<StoreType>) -> Seq<u8> {
    match store {
        Some(t) => seq![0x24u8] + fixed_leb(tmps.of(t).id() as int, 5),
        None => Seq::empty(),
    }
}

/// The bytes that put a saved value back.
pub open spec fn restore_bytes(tmps: StoreGlobals, store: Option<StoreType>) -> Seq<u8> {
    match store {
        Some(t) => seq![0x23u8] + fixed_leb(tmps.of(t).id() as int, 5),
        None => Seq::empty(),
    }
}

/// What takes the place of a load or store with an address in its offset:
/// - a stored value is saved, with `global.set <tmp>`,
/// - `global.get <base>` and `i32.add` add the base to the dynamic part of the address,
/// - a stored value is put back, with `global.get <tmp>`,
/// - the instruction follows, with the address relative to the base in its offset.
pub open spec fn memory_patch(tmps: StoreGlobals, opcode: u8, memarg: MemArg) -> Seq<u8> {
    let store = stored_type(opcode);
    save_bytes(tmps, store) + (seq![0x23u8] + fixed_leb(INVALID_U32 as int, 5)) + seq![0x6au8]
        + restore_bytes(tmps, store) + (seq![opcode] + memarg.bytes())
}

pub open spec fn memory_relocs(
    tmps: StoreGlobals,
    entry: EntityRelocationEntry,
    opcode: u8,
    memarg: MemArg,
) -> Seq<OutputRelocationEntry> {
    let base = OutputEntityRef::FromInput(entry.symbol_id);
    match stored_type(opcode) {
        Some(t) => {
            let tmp = OutputEntityRef::Resolved(EntityKind::Global(tmps.of(t)));
            seq![
                global_reloc(tmp, EntityAddressMode::StaticIndex, 1),
                global_reloc(base, EntityAddressMode::BaseStaticIndex, 7),
                global_reloc(tmp, EntityAddressMode::StaticIndex, 14),
                based_reloc(entry, memarg.places(20).offset as int),
            ]
        },
        None => seq![
            global_reloc(base, EntityAddressMode::BaseStaticIndex, 1),
            based_reloc(entry, memarg.places(8).offset as int),
        ],
    }
}

/// The outcome of making an instruction relative to a base: the bytes and relocations that take
/// its place, or why that cannot be done.
pub open spec fn patch_of(
    tmps: StoreGlobals,
    entry: EntityRelocationEntry,
    instruction: Instruction,
) -> Result<(Seq<u8>, Seq<OutputRelocationEntry>), FixupError> {
    match (entry.symbol_id, entry.encoding, instruction) {
        (
            EntityKind::DataSymbol(_),
            Encoding::Leb,
            Instruction::Memory { opcode, memarg },
        ) => if memarg.offset <= u32::MAX {
            Ok((memory_patch(tmps, opcode, memarg), memory_relocs(tmps, entry, opcode, memarg)))
        } else {
            Err(FixupError::UnsupportedInstruction)
        },
        (EntityKind::DataSymbol(_), Encoding::Sleb, Instruction::I32Const) => Ok(
            (const_patch(), const_relocs(entry)),
        ),
        (EntityKind::Function(_), Encoding::Sleb, Instruction::I32Const) => Ok(
            (const_patch(), const_relocs(entry)),
        ),
        (EntityKind::DataSymbol(_), Encoding::Leb, _) => Err(FixupError::UnsupportedInstruction),
        (EntityKind::DataSymbol(_), Encoding::Sleb, _) => Err(FixupError::UnsupportedInstruction),
        (EntityKind::Function(_), Encoding::Sleb, _) => Err(FixupError::UnsupportedInstruction),
        _ => Err(FixupError::UnsupportedEncoding),
    }
}

/// Number of bytes of an instruction before the relocated operand.
pub open spec fn bytes_before_operand(encoding: Encoding) -> Option<int> {
    match encoding {
        Encoding::Leb => Some(2),
        Encoding::Sleb => Some(1),
        Encoding::Fixed => None,
    }
}

/// Makes code use addresses relative to base globals.
#[derive(Debug)]
pub struct CodeAbsToGot<S> {
    /// The globals that hold values while their addresses are computed.
    pub global_tmps: Option<StoreGlobals>,
    /// The entities whose addresses are always absolute.
    pub always_static_symbols: S,
}

impl<S: IsSet> CodeAbsToGot<S> {
    pub fn new(always_static_symbols: S) -> (r: Self)
        ensures
            r.global_tmps is None,
            r.always_static_symbols == always_static_symbols,
    {
        CodeAbsToGot { global_tmps: None, always_static_symbols }
    }

    /// Adds the globals that hold values for a while to a module whose data is relative to a base.
    /// A module with fixed addresses needs none.
    pub fn setup<GR: Copy>(
        &mut self,
        globals: &mut EntityCollection<GlobalRef, ImportedGlobal, DefinedGlobal>,
        mem_start: &SegmentPlacement<GR>,
    )
        requires
            old(self).global_tmps is None,
            old(globals)@.imports.len() + old(globals)@.defined.len() + 4 <= MAX_VALUE,
        ensures
            final(self).always_static_symbols == old(self).always_static_symbols,
            match *mem_start {
                SegmentPlacement::ConstantOffset(_) => {
                    &&& final(self).global_tmps is None
                    &&& final(globals)@ == old(globals)@
                },
                SegmentPlacement::GotBased { .. } => {
                    let first = old(globals)@.imports.len() + old(globals)@.defined.len();
                    &&& final(self).global_tmps == Some(tmps_from(first as int))
                    &&& final(globals)@.imports == old(globals)@.imports
                    &&& final(globals)@.external == old(globals)@.external
                    &&& has_tmps(old(globals)@.defined, final(globals)@.defined)
                },
            },
    {
        match mem_start {
            SegmentPlacement::ConstantOffset(_) => {},
            SegmentPlacement::GotBased { .. } => {
                let ghost before = globals@.defined;
                let first: usize = globals.imports().len() + globals.defined().len();
                globals.push_defined(tmp_global(ValType::I32));
                globals.push_defined(tmp_global(ValType::I64));
                globals.push_defined(tmp_global(ValType::F32));
                globals.push_defined(tmp_global(ValType::F64));
                self.global_tmps = Some(
                    StoreGlobals {
                        i32_tmp: GlobalRef::new(first),
                        i64_tmp: GlobalRef::new(first + 1),
                        f32_tmp: GlobalRef::new(first + 2),
                        f64_tmp: GlobalRef::new(first + 3),
                    },
                );
                assert(globals@.defined.take(before.len() as int) =~= before);
            },
        }
    }

    /// Whether the address of an entity is relative to a base.
    pub fn is_dyn_symbol(&self, snapshot: &EntitiesSnapshot, sym: EntityKind) -> (r: bool)
        requires
            snapshot.fits(),
            snapshot.has(sym),
            self.always_static_symbols.can_ask(FlatEntityRef { id: snapshot.flat(sym) as u32 }),
        ensures
            self.always_static_symbols.answers(
                FlatEntityRef { id: snapshot.flat(sym) as u32 },
                !r,
            ),
    {
        let flat = snapshot.pack_ref(sym);
        !self.always_static_symbols.contains(flat)
    }
}

/// Writes a load or store in which the operands have their full length.
fn encode_store_ix(writer: &mut Encoder, opcode: u8, memarg: MemArg) -> (r: MemArgOffsets)
    requires
        old(writer).wf(),
        0x28 <= opcode <= 0x3e,
        memarg.offset <= u32::MAX,
        old(writer)@.has_room(1 + memarg.size()),
    ensures
        final(writer).wf(),
        r == memarg.places(old(writer)@.offset + 1),
        final(writer)@ == old(writer)@.after(seq![opcode] + memarg.bytes()),
{
    match opcode {
        0x28 => writer.i32_load(memarg),
        0x29 => writer.i64_load(memarg),
        0x2a => writer.f32_load(memarg),
        0x2b => writer.f64_load(memarg),
        0x2c => writer.i32_load8_s(memarg),
        0x2d => writer.i32_load8_u(memarg),
        0x2e => writer.i32_load16_s(memarg),
        0x2f => writer.i32_load16_u(memarg),
        0x30 => writer.i64_load8_s(memarg),
        0x31 => writer.i64_load8_u(memarg),
        0x32 => writer.i64_load16_s(memarg),
        0x33 => writer.i64_load16_u(memarg),
        0x34 => writer.i64_load32_s(memarg),
        0x35 => writer.i64_load32_u(memarg),
        0x36 => writer.i32_store(memarg),
        0x37 => writer.i64_store(memarg),
        0x38 => writer.f32_store(memarg),
        0x39 => writer.f64_store(memarg),
        0x3a => writer.i32_store8(memarg),
        0x3b => writer.i32_store16(memarg),
        0x3c => writer.i64_store8(memarg),
        0x3d => writer.i64_store16(memarg),
        _ => writer.i64_store32(memarg),
    }
}

/// Replaces `i32.const` by the sum of a base global and a constant.
fn replace_const_get_with_global_get(entry: &EntityRelocationEntry) -> (r: (
    Vec<u8>,
    Vec<OutputRelocationEntry>,
))
    ensures
        r.0@ == const_patch(),
        r.1@ == const_relocs(*entry),
{
    let mut writer = Encoder::new(Vec::new(), 0);
    let ghost start = writer@;
    proof {
        lemma_fixed_leb_len(INVALID_U32 as int, 5);
        lemma_fixed_leb_len(0, 5);
    }
    let got_rel_offset: u32 = writer.global_get(INVALID_U32);
    let const_rel_offset: u32 = writer.i32_const(0);
    writer.i32_add();
    proof {
        let get = seq![0x23u8] + fixed_leb(INVALID_U32 as int, 5);
        let constant = seq![0x41u8] + fixed_leb(0, 5);
        lemma_after_twice(start, get, constant);
        lemma_after_twice(start, get + constant, seq![0x6au8]);
        lemma_after_at_end(start, const_patch());
    }
    let relocs = vec![
        new_global_reloc(
            OutputEntityRef::from_input(entry.symbol_id),
            EntityAddressMode::BaseStaticIndex,
            got_rel_offset,
        ),
        new_based_reloc(entry, const_rel_offset),
    ];
    let bytes = writer.into_inner();
    assert(bytes@ =~= const_patch());
    assert(relocs@ =~= const_relocs(*entry));
    (bytes, relocs)
}

/// Replaces a load or store by one whose address has a base global added to it.
fn replace_memory_offset_with_global_get(
    tmps: &StoreGlobals,
    entry: &EntityRelocationEntry,
    opcode: u8,
    memarg: MemArg,
) -> (r: (Vec<u8>, Vec<OutputRelocationEntry>))
    requires
        0x28 <= opcode <= 0x3e,
        memarg.offset <= u32::MAX,
    ensures
        r.0@ == memory_patch(*tmps, opcode, memarg),
        r.1@ == memory_relocs(*tmps, *entry, opcode, memarg),
{
    let mut writer = Encoder::new(Vec::new(), 0);
    let mut relocs: Vec<OutputRelocationEntry> = Vec::new();
    let store = store_type(opcode);
    let ghost start = writer@;
    let ghost saved = save_bytes(*tmps, store);
    let ghost restored = restore_bytes(*tmps, store);
    let ghost get = seq![0x23u8] + fixed_leb(INVALID_U32 as int, 5);
    let ghost instruction = seq![opcode] + memarg.bytes();
    proof {
        lemma_fixed_leb_len(INVALID_U32 as int, 5);
        if let Some(t) = store {
            lemma_fixed_leb_len(tmps.of(t).id() as int, 5);
        }
    }
    if let Some(t) = store {
        let global = tmps.get(t);
        let offset: u32 = writer.global_set(global.as_u32());
        relocs.push(
            new_global_reloc(
                OutputEntityRef::resolved(EntityKind::Global(global)),
                EntityAddressMode::StaticIndex,
                offset,
            ),
        );
    }
    proof {
        lemma_after_nothing(start);
        assert(writer@ == start.after(saved));
    }
    let got_offset: u32 = writer.global_get(INVALID_U32);
    relocs.push(
        new_global_reloc(
            OutputEntityRef::from_input(entry.symbol_id),
            EntityAddressMode::BaseStaticIndex,
            got_offset,
        ),
    );
    writer.i32_add();
    let ghost added = saved + get + seq![0x6au8];
    proof {
        lemma_after_twice(start, saved, get);
        lemma_after_twice(start, saved + get, seq![0x6au8]);
    }
    if let Some(t) = store {
        let global = tmps.get(t);
        let offset: u32 = writer.global_get(global.as_u32());
        relocs.push(
            new_global_reloc(
                OutputEntityRef::resolved(EntityKind::Global(global)),
                EntityAddressMode::StaticIndex,
                offset,
            ),
        );
        proof {
            lemma_after_twice(start, added, restored);
        }
    }
    proof {
        assert(added + Seq::<u8>::empty() =~= added);
        assert(writer@ == start.after(added + restored));
    }
    let places = encode_store_ix(&mut writer, opcode, memarg);
    relocs.push(new_based_reloc(entry, places.offset));
    proof {
        lemma_after_twice(start, added + restored, instruction);
        lemma_after_at_end(start, memory_patch(*tmps, opcode, memarg));
    }
    let bytes = writer.into_inner();
    assert(bytes@ =~= memory_patch(*tmps, opcode, memarg));
    assert(relocs@ =~= memory_relocs(*tmps, *entry, opcode, memarg));
    (bytes, relocs)
}

proof fn lemma_after_nothing(view: EncoderView)
    requires
        view.valid(),
    ensures
        view.after(Seq::empty()) == view,
{
    assert(view.after(Seq::empty()).written =~= view.written);
}

/// Makes an instruction with a relocated operand relative to a base. The bytes of the instruction
/// are those of `old_range`.
pub fn generate_patch(
    tmps: &StoreGlobals,
    entry: &EntityRelocationEntry,
    instruction: Instruction,
    old_range: Range<usize>,
) -> (r: Result<Rewrite, FixupError>)
    requires
        instruction matches Instruction::Memory { opcode, .. } ==> 0x28 <= opcode <= 0x3e,
    ensures
        match patch_of(*tmps, *entry, instruction) {
            Ok((bytes, relocs)) => r matches Ok(rewrite) && rewrite.old_range == old_range
                && rewrite.new_bytes@ == bytes && rewrite.new_relocs@ == relocs,
            Err(error) => r matches Err(e) && e == error,
        },
{
    let (new_bytes, new_relocs) = match (entry.symbol_id, entry.encoding) {
        (EntityKind::DataSymbol(_), Encoding::Leb) => match instruction {
            Instruction::Memory { opcode, memarg } => {
                if memarg.offset > 0xffff_ffff {
                    return Err(FixupError::UnsupportedInstruction);
                }
                replace_memory_offset_with_global_get(tmps, entry, opcode, memarg)
            },
            _ => {
                return Err(FixupError::UnsupportedInstruction);
            },
        },
        (EntityKind::DataSymbol(_), Encoding::Sleb) | (
            EntityKind::Function(_),
            Encoding::Sleb,
        ) => match instruction {
            Instruction::I32Const => replace_const_get_with_global_get(entry),
            _ => {
                return Err(FixupError::UnsupportedInstruction);
            },
        },
        _ => {
            return Err(FixupError::UnsupportedEncoding);
        },
    };
    Ok(Rewrite { old_range, new_relocs, new_bytes })
}

/// The range that an instruction with a relocated operand takes up, if it is free.
pub open spec fn instruction_range(
    buffer: CursorView,
    entry: EntityRelocationEntry,
) -> Result<(int, int), FixupError> {
    match bytes_before_operand(entry.encoding) {
        None => Err(FixupError::UnsupportedEncoding),
        Some(size) => {
            let start = if size <= buffer.green.0 {
                buffer.green.0 - size
            } else {
                0
            };
            if start < buffer.red_before {
                Err(FixupError::AlreadyUsed)
            } else {
                Ok((start, buffer.green.1))
            }
        },
    }
}

/// Whether something is the outcome of making a reference relative to its base.
pub open spec fn is_based_entry(
    tmps: StoreGlobals,
    buffer: CursorView,
    entry: EntityRelocationEntry,
    outcome: Result<Option<(Rewrite, ())>, FixupError>,
) -> bool {
    match instruction_range(buffer, entry) {
        Err(error) => outcome matches Err(e) && e == error,
        Ok((start, end)) => {
            let bytes = buffer.buffer.subrange(start, end);
            match instruction_of(bytes, operator_at(bytes, 0), memarg_at(bytes)) {
                Err(error) => outcome matches Err(e) && e == error,
                Ok(instruction) => match patch_of(tmps, entry, instruction) {
                    Err(error) => outcome matches Err(e) && e == error,
                    Ok((new_bytes, new_relocs)) => outcome matches Ok(Some((rewrite, _)))
                        && rewrite.old_range.start == start && rewrite.old_range.end == end
                        && rewrite.new_bytes@ == new_bytes && rewrite.new_relocs@ == new_relocs,
                },
            }
        },
    }
}

/// Makes a reference relative to its base.
fn new_entry(tmps: &StoreGlobals, buffer: Cursor<'_>, entry: &EntityRelocationEntry) -> (r: Result<
    Option<(Rewrite, ())>,
    FixupError,
>)
    requires
        0 <= buffer@.green.0 <= buffer@.green.1 <= buffer@.buffer.len(),
    ensures
        is_based_entry(*tmps, buffer@, *entry, r),
{
    let ix_size: usize = match entry.encoding {
        Encoding::Leb => 2,
        Encoding::Sleb => 1,
        Encoding::Fixed => {
            return Err(FixupError::UnsupportedEncoding);
        },
    };
    let mut buffer = buffer;
    if buffer.try_extend_before(ix_size).is_err() {
        return Err(FixupError::AlreadyUsed);
    }
    let instruction = match read_instruction(buffer.green_buf()) {
        Ok(instruction) => instruction,
        Err(error) => {
            return Err(error);
        },
    };
    match generate_patch(tmps, entry, instruction, buffer.green_range()) {
        Ok(rewrite) => Ok(Some((rewrite, ()))),
        Err(error) => Err(error),
    }
}

impl<S: IsSet> HandleFixups for CodeAbsToGot<S> {
    type EntityRef = FunctionRef;

    type ExtraData = ();

    open spec fn can_create(
        &self,
        entity: Temp<FunctionRef>,
        buffer: CursorView,
        snapshot: EntitiesSnapshot,
        entry: EntityRelocationEntry,
    ) -> bool {
        &&& self.global_tmps is Some
        &&& 0 <= buffer.green.0 <= buffer.green.1 <= buffer.buffer.len()
        &&& entry.symbol_id is DataSymbol || entry.symbol_id is Function ==> {
            &&& snapshot.fits()
            &&& snapshot.has(entry.symbol_id)
            &&& self.always_static_symbols.can_ask(
                FlatEntityRef { id: snapshot.flat(entry.symbol_id) as u32 },
            )
        }
    }

    /// References that cannot be made relative, and those to static entities, stay as they are.
    open spec fn is_entry(
        &self,
        entity: Temp<FunctionRef>,
        buffer: CursorView,
        input_file: (FileId, EntitiesSnapshot),
        entry: EntityRelocationEntry,
        outcome: Result<Option<(Rewrite, ())>, FixupError>,
    ) -> bool {
        if code_refusal(entry) is Some || !(entry.symbol_id is DataSymbol || entry.symbol_id is Function) {
            outcome matches Ok(None)
        } else {
            let flat = FlatEntityRef { id: input_file.1.flat(entry.symbol_id) as u32 };
            ||| self.always_static_symbols.answers(flat, true) && outcome matches Ok(None)
            ||| self.always_static_symbols.answers(flat, false) && is_based_entry(
                self.global_tmps->0,
                buffer,
                entry,
                outcome,
            )
        }
    }

    fn create_entry(
        &self,
        entity: Temp<FunctionRef>,
        buffer: Cursor<'_>,
        input_file: (FileId, &EntitiesSnapshot),
        entry: EntityRelocationEntry,
    ) -> (r: Result<Option<(Rewrite, ())>, FixupError>) {
        if check_whitelisted_code_relocation(&entry).is_err() {
            return Ok(None);
        }
        match entry.symbol_id {
            EntityKind::DataSymbol(_) | EntityKind::Function(_) => {
                if self.is_dyn_symbol(input_file.1, entry.symbol_id) {
                    let tmps = self.global_tmps.unwrap();
                    new_entry(&tmps, buffer, &entry)
                } else {
                    Ok(None)
                }
            },
            _ => Ok(None),
        }
    }
}

} // verus!
