//! What rewritten code does.
use crate::emit::modify::code_abs_to_got::{
    const_patch, const_relocs, has_tmps, memory_patch, memory_relocs, patch_of, stored_type,
    tmps_from, zero_expr, INVALID_U32, Instruction, StoreGlobals,
};
use crate::emit::modify::machine::{bits32, lemma_run_sum, reloc_at, Code, Machine, Value};
use crate::emit::modify::wasm_emitter::MemArg;
use crate::emit::modify::OutputEntityRef;
use crate::emit::relocation::encode::{
    fixed_leb, leb_range, lemma_fixed_leb_is_leb, lemma_fixed_leb_len, lemma_fixed_leb_roundtrip,
    lemma_leb_len,
};
use crate::index::TempIndex;
use crate::linkage::reloc::{Encoding, EntityAddressMode, EntityRelocationEntry, RelocationEntry};
use crate::typed::module::DefinedGlobal;
use crate::typed::types::ValType;
use crate::typed::{EntityKind, GlobalRef};
use vstd::prelude::*;

verus! {

/// The number that a relocation puts into an operand.
pub type OperandValue = spec_fn(OutputEntityRef, EntityAddressMode, int) -> int;

/// Whether a global of the machine holds values of a type, is not the base, and is what relocations
/// of its index stand for.
pub open spec fn is_tmp(
    machine: Machine,
    value: OperandValue,
    global: GlobalRef,
    ty: ValType,
    base: int,
) -> bool {
    &&& machine.globals.contains_key(global.id() as int)
    &&& machine.globals[global.id() as int].ty == ty
    &&& global.id() != base
    &&& value(
        OutputEntityRef::Resolved(EntityKind::Global(global)),
        EntityAddressMode::StaticIndex,
        0,
    ) == global.id()
}

/// Whether the machine can run code that is rewritten for an entity: it has the base of the entity,
/// and a global for values of each number type.
pub open spec fn can_run(
    machine: Machine,
    value: OperandValue,
    tmps: StoreGlobals,
    entity: EntityKind,
) -> bool {
    let base = value(
        OutputEntityRef::FromInput(entity),
        EntityAddressMode::BaseStaticIndex,
        0,
    );
    &&& machine.globals.contains_key(base)
    &&& machine.globals[base].ty is I32
    &&& is_tmp(machine, value, tmps.i32_tmp, ValType::I32, base)
    &&& is_tmp(machine, value, tmps.i64_tmp, ValType::I64, base)
    &&& is_tmp(machine, value, tmps.f32_tmp, ValType::F32, base)
    &&& is_tmp(machine, value, tmps.f64_tmp, ValType::F64, base)
}

/// The value of the base of an entity.
pub open spec fn base_value(machine: Machine, value: OperandValue, entity: EntityKind) -> int {
    machine.globals[value(
        OutputEntityRef::FromInput(entity),
        EntityAddressMode::BaseStaticIndex,
        0,
    )].bits
}

/// Where the parts of a rewritten load or store are.
proof fn lemma_memory_patch_parts(tmps: StoreGlobals, opcode: u8, memarg: MemArg)
    ensures
        ({
            let bytes = memory_patch(tmps, opcode, memarg);
            let at = if stored_type(opcode) is Some {
                19int
            } else {
                7
            };
            &&& bytes.len() == at + 1 + memarg.size()
            &&& bytes[at] == opcode
            &&& bytes.subrange(at + 1, bytes.len() as int) == memarg.bytes()
            &&& if stored_type(opcode) is Some {
                &&& bytes[0] == 0x24
                &&& bytes[6] == 0x23
                &&& bytes[12] == 0x6a
                &&& bytes[13] == 0x23
            } else {
                &&& bytes[0] == 0x23
                &&& bytes[6] == 0x6a
            }
        }),
{
    let bytes = memory_patch(tmps, opcode, memarg);
    lemma_fixed_leb_len(INVALID_U32 as int, 5);
    lemma_fixed_leb_len(memarg.align as int, 5);
    lemma_fixed_leb_len((memarg.align | 0x40) as int, 5);
    lemma_fixed_leb_len(memarg.memory_index as int, 5);
    lemma_fixed_leb_len(memarg.offset as int, 5);
    match stored_type(opcode) {
        Some(t) => {
            lemma_fixed_leb_len(tmps.of(t).id() as int, 5);
            assert(bytes.subrange(20, bytes.len() as int) =~= memarg.bytes());
        },
        None => {
            assert(bytes.subrange(8, bytes.len() as int) =~= memarg.bytes());
        },
    }
}

/// An operand without relocation is the number that stands there.
pub(crate) proof fn lemma_plain_operand<A, B>(code: Code<A, B>, at: int, number: int)
    requires
        0 <= number <= u32::MAX,
        0 <= at,
        at + 5 <= code.bytes.len(),
        code.bytes.subrange(at, at + 5) == fixed_leb(number, 5),
        reloc_at(code.relocs, at) is None,
    ensures
        code.operand(at, Encoding::Leb) == Some((number, 5nat)),
{
    reveal_with_fuel(leb_range, 6);
    lemma_fixed_leb_len(number, 5);
    lemma_fixed_leb_is_leb(number, 5);
    lemma_fixed_leb_roundtrip(number, 5);
    lemma_leb_len(code.bytes, at, fixed_leb(number, 5));
}

/// The argument of a rewritten load or store is read back, but for its offset, into which a
/// relocation puts a number.
proof fn lemma_rewritten_memarg(
    code: Code<OutputEntityRef, EntityAddressMode>,
    memarg: MemArg,
    at: int,
    offset: int,
)
    requires
        memarg.align < 64,
        0 <= at,
        at + memarg.size() == code.bytes.len(),
        code.bytes.subrange(at, code.bytes.len() as int) == memarg.bytes(),
        reloc_at(code.relocs, at) is None,
        memarg.memory_index != 0 ==> reloc_at(code.relocs, at + 5) is None,
        code.operand(code.bytes.len() - 5, Encoding::Leb) == Some((offset, 5nat)),
    ensures
        code.memarg(at) == Some(
            (
                memarg.align as int,
                memarg.memory_index as int,
                offset,
                code.bytes.len() as int,
            ),
        ),
{
    let held = code.bytes.subrange(at, code.bytes.len() as int);
    lemma_fixed_leb_len(memarg.align as int, 5);
    lemma_fixed_leb_len((memarg.align | 0x40) as int, 5);
    lemma_fixed_leb_len(memarg.memory_index as int, 5);
    if memarg.memory_index == 0 {
        assert(code.bytes.subrange(at, at + 5) =~= held.subrange(0, 5));
        assert(held.subrange(0, 5) =~= fixed_leb(memarg.align as int, 5));
        lemma_plain_operand(code, at, memarg.align as int);
    } else {
        let align = memarg.align;
        assert(align | 0x40 == align + 64) by (bit_vector)
            requires
                align < 64,
        ;
        assert(code.bytes.subrange(at, at + 5) =~= held.subrange(0, 5));
        assert(held.subrange(0, 5) =~= fixed_leb((align | 0x40) as int, 5));
        lemma_plain_operand(code, at, align + 64);
        assert(code.bytes.subrange(at + 5, at + 10) =~= held.subrange(5, 10));
        assert(held.subrange(5, 10) =~= fixed_leb(memarg.memory_index as int, 5));
        lemma_plain_operand(code, at + 5, memarg.memory_index as int);
    }
}

/// A load whose offset is the address of a data symbol is rewritten so that the base of the symbol
/// is added to the address on the stack before the load is executed. The alignment and the memory
/// stay, and the offset is the address of the symbol from its base on.
pub proof fn lemma_rewritten_load(
    machine: Machine,
    value: OperandValue,
    tmps: StoreGlobals,
    entry: EntityRelocationEntry,
    opcode: u8,
    memarg: MemArg,
)
    requires
        0x28 <= opcode <= 0x35,
        memarg.offset <= u32::MAX,
        memarg.align < 64,
        entry.symbol_id is DataSymbol,
        entry.encoding is Leb,
        entry.width is Bits32,
        can_run(machine, value, tmps, entry.symbol_id),
        machine.pc == 0,
        machine.stack.len() > 0,
        machine.stack.last().ty is I32,
    ensures
        patch_of(tmps, entry, Instruction::Memory { opcode, memarg }) matches Ok((bytes, relocs))
            && {
            let code = Code { bytes, relocs, value };
            &&& machine.run(code, 2) matches Some(ready)
            &&& bytes[ready.pc] == opcode
            &&& ready.stack == machine.stack.drop_last().push(
                Value {
                    ty: ValType::I32,
                    bits: bits32(
                        machine.stack.last().bits + base_value(machine, value, entry.symbol_id),
                    ),
                },
            )
            &&& ready.globals == machine.globals
            &&& code.memarg(ready.pc + 1) == Some(
                (
                    memarg.align as int,
                    memarg.memory_index as int,
                    value(
                        OutputEntityRef::FromInput(entry.symbol_id),
                        entry.symbol_op,
                        entry.addend as int,
                    ),
                    bytes.len() as int,
                ),
            )
        },
{
    reveal_with_fuel(Machine::run, 3);
    reveal_with_fuel(reloc_at, 4);
    let bytes = memory_patch(tmps, opcode, memarg);
    let relocs = memory_relocs(tmps, entry, opcode, memarg);
    let code = Code { bytes, relocs, value };
    assert(stored_type(opcode) is None);
    lemma_memory_patch_parts(tmps, opcode, memarg);
    assert(relocs.drop_last() =~= seq![relocs[0]]);
    assert(relocs.drop_last().drop_last() =~= Seq::empty());
    assert(relocs.drop_last().last() == relocs[0]);
    let first = machine.step(code)->0;
    let ready = first.step(code)->0;
    assert(ready.stack =~= machine.stack.drop_last().push(ready.stack.last()));
    lemma_rewritten_memarg(
        code,
        memarg,
        8,
        value(
            OutputEntityRef::FromInput(entry.symbol_id),
            entry.symbol_op,
            entry.addend as int,
        ),
    );
}

proof fn lemma_four_relocs<A, B>(relocs: Seq<RelocationEntry<A, B>>, last: int)
    requires
        relocs.len() == 4,
        relocs[0].offset == 1,
        relocs[1].offset == 7,
        relocs[2].offset == 14,
        relocs[3].offset == last,
        last > 20,
    ensures
        reloc_at(relocs, 1) == Some(relocs[0]),
        reloc_at(relocs, 7) == Some(relocs[1]),
        reloc_at(relocs, 14) == Some(relocs[2]),
        reloc_at(relocs, last) == Some(relocs[3]),
        reloc_at(relocs, 20) is None,
        last > 25 ==> reloc_at(relocs, 25) is None,
{
    reveal_with_fuel(reloc_at, 6);
    let three = relocs.drop_last();
    let two = three.drop_last();
    assert(three =~= seq![relocs[0], relocs[1], relocs[2]]);
    assert(two =~= seq![relocs[0], relocs[1]]);
    assert(two.drop_last() =~= seq![relocs[0]]);
    assert(two.drop_last().drop_last() =~= Seq::empty());
}

/// Saving a value, adding a base to what is below it and putting the value back.
proof fn lemma_add_below<A, B>(machine: Machine, code: Code<A, B>, tmp: int, base: int)
    requires
        code.bytes.len() > 19,
        code.bytes[0] == 0x24,
        code.bytes[6] == 0x23,
        code.bytes[12] == 0x6a,
        code.bytes[13] == 0x23,
        code.operand(1, Encoding::Leb) == Some((tmp, 5nat)),
        code.operand(7, Encoding::Leb) == Some((base, 5nat)),
        code.operand(14, Encoding::Leb) == Some((tmp, 5nat)),
        machine.pc == 0,
        machine.stack.len() > 1,
        machine.stack[machine.stack.len() - 2].ty is I32,
        machine.globals.contains_key(tmp),
        machine.globals[tmp].ty == machine.stack.last().ty,
        machine.globals.contains_key(base),
        machine.globals[base].ty is I32,
        base != tmp,
    ensures
        machine.run(code, 4) == Some(
            Machine {
                pc: 19,
                stack: machine.stack.take(machine.stack.len() - 2).push(
                    Value {
                        ty: ValType::I32,
                        bits: bits32(
                            machine.stack[machine.stack.len() - 2].bits
                                + machine.globals[base].bits,
                        ),
                    },
                ).push(machine.stack.last()),
                globals: machine.globals.insert(tmp, machine.stack.last()),
                ..machine
            },
        ),
{
    reveal_with_fuel(Machine::run, 5);
    let n = machine.stack.len() as int;
    let saved = machine.step(code)->0;
    let with_base = saved.step(code)->0;
    let added = with_base.step(code)->0;
    assert(added.stack =~= machine.stack.take(n - 2).push(added.stack.last()));
}

/// A store whose offset is the address of a data symbol is rewritten so that the base of the symbol
/// is added to the address on the stack before the store is executed, and the stored value is on
/// top of it as before. Only the global that held the value for a while changes. The alignment and
/// the memory stay, and the offset is the address of the symbol from its base on.
#[verifier::rlimit(60)]
#[verifier::spinoff_prover]
pub proof fn lemma_rewritten_store(
    machine: Machine,
    value: OperandValue,
    tmps: StoreGlobals,
    entry: EntityRelocationEntry,
    opcode: u8,
    memarg: MemArg,
)
    requires
        0x36 <= opcode <= 0x3e,
        memarg.offset <= u32::MAX,
        memarg.align < 64,
        entry.symbol_id is DataSymbol,
        entry.encoding is Leb,
        entry.width is Bits32,
        can_run(machine, value, tmps, entry.symbol_id),
        machine.pc == 0,
        machine.stack.len() > 1,
        machine.stack[machine.stack.len() - 2].ty is I32,
        match machine.stack.last().ty {
            ValType::I32 => opcode == 0x36 || opcode == 0x3a || opcode == 0x3b,
            ValType::I64 => opcode == 0x37 || 0x3c <= opcode <= 0x3e,
            ValType::F32 => opcode == 0x38,
            ValType::F64 => opcode == 0x39,
            _ => false,
        },
    ensures
        patch_of(tmps, entry, Instruction::Memory { opcode, memarg }) matches Ok((bytes, relocs))
            && {
            let code = Code { bytes, relocs, value };
            let n = machine.stack.len() as int;
            &&& machine.run(code, 4) matches Some(ready)
            &&& bytes[ready.pc] == opcode
            &&& ready.stack == machine.stack.take(n - 2).push(
                Value {
                    ty: ValType::I32,
                    bits: bits32(
                        machine.stack[n - 2].bits + base_value(machine, value, entry.symbol_id),
                    ),
                },
            ).push(machine.stack.last())
            &&& forall|global: int|
                global != tmps.i32_tmp.id() && global != tmps.i64_tmp.id() && global
                    != tmps.f32_tmp.id() && global != tmps.f64_tmp.id() ==> (
                ready.globals.contains_key(global) <==> machine.globals.contains_key(global))
                    && #[trigger] ready.globals[global] == machine.globals[global]
            &&& code.memarg(ready.pc + 1) == Some(
                (
                    memarg.align as int,
                    memarg.memory_index as int,
                    value(
                        OutputEntityRef::FromInput(entry.symbol_id),
                        entry.symbol_op,
                        entry.addend as int,
                    ),
                    bytes.len() as int,
                ),
            )
        },
{
    let bytes = memory_patch(tmps, opcode, memarg);
    let relocs = memory_relocs(tmps, entry, opcode, memarg);
    let code = Code { bytes, relocs, value };
    let base = value(
        OutputEntityRef::FromInput(entry.symbol_id),
        EntityAddressMode::BaseStaticIndex,
        0,
    );
    let store = stored_type(opcode);
    assert(store is Some);
    let tmp = tmps.of(store->0);
    assert(is_tmp(machine, value, tmp, machine.stack.last().ty, base));
    lemma_memory_patch_parts(tmps, opcode, memarg);
    lemma_four_relocs(relocs, (bytes.len() - 5) as int);
    lemma_add_below(machine, code, tmp.id() as int, base);
    lemma_rewritten_memarg(
        code,
        memarg,
        20,
        value(
            OutputEntityRef::FromInput(entry.symbol_id),
            entry.symbol_op,
            entry.addend as int,
        ),
    );
}

/// A constant that is an address is rewritten so that the address from its base on and the base are
/// added up. All instructions are executed, and nothing else changes.
pub proof fn lemma_rewritten_const(
    machine: Machine,
    value: OperandValue,
    tmps: StoreGlobals,
    entry: EntityRelocationEntry,
)
    requires
        entry.symbol_id is DataSymbol || entry.symbol_id is Function,
        entry.encoding is Sleb,
        entry.width is Bits32,
        can_run(machine, value, tmps, entry.symbol_id),
        machine.pc == 0,
    ensures
        patch_of(tmps, entry, Instruction::I32Const) matches Ok((bytes, relocs)) && machine.run(
            (Code { bytes, relocs, value }),
            3,
        ) == Some(
            Machine {
                pc: bytes.len() as int,
                stack: machine.stack.push(
                    Value {
                        ty: ValType::I32,
                        bits: bits32(
                            base_value(machine, value, entry.symbol_id) + bits32(
                                value(
                                    OutputEntityRef::FromInput(entry.symbol_id),
                                    entry.symbol_op,
                                    entry.addend as int,
                                ),
                            ),
                        ),
                    },
                ),
                ..machine
            },
        ),
{
    reveal_with_fuel(reloc_at, 4);
    let bytes = const_patch();
    let relocs = const_relocs(entry);
    let code = Code { bytes, relocs, value };
    lemma_fixed_leb_len(INVALID_U32 as int, 5);
    lemma_fixed_leb_len(0, 5);
    assert(bytes.len() == 13);
    assert(bytes[0] == 0x23);
    assert(bytes[6] == 0x41);
    assert(bytes[12] == 0x6a);
    assert(relocs.drop_last() =~= seq![relocs[0]]);
    assert(relocs.drop_last().drop_last() =~= Seq::empty());
    assert(relocs.drop_last().last() == relocs[0]);
    lemma_run_sum(
        machine,
        code,
        value(OutputEntityRef::FromInput(entry.symbol_id), EntityAddressMode::BaseStaticIndex, 0),
        value(
            OutputEntityRef::FromInput(entry.symbol_id),
            entry.symbol_op,
            entry.addend as int,
        ),
    );
}

/// Only loads and stores with an offset of 32 bits whose operand is a LEB128 number, and constants
/// whose operand is a signed one, are rewritten; addresses of functions only stand in constants.
pub proof fn lemma_rewritten_instructions(
    tmps: StoreGlobals,
    entry: EntityRelocationEntry,
    instruction: Instruction,
)
    ensures
        patch_of(tmps, entry, instruction) is Ok <==> match instruction {
            Instruction::Memory { memarg, .. } => entry.symbol_id is DataSymbol && entry.encoding
                is Leb && memarg.offset <= u32::MAX,
            Instruction::I32Const => (entry.symbol_id is DataSymbol || entry.symbol_id is Function)
                && entry.encoding is Sleb,
            Instruction::Other => false,
        },
{
}

/// The globals that hold values for a while have the types of these values, can be set, and start
/// as a constant of their type.
pub proof fn lemma_tmps_have_types(
    imports: nat,
    before: Seq<DefinedGlobal>,
    after: Seq<DefinedGlobal>,
)
    requires
        has_tmps(before, after),
        imports + before.len() + 3 <= u32::MAX,
    ensures
        ({
            let tmps = tmps_from(imports + before.len() as int);
            &&& is_variable(after[tmps.i32_tmp.id() - imports], ValType::I32, 0x41)
            &&& is_variable(after[tmps.i64_tmp.id() - imports], ValType::I64, 0x42)
            &&& is_variable(after[tmps.f32_tmp.id() - imports], ValType::F32, 0x43)
            &&& is_variable(after[tmps.f64_tmp.id() - imports], ValType::F64, 0x44)
        }),
{
    assert(zero_expr(ValType::I32).len() == 3);
    assert(zero_expr(ValType::F32).len() == 6);
    assert(zero_expr(ValType::F64).len() == 10);
}

/// Whether a global can be set, has a type, and starts as a constant with an opcode, of as many
/// bytes as such a constant has.
pub open spec fn is_variable(global: DefinedGlobal, ty: ValType, opcode: u8) -> bool {
    &&& global.entity_type.content_type == ty
    &&& global.entity_type.mutable
    &&& !global.entity_type.shared
    &&& global.body.emitted().len() == if ty is F32 {
        6int
    } else if ty is F64 {
        10
    } else {
        3
    }
    &&& global.body.emitted()[0] == opcode
    &&& global.body.emitted().last() == 0x0b
    &&& forall|i: int|
        1 <= i < global.body.emitted().len() - 1 ==> #[trigger] global.body.emitted()[i] == 0
}

} // verus!
