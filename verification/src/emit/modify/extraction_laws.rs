//! What code does after addresses were taken out of it, and what the function does that writes
//! addresses into data.
use crate::emit::modify::code_abs_to_got::{stored_type, StoreGlobals};
use crate::emit::modify::constant_extraction::{
    extracted_const, extracted_memory, get_bytes, memarg_bytes, set_bytes,
};
use crate::emit::modify::machine::{bits32, lemma_run_on, lemma_run_store, Code, Machine, Value};
use crate::emit::modify::start_fn_gen::{all_init_code, init_code, place_bytes, store_memarg};
use crate::emit::modify::wasm_emitter::MemArg;
use crate::emit::object::relocate::Place;
use crate::emit::object::OutputGlobalId;
use crate::emit::relocation::encode::{
    lemma_leb_len, lemma_sleb_roundtrip, lemma_uleb_roundtrip, sleb, uleb,
};
use crate::index::TempIndex;
use crate::linkage::reloc::Encoding;
use crate::typed::types::ValType;
use crate::typed::GlobalRef;
use vstd::prelude::*;

verus! {

/// Code in which no operand is relocated.
pub open spec fn plain_code(bytes: Seq<u8>) -> Code<(), ()> {
    Code { bytes, relocs: Seq::empty(), value: |index: (), op: (), addend: int| 0 }
}

/// Whether bytes stand at a place.
spec fn holds(code: Code<(), ()>, at: int, part: Seq<u8>) -> bool {
    &&& code.relocs.len() == 0
    &&& 0 <= at
    &&& at + part.len() <= code.bytes.len()
    &&& code.bytes.subrange(at, at + part.len()) == part
}

proof fn lemma_parts(code: Code<(), ()>, at: int, a: Seq<u8>, b: Seq<u8>)
    requires
        holds(code, at, a + b),
    ensures
        holds(code, at, a),
        holds(code, at + a.len(), b),
{
    let held = code.bytes.subrange(at, at + a.len() + b.len());
    assert(code.bytes.subrange(at, at + a.len()) =~= held.take(a.len() as int));
    assert((a + b).take(a.len() as int) =~= a);
    assert(code.bytes.subrange(at + a.len(), at + a.len() + b.len()) =~= held.skip(
        a.len() as int,
    ));
    assert((a + b).skip(a.len() as int) =~= b);
}

proof fn lemma_first(code: Code<(), ()>, at: int, opcode: u8, rest: Seq<u8>)
    requires
        holds(code, at, seq![opcode] + rest),
    ensures
        at < code.bytes.len(),
        code.bytes[at] == opcode,
        holds(code, at + 1, rest),
{
    lemma_parts(code, at, seq![opcode], rest);
    assert(code.bytes.subrange(at, at + 1)[0] == code.bytes[at]);
}

proof fn lemma_number(code: Code<(), ()>, at: int, value: nat)
    requires
        holds(code, at, uleb(value)),
    ensures
        code.operand(at, Encoding::Leb) == Some((value as int, uleb(value).len())),
{
    lemma_uleb_roundtrip(value);
    lemma_leb_len(code.bytes, at, uleb(value));
}

proof fn lemma_signed(code: Code<(), ()>, at: int, value: int)
    requires
        holds(code, at, sleb(value)),
    ensures
        code.operand(at, Encoding::Sleb) == Some((value, sleb(value).len())),
{
    lemma_sleb_roundtrip(value);
    lemma_leb_len(code.bytes, at, sleb(value));
}

proof fn lemma_get(machine: Machine, code: Code<(), ()>, global: nat)
    requires
        holds(code, machine.pc, get_bytes(global as int)),
        machine.globals.contains_key(global as int),
    ensures
        machine.run(code, 1) == Some(
            machine.push(
                machine.globals[global as int],
                machine.pc + get_bytes(global as int).len(),
            ),
        ),
{
    reveal_with_fuel(Machine::run, 2);
    lemma_first(code, machine.pc, 0x23, uleb(global));
    lemma_number(code, machine.pc + 1, global);
}

proof fn lemma_set(machine: Machine, code: Code<(), ()>, global: nat)
    requires
        holds(code, machine.pc, set_bytes(global as int)),
        machine.globals.contains_key(global as int),
        machine.stack.len() > 0,
        machine.globals[global as int].ty == machine.stack.last().ty,
    ensures
        machine.run(code, 1) == Some(
            Machine {
                pc: machine.pc + set_bytes(global as int).len(),
                stack: machine.stack.drop_last(),
                globals: machine.globals.insert(global as int, machine.stack.last()),
                ..machine
            },
        ),
{
    reveal_with_fuel(Machine::run, 2);
    lemma_first(code, machine.pc, 0x24, uleb(global));
    lemma_number(code, machine.pc + 1, global);
}

proof fn lemma_const(machine: Machine, code: Code<(), ()>, value: int)
    requires
        holds(code, machine.pc, seq![0x41u8] + sleb(value)),
    ensures
        machine.run(code, 1) == Some(
            machine.push(
                Value { ty: ValType::I32, bits: bits32(value) },
                machine.pc + 1 + sleb(value).len(),
            ),
        ),
{
    reveal_with_fuel(Machine::run, 2);
    lemma_first(code, machine.pc, 0x41, sleb(value));
    lemma_signed(code, machine.pc + 1, value);
}

proof fn lemma_add(machine: Machine, code: Code<(), ()>, stack: Seq<Value>, a: int, b: int)
    requires
        holds(code, machine.pc, seq![0x6au8]),
        machine.stack == stack.push(Value { ty: ValType::I32, bits: a }).push(
            Value { ty: ValType::I32, bits: b },
        ),
    ensures
        machine.run(code, 1) == Some(
            Machine {
                pc: machine.pc + 1,
                stack: stack.push(Value { ty: ValType::I32, bits: bits32(a + b) }),
                ..machine
            },
        ),
{
    reveal_with_fuel(Machine::run, 2);
    assert(code.bytes.subrange(machine.pc, machine.pc + 1)[0] == code.bytes[machine.pc]);
    assert(machine.stack.take(machine.stack.len() - 2) =~= stack);
}

/// Whether the machine has a global for addresses.
pub open spec fn has_global(machine: Machine, global: OutputGlobalId) -> bool {
    machine.globals.contains_key(global.id as int) && machine.globals[global.id as int].ty is I32
}

/// The address that a place stands for at run time: the value of a global, if there is one, plus a
/// constant.
pub open spec fn address_at(machine: Machine, place: Place) -> int {
    match place.0 {
        Some(global) => bits32(machine.globals[global.id as int].bits + bits32(place.1)),
        None => bits32(place.1),
    }
}

spec fn place_steps(place: Place) -> nat {
    if place.0 is Some {
        3
    } else {
        1
    }
}

/// The instructions for a place compute its address.
proof fn lemma_place_runs(machine: Machine, code: Code<(), ()>, place: Place)
    requires
        holds(code, machine.pc, place_bytes(place)),
        place.0 matches Some(global) ==> has_global(machine, global),
    ensures
        machine.run(code, place_steps(place)) == Some(
            machine.push(
                Value { ty: ValType::I32, bits: address_at(machine, place) },
                machine.pc + place_bytes(place).len(),
            ),
        ),
{
    let constant = seq![0x41u8] + sleb(place.1);
    match place.0 {
        Some(global) => {
            let get = get_bytes(global.id as int);
            let bits = machine.globals[global.id as int].bits;
            lemma_parts(code, machine.pc, get + constant, seq![0x6au8]);
            lemma_parts(code, machine.pc, get, constant);
            lemma_get(machine, code, global.id as nat);
            let got = machine.push(machine.globals[global.id as int], machine.pc + get.len());
            lemma_const(got, code, place.1);
            let both = got.push(
                Value { ty: ValType::I32, bits: bits32(place.1) },
                got.pc + constant.len(),
            );
            lemma_run_on(machine, code, 1, 1);
            lemma_add(both, code, machine.stack, bits, bits32(place.1));
            lemma_run_on(machine, code, 2, 1);
        },
        None => {
            lemma_const(machine, code, place.1);
        },
    }
}

/// The argument of a load or store is read back.
proof fn lemma_memarg(code: Code<(), ()>, at: int, memarg: MemArg)
    requires
        holds(code, at, memarg_bytes(memarg)),
        memarg.align < 64,
    ensures
        code.memarg(at) == Some(
            (
                memarg.align as int,
                memarg.memory_index as int,
                memarg.offset as int,
                at + memarg_bytes(memarg).len(),
            ),
        ),
{
    let align = memarg.align;
    let offset = uleb(memarg.offset as nat);
    if memarg.memory_index == 0 {
        lemma_parts(code, at, uleb(align as nat), offset);
        lemma_number(code, at, align as nat);
        lemma_number(code, at + uleb(align as nat).len(), memarg.offset as nat);
    } else {
        let flags = uleb((align | 64) as nat);
        let memory = uleb(memarg.memory_index as nat);
        assert(align | 64 == align + 64) by (bit_vector)
            requires
                align < 64,
        ;
        lemma_parts(code, at, flags + memory, offset);
        lemma_parts(code, at, flags, memory);
        lemma_number(code, at, (align | 64) as nat);
        lemma_number(code, at + flags.len(), memarg.memory_index as nat);
        lemma_number(code, at + flags.len() + memory.len(), memarg.offset as nat);
    }
}

/// A constant that was an address is the sum of a base and the address from there on.
pub proof fn lemma_extracted_const(machine: Machine, got: OutputGlobalId, value: i64)
    requires
        machine.pc == 0,
        has_global(machine, got),
        0 <= value <= u32::MAX,
    ensures
        machine.run(plain_code(extracted_const(got, value)), 3) == Some(
            machine.push(
                Value {
                    ty: ValType::I32,
                    bits: bits32(machine.globals[got.id as int].bits + value),
                },
                extracted_const(got, value).len() as int,
            ),
        ),
{
    let bytes = extracted_const(got, value);
    let code = plain_code(bytes);
    let place: Place = (Some(got), (value as i32) as int);
    assert(bytes.subrange(0, bytes.len() as int) =~= bytes);
    assert(bytes == place_bytes(place));
    lemma_place_runs(machine, code, place);
    assert((value as i32) as i64 == value || (value as i32) as i64 == value - 0x1_0000_0000)
        by (bit_vector)
        requires
            0 <= value <= 0xffff_ffff,
    ;
}

/// Whether a global of the machine holds values of a type, and is not the base.
pub open spec fn is_tmp(machine: Machine, global: GlobalRef, ty: ValType, base: OutputGlobalId) -> bool {
    &&& machine.globals.contains_key(global.id() as int)
    &&& machine.globals[global.id() as int].ty == ty
    &&& global.id() != base.id
}

/// The bytes of an instruction that reads or writes a memory.
spec fn access_bytes(opcode: u8, memarg: MemArg) -> Seq<u8> {
    seq![opcode] + memarg_bytes(memarg)
}

/// Whether the machine stands at an instruction with an argument and at the end of the code after
/// that.
pub open spec fn stands_at(
    machine: Machine,
    code: Code<(), ()>,
    opcode: u8,
    memarg: MemArg,
) -> bool {
    &&& 0 <= machine.pc < code.bytes.len()
    &&& code.bytes[machine.pc] == opcode
    &&& code.memarg(machine.pc + 1) == Some(
        (
            memarg.align as int,
            memarg.memory_index as int,
            memarg.offset as int,
            code.bytes.len() as int,
        ),
    )
}

proof fn lemma_stands_at(machine: Machine, code: Code<(), ()>, opcode: u8, memarg: MemArg)
    requires
        holds(code, machine.pc, access_bytes(opcode, memarg)),
        machine.pc + access_bytes(opcode, memarg).len() == code.bytes.len(),
        memarg.align < 64,
    ensures
        stands_at(machine, code, opcode, memarg),
{
    lemma_first(code, machine.pc, opcode, memarg_bytes(memarg));
    lemma_memarg(code, machine.pc + 1, memarg);
}

/// The base is added to an address on top of the stack.
proof fn lemma_sum_runs(machine: Machine, code: Code<(), ()>, got: OutputGlobalId)
    requires
        holds(code, machine.pc, get_bytes(got.id as int) + seq![0x6au8]),
        has_global(machine, got),
        machine.stack.len() > 0,
        machine.stack.last().ty is I32,
    ensures
        machine.run(code, 2) == Some(
            Machine {
                pc: machine.pc + get_bytes(got.id as int).len() + 1,
                stack: machine.stack.drop_last().push(
                    Value {
                        ty: ValType::I32,
                        bits: bits32(
                            machine.stack.last().bits + machine.globals[got.id as int].bits,
                        ),
                    },
                ),
                ..machine
            },
        ),
{
    let get = get_bytes(got.id as int);
    let base = machine.globals[got.id as int];
    let address = machine.stack.last();
    let rest = machine.stack.drop_last();
    lemma_parts(code, machine.pc, get, seq![0x6au8]);
    lemma_get(machine, code, got.id as nat);
    let with_base = machine.push(base, machine.pc + get.len());
    assert(with_base.stack =~= rest.push(address).push(base));
    lemma_add(with_base, code, rest, address.bits, base.bits);
    lemma_run_on(machine, code, 1, 1);
}

/// A load whose offset was an address adds the base to the address on the stack, and has the
/// address from there on in its offset.
pub proof fn lemma_extracted_load(
    machine: Machine,
    tmps: StoreGlobals,
    got: OutputGlobalId,
    value: i64,
    opcode: u8,
    memarg: MemArg,
)
    requires
        0x28 <= opcode <= 0x35,
        memarg.align < 64,
        0 <= value,
        machine.pc == 0,
        has_global(machine, got),
        machine.stack.len() > 0,
        machine.stack.last().ty is I32,
    ensures
        ({
            let code = plain_code(extracted_memory(tmps, got, value, opcode, memarg));
            &&& machine.run(code, 2) matches Some(ready)
            &&& stands_at(ready, code, opcode, MemArg { offset: value as u64, ..memarg })
            &&& ready.stack == machine.stack.drop_last().push(
                Value {
                    ty: ValType::I32,
                    bits: bits32(
                        machine.stack.last().bits + machine.globals[got.id as int].bits,
                    ),
                },
            )
            &&& ready.globals == machine.globals
        }),
{
    let bytes = extracted_memory(tmps, got, value, opcode, memarg);
    let code = plain_code(bytes);
    let sum = get_bytes(got.id as int) + seq![0x6au8];
    let moved = MemArg { offset: value as u64, ..memarg };
    let access = access_bytes(opcode, moved);
    assert(stored_type(opcode) is None);
    assert(bytes =~= sum + access);
    assert(bytes.subrange(0, bytes.len() as int) =~= bytes);
    lemma_parts(code, 0, sum, access);
    lemma_sum_runs(machine, code, got);
    lemma_stands_at(machine.run(code, 2)->0, code, opcode, moved);
}

/// A store whose offset was an address adds the base to the address on the stack below the stored
/// value, and has the address from there on in its offset. Only the global that held the value for
/// a while changes.
pub proof fn lemma_extracted_store(
    machine: Machine,
    tmps: StoreGlobals,
    got: OutputGlobalId,
    value: i64,
    opcode: u8,
    memarg: MemArg,
)
    requires
        0x36 <= opcode <= 0x3e,
        memarg.align < 64,
        0 <= value,
        machine.pc == 0,
        has_global(machine, got),
        is_tmp(machine, tmps.i32_tmp, ValType::I32, got),
        is_tmp(machine, tmps.i64_tmp, ValType::I64, got),
        is_tmp(machine, tmps.f32_tmp, ValType::F32, got),
        is_tmp(machine, tmps.f64_tmp, ValType::F64, got),
        machine.stack.len() > 1,
        machine.stack[machine.stack.len() - 2].ty is I32,
        match machine.stack.last().ty {
            ValType::I32 => opcode == 0x36 || opcode == 0x3a || opcode == 0x3b,
            ValType::I64 => opcode == 0x37 || 0x3c <= opcode <= 0x3e,
            ValType::F32 => opcode == 0x38,
            ValType::F64 => opcode == 0x39,
            _ => false,
        },
    ensures
        ({
            let code = plain_code(extracted_memory(tmps, got, value, opcode, memarg));
            let n = machine.stack.len() as int;
            &&& machine.run(code, 4) matches Some(ready)
            &&& stands_at(ready, code, opcode, MemArg { offset: value as u64, ..memarg })
            &&& ready.stack == machine.stack.take(n - 2).push(
                Value {
                    ty: ValType::I32,
                    bits: bits32(
                        machine.stack[n - 2].bits + machine.globals[got.id as int].bits,
                    ),
                },
            ).push(machine.stack.last())
            &&& forall|global: int|
                global != tmps.of(stored_type(opcode)->0).id() ==> #[trigger] ready.globals.get(
                    global,
                ) == machine.globals.get(global)
        }),
{
    let store = stored_type(opcode);
    assert(store is Some);
    let tmp = tmps.of(store->0);
    assert(is_tmp(machine, tmp, machine.stack.last().ty, got));
    lemma_extracted_store_parts(machine, tmps, got, value, opcode, memarg, tmp);
}

proof fn lemma_extracted_store_parts(
    machine: Machine,
    tmps: StoreGlobals,
    got: OutputGlobalId,
    value: i64,
    opcode: u8,
    memarg: MemArg,
    tmp: GlobalRef,
)
    requires
        memarg.align < 64,
        0 <= value,
        machine.pc == 0,
        has_global(machine, got),
        stored_type(opcode) matches Some(t) && tmps.of(t) == tmp,
        is_tmp(machine, tmp, machine.stack.last().ty, got),
        machine.stack.len() > 1,
        machine.stack[machine.stack.len() - 2].ty is I32,
    ensures
        ({
            let code = plain_code(extracted_memory(tmps, got, value, opcode, memarg));
            let n = machine.stack.len() as int;
            &&& machine.run(code, 4) matches Some(ready)
            &&& stands_at(ready, code, opcode, MemArg { offset: value as u64, ..memarg })
            &&& ready.stack == machine.stack.take(n - 2).push(
                Value {
                    ty: ValType::I32,
                    bits: bits32(
                        machine.stack[n - 2].bits + machine.globals[got.id as int].bits,
                    ),
                },
            ).push(machine.stack.last())
            &&& forall|global: int|
                global != tmps.of(stored_type(opcode)->0).id() ==> #[trigger] ready.globals.get(
                    global,
                ) == machine.globals.get(global)
        }),
{
    let bytes = extracted_memory(tmps, got, value, opcode, memarg);
    let code = plain_code(bytes);
    let n = machine.stack.len() as int;
    let save = set_bytes(tmp.id() as int);
    let sum = get_bytes(got.id as int) + seq![0x6au8];
    let restore = get_bytes(tmp.id() as int);
    let moved = MemArg { offset: value as u64, ..memarg };
    let access = access_bytes(opcode, moved);
    assert(bytes =~= save + (sum + (restore + access)));
    assert(bytes.subrange(0, bytes.len() as int) =~= bytes);
    lemma_parts(code, 0, save, sum + (restore + access));
    lemma_parts(code, save.len() as int, sum, restore + access);
    lemma_parts(code, (save.len() + sum.len()) as int, restore, access);
    lemma_store_runs(machine, code, tmp, got);
    lemma_stands_at(machine.run(code, 4)->0, code, opcode, moved);
}

/// The base is added to an address below the top of the stack.
proof fn lemma_store_runs(
    machine: Machine,
    code: Code<(), ()>,
    tmp: GlobalRef,
    got: OutputGlobalId,
)
    requires
        ({
            let save = set_bytes(tmp.id() as int);
            let sum = get_bytes(got.id as int) + seq![0x6au8];
            &&& holds(code, machine.pc, save)
            &&& holds(code, machine.pc + save.len(), sum)
            &&& holds(code, machine.pc + save.len() + sum.len(), get_bytes(tmp.id() as int))
        }),
        has_global(machine, got),
        is_tmp(machine, tmp, machine.stack.last().ty, got),
        machine.stack.len() > 1,
        machine.stack[machine.stack.len() - 2].ty is I32,
    ensures
        ({
            let n = machine.stack.len() as int;
            machine.run(code, 4) == Some(
                Machine {
                    pc: machine.pc + set_bytes(tmp.id() as int).len() + get_bytes(
                        got.id as int,
                    ).len() + 1 + get_bytes(tmp.id() as int).len(),
                    stack: machine.stack.take(n - 2).push(
                        Value {
                            ty: ValType::I32,
                            bits: bits32(
                                machine.stack[n - 2].bits + machine.globals[got.id as int].bits,
                            ),
                        },
                    ).push(machine.stack.last()),
                    globals: machine.globals.insert(tmp.id() as int, machine.stack.last()),
                    ..machine
                },
            )
        }),
{
    let n = machine.stack.len() as int;
    lemma_set(machine, code, tmp.id() as nat);
    let saved = machine.run(code, 1)->0;
    assert(saved.stack.drop_last() =~= machine.stack.take(n - 2));
    lemma_sum_runs(saved, code, got);
    let added = saved.run(code, 2)->0;
    lemma_get(added, code, tmp.id() as nat);
    lemma_run_on(machine, code, 1, 2);
    lemma_run_on(machine, code, 3, 1);
}

/// What is stored for an address: into a memory, at an address, another address.
pub open spec fn stored_address(machine: Machine, memory: int, places: (Place, Place)) -> (
    int,
    int,
    int,
) {
    (memory, address_at(machine, places.0), address_at(machine, places.1))
}

/// Whether the machine has the globals that places are relative to.
pub open spec fn has_globals(machine: Machine, places: (Place, Place)) -> bool {
    &&& places.0.0 matches Some(global) ==> has_global(machine, global)
    &&& places.1.0 matches Some(global) ==> has_global(machine, global)
}

spec fn code_steps(places: Seq<(Place, Place)>) -> nat
    decreases places.len(),
{
    if places.len() == 0 {
        0
    } else {
        code_steps(places.drop_last()) + place_steps(places.last().0) + place_steps(
            places.last().1,
        ) + 1
    }
}

proof fn lemma_init_code_runs(
    machine: Machine,
    code: Code<(), ()>,
    memory_index: u32,
    places: (Place, Place),
)
    requires
        holds(code, machine.pc, init_code(memory_index, places)),
        has_globals(machine, places),
    ensures
        machine.run(code, place_steps(places.0) + place_steps(places.1) + 1) == Some(
            Machine {
                pc: machine.pc + init_code(memory_index, places).len(),
                stores: machine.stores.push(
                    stored_address(machine, memory_index as int, places),
                ),
                ..machine
            },
        ),
{
    let first = place_bytes(places.0);
    let second = place_bytes(places.1);
    let argument = memarg_bytes(store_memarg(memory_index));
    let store = seq![0x36u8] + argument;
    lemma_parts(code, machine.pc, first + second, store);
    lemma_parts(code, machine.pc, first, second);
    lemma_place_runs(machine, code, places.0);
    let addressed = machine.run(code, place_steps(places.0))->0;
    lemma_place_runs(addressed, code, places.1);
    let ready = addressed.run(code, place_steps(places.1))->0;
    lemma_first(code, ready.pc, 0x36, argument);
    lemma_memarg(code, ready.pc + 1, store_memarg(memory_index));
    let (_, address, held) = stored_address(machine, memory_index as int, places);
    lemma_run_store(
        ready,
        code,
        machine.stack,
        address,
        held,
        (
            store_memarg(memory_index).align as int,
            memory_index as int,
            0,
            ready.pc + 1 + argument.len(),
        ),
    );
    lemma_run_on(machine, code, place_steps(places.0), place_steps(places.1));
    lemma_run_on(machine, code, place_steps(places.0) + place_steps(places.1), 1);
}

proof fn lemma_all_init_code_runs(
    machine: Machine,
    code: Code<(), ()>,
    memory_index: u32,
    places: Seq<(Place, Place)>,
)
    requires
        holds(code, machine.pc, all_init_code(memory_index, places)),
        forall|i: int| 0 <= i < places.len() ==> has_globals(machine, #[trigger] places[i]),
    ensures
        machine.run(code, code_steps(places)) == Some(
            Machine {
                pc: machine.pc + all_init_code(memory_index, places).len(),
                stores: machine.stores + places.map_values(
                    |place: (Place, Place)| stored_address(machine, memory_index as int, place),
                ),
                ..machine
            },
        ),
    decreases places.len(),
{
    let all = places.map_values(
        |place: (Place, Place)| stored_address(machine, memory_index as int, place),
    );
    if places.len() == 0 {
        assert(machine.stores + all =~= machine.stores);
    } else {
        let init = places.drop_last();
        let last = places.last();
        lemma_parts(
            code,
            machine.pc,
            all_init_code(memory_index, init),
            init_code(memory_index, last),
        );
        assert forall|i: int| 0 <= i < init.len() implies has_globals(
            machine,
            #[trigger] init[i],
        ) by {
            assert(has_globals(machine, places[i]));
        }
        lemma_all_init_code_runs(machine, code, memory_index, init);
        let before = machine.run(code, code_steps(init))->0;
        assert(has_globals(machine, places[places.len() - 1]));
        lemma_init_code_runs(before, code, memory_index, last);
        let steps = place_steps(last.0) + place_steps(last.1) + 1;
        lemma_run_on(machine, code, code_steps(init), steps);
        assert(before.stores.push(stored_address(machine, memory_index as int, last))
            =~= machine.stores + all);
    }
}

/// The instructions of the function that writes addresses into data store every address at its
/// place, in order, and change nothing else.
pub proof fn lemma_written_addresses(
    machine: Machine,
    memory_index: u32,
    places: Seq<(Place, Place)>,
)
    requires
        machine.pc == 0,
        forall|i: int| 0 <= i < places.len() ==> has_globals(machine, #[trigger] places[i]),
    ensures
        exists|steps: nat|
            #[trigger] machine.run(plain_code(all_init_code(memory_index, places)), steps) == Some(
                Machine {
                    pc: all_init_code(memory_index, places).len() as int,
                    stores: machine.stores + places.map_values(
                        |place: (Place, Place)| stored_address(machine, memory_index as int, place),
                    ),
                    ..machine
                },
            ),
{
    let bytes = all_init_code(memory_index, places);
    assert(bytes.subrange(0, bytes.len() as int) =~= bytes);
    lemma_all_init_code_runs(machine, plain_code(bytes), memory_index, places);
    assert(machine.run(plain_code(bytes), code_steps(places)) is Some);
}

} // verus!
