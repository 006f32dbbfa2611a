//! What the function does that writes addresses into data.
use crate::emit::modify::code_laws::lemma_plain_operand;
use crate::emit::modify::data_abs_to_got::{
    address_reloc, base_reloc, init_bytes, init_relocs, inits_bytes, start_fn_bytes,
    start_fn_relocs, store_arg, FinalDataSymbolInit,
};
use crate::emit::modify::machine::{
    bits32, lemma_reloc_at_concat, lemma_run_const, lemma_run_on, lemma_run_store, lemma_run_sum,
    reloc_at, Code, Machine, Value,
};
use crate::emit::relocation::encode::{fixed_leb, lemma_fixed_leb_len};
use crate::linkage::reloc::{Encoding, EntityAddressMode};
use crate::typed::types::ValType;
use crate::typed::EntityKind;
use vstd::prelude::*;

verus! {

/// The number that a relocation puts into an operand.
pub type EntityValue = spec_fn(EntityKind, EntityAddressMode, int) -> int;

/// Whether the machine has the base of an entity.
pub open spec fn has_base(machine: Machine, value: EntityValue, entity: EntityKind) -> bool {
    let base = value(entity, EntityAddressMode::BaseStaticIndex, 0);
    machine.globals.contains_key(base) && machine.globals[base].ty is I32
}

/// The address of an entity at run time: its base plus its address from there on.
pub open spec fn based_address(machine: Machine, value: EntityValue, entity: EntityKind) -> int {
    bits32(
        machine.globals[value(entity, EntityAddressMode::BaseStaticIndex, 0)].bits + bits32(
            value(entity, EntityAddressMode::RuntimeAddr, 0),
        ),
    )
}

/// What is stored for an init: into the first memory, at the address of the data symbol, the
/// address of the entity.
pub open spec fn stored(machine: Machine, value: EntityValue, init: FinalDataSymbolInit) -> (
    int,
    int,
    int,
) {
    (
        0,
        based_address(machine, value, EntityKind::DataSymbol(init.storage)),
        if init.is_got_based {
            based_address(machine, value, init.relocated_symbol)
        } else {
            bits32(value(init.relocated_symbol, EntityAddressMode::RuntimeAddr, 0))
        },
    )
}

/// Whether the machine has the bases that inits need.
pub open spec fn has_bases(
    machine: Machine,
    value: EntityValue,
    inits: Seq<FinalDataSymbolInit>,
) -> bool {
    forall|i: int|
        0 <= i < inits.len() ==> {
            let init = #[trigger] inits[i];
            &&& has_base(machine, value, EntityKind::DataSymbol(init.storage))
            &&& init.is_got_based ==> has_base(machine, value, init.relocated_symbol)
        }
}

/// Number of instructions of an init.
spec fn init_steps(init: FinalDataSymbolInit) -> nat {
    if init.is_got_based {
        7
    } else {
        5
    }
}

spec fn inits_steps(inits: Seq<FinalDataSymbolInit>) -> nat
    decreases inits.len(),
{
    if inits.len() == 0 {
        0
    } else {
        inits_steps(inits.drop_last()) + init_steps(inits.last())
    }
}

/// Where the instructions and the relocations of an init are.
proof fn lemma_init_parts(init: FinalDataSymbolInit, at: int)
    requires
        0 <= at,
        at + 37 <= u32::MAX,
    ensures
        ({
            let bytes = init_bytes(init);
            let relocs = init_relocs(init, at);
            let storage = EntityKind::DataSymbol(init.storage);
            let end = bytes.len() - 11;
            &&& bytes.len() == if init.is_got_based {
                37int
            } else {
                30
            }
            &&& bytes[0] == 0x23
            &&& bytes[6] == 0x41
            &&& bytes[12] == 0x6a
            &&& reloc_at(relocs, at + 1) == Some(base_reloc(at + 1, storage))
            &&& reloc_at(relocs, at + 7) == Some(address_reloc(at + 7, storage, true))
            &&& if init.is_got_based {
                &&& bytes[13] == 0x23
                &&& bytes[19] == 0x41
                &&& bytes[25] == 0x6a
                &&& reloc_at(relocs, at + 14) == Some(base_reloc(at + 14, init.relocated_symbol))
                &&& reloc_at(relocs, at + 20) == Some(
                    address_reloc(at + 20, init.relocated_symbol, true),
                )
            } else {
                &&& bytes[13] == 0x41
                &&& reloc_at(relocs, at + 14) == Some(
                    address_reloc(at + 14, init.relocated_symbol, false),
                )
            }
            &&& bytes[end] == 0x36
            &&& bytes.subrange(end + 1, end + 6) == fixed_leb(store_arg().align as int, 5)
            &&& bytes.subrange(end + 6, end + 11) == fixed_leb(0, 5)
            &&& reloc_at(relocs, at + end + 1) is None
            &&& reloc_at(relocs, at + end + 6) is None
        }),
{
    reveal_with_fuel(reloc_at, 6);
    let bytes = init_bytes(init);
    let relocs = init_relocs(init, at);
    lemma_fixed_leb_len(store_arg().align as int, 5);
    lemma_fixed_leb_len(0, 5);
    let end = if init.is_got_based {
        26int
    } else {
        19
    };
    assert(bytes.subrange(end + 1, end + 6) =~= fixed_leb(store_arg().align as int, 5));
    assert(bytes.subrange(end + 6, end + 11) =~= fixed_leb(0, 5));
    if init.is_got_based {
        assert(relocs.drop_last() =~= seq![relocs[0], relocs[1], relocs[2]]);
        assert(relocs.drop_last().drop_last() =~= seq![relocs[0], relocs[1]]);
        assert(relocs.drop_last().drop_last().drop_last() =~= seq![relocs[0]]);
        assert(relocs.drop_last().drop_last().drop_last().drop_last() =~= Seq::empty());
    } else {
        assert(relocs.drop_last() =~= seq![relocs[0], relocs[1]]);
        assert(relocs.drop_last().drop_last() =~= seq![relocs[0]]);
        assert(relocs.drop_last().drop_last().drop_last() =~= Seq::empty());
    }
}

/// Whether the instructions of an init stand at a place.
#[verifier::opaque]
spec fn stands_at(
    code: Code<EntityKind, EntityAddressMode>,
    init: FinalDataSymbolInit,
    at: int,
) -> bool {
    &&& 0 <= at
    &&& at + 37 <= u32::MAX
    &&& at + init_bytes(init).len() <= code.bytes.len()
    &&& code.bytes.subrange(at, at + init_bytes(init).len()) == init_bytes(init)
    &&& forall|p: int|
        at <= p < at + init_bytes(init).len() ==> #[trigger] reloc_at(code.relocs, p) == reloc_at(
            init_relocs(init, at),
            p,
        )
}

/// The instructions of an init and their operands.
proof fn lemma_init_operands(
    code: Code<EntityKind, EntityAddressMode>,
    init: FinalDataSymbolInit,
    at: int,
)
    requires
        stands_at(code, init, at),
    ensures
        ({
            let storage = EntityKind::DataSymbol(init.storage);
            let value = code.value;
            let len = init_bytes(init).len() as int;
            let end = at + len - 11;
            &&& 0 <= at
            &&& at + len <= code.bytes.len()
            &&& len == if init.is_got_based {
                37int
            } else {
                30
            }
            &&& code.bytes[at] == 0x23
            &&& code.bytes[at + 6] == 0x41
            &&& code.bytes[at + 12] == 0x6a
            &&& code.operand(at + 1, Encoding::Leb) == Some(
                (value(storage, EntityAddressMode::BaseStaticIndex, 0), 5nat),
            )
            &&& code.operand(at + 7, Encoding::Sleb) == Some(
                (value(storage, EntityAddressMode::RuntimeAddr, 0), 5nat),
            )
            &&& if init.is_got_based {
                &&& code.bytes[at + 13] == 0x23
                &&& code.bytes[at + 19] == 0x41
                &&& code.bytes[at + 25] == 0x6a
                &&& code.operand(at + 14, Encoding::Leb) == Some(
                    (value(init.relocated_symbol, EntityAddressMode::BaseStaticIndex, 0), 5nat),
                )
                &&& code.operand(at + 20, Encoding::Sleb) == Some(
                    (value(init.relocated_symbol, EntityAddressMode::RuntimeAddr, 0), 5nat),
                )
            } else {
                &&& code.bytes[at + 13] == 0x41
                &&& code.operand(at + 14, Encoding::Sleb) == Some(
                    (value(init.relocated_symbol, EntityAddressMode::RuntimeAddr, 0), 5nat),
                )
            }
            &&& code.bytes[end] == 0x36
            &&& code.memarg(end + 1) == Some(
                (store_arg().align as int, 0int, 0int, at + len),
            )
        }),
{
    reveal(stands_at);
    let bytes = init_bytes(init);
    lemma_init_parts(init, at);
    let held = code.bytes.subrange(at, at + bytes.len());
    let end = at + bytes.len() - 11;
    assert(held[0] == code.bytes[at]);
    assert(held[6] == code.bytes[at + 6]);
    assert(held[12] == code.bytes[at + 12]);
    assert(held[13] == code.bytes[at + 13]);
    assert(held[19] == code.bytes[at + 19]);
    assert(held[25] == code.bytes[at + 25]);
    assert(held[bytes.len() - 11] == code.bytes[end]);
    assert(code.bytes.subrange(end + 1, end + 6) =~= held.subrange(end + 1 - at, end + 6 - at));
    assert(code.bytes.subrange(end + 6, end + 11) =~= held.subrange(end + 6 - at, end + 11 - at));
    lemma_plain_operand(code, end + 1, store_arg().align as int);
    lemma_plain_operand(code, end + 6, 0);
}

/// The instructions of an init store what they should, wherever they stand.
proof fn lemma_init_runs(
    machine: Machine,
    code: Code<EntityKind, EntityAddressMode>,
    init: FinalDataSymbolInit,
)
    requires
        stands_at(code, init, machine.pc),
        has_base(machine, code.value, EntityKind::DataSymbol(init.storage)),
        init.is_got_based ==> has_base(machine, code.value, init.relocated_symbol),
    ensures
        machine.run(code, init_steps(init)) == Some(
            Machine {
                pc: machine.pc + init_bytes(init).len(),
                stores: machine.stores.push(stored(machine, code.value, init)),
                ..machine
            },
        ),
{
    let at = machine.pc;
    let storage = EntityKind::DataSymbol(init.storage);
    let symbol = init.relocated_symbol;
    let value = code.value;
    let (_, address, held) = stored(machine, value, init);
    let len = init_bytes(init).len() as int;
    lemma_init_operands(code, init, at);
    let addressed = machine.push(Value { ty: ValType::I32, bits: address }, at + 13);
    let ready = addressed.push(Value { ty: ValType::I32, bits: held }, at + len - 11);
    lemma_run_sum(
        machine,
        code,
        value(storage, EntityAddressMode::BaseStaticIndex, 0),
        value(storage, EntityAddressMode::RuntimeAddr, 0),
    );
    let steps: nat = if init.is_got_based {
        lemma_run_sum(
            addressed,
            code,
            value(symbol, EntityAddressMode::BaseStaticIndex, 0),
            value(symbol, EntityAddressMode::RuntimeAddr, 0),
        );
        3
    } else {
        lemma_run_const(addressed, code, value(symbol, EntityAddressMode::RuntimeAddr, 0), 5);
        1
    };
    assert(addressed.run(code, steps) == Some(ready));
    lemma_run_on(machine, code, 3, steps);
    lemma_run_on(machine, code, 3 + steps, 1);
    lemma_run_store(
        ready,
        code,
        machine.stack,
        address,
        held,
        (store_arg().align as int, 0, 0, at + len),
    );
}

/// Every relocation of an init is in its bytes.
proof fn lemma_init_relocs_place(init: FinalDataSymbolInit, at: int, p: int)
    requires
        0 <= at,
        at + 37 <= u32::MAX,
        p < at || p >= at + init_bytes(init).len(),
    ensures
        reloc_at(init_relocs(init, at), p) is None,
{
    lemma_init_parts(init, at);
    reveal_with_fuel(reloc_at, 6);
    let relocs = init_relocs(init, at);
    if init.is_got_based {
        assert(relocs.drop_last() =~= seq![relocs[0], relocs[1], relocs[2]]);
        assert(relocs.drop_last().drop_last() =~= seq![relocs[0], relocs[1]]);
        assert(relocs.drop_last().drop_last().drop_last() =~= seq![relocs[0]]);
        assert(relocs.drop_last().drop_last().drop_last().drop_last() =~= Seq::empty());
    } else {
        assert(relocs.drop_last() =~= seq![relocs[0], relocs[1]]);
        assert(relocs.drop_last().drop_last() =~= seq![relocs[0]]);
        assert(relocs.drop_last().drop_last().drop_last() =~= Seq::empty());
    }
}

/// The relocations in the bytes of an init are its own.
proof fn lemma_own_relocs(inits: Seq<FinalDataSymbolInit>, k: int, p: int)
    requires
        inits_bytes(inits).len() + 38 <= u32::MAX,
        0 <= k < inits.len(),
        1 + inits_bytes(inits.take(k)).len() <= p < 1 + inits_bytes(inits.take(k + 1)).len(),
    ensures
        reloc_at(start_fn_relocs(inits), p) == reloc_at(
            init_relocs(inits[k], 1 + inits_bytes(inits.take(k)).len() as int),
            p,
        ),
    decreases inits.len(),
{
    let init = inits.drop_last();
    let last = inits.last();
    let at = 1 + inits_bytes(init).len() as int;
    lemma_reloc_at_concat(start_fn_relocs(init), init_relocs(last, at), p);
    if k < inits.len() - 1 {
        assert(init.take(k) =~= inits.take(k));
        assert(init.take(k + 1) =~= inits.take(k + 1));
        lemma_own_relocs(init, k, p);
        lemma_bytes_grow(init, k + 1);
        lemma_init_relocs_place(last, at, p);
    } else {
        assert(inits.take(k) =~= init);
        assert(inits.take(k + 1) =~= inits);
        lemma_no_later_relocs(init, p);
    }
}

proof fn lemma_no_later_relocs(inits: Seq<FinalDataSymbolInit>, p: int)
    requires
        inits_bytes(inits).len() + 38 <= u32::MAX,
        p >= 1 + inits_bytes(inits).len(),
    ensures
        reloc_at(start_fn_relocs(inits), p) is None,
    decreases inits.len(),
{
    if inits.len() > 0 {
        let init = inits.drop_last();
        let at = 1 + inits_bytes(init).len() as int;
        lemma_reloc_at_concat(start_fn_relocs(init), init_relocs(inits.last(), at), p);
        lemma_no_later_relocs(init, p);
        lemma_init_relocs_place(inits.last(), at, p);
    }
}

proof fn lemma_bytes_grow(inits: Seq<FinalDataSymbolInit>, k: int)
    requires
        0 <= k <= inits.len(),
    ensures
        inits_bytes(inits.take(k)).len() <= inits_bytes(inits).len(),
        inits_bytes(inits).take(inits_bytes(inits.take(k)).len() as int) == inits_bytes(
            inits.take(k),
        ),
    decreases inits.len(),
{
    let bytes = inits_bytes(inits);
    if k == inits.len() {
        assert(inits.take(k) =~= inits);
        assert(bytes.take(bytes.len() as int) =~= bytes);
    } else {
        let init = inits.drop_last();
        lemma_bytes_grow(init, k);
        assert(init.take(k) =~= inits.take(k));
        let len = inits_bytes(inits.take(k)).len() as int;
        assert(bytes.take(len) =~= inits_bytes(init).take(len));
    }
}

/// What the first inits store.
pub open spec fn all_stored(
    machine: Machine,
    value: EntityValue,
    inits: Seq<FinalDataSymbolInit>,
) -> Seq<(int, int, int)> {
    inits.map_values(|init: FinalDataSymbolInit| stored(machine, value, init))
}

proof fn lemma_init_stands(
    code: Code<EntityKind, EntityAddressMode>,
    inits: Seq<FinalDataSymbolInit>,
    k: int,
)
    requires
        0 <= k < inits.len(),
        inits_bytes(inits).len() + 38 <= u32::MAX,
        code.bytes == start_fn_bytes(inits),
        code.relocs == start_fn_relocs(inits),
    ensures
        stands_at(code, inits[k], 1 + inits_bytes(inits.take(k)).len() as int),
{
    reveal(stands_at);
    let init = inits[k];
    let longer = inits.take(k + 1);
    let at = 1 + inits_bytes(inits.take(k)).len() as int;
    assert(longer.drop_last() =~= inits.take(k));
    assert(longer.last() == init);
    lemma_bytes_grow(inits, k + 1);
    lemma_bytes_grow(inits, k);
    let len = inits_bytes(longer).len() as int;
    assert(inits_bytes(longer).skip(at - 1) =~= init_bytes(init));
    assert(code.bytes.subrange(at, 1 + len) =~= inits_bytes(inits).take(len).skip(at - 1));
    assert forall|p: int| at <= p < at + init_bytes(init).len() implies #[trigger] reloc_at(
        code.relocs,
        p,
    ) == reloc_at(init_relocs(init, at), p) by {
        lemma_own_relocs(inits, k, p);
    }
}

proof fn lemma_inits_run(
    machine: Machine,
    code: Code<EntityKind, EntityAddressMode>,
    inits: Seq<FinalDataSymbolInit>,
    k: int,
)
    requires
        0 <= k <= inits.len(),
        inits_bytes(inits).len() + 38 <= u32::MAX,
        code.bytes == start_fn_bytes(inits),
        code.relocs == start_fn_relocs(inits),
        has_bases(machine, code.value, inits),
        machine.pc == 1,
    ensures
        machine.run(code, inits_steps(inits.take(k))) == Some(
            Machine {
                pc: 1int + inits_bytes(inits.take(k)).len(),
                stores: machine.stores + all_stored(machine, code.value, inits).take(k),
                ..machine
            },
        ),
    decreases k,
{
    let all = all_stored(machine, code.value, inits);
    if k == 0 {
        assert(inits.take(0) =~= Seq::empty());
        assert(machine.stores + all.take(0) =~= machine.stores);
    } else {
        let init = inits[k - 1];
        let shorter = inits.take(k - 1);
        let longer = inits.take(k);
        assert(longer.drop_last() =~= shorter);
        assert(longer.last() == init);
        let at = 1 + inits_bytes(shorter).len() as int;
        let before = Machine { pc: at, stores: machine.stores + all.take(k - 1), ..machine };
        let after = Machine {
            pc: at + init_bytes(init).len(),
            stores: before.stores.push(stored(machine, code.value, init)),
            ..machine
        };
        lemma_inits_run(machine, code, inits, k - 1);
        assert(before.run(code, init_steps(init)) == Some(after)) by {
            lemma_init_stands(code, inits, k - 1);
            lemma_init_runs(before, code, init);
        }
        lemma_run_on(machine, code, inits_steps(shorter), init_steps(init));
        assert(after.stores =~= machine.stores + all.take(k));
        assert(inits_bytes(longer).len() == inits_bytes(shorter).len() + init_bytes(init).len());
    }
}

/// The start function has no locals. When it is executed, it stores the address of every entity at
/// the address of its data symbol, in the order of the inits, and comes to its end. It changes
/// nothing else.
pub proof fn lemma_start_function_stores_addresses(
    machine: Machine,
    value: EntityValue,
    inits: Seq<FinalDataSymbolInit>,
)
    requires
        inits_bytes(inits).len() + 38 <= u32::MAX,
        has_bases(machine, value, inits),
        machine.pc == 1,
    ensures
        ({
            let code = Code { bytes: start_fn_bytes(inits), relocs: start_fn_relocs(inits), value };
            &&& code.bytes[0] == 0
            &&& code.bytes.last() == 0x0b
            &&& exists|steps: nat|
                #[trigger] machine.run(code, steps) == Some(
                    Machine {
                        pc: code.bytes.len() - 1,
                        stores: machine.stores + all_stored(machine, value, inits),
                        ..machine
                    },
                )
        }),
{
    let code = Code { bytes: start_fn_bytes(inits), relocs: start_fn_relocs(inits), value };
    let count = inits.len() as int;
    lemma_inits_run(machine, code, inits, count);
    assert(inits.take(count) =~= inits);
    assert(all_stored(machine, value, inits).take(count) =~= all_stored(machine, value, inits));
    assert(machine.run(code, inits_steps(inits)) is Some);
}

} // verus!
