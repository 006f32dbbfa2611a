//! A stack machine for the instructions that rewritten code is made of.
use crate::emit::relocation::encode::{leb_len, leb_value, signed_leb_value};
use crate::linkage::reloc::{Encoding, RelocationEntry};
use crate::typed::types::ValType;
use vstd::prelude::*;

verus! {

/// A value on the stack or in a global.
pub ghost struct Value {
    pub ty: ValType,
    pub bits: int,
}

/// Instructions, with relocations of their operands. A relocation puts a number into an operand,
/// which depends on its target, on which number of the target is meant, and on its addend.
#[verifier::reject_recursive_types(SymbolIndex)]
#[verifier::reject_recursive_types(SymbolOp)]
pub ghost struct Code<SymbolIndex, SymbolOp> {
    pub bytes: Seq<u8>,
    pub relocs: Seq<RelocationEntry<SymbolIndex, SymbolOp>>,
    pub value: spec_fn(SymbolIndex, SymbolOp, int) -> int,
}

/// The relocation of a place.
pub open spec fn reloc_at<SymbolIndex, SymbolOp>(
    relocs: Seq<RelocationEntry<SymbolIndex, SymbolOp>>,
    at: int,
) -> Option<RelocationEntry<SymbolIndex, SymbolOp>>
    decreases relocs.len(),
{
    if relocs.len() == 0 {
        None
    } else if relocs.last().offset == at {
        Some(relocs.last())
    } else {
        reloc_at(relocs.drop_last(), at)
    }
}

/// Arithmetic of 32 bits.
pub open spec fn bits32(value: int) -> int {
    value % 0x1_0000_0000
}

impl<SymbolIndex, SymbolOp> Code<SymbolIndex, SymbolOp> {
    /// The operand that starts at a place, and its number of bytes: what a relocation puts there, or
    /// the LEB128 number that stands there.
    pub open spec fn operand(self, at: int, encoding: Encoding) -> Option<(int, nat)> {
        match reloc_at(self.relocs, at) {
            Some(reloc) => if reloc.encoding == encoding && reloc.width is Bits32 && 0 <= at && at
                + 5 <= self.bytes.len() {
                Some(((self.value)(reloc.symbol_id, reloc.symbol_op, reloc.addend as int), 5))
            } else {
                None
            },
            None => {
                let len = leb_len(self.bytes, at);
                let number = self.bytes.subrange(at, at + len);
                if len == 0 || number.last() >= 128 {
                    None
                } else if encoding is Sleb {
                    Some((signed_leb_value(number), len))
                } else {
                    Some((leb_value(number), len))
                }
            },
        }
    }

    /// The argument of a load or store that starts at a place: the alignment, the memory, the offset
    /// and the place behind it. Bit 6 of the first number announces a memory.
    pub open spec fn memarg(self, at: int) -> Option<(int, int, int, int)> {
        match self.operand(at, Encoding::Leb) {
            None => None,
            Some((flags, len)) => if flags < 64 {
                match self.operand(at + len, Encoding::Leb) {
                    None => None,
                    Some((offset, next)) => Some((flags, 0, offset, at + len + next)),
                }
            } else if flags < 128 {
                match self.operand(at + len, Encoding::Leb) {
                    None => None,
                    Some((memory, more)) => match self.operand(at + len + more, Encoding::Leb) {
                        None => None,
                        Some((offset, next)) => Some(
                            (flags - 64, memory, offset, at + len + more + next),
                        ),
                    },
                }
            } else {
                None
            },
        }
    }
}

/// State of the machine.
pub ghost struct Machine {
    /// The place of the next instruction.
    pub pc: int,
    pub stack: Seq<Value>,
    pub globals: Map<int, Value>,
    /// What was stored so far: the memory, the address and the value.
    pub stores: Seq<(int, int, int)>,
}

impl Machine {
    pub open spec fn push(self, value: Value, pc: int) -> Machine {
        Machine { pc, stack: self.stack.push(value), ..self }
    }

    /// Executes an instruction: `global.get`, `global.set`, `i32.const`, `i32.add` or `i32.store`.
    pub open spec fn step<SymbolIndex, SymbolOp>(
        self,
        code: Code<SymbolIndex, SymbolOp>,
    ) -> Option<Machine> {
        let opcode = code.bytes[self.pc];
        let n = self.stack.len();
        if self.pc < 0 || self.pc >= code.bytes.len() {
            None
        } else if opcode == 0x23 {
            match code.operand(self.pc + 1, Encoding::Leb) {
                Some((global, len)) => if self.globals.contains_key(global) {
                    Some(self.push(self.globals[global], self.pc + 1 + len))
                } else {
                    None
                },
                None => None,
            }
        } else if opcode == 0x24 {
            match code.operand(self.pc + 1, Encoding::Leb) {
                Some((global, len)) => if n > 0 && self.globals.contains_key(global)
                    && self.globals[global].ty == self.stack.last().ty {
                    Some(
                        Machine {
                            pc: self.pc + 1 + len,
                            stack: self.stack.drop_last(),
                            globals: self.globals.insert(global, self.stack.last()),
                            ..self
                        },
                    )
                } else {
                    None
                },
                None => None,
            }
        } else if opcode == 0x41 {
            match code.operand(self.pc + 1, Encoding::Sleb) {
                Some((value, len)) => Some(
                    self.push(Value { ty: ValType::I32, bits: bits32(value) }, self.pc + 1 + len),
                ),
                None => None,
            }
        } else if opcode == 0x6a {
            if n > 1 && self.stack[n - 1].ty is I32 && self.stack[n - 2].ty is I32 {
                Some(
                    Machine {
                        pc: self.pc + 1,
                        stack: self.stack.take(n - 2).push(
                            Value {
                                ty: ValType::I32,
                                bits: bits32(self.stack[n - 2].bits + self.stack[n - 1].bits),
                            },
                        ),
                        ..self
                    },
                )
            } else {
                None
            }
        } else if opcode == 0x36 {
            match code.memarg(self.pc + 1) {
                Some((_, memory, offset, next)) => if n > 1 && self.stack[n - 1].ty is I32
                    && self.stack[n - 2].ty is I32 {
                    Some(
                        Machine {
                            pc: next,
                            stack: self.stack.take(n - 2),
                            stores: self.stores.push(
                                (memory, self.stack[n - 2].bits + offset, self.stack[n - 1].bits),
                            ),
                            ..self
                        },
                    )
                } else {
                    None
                },
                None => None,
            }
        } else {
            None
        }
    }

    /// Executes instructions one after the other.
    pub open spec fn run<SymbolIndex, SymbolOp>(
        self,
        code: Code<SymbolIndex, SymbolOp>,
        steps: nat,
    ) -> Option<Machine>
        decreases steps,
    {
        if steps == 0 {
            Some(self)
        } else {
            match self.step(code) {
                Some(next) => next.run(code, (steps - 1) as nat),
                None => None,
            }
        }
    }
}

/// Executing some instructions and then others is executing all of them.
pub proof fn lemma_run_on<SymbolIndex, SymbolOp>(
    machine: Machine,
    code: Code<SymbolIndex, SymbolOp>,
    first: nat,
    second: nat,
)
    requires
        machine.run(code, first) is Some,
    ensures
        machine.run(code, first + second) == (machine.run(code, first)->0).run(code, second),
    decreases first,
{
    if first > 0 {
        let next = machine.step(code)->0;
        lemma_run_on(next, code, (first - 1) as nat, second);
    }
}

/// Adding a global and a constant.
pub(crate) proof fn lemma_run_sum<SymbolIndex, SymbolOp>(
    machine: Machine,
    code: Code<SymbolIndex, SymbolOp>,
    global: int,
    value: int,
)
    requires
        0 <= machine.pc,
        machine.pc + 13 <= code.bytes.len(),
        code.bytes[machine.pc] == 0x23,
        code.operand(machine.pc + 1, Encoding::Leb) == Some((global, 5nat)),
        code.bytes[machine.pc + 6] == 0x41,
        code.operand(machine.pc + 7, Encoding::Sleb) == Some((value, 5nat)),
        code.bytes[machine.pc + 12] == 0x6a,
        machine.globals.contains_key(global),
        machine.globals[global].ty is I32,
    ensures
        machine.run(code, 3) == Some(
            machine.push(
                Value {
                    ty: ValType::I32,
                    bits: bits32(machine.globals[global].bits + bits32(value)),
                },
                machine.pc + 13,
            ),
        ),
{
    reveal_with_fuel(Machine::run, 4);
    let got = machine.step(code)->0;
    let constant = got.step(code)->0;
    let done = constant.step(code)->0;
    assert(done.stack =~= machine.stack.push(done.stack.last()));
}

/// A constant.
pub(crate) proof fn lemma_run_const<SymbolIndex, SymbolOp>(
    machine: Machine,
    code: Code<SymbolIndex, SymbolOp>,
    value: int,
    len: nat,
)
    requires
        0 <= machine.pc < code.bytes.len(),
        code.bytes[machine.pc] == 0x41,
        code.operand(machine.pc + 1, Encoding::Sleb) == Some((value, len)),
    ensures
        machine.run(code, 1) == Some(
            machine.push(Value { ty: ValType::I32, bits: bits32(value) }, machine.pc + 1 + len),
        ),
{
    reveal_with_fuel(Machine::run, 2);
}

/// A store of a value at an address.
pub(crate) proof fn lemma_run_store<SymbolIndex, SymbolOp>(
    machine: Machine,
    code: Code<SymbolIndex, SymbolOp>,
    stack: Seq<Value>,
    address: int,
    value: int,
    argument: (int, int, int, int),
)
    requires
        0 <= machine.pc < code.bytes.len(),
        code.bytes[machine.pc] == 0x36,
        code.memarg(machine.pc + 1) == Some(argument),
        machine.stack == stack.push(Value { ty: ValType::I32, bits: address }).push(
            Value { ty: ValType::I32, bits: value },
        ),
    ensures
        machine.run(code, 1) == Some(
            Machine {
                pc: argument.3,
                stack,
                stores: machine.stores.push((argument.1, address + argument.2, value)),
                ..machine
            },
        ),
{
    reveal_with_fuel(Machine::run, 2);
    assert(machine.stack.take(machine.stack.len() - 2) =~= stack);
}

/// A relocation is found among others where only these have its place.
pub(crate) proof fn lemma_reloc_at_concat<SymbolIndex, SymbolOp>(
    first: Seq<RelocationEntry<SymbolIndex, SymbolOp>>,
    second: Seq<RelocationEntry<SymbolIndex, SymbolOp>>,
    at: int,
)
    ensures
        reloc_at(first + second, at) == match reloc_at(second, at) {
            Some(reloc) => Some(reloc),
            None => reloc_at(first, at),
        },
    decreases second.len(),
{
    if second.len() == 0 {
        assert(first + second =~= first);
    } else {
        assert((first + second).drop_last() =~= first + second.drop_last());
        lemma_reloc_at_concat(first, second.drop_last(), at);
    }
}

} // verus!
