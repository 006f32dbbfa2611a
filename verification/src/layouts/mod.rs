//! Layouts of data and elements.
//!
//! A layout is in one of two states.
//! - A builder holds virtual spaces, the segments of each, and the items of each segment.
//! - A sealed layout has a place for every item, in the file and in the address space of its owner
//!   (a memory or a table).
pub mod data;
pub mod elements;
pub mod recover;

use crate::emit::relocation::encode::{sleb, uleb};
use crate::index::{ReservedValue, TempIndex};
use crate::typed::GlobalRef;
use vstd::prelude::*;

verus! {

/// Index of a virtual space of a layout.
#[derive(Clone, Copy, Debug, PartialEq, Eq, PartialOrd, Ord, Hash, Structural)]
pub struct VirtualSpaceId {
    pub id: u32,
}

impl TempIndex for VirtualSpaceId {
    open spec fn id(self) -> u32 {
        self.id
    }

    proof fn lemma_id_injective(a: Self, b: Self) {
    }

    fn from_raw(value: u32) -> (r: Self) {
        VirtualSpaceId { id: value }
    }

    fn as_u32(&self) -> (r: u32) {
        self.id
    }
}

impl ReservedValue for VirtualSpaceId {
    open spec fn is_reserved_spec(&self) -> bool {
        self.id() == u32::MAX
    }

    fn reserved_value() -> (r: Self) {
        Self::reserved()
    }

    fn is_reserved_value(&self) -> (r: bool) {
        self.is_reserved()
    }
}

impl Default for VirtualSpaceId {
    fn default() -> (r: Self)
        ensures
            r.id() == u32::MAX,
    {
        Self::reserved()
    }
}

/// Index of a part of a segment.
#[derive(Clone, Copy, Debug, PartialEq, Eq, PartialOrd, Ord, Hash, Structural)]
pub struct PartId {
    pub id: u32,
}

impl TempIndex for PartId {
    open spec fn id(self) -> u32 {
        self.id
    }

    proof fn lemma_id_injective(a: Self, b: Self) {
    }

    fn from_raw(value: u32) -> (r: Self) {
        PartId { id: value }
    }

    fn as_u32(&self) -> (r: u32) {
        self.id
    }
}

impl ReservedValue for PartId {
    open spec fn is_reserved_spec(&self) -> bool {
        self.id() == u32::MAX
    }

    fn reserved_value() -> (r: Self) {
        Self::reserved()
    }

    fn is_reserved_value(&self) -> (r: bool) {
        self.is_reserved()
    }
}

impl Default for PartId {
    fn default() -> (r: Self)
        ensures
            r.id() == u32::MAX,
    {
        Self::reserved()
    }
}

/// Index of a segment.
#[derive(Clone, Copy, Debug, PartialEq, Eq, PartialOrd, Ord, Hash, Structural)]
pub struct SegmentId {
    pub id: u32,
}

impl TempIndex for SegmentId {
    open spec fn id(self) -> u32 {
        self.id
    }

    proof fn lemma_id_injective(a: Self, b: Self) {
    }

    fn from_raw(value: u32) -> (r: Self) {
        SegmentId { id: value }
    }

    fn as_u32(&self) -> (r: u32) {
        self.id
    }
}

impl ReservedValue for SegmentId {
    open spec fn is_reserved_spec(&self) -> bool {
        self.id() == u32::MAX
    }

    fn reserved_value() -> (r: Self) {
        Self::reserved()
    }

    fn is_reserved_value(&self) -> (r: bool) {
        self.is_reserved()
    }
}

impl Default for SegmentId {
    fn default() -> (r: Self)
        ensures
            r.id() == u32::MAX,
    {
        Self::reserved()
    }
}

/// Where a segment starts in the address space of its owner.
#[derive(Copy, Clone, Debug, PartialEq, Eq, PartialOrd, Ord, Hash)]
pub enum SegmentPlacement<GR = GlobalRef> {
    /// At the value of a global plus an offset.
    GotBased { global: GR, offset: u32 },
    /// At a fixed offset.
    ConstantOffset(u32),
}

impl<GR: Copy> SegmentPlacement<GR> {
    pub open spec fn offset_spec(self) -> u32 {
        match self {
            SegmentPlacement::GotBased { offset, .. } => offset,
            SegmentPlacement::ConstantOffset(offset) => offset,
        }
    }

    /// The placement with another offset.
    pub open spec fn with_offset(self, new: u32) -> Self {
        match self {
            SegmentPlacement::GotBased { global, .. } => SegmentPlacement::GotBased {
                global,
                offset: new,
            },
            SegmentPlacement::ConstantOffset(_) => SegmentPlacement::ConstantOffset(new),
        }
    }

    pub fn offset(&self) -> (r: u32)
        ensures
            r == self.offset_spec(),
    {
        match self {
            SegmentPlacement::GotBased { offset, .. } => *offset,
            SegmentPlacement::ConstantOffset(offset) => *offset,
        }
    }

    pub fn global_ref(&self) -> (r: Option<GR>)
        ensures
            r == match *self {
                SegmentPlacement::GotBased { global, .. } => Some(global),
                SegmentPlacement::ConstantOffset(_) => None,
            },
    {
        match self {
            SegmentPlacement::GotBased { global, .. } => Some(*global),
            SegmentPlacement::ConstantOffset(_) => None,
        }
    }

    pub fn with_zero_offset(&self) -> (r: Self)
        ensures
            r == self.with_offset(0),
    {
        match self {
            SegmentPlacement::GotBased { global, .. } => SegmentPlacement::GotBased {
                global: *global,
                offset: 0,
            },
            SegmentPlacement::ConstantOffset(_) => SegmentPlacement::ConstantOffset(0),
        }
    }

    pub fn add_offset(&self, offset: u32) -> (r: Self)
        requires
            self.offset_spec() + offset <= u32::MAX,
        ensures
            r == self.with_offset((self.offset_spec() + offset) as u32),
    {
        match self {
            SegmentPlacement::GotBased { global, offset: base } => SegmentPlacement::GotBased {
                global: *global,
                offset: *base + offset,
            },
            SegmentPlacement::ConstantOffset(base) => {
                SegmentPlacement::ConstantOffset(*base + offset)
            },
        }
    }
}

/// Zeroing an offset and adding it again gives back the placement.
pub proof fn lemma_offset_roundtrip<GR: Copy>(placement: SegmentPlacement<GR>)
    ensures
        placement.with_offset(0).with_offset(placement.offset_spec()) == placement,
        placement.with_offset(0).offset_spec() == 0,
{
}

/// An operator, as far as it can stand in a placement.
#[derive(Debug, Clone, Copy, PartialEq, Eq, Structural)]
pub enum ConstOp {
    I32Const(i32),
    GlobalGet(u32),
    I32Add,
    End,
    /// An operator that has no part in a placement.
    Other,
}

/// Why an expression is no placement.
#[derive(Debug, Clone, Copy, PartialEq, Eq, Structural)]
pub enum PlacementError {
    /// The expression holds no valid operators.
    Malformed,
    /// The expression is none of the simple forms.
    TooComplex,
}

/// What `wasmparser` reads from the place `pos` of encoded operators on: the operator, and the
/// place behind it.
pub uninterp spec fn operator_at(bytes: Seq<u8>, pos: int) -> Option<(ConstOp, int)>;

/// `wasmparser::OperatorsReader::read`: reads the operator that starts at `pos`. The result is a
/// function of the bytes, and is nothing where they hold no operator. An encoded `i32.const`,
/// `global.get`, `i32.add` or `end` is read as such.
#[verifier::external_body]
pub(crate) fn read_operator(bytes: &[u8], pos: usize) -> (r: Option<(ConstOp, usize)>)
    requires
        pos <= bytes@.len(),
    ensures
        operator_at(bytes@, pos as int) == match r {
            Some((op, next)) => Some((op, next as int)),
            None => None,
        },
        r matches Some((_, next)) ==> pos < next <= bytes@.len(),
        starts_with(bytes@.skip(pos as int), seq![0x0bu8]) ==> reads_as(r, ConstOp::End, pos + 1),
        starts_with(bytes@.skip(pos as int), seq![0x6au8]) ==> reads_as(
            r,
            ConstOp::I32Add,
            pos + 1,
        ),
        forall|v: i32|
            #![trigger sleb(v as int)]
            starts_with(bytes@.skip(pos as int), seq![0x41u8] + sleb(v as int)) ==> reads_as(
                r,
                ConstOp::I32Const(v),
                pos + 1 + sleb(v as int).len(),
            ),
        forall|g: u32|
            #![trigger uleb(g as nat)]
            starts_with(bytes@.skip(pos as int), seq![0x23u8] + uleb(g as nat)) ==> reads_as(
                r,
                ConstOp::GlobalGet(g),
                pos + 1 + uleb(g as nat).len(),
            ),
{
    let mut reader = wasmparser::OperatorsReader::new(
        wasmparser::BinaryReader::new(&bytes[pos..], 0),
    );
    let op = match reader.read() {
        Ok(wasmparser::Operator::I32Const { value }) => ConstOp::I32Const(value),
        Ok(wasmparser::Operator::GlobalGet { global_index }) => ConstOp::GlobalGet(global_index),
        Ok(wasmparser::Operator::I32Add) => ConstOp::I32Add,
        Ok(wasmparser::Operator::End) => ConstOp::End,
        Ok(_) => ConstOp::Other,
        Err(_) => return None,
    };
    Some((op, pos + reader.original_position()))
}

/// Whether an operator was read, up to the place `next`.
pub open spec fn reads_as(read: Option<(ConstOp, usize)>, op: ConstOp, next: int) -> bool {
    read matches Some((read_op, read_next)) && read_op == op && read_next == next
}

/// Whether bytes start with a prefix.
pub open spec fn starts_with(bytes: Seq<u8>, prefix: Seq<u8>) -> bool {
    prefix.len() <= bytes.len() && bytes.take(prefix.len() as int) == prefix
}

/// The operators of an expression from `pos` on, up to the first one that ends it, and at most
/// `count` of them.
pub open spec fn operators_from(bytes: Seq<u8>, pos: int, count: nat) -> Option<Seq<ConstOp>>
    decreases count,
{
    if count == 0 {
        Some(Seq::empty())
    } else {
        match operator_at(bytes, pos) {
            None => None,
            Some((op, next)) => if op is End || op is Other {
                Some(seq![op])
            } else {
                match operators_from(bytes, next, (count - 1) as nat) {
                    None => None,
                    Some(rest) => Some(seq![op] + rest),
                }
            },
        }
    }
}

/// The placement that operators stand for: a constant, a global, or a global plus a constant.
pub open spec fn placement_of(ops: Seq<ConstOp>) -> Option<SegmentPlacement<GlobalRef>> {
    if ops.len() == 2 && ops[1] is End {
        match ops[0] {
            ConstOp::I32Const(value) => Some(SegmentPlacement::ConstantOffset(value as u32)),
            ConstOp::GlobalGet(global) => Some(
                SegmentPlacement::GotBased { global: GlobalRef { id: global }, offset: 0 },
            ),
            _ => None,
        }
    } else if ops.len() == 4 && ops[2] is I32Add && ops[3] is End {
        match (ops[0], ops[1]) {
            (ConstOp::GlobalGet(global), ConstOp::I32Const(value)) => Some(
                SegmentPlacement::GotBased {
                    global: GlobalRef { id: global },
                    offset: value as u32,
                },
            ),
            _ => None,
        }
    } else {
        None
    }
}

/// Reads the operators of an expression, up to the first one that ends it, and at most four.
fn read_operators(bytes: &[u8]) -> (r: Option<Vec<ConstOp>>)
    ensures
        operators_from(bytes@, 0, 4) == match r {
            Some(ops) => Some(ops@),
            None => None,
        },
        forall|p: SegmentPlacement<GlobalRef>|
            p.offset_spec() <= i32::MAX && bytes@ == #[trigger] p.init_expr() ==> r is Some
                && placement_of(r->0@) == Some(p),
{
    proof {
        reveal_with_fuel(operators_from, 5);
    }
    let (op0, pos0) = match read_operator(bytes, 0) {
        Some(read) => read,
        None => {
            proof {
                assert forall|p: SegmentPlacement<GlobalRef>|
                    !(p.offset_spec() <= i32::MAX && bytes@ == #[trigger] p.init_expr()) by {
                    lemma_init_expr_start(p, bytes@);
                }
            }
            return None;
        },
    };
    if ends_expression(op0) {
        proof {
            assert forall|p: SegmentPlacement<GlobalRef>|
                !(p.offset_spec() <= i32::MAX && bytes@ == #[trigger] p.init_expr()) by {
                lemma_init_expr_start(p, bytes@);
            }
        }
        return Some(vec![op0]);
    }
    let (op1, pos1) = match read_operator(bytes, pos0) {
        Some(read) => read,
        None => {
            proof {
                assert forall|p: SegmentPlacement<GlobalRef>|
                    !(p.offset_spec() <= i32::MAX && bytes@ == #[trigger] p.init_expr()) by {
                    lemma_init_expr_start(p, bytes@);
                    lemma_init_expr_second(p, bytes@);
                }
            }
            return None;
        },
    };
    if ends_expression(op1) {
        let ops = vec![op0, op1];
        proof {
            assert(ops@ =~= seq![op0] + seq![op1]);
            assert forall|p: SegmentPlacement<GlobalRef>|
                p.offset_spec() <= i32::MAX && bytes@
                    == #[trigger] p.init_expr() implies placement_of(ops@) == Some(p) by {
                lemma_init_expr_start(p, bytes@);
                lemma_init_expr_second(p, bytes@);
            }
        }
        return Some(ops);
    }
    let (op2, pos2) = match read_operator(bytes, pos1) {
        Some(read) => read,
        None => {
            proof {
                assert forall|p: SegmentPlacement<GlobalRef>|
                    !(p.offset_spec() <= i32::MAX && bytes@ == #[trigger] p.init_expr()) by {
                    lemma_init_expr_start(p, bytes@);
                    lemma_init_expr_second(p, bytes@);
                    lemma_init_expr_tail(p, bytes@);
                }
            }
            return None;
        },
    };
    if ends_expression(op2) {
        let ops = vec![op0, op1, op2];
        proof {
            assert(ops@ =~= seq![op0] + (seq![op1] + seq![op2]));
            assert forall|p: SegmentPlacement<GlobalRef>|
                !(p.offset_spec() <= i32::MAX && bytes@ == #[trigger] p.init_expr()) by {
                lemma_init_expr_start(p, bytes@);
                lemma_init_expr_second(p, bytes@);
                lemma_init_expr_tail(p, bytes@);
            }
        }
        return Some(ops);
    }
    let (op3, pos3) = match read_operator(bytes, pos2) {
        Some(read) => read,
        None => {
            proof {
                assert forall|p: SegmentPlacement<GlobalRef>|
                    !(p.offset_spec() <= i32::MAX && bytes@ == #[trigger] p.init_expr()) by {
                    lemma_init_expr_start(p, bytes@);
                    lemma_init_expr_second(p, bytes@);
                    lemma_init_expr_tail(p, bytes@);
                }
            }
            return None;
        },
    };
    let ops = vec![op0, op1, op2, op3];
    proof {
        assert(seq![op3] + Seq::<ConstOp>::empty() =~= seq![op3]);
        assert(ops@ =~= seq![op0] + (seq![op1] + (seq![op2] + seq![op3])));
        assert forall|p: SegmentPlacement<GlobalRef>|
            p.offset_spec() <= i32::MAX && bytes@
                == #[trigger] p.init_expr() implies placement_of(ops@) == Some(p) by {
            lemma_init_expr_start(p, bytes@);
            lemma_init_expr_second(p, bytes@);
            lemma_init_expr_tail(p, bytes@);
        }
    }
    Some(ops)
}

/// Whether nothing of an expression is read behind the operator.
fn ends_expression(op: ConstOp) -> (r: bool)
    ensures
        r == (op is End || op is Other),
{
    match op {
        ConstOp::End | ConstOp::Other => true,
        _ => false,
    }
}

/// The first operator of an encoded placement.
proof fn lemma_init_expr_start(p: SegmentPlacement<GlobalRef>, bytes: Seq<u8>)
    ensures
        p.offset_spec() <= i32::MAX && bytes == p.init_expr() ==> match p {
            SegmentPlacement::GotBased { global, .. } => starts_with(
                bytes.skip(0),
                seq![0x23u8] + uleb(global.id() as nat),
            ),
            SegmentPlacement::ConstantOffset(base) => starts_with(
                bytes.skip(0),
                seq![0x41u8] + sleb((base as i32) as int),
            ),
        },
{
    match p {
        SegmentPlacement::GotBased { global, .. } => {
            let prefix = seq![0x23u8] + uleb(global.id() as nat);
            if bytes == p.init_expr() {
                assert(bytes.skip(0).take(prefix.len() as int) =~= prefix);
            }
        },
        SegmentPlacement::ConstantOffset(base) => {
            let prefix = seq![0x41u8] + sleb(base as int);
            if bytes == p.init_expr() {
                assert(bytes.skip(0).take(prefix.len() as int) =~= prefix);
            }
        },
    }
}

/// The second operator of an encoded placement.
proof fn lemma_init_expr_second(p: SegmentPlacement<GlobalRef>, bytes: Seq<u8>)
    ensures
        p.offset_spec() <= i32::MAX && bytes == p.init_expr() ==> match p {
            SegmentPlacement::GotBased { global, offset } => starts_with(
                bytes.skip(1 + uleb(global.id() as nat).len() as int),
                seq![0x41u8] + sleb((offset as i32) as int),
            ),
            SegmentPlacement::ConstantOffset(base) => starts_with(
                bytes.skip(1 + sleb((base as i32) as int).len() as int),
                seq![0x0bu8],
            ),
        },
{
    match p {
        SegmentPlacement::GotBased { global, offset } => {
            let rest = bytes.skip(1 + uleb(global.id() as nat).len() as int);
            let prefix = seq![0x41u8] + sleb(offset as int);
            if bytes == p.init_expr() {
                assert(rest.take(prefix.len() as int) =~= prefix);
            }
        },
        SegmentPlacement::ConstantOffset(base) => {
            let rest = bytes.skip(1 + sleb(base as int).len() as int);
            if bytes == p.init_expr() {
                assert(rest.take(1) =~= seq![0x0bu8]);
            }
        },
    }
}

/// The last operators of an encoded placement that a global holds.
proof fn lemma_init_expr_tail(p: SegmentPlacement<GlobalRef>, bytes: Seq<u8>)
    ensures
        p.offset_spec() <= i32::MAX && bytes == p.init_expr() ==> match p {
            SegmentPlacement::GotBased { global, offset } => {
                let at = 2 + uleb(global.id() as nat).len() + sleb((offset as i32) as int).len();
                starts_with(bytes.skip(at as int), seq![0x6au8]) && starts_with(
                    bytes.skip(at as int + 1),
                    seq![0x0bu8],
                )
            },
            SegmentPlacement::ConstantOffset(_) => true,
        },
{
    if let SegmentPlacement::GotBased { global, offset } = p {
        let at = 2 + uleb(global.id() as nat).len() + sleb(offset as int).len();
        if bytes == p.init_expr() {
            assert(bytes.skip(at as int).take(1) =~= seq![0x6au8]);
            assert(bytes.skip(at as int + 1).take(1) =~= seq![0x0bu8]);
        }
    }
}

impl SegmentPlacement<GlobalRef> {
    /// The placement that operators stand for:
    /// - `i32.const` for constant offsets,
    /// - `global.get` for offsets that a global holds,
    /// - `global.get + i32.const` for such offsets plus a constant.
    pub fn from_operators(ops: &[ConstOp]) -> (r: Result<Self, PlacementError>)
        ensures
            match placement_of(ops@) {
                Some(placement) => r == Ok::<Self, PlacementError>(placement),
                None => r == Err::<Self, PlacementError>(PlacementError::TooComplex),
            },
    {
        if ops.len() == 2 {
            match (ops[0], ops[1]) {
                (ConstOp::I32Const(value), ConstOp::End) => {
                    return Ok(
                        SegmentPlacement::ConstantOffset(#[verifier::truncate] (value as u32)),
                    );
                },
                (ConstOp::GlobalGet(global), ConstOp::End) => {
                    return Ok(
                        SegmentPlacement::GotBased {
                            global: GlobalRef::from_raw(global),
                            offset: 0,
                        },
                    );
                },
                _ => {},
            }
        } else if ops.len() == 4 {
            match (ops[0], ops[1], ops[2], ops[3]) {
                (
                    ConstOp::GlobalGet(global),
                    ConstOp::I32Const(value),
                    ConstOp::I32Add,
                    ConstOp::End,
                ) => {
                    return Ok(
                        SegmentPlacement::GotBased {
                            global: GlobalRef::from_raw(global),
                            offset: #[verifier::truncate] (value as u32),
                        },
                    );
                },
                _ => {},
            }
        }
        Err(PlacementError::TooComplex)
    }

    /// Decodes the offset expression of a segment. An encoded placement is decoded to itself.
    pub fn try_from_const_expr(offset_expr: &[u8]) -> (r: Result<Self, PlacementError>)
        ensures
            match operators_from(offset_expr@, 0, 4) {
                None => r == Err::<Self, PlacementError>(PlacementError::Malformed),
                Some(ops) => match placement_of(ops) {
                    Some(placement) => r == Ok::<Self, PlacementError>(placement),
                    None => r == Err::<Self, PlacementError>(PlacementError::TooComplex),
                },
            },
            forall|p: Self|
                p.offset_spec() <= i32::MAX && offset_expr@ == #[trigger] p.init_expr() ==> r
                    == Ok::<Self, PlacementError>(p),
    {
        match read_operators(offset_expr) {
            Some(ops) => Self::from_operators(ops.as_slice()),
            None => Err(PlacementError::Malformed),
        }
    }

    /// The encoded offset expression.
    pub open spec fn init_expr(self) -> Seq<u8> {
        match self {
            SegmentPlacement::GotBased { global, offset } => seq![0x23u8] + uleb(
                global.id() as nat,
            ) + (seq![0x41u8] + sleb(offset as int)) + seq![0x6au8, 0x0bu8],
            SegmentPlacement::ConstantOffset(base) => seq![0x41u8] + sleb(base as int)
                + seq![0x0bu8],
        }
    }

    /// Encodes the offset expression of a segment.
    pub fn to_init_expr(&self) -> (r: Vec<u8>)
        requires
            self.offset_spec() <= i32::MAX,
        ensures
            r@ == self.init_expr(),
    {
        match self {
            SegmentPlacement::GotBased { global, offset } => global_plus_const(
                global.as_u32(),
                *offset as i32,
            ),
            SegmentPlacement::ConstantOffset(base) => const_expr(*base as i32),
        }
    }
}

/// `wasm_encoder::ConstExpr::i32_const`, encoded: the operator, its operand in the fewest bytes,
/// and the end of the expression.
#[verifier::external_body]
pub(crate) fn const_expr(value: i32) -> (r: Vec<u8>)
    ensures
        r@ == seq![0x41u8] + sleb(value as int) + seq![0x0bu8],
{
    let mut bytes = Vec::new();
    wasm_encoder::Encode::encode(&wasm_encoder::ConstExpr::i32_const(value), &mut bytes);
    bytes
}

/// `wasm_encoder::ConstExpr::global_get` with `with_i32_const` and `with_i32_add`, encoded: the
/// operators with their operands in the fewest bytes, and the end of the expression.
#[verifier::external_body]
fn global_plus_const(global: u32, value: i32) -> (r: Vec<u8>)
    ensures
        r@ == seq![0x23u8] + uleb(global as nat) + (seq![0x41u8] + sleb(value as int)) + seq![
            0x6au8,
            0x0bu8,
        ],
{
    let mut bytes = Vec::new();
    let expr = wasm_encoder::ConstExpr::global_get(global).with_i32_const(value).with_i32_add();
    wasm_encoder::Encode::encode(&expr, &mut bytes);
    bytes
}

} // verus!
