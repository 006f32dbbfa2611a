//! Layout of the data segments of memories.
pub mod builder;
pub mod limits;
pub mod reader;
pub mod reading_laws;
pub mod sealed;

use crate::emit::relocation::encode::{fixed_leb, lemma_fixed_leb_len};
use crate::emit::modify::wasm_emitter::{lemma_after_at_end, lemma_after_twice, Encoder};
use crate::index::{GappedMap, ReservedValue, TempIndex};
use crate::layouts::data::builder::DataKind;
use crate::layouts::data::sealed::DataItemPlace;
use crate::layouts::SegmentId;
use crate::typed::body::EntityBody;
use crate::typed::entities::{DefinedEntity, ImportedEntity};
use crate::typed::MemoryRef;
use vstd::prelude::*;

verus! {

/// Index of a data symbol.
#[derive(Clone, Copy, Debug, PartialEq, Eq, PartialOrd, Ord, Hash, Structural)]
pub struct DataSymbolRef {
    pub id: u32,
}

impl TempIndex for DataSymbolRef {
    open spec fn id(self) -> u32 {
        self.id
    }

    proof fn lemma_id_injective(a: Self, b: Self) {
    }

    fn from_raw(value: u32) -> (r: Self) {
        DataSymbolRef { id: value }
    }

    fn as_u32(&self) -> (r: u32) {
        self.id
    }
}

impl ReservedValue for DataSymbolRef {
    open spec fn is_reserved_spec(&self) -> bool {
        self.id() == u32::MAX
    }

    fn reserved_value() -> (r: Self) {
        Self::reserved()
    }

    fn is_reserved_value(&self) -> (r: bool) {
        self.is_reserved()
    }
}

impl Default for DataSymbolRef {
    fn default() -> (r: Self)
        ensures
            r.id() == u32::MAX,
    {
        Self::reserved()
    }
}

/// Alignment of the base of a memory, as a power of two.
pub const BASE_ALIGNMENT: u8 = 4;

/// Where data starts if nothing else is said.
pub const DEFAULT_HEAP_START: u32 = 0x100000;

pub type ImportedDataChunk = ImportedEntity<()>;

pub type DefinedDataChunk = DefinedEntity<ItemType>;

/// Places of data symbols.
pub type DataSymbolsOffsets = GappedMap<DataSymbolRef, DataItemPlace>;

/// Segment and alignment of an item.
#[derive(Clone, Copy, Debug, PartialEq, Eq, Hash, Structural)]
pub struct ItemType {
    pub segment_id: SegmentId,
    /// Alignment as a power of two.
    pub alignment: u8,
}

impl ItemType {
    /// An item of a table; elements have no alignment.
    pub fn element_item(segment_id: SegmentId) -> (r: Self)
        ensures
            r == (ItemType { segment_id, alignment: 0 }),
    {
        ItemType { segment_id, alignment: 0 }
    }

    pub fn data_chunk(segment_id: SegmentId, align: u8) -> (r: Self)
        ensures
            r == (ItemType { segment_id, alignment: align }),
    {
        ItemType { segment_id, alignment: align }
    }
}

impl DefinedDataChunk {
    /// The name of the chunk, or a stand-in for it.
    pub fn debug_name(&self) -> (r: &str)
        ensures
            r@ == match self.name {
                Some(name) => name@,
                None => "<unnamed>"@,
            },
    {
        match &self.name {
            Some(name) => name.as_str(),
            None => "<unnamed>",
        }
    }

    /// Zeros that fill the space between two items.
    pub(crate) fn padding_symbol(padding: usize, segment_id: SegmentId) -> (r: Self)
        ensures
            r.entity_type == (ItemType { segment_id, alignment: 0 }),
            r.name matches Some(name) && name@ == "padding"@,
            r.export_as@ == Seq::<String>::empty(),
            r.body.wf(),
            r.body.emitted() == zeros(padding as nat),
    {
        let bytes: Vec<u8> = vec![0u8; padding];
        assert(bytes@ =~= zeros(padding as nat));
        DefinedEntity {
            entity_type: ItemType::data_chunk(segment_id, 0),
            name: Some("padding".to_owned()),
            export_as: Vec::new(),
            body: EntityBody::new_empty(bytes),
        }
    }
}

/// A run of zeros.
pub open spec fn zeros(len: nat) -> Seq<u8> {
    Seq::new(len, |i: int| 0u8)
}

/// Places of an item.
#[derive(Copy, Debug, Clone, Eq, PartialEq, Structural)]
pub struct Offsets {
    /// Offset in the file, relative to the start of the section.
    pub section_offset: usize,
    /// Offset in the address space of the owner.
    pub va_address: usize,
}

impl ReservedValue for Offsets {
    open spec fn is_reserved_spec(&self) -> bool {
        self.section_offset == usize::MAX && self.va_address == usize::MAX
    }

    fn reserved_value() -> (r: Self) {
        Offsets { section_offset: usize::MAX, va_address: usize::MAX }
    }

    fn is_reserved_value(&self) -> (r: bool) {
        self.section_offset == usize::MAX && self.va_address == usize::MAX
    }
}

/// Two to the power of `exp`.
pub open spec fn power2(exp: nat) -> nat
    decreases exp,
{
    if exp == 0 {
        1
    } else {
        2 * power2((exp - 1) as nat)
    }
}

pub(crate) proof fn lemma_power2_positive(exp: nat)
    ensures
        power2(exp) > 0,
    decreases exp,
{
    if exp > 0 {
        lemma_power2_positive((exp - 1) as nat);
    }
}

pub(crate) proof fn lemma_power2_monotone(low: nat, high: nat)
    requires
        low <= high,
    ensures
        power2(low) <= power2(high),
    decreases high - low,
{
    if low < high {
        lemma_power2_monotone(low, (high - 1) as nat);
        lemma_power2_positive((high - 1) as nat);
    }
}

/// Two to the power of `exp`.
pub(crate) fn power_of_two(exp: u8) -> (r: usize)
    requires
        power2(exp as nat) <= usize::MAX,
    ensures
        r == power2(exp as nat),
{
    let mut result: usize = 1;
    let mut i: u8 = 0;
    while i < exp
        invariant
            i <= exp,
            result == power2(i as nat),
            power2(exp as nat) <= usize::MAX,
        decreases exp - i,
    {
        proof {
            lemma_power2_monotone((i + 1) as nat, exp as nat);
        }
        result = result * 2;
        i = i + 1;
    }
    result
}

/// The distance from a place to the next multiple of an alignment.
pub open spec fn padding_to(start: int, alignment: int) -> int {
    if start % alignment == 0 {
        0
    } else {
        alignment - start % alignment
    }
}

/// The distance from a place to the next multiple of an alignment.
pub(crate) fn calculate_padding(starting_point: usize, alignment: usize) -> (r: usize)
    requires
        alignment > 0,
    ensures
        r == padding_to(starting_point as int, alignment as int),
        r < alignment,
{
    let misalignment: usize = starting_point % alignment;
    if misalignment == 0 {
        0
    } else {
        alignment - misalignment
    }
}

/// Padding leads to a multiple of the alignment, and to no later one than necessary.
pub proof fn lemma_padding_aligns(start: int, alignment: int)
    requires
        0 <= start,
        0 < alignment,
    ensures
        (start + padding_to(start, alignment)) % alignment == 0,
        0 <= padding_to(start, alignment) < alignment,
{
    let p = padding_to(start, alignment);
    let m = start % alignment;
    assert(start == alignment * (start / alignment) + m && 0 <= m < alignment)
        by (nonlinear_arith)
        requires
            alignment > 0,
            m == start % alignment,
    ;
    let q = if m == 0 {
        start / alignment
    } else {
        start / alignment + 1
    };
    assert(start + p == alignment * q) by (nonlinear_arith)
        requires
            start == alignment * (start / alignment) + m,
            p == if m == 0 {
                0
            } else {
                alignment - m
            },
            q == if m == 0 {
                start / alignment
            } else {
                start / alignment + 1
            },
    ;
    vstd::arithmetic::div_mod::lemma_mod_multiples_basic(q, alignment);
    assert(alignment * q == q * alignment) by (nonlinear_arith);
}

/// Whether `guess` is the largest alignment, up to that of its segment, that a place in the segment
/// has.
pub open spec fn is_guess(guess: u8, segment_pow2align: u8, start: int) -> bool {
    &&& guess <= segment_pow2align
    &&& start % power2(guess as nat) as int == 0
    &&& guess == segment_pow2align || start % power2((guess + 1) as nat) as int != 0
}

/// The largest alignment, up to that of its segment, that a place in the segment has.
pub(crate) fn guess_data_alignment(segment_pow2align: u8, start_mem_offset: usize) -> (r: u8)
    ensures
        is_guess(r, segment_pow2align, start_mem_offset as int),
{
    let mut r: u8 = 0;
    let mut rest: usize = start_mem_offset;
    assert(power2(0) == 1);
    assert(start_mem_offset == rest * power2(0)) by (nonlinear_arith)
        requires
            power2(0) == 1,
            rest == start_mem_offset,
    ;
    while r < segment_pow2align && rest % 2 == 0
        invariant
            r <= segment_pow2align,
            start_mem_offset == rest * power2(r as nat),
        decreases segment_pow2align - r,
    {
        proof {
            let half = rest as int / 2;
            assert(start_mem_offset == half * power2((r + 1) as nat)) by (nonlinear_arith)
                requires
                    start_mem_offset == rest * power2(r as nat),
                    rest == 2 * half,
                    power2((r + 1) as nat) == 2 * power2(r as nat),
            ;
        }
        rest = rest / 2;
        r = r + 1;
    }
    proof {
        let unit = power2(r as nat) as int;
        lemma_power2_positive(r as nat);
        vstd::arithmetic::div_mod::lemma_mod_multiples_basic(rest as int, unit);
        if r < segment_pow2align {
            let double = power2((r + 1) as nat) as int;
            let half = rest as int / 2;
            assert(start_mem_offset == double * half + unit) by (nonlinear_arith)
                requires
                    start_mem_offset == rest * unit,
                    rest == 2 * half + 1,
                    double == 2 * unit,
            ;
            vstd::arithmetic::div_mod::lemma_fundamental_div_mod_converse(
                start_mem_offset as int,
                double,
                half,
                unit,
            );
        }
    }
    r
}

/// The header of a data segment: its mode and where it starts. Its length follows.
pub open spec fn segment_header(kind: DataKind<MemoryRef>) -> Seq<u8> {
    match kind {
        DataKind::Passive => seq![0x01u8],
        DataKind::Active { memory_ref, location } => (if memory_ref.id() == 0 {
            seq![0x00u8]
        } else {
            seq![0x02u8] + fixed_leb(memory_ref.id() as int, 5)
        }) + location.init_expr(),
    }
}

/// Whether the offset of a segment can be encoded.
pub open spec fn encodable(kind: DataKind<MemoryRef>) -> bool {
    kind matches DataKind::Active { location, .. } ==> location.offset_spec() <= i32::MAX
}

/// Encodes the header of a data segment.
pub(crate) fn data_segment_header_start(kind: DataKind<MemoryRef>) -> (r: Vec<u8>)
    requires
        encodable(kind),
        segment_header(kind).len() <= u32::MAX,
    ensures
        r@ == segment_header(kind),
{
    broadcast use lemma_after_twice;

    match kind {
        DataKind::Passive => vec![0x01u8],
        DataKind::Active { memory_ref, location } => {
            let offset = location.to_init_expr();
            let mut encoder = Encoder::new(Vec::new(), 0);
            let ghost start = encoder@;
            let memory_index: u32 = memory_ref.as_u32();
            if memory_index == 0 {
                encoder.push_byte(0x00);
            } else {
                encoder.push_byte(0x02);
                proof {
                    lemma_fixed_leb_len(memory_index as int, 5);
                }
                let _ = encoder.encode_leb_5byte(memory_index);
            }
            encoder.encode_const_expr(offset.as_slice());
            proof {
                assert(encoder@ == start.after(segment_header(kind)));
                lemma_after_at_end(
                    start,
                    segment_header(kind),
                );
            }
            let bytes = encoder.into_inner();
            assert(bytes@ =~= segment_header(kind));
            bytes
        },
    }
}

} // verus!
