//! Layout of the data of a module: symbols behind one another in their segments.
pub mod debug;
pub mod debug_layout;
pub mod dump_laws;
pub mod hexdump;
pub mod laws;

use crate::emit::modify::wasm_emitter::{lemma_after_at_end, lemma_after_twice, Encoder};
use crate::index::{grown, GappedMap, PrimaryMap, ReservedValue, TempIndex};
use crate::layouts::data::{calculate_padding, padding_to, zeros, DataSymbolRef, DefinedDataChunk};
use crate::layouts::{SegmentId, SegmentPlacement};
use crate::typed::duplicate::{lemma_same_body, Duplicate};
use crate::typed::GlobalRef;
use vstd::arithmetic::power2::{lemma_pow2_pos, pow2};
use vstd::bits::{lemma_u32_pow2_no_overflow, lemma_u32_shl_is_mul};
use vstd::prelude::*;

verus! {

/// A place in memory: at a fixed offset, or relative to the value of a global.
pub type SpecificLocation = SegmentPlacement<GlobalRef>;

/// How a segment gets into memory.
#[derive(Debug, Clone, Copy)]
pub enum MemoryPlace {
    /// It is not placed when the module is instantiated.
    Passive,
    /// It follows the segments before it.
    ContinuesMemory,
}

/// A segment of a module.
#[derive(Debug)]
pub struct DataSegmentInfo {
    pub name: String,
    /// Alignment as a power of two.
    pub pow2align: u8,
    pub location: MemoryPlace,
}

/// A data symbol of a module.
#[derive(Debug)]
pub struct DataSymbol {
    pub index: DataSymbolRef,
    pub name: String,
    pub chunk: DefinedDataChunk,
}

/// The data of a module.
#[derive(Debug)]
pub struct DataSpec {
    /// Where the first segment is.
    pub mem_start: SpecificLocation,
    pub segments: Vec<DataSegmentInfo>,
    pub symbols: Vec<DataSymbol>,
}

/// A part of a segment. Padding has no index.
#[derive(Debug)]
pub struct ChunkRepr(pub DefinedDataChunk, pub String, pub Option<DataSymbolRef>);

/// A segment with all its parts.
#[derive(Debug)]
pub struct SegmentLayout {
    pub segment_name: String,
    /// Where the segment is, unless it is passive.
    pub mem_location: Option<SpecificLocation>,
    /// Alignment in bytes.
    pub alignment: u32,
    pub data_parts: Vec<ChunkRepr>,
}

pub type Segments = PrimaryMap<SegmentId, SegmentLayout>;

/// Place of a data symbol.
#[derive(Debug, Clone, Copy, PartialEq, Eq)]
pub struct DataSymbolOffset {
    /// Offset in memory, from the start of the first segment.
    pub addr_of_symbol: usize,
    /// Offset among the bytes of all segments and their headers.
    pub data_section_offset: usize,
}

impl ReservedValue for DataSymbolOffset {
    open spec fn is_reserved_spec(&self) -> bool {
        self.addr_of_symbol == usize::MAX && self.data_section_offset == usize::MAX
    }

    fn reserved_value() -> (r: Self) {
        DataSymbolOffset { addr_of_symbol: usize::MAX, data_section_offset: usize::MAX }
    }

    fn is_reserved_value(&self) -> (r: bool) {
        self.addr_of_symbol == usize::MAX && self.data_section_offset == usize::MAX
    }
}

/// Places of data symbols.
pub type SymbolOffsets = GappedMap<DataSymbolRef, DataSymbolOffset>;

/// A position among the bytes of all segments, and in memory.
pub struct Position {
    pub file: u32,
    pub memory: u32,
}

/// A position among the bytes of all segments, and in memory.
pub ghost struct At {
    pub file: int,
    pub memory: int,
}

impl Position {
    pub open spec fn at(&self) -> At {
        At { file: self.file as int, memory: self.memory as int }
    }
}

/// Tells the symbols of a segment.
pub open spec fn in_segment(s: int) -> spec_fn(DataSymbol) -> bool {
    |symbol: DataSymbol| symbol.chunk.entity_type.segment_id.id() == s
}

/// How many bytes stand before a symbol, so that it is aligned among the bytes of all segments.
pub open spec fn symbol_padding(symbol: DataSymbol, file: int) -> int {
    padding_to(file, pow2(symbol.chunk.entity_type.alignment as nat) as int)
}

/// Where symbols end that start at a position.
pub open spec fn symbols_end(symbols: Seq<DataSymbol>, start: At) -> At
    decreases symbols.len(),
{
    if symbols.len() == 0 {
        start
    } else {
        let at = symbols_end(symbols.drop_last(), start);
        let size = symbol_padding(symbols.last(), at.file)
            + symbols.last().chunk.body.emitted().len();
        At { file: at.file + size, memory: at.memory + size }
    }
}

/// Whether a part is padding.
pub open spec fn is_padding_part(part: ChunkRepr, padding: int, s: int) -> bool {
    &&& part.0.body.emitted() == zeros(padding as nat)
    &&& part.0.body.wf()
    &&& part.0.entity_type.segment_id.id() == s
    &&& part.1@ == "padding"@
    &&& part.2 is None
}

/// Whether a part is a symbol.
pub open spec fn is_symbol_part(part: ChunkRepr, symbol: DataSymbol) -> bool {
    &&& symbol.chunk.same_as(&part.0)
    &&& part.1@ == symbol.name@
    &&& part.2 == Some(symbol.index)
}

/// Whether parts are symbols that start at a position, with padding between them.
pub open spec fn are_segment_parts(
    parts: Seq<ChunkRepr>,
    symbols: Seq<DataSymbol>,
    start: At,
    s: int,
) -> bool
    decreases symbols.len(),
{
    if symbols.len() == 0 {
        parts.len() == 0
    } else {
        let padding = symbol_padding(
            symbols.last(),
            symbols_end(symbols.drop_last(), start).file,
        );
        &&& parts.len() > 0
        &&& is_symbol_part(parts.last(), symbols.last())
        &&& if padding > 0 {
            &&& parts.len() > 1
            &&& is_padding_part(parts[parts.len() - 2], padding, s)
            &&& are_segment_parts(
                parts.take(parts.len() - 2),
                symbols.drop_last(),
                start,
                s,
            )
        } else {
            are_segment_parts(parts.drop_last(), symbols.drop_last(), start, s)
        }
    }
}

/// The places of symbols that start at a position, with others.
pub open spec fn with_symbols(
    places: Seq<Option<DataSymbolOffset>>,
    symbols: Seq<DataSymbol>,
    start: At,
) -> Seq<Option<DataSymbolOffset>>
    decreases symbols.len(),
{
    if symbols.len() == 0 {
        places
    } else {
        let at = symbols_end(symbols.drop_last(), start);
        let padding = symbol_padding(symbols.last(), at.file);
        let id = symbols.last().index.id();
        grown(with_symbols(places, symbols.drop_last(), start), id as nat).update(
            id as int,
            Some(
                DataSymbolOffset {
                    addr_of_symbol: (at.memory + padding) as usize,
                    data_section_offset: (at.file + padding) as usize,
                },
            ),
        )
    }
}

/// The place of the first segment, aligned.
pub open spec fn aligned_start(mem_start: SpecificLocation) -> SpecificLocation {
    mem_start.with_offset(
        (mem_start.offset_spec() + padding_to(mem_start.offset_spec() as int, 16)) as u32,
    )
}

/// Where a segment is.
pub open spec fn segment_location(
    place: MemoryPlace,
    mem_start: SpecificLocation,
    memory: int,
) -> Option<SpecificLocation> {
    match place {
        MemoryPlace::Passive => None,
        MemoryPlace::ContinuesMemory => Some(
            mem_start.with_offset((mem_start.offset_spec() + memory) as u32),
        ),
    }
}

/// The bytes before the data of a segment.
pub open spec fn header_bytes(location: Option<SpecificLocation>) -> Seq<u8> {
    match location {
        None => seq![0x01u8],
        Some(location) => seq![0x00u8] + location.init_expr() + seq![0x0bu8],
    }
}

/// The position of a segment in memory, aligned.
pub open spec fn segment_memory(info: DataSegmentInfo, memory: int) -> int {
    memory + padding_to(memory, pow2(info.pow2align as nat) as int)
}

/// Where the data of a segment starts: its position in memory is aligned, and its header stands
/// before its data.
pub open spec fn segment_start(info: DataSegmentInfo, mem_start: SpecificLocation, end: At) -> At {
    let memory = segment_memory(info, end.memory);
    At {
        file: end.file + header_bytes(segment_location(info.location, mem_start, memory)).len(),
        memory,
    }
}

impl DataSpec {
    /// Where the first segments end.
    pub open spec fn end(&self, count: int) -> At
        decreases count,
    {
        if count <= 0 {
            At { file: 0, memory: 0 }
        } else {
            symbols_end(
                self.symbols@.filter(in_segment(count - 1)),
                segment_start(
                    self.segments@[count - 1],
                    aligned_start(self.mem_start),
                    self.end(count - 1),
                ),
            )
        }
    }

    /// Where the data of a segment starts.
    pub open spec fn start_of(&self, s: int) -> At {
        segment_start(self.segments@[s], aligned_start(self.mem_start), self.end(s))
    }

    /// The places of the symbols of the first segments. Symbols of passive segments have none.
    pub open spec fn places(&self, count: int) -> Seq<Option<DataSymbolOffset>>
        decreases count,
    {
        if count <= 0 {
            Seq::empty()
        } else if self.segments@[count - 1].location is Passive {
            self.places(count - 1)
        } else {
            with_symbols(
                self.places(count - 1),
                self.symbols@.filter(in_segment(count - 1)),
                self.start_of(count - 1),
            )
        }
    }

    /// Whether a segment is laid out.
    pub open spec fn is_laid_out(&self, s: int, segment: SegmentLayout) -> bool {
        let info = self.segments@[s];
        &&& segment.segment_name@ == info.name@
        &&& segment.alignment == pow2(info.pow2align as nat)
        &&& segment.mem_location == segment_location(
            info.location,
            aligned_start(self.mem_start),
            segment_memory(info, self.end(s).memory),
        )
        &&& are_segment_parts(
            segment.data_parts@,
            self.symbols@.filter(in_segment(s)),
            self.start_of(s),
            s,
        )
    }

    /// Whether all alignments and positions are representable, those of segments in memory in the
    /// constants that place them.
    pub open spec fn fits(&self) -> bool {
        let start = self.mem_start.offset_spec() as int;
        let end = self.end(self.segments@.len() as int);
        &&& self.segments@.len() < u32::MAX
        &&& start + padding_to(start, 16) <= u32::MAX
        &&& end.memory <= u32::MAX
        &&& end.file < u32::MAX
        &&& forall|s: int| 0 <= s < self.segments@.len() ==> #[trigger] self.segment_fits(s)
        &&& forall|i: int|
            0 <= i < self.symbols@.len() ==> {
                let symbol = #[trigger] self.symbols@[i];
                &&& symbol.chunk.entity_type.alignment < 32
                &&& symbol.chunk.body.wf()
                &&& symbol.index.id() + 1 < u32::MAX
            }
    }

    /// Whether the alignment of a segment is representable, its place in a constant, and no symbol
    /// of it has more than 64 bytes of padding.
    pub open spec fn segment_fits(&self, s: int) -> bool {
        let info = self.segments@[s];
        let own = self.symbols@.filter(in_segment(s));
        &&& info.pow2align < 32
        &&& info.location is ContinuesMemory ==> aligned_start(self.mem_start).offset_spec()
            + segment_memory(info, self.end(s).memory) <= i32::MAX
        &&& forall|k: int|
            0 <= k < own.len() ==> symbol_padding(
                #[trigger] own[k],
                symbols_end(own.take(k), self.start_of(s)).file,
            ) <= 64
    }
}

proof fn lemma_symbols_end_grows(symbols: Seq<DataSymbol>, start: At, k: int)
    requires
        0 <= k <= symbols.len(),
    ensures
        start.file <= symbols_end(symbols.take(k), start).file <= symbols_end(symbols, start).file,
        start.memory <= symbols_end(symbols.take(k), start).memory <= symbols_end(
            symbols,
            start,
        ).memory,
    decreases symbols.len(),
{
    if symbols.len() > 0 {
        let rest = symbols.drop_last();
        lemma_pow2_pos(
            symbols.last().chunk.entity_type.alignment as nat,
        );
        lemma_symbols_end_grows(rest, start, rest.len() as int);
        assert(rest.take(rest.len() as int) =~= rest);
        if k == symbols.len() {
            assert(symbols.take(k) =~= symbols);
        } else {
            lemma_symbols_end_grows(rest, start, k);
            assert(rest.take(k) =~= symbols.take(k));
        }
    } else {
        assert(symbols.take(k) =~= symbols);
    }
}

proof fn lemma_end_grows(spec: DataSpec, k: int, count: int)
    requires
        0 <= k <= count,
    ensures
        0 <= spec.end(k).file <= spec.end(count).file,
        0 <= spec.end(k).memory <= spec.end(count).memory,
        k < count ==> spec.end(k).file <= spec.start_of(k).file <= spec.end(count).file,
        k < count ==> spec.end(k).memory <= spec.start_of(k).memory <= spec.end(count).memory,
    decreases count,
{
    if count > 0 {
        let own = spec.symbols@.filter(in_segment(count - 1));
        lemma_pow2_pos(spec.segments@[count - 1].pow2align as nat);
        lemma_symbols_end_grows(own, spec.start_of(count - 1), own.len() as int);
        assert(own.take(own.len() as int) =~= own);
        if k < count {
            lemma_end_grows(spec, k, count - 1);
        } else {
            lemma_end_grows(spec, count - 1, count - 1);
        }
    }
}

/// A power of two.
fn power_of_two(exponent: u8) -> (r: u32)
    requires
        exponent < 32,
    ensures
        r == pow2(exponent as nat),
        1 <= r,
{
    proof {
        lemma_pow2_pos(exponent as nat);
        lemma_u32_pow2_no_overflow(exponent as nat);
        lemma_u32_shl_is_mul(1, exponent as u32);
    }
    1u32 << (exponent as u32)
}

proof fn lemma_symbols_filter_step(
    all: Seq<DataSymbol>,
    i: int,
    keep: spec_fn(DataSymbol) -> bool,
)
    requires
        0 <= i < all.len(),
    ensures
        all.take(i + 1).filter(keep) == if keep(all[i]) {
            all.take(i).filter(keep).push(all[i])
        } else {
            all.take(i).filter(keep)
        },
{
    reveal(Seq::filter);
    assert(all.take(i + 1).drop_last() =~= all.take(i));
}

proof fn lemma_filter_prefix(all: Seq<DataSymbol>, i: int, keep: spec_fn(DataSymbol) -> bool)
    requires
        0 <= i <= all.len(),
    ensures
        all.take(i).filter(keep).len() <= all.filter(keep).len(),
        all.take(i).filter(keep) == all.filter(keep).take(
            all.take(i).filter(keep).len() as int,
        ),
    decreases all.len() - i,
{
    if i == all.len() {
        assert(all.take(i) =~= all);
        assert(all.filter(keep).take(all.filter(keep).len() as int) =~= all.filter(keep));
    } else {
        lemma_filter_prefix(all, i + 1, keep);
        lemma_symbols_filter_step(all, i, keep);
        let longer = all.take(i + 1).filter(keep);
        let shorter = all.take(i).filter(keep);
        assert(shorter =~= longer.take(shorter.len() as int));
        assert(longer.take(shorter.len() as int) =~= all.filter(keep).take(shorter.len() as int));
    }
}

impl SegmentLayout {
    /// Where a segment is.
    fn calculate_location(
        place: MemoryPlace,
        mem_start: SpecificLocation,
        mem_offset: u32,
    ) -> (r: Option<SpecificLocation>)
        requires
            place is ContinuesMemory ==> mem_start.offset_spec() + mem_offset <= u32::MAX,
        ensures
            r == segment_location(place, mem_start, mem_offset as int),
    {
        match place {
            MemoryPlace::Passive => None,
            MemoryPlace::ContinuesMemory => Some(mem_start.add_offset(mem_offset)),
        }
    }

    /// The bytes before the data of a segment.
    fn segment_header(location: Option<SpecificLocation>) -> (r: Vec<u8>)
        requires
            location matches Some(location) ==> location.offset_spec() <= i32::MAX,
            header_bytes(location).len() <= u32::MAX,
        ensures
            r@ == header_bytes(location),
    {
        match location {
            None => vec![0x01u8],
            Some(location) => {
                let offset = location.to_init_expr();
                let mut encoder = Encoder::new(Vec::new(), 0);
                let ghost start = encoder@;
                encoder.push_byte(0x00);
                encoder.encode_const_expr(offset.as_slice());
                encoder.push_byte(0x0b);
                proof {
                    lemma_after_twice(start, seq![0x00u8], location.init_expr());
                    lemma_after_twice(
                        start,
                        seq![0x00u8] + location.init_expr(),
                        seq![0x0bu8],
                    );
                    lemma_after_at_end(start, header_bytes(Some(location)));
                }
                let bytes = encoder.into_inner();
                assert(bytes@ =~= header_bytes(Some(location)));
                bytes
            },
        }
    }

    /// Padding before a symbol.
    fn padding_symbol(segment_offset: u32, alignment: u32, segment_id: SegmentId) -> (r: Option<
        ChunkRepr,
    >)
        requires
            alignment >= 1,
        ensures
            ({
                let padding = padding_to(segment_offset as int, alignment as int);
                match r {
                    Some(part) => padding > 0 && is_padding_part(
                        part,
                        padding,
                        segment_id.id() as int,
                    ),
                    None => padding == 0,
                }
            }),
    {
        let padding: usize = calculate_padding(segment_offset as usize, alignment as usize);
        if padding > 0 {
            Some(
                ChunkRepr(
                    DefinedDataChunk::padding_symbol(padding, segment_id),
                    "padding".to_owned(),
                    None,
                ),
            )
        } else {
            None
        }
    }

    /// Lays out the symbols of a segment, behind a position.
    fn place_symbols(
        spec: &DataSpec,
        s: usize,
        position: &mut Position,
        mapping: &mut SymbolOffsets,
    ) -> (r: Vec<ChunkRepr>)
        requires
            spec.fits(),
            s < spec.segments@.len(),
            old(position).at() == spec.start_of(s as int),
            old(mapping).wf(),
            old(mapping)@ == spec.places(s as int),
        ensures
            are_segment_parts(
                r@,
                spec.symbols@.filter(in_segment(s as int)),
                spec.start_of(s as int),
                s as int,
            ),
            final(position).at() == spec.end(s + 1),
            final(mapping).wf(),
            final(mapping)@ == spec.places(s + 1),
    {
        let ghost all = spec.symbols@;
        let ghost keep = in_segment(s as int);
        let ghost own = all.filter(keep);
        let ghost start = spec.start_of(s as int);
        let ghost before = spec.places(s as int);
        let segment_id = SegmentId::new(s);
        let is_passive = match spec.segments[s].location {
            MemoryPlace::Passive => true,
            MemoryPlace::ContinuesMemory => false,
        };
        let mut parts: Vec<ChunkRepr> = Vec::new();
        let mut i: usize = 0;
        proof {
            reveal(Seq::filter);
            assert(all.take(0).filter(keep) =~= Seq::<DataSymbol>::empty());
            lemma_end_grows(*spec, s + 1, spec.segments@.len() as int);
        }
        while i < spec.symbols.len()
            invariant
                i <= all.len(),
                all == spec.symbols@,
                keep == in_segment(s as int),
                own == all.filter(keep),
                spec.fits(),
                s < spec.segments@.len(),
                segment_id.id() == s,
                start == spec.start_of(s as int),
                before == spec.places(s as int),
                is_passive == spec.segments@[s as int].location is Passive,
                symbols_end(own, start).file < u32::MAX,
                symbols_end(own, start).memory <= u32::MAX,
                position.at() == symbols_end(all.take(i as int).filter(keep), start),
                are_segment_parts(parts@, all.take(i as int).filter(keep), start, s as int),
                mapping.wf(),
                mapping@ == if is_passive {
                    before
                } else {
                    with_symbols(before, all.take(i as int).filter(keep), start)
                },
            decreases all.len() - i,
        {
            let symbol = &spec.symbols[i];
            let ghost done = all.take(i as int).filter(keep);
            proof {
                lemma_symbols_filter_step(all, i as int, keep);
            }
            if symbol.chunk.entity_type.segment_id.as_u32() as usize == s {
                let ghost longer = all.take(i + 1).filter(keep);
                proof {
                    assert(longer == done.push(all[i as int]));
                    assert(longer.drop_last() =~= done);
                    assert(longer.last() == all[i as int]);
                    lemma_filter_prefix(all, i + 1, keep);
                    lemma_symbols_end_grows(own, start, longer.len() as int);
                    assert(spec.symbols@[i as int].chunk.body.wf());
                }
                let alignment: u32 = power_of_two(symbol.chunk.entity_type.alignment);
                let ghost old_parts = parts@;
                let ghost at = position.at();
                let padding: u32 = calculate_padding(
                    position.file as usize,
                    alignment as usize,
                ) as u32;
                let body_len: usize = symbol.chunk.body.len();
                if let Some(part) = Self::padding_symbol(position.file, alignment, segment_id) {
                    parts.push(part);
                }
                let ghost padded = parts@;
                parts.push(
                    ChunkRepr(symbol.chunk.duplicate(), symbol.name.clone(), Some(symbol.index)),
                );
                position.file = position.file + padding;
                position.memory = position.memory + padding;
                if !is_passive {
                    let place = DataSymbolOffset {
                        addr_of_symbol: position.memory as usize,
                        data_section_offset: position.file as usize,
                    };
                    let _ = mapping.insert(symbol.index, place);
                }
                position.file = position.file + body_len as u32;
                position.memory = position.memory + body_len as u32;
                proof {
                    assert(parts@.last() == parts@[parts@.len() - 1]);
                    if padding > 0 {
                        assert(parts@.take(parts@.len() - 2) =~= old_parts);
                    } else {
                        assert(parts@.drop_last() =~= old_parts);
                    }
                    assert(are_segment_parts(parts@, longer, start, s as int));
                }
            }
            i = i + 1;
        }
        assert(all.take(i as int) =~= all);
        parts
    }

    /// Lays out the data of a module. The first segment is at the start of the memory, aligned to 16
    /// bytes, and the others follow it, aligned too. Returns the segments and the places of the
    /// symbols; those of passive segments have none.
    pub fn build_for_module(spec: &DataSpec) -> (r: (Segments, SymbolOffsets))
        requires
            spec.fits(),
        ensures
            r.0@.len() == spec.segments@.len(),
            forall|s: int|
                0 <= s < r.0@.len() ==> spec.is_laid_out(s, #[trigger] r.0@[s]),
            r.1.wf(),
            r.1@ == spec.places(spec.segments@.len() as int),
    {
        let ghost count = spec.segments@.len() as int;
        proof {
            lemma_end_grows(*spec, 0, count);
        }
        let base: u32 = calculate_padding(spec.mem_start.offset() as usize, 16) as u32;
        let mem_start = spec.mem_start.add_offset(base);
        assert(mem_start == aligned_start(spec.mem_start));
        let mut results: Segments = PrimaryMap::new();
        let mut mapping: SymbolOffsets = GappedMap::new();
        let mut position = Position { file: 0, memory: 0 };
        let mut s: usize = 0;
        while s < spec.segments.len()
            invariant
                s <= spec.segments@.len(),
                count == spec.segments@.len(),
                spec.fits(),
                mem_start == aligned_start(spec.mem_start),
                results@.len() == s,
                forall|t: int|
                    0 <= t < s ==> spec.is_laid_out(t, #[trigger] results@[t]),
                position.at() == spec.end(s as int),
                mapping.wf(),
                mapping@ == spec.places(s as int),
            decreases spec.segments@.len() - s,
        {
            proof {
                lemma_end_grows(*spec, s as int, count);
            }
            let info = &spec.segments[s];
            assert(spec.segment_fits(s as int));
            let alignment: u32 = power_of_two(info.pow2align);
            let padding: u32 = calculate_padding(
                position.memory as usize,
                alignment as usize,
            ) as u32;
            position.memory = position.memory + padding;
            let location = Self::calculate_location(info.location, mem_start, position.memory);
            let header = Self::segment_header(location);
            position.file = position.file + header.len() as u32;
            let data_parts = Self::place_symbols(spec, s, &mut position, &mut mapping);
            let _ = results.push(
                SegmentLayout {
                    segment_name: info.name.clone(),
                    alignment,
                    data_parts,
                    mem_location: location,
                },
            );
            s = s + 1;
        }
        (results, mapping)
    }

    pub fn is_empty(&self) -> (r: bool)
        ensures
            r == (self.data_parts@.len() == 0),
    {
        self.data_parts.len() == 0
    }

    pub fn memory_location(&self) -> (r: Option<SpecificLocation>)
        ensures
            r == self.mem_location,
    {
        self.mem_location
    }

    /// The memory of the segment; there is only one.
    pub fn memory_index(&self) -> (r: u32)
        ensures
            r == 0,
    {
        0
    }

    /// The bytes of the segment, without its header.
    pub fn data_stream(&self) -> (r: Vec<u8>)
        requires
            forall|i: int|
                0 <= i < self.data_parts@.len() ==> (
                #[trigger] self.data_parts@[i]).0.body.wf(),
        ensures
            r@ == parts_data(self.data_parts@),
    {
        let mut bytes: Vec<u8> = Vec::new();
        let mut i: usize = 0;
        assert(self.data_parts@.take(0) =~= Seq::<ChunkRepr>::empty());
        while i < self.data_parts.len()
            invariant
                i <= self.data_parts@.len(),
                forall|i: int|
                    0 <= i < self.data_parts@.len() ==> (
                    #[trigger] self.data_parts@[i]).0.body.wf(),
                bytes@ == parts_data(self.data_parts@.take(i as int)),
            decreases self.data_parts@.len() - i,
        {
            self.data_parts[i].0.body.append_to(&mut bytes);
            assert(self.data_parts@.take(i + 1).drop_last() =~= self.data_parts@.take(i as int));
            i = i + 1;
        }
        assert(self.data_parts@.take(i as int) =~= self.data_parts@);
        bytes
    }
}

/// The bytes of parts, behind one another.
pub open spec fn parts_data(parts: Seq<ChunkRepr>) -> Seq<u8>
    decreases parts.len(),
{
    if parts.len() == 0 {
        Seq::empty()
    } else {
        parts_data(parts.drop_last()) + parts.last().0.body.emitted()
    }
}

/// The symbols and the padding of a segment take up the bytes from its start to its end.
pub proof fn lemma_parts_fill_segment(
    parts: Seq<ChunkRepr>,
    symbols: Seq<DataSymbol>,
    start: At,
    s: int,
)
    requires
        are_segment_parts(parts, symbols, start, s),
    ensures
        parts_data(parts).len() == symbols_end(symbols, start).file - start.file,
        parts_data(parts).len() == symbols_end(symbols, start).memory - start.memory,
    decreases symbols.len(),
{
    if symbols.len() > 0 {
        let rest = symbols.drop_last();
        let padding = symbol_padding(symbols.last(), symbols_end(rest, start).file);
        lemma_pow2_pos(
            symbols.last().chunk.entity_type.alignment as nat,
        );
        lemma_same_body(symbols.last().chunk.body, parts.last().0.body);
        if padding > 0 {
            let shorter = parts.take(parts.len() - 2);
            lemma_parts_fill_segment(shorter, rest, start, s);
            let padded = parts.drop_last();
            assert(padded.drop_last() =~= shorter);
            assert(padded.last() == parts[parts.len() - 2]);
            assert(parts_data(padded) == parts_data(shorter) + padded.last().0.body.emitted());
        } else {
            lemma_parts_fill_segment(parts.drop_last(), rest, start, s);
        }
    }
}

} // verus!
