//! Data layouts of object files.
use crate::index::{
    filled, grown, lemma_all_filled, lemma_filled_bound, lemma_insert_then_get, slot_at, GappedMap,
    MAX_VALUE, PrimaryMap, TempIndex, WithStart,
};
use crate::layouts::data::builder::{is_padding, DataKind};
use crate::layouts::data::sealed::{
    DataItemPlace, MemLayoutSealed, SealedDataItem, SealedDataSegment,
};
use crate::layouts::data::{
    guess_data_alignment, is_guess, DataSymbolRef, DefinedDataChunk, ItemType, Offsets,
};
use crate::layouts::{
    operators_from, placement_of, PartId, PlacementError, SegmentId, SegmentPlacement,
};
use crate::linkage::file_db::{FileSymbolDb, SymbolOffset};
use crate::linkage::{
    data_key, defined_data, indexed_entity, ordered_data, supported, symbol_in_range, DataDefined,
    LinkageInfo,
};
use crate::raw::{ObjectReader, RawData, RawDataKind, SegmentInfo};
use crate::sorting::lemma_sorted;
use crate::text::{decimal, decimal_string};
use crate::typed::body::{bits_of, EntityBody, EntityBodyCopy};
use crate::typed::entities::DefinedEntity;
use crate::typed::{EntityKind, MemoryRef, SymbolId};
use core::ops::Range;
use vstd::prelude::*;
use vstd::slice::slice_subrange;
use vstd::slice::slice_to_vec;
use vstd::string::StringExecFns;

verus! {

/// How a stored data segment is placed, if its offset expression is a placement.
pub open spec fn stored_kind(kind: RawDataKind) -> Result<DataKind<MemoryRef>, PlacementError> {
    match kind {
        RawDataKind::Passive => Ok(DataKind::Passive),
        RawDataKind::Active { memory_index, offset_expr } => match operators_from(
            offset_expr@,
            0,
            4,
        ) {
            None => Err(PlacementError::Malformed),
            Some(ops) => match placement_of(ops) {
                None => Err(PlacementError::TooComplex),
                Some(location) => Ok(
                    DataKind::Active { memory_ref: MemoryRef { id: memory_index }, location },
                ),
            },
        },
    }
}

/// How a stored data segment is placed.
pub fn data_kind_to_location(data_kind: &RawDataKind) -> (r: Result<
    DataKind<MemoryRef>,
    PlacementError,
>)
    ensures
        r == stored_kind(*data_kind),
{
    match data_kind {
        RawDataKind::Passive => Ok(DataKind::Passive),
        RawDataKind::Active { memory_index, offset_expr } => {
            match SegmentPlacement::try_from_const_expr(offset_expr.as_slice()) {
                Ok(location) => Ok(
                    DataKind::Active { memory_ref: MemoryRef::from_raw(*memory_index), location },
                ),
                Err(error) => Err(error),
            }
        },
    }
}

/// The error of the first stored segment whose offset expression is no placement.
pub open spec fn first_error(segments: Seq<RawData>) -> Option<PlacementError>
    decreases segments.len(),
{
    if segments.len() == 0 {
        None
    } else {
        match first_error(segments.drop_last()) {
            Some(error) => Some(error),
            None => match stored_kind(segments.last().kind) {
                Ok(_) => None,
                Err(error) => Some(error),
            },
        }
    }
}

proof fn lemma_no_error(segments: Seq<RawData>, i: int)
    requires
        first_error(segments) is None,
        0 <= i < segments.len(),
    ensures
        stored_kind(segments[i].kind) is Ok,
    decreases segments.len(),
{
    if i < segments.len() - 1 {
        lemma_no_error(segments.drop_last(), i);
    }
}

proof fn lemma_error_stays(segments: Seq<RawData>, k: int)
    requires
        0 <= k <= segments.len(),
        first_error(segments.take(k)) is Some,
    ensures
        first_error(segments) == first_error(segments.take(k)),
    decreases segments.len(),
{
    if k < segments.len() {
        assert(segments.drop_last().take(k) =~= segments.take(k));
        lemma_error_stays(segments.drop_last(), k);
    } else {
        assert(segments.take(k) =~= segments);
    }
}

/// A defined data symbol of the symbol table.
pub type DataSymbol = (SymbolId, DataDefined);

/// Whether a symbol follows another one of the same segment.
pub open spec fn continues(symbols: Seq<DataSymbol>, j: int) -> bool {
    0 < j < symbols.len() && symbols[j - 1].1.segment_id == symbols[j].1.segment_id
}

/// The symbol whose bytes include those of the symbol with number `j`: the last one that got
/// bytes of its own, if it ends no earlier, or else the symbol itself.
pub open spec fn keeper(symbols: Seq<DataSymbol>, j: int) -> int
    decreases j,
{
    if !continues(symbols, j) {
        j
    } else {
        let k = keeper(symbols, j - 1);
        if symbols[k].1.range.end >= symbols[j].1.range.end {
            k
        } else {
            j
        }
    }
}

/// The place in the segment up to which bytes belong to symbols, before the symbol with number
/// `j`.
pub open spec fn covered(symbols: Seq<DataSymbol>, j: int) -> int {
    if continues(symbols, j) {
        symbols[keeper(symbols, j - 1)].1.range.end as int
    } else {
        0
    }
}

/// Number of parts of the segment, up to the symbol with number `j`.
pub open spec fn parts_up_to(symbols: Seq<DataSymbol>, j: int) -> int
    decreases j,
{
    let before = if continues(symbols, j) {
        parts_up_to(symbols, j - 1)
    } else {
        0
    };
    if keeper(symbols, j) != j {
        before
    } else if covered(symbols, j) < symbols[j].1.range.start {
        before + 2
    } else {
        before + 1
    }
}

/// Where the data of a stored segment starts in the file.
pub open spec fn data_start(segment: RawData) -> int {
    segment.range.end - segment.data@.len()
}

/// The place of a data symbol that has bytes of its own.
pub open spec fn symbol_place(
    segments: Seq<RawData>,
    symbols: Seq<DataSymbol>,
    j: int,
) -> DataItemPlace {
    let symbol = symbols[j].1;
    DataItemPlace {
        offsets: Offsets {
            section_offset: (data_start(segments[symbol.segment_id.id() as int])
                + symbol.range.start) as usize,
            va_address: symbol.range.start as usize,
        },
        segment_id: symbol.segment_id,
        part_id: PartId { id: (parts_up_to(symbols, j) - 1) as u32 },
    }
}

/// The places of the first symbols that have bytes of their own.
pub open spec fn symbol_places(
    segments: Seq<RawData>,
    symbols: Seq<DataSymbol>,
    count: int,
) -> Seq<Option<DataItemPlace>>
    decreases count,
{
    if count <= 0 {
        Seq::empty()
    } else {
        let j = count - 1;
        let before = symbol_places(segments, symbols, j);
        if keeper(symbols, j) == j {
            grown(before, j as nat).update(j, Some(symbol_place(segments, symbols, j)))
        } else {
            before
        }
    }
}

/// Whether a part holds the bytes of a data symbol.
pub open spec fn is_symbol_part(
    part: SealedDataItem,
    segments: Seq<RawData>,
    infos: Seq<SegmentInfo>,
    symbols: Seq<DataSymbol>,
    j: int,
) -> bool {
    let symbol = symbols[j].1;
    let segment = segments[symbol.segment_id.id() as int];
    let start = symbol.range.start as int;
    let end = symbol.range.end as int;
    &&& part.item_id == Some(DataSymbolRef { id: j as u32 })
    &&& part.defined_entity.name matches Some(name) && name@ == symbol.name@
    &&& part.defined_entity.export_as@ == Seq::<String>::empty()
    &&& part.defined_entity.entity_type.segment_id == symbol.segment_id
    &&& is_guess(
        part.defined_entity.entity_type.alignment,
        infos[symbol.segment_id.id() as int].alignment as u8,
        start,
    )
    &&& part.defined_entity.body matches EntityBody::Copied(copy) && copy.bytes@
        == segment.data@.subrange(start, end) && copy.original_range.start == data_start(segment)
        + start && copy.original_range.end == data_start(segment) + end && copy.fixups@.len() == 0
        && bits_of(copy.filtered_relocs) == Set::<int>::empty()
}

/// Whether parts are those of the segment of the symbol with number `j`, up to that symbol: the
/// symbols that have bytes of their own, and zeros for the gaps between them.
pub open spec fn parts_are_symbols(
    parts: Seq<SealedDataItem>,
    segments: Seq<RawData>,
    infos: Seq<SegmentInfo>,
    symbols: Seq<DataSymbol>,
    j: int,
) -> bool
    decreases j,
{
    if keeper(symbols, j) != j {
        continues(symbols, j) && parts_are_symbols(parts, segments, infos, symbols, j - 1)
    } else {
        let gap = symbols[j].1.range.start - covered(symbols, j);
        let own = if gap > 0 {
            2int
        } else {
            1
        };
        let rest = parts.take(parts.len() - own);
        &&& parts.len() >= own
        &&& is_symbol_part(parts.last(), segments, infos, symbols, j)
        &&& gap > 0 ==> is_padding(
            parts[parts.len() - 2],
            gap,
            symbols[j].1.segment_id.id() as int,
        )
        &&& if continues(symbols, j) {
            parts_are_symbols(rest, segments, infos, symbols, j - 1)
        } else {
            rest.len() == 0
        }
    }
}

/// Whether the data symbols fit into the stored segments, and no symbol with bytes of its own
/// overlaps another one.
#[verifier::opaque]
pub open spec fn symbols_fit(
    segments: Seq<RawData>,
    infos: Seq<SegmentInfo>,
    symbols: Seq<DataSymbol>,
) -> bool {
    &&& symbols.len() < MAX_VALUE
    &&& infos.len() <= segments.len()
    &&& infos.len() < u32::MAX
    &&& forall|s: int|
        0 <= s < infos.len() ==> (#[trigger] infos[s]).alignment <= u8::MAX && segments[s].data@.len()
            <= segments[s].range.end
    &&& forall|j: int|
        0 <= j < symbols.len() ==> {
            let symbol = (#[trigger] symbols[j]).1;
            &&& symbol.segment_id.id() < infos.len()
            &&& symbol.range.start <= symbol.range.end
                <= segments[symbol.segment_id.id() as int].data@.len()
            &&& !continues(symbols, j) ==> symbol.range.end > 0
            &&& keeper(symbols, j) == j ==> covered(symbols, j) <= symbol.range.start
        }
}

pub(crate) proof fn lemma_keeper(symbols: Seq<DataSymbol>, j: int)
    requires
        0 <= j < symbols.len(),
    ensures
        0 <= keeper(symbols, j) <= j,
        keeper(symbols, keeper(symbols, j)) == keeper(symbols, j),
        symbols[keeper(symbols, j)].1.segment_id == symbols[j].1.segment_id,
        symbols[keeper(symbols, j)].1.range.end >= symbols[j].1.range.end,
    decreases j,
{
    if continues(symbols, j) {
        lemma_keeper(symbols, j - 1);
    }
}

pub(crate) proof fn lemma_parts_up_to(symbols: Seq<DataSymbol>, j: int)
    requires
        0 <= j < symbols.len(),
    ensures
        0 < parts_up_to(symbols, j) <= 2 * (j + 1),
        keeper(symbols, j) <= j,
    decreases j,
{
    lemma_keeper(symbols, j);
    if continues(symbols, j) {
        lemma_parts_up_to(symbols, j - 1);
    }
}

/// Data symbols in order of their places are in order of their segments.
proof fn lemma_ordered_segments(reader: ObjectReader)
    ensures
        forall|a: int, b: int|
            #![trigger ordered_data(reader.linking_symbols@)[a], ordered_data(
                reader.linking_symbols@,
            )[b]]
            0 <= a <= b < ordered_data(reader.linking_symbols@).len() ==> ordered_data(
                reader.linking_symbols@,
            )[a].1.segment_id.id() <= ordered_data(
                reader.linking_symbols@,
            )[b].1.segment_id.id(),
{
    let ordered = ordered_data(reader.linking_symbols@);
    lemma_sorted(
        defined_data(reader.linking_symbols@),
        data_key(),
    );
    assert forall|a: int, b: int|
        #![trigger ordered[a], ordered[b]]
        0 <= a <= b < ordered.len() implies ordered[a].1.segment_id.id()
        <= ordered[b].1.segment_id.id() by {
        let key = data_key();
        assert(key(ordered[a]) <= key(ordered[b]));
    }
}

/// The entry of the symbol table for a data symbol: the symbol that has its bytes, and where it
/// starts in them.
pub open spec fn merged_symbol(symbols: Seq<DataSymbol>, j: int) -> SymbolOffset {
    let k = keeper(symbols, j);
    SymbolOffset {
        entity: EntityKind::DataSymbol(DataSymbolRef { id: k as u32 }),
        offset_in_entity: (symbols[j].1.range.start - symbols[k].1.range.start) as u32,
        used_definition: true,
    }
}

/// Whether a sealed segment has what a stored segment says of it.
pub open spec fn is_stored_segment(
    sealed: SealedDataSegment,
    info: SegmentInfo,
    stored: RawData,
) -> bool {
    &&& sealed.name@ == info.name@
    &&& sealed.pow2align == info.alignment
    &&& stored_kind(stored.kind) == Ok::<DataKind<MemoryRef>, PlacementError>(sealed.va_address)
    &&& sealed.file_offset == stored.range.start
}

/// The segments of a file, without parts.
fn empty_segments(
    infos: &Vec<SegmentInfo>,
    stored: &PrimaryMap<SegmentId, RawData>,
) -> (r: Result<PrimaryMap<SegmentId, SealedDataSegment>, PlacementError>)
    requires
        infos@.len() <= stored@.len(),
        infos@.len() < u32::MAX,
        forall|s: int| 0 <= s < infos@.len() ==> (#[trigger] infos@[s]).alignment <= u8::MAX,
    ensures
        match first_error(stored@.take(infos@.len() as int)) {
            Some(error) => r matches Err(e) && e == error,
            None => r matches Ok(segments) && segments@.len() == infos@.len() && forall|s: int|
                0 <= s < infos@.len() ==> is_stored_segment(
                    #[trigger] segments@[s],
                    infos@[s],
                    stored@[s],
                ) && segments@[s].parts@.len() == 0,
        },
{
    let mut segments: PrimaryMap<SegmentId, SealedDataSegment> = PrimaryMap::new();
    let mut s: usize = 0;
    let ghost all = stored@.take(infos@.len() as int);
    assert(all.take(0) =~= Seq::<RawData>::empty());
    while s < infos.len()
        invariant
            s <= infos@.len() <= stored@.len(),
            infos@.len() < u32::MAX,
            all == stored@.take(infos@.len() as int),
            forall|t: int| 0 <= t < infos@.len() ==> (#[trigger] infos@[t]).alignment <= u8::MAX,
            first_error(all.take(s as int)) is None,
            segments@.len() == s,
            forall|t: int|
                0 <= t < s ==> is_stored_segment(#[trigger] segments@[t], infos@[t], stored@[t])
                    && segments@[t].parts@.len() == 0,
        decreases infos@.len() - s,
    {
        let data = &stored.as_slice()[s];
        proof {
            assert(all.take(s + 1).drop_last() =~= all.take(s as int));
            assert(all.take(s + 1).last() == *data);
        }
        let va_address = match data_kind_to_location(&data.kind) {
            Ok(kind) => kind,
            Err(error) => {
                proof {
                    lemma_error_stays(all, s + 1);
                }
                return Err(error);
            },
        };
        assert(infos@[s as int].alignment <= u8::MAX);
        let _ = segments.push(
            SealedDataSegment {
                parts: PrimaryMap::new(),
                name: infos[s].name.clone(),
                pow2align: infos[s].alignment as u8,
                va_address,
                file_offset: data.range.start,
            },
        );
        s = s + 1;
    }
    assert(all.take(s as int) =~= all);
    Ok(segments)
}

/// A part with the bytes of a data symbol.
fn symbol_part(
    stored: &RawData,
    segment_align: u32,
    symbol: &DataDefined,
    data_ref: DataSymbolRef,
) -> (r: SealedDataItem)
    requires
        symbol.range.start <= symbol.range.end <= stored.data@.len() <= stored.range.end,
        segment_align <= u8::MAX,
    ensures
        r.item_id == Some(data_ref),
        r.defined_entity.name matches Some(name) && name@ == symbol.name@,
        r.defined_entity.export_as@ == Seq::<String>::empty(),
        r.defined_entity.entity_type.segment_id == symbol.segment_id,
        is_guess(
            r.defined_entity.entity_type.alignment,
            segment_align as u8,
            symbol.range.start as int,
        ),
        r.defined_entity.body matches EntityBody::Copied(copy) && copy.bytes@
            == stored.data@.subrange(symbol.range.start as int, symbol.range.end as int)
            && copy.original_range.start == data_start(*stored) + symbol.range.start
            && copy.original_range.end == data_start(*stored) + symbol.range.end
            && copy.fixups@.len() == 0 && bits_of(copy.filtered_relocs) == Set::<int>::empty(),
{
    let start: usize = symbol.range.start as usize;
    let end: usize = symbol.range.end as usize;
    let file_offset: usize = stored.range.end - stored.data.len();
    let chunk = slice_subrange(stored.data.as_slice(), start, end);
    let bytes = slice_to_vec(chunk);
    SealedDataItem {
        item_id: Some(data_ref),
        defined_entity: DefinedEntity {
            body: EntityBody::Copied(
                EntityBodyCopy::new(
                    bytes,
                    Range { start: file_offset + start, end: file_offset + end },
                ),
            ),
            export_as: Vec::new(),
            entity_type: ItemType {
                segment_id: symbol.segment_id,
                alignment: guess_data_alignment(segment_align as u8, start),
            },
            name: Some(symbol.name.clone()),
        },
    }
}

/// Adds a part to a segment, behind zeros for the gap before it.
fn push_part(
    segment: &mut SealedDataSegment,
    gap: usize,
    segment_id: SegmentId,
    part: SealedDataItem,
) -> (r: PartId)
    requires
        old(segment).parts@.len() + 2 < u32::MAX,
    ensures
        final(segment).name == old(segment).name,
        final(segment).pow2align == old(segment).pow2align,
        final(segment).va_address == old(segment).va_address,
        final(segment).file_offset == old(segment).file_offset,
        ({
            let old_parts = old(segment).parts@;
            let parts = final(segment).parts@;
            let own = if gap > 0 {
                2int
            } else {
                1
            };
            &&& parts.len() == old_parts.len() + own
            &&& parts.take(old_parts.len() as int) == old_parts
            &&& parts.last() == part
            &&& gap > 0 ==> is_padding(parts[parts.len() - 2], gap as int, segment_id.id() as int)
            &&& r.id() == parts.len() - 1
        }),
{
    let ghost old_parts = segment.parts@;
    if gap > 0 {
        let padding = DefinedDataChunk::padding_symbol(gap, segment_id);
        let _ = segment.parts.push(SealedDataItem { item_id: None, defined_entity: padding });
    }
    let part_id = segment.parts.push(part);
    assert(segment.parts@.take(old_parts.len() as int) =~= old_parts);
    part_id
}

/// What is known after some data symbols were read.
struct ReadState {
    segments: PrimaryMap<SegmentId, SealedDataSegment>,
    places: GappedMap<DataSymbolRef, DataItemPlace>,
    symbols: PrimaryMap<SymbolId, SymbolOffset>,
    // the last symbol that has bytes of its own
    last_start: u32,
    last_end: u32,
    last_symbol: SymbolId,
}

/// Whether the symbol with number `t` is the last one of its segment among the first `count`.
spec fn is_last_of_segment(symbols: Seq<DataSymbol>, t: int, count: int) -> bool {
    0 <= t < count && (t == count - 1 || !continues(symbols, t + 1))
}

/// Whether sealed segments have what the stored segments say of them.
spec fn segments_are_stored(segments: Seq<SealedDataSegment>, reader: ObjectReader) -> bool {
    &&& segments.len() == reader.segments_info@.len()
    &&& forall|s: int|
        0 <= s < segments.len() ==> is_stored_segment(
            #[trigger] segments[s],
            reader.segments_info@[s],
            reader.data_segments@[s],
        )
}

/// Whether a symbol table gives the data symbols their indices in order.
spec fn is_table(symbols: Seq<DataSymbol>, table: Seq<SymbolOffset>) -> bool {
    forall|t: int|
        0 <= t < symbols.len() ==> {
            let id = (#[trigger] symbols[t]).0.id() as int;
            &&& id < table.len()
            &&& table[id] == (SymbolOffset {
                entity: EntityKind::DataSymbol(DataSymbolRef { id: t as u32 }),
                offset_in_entity: 0,
                used_definition: true,
            })
        }
}

/// Whether the first `j` data symbols of a symbol table were replaced by those that have their
/// bytes.
spec fn table_is_read(
    now: Seq<SymbolOffset>,
    symbols: Seq<DataSymbol>,
    table: Seq<SymbolOffset>,
    j: int,
) -> bool {
    &&& now.len() == table.len()
    &&& forall|t: int|
        0 <= t < symbols.len() ==> now[(#[trigger] symbols[t]).0.id() as int] == if t < j {
            merged_symbol(symbols, t)
        } else {
            table[symbols[t].0.id() as int]
        }
    &&& forall|i: int|
        0 <= i < table.len() && !(table[i].entity is DataSymbol) ==> #[trigger] now[i] == table[i]
}

/// Whether segments hold the parts of the first `j` data symbols.
spec fn parts_are_read(
    segments: Seq<SealedDataSegment>,
    stored: Seq<RawData>,
    infos: Seq<SegmentInfo>,
    symbols: Seq<DataSymbol>,
    j: int,
) -> bool {
    &&& forall|t: int|
        #[trigger] is_last_of_segment(symbols, t, j) ==> {
            let parts = segments[symbols[t].1.segment_id.id() as int].parts@;
            &&& parts.len() == parts_up_to(symbols, t)
            &&& parts_are_symbols(parts, stored, infos, symbols, t)
        }
    &&& forall|s: int|
        0 <= s < segments.len() && (forall|t: int|
            0 <= t < j ==> (#[trigger] symbols[t]).1.segment_id.id() != s) ==> (
        #[trigger] segments[s]).parts@.len() == 0
}

proof fn lemma_table_step(
    now: Seq<SymbolOffset>,
    symbols: Seq<DataSymbol>,
    table: Seq<SymbolOffset>,
    j: int,
)
    requires
        is_table(symbols, table),
        table_is_read(now, symbols, table, j),
        0 <= j < symbols.len() < u32::MAX,
    ensures
        table_is_read(
            now.update(symbols[j].0.id() as int, merged_symbol(symbols, j)),
            symbols,
            table,
            j + 1,
        ),
{
    let id = symbols[j].0.id() as int;
    let next = now.update(id, merged_symbol(symbols, j));
    assert forall|t: int| 0 <= t < symbols.len() implies next[(
    #[trigger] symbols[t]).0.id() as int] == if t < j + 1 {
        merged_symbol(symbols, t)
    } else {
        table[symbols[t].0.id() as int]
    } by {
        if t != j && symbols[t].0.id() == symbols[j].0.id() {
            assert(table[id].entity == EntityKind::DataSymbol(DataSymbolRef { id: t as u32 }));
            assert(table[id].entity == EntityKind::DataSymbol(DataSymbolRef { id: j as u32 }));
        }
    }
}

proof fn lemma_parts_step_merged(
    segments: Seq<SealedDataSegment>,
    stored: Seq<RawData>,
    infos: Seq<SegmentInfo>,
    symbols: Seq<DataSymbol>,
    j: int,
)
    requires
        parts_are_read(segments, stored, infos, symbols, j),
        0 <= j < symbols.len(),
        keeper(symbols, j) != j,
    ensures
        parts_are_read(segments, stored, infos, symbols, j + 1),
{
    assert(continues(symbols, j));
    assert forall|t: int| #[trigger] is_last_of_segment(symbols, t, j + 1) implies {
        let parts = segments[symbols[t].1.segment_id.id() as int].parts@;
        &&& parts.len() == parts_up_to(symbols, t)
        &&& parts_are_symbols(parts, stored, infos, symbols, t)
    } by {
        if t < j {
            assert(is_last_of_segment(symbols, t, j));
        } else {
            assert(is_last_of_segment(symbols, j - 1, j));
        }
    }
    assert forall|s: int|
        0 <= s < segments.len() && (forall|t: int|
            0 <= t < j + 1 ==> (#[trigger] symbols[t]).1.segment_id.id() != s) implies (
    #[trigger] segments[s]).parts@.len() == 0 by {
        assert(forall|t: int| 0 <= t < j ==> (#[trigger] symbols[t]).1.segment_id.id() != s);
    }
}

proof fn lemma_parts_step_own(
    before: Seq<SealedDataSegment>,
    after: Seq<SealedDataSegment>,
    stored: Seq<RawData>,
    infos: Seq<SegmentInfo>,
    symbols: Seq<DataSymbol>,
    j: int,
)
    requires
        parts_are_read(before, stored, infos, symbols, j),
        0 <= j < symbols.len(),
        keeper(symbols, j) == j,
        forall|a: int, b: int|
            #![trigger symbols[a], symbols[b]]
            0 <= a <= b < symbols.len() ==> symbols[a].1.segment_id.id()
                <= symbols[b].1.segment_id.id(),
        symbols[j].1.segment_id.id() < before.len(),
        after.len() == before.len(),
        forall|s: int|
            0 <= s < after.len() && s != symbols[j].1.segment_id.id() ==> #[trigger] after[s]
                == before[s],
        ({
            let old_parts = before[symbols[j].1.segment_id.id() as int].parts@;
            let parts = after[symbols[j].1.segment_id.id() as int].parts@;
            let gap = symbols[j].1.range.start - covered(symbols, j);
            let own = if gap > 0 {
                2int
            } else {
                1
            };
            &&& parts.len() == old_parts.len() + own
            &&& parts.take(old_parts.len() as int) == old_parts
            &&& is_symbol_part(parts.last(), stored, infos, symbols, j)
            &&& gap > 0 ==> is_padding(
                parts[parts.len() - 2],
                gap,
                symbols[j].1.segment_id.id() as int,
            )
        }),
    ensures
        parts_are_read(after, stored, infos, symbols, j + 1),
        after[symbols[j].1.segment_id.id() as int].parts@.len() == parts_up_to(symbols, j),
{
    let seg = symbols[j].1.segment_id.id() as int;
    let old_parts = before[seg].parts@;
    let parts = after[seg].parts@;
    if continues(symbols, j) {
        assert(is_last_of_segment(symbols, j - 1, j));
    } else {
        assert forall|t: int| 0 <= t < j implies (#[trigger] symbols[t]).1.segment_id.id()
            != seg by {
            assert(symbols[t].1.segment_id.id() <= symbols[j - 1].1.segment_id.id());
            assert(symbols[j - 1].1.segment_id.id() <= symbols[j].1.segment_id.id());
            assert(symbols[j - 1].1.segment_id != symbols[j].1.segment_id);
        }
        assert(before[seg].parts@.len() == 0);
    }
    assert(parts_are_symbols(parts, stored, infos, symbols, j));
    assert forall|t: int| #[trigger] is_last_of_segment(symbols, t, j + 1) implies {
        let parts = after[symbols[t].1.segment_id.id() as int].parts@;
        &&& parts.len() == parts_up_to(symbols, t)
        &&& parts_are_symbols(parts, stored, infos, symbols, t)
    } by {
        if t < j {
            assert(is_last_of_segment(symbols, t, j));
            assert(symbols[t].1.segment_id.id() != seg) by {
                assert(symbols[t].1.segment_id.id() <= symbols[t + 1].1.segment_id.id());
                assert(symbols[t + 1].1.segment_id.id() <= symbols[j].1.segment_id.id());
            }
        }
    }
    assert forall|s: int|
        0 <= s < after.len() && (forall|t: int|
            0 <= t < j + 1 ==> (#[trigger] symbols[t]).1.segment_id.id() != s) implies (
    #[trigger] after[s]).parts@.len() == 0 by {
        assert(symbols[j].1.segment_id.id() != s);
        assert(forall|t: int| 0 <= t < j ==> (#[trigger] symbols[t]).1.segment_id.id() != s);
        assert(before[s].parts@.len() == 0);
    }
}

impl ReadState {
    /// What holds after the first `j` data symbols were read.
    spec fn read(&self, reader: ObjectReader, table: Seq<SymbolOffset>, j: int) -> bool {
        let symbols = ordered_data(reader.linking_symbols@);
        &&& 0 <= j <= symbols.len()
        &&& segments_are_stored(self.segments@, reader)
        &&& self.places.wf()
        &&& self.places@ == symbol_places(reader.data_segments@, symbols, j)
        &&& table_is_read(self.symbols@, symbols, table, j)
        &&& j > 0 ==> {
            let k = keeper(symbols, j - 1);
            &&& self.last_start == symbols[k].1.range.start
            &&& self.last_end == symbols[k].1.range.end
            &&& self.last_symbol == symbols[k].0
        }
        &&& parts_are_read(
            self.segments@,
            reader.data_segments@,
            reader.segments_info@,
            symbols,
            j,
        )
    }

    /// Reads a data symbol whose bytes belong to another one.
    fn merge(
        &mut self,
        symbol_id: SymbolId,
        symbol: &DataDefined,
        Ghost(reader): Ghost<ObjectReader>,
        Ghost(table): Ghost<Seq<SymbolOffset>>,
        Ghost(j): Ghost<int>,
    )
        requires
            old(self).read(reader, table, j),
            is_table(ordered_data(reader.linking_symbols@), table),
            0 <= j < ordered_data(reader.linking_symbols@).len() < u32::MAX,
            ordered_data(reader.linking_symbols@)[j] == (symbol_id, *symbol),
            keeper(ordered_data(reader.linking_symbols@), j) != j,
        ensures
            final(self).read(reader, table, j + 1),
    {
        let ghost symbols = ordered_data(reader.linking_symbols@);
        proof {
            let k = keeper(symbols, j - 1);
            lemma_keeper(symbols, j - 1);
            assert(continues(symbols, j));
            assert(symbols[k].0.id() < table.len());
            assert(symbols[j].0.id() < table.len());
            assert(self.symbols@[symbols[k].0.id() as int] == merged_symbol(symbols, k));
            lemma_ordered_starts(reader, k, j);
            lemma_table_step(self.symbols@, symbols, table, j);
            lemma_parts_step_merged(
                self.segments@,
                reader.data_segments@,
                reader.segments_info@,
                symbols,
                j,
            );
        }
        let mut item = *self.symbols.at(self.last_symbol);
        item.offset_in_entity = symbol.range.start - self.last_start;
        assert(item == merged_symbol(symbols, j));
        self.symbols.set(symbol_id, item);
    }

    /// Reads a data symbol that has bytes of its own.
    #[verifier::rlimit(40)]
    fn place(
        &mut self,
        reader: &ObjectReader,
        symbol_id: SymbolId,
        symbol: &DataDefined,
        data_ref: DataSymbolRef,
        covered_end: u32,
        Ghost(table): Ghost<Seq<SymbolOffset>>,
        Ghost(j): Ghost<int>,
    )
        requires
            symbol.segment_id.id() < reader.segments_info@.len() <= reader.data_segments@.len(),
            symbol.range.start <= symbol.range.end
                <= reader.data_segments@[symbol.segment_id.id() as int].data@.len()
                <= reader.data_segments@[symbol.segment_id.id() as int].range.end,
            reader.segments_info@[symbol.segment_id.id() as int].alignment <= u8::MAX,
            covered_end <= symbol.range.start,
            ordered_data(reader.linking_symbols@).len() < MAX_VALUE,
            old(self).read(*reader, table, j),
            is_table(ordered_data(reader.linking_symbols@), table),
            0 <= j < ordered_data(reader.linking_symbols@).len() < u32::MAX,
            ordered_data(reader.linking_symbols@)[j] == (symbol_id, *symbol),
            data_ref.id() == j,
            covered_end == covered(ordered_data(reader.linking_symbols@), j),
            keeper(ordered_data(reader.linking_symbols@), j) == j,
        ensures
            final(self).read(*reader, table, j + 1),
    {
        let ghost symbols = ordered_data(reader.linking_symbols@);
        let ghost stored = reader.data_segments@;
        let ghost infos = reader.segments_info@;
        let ghost seg = symbol.segment_id.id() as int;
        let ghost segments = self.segments@;
        proof {
            assert(symbols[j].1 == *symbol);
            lemma_parts_up_to(symbols, j);
            if continues(symbols, j) {
                lemma_parts_up_to(symbols, j - 1);
                assert(is_last_of_segment(symbols, j - 1, j));
            } else {
                lemma_new_segment_is_empty(*reader, segments, j);
            }
            lemma_table_step(self.symbols@, symbols, table, j);
            assert(self.symbols@[symbols[j].0.id() as int] == table[symbols[j].0.id() as int]);
            assert(self.symbols@.update(symbols[j].0.id() as int, merged_symbol(symbols, j))
                =~= self.symbols@);
        }
        let stored_data = self.data_of(reader, symbol.segment_id);
        let part = symbol_part(
            stored_data,
            reader.segments_info[symbol.segment_id.index()].alignment,
            symbol,
            data_ref,
        );
        let section_offset: usize = stored_data.range.end - stored_data.data.len()
            + symbol.range.start as usize;
        let gap: usize = (symbol.range.start - covered_end) as usize;
        let part_id = push_part(self.segments.at_mut(symbol.segment_id), gap, symbol.segment_id, part);
        proof {
            let parts = self.segments@[seg].parts@;
            assert(is_symbol_part(parts.last(), stored, infos, symbols, j));
            lemma_ordered_segments(*reader);
            lemma_parts_step_own(segments, self.segments@, stored, infos, symbols, j);
            assert(segments_are_stored(self.segments@, *reader)) by {
                assert forall|s: int| 0 <= s < segments.len() implies is_stored_segment(
                    #[trigger] self.segments@[s],
                    infos[s],
                    stored[s],
                ) by {
                    assert(is_stored_segment(segments[s], infos[s], stored[s]));
                }
            }
        }
        let place = DataItemPlace {
            offsets: Offsets { section_offset, va_address: symbol.range.start as usize },
            segment_id: symbol.segment_id,
            part_id,
        };
        assert(place == symbol_place(stored, symbols, j));
        let _ = self.places.insert(data_ref, place);
        self.last_start = symbol.range.start;
        self.last_end = symbol.range.end;
        self.last_symbol = symbol_id;
    }

    /// The stored segment with the given index.
    fn data_of<'a>(&self, reader: &'a ObjectReader, segment_id: SegmentId) -> (r: &'a RawData)
        requires
            segment_id.id() < reader.data_segments@.len(),
        ensures
            *r == reader.data_segments@[segment_id.id() as int],
    {
        reader.data_segments.at(segment_id)
    }
}

/// A segment has no parts before its first symbol is read.
proof fn lemma_new_segment_is_empty(
    reader: ObjectReader,
    segments: Seq<SealedDataSegment>,
    j: int,
)
    requires
        parts_are_read(
            segments,
            reader.data_segments@,
            reader.segments_info@,
            ordered_data(reader.linking_symbols@),
            j,
        ),
        0 <= j < ordered_data(reader.linking_symbols@).len(),
        !continues(ordered_data(reader.linking_symbols@), j),
        ordered_data(reader.linking_symbols@)[j].1.segment_id.id() < segments.len(),
    ensures
        segments[ordered_data(
            reader.linking_symbols@,
        )[j].1.segment_id.id() as int].parts@.len() == 0,
{
    let symbols = ordered_data(reader.linking_symbols@);
    let seg = symbols[j].1.segment_id.id() as int;
    lemma_ordered_segments(reader);
    assert forall|t: int| 0 <= t < j implies (#[trigger] symbols[t]).1.segment_id.id() != seg by {
        assert(symbols[t].1.segment_id.id() <= symbols[j - 1].1.segment_id.id());
        assert(symbols[j - 1].1.segment_id.id() <= symbols[j].1.segment_id.id());
        assert(symbols[j - 1].1.segment_id != symbols[j].1.segment_id);
    }
    assert(segments[seg].parts@.len() == 0);
}

/// Data symbols of one segment are in order of their places.
proof fn lemma_ordered_starts(reader: ObjectReader, a: int, b: int)
    requires
        0 <= a <= b < ordered_data(reader.linking_symbols@).len(),
        ordered_data(reader.linking_symbols@)[a].1.segment_id == ordered_data(
            reader.linking_symbols@,
        )[b].1.segment_id,
    ensures
        ordered_data(reader.linking_symbols@)[a].1.range.start <= ordered_data(
            reader.linking_symbols@,
        )[b].1.range.start,
{
    let ordered = ordered_data(reader.linking_symbols@);
    lemma_sorted(
        defined_data(reader.linking_symbols@),
        data_key(),
    );
    let key = data_key();
    assert(key(ordered[a]) <= key(ordered[b]));
}

proof fn lemma_symbol_fits(
    segments: Seq<RawData>,
    infos: Seq<SegmentInfo>,
    symbols: Seq<DataSymbol>,
    j: int,
)
    requires
        symbols_fit(segments, infos, symbols),
        0 <= j < symbols.len(),
    ensures
        ({
            let symbol = symbols[j].1;
            let s = symbol.segment_id.id() as int;
            &&& s < infos.len()
            &&& symbol.range.start <= symbol.range.end <= segments[s].data@.len()
                <= segments[s].range.end
            &&& infos[s].alignment <= u8::MAX
            &&& keeper(symbols, j) == j ==> covered(symbols, j) <= symbol.range.start
            &&& !continues(symbols, j) ==> symbol.range.end > 0
        }),
{
    reveal(symbols_fit);
    assert(symbols[j].1.segment_id.id() < infos.len());
    assert(infos[symbols[j].1.segment_id.id() as int].alignment <= u8::MAX);
}

/// Whether a layout is made of whole stored segments.
pub open spec fn are_whole_segments(layout: MemLayoutSealed, stored: Seq<RawData>) -> bool {
    &&& layout.segments@.len() == stored.len()
    &&& forall|s: int|
        0 <= s < stored.len() ==> is_whole_segment(#[trigger] layout.segments@[s], stored[s], s)
    &&& layout.defined@.len() == stored.len()
    &&& forall|s: int|
        0 <= s < stored.len() ==> #[trigger] layout.defined@[s] == Some(
            DataItemPlace {
                offsets: Offsets {
                    section_offset: stored[s].range.start,
                    va_address: match stored_kind(stored[s].kind) {
                        Ok(DataKind::Active { location, .. }) => location.offset_spec() as usize,
                        _ => 0,
                    },
                },
                segment_id: SegmentId { id: s as u32 },
                part_id: PartId { id: 0 },
            },
        )
}

/// Whether a sealed segment is a whole stored segment, in one part.
pub open spec fn is_whole_segment(sealed: SealedDataSegment, stored: RawData, s: int) -> bool {
    &&& sealed.name@ == "segment_"@ + decimal(s as nat)
    &&& sealed.pow2align == 0
    &&& stored_kind(stored.kind) == Ok::<DataKind<MemoryRef>, PlacementError>(sealed.va_address)
    &&& sealed.file_offset == stored.range.start
    &&& sealed.parts@.len() == 1
    &&& sealed.parts@[0].item_id is None
    &&& sealed.parts@[0].defined_entity.name matches Some(name) && name@ == sealed.name@
    &&& sealed.parts@[0].defined_entity.entity_type.segment_id.id() == s
    &&& sealed.parts@[0].defined_entity.entity_type.alignment == 0
    &&& sealed.parts@[0].defined_entity.body matches EntityBody::Copied(copy) && copy.bytes@
        == stored.data@ && copy.original_range == stored.range && copy.fixups@.len() == 0
        && bits_of(copy.filtered_relocs) == Set::<int>::empty()
}

impl MemLayoutSealed {
    /// The layout of a file without data symbols: every stored segment is one part.
    fn create_from_segments(stored: &PrimaryMap<SegmentId, RawData>) -> (r: Result<
        Self,
        PlacementError,
    >)
        requires
            stored@.len() < MAX_VALUE,
        ensures
            match first_error(stored@) {
                Some(error) => r matches Err(e) && e == error,
                None => r matches Ok(layout) && layout.wf() && are_whole_segments(layout, stored@)
                    && layout.external@.len() == 0 && layout.external.start_spec().id()
                    == stored@.len(),
            },
    {
        let mut segments: PrimaryMap<SegmentId, SealedDataSegment> = PrimaryMap::new();
        let mut defined: GappedMap<DataSymbolRef, DataItemPlace> = GappedMap::new();
        let mut s: usize = 0;
        let ghost all = stored@;
        assert(all.take(0) =~= Seq::<RawData>::empty());
        while s < stored.len()
            invariant
                s <= all.len() < MAX_VALUE,
                all == stored@,
                first_error(all.take(s as int)) is None,
                segments@.len() == s,
                defined.wf(),
                defined@.len() == s,
                forall|t: int|
                    0 <= t < s ==> is_whole_segment(#[trigger] segments@[t], all[t], t),
                forall|t: int|
                    0 <= t < s ==> #[trigger] defined@[t] == Some(
                        DataItemPlace {
                            offsets: Offsets {
                                section_offset: all[t].range.start,
                                va_address: match stored_kind(all[t].kind) {
                                    Ok(
                                        DataKind::Active { location, .. },
                                    ) => location.offset_spec() as usize,
                                    _ => 0,
                                },
                            },
                            segment_id: SegmentId { id: t as u32 },
                            part_id: PartId { id: 0 },
                        },
                    ),
            decreases all.len() - s,
        {
            let data = &stored.as_slice()[s];
            proof {
                assert(all.take(s + 1).drop_last() =~= all.take(s as int));
                assert(all.take(s + 1).last() == *data);
            }
            let va_address = match data_kind_to_location(&data.kind) {
                Ok(kind) => kind,
                Err(error) => {
                    proof {
                        lemma_error_stays(all, s + 1);
                    }
                    return Err(error);
                },
            };
            let segment_id = SegmentId::new(s);
            let mut name = "segment_".to_owned();
            name.append(decimal_string(s as u64).as_str());
            let body = EntityBodyCopy::new(
                slice_to_vec(data.data.as_slice()),
                Range { start: data.range.start, end: data.range.end },
            );
            let mut parts: PrimaryMap<PartId, SealedDataItem> = PrimaryMap::new();
            let part_id = parts.push(
                SealedDataItem {
                    item_id: None,
                    defined_entity: DefinedEntity {
                        body: EntityBody::Copied(body),
                        export_as: Vec::new(),
                        entity_type: ItemType { segment_id, alignment: 0 },
                        name: Some(name.clone()),
                    },
                },
            );
            let va_offset: usize = match va_address.location() {
                Some(location) => location.offset() as usize,
                None => 0,
            };
            let _ = defined.push(
                DataItemPlace {
                    offsets: Offsets { section_offset: data.range.start, va_address: va_offset },
                    segment_id,
                    part_id,
                },
            );
            let _ = segments.push(
                SealedDataSegment {
                    name,
                    parts,
                    pow2align: 0,
                    va_address,
                    file_offset: data.range.start,
                },
            );
            s = s + 1;
        }
        assert(all.take(s as int) =~= all);
        proof {
            lemma_all_filled(defined@);
        }
        let external = WithStart::new(DataSymbolRef::new(defined.len()), Vec::new());
        let layout = MemLayoutSealed { segments, external, defined };
        proof {
            assert forall|key: nat| slot_at(layout.defined@, key) is Some implies {
                let place = (#[trigger] slot_at(layout.defined@, key))->0;
                &&& place.segment_id.id() < layout.segments@.len()
                &&& place.part_id.id() < layout.segments@[place.segment_id.id() as int].parts@.len()
            } by {
                assert(is_whole_segment(layout.segments@[key as int], all[key as int], key as int));
            }
        }
        Ok(layout)
    }
}

/// Every symbol is followed, in its segment, by the last one of the segment.
proof fn lemma_find_last_of_segment(symbols: Seq<DataSymbol>, j: int, count: int) -> (t: int)
    requires
        0 <= j < count <= symbols.len(),
    ensures
        is_last_of_segment(symbols, t, count),
        j <= t,
        symbols[t].1.segment_id == symbols[j].1.segment_id,
        parts_up_to(symbols, j) <= parts_up_to(symbols, t),
    decreases count - j,
{
    if j == count - 1 || !continues(symbols, j + 1) {
        j
    } else {
        lemma_find_last_of_segment(symbols, j + 1, count)
    }
}

/// The place of a data symbol is that of a symbol with bytes of its own.
proof fn lemma_symbol_places(
    segments: Seq<RawData>,
    symbols: Seq<DataSymbol>,
    count: int,
    key: nat,
)
    requires
        0 <= count <= symbols.len(),
    ensures
        slot_at(symbol_places(segments, symbols, count), key) == if key < count && keeper(
            symbols,
            key as int,
        ) == key {
            Some(symbol_place(segments, symbols, key as int))
        } else {
            None
        },
    decreases count,
{
    if count > 0 {
        let j = count - 1;
        let before = symbol_places(segments, symbols, j);
        lemma_symbol_places(segments, symbols, j, key);
        if keeper(symbols, j) == j {
            lemma_insert_then_get(
                before,
                j as nat,
                symbol_place(segments, symbols, j),
                key,
            );
        }
    }
}

/// Whether a layout and a symbol table are those of a file with data symbols.
pub open spec fn are_symbol_segments(
    layout: MemLayoutSealed,
    symbol_db: Seq<SymbolOffset>,
    reader: ObjectReader,
) -> bool {
    let symbols = ordered_data(reader.linking_symbols@);
    let infos = reader.segments_info@;
    let stored = reader.data_segments@;
    &&& layout.segments@.len() == infos.len()
    &&& forall|s: int|
        0 <= s < infos.len() ==> is_stored_segment(
            #[trigger] layout.segments@[s],
            infos[s],
            stored[s],
        )
    // the segments hold the symbols
    &&& forall|t: int|
        0 <= t < symbols.len() && !continues(symbols, t + 1) ==> parts_are_symbols(
            layout.segments@[(#[trigger] symbols[t]).1.segment_id.id() as int].parts@,
            stored,
            infos,
            symbols,
            t,
        )
    &&& forall|s: int|
        0 <= s < infos.len() && (forall|t: int|
            0 <= t < symbols.len() ==> (#[trigger] symbols[t]).1.segment_id.id() != s) ==> (
        #[trigger] layout.segments@[s]).parts@.len() == 0
    // the symbols that have bytes of their own have places
    &&& layout.defined@ == symbol_places(stored, symbols, symbols.len() as int)
    // symbols that have none stand for a place in another one
    &&& forall|t: int|
        0 <= t < symbols.len() ==> symbol_db[(#[trigger] symbols[t]).0.id() as int]
            == merged_symbol(symbols, t)
}

impl MemLayoutSealed {
    /// The data layout of an object file, and its symbol table. Data symbols that lie in the bytes
    /// of another one become places in that one.
    pub fn from_reader(reader: &ObjectReader) -> (r: Result<(Self, FileSymbolDb), PlacementError>)
        requires
            reader.linking_symbols@.len() < u32::MAX,
            forall|i: int|
                0 <= i < reader.linking_symbols@.len() ==> symbol_in_range(
                    #[trigger] reader.linking_symbols@[i],
                ),
            forall|i: int, j: int|
                #![trigger reader.linking_symbols@[i], reader.linking_symbols@[j]]
                0 <= i < j < reader.linking_symbols@.len() && supported(reader.linking_symbols@[j])
                    ==> supported(reader.linking_symbols@[i]),
            reader.data_segments@.len() < MAX_VALUE,
            symbols_fit(
                reader.data_segments@,
                reader.segments_info@,
                ordered_data(reader.linking_symbols@),
            ),
        ensures
            ({
                let infos = reader.linking_symbols@;
                let symbols = ordered_data(infos);
                let whole = symbols.len() == 0 && reader.segments_info@.len() == 0;
                let used = if whole {
                    reader.data_segments@
                } else {
                    reader.data_segments@.take(reader.segments_info@.len() as int)
                };
                match first_error(used) {
                    Some(error) => r matches Err(e) && e == error,
                    None => r matches Ok((layout, db)) && {
                        &&& layout.wf()
                        &&& layout.external@.len() == 0
                        &&& layout.external.start_spec().id() == filled(
                            layout.defined@,
                        )
                        &&& db.symbols@.len() <= infos.len()
                        &&& forall|i: int|
                            0 <= i < infos.len() ==> (i < db.symbols@.len() <==> supported(
                                #[trigger] infos[i],
                            ))
                        &&& forall|i: int|
                            0 <= i < db.symbols@.len() && !(infos[i] is Data)
                                ==> #[trigger] db.symbols@[i] == (SymbolOffset {
                                entity: indexed_entity(infos[i]),
                                offset_in_entity: 0,
                                used_definition: true,
                            })
                        &&& if whole {
                            are_whole_segments(layout, reader.data_segments@)
                        } else {
                            are_symbol_segments(layout, db.symbols@, *reader)
                        }
                    },
                }
            }),
    {
        let linkage = LinkageInfo::from_reader(reader);
        proof {
            lemma_linkage(*reader, linkage);
        }
        if linkage.defined_data_symbols.len() == 0 && reader.segments_info.len() == 0 {
            return match Self::create_from_segments(&reader.data_segments) {
                Ok(layout) => {
                    proof {
                        lemma_all_filled(layout.defined@);
                    }
                    Ok((layout, linkage.file_symbol_db))
                },
                Err(error) => Err(error),
            };
        }
        Self::from_symbols(reader, linkage)
    }

    /// The data layout of an object file with data symbols, and its symbol table.
    fn from_symbols(reader: &ObjectReader, linkage: LinkageInfo) -> (r: Result<
        (Self, FileSymbolDb),
        PlacementError,
    >)
        requires
            reader.data_segments@.len() < MAX_VALUE,
            symbols_fit(
                reader.data_segments@,
                reader.segments_info@,
                ordered_data(reader.linking_symbols@),
            ),
            is_linkage(*reader, linkage),
        ensures
            match first_error(reader.data_segments@.take(reader.segments_info@.len() as int)) {
                Some(error) => r matches Err(e) && e == error,
                None => r matches Ok((layout, db)) && {
                    &&& layout.wf()
                    &&& layout.external@.len() == 0
                    &&& layout.external.start_spec().id() == filled(layout.defined@)
                    &&& table_is_read(
                        db.symbols@,
                        ordered_data(reader.linking_symbols@),
                        linkage.file_symbol_db.symbols@,
                        ordered_data(reader.linking_symbols@).len() as int,
                    )
                    &&& are_symbol_segments(layout, db.symbols@, *reader)
                },
            },
    {
        let ghost symbols = ordered_data(reader.linking_symbols@);
        let ghost table = linkage.file_symbol_db.symbols@;
        proof {
            lemma_fit_parts(*reader);
        }
        let segments = match empty_segments(&reader.segments_info, &reader.data_segments) {
            Ok(segments) => segments,
            Err(error) => {
                return Err(error);
            },
        };
        let state = ReadState {
            segments,
            places: GappedMap::new(),
            symbols: linkage.file_symbol_db.symbols,
            last_start: 0,
            last_end: 0,
            last_symbol: SymbolId::reserved(),
        };
        assert(state.read(*reader, table, 0));
        let state = state.read_all(reader, &linkage.defined_data_symbols, Ghost(table));
        proof {
            lemma_places_len(reader.data_segments@, symbols, symbols.len() as int);
            lemma_filled_bound(state.places@);
        }
        let external = WithStart::new(DataSymbolRef::new(state.places.len()), Vec::new());
        let layout = MemLayoutSealed {
            segments: state.segments,
            external,
            defined: state.places,
        };
        let db = FileSymbolDb { symbols: state.symbols };
        proof {
            lemma_read_is_valid(*reader, layout);
            lemma_read_result(*reader, layout, db.symbols@, table);
        }
        Ok((layout, db))
    }
}

/// Whether a symbol table and data symbols are those of a file.
spec fn is_linkage(reader: ObjectReader, linkage: LinkageInfo) -> bool {
    let symbols = ordered_data(reader.linking_symbols@);
    &&& is_table(symbols, linkage.file_symbol_db.symbols@)
    &&& linkage.defined_data_symbols@.len() == symbols.len()
    &&& forall|t: int|
        0 <= t < symbols.len() ==> {
            let (symbol, data, data_ref) = #[trigger] linkage.defined_data_symbols@[t];
            &&& (symbol, data) == symbols[t]
            &&& data_ref == (DataSymbolRef { id: t as u32 })
        }
}

impl ReadState {
    /// Reads all data symbols.
    fn read_all(
        self,
        reader: &ObjectReader,
        defined: &Vec<(SymbolId, DataDefined, DataSymbolRef)>,
        Ghost(table): Ghost<Seq<SymbolOffset>>,
    ) -> (r: Self)
        requires
            self.read(*reader, table, 0),
            ordered_data(reader.linking_symbols@).len() < MAX_VALUE,
            reader.segments_info@.len() <= reader.data_segments@.len(),
            symbols_fit(
                reader.data_segments@,
                reader.segments_info@,
                ordered_data(reader.linking_symbols@),
            ),
            is_table(ordered_data(reader.linking_symbols@), table),
            defined@.len() == ordered_data(reader.linking_symbols@).len(),
            forall|t: int|
                0 <= t < defined@.len() ==> {
                    let (symbol, data, data_ref) = #[trigger] defined@[t];
                    &&& (symbol, data) == ordered_data(reader.linking_symbols@)[t]
                    &&& data_ref == (DataSymbolRef { id: t as u32 })
                },
        ensures
            r.read(*reader, table, ordered_data(reader.linking_symbols@).len() as int),
    {
        let ghost symbols = ordered_data(reader.linking_symbols@);
        let mut state = self;
        let mut j: usize = 0;
        while j < defined.len()
            invariant
                j <= defined@.len() == symbols.len(),
                symbols == ordered_data(reader.linking_symbols@),
                symbols.len() < MAX_VALUE,
                reader.segments_info@.len() <= reader.data_segments@.len(),
                symbols_fit(reader.data_segments@, reader.segments_info@, symbols),
                is_table(symbols, table),
                forall|t: int|
                    0 <= t < symbols.len() ==> {
                        let (symbol, data, data_ref) = #[trigger] defined@[t];
                        &&& (symbol, data) == symbols[t]
                        &&& data_ref == (DataSymbolRef { id: t as u32 })
                    },
                state.read(*reader, table, j as int),
            decreases defined@.len() - j,
        {
            let (symbol_id, symbol, data_ref) = &defined[j];
            proof {
                lemma_symbol_fits(
                    reader.data_segments@,
                    reader.segments_info@,
                    symbols,
                    j as int,
                );
                assert((*symbol_id, *symbol) == symbols[j as int]);
                if j > 0 {
                    assert((defined@[j - 1].0, defined@[j - 1].1) == symbols[j - 1]);
                    lemma_keeper(symbols, j - 1);
                }
            }
            let starts_segment: bool = j == 0 || !defined[j - 1].1.segment_id.same(
                &symbol.segment_id,
            );
            assert(starts_segment == !continues(symbols, j as int));
            if !starts_segment && state.last_end >= symbol.range.end {
                state.merge(*symbol_id, symbol, Ghost(*reader), Ghost(table), Ghost(j as int));
            } else {
                let covered_end: u32 = if starts_segment {
                    0
                } else {
                    state.last_end
                };
                state.place(
                    reader,
                    *symbol_id,
                    symbol,
                    *data_ref,
                    covered_end,
                    Ghost(table),
                    Ghost(j as int),
                );
            }
            j = j + 1;
        }
        state
    }
}

/// What was read is the layout and the symbol table of the file.
proof fn lemma_read_result(
    reader: ObjectReader,
    layout: MemLayoutSealed,
    symbol_db: Seq<SymbolOffset>,
    table: Seq<SymbolOffset>,
)
    requires
        segments_are_stored(layout.segments@, reader),
        layout.defined@ == symbol_places(
            reader.data_segments@,
            ordered_data(reader.linking_symbols@),
            ordered_data(reader.linking_symbols@).len() as int,
        ),
        table_is_read(
            symbol_db,
            ordered_data(reader.linking_symbols@),
            table,
            ordered_data(reader.linking_symbols@).len() as int,
        ),
        parts_are_read(
            layout.segments@,
            reader.data_segments@,
            reader.segments_info@,
            ordered_data(reader.linking_symbols@),
            ordered_data(reader.linking_symbols@).len() as int,
        ),
    ensures
        are_symbol_segments(layout, symbol_db, reader),
{
    let symbols = ordered_data(reader.linking_symbols@);
    assert forall|t: int|
        0 <= t < symbols.len() && !continues(symbols, t + 1) implies parts_are_symbols(
        layout.segments@[(#[trigger] symbols[t]).1.segment_id.id() as int].parts@,
        reader.data_segments@,
        reader.segments_info@,
        symbols,
        t,
    ) by {
        assert(is_last_of_segment(symbols, t, symbols.len() as int));
    }
}

proof fn lemma_linkage(reader: ObjectReader, linkage: LinkageInfo)
    requires
        linkage.defined_data_symbols@.len() == ordered_data(reader.linking_symbols@).len(),
        forall|j: int|
            0 <= j < linkage.defined_data_symbols@.len() ==> {
                let (symbol, defined, data_ref) = #[trigger] linkage.defined_data_symbols@[j];
                let table = linkage.file_symbol_db.symbols@;
                &&& (symbol, defined) == ordered_data(reader.linking_symbols@)[j]
                &&& data_ref == (DataSymbolRef { id: j as u32 })
                &&& symbol.id < table.len()
                &&& table[symbol.id as int] == (SymbolOffset {
                    entity: EntityKind::DataSymbol(data_ref),
                    offset_in_entity: 0,
                    used_definition: true,
                })
            },
    ensures
        is_linkage(reader, linkage),
{
    let symbols = ordered_data(reader.linking_symbols@);
    let table = linkage.file_symbol_db.symbols@;
    assert forall|t: int| 0 <= t < symbols.len() implies {
        let id = (#[trigger] symbols[t]).0.id() as int;
        &&& id < table.len()
        &&& table[id] == (SymbolOffset {
            entity: EntityKind::DataSymbol(DataSymbolRef { id: t as u32 }),
            offset_in_entity: 0,
            used_definition: true,
        })
    } by {
        let (symbol, data, data_ref) = linkage.defined_data_symbols@[t];
        assert((symbol, data) == symbols[t]);
    }
}

/// The sizes of the parts of a file that data symbols fit into.
proof fn lemma_fit_parts(reader: ObjectReader)
    requires
        symbols_fit(
            reader.data_segments@,
            reader.segments_info@,
            ordered_data(reader.linking_symbols@),
        ),
    ensures
        ordered_data(reader.linking_symbols@).len() < MAX_VALUE,
        reader.segments_info@.len() <= reader.data_segments@.len(),
        reader.segments_info@.len() < u32::MAX,
        forall|s: int|
            0 <= s < reader.segments_info@.len() ==> (
            #[trigger] reader.segments_info@[s]).alignment <= u8::MAX,
{
    reveal(symbols_fit);
}

proof fn lemma_places_len(segments: Seq<RawData>, symbols: Seq<DataSymbol>, count: int)
    requires
        0 <= count <= symbols.len(),
    ensures
        symbol_places(segments, symbols, count).len() <= count,
    decreases count,
{
    if count > 0 {
        lemma_places_len(segments, symbols, count - 1);
    }
}

/// Every place of a layout that was read names a part of a segment.
proof fn lemma_read_is_valid(reader: ObjectReader, layout: MemLayoutSealed)
    requires
        symbols_fit(
            reader.data_segments@,
            reader.segments_info@,
            ordered_data(reader.linking_symbols@),
        ),
        layout.segments@.len() == reader.segments_info@.len(),
        layout.defined.wf(),
        layout.defined@ == symbol_places(
            reader.data_segments@,
            ordered_data(reader.linking_symbols@),
            ordered_data(reader.linking_symbols@).len() as int,
        ),
        parts_are_read(
            layout.segments@,
            reader.data_segments@,
            reader.segments_info@,
            ordered_data(reader.linking_symbols@),
            ordered_data(reader.linking_symbols@).len() as int,
        ),
    ensures
        layout.wf(),
{
    let symbols = ordered_data(reader.linking_symbols@);
    let count = symbols.len() as int;
    lemma_fit_parts(reader);
    assert forall|key: nat| slot_at(layout.defined@, key) is Some implies {
        let place = (#[trigger] slot_at(layout.defined@, key))->0;
        &&& place.segment_id.id() < layout.segments@.len()
        &&& place.part_id.id() < layout.segments@[place.segment_id.id() as int].parts@.len()
    } by {
        let j = key as int;
        lemma_symbol_places(reader.data_segments@, symbols, count, key);
        lemma_symbol_fits(reader.data_segments@, reader.segments_info@, symbols, j);
        lemma_parts_up_to(symbols, j);
        let t = lemma_find_last_of_segment(symbols, j, count);
    }
}

} // verus!
