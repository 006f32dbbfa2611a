//! Where the symbols of a layout are.
use crate::emit::memory_layout::{
    aligned_start, are_segment_parts, lemma_parts_fill_segment, parts_data, segment_location,
    segment_memory, symbol_padding, symbols_end, with_symbols, At, ChunkRepr, DataSegmentInfo,
    DataSymbol, DataSymbolOffset, MemoryPlace, SpecificLocation,
};
use crate::index::{slot_at, TempIndex};
use crate::layouts::data::{lemma_padding_aligns, zeros};
use crate::typed::duplicate::{lemma_same_body, Duplicate};
use vstd::arithmetic::power2::{lemma_pow2_pos, pow2};
use vstd::prelude::*;

verus! {

/// The first segment starts at the first multiple of 16 that is not before the start of the data.
/// It stays relative to the same global, or fixed.
pub proof fn lemma_start_is_aligned(mem_start: SpecificLocation)
    requires
        mem_start.offset_spec() + 15 <= u32::MAX,
    ensures
        ({
            let start = aligned_start(mem_start);
            &&& start.offset_spec() % 16 == 0
            &&& mem_start.offset_spec() <= start.offset_spec() < mem_start.offset_spec() + 16
            &&& start == mem_start.with_offset(start.offset_spec())
        }),
{
    lemma_padding_aligns(mem_start.offset_spec() as int, 16);
}

/// A segment that is placed starts at the first multiple of its alignment behind the segments
/// before it, from the start of the data on.
pub proof fn lemma_segment_is_aligned(
    info: DataSegmentInfo,
    start: SpecificLocation,
    end: int,
)
    requires
        0 <= end,
        start.offset_spec() + end + pow2(info.pow2align as nat) <= u32::MAX,
    ensures
        ({
            let memory = segment_memory(info, end);
            &&& memory % pow2(info.pow2align as nat) as int == 0
            &&& end <= memory < end + pow2(info.pow2align as nat)
            &&& match (info.location, segment_location(info.location, start, memory)) {
                (MemoryPlace::Passive, None) => true,
                (MemoryPlace::ContinuesMemory, Some(location)) => {
                    &&& location.offset_spec() == start.offset_spec() + memory
                    &&& location == start.with_offset(location.offset_spec())
                },
                _ => false,
            }
        }),
{
    lemma_pow2_pos(info.pow2align as nat);
    lemma_padding_aligns(end, pow2(info.pow2align as nat) as int);
}

/// Symbols have different numbers.
pub open spec fn are_distinct(symbols: Seq<DataSymbol>) -> bool {
    forall|i: int, j: int|
        #![trigger symbols[i], symbols[j]]
        0 <= i < j < symbols.len() ==> symbols[i].index.id() != symbols[j].index.id()
}

/// The place of a symbol.
pub open spec fn place_of(
    places: Seq<Option<DataSymbolOffset>>,
    symbol: DataSymbol,
) -> Option<DataSymbolOffset> {
    slot_at(places, symbol.index.id() as nat)
}

proof fn lemma_place(
    places: Seq<Option<DataSymbolOffset>>,
    symbols: Seq<DataSymbol>,
    start: At,
    k: int,
)
    requires
        are_distinct(symbols),
        0 <= k < symbols.len(),
    ensures
        ({
            let before = symbols_end(symbols.take(k), start);
            let padding = symbol_padding(symbols[k], before.file);
            place_of(with_symbols(places, symbols, start), symbols[k]) == Some(
                DataSymbolOffset {
                    addr_of_symbol: (before.memory + padding) as usize,
                    data_section_offset: (before.file + padding) as usize,
                },
            )
        }),
    decreases symbols.len(),
{
    let init = symbols.drop_last();
    if k == symbols.len() - 1 {
        assert(symbols.take(k) =~= init);
    } else {
        assert(are_distinct(init)) by {
            assert forall|i: int, j: int|
                #![trigger init[i], init[j]]
                0 <= i < j < init.len() implies init[i].index.id() != init[j].index.id() by {
                assert(symbols[i].index.id() != symbols[j].index.id());
            }
        }
        lemma_place(places, init, start, k);
        assert(init.take(k) =~= symbols.take(k));
        assert(symbols[k].index.id() != symbols[symbols.len() - 1].index.id());
    }
}

proof fn lemma_ends(symbols: Seq<DataSymbol>, start: At, k: int)
    requires
        0 <= k < symbols.len(),
        0 <= start.file,
        0 <= start.memory,
    ensures
        ({
            let before = symbols_end(symbols.take(k), start);
            let end = symbols_end(symbols, start);
            let padding = symbol_padding(symbols[k], before.file);
            let size = symbols[k].chunk.body.emitted().len();
            &&& start.file <= before.file
            &&& before.file - start.file == before.memory - start.memory
            &&& 0 <= padding
            &&& (before.file + padding) % pow2(
                symbols[k].chunk.entity_type.alignment as nat,
            ) as int == 0
            &&& before.file + padding + size <= end.file
            &&& symbols_end(symbols.take(k + 1), start).file == before.file + padding + size
            &&& end.file - start.file == end.memory - start.memory
        }),
    decreases symbols.len(),
{
    let init = symbols.drop_last();
    let last = symbols.last();
    lemma_pow2_pos(last.chunk.entity_type.alignment as nat);
    if init.len() > 0 {
        lemma_ends(init, start, if k < init.len() {
            k
        } else {
            init.len() - 1
        });
    }
    assert(start.file <= symbols_end(init, start).file) by {
        if init.len() > 0 {
            lemma_ends(init, start, 0);
            lemma_pow2_pos(init[0].chunk.entity_type.alignment as nat);
        }
    }
    lemma_padding_aligns(
        symbols_end(init, start).file,
        pow2(last.chunk.entity_type.alignment as nat) as int,
    );
    if k == init.len() {
        assert(symbols.take(k) =~= init);
        assert(symbols.take(k + 1) =~= symbols);
    } else {
        assert(init.take(k) =~= symbols.take(k));
        assert(init.take(k + 1) =~= symbols.take(k + 1));
    }
}

/// Every symbol of a segment has a place: a multiple of its alignment among the bytes of all
/// segments, behind the symbols before it, and as far behind the start of the segment in memory as
/// among the bytes of all segments.
pub proof fn lemma_symbols_are_placed(
    places: Seq<Option<DataSymbolOffset>>,
    symbols: Seq<DataSymbol>,
    start: At,
    k: int,
)
    requires
        are_distinct(symbols),
        0 <= k < symbols.len(),
        0 <= start.file,
        0 <= start.memory,
        symbols_end(symbols, start).file <= u32::MAX,
        symbols_end(symbols, start).memory <= u32::MAX,
    ensures
        ({
            let all = with_symbols(places, symbols, start);
            &&& place_of(all, symbols[k]) matches Some(place)
            &&& place.data_section_offset as int % pow2(
                symbols[k].chunk.entity_type.alignment as nat,
            ) as int == 0
            &&& start.file <= place.data_section_offset
            &&& place.data_section_offset - start.file == place.addr_of_symbol - start.memory
            &&& place.data_section_offset + symbols[k].chunk.body.emitted().len()
                <= symbols_end(symbols, start).file
            &&& forall|j: int|
                0 <= j < k ==> (place_of(all, #[trigger] symbols[j]) matches Some(earlier)
                    && earlier.data_section_offset + symbols[j].chunk.body.emitted().len()
                    <= place.data_section_offset)
        }),
{
    let all = with_symbols(places, symbols, start);
    lemma_place(places, symbols, start, k);
    lemma_ends(symbols, start, k);
    let place = place_of(all, symbols[k])->0;
    assert forall|j: int| 0 <= j < k implies (place_of(all, #[trigger] symbols[j]) matches Some(
        earlier,
    ) && earlier.data_section_offset + symbols[j].chunk.body.emitted().len()
        <= place.data_section_offset) by {
        lemma_place(places, symbols, start, j);
        lemma_ends(symbols, start, j);
        let upto = symbols.take(k);
        assert(upto.take(j) =~= symbols.take(j));
        lemma_ends(upto, start, j);
    }
}

/// The bytes of every symbol stand at its place among the parts of its segment, and the bytes
/// between symbols are zero.
pub proof fn lemma_symbols_are_at_their_places(
    parts: Seq<ChunkRepr>,
    symbols: Seq<DataSymbol>,
    start: At,
    s: int,
    k: int,
)
    requires
        are_segment_parts(parts, symbols, start, s),
        0 <= k < symbols.len(),
        0 <= start.file,
        0 <= start.memory,
    ensures
        ({
            let before = symbols_end(symbols.take(k), start).file - start.file;
            let at = before + symbol_padding(symbols[k], before + start.file);
            let body = symbols[k].chunk.body.emitted();
            &&& 0 <= before <= at <= at + body.len() <= parts_data(parts).len()
            &&& parts_data(parts).subrange(at, at + body.len()) == body
            &&& parts_data(parts).subrange(before, at) == zeros((at - before) as nat)
        }),
    decreases symbols.len(),
{
    let init = symbols.drop_last();
    let last = symbols.last();
    let data = parts_data(parts);
    let end = symbols_end(init, start);
    let padding = symbol_padding(last, end.file);
    let n = parts.len() as int;
    let body = symbols[k].chunk.body.emitted();
    let before = symbols_end(symbols.take(k), start).file - start.file;
    let at = before + symbol_padding(symbols[k], before + start.file);
    lemma_ends(symbols, start, k);
    lemma_parts_fill_segment(parts, symbols, start, s);
    let rest = if padding > 0 {
        parts.take(n - 2)
    } else {
        parts.take(n - 1)
    };
    lemma_ends(symbols, start, symbols.len() - 1);
    assert(symbols.take(symbols.len() - 1) =~= init);
    lemma_parts_fill_segment(rest, init, start, s);
    assert(parts.drop_last() =~= parts.take(n - 1));
    if padding > 0 {
        assert(parts.take(n - 1).drop_last() =~= rest);
        assert(parts.take(n - 1).last() == parts[n - 2]);
    }
    assert(data =~= parts_data(rest) + zeros(padding as nat)
        + last.chunk.body.emitted()) by {
        lemma_same_body(last.chunk.body, parts.last().0.body);
        assert(parts_data(parts) =~= parts_data(parts.drop_last())
            + parts.last().0.body.emitted());
    }
    if k == symbols.len() - 1 {
        assert(data.subrange(at, at + body.len()) =~= body);
        assert(data.subrange(before, at) =~= zeros((at - before) as nat));
    } else {
        lemma_symbols_are_at_their_places(rest, init, start, s, k);
        assert(init.take(k) =~= symbols.take(k));
        assert(data.subrange(at, at + body.len()) =~= parts_data(rest).subrange(
            at,
            at + body.len(),
        ));
        assert(data.subrange(before, at) =~= parts_data(rest).subrange(before, at));
    }
}

} // verus!
