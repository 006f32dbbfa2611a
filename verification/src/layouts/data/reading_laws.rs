//! What becomes of the data symbols of a file.
use crate::index::TempIndex;
use crate::layouts::data::builder::is_padding;
use crate::layouts::data::reader::{
    continues, covered, is_symbol_part, keeper, lemma_keeper, merged_symbol, parts_are_symbols,
    symbols_fit, DataSymbol,
};
use crate::layouts::data::sealed::{parts_bytes, SealedDataItem};
use crate::layouts::data::zeros;
use crate::raw::{RawData, SegmentInfo};
use crate::typed::body::{lemma_nothing_patched, EntityBody};
use crate::typed::EntityKind;
use vstd::prelude::*;

verus! {

/// Symbols of a segment are in the order of their places.
pub open spec fn are_in_order(symbols: Seq<DataSymbol>) -> bool {
    forall|i: int, j: int|
        #![trigger symbols[i], symbols[j]]
        0 <= i < j < symbols.len() && symbols[i].1.segment_id == symbols[j].1.segment_id
            ==> symbols[i].1.range.start <= symbols[j].1.range.start
}

/// A data symbol stands for a symbol with bytes of its own and a place in it. That symbol is in the
/// same segment, and at that place it has the bytes of the data symbol.
pub proof fn lemma_merged_symbols_keep_their_bytes(
    symbols: Seq<DataSymbol>,
    j: int,
    data: Seq<u8>,
)
    requires
        are_in_order(symbols),
        0 <= j < symbols.len() <= u32::MAX,
        forall|i: int|
            0 <= i < symbols.len() ==> (#[trigger] symbols[i]).1.range.start
                <= symbols[i].1.range.end <= data.len(),
    ensures
        ({
            let merged = merged_symbol(symbols, j);
            let symbol = symbols[j].1;
            let len = symbol.range.end - symbol.range.start;
            &&& merged.entity matches EntityKind::DataSymbol(d)
            &&& d.id() <= j
            &&& {
                let owner = symbols[d.id() as int].1;
                let bytes = data.subrange(owner.range.start as int, owner.range.end as int);
                let at = merged.offset_in_entity as int;
                &&& owner.segment_id == symbol.segment_id
                &&& at + len <= bytes.len()
                &&& owner.range.start + at == symbol.range.start
                &&& bytes.subrange(at, at + len) == data.subrange(
                    symbol.range.start as int,
                    symbol.range.end as int,
                )
                &&& merged_symbol(symbols, d.id() as int).entity == merged.entity
                &&& merged_symbol(symbols, d.id() as int).offset_in_entity == 0
            }
        }),
{
    let k = keeper(symbols, j);
    lemma_keeper(symbols, j);
    let symbol = symbols[j].1;
    let owner = symbols[k].1;
    let at = symbol.range.start - owner.range.start;
    let len = symbol.range.end - symbol.range.start;
    let bytes = data.subrange(owner.range.start as int, owner.range.end as int);
    assert(owner.range.start <= symbol.range.start);
    assert(bytes.subrange(at, at + len) =~= data.subrange(
        symbol.range.start as int,
        symbol.range.end as int,
    ));
}

/// The parts of a segment reach up to the end of its last symbol, and hold the bytes of every
/// symbol with bytes of its own at its place.
pub proof fn lemma_parts_hold_stored_bytes(
    parts: Seq<SealedDataItem>,
    segments: Seq<RawData>,
    infos: Seq<SegmentInfo>,
    symbols: Seq<DataSymbol>,
    j: int,
    i: int,
)
    requires
        symbols_fit(segments, infos, symbols),
        parts_are_symbols(parts, segments, infos, symbols, j),
        0 <= i <= j < symbols.len(),
        forall|t: int| i < t <= j ==> #[trigger] continues(symbols, t),
        keeper(symbols, i) == i,
    ensures
        ({
            let range = symbols[i].1.range;
            let data = segments[symbols[i].1.segment_id.id() as int].data@;
            let bytes = parts_bytes(parts);
            &&& bytes.len() == symbols[keeper(symbols, j)].1.range.end
            &&& range.end <= bytes.len()
            &&& bytes.subrange(range.start as int, range.end as int) == data.subrange(
                range.start as int,
                range.end as int,
            )
        }),
    decreases j,
{
    reveal(symbols_fit);
    let range = symbols[i].1.range;
    let bytes = parts_bytes(parts);
    lemma_keeper(symbols, j);
    if keeper(symbols, j) != j {
        assert(continues(symbols, j));
        assert(i < j);
        lemma_parts_hold_stored_bytes(parts, segments, infos, symbols, j - 1, i);
    } else {
        let gap = symbols[j].1.range.start - covered(symbols, j);
        let n = parts.len() as int;
        let own: int = if gap > 0 {
            2
        } else {
            1
        };
        let rest = parts.take(n - own);
        let last = parts.last();
        assert(is_symbol_part(last, segments, infos, symbols, j));
        let copy = last.defined_entity.body->Copied_0;
        lemma_nothing_patched(copy.bytes@);
        assert(copy.fixups@ =~= Seq::empty());
        let stored = segments[symbols[j].1.segment_id.id() as int].data@;
        let body = last.defined_entity.body.emitted();
        assert(body == stored.subrange(
            symbols[j].1.range.start as int,
            symbols[j].1.range.end as int,
        ));
        assert(symbols[j].1.range.end <= stored.len());
        let before = parts_bytes(rest);
        assert(parts.drop_last() =~= parts.take(n - 1));
        if gap > 0 {
            assert(parts.take(n - 1).drop_last() =~= rest);
            assert(parts.take(n - 1).last() == parts[n - 2]);
            assert(is_padding(parts[n - 2], gap, symbols[j].1.segment_id.id() as int));
        }
        assert(before.len() == covered(symbols, j)) by {
            if continues(symbols, j) {
                let k = keeper(symbols, j - 1);
                lemma_keeper(symbols, j - 1);
                lemma_run(symbols, k, j - 1);
                lemma_parts_hold_stored_bytes(rest, segments, infos, symbols, j - 1, k);
            }
        }
        assert(bytes == parts_bytes(parts.take(n - 1)) + body);
        if gap > 0 {
            assert(parts_bytes(parts.take(n - 1)) == before + zeros(gap as nat));
        }
        assert(covered(symbols, j) <= symbols[j].1.range.start);
        assert(bytes.len() == symbols[j].1.range.end);
        if i == j {
            assert(bytes.subrange(range.start as int, range.end as int) =~= body);
        } else {
            assert(continues(symbols, j));
            lemma_parts_hold_stored_bytes(rest, segments, infos, symbols, j - 1, i);
            assert(bytes.subrange(range.start as int, range.end as int) =~= before.subrange(
                range.start as int,
                range.end as int,
            ));
        }
    }
}

/// The symbols between one and the one that has its bytes are of the same segment.
proof fn lemma_run(symbols: Seq<DataSymbol>, k: int, j: int)
    requires
        0 <= j < symbols.len(),
        k == keeper(symbols, j),
    ensures
        forall|t: int| k < t <= j ==> #[trigger] continues(symbols, t),
    decreases j,
{
    if continues(symbols, j) {
        if k != j {
            lemma_run(symbols, k, j - 1);
        }
    }
}

} // verus!
