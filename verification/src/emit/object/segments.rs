//! Data segments of output modules.
use crate::emit::object::{contains_symbol, OutputGlobalId};
use crate::index::TempIndex;
use crate::layouts::data::{calculate_padding, lemma_padding_aligns, padding_to, zeros};
use crate::typed::SymbolId;
use vstd::arithmetic::power2::{lemma2_to64, lemma_pow2_pos, pow2};
use vstd::prelude::*;

verus! {

/// A data symbol of a segment.
#[derive(Debug)]
pub struct SourceSymbol {
    pub symbol: SymbolId,
    /// Alignment as a power of two.
    pub pow2align: u8,
    pub bytes: Vec<u8>,
}

/// A data segment of the input module.
#[derive(Debug)]
pub struct SourceSegment {
    pub name: String,
    /// Where the segment is in memory.
    pub memory_offset: u32,
    /// Alignment as a power of two.
    pub pow2align: u8,
    pub symbols: Vec<SourceSymbol>,
}

/// A data symbol, its alignment and its bytes.
pub type SymbolView = (SymbolId, u8, Seq<u8>);

pub open spec fn symbol_views(symbols: Seq<SourceSymbol>) -> Seq<SymbolView> {
    symbols.map_values(|s: SourceSymbol| (s.symbol, s.pow2align, s.bytes@))
}

/// Tells the symbols of a list.
pub open spec fn is_listed(list: Seq<SymbolId>) -> spec_fn(SymbolView) -> bool {
    |view: SymbolView| list.contains(view.0)
}

/// The place of a data symbol in its segment.
#[derive(Debug, Clone, Copy, PartialEq, Eq)]
pub struct PlacedSymbol {
    pub symbol: SymbolId,
    pub data_mem_offset: u32,
}

/// A data segment of an output module.
#[derive(Debug)]
pub struct DataSegmentOutput {
    /// The global that holds the base of the module in memory.
    pub lib_base: Option<OutputGlobalId>,
    /// Where the segment is in memory, or from the base on.
    pub memory_offset: u32,
    pub raw: Vec<u8>,
    pub symbols: Vec<PlacedSymbol>,
}

/// Symbols behind one another, aligned.
pub open spec fn raw_of(symbols: Seq<SymbolView>) -> Seq<u8>
    decreases symbols.len(),
{
    if symbols.len() == 0 {
        Seq::empty()
    } else {
        let raw = raw_of(symbols.drop_last());
        raw + gap_before(raw.len() as int, symbols.last().1) + symbols.last().2
    }
}

/// Zeros between some bytes and the next symbol.
pub open spec fn gap_before(len: int, pow2align: u8) -> Seq<u8> {
    zeros(padding_to(len, pow2(pow2align as nat) as int) as nat)
}

/// Symbols behind one another, and padding for the next one.
pub open spec fn padded_raw(symbols: Seq<SymbolView>, pow2align: u8) -> Seq<u8> {
    raw_of(symbols) + gap_before(raw_of(symbols).len() as int, pow2align)
}

/// Whether symbols have their places.
pub open spec fn are_placed(placed: Seq<PlacedSymbol>, symbols: Seq<SymbolView>) -> bool {
    &&& placed.len() == symbols.len()
    &&& forall|i: int|
        0 <= i < placed.len() ==> {
            let p = #[trigger] placed[i];
            &&& p.symbol == symbols[i].0
            &&& p.data_mem_offset == padded_raw(symbols.take(i), symbols[i].1).len()
        }
}

/// A power of two, up to the width of an address.
pub(crate) fn alignment_of(exponent: u8) -> (r: usize)
    requires
        exponent < 32,
    ensures
        r == pow2(exponent as nat),
        r > 0,
{
    proof {
        lemma2_to64();
        lemma_pow2_pos(exponent as nat);
    }
    let mut power: usize = 1;
    let mut i: u8 = 0;
    while i < exponent
        invariant
            i <= exponent < 32,
            power == pow2(i as nat),
        decreases exponent - i,
    {
        proof {
            vstd::arithmetic::power2::lemma_pow2_unfold((i + 1) as nat);
            vstd::arithmetic::power2::lemma_pow2_strictly_increases((i + 1) as nat, 32);
            lemma2_to64();
        }
        power = power * 2;
        i = i + 1;
    }
    power
}

/// The symbols before one have no more bytes than all of them.
pub proof fn lemma_raw_grows(symbols: Seq<SymbolView>, k: int)
    requires
        0 <= k <= symbols.len(),
    ensures
        raw_of(symbols.take(k)).len() <= raw_of(symbols).len(),
        k < symbols.len() ==> padded_raw(symbols.take(k), symbols[k].1).len()
            + symbols[k].2.len() <= raw_of(symbols).len(),
    decreases symbols.len(),
{
    if k == symbols.len() {
        assert(symbols.take(k) =~= symbols);
    } else {
        let rest = symbols.drop_last();
        lemma_pow2_pos(symbols.last().1 as nat);
        assert(raw_of(rest).len() <= padded_raw(rest, symbols.last().1).len());
        if k == rest.len() {
            assert(symbols.take(k) =~= rest);
        } else {
            lemma_raw_grows(rest, k);
            assert(rest.take(k) =~= symbols.take(k));
        }
    }
}

/// Every symbol of a segment starts at a multiple of its alignment, behind the symbols before it,
/// and its bytes stand at its place.
pub proof fn lemma_symbols_are_at_their_places(
    placed: Seq<PlacedSymbol>,
    symbols: Seq<SymbolView>,
    i: int,
)
    requires
        are_placed(placed, symbols),
        0 <= i < placed.len(),
    ensures
        ({
            let start = placed[i].data_mem_offset as int;
            let end = start + symbols[i].2.len();
            &&& start % pow2(symbols[i].1 as nat) as int == 0
            &&& end <= raw_of(symbols).len()
            &&& raw_of(symbols).subrange(start, end) == symbols[i].2
            &&& forall|j: int|
                0 <= j < i ==> (#[trigger] placed[j]).data_mem_offset + symbols[j].2.len() <= start
        }),
{
    lemma_raw_grows(symbols, i);
    let before = symbols.take(i);
    let raw = raw_of(before);
    lemma_pow2_pos(symbols[i].1 as nat);
    lemma_padding_aligns(raw.len() as int, pow2(symbols[i].1 as nat) as int);
    let start = padded_raw(before, symbols[i].1).len() as int;
    let upto = symbols.take(i + 1);
    assert(upto.drop_last() =~= before);
    lemma_raw_prefix(symbols, i + 1);
    assert(raw_of(upto).subrange(start, start + symbols[i].2.len()) =~= symbols[i].2);
    assert(raw_of(symbols).subrange(start, start + symbols[i].2.len()) =~= raw_of(upto).subrange(
        start,
        start + symbols[i].2.len(),
    )) by {
        assert(raw_of(symbols).take(raw_of(upto).len() as int) == raw_of(upto));
    }
    assert forall|j: int| 0 <= j < i implies (#[trigger] placed[j]).data_mem_offset
        + symbols[j].2.len() <= start by {
        lemma_raw_grows(before, j);
        assert(before.take(j) =~= symbols.take(j));
    }
}

proof fn lemma_raw_prefix(symbols: Seq<SymbolView>, k: int)
    requires
        0 <= k <= symbols.len(),
    ensures
        raw_of(symbols.take(k)).len() <= raw_of(symbols).len(),
        raw_of(symbols).take(raw_of(symbols.take(k)).len() as int) == raw_of(symbols.take(k)),
    decreases symbols.len(),
{
    if k == symbols.len() {
        assert(symbols.take(k) =~= symbols);
        assert(raw_of(symbols).take(raw_of(symbols).len() as int) =~= raw_of(symbols));
    } else {
        let rest = symbols.drop_last();
        lemma_raw_prefix(rest, k);
        assert(rest.take(k) =~= symbols.take(k));
        let n = raw_of(symbols.take(k)).len() as int;
        assert(raw_of(symbols).take(n) =~= raw_of(rest).take(n));
    }
}

impl SourceSegment {
    /// The segment with some of its symbols.
    pub fn new_with_whitelist(&self, whitelist: &Vec<SymbolId>) -> (r: SourceSegment)
        ensures
            r.name@ == self.name@,
            r.memory_offset == self.memory_offset,
            r.pow2align == self.pow2align,
            symbol_views(r.symbols@) == symbol_views(self.symbols@).filter(
                is_listed(whitelist@),
            ),
    {
        let ghost all = symbol_views(self.symbols@);
        let ghost keep = is_listed(whitelist@);
        let mut symbols: Vec<SourceSymbol> = Vec::new();
        let mut i: usize = 0;
        proof {
            reveal(Seq::filter);
            assert(symbol_views(symbols@) =~= all.take(0).filter(keep));
        }
        while i < self.symbols.len()
            invariant
                i <= all.len(),
                all == symbol_views(self.symbols@),
                all.len() == self.symbols@.len(),
                keep == is_listed(whitelist@),
                symbol_views(symbols@) == all.take(i as int).filter(keep),
            decreases all.len() - i,
        {
            let symbol = &self.symbols[i];
            proof {
                reveal(Seq::filter);
                assert(all.take(i + 1).drop_last() =~= all.take(i as int));
                assert(all.take(i + 1).last() == all[i as int]);
            }
            let ghost before = symbols@;
            if contains_symbol(whitelist, symbol.symbol) {
                let mut bytes: Vec<u8> = Vec::new();
                bytes.extend_from_slice(symbol.bytes.as_slice());
                assert(bytes@ =~= symbol.bytes@);
                symbols.push(
                    SourceSymbol { symbol: symbol.symbol, pow2align: symbol.pow2align, bytes },
                );
                assert(symbol_views(symbols@) =~= symbol_views(before).push(all[i as int]));
            }
            i = i + 1;
        }
        assert(all.take(i as int) =~= all);
        SourceSegment {
            name: self.name.clone(),
            memory_offset: self.memory_offset,
            pow2align: self.pow2align,
            symbols,
        }
    }

    /// Where the segment starts behind others that end at an offset.
    pub open spec fn start_behind(&self, end: int) -> int {
        end + padding_to(end, pow2(self.pow2align as nat) as int)
    }

    /// Whether alignments and offsets are representable.
    pub open spec fn fits(&self, mem_start: int, end: int) -> bool {
        &&& self.pow2align < 32
        &&& forall|i: int|
            0 <= i < self.symbols@.len() ==> (#[trigger] self.symbols@[i]).pow2align < 32
        &&& mem_start + self.start_behind(end) + raw_of(symbol_views(self.symbols@)).len()
            <= u32::MAX
    }

    /// Lays out the segment behind others. Returns its start, and the segment.
    pub fn to_segment_output(
        &self,
        lib_base: Option<OutputGlobalId>,
        mem_start: u32,
        segment_mem_offset: u32,
    ) -> (r: (u32, DataSegmentOutput))
        requires
            self.fits(mem_start as int, segment_mem_offset as int),
        ensures
            r.0 == self.start_behind(segment_mem_offset as int),
            r.1.lib_base == lib_base,
            r.1.memory_offset == mem_start + r.0,
            r.1.raw@ == raw_of(symbol_views(self.symbols@)),
            are_placed(r.1.symbols@, symbol_views(self.symbols@)),
    {
        let ghost all = symbol_views(self.symbols@);
        let padding: usize = calculate_padding(
            segment_mem_offset as usize,
            alignment_of(self.pow2align),
        );
        proof {
            lemma_pow2_pos(self.pow2align as nat);
        }
        let start: u32 = (segment_mem_offset as u64 + padding as u64) as u32;
        let mut raw: Vec<u8> = Vec::new();
        let mut symbols: Vec<PlacedSymbol> = Vec::new();
        let mut i: usize = 0;
        assert(all.take(0) =~= Seq::<SymbolView>::empty());
        while i < self.symbols.len()
            invariant
                i <= all.len(),
                all == symbol_views(self.symbols@),
                all.len() == self.symbols@.len(),
                raw_of(all).len() <= u32::MAX,
                forall|i: int|
                    0 <= i < self.symbols@.len() ==> (#[trigger] self.symbols@[i]).pow2align < 32,
                raw@ == raw_of(all.take(i as int)),
                are_placed(symbols@, all.take(i as int)),
            decreases all.len() - i,
        {
            let symbol = &self.symbols[i];
            let ghost done = all.take(i as int);
            proof {
                lemma_raw_grows(all, i as int);
                assert(all.take(i + 1).drop_last() =~= done);
                assert(all.take(i + 1).last() == all[i as int]);
                assert(self.symbols@[i as int].pow2align < 32);
            }
            let gap: usize = calculate_padding(raw.len(), alignment_of(symbol.pow2align));
            let mut zeros_vec: Vec<u8> = vec![0u8; gap];
            assert(zeros_vec@ =~= zeros(gap as nat));
            raw.append(&mut zeros_vec);
            assert(raw@ == padded_raw(done, all[i as int].1));
            let ghost placed = symbols@;
            symbols.push(
                PlacedSymbol { symbol: symbol.symbol, data_mem_offset: raw.len() as u32 },
            );
            raw.extend_from_slice(symbol.bytes.as_slice());
            proof {
                assert(raw@ =~= raw_of(all.take(i + 1)));
                let longer = all.take(i + 1);
                assert forall|j: int| 0 <= j < symbols@.len() implies {
                    let p = #[trigger] symbols@[j];
                    &&& p.symbol == longer[j].0
                    &&& p.data_mem_offset == padded_raw(longer.take(j), longer[j].1).len()
                } by {
                    assert(longer.take(j) =~= done.take(j));
                    if j < i {
                        assert(symbols@[j] == placed[j]);
                    } else {
                        assert(longer.take(j) =~= done);
                    }
                }
            }
            i = i + 1;
        }
        assert(all.take(i as int) =~= all);
        (
            start,
            DataSegmentOutput {
                lib_base,
                memory_offset: mem_start + start,
                raw,
                symbols,
            },
        )
    }
}

} // verus!
