//! Text that shows all data of a module.
use crate::emit::memory_layout::debug::{
    can_show, debug_symbol_ext, is_symbol_text, SymbolDebug, SymbolDebugExt,
};
use crate::emit::memory_layout::{ChunkRepr, SegmentLayout, Segments};
use crate::index::TempIndex;
use crate::layouts::data::sealed::{MemLayoutSealed, SealedDataItem, SealedDataSegment};
use crate::layouts::data::DataSymbolRef;
use crate::layouts::{PartId, SegmentId};
use crate::linkage::file_db::FileRelocs;
use crate::typed::body::EntityBody;
use crate::typed::module::Module;
use vstd::prelude::*;
use vstd::string::StringExecFns;

verus! {

/// Where the bytes of a symbol start among those of all symbols.
pub open spec fn symbol_base<T: SymbolDebugExt>(symbols: Seq<T>, k: int) -> int
    decreases k,
{
    if k <= 0 {
        0
    } else {
        symbol_base(symbols, k - 1) + symbols[k - 1].data().len()
    }
}

/// Texts behind one another.
pub open spec fn joined_texts(texts: Seq<Seq<char>>) -> Seq<char>
    decreases texts.len(),
{
    if texts.len() == 0 {
        Seq::empty()
    } else {
        joined_texts(texts.drop_last()) + texts.last()
    }
}

/// Whether texts show the first symbols.
pub open spec fn are_symbol_texts<T: SymbolDebugExt>(
    symbols: Seq<T>,
    color: bool,
    texts: Seq<Seq<char>>,
    count: int,
) -> bool {
    &&& texts.len() == count
    &&& forall|i: int|
        0 <= i < count ==> is_symbol_text(
            symbols[i],
            symbol_base(symbols, i),
            color,
            #[trigger] texts[i],
        )
}

/// Whether all symbols can be shown.
pub open spec fn can_show_all<T: SymbolDebugExt>(symbols: Seq<T>) -> bool {
    forall|i: int|
        0 <= i < symbols.len() ==> (#[trigger] symbols[i]).valid() && can_show(
            symbols[i],
            symbol_base(symbols, i),
        )
}

/// Whether a text shows all symbols below a heading.
pub open spec fn shows_symbols<T: SymbolDebugExt>(
    symbols: Seq<T>,
    module_name: Seq<char>,
    color: bool,
    text: Seq<char>,
) -> bool {
    exists|texts: Seq<Seq<char>>| #[trigger]
        are_symbol_texts(symbols, color, texts, symbols.len() as int) && text == "<Module "@
            + module_name + ">\n"@ + joined_texts(texts)
}

fn debug_symbols<T: SymbolDebugExt>(
    symbols: &Vec<T>,
    module_name: &String,
    out: &mut String,
    color: bool,
)
    requires
        can_show_all(symbols@),
    ensures
        exists|text: Seq<char>| #[trigger]
            shows_symbols(symbols@, module_name@, color, text) && final(out)@ == old(out)@ + text,
{
    let ghost before = out@;
    let ghost all = symbols@;
    out.append("<Module ");
    out.append(module_name.as_str());
    out.append(">\n");
    let ghost head = out@;
    let ghost mut texts: Seq<Seq<char>> = Seq::empty();
    let mut base: usize = 0;
    let mut i: usize = 0;
    assert(out@ =~= head + joined_texts(texts));
    while i < symbols.len()
        invariant
            i <= all.len(),
            all == symbols@,
            can_show_all(all),
            base == symbol_base(all, i as int),
            are_symbol_texts(all, color, texts, i as int),
            out@ == head + joined_texts(texts),
        decreases all.len() - i,
    {
        assert(all[i as int].valid());
        let ghost earlier = out@;
        let ghost start = base;
        debug_symbol_ext(&symbols[i], out, &mut base, color);
        proof {
            let text = choose|text: Seq<char>| #[trigger]
                is_symbol_text(all[i as int], start as int, color, text) && out@ == earlier + text;
            let longer = texts.push(text);
            assert(longer.drop_last() =~= texts);
            assert(out@ =~= head + joined_texts(longer));
            assert forall|j: int| 0 <= j < i + 1 implies is_symbol_text(
                all[j],
                symbol_base(all, j),
                color,
                #[trigger] longer[j],
            ) by {
                if j < i {
                    assert(longer[j] == texts[j]);
                }
            }
            texts = longer;
        }
        i = i + 1;
    }
    proof {
        let text = "<Module "@ + module_name@ + ">\n"@ + joined_texts(texts);
        assert(shows_symbols(all, module_name@, color, text));
        assert(out@ =~= before + text);
    }
}

/// A part of a segment: the name of the segment, its own name, its number and its body.
pub type ShownPart = (Seq<char>, Seq<char>, Option<DataSymbolRef>, EntityBody);

/// Whether symbols are the given parts.
pub open spec fn are_parts(
    symbols: Seq<SymbolDebug<'_>>,
    module: Module,
    relocs: FileRelocs,
    parts: Seq<ShownPart>,
) -> bool {
    &&& symbols.len() == parts.len()
    &&& forall|i: int|
        0 <= i < symbols.len() ==> is_part_symbol(#[trigger] symbols[i], module, relocs, parts[i])
}

/// Whether a symbol is a given part.
pub open spec fn is_part_symbol(
    symbol: SymbolDebug<'_>,
    module: Module,
    relocs: FileRelocs,
    part: ShownPart,
) -> bool {
    &&& *symbol.module == module
    &&& *symbol.file_relocs == relocs
    &&& symbol.segment@ == part.0
    &&& symbol.symbol_name@ == part.1
    &&& symbol.symbol_index == part.2
    &&& *symbol.body == part.3
}

/// Whether all parts can be shown.
pub open spec fn can_show_parts(module: Module, relocs: FileRelocs, parts: Seq<ShownPart>) -> bool {
    forall|symbols: Seq<SymbolDebug<'_>>| #[trigger]
        are_parts(symbols, module, relocs, parts) ==> can_show_all(symbols)
}

/// Whether a text shows all parts below a heading.
pub open spec fn shows_parts(
    module: Module,
    relocs: FileRelocs,
    parts: Seq<ShownPart>,
    module_name: Seq<char>,
    color: bool,
    text: Seq<char>,
) -> bool {
    exists|symbols: Seq<SymbolDebug<'_>>| #[trigger]
        are_parts(symbols, module, relocs, parts) && shows_symbols(
            symbols,
            module_name,
            color,
            text,
        )
}

/// A part of a sealed segment.
pub open spec fn sealed_part(segment: SealedDataSegment, item: SealedDataItem) -> ShownPart {
    (
        segment.name@,
        match item.defined_entity.name {
            Some(name) => name@,
            None => "<unnamed>"@,
        },
        item.item_id,
        item.defined_entity.body,
    )
}

/// The first parts of a sealed segment.
pub open spec fn sealed_parts(segment: SealedDataSegment, count: int) -> Seq<ShownPart> {
    Seq::new(count as nat, |p: int| sealed_part(segment, segment.parts@[p]))
}

/// The parts of the first sealed segments.
pub open spec fn all_sealed_parts(segments: Seq<SealedDataSegment>) -> Seq<ShownPart>
    decreases segments.len(),
{
    if segments.len() == 0 {
        Seq::empty()
    } else {
        all_sealed_parts(segments.drop_last()) + sealed_parts(
            segments.last(),
            segments.last().parts@.len() as int,
        )
    }
}

proof fn lemma_push_part(
    symbols: Seq<SymbolDebug<'_>>,
    symbol: SymbolDebug<'_>,
    module: Module,
    relocs: FileRelocs,
    parts: Seq<ShownPart>,
    part: ShownPart,
)
    requires
        are_parts(symbols, module, relocs, parts),
        is_part_symbol(symbol, module, relocs, part),
    ensures
        are_parts(symbols.push(symbol), module, relocs, parts.push(part)),
{
    let longer = symbols.push(symbol);
    assert forall|i: int| 0 <= i < longer.len() implies is_part_symbol(
        #[trigger] longer[i],
        module,
        relocs,
        parts.push(part)[i],
    ) by {
        if i < symbols.len() {
            assert(longer[i] == symbols[i]);
        }
    }
}

impl MemLayoutSealed {
    fn list_symbols<'b>(&'b self, file_relocs: &'b FileRelocs, module: &'b Module) -> (r: Vec<
        SymbolDebug<'b>,
    >)
        requires
            self.segments@.len() < u32::MAX,
            forall|s: int|
                0 <= s < self.segments@.len() ==> (#[trigger] self.segments@[s]).parts@.len()
                    < u32::MAX,
        ensures
            are_parts(r@, *module, *file_relocs, all_sealed_parts(self.segments@)),
    {
        let ghost all = self.segments@;
        let mut symbols: Vec<SymbolDebug<'b>> = Vec::new();
        let mut s: usize = 0;
        assert(all.take(0) =~= Seq::<SealedDataSegment>::empty());
        while s < self.segments.len()
            invariant
                s <= all.len() < u32::MAX,
                all == self.segments@,
                forall|s: int|
                    0 <= s < all.len() ==> (#[trigger] all[s]).parts@.len() < u32::MAX,
                are_parts(
                    symbols@,
                    *module,
                    *file_relocs,
                    all_sealed_parts(all.take(s as int)),
                ),
            decreases all.len() - s,
        {
            let ghost earlier = all_sealed_parts(all.take(s as int));
            let segment = self.segments.at(SegmentId::new(s));
            assert(*segment == all[s as int]);
            let mut p: usize = 0;
            assert(earlier + sealed_parts(*segment, 0) =~= earlier);
            while p < segment.parts.len()
                invariant
                    p <= segment.parts@.len() < u32::MAX,
                    are_parts(
                        symbols@,
                        *module,
                        *file_relocs,
                        earlier + sealed_parts(*segment, p as int),
                    ),
                decreases segment.parts@.len() - p,
            {
                let item = segment.parts.at(PartId::new(p));
                let symbol = SymbolDebug {
                    module,
                    file_relocs,
                    segment: segment.name.as_str(),
                    symbol_name: item.defined_entity.debug_name(),
                    symbol_index: item.item_id,
                    body: &item.defined_entity.body,
                };
                proof {
                    let part = sealed_part(*segment, segment.parts@[p as int]);
                    lemma_push_part(
                        symbols@,
                        symbol,
                        *module,
                        *file_relocs,
                        earlier + sealed_parts(*segment, p as int),
                        part,
                    );
                    assert((earlier + sealed_parts(*segment, p as int)).push(part) =~= earlier
                        + sealed_parts(*segment, p + 1));
                }
                symbols.push(symbol);
                p = p + 1;
            }
            proof {
                assert(all.take(s + 1).drop_last() =~= all.take(s as int));
                assert(all.take(s + 1).last() == all[s as int]);
            }
            s = s + 1;
        }
        assert(all.take(s as int) =~= all);
        symbols
    }

    /// Appends the text that shows all data.
    pub fn debug_layout(
        &self,
        file_relocs: &FileRelocs,
        module: &Module,
        module_name: &String,
        out: &mut String,
        color: bool,
    )
        requires
            self.segments@.len() < u32::MAX,
            forall|s: int|
                0 <= s < self.segments@.len() ==> (#[trigger] self.segments@[s]).parts@.len()
                    < u32::MAX,
            can_show_parts(*module, *file_relocs, all_sealed_parts(self.segments@)),
        ensures
            exists|text: Seq<char>| #[trigger]
                shows_parts(
                    *module,
                    *file_relocs,
                    all_sealed_parts(self.segments@),
                    module_name@,
                    color,
                    text,
                ) && final(out)@ == old(out)@ + text,
    {
        let ghost before = out@;
        let symbols = self.list_symbols(file_relocs, module);
        debug_symbols(&symbols, module_name, out, color);
        proof {
            let text = choose|text: Seq<char>| #[trigger]
                shows_symbols(symbols@, module_name@, color, text) && out@ == before + text;
            assert(shows_parts(
                *module,
                *file_relocs,
                all_sealed_parts(self.segments@),
                module_name@,
                color,
                text,
            ));
        }
    }
}

/// A part of a segment.
pub open spec fn layout_part(segment: SegmentLayout, chunk: ChunkRepr) -> ShownPart {
    (segment.segment_name@, chunk.1@, chunk.2, chunk.0.body)
}

/// The first parts of a segment.
pub open spec fn layout_parts(segment: SegmentLayout, count: int) -> Seq<ShownPart> {
    Seq::new(count as nat, |p: int| layout_part(segment, segment.data_parts@[p]))
}

/// The parts of segments.
pub open spec fn all_layout_parts(segments: Seq<SegmentLayout>) -> Seq<ShownPart>
    decreases segments.len(),
{
    if segments.len() == 0 {
        Seq::empty()
    } else {
        all_layout_parts(segments.drop_last()) + layout_parts(
            segments.last(),
            segments.last().data_parts@.len() as int,
        )
    }
}

impl SegmentLayout {
    fn list_symbols<'b>(
        data_segments: &'b Segments,
        file_relocs: &'b FileRelocs,
        module: &'b Module,
    ) -> (r: Vec<SymbolDebug<'b>>)
        requires
            data_segments@.len() < u32::MAX,
        ensures
            are_parts(r@, *module, *file_relocs, all_layout_parts(data_segments@)),
    {
        let ghost all = data_segments@;
        let mut symbols: Vec<SymbolDebug<'b>> = Vec::new();
        let mut s: usize = 0;
        assert(all.take(0) =~= Seq::<SegmentLayout>::empty());
        while s < data_segments.len()
            invariant
                s <= all.len() < u32::MAX,
                all == data_segments@,
                are_parts(
                    symbols@,
                    *module,
                    *file_relocs,
                    all_layout_parts(all.take(s as int)),
                ),
            decreases all.len() - s,
        {
            let ghost earlier = all_layout_parts(all.take(s as int));
            let segment = data_segments.at(SegmentId::new(s));
            assert(*segment == all[s as int]);
            let mut p: usize = 0;
            assert(earlier + layout_parts(*segment, 0) =~= earlier);
            while p < segment.data_parts.len()
                invariant
                    p <= segment.data_parts@.len(),
                    are_parts(
                        symbols@,
                        *module,
                        *file_relocs,
                        earlier + layout_parts(*segment, p as int),
                    ),
                decreases segment.data_parts@.len() - p,
            {
                let chunk = &segment.data_parts[p];
                let symbol = SymbolDebug {
                    module,
                    file_relocs,
                    segment: segment.segment_name.as_str(),
                    symbol_name: chunk.1.as_str(),
                    symbol_index: chunk.2,
                    body: &chunk.0.body,
                };
                proof {
                    let part = layout_part(*segment, segment.data_parts@[p as int]);
                    lemma_push_part(
                        symbols@,
                        symbol,
                        *module,
                        *file_relocs,
                        earlier + layout_parts(*segment, p as int),
                        part,
                    );
                    assert((earlier + layout_parts(*segment, p as int)).push(part) =~= earlier
                        + layout_parts(*segment, p + 1));
                }
                symbols.push(symbol);
                p = p + 1;
            }
            proof {
                assert(all.take(s + 1).drop_last() =~= all.take(s as int));
                assert(all.take(s + 1).last() == all[s as int]);
            }
            s = s + 1;
        }
        assert(all.take(s as int) =~= all);
        symbols
    }

    /// Appends the text that shows all data of segments.
    pub fn debug_layout(
        file_relocs: &FileRelocs,
        module: &Module,
        module_name: &String,
        data_segments: &Segments,
        out: &mut String,
        color: bool,
    )
        requires
            data_segments@.len() < u32::MAX,
            can_show_parts(*module, *file_relocs, all_layout_parts(data_segments@)),
        ensures
            exists|text: Seq<char>| #[trigger]
                shows_parts(
                    *module,
                    *file_relocs,
                    all_layout_parts(data_segments@),
                    module_name@,
                    color,
                    text,
                ) && final(out)@ == old(out)@ + text,
    {
        let ghost before = out@;
        let symbols = Self::list_symbols(data_segments, file_relocs, module);
        debug_symbols(&symbols, module_name, out, color);
        proof {
            let text = choose|text: Seq<char>| #[trigger]
                shows_symbols(symbols@, module_name@, color, text) && out@ == before + text;
            assert(shows_parts(
                *module,
                *file_relocs,
                all_layout_parts(data_segments@),
                module_name@,
                color,
                text,
            ));
        }
    }
}

} // verus!
