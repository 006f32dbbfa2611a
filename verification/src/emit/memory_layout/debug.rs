//! Text that shows data symbols with the references in them.
use crate::emit::memory_layout::hexdump::{part_text, render_part, COLS, DataPart, Ref};
use crate::emit::modify::local_reloc;
use crate::helpers::RangeExt;
use crate::index::TempIndex;
use crate::layouts::data::DataSymbolRef;
use crate::linkage::file_db::FileRelocs;
use crate::linkage::reloc::EntityRelocationEntry;
use crate::text::{decimal, decimal_string};
use crate::typed::body::EntityBody;
use crate::typed::lookup::{entity_name, has_entity, index_name};
use crate::typed::module::Module;
use crate::typed::EntityKind;
use vstd::prelude::*;
use vstd::string::StringExecFns;

verus! {

/// Whether references are those of relocations.
pub open spec fn are_refs<T: SymbolDebugExt>(
    symbol: T,
    relocs: Seq<EntityRelocationEntry>,
    refs: Seq<Ref>,
) -> bool {
    &&& refs.len() == relocs.len()
    &&& forall|i: int|
        0 <= i < refs.len() ==> {
            let r = #[trigger] refs[i];
            &&& (r.range.start as int, r.range.end as int) == relocs[i].place()
            &&& r.name@ == symbol.name_text(relocs[i].symbol_id)
        }
}

/// Whether a text shows a symbol: a header, and the bytes with the references in them unless they
/// are skipped.
pub open spec fn is_symbol_text<T: SymbolDebugExt>(
    symbol: T,
    base: int,
    color: bool,
    text: Seq<char>,
) -> bool {
    let (header, skipped) = symbol.header();
    if skipped {
        text == header
    } else {
        exists|refs: Seq<Ref>| #[trigger]
            are_refs(symbol, symbol.relocs(), refs) && text == header + part_text(
                base,
                symbol.data(),
                refs,
                color,
            )
    }
}

/// Whether the references of a symbol lie in its bytes, and the offsets are representable.
pub open spec fn can_show<T: SymbolDebugExt>(symbol: T, base: int) -> bool {
    let relocs = symbol.relocs();
    &&& base + symbol.data().len() + COLS <= usize::MAX
    &&& forall|i: int|
        0 <= i < relocs.len() ==> {
            let reloc = #[trigger] relocs[i];
            &&& reloc.place().1 <= symbol.data().len()
            &&& symbol.can_name(reloc.symbol_id)
        }
}

/// Something that can be shown as a hex dump.
pub trait SymbolDebugExt: Sized {
    /// Whether the parts of the symbol fit together.
    spec fn valid(&self) -> bool;

    /// The relocations, relative to the bytes.
    spec fn relocs(&self) -> Seq<EntityRelocationEntry>;

    fn get_symbol_shifted_relocs(&self) -> (r: Vec<EntityRelocationEntry>)
        requires
            self.valid(),
        ensures
            r@ == self.relocs(),
    ;

    /// Whether an entity has a name.
    spec fn can_name(&self, entity: EntityKind) -> bool;

    /// The name of an entity.
    spec fn name_text(&self, entity: EntityKind) -> Seq<char>;

    fn entity_name(&self, entity: EntityKind) -> (r: String)
        requires
            self.valid(),
            self.can_name(entity),
        ensures
            r@ == self.name_text(entity),
    ;

    spec fn data(&self) -> Seq<u8>;

    fn bytes(&self) -> (r: Vec<u8>)
        requires
            self.valid(),
        ensures
            r@ == self.data(),
    ;

    /// The text before the bytes, and whether the bytes are skipped.
    spec fn header(&self) -> (Seq<char>, bool);

    /// Appends the header. Returns whether the bytes are skipped.
    fn print_header(&self, out: &mut String) -> (r: bool)
        requires
            self.valid(),
        ensures
            final(out)@ == old(out)@ + self.header().0,
            r == self.header().1,
    ;
}

/// Appends the text that shows a symbol, whose bytes start at `base`, and moves `base` behind them.
pub fn debug_symbol_ext<T: SymbolDebugExt>(
    symbol: &T,
    out: &mut String,
    base: &mut usize,
    color: bool,
)
    requires
        symbol.valid(),
        can_show(*symbol, *old(base) as int),
    ensures
        *final(base) == *old(base) + symbol.data().len(),
        exists|text: Seq<char>| #[trigger]
            is_symbol_text(*symbol, *old(base) as int, color, text) && final(out)@ == old(out)@
                + text,
{
    let ghost before = out@;
    let skipped = symbol.print_header(out);
    let bytes = symbol.bytes();
    let len: usize = bytes.len();
    if skipped {
        *base = *base + len;
        assert(is_symbol_text(*symbol, *old(base) as int, color, symbol.header().0));
        return ;
    }
    let relocs = symbol.get_symbol_shifted_relocs();
    let mut refs: Vec<Ref> = Vec::new();
    let mut i: usize = 0;
    while i < relocs.len()
        invariant
            i <= relocs@.len(),
            relocs@ == symbol.relocs(),
            symbol.valid(),
            can_show(*symbol, *base as int),
            refs@.len() == i,
            forall|j: int|
                0 <= j < i ==> {
                    let r = #[trigger] refs@[j];
                    &&& (r.range.start as int, r.range.end as int) == relocs@[j].place()
                    &&& r.name@ == symbol.name_text(relocs@[j].symbol_id)
                },
        decreases relocs@.len() - i,
    {
        let reloc = relocs[i];
        assert(symbol.relocs()[i as int].place().1 <= symbol.data().len());
        refs.push(
            Ref { range: reloc.relocation_range(), name: symbol.entity_name(reloc.symbol_id) },
        );
        i = i + 1;
    }
    let ghost shown = refs@;
    proof {
        assert(are_refs(*symbol, symbol.relocs(), shown));
        assert forall|j: int| 0 <= j < shown.len() implies {
            let range = (#[trigger] shown[j]).range;
            &&& range.start < range.end ==> range.end <= bytes@.len()
            &&& range.start + *base <= usize::MAX
            &&& range.end + *base <= usize::MAX
        } by {
            assert(symbol.relocs()[j].place().1 <= symbol.data().len());
        }
    }
    render_part(out, *base, DataPart { bytes, refs }, color);
    proof {
        let text = symbol.header().0 + part_text(*base as int, symbol.data(), shown, color);
        assert(is_symbol_text(*symbol, *old(base) as int, color, text));
        assert(out@ =~= before + text);
    }
    *base = *base + len;
}

/// Text of a number in brackets behind a word.
pub open spec fn size_text(size: nat) -> Seq<char> {
    "(size: "@ + decimal(size) + ")\n"@
}

fn push_size(out: &mut String, size: usize)
    ensures
        final(out)@ == old(out)@ + size_text(size as nat),
{
    let ghost before = out@;
    out.append("(size: ");
    out.append(decimal_string(size as u64).as_str());
    out.append(")\n");
    assert(out@ =~= before + size_text(size as nat));
}

/// Bytes of a section, with relocations relative to them.
#[derive(Debug)]
pub struct SectionDebug<'a> {
    pub name: &'a str,
    pub bytes: &'a [u8],
    pub relocs: &'a [EntityRelocationEntry],
}

fn copy_bytes(bytes: &[u8]) -> (r: Vec<u8>)
    ensures
        r@ == bytes@,
{
    let mut result: Vec<u8> = Vec::new();
    result.extend_from_slice(bytes);
    assert(result@ =~= bytes@);
    result
}

impl<'a> SymbolDebugExt for SectionDebug<'a> {
    open spec fn valid(&self) -> bool {
        true
    }

    open spec fn relocs(&self) -> Seq<EntityRelocationEntry> {
        self.relocs@
    }

    fn get_symbol_shifted_relocs(&self) -> (r: Vec<EntityRelocationEntry>) {
        let mut result: Vec<EntityRelocationEntry> = Vec::new();
        let mut i: usize = 0;
        while i < self.relocs.len()
            invariant
                i <= self.relocs@.len(),
                result@ == self.relocs@.take(i as int),
            decreases self.relocs@.len() - i,
        {
            result.push(self.relocs[i]);
            assert(result@ =~= self.relocs@.take(i + 1));
            i = i + 1;
        }
        assert(self.relocs@.take(i as int) =~= self.relocs@);
        result
    }

    open spec fn can_name(&self, entity: EntityKind) -> bool {
        true
    }

    open spec fn name_text(&self, entity: EntityKind) -> Seq<char> {
        index_name(entity)
    }

    fn entity_name(&self, entity: EntityKind) -> (r: String) {
        entity.to_text()
    }

    open spec fn data(&self) -> Seq<u8> {
        self.bytes@
    }

    fn bytes(&self) -> (r: Vec<u8>) {
        copy_bytes(self.bytes)
    }

    open spec fn header(&self) -> (Seq<char>, bool) {
        ("["@ + self.name@ + "] "@ + size_text(self.bytes@.len()), false)
    }

    fn print_header(&self, out: &mut String) -> (r: bool) {
        let ghost before = out@;
        out.append("[");
        out.append(self.name);
        out.append("] ");
        push_size(out, self.bytes.len());
        assert(out@ =~= before + self.header().0);
        false
    }
}

/// A data symbol of a module. Padding has no index.
#[derive(Debug)]
pub struct SymbolDebug<'a> {
    pub module: &'a Module,
    pub file_relocs: &'a FileRelocs,
    pub segment: &'a str,
    pub symbol_name: &'a str,
    pub symbol_index: Option<DataSymbolRef>,
    pub body: &'a EntityBody,
}

/// Where a body starts in its input file.
pub open spec fn original_start(body: EntityBody) -> int {
    match body {
        EntityBody::Copied(copied) => copied.original_range.start as int,
        EntityBody::New { .. } => 0,
    }
}

/// The relocations of a data symbol of a file.
pub open spec fn data_relocs(relocs: FileRelocs, data: Option<DataSymbolRef>) -> Seq<
    EntityRelocationEntry,
> {
    match data {
        Some(d) => match relocs.of_entity(EntityKind::DataSymbol(d)) {
            Some(own) => own,
            None => Seq::empty(),
        },
        None => Seq::empty(),
    }
}

impl<'a> SymbolDebugExt for SymbolDebug<'a> {
    open spec fn valid(&self) -> bool {
        let own = data_relocs(*self.file_relocs, self.symbol_index);
        &&& self.module.extra.mem_layout.wf()
        &&& self.file_relocs.wf()
        &&& self.body.wf()
        &&& forall|i: int|
            0 <= i < own.len() ==> original_start(*self.body) <= (#[trigger] own[i]).offset
    }

    open spec fn relocs(&self) -> Seq<EntityRelocationEntry> {
        data_relocs(*self.file_relocs, self.symbol_index).map_values(
            |reloc: EntityRelocationEntry| local_reloc(reloc, original_start(*self.body)),
        )
    }

    fn get_symbol_shifted_relocs(&self) -> (r: Vec<EntityRelocationEntry>) {
        let ghost own = data_relocs(*self.file_relocs, self.symbol_index);
        let start: usize = match self.body {
            EntityBody::Copied(copied) => copied.original_range.start,
            EntityBody::New { .. } => 0,
        };
        let mut result: Vec<EntityRelocationEntry> = Vec::new();
        if let Some(data) = self.symbol_index {
            if let Some(relocs) = self.file_relocs.get_data_relocs(data) {
                let mut i: usize = 0;
                while i < relocs.len()
                    invariant
                        i <= relocs@.len(),
                        relocs@ == own,
                        own == data_relocs(*self.file_relocs, self.symbol_index),
                        self.valid(),
                        start == original_start(*self.body),
                        result@ == self.relocs().take(i as int),
                    decreases relocs@.len() - i,
                {
                    assert(original_start(*self.body) <= own[i as int].offset);
                    result.push(relocs[i].shift_left(start));
                    assert(result@ =~= self.relocs().take(i + 1));
                    i = i + 1;
                }
                assert(self.relocs().take(i as int) =~= self.relocs());
                return result;
            }
        }
        assert(result@ =~= self.relocs());
        result
    }

    open spec fn can_name(&self, entity: EntityKind) -> bool {
        has_entity(*self.module, entity)
    }

    open spec fn name_text(&self, entity: EntityKind) -> Seq<char> {
        entity_name(*self.module, entity)
    }

    fn entity_name(&self, entity: EntityKind) -> (r: String) {
        self.module.get_name(entity)
    }

    open spec fn data(&self) -> Seq<u8> {
        self.body.emitted()
    }

    fn bytes(&self) -> (r: Vec<u8>) {
        let mut result: Vec<u8> = Vec::new();
        self.body.append_to(&mut result);
        assert(result@ =~= self.body.emitted());
        result
    }

    open spec fn header(&self) -> (Seq<char>, bool) {
        match self.symbol_index {
            None => (
                "["@ + self.segment@ + "] <padding> "@ + size_text(self.body.emitted().len()),
                true,
            ),
            Some(data) => (
                "["@ + self.segment@ + ":"@ + index_name(EntityKind::DataSymbol(data)) + "] "@
                    + self.symbol_name@ + "\n"@,
                false,
            ),
        }
    }

    fn print_header(&self, out: &mut String) -> (r: bool) {
        let ghost before = out@;
        out.append("[");
        out.append(self.segment);
        match self.symbol_index {
            None => {
                out.append("] <padding> ");
                push_size(out, self.body.len());
                assert(out@ =~= before + self.header().0);
                true
            },
            Some(data) => {
                out.append(":");
                out.append(EntityKind::DataSymbol(data).to_text().as_str());
                out.append("] ");
                out.append(self.symbol_name);
                out.append("\n");
                assert(out@ =~= before + self.header().0);
                false
            },
        }
    }
}

} // verus!
