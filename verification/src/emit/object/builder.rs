//! Builder for output modules.
//!
//! First functions, globals and data segments are declared. Then the builder is locked: segments are
//! laid out, and indices are final.
use crate::emit::modify::constant_extraction::RelocationContext;
use crate::emit::modify::start_fn_gen::{data_modify_entry, DataModifyEntry, DataSymbolWithOffset};
use crate::emit::modify::FixupError;
use crate::emit::object::globals::{DefinedGlobal, GlobalImport};
use crate::emit::object::segments::{
    are_placed, lemma_raw_grows, raw_of, symbol_views, DataSegmentOutput, PlacedSymbol,
    SourceSegment,
};
use crate::emit::object::{
    contains_symbol, DefinedFunction, ImportedFunction, ImportsOrDefined, InputObject, OutputFuncId,
    OutputGlobalId, SubModuleExtra,
};
use crate::index::TempIndex;
use crate::layouts::SegmentId;
use crate::linkage::reloc::AnyRelocationEntry;
use crate::typed::SymbolId;
use vstd::prelude::*;

verus! {

/// The entities of an output module. Only the indices of imports are final.
#[derive(Debug)]
pub struct ObjectBuilder {
    pub globals: ImportsOrDefined<GlobalImport, DefinedGlobal>,
    pub functions: ImportsOrDefined<ImportedFunction, DefinedFunction>,
    pub data: Vec<SourceSegment>,
}

/// What the layout of data segments depends on.
pub struct BuilderContextToBeRemoved<'any> {
    pub module_info: &'any InputObject,
    pub sub_module_extra: &'any Option<SubModuleExtra>,
    pub static_symbols: &'any Vec<SymbolId>,
}

impl<'any> BuilderContextToBeRemoved<'any> {
    fn is_main(&self) -> (r: bool)
        ensures
            r == (*self.sub_module_extra is None),
    {
        self.sub_module_extra.is_none()
    }

    /// The global that holds the base of the module in memory.
    pub open spec fn lib_base(&self) -> Option<OutputGlobalId> {
        match *self.sub_module_extra {
            Some(extra) => Some(extra.self_base.lib_base_id),
            None => None,
        }
    }

    fn lib_base_import(&self) -> (r: Option<OutputGlobalId>)
        ensures
            r == self.lib_base(),
    {
        match self.sub_module_extra {
            Some(extra) => Some(extra.self_base.lib_base_id),
            None => None,
        }
    }

    /// Whether the target of a relocation is relative to a base.
    pub open spec fn is_dynamic(&self, reloc: AnyRelocationEntry) -> bool {
        &&& *self.sub_module_extra is Some
        &&& match reloc {
            AnyRelocationEntry::Linkage(linkage) => !self.static_symbols@.contains(
                linkage.symbol_id,
            ),
            AnyRelocationEntry::Type(_) => true,
        }
    }
}

/// An output module with final indices and laid out segments.
#[derive(Debug)]
pub struct Object {
    pub globals: ImportsOrDefined<GlobalImport, DefinedGlobal>,
    pub functions: ImportsOrDefined<ImportedFunction, DefinedFunction>,
    pub data: Vec<DataSegmentOutput>,
    /// The relocations of each segment, relative to its start.
    pub data_relocations: Vec<Vec<DataModifyEntry>>,
}

/// Where segments end behind one another.
pub open spec fn segments_end(segments: Seq<SourceSegment>) -> int
    decreases segments.len(),
{
    if segments.len() == 0 {
        0
    } else {
        segments.last().start_behind(segments_end(segments.drop_last())) + raw_of(
            symbol_views(segments.last().symbols@),
        ).len()
    }
}

/// Whether a segment is laid out behind others.
pub open spec fn is_output(
    segments: Seq<SourceSegment>,
    k: int,
    mem_start: int,
    lib_base: Option<OutputGlobalId>,
    output: DataSegmentOutput,
) -> bool {
    &&& output.lib_base == lib_base
    &&& output.memory_offset == mem_start + segments[k].start_behind(
        segments_end(segments.take(k)),
    )
    &&& output.raw@ == raw_of(symbol_views(segments[k].symbols@))
    &&& are_placed(output.symbols@, symbol_views(segments[k].symbols@))
}

/// Whether all segments have representable places.
pub open spec fn segments_fit(segments: Seq<SourceSegment>, mem_start: int) -> bool {
    forall|k: int|
        0 <= k < segments.len() ==> (#[trigger] segments[k]).fits(
            mem_start,
            segments_end(segments.take(k)),
        )
}

/// Where the first segment is: in a module that is loaded later all are relative to a base.
pub open spec fn memory_start(segments: Seq<SourceSegment>, is_main: bool) -> int {
    if is_main {
        segments[0].memory_offset as int
    } else {
        0
    }
}

/// What is made of a relocation of a symbol that stands at an offset in its segment.
pub open spec fn placed_entry(
    context: BuilderContextToBeRemoved<'_>,
    segment: SegmentId,
    placed: PlacedSymbol,
    reloc: AnyRelocationEntry,
) -> Result<DataModifyEntry, FixupError> {
    data_modify_entry(
        reloc.at_offset((reloc.offset_spec() + placed.data_mem_offset) as u32),
        RelocationContext {
            dyn_base: context.is_dynamic(reloc),
            containing_symbol: Some(
                DataSymbolWithOffset {
                    storage_segment_id: segment,
                    storage_symbol_id: placed.symbol,
                    storage_offset_in_data: reloc.offset_spec(),
                },
            ),
        },
    )
}

/// What is made of the relocations of a symbol.
pub open spec fn symbol_entries(
    context: BuilderContextToBeRemoved<'_>,
    segment: SegmentId,
    placed: PlacedSymbol,
    relocs: Seq<AnyRelocationEntry>,
) -> Result<Seq<DataModifyEntry>, FixupError>
    decreases relocs.len(),
{
    if relocs.len() == 0 {
        Ok(Seq::empty())
    } else {
        match symbol_entries(context, segment, placed, relocs.drop_last()) {
            Err(error) => Err(error),
            Ok(entries) => match placed_entry(context, segment, placed, relocs.last()) {
                Err(error) => Err(error),
                Ok(entry) => Ok(entries.push(entry)),
            },
        }
    }
}

/// What is made of the relocations of symbols.
pub open spec fn segment_entries(
    context: BuilderContextToBeRemoved<'_>,
    segment: SegmentId,
    placed: Seq<PlacedSymbol>,
) -> Result<Seq<DataModifyEntry>, FixupError>
    decreases placed.len(),
{
    if placed.len() == 0 {
        Ok(Seq::empty())
    } else {
        match segment_entries(context, segment, placed.drop_last()) {
            Err(error) => Err(error),
            Ok(entries) => match symbol_entries(
                context,
                segment,
                placed.last(),
                context.module_info.symbols@[placed.last().symbol.id() as int].relocs@,
            ) {
                Err(error) => Err(error),
                Ok(own) => Ok(entries + own),
            },
        }
    }
}

/// Whether the relocations of a symbol can be moved behind the start of its segment.
pub open spec fn relocs_fit(relocs: Seq<AnyRelocationEntry>, offset: int) -> bool {
    forall|r: int|
        0 <= r < relocs.len() ==> (#[trigger] relocs[r]).offset_spec() + offset <= u32::MAX
}

/// Whether the symbols of segments are those of the input module, and their relocations can be
/// moved.
pub open spec fn symbols_fit(
    context: BuilderContextToBeRemoved<'_>,
    segments: Seq<SourceSegment>,
) -> bool {
    forall|k: int, i: int|
        #![trigger segments[k].symbols@[i]]
        0 <= k < segments.len() && 0 <= i < segments[k].symbols@.len() ==> {
            let symbol = segments[k].symbols@[i].symbol;
            &&& symbol.id() < context.module_info.symbols@.len()
            &&& relocs_fit(
                context.module_info.symbols@[symbol.id() as int].relocs@,
                raw_of(symbol_views(segments[k].symbols@)).len() as int,
            )
        }
}

proof fn lemma_entries_stop(
    context: BuilderContextToBeRemoved<'_>,
    segment: SegmentId,
    placed: PlacedSymbol,
    relocs: Seq<AnyRelocationEntry>,
    k: int,
)
    requires
        0 <= k <= relocs.len(),
        symbol_entries(context, segment, placed, relocs.take(k)) is Err,
    ensures
        symbol_entries(context, segment, placed, relocs) == symbol_entries(
            context,
            segment,
            placed,
            relocs.take(k),
        ),
    decreases relocs.len() - k,
{
    if k == relocs.len() {
        assert(relocs.take(k) =~= relocs);
    } else {
        assert(relocs.take(k + 1).drop_last() =~= relocs.take(k));
        lemma_entries_stop(context, segment, placed, relocs, k + 1);
    }
}

proof fn lemma_segment_stops(
    context: BuilderContextToBeRemoved<'_>,
    segment: SegmentId,
    placed: Seq<PlacedSymbol>,
    k: int,
)
    requires
        0 <= k <= placed.len(),
        segment_entries(context, segment, placed.take(k)) is Err,
    ensures
        segment_entries(context, segment, placed) == segment_entries(
            context,
            segment,
            placed.take(k),
        ),
    decreases placed.len() - k,
{
    if k == placed.len() {
        assert(placed.take(k) =~= placed);
    } else {
        assert(placed.take(k + 1).drop_last() =~= placed.take(k));
        lemma_segment_stops(context, segment, placed, k + 1);
    }
}

impl<'any> BuilderContextToBeRemoved<'any> {
    /// What is made of the relocations of a symbol.
    fn list_symbol_entries(&self, segment: SegmentId, placed: PlacedSymbol) -> (r: Result<
        Vec<DataModifyEntry>,
        FixupError,
    >)
        requires
            placed.symbol.id() < self.module_info.symbols@.len(),
            relocs_fit(
                self.module_info.symbols@[placed.symbol.id() as int].relocs@,
                placed.data_mem_offset as int,
            ),
        ensures
            match symbol_entries(
                *self,
                segment,
                placed,
                self.module_info.symbols@[placed.symbol.id() as int].relocs@,
            ) {
                Ok(entries) => r matches Ok(list) && list@ == entries,
                Err(error) => r matches Err(e) && e == error,
            },
    {
        let relocs = &self.module_info.symbols[placed.symbol.index()].relocs;
        let ghost all = relocs@;
        let mut list: Vec<DataModifyEntry> = Vec::new();
        let mut i: usize = 0;
        assert(all.take(0) =~= Seq::<AnyRelocationEntry>::empty());
        while i < relocs.len()
            invariant
                i <= all.len(),
                all == relocs@,
                all == self.module_info.symbols@[placed.symbol.id() as int].relocs@,
                relocs_fit(all, placed.data_mem_offset as int),
                symbol_entries(*self, segment, placed, all.take(i as int)) == Ok::<
                    Seq<DataModifyEntry>,
                    FixupError,
                >(list@),
            decreases all.len() - i,
        {
            let reloc = relocs[i];
            proof {
                assert(all.take(i + 1).drop_last() =~= all.take(i as int));
                assert(all.take(i + 1).last() == all[i as int]);
                assert(all[i as int].offset_spec() + placed.data_mem_offset <= u32::MAX);
            }
            let dyn_base = !self.is_main() && match reloc {
                AnyRelocationEntry::Linkage(linkage) => !contains_symbol(
                    self.static_symbols,
                    linkage.symbol_id,
                ),
                AnyRelocationEntry::Type(_) => true,
            };
            let context = RelocationContext {
                dyn_base,
                containing_symbol: Some(
                    DataSymbolWithOffset {
                        storage_segment_id: segment,
                        storage_symbol_id: placed.symbol,
                        storage_offset_in_data: reloc.offset(),
                    },
                ),
            };
            let mut moved = reloc;
            moved.set_offset(reloc.offset() + placed.data_mem_offset);
            match DataModifyEntry::from_data_entry(&moved, &context) {
                Ok(entry) => list.push(entry),
                Err(error) => {
                    proof {
                        lemma_entries_stop(*self, segment, placed, all, i + 1);
                    }
                    return Err(error);
                },
            }
            i = i + 1;
        }
        assert(all.take(i as int) =~= all);
        Ok(list)
    }

    /// What is made of the relocations of a segment.
    fn list_segment_entries(&self, segment: SegmentId, placed: &Vec<PlacedSymbol>) -> (r: Result<
        Vec<DataModifyEntry>,
        FixupError,
    >)
        requires
            forall|i: int|
                0 <= i < placed@.len() ==> {
                    let p = #[trigger] placed@[i];
                    &&& p.symbol.id() < self.module_info.symbols@.len()
                    &&& relocs_fit(
                        self.module_info.symbols@[p.symbol.id() as int].relocs@,
                        p.data_mem_offset as int,
                    )
                },
        ensures
            match segment_entries(*self, segment, placed@) {
                Ok(entries) => r matches Ok(list) && list@ == entries,
                Err(error) => r matches Err(e) && e == error,
            },
    {
        let ghost all = placed@;
        let mut list: Vec<DataModifyEntry> = Vec::new();
        let mut i: usize = 0;
        assert(all.take(0) =~= Seq::<PlacedSymbol>::empty());
        while i < placed.len()
            invariant
                i <= all.len(),
                all == placed@,
                forall|i: int|
                    0 <= i < placed@.len() ==> {
                        let p = #[trigger] placed@[i];
                        &&& p.symbol.id() < self.module_info.symbols@.len()
                        &&& relocs_fit(
                            self.module_info.symbols@[p.symbol.id() as int].relocs@,
                            p.data_mem_offset as int,
                        )
                    },
                segment_entries(*self, segment, all.take(i as int)) == Ok::<
                    Seq<DataModifyEntry>,
                    FixupError,
                >(list@),
            decreases all.len() - i,
        {
            proof {
                assert(all.take(i + 1).drop_last() =~= all.take(i as int));
                assert(all.take(i + 1).last() == all[i as int]);
                assert(placed@[i as int].symbol.id() < self.module_info.symbols@.len());
            }
            match self.list_symbol_entries(segment, placed[i]) {
                Ok(own) => {
                    let mut own = own;
                    list.append(&mut own);
                },
                Err(error) => {
                    proof {
                        lemma_segment_stops(*self, segment, all, i + 1);
                    }
                    return Err(error);
                },
            }
            i = i + 1;
        }
        assert(all.take(i as int) =~= all);
        Ok(list)
    }
}

/// The first segment whose relocations are not supported, and why.
pub open spec fn relocation_error(
    context: BuilderContextToBeRemoved<'_>,
    outputs: Seq<DataSegmentOutput>,
    k: int,
) -> Option<FixupError> {
    match segment_entries(context, SegmentId { id: k as u32 }, outputs[k].symbols@) {
        Err(error) => Some(error),
        Ok(_) => None,
    }
}

/// Whether a segment has a relocation that is not supported.
pub open spec fn has_bad_segment(
    segments: Seq<SourceSegment>,
    context: BuilderContextToBeRemoved<'_>,
    error: FixupError,
) -> bool {
    exists|outputs: Seq<DataSegmentOutput>, k: int|
        {
            &&& 0 <= k < segments.len() == outputs.len()
            &&& is_output(
                segments,
                k,
                memory_start(segments, *context.sub_module_extra is None),
                context.lib_base(),
                outputs[k],
            )
            &&& #[trigger] relocation_error(context, outputs, k) == Some(error)
        }
}

/// Whether an object is a locked builder.
pub open spec fn is_locked_object(
    before: ObjectBuilder,
    context: BuilderContextToBeRemoved<'_>,
    object: Object,
) -> bool {
    let segments = before.data@;
    let mem_start = memory_start(segments, *context.sub_module_extra is None);
    &&& object.globals == before.globals
    &&& object.functions == before.functions
    &&& object.data@.len() == segments.len()
    &&& forall|k: int|
        0 <= k < segments.len() ==> is_output(
            segments,
            k,
            mem_start,
            context.lib_base(),
            #[trigger] object.data@[k],
        )
    &&& object.data_relocations@.len() == segments.len()
    &&& forall|k: int|
        0 <= k < segments.len() ==> segment_entries(
            context,
            SegmentId { id: k as u32 },
            object.data@[k].symbols@,
        ) == Ok::<Seq<DataModifyEntry>, FixupError>((#[trigger] object.data_relocations@[k])@)
}

impl ObjectBuilder {
    pub fn new() -> (r: Self)
        ensures
            r.globals.imports@.len() == 0,
            r.globals.defined@.len() == 0,
            r.functions.imports@.len() == 0,
            r.functions.defined@.len() == 0,
            r.data@.len() == 0,
    {
        ObjectBuilder {
            globals: ImportsOrDefined::new(),
            functions: ImportsOrDefined::new(),
            data: Vec::new(),
        }
    }

    /// Adds a global that is imported from another module. Its index is final.
    pub fn add_imported_global(&mut self, global: GlobalImport) -> (r: OutputGlobalId)
        requires
            old(self).globals.imports@.len() < u32::MAX,
        ensures
            r.id == old(self).globals.imports@.len(),
            final(self).globals.imports@ == old(self).globals.imports@.push(global),
            final(self).globals.defined == old(self).globals.defined,
            final(self).functions == old(self).functions,
            final(self).data == old(self).data,
    {
        OutputGlobalId { id: self.globals.push_import(global) }
    }

    /// Adds a function that is imported from another module. Its index is final.
    pub fn add_imported_function(&mut self, func: ImportedFunction) -> (r: OutputFuncId)
        requires
            old(self).functions.imports@.len() < u32::MAX,
        ensures
            r.id == old(self).functions.imports@.len(),
            final(self).functions.imports@ == old(self).functions.imports@.push(func),
            final(self).functions.defined == old(self).functions.defined,
            final(self).globals == old(self).globals,
            final(self).data == old(self).data,
    {
        OutputFuncId { id: self.functions.push_import(func) }
    }

    /// Adds a function that the module defines.
    pub fn add_defined_function(&mut self, func: DefinedFunction)
        ensures
            final(self).functions.defined@ == old(self).functions.defined@.push(func),
            final(self).functions.imports == old(self).functions.imports,
            final(self).globals == old(self).globals,
            final(self).data == old(self).data,
    {
        self.functions.defined.push(func);
    }

    /// Adds a global that the module defines.
    pub fn add_defined_global(&mut self, global: DefinedGlobal)
        ensures
            final(self).globals.defined@ == old(self).globals.defined@.push(global),
            final(self).globals.imports == old(self).globals.imports,
            final(self).functions == old(self).functions,
            final(self).data == old(self).data,
    {
        self.globals.defined.push(global);
    }

    /// Adds a data segment.
    pub fn add_prebuilt_data_segment(&mut self, segment: SourceSegment)
        ensures
            final(self).data@ == old(self).data@.push(segment),
            final(self).globals == old(self).globals,
            final(self).functions == old(self).functions,
    {
        self.data.push(segment);
    }

    /// Whether the builder can be locked.
    pub open spec fn can_lock(&self, context: BuilderContextToBeRemoved<'_>) -> bool {
        let is_main = *context.sub_module_extra is None;
        &&& is_main ==> self.data@.len() > 0
        &&& self.data@.len() < u32::MAX
        &&& segments_fit(self.data@, memory_start(self.data@, is_main))
        &&& symbols_fit(context, self.data@)
    }

    /// Lays out the data segments behind one another.
    fn lay_out(&self, context: &BuilderContextToBeRemoved<'_>) -> (r: Vec<DataSegmentOutput>)
        requires
            self.can_lock(*context),
        ensures
            r@.len() == self.data@.len(),
            forall|k: int|
                0 <= k < r@.len() ==> is_output(
                    self.data@,
                    k,
                    memory_start(self.data@, *context.sub_module_extra is None),
                    context.lib_base(),
                    #[trigger] r@[k],
                ),
    {
        let ghost segments = self.data@;
        let ghost is_main = *context.sub_module_extra is None;
        let mem_start: u32 = if context.is_main() {
            self.data[0].memory_offset
        } else {
            0
        };
        let lib_base = context.lib_base_import();
        let mut outputs: Vec<DataSegmentOutput> = Vec::new();
        let mut end: u32 = 0;
        let mut k: usize = 0;
        assert(segments.take(0) =~= Seq::<SourceSegment>::empty());
        while k < self.data.len()
            invariant
                k <= segments.len(),
                segments == self.data@,
                segments_fit(segments, mem_start as int),
                mem_start == memory_start(segments, is_main),
                lib_base == context.lib_base(),
                end == segments_end(segments.take(k as int)),
                outputs@.len() == k,
                forall|j: int|
                    0 <= j < k ==> is_output(
                        segments,
                        j,
                        mem_start as int,
                        lib_base,
                        #[trigger] outputs@[j],
                    ),
            decreases segments.len() - k,
        {
            proof {
                assert(segments[k as int].fits(
                    mem_start as int,
                    segments_end(segments.take(k as int)),
                ));
                assert(segments.take(k + 1).drop_last() =~= segments.take(k as int));
                assert(segments.take(k + 1).last() == segments[k as int]);
            }
            let (start, output) = self.data[k].to_segment_output(lib_base, mem_start, end);
            end = start + output.raw.len() as u32;
            outputs.push(output);
            k = k + 1;
        }
        outputs
    }

    /// Lays out the data segments and makes all indices final. Fails for the first segment with a
    /// relocation that is not supported.
    pub fn lock(self, context: BuilderContextToBeRemoved<'_>) -> (r: Result<Object, FixupError>)
        requires
            self.can_lock(context),
        ensures
            match r {
                Ok(object) => is_locked_object(self, context, object),
                Err(error) => has_bad_segment(self.data@, context, error),
            },
    {
        let ghost segments = self.data@;
        let ghost is_main = *context.sub_module_extra is None;
        let outputs = self.lay_out(&context);
        let mut data_relocations: Vec<Vec<DataModifyEntry>> = Vec::new();
        let mut k: usize = 0;
        while k < outputs.len()
            invariant
                k <= outputs@.len() == segments.len(),
                segments == self.data@,
                is_main == *context.sub_module_extra is None,
                self.can_lock(context),
                forall|j: int|
                    0 <= j < outputs@.len() ==> is_output(
                        segments,
                        j,
                        memory_start(segments, is_main),
                        context.lib_base(),
                        #[trigger] outputs@[j],
                    ),
                data_relocations@.len() == k,
                forall|j: int|
                    0 <= j < k ==> segment_entries(
                        context,
                        SegmentId { id: j as u32 },
                        outputs@[j].symbols@,
                    ) == Ok::<Seq<DataModifyEntry>, FixupError>(
                        (#[trigger] data_relocations@[j])@,
                    ),
            decreases outputs@.len() - k,
        {
            let segment_id = SegmentId::new(k);
            assert(segment_id == SegmentId { id: k as u32 });
            proof {
                let views = symbol_views(segments[k as int].symbols@);
                assert(is_output(
                    segments,
                    k as int,
                    memory_start(segments, is_main),
                    context.lib_base(),
                    outputs@[k as int],
                ));
                assert forall|i: int| 0 <= i < outputs@[k as int].symbols@.len() implies {
                    let p = #[trigger] outputs@[k as int].symbols@[i];
                    &&& p.symbol.id() < context.module_info.symbols@.len()
                    &&& relocs_fit(
                        context.module_info.symbols@[p.symbol.id() as int].relocs@,
                        p.data_mem_offset as int,
                    )
                } by {
                    let symbol = segments[k as int].symbols@[i];
                    assert(views[i] == (symbol.symbol, symbol.pow2align, symbol.bytes@));
                    lemma_raw_grows(views, i);
                    let relocs = context.module_info.symbols@[symbol.symbol.id() as int].relocs@;
                    assert(relocs_fit(relocs, raw_of(views).len() as int));
                    assert forall|q: int| 0 <= q < relocs.len() implies (
                    #[trigger] relocs[q]).offset_spec() + outputs@[k as int].symbols@[i].data_mem_offset
                        <= u32::MAX by {
                        assert(relocs[q].offset_spec() + raw_of(views).len() <= u32::MAX);
                    }
                }
            }
            match context.list_segment_entries(segment_id, &outputs[k].symbols) {
                Ok(entries) => data_relocations.push(entries),
                Err(error) => {
                    assert(relocation_error(context, outputs@, k as int) == Some(error));
                    return Err(error);
                },
            }
            k = k + 1;
        }
        Ok(
            Object {
                globals: self.globals,
                functions: self.functions,
                data: outputs,
                data_relocations,
            },
        )
    }
}

} // verus!
