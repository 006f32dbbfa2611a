//! Collects the relocations of an output module.
use crate::emit::body_relocs::{
    copied_movable, copied_relocs, is_drained_copy, resolve_relocs_for_copied_body,
};
use crate::emit::relocation::resolver::OutputEntitiesResolver;
use crate::emit::relocation::EntityLocation;
use crate::index::{entries, lemma_insert_then_get, slot_at, GappedMap, ReservedValue, TempIndex};
use crate::layouts::data::sealed::{DataItemPlace, MemLayoutSealed};
use crate::layouts::data::DataSymbolRef;
use crate::linkage::file_db::{
    consecutive, lemma_entries_of_later_key, ranges_end, FileRelocs, RelocRange,
};
use crate::linkage::reloc::EntityRelocationEntry;
use crate::typed::body::EntityBody;
use crate::typed::entities::DefinedEntity;
use crate::typed::file_loader::{FileLoader, LoadedFile};
use crate::typed::module::{DefinedFunction, Module};
use crate::typed::{EntityKind, FunctionRef};
use core::ops::Range;
use vstd::prelude::*;

verus! {

/// The relocations that an entity of an input file has.
pub open spec fn file_relocs(files: Seq<LoadedFile>, src: EntityLocation) -> Seq<
    EntityRelocationEntry,
> {
    match files[src.file_id.id() as int].relocs.of_entity(src.entity) {
        Some(relocs) => relocs,
        None => Seq::empty(),
    }
}

/// The relocations of the body of an entity of the output module, relative to its start.
pub open spec fn body_relocs(
    module_info: OutputEntitiesResolver,
    files: Seq<LoadedFile>,
    entity: EntityKind,
    body: EntityBody,
) -> Seq<EntityRelocationEntry> {
    match body {
        EntityBody::New { new_relocs, .. } => new_relocs@,
        EntityBody::Copied(copied) => {
            let src = module_info.sources()[entity];
            copied_relocs(module_info.outputs(), src.file_id, file_relocs(files, src), copied)
        },
    }
}

/// Whether the relocations of the body of an entity can be found: a copied entity has a source,
/// and the targets of its relocations are known.
pub open spec fn body_ready(
    module_info: OutputEntitiesResolver,
    files: Seq<LoadedFile>,
    entity: EntityKind,
    body: EntityBody,
) -> bool {
    body matches EntityBody::Copied(copied) ==> {
        let src = module_info.sources()[entity];
        &&& module_info.sources().contains_key(entity)
        &&& src.file_id.id() < files.len()
        &&& files[src.file_id.id() as int].relocs.wf()
        &&& copied_movable(
            module_info.outputs(),
            src.file_id,
            file_relocs(files, src),
            copied,
        )
    }
}

/// Whether a body is another one without relocations.
pub open spec fn is_drained(before: EntityBody, after: EntityBody) -> bool {
    match (before, after) {
        (EntityBody::Copied(a), EntityBody::Copied(b)) => is_drained_copy(a, b),
        (
            EntityBody::New { new_bytes: a, .. },
            EntityBody::New { new_bytes: b, new_relocs },
        ) => b == a && new_relocs@.len() == 0,
        _ => false,
    }
}

/// Moves the relocations out of a body, and appends them.
fn take_body_relocs(
    module_info: &OutputEntitiesResolver,
    input_files: &FileLoader,
    entity: EntityKind,
    body: &mut EntityBody,
    relocs: &mut Vec<EntityRelocationEntry>,
)
    requires
        body_ready(*module_info, input_files@, entity, *old(body)),
    ensures
        final(relocs)@ == old(relocs)@ + body_relocs(
            *module_info,
            input_files@,
            entity,
            *old(body),
        ),
        is_drained(*old(body), *final(body)),
{
    match body {
        EntityBody::Copied(copied) => {
            let src = module_info.get_entity_src(entity).unwrap();
            let file = input_files.get_file(src.file_id);
            let empty: [EntityRelocationEntry; 0] = [];
            match file.relocs.get_entity_relocs(src.entity) {
                Some(original) => resolve_relocs_for_copied_body(
                    &src,
                    module_info,
                    original,
                    copied,
                    relocs,
                ),
                None => {
                    let original: &[EntityRelocationEntry] = empty.as_slice();
                    assert(original@ =~= Seq::<EntityRelocationEntry>::empty());
                    resolve_relocs_for_copied_body(&src, module_info, original, copied, relocs)
                },
            }
        },
        EntityBody::New { new_relocs, .. } => {
            relocs.append(new_relocs);
        },
    }
}

/// Whether a range of relocations is what an entity owns: none at all, if it has no relocations.
pub open spec fn owns(
    range: Option<RelocRange>,
    relocs: Seq<EntityRelocationEntry>,
    own: Seq<EntityRelocationEntry>,
) -> bool {
    if own.len() == 0 {
        range is None
    } else {
        range matches Some(range) && 0 <= range.bounds().0 <= range.bounds().1 <= relocs.len()
            && relocs.subrange(range.bounds().0, range.bounds().1) == own
    }
}

proof fn lemma_owns_later(
    range: Option<RelocRange>,
    relocs: Seq<EntityRelocationEntry>,
    more: Seq<EntityRelocationEntry>,
    own: Seq<EntityRelocationEntry>,
)
    requires
        owns(range, relocs, own),
    ensures
        owns(range, relocs + more, own),
{
    if let Some(range) = range {
        assert((relocs + more).subrange(range.bounds().0, range.bounds().1) =~= relocs.subrange(
            range.bounds().0,
            range.bounds().1,
        ));
    }
}

/// Says that an entity owns the relocations from `start` to `end`, if there are any.
fn push_owner<K: TempIndex>(
    owners: &mut GappedMap<K, RelocRange>,
    key: K,
    start: usize,
    end: usize,
    Ghost(from): Ghost<int>,
)
    requires
        old(owners).wf(),
        old(owners)@.len() <= key.id(),
        key.id() + 1 < u32::MAX,
        start <= end,
        consecutive(entries(old(owners)@), from, start as int),
    ensures
        final(owners).wf(),
        final(owners)@.len() <= key.id() + 1,
        consecutive(entries(final(owners)@), from, end as int),
        forall|k: nat|
            k != key.id() ==> #[trigger] slot_at(final(owners)@, k) == slot_at(old(owners)@, k),
        if start == end {
            slot_at(final(owners)@, key.id() as nat) is None
        } else {
            slot_at(final(owners)@, key.id() as nat) matches Some(range) && range.bounds() == (
                start as int,
                end as int,
            )
        },
{
    if start < end {
        let ghost before = owners@;
        let range = RelocRange::from_range(Range { start, end });
        let _ = owners.insert(key, range);
        proof {
            lemma_entries_of_later_key(before, key.id() as nat, range);
            assert forall|k: nat| k != key.id() implies #[trigger] slot_at(owners@, k) == slot_at(
                before,
                k,
            ) by {
                lemma_insert_then_get(before, key.id() as nat, range, k);
            }
            lemma_insert_then_get(before, key.id() as nat, range, key.id() as nat);
        }
    }
}

/// Whether every function owns its relocations.
pub open spec fn functions_own(
    module_info: OutputEntitiesResolver,
    files: Seq<LoadedFile>,
    functions: Seq<DefinedFunction>,
    first: int,
    owners: Seq<Option<RelocRange>>,
    relocs: Seq<EntityRelocationEntry>,
) -> bool {
    &&& forall|k: nat|
        k < first || k >= first + functions.len() ==> (#[trigger] slot_at(owners, k)) is None
    &&& forall|i: int|
        #![trigger functions[i]]
        0 <= i < functions.len() ==> owns(
            slot_at(owners, (first + i) as nat),
            relocs,
            body_relocs(
                module_info,
                files,
                EntityKind::Function(FunctionRef { id: (first + i) as u32 }),
                functions[i].body,
            ),
        )
}

/// Whether every data symbol with a number below `count` owns its relocations.
#[verifier::opaque]
pub open spec fn data_owns(
    module_info: OutputEntitiesResolver,
    files: Seq<LoadedFile>,
    layout: MemLayoutSealed,
    count: nat,
    owners: Seq<Option<RelocRange>>,
    relocs: Seq<EntityRelocationEntry>,
) -> bool {
    forall|k: nat|
        #![trigger slot_at(layout.defined@, k)]
        #![trigger slot_at(owners, k)]
        match slot_at(layout.defined@, k) {
            Some(place) => if k < count {
                owns(
                    slot_at(owners, k),
                    relocs,
                    body_relocs(
                        module_info,
                        files,
                        EntityKind::DataSymbol(DataSymbolRef { id: k as u32 }),
                        layout.chunk_at(place).body,
                    ),
                )
            } else {
                slot_at(owners, k) is None
            },
            None => slot_at(owners, k) is None,
        }
}

/// Whether the place of every data symbol holds this symbol.
pub open spec fn places_named(layout: MemLayoutSealed) -> bool {
    forall|k: nat|
        #![trigger slot_at(layout.defined@, k)]
        slot_at(layout.defined@, k) matches Some(place)
            ==> layout.segments@[place.segment_id.id() as int].parts@[place.part_id.id() as int].item_id
            == Some(DataSymbolRef { id: k as u32 })
}

/// Whether a function is another one without relocations.
pub open spec fn is_drained_entity<T>(before: DefinedEntity<T>, after: DefinedEntity<T>) -> bool {
    &&& after == (DefinedEntity { body: after.body, ..before })
    &&& is_drained(before.body, after.body)
}

/// Whether a layout is another one whose data symbols with numbers below `count` have lost their
/// relocations.
#[verifier::opaque]
pub open spec fn is_drained_layout(before: MemLayoutSealed, after: MemLayoutSealed, count: nat) -> bool {
    &&& after.external == before.external
    &&& after.defined == before.defined
    &&& after.segments@.len() == before.segments@.len()
    &&& forall|s: int|
        0 <= s < after.segments@.len() ==> {
            let a = #[trigger] after.segments@[s];
            let b = before.segments@[s];
            &&& a.name == b.name
            &&& a.pow2align == b.pow2align
            &&& a.va_address == b.va_address
            &&& a.file_offset == b.file_offset
            &&& a.parts@.len() == b.parts@.len()
        }
    &&& forall|s: int, p: int|
        #![trigger after.segments@[s].parts@[p]]
        0 <= s < after.segments@.len() && 0 <= p < after.segments@[s].parts@.len() ==> {
            let a = after.segments@[s].parts@[p];
            let b = before.segments@[s].parts@[p];
            a == b || a.item_id == b.item_id && is_drained_entity(
                b.defined_entity,
                a.defined_entity,
            )
        }
    &&& forall|k: nat|
        #![trigger slot_at(before.defined@, k)]
        slot_at(before.defined@, k) matches Some(place) ==> if k < count {
            is_drained_entity(before.chunk_at(place), after.chunk_at(place))
        } else {
            after.chunk_at(place) == before.chunk_at(place)
        }
}

/// A layout without relocations in its bodies is well formed.
pub proof fn lemma_drained_wf(before: MemLayoutSealed, after: MemLayoutSealed, count: nat)
    requires
        before.wf(),
        is_drained_layout(before, after, count),
    ensures
        after.wf(),
{
    reveal(is_drained_layout);
    assert forall|key: nat| (#[trigger] slot_at(after.defined@, key)) matches Some(place) ==> {
        &&& place.segment_id.id() < after.segments@.len()
        &&& place.part_id.id() < after.segments@[place.segment_id.id() as int].parts@.len()
    } by {
        let place = slot_at(before.defined@, key)->0;
        let segment = after.segments@[place.segment_id.id() as int];
    }
}

/// Whether the relocations of all data symbols can be found.
pub open spec fn layout_ready(
    module_info: OutputEntitiesResolver,
    files: Seq<LoadedFile>,
    layout: MemLayoutSealed,
) -> bool {
    &&& layout.wf()
    &&& places_named(layout)
    &&& forall|k: nat|
        #![trigger slot_at(layout.defined@, k)]
        slot_at(layout.defined@, k) matches Some(place) ==> body_ready(
            module_info,
            files,
            EntityKind::DataSymbol(DataSymbolRef { id: k as u32 }),
            layout.chunk_at(place).body,
        )
}

/// Whether the relocations of all bodies of a module can be found.
pub open spec fn module_ready(
    module_info: OutputEntitiesResolver,
    files: Seq<LoadedFile>,
    module: Module,
) -> bool {
    let functions = module.functions@;
    &&& functions.imports.len() + functions.defined.len() + 1 < u32::MAX
    &&& forall|i: int|
        #![trigger functions.defined[i]]
        0 <= i < functions.defined.len() ==> body_ready(
            module_info,
            files,
            EntityKind::Function(FunctionRef { id: (functions.imports.len() + i) as u32 }),
            functions.defined[i].body,
        )
    &&& layout_ready(module_info, files, module.extra.mem_layout)
}

impl Module {
    /// Moves the relocations of the functions out of their bodies.
    fn take_function_relocs(
        &mut self,
        module_info: &OutputEntitiesResolver,
        input_files: &FileLoader,
        relocs: &mut Vec<EntityRelocationEntry>,
    ) -> (r: GappedMap<FunctionRef, RelocRange>)
        requires
            module_ready(*module_info, input_files@, *old(self)),
            old(relocs)@.len() == 0,
        ensures
            final(self).globals == old(self).globals,
            final(self).tables == old(self).tables,
            final(self).memories == old(self).memories,
            final(self).tags == old(self).tags,
            final(self).extra == old(self).extra,
            final(self).functions@.imports == old(self).functions@.imports,
            final(self).functions@.external == old(self).functions@.external,
            final(self).functions@.defined.len() == old(self).functions@.defined.len(),
            forall|i: int|
                0 <= i < old(self).functions@.defined.len() ==> is_drained_entity(
                    old(self).functions@.defined[i],
                    #[trigger] final(self).functions@.defined[i],
                ),
            r.wf(),
            consecutive(entries(r@), 0, final(relocs)@.len() as int),
            functions_own(
                *module_info,
                input_files@,
                old(self).functions@.defined,
                old(self).functions@.imports.len() as int,
                r@,
                final(relocs)@,
            ),
    {
        let ghost before = *self;
        let ghost files = input_files@;
        let ghost all = self.functions@.defined;
        let ghost first = self.functions@.imports.len();
        let num_imports: usize = self.functions.imports().len();
        let mut owners: GappedMap<FunctionRef, RelocRange> = GappedMap::new();
        let mut i: usize = 0;
        while i < self.functions.defined().len()
            invariant
                i <= all.len(),
                all == before.functions@.defined,
                first == before.functions@.imports.len(),
                num_imports == first,
                files == input_files@,
                module_ready(*module_info, files, before),
                self.globals == before.globals,
                self.tables == before.tables,
                self.memories == before.memories,
                self.tags == before.tags,
                self.extra == before.extra,
                self.functions@.imports == before.functions@.imports,
                self.functions@.external == before.functions@.external,
                self.functions@.defined.len() == all.len(),
                forall|j: int|
                    0 <= j < i ==> is_drained_entity(
                        all[j],
                        #[trigger] self.functions@.defined[j],
                    ),
                forall|j: int|
                    i <= j < all.len() ==> #[trigger] self.functions@.defined[j] == all[j],
                owners.wf(),
                owners@.len() <= first + i,
                consecutive(entries(owners@), 0, relocs@.len() as int),
                functions_own(
                    *module_info,
                    files,
                    all.take(i as int),
                    first as int,
                    owners@,
                    relocs@,
                ),
            decreases all.len() - i,
        {
            let start: usize = relocs.len();
            let ghost old_relocs = relocs@;
            let ghost old_owners = owners@;
            let id = FunctionRef::new(num_imports + i);
            let entity = EntityKind::Function(id);
            assert(self.functions@.defined[i as int] == all[i as int]);
            assert(id == FunctionRef { id: (first + i) as u32 });
            let function = self.functions.defined_mut(i);
            take_body_relocs(module_info, input_files, entity, &mut function.body, relocs);
            let end: usize = relocs.len();
            push_owner(&mut owners, id, start, end, Ghost(0));
            let ghost own = body_relocs(*module_info, files, entity, all[i as int].body);
            proof {
                assert(relocs@ == old_relocs + own);
                assert(relocs@.subrange(start as int, end as int) =~= own);
                let longer = all.take(i + 1);
                assert forall|j: int|
                    #![trigger longer[j]]
                    0 <= j < longer.len() implies owns(
                    slot_at(owners@, (first + j) as nat),
                    relocs@,
                    body_relocs(
                        *module_info,
                        files,
                        EntityKind::Function(FunctionRef { id: (first + j) as u32 }),
                        longer[j].body,
                    ),
                ) by {
                    if j < i {
                        assert(all.take(i as int)[j] == all[j]);
                        lemma_owns_later(
                            slot_at(old_owners, (first + j) as nat),
                            old_relocs,
                            own,
                            body_relocs(
                                *module_info,
                                files,
                                EntityKind::Function(FunctionRef { id: (first + j) as u32 }),
                                all[j].body,
                            ),
                        );
                        assert(slot_at(owners@, (first + j) as nat) == slot_at(
                            old_owners,
                            (first + j) as nat,
                        ));
                    }
                }
                assert forall|k: nat| k < first || k >= first + longer.len() implies (
                #[trigger] slot_at(owners@, k)) is None by {
                    assert(slot_at(owners@, k) == slot_at(old_owners, k));
                }
            }
            i = i + 1;
        }
        assert(all.take(i as int) =~= all);
        owners
    }

    /// Moves the relocations of the data symbols out of their bodies.
    fn take_data_relocs(
        &mut self,
        module_info: &OutputEntitiesResolver,
        input_files: &FileLoader,
        relocs: &mut Vec<EntityRelocationEntry>,
    ) -> (r: GappedMap<DataSymbolRef, RelocRange>)
        requires
            layout_ready(*module_info, input_files@, old(self).extra.mem_layout),
        ensures
            final(self).functions == old(self).functions,
            final(self).globals == old(self).globals,
            final(self).tables == old(self).tables,
            final(self).memories == old(self).memories,
            final(self).tags == old(self).tags,
            final(self).extra.function_elements == old(self).extra.function_elements,
            final(self).extra.start_function == old(self).extra.start_function,
            is_drained_layout(
                old(self).extra.mem_layout,
                final(self).extra.mem_layout,
                old(self).extra.mem_layout.defined@.len(),
            ),
            r.wf(),
            old(relocs)@.len() <= final(relocs)@.len(),
            final(relocs)@.take(old(relocs)@.len() as int) == old(relocs)@,
            consecutive(entries(r@), old(relocs)@.len() as int, final(relocs)@.len() as int),
            data_owns(
                *module_info,
                input_files@,
                old(self).extra.mem_layout,
                old(self).extra.mem_layout.defined@.len(),
                r@,
                final(relocs)@,
            ),
    {
        let ghost before = *self;
        let ghost layout = self.extra.mem_layout;
        let ghost files = input_files@;
        let ghost code = relocs@;
        let mut owners: GappedMap<DataSymbolRef, RelocRange> = GappedMap::new();
        let end_key: u32 = self.extra.mem_layout.defined.next_key().as_u32();
        let mut k: u32 = 0;
        proof {
            self.extra.mem_layout.defined.lemma_len();
            assert(end_key <= layout.defined@.len()) by {
                if end_key > 0 {
                    assert(slot_at(layout.defined@, (end_key - 1) as nat) is Some);
                }
            }
            assert(relocs@.take(code.len() as int) =~= code);
            lemma_nothing_taken(*module_info, files, layout, owners@, relocs@);
        }
        while k < end_key
            invariant
                k <= end_key <= layout.defined@.len(),
                layout == before.extra.mem_layout,
                layout_ready(*module_info, files, layout),
                files == input_files@,
                self.functions == before.functions,
                self.globals == before.globals,
                self.tables == before.tables,
                self.memories == before.memories,
                self.tags == before.tags,
                self.extra.function_elements == before.extra.function_elements,
                self.extra.start_function == before.extra.start_function,
                is_drained_layout(layout, self.extra.mem_layout, k as nat),
                owners.wf(),
                owners@.len() <= k,
                code.len() <= relocs@.len(),
                relocs@.take(code.len() as int) == code,
                consecutive(entries(owners@), code.len() as int, relocs@.len() as int),
                data_owns(*module_info, files, layout, k as nat, owners@, relocs@),
            decreases end_key - k,
        {
            let key = DataSymbolRef::from_u32(k);
            let ghost old_relocs = relocs@;
            let ghost old_owners = owners@;
            let ghost old_layout = self.extra.mem_layout;
            proof {
                layout.defined.lemma_len();
                lemma_next_symbol(layout, old_layout, k as nat);
            }
            let place = match self.extra.mem_layout.defined.get(key) {
                Some(place) => Some(*place),
                None => None,
            };
            if let Some(place) = place {
                let start: usize = relocs.len();
                let entity = EntityKind::DataSymbol(key);
                assert(body_ready(*module_info, files, entity, layout.chunk_at(place).body));
                let chunk = self.extra.mem_layout.chunk_mut(&place);
                take_body_relocs(module_info, input_files, entity, &mut chunk.body, relocs);
                let end: usize = relocs.len();
                push_owner(&mut owners, key, start, end, Ghost(code.len() as int));
                proof {
                    let own = body_relocs(*module_info, files, entity, layout.chunk_at(place).body);
                    assert(relocs@ == old_relocs + own);
                    assert(relocs@.subrange(start as int, end as int) =~= own);
                    lemma_data_step(
                        *module_info,
                        files,
                        layout,
                        k as nat,
                        old_owners,
                        owners@,
                        old_relocs,
                        own,
                    );
                    lemma_layout_step(layout, old_layout, self.extra.mem_layout, k as nat, place);
                    assert(relocs@.take(code.len() as int) =~= old_relocs.take(code.len() as int));
                }
            } else {
                proof {
                    lemma_no_symbol(
                        *module_info,
                        files,
                        layout,
                        self.extra.mem_layout,
                        k as nat,
                        k as nat + 1,
                        owners@,
                        relocs@,
                    );
                }
            }
            k = k + 1;
        }
        proof {
            lemma_no_symbol(
                *module_info,
                files,
                layout,
                self.extra.mem_layout,
                end_key as nat,
                layout.defined@.len(),
                owners@,
                relocs@,
            );
        }
        owners
    }
}

/// At first no data symbol has lost its relocations.
proof fn lemma_nothing_taken(
    module_info: OutputEntitiesResolver,
    files: Seq<LoadedFile>,
    layout: MemLayoutSealed,
    owners: Seq<Option<RelocRange>>,
    relocs: Seq<EntityRelocationEntry>,
)
    requires
        owners.len() == 0,
    ensures
        is_drained_layout(layout, layout, 0),
        data_owns(module_info, files, layout, 0, owners, relocs),
{
    reveal(is_drained_layout);
    reveal(data_owns);
}

/// The next data symbol is as it was.
proof fn lemma_next_symbol(layout: MemLayoutSealed, current: MemLayoutSealed, k: nat)
    requires
        layout.wf(),
        is_drained_layout(layout, current, k),
    ensures
        current.defined == layout.defined,
        current.segments@.len() == layout.segments@.len(),
        slot_at(layout.defined@, k) matches Some(place) ==> {
            &&& place.segment_id.id() < current.segments@.len()
            &&& place.part_id.id() < current.segments@[place.segment_id.id() as int].parts@.len()
            &&& current.chunk_at(place) == layout.chunk_at(place)
        },
{
    reveal(is_drained_layout);
    if let Some(place) = slot_at(layout.defined@, k) {
        assert(current.segments@[place.segment_id.id() as int].parts@.len()
            == layout.segments@[place.segment_id.id() as int].parts@.len());
    }
}

/// Numbers without a data symbol change nothing.
proof fn lemma_no_symbol(
    module_info: OutputEntitiesResolver,
    files: Seq<LoadedFile>,
    layout: MemLayoutSealed,
    current: MemLayoutSealed,
    from: nat,
    to: nat,
    owners: Seq<Option<RelocRange>>,
    relocs: Seq<EntityRelocationEntry>,
)
    requires
        from <= to,
        forall|j: nat| from <= j < to ==> #[trigger] slot_at(layout.defined@, j) is None,
        is_drained_layout(layout, current, from),
        data_owns(module_info, files, layout, from, owners, relocs),
    ensures
        is_drained_layout(layout, current, to),
        data_owns(module_info, files, layout, to, owners, relocs),
{
    reveal(is_drained_layout);
    reveal(data_owns);
    assert forall|j: nat|
        #![trigger slot_at(layout.defined@, j)]
        #![trigger slot_at(owners, j)]
        match slot_at(layout.defined@, j) {
            Some(place) => if j < to {
                owns(
                    slot_at(owners, j),
                    relocs,
                    body_relocs(
                        module_info,
                        files,
                        EntityKind::DataSymbol(DataSymbolRef { id: j as u32 }),
                        layout.chunk_at(place).body,
                    ),
                )
            } else {
                slot_at(owners, j) is None
            },
            None => slot_at(owners, j) is None,
        } by {
    }
}

proof fn lemma_data_step(
    module_info: OutputEntitiesResolver,
    files: Seq<LoadedFile>,
    layout: MemLayoutSealed,
    k: nat,
    old_owners: Seq<Option<RelocRange>>,
    owners: Seq<Option<RelocRange>>,
    old_relocs: Seq<EntityRelocationEntry>,
    own: Seq<EntityRelocationEntry>,
)
    requires
        slot_at(layout.defined@, k) matches Some(place) && own == body_relocs(
            module_info,
            files,
            EntityKind::DataSymbol(DataSymbolRef { id: k as u32 }),
            layout.chunk_at(place).body,
        ),
        data_owns(module_info, files, layout, k, old_owners, old_relocs),
        forall|j: nat| j != k ==> #[trigger] slot_at(owners, j) == slot_at(old_owners, j),
        owns(slot_at(owners, k), old_relocs + own, own),
    ensures
        data_owns(module_info, files, layout, k + 1, owners, old_relocs + own),
{
    reveal(data_owns);
    let relocs = old_relocs + own;
    assert forall|j: nat|
        #![trigger slot_at(layout.defined@, j)]
        #![trigger slot_at(owners, j)]
        match slot_at(layout.defined@, j) {
            Some(place) => if j < k + 1 {
                owns(
                    slot_at(owners, j),
                    relocs,
                    body_relocs(
                        module_info,
                        files,
                        EntityKind::DataSymbol(DataSymbolRef { id: j as u32 }),
                        layout.chunk_at(place).body,
                    ),
                )
            } else {
                slot_at(owners, j) is None
            },
            None => slot_at(owners, j) is None,
        } by {
        if j != k {
            assert(slot_at(owners, j) == slot_at(old_owners, j));
            if let Some(place) = slot_at(layout.defined@, j) {
                if j < k {
                    lemma_owns_later(
                        slot_at(old_owners, j),
                        old_relocs,
                        own,
                        body_relocs(
                            module_info,
                            files,
                            EntityKind::DataSymbol(DataSymbolRef { id: j as u32 }),
                            layout.chunk_at(place).body,
                        ),
                    );
                }
            }
        }
    }
}

proof fn lemma_layout_step(
    layout: MemLayoutSealed,
    before: MemLayoutSealed,
    after: MemLayoutSealed,
    k: nat,
    place: DataItemPlace,
)
    requires
        layout.wf(),
        places_named(layout),
        slot_at(layout.defined@, k) == Some(place),
        is_drained_layout(layout, before, k),
        before.same_but(&after, place),
        is_drained_entity(before.chunk_at(place), after.chunk_at(place)),
    ensures
        is_drained_layout(layout, after, k + 1),
{
    reveal(is_drained_layout);
    let s0 = place.segment_id.id() as int;
    let p0 = place.part_id.id() as int;
    assert forall|s: int| 0 <= s < after.segments@.len() implies {
        let a = #[trigger] after.segments@[s];
        let b = layout.segments@[s];
        &&& a.name == b.name
        &&& a.pow2align == b.pow2align
        &&& a.va_address == b.va_address
        &&& a.file_offset == b.file_offset
        &&& a.parts@.len() == b.parts@.len()
    } by {
        assert(before.segments@[s].parts@.len() == layout.segments@[s].parts@.len());
    }
    assert forall|s: int, p: int|
        #![trigger after.segments@[s].parts@[p]]
        0 <= s < after.segments@.len() && 0 <= p < after.segments@[s].parts@.len() implies {
        let a = after.segments@[s].parts@[p];
        let b = layout.segments@[s].parts@[p];
        a == b || a.item_id == b.item_id && is_drained_entity(b.defined_entity, a.defined_entity)
    } by {
        assert(before.segments@[s].parts@.len() == layout.segments@[s].parts@.len());
        let old_part = before.segments@[s].parts@[p];
        if s == s0 && p == p0 {
            assert(before.chunk_at(place) == layout.chunk_at(place));
        }
    }
    assert forall|j: nat|
        #![trigger slot_at(layout.defined@, j)]
        slot_at(layout.defined@, j) is Some implies {
        let other = slot_at(layout.defined@, j)->0;
        if j < k + 1 {
            is_drained_entity(layout.chunk_at(other), after.chunk_at(other))
        } else {
            after.chunk_at(other) == layout.chunk_at(other)
        }
    } by {
        let other = slot_at(layout.defined@, j)->0;
        if j != k {
            assert(before.segments@[other.segment_id.id() as int].parts@.len()
                == layout.segments@[other.segment_id.id() as int].parts@.len());
            layout.defined.lemma_len();
            assert(slot_at(layout.defined@, k) == Some(place));
            assert(other.segment_id.id() != place.segment_id.id() || other.part_id.id()
                != place.part_id.id());
            assert(after.chunk_at(other) == before.chunk_at(other));
        }
    }
}

impl Module {
    /// Collects the relocations of all bodies: those of the functions, and then those of the data
    /// symbols. Their targets are entities of the output module, and their offsets are relative to
    /// the starts of the bodies. Afterwards the bodies hold no relocations any more. Other entities
    /// have none.
    pub fn copy_and_resolve_relocs(
        &mut self,
        module_info: &OutputEntitiesResolver,
        input_files: &FileLoader,
    ) -> (r: FileRelocs)
        requires
            module_ready(*module_info, input_files@, *old(self)),
        ensures
            r.wf(),
            functions_own(
                *module_info,
                input_files@,
                old(self).functions@.defined,
                old(self).functions@.imports.len() as int,
                r.code(),
                r.all(),
            ),
            data_owns(
                *module_info,
                input_files@,
                old(self).extra.mem_layout,
                old(self).extra.mem_layout.defined@.len(),
                r.data(),
                r.all(),
            ),
            final(self).globals == old(self).globals,
            final(self).tables == old(self).tables,
            final(self).memories == old(self).memories,
            final(self).tags == old(self).tags,
            final(self).extra.function_elements == old(self).extra.function_elements,
            final(self).extra.start_function == old(self).extra.start_function,
            final(self).functions@.imports == old(self).functions@.imports,
            final(self).functions@.external == old(self).functions@.external,
            final(self).functions@.defined.len() == old(self).functions@.defined.len(),
            forall|i: int|
                0 <= i < old(self).functions@.defined.len() ==> is_drained_entity(
                    old(self).functions@.defined[i],
                    #[trigger] final(self).functions@.defined[i],
                ),
            is_drained_layout(
                old(self).extra.mem_layout,
                final(self).extra.mem_layout,
                old(self).extra.mem_layout.defined@.len(),
            ),
    {
        let mut relocs: Vec<EntityRelocationEntry> = Vec::new();
        let code_owners = self.take_function_relocs(module_info, input_files, &mut relocs);
        let ghost code = relocs@;
        let data_owners = self.take_data_relocs(module_info, input_files, &mut relocs);
        proof {
            assert(ranges_end(entries(code_owners@)) == code.len());
            let all = old(self).functions@.defined;
            let first = old(self).functions@.imports.len() as int;
            assert(relocs@ =~= code + relocs@.skip(code.len() as int));
            assert forall|i: int|
                #![trigger all[i]]
                0 <= i < all.len() implies owns(
                slot_at(code_owners@, (first + i) as nat),
                relocs@,
                body_relocs(
                    *module_info,
                    input_files@,
                    EntityKind::Function(FunctionRef { id: (first + i) as u32 }),
                    all[i].body,
                ),
            ) by {
                lemma_owns_later(
                    slot_at(code_owners@, (first + i) as nat),
                    code,
                    relocs@.skip(code.len() as int),
                    body_relocs(
                        *module_info,
                        input_files@,
                        EntityKind::Function(FunctionRef { id: (first + i) as u32 }),
                        all[i].body,
                    ),
                );
            }
        }
        FileRelocs::build_from_parts(relocs, code_owners, data_owners)
    }
}

} // verus!
