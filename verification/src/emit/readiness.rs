//! Tells whether the relocations of all bodies of a module can be found.
use crate::emit::body_relocs::{
    add_fixup, can_shift, copied_movable, fixup_edit, fixup_edits, fixup_movable, has_target,
    is_movable_at, is_small, kept_movable, lemma_edits_prefix, lemma_valid_edits_prefix,
};
use crate::emit::copy_relocs::{body_ready, layout_ready, module_ready};
use crate::emit::modify::{OutputEntityRef, Rewrite};
use crate::emit::relocation::resolver::OutputEntitiesResolver;
use crate::emit::relocation::EntityLocation;
use crate::helpers::{total_shift, valid_edits, ShiftMap};
use crate::index::{slot_at, TempIndex};
use crate::layouts::data::sealed::MemLayoutSealed;
use crate::layouts::data::DataSymbolRef;
use crate::linkage::reloc::EntityRelocationEntry;
use crate::typed::body::{bits_of, bitset_contains, EntityBody, EntityBodyCopy};
use crate::typed::file_loader::{FileLoader, LoadedFile};
use crate::typed::module::Module;
use crate::typed::{EntityKind, FunctionRef};
use vstd::prelude::*;

verus! {

/// Whether an edit can come behind others.
pub open spec fn can_follow(edits: Seq<(int, int)>, edit: (int, int)) -> bool {
    &&& edits.len() > 0 ==> edits.last().0 < edit.0 && edits.last().0 - edits.last().1 <= edit.0
    &&& i32::MIN < edit.1 <= i32::MAX
    &&& i32::MIN <= total_shift(edits) + edit.1 <= i32::MAX
}

proof fn lemma_valid_push(edits: Seq<(int, int)>, edit: (int, int))
    requires
        valid_edits(edits),
    ensures
        valid_edits(edits.push(edit)) == can_follow(edits, edit),
{
    let longer = edits.push(edit);
    let n = edits.len() as int;
    assert(longer.drop_last() =~= edits);
    assert(longer.take(n + 1) =~= longer);
    assert(longer[n] == edit);
    if valid_edits(longer) {
        assert(longer[n].1 <= i32::MAX);
        assert(total_shift(longer.take(n + 1)) <= i32::MAX);
        if n > 0 {
            assert(longer[n - 1].0 < longer[n].0);
        }
    }
    if can_follow(edits, edit) {
        assert forall|i: int, j: int|
            #![trigger longer[i], longer[j]]
            0 <= i < j < longer.len() implies longer[i].0 < longer[j].0 && longer[i].0 - longer[i].1
            <= longer[j].0 by {
            if j < n {
                assert(edits[i].0 < edits[j].0);
            } else if i < n - 1 {
                assert(edits[i].0 < edits[n - 1].0);
            }
        }
        assert forall|i: int| 0 <= i < longer.len() implies i32::MIN < (#[trigger] longer[i]).1
            <= i32::MAX by {
            if i < n {
                assert(edits[i].1 <= i32::MAX);
            }
        }
        assert forall|i: int| 0 <= i <= longer.len() implies i32::MIN <= #[trigger] total_shift(
            longer.take(i),
        ) <= i32::MAX by {
            if i <= n {
                assert(longer.take(i) =~= edits.take(i));
                assert(total_shift(edits.take(i)) <= i32::MAX);
            }
        }
    }
}

/// Whether rewrites are representable, and what they move can be told apart.
fn fixups_are_valid(fixups: &Vec<Rewrite>) -> (r: bool)
    ensures
        r == (valid_edits(fixup_edits(fixups@)) && forall|i: int|
            0 <= i < fixups@.len() ==> is_small(#[trigger] fixups@[i])),
{
    let ghost all = fixups@;
    let mut last: Option<(i128, i128)> = None;
    let mut total: i128 = 0;
    let mut i: usize = 0;
    assert(all.take(0) =~= Seq::<Rewrite>::empty());
    while i < fixups.len()
        invariant
            i <= all.len(),
            all == fixups@,
            forall|j: int| 0 <= j < i ==> is_small(#[trigger] all[j]),
            valid_edits(fixup_edits(all.take(i as int))),
            total == total_shift(fixup_edits(all.take(i as int))),
            match last {
                Some((at, shift)) => 0 <= at <= u32::MAX && i32::MIN < shift <= i32::MAX
                    && fixup_edits(all.take(i as int)).len() > 0 && fixup_edits(
                    all.take(i as int),
                ).last() == (at as int, shift as int),
                None => fixup_edits(all.take(i as int)).len() == 0,
            },
        decreases all.len() - i,
    {
        let fixup = &fixups[i];
        let start: usize = fixup.old_range.start;
        let end: usize = fixup.old_range.end;
        let ghost edits = fixup_edits(all.take(i as int));
        proof {
            assert(all.take(i + 1).drop_last() =~= all.take(i as int));
            assert(all.take(i + 1).last() == all[i as int]);
            assert(edits.take(edits.len() as int) =~= edits);
            assert(total_shift(edits.take(edits.len() as int)) <= i32::MAX);
        }
        if start > end || end > u32::MAX as usize {
            assert(!is_small(all[i as int]));
            return false;
        }
        let growth: i128 = fixup.new_bytes.len() as i128 - (end - start) as i128;
        assert(growth == all[i as int].growth());
        if growth <= i32::MIN as i128 || growth > i32::MAX as i128 {
            assert(!is_small(all[i as int]));
            return false;
        }
        if growth != 0 {
            let at: i128 = if growth > 0 {
                end as i128
            } else {
                start as i128 + fixup.new_bytes.len() as i128
            };
            let ghost edit = (at as int, growth as int);
            proof {
                assert(fixup_edit(all[i as int]) == Some(edit));
                assert(fixup_edits(all.take(i + 1)) == edits.push(edit));
                lemma_valid_push(edits, edit);
                assert(edits.push(edit).drop_last() =~= edits);
            }
            let follows = match last {
                Some((last_at, last_shift)) => last_at < at && last_at - last_shift <= at,
                None => true,
            };
            if !follows || total + growth < i32::MIN as i128 || total + growth > i32::MAX as i128 {
                proof {
                    assert(!valid_edits(fixup_edits(all.take(i + 1))));
                    lemma_edits_prefix(all, i + 1);
                    if valid_edits(fixup_edits(all)) {
                        lemma_valid_edits_prefix(
                            fixup_edits(all),
                            fixup_edits(all.take(i + 1)).len() as int,
                        );
                    }
                }
                return false;
            }
            total = total + growth;
            last = Some((at, growth));
        }
        i = i + 1;
    }
    assert(all.take(i as int) =~= all);
    true
}

/// Whether an offset is kept, and stays representable.
fn is_kept(shift_map: &ShiftMap<u32>, offset: i128) -> (r: bool)
    requires
        shift_map.wf(),
    ensures
        r == can_shift(shift_map@, offset as int),
{
    if offset < 0 || offset > u32::MAX as i128 {
        return false;
    }
    match shift_map.get_shift_raw(offset as u32) {
        Some(shift) => offset + shift as i128 <= u32::MAX as i128,
        None => false,
    }
}

/// Whether the entity of the output module that stands for an entity of an input file is known.
fn is_known(module_info: &OutputEntitiesResolver, src: &EntityLocation, entity: EntityKind) -> (r: bool)
    ensures
        r == has_target(module_info.outputs(), src.file_id, entity),
{
    match entity {
        EntityKind::Type(_) => true,
        _ => module_info.get_output_entity(&src.other_entity(entity)).is_some(),
    }
}

/// Whether the relocations of the new bytes of a rewrite can be moved.
fn fixup_is_movable(
    module_info: &OutputEntitiesResolver,
    src: &EntityLocation,
    shift_map: &ShiftMap<u32>,
    fixup: &Rewrite,
) -> (r: bool)
    requires
        shift_map.wf(),
    ensures
        r == fixup_movable(
            module_info.outputs(),
            src.file_id,
            shift_map@,
            fixup.old_range.start as int,
            fixup.new_relocs@,
        ),
{
    let ghost all = fixup.new_relocs@;
    let ghost start = fixup.old_range.start as int;
    let ghost outputs = module_info.outputs();
    let mut j: usize = 0;
    while j < fixup.new_relocs.len()
        invariant
            j <= all.len(),
            all == fixup.new_relocs@,
            start == fixup.old_range.start,
            outputs == module_info.outputs(),
            shift_map.wf(),
            forall|k: int|
                0 <= k < j ==> {
                    let reloc = #[trigger] all[k];
                    &&& can_shift(shift_map@, start + reloc.offset)
                    &&& reloc.symbol_id matches OutputEntityRef::FromInput(entity) ==> has_target(
                        outputs,
                        src.file_id,
                        entity,
                    )
                },
        decreases all.len() - j,
    {
        let reloc = fixup.new_relocs[j];
        let known = match reloc.symbol_id {
            OutputEntityRef::Resolved(_) => true,
            OutputEntityRef::FromInput(entity) => is_known(module_info, src, entity),
        };
        if !known || !is_kept(
            shift_map,
            fixup.old_range.start as i128 + reloc.offset as i128,
        ) {
            assert(!fixup_movable(outputs, src.file_id, shift_map@, start, all)) by {
                let reloc = all[j as int];
            }
            return false;
        }
        j = j + 1;
    }
    true
}

/// Whether the original relocations that are not obsolete can be moved.
fn kept_are_movable(
    module_info: &OutputEntitiesResolver,
    src: &EntityLocation,
    shift_map: &ShiftMap<u32>,
    original: &[EntityRelocationEntry],
    copied: &EntityBodyCopy,
) -> (r: bool)
    requires
        shift_map.wf(),
    ensures
        r == kept_movable(
            module_info.outputs(),
            src.file_id,
            shift_map@,
            copied.original_range.start as int,
            original@,
            bits_of(copied.filtered_relocs),
        ),
{
    let ghost all = original@;
    let ghost start = copied.original_range.start as int;
    let ghost outputs = module_info.outputs();
    let ghost obsolete = bits_of(copied.filtered_relocs);
    let mut j: usize = 0;
    while j < original.len()
        invariant
            j <= all.len(),
            all == original@,
            start == copied.original_range.start,
            outputs == module_info.outputs(),
            obsolete == bits_of(copied.filtered_relocs),
            shift_map.wf(),
            forall|k: int|
                0 <= k < j && !obsolete.contains(k) ==> {
                    let reloc = #[trigger] all[k];
                    &&& has_target(outputs, src.file_id, reloc.symbol_id)
                    &&& !(reloc.symbol_id is Type) ==> can_shift(shift_map@, reloc.offset - start)
                },
        decreases all.len() - j,
    {
        let reloc = original[j];
        if !bitset_contains(&copied.filtered_relocs, j) {
            let kept = match reloc.symbol_id {
                EntityKind::Type(_) => true,
                _ => is_kept(
                    shift_map,
                    reloc.offset as i128 - copied.original_range.start as i128,
                ),
            };
            if !kept || !is_known(module_info, src, reloc.symbol_id) {
                assert(!kept_movable(outputs, src.file_id, shift_map@, start, all, obsolete)) by {
                    let reloc = all[j as int];
                }
                return false;
            }
        }
        j = j + 1;
    }
    true
}

/// Whether the relocations of the new bytes of all rewrites can be moved. Adds what the rewrites
/// move to a shift map.
fn fixups_are_movable(
    module_info: &OutputEntitiesResolver,
    src: &EntityLocation,
    fixups: &Vec<Rewrite>,
    shift_map: &mut ShiftMap<u32>,
) -> (r: bool)
    requires
        old(shift_map).wf(),
        old(shift_map)@.len() == 0,
        valid_edits(fixup_edits(fixups@)),
        forall|i: int| 0 <= i < fixups@.len() ==> is_small(#[trigger] fixups@[i]),
    ensures
        r == forall|i: int|
            0 <= i < fixups@.len() ==> #[trigger] is_movable_at(
                module_info.outputs(),
                src.file_id,
                fixups@,
                i,
            ),
        r ==> final(shift_map).wf() && final(shift_map)@ == fixup_edits(fixups@),
{
    let ghost all = fixups@;
    let ghost outputs = module_info.outputs();
    let mut i: usize = 0;
    assert(all.take(0) =~= Seq::<Rewrite>::empty());
    assert(shift_map@ =~= fixup_edits(all.take(0)));
    while i < fixups.len()
        invariant
            i <= all.len(),
            all == fixups@,
            outputs == module_info.outputs(),
            valid_edits(fixup_edits(all)),
            forall|j: int| 0 <= j < all.len() ==> is_small(#[trigger] all[j]),
            forall|j: int|
                0 <= j < i ==> #[trigger] is_movable_at(outputs, src.file_id, all, j),
            shift_map.wf(),
            shift_map@ == fixup_edits(all.take(i as int)),
        decreases all.len() - i,
    {
        proof {
            assert(is_small(all[i as int]));
            reveal(is_movable_at);
        }
        if !fixup_is_movable(module_info, src, shift_map, &fixups[i]) {
            assert(!is_movable_at(outputs, src.file_id, all, i as int));
            return false;
        }
        assert(is_movable_at(outputs, src.file_id, all, i as int));
        add_fixup(shift_map, &fixups[i], Ghost(all), Ghost(i as int));
        i = i + 1;
    }
    assert(all.take(i as int) =~= all);
    true
}

/// Whether the relocations of a copied body can be moved.
fn copy_is_movable(
    module_info: &OutputEntitiesResolver,
    src: &EntityLocation,
    original: &[EntityRelocationEntry],
    copied: &EntityBodyCopy,
) -> (r: bool)
    ensures
        r == copied_movable(module_info.outputs(), src.file_id, original@, *copied),
{
    let ghost fixups = copied.fixups@;
    let ghost outputs = module_info.outputs();
    if !fixups_are_valid(&copied.fixups) {
        proof {
            if valid_edits(fixup_edits(fixups)) {
                let i = choose|i: int| 0 <= i < fixups.len() && !is_small(#[trigger] fixups[i]);
                assert(!is_small(fixups[i]));
            }
        }
        return false;
    }
    let mut shift_map: ShiftMap<u32> = ShiftMap::new();
    if !fixups_are_movable(module_info, src, &copied.fixups, &mut shift_map) {
        proof {
            let i = choose|i: int|
                0 <= i < fixups.len() && !#[trigger] is_movable_at(
                    outputs,
                    src.file_id,
                    fixups,
                    i,
                );
            assert(!is_movable_at(outputs, src.file_id, fixups, i));
        }
        return false;
    }
    kept_are_movable(module_info, src, &shift_map, original, copied)
}

/// Whether the relocations of the body of an entity can be found. The relocations of the input
/// files have to be well formed.
fn body_is_ready(
    module_info: &OutputEntitiesResolver,
    input_files: &FileLoader,
    entity: EntityKind,
    body: &EntityBody,
) -> (r: bool)
    requires
        forall|f: int| 0 <= f < input_files@.len() ==> (#[trigger] input_files@[f]).relocs.wf(),
    ensures
        r == body_ready(*module_info, input_files@, entity, *body),
{
    match body {
        EntityBody::New { .. } => true,
        EntityBody::Copied(copied) => match module_info.get_entity_src(entity) {
            None => false,
            Some(src) => {
                if src.file_id.index() >= input_files.len() {
                    return false;
                }
                let file = input_files.get_file(src.file_id);
                assert(input_files@[src.file_id.id() as int].relocs.wf());
                match file.relocs.get_entity_relocs(src.entity) {
                    Some(original) => copy_is_movable(module_info, &src, original, copied),
                    None => {
                        let empty: [EntityRelocationEntry; 0] = [];
                        let original: &[EntityRelocationEntry] = empty.as_slice();
                        assert(original@ =~= Seq::<EntityRelocationEntry>::empty());
                        copy_is_movable(module_info, &src, original, copied)
                    },
                }
            },
        },
    }
}

/// Whether the relocations of a data symbol can be found.
spec fn symbol_is_ready(
    module_info: OutputEntitiesResolver,
    files: Seq<LoadedFile>,
    layout: MemLayoutSealed,
    k: nat,
) -> bool {
    slot_at(layout.defined@, k) matches Some(place) ==> {
        &&& layout.segments@[place.segment_id.id() as int].parts@[place.part_id.id() as int].item_id
            == Some(DataSymbolRef { id: k as u32 })
        &&& body_ready(
            module_info,
            files,
            EntityKind::DataSymbol(DataSymbolRef { id: k as u32 }),
            layout.chunk_at(place).body,
        )
    }
}

/// Whether the relocations of all data symbols can be found.
fn layout_is_ready(
    module_info: &OutputEntitiesResolver,
    input_files: &FileLoader,
    layout: &MemLayoutSealed,
) -> (r: bool)
    requires
        layout.wf(),
        forall|f: int| 0 <= f < input_files@.len() ==> (#[trigger] input_files@[f]).relocs.wf(),
    ensures
        r == layout_ready(*module_info, input_files@, *layout),
{
    let ghost files = input_files@;
    let end: u32 = layout.defined.next_key().as_u32();
    let mut k: u32 = 0;
    while k < end
        invariant
            k <= end,
            files == input_files@,
            layout.wf(),
            forall|f: int| 0 <= f < files.len() ==> (#[trigger] files[f]).relocs.wf(),
            forall|j: nat| j < k ==> #[trigger] symbol_is_ready(*module_info, files, *layout, j),
        decreases end - k,
    {
        let key = DataSymbolRef::from_raw(k);
        if let Some(place) = layout.defined.get(key) {
            let part = layout.segments.at(place.segment_id).parts.at(place.part_id);
            let named = match part.item_id {
                Some(id) => id.id == k,
                None => false,
            };
            assert(layout.chunk_at(*place) == part.defined_entity);
            if !named || !body_is_ready(
                module_info,
                input_files,
                EntityKind::DataSymbol(key),
                &part.defined_entity.body,
            ) {
                assert(slot_at(layout.defined@, k as nat) == Some(*place));
                return false;
            }
        }
        k = k + 1;
    }
    proof {
        assert forall|j: nat| #[trigger] slot_at(layout.defined@, j) is Some implies
            symbol_is_ready(*module_info, files, *layout, j) by {}
        assert forall|j: nat|
            #![trigger slot_at(layout.defined@, j)]
            slot_at(layout.defined@, j) is Some implies body_ready(
            *module_info,
            files,
            EntityKind::DataSymbol(DataSymbolRef { id: j as u32 }),
            layout.chunk_at(slot_at(layout.defined@, j)->0).body,
        ) by {
            assert(symbol_is_ready(*module_info, files, *layout, j));
        }
        assert forall|j: nat|
            #![trigger slot_at(layout.defined@, j)]
            slot_at(layout.defined@, j) is Some implies {
            let place = slot_at(layout.defined@, j)->0;
            layout.segments@[place.segment_id.id() as int].parts@[place.part_id.id() as int].item_id
                == Some(DataSymbolRef { id: j as u32 })
        } by {
            assert(symbol_is_ready(*module_info, files, *layout, j));
        }
    }
    true
}

/// Whether the relocations of all bodies of a module can be found.
pub(crate) fn module_is_ready(
    module_info: &OutputEntitiesResolver,
    input_files: &FileLoader,
    module: &Module,
) -> (r: bool)
    requires
        module.extra.mem_layout.wf(),
        forall|f: int| 0 <= f < input_files@.len() ==> (#[trigger] input_files@[f]).relocs.wf(),
    ensures
        r == module_ready(*module_info, input_files@, *module),
{
    let ghost files = input_files@;
    let ghost all = module.functions@.defined;
    let functions = module.functions.defined();
    let first: usize = module.functions.imports().len();
    if first >= u32::MAX as usize || functions.len() >= u32::MAX as usize - first
        || first + functions.len() + 1 >= u32::MAX as usize {
        return false;
    }
    let mut i: usize = 0;
    while i < functions.len()
        invariant
            i <= all.len(),
            all == functions@,
            first + all.len() + 1 < u32::MAX,
            files == input_files@,
            forall|f: int| 0 <= f < files.len() ==> (#[trigger] files[f]).relocs.wf(),
            forall|j: int|
                #![trigger all[j]]
                0 <= j < i ==> body_ready(
                    *module_info,
                    files,
                    EntityKind::Function(FunctionRef { id: (first + j) as u32 }),
                    all[j].body,
                ),
            all == module.functions@.defined,
            first == module.functions@.imports.len(),
        decreases all.len() - i,
    {
        let entity = EntityKind::Function(FunctionRef::new(first + i));
        if !body_is_ready(module_info, input_files, entity, &functions[i].body) {
            assert(!body_ready(
                *module_info,
                files,
                EntityKind::Function(FunctionRef { id: (first + i as int) as u32 }),
                all[i as int].body,
            ));
            return false;
        }
        i = i + 1;
    }
    layout_is_ready(module_info, input_files, &module.extra.mem_layout)
}

} // verus!
