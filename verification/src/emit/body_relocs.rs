//! The relocations of bodies on their way to an output module.
use crate::emit::modify::{OutputEntityRef, OutputRelocationEntry, Rewrite};
use crate::emit::relocation::resolver::OutputEntitiesResolver;
use crate::emit::relocation::EntityLocation;
use crate::helpers::{
    accumulated_shift, removes, shift_at, total_shift, valid_edits, ShiftMap, ShiftPoint,
};
use crate::linkage::reloc::{EntityAddressMode, EntityRelocationEntry, RelocationEntry};
use crate::typed::body::{
    bits_of, bitset_contains, lemma_patched_len, patched, rewritten, rewritten_end, total_growth,
    valid_fixups, EntityBodyCopy,
};
use crate::typed::{EntityKind, FileId};
use vstd::prelude::*;

verus! {

/// How a rewrite moves what stands behind it: new bytes are inserted at its end, and the end of
/// its range is removed where it gets shorter.
pub open spec fn fixup_edit(fixup: Rewrite) -> Option<(int, int)> {
    if fixup.growth() > 0 {
        Some((fixup.old_range.end as int, fixup.growth()))
    } else if fixup.growth() < 0 {
        Some((fixup.old_range.start + fixup.new_bytes@.len(), fixup.growth()))
    } else {
        None
    }
}

/// How rewrites move what stands behind them.
pub open spec fn fixup_edits(fixups: Seq<Rewrite>) -> Seq<(int, int)>
    decreases fixups.len(),
{
    if fixups.len() == 0 {
        Seq::empty()
    } else {
        let rest = fixup_edits(fixups.drop_last());
        match fixup_edit(fixups.last()) {
            Some(edit) => rest.push(edit),
            None => rest,
        }
    }
}

/// Whether an offset is not in a rewritten range.
pub open spec fn untouched(fixups: Seq<Rewrite>, offset: int) -> bool {
    forall|i: int|
        0 <= i < fixups.len() ==> !((#[trigger] fixups[i]).old_range.start <= offset
            < fixups[i].old_range.end)
}

proof fn lemma_valid_prefix(fixups: Seq<Rewrite>, len: int)
    requires
        valid_fixups(fixups, len),
        fixups.len() > 0,
    ensures
        valid_fixups(fixups.drop_last(), len),
        rewritten_end(fixups.drop_last()) <= fixups.last().old_range.start,
        fixups.last().old_range.start <= fixups.last().old_range.end <= len,
{
    let init = fixups.drop_last();
    assert forall|i: int| 0 <= i < init.len() implies (#[trigger] init[i]).old_range.start
        <= init[i].old_range.end <= len by {
        assert(fixups[i].old_range.start <= fixups[i].old_range.end);
    }
    assert forall|i: int| 0 < i < init.len() implies init[i - 1].old_range.end <= (
    #[trigger] init[i]).old_range.start by {
        assert(fixups[i - 1].old_range.end <= fixups[i].old_range.start);
    }
    assert(fixups[fixups.len() - 1].old_range.start <= fixups[fixups.len() - 1].old_range.end);
}

proof fn lemma_shift_of_push(edits: Seq<(int, int)>, edit: (int, int), offset: int)
    ensures
        shift_at(edits.push(edit), offset) == if shift_at(edits, offset) is None || removes(
            edit,
            offset,
        ) {
            None::<int>
        } else if edit.0 <= offset {
            Some(shift_at(edits, offset)->0 + edit.1)
        } else {
            shift_at(edits, offset)
        },
{
    let longer = edits.push(edit);
    assert(longer.drop_last() =~= edits);
    if exists|i: int| 0 <= i < edits.len() && removes(#[trigger] edits[i], offset) {
        let i = choose|i: int| 0 <= i < edits.len() && removes(#[trigger] edits[i], offset);
        assert(removes(longer[i], offset));
    }
    if removes(edit, offset) {
        assert(removes(longer[edits.len() as int], offset));
    }
    if exists|i: int| 0 <= i < longer.len() && removes(#[trigger] longer[i], offset) {
        let i = choose|i: int| 0 <= i < longer.len() && removes(#[trigger] longer[i], offset);
        if i < edits.len() {
            assert(removes(edits[i], offset));
        }
    }
}

proof fn lemma_shift_behind_fixups(fixups: Seq<Rewrite>, len: int, offset: int)
    requires
        valid_fixups(fixups, len),
        rewritten_end(fixups) <= offset,
    ensures
        shift_at(fixup_edits(fixups), offset) == Some(total_growth(fixups)),
    decreases fixups.len(),
{
    if fixups.len() == 0 {
        assert(accumulated_shift(fixup_edits(fixups), offset) == 0);
    } else {
        lemma_valid_prefix(fixups, len);
        lemma_shift_behind_fixups(fixups.drop_last(), len, offset);
        if let Some(edit) = fixup_edit(fixups.last()) {
            lemma_shift_of_push(fixup_edits(fixups.drop_last()), edit, offset);
        }
    }
}

proof fn lemma_kept_byte(bytes: Seq<u8>, fixups: Seq<Rewrite>, offset: int)
    requires
        valid_fixups(fixups, bytes.len() as int),
        0 <= offset < bytes.len(),
        untouched(fixups, offset),
    ensures
        shift_at(fixup_edits(fixups), offset) matches Some(shift) && {
            &&& offset < rewritten_end(fixups) ==> 0 <= offset + shift < rewritten(
                bytes,
                fixups,
            ).len() && rewritten(bytes, fixups)[offset + shift] == bytes[offset]
            &&& offset >= rewritten_end(fixups) ==> shift == total_growth(fixups)
        },
    decreases fixups.len(),
{
    if offset >= rewritten_end(fixups) {
        lemma_shift_behind_fixups(fixups, bytes.len() as int, offset);
    } else {
        let init = fixups.drop_last();
        let last = fixups.last();
        lemma_valid_prefix(fixups, bytes.len() as int);
        assert(!(fixups[fixups.len() - 1].old_range.start <= offset < fixups[fixups.len()
            - 1].old_range.end));
        assert(untouched(init, offset)) by {
            assert forall|i: int| 0 <= i < init.len() implies !((
            #[trigger] init[i]).old_range.start <= offset < init[i].old_range.end) by {
                assert(!(fixups[i].old_range.start <= offset < fixups[i].old_range.end));
            }
        }
        lemma_kept_byte(bytes, init, offset);
        lemma_patched_len(bytes, init);
        if let Some(edit) = fixup_edit(last) {
            lemma_shift_of_push(fixup_edits(init), edit, offset);
        }
    }
}

/// A relocation of bytes that are kept stays with them: the offset that it is moved to is where
/// the rewritten body holds them.
pub proof fn lemma_relocs_follow_kept_bytes(bytes: Seq<u8>, fixups: Seq<Rewrite>, offset: int)
    requires
        valid_fixups(fixups, bytes.len() as int),
        0 <= offset < bytes.len(),
        untouched(fixups, offset),
    ensures
        shift_at(fixup_edits(fixups), offset) matches Some(shift) && 0 <= offset + shift
            < patched(bytes, fixups).len() && patched(bytes, fixups)[offset + shift]
            == bytes[offset],
{
    lemma_kept_byte(bytes, fixups, offset);
    lemma_patched_len(bytes, fixups);
}

proof fn lemma_rewritten_prefix(bytes: Seq<u8>, fixups: Seq<Rewrite>, k: int, i: int)
    requires
        0 <= k <= fixups.len(),
        0 <= i < rewritten(bytes, fixups.take(k)).len(),
    ensures
        i < rewritten(bytes, fixups).len(),
        rewritten(bytes, fixups)[i] == rewritten(bytes, fixups.take(k))[i],
    decreases fixups.len(),
{
    if k == fixups.len() {
        assert(fixups.take(k) =~= fixups);
    } else {
        assert(fixups.drop_last().take(k) =~= fixups.take(k));
        lemma_rewritten_prefix(bytes, fixups.drop_last(), k, i);
    }
}

proof fn lemma_valid_take(fixups: Seq<Rewrite>, len: int, k: int)
    requires
        valid_fixups(fixups, len),
        0 <= k <= fixups.len(),
    ensures
        valid_fixups(fixups.take(k), len),
    decreases fixups.len(),
{
    if k == fixups.len() {
        assert(fixups.take(k) =~= fixups);
    } else {
        lemma_valid_prefix(fixups, len);
        lemma_valid_take(fixups.drop_last(), len, k);
        assert(fixups.drop_last().take(k) =~= fixups.take(k));
    }
}

/// A relocation of new bytes goes with them: the offset that it is moved to is where the rewritten
/// body holds them.
#[verifier::rlimit(60)]
pub proof fn lemma_relocs_follow_new_bytes(bytes: Seq<u8>, fixups: Seq<Rewrite>, i: int, k: int)
    requires
        valid_fixups(fixups, bytes.len() as int),
        0 <= i < fixups.len(),
        0 <= k < fixups[i].new_bytes@.len(),
    ensures
        ({
            let offset = fixups[i].old_range.start + k;
            shift_at(fixup_edits(fixups.take(i)), offset) matches Some(shift) && 0 <= offset + shift
                < patched(bytes, fixups).len() && patched(bytes, fixups)[offset + shift]
                == fixups[i].new_bytes@[k]
        }),
{
    let before = fixups.take(i);
    let through = fixups.take(i + 1);
    let offset = fixups[i].old_range.start + k;
    lemma_valid_take(fixups, bytes.len() as int, i);
    lemma_valid_take(fixups, bytes.len() as int, i + 1);
    assert(through.drop_last() =~= before);
    assert(through.last() == fixups[i]);
    lemma_valid_prefix(through, bytes.len() as int);
    lemma_shift_behind_fixups(before, bytes.len() as int, offset);
    lemma_patched_len(bytes, before);
    lemma_patched_len(bytes, fixups);
    lemma_rewritten_prefix(bytes, fixups, i + 1, offset + total_growth(before));
}

/// The entity of the output module that stands for an entity of an input file. Types have none.
pub open spec fn output_target(
    outputs: Map<EntityLocation, EntityKind>,
    file: FileId,
    entity: EntityKind,
) -> Option<EntityKind> {
    if entity is Type {
        None
    } else {
        Some(outputs[EntityLocation { file_id: file, entity }])
    }
}

/// Whether the entity of the output module that stands for an entity of an input file is known.
pub open spec fn has_target(
    outputs: Map<EntityLocation, EntityKind>,
    file: FileId,
    entity: EntityKind,
) -> bool {
    entity is Type || outputs.contains_key(EntityLocation { file_id: file, entity })
}

/// The entity of the output module that a relocation of new bytes refers to.
pub open spec fn fixup_target(
    outputs: Map<EntityLocation, EntityKind>,
    file: FileId,
    target: OutputEntityRef,
) -> Option<EntityKind> {
    match target {
        OutputEntityRef::Resolved(entity) => Some(entity),
        OutputEntityRef::FromInput(entity) => output_target(outputs, file, entity),
    }
}

/// A relocation with another target, at another offset.
pub open spec fn moved_reloc<S>(
    reloc: RelocationEntry<S, EntityAddressMode>,
    symbol: EntityKind,
    offset: int,
) -> EntityRelocationEntry {
    RelocationEntry {
        symbol_id: symbol,
        offset: offset as u32,
        addend: reloc.addend,
        symbol_op: reloc.symbol_op,
        relation: reloc.relation,
        encoding: reloc.encoding,
        width: reloc.width,
    }
}

/// Whether an offset is kept, and stays representable.
pub open spec fn can_shift(edits: Seq<(int, int)>, offset: int) -> bool {
    &&& 0 <= offset <= u32::MAX
    &&& shift_at(edits, offset) matches Some(shift) && offset + shift <= u32::MAX
}

/// Where an offset is moved to.
pub open spec fn shifted(edits: Seq<(int, int)>, offset: int) -> int {
    offset + shift_at(edits, offset)->0
}

/// The relocations of new bytes that take the place of those from `start` on.
pub open spec fn fixup_relocs(
    outputs: Map<EntityLocation, EntityKind>,
    file: FileId,
    edits: Seq<(int, int)>,
    start: int,
    relocs: Seq<OutputRelocationEntry>,
) -> Seq<EntityRelocationEntry>
    decreases relocs.len(),
{
    if relocs.len() == 0 {
        Seq::empty()
    } else {
        let rest = fixup_relocs(outputs, file, edits, start, relocs.drop_last());
        let reloc = relocs.last();
        match fixup_target(outputs, file, reloc.symbol_id) {
            Some(symbol) => rest.push(
                moved_reloc(reloc, symbol, shifted(edits, start + reloc.offset)),
            ),
            None => rest,
        }
    }
}

/// The relocations of the new bytes of all rewrites.
pub open spec fn fixups_relocs(
    outputs: Map<EntityLocation, EntityKind>,
    file: FileId,
    fixups: Seq<Rewrite>,
) -> Seq<EntityRelocationEntry>
    decreases fixups.len(),
{
    if fixups.len() == 0 {
        Seq::empty()
    } else {
        fixups_relocs(outputs, file, fixups.drop_last()) + fixup_relocs(
            outputs,
            file,
            fixup_edits(fixups.drop_last()),
            fixups.last().old_range.start as int,
            fixups.last().new_relocs@,
        )
    }
}

/// The original relocations that are not obsolete, for a body that starts at `start` in its file.
pub open spec fn kept_relocs(
    outputs: Map<EntityLocation, EntityKind>,
    file: FileId,
    edits: Seq<(int, int)>,
    start: int,
    relocs: Seq<EntityRelocationEntry>,
    obsolete: Set<int>,
) -> Seq<EntityRelocationEntry>
    decreases relocs.len(),
{
    if relocs.len() == 0 {
        Seq::empty()
    } else {
        let rest = kept_relocs(outputs, file, edits, start, relocs.drop_last(), obsolete);
        let reloc = relocs.last();
        if obsolete.contains(relocs.len() - 1) {
            rest
        } else {
            match output_target(outputs, file, reloc.symbol_id) {
                Some(symbol) => rest.push(
                    moved_reloc(reloc, symbol, shifted(edits, reloc.offset - start)),
                ),
                None => rest,
            }
        }
    }
}

/// The relocations of a copied body: those of the new bytes, and the original ones that are not
/// obsolete. Offsets are relative to the start of the body.
pub open spec fn copied_relocs(
    outputs: Map<EntityLocation, EntityKind>,
    file: FileId,
    original: Seq<EntityRelocationEntry>,
    copied: EntityBodyCopy,
) -> Seq<EntityRelocationEntry> {
    fixups_relocs(outputs, file, copied.fixups@) + kept_relocs(
        outputs,
        file,
        fixup_edits(copied.fixups@),
        copied.original_range.start as int,
        original,
        bits_of(copied.filtered_relocs),
    )
}

/// Whether the relocations of the new bytes of a rewrite can be moved.
pub open spec fn fixup_movable(
    outputs: Map<EntityLocation, EntityKind>,
    file: FileId,
    edits: Seq<(int, int)>,
    start: int,
    relocs: Seq<OutputRelocationEntry>,
) -> bool {
    forall|j: int|
        0 <= j < relocs.len() ==> {
            let reloc = #[trigger] relocs[j];
            &&& can_shift(edits, start + reloc.offset)
            &&& reloc.symbol_id matches OutputEntityRef::FromInput(entity) ==> has_target(
                outputs,
                file,
                entity,
            )
        }
}

/// Whether the original relocations that are not obsolete can be moved.
pub open spec fn kept_movable(
    outputs: Map<EntityLocation, EntityKind>,
    file: FileId,
    edits: Seq<(int, int)>,
    start: int,
    relocs: Seq<EntityRelocationEntry>,
    obsolete: Set<int>,
) -> bool {
    forall|j: int|
        0 <= j < relocs.len() && !obsolete.contains(j) ==> {
            let reloc = #[trigger] relocs[j];
            &&& has_target(outputs, file, reloc.symbol_id)
            &&& !(reloc.symbol_id is Type) ==> can_shift(edits, reloc.offset - start)
        }
}

/// Whether the range and the growth of a rewrite are representable.
pub open spec fn is_small(fixup: Rewrite) -> bool {
    &&& fixup.old_range.start <= fixup.old_range.end <= u32::MAX
    &&& i32::MIN < fixup.growth() <= i32::MAX
}

/// Whether the relocations of the new bytes of a rewrite can be moved, behind the rewrites before
/// it.
#[verifier::opaque]
pub open spec fn is_movable_at(
    outputs: Map<EntityLocation, EntityKind>,
    file: FileId,
    fixups: Seq<Rewrite>,
    i: int,
) -> bool {
    fixup_movable(
        outputs,
        file,
        fixup_edits(fixups.take(i)),
        fixups[i].old_range.start as int,
        fixups[i].new_relocs@,
    )
}

/// Whether the relocations of a copied body can be moved: their targets are known, and none of
/// them is in a removed part.
pub open spec fn copied_movable(
    outputs: Map<EntityLocation, EntityKind>,
    file: FileId,
    original: Seq<EntityRelocationEntry>,
    copied: EntityBodyCopy,
) -> bool {
    &&& valid_edits(fixup_edits(copied.fixups@))
    &&& forall|i: int| 0 <= i < copied.fixups@.len() ==> is_small(#[trigger] copied.fixups@[i])
    &&& forall|i: int|
        0 <= i < copied.fixups@.len() ==> #[trigger] is_movable_at(
            outputs,
            file,
            copied.fixups@,
            i,
        )
    &&& kept_movable(
        outputs,
        file,
        fixup_edits(copied.fixups@),
        copied.original_range.start as int,
        original,
        bits_of(copied.filtered_relocs),
    )
}

/// Whether a body is another one without the relocations of its new bytes.
pub open spec fn is_drained_copy(before: EntityBodyCopy, after: EntityBodyCopy) -> bool {
    &&& after.bytes == before.bytes
    &&& after.original_range == before.original_range
    &&& after.filtered_relocs == before.filtered_relocs
    &&& after.fixups@.len() == before.fixups@.len()
    &&& forall|i: int|
        0 <= i < after.fixups@.len() ==> {
            let fixup = #[trigger] after.fixups@[i];
            &&& fixup.old_range == before.fixups@[i].old_range
            &&& fixup.new_bytes == before.fixups@[i].new_bytes
            &&& fixup.new_relocs@.len() == 0
        }
}

/// Moving the relocations out does not change the bytes of a body.
pub proof fn lemma_drained_copy_emits_the_same(before: EntityBodyCopy, after: EntityBodyCopy)
    requires
        is_drained_copy(before, after),
    ensures
        patched(after.bytes@, after.fixups@) == patched(before.bytes@, before.fixups@),
        valid_fixups(before.fixups@, before.bytes@.len() as int) ==> valid_fixups(
            after.fixups@,
            after.bytes@.len() as int,
        ),
{
    lemma_same_rewritten(before.bytes@, before.fixups@, after.fixups@);
    if valid_fixups(before.fixups@, before.bytes@.len() as int) {
        assert forall|i: int| 0 <= i < after.fixups@.len() implies (
        #[trigger] after.fixups@[i]).old_range.start <= after.fixups@[i].old_range.end
            <= after.bytes@.len() by {
            assert(before.fixups@[i].old_range.start <= before.fixups@[i].old_range.end);
        }
        assert forall|i: int| 0 < i < after.fixups@.len() implies after.fixups@[i
            - 1].old_range.end <= (#[trigger] after.fixups@[i]).old_range.start by {
            assert(after.fixups@[i - 1].old_range == before.fixups@[i - 1].old_range);
            assert(before.fixups@[i - 1].old_range.end <= before.fixups@[i].old_range.start);
        }
    }
}

proof fn lemma_same_rewritten(bytes: Seq<u8>, before: Seq<Rewrite>, after: Seq<Rewrite>)
    requires
        after.len() == before.len(),
        forall|i: int|
            0 <= i < after.len() ==> (#[trigger] after[i]).old_range == before[i].old_range
                && after[i].new_bytes == before[i].new_bytes,
    ensures
        rewritten(bytes, after) == rewritten(bytes, before),
        rewritten_end(after) == rewritten_end(before),
    decreases before.len(),
{
    if before.len() > 0 {
        let n = before.len() - 1;
        assert(after[n].old_range == before[n].old_range);
        assert forall|i: int| 0 <= i < after.drop_last().len() implies (
        #[trigger] after.drop_last()[i]).old_range == before.drop_last()[i].old_range
            && after.drop_last()[i].new_bytes == before.drop_last()[i].new_bytes by {
            assert(after[i].old_range == before[i].old_range);
        }
        lemma_same_rewritten(bytes, before.drop_last(), after.drop_last());
    }
}

/// The entity of the output module that stands for an entity of an input file.
fn resolve_entity(module_info: &OutputEntitiesResolver, src: &EntityLocation, input: EntityKind) -> (r:
    Option<EntityKind>)
    requires
        has_target(module_info.outputs(), src.file_id, input),
    ensures
        r == output_target(module_info.outputs(), src.file_id, input),
{
    match input {
        EntityKind::Type(_) => None,
        _ => {
            let location = src.other_entity(input);
            Some(module_info.get_output_entity(&location).unwrap())
        },
    }
}

/// Appends the relocations of the new bytes of a rewrite.
fn push_fixup_relocs(
    module_info: &OutputEntitiesResolver,
    src: &EntityLocation,
    shift_map: &ShiftMap<u32>,
    patch: &Rewrite,
    relocs: &mut Vec<EntityRelocationEntry>,
)
    requires
        shift_map.wf(),
        patch.old_range.start <= u32::MAX,
        fixup_movable(
            module_info.outputs(),
            src.file_id,
            shift_map@,
            patch.old_range.start as int,
            patch.new_relocs@,
        ),
    ensures
        final(relocs)@ == old(relocs)@ + fixup_relocs(
            module_info.outputs(),
            src.file_id,
            shift_map@,
            patch.old_range.start as int,
            patch.new_relocs@,
        ),
{
    let ghost before = relocs@;
    let ghost outputs = module_info.outputs();
    let ghost all = patch.new_relocs@;
    let ghost start = patch.old_range.start as int;
    let mut j: usize = 0;
    assert(all.take(0) =~= Seq::<OutputRelocationEntry>::empty());
    assert(relocs@ =~= before + fixup_relocs(outputs, src.file_id, shift_map@, start, all.take(0)));
    while j < patch.new_relocs.len()
        invariant
            j <= all.len(),
            all == patch.new_relocs@,
            outputs == module_info.outputs(),
            start == patch.old_range.start,
            shift_map.wf(),
            start <= u32::MAX,
            fixup_movable(outputs, src.file_id, shift_map@, start, all),
            relocs@ =~= before + fixup_relocs(
                outputs,
                src.file_id,
                shift_map@,
                start,
                all.take(j as int),
            ),
        decreases all.len() - j,
    {
        let reloc = patch.new_relocs[j];
        proof {
            assert(all.take(j + 1).drop_last() =~= all.take(j as int));
            assert(all.take(j + 1).last() == all[j as int]);
            assert(can_shift(shift_map@, start + all[j as int].offset));
        }
        let reloc_start: u32 = patch.old_range.start as u32 + reloc.offset;
        let offset: u32 = shift_map.get_shifted_offset(reloc_start).unwrap();
        let symbol = match reloc.symbol_id {
            OutputEntityRef::Resolved(entity) => Some(entity),
            OutputEntityRef::FromInput(entity) => resolve_entity(module_info, src, entity),
        };
        if let Some(symbol_id) = symbol {
            relocs.push(
                RelocationEntry {
                    symbol_id,
                    offset,
                    addend: reloc.addend,
                    symbol_op: reloc.symbol_op,
                    relation: reloc.relation,
                    encoding: reloc.encoding,
                    width: reloc.width,
                },
            );
        }
        j = j + 1;
    }
    assert(all.take(j as int) =~= all);
}

/// Appends the original relocations that are not obsolete.
fn push_kept_relocs(
    module_info: &OutputEntitiesResolver,
    src: &EntityLocation,
    shift_map: &ShiftMap<u32>,
    original_relocs: &[EntityRelocationEntry],
    copied: &EntityBodyCopy,
    relocs: &mut Vec<EntityRelocationEntry>,
)
    requires
        shift_map.wf(),
        kept_movable(
            module_info.outputs(),
            src.file_id,
            shift_map@,
            copied.original_range.start as int,
            original_relocs@,
            bits_of(copied.filtered_relocs),
        ),
    ensures
        final(relocs)@ == old(relocs)@ + kept_relocs(
            module_info.outputs(),
            src.file_id,
            shift_map@,
            copied.original_range.start as int,
            original_relocs@,
            bits_of(copied.filtered_relocs),
        ),
{
    let ghost before = relocs@;
    let ghost outputs = module_info.outputs();
    let ghost all = original_relocs@;
    let ghost start = copied.original_range.start as int;
    let ghost obsolete = bits_of(copied.filtered_relocs);
    let mut j: usize = 0;
    assert(all.take(0) =~= Seq::<EntityRelocationEntry>::empty());
    assert(relocs@ =~= before + kept_relocs(
        outputs,
        src.file_id,
        shift_map@,
        start,
        all.take(0),
        obsolete,
    ));
    while j < original_relocs.len()
        invariant
            j <= all.len(),
            all == original_relocs@,
            outputs == module_info.outputs(),
            start == copied.original_range.start,
            obsolete == bits_of(copied.filtered_relocs),
            shift_map.wf(),
            kept_movable(outputs, src.file_id, shift_map@, start, all, obsolete),
            relocs@ =~= before + kept_relocs(
                outputs,
                src.file_id,
                shift_map@,
                start,
                all.take(j as int),
                obsolete,
            ),
        decreases all.len() - j,
    {
        let reloc = original_relocs[j];
        proof {
            assert(all.take(j + 1).drop_last() =~= all.take(j as int));
            assert(all.take(j + 1).last() == all[j as int]);
        }
        if !bitset_contains(&copied.filtered_relocs, j) {
            assert(has_target(outputs, src.file_id, all[j as int].symbol_id));
            if let Some(symbol_id) = resolve_entity(module_info, src, reloc.symbol_id) {
                let reloc_start: u32 = (reloc.offset as usize - copied.original_range.start) as u32;
                let offset: u32 = shift_map.get_shifted_offset(reloc_start).unwrap();
                relocs.push(
                    RelocationEntry {
                        symbol_id,
                        offset,
                        addend: reloc.addend,
                        symbol_op: reloc.symbol_op,
                        relation: reloc.relation,
                        encoding: reloc.encoding,
                        width: reloc.width,
                    },
                );
            }
        }
        j = j + 1;
    }
    assert(all.take(j as int) =~= all);
}

pub(crate) proof fn lemma_edits_prefix(fixups: Seq<Rewrite>, k: int)
    requires
        0 <= k <= fixups.len(),
    ensures
        fixup_edits(fixups.take(k)).len() <= fixup_edits(fixups).len(),
        fixup_edits(fixups.take(k)) == fixup_edits(fixups).take(
            fixup_edits(fixups.take(k)).len() as int,
        ),
    decreases fixups.len(),
{
    if k == fixups.len() {
        assert(fixups.take(k) =~= fixups);
        assert(fixup_edits(fixups).take(fixup_edits(fixups).len() as int) =~= fixup_edits(fixups));
    } else {
        lemma_edits_prefix(fixups.drop_last(), k);
        assert(fixups.drop_last().take(k) =~= fixups.take(k));
        let len = fixup_edits(fixups.take(k)).len() as int;
        assert(fixup_edits(fixups).take(len) =~= fixup_edits(fixups.drop_last()).take(len));
    }
}

pub(crate) proof fn lemma_valid_edits_prefix(edits: Seq<(int, int)>, k: int)
    requires
        valid_edits(edits),
        0 <= k <= edits.len(),
    ensures
        valid_edits(edits.take(k)),
{
    let prefix = edits.take(k);
    assert forall|i: int, j: int|
        #![trigger prefix[i], prefix[j]]
        0 <= i < j < prefix.len() implies prefix[i].0 < prefix[j].0 && prefix[i].0 - prefix[i].1
        <= prefix[j].0 by {
        assert(edits[i].0 < edits[j].0);
    }
    assert forall|i: int| 0 <= i < prefix.len() implies i32::MIN < (#[trigger] prefix[i]).1
        <= i32::MAX by {
        assert(edits[i].1 <= i32::MAX);
    }
    assert forall|i: int| 0 <= i <= prefix.len() implies i32::MIN <= #[trigger] total_shift(
        prefix.take(i),
    ) <= i32::MAX by {
        assert(prefix.take(i) =~= edits.take(i));
        assert(total_shift(edits.take(i)) <= i32::MAX);
    }
}

/// Adds what a rewrite moves to a shift map.
pub(crate) fn add_fixup(
    shift_map: &mut ShiftMap<u32>,
    fixup: &Rewrite,
    Ghost(fixups): Ghost<Seq<Rewrite>>,
    Ghost(i): Ghost<int>,
)
    requires
        old(shift_map).wf(),
        0 <= i < fixups.len(),
        valid_edits(fixup_edits(fixups)),
        fixup.old_range.start <= fixup.old_range.end <= u32::MAX,
        i32::MIN < fixup.growth() <= i32::MAX,
        fixup.growth() == fixups[i].growth(),
        fixup_edit(*fixup) == fixup_edit(fixups[i]),
        old(shift_map)@ == fixup_edits(fixups.take(i)),
    ensures
        final(shift_map).wf(),
        final(shift_map)@ == fixup_edits(fixups.take(i + 1)),
{
    proof {
        assert(fixups.take(i + 1).drop_last() =~= fixups.take(i));
        assert(fixups.take(i + 1).last() == fixups[i]);
        lemma_edits_prefix(fixups, i + 1);
        let edits = fixup_edits(fixups.take(i + 1));
        lemma_valid_edits_prefix(fixup_edits(fixups), edits.len() as int);
        if fixup_edit(*fixup) is Some && edits.len() > 1 {
            assert(edits[edits.len() - 2].0 < edits[edits.len() - 1].0);
        }
    }
    let growth: isize = fixup.size();
    if growth > 0 {
        shift_map.add_shift_point(
            ShiftPoint { at: fixup.old_range.end as u32, shift: growth as i32 },
        );
    } else if growth < 0 {
        let at: u32 = (fixup.old_range.start + fixup.new_bytes.len()) as u32;
        shift_map.add_shift_point(ShiftPoint { at, shift: growth as i32 });
    }
}

/// Moves the relocations of the new bytes of a rewrite out of it, and appends them. Adds what the
/// rewrite moves to a shift map.
fn take_fixup_relocs(
    module_info: &OutputEntitiesResolver,
    src: &EntityLocation,
    shift_map: &mut ShiftMap<u32>,
    fixup: &mut Rewrite,
    relocs: &mut Vec<EntityRelocationEntry>,
    Ghost(fixups): Ghost<Seq<Rewrite>>,
    Ghost(i): Ghost<int>,
)
    requires
        old(shift_map).wf(),
        0 <= i < fixups.len(),
        *old(fixup) == fixups[i],
        old(shift_map)@ == fixup_edits(fixups.take(i)),
        valid_edits(fixup_edits(fixups)),
        is_small(fixups[i]),
        is_movable_at(module_info.outputs(), src.file_id, fixups, i),
    ensures
        final(shift_map).wf(),
        final(shift_map)@ == fixup_edits(fixups.take(i + 1)),
        final(fixup).old_range == fixups[i].old_range,
        final(fixup).new_bytes == fixups[i].new_bytes,
        final(fixup).new_relocs@.len() == 0,
        final(relocs)@ == old(relocs)@ + fixup_relocs(
            module_info.outputs(),
            src.file_id,
            fixup_edits(fixups.take(i)),
            fixups[i].old_range.start as int,
            fixups[i].new_relocs@,
        ),
{
    reveal(is_movable_at);
    push_fixup_relocs(module_info, src, shift_map, fixup, relocs);
    add_fixup(shift_map, fixup, Ghost(fixups), Ghost(i));
    fixup.new_relocs.clear();
}

proof fn lemma_fixups_relocs_step(
    outputs: Map<EntityLocation, EntityKind>,
    file: FileId,
    fixups: Seq<Rewrite>,
    i: int,
)
    requires
        0 <= i < fixups.len(),
    ensures
        fixups_relocs(outputs, file, fixups.take(i + 1)) == fixups_relocs(
            outputs,
            file,
            fixups.take(i),
        ) + fixup_relocs(
            outputs,
            file,
            fixup_edits(fixups.take(i)),
            fixups[i].old_range.start as int,
            fixups[i].new_relocs@,
        ),
{
    assert(fixups.take(i + 1).drop_last() =~= fixups.take(i));
    assert(fixups.take(i + 1).last() == fixups[i]);
}

/// Moves the relocations of a copied body out of it, and appends them with their targets in the
/// output module, together with the original relocations that are not obsolete. Offsets are then
/// relative to the start of the body.
pub fn resolve_relocs_for_copied_body(
    src: &EntityLocation,
    module_info: &OutputEntitiesResolver,
    original_relocs: &[EntityRelocationEntry],
    copied: &mut EntityBodyCopy,
    relocs: &mut Vec<EntityRelocationEntry>,
)
    requires
        copied_movable(module_info.outputs(), src.file_id, original_relocs@, *old(copied)),
    ensures
        is_drained_copy(*old(copied), *final(copied)),
        final(relocs)@ == old(relocs)@ + copied_relocs(
            module_info.outputs(),
            src.file_id,
            original_relocs@,
            *old(copied),
        ),
{
    let ghost before = relocs@;
    let ghost body = *copied;
    let ghost fixups = copied.fixups@;
    let ghost outputs = module_info.outputs();
    let mut shift_map: ShiftMap<u32> = ShiftMap::new();
    let mut i: usize = 0;
    assert(fixups.take(0) =~= Seq::<Rewrite>::empty());
    assert(relocs@ =~= before + fixups_relocs(outputs, src.file_id, fixups.take(0)));
    while i < copied.fixups.len()
        invariant
            i <= fixups.len(),
            outputs == module_info.outputs(),
            fixups == body.fixups@,
            valid_edits(fixup_edits(fixups)),
            forall|j: int| 0 <= j < fixups.len() ==> is_small(#[trigger] fixups[j]),
            forall|j: int|
                0 <= j < fixups.len() ==> #[trigger] is_movable_at(
                    outputs,
                    src.file_id,
                    fixups,
                    j,
                ),
            copied.bytes == body.bytes,
            copied.original_range == body.original_range,
            copied.filtered_relocs == body.filtered_relocs,
            copied.fixups@.len() == fixups.len(),
            forall|j: int|
                0 <= j < i ==> {
                    let fixup = #[trigger] copied.fixups@[j];
                    &&& fixup.old_range == fixups[j].old_range
                    &&& fixup.new_bytes == fixups[j].new_bytes
                    &&& fixup.new_relocs@.len() == 0
                },
            forall|j: int| i <= j < fixups.len() ==> #[trigger] copied.fixups@[j] == fixups[j],
            shift_map.wf(),
            shift_map@ == fixup_edits(fixups.take(i as int)),
            relocs@ =~= before + fixups_relocs(outputs, src.file_id, fixups.take(i as int)),
        decreases fixups.len() - i,
    {
        assert(copied.fixups@[i as int] == fixups[i as int]);
        assert(is_small(fixups[i as int]));
        assert(is_movable_at(outputs, src.file_id, fixups, i as int));
        take_fixup_relocs(
            module_info,
            src,
            &mut shift_map,
            &mut copied.fixups[i],
            relocs,
            Ghost(fixups),
            Ghost(i as int),
        );
        proof {
            lemma_fixups_relocs_step(outputs, src.file_id, fixups, i as int);
        }
        i = i + 1;
    }
    assert(fixups.take(i as int) =~= fixups);
    push_kept_relocs(module_info, src, &shift_map, original_relocs, copied, relocs);
    assert(relocs@ =~= before + copied_relocs(outputs, src.file_id, original_relocs@, body));
}

} // verus!
