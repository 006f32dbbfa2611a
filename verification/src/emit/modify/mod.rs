//! Modification of entities on their way from an input module to an output module.
pub mod abs_to_got;
pub mod blacklist;
pub mod choice_laws;
pub mod code_abs_to_got;
pub mod code_laws;
pub mod constant_extraction;
pub mod cursor;
pub mod data_abs_to_got;
pub mod data_laws;
pub mod extraction_laws;
pub mod machine;
pub mod start_fn_gen;
pub mod wasm_emitter;

use crate::emit::modify::cursor::{Cursor, CursorView};
use crate::helpers::RangeExt;
use crate::index::{Temp, TempIndex};
use crate::linkage::reloc::{EntityAddressMode, EntityRelocationEntry, RelocationEntry};
use crate::typed::body::{bits_of, bitset_insert, EntityBodyCopy};
use crate::typed::snapshot::EntitiesSnapshot;
use crate::typed::{EntityKind, FileId};
use core::marker::PhantomData;
use core::ops::Range;
use vstd::prelude::*;

verus! {

/// Reference to an entity of the output module.
#[derive(Clone, Copy, Debug, PartialEq, Eq, Hash, Structural)]
pub enum OutputEntityRef {
    /// An entity that already exists in the output module.
    Resolved(EntityKind),
    /// An entity of the input file of the entity that is modified.
    FromInput(EntityKind),
}

impl OutputEntityRef {
    pub fn from_input(input: EntityKind) -> (r: Self)
        ensures
            r == OutputEntityRef::FromInput(input),
    {
        OutputEntityRef::FromInput(input)
    }

    pub fn resolved(resolved: EntityKind) -> (r: Self)
        ensures
            r == OutputEntityRef::Resolved(resolved),
    {
        OutputEntityRef::Resolved(resolved)
    }
}

pub type OutputRelocationEntry = RelocationEntry<OutputEntityRef, EntityAddressMode>;

/// A relocation with another target.
pub open spec fn retargeted<A, B, Op>(entry: RelocationEntry<A, Op>, target: B) -> RelocationEntry<
    B,
    Op,
> {
    RelocationEntry {
        symbol_id: target,
        symbol_op: entry.symbol_op,
        addend: entry.addend,
        offset: entry.offset,
        relation: entry.relation,
        encoding: entry.encoding,
        width: entry.width,
    }
}

impl EntityRelocationEntry {
    /// The relocation, whose target is an entity of the output module.
    pub fn into_resolved(self) -> (r: OutputRelocationEntry)
        ensures
            r == retargeted(self, OutputEntityRef::Resolved(self.symbol_id)),
    {
        RelocationEntry {
            symbol_id: OutputEntityRef::Resolved(self.symbol_id),
            symbol_op: self.symbol_op,
            addend: self.addend,
            offset: self.offset,
            relation: self.relation,
            encoding: self.encoding,
            width: self.width,
        }
    }

    /// The relocation, whose target is an entity of an input file.
    pub fn into_from_input(self) -> (r: OutputRelocationEntry)
        ensures
            r == retargeted(self, OutputEntityRef::FromInput(self.symbol_id)),
    {
        RelocationEntry {
            symbol_id: OutputEntityRef::FromInput(self.symbol_id),
            symbol_op: self.symbol_op,
            addend: self.addend,
            offset: self.offset,
            relation: self.relation,
            encoding: self.encoding,
            width: self.width,
        }
    }
}

/// Number of places in a range.
pub open spec fn range_len(range: Range<usize>) -> int {
    if range.start <= range.end {
        range.end - range.start
    } else {
        0
    }
}

/// Replaces some bytes of an entity: new instructions or data, or the removal of bytes.
#[derive(Debug, PartialEq, Eq)]
pub struct Rewrite {
    /// The bytes that are replaced, relative to the start of the entity; empty for an insertion.
    pub old_range: Range<usize>,
    /// Relocations in the new bytes, with offsets relative to the start of the rewrite.
    pub new_relocs: Vec<OutputRelocationEntry>,
    pub new_bytes: Vec<u8>,
}

impl Rewrite {
    /// By how much the entity grows.
    pub open spec fn growth(&self) -> int {
        self.new_bytes@.len() - range_len(self.old_range)
    }

    /// By how much the entity grows.
    pub fn size(&self) -> (r: isize)
        requires
            isize::MIN <= self.growth() <= isize::MAX,
        ensures
            r == self.growth(),
    {
        let old_len: usize = if self.old_range.start <= self.old_range.end {
            self.old_range.end - self.old_range.start
        } else {
            0
        };
        (self.new_bytes.len() as i128 - old_len as i128) as isize
    }
}

/// Why a reference cannot be modified.
#[derive(Debug, Clone, Copy, PartialEq, Eq, Structural)]
pub enum FixupError {
    /// Bytes of the instruction belong to another modification.
    AlreadyUsed,
    /// The bytes are no instruction.
    Malformed,
    /// There is more than one instruction.
    ExtraOperators,
    /// References of 64 bits are not supported.
    UnsupportedWidth,
    /// References that are relative to a base are not supported.
    UnsupportedRelation,
    /// References to something else than an address at run time are not supported.
    UnsupportedTarget,
    /// The encoding does not fit the kind of reference.
    UnsupportedEncoding,
    /// The instruction is not supported.
    UnsupportedInstruction,
    /// The target is at a fixed place.
    NotBased,
    /// The place of the target is not representable.
    OffsetOutOfRange,
    /// The target is not known.
    UnknownTarget,
}

/// A way to modify references, relocation by relocation.
pub trait HandleFixups: Sized {
    /// Index type of the entities that are modified.
    type EntityRef;

    /// What is kept of a modification beside the rewritten bytes.
    type ExtraData;

    /// Whether a relocation can be looked at.
    spec fn can_create(
        &self,
        entity: Temp<Self::EntityRef>,
        buffer: CursorView,
        snapshot: EntitiesSnapshot,
        entry: EntityRelocationEntry,
    ) -> bool;

    /// Whether something is the outcome of looking at a relocation.
    spec fn is_entry(
        &self,
        entity: Temp<Self::EntityRef>,
        buffer: CursorView,
        input_file: (FileId, EntitiesSnapshot),
        entry: EntityRelocationEntry,
        outcome: Result<Option<(Rewrite, Self::ExtraData)>, FixupError>,
    ) -> bool;

    /// Looks at a relocation of an entity: nothing, if it stays as it is, or else the rewrite that
    /// takes its place. Offsets are relative to the start of the entity.
    fn create_entry(
        &self,
        entity: Temp<Self::EntityRef>,
        buffer: Cursor<'_>,
        input_file: (FileId, &EntitiesSnapshot),
        entry: EntityRelocationEntry,
    ) -> (r: Result<Option<(Rewrite, Self::ExtraData)>, FixupError>)
        requires
            self.can_create(entity, buffer@, *input_file.1, entry),
        ensures
            self.is_entry(entity, buffer@, (input_file.0, *input_file.1), entry, r),
    ;
}

/// Modifies nothing.
#[verifier::reject_recursive_types(R)]
#[derive(Debug)]
pub struct NoFixup<R> {
    unused: PhantomData<R>,
}

impl<R> NoFixup<R> {
    pub fn new() -> (r: Self) {
        NoFixup { unused: PhantomData }
    }
}

impl<R> HandleFixups for NoFixup<R> {
    type EntityRef = R;

    type ExtraData = ();

    open spec fn can_create(
        &self,
        entity: Temp<R>,
        buffer: CursorView,
        snapshot: EntitiesSnapshot,
        entry: EntityRelocationEntry,
    ) -> bool {
        true
    }

    open spec fn is_entry(
        &self,
        entity: Temp<R>,
        buffer: CursorView,
        input_file: (FileId, EntitiesSnapshot),
        entry: EntityRelocationEntry,
        outcome: Result<Option<(Rewrite, ())>, FixupError>,
    ) -> bool {
        outcome matches Ok(None)
    }

    fn create_entry(
        &self,
        entity: Temp<R>,
        buffer: Cursor<'_>,
        input_file: (FileId, &EntitiesSnapshot),
        entry: EntityRelocationEntry,
    ) -> (r: Result<Option<(Rewrite, ())>, FixupError>) {
        Ok(None)
    }
}

/// A relocation of an entity, relative to the start of the entity.
pub open spec fn local_reloc(reloc: EntityRelocationEntry, start: int) -> EntityRelocationEntry {
    RelocationEntry { offset: (reloc.offset - start) as u32, ..reloc }
}

/// The cursor for a relocation of an entity: the places of the relocations around it are used.
pub open spec fn fixup_cursor(
    bytes: Seq<u8>,
    start: int,
    relocs: Seq<EntityRelocationEntry>,
    i: int,
) -> CursorView {
    CursorView {
        buffer: bytes,
        green: local_reloc(relocs[i], start).place(),
        red_before: if i > 0 {
            local_reloc(relocs[i - 1], start).place().1
        } else {
            0
        },
        red_after: if i + 1 < relocs.len() {
            relocs[i + 1].offset - start
        } else {
            bytes.len() as int
        },
    }
}

/// The rewrites among outcomes, in order.
pub open spec fn rewrites_of<E>(
    outcomes: Seq<Result<Option<(Rewrite, E)>, FixupError>>,
) -> Seq<Rewrite>
    decreases outcomes.len(),
{
    if outcomes.len() == 0 {
        Seq::empty()
    } else {
        let rest = rewrites_of(outcomes.drop_last());
        match outcomes.last() {
            Ok(Some((rewrite, _))) => rest.push(rewrite),
            _ => rest,
        }
    }
}

/// What is kept of the rewrites among outcomes, in order.
pub open spec fn extras_of<E>(
    outcomes: Seq<Result<Option<(Rewrite, E)>, FixupError>>,
) -> Seq<E>
    decreases outcomes.len(),
{
    if outcomes.len() == 0 {
        Seq::empty()
    } else {
        let rest = extras_of(outcomes.drop_last());
        match outcomes.last() {
            Ok(Some((_, extra))) => rest.push(extra),
            _ => rest,
        }
    }
}

/// The numbers of the rewrites among outcomes.
pub open spec fn rewritten_numbers<E>(
    outcomes: Seq<Result<Option<(Rewrite, E)>, FixupError>>,
) -> Set<int>
    decreases outcomes.len(),
{
    if outcomes.len() == 0 {
        Set::empty()
    } else {
        let rest = rewritten_numbers(outcomes.drop_last());
        match outcomes.last() {
            Ok(Some(_)) => rest.insert(outcomes.len() - 1),
            _ => rest,
        }
    }
}

/// Whether outcomes are those of looking at the first relocations of an entity, up to the first
/// failure.
pub open spec fn are_outcomes<H: HandleFixups>(
    handler: H,
    entity_ref: Temp<H::EntityRef>,
    input_file: (FileId, EntitiesSnapshot),
    bytes: Seq<u8>,
    start: int,
    relocs: Seq<EntityRelocationEntry>,
    outcomes: Seq<Result<Option<(Rewrite, H::ExtraData)>, FixupError>>,
) -> bool {
    &&& outcomes.len() <= relocs.len()
    &&& forall|i: int|
        0 <= i < outcomes.len() ==> handler.is_entry(
            entity_ref,
            fixup_cursor(bytes, start, relocs, i),
            input_file,
            local_reloc(relocs[i], start),
            #[trigger] outcomes[i],
        )
    &&& forall|i: int| 0 <= i < outcomes.len() - 1 ==> #[trigger] outcomes[i] is Ok
}

/// Looks at all relocations of an entity, and keeps the rewrites that take their places. Stops at
/// the first failure.
pub fn create_fixup_for_entity<H: HandleFixups>(
    entity: &mut EntityBodyCopy,
    entity_ref: Temp<H::EntityRef>,
    input_file: (FileId, &EntitiesSnapshot),
    entity_relocs: &[EntityRelocationEntry],
    handler: &H,
) -> (r: Result<Vec<H::ExtraData>, FixupError>)
    requires
        entity_relocs@.len() <= u32::MAX,
        forall|i: int|
            0 <= i < entity_relocs@.len() ==> {
                let reloc = #[trigger] entity_relocs@[i];
                let start = old(entity).original_range.start as int;
                &&& start <= reloc.offset
                &&& reloc.place().1 <= usize::MAX
                &&& handler.can_create(
                    entity_ref,
                    fixup_cursor(old(entity).bytes@, start, entity_relocs@, i),
                    *input_file.1,
                    local_reloc(reloc, start),
                )
            },
    ensures
        final(entity).bytes == old(entity).bytes,
        final(entity).original_range == old(entity).original_range,
        exists|outcomes: Seq<Result<Option<(Rewrite, H::ExtraData)>, FixupError>>|
            {
                &&& #[trigger] are_outcomes(
                    *handler,
                    entity_ref,
                    (input_file.0, *input_file.1),
                    old(entity).bytes@,
                    old(entity).original_range.start as int,
                    entity_relocs@,
                    outcomes,
                )
                &&& final(entity).fixups@ == old(entity).fixups@ + rewrites_of(outcomes)
                &&& bits_of(final(entity).filtered_relocs) == bits_of(
                    old(entity).filtered_relocs,
                ).union(rewritten_numbers(outcomes))
                &&& match r {
                    Ok(extras) => {
                        &&& outcomes.len() == entity_relocs@.len()
                        &&& outcomes.len() > 0 ==> outcomes.last() is Ok
                        &&& extras@ == extras_of(outcomes)
                    },
                    Err(error) => {
                        &&& outcomes.len() > 0
                        &&& outcomes.last() matches Err(e) && e == error
                    },
                }
            },
{
    let ghost before = *entity;
    let ghost start = entity.original_range.start as int;
    let ghost relocs = entity_relocs@;
    let ghost mut outcomes: Seq<Result<Option<(Rewrite, H::ExtraData)>, FixupError>> = Seq::empty();
    let ghost file = (input_file.0, *input_file.1);
    let entity_start: usize = entity.original_range.start;
    let mut result: Vec<H::ExtraData> = Vec::new();
    let mut red_before: usize = 0;
    let mut i: usize = 0;
    proof {
        assert(before.fixups@ + rewrites_of(outcomes) =~= before.fixups@);
        assert(bits_of(before.filtered_relocs).union(rewritten_numbers(outcomes)) =~= bits_of(
            before.filtered_relocs,
        ));
    }
    while i < entity_relocs.len()
        invariant
            i <= relocs.len() <= u32::MAX,
            relocs == entity_relocs@,
            before == *old(entity),
            start == before.original_range.start,
            entity_start == start,
            file == (input_file.0, *input_file.1),
            entity.bytes == before.bytes,
            entity.original_range == before.original_range,
            forall|i: int|
                0 <= i < relocs.len() ==> {
                    let reloc = #[trigger] relocs[i];
                    &&& start <= reloc.offset
                    &&& reloc.place().1 <= usize::MAX
                    &&& handler.can_create(
                        entity_ref,
                        fixup_cursor(before.bytes@, start, relocs, i),
                        *input_file.1,
                        local_reloc(reloc, start),
                    )
                },
            red_before == if i > 0 {
                local_reloc(relocs[i - 1], start).place().1
            } else {
                0
            },
            outcomes.len() == i,
            are_outcomes(*handler, entity_ref, file, before.bytes@, start, relocs, outcomes),
            forall|j: int| 0 <= j < outcomes.len() ==> #[trigger] outcomes[j] is Ok,
            entity.fixups@ == before.fixups@ + rewrites_of(outcomes),
            bits_of(entity.filtered_relocs) == bits_of(before.filtered_relocs).union(
                rewritten_numbers(outcomes),
            ),
            result@ == extras_of(outcomes),
        decreases relocs.len() - i,
    {
        let ghost done = outcomes;
        proof {
            assert(start <= relocs[i as int].offset);
            if i + 1 < relocs.len() {
                assert(start <= relocs[i + 1].offset);
            }
        }
        let red_after: usize = if i + 1 < entity_relocs.len() {
            entity_relocs[i + 1].offset as usize - entity_start
        } else {
            entity.bytes.len()
        };
        let reloc = entity_relocs[i].shift_left(entity_start);
        assert(reloc == local_reloc(relocs[i as int], start));
        let green = reloc.relocation_range();
        let reloc_end: usize = green.end;
        let cursor = Cursor::new(entity.bytes.as_slice(), green, red_before, red_after);
        assert(cursor@ == fixup_cursor(before.bytes@, start, relocs, i as int));
        let outcome = handler.create_entry(entity_ref, cursor, input_file, reloc);
        proof {
            outcomes = done.push(outcome);
            assert(outcomes.drop_last() =~= done);
            assert forall|j: int| 0 <= j < outcomes.len() implies handler.is_entry(
                entity_ref,
                fixup_cursor(before.bytes@, start, relocs, j),
                file,
                local_reloc(relocs[j], start),
                #[trigger] outcomes[j],
            ) by {
                if j < done.len() {
                    assert(outcomes[j] == done[j]);
                }
            }
            assert(are_outcomes(*handler, entity_ref, file, before.bytes@, start, relocs, outcomes));
        }
        match outcome {
            Ok(Some((rewrite, extra_data))) => {
                entity.fixups.push(rewrite);
                let _ = bitset_insert(&mut entity.filtered_relocs, i);
                result.push(extra_data);
                proof {
                    assert(entity.fixups@ =~= before.fixups@ + rewrites_of(outcomes));
                    assert(bits_of(entity.filtered_relocs) =~= bits_of(
                        before.filtered_relocs,
                    ).union(rewritten_numbers(outcomes)));
                }
            },
            Ok(None) => {},
            Err(error) => {
                return Err(error);
            },
        }
        red_before = reloc_end;
        i = i + 1;
    }
    Ok(result)
}

} // verus!
