//! Bodies of entities.
use crate::emit::modify::Rewrite;
use crate::linkage::reloc::EntityRelocationEntry;
use core::ops::Range;
use cranelift_bitset::CompoundBitSet;
use vstd::prelude::*;
use vstd::slice::slice_subrange;

verus! {

/// `cranelift_bitset::CompoundBitSet`, a growing set of small numbers.
#[verifier::external_type_specification]
#[verifier::external_body]
#[verifier::reject_recursive_types(T)]
pub struct ExCompoundBitSet<T>(CompoundBitSet<T>);

/// The numbers in a bit set.
pub uninterp spec fn bits_of(set: CompoundBitSet<usize>) -> Set<int>;

/// `CompoundBitSet::new`: the empty set.
#[verifier::external_body]
fn bitset_new() -> (r: CompoundBitSet<usize>)
    ensures
        bits_of(r) == Set::<int>::empty(),
{
    CompoundBitSet::new()
}

/// `CompoundBitSet::insert`: adds a number, and tells whether it is new. The function panics on
/// numbers of more than 32 bits.
#[verifier::external_body]
pub(crate) fn bitset_insert(set: &mut CompoundBitSet<usize>, i: usize) -> (r: bool)
    requires
        i <= u32::MAX,
    ensures
        bits_of(*final(set)) == bits_of(*old(set)).insert(i as int),
        r == !bits_of(*old(set)).contains(i as int),
{
    set.insert(i)
}

/// `CompoundBitSet::contains`: whether a number is in the set.
#[verifier::external_body]
pub(crate) fn bitset_contains(set: &CompoundBitSet<usize>, i: usize) -> (r: bool)
    ensures
        r == bits_of(*set).contains(i as int),
{
    set.contains(i)
}

/// `CompoundBitSet::clone`: a set of the same numbers.
#[verifier::external_body]
pub(crate) fn bitset_clone(set: &CompoundBitSet<usize>) -> (r: CompoundBitSet<usize>)
    ensures
        bits_of(r) == bits_of(*set),
{
    set.clone()
}

/// A body that is copied from an input file.
#[derive(Debug)]
pub struct EntityBodyCopy {
    pub bytes: Vec<u8>,
    /// The place of the bytes in the input file.
    pub original_range: Range<usize>,
    /// Changes to the bytes, in order.
    pub fixups: Vec<Rewrite>,
    /// Numbers of the original relocations that the changes make obsolete.
    pub filtered_relocs: CompoundBitSet<usize>,
}

/// The body of an entity.
#[derive(Debug)]
pub enum EntityBody {
    Copied(EntityBodyCopy),
    /// A body that no input file has. The offsets of its relocations are relative to its start.
    New { new_relocs: Vec<EntityRelocationEntry>, new_bytes: Vec<u8> },
}

/// Whether rewrites of `len` bytes are in order and do not overlap.
pub open spec fn valid_fixups(fixups: Seq<Rewrite>, len: int) -> bool {
    &&& forall|i: int|
        0 <= i < fixups.len() ==> (#[trigger] fixups[i]).old_range.start
            <= fixups[i].old_range.end <= len
    &&& forall|i: int|
        0 < i < fixups.len() ==> fixups[i - 1].old_range.end <= (
        #[trigger] fixups[i]).old_range.start
}

/// End of the last rewritten range.
pub open spec fn rewritten_end(fixups: Seq<Rewrite>) -> int {
    if fixups.len() == 0 {
        0
    } else {
        fixups.last().old_range.end as int
    }
}

/// The bytes up to the end of the last rewritten range, with all rewrites made.
pub open spec fn rewritten(bytes: Seq<u8>, fixups: Seq<Rewrite>) -> Seq<u8>
    decreases fixups.len(),
{
    if fixups.len() == 0 {
        Seq::empty()
    } else {
        rewritten(bytes, fixups.drop_last()) + bytes.subrange(
            rewritten_end(fixups.drop_last()),
            fixups.last().old_range.start as int,
        ) + fixups.last().new_bytes@
    }
}

/// The bytes with all rewrites made.
pub open spec fn patched(bytes: Seq<u8>, fixups: Seq<Rewrite>) -> Seq<u8> {
    rewritten(bytes, fixups) + bytes.skip(rewritten_end(fixups))
}

/// Without rewrites the bytes stay as they are.
pub proof fn lemma_nothing_patched(bytes: Seq<u8>)
    ensures
        patched(bytes, Seq::empty()) == bytes,
{
    assert(patched(bytes, Seq::empty()) =~= bytes);
}

/// Sum of the growths of rewrites.
pub open spec fn total_growth(fixups: Seq<Rewrite>) -> int
    decreases fixups.len(),
{
    if fixups.len() == 0 {
        0
    } else {
        total_growth(fixups.drop_last()) + fixups.last().growth()
    }
}

/// The length changes by the growths of the rewrites.
pub proof fn lemma_patched_len(bytes: Seq<u8>, fixups: Seq<Rewrite>)
    requires
        valid_fixups(fixups, bytes.len() as int),
    ensures
        patched(bytes, fixups).len() == bytes.len() + total_growth(fixups),
        rewritten(bytes, fixups).len() == rewritten_end(fixups) + total_growth(fixups),
        0 <= rewritten_end(fixups) <= bytes.len(),
    decreases fixups.len(),
{
    if fixups.len() > 0 {
        let init = fixups.drop_last();
        assert(valid_fixups(init, bytes.len() as int)) by {
            assert forall|i: int| 0 <= i < init.len() implies (
            #[trigger] init[i]).old_range.start <= init[i].old_range.end <= bytes.len() by {
                assert(fixups[i].old_range.start <= fixups[i].old_range.end);
            }
            assert forall|i: int| 0 < i < init.len() implies init[i - 1].old_range.end <= (
            #[trigger] init[i]).old_range.start by {
                assert(fixups[i - 1].old_range.end <= fixups[i].old_range.start);
            }
        }
        lemma_patched_len(bytes, init);
        if init.len() > 0 {
            assert(fixups[fixups.len() - 2].old_range.end <= fixups[fixups.len()
                - 1].old_range.start);
        }
        assert(fixups[fixups.len() - 1].old_range.start <= fixups[fixups.len() - 1].old_range.end);
    }
}

impl EntityBodyCopy {
    /// Bytes of a file, without changes.
    pub fn new(bytes: Vec<u8>, original_range: Range<usize>) -> (r: Self)
        ensures
            r.bytes@ == bytes@,
            r.original_range == original_range,
            r.fixups@ == Seq::<Rewrite>::empty(),
            bits_of(r.filtered_relocs) == Set::<int>::empty(),
    {
        EntityBodyCopy {
            bytes,
            original_range,
            fixups: Vec::new(),
            filtered_relocs: bitset_new(),
        }
    }
}

impl EntityBody {
    /// The bytes of the body, with all changes made.
    pub open spec fn emitted(&self) -> Seq<u8> {
        match self {
            EntityBody::Copied(copy) => patched(copy.bytes@, copy.fixups@),
            EntityBody::New { new_bytes, .. } => new_bytes@,
        }
    }

    pub open spec fn wf(&self) -> bool {
        match self {
            EntityBody::Copied(copy) => valid_fixups(copy.fixups@, copy.bytes@.len() as int),
            EntityBody::New { .. } => true,
        }
    }

    /// Whether the changes of a copied body are in order, and in its bytes.
    pub fn is_valid(&self) -> (r: bool)
        ensures
            r == self.wf(),
    {
        match self {
            EntityBody::New { .. } => true,
            EntityBody::Copied(copy) => {
                let ghost fixups = copy.fixups@;
                let len: usize = copy.bytes.len();
                let mut i: usize = 0;
                while i < copy.fixups.len()
                    invariant
                        i <= fixups.len(),
                        fixups == copy.fixups@,
                        len == copy.bytes@.len(),
                        *self == EntityBody::Copied(*copy),
                        forall|j: int|
                            0 <= j < i ==> (#[trigger] fixups[j]).old_range.start
                                <= fixups[j].old_range.end <= len,
                        forall|j: int|
                            0 < j < i ==> fixups[j - 1].old_range.end <= (
                            #[trigger] fixups[j]).old_range.start,
                    decreases fixups.len() - i,
                {
                    let range = &copy.fixups[i].old_range;
                    if range.start > range.end || range.end > len {
                        assert(!(fixups[i as int].old_range.start <= fixups[i as int].old_range.end
                            <= len));
                        return false;
                    }
                    if i > 0 && copy.fixups[i - 1].old_range.end > range.start {
                        assert(!(fixups[i - 1].old_range.end
                            <= fixups[i as int].old_range.start));
                        return false;
                    }
                    i = i + 1;
                }
                true
            },
        }
    }

    /// A body without relocations.
    pub fn new_empty(new_bytes: Vec<u8>) -> (r: Self)
        ensures
            r == (EntityBody::New { new_relocs: r->New_new_relocs, new_bytes }),
            r->New_new_relocs@ == Seq::<EntityRelocationEntry>::empty(),
            r.wf(),
            r.emitted() == new_bytes@,
    {
        EntityBody::New { new_relocs: Vec::new(), new_bytes }
    }

    /// Number of bytes of the body, with all changes made.
    pub fn len(&self) -> (r: usize)
        requires
            self.wf(),
        ensures
            r == self.emitted().len(),
    {
        match self {
            EntityBody::New { new_bytes, .. } => new_bytes.len(),
            EntityBody::Copied(copy) => {
                let mut out = Vec::new();
                self.append_to(&mut out);
                assert(out@ =~= self.emitted());
                out.len()
            },
        }
    }

    /// Appends the bytes of the body, with all changes made.
    pub fn append_to(&self, writer: &mut Vec<u8>)
        requires
            self.wf(),
        ensures
            final(writer)@ == old(writer)@ + self.emitted(),
    {
        let ghost before = writer@;
        match self {
            EntityBody::New { new_bytes, .. } => {
                writer.extend_from_slice(new_bytes.as_slice());
                assert(writer@ =~= before + self.emitted());
            },
            EntityBody::Copied(copy) => {
                let mut src_offset: usize = 0;
                let mut i: usize = 0;
                let bytes = copy.bytes.as_slice();
                let ghost fixups = copy.fixups@;
                assert(fixups.take(0) =~= Seq::<Rewrite>::empty());
                assert(before + rewritten(bytes@, fixups.take(0)) =~= before);
                while i < copy.fixups.len()
                    invariant
                        i <= fixups.len(),
                        fixups == copy.fixups@,
                        bytes@ == copy.bytes@,
                        valid_fixups(fixups, bytes@.len() as int),
                        src_offset == rewritten_end(fixups.take(i as int)),
                        src_offset <= bytes@.len(),
                        i > 0 ==> src_offset == fixups[i - 1].old_range.end,
                        i == 0 ==> src_offset == 0,
                        writer@ =~= before + rewritten(bytes@, fixups.take(i as int)),
                    decreases fixups.len() - i,
                {
                    let fixup = &copy.fixups[i];
                    proof {
                        let longer = fixups.take(i + 1);
                        assert(longer.drop_last() =~= fixups.take(i as int));
                        assert(longer.last() == fixups[i as int]);
                        if i > 0 {
                            assert(fixups[i - 1].old_range.end <= fixups[i as int].old_range.start);
                        }
                        assert(fixups[i as int].old_range.start <= fixups[i as int].old_range.end
                            <= bytes@.len());
                    }
                    writer.extend_from_slice(
                        slice_subrange(bytes, src_offset, fixup.old_range.start),
                    );
                    writer.extend_from_slice(fixup.new_bytes.as_slice());
                    src_offset = fixup.old_range.end;
                    i = i + 1;
                }
                assert(fixups.take(i as int) =~= fixups);
                writer.extend_from_slice(slice_subrange(bytes, src_offset, bytes.len()));
                assert(writer@ =~= before + self.emitted());
            },
        }
    }
}

} // verus!
