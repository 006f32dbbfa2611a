//! Sizes of sections, before they are written.
use crate::emit::generate::bodies_bytes;
use crate::emit::relocation::encode::lemma_fixed_leb_len;
use crate::index::TempIndex;
use crate::layouts::data::builder::DataKind;
use crate::layouts::data::sealed::{
    parts_bytes, parts_valid, segments_encodable, segments_encoding, SealedDataItem,
    SealedDataSegment,
};
use crate::layouts::data::{encodable, segment_header};
use crate::layouts::elements::{
    element_start, elements_encoding, items_bytes, ElementKind, ElementType, SealedElementSegment,
};
use crate::typed::module::DefinedFunction;
use crate::typed::{FunctionRef, GlobalRef, MemoryRef, TableRef};
use vstd::prelude::*;

verus! {

/// The least size that is too large.
pub const TOO_LARGE: u64 = 0x1_0000_0000;

/// A size, or the least one that is too large.
pub open spec fn capped(size: int) -> int {
    if size > u32::MAX {
        TOO_LARGE as int
    } else {
        size
    }
}

/// Adds a size to another one.
pub(crate) fn grow(total: u64, more: u64) -> (r: u64)
    requires
        total <= TOO_LARGE,
    ensures
        r == capped(total + more),
{
    if more > u32::MAX as u64 || total + more > u32::MAX as u64 {
        TOO_LARGE
    } else {
        total + more
    }
}

/// The size of the bodies of functions, each behind its length.
pub(crate) fn bodies_size(defined: &[DefinedFunction]) -> (r: u64)
    requires
        forall|i: int| 0 <= i < defined@.len() ==> (#[trigger] defined@[i]).body.wf(),
    ensures
        r == capped(bodies_bytes(defined@).len() as int),
{
    let ghost all = defined@;
    let mut total: u64 = 0;
    let mut i: usize = 0;
    assert(all.take(0) =~= Seq::<DefinedFunction>::empty());
    while i < defined.len()
        invariant
            i <= all.len(),
            all == defined@,
            forall|i: int| 0 <= i < all.len() ==> (#[trigger] all[i]).body.wf(),
            total == capped(bodies_bytes(all.take(i as int)).len() as int),
        decreases all.len() - i,
    {
        proof {
            assert(all[i as int].body.wf());
            assert(all.take(i + 1).drop_last() =~= all.take(i as int));
            assert(all.take(i + 1).last() == all[i as int]);
            lemma_fixed_leb_len(all[i as int].body.emitted().len() as int, 5);
        }
        total = grow(total, defined[i].body.len() as u64);
        total = grow(total, 5);
        i = i + 1;
    }
    assert(all.take(i as int) =~= all);
    total
}

/// Whether an element segment can be written.
pub open spec fn element_writable(segment: SealedElementSegment<FunctionRef>) -> bool {
    &&& segment.kind matches ElementKind::Active { location, .. } ==> location.offset_spec()
        <= i32::MAX
    &&& segment.parts@.len() <= u32::MAX
    &&& element_start(segment.kind) + segment.parts@.len() <= u32::MAX
    &&& forall|k: int|
        0 <= k < segment.parts@.len() ==> (#[trigger] segment.parts@[k]).id() + 1 < u32::MAX
}

/// Whether element segments can be written.
pub open spec fn elements_writable(segments: Seq<SealedElementSegment<FunctionRef>>) -> bool {
    &&& segments.len() <= u32::MAX
    &&& forall|s: int| 0 <= s < segments.len() ==> element_writable(#[trigger] segments[s])
}

fn check_element(segment: &SealedElementSegment<FunctionRef>) -> (r: bool)
    ensures
        r == element_writable(*segment),
{
    let start: u32 = match &segment.kind {
        ElementKind::Active { location, .. } => {
            let offset: u32 = location.offset();
            if offset > i32::MAX as u32 {
                return false;
            }
            offset
        },
        _ => 0,
    };
    let count: usize = segment.parts.len();
    if count > u32::MAX as usize || start as u64 + count as u64 > u32::MAX as u64 {
        return false;
    }
    let parts = segment.parts.as_slice();
    let mut k: usize = 0;
    while k < parts.len()
        invariant
            k <= parts@.len(),
            parts@ == segment.parts@,
            forall|j: int| 0 <= j < k ==> (#[trigger] parts@[j]).id() + 1 < u32::MAX,
        decreases parts@.len() - k,
    {
        if parts[k].as_u32() >= u32::MAX - 1 {
            assert(!(segment.parts@[k as int].id() + 1 < u32::MAX));
            return false;
        }
        k = k + 1;
    }
    true
}

/// Whether element segments can be written.
pub(crate) fn check_elements(segments: &[SealedElementSegment<FunctionRef>]) -> (r: bool)
    ensures
        r == elements_writable(segments@),
{
    if segments.len() > u32::MAX as usize {
        return false;
    }
    let mut s: usize = 0;
    while s < segments.len()
        invariant
            s <= segments@.len(),
            forall|j: int| 0 <= j < s ==> element_writable(#[trigger] segments@[j]),
        decreases segments@.len() - s,
    {
        if !check_element(&segments[s]) {
            assert(!element_writable(segments@[s as int]));
            return false;
        }
        s = s + 1;
    }
    true
}

proof fn lemma_items_size(items: Seq<FunctionRef>)
    ensures
        items_bytes(items).len() == 5 * items.len(),
    decreases items.len(),
{
    if items.len() > 0 {
        lemma_items_size(items.drop_last());
        lemma_fixed_leb_len(items.last().id() as int, 5);
    }
}

fn element_start_size(kind: &ElementKind<TableRef, GlobalRef>) -> (r: u64)
    requires
        kind matches ElementKind::Active { location, .. } ==> location.offset_spec() <= i32::MAX,
    ensures
        r == capped(FunctionRef::start_bytes(*kind).len() as int),
{
    match kind {
        ElementKind::Active { table_ref, location } => {
            proof {
                lemma_fixed_leb_len(table_ref.id() as int, 5);
            }
            let size: u64 = grow(0, location.to_init_expr().len() as u64);
            if table_ref.as_u32() == 0 {
                grow(size, 1)
            } else {
                grow(size, 7)
            }
        },
        _ => 2,
    }
}

/// The size of element segments.
pub(crate) fn elements_size(segments: &[SealedElementSegment<FunctionRef>]) -> (r: u64)
    requires
        elements_writable(segments@),
    ensures
        r == capped(elements_encoding(segments@).len() as int),
{
    let ghost all = segments@;
    let mut total: u64 = 0;
    let mut s: usize = 0;
    assert(all.take(0) =~= Seq::<SealedElementSegment<FunctionRef>>::empty());
    while s < segments.len()
        invariant
            s <= all.len(),
            all == segments@,
            elements_writable(all),
            total == capped(elements_encoding(all.take(s as int)).len() as int),
        decreases all.len() - s,
    {
        let segment = &segments[s];
        proof {
            assert(element_writable(all[s as int]));
            assert(all.take(s + 1).drop_last() =~= all.take(s as int));
            assert(all.take(s + 1).last() == all[s as int]);
            lemma_items_size(segment.parts@);
            lemma_fixed_leb_len(segment.parts@.len() as int, 5);
        }
        total = grow(total, element_start_size(&segment.kind));
        total = grow(total, 5 * segment.parts.len() as u64);
        total = grow(total, 5);
        s = s + 1;
    }
    assert(all.take(s as int) =~= all);
    total
}

fn check_data(segment: &SealedDataSegment) -> (r: bool)
    ensures
        r == (parts_valid(segment.parts@) && encodable(segment.va_address)),
{
    if let DataKind::Active { location, .. } = &segment.va_address {
        if location.offset() > i32::MAX as u32 {
            return false;
        }
    }
    let parts = segment.parts.as_slice();
    let mut i: usize = 0;
    while i < parts.len()
        invariant
            i <= parts@.len(),
            parts@ == segment.parts@,
            forall|j: int| 0 <= j < i ==> (#[trigger] parts@[j]).defined_entity.body.wf(),
        decreases parts@.len() - i,
    {
        if !parts[i].defined_entity.body.is_valid() {
            assert(!segment.parts@[i as int].defined_entity.body.wf());
            return false;
        }
        i = i + 1;
    }
    true
}

/// Whether data segments can be written.
pub(crate) fn check_segments(segments: &[SealedDataSegment]) -> (r: bool)
    ensures
        r == segments_encodable(segments@),
{
    let mut s: usize = 0;
    while s < segments.len()
        invariant
            s <= segments@.len(),
            forall|j: int|
                0 <= j < s ==> parts_valid((#[trigger] segments@[j]).parts@) && encodable(
                    segments@[j].va_address,
                ),
        decreases segments@.len() - s,
    {
        if !check_data(&segments[s]) {
            assert(!(parts_valid(segments@[s as int].parts@) && encodable(
                segments@[s as int].va_address,
            )));
            return false;
        }
        s = s + 1;
    }
    true
}

fn header_size(kind: &DataKind<MemoryRef>) -> (r: u64)
    requires
        encodable(*kind),
    ensures
        r == capped(segment_header(*kind).len() as int),
{
    match kind {
        DataKind::Passive => 1,
        DataKind::Active { memory_ref, location } => {
            proof {
                lemma_fixed_leb_len(memory_ref.id() as int, 5);
            }
            let size: u64 = grow(0, location.to_init_expr().len() as u64);
            if memory_ref.as_u32() == 0 {
                grow(size, 1)
            } else {
                grow(size, 6)
            }
        },
    }
}

fn parts_size(parts: &[SealedDataItem]) -> (r: u64)
    requires
        parts_valid(parts@),
    ensures
        r == capped(parts_bytes(parts@).len() as int),
{
    let ghost all = parts@;
    let mut total: u64 = 0;
    let mut i: usize = 0;
    assert(all.take(0) =~= Seq::<SealedDataItem>::empty());
    while i < parts.len()
        invariant
            i <= all.len(),
            all == parts@,
            parts_valid(all),
            total == capped(parts_bytes(all.take(i as int)).len() as int),
        decreases all.len() - i,
    {
        proof {
            assert(all[i as int].defined_entity.body.wf());
            assert(all.take(i + 1).drop_last() =~= all.take(i as int));
            assert(all.take(i + 1).last() == all[i as int]);
        }
        total = grow(total, parts[i].defined_entity.body.len() as u64);
        i = i + 1;
    }
    assert(all.take(i as int) =~= all);
    total
}

/// The size of data segments.
pub(crate) fn segments_size(segments: &[SealedDataSegment]) -> (r: u64)
    requires
        segments_encodable(segments@),
    ensures
        r == capped(segments_encoding(segments@).len() as int),
{
    let ghost all = segments@;
    let mut total: u64 = 0;
    let mut s: usize = 0;
    assert(all.take(0) =~= Seq::<SealedDataSegment>::empty());
    while s < segments.len()
        invariant
            s <= all.len(),
            all == segments@,
            segments_encodable(all),
            total == capped(segments_encoding(all.take(s as int)).len() as int),
        decreases all.len() - s,
    {
        let segment = &segments[s];
        proof {
            assert(parts_valid(all[s as int].parts@));
            assert(all.take(s + 1).drop_last() =~= all.take(s as int));
            assert(all.take(s + 1).last() == all[s as int]);
            lemma_fixed_leb_len(segment.bytes().len() as int, 5);
        }
        total = grow(total, header_size(&segment.va_address));
        total = grow(total, parts_size(segment.parts.as_slice()));
        total = grow(total, 5);
        s = s + 1;
    }
    assert(all.take(s as int) =~= all);
    total
}

} // verus!
