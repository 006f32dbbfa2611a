//! Builder of data layouts.
use crate::index::{
    grown, lemma_insert_then_get, slot_at, GappedMap, MAX_VALUE, PrimaryMap, Temp, TempIndex,
    WithStart,
};
use crate::emit::relocation::encode::{fixed_leb, lemma_fixed_leb_len};
use crate::layouts::data::sealed::{
    parts_bytes, segments_encoding, DataItemPlace, MemLayoutSealed, SealedDataItem,
    SealedDataSegment,
};
use crate::layouts::data::{
    calculate_padding, data_segment_header_start, encodable, lemma_padding_aligns,
    lemma_power2_positive, padding_to, power2, power_of_two, segment_header, zeros,
    DEFAULT_HEAP_START, DataSymbolRef, DefinedDataChunk, ImportedDataChunk, Offsets,
};
use crate::layouts::{PartId, SegmentId, SegmentPlacement, VirtualSpaceId};
use crate::typed::entities::{CollectionView, EntityCollection, ImportOrDefined};
use crate::typed::MemoryRef;
use crate::text::{contains, occurs};
use vstd::prelude::*;

verus! {

/// Use of a segment.
#[derive(Clone, Copy, Debug, PartialEq, Eq, Hash, Structural)]
pub enum SegmentFlags {
    /// Data that is not modified after initialization.
    Readonly,
    /// Data that can be modified at run time.
    Writable,
    /// Zero initialized data.
    ZeroInit,
    /// Data that is copied to thread local memory at startup.
    Tls,
}

/// The use of a segment with the given name.
pub open spec fn flags_of(name: Seq<char>) -> SegmentFlags {
    if occurs(name, ".bss"@) {
        SegmentFlags::ZeroInit
    } else if occurs(name, ".rodata"@) {
        SegmentFlags::Readonly
    } else if occurs(name, ".tls"@) {
        SegmentFlags::Tls
    } else {
        SegmentFlags::Writable
    }
}

impl SegmentFlags {
    /// The use of a segment, by the parts of its name.
    pub fn from_name(name: &str) -> (r: Self)
        ensures
            r == flags_of(name@),
    {
        if contains(name, ".bss") {
            SegmentFlags::ZeroInit
        } else if contains(name, ".rodata") {
            SegmentFlags::Readonly
        } else if contains(name, ".tls") {
            SegmentFlags::Tls
        } else {
            SegmentFlags::Writable
        }
    }
}

/// A segment of a virtual space.
#[derive(Debug, PartialEq, Eq)]
pub struct DataSegmentSpec {
    pub vs_id: VirtualSpaceId,
    pub name: String,
    /// Alignment as a power of two.
    pub align: u8,
    pub segment_flags: SegmentFlags,
}

/// How data is placed.
#[derive(Copy, Clone, Debug, PartialEq, Eq, Hash, PartialOrd, Ord)]
pub enum DataKind<OwnerId> {
    /// Placed in a memory when the module is instantiated.
    Active { memory_ref: OwnerId, location: SegmentPlacement },
    /// Placed at run time.
    Passive,
}

impl<OwnerId> DataKind<OwnerId> {
    pub fn is_active(&self) -> (r: bool)
        ensures
            r == (*self is Active),
    {
        match self {
            DataKind::Active { .. } => true,
            DataKind::Passive => false,
        }
    }

    pub fn location(&self) -> (r: Option<SegmentPlacement>)
        ensures
            r == match *self {
                DataKind::Active { location, .. } => Some(location),
                DataKind::Passive => None,
            },
    {
        match self {
            DataKind::Active { location, .. } => Some(*location),
            DataKind::Passive => None,
        }
    }

    pub fn memory(&self) -> (r: Option<OwnerId>)
        where OwnerId: Copy
        ensures
            r == match *self {
                DataKind::Active { memory_ref, .. } => Some(memory_ref),
                DataKind::Passive => None,
            },
    {
        match self {
            DataKind::Active { memory_ref, .. } => Some(*memory_ref),
            DataKind::Passive => None,
        }
    }
}

/// An item with its index.
pub type IndexedItem = (DataSymbolRef, DefinedDataChunk);

/// The items of a segment, in order of their indices.
pub open spec fn items_of(items: Seq<DefinedDataChunk>, segment: int) -> Seq<IndexedItem>
    decreases items.len(),
{
    if items.len() == 0 {
        Seq::empty()
    } else {
        let rest = items_of(items.drop_last(), segment);
        if items.last().entity_type.segment_id.id() == segment {
            rest.push((DataSymbolRef { id: (items.len() - 1) as u32 }, items.last()))
        } else {
            rest
        }
    }
}

/// Number of bytes of an item.
pub open spec fn size_of(item: IndexedItem) -> nat {
    item.1.body.emitted().len()
}

pub open spec fn alignment_of(item: IndexedItem) -> int {
    power2(item.1.entity_type.alignment as nat) as int
}

/// The address behind the last of some items that are placed from `start` on, each at the first
/// address that its alignment allows.
pub open spec fn end_address(items: Seq<IndexedItem>, start: int) -> int
    decreases items.len(),
{
    if items.len() == 0 {
        start
    } else {
        let before = end_address(items.drop_last(), start);
        before + padding_to(before, alignment_of(items.last())) + size_of(items.last())
    }
}

/// The address of an item.
pub open spec fn item_address(items: Seq<IndexedItem>, start: int, k: int) -> int {
    let before = end_address(items.take(k), start);
    before + padding_to(before, alignment_of(items[k]))
}

/// Number of parts that items and the padding between them make up.
pub open spec fn part_count(items: Seq<IndexedItem>, start: int) -> int
    decreases items.len(),
{
    if items.len() == 0 {
        0
    } else {
        let init = items.drop_last();
        part_count(init, start) + if padding_to(
            end_address(init, start),
            alignment_of(items.last()),
        ) > 0 {
            2int
        } else {
            1
        }
    }
}

/// Whether a part is padding.
pub open spec fn is_padding(part: SealedDataItem, len: int, segment: int) -> bool {
    &&& part.item_id is None
    &&& part.defined_entity.entity_type.segment_id.id() == segment
    &&& part.defined_entity.entity_type.alignment == 0
    &&& part.defined_entity.name matches Some(name) && name@ == "padding"@
    &&& part.defined_entity.body.wf()
    &&& part.defined_entity.body.emitted() == zeros(len as nat)
}

/// Whether parts are the items in order, with padding where alignment asks for it.
pub open spec fn parts_match(
    parts: Seq<SealedDataItem>,
    items: Seq<IndexedItem>,
    start: int,
    segment: int,
) -> bool
    decreases items.len(),
{
    if items.len() == 0 {
        parts.len() == 0
    } else {
        let init = items.drop_last();
        let padding = padding_to(end_address(init, start), alignment_of(items.last()));
        &&& parts.len() > 0
        &&& parts.last() == (SealedDataItem {
            defined_entity: items.last().1,
            item_id: Some(items.last().0),
        })
        &&& if padding > 0 {
            &&& parts.len() > 1
            &&& is_padding(parts[parts.len() - 2], padding, segment)
            &&& parts_match(parts.take(parts.len() - 2), init, start, segment)
        } else {
            parts_match(parts.drop_last(), init, start, segment)
        }
    }
}

/// The place of an item of a segment whose data starts at `file` in the section.
pub open spec fn item_place(
    items: Seq<IndexedItem>,
    start: int,
    file: int,
    segment: int,
    k: int,
) -> DataItemPlace {
    let address = item_address(items, start, k);
    DataItemPlace {
        offsets: Offsets {
            section_offset: (file + (address - start)) as usize,
            va_address: address as usize,
        },
        segment_id: SegmentId { id: segment as u32 },
        part_id: PartId { id: (part_count(items.take(k + 1), start) - 1) as u32 },
    }
}

/// The places after those of all items of a segment were added.
pub open spec fn placed(
    slots: Seq<Option<DataItemPlace>>,
    items: Seq<IndexedItem>,
    start: int,
    file: int,
    segment: int,
) -> Seq<Option<DataItemPlace>>
    decreases items.len(),
{
    if items.len() == 0 {
        slots
    } else {
        let id = items.last().0.id();
        grown(placed(slots, items.drop_last(), start, file, segment), id as nat).update(
            id as int,
            Some(item_place(items, start, file, segment, items.len() - 1)),
        )
    }
}

/// Addresses never fall.
pub(crate) proof fn lemma_end_address(items: Seq<IndexedItem>, start: int, k: int)
    requires
        0 <= start,
        0 <= k <= items.len(),
    ensures
        start <= end_address(items.take(k), start) <= end_address(items, start),
        part_count(items.take(k), start) <= part_count(items, start) <= 2 * items.len(),
        0 <= k <= part_count(items.take(k), start),
    decreases items.len(),
{
    if items.len() > 0 {
        let init = items.drop_last();
        lemma_power2_positive(items.last().1.entity_type.alignment as nat);
        if k < items.len() {
            lemma_end_address(init, start, k);
            assert(init.take(k) =~= items.take(k));
        } else {
            lemma_end_address(init, start, k - 1);
            assert(init.take(k - 1) =~= init);
            assert(items.take(k) =~= items);
        }
    } else {
        assert(items.take(k) =~= items);
    }
}

/// An item ends where the next one may start.
pub(crate) proof fn lemma_item_end(items: Seq<IndexedItem>, start: int, k: int)
    requires
        0 <= start,
        0 <= k < items.len(),
    ensures
        item_address(items, start, k) + size_of(items[k]) == end_address(items.take(k + 1), start),
        start <= item_address(items, start, k),
        item_address(items, start, k) + size_of(items[k]) <= end_address(items, start),
{
    assert(items.take(k + 1).drop_last() =~= items.take(k));
    lemma_end_address(items, start, k + 1);
    lemma_end_address(items, start, k);
    lemma_power2_positive(items[k].1.entity_type.alignment as nat);
}

/// Every item starts at a multiple of its alignment.
pub proof fn lemma_items_are_aligned(items: Seq<IndexedItem>, start: int, k: int)
    requires
        0 <= start,
        0 <= k < items.len(),
    ensures
        item_address(items, start, k) % alignment_of(items[k]) == 0,
{
    lemma_end_address(items, start, k);
    lemma_power2_positive(items[k].1.entity_type.alignment as nat);
    lemma_padding_aligns(
        end_address(items.take(k), start),
        alignment_of(items[k]),
    );
}

/// Items do not overlap.
pub proof fn lemma_items_do_not_overlap(items: Seq<IndexedItem>, start: int, i: int, j: int)
    requires
        0 <= start,
        0 <= i < j < items.len(),
    ensures
        item_address(items, start, i) + size_of(items[i]) <= item_address(items, start, j),
{
    lemma_item_end(items, start, i);
    lemma_end_address(items.take(j), start, i + 1);
    assert(items.take(j).take(i + 1) =~= items.take(i + 1));
    lemma_end_address(items, start, j);
    lemma_power2_positive(items[j].1.entity_type.alignment as nat);
}

/// Sorts the items by their segments.
fn group_items(items: Vec<DefinedDataChunk>, count: usize) -> (r: Vec<Vec<IndexedItem>>)
    requires
        items@.len() <= MAX_VALUE,
        forall|i: int|
            0 <= i < items@.len() ==> (#[trigger] items@[i]).entity_type.segment_id.id() < count,
    ensures
        r@.len() == count,
        forall|s: int| 0 <= s < count ==> (#[trigger] r@[s])@ == items_of(items@, s),
{
    let ghost all = items@;
    let mut groups: Vec<Vec<IndexedItem>> = Vec::new();
    while groups.len() < count
        invariant
            groups@.len() <= count,
            forall|s: int| 0 <= s < groups@.len() ==> (#[trigger] groups@[s])@ == Seq::<
                IndexedItem,
            >::empty(),
        decreases count - groups@.len(),
    {
        groups.push(Vec::new());
    }
    let mut next: usize = 0;
    assert(all.take(0) =~= Seq::<DefinedDataChunk>::empty());
    for item in it: items
        invariant
            it.seq() == all,
            next == it.index(),
            all.len() <= MAX_VALUE,
            groups@.len() == count,
            forall|i: int|
                0 <= i < all.len() ==> (#[trigger] all[i]).entity_type.segment_id.id() < count,
            forall|s: int|
                0 <= s < count ==> (#[trigger] groups@[s])@ == items_of(all.take(next as int), s),
    {
        let ghost before = groups@;
        assert(item == all[next as int]);
        assert(all.take(next + 1).drop_last() =~= all.take(next as int));
        let segment: usize = item.entity_type.segment_id.index();
        let id = DataSymbolRef::new(next);
        groups[segment].push((id, item));
        next = next + 1;
        proof {
            assert forall|s: int| 0 <= s < count implies (#[trigger] groups@[s])@ == items_of(
                all.take(next as int),
                s,
            ) by {
                assert(before[s]@ == items_of(all.take(next - 1), s));
            }
        }
    }
    assert(all.take(all.len() as int) =~= all);
    groups
}

/// Places the items of a segment. Returns its parts and the address behind the last one.
fn seal_segment(
    items: Vec<IndexedItem>,
    start: usize,
    file: usize,
    segment_id: SegmentId,
    places: &mut GappedMap<DataSymbolRef, DataItemPlace>,
) -> (r: (PrimaryMap<PartId, SealedDataItem>, usize))
    requires
        old(places).wf(),
        items@.len() <= MAX_VALUE,
        segment_id.id() < u32::MAX,
        end_address(items@, start as int) <= usize::MAX,
        file + (end_address(items@, start as int) - start) <= usize::MAX,
        forall|k: int|
            0 <= k < items@.len() ==> {
                let item = #[trigger] items@[k];
                &&& item.1.body.wf()
                &&& alignment_of(item) <= usize::MAX
                &&& item.0.id() < MAX_VALUE
            },
    ensures
        final(places).wf(),
        parts_match(r.0@, items@, start as int, segment_id.id() as int),
        r.0@.len() == part_count(items@, start as int),
        r.1 == end_address(items@, start as int),
        final(places)@ == placed(
            old(places)@,
            items@,
            start as int,
            file as int,
            segment_id.id() as int,
        ),
{
    let ghost all = items@;
    let ghost segment = segment_id.id() as int;
    let ghost slots = places@;
    let mut parts: PrimaryMap<PartId, SealedDataItem> = PrimaryMap::new();
    let mut mem: usize = start;
    assert(all.take(0) =~= Seq::<IndexedItem>::empty());
    for item in it: items
        invariant
            it.seq() == all,
            segment == segment_id.id(),
            segment_id.id() < u32::MAX,
            places.wf(),
            all.len() <= MAX_VALUE,
            start <= mem,
            mem == end_address(all.take(it.index() as int), start as int),
            end_address(all, start as int) <= usize::MAX,
            file + (end_address(all, start as int) - start) <= usize::MAX,
            parts@.len() == part_count(all.take(it.index() as int), start as int),
            parts_match(parts@, all.take(it.index() as int), start as int, segment),
            places@ == placed(
                slots,
                all.take(it.index() as int),
                start as int,
                file as int,
                segment,
            ),
            forall|k: int|
                0 <= k < all.len() ==> {
                    let item = #[trigger] all[k];
                    &&& item.1.body.wf()
                    &&& alignment_of(item) <= usize::MAX
                    &&& item.0.id() < MAX_VALUE
                },
    {
        let ghost k = it.index() as int;
        let ghost done = all.take(k);
        let ghost longer = all.take(k + 1);
        proof {
            assert(item == all[k]);
            assert(longer.drop_last() =~= done);
            assert(longer.last() == all[k]);
            assert(longer.take(k) =~= done);
            assert(longer.take(k + 1) =~= longer);
            lemma_item_end(all, start as int, k);
            lemma_end_address(all, start as int, k);
            lemma_end_address(all, start as int, k + 1);
            lemma_power2_positive(all[k].1.entity_type.alignment as nat);
            assert(item_address(longer, start as int, k) == item_address(all, start as int, k));
        }
        let (id, chunk) = item;
        let alignment: usize = power_of_two(chunk.entity_type.alignment);
        let padding: usize = calculate_padding(mem, alignment);
        let ghost before = parts@;
        if padding > 0 {
            let padding_symbol = DefinedDataChunk::padding_symbol(padding, segment_id);
            let _ = parts.push(SealedDataItem { defined_entity: padding_symbol, item_id: None });
            mem = mem + padding;
        }
        let len: usize = chunk.body.len();
        let section_offset: usize = file + (mem - start);
        let part_id = parts.push(SealedDataItem { defined_entity: chunk, item_id: Some(id) });
        let place = DataItemPlace {
            offsets: Offsets { section_offset, va_address: mem },
            segment_id,
            part_id,
        };
        assert(place == item_place(longer, start as int, file as int, segment, k));
        let _ = places.insert(id, place);
        mem = mem + len;
        proof {
            if padding > 0 {
                assert(parts@.take(parts@.len() - 2) =~= before);
            } else {
                assert(parts@.drop_last() =~= before);
            }
        }
    }
    assert(all.take(all.len() as int) =~= all);
    (parts, mem)
}

/// What a layout is made from: where each virtual space starts, the segments, the items, and where
/// the first segment stands in the section.
pub struct LayoutInput {
    pub spaces: Seq<DataKind<MemoryRef>>,
    pub segments: Seq<DataSegmentSpec>,
    pub items: Seq<DefinedDataChunk>,
    pub section_offset: int,
}

impl LayoutInput {
    /// Virtual space of a segment.
    pub open spec fn space_of(self, s: int) -> int {
        self.segments[s].vs_id.id() as int
    }

    /// Where a virtual space starts.
    pub open spec fn space_start(self, v: int) -> int {
        match self.spaces[v] {
            DataKind::Active { location, .. } => location.offset_spec() as int,
            DataKind::Passive => 0,
        }
    }

    /// Where a virtual space ends, after the first `s` segments.
    pub open spec fn space_end(self, v: int, s: int) -> int
        decreases s,
    {
        if s <= 0 {
            self.space_start(v)
        } else if self.space_of(s - 1) == v {
            let before = self.space_end(v, s - 1);
            end_address(
                items_of(self.items, s - 1),
                before + padding_to(before, power2(self.segments[s - 1].align as nat) as int),
            )
        } else {
            self.space_end(v, s - 1)
        }
    }

    /// Address of a segment: behind the segments of its virtual space before it, aligned.
    pub open spec fn segment_start(self, s: int) -> int {
        let before = self.space_end(self.space_of(s), s);
        before + padding_to(before, power2(self.segments[s].align as nat) as int)
    }

    /// The address behind a segment.
    pub open spec fn segment_end(self, s: int) -> int {
        end_address(items_of(self.items, s), self.segment_start(s))
    }

    /// How a segment is placed.
    pub open spec fn segment_kind(self, s: int) -> DataKind<MemoryRef> {
        match self.spaces[self.space_of(s)] {
            DataKind::Active { memory_ref, location } => DataKind::Active {
                memory_ref,
                location: location.with_offset(self.segment_start(s) as u32),
            },
            DataKind::Passive => DataKind::Passive,
        }
    }

    /// Number of bytes before the data of a segment: its header and the number of its bytes.
    pub open spec fn header_len(self, s: int) -> int {
        segment_header(self.segment_kind(s)).len() as int + 5
    }

    /// Where a segment stands in the section.
    pub open spec fn file_start(self, s: int) -> int
        decreases s,
    {
        if s <= 0 {
            self.section_offset
        } else {
            self.file_start(s - 1) + self.header_len(s - 1) + (self.segment_end(s - 1)
                - self.segment_start(s - 1))
        }
    }

    /// Places of the items of the first `s` segments.
    pub open spec fn places(self, s: int) -> Seq<Option<DataItemPlace>>
        decreases s,
    {
        if s <= 0 {
            Seq::empty()
        } else {
            placed(
                self.places(s - 1),
                items_of(self.items, s - 1),
                self.segment_start(s - 1),
                self.file_start(s - 1) + self.header_len(s - 1),
                s - 1,
            )
        }
    }

    /// Whether everything is in range: the virtual spaces and segments that are named exist, and
    /// all addresses and offsets are representable.
    pub open spec fn fits(self) -> bool {
        &&& 0 <= self.section_offset
        &&& self.segments.len() < u32::MAX
        &&& self.items.len() <= MAX_VALUE
        &&& forall|i: int|
            0 <= i < self.items.len() ==> {
                let item = #[trigger] self.items[i];
                &&& item.entity_type.segment_id.id() < self.segments.len()
                &&& item.body.wf()
                &&& power2(item.entity_type.alignment as nat) <= usize::MAX
            }
        &&& forall|s: int|
            0 <= s < self.segments.len() ==> {
                let segment = #[trigger] self.segments[s];
                &&& segment.vs_id.id() < self.spaces.len()
                &&& power2(segment.align as nat) <= usize::MAX
                &&& self.segment_end(s) <= usize::MAX
                &&& self.file_start(s + 1) <= usize::MAX
                &&& encodable(self.segment_kind(s))
                &&& self.spaces[self.space_of(s)] is Active ==> self.segment_start(s) <= i32::MAX
                &&& self.header_len(s) <= u32::MAX
            }
    }

    /// Whether a sealed segment is what the input asks for.
    pub open spec fn is_sealed(self, s: int, sealed: SealedDataSegment) -> bool {
        &&& sealed.name@ == self.segments[s].name@
        &&& sealed.pow2align == self.segments[s].align
        &&& sealed.va_address == self.segment_kind(s)
        &&& sealed.file_offset == self.file_start(s)
        &&& parts_match(
            sealed.parts@,
            items_of(self.items, s),
            self.segment_start(s),
            s,
        )
    }
}

proof fn lemma_items_of(items: Seq<DefinedDataChunk>, segment: int)
    requires
        items.len() <= u32::MAX,
    ensures
        items_of(items, segment).len() <= items.len(),
        forall|k: int|
            0 <= k < items_of(items, segment).len() ==> {
                let item = #[trigger] items_of(items, segment)[k];
                &&& item.0.id() < items.len()
                &&& items[item.0.id() as int] == item.1
                &&& item.1.entity_type.segment_id.id() == segment
            },
    decreases items.len(),
{
    if items.len() > 0 {
        lemma_items_of(items.drop_last(), segment);
    }
}

proof fn lemma_space_end(input: LayoutInput, v: int, s: int)
    requires
        0 <= s <= input.segments.len(),
    ensures
        0 <= input.space_end(v, s),
    decreases s,
{
    if s > 0 {
        lemma_space_end(input, v, s - 1);
        let before = input.space_end(v, s - 1);
        lemma_power2_positive(input.segments[s - 1].align as nat);
        let start = before + padding_to(
            before,
            power2(input.segments[s - 1].align as nat) as int,
        );
        let items = items_of(input.items, s - 1);
        lemma_end_address(items, start, items.len() as int);
        assert(items.take(items.len() as int) =~= items);
    }
}

pub(crate) proof fn lemma_segment_start(input: LayoutInput, s: int)
    requires
        0 <= s < input.segments.len(),
    ensures
        0 <= input.space_end(input.space_of(s), s) <= input.segment_start(s) <= input.segment_end(
            s,
        ),
        input.space_end(input.space_of(s), s + 1) == input.segment_end(s),
        input.segment_start(s) % power2(input.segments[s].align as nat) as int == 0,
{
    let before = input.space_end(input.space_of(s), s);
    lemma_space_end(input, input.space_of(s), s);
    lemma_power2_positive(input.segments[s].align as nat);
    lemma_padding_aligns(
        before,
        power2(input.segments[s].align as nat) as int,
    );
    let items = items_of(input.items, s);
    lemma_end_address(items, input.segment_start(s), items.len() as int);
    assert(items.take(items.len() as int) =~= items);
}

pub(crate) proof fn lemma_file_start(input: LayoutInput, s: int, t: int)
    requires
        0 <= input.section_offset,
        0 <= s <= t <= input.segments.len(),
    ensures
        0 <= input.section_offset <= input.file_start(s) <= input.file_start(t),
    decreases t,
{
    if t > 0 {
        lemma_segment_start(input, t - 1);
        if s < t {
            lemma_file_start(input, s, t - 1);
        } else {
            lemma_file_start(input, s - 1, t - 1);
        }
    }
}

/// Every segment starts at a multiple of its alignment.
pub proof fn lemma_segments_are_aligned(input: LayoutInput, s: int)
    requires
        0 <= s < input.segments.len(),
    ensures
        input.segment_start(s) % power2(input.segments[s].align as nat) as int == 0,
{
    lemma_segment_start(input, s);
}

proof fn lemma_space_end_monotone(input: LayoutInput, v: int, s: int, t: int)
    requires
        0 <= s <= t <= input.segments.len(),
    ensures
        0 <= input.space_end(v, s) <= input.space_end(v, t),
    decreases t - s,
{
    lemma_space_end(input, v, s);
    if s < t {
        lemma_space_end_monotone(input, v, s, t - 1);
        if input.space_of(t - 1) == v {
            lemma_segment_start(input, t - 1);
        }
    }
}

/// Segments of one virtual space do not overlap, and are in order.
pub proof fn lemma_segments_do_not_overlap(input: LayoutInput, s: int, t: int)
    requires
        0 <= s < t < input.segments.len(),
        input.space_of(s) == input.space_of(t),
    ensures
        input.segment_end(s) <= input.segment_start(t),
{
    lemma_segment_start(input, s);
    lemma_segment_start(input, t);
    lemma_space_end_monotone(input, input.space_of(s), s + 1, t);
}

/// Gives every item its place.
fn seal_input(
    spaces: &Vec<DataKind<MemoryRef>>,
    segments: &Vec<DataSegmentSpec>,
    items: Vec<DefinedDataChunk>,
    section_offset: usize,
    Ghost(input): Ghost<LayoutInput>,
) -> (r: (PrimaryMap<SegmentId, SealedDataSegment>, GappedMap<DataSymbolRef, DataItemPlace>))
    requires
        input == (LayoutInput {
            spaces: spaces@,
            segments: segments@,
            items: items@,
            section_offset: section_offset as int,
        }),
        input.fits(),
    ensures
        r.0@.len() == segments@.len(),
        forall|s: int|
            0 <= s < segments@.len() ==> input.is_sealed(s, #[trigger] r.0@[s]),
        r.1.wf(),
        r.1@ == input.places(segments@.len() as int),
{
    let mut offsets: Vec<usize> = Vec::new();
    let mut i: usize = 0;
    while i < spaces.len()
        invariant
            i <= spaces@.len(),
            input.spaces == spaces@,
            offsets@.len() == i,
            forall|v: int| 0 <= v < i ==> #[trigger] offsets@[v] == input.space_end(v, 0),
        decreases spaces@.len() - i,
    {
        let start: usize = match spaces[i].location() {
            Some(location) => location.offset() as usize,
            None => 0,
        };
        offsets.push(start);
        i = i + 1;
    }
    let mut places: GappedMap<DataSymbolRef, DataItemPlace> = GappedMap::new();
    let mut sealed: PrimaryMap<SegmentId, SealedDataSegment> = PrimaryMap::new();
    let mut file: usize = section_offset;
    let groups = group_items(items, segments.len());
    let ghost all = groups@;
    let mut s: usize = 0;
    for group in it: groups
        invariant
            it.seq() == all,
            s == it.index(),
            all.len() == segments@.len(),
            input.spaces == spaces@,
            input.segments == segments@,
            input.fits(),
            forall|s: int|
                0 <= s < segments@.len() ==> (#[trigger] all[s])@ == items_of(input.items, s),
            offsets@.len() == spaces@.len(),
            forall|v: int|
                0 <= v < spaces@.len() ==> #[trigger] offsets@[v] == input.space_end(v, s as int),
            file == input.file_start(s as int),
            places.wf(),
            places@ == input.places(s as int),
            sealed@.len() == s,
            forall|t: int| 0 <= t < s ==> input.is_sealed(t, #[trigger] sealed@[t]),
    {
        let ghost at = s as int;
        assert(group@ == items_of(input.items, at));
        let segment = &segments[s];
        assert(*segment == input.segments[at]);
        proof {
            lemma_items_of(input.items, at);
            lemma_segment_start(input, at);
            lemma_file_start(input, at, at + 1);
            lemma_power2_positive(segment.align as nat);
            assert forall|k: int| 0 <= k < group@.len() implies {
                let item = #[trigger] group@[k];
                &&& item.1.body.wf()
                &&& alignment_of(item) <= usize::MAX
                &&& item.0.id() < MAX_VALUE
            } by {
                let item = group@[k];
                assert(input.items[item.0.id() as int] == item.1);
            }
        }
        let vs: usize = segment.vs_id.index();
        let before: usize = offsets[vs];
        let start: usize = before + calculate_padding(before, power_of_two(segment.align));
        let kind = match spaces[vs] {
            DataKind::Active { memory_ref, location } => DataKind::Active {
                memory_ref,
                location: location.with_zero_offset().add_offset(start as u32),
            },
            DataKind::Passive => DataKind::Passive,
        };
        assert(kind == input.segment_kind(at));
        let header_len: usize = data_segment_header_start(kind).len() + 5;
        let (parts, end) = seal_segment(
            group,
            start,
            file + header_len,
            SegmentId::new(s),
            &mut places,
        );
        let _ = sealed.push(
            SealedDataSegment {
                name: segment.name.clone(),
                parts,
                pow2align: segment.align,
                va_address: kind,
                file_offset: file,
            },
        );
        offsets.set(vs, end);
        file = file + header_len + (end - start);
        s = s + 1;
        proof {
            assert(input.is_sealed(at, sealed@[at]));
            assert forall|v: int| 0 <= v < spaces@.len() implies #[trigger] offsets@[v]
                == input.space_end(v, s as int) by {
                assert(input.space_end(v, at + 1) == if input.space_of(at) == v {
                    input.segment_end(at)
                } else {
                    input.space_end(v, at)
                });
            }
        }
    }
    (sealed, places)
}

/// Builder of a data layout.
#[derive(Debug)]
pub struct MemLayoutBuilder {
    /// Virtual spaces group segments within one address space.
    pub virtual_spaces: PrimaryMap<VirtualSpaceId, DataKind<Temp<MemoryRef>>>,
    pub segments: PrimaryMap<SegmentId, DataSegmentSpec>,
    pub items: EntityCollection<DataSymbolRef, ImportedDataChunk, DefinedDataChunk>,
}

/// Whether a function gives virtual spaces their memories: `stable` is `temp`, with the temporary
/// index of the memory replaced by what the function returns for it.
pub open spec fn is_stable_space<F: Fn(Temp<MemoryRef>) -> MemoryRef>(
    to_stable: F,
    temp: DataKind<Temp<MemoryRef>>,
    stable: DataKind<MemoryRef>,
) -> bool {
    match (temp, stable) {
        (
            DataKind::Active { memory_ref: a, location: from },
            DataKind::Active { memory_ref: b, location: to },
        ) => call_ensures(to_stable, (a,), b) && from == to,
        (DataKind::Passive, DataKind::Passive) => true,
        _ => false,
    }
}

pub open spec fn are_stable_spaces<F: Fn(Temp<MemoryRef>) -> MemoryRef>(
    to_stable: F,
    temps: Seq<DataKind<Temp<MemoryRef>>>,
    stables: Seq<DataKind<MemoryRef>>,
) -> bool {
    &&& temps.len() == stables.len()
    &&& forall|v: int|
        0 <= v < temps.len() ==> is_stable_space(to_stable, #[trigger] temps[v], stables[v])
}

impl MemLayoutBuilder {
    /// What the layout is made from, once the memories of the virtual spaces are known.
    pub open spec fn input(
        &self,
        spaces: Seq<DataKind<MemoryRef>>,
        section_offset: int,
    ) -> LayoutInput {
        LayoutInput {
            spaces,
            segments: self.segments@,
            items: self.items@.defined,
            section_offset,
        }
    }

    pub fn new() -> (r: Self)
        ensures
            r.virtual_spaces@ == Seq::<DataKind<Temp<MemoryRef>>>::empty(),
            r.segments@ == Seq::<DataSegmentSpec>::empty(),
            r.items@ == CollectionView::<ImportedDataChunk, DefinedDataChunk>::empty(),
    {
        MemLayoutBuilder {
            virtual_spaces: PrimaryMap::new(),
            segments: PrimaryMap::new(),
            items: EntityCollection::empty(),
        }
    }

    /// Gives every item its place. Data symbols are never imported by index, so the builder must
    /// not hold imports.
    pub fn seal_at<F: Fn(Temp<MemoryRef>) -> MemoryRef>(
        self,
        section_offset: usize,
        to_stable: F,
    ) -> (r: MemLayoutSealed)
        requires
            self.items@.imports.len() == 0,
            forall|v: int|
                0 <= v < self.virtual_spaces@.len() ==> (
                #[trigger] self.virtual_spaces@[v] matches DataKind::Active { memory_ref, .. }
                    ==> call_requires(to_stable, (memory_ref,))),
            forall|spaces: Seq<DataKind<MemoryRef>>|
                are_stable_spaces(to_stable, self.virtual_spaces@, spaces) ==> (
                #[trigger] self.input(spaces, section_offset as int)).fits(),
        ensures
            r.wf(),
            r.external@ == self.items@.external,
            r.external.start_spec().id() == self.items@.defined.len(),
            exists|spaces: Seq<DataKind<MemoryRef>>|
                are_stable_spaces(to_stable, self.virtual_spaces@, spaces) && r.is_sealed_from(
                    #[trigger] self.input(spaces, section_offset as int),
                ),
    {
        self.seal_at_unchecked(section_offset, false, to_stable)
    }

    /// Gives every item its place. With `skip_sort` the items have to be in order of their
    /// segments already.
    pub fn seal_at_unchecked<F: Fn(Temp<MemoryRef>) -> MemoryRef>(
        self,
        section_offset: usize,
        skip_sort: bool,
        to_stable: F,
    ) -> (r: MemLayoutSealed)
        requires
            self.items@.imports.len() == 0,
            skip_sort ==> forall|i: int, j: int|
                #![trigger self.items@.defined[i], self.items@.defined[j]]
                0 <= i < j < self.items@.defined.len()
                    ==> self.items@.defined[i].entity_type.segment_id.id()
                    <= self.items@.defined[j].entity_type.segment_id.id(),
            forall|v: int|
                0 <= v < self.virtual_spaces@.len() ==> (
                #[trigger] self.virtual_spaces@[v] matches DataKind::Active { memory_ref, .. }
                    ==> call_requires(to_stable, (memory_ref,))),
            forall|spaces: Seq<DataKind<MemoryRef>>|
                are_stable_spaces(to_stable, self.virtual_spaces@, spaces) ==> (
                #[trigger] self.input(spaces, section_offset as int)).fits(),
        ensures
            r.wf(),
            r.external@ == self.items@.external,
            r.external.start_spec().id() == self.items@.defined.len(),
            exists|spaces: Seq<DataKind<MemoryRef>>|
                are_stable_spaces(to_stable, self.virtual_spaces@, spaces) && r.is_sealed_from(
                    #[trigger] self.input(spaces, section_offset as int),
                ),
    {
        let mut spaces: Vec<DataKind<MemoryRef>> = Vec::new();
        let mut v: usize = 0;
        while v < self.virtual_spaces.len()
            invariant
                v <= self.virtual_spaces@.len(),
                spaces@.len() == v,
                forall|v: int|
                    0 <= v < self.virtual_spaces@.len() ==> (
                    #[trigger] self.virtual_spaces@[v] matches DataKind::Active { memory_ref, .. }
                        ==> call_requires(to_stable, (memory_ref,))),
                forall|w: int|
                    0 <= w < v ==> is_stable_space(
                        to_stable,
                        #[trigger] self.virtual_spaces@[w],
                        spaces@[w],
                    ),
            decreases self.virtual_spaces@.len() - v,
        {
            let space = match self.virtual_spaces.as_slice()[v] {
                DataKind::Active { memory_ref, location } => DataKind::Active {
                    memory_ref: to_stable(memory_ref),
                    location,
                },
                DataKind::Passive => DataKind::Passive,
            };
            spaces.push(space);
            v = v + 1;
        }
        let ghost input = self.input(spaces@, section_offset as int);
        assert(are_stable_spaces(to_stable, self.virtual_spaces@, spaces@));
        let (_, defined, external) = self.items.into_parts();
        let count: usize = defined.len();
        let specs = self.segments.into_vec();
        let (segments, places) = seal_input(
            &spaces,
            &specs,
            defined,
            section_offset,
            Ghost(input),
        );
        let external = WithStart::new(DataSymbolRef::new(count), external);
        let r = MemLayoutSealed { segments, external, defined: places };
        proof {
            lemma_sealed_is_valid(input, r);
            assert(r.is_sealed_from(input));
        }
        r
    }

    /// The first active virtual space; if there is none, a new one is made.
    pub fn try_create_base_vs(
        &mut self,
        owner: Temp<MemoryRef>,
        location: SegmentPlacement,
    ) -> (r: VirtualSpaceId)
        requires
            old(self).virtual_spaces@.len() < u32::MAX,
        ensures
            final(self).segments@ == old(self).segments@,
            final(self).items@ == old(self).items@,
            match first_active(old(self).virtual_spaces@) {
                Some(v) => r.id() == v && final(self).virtual_spaces@ == old(self).virtual_spaces@,
                None => r.id() == old(self).virtual_spaces@.len() && final(self).virtual_spaces@
                    == old(self).virtual_spaces@.push(
                    DataKind::Active { memory_ref: owner, location },
                ),
            },
    {
        match self.find_active() {
            Some(v) => VirtualSpaceId::new(v),
            None => self.virtual_spaces.push(DataKind::Active { memory_ref: owner, location }),
        }
    }

    fn find_active(&self) -> (r: Option<usize>)
        ensures
            match first_active(self.virtual_spaces@) {
                Some(v) => r matches Some(u) && u == v && u < self.virtual_spaces@.len(),
                None => r is None,
            },
    {
        let mut v: usize = 0;
        let ghost spaces = self.virtual_spaces@;
        assert(spaces.skip(0) =~= spaces);
        while v < self.virtual_spaces.len()
            invariant
                v <= spaces.len(),
                spaces == self.virtual_spaces@,
                first_active(spaces) == match first_active(spaces.skip(v as int)) {
                    Some(w) => Some(v + w),
                    None => None,
                },
            decreases spaces.len() - v,
        {
            assert(spaces.skip(v as int)[0] == spaces[v as int]);
            assert(spaces.skip(v as int).skip(1) =~= spaces.skip(v + 1));
            if self.virtual_spaces.as_slice()[v].is_active() {
                return Some(v);
            }
            v = v + 1;
        }
        None
    }

    /// Adds a segment for read-only data to a virtual space.
    pub fn try_create_segment(&mut self, vs_id: VirtualSpaceId) -> (r: SegmentId)
        requires
            old(self).segments@.len() < u32::MAX,
        ensures
            r.id() == old(self).segments@.len(),
            final(self).virtual_spaces@ == old(self).virtual_spaces@,
            final(self).items@ == old(self).items@,
            final(self).segments@.len() == old(self).segments@.len() + 1,
            final(self).segments@.drop_last() == old(self).segments@,
            final(self).segments@.last().vs_id == vs_id,
            final(self).segments@.last().name@ == ".rodata"@,
            final(self).segments@.last().align == 3,
            final(self).segments@.last().segment_flags == SegmentFlags::Readonly,
    {
        let ghost before = self.segments@;
        let id = self.segments.push(
            DataSegmentSpec {
                vs_id,
                name: ".rodata".to_owned(),
                align: 3,
                segment_flags: SegmentFlags::Readonly,
            },
        );
        assert(self.segments@.drop_last() =~= before);
        id
    }

    /// Adds a segment to the first active virtual space, which is made if there is none.
    pub fn try_create_base_segment(&mut self, owner_id: Temp<MemoryRef>) -> (r: SegmentId)
        requires
            old(self).virtual_spaces@.len() < u32::MAX,
            old(self).segments@.len() < u32::MAX,
        ensures
            r.id() == old(self).segments@.len(),
            final(self).items@ == old(self).items@,
            final(self).segments@.len() == old(self).segments@.len() + 1,
            final(self).segments@.drop_last() == old(self).segments@,
            final(self).segments@.last().name@ == ".rodata"@,
            final(self).segments@.last().align == 3,
            final(self).segments@.last().segment_flags == SegmentFlags::Readonly,
            match first_active(old(self).virtual_spaces@) {
                Some(v) => final(self).segments@.last().vs_id.id() == v
                    && final(self).virtual_spaces@ == old(self).virtual_spaces@,
                None => final(self).segments@.last().vs_id.id() == old(self).virtual_spaces@.len()
                    && final(self).virtual_spaces@ == old(self).virtual_spaces@.push(
                    DataKind::Active {
                        memory_ref: owner_id,
                        location: SegmentPlacement::ConstantOffset(DEFAULT_HEAP_START),
                    },
                ),
            },
    {
        let vs = self.try_create_base_vs(
            owner_id,
            SegmentPlacement::ConstantOffset(DEFAULT_HEAP_START),
        );
        self.try_create_segment(vs)
    }

    pub fn push_defined(&mut self, defined: DefinedDataChunk) -> (r: Temp<DataSymbolRef>)
        requires
            old(self).items@.has_room(ImportOrDefined::Defined(defined)),
        ensures
            r.wf(),
            r.kind() == old(self).items@.next_kind(ImportOrDefined::Defined(defined)),
            final(self).items@ == old(self).items@.with(ImportOrDefined::Defined(defined)),
            final(self).virtual_spaces@ == old(self).virtual_spaces@,
            final(self).segments@ == old(self).segments@,
    {
        self.items.push_defined(defined)
    }

    /// Adds an import; imported data is always external.
    pub fn push_import(&mut self, import: ImportedDataChunk) -> (r: Temp<DataSymbolRef>)
        requires
            old(self).items@.has_room(ImportOrDefined::External(import)),
        ensures
            r.wf(),
            r.kind() == old(self).items@.next_kind(ImportOrDefined::External(import)),
            final(self).items@ == old(self).items@.with(ImportOrDefined::External(import)),
            final(self).virtual_spaces@ == old(self).virtual_spaces@,
            final(self).segments@ == old(self).segments@,
    {
        self.items.push_external(import)
    }

    pub fn push_entity(
        &mut self,
        entity: ImportOrDefined<ImportedDataChunk, DefinedDataChunk>,
    ) -> (r: Temp<DataSymbolRef>)
        requires
            old(self).items@.has_room(entity),
        ensures
            r.wf(),
            r.kind() == old(self).items@.next_kind(entity),
            final(self).items@ == old(self).items@.with(entity),
            final(self).virtual_spaces@ == old(self).virtual_spaces@,
            final(self).segments@ == old(self).segments@,
    {
        self.items.push_entity(entity)
    }

    /// The temporary index that the entity would get.
    pub fn dry_push_entity(
        &self,
        entity: &ImportOrDefined<ImportedDataChunk, DefinedDataChunk>,
    ) -> (r: Temp<DataSymbolRef>)
        requires
            self.items@.has_room(*entity),
        ensures
            r.wf(),
            r.kind() == self.items@.next_kind(*entity),
    {
        self.items.dry_push_entity(entity)
    }

    /// The main virtual space: the first active one.
    pub fn main_vs(&self) -> (r: Option<DataKind<Temp<MemoryRef>>>)
        ensures
            r == match first_active(self.virtual_spaces@) {
                Some(v) => Some(self.virtual_spaces@[v]),
                None => None,
            },
    {
        match self.find_active() {
            Some(v) => Some(self.virtual_spaces.as_slice()[v]),
            None => None,
        }
    }
}

impl Default for MemLayoutBuilder {
    fn default() -> (r: Self)
        ensures
            r.virtual_spaces@ == Seq::<DataKind<Temp<MemoryRef>>>::empty(),
            r.segments@ == Seq::<DataSegmentSpec>::empty(),
            r.items@ == CollectionView::<ImportedDataChunk, DefinedDataChunk>::empty(),
    {
        Self::new()
    }
}

/// The number of the first active virtual space.
pub open spec fn first_active<OwnerId>(spaces: Seq<DataKind<OwnerId>>) -> Option<int>
    decreases spaces.len(),
{
    if spaces.len() == 0 {
        None
    } else if spaces[0] is Active {
        Some(0)
    } else {
        match first_active(spaces.skip(1)) {
            Some(v) => Some(v + 1),
            None => None,
        }
    }
}

/// Every place of a sealed layout names a part of a segment.
proof fn lemma_sealed_is_valid(input: LayoutInput, sealed: MemLayoutSealed)
    requires
        input.fits(),
        sealed.segments@.len() == input.segments.len(),
        forall|s: int|
            0 <= s < input.segments.len() ==> input.is_sealed(s, #[trigger] sealed.segments@[s]),
        sealed.defined.wf(),
        sealed.defined@ == input.places(input.segments.len() as int),
        sealed.external.start_spec().id() == input.items.len(),
    ensures
        sealed.wf(),
        sealed.is_sealed_from(input),
{
    assert forall|key: nat| slot_at(sealed.defined@, key) is Some implies {
        let place = (#[trigger] slot_at(sealed.defined@, key))->0;
        &&& place.segment_id.id() < sealed.segments@.len()
        &&& place.part_id.id() < sealed.segments@[place.segment_id.id() as int].parts@.len()
    } by {
        lemma_place_of_key(input, input.segments.len() as int, key);
        let place = slot_at(sealed.defined@, key)->0;
        let s = place.segment_id.id() as int;
        assert(input.is_sealed(s, sealed.segments@[s]));
        lemma_segment_start(input, s);
        lemma_parts_len(
            sealed.segments@[s].parts@,
            items_of(input.items, s),
            input.segment_start(s),
            s,
        );
    }
}

/// A place that items of one segment were given is that of one of them, or an older one.
proof fn lemma_placed_key(
    slots: Seq<Option<DataItemPlace>>,
    items: Seq<IndexedItem>,
    start: int,
    file: int,
    segment: int,
    key: nat,
)
    ensures
        slot_at(placed(slots, items, start, file, segment), key) == slot_at(slots, key) || exists|
            k: int,
        |
            0 <= k < items.len() && items[k].0.id() == key && slot_at(
                placed(slots, items, start, file, segment),
                key,
            ) == Some(#[trigger] item_place(items, start, file, segment, k)),
    decreases items.len(),
{
    if items.len() > 0 {
        let init = items.drop_last();
        let before = placed(slots, init, start, file, segment);
        let last = items.len() - 1;
        lemma_placed_key(slots, init, start, file, segment, key);
        lemma_insert_then_get(
            before,
            items.last().0.id() as nat,
            item_place(items, start, file, segment, last),
            key,
        );
        if key == items.last().0.id() {
            assert(items[last].0.id() == key);
        } else if slot_at(before, key) != slot_at(slots, key) {
            let k = choose|k: int|
                0 <= k < init.len() && init[k].0.id() == key && slot_at(before, key) == Some(
                    #[trigger] item_place(init, start, file, segment, k),
                );
            assert(init.take(k) =~= items.take(k));
            assert(init.take(k + 1) =~= items.take(k + 1));
            assert(item_place(init, start, file, segment, k) == item_place(
                items,
                start,
                file,
                segment,
                k,
            ));
        }
    }
}

/// Every place is that of an item of one of the first segments.
proof fn lemma_place_of_key(input: LayoutInput, count: int, key: nat)
    requires
        input.fits(),
        0 <= count <= input.segments.len(),
    ensures
        slot_at(input.places(count), key) matches Some(place) ==> {
            let s = place.segment_id.id() as int;
            &&& s < count
            &&& place.part_id.id() < part_count(items_of(input.items, s), input.segment_start(s))
        },
    decreases count,
{
    if count > 0 {
        let s = count - 1;
        let items = items_of(input.items, s);
        let start = input.segment_start(s);
        let file = input.file_start(s) + input.header_len(s);
        lemma_place_of_key(input, s, key);
        lemma_placed_key(input.places(s), items, start, file, s, key);
        if slot_at(input.places(count), key) != slot_at(input.places(s), key) {
            let k = choose|k: int|
                0 <= k < items.len() && items[k].0.id() == key && slot_at(
                    input.places(count),
                    key,
                ) == Some(#[trigger] item_place(items, start, file, s, k));
            lemma_segment_start(input, s);
            lemma_items_of(input.items, s);
            lemma_end_address(items, start, k + 1);
        }
    }
}

/// Items of a segment have rising indices.
proof fn lemma_items_of_order(items: Seq<DefinedDataChunk>, segment: int)
    requires
        items.len() <= u32::MAX,
    ensures
        forall|a: int, b: int|
            #![trigger items_of(items, segment)[a], items_of(items, segment)[b]]
            0 <= a < b < items_of(items, segment).len() ==> items_of(items, segment)[a].0.id()
                < items_of(items, segment)[b].0.id(),
    decreases items.len(),
{
    if items.len() > 0 {
        lemma_items_of_order(items.drop_last(), segment);
        lemma_items_of(items.drop_last(), segment);
    }
}

/// Every item is among the items of its segment.
proof fn lemma_item_in_segment(items: Seq<DefinedDataChunk>, i: int) -> (k: int)
    requires
        0 <= i < items.len() <= u32::MAX,
    ensures
        ({
            let group = items_of(items, items[i].entity_type.segment_id.id() as int);
            0 <= k < group.len() && group[k] == (DataSymbolRef { id: i as u32 }, items[i])
        }),
    decreases items.len(),
{
    let segment = items[i].entity_type.segment_id.id() as int;
    if i == items.len() - 1 {
        items_of(items, segment).len() - 1
    } else {
        lemma_item_in_segment(items.drop_last(), i)
    }
}

/// Each item of a segment gets its own place.
proof fn lemma_placed_item(
    slots: Seq<Option<DataItemPlace>>,
    items: Seq<IndexedItem>,
    start: int,
    file: int,
    segment: int,
    k: int,
)
    requires
        0 <= k < items.len(),
        forall|a: int, b: int|
            #![trigger items[a], items[b]]
            0 <= a < b < items.len() ==> items[a].0.id() < items[b].0.id(),
    ensures
        slot_at(placed(slots, items, start, file, segment), items[k].0.id() as nat) == Some(
            item_place(items, start, file, segment, k),
        ),
    decreases items.len(),
{
    let init = items.drop_last();
    let last = items.len() - 1;
    let before = placed(slots, init, start, file, segment);
    lemma_insert_then_get(
        before,
        items.last().0.id() as nat,
        item_place(items, start, file, segment, last),
        items[k].0.id() as nat,
    );
    if k < last {
        assert(items[k].0.id() < items[last].0.id());
        assert forall|a: int, b: int|
            #![trigger init[a], init[b]]
            0 <= a < b < init.len() implies init[a].0.id() < init[b].0.id() by {
            assert(items[a].0.id() < items[b].0.id());
        }
        lemma_placed_item(slots, init, start, file, segment, k);
        assert(init.take(k) =~= items.take(k));
        assert(init.take(k + 1) =~= items.take(k + 1));
    }
}

/// The place of an item, after the first `count` segments got theirs.
proof fn lemma_place_of_item(input: LayoutInput, count: int, s: int, k: int)
    requires
        input.fits(),
        0 <= s < count <= input.segments.len(),
        0 <= k < items_of(input.items, s).len(),
    ensures
        slot_at(input.places(count), items_of(input.items, s)[k].0.id() as nat) == Some(
            item_place(
                items_of(input.items, s),
                input.segment_start(s),
                input.file_start(s) + input.header_len(s),
                s,
                k,
            ),
        ),
    decreases count,
{
    let t = count - 1;
    let items = items_of(input.items, t);
    let start = input.segment_start(t);
    let file = input.file_start(t) + input.header_len(t);
    let key = items_of(input.items, s)[k].0.id() as nat;
    lemma_items_of(input.items, s);
    lemma_items_of(input.items, t);
    lemma_items_of_order(input.items, t);
    if t == s {
        lemma_placed_item(input.places(t), items, start, file, t, k);
    } else {
        lemma_place_of_item(input, t, s, k);
        lemma_placed_key(input.places(t), items, start, file, t, key);
        if slot_at(input.places(count), key) != slot_at(input.places(t), key) {
            let other = choose|j: int|
                0 <= j < items.len() && items[j].0.id() == key && slot_at(
                    input.places(count),
                    key,
                ) == Some(#[trigger] item_place(items, start, file, t, j));
            assert(items[other].1.entity_type.segment_id.id() == t);
        }
    }
}

/// The bytes of parts are those of all items but the last, padding, and those of the last item.
proof fn lemma_last_part_bytes(
    parts: Seq<SealedDataItem>,
    items: Seq<IndexedItem>,
    start: int,
    segment: int,
) -> (rest: Seq<SealedDataItem>)
    requires
        0 <= start,
        items.len() > 0,
        parts_match(parts, items, start, segment),
    ensures
        ({
            let init = items.drop_last();
            let padding = padding_to(end_address(init, start), alignment_of(items.last()));
            &&& 0 <= padding
            &&& parts_match(rest, init, start, segment)
            &&& rest.len() < parts.len()
            &&& rest == parts.take(rest.len() as int)
            &&& parts.len() == rest.len() + if padding > 0 {
                2int
            } else {
                1
            }
            &&& parts.last().defined_entity == items.last().1
            &&& parts_bytes(parts) == parts_bytes(rest) + zeros(padding as nat)
                + items.last().1.body.emitted()
        }),
{
    let init = items.drop_last();
    let padding = padding_to(end_address(init, start), alignment_of(items.last()));
    lemma_power2_positive(items.last().1.entity_type.alignment as nat);
    let shorter = parts.drop_last();
    if padding > 0 {
        let rest = parts.take(parts.len() - 2);
        assert(shorter.drop_last() =~= rest);
        assert(shorter.last() == parts[parts.len() - 2]);
        assert(parts_bytes(shorter) == parts_bytes(rest) + zeros(padding as nat));
        rest
    } else {
        assert(zeros(0) =~= Seq::<u8>::empty());
        assert(parts_bytes(shorter) + zeros(0) =~= parts_bytes(shorter));
        assert(shorter =~= parts.take(shorter.len() as int));
        shorter
    }
}

/// The parts of a segment are as long as the segment.
proof fn lemma_parts_len(
    parts: Seq<SealedDataItem>,
    items: Seq<IndexedItem>,
    start: int,
    segment: int,
)
    requires
        0 <= start,
        parts_match(parts, items, start, segment),
    ensures
        parts.len() == part_count(items, start),
        parts_bytes(parts).len() == end_address(items, start) - start,
    decreases items.len(),
{
    if items.len() > 0 {
        let rest = lemma_last_part_bytes(parts, items, start, segment);
        lemma_parts_len(rest, items.drop_last(), start, segment);
    } else {
        assert(parts =~= Seq::<SealedDataItem>::empty());
    }
}

/// The parts of a segment hold an item at its address.
proof fn lemma_parts_hold_item(
    parts: Seq<SealedDataItem>,
    items: Seq<IndexedItem>,
    start: int,
    segment: int,
    k: int,
)
    requires
        0 <= start,
        parts_match(parts, items, start, segment),
        0 <= k < items.len(),
    ensures
        ({
            let address = item_address(items, start, k) - start;
            &&& 0 < part_count(items.take(k + 1), start) <= parts.len()
            &&& parts[part_count(items.take(k + 1), start) - 1].defined_entity == items[k].1
            &&& 0 <= address <= address + size_of(items[k]) <= parts_bytes(parts).len()
            &&& parts_bytes(parts).subrange(address, address + size_of(items[k]))
                == items[k].1.body.emitted()
        }),
    decreases items.len(),
{
    let init = items.drop_last();
    let last = items.len() - 1;
    let rest = lemma_last_part_bytes(parts, items, start, segment);
    lemma_parts_len(parts, items, start, segment);
    lemma_parts_len(rest, init, start, segment);
    lemma_item_end(items, start, k);
    let address = item_address(items, start, k) - start;
    let bytes = parts_bytes(parts);
    let old = parts_bytes(rest);
    if k < last {
        lemma_parts_hold_item(rest, init, start, segment, k);
        assert(init.take(k) =~= items.take(k));
        assert(init.take(k + 1) =~= items.take(k + 1));
        assert(bytes.subrange(address, address + size_of(items[k])) =~= old.subrange(
            address,
            address + size_of(items[k]),
        ));
    } else {
        assert(items.take(last) =~= init);
        assert(items.take(last + 1) =~= items);
        lemma_end_address(items, start, items.len() as int);
        assert(bytes.subrange(address, address + size_of(items[k]))
            =~= items[k].1.body.emitted());
    }
}

/// The encoded segments stand where the layout says.
proof fn lemma_segments_at_file_start(
    input: LayoutInput,
    segments: Seq<SealedDataSegment>,
    count: int,
)
    requires
        input.fits(),
        segments.len() == input.segments.len(),
        forall|s: int|
            0 <= s < input.segments.len() ==> input.is_sealed(s, #[trigger] segments[s]),
        0 <= count <= segments.len(),
    ensures
        segments_encoding(segments.take(count)).len() == input.file_start(count)
            - input.section_offset,
    decreases count,
{
    if count > 0 {
        let s = count - 1;
        lemma_segments_at_file_start(input, segments, s);
        assert(segments.take(count).drop_last() =~= segments.take(s));
        assert(input.is_sealed(s, segments[s]));
        lemma_segment_start(input, s);
        lemma_parts_len(
            segments[s].parts@,
            items_of(input.items, s),
            input.segment_start(s),
            s,
        );
        lemma_fixed_leb_len(segments[s].bytes().len() as int, 5);
    } else {
        assert(segments.take(0) =~= Seq::<SealedDataSegment>::empty());
    }
}

proof fn lemma_segment_in_section(segments: Seq<SealedDataSegment>, s: int)
    requires
        0 <= s < segments.len(),
    ensures
        ({
            let before = segments_encoding(segments.take(s)).len() as int;
            let encoding = segments[s].encoding();
            &&& before + encoding.len() <= segments_encoding(segments).len()
            &&& segments_encoding(segments).subrange(
                before,
                before + encoding.len(),
            ) == encoding
        }),
    decreases segments.len(),
{
    let init = segments.drop_last();
    let before = segments_encoding(segments.take(s)).len() as int;
    let encoding = segments[s].encoding();
    let all = segments_encoding(segments);
    if s == segments.len() - 1 {
        assert(segments.take(s) =~= init);
        assert(all.subrange(before, before + encoding.len()) =~= encoding);
    } else {
        lemma_segment_in_section(init, s);
        assert(init.take(s) =~= segments.take(s));
        let old = segments_encoding(init);
        assert(all.subrange(before, before + encoding.len()) =~= old.subrange(
            before,
            before + encoding.len(),
        ));
    }
}

/// The place of an item of a sealed layout, and what stands there.
proof fn lemma_item_place_holds(input: LayoutInput, sealed: MemLayoutSealed, s: int, k: int)
    requires
        input.fits(),
        sealed.is_sealed_from(input),
        0 <= s < input.segments.len(),
        0 <= k < items_of(input.items, s).len(),
    ensures
        ({
            let items = items_of(input.items, s);
            let start = input.segment_start(s);
            let file = input.file_start(s) + input.header_len(s);
            let place = item_place(items, start, file, s, k);
            let address = item_address(items, start, k);
            &&& place.segment_id.id() == s
            &&& place.offsets.va_address == address
            &&& place.offsets.section_offset == file + (address - start)
            &&& start <= address
            &&& sealed.chunk_at(place) == items[k].1
        }),
{
    let items = items_of(input.items, s);
    let start = input.segment_start(s);
    let segment = sealed.segments@[s];
    assert(input.is_sealed(s, segment));
    assert(input.segments[s].vs_id.id() < input.spaces.len());
    lemma_segment_start(input, s);
    lemma_items_of(input.items, s);
    lemma_item_end(items, start, k);
    lemma_end_address(items, start, k + 1);
    lemma_parts_hold_item(segment.parts@, items, start, s, k);
    lemma_file_start(input, s, s + 1);
    lemma_power2_positive(items[k].1.entity_type.alignment as nat);
}

proof fn lemma_part_of_part(all: Seq<u8>, from: int, to: int, at: int, len: int)
    requires
        0 <= from <= to <= all.len(),
        0 <= at <= at + len <= to - from,
    ensures
        all.subrange(from + at, from + at + len) == all.subrange(from, to).subrange(at, at + len),
{
    assert(all.subrange(from + at, from + at + len) =~= all.subrange(from, to).subrange(
        at,
        at + len,
    ));
}

proof fn lemma_part_of_tail(head: Seq<u8>, tail: Seq<u8>, at: int, len: int)
    requires
        0 <= at <= at + len <= tail.len(),
    ensures
        (head + tail).subrange(head.len() + at, head.len() + at + len) == tail.subrange(
            at,
            at + len,
        ),
{
    assert((head + tail).subrange(head.len() + at, head.len() + at + len) =~= tail.subrange(
        at,
        at + len,
    ));
}

/// The bytes of a segment stand in the encoded section.
#[verifier::spinoff_prover]
#[verifier::rlimit(50)]
proof fn lemma_segment_bytes_in_section(input: LayoutInput, sealed: MemLayoutSealed, s: int)
    requires
        input.fits(),
        sealed.is_sealed_from(input),
        0 <= s < input.segments.len(),
    ensures
        ({
            let section = segments_encoding(sealed.segments@);
            let bytes = sealed.segments@[s].bytes();
            let offset = input.file_start(s) + input.header_len(s) - input.section_offset;
            &&& 0 <= offset <= offset + bytes.len() <= section.len()
            &&& section.subrange(offset, offset + bytes.len()) == bytes
        }),
{
    let section = segments_encoding(sealed.segments@);
    let segment = sealed.segments@[s];
    let bytes = segment.bytes();
    let encoding = segment.encoding();
    let before = segments_encoding(sealed.segments@.take(s)).len() as int;
    let head = segment_header(segment.va_address) + fixed_leb(bytes.len() as int, 5);
    assert(input.is_sealed(s, segment));
    lemma_segments_at_file_start(input, sealed.segments@, s);
    lemma_segment_in_section(sealed.segments@, s);
    lemma_file_start(input, s, s);
    lemma_fixed_leb_len(bytes.len() as int, 5);
    assert(encoding =~= head + bytes);
    assert(head.len() == input.header_len(s));
    lemma_part_of_tail(head, bytes, 0, bytes.len() as int);
    lemma_part_of_part(
        section,
        before,
        before + encoding.len(),
        head.len() as int,
        bytes.len() as int,
    );
    assert(bytes.subrange(0, bytes.len() as int) =~= bytes);
}

/// The bytes of an item stand in the encoded section.
proof fn lemma_item_in_section(input: LayoutInput, sealed: MemLayoutSealed, s: int, k: int)
    requires
        input.fits(),
        sealed.is_sealed_from(input),
        0 <= s < input.segments.len(),
        0 <= k < items_of(input.items, s).len(),
    ensures
        ({
            let items = items_of(input.items, s);
            let start = input.segment_start(s);
            let address = item_address(items, start, k);
            let section = segments_encoding(sealed.segments@);
            let len = size_of(items[k]) as int;
            let offset = input.file_start(s) + input.header_len(s) + (address - start)
                - input.section_offset;
            &&& 0 <= offset <= offset + len <= section.len()
            &&& section.subrange(offset, offset + len) == items[k].1.body.emitted()
        }),
{
    let items = items_of(input.items, s);
    let start = input.segment_start(s);
    let address = item_address(items, start, k);
    let section = segments_encoding(sealed.segments@);
    let len = size_of(items[k]) as int;
    let segment = sealed.segments@[s];
    let bytes = segment.bytes();
    let from = input.file_start(s) + input.header_len(s) - input.section_offset;
    assert(input.is_sealed(s, segment));
    assert(0 <= start) by {
        lemma_segment_start(input, s);
    }
    lemma_segment_bytes_in_section(input, sealed, s);
    lemma_parts_hold_item(segment.parts@, items, start, s, k);
    lemma_part_of_part(section, from, from + bytes.len(), address - start, len);
}

/// Every item of a sealed layout is found again: its place names the part that holds it, its
/// address is a multiple of its alignment, and its bytes stand in the encoded section at its
/// offset.
pub proof fn lemma_sealed_item_is_found(input: LayoutInput, sealed: MemLayoutSealed, i: int)
    requires
        input.fits(),
        sealed.is_sealed_from(input),
        0 <= i < input.items.len(),
    ensures
        slot_at(sealed.defined@, i as nat) matches Some(place) && {
            let item = input.items[i];
            let section = segments_encoding(sealed.segments@);
            let offset = place.offsets.section_offset - input.section_offset;
            &&& place.segment_id == item.entity_type.segment_id
            &&& sealed.chunk_at(place) == item
            &&& place.offsets.va_address as int % power2(item.entity_type.alignment as nat) as int
                == 0
            &&& 0 <= offset <= offset + item.body.emitted().len() <= section.len()
            &&& section.subrange(offset, offset + item.body.emitted().len()) == item.body.emitted()
        },
{
    let s = input.items[i].entity_type.segment_id.id() as int;
    let items = items_of(input.items, s);
    let k = lemma_item_in_segment(input.items, i);
    lemma_place_of_item(input, input.segments.len() as int, s, k);
    lemma_item_place_holds(input, sealed, s, k);
    lemma_item_in_section(input, sealed, s, k);
    lemma_segment_start(input, s);
    lemma_items_are_aligned(items, input.segment_start(s), k);
}

/// Every item of an active segment is at its address once the segment is loaded: the segment is
/// loaded into the memory of its virtual space, from the start of that on, and the bytes of the
/// item stand as far behind the start of the segment as its address is behind that of the segment.
pub proof fn lemma_sealed_item_is_loaded_at_its_address(
    input: LayoutInput,
    sealed: MemLayoutSealed,
    i: int,
)
    requires
        input.fits(),
        sealed.is_sealed_from(input),
        0 <= i < input.items.len(),
        input.spaces[input.space_of(
            input.items[i].entity_type.segment_id.id() as int,
        )] is Active,
    ensures
        ({
            let item = input.items[i];
            let segment = sealed.segments@[item.entity_type.segment_id.id() as int];
            let space = input.spaces[input.space_of(item.entity_type.segment_id.id() as int)];
            &&& slot_at(sealed.defined@, i as nat) matches Some(place)
            &&& segment.va_address matches DataKind::Active { memory_ref, location }
            &&& memory_ref == space->Active_memory_ref
            &&& location == space->Active_location.with_offset(location.offset_spec())
            &&& space->Active_location.offset_spec() <= location.offset_spec()
            &&& {
                let at = place.offsets.va_address - location.offset_spec();
                &&& 0 <= at <= at + item.body.emitted().len() <= segment.bytes().len()
                &&& segment.bytes().subrange(at, at + item.body.emitted().len())
                    == item.body.emitted()
            }
        }),
{
    let s = input.items[i].entity_type.segment_id.id() as int;
    let items = items_of(input.items, s);
    let start = input.segment_start(s);
    let segment = sealed.segments@[s];
    let k = lemma_item_in_segment(input.items, i);
    assert(input.is_sealed(s, segment));
    assert(input.segments[s].vs_id.id() < input.spaces.len());
    lemma_place_of_item(input, input.segments.len() as int, s, k);
    lemma_item_place_holds(input, sealed, s, k);
    lemma_segment_start(input, s);
    lemma_space_end_monotone(input, input.space_of(s), 0, s);
    lemma_parts_hold_item(segment.parts@, items, start, s, k);
    assert(input.space_start(input.space_of(s)) <= start);
}

} // verus!
