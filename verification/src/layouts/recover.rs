//! Recovery of virtual spaces.
//!
//! Neither a module nor its linking metadata speaks of virtual spaces, so they are recovered from
//! the segments of a module:
//! - Segments with the same base whose ranges follow one another are in one virtual space.
//! - Every passive segment has a virtual space of its own.
use crate::helpers::{cmp_range, range_relation, Position, RangeComp};
use crate::index::{Temp, TempIndex};
use crate::layouts::data::{DefinedDataChunk, ImportedDataChunk};
use crate::layouts::data::builder::{
    flags_of, DataKind, DataSegmentSpec, MemLayoutBuilder, SegmentFlags,
};
use crate::layouts::data::sealed::{
    lemma_parts_bytes_len, parts_bytes, parts_valid, MemLayoutSealed, SealedDataItem,
    SealedDataSegment,
};
use crate::layouts::{SegmentId, SegmentPlacement, VirtualSpaceId};
use crate::sorting::{inserted_by, lemma_inserted_at, lemma_inserted_somewhere};
use crate::typed::entities::CollectionView;
use crate::typed::MemoryRef;
use core::ops::Range;
use vstd::multiset::Multiset;
use vstd::prelude::*;

verus! {

/// A virtual space.
#[derive(Debug, PartialEq, Eq)]
pub struct VsState {
    /// The base of the space, without an offset.
    pub location: DataKind<MemoryRef>,
    /// The offsets from the base that its segments cover.
    pub range: Range<usize>,
    pub segments: Vec<SegmentId>,
    pub vs_id: VirtualSpaceId,
}

/// Order of bases: by memory, those that a global holds before the constant one; passive data
/// comes last.
pub open spec fn base_rank(location: DataKind<MemoryRef>) -> int {
    match location {
        DataKind::Active { memory_ref, location } => memory_ref.id() * 0x4_0000_0000
            + match location {
            SegmentPlacement::GotBased { global, .. } => global.id() as int,
            SegmentPlacement::ConstantOffset(_) => 0x2_0000_0000,
        },
        DataKind::Passive => 0x8000_0000_0000_0000_0000,
    }
}

fn rank_of(location: &DataKind<MemoryRef>) -> (r: u128)
    ensures
        r == base_rank(*location),
{
    match location {
        DataKind::Active { memory_ref, location } => memory_ref.as_u32() as u128 * 0x4_0000_0000
            + match location {
            SegmentPlacement::GotBased { global, .. } => global.as_u32() as u128,
            SegmentPlacement::ConstantOffset(_) => 0x2_0000_0000,
        },
        DataKind::Passive => 0x8000_0000_0000_0000_0000,
    }
}

/// The base of a segment.
pub open spec fn base_of(location: DataKind<MemoryRef>) -> DataKind<MemoryRef> {
    match location {
        DataKind::Active { memory_ref, location } => DataKind::Active {
            memory_ref,
            location: location.with_offset(0),
        },
        DataKind::Passive => DataKind::Passive,
    }
}

/// The offset of a segment from its base.
pub open spec fn base_offset(location: DataKind<MemoryRef>) -> int {
    match location {
        DataKind::Active { location, .. } => location.offset_spec() as int,
        DataKind::Passive => 0,
    }
}

/// The offsets that a segment covers.
pub open spec fn segment_range(segment: SealedDataSegment) -> (int, int) {
    (
        base_offset(segment.va_address),
        base_offset(segment.va_address) + segment.bytes().len(),
    )
}

impl VsState {
    pub open spec fn span(&self) -> (int, int) {
        (self.range.start as int, self.range.end as int)
    }

    /// Whether a range follows that of the space, or is followed by it.
    pub open spec fn is_adjacent(&self, range: (int, int)) -> bool {
        self.span().1 == range.0 || self.span().0 == range.1
    }

    /// Whether a segment with the given base and range is one of the space.
    pub open spec fn takes(&self, location: DataKind<MemoryRef>, range: (int, int)) -> bool {
        self.location is Active && self.location == location && self.is_adjacent(range)
    }

    /// The range of the space with an adjacent one.
    pub open spec fn joined(&self, range: (int, int)) -> (int, int) {
        if self.span().1 == range.0 {
            (self.span().0, range.1)
        } else {
            (range.0, self.span().1)
        }
    }

    /// Whether the space takes up a segment with the given range.
    fn try_merge(&mut self, other: &Range<usize>, segment: SegmentId) -> (r: bool)
        ensures
            r == old(self).is_adjacent((other.start as int, other.end as int)),
            final(self).location == old(self).location,
            final(self).vs_id == old(self).vs_id,
            r ==> final(self).span() == old(self).joined((other.start as int, other.end as int))
                && final(self).segments@ == old(self).segments@.push(segment),
            !r ==> *final(self) == *old(self),
    {
        if self.range.end == other.start {
            self.range = Range { start: self.range.start, end: other.end };
        } else if self.range.start == other.end {
            self.range = Range { start: other.start, end: self.range.end };
        } else {
            return false;
        }
        self.segments.push(segment);
        true
    }
}

/// The first virtual space that a segment is one of.
pub open spec fn first_space(
    spaces: Seq<VsState>,
    location: DataKind<MemoryRef>,
    range: (int, int),
) -> Option<int>
    decreases spaces.len(),
{
    if spaces.len() == 0 {
        None
    } else {
        match first_space(spaces.drop_last(), location, range) {
            Some(i) => Some(i),
            None => if spaces.last().takes(location, range) {
                Some(spaces.len() - 1)
            } else {
                None
            },
        }
    }
}

proof fn lemma_first_space(
    spaces: Seq<VsState>,
    location: DataKind<MemoryRef>,
    range: (int, int),
    i: int,
)
    requires
        0 <= i < spaces.len(),
        spaces[i].takes(location, range),
        forall|j: int| 0 <= j < i ==> !(#[trigger] spaces[j]).takes(location, range),
    ensures
        first_space(spaces, location, range) == Some(i),
    decreases spaces.len(),
{
    let init = spaces.drop_last();
    if i < init.len() {
        lemma_first_space(init, location, range, i);
    } else {
        lemma_no_space(init, location, range);
    }
}

proof fn lemma_no_space(spaces: Seq<VsState>, location: DataKind<MemoryRef>, range: (int, int))
    requires
        forall|j: int| 0 <= j < spaces.len() ==> !(#[trigger] spaces[j]).takes(location, range),
    ensures
        first_space(spaces, location, range) is None,
    decreases spaces.len(),
{
    if spaces.len() > 0 {
        assert(!spaces[spaces.len() - 1].takes(location, range));
        lemma_no_space(spaces.drop_last(), location, range);
    }
}

/// The key by which virtual spaces are ordered.
pub open spec fn space_key() -> spec_fn(VsState) -> int {
    |space: VsState| base_rank(space.location)
}

/// The virtual spaces of some segments, in order of their bases.
#[derive(Debug)]
pub struct VsRecover {
    virtual_spaces: Vec<VsState>,
    next_vs_id: VirtualSpaceId,
}

impl View for VsRecover {
    type V = Seq<VsState>;

    closed spec fn view(&self) -> Seq<VsState> {
        self.virtual_spaces@
    }
}

/// Whether the virtual spaces after a segment was added are what they should be.
pub open spec fn is_added(
    before: Seq<VsState>,
    next: int,
    after: Seq<VsState>,
    segment_id: SegmentId,
    location: DataKind<MemoryRef>,
    range: (int, int),
) -> bool {
    match first_space(before, base_of(location), range) {
        Some(i) => {
            &&& after.len() == before.len()
            &&& after == before.update(i, after[i])
            &&& after[i].location == before[i].location
            &&& after[i].vs_id == before[i].vs_id
            &&& after[i].span() == before[i].joined(range)
            &&& after[i].segments@ == before[i].segments@.push(segment_id)
        },
        None => exists|space: VsState|
            {
                &&& after == #[trigger] inserted_by(before, space, space_key())
                &&& space.location == base_of(location)
                &&& space.span() == range
                &&& space.segments@ == seq![segment_id]
                &&& space.vs_id.id() == next
            },
    }
}

impl VsRecover {
    /// The number of the next virtual space.
    pub closed spec fn next_id(&self) -> int {
        self.next_vs_id.id() as int
    }

    pub fn new() -> (r: Self)
        ensures
            r@ == Seq::<VsState>::empty(),
            r.next_id() == 0,
    {
        VsRecover { virtual_spaces: Vec::new(), next_vs_id: VirtualSpaceId::new(0) }
    }

    /// The virtual spaces: number, segments and base of each, in order of the bases.
    pub fn iter_vs(&self) -> (r: Vec<(VirtualSpaceId, &Vec<SegmentId>, DataKind<MemoryRef>)>)
        ensures
            r@.len() == self@.len(),
            forall|i: int|
                0 <= i < r@.len() ==> {
                    let (vs_id, segments, location) = #[trigger] r@[i];
                    &&& vs_id == self@[i].vs_id
                    &&& segments@ == self@[i].segments@
                    &&& location == self@[i].location
                },
    {
        let mut result: Vec<(VirtualSpaceId, &Vec<SegmentId>, DataKind<MemoryRef>)> = Vec::new();
        let mut i: usize = 0;
        while i < self.virtual_spaces.len()
            invariant
                i <= self@.len(),
                result@.len() == i,
                forall|j: int|
                    0 <= j < i ==> {
                        let (vs_id, segments, location) = #[trigger] result@[j];
                        &&& vs_id == self@[j].vs_id
                        &&& segments@ == self@[j].segments@
                        &&& location == self@[j].location
                    },
            decreases self@.len() - i,
        {
            let space = &self.virtual_spaces[i];
            result.push((space.vs_id, &space.segments, space.location));
            i = i + 1;
        }
        result
    }

    /// Adds a segment to the virtual space that it continues, or to a new one.
    pub fn add_segment(&mut self, segment_id: SegmentId, segment: &SealedDataSegment)
        requires
            can_add(old(self)@, *segment),
            old(self).next_id() + 1 < u32::MAX,
        ensures
            is_added(
                old(self)@,
                old(self).next_id(),
                final(self)@,
                segment_id,
                segment.va_address,
                segment_range(*segment),
            ),
            final(self).next_id() == old(self).next_id() + if first_space(
                old(self)@,
                base_of(segment.va_address),
                segment_range(*segment),
            ) is Some {
                0int
            } else {
                1
            },
    {
        let ghost spaces = self@;
        let ghost span = segment_range(*segment);
        let location = match segment.va_address {
            DataKind::Active { memory_ref, location } => DataKind::Active {
                memory_ref,
                location: location.with_zero_offset(),
            },
            DataKind::Passive => DataKind::Passive,
        };
        let offset: usize = match segment.va_address.location() {
            Some(location) => location.offset() as usize,
            None => 0,
        };
        let len: usize = segment.data_stream().bytes_len();
        let range = Range { start: offset, end: offset + len };
        let rank: u128 = rank_of(&location);
        if location.is_active() {
            let mut i: usize = 0;
            while i < self.virtual_spaces.len()
                invariant
                    i <= spaces.len(),
                    self.virtual_spaces@ == spaces,
                    self.next_vs_id == old(self).next_vs_id,
                    location is Active,
                    location == base_of(segment.va_address),
                    rank == base_rank(location),
                    span == (range.start as int, range.end as int),
                    span == segment_range(*segment),
                    spaces == old(self)@,
                    forall|j: int| 0 <= j < i ==> !(#[trigger] spaces[j]).takes(location, span),
                decreases spaces.len() - i,
            {
                if same_base(&self.virtual_spaces[i].location, &location) {
                    if self.virtual_spaces[i].try_merge(&range, segment_id) {
                        proof {
                            lemma_first_space(spaces, location, span, i as int);
                            assert(self@ =~= spaces.update(i as int, self@[i as int]));
                        }
                        return;
                    }
                    assert(self.virtual_spaces@ =~= spaces);
                }
                i = i + 1;
            }
        }
        proof {
            lemma_no_space(spaces, location, span);
        }
        let space = VsState {
            location,
            range,
            segments: vec![segment_id],
            vs_id: self.next_vs_id,
        };
        self.next_vs_id = self.next_vs_id.next();
        let mut k: usize = self.virtual_spaces.len();
        while k > 0 && rank < rank_of(&self.virtual_spaces[k - 1].location)
            invariant
                k <= spaces.len(),
                self.virtual_spaces@ == spaces,
                rank == base_rank(location),
                forall|j: int|
                    k <= j < spaces.len() ==> rank < base_rank((#[trigger] spaces[j]).location),
            decreases k,
        {
            k = k - 1;
        }
        proof {
            lemma_inserted_at(spaces, space, space_key(), k as int);
            assert(space.segments@ =~= seq![segment_id]);
        }
        self.virtual_spaces.insert(k, space);
        assert(self@ == inserted_by(spaces, space, space_key()));
    }
}

/// Whether a segment can be added: the virtual spaces that are asked before the one that takes it
/// up do not intersect it.
pub open spec fn can_add(spaces: Seq<VsState>, segment: SealedDataSegment) -> bool {
    let location = base_of(segment.va_address);
    let range = segment_range(segment);
    let first = first_space(spaces, location, range);
    &&& parts_valid(segment.parts@)
    &&& range.1 <= usize::MAX
    &&& location is Active ==> forall|j: int|
        0 <= j < spaces.len() && (first matches Some(i) ==> j < i) && (
        #[trigger] spaces[j]).location == location ==> {
            let relation = range_relation(spaces[j].span().0, spaces[j].span().1, range.0, range.1);
            relation is Left || relation is Right
        }
}

/// Whether two bases are the same.
fn same_base(a: &DataKind<MemoryRef>, b: &DataKind<MemoryRef>) -> (r: bool)
    ensures
        r == (*a == *b),
{
    match (a, b) {
        (DataKind::Passive, DataKind::Passive) => true,
        (
            DataKind::Active { memory_ref: m, location: l },
            DataKind::Active { memory_ref: n, location: k },
        ) => m.same(n) && match (l, k) {
            (
                SegmentPlacement::GotBased { global: g, offset: x },
                SegmentPlacement::GotBased { global: h, offset: y },
            ) => g.same(h) && *x == *y,
            (SegmentPlacement::ConstantOffset(x), SegmentPlacement::ConstantOffset(y)) => *x == *y,
            _ => false,
        },
        _ => false,
    }
}

/// All segments of some virtual spaces.
pub open spec fn all_segments(spaces: Seq<VsState>) -> Multiset<SegmentId>
    decreases spaces.len(),
{
    if spaces.len() == 0 {
        Multiset::empty()
    } else {
        all_segments(spaces.drop_last()).add(spaces.last().segments@.to_multiset())
    }
}

proof fn lemma_all_segments_update(spaces: Seq<VsState>, i: int, space: VsState, id: SegmentId)
    requires
        0 <= i < spaces.len(),
        space.segments@ == spaces[i].segments@.push(id),
    ensures
        all_segments(spaces.update(i, space)) =~= all_segments(spaces).insert(id),
    decreases spaces.len(),
{
    broadcast use vstd::seq_lib::group_to_multiset_ensures;

    let init = spaces.drop_last();
    let updated = spaces.update(i, space);
    if i == spaces.len() - 1 {
        assert(updated.drop_last() =~= init);
    } else {
        lemma_all_segments_update(init, i, space, id);
        assert(updated.drop_last() =~= init.update(i, space));
    }
}

proof fn lemma_all_segments_insert(spaces: Seq<VsState>, i: int, space: VsState, id: SegmentId)
    requires
        0 <= i <= spaces.len(),
        space.segments@ == seq![id],
    ensures
        all_segments(spaces.insert(i, space)) =~= all_segments(spaces).insert(id),
    decreases spaces.len(),
{
    broadcast use vstd::seq_lib::group_to_multiset_ensures;

    let longer = spaces.insert(i, space);
    if i == spaces.len() {
        assert(longer.drop_last() =~= spaces);
        assert(seq![id] =~= Seq::<SegmentId>::empty().push(id));
        assert(Seq::<SegmentId>::empty().to_multiset() =~= Multiset::<SegmentId>::empty());
    } else {
        let init = spaces.drop_last();
        lemma_all_segments_insert(init, i, space, id);
        assert(longer.drop_last() =~= init.insert(i, space));
    }
}

/// Adding a segment adds it to exactly one virtual space, and drops no other one.
pub proof fn lemma_added_segment_is_kept(
    before: Seq<VsState>,
    next: int,
    after: Seq<VsState>,
    segment_id: SegmentId,
    location: DataKind<MemoryRef>,
    range: (int, int),
)
    requires
        is_added(before, next, after, segment_id, location, range),
    ensures
        all_segments(after) == all_segments(before).insert(segment_id),
{
    match first_space(before, base_of(location), range) {
        Some(i) => {
            lemma_first_space_bound(before, base_of(location), range);
            lemma_all_segments_update(before, i, after[i], segment_id);
        },
        None => {
            let space = choose|space: VsState|
                {
                    &&& after == #[trigger] inserted_by(before, space, space_key())
                    &&& space.location == base_of(location)
                    &&& space.span() == range
                    &&& space.segments@ == seq![segment_id]
                    &&& space.vs_id.id() == next
                };
            let k = lemma_inserted_somewhere(before, space, space_key());
            lemma_all_segments_insert(before, k, space, segment_id);
        },
    }
}

proof fn lemma_first_space_bound(
    spaces: Seq<VsState>,
    location: DataKind<MemoryRef>,
    range: (int, int),
)
    ensures
        first_space(spaces, location, range) matches Some(i) ==> 0 <= i < spaces.len()
            && spaces[i].takes(location, range),
    decreases spaces.len(),
{
    if spaces.len() > 0 {
        lemma_first_space_bound(spaces.drop_last(), location, range);
    }
}

/// Whether virtual spaces are those of some segments, added in order.
pub open spec fn are_recovered(segments: Seq<SealedDataSegment>, spaces: Seq<VsState>) -> bool
    decreases segments.len(),
{
    if segments.len() == 0 {
        spaces.len() == 0
    } else {
        exists|before: Seq<VsState>|
            are_recovered(segments.drop_last(), before) && #[trigger] follow(
                before,
                spaces,
                segments,
            )
    }
}

/// Whether adding the last segment leads from the first virtual spaces to the second.
pub open spec fn follow(
    before: Seq<VsState>,
    after: Seq<VsState>,
    segments: Seq<SealedDataSegment>,
) -> bool {
    is_added(
        before,
        before.len() as int,
        after,
        SegmentId { id: (segments.len() - 1) as u32 },
        segments.last().va_address,
        segment_range(segments.last()),
    )
}

/// The numbers of segments.
pub open spec fn segment_ids(count: nat) -> Multiset<SegmentId>
    decreases count,
{
    if count == 0 {
        Multiset::empty()
    } else {
        segment_ids((count - 1) as nat).insert(SegmentId { id: (count - 1) as u32 })
    }
}

/// Every segment is in exactly one of the recovered virtual spaces.
pub proof fn lemma_no_segment_is_lost(segments: Seq<SealedDataSegment>, spaces: Seq<VsState>)
    requires
        are_recovered(segments, spaces),
    ensures
        all_segments(spaces) == segment_ids(segments.len()),
    decreases segments.len(),
{
    if segments.len() > 0 {
        let id = SegmentId { id: (segments.len() - 1) as u32 };
        let before = choose|before: Seq<VsState>|
            are_recovered(segments.drop_last(), before) && #[trigger] follow(
                before,
                spaces,
                segments,
            );
        lemma_no_segment_is_lost(segments.drop_last(), before);
        lemma_added_segment_is_kept(
            before,
            before.len() as int,
            spaces,
            id,
            segments.last().va_address,
            segment_range(segments.last()),
        );
    }
}

/// Whether segment specs are those of some virtual spaces, one space after the other.
pub open spec fn are_specs_of(
    specs: Seq<DataSegmentSpec>,
    segments: Seq<SealedDataSegment>,
    spaces: Seq<VsState>,
) -> bool
    decreases spaces.len(),
{
    if spaces.len() == 0 {
        specs.len() == 0
    } else {
        let ids = spaces.last().segments@;
        let rest = specs.len() - ids.len();
        &&& rest >= 0
        &&& are_specs_of(specs.take(rest), segments, spaces.drop_last())
        &&& forall|k: int|
            0 <= k < ids.len() ==> is_spec_of(
                #[trigger] specs[rest + k],
                segments[ids[k].id() as int],
                spaces.len() - 1,
            )
    }
}

/// Whether a segment spec describes a segment in a virtual space.
pub open spec fn is_spec_of(spec: DataSegmentSpec, segment: SealedDataSegment, vs: int) -> bool {
    &&& spec.vs_id.id() == vs
    &&& spec.name@ == segment.name@
    &&& spec.align == segment.pow2align
    &&& spec.segment_flags == flags_of(segment.name@)
}

/// Whether a space of a builder is a recovered one, in a memory that a function chose.
pub open spec fn is_imported_space<F: Fn(MemoryRef) -> Temp<MemoryRef>>(
    import_mem: F,
    location: DataKind<MemoryRef>,
    space: DataKind<Temp<MemoryRef>>,
) -> bool {
    match (location, space) {
        (
            DataKind::Active { memory_ref: from, location: a },
            DataKind::Active { memory_ref: to, location: b },
        ) => call_ensures(import_mem, (from,), to) && a == b,
        (DataKind::Passive, DataKind::Passive) => true,
        _ => false,
    }
}

proof fn lemma_added_len(
    before: Seq<VsState>,
    next: int,
    after: Seq<VsState>,
    segment_id: SegmentId,
    location: DataKind<MemoryRef>,
    range: (int, int),
)
    requires
        is_added(before, next, after, segment_id, location, range),
    ensures
        after.len() == before.len() + if first_space(before, base_of(location), range) is Some {
            0int
        } else {
            1
        },
{
    if first_space(before, base_of(location), range) is None {
        let space = choose|space: VsState|
            {
                &&& after == #[trigger] inserted_by(before, space, space_key())
                &&& space.location == base_of(location)
                &&& space.span() == range
                &&& space.segments@ == seq![segment_id]
                &&& space.vs_id.id() == next
            };
        let k = lemma_inserted_somewhere(before, space, space_key());
    }
}

/// The segments of virtual spaces are among the added ones.
proof fn lemma_recovered_ids(segments: Seq<SealedDataSegment>, spaces: Seq<VsState>)
    requires
        are_recovered(segments, spaces),
        segments.len() < u32::MAX,
    ensures
        forall|v: int, k: int|
            #![trigger spaces[v].segments@[k]]
            0 <= v < spaces.len() && 0 <= k < spaces[v].segments@.len()
                ==> spaces[v].segments@[k].id() < segments.len(),
    decreases segments.len(),
{
    if segments.len() > 0 {
        let id = SegmentId { id: (segments.len() - 1) as u32 };
        let location = segments.last().va_address;
        let range = segment_range(segments.last());
        let before = choose|before: Seq<VsState>|
            are_recovered(segments.drop_last(), before) && #[trigger] follow(
                before,
                spaces,
                segments,
            );
        lemma_recovered_ids(segments.drop_last(), before);
        match first_space(before, base_of(location), range) {
            Some(i) => {
                lemma_first_space_bound(before, base_of(location), range);
            },
            None => {
                let space = choose|space: VsState|
                    {
                        &&& spaces == #[trigger] inserted_by(before, space, space_key())
                        &&& space.location == base_of(location)
                        &&& space.span() == range
                        &&& space.segments@ == seq![id]
                        &&& space.vs_id.id() == before.len() as int
                    };
                let at = lemma_inserted_somewhere(before, space, space_key());
                assert forall|v: int, k: int|
                    #![trigger spaces[v].segments@[k]]
                    0 <= v < spaces.len() && 0 <= k
                        < spaces[v].segments@.len() implies spaces[v].segments@[k].id()
                    < segments.len() by {
                    if v < at {
                        assert(spaces[v] == before[v]);
                    } else if v > at {
                        assert(spaces[v] == before[v - 1]);
                    }
                }
            },
        }
    }
}

impl MemLayoutSealed {
    /// Recovers the virtual spaces of the layout: segments that follow one another are in one
    /// space, and active and passive segments, and those of different memories or bases, are in
    /// different ones. Segments may be in another order than in the layout.
    ///
    /// Returns a builder without items.
    pub fn recover_vs_segments<F: Fn(MemoryRef) -> Temp<MemoryRef>>(&self, import_mem: F) -> (r:
        MemLayoutBuilder)
        requires
            self.segments@.len() + 1 < u32::MAX,
            forall|m: MemoryRef| call_requires(import_mem, (m,)),
            forall|s: int, spaces: Seq<VsState>|
                #![trigger are_recovered(self.segments@.take(s), spaces)]
                0 <= s < self.segments@.len() && are_recovered(self.segments@.take(s), spaces)
                    ==> can_add(spaces, self.segments@[s]),
        ensures
            r.items@ == CollectionView::<
                ImportedDataChunk,
                DefinedDataChunk,
            >::empty(),
            exists|spaces: Seq<VsState>|
                {
                    &&& #[trigger] are_recovered(self.segments@, spaces)
                    &&& are_specs_of(r.segments@, self.segments@, spaces)
                    &&& r.virtual_spaces@.len() == spaces.len()
                    &&& forall|v: int|
                        0 <= v < spaces.len() ==> is_imported_space(
                            import_mem,
                            spaces[v].location,
                            #[trigger] r.virtual_spaces@[v],
                        )
                },
    {
        let mut recover = VsRecover::new();
        let ghost all = self.segments@;
        let mut s: usize = 0;
        assert(all.take(0) =~= Seq::<SealedDataSegment>::empty());
        while s < self.segments.len()
            invariant
                s <= all.len(),
                all == self.segments@,
                all.len() + 1 < u32::MAX,
                are_recovered(all.take(s as int), recover@),
                recover.next_id() == recover@.len(),
                recover@.len() <= s,
                forall|s: int, spaces: Seq<VsState>|
                    #![trigger are_recovered(all.take(s), spaces)]
                    0 <= s < all.len() && are_recovered(all.take(s), spaces) ==> can_add(
                        spaces,
                        all[s],
                    ),
            decreases all.len() - s,
        {
            let ghost before = recover@;
            let ghost longer = all.take(s + 1);
            let segment = &self.segments.as_slice()[s];
            recover.add_segment(SegmentId::new(s), segment);
            proof {
                assert(longer.drop_last() =~= all.take(s as int));
                assert(longer.last() == *segment);
                lemma_added_len(
                    before,
                    before.len() as int,
                    recover@,
                    SegmentId { id: s as u32 },
                    segment.va_address,
                    segment_range(*segment),
                );
                assert(follow(before, recover@, longer));
            }
            s = s + 1;
        }
        assert(all.take(s as int) =~= all);
        let ghost spaces = recover@;
        let mut builder = MemLayoutBuilder::new();
        let listed = recover.iter_vs();
        proof {
            lemma_recovered_ids(all, spaces);
            lemma_no_segment_is_lost(all, spaces);
            lemma_segment_ids_len(all.len());
            assert(spaces.take(0) =~= Seq::<VsState>::empty());
        }
        let mut v: usize = 0;
        while v < listed.len()
            invariant
                v <= listed@.len() == spaces.len() <= all.len(),
                all == self.segments@,
                all.len() + 1 < u32::MAX,
                forall|m: MemoryRef| call_requires(import_mem, (m,)),
                forall|i: int|
                    0 <= i < spaces.len() ==> {
                        let (vs_id, segments, location) = #[trigger] listed@[i];
                        &&& segments@ == spaces[i].segments@
                        &&& location == spaces[i].location
                    },
                forall|v: int, k: int|
                    #![trigger spaces[v].segments@[k]]
                    0 <= v < spaces.len() && 0 <= k < spaces[v].segments@.len()
                        ==> spaces[v].segments@[k].id() < all.len(),
                all_segments(spaces).len() == all.len(),
                builder.items@ == CollectionView::<
                    ImportedDataChunk,
                    DefinedDataChunk,
                >::empty(),
                builder.virtual_spaces@.len() == v,
                forall|w: int|
                    0 <= w < v ==> is_imported_space(
                        import_mem,
                        spaces[w].location,
                        #[trigger] builder.virtual_spaces@[w],
                    ),
                builder.segments@.len() == all_segments(spaces.take(v as int)).len(),
                are_specs_of(builder.segments@, all, spaces.take(v as int)),
            decreases listed@.len() - v,
        {
            let (_, ids, base) = &listed[v];
            let location = match base {
                DataKind::Active { memory_ref, location } => DataKind::Active {
                    memory_ref: import_mem(*memory_ref),
                    location: *location,
                },
                DataKind::Passive => DataKind::Passive,
            };
            let vs_id = builder.virtual_spaces.push(location);
            let ghost rest = builder.segments@;
            let ghost longer = spaces.take(v + 1);
            proof {
                assert(longer.drop_last() =~= spaces.take(v as int));
                assert(longer.last() == spaces[v as int]);
                assert(ids@ == spaces[v as int].segments@);
                lemma_all_segments_prefix(spaces, v + 1);
            }
            let mut k: usize = 0;
            while k < ids.len()
                invariant
                    k <= ids@.len(),
                    all == self.segments@,
                    all.len() + 1 < u32::MAX,
                    0 <= v < spaces.len(),
                    ids@ == spaces[v as int].segments@,
                    vs_id.id() == v,
                    forall|v: int, k: int|
                        #![trigger spaces[v].segments@[k]]
                        0 <= v < spaces.len() && 0 <= k < spaces[v].segments@.len()
                            ==> spaces[v].segments@[k].id() < all.len(),
                    rest.len() + ids@.len() <= all.len(),
                    builder.items@ == CollectionView::<
                        ImportedDataChunk,
                        DefinedDataChunk,
                    >::empty(),
                    builder.virtual_spaces@.len() == v + 1,
                    forall|w: int|
                        0 <= w < v + 1 ==> is_imported_space(
                            import_mem,
                            spaces[w].location,
                            #[trigger] builder.virtual_spaces@[w],
                        ),
                    builder.segments@.len() == rest.len() + k,
                    builder.segments@.take(rest.len() as int) =~= rest,
                    forall|i: int|
                        0 <= i < k ==> is_spec_of(
                            #[trigger] builder.segments@[rest.len() + i],
                            all[ids@[i].id() as int],
                            v as int,
                        ),
                decreases ids@.len() - k,
            {
                assert(spaces[v as int].segments@[k as int].id() < all.len());
                let segment = self.segments.at(ids[k]);
                let _ = builder.segments.push(
                    DataSegmentSpec {
                        vs_id,
                        name: segment.name.clone(),
                        align: segment.pow2align,
                        segment_flags: SegmentFlags::from_name(segment.name.as_str()),
                    },
                );
                k = k + 1;
            }
            v = v + 1;
        }
        assert(spaces.take(v as int) =~= spaces);
        builder
    }
}

/// Fewer virtual spaces have no more segments.
proof fn lemma_all_segments_prefix(spaces: Seq<VsState>, count: int)
    requires
        0 < count <= spaces.len(),
    ensures
        all_segments(spaces.take(count)).len() == all_segments(spaces.take(count - 1)).len()
            + spaces[count - 1].segments@.len(),
        all_segments(spaces.take(count)).len() <= all_segments(spaces).len(),
    decreases spaces.len() - count,
{
    broadcast use vstd::seq_lib::group_to_multiset_ensures;

    assert(spaces.take(count).drop_last() =~= spaces.take(count - 1));
    if count < spaces.len() {
        lemma_all_segments_prefix(spaces, count + 1);
    } else {
        assert(spaces.take(count) =~= spaces);
    }
}

proof fn lemma_segment_ids_len(count: nat)
    ensures
        segment_ids(count).len() == count,
    decreases count,
{
    if count > 0 {
        lemma_segment_ids_len((count - 1) as nat);
    }
}

/// Whether the virtual spaces of a layout can be found again.
pub open spec fn is_recoverable(layout: MemLayoutSealed) -> bool {
    &&& layout.segments@.len() + 1 < u32::MAX
    &&& forall|s: int, spaces: Seq<VsState>|
        #![trigger are_recovered(layout.segments@.take(s), spaces)]
        0 <= s < layout.segments@.len() && are_recovered(layout.segments@.take(s), spaces)
            ==> can_add(spaces, layout.segments@[s])
}

/// Whether virtual spaces have the same bases and ranges.
pub open spec fn same_shape(a: Seq<VsState>, b: Seq<VsState>) -> bool {
    &&& a.len() == b.len()
    &&& forall|i: int|
        0 <= i < a.len() ==> (#[trigger] a[i]).location == b[i].location && a[i].span()
            == b[i].span()
}

proof fn lemma_same_first(
    a: Seq<VsState>,
    b: Seq<VsState>,
    location: DataKind<MemoryRef>,
    range: (int, int),
)
    requires
        same_shape(a, b),
    ensures
        first_space(a, location, range) == first_space(b, location, range),
    decreases a.len(),
{
    if a.len() > 0 {
        assert(a[a.len() - 1].location == b[a.len() - 1].location);
        assert forall|i: int| 0 <= i < a.len() - 1 implies (
        #[trigger] a.drop_last()[i]).location == b.drop_last()[i].location
            && a.drop_last()[i].span() == b.drop_last()[i].span() by {
            assert(a[i].location == b[i].location);
        }
        lemma_same_first(a.drop_last(), b.drop_last(), location, range);
    }
}

proof fn lemma_same_inserted(a: Seq<VsState>, b: Seq<VsState>, x: VsState, y: VsState)
    requires
        same_shape(a, b),
        x.location == y.location,
        x.span() == y.span(),
    ensures
        same_shape(inserted_by(a, x, space_key()), inserted_by(b, y, space_key())),
    decreases a.len(),
{
    if a.len() > 0 {
        assert(a[a.len() - 1].location == b[a.len() - 1].location);
        assert forall|i: int| 0 <= i < a.len() - 1 implies (
        #[trigger] a.drop_last()[i]).location == b.drop_last()[i].location
            && a.drop_last()[i].span() == b.drop_last()[i].span() by {
            assert(a[i].location == b[i].location);
        }
        lemma_same_inserted(a.drop_last(), b.drop_last(), x, y);
    }
}

proof fn lemma_same_added(
    a: Seq<VsState>,
    b: Seq<VsState>,
    c: Seq<VsState>,
    d: Seq<VsState>,
    segments: Seq<SealedDataSegment>,
)
    requires
        same_shape(a, b),
        follow(a, c, segments),
        follow(b, d, segments),
    ensures
        same_shape(c, d),
{
    let location = segments.last().va_address;
    let range = segment_range(segments.last());
    let id = SegmentId { id: (segments.len() - 1) as u32 };
    lemma_same_first(a, b, base_of(location), range);
    lemma_first_space_bound(a, base_of(location), range);
    match first_space(a, base_of(location), range) {
        Some(i) => {
            assert(a[i].location == b[i].location);
            assert forall|j: int| 0 <= j < c.len() implies (#[trigger] c[j]).location
                == d[j].location && c[j].span() == d[j].span() by {
                assert(a[j].location == b[j].location);
            }
        },
        None => {
            let x = choose|space: VsState|
                {
                    &&& c == #[trigger] inserted_by(a, space, space_key())
                    &&& space.location == base_of(location)
                    &&& space.span() == range
                    &&& space.segments@ == seq![id]
                    &&& space.vs_id.id() == a.len() as int
                };
            let y = choose|space: VsState|
                {
                    &&& d == #[trigger] inserted_by(b, space, space_key())
                    &&& space.location == base_of(location)
                    &&& space.span() == range
                    &&& space.segments@ == seq![id]
                    &&& space.vs_id.id() == b.len() as int
                };
            lemma_same_inserted(a, b, x, y);
        },
    }
}

/// The bases and ranges of the virtual spaces follow from the segments.
pub proof fn lemma_same_recovered(
    segments: Seq<SealedDataSegment>,
    a: Seq<VsState>,
    b: Seq<VsState>,
)
    requires
        are_recovered(segments, a),
        are_recovered(segments, b),
    ensures
        same_shape(a, b),
    decreases segments.len(),
{
    if segments.len() > 0 {
        let c = choose|before: Seq<VsState>|
            are_recovered(segments.drop_last(), before) && #[trigger] follow(before, a, segments);
        let d = choose|before: Seq<VsState>|
            are_recovered(segments.drop_last(), before) && #[trigger] follow(before, b, segments);
        lemma_same_recovered(segments.drop_last(), c, d);
        lemma_same_added(c, d, a, b, segments);
    }
}

proof fn lemma_same_can_add(a: Seq<VsState>, b: Seq<VsState>, segment: SealedDataSegment)
    requires
        same_shape(a, b),
        can_add(a, segment),
    ensures
        can_add(b, segment),
{
    let location = base_of(segment.va_address);
    let range = segment_range(segment);
    lemma_same_first(a, b, location, range);
    let first = first_space(b, location, range);
    assert forall|j: int|
        location is Active && 0 <= j < b.len() && (first matches Some(i) ==> j < i) && (
        #[trigger] b[j]).location == location implies ({
        let relation = range_relation(b[j].span().0, b[j].span().1, range.0, range.1);
        relation is Left || relation is Right
    }) by {
        assert(a[j].location == b[j].location);
    }
}

/// The size of a segment, if its parts are valid and it can be told.
fn known_size(segment: &SealedDataSegment) -> (r: Option<usize>)
    ensures
        match r {
            Some(size) => parts_valid(segment.parts@) && size == segment.bytes().len(),
            None => !parts_valid(segment.parts@) || segment.bytes().len() > usize::MAX,
        },
{
    let parts = segment.parts.as_slice();
    let mut size: usize = 0;
    let mut i: usize = 0;
    assert(parts@.take(0) =~= Seq::<SealedDataItem>::empty());
    while i < parts.len()
        invariant
            i <= parts@.len(),
            parts@ == segment.parts@,
            forall|j: int| 0 <= j < i ==> (#[trigger] parts@[j]).defined_entity.body.wf(),
            size == parts_bytes(parts@.take(i as int)).len(),
        decreases parts@.len() - i,
    {
        let body = &parts[i].defined_entity.body;
        if !body.is_valid() {
            assert(!segment.parts@[i as int].defined_entity.body.wf());
            return None;
        }
        proof {
            assert(parts@.take(i + 1).drop_last() =~= parts@.take(i as int));
            assert(parts@.take(i + 1).last() == parts@[i as int]);
            lemma_parts_bytes_len(parts@, i + 1);
        }
        size = match size.checked_add(body.len()) {
            Some(size) => size,
            None => {
                return None;
            },
        };
        i = i + 1;
    }
    assert(parts@.take(i as int) =~= parts@);
    Some(size)
}

/// Whether ranges do not intersect.
fn are_apart(a: &Range<usize>, b: &Range<usize>) -> (r: bool)
    ensures
        r == ({
            let relation = range_relation(a.start.pos(), a.end.pos(), b.start.pos(), b.end.pos());
            relation is Left || relation is Right
        }),
{
    match cmp_range(a, b) {
        RangeComp::Left => true,
        RangeComp::Right => true,
        _ => false,
    }
}

impl VsRecover {
    /// Whether a segment can be added.
    pub fn accepts(&self, segment: &SealedDataSegment) -> (r: bool)
        ensures
            r == can_add(self@, *segment),
    {
        let ghost spaces = self@;
        let ghost base = base_of(segment.va_address);
        let ghost span = segment_range(*segment);
        let size = match known_size(segment) {
            Some(size) => size,
            None => {
                return false;
            },
        };
        let (location, offset) = match segment.va_address {
            DataKind::Active { memory_ref, location } => (
                DataKind::Active { memory_ref, location: location.with_zero_offset() },
                location.offset() as usize,
            ),
            DataKind::Passive => (DataKind::Passive, 0),
        };
        let end: usize = match offset.checked_add(size) {
            Some(end) => end,
            None => {
                return false;
            },
        };
        if !location.is_active() {
            return true;
        }
        let mut i: usize = 0;
        while i < self.virtual_spaces.len()
            invariant
                i <= spaces.len(),
                self.virtual_spaces@ == spaces,
                spaces == self@,
                location is Active,
                location == base,
                base == base_of(segment.va_address),
                span == segment_range(*segment),
                span == (offset as int, end as int),
                parts_valid(segment.parts@),
                forall|j: int| 0 <= j < i ==> !(#[trigger] spaces[j]).takes(base, span),
                forall|j: int|
                    0 <= j < i && (#[trigger] spaces[j]).location == base ==> {
                        let relation = range_relation(
                            spaces[j].span().0,
                            spaces[j].span().1,
                            span.0,
                            span.1,
                        );
                        relation is Left || relation is Right
                    },
            decreases spaces.len() - i,
        {
            let space = &self.virtual_spaces[i];
            if same_base(&space.location, &location) {
                if space.range.end == offset || space.range.start == end {
                    proof {
                        lemma_first_space(spaces, base, span, i as int);
                    }
                    return true;
                }
                if !are_apart(&space.range, &Range { start: offset, end }) {
                    proof {
                        lemma_first_space_bound(spaces, base, span);
                        assert(spaces[i as int].location == base);
                    }
                    return false;
                }
            }
            i = i + 1;
        }
        proof {
            lemma_no_space(spaces, base, span);
        }
        true
    }
}

impl MemLayoutSealed {
    /// Whether the virtual spaces of the layout can be found again: segments with the same base do
    /// not intersect.
    pub fn check_recoverable(&self) -> (r: bool)
        ensures
            r == is_recoverable(*self),
    {
        let ghost all = self.segments@;
        if self.segments.len() >= u32::MAX as usize - 1 {
            return false;
        }
        let mut recover = VsRecover::new();
        let mut s: usize = 0;
        assert(all.take(0) =~= Seq::<SealedDataSegment>::empty());
        while s < self.segments.len()
            invariant
                s <= all.len(),
                all == self.segments@,
                all.len() + 1 < u32::MAX,
                are_recovered(all.take(s as int), recover@),
                recover.next_id() == recover@.len(),
                recover@.len() <= s,
                forall|t: int, spaces: Seq<VsState>|
                    #![trigger are_recovered(all.take(t), spaces)]
                    0 <= t < s && are_recovered(all.take(t), spaces) ==> can_add(spaces, all[t]),
            decreases all.len() - s,
        {
            let ghost before = recover@;
            let ghost longer = all.take(s + 1);
            let segment = &self.segments.as_slice()[s];
            if !recover.accepts(segment) {
                assert(!can_add(before, all[s as int]));
                return false;
            }
            recover.add_segment(SegmentId::new(s), segment);
            proof {
                assert(longer.drop_last() =~= all.take(s as int));
                assert(longer.last() == *segment);
                assert(follow(before, recover@, longer));
                lemma_added_len(
                    before,
                    before.len() as int,
                    recover@,
                    SegmentId { id: s as u32 },
                    segment.va_address,
                    segment_range(*segment),
                );
                assert forall|spaces: Seq<VsState>|
                    #![trigger are_recovered(all.take(s as int), spaces)]
                    are_recovered(all.take(s as int), spaces) implies can_add(
                    spaces,
                    all[s as int],
                ) by {
                    lemma_same_recovered(all.take(s as int), before, spaces);
                    lemma_same_can_add(before, spaces, all[s as int]);
                }
            }
            s = s + 1;
        }
        true
    }
}

} // verus!
