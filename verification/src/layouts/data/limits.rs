//! Tells whether everything in a data layout is representable.
use crate::emit::relocation::encode::{lemma_fixed_leb_len, sleb, uleb};
use crate::index::{MAX_VALUE, TempIndex};
use crate::layouts::data::builder::{
    end_address, items_of, lemma_end_address, lemma_file_start, lemma_segment_start, DataKind,
    DataSegmentSpec, IndexedItem, LayoutInput,
};
use crate::layouts::data::{
    calculate_padding, data_segment_header_start, encodable, lemma_power2_monotone,
    lemma_power2_positive, power2, power_of_two, segment_header, DefinedDataChunk,
};
use crate::layouts::SegmentPlacement;
use crate::typed::MemoryRef;
use vstd::prelude::*;

verus! {

/// Whether a power of two is representable.
fn is_representable(exp: u8) -> (r: bool)
    ensures
        r == (power2(exp as nat) <= usize::MAX),
{
    let mut value: usize = 1;
    let mut i: u8 = 0;
    while i < exp
        invariant
            i <= exp,
            value == power2(i as nat),
        decreases exp - i,
    {
        if value > usize::MAX / 2 {
            proof {
                lemma_power2_monotone(i as nat + 1, exp as nat);
            }
            return false;
        }
        value = value * 2;
        i = i + 1;
    }
    true
}

proof fn lemma_items_prefix(items: Seq<DefinedDataChunk>, segment: int, k: int)
    requires
        0 <= k <= items.len(),
    ensures
        items_of(items.take(k), segment).len() <= items_of(items, segment).len(),
        items_of(items.take(k), segment) == items_of(items, segment).take(
            items_of(items.take(k), segment).len() as int,
        ),
    decreases items.len(),
{
    if k == items.len() {
        assert(items.take(k) =~= items);
        assert(items_of(items, segment).take(items_of(items, segment).len() as int) =~= items_of(
            items,
            segment,
        ));
    } else {
        lemma_items_prefix(items.drop_last(), segment, k);
        assert(items.drop_last().take(k) =~= items.take(k));
        let part = items_of(items.take(k), segment);
        let rest = items_of(items.drop_last(), segment);
        assert(items_of(items, segment).take(part.len() as int) =~= rest.take(part.len() as int));
    }
}

/// The address behind the items of a segment that starts at `start`, if it is representable.
fn items_end(items: &[DefinedDataChunk], segment: u32, start: usize) -> (r: Option<usize>)
    requires
        forall|i: int|
            0 <= i < items@.len() ==> {
                let item = #[trigger] items@[i];
                &&& item.body.wf()
                &&& power2(item.entity_type.alignment as nat) <= usize::MAX
            },
    ensures
        match r {
            Some(end) => end == end_address(items_of(items@, segment as int), start as int),
            None => end_address(items_of(items@, segment as int), start as int) > usize::MAX,
        },
{
    let ghost all = items@;
    let mut end: usize = start;
    let mut i: usize = 0;
    assert(all.take(0) =~= Seq::<DefinedDataChunk>::empty());
    while i < items.len()
        invariant
            i <= all.len(),
            all == items@,
            forall|i: int|
                0 <= i < all.len() ==> {
                    let item = #[trigger] all[i];
                    &&& item.body.wf()
                    &&& power2(item.entity_type.alignment as nat) <= usize::MAX
                },
            end == end_address(items_of(all.take(i as int), segment as int), start as int),
        decreases all.len() - i,
    {
        let item = &items[i];
        assert(all[i as int].body.wf());
        let ghost done = items_of(all.take(i as int), segment as int);
        let ghost more = items_of(all.take(i + 1), segment as int);
        proof {
            assert(all.take(i + 1).drop_last() =~= all.take(i as int));
            assert(all.take(i + 1).last() == all[i as int]);
            lemma_power2_positive(item.entity_type.alignment as nat);
        }
        if item.entity_type.segment_id.id == segment {
            proof {
                assert(more.drop_last() =~= done);
                lemma_items_prefix(all, segment as int, i + 1);
                lemma_end_address(
                    items_of(all, segment as int),
                    start as int,
                    more.len() as int,
                );
            }
            let padding: usize = calculate_padding(end, power_of_two(item.entity_type.alignment));
            let size: usize = item.body.len();
            assert(end_address(more, start as int) == end + padding + size);
            if padding > usize::MAX - end || size > usize::MAX - end - padding {
                return None;
            }
            end = end + padding + size;
        }
        i = i + 1;
    }
    assert(all.take(i as int) =~= all);
    Some(end)
}

proof fn lemma_uleb_len(value: nat)
    ensures
        value < 128 ==> uleb(value).len() == 1,
        value < 0x4000 ==> uleb(value).len() <= 2,
        value < 0x20_0000 ==> uleb(value).len() <= 3,
        value < 0x1000_0000 ==> uleb(value).len() <= 4,
        value < 0x8_0000_0000 ==> uleb(value).len() <= 5,
{
    reveal_with_fuel(uleb, 5);
}

proof fn lemma_sleb_len(value: int)
    requires
        i32::MIN <= value <= u32::MAX,
    ensures
        sleb(value).len() <= 5,
{
    reveal_with_fuel(sleb, 5);
}

proof fn lemma_header_len(kind: DataKind<MemoryRef>)
    ensures
        segment_header(kind).len() <= 20,
{
    if let DataKind::Active { memory_ref, location } = kind {
        lemma_fixed_leb_len(memory_ref.id() as int, 5);
        lemma_sleb_len(location.offset_spec() as int);
        if let SegmentPlacement::GotBased { global, .. } = location {
            lemma_uleb_len(global.id() as nat);
        }
    }
}

fn items_fit(items: &[DefinedDataChunk], segments: usize) -> (r: bool)
    ensures
        r == forall|i: int|
            0 <= i < items@.len() ==> {
                let item = #[trigger] items@[i];
                &&& item.entity_type.segment_id.id() < segments
                &&& item.body.wf()
                &&& power2(item.entity_type.alignment as nat) <= usize::MAX
            },
{
    let ghost all = items@;
    let mut i: usize = 0;
    while i < items.len()
        invariant
            i <= all.len(),
            all == items@,
            forall|j: int|
                0 <= j < i ==> {
                    let item = #[trigger] all[j];
                    &&& item.entity_type.segment_id.id() < segments
                    &&& item.body.wf()
                    &&& power2(item.entity_type.alignment as nat) <= usize::MAX
                },
        decreases all.len() - i,
    {
        let item = &items[i];
        if item.entity_type.segment_id.id as usize >= segments || !item.body.is_valid()
            || !is_representable(item.entity_type.alignment) {
            assert({
                let item = all[i as int];
                !{
                    &&& item.entity_type.segment_id.id() < segments
                    &&& item.body.wf()
                    &&& power2(item.entity_type.alignment as nat) <= usize::MAX
                }
            });
            return false;
        }
        i = i + 1;
    }
    true
}

/// Whether everything in a layout is in range, so that all items can get their places.
pub(crate) fn layout_fits(
    spaces: &Vec<DataKind<MemoryRef>>,
    segments: &[DataSegmentSpec],
    items: &[DefinedDataChunk],
    section_offset: usize,
    Ghost(input): Ghost<LayoutInput>,
) -> (r: bool)
    requires
        input == (LayoutInput {
            spaces: spaces@,
            segments: segments@,
            items: items@,
            section_offset: section_offset as int,
        }),
    ensures
        r == input.fits(),
{
    if segments.len() >= u32::MAX as usize || items.len() > MAX_VALUE as usize {
        return false;
    }
    if !items_fit(items, segments.len()) {
        return false;
    }
    let mut offsets: Vec<usize> = Vec::new();
    let mut i: usize = 0;
    while i < spaces.len()
        invariant
            i <= spaces@.len(),
            input.spaces == spaces@,
            offsets@.len() == i,
            forall|v: int| 0 <= v < i ==> #[trigger] offsets@[v] == input.space_end(v, 0),
        decreases spaces@.len() - i,
    {
        let start: usize = match spaces[i].location() {
            Some(location) => location.offset() as usize,
            None => 0,
        };
        offsets.push(start);
        i = i + 1;
    }
    let mut file: usize = section_offset;
    let mut s: usize = 0;
    while s < segments.len()
        invariant
            s <= segments@.len() < u32::MAX,
            input.spaces == spaces@,
            input.segments == segments@,
            input.items == items@,
            input.section_offset == section_offset,
            items@.len() <= MAX_VALUE,
            forall|i: int|
                0 <= i < items@.len() ==> {
                    let item = #[trigger] items@[i];
                    &&& item.entity_type.segment_id.id() < segments@.len()
                    &&& item.body.wf()
                    &&& power2(item.entity_type.alignment as nat) <= usize::MAX
                },
            offsets@.len() == spaces@.len(),
            forall|v: int|
                0 <= v < spaces@.len() ==> #[trigger] offsets@[v] == input.space_end(v, s as int),
            file == input.file_start(s as int),
            forall|t: int|
                0 <= t < s ==> {
                    let segment = #[trigger] input.segments[t];
                    &&& segment.vs_id.id() < input.spaces.len()
                    &&& power2(segment.align as nat) <= usize::MAX
                    &&& input.segment_end(t) <= usize::MAX
                    &&& input.file_start(t + 1) <= usize::MAX
                    &&& encodable(input.segment_kind(t))
                    &&& input.spaces[input.space_of(t)] is Active ==> input.segment_start(t)
                        <= i32::MAX
                    &&& input.header_len(t) <= u32::MAX
                },
        decreases segments@.len() - s,
    {
        let ghost at = s as int;
        let segment = &segments[s];
        assert(*segment == input.segments[at]);
        proof {
            lemma_segment_start(input, at);
            lemma_power2_positive(segment.align as nat);
            lemma_header_len(input.segment_kind(at));
            lemma_file_start(input, at, at + 1);
        }
        let vs: usize = segment.vs_id.id as usize;
        if vs >= spaces.len() || !is_representable(segment.align) {
            assert(!input.fits());
            return false;
        }
        let before: usize = offsets[vs];
        let padding: usize = calculate_padding(before, power_of_two(segment.align));
        assert(input.segment_start(at) == before + padding);
        if padding > usize::MAX - before {
            assert(!input.fits());
            return false;
        }
        let start: usize = before + padding;
        let kind = match spaces[vs] {
            DataKind::Active { memory_ref, location } => {
                if start > i32::MAX as usize {
                    assert(!input.fits());
                    return false;
                }
                DataKind::Active {
                    memory_ref,
                    location: location.with_zero_offset().add_offset(start as u32),
                }
            },
            DataKind::Passive => DataKind::Passive,
        };
        assert(kind == input.segment_kind(at));
        let header_len: usize = data_segment_header_start(kind).len() + 5;
        let end: usize = match items_end(items, s as u32, start) {
            Some(end) => end,
            None => {
                assert(!input.fits());
                return false;
            },
        };
        let size: usize = end - start;
        assert(input.file_start(at + 1) == file + header_len + size);
        if header_len > usize::MAX - file || size > usize::MAX - file - header_len {
            assert(!input.fits());
            return false;
        }
        offsets.set(vs, end);
        file = file + header_len + size;
        s = s + 1;
        proof {
            assert forall|v: int| 0 <= v < spaces@.len() implies #[trigger] offsets@[v]
                == input.space_end(v, s as int) by {
                assert(input.space_end(v, at + 1) == if input.space_of(at) == v {
                    input.segment_end(at)
                } else {
                    input.space_end(v, at)
                });
            }
        }
    }
    true
}

} // verus!
