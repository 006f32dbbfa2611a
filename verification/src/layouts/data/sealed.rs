//! Sealed data layouts.
use crate::emit::modify::wasm_emitter::{
    fresh, lemma_after_at_end, lemma_after_twice, len_prefixed, EncodeError, EncodeWithRelocOffset,
    Encoder, SectionList,
};
use crate::emit::relocation::encode::lemma_fixed_leb_len;
use crate::index::{
    entries, filled, lemma_entry_is_slot, slot_at, GappedMap, PrimaryMap, ReservedValue, Temp,
    TempIndex, WithStart,
};
use crate::layouts::data::builder::{DataKind, LayoutInput};
use crate::layouts::data::{
    data_segment_header_start, encodable, segment_header, DataSymbolRef, DefinedDataChunk,
    ImportedDataChunk, Offsets,
};
use crate::typed::entities::ImportOrDefined;
use crate::layouts::{PartId, SegmentId};
use crate::typed::MemoryRef;
use vstd::prelude::*;

verus! {

/// A chunk of a segment.
#[derive(Debug)]
pub struct SealedDataItem {
    pub defined_entity: DefinedDataChunk,
    /// Index of the data symbol; padding has none.
    pub item_id: Option<DataSymbolRef>,
}

/// The place of a data symbol.
#[derive(Copy, Debug, Clone, Eq, PartialEq, Structural)]
pub struct DataItemPlace {
    pub offsets: Offsets,
    pub segment_id: SegmentId,
    pub part_id: PartId,
}

impl ReservedValue for DataItemPlace {
    open spec fn is_reserved_spec(&self) -> bool {
        self.offsets.is_reserved_spec() && self.segment_id.is_reserved_spec()
            && self.part_id.is_reserved_spec()
    }

    fn reserved_value() -> (r: Self) {
        DataItemPlace {
            offsets: Offsets::reserved_value(),
            segment_id: SegmentId::reserved(),
            part_id: PartId::reserved(),
        }
    }

    fn is_reserved_value(&self) -> (r: bool) {
        self.offsets.is_reserved_value() && self.segment_id.is_reserved() && self.part_id.is_reserved()
    }
}

/// A segment whose parts have their places.
#[derive(Debug)]
pub struct SealedDataSegment {
    pub parts: PrimaryMap<PartId, SealedDataItem>,
    pub name: String,
    /// Alignment as a power of two.
    pub pow2align: u8,
    /// Where the segment starts in its memory.
    pub va_address: DataKind<MemoryRef>,
    /// Where the segment starts in the file.
    pub file_offset: usize,
}

/// A layout in which every item has its place.
#[derive(Debug)]
pub struct MemLayoutSealed {
    pub segments: PrimaryMap<SegmentId, SealedDataSegment>,
    /// Data symbols that other modules define.
    pub external: WithStart<DataSymbolRef, ImportedDataChunk>,
    /// Places of the defined data symbols.
    pub defined: GappedMap<DataSymbolRef, DataItemPlace>,
}

impl MemLayoutSealed {
    /// Every place names a part of a segment.
    pub open spec fn wf(&self) -> bool {
        &&& self.defined.wf()
        &&& forall|key: nat|
            (#[trigger] slot_at(self.defined@, key)) matches Some(place) ==> {
                &&& place.segment_id.id() < self.segments@.len()
                &&& place.part_id.id() < self.segments@[place.segment_id.id() as int].parts@.len()
            }
    }

    /// Whether the layout is what an input asks for.
    pub open spec fn is_sealed_from(&self, input: LayoutInput) -> bool {
        &&& self.segments@.len() == input.segments.len()
        &&& forall|s: int|
            0 <= s < input.segments.len() ==> input.is_sealed(s, #[trigger] self.segments@[s])
        &&& self.defined@ == input.places(input.segments.len() as int)
    }
}

/// The bytes of parts, one after the other.
pub open spec fn parts_bytes(parts: Seq<SealedDataItem>) -> Seq<u8>
    decreases parts.len(),
{
    if parts.len() == 0 {
        Seq::empty()
    } else {
        parts_bytes(parts.drop_last()) + parts.last().defined_entity.body.emitted()
    }
}

/// Whether the bodies of parts are valid.
pub open spec fn parts_valid(parts: Seq<SealedDataItem>) -> bool {
    forall|i: int| 0 <= i < parts.len() ==> (#[trigger] parts[i]).defined_entity.body.wf()
}

/// The bytes of a segment.
#[derive(Debug)]
pub struct DataStream<'a> {
    parts: &'a [SealedDataItem],
    total_size: usize,
}

impl<'a> View for DataStream<'a> {
    type V = Seq<u8>;

    closed spec fn view(&self) -> Seq<u8> {
        parts_bytes(self.parts@)
    }
}

impl<'a> DataStream<'a> {
    pub closed spec fn wf(&self) -> bool {
        &&& parts_valid(self.parts@)
        &&& self.total_size == self@.len()
    }

    /// Number of bytes.
    pub fn bytes_len(&self) -> (r: usize)
        requires
            self.wf(),
        ensures
            r == self@.len(),
    {
        self.total_size
    }

    /// Appends all bytes.
    pub fn append_to(&self, writer: &mut Vec<u8>)
        requires
            self.wf(),
        ensures
            final(writer)@ == old(writer)@ + self@,
    {
        let ghost before = writer@;
        let mut i: usize = 0;
        assert(self.parts@.take(0) =~= Seq::<SealedDataItem>::empty());
        assert(before + parts_bytes(self.parts@.take(0)) =~= before);
        while i < self.parts.len()
            invariant
                i <= self.parts@.len(),
                parts_valid(self.parts@),
                writer@ == before + parts_bytes(self.parts@.take(i as int)),
            decreases self.parts@.len() - i,
        {
            assert(self.parts@.take(i + 1).drop_last() =~= self.parts@.take(i as int));
            self.parts[i].defined_entity.body.append_to(writer);
            assert(writer@ =~= before + parts_bytes(self.parts@.take(i + 1)));
            i = i + 1;
        }
        assert(self.parts@.take(i as int) =~= self.parts@);
    }

    /// All bytes.
    pub fn to_bytes(&self) -> (r: Vec<u8>)
        requires
            self.wf(),
        ensures
            r@ == self@,
    {
        let mut bytes: Vec<u8> = Vec::new();
        self.append_to(&mut bytes);
        assert(bytes@ =~= self@);
        bytes
    }
}

impl<'a> EncodeWithRelocOffset for DataStream<'a> {
    /// Offset of the first byte.
    type Offsets = u32;

    open spec fn ready(&self) -> bool {
        self.wf()
    }

    open spec fn encoding(&self) -> Seq<u8> {
        len_prefixed(self@)
    }

    open spec fn offsets_at(&self, at: int, offsets: u32) -> bool {
        offsets == at + 5
    }

    fn encode(&self, encoder: &mut Encoder) -> (r: u32) {
        let bytes = self.to_bytes();
        proof {
            lemma_fixed_leb_len(bytes@.len() as int, 5);
        }
        encoder.encode_len_prefixed_bytes(bytes.as_slice())
    }
}

impl SealedDataSegment {
    /// The bytes of the segment.
    pub open spec fn bytes(&self) -> Seq<u8> {
        parts_bytes(self.parts@)
    }

    /// The bytes of the segment.
    pub fn data_stream(&self) -> (r: DataStream<'_>)
        requires
            parts_valid(self.parts@),
            self.bytes().len() <= usize::MAX,
        ensures
            r.wf(),
            r@ == self.bytes(),
    {
        let parts = self.parts.as_slice();
        let mut total_size: usize = 0;
        let mut i: usize = 0;
        assert(parts@.take(0) =~= Seq::<SealedDataItem>::empty());
        while i < parts.len()
            invariant
                i <= parts@.len(),
                parts_valid(parts@),
                parts_bytes(parts@).len() <= usize::MAX,
                total_size == parts_bytes(parts@.take(i as int)).len(),
            decreases parts@.len() - i,
        {
            proof {
                assert(parts@.take(i + 1).drop_last() =~= parts@.take(i as int));
                lemma_parts_bytes_len(parts@, i + 1);
            }
            total_size = total_size + parts[i].defined_entity.body.len();
            i = i + 1;
        }
        assert(parts@.take(i as int) =~= parts@);
        DataStream { parts, total_size }
    }

    /// The encoded segment: header, number of bytes, bytes.
    pub open spec fn encoding(&self) -> Seq<u8> {
        segment_header(self.va_address) + len_prefixed(self.bytes())
    }
}

pub(crate) proof fn lemma_parts_bytes_len(parts: Seq<SealedDataItem>, k: int)
    requires
        0 <= k <= parts.len(),
    ensures
        parts_bytes(parts.take(k)).len() <= parts_bytes(parts).len(),
    decreases parts.len(),
{
    if k < parts.len() {
        lemma_parts_bytes_len(parts.drop_last(), k);
        assert(parts.drop_last().take(k) =~= parts.take(k));
    } else {
        assert(parts.take(k) =~= parts);
    }
}

/// Encodes a data segment.
fn data_segment_adapter(
    encoder: &mut Encoder,
    location: DataKind<MemoryRef>,
    data_stream: DataStream<'_>,
)
    requires
        old(encoder).wf(),
        encodable(location),
        data_stream.wf(),
        old(encoder)@.has_room(
            segment_header(location).len() + 5 + data_stream@.len() as int,
        ),
    ensures
        final(encoder).wf(),
        final(encoder)@ == old(encoder)@.after(
            segment_header(location) + len_prefixed(data_stream@),
        ),
{
    broadcast use lemma_after_twice;

    proof {
        lemma_fixed_leb_len(data_stream@.len() as int, 5);
        encoder.lemma_valid();
    }
    let header = data_segment_header_start(location);
    encoder.push_bytes(header.as_slice());
    let _ = data_stream.encode(encoder);
}

/// The encoded segments, one after the other.
pub open spec fn segments_encoding(segments: Seq<SealedDataSegment>) -> Seq<u8>
    decreases segments.len(),
{
    if segments.len() == 0 {
        Seq::empty()
    } else {
        segments_encoding(segments.drop_last()) + segments.last().encoding()
    }
}

/// Whether segments can be encoded.
pub open spec fn segments_encodable(segments: Seq<SealedDataSegment>) -> bool {
    forall|s: int|
        0 <= s < segments.len() ==> {
            let segment = #[trigger] segments[s];
            parts_valid(segment.parts@) && encodable(segment.va_address)
        }
}

proof fn lemma_segments_encoding_len(segments: Seq<SealedDataSegment>, k: int)
    requires
        0 <= k <= segments.len(),
    ensures
        segments_encoding(segments.take(k)).len() <= segments_encoding(segments).len(),
    decreases segments.len(),
{
    if k < segments.len() {
        lemma_segments_encoding_len(segments.drop_last(), k);
        assert(segments.drop_last().take(k) =~= segments.take(k));
    } else {
        assert(segments.take(k) =~= segments);
    }
}

impl MemLayoutSealed {
    pub fn item_places(&self) -> (r: &GappedMap<DataSymbolRef, DataItemPlace>)
        ensures
            *r == self.defined,
    {
        &self.defined
    }

    pub fn external(&self) -> (r: &WithStart<DataSymbolRef, ImportedDataChunk>)
        ensures
            *r == self.external,
    {
        &self.external
    }

    pub fn segments(&self) -> (r: &PrimaryMap<SegmentId, SealedDataSegment>)
        ensures
            *r == self.segments,
    {
        &self.segments
    }

    /// Writes every segment as an item of the data section.
    pub fn encode(&self, writer: &mut SectionList)
        requires
            old(writer).wf(),
            old(writer).enc().offset == old(writer).enc().end(),
            segments_encodable(self.segments@),
            old(writer).count() + self.segments@.len() <= u32::MAX,
            old(writer).enc().has_room(segments_encoding(self.segments@).len() as int),
        ensures
            final(writer).wf(),
            final(writer).enc().offset == final(writer).enc().end(),
            final(writer).enc().start == old(writer).enc().start,
            final(writer).enc().prefix == old(writer).enc().prefix,
            final(writer).head() == old(writer).head(),
            final(writer).count() == old(writer).count() + self.segments@.len(),
            final(writer).body() == old(writer).body() + segments_encoding(self.segments@),
    {
        let ghost all = self.segments@;
        let ghost before = *writer;
        let mut s: usize = 0;
        proof {
            assert(all.take(0) =~= Seq::<SealedDataSegment>::empty());
            assert(before.body() + segments_encoding(all.take(0)) =~= before.body());
            before.lemma_parts();
        }
        while s < self.segments.len()
            invariant
                s <= all.len(),
                all == self.segments@,
                writer.wf(),
                segments_encodable(all),
                writer.enc().valid(),
                writer.enc().offset == writer.enc().end(),
                writer.enc().start == before.enc().start,
                writer.enc().prefix == before.enc().prefix,
                writer.head() == before.head(),
                writer.count() == before.count() + s,
                before.count() + all.len() <= u32::MAX,
                before.enc().has_room(segments_encoding(all).len() as int),
                writer.body() == before.body() + segments_encoding(all.take(s as int)),
                writer.enc().offset == before.enc().offset + segments_encoding(
                    all.take(s as int),
                ).len(),
            decreases all.len() - s,
        {
            let segment = &self.segments.as_slice()[s];
            let ghost encoding = segment.encoding();
            proof {
                assert(all.take(s + 1).drop_last() =~= all.take(s as int));
                assert(all.take(s + 1).last() == *segment);
                lemma_segments_encoding_len(all, s + 1);
                assert(parts_valid(segment.parts@) && encodable(segment.va_address));
                lemma_fixed_leb_len(segment.bytes().len() as int, 5);
            }
            let ghost offset = writer.enc().offset;
            let func = |encoder: &mut Encoder| -> (r: Result<(), EncodeError>)
                requires
                    encoder.wf(),
                    encoder@ == fresh(offset),
                ensures
                    r is Ok,
                    final(encoder).wf(),
                    final(encoder)@ == fresh(offset).after(encoding),
                {
                    data_segment_adapter(encoder, segment.va_address, segment.data_stream());
                    Ok(())
                };
            let ghost list = *writer;
            let _ = writer.item_from_encoder(func);
            proof {
                lemma_after_at_end(fresh(offset), encoding);
                assert(Seq::<u8>::empty() + encoding =~= encoding);
                writer.lemma_parts();
                assert(writer.body() =~= before.body() + segments_encoding(all.take(s + 1)));
            }
            s = s + 1;
        }
        assert(all.take(s as int) =~= all);
    }

    /// Whether nothing but the chunk at a place differs between two layouts.
    pub open spec fn same_but(&self, other: &Self, place: DataItemPlace) -> bool {
        let s = place.segment_id.id() as int;
        let p = place.part_id.id() as int;
        &&& other.external == self.external
        &&& other.defined == self.defined
        &&& other.segments@.len() == self.segments@.len()
        &&& forall|i: int|
            0 <= i < self.segments@.len() && i != s ==> #[trigger] other.segments@[i]
                == self.segments@[i]
        &&& other.segments@[s].name == self.segments@[s].name
        &&& other.segments@[s].pow2align == self.segments@[s].pow2align
        &&& other.segments@[s].va_address == self.segments@[s].va_address
        &&& other.segments@[s].file_offset == self.segments@[s].file_offset
        &&& other.segments@[s].parts@ == self.segments@[s].parts@.update(
            p,
            SealedDataItem {
                defined_entity: other.chunk_at(place),
                ..self.segments@[s].parts@[p]
            },
        )
    }

    /// The chunk at a place, to modify it.
    pub fn chunk_mut(&mut self, place: &DataItemPlace) -> (r: &mut DefinedDataChunk)
        requires
            place.segment_id.id() < old(self).segments@.len(),
            place.part_id.id() < old(self).segments@[place.segment_id.id() as int].parts@.len(),
        ensures
            *r == old(self).chunk_at(*place),
            old(self).same_but(final(self), *place),
            final(self).chunk_at(*place) == *final(r),
    {
        let segment = self.segments.at_mut(place.segment_id);
        let part = segment.parts.at_mut(place.part_id);
        &mut part.defined_entity
    }

    pub open spec fn chunk_at(&self, place: DataItemPlace) -> DefinedDataChunk {
        self.segments@[place.segment_id.id() as int].parts@[place.part_id.id() as int].defined_entity
    }

    /// A data symbol, external or defined.
    pub fn get_entity(&self, data_ref: DataSymbolRef) -> (r: ImportOrDefined<
        &ImportedDataChunk,
        &DefinedDataChunk,
    >)
        requires
            self.wf(),
            self.is_external_ref(data_ref) || self.defined.lookup(data_ref) is Some,
        ensures
            if self.is_external_ref(data_ref) {
                r matches ImportOrDefined::External(imp) && *imp == self.external@[data_ref.id()
                    - self.external.start_spec().id()]
            } else {
                r matches ImportOrDefined::Defined(chunk) && *chunk == self.chunk_at(
                    self.defined.lookup(data_ref)->0,
                )
            },
    {
        if let Some(imp) = self.external.get(data_ref) {
            return ImportOrDefined::External(imp);
        }
        let place = *self.defined.get(data_ref).unwrap();
        assert(slot_at(self.defined@, data_ref.id() as nat) == Some(place));
        let sealed = self.segments.at(place.segment_id).parts.at(place.part_id);
        ImportOrDefined::Defined(&sealed.defined_entity)
    }

    pub open spec fn is_external_ref(&self, data_ref: DataSymbolRef) -> bool {
        self.external.start_spec().id() <= data_ref.id() < self.external.start_spec().id()
            + self.external@.len()
    }

    /// Every defined data symbol, in order of the indices.
    pub fn defined_iter(&self) -> (r: Vec<(DataSymbolRef, &DefinedDataChunk)>)
        requires
            self.wf(),
        ensures
            r@.len() == entries(self.defined@).len(),
            forall|i: int|
                0 <= i < r@.len() ==> (#[trigger] r@[i]).0.id() == entries(self.defined@)[i].0
                    && *r@[i].1 == self.chunk_at(entries(self.defined@)[i].1),
    {
        let places = self.defined.iter();
        let mut result: Vec<(DataSymbolRef, &DefinedDataChunk)> = Vec::new();
        let mut i: usize = 0;
        proof {
            self.defined.lemma_len();
        }
        while i < places.len()
            invariant
                self.wf(),
                i <= places@.len(),
                self.defined@.len() < u32::MAX,
                places@.len() == entries(self.defined@).len(),
                forall|j: int|
                    0 <= j < places@.len() ==> (#[trigger] places@[j]).0.id() == entries(
                        self.defined@,
                    )[j].0 && *places@[j].1 == entries(self.defined@)[j].1,
                result@.len() == i,
                forall|j: int|
                    0 <= j < i ==> (#[trigger] result@[j]).0.id() == entries(self.defined@)[j].0
                        && *result@[j].1 == self.chunk_at(entries(self.defined@)[j].1),
            decreases places@.len() - i,
        {
            let (id, place) = places[i];
            proof {
                lemma_entry_is_slot(self.defined@, i as int);
                assert(slot_at(self.defined@, id.id() as nat) == Some(*place));
            }
            let sealed = self.segments.at(place.segment_id).parts.at(place.part_id);
            result.push((id, &sealed.defined_entity));
            i = i + 1;
        }
        result
    }

    /// Number of indices: those up to the last defined symbol, and the external ones.
    pub fn len(&self) -> (r: usize)
        requires
            self.wf(),
            index_end(self.defined@) + self.external@.len() <= usize::MAX,
        ensures
            r == index_end(self.defined@) + self.external@.len(),
    {
        self.defined_len() + self.external.len()
    }

    /// Number of indices up to the last defined symbol; some of them may have no symbol.
    pub fn defined_len(&self) -> (r: usize)
        requires
            self.wf(),
        ensures
            r == index_end(self.defined@),
    {
        proof {
            lemma_index_end(self.defined@);
            self.defined.lemma_len();
        }
        match self.defined.last_key() {
            Some(key) => {
                proof {
                    let end = index_end(self.defined@);
                    if key.id() + 1 < end {
                        assert(slot_at(self.defined@, (end - 1) as nat) is None);
                    } else if key.id() + 1 > end {
                        assert(slot_at(self.defined@, key.id() as nat) is None);
                    }
                }
                key.index() + 1
            },
            None => {
                proof {
                    let end = index_end(self.defined@);
                    if end > 0 {
                        assert(slot_at(self.defined@, (end - 1) as nat) is None);
                    }
                }
                0
            },
        }
    }

    /// The final index of a data symbol: external ones come behind the defined ones.
    pub fn stable_id(&self, id: Temp<DataSymbolRef>) -> (r: DataSymbolRef)
        requires
            self.wf(),
            id.wf(),
            id.stable(0, filled(self.defined@)) < u32::MAX,
        ensures
            r.id() == id.stable(0, filled(self.defined@)),
    {
        id.to_stable(0, self.defined.len())
    }
}

/// The number behind the last filled slot.
pub open spec fn index_end<V>(slots: Seq<Option<V>>) -> nat
    decreases slots.len(),
{
    if slots.len() == 0 {
        0
    } else if slots.last() is Some {
        slots.len()
    } else {
        index_end(slots.drop_last())
    }
}

proof fn lemma_index_end<V>(slots: Seq<Option<V>>)
    ensures
        index_end(slots) <= slots.len(),
        index_end(slots) > 0 ==> slot_at(slots, (index_end(slots) - 1) as nat) is Some,
        forall|key: nat| key >= index_end(slots) ==> slot_at(slots, key) is None,
    decreases slots.len(),
{
    if slots.len() > 0 {
        let init = slots.drop_last();
        lemma_index_end(init);
        if slots.last() is None {
            assert forall|key: nat| key >= index_end(slots) implies slot_at(slots, key) is None by {
                assert(slot_at(init, key) is None);
            }
        }
    }
}

} // verus!
