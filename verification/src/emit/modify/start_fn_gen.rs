//! The function that writes addresses into data when a module starts.
use crate::emit::modify::constant_extraction::{
    get_bytes, memarg_bytes, push_get, push_memarg, push_sleb, ModifyEntry, RelocationContext,
    SymbolOp,
};
use crate::emit::modify::data_abs_to_got::body_without_locals;
use crate::emit::modify::wasm_emitter::{overwritten, MemArg};
use crate::emit::modify::FixupError;
use crate::emit::object::relocate::{
    moved_place, place_of, relocated, symbol_place, DataPlaceTag, DataSymbolTag, FunctionIndexTag,
    Place, RelocateError, RelocateState,
};
use crate::emit::relocation::encode::{encode_u32, le_bytes, sleb};
use crate::emit::relocation::write_at;
use crate::layouts::SegmentId;
use crate::linkage::reloc::{
    AnyRelocationEntry, Encoding, LinkageRelocationEntry, Relative, RelocationWidth, SymbolType,
};
use crate::typed::SymbolId;
use vstd::prelude::*;

verus! {

/// A place in a data symbol.
#[derive(Clone, Copy, Debug, PartialEq, Eq)]
pub struct DataSymbolWithOffset {
    pub storage_segment_id: SegmentId,
    pub storage_symbol_id: SymbolId,
    pub storage_offset_in_data: u32,
}

/// An address that is written into data.
#[derive(Clone, Copy, Debug)]
pub struct DataEntry {
    /// Where the address is written.
    pub storage: DataSymbolWithOffset,
    /// Whose address is written.
    pub relocation: LinkageRelocationEntry,
}

/// A relocation of data, or an address that is written into data.
pub type DataModifyEntry = ModifyEntry<DataEntry>;

/// An address that is written into data, both given by their places.
#[derive(Clone, Copy, Debug)]
pub struct DataEntryWithOffsets {
    pub storage: SymbolOp<i64>,
    pub relocated_symbol_offset: SymbolOp<i64>,
}

/// Why a relocation of data is not supported.
pub open spec fn data_entry_refusal(entry: LinkageRelocationEntry) -> Option<FixupError> {
    if entry.width is Bits64 {
        Some(FixupError::UnsupportedWidth)
    } else if !(entry.encoding is Fixed) {
        Some(FixupError::UnsupportedEncoding)
    } else if !(entry.relation is Absolute) {
        Some(FixupError::UnsupportedRelation)
    } else {
        None
    }
}

/// What is made of a relocation of data.
pub open spec fn data_modify_entry(entry: AnyRelocationEntry, context: RelocationContext) -> Result<
    DataModifyEntry,
    FixupError,
> {
    match entry {
        AnyRelocationEntry::Linkage(linkage) => match data_entry_refusal(linkage) {
            Some(error) => Err(error),
            None => match (linkage.symbol_op, context.containing_symbol) {
                (SymbolType::MemoryAddr, Some(storage)) | (
                    SymbolType::TableIndex,
                    Some(storage),
                ) => if context.dyn_base {
                    Ok(ModifyEntry::Custom(DataEntry { storage, relocation: linkage }))
                } else {
                    Ok(ModifyEntry::Other(entry))
                },
                _ => Ok(ModifyEntry::Other(entry)),
            },
        },
        AnyRelocationEntry::Type(_) => Err(FixupError::UnsupportedTarget),
    }
}

/// What stands in the place of an address that is written later, as a number with the lowest byte
/// first.
pub const DUMMY_ADDR: u32 = 0xefbe_adde;

impl DataEntry {
    /// Tells whether a relocation of data is supported.
    fn check_whitelisted_data_relocation(entry: &LinkageRelocationEntry) -> (r: Result<
        (),
        FixupError,
    >)
        ensures
            match data_entry_refusal(*entry) {
                Some(error) => r == Err::<(), FixupError>(error),
                None => r is Ok,
            },
    {
        match entry.width {
            RelocationWidth::Bits64 => {
                return Err(FixupError::UnsupportedWidth);
            },
            RelocationWidth::Bits32 => {},
        }
        match entry.encoding {
            Encoding::Fixed => {},
            _ => {
                return Err(FixupError::UnsupportedEncoding);
            },
        }
        match entry.relation {
            Relative::Absolute => Ok(()),
            _ => Err(FixupError::UnsupportedRelation),
        }
    }
}

impl ModifyEntry<DataEntry> {
    /// What is made of a relocation of data. An address that is relative to a base is written when
    /// the module starts.
    pub fn from_data_entry(entry: &AnyRelocationEntry, context: &RelocationContext) -> (r: Result<
        Self,
        FixupError,
    >)
        ensures
            r == data_modify_entry(*entry, *context),
    {
        match entry {
            AnyRelocationEntry::Linkage(linkage) => {
                match DataEntry::check_whitelisted_data_relocation(linkage) {
                    Ok(_) => {},
                    Err(error) => {
                        return Err(error);
                    },
                }
                match (linkage.symbol_op, context.containing_symbol) {
                    (SymbolType::MemoryAddr, Some(storage)) | (
                        SymbolType::TableIndex,
                        Some(storage),
                    ) => if context.dyn_base {
                        Ok(ModifyEntry::Custom(DataEntry { storage, relocation: *linkage }))
                    } else {
                        Ok(ModifyEntry::Other(*entry))
                    },
                    _ => Ok(ModifyEntry::Other(*entry)),
                }
            },
            AnyRelocationEntry::Type(_) => Err(FixupError::UnsupportedTarget),
        }
    }
}

/// The place of the target of an address.
pub open spec fn target_place<L, V>(
    state: RelocateState<'_, L, V>,
    entry: LinkageRelocationEntry,
) -> Result<Place, RelocateError> {
    if !(entry.encoding is Fixed) {
        Err(RelocateError::Unsupported)
    } else {
        match entry.symbol_op {
            SymbolType::MemoryAddr => moved_place(
                symbol_place(state, DataSymbolTag { symbol: entry.symbol_id }),
                entry.addend as int,
            ),
            SymbolType::TableIndex => moved_place(
                symbol_place(state, FunctionIndexTag { symbol: entry.symbol_id }),
                entry.addend as int,
            ),
            _ => Err(RelocateError::Unsupported),
        }
    }
}

/// The place where an address is written.
pub open spec fn storage_place<L, V>(
    state: RelocateState<'_, L, V>,
    storage: DataSymbolWithOffset,
) -> Result<Place, RelocateError> {
    moved_place(
        symbol_place(
            state,
            DataPlaceTag {
                segment_id: storage.storage_segment_id,
                symbol: storage.storage_symbol_id,
            },
        ),
        storage.storage_offset_in_data as int,
    )
}

/// Where an address is written, and which.
pub open spec fn init_places<L, V>(state: RelocateState<'_, L, V>, entry: DataEntry) -> Result<
    (Place, Place),
    RelocateError,
> {
    match target_place(state, entry.relocation) {
        Err(error) => Err(error),
        Ok(target) => match storage_place(state, entry.storage) {
            Err(error) => Err(error),
            Ok(storage) => Ok((storage, target)),
        },
    }
}

/// Where all addresses of a list are written, and which. Relocations are left out.
pub open spec fn all_init_places<L, V>(
    state: RelocateState<'_, L, V>,
    entries: Seq<DataModifyEntry>,
) -> Result<Seq<(Place, Place)>, RelocateError>
    decreases entries.len(),
{
    if entries.len() == 0 {
        Ok(Seq::empty())
    } else {
        match all_init_places(state, entries.drop_last()) {
            Err(error) => Err(error),
            Ok(places) => match entries.last() {
                ModifyEntry::Other(_) => Ok(places),
                ModifyEntry::Custom(entry) => match init_places(state, entry) {
                    Err(error) => Err(error),
                    Ok(place) => Ok(places.push(place)),
                },
            },
        }
    }
}

proof fn lemma_init_places_stop<L, V>(
    state: RelocateState<'_, L, V>,
    entries: Seq<DataModifyEntry>,
    k: int,
)
    requires
        0 <= k <= entries.len(),
        all_init_places(state, entries.take(k)) is Err,
    ensures
        all_init_places(state, entries) == all_init_places(state, entries.take(k)),
    decreases entries.len() - k,
{
    if k == entries.len() {
        assert(entries.take(k) =~= entries);
    } else {
        assert(entries.take(k + 1).drop_last() =~= entries.take(k));
        lemma_init_places_stop(state, entries, k + 1);
    }
}

impl DataEntryWithOffsets {
    /// Where the address is written, and which.
    pub open spec fn places(&self) -> (Place, Place) {
        (place_of(self.storage), place_of(self.relocated_symbol_offset))
    }

    /// Whether the address can be written: its place is relative to a base, and all offsets fit in
    /// 32 bits.
    pub open spec fn is_writable(&self) -> bool {
        &&& self.storage is GotBased
        &&& i32::MIN <= place_of(self.storage).1 <= i32::MAX
        &&& i32::MIN <= place_of(self.relocated_symbol_offset).1 <= i32::MAX
    }
}

/// Where all addresses of a list are written, and which.
pub open spec fn places_of(inits: Seq<DataEntryWithOffsets>) -> Seq<(Place, Place)> {
    inits.map_values(|init: DataEntryWithOffsets| init.places())
}

/// The instructions that compute a place: a constant, or the sum of a global and a constant.
pub open spec fn place_bytes(place: Place) -> Seq<u8> {
    match place.0 {
        Some(got) => get_bytes(got.id as int) + (seq![0x41u8] + sleb(place.1)) + seq![0x6au8],
        None => seq![0x41u8] + sleb(place.1),
    }
}

/// The operand of the store of an address.
pub open spec fn store_memarg(memory_index: u32) -> MemArg {
    MemArg { align: 1, offset: 0, memory_index }
}

/// The instructions that write an address: those of its place and of its value, and `i32.store`.
pub open spec fn init_code(memory_index: u32, places: (Place, Place)) -> Seq<u8> {
    place_bytes(places.0) + place_bytes(places.1) + (seq![0x36u8] + memarg_bytes(
        store_memarg(memory_index),
    ))
}

/// The instructions that write addresses.
pub open spec fn all_init_code(memory_index: u32, places: Seq<(Place, Place)>) -> Seq<u8>
    decreases places.len(),
{
    if places.len() == 0 {
        Seq::empty()
    } else {
        all_init_code(memory_index, places.drop_last()) + init_code(memory_index, places.last())
    }
}

/// The function that writes addresses into data when a module starts.
#[derive(Debug)]
pub struct StartFnGen {
    pub memory_index: u32,
    pub data_inits: Vec<DataEntryWithOffsets>,
}

fn push_place(writer: &mut Vec<u8>, op: SymbolOp<i64>)
    requires
        i32::MIN <= place_of(op).1 <= i32::MAX,
    ensures
        final(writer)@ == old(writer)@ + place_bytes(place_of(op)),
{
    let ghost before = writer@;
    match op {
        SymbolOp::GotBased { got, value } => {
            push_get(writer, got.id);
            writer.push(0x41);
            push_sleb(writer, value as i32);
            writer.push(0x6a);
        },
        SymbolOp::StaticOffset { value } => {
            writer.push(0x41);
            push_sleb(writer, value as i32);
        },
    }
    assert(writer@ =~= before + place_bytes(place_of(op)));
}

impl StartFnGen {
    /// Finds the places of all addresses. Fails for the first one whose place is not known.
    pub fn new<L, V>(
        relocate: RelocateState<'_, L, V>,
        memory_index: u32,
        modify_entries: &Vec<DataModifyEntry>,
    ) -> (r: Result<Self, RelocateError>)
        requires
            relocate.valid(),
        ensures
            match (r, all_init_places(relocate, modify_entries@)) {
                (Ok(start), Ok(places)) => start.memory_index == memory_index && places_of(
                    start.data_inits@,
                ) == places,
                (Err(error), Err(e)) => error == e,
                _ => false,
            },
    {
        let ghost all = modify_entries@;
        let mut data_inits: Vec<DataEntryWithOffsets> = Vec::new();
        let mut i: usize = 0;
        proof {
            assert(all.take(0) =~= Seq::<DataModifyEntry>::empty());
            assert(places_of(data_inits@) =~= Seq::<(Place, Place)>::empty());
        }
        while i < modify_entries.len()
            invariant
                i <= all.len(),
                all == modify_entries@,
                relocate.valid(),
                all_init_places(relocate, all.take(i as int)) == Ok::<
                    Seq<(Place, Place)>,
                    RelocateError,
                >(places_of(data_inits@)),
            decreases all.len() - i,
        {
            let ghost earlier = data_inits@;
            proof {
                assert(all.take(i + 1).drop_last() =~= all.take(i as int));
                assert(all.take(i + 1).last() == all[i as int]);
            }
            if let ModifyEntry::Custom(data_entry) = &modify_entries[i] {
                match Self::find_places(&relocate, data_entry) {
                    Ok(init) => {
                        data_inits.push(init);
                        assert(places_of(data_inits@) =~= places_of(earlier).push(init.places()));
                    },
                    Err(error) => {
                        proof {
                            lemma_init_places_stop(relocate, all, i + 1);
                        }
                        return Err(error);
                    },
                }
            }
            i = i + 1;
        }
        assert(all.take(i as int) =~= all);
        Ok(StartFnGen { memory_index, data_inits })
    }

    fn find_places<L, V>(relocate: &RelocateState<'_, L, V>, data_entry: &DataEntry) -> (r: Result<
        DataEntryWithOffsets,
        RelocateError,
    >)
        requires
            relocate.valid(),
        ensures
            match (r, init_places(*relocate, *data_entry)) {
                (Ok(init), Ok(places)) => init.places() == places,
                (Err(error), Err(e)) => error == e,
                _ => false,
            },
    {
        let entry = &data_entry.relocation;
        match entry.encoding {
            Encoding::Fixed => {},
            _ => {
                return Err(RelocateError::Unsupported);
            },
        }
        let relocated_symbol_offset = match entry.symbol_op {
            SymbolType::MemoryAddr => relocate.get_moved_op(
                &DataSymbolTag { symbol: entry.symbol_id },
                entry.addend,
            )?,
            SymbolType::TableIndex => relocate.get_moved_op(
                &FunctionIndexTag { symbol: entry.symbol_id },
                entry.addend,
            )?,
            _ => {
                return Err(RelocateError::Unsupported);
            },
        };
        let storage = relocate.get_moved_op(
            &DataPlaceTag {
                segment_id: data_entry.storage.storage_segment_id,
                symbol: data_entry.storage.storage_symbol_id,
            },
            data_entry.storage.storage_offset_in_data as i64,
        )?;
        Ok(DataEntryWithOffsets { storage, relocated_symbol_offset })
    }

    /// The body of the function that writes all addresses.
    pub fn generate_fn(&self) -> (r: Vec<u8>)
        requires
            forall|i: int|
                0 <= i < self.data_inits@.len() ==> (#[trigger] self.data_inits@[i]).is_writable(),
        ensures
            r@ == seq![0x00u8] + all_init_code(self.memory_index, places_of(self.data_inits@))
                + seq![0x0bu8],
    {
        let ghost all = places_of(self.data_inits@);
        let mut body = body_without_locals();
        let mut i: usize = 0;
        proof {
            assert(all.take(0) =~= Seq::<(Place, Place)>::empty());
            assert(body@ =~= seq![0x00u8] + all_init_code(self.memory_index, all.take(0)));
        }
        while i < self.data_inits.len()
            invariant
                i <= all.len() == self.data_inits@.len(),
                all == places_of(self.data_inits@),
                forall|i: int|
                    0 <= i < self.data_inits@.len() ==> (
                    #[trigger] self.data_inits@[i]).is_writable(),
                body@ == seq![0x00u8] + all_init_code(self.memory_index, all.take(i as int)),
            decreases all.len() - i,
        {
            let ghost before = body@;
            assert(self.data_inits@[i as int].is_writable());
            self.push_init(&mut body, &self.data_inits[i], self.memory_index);
            proof {
                assert(all.take(i + 1).drop_last() =~= all.take(i as int));
                assert(all.take(i + 1).last() == self.data_inits@[i as int].places());
                assert(body@ =~= seq![0x00u8] + all_init_code(self.memory_index, all.take(i + 1)));
            }
            i = i + 1;
        }
        assert(all.take(i as int) =~= all);
        body.push(0x0b);
        body
    }

    /// Writes the instructions that write an address.
    fn push_init(&self, writer: &mut Vec<u8>, data_entry: &DataEntryWithOffsets, memory_index: u32)
        requires
            data_entry.is_writable(),
        ensures
            final(writer)@ == old(writer)@ + init_code(memory_index, data_entry.places()),
    {
        let ghost before = writer@;
        push_place(writer, data_entry.storage);
        push_place(writer, data_entry.relocated_symbol_offset);
        writer.push(0x36);
        push_memarg(writer, MemArg { align: 1, offset: 0, memory_index });
        assert(writer@ =~= before + init_code(memory_index, data_entry.places()));
    }
}

/// A data segment whose relocations are applied.
pub struct StartFnModifyContext<'any, L, V> {
    pub data_segment: Vec<u8>,
    pub relocate: RelocateState<'any, L, V>,
}

impl DataEntry {
    /// The bytes that hold the address.
    pub open spec fn place(&self) -> (int, int) {
        (self.relocation.offset as int, self.relocation.offset + 4)
    }
}

impl<'any, L, V> StartFnModifyContext<'any, L, V> {
    /// Applies a relocation. Where an address is written when the module starts, a number stands
    /// that is easy to find.
    pub fn apply_relocation(&mut self, entry: &DataModifyEntry) -> (r: Result<(), RelocateError>)
        requires
            old(self).relocate.valid(),
            match *entry {
                ModifyEntry::Custom(data_entry) => data_entry.place().1 <= old(
                    self,
                ).data_segment@.len(),
                ModifyEntry::Other(reloc) => reloc.place().1 <= old(self).data_segment@.len(),
            },
        ensures
            final(self).relocate == old(self).relocate,
            match *entry {
                ModifyEntry::Custom(data_entry) => r is Ok && final(self).data_segment@
                    == overwritten(
                    old(self).data_segment@,
                    data_entry.place().0,
                    le_bytes(DUMMY_ADDR as int, 4),
                ),
                ModifyEntry::Other(reloc) => match relocated(old(self).relocate, reloc) {
                    Ok(Some(bytes)) => r is Ok && final(self).data_segment@ == overwritten(
                        old(self).data_segment@,
                        reloc.offset_spec() as int,
                        bytes,
                    ),
                    Ok(None) => r is Ok && final(self).data_segment == old(self).data_segment,
                    Err(error) => r == Err::<(), _>(error) && final(self).data_segment == old(
                        self,
                    ).data_segment,
                },
            },
    {
        match entry {
            ModifyEntry::Custom(data_entry) => {
                let mut buf: [u8; 4] = [0, 0, 0, 0];
                encode_u32(DUMMY_ADDR, &mut buf);
                write_at(
                    &mut self.data_segment,
                    data_entry.relocation.offset as usize,
                    buf.as_slice(),
                );
                Ok(())
            },
            ModifyEntry::Other(reloc) => self.relocate.apply_relocation(
                &mut self.data_segment,
                reloc,
            ),
        }
    }
}

} // verus!
