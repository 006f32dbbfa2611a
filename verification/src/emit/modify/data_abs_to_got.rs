//! Makes absolute addresses in data relative to base globals.
//!
//! An address in data becomes a value that a function writes when the module starts.
use crate::emit::modify::blacklist::IsSet;
use crate::emit::modify::cursor::{Cursor, CursorView};
use crate::emit::modify::wasm_emitter::{
    invalid_5byte, lemma_after_at_end, lemma_after_twice, Encoder, MemArg,
};
use crate::emit::modify::{
    EntityRelocationEntry, FixupError, HandleFixups, OutputRelocationEntry, Rewrite,
};
use crate::emit::relocation::encode::lemma_fixed_leb_len;
use crate::emit::relocation::resolver::OutputEntitiesResolver;
use crate::emit::relocation::EntityLocation;
use crate::index::{filled, MAX_VALUE, Temp, TempIndex, TempKind};
use crate::layouts::data::sealed::MemLayoutSealed;
use crate::layouts::data::DataSymbolRef;
use crate::linkage::reloc::{
    Encoding, EntityAddressMode, Relative, RelocationEntry, RelocationWidth,
};
use crate::typed::body::EntityBody;
use crate::typed::entities::{CollectionView, DefinedEntity, EntityCollection, ImportOrDefined};
use crate::typed::module::{DefinedFunction, ImportedFunction};
use crate::typed::snapshot::{EntitiesSnapshot, FlatEntityRef};
use crate::typed::types::FuncType;
use crate::typed::{EntityKind, FileId, FunctionRef};
use vstd::prelude::*;

verus! {

/// Says to write an address into a data symbol.
#[derive(Debug)]
pub struct DataSymbolInit<S = Temp<DataSymbolRef>, RelocSymbol = EntityLocation> {
    /// Where to write, in the output module.
    pub storage: S,
    /// Whose address to write.
    pub relocated_symbol: RelocSymbol,
    /// Whether the address is relative to a base.
    pub is_got_based: bool,
}

/// Says to write an address into a data symbol, both given by entities of the output module.
pub type FinalDataSymbolInit = DataSymbolInit<DataSymbolRef, EntityKind>;

/// The bytes that compute an address relative to a base: `global.get <base>`,
/// `i32.const <address>`, `i32.add`.
pub open spec fn based_address_bytes() -> Seq<u8> {
    seq![0x23u8] + invalid_5byte() + (seq![0x41u8] + invalid_5byte()) + seq![0x6au8]
}

/// The argument of the instruction that writes an address.
pub open spec fn store_arg() -> MemArg {
    MemArg { offset: 0, align: 3, memory_index: 0 }
}

/// The bytes that write an address into a data symbol.
pub open spec fn init_bytes(init: FinalDataSymbolInit) -> Seq<u8> {
    based_address_bytes() + (if init.is_got_based {
        based_address_bytes()
    } else {
        seq![0x41u8] + invalid_5byte()
    }) + (seq![0x36u8] + store_arg().bytes())
}

/// The relocation of the index of a base.
pub open spec fn base_reloc(at: int, symbol: EntityKind) -> EntityRelocationEntry {
    RelocationEntry {
        addend: 0,
        offset: at as u32,
        symbol_id: symbol,
        symbol_op: EntityAddressMode::BaseStaticIndex,
        relation: Relative::Absolute,
        encoding: Encoding::Leb,
        width: RelocationWidth::Bits32,
    }
}

/// The relocation of an address.
pub open spec fn address_reloc(at: int, symbol: EntityKind, is_got: bool) -> EntityRelocationEntry {
    RelocationEntry {
        addend: 0,
        offset: at as u32,
        symbol_id: symbol,
        symbol_op: EntityAddressMode::RuntimeAddr,
        relation: if is_got {
            Relative::Got
        } else {
            Relative::Absolute
        },
        encoding: Encoding::Sleb,
        width: RelocationWidth::Bits32,
    }
}

/// The relocations in the bytes that write an address, if they start at an offset.
pub open spec fn init_relocs(init: FinalDataSymbolInit, at: int) -> Seq<EntityRelocationEntry> {
    let storage = EntityKind::DataSymbol(init.storage);
    seq![base_reloc(at + 1, storage), address_reloc(at + 7, storage, true)] + (
    if init.is_got_based {
        seq![
            base_reloc(at + 14, init.relocated_symbol),
            address_reloc(at + 20, init.relocated_symbol, true),
        ]
    } else {
        seq![address_reloc(at + 14, init.relocated_symbol, false)]
    })
}

/// The bytes that write some addresses, in order.
pub open spec fn inits_bytes(inits: Seq<FinalDataSymbolInit>) -> Seq<u8>
    decreases inits.len(),
{
    if inits.len() == 0 {
        Seq::empty()
    } else {
        inits_bytes(inits.drop_last()) + init_bytes(inits.last())
    }
}

/// The body of the function that writes some addresses: it has no locals.
pub open spec fn start_fn_bytes(inits: Seq<FinalDataSymbolInit>) -> Seq<u8> {
    seq![0x00u8] + inits_bytes(inits) + seq![0x0bu8]
}

/// The relocations in the body of the function that writes some addresses.
pub open spec fn start_fn_relocs(inits: Seq<FinalDataSymbolInit>) -> Seq<EntityRelocationEntry>
    decreases inits.len(),
{
    if inits.len() == 0 {
        Seq::empty()
    } else {
        start_fn_relocs(inits.drop_last()) + init_relocs(
            inits.last(),
            1 + inits_bytes(inits.drop_last()).len() as int,
        )
    }
}

proof fn lemma_init_len(init: FinalDataSymbolInit)
    ensures
        init_bytes(init).len() == if init.is_got_based {
            37int
        } else {
            30
        },
        based_address_bytes().len() == 13,
{
    lemma_fixed_leb_len(store_arg().align as int, 5);
    lemma_fixed_leb_len(store_arg().offset as int, 5);
}

proof fn lemma_inits_len(inits: Seq<FinalDataSymbolInit>, k: int)
    requires
        0 <= k <= inits.len(),
    ensures
        inits_bytes(inits.take(k)).len() <= inits_bytes(inits).len(),
    decreases inits.len(),
{
    if k == inits.len() {
        assert(inits.take(k) =~= inits);
    } else {
        lemma_inits_len(inits.drop_last(), k);
        assert(inits.drop_last().take(k) =~= inits.take(k));
    }
}

/// Every address takes at most 37 bytes to write.
pub proof fn lemma_inits_bound(inits: Seq<FinalDataSymbolInit>)
    ensures
        inits_bytes(inits).len() <= 37 * inits.len(),
        start_fn_bytes(inits).len() <= 37 * inits.len() + 2,
    decreases inits.len(),
{
    if inits.len() > 0 {
        lemma_inits_bound(inits.drop_last());
        lemma_init_len(inits.last());
    }
}

/// The offset of an address lies in the bytes that write it.
pub proof fn lemma_init_relocs_in_bounds(init: FinalDataSymbolInit, at: int, i: int)
    requires
        0 <= at,
        at + init_bytes(init).len() <= u32::MAX,
        0 <= i < init_relocs(init, at).len(),
    ensures
        at <= init_relocs(init, at)[i].place().0,
        init_relocs(init, at)[i].place().1 <= at + init_bytes(init).len(),
{
    lemma_init_len(init);
}

/// `wasm_encoder::Function::new` for no locals: the body holds their number alone.
#[verifier::external_body]
pub(crate) fn body_without_locals() -> (r: Vec<u8>)
    ensures
        r@ == seq![0x00u8],
{
    wasm_encoder::Function::new([]).into_raw_body()
}

/// Writes the instructions that write an address.
fn push_init(
    encoder: &mut Encoder,
    new_relocs: &mut Vec<EntityRelocationEntry>,
    data_entry: &FinalDataSymbolInit,
)
    requires
        old(encoder).wf(),
        old(encoder)@.has_room(init_bytes(*data_entry).len() as int),
        data_entry.relocated_symbol is Function || data_entry.relocated_symbol is DataSymbol,
    ensures
        final(encoder).wf(),
        final(encoder)@ == old(encoder)@.after(init_bytes(*data_entry)),
        final(new_relocs)@ == old(new_relocs)@ + init_relocs(*data_entry, old(encoder)@.offset),
{
    let ghost start = encoder@;
    let ghost before = new_relocs@;
    let ghost at = encoder@.offset;
    let storage = EntityKind::DataSymbol(data_entry.storage);
    proof {
        encoder.lemma_valid();
        lemma_init_len(*data_entry);
    }
    let ghost get = seq![0x23u8] + invalid_5byte();
    let ghost constant = seq![0x41u8] + invalid_5byte();
    let got_offset: u32 = encoder.global_get_invalid();
    let storage_offset: u32 = encoder.i32_const_invalid();
    new_relocs.push(EntityRelocationEntry::index_base(got_offset, storage));
    new_relocs.push(EntityRelocationEntry::runtime_addr(storage_offset, storage, true));
    encoder.i32_add();
    proof {
        lemma_after_twice(start, get, constant);
        lemma_after_twice(start, get + constant, seq![0x6au8]);
    }
    let ghost based = based_address_bytes();
    assert(encoder@ == start.after(based));
    if data_entry.is_got_based {
        let relocated_got: u32 = encoder.global_get_invalid();
        let relocated_addr: u32 = encoder.i32_const_invalid();
        new_relocs.push(
            EntityRelocationEntry::index_base(relocated_got, data_entry.relocated_symbol),
        );
        new_relocs.push(
            EntityRelocationEntry::runtime_addr(relocated_addr, data_entry.relocated_symbol, true),
        );
        encoder.i32_add();
        proof {
            lemma_after_twice(start, based, get);
            lemma_after_twice(start, based + get, constant);
            lemma_after_twice(start, based + get + constant, seq![0x6au8]);
            assert(based + get + constant + seq![0x6au8] =~= based + based);
        }
    } else {
        let relocated_addr: u32 = encoder.i32_const_invalid();
        new_relocs.push(
            EntityRelocationEntry::runtime_addr(relocated_addr, data_entry.relocated_symbol, false),
        );
        proof {
            lemma_after_twice(start, based, constant);
        }
    }
    let ghost value = if data_entry.is_got_based {
        based_address_bytes()
    } else {
        constant
    };
    assert(encoder@ == start.after(based + value));
    let _ = encoder.i32_store(MemArg { offset: 0, align: 3, memory_index: 0 });
    proof {
        lemma_after_twice(start, based + value, seq![0x36u8] + store_arg().bytes());
    }
    assert(new_relocs@ =~= before + init_relocs(*data_entry, at));
}

/// Writes the function that writes some addresses.
fn generate_start_fn(resolved_inits: &Vec<FinalDataSymbolInit>) -> (r: (
    Vec<EntityRelocationEntry>,
    Vec<u8>,
))
    requires
        start_fn_bytes(resolved_inits@).len() <= u32::MAX,
        forall|i: int|
            0 <= i < resolved_inits@.len() ==> (
            #[trigger] resolved_inits@[i]).relocated_symbol is Function
                || resolved_inits@[i].relocated_symbol is DataSymbol,
    ensures
        r.0@ == start_fn_relocs(resolved_inits@),
        r.1@ == start_fn_bytes(resolved_inits@),
{
    let ghost inits = resolved_inits@;
    let mut new_relocs: Vec<EntityRelocationEntry> = Vec::new();
    let header = body_without_locals();
    let len: u32 = header.len() as u32;
    let mut encoder = Encoder::new(header, len);
    let ghost start = encoder@;
    proof {
        encoder.lemma_valid();
        assert(inits.take(0) =~= Seq::<FinalDataSymbolInit>::empty());
        assert(start.after(inits_bytes(inits.take(0))).written =~= start.written);
        assert(start.after(inits_bytes(inits.take(0))) == start);
    }
    let mut i: usize = 0;
    while i < resolved_inits.len()
        invariant
            i <= inits.len(),
            inits == resolved_inits@,
            start.valid(),
            start.start == 1,
            start.offset == 1,
            start.written.len() == 0,
            start_fn_bytes(inits).len() <= u32::MAX,
            forall|i: int|
                0 <= i < inits.len() ==> (#[trigger] inits[i]).relocated_symbol is Function
                    || inits[i].relocated_symbol is DataSymbol,
            encoder.wf(),
            encoder@ == start.after(inits_bytes(inits.take(i as int))),
            new_relocs@ == start_fn_relocs(inits.take(i as int)),
        decreases inits.len() - i,
    {
        proof {
            let longer = inits.take(i + 1);
            assert(longer.drop_last() =~= inits.take(i as int));
            assert(longer.last() == inits[i as int]);
            lemma_inits_len(inits, i + 1);
            lemma_after_twice(
                start,
                inits_bytes(inits.take(i as int)),
                init_bytes(inits[i as int]),
            );
            lemma_after_at_end(start, inits_bytes(inits.take(i as int)));
        }
        push_init(&mut encoder, &mut new_relocs, &resolved_inits[i]);
        i = i + 1;
    }
    proof {
        assert(inits.take(i as int) =~= inits);
        lemma_after_twice(start, inits_bytes(inits), seq![0x0bu8]);
        lemma_after_at_end(start, inits_bytes(inits));
        lemma_after_at_end(start, inits_bytes(inits) + seq![0x0bu8]);
    }
    encoder.end();
    let bytes = encoder.into_inner();
    assert(bytes@ =~= start_fn_bytes(inits));
    (new_relocs, bytes)
}

/// Why a reference in data cannot be made relative.
pub open spec fn data_refusal(entry: EntityRelocationEntry) -> Option<FixupError> {
    if entry.width is Bits64 {
        Some(FixupError::UnsupportedWidth)
    } else if !(entry.encoding is Fixed) {
        Some(FixupError::UnsupportedEncoding)
    } else if !(entry.relation is Absolute) {
        Some(FixupError::UnsupportedRelation)
    } else {
        None
    }
}

/// Tells whether a reference in data can be made relative.
fn check_whitelisted_data_relocation(entry: &EntityRelocationEntry) -> (r: Result<(), FixupError>)
    ensures
        match data_refusal(*entry) {
            Some(error) => r == Err::<(), FixupError>(error),
            None => r is Ok,
        },
{
    match entry.width {
        RelocationWidth::Bits64 => {
            return Err(FixupError::UnsupportedWidth);
        },
        RelocationWidth::Bits32 => {},
    }
    match entry.encoding {
        Encoding::Fixed => {},
        _ => {
            return Err(FixupError::UnsupportedEncoding);
        },
    }
    match entry.relation {
        Relative::Absolute => Ok(()),
        _ => Err(FixupError::UnsupportedRelation),
    }
}

/// Makes addresses in data relative to base globals.
#[derive(Debug)]
pub struct DataAbsToGot<S> {
    /// The entities whose addresses are always absolute.
    pub is_static_symbol: S,
    /// The function that writes the addresses.
    pub start_fn: Temp<FunctionRef>,
}

/// Whether final inits are some inits, with the entities of the output module.
pub open spec fn is_resolved_init(
    data: MemLayoutSealed,
    outputs: Map<EntityLocation, EntityKind>,
    temp: DataSymbolInit,
    resolved: FinalDataSymbolInit,
) -> bool {
    &&& resolved.storage.id() == temp.storage.stable(0, filled(data.defined@))
    &&& resolved.relocated_symbol == outputs[temp.relocated_symbol]
    &&& resolved.is_got_based == temp.is_got_based
}

impl<S: IsSet> DataAbsToGot<S> {
    /// Turns temporary indices into final ones, and entities of input files into those of the output
    /// module.
    pub fn convert_to_stable_refs_and_resolve(
        data: &MemLayoutSealed,
        module_info: &OutputEntitiesResolver,
        temps: &Vec<DataSymbolInit>,
    ) -> (r: Vec<FinalDataSymbolInit>)
        requires
            data.wf(),
            forall|i: int|
                0 <= i < temps@.len() ==> {
                    let temp = #[trigger] temps@[i];
                    &&& temp.storage.wf()
                    &&& temp.storage.stable(0, filled(data.defined@)) < u32::MAX
                    &&& module_info.outputs().contains_key(temp.relocated_symbol)
                },
        ensures
            r@.len() == temps@.len(),
            forall|i: int|
                0 <= i < r@.len() ==> is_resolved_init(
                    *data,
                    module_info.outputs(),
                    temps@[i],
                    #[trigger] r@[i],
                ),
    {
        let mut result: Vec<FinalDataSymbolInit> = Vec::new();
        let mut i: usize = 0;
        while i < temps.len()
            invariant
                i <= temps@.len(),
                data.wf(),
                forall|i: int|
                    0 <= i < temps@.len() ==> {
                        let temp = #[trigger] temps@[i];
                        &&& temp.storage.wf()
                        &&& temp.storage.stable(0, filled(data.defined@)) < u32::MAX
                        &&& module_info.outputs().contains_key(temp.relocated_symbol)
                    },
                result@.len() == i,
                forall|j: int|
                    0 <= j < i ==> is_resolved_init(
                        *data,
                        module_info.outputs(),
                        temps@[j],
                        #[trigger] result@[j],
                    ),
            decreases temps@.len() - i,
        {
            let temp = &temps[i];
            assert(temps@[i as int].storage.wf());
            let relocated_symbol = module_info.get_output_entity(&temp.relocated_symbol).unwrap();
            let storage = data.stable_id(temp.storage);
            result.push(DataSymbolInit { storage, relocated_symbol, is_got_based: temp.is_got_based });
            i = i + 1;
        }
        result
    }

    /// Adds a function without instructions to a module, which is called when the module starts.
    pub fn new(
        is_static_symbol: S,
        functions: &mut EntityCollection<FunctionRef, ImportedFunction, DefinedFunction>,
        start_functions: &mut Vec<Temp<FunctionRef>>,
    ) -> (r: Self)
        requires
            old(functions)@.defined.len() <= MAX_VALUE,
        ensures
            r.is_static_symbol == is_static_symbol,
            r.start_fn.wf(),
            r.start_fn.kind() == TempKind::Defined(old(functions)@.defined.len() as u32),
            final(start_functions)@ == old(start_functions)@.push(r.start_fn),
            exists|start: DefinedFunction|
                {
                    &&& final(functions)@ == #[trigger] old(functions)@.with(
                        ImportOrDefined::Defined(start),
                    )
                    &&& start.entity_type.params@.len() == 0
                    &&& start.entity_type.results@.len() == 0
                    &&& start.name matches Some(name) && name@ == "__wamex_reloc_init"@
                    &&& start.export_as@.len() == 0
                    &&& start.body matches EntityBody::New { new_relocs, new_bytes }
                        && new_relocs@.len() == 0 && new_bytes@.len() == 0
                },
    {
        let start = DefinedEntity {
            entity_type: FuncType { params: Vec::new(), results: Vec::new() },
            body: EntityBody::new_empty(Vec::new()),
            name: Some("__wamex_reloc_init".to_owned()),
            export_as: Vec::new(),
        };
        let start_fn = functions.push_defined(start);
        start_functions.push(start_fn);
        DataAbsToGot { is_static_symbol, start_fn }
    }

    /// Whether the address of an entity is relative to a base.
    pub fn is_dyn_symbol(&self, snapshot: &EntitiesSnapshot, sym: EntityKind) -> (r: bool)
        requires
            snapshot.fits(),
            snapshot.has(sym),
            self.is_static_symbol.can_ask(FlatEntityRef { id: snapshot.flat(sym) as u32 }),
        ensures
            self.is_static_symbol.answers(FlatEntityRef { id: snapshot.flat(sym) as u32 }, !r),
    {
        let flat = snapshot.pack_ref(sym);
        !self.is_static_symbol.contains(flat)
    }

    /// Gives the start function its body: it writes all addresses.
    pub fn fill_start_fn(
        &self,
        functions: &mut EntityCollection<FunctionRef, ImportedFunction, DefinedFunction>,
        data_inits: Vec<FinalDataSymbolInit>,
    )
        requires
            self.start_fn.kind() matches TempKind::Defined(i) && i < old(functions)@.defined.len()
                && old(functions)@.defined[i as int].body is New,
            start_fn_bytes(data_inits@).len() <= u32::MAX,
            forall|i: int|
                0 <= i < data_inits@.len() ==> (
                #[trigger] data_inits@[i]).relocated_symbol is Function
                    || data_inits@[i].relocated_symbol is DataSymbol,
        ensures
            self.start_fn.kind() matches TempKind::Defined(i) && {
                let before = old(functions)@.defined[i as int];
                let after = final(functions)@.defined[i as int];
                &&& final(functions)@ == (CollectionView {
                    defined: old(functions)@.defined.update(i as int, after),
                    ..old(functions)@
                })
                &&& after == (DefinedEntity { body: after.body, ..before })
                &&& after.body is New
                &&& after.body->New_new_bytes@ == start_fn_bytes(data_inits@)
                &&& after.body->New_new_relocs@ == before.body->New_new_relocs@ + start_fn_relocs(
                    data_inits@,
                )
            },
    {
        let idx: u32 = self.start_fn.as_defined().unwrap();
        let (relocs, bytes) = generate_start_fn(&data_inits);
        let func = functions.defined_mut(idx as usize);
        match &mut func.body {
            EntityBody::New { new_relocs, new_bytes } => {
                let ghost before = new_relocs@;
                let mut relocs = relocs;
                new_relocs.append(&mut relocs);
                *new_bytes = bytes;
            },
            EntityBody::Copied(_) => {},
        }
    }
}

/// What stands in the place of an address that is written later.
pub open spec fn placeholder() -> Seq<u8> {
    seq![0xdeu8, 0xadu8, 0xbeu8, 0xefu8]
}

impl<S: IsSet> HandleFixups for DataAbsToGot<S> {
    type EntityRef = DataSymbolRef;

    type ExtraData = DataSymbolInit;

    open spec fn can_create(
        &self,
        entity: Temp<DataSymbolRef>,
        buffer: CursorView,
        snapshot: EntitiesSnapshot,
        entry: EntityRelocationEntry,
    ) -> bool {
        &&& entry.place().1 <= usize::MAX
        &&& entry.symbol_id is DataSymbol || entry.symbol_id is Function ==> {
            &&& snapshot.fits()
            &&& snapshot.has(entry.symbol_id)
            &&& self.is_static_symbol.can_ask(
                FlatEntityRef { id: snapshot.flat(entry.symbol_id) as u32 },
            )
        }
    }

    /// Every address of a function or of data is replaced by a placeholder, and written when the
    /// module starts.
    open spec fn is_entry(
        &self,
        entity: Temp<DataSymbolRef>,
        buffer: CursorView,
        input_file: (FileId, EntitiesSnapshot),
        entry: EntityRelocationEntry,
        outcome: Result<Option<(Rewrite, DataSymbolInit)>, FixupError>,
    ) -> bool {
        if !(entry.symbol_id is DataSymbol || entry.symbol_id is Function) {
            outcome matches Ok(None)
        } else {
            match data_refusal(entry) {
                Some(error) => outcome matches Err(e) && e == error,
                None => {
                    &&& outcome matches Ok(Some((rewrite, init)))
                    &&& (rewrite.old_range.start as int, rewrite.old_range.end as int)
                        == entry.place()
                    &&& rewrite.new_relocs@ == Seq::<OutputRelocationEntry>::empty()
                    &&& rewrite.new_bytes@ == placeholder()
                    &&& init.storage == entity
                    &&& init.relocated_symbol == (EntityLocation {
                        file_id: input_file.0,
                        entity: entry.symbol_id,
                    })
                    &&& self.is_static_symbol.answers(
                        FlatEntityRef { id: input_file.1.flat(entry.symbol_id) as u32 },
                        !init.is_got_based,
                    )
                },
            }
        }
    }

    fn create_entry(
        &self,
        entity: Temp<DataSymbolRef>,
        buffer: Cursor<'_>,
        input_file: (FileId, &EntitiesSnapshot),
        entry: EntityRelocationEntry,
    ) -> (r: Result<Option<(Rewrite, DataSymbolInit)>, FixupError>) {
        match entry.symbol_id {
            EntityKind::Function(_) | EntityKind::DataSymbol(_) => {
                match check_whitelisted_data_relocation(&entry) {
                    Ok(_) => {},
                    Err(error) => {
                        return Err(error);
                    },
                }
                let init = DataSymbolInit {
                    storage: entity,
                    relocated_symbol: EntityLocation::from_parts(input_file.0, entry.symbol_id),
                    is_got_based: self.is_dyn_symbol(input_file.1, entry.symbol_id),
                };
                let new_bytes: Vec<u8> = vec![0xde, 0xad, 0xbe, 0xef];
                assert(new_bytes@ =~= placeholder());
                let rewrite = Rewrite {
                    old_range: entry.relocation_range(),
                    new_relocs: Vec::new(),
                    new_bytes,
                };
                Ok(Some((rewrite, init)))
            },
            _ => Ok(None),
        }
    }
}

} // verus!
