//! Encoding of the entries of sections.
use crate::emit::modify::constant_extraction::push_uleb;
use crate::emit::relocation::encode::{uleb, variable_u32, variable_u64};
use crate::typed::entities::{DefinedEntity, ImportedEntity};
use crate::typed::types::{FuncType, GlobalType, MemoryType, TableType, TagType, ValType};
use vstd::prelude::*;
use vstd::utf8::encode_utf8;

verus! {

/// The code of a type.
pub open spec fn val_code(ty: ValType) -> u8 {
    match ty {
        ValType::I32 => 0x7f,
        ValType::I64 => 0x7e,
        ValType::F32 => 0x7d,
        ValType::F64 => 0x7c,
        ValType::V128 => 0x7b,
        ValType::FuncRef => 0x70,
        ValType::ExternRef => 0x6f,
    }
}

/// The codes of types.
pub open spec fn val_codes(types: Seq<ValType>) -> Seq<u8> {
    types.map_values(|ty: ValType| val_code(ty))
}

/// The bytes of a list of types.
pub open spec fn val_list(types: Seq<ValType>) -> Seq<u8> {
    uleb(types.len()) + val_codes(types)
}

/// The bytes of a name.
pub open spec fn name_bytes(name: Seq<char>) -> Seq<u8> {
    uleb(encode_utf8(name).len()) + encode_utf8(name)
}

/// The bytes of a section of entries.
pub open spec fn plain_section(id: u8, count: nat, entries: Seq<u8>) -> Seq<u8> {
    seq![id] + uleb(uleb(count).len() + entries.len()) + uleb(count) + entries
}

/// The bytes of a section that holds a number.
pub open spec fn number_section(id: u8, number: nat) -> Seq<u8> {
    seq![id] + uleb(uleb(number).len()) + uleb(number)
}

/// The bytes of limits.
pub open spec fn limits_bytes(flags: u8, initial: nat, maximum: Option<u64>) -> Seq<u8> {
    seq![flags] + uleb(initial) + match maximum {
        Some(max) => uleb(max as nat),
        None => Seq::empty(),
    }
}

fn code_of(ty: ValType) -> (r: u8)
    ensures
        r == val_code(ty),
{
    match ty {
        ValType::I32 => 0x7f,
        ValType::I64 => 0x7e,
        ValType::F32 => 0x7d,
        ValType::F64 => 0x7c,
        ValType::V128 => 0x7b,
        ValType::FuncRef => 0x70,
        ValType::ExternRef => 0x6f,
    }
}

fn push_val_list(out: &mut Vec<u8>, types: &Vec<ValType>)
    ensures
        final(out)@ == old(out)@ + val_list(types@),
{
    let ghost start = out@;
    push_uleb64(out, types.len() as u64);
    let mut i: usize = 0;
    assert(out@ =~= start + uleb(types@.len()) + val_codes(types@.take(0)));
    while i < types.len()
        invariant
            i <= types@.len(),
            out@ == start + uleb(types@.len()) + val_codes(types@.take(i as int)),
        decreases types@.len() - i,
    {
        out.push(code_of(types[i]));
        assert(val_codes(types@.take(i + 1)) =~= val_codes(types@.take(i as int)).push(
            val_code(types@[i as int]),
        ));
        assert(out@ =~= start + uleb(types@.len()) + val_codes(types@.take(i + 1)));
        i = i + 1;
    }
    assert(types@.take(i as int) =~= types@);
    assert(out@ =~= start + val_list(types@));
}

pub(crate) fn push_name(out: &mut Vec<u8>, name: &str)
    ensures
        final(out)@ == old(out)@ + name_bytes(name@),
{
    let ghost start = out@;
    let bytes = name.as_bytes();
    push_uleb64(out, bytes.len() as u64);
    out.extend_from_slice(bytes);
    assert(out@ =~= start + name_bytes(name@));
}

fn push_uleb64(out: &mut Vec<u8>, value: u64)
    ensures
        final(out)@ == old(out)@ + uleb(value as nat),
{
    let ghost before = out@;
    let (bytes, len) = variable_u64(value);
    let mut i: usize = 0;
    while i < len
        invariant
            i <= len <= 10,
            len == uleb(value as nat).len(),
            bytes@ == uleb(value as nat) + Seq::new((10 - len) as nat, |i: int| 0u8),
            out@ == before + uleb(value as nat).take(i as int),
        decreases len - i,
    {
        out.push(bytes[i]);
        assert(out@ =~= before + uleb(value as nat).take(i + 1));
        i = i + 1;
    }
    assert(uleb(value as nat).take(i as int) =~= uleb(value as nat));
}

fn push_limits(out: &mut Vec<u8>, flags: u8, initial: u64, maximum: Option<u64>)
    ensures
        final(out)@ == old(out)@ + limits_bytes(flags, initial as nat, maximum),
{
    let ghost start = out@;
    out.push(flags);
    push_uleb64(out, initial);
    if let Some(max) = maximum {
        push_uleb64(out, max);
    }
    assert(out@ =~= start + limits_bytes(flags, initial as nat, maximum));
}

/// Appends a section of entries.
pub(crate) fn push_section(out: &mut Vec<u8>, id: u8, count: u64, entries: &Vec<u8>)
    ensures
        final(out)@ == old(out)@ + plain_section(id, count as nat, entries@),
{
    let ghost start = out@;
    let mut content: Vec<u8> = Vec::new();
    push_uleb64(&mut content, count);
    content.extend_from_slice(entries.as_slice());
    assert(content@ =~= uleb(count as nat) + entries@);
    out.push(id);
    push_uleb64(out, content.len() as u64);
    out.extend_from_slice(content.as_slice());
    assert(out@ =~= start + plain_section(id, count as nat, entries@));
}

/// Appends a section that holds a number.
pub(crate) fn push_number_section(out: &mut Vec<u8>, id: u8, number: u32)
    ensures
        final(out)@ == old(out)@ + number_section(id, number as nat),
{
    let ghost start = out@;
    out.push(id);
    let (_, len) = variable_u32(number);
    push_uleb(out, len as u32);
    push_uleb(out, number);
    assert(out@ =~= start + number_section(id, number as nat));
}

/// Types that imports and definitions name.
pub trait TypeBytes: Sized {
    /// The code of the kind of entity.
    spec fn sort() -> u8;

    spec fn type_bytes(&self) -> Seq<u8>;

    /// Whether a definition has a body behind its type.
    spec fn has_body() -> bool;

    fn sort_code() -> (r: u8)
        ensures
            r == Self::sort(),
    ;

    fn with_body() -> (r: bool)
        ensures
            r == Self::has_body(),
    ;

    fn push_type(&self, out: &mut Vec<u8>)
        ensures
            final(out)@ == old(out)@ + self.type_bytes(),
    ;
}

/// The flags of a global.
pub open spec fn global_flags(ty: GlobalType) -> u8 {
    match (ty.mutable, ty.shared) {
        (false, false) => 0,
        (true, false) => 1,
        (false, true) => 2,
        (true, true) => 3,
    }
}

impl TypeBytes for GlobalType {
    open spec fn sort() -> u8 {
        3
    }

    open spec fn type_bytes(&self) -> Seq<u8> {
        seq![val_code(self.content_type), global_flags(*self)]
    }

    open spec fn has_body() -> bool {
        true
    }

    fn sort_code() -> (r: u8) {
        3
    }

    fn with_body() -> (r: bool) {
        true
    }

    fn push_type(&self, out: &mut Vec<u8>) {
        let ghost start = out@;
        out.push(code_of(self.content_type));
        let flags: u8 = match (self.mutable, self.shared) {
            (false, false) => 0,
            (true, false) => 1,
            (false, true) => 2,
            (true, true) => 3,
        };
        out.push(flags);
        assert(out@ =~= start + self.type_bytes());
    }
}

impl TypeBytes for TableType {
    open spec fn sort() -> u8 {
        1
    }

    open spec fn type_bytes(&self) -> Seq<u8> {
        seq![val_code(self.element_type)] + limits_bytes(
            if self.maximum is Some {
                1
            } else {
                0
            },
            self.initial as nat,
            self.maximum,
        )
    }

    open spec fn has_body() -> bool {
        false
    }

    fn sort_code() -> (r: u8) {
        1
    }

    fn with_body() -> (r: bool) {
        false
    }

    fn push_type(&self, out: &mut Vec<u8>) {
        let ghost start = out@;
        out.push(code_of(self.element_type));
        let flags: u8 = if self.maximum.is_some() {
            1
        } else {
            0
        };
        push_limits(out, flags, self.initial, self.maximum);
        assert(out@ =~= start + self.type_bytes());
    }
}

/// The flags of a memory.
pub open spec fn memory_flags(ty: MemoryType) -> u8 {
    ((if ty.maximum is Some {
        1int
    } else {
        0
    }) + (if ty.shared {
        2int
    } else {
        0
    }) + (if ty.memory64 {
        4int
    } else {
        0
    })) as u8
}

impl TypeBytes for MemoryType {
    open spec fn sort() -> u8 {
        2
    }

    open spec fn type_bytes(&self) -> Seq<u8> {
        limits_bytes(memory_flags(*self), self.initial as nat, self.maximum)
    }

    open spec fn has_body() -> bool {
        false
    }

    fn sort_code() -> (r: u8) {
        2
    }

    fn with_body() -> (r: bool) {
        false
    }

    fn push_type(&self, out: &mut Vec<u8>) {
        let mut flags: u8 = 0;
        if self.maximum.is_some() {
            flags = flags + 1;
        }
        if self.shared {
            flags = flags + 2;
        }
        if self.memory64 {
            flags = flags + 4;
        }
        push_limits(out, flags, self.initial, self.maximum);
    }
}

impl TypeBytes for TagType {
    open spec fn sort() -> u8 {
        4
    }

    open spec fn type_bytes(&self) -> Seq<u8> {
        seq![0x00u8] + uleb(self.func_type_idx as nat)
    }

    open spec fn has_body() -> bool {
        false
    }

    fn sort_code() -> (r: u8) {
        4
    }

    fn with_body() -> (r: bool) {
        false
    }

    fn push_type(&self, out: &mut Vec<u8>) {
        let ghost start = out@;
        out.push(0x00);
        push_uleb(out, self.func_type_idx);
        assert(out@ =~= start + self.type_bytes());
    }
}

/// Entries of sections.
pub trait EntryBytes: Sized {
    spec fn entry_bytes(&self) -> Seq<u8>;

    spec fn entry_valid(&self) -> bool;

    fn push_entry(&self, out: &mut Vec<u8>)
        requires
            self.entry_valid(),
        ensures
            final(out)@ == old(out)@ + self.entry_bytes(),
    ;
}

/// The names of an import.
pub open spec fn import_names(module: Seq<char>, name: Seq<char>) -> Seq<u8> {
    name_bytes(module) + name_bytes(name)
}

impl<T: TypeBytes> EntryBytes for ImportedEntity<T> {
    open spec fn entry_bytes(&self) -> Seq<u8> {
        import_names(self.module@, self.name@) + seq![T::sort()] + self.entity_type.type_bytes()
    }

    open spec fn entry_valid(&self) -> bool {
        true
    }

    fn push_entry(&self, out: &mut Vec<u8>) {
        let ghost start = out@;
        push_name(out, self.module.as_str());
        push_name(out, self.name.as_str());
        out.push(T::sort_code());
        self.entity_type.push_type(out);
        assert(out@ =~= start + self.entry_bytes());
    }
}

impl<T: TypeBytes> EntryBytes for DefinedEntity<T> {
    open spec fn entry_bytes(&self) -> Seq<u8> {
        self.entity_type.type_bytes() + if T::has_body() {
            self.body.emitted()
        } else {
            Seq::empty()
        }
    }

    open spec fn entry_valid(&self) -> bool {
        self.body.wf()
    }

    fn push_entry(&self, out: &mut Vec<u8>) {
        let ghost start = out@;
        self.entity_type.push_type(out);
        if T::with_body() {
            self.body.append_to(out);
        }
        assert(out@ =~= start + self.entry_bytes());
    }
}

impl EntryBytes for FuncType {
    open spec fn entry_bytes(&self) -> Seq<u8> {
        seq![0x60u8] + val_list(self.params@) + val_list(self.results@)
    }

    open spec fn entry_valid(&self) -> bool {
        true
    }

    fn push_entry(&self, out: &mut Vec<u8>) {
        let ghost start = out@;
        out.push(0x60);
        push_val_list(out, &self.params);
        push_val_list(out, &self.results);
        assert(out@ =~= start + self.entry_bytes());
    }
}

/// The bytes of entries behind one another.
pub open spec fn entries_bytes<T: EntryBytes>(entries: Seq<T>) -> Seq<u8>
    decreases entries.len(),
{
    if entries.len() == 0 {
        Seq::empty()
    } else {
        entries_bytes(entries.drop_last()) + entries.last().entry_bytes()
    }
}

/// Appends entries.
pub(crate) fn push_entries<T: EntryBytes>(out: &mut Vec<u8>, entries: &[T])
    requires
        forall|i: int| 0 <= i < entries@.len() ==> (#[trigger] entries@[i]).entry_valid(),
    ensures
        final(out)@ == old(out)@ + entries_bytes(entries@),
{
    let ghost start = out@;
    let ghost all = entries@;
    let mut i: usize = 0;
    proof {
        assert(all.take(0) =~= Seq::<T>::empty());
        assert(out@ =~= start + entries_bytes(all.take(0)));
    }
    while i < entries.len()
        invariant
            i <= all.len(),
            all == entries@,
            forall|i: int| 0 <= i < all.len() ==> (#[trigger] all[i]).entry_valid(),
            out@ == start + entries_bytes(all.take(i as int)),
        decreases all.len() - i,
    {
        proof {
            assert(all[i as int].entry_valid());
            assert(all.take(i + 1).drop_last() =~= all.take(i as int));
            assert(all.take(i + 1).last() == all[i as int]);
        }
        entries[i].push_entry(out);
        assert(out@ =~= start + entries_bytes(all.take(i + 1)));
        i = i + 1;
    }
    assert(all.take(i as int) =~= all);
}

/// The bytes of exports of one kind of entities.
pub open spec fn exports_bytes(sort: u8, exports: Seq<(int, Seq<char>)>) -> Seq<u8>
    decreases exports.len(),
{
    if exports.len() == 0 {
        Seq::empty()
    } else {
        exports_bytes(sort, exports.drop_last()) + name_bytes(exports.last().1) + seq![sort]
            + uleb(exports.last().0 as nat)
    }
}

} // verus!
