//! The binary format of modules, for reading: what is written is read back.
use crate::emit::relocation::encode::{
    fixed_leb, is_leb, leb_len, leb_range, leb_value, lemma_fixed_leb_is_leb,
    lemma_fixed_leb_roundtrip, lemma_leb_len, lemma_sleb_roundtrip, lemma_uleb_roundtrip,
    signed_leb_value, sleb, uleb,
};
use crate::emit::sections::{
    limits_bytes, name_bytes, val_code, val_codes, val_list, EntryBytes, TypeBytes,
};
use crate::typed::types::{GlobalType, MemoryType, TableType, TagType, ValType};
use vstd::prelude::*;
use vstd::utf8::encode_utf8;

verus! {

/// Reads something from the start of bytes, and gives back the bytes behind it.
pub type Reader<T> = spec_fn(Seq<u8>) -> Option<(T, Seq<u8>)>;

/// Reads a byte.
pub open spec fn read_byte(bytes: Seq<u8>) -> Option<(u8, Seq<u8>)> {
    if bytes.len() == 0 {
        None
    } else {
        Some((bytes[0], bytes.skip(1)))
    }
}

/// Reads a natural number in LEB128.
pub open spec fn read_number(bytes: Seq<u8>) -> Option<(nat, Seq<u8>)> {
    let len = leb_len(bytes, 0) as int;
    if len == 0 || bytes[len - 1] >= 128 {
        None
    } else {
        Some((leb_value(bytes.take(len)) as nat, bytes.skip(len)))
    }
}

/// Reads an integer in signed LEB128.
pub open spec fn read_signed(bytes: Seq<u8>) -> Option<(int, Seq<u8>)> {
    let len = leb_len(bytes, 0) as int;
    if len == 0 || bytes[len - 1] >= 128 {
        None
    } else {
        Some((signed_leb_value(bytes.take(len)), bytes.skip(len)))
    }
}

/// Reads some bytes.
pub open spec fn read_bytes(bytes: Seq<u8>, len: nat) -> Option<(Seq<u8>, Seq<u8>)> {
    if len > bytes.len() {
        None
    } else {
        Some((bytes.take(len as int), bytes.skip(len as int)))
    }
}

/// Reads bytes behind their number.
pub open spec fn read_prefixed(bytes: Seq<u8>) -> Option<(Seq<u8>, Seq<u8>)> {
    match read_number(bytes) {
        Some((len, rest)) => read_bytes(rest, len),
        None => None,
    }
}

/// Reads as many items as asked for.
pub open spec fn read_items<T>(bytes: Seq<u8>, count: nat, read: Reader<T>) -> Option<
    (Seq<T>, Seq<u8>),
>
    decreases count,
{
    if count == 0 {
        Some((Seq::empty(), bytes))
    } else {
        match read(bytes) {
            Some((item, rest)) => match read_items(rest, (count - 1) as nat, read) {
                Some((items, last)) => Some((seq![item] + items, last)),
                None => None,
            },
            None => None,
        }
    }
}

/// Reads items behind their number.
pub open spec fn read_list<T>(bytes: Seq<u8>, read: Reader<T>) -> Option<(Seq<T>, Seq<u8>)> {
    match read_number(bytes) {
        Some((count, rest)) => read_items(rest, count, read),
        None => None,
    }
}

/// Reads the code of a value type.
pub open spec fn read_val(bytes: Seq<u8>) -> Option<(ValType, Seq<u8>)> {
    match read_byte(bytes) {
        None => None,
        Some((code, rest)) => {
            let ty = if code == 0x7f {
                Some(ValType::I32)
            } else if code == 0x7e {
                Some(ValType::I64)
            } else if code == 0x7d {
                Some(ValType::F32)
            } else if code == 0x7c {
                Some(ValType::F64)
            } else if code == 0x7b {
                Some(ValType::V128)
            } else if code == 0x70 {
                Some(ValType::FuncRef)
            } else if code == 0x6f {
                Some(ValType::ExternRef)
            } else {
                None
            };
            match ty {
                Some(ty) => Some((ty, rest)),
                None => None,
            }
        },
    }
}

/// Reads a function type: its code, the parameters and the results.
pub open spec fn read_func_type(bytes: Seq<u8>) -> Option<
    ((Seq<ValType>, Seq<ValType>), Seq<u8>),
> {
    match read_byte(bytes) {
        Some((code, params)) => if code != 0x60 {
            None
        } else {
            match read_list(params, |b: Seq<u8>| read_val(b)) {
                Some((params, results)) => match read_list(results, |b: Seq<u8>| read_val(b)) {
                    Some((results, rest)) => Some(((params, results), rest)),
                    None => None,
                },
                None => None,
            }
        },
        None => None,
    }
}

/// Reads limits: flags, the least size, and where bit 0 of the flags is set the greatest size.
pub open spec fn read_limits(bytes: Seq<u8>) -> Option<((u8, nat, Option<nat>), Seq<u8>)> {
    match read_byte(bytes) {
        Some((flags, rest)) => match read_number(rest) {
            Some((initial, rest)) => if flags % 2 == 1 {
                match read_number(rest) {
                    Some((maximum, rest)) => Some(((flags, initial, Some(maximum)), rest)),
                    None => None,
                }
            } else {
                Some(((flags, initial, None), rest))
            },
            None => None,
        },
        None => None,
    }
}

/// The type of an import or a definition, as it is read.
pub ghost enum ReadType {
    Function { type_number: nat },
    Table { element_type: ValType, initial: nat, maximum: Option<nat> },
    Memory { memory64: bool, shared: bool, initial: nat, maximum: Option<nat> },
    Global { content_type: ValType, mutable: bool, shared: bool },
    Tag { type_number: nat },
}

/// A size as a number.
pub open spec fn size(maximum: Option<u64>) -> Option<nat> {
    match maximum {
        Some(maximum) => Some(maximum as nat),
        None => None,
    }
}

/// Reads a type: the kind of entity tells which.
pub open spec fn read_type(bytes: Seq<u8>, sort: u8) -> Option<(ReadType, Seq<u8>)> {
    if sort == 0 {
        match read_number(bytes) {
            Some((type_number, rest)) => Some((ReadType::Function { type_number }, rest)),
            None => None,
        }
    } else if sort == 1 {
        match read_val(bytes) {
            Some((element_type, rest)) => match read_limits(rest) {
                Some(((flags, initial, maximum), rest)) => if flags < 2 {
                    Some((ReadType::Table { element_type, initial, maximum }, rest))
                } else {
                    None
                },
                None => None,
            },
            None => None,
        }
    } else if sort == 2 {
        match read_limits(bytes) {
            Some(((flags, initial, maximum), rest)) => if flags < 8 {
                Some(
                    (
                        ReadType::Memory {
                            memory64: flags >= 4,
                            shared: flags % 4 >= 2,
                            initial,
                            maximum,
                        },
                        rest,
                    ),
                )
            } else {
                None
            },
            None => None,
        }
    } else if sort == 3 {
        match read_val(bytes) {
            Some((content_type, rest)) => match read_byte(rest) {
                Some((flags, rest)) => if flags < 4 {
                    Some(
                        (
                            ReadType::Global {
                                content_type,
                                mutable: flags % 2 == 1,
                                shared: flags >= 2,
                            },
                            rest,
                        ),
                    )
                } else {
                    None
                },
                None => None,
            },
            None => None,
        }
    } else if sort == 4 {
        match read_byte(bytes) {
            Some((attribute, rest)) => if attribute == 0 {
                match read_number(rest) {
                    Some((type_number, rest)) => Some((ReadType::Tag { type_number }, rest)),
                    None => None,
                }
            } else {
                None
            },
            None => None,
        }
    } else {
        None
    }
}

/// An import, as it is read. The names are in UTF-8.
pub ghost struct ReadImport {
    pub module: Seq<u8>,
    pub name: Seq<u8>,
    pub ty: ReadType,
}

/// Reads an import: the names, the kind of entity, and the type.
pub open spec fn read_import(bytes: Seq<u8>) -> Option<(ReadImport, Seq<u8>)> {
    match read_prefixed(bytes) {
        Some((module, rest)) => match read_prefixed(rest) {
            Some((name, rest)) => match read_byte(rest) {
                Some((sort, rest)) => match read_type(rest, sort) {
                    Some((ty, rest)) => Some((ReadImport { module, name, ty }, rest)),
                    None => None,
                },
                None => None,
            },
            None => None,
        },
        None => None,
    }
}

/// An export, as it is read: the name in UTF-8, the kind of entity, and its number.
pub ghost struct ReadExport {
    pub name: Seq<u8>,
    pub sort: u8,
    pub number: nat,
}

/// Reads an export.
pub open spec fn read_export(bytes: Seq<u8>) -> Option<(ReadExport, Seq<u8>)> {
    match read_prefixed(bytes) {
        Some((name, rest)) => match read_byte(rest) {
            Some((sort, rest)) => match read_number(rest) {
                Some((number, rest)) => Some((ReadExport { name, sort, number }, rest)),
                None => None,
            },
            None => None,
        },
        None => None,
    }
}

/// Reads a section: its id, and its content behind the number of its bytes.
pub open spec fn read_section(bytes: Seq<u8>) -> Option<((u8, Seq<u8>), Seq<u8>)> {
    match read_byte(bytes) {
        Some((id, rest)) => match read_prefixed(rest) {
            Some((content, rest)) => Some(((id, content), rest)),
            None => None,
        },
        None => None,
    }
}

/// A natural number is read back.
pub proof fn lemma_read_number(value: nat, tail: Seq<u8>)
    ensures
        read_number(uleb(value) + tail) == Some((value, tail)),
{
    lemma_uleb_roundtrip(value);
    lemma_read_leb(uleb(value), tail);
}

/// A natural number of full length is read back.
pub proof fn lemma_read_fixed_number(value: nat, tail: Seq<u8>)
    requires
        value < leb_range(5),
    ensures
        read_number(fixed_leb(value as int, 5) + tail) == Some((value, tail)),
{
    lemma_fixed_leb_is_leb(value as int, 5);
    lemma_fixed_leb_roundtrip(value as int, 5);
    lemma_read_leb(fixed_leb(value as int, 5), tail);
}

proof fn lemma_read_leb(number: Seq<u8>, tail: Seq<u8>)
    requires
        is_leb(number),
    ensures
        leb_value(number) >= 0 ==> read_number(number + tail) == Some(
            (leb_value(number) as nat, tail),
        ),
        read_signed(number + tail) == Some((signed_leb_value(number), tail)),
{
    let bytes = number + tail;
    let len = number.len() as int;
    assert(bytes.subrange(0, len) =~= number);
    lemma_leb_len(bytes, 0, number);
    assert(bytes.take(len) =~= number);
    assert(bytes.skip(len) =~= tail);
    assert(bytes[len - 1] == number.last());
}

/// An integer is read back.
pub proof fn lemma_read_signed(value: int, tail: Seq<u8>)
    ensures
        read_signed(sleb(value) + tail) == Some((value, tail)),
{
    lemma_sleb_roundtrip(value);
    lemma_read_leb(sleb(value), tail);
}

/// A byte is read back.
pub proof fn lemma_read_byte(byte: u8, tail: Seq<u8>)
    ensures
        read_byte(seq![byte] + tail) == Some((byte, tail)),
{
    assert((seq![byte] + tail).skip(1) =~= tail);
}

/// Bytes behind their number are read back.
pub proof fn lemma_read_prefixed(content: Seq<u8>, tail: Seq<u8>)
    ensures
        read_prefixed(uleb(content.len()) + content + tail) == Some((content, tail)),
{
    assert(uleb(content.len()) + content + tail =~= uleb(content.len()) + (content + tail));
    lemma_read_number(content.len(), content + tail);
    assert((content + tail).take(content.len() as int) =~= content);
    assert((content + tail).skip(content.len() as int) =~= tail);
}

/// One more item is read behind others.
pub proof fn lemma_read_one_more<T>(bytes: Seq<u8>, count: nat, read: Reader<T>)
    requires
        read_items(bytes, count, read) is Some,
        read((read_items(bytes, count, read)->0).1) is Some,
    ensures
        ({
            let (items, rest) = read_items(bytes, count, read)->0;
            let (item, last) = read(rest)->0;
            read_items(bytes, count + 1, read) == Some((items.push(item), last))
        }),
    decreases count,
{
    let (items, rest) = read_items(bytes, count, read)->0;
    let (item, last) = read(rest)->0;
    if count == 0 {
        assert(read_items(last, 0, read) == Some((Seq::<T>::empty(), last)));
        assert(seq![item] + Seq::<T>::empty() =~= Seq::<T>::empty().push(item));
    } else {
        let (first, behind) = read(bytes)->0;
        lemma_read_one_more(behind, (count - 1) as nat, read);
        let others = (read_items(behind, (count - 1) as nat, read)->0).0;
        assert(seq![first] + others.push(item) =~= (seq![first] + others).push(item));
    }
}

/// A value type is read back.
pub proof fn lemma_read_val(ty: ValType, tail: Seq<u8>)
    ensures
        read_val(seq![val_code(ty)] + tail) == Some((ty, tail)),
{
    lemma_read_byte(val_code(ty), tail);
}

/// Different value types have different codes.
pub proof fn lemma_val_codes_differ(a: ValType, b: ValType)
    requires
        val_code(a) == val_code(b),
    ensures
        a == b,
{
}

proof fn lemma_read_vals(types: Seq<ValType>, tail: Seq<u8>)
    ensures
        read_items(val_codes(types) + tail, types.len(), |b: Seq<u8>| read_val(b)) == Some(
            (types, tail),
        ),
    decreases types.len(),
{
    let read = |b: Seq<u8>| read_val(b);
    if types.len() == 0 {
        assert(val_codes(types) + tail =~= tail);
        assert(types =~= Seq::empty());
    } else {
        let init = types.drop_last();
        let code = seq![val_code(types.last())];
        lemma_read_vals(init, code + tail);
        lemma_read_val(types.last(), tail);
        assert(val_codes(types) + tail =~= val_codes(init) + (code + tail));
        lemma_read_one_more(val_codes(types) + tail, init.len(), read);
        assert(init.push(types.last()) =~= types);
    }
}

/// A list of value types is read back.
pub proof fn lemma_read_val_list(types: Seq<ValType>, tail: Seq<u8>)
    ensures
        read_list(val_list(types) + tail, |b: Seq<u8>| read_val(b)) == Some((types, tail)),
{
    assert(val_list(types) + tail =~= uleb(types.len()) + (val_codes(types) + tail));
    lemma_read_number(types.len(), val_codes(types) + tail);
    lemma_read_vals(types, tail);
}

/// A name is read back, in UTF-8.
pub proof fn lemma_read_name(name: Seq<char>, tail: Seq<u8>)
    ensures
        read_prefixed(name_bytes(name) + tail) == Some((encode_utf8(name), tail)),
{
    lemma_read_prefixed(encode_utf8(name), tail);
}

/// Limits are read back where bit 0 of the flags announces a greatest size.
pub proof fn lemma_read_limits(flags: u8, initial: nat, maximum: Option<u64>, tail: Seq<u8>)
    requires
        flags % 2 == 1 <==> maximum is Some,
    ensures
        read_limits(limits_bytes(flags, initial, maximum) + tail) == Some(
            ((flags, initial, size(maximum)), tail),
        ),
{
    match maximum {
        Some(max) => {
            let behind = uleb(max as nat) + tail;
            assert(limits_bytes(flags, initial, maximum) + tail =~= seq![flags] + (uleb(initial)
                + behind));
            lemma_read_byte(flags, uleb(initial) + behind);
            lemma_read_number(initial, behind);
            lemma_read_number(max as nat, tail);
        },
        None => {
            assert(limits_bytes(flags, initial, maximum) + tail =~= seq![flags] + (uleb(initial)
                + tail));
            lemma_read_byte(flags, uleb(initial) + tail);
            lemma_read_number(initial, tail);
        },
    }
}

/// The type of a global is read back.
pub proof fn lemma_read_global_type(ty: GlobalType, tail: Seq<u8>)
    ensures
        GlobalType::sort() == 3,
        read_type(ty.type_bytes() + tail, 3) == Some(
            (
                ReadType::Global {
                    content_type: ty.content_type,
                    mutable: ty.mutable,
                    shared: ty.shared,
                },
                tail,
            ),
        ),
{
    let flags = ty.type_bytes()[1];
    assert(ty.type_bytes() + tail =~= seq![val_code(ty.content_type)] + (seq![flags] + tail));
    lemma_read_val(ty.content_type, seq![flags] + tail);
    lemma_read_byte(flags, tail);
}

/// The type of a table is read back.
pub proof fn lemma_read_table_type(ty: TableType, tail: Seq<u8>)
    ensures
        TableType::sort() == 1,
        read_type(ty.type_bytes() + tail, 1) == Some(
            (
                ReadType::Table {
                    element_type: ty.element_type,
                    initial: ty.initial as nat,
                    maximum: size(ty.maximum),
                },
                tail,
            ),
        ),
{
    let flags: u8 = if ty.maximum is Some {
        1
    } else {
        0
    };
    let limits = limits_bytes(flags, ty.initial as nat, ty.maximum);
    assert(ty.type_bytes() + tail =~= seq![val_code(ty.element_type)] + (limits + tail));
    lemma_read_val(ty.element_type, limits + tail);
    lemma_read_limits(flags, ty.initial as nat, ty.maximum, tail);
}

/// The type of a memory is read back.
pub proof fn lemma_read_memory_type(ty: MemoryType, tail: Seq<u8>)
    ensures
        MemoryType::sort() == 2,
        read_type(ty.type_bytes() + tail, 2) == Some(
            (
                ReadType::Memory {
                    memory64: ty.memory64,
                    shared: ty.shared,
                    initial: ty.initial as nat,
                    maximum: size(ty.maximum),
                },
                tail,
            ),
        ),
{
    let flags = ty.type_bytes()[0];
    assert(ty.type_bytes() =~= limits_bytes(flags, ty.initial as nat, ty.maximum));
    lemma_read_limits(flags, ty.initial as nat, ty.maximum, tail);
}

/// The type of a tag is read back.
pub proof fn lemma_read_tag_type(ty: TagType, tail: Seq<u8>)
    ensures
        TagType::sort() == 4,
        read_type(ty.type_bytes() + tail, 4) == Some(
            (ReadType::Tag { type_number: ty.func_type_idx as nat }, tail),
        ),
{
    let number = uleb(ty.func_type_idx as nat);
    assert(ty.type_bytes() + tail =~= seq![0x00u8] + (number + tail));
    lemma_read_byte(0x00, number + tail);
    lemma_read_number(ty.func_type_idx as nat, tail);
}

} // verus!
