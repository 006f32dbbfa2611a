//! What is read back from a written module.
use crate::emit::generate::{
    all_exports_bytes, bodies_bytes, can_generate, code_section, data_count_section, data_section,
    distinct, element_section, export_section, function_imports_bytes, function_section,
    global_section, import_section, imports_bytes, lemma_module_size, lemma_type_number,
    memory_section, module_bytes, module_header, signature_bytes, signature_of, signatures,
    signatures_bytes, start_section, table_section, tag_section, type_ids_bytes, type_number,
    type_section, Signature,
};
use crate::emit::modify::wasm_emitter::{len_prefixed, section_bytes};
use crate::emit::reading::{
    lemma_read_byte, lemma_read_fixed_number, lemma_read_global_type, lemma_read_memory_type,
    lemma_read_name, lemma_read_number, lemma_read_one_more, lemma_read_prefixed, lemma_read_signed,
    lemma_read_table_type, lemma_read_tag_type, lemma_read_val_list, read_byte, read_bytes,
    read_export, read_func_type, read_import, read_items, read_list, read_number, read_prefixed,
    read_section, read_signed, read_type, size, ReadExport, ReadImport, ReadType, Reader,
};
use crate::emit::relocation::encode::{
    fixed_leb, leb_range, lemma_fixed_leb_len, lemma_leb_len_bound, sleb, uleb,
};
use crate::emit::sections::{
    entries_bytes, exports_bytes, import_names, name_bytes, number_section, plain_section, val_list,
    EntryBytes, TypeBytes,
};
use crate::index::TempIndex;
use crate::layouts::data::builder::DataKind;
use crate::layouts::data::sealed::{parts_bytes, segments_encoding, SealedDataSegment};
use crate::layouts::elements::{
    element_encoding, elements_encoding, items_bytes, ElementKind, ElementType,
    SealedElementSegment,
};
use crate::layouts::SegmentPlacement;
use crate::typed::entities::{exports_of, CollectionView, DefinedEntity, ImportedEntity};
use crate::typed::module::{DefinedFunction, ImportedFunction, Module};
use crate::typed::types::{GlobalType, MemoryType, TableType, TagType};
use crate::typed::{FunctionRef, GlobalRef, TableRef};
use vstd::prelude::*;
use vstd::utf8::encode_utf8;

verus! {

/// Reading some items and then others is reading all of them.
proof fn lemma_read_items_on<T>(bytes: Seq<u8>, first: nat, second: nat, read: Reader<T>)
    requires
        read_items(bytes, first, read) is Some,
        read_items((read_items(bytes, first, read)->0).1, second, read) is Some,
    ensures
        ({
            let (items, rest) = read_items(bytes, first, read)->0;
            let (others, last) = read_items(rest, second, read)->0;
            read_items(bytes, first + second, read) == Some((items + others, last))
        }),
    decreases first,
{
    let (items, rest) = read_items(bytes, first, read)->0;
    let (others, last) = read_items(rest, second, read)->0;
    if first == 0 {
        assert(items + others =~= others);
    } else {
        let (item, behind) = read(bytes)->0;
        lemma_read_items_on(behind, (first - 1) as nat, second, read);
        let more = (read_items(behind, (first - 1) as nat, read)->0).0;
        assert(seq![item] + (more + others) =~= (seq![item] + more) + others);
    }
}

/// Entries that are read back one by one are read back together.
proof fn lemma_read_entries<E: EntryBytes, T>(
    entries: Seq<E>,
    items: Seq<T>,
    read: Reader<T>,
    tail: Seq<u8>,
)
    requires
        items.len() == entries.len(),
        forall|i: int, behind: Seq<u8>|
            0 <= i < entries.len() ==> #[trigger] read(entries[i].entry_bytes() + behind) == Some(
                (items[i], behind),
            ),
    ensures
        read_items(entries_bytes(entries) + tail, entries.len(), read) == Some((items, tail)),
    decreases entries.len(),
{
    if entries.len() == 0 {
        assert(entries_bytes(entries) + tail =~= tail);
        assert(items =~= Seq::empty());
    } else {
        let init = entries.drop_last();
        let last = entries.len() - 1;
        let entry = entries.last().entry_bytes();
        assert forall|i: int, behind: Seq<u8>| 0 <= i < init.len() implies #[trigger] read(
            init[i].entry_bytes() + behind,
        ) == Some((items.drop_last()[i], behind)) by {
            assert(init[i] == entries[i]);
            assert(read(entries[i].entry_bytes() + behind) == Some((items[i], behind)));
        }
        lemma_read_entries(init, items.drop_last(), read, entry + tail);
        assert(read(entries[last].entry_bytes() + tail) == Some((items[last], tail)));
        assert(entries_bytes(entries) + tail =~= entries_bytes(init) + (entry + tail));
        lemma_read_one_more(entries_bytes(entries) + tail, init.len(), read);
        assert(items.drop_last().push(items[last]) =~= items);
    }
}

/// The content of a section of entries is read back.
proof fn lemma_read_plain_section(id: u8, count: nat, entries: Seq<u8>, tail: Seq<u8>)
    ensures
        read_section(plain_section(id, count, entries) + tail) == Some(
            ((id, uleb(count) + entries), tail),
        ),
{
    let content = uleb(count) + entries;
    let prefixed = uleb(content.len()) + content;
    assert(plain_section(id, count, entries) + tail =~= seq![id] + (prefixed + tail));
    lemma_read_byte(id, prefixed + tail);
    lemma_read_prefixed(content, tail);
}

/// The content of a section with numbers of full length is read back.
proof fn lemma_read_long_section(id: u8, count: int, body: Seq<u8>, tail: Seq<u8>)
    requires
        body.len() <= u32::MAX,
    ensures
        read_section(section_bytes(seq![id], count, body) + tail) == Some(
            ((id, fixed_leb(count, 5) + body), tail),
        ),
{
    reveal_with_fuel(leb_range, 6);
    lemma_fixed_leb_len(count, 5);
    let content = fixed_leb(count, 5) + body;
    let len = fixed_leb(body.len() as int + 5, 5);
    assert(section_bytes(seq![id], count, body) + tail =~= seq![id] + (len + (content + tail)));
    lemma_read_byte(id, len + (content + tail));
    lemma_read_fixed_number(body.len() + 5, content + tail);
    assert((content + tail).take(content.len() as int) =~= content);
    assert((content + tail).skip(content.len() as int) =~= tail);
}

/// Whether bytes are a section with an id that holds a list of items and nothing else, and other
/// bytes behind it.
pub open spec fn is_list_section<T>(
    bytes: Seq<u8>,
    id: u8,
    items: Seq<T>,
    read: Reader<T>,
    tail: Seq<u8>,
) -> bool {
    read_section(bytes) matches Some(((read_id, content), rest)) && read_id == id && rest == tail
        && read_list(content, read) == Some((items, Seq::<u8>::empty()))
}

proof fn lemma_is_list_section<T>(
    id: u8,
    items: Seq<T>,
    entries: Seq<u8>,
    read: Reader<T>,
    tail: Seq<u8>,
)
    requires
        read_items(entries, items.len(), read) == Some((items, Seq::<u8>::empty())),
    ensures
        is_list_section(plain_section(id, items.len(), entries) + tail, id, items, read, tail),
{
    lemma_read_plain_section(id, items.len(), entries, tail);
    lemma_read_number(items.len(), entries);
}

proof fn lemma_is_long_list_section<T>(
    id: u8,
    items: Seq<T>,
    entries: Seq<u8>,
    read: Reader<T>,
    tail: Seq<u8>,
)
    requires
        read_items(entries, items.len(), read) == Some((items, Seq::<u8>::empty())),
        entries.len() <= u32::MAX,
        items.len() <= u32::MAX,
    ensures
        is_list_section(
            section_bytes(seq![id], items.len() as int, entries) + tail,
            id,
            items,
            read,
            tail,
        ),
{
    reveal_with_fuel(leb_range, 6);
    lemma_read_long_section(id, items.len() as int, entries, tail);
    lemma_read_fixed_number(items.len(), entries);
}

proof fn lemma_read_signature(signature: Signature, tail: Seq<u8>)
    ensures
        read_func_type(signature_bytes(signature) + tail) == Some((signature, tail)),
{
    let params = val_list(signature.0);
    let results = val_list(signature.1);
    assert(signature_bytes(signature) + tail =~= seq![0x60u8] + (params + (results + tail)));
    lemma_read_byte(0x60, params + (results + tail));
    lemma_read_val_list(signature.0, results + tail);
    lemma_read_val_list(signature.1, tail);
}

proof fn lemma_read_signatures(all: Seq<Signature>, tail: Seq<u8>)
    ensures
        read_items(signatures_bytes(all) + tail, all.len(), |b: Seq<u8>| read_func_type(b))
            == Some((all, tail)),
    decreases all.len(),
{
    let read = |b: Seq<u8>| read_func_type(b);
    if all.len() == 0 {
        assert(signatures_bytes(all) + tail =~= tail);
        assert(all =~= Seq::empty());
    } else {
        let init = all.drop_last();
        let last = signature_bytes(all.last());
        lemma_read_signatures(init, last + tail);
        lemma_read_signature(all.last(), tail);
        assert(signatures_bytes(all) + tail =~= signatures_bytes(init) + (last + tail));
        lemma_read_one_more(signatures_bytes(all) + tail, init.len(), read);
        assert(init.push(all.last()) =~= all);
    }
}

/// Function types with the same bytes are the same.
pub proof fn lemma_signature_bytes_differ(a: Signature, b: Signature)
    requires
        signature_bytes(a) == signature_bytes(b),
    ensures
        a == b,
{
    lemma_read_signature(a, Seq::empty());
    lemma_read_signature(b, Seq::empty());
}

/// The first section holds function types, among them the type of every function, under the number
/// that stands for it.
pub proof fn lemma_types_are_read_back(module: Module, tail: Seq<u8>)
    ensures
        read_section(type_section(module) + tail) matches Some(((id, content), rest)) && id == 1
            && rest == tail && (read_list(content, |b: Seq<u8>| read_func_type(b)) matches Some(
            (types, end),
        ) && end.len() == 0 && forall|f: int|
            0 <= f < module.functions@.len() ==> {
                let number = #[trigger] type_number(module.functions@, f);
                &&& 0 <= number < types.len()
                &&& types[number] == signature_of(module.functions@.entity(f))
            }),
{
    reveal(type_section);
    let types = distinct(signatures(module.functions@, module.functions@.len()));
    let read = |b: Seq<u8>| read_func_type(b);
    lemma_read_signatures(types, Seq::empty());
    assert(signatures_bytes(types) + Seq::<u8>::empty() =~= signatures_bytes(types));
    lemma_is_list_section(1, types, signatures_bytes(types), read, tail);
    assert forall|f: int| 0 <= f < module.functions@.len() implies {
        let number = #[trigger] type_number(module.functions@, f);
        &&& 0 <= number < types.len()
        &&& types[number] == signature_of(module.functions@.entity(f))
    } by {
        lemma_type_number(module.functions@, f, f);
    }
}

/// An import with names and a type.
pub open spec fn import_of<T>(import: ImportedEntity<T>, ty: ReadType) -> ReadImport {
    ReadImport { module: encode_utf8(import.module@), name: encode_utf8(import.name@), ty }
}

/// The imported globals, as they are read.
pub open spec fn global_imports(imports: Seq<ImportedEntity<GlobalType>>) -> Seq<ReadImport> {
    imports.map_values(
        |import: ImportedEntity<GlobalType>|
            import_of(
                import,
                ReadType::Global {
                    content_type: import.entity_type.content_type,
                    mutable: import.entity_type.mutable,
                    shared: import.entity_type.shared,
                },
            ),
    )
}

/// The imported functions, as they are read.
pub open spec fn function_imports(
    functions: CollectionView<ImportedFunction, DefinedFunction>,
) -> Seq<ReadImport> {
    Seq::new(
        functions.imports.len(),
        |i: int|
            import_of(
                functions.imports[i],
                ReadType::Function { type_number: type_number(functions, i) as nat },
            ),
    )
}

/// The imported tables, as they are read.
pub open spec fn table_imports(imports: Seq<ImportedEntity<TableType>>) -> Seq<ReadImport> {
    imports.map_values(
        |import: ImportedEntity<TableType>| import_of(import, table_type(import.entity_type)),
    )
}

/// The imported memories, as they are read.
pub open spec fn memory_imports(imports: Seq<ImportedEntity<MemoryType>>) -> Seq<ReadImport> {
    imports.map_values(
        |import: ImportedEntity<MemoryType>| import_of(import, memory_type(import.entity_type)),
    )
}

/// The imported tags, as they are read.
pub open spec fn tag_imports(imports: Seq<ImportedEntity<TagType>>) -> Seq<ReadImport> {
    imports.map_values(
        |import: ImportedEntity<TagType>| import_of(import, tag_type(import.entity_type)),
    )
}

/// The type of a table, as it is read.
pub open spec fn table_type(ty: TableType) -> ReadType {
    ReadType::Table {
        element_type: ty.element_type,
        initial: ty.initial as nat,
        maximum: size(ty.maximum),
    }
}

/// The type of a memory, as it is read.
pub open spec fn memory_type(ty: MemoryType) -> ReadType {
    ReadType::Memory {
        memory64: ty.memory64,
        shared: ty.shared,
        initial: ty.initial as nat,
        maximum: size(ty.maximum),
    }
}

/// The type of a tag, as it is read.
pub open spec fn tag_type(ty: TagType) -> ReadType {
    ReadType::Tag { type_number: ty.func_type_idx as nat }
}

proof fn lemma_read_import(
    module: Seq<char>,
    name: Seq<char>,
    sort: u8,
    type_bytes: Seq<u8>,
    ty: ReadType,
    tail: Seq<u8>,
)
    requires
        read_type(type_bytes + tail, sort) == Some((ty, tail)),
    ensures
        read_import(import_names(module, name) + seq![sort] + type_bytes + tail) == Some(
            (ReadImport { module: encode_utf8(module), name: encode_utf8(name), ty }, tail),
        ),
{
    let behind = seq![sort] + (type_bytes + tail);
    assert(import_names(module, name) + seq![sort] + type_bytes + tail =~= name_bytes(module) + (
    name_bytes(name) + behind));
    lemma_read_name(module, name_bytes(name) + behind);
    lemma_read_name(name, behind);
    lemma_read_byte(sort, type_bytes + tail);
}

proof fn lemma_read_function_imports(
    functions: CollectionView<ImportedFunction, DefinedFunction>,
    count: int,
    tail: Seq<u8>,
)
    requires
        0 <= count <= functions.imports.len(),
    ensures
        read_items(
            function_imports_bytes(functions, count) + tail,
            count as nat,
            |b: Seq<u8>| read_import(b),
        ) == Some((function_imports(functions).take(count), tail)),
    decreases count,
{
    let read = |b: Seq<u8>| read_import(b);
    let bytes = function_imports_bytes(functions, count);
    if count == 0 {
        assert(bytes + tail =~= tail);
        assert(function_imports(functions).take(0) =~= Seq::empty());
    } else {
        let import = functions.imports[count - 1];
        let number = type_number(functions, count - 1);
        let entry = import_names(import.module@, import.name@) + seq![0x00u8] + uleb(number as nat);
        lemma_read_function_imports(functions, count - 1, entry + tail);
        lemma_read_number(number as nat, tail);
        lemma_read_import(
            import.module@,
            import.name@,
            0,
            uleb(number as nat),
            ReadType::Function { type_number: number as nat },
            tail,
        );
        assert(bytes + tail =~= function_imports_bytes(functions, count - 1) + (entry + tail));
        lemma_read_one_more(bytes + tail, (count - 1) as nat, read);
        assert(function_imports(functions).take(count - 1).push(
            function_imports(functions)[count - 1],
        ) =~= function_imports(functions).take(count));
    }
}

/// The second section holds the imports with their names and types: globals, functions, tables,
/// memories and tags.
pub proof fn lemma_imports_are_read_back(module: Module, tail: Seq<u8>)
    ensures
        is_list_section(
            import_section(module) + tail,
            2,
            global_imports(module.globals@.imports) + function_imports(module.functions@)
                + table_imports(module.tables@.imports) + memory_imports(module.memories@.imports)
                + tag_imports(module.tags@.imports),
            |b: Seq<u8>| read_import(b),
            tail,
        ),
{
    reveal(import_section);
    let read = |b: Seq<u8>| read_import(b);
    let globals = module.globals@.imports;
    let tables = module.tables@.imports;
    let memories = module.memories@.imports;
    let tags = module.tags@.imports;
    let functions = module.functions@;
    let count = functions.imports.len();
    let none = Seq::<u8>::empty();
    assert forall|i: int, behind: Seq<u8>| 0 <= i < globals.len() implies #[trigger] read(
        globals[i].entry_bytes() + behind,
    ) == Some((global_imports(globals)[i], behind)) by {
        lemma_read_global_type(globals[i].entity_type, behind);
        lemma_read_import(
            globals[i].module@,
            globals[i].name@,
            3,
            globals[i].entity_type.type_bytes(),
            global_imports(globals)[i].ty,
            behind,
        );
    }
    assert forall|i: int, behind: Seq<u8>| 0 <= i < tables.len() implies #[trigger] read(
        tables[i].entry_bytes() + behind,
    ) == Some((table_imports(tables)[i], behind)) by {
        lemma_read_table_type(tables[i].entity_type, behind);
        lemma_read_import(
            tables[i].module@,
            tables[i].name@,
            1,
            tables[i].entity_type.type_bytes(),
            table_imports(tables)[i].ty,
            behind,
        );
    }
    assert forall|i: int, behind: Seq<u8>| 0 <= i < memories.len() implies #[trigger] read(
        memories[i].entry_bytes() + behind,
    ) == Some((memory_imports(memories)[i], behind)) by {
        lemma_read_memory_type(memories[i].entity_type, behind);
        lemma_read_import(
            memories[i].module@,
            memories[i].name@,
            2,
            memories[i].entity_type.type_bytes(),
            memory_imports(memories)[i].ty,
            behind,
        );
    }
    assert forall|i: int, behind: Seq<u8>| 0 <= i < tags.len() implies #[trigger] read(
        tags[i].entry_bytes() + behind,
    ) == Some((tag_imports(tags)[i], behind)) by {
        lemma_read_tag_type(tags[i].entity_type, behind);
        lemma_read_import(
            tags[i].module@,
            tags[i].name@,
            4,
            tags[i].entity_type.type_bytes(),
            tag_imports(tags)[i].ty,
            behind,
        );
    }
    let five = entries_bytes(tags);
    let four = entries_bytes(memories) + five;
    let three = entries_bytes(tables) + four;
    let two = function_imports_bytes(functions, count as int) + three;
    let all = entries_bytes(globals) + two;
    assert(all =~= imports_bytes(module));
    lemma_read_entries(globals, global_imports(globals), read, two);
    lemma_read_function_imports(functions, count as int, three);
    assert(function_imports(functions).take(count as int) =~= function_imports(functions));
    lemma_read_entries(tables, table_imports(tables), read, four);
    lemma_read_entries(memories, memory_imports(memories), read, five);
    lemma_read_entries(tags, tag_imports(tags), read, none);
    assert(entries_bytes(tags) + none =~= five);
    lemma_read_items_on(all, globals.len(), count, read);
    lemma_read_items_on(all, globals.len() + count, tables.len(), read);
    lemma_read_items_on(all, globals.len() + count + tables.len(), memories.len(), read);
    lemma_read_items_on(
        all,
        globals.len() + count + tables.len() + memories.len(),
        tags.len(),
        read,
    );
    let items = global_imports(globals) + function_imports(functions) + table_imports(tables)
        + memory_imports(memories) + tag_imports(tags);
    lemma_is_list_section(2, items, all, read, tail);
}

proof fn lemma_read_type_ids(
    functions: CollectionView<ImportedFunction, DefinedFunction>,
    count: int,
    tail: Seq<u8>,
)
    requires
        0 <= count <= functions.defined.len(),
    ensures
        read_items(
            type_ids_bytes(functions, count) + tail,
            count as nat,
            |b: Seq<u8>| read_number(b),
        ) == Some((function_types(functions).take(count), tail)),
    decreases count,
{
    let read = |b: Seq<u8>| read_number(b);
    let bytes = type_ids_bytes(functions, count);
    if count == 0 {
        assert(bytes + tail =~= tail);
        assert(function_types(functions).take(0) =~= Seq::empty());
    } else {
        let number = type_number(functions, functions.imports.len() + count - 1) as nat;
        lemma_read_type_ids(functions, count - 1, uleb(number) + tail);
        lemma_read_number(number, tail);
        assert(bytes + tail =~= type_ids_bytes(functions, count - 1) + (uleb(number) + tail));
        lemma_read_one_more(bytes + tail, (count - 1) as nat, read);
        assert(function_types(functions).take(count - 1).push(number) =~= function_types(
            functions,
        ).take(count));
    }
}

/// The numbers of the types of defined functions.
pub open spec fn function_types(
    functions: CollectionView<ImportedFunction, DefinedFunction>,
) -> Seq<nat> {
    Seq::new(
        functions.defined.len(),
        |i: int| type_number(functions, functions.imports.len() + i) as nat,
    )
}

/// The third section holds the number of the type of every defined function.
pub proof fn lemma_functions_are_read_back(module: Module, tail: Seq<u8>)
    ensures
        is_list_section(
            function_section(module) + tail,
            3,
            function_types(module.functions@),
            |b: Seq<u8>| read_number(b),
            tail,
        ),
{
    reveal(function_section);
    let functions = module.functions@;
    let count = functions.defined.len() as int;
    let bytes = type_ids_bytes(functions, count);
    lemma_read_type_ids(functions, count, Seq::empty());
    assert(bytes + Seq::<u8>::empty() =~= bytes);
    assert(function_types(functions).take(count) =~= function_types(functions));
    lemma_is_list_section(3, function_types(functions), bytes, |b: Seq<u8>| read_number(b), tail);
}

/// The types of tables, memories and tags are read back from their sections.
pub proof fn lemma_definitions_are_read_back(module: Module, tail: Seq<u8>)
    ensures
        is_list_section(
            table_section(module) + tail,
            4,
            module.tables@.defined.map_values(
                |table: DefinedEntity<TableType>| table_type(table.entity_type),
            ),
            |b: Seq<u8>| read_type(b, 1),
            tail,
        ),
        is_list_section(
            memory_section(module) + tail,
            5,
            module.memories@.defined.map_values(
                |memory: DefinedEntity<MemoryType>| memory_type(memory.entity_type),
            ),
            |b: Seq<u8>| read_type(b, 2),
            tail,
        ),
        is_list_section(
            tag_section(module) + tail,
            13,
            module.tags@.defined.map_values(
                |tag: DefinedEntity<TagType>| tag_type(tag.entity_type),
            ),
            |b: Seq<u8>| read_type(b, 4),
            tail,
        ),
{
    reveal(table_section);
    reveal(memory_section);
    reveal(tag_section);
    let none = Seq::<u8>::empty();
    let tables = module.tables@.defined;
    let read = |b: Seq<u8>| read_type(b, 1);
    let items = tables.map_values(|table: DefinedEntity<TableType>| table_type(table.entity_type));
    assert forall|i: int, behind: Seq<u8>| 0 <= i < tables.len() implies #[trigger] read(
        tables[i].entry_bytes() + behind,
    ) == Some((items[i], behind)) by {
        assert(tables[i].entry_bytes() =~= tables[i].entity_type.type_bytes());
        lemma_read_table_type(tables[i].entity_type, behind);
    }
    lemma_read_entries(tables, items, read, none);
    assert(entries_bytes(tables) + none =~= entries_bytes(tables));
    lemma_is_list_section(4, items, entries_bytes(tables), read, tail);

    let memories = module.memories@.defined;
    let read = |b: Seq<u8>| read_type(b, 2);
    let items = memories.map_values(
        |memory: DefinedEntity<MemoryType>| memory_type(memory.entity_type),
    );
    assert forall|i: int, behind: Seq<u8>| 0 <= i < memories.len() implies #[trigger] read(
        memories[i].entry_bytes() + behind,
    ) == Some((items[i], behind)) by {
        assert(memories[i].entry_bytes() =~= memories[i].entity_type.type_bytes());
        lemma_read_memory_type(memories[i].entity_type, behind);
    }
    lemma_read_entries(memories, items, read, none);
    assert(entries_bytes(memories) + none =~= entries_bytes(memories));
    lemma_is_list_section(5, items, entries_bytes(memories), read, tail);

    let tags = module.tags@.defined;
    let read = |b: Seq<u8>| read_type(b, 4);
    let items = tags.map_values(|tag: DefinedEntity<TagType>| tag_type(tag.entity_type));
    assert forall|i: int, behind: Seq<u8>| 0 <= i < tags.len() implies #[trigger] read(
        tags[i].entry_bytes() + behind,
    ) == Some((items[i], behind)) by {
        assert(tags[i].entry_bytes() =~= tags[i].entity_type.type_bytes());
        lemma_read_tag_type(tags[i].entity_type, behind);
    }
    lemma_read_entries(tags, items, read, none);
    assert(entries_bytes(tags) + none =~= entries_bytes(tags));
    lemma_is_list_section(13, items, entries_bytes(tags), read, tail);
}

/// The exports of one kind of entities, as they are read.
pub open spec fn read_exports(sort: u8, exports: Seq<(int, Seq<char>)>) -> Seq<ReadExport> {
    exports.map_values(
        |export: (int, Seq<char>)|
            ReadExport { name: encode_utf8(export.1), sort, number: export.0 as nat },
    )
}

proof fn lemma_read_exports(sort: u8, exports: Seq<(int, Seq<char>)>, tail: Seq<u8>)
    ensures
        read_items(
            exports_bytes(sort, exports) + tail,
            exports.len(),
            |b: Seq<u8>| read_export(b),
        ) == Some((read_exports(sort, exports), tail)),
    decreases exports.len(),
{
    let read = |b: Seq<u8>| read_export(b);
    let bytes = exports_bytes(sort, exports);
    if exports.len() == 0 {
        assert(bytes + tail =~= tail);
        assert(read_exports(sort, exports) =~= Seq::empty());
    } else {
        let init = exports.drop_last();
        let (number, name) = exports.last();
        let behind = seq![sort] + (uleb(number as nat) + tail);
        let entry = name_bytes(name) + behind;
        lemma_read_exports(sort, init, entry);
        lemma_read_name(name, behind);
        lemma_read_byte(sort, uleb(number as nat) + tail);
        lemma_read_number(number as nat, tail);
        assert(bytes + tail =~= exports_bytes(sort, init) + entry);
        lemma_read_one_more(bytes + tail, init.len(), read);
        assert(read_exports(sort, init).push(read_exports(sort, exports).last()) =~= read_exports(
            sort,
            exports,
        ));
    }
}

/// The section of exports holds every name of every entity, with its kind and its index: globals,
/// functions, tables, memories and tags.
pub proof fn lemma_exports_are_read_back(module: Module, tail: Seq<u8>)
    ensures
        is_list_section(
            export_section(module) + tail,
            7,
            read_exports(3, exports_of(module.globals@)) + read_exports(
                0,
                exports_of(module.functions@),
            ) + read_exports(1, exports_of(module.tables@)) + read_exports(
                2,
                exports_of(module.memories@),
            ) + read_exports(4, exports_of(module.tags@)),
            |b: Seq<u8>| read_export(b),
            tail,
        ),
{
    reveal(export_section);
    let read = |b: Seq<u8>| read_export(b);
    let globals = exports_of(module.globals@);
    let functions = exports_of(module.functions@);
    let tables = exports_of(module.tables@);
    let memories = exports_of(module.memories@);
    let tags = exports_of(module.tags@);
    let none = Seq::<u8>::empty();
    let five = exports_bytes(4, tags);
    let four = exports_bytes(2, memories) + five;
    let three = exports_bytes(1, tables) + four;
    let two = exports_bytes(0, functions) + three;
    let all = exports_bytes(3, globals) + two;
    assert(all =~= all_exports_bytes(module));
    lemma_read_exports(3, globals, two);
    lemma_read_exports(0, functions, three);
    lemma_read_exports(1, tables, four);
    lemma_read_exports(2, memories, five);
    lemma_read_exports(4, tags, none);
    assert(exports_bytes(4, tags) + none =~= five);
    lemma_read_items_on(all, globals.len(), functions.len(), read);
    lemma_read_items_on(all, globals.len() + functions.len(), tables.len(), read);
    lemma_read_items_on(all, globals.len() + functions.len() + tables.len(), memories.len(), read);
    lemma_read_items_on(
        all,
        globals.len() + functions.len() + tables.len() + memories.len(),
        tags.len(),
        read,
    );
    let items = read_exports(3, globals) + read_exports(0, functions) + read_exports(1, tables)
        + read_exports(2, memories) + read_exports(4, tags);
    lemma_is_list_section(7, items, all, read, tail);
}

proof fn lemma_entry_stands_behind_others<E: EntryBytes>(entries: Seq<E>, k: int)
    requires
        0 <= k < entries.len(),
    ensures
        ({
            let start = entries_bytes(entries.take(k)).len() as int;
            let end = entries_bytes(entries.take(k + 1)).len() as int;
            let all = entries_bytes(entries);
            &&& start <= end <= all.len()
            &&& all.skip(start) == entries[k].entry_bytes() + all.skip(end)
        }),
    decreases entries.len(),
{
    let init = entries.drop_last();
    let all = entries_bytes(entries);
    if k < entries.len() - 1 {
        lemma_entry_stands_behind_others(init, k);
        assert(init.take(k) =~= entries.take(k));
        assert(init.take(k + 1) =~= entries.take(k + 1));
        let start = entries_bytes(entries.take(k)).len() as int;
        let end = entries_bytes(entries.take(k + 1)).len() as int;
        let before = entries_bytes(init);
        let last = entries.last().entry_bytes();
        assert(all.skip(start) =~= before.skip(start) + last);
        assert(all.skip(end) =~= before.skip(end) + last);
        assert(all.skip(start) =~= entries[k].entry_bytes() + all.skip(end));
    } else {
        assert(entries.take(k) =~= init);
        assert(entries.take(k + 1) =~= entries);
        assert(all.skip(entries_bytes(init).len() as int) =~= entries[k].entry_bytes() + all.skip(
            all.len() as int,
        ));
    }
}

/// The section of globals holds the type of every global, and behind it the expression that gives
/// its first value.
pub proof fn lemma_globals_are_read_back(module: Module, tail: Seq<u8>)
    ensures
        ({
            let defined = module.globals@.defined;
            &&& read_section(global_section(module) + tail) matches Some(((id, content), rest))
            &&& id == 6
            &&& rest == tail
            &&& read_number(content) matches Some((count, entries))
            &&& count == defined.len()
            &&& entries == entries_bytes(defined)
            &&& forall|k: int|
                0 <= k < defined.len() ==> {
                    let start = entries_bytes(#[trigger] defined.take(k)).len() as int;
                    let end = entries_bytes(defined.take(k + 1)).len() as int;
                    let ty = defined[k].entity_type;
                    read_type(entries.skip(start), 3) == Some(
                        (
                            ReadType::Global {
                                content_type: ty.content_type,
                                mutable: ty.mutable,
                                shared: ty.shared,
                            },
                            defined[k].body.emitted() + entries.skip(end),
                        ),
                    )
                }
        }),
{
    reveal(global_section);
    let defined = module.globals@.defined;
    let entries = entries_bytes(defined);
    lemma_read_plain_section(6, defined.len(), entries, tail);
    lemma_read_number(defined.len(), entries);
    assert forall|k: int| 0 <= k < defined.len() implies {
        let start = entries_bytes(#[trigger] defined.take(k)).len() as int;
        let end = entries_bytes(defined.take(k + 1)).len() as int;
        let ty = defined[k].entity_type;
        read_type(entries.skip(start), 3) == Some(
            (
                ReadType::Global {
                    content_type: ty.content_type,
                    mutable: ty.mutable,
                    shared: ty.shared,
                },
                defined[k].body.emitted() + entries.skip(end),
            ),
        )
    } by {
        lemma_entry_stands_behind_others(defined, k);
        let end = entries_bytes(defined.take(k + 1)).len() as int;
        let ty = defined[k].entity_type;
        let body = defined[k].body.emitted();
        assert(defined[k].entry_bytes() + entries.skip(end) =~= ty.type_bytes() + (body
            + entries.skip(end)));
        lemma_read_global_type(ty, body + entries.skip(end));
    }
}

/// A section that holds a number is read back.
proof fn lemma_read_number_section(id: u8, number: nat, tail: Seq<u8>)
    ensures
        read_section(number_section(id, number) + tail) == Some(((id, uleb(number)), tail)),
        read_number(uleb(number)) == Some((number, Seq::<u8>::empty())),
{
    let prefixed = uleb(uleb(number).len()) + uleb(number);
    assert(number_section(id, number) + tail =~= seq![id] + (prefixed + tail));
    lemma_read_byte(id, prefixed + tail);
    lemma_read_prefixed(uleb(number), tail);
    lemma_read_number(number, Seq::empty());
    assert(uleb(number) + Seq::<u8>::empty() =~= uleb(number));
}

/// The section of the start function holds its index; there is none without a start function. The
/// section of the number of data segments holds that number.
pub proof fn lemma_numbers_are_read_back(module: Module, tail: Seq<u8>)
    ensures
        match module.extra.start_function {
            Some(function) => read_section(start_section(module) + tail) matches Some(
                ((id, content), rest),
            ) && id == 8 && rest == tail && read_number(content) == Some(
                (function.id() as nat, Seq::<u8>::empty()),
            ),
            None => start_section(module) + tail == tail,
        },
        read_section(data_count_section(module) + tail) matches Some(((id, content), rest)) && id
            == 12 && rest == tail && read_number(content) == Some(
            (module.extra.mem_layout.segments@.len(), Seq::<u8>::empty()),
        ),
{
    reveal(start_section);
    reveal(data_count_section);
    match module.extra.start_function {
        Some(function) => {
            lemma_read_number_section(8, function.id() as nat, tail);
        },
        None => {
            assert(start_section(module) + tail =~= tail);
        },
    }
    lemma_read_number_section(12, module.extra.mem_layout.segments@.len(), tail);
}

/// Bytes behind their number in full length are read back.
proof fn lemma_read_len_prefixed(content: Seq<u8>, tail: Seq<u8>)
    requires
        content.len() <= u32::MAX,
    ensures
        read_prefixed(len_prefixed(content) + tail) == Some((content, tail)),
{
    reveal_with_fuel(leb_range, 6);
    assert(len_prefixed(content) + tail =~= fixed_leb(content.len() as int, 5) + (content + tail));
    lemma_read_fixed_number(content.len(), content + tail);
    assert((content + tail).take(content.len() as int) =~= content);
    assert((content + tail).skip(content.len() as int) =~= tail);
}

proof fn lemma_read_bodies(defined: Seq<DefinedFunction>, tail: Seq<u8>)
    requires
        bodies_bytes(defined).len() <= u32::MAX,
    ensures
        defined.len() <= bodies_bytes(defined).len(),
        read_items(
            bodies_bytes(defined) + tail,
            defined.len(),
            |b: Seq<u8>| read_prefixed(b),
        ) == Some(
            (defined.map_values(|function: DefinedFunction| function.body.emitted()), tail),
        ),
    decreases defined.len(),
{
    let read = |b: Seq<u8>| read_prefixed(b);
    let bytes = bodies_bytes(defined);
    let bodies = defined.map_values(|function: DefinedFunction| function.body.emitted());
    if defined.len() == 0 {
        assert(bytes + tail =~= tail);
        assert(bodies =~= Seq::empty());
    } else {
        let init = defined.drop_last();
        let body = defined.last().body.emitted();
        lemma_fixed_leb_len(body.len() as int, 5);
        lemma_read_bodies(init, len_prefixed(body) + tail);
        lemma_read_len_prefixed(body, tail);
        assert(bytes + tail =~= bodies_bytes(init) + (len_prefixed(body) + tail));
        lemma_read_one_more(bytes + tail, init.len(), read);
        assert(init.map_values(|function: DefinedFunction| function.body.emitted()).push(body)
            =~= bodies);
    }
}

/// The section of code holds the body of every defined function.
pub proof fn lemma_code_is_read_back(module: Module, tail: Seq<u8>)
    requires
        can_generate(module),
    ensures
        is_list_section(
            code_section(module) + tail,
            10,
            module.functions@.defined.map_values(
                |function: DefinedFunction| function.body.emitted(),
            ),
            |b: Seq<u8>| read_prefixed(b),
            tail,
        ),
{
    lemma_module_size(module);
    reveal(code_section);
    let defined = module.functions@.defined;
    let bytes = bodies_bytes(defined);
    lemma_read_bodies(defined, Seq::empty());
    assert(bytes + Seq::<u8>::empty() =~= bytes);
    lemma_is_long_list_section(
        10,
        defined.map_values(|function: DefinedFunction| function.body.emitted()),
        bytes,
        |b: Seq<u8>| read_prefixed(b),
        tail,
    );
}

/// Where a segment is, as it is read: the index of a global, if there is one, and a constant.
pub type ReadOffset = (Option<nat>, int);

/// Reads an offset expression: `i32.const`, or `global.get`, `i32.const` and `i32.add`; then `end`.
pub open spec fn read_offset(bytes: Seq<u8>) -> Option<(ReadOffset, Seq<u8>)> {
    match read_byte(bytes) {
        Some((opcode, rest)) => if opcode == 0x41 {
            match read_signed(rest) {
                Some((offset, rest)) => match read_byte(rest) {
                    Some((end, rest)) => if end == 0x0b {
                        Some(((None, offset), rest))
                    } else {
                        None
                    },
                    None => None,
                },
                None => None,
            }
        } else if opcode == 0x23 {
            match read_number(rest) {
                Some((global, rest)) => match read_byte(rest) {
                    Some((constant, rest)) => match read_signed(rest) {
                        Some((offset, rest)) => match read_bytes(rest, 2) {
                            Some((end, rest)) => if constant == 0x41 && end == seq![
                                0x6au8,
                                0x0bu8,
                            ] {
                                Some(((Some(global), offset), rest))
                            } else {
                                None
                            },
                            None => None,
                        },
                        None => None,
                    },
                    None => None,
                },
                None => None,
            }
        } else {
            None
        },
        None => None,
    }
}

/// Where a segment is.
pub open spec fn offset_of(location: SegmentPlacement<GlobalRef>) -> ReadOffset {
    match location {
        SegmentPlacement::GotBased { global, offset } => (
            Some(global.id() as nat),
            offset as int,
        ),
        SegmentPlacement::ConstantOffset(base) => (None, base as int),
    }
}

/// The place of a segment is read back from its expression.
pub proof fn lemma_read_offset(location: SegmentPlacement<GlobalRef>, tail: Seq<u8>)
    ensures
        read_offset(location.init_expr() + tail) == Some((offset_of(location), tail)),
{
    match location {
        SegmentPlacement::GotBased { global, offset } => {
            let end = seq![0x6au8, 0x0bu8];
            let constant = sleb(offset as int) + (end + tail);
            let number = uleb(global.id() as nat) + (seq![0x41u8] + constant);
            assert(location.init_expr() + tail =~= seq![0x23u8] + number);
            lemma_read_byte(0x23, number);
            lemma_read_number(global.id() as nat, seq![0x41u8] + constant);
            lemma_read_byte(0x41, constant);
            lemma_read_signed(offset as int, end + tail);
            assert((end + tail).take(2) =~= end);
            assert((end + tail).skip(2) =~= tail);
        },
        SegmentPlacement::ConstantOffset(base) => {
            let constant = sleb(base as int) + (seq![0x0bu8] + tail);
            assert(location.init_expr() + tail =~= seq![0x41u8] + constant);
            lemma_read_byte(0x41, constant);
            lemma_read_signed(base as int, seq![0x0bu8] + tail);
            lemma_read_byte(0x0b, tail);
        },
    }
}

/// A data segment, as it is read: its memory and where it is there, unless it is passive, and its
/// bytes.
pub ghost struct ReadData {
    pub place: Option<(nat, ReadOffset)>,
    pub bytes: Seq<u8>,
}

/// Reads a data segment: flags, where 1 is passive and 2 announces a memory, the offset, the bytes.
pub open spec fn read_data(bytes: Seq<u8>) -> Option<(ReadData, Seq<u8>)> {
    match read_number(bytes) {
        Some((flags, rest)) => {
            let place = if flags == 1 {
                Some((None, rest))
            } else if flags == 0 {
                match read_offset(rest) {
                    Some((offset, rest)) => Some((Some((0nat, offset)), rest)),
                    None => None,
                }
            } else if flags == 2 {
                match read_number(rest) {
                    Some((memory, rest)) => match read_offset(rest) {
                        Some((offset, rest)) => Some((Some((memory, offset)), rest)),
                        None => None,
                    },
                    None => None,
                }
            } else {
                None
            };
            match place {
                Some((place, rest)) => match read_prefixed(rest) {
                    Some((bytes, rest)) => Some((ReadData { place, bytes }, rest)),
                    None => None,
                },
                None => None,
            }
        },
        None => None,
    }
}

/// A data segment, as it is read.
pub open spec fn data_of(segment: SealedDataSegment) -> ReadData {
    ReadData {
        place: match segment.va_address {
            DataKind::Passive => None,
            DataKind::Active { memory_ref, location } => Some(
                (memory_ref.id() as nat, offset_of(location)),
            ),
        },
        bytes: parts_bytes(segment.parts@),
    }
}

proof fn lemma_read_data(segment: SealedDataSegment, tail: Seq<u8>)
    requires
        parts_bytes(segment.parts@).len() <= u32::MAX,
    ensures
        read_data(segment.encoding() + tail) == Some((data_of(segment), tail)),
{
    reveal_with_fuel(leb_range, 6);
    let content = len_prefixed(parts_bytes(segment.parts@)) + tail;
    lemma_read_len_prefixed(parts_bytes(segment.parts@), tail);
    assert(uleb(0) =~= seq![0x00u8]);
    assert(uleb(1) =~= seq![0x01u8]);
    assert(uleb(2) =~= seq![0x02u8]);
    match segment.va_address {
        DataKind::Passive => {
            assert(segment.encoding() + tail =~= uleb(1) + content);
            lemma_read_number(1, content);
        },
        DataKind::Active { memory_ref, location } => {
            let behind = location.init_expr() + content;
            lemma_read_offset(location, content);
            if memory_ref.id() == 0 {
                assert(segment.encoding() + tail =~= uleb(0) + behind);
                lemma_read_number(0, behind);
            } else {
                let memory = fixed_leb(memory_ref.id() as int, 5) + behind;
                assert(segment.encoding() + tail =~= uleb(2) + memory);
                lemma_read_number(2, memory);
                lemma_read_fixed_number(memory_ref.id() as nat, behind);
            }
        },
    }
}

proof fn lemma_read_segments(segments: Seq<SealedDataSegment>, tail: Seq<u8>)
    requires
        segments_encoding(segments).len() <= u32::MAX,
    ensures
        segments.len() <= segments_encoding(segments).len(),
        read_items(
            segments_encoding(segments) + tail,
            segments.len(),
            |b: Seq<u8>| read_data(b),
        ) == Some((segments.map_values(|segment: SealedDataSegment| data_of(segment)), tail)),
    decreases segments.len(),
{
    let read = |b: Seq<u8>| read_data(b);
    let bytes = segments_encoding(segments);
    let items = segments.map_values(|segment: SealedDataSegment| data_of(segment));
    if segments.len() == 0 {
        assert(bytes + tail =~= tail);
        assert(items =~= Seq::empty());
    } else {
        let init = segments.drop_last();
        let last = segments.last();
        lemma_fixed_leb_len(parts_bytes(last.parts@).len() as int, 5);
        lemma_read_segments(init, last.encoding() + tail);
        lemma_read_data(last, tail);
        assert(bytes + tail =~= segments_encoding(init) + (last.encoding() + tail));
        lemma_read_one_more(bytes + tail, init.len(), read);
        assert(init.map_values(|segment: SealedDataSegment| data_of(segment)).push(data_of(last))
            =~= items);
    }
}

/// The last section holds every data segment: its memory and its place there, unless it is passive,
/// and the bytes of its symbols.
pub proof fn lemma_data_is_read_back(module: Module, tail: Seq<u8>)
    requires
        can_generate(module),
    ensures
        is_list_section(
            data_section(module) + tail,
            11,
            module.extra.mem_layout.segments@.map_values(
                |segment: SealedDataSegment| data_of(segment),
            ),
            |b: Seq<u8>| read_data(b),
            tail,
        ),
{
    lemma_module_size(module);
    reveal(data_section);
    let segments = module.extra.mem_layout.segments@;
    let bytes = segments_encoding(segments);
    lemma_read_segments(segments, Seq::empty());
    assert(bytes + Seq::<u8>::empty() =~= bytes);
    lemma_is_long_list_section(
        11,
        segments.map_values(|segment: SealedDataSegment| data_of(segment)),
        bytes,
        |b: Seq<u8>| read_data(b),
        tail,
    );
}

/// How the functions of an element segment get into a table, as it is read.
pub ghost enum ReadMode {
    Active { table: nat, offset: ReadOffset },
    Passive,
    Declared,
}

/// An element segment, as it is read.
pub ghost struct ReadElement {
    pub mode: ReadMode,
    pub functions: Seq<nat>,
}

/// Skips the byte that says that items are functions.
pub open spec fn skip_kind(mode: ReadMode, bytes: Seq<u8>) -> Option<(ReadMode, Seq<u8>)> {
    match read_byte(bytes) {
        Some((kind, rest)) => if kind == 0 {
            Some((mode, rest))
        } else {
            None
        },
        None => None,
    }
}

/// Reads how an element segment is placed. The flags tell that: 0 in the first table, 1 passive, 2
/// in some table, 3 declared. All but the first kind name the kind of items.
pub open spec fn read_mode(bytes: Seq<u8>) -> Option<(ReadMode, Seq<u8>)> {
    match read_number(bytes) {
        Some((flags, rest)) => if flags == 0 {
            match read_offset(rest) {
                Some((offset, rest)) => Some((ReadMode::Active { table: 0, offset }, rest)),
                None => None,
            }
        } else if flags == 1 {
            skip_kind(ReadMode::Passive, rest)
        } else if flags == 2 {
            match read_number(rest) {
                Some((table, rest)) => match read_offset(rest) {
                    Some((offset, rest)) => skip_kind(ReadMode::Active { table, offset }, rest),
                    None => None,
                },
                None => None,
            }
        } else if flags == 3 {
            skip_kind(ReadMode::Declared, rest)
        } else {
            None
        },
        None => None,
    }
}

/// Reads an element segment of functions: how it is placed, and the list of its functions.
pub open spec fn read_element(bytes: Seq<u8>) -> Option<(ReadElement, Seq<u8>)> {
    match read_mode(bytes) {
        Some((mode, rest)) => match read_list(rest, |b: Seq<u8>| read_number(b)) {
            Some((functions, rest)) => Some((ReadElement { mode, functions }, rest)),
            None => None,
        },
        None => None,
    }
}

/// How an element segment is placed, as it is read.
pub open spec fn mode_of(kind: ElementKind<TableRef, GlobalRef>) -> ReadMode {
    match kind {
        ElementKind::Active { table_ref, location } => ReadMode::Active {
            table: table_ref.id() as nat,
            offset: offset_of(location),
        },
        ElementKind::Passive => ReadMode::Passive,
        ElementKind::Declared => ReadMode::Declared,
    }
}

/// An element segment, as it is read.
pub open spec fn element_of(segment: SealedElementSegment<FunctionRef>) -> ReadElement {
    ReadElement {
        mode: mode_of(segment.kind),
        functions: segment.parts@.map_values(|function: FunctionRef| function.id() as nat),
    }
}

proof fn lemma_read_functions(functions: Seq<FunctionRef>, tail: Seq<u8>)
    ensures
        functions.len() <= items_bytes(functions).len(),
        read_items(
            items_bytes(functions) + tail,
            functions.len(),
            |b: Seq<u8>| read_number(b),
        ) == Some((functions.map_values(|function: FunctionRef| function.id() as nat), tail)),
    decreases functions.len(),
{
    reveal_with_fuel(leb_range, 6);
    let read = |b: Seq<u8>| read_number(b);
    let bytes = items_bytes(functions);
    let items = functions.map_values(|function: FunctionRef| function.id() as nat);
    if functions.len() == 0 {
        assert(bytes + tail =~= tail);
        assert(items =~= Seq::empty());
    } else {
        let init = functions.drop_last();
        let last = functions.last();
        lemma_fixed_leb_len(last.id() as int, 5);
        lemma_read_functions(init, last.item_bytes() + tail);
        lemma_read_fixed_number(last.id() as nat, tail);
        assert(bytes + tail =~= items_bytes(init) + (last.item_bytes() + tail));
        lemma_read_one_more(bytes + tail, init.len(), read);
        assert(init.map_values(|function: FunctionRef| function.id() as nat).push(
            last.id() as nat,
        ) =~= items);
    }
}

proof fn lemma_read_mode(kind: ElementKind<TableRef, GlobalRef>, tail: Seq<u8>)
    ensures
        read_mode(FunctionRef::start_bytes(kind) + tail) == Some((mode_of(kind), tail)),
{
    let listed = seq![0x00u8] + tail;
    let bytes = FunctionRef::start_bytes(kind) + tail;
    lemma_read_byte(0x00, tail);
    match kind {
        ElementKind::Active { table_ref, location } => {
            if table_ref.id() == 0 {
                let behind = location.init_expr() + tail;
                assert(uleb(0) =~= seq![0x00u8]);
                assert(bytes =~= uleb(0) + behind);
                lemma_read_number(0, behind);
                lemma_read_offset(location, tail);
            } else {
                reveal_with_fuel(leb_range, 6);
                let behind = location.init_expr() + listed;
                let table = fixed_leb(table_ref.id() as int, 5) + behind;
                assert(uleb(2) =~= seq![0x02u8]);
                assert(bytes =~= uleb(2) + table);
                lemma_read_number(2, table);
                lemma_read_fixed_number(table_ref.id() as nat, behind);
                lemma_read_offset(location, listed);
            }
        },
        ElementKind::Passive => {
            assert(uleb(1) =~= seq![0x01u8]);
            assert(bytes =~= uleb(1) + listed);
            lemma_read_number(1, listed);
        },
        ElementKind::Declared => {
            assert(uleb(3) =~= seq![0x03u8]);
            assert(bytes =~= uleb(3) + listed);
            lemma_read_number(3, listed);
        },
    }
}

proof fn lemma_read_element(segment: SealedElementSegment<FunctionRef>, tail: Seq<u8>)
    requires
        element_encoding(segment).len() <= u32::MAX,
    ensures
        read_element(element_encoding(segment) + tail) == Some((element_of(segment), tail)),
{
    let functions = segment.parts@;
    let count = fixed_leb(functions.len() as int, 5);
    let content = count + (items_bytes(functions) + tail);
    lemma_read_functions(functions, tail);
    assert(functions.len() < leb_range(5)) by {
        reveal_with_fuel(leb_range, 6);
    }
    lemma_read_fixed_number(functions.len(), items_bytes(functions) + tail);
    assert(element_encoding(segment) + tail =~= FunctionRef::start_bytes(segment.kind) + content);
    lemma_read_mode(segment.kind, content);
}

proof fn lemma_read_elements(segments: Seq<SealedElementSegment<FunctionRef>>, tail: Seq<u8>)
    requires
        elements_encoding(segments).len() <= u32::MAX,
    ensures
        segments.len() <= elements_encoding(segments).len(),
        read_items(
            elements_encoding(segments) + tail,
            segments.len(),
            |b: Seq<u8>| read_element(b),
        ) == Some(
            (
                segments.map_values(
                    |segment: SealedElementSegment<FunctionRef>| element_of(segment),
                ),
                tail,
            ),
        ),
    decreases segments.len(),
{
    let read = |b: Seq<u8>| read_element(b);
    let bytes = elements_encoding(segments);
    let items = segments.map_values(
        |segment: SealedElementSegment<FunctionRef>| element_of(segment),
    );
    if segments.len() == 0 {
        assert(bytes + tail =~= tail);
        assert(items =~= Seq::empty());
    } else {
        let init = segments.drop_last();
        let last = segments.last();
        lemma_fixed_leb_len(last.parts@.len() as int, 5);
        lemma_read_elements(init, element_encoding(last) + tail);
        lemma_read_element(last, tail);
        assert(bytes + tail =~= elements_encoding(init) + (element_encoding(last) + tail));
        lemma_read_one_more(bytes + tail, init.len(), read);
        assert(init.map_values(
            |segment: SealedElementSegment<FunctionRef>| element_of(segment),
        ).push(element_of(last)) =~= items);
    }
}

/// The section of elements holds every element segment: its table and its place there, unless it is
/// passive or declared, and the indices of its functions.
pub proof fn lemma_elements_are_read_back(module: Module, tail: Seq<u8>)
    requires
        can_generate(module),
    ensures
        is_list_section(
            element_section(module) + tail,
            9,
            module.extra.function_elements.segments@.map_values(
                |segment: SealedElementSegment<FunctionRef>| element_of(segment),
            ),
            |b: Seq<u8>| read_element(b),
            tail,
        ),
{
    lemma_module_size(module);
    reveal(element_section);
    let segments = module.extra.function_elements.segments@;
    let bytes = elements_encoding(segments);
    lemma_read_elements(segments, Seq::empty());
    assert(bytes + Seq::<u8>::empty() =~= bytes);
    lemma_is_long_list_section(
        9,
        segments.map_values(|segment: SealedElementSegment<FunctionRef>| element_of(segment)),
        bytes,
        |b: Seq<u8>| read_element(b),
        tail,
    );
}

/// Reads the ids of sections up to the end.
pub open spec fn section_ids(bytes: Seq<u8>) -> Option<Seq<u8>>
    decreases bytes.len(),
{
    if bytes.len() == 0 {
        Some(Seq::empty())
    } else {
        match read_section(bytes) {
            Some(((id, _), rest)) => if rest.len() < bytes.len() {
                match section_ids(rest) {
                    Some(ids) => Some(seq![id] + ids),
                    None => None,
                }
            } else {
                None
            },
            None => None,
        }
    }
}

/// The sections from that of the start function on.
spec fn last_sections(module: Module) -> Seq<u8> {
    start_section(module) + (element_section(module) + (data_count_section(module) + (code_section(
        module,
    ) + data_section(module))))
}

/// The ids of the sections from that of the start function on.
spec fn last_ids(module: Module) -> Seq<u8> {
    let ids = seq![9u8, 12u8, 10u8, 11u8];
    if module.extra.start_function is Some {
        seq![8u8] + ids
    } else {
        ids
    }
}

proof fn lemma_last_ids(module: Module)
    requires
        can_generate(module),
    ensures
        section_ids(last_sections(module)) == Some(last_ids(module)),
{
    let none = Seq::<u8>::empty();
    let data = data_section(module);
    let code = code_section(module) + data;
    let data_count = data_count_section(module) + code;
    let elements = element_section(module) + data_count;
    let start = start_section(module) + elements;
    assert(section_ids(none) == Some(none));
    assert(section_ids(data) == Some(seq![11u8] + none)) by {
        lemma_data_is_read_back(module, none);
        assert(data + none =~= data);
        lemma_next_section(data, none, 11, none);
    }
    let from_code = seq![10u8] + (seq![11u8] + none);
    assert(section_ids(code) == Some(from_code)) by {
        lemma_code_is_read_back(module, data);
        lemma_next_section(code, data, 10, seq![11u8] + none);
    }
    assert(section_ids(data_count) == Some(seq![12u8] + from_code)) by {
        lemma_numbers_are_read_back(module, code);
        lemma_next_section(data_count, code, 12, from_code);
    }
    let from_elements = seq![9u8] + (seq![12u8] + from_code);
    assert(section_ids(elements) == Some(from_elements)) by {
        lemma_elements_are_read_back(module, data_count);
        lemma_next_section(elements, data_count, 9, seq![12u8] + from_code);
    }
    assert(from_elements =~= seq![9u8, 12u8, 10u8, 11u8]);
    lemma_numbers_are_read_back(module, elements);
    if module.extra.start_function is Some {
        lemma_next_section(start, elements, 8, from_elements);
    }
}

/// The sections from that of the tables on.
spec fn later_sections(module: Module) -> Seq<u8> {
    table_section(module) + (memory_section(module) + (tag_section(module) + (global_section(module)
        + (export_section(module) + last_sections(module)))))
}

proof fn lemma_later_ids(module: Module)
    requires
        can_generate(module),
    ensures
        section_ids(later_sections(module)) == Some(
            seq![4u8] + (seq![5u8] + (seq![13u8] + (seq![6u8] + (seq![7u8] + last_ids(module))))),
        ),
{
    let start = last_sections(module);
    let ids = last_ids(module);
    let exports = export_section(module) + start;
    let globals = global_section(module) + exports;
    let tags = tag_section(module) + globals;
    let memories = memory_section(module) + tags;
    let tables = table_section(module) + memories;
    let from_exports = seq![7u8] + ids;
    let from_globals = seq![6u8] + from_exports;
    let from_tags = seq![13u8] + from_globals;
    let from_memories = seq![5u8] + from_tags;
    lemma_last_ids(module);
    assert(section_ids(exports) == Some(from_exports)) by {
        lemma_exports_are_read_back(module, start);
        lemma_next_section(exports, start, 7, ids);
    }
    assert(section_ids(globals) == Some(from_globals)) by {
        lemma_globals_are_read_back(module, exports);
        lemma_next_section(globals, exports, 6, from_exports);
    }
    assert(section_ids(tags) == Some(from_tags)) by {
        lemma_definitions_are_read_back(module, globals);
        lemma_next_section(tags, globals, 13, from_globals);
    }
    assert(section_ids(memories) == Some(from_memories)) by {
        lemma_definitions_are_read_back(module, tags);
        lemma_next_section(memories, tags, 5, from_tags);
    }
    assert(section_ids(tables) == Some(seq![4u8] + from_memories)) by {
        lemma_definitions_are_read_back(module, memories);
        lemma_next_section(tables, memories, 4, from_memories);
    }
}

/// A written module starts with the magic number and the version of the binary format, and consists
/// of sections in the order that the format asks for.
pub proof fn lemma_sections_are_in_order(module: Module)
    requires
        can_generate(module),
    ensures
        module_bytes(module).take(8) == seq![
            0x00u8,
            0x61u8,
            0x73u8,
            0x6du8,
            0x01u8,
            0x00u8,
            0x00u8,
            0x00u8,
        ],
        section_ids(module_bytes(module).skip(8)) == Some(
            seq![1u8, 2u8, 3u8, 4u8, 5u8, 13u8, 6u8, 7u8] + (
            if module.extra.start_function is Some {
                seq![8u8]
            } else {
                Seq::<u8>::empty()
            }) + seq![9u8, 12u8, 10u8, 11u8],
        ),
{
    let tables = later_sections(module);
    let functions = function_section(module) + tables;
    let imports = import_section(module) + functions;
    let types = type_section(module) + imports;
    assert(module_bytes(module) == module_header() + types) by {
        lemma_module_parts(module);
    }
    assert(module_bytes(module).take(8) =~= module_header());
    assert(module_bytes(module).skip(8) =~= types);
    let from_tables = seq![4u8] + (seq![5u8] + (seq![13u8] + (seq![6u8] + (seq![7u8] + last_ids(
        module,
    )))));
    let from_functions = seq![3u8] + from_tables;
    let from_imports = seq![2u8] + from_functions;
    lemma_later_ids(module);
    assert(section_ids(functions) == Some(from_functions)) by {
        lemma_functions_are_read_back(module, tables);
        lemma_next_section(functions, tables, 3, from_tables);
    }
    assert(section_ids(imports) == Some(from_imports)) by {
        lemma_imports_are_read_back(module, functions);
        lemma_next_section(imports, functions, 2, from_functions);
    }
    assert(section_ids(types) == Some(seq![1u8] + from_imports)) by {
        lemma_types_are_read_back(module, imports);
        lemma_next_section(types, imports, 1, from_imports);
    }
    assert(seq![1u8] + from_imports =~= seq![1u8, 2u8, 3u8, 4u8, 5u8, 13u8, 6u8, 7u8] + (
    if module.extra.start_function is Some {
        seq![8u8]
    } else {
        Seq::<u8>::empty()
    }) + seq![9u8, 12u8, 10u8, 11u8]);
}

proof fn lemma_regroup(a: Seq<u8>, b: Seq<u8>, c: Seq<u8>)
    ensures
        a + b + c == a + (b + c),
{
    assert(a + b + c =~= a + (b + c));
}

proof fn lemma_module_parts(module: Module)
    ensures
        module_bytes(module) == module_header() + (type_section(module) + (import_section(module)
            + (function_section(module) + later_sections(module)))),
{
    let header = module_header();
    let t1 = type_section(module);
    let t2 = import_section(module);
    let t3 = function_section(module);
    let t4 = table_section(module);
    let t5 = memory_section(module);
    let t6 = tag_section(module);
    let t7 = global_section(module);
    let t8 = export_section(module);
    let start = start_section(module);
    let elements = element_section(module);
    let count = data_count_section(module);
    let code = code_section(module);
    let data = data_section(module);
    let declared = t1 + t2 + t3 + t4 + t5 + t6 + t7 + t8;
    lemma_regroup(header + declared + start + elements + count, code, data);
    lemma_regroup(header + declared + start + elements, count, code + data);
    lemma_regroup(header + declared + start, elements, count + (code + data));
    lemma_regroup(header + declared, start, elements + (count + (code + data)));
    let last = last_sections(module);
    lemma_regroup(header, declared, last);
    lemma_regroup(t1 + t2 + t3 + t4 + t5 + t6 + t7, t8, last);
    lemma_regroup(t1 + t2 + t3 + t4 + t5 + t6, t7, t8 + last);
    lemma_regroup(t1 + t2 + t3 + t4 + t5, t6, t7 + (t8 + last));
    lemma_regroup(t1 + t2 + t3 + t4, t5, t6 + (t7 + (t8 + last)));
    lemma_regroup(t1 + t2 + t3, t4, t5 + (t6 + (t7 + (t8 + last))));
    lemma_regroup(t1 + t2, t3, later_sections(module));
    lemma_regroup(t1, t2, t3 + later_sections(module));
}

proof fn lemma_next_section(bytes: Seq<u8>, rest: Seq<u8>, id: u8, ids: Seq<u8>)
    requires
        read_section(bytes) matches Some(((read_id, _), behind)) && read_id == id && behind == rest,
        section_ids(rest) == Some(ids),
    ensures
        section_ids(bytes) == Some(seq![id] + ids),
{
    lemma_section_is_shorter(bytes);
}

proof fn lemma_section_is_shorter(bytes: Seq<u8>)
    ensures
        read_section(bytes) matches Some((_, rest)) ==> rest.len() < bytes.len(),
{
    if bytes.len() > 0 {
        lemma_leb_len_bound(bytes.skip(1), 0);
    }
}

} // verus!
