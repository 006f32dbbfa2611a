//! Writing of modules.
use crate::emit::modify::constant_extraction::push_uleb;
use crate::emit::modify::wasm_emitter::{
    invalid_5byte, lemma_after_at_end, len_prefixed, section_bytes, Encoder, SectionList,
};
use crate::emit::relocation::encode::{lemma_fixed_leb_len, uleb};
use crate::emit::relocation::{FunctionInfo, ModuleLayout};
use crate::emit::sections::{
    entries_bytes, exports_bytes, import_names, number_section, plain_section, push_entries,
    push_name, push_number_section, push_section, val_list, EntryBytes, TypeBytes,
};
use crate::emit::sizes::{
    bodies_size, capped, check_elements, check_segments, elements_size, elements_writable, grow,
    segments_size,
};
use crate::index::{slot_at, GappedMap, SecondaryMap, TempIndex};
use crate::layouts::data::DataSymbolsOffsets;
use crate::layouts::data::sealed::{segments_encodable, segments_encoding};
use crate::layouts::elements::{elements_encoding, locations, ElementItemId};
use crate::typed::duplicate::Duplicate;
use crate::typed::entities::{
    export_numbers, exports_of, CollectionView, DefinedEntity, EntityCollection, ImportOrDefined,
    ImportedEntity,
};
use crate::typed::module::{DefinedFunction, ImportedFunction, Module};
use crate::typed::types::{FuncType, ValType};
use crate::typed::FunctionRef;
use core::ops::Range;
use vstd::prelude::*;

verus! {

/// The parameters and results of a function.
pub type Signature = (Seq<ValType>, Seq<ValType>);

/// The parameters and results of a type.
pub open spec fn signature(ty: FuncType) -> Signature {
    (ty.params@, ty.results@)
}

/// The parameters and results of a function.
pub open spec fn signature_of(
    entity: ImportOrDefined<ImportedFunction, DefinedFunction>,
) -> Signature {
    match entity {
        ImportOrDefined::Import(import) => signature(import.entity_type),
        ImportOrDefined::External(import) => signature(import.entity_type),
        ImportOrDefined::Defined(defined) => signature(defined.entity_type),
    }
}

/// The parameters and results of the first functions.
pub open spec fn signatures(
    functions: CollectionView<ImportedFunction, DefinedFunction>,
    count: nat,
) -> Seq<Signature> {
    Seq::new(count, |i: int| signature_of(functions.entity(i)))
}

/// The different signatures, in the order in which they occur first.
pub open spec fn distinct(all: Seq<Signature>) -> Seq<Signature>
    decreases all.len(),
{
    if all.len() == 0 {
        Seq::empty()
    } else {
        let earlier = distinct(all.drop_last());
        if earlier.contains(all.last()) {
            earlier
        } else {
            earlier.push(all.last())
        }
    }
}

/// The number of a signature among different ones.
pub open spec fn signature_number(types: Seq<Signature>, signature: Signature) -> int {
    choose|i: int| 0 <= i < types.len() && types[i] == signature
}

/// The number of the type of a function.
pub open spec fn type_number(
    functions: CollectionView<ImportedFunction, DefinedFunction>,
    function: int,
) -> int {
    signature_number(
        distinct(signatures(functions, functions.len())),
        signature_of(functions.entity(function)),
    )
}

/// Different signatures stay different, and none is lost.
proof fn lemma_distinct(all: Seq<Signature>)
    ensures
        forall|i: int, j: int|
            #![trigger distinct(all)[i], distinct(all)[j]]
            0 <= i < j < distinct(all).len() ==> distinct(all)[i] != distinct(all)[j],
        forall|k: int| 0 <= k < all.len() ==> distinct(all).contains(#[trigger] all[k]),
        distinct(all).len() <= all.len(),
    decreases all.len(),
{
    if all.len() > 0 {
        let earlier = distinct(all.drop_last());
        lemma_distinct(all.drop_last());
        assert forall|k: int| 0 <= k < all.len() implies distinct(all).contains(
            #[trigger] all[k],
        ) by {
            if k < all.len() - 1 {
                assert(all.drop_last()[k] == all[k]);
                assert(earlier.contains(all[k]));
                let i = choose|i: int| 0 <= i < earlier.len() && earlier[i] == all[k];
                assert(distinct(all)[i] == all[k]);
            } else if !earlier.contains(all.last()) {
                assert(distinct(all)[earlier.len() as int] == all.last());
            }
        }
    }
}

/// The types of a prefix are a prefix of the types.
proof fn lemma_distinct_grows(all: Seq<Signature>, k: int)
    requires
        0 <= k <= all.len(),
    ensures
        distinct(all.take(k)).len() <= distinct(all).len(),
        forall|i: int|
            0 <= i < distinct(all.take(k)).len() ==> #[trigger] distinct(all.take(k))[i]
                == distinct(all)[i],
    decreases all.len(),
{
    if k < all.len() {
        assert(all.drop_last().take(k) =~= all.take(k));
        lemma_distinct_grows(all.drop_last(), k);
    } else {
        assert(all.take(k) =~= all);
    }
}

/// The number of the type of a function stands for its type, and functions have the same number if
/// and only if they have the same type.
pub proof fn lemma_type_number(
    functions: CollectionView<ImportedFunction, DefinedFunction>,
    a: int,
    b: int,
)
    requires
        0 <= a < functions.len(),
        0 <= b < functions.len(),
    ensures
        ({
            let types = distinct(signatures(functions, functions.len()));
            &&& 0 <= type_number(functions, a) < types.len()
            &&& types[type_number(functions, a)] == signature_of(functions.entity(a))
            &&& type_number(functions, a) == type_number(functions, b) <==> signature_of(
                functions.entity(a),
            ) == signature_of(functions.entity(b))
        }),
{
    let all = signatures(functions, functions.len());
    lemma_distinct(all);
    assert(all[a] == signature_of(functions.entity(a)));
    assert(all[b] == signature_of(functions.entity(b)));
    assert(distinct(all).contains(all[a]));
    assert(distinct(all).contains(all[b]));
}

/// Whether types have the given signatures.
pub open spec fn have_signatures(types: Seq<FuncType>, signatures: Seq<Signature>) -> bool {
    &&& types.len() == signatures.len()
    &&& forall|i: int| 0 <= i < types.len() ==> signature(#[trigger] types[i]) == signatures[i]
}

/// The bytes of a type.
pub open spec fn signature_bytes(signature: Signature) -> Seq<u8> {
    seq![0x60u8] + val_list(signature.0) + val_list(signature.1)
}

/// The bytes of types.
pub open spec fn signatures_bytes(all: Seq<Signature>) -> Seq<u8>
    decreases all.len(),
{
    if all.len() == 0 {
        Seq::empty()
    } else {
        signatures_bytes(all.drop_last()) + signature_bytes(all.last())
    }
}

proof fn lemma_types_bytes(types: Seq<FuncType>, all: Seq<Signature>)
    requires
        have_signatures(types, all),
    ensures
        entries_bytes(types) == signatures_bytes(all),
    decreases types.len(),
{
    if types.len() > 0 {
        assert(have_signatures(types.drop_last(), all.drop_last()));
        lemma_types_bytes(types.drop_last(), all.drop_last());
        assert(signature(types.last()) == all.last());
    }
}

fn same_types(a: &Vec<ValType>, b: &Vec<ValType>) -> (r: bool)
    ensures
        r == (a@ == b@),
{
    if a.len() != b.len() {
        return false;
    }
    let mut i: usize = 0;
    while i < a.len()
        invariant
            i <= a@.len() == b@.len(),
            forall|j: int| 0 <= j < i ==> a@[j] == b@[j],
        decreases a@.len() - i,
    {
        if a[i] != b[i] {
            assert(a@[i as int] != b@[i as int]);
            return false;
        }
        i = i + 1;
    }
    assert(a@ =~= b@);
    true
}

fn find_type(types: &Vec<FuncType>, ty: &FuncType, Ghost(all): Ghost<Seq<Signature>>) -> (r: Option<
    usize,
>)
    requires
        have_signatures(types@, all),
    ensures
        match r {
            Some(i) => i < all.len() && all[i as int] == signature(*ty),
            None => !all.contains(signature(*ty)),
        },
{
    let mut i: usize = 0;
    while i < types.len()
        invariant
            i <= types@.len(),
            have_signatures(types@, all),
            forall|j: int| 0 <= j < i ==> all[j] != signature(*ty),
        decreases types@.len() - i,
    {
        assert(signature(types@[i as int]) == all[i as int]);
        if same_types(&types[i].params, &ty.params) && same_types(&types[i].results, &ty.results) {
            return Some(i);
        }
        i = i + 1;
    }
    None
}

/// Whether numbers are those of the types of the first functions.
pub open spec fn are_type_numbers(
    numbers: Seq<u32>,
    types: Seq<Signature>,
    all: Seq<Signature>,
) -> bool {
    &&& numbers.len() == all.len()
    &&& forall|i: int|
        0 <= i < numbers.len() ==> (#[trigger] numbers[i]) < types.len() && types[numbers[i] as int]
            == all[i]
}

/// The bytes of imported functions.
pub open spec fn function_imports_bytes(
    functions: CollectionView<ImportedFunction, DefinedFunction>,
    count: int,
) -> Seq<u8>
    decreases count,
{
    if count <= 0 {
        Seq::empty()
    } else {
        let import = functions.imports[count - 1];
        function_imports_bytes(functions, count - 1) + import_names(import.module@, import.name@)
            + seq![0x00u8] + uleb(type_number(functions, count - 1) as nat)
    }
}

/// The bytes of the numbers of the types of defined functions.
pub open spec fn type_ids_bytes(
    functions: CollectionView<ImportedFunction, DefinedFunction>,
    count: int,
) -> Seq<u8>
    decreases count,
{
    if count <= 0 {
        Seq::empty()
    } else {
        type_ids_bytes(functions, count - 1) + uleb(
            type_number(functions, functions.imports.len() + count - 1) as nat,
        )
    }
}

/// The bytes of all imports.
pub open spec fn imports_bytes(module: Module) -> Seq<u8> {
    entries_bytes(module.globals@.imports) + function_imports_bytes(
        module.functions@,
        module.functions@.imports.len() as int,
    ) + entries_bytes(module.tables@.imports) + entries_bytes(module.memories@.imports)
        + entries_bytes(module.tags@.imports)
}

/// How many entities are imported.
pub open spec fn imports_count(module: Module) -> nat {
    module.globals@.imports.len() + module.functions@.imports.len() + module.tables@.imports.len()
        + module.memories@.imports.len() + module.tags@.imports.len()
}

/// The bytes of all exports.
pub open spec fn all_exports_bytes(module: Module) -> Seq<u8> {
    exports_bytes(3, exports_of(module.globals@)) + exports_bytes(0, exports_of(module.functions@))
        + exports_bytes(1, exports_of(module.tables@)) + exports_bytes(
        2,
        exports_of(module.memories@),
    ) + exports_bytes(4, exports_of(module.tags@))
}

/// How many names are exported.
pub open spec fn exports_count(module: Module) -> nat {
    exports_of(module.globals@).len() + exports_of(module.functions@).len() + exports_of(
        module.tables@,
    ).len() + exports_of(module.memories@).len() + exports_of(module.tags@).len()
}

/// The bytes of functions, each behind its length.
pub open spec fn bodies_bytes(defined: Seq<DefinedFunction>) -> Seq<u8>
    decreases defined.len(),
{
    if defined.len() == 0 {
        Seq::empty()
    } else {
        bodies_bytes(defined.drop_last()) + len_prefixed(defined.last().body.emitted())
    }
}

/// The section of types.
#[verifier::opaque]
pub open spec fn type_section(module: Module) -> Seq<u8> {
    let types = distinct(signatures(module.functions@, module.functions@.len()));
    plain_section(1, types.len(), signatures_bytes(types))
}

/// The section of imports.
#[verifier::opaque]
pub open spec fn import_section(module: Module) -> Seq<u8> {
    plain_section(2, imports_count(module), imports_bytes(module))
}

/// The section of the types of defined functions.
#[verifier::opaque]
pub open spec fn function_section(module: Module) -> Seq<u8> {
    plain_section(
        3,
        module.functions@.defined.len(),
        type_ids_bytes(module.functions@, module.functions@.defined.len() as int),
    )
}

/// The section of tables.
#[verifier::opaque]
pub open spec fn table_section(module: Module) -> Seq<u8> {
    plain_section(4, module.tables@.defined.len(), entries_bytes(module.tables@.defined))
}

/// The section of memories.
#[verifier::opaque]
pub open spec fn memory_section(module: Module) -> Seq<u8> {
    plain_section(5, module.memories@.defined.len(), entries_bytes(module.memories@.defined))
}

/// The section of tags.
#[verifier::opaque]
pub open spec fn tag_section(module: Module) -> Seq<u8> {
    plain_section(13, module.tags@.defined.len(), entries_bytes(module.tags@.defined))
}

/// The section of globals.
#[verifier::opaque]
pub open spec fn global_section(module: Module) -> Seq<u8> {
    plain_section(6, module.globals@.defined.len(), entries_bytes(module.globals@.defined))
}

/// The section of exports.
#[verifier::opaque]
pub open spec fn export_section(module: Module) -> Seq<u8> {
    plain_section(7, exports_count(module), all_exports_bytes(module))
}

/// The section of the start function, if there is one.
#[verifier::opaque]
pub open spec fn start_section(module: Module) -> Seq<u8> {
    match module.extra.start_function {
        Some(function) => number_section(8, function.id() as nat),
        None => Seq::empty(),
    }
}

/// The section of the elements of tables.
#[verifier::opaque]
pub open spec fn element_section(module: Module) -> Seq<u8> {
    let segments = module.extra.function_elements.segments@;
    section_bytes(seq![9u8], segments.len() as int, elements_encoding(segments))
}

/// The section of the number of data segments.
#[verifier::opaque]
pub open spec fn data_count_section(module: Module) -> Seq<u8> {
    number_section(12, module.extra.mem_layout.segments@.len())
}

/// The section of the bodies of functions.
#[verifier::opaque]
pub open spec fn code_section(module: Module) -> Seq<u8> {
    section_bytes(
        seq![10u8],
        module.functions@.defined.len() as int,
        bodies_bytes(module.functions@.defined),
    )
}

/// The section of data segments.
#[verifier::opaque]
pub open spec fn data_section(module: Module) -> Seq<u8> {
    let segments = module.extra.mem_layout.segments@;
    section_bytes(seq![11u8], segments.len() as int, segments_encoding(segments))
}

/// What every module starts with.
pub open spec fn module_header() -> Seq<u8> {
    seq![0x00u8, 0x61u8, 0x73u8, 0x6du8, 0x01u8, 0x00u8, 0x00u8, 0x00u8]
}

/// The sections of types, imports and definitions.
pub open spec fn declarations(module: Module) -> Seq<u8> {
    type_section(module) + import_section(module) + function_section(module) + table_section(
        module,
    ) + memory_section(module) + tag_section(module) + global_section(module) + export_section(
        module,
    )
}

/// What stands before the section of the bodies of functions.
pub open spec fn before_code(module: Module) -> Seq<u8> {
    module_header() + declarations(module) + start_section(module) + element_section(module)
        + data_count_section(module)
}

/// The bytes of a module.
pub open spec fn module_bytes(module: Module) -> Seq<u8> {
    before_code(module) + code_section(module) + data_section(module)
}

/// Whether the parts of a module can be written.
pub open spec fn is_writable(module: Module) -> bool {
    &&& module.has_indices()
    &&& forall|i: int|
        0 <= i < module.functions@.defined.len() ==> (
        #[trigger] module.functions@.defined[i]).body.wf()
    &&& forall|i: int|
        0 <= i < module.globals@.defined.len() ==> (
        #[trigger] module.globals@.defined[i]).entry_valid()
    &&& forall|i: int|
        0 <= i < module.tables@.defined.len() ==> (
        #[trigger] module.tables@.defined[i]).entry_valid()
    &&& forall|i: int|
        0 <= i < module.memories@.defined.len() ==> (
        #[trigger] module.memories@.defined[i]).entry_valid()
    &&& forall|i: int|
        0 <= i < module.tags@.defined.len() ==> (#[trigger] module.tags@.defined[i]).entry_valid()
    &&& module.extra.mem_layout.segments@.len() <= u32::MAX
    &&& segments_encodable(module.extra.mem_layout.segments@)
    &&& elements_writable(module.extra.function_elements.segments@)
}

/// Whether a module can be written, and is not too large.
pub open spec fn can_generate(module: Module) -> bool {
    is_writable(module) && module_bytes(module).len() <= u32::MAX
}

/// Why a module cannot be written.
#[derive(Debug, Clone, Copy, PartialEq, Eq, Structural)]
pub enum GenerateError {
    /// There are more entities than indices, or a body or an offset cannot be written.
    Unwritable,
    /// The module has more bytes than offsets.
    TooLarge,
}

/// Where the body of a defined function is in its section.
pub open spec fn body_offset(defined: Seq<DefinedFunction>, k: int) -> nat {
    10 + bodies_bytes(defined.take(k)).len()
}

/// Where a function is in a written module.
pub open spec fn function_place(module: Module, function: nat) -> FunctionInfo {
    let k = function - module.functions@.imports.len();
    FunctionInfo {
        code_offset: if 0 <= k < module.functions@.defined.len() {
            body_offset(module.functions@.defined, k) as u32
        } else {
            0
        },
        indirect_table_index: slot_at(
            locations(module.extra.function_elements.segments@),
            function,
        ),
    }
}

proof fn lemma_exports_count(sort: u8, exports: Seq<(int, Seq<char>)>)
    ensures
        exports.len() <= exports_bytes(sort, exports).len(),
    decreases exports.len(),
{
    if exports.len() > 0 {
        lemma_exports_count(sort, exports.drop_last());
    }
}

proof fn lemma_section_len(head: Seq<u8>, count: int, body: Seq<u8>)
    ensures
        section_bytes(head, count, body).len() == head.len() + 10 + body.len(),
{
    lemma_fixed_leb_len(body.len() as int + 5, 5);
    lemma_fixed_leb_len(count, 5);
}

proof fn lemma_bodies_len(defined: Seq<DefinedFunction>, k: int)
    requires
        0 <= k < defined.len(),
    ensures
        bodies_bytes(defined.take(k)).len() + 5 + defined[k].body.emitted().len() <= bodies_bytes(
            defined,
        ).len(),
    decreases defined.len(),
{
    lemma_fixed_leb_len(defined.last().body.emitted().len() as int, 5);
    if k < defined.len() - 1 {
        assert(defined.drop_last().take(k) =~= defined.take(k));
        lemma_bodies_len(defined.drop_last(), k);
    } else {
        assert(defined.take(k) =~= defined.drop_last());
    }
}

/// The size of a module.
pub proof fn lemma_module_size(module: Module)
    ensures
        module_bytes(module).len() == module_header().len() + declarations(module).len()
            + start_section(module).len() + (11 + elements_encoding(
            module.extra.function_elements.segments@,
        ).len()) + data_count_section(module).len() + (11 + bodies_bytes(
            module.functions@.defined,
        ).len()) + (11 + segments_encoding(module.extra.mem_layout.segments@).len()),
        element_section(module).len() == 11 + elements_encoding(
            module.extra.function_elements.segments@,
        ).len(),
        code_section(module).len() == 11 + bodies_bytes(module.functions@.defined).len(),
        data_section(module).len() == 11 + segments_encoding(
            module.extra.mem_layout.segments@,
        ).len(),
{
    reveal(element_section);
    reveal(code_section);
    reveal(data_section);
    let elements = module.extra.function_elements.segments@;
    let segments = module.extra.mem_layout.segments@;
    let defined = module.functions@.defined;
    lemma_section_len(seq![9u8], elements.len() as int, elements_encoding(elements));
    lemma_section_len(seq![10u8], defined.len() as int, bodies_bytes(defined));
    lemma_section_len(seq![11u8], segments.len() as int, segments_encoding(segments));
}

/// Whether a layout is that of a written module.
pub open spec fn is_layout_of(module: Module, layout: ModuleLayout) -> bool {
    let code = before_code(module).len();
    let data = code + code_section(module).len();
    &&& layout.code_section.start == code + 6
    &&& layout.code_section.end == data
    &&& layout.data_section.start == data + 6
    &&& layout.data_section.end == module_bytes(module).len()
    &&& forall|function: nat| #[trigger]
        layout.functions_mapping.value(function) == function_place(module, function)
    &&& layout.data_mapping@ == module.extra.mem_layout.defined@
    &&& layout.data_mapping.wf()
}

fn push_exports<Idx: TempIndex, T, U>(
    out: &mut Vec<u8>,
    sort: u8,
    all: &EntityCollection<Idx, ImportedEntity<T>, DefinedEntity<U>>,
) -> (r: usize)
    requires
        all@.imports.len() + all@.defined.len() < u32::MAX,
    ensures
        final(out)@ == old(out)@ + exports_bytes(sort, exports_of(all@)),
        r == exports_of(all@).len(),
{
    let exports = all.exports_iter();
    let ghost numbers = exports_of(all@);
    let ghost start = out@;
    let mut i: usize = 0;
    proof {
        assert(export_numbers(exports@) == numbers);
        assert(numbers.take(0) =~= Seq::<(int, Seq<char>)>::empty());
        assert(out@ =~= start + exports_bytes(sort, numbers.take(0)));
    }
    while i < exports.len()
        invariant
            i <= exports@.len() == numbers.len(),
            export_numbers(exports@) == numbers,
            out@ == start + exports_bytes(sort, numbers.take(i as int)),
        decreases exports@.len() - i,
    {
        proof {
            assert(numbers[i as int] == (exports@[i as int].0.id() as int, exports@[i as int].1@));
            assert(numbers.take(i + 1).drop_last() =~= numbers.take(i as int));
            assert(numbers.take(i + 1).last() == numbers[i as int]);
        }
        push_name(out, exports[i].1);
        out.push(sort);
        push_uleb(out, exports[i].0.as_u32());
        assert(out@ =~= start + exports_bytes(sort, numbers.take(i + 1)));
        i = i + 1;
    }
    assert(numbers.take(i as int) =~= numbers);
    exports.len()
}

impl Module {
    /// Writes the section of types: every type once. Returns the number of the type of every
    /// function.
    pub fn generate_type_section(&self, out: &mut Vec<u8>) -> (r: Vec<u32>)
        requires
            self.functions@.len() < u32::MAX,
        ensures
            final(out)@ == old(out)@ + type_section(*self),
            r@.len() == self.functions@.len(),
            forall|i: int|
                0 <= i < r@.len() ==> #[trigger] r@[i] == type_number(self.functions@, i),
    {
        proof {
            reveal(type_section);
        }
        let ghost all = signatures(self.functions@, self.functions@.len());
        let ghost mut types: Seq<Signature> = Seq::empty();
        let mut uniq_types: Vec<FuncType> = Vec::new();
        let mut numbers: Vec<u32> = Vec::new();
        let count: u32 = self.functions.len() as u32;
        let mut i: u32 = 0;
        assert(all.take(0) =~= Seq::<Signature>::empty());
        while i < count
            invariant
                i <= count == self.functions@.len() < u32::MAX,
                all == signatures(self.functions@, self.functions@.len()),
                types == distinct(all.take(i as int)),
                have_signatures(uniq_types@, types),
                are_type_numbers(numbers@, types, all.take(i as int)),
            decreases count - i,
        {
            let ghost earlier = types;
            let id = FunctionRef::from_raw(i);
            let func_type = match self.functions.get_entity(id) {
                ImportOrDefined::Import(import) => &import.entity_type,
                ImportOrDefined::External(import) => &import.entity_type,
                ImportOrDefined::Defined(defined) => &defined.entity_type,
            };
            proof {
                assert(signature(*func_type) == all[i as int]);
                assert(all.take(i + 1).drop_last() =~= all.take(i as int));
                assert(all.take(i + 1).last() == all[i as int]);
                lemma_distinct(all.take(i as int));
            }
            match find_type(&uniq_types, func_type, Ghost(earlier)) {
                Some(number) => {
                    numbers.push(number as u32);
                    assert(earlier.contains(all[i as int])) by {
                        assert(earlier[number as int] == all[i as int]);
                    }
                },
                None => {
                    numbers.push(uniq_types.len() as u32);
                    uniq_types.push(func_type.duplicate());
                },
            }
            proof {
                types = distinct(all.take(i + 1));
                assert forall|j: int| 0 <= j < uniq_types@.len() implies signature(
                    #[trigger] uniq_types@[j],
                ) == types[j] by {}
                assert forall|j: int| 0 <= j < numbers@.len() implies (#[trigger] numbers@[j])
                    < types.len() && types[numbers@[j] as int] == all.take(i + 1)[j] by {
                    if j < i {
                        assert(numbers@[j] < earlier.len() && earlier[numbers@[j] as int]
                            == all.take(i as int)[j]);
                    }
                }
            }
            i = i + 1;
        }
        proof {
            assert(all.take(i as int) =~= all);
            lemma_types_bytes(uniq_types@, types);
            lemma_distinct(all);
            assert forall|j: int| 0 <= j < numbers@.len() implies #[trigger] numbers@[j]
                == type_number(self.functions@, j) by {
                assert(types[numbers@[j] as int] == all[j]);
                lemma_type_number(self.functions@, j, j);
            }
        }
        let mut entries: Vec<u8> = Vec::new();
        push_entries(&mut entries, uniq_types.as_slice());
        assert(entries@ =~= signatures_bytes(types));
        push_section(out, 1, uniq_types.len() as u64, &entries);
        numbers
    }

    /// Writes the section of imports.
    pub fn generate_import_section(&self, fn_types: &Vec<u32>, out: &mut Vec<u8>)
        requires
            fn_types@.len() == self.functions@.len(),
            forall|i: int|
                0 <= i < fn_types@.len() ==> #[trigger] fn_types@[i] == type_number(
                    self.functions@,
                    i,
                ),
            self.has_indices(),
        ensures
            final(out)@ == old(out)@ + import_section(*self),
    {
        proof {
            reveal(import_section);
        }
        let mut entries: Vec<u8> = Vec::new();
        push_entries(&mut entries, self.globals.imports());
        let functions = self.functions.imports();
        let ghost start = entries@;
        let ghost view = self.functions@;
        let mut i: usize = 0;
        assert(entries@ =~= start + function_imports_bytes(view, 0));
        while i < functions.len()
            invariant
                i <= functions@.len() == view.imports.len(),
                functions@ == view.imports,
                view == self.functions@,
                fn_types@.len() == view.len(),
                forall|i: int|
                    0 <= i < fn_types@.len() ==> #[trigger] fn_types@[i] == type_number(view, i),
                entries@ == start + function_imports_bytes(view, i as int),
            decreases functions@.len() - i,
        {
            push_name(&mut entries, functions[i].module.as_str());
            push_name(&mut entries, functions[i].name.as_str());
            entries.push(0x00);
            push_uleb(&mut entries, fn_types[i]);
            assert(entries@ =~= start + function_imports_bytes(view, i + 1));
            i = i + 1;
        }
        push_entries(&mut entries, self.tables.imports());
        push_entries(&mut entries, self.memories.imports());
        push_entries(&mut entries, self.tags.imports());
        assert(entries@ =~= imports_bytes(*self));
        let count: u64 = self.globals.imports().len() as u64 + functions.len() as u64
            + self.tables.imports().len() as u64 + self.memories.imports().len() as u64
            + self.tags.imports().len() as u64;
        push_section(out, 2, count, &entries);
    }

    /// Writes the section of the types of defined functions.
    fn generate_function_type_ids_section(&self, fn_types: &Vec<u32>, out: &mut Vec<u8>)
        requires
            self.functions@.len() < u32::MAX,
            fn_types@.len() == self.functions@.len(),
            forall|i: int|
                0 <= i < fn_types@.len() ==> #[trigger] fn_types@[i] == type_number(
                    self.functions@,
                    i,
                ),
        ensures
            final(out)@ == old(out)@ + function_section(*self),
    {
        proof {
            reveal(function_section);
        }
        let ghost view = self.functions@;
        let imported: usize = self.functions.imports().len();
        let defined: usize = self.functions.defined().len();
        let mut entries: Vec<u8> = Vec::new();
        let mut i: usize = 0;
        assert(entries@ =~= type_ids_bytes(view, 0));
        while i < defined
            invariant
                i <= defined == view.defined.len(),
                imported == view.imports.len(),
                view.len() < u32::MAX,
                fn_types@.len() == view.len(),
                forall|i: int|
                    0 <= i < fn_types@.len() ==> #[trigger] fn_types@[i] == type_number(view, i),
                entries@ == type_ids_bytes(view, i as int),
            decreases defined - i,
        {
            push_uleb(&mut entries, fn_types[imported + i]);
            i = i + 1;
        }
        push_section(out, 3, defined as u64, &entries);
    }

    fn generate_table_sections(&self, out: &mut Vec<u8>)
        requires
            is_writable(*self),
        ensures
            final(out)@ == old(out)@ + table_section(*self),
    {
        proof {
            reveal(table_section);
        }
        let mut entries: Vec<u8> = Vec::new();
        push_entries(&mut entries, self.tables.defined());
        assert(entries@ =~= entries_bytes(self.tables@.defined));
        push_section(out, 4, self.tables.defined().len() as u64, &entries);
    }

    fn generate_memory_section(&self, out: &mut Vec<u8>)
        requires
            is_writable(*self),
        ensures
            final(out)@ == old(out)@ + memory_section(*self),
    {
        proof {
            reveal(memory_section);
        }
        let mut entries: Vec<u8> = Vec::new();
        push_entries(&mut entries, self.memories.defined());
        assert(entries@ =~= entries_bytes(self.memories@.defined));
        push_section(out, 5, self.memories.defined().len() as u64, &entries);
    }

    fn generate_tag_section(&self, out: &mut Vec<u8>)
        requires
            is_writable(*self),
        ensures
            final(out)@ == old(out)@ + tag_section(*self),
    {
        proof {
            reveal(tag_section);
        }
        let mut entries: Vec<u8> = Vec::new();
        push_entries(&mut entries, self.tags.defined());
        assert(entries@ =~= entries_bytes(self.tags@.defined));
        push_section(out, 13, self.tags.defined().len() as u64, &entries);
    }

    fn generate_global_section(&self, out: &mut Vec<u8>)
        requires
            is_writable(*self),
        ensures
            final(out)@ == old(out)@ + global_section(*self),
    {
        proof {
            reveal(global_section);
        }
        let mut entries: Vec<u8> = Vec::new();
        push_entries(&mut entries, self.globals.defined());
        assert(entries@ =~= entries_bytes(self.globals@.defined));
        push_section(out, 6, self.globals.defined().len() as u64, &entries);
    }

    fn generate_export_section(&self, out: &mut Vec<u8>)
        requires
            is_writable(*self),
        ensures
            final(out)@ == old(out)@ + export_section(*self),
    {
        proof {
            reveal(export_section);
        }
        let mut entries: Vec<u8> = Vec::new();
        let globals: usize = push_exports(&mut entries, 3, &self.globals);
        let functions: usize = push_exports(&mut entries, 0, &self.functions);
        let tables: usize = push_exports(&mut entries, 1, &self.tables);
        let memories: usize = push_exports(&mut entries, 2, &self.memories);
        let tags: usize = push_exports(&mut entries, 4, &self.tags);
        proof {
            assert(entries@ =~= all_exports_bytes(*self));
            lemma_exports_count(3, exports_of(self.globals@));
            lemma_exports_count(0, exports_of(self.functions@));
            lemma_exports_count(1, exports_of(self.tables@));
            lemma_exports_count(2, exports_of(self.memories@));
            lemma_exports_count(4, exports_of(self.tags@));
        }
        let size: usize = entries.len();
        assert(exports_count(*self) <= size);
        let count: usize = globals + functions + tables + memories + tags;
        push_section(out, 7, count as u64, &entries);
    }

    /// Writes the section of the start function, if there is one.
    fn generate_start_function_section(&self, out: &mut Vec<u8>)
        ensures
            final(out)@ == old(out)@ + start_section(*self),
    {
        proof {
            reveal(start_section);
        }
        let ghost before = out@;
        if let Some(function) = self.extra.start_function {
            push_number_section(out, 8, function.as_u32());
        } else {
            assert(out@ =~= before + start_section(*self));
        }
    }

    /// Writes the section of the elements of tables. Returns where functions are in them.
    fn generate_element_section(&self, out: &mut Vec<u8>) -> (r: GappedMap<
        FunctionRef,
        ElementItemId,
    >)
        requires
            can_generate(*self),
            element_section(*self).len() <= u32::MAX,
        ensures
            final(out)@ == old(out)@ + element_section(*self),
            r.wf(),
            r@ == locations(self.extra.function_elements.segments@),
    {
        proof {
            reveal(element_section);
        }
        let ghost before = out@;
        let ghost segments = self.extra.function_elements.segments@;
        let results = self.extra.function_elements.items_locations();
        let mut list = start_list(9);
        proof {
            lemma_section_len(seq![9u8], segments.len() as int, elements_encoding(segments));
            list.lemma_parts();
        }
        self.extra.function_elements.encode(&mut list);
        proof {
            assert(list.body() =~= elements_encoding(segments));
            list.lemma_parts();
        }
        let section = list.finish().into_inner();
        out.extend_from_slice(section.as_slice());
        assert(out@ =~= before + element_section(*self));
        results
    }

    fn generate_data_count_section(&self, out: &mut Vec<u8>)
        requires
            is_writable(*self),
        ensures
            final(out)@ == old(out)@ + data_count_section(*self),
    {
        proof {
            reveal(data_count_section);
        }
        push_number_section(out, 12, self.extra.mem_layout.segments.len() as u32);
    }

    /// The bytes of a function.
    fn generate_defined_function(func: &DefinedFunction) -> (r: Vec<u8>)
        requires
            func.body.wf(),
        ensures
            r@ == func.body.emitted(),
    {
        let mut bytes: Vec<u8> = Vec::new();
        func.body.append_to(&mut bytes);
        assert(bytes@ =~= func.body.emitted());
        bytes
    }

    /// Writes the section of the bodies of functions. Returns where they are.
    fn generate_code_section(&self, out: &mut Vec<u8>) -> (r: SecondaryMap<
        FunctionRef,
        FunctionInfo,
    >)
        requires
            can_generate(*self),
            code_section(*self).len() <= u32::MAX,
        ensures
            final(out)@ == old(out)@ + code_section(*self),
            forall|function: nat| #[trigger]
                r.value(function) == (FunctionInfo {
                    indirect_table_index: None,
                    ..function_place(*self, function)
                }),
    {
        proof {
            reveal(code_section);
        }
        let ghost before = out@;
        let ghost view = self.functions@;
        let ghost all = view.defined;
        let mut mapping: SecondaryMap<FunctionRef, FunctionInfo> = SecondaryMap::with_default(
            FunctionInfo { code_offset: 0, indirect_table_index: None },
        );
        let defined = self.functions.defined();
        let first: usize = self.functions.imports().len();
        let mut list = start_list(10);
        let mut i: usize = 0;
        proof {
            lemma_section_len(seq![10u8], all.len() as int, bodies_bytes(all));
            list.lemma_parts();
            assert(all.take(0) =~= Seq::<DefinedFunction>::empty());
        }
        while i < defined.len()
            invariant
                i <= defined@.len() == all.len(),
                defined@ == all,
                view == self.functions@,
                all == view.defined,
                first == view.imports.len(),
                can_generate(*self),
                bodies_bytes(all).len() + 11 <= u32::MAX,
                list.wf(),
                list.head() == seq![10u8],
                list.count() == i,
                list.enc().start == 0,
                list.enc().prefix == Seq::<u8>::empty(),
                list.enc().offset == list.enc().end(),
                list.body() == bodies_bytes(all.take(i as int)),
                forall|function: nat| #[trigger]
                    mapping.value(function) == (FunctionInfo {
                        indirect_table_index: None,
                        code_offset: if first <= function < first + i {
                            function_place(*self, function).code_offset
                        } else {
                            0
                        },
                    }),
            decreases defined@.len() - i,
        {
            assert(all[i as int].body.wf());
            let function = Self::generate_defined_function(&defined[i]);
            proof {
                list.lemma_parts();
                lemma_bodies_len(all, i as int);
                lemma_fixed_leb_len(function@.len() as int, 5);
                assert(all.take(i + 1).drop_last() =~= all.take(i as int));
                assert(all.take(i + 1).last() == all[i as int]);
                lemma_after_at_end(
                    list.enc(),
                    len_prefixed(function@),
                );
            }
            let code_offset: u32 = list.raw_len_prefixed(function.as_slice());
            let id = FunctionRef::from_raw((first + i) as u32);
            mapping.set(id, FunctionInfo { code_offset, indirect_table_index: None });
            assert(code_offset == body_offset(all, i as int));
            i = i + 1;
        }
        proof {
            assert(all.take(i as int) =~= all);
            list.lemma_parts();
        }
        let section = list.finish().into_inner();
        out.extend_from_slice(section.as_slice());
        assert(out@ =~= before + code_section(*self));
        mapping
    }

    /// Writes the section of data segments. Returns where data symbols are.
    fn generate_data_section(&self, out: &mut Vec<u8>) -> (r:
        DataSymbolsOffsets)
        requires
            self.extra.mem_layout.wf(),
            can_generate(*self),
            data_section(*self).len() <= u32::MAX,
        ensures
            final(out)@ == old(out)@ + data_section(*self),
            r.wf(),
            r@ == self.extra.mem_layout.defined@,
    {
        proof {
            reveal(data_section);
        }
        let ghost before = out@;
        let ghost segments = self.extra.mem_layout.segments@;
        let mut list = start_list(11);
        proof {
            lemma_section_len(seq![11u8], segments.len() as int, segments_encoding(segments));
            list.lemma_parts();
        }
        self.extra.mem_layout.encode(&mut list);
        proof {
            assert(list.body() =~= segments_encoding(segments));
            list.lemma_parts();
        }
        let section = list.finish().into_inner();
        out.extend_from_slice(section.as_slice());
        assert(out@ =~= before + data_section(*self));
        self.extra.mem_layout.item_places().duplicate()
    }

    /// Writes the sections of types, imports and definitions.
    fn generate_declarations(&self, output_module: &mut Vec<u8>)
        requires
            is_writable(*self),
        ensures
            final(output_module)@ == old(output_module)@ + declarations(*self),
    {
        let ghost before = output_module@;
        let fn_types = self.generate_type_section(output_module);
        self.generate_import_section(&fn_types, output_module);
        self.generate_function_type_ids_section(&fn_types, output_module);
        self.generate_table_sections(output_module);
        self.generate_memory_section(output_module);
        self.generate_tag_section(output_module);
        self.generate_global_section(output_module);
        self.generate_export_section(output_module);
        assert(output_module@ =~= before + declarations(*self));
    }

    /// Sets where functions are in tables.
    fn set_table_indices(
        mapping: &mut SecondaryMap<FunctionRef, FunctionInfo>,
        indirect_fn_mapping: &GappedMap<FunctionRef, ElementItemId>,
    )
        requires
            indirect_fn_mapping.wf(),
            forall|function: nat| #[trigger]
                old(mapping).value(function).indirect_table_index is None,
        ensures
            forall|function: nat| #[trigger]
                final(mapping).value(function) == (FunctionInfo {
                    indirect_table_index: slot_at(indirect_fn_mapping@, function),
                    ..old(mapping).value(function)
                }),
    {
        let ghost slots = indirect_fn_mapping@;
        let ghost coded = *mapping;
        let mut i: u32 = 0;
        let count: u32 = indirect_fn_mapping.next_key().as_u32();
        while i < count
            invariant
                i <= count,
                coded == *old(mapping),
                forall|function: nat| #[trigger]
                    mapping.value(function) == if function < i {
                        FunctionInfo {
                            indirect_table_index: slot_at(slots, function),
                            ..coded.value(function)
                        }
                    } else {
                        coded.value(function)
                    },
                slots == indirect_fn_mapping@,
            decreases count - i,
        {
            let id = FunctionRef::from_raw(i);
            let mut info = mapping.get(id);
            info.indirect_table_index = match indirect_fn_mapping.get(id) {
                Some(element) => Some(*element),
                None => None,
            };
            mapping.set(id, info);
            i = i + 1;
        }
        proof {
            assert forall|function: nat| #[trigger] mapping.value(function) == (FunctionInfo {
                indirect_table_index: slot_at(slots, function),
                ..coded.value(function)
            }) by {
                assert(coded.value(function).indirect_table_index is None);
            }
        }
    }

    /// Whether the parts of the module can be written.
    fn check_parts(&self) -> (r: bool)
        ensures
            r == is_writable(*self),
    {
        has_numbers(&self.functions) && has_numbers(&self.globals) && has_numbers(&self.tables)
            && has_numbers(&self.memories) && has_numbers(&self.tags) && bodies_are_valid(
            self.functions.defined(),
        ) && bodies_are_valid(self.globals.defined()) && bodies_are_valid(self.tables.defined())
            && bodies_are_valid(self.memories.defined()) && bodies_are_valid(self.tags.defined())
            && self.extra.mem_layout.segments.len() <= u32::MAX as usize && check_segments(
            self.extra.mem_layout.segments.as_slice(),
        ) && check_elements(self.extra.function_elements.segments.as_slice())
    }

    /// Appends the module to `output_module`. Returns where its functions and data are, from the
    /// start of the module.
    pub fn generate(&self, output_module: &mut Vec<u8>) -> (r: Result<ModuleLayout, GenerateError>)
        requires
            self.extra.mem_layout.wf(),
        ensures
            match r {
                Ok(layout) => {
                    &&& can_generate(*self)
                    &&& final(output_module)@ == old(output_module)@ + module_bytes(*self)
                    &&& is_layout_of(*self, layout)
                },
                Err(error) => {
                    &&& final(output_module)@ == old(output_module)@
                    &&& error == if is_writable(*self) {
                        GenerateError::TooLarge
                    } else {
                        GenerateError::Unwritable
                    }
                    &&& !can_generate(*self)
                },
            },
    {
        if !self.check_parts() {
            return Err(GenerateError::Unwritable);
        }
        let ghost before = output_module@;
        let mut bytes: Vec<u8> = vec![0x00, 0x61, 0x73, 0x6d, 0x01, 0x00, 0x00, 0x00];
        assert(bytes@ =~= module_header());
        self.generate_declarations(&mut bytes);
        self.generate_start_function_section(&mut bytes);
        let mut data_count: Vec<u8> = Vec::new();
        self.generate_data_count_section(&mut data_count);
        assert(data_count@ =~= data_count_section(*self));
        proof {
            lemma_module_size(*self);
        }
        let mut size: u64 = grow(0, bytes.len() as u64);
        size = grow(size, elements_size(self.extra.function_elements.segments.as_slice()));
        size = grow(size, data_count.len() as u64);
        size = grow(size, bodies_size(self.functions.defined()));
        size = grow(size, segments_size(self.extra.mem_layout.segments.as_slice()));
        size = grow(size, 33);
        assert(size == capped(module_bytes(*self).len() as int));
        if size > u32::MAX as u64 {
            return Err(GenerateError::TooLarge);
        }
        let indirect_fn_mapping = self.generate_element_section(&mut bytes);
        bytes.extend_from_slice(data_count.as_slice());
        assert(bytes@ =~= before_code(*self));
        let code_start: usize = bytes.len() + 1 + 5;
        let mut functions_mapping = self.generate_code_section(&mut bytes);
        let code_section = Range { start: code_start, end: bytes.len() };
        Self::set_table_indices(&mut functions_mapping, &indirect_fn_mapping);
        let data_start: usize = bytes.len() + 1 + 5;
        let data_mapping = self.generate_data_section(&mut bytes);
        let data_section = Range { start: data_start, end: bytes.len() };
        assert(bytes@ =~= module_bytes(*self));
        output_module.extend_from_slice(bytes.as_slice());
        assert(output_module@ =~= before + module_bytes(*self));
        Ok(ModuleLayout { code_section, data_section, functions_mapping, data_mapping })
    }
}

/// Whether there are indices for all entities of a kind.
fn has_numbers<Idx: TempIndex, I, D>(all: &EntityCollection<Idx, I, D>) -> (r: bool)
    ensures
        r == (all@.len() < u32::MAX),
{
    (all.imports().len() as u128 + all.defined().len() as u128 + all.external().len() as u128)
        < u32::MAX as u128
}

fn bodies_are_valid<T>(defined: &[DefinedEntity<T>]) -> (r: bool)
    ensures
        r == forall|i: int| 0 <= i < defined@.len() ==> (#[trigger] defined@[i]).body.wf(),
{
    let mut i: usize = 0;
    while i < defined.len()
        invariant
            i <= defined@.len(),
            forall|j: int| 0 <= j < i ==> (#[trigger] defined@[j]).body.wf(),
        decreases defined@.len() - i,
    {
        if !defined[i].body.is_valid() {
            assert(!defined@[i as int].body.wf());
            return false;
        }
        i = i + 1;
    }
    true
}

fn start_list(id: u8) -> (r: SectionList)
    ensures
        r.wf(),
        r.head() == seq![id],
        r.body() == Seq::<u8>::empty(),
        r.count() == 0,
        r.enc().start == 0,
        r.enc().prefix == Seq::<u8>::empty(),
        r.enc().offset == r.enc().end(),
{
    let encoder = Encoder::new(Vec::new(), 0);
    proof {
        lemma_after_at_end(
            encoder@,
            seq![id] + invalid_5byte()
                + invalid_5byte(),
        );
    }
    match SectionList::create_section(encoder, id) {
        Ok(list) => {
            assert(list.head() =~= seq![id]);
            assert(list.enc().prefix =~= Seq::<u8>::empty());
            list
        },
        Err(_) => {
            assert(false);
            vstd::pervasive::unreached()
        },
    }
}

} // verus!
