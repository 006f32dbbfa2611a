//! Where the parts of a written module are.
use crate::emit::generate::{
    before_code, bodies_bytes, can_generate, code_section, data_section, function_place,
    is_layout_of, module_bytes,
};
use crate::emit::relocation::encode::{fixed_leb, lemma_fixed_leb_len};
use crate::emit::relocation::ModuleLayout;
use crate::emit::sizes::element_writable;
use crate::index::{slot_at, TempIndex};
use crate::layouts::data::sealed::segments_encoding;
use crate::layouts::elements::{
    element_start, lemma_functions_stand_at_their_indices, locations, stands_at,
};
use crate::typed::module::{DefinedFunction, Module};
use crate::typed::FunctionRef;
use vstd::prelude::*;

verus! {

proof fn lemma_body_in_bodies(defined: Seq<DefinedFunction>, k: int)
    requires
        0 <= k < defined.len(),
    ensures
        ({
            let before = bodies_bytes(defined.take(k)).len() as int;
            let body = defined[k].body.emitted();
            &&& before + 5 + body.len() <= bodies_bytes(defined).len()
            &&& bodies_bytes(defined).subrange(before, before + 5) == fixed_leb(
                body.len() as int,
                5,
            )
            &&& bodies_bytes(defined).subrange(before + 5, before + 5 + body.len()) == body
        }),
    decreases defined.len(),
{
    let init = defined.drop_last();
    let all = bodies_bytes(defined);
    let before = bodies_bytes(defined.take(k)).len() as int;
    let body = defined[k].body.emitted();
    lemma_fixed_leb_len(body.len() as int, 5);
    if k == defined.len() - 1 {
        assert(defined.take(k) =~= init);
        assert(all.subrange(before, before + 5) =~= fixed_leb(body.len() as int, 5));
        assert(all.subrange(before + 5, before + 5 + body.len()) =~= body);
    } else {
        lemma_body_in_bodies(init, k);
        assert(init.take(k) =~= defined.take(k));
        let old = bodies_bytes(init);
        assert(all.subrange(before, before + 5) =~= old.subrange(before, before + 5));
        assert(all.subrange(before + 5, before + 5 + body.len()) =~= old.subrange(
            before + 5,
            before + 5 + body.len(),
        ));
    }
}

/// The body of every defined function stands at its offset from the start of the section of bodies,
/// behind its length.
pub proof fn lemma_bodies_are_at_their_offsets(module: Module, layout: ModuleLayout, k: int)
    requires
        can_generate(module),
        is_layout_of(module, layout),
        0 <= k < module.functions@.defined.len(),
    ensures
        ({
            let bytes = module_bytes(module);
            let function = module.functions@.imports.len() + k;
            let body = module.functions@.defined[k].body.emitted();
            let at = layout.code_section.start + layout.functions_mapping.value(
                function as nat,
            ).code_offset;
            &&& layout.code_section.start + 5 <= at - 5
            &&& at + body.len() <= layout.code_section.end <= bytes.len()
            &&& bytes.subrange(at, at + body.len()) == body
            &&& bytes.subrange(at - 5, at) == fixed_leb(body.len() as int, 5)
        }),
{
    let bytes = module_bytes(module);
    let defined = module.functions@.defined;
    let bodies = bodies_bytes(defined);
    let body = defined[k].body.emitted();
    let code = before_code(module).len() as int;
    let before = bodies_bytes(defined.take(k)).len() as int;
    reveal(code_section);
    lemma_fixed_leb_len(bodies.len() as int + 5, 5);
    lemma_fixed_leb_len(defined.len() as int, 5);
    lemma_body_in_bodies(defined, k);
    let head = before_code(module) + seq![10u8] + fixed_leb(bodies.len() as int + 5, 5)
        + fixed_leb(defined.len() as int, 5);
    assert(head.len() == code + 11);
    assert(bytes =~= head + bodies + data_section(module));
    let at = code + 11 + before + 5;
    assert(bytes.subrange(at, at + body.len()) =~= bodies.subrange(
        before + 5,
        before + 5 + body.len(),
    ));
    assert(bytes.subrange(at - 5, at) =~= bodies.subrange(before, before + 5));
    let function = (module.functions@.imports.len() + k) as nat;
    assert(layout.functions_mapping.value(function) == function_place(module, function));
}

/// The sections of bodies and of data are where the layout says: their contents start behind their
/// codes and their sizes, and the section of data is the last one.
pub proof fn lemma_sections_are_at_their_ranges(module: Module, layout: ModuleLayout)
    requires
        can_generate(module),
        is_layout_of(module, layout),
    ensures
        ({
            let bytes = module_bytes(module);
            let code = layout.code_section;
            let data = layout.data_section;
            &&& 6 <= code.start <= code.end == data.start - 6
            &&& data.start <= data.end == bytes.len()
            &&& bytes[code.start - 6] == 10
            &&& bytes.subrange(code.start - 5, code.start as int) == fixed_leb(
                code.end - code.start,
                5,
            )
            &&& bytes[data.start - 6] == 11
            &&& bytes.subrange(data.start - 5, data.start as int) == fixed_leb(
                data.end - data.start,
                5,
            )
        }),
{
    let bytes = module_bytes(module);
    let bodies = bodies_bytes(module.functions@.defined);
    let segments = module.extra.mem_layout.segments@;
    let encoded = segments_encoding(segments);
    let code = before_code(module).len() as int;
    let data = code + code_section(module).len();
    reveal(code_section);
    reveal(data_section);
    lemma_fixed_leb_len(bodies.len() as int + 5, 5);
    lemma_fixed_leb_len(module.functions@.defined.len() as int, 5);
    lemma_fixed_leb_len(encoded.len() as int + 5, 5);
    lemma_fixed_leb_len(segments.len() as int, 5);
    assert(code_section(module)[0] == 10);
    assert(bytes[code] == code_section(module)[0]);
    assert(bytes.subrange(code + 1, code + 6) =~= fixed_leb(bodies.len() as int + 5, 5));
    assert(data_section(module)[0] == 11);
    assert(bytes[data] == data_section(module)[0]);
    assert(bytes.subrange(data + 1, data + 6) =~= fixed_leb(encoded.len() as int + 5, 5));
}

/// The index of a function in its table is one at which a segment of the module puts it.
pub proof fn lemma_functions_are_at_their_indices(
    module: Module,
    layout: ModuleLayout,
    function: FunctionRef,
)
    requires
        can_generate(module),
        is_layout_of(module, layout),
    ensures
        ({
            let segments = module.extra.function_elements.segments@;
            match layout.functions_mapping.value(function.id() as nat).indirect_table_index {
                Some(index) => exists|s: int, k: int| #[trigger]
                    stands_at(segments, function, s, k, index.id() as int),
                None => forall|s: int, k: int, index: int| !#[trigger]
                    stands_at(segments, function, s, k, index),
            }
        }),
{
    let segments = module.extra.function_elements.segments@;
    let number = function.id() as nat;
    assert(layout.functions_mapping.value(number) == function_place(module, number));
    assert forall|s: int| 0 <= s < segments.len() implies element_start(
        (#[trigger] segments[s]).kind,
    ) + segments[s].parts@.len() <= u32::MAX by {
        assert(element_writable(segments[s]));
    }
    lemma_functions_stand_at_their_indices(segments, function);
    assert(slot_at(locations(segments), number) == layout.functions_mapping.value(
        number,
    ).indirect_table_index);
}

} // verus!
