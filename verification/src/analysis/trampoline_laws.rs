//! How calls reach functions of modules that are loaded later.
use crate::analysis::split_steps::{are_entries_filled, exports_for, is_entry_filled};
use crate::analysis::trampolines::{
    are_filled, indirect_table, is_filled, is_filled_module, lemma_import_number,
    lemma_trampoline_reaches_export, trampoline_bytes, Export, IndirectFnLayout, TrampolineCreated,
    TrampolinesState,
};
use crate::emit::plan::definition::AnyEntity;
use crate::emit::plan::output::segment_kinds;
use crate::emit::reading::{
    lemma_read_byte, lemma_read_number, lemma_read_signed, read_byte, read_number, read_signed,
};
use crate::emit::relocation::encode::{sleb, uleb};
use crate::index::{TempIndex, TempKind};
use crate::layouts::elements::ElementKind;
use crate::layouts::SegmentPlacement;
use crate::typed::body::EntityBody;
use crate::typed::builder::{first_active_kind, lemma_first_active_kind, ModuleBuilder};
use crate::typed::module::Module;
use crate::typed::snapshot::FlatEntityRef;
use vstd::prelude::*;

verus! {

/// Whether the bytes of a function are no locals, a constant, a call through a table of a function
/// of the first type, and the end.
pub open spec fn calls_entry(bytes: Seq<u8>, index: int, table: int) -> bool {
    &&& read_number(bytes) matches Some((locals, code))
    &&& locals == 0
    &&& read_byte(code) matches Some((constant, operand))
    &&& constant == 0x41
    &&& read_signed(operand) matches Some((value, call))
    &&& value == index
    &&& read_byte(call) matches Some((call_indirect, operands))
    &&& call_indirect == 0x11
    &&& read_number(operands) matches Some((ty, table_operand))
    &&& ty == 0
    &&& read_number(table_operand) matches Some((through, end))
    &&& through == table
    &&& end == seq![0x0bu8]
}

proof fn lemma_trampoline_bytes(index: int, table: nat)
    requires
        0 <= index <= i32::MAX,
    ensures
        calls_entry(trampoline_bytes(index, table as int), index, table as int),
{
    let bytes = trampoline_bytes(index, table as int);
    let end = seq![0x0bu8];
    let table_operand = uleb(table) + end;
    let operands = uleb(0) + table_operand;
    let call = seq![0x11u8] + operands;
    let operand = sleb(index) + call;
    let code = seq![0x41u8] + operand;
    assert(bytes =~= seq![0x00u8] + code);
    assert(uleb(0) =~= seq![0x00u8]);
    lemma_read_number(0, code);
    lemma_read_byte(0x41, operand);
    lemma_read_signed(index, call);
    lemma_read_byte(0x11, operands);
    lemma_read_number(0, table_operand);
    lemma_read_number(table, end);
}

/// Whether functions are to be filled each on its own.
pub open spec fn are_distinct(created: Seq<TrampolineCreated>) -> bool {
    forall|s: int, t: int|
        #![trigger created[s], created[t]]
        0 <= s < t < created.len() ==> created[s].defined_func.kind()
            != created[t].defined_func.kind()
}

/// Every function that stands for a split point calls the entry of that split point, through the
/// table of the functions that are called indirectly. All other functions stay as they are.
pub proof fn lemma_trampolines_call_their_entries(
    layout: IndirectFnLayout,
    created: Vec<TrampolineCreated>,
    before: Module,
    after: Module,
    t: int,
    n: int,
)
    requires
        is_filled_module(layout, TrampolinesState::Created { created }, before, after),
        are_distinct(created@),
        0 <= t < created@.len(),
        0 <= n < layout.dyn_fns@.len(),
        layout.dyn_fns@[n].import_func == created@[t].src_ref,
        forall|j: int|
            0 <= j < n ==> (#[trigger] layout.dyn_fns@[j]).import_func != created@[t].src_ref,
        layout.start_dyn + n <= i32::MAX,
        before.extra.indirect_segment() is Some,
    ensures
        after.functions@.imports == before.functions@.imports,
        after.functions@.defined.len() == before.functions@.defined.len(),
        ({
            let kinds = before.extra.function_elements.segments@;
            &&& created@[t].defined_func.kind() matches TempKind::Defined(i)
            &&& i < before.functions@.defined.len()
            &&& after.functions@.defined[i as int].body matches EntityBody::New {
                new_relocs,
                new_bytes,
            }
            &&& new_relocs@.len() == 0
            &&& exists|s: int|
                {
                    &&& 0 <= s < kinds.len()
                    &&& (#[trigger] kinds[s]).kind matches ElementKind::Active { table_ref, .. }
                    &&& forall|r: int| 0 <= r < s ==> (#[trigger] kinds[r]).kind !is Active
                    &&& calls_entry(new_bytes@, layout.start_dyn + n, table_ref.id() as int)
                }
        }),
        forall|i: int|
            0 <= i < before.functions@.defined.len() && (forall|u: int|
                0 <= u < created@.len() ==> (#[trigger] created@[u]).defined_func.kind()
                    != TempKind::Defined(i as u32)) && i <= u32::MAX
                ==> #[trigger] after.functions@.defined[i] == before.functions@.defined[i],
{
    let table = indirect_table(before);
    let count = created@.len() as int;
    let states = choose|states: Seq<Module>|
        {
            &&& #[trigger] are_filled(layout, created@, table, states, count)
            &&& states[0] == before
            &&& states.last() == after
        };
    lemma_states(layout, created@, table, states, count, t);
    lemma_import_number(layout.dyn_fns@, created@[t].src_ref);
    assert(layout.import_index(created@[t].src_ref) == Some(layout.start_dyn + n));
    let segments = before.extra.function_elements.segments@;
    lemma_first_active_kind(segment_kinds(segments));
    let s = before.extra.indirect_segment()->0;
    assert forall|r: int| 0 <= r < s implies (#[trigger] segments[r]).kind !is Active by {
        assert(segment_kinds(segments)[r] == segments[r].kind);
    }
    assert(segment_kinds(segments)[s] == segments[s].kind);
    lemma_trampoline_bytes(layout.start_dyn + n, table as nat);
    assert(segments[s].kind is Active);
}

proof fn lemma_states(
    layout: IndirectFnLayout,
    created: Seq<TrampolineCreated>,
    table: int,
    states: Seq<Module>,
    count: int,
    t: int,
)
    requires
        are_filled(layout, created, table, states, count),
        0 <= count <= created.len(),
        are_distinct(created),
        0 <= t < created.len(),
    ensures
        states[count].functions@.imports == states[0].functions@.imports,
        states[count].functions@.defined.len() == states[0].functions@.defined.len(),
        t < count ==> {
            &&& created[t].defined_func.kind() matches TempKind::Defined(i)
            &&& i < states[0].functions@.defined.len()
            &&& states[count].functions@.defined[i as int].body matches EntityBody::New {
                new_relocs,
                new_bytes,
            }
            &&& new_relocs@.len() == 0
            &&& layout.import_index(created[t].src_ref) is Some
            &&& new_bytes@ == trampoline_bytes(
                layout.import_index(created[t].src_ref)->0,
                table,
            )
        },
        forall|i: int|
            0 <= i < states[0].functions@.defined.len() && (forall|u: int|
                0 <= u < created.len() ==> (#[trigger] created[u]).defined_func.kind()
                    != TempKind::Defined(i as u32)) && i <= u32::MAX
                ==> #[trigger] states[count].functions@.defined[i]
                == states[0].functions@.defined[i],
    decreases count,
{
    if count > 0 {
        let last = count - 1;
        let shorter = states.take(count);
        assert(are_filled(layout, created, table, shorter, last)) by {
            assert forall|u: int| 0 <= u < last implies is_filled(
                layout,
                #[trigger] created[u],
                table,
                shorter[u],
                shorter[u + 1],
            ) by {}
        }
        lemma_states(layout, created, table, shorter, last, t);
        assert(is_filled(layout, created[last], table, states[last], states[last + 1]));
        if t < last {
            assert(created[t].defined_func.kind() != created[last].defined_func.kind());
        }
    }
}

/// The function that a module exports for a split point fills the entry that the import of the
/// split point calls, in the table of the functions that are called indirectly.
pub proof fn lemma_entries_are_filled_where_they_are_called(
    layout: IndirectFnLayout,
    n: int,
    sp_exports: Seq<FlatEntityRef>,
    entity: AnyEntity,
    before: ModuleBuilder,
    exports: Seq<Export>,
    after: ModuleBuilder,
    k: int,
)
    requires
        0 <= n < layout.dyn_fns@.len(),
        forall|j: int|
            0 <= j < layout.dyn_fns@.len() && j != n ==> (
            #[trigger] layout.dyn_fns@[j]).import_func != layout.dyn_fns@[n].import_func
                && layout.dyn_fns@[j].export_func != layout.dyn_fns@[n].export_func,
        layout.fits(),
        sp_exports.contains(layout.dyn_fns@[n].export_func),
        entity is Function,
        are_entries_filled(before, exports, after),
        0 <= k < exports.len(),
        seq![exports[k]] == exports_for(
            layout,
            sp_exports,
            layout.dyn_fns@[n].export_func,
            entity,
        ),
    ensures
        ({
            let old_elements = before.extra.function_elements;
            let elements = after.extra.function_elements;
            let item = elements.items@[old_elements.items@.len() + k];
            let segment = elements.segments@[item.segment_id.id() as int];
            &&& item.item == entity->Function_new_ref
            &&& elements.virtual_spaces@[segment.vs_id.id() as int] matches ElementKind::Active {
                table_ref,
                location: SegmentPlacement::ConstantOffset(offset),
            }
            &&& layout.import_index(layout.dyn_fns@[n].import_func) == Some(offset as int)
            &&& exists|v: int|
                {
                    &&& 0 <= v < old_elements.virtual_spaces@.len()
                    &&& (#[trigger] old_elements.virtual_spaces@[v]) matches ElementKind::Active {
                        table_ref: first,
                        ..
                    }
                    &&& first == table_ref
                    &&& forall|r: int|
                        0 <= r < v ==> (#[trigger] old_elements.virtual_spaces@[r]) !is Active
                }
        }),
{
    lemma_trampoline_reaches_export(layout, n);
    lemma_first_active_kind(before.extra.function_elements.virtual_spaces@);
    assert(seq![exports[k]][0] == exports[k]);
    let spaces = before.extra.function_elements.virtual_spaces@;
    let v = first_active_kind(spaces)->0;
    assert(is_entry_filled(before, exports[k], spaces[v]->Active_table_ref, k, after));
    assert(spaces[v] is Active);
}

} // verus!
