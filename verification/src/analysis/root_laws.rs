//! What the main module of a split program has, whatever else it needs.
use crate::analysis::modules::{content_of, NamedModule, SharedEntry};
use crate::analysis::roots::{
    are_specials, descriptors, has_special_entities, importing, is_cast_name, is_closure, is_entry,
    is_main_root, is_placeholder, is_special, part_importing, sharing, DepGraph,
};
use crate::analysis::split_point::SplitPoint;
use crate::index::TempIndex;
use crate::typed::exports::has_name;
use crate::typed::lookup::{global_number, lemma_global_number, own_name};
use crate::typed::module::Module;
use crate::typed::snapshot::{EntitiesSnapshot, FlatEntityRef};
use crate::typed::{EntityKind, FunctionRef, TableRef};
use vstd::prelude::*;

verus! {

/// The start function, all imported functions and all exported entities are in the main module,
/// unless they are functions of a split point.
pub proof fn lemma_entries_are_main_roots(
    module: Module,
    snapshot: EntitiesSnapshot,
    points: Seq<SplitPoint>,
    others: Set<FlatEntityRef>,
    kind: EntityKind,
    entity: FlatEntityRef,
)
    requires
        entity.id() == snapshot.flat(kind),
        forall|k: int|
            0 <= k < points.len() ==> (#[trigger] points[k]).export_func != entity
                && points[k].import_func != entity,
        match kind {
            EntityKind::Function(f) => module.extra.start_function == Some(f) || f.id()
                < module.functions@.imports.len() || has_name(module.functions@, f.id() as int),
            EntityKind::Global(g) => has_name(module.globals@, g.id() as int),
            EntityKind::Table(t) => has_name(module.tables@, t.id() as int),
            EntityKind::Memory(m) => has_name(module.memories@, m.id() as int),
            EntityKind::Tag(t) => has_name(module.tags@, t.id() as int),
            _ => false,
        },
    ensures
        is_main_root(module, snapshot, points, others, entity),
{
    assert(is_entry(module, kind));
}

/// Functions that only describe others are in the main module.
pub proof fn lemma_descriptors_are_main_roots(
    module: Module,
    snapshot: EntitiesSnapshot,
    points: Seq<SplitPoint>,
    others: Set<FlatEntityRef>,
    entity: FlatEntityRef,
)
    requires
        others.contains(entity),
    ensures
        is_main_root(module, snapshot, points, others, entity),
{
}

/// Nothing else is in the main module of itself: data, types, functions of split points, and
/// entities that are neither imported nor exported are not.
pub proof fn lemma_main_roots_are_entries(
    module: Module,
    snapshot: EntitiesSnapshot,
    points: Seq<SplitPoint>,
    others: Set<FlatEntityRef>,
    entity: FlatEntityRef,
)
    requires
        is_main_root(module, snapshot, points, others, entity),
        !others.contains(entity),
    ensures
        forall|k: int|
            0 <= k < points.len() ==> (#[trigger] points[k]).export_func != entity
                && points[k].import_func != entity,
        exists|kind: EntityKind|
            #[trigger] snapshot.flat(kind) == entity.id() && match kind {
                EntityKind::Function(f) => module.extra.start_function == Some(f) || f.id()
                    < module.functions@.imports.len() || has_name(
                    module.functions@,
                    f.id() as int,
                ),
                EntityKind::Global(g) => has_name(module.globals@, g.id() as int),
                EntityKind::Table(t) => has_name(module.tables@, t.id() as int),
                EntityKind::Memory(m) => has_name(module.memories@, m.id() as int),
                EntityKind::Tag(t) => has_name(module.tags@, t.id() as int),
                _ => false,
            },
{
    let kind = choose|kind: EntityKind| #[trigger]
        is_entry(module, kind) && snapshot.flat(kind) == entity.id();
    assert(snapshot.flat(kind) == entity.id());
}

/// A function that is to be replaced is a descriptor. So are the users of one that describes a cast
/// or a closure.
pub proof fn lemma_descriptors(
    module: Module,
    snapshot: EntitiesSnapshot,
    graph: DepGraph,
    function: FunctionRef,
    entity: FlatEntityRef,
)
    requires
        function.id() < module.functions@.imports.len(),
        module.functions@.imports[function.id() as int].module@ == "__wbindgen_placeholder__"@,
        entity.id() == snapshot.flat(EntityKind::Function(function)),
    ensures
        descriptors(module, snapshot, graph)(entity),
        ({
            let name = module.functions@.imports[function.id() as int].name@;
            ||| name == "__wbindgen_describe_closure"@
            ||| name == "__wbindgen_describe_cast"@
            ||| name == "__wbindgen_describe"@
        }) ==> forall|user: FlatEntityRef| #[trigger]
            graph.parents_of(entity).contains(user) ==> descriptors(module, snapshot, graph)(user),
{
    assert(is_placeholder(module, snapshot, entity));
    if is_cast_name(module.functions@.imports[function.id() as int].name@) {
        assert(is_closure(module, snapshot, entity));
    }
}

proof fn lemma_stack_pointer(module: Module, g: int, from: int)
    requires
        0 <= from <= g < module.globals@.len(),
        own_name(module.globals@.entity(g)) == Some("__stack_pointer"@),
        forall|j: int|
            from <= j < g ==> own_name(#[trigger] module.globals@.entity(j)) != Some(
                "__stack_pointer"@,
            ),
    ensures
        global_number(module.globals@, "__stack_pointer"@, from) == Some(g),
    decreases g - from,
{
    if from < g {
        lemma_stack_pointer(module, g, from + 1);
    }
}

/// Every memory, the table and the stack pointer are defined and exported by the main module, and
/// imported by all other modules.
pub proof fn lemma_special_entities_are_shared(
    module: Module,
    snapshot: EntitiesSnapshot,
    table: TableRef,
    before: (NamedModule, Seq<NamedModule>, Seq<SharedEntry>),
    after: (NamedModule, Seq<NamedModule>, Seq<SharedEntry>),
    kind: EntityKind,
    entity: FlatEntityRef,
)
    requires
        has_special_entities(module, snapshot, table, before, after),
        entity.id() == snapshot.flat(kind),
        match kind {
            EntityKind::Memory(m) => m.id() < module.memories@.len(),
            EntityKind::Table(t) => t == table,
            EntityKind::Global(g) => {
                &&& g.id() < module.globals@.len()
                &&& own_name(module.globals@.entity(g.id() as int)) == Some("__stack_pointer"@)
                &&& forall|j: int|
                    0 <= j < g.id() ==> own_name(#[trigger] module.globals@.entity(j)) != Some(
                        "__stack_pointer"@,
                    )
            },
            _ => false,
        },
    ensures
        after.0.1.defined_symbols@.contains(entity),
        after.0.1.exports@.contains(entity),
        after.1.len() == before.1.len(),
        after.2.len() == before.2.len(),
        forall|i: int|
            0 <= i < after.1.len() ==> (#[trigger] after.1[i]).1.imports@.contains(entity),
        forall|i: int| 0 <= i < after.2.len() ==> (#[trigger] after.2[i]).imports@.contains(entity),
{
    if let EntityKind::Global(g) = kind {
        lemma_stack_pointer(module, g.id() as int, 0);
    }
    assert(is_special(module, snapshot, table, entity));
    let specials = lemma_chosen_specials(module, snapshot, table, before, after);
    assert(content_of(after.0).defined.contains(entity));
    assert(content_of(after.0).exports.contains(entity));
    assert forall|i: int| 0 <= i < after.1.len() implies (
    #[trigger] after.1[i]).1.imports@.contains(entity) by {
        assert(content_of(after.1[i]).imports.contains(entity));
    }
}

proof fn lemma_chosen_specials(
    module: Module,
    snapshot: EntitiesSnapshot,
    table: TableRef,
    before: (NamedModule, Seq<NamedModule>, Seq<SharedEntry>),
    after: (NamedModule, Seq<NamedModule>, Seq<SharedEntry>),
) -> (specials: Set<FlatEntityRef>)
    requires
        has_special_entities(module, snapshot, table, before, after),
    ensures
        forall|e: FlatEntityRef| #[trigger]
            specials.contains(e) <==> is_special(module, snapshot, table, e),
        after.1.len() == before.1.len(),
        after.2.len() == before.2.len(),
        content_of(after.0).defined == content_of(before.0).defined.union(specials),
        content_of(after.0).exports == content_of(before.0).exports.union(specials),
        content_of(after.0).imports == content_of(before.0).imports,
        forall|i: int|
            0 <= i < after.1.len() ==> {
                let now = content_of(#[trigger] after.1[i]);
                let earlier = content_of(before.1[i]);
                &&& now.imports == earlier.imports.union(specials)
                &&& now.defined == earlier.defined
                &&& now.exports == earlier.exports
            },
        forall|i: int|
            0 <= i < after.2.len() ==> {
                &&& (#[trigger] after.2[i]).imports@ == before.2[i].imports@.union(specials)
                &&& after.2[i].exports == before.2[i].exports
            },
{
    choose|specials: Set<FlatEntityRef>|
        {
            &&& #[trigger] are_specials(module, snapshot, table, specials)
            &&& content_of(after.0) == sharing(
                content_of(before.0),
                specials,
            )
            &&& after.1.len() == before.1.len()
            &&& forall|i: int|
                0 <= i < after.1.len() ==> content_of(#[trigger] after.1[i])
                    == importing(content_of(before.1[i]), specials)
            &&& after.2.len() == before.2.len()
            &&& forall|i: int|
                0 <= i < after.2.len() ==> part_importing(
                    before.2[i],
                    #[trigger] after.2[i],
                    specials,
                )
        }
}

/// Functions, tags, data and types do not become shared by all modules: they stay where they were.
pub proof fn lemma_other_entities_stay(
    module: Module,
    snapshot: EntitiesSnapshot,
    table: TableRef,
    before: (NamedModule, Seq<NamedModule>, Seq<SharedEntry>),
    after: (NamedModule, Seq<NamedModule>, Seq<SharedEntry>),
    kind: EntityKind,
    entity: FlatEntityRef,
)
    requires
        has_special_entities(module, snapshot, table, before, after),
        snapshot.functions == module.functions@.len(),
        snapshot.globals == module.globals@.len(),
        snapshot.tables == module.tables@.len(),
        snapshot.memories == module.memories@.len(),
        snapshot.has(kind),
        snapshot.has(EntityKind::Table(table)),
        entity.id() == snapshot.flat(kind),
        match kind {
            EntityKind::Memory(_) => false,
            EntityKind::Table(t) => t != table,
            EntityKind::Global(g) => own_name(module.globals@.entity(g.id() as int)) != Some(
                "__stack_pointer"@,
            ),
            _ => true,
        },
    ensures
        after.0.1.defined_symbols@.contains(entity) == before.0.1.defined_symbols@.contains(entity),
        after.0.1.exports@.contains(entity) == before.0.1.exports@.contains(entity),
        forall|i: int|
            0 <= i < after.1.len() ==> (#[trigger] after.1[i]).1.imports@.contains(entity)
                == before.1[i].1.imports@.contains(entity),
        forall|i: int|
            0 <= i < after.2.len() ==> (#[trigger] after.2[i]).imports@.contains(entity)
                == before.2[i].imports@.contains(entity),
{
    if global_number(module.globals@, "__stack_pointer"@, 0) is Some {
        lemma_global_number(module.globals@, "__stack_pointer"@, 0);
    }
    assert(!is_special(module, snapshot, table, entity));
    let specials = lemma_chosen_specials(module, snapshot, table, before, after);
    assert(content_of(after.0).defined.contains(entity) == content_of(before.0).defined.contains(
        entity,
    ));
    assert(content_of(after.0).exports.contains(entity) == content_of(before.0).exports.contains(
        entity,
    ));
    assert forall|i: int| 0 <= i < after.1.len() implies (
    #[trigger] after.1[i]).1.imports@.contains(entity) == before.1[i].1.imports@.contains(
        entity,
    ) by {
        assert(content_of(after.1[i]).imports.contains(entity) == content_of(
            before.1[i],
        ).imports.contains(entity));
    }
}

} // verus!
