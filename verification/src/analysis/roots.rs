//! Entities that every program needs in its main module.
use crate::analysis::entity_set::EntitySet;
use crate::analysis::modules::{content_of, entries_valid, ModuleContent, NamedModule, SharedEntry};
use crate::analysis::compute::modules_valid;
use crate::analysis::split_point::{SplitName, SplitPoint};
use crate::index::TempIndex;
use crate::typed::exports::{is_exported_entity, lemma_name_bound};
use crate::typed::lookup::{global_number, lemma_global_number};
use crate::typed::module::Module;
use crate::typed::snapshot::{EntitiesSnapshot, FlatEntityRef};
use crate::typed::{EntityKind, FunctionRef, GlobalRef, MemoryRef, TableRef};
use vstd::prelude::*;

verus! {

/// A node of a [`DepGraph`].
#[derive(Debug)]
pub struct DepNode {
    pub node: FlatEntityRef,
    /// The entities that use the node.
    pub parents: Vec<FlatEntityRef>,
    /// The entities that the node uses.
    pub children: Vec<FlatEntityRef>,
}

/// Which entities use which.
#[derive(Debug)]
pub struct DepGraph {
    pub nodes: Vec<DepNode>,
}

/// The number of the first node of an entity.
pub open spec fn node_number(nodes: Seq<DepNode>, entity: FlatEntityRef, from: int) -> Option<int>
    decreases nodes.len() - from,
{
    if from >= nodes.len() {
        None
    } else if nodes[from].node == entity {
        Some(from)
    } else {
        node_number(nodes, entity, from + 1)
    }
}

impl DepGraph {
    /// The entities that use an entity.
    pub open spec fn parents_of(&self, entity: FlatEntityRef) -> Seq<FlatEntityRef> {
        match node_number(self.nodes@, entity, 0) {
            Some(i) => self.nodes@[i].parents@,
            None => Seq::empty(),
        }
    }

    fn find(&self, entity: FlatEntityRef) -> (r: Option<usize>)
        ensures
            match r {
                Some(i) => i < self.nodes@.len() && node_number(self.nodes@, entity, 0) == Some(
                    i as int,
                ),
                None => node_number(self.nodes@, entity, 0) is None,
            },
    {
        let mut i: usize = 0;
        while i < self.nodes.len()
            invariant
                i <= self.nodes@.len(),
                node_number(self.nodes@, entity, 0) == node_number(self.nodes@, entity, i as int),
            decreases self.nodes@.len() - i,
        {
            if self.nodes[i].node == entity {
                return Some(i);
            }
            i = i + 1;
        }
        None
    }

    /// The entities that use an entity.
    pub fn get_parents(&self, entity: FlatEntityRef) -> (r: Option<&Vec<FlatEntityRef>>)
        ensures
            match r {
                Some(parents) => parents@ == self.parents_of(entity),
                None => node_number(self.nodes@, entity, 0) is None,
            },
    {
        match self.find(entity) {
            Some(i) => Some(&self.nodes[i].parents),
            None => None,
        }
    }

    /// The entities that an entity uses.
    pub fn get_children(&self, entity: FlatEntityRef) -> (r: Option<&Vec<FlatEntityRef>>)
        ensures
            match (r, node_number(self.nodes@, entity, 0)) {
                (Some(children), Some(i)) => children@ == self.nodes@[i].children@,
                (None, None) => true,
                _ => false,
            },
    {
        match self.find(entity) {
            Some(i) => Some(&self.nodes[i].children),
            None => None,
        }
    }
}

/// Whether all entities of a module have a number.
pub open spec fn covers(snapshot: EntitiesSnapshot, module: Module) -> bool {
    &&& snapshot.fits()
    &&& snapshot.functions == module.functions@.len()
    &&& snapshot.globals == module.globals@.len()
    &&& snapshot.tables == module.tables@.len()
    &&& snapshot.memories == module.memories@.len()
    &&& snapshot.tags == module.tags@.len()
}

/// Whether a function describes a cast or a closure.
pub open spec fn is_cast_name(name: Seq<char>) -> bool {
    ||| name == "__wbindgen_describe_closure"@
    ||| name == "__wbindgen_describe_cast"@
    ||| name == "__wbindgen_describe"@
}

fn is_wasm_bindgen_cast(name: &String) -> (r: bool)
    ensures
        r == is_cast_name(name@),
{
    *name == "__wbindgen_describe_closure".to_owned() || *name
        == "__wbindgen_describe_cast".to_owned() || *name == "__wbindgen_describe".to_owned()
}

/// Whether an entity is a function of the module whose functions are to be replaced.
pub open spec fn is_placeholder(
    module: Module,
    snapshot: EntitiesSnapshot,
    entity: FlatEntityRef,
) -> bool {
    let i = entity.id() - snapshot.base(EntityKind::Function(FunctionRef { id: 0 }));
    0 <= i < module.functions@.imports.len() && module.functions@.imports[i].module@
        == "__wbindgen_placeholder__"@
}

/// Whether an entity is a function that is to be replaced and describes a cast.
pub open spec fn is_closure(
    module: Module,
    snapshot: EntitiesSnapshot,
    entity: FlatEntityRef,
) -> bool {
    let i = entity.id() - snapshot.base(EntityKind::Function(FunctionRef { id: 0 }));
    is_placeholder(module, snapshot, entity) && is_cast_name(module.functions@.imports[i].name@)
}

/// The functions that are only there to describe others: placeholders, and the users of those that
/// describe casts.
pub open spec fn descriptors(
    module: Module,
    snapshot: EntitiesSnapshot,
    graph: DepGraph,
) -> spec_fn(FlatEntityRef) -> bool {
    |entity: FlatEntityRef|
        is_placeholder(module, snapshot, entity) || uses_closure(module, snapshot, graph, entity)
}

/// Whether an entity uses a function that describes a cast.
pub open spec fn uses_closure(
    module: Module,
    snapshot: EntitiesSnapshot,
    graph: DepGraph,
    entity: FlatEntityRef,
) -> bool {
    exists|closure: FlatEntityRef| #[trigger]
        is_closure(module, snapshot, closure) && graph.parents_of(closure).contains(entity)
}

/// The functions that are only there to describe others.
pub fn wbg_closures(module: &Module, snapshot: &EntitiesSnapshot, graph: &DepGraph) -> (r:
    EntitySet)
    requires
        covers(*snapshot, *module),
    ensures
        r.wf(),
        forall|entity: FlatEntityRef| #[trigger]
            r@.contains(entity) <==> descriptors(*module, *snapshot, *graph)(entity),
{
    let imports = module.functions.imports();
    let mut closures: Vec<FlatEntityRef> = Vec::new();
    let mut all = EntitySet::new();
    let mut i: usize = 0;
    while i < imports.len()
        invariant
            i <= imports@.len() == module.functions@.imports.len(),
            imports@ == module.functions@.imports,
            covers(*snapshot, *module),
            all.wf(),
            forall|e: FlatEntityRef| #[trigger]
                all@.contains(e) <==> e.id() < i && is_placeholder(*module, *snapshot, e),
            forall|e: FlatEntityRef| #[trigger]
                closures@.contains(e) <==> e.id() < i && is_closure(*module, *snapshot, e),
        decreases imports@.len() - i,
    {
        let ghost before = closures@;
        if imports[i].module == "__wbindgen_placeholder__".to_owned() {
            let id = snapshot.pack_ref(EntityKind::Function(FunctionRef::from_raw(i as u32)));
            let _ = all.insert(id);
            if is_wasm_bindgen_cast(&imports[i].name) {
                closures.push(id);
                assert(closures@.last() == id);
                assert forall|e: FlatEntityRef| #[trigger]
                    closures@.contains(e) <==> before.contains(e) || e == id by {
                    if before.contains(e) {
                        let k = choose|k: int| 0 <= k < before.len() && before[k] == e;
                        assert(closures@[k] == e);
                    }
                }
            }
        }
        proof {
            assert forall|e: FlatEntityRef| #[trigger]
                closures@.contains(e) <==> e.id() < i + 1 && is_closure(
                    *module,
                    *snapshot,
                    e,
                ) by {
                assert(before.contains(e) <==> e.id() < i && is_closure(*module, *snapshot, e));
            }
        }
        i = i + 1;
    }
    let ghost placeholders = all@;
    let mut k: usize = 0;
    while k < closures.len()
        invariant
            k <= closures@.len(),
            all.wf(),
            forall|e: FlatEntityRef| #[trigger]
                all@.contains(e) <==> placeholders.contains(e) || exists|j: int|
                    0 <= j < k && graph.parents_of(#[trigger] closures@[j]).contains(e),
        decreases closures@.len() - k,
    {
        let ghost earlier = all@;
        let ghost parents = graph.parents_of(closures@[k as int]);
        if let Some(list) = graph.get_parents(closures[k]) {
            let mut p: usize = 0;
            while p < list.len()
                invariant
                    p <= list@.len(),
                    list@ == parents,
                    all.wf(),
                    forall|e: FlatEntityRef| #[trigger]
                        all@.contains(e) <==> earlier.contains(e) || list@.take(
                            p as int,
                        ).contains(e),
                decreases list@.len() - p,
            {
                let _ = all.insert(list[p]);
                proof {
                    let item = list@[p as int];
                    assert(list@.take(p + 1) =~= list@.take(p as int).push(item));
                    assert forall|e: FlatEntityRef| #[trigger]
                        list@.take(p + 1).contains(e) <==> list@.take(p as int).contains(e) || e
                            == item by {
                        if list@.take(p as int).contains(e) {
                            let q = choose|q: int|
                                0 <= q < p && list@.take(p as int)[q] == e;
                            assert(list@.take(p + 1)[q] == e);
                        }
                        if e == item {
                            assert(list@.take(p + 1)[p as int] == e);
                        }
                    }
                }
                p = p + 1;
            }
            assert(list@.take(p as int) =~= list@);
        }
        proof {
            assert forall|e: FlatEntityRef| #[trigger]
                all@.contains(e) <==> placeholders.contains(e) || exists|j: int|
                    0 <= j < k + 1 && graph.parents_of(#[trigger] closures@[j]).contains(e) by {
                assert(earlier.contains(e) <==> placeholders.contains(e) || exists|j: int|
                    0 <= j < k && graph.parents_of(#[trigger] closures@[j]).contains(e));
                if parents.contains(e) {
                    assert(graph.parents_of(closures@[k as int]).contains(e));
                }
            }
        }
        k = k + 1;
    }
    proof {
        assert forall|e: FlatEntityRef| #[trigger] all@.contains(e) <==> descriptors(
            *module,
            *snapshot,
            *graph,
        )(e) by {
            assert(placeholders.contains(e) <==> is_placeholder(*module, *snapshot, e));
            if exists|j: int|
                0 <= j < closures@.len() && graph.parents_of(#[trigger] closures@[j]).contains(e) {
                let j = choose|j: int|
                    0 <= j < closures@.len() && graph.parents_of(
                        #[trigger] closures@[j],
                    ).contains(e);
                assert(closures@.contains(closures@[j]));
                assert(is_closure(*module, *snapshot, closures@[j]));
            }
            if uses_closure(*module, *snapshot, *graph, e) {
                let c = choose|c: FlatEntityRef| #[trigger]
                    is_closure(*module, *snapshot, c) && graph.parents_of(c).contains(e);
                assert(closures@.contains(c));
                let j = choose|j: int| 0 <= j < closures@.len() && closures@[j] == c;
                assert(graph.parents_of(closures@[j]).contains(e));
            }
        }
    }
    all
}

/// Whether an entity is there for others: the start function, an export or an imported function.
pub open spec fn is_entry(module: Module, entity: EntityKind) -> bool {
    ||| is_exported_entity(module, entity)
    ||| (entity matches EntityKind::Function(f) && (module.extra.start_function == Some(f) || f.id()
        < module.functions@.imports.len()))
}

/// Whether a number is that of an entity that is there for others.
pub open spec fn is_entry_ref(
    module: Module,
    snapshot: EntitiesSnapshot,
    entity: FlatEntityRef,
) -> bool {
    exists|kind: EntityKind| #[trigger]
        is_entry(module, kind) && snapshot.flat(kind) == entity.id()
}

/// Whether an entity is one of the two functions of a split point.
pub open spec fn is_split_function(points: Seq<SplitPoint>, entity: FlatEntityRef) -> bool {
    exists|i: int|
        0 <= i < points.len() && ((#[trigger] points[i]).export_func == entity
            || points[i].import_func == entity)
}

/// Whether the main module needs an entity, whatever its other entities need: entities that are
/// there for others except the functions of split points, and descriptors.
pub open spec fn is_main_root(
    module: Module,
    snapshot: EntitiesSnapshot,
    points: Seq<SplitPoint>,
    descriptors: Set<FlatEntityRef>,
    entity: FlatEntityRef,
) -> bool {
    ||| is_entry_ref(module, snapshot, entity) && !is_split_function(points, entity)
    ||| descriptors.contains(entity)
}

proof fn lemma_exported_exists(module: Module, snapshot: EntitiesSnapshot, kind: EntityKind)
    requires
        covers(snapshot, module),
        is_exported_entity(module, kind),
    ensures
        snapshot.has(kind),
{
    match kind {
        EntityKind::Function(f) => {
            lemma_name_bound(module.functions@, f.id() as int);
        },
        EntityKind::Global(f) => {
            lemma_name_bound(module.globals@, f.id() as int);
        },
        EntityKind::Table(f) => {
            lemma_name_bound(module.tables@, f.id() as int);
        },
        EntityKind::Memory(f) => {
            lemma_name_bound(module.memories@, f.id() as int);
        },
        EntityKind::Tag(f) => {
            lemma_name_bound(module.tags@, f.id() as int);
        },
        _ => {},
    }
}

/// The entities that the main module needs, whatever its other entities need.
pub fn main_roots(
    info: &Module,
    snapshot: &EntitiesSnapshot,
    split_points: &[SplitPoint],
    wbg_descriptors: &EntitySet,
) -> (r: EntitySet)
    requires
        covers(*snapshot, *info),
        wbg_descriptors.wf(),
        info.extra.start_function matches Some(f) ==> f.id() < info.functions@.len(),
    ensures
        r.wf(),
        forall|entity: FlatEntityRef| #[trigger]
            r@.contains(entity) <==> is_main_root(
                *info,
                *snapshot,
                split_points@,
                wbg_descriptors@,
                entity,
            ),
{
    let mut entries: Vec<EntityKind> = info.entities_exports();
    let ghost exported = entries@;
    if let Some(start) = info.extra.start_function {
        entries.push(EntityKind::Function(start));
    }
    let ghost with_start = entries@;
    let imported: usize = info.functions.imports().len();
    let mut i: usize = 0;
    while i < imported
        invariant
            i <= imported == info.functions@.imports.len(),
            covers(*snapshot, *info),
            entries@.len() == with_start.len() + i,
            forall|j: int| 0 <= j < with_start.len() ==> #[trigger] entries@[j] == with_start[j],
            forall|j: int|
                0 <= j < i ==> #[trigger] entries@[with_start.len() + j] == EntityKind::Function(
                    FunctionRef { id: j as u32 },
                ),
        decreases imported - i,
    {
        entries.push(EntityKind::Function(FunctionRef::from_raw(i as u32)));
        i = i + 1;
    }
    proof {
        assert forall|kind: EntityKind| #[trigger]
            entries@.contains(kind) <==> is_entry(*info, kind) by {
            let n = with_start.len() as int;
            assert(exported.contains(kind) <==> is_exported_entity(*info, kind));
            if entries@.contains(kind) {
                let k = choose|k: int| 0 <= k < entries@.len() && entries@[k] == kind;
                if k < exported.len() {
                    assert(with_start[k] == exported[k]);
                    assert(exported[k] == kind);
                } else if k >= n {
                    assert(entries@[n + (k - n)] == kind);
                }
            }
            if exported.contains(kind) {
                let k = choose|k: int| 0 <= k < exported.len() && exported[k] == kind;
                assert(with_start[k] == exported[k]);
                assert(entries@[k] == with_start[k]);
            }
            if let EntityKind::Function(f) = kind {
                if info.extra.start_function == Some(f) {
                    assert(with_start[exported.len() as int] == kind);
                    assert(entries@[exported.len() as int] == kind);
                }
                if f.id() < imported {
                    assert(entries@[n + f.id()] == kind);
                }
            }
        }
    }
    let mut roots = EntitySet::new();
    let mut k: usize = 0;
    while k < entries.len()
        invariant
            k <= entries@.len(),
            covers(*snapshot, *info),
            info.extra.start_function matches Some(f) ==> f.id() < info.functions@.len(),
            forall|kind: EntityKind| #[trigger]
                entries@.contains(kind) <==> is_entry(*info, kind),
            roots.wf(),
            forall|e: FlatEntityRef| #[trigger]
                roots@.contains(e) <==> exists|j: int|
                    0 <= j < k && snapshot.flat(#[trigger] entries@[j]) == e.id(),
        decreases entries@.len() - k,
    {
        let ghost before = roots@;
        proof {
            let kind = entries@[k as int];
            assert(entries@.contains(kind));
            assert(is_entry(*info, kind));
            if is_exported_entity(*info, kind) {
                lemma_exported_exists(*info, *snapshot, kind);
            }
        }
        let flat = snapshot.pack_ref(entries[k]);
        let _ = roots.insert(flat);
        proof {
            assert forall|e: FlatEntityRef| #[trigger]
                roots@.contains(e) <==> exists|j: int|
                    0 <= j < k + 1 && snapshot.flat(#[trigger] entries@[j]) == e.id() by {
                assert(before.contains(e) <==> exists|j: int|
                    0 <= j < k && snapshot.flat(#[trigger] entries@[j]) == e.id());
                if e == flat {
                    assert(snapshot.flat(entries@[k as int]) == e.id());
                }
            }
        }
        k = k + 1;
    }
    let ghost all_entries = roots@;
    proof {
        assert forall|e: FlatEntityRef| #[trigger]
            all_entries.contains(e) <==> is_entry_ref(*info, *snapshot, e) by {
            if all_entries.contains(e) {
                let j = choose|j: int|
                    0 <= j < entries@.len() && snapshot.flat(#[trigger] entries@[j]) == e.id();
                assert(entries@.contains(entries@[j]));
                assert(is_entry(*info, entries@[j]));
            }
            if is_entry_ref(*info, *snapshot, e) {
                let kind = choose|kind: EntityKind| #[trigger]
                    is_entry(*info, kind) && snapshot.flat(kind) == e.id();
                assert(entries@.contains(kind));
                let j = choose|j: int| 0 <= j < entries@.len() && entries@[j] == kind;
                assert(snapshot.flat(entries@[j]) == e.id());
            }
        }
    }
    let mut p: usize = 0;
    while p < split_points.len()
        invariant
            p <= split_points@.len(),
            roots.wf(),
            forall|e: FlatEntityRef| #[trigger]
                roots@.contains(e) <==> all_entries.contains(e) && !is_split_function(
                    split_points@.take(p as int),
                    e,
                ),
        decreases split_points@.len() - p,
    {
        let ghost before = roots@;
        let _ = roots.remove(split_points[p].export_func());
        let _ = roots.remove(split_points[p].import_func());
        proof {
            assert forall|e: FlatEntityRef| #[trigger]
                roots@.contains(e) <==> all_entries.contains(e) && !is_split_function(
                    split_points@.take(p + 1),
                    e,
                ) by {
                lemma_split_function_step(split_points@, p as int, e);
                assert(before.contains(e) <==> all_entries.contains(e) && !is_split_function(
                    split_points@.take(p as int),
                    e,
                ));
            }
        }
        p = p + 1;
    }
    assert(split_points@.take(p as int) =~= split_points@);
    roots.extend(wbg_descriptors);
    roots
}

proof fn lemma_split_function_step(points: Seq<SplitPoint>, p: int, e: FlatEntityRef)
    requires
        0 <= p < points.len(),
    ensures
        is_split_function(points.take(p + 1), e) <==> is_split_function(points.take(p), e)
            || points[p].export_func == e || points[p].import_func == e,
{
    let longer = points.take(p + 1);
    let shorter = points.take(p);
    if is_split_function(longer, e) {
        let i = choose|i: int|
            0 <= i < longer.len() && ((#[trigger] longer[i]).export_func == e
                || longer[i].import_func == e);
        if i < p {
            assert(shorter[i] == longer[i]);
        }
    }
    if is_split_function(shorter, e) {
        let i = choose|i: int|
            0 <= i < shorter.len() && ((#[trigger] shorter[i]).export_func == e
                || shorter[i].import_func == e);
        assert(longer[i] == shorter[i]);
    }
    assert(longer[p] == points[p]);
}

/// Whether an entity is shared by all modules: a memory, the table of indirect functions or the
/// stack pointer.
pub open spec fn is_special(
    module: Module,
    snapshot: EntitiesSnapshot,
    table: TableRef,
    entity: FlatEntityRef,
) -> bool {
    ||| snapshot.base(EntityKind::Memory(MemoryRef { id: 0 })) <= entity.id() < snapshot.base(
        EntityKind::Memory(MemoryRef { id: 0 }),
    ) + module.memories@.len()
    ||| entity.id() == snapshot.flat(EntityKind::Table(table))
    ||| (global_number(module.globals@, "__stack_pointer"@, 0) matches Some(g) && entity.id()
        == snapshot.base(EntityKind::Global(GlobalRef { id: 0 })) + g)
}

/// Whether a set holds the entities that are shared by all modules.
pub open spec fn are_specials(
    module: Module,
    snapshot: EntitiesSnapshot,
    table: TableRef,
    specials: Set<FlatEntityRef>,
) -> bool {
    forall|e: FlatEntityRef| #[trigger]
        specials.contains(e) <==> is_special(module, snapshot, table, e)
}

/// A module that exports and defines some entities.
pub open spec fn sharing(content: ModuleContent, specials: Set<FlatEntityRef>) -> ModuleContent {
    ModuleContent {
        defined: content.defined.union(specials),
        exports: content.exports.union(specials),
        ..content
    }
}

/// A module that imports some entities.
pub open spec fn importing(content: ModuleContent, specials: Set<FlatEntityRef>) -> ModuleContent {
    ModuleContent { imports: content.imports.union(specials), ..content }
}

/// Whether a shared part imports some entities more.
pub open spec fn part_importing(
    before: SharedEntry,
    after: SharedEntry,
    specials: Set<FlatEntityRef>,
) -> bool {
    &&& after.imports@ == before.imports@.union(specials)
    &&& after.module_names == before.module_names
    &&& after.shared_deps == before.shared_deps
    &&& after.exports == before.exports
}

/// Whether the main module shares the special entities with all others.
pub open spec fn has_special_entities(
    module: Module,
    snapshot: EntitiesSnapshot,
    table: TableRef,
    before: (NamedModule, Seq<NamedModule>, Seq<SharedEntry>),
    after: (NamedModule, Seq<NamedModule>, Seq<SharedEntry>),
) -> bool {
    exists|specials: Set<FlatEntityRef>|
        {
            &&& #[trigger] are_specials(module, snapshot, table, specials)
            &&& content_of(after.0) == sharing(content_of(before.0), specials)
            &&& after.1.len() == before.1.len()
            &&& forall|i: int|
                0 <= i < after.1.len() ==> content_of(#[trigger] after.1[i]) == importing(
                    content_of(before.1[i]),
                    specials,
                )
            &&& after.2.len() == before.2.len()
            &&& forall|i: int|
                0 <= i < after.2.len() ==> part_importing(
                    before.2[i],
                    #[trigger] after.2[i],
                    specials,
                )
        }
}

fn list_specials(info: &Module, snapshot: &EntitiesSnapshot, table: TableRef) -> (r: EntitySet)
    requires
        covers(*snapshot, *info),
        table.id() < info.tables@.len(),
    ensures
        r.wf(),
        are_specials(*info, *snapshot, table, r@),
{
    let mut specials = EntitySet::new();
    let ghost base = snapshot.base(EntityKind::Memory(MemoryRef { id: 0 }));
    let mut i: u32 = 0;
    while i < snapshot.memories
        invariant
            i <= snapshot.memories,
            base == snapshot.base(EntityKind::Memory(MemoryRef { id: 0 })),
            covers(*snapshot, *info),
            specials.wf(),
            forall|e: FlatEntityRef| #[trigger]
                specials@.contains(e) <==> base <= e.id() < base + i,
        decreases snapshot.memories - i,
    {
        let _ = specials.insert(snapshot.pack_ref(EntityKind::Memory(MemoryRef::from_raw(i))));
        i = i + 1;
    }
    let _ = specials.insert(snapshot.pack_ref(EntityKind::Table(table)));
    let name = "__stack_pointer".to_owned();
    if let Some(global) = info.find_global_id_by_name(&name) {
        proof {
            lemma_global_number(info.globals@, name@, 0);
        }
        let _ = specials.insert(snapshot.pack_ref(EntityKind::Global(global)));
    }
    specials
}

/// Lets the main module share its memories, the table of indirect functions and the stack pointer
/// with all other modules.
pub fn process_special_entities(
    info: &Module,
    snapshot: &EntitiesSnapshot,
    table: TableRef,
    main: &mut NamedModule,
    regular_modules: &mut Vec<NamedModule>,
    shared: &mut Vec<SharedEntry>,
)
    requires
        covers(*snapshot, *info),
        table.id() < info.tables@.len(),
        global_number(info.globals@, "__stack_pointer"@, 0) is Some,
        old(main).0@ == SplitName::Single(None),
        old(main).1.wf(),
        modules_valid(old(regular_modules)@),
        entries_valid(old(shared)@),
    ensures
        final(main).1.wf(),
        modules_valid(final(regular_modules)@),
        entries_valid(final(shared)@),
        has_special_entities(
            *info,
            *snapshot,
            table,
            (*old(main), old(regular_modules)@, old(shared)@),
            (*final(main), final(regular_modules)@, final(shared)@),
        ),
{
    let specials = list_specials(info, snapshot, table);
    main.1.exports.extend(&specials);
    main.1.defined_symbols.extend(&specials);
    let mut i: usize = 0;
    while i < regular_modules.len()
        invariant
            i <= regular_modules@.len() == old(regular_modules)@.len(),
            specials.wf(),
            modules_valid(old(regular_modules)@),
            forall|j: int|
                0 <= j < i ==> content_of(#[trigger] regular_modules@[j]) == importing(
                    content_of(old(regular_modules)@[j]),
                    specials@,
                ) && regular_modules@[j].1.wf(),
            forall|j: int|
                i <= j < regular_modules@.len() ==> #[trigger] regular_modules@[j] == old(
                    regular_modules,
                )@[j],
        decreases regular_modules@.len() - i,
    {
        let ghost earlier = regular_modules@;
        assert(earlier[i as int] == old(regular_modules)@[i as int]);
        assert(old(regular_modules)@[i as int].1.wf());
        let module = &mut regular_modules[i];
        module.1.imports.extend(&specials);
        proof {
            assert forall|j: int|
                0 <= j < regular_modules@.len() && j != i implies #[trigger] regular_modules@[j]
                == earlier[j] by {}
        }
        i = i + 1;
    }
    let mut k: usize = 0;
    while k < shared.len()
        invariant
            k <= shared@.len() == old(shared)@.len(),
            specials.wf(),
            entries_valid(old(shared)@),
            forall|j: int|
                0 <= j < k ==> part_importing(
                    old(shared)@[j],
                    #[trigger] shared@[j],
                    specials@,
                ) && shared@[j].wf(),
            forall|j: int|
                k <= j < shared@.len() ==> #[trigger] shared@[j] == old(shared)@[j],
        decreases shared@.len() - k,
    {
        let ghost earlier = shared@;
        assert(earlier[k as int] == old(shared)@[k as int]);
        assert(old(shared)@[k as int].wf());
        let part = &mut shared[k];
        part.imports.extend(&specials);
        proof {
            assert forall|j: int| 0 <= j < shared@.len() && j != k implies #[trigger] shared@[j]
                == earlier[j] by {}
        }
        k = k + 1;
    }
    proof {
        assert(content_of(*main) == sharing(content_of(*old(main)), specials@));
        assert(has_special_entities(
            *info,
            *snapshot,
            table,
            (*old(main), old(regular_modules)@, old(shared)@),
            (*main, regular_modules@, shared@),
        ));
    }
}

} // verus!
