//! Exported entities of a module.
use crate::index::TempIndex;
use crate::typed::entities::{
    defined_exports, export_numbers, exports_of, import_exports, CollectionView, DefinedEntity,
    EntityCollection, ImportedEntity,
};
use crate::typed::module::Module;
use crate::typed::{EntityKind, FunctionRef, GlobalRef, MemoryRef, TableRef, TagRef};
use vstd::prelude::*;

verus! {

/// Indices of one kind of entities.
pub trait EntityIndex: TempIndex {
    spec fn kind_spec(self) -> EntityKind;

    fn kind(self) -> (r: EntityKind)
        ensures
            r == self.kind_spec(),
    ;
}

impl EntityIndex for FunctionRef {
    open spec fn kind_spec(self) -> EntityKind {
        EntityKind::Function(self)
    }

    fn kind(self) -> (r: EntityKind) {
        EntityKind::Function(self)
    }
}

impl EntityIndex for GlobalRef {
    open spec fn kind_spec(self) -> EntityKind {
        EntityKind::Global(self)
    }

    fn kind(self) -> (r: EntityKind) {
        EntityKind::Global(self)
    }
}

impl EntityIndex for TableRef {
    open spec fn kind_spec(self) -> EntityKind {
        EntityKind::Table(self)
    }

    fn kind(self) -> (r: EntityKind) {
        EntityKind::Table(self)
    }
}

impl EntityIndex for MemoryRef {
    open spec fn kind_spec(self) -> EntityKind {
        EntityKind::Memory(self)
    }

    fn kind(self) -> (r: EntityKind) {
        EntityKind::Memory(self)
    }
}

impl EntityIndex for TagRef {
    open spec fn kind_spec(self) -> EntityKind {
        EntityKind::Tag(self)
    }

    fn kind(self) -> (r: EntityKind) {
        EntityKind::Tag(self)
    }
}

/// Whether an entity of a collection is exported under some name.
pub open spec fn has_name<T, U>(
    all: CollectionView<ImportedEntity<T>, DefinedEntity<U>>,
    id: int,
) -> bool {
    exists|i: int| 0 <= i < exports_of(all).len() && (#[trigger] exports_of(all)[i]).0 == id
}

/// Only entities that exist are exported.
pub proof fn lemma_name_bound<T, U>(
    all: CollectionView<ImportedEntity<T>, DefinedEntity<U>>,
    id: int,
)
    requires
        has_name(all, id),
    ensures
        0 <= id < all.len(),
{
    let i = choose|i: int|
        0 <= i < exports_of(all).len() && (#[trigger] exports_of(all)[i]).0 == id;
    let first = import_exports(all.imports);
    if i < first.len() {
        lemma_import_bound(all.imports, i);
        assert(exports_of(all)[i] == first[i]);
    } else {
        lemma_defined_bound(all.defined, all.imports.len() as int, i - first.len());
        assert(exports_of(all)[i] == defined_exports(all.defined, all.imports.len() as int)[i
            - first.len()]);
    }
}

proof fn lemma_import_bound<T>(imports: Seq<ImportedEntity<T>>, i: int)
    requires
        0 <= i < import_exports(imports).len(),
    ensures
        0 <= import_exports(imports)[i].0 < imports.len(),
    decreases imports.len(),
{
    let rest = import_exports(imports.drop_last());
    if i < rest.len() {
        lemma_import_bound(imports.drop_last(), i);
    }
}

proof fn lemma_defined_bound<T>(defined: Seq<DefinedEntity<T>>, first: int, i: int)
    requires
        0 <= i < defined_exports(defined, first).len(),
    ensures
        first <= defined_exports(defined, first)[i].0 < first + defined.len(),
    decreases defined.len(),
{
    let rest = defined_exports(defined.drop_last(), first);
    if i < rest.len() {
        lemma_defined_bound(defined.drop_last(), first, i);
    }
}

/// Whether an entity is exported.
pub open spec fn is_exported_entity(module: Module, entity: EntityKind) -> bool {
    match entity {
        EntityKind::Function(f) => has_name(module.functions@, f.id() as int),
        EntityKind::Global(g) => has_name(module.globals@, g.id() as int),
        EntityKind::Table(t) => has_name(module.tables@, t.id() as int),
        EntityKind::Memory(m) => has_name(module.memories@, m.id() as int),
        EntityKind::Tag(t) => has_name(module.tags@, t.id() as int),
        EntityKind::DataSymbol(_) | EntityKind::Type(_) => false,
    }
}

/// Whether an entity of a collection is exported.
pub open spec fn is_exported_of<Idx: EntityIndex, T, U>(
    all: CollectionView<ImportedEntity<T>, DefinedEntity<U>>,
    unused: Option<Idx>,
    entity: EntityKind,
) -> bool {
    exists|idx: Idx| #[trigger] idx.kind_spec() == entity && has_name(all, idx.id() as int)
}

fn push_exports<Idx: EntityIndex, T, U>(
    list: &mut Vec<EntityKind>,
    all: &EntityCollection<Idx, ImportedEntity<T>, DefinedEntity<U>>,
)
    requires
        all@.imports.len() + all@.defined.len() < u32::MAX,
    ensures
        forall|entity: EntityKind| #[trigger]
            final(list)@.contains(entity) <==> old(list)@.contains(entity) || is_exported_of::<
                Idx,
                T,
                U,
            >(all@, None, entity),
{
    let exports = all.exports_iter();
    let ghost before = list@;
    let mut i: usize = 0;
    while i < exports.len()
        invariant
            i <= exports@.len(),
            list@.len() == before.len() + i,
            forall|j: int| 0 <= j < before.len() ==> list@[j] == before[j],
            forall|j: int|
                0 <= j < i ==> list@[before.len() + j] == (#[trigger] exports@[j]).0.kind_spec(),
        decreases exports@.len() - i,
    {
        list.push(exports[i].0.kind());
        i = i + 1;
    }
    proof {
        let n = before.len() as int;
        let numbers = exports_of(all@);
        assert(export_numbers(exports@) == numbers);
        assert forall|entity: EntityKind| #[trigger]
            list@.contains(entity) <==> before.contains(entity) || is_exported_of::<Idx, T, U>(
                all@,
                None,
                entity,
            ) by {
            if list@.contains(entity) {
                let k = choose|k: int| 0 <= k < list@.len() && list@[k] == entity;
                if k < n {
                    assert(before[k] == entity);
                } else {
                    let idx = exports@[k - n].0;
                    assert(list@[n + (k - n)] == idx.kind_spec());
                    assert(numbers[k - n].0 == idx.id());
                    assert(has_name(all@, idx.id() as int));
                    assert(idx.kind_spec() == entity);
                }
            }
            if before.contains(entity) {
                let k = choose|k: int| 0 <= k < before.len() && before[k] == entity;
                assert(list@[k] == entity);
            }
            if is_exported_of::<Idx, T, U>(all@, None, entity) {
                let idx = choose|idx: Idx| #[trigger]
                    idx.kind_spec() == entity && has_name(all@, idx.id() as int);
                let k = choose|k: int|
                    0 <= k < numbers.len() && (#[trigger] numbers[k]).0 == idx.id();
                assert(numbers[k].0 == exports@[k].0.id());
                Idx::lemma_id_injective(exports@[k].0, idx);
                assert(list@[n + k] == exports@[k].0.kind_spec());
                assert(list@[n + k] == entity);
            }
        }
    }
}

impl Module {
    /// Whether all entities have an index.
    pub open spec fn has_indices(&self) -> bool {
        &&& self.functions@.len() < u32::MAX
        &&& self.globals@.len() < u32::MAX
        &&& self.tables@.len() < u32::MAX
        &&& self.memories@.len() < u32::MAX
        &&& self.tags@.len() < u32::MAX
    }

    /// All entities that are exported, once for each name.
    pub fn entities_exports(&self) -> (r: Vec<EntityKind>)
        requires
            self.has_indices(),
        ensures
            forall|entity: EntityKind| #[trigger]
                r@.contains(entity) <==> is_exported_entity(*self, entity),
    {
        let mut list: Vec<EntityKind> = Vec::new();
        push_exports(&mut list, &self.functions);
        let ghost functions = list@;
        push_exports(&mut list, &self.globals);
        let ghost globals = list@;
        push_exports(&mut list, &self.tables);
        let ghost tables = list@;
        push_exports(&mut list, &self.memories);
        let ghost memories = list@;
        push_exports(&mut list, &self.tags);
        proof {
            assert forall|entity: EntityKind| #[trigger]
                list@.contains(entity) <==> is_exported_entity(*self, entity) by {
                assert(list@.contains(entity) <==> memories.contains(entity) || is_exported_of::<
                    TagRef,
                    _,
                    _,
                >(self.tags@, None, entity));
                assert(memories.contains(entity) <==> tables.contains(entity) || is_exported_of::<
                    MemoryRef,
                    _,
                    _,
                >(self.memories@, None, entity));
                assert(tables.contains(entity) <==> globals.contains(entity) || is_exported_of::<
                    TableRef,
                    _,
                    _,
                >(self.tables@, None, entity));
                assert(globals.contains(entity) <==> functions.contains(entity)
                    || is_exported_of::<GlobalRef, _, _>(self.globals@, None, entity));
                assert(functions.contains(entity) <==> is_exported_of::<FunctionRef, _, _>(
                    self.functions@,
                    None,
                    entity,
                ));
                match entity {
                    EntityKind::Function(f) => {
                        assert(f.kind_spec() == entity);
                    },
                    EntityKind::Global(f) => {
                        assert(f.kind_spec() == entity);
                    },
                    EntityKind::Table(f) => {
                        assert(f.kind_spec() == entity);
                    },
                    EntityKind::Memory(f) => {
                        assert(f.kind_spec() == entity);
                    },
                    EntityKind::Tag(f) => {
                        assert(f.kind_spec() == entity);
                    },
                    _ => {},
                }
            }
        }
        list
    }
}

} // verus!
