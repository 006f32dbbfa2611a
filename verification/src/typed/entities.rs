//! Collections of imported, defined and external entities of one kind.
use crate::index::{MAX_VALUE, Temp, TempIndex, TempKind};
use crate::typed::body::EntityBody;
use vstd::prelude::*;

verus! {

/// An entity, by where it comes from.
#[derive(Debug, PartialEq, Eq)]
pub enum ImportOrDefined<I, D> {
    /// Imported; imports come first in the index space.
    Import(I),
    Defined(D),
    /// Known by its import only; external entities come last in the index space.
    External(I),
}

impl<I, D> ImportOrDefined<I, D> {
    pub fn is_external(&self) -> (r: bool)
        ensures
            r == (*self is External),
    {
        match self {
            ImportOrDefined::External(_) => true,
            _ => false,
        }
    }

    pub fn to_external(self) -> (r: Option<I>)
        ensures
            r == match self {
                ImportOrDefined::External(i) => Some(i),
                _ => None,
            },
    {
        match self {
            ImportOrDefined::External(i) => Some(i),
            _ => None,
        }
    }
}

/// An entity that is imported from a module by a name.
#[derive(Debug, PartialEq, Eq)]
pub struct ImportedEntity<T> {
    pub module: String,
    pub name: String,
    pub entity_type: T,
    pub export_as: Vec<String>,
}

/// An entity with a body.
#[derive(Debug)]
pub struct DefinedEntity<T> {
    pub entity_type: T,
    pub name: Option<String>,
    pub export_as: Vec<String>,
    pub body: EntityBody,
}

/// State of an [`EntityCollection`].
pub struct CollectionView<I, D> {
    pub imports: Seq<I>,
    pub defined: Seq<D>,
    pub external: Seq<I>,
}

impl<I, D> CollectionView<I, D> {
    pub open spec fn empty() -> Self {
        CollectionView { imports: Seq::empty(), defined: Seq::empty(), external: Seq::empty() }
    }

    pub open spec fn len(self) -> nat {
        self.imports.len() + self.defined.len() + self.external.len()
    }

    /// The entity with a final index.
    pub open spec fn entity(self, id: int) -> ImportOrDefined<I, D> {
        if id < self.imports.len() {
            ImportOrDefined::Import(self.imports[id])
        } else if id < self.imports.len() + self.defined.len() {
            ImportOrDefined::Defined(self.defined[id - self.imports.len()])
        } else {
            ImportOrDefined::External(
                self.external[id - self.imports.len() - self.defined.len()],
            )
        }
    }

    /// Whether a temporary index names an entity of the collection.
    pub open spec fn holds(self, kind: TempKind) -> bool {
        match kind {
            TempKind::Import(i) => i < self.imports.len(),
            TempKind::Defined(i) => i < self.defined.len(),
            TempKind::External(i) => i < self.external.len(),
        }
    }

    /// The entity with a temporary index.
    pub open spec fn temp_entity(self, kind: TempKind) -> ImportOrDefined<I, D> {
        match kind {
            TempKind::Import(i) => ImportOrDefined::Import(self.imports[i as int]),
            TempKind::Defined(i) => ImportOrDefined::Defined(self.defined[i as int]),
            TempKind::External(i) => ImportOrDefined::External(self.external[i as int]),
        }
    }

    /// The collection with one more entity.
    pub open spec fn with(self, entity: ImportOrDefined<I, D>) -> Self {
        match entity {
            ImportOrDefined::Import(i) => CollectionView { imports: self.imports.push(i), ..self },
            ImportOrDefined::Defined(d) => CollectionView {
                defined: self.defined.push(d),
                ..self
            },
            ImportOrDefined::External(i) => CollectionView {
                external: self.external.push(i),
                ..self
            },
        }
    }

    /// The temporary index that one more entity gets.
    pub open spec fn next_kind(self, entity: ImportOrDefined<I, D>) -> TempKind {
        match entity {
            ImportOrDefined::Import(_) => TempKind::Import(self.imports.len() as u32),
            ImportOrDefined::Defined(_) => TempKind::Defined(self.defined.len() as u32),
            ImportOrDefined::External(_) => TempKind::External(self.external.len() as u32),
        }
    }

    /// Whether one more entity can get a temporary index.
    pub open spec fn has_room(self, entity: ImportOrDefined<I, D>) -> bool {
        match entity {
            ImportOrDefined::Import(_) => self.imports.len() <= MAX_VALUE,
            ImportOrDefined::Defined(_) => self.defined.len() <= MAX_VALUE,
            ImportOrDefined::External(_) => self.external.len() <= MAX_VALUE,
        }
    }
}

/// The temporary index of a pushed entity names it, in the collection right after the push, and
/// under its final index.
pub proof fn lemma_pushed_entity<I, D, Idx>(
    before: CollectionView<I, D>,
    entity: ImportOrDefined<I, D>,
    temp: Temp<Idx>,
)
    requires
        before.has_room(entity),
        temp.kind() == before.next_kind(entity),
    ensures
        before.with(entity).holds(temp.kind()),
        before.with(entity).temp_entity(temp.kind()) == entity,
        before.with(entity).entity(
            temp.stable(
                before.with(entity).imports.len(),
                before.with(entity).defined.len(),
            ) as int,
        ) == entity,
{
}

/// Later pushes do not change what a temporary index names.
pub proof fn lemma_push_keeps_entities<I, D>(
    before: CollectionView<I, D>,
    entity: ImportOrDefined<I, D>,
    kind: TempKind,
)
    requires
        before.holds(kind),
    ensures
        before.with(entity).holds(kind),
        before.with(entity).temp_entity(kind) == before.temp_entity(kind),
{
}

/// A final index names the same entity as the temporary index that it was made from.
pub proof fn lemma_stable_entity<I, D, Idx>(all: CollectionView<I, D>, temp: Temp<Idx>)
    requires
        all.holds(temp.kind()),
    ensures
        temp.stable(all.imports.len(), all.defined.len()) < all.len(),
        all.entity(temp.stable(all.imports.len(), all.defined.len()) as int) == all.temp_entity(
            temp.kind(),
        ),
{
}

/// Entities of one kind. Their index space holds the imported, then the defined and then the
/// external ones.
#[verifier::reject_recursive_types(Idx)]
#[verifier::reject_recursive_types(I)]
#[verifier::reject_recursive_types(D)]
#[derive(Debug)]
pub struct EntityCollection<Idx, I, D> {
    imports: Vec<I>,
    defined: Vec<D>,
    external: Vec<I>,
    unused: core::marker::PhantomData<Idx>,
}

impl<Idx, I, D> View for EntityCollection<Idx, I, D> {
    type V = CollectionView<I, D>;

    closed spec fn view(&self) -> CollectionView<I, D> {
        CollectionView {
            imports: self.imports@,
            defined: self.defined@,
            external: self.external@,
        }
    }
}

impl<Idx: TempIndex, I, D> EntityCollection<Idx, I, D> {
    pub fn empty() -> (r: Self)
        ensures
            r@ == CollectionView::<I, D>::empty(),
    {
        EntityCollection {
            imports: Vec::new(),
            defined: Vec::new(),
            external: Vec::new(),
            unused: core::marker::PhantomData,
        }
    }

    pub fn push_import(&mut self, import: I) -> (r: Temp<Idx>)
        requires
            old(self)@.imports.len() <= MAX_VALUE,
        ensures
            r.wf(),
            r.kind() == TempKind::Import(old(self)@.imports.len() as u32),
            final(self)@ == old(self)@.with(ImportOrDefined::Import(import)),
    {
        let temp = Temp::from_import(self.imports.len());
        self.imports.push(import);
        temp
    }

    pub fn push_defined(&mut self, defined: D) -> (r: Temp<Idx>)
        requires
            old(self)@.defined.len() <= MAX_VALUE,
        ensures
            r.wf(),
            r.kind() == TempKind::Defined(old(self)@.defined.len() as u32),
            final(self)@ == old(self)@.with(ImportOrDefined::Defined(defined)),
    {
        let temp = Temp::from_defined(self.defined.len());
        self.defined.push(defined);
        temp
    }

    pub fn push_external(&mut self, import: I) -> (r: Temp<Idx>)
        requires
            old(self)@.external.len() <= MAX_VALUE,
        ensures
            r.wf(),
            r.kind() == TempKind::External(old(self)@.external.len() as u32),
            final(self)@ == old(self)@.with(ImportOrDefined::External(import)),
    {
        let temp = Temp::from_external(self.external.len());
        self.external.push(import);
        temp
    }

    pub fn push_entity(&mut self, entity: ImportOrDefined<I, D>) -> (r: Temp<Idx>)
        requires
            old(self)@.has_room(entity),
        ensures
            r.wf(),
            r.kind() == old(self)@.next_kind(entity),
            final(self)@ == old(self)@.with(entity),
    {
        match entity {
            ImportOrDefined::Import(import) => self.push_import(import),
            ImportOrDefined::Defined(defined) => self.push_defined(defined),
            ImportOrDefined::External(import) => self.push_external(import),
        }
    }

    /// The temporary index that the entity would get.
    pub fn dry_push_entity(&self, entity: &ImportOrDefined<I, D>) -> (r: Temp<Idx>)
        requires
            self@.has_room(*entity),
        ensures
            r.wf(),
            r.kind() == self@.next_kind(*entity),
    {
        match entity {
            ImportOrDefined::Import(_) => Temp::from_import(self.imports.len()),
            ImportOrDefined::Defined(_) => Temp::from_defined(self.defined.len()),
            ImportOrDefined::External(_) => Temp::from_external(self.external.len()),
        }
    }

    pub fn len(&self) -> (r: usize)
        requires
            self@.len() <= usize::MAX,
        ensures
            r == self@.len(),
    {
        self.imports.len() + self.defined.len() + self.external.len()
    }

    pub fn imports(&self) -> (r: &[I])
        ensures
            r@ == self@.imports,
    {
        self.imports.as_slice()
    }

    pub fn defined(&self) -> (r: &[D])
        ensures
            r@ == self@.defined,
    {
        self.defined.as_slice()
    }

    pub fn external(&self) -> (r: &[I])
        ensures
            r@ == self@.external,
    {
        self.external.as_slice()
    }

    /// A mutable reference to the defined entity with the given number among the defined ones.
    pub fn defined_mut(&mut self, i: usize) -> (r: &mut D)
        requires
            i < old(self)@.defined.len(),
        ensures
            *r == old(self)@.defined[i as int],
            final(self)@ == (CollectionView {
                defined: old(self)@.defined.update(i as int, *final(r)),
                ..old(self)@
            }),
    {
        &mut self.defined[i]
    }

    /// The final index of an entity.
    pub fn stable_id(&self, temp: Temp<Idx>) -> (r: Idx)
        requires
            temp.wf(),
            temp.stable(self@.imports.len(), self@.defined.len()) < u32::MAX,
        ensures
            r.id() == temp.stable(self@.imports.len(), self@.defined.len()),
    {
        temp.to_stable(self.imports.len(), self.defined.len())
    }

    /// The entity with a final index.
    pub fn get_entity(&self, idx: Idx) -> (r: ImportOrDefined<&I, &D>)
        requires
            idx.id() < self@.len(),
        ensures
            match (r, self@.entity(idx.id() as int)) {
                (ImportOrDefined::Import(a), ImportOrDefined::Import(b)) => *a == b,
                (ImportOrDefined::Defined(a), ImportOrDefined::Defined(b)) => *a == b,
                (ImportOrDefined::External(a), ImportOrDefined::External(b)) => *a == b,
                _ => false,
            },
    {
        let mut index: usize = idx.index();
        if index < self.imports.len() {
            return ImportOrDefined::Import(&self.imports[index]);
        }
        index = index - self.imports.len();
        if index < self.defined.len() {
            return ImportOrDefined::Defined(&self.defined[index]);
        }
        index = index - self.defined.len();
        ImportOrDefined::External(&self.external[index])
    }

    /// The parts of the collection.
    pub fn into_parts(self) -> (r: (Vec<I>, Vec<D>, Vec<I>))
        ensures
            r.0@ == self@.imports,
            r.1@ == self@.defined,
            r.2@ == self@.external,
    {
        (self.imports, self.defined, self.external)
    }

    /// Every imported entity with its index.
    pub fn imports_iter(&self) -> (r: Vec<(Idx, &I)>)
        requires
            self@.imports.len() < u32::MAX,
        ensures
            r@.len() == self@.imports.len(),
            forall|i: int|
                0 <= i < r@.len() ==> (#[trigger] r@[i]).0.id() == i && *r@[i].1
                    == self@.imports[i],
    {
        let mut result: Vec<(Idx, &I)> = Vec::new();
        let mut i: usize = 0;
        while i < self.imports.len()
            invariant
                i <= self@.imports.len() < u32::MAX,
                result@.len() == i,
                forall|j: int|
                    0 <= j < i ==> (#[trigger] result@[j]).0.id() == j && *result@[j].1
                        == self@.imports[j],
            decreases self@.imports.len() - i,
        {
            result.push((Idx::new(i), &self.imports[i]));
            i = i + 1;
        }
        result
    }

    /// Every defined entity with its index.
    pub fn defined_iter(&self) -> (r: Vec<(Idx, &D)>)
        requires
            self@.imports.len() + self@.defined.len() < u32::MAX,
        ensures
            r@.len() == self@.defined.len(),
            forall|i: int|
                0 <= i < r@.len() ==> (#[trigger] r@[i]).0.id() == self@.imports.len() + i
                    && *r@[i].1 == self@.defined[i],
    {
        let mut result: Vec<(Idx, &D)> = Vec::new();
        let mut i: usize = 0;
        while i < self.defined.len()
            invariant
                i <= self@.defined.len(),
                self@.imports.len() + self@.defined.len() < u32::MAX,
                result@.len() == i,
                forall|j: int|
                    0 <= j < i ==> (#[trigger] result@[j]).0.id() == self@.imports.len() + j
                        && *result@[j].1 == self@.defined[j],
            decreases self@.defined.len() - i,
        {
            result.push((Idx::new(self.imports.len() + i), &self.defined[i]));
            i = i + 1;
        }
        result
    }
}

/// The names under which an entity is exported, each with the index of the entity.
pub open spec fn numbered_names(id: int, names: Seq<String>) -> Seq<(int, Seq<char>)> {
    names.map_values(|name: String| (id, name@))
}

/// The exports of imported entities, in order.
pub open spec fn import_exports<T>(imports: Seq<ImportedEntity<T>>) -> Seq<(int, Seq<char>)>
    decreases imports.len(),
{
    if imports.len() == 0 {
        Seq::empty()
    } else {
        import_exports(imports.drop_last()) + numbered_names(
            imports.len() - 1,
            imports.last().export_as@,
        )
    }
}

/// The exports of defined entities whose indices start at `first`, in order.
pub open spec fn defined_exports<T>(defined: Seq<DefinedEntity<T>>, first: int) -> Seq<
    (int, Seq<char>),
>
    decreases defined.len(),
{
    if defined.len() == 0 {
        Seq::empty()
    } else {
        defined_exports(defined.drop_last(), first) + numbered_names(
            first + defined.len() - 1,
            defined.last().export_as@,
        )
    }
}

/// The exports of all entities: their indices and names.
pub open spec fn exports_of<T, U>(all: CollectionView<ImportedEntity<T>, DefinedEntity<U>>) -> Seq<
    (int, Seq<char>),
> {
    import_exports(all.imports) + defined_exports(all.defined, all.imports.len() as int)
}

/// Exports with indices of their type, as numbers.
pub open spec fn export_numbers<Idx: TempIndex>(exports: Seq<(Idx, &str)>) -> Seq<
    (int, Seq<char>),
> {
    exports.map_values(|export: (Idx, &str)| (export.0.id() as int, export.1@))
}

fn push_names<'a, Idx: TempIndex>(
    exports: &mut Vec<(Idx, &'a str)>,
    idx: Idx,
    names: &'a Vec<String>,
)
    ensures
        export_numbers(final(exports)@) == export_numbers(old(exports)@) + numbered_names(
            idx.id() as int,
            names@,
        ),
{
    let ghost before = export_numbers(exports@);
    let ghost expected = numbered_names(idx.id() as int, names@);
    let mut k: usize = 0;
    assert(export_numbers(exports@) =~= before + expected.take(0));
    while k < names.len()
        invariant
            k <= names@.len(),
            expected == numbered_names(idx.id() as int, names@),
            export_numbers(exports@) == before + expected.take(k as int),
        decreases names@.len() - k,
    {
        let ghost so_far = exports@;
        exports.push((idx, names[k].as_str()));
        proof {
            assert(export_numbers(exports@) =~= export_numbers(so_far).push(expected[k as int]));
            assert(before + expected.take(k + 1) =~= (before + expected.take(k as int)).push(
                expected[k as int],
            ));
        }
        k = k + 1;
    }
    assert(expected.take(k as int) =~= expected);
}

impl<Idx: TempIndex, T, U> EntityCollection<Idx, ImportedEntity<T>, DefinedEntity<U>> {
    /// Every export: the index of an entity with a name under which it is exported.
    pub fn exports_iter(&self) -> (r: Vec<(Idx, &str)>)
        requires
            self@.imports.len() + self@.defined.len() < u32::MAX,
        ensures
            export_numbers(r@) == exports_of(self@),
    {
        let mut result: Vec<(Idx, &str)> = Vec::new();
        let ghost imports = self@.imports;
        let ghost defined = self@.defined;
        let first: usize = self.imports.len();
        let mut i: usize = 0;
        assert(imports.take(0) =~= Seq::<ImportedEntity<T>>::empty());
        assert(export_numbers(result@) =~= import_exports(imports.take(0)));
        while i < self.imports.len()
            invariant
                i <= imports.len(),
                imports == self@.imports,
                imports.len() + self@.defined.len() < u32::MAX,
                export_numbers(result@) == import_exports(imports.take(i as int)),
            decreases imports.len() - i,
        {
            proof {
                assert(imports.take(i + 1).drop_last() =~= imports.take(i as int));
                assert(imports.take(i + 1).last() == imports[i as int]);
            }
            push_names(&mut result, Idx::new(i), &self.imports[i].export_as);
            i = i + 1;
        }
        assert(imports.take(i as int) =~= imports);
        let ghost head = import_exports(imports);
        i = 0;
        assert(defined.take(0) =~= Seq::<DefinedEntity<U>>::empty());
        assert(export_numbers(result@) =~= head + defined_exports(defined.take(0), first as int));
        while i < self.defined.len()
            invariant
                i <= defined.len(),
                defined == self@.defined,
                first == self@.imports.len(),
                first + defined.len() < u32::MAX,
                export_numbers(result@) == head + defined_exports(
                    defined.take(i as int),
                    first as int,
                ),
            decreases defined.len() - i,
        {
            proof {
                assert(defined.take(i + 1).drop_last() =~= defined.take(i as int));
                assert(defined.take(i + 1).last() == defined[i as int]);
            }
            let ghost so_far = export_numbers(result@);
            push_names(&mut result, Idx::new(first + i), &self.defined[i].export_as);
            proof {
                assert(export_numbers(result@) =~= head + defined_exports(
                    defined.take(i + 1),
                    first as int,
                ));
            }
            i = i + 1;
        }
        assert(defined.take(i as int) =~= defined);
        result
    }
}

/// Every export belongs to an entity.
pub proof fn lemma_exports_are_entities<T, U>(
    all: CollectionView<ImportedEntity<T>, DefinedEntity<U>>,
    k: int,
)
    requires
        0 <= k < exports_of(all).len(),
    ensures
        0 <= exports_of(all)[k].0 < all.imports.len() + all.defined.len(),
{
    let head = import_exports(all.imports);
    if k < head.len() {
        lemma_import_exports_bound(all.imports, k);
    } else {
        lemma_defined_exports_bound(all.defined, all.imports.len() as int, k - head.len());
    }
}

proof fn lemma_import_exports_bound<T>(imports: Seq<ImportedEntity<T>>, k: int)
    requires
        0 <= k < import_exports(imports).len(),
    ensures
        0 <= import_exports(imports)[k].0 < imports.len(),
    decreases imports.len(),
{
    let rest = import_exports(imports.drop_last());
    if k < rest.len() {
        lemma_import_exports_bound(imports.drop_last(), k);
    }
}

proof fn lemma_defined_exports_bound<T>(defined: Seq<DefinedEntity<T>>, first: int, k: int)
    requires
        0 <= k < defined_exports(defined, first).len(),
    ensures
        first <= defined_exports(defined, first)[k].0 < first + defined.len(),
    decreases defined.len(),
{
    let rest = defined_exports(defined.drop_last(), first);
    if k < rest.len() {
        lemma_defined_exports_bound(defined.drop_last(), first, k);
    }
}

} // verus!
