//! What goes into the modules that a program is split into.
use crate::analysis::entity_set::EntitySet;
use crate::analysis::names::{
    lemma_text_less_is_asymmetric, lemma_text_less_is_transitive, text_less, text_order, TextOrder,
};
use crate::analysis::split_point::{
    contains_module, contains_modules, is_part, names_of, ModuleIdentifier, ModuleName,
    SharedModuleIdentifier, SplitModuleIdentifier, SplitName, SplitPoint,
};
use crate::index::TempIndex;
use crate::typed::snapshot::FlatEntityRef;
use vstd::prelude::*;

verus! {

/// The contents of an output module.
#[derive(Debug)]
pub struct OutputModuleInfo {
    pub defined_symbols: EntitySet,
    pub imports: EntitySet,
    pub exports: EntitySet,
    pub split_points: Vec<SplitPoint>,
    /// What the module needs of other modules, in the order of their names.
    pub dependencies: Vec<(SharedModuleIdentifier, EntitySet)>,
}

/// The contents of an output module, and its name.
pub type NamedModule = (SplitModuleIdentifier, OutputModuleInfo);

/// What is defined, imported and exported by a module.
pub ghost struct ModuleContent {
    pub name: SplitName,
    pub defined: Set<FlatEntityRef>,
    pub imports: Set<FlatEntityRef>,
    pub exports: Set<FlatEntityRef>,
    pub split_points: Seq<SplitPoint>,
    pub dependencies: Seq<(Seq<ModuleName>, Set<FlatEntityRef>)>,
}

/// What a module needs of other modules.
pub open spec fn dependency_views(deps: Seq<(SharedModuleIdentifier, EntitySet)>) -> Seq<
    (Seq<ModuleName>, Set<FlatEntityRef>),
> {
    deps.map_values(|dep: (SharedModuleIdentifier, EntitySet)| (dep.0@, dep.1@))
}

impl OutputModuleInfo {
    pub open spec fn wf(&self) -> bool {
        self.defined_symbols.wf() && self.imports.wf() && self.exports.wf()
    }

    /// Whether an entity has to be exported: other modules import it, or it is the function behind
    /// a split point.
    pub fn need_export(&self, symbol: FlatEntityRef, input_func: FlatEntityRef) -> (r: bool)
        requires
            self.wf(),
        ensures
            r == (self.exports@.contains(symbol) || exists|i: int|
                0 <= i < self.split_points@.len() && (
                #[trigger] self.split_points@[i]).export_func == input_func),
    {
        if self.exports.contains(symbol) {
            return true;
        }
        let mut i: usize = 0;
        while i < self.split_points.len()
            invariant
                i <= self.split_points@.len(),
                forall|j: int|
                    0 <= j < i ==> (#[trigger] self.split_points@[j]).export_func != input_func,
            decreases self.split_points@.len() - i,
        {
            if self.split_points[i].export_func().same(&input_func) {
                return true;
            }
            i = i + 1;
        }
        false
    }
}

/// The entities of a module at some time.
#[derive(Debug)]
pub struct ModuleSnapshot {
    pub defined_symbols: EntitySet,
    pub imports: EntitySet,
    pub exports: EntitySet,
    pub split_points: Vec<SplitPoint>,
}

impl ModuleSnapshot {
    /// The entities that a module has now.
    pub fn of(value: &OutputModuleInfo) -> (r: Self)
        ensures
            r.defined_symbols.seq() == value.defined_symbols.seq(),
            r.imports.seq() == value.imports.seq(),
            r.exports.seq() == value.exports.seq(),
            r.split_points@ == value.split_points@,
    {
        let mut split_points: Vec<SplitPoint> = Vec::new();
        let mut i: usize = 0;
        while i < value.split_points.len()
            invariant
                i <= value.split_points@.len(),
                split_points@ == value.split_points@.take(i as int),
            decreases value.split_points@.len() - i,
        {
            split_points.push(value.split_points[i].clone());
            assert(value.split_points@.take(i + 1) =~= value.split_points@.take(i as int).push(
                value.split_points@[i as int],
            ));
            i = i + 1;
        }
        assert(value.split_points@.take(i as int) =~= value.split_points@);
        ModuleSnapshot {
            defined_symbols: value.defined_symbols.copy(),
            imports: value.imports.copy(),
            exports: value.exports.copy(),
            split_points,
        }
    }
}

/// The contents of a named module.
pub open spec fn content_of(module: NamedModule) -> ModuleContent {
    ModuleContent {
        name: module.0@,
        defined: module.1.defined_symbols@,
        imports: module.1.imports@,
        exports: module.1.exports@,
        split_points: module.1.split_points@,
        dependencies: dependency_views(module.1.dependencies@),
    }
}

/// What a module reaches, and what of it comes from shared modules.
#[derive(Debug)]
pub struct NamedGraph {
    pub module: ModuleIdentifier,
    pub reachable: EntitySet,
    pub imports: EntitySet,
}

/// A part that several modules share.
#[derive(Debug)]
pub struct SharedEntry {
    pub module_names: Vec<ModuleIdentifier>,
    pub shared_deps: EntitySet,
    pub imports: EntitySet,
    pub exports: EntitySet,
}

impl SharedEntry {
    pub open spec fn wf(&self) -> bool {
        self.shared_deps.wf() && self.imports.wf() && self.exports.wf()
    }

    /// The names of the modules that share the part.
    pub open spec fn names(&self) -> Seq<ModuleName> {
        names_of(self.module_names@)
    }
}

/// Whether all sets of entities of shared parts are valid.
pub open spec fn entries_valid(shared: Seq<SharedEntry>) -> bool {
    forall|i: int| 0 <= i < shared.len() ==> (#[trigger] shared[i]).wf()
}

/// Whether a module comes before another one: the main module is the first.
pub open spec fn name_less(a: ModuleName, b: ModuleName) -> bool {
    match (a, b) {
        (None, Some(_)) => true,
        (Some(x), Some(y)) => text_less(x, y),
        _ => false,
    }
}

/// Whether a list of modules comes before another one because of the place `k`.
pub open spec fn names_differ(a: Seq<ModuleName>, b: Seq<ModuleName>, k: int) -> bool {
    &&& 0 <= k <= a.len()
    &&& k < b.len()
    &&& a.take(k) == b.take(k)
    &&& k < a.len() ==> name_less(a[k], b[k])
}

/// Whether a list of modules comes before another one.
pub open spec fn names_less(a: Seq<ModuleName>, b: Seq<ModuleName>) -> bool {
    exists|k: int| names_differ(a, b, k)
}

proof fn lemma_name_less_is_asymmetric(a: ModuleName, b: ModuleName)
    requires
        name_less(a, b),
    ensures
        a != b,
        !name_less(b, a),
{
    if let (Some(x), Some(y)) = (a, b) {
        lemma_text_less_is_asymmetric(x, y);
    }
}

proof fn lemma_names_less_is_asymmetric(a: Seq<ModuleName>, b: Seq<ModuleName>)
    requires
        names_less(a, b),
    ensures
        a != b,
        !names_less(b, a),
{
    let k = choose|k: int| names_differ(a, b, k);
    if k < a.len() {
        lemma_name_less_is_asymmetric(a[k], b[k]);
    }
    if names_less(b, a) {
        let j = choose|j: int| names_differ(b, a, j);
        if k < j {
            assert(b.take(j)[k] == b[k]);
            assert(a.take(j)[k] == a[k]);
        } else if j < k {
            lemma_name_less_is_asymmetric(b[j], a[j]);
            assert(b.take(k)[j] == b[j]);
            assert(a.take(k)[j] == a[j]);
        }
    }
}

proof fn lemma_names_less_is_transitive(
    a: Seq<ModuleName>,
    b: Seq<ModuleName>,
    c: Seq<ModuleName>,
)
    requires
        names_less(a, b),
        names_less(b, c),
    ensures
        names_less(a, c),
{
    let j = choose|j: int| names_differ(a, b, j);
    let k = choose|k: int| names_differ(b, c, k);
    let m = if j < k {
        j
    } else {
        k
    };
    assert(a.take(m) =~= c.take(m)) by {
        assert(a.take(m) =~= a.take(j).take(m));
        assert(b.take(m) =~= b.take(j).take(m));
        assert(b.take(m) =~= b.take(k).take(m));
        assert(c.take(m) =~= c.take(k).take(m));
    }
    if j < k {
        assert(b.take(k)[j] == b[j]);
        assert(c.take(k)[j] == c[j]);
    } else if k < j {
        assert(a.take(j)[k] == a[k]);
        assert(b.take(j)[k] == b[k]);
    } else if j < a.len() {
        if let (Some(x), Some(y), Some(z)) = (a[j], b[j], c[j]) {
            lemma_text_less_is_transitive(x, y, z);
        }
    }
    assert(names_differ(a, c, m));
}

/// How two modules are ordered.
fn name_order(a: &ModuleIdentifier, b: &ModuleIdentifier) -> (r: TextOrder)
    ensures
        match r {
            TextOrder::Less => name_less(a@, b@),
            TextOrder::Equal => a@ == b@,
            TextOrder::Greater => name_less(b@, a@),
        },
{
    match (a, b) {
        (ModuleIdentifier::Main, ModuleIdentifier::Main) => TextOrder::Equal,
        (ModuleIdentifier::Main, ModuleIdentifier::Split(_)) => TextOrder::Less,
        (ModuleIdentifier::Split(_), ModuleIdentifier::Main) => TextOrder::Greater,
        (ModuleIdentifier::Split(x), ModuleIdentifier::Split(y)) => text_order(
            x.as_str(),
            y.as_str(),
        ),
    }
}

/// How two lists of modules are ordered.
fn names_order(a: &SharedModuleIdentifier, b: &SharedModuleIdentifier) -> (r: TextOrder)
    ensures
        match r {
            TextOrder::Less => names_less(a@, b@),
            TextOrder::Equal => a@ == b@,
            TextOrder::Greater => names_less(b@, a@),
        },
{
    let mut i: usize = 0;
    while i < a.0.len() && i < b.0.len()
        invariant
            i <= a@.len(),
            i <= b@.len(),
            a@.len() == a.0@.len(),
            b@.len() == b.0@.len(),
            a@.take(i as int) == b@.take(i as int),
        decreases a@.len() - i,
    {
        assert(a@[i as int] == a.0@[i as int]@);
        assert(b@[i as int] == b.0@[i as int]@);
        match name_order(&a.0[i], &b.0[i]) {
            TextOrder::Less => {
                assert(names_differ(a@, b@, i as int));
                return TextOrder::Less;
            },
            TextOrder::Equal => {},
            TextOrder::Greater => {
                assert(names_differ(b@, a@, i as int));
                return TextOrder::Greater;
            },
        }
        assert(a@.take(i + 1) =~= a@.take(i as int).push(a@[i as int]));
        assert(b@.take(i + 1) =~= b@.take(i as int).push(b@[i as int]));
        i = i + 1;
    }
    if i < b.0.len() {
        assert(names_differ(a@, b@, i as int));
        TextOrder::Less
    } else if i < a.0.len() {
        assert(names_differ(b@, a@, i as int));
        TextOrder::Greater
    } else {
        assert(a@.take(i as int) =~= a@);
        assert(b@.take(i as int) =~= b@);
        TextOrder::Equal
    }
}

/// Whether a module needs a shared part: all its modules share it, and it is not the part itself.
pub open spec fn needs_part(
    shared: Seq<SharedEntry>,
    name: SplitName,
    skipped: Option<usize>,
    i: int,
) -> bool {
    0 <= i < shared.len() && is_part(name, shared[i].names()) && skipped != Some(i as usize)
}

/// The shared parts that belong to all modules that a name stands for.
fn get_deps(shared_deps: &[SharedEntry], id: &SplitModuleIdentifier) -> (r: Vec<usize>)
    ensures
        forall|k: int|
            0 <= k < r@.len() ==> (#[trigger] r@[k]) < shared_deps@.len() && is_part(
                id@,
                shared_deps@[r@[k] as int].names(),
            ),
        forall|i: int|
            0 <= i < shared_deps@.len() && is_part(
                id@,
                (#[trigger] shared_deps@[i]).names(),
            ) ==> r@.contains(i as usize),
        forall|a: int, b: int|
            #![trigger r@[a], r@[b]]
            0 <= a < b < r@.len() ==> r@[a] < r@[b],
{
    let mut result: Vec<usize> = Vec::new();
    let mut i: usize = 0;
    while i < shared_deps.len()
        invariant
            i <= shared_deps@.len(),
            forall|k: int|
                0 <= k < result@.len() ==> (#[trigger] result@[k]) < i && is_part(
                    id@,
                    shared_deps@[result@[k] as int].names(),
                ),
            forall|j: int|
                0 <= j < i && is_part(
                    id@,
                    (#[trigger] shared_deps@[j]).names(),
                ) ==> result@.contains(j as usize),
            forall|a: int, b: int|
                #![trigger result@[a], result@[b]]
                0 <= a < b < result@.len() ==> result@[a] < result@[b],
        decreases shared_deps@.len() - i,
    {
        let names = shared_deps[i].module_names.as_slice();
        let needed = match id {
            SplitModuleIdentifier::Single(name) => contains_module(names, name),
            SplitModuleIdentifier::Shared(shared) => contains_modules(names, shared.0.as_slice()),
        };
        let ghost before = result@;
        if needed {
            result.push(i);
            proof {
                assert(result@[before.len() as int] == i);
                assert forall|j: int|
                    0 <= j < i + 1 && is_part(
                        id@,
                        (#[trigger] shared_deps@[j]).names(),
                    ) implies result@.contains(j as usize) by {
                    if j < i {
                        let k = choose|k: int| 0 <= k < before.len() && before[k] == j as usize;
                        assert(result@[k] == j as usize);
                    }
                }
            }
        }
        i = i + 1;
    }
    result
}

/// Whether dependencies are what a module needs of the first `count` shared parts: for each name
/// of a part the entities of the last part with this name that the module imports, in the order of
/// the names.
pub open spec fn are_deps(
    deps: Seq<(Seq<ModuleName>, Set<FlatEntityRef>)>,
    shared: Seq<SharedEntry>,
    name: SplitName,
    imports: Set<FlatEntityRef>,
    skipped: Option<usize>,
    count: int,
) -> bool {
    &&& forall|i: int, j: int|
        #![trigger deps[i], deps[j]]
        0 <= i < j < deps.len() ==> names_less(deps[i].0, deps[j].0)
    &&& forall|d: int| 0 <= d < deps.len() ==> is_dep(#[trigger] deps[d], shared, name, imports, skipped, count)
    &&& forall|i: int|
        0 <= i < count && needs_part(shared, name, skipped, i) ==> has_dep(
            deps,
            (#[trigger] shared[i]).names(),
        )
}

/// Whether there is a dependency on a part with some names.
pub open spec fn has_dep(
    deps: Seq<(Seq<ModuleName>, Set<FlatEntityRef>)>,
    names: Seq<ModuleName>,
) -> bool {
    exists|d: int| 0 <= d < deps.len() && (#[trigger] deps[d]).0 == names
}

/// Whether a dependency comes from the last of the first `count` parts with its names.
pub open spec fn is_dep(
    dep: (Seq<ModuleName>, Set<FlatEntityRef>),
    shared: Seq<SharedEntry>,
    name: SplitName,
    imports: Set<FlatEntityRef>,
    skipped: Option<usize>,
    count: int,
) -> bool {
    exists|i: int|
        {
            &&& 0 <= i < count
            &&& needs_part(shared, name, skipped, i)
            &&& (#[trigger] shared[i]).names() == dep.0
            &&& dep.1 == shared[i].exports@.intersect(imports)
            &&& forall|j: int|
                i < j < count && needs_part(shared, name, skipped, j) ==> (
                #[trigger] shared[j]).names() != dep.0
        }
}

/// The members of a set that are in another set.
fn common(a: &EntitySet, b: &EntitySet) -> (r: EntitySet)
    requires
        a.wf(),
        b.wf(),
    ensures
        r.wf(),
        r@ == a@.intersect(b@),
{
    let mut result = EntitySet::new();
    let items = a.as_slice();
    let mut i: usize = 0;
    assert(result@ =~= items@.take(0).to_set().intersect(b@));
    while i < items.len()
        invariant
            i <= items@.len(),
            items@ == a.seq(),
            b.wf(),
            result.wf(),
            result@ == items@.take(i as int).to_set().intersect(b@),
        decreases items@.len() - i,
    {
        let ghost so_far = items@.take(i as int);
        let ghost longer = items@.take(i + 1);
        proof {
            assert(longer =~= so_far.push(items@[i as int]));
            assert forall|e: FlatEntityRef| longer.contains(e) <==> so_far.contains(e) || e
                == items@[i as int] by {
                if so_far.contains(e) {
                    let k = choose|k: int| 0 <= k < so_far.len() && so_far[k] == e;
                    assert(longer[k] == e);
                }
                assert(longer[i as int] == items@[i as int]);
            }
        }
        if b.contains(items[i]) {
            let _ = result.insert(items[i]);
        }
        i = i + 1;
        assert(result@ =~= longer.to_set().intersect(b@));
    }
    assert(items@.take(i as int) =~= items@);
    result
}

/// The number of dependencies before one with some names, and whether there is one.
fn find_dep(
    deps: &Vec<(SharedModuleIdentifier, EntitySet)>,
    id: &SharedModuleIdentifier,
    Ghost(view): Ghost<Seq<(Seq<ModuleName>, Set<FlatEntityRef>)>>,
) -> (r: (usize, bool))
    requires
        view == dependency_views(deps@),
        forall|i: int, j: int|
            #![trigger view[i], view[j]]
            0 <= i < j < view.len() ==> names_less(view[i].0, view[j].0),
    ensures
        r.0 <= view.len(),
        r.1 == has_dep(view, id@),
        r.1 ==> r.0 < view.len() && view[r.0 as int].0 == id@,
        forall|i: int| 0 <= i < r.0 ==> names_less((#[trigger] view[i]).0, id@),
        !r.1 ==> forall|i: int| r.0 <= i < view.len() ==> names_less(id@, (#[trigger] view[i]).0),
{
    let mut i: usize = 0;
    while i < deps.len()
        invariant
            i <= view.len(),
            view == dependency_views(deps@),
            forall|i: int, j: int|
                #![trigger view[i], view[j]]
                0 <= i < j < view.len() ==> names_less(view[i].0, view[j].0),
            forall|j: int| 0 <= j < i ==> names_less((#[trigger] view[j]).0, id@),
        decreases view.len() - i,
    {
        assert(view[i as int].0 == deps@[i as int].0@);
        match names_order(&deps[i].0, id) {
            TextOrder::Less => {},
            TextOrder::Equal => {
                assert(has_dep(view, id@));
                return (i, true);
            },
            TextOrder::Greater => {
                proof {
                    assert forall|j: int| i <= j < view.len() implies names_less(
                        id@,
                        (#[trigger] view[j]).0,
                    ) by {
                        if j > i {
                            lemma_names_less_is_transitive(id@, view[i as int].0, view[j].0);
                        }
                    }
                    assert forall|j: int| 0 <= j < view.len() implies (#[trigger] view[j]).0
                        != id@ by {
                        if j < i {
                            lemma_names_less_is_asymmetric(view[j].0, id@);
                        } else {
                            lemma_names_less_is_asymmetric(id@, view[j].0);
                        }
                    }
                }
                return (i, false);
            },
        }
        i = i + 1;
    }
    proof {
        assert forall|j: int| 0 <= j < view.len() implies (#[trigger] view[j]).0 != id@ by {
            lemma_names_less_is_asymmetric(view[j].0, id@);
        }
    }
    (i, false)
}

proof fn lemma_deps_keep(
    deps: Seq<(Seq<ModuleName>, Set<FlatEntityRef>)>,
    shared: Seq<SharedEntry>,
    name: SplitName,
    imports: Set<FlatEntityRef>,
    skipped: Option<usize>,
    from: int,
    to: int,
)
    requires
        are_deps(deps, shared, name, imports, skipped, from),
        0 <= from <= to <= shared.len(),
        forall|i: int| from <= i < to ==> !needs_part(shared, name, skipped, i),
    ensures
        are_deps(deps, shared, name, imports, skipped, to),
{
    assert forall|d: int| 0 <= d < deps.len() implies is_dep(
        #[trigger] deps[d],
        shared,
        name,
        imports,
        skipped,
        to,
    ) by {
        assert(is_dep(deps[d], shared, name, imports, skipped, from));
        let i = choose|i: int|
            {
                &&& 0 <= i < from
                &&& needs_part(shared, name, skipped, i)
                &&& (#[trigger] shared[i]).names() == deps[d].0
                &&& deps[d].1 == shared[i].exports@.intersect(imports)
                &&& forall|j: int|
                    i < j < from && needs_part(shared, name, skipped, j) ==> (
                    #[trigger] shared[j]).names() != deps[d].0
            };
        assert(shared[i].names() == deps[d].0);
    }
}

proof fn lemma_dep_added(
    before: Seq<(Seq<ModuleName>, Set<FlatEntityRef>)>,
    after: Seq<(Seq<ModuleName>, Set<FlatEntityRef>)>,
    shared: Seq<SharedEntry>,
    name: SplitName,
    imports: Set<FlatEntityRef>,
    skipped: Option<usize>,
    i: int,
    at: int,
    found: bool,
)
    requires
        are_deps(before, shared, name, imports, skipped, i),
        0 <= i < shared.len(),
        needs_part(shared, name, skipped, i),
        0 <= at <= before.len(),
        found == has_dep(before, shared[i].names()),
        ({
            let dep = (shared[i].names(), shared[i].exports@.intersect(imports));
            if found {
                &&& at < before.len()
                &&& before[at].0 == shared[i].names()
                &&& after == before.update(at, dep)
            } else {
                &&& forall|k: int| 0 <= k < at ==> names_less((#[trigger] before[k]).0, dep.0)
                &&& forall|k: int|
                    at <= k < before.len() ==> names_less(dep.0, (#[trigger] before[k]).0)
                &&& after == before.insert(at, dep)
            }
        }),
    ensures
        are_deps(after, shared, name, imports, skipped, i + 1),
{
    let names = shared[i].names();
    let dep = (names, shared[i].exports@.intersect(imports));
    assert(is_dep(dep, shared, name, imports, skipped, i + 1)) by {
        assert(shared[i].names() == dep.0);
    }
    assert forall|d: int| 0 <= d < after.len() implies is_dep(
        #[trigger] after[d],
        shared,
        name,
        imports,
        skipped,
        i + 1,
    ) by {
        if d != at {
            let e = if found || d < at {
                d
            } else {
                d - 1
            };
            assert(after[d] == before[e]);
            assert(is_dep(before[e], shared, name, imports, skipped, i));
            assert(before[e].0 != names) by {
                if found {
                    if e < at {
                        lemma_names_less_is_asymmetric(before[e].0, before[at].0);
                    } else {
                        lemma_names_less_is_asymmetric(before[at].0, before[e].0);
                    }
                }
            }
            let k = choose|k: int|
                {
                    &&& 0 <= k < i
                    &&& needs_part(shared, name, skipped, k)
                    &&& (#[trigger] shared[k]).names() == before[e].0
                    &&& before[e].1 == shared[k].exports@.intersect(imports)
                    &&& forall|j: int|
                        k < j < i && needs_part(shared, name, skipped, j) ==> (
                        #[trigger] shared[j]).names() != before[e].0
                };
            assert(shared[k].names() == after[d].0);
        }
    }
    assert forall|a: int, b: int|
        #![trigger after[a], after[b]]
        0 <= a < b < after.len() implies names_less(after[a].0, after[b].0) by {
        if found {
            assert(names_less(before[a].0, before[b].0));
        } else {
            let x = if a < at {
                a
            } else {
                a - 1
            };
            let y = if b < at {
                b
            } else {
                b - 1
            };
            if a != at && b != at {
                assert(names_less(before[x].0, before[y].0));
            } else if a == at {
                assert(names_less(dep.0, before[y].0));
            } else {
                assert(names_less(before[x].0, dep.0));
            }
        }
    }
    assert forall|k: int|
        0 <= k < i + 1 && needs_part(shared, name, skipped, k) implies has_dep(
        after,
        (#[trigger] shared[k]).names(),
    ) by {
        if shared[k].names() == names {
            assert(after[at].0 == names);
        } else {
            assert(k < i);
            assert(has_dep(before, shared[k].names()));
            let d = choose|d: int|
                0 <= d < before.len() && (#[trigger] before[d]).0 == shared[k].names();
            if found || d < at {
                assert(after[d].0 == shared[k].names());
            } else {
                assert(after[d + 1].0 == shared[k].names());
            }
        }
    }
}

/// What a module needs of shared parts.
pub(crate) fn calculate_deps(
    shared_deps: &[SharedEntry],
    id: &SplitModuleIdentifier,
    imports: &EntitySet,
    shared_index: Option<usize>,
) -> (r: Vec<(SharedModuleIdentifier, EntitySet)>)
    requires
        entries_valid(shared_deps@),
        imports.wf(),
    ensures
        are_deps(
            dependency_views(r@),
            shared_deps@,
            id@,
            imports@,
            shared_index,
            shared_deps@.len() as int,
        ),
{
    let ghost shared = shared_deps@;
    let count: usize = shared_deps.len();
    let dep_modules = get_deps(shared_deps, id);
    let mut deps: Vec<(SharedModuleIdentifier, EntitySet)> = Vec::new();
    let ghost mut done: int = 0;
    let mut k: usize = 0;
    assert(dependency_views(deps@) =~= Seq::<(Seq<ModuleName>, Set<FlatEntityRef>)>::empty());
    while k < dep_modules.len()
        invariant
            k <= dep_modules@.len(),
            shared == shared_deps@,
            count == shared.len(),
            entries_valid(shared),
            imports.wf(),
            forall|k: int|
                0 <= k < dep_modules@.len() ==> (#[trigger] dep_modules@[k]) < shared.len()
                    && is_part(id@, shared[dep_modules@[k] as int].names()),
            forall|i: int|
                0 <= i < shared.len() && is_part(
                    id@,
                    (#[trigger] shared[i]).names(),
                ) ==> dep_modules@.contains(i as usize),
            forall|a: int, b: int|
                #![trigger dep_modules@[a], dep_modules@[b]]
                0 <= a < b < dep_modules@.len() ==> dep_modules@[a] < dep_modules@[b],
            done == if k == 0 {
                0
            } else {
                dep_modules@[k - 1] + 1
            },
            0 <= done <= shared.len(),
            are_deps(dependency_views(deps@), shared, id@, imports@, shared_index, done),
        decreases dep_modules@.len() - k,
    {
        let index: usize = dep_modules[k];
        let ghost before = dependency_views(deps@);
        proof {
            assert forall|i: int| done <= i < index implies !needs_part(
                shared,
                id@,
                shared_index,
                i,
            ) by {
                if is_part(id@, shared[i].names()) {
                    let m = choose|m: int|
                        0 <= m < dep_modules@.len() && dep_modules@[m] == i as usize;
                    if m >= k {
                        assert(m > k ==> dep_modules@[k as int] < dep_modules@[m]);
                    } else {
                        assert(m < k - 1 ==> dep_modules@[m] < dep_modules@[k - 1]);
                    }
                }
            }
            if k > 0 {
                assert(dep_modules@[k - 1] < dep_modules@[k as int]);
            }
            lemma_deps_keep(before, shared, id@, imports@, shared_index, done, index as int);
        }
        let skip = match shared_index {
            Some(own) => own == index,
            None => false,
        };
        if !skip {
            let part = &shared_deps[index];
            assert(shared[index as int].wf());
            let dep_id = copied_id(part);
            let symbols = common(&part.exports, imports);
            let (at, found) = find_dep(&deps, &dep_id, Ghost(before));
            let ghost dep = (dep_id@, symbols@);
            if found {
                deps.set(at, (dep_id, symbols));
                assert(dependency_views(deps@) =~= before.update(at as int, dep));
            } else {
                deps.insert(at, (dep_id, symbols));
                assert(dependency_views(deps@) =~= before.insert(at as int, dep));
            }
            proof {
                lemma_dep_added(
                    before,
                    dependency_views(deps@),
                    shared,
                    id@,
                    imports@,
                    shared_index,
                    index as int,
                    at as int,
                    found,
                );
            }
        } else {
            proof {
                lemma_deps_keep(
                    before,
                    shared,
                    id@,
                    imports@,
                    shared_index,
                    index as int,
                    index + 1,
                );
            }
        }
        proof {
            done = index + 1;
        }
        k = k + 1;
    }
    proof {
        assert forall|i: int| done <= i < shared.len() implies !needs_part(
            shared,
            id@,
            shared_index,
            i,
        ) by {
            if is_part(id@, shared[i].names()) {
                let m = choose|m: int| 0 <= m < dep_modules@.len() && dep_modules@[m] == i as usize;
                assert(m < k - 1 ==> dep_modules@[m] < dep_modules@[k - 1]);
            }
        }
        lemma_deps_keep(
            dependency_views(deps@),
            shared,
            id@,
            imports@,
            shared_index,
            done,
            shared.len() as int,
        );
    }
    deps
}

/// The name of a shared part.
pub(crate) fn copied_id(part: &SharedEntry) -> (r: SharedModuleIdentifier)
    ensures
        r@ == part.names(),
{
    let mut names: Vec<ModuleIdentifier> = Vec::new();
    let mut i: usize = 0;
    while i < part.module_names.len()
        invariant
            i <= part.module_names@.len(),
            names@ == part.module_names@.take(i as int),
        decreases part.module_names@.len() - i,
    {
        names.push(part.module_names[i].clone());
        i = i + 1;
        assert(names@ =~= part.module_names@.take(i as int));
    }
    assert(part.module_names@.take(i as int) =~= part.module_names@);
    SharedModuleIdentifier(names)
}

} // verus!
