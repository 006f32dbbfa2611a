//! Splits a program into modules.
use crate::analysis::entity_set::EntitySet;
use crate::analysis::modules::{
    are_deps, calculate_deps, content_of, copied_id, entries_valid, ModuleContent, NamedGraph,
    NamedModule, OutputModuleInfo, SharedEntry,
};
use crate::analysis::names::sorted_by_text;
use crate::analysis::split_point::{
    are_groups, contains_module, has_group, lemma_no_points, merge_split_points_by_name,
    module_text, owned_groups, point_id, points_of, ModuleIdentifier, SplitModuleIdentifier,
    SplitName, SplitPoint,
};
use crate::index::{SecondaryMap, TempIndex};
use crate::typed::snapshot::FlatEntityRef;
use vstd::prelude::*;

verus! {

/// Whether the main module shares a part.
pub open spec fn with_main(part: SharedEntry) -> bool {
    part.names().contains(None)
}

/// Which parts the main module does not share.
pub open spec fn without_main() -> spec_fn(SharedEntry) -> bool {
    |part: SharedEntry| !with_main(part)
}

/// What the parts export that the main module shares.
pub open spec fn main_exports(shared: Seq<SharedEntry>) -> Set<FlatEntityRef>
    decreases shared.len(),
{
    if shared.len() == 0 {
        Set::empty()
    } else if with_main(shared.last()) {
        main_exports(shared.drop_last()).union(shared.last().exports@)
    } else {
        main_exports(shared.drop_last())
    }
}

/// What the parts define that the main module shares.
pub open spec fn main_deps(shared: Seq<SharedEntry>) -> Set<FlatEntityRef>
    decreases shared.len(),
{
    if shared.len() == 0 {
        Set::empty()
    } else if with_main(shared.last()) {
        main_deps(shared.drop_last()).union(shared.last().shared_deps@)
    } else {
        main_deps(shared.drop_last())
    }
}

/// Whether one of some modules imports an entity.
pub open spec fn imported_by(modules: Seq<NamedModule>, entity: FlatEntityRef) -> bool {
    exists|i: int| 0 <= i < modules.len() && (#[trigger] modules[i]).1.imports@.contains(entity)
}

/// The entities that one of some modules imports.
pub open spec fn imported(modules: Seq<NamedModule>) -> Set<FlatEntityRef> {
    Set::new(|entity: FlatEntityRef| imported_by(modules, entity))
}

/// Whether the sets of entities of all modules are valid.
pub open spec fn modules_valid(modules: Seq<NamedModule>) -> bool {
    forall|i: int| 0 <= i < modules.len() ==> (#[trigger] modules[i]).1.wf()
}

/// The main module with the parts that it shares.
pub open spec fn merged_main(
    main: ModuleContent,
    others: Seq<NamedModule>,
    shared: Seq<SharedEntry>,
) -> ModuleContent {
    ModuleContent {
        defined: main.defined.union(main_deps(shared)),
        imports: main.imports.difference(main_exports(shared)),
        exports: main.exports.union(main_exports(shared).intersect(imported(others))),
        ..main
    }
}

fn is_imported_by_other(modules: &[NamedModule], entity: FlatEntityRef) -> (r: bool)
    requires
        modules_valid(modules@),
    ensures
        r == imported_by(modules@, entity),
{
    let mut i: usize = 0;
    while i < modules.len()
        invariant
            i <= modules@.len(),
            modules_valid(modules@),
            forall|j: int|
                0 <= j < i ==> !(#[trigger] modules@[j]).1.imports@.contains(entity),
        decreases modules@.len() - i,
    {
        assert(modules@[i as int].1.wf());
        if modules[i].1.imports.contains(entity) {
            return true;
        }
        i = i + 1;
    }
    false
}

proof fn lemma_to_set_push(items: Seq<FlatEntityRef>, i: int)
    requires
        0 <= i < items.len(),
    ensures
        items.take(i + 1).to_set() == items.take(i).to_set().insert(items[i]),
{
    let longer = items.take(i + 1);
    let shorter = items.take(i);
    assert forall|e: FlatEntityRef| longer.contains(e) <==> shorter.contains(e) || e == items[i] by {
        if shorter.contains(e) {
            let k = choose|k: int| 0 <= k < shorter.len() && shorter[k] == e;
            assert(longer[k] == e);
        }
        if longer.contains(e) {
            let k = choose|k: int| 0 <= k < longer.len() && longer[k] == e;
            if k < i {
                assert(shorter[k] == e);
            }
        }
        assert(longer[i] == items[i]);
    }
    assert(longer.to_set() =~= shorter.to_set().insert(items[i]));
}

/// Moves a shared part into the main module: what it exports is not imported any more, but
/// exported where other modules import it.
fn merge_part(main: &mut OutputModuleInfo, others: &[NamedModule], part: &SharedEntry)
    requires
        old(main).wf(),
        part.wf(),
        modules_valid(others@),
    ensures
        final(main).wf(),
        final(main).defined_symbols@ == old(main).defined_symbols@.union(part.shared_deps@),
        final(main).imports@ == old(main).imports@.difference(part.exports@),
        final(main).exports@ == old(main).exports@.union(
            part.exports@.intersect(imported(others@)),
        ),
        final(main).split_points == old(main).split_points,
        final(main).dependencies == old(main).dependencies,
{
    let ghost before = *main;
    let nodes = part.exports.as_slice();
    let ghost all = nodes@;
    let mut i: usize = 0;
    proof {
        assert(main.imports@ =~= before.imports@.difference(all.take(0).to_set()));
        assert(main.exports@ =~= before.exports@.union(
            all.take(0).to_set().intersect(imported(others@)),
        ));
    }
    while i < nodes.len()
        invariant
            i <= all.len(),
            all == nodes@,
            modules_valid(others@),
            main.wf(),
            main.defined_symbols == before.defined_symbols,
            main.split_points == before.split_points,
            main.dependencies == before.dependencies,
            main.imports@ == before.imports@.difference(all.take(i as int).to_set()),
            main.exports@ == before.exports@.union(
                all.take(i as int).to_set().intersect(imported(others@)),
            ),
        decreases all.len() - i,
    {
        let node = nodes[i];
        proof {
            lemma_to_set_push(all, i as int);
        }
        let _ = main.imports.remove(node);
        if is_imported_by_other(others, node) {
            let _ = main.exports.insert(node);
        }
        proof {
            let longer = all.take(i + 1).to_set();
            assert(main.imports@ =~= before.imports@.difference(longer));
            assert(main.exports@ =~= before.exports@.union(longer.intersect(imported(others@))));
        }
        i = i + 1;
    }
    assert(all.take(i as int) =~= all);
    main.defined_symbols.extend(&part.shared_deps);
}

/// Merges the parts that the main module shares into it. The other parts stay.
pub fn merge_shared_with_main(
    main: &mut NamedModule,
    regular_modules: &[NamedModule],
    shared: &mut Vec<SharedEntry>,
)
    requires
        old(main).0@ == SplitName::Single(None),
        old(main).1.wf(),
        modules_valid(regular_modules@),
        entries_valid(old(shared)@),
        old(main).1.imports@.subset_of(main_exports(old(shared)@)),
    ensures
        content_of(*final(main)) == merged_main(
            content_of(*old(main)),
            regular_modules@,
            old(shared)@,
        ),
        final(main).1.wf(),
        final(main).1.imports@ == Set::<FlatEntityRef>::empty(),
        final(shared)@ == old(shared)@.filter(without_main()),
{
    let ghost before = *main;
    let ghost all = shared@;
    let mut taken: Vec<SharedEntry> = Vec::new();
    core::mem::swap(&mut taken, shared);
    let mut other_shared: Vec<SharedEntry> = Vec::new();
    proof {
        reveal(Seq::filter);
        assert(all.take(0).filter(without_main()) =~= Seq::<SharedEntry>::empty());
        assert(main.1.imports@ =~= before.1.imports@.difference(main_exports(all.take(0))));
        assert(main.1.exports@ =~= before.1.exports@.union(
            main_exports(all.take(0)).intersect(imported(regular_modules@)),
        ));
        assert(main.1.defined_symbols@ =~= before.1.defined_symbols@.union(
            main_deps(all.take(0)),
        ));
    }
    for part in it: taken
        invariant
            it.seq() == all,
            entries_valid(all),
            modules_valid(regular_modules@),
            main.0 == before.0,
            main.1.wf(),
            main.1.split_points == before.1.split_points,
            main.1.dependencies == before.1.dependencies,
            main.1.imports@ == before.1.imports@.difference(
                main_exports(all.take(it.index() as int)),
            ),
            main.1.exports@ == before.1.exports@.union(
                main_exports(all.take(it.index() as int)).intersect(imported(regular_modules@)),
            ),
            main.1.defined_symbols@ == before.1.defined_symbols@.union(
                main_deps(all.take(it.index() as int)),
            ),
            other_shared@ == all.take(it.index() as int).filter(without_main()),
    {
        let ghost i = it.index() as int;
        proof {
            assert(part == all[i]);
            assert(all[i].wf());
            assert(all.take(i + 1).drop_last() =~= all.take(i));
            assert(all.take(i + 1).last() == part);
            reveal(Seq::filter);
        }
        if contains_module(part.module_names.as_slice(), &ModuleIdentifier::Main) {
            merge_part(&mut main.1, regular_modules, &part);
            proof {
                let exports = main_exports(all.take(i + 1));
                assert(main.1.imports@ =~= before.1.imports@.difference(exports));
                assert(main.1.exports@ =~= before.1.exports@.union(
                    exports.intersect(imported(regular_modules@)),
                ));
                assert(main.1.defined_symbols@ =~= before.1.defined_symbols@.union(
                    main_deps(all.take(i + 1)),
                ));
            }
        } else {
            other_shared.push(part);
        }
    }
    proof {
        assert(all.take(all.len() as int) =~= all);
        assert(main.1.imports@ =~= Set::<FlatEntityRef>::empty());
    }
    *shared = other_shared;
}

/// Which module defines an entity: the last one that does.
pub open spec fn owner_of(modules: Seq<NamedModule>, entity: nat) -> int
    decreases modules.len(),
{
    if modules.len() == 0 {
        0
    } else if exists|e: FlatEntityRef|
        e.id() == entity && modules.last().1.defined_symbols@.contains(e) {
        modules.len() - 1
    } else {
        owner_of(modules.drop_last(), entity)
    }
}

/// A program that is split into modules.
#[derive(Debug)]
pub struct SplitProgramInfo {
    pub output_modules: Vec<NamedModule>,
    /// The number of the module that defines an entity.
    pub symbol_output_module: SecondaryMap<FlatEntityRef, usize>,
}

/// Finds the modules that define entities.
fn symbol_owners(modules: &Vec<NamedModule>) -> (r: SecondaryMap<FlatEntityRef, usize>)
    ensures
        forall|k: nat| #[trigger] r.value(k) == owner_of(modules@, k),
{
    let mut owners: SecondaryMap<FlatEntityRef, usize> = SecondaryMap::with_default(0);
    let ghost all = modules@;
    let mut m: usize = 0;
    while m < modules.len()
        invariant
            m <= all.len(),
            all == modules@,
            forall|k: nat| #[trigger] owners.value(k) == owner_of(all.take(m as int), k),
        decreases all.len() - m,
    {
        let symbols = modules[m].1.defined_symbols.as_slice();
        let ghost items = symbols@;
        let ghost earlier = all.take(m as int);
        let mut i: usize = 0;
        while i < symbols.len()
            invariant
                i <= items.len(),
                items == symbols@,
                m < all.len(),
                earlier == all.take(m as int),
                forall|k: nat| #[trigger]
                    owners.value(k) == if exists|j: int|
                        0 <= j < i && (#[trigger] items[j]).id() == k {
                        m as int
                    } else {
                        owner_of(earlier, k)
                    },
            decreases items.len() - i,
        {
            let ghost before = owners;
            let symbol = symbols[i];
            owners.set(symbol, m);
            proof {
                assert forall|k: nat| #[trigger] owners.value(k) == if exists|j: int|
                    0 <= j < i + 1 && (#[trigger] items[j]).id() == k {
                    m as int
                } else {
                    owner_of(earlier, k)
                } by {
                    if k == symbol.id() {
                        assert(items[i as int].id() == k);
                    } else {
                        assert(before.value(k) == owners.value(k));
                        if exists|j: int| 0 <= j < i + 1 && (#[trigger] items[j]).id() == k {
                            let j = choose|j: int| 0 <= j < i + 1 && (#[trigger] items[j]).id() == k;
                            assert(j < i);
                        }
                    }
                }
            }
            i = i + 1;
        }
        proof {
            let longer = all.take(m + 1);
            assert(longer.drop_last() =~= earlier);
            assert(longer.last() == all[m as int]);
            assert forall|k: nat| #[trigger] owners.value(k) == owner_of(longer, k) by {
                let set = all[m as int].1.defined_symbols@;
                if exists|j: int| 0 <= j < items.len() && (#[trigger] items[j]).id() == k {
                    let j = choose|j: int| 0 <= j < items.len() && (#[trigger] items[j]).id() == k;
                    assert(items.contains(items[j]));
                    assert(set.contains(items[j]));
                } else {
                    assert forall|e: FlatEntityRef| e.id() == k implies !set.contains(e) by {
                        if items.contains(e) {
                            let j = choose|j: int| 0 <= j < items.len() && items[j] == e;
                            assert(items[j].id() == k);
                        }
                    }
                }
            }
        }
        m = m + 1;
    }
    assert(all.take(m as int) =~= all);
    owners
}

/// The split points of a module.
fn points_of_module(
    groups: &Vec<(String, Vec<SplitPoint>)>,
    name: &String,
    Ghost(points): Ghost<Seq<SplitPoint>>,
) -> (r: Vec<SplitPoint>)
    requires
        are_groups(owned_groups(groups@), points),
    ensures
        r@ == sorted_by_text(points_of(points, name@), point_id()),
{
    let ghost view = owned_groups(groups@);
    let mut g: usize = 0;
    while g < groups.len()
        invariant
            g <= groups@.len(),
            view == owned_groups(groups@),
            are_groups(view, points),
            forall|h: int| 0 <= h < g ==> (#[trigger] view[h]).0 != name@,
        decreases groups@.len() - g,
    {
        assert(view[g as int].0 == groups@[g as int].0@);
        if groups[g].0 == *name {
            return copy_points(&groups[g].1);
        }
        g = g + 1;
    }
    proof {
        assert(!has_group(view, name@));
        lemma_no_points(points, view, name@);
    }
    Vec::new()
}

fn copy_points(points: &Vec<SplitPoint>) -> (r: Vec<SplitPoint>)
    ensures
        r@ == points@,
{
    let mut result: Vec<SplitPoint> = Vec::new();
    let mut i: usize = 0;
    while i < points.len()
        invariant
            i <= points@.len(),
            result@ == points@.take(i as int),
        decreases points@.len() - i,
    {
        result.push(points[i].clone());
        i = i + 1;
        assert(result@ =~= points@.take(i as int));
    }
    assert(points@.take(i as int) =~= points@);
    result
}

/// Whether a module holds what one of the named modules reaches.
pub open spec fn is_single_module(
    content: ModuleContent,
    named: NamedGraph,
    points: Seq<SplitPoint>,
    shared: Seq<SharedEntry>,
) -> bool {
    &&& content.name == SplitName::Single(named.module@)
    &&& content.defined == named.reachable@
    &&& content.imports == named.imports@
    &&& content.exports == Set::<FlatEntityRef>::empty()
    &&& content.split_points == sorted_by_text(
        points_of(points, module_text(named.module@)),
        point_id(),
    )
    &&& are_deps(
        content.dependencies,
        shared,
        content.name,
        named.imports@,
        None,
        shared.len() as int,
    )
}

/// Whether a module holds a shared part.
pub open spec fn is_shared_module(content: ModuleContent, shared: Seq<SharedEntry>, i: int) -> bool {
    &&& content.name == SplitName::Shared(shared[i].names())
    &&& content.defined == shared[i].shared_deps@
    &&& content.imports == shared[i].imports@
    &&& content.exports == shared[i].exports@
    &&& content.split_points == Seq::<SplitPoint>::empty()
    &&& are_deps(
        content.dependencies,
        shared,
        content.name,
        shared[i].imports@,
        Some(i as usize),
        shared.len() as int,
    )
}

/// The parts that get modules of their own.
pub open spec fn separate_parts(shared: Seq<SharedEntry>, merge_shared: bool) -> Seq<SharedEntry> {
    if merge_shared {
        shared.filter(without_main())
    } else {
        shared
    }
}

/// Makes a module of what each of the named modules reaches.
fn single_modules(
    named_modules: Vec<NamedGraph>,
    shared_deps: &Vec<SharedEntry>,
    split_points: &[SplitPoint],
) -> (r: Vec<NamedModule>)
    requires
        entries_valid(shared_deps@),
        forall|i: int|
            0 <= i < named_modules@.len() ==> (#[trigger] named_modules@[i]).reachable.wf()
                && named_modules@[i].imports.wf(),
    ensures
        r@.len() == named_modules@.len(),
        modules_valid(r@),
        forall|i: int|
            0 <= i < r@.len() ==> is_single_module(
                content_of(#[trigger] r@[i]),
                named_modules@[i],
                split_points@,
                shared_deps@,
            ),
{
    let groups = merge_split_points_by_name(split_points);
    let ghost all = named_modules@;
    let mut modules: Vec<NamedModule> = Vec::new();
    for named in it: named_modules
        invariant
            it.seq() == all,
            entries_valid(shared_deps@),
            are_groups(owned_groups(groups@), split_points@),
            forall|i: int|
                0 <= i < all.len() ==> (#[trigger] all[i]).reachable.wf() && all[i].imports.wf(),
            modules@.len() == it.index(),
            modules_valid(modules@),
            forall|i: int|
                0 <= i < modules@.len() ==> is_single_module(
                    content_of(#[trigger] modules@[i]),
                    all[i],
                    split_points@,
                    shared_deps@,
                ),
    {
        assert(named == all[it.index() as int]);
        let text = named.module.to_text();
        let points = points_of_module(&groups, &text, Ghost(split_points@));
        let id = SplitModuleIdentifier::Single(named.module);
        let dependencies = calculate_deps(shared_deps.as_slice(), &id, &named.imports, None);
        let exports = EntitySet::new();
        modules.push(
            (
                id,
                OutputModuleInfo {
                    defined_symbols: named.reachable,
                    imports: named.imports,
                    exports,
                    split_points: points,
                    dependencies,
                },
            ),
        );
    }
    modules
}

/// Whether a split program holds what its modules reach and share.
pub open spec fn is_split_program(
    program: SplitProgramInfo,
    named: Seq<NamedGraph>,
    shared: Seq<SharedEntry>,
    points: Seq<SplitPoint>,
    merge_shared: bool,
) -> bool {
    let modules = program.output_modules@;
    let singles = named.len() as int;
    let parts = separate_parts(shared, merge_shared);
    &&& modules.len() == singles + parts.len()
    &&& modules_valid(modules)
    &&& exists|plain: Seq<NamedModule>|
        {
            &&& plain.len() == singles
            &&& #[trigger] are_plain_modules(plain, named, points, shared)
            &&& forall|i: int|
                0 <= i < singles ==> content_of(#[trigger] modules[i]) == if merge_shared && i
                    == 0 {
                    merged_main(content_of(plain[0]), plain.skip(1), shared)
                } else {
                    content_of(plain[i])
                }
        }
    &&& forall|i: int|
        singles <= i < modules.len() ==> is_shared_module(
            content_of(#[trigger] modules[i]),
            parts,
            i - singles,
        )
    &&& forall|k: nat| #[trigger] program.symbol_output_module.value(k) == owner_of(modules, k)
}

/// Computes the contents of the modules of a split program, from what its modules reach and what
/// they share.
///
/// The named modules come first, and the main module is the first of them. With `merge_shared` the
/// parts that the main module shares are merged into it. Every other part gets a module.
pub fn compute_split_modules(
    named_modules: Vec<NamedGraph>,
    shared_deps: Vec<SharedEntry>,
    split_points: &[SplitPoint],
    merge_shared: bool,
) -> (r: SplitProgramInfo)
    requires
        entries_valid(shared_deps@),
        forall|i: int|
            0 <= i < named_modules@.len() ==> (#[trigger] named_modules@[i]).reachable.wf()
                && named_modules@[i].imports.wf(),
        merge_shared ==> {
            &&& named_modules@.len() > 0
            &&& named_modules@[0].module@ is None
            &&& named_modules@[0].imports@.subset_of(main_exports(shared_deps@))
        },
    ensures
        is_split_program(r, named_modules@, shared_deps@, split_points@, merge_shared),
{
    let ghost all_shared = shared_deps@;
    let mut shared_deps = shared_deps;
    let mut modules = single_modules(named_modules, &shared_deps, split_points);
    let ghost plain = modules@;
    let ghost singles = named_modules@.len() as int;
    if merge_shared {
        let mut main = modules.remove(0);
        assert(is_single_module(
            content_of(plain[0]),
            named_modules@[0],
            split_points@,
            all_shared,
        ));
        assert(modules@ =~= plain.skip(1));
        assert(modules_valid(modules@)) by {
            assert forall|i: int| 0 <= i < modules@.len() implies (
            #[trigger] modules@[i]).1.wf() by {
                assert(plain[i + 1].1.wf());
            }
        }
        assert(plain[0].1.wf());
        merge_shared_with_main(&mut main, modules.as_slice(), &mut shared_deps);
        modules.insert(0, main);
        proof {
            assert forall|i: int| 0 <= i < modules@.len() implies (
            #[trigger] modules@[i]).1.wf() by {
                assert(plain[i].1.wf());
            }
            lemma_filtered_valid(all_shared);
        }
    }
    let ghost merged = modules@;
    let ghost parts = shared_deps@;
    let mut i: usize = 0;
    let count: usize = shared_deps.len();
    while i < shared_deps.len()
        invariant
            i <= parts.len(),
            count == parts.len(),
            parts == shared_deps@,
            entries_valid(parts),
            modules@.len() == singles + i,
            merged.len() == singles,
            0 <= singles,
            modules_valid(modules@),
            forall|j: int| 0 <= j < singles ==> #[trigger] modules@[j] == merged[j],
            forall|j: int|
                singles <= j < modules@.len() ==> is_shared_module(
                    content_of(#[trigger] modules@[j]),
                    parts,
                    j - singles,
                ),
        decreases parts.len() - i,
    {
        let shared = &shared_deps[i];
        assert(parts[i as int].wf());
        let id = SplitModuleIdentifier::Shared(copied_id(shared));
        let dependencies = calculate_deps(
            shared_deps.as_slice(),
            &id,
            &shared.imports,
            Some(i),
        );
        let info = OutputModuleInfo {
            defined_symbols: shared.shared_deps.copy(),
            imports: shared.imports.copy(),
            exports: shared.exports.copy(),
            split_points: Vec::new(),
            dependencies,
        };
        modules.push((id, info));
        i = i + 1;
    }
    let symbol_output_module = symbol_owners(&modules);
    proof {
        assert(are_plain_modules(plain, named_modules@, split_points@, all_shared));
    }
    SplitProgramInfo { output_modules: modules, symbol_output_module }
}

/// Whether modules hold what the named modules reach.
pub open spec fn are_plain_modules(
    modules: Seq<NamedModule>,
    named: Seq<NamedGraph>,
    points: Seq<SplitPoint>,
    shared: Seq<SharedEntry>,
) -> bool {
    forall|i: int|
        0 <= i < modules.len() ==> is_single_module(
            content_of(#[trigger] modules[i]),
            named[i],
            points,
            shared,
        )
}

proof fn lemma_filtered_valid(shared: Seq<SharedEntry>)
    requires
        entries_valid(shared),
    ensures
        entries_valid(shared.filter(without_main())),
{
    let kept = shared.filter(without_main());
    assert forall|i: int| 0 <= i < kept.len() implies (#[trigger] kept[i]).wf() by {
        assert(kept.contains(kept[i]));
        shared.lemma_filter_contains_rev(without_main(), kept[i]);
        let k = choose|k: int| 0 <= k < shared.len() && shared[k] == kept[i];
        assert(shared[k].wf());
    }
}

/// Nothing is lost when the parts that the main module shares are merged into it: it defines all
/// that they define, and exports all that other modules import of them.
pub proof fn lemma_merging_loses_nothing(
    main: ModuleContent,
    others: Seq<NamedModule>,
    shared: Seq<SharedEntry>,
    i: int,
    entity: FlatEntityRef,
)
    requires
        0 <= i < shared.len(),
        with_main(shared[i]),
    ensures
        shared[i].shared_deps@.contains(entity) ==> merged_main(
            main,
            others,
            shared,
        ).defined.contains(entity),
        shared[i].exports@.contains(entity) && imported_by(others, entity) ==> merged_main(
            main,
            others,
            shared,
        ).exports.contains(entity),
        shared[i].exports@.contains(entity) ==> !merged_main(
            main,
            others,
            shared,
        ).imports.contains(entity),
{
    lemma_part_is_merged(shared, i, entity);
}

proof fn lemma_part_is_merged(shared: Seq<SharedEntry>, i: int, entity: FlatEntityRef)
    requires
        0 <= i < shared.len(),
        with_main(shared[i]),
    ensures
        shared[i].shared_deps@.contains(entity) ==> main_deps(shared).contains(entity),
        shared[i].exports@.contains(entity) ==> main_exports(shared).contains(entity),
    decreases shared.len(),
{
    if i < shared.len() - 1 {
        lemma_part_is_merged(shared.drop_last(), i, entity);
    }
}

} // verus!
