//! What holds of the modules of a split program.
use crate::analysis::compute::{
    are_plain_modules, imported, imported_by, is_shared_module, is_single_module, is_split_program,
    main_deps, main_exports, merged_main, owner_of, separate_parts, with_main, without_main,
    SplitProgramInfo,
};
use crate::analysis::modules::{
    are_deps, content_of, dependency_views, has_dep, is_dep, needs_part, NamedGraph, NamedModule,
    SharedEntry,
};
use crate::analysis::names::lemma_sorted_by_text;
use crate::analysis::split_point::{
    is_point_of, module_text, point_id, points_of, ModuleName, SplitName, SplitPoint,
};
use crate::index::TempIndex;
use crate::typed::snapshot::FlatEntityRef;
use vstd::prelude::*;

verus! {

/// The number among the output modules of the module of a part.
proof fn lemma_part_module(
    program: SplitProgramInfo,
    named: Seq<NamedGraph>,
    shared: Seq<SharedEntry>,
    points: Seq<SplitPoint>,
    merge_shared: bool,
    k: int,
) -> (m: int)
    requires
        is_split_program(program, named, shared, points, merge_shared),
        0 <= k < shared.len(),
        !merge_shared || !with_main(shared[k]),
    ensures
        named.len() <= m < program.output_modules@.len(),
        separate_parts(shared, merge_shared)[m - named.len()] == shared[k],
        is_shared_module(
            content_of(program.output_modules@[m]),
            separate_parts(shared, merge_shared),
            m - named.len(),
        ),
{
    let parts = separate_parts(shared, merge_shared);
    if merge_shared {
        shared.lemma_filter_contains(without_main(), k);
        let p = choose|p: int| 0 <= p < parts.len() && parts[p] == shared[k];
        assert(parts[p] == shared[k]);
        named.len() + p
    } else {
        named.len() + k
    }
}

/// Every part that is not merged into the main module has a module of its own behind the named
/// ones. It has the names of the part, and defines, imports and exports what the part does.
pub proof fn lemma_parts_have_modules(
    program: SplitProgramInfo,
    named: Seq<NamedGraph>,
    shared: Seq<SharedEntry>,
    points: Seq<SplitPoint>,
    merge_shared: bool,
    k: int,
)
    requires
        is_split_program(program, named, shared, points, merge_shared),
        0 <= k < shared.len(),
        !merge_shared || !shared[k].names().contains(None),
    ensures
        exists|m: int|
            #![trigger program.output_modules@[m]]
            {
                &&& named.len() <= m < program.output_modules@.len()
                &&& program.output_modules@[m].0@ == SplitName::Shared(shared[k].names())
                &&& program.output_modules@[m].1.defined_symbols@ == shared[k].shared_deps@
                &&& program.output_modules@[m].1.imports@ == shared[k].imports@
                &&& program.output_modules@[m].1.exports@ == shared[k].exports@
                &&& program.output_modules@[m].1.split_points@.len() == 0
            },
{
    let m = lemma_part_module(program, named, shared, points, merge_shared, k);
    let module = program.output_modules@[m];
    assert(content_of(module).exports == module.1.exports@);
}

/// There are no other modules behind the named ones than those of parts that are not merged.
pub proof fn lemma_modules_have_parts(
    program: SplitProgramInfo,
    named: Seq<NamedGraph>,
    shared: Seq<SharedEntry>,
    points: Seq<SplitPoint>,
    merge_shared: bool,
    m: int,
)
    requires
        is_split_program(program, named, shared, points, merge_shared),
        named.len() <= m < program.output_modules@.len(),
    ensures
        exists|k: int|
            #![trigger shared[k]]
            {
                &&& 0 <= k < shared.len()
                &&& !merge_shared || !shared[k].names().contains(None)
                &&& program.output_modules@[m].0@ == SplitName::Shared(shared[k].names())
                &&& program.output_modules@[m].1.defined_symbols@ == shared[k].shared_deps@
            },
{
    let parts = separate_parts(shared, merge_shared);
    let p = m - named.len();
    let module = program.output_modules@[m];
    assert(is_shared_module(content_of(module), parts, p));
    if merge_shared {
        assert(parts.contains(parts[p]));
        shared.lemma_filter_contains_rev(without_main(), parts[p]);
        shared.lemma_filter_pred(without_main(), p);
        let k = choose|k: int| 0 <= k < shared.len() && shared[k] == parts[p];
        assert(shared[k] == parts[p]);
        assert(content_of(module).defined == module.1.defined_symbols@);
    } else {
        assert(shared[p] == parts[p]);
        assert(content_of(module).defined == module.1.defined_symbols@);
    }
}

/// The named modules come first, in their order and under their names. All but a merged main module
/// define what they reach, import what they import, and export nothing.
pub proof fn lemma_named_modules(
    program: SplitProgramInfo,
    named: Seq<NamedGraph>,
    shared: Seq<SharedEntry>,
    points: Seq<SplitPoint>,
    merge_shared: bool,
    i: int,
)
    requires
        is_split_program(program, named, shared, points, merge_shared),
        0 <= i < named.len(),
    ensures
        ({
            let module = program.output_modules@[i];
            &&& module.0@ == SplitName::Single(named[i].module@)
            &&& !merge_shared || i > 0 ==> {
                &&& module.1.defined_symbols@ == named[i].reachable@
                &&& module.1.imports@ == named[i].imports@
                &&& module.1.exports@ == Set::<FlatEntityRef>::empty()
            }
        }),
{
    let plain = lemma_plain(program, named, shared, points, merge_shared);
    assert(is_single_module(content_of(plain[i]), named[i], points, shared));
    let content = content_of(program.output_modules@[i]);
    if merge_shared && i == 0 {
        assert(content == merged_main(content_of(plain[0]), plain.skip(1), shared));
    }
    assert(content.name == program.output_modules@[i].0@);
}

/// The named modules before parts are merged.
proof fn lemma_plain(
    program: SplitProgramInfo,
    named: Seq<NamedGraph>,
    shared: Seq<SharedEntry>,
    points: Seq<SplitPoint>,
    merge_shared: bool,
) -> (plain: Seq<NamedModule>)
    requires
        is_split_program(program, named, shared, points, merge_shared),
    ensures
        plain.len() == named.len(),
        are_plain_modules(plain, named, points, shared),
        forall|i: int|
            0 <= i < named.len() ==> content_of(#[trigger] program.output_modules@[i])
                == if merge_shared && i == 0 {
                merged_main(content_of(plain[0]), plain.skip(1), shared)
            } else {
                content_of(plain[i])
            },
{
    choose|plain: Seq<NamedModule>|
        {
            &&& plain.len() == named.len()
            &&& #[trigger] are_plain_modules(plain, named, points, shared)
            &&& forall|i: int|
                0 <= i < named.len() ==> content_of(#[trigger] program.output_modules@[i])
                    == if merge_shared && i == 0 {
                    merged_main(content_of(plain[0]), plain.skip(1), shared)
                } else {
                    content_of(plain[i])
                }
        }
}

/// A named module holds a split point exactly where the split point belongs to it, and as often as
/// it is given.
pub proof fn lemma_split_points_go_to_their_modules(
    program: SplitProgramInfo,
    named: Seq<NamedGraph>,
    shared: Seq<SharedEntry>,
    points: Seq<SplitPoint>,
    merge_shared: bool,
    i: int,
    point: SplitPoint,
)
    requires
        is_split_program(program, named, shared, points, merge_shared),
        0 <= i < named.len(),
    ensures
        program.output_modules@[i].1.split_points@.contains(point) <==> points.contains(point)
            && point.module_name@ == module_text(named[i].module@),
        named[i].module@ matches Some(name) ==> (
        program.output_modules@[i].1.split_points@.contains(point) <==> points.contains(point)
            && point.module_name@ == name),
{
    broadcast use vstd::seq_lib::group_to_multiset_ensures;

    let plain = lemma_plain(program, named, shared, points, merge_shared);
    let name = module_text(named[i].module@);
    let own = points_of(points, name);
    let held = program.output_modules@[i].1.split_points@;
    assert(is_single_module(content_of(plain[i]), named[i], points, shared));
    let content = content_of(program.output_modules@[i]);
    assert(content.split_points == held);
    lemma_sorted_by_text(own, point_id());
    assert(held.to_multiset() == own.to_multiset());
    assert(held.contains(point) <==> held.to_multiset().contains(point));
    assert(own.contains(point) <==> own.to_multiset().contains(point));
    if own.contains(point) {
        points.lemma_filter_contains_rev(is_point_of(name), point);
        let j = choose|j: int| 0 <= j < own.len() && own[j] == point;
        points.lemma_filter_pred(is_point_of(name), j);
    }
    if points.contains(point) && point.module_name@ == name {
        let j = choose|j: int| 0 <= j < points.len() && points[j] == point;
        points.lemma_filter_contains(is_point_of(name), j);
    }
}

proof fn lemma_merged_parts(shared: Seq<SharedEntry>, entity: FlatEntityRef)
    ensures
        main_deps(shared).contains(entity) <==> exists|k: int|
            0 <= k < shared.len() && (#[trigger] shared[k]).names().contains(None)
                && shared[k].shared_deps@.contains(entity),
        main_exports(shared).contains(entity) <==> exists|k: int|
            0 <= k < shared.len() && (#[trigger] shared[k]).names().contains(None)
                && shared[k].exports@.contains(entity),
    decreases shared.len(),
{
    if shared.len() > 0 {
        let rest = shared.drop_last();
        lemma_merged_parts(rest, entity);
        let last = shared.len() - 1;
        assert(shared.last() == shared[last]);
        assert forall|k: int| 0 <= k < rest.len() implies #[trigger] rest[k] == shared[k] by {}
        if main_deps(rest).contains(entity) {
            let k = choose|k: int|
                0 <= k < rest.len() && (#[trigger] rest[k]).names().contains(None)
                    && rest[k].shared_deps@.contains(entity);
            assert(shared[k] == rest[k]);
        }
        if main_exports(rest).contains(entity) {
            let k = choose|k: int|
                0 <= k < rest.len() && (#[trigger] rest[k]).names().contains(None)
                    && rest[k].exports@.contains(entity);
            assert(shared[k] == rest[k]);
        }
        if exists|k: int|
            0 <= k < shared.len() && (#[trigger] shared[k]).names().contains(None)
                && shared[k].shared_deps@.contains(entity) {
            let k = choose|k: int|
                0 <= k < shared.len() && (#[trigger] shared[k]).names().contains(None)
                    && shared[k].shared_deps@.contains(entity);
            if k < last {
                assert(rest[k] == shared[k]);
            }
        }
        if exists|k: int|
            0 <= k < shared.len() && (#[trigger] shared[k]).names().contains(None)
                && shared[k].exports@.contains(entity) {
            let k = choose|k: int|
                0 <= k < shared.len() && (#[trigger] shared[k]).names().contains(None)
                    && shared[k].exports@.contains(entity);
            if k < last {
                assert(rest[k] == shared[k]);
            }
        }
    }
}

/// A merged main module defines what it reaches and what the parts define that it shares. It
/// imports what it imports but for what these parts export, and exports what they export and
/// another named module imports.
pub proof fn lemma_merged_main_module(
    program: SplitProgramInfo,
    named: Seq<NamedGraph>,
    shared: Seq<SharedEntry>,
    points: Seq<SplitPoint>,
    entity: FlatEntityRef,
)
    requires
        is_split_program(program, named, shared, points, true),
        named.len() > 0,
    ensures
        ({
            let main = program.output_modules@[0].1;
            &&& main.defined_symbols@.contains(entity) <==> named[0].reachable@.contains(entity)
                || exists|k: int|
                0 <= k < shared.len() && (#[trigger] shared[k]).names().contains(None)
                    && shared[k].shared_deps@.contains(entity)
            &&& main.imports@.contains(entity) <==> named[0].imports@.contains(entity) && !(exists|
                k: int,
            |
                0 <= k < shared.len() && (#[trigger] shared[k]).names().contains(None)
                    && shared[k].exports@.contains(entity))
            &&& main.exports@.contains(entity) <==> (exists|k: int|
                0 <= k < shared.len() && (#[trigger] shared[k]).names().contains(None)
                    && shared[k].exports@.contains(entity)) && exists|i: int|
                1 <= i < named.len() && (#[trigger] named[i]).imports@.contains(entity)
        }),
{
    let plain = lemma_plain(program, named, shared, points, true);
    lemma_merged_parts(shared, entity);
    assert(is_single_module(content_of(plain[0]), named[0], points, shared));
    let content = content_of(program.output_modules@[0]);
    let others = plain.skip(1);
    assert(content == merged_main(content_of(plain[0]), others, shared));
    assert(imported(others).contains(entity) <==> imported_by(others, entity));
    if imported_by(others, entity) {
        let j = choose|j: int|
            0 <= j < others.len() && (#[trigger] others[j]).1.imports@.contains(entity);
        assert(others[j] == plain[j + 1]);
        assert(is_single_module(content_of(plain[j + 1]), named[j + 1], points, shared));
        assert(named[j + 1].imports@.contains(entity));
    }
    if exists|i: int| 1 <= i < named.len() && (#[trigger] named[i]).imports@.contains(entity) {
        let i = choose|i: int|
            1 <= i < named.len() && (#[trigger] named[i]).imports@.contains(entity);
        assert(is_single_module(content_of(plain[i]), named[i], points, shared));
        assert(others[i - 1] == plain[i]);
        assert(others[i - 1].1.imports@.contains(entity));
    }
    assert(content.exports == program.output_modules@[0].1.exports@);
    assert(content.imports == program.output_modules@[0].1.imports@);
    assert(content.defined == program.output_modules@[0].1.defined_symbols@);
}

/// What a named module other than the main one imports of a part is exported by an output module
/// that defines it.
pub proof fn lemma_imports_are_exported(
    program: SplitProgramInfo,
    named: Seq<NamedGraph>,
    shared: Seq<SharedEntry>,
    points: Seq<SplitPoint>,
    merge_shared: bool,
    i: int,
    k: int,
    entity: FlatEntityRef,
)
    requires
        is_split_program(program, named, shared, points, merge_shared),
        1 <= i < named.len(),
        0 <= k < shared.len(),
        shared[k].exports@.subset_of(shared[k].shared_deps@),
        shared[k].exports@.contains(entity),
        program.output_modules@[i].1.imports@.contains(entity),
    ensures
        exists|m: int|
            #![trigger program.output_modules@[m]]
            {
                &&& 0 <= m < program.output_modules@.len()
                &&& program.output_modules@[m].1.exports@.contains(entity)
                &&& program.output_modules@[m].1.defined_symbols@.contains(entity)
            },
{
    lemma_named_modules(program, named, shared, points, merge_shared, i);
    if merge_shared && shared[k].names().contains(None) {
        lemma_merged_main_module(program, named, shared, points, entity);
        assert(shared[k].names().contains(None));
        assert(named[i].imports@.contains(entity));
        assert(program.output_modules@[0].1.exports@.contains(entity));
    } else {
        lemma_parts_have_modules(program, named, shared, points, merge_shared, k);
    }
}

/// Everything that a named module reaches, and everything that a part defines, is defined by an
/// output module.
pub proof fn lemma_nothing_is_lost(
    program: SplitProgramInfo,
    named: Seq<NamedGraph>,
    shared: Seq<SharedEntry>,
    points: Seq<SplitPoint>,
    merge_shared: bool,
    entity: FlatEntityRef,
)
    requires
        is_split_program(program, named, shared, points, merge_shared),
        merge_shared ==> named.len() > 0,
        (exists|i: int| 0 <= i < named.len() && (#[trigger] named[i]).reachable@.contains(entity))
            || exists|k: int|
            0 <= k < shared.len() && (#[trigger] shared[k]).shared_deps@.contains(entity),
    ensures
        exists|m: int|
            #![trigger program.output_modules@[m]]
            0 <= m < program.output_modules@.len()
                && program.output_modules@[m].1.defined_symbols@.contains(entity),
{
    if exists|i: int| 0 <= i < named.len() && (#[trigger] named[i]).reachable@.contains(entity) {
        let i = choose|i: int|
            0 <= i < named.len() && (#[trigger] named[i]).reachable@.contains(entity);
        lemma_named_modules(program, named, shared, points, merge_shared, i);
        if merge_shared && i == 0 {
            lemma_merged_main_module(program, named, shared, points, entity);
        }
        assert(program.output_modules@[i].1.defined_symbols@.contains(entity));
    } else {
        let k = choose|k: int|
            0 <= k < shared.len() && (#[trigger] shared[k]).shared_deps@.contains(entity);
        if merge_shared && shared[k].names().contains(None) {
            lemma_merged_main_module(program, named, shared, points, entity);
            assert(program.output_modules@[0].1.defined_symbols@.contains(entity));
        } else {
            lemma_parts_have_modules(program, named, shared, points, merge_shared, k);
        }
    }
}

proof fn lemma_owner(modules: Seq<NamedModule>, entity: FlatEntityRef)
    ensures
        ({
            let owner = owner_of(modules, entity.id() as nat);
            &&& 0 <= owner
            &&& (exists|m: int|
                0 <= m < modules.len() && (#[trigger] modules[m]).1.defined_symbols@.contains(
                    entity,
                )) ==> 0 <= owner < modules.len()
                && modules[owner].1.defined_symbols@.contains(entity)
            &&& forall|m: int|
                owner < m < modules.len() ==> !(#[trigger] modules[m]).1.defined_symbols@.contains(
                    entity,
                )
        }),
    decreases modules.len(),
{
    if modules.len() > 0 {
        let rest = modules.drop_last();
        lemma_owner(rest, entity);
        assert forall|m: int| 0 <= m < rest.len() implies #[trigger] rest[m] == modules[m] by {}
        if exists|e: FlatEntityRef|
            e.id() == entity.id() && modules.last().1.defined_symbols@.contains(e) {
            let e = choose|e: FlatEntityRef|
                e.id() == entity.id() && modules.last().1.defined_symbols@.contains(e);
            assert(e == entity);
        } else {
            assert(!modules.last().1.defined_symbols@.contains(entity));
            if exists|m: int|
                0 <= m < modules.len() && (#[trigger] modules[m]).1.defined_symbols@.contains(
                    entity,
                ) {
                let m = choose|m: int|
                    0 <= m < modules.len() && (#[trigger] modules[m]).1.defined_symbols@.contains(
                        entity,
                    );
                assert(rest[m] == modules[m]);
            }
            let owner = owner_of(rest, entity.id() as nat);
            assert forall|m: int| owner < m < modules.len() implies !(
            #[trigger] modules[m]).1.defined_symbols@.contains(entity) by {
                if m < rest.len() {
                    assert(rest[m] == modules[m]);
                }
            }
        }
    }
}

/// An entity that some output module defines is found in a module that defines it: the last one.
pub proof fn lemma_owners_define(
    program: SplitProgramInfo,
    named: Seq<NamedGraph>,
    shared: Seq<SharedEntry>,
    points: Seq<SplitPoint>,
    merge_shared: bool,
    entity: FlatEntityRef,
)
    requires
        is_split_program(program, named, shared, points, merge_shared),
        exists|m: int|
            #![trigger program.output_modules@[m]]
            0 <= m < program.output_modules@.len()
                && program.output_modules@[m].1.defined_symbols@.contains(entity),
    ensures
        ({
            let owner = program.symbol_output_module.value(entity.id() as nat);
            &&& 0 <= owner < program.output_modules@.len()
            &&& program.output_modules@[owner as int].1.defined_symbols@.contains(entity)
            &&& forall|m: int|
                owner < m < program.output_modules@.len() ==> !(
                #[trigger] program.output_modules@[m]).1.defined_symbols@.contains(entity)
        }),
{
    lemma_owner(program.output_modules@, entity);
    let modules = program.output_modules@;
    let m = choose|m: int|
        #![trigger modules[m]]
        0 <= m < modules.len() && modules[m].1.defined_symbols@.contains(entity);
    assert(modules[m].1.defined_symbols@.contains(entity));
}

/// The dependencies of a named module: for every part that it shares, under the names of the part,
/// what it imports of what the part exports, and nothing else.
pub proof fn lemma_dependencies_of_named_modules(
    program: SplitProgramInfo,
    named: Seq<NamedGraph>,
    shared: Seq<SharedEntry>,
    points: Seq<SplitPoint>,
    merge_shared: bool,
    i: int,
    k: int,
)
    requires
        is_split_program(program, named, shared, points, merge_shared),
        0 <= i < named.len(),
        0 <= k < shared.len(),
        forall|j: int|
            0 <= j < shared.len() && j != k ==> (#[trigger] shared[j]).names() != shared[k].names(),
    ensures
        ({
            let deps = program.output_modules@[i].1.dependencies@;
            if shared[k].names().contains(named[i].module@) {
                exists|d: int|
                    #![trigger deps[d]]
                    {
                        &&& 0 <= d < deps.len()
                        &&& deps[d].0@ == shared[k].names()
                        &&& deps[d].1@ == shared[k].exports@.intersect(named[i].imports@)
                    }
            } else {
                forall|d: int| 0 <= d < deps.len() ==> (#[trigger] deps[d]).0@ != shared[k].names()
            }
        }),
{
    let plain = lemma_plain(program, named, shared, points, merge_shared);
    assert(is_single_module(content_of(plain[i]), named[i], points, shared));
    let module = program.output_modules@[i];
    let content = content_of(module);
    let deps = module.1.dependencies@;
    let views = dependency_views(deps);
    let names = shared[k].names();
    let name = SplitName::Single(named[i].module@);
    assert(content.dependencies == views);
    lemma_dependencies(
        views,
        shared,
        name,
        named[i].imports@,
        None,
        k,
    );
    assert(needs_part(shared, name, None, k) <==> names.contains(named[i].module@));
    if names.contains(named[i].module@) {
        let d = choose|d: int|
            #![trigger views[d]]
            0 <= d < views.len() && views[d].0 == names && views[d].1
                == shared[k].exports@.intersect(named[i].imports@);
        assert(views[d] == (deps[d].0@, deps[d].1@));
    } else {
        assert forall|d: int| 0 <= d < deps.len() implies (#[trigger] deps[d]).0@ != names by {
            assert(views[d].0 == deps[d].0@);
        }
    }
}

proof fn lemma_dependencies(
    deps: Seq<(Seq<ModuleName>, Set<FlatEntityRef>)>,
    shared: Seq<SharedEntry>,
    name: SplitName,
    imports: Set<FlatEntityRef>,
    skipped: Option<usize>,
    k: int,
)
    requires
        are_deps(deps, shared, name, imports, skipped, shared.len() as int),
        0 <= k < shared.len(),
        forall|j: int|
            0 <= j < shared.len() && j != k ==> (#[trigger] shared[j]).names() != shared[k].names(),
    ensures
        needs_part(shared, name, skipped, k) ==> exists|d: int|
            #![trigger deps[d]]
            0 <= d < deps.len() && deps[d].0 == shared[k].names() && deps[d].1
                == shared[k].exports@.intersect(imports),
        !needs_part(shared, name, skipped, k) ==> forall|d: int|
            0 <= d < deps.len() ==> (#[trigger] deps[d]).0 != shared[k].names(),
{
    let count = shared.len() as int;
    assert forall|d: int|
        0 <= d < deps.len() && (#[trigger] deps[d]).0 == shared[k].names() implies needs_part(
        shared,
        name,
        skipped,
        k,
    ) && deps[d].1 == shared[k].exports@.intersect(imports) by {
        assert(is_dep(deps[d], shared, name, imports, skipped, count));
    }
    if needs_part(shared, name, skipped, k) {
        assert(has_dep(deps, shared[k].names()));
    }
}

/// The dependencies of the module of a part: for every other part that all its modules share, under
/// the names of that part, what it imports of what that part exports, and nothing else.
pub proof fn lemma_dependencies_of_parts(
    program: SplitProgramInfo,
    named: Seq<NamedGraph>,
    shared: Seq<SharedEntry>,
    points: Seq<SplitPoint>,
    m: int,
    k: int,
)
    requires
        is_split_program(program, named, shared, points, false),
        0 <= m < shared.len(),
        0 <= k < shared.len(),
        shared.len() <= usize::MAX,
        forall|j: int|
            0 <= j < shared.len() && j != k ==> (#[trigger] shared[j]).names() != shared[k].names(),
    ensures
        ({
            let deps = program.output_modules@[named.len() + m].1.dependencies@;
            if k != m && (forall|n: int|
                0 <= n < shared[m].names().len() ==> shared[k].names().contains(
                    #[trigger] shared[m].names()[n],
                )) {
                exists|d: int|
                    #![trigger deps[d]]
                    {
                        &&& 0 <= d < deps.len()
                        &&& deps[d].0@ == shared[k].names()
                        &&& deps[d].1@ == shared[k].exports@.intersect(shared[m].imports@)
                    }
            } else {
                forall|d: int| 0 <= d < deps.len() ==> (#[trigger] deps[d]).0@ != shared[k].names()
            }
        }),
{
    let module = program.output_modules@[named.len() + m];
    let content = content_of(module);
    assert(is_shared_module(content, shared, m));
    let deps = module.1.dependencies@;
    let views = dependency_views(deps);
    let names = shared[k].names();
    let name = SplitName::Shared(shared[m].names());
    assert(content.dependencies == views);
    lemma_dependencies(
        views,
        shared,
        name,
        shared[m].imports@,
        Some(m as usize),
        k,
    );
    if needs_part(shared, name, Some(m as usize), k) {
        let d = choose|d: int|
            #![trigger views[d]]
            0 <= d < views.len() && views[d].0 == names && views[d].1
                == shared[k].exports@.intersect(shared[m].imports@);
        assert(views[d] == (deps[d].0@, deps[d].1@));
    } else {
        assert forall|d: int| 0 <= d < deps.len() implies (#[trigger] deps[d]).0@ != names by {
            assert(views[d].0 == deps[d].0@);
        }
    }
}

} // verus!
