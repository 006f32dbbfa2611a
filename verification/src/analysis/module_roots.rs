//! The modules of a split program, each with the entities that it is there for.
use crate::analysis::entity_set::EntitySet;
use crate::analysis::names::{lemma_sorted_by_text, sorted_by_text, text_less};
use crate::analysis::roots::{covers, is_main_root, main_roots};
use crate::analysis::split_point::{
    borrowed_groups, has_group, is_point_of, merge_split_points_by_module_name, point_id, points_of,
    ModuleIdentifier, SplitPoint,
};
use crate::index::TempIndex;
use crate::typed::module::Module;
use crate::typed::snapshot::{EntitiesSnapshot, FlatEntityRef};
use vstd::prelude::*;

verus! {

/// Whether an entity is the export function of a split point of a module.
pub open spec fn is_export_of(
    points: Seq<SplitPoint>,
    name: Seq<char>,
    entity: FlatEntityRef,
) -> bool {
    exists|k: int|
        0 <= k < points.len() && (#[trigger] points[k]).module_name@ == name
            && points[k].export_func == entity
}

/// Whether a module is split off by some split point, and its roots are the export functions of its
/// split points.
pub open spec fn is_split_module_roots(
    module: (ModuleIdentifier, EntitySet),
    points: Seq<SplitPoint>,
) -> bool {
    &&& module.1.wf()
    &&& module.0@ matches Some(name)
    &&& exists|k: int| 0 <= k < points.len() && (#[trigger] points[k]).module_name@ == name
    &&& forall|entity: FlatEntityRef| #[trigger]
        module.1@.contains(entity) <==> is_export_of(points, name, entity)
}

/// Whether one of some modules is split off under a name.
pub open spec fn has_module(modules: Seq<(ModuleIdentifier, EntitySet)>, name: Seq<char>) -> bool {
    exists|i: int| 0 <= i < modules.len() && (#[trigger] modules[i]).0@ == Some(name)
}

/// Whether modules are those that split points split off, in the order of their names.
pub open spec fn are_split_modules_roots(
    modules: Seq<(ModuleIdentifier, EntitySet)>,
    points: Seq<SplitPoint>,
) -> bool {
    &&& forall|i: int|
        0 <= i < modules.len() ==> is_split_module_roots(#[trigger] modules[i], points)
    &&& forall|i: int, j: int|
        #![trigger modules[i], modules[j]]
        0 <= i < j < modules.len() ==> text_less(modules[i].0@->0, modules[j].0@->0)
    &&& forall|k: int|
        0 <= k < points.len() ==> has_module(modules, (#[trigger] points[k]).module_name@)
}

/// The export functions of a group of split points are those of the split points of its module.
proof fn lemma_group_exports(points: Seq<SplitPoint>, name: Seq<char>, group: Seq<SplitPoint>)
    requires
        group.to_multiset() == points_of(points, name).to_multiset(),
    ensures
        forall|entity: FlatEntityRef| #[trigger]
            is_export_of(points, name, entity) <==> exists|j: int|
                0 <= j < group.len() && (#[trigger] group[j]).export_func == entity,
        group.len() > 0 ==> exists|k: int|
            0 <= k < points.len() && (#[trigger] points[k]).module_name@ == name,
{
    broadcast use vstd::seq_lib::group_to_multiset_ensures;

    let kept = points_of(points, name);
    assert forall|entity: FlatEntityRef| #[trigger]
        is_export_of(points, name, entity) implies exists|j: int|
        0 <= j < group.len() && (#[trigger] group[j]).export_func == entity by {
        let k = choose|k: int|
            0 <= k < points.len() && (#[trigger] points[k]).module_name@ == name
                && points[k].export_func == entity;
        points.lemma_filter_contains(is_point_of(name), k);
        assert(kept.to_multiset().contains(points[k]));
        assert(group.contains(points[k]));
    }
    assert forall|j: int| 0 <= j < group.len() implies is_export_of(
        points,
        name,
        (#[trigger] group[j]).export_func,
    ) by {
        assert(group.to_multiset().contains(group[j]));
        assert(kept.contains(group[j]));
        let i = choose|i: int| 0 <= i < kept.len() && kept[i] == group[j];
        points.lemma_filter_pred(is_point_of(name), i);
        points.lemma_filter_contains_rev(is_point_of(name), kept[i]);
        let k = choose|k: int| 0 <= k < points.len() && points[k] == kept[i];
        assert(points[k].module_name@ == name);
    }
    if group.len() > 0 {
        assert(is_export_of(points, name, group[0].export_func));
    }
}

fn export_functions(points: &Vec<&SplitPoint>) -> (r: EntitySet)
    ensures
        r.wf(),
        forall|entity: FlatEntityRef| #[trigger]
            r@.contains(entity) <==> exists|j: int|
                0 <= j < points@.len() && (#[trigger] points@[j]).export_func == entity,
{
    let mut roots = EntitySet::new();
    let mut i: usize = 0;
    while i < points.len()
        invariant
            i <= points@.len(),
            roots.wf(),
            forall|entity: FlatEntityRef| #[trigger]
                roots@.contains(entity) <==> exists|j: int|
                    0 <= j < i && (#[trigger] points@[j]).export_func == entity,
        decreases points@.len() - i,
    {
        let ghost earlier = roots@;
        let _ = roots.insert(points[i].export_func());
        proof {
            assert forall|entity: FlatEntityRef| #[trigger]
                roots@.contains(entity) <==> exists|j: int|
                    0 <= j < i + 1 && (#[trigger] points@[j]).export_func == entity by {
                if entity == points@[i as int].export_func {
                    assert(roots@.contains(entity));
                } else {
                    assert(roots@.contains(entity) == earlier.contains(entity));
                }
            }
        }
        i = i + 1;
    }
    roots
}

/// The modules of a split program with what they are there for: first the main module with its
/// roots, then one module for each module name of the split points, in the order of the names, with
/// the export functions of its split points.
pub fn module_roots(
    info: &Module,
    snapshot: &EntitiesSnapshot,
    split_points: &[SplitPoint],
    wbg_descriptors: &EntitySet,
) -> (r: Vec<(ModuleIdentifier, EntitySet)>)
    requires
        covers(*snapshot, *info),
        wbg_descriptors.wf(),
        info.extra.start_function matches Some(f) ==> f.id() < info.functions@.len(),
    ensures
        r@.len() > 0,
        r@[0].0@ is None,
        r@[0].1.wf(),
        forall|entity: FlatEntityRef| #[trigger]
            r@[0].1@.contains(entity) <==> is_main_root(
                *info,
                *snapshot,
                split_points@,
                wbg_descriptors@,
                entity,
            ),
        are_split_modules_roots(r@.skip(1), split_points@),
{
    let main = main_roots(info, snapshot, split_points, wbg_descriptors);
    let groups = merge_split_points_by_module_name(split_points);
    let ghost points = split_points@;
    let ghost all = borrowed_groups(groups@);
    let mut modules: Vec<(ModuleIdentifier, EntitySet)> = vec![(ModuleIdentifier::Main, main)];
    let ghost first = modules@[0];
    let mut i: usize = 0;
    while i < groups.len()
        invariant
            i <= groups@.len(),
            all == borrowed_groups(groups@),
            points == split_points@,
            forall|g: int|
                0 <= g < all.len() ==> (#[trigger] all[g]).1.len() > 0 && all[g].1
                    == sorted_by_text(
                    points_of(points, all[g].0),
                    point_id(),
                ),
            modules@.len() == i + 1,
            modules@[0] == first,
            forall|j: int|
                0 < j <= i ==> is_split_module_roots(#[trigger] modules@[j], points)
                    && modules@[j].0@ == Some(all[j - 1].0),
        decreases groups@.len() - i,
    {
        let ghost group = all[i as int];
        let roots = export_functions(&groups[i].1);
        let name: String = groups[i].0.to_owned();
        proof {
            lemma_sorted_by_text(points_of(points, group.0), point_id());
            lemma_group_exports(points, group.0, group.1);
            assert forall|entity: FlatEntityRef| #[trigger]
                roots@.contains(entity) <==> is_export_of(points, group.0, entity) by {
                if roots@.contains(entity) {
                    let j = choose|j: int|
                        0 <= j < groups@[i as int].1@.len() && (
                        #[trigger] groups@[i as int].1@[j]).export_func == entity;
                    assert(group.1[j].export_func == entity);
                }
                if is_export_of(points, group.0, entity) {
                    let j = choose|j: int|
                        0 <= j < group.1.len() && (#[trigger] group.1[j]).export_func == entity;
                    assert(groups@[i as int].1@[j].export_func == entity);
                }
            }
        }
        let ghost before = modules@;
        modules.push((ModuleIdentifier::Split(name), roots));
        i = i + 1;
        proof {
            assert forall|j: int| 0 < j <= i implies is_split_module_roots(
                #[trigger] modules@[j],
                points,
            ) && modules@[j].0@ == Some(all[j - 1].0) by {
                if j < i {
                    assert(modules@[j] == before[j]);
                }
            }
        }
    }
    proof {
        let rest = modules@.skip(1);
        assert forall|j: int| 0 <= j < rest.len() implies is_split_module_roots(
            #[trigger] rest[j],
            points,
        ) && rest[j].0@ == Some(all[j].0) by {
            assert(rest[j] == modules@[j + 1]);
        }
        assert forall|k: int| 0 <= k < points.len() implies has_module(
            rest,
            (#[trigger] points[k]).module_name@,
        ) by {
            assert(has_group(all, points[k].module_name@));
            let g = choose|g: int| 0 <= g < all.len() && (#[trigger] all[g]).0
                == points[k].module_name@;
            assert(rest[g].0@ == Some(points[k].module_name@));
        }
    }
    modules
}

} // verus!
