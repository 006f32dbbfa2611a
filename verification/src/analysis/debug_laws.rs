//! What the texts about a program show.
use crate::analysis::debug::{
    copied_size, dep_text, deps_text, entity_size, graph_text, node_text, part_text, point_lines,
    quoted, symbol_lines, symbol_text, total_size, unpacked,
};
use crate::analysis::entity_set::EntitySet;
use crate::analysis::roots::{DepGraph, DepNode};
use crate::analysis::split_point::SplitPoint;
use crate::emit::plan::copy::data_entity;
use crate::index::TempIndex;
use crate::text::{decimal, occurs, occurs_at};
use crate::typed::entities::ImportOrDefined;
use crate::typed::module::Module;
use crate::typed::snapshot::{EntitiesSnapshot, FlatEntityRef};
use crate::typed::EntityKind;
use vstd::prelude::*;

verus! {

/// A part of a text is a part of every longer text.
proof fn lemma_occurs_inside(before: Seq<char>, text: Seq<char>, behind: Seq<char>, part: Seq<char>)
    requires
        occurs(text, part),
    ensures
        occurs(before + text, part),
        occurs(text + behind, part),
        occurs(before + text + behind, part),
{
    let at = choose|at: int| occurs_at(text, part, at);
    let moved = before.len() + at;
    assert((before + text).subrange(moved, moved + part.len()) =~= text.subrange(
        at,
        at + part.len(),
    ));
    assert(occurs_at(before + text, part, moved));
    assert((text + behind).subrange(at, at + part.len()) =~= text.subrange(at, at + part.len()));
    assert(occurs_at(text + behind, part, at));
    assert((before + text + behind).subrange(moved, moved + part.len()) =~= text.subrange(
        at,
        at + part.len(),
    ));
    assert(occurs_at(before + text + behind, part, moved));
}

proof fn lemma_occurs_itself(text: Seq<char>)
    ensures
        occurs(text, text),
{
    assert(text.subrange(0, text.len() as int) =~= text);
    assert(occurs_at(text, text, 0));
}

proof fn lemma_lines(
    module: Module,
    snapshot: EntitiesSnapshot,
    list: Seq<FlatEntityRef>,
    before: Seq<char>,
    behind: Seq<char>,
    i: int,
)
    requires
        0 <= i < list.len(),
    ensures
        occurs(
            symbol_lines(module, snapshot, list, before, behind),
            before + symbol_text(module, snapshot, list[i]) + behind,
        ),
    decreases list.len(),
{
    let init = symbol_lines(module, snapshot, list.drop_last(), before, behind);
    let last = before + symbol_text(module, snapshot, list.last()) + behind;
    let line = before + symbol_text(module, snapshot, list[i]) + behind;
    if i == list.len() - 1 {
        lemma_occurs_itself(last);
        lemma_occurs_inside(init, last, Seq::empty(), line);
    } else {
        lemma_lines(module, snapshot, list.drop_last(), before, behind, i);
        lemma_occurs_inside(Seq::empty(), init, last, line);
    }
}

/// The text of a node shows all entities that use it, and all that it uses.
pub proof fn lemma_node_shows_its_edges(
    module: Module,
    snapshot: EntitiesSnapshot,
    node: DepNode,
    i: int,
)
    ensures
        0 <= i < node.parents@.len() ==> occurs(
            node_text(module, snapshot, node),
            "  <-P "@ + symbol_text(module, snapshot, node.parents@[i]) + "\n"@,
        ),
        0 <= i < node.children@.len() ==> occurs(
            node_text(module, snapshot, node),
            "  -> "@ + symbol_text(module, snapshot, node.children@[i]) + "\n"@,
        ),
        occurs(node_text(module, snapshot, node), symbol_text(module, snapshot, node.node)),
{
    let head = symbol_text(module, snapshot, node.node);
    let parents = symbol_lines(module, snapshot, node.parents@, "  <-P "@, "\n"@);
    let children = symbol_lines(module, snapshot, node.children@, "  -> "@, "\n"@);
    let text = node_text(module, snapshot, node);
    lemma_occurs_itself(head);
    assert(text =~= Seq::<char>::empty() + head + ("\n"@ + parents + children + "\n"@));
    lemma_occurs_inside(Seq::empty(), head, "\n"@ + parents + children + "\n"@, head);
    if 0 <= i < node.parents@.len() {
        let line = "  <-P "@ + symbol_text(module, snapshot, node.parents@[i]) + "\n"@;
        lemma_lines(module, snapshot, node.parents@, "  <-P "@, "\n"@, i);
        assert(text =~= (head + "\n"@) + parents + (children + "\n"@));
        lemma_occurs_inside(head + "\n"@, parents, children + "\n"@, line);
    }
    if 0 <= i < node.children@.len() {
        let line = "  -> "@ + symbol_text(module, snapshot, node.children@[i]) + "\n"@;
        lemma_lines(module, snapshot, node.children@, "  -> "@, "\n"@, i);
        assert(text =~= (head + "\n"@ + parents) + children + "\n"@);
        lemma_occurs_inside(head + "\n"@ + parents, children, "\n"@, line);
    }
}

/// The text of a graph shows all its nodes.
pub proof fn lemma_graph_shows_its_nodes(
    module: Module,
    snapshot: EntitiesSnapshot,
    nodes: Seq<DepNode>,
    i: int,
)
    requires
        0 <= i < nodes.len(),
    ensures
        occurs(graph_text(module, snapshot, nodes), node_text(module, snapshot, nodes[i])),
    decreases nodes.len(),
{
    let init = graph_text(module, snapshot, nodes.drop_last());
    let last = node_text(module, snapshot, nodes.last());
    if i == nodes.len() - 1 {
        lemma_occurs_itself(last);
        lemma_occurs_inside(init, last, Seq::empty(), last);
    } else {
        lemma_graph_shows_its_nodes(module, snapshot, nodes.drop_last(), i);
        lemma_occurs_inside(Seq::empty(), init, last, node_text(module, snapshot, nodes[i]));
    }
}

proof fn lemma_deps(
    module: Module,
    snapshot: EntitiesSnapshot,
    nodes: Seq<DepNode>,
    reachable: Set<FlatEntityRef>,
    i: int,
)
    requires
        0 <= i < nodes.len(),
        reachable.contains(nodes[i].node),
    ensures
        occurs(deps_text(module, snapshot, nodes, reachable), dep_text(module, snapshot, nodes[i])),
    decreases nodes.len(),
{
    let init = deps_text(module, snapshot, nodes.drop_last(), reachable);
    let last = dep_text(module, snapshot, nodes.last());
    if i == nodes.len() - 1 {
        lemma_occurs_itself(last);
        lemma_occurs_inside(init, last, Seq::empty(), last);
    } else {
        lemma_deps(module, snapshot, nodes.drop_last(), reachable, i);
        lemma_occurs_inside(Seq::empty(), init, last, dep_text(module, snapshot, nodes[i]));
    }
}

/// The text of a part of a program shows its name, all its nodes, and how many bytes it has.
pub proof fn lemma_part_shows_its_nodes(
    name: Seq<char>,
    module: Module,
    snapshot: EntitiesSnapshot,
    graph: DepGraph,
    reachable: EntitySet,
    i: int,
)
    requires
        0 <= i < graph.nodes@.len(),
        reachable@.contains(graph.nodes@[i].node),
    ensures
        ({
            let text = part_text(name, module, snapshot, graph, reachable);
            &&& occurs(text, dep_text(module, snapshot, graph.nodes@[i]))
            &&& occurs(
                text,
                name + " : total size: "@ + decimal(
                    total_size(module, snapshot, reachable.seq()),
                ) + "\n"@,
            )
        }),
{
    let title = "SPLIT: ============== "@;
    let deps = deps_text(module, snapshot, graph.nodes@, reachable@);
    let size = name + " : total size: "@ + decimal(
        total_size(module, snapshot, reachable.seq()),
    ) + "\n"@;
    let text = part_text(name, module, snapshot, graph, reachable);
    lemma_deps(module, snapshot, graph.nodes@, reachable@, i);
    lemma_occurs_inside(
        title + name + "\n"@,
        deps,
        title + size,
        dep_text(module, snapshot, graph.nodes@[i]),
    );
    assert(text =~= (title + name + "\n"@) + deps + (title + size));
    lemma_occurs_itself(size);
    lemma_occurs_inside(title + name + "\n"@ + deps + title, size, Seq::empty(), size);
    assert(text =~= (title + name + "\n"@ + deps + title) + size);
}

/// The size of two lists together is the sum of their sizes.
pub proof fn lemma_sizes_are_added(
    module: Module,
    snapshot: EntitiesSnapshot,
    a: Seq<FlatEntityRef>,
    b: Seq<FlatEntityRef>,
)
    ensures
        total_size(module, snapshot, a + b) == total_size(module, snapshot, a) + total_size(
            module,
            snapshot,
            b,
        ),
    decreases b.len(),
{
    if b.len() == 0 {
        assert(a + b =~= a);
    } else {
        lemma_sizes_are_added(module, snapshot, a, b.drop_last());
        assert((a + b).drop_last() =~= a + b.drop_last());
        assert((a + b).last() == b.last());
    }
}

/// The size of one function is the number of bytes of its body, and that of one data symbol the
/// number of its bytes. Entities that are not defined have none.
pub proof fn lemma_size_of_one(
    module: Module,
    snapshot: EntitiesSnapshot,
    entity: FlatEntityRef,
)
    ensures
        total_size(module, snapshot, seq![entity]) == match unpacked(snapshot, entity) {
            EntityKind::Function(f) => match module.functions@.entity(f.id() as int) {
                ImportOrDefined::Defined(defined) => defined.body.emitted().len(),
                _ => 0,
            },
            EntityKind::DataSymbol(d) => match data_entity(module.extra.mem_layout, d) {
                ImportOrDefined::Defined(chunk) => copied_size(chunk.body),
                _ => 0,
            },
            _ => 0,
        },
{
    let list = seq![entity];
    assert(list.drop_last() =~= Seq::<FlatEntityRef>::empty());
    assert(total_size(module, snapshot, list.drop_last()) == 0);
    assert(total_size(module, snapshot, list) == entity_size(module, unpacked(snapshot, entity)));
}

/// The identifiers of all split points are shown.
pub proof fn lemma_points_are_shown(points: Seq<SplitPoint>, i: int)
    requires
        0 <= i < points.len(),
    ensures
        occurs(point_lines(points), quoted(points[i].unique_id@)),
    decreases points.len(),
{
    let init = point_lines(points.drop_last());
    let last = "    "@ + quoted(points.last().unique_id@) + "\n"@;
    let part = quoted(points[i].unique_id@);
    if i == points.len() - 1 {
        lemma_occurs_itself(part);
        lemma_occurs_inside("    "@, part, "\n"@, part);
        lemma_occurs_inside(init, last, Seq::empty(), part);
    } else {
        lemma_points_are_shown(points.drop_last(), i);
        lemma_occurs_inside(Seq::empty(), init, last, part);
    }
}

} // verus!
