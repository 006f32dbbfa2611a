//! Readable texts of dependencies and of split programs.
use crate::analysis::compute::SplitProgramInfo;
use crate::analysis::entity_set::EntitySet;
use crate::analysis::modules::{NamedModule, OutputModuleInfo};
use crate::analysis::roots::{DepGraph, DepNode};
use crate::analysis::split_point::{
    ModuleIdentifier, ModuleName, SharedModuleIdentifier, SplitModuleIdentifier, SplitName,
    SplitPoint,
};
use crate::emit::plan::copy::data_entity;
use crate::helpers::{demangle_full, demangled};
use crate::index::TempIndex;
use crate::tables::{fmt_table, table_text};
use crate::text::{decimal, decimal_string};
use crate::typed::body::EntityBody;
use crate::typed::entities::ImportOrDefined;
use crate::typed::lookup::{entity_name, has_entity};
use crate::typed::module::Module;
use crate::typed::snapshot::{lemma_flat_injective, EntitiesSnapshot, FlatEntityRef};
use crate::typed::EntityKind;
use vstd::prelude::*;
use vstd::string::StringExecFns;

verus! {

/// A text in quotes, with special characters escaped.
pub uninterp spec fn quoted(text: Seq<char>) -> Seq<char>;

/// The `Debug` form of a string: in quotes, with special characters escaped, a function of the
/// string alone. Which characters are escaped is not stated.
#[verifier::external_body]
fn quote(text: &str) -> (r: String)
    ensures
        r@ == quoted(text@),
{
    format!("{:?}", text)
}

/// The entity with a number.
pub open spec fn unpacked(snapshot: EntitiesSnapshot, flat: FlatEntityRef) -> EntityKind {
    choose|kind: EntityKind| #[trigger] snapshot.has(kind) && snapshot.flat(kind) == flat.id()
}

/// Whether a number stands for an entity of a module.
pub open spec fn is_known(
    module: Module,
    snapshot: EntitiesSnapshot,
    flat: FlatEntityRef,
) -> bool {
    &&& flat.id() < snapshot.total()
    &&& has_entity(module, unpacked(snapshot, flat))
}

/// Whether all numbers of a list stand for entities of a module.
pub open spec fn all_known(
    module: Module,
    snapshot: EntitiesSnapshot,
    list: Seq<FlatEntityRef>,
) -> bool {
    forall|i: int| 0 <= i < list.len() ==> is_known(module, snapshot, #[trigger] list[i])
}

/// Whether the parts of a module are well formed.
pub open spec fn is_readable(module: Module, snapshot: EntitiesSnapshot) -> bool {
    &&& snapshot.fits()
    &&& module.extra.mem_layout.wf()
    &&& forall|i: int|
        0 <= i < module.functions@.defined.len() ==> (
        #[trigger] module.functions@.defined[i]).body.wf()
}

/// The number of bytes of an entity. Imported entities have none.
pub open spec fn entity_size(module: Module, entity: EntityKind) -> nat {
    match entity {
        EntityKind::Function(f) => match module.functions@.entity(f.id() as int) {
            ImportOrDefined::Defined(defined) => defined.body.emitted().len(),
            _ => 0,
        },
        EntityKind::DataSymbol(d) => match data_entity(module.extra.mem_layout, d) {
            ImportOrDefined::Defined(chunk) => copied_size(chunk.body),
            _ => 0,
        },
        _ => 0,
    }
}

/// The number of bytes of a body before changes.
pub open spec fn copied_size(body: EntityBody) -> nat {
    match body {
        EntityBody::Copied(copy) => copy.bytes@.len(),
        EntityBody::New { new_bytes, .. } => new_bytes@.len(),
    }
}

/// The first byte of a body in its input file.
pub open spec fn original_offset(body: EntityBody) -> nat {
    match body {
        EntityBody::Copied(copy) => copy.original_range.start as nat,
        EntityBody::New { .. } => 0,
    }
}

/// The text of the number of an entity.
pub open spec fn flat_text(flat: FlatEntityRef) -> Seq<char> {
    "entity"@ + decimal(flat.id() as nat)
}

/// The text of an entity in a graph.
pub open spec fn symbol_text(
    module: Module,
    snapshot: EntitiesSnapshot,
    flat: FlatEntityRef,
) -> Seq<char> {
    let entity = unpacked(snapshot, flat);
    let name = demangled(entity_name(module, entity));
    let size = decimal(entity_size(module, entity));
    match entity {
        EntityKind::Function(f) => flat_text(flat) + " func["@ + decimal(f.id() as nat) + "] <"@
            + quoted(name) + "> (size="@ + size + ")"@,
        EntityKind::DataSymbol(d) => match data_entity(module.extra.mem_layout, d) {
            ImportOrDefined::Defined(chunk) => flat_text(flat) + " data["@ + decimal(
                chunk.entity_type.segment_id.id() as nat,
            ) + ":"@ + decimal(original_offset(chunk.body)) + "+"@ + size + "]  <"@ + quoted(name)
                + "> (size="@ + size + ")"@,
            _ => plain_symbol_text(flat, name),
        },
        _ => plain_symbol_text(flat, name),
    }
}

/// The text of an entity by its number and name.
pub open spec fn plain_symbol_text(flat: FlatEntityRef, name: Seq<char>) -> Seq<char> {
    flat_text(flat) + " <"@ + name + ">"@
}

fn flat_string(flat: FlatEntityRef) -> (r: String)
    ensures
        r@ == flat_text(flat),
{
    let mut text = "entity".to_owned();
    let number = decimal_string(flat.as_u32() as u64);
    text.append(number.as_str());
    text
}

fn unpack(snapshot: &EntitiesSnapshot, flat: FlatEntityRef) -> (r: EntityKind)
    requires
        snapshot.fits(),
        flat.id() < snapshot.total(),
    ensures
        r == unpacked(*snapshot, flat),
{
    let kind = snapshot.unpack_ref(flat);
    proof {
        assert(snapshot.has(kind) && snapshot.flat(kind) == flat.id());
        lemma_flat_injective(*snapshot, kind, unpacked(*snapshot, flat));
    }
    kind
}

fn size_of_entity(info: &Module, snapshot: &EntitiesSnapshot, entity: EntityKind) -> (r: usize)
    requires
        is_readable(*info, *snapshot),
        has_entity(*info, entity),
    ensures
        r == entity_size(*info, entity),
{
    match entity {
        EntityKind::Function(f) => match info.functions.get_entity(f) {
            ImportOrDefined::Defined(defined) => {
                proof {
                    let k = f.id() - info.functions@.imports.len();
                    assert(info.functions@.defined[k].body.wf());
                }
                defined.body.len()
            },
            _ => 0,
        },
        EntityKind::DataSymbol(d) => match info.extra.mem_layout.get_entity(d) {
            ImportOrDefined::Defined(chunk) => match &chunk.body {
                EntityBody::Copied(copy) => copy.bytes.len(),
                EntityBody::New { new_bytes, .. } => new_bytes.len(),
            },
            _ => 0,
        },
        _ => 0,
    }
}

fn plain_symbol_string(flat: FlatEntityRef, name: &String) -> (r: String)
    ensures
        r@ == plain_symbol_text(flat, name@),
{
    let mut text = flat_string(flat);
    text.append(" <");
    text.append(name.as_str());
    text.append(">");
    text
}

fn format_symbol(info: &Module, snapshot: &EntitiesSnapshot, flat: FlatEntityRef) -> (r: String)
    requires
        is_readable(*info, *snapshot),
        is_known(*info, *snapshot, flat),
    ensures
        r@ == symbol_text(*info, *snapshot, flat),
{
    let entity = unpack(snapshot, flat);
    let own = info.get_name(entity);
    let name = demangle_full(own.as_str());
    let size = decimal_string(size_of_entity(info, snapshot, entity) as u64);
    match entity {
        EntityKind::Function(f) => {
            let mut text = flat_string(flat);
            text.append(" func[");
            let number = decimal_string(f.as_u32() as u64);
            text.append(number.as_str());
            text.append("] <");
            let shown = quote(name.as_str());
            text.append(shown.as_str());
            text.append("> (size=");
            text.append(size.as_str());
            text.append(")");
            text
        },
        EntityKind::DataSymbol(d) => match info.extra.mem_layout.get_entity(d) {
            ImportOrDefined::Defined(chunk) => {
                let start: usize = match &chunk.body {
                    EntityBody::Copied(copy) => copy.original_range.start,
                    EntityBody::New { .. } => 0,
                };
                let mut text = flat_string(flat);
                text.append(" data[");
                let segment = decimal_string(chunk.entity_type.segment_id.as_u32() as u64);
                text.append(segment.as_str());
                text.append(":");
                let offset = decimal_string(start as u64);
                text.append(offset.as_str());
                text.append("+");
                text.append(size.as_str());
                text.append("]  <");
                let shown = quote(name.as_str());
                text.append(shown.as_str());
                text.append("> (size=");
                text.append(size.as_str());
                text.append(")");
                text
            },
            _ => plain_symbol_string(flat, &name),
        },
        _ => plain_symbol_string(flat, &name),
    }
}

/// A line for each entity of a list, all with the same text before and behind it.
pub open spec fn symbol_lines(
    module: Module,
    snapshot: EntitiesSnapshot,
    list: Seq<FlatEntityRef>,
    before: Seq<char>,
    behind: Seq<char>,
) -> Seq<char>
    decreases list.len(),
{
    if list.len() == 0 {
        Seq::empty()
    } else {
        symbol_lines(module, snapshot, list.drop_last(), before, behind) + (before + symbol_text(
            module,
            snapshot,
            list.last(),
        ) + behind)
    }
}

fn push_symbol_lines(
    text: &mut String,
    info: &Module,
    snapshot: &EntitiesSnapshot,
    list: &Vec<FlatEntityRef>,
    before: &str,
    behind: &str,
)
    requires
        is_readable(*info, *snapshot),
        all_known(*info, *snapshot, list@),
    ensures
        final(text)@ == old(text)@ + symbol_lines(*info, *snapshot, list@, before@, behind@),
{
    let ghost start = text@;
    let ghost all = list@;
    let mut i: usize = 0;
    proof {
        assert(all.take(0) =~= Seq::<FlatEntityRef>::empty());
        assert(text@ =~= start + symbol_lines(*info, *snapshot, all.take(0), before@, behind@));
    }
    while i < list.len()
        invariant
            i <= all.len(),
            all == list@,
            is_readable(*info, *snapshot),
            all_known(*info, *snapshot, all),
            text@ == start + symbol_lines(
                *info,
                *snapshot,
                all.take(i as int),
                before@,
                behind@,
            ),
        decreases all.len() - i,
    {
        assert(is_known(*info, *snapshot, all[i as int]));
        let symbol = format_symbol(info, snapshot, list[i]);
        text.append(before);
        text.append(symbol.as_str());
        text.append(behind);
        proof {
            assert(all.take(i + 1).drop_last() =~= all.take(i as int));
            assert(all.take(i + 1).last() == all[i as int]);
            assert(text@ =~= start + symbol_lines(
                *info,
                *snapshot,
                all.take(i + 1),
                before@,
                behind@,
            ));
        }
        i = i + 1;
    }
    assert(all.take(i as int) =~= all);
}

/// Whether all entities of a graph are entities of a module.
pub open spec fn graph_known(module: Module, snapshot: EntitiesSnapshot, graph: DepGraph) -> bool {
    forall|i: int|
        0 <= i < graph.nodes@.len() ==> {
            let node = #[trigger] graph.nodes@[i];
            &&& is_known(module, snapshot, node.node)
            &&& all_known(module, snapshot, node.parents@)
            &&& all_known(module, snapshot, node.children@)
        }
}

/// The text of a node: the entity, its users and what it uses.
pub open spec fn node_text(module: Module, snapshot: EntitiesSnapshot, node: DepNode) -> Seq<char> {
    symbol_text(module, snapshot, node.node) + "\n"@ + symbol_lines(
        module,
        snapshot,
        node.parents@,
        "  <-P "@,
        "\n"@,
    ) + symbol_lines(module, snapshot, node.children@, "  -> "@, "\n"@) + "\n"@
}

/// The text of some nodes.
pub open spec fn graph_text(
    module: Module,
    snapshot: EntitiesSnapshot,
    nodes: Seq<DepNode>,
) -> Seq<char>
    decreases nodes.len(),
{
    if nodes.len() == 0 {
        Seq::empty()
    } else {
        graph_text(module, snapshot, nodes.drop_last()) + node_text(
            module,
            snapshot,
            nodes.last(),
        )
    }
}

/// The text of a graph, node by node.
pub fn format_dep_graph(graph: &DepGraph, info: &Module, snapshot: &EntitiesSnapshot) -> (r: String)
    requires
        is_readable(*info, *snapshot),
        graph_known(*info, *snapshot, *graph),
    ensures
        r@ == graph_text(*info, *snapshot, graph.nodes@),
{
    let ghost all = graph.nodes@;
    let mut output = String::new();
    let mut i: usize = 0;
    assert(all.take(0) =~= Seq::<DepNode>::empty());
    while i < graph.nodes.len()
        invariant
            i <= all.len(),
            all == graph.nodes@,
            is_readable(*info, *snapshot),
            graph_known(*info, *snapshot, *graph),
            output@ == graph_text(*info, *snapshot, all.take(i as int)),
        decreases all.len() - i,
    {
        let ghost before = output@;
        let node = &graph.nodes[i];
        assert(*node == graph.nodes@[i as int]);
        let symbol = format_symbol(info, snapshot, node.node);
        output.append(symbol.as_str());
        output.append("\n");
        push_symbol_lines(&mut output, info, snapshot, &node.parents, "  <-P ", "\n");
        push_symbol_lines(&mut output, info, snapshot, &node.children, "  -> ", "\n");
        output.append("\n");
        proof {
            assert(all.take(i + 1).drop_last() =~= all.take(i as int));
            assert(all.take(i + 1).last() == all[i as int]);
            assert(output@ =~= before + node_text(*info, *snapshot, all[i as int]));
        }
        i = i + 1;
    }
    assert(all.take(i as int) =~= all);
    output
}

/// The text of a node of a part of a program.
pub open spec fn dep_text(module: Module, snapshot: EntitiesSnapshot, node: DepNode) -> Seq<char> {
    "---"@ + symbol_text(module, snapshot, node.node) + "---\n"@ + symbol_lines(
        module,
        snapshot,
        node.parents@,
        "<=="@,
        " (parent)\n"@,
    ) + "-------------\n"@ + symbol_lines(module, snapshot, node.children@, "==>"@, "\n"@)
}

/// The texts of the nodes of a part of a program.
pub open spec fn deps_text(
    module: Module,
    snapshot: EntitiesSnapshot,
    nodes: Seq<DepNode>,
    reachable: Set<FlatEntityRef>,
) -> Seq<char>
    decreases nodes.len(),
{
    if nodes.len() == 0 {
        Seq::empty()
    } else if reachable.contains(nodes.last().node) {
        deps_text(module, snapshot, nodes.drop_last(), reachable) + dep_text(
            module,
            snapshot,
            nodes.last(),
        )
    } else {
        deps_text(module, snapshot, nodes.drop_last(), reachable)
    }
}

/// The number of bytes of all entities of a list.
pub open spec fn total_size(
    module: Module,
    snapshot: EntitiesSnapshot,
    list: Seq<FlatEntityRef>,
) -> nat
    decreases list.len(),
{
    if list.len() == 0 {
        0
    } else {
        total_size(module, snapshot, list.drop_last()) + entity_size(
            module,
            unpacked(snapshot, list.last()),
        )
    }
}

proof fn lemma_total_size(
    module: Module,
    snapshot: EntitiesSnapshot,
    list: Seq<FlatEntityRef>,
    k: int,
)
    requires
        0 <= k <= list.len(),
    ensures
        total_size(module, snapshot, list.take(k)) <= total_size(module, snapshot, list),
    decreases list.len(),
{
    if k < list.len() {
        assert(list.drop_last().take(k) =~= list.take(k));
        lemma_total_size(module, snapshot, list.drop_last(), k);
    } else {
        assert(list.take(k) =~= list);
    }
}

fn sum_sizes(info: &Module, snapshot: &EntitiesSnapshot, list: &[FlatEntityRef]) -> (r: u64)
    requires
        is_readable(*info, *snapshot),
        all_known(*info, *snapshot, list@),
        total_size(*info, *snapshot, list@) <= u64::MAX,
    ensures
        r == total_size(*info, *snapshot, list@),
{
    let ghost all = list@;
    let mut total: u64 = 0;
    let mut i: usize = 0;
    assert(all.take(0) =~= Seq::<FlatEntityRef>::empty());
    while i < list.len()
        invariant
            i <= all.len(),
            all == list@,
            is_readable(*info, *snapshot),
            all_known(*info, *snapshot, all),
            total_size(*info, *snapshot, all) <= u64::MAX,
            total == total_size(*info, *snapshot, all.take(i as int)),
        decreases all.len() - i,
    {
        assert(is_known(*info, *snapshot, all[i as int]));
        let entity = unpack(snapshot, list[i]);
        let size: usize = size_of_entity(info, snapshot, entity);
        proof {
            assert(all.take(i + 1).drop_last() =~= all.take(i as int));
            assert(all.take(i + 1).last() == all[i as int]);
            lemma_total_size(*info, *snapshot, all, i + 1);
        }
        total = total + size as u64;
        i = i + 1;
    }
    assert(all.take(i as int) =~= all);
    total
}

/// The text of a part of a program: its nodes, and how many bytes its entities have.
pub open spec fn part_text(
    name: Seq<char>,
    module: Module,
    snapshot: EntitiesSnapshot,
    graph: DepGraph,
    reachable: EntitySet,
) -> Seq<char> {
    "SPLIT: ============== "@ + name + "\n"@ + deps_text(
        module,
        snapshot,
        graph.nodes@,
        reachable@,
    ) + "SPLIT: ============== "@ + name + " : total size: "@ + decimal(
        total_size(module, snapshot, reachable.seq()),
    ) + "\n"@
}

/// The text of a part of a program, to be printed.
pub fn print_deps_inner(
    module_name: &str,
    info: &Module,
    snapshot: &EntitiesSnapshot,
    reachable: &EntitySet,
    graph: &DepGraph,
) -> (r: String)
    requires
        is_readable(*info, *snapshot),
        graph_known(*info, *snapshot, *graph),
        reachable.wf(),
        all_known(*info, *snapshot, reachable.seq()),
        total_size(*info, *snapshot, reachable.seq()) <= u64::MAX,
    ensures
        r@ == part_text(module_name@, *info, *snapshot, *graph, *reachable),
{
    let ghost all = graph.nodes@;
    let mut output = "SPLIT: ============== ".to_owned();
    output.append(module_name);
    output.append("\n");
    let ghost head = output@;
    let mut i: usize = 0;
    proof {
        assert(all.take(0) =~= Seq::<DepNode>::empty());
        assert(output@ =~= head + deps_text(*info, *snapshot, all.take(0), reachable@));
    }
    while i < graph.nodes.len()
        invariant
            i <= all.len(),
            all == graph.nodes@,
            is_readable(*info, *snapshot),
            graph_known(*info, *snapshot, *graph),
            reachable.wf(),
            output@ == head + deps_text(*info, *snapshot, all.take(i as int), reachable@),
        decreases all.len() - i,
    {
        let ghost before = output@;
        let node = &graph.nodes[i];
        assert(*node == graph.nodes@[i as int]);
        proof {
            assert(all.take(i + 1).drop_last() =~= all.take(i as int));
            assert(all.take(i + 1).last() == all[i as int]);
        }
        if reachable.contains(node.node) {
            let symbol = format_symbol(info, snapshot, node.node);
            output.append("---");
            output.append(symbol.as_str());
            output.append("---\n");
            push_symbol_lines(&mut output, info, snapshot, &node.parents, "<==", " (parent)\n");
            output.append("-------------\n");
            push_symbol_lines(&mut output, info, snapshot, &node.children, "==>", "\n");
            proof {
                assert(output@ =~= before + dep_text(*info, *snapshot, all[i as int]));
                assert(output@ =~= head + deps_text(
                    *info,
                    *snapshot,
                    all.take(i + 1),
                    reachable@,
                ));
            }
        }
        i = i + 1;
    }
    assert(all.take(i as int) =~= all);
    let size = decimal_string(sum_sizes(info, snapshot, reachable.as_slice()));
    output.append("SPLIT: ============== ");
    output.append(module_name);
    output.append(" : total size: ");
    output.append(size.as_str());
    output.append("\n");
    assert(output@ =~= part_text(module_name@, *info, *snapshot, *graph, *reachable));
    output
}

/// The text of the name of a module as a value.
pub open spec fn module_value(name: ModuleName) -> Seq<char> {
    match name {
        None => "Main"@,
        Some(text) => "Split("@ + quoted(text) + ")"@,
    }
}

/// The texts of names of modules, with commas between them.
pub open spec fn module_values(names: Seq<ModuleName>) -> Seq<char>
    decreases names.len(),
{
    if names.len() == 0 {
        Seq::empty()
    } else if names.len() == 1 {
        module_value(names[0])
    } else {
        module_values(names.drop_last()) + ", "@ + module_value(names.last())
    }
}

/// The text of the name of an output module as a value.
pub open spec fn split_value(name: SplitName) -> Seq<char> {
    match name {
        SplitName::Single(name) => "Single("@ + module_value(name) + ")"@,
        SplitName::Shared(names) => "Shared(SharedModuleIdentifier(["@ + module_values(names)
            + "]))"@,
    }
}

fn module_string(module: &ModuleIdentifier) -> (r: String)
    ensures
        r@ == module_value(module@),
{
    match module {
        ModuleIdentifier::Main => "Main".to_owned(),
        ModuleIdentifier::Split(name) => {
            let mut text = "Split(".to_owned();
            let shown = quote(name.as_str());
            text.append(shown.as_str());
            text.append(")");
            text
        },
    }
}

fn split_string(id: &SplitModuleIdentifier) -> (r: String)
    ensures
        r@ == split_value(id@),
{
    match id {
        SplitModuleIdentifier::Single(module) => {
            let mut text = "Single(".to_owned();
            let shown = module_string(module);
            text.append(shown.as_str());
            text.append(")");
            text
        },
        SplitModuleIdentifier::Shared(shared) => {
            let ghost names = shared@;
            let mut list = String::new();
            let mut i: usize = 0;
            assert(names.take(0) =~= Seq::<ModuleName>::empty());
            while i < shared.0.len()
                invariant
                    i <= shared.0@.len() == names.len(),
                    names == shared@,
                    list@ == module_values(names.take(i as int)),
                decreases shared.0@.len() - i,
            {
                let ghost before = list@;
                if i > 0 {
                    list.append(", ");
                }
                let shown = module_string(&shared.0[i]);
                list.append(shown.as_str());
                proof {
                    assert(names.take(i + 1).drop_last() =~= names.take(i as int));
                    assert(names.take(i + 1).last() == shared.0@[i as int]@);
                    assert(list@ =~= module_values(names.take(i + 1)));
                }
                i = i + 1;
            }
            assert(names.take(i as int) =~= names);
            let mut text = "Shared(SharedModuleIdentifier([".to_owned();
            text.append(list.as_str());
            text.append("]))");
            text
        },
    }
}

/// The texts of the entities of a list, each on a line.
pub open spec fn name_lines(
    module: Module,
    snapshot: EntitiesSnapshot,
    list: Seq<FlatEntityRef>,
) -> Seq<char>
    decreases list.len(),
{
    if list.len() == 0 {
        Seq::empty()
    } else {
        name_lines(module, snapshot, list.drop_last()) + ("    "@ + plain_symbol_text(
            list.last(),
            demangled(entity_name(module, unpacked(snapshot, list.last()))),
        ) + "\n"@)
    }
}

fn push_name_lines(
    text: &mut String,
    info: &Module,
    snapshot: &EntitiesSnapshot,
    list: &[FlatEntityRef],
)
    requires
        is_readable(*info, *snapshot),
        all_known(*info, *snapshot, list@),
    ensures
        final(text)@ == old(text)@ + name_lines(*info, *snapshot, list@),
{
    let ghost start = text@;
    let ghost all = list@;
    let mut i: usize = 0;
    proof {
        assert(all.take(0) =~= Seq::<FlatEntityRef>::empty());
        assert(text@ =~= start + name_lines(*info, *snapshot, all.take(0)));
    }
    while i < list.len()
        invariant
            i <= all.len(),
            all == list@,
            is_readable(*info, *snapshot),
            all_known(*info, *snapshot, all),
            text@ == start + name_lines(*info, *snapshot, all.take(i as int)),
        decreases all.len() - i,
    {
        assert(is_known(*info, *snapshot, all[i as int]));
        let entity = unpack(snapshot, list[i]);
        let own = info.get_name(entity);
        let name = demangle_full(own.as_str());
        let symbol = plain_symbol_string(list[i], &name);
        text.append("    ");
        text.append(symbol.as_str());
        text.append("\n");
        proof {
            assert(all.take(i + 1).drop_last() =~= all.take(i as int));
            assert(all.take(i + 1).last() == all[i as int]);
            assert(text@ =~= start + name_lines(*info, *snapshot, all.take(i + 1)));
        }
        i = i + 1;
    }
    assert(all.take(i as int) =~= all);
}

/// A heading with a number, and the entities of a set below it.
pub open spec fn section_text(
    module: Module,
    snapshot: EntitiesSnapshot,
    heading: Seq<char>,
    set: EntitySet,
) -> Seq<char> {
    heading + decimal(set.seq().len()) + "\n"@ + name_lines(module, snapshot, set.seq())
}

/// A heading with a number, and the entities of a set below it, if there are any.
pub open spec fn optional_section(
    module: Module,
    snapshot: EntitiesSnapshot,
    heading: Seq<char>,
    set: EntitySet,
) -> Seq<char> {
    if set.seq().len() == 0 {
        Seq::empty()
    } else {
        section_text(module, snapshot, heading, set)
    }
}

fn push_section(
    text: &mut String,
    info: &Module,
    snapshot: &EntitiesSnapshot,
    heading: &str,
    set: &EntitySet,
)
    requires
        is_readable(*info, *snapshot),
        all_known(*info, *snapshot, set.seq()),
    ensures
        final(text)@ == old(text)@ + section_text(*info, *snapshot, heading@, *set),
{
    let ghost start = text@;
    text.append(heading);
    let count = decimal_string(set.len() as u64);
    text.append(count.as_str());
    text.append("\n");
    push_name_lines(text, info, snapshot, set.as_slice());
    assert(text@ =~= start + section_text(*info, *snapshot, heading@, *set));
}

/// The identifiers of split points, each on a line.
pub open spec fn point_lines(points: Seq<SplitPoint>) -> Seq<char>
    decreases points.len(),
{
    if points.len() == 0 {
        Seq::empty()
    } else {
        point_lines(points.drop_last()) + ("    "@ + quoted(points.last().unique_id@) + "\n"@)
    }
}

/// The number of split points, and their identifiers, if there are any.
pub open spec fn points_text(points: Seq<SplitPoint>) -> Seq<char> {
    if points.len() == 0 {
        Seq::empty()
    } else {
        "  Split points: "@ + decimal(points.len()) + "\n"@ + point_lines(points)
    }
}

fn push_points(text: &mut String, points: &Vec<SplitPoint>)
    ensures
        final(text)@ == old(text)@ + points_text(points@),
{
    let ghost start = text@;
    if points.len() == 0 {
        assert(text@ =~= start + points_text(points@));
        return;
    }
    text.append("  Split points: ");
    let count = decimal_string(points.len() as u64);
    text.append(count.as_str());
    text.append("\n");
    let ghost head = text@;
    let ghost all = points@;
    let mut i: usize = 0;
    proof {
        assert(all.take(0) =~= Seq::<SplitPoint>::empty());
        assert(text@ =~= head + point_lines(all.take(0)));
    }
    while i < points.len()
        invariant
            i <= all.len(),
            all == points@,
            text@ == head + point_lines(all.take(i as int)),
        decreases all.len() - i,
    {
        let shown = quote(points[i].unique_id.as_str());
        text.append("    ");
        text.append(shown.as_str());
        text.append("\n");
        proof {
            assert(all.take(i + 1).drop_last() =~= all.take(i as int));
            assert(all.take(i + 1).last() == all[i as int]);
            assert(text@ =~= head + point_lines(all.take(i + 1)));
        }
        i = i + 1;
    }
    proof {
        assert(all.take(i as int) =~= all);
        assert(text@ =~= start + points_text(points@));
    }
}

/// Whether all entities of an output module are entities of a module.
pub open spec fn output_known(
    module: Module,
    snapshot: EntitiesSnapshot,
    output: NamedModule,
) -> bool {
    &&& all_known(module, snapshot, output.1.defined_symbols.seq())
    &&& all_known(module, snapshot, output.1.imports.seq())
    &&& all_known(module, snapshot, output.1.exports.seq())
}

/// The text of an output module.
pub open spec fn output_text(
    module: Module,
    snapshot: EntitiesSnapshot,
    number: nat,
    output: NamedModule,
) -> Seq<char> {
    "Module #"@ + decimal(number) + ": "@ + split_value(output.0@) + "\n"@ + section_text(
        module,
        snapshot,
        "  Defined symbols: "@,
        output.1.defined_symbols,
    ) + optional_section(module, snapshot, "  Imports: "@, output.1.imports) + optional_section(
        module,
        snapshot,
        "  Exports: "@,
        output.1.exports,
    ) + points_text(output.1.split_points@) + "\n"@
}

fn push_output(
    text: &mut String,
    info: &Module,
    snapshot: &EntitiesSnapshot,
    number: usize,
    output: &NamedModule,
)
    requires
        is_readable(*info, *snapshot),
        output_known(*info, *snapshot, *output),
    ensures
        final(text)@ == old(text)@ + output_text(*info, *snapshot, number as nat, *output),
{
    let ghost start = text@;
    text.append("Module #");
    let shown = decimal_string(number as u64);
    text.append(shown.as_str());
    text.append(": ");
    let id = split_string(&output.0);
    text.append(id.as_str());
    text.append("\n");
    push_section(text, info, snapshot, "  Defined symbols: ", &output.1.defined_symbols);
    let ghost defined = text@;
    if output.1.imports.len() > 0 {
        push_section(text, info, snapshot, "  Imports: ", &output.1.imports);
    }
    let ghost imports = text@;
    assert(imports =~= defined + optional_section(
        *info,
        *snapshot,
        "  Imports: "@,
        output.1.imports,
    ));
    if output.1.exports.len() > 0 {
        push_section(text, info, snapshot, "  Exports: ", &output.1.exports);
    }
    assert(text@ =~= imports + optional_section(
        *info,
        *snapshot,
        "  Exports: "@,
        output.1.exports,
    ));
    push_points(text, &output.1.split_points);
    text.append("\n");
    assert(text@ =~= start + output_text(*info, *snapshot, number as nat, *output));
}

/// The text of output modules.
pub open spec fn outputs_text(
    module: Module,
    snapshot: EntitiesSnapshot,
    outputs: Seq<NamedModule>,
) -> Seq<char>
    decreases outputs.len(),
{
    if outputs.len() == 0 {
        Seq::empty()
    } else {
        outputs_text(module, snapshot, outputs.drop_last()) + output_text(
            module,
            snapshot,
            (outputs.len() - 1) as nat,
            outputs.last(),
        )
    }
}

/// The text of a split program, module by module.
pub fn format_split_program_info(
    split_info: &SplitProgramInfo,
    info: &Module,
    snapshot: &EntitiesSnapshot,
) -> (r: String)
    requires
        is_readable(*info, *snapshot),
        forall|i: int|
            0 <= i < split_info.output_modules@.len() ==> output_known(
                *info,
                *snapshot,
                #[trigger] split_info.output_modules@[i],
            ),
    ensures
        r@ == "=== Split Program Structure ===\n\n"@ + outputs_text(
            *info,
            *snapshot,
            split_info.output_modules@,
        ),
{
    let ghost all = split_info.output_modules@;
    let mut output = "=== Split Program Structure ===\n\n".to_owned();
    let ghost head = output@;
    let mut i: usize = 0;
    proof {
        assert(all.take(0) =~= Seq::<NamedModule>::empty());
        assert(output@ =~= head + outputs_text(*info, *snapshot, all.take(0)));
    }
    while i < split_info.output_modules.len()
        invariant
            i <= all.len(),
            all == split_info.output_modules@,
            is_readable(*info, *snapshot),
            forall|i: int|
                0 <= i < all.len() ==> output_known(*info, *snapshot, #[trigger] all[i]),
            output@ == head + outputs_text(*info, *snapshot, all.take(i as int)),
        decreases all.len() - i,
    {
        assert(output_known(*info, *snapshot, all[i as int]));
        push_output(&mut output, info, snapshot, i, &split_info.output_modules[i]);
        proof {
            assert(all.take(i + 1).drop_last() =~= all.take(i as int));
            assert(all.take(i + 1).last() == all[i as int]);
            assert(output@ =~= head + outputs_text(*info, *snapshot, all.take(i + 1)));
        }
        i = i + 1;
    }
    assert(all.take(i as int) =~= all);
    output
}

/// Whether texts are those of the numbers of entities.
pub open spec fn are_flat_texts(texts: Seq<String>, list: Seq<FlatEntityRef>) -> bool {
    &&& texts.len() == list.len()
    &&& forall|i: int| 0 <= i < texts.len() ==> (#[trigger] texts[i])@ == flat_text(list[i])
}

/// Whether a text is a table of the entities of a set.
pub open spec fn is_set_table(label: Seq<char>, set: EntitySet, text: Seq<char>) -> bool {
    exists|texts: Seq<String>| #[trigger]
        are_flat_texts(texts, set.seq()) && text == table_text(label, texts)
}

fn set_table(label: &str, set: &EntitySet) -> (r: String)
    ensures
        is_set_table(label@, *set, r@),
{
    let list = set.as_slice();
    let mut texts: Vec<String> = Vec::new();
    let mut i: usize = 0;
    while i < list.len()
        invariant
            i <= list@.len(),
            list@ == set.seq(),
            texts@.len() == i,
            forall|j: int| 0 <= j < i ==> (#[trigger] texts@[j])@ == flat_text(list@[j]),
        decreases list@.len() - i,
    {
        texts.push(flat_string(list[i]));
        i = i + 1;
    }
    let mut out = String::new();
    fmt_table(&mut out, label, &texts);
    proof {
        assert(are_flat_texts(texts@, set.seq()));
        assert(out@ =~= table_text(label@, texts@));
    }
    out
}

/// Whether texts are tables of what a module needs of other modules.
pub open spec fn are_dep_tables(
    deps: Seq<(SharedModuleIdentifier, EntitySet)>,
    texts: Seq<Seq<char>>,
) -> bool {
    &&& texts.len() == deps.len()
    &&& forall|i: int|
        0 <= i < deps.len() ==> is_set_table(
            split_value(SplitName::Shared(deps[i].0@)),
            deps[i].1,
            #[trigger] texts[i],
        )
}

/// Texts behind one another.
pub open spec fn joined(texts: Seq<Seq<char>>) -> Seq<char>
    decreases texts.len(),
{
    if texts.len() == 0 {
        Seq::empty()
    } else {
        joined(texts.drop_last()) + texts.last()
    }
}

/// The text of a split point as a value.
pub open spec fn point_value(point: SplitPoint) -> Seq<char> {
    "SplitPoint { module_name: "@ + quoted(point.module_name@) + ", unique_id: "@ + quoted(
        point.unique_id@,
    ) + ", import_func: "@ + flat_text(point.import_func) + ", export_func: "@ + flat_text(
        point.export_func,
    ) + " }"@
}

/// The texts of split points, with commas between them.
pub open spec fn point_values(points: Seq<SplitPoint>) -> Seq<char>
    decreases points.len(),
{
    if points.len() == 0 {
        Seq::empty()
    } else if points.len() == 1 {
        point_value(points[0])
    } else {
        point_values(points.drop_last()) + ", "@ + point_value(points.last())
    }
}

/// Whether a text shows all entities of an output module.
pub open spec fn is_info_text(info: OutputModuleInfo, text: Seq<char>) -> bool {
    exists|defined: Seq<char>, imports: Seq<char>, exports: Seq<char>, deps: Seq<Seq<char>>|
        {
            &&& is_set_table("defined_symbols"@, info.defined_symbols, defined)
            &&& is_set_table("imports"@, info.imports, imports)
            &&& is_set_table("exports"@, info.exports, exports)
            &&& are_dep_tables(info.dependencies@, deps)
            &&& text == #[trigger] info_text(
                defined,
                imports,
                exports,
                deps,
                point_values(info.split_points@),
            )
        }
}

/// The text of an output module, made of tables.
pub open spec fn info_text(
    defined: Seq<char>,
    imports: Seq<char>,
    exports: Seq<char>,
    deps: Seq<Seq<char>>,
    points: Seq<char>,
) -> Seq<char> {
    "OutputModuleInfo {\n"@ + defined + imports + exports + "dependencies:\n"@ + (if deps.len()
        == 0 {
        "<empty>\n"@
    } else {
        joined(deps)
    }) + "  split_points: ["@ + points + "],\n}"@
}

fn point_string(point: &SplitPoint) -> (r: String)
    ensures
        r@ == point_value(*point),
{
    let mut text = "SplitPoint { module_name: ".to_owned();
    let module_name = quote(point.module_name.as_str());
    text.append(module_name.as_str());
    text.append(", unique_id: ");
    let unique_id = quote(point.unique_id.as_str());
    text.append(unique_id.as_str());
    text.append(", import_func: ");
    let import_func = flat_string(point.import_func);
    text.append(import_func.as_str());
    text.append(", export_func: ");
    let export_func = flat_string(point.export_func);
    text.append(export_func.as_str());
    text.append(" }");
    text
}

fn points_string(points: &Vec<SplitPoint>) -> (r: String)
    ensures
        r@ == point_values(points@),
{
    let ghost all = points@;
    let mut text = String::new();
    let mut i: usize = 0;
    assert(all.take(0) =~= Seq::<SplitPoint>::empty());
    while i < points.len()
        invariant
            i <= all.len(),
            all == points@,
            text@ == point_values(all.take(i as int)),
        decreases all.len() - i,
    {
        if i > 0 {
            text.append(", ");
        }
        let shown = point_string(&points[i]);
        text.append(shown.as_str());
        proof {
            assert(all.take(i + 1).drop_last() =~= all.take(i as int));
            assert(all.take(i + 1).last() == all[i as int]);
            assert(text@ =~= point_values(all.take(i + 1)));
        }
        i = i + 1;
    }
    assert(all.take(i as int) =~= all);
    text
}

impl OutputModuleInfo {
    /// A text that shows all entities of the module, in tables.
    pub fn to_text(&self) -> (r: String)
        ensures
            is_info_text(*self, r@),
    {
        let mut text = "OutputModuleInfo {\n".to_owned();
        let defined = set_table("defined_symbols", &self.defined_symbols);
        text.append(defined.as_str());
        let imports = set_table("imports", &self.imports);
        text.append(imports.as_str());
        let exports = set_table("exports", &self.exports);
        text.append(exports.as_str());
        text.append("dependencies:\n");
        let ghost head = text@;
        let ghost mut deps: Seq<Seq<char>> = Seq::empty();
        let mut i: usize = 0;
        assert(text@ =~= head + joined(deps));
        while i < self.dependencies.len()
            invariant
                i <= self.dependencies@.len(),
                deps.len() == i,
                forall|j: int|
                    0 <= j < i ==> is_set_table(
                        split_value(SplitName::Shared(self.dependencies@[j].0@)),
                        self.dependencies@[j].1,
                        #[trigger] deps[j],
                    ),
                text@ == head + joined(deps),
            decreases self.dependencies@.len() - i,
        {
            let label = split_string(
                &SplitModuleIdentifier::Shared(self.dependencies[i].0.clone()),
            );
            let table = set_table(label.as_str(), &self.dependencies[i].1);
            text.append(table.as_str());
            proof {
                let longer = deps.push(table@);
                assert(longer.drop_last() =~= deps);
                assert(text@ =~= head + joined(longer));
                deps = longer;
            }
            i = i + 1;
        }
        if self.dependencies.len() == 0 {
            text.append("<empty>\n");
        }
        text.append("  split_points: [");
        let points = points_string(&self.split_points);
        text.append(points.as_str());
        text.append("],\n}");
        proof {
            assert(text@ =~= info_text(defined@, imports@, exports@, deps, points@));
            assert(is_info_text(*self, text@));
        }
        text
    }
}

} // verus!
