//! How output modules know of one another.
use crate::emit::plan::context::data_dep;
use crate::emit::plan::output::{
    are_got_imports, dep_gots, file_text, has_indirect, is_dyn_info, is_started, segment_kinds,
    OutputModule,
};
use crate::emit::plan::{DyLinkGots, DyLinkInfo, GotInfo};
use crate::emit::relocation::{ImportedDataDep, ModuleLayout};
use crate::index::{slot_at, GappedMap, TempIndex};
use crate::layouts::data::sealed::MemLayoutSealed;
use crate::layouts::data::DataSymbolRef;
use crate::layouts::elements::{element_start, stands_at};
use crate::typed::builder::{lemma_first_active_kind, ModuleBuilder};
use crate::typed::module::{ImportedGlobal, Module};
use crate::typed::snapshot::{FlatEntityRef, MultiSnapshot};
use crate::typed::{EntityKind, FileId, FunctionRef, GlobalRef};
use vstd::prelude::*;

verus! {

/// Whether a global is imported as a constant address.
pub open spec fn imports_address(
    globals: Seq<ImportedGlobal>,
    global: GlobalRef,
    module: Seq<char>,
    name: Seq<char>,
) -> bool {
    &&& global.id() < globals.len()
    &&& globals[global.id() as int].module@ == module
    &&& globals[global.id() as int].name@ == name
    &&& globals[global.id() as int].entity_type.content_type is I32
    &&& !globals[global.id() as int].entity_type.mutable
}

proof fn lemma_got_imports(imports: Seq<ImportedGlobal>, used: Seq<FileId>, i: int)
    requires
        are_got_imports(imports, used),
        used.len() < 0x4000_0000,
    ensures
        imports.len() == 2 * used.len() + 2,
        imports_address(imports, GlobalRef { id: 0 }, "env"@, "__memory_base"@),
        imports_address(imports, GlobalRef { id: 1 }, "env"@, "__table_base"@),
        0 <= i < used.len() ==> {
            &&& imports_address(
                imports,
                GlobalRef { id: (2 * i + 2) as u32 },
                file_text(used[i]),
                "__memory_base"@,
            )
            &&& imports_address(
                imports,
                GlobalRef { id: (2 * i + 3) as u32 },
                file_text(used[i]),
                "__table_base"@,
            )
        },
    decreases used.len(),
{
    if used.len() > 0 {
        let n = used.len() - 1;
        let rest = imports.take(imports.len() - 2);
        lemma_got_imports(rest, used.drop_last(), i);
        assert(imports.take(rest.len() as int) == rest);
        assert(imports[0] == rest[0]);
        assert(imports[1] == rest[1]);
        if 0 <= i < n {
            assert(used.drop_last()[i] == used[i]);
            assert(imports[2 * i + 2] == rest[2 * i + 2]);
            assert(imports[2 * i + 3] == rest[2 * i + 3]);
        }
    }
}

proof fn lemma_dep_gots(used: Seq<FileId>, i: int)
    requires
        0 <= i < used.len(),
        forall|j: int| i < j < used.len() ==> (#[trigger] used[j]).id() != used[i].id(),
    ensures
        slot_at(dep_gots(used), used[i].id() as nat) == Some(
            GotInfo {
                memory_base: GlobalRef { id: (2 * i + 2) as u32 },
                table_base: GlobalRef { id: (2 * i + 3) as u32 },
            },
        ),
    decreases used.len(),
{
    if i < used.len() - 1 {
        let init = used.drop_last();
        assert forall|j: int| i < j < init.len() implies (#[trigger] init[j]).id()
            != init[i].id() by {
            assert(used[j].id() != used[i].id());
        }
        lemma_dep_gots(init, i);
        assert(used[used.len() - 1].id() != used[i].id());
    }
}

/// A module that is loaded later imports its own bases, in memory and in the table, from the
/// environment, and those of the modules that it uses from these.
pub proof fn lemma_bases_are_imported(
    module: ModuleBuilder,
    layout: MemLayoutSealed,
    used_modules: Vec<FileId>,
    info: DyLinkGots,
    i: int,
)
    requires
        is_started(module, layout, DyLinkInfo::Dynamic { used_modules }),
        is_dyn_info(Some(info), DyLinkInfo::Dynamic { used_modules }),
        used_modules@.len() < 0x4000_0000,
        0 <= i < used_modules@.len(),
        forall|j: int|
            i < j < used_modules@.len() ==> (#[trigger] used_modules@[j]).id()
                != used_modules@[i].id(),
    ensures
        ({
            let globals = module.globals@.imports;
            let used = used_modules@[i];
            &&& imports_address(globals, info.our_got.memory_base, "env"@, "__memory_base"@)
            &&& imports_address(globals, info.our_got.table_base, "env"@, "__table_base"@)
            &&& info.deps.lookup(used) matches Some(got)
            &&& imports_address(globals, got.memory_base, file_text(used), "__memory_base"@)
            &&& imports_address(globals, got.table_base, file_text(used), "__table_base"@)
        }),
{
    lemma_got_imports(module.globals@.imports, used_modules@, i);
    lemma_dep_gots(used_modules@, i);
}

/// Data of another module is where the module that defines it says, from the base of that module in
/// memory on.
pub proof fn lemma_imported_data_is_where_it_is_defined(
    snapshot: MultiSnapshot,
    exports: GappedMap<FlatEntityRef, FileId>,
    modules: Seq<OutputModule>,
    layouts: Seq<ModuleLayout>,
    output: OutputModule,
    data: DataSymbolRef,
    dep: ImportedDataDep,
)
    requires
        data_dep(snapshot, exports, modules, layouts, output, data) == Some(dep),
    ensures
        ({
            let source = output.resolver.sources()[EntityKind::DataSymbol(data)];
            &&& output.resolver.sources().contains_key(EntityKind::DataSymbol(data))
            &&& exports.lookup(FlatEntityRef { id: snapshot.flat(source) as u32 }) matches Some(
                file,
            )
            &&& file.id() < modules.len()
            &&& modules[file.id() as int].resolver.outputs().contains_key(source)
            &&& modules[file.id() as int].resolver.outputs()[source] matches EntityKind::DataSymbol(
                d,
            )
            &&& layouts[file.id() as int].data_mapping.lookup(d) matches Some(place)
            &&& dep.output_location == place.offsets
            &&& output.dyn_info matches Some(info)
            &&& match info.deps.lookup(file) {
                Some(got) => dep.got_entry == Some(got.memory_base),
                None => dep.got_entry is None,
            }
        }),
{
}

/// Functions that are added to those that are called indirectly stand in the table behind those
/// that were there, and those keep their places.
pub proof fn lemma_indirect_functions_are_added(
    before: Module,
    fns: Seq<FunctionRef>,
    after: Module,
    function: FunctionRef,
    s: int,
    k: int,
    index: int,
)
    requires
        has_indirect(before, fns, after),
    ensures
        stands_at(before.extra.function_elements.segments@, function, s, k, index) ==> stands_at(
            after.extra.function_elements.segments@,
            function,
            s,
            k,
            index,
        ),
        before.extra.indirect_segment() == Some(s) && 0 <= k < fns.len() && fns[k] == function ==> {
            let parts = before.extra.function_elements.segments@[s].parts@.len();
            exists|i: int|
                #[trigger] stands_at(
                    after.extra.function_elements.segments@,
                    function,
                    s,
                    parts + k,
                    i,
                )
        },
        after.functions == before.functions,
{
    let old_segments = before.extra.function_elements.segments@;
    let segments = after.extra.function_elements.segments@;
    let t = before.extra.indirect_segment()->0;
    lemma_first_active_kind(segment_kinds(old_segments));
    if before.extra.indirect_segment() == Some(s) && 0 <= k < fns.len() && fns[k] == function {
        let parts = old_segments[s].parts@.len();
        assert(segments[s].parts@[parts + k] == function);
        let start = element_start(segments[s].kind);
        assert(stands_at(segments, function, s, parts + k, start + parts + k));
    }
}

} // verus!
