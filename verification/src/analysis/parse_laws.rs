//! Which functions make split points.
use crate::analysis::names::{
    is_entry_name, is_marked, lemma_entry_name_is_unique, SPLIT_EXPORT_POSTFIX,
    SPLIT_IMPORT_POSTFIX,
};
use crate::analysis::parse::{
    are_split_points, entry_map, import_names, key_of, point_key, prefix_of, PointKey, SplitError,
};
use crate::analysis::split_point::{SplitPoint, SplitPointExtractor};
use crate::index::TempIndex;
use crate::typed::entities::exports_of;
use crate::typed::module::Module;
use vstd::prelude::*;

verus! {

/// The beginning of names of split points.
pub open spec fn beginning(extractor: SplitPointExtractor) -> Seq<char> {
    if extractor is Legacy {
        "__wasm_split_00"@
    } else {
        "__wamex_00"@
    }
}

/// A key of the map is that of a function with a marked name.
proof fn lemma_entries_have_names(
    prefix: Seq<char>,
    postfix: Seq<char>,
    names: Seq<(int, Seq<char>)>,
    key: PointKey,
)
    ensures
        entry_map(prefix, postfix, names).contains_key(key) ==> exists|k: int|
            {
                &&& 0 <= k < names.len()
                &&& (#[trigger] names[k]).0 == entry_map(prefix, postfix, names)[key]
                &&& is_entry_name(names[k].1, prefix, postfix, key.0, key.1)
            },
    decreases names.len(),
{
    if names.len() > 0 && entry_map(prefix, postfix, names).contains_key(key) {
        let init = names.drop_last();
        let n = names.len() - 1;
        lemma_entries_have_names(prefix, postfix, init, key);
        if is_marked(names[n].1, prefix, postfix) && key_of(names[n].1, prefix, postfix) == key {
            let (m, f) = choose|m: Seq<char>, f: Seq<char>|
                is_entry_name(names[n].1, prefix, postfix, m, f);
            let made: PointKey = (m, f);
            assert(is_entry_name(names[n].1, prefix, postfix, made.0, made.1));
            assert(names[n].0 == entry_map(prefix, postfix, names)[key]);
        } else {
            let k = choose|k: int|
                {
                    &&& 0 <= k < init.len()
                    &&& (#[trigger] init[k]).0 == entry_map(prefix, postfix, init)[key]
                    &&& is_entry_name(init[k].1, prefix, postfix, key.0, key.1)
                };
            assert(names[k] == init[k]);
        }
    }
}

/// A function with a marked name has a key of the map.
proof fn lemma_names_have_entries(
    prefix: Seq<char>,
    postfix: Seq<char>,
    names: Seq<(int, Seq<char>)>,
    k: int,
    key: PointKey,
)
    requires
        0 <= k < names.len(),
        is_entry_name(names[k].1, prefix, postfix, key.0, key.1),
    ensures
        entry_map(prefix, postfix, names).contains_key(key),
    decreases names.len(),
{
    if k == names.len() - 1 {
        let made = key_of(names[k].1, prefix, postfix);
        assert(is_entry_name(names[k].1, prefix, postfix, made.0, made.1));
        lemma_entry_name_is_unique(names[k].1, prefix, postfix, made, key);
    } else {
        assert(names.drop_last()[k] == names[k]);
        lemma_names_have_entries(prefix, postfix, names.drop_last(), k, key);
    }
}

/// A split point stands for an imported function and an exported one, whose names are the
/// beginning, the name of the module, a mark and the name of the function.
pub proof fn lemma_points_have_marked_names(
    info: Module,
    extractor: SplitPointExtractor,
    found: Vec<SplitPoint>,
    i: int,
)
    requires
        are_split_points(info, extractor, Ok(found)),
        0 <= i < found@.len(),
    ensures
        ({
            let point = found@[i];
            let import = point.import_func.id() as int;
            &&& import < info.functions@.imports.len()
            &&& info.functions@.imports[import].name@ == beginning(extractor) + (
            point.module_name@ + "00_import_"@ + point.unique_id@)
            &&& exists|k: int|
                {
                    &&& 0 <= k < exports_of(info.functions@).len()
                    &&& (#[trigger] exports_of(info.functions@)[k]).0 == point.export_func.id()
                    &&& exports_of(info.functions@)[k].1 == beginning(extractor) + (
                    point.module_name@ + "00_export_"@ + point.unique_id@)
                }
        }),
{
    let key = point_key(found@[i]);
    let imports = import_names(info.functions@.imports);
    let exports = exports_of(info.functions@);
    let prefix = prefix_of(extractor);
    lemma_entries_have_names(prefix, SPLIT_IMPORT_POSTFIX@, imports, key);
    lemma_entries_have_names(prefix, SPLIT_EXPORT_POSTFIX@, exports, key);
}

/// Every imported function with a marked name makes a split point.
pub proof fn lemma_marked_imports_are_found(
    info: Module,
    extractor: SplitPointExtractor,
    found: Vec<SplitPoint>,
    import: int,
    module_name: Seq<char>,
    unique_id: Seq<char>,
)
    requires
        are_split_points(info, extractor, Ok(found)),
        0 <= import < info.functions@.imports.len(),
        is_entry_name(
            info.functions@.imports[import].name@,
            beginning(extractor),
            "00_import_"@,
            module_name,
            unique_id,
        ),
    ensures
        exists|i: int|
            {
                &&& 0 <= i < found@.len()
                &&& (#[trigger] found@[i]).module_name@ == module_name
                &&& found@[i].unique_id@ == unique_id
            },
{
    let key: PointKey = (module_name, unique_id);
    let imports = import_names(info.functions@.imports);
    lemma_names_have_entries(prefix_of(extractor), SPLIT_IMPORT_POSTFIX@, imports, import, key);
    let i = choose|i: int| 0 <= i < found@.len() && point_key(#[trigger] found@[i]) == key;
    assert(found@[i].module_name@ == module_name);
}

/// The search fails only for an imported function with a marked name that no exported one belongs
/// to.
pub proof fn lemma_missing_exports_are_reported(
    info: Module,
    extractor: SplitPointExtractor,
    module_name: String,
    unique_id: String,
)
    requires
        are_split_points(info, extractor, Err(SplitError::NoExport { module_name, unique_id })),
    ensures
        exists|import: int|
            {
                &&& 0 <= import < info.functions@.imports.len()
                &&& (#[trigger] info.functions@.imports[import]).name@ == beginning(extractor) + (
                module_name@ + "00_import_"@ + unique_id@)
            },
        forall|k: int|
            0 <= k < exports_of(info.functions@).len() ==> !is_entry_name(
                (#[trigger] exports_of(info.functions@)[k]).1,
                beginning(extractor),
                "00_export_"@,
                module_name@,
                unique_id@,
            ),
{
    let key: PointKey = (module_name@, unique_id@);
    let imports = import_names(info.functions@.imports);
    let exports = exports_of(info.functions@);
    let prefix = prefix_of(extractor);
    lemma_entries_have_names(prefix, SPLIT_IMPORT_POSTFIX@, imports, key);
    let k = choose|k: int|
        {
            &&& 0 <= k < imports.len()
            &&& (#[trigger] imports[k]).0 == entry_map(prefix, SPLIT_IMPORT_POSTFIX@, imports)[key]
            &&& is_entry_name(imports[k].1, prefix, SPLIT_IMPORT_POSTFIX@, key.0, key.1)
        };
    assert(info.functions@.imports[k].name@ == imports[k].1);
    assert forall|k: int| 0 <= k < exports.len() implies !is_entry_name(
        (#[trigger] exports[k]).1,
        beginning(extractor),
        "00_export_"@,
        module_name@,
        unique_id@,
    ) by {
        if is_entry_name(exports[k].1, prefix, SPLIT_EXPORT_POSTFIX@, key.0, key.1) {
            lemma_names_have_entries(prefix, SPLIT_EXPORT_POSTFIX@, exports, k, key);
        }
    }
}

} // verus!
