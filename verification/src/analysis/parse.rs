//! Finds the split points of a module.
use crate::analysis::names::{
    is_entry_name, is_marked, lemma_entry_name_is_unique, lemma_text_less_is_asymmetric,
    lemma_text_less_is_transitive, parser, text_less, text_order, SPLIT_EXPORT_POSTFIX,
    SPLIT_IMPORT_POSTFIX, TextOrder, WAMEX_ENTRY_PREFIX,
};
use crate::analysis::split_point::{SplitPoint, SplitPointExtractor};
use crate::index::TempIndex;
use crate::typed::entities::{export_numbers, exports_of, lemma_exports_are_entities};
use crate::typed::module::{ImportedFunction, Module};
use crate::typed::snapshot::EntitiesSnapshot;
use crate::typed::{EntityKind, FunctionRef};
use vstd::prelude::*;

verus! {

/// The module name and the function name of a split point.
pub type PointKey = (Seq<char>, Seq<char>);

/// Whether a key comes before another one: by the module names, and then by the function names.
pub open spec fn key_less(a: PointKey, b: PointKey) -> bool {
    text_less(a.0, b.0) || a.0 == b.0 && text_less(a.1, b.1)
}

proof fn lemma_key_less_is_asymmetric(a: PointKey, b: PointKey)
    requires
        key_less(a, b),
    ensures
        a != b,
        !key_less(b, a),
{
    if text_less(a.0, b.0) {
        lemma_text_less_is_asymmetric(a.0, b.0);
    } else {
        lemma_text_less_is_asymmetric(a.1, b.1);
        if text_less(b.0, a.0) {
            lemma_text_less_is_asymmetric(b.0, a.0);
        }
    }
}

proof fn lemma_key_less_is_transitive(a: PointKey, b: PointKey, c: PointKey)
    requires
        key_less(a, b),
        key_less(b, c),
    ensures
        key_less(a, c),
{
    if text_less(a.0, b.0) && text_less(b.0, c.0) {
        lemma_text_less_is_transitive(a.0, b.0, c.0);
    } else if a.0 == b.0 && b.0 == c.0 {
        lemma_text_less_is_transitive(a.1, b.1, c.1);
    }
}

/// The names of a split point, taken out of a marked name.
pub open spec fn key_of(name: Seq<char>, prefix: Seq<char>, postfix: Seq<char>) -> PointKey {
    choose|key: PointKey| is_entry_name(name, prefix, postfix, key.0, key.1)
}

/// The functions with marked names, by the names of their split points. The last function with a
/// name counts.
pub open spec fn entry_map(
    prefix: Seq<char>,
    postfix: Seq<char>,
    names: Seq<(int, Seq<char>)>,
) -> Map<PointKey, int>
    decreases names.len(),
{
    if names.len() == 0 {
        Map::empty()
    } else {
        let rest = entry_map(prefix, postfix, names.drop_last());
        if is_marked(names.last().1, prefix, postfix) {
            rest.insert(key_of(names.last().1, prefix, postfix), names.last().0)
        } else {
            rest
        }
    }
}

/// A function with the names of its split point.
struct Entry {
    module_name: String,
    unique_id: String,
    id: FunctionRef,
}

impl Entry {
    spec fn key(self) -> PointKey {
        (self.module_name@, self.unique_id@)
    }
}

/// Whether entries hold a map, in the order of the keys.
spec fn hold_map(entries: Seq<Entry>, map: Map<PointKey, int>) -> bool {
    &&& forall|i: int, j: int|
        #![trigger entries[i], entries[j]]
        0 <= i < j < entries.len() ==> key_less(entries[i].key(), entries[j].key())
    &&& forall|i: int|
        0 <= i < entries.len() ==> map.contains_key((#[trigger] entries[i]).key())
            && map[entries[i].key()] == entries[i].id.id()
    &&& forall|key: PointKey| #[trigger]
        map.contains_key(key) ==> exists|i: int|
            0 <= i < entries.len() && (#[trigger] entries[i]).key() == key
}

/// How two keys are ordered.
fn key_order(a: (&str, &str), b: (&str, &str)) -> (r: TextOrder)
    ensures
        match r {
            TextOrder::Less => key_less((a.0@, a.1@), (b.0@, b.1@)),
            TextOrder::Equal => (a.0@, a.1@) == (b.0@, b.1@),
            TextOrder::Greater => key_less((b.0@, b.1@), (a.0@, a.1@)),
        },
{
    match text_order(a.0, b.0) {
        TextOrder::Equal => text_order(a.1, b.1),
        order => order,
    }
}

/// The number of entries before a key, and whether there is an entry for the key.
fn find_entry(
    entries: &Vec<Entry>,
    module_name: &str,
    unique_id: &str,
    Ghost(map): Ghost<Map<PointKey, int>>,
) -> (r: (usize, bool))
    requires
        hold_map(entries@, map),
    ensures
        r.0 <= entries@.len(),
        r.1 == map.contains_key((module_name@, unique_id@)),
        r.1 ==> r.0 < entries@.len() && entries@[r.0 as int].key() == (module_name@, unique_id@),
        forall|i: int|
            0 <= i < r.0 ==> key_less(
                (#[trigger] entries@[i]).key(),
                (module_name@, unique_id@),
            ),
        !r.1 ==> forall|i: int|
            r.0 <= i < entries@.len() ==> key_less(
                (module_name@, unique_id@),
                (#[trigger] entries@[i]).key(),
            ),
{
    let ghost key = (module_name@, unique_id@);
    let mut i: usize = 0;
    while i < entries.len()
        invariant
            i <= entries@.len(),
            hold_map(entries@, map),
            key == (module_name@, unique_id@),
            forall|j: int| 0 <= j < i ==> key_less((#[trigger] entries@[j]).key(), key),
        decreases entries@.len() - i,
    {
        let entry = &entries[i];
        match key_order(
            (entry.module_name.as_str(), entry.unique_id.as_str()),
            (module_name, unique_id),
        ) {
            TextOrder::Less => {},
            TextOrder::Equal => {
                assert(map.contains_key(entries@[i as int].key()));
                return (i, true);
            },
            TextOrder::Greater => {
                proof {
                    assert forall|j: int| i <= j < entries@.len() implies key_less(
                        key,
                        (#[trigger] entries@[j]).key(),
                    ) by {
                        if j > i {
                            lemma_key_less_is_transitive(
                                key,
                                entries@[i as int].key(),
                                entries@[j].key(),
                            );
                        }
                    }
                    lemma_missing_key(entries@, map, key, i as int);
                }
                return (i, false);
            },
        }
        i = i + 1;
    }
    proof {
        lemma_missing_key(entries@, map, key, i as int);
    }
    (i, false)
}

proof fn lemma_missing_key(entries: Seq<Entry>, map: Map<PointKey, int>, key: PointKey, at: int)
    requires
        hold_map(entries, map),
        0 <= at <= entries.len(),
        forall|j: int| 0 <= j < at ==> key_less((#[trigger] entries[j]).key(), key),
        forall|j: int| at <= j < entries.len() ==> key_less(key, (#[trigger] entries[j]).key()),
    ensures
        !map.contains_key(key),
{
    if map.contains_key(key) {
        let j = choose|j: int| 0 <= j < entries.len() && (#[trigger] entries[j]).key() == key;
        if j < at {
            lemma_key_less_is_asymmetric(entries[j].key(), key);
        } else {
            lemma_key_less_is_asymmetric(key, entries[j].key());
        }
    }
}

/// Adds an entry, in place of one with the same key.
fn put_entry(
    entries: &mut Vec<Entry>,
    module_name: &str,
    unique_id: &str,
    id: FunctionRef,
    Ghost(map): Ghost<Map<PointKey, int>>,
)
    requires
        hold_map(old(entries)@, map),
    ensures
        hold_map(final(entries)@, map.insert((module_name@, unique_id@), id.id() as int)),
{
    let ghost before = entries@;
    let ghost key = (module_name@, unique_id@);
    let (at, found) = find_entry(entries, module_name, unique_id, Ghost(map));
    let entry = Entry { module_name: module_name.to_owned(), unique_id: unique_id.to_owned(), id };
    assert(entry.key() == key);
    if found {
        entries.set(at, entry);
        proof {
            let after = entries@;
            let new_map = map.insert(key, id.id() as int);
            assert forall|i: int, j: int|
                #![trigger after[i], after[j]]
                0 <= i < j < after.len() implies key_less(after[i].key(), after[j].key()) by {
                assert(key_less(before[i].key(), before[j].key()));
            }
            assert forall|i: int| 0 <= i < after.len() implies new_map.contains_key((
            #[trigger] after[i]).key()) && new_map[after[i].key()] == after[i].id.id() by {
                if i != at {
                    assert(map.contains_key(before[i].key()));
                    if i < at {
                        lemma_key_less_is_asymmetric(before[i].key(), before[at as int].key());
                    } else {
                        lemma_key_less_is_asymmetric(before[at as int].key(), before[i].key());
                    }
                }
            }
            assert forall|k: PointKey| #[trigger] new_map.contains_key(k) implies exists|i: int|
                0 <= i < after.len() && (#[trigger] after[i]).key() == k by {
                if k == key {
                    assert(after[at as int].key() == k);
                } else {
                    let i = choose|i: int| 0 <= i < before.len() && (#[trigger] before[i]).key() == k;
                    assert(after[i].key() == k);
                }
            }
        }
    } else {
        entries.insert(at, entry);
        proof {
            let after = entries@;
            let new_map = map.insert(key, id.id() as int);
            assert forall|i: int, j: int|
                #![trigger after[i], after[j]]
                0 <= i < j < after.len() implies key_less(after[i].key(), after[j].key()) by {
                let a = if i < at {
                    i
                } else {
                    i - 1
                };
                let b = if j < at {
                    j
                } else {
                    j - 1
                };
                if i != at && j != at {
                    assert(key_less(before[a].key(), before[b].key()));
                } else if i == at {
                    assert(key_less(key, before[b].key()));
                } else {
                    assert(key_less(before[a].key(), key));
                }
            }
            assert forall|i: int| 0 <= i < after.len() implies new_map.contains_key((
            #[trigger] after[i]).key()) && new_map[after[i].key()] == after[i].id.id() by {
                if i != at {
                    let a = if i < at {
                        i
                    } else {
                        i - 1
                    };
                    assert(after[i] == before[a]);
                    assert(map.contains_key(before[a].key()));
                }
            }
            assert forall|k: PointKey| #[trigger] new_map.contains_key(k) implies exists|i: int|
                0 <= i < after.len() && (#[trigger] after[i]).key() == k by {
                if k == key {
                    assert(after[at as int].key() == k);
                } else {
                    let i = choose|i: int| 0 <= i < before.len() && (#[trigger] before[i]).key() == k;
                    if i < at {
                        assert(after[i].key() == k);
                    } else {
                        assert(after[i + 1].key() == k);
                    }
                }
            }
        }
    }
}

/// Collects the functions with marked names.
fn parse_entries(prefix: &str, postfix: &str, collection: &Vec<(FunctionRef, &str)>) -> (r: Vec<Entry>)
    ensures
        hold_map(r@, entry_map(prefix@, postfix@, export_numbers(collection@))),
{
    let ghost names = export_numbers(collection@);
    let mut entries: Vec<Entry> = Vec::new();
    let mut i: usize = 0;
    assert(names.take(0) =~= Seq::<(int, Seq<char>)>::empty());
    while i < collection.len()
        invariant
            i <= names.len(),
            names == export_numbers(collection@),
            hold_map(entries@, entry_map(prefix@, postfix@, names.take(i as int))),
        decreases names.len() - i,
    {
        let (id, name) = collection[i];
        let ghost map = entry_map(prefix@, postfix@, names.take(i as int));
        proof {
            assert(names.take(i + 1).drop_last() =~= names.take(i as int));
            assert(names.take(i + 1).last() == (id.id() as int, name@));
        }
        if let Some((module_name, unique_id)) = parser(name, prefix, postfix) {
            proof {
                let key = (module_name@, unique_id@);
                assert(is_entry_name(name@, prefix@, postfix@, key.0, key.1));
                lemma_entry_name_is_unique(
                    name@,
                    prefix@,
                    postfix@,
                    key,
                    key_of(name@, prefix@, postfix@),
                );
            }
            put_entry(&mut entries, module_name, unique_id, id, Ghost(map));
        }
        i = i + 1;
    }
    assert(names.take(i as int) =~= names);
    entries
}

/// Why split points cannot be found.
#[derive(Debug, PartialEq, Eq)]
pub enum SplitError {
    /// There is an import without the export that belongs to it.
    NoExport { module_name: String, unique_id: String },
}

/// The names of imported functions.
pub open spec fn import_names(imports: Seq<ImportedFunction>) -> Seq<(int, Seq<char>)> {
    Seq::new(imports.len(), |i: int| (i, imports[i].name@))
}

/// The names of a split point.
pub open spec fn point_key(point: SplitPoint) -> PointKey {
    (point.module_name@, point.unique_id@)
}

/// Whether there is a split point for every marked import, in the order of the names.
pub open spec fn are_all_found(
    imports: Map<PointKey, int>,
    exports: Map<PointKey, int>,
    points: Seq<SplitPoint>,
) -> bool {
    &&& forall|i: int, j: int|
        #![trigger points[i], points[j]]
        0 <= i < j < points.len() ==> key_less(point_key(points[i]), point_key(points[j]))
    &&& forall|i: int|
        0 <= i < points.len() ==> {
            let point = #[trigger] points[i];
            &&& imports.contains_key(point_key(point))
            &&& exports.contains_key(point_key(point))
            &&& point.import_func.id() == imports[point_key(point)]
            &&& point.export_func.id() == exports[point_key(point)]
        }
    &&& forall|key: PointKey| #[trigger]
        imports.contains_key(key) ==> exists|i: int|
            0 <= i < points.len() && point_key(#[trigger] points[i]) == key
}

/// Whether something is what the search for split points finds: a split point for every marked
/// import, in the order of the names, or the first import without an export.
pub open spec fn are_found(
    imports: Map<PointKey, int>,
    exports: Map<PointKey, int>,
    found: Result<Vec<SplitPoint>, SplitError>,
) -> bool {
    match found {
        Ok(points) => are_all_found(imports, exports, points@),
        Err(SplitError::NoExport { module_name, unique_id }) => {
            let missing = (module_name@, unique_id@);
            &&& imports.contains_key(missing)
            &&& !exports.contains_key(missing)
            &&& forall|key: PointKey| #[trigger]
                imports.contains_key(key) && key_less(key, missing) ==> exports.contains_key(key)
        },
    }
}

proof fn lemma_map_ids(prefix: Seq<char>, postfix: Seq<char>, names: Seq<(int, Seq<char>)>, bound: int)
    requires
        forall|k: int| 0 <= k < names.len() ==> 0 <= (#[trigger] names[k]).0 < bound,
    ensures
        forall|key: PointKey| #[trigger]
            entry_map(prefix, postfix, names).contains_key(key) ==> 0 <= entry_map(
                prefix,
                postfix,
                names,
            )[key] < bound,
    decreases names.len(),
{
    if names.len() > 0 {
        assert forall|k: int| 0 <= k < names.drop_last().len() implies 0 <= (
        #[trigger] names.drop_last()[k]).0 < bound by {
            assert(0 <= names[k].0 < bound);
        }
        lemma_map_ids(prefix, postfix, names.drop_last(), bound);
        assert(0 <= names[names.len() - 1].0 < bound);
        let rest = entry_map(prefix, postfix, names.drop_last());
        assert forall|key: PointKey| #[trigger]
            entry_map(prefix, postfix, names).contains_key(key) implies 0 <= entry_map(
            prefix,
            postfix,
            names,
        )[key] < bound by {
            if rest.contains_key(key) {
                assert(0 <= rest[key] < bound);
            }
        }
    }
}

/// The imported functions with their names.
fn named_imports(info: &Module) -> (r: Vec<(FunctionRef, &str)>)
    requires
        info.functions@.imports.len() < u32::MAX,
    ensures
        export_numbers(r@) == import_names(info.functions@.imports),
{
    let imports = info.functions.imports();
    let mut result: Vec<(FunctionRef, &str)> = Vec::new();
    let mut i: usize = 0;
    let ghost expected = import_names(imports@);
    assert(export_numbers(result@) =~= expected.take(0));
    while i < imports.len()
        invariant
            i <= imports@.len() < u32::MAX,
            expected == import_names(imports@),
            export_numbers(result@) == expected.take(i as int),
        decreases imports@.len() - i,
    {
        let ghost so_far = result@;
        result.push((FunctionRef::new(i), imports[i].name.as_str()));
        proof {
            assert(export_numbers(result@) =~= export_numbers(so_far).push(expected[i as int]));
            assert(expected.take(i + 1) =~= expected.take(i as int).push(expected[i as int]));
        }
        i = i + 1;
    }
    assert(expected.take(i as int) =~= expected);
    result
}

/// Pairs the imports and exports whose names have a prefix.
fn find_split_points_with_prefix(info: &Module, snapshot: &EntitiesSnapshot, prefix: &str) -> (r:
    Result<Vec<SplitPoint>, SplitError>)
    requires
        snapshot.fits(),
        info.functions@.imports.len() + info.functions@.defined.len() <= snapshot.functions,
    ensures
        are_found(
            entry_map(
                prefix@,
                SPLIT_IMPORT_POSTFIX@,
                import_names(info.functions@.imports),
            ),
            entry_map(prefix@, SPLIT_EXPORT_POSTFIX@, exports_of(info.functions@)),
            r,
        ),
{
    let imports = parse_entries(prefix, SPLIT_IMPORT_POSTFIX, &named_imports(info));
    let exports = parse_entries(prefix, SPLIT_EXPORT_POSTFIX, &info.functions.exports_iter());
    let ghost import_map = entry_map(
        prefix@,
        SPLIT_IMPORT_POSTFIX@,
        import_names(info.functions@.imports),
    );
    let ghost export_map = entry_map(prefix@, SPLIT_EXPORT_POSTFIX@, exports_of(info.functions@));
    proof {
        let bound = info.functions@.imports.len() + info.functions@.defined.len();
        lemma_map_ids(
            prefix@,
            SPLIT_IMPORT_POSTFIX@,
            import_names(info.functions@.imports),
            bound as int,
        );
        assert forall|k: int| 0 <= k < exports_of(info.functions@).len() implies 0 <= (
        #[trigger] exports_of(info.functions@)[k]).0 < bound by {
            lemma_exports_are_entities(info.functions@, k);
        }
        lemma_map_ids(
            prefix@,
            SPLIT_EXPORT_POSTFIX@,
            exports_of(info.functions@),
            bound as int,
        );
    }
    let mut points: Vec<SplitPoint> = Vec::new();
    let mut i: usize = 0;
    while i < imports.len()
        invariant
            i <= imports@.len(),
            snapshot.fits(),
            import_map == entry_map(
                prefix@,
                SPLIT_IMPORT_POSTFIX@,
                import_names(info.functions@.imports),
            ),
            export_map == entry_map(
                prefix@,
                SPLIT_EXPORT_POSTFIX@,
                exports_of(info.functions@),
            ),
            hold_map(imports@, import_map),
            hold_map(exports@, export_map),
            forall|key: PointKey| #[trigger]
                import_map.contains_key(key) ==> 0 <= import_map[key] < snapshot.functions,
            forall|key: PointKey| #[trigger]
                export_map.contains_key(key) ==> 0 <= export_map[key] < snapshot.functions,
            points@.len() == i,
            forall|j: int|
                0 <= j < i ==> {
                    let point = #[trigger] points@[j];
                    &&& point_key(point) == imports@[j].key()
                    &&& export_map.contains_key(point_key(point))
                    &&& point.import_func.id() == import_map[point_key(point)]
                    &&& point.export_func.id() == export_map[point_key(point)]
                },
        decreases imports@.len() - i,
    {
        let import = &imports[i];
        let ghost key = imports@[i as int].key();
        assert(import_map.contains_key(imports@[i as int].key()));
        let (at, found) = find_entry(
            &exports,
            import.module_name.as_str(),
            import.unique_id.as_str(),
            Ghost(export_map),
        );
        if !found {
            proof {
                assert forall|k: PointKey| #[trigger]
                    import_map.contains_key(k) && key_less(
                        k,
                        key,
                    ) implies export_map.contains_key(k) by {
                    let j = choose|j: int|
                        0 <= j < imports@.len() && (#[trigger] imports@[j]).key() == k;
                    if j < i {
                        assert(point_key(points@[j]) == k);
                    } else if j > i {
                        lemma_key_less_is_asymmetric(key, imports@[j].key());
                    } else {
                        lemma_key_less_is_asymmetric(k, key);
                    }
                }
            }
            return Err(
                SplitError::NoExport {
                    module_name: import.module_name.clone(),
                    unique_id: import.unique_id.clone(),
                },
            );
        }
        assert(export_map.contains_key(exports@[at as int].key()));
        let import_func = snapshot.pack_ref(EntityKind::Function(import.id));
        let export_func = snapshot.pack_ref(EntityKind::Function(exports[at].id));
        points.push(
            SplitPoint::new(
                import.module_name.clone(),
                import.unique_id.clone(),
                import_func,
                export_func,
            ),
        );
        i = i + 1;
    }
    proof {
        assert forall|a: int, b: int|
            #![trigger points@[a], points@[b]]
            0 <= a < b < points@.len() implies key_less(
            point_key(points@[a]),
            point_key(points@[b]),
        ) by {
            assert(key_less(imports@[a].key(), imports@[b].key()));
        }
        assert forall|j: int| 0 <= j < points@.len() implies {
            let point = #[trigger] points@[j];
            &&& import_map.contains_key(point_key(point))
            &&& export_map.contains_key(point_key(point))
            &&& point.import_func.id() == import_map[point_key(point)]
            &&& point.export_func.id() == export_map[point_key(point)]
        } by {
            assert(import_map.contains_key(imports@[j].key()));
        }
        assert forall|key: PointKey| #[trigger] import_map.contains_key(key) implies exists|j: int|
            0 <= j < points@.len() && point_key(#[trigger] points@[j]) == key by {
            let j = choose|j: int| 0 <= j < imports@.len() && (#[trigger] imports@[j]).key() == key;
            assert(point_key(points@[j]) == key);
        }
        assert(are_all_found(import_map, export_map, points@));
    }
    Ok(points)
}

/// The prefix of names of split points.
pub open spec fn prefix_of(extractor: SplitPointExtractor) -> Seq<char> {
    match extractor {
        SplitPointExtractor::Legacy => "__wasm_split_00"@,
        SplitPointExtractor::Wamex => WAMEX_ENTRY_PREFIX@,
    }
}

/// Whether something is what the search for split points of a kind finds in a module.
pub open spec fn are_split_points(
    info: Module,
    extractor: SplitPointExtractor,
    found: Result<Vec<SplitPoint>, SplitError>,
) -> bool {
    are_found(
        entry_map(
            prefix_of(extractor),
            SPLIT_IMPORT_POSTFIX@,
            import_names(info.functions@.imports),
        ),
        entry_map(prefix_of(extractor), SPLIT_EXPORT_POSTFIX@, exports_of(info.functions@)),
        found,
    )
}

/// Finds the split points whose names start with `__wasm_split_00`.
pub fn find_split_points_legacy(info: &Module, snapshot: &EntitiesSnapshot) -> (r: Result<
    Vec<SplitPoint>,
    SplitError,
>)
    requires
        snapshot.fits(),
        info.functions@.imports.len() + info.functions@.defined.len() <= snapshot.functions,
    ensures
        are_split_points(*info, SplitPointExtractor::Legacy, r),
{
    find_split_points_with_prefix(info, snapshot, "__wasm_split_00")
}

/// Finds the split points whose names start with `__wamex_00`.
fn find_split_points_wamex(info: &Module, snapshot: &EntitiesSnapshot) -> (r: Result<
    Vec<SplitPoint>,
    SplitError,
>)
    requires
        snapshot.fits(),
        info.functions@.imports.len() + info.functions@.defined.len() <= snapshot.functions,
    ensures
        are_split_points(*info, SplitPointExtractor::Wamex, r),
{
    find_split_points_with_prefix(info, snapshot, WAMEX_ENTRY_PREFIX)
}

/// Finds the split points of a module: the imported functions with marked names, and the exported
/// functions that belong to them.
pub fn find_split_points(
    info: &Module,
    snapshot: &EntitiesSnapshot,
    split_point_type: SplitPointExtractor,
) -> (r: Result<Vec<SplitPoint>, SplitError>)
    requires
        snapshot.fits(),
        info.functions@.imports.len() + info.functions@.defined.len() <= snapshot.functions,
    ensures
        are_split_points(*info, split_point_type, r),
{
    match split_point_type {
        SplitPointExtractor::Legacy => find_split_points_legacy(info, snapshot),
        SplitPointExtractor::Wamex => find_split_points_wamex(info, snapshot),
    }
}

} // verus!
