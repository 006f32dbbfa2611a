//! Split points, and the modules that a program is split into.
use crate::analysis::names::{
    inserted_by_text, is_text_place, lemma_inserted_at, lemma_sorted_by_text,
    lemma_text_less_is_asymmetric, lemma_text_less_is_transitive, sorted_by_text, text_less,
    text_order, TextOrder,
};
use crate::typed::snapshot::FlatEntityRef;
use vstd::prelude::*;
use vstd::string::StringExecFns;

verus! {

/// How split points are marked.
#[derive(Debug, PartialEq, Eq, Clone, Copy, Structural)]
pub enum SplitPointExtractor {
    /// By names that start with `__wasm_split_00`.
    Legacy,
    /// By names that start with `__wamex_00`.
    Wamex,
}

/// The entry of a part that is split off: the function that callers import, and the function that
/// does the work.
#[derive(Debug, PartialEq, Eq)]
pub struct SplitPoint {
    pub module_name: String,
    pub unique_id: String,
    pub import_func: FlatEntityRef,
    pub export_func: FlatEntityRef,
}

impl SplitPoint {
    pub fn new(
        module_name: String,
        unique_id: String,
        import_func: FlatEntityRef,
        export_func: FlatEntityRef,
    ) -> (r: Self)
        ensures
            r == (SplitPoint { module_name, unique_id, import_func, export_func }),
    {
        SplitPoint { module_name, unique_id, import_func, export_func }
    }

    pub fn import_func(&self) -> (r: FlatEntityRef)
        ensures
            r == self.import_func,
    {
        self.import_func
    }

    pub fn export_func(&self) -> (r: FlatEntityRef)
        ensures
            r == self.export_func,
    {
        self.export_func
    }
}

impl Clone for SplitPoint {
    fn clone(&self) -> (r: Self)
        ensures
            r == *self,
    {
        SplitPoint {
            module_name: self.module_name.clone(),
            unique_id: self.unique_id.clone(),
            import_func: self.import_func,
            export_func: self.export_func,
        }
    }
}

/// Name of a module: the main one, or one that is split off.
#[derive(Debug, PartialEq, Eq, PartialOrd, Ord, Hash)]
pub enum ModuleIdentifier {
    Main,
    Split(String),
}

/// The name of a module that is split off, or nothing for the main module.
pub type ModuleName = Option<Seq<char>>;

impl View for ModuleIdentifier {
    type V = ModuleName;

    open spec fn view(&self) -> ModuleName {
        match self {
            ModuleIdentifier::Main => None,
            ModuleIdentifier::Split(name) => Some(name@),
        }
    }
}

/// How a module is called.
pub open spec fn module_text(name: ModuleName) -> Seq<char> {
    match name {
        None => "main"@,
        Some(name) => name,
    }
}

impl ModuleIdentifier {
    /// Whether two modules have the same name.
    pub fn same(&self, other: &Self) -> (r: bool)
        ensures
            r == (self@ == other@),
    {
        match (self, other) {
            (ModuleIdentifier::Main, ModuleIdentifier::Main) => true,
            (ModuleIdentifier::Split(a), ModuleIdentifier::Split(b)) => *a == *b,
            _ => false,
        }
    }

    /// How the module is called.
    pub fn to_text(&self) -> (r: String)
        ensures
            r@ == module_text(self@),
    {
        match self {
            ModuleIdentifier::Main => "main".to_owned(),
            ModuleIdentifier::Split(name) => name.clone(),
        }
    }
}

impl Clone for ModuleIdentifier {
    fn clone(&self) -> (r: Self)
        ensures
            r == *self,
    {
        match self {
            ModuleIdentifier::Main => ModuleIdentifier::Main,
            ModuleIdentifier::Split(name) => ModuleIdentifier::Split(name.clone()),
        }
    }
}

/// Name of a module with the parts that several modules share.
#[derive(Debug, PartialEq, Eq, PartialOrd, Ord, Hash)]
pub struct SharedModuleIdentifier(pub Vec<ModuleIdentifier>);

/// The names of modules.
pub open spec fn names_of(modules: Seq<ModuleIdentifier>) -> Seq<ModuleName> {
    modules.map_values(|module: ModuleIdentifier| module@)
}

impl View for SharedModuleIdentifier {
    type V = Seq<ModuleName>;

    open spec fn view(&self) -> Seq<ModuleName> {
        names_of(self.0@)
    }
}

/// How a module is called that several modules share: by their names, with underscores between
/// them.
pub open spec fn shared_text(names: Seq<ModuleName>) -> Seq<char>
    decreases names.len(),
{
    if names.len() == 0 {
        Seq::empty()
    } else if names.len() == 1 {
        module_text(names[0])
    } else {
        shared_text(names.drop_last()) + "_"@ + module_text(names.last())
    }
}

/// Whether a module is among others.
pub fn contains_module(modules: &[ModuleIdentifier], module: &ModuleIdentifier) -> (r: bool)
    ensures
        r == names_of(modules@).contains(module@),
{
    let mut i: usize = 0;
    while i < modules.len()
        invariant
            i <= modules@.len(),
            forall|j: int| 0 <= j < i ==> #[trigger] names_of(modules@)[j] != module@,
        decreases modules@.len() - i,
    {
        if modules[i].same(module) {
            assert(names_of(modules@)[i as int] == module@);
            return true;
        }
        i = i + 1;
    }
    false
}

/// Whether all modules are among others.
pub fn contains_modules(modules: &[ModuleIdentifier], others: &[ModuleIdentifier]) -> (r: bool)
    ensures
        r == contains_all(names_of(modules@), names_of(others@)),
{
    let mut i: usize = 0;
    while i < others.len()
        invariant
            i <= others@.len(),
            forall|j: int|
                0 <= j < i ==> names_of(modules@).contains(#[trigger] names_of(others@)[j]),
        decreases others@.len() - i,
    {
        if !contains_module(modules, &others[i]) {
            assert(!names_of(modules@).contains(names_of(others@)[i as int]));
            return false;
        }
        i = i + 1;
    }
    true
}

/// Whether all names are among others.
pub open spec fn contains_all(names: Seq<ModuleName>, others: Seq<ModuleName>) -> bool {
    forall|i: int| 0 <= i < others.len() ==> names.contains(#[trigger] others[i])
}

fn copy_modules(modules: &[ModuleIdentifier]) -> (r: Vec<ModuleIdentifier>)
    ensures
        r@ == modules@,
{
    let mut result: Vec<ModuleIdentifier> = Vec::new();
    let mut i: usize = 0;
    while i < modules.len()
        invariant
            i <= modules@.len(),
            result@ == modules@.take(i as int),
        decreases modules@.len() - i,
    {
        result.push(modules[i].clone());
        i = i + 1;
        assert(result@ =~= modules@.take(i as int));
    }
    assert(modules@.take(i as int) =~= modules@);
    result
}

impl Clone for SharedModuleIdentifier {
    fn clone(&self) -> (r: Self)
        ensures
            r.0@ == self.0@,
    {
        SharedModuleIdentifier(copy_modules(self.0.as_slice()))
    }
}

impl SharedModuleIdentifier {
    /// Whether a module shares the parts.
    pub fn contains(&self, module: &ModuleIdentifier) -> (r: bool)
        ensures
            r == self@.contains(module@),
    {
        contains_module(self.0.as_slice(), module)
    }

    /// Takes a module out, and tells whether it was there.
    pub fn remove(&mut self, module: &ModuleIdentifier) -> (r: bool)
        ensures
            final(self)@ == old(self)@.filter(|name: ModuleName| name != module@),
            r == old(self)@.contains(module@),
    {
        let ghost before = self.0@;
        let ghost keep = |name: ModuleName| name != module@;
        let mut kept: Vec<ModuleIdentifier> = Vec::new();
        let mut found = false;
        let mut i: usize = 0;
        proof {
            reveal(Seq::filter);
            assert(names_of(before).take(0).filter(keep) =~= Seq::<ModuleName>::empty());
        }
        while i < self.0.len()
            invariant
                i <= before.len(),
                before == self.0@,
                keep == (|name: ModuleName| name != module@),
                names_of(kept@) =~= names_of(before).take(i as int).filter(keep),
                found == names_of(before).take(i as int).contains(module@),
            decreases before.len() - i,
        {
            let ghost so_far = names_of(before).take(i as int);
            proof {
                reveal(Seq::filter);
                let longer = names_of(before).take(i + 1);
                assert(longer.drop_last() =~= so_far);
                assert(longer.last() == before[i as int]@);
                assert(longer =~= so_far.push(before[i as int]@));
                assert forall|n: ModuleName| longer.contains(n) <==> so_far.contains(n) || n
                    == before[i as int]@ by {
                    if so_far.contains(n) {
                        let k = choose|k: int| 0 <= k < so_far.len() && so_far[k] == n;
                        assert(longer[k] == n);
                    }
                    assert(longer[i as int] == before[i as int]@);
                }
            }
            if self.0[i].same(module) {
                found = true;
            } else {
                kept.push(self.0[i].clone());
            }
            i = i + 1;
        }
        assert(names_of(before).take(i as int) =~= names_of(before));
        self.0 = kept;
        found
    }

    /// Whether all modules that a name stands for share the parts.
    pub fn includes(&self, other: &SplitModuleIdentifier) -> (r: bool)
        ensures
            r == is_part(other@, self@),
    {
        match other {
            SplitModuleIdentifier::Single(name) => self.contains(name),
            SplitModuleIdentifier::Shared(shared) => contains_modules(
                self.0.as_slice(),
                shared.0.as_slice(),
            ),
        }
    }

    /// How the module is called.
    pub fn to_text(&self) -> (r: String)
        ensures
            r@ == shared_text(self@),
    {
        let mut text = String::new();
        let ghost names = self@;
        let mut i: usize = 0;
        assert(names.take(0) =~= Seq::<ModuleName>::empty());
        while i < self.0.len()
            invariant
                i <= names.len(),
                names == self@,
                text@ == shared_text(names.take(i as int)),
            decreases names.len() - i,
        {
            proof {
                assert(names.take(i + 1).drop_last() =~= names.take(i as int));
                assert(names.take(i + 1).last() == self.0@[i as int]@);
            }
            if i > 0 {
                text.append("_");
            }
            text.append(self.0[i].to_text().as_str());
            assert(i == 0 ==> text@ =~= module_text(names[0]));
            i = i + 1;
        }
        assert(names.take(i as int) =~= names);
        text
    }

    /// Whether two modules are shared by the same modules, in the same order.
    pub fn same(&self, other: &Self) -> (r: bool)
        ensures
            r == (self@ == other@),
    {
        if self.0.len() != other.0.len() {
            assert(self@.len() != other@.len());
            return false;
        }
        let mut i: usize = 0;
        while i < self.0.len()
            invariant
                i <= self.0@.len() == other.0@.len(),
                forall|j: int| 0 <= j < i ==> #[trigger] self@[j] == other@[j],
            decreases self.0@.len() - i,
        {
            if !self.0[i].same(&other.0[i]) {
                assert(self@[i as int] != other@[i as int]);
                return false;
            }
            i = i + 1;
        }
        assert(self@ =~= other@);
        true
    }
}

/// Name of an output module.
#[derive(Debug, PartialEq, Eq, PartialOrd, Ord, Hash)]
pub enum SplitModuleIdentifier {
    Single(ModuleIdentifier),
    Shared(SharedModuleIdentifier),
}

/// The names in a [`SplitModuleIdentifier`].
pub enum SplitName {
    Single(ModuleName),
    Shared(Seq<ModuleName>),
}

impl View for SplitModuleIdentifier {
    type V = SplitName;

    open spec fn view(&self) -> SplitName {
        match self {
            SplitModuleIdentifier::Single(name) => SplitName::Single(name@),
            SplitModuleIdentifier::Shared(names) => SplitName::Shared(names@),
        }
    }
}

/// How an output module is called.
pub open spec fn split_text(name: SplitName) -> Seq<char> {
    match name {
        SplitName::Single(name) => module_text(name),
        SplitName::Shared(names) => shared_text(names),
    }
}

/// Whether all modules that a name stands for are among others.
pub open spec fn is_part(name: SplitName, names: Seq<ModuleName>) -> bool {
    match name {
        SplitName::Single(name) => names.contains(name),
        SplitName::Shared(others) => contains_all(names, others),
    }
}

impl Default for SplitModuleIdentifier {
    fn default() -> (r: Self)
        ensures
            r@ == SplitName::Single(None),
    {
        SplitModuleIdentifier::Single(ModuleIdentifier::Main)
    }
}

impl Clone for SplitModuleIdentifier {
    fn clone(&self) -> (r: Self)
        ensures
            r@ == self@,
    {
        match self {
            SplitModuleIdentifier::Single(name) => SplitModuleIdentifier::Single(name.clone()),
            SplitModuleIdentifier::Shared(names) => SplitModuleIdentifier::Shared(names.clone()),
        }
    }
}

/// Which other shared modules a module depends on: those that all its modules share.
pub open spec fn is_dep_of(name: SplitName) -> spec_fn(Seq<ModuleName>) -> bool {
    |shared: Seq<ModuleName>| name != SplitName::Shared(shared) && is_part(name, shared)
}

/// The names of shared modules.
pub open spec fn shared_names(modules: Seq<SharedModuleIdentifier>) -> Seq<Seq<ModuleName>> {
    modules.map_values(|module: SharedModuleIdentifier| module@)
}

impl SplitModuleIdentifier {
    pub fn as_single(&self) -> (r: Option<&ModuleIdentifier>)
        ensures
            match *self {
                SplitModuleIdentifier::Single(name) => r == Some(&name),
                SplitModuleIdentifier::Shared(_) => r is None,
            },
    {
        match self {
            SplitModuleIdentifier::Single(name) => Some(name),
            SplitModuleIdentifier::Shared(_) => None,
        }
    }

    pub fn as_shared(&self) -> (r: Option<&SharedModuleIdentifier>)
        ensures
            match *self {
                SplitModuleIdentifier::Single(_) => r is None,
                SplitModuleIdentifier::Shared(names) => r == Some(&names),
            },
    {
        match self {
            SplitModuleIdentifier::Single(_) => None,
            SplitModuleIdentifier::Shared(names) => Some(names),
        }
    }

    pub fn is_shared(&self) -> (r: bool)
        ensures
            r == (self@ is Shared),
    {
        match self {
            SplitModuleIdentifier::Single(_) => false,
            SplitModuleIdentifier::Shared(_) => true,
        }
    }

    pub fn is_main(&self) -> (r: bool)
        ensures
            r == (self@ == SplitName::Single(None)),
    {
        match self {
            SplitModuleIdentifier::Single(ModuleIdentifier::Main) => true,
            _ => false,
        }
    }

    /// Whether all modules that the name stands for share some parts.
    pub fn is_part_of(&self, other: &SharedModuleIdentifier) -> (r: bool)
        ensures
            r == is_part(self@, other@),
    {
        other.includes(self)
    }

    /// Whether two names are the same.
    pub fn same(&self, other: &Self) -> (r: bool)
        ensures
            r == (self@ == other@),
    {
        match (self, other) {
            (
                SplitModuleIdentifier::Single(a),
                SplitModuleIdentifier::Single(b),
            ) => a.same(b),
            (
                SplitModuleIdentifier::Shared(a),
                SplitModuleIdentifier::Shared(b),
            ) => a.same(b),
            _ => false,
        }
    }

    /// How the module is called.
    pub fn to_text(&self) -> (r: String)
        ensures
            r@ == split_text(self@),
    {
        match self {
            SplitModuleIdentifier::Single(name) => name.to_text(),
            SplitModuleIdentifier::Shared(names) => names.to_text(),
        }
    }

    /// The shared modules that the module depends on.
    pub fn collect_deps(&self, shared_modules: &[SharedModuleIdentifier]) -> (r: Vec<
        SharedModuleIdentifier,
    >)
        ensures
            shared_names(r@) == shared_names(shared_modules@).filter(is_dep_of(self@)),
    {
        let mut result: Vec<SharedModuleIdentifier> = Vec::new();
        let ghost all = shared_names(shared_modules@);
        let ghost wanted = is_dep_of(self@);
        let mut i: usize = 0;
        proof {
            reveal(Seq::filter);
            assert(shared_names(result@) =~= all.take(0).filter(wanted));
        }
        while i < shared_modules.len()
            invariant
                i <= all.len(),
                all == shared_names(shared_modules@),
                wanted == is_dep_of(self@),
                shared_names(result@) =~= all.take(i as int).filter(wanted),
            decreases all.len() - i,
        {
            let shared = &shared_modules[i];
            proof {
                reveal(Seq::filter);
                assert(all.take(i + 1).drop_last() =~= all.take(i as int));
                assert(all.take(i + 1).last() == shared@);
            }
            let is_same = match self {
                SplitModuleIdentifier::Shared(own) => own.same(shared),
                SplitModuleIdentifier::Single(_) => false,
            };
            if !is_same && self.is_part_of(shared) {
                result.push(shared.clone());
            }
            i = i + 1;
        }
        assert(all.take(i as int) =~= all);
        result
    }
}

/// The split points of a module.
pub open spec fn points_of(points: Seq<SplitPoint>, name: Seq<char>) -> Seq<SplitPoint> {
    points.filter(is_point_of(name))
}

/// Which split points belong to a module.
pub open spec fn is_point_of(name: Seq<char>) -> spec_fn(SplitPoint) -> bool {
    |point: SplitPoint| point.module_name@ == name
}

/// The unique id of a split point.
pub open spec fn point_id() -> spec_fn(SplitPoint) -> Seq<char> {
    |point: SplitPoint| point.unique_id@
}

/// Whether groups hold split points by their modules: in the order of the module names, and within
/// a module in the order of the unique ids.
pub open spec fn are_groups(groups: Seq<(Seq<char>, Seq<SplitPoint>)>, points: Seq<SplitPoint>) -> bool {
    &&& forall|i: int, j: int|
        #![trigger groups[i], groups[j]]
        0 <= i < j < groups.len() ==> text_less(groups[i].0, groups[j].0)
    &&& forall|i: int|
        0 <= i < groups.len() ==> (#[trigger] groups[i]).1.len() > 0 && groups[i].1
            == sorted_by_text(points_of(points, groups[i].0), point_id())
    &&& forall|k: int|
        0 <= k < points.len() ==> has_group(groups, (#[trigger] points[k]).module_name@)
}

/// Whether there is a group for a module.
pub open spec fn has_group(groups: Seq<(Seq<char>, Seq<SplitPoint>)>, name: Seq<char>) -> bool {
    exists|i: int| 0 <= i < groups.len() && (#[trigger] groups[i]).0 == name
}

/// The split points behind references.
pub open spec fn dereferenced(points: Seq<&SplitPoint>) -> Seq<SplitPoint> {
    points.map_values(|point: &SplitPoint| *point)
}

/// Groups that hold references to split points.
pub open spec fn borrowed_groups(groups: Seq<(&str, Vec<&SplitPoint>)>) -> Seq<
    (Seq<char>, Seq<SplitPoint>),
> {
    groups.map_values(
        |group: (&str, Vec<&SplitPoint>)|
            (group.0@, dereferenced(group.1@)),
    )
}

/// Groups that hold split points.
pub open spec fn owned_groups(groups: Seq<(String, Vec<SplitPoint>)>) -> Seq<
    (Seq<char>, Seq<SplitPoint>),
> {
    groups.map_values(|group: (String, Vec<SplitPoint>)| (group.0@, group.1@))
}

proof fn lemma_points_of_push(points: Seq<SplitPoint>, point: SplitPoint, name: Seq<char>)
    ensures
        points_of(points.push(point), name) == if point.module_name@ == name {
            points_of(points, name).push(point)
        } else {
            points_of(points, name)
        },
{
    reveal(Seq::filter);
    assert(points.push(point).drop_last() =~= points);
}

pub(crate) proof fn lemma_no_points(
    points: Seq<SplitPoint>,
    groups: Seq<(Seq<char>, Seq<SplitPoint>)>,
    name: Seq<char>,
)
    requires
        are_groups(groups, points),
        !has_group(groups, name),
    ensures
        points_of(points, name) == Seq::<SplitPoint>::empty(),
{
    let kept = points_of(points, name);
    if kept.len() > 0 {
        assert(kept.contains(kept[0]));
        points.lemma_filter_contains_rev(is_point_of(name), kept[0]);
        points.lemma_filter_pred(is_point_of(name), 0);
        let k = choose|k: int| 0 <= k < points.len() && points[k] == kept[0];
        assert(has_group(groups, points[k].module_name@));
    }
    assert(kept =~= Seq::<SplitPoint>::empty());
}

/// The place of a split point in its group.
fn place_in_group(
    group: &Vec<&SplitPoint>,
    point: &SplitPoint,
    Ghost(owned): Ghost<Seq<SplitPoint>>,
) -> (r: usize)
    requires
        owned == dereferenced(group@),
    ensures
        is_text_place(owned, *point, point_id(), r as int),
{
    let mut at: usize = group.len();
    while at > 0
        invariant
            at <= group@.len(),
            owned == dereferenced(group@),
            forall|i: int|
                at <= i < owned.len() ==> text_less(
                    point.unique_id@,
                    point_id()(#[trigger] owned[i]),
                ),
        decreases at,
    {
        let other = &group[at - 1].unique_id;
        assert(owned[at - 1].unique_id == *other);
        match text_order(point.unique_id.as_str(), other.as_str()) {
            TextOrder::Less => {
                at = at - 1;
            },
            TextOrder::Equal => {
                proof {
                    if text_less(point.unique_id@, other@) {
                        lemma_text_less_is_asymmetric(point.unique_id@, other@);
                    }
                }
                return at;
            },
            TextOrder::Greater => {
                proof {
                    lemma_text_less_is_asymmetric(other@, point.unique_id@);
                }
                return at;
            },
        }
    }
    at
}

/// The number of groups before that of a module, and whether the module has a group.
fn find_group(
    groups: &Vec<(&str, Vec<&SplitPoint>)>,
    name: &str,
    Ghost(view): Ghost<Seq<(Seq<char>, Seq<SplitPoint>)>>,
) -> (r: (usize, bool))
    requires
        view == borrowed_groups(groups@),
        forall|i: int, j: int|
            #![trigger view[i], view[j]]
            0 <= i < j < view.len() ==> text_less(view[i].0, view[j].0),
    ensures
        r.0 <= view.len(),
        forall|i: int| 0 <= i < r.0 ==> text_less((#[trigger] view[i]).0, name@),
        r.1 ==> r.0 < view.len() && view[r.0 as int].0 == name@,
        !r.1 ==> forall|i: int| r.0 <= i < view.len() ==> text_less(name@, (#[trigger] view[i]).0),
        r.1 == has_group(view, name@),
{
    let mut i: usize = 0;
    while i < groups.len()
        invariant
            i <= view.len(),
            view == borrowed_groups(groups@),
            forall|i: int, j: int|
                #![trigger view[i], view[j]]
                0 <= i < j < view.len() ==> text_less(view[i].0, view[j].0),
            forall|j: int| 0 <= j < i ==> text_less((#[trigger] view[j]).0, name@),
        decreases view.len() - i,
    {
        assert(view[i as int].0 == groups@[i as int].0@);
        match text_order(groups[i].0, name) {
            TextOrder::Less => {},
            TextOrder::Equal => {
                assert(has_group(view, name@));
                return (i, true);
            },
            TextOrder::Greater => {
                proof {
                    assert forall|j: int| i <= j < view.len() implies text_less(
                        name@,
                        (#[trigger] view[j]).0,
                    ) by {
                        if j > i {
                            lemma_text_less_is_transitive(name@, view[i as int].0, view[j].0);
                        }
                    }
                    assert forall|j: int| 0 <= j < view.len() implies (#[trigger] view[j]).0
                        != name@ by {
                        if j < i {
                            lemma_text_less_is_asymmetric(view[j].0, name@);
                        } else {
                            lemma_text_less_is_asymmetric(name@, view[j].0);
                        }
                    }
                }
                return (i, false);
            },
        }
        i = i + 1;
    }
    proof {
        assert forall|j: int| 0 <= j < view.len() implies (#[trigger] view[j]).0 != name@ by {
            lemma_text_less_is_asymmetric(view[j].0, name@);
        }
    }
    (i, false)
}

proof fn lemma_point_joins_group(
    before: Seq<(Seq<char>, Seq<SplitPoint>)>,
    after: Seq<(Seq<char>, Seq<SplitPoint>)>,
    points: Seq<SplitPoint>,
    point: SplitPoint,
    g: int,
)
    requires
        are_groups(before, points),
        0 <= g < before.len(),
        before[g].0 == point.module_name@,
        after == before.update(
            g,
            (before[g].0, inserted_by_text(before[g].1, point, point_id())),
        ),
    ensures
        are_groups(after, points.push(point)),
{
    let longer = points.push(point);
    assert forall|i: int| 0 <= i < after.len() implies (#[trigger] after[i]).1.len() > 0
        && after[i].1 == sorted_by_text(points_of(longer, after[i].0), point_id()) by {
        lemma_points_of_push(points, point, after[i].0);
        assert(before[i].1.len() > 0);
        if i != g {
            if i < g {
                lemma_text_less_is_asymmetric(before[i].0, before[g].0);
            } else {
                lemma_text_less_is_asymmetric(before[g].0, before[i].0);
            }
        } else {
            let own = points_of(points, before[g].0);
            assert(own.push(point).drop_last() =~= own);
            lemma_sorted_by_text(own.push(point), point_id());
        }
    }
    assert forall|i: int, j: int|
        #![trigger after[i], after[j]]
        0 <= i < j < after.len() implies text_less(after[i].0, after[j].0) by {
        assert(text_less(before[i].0, before[j].0));
    }
    assert forall|k: int| 0 <= k < longer.len() implies has_group(
        after,
        (#[trigger] longer[k]).module_name@,
    ) by {
        if k < points.len() {
            assert(has_group(before, points[k].module_name@));
            let i = choose|i: int|
                0 <= i < before.len() && (#[trigger] before[i]).0 == points[k].module_name@;
            assert(after[i].0 == points[k].module_name@);
        } else {
            assert(after[g].0 == point.module_name@);
        }
    }
}

proof fn lemma_point_makes_group(
    before: Seq<(Seq<char>, Seq<SplitPoint>)>,
    after: Seq<(Seq<char>, Seq<SplitPoint>)>,
    points: Seq<SplitPoint>,
    point: SplitPoint,
    g: int,
)
    requires
        are_groups(before, points),
        0 <= g <= before.len(),
        !has_group(before, point.module_name@),
        forall|i: int| 0 <= i < g ==> text_less((#[trigger] before[i]).0, point.module_name@),
        forall|i: int|
            g <= i < before.len() ==> text_less(point.module_name@, (#[trigger] before[i]).0),
        after == before.insert(g, (point.module_name@, seq![point])),
    ensures
        are_groups(after, points.push(point)),
{
    let longer = points.push(point);
    lemma_no_points(points, before, point.module_name@);
    assert forall|i: int| 0 <= i < after.len() implies (#[trigger] after[i]).1.len() > 0
        && after[i].1 == sorted_by_text(points_of(longer, after[i].0), point_id()) by {
        lemma_points_of_push(points, point, after[i].0);
        if i == g {
            let own = points_of(longer, point.module_name@);
            assert(own =~= seq![point]);
            assert(own.drop_last() =~= Seq::<SplitPoint>::empty());
            assert(sorted_by_text(own.drop_last(), point_id()) =~= Seq::<SplitPoint>::empty());
            assert(sorted_by_text(own, point_id()) =~= seq![point]);
        } else {
            let old_i = if i < g {
                i
            } else {
                i - 1
            };
            assert(after[i] == before[old_i]);
            assert(before[old_i].0 != point.module_name@);
            assert(before[old_i].1.len() > 0);
        }
    }
    assert forall|i: int, j: int|
        #![trigger after[i], after[j]]
        0 <= i < j < after.len() implies text_less(after[i].0, after[j].0) by {
        let a = if i < g {
            i
        } else {
            i - 1
        };
        let b = if j < g {
            j
        } else {
            j - 1
        };
        if i != g && j != g {
            assert(text_less(before[a].0, before[b].0));
        } else if i == g {
            assert(text_less(point.module_name@, before[b].0));
        } else {
            assert(text_less(before[a].0, point.module_name@));
        }
    }
    assert forall|k: int| 0 <= k < longer.len() implies has_group(
        after,
        (#[trigger] longer[k]).module_name@,
    ) by {
        if k < points.len() {
            assert(has_group(before, points[k].module_name@));
            let i = choose|i: int|
                0 <= i < before.len() && (#[trigger] before[i]).0 == points[k].module_name@;
            if i < g {
                assert(after[i].0 == points[k].module_name@);
            } else {
                assert(after[i + 1].0 == points[k].module_name@);
            }
        } else {
            assert(after[g].0 == point.module_name@);
        }
    }
}

/// Groups split points by their modules.
pub fn merge_split_points_by_module_name<'a>(split_points: &'a [SplitPoint]) -> (r: Vec<
    (&'a str, Vec<&'a SplitPoint>),
>)
    ensures
        are_groups(borrowed_groups(r@), split_points@),
{
    let mut groups: Vec<(&'a str, Vec<&'a SplitPoint>)> = Vec::new();
    let ghost points = split_points@;
    let mut i: usize = 0;
    assert(borrowed_groups(groups@) =~= Seq::<(Seq<char>, Seq<SplitPoint>)>::empty());
    while i < split_points.len()
        invariant
            i <= points.len(),
            points == split_points@,
            are_groups(borrowed_groups(groups@), points.take(i as int)),
        decreases points.len() - i,
    {
        let point = &split_points[i];
        let ghost before = borrowed_groups(groups@);
        let ghost old_groups = groups@;
        assert(points.take(i + 1) =~= points.take(i as int).push(*point));
        let (g, found) = find_group(&groups, point.module_name.as_str(), Ghost(before));
        if found {
            let ghost owned = before[g as int].1;
            let at: usize = place_in_group(&groups[g].1, point, Ghost(owned));
            groups[g].1.insert(at, point);
            proof {
                lemma_inserted_at(owned, *point, point_id(), at as int);
                assert(dereferenced(groups@[g as int].1@)
                    =~= owned.insert(at as int, *point));
                let after = borrowed_groups(groups@);
                assert(after =~= before.update(
                    g as int,
                    (before[g as int].0, inserted_by_text(owned, *point, point_id())),
                ));
                lemma_point_joins_group(
                    before,
                    after,
                    points.take(i as int),
                    *point,
                    g as int,
                );
            }
        } else {
            let members: Vec<&'a SplitPoint> = vec![point];
            let name: &'a str = point.module_name.as_str();
            groups.insert(g, (name, members));
            proof {
                assert(dereferenced(members@) =~= seq![*point]);
                let after = borrowed_groups(groups@);
                assert(after =~= before.insert(g as int, (point.module_name@, seq![*point])));
                lemma_point_makes_group(
                    before,
                    after,
                    points.take(i as int),
                    *point,
                    g as int,
                );
            }
        }
        i = i + 1;
    }
    assert(points.take(i as int) =~= points);
    groups
}

fn copy_points(points: &Vec<&SplitPoint>) -> (r: Vec<SplitPoint>)
    ensures
        r@ == dereferenced(points@),
{
    let mut result: Vec<SplitPoint> = Vec::new();
    let mut i: usize = 0;
    while i < points.len()
        invariant
            i <= points@.len(),
            result@ == dereferenced(points@.take(i as int)),
        decreases points@.len() - i,
    {
        result.push(points[i].clone());
        i = i + 1;
        assert(result@ =~= dereferenced(points@.take(i as int)));
    }
    assert(points@.take(i as int) =~= points@);
    result
}

/// Groups copies of split points by their modules.
pub fn merge_split_points_by_name(split_points: &[SplitPoint]) -> (r: Vec<
    (String, Vec<SplitPoint>),
>)
    ensures
        are_groups(owned_groups(r@), split_points@),
{
    let groups = merge_split_points_by_module_name(split_points);
    let mut result: Vec<(String, Vec<SplitPoint>)> = Vec::new();
    let mut i: usize = 0;
    while i < groups.len()
        invariant
            i <= groups@.len(),
            owned_groups(result@) == borrowed_groups(groups@).take(i as int),
        decreases groups@.len() - i,
    {
        let name: String = groups[i].0.to_owned();
        let members = copy_points(&groups[i].1);
        let ghost so_far = result@;
        result.push((name, members));
        proof {
            let expected = borrowed_groups(groups@);
            assert(result@.last().1@ == dereferenced(groups@[i as int].1@));
            assert(owned_groups(result@).last() == expected[i as int]);
            assert(owned_groups(result@) =~= owned_groups(so_far).push(expected[i as int]));
            assert(expected.take(i + 1) =~= expected.take(i as int).push(expected[i as int]));
        }
        i = i + 1;
    }
    assert(borrowed_groups(groups@).take(i as int) =~= borrowed_groups(groups@));
    result
}

} // verus!
