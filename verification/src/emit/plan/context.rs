//! The emission of several output modules that refer to each other.
use crate::emit::plan::definition::{OutputId, PlanError};
use crate::emit::plan::output::OutputModule;
use crate::emit::relocation::{EntityLocation, ImportedDataDep, ModuleLayout, RelocationState};
use crate::index::{lemma_insert_then_get, slot_at, GappedMap, PrimaryMap, ReservedValue, TempIndex};
use crate::layouts::data::DataSymbolRef;
use crate::linkage::file_db::FileRelocs;
use crate::typed::file_loader::{snapshots, FileLoader};
use crate::typed::snapshot::{FlatEntityRef, MultiSnapshot};
use crate::typed::{EntityKind, FileId};
use vstd::prelude::*;

verus! {

/// The bytes of a module.
pub struct HexDebug(pub Vec<u8>);

/// The lower-case character of a hexadecimal digit.
pub open spec fn lower_hex_digit(d: nat) -> char {
    if d < 10 {
        (48 + d) as u8 as char
    } else {
        (87 + d) as u8 as char
    }
}

/// Text of bytes: two lower-case hexadecimal digits each.
pub open spec fn hex_text(bytes: Seq<u8>) -> Seq<char>
    decreases bytes.len(),
{
    if bytes.len() == 0 {
        Seq::empty()
    } else {
        hex_text(bytes.drop_last()).push(lower_hex_digit((bytes.last() / 16) as nat)).push(
            lower_hex_digit((bytes.last() % 16) as nat),
        )
    }
}

/// `hex::encode`: two lower-case hexadecimal digits for each byte, the higher one first.
#[verifier::external_body]
fn hex_encode(bytes: &[u8]) -> (r: String)
    ensures
        r@ == hex_text(bytes@),
{
    hex::encode(bytes)
}

impl HexDebug {
    /// Text of the bytes.
    pub fn to_text(&self) -> (r: String)
        ensures
            r@ == hex_text(self.0@),
    {
        hex_encode(self.0.as_slice())
    }
}

/// What is known while output modules are emitted.
pub struct EmitContext<'a> {
    pub input_files: &'a FileLoader,
    pub snapshot: MultiSnapshot,
    /// Names of the output modules.
    pub output_names: PrimaryMap<FileId, OutputId>,
    /// The output modules that entities of the input files are in.
    pub dylink_exports_map: GappedMap<FlatEntityRef, FileId>,
    pub output_modules: PrimaryMap<FileId, OutputModule>,
    /// The bytes of the output modules.
    pub writers: PrimaryMap<FileId, HexDebug>,
    /// Where the parts of the output modules stand in their bytes.
    pub layouts: PrimaryMap<FileId, ModuleLayout>,
}

impl<'a> EmitContext<'a> {
    /// A context without output modules.
    pub fn new_plan(
        input_files: &'a FileLoader,
        output_names: PrimaryMap<FileId, OutputId>,
        exported_symbols: GappedMap<FlatEntityRef, FileId>,
    ) -> (r: Self)
        ensures
            r.input_files == input_files,
            r.snapshot@ == snapshots(input_files@),
            r.output_names == output_names,
            r.dylink_exports_map == exported_symbols,
            r.output_modules@.len() == 0,
            r.writers@.len() == 0,
            r.layouts@.len() == 0,
    {
        EmitContext {
            input_files,
            snapshot: input_files.get_snapshot(),
            output_names,
            dylink_exports_map: exported_symbols,
            output_modules: PrimaryMap::new(),
            writers: PrimaryMap::new(),
            layouts: PrimaryMap::new(),
        }
    }

    /// Whether the parts of the context fit together.
    pub open spec fn valid(&self) -> bool {
        &&& self.snapshot.fits()
        &&& self.layouts@.len() == self.output_modules@.len()
        &&& self.writers@.len() == self.output_modules@.len()
        &&& forall|f: int|
            0 <= f < self.output_modules@.len() ==> output_valid(
                #[trigger] self.output_modules@[f],
            )
    }
}

/// Whether the parts of an output module are well formed.
pub open spec fn output_valid(output: OutputModule) -> bool {
    &&& output.module.extra.mem_layout.wf()
    &&& output.relocs.wf()
    &&& output.module.functions@.len() <= usize::MAX
}

/// Where data of another output module is, given the module that defines it.
pub open spec fn dep_in_file(
    modules: Seq<OutputModule>,
    layouts: Seq<ModuleLayout>,
    output: OutputModule,
    src: EntityLocation,
    file: FileId,
) -> Option<ImportedDataDep> {
    let outputs = modules[file.id() as int].resolver.outputs();
    if file.id() >= modules.len() || output.dyn_info is None || !outputs.contains_key(src) {
        None
    } else {
        match outputs[src] {
            EntityKind::DataSymbol(d) => match layouts[file.id() as int].data_mapping.lookup(d) {
                Some(place) => {
                    let dep = ImportedDataDep {
                        output_location: place.offsets,
                        got_entry: match output.dyn_info->0.deps.lookup(file) {
                            Some(got) => Some(got.memory_base),
                            None => None,
                        },
                    };
                    if dep.is_reserved_spec() {
                        None
                    } else {
                        Some(dep)
                    }
                },
                None => None,
            },
            _ => None,
        }
    }
}

/// Where data of another output module is, if it is known.
pub open spec fn data_dep(
    snapshot: MultiSnapshot,
    exports: GappedMap<FlatEntityRef, FileId>,
    modules: Seq<OutputModule>,
    layouts: Seq<ModuleLayout>,
    output: OutputModule,
    data: DataSymbolRef,
) -> Option<ImportedDataDep> {
    let sources = output.resolver.sources();
    let src = sources[EntityKind::DataSymbol(data)];
    if !sources.contains_key(EntityKind::DataSymbol(data)) || !snapshot.has(src) {
        None
    } else {
        match exports.lookup(FlatEntityRef { id: snapshot.flat(src) as u32 }) {
            Some(file) => dep_in_file(modules, layouts, output, src, file),
            None => None,
        }
    }
}

/// The index of an external data symbol of a module.
pub open spec fn external_ref(output: OutputModule, k: int) -> DataSymbolRef {
    DataSymbolRef { id: (output.module.extra.mem_layout.external.start_spec().id() + k) as u32 }
}

/// Whether the places of all data of other output modules are known.
pub open spec fn deps_known(
    snapshot: MultiSnapshot,
    exports: GappedMap<FlatEntityRef, FileId>,
    modules: Seq<OutputModule>,
    layouts: Seq<ModuleLayout>,
    output: OutputModule,
) -> bool {
    let external = output.module.extra.mem_layout.external;
    &&& external.start_spec().id() + external@.len() + 1 < u32::MAX
    &&& forall|k: int|
        0 <= k < external@.len() ==> data_dep(
            snapshot,
            exports,
            modules,
            layouts,
            output,
            #[trigger] external_ref(output, k),
        ) is Some
}

/// Whether a map holds the places of the first data symbols of other output modules.
pub open spec fn are_data_deps(
    snapshot: MultiSnapshot,
    exports: GappedMap<FlatEntityRef, FileId>,
    modules: Seq<OutputModule>,
    layouts: Seq<ModuleLayout>,
    output: OutputModule,
    deps: GappedMap<DataSymbolRef, ImportedDataDep>,
    count: int,
) -> bool {
    let start = output.module.extra.mem_layout.external.start_spec().id();
    &&& deps.wf()
    &&& forall|j: nat| #[trigger]
        slot_at(deps@, j) == if start <= j < start + count {
            data_dep(
                snapshot,
                exports,
                modules,
                layouts,
                output,
                external_ref(output, j - start),
            )
        } else {
            None
        }
}

/// The places depend on where the entities of the modules come from only.
proof fn lemma_same_deps(
    snapshot: MultiSnapshot,
    exports: GappedMap<FlatEntityRef, FileId>,
    a: Seq<OutputModule>,
    b: Seq<OutputModule>,
    layouts: Seq<ModuleLayout>,
    output_a: OutputModule,
    output_b: OutputModule,
    data: DataSymbolRef,
)
    requires
        a.len() == b.len(),
        forall|f: int| 0 <= f < a.len() ==> (#[trigger] a[f]).resolver == b[f].resolver,
        output_a.resolver == output_b.resolver,
        output_a.dyn_info == output_b.dyn_info,
    ensures
        data_dep(snapshot, exports, a, layouts, output_a, data) == data_dep(
            snapshot,
            exports,
            b,
            layouts,
            output_b,
            data,
        ),
{
    let sources = output_a.resolver.sources();
    let src = sources[EntityKind::DataSymbol(data)];
    match exports.lookup(FlatEntityRef { id: snapshot.flat(src) as u32 }) {
        Some(file) => {
            if file.id() < a.len() {
                assert(a[file.id() as int].resolver == b[file.id() as int].resolver);
            }
        },
        None => {},
    }
}

impl<'a> EmitContext<'a> {
    /// Where a data symbol of another output module is.
    fn find_data_dep(&self, output_module: &OutputModule, data: DataSymbolRef) -> (r: Option<
        ImportedDataDep,
    >)
        requires
            self.valid(),
        ensures
            r == data_dep(
                self.snapshot,
                self.dylink_exports_map,
                self.output_modules@,
                self.layouts@,
                *output_module,
                data,
            ),
    {
        let src = match output_module.resolver.get_entity_src(EntityKind::DataSymbol(data)) {
            Some(src) => src,
            None => {
                return None;
            },
        };
        if !self.snapshot.contains(src) {
            return None;
        }
        let flat = self.snapshot.pack_ref(src);
        let file = match self.dylink_exports_map.get(flat) {
            Some(file) => *file,
            None => {
                return None;
            },
        };
        if !self.output_modules.is_valid(file) {
            return None;
        }
        let gots = match &output_module.dyn_info {
            Some(gots) => gots,
            None => {
                return None;
            },
        };
        match self.output_modules.at(file).resolver.get_output_entity(&src) {
            Some(EntityKind::DataSymbol(d)) => match self.layouts.at(file).data_mapping.get(d) {
                Some(place) => {
                    let dep = ImportedDataDep {
                        output_location: place.offsets,
                        got_entry: match gots.deps.get(file) {
                            Some(got) => Some(got.memory_base),
                            None => None,
                        },
                    };
                    if dep.is_reserved_value() {
                        None
                    } else {
                        Some(dep)
                    }
                },
                None => None,
            },
            _ => None,
        }
    }

    /// Where the data of other output modules is.
    pub fn collect_dylink_data_deps(&self, output_module: &OutputModule) -> (r: Result<
        GappedMap<DataSymbolRef, ImportedDataDep>,
        PlanError,
    >)
        requires
            self.valid(),
        ensures
            match r {
                Ok(deps) => {
                    &&& deps_known(
                        self.snapshot,
                        self.dylink_exports_map,
                        self.output_modules@,
                        self.layouts@,
                        *output_module,
                    )
                    &&& are_data_deps(
                        self.snapshot,
                        self.dylink_exports_map,
                        self.output_modules@,
                        self.layouts@,
                        *output_module,
                        deps,
                        output_module.module.extra.mem_layout.external@.len() as int,
                    )
                },
                Err(error) => error == PlanError::Unresolved && !deps_known(
                    self.snapshot,
                    self.dylink_exports_map,
                    self.output_modules@,
                    self.layouts@,
                    *output_module,
                ),
            },
    {
        let external = output_module.module.extra.mem_layout.external();
        let start: u32 = external.start().as_u32();
        if start as u128 + external.len() as u128 + 1 >= u32::MAX as u128 {
            return Err(PlanError::Unresolved);
        }
        let mut deps: GappedMap<DataSymbolRef, ImportedDataDep> = GappedMap::new();
        let mut k: usize = 0;
        while k < external.len()
            invariant
                k <= external@.len(),
                self.valid(),
                *external == output_module.module.extra.mem_layout.external,
                start == external.start_spec().id(),
                start + external@.len() + 1 < u32::MAX,
                forall|j: int|
                    0 <= j < k ==> data_dep(
                        self.snapshot,
                        self.dylink_exports_map,
                        self.output_modules@,
                        self.layouts@,
                        *output_module,
                        #[trigger] external_ref(*output_module, j),
                    ) is Some,
                are_data_deps(
                    self.snapshot,
                    self.dylink_exports_map,
                    self.output_modules@,
                    self.layouts@,
                    *output_module,
                    deps,
                    k as int,
                ),
            decreases external@.len() - k,
        {
            let data = DataSymbolRef::from_u32(start + k as u32);
            assert(data == external_ref(*output_module, k as int));
            match self.find_data_dep(output_module, data) {
                Some(dep) => {
                    let ghost before = deps@;
                    let _ = deps.insert(data, dep);
                    proof {
                        assert forall|j: nat| #[trigger] slot_at(deps@, j) == if start <= j < start
                            + (k + 1) {
                            data_dep(
                                self.snapshot,
                                self.dylink_exports_map,
                                self.output_modules@,
                                self.layouts@,
                                *output_module,
                                external_ref(*output_module, j - start),
                            )
                        } else {
                            None
                        } by {
                            lemma_insert_then_get(before, data.id() as nat, dep, j);
                        }
                    }
                },
                None => {
                    assert(data_dep(
                        self.snapshot,
                        self.dylink_exports_map,
                        self.output_modules@,
                        self.layouts@,
                        *output_module,
                        external_ref(*output_module, k as int),
                    ) is None);
                    return Err(PlanError::Unresolved);
                },
            }
            k = k + 1;
        }
        Ok(deps)
    }

    /// Whether the relocations of an output module depend on a state.
    pub open spec fn is_state_of(&self, f: int, state: RelocationState<'_>) -> bool {
        let output = self.output_modules@[f];
        &&& state.module() == output.module
        &&& state.layout() == self.layouts@[f]
        &&& state.got() == match output.dyn_info {
            Some(gots) => Some(gots.our_got),
            None => None,
        }
        &&& are_data_deps(
            self.snapshot,
            self.dylink_exports_map,
            self.output_modules@,
            self.layouts@,
            output,
            state.imported(),
            output.module.extra.mem_layout.external@.len() as int,
        )
    }

    /// Whether the relocations of an output module cannot be applied: the place of data of another
    /// module is not known, or one of them does not fit.
    pub open spec fn cannot_relocate(&self, f: int) -> bool {
        ||| !deps_known(
            self.snapshot,
            self.dylink_exports_map,
            self.output_modules@,
            self.layouts@,
            self.output_modules@[f],
        )
        ||| exists|state: RelocationState<'_>| #[trigger]
            self.is_state_of(f, state) && !state.ready(
                self.writers@[f].0@.len() as int,
                self.output_modules@[f].relocs,
            )
    }

    /// Whether the relocations of an output module are applied to its bytes.
    pub open spec fn is_relocated(
        &self,
        f: int,
        state: RelocationState<'_>,
        bytes: Seq<u8>,
        relocs: FileRelocs,
    ) -> bool {
        let output = self.output_modules@[f];
        &&& self.is_state_of(f, state)
        &&& state.ready(self.writers@[f].0@.len() as int, output.relocs)
        &&& are_shifted(state, output.relocs, relocs)
        &&& bytes == state.applied(
            state.applied(
                self.writers@[f].0@,
                self.layouts@[f].code_section.start as int,
                relocs.all().take(relocs.code_len()),
            ),
            self.layouts@[f].data_section.start as int,
            relocs.all().skip(relocs.code_len()),
        )
    }

    /// Whether the first modules are those of another context with relocations applied, and the
    /// others are the same.
    pub open spec fn is_applied_from(&self, before: &Self, count: int) -> bool {
        &&& self.input_files == before.input_files
        &&& self.snapshot == before.snapshot
        &&& self.output_names == before.output_names
        &&& self.dylink_exports_map == before.dylink_exports_map
        &&& self.layouts == before.layouts
        &&& self.output_modules@.len() == before.output_modules@.len()
        &&& self.writers@.len() == before.writers@.len()
        &&& forall|f: int|
            0 <= f < self.output_modules@.len() ==> #[trigger] self.output_modules@[f] == (
            OutputModule { relocs: self.output_modules@[f].relocs, ..before.output_modules@[f] })
        &&& forall|f: int|
            count <= f < self.output_modules@.len() ==> #[trigger] self.output_modules@[f]
                == before.output_modules@[f] && self.writers@[f] == before.writers@[f]
        &&& forall|f: int|
            0 <= f < count ==> {
                let output = #[trigger] self.output_modules@[f];
                exists|state: RelocationState<'_>| #[trigger]
                    before.is_relocated(f, state, self.writers@[f].0@, output.relocs)
            }
    }

    /// Whether the relocations of the first modules of another context are applied, and those of the
    /// next one cannot be.
    pub open spec fn is_stuck_from(&self, before: &Self) -> bool {
        exists|f: int|
            {
                &&& 0 <= f < before.output_modules@.len()
                &&& #[trigger] self.is_applied_from(before, f)
                &&& before.cannot_relocate(f)
            }
    }

    /// Applies the relocations of one output module.
    fn apply_module_relocs(&mut self, f: usize) -> (r: Result<(), PlanError>)
        requires
            old(self).valid(),
            f < old(self).output_modules@.len() < u32::MAX,
        ensures
            ({
                let output = final(self).output_modules@[f as int];
                &&& *final(self) == (EmitContext {
                    output_modules: final(self).output_modules,
                    writers: final(self).writers,
                    ..*old(self)
                })
                &&& final(self).output_modules@ == old(self).output_modules@.update(
                    f as int,
                    output,
                )
                &&& output == (OutputModule {
                    relocs: output.relocs,
                    ..old(self).output_modules@[f as int]
                })
                &&& output.relocs.wf()
                &&& final(self).writers@ == old(self).writers@.update(
                    f as int,
                    final(self).writers@[f as int],
                )
                &&& r is Ok ==> exists|state: RelocationState<'_>| #[trigger]
                    old(self).is_relocated(
                        f as int,
                        state,
                        final(self).writers@[f as int].0@,
                        output.relocs,
                    )
                &&& r matches Err(error) ==> {
                    &&& error is Unresolved
                    &&& old(self).cannot_relocate(f as int)
                    &&& final(self).output_modules@ == old(self).output_modules@
                    &&& final(self).writers@ == old(self).writers@
                }
            }),
    {
        let ghost before = *self;
        let file = FileId::new(f);
        assert(output_valid(self.output_modules@[f as int]));
        let imported_data = match self.collect_dylink_data_deps(self.output_modules.at(file)) {
            Ok(imported_data) => imported_data,
            Err(error) => {
                assert(self.output_modules@.update(f as int, self.output_modules@[f as int])
                    =~= self.output_modules@);
                assert(self.writers@.update(f as int, self.writers@[f as int]) =~= self.writers@);
                return Err(error);
            },
        };
        let got = match &self.output_modules.at(file).dyn_info {
            Some(gots) => Some(gots.our_got),
            None => None,
        };
        let layout = self.layouts.at(file);
        let output = self.output_modules.at_mut(file);
        let writer = self.writers.at_mut(file);
        let state = RelocationState::new(&output.module, layout, got, imported_data);
        if !state.is_ready(writer.0.len(), &output.relocs) {
            proof {
                assert(before.is_state_of(f as int, state));
                assert(before.cannot_relocate(f as int));
                assert(self.output_modules@ =~= before.output_modules@);
                assert(self.writers@ =~= before.writers@);
            }
            return Err(PlanError::Unresolved);
        }
        let ghost old_relocs = output.relocs;
        state.shift_offsets_and_apply_relocs(&mut writer.0, &mut output.relocs);
        let ghost bytes = writer.0@;
        let ghost relocs = output.relocs;
        proof {
            assert(are_shifted(state, old_relocs, relocs));
            assert(before.is_relocated(f as int, state, bytes, relocs));
            assert(self.writers@[f as int].0@ == bytes);
            assert(self.output_modules@[f as int].relocs == relocs);
        }
        Ok(())
    }

    /// Applies the relocations of all output modules, in order. Stops at the first module with a
    /// relocation that cannot be applied.
    pub fn apply_relocs(&mut self) -> (r: Result<(), PlanError>)
        requires
            old(self).valid(),
            old(self).output_modules@.len() < u32::MAX,
        ensures
            final(self).valid(),
            match r {
                Ok(_) => final(self).is_applied_from(
                    old(self),
                    old(self).output_modules@.len() as int,
                ),
                Err(error) => error is Unresolved && final(self).is_stuck_from(old(self)),
            },
    {
        let ghost before = *self;
        let mut f: usize = 0;
        while f < self.output_modules.len()
            invariant
                f <= self.output_modules@.len() < u32::MAX,
                before == *old(self),
                self.valid(),
                self.is_applied_from(&before, f as int),
            decreases self.output_modules@.len() - f,
        {
            let ghost earlier = *self;
            let result = self.apply_module_relocs(f);
            proof {
                assert forall|g: int| 0 <= g < self.output_modules@.len() implies output_valid(
                    #[trigger] self.output_modules@[g],
                ) by {
                    assert(output_valid(earlier.output_modules@[g]));
                }
            }
            match result {
                Ok(_) => {},
                Err(error) => {
                    proof {
                        assert(*self == earlier || self.output_modules@ == earlier.output_modules@);
                        lemma_still_stuck(before, earlier, f as int);
                        assert(self.is_applied_from(&before, f as int));
                        assert(self.is_stuck_from(&before));
                    }
                    return Err(error);
                },
            }
            proof {
                lemma_one_more_applied(before, earlier, *self, f as int);
            }
            f = f + 1;
        }
        Ok(())
    }
}

/// Whether relocations are those of another list, relative to their sections.
pub open spec fn are_shifted(state: RelocationState<'_>, before: FileRelocs, after: FileRelocs) -> bool {
    &&& after.wf()
    &&& after.code() == before.code()
    &&& after.data() == before.data()
    &&& after.all().len() == before.all().len()
    &&& forall|i: int, j: int|
        #![trigger before.entities()[i], after.all()[j]]
        0 <= i < before.entities().len() && before.entities()[i].1.0 <= j
            < before.entities()[i].1.1 ==> after.all()[j] == state.shifted(
            before.entities()[i].0,
            before.all()[j],
        )
}

/// What cannot be relocated after some modules were could not be before.
proof fn lemma_still_stuck(before: EmitContext<'_>, earlier: EmitContext<'_>, f: int)
    requires
        0 <= f < before.output_modules@.len(),
        earlier.is_applied_from(&before, f),
        earlier.cannot_relocate(f),
    ensures
        before.cannot_relocate(f),
{
    assert(earlier.output_modules@[f] == before.output_modules@[f]);
    assert(earlier.writers@[f] == before.writers@[f]);
    assert forall|g: int| 0 <= g < before.output_modules@.len() implies (
    #[trigger] before.output_modules@[g]).resolver == earlier.output_modules@[g].resolver by {
        assert(earlier.output_modules@[g] == (OutputModule {
            relocs: earlier.output_modules@[g].relocs,
            ..before.output_modules@[g]
        }));
    }
    let output = before.output_modules@[f];
    let external = output.module.extra.mem_layout.external;
    let start = external.start_spec().id();
    let count = external@.len();
    assert forall|k: int| 0 <= k < count implies data_dep(
        before.snapshot,
        before.dylink_exports_map,
        before.output_modules@,
        before.layouts@,
        output,
        #[trigger] external_ref(output, k),
    ) == data_dep(
        earlier.snapshot,
        earlier.dylink_exports_map,
        earlier.output_modules@,
        earlier.layouts@,
        output,
        external_ref(output, k),
    ) by {
        lemma_same_deps(
            before.snapshot,
            before.dylink_exports_map,
            before.output_modules@,
            earlier.output_modules@,
            before.layouts@,
            output,
            output,
            external_ref(output, k),
        );
    }
    let known = deps_known(
        earlier.snapshot,
        earlier.dylink_exports_map,
        earlier.output_modules@,
        earlier.layouts@,
        output,
    );
    if known {
        let state = choose|state: RelocationState<'_>| #[trigger]
            earlier.is_state_of(f, state) && !state.ready(
                earlier.writers@[f].0@.len() as int,
                output.relocs,
            );
        assert forall|j: nat| #[trigger] slot_at(state.imported()@, j) == if start <= j < start
            + count {
            data_dep(
                before.snapshot,
                before.dylink_exports_map,
                before.output_modules@,
                before.layouts@,
                output,
                external_ref(output, j - start),
            )
        } else {
            None
        } by {
            if start <= j < start + count {
                assert(0 <= j - start < count);
            }
        }
        assert(before.is_state_of(f, state));
    }
}

proof fn lemma_one_more_applied(
    before: EmitContext<'_>,
    earlier: EmitContext<'_>,
    after: EmitContext<'_>,
    f: int,
)
    requires
        0 <= f < before.output_modules@.len(),
        before.writers@.len() == before.output_modules@.len(),
        earlier.is_applied_from(&before, f),
        after == (EmitContext {
            output_modules: after.output_modules,
            writers: after.writers,
            ..earlier
        }),
        after.output_modules@ == earlier.output_modules@.update(f, after.output_modules@[f]),
        after.output_modules@[f] == (OutputModule {
            relocs: after.output_modules@[f].relocs,
            ..earlier.output_modules@[f]
        }),
        after.writers@ == earlier.writers@.update(f, after.writers@[f]),
        exists|state: RelocationState<'_>| #[trigger]
            earlier.is_relocated(
                f,
                state,
                after.writers@[f].0@,
                after.output_modules@[f].relocs,
            ),
    ensures
        after.is_applied_from(&before, f + 1),
{
    let state = choose|state: RelocationState<'_>| #[trigger]
        earlier.is_relocated(f, state, after.writers@[f].0@, after.output_modules@[f].relocs);
    assert(earlier.output_modules@[f] == before.output_modules@[f]);
    assert forall|g: int| 0 <= g < before.output_modules@.len() implies (
    #[trigger] before.output_modules@[g]).resolver == earlier.output_modules@[g].resolver by {
        assert(earlier.output_modules@[g] == (OutputModule {
            relocs: earlier.output_modules@[g].relocs,
            ..before.output_modules@[g]
        }));
    }
    let output = before.output_modules@[f];
    let start = output.module.extra.mem_layout.external.start_spec().id();
    let count = output.module.extra.mem_layout.external@.len();
    assert forall|j: nat| #[trigger] slot_at(state.imported()@, j) == if start <= j < start + count {
        data_dep(
            before.snapshot,
            before.dylink_exports_map,
            before.output_modules@,
            before.layouts@,
            output,
            external_ref(output, j - start),
        )
    } else {
        None
    } by {
        if start <= j < start + count {
            lemma_same_deps(
                before.snapshot,
                before.dylink_exports_map,
                before.output_modules@,
                earlier.output_modules@,
                before.layouts@,
                output,
                output,
                external_ref(output, j - start),
            );
        }
    }
    assert(before.is_relocated(f, state, after.writers@[f].0@, after.output_modules@[f].relocs));
    assert forall|g: int| 0 <= g < f + 1 implies {
        let out = #[trigger] after.output_modules@[g];
        exists|state: RelocationState<'_>| #[trigger]
            before.is_relocated(g, state, after.writers@[g].0@, out.relocs)
    } by {
        if g < f {
            assert(after.output_modules@[g] == earlier.output_modules@[g]);
            assert(after.writers@[g] == earlier.writers@[g]);
        }
    }
    assert forall|g: int| 0 <= g < after.output_modules@.len() implies #[trigger] after.output_modules@[g]
        == (OutputModule {
        relocs: after.output_modules@[g].relocs,
        ..before.output_modules@[g]
    }) by {
        assert(earlier.output_modules@[g] == (OutputModule {
            relocs: earlier.output_modules@[g].relocs,
            ..before.output_modules@[g]
        }));
    }
}

} // verus!
