//! Globals of the output modules of a split program.
use crate::analysis::split_point::{shared_text, SharedModuleIdentifier};
use crate::emit::object::builder::ObjectBuilder;
use crate::emit::object::globals::{is_base, DefinedGlobal, GlobalImport};
use crate::emit::object::split::{Split, SplitContext, SplitError};
use crate::emit::object::GotBase;
use crate::index::TempIndex;
use crate::typed::duplicate::Duplicate;
use crate::typed::entities::CollectionView;
use crate::typed::lookup::global_number;
use crate::typed::module::{DefinedGlobal as InputGlobal, ImportedGlobal as InputImport};
use crate::typed::types::{GlobalType, ValType};
use crate::typed::GlobalRef;
use vstd::prelude::*;
use vstd::string::StringExecFns;

verus! {

/// Whether an imported global is that of the input module.
pub open spec fn is_existing_global(import: GlobalImport, input: InputImport, id: int) -> bool {
    &&& import matches GlobalImport::Existing {
        global_name,
        module_name,
        input_global_id,
        global_type,
    }
    &&& global_name@ == input.name@
    &&& module_name@ == input.module@
    &&& input_global_id.id() == id
    &&& global_type == input.entity_type
}

/// Whether a defined global is a copy of one of the input module.
pub open spec fn is_copied_global(defined: DefinedGlobal, input: InputGlobal, id: int) -> bool {
    &&& defined matches DefinedGlobal::PlainCopy { global, input_global_id }
    &&& input.same_as(&global)
    &&& input_global_id.id() == id
}

/// Whether the globals of an output module are those of the input module.
pub open spec fn are_source_globals(
    globals: CollectionView<InputImport, InputGlobal>,
    imports: Seq<GlobalImport>,
    defined: Seq<DefinedGlobal>,
) -> bool {
    &&& imports.len() == globals.imports.len()
    &&& forall|i: int|
        0 <= i < imports.len() ==> is_existing_global(
            #[trigger] imports[i],
            globals.imports[i],
            i,
        )
    &&& defined.len() == globals.defined.len()
    &&& forall|i: int|
        0 <= i < defined.len() ==> is_copied_global(
            #[trigger] defined[i],
            globals.defined[i],
            globals.imports.len() + i,
        )
}

/// The type of a global of the main module that another module imports.
pub open spec fn main_global_type() -> GlobalType {
    GlobalType { content_type: ValType::I32, mutable: true, shared: false }
}

/// Whether a global of the main module is imported.
pub open spec fn is_main_import(
    globals: CollectionView<InputImport, InputGlobal>,
    name: Seq<char>,
    import: GlobalImport,
) -> bool {
    &&& import matches GlobalImport::New { input_global_id, global_name, global_type }
    &&& input_global_id matches Some(id)
    &&& global_number(globals, name, 0) == Some(id.id() as int)
    &&& global_name@ == name
    &&& global_type == main_global_type()
}

/// Whether globals of the main module are imported.
pub open spec fn are_main_imports(
    globals: CollectionView<InputImport, InputGlobal>,
    names: Seq<String>,
    imports: Seq<GlobalImport>,
) -> bool {
    &&& imports.len() == names.len()
    &&& forall|i: int|
        0 <= i < names.len() ==> is_main_import(globals, names[i]@, #[trigger] imports[i])
}

/// Whether a global that other modules need does not exist.
pub open spec fn misses_global(
    globals: CollectionView<InputImport, InputGlobal>,
    names: Seq<String>,
) -> bool {
    exists|i: int|
        0 <= i < names.len() && global_number(globals, (#[trigger] names[i])@, 0) is None
}

/// The name of the base of a shared module in memory.
pub open spec fn lib_base_name(module: Seq<char>) -> Seq<char> {
    "__"@ + module + "_lib_base"@
}

/// The name of the base of a shared module in the table.
pub open spec fn table_base_name(module: Seq<char>) -> Seq<char> {
    "__"@ + module + "_table_base"@
}

/// Whether the bases of shared modules are imported, two for each.
pub open spec fn are_extern_bases(
    shared: Seq<SharedModuleIdentifier>,
    first: int,
    imports: Seq<GlobalImport>,
    bases: Seq<(SharedModuleIdentifier, GotBase)>,
) -> bool {
    &&& bases.len() == shared.len()
    &&& imports.len() == first + 2 * shared.len()
    &&& forall|i: int|
        #![trigger bases[i]]
        0 <= i < shared.len() ==> {
            &&& bases[i].0@ == shared[i]@
            &&& bases[i].1.lib_base_id.id == first + 2 * i
            &&& bases[i].1.table_base_id.id == first + 2 * i + 1
            &&& is_base(imports[first + 2 * i], lib_base_name(shared_text(shared[i]@)))
            &&& is_base(imports[first + 2 * i + 1], table_base_name(shared_text(shared[i]@)))
        }
}

impl Split<ObjectBuilder> {
    /// Adds the globals of the input module.
    pub(crate) fn copy_src_globals(&mut self, context: &SplitContext<'_>)
        requires
            context.module_info.module.globals@.len() < u32::MAX,
            old(self).state.globals.imports@.len() == 0,
            old(self).state.globals.defined@.len() == 0,
        ensures
            final(self).state.functions == old(self).state.functions,
            final(self).state.data == old(self).state.data,
            are_source_globals(
                context.module_info.module.globals@,
                final(self).state.globals.imports@,
                final(self).state.globals.defined@,
            ),
    {
        let ghost all = context.module_info.module.globals@;
        let imports = context.module_info.module.globals.imports();
        let mut i: usize = 0;
        while i < imports.len()
            invariant
                i <= imports@.len() == all.imports.len(),
                all == context.module_info.module.globals@,
                all.len() < u32::MAX,
                imports@ == all.imports,
                self.state.functions == old(self).state.functions,
                self.state.data == old(self).state.data,
                self.state.globals.defined@.len() == 0,
                self.state.globals.imports@.len() == i,
                forall|j: int|
                    0 <= j < i ==> is_existing_global(
                        #[trigger] self.state.globals.imports@[j],
                        all.imports[j],
                        j,
                    ),
            decreases imports@.len() - i,
        {
            let import = &imports[i];
            let _ = self.state.add_imported_global(
                GlobalImport::Existing {
                    global_name: import.name.clone(),
                    module_name: import.module.clone(),
                    input_global_id: GlobalRef::from_raw(i as u32),
                    global_type: import.entity_type,
                },
            );
            i = i + 1;
        }
        let defined = context.module_info.module.globals.defined();
        let mut k: usize = 0;
        while k < defined.len()
            invariant
                k <= defined@.len() == all.defined.len(),
                i == all.imports.len(),
                all == context.module_info.module.globals@,
                all.len() < u32::MAX,
                defined@ == all.defined,
                self.state.functions == old(self).state.functions,
                self.state.data == old(self).state.data,
                self.state.globals.imports@.len() == i,
                forall|j: int|
                    0 <= j < i ==> is_existing_global(
                        #[trigger] self.state.globals.imports@[j],
                        all.imports[j],
                        j,
                    ),
                self.state.globals.defined@.len() == k,
                forall|j: int|
                    0 <= j < k ==> is_copied_global(
                        #[trigger] self.state.globals.defined@[j],
                        all.defined[j],
                        all.imports.len() + j,
                    ),
            decreases defined@.len() - k,
        {
            self.state.add_defined_global(
                DefinedGlobal::PlainCopy {
                    global: defined[k].duplicate(),
                    input_global_id: GlobalRef::from_raw((i + k) as u32),
                },
            );
            k = k + 1;
        }
    }

    /// Imports globals of the main module.
    pub(crate) fn add_submodule_global_imports(&mut self, context: &SplitContext<'_>) -> (r: Result<
        (),
        SplitError,
    >)
        requires
            context.module_info.module.globals@.len() < u32::MAX,
            old(self).state.globals.imports@.len() == 0,
        ensures
            final(self).state.functions == old(self).state.functions,
            final(self).state.data == old(self).state.data,
            final(self).state.globals.defined == old(self).state.globals.defined,
            match r {
                Ok(_) => are_main_imports(
                    context.module_info.module.globals@,
                    context.emit_info.main_global_exports@,
                    final(self).state.globals.imports@,
                ),
                Err(error) => {
                    ||| error is MissingGlobal && misses_global(
                        context.module_info.module.globals@,
                        context.emit_info.main_global_exports@,
                    )
                    ||| error is TooManyEntities
                        && context.emit_info.main_global_exports@.len() > u32::MAX
                },
            },
    {
        let ghost all = context.module_info.module.globals@;
        let ghost all_names = context.emit_info.main_global_exports@;
        let names = &context.emit_info.main_global_exports;
        let mut i: usize = 0;
        while i < names.len()
            invariant
                i <= names@.len(),
                names@ == all_names,
                all_names == context.emit_info.main_global_exports@,
                all == context.module_info.module.globals@,
                all.len() < u32::MAX,
                self.state.functions == old(self).state.functions,
                self.state.data == old(self).state.data,
                self.state.globals.defined == old(self).state.globals.defined,
                self.state.globals.imports@.len() == i,
                forall|j: int|
                    0 <= j < i ==> is_main_import(
                        all,
                        all_names[j]@,
                        #[trigger] self.state.globals.imports@[j],
                    ),
            decreases names@.len() - i,
        {
            if i >= u32::MAX as usize {
                return Err(SplitError::TooManyEntities);
            }
            match context.module_info.module.find_global_id_by_name(&names[i]) {
                Some(id) => {
                    let _ = self.state.add_imported_global(
                        GlobalImport::New {
                            input_global_id: Some(id),
                            global_name: names[i].clone(),
                            global_type: GlobalType {
                                content_type: ValType::I32,
                                mutable: true,
                                shared: false,
                            },
                        },
                    );
                },
                None => {
                    assert(global_number(all, all_names[i as int]@, 0) is None);
                    return Err(SplitError::MissingGlobal);
                },
            }
            i = i + 1;
        }
        Ok(())
    }

    /// Imports the bases of the modules that the output module uses.
    pub(crate) fn add_extern_bases(&mut self, shared: &Vec<SharedModuleIdentifier>) -> (r: Option<
        Vec<(SharedModuleIdentifier, GotBase)>,
    >)
        ensures
            final(self).state.functions == old(self).state.functions,
            final(self).state.data == old(self).state.data,
            final(self).state.globals.defined == old(self).state.globals.defined,
            match r {
                Some(bases) => {
                    let before = old(self).state.globals.imports@;
                    let after = final(self).state.globals.imports@;
                    &&& before.len() <= after.len()
                    &&& after.take(before.len() as int) == before
                    &&& are_extern_bases(shared@, before.len() as int, after, bases@)
                },
                None => old(self).state.globals.imports@.len() + 2 * shared@.len() > u32::MAX - 2,
            },
    {
        let ghost before = self.state.globals.imports@;
        let ghost first = before.len() as int;
        let mut bases: Vec<(SharedModuleIdentifier, GotBase)> = Vec::new();
        let mut i: usize = 0;
        assert(before.take(first) =~= before);
        while i < shared.len()
            invariant
                i <= shared@.len(),
                first == before.len(),
                before == old(self).state.globals.imports@,
                first + 2 * i == self.state.globals.imports@.len(),
                self.state.globals.imports@.take(first) == before,
                self.state.functions == old(self).state.functions,
                self.state.data == old(self).state.data,
                self.state.globals.defined == old(self).state.globals.defined,
                are_extern_bases(
                    shared@.take(i as int),
                    first,
                    self.state.globals.imports@,
                    bases@,
                ),
            decreases shared@.len() - i,
        {
            let ghost imports = self.state.globals.imports@;
            let ghost earlier = bases@;
            if self.state.globals.imports.len() >= (u32::MAX - 2) as usize {
                return None;
            }
            let text = shared[i].to_text();
            let mut lib_base = "__".to_owned();
            lib_base.append(text.as_str());
            lib_base.append("_lib_base");
            let mut table_base = "__".to_owned();
            table_base.append(text.as_str());
            table_base.append("_table_base");
            let lib_base_id = self.state.add_imported_global(GlobalImport::base(lib_base));
            let table_base_id = self.state.add_imported_global(GlobalImport::base(table_base));
            bases.push((shared[i].clone(), GotBase { lib_base_id, table_base_id }));
            proof {
                let longer = self.state.globals.imports@;
                assert(longer.take(first) =~= imports.take(first));
                assert forall|j: int|
                    #![trigger bases@[j]]
                    0 <= j < i + 1 implies {
                    &&& bases@[j].0@ == shared@.take(i + 1)[j]@
                    &&& bases@[j].1.lib_base_id.id == first + 2 * j
                    &&& bases@[j].1.table_base_id.id == first + 2 * j + 1
                    &&& is_base(
                        longer[first + 2 * j],
                        lib_base_name(shared_text(shared@.take(i + 1)[j]@)),
                    )
                    &&& is_base(
                        longer[first + 2 * j + 1],
                        table_base_name(shared_text(shared@.take(i + 1)[j]@)),
                    )
                } by {
                    if j < i {
                        assert(bases@[j] == earlier[j]);
                        assert(shared@.take(i as int)[j] == shared@[j]);
                    }
                }
            }
            i = i + 1;
        }
        assert(shared@.take(i as int) =~= shared@);
        Some(bases)
    }
}

} // verus!
