//! Makes the absolute addresses in copied entities relative to base globals.
use crate::emit::modify::blacklist::IsSet;
use crate::emit::modify::code_abs_to_got::{has_tmps, tmps_from, CodeAbsToGot};
use crate::emit::modify::cursor::CursorView;
use crate::emit::modify::data_abs_to_got::{
    is_resolved_init, lemma_inits_bound, start_fn_bytes, start_fn_relocs, DataAbsToGot,
    DataSymbolInit, FinalDataSymbolInit,
};
use crate::emit::modify::{
    are_outcomes, create_fixup_for_entity, extras_of, fixup_cursor, local_reloc, rewrites_of,
    rewritten_numbers, FixupError, HandleFixups, Rewrite,
};
use crate::emit::plan::definition::{has_number, AnyEntity, PlanError, SourceInfo};
use crate::emit::relocation::resolver::OutputEntitiesResolver;
use crate::emit::relocation::EntityLocation;
use crate::index::{filled, MAX_VALUE, Temp, TempIndex, TempKind};
use crate::layouts::SegmentPlacement;
use crate::linkage::reloc::EntityRelocationEntry;
use crate::typed::body::{bits_of, EntityBody};
use crate::typed::builder::{BuilderExtra, ModuleBuilder};
use crate::typed::entities::{CollectionView, DefinedEntity, ImportOrDefined};
use crate::typed::module::{DefinedFunction, Module};
use crate::typed::snapshot::{EntitiesSnapshot, FlatEntityRef};
use crate::typed::EntityKind;
use vstd::prelude::*;

verus! {

/// What is kept of the modifications of code and of data.
pub type Artifact = (Vec<()>, Vec<DataSymbolInit>);

/// Whether a reference is one that can be relative to a base.
pub open spec fn is_address(symbol: EntityKind) -> bool {
    symbol is DataSymbol || symbol is Function
}

/// Whether a relocation lies in an entity, and refers to an entity of the file.
pub open spec fn reloc_fits(
    reloc: EntityRelocationEntry,
    start: int,
    len: int,
    snapshot: EntitiesSnapshot,
) -> bool {
    &&& start <= reloc.offset
    &&& reloc.place().1 - start <= len
    &&& reloc.place().1 <= usize::MAX
    &&& is_address(reloc.symbol_id) ==> snapshot.has(reloc.symbol_id)
}

/// Whether all relocations lie in an entity, and refer to entities of the file.
pub open spec fn relocs_fit(
    relocs: Seq<EntityRelocationEntry>,
    start: int,
    len: int,
    snapshot: EntitiesSnapshot,
) -> bool {
    &&& relocs.len() <= u32::MAX
    &&& forall|i: int|
        0 <= i < relocs.len() ==> reloc_fits(#[trigger] relocs[i], start, len, snapshot)
}

fn check_relocs(
    relocs: &[EntityRelocationEntry],
    start: usize,
    len: usize,
    snapshot: &EntitiesSnapshot,
) -> (r: bool)
    ensures
        r == relocs_fit(relocs@, start as int, len as int, *snapshot),
{
    if relocs.len() as u128 > u32::MAX as u128 {
        return false;
    }
    let mut i: usize = 0;
    while i < relocs.len()
        invariant
            i <= relocs@.len() <= u32::MAX,
            forall|j: int|
                0 <= j < i ==> reloc_fits(
                    #[trigger] relocs@[j],
                    start as int,
                    len as int,
                    *snapshot,
                ),
        decreases relocs@.len() - i,
    {
        let reloc = &relocs[i];
        let end: u128 = reloc.offset as u128 + reloc.extent() as u128;
        let known = match reloc.symbol_id {
            EntityKind::Function(id) => id.as_u32() < snapshot.functions,
            EntityKind::DataSymbol(id) => id.as_u32() < snapshot.data_symbols,
            _ => true,
        };
        if reloc.offset as u128 >= start as u128 && end <= start as u128 + len as u128 && end
            <= usize::MAX as u128 && known {
            assert(reloc_fits(relocs@[i as int], start as int, len as int, *snapshot));
        } else {
            assert(!reloc_fits(relocs@[i as int], start as int, len as int, *snapshot));
            return false;
        }
        i = i + 1;
    }
    true
}

/// Whether a body is a copy that has not been modified.
pub open spec fn is_unmodified(body: EntityBody) -> bool {
    body matches EntityBody::Copied(copied) && copied.fixups@.len() == 0
}

/// Whether a way to modify references can look at all relocations of an entity.
pub open spec fn looks_at_all<H: HandleFixups>(
    handler: H,
    new_ref: Temp<H::EntityRef>,
    snapshot: EntitiesSnapshot,
) -> bool {
    forall|buffer: CursorView, entry: EntityRelocationEntry|
        {
            &&& 0 <= buffer.green.0 <= buffer.green.1 <= buffer.buffer.len()
            &&& entry.place().1 <= usize::MAX
            &&& is_address(entry.symbol_id) ==> snapshot.has(entry.symbol_id)
        } ==> #[trigger] handler.can_create(new_ref, buffer, snapshot, entry)
}

/// Whether the relocations of a defined entity are looked at, up to the first failure, and the
/// rewrites are kept.
pub open spec fn is_fixed<T, H: HandleFixups>(
    handler: H,
    new_ref: Temp<H::EntityRef>,
    info: SourceInfo<'_>,
    before: DefinedEntity<T>,
    after: DefinedEntity<T>,
    result: Result<Seq<H::ExtraData>, FixupError>,
) -> bool {
    &&& before.body is Copied
    &&& after.body is Copied
    &&& after == (DefinedEntity { body: after.body, ..before })
    &&& ({
        let old_body = before.body->Copied_0;
        let body = after.body->Copied_0;
        &&& body.bytes == old_body.bytes
        &&& body.original_range == old_body.original_range
        &&& exists|outcomes: Seq<Result<Option<(Rewrite, H::ExtraData)>, FixupError>>|
            {
                &&& #[trigger] are_outcomes(
                    handler,
                    new_ref,
                    (info.input_file, *info.snapshot),
                    old_body.bytes@,
                    old_body.original_range.start as int,
                    info.entity_relocs@,
                    outcomes,
                )
                &&& body.fixups@ == old_body.fixups@ + rewrites_of(outcomes)
                &&& bits_of(body.filtered_relocs) == bits_of(old_body.filtered_relocs).union(
                    rewritten_numbers(outcomes),
                )
                &&& match result {
                    Ok(extras) => {
                        &&& outcomes.len() == info.entity_relocs@.len()
                        &&& outcomes.len() > 0 ==> outcomes.last() is Ok
                        &&& extras == extras_of(outcomes)
                    },
                    Err(error) => outcomes.len() > 0 && (outcomes.last() matches Err(e) && e
                        == error),
                }
            }
    })
}

/// What a way to modify references makes of an entity. Only defined entities are modified.
pub open spec fn is_fix_outcome<I, T, H: HandleFixups>(
    modifier: Option<H>,
    new_ref: Temp<H::EntityRef>,
    info: SourceInfo<'_>,
    before: ImportOrDefined<I, DefinedEntity<T>>,
    after: ImportOrDefined<I, DefinedEntity<T>>,
    result: Result<Seq<H::ExtraData>, PlanError>,
) -> bool {
    match (before, modifier) {
        (ImportOrDefined::Defined(old_entity), Some(handler)) => if !is_unmodified(
            old_entity.body,
        ) {
            after == before && result == Err::<Seq<H::ExtraData>, _>(PlanError::AlreadyModified)
        } else if !relocs_fit(
            info.entity_relocs@,
            old_entity.body->Copied_0.original_range.start as int,
            old_entity.body->Copied_0.bytes@.len() as int,
            *info.snapshot,
        ) {
            after == before && result == Err::<Seq<H::ExtraData>, _>(PlanError::BadRelocation)
        } else {
            &&& after is Defined
            &&& match result {
                Ok(extras) => is_fixed(
                    handler,
                    new_ref,
                    info,
                    old_entity,
                    after->Defined_0,
                    Ok(extras),
                ),
                Err(PlanError::Fixup(error)) => is_fixed(
                    handler,
                    new_ref,
                    info,
                    old_entity,
                    after->Defined_0,
                    Err(error),
                ),
                Err(_) => false,
            }
        },
        _ => after == before && result == Ok::<Seq<H::ExtraData>, PlanError>(Seq::empty()),
    }
}

/// The items of a result.
pub open spec fn seq_of<E>(result: Result<Vec<E>, PlanError>) -> Result<Seq<E>, PlanError> {
    match result {
        Ok(items) => Ok(items@),
        Err(error) => Err(error),
    }
}

/// Modifies the references of an entity, if it is a defined one.
fn fix_entity<I, T, H: HandleFixups>(
    entity: &mut ImportOrDefined<I, DefinedEntity<T>>,
    new_ref: Temp<H::EntityRef>,
    info: SourceInfo<'_>,
    modifier: &Option<H>,
) -> (r: Result<Vec<H::ExtraData>, PlanError>)
    requires
        *modifier matches Some(handler) ==> looks_at_all(handler, new_ref, *info.snapshot),
    ensures
        is_fix_outcome(*modifier, new_ref, info, *old(entity), *final(entity), seq_of(r)),
{
    let handler = match modifier {
        Some(handler) => handler,
        None => {
            let nothing: Vec<H::ExtraData> = Vec::new();
            assert(nothing@ =~= Seq::<H::ExtraData>::empty());
            return Ok(nothing);
        },
    };
    match entity {
        ImportOrDefined::Defined(defined) => {
            let ghost before = *defined;
            match &mut defined.body {
                EntityBody::Copied(body) => {
                    if body.fixups.len() > 0 {
                        return Err(PlanError::AlreadyModified);
                    }
                    let start: usize = body.original_range.start;
                    if !check_relocs(
                        info.entity_relocs,
                        start,
                        body.bytes.len(),
                        info.snapshot,
                    ) {
                        return Err(PlanError::BadRelocation);
                    }
                    proof {
                        let relocs = info.entity_relocs@;
                        assert forall|i: int| 0 <= i < relocs.len() implies {
                            let reloc = #[trigger] relocs[i];
                            &&& start <= reloc.offset
                            &&& reloc.place().1 <= usize::MAX
                            &&& handler.can_create(
                                new_ref,
                                fixup_cursor(body.bytes@, start as int, relocs, i),
                                *info.snapshot,
                                local_reloc(reloc, start as int),
                            )
                        } by {
                            assert(reloc_fits(
                                relocs[i],
                                start as int,
                                body.bytes@.len() as int,
                                *info.snapshot,
                            ));
                        }
                    }
                    match create_fixup_for_entity(
                        body,
                        new_ref,
                        (info.input_file, info.snapshot),
                        info.entity_relocs,
                        handler,
                    ) {
                        Ok(extras) => Ok(extras),
                        Err(error) => Err(PlanError::Fixup(error)),
                    }
                },
                EntityBody::New { .. } => Err(PlanError::AlreadyModified),
            }
        },
        _ => {
            let nothing: Vec<H::ExtraData> = Vec::new();
            assert(nothing@ =~= Seq::<H::ExtraData>::empty());
            Ok(nothing)
        },
    }
}

/// Makes the absolute addresses in code and in data relative to base globals.
#[derive(Debug)]
pub struct AbsToGot<S> {
    pub code_modifier: Option<CodeAbsToGot<S>>,
    pub data_modifier: Option<DataAbsToGot<S>>,
}

/// Whether a set can be asked for every entity.
pub open spec fn asks_all<S: IsSet>(set: S) -> bool {
    forall|entity: FlatEntityRef| #[trigger] set.can_ask(entity)
}

/// Whether a module has indices for the entities that the modification needs.
pub open spec fn has_room_for_got(module: ModuleBuilder) -> bool {
    &&& module.globals@.imports.len() + module.globals@.defined.len() + 4 <= MAX_VALUE
    &&& module.functions@.defined.len() <= MAX_VALUE
}

/// Whether a function is a start function without instructions.
pub open spec fn is_empty_start(start: DefinedFunction) -> bool {
    &&& start.entity_type.params@.len() == 0
    &&& start.entity_type.results@.len() == 0
    &&& start.name matches Some(name)
    &&& name@ == "__wamex_reloc_init"@
    &&& start.export_as@.len() == 0
    &&& start.body matches EntityBody::New { new_relocs, new_bytes }
    &&& new_relocs@.len() == 0
    &&& new_bytes@.len() == 0
}

impl<S: IsSet> AbsToGot<S> {
    /// Whether references can be modified.
    pub open spec fn valid(self) -> bool {
        &&& self.code_modifier matches Some(code) ==> code.global_tmps is Some && asks_all(
            code.always_static_symbols,
        )
        &&& self.data_modifier matches Some(data) ==> asks_all(data.is_static_symbol)
    }

    /// What setting up makes of a module. A module with fixed addresses stays as it is; another
    /// one gets globals that hold values for a while, and a start function.
    pub open spec fn is_set_up(self, shared: S, before: ModuleBuilder, after: ModuleBuilder) -> bool {
        match before.extra.got_info {
            None => {
                &&& self.code_modifier is None
                &&& self.data_modifier is None
                &&& after == before
            },
            Some(_) => {
                let first = before.globals@.imports.len() + before.globals@.defined.len();
                &&& self.code_modifier == Some(
                    CodeAbsToGot {
                        global_tmps: Some(tmps_from(first as int)),
                        always_static_symbols: shared,
                    },
                )
                &&& self.data_modifier matches Some(data)
                &&& data.is_static_symbol == shared
                &&& data.start_fn.kind() == TempKind::Defined(
                    before.functions@.defined.len() as u32,
                )
                &&& after == (ModuleBuilder {
                    functions: after.functions,
                    globals: after.globals,
                    extra: BuilderExtra {
                        start_functions: after.extra.start_functions,
                        ..before.extra
                    },
                    ..before
                })
                &&& after.globals@ == (CollectionView {
                    defined: after.globals@.defined,
                    ..before.globals@
                })
                &&& has_tmps(before.globals@.defined, after.globals@.defined)
                &&& after.extra.start_functions@ == before.extra.start_functions@.push(
                    data.start_fn,
                )
                &&& exists|start: DefinedFunction|
                    after.functions@ == #[trigger] before.functions@.with(
                        ImportOrDefined::Defined(start),
                    ) && is_empty_start(start)
            },
        }
    }

    /// Prepares a module, if it is position independent.
    pub fn setup(shared: S, module: &mut ModuleBuilder) -> (r: Result<Self, PlanError>)
        where S: Copy
        ensures
            match r {
                Ok(converter) => {
                    &&& converter.is_set_up(shared, *old(module), *final(module))
                    &&& asks_all(shared) ==> converter.valid()
                },
                Err(error) => {
                    &&& error == PlanError::TooManyEntities
                    &&& *final(module) == *old(module)
                    &&& old(module).extra.got_info is Some
                    &&& !has_room_for_got(*old(module))
                },
            },
    {
        let got = match module.extra.got_info {
            Some(got) => got,
            None => {
                return Ok(AbsToGot { code_modifier: None, data_modifier: None });
            },
        };
        let globals: u128 = module.globals.imports().len() as u128
            + module.globals.defined().len() as u128;
        if globals + 4 > MAX_VALUE as u128 || module.functions.defined().len() as u128
            > MAX_VALUE as u128 {
            return Err(PlanError::TooManyEntities);
        }
        let mut code = CodeAbsToGot::new(shared);
        let mem_start = SegmentPlacement::GotBased { global: got.memory_base, offset: 0 };
        code.setup(&mut module.globals, &mem_start);
        let data = DataAbsToGot::new(
            shared,
            &mut module.functions,
            &mut module.extra.start_functions,
        );
        proof {
            let start = choose|start: DefinedFunction|
                {
                    &&& module.functions@ == #[trigger] old(module).functions@.with(
                        ImportOrDefined::Defined(start),
                    )
                    &&& is_empty_start(start)
                };
            assert(is_empty_start(start));
        }
        Ok(AbsToGot { code_modifier: Some(code), data_modifier: Some(data) })
    }

    /// What the modification of an entity makes of it. Only functions and data have addresses.
    pub open spec fn is_modified(
        self,
        info: SourceInfo<'_>,
        before: AnyEntity,
        after: AnyEntity,
        result: Result<Artifact, PlanError>,
    ) -> bool {
        match (before, after) {
            (
                AnyEntity::Function { new_ref, entity },
                AnyEntity::Function { new_ref: same_ref, entity: changed },
            ) => {
                &&& new_ref == same_ref
                &&& is_fix_outcome(
                    self.code_modifier,
                    new_ref,
                    info,
                    entity,
                    changed,
                    match result {
                        Ok(artifact) => Ok(artifact.0@),
                        Err(error) => Err(error),
                    },
                )
                &&& result matches Ok(artifact) ==> artifact.1@.len() == 0
            },
            (
                AnyEntity::DataSymbol { new_ref, entity },
                AnyEntity::DataSymbol { new_ref: same_ref, entity: changed },
            ) => {
                &&& new_ref == same_ref
                &&& is_fix_outcome(
                    self.data_modifier,
                    new_ref,
                    info,
                    entity,
                    changed,
                    match result {
                        Ok(artifact) => Ok(artifact.1@),
                        Err(error) => Err(error),
                    },
                )
                &&& result matches Ok(artifact) ==> artifact.0@.len() == 0
            },
            _ => {
                &&& !(before is Function)
                &&& !(before is DataSymbol)
                &&& after == before
                &&& result matches Ok(artifact)
                &&& artifact.0@.len() == 0
                &&& artifact.1@.len() == 0
            },
        }
    }

    /// Makes the addresses in a copied entity relative.
    pub fn modify_entity(&self, source_info: SourceInfo<'_>, entity: &mut AnyEntity) -> (r: Result<
        Artifact,
        PlanError,
    >)
        requires
            self.valid(),
            source_info.snapshot.fits(),
        ensures
            self.is_modified(source_info, *old(entity), *final(entity), r),
    {
        match entity {
            AnyEntity::Function { new_ref, entity } => {
                match fix_entity(entity, *new_ref, source_info, &self.code_modifier) {
                    Ok(extras) => Ok((extras, Vec::new())),
                    Err(error) => Err(error),
                }
            },
            AnyEntity::DataSymbol { new_ref, entity } => {
                match fix_entity(entity, *new_ref, source_info, &self.data_modifier) {
                    Ok(extras) => Ok((Vec::new(), extras)),
                    Err(error) => Err(error),
                }
            },
            _ => Ok((Vec::new(), Vec::new())),
        }
    }
}

/// Whether the places of addresses get final indices, and the addressed entities are in the module.
pub open spec fn inits_known(
    module: Module,
    outputs: Map<EntityLocation, EntityKind>,
    temps: Seq<DataSymbolInit>,
) -> bool {
    forall|i: int|
        0 <= i < temps.len() ==> init_known(module, outputs, #[trigger] temps[i])
}

pub open spec fn init_known(
    module: Module,
    outputs: Map<EntityLocation, EntityKind>,
    temp: DataSymbolInit,
) -> bool {
    &&& has_number(temp.storage, 0, filled(module.extra.mem_layout.defined@))
    &&& outputs.contains_key(temp.relocated_symbol)
    &&& is_address(outputs[temp.relocated_symbol])
}

/// Most addresses that a start function can write.
pub const MAX_INITS: usize = 0x0600_0000;

/// Why the start function of a module cannot be written.
pub open spec fn start_error<S: IsSet>(
    data: DataAbsToGot<S>,
    module: Module,
    outputs: Map<EntityLocation, EntityKind>,
    temps: Seq<DataSymbolInit>,
) -> Option<PlanError> {
    if temps.len() > MAX_INITS {
        Some(PlanError::TooManyEntities)
    } else if !inits_known(module, outputs, temps) {
        Some(PlanError::Unresolved)
    } else {
        match data.start_fn.kind() {
            TempKind::Defined(i) => if i < module.functions@.defined.len()
                && module.functions@.defined[i as int].body is New {
                None
            } else {
                Some(PlanError::WrongStep)
            },
            _ => Some(PlanError::WrongStep),
        }
    }
}

/// Whether the start function of a module writes addresses.
pub open spec fn is_start_written(
    i: int,
    before: Module,
    after: Module,
    outputs: Map<EntityLocation, EntityKind>,
    temps: Seq<DataSymbolInit>,
    inits: Seq<FinalDataSymbolInit>,
) -> bool {
    let old_start = before.functions@.defined[i];
    let start = after.functions@.defined[i];
    &&& inits.len() == temps.len()
    &&& forall|k: int|
        0 <= k < inits.len() ==> is_resolved_init(
            before.extra.mem_layout,
            outputs,
            temps[k],
            #[trigger] inits[k],
        )
    &&& after == (Module { functions: after.functions, ..before })
    &&& after.functions@ == (CollectionView {
        defined: before.functions@.defined.update(i, start),
        ..before.functions@
    })
    &&& start == (DefinedEntity { body: start.body, ..old_start })
    &&& start.body is New
    &&& start.body->New_new_bytes@ == start_fn_bytes(inits)
    &&& start.body->New_new_relocs@ == old_start.body->New_new_relocs@ + start_fn_relocs(inits)
}

/// Whether the addresses that must be written when a module starts are written.
pub open spec fn is_started_up<S: IsSet>(
    data: DataAbsToGot<S>,
    before: Module,
    after: Module,
    outputs: Map<EntityLocation, EntityKind>,
    temps: Seq<DataSymbolInit>,
) -> bool {
    data.start_fn.kind() matches TempKind::Defined(i) && exists|inits: Seq<FinalDataSymbolInit>|
        #[trigger] is_start_written(i as int, before, after, outputs, temps, inits)
}

fn check_inits(
    module: &Module,
    resolver: &OutputEntitiesResolver,
    temps: &Vec<DataSymbolInit>,
) -> (r: bool)
    requires
        module.extra.mem_layout.wf(),
    ensures
        r == inits_known(*module, resolver.outputs(), temps@),
{
    let defined: usize = module.extra.mem_layout.defined.len();
    let mut i: usize = 0;
    while i < temps.len()
        invariant
            i <= temps@.len(),
            defined == filled(module.extra.mem_layout.defined@),
            forall|j: int|
                0 <= j < i ==> init_known(*module, resolver.outputs(), #[trigger] temps@[j]),
        decreases temps@.len() - i,
    {
        let temp = &temps[i];
        let has_output = match resolver.get_output_entity(&temp.relocated_symbol) {
            Some(symbol) => symbol.is_function() || symbol.is_data(),
            None => false,
        };
        if !has_output || !temp.storage.gets_number(0, defined) {
            assert(!init_known(*module, resolver.outputs(), temps@[i as int]));
            return false;
        }
        i = i + 1;
    }
    true
}

impl<S: IsSet> AbsToGot<S> {
    /// Whether a result is that of finishing a module.
    pub open spec fn is_finished(
        self,
        before: Module,
        after: Module,
        outputs: Map<EntityLocation, EntityKind>,
        temps: Seq<DataSymbolInit>,
        result: Result<(), PlanError>,
    ) -> bool {
        match self.data_modifier {
            None => result is Ok && after == before,
            Some(data) => match start_error(data, before, outputs, temps) {
                Some(error) => result == Err::<(), _>(error) && after == before,
                None => result is Ok && is_started_up(data, before, after, outputs, temps),
            },
        }
    }

    /// Gives the start function its body: it writes the addresses in data.
    pub fn finish(
        &self,
        module: &mut Module,
        resolver: &OutputEntitiesResolver,
        aggregated_data: Artifact,
    ) -> (r: Result<(), PlanError>)
        requires
            old(module).extra.mem_layout.wf(),
        ensures
            self.is_finished(
                *old(module),
                *final(module),
                resolver.outputs(),
                aggregated_data.1@,
                r,
            ),
    {
        let data = match &self.data_modifier {
            Some(data) => data,
            None => {
                return Ok(());
            },
        };
        let temps = aggregated_data.1;
        if temps.len() > MAX_INITS {
            return Err(PlanError::TooManyEntities);
        }
        if !check_inits(module, resolver, &temps) {
            return Err(PlanError::Unresolved);
        }
        let i: u32 = match data.start_fn.as_defined() {
            Some(i) => i,
            None => {
                return Err(PlanError::WrongStep);
            },
        };
        if i as u128 >= module.functions.defined().len() as u128 {
            return Err(PlanError::WrongStep);
        }
        match module.functions.defined()[i as usize].body {
            EntityBody::New { .. } => {},
            EntityBody::Copied(_) => {
                return Err(PlanError::WrongStep);
            },
        }
        proof {
            assert forall|k: int| 0 <= k < temps@.len() implies {
                let temp = #[trigger] temps@[k];
                &&& temp.storage.wf()
                &&& temp.storage.stable(0, filled(module.extra.mem_layout.defined@)) < u32::MAX
                &&& resolver.outputs().contains_key(temp.relocated_symbol)
            } by {
                assert(init_known(*module, resolver.outputs(), temps@[k]));
            }
        }
        let inits = DataAbsToGot::<S>::convert_to_stable_refs_and_resolve(
            &module.extra.mem_layout,
            resolver,
            &temps,
        );
        proof {
            lemma_inits_bound(inits@);
            assert forall|k: int| 0 <= k < inits@.len() implies (
            #[trigger] inits@[k]).relocated_symbol is Function
                || inits@[k].relocated_symbol is DataSymbol by {
                assert(init_known(*module, resolver.outputs(), temps@[k]));
                assert(is_resolved_init(
                    module.extra.mem_layout,
                    resolver.outputs(),
                    temps@[k],
                    inits@[k],
                ));
            }
        }
        let ghost final_inits = inits@;
        data.fill_start_fn(&mut module.functions, inits);
        proof {
            assert(is_start_written(
                i as int,
                *old(module),
                *module,
                resolver.outputs(),
                temps@,
                final_inits,
            ));
        }
        Ok(())
    }
}

} // verus!
