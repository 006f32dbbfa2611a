//! What a plan for an output module is.
use crate::emit::generate::GenerateError;
use crate::emit::modify::FixupError;
use crate::emit::relocation::resolver::OutputEntitiesResolver;
use crate::index::{filled, Temp, TempIndex};
use crate::layouts::data::{DataSymbolRef, DefinedDataChunk, ImportedDataChunk};
use crate::linkage::reloc::EntityRelocationEntry;
use crate::typed::builder::{LockError, ModuleBuilder};
use crate::typed::entities::ImportOrDefined;
use crate::typed::module::{
    DefinedFunction, DefinedGlobal, DefinedMemory, DefinedTable, DefinedTag, ImportedFunction,
    ImportedGlobal, ImportedMemory, ImportedTable, ImportedTag, Module,
};
use crate::typed::snapshot::{EntitiesSnapshot, FlatEntityRef};
use crate::typed::{EntityKind, FileId, FunctionRef, GlobalRef, MemoryRef, TableRef, TagRef};
use vstd::prelude::*;

verus! {

/// Name of an output module.
pub type OutputId = String;

/// Why an output module cannot be made.
#[derive(Debug, Clone, Copy, PartialEq, Eq, Structural)]
pub enum PlanError {
    /// There are more entities than indices.
    TooManyEntities,
    /// An external entity cannot be copied.
    ExternalEntity,
    /// An entity that is named does not exist.
    UnknownEntity,
    /// The indices of the module cannot be fixed.
    Lock(LockError),
    /// A relocation refers to an entity that is not in the module, or to bytes that are removed.
    Unresolved,
    /// There is no place for functions that are called indirectly.
    NoIndirectSegment,
    /// A reference cannot be modified.
    Fixup(FixupError),
    /// An entity has been modified before.
    AlreadyModified,
    /// A relocation lies outside of its entity, or refers to an unknown one.
    BadRelocation,
    /// The plan is not in the state for this step.
    WrongStep,
    /// The module cannot be written.
    Generate(GenerateError),
}

/// A temporary index of an entity of any kind.
#[derive(Debug, Clone, Copy, PartialEq, Eq)]
pub enum TempEntityKind {
    Function(Temp<FunctionRef>),
    Global(Temp<GlobalRef>),
    Table(Temp<TableRef>),
    Memory(Temp<MemoryRef>),
    Tag(Temp<TagRef>),
    DataSymbol(Temp<DataSymbolRef>),
}

/// Whether a temporary index gets a final index among `imports` imported and `defined` defined
/// entities.
pub open spec fn has_number<Idx>(temp: Temp<Idx>, imports: nat, defined: nat) -> bool {
    temp.wf() && temp.stable(imports, defined) < u32::MAX
}

impl<Idx: TempIndex> Temp<Idx> {
    /// Whether the temporary index gets a final index among `imports` imported and `defined`
    /// defined entities.
    pub fn gets_number(&self, imports: usize, defined: usize) -> (r: bool)
        ensures
            r == has_number(*self, imports as nat, defined as nat),
    {
        number_of(*self, imports, defined).is_some()
    }
}

fn number_of<Idx: TempIndex>(temp: Temp<Idx>, imports: usize, defined: usize) -> (r: Option<Idx>)
    ensures
        match r {
            Some(idx) => has_number(temp, imports as nat, defined as nat) && idx.id()
                == temp.stable(imports as nat, defined as nat),
            None => !has_number(temp, imports as nat, defined as nat),
        },
{
    let bits: u32 = temp.as_bits();
    if bits >= 0xc000_0000 {
        return None;
    }
    let number: u128 = if bits >= 0x8000_0000 {
        imports as u128 + (bits - 0x8000_0000) as u128
    } else if bits >= 0x4000_0000 {
        imports as u128 + defined as u128 + (bits - 0x4000_0000) as u128
    } else {
        bits as u128
    };
    assert(number == temp.stable(imports as nat, defined as nat));
    if number >= u32::MAX as u128 {
        None
    } else {
        Some(temp.to_stable(imports, defined))
    }
}

impl TempEntityKind {
    /// Whether the entity gets a final index in a module.
    pub open spec fn is_known(self, module: Module) -> bool {
        match self {
            TempEntityKind::Function(temp) => has_number(
                temp,
                module.functions@.imports.len(),
                module.functions@.defined.len(),
            ),
            TempEntityKind::Global(temp) => has_number(
                temp,
                module.globals@.imports.len(),
                module.globals@.defined.len(),
            ),
            TempEntityKind::Table(temp) => has_number(
                temp,
                module.tables@.imports.len(),
                module.tables@.defined.len(),
            ),
            TempEntityKind::Memory(temp) => has_number(
                temp,
                module.memories@.imports.len(),
                module.memories@.defined.len(),
            ),
            TempEntityKind::Tag(temp) => has_number(
                temp,
                module.tags@.imports.len(),
                module.tags@.defined.len(),
            ),
            TempEntityKind::DataSymbol(temp) => has_number(
                temp,
                0,
                filled(module.extra.mem_layout.defined@),
            ),
        }
    }

    /// The final index of the entity.
    pub open spec fn stable(self, module: Module) -> EntityKind {
        match self {
            TempEntityKind::Function(temp) => EntityKind::Function(
                FunctionRef {
                    id: temp.stable(
                        module.functions@.imports.len(),
                        module.functions@.defined.len(),
                    ) as u32,
                },
            ),
            TempEntityKind::Global(temp) => EntityKind::Global(
                GlobalRef {
                    id: temp.stable(
                        module.globals@.imports.len(),
                        module.globals@.defined.len(),
                    ) as u32,
                },
            ),
            TempEntityKind::Table(temp) => EntityKind::Table(
                TableRef {
                    id: temp.stable(
                        module.tables@.imports.len(),
                        module.tables@.defined.len(),
                    ) as u32,
                },
            ),
            TempEntityKind::Memory(temp) => EntityKind::Memory(
                MemoryRef {
                    id: temp.stable(
                        module.memories@.imports.len(),
                        module.memories@.defined.len(),
                    ) as u32,
                },
            ),
            TempEntityKind::Tag(temp) => EntityKind::Tag(
                TagRef {
                    id: temp.stable(
                        module.tags@.imports.len(),
                        module.tags@.defined.len(),
                    ) as u32,
                },
            ),
            TempEntityKind::DataSymbol(temp) => EntityKind::DataSymbol(
                DataSymbolRef {
                    id: temp.stable(0, filled(module.extra.mem_layout.defined@)) as u32,
                },
            ),
        }
    }

    /// The final index of the entity, if it gets one.
    pub fn to_stable(&self, module: &Module) -> (r: Option<EntityKind>)
        requires
            module.extra.mem_layout.wf(),
        ensures
            r == if self.is_known(*module) {
                Some(self.stable(*module))
            } else {
                None
            },
    {
        match self {
            TempEntityKind::Function(temp) => match number_of(
                *temp,
                module.functions.imports().len(),
                module.functions.defined().len(),
            ) {
                Some(id) => Some(EntityKind::Function(id)),
                None => None,
            },
            TempEntityKind::Global(temp) => match number_of(
                *temp,
                module.globals.imports().len(),
                module.globals.defined().len(),
            ) {
                Some(id) => Some(EntityKind::Global(id)),
                None => None,
            },
            TempEntityKind::Table(temp) => match number_of(
                *temp,
                module.tables.imports().len(),
                module.tables.defined().len(),
            ) {
                Some(id) => Some(EntityKind::Table(id)),
                None => None,
            },
            TempEntityKind::Memory(temp) => match number_of(
                *temp,
                module.memories.imports().len(),
                module.memories.defined().len(),
            ) {
                Some(id) => Some(EntityKind::Memory(id)),
                None => None,
            },
            TempEntityKind::Tag(temp) => match number_of(
                *temp,
                module.tags.imports().len(),
                module.tags.defined().len(),
            ) {
                Some(id) => Some(EntityKind::Tag(id)),
                None => None,
            },
            TempEntityKind::DataSymbol(temp) => match number_of(
                *temp,
                0,
                module.extra.mem_layout.defined.len(),
            ) {
                Some(id) => Some(EntityKind::DataSymbol(id)),
                None => None,
            },
        }
    }
}

/// Where a copied entity comes from.
#[derive(Debug, Clone, Copy)]
pub struct SourceInfo<'any> {
    pub source_entity: EntityKind,
    pub source_flat: FlatEntityRef,
    pub input_file: FileId,
    /// The snapshot of the input file.
    pub snapshot: &'any EntitiesSnapshot,
    /// The relocations of the entity in the input file.
    pub entity_relocs: &'any [EntityRelocationEntry],
}

/// A copied entity of any kind, with the temporary index that it gets.
#[allow(inconsistent_fields)]
#[derive(Debug)]
pub enum AnyEntity {
    Global {
        new_ref: Temp<GlobalRef>,
        entity: ImportOrDefined<ImportedGlobal, DefinedGlobal>,
    },
    Function {
        new_ref: Temp<FunctionRef>,
        entity: ImportOrDefined<ImportedFunction, DefinedFunction>,
    },
    DataSymbol {
        new_ref: Temp<DataSymbolRef>,
        entity: ImportOrDefined<ImportedDataChunk, DefinedDataChunk>,
    },
    Table { new_ref: Temp<TableRef>, entity: ImportOrDefined<ImportedTable, DefinedTable> },
    Memory { new_ref: Temp<MemoryRef>, entity: ImportOrDefined<ImportedMemory, DefinedMemory> },
    Tag { new_ref: Temp<TagRef>, entity: ImportOrDefined<ImportedTag, DefinedTag> },
}

/// Whether an entity still stands among the imported, defined or external ones.
pub open spec fn same_group<I, D>(a: ImportOrDefined<I, D>, b: ImportOrDefined<I, D>) -> bool {
    &&& a is Import == b is Import
    &&& a is Defined == b is Defined
    &&& a is External == b is External
}

impl AnyEntity {
    /// Whether an entity is of the same kind and has the same index.
    pub open spec fn same_place(self, other: AnyEntity) -> bool {
        match (self, other) {
            (
                AnyEntity::Global { new_ref: a, entity: e },
                AnyEntity::Global { new_ref: b, entity: f },
            ) => a == b && same_group(e, f),
            (
                AnyEntity::Function { new_ref: a, entity: e },
                AnyEntity::Function { new_ref: b, entity: f },
            ) => a == b && same_group(e, f),
            (
                AnyEntity::DataSymbol { new_ref: a, entity: e },
                AnyEntity::DataSymbol { new_ref: b, entity: f },
            ) => a == b && same_group(e, f),
            (
                AnyEntity::Table { new_ref: a, entity: e },
                AnyEntity::Table { new_ref: b, entity: f },
            ) => a == b && same_group(e, f),
            (
                AnyEntity::Memory { new_ref: a, entity: e },
                AnyEntity::Memory { new_ref: b, entity: f },
            ) => a == b && same_group(e, f),
            (
                AnyEntity::Tag { new_ref: a, entity: e },
                AnyEntity::Tag { new_ref: b, entity: f },
            ) => a == b && same_group(e, f),
            _ => false,
        }
    }

    /// The temporary index of the entity.
    pub open spec fn temp_ref(self) -> TempEntityKind {
        match self {
            AnyEntity::Global { new_ref, .. } => TempEntityKind::Global(new_ref),
            AnyEntity::Function { new_ref, .. } => TempEntityKind::Function(new_ref),
            AnyEntity::DataSymbol { new_ref, .. } => TempEntityKind::DataSymbol(new_ref),
            AnyEntity::Table { new_ref, .. } => TempEntityKind::Table(new_ref),
            AnyEntity::Memory { new_ref, .. } => TempEntityKind::Memory(new_ref),
            AnyEntity::Tag { new_ref, .. } => TempEntityKind::Tag(new_ref),
        }
    }

    /// A reference to the same entity, for a shorter time.
    pub fn reborrow(&mut self) -> (r: &mut AnyEntity)
        ensures
            *r == *old(self),
            *final(self) == *final(r),
    {
        self
    }
}

/// Values that can be put together.
pub trait Merge: Sized {
    /// Whether a value holds nothing.
    spec fn is_new(self) -> bool;

    /// Whether a value is put together from two others.
    spec fn is_merged(self, other: Self, merged: Self) -> bool;

    fn new() -> (r: Self)
        ensures
            r.is_new(),
    ;

    fn merge(&mut self, other: Self)
        ensures
            old(self).is_merged(other, *final(self)),
    ;
}

impl<T> Merge for Vec<T> {
    open spec fn is_new(self) -> bool {
        self@.len() == 0
    }

    open spec fn is_merged(self, other: Self, merged: Self) -> bool {
        merged@ == self@ + other@
    }

    fn new() -> (r: Self) {
        Vec::new()
    }

    fn merge(&mut self, other: Self) {
        let mut rest = other;
        self.append(&mut rest);
    }
}

impl Merge for () {
    open spec fn is_new(self) -> bool {
        true
    }

    open spec fn is_merged(self, other: Self, merged: Self) -> bool {
        true
    }

    fn new() -> (r: Self) {
        ()
    }

    fn merge(&mut self, other: Self) {
    }
}

impl<T0: Merge> Merge for (T0,) {
    open spec fn is_new(self) -> bool {
        self.0.is_new()
    }

    open spec fn is_merged(self, other: Self, merged: Self) -> bool {
        self.0.is_merged(other.0, merged.0)
    }

    fn new() -> (r: Self) {
        (T0::new(),)
    }

    fn merge(&mut self, other: Self) {
        self.0.merge(other.0);
    }
}

impl<T0: Merge, T1: Merge> Merge for (T0, T1) {
    open spec fn is_new(self) -> bool {
        self.0.is_new() && self.1.is_new()
    }

    open spec fn is_merged(self, other: Self, merged: Self) -> bool {
        self.0.is_merged(other.0, merged.0) && self.1.is_merged(other.1, merged.1)
    }

    fn new() -> (r: Self) {
        (T0::new(), T1::new())
    }

    fn merge(&mut self, other: Self) {
        self.0.merge(other.0);
        self.1.merge(other.1);
    }
}

/// A plan for an output module. It has these steps:
/// 1. [`setup`](OutputPlan::setup) makes the new entities of the plan.
/// 2. Entities of input files are copied. [`entities_to_copy`](OutputPlan::entities_to_copy) names
///    them, and [`transform`](OutputPlan::transform) changes the copies.
/// 3. [`before_lock`](OutputPlan::before_lock) can add the last entities, with a look at the
///    artifacts of all transformations.
/// 4. [`finish`](OutputPlan::finish) can change entities once their indices are final, and can say
///    where more entities come from.
pub trait OutputPlan: Sized {
    /// What a transformation leaves behind.
    type Artifacts: Merge;

    /// What is known of an entity beside its reference.
    type ExtraData;

    /// Whether the plan is in order. All steps keep it so.
    spec fn valid(self) -> bool;

    /// What [`setup`](OutputPlan::setup) makes of a plan and a module.
    spec fn is_setup(before: Self, after: Self, module: ModuleBuilder, done: ModuleBuilder) -> bool;

    /// Why [`setup`](OutputPlan::setup) may fail.
    spec fn setup_refused(self, module: ModuleBuilder, error: PlanError) -> bool;

    fn setup(&mut self, module: &mut ModuleBuilder) -> (r: Result<(), PlanError>)
        requires
            old(self).valid(),
        ensures
            final(self).valid(),
            match r {
                Ok(_) => Self::is_setup(*old(self), *final(self), *old(module), *final(module)),
                Err(error) => old(self).setup_refused(*old(module), error),
            },
    ;

    /// The entities that are copied.
    spec fn entities(self) -> Seq<(FlatEntityRef, Self::ExtraData)>;

    fn entities_to_copy(&self) -> (r: Vec<(FlatEntityRef, Self::ExtraData)>)
        ensures
            r@ == self.entities(),
    ;

    /// What [`transform`](OutputPlan::transform) makes of an entity.
    spec fn is_transformed(
        self,
        source_info: SourceInfo<'_>,
        extra_data: Self::ExtraData,
        before: AnyEntity,
        after: AnyEntity,
        artifacts: Self::Artifacts,
    ) -> bool;

    /// Why [`transform`](OutputPlan::transform) may fail.
    spec fn transform_refused(
        self,
        source_info: SourceInfo<'_>,
        extra_data: Self::ExtraData,
        entity: AnyEntity,
        error: PlanError,
    ) -> bool;

    fn transform(
        &self,
        source_info: SourceInfo<'_>,
        entity: &mut AnyEntity,
        extra_data: Self::ExtraData,
    ) -> (r: Result<Self::Artifacts, PlanError>)
        requires
            self.valid(),
            source_info.snapshot.fits(),
            source_info.snapshot.has(source_info.source_entity),
        ensures
            old(entity).same_place(*final(entity)),
            match r {
                Ok(artifacts) => self.is_transformed(
                    source_info,
                    extra_data,
                    *old(entity),
                    *final(entity),
                    artifacts,
                ),
                Err(error) => self.transform_refused(source_info, extra_data, *old(entity), error),
            },
    ;

    /// What [`before_lock`](OutputPlan::before_lock) makes of a plan and a module.
    spec fn is_prepared(
        before: Self,
        after: Self,
        artifacts: Self::Artifacts,
        module: ModuleBuilder,
        done: ModuleBuilder,
    ) -> bool;

    /// Why [`before_lock`](OutputPlan::before_lock) may fail.
    spec fn prepare_refused(
        self,
        artifacts: Self::Artifacts,
        module: ModuleBuilder,
        error: PlanError,
    ) -> bool;

    fn before_lock(
        &mut self,
        module: &mut ModuleBuilder,
        aggregated_data: &Self::Artifacts,
    ) -> (r: Result<(), PlanError>)
        requires
            old(self).valid(),
        ensures
            final(self).valid(),
            match r {
                Ok(_) => Self::is_prepared(
                    *old(self),
                    *final(self),
                    *aggregated_data,
                    *old(module),
                    *final(module),
                ),
                Err(error) => old(self).prepare_refused(*aggregated_data, *old(module), error),
            },
    ;

    /// What [`finish`](OutputPlan::finish) makes of a plan, a module and the map of its entities.
    spec fn is_finished(
        before: Self,
        after: Self,
        artifacts: Self::Artifacts,
        module: Module,
        done: Module,
        resolver: OutputEntitiesResolver,
        done_resolver: OutputEntitiesResolver,
    ) -> bool;

    /// Why [`finish`](OutputPlan::finish) may fail.
    spec fn finish_refused(
        self,
        artifacts: Self::Artifacts,
        module: Module,
        resolver: OutputEntitiesResolver,
        error: PlanError,
    ) -> bool;

    fn finish(
        &mut self,
        module: &mut Module,
        aggregated_data: Self::Artifacts,
        resolver: &mut OutputEntitiesResolver,
    ) -> (r: Result<(), PlanError>)
        requires
            old(self).valid(),
            old(module).extra.mem_layout.wf(),
            old(resolver).wf(),
        ensures
            final(self).valid(),
            final(module).extra.mem_layout.wf(),
            final(resolver).wf(),
            match r {
                Ok(_) => Self::is_finished(
                    *old(self),
                    *final(self),
                    aggregated_data,
                    *old(module),
                    *final(module),
                    *old(resolver),
                    *final(resolver),
                ),
                Err(error) => old(self).finish_refused(
                    aggregated_data,
                    *old(module),
                    *old(resolver),
                    error,
                ),
            },
    ;
}

} // verus!
