//! Functions that stand for functions of modules that are loaded later.
//!
//! The table of the functions that are called indirectly is shared between the main module and the
//! other modules. It holds, in this order:
//! - nothing at index 0,
//! - the functions of the main module,
//! - one entry for every split point, which the module of the split point fills when it is loaded,
//! - entries that are allocated at run time.
use crate::analysis::split_point::SplitPoint;
use crate::emit::plan::definition::PlanError;
use crate::emit::relocation::encode::{sleb, uleb};
use crate::emit::relocation::EntityLocation;
use crate::index::{Temp, TempIndex, TempKind};
use crate::layouts::elements::ElementKind;
use crate::typed::body::EntityBody;
use crate::typed::builder::{has_indices, ModuleBuilder};
use crate::typed::entities::{CollectionView, DefinedEntity, ImportOrDefined};
use crate::typed::lookup::EntityType;
use crate::typed::module::Module;
use crate::typed::snapshot::FlatEntityRef;
use crate::typed::types::FuncType;
use crate::typed::{FunctionRef, TableRef};
use vstd::prelude::*;

verus! {

/// Where the entries of split points stand in the table of the functions that are called
/// indirectly.
#[derive(Debug)]
pub struct IndirectFnLayout {
    /// Index of the first entry.
    pub start_dyn: usize,
    pub dyn_fns: Vec<SplitPoint>,
}

/// The number of the first split point with an import function.
pub open spec fn import_number(points: Seq<SplitPoint>, func: FlatEntityRef) -> Option<int>
    decreases points.len(),
{
    if points.len() == 0 {
        None
    } else {
        match import_number(points.drop_last(), func) {
            Some(i) => Some(i),
            None => if points.last().import_func == func {
                Some(points.len() - 1)
            } else {
                None
            },
        }
    }
}

/// The number of the first split point with an export function.
pub open spec fn export_number(points: Seq<SplitPoint>, func: FlatEntityRef) -> Option<int>
    decreases points.len(),
{
    if points.len() == 0 {
        None
    } else {
        match export_number(points.drop_last(), func) {
            Some(i) => Some(i),
            None => if points.last().export_func == func {
                Some(points.len() - 1)
            } else {
                None
            },
        }
    }
}

/// The number is that of a split point with the function, and no earlier one has it.
pub proof fn lemma_import_number(points: Seq<SplitPoint>, func: FlatEntityRef)
    ensures
        match import_number(points, func) {
            Some(i) => 0 <= i < points.len() && points[i].import_func == func && forall|j: int|
                0 <= j < i ==> (#[trigger] points[j]).import_func != func,
            None => forall|j: int|
                0 <= j < points.len() ==> (#[trigger] points[j]).import_func != func,
        },
    decreases points.len(),
{
    if points.len() > 0 {
        let rest = points.drop_last();
        lemma_import_number(rest, func);
        assert forall|j: int| 0 <= j < rest.len() implies rest[j] == #[trigger] points[j] by {}
    }
}

/// The number is that of a split point with the function, and no earlier one has it.
pub proof fn lemma_export_number(points: Seq<SplitPoint>, func: FlatEntityRef)
    ensures
        match export_number(points, func) {
            Some(i) => 0 <= i < points.len() && points[i].export_func == func && forall|j: int|
                0 <= j < i ==> (#[trigger] points[j]).export_func != func,
            None => forall|j: int|
                0 <= j < points.len() ==> (#[trigger] points[j]).export_func != func,
        },
    decreases points.len(),
{
    if points.len() > 0 {
        let rest = points.drop_last();
        lemma_export_number(rest, func);
        assert forall|j: int| 0 <= j < rest.len() implies rest[j] == #[trigger] points[j] by {}
    }
}

/// A split point whose import and export functions no other one has is called through the entry
/// that its module fills.
pub proof fn lemma_trampoline_reaches_export(layout: IndirectFnLayout, i: int)
    requires
        0 <= i < layout.dyn_fns@.len(),
        forall|j: int|
            0 <= j < layout.dyn_fns@.len() && j != i ==> (
            #[trigger] layout.dyn_fns@[j]).import_func != layout.dyn_fns@[i].import_func
                && layout.dyn_fns@[j].export_func != layout.dyn_fns@[i].export_func,
    ensures
        layout.import_index(layout.dyn_fns@[i].import_func) == Some(layout.start_dyn + i),
        layout.export_index(layout.dyn_fns@[i].export_func) == Some(layout.start_dyn + i),
{
    lemma_import_number(layout.dyn_fns@, layout.dyn_fns@[i].import_func);
    lemma_export_number(layout.dyn_fns@, layout.dyn_fns@[i].export_func);
}

impl IndirectFnLayout {
    /// Whether all entries have indices.
    pub open spec fn fits(&self) -> bool {
        self.start_dyn + self.dyn_fns@.len() <= u32::MAX
    }

    /// Index of the entry for an import function.
    pub open spec fn import_index(&self, func: FlatEntityRef) -> Option<int> {
        match import_number(self.dyn_fns@, func) {
            Some(i) => Some(self.start_dyn + i),
            None => None,
        }
    }

    /// Index of the entry for an export function.
    pub open spec fn export_index(&self, func: FlatEntityRef) -> Option<int> {
        match export_number(self.dyn_fns@, func) {
            Some(i) => Some(self.start_dyn + i),
            None => None,
        }
    }

    pub fn new(main_indirect_len: usize, dyn_fns: Vec<SplitPoint>) -> (r: Self)
        ensures
            r == (IndirectFnLayout { start_dyn: main_indirect_len, dyn_fns }),
    {
        IndirectFnLayout { start_dyn: main_indirect_len, dyn_fns }
    }

    /// Index of the entry for the import function of a split point.
    pub fn find_import_fn(&self, func: FlatEntityRef) -> (r: Option<usize>)
        requires
            self.fits(),
        ensures
            match r {
                Some(i) => self.import_index(func) == Some(i as int),
                None => self.import_index(func) is None,
            },
    {
        proof {
            lemma_import_number(self.dyn_fns@, func);
        }
        let mut i: usize = 0;
        while i < self.dyn_fns.len()
            invariant
                i <= self.dyn_fns@.len(),
                self.fits(),
                forall|j: int| 0 <= j < i ==> (#[trigger] self.dyn_fns@[j]).import_func != func,
                match import_number(self.dyn_fns@, func) {
                    Some(n) => 0 <= n < self.dyn_fns@.len() && self.dyn_fns@[n].import_func == func
                        && forall|j: int|
                        0 <= j < n ==> (#[trigger] self.dyn_fns@[j]).import_func != func,
                    None => forall|j: int|
                        0 <= j < self.dyn_fns@.len() ==> (
                        #[trigger] self.dyn_fns@[j]).import_func != func,
                },
            decreases self.dyn_fns@.len() - i,
        {
            if self.dyn_fns[i].import_func() == func {
                return Some(self.start_dyn + i);
            }
            i = i + 1;
        }
        None
    }

    /// Index of the entry for the export function of a split point.
    pub fn find_export_fn(&self, func: FlatEntityRef) -> (r: Option<usize>)
        requires
            self.fits(),
        ensures
            match r {
                Some(i) => self.export_index(func) == Some(i as int),
                None => self.export_index(func) is None,
            },
    {
        proof {
            lemma_export_number(self.dyn_fns@, func);
        }
        let mut i: usize = 0;
        while i < self.dyn_fns.len()
            invariant
                i <= self.dyn_fns@.len(),
                self.fits(),
                forall|j: int| 0 <= j < i ==> (#[trigger] self.dyn_fns@[j]).export_func != func,
                match export_number(self.dyn_fns@, func) {
                    Some(n) => 0 <= n < self.dyn_fns@.len() && self.dyn_fns@[n].export_func == func
                        && forall|j: int|
                        0 <= j < n ==> (#[trigger] self.dyn_fns@[j]).export_func != func,
                    None => forall|j: int|
                        0 <= j < self.dyn_fns@.len() ==> (
                        #[trigger] self.dyn_fns@[j]).export_func != func,
                },
            decreases self.dyn_fns@.len() - i,
        {
            if self.dyn_fns[i].export_func() == func {
                return Some(self.start_dyn + i);
            }
            i = i + 1;
        }
        None
    }

    /// Where the entries of split points start behind the functions of a module.
    pub open spec fn module_end(module: Module) -> Result<int, PlanError> {
        let segments = module.extra.function_elements.segments@;
        if segments.len() >= u32::MAX {
            Err(PlanError::TooManyEntities)
        } else {
            match module.extra.indirect_segment() {
                None => Err(PlanError::NoIndirectSegment),
                Some(s) => Ok(
                    segments[s].kind->Active_location.offset_spec() + segments[s].parts@.len(),
                ),
            }
        }
    }

    /// The entries of split points stand behind the functions of the main module.
    pub fn from_module(module: &Module, dyn_fns: Vec<SplitPoint>) -> (r: Result<Self, PlanError>)
        ensures
            match Self::module_end(*module) {
                Err(error) => r matches Err(e) && e == error,
                Ok(end) => if end + dyn_fns@.len() > u32::MAX {
                    r matches Err(e) && e == PlanError::TooManyEntities
                } else {
                    r matches Ok(layout) && layout == (IndirectFnLayout {
                        start_dyn: end as usize,
                        dyn_fns,
                    }) && layout.fits()
                },
            },
    {
        if module.extra.function_elements.segments.len() >= u32::MAX as usize {
            return Err(PlanError::TooManyEntities);
        }
        let segment_id = match module.extra.get_indirect_fn_segment() {
            Some(segment_id) => segment_id,
            None => return Err(PlanError::NoIndirectSegment),
        };
        let segment = module.extra.function_elements.segments.at(segment_id);
        match &segment.kind {
            ElementKind::Active { location, .. } => {
                let end: u128 = location.offset() as u128 + segment.parts.len() as u128;
                if end + dyn_fns.len() as u128 > u32::MAX as u128 {
                    return Err(PlanError::TooManyEntities);
                }
                Ok(Self::new(end as usize, dyn_fns))
            },
            _ => Err(PlanError::NoIndirectSegment),
        }
    }
}

impl Clone for IndirectFnLayout {
    fn clone(&self) -> (r: Self)
        ensures
            r.start_dyn == self.start_dyn,
            r.dyn_fns@ == self.dyn_fns@,
    {
        IndirectFnLayout { start_dyn: self.start_dyn, dyn_fns: copy_split_points(&self.dyn_fns) }
    }
}

/// A copy of split points.
pub fn copy_split_points(points: &Vec<SplitPoint>) -> (r: Vec<SplitPoint>)
    ensures
        r@ == points@,
{
    let mut result: Vec<SplitPoint> = Vec::new();
    let mut i: usize = 0;
    while i < points.len()
        invariant
            i <= points@.len(),
            result@ == points@.take(i as int),
        decreases points@.len() - i,
    {
        result.push(points[i].clone());
        assert(result@ =~= points@.take(i + 1));
        i = i + 1;
    }
    assert(points@.take(i as int) =~= points@);
    result
}

/// Whether an entity gets one more export name.
#[derive(Debug)]
pub enum ExtraExport {
    AddExport(String),
    Nothing,
}

impl Clone for ExtraExport {
    fn clone(&self) -> (r: Self)
        ensures
            r == *self,
    {
        match self {
            ExtraExport::AddExport(name) => ExtraExport::AddExport(name.clone()),
            ExtraExport::Nothing => ExtraExport::Nothing,
        }
    }
}

/// A function that a split point imports, and that is called through the table.
#[derive(Debug)]
pub struct TrampolineDeclared {
    pub flat_entity: FlatEntityRef,
    pub src_location: EntityLocation,
    pub src_type: EntityType,
    pub name: String,
    pub extra: ExtraExport,
}

/// A function of the output module that calls another one through the table.
#[derive(Debug, Clone, Copy)]
pub struct TrampolineCreated {
    pub defined_func: Temp<FunctionRef>,
    pub src_ref: FlatEntityRef,
}

/// The entry that a function calls.
#[derive(Debug, Clone, Copy)]
pub struct TrampolineCalculated {
    pub external_ref: Temp<FunctionRef>,
    pub sp_index: usize,
}

/// How far the functions that call others through the table are made.
#[derive(Debug)]
pub enum TrampolinesState {
    Declared { declared: Vec<TrampolineDeclared> },
    /// The functions have no instructions yet.
    Created { created: Vec<TrampolineCreated> },
}

/// A function that fills the entry of a split point.
#[derive(Debug, Clone, Copy)]
pub struct Export {
    pub defined_ref: Temp<FunctionRef>,
    pub sp_index: usize,
}

/// Whether a function without instructions is added to a module.
pub open spec fn is_declared(
    before: ModuleBuilder,
    declared: TrampolineDeclared,
    after: ModuleBuilder,
    created: TrampolineCreated,
) -> bool {
    let func = after.functions@.defined.last();
    &&& created.src_ref == declared.flat_entity
    &&& created.defined_func.kind() == TempKind::Defined(before.functions@.defined.len() as u32)
    &&& after == (ModuleBuilder { functions: after.functions, ..before })
    &&& after.functions@ == before.functions@.with(ImportOrDefined::Defined(func))
    &&& func.entity_type.params@.len() == 0
    &&& func.entity_type.results@.len() == 0
    &&& func.name == Some(declared.name)
    &&& func.export_as@ == match declared.extra {
        ExtraExport::AddExport(name) => seq![name],
        ExtraExport::Nothing => Seq::<String>::empty(),
    }
    &&& func.body matches EntityBody::New { new_relocs, new_bytes }
    &&& new_relocs@.len() == 0
    &&& new_bytes@.len() == 0
}

/// Adds a function without instructions to a module.
pub fn declare_trampoline(trampoline: &TrampolineDeclared, module: &mut ModuleBuilder) -> (r: Result<
    TrampolineCreated,
    PlanError,
>)
    ensures
        match r {
            Ok(created) => has_indices(old(module).functions@) && is_declared(
                *old(module),
                *trampoline,
                *final(module),
                created,
            ),
            Err(error) => error == PlanError::TooManyEntities && !has_indices(
                old(module).functions@,
            ) && *final(module) == *old(module),
        },
{
    if !module.functions.is_small() {
        return Err(PlanError::TooManyEntities);
    }
    let mut export_as: Vec<String> = Vec::new();
    if let ExtraExport::AddExport(name) = &trampoline.extra {
        export_as.push(name.clone());
    }
    let defined = DefinedEntity {
        entity_type: FuncType { params: Vec::new(), results: Vec::new() },
        body: EntityBody::new_empty(Vec::new()),
        name: Some(trampoline.name.clone()),
        export_as,
    };
    let defined_func = module.functions.push_defined(defined);
    Ok(TrampolineCreated { defined_func, src_ref: trampoline.flat_entity })
}

/// The body of a function that calls the function at an index of a table: `i32.const` with the bits
/// of the index, `call_indirect` with the first type, `end`.
pub open spec fn trampoline_bytes(sp_index: int, table: int) -> Seq<u8> {
    seq![0x00u8, 0x41u8] + sleb((sp_index as i32) as int) + seq![0x11u8] + uleb(0) + uleb(
        table as nat,
    ) + seq![0x0bu8]
}

/// `wasm_encoder::Function::new` for no locals and `InstructionSink`: a constant, an indirect call
/// through a table and the end. The operands of the call are the type and then the table.
#[verifier::external_body]
fn indirect_call_body(sp_index: i32, table_index: u32) -> (r: Vec<u8>)
    ensures
        r@ == trampoline_bytes(sp_index as int, table_index as int),
{
    let mut func = wasm_encoder::Function::new(vec![]);
    func.instructions().i32_const(sp_index).call_indirect(table_index, 0).end();
    func.into_raw_body()
}

/// Whether a function of a module has the body that calls an entry of the table.
pub open spec fn has_trampoline_body(
    before: Module,
    i: int,
    sp_index: int,
    table: int,
    after: Module,
) -> bool {
    let old_func = before.functions@.defined[i];
    let func = after.functions@.defined[i];
    &&& 0 <= i < before.functions@.defined.len()
    &&& after == (Module { functions: after.functions, ..before })
    &&& after.functions@ == (CollectionView {
        defined: before.functions@.defined.update(i, func),
        ..before.functions@
    })
    &&& func == (DefinedEntity { body: func.body, ..old_func })
    &&& func.body matches EntityBody::New { new_relocs, new_bytes }
    &&& new_relocs@.len() == 0
    &&& new_bytes@ == trampoline_bytes(sp_index, table)
}

/// Gives a function the body that calls an entry of the table.
pub fn add_trampoline_body(
    module: &mut Module,
    trampoline_ref: Temp<FunctionRef>,
    sp_index: usize,
    table_index: TableRef,
) -> (r: Result<(), PlanError>)
    ensures
        match trampoline_ref.kind() {
            TempKind::Defined(i) => if i < old(module).functions@.defined.len() {
                r is Ok && has_trampoline_body(
                    *old(module),
                    i as int,
                    sp_index as int,
                    table_index.id() as int,
                    *final(module),
                )
            } else {
                r == Err::<(), _>(PlanError::UnknownEntity) && *final(module) == *old(module)
            },
            _ => r == Err::<(), _>(PlanError::UnknownEntity) && *final(module) == *old(module),
        },
{
    let i: u32 = match trampoline_ref.as_defined() {
        Some(i) => i,
        None => {
            return Err(PlanError::UnknownEntity);
        },
    };
    if i as u128 >= module.functions.defined().len() as u128 {
        return Err(PlanError::UnknownEntity);
    }
    let bytes = indirect_call_body(#[verifier::truncate] (sp_index as i32), table_index.as_u32());
    let func = module.functions.defined_mut(i as usize);
    func.body = EntityBody::new_empty(bytes);
    Ok(())
}

/// Whether functions have the bodies that call the entries of their split points, one after the
/// other.
pub open spec fn are_filled(
    layout: IndirectFnLayout,
    created: Seq<TrampolineCreated>,
    table: int,
    states: Seq<Module>,
    count: int,
) -> bool {
    &&& states.len() == count + 1
    &&& forall|t: int|
        0 <= t < count ==> is_filled(
            layout,
            #[trigger] created[t],
            table,
            states[t],
            states[t + 1],
        )
}

/// Whether a function has the body that calls the entry of its split point.
pub open spec fn is_filled(
    layout: IndirectFnLayout,
    created: TrampolineCreated,
    table: int,
    before: Module,
    after: Module,
) -> bool {
    &&& created.defined_func.kind() matches TempKind::Defined(i)
    &&& layout.import_index(created.src_ref) matches Some(sp_index)
    &&& has_trampoline_body(before, i as int, sp_index, table, after)
}

/// The table of the functions of a module that are called indirectly.
pub open spec fn indirect_table(module: Module) -> int {
    let s = module.extra.indirect_segment()->0;
    module.extra.function_elements.segments@[s].kind->Active_table_ref.id() as int
}

/// Whether all functions that call others through the table have their bodies.
pub open spec fn is_filled_module(
    layout: IndirectFnLayout,
    trampolines: TrampolinesState,
    before: Module,
    after: Module,
) -> bool {
    &&& trampolines matches TrampolinesState::Created { created }
    &&& exists|states: Seq<Module>|
        {
            &&& #[trigger] are_filled(
                layout,
                created@,
                indirect_table(before),
                states,
                created@.len() as int,
            )
            &&& states[0] == before
            &&& states.last() == after
        }
}

/// Whether a function stands for a split point, and is defined in a module.
pub open spec fn can_fill(
    layout: IndirectFnLayout,
    created: TrampolineCreated,
    defined: nat,
) -> bool {
    &&& layout.import_index(created.src_ref) is Some
    &&& created.defined_func.kind() matches TempKind::Defined(i)
    &&& i < defined
}

/// Whether all functions stand for split points, and are defined in a module.
pub open spec fn can_fill_all(
    layout: IndirectFnLayout,
    created: Seq<TrampolineCreated>,
    defined: nat,
) -> bool {
    forall|t: int| 0 <= t < created.len() ==> can_fill(layout, #[trigger] created[t], defined)
}

/// Why functions cannot get the bodies that call entries of the table.
pub open spec fn fill_error(
    layout: IndirectFnLayout,
    trampolines: TrampolinesState,
    module: Module,
) -> Option<PlanError> {
    match trampolines {
        TrampolinesState::Declared { .. } => Some(PlanError::WrongStep),
        TrampolinesState::Created { created } => if module.extra.function_elements.segments@.len()
            >= u32::MAX {
            Some(PlanError::TooManyEntities)
        } else if module.extra.indirect_segment() is None {
            Some(PlanError::NoIndirectSegment)
        } else if !can_fill_all(layout, created@, module.functions@.defined.len()) {
            Some(PlanError::UnknownEntity)
        } else {
            None
        },
    }
}

impl IndirectFnLayout {
    /// The entries that functions call. Fails for a function that stands for no split point.
    pub fn calculate_trampolines(&self, trampolines: &Vec<TrampolineCreated>) -> (r: Result<
        Vec<TrampolineCalculated>,
        PlanError,
    >)
        requires
            self.fits(),
        ensures
            match r {
                Ok(calculated) => calculated@.len() == trampolines@.len() && forall|t: int|
                    0 <= t < trampolines@.len() ==> {
                        let c = #[trigger] calculated@[t];
                        &&& c.external_ref == trampolines@[t].defined_func
                        &&& self.import_index(trampolines@[t].src_ref) == Some(c.sp_index as int)
                    },
                Err(error) => error == PlanError::UnknownEntity && exists|t: int|
                    0 <= t < trampolines@.len() && self.import_index(
                        (#[trigger] trampolines@[t]).src_ref,
                    ) is None,
            },
    {
        let mut result: Vec<TrampolineCalculated> = Vec::new();
        let mut t: usize = 0;
        while t < trampolines.len()
            invariant
                t <= trampolines@.len(),
                self.fits(),
                result@.len() == t,
                forall|u: int|
                    0 <= u < t ==> {
                        let c = #[trigger] result@[u];
                        &&& c.external_ref == trampolines@[u].defined_func
                        &&& self.import_index(trampolines@[u].src_ref) == Some(c.sp_index as int)
                    },
            decreases trampolines@.len() - t,
        {
            match self.find_import_fn(trampolines[t].src_ref) {
                Some(sp_index) => result.push(
                    TrampolineCalculated { external_ref: trampolines[t].defined_func, sp_index },
                ),
                None => {
                    assert(self.import_index(trampolines@[t as int].src_ref) is None);
                    return Err(PlanError::UnknownEntity);
                },
            }
            t = t + 1;
        }
        Ok(result)
    }

    /// Gives all functions that call others through the table their bodies.
    pub fn fill_trampolines(&self, trampolines: &TrampolinesState, module: &mut Module) -> (r: Result<
        (),
        PlanError,
    >)
        requires
            self.fits(),
        ensures
            final(module).extra == old(module).extra,
            match fill_error(*self, *trampolines, *old(module)) {
                Some(error) => r == Err::<(), _>(error),
                None => r is Ok && is_filled_module(
                    *self,
                    *trampolines,
                    *old(module),
                    *final(module),
                ),
            },
    {
        let created = match trampolines {
            TrampolinesState::Created { created } => created,
            TrampolinesState::Declared { .. } => {
                return Err(PlanError::WrongStep);
            },
        };
        if module.extra.function_elements.segments.len() >= u32::MAX as usize {
            return Err(PlanError::TooManyEntities);
        }
        let segment_id = match module.extra.get_indirect_fn_segment() {
            Some(segment_id) => segment_id,
            None => return Err(PlanError::NoIndirectSegment),
        };
        let table = match &module.extra.function_elements.segments.at(segment_id).kind {
            ElementKind::Active { table_ref, .. } => *table_ref,
            _ => {
                return Err(PlanError::NoIndirectSegment);
            },
        };
        let fill = match self.calculate_trampolines(created) {
            Ok(fill) => fill,
            Err(error) => {
                assert(!can_fill_all(*self, created@, module.functions@.defined.len()));
                return Err(error);
            },
        };
        let ghost before = *module;
        let ghost mut states: Seq<Module> = seq![*module];
        let mut t: usize = 0;
        while t < fill.len()
            invariant
                t <= fill@.len() == created@.len(),
                before == *old(module),
                module.extra == before.extra,
                module.functions@.defined.len() == before.functions@.defined.len(),
                forall|u: int|
                    0 <= u < t ==> can_fill(
                        *self,
                        #[trigger] created@[u],
                        before.functions@.defined.len(),
                    ),
                *trampolines == (TrampolinesState::Created { created: *created }),
                before.extra.function_elements.segments@.len() < u32::MAX,
                before.extra.indirect_segment() is Some,
                table.id() == indirect_table(before),
                forall|u: int|
                    0 <= u < created@.len() ==> {
                        let c = #[trigger] fill@[u];
                        &&& c.external_ref == created@[u].defined_func
                        &&& self.import_index(created@[u].src_ref) == Some(c.sp_index as int)
                    },
                are_filled(*self, created@, table.id() as int, states, t as int),
                states[0] == before,
                states.last() == *module,
            decreases fill@.len() - t,
        {
            let ghost shorter = states;
            let trampoline = fill[t];
            assert(fill@[t as int].external_ref == created@[t as int].defined_func);
            match add_trampoline_body(
                module,
                trampoline.external_ref,
                trampoline.sp_index,
                table,
            ) {
                Ok(_) => {},
                Err(error) => {
                    assert(!can_fill(*self, created@[t as int], before.functions@.defined.len()));
                    assert(!can_fill_all(*self, created@, before.functions@.defined.len()));
                    assert(trampolines->created@ == created@);
                    return Err(error);
                },
            }
            proof {
                states = shorter.push(*module);
                assert forall|u: int| 0 <= u < t + 1 implies is_filled(
                    *self,
                    #[trigger] created@[u],
                    table.id() as int,
                    states[u],
                    states[u + 1],
                ) by {
                    if u < t {
                        assert(states[u] == shorter[u]);
                        assert(states[u + 1] == shorter[u + 1]);
                    }
                }
            }
            t = t + 1;
        }
        Ok(())
    }
}

} // verus!
