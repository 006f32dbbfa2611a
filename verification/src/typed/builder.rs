//! Modules that are still being built.
use crate::emit::plan::GotInfo;
use crate::emit::relocation::encode::{fixed_leb, fixed_u32};
use crate::index::{DEFINED_FLAG, EXTERNAL_FLAG, MAX_VALUE, Temp, TempIndex, TempKind};
use crate::layouts::data::builder::{are_stable_spaces, DataKind, LayoutInput, MemLayoutBuilder};
use crate::layouts::data::limits::layout_fits;
use crate::layouts::data::sealed::MemLayoutSealed;
use crate::layouts::elements::{
    elements_of, ElementInTable, ElementKind, ElementSegmentSpec, IndirectFunctionsBuilder,
    IndirectFunctionsSealed,
};
use crate::layouts::{SegmentPlacement, VirtualSpaceId};
use crate::typed::body::EntityBody;
use crate::typed::entities::{
    lemma_push_keeps_entities, lemma_stable_entity, CollectionView, DefinedEntity, EntityCollection,
    ImportOrDefined,
};
use crate::typed::module::{
    DefinedFunction, DefinedGlobal, DefinedMemory, DefinedTable, DefinedTag, ImportedFunction,
    ImportedGlobal, ImportedMemory, ImportedTable, ImportedTag, Module, ModuleExtra,
};
use crate::typed::types::{FuncType, TableType, ValType};
use crate::typed::{FunctionRef, GlobalRef, MemoryRef, TableRef, TagRef};
use vstd::prelude::*;

verus! {

/// Name of the table through which functions are called indirectly.
pub const INDIRECT_FUNCTION_TABLE: &'static str = "__indirect_function_table";

/// The number of segments takes up the first bytes of the data section.
pub const COUNT_SIZE: usize = 5;

/// The parts of a module that have no index space of their own, while it is built.
#[derive(Debug)]
pub struct BuilderExtra {
    pub mem_layout: MemLayoutBuilder,
    /// The functions that can be called through tables.
    pub function_elements: IndirectFunctionsBuilder,
    /// The functions that are called when the module is instantiated.
    pub start_functions: Vec<Temp<FunctionRef>>,
    /// The globals that hold the bases of the module, if it is position independent.
    pub got_info: Option<GotInfo<Temp<GlobalRef>>>,
}

/// A module that is still being built: its entities have temporary indices.
#[derive(Debug)]
pub struct ModuleBuilder {
    pub functions: EntityCollection<FunctionRef, ImportedFunction, DefinedFunction>,
    pub globals: EntityCollection<GlobalRef, ImportedGlobal, DefinedGlobal>,
    pub tables: EntityCollection<TableRef, ImportedTable, DefinedTable>,
    pub memories: EntityCollection<MemoryRef, ImportedMemory, DefinedMemory>,
    pub tags: EntityCollection<TagRef, ImportedTag, DefinedTag>,
    pub extra: BuilderExtra,
}

/// Why the indices of a module cannot be fixed.
#[derive(Debug, Clone, Copy, PartialEq, Eq, Structural)]
pub enum LockError {
    /// There are more entities than indices.
    TooManyEntities,
    /// A temporary index names no entity.
    UnknownEntity,
    /// A segment or a virtual space of the elements does not exist.
    Elements,
    /// The data layout is not representable.
    Layout,
}

/// Whether all entities of a kind, and one or two more, have indices.
pub open spec fn has_indices<I, D>(all: CollectionView<I, D>) -> bool {
    &&& all.imports.len() <= MAX_VALUE
    &&& all.defined.len() <= MAX_VALUE
    &&& all.external.len() <= MAX_VALUE
    &&& all.len() + 2 < u32::MAX
}

impl<Idx: TempIndex, I, D> EntityCollection<Idx, I, D> {
    /// Whether all entities, and one or two more, have indices.
    pub(crate) fn is_small(&self) -> (r: bool)
        ensures
            r == has_indices(self@),
    {
        let limit: usize = MAX_VALUE as usize;
        let imports: usize = self.imports().len();
        let defined: usize = self.defined().len();
        let external: usize = self.external().len();
        imports <= limit && defined <= limit && external <= limit && imports as u64 + defined as u64
            + external as u64 + 2 < u32::MAX as u64
    }

    /// Whether a temporary index names an entity.
    pub fn has(&self, temp: Temp<Idx>) -> (r: bool)
        ensures
            r == self@.holds(temp.kind()),
    {
        let bits: u32 = temp.as_bits();
        if bits >= DEFINED_FLAG {
            ((bits - DEFINED_FLAG) as usize) < self.defined().len()
        } else if bits >= EXTERNAL_FLAG {
            ((bits - EXTERNAL_FLAG) as usize) < self.external().len()
        } else {
            (bits as usize) < self.imports().len()
        }
    }
}

/// The final number of an entity.
pub open spec fn stable_number<Idx, I, D>(all: CollectionView<I, D>, temp: Temp<Idx>) -> u32 {
    temp.stable(all.imports.len(), all.defined.len()) as u32
}

/// A virtual space with the final index of its memory.
pub open spec fn stable_space(
    memories: CollectionView<ImportedMemory, DefinedMemory>,
    space: DataKind<Temp<MemoryRef>>,
) -> DataKind<MemoryRef> {
    match space {
        DataKind::Active { memory_ref, location } => DataKind::Active {
            memory_ref: MemoryRef { id: stable_number(memories, memory_ref) },
            location,
        },
        DataKind::Passive => DataKind::Passive,
    }
}

pub open spec fn stable_spaces(
    memories: CollectionView<ImportedMemory, DefinedMemory>,
    spaces: Seq<DataKind<Temp<MemoryRef>>>,
) -> Seq<DataKind<MemoryRef>> {
    Seq::new(spaces.len(), |v: int| stable_space(memories, spaces[v]))
}

/// Whether the memory of a virtual space gets a final index. It need not be one of the module.
pub open spec fn space_known(
    memories: CollectionView<ImportedMemory, DefinedMemory>,
    space: DataKind<Temp<MemoryRef>>,
) -> bool {
    space matches DataKind::Active { memory_ref, .. } ==> memory_ref.wf() && memory_ref.stable(
        memories.imports.len(),
        memories.defined.len(),
    ) < u32::MAX
}

/// A virtual space of elements with the final indices of its table and its global.
pub open spec fn stable_kind(
    tables: CollectionView<ImportedTable, DefinedTable>,
    globals: CollectionView<ImportedGlobal, DefinedGlobal>,
    kind: ElementKind<Temp<TableRef>, Temp<GlobalRef>>,
) -> ElementKind<TableRef, GlobalRef> {
    match kind {
        ElementKind::Active { table_ref, location } => ElementKind::Active {
            table_ref: TableRef { id: stable_number(tables, table_ref) },
            location: match location {
                SegmentPlacement::GotBased { global, offset } => SegmentPlacement::GotBased {
                    global: GlobalRef { id: stable_number(globals, global) },
                    offset,
                },
                SegmentPlacement::ConstantOffset(offset) => SegmentPlacement::ConstantOffset(
                    offset,
                ),
            },
        },
        ElementKind::Passive => ElementKind::Passive,
        ElementKind::Declared => ElementKind::Declared,
    }
}

/// Whether the table and the global of a virtual space of elements exist.
pub open spec fn kind_known(
    tables: CollectionView<ImportedTable, DefinedTable>,
    globals: CollectionView<ImportedGlobal, DefinedGlobal>,
    kind: ElementKind<Temp<TableRef>, Temp<GlobalRef>>,
) -> bool {
    kind matches ElementKind::Active { table_ref, location } ==> {
        &&& tables.holds(table_ref.kind())
        &&& location matches SegmentPlacement::GotBased { global, .. } ==> globals.holds(
            global.kind(),
        )
    }
}

/// Elements with the final indices of their functions.
pub open spec fn stable_items(
    functions: CollectionView<ImportedFunction, DefinedFunction>,
    items: Seq<ElementInTable<Temp<FunctionRef>>>,
) -> Seq<ElementInTable<FunctionRef>> {
    Seq::new(
        items.len(),
        |i: int|
            ElementInTable {
                item: FunctionRef { id: stable_number(functions, items[i].item) },
                segment_id: items[i].segment_id,
            },
    )
}

/// The instructions that call functions, one after the other.
pub open spec fn calls(ids: Seq<u32>) -> Seq<u8>
    decreases ids.len(),
{
    if ids.len() == 0 {
        Seq::empty()
    } else {
        calls(ids.drop_last()) + seq![0x10u8] + fixed_leb(ids.last() as int, 5)
    }
}

/// Whether a function takes and returns nothing, and calls functions in order.
pub open spec fn is_start_function(function: DefinedFunction, ids: Seq<u32>) -> bool {
    &&& function.entity_type.params@.len() == 0
    &&& function.entity_type.results@.len() == 0
    &&& function.name is None
    &&& function.export_as@.len() == 0
    &&& function.body matches EntityBody::New { new_relocs, new_bytes }
    &&& new_relocs@.len() == 0
    &&& new_bytes@ == seq![0x00u8] + calls(ids) + seq![0x0bu8]
}

impl ModuleBuilder {
    pub fn new() -> (r: Self)
        ensures
            r.functions@ == CollectionView::<ImportedFunction, DefinedFunction>::empty(),
            r.globals@ == CollectionView::<ImportedGlobal, DefinedGlobal>::empty(),
            r.tables@ == CollectionView::<ImportedTable, DefinedTable>::empty(),
            r.memories@ == CollectionView::<ImportedMemory, DefinedMemory>::empty(),
            r.tags@ == CollectionView::<ImportedTag, DefinedTag>::empty(),
            r.extra.mem_layout.virtual_spaces@.len() == 0,
            r.extra.mem_layout.segments@.len() == 0,
            r.extra.mem_layout.items@.len() == 0,
            r.extra.function_elements.virtual_spaces@.len() == 0,
            r.extra.function_elements.segments@.len() == 0,
            r.extra.function_elements.items@.len() == 0,
            r.extra.start_functions@.len() == 0,
            r.extra.got_info is None,
    {
        ModuleBuilder {
            functions: EntityCollection::empty(),
            globals: EntityCollection::empty(),
            tables: EntityCollection::empty(),
            memories: EntityCollection::empty(),
            tags: EntityCollection::empty(),
            extra: BuilderExtra {
                mem_layout: MemLayoutBuilder::new(),
                function_elements: IndirectFunctionsBuilder::new(),
                start_functions: Vec::new(),
                got_info: None,
            },
        }
    }
}

/// The first virtual space of elements that is placed in a table.
pub open spec fn first_active_kind<O, G>(kinds: Seq<ElementKind<O, G>>) -> Option<int>
    decreases kinds.len(),
{
    if kinds.len() == 0 {
        None
    } else {
        match first_active_kind(kinds.drop_last()) {
            Some(v) => Some(v),
            None => if kinds.last() is Active {
                Some(kinds.len() - 1)
            } else {
                None
            },
        }
    }
}

pub(crate) proof fn lemma_first_active_kind<O, G>(kinds: Seq<ElementKind<O, G>>)
    ensures
        match first_active_kind(kinds) {
            Some(v) => 0 <= v < kinds.len() && kinds[v] is Active && forall|w: int|
                0 <= w < v ==> !(#[trigger] kinds[w] is Active),
            None => forall|w: int| 0 <= w < kinds.len() ==> !(#[trigger] kinds[w] is Active),
        },
    decreases kinds.len(),
{
    if kinds.len() > 0 {
        let init = kinds.drop_last();
        lemma_first_active_kind(init);
        match first_active_kind(init) {
            Some(v) => {
                assert(kinds[v] == init[v]);
                assert forall|w: int| 0 <= w < v implies !(#[trigger] kinds[w] is Active) by {
                    assert(!(init[w] is Active));
                }
            },
            None => {
                assert forall|w: int| 0 <= w < init.len() implies !(
                #[trigger] kinds[w] is Active) by {
                    assert(!(init[w] is Active));
                }
            },
        }
    }
}

/// Whether a table is the empty one through which functions are called.
pub open spec fn is_indirect_table(table: DefinedTable) -> bool {
    &&& table.entity_type == (TableType {
        element_type: ValType::FuncRef,
        initial: 0,
        maximum: None,
    })
    &&& table.name matches Some(name)
    &&& name@ == INDIRECT_FUNCTION_TABLE@
    &&& table.export_as@.len() == 0
    &&& table.body matches EntityBody::New { new_relocs, new_bytes }
    &&& new_relocs@.len() == 0
    &&& new_bytes@.len() == 0
}

impl BuilderExtra {
    /// The virtual space of the functions that are called indirectly: the first one that is placed
    /// in a table.
    pub fn get_indirect_fn_vs(&self) -> (r: Option<VirtualSpaceId>)
        requires
            self.function_elements.virtual_spaces@.len() < u32::MAX,
        ensures
            match first_active_kind(self.function_elements.virtual_spaces@) {
                Some(v) => r matches Some(vs) && vs.id() == v,
                None => r is None,
            },
    {
        let spaces = self.function_elements.virtual_spaces.as_slice();
        let mut v: usize = 0;
        proof {
            lemma_first_active_kind(spaces@);
        }
        while v < spaces.len()
            invariant
                v <= spaces@.len() < u32::MAX,
                spaces@ == self.function_elements.virtual_spaces@,
                forall|w: int| 0 <= w < v ==> !(#[trigger] spaces@[w] is Active),
                match first_active_kind(spaces@) {
                    Some(v) => 0 <= v < spaces@.len() && spaces@[v] is Active && forall|w: int|
                        0 <= w < v ==> !(#[trigger] spaces@[w] is Active),
                    None => forall|w: int|
                        0 <= w < spaces@.len() ==> !(#[trigger] spaces@[w] is Active),
                },
            decreases spaces@.len() - v,
        {
            if spaces[v].is_active() {
                return Some(VirtualSpaceId::new(v));
            }
            v = v + 1;
        }
        None
    }
}

/// Whether a module has got a place for functions that are called indirectly. It is in the first
/// table, and a new one is made where there is none. It starts at the base of the table, or else
/// behind the first entry, which stays empty.
pub open spec fn has_new_place(before: ModuleBuilder, after: ModuleBuilder) -> bool {
    let table = if before.tables@.imports.len() > 0 {
        TempKind::Import(0)
    } else {
        TempKind::Defined(0)
    };
    let old_elements = before.extra.function_elements;
    let elements = after.extra.function_elements;
    &&& after.functions == before.functions
    &&& after.globals == before.globals
    &&& after.memories == before.memories
    &&& after.tags == before.tags
    &&& after.extra == (BuilderExtra { function_elements: elements, ..before.extra })
    &&& if before.tables@.imports.len() == 0 && before.tables@.defined.len() == 0 {
        &&& after.tables@.defined.len() == 1
        &&& is_indirect_table(after.tables@.defined[0])
        &&& after.tables@ == before.tables@.with(
            ImportOrDefined::Defined(after.tables@.defined[0]),
        )
    } else {
        after.tables == before.tables
    }
    &&& elements.items == old_elements.items
    &&& elements.virtual_spaces@.len() == old_elements.virtual_spaces@.len() + 1
    &&& elements.virtual_spaces@.drop_last() == old_elements.virtual_spaces@
    &&& elements.virtual_spaces@.last() matches ElementKind::Active { table_ref, location }
    &&& table_ref.wf()
    &&& table_ref.kind() == table
    &&& location == match before.extra.got_info {
        Some(got) => SegmentPlacement::GotBased { global: got.table_base, offset: 0 },
        None => SegmentPlacement::ConstantOffset(1),
    }
    &&& elements.segments@.len() == old_elements.segments@.len() + 1
    &&& elements.segments@.drop_last() == old_elements.segments@
    &&& elements.segments@.last().vs_id.id() == old_elements.virtual_spaces@.len()
    &&& elements.segments@.last().name@ == INDIRECT_FUNCTION_TABLE@
}

impl ModuleBuilder {
    /// Makes a place for the functions that are called indirectly, if there is none.
    pub fn create_empty_indirect_fn_table(&mut self)
        requires
            old(self).extra.function_elements.virtual_spaces@.len() < u32::MAX,
            old(self).extra.function_elements.segments@.len() < u32::MAX,
        ensures
            match first_active_kind(old(self).extra.function_elements.virtual_spaces@) {
                Some(_) => *final(self) == *old(self),
                None => has_new_place(*old(self), *final(self)),
            },
    {
        if self.extra.get_indirect_fn_vs().is_some() {
            return ;
        }
        let ghost before = *self;
        let table_ref: Temp<TableRef> = if self.tables.imports().len() > 0 {
            Temp::from_import(0)
        } else if self.tables.defined().len() > 0 {
            Temp::from_defined(0)
        } else {
            self.tables.push_defined(
                DefinedEntity {
                    entity_type: TableType {
                        element_type: ValType::FuncRef,
                        initial: 0,
                        maximum: None,
                    },
                    name: Some(INDIRECT_FUNCTION_TABLE.to_owned()),
                    export_as: Vec::new(),
                    body: EntityBody::new_empty(Vec::new()),
                },
            )
        };
        let location = match self.extra.got_info {
            Some(got) => SegmentPlacement::GotBased { global: got.table_base, offset: 0 },
            None => SegmentPlacement::ConstantOffset(1),
        };
        let elements = &mut self.extra.function_elements;
        let vs_id = elements.virtual_spaces.push(ElementKind::Active { table_ref, location });
        let _ = elements.segments.push(
            ElementSegmentSpec { vs_id, name: INDIRECT_FUNCTION_TABLE.to_owned() },
        );
        proof {
            let after = self.extra.function_elements;
            let old_elements = before.extra.function_elements;
            assert(after.virtual_spaces@.drop_last() =~= old_elements.virtual_spaces@);
            assert(after.segments@.drop_last() =~= old_elements.segments@);
        }
    }
}

/// Whether the entities that temporary indices name exist.
pub open spec fn refs_known(module: ModuleBuilder) -> bool {
    let spaces = module.extra.mem_layout.virtual_spaces@;
    let kinds = module.extra.function_elements.virtual_spaces@;
    let items = module.extra.function_elements.items@;
    let starts = module.extra.start_functions@;
    &&& forall|v: int|
        0 <= v < spaces.len() ==> space_known(module.memories@, #[trigger] spaces[v])
    &&& forall|v: int|
        0 <= v < kinds.len() ==> kind_known(
            module.tables@,
            module.globals@,
            #[trigger] kinds[v],
        )
    &&& forall|i: int|
        0 <= i < items.len() ==> module.functions@.holds((#[trigger] items[i]).item.kind())
    &&& forall|i: int|
        0 <= i < starts.len() ==> module.functions@.holds((#[trigger] starts[i]).kind())
}

/// Whether the segments and virtual spaces of the elements exist.
pub open spec fn elements_known(module: ModuleBuilder) -> bool {
    let elements = module.extra.function_elements;
    &&& elements.segments@.len() < u32::MAX
    &&& elements.items@.len() < u32::MAX
    &&& forall|s: int|
        0 <= s < elements.segments@.len() ==> (#[trigger] elements.segments@[s]).vs_id.id()
            < elements.virtual_spaces@.len()
    &&& forall|i: int|
        0 <= i < elements.items@.len() ==> (#[trigger] elements.items@[i]).segment_id.id()
            < elements.segments@.len()
}

/// What the data layout of a module is made from.
pub open spec fn data_input(module: ModuleBuilder) -> LayoutInput {
    module.extra.mem_layout.input(
        stable_spaces(module.memories@, module.extra.mem_layout.virtual_spaces@),
        COUNT_SIZE as int,
    )
}

/// Why the indices of a module cannot be fixed.
pub open spec fn lock_error(module: ModuleBuilder) -> Option<LockError> {
    if !(has_indices(module.functions@) && has_indices(module.globals@) && has_indices(
        module.tables@,
    ) && has_indices(module.memories@) && has_indices(module.tags@) && has_indices(
        module.extra.mem_layout.items@,
    )) {
        Some(LockError::TooManyEntities)
    } else if !refs_known(module) {
        Some(LockError::UnknownEntity)
    } else if !elements_known(module) {
        Some(LockError::Elements)
    } else if module.extra.mem_layout.items@.imports.len() > 0 || !data_input(module).fits() {
        Some(LockError::Layout)
    } else {
        None
    }
}

/// The final numbers of the functions that are called at the start.
pub open spec fn start_numbers(
    functions: CollectionView<ImportedFunction, DefinedFunction>,
    starts: Seq<Temp<FunctionRef>>,
) -> Seq<u32> {
    starts.map_values(|temp: Temp<FunctionRef>| stable_number(functions, temp))
}

/// Whether the functions of a module are those that were built. If several functions are called at
/// the start, one more calls them all.
pub open spec fn functions_locked(before: ModuleBuilder, after: Module) -> bool {
    let starts = before.extra.start_functions@;
    let functions = after.functions@;
    if starts.len() == 0 {
        &&& functions == before.functions@
        &&& after.extra.start_function is None
    } else if starts.len() == 1 {
        &&& functions == before.functions@
        &&& after.extra.start_function == Some(
            FunctionRef { id: stable_number(functions, starts[0]) },
        )
    } else {
        &&& functions.defined.len() == before.functions@.defined.len() + 1
        &&& functions == before.functions@.with(
            ImportOrDefined::Defined(functions.defined.last()),
        )
        &&& is_start_function(functions.defined.last(), start_numbers(functions, starts))
        &&& after.extra.start_function == Some(
            FunctionRef {
                id: (functions.imports.len() + before.functions@.defined.len()) as u32,
            },
        )
    }
}

/// Whether the elements of a module are those that were built, with final indices.
pub open spec fn elements_locked(before: ModuleBuilder, after: Module) -> bool {
    let built = before.extra.function_elements;
    let segments = after.extra.function_elements.segments@;
    &&& segments.len() == built.segments@.len()
    &&& forall|s: int|
        0 <= s < segments.len() ==> {
            let segment = #[trigger] segments[s];
            &&& segment.name@ == built.segments@[s].name@
            &&& segment.parts@ == elements_of(stable_items(after.functions@, built.items@), s)
            &&& segment.kind == stable_kind(
                before.tables@,
                before.globals@,
                built.virtual_spaces@[built.segments@[s].vs_id.id() as int],
            )
        }
}

/// Whether a module is one that was built, with final indices.
pub open spec fn is_locked(before: ModuleBuilder, after: Module) -> bool {
    let layout = after.extra.mem_layout;
    &&& functions_locked(before, after)
    &&& after.globals == before.globals
    &&& after.tables == before.tables
    &&& after.memories == before.memories
    &&& after.tags == before.tags
    &&& elements_locked(before, after)
    &&& layout.wf()
    &&& layout.is_sealed_from(data_input(before))
    &&& layout.external@ == before.extra.mem_layout.items@.external
    &&& layout.external.start_spec().id() == before.extra.mem_layout.items@.defined.len()
}

impl ModuleBuilder {
    fn entities_have_indices(&self) -> (r: bool)
        ensures
            r == (has_indices(self.functions@) && has_indices(self.globals@) && has_indices(
                self.tables@,
            ) && has_indices(self.memories@) && has_indices(self.tags@) && has_indices(
                self.extra.mem_layout.items@,
            )),
    {
        self.functions.is_small() && self.globals.is_small() && self.tables.is_small()
            && self.memories.is_small() && self.tags.is_small()
            && self.extra.mem_layout.items.is_small()
    }

    fn spaces_are_known(&self) -> (r: bool)
        ensures
            r == forall|v: int|
                0 <= v < self.extra.mem_layout.virtual_spaces@.len() ==> space_known(
                    self.memories@,
                    #[trigger] self.extra.mem_layout.virtual_spaces@[v],
                ),
    {
        let spaces = self.extra.mem_layout.virtual_spaces.as_slice();
        let mut v: usize = 0;
        while v < spaces.len()
            invariant
                v <= spaces@.len(),
                spaces@ == self.extra.mem_layout.virtual_spaces@,
                forall|w: int| 0 <= w < v ==> space_known(self.memories@, #[trigger] spaces@[w]),
            decreases spaces@.len() - v,
        {
            let known = match spaces[v].memory() {
                Some(memory) => memory.gets_number(
                    self.memories.imports().len(),
                    self.memories.defined().len(),
                ),
                None => true,
            };
            if !known {
                assert(!space_known(self.memories@, spaces@[v as int]));
                return false;
            }
            v = v + 1;
        }
        true
    }

    fn kinds_are_known(&self) -> (r: bool)
        ensures
            r == forall|v: int|
                0 <= v < self.extra.function_elements.virtual_spaces@.len() ==> kind_known(
                    self.tables@,
                    self.globals@,
                    #[trigger] self.extra.function_elements.virtual_spaces@[v],
                ),
    {
        let kinds = self.extra.function_elements.virtual_spaces.as_slice();
        let mut v: usize = 0;
        while v < kinds.len()
            invariant
                v <= kinds@.len(),
                kinds@ == self.extra.function_elements.virtual_spaces@,
                forall|w: int|
                    0 <= w < v ==> kind_known(self.tables@, self.globals@, #[trigger] kinds@[w]),
            decreases kinds@.len() - v,
        {
            let known = match kinds[v] {
                ElementKind::Active { table_ref, location } => self.tables.has(table_ref)
                    && match location {
                    SegmentPlacement::GotBased { global, .. } => self.globals.has(global),
                    SegmentPlacement::ConstantOffset(_) => true,
                },
                _ => true,
            };
            if !known {
                assert(!kind_known(self.tables@, self.globals@, kinds@[v as int]));
                return false;
            }
            v = v + 1;
        }
        true
    }

    fn functions_are_known(&self) -> (r: bool)
        ensures
            r == ((forall|i: int|
                0 <= i < self.extra.function_elements.items@.len() ==> self.functions@.holds(
                    (#[trigger] self.extra.function_elements.items@[i]).item.kind(),
                )) && (forall|i: int|
                0 <= i < self.extra.start_functions@.len() ==> self.functions@.holds(
                    (#[trigger] self.extra.start_functions@[i]).kind(),
                ))),
    {
        let items = &self.extra.function_elements.items;
        let mut i: usize = 0;
        while i < items.len()
            invariant
                i <= items@.len(),
                items@ == self.extra.function_elements.items@,
                forall|j: int|
                    0 <= j < i ==> self.functions@.holds((#[trigger] items@[j]).item.kind()),
            decreases items@.len() - i,
        {
            if !self.functions.has(items[i].item) {
                assert(!self.functions@.holds(items@[i as int].item.kind()));
                return false;
            }
            i = i + 1;
        }
        let starts = &self.extra.start_functions;
        i = 0;
        while i < starts.len()
            invariant
                i <= starts@.len(),
                starts@ == self.extra.start_functions@,
                forall|j: int| 0 <= j < i ==> self.functions@.holds((#[trigger] starts@[j]).kind()),
            decreases starts@.len() - i,
        {
            if !self.functions.has(starts[i]) {
                assert(!self.functions@.holds(starts@[i as int].kind()));
                return false;
            }
            i = i + 1;
        }
        true
    }

    fn elements_are_known(&self) -> (r: bool)
        ensures
            r == elements_known(*self),
    {
        let segments = self.extra.function_elements.segments.as_slice();
        let items = &self.extra.function_elements.items;
        let spaces: usize = self.extra.function_elements.virtual_spaces.len();
        if segments.len() >= u32::MAX as usize || items.len() >= u32::MAX as usize {
            return false;
        }
        let mut s: usize = 0;
        while s < segments.len()
            invariant
                s <= segments@.len(),
                segments@ == self.extra.function_elements.segments@,
                spaces == self.extra.function_elements.virtual_spaces@.len(),
                forall|t: int| 0 <= t < s ==> (#[trigger] segments@[t]).vs_id.id() < spaces,
            decreases segments@.len() - s,
        {
            if segments[s].vs_id.index() >= spaces {
                assert(!(segments@[s as int].vs_id.id() < spaces));
                return false;
            }
            s = s + 1;
        }
        let mut i: usize = 0;
        while i < items.len()
            invariant
                i <= items@.len(),
                items@ == self.extra.function_elements.items@,
                segments@ == self.extra.function_elements.segments@,
                forall|j: int|
                    0 <= j < i ==> (#[trigger] items@[j]).segment_id.id() < segments@.len(),
            decreases items@.len() - i,
        {
            if items[i].segment_id.index() >= segments.len() {
                assert(!(items@[i as int].segment_id.id() < segments@.len()));
                return false;
            }
            i = i + 1;
        }
        true
    }

    /// The virtual spaces of the data layout with final indices.
    fn final_spaces(&self) -> (r: Vec<DataKind<MemoryRef>>)
        requires
            has_indices(self.memories@),
            refs_known(*self),
        ensures
            r@ == stable_spaces(self.memories@, self.extra.mem_layout.virtual_spaces@),
    {
        let spaces = self.extra.mem_layout.virtual_spaces.as_slice();
        let mut result: Vec<DataKind<MemoryRef>> = Vec::new();
        let mut v: usize = 0;
        while v < spaces.len()
            invariant
                v <= spaces@.len(),
                spaces@ == self.extra.mem_layout.virtual_spaces@,
                has_indices(self.memories@),
                forall|w: int|
                    0 <= w < spaces@.len() ==> space_known(self.memories@, #[trigger] spaces@[w]),
                result@ == stable_spaces(self.memories@, spaces@).take(v as int),
            decreases spaces@.len() - v,
        {
            assert(space_known(self.memories@, spaces@[v as int]));
            let space = match spaces[v] {
                DataKind::Active { memory_ref, location } => DataKind::Active {
                    memory_ref: self.memories.stable_id(memory_ref),
                    location,
                },
                DataKind::Passive => DataKind::Passive,
            };
            result.push(space);
            proof {
                assert(space == stable_spaces(self.memories@, spaces@)[v as int]);
                assert(result@ =~= stable_spaces(self.memories@, spaces@).take(v + 1));
            }
            v = v + 1;
        }
        assert(result@ =~= stable_spaces(self.memories@, spaces@));
        result
    }

    /// Tells why the indices of the module cannot be fixed.
    fn find_lock_error(&self) -> (r: Option<LockError>)
        ensures
            r == lock_error(*self),
    {
        if !self.entities_have_indices() {
            return Some(LockError::TooManyEntities);
        }
        let known = self.spaces_are_known() && self.kinds_are_known() && self.functions_are_known();
        if !known {
            return Some(LockError::UnknownEntity);
        }
        assert(refs_known(*self));
        if !self.elements_are_known() {
            return Some(LockError::Elements);
        }
        let layout = &self.extra.mem_layout;
        if layout.items.imports().len() > 0 {
            return Some(LockError::Layout);
        }
        let spaces = self.final_spaces();
        if !layout_fits(
            &spaces,
            layout.segments.as_slice(),
            layout.items.defined(),
            COUNT_SIZE,
            Ghost(data_input(*self)),
        ) {
            return Some(LockError::Layout);
        }
        None
    }

    /// A function that calls the functions of the start, one after the other.
    fn start_function(&self, defined: usize) -> (r: DefinedFunction)
        requires
            forall|i: int|
                0 <= i < self.extra.start_functions@.len() ==> {
                    let temp = #[trigger] self.extra.start_functions@[i];
                    temp.wf() && temp.stable(self.functions@.imports.len(), defined as nat)
                        < u32::MAX
                },
        ensures
            is_start_function(
                r,
                self.extra.start_functions@.map_values(
                    |temp: Temp<FunctionRef>|
                        temp.stable(self.functions@.imports.len(), defined as nat) as u32,
                ),
            ),
    {
        let starts = &self.extra.start_functions;
        let imports: usize = self.functions.imports().len();
        let ghost ids = starts@.map_values(
            |temp: Temp<FunctionRef>|
                temp.stable(self.functions@.imports.len(), defined as nat) as u32,
        );
        let mut bytes: Vec<u8> = vec![0x00u8];
        let mut i: usize = 0;
        assert(bytes@ =~= seq![0x00u8] + calls(ids.take(0)));
        while i < starts.len()
            invariant
                i <= starts@.len(),
                starts@ == self.extra.start_functions@,
                imports == self.functions@.imports.len(),
                ids == starts@.map_values(
                    |temp: Temp<FunctionRef>|
                        temp.stable(self.functions@.imports.len(), defined as nat) as u32,
                ),
                forall|i: int|
                    0 <= i < starts@.len() ==> {
                        let temp = #[trigger] starts@[i];
                        temp.wf() && temp.stable(imports as nat, defined as nat) < u32::MAX
                    },
                bytes@ == seq![0x00u8] + calls(ids.take(i as int)),
            decreases starts@.len() - i,
        {
            let ghost before = bytes@;
            let id: FunctionRef = starts[i].to_stable(imports, defined);
            bytes.push(0x10);
            let number = fixed_u32(id.as_u32());
            bytes.extend_from_slice(number.as_slice());
            proof {
                assert(ids.take(i + 1).drop_last() =~= ids.take(i as int));
                assert(ids.take(i + 1).last() == id.id());
                assert(bytes@ =~= seq![0x00u8] + calls(ids.take(i + 1)));
            }
            i = i + 1;
        }
        assert(ids.take(i as int) =~= ids);
        bytes.push(0x0b);
        assert(bytes@ =~= seq![0x00u8] + calls(ids) + seq![0x0bu8]);
        DefinedEntity {
            entity_type: FuncType { params: Vec::new(), results: Vec::new() },
            name: None,
            export_as: Vec::new(),
            body: EntityBody::new_empty(bytes),
        }
    }
}

/// A temporary index of an entity is well formed, and gets a final index.
proof fn lemma_held<Idx, I, D>(all: CollectionView<I, D>, temp: Temp<Idx>)
    requires
        has_indices(all),
        all.holds(temp.kind()),
    ensures
        temp.wf(),
        temp.stable(all.imports.len(), all.defined.len()) < u32::MAX,
        temp.stable(all.imports.len(), all.defined.len() + 1) < u32::MAX,
{
}

/// Gives the items of a data layout their places.
fn lock_data(
    layout: MemLayoutBuilder,
    memories: &EntityCollection<MemoryRef, ImportedMemory, DefinedMemory>,
    Ghost(input): Ghost<LayoutInput>,
) -> (r: MemLayoutSealed)
    requires
        has_indices(memories@),
        forall|v: int|
            0 <= v < layout.virtual_spaces@.len() ==> space_known(
                memories@,
                #[trigger] layout.virtual_spaces@[v],
            ),
        input == layout.input(
            stable_spaces(memories@, layout.virtual_spaces@),
            COUNT_SIZE as int,
        ),
        layout.items@.imports.len() == 0,
        input.fits(),
    ensures
        r.wf(),
        r.is_sealed_from(input),
        r.external@ == layout.items@.external,
        r.external.start_spec().id() == layout.items@.defined.len(),
{
    let imports: usize = memories.imports().len();
    let defined: usize = memories.defined().len();
    let ghost spaces = layout.virtual_spaces@;
    let ghost stable = stable_spaces(memories@, spaces);
    let to_stable = |temp: Temp<MemoryRef>| -> (id: MemoryRef)
        requires
            temp.wf(),
            temp.stable(imports as nat, defined as nat) < u32::MAX,
        ensures
            id.id() == temp.stable(imports as nat, defined as nat),
        { temp.to_stable(imports, defined) };
    proof {
        assert forall|v: int| 0 <= v < spaces.len() implies (
        #[trigger] spaces[v] matches DataKind::Active { memory_ref, .. } ==> call_requires(
            to_stable,
            (memory_ref,),
        )) by {
            assert(space_known(memories@, spaces[v]));
        }
        assert forall|found: Seq<DataKind<MemoryRef>>|
            are_stable_spaces(to_stable, spaces, found) implies found == stable by {
            assert forall|v: int| 0 <= v < spaces.len() implies #[trigger] found[v]
                == stable[v] by {
                assert(space_known(memories@, spaces[v]));
            }
            assert(found =~= stable);
        }
    }
    layout.seal_at(COUNT_SIZE, to_stable)
}

/// Gives elements their final indices.
fn lock_elements(
    elements: IndirectFunctionsBuilder,
    functions: &EntityCollection<FunctionRef, ImportedFunction, DefinedFunction>,
    tables: &EntityCollection<TableRef, ImportedTable, DefinedTable>,
    globals: &EntityCollection<GlobalRef, ImportedGlobal, DefinedGlobal>,
) -> (r: IndirectFunctionsSealed)
    requires
        has_indices(tables@),
        has_indices(globals@),
        elements.segments@.len() < u32::MAX,
        elements.items@.len() < u32::MAX,
        forall|v: int|
            0 <= v < elements.virtual_spaces@.len() ==> kind_known(
                tables@,
                globals@,
                #[trigger] elements.virtual_spaces@[v],
            ),
        forall|s: int|
            0 <= s < elements.segments@.len() ==> (#[trigger] elements.segments@[s]).vs_id.id()
                < elements.virtual_spaces@.len(),
        forall|i: int|
            0 <= i < elements.items@.len() ==> {
                let element = #[trigger] elements.items@[i];
                &&& element.segment_id.id() < elements.segments@.len()
                &&& element.item.wf()
                &&& element.item.stable(functions@.imports.len(), functions@.defined.len())
                    < u32::MAX
            },
    ensures
        r.segments@.len() == elements.segments@.len(),
        forall|s: int|
            0 <= s < r.segments@.len() ==> {
                let segment = #[trigger] r.segments@[s];
                &&& segment.name@ == elements.segments@[s].name@
                &&& segment.parts@ == elements_of(stable_items(functions@, elements.items@), s)
                &&& segment.kind == stable_kind(
                    tables@,
                    globals@,
                    elements.virtual_spaces@[elements.segments@[s].vs_id.id() as int],
                )
            },
{
    let function_imports: usize = functions.imports().len();
    let function_defined: usize = functions.defined().len();
    let table_imports: usize = tables.imports().len();
    let table_defined: usize = tables.defined().len();
    let global_imports: usize = globals.imports().len();
    let global_defined: usize = globals.defined().len();
    let to_function = |temp: Temp<FunctionRef>| -> (id: FunctionRef)
        requires
            temp.wf(),
            temp.stable(function_imports as nat, function_defined as nat) < u32::MAX,
        ensures
            id.id() == temp.stable(function_imports as nat, function_defined as nat),
        { temp.to_stable(function_imports, function_defined) };
    let to_table = |temp: Temp<TableRef>| -> (id: TableRef)
        requires
            temp.wf(),
            temp.stable(table_imports as nat, table_defined as nat) < u32::MAX,
        ensures
            id.id() == temp.stable(table_imports as nat, table_defined as nat),
        { temp.to_stable(table_imports, table_defined) };
    let to_global = |temp: Temp<GlobalRef>| -> (id: GlobalRef)
        requires
            temp.wf(),
            temp.stable(global_imports as nat, global_defined as nat) < u32::MAX,
        ensures
            id.id() == temp.stable(global_imports as nat, global_defined as nat),
        { temp.to_stable(global_imports, global_defined) };
    let ghost kinds = elements.virtual_spaces@;
    let ghost specs = elements.segments@;
    let ghost items = elements.items@;
    let mapped = elements.map_elements(to_function);
    proof {
        assert forall|v: int| 0 <= v < kinds.len() implies (#[trigger] kinds[v]).can_map(
            to_table,
            to_global,
        ) by {
            assert(kind_known(tables@, globals@, kinds[v]));
            if let ElementKind::Active { table_ref, location } = kinds[v] {
                lemma_held(tables@, table_ref);
                if let SegmentPlacement::GotBased { global, .. } = location {
                    lemma_held(globals@, global);
                }
            }
        }
        assert forall|i: int| 0 <= i < items.len() implies (
        #[trigger] mapped.items@[i]).segment_id.id() < specs.len() by {
            assert(items[i].segment_id.id() < specs.len());
        }
        assert forall|i: int| 0 <= i < items.len() implies #[trigger] mapped.items@[i]
            == stable_items(functions@, items)[i] by {
            assert(items[i].item.wf());
        }
        assert(mapped.items@ =~= stable_items(functions@, items));
    }
    let sealed = mapped.seal(to_table, to_global);
    proof {
        assert forall|s: int| 0 <= s < specs.len() implies (
        #[trigger] sealed.segments@[s]).kind == stable_kind(
            tables@,
            globals@,
            kinds[specs[s].vs_id.id() as int],
        ) by {
            let kind = kinds[specs[s].vs_id.id() as int];
            assert(specs[s].vs_id.id() < kinds.len());
            assert(kind_known(tables@, globals@, kind));
            if let ElementKind::Active { table_ref, location } = kind {
                lemma_held(tables@, table_ref);
                if let SegmentPlacement::GotBased { global, .. } = location {
                    lemma_held(globals@, global);
                }
            }
        }
    }
    sealed
}

impl ModuleBuilder {
    /// Fixes the indices of all entities, and gives data and elements their places.
    pub fn into_locked(self) -> (r: Result<Module, LockError>)
        ensures
            match lock_error(self) {
                Some(error) => r matches Err(e) && e == error,
                None => r matches Ok(module) && is_locked(self, module),
            },
    {
        if let Some(error) = self.find_lock_error() {
            return Err(error);
        }
        let ghost built = self;
        let ghost starts = self.extra.start_functions@;
        let ghost items = self.extra.function_elements.items@;
        let count: usize = self.extra.start_functions.len();
        let imports: usize = self.functions.imports().len();
        let old_defined: usize = self.functions.defined().len();
        let defined: usize = if count > 1 {
            old_defined + 1
        } else {
            old_defined
        };
        proof {
            assert forall|i: int| 0 <= i < starts.len() implies {
                let temp = #[trigger] starts[i];
                temp.wf() && temp.stable(imports as nat, defined as nat) < u32::MAX
            } by {
                lemma_held(self.functions@, starts[i]);
            }
            assert forall|i: int| 0 <= i < items.len() implies {
                let element = #[trigger] items[i];
                &&& element.item.wf()
                &&& element.item.stable(imports as nat, defined as nat) < u32::MAX
            } by {
                lemma_held(self.functions@, items[i].item);
            }
        }
        let start_id = if count == 0 {
            None
        } else if count == 1 {
            let first: Temp<FunctionRef> = self.extra.start_functions[0];
            assert(starts[0].wf());
            Some(first.to_stable(imports, defined))
        } else {
            Some(FunctionRef::new(imports + old_defined))
        };
        let start_function = if count > 1 {
            Some(self.start_function(defined))
        } else {
            None
        };
        let ModuleBuilder { functions: old_functions, globals, tables, memories, tags, extra } =
            self;
        let BuilderExtra { mem_layout, function_elements, .. } = extra;
        let mut functions = old_functions;
        if let Some(function) = start_function {
            let _ = functions.push_defined(function);
            proof {
                assert(functions@.defined.last() == function);
                assert(starts.map_values(
                    |temp: Temp<FunctionRef>| temp.stable(imports as nat, defined as nat) as u32,
                ) =~= start_numbers(functions@, starts));
                assert(functions@ == built.functions@.with(
                    ImportOrDefined::Defined(functions@.defined.last()),
                ));
            }
        }
        let mem_layout = lock_data(mem_layout, &memories, Ghost(data_input(built)));
        let function_elements = lock_elements(function_elements, &functions, &tables, &globals);
        let module = Module {
            functions,
            globals,
            tables,
            memories,
            tags,
            extra: ModuleExtra { mem_layout, function_elements, start_function: start_id },
        };
        Ok(module)
    }
}

/// Fixing the indices loses no function: a temporary index leads to the same function before and
/// after.
pub proof fn lemma_locked_function(before: ModuleBuilder, after: Module, temp: Temp<FunctionRef>)
    requires
        is_locked(before, after),
        before.functions@.holds(temp.kind()),
    ensures
        after.functions@.entity(
            temp.stable(after.functions@.imports.len(), after.functions@.defined.len()) as int,
        ) == before.functions@.temp_entity(temp.kind()),
{
    let all = before.functions@;
    let locked = after.functions@;
    if before.extra.start_functions@.len() > 1 {
        lemma_push_keeps_entities(all, ImportOrDefined::Defined(locked.defined.last()), temp.kind());
    }
    lemma_stable_entity(locked, temp);
}

} // verus!
