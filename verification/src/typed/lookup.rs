//! Names and types of the entities of a module.
use crate::emit::plan::copy::data_entity;
use crate::index::TempIndex;
use crate::text::{decimal, decimal_string};
use crate::typed::duplicate::Duplicate;
use crate::typed::entities::{CollectionView, DefinedEntity, ImportOrDefined, ImportedEntity};
use crate::typed::module::{DefinedGlobal, ImportedGlobal, Module};
use crate::typed::types::{FuncType, GlobalType, MemoryType, TableType, TagType};
use crate::typed::{EntityKind, GlobalRef};
use vstd::prelude::*;
use vstd::string::StringExecFns;

verus! {

/// The type of an entity. A reference to data has none.
#[derive(Debug)]
pub enum EntityType {
    Function(FuncType),
    Global(GlobalType),
    Table(TableType),
    Memory(MemoryType),
    Tag(TagType),
    DataSymbol,
}

impl Duplicate for EntityType {
    open spec fn same_as(&self, other: &Self) -> bool {
        match (*self, *other) {
            (EntityType::Function(a), EntityType::Function(b)) => a.same_as(&b),
            (EntityType::Global(a), EntityType::Global(b)) => a.same_as(&b),
            (EntityType::Table(a), EntityType::Table(b)) => a.same_as(&b),
            (EntityType::Memory(a), EntityType::Memory(b)) => a.same_as(&b),
            (EntityType::Tag(a), EntityType::Tag(b)) => a.same_as(&b),
            (EntityType::DataSymbol, EntityType::DataSymbol) => true,
            _ => false,
        }
    }

    fn duplicate(&self) -> (r: Self) {
        match self {
            EntityType::Function(ty) => EntityType::Function(ty.duplicate()),
            EntityType::Global(ty) => EntityType::Global(ty.duplicate()),
            EntityType::Table(ty) => EntityType::Table(ty.duplicate()),
            EntityType::Memory(ty) => EntityType::Memory(ty.duplicate()),
            EntityType::Tag(ty) => EntityType::Tag(ty.duplicate()),
            EntityType::DataSymbol => EntityType::DataSymbol,
        }
    }
}

/// Whether a module has an entity.
pub open spec fn has_entity(module: Module, entity: EntityKind) -> bool {
    match entity {
        EntityKind::Function(f) => f.id() < module.functions@.len(),
        EntityKind::Global(g) => g.id() < module.globals@.len(),
        EntityKind::Table(t) => t.id() < module.tables@.len(),
        EntityKind::Memory(m) => m.id() < module.memories@.len(),
        EntityKind::Tag(t) => t.id() < module.tags@.len(),
        EntityKind::DataSymbol(d) => module.extra.mem_layout.is_external_ref(d)
            || module.extra.mem_layout.defined.lookup(d) is Some,
        EntityKind::Type(_) => true,
    }
}

/// The name that an entity itself has.
pub open spec fn own_name<T, U>(
    entity: ImportOrDefined<ImportedEntity<T>, DefinedEntity<U>>,
) -> Option<Seq<char>> {
    match entity {
        ImportOrDefined::Import(import) => Some(import.name@),
        ImportOrDefined::External(import) => Some(import.name@),
        ImportOrDefined::Defined(defined) => match defined.name {
            Some(name) => Some(name@),
            None => None,
        },
    }
}

/// The type of an entity of a module.
pub open spec fn type_of<T>(
    entity: ImportOrDefined<ImportedEntity<T>, DefinedEntity<T>>,
) -> T {
    match entity {
        ImportOrDefined::Import(import) => import.entity_type,
        ImportOrDefined::External(import) => import.entity_type,
        ImportOrDefined::Defined(defined) => defined.entity_type,
    }
}

/// The name of an entity by its kind and index.
pub open spec fn index_name(entity: EntityKind) -> Seq<char> {
    (match entity {
        EntityKind::Function(_) => "function"@,
        EntityKind::Global(_) => "global"@,
        EntityKind::Table(_) => "table"@,
        EntityKind::Memory(_) => "memory"@,
        EntityKind::Tag(_) => "tag"@,
        EntityKind::DataSymbol(_) => "data"@,
        EntityKind::Type(_) => "type"@,
    }) + decimal(entity.inner_id() as nat)
}

/// The name of an entity of a module.
pub open spec fn entity_name(module: Module, entity: EntityKind) -> Seq<char> {
    let own = match entity {
        EntityKind::Function(f) => own_name(module.functions@.entity(f.id() as int)),
        EntityKind::Global(g) => own_name(module.globals@.entity(g.id() as int)),
        EntityKind::Table(t) => own_name(module.tables@.entity(t.id() as int)),
        EntityKind::Memory(m) => own_name(module.memories@.entity(m.id() as int)),
        EntityKind::Tag(t) => own_name(module.tags@.entity(t.id() as int)),
        EntityKind::DataSymbol(d) => own_name(data_entity(module.extra.mem_layout, d)),
        EntityKind::Type(_) => None,
    };
    match own {
        Some(name) => name,
        None => index_name(entity),
    }
}

/// Whether a type is that of an entity of a module.
pub open spec fn is_type_of(module: Module, entity: EntityKind, ty: EntityType) -> bool {
    match (entity, ty) {
        (EntityKind::Function(f), EntityType::Function(ty)) => type_of(
            module.functions@.entity(f.id() as int),
        ).same_as(&ty),
        (EntityKind::Global(g), EntityType::Global(ty)) => type_of(
            module.globals@.entity(g.id() as int),
        ).same_as(&ty),
        (EntityKind::Table(t), EntityType::Table(ty)) => type_of(
            module.tables@.entity(t.id() as int),
        ).same_as(&ty),
        (EntityKind::Memory(m), EntityType::Memory(ty)) => type_of(
            module.memories@.entity(m.id() as int),
        ).same_as(&ty),
        (EntityKind::Tag(t), EntityType::Tag(ty)) => type_of(
            module.tags@.entity(t.id() as int),
        ).same_as(&ty),
        (EntityKind::DataSymbol(_), EntityType::DataSymbol) => true,
        _ => false,
    }
}

/// The entity that some references stand for.
pub open spec fn pointee<I, D>(entity: ImportOrDefined<&I, &D>) -> ImportOrDefined<I, D> {
    match entity {
        ImportOrDefined::Import(import) => ImportOrDefined::Import(*import),
        ImportOrDefined::External(import) => ImportOrDefined::External(*import),
        ImportOrDefined::Defined(defined) => ImportOrDefined::Defined(*defined),
    }
}

fn name_of<T, U>(entity: ImportOrDefined<&ImportedEntity<T>, &DefinedEntity<U>>) -> (r: Option<
    String,
>)
    ensures
        match own_name(pointee(entity)) {
            Some(name) => r matches Some(text) && text@ == name,
            None => r is None,
        },
{
    match entity {
        ImportOrDefined::Import(import) => Some(import.name.clone()),
        ImportOrDefined::External(import) => Some(import.name.clone()),
        ImportOrDefined::Defined(defined) => match &defined.name {
            Some(name) => Some(name.clone()),
            None => None,
        },
    }
}

fn copy_type<T: Duplicate>(entity: ImportOrDefined<&ImportedEntity<T>, &DefinedEntity<T>>) -> (r: T)
    ensures
        type_of(pointee(entity)).same_as(&r),
{
    match entity {
        ImportOrDefined::Import(import) => import.entity_type.duplicate(),
        ImportOrDefined::External(import) => import.entity_type.duplicate(),
        ImportOrDefined::Defined(defined) => defined.entity_type.duplicate(),
    }
}

impl EntityKind {
    /// Text of the kind and the index.
    pub fn to_text(&self) -> (r: String)
        ensures
            r@ == index_name(*self),
    {
        let mut text = match self {
            EntityKind::Function(_) => "function".to_owned(),
            EntityKind::Global(_) => "global".to_owned(),
            EntityKind::Table(_) => "table".to_owned(),
            EntityKind::Memory(_) => "memory".to_owned(),
            EntityKind::Tag(_) => "tag".to_owned(),
            EntityKind::DataSymbol(_) => "data".to_owned(),
            EntityKind::Type(_) => "type".to_owned(),
        };
        text.append(decimal_string(self.to_inner_u32() as u64).as_str());
        text
    }
}

impl Module {
    /// The name of an entity: its own one, or else its kind and index.
    pub fn get_name(&self, entity: EntityKind) -> (r: String)
        requires
            self.extra.mem_layout.wf(),
            has_entity(*self, entity),
        ensures
            r@ == entity_name(*self, entity),
    {
        let own = match entity {
            EntityKind::Function(f) => name_of(self.functions.get_entity(f)),
            EntityKind::Global(g) => name_of(self.globals.get_entity(g)),
            EntityKind::Table(t) => name_of(self.tables.get_entity(t)),
            EntityKind::Memory(m) => name_of(self.memories.get_entity(m)),
            EntityKind::Tag(t) => name_of(self.tags.get_entity(t)),
            EntityKind::DataSymbol(d) => name_of(self.extra.mem_layout.get_entity(d)),
            EntityKind::Type(_) => None,
        };
        match own {
            Some(name) => name,
            None => entity.to_text(),
        }
    }

    /// The type of an entity. A type has none itself.
    pub fn get_type(&self, entity: EntityKind) -> (r: Option<EntityType>)
        requires
            self.extra.mem_layout.wf(),
            has_entity(*self, entity),
        ensures
            match r {
                Some(ty) => is_type_of(*self, entity, ty),
                None => entity is Type,
            },
    {
        match entity {
            EntityKind::Function(f) => Some(
                EntityType::Function(copy_type(self.functions.get_entity(f))),
            ),
            EntityKind::Global(g) => Some(
                EntityType::Global(copy_type(self.globals.get_entity(g))),
            ),
            EntityKind::Table(t) => Some(EntityType::Table(copy_type(self.tables.get_entity(t)))),
            EntityKind::Memory(m) => Some(
                EntityType::Memory(copy_type(self.memories.get_entity(m))),
            ),
            EntityKind::Tag(t) => Some(EntityType::Tag(copy_type(self.tags.get_entity(t)))),
            EntityKind::DataSymbol(_) => Some(EntityType::DataSymbol),
            EntityKind::Type(_) => None,
        }
    }
}

/// The number of the first global with a name.
pub open spec fn global_number(
    globals: CollectionView<ImportedGlobal, DefinedGlobal>,
    name: Seq<char>,
    from: int,
) -> Option<int>
    decreases globals.len() - from,
{
    if from >= globals.len() {
        None
    } else if own_name(globals.entity(from)) == Some(name) {
        Some(from)
    } else {
        global_number(globals, name, from + 1)
    }
}

/// The first global with a name exists and has it.
pub proof fn lemma_global_number(
    globals: CollectionView<ImportedGlobal, DefinedGlobal>,
    name: Seq<char>,
    from: int,
)
    requires
        0 <= from,
    ensures
        global_number(globals, name, from) matches Some(i) ==> from <= i < globals.len()
            && own_name(globals.entity(i)) == Some(name),
    decreases globals.len() - from,
{
    if from < globals.len() && own_name(globals.entity(from)) != Some(name) {
        lemma_global_number(globals, name, from + 1);
    }
}

impl Module {
    /// The first global with a name.
    pub fn find_global_id_by_name(&self, name: &String) -> (r: Option<GlobalRef>)
        requires
            self.globals@.len() < u32::MAX,
        ensures
            match r {
                Some(id) => global_number(self.globals@, name@, 0) == Some(id.id() as int),
                None => global_number(self.globals@, name@, 0) is None,
            },
    {
        let ghost all = self.globals@;
        let mut i: u32 = 0;
        while (i as usize) < self.globals.len()
            invariant
                i <= all.len() < u32::MAX,
                all == self.globals@,
                global_number(all, name@, 0) == global_number(all, name@, i as int),
            decreases all.len() - i,
        {
            let id = GlobalRef::from_raw(i);
            let found = match self.globals.get_entity(id) {
                ImportOrDefined::Import(import) => import.name == *name,
                ImportOrDefined::External(import) => import.name == *name,
                ImportOrDefined::Defined(defined) => match &defined.name {
                    Some(own) => *own == *name,
                    None => false,
                },
            };
            if found {
                return Some(id);
            }
            i = i + 1;
        }
        None
    }
}

} // verus!
