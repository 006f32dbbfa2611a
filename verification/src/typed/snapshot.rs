//! Numbers of entities over all kinds and files.
use crate::emit::relocation::EntityLocation;
use crate::index::{ReservedValue, TempIndex};
use crate::layouts::data::DataSymbolRef;
use crate::typed::{
    EntityKind, FileId, FnTypeRef, FunctionRef, GlobalRef, MemoryRef, TableRef, TagRef,
};
use vstd::prelude::*;

verus! {

/// Index of an entity among the entities of all kinds, of one file or of several ones.
#[derive(Clone, Copy, Debug, PartialEq, Eq, PartialOrd, Ord, Hash, Structural)]
pub struct FlatEntityRef {
    pub id: u32,
}

impl TempIndex for FlatEntityRef {
    open spec fn id(self) -> u32 {
        self.id
    }

    proof fn lemma_id_injective(a: Self, b: Self) {
    }

    fn from_raw(value: u32) -> (r: Self) {
        FlatEntityRef { id: value }
    }

    fn as_u32(&self) -> (r: u32) {
        self.id
    }
}

impl ReservedValue for FlatEntityRef {
    open spec fn is_reserved_spec(&self) -> bool {
        self.id() == u32::MAX
    }

    fn reserved_value() -> (r: Self) {
        Self::reserved()
    }

    fn is_reserved_value(&self) -> (r: bool) {
        self.is_reserved()
    }
}

impl Default for FlatEntityRef {
    fn default() -> (r: Self)
        ensures
            r.id() == u32::MAX,
    {
        Self::reserved()
    }
}

/// How many entities of each kind a file has.
#[derive(Debug, Clone, Copy, PartialEq, Eq, Structural)]
pub struct EntitiesSnapshot {
    pub functions: u32,
    pub globals: u32,
    pub tables: u32,
    pub memories: u32,
    pub tags: u32,
    pub data_symbols: u32,
    pub types: u32,
}

impl EntitiesSnapshot {
    /// Number of entities.
    pub open spec fn total(self) -> int {
        self.functions + self.globals + self.tables + self.memories + self.tags + self.data_symbols
            + self.types
    }

    /// Whether all entities have an index.
    pub open spec fn fits(self) -> bool {
        self.total() < u32::MAX
    }

    /// Number of entities of the kinds before that of an entity.
    pub open spec fn base(self, entity: EntityKind) -> int {
        match entity {
            EntityKind::Function(_) => 0,
            EntityKind::Global(_) => self.functions as int,
            EntityKind::Table(_) => self.functions + self.globals,
            EntityKind::Memory(_) => self.functions + self.globals + self.tables,
            EntityKind::Tag(_) => self.functions + self.globals + self.tables + self.memories,
            EntityKind::DataSymbol(_) => self.functions + self.globals + self.tables
                + self.memories + self.tags,
            EntityKind::Type(_) => self.functions + self.globals + self.tables + self.memories
                + self.tags + self.data_symbols,
        }
    }

    /// Number of entities of the kind of an entity.
    pub open spec fn count(self, entity: EntityKind) -> int {
        match entity {
            EntityKind::Function(_) => self.functions as int,
            EntityKind::Global(_) => self.globals as int,
            EntityKind::Table(_) => self.tables as int,
            EntityKind::Memory(_) => self.memories as int,
            EntityKind::Tag(_) => self.tags as int,
            EntityKind::DataSymbol(_) => self.data_symbols as int,
            EntityKind::Type(_) => self.types as int,
        }
    }

    /// Whether the file has an entity.
    pub open spec fn has(self, entity: EntityKind) -> bool {
        entity.inner_id() < self.count(entity)
    }

    /// The number of an entity among all entities of the file.
    pub open spec fn flat(self, entity: EntityKind) -> int {
        self.base(entity) + entity.inner_id()
    }

    /// The number of an entity among all entities of the file.
    pub fn pack_ref(&self, entity: EntityKind) -> (r: FlatEntityRef)
        requires
            self.fits(),
            self.has(entity),
        ensures
            r.id() == self.flat(entity),
    {
        let base: u32 = match entity {
            EntityKind::Function(_) => 0,
            EntityKind::Global(_) => self.functions,
            EntityKind::Table(_) => self.functions + self.globals,
            EntityKind::Memory(_) => self.functions + self.globals + self.tables,
            EntityKind::Tag(_) => self.functions + self.globals + self.tables + self.memories,
            EntityKind::DataSymbol(_) => {
                self.functions + self.globals + self.tables + self.memories + self.tags
            },
            EntityKind::Type(_) => {
                self.functions + self.globals + self.tables + self.memories + self.tags
                    + self.data_symbols
            },
        };
        FlatEntityRef::from_u32(base + entity.to_inner_u32())
    }

    /// The entity with a number among all entities of the file.
    pub fn unpack_ref(&self, flat: FlatEntityRef) -> (r: EntityKind)
        requires
            self.fits(),
            flat.id() < self.total(),
        ensures
            self.has(r),
            self.flat(r) == flat.id(),
    {
        let mut id: u32 = flat.as_u32();
        if id < self.functions {
            return EntityKind::Function(FunctionRef::from_u32(id));
        }
        id = id - self.functions;
        if id < self.globals {
            return EntityKind::Global(GlobalRef::from_u32(id));
        }
        id = id - self.globals;
        if id < self.tables {
            return EntityKind::Table(TableRef::from_u32(id));
        }
        id = id - self.tables;
        if id < self.memories {
            return EntityKind::Memory(MemoryRef::from_u32(id));
        }
        id = id - self.memories;
        if id < self.tags {
            return EntityKind::Tag(TagRef::from_u32(id));
        }
        id = id - self.tags;
        if id < self.data_symbols {
            return EntityKind::DataSymbol(DataSymbolRef::from_u32(id));
        }
        id = id - self.data_symbols;
        EntityKind::Type(FnTypeRef::from_u32(id))
    }
}

/// Different entities of a file have different numbers.
pub proof fn lemma_flat_injective(snapshot: EntitiesSnapshot, a: EntityKind, b: EntityKind)
    requires
        snapshot.has(a),
        snapshot.has(b),
        snapshot.flat(a) == snapshot.flat(b),
    ensures
        a == b,
{
}

/// The snapshots of several files.
#[derive(Debug)]
pub struct MultiSnapshot {
    files: Vec<EntitiesSnapshot>,
}

impl View for MultiSnapshot {
    type V = Seq<EntitiesSnapshot>;

    closed spec fn view(&self) -> Seq<EntitiesSnapshot> {
        self.files@
    }
}

/// Number of entities of some files.
pub open spec fn files_total(files: Seq<EntitiesSnapshot>) -> int
    decreases files.len(),
{
    if files.len() == 0 {
        0
    } else {
        files_total(files.drop_last()) + files.last().total()
    }
}

proof fn lemma_files_total(files: Seq<EntitiesSnapshot>, k: int)
    requires
        0 <= k <= files.len(),
    ensures
        0 <= files_total(files.take(k)) <= files_total(files),
        k < files.len() ==> files_total(files.take(k)) + files[k].total() <= files_total(files),
        k < files.len() ==> files_total(files.take(k + 1)) == files_total(files.take(k))
            + files[k].total(),
    decreases files.len(),
{
    if k < files.len() {
        assert(files.take(k + 1).drop_last() =~= files.take(k));
        if k < files.len() - 1 {
            lemma_files_total(files.drop_last(), k);
            assert(files.drop_last().take(k) =~= files.take(k));
        } else {
            assert(files.take(k) =~= files.drop_last());
            lemma_files_total(files.drop_last(), k);
            assert(files.drop_last().take(k) =~= files.drop_last());
        }
    } else {
        assert(files.take(k) =~= files);
        if files.len() > 0 {
            lemma_files_total(files.drop_last(), k - 1);
        }
    }
}

impl MultiSnapshot {
    /// Whether all entities of all files have an index.
    pub open spec fn fits(&self) -> bool {
        files_total(self@) < u32::MAX
    }

    /// Whether a file has an entity.
    pub open spec fn has(&self, location: EntityLocation) -> bool {
        location.file_id.id() < self@.len() && self@[location.file_id.id() as int].has(
            location.entity,
        )
    }

    /// The number of an entity among the entities of all files.
    pub open spec fn flat(&self, location: EntityLocation) -> int {
        files_total(self@.take(location.file_id.id() as int)) + self@[location.file_id.id() as int].flat(
            location.entity,
        )
    }

    pub fn new(files: Vec<EntitiesSnapshot>) -> (r: Self)
        ensures
            r@ == files@,
    {
        MultiSnapshot { files }
    }

    /// Number of entities of all files.
    pub fn total(&self) -> (r: u32)
        requires
            self.fits(),
        ensures
            r == files_total(self@),
    {
        let ghost files = self@;
        let mut total: u32 = 0;
        let mut i: usize = 0;
        assert(files.take(0) =~= Seq::<EntitiesSnapshot>::empty());
        while i < self.files.len()
            invariant
                i <= files.len(),
                files == self@,
                files_total(files) < u32::MAX,
                total == files_total(files.take(i as int)),
            decreases files.len() - i,
        {
            proof {
                lemma_files_total(files, i as int);
                lemma_files_total(files, i + 1);
            }
            let s = &self.files[i];
            total = total + s.functions + s.globals + s.tables + s.memories + s.tags
                + s.data_symbols + s.types;
            i = i + 1;
        }
        assert(files.take(i as int) =~= files);
        total
    }

    /// The snapshot of a file.
    pub fn file_snapshot(&self, file_id: FileId) -> (r: &EntitiesSnapshot)
        requires
            file_id.id() < self@.len(),
        ensures
            *r == self@[file_id.id() as int],
    {
        &self.files[file_id.index()]
    }

    /// Whether a file has an entity.
    pub fn contains(&self, location: EntityLocation) -> (r: bool)
        ensures
            r == self.has(location),
    {
        let file: usize = location.file_id.index();
        if file >= self.files.len() {
            return false;
        }
        let counts = &self.files[file];
        let count: u32 = match location.entity {
            EntityKind::Function(_) => counts.functions,
            EntityKind::Global(_) => counts.globals,
            EntityKind::Table(_) => counts.tables,
            EntityKind::Memory(_) => counts.memories,
            EntityKind::Tag(_) => counts.tags,
            EntityKind::DataSymbol(_) => counts.data_symbols,
            EntityKind::Type(_) => counts.types,
        };
        location.entity.to_inner_u32() < count
    }

    /// The number of an entity among the entities of all files.
    pub fn pack_ref(&self, location: EntityLocation) -> (r: FlatEntityRef)
        requires
            self.fits(),
            self.has(location),
        ensures
            r.id() == self.flat(location),
    {
        let ghost files = self@;
        let file: usize = location.file_id.index();
        let mut base: u32 = 0;
        let mut i: usize = 0;
        assert(files.take(0) =~= Seq::<EntitiesSnapshot>::empty());
        while i < file
            invariant
                i <= file < files.len(),
                files == self@,
                files_total(files) < u32::MAX,
                base == files_total(files.take(i as int)),
            decreases file - i,
        {
            proof {
                lemma_files_total(files, i as int);
                lemma_files_total(files, i + 1);
            }
            let s = &self.files[i];
            base = base + s.functions + s.globals + s.tables + s.memories + s.tags + s.data_symbols
                + s.types;
            i = i + 1;
        }
        proof {
            lemma_files_total(files, file as int);
        }
        FlatEntityRef::from_u32(base + self.files[file].pack_ref(location.entity).as_u32())
    }

    /// The entity with a number among the entities of all files.
    pub fn unpack_ref(&self, flat: FlatEntityRef) -> (r: EntityLocation)
        requires
            self.fits(),
            flat.id() < files_total(self@),
            self@.len() < u32::MAX,
        ensures
            self.has(r),
            self.flat(r) == flat.id(),
    {
        let ghost files = self@;
        let mut id: u32 = flat.as_u32();
        let mut i: usize = 0;
        assert(files.take(0) =~= Seq::<EntitiesSnapshot>::empty());
        loop
            invariant
                i < files.len() || id + files_total(files.take(i as int)) < files_total(
                    files.take(i as int),
                ),
                i <= files.len(),
                files == self@,
                files.len() < u32::MAX,
                files_total(files) < u32::MAX,
                flat.id() < files_total(files),
                id + files_total(files.take(i as int)) == flat.id(),
            decreases files.len() - i,
        {
            proof {
                lemma_files_total(files, i as int);
                lemma_files_total(files, i + 1);
            }
            let s = &self.files[i];
            let total: u32 = s.functions + s.globals + s.tables + s.memories + s.tags
                + s.data_symbols + s.types;
            if id < total {
                return EntityLocation {
                    file_id: FileId::new(i),
                    entity: s.unpack_ref(FlatEntityRef::from_u32(id)),
                };
            }
            id = id - total;
            i = i + 1;
            assert(files.take(files.len() as int) =~= files);
        }
    }
}

/// Different entities of files have different numbers.
pub proof fn lemma_multi_flat_injective(
    snapshot: MultiSnapshot,
    a: EntityLocation,
    b: EntityLocation,
)
    requires
        snapshot.has(a),
        snapshot.has(b),
        snapshot.flat(a) == snapshot.flat(b),
    ensures
        a == b,
{
    let files = snapshot@;
    let i = a.file_id.id() as int;
    let j = b.file_id.id() as int;
    if i < j {
        lemma_files_total(files.take(j), i);
        assert(files.take(j).take(i) =~= files.take(i));
    } else if j < i {
        lemma_files_total(files.take(i), j);
        assert(files.take(i).take(j) =~= files.take(j));
    } else {
        lemma_flat_injective(files[i], a.entity, b.entity);
    }
}

} // verus!
