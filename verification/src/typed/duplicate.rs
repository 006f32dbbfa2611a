//! Copies of entities.
use crate::emit::modify::Rewrite;
use crate::layouts::data::ItemType;
use crate::typed::body::{
    bits_of, bitset_clone, rewritten, rewritten_end, EntityBody, EntityBodyCopy,
};
use crate::typed::entities::{DefinedEntity, ImportOrDefined, ImportedEntity};
use crate::typed::types::{FuncType, GlobalType, MemoryType, TableType, TagType};
use core::ops::Range;
use vstd::prelude::*;

verus! {

/// Values that can be copied.
pub trait Duplicate: Sized {
    /// Whether a value is a copy of this one.
    spec fn same_as(&self, other: &Self) -> bool;

    fn duplicate(&self) -> (r: Self)
        ensures
            self.same_as(&r),
    ;
}

impl Duplicate for FuncType {
    open spec fn same_as(&self, other: &Self) -> bool {
        self.params@ == other.params@ && self.results@ == other.results@
    }

    fn duplicate(&self) -> (r: Self) {
        FuncType { params: copy_vec(&self.params), results: copy_vec(&self.results) }
    }
}

impl Duplicate for GlobalType {
    open spec fn same_as(&self, other: &Self) -> bool {
        *self == *other
    }

    fn duplicate(&self) -> (r: Self) {
        *self
    }
}

impl Duplicate for TableType {
    open spec fn same_as(&self, other: &Self) -> bool {
        *self == *other
    }

    fn duplicate(&self) -> (r: Self) {
        *self
    }
}

impl Duplicate for MemoryType {
    open spec fn same_as(&self, other: &Self) -> bool {
        *self == *other
    }

    fn duplicate(&self) -> (r: Self) {
        *self
    }
}

impl Duplicate for TagType {
    open spec fn same_as(&self, other: &Self) -> bool {
        *self == *other
    }

    fn duplicate(&self) -> (r: Self) {
        *self
    }
}

impl Duplicate for ItemType {
    open spec fn same_as(&self, other: &Self) -> bool {
        *self == *other
    }

    fn duplicate(&self) -> (r: Self) {
        *self
    }
}

impl Duplicate for () {
    open spec fn same_as(&self, other: &Self) -> bool {
        true
    }

    fn duplicate(&self) -> (r: Self) {
        ()
    }
}

fn copy_vec<T: Copy>(items: &Vec<T>) -> (r: Vec<T>)
    ensures
        r@ == items@,
{
    let mut result: Vec<T> = Vec::new();
    let mut i: usize = 0;
    while i < items.len()
        invariant
            i <= items@.len(),
            result@ == items@.take(i as int),
        decreases items@.len() - i,
    {
        result.push(items[i]);
        i = i + 1;
        assert(result@ =~= items@.take(i as int));
    }
    assert(items@.take(i as int) =~= items@);
    result
}

fn copy_texts(items: &Vec<String>) -> (r: Vec<String>)
    ensures
        r@ == items@,
{
    let mut result: Vec<String> = Vec::new();
    let mut i: usize = 0;
    while i < items.len()
        invariant
            i <= items@.len(),
            result@ == items@.take(i as int),
        decreases items@.len() - i,
    {
        result.push(items[i].clone());
        i = i + 1;
        assert(result@ =~= items@.take(i as int));
    }
    assert(items@.take(i as int) =~= items@);
    result
}

impl Duplicate for Rewrite {
    open spec fn same_as(&self, other: &Self) -> bool {
        &&& self.old_range == other.old_range
        &&& self.new_bytes@ == other.new_bytes@
        &&& self.new_relocs@ == other.new_relocs@
    }

    fn duplicate(&self) -> (r: Self) {
        Rewrite {
            old_range: Range { start: self.old_range.start, end: self.old_range.end },
            new_bytes: copy_vec(&self.new_bytes),
            new_relocs: copy_vec(&self.new_relocs),
        }
    }
}

impl Duplicate for EntityBody {
    open spec fn same_as(&self, other: &Self) -> bool {
        match (*self, *other) {
            (EntityBody::Copied(a), EntityBody::Copied(b)) => {
                &&& a.bytes@ == b.bytes@
                &&& a.original_range == b.original_range
                &&& a.fixups@.len() == b.fixups@.len()
                &&& forall|i: int|
                    0 <= i < a.fixups@.len() ==> (#[trigger] a.fixups@[i]).same_as(&b.fixups@[i])
                &&& bits_of(a.filtered_relocs) == bits_of(b.filtered_relocs)
            },
            (
                EntityBody::New { new_relocs: a, new_bytes: x },
                EntityBody::New { new_relocs: b, new_bytes: y },
            ) => a@ == b@ && x@ == y@,
            _ => false,
        }
    }

    fn duplicate(&self) -> (r: Self) {
        match self {
            EntityBody::New { new_relocs, new_bytes } => EntityBody::New {
                new_relocs: copy_vec(new_relocs),
                new_bytes: copy_vec(new_bytes),
            },
            EntityBody::Copied(copy) => {
                let mut fixups: Vec<Rewrite> = Vec::new();
                let mut i: usize = 0;
                while i < copy.fixups.len()
                    invariant
                        i <= copy.fixups@.len(),
                        fixups@.len() == i,
                        forall|j: int|
                            0 <= j < i ==> (#[trigger] copy.fixups@[j]).same_as(&fixups@[j]),
                    decreases copy.fixups@.len() - i,
                {
                    fixups.push(copy.fixups[i].duplicate());
                    i = i + 1;
                }
                EntityBody::Copied(
                    EntityBodyCopy {
                        bytes: copy_vec(&copy.bytes),
                        original_range: Range {
                            start: copy.original_range.start,
                            end: copy.original_range.end,
                        },
                        fixups,
                        filtered_relocs: bitset_clone(&copy.filtered_relocs),
                    },
                )
            },
        }
    }
}

proof fn lemma_same_rewritten(bytes: Seq<u8>, a: Seq<Rewrite>, b: Seq<Rewrite>)
    requires
        a.len() == b.len(),
        forall|i: int| 0 <= i < a.len() ==> (#[trigger] a[i]).same_as(&b[i]),
    ensures
        rewritten(bytes, a) == rewritten(bytes, b),
        rewritten_end(a) == rewritten_end(b),
    decreases a.len(),
{
    if a.len() > 0 {
        assert(a[a.len() - 1].same_as(&b[b.len() - 1]));
        assert forall|i: int| 0 <= i < a.len() - 1 implies (
        #[trigger] a.drop_last()[i]).same_as(&b.drop_last()[i]) by {
            assert(a[i].same_as(&b[i]));
        }
        lemma_same_rewritten(bytes, a.drop_last(), b.drop_last());
    }
}

/// A duplicate of a body has the same bytes.
pub proof fn lemma_same_body(a: EntityBody, b: EntityBody)
    requires
        a.same_as(&b),
    ensures
        a.emitted() == b.emitted(),
{
    if let (EntityBody::Copied(x), EntityBody::Copied(y)) = (a, b) {
        lemma_same_rewritten(x.bytes@, x.fixups@, y.fixups@);
    }
}

impl<T: Duplicate> Duplicate for ImportedEntity<T> {
    open spec fn same_as(&self, other: &Self) -> bool {
        &&& self.module == other.module
        &&& self.name == other.name
        &&& self.entity_type.same_as(&other.entity_type)
        &&& self.export_as@ == other.export_as@
    }

    fn duplicate(&self) -> (r: Self) {
        ImportedEntity {
            module: self.module.clone(),
            name: self.name.clone(),
            entity_type: self.entity_type.duplicate(),
            export_as: copy_texts(&self.export_as),
        }
    }
}

impl<T: Duplicate> Duplicate for DefinedEntity<T> {
    open spec fn same_as(&self, other: &Self) -> bool {
        &&& self.entity_type.same_as(&other.entity_type)
        &&& self.name == other.name
        &&& self.export_as@ == other.export_as@
        &&& self.body.same_as(&other.body)
    }

    fn duplicate(&self) -> (r: Self) {
        DefinedEntity {
            entity_type: self.entity_type.duplicate(),
            name: match &self.name {
                Some(name) => Some(name.clone()),
                None => None,
            },
            export_as: copy_texts(&self.export_as),
            body: self.body.duplicate(),
        }
    }
}

/// Whether an entity is a copy of another one.
pub open spec fn same_entity<I: Duplicate, D: Duplicate>(
    a: ImportOrDefined<I, D>,
    b: ImportOrDefined<I, D>,
) -> bool {
    match (a, b) {
        (ImportOrDefined::Import(x), ImportOrDefined::Import(y)) => x.same_as(&y),
        (ImportOrDefined::Defined(x), ImportOrDefined::Defined(y)) => x.same_as(&y),
        (ImportOrDefined::External(x), ImportOrDefined::External(y)) => x.same_as(&y),
        _ => false,
    }
}

impl<I: Duplicate, D: Duplicate> ImportOrDefined<&I, &D> {
    /// A copy of the entity.
    pub fn cloned(&self) -> (r: ImportOrDefined<I, D>)
        ensures
            match *self {
                ImportOrDefined::Import(x) => same_entity(ImportOrDefined::Import(*x), r),
                ImportOrDefined::Defined(x) => same_entity(ImportOrDefined::Defined(*x), r),
                ImportOrDefined::External(x) => same_entity(ImportOrDefined::External(*x), r),
            },
    {
        match self {
            ImportOrDefined::Import(x) => ImportOrDefined::Import(x.duplicate()),
            ImportOrDefined::Defined(x) => ImportOrDefined::Defined(x.duplicate()),
            ImportOrDefined::External(x) => ImportOrDefined::External(x.duplicate()),
        }
    }
}

} // verus!
