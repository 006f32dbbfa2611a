//! The map between entities of input files and entities of an output module.
use crate::emit::relocation::EntityLocation;
use crate::typed::EntityKind;
use std::collections::HashMap;
use vstd::prelude::*;
use vstd::std_specs::iter::IteratorSpec;

verus! {

/// Where the entities of an output module come from, and where the entities of input files went.
#[derive(Debug)]
pub struct OutputEntitiesResolver {
    src_map: HashMap<u64, EntityLocation>,
    remapped_entity: HashMap<u128, (EntityLocation, EntityKind)>,
}

impl OutputEntitiesResolver {
    /// The source of each entity of the output module.
    pub closed spec fn sources(&self) -> Map<EntityKind, EntityLocation> {
        Map::new(
            |e: EntityKind| self.src_map@.contains_key(e.code_spec()),
            |e: EntityKind| self.src_map@[e.code_spec()],
        )
    }

    /// The entity of the output module for each entity of an input file.
    pub closed spec fn outputs(&self) -> Map<EntityLocation, EntityKind> {
        Map::new(
            |l: EntityLocation| self.remapped_entity@.contains_key(l.code_spec()),
            |l: EntityLocation| self.remapped_entity@[l.code_spec()].1,
        )
    }

    pub closed spec fn wf(&self) -> bool {
        forall|code: u128| #[trigger]
            self.remapped_entity@.contains_key(code) ==> self.remapped_entity@[code].0.code_spec()
                == code
    }

    pub fn new() -> (r: Self)
        ensures
            r.wf(),
            r.sources() == Map::<EntityKind, EntityLocation>::empty(),
            r.outputs() == Map::<EntityLocation, EntityKind>::empty(),
    {
        let r = OutputEntitiesResolver { src_map: HashMap::new(), remapped_entity: HashMap::new() };
        assert(r.sources() =~= Map::<EntityKind, EntityLocation>::empty());
        assert(r.outputs() =~= Map::<EntityLocation, EntityKind>::empty());
        r
    }

    /// Says that an entity of the output module is a copy of an entity of an input file.
    pub fn add_entity_mapping(&mut self, src: EntityLocation, output: EntityKind)
        requires
            old(self).wf(),
        ensures
            final(self).wf(),
            final(self).sources() == old(self).sources().insert(output, src),
            final(self).outputs() == old(self).outputs().insert(src, output),
    {
        broadcast use vstd::std_specs::hash::group_hash_axioms;

        let ghost before = *self;
        let _ = self.src_map.insert(output.code(), src);
        let _ = self.remapped_entity.insert(src.code(), (src, output));
        proof {
            assert forall|e: EntityKind| e.code_spec() == output.code_spec() implies e == output by {
                EntityKind::lemma_code_injective(e, output);
            }
            assert forall|l: EntityLocation| l.code_spec() == src.code_spec() implies l == src by {
                EntityLocation::lemma_code_injective(l, src);
            }
            assert(self.sources() =~= before.sources().insert(output, src));
            assert(self.outputs() =~= before.outputs().insert(src, output));
        }
    }

    /// The entity of an input file that an entity of the output module is a copy of.
    pub fn get_entity_src(&self, output: EntityKind) -> (r: Option<EntityLocation>)
        ensures
            r == if self.sources().contains_key(output) {
                Some(self.sources()[output])
            } else {
                None
            },
    {
        broadcast use vstd::std_specs::hash::group_hash_axioms;

        let code: u64 = output.code();
        match self.src_map.get(&code) {
            Some(location) => Some(*location),
            None => None,
        }
    }

    /// The entity of the output module that is a copy of an entity of an input file.
    pub fn get_output_entity(&self, src: &EntityLocation) -> (r: Option<EntityKind>)
        ensures
            r == if self.outputs().contains_key(*src) {
                Some(self.outputs()[*src])
            } else {
                None
            },
    {
        broadcast use vstd::std_specs::hash::group_hash_axioms;

        let code: u128 = src.code();
        match self.remapped_entity.get(&code) {
            Some(mapped) => Some(mapped.1),
            None => None,
        }
    }

    /// Every mapped entity of an input file with its entity of the output module, each once.
    pub fn iter_mapped(&self) -> (r: Vec<(EntityLocation, EntityKind)>)
        requires
            self.wf(),
        ensures
            forall|i: int|
                0 <= i < r@.len() ==> self.outputs().contains_key((#[trigger] r@[i]).0)
                    && self.outputs()[r@[i].0] == r@[i].1,
            forall|l: EntityLocation| #[trigger]
                self.outputs().contains_key(l) ==> r@.contains((l, self.outputs()[l])),
            r@.no_duplicates(),
    {
        broadcast use vstd::std_specs::hash::group_hash_axioms;

        let mut result: Vec<(EntityLocation, EntityKind)> = Vec::new();
        let ghost all = self.remapped_entity@;
        let iter = self.remapped_entity.iter();
        let ghost pairs = iter.remaining();
        for entry in it: iter
            invariant
                self.wf(),
                all == self.remapped_entity@,
                it.seq() == pairs,
                result@.len() == it.index(),
                forall|i: int| 0 <= i < result@.len() ==> #[trigger] result@[i] == *pairs[i].1,
        {
            result.push(*entry.1);
        }
        proof {
            assert forall|i: int| 0 <= i < result@.len() implies self.outputs().contains_key((
            #[trigger] result@[i]).0) && self.outputs()[result@[i].0] == result@[i].1 by {
                assert(all.contains_key(*pairs[i].0));
            }
            assert forall|l: EntityLocation| #[trigger]
                self.outputs().contains_key(l) implies result@.contains((l, self.outputs()[l])) by {
                let code = l.code_spec();
                assert(all.contains_key(code));
                EntityLocation::lemma_code_injective(all[code].0, l);
                assert(pairs.contains((&code, &all[code])));
                let i = pairs.index_of((&code, &all[code]));
                assert(result@[i] == all[code]);
            }
            assert forall|i: int, j: int|
                0 <= i < j < result@.len() implies result@[i] != result@[j] by {
                assert(all.contains_key(*pairs[i].0));
                assert(all.contains_key(*pairs[j].0));
                assert(pairs[i] != pairs[j]);
            }
        }
        result
    }
}

} // verus!
