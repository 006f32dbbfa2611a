//! Regions of an input file that belong to the entities of its module.
use crate::index::{entries, lemma_entry_is_slot, slot_at, TempIndex};
use crate::layouts::data::DataSymbolRef;
use crate::linkage::file_db::Regions;
use crate::typed::body::EntityBody;
use crate::typed::module::Module;
use crate::typed::FunctionRef;
use core::ops::Range;
use vstd::prelude::*;

verus! {

/// The place of a body in its input file. A new body has none.
pub open spec fn original_place(body: EntityBody) -> (int, int) {
    match body {
        EntityBody::Copied(copy) => (
            copy.original_range.start as int,
            copy.original_range.end as int,
        ),
        EntityBody::New { .. } => (0, 0),
    }
}

impl EntityBody {
    /// The place of the body in its input file. A new body has none.
    pub fn original_range(&self) -> (r: Range<usize>)
        ensures
            (r.start as int, r.end as int) == original_place(*self),
    {
        match self {
            EntityBody::Copied(copy) => Range {
                start: copy.original_range.start,
                end: copy.original_range.end,
            },
            EntityBody::New { .. } => Range { start: 0, end: 0 },
        }
    }
}

/// Whether regions are those of the entities of a module.
pub open spec fn are_regions(module: Module, regions: Regions) -> bool {
    let functions = module.functions@;
    let layout = module.extra.mem_layout;
    let places = entries(layout.defined@);
    &&& regions.0@.len() == functions.defined.len()
    &&& forall|i: int|
        #![trigger regions.0@[i]]
        0 <= i < regions.0@.len() ==> {
            let (range, function) = regions.0@[i];
            &&& function.id() == functions.imports.len() + i
            &&& (range.start as int, range.end as int) == original_place(functions.defined[i].body)
        }
    &&& regions.1@.len() == places.len()
    &&& forall|i: int|
        #![trigger regions.1@[i]]
        0 <= i < regions.1@.len() ==> {
            let (range, data) = regions.1@[i];
            &&& data.id() == places[i].0
            &&& (range.start as int, range.end as int) == original_place(
                layout.chunk_at(places[i].1).body,
            )
        }
}

/// The regions of the functions and the data symbols of a module.
pub fn build_regions(input: &Module) -> (r: Regions)
    requires
        input.functions@.len() < u32::MAX,
        input.extra.mem_layout.wf(),
    ensures
        are_regions(*input, r),
{
    let layout = &input.extra.mem_layout;
    let mut code_owners: Vec<(Range<usize>, FunctionRef)> = Vec::new();
    let mut data_owners: Vec<(Range<usize>, DataSymbolRef)> = Vec::new();
    let functions = input.functions.defined_iter();
    let mut i: usize = 0;
    while i < functions.len()
        invariant
            i <= functions@.len() == input.functions@.defined.len(),
            forall|j: int|
                0 <= j < functions@.len() ==> (#[trigger] functions@[j]).0.id()
                    == input.functions@.imports.len() + j && *functions@[j].1
                    == input.functions@.defined[j],
            code_owners@.len() == i,
            forall|j: int|
                #![trigger code_owners@[j]]
                0 <= j < i ==> {
                    let (range, function) = code_owners@[j];
                    &&& function.id() == input.functions@.imports.len() + j
                    &&& (range.start as int, range.end as int) == original_place(
                        input.functions@.defined[j].body,
                    )
                },
        decreases functions@.len() - i,
    {
        code_owners.push((functions[i].1.body.original_range(), functions[i].0));
        i = i + 1;
    }
    let places = layout.item_places().iter();
    let ghost all = entries(layout.defined@);
    let mut k: usize = 0;
    while k < places.len()
        invariant
            k <= places@.len() == all.len(),
            all == entries(layout.defined@),
            layout.wf(),
            forall|j: int|
                0 <= j < places@.len() ==> (#[trigger] places@[j]).0.id() == all[j].0
                    && *places@[j].1 == all[j].1,
            data_owners@.len() == k,
            forall|j: int|
                #![trigger data_owners@[j]]
                0 <= j < k ==> {
                    let (range, data) = data_owners@[j];
                    &&& data.id() == all[j].0
                    &&& (range.start as int, range.end as int) == original_place(
                        layout.chunk_at(all[j].1).body,
                    )
                },
        decreases places@.len() - k,
    {
        let place = places[k].1;
        proof {
            layout.defined.lemma_len();
            lemma_entry_is_slot(layout.defined@, k as int);
            assert(slot_at(layout.defined@, all[k as int].0 as nat) is Some);
        }
        let chunk = &layout.segments.at(place.segment_id).parts.at(place.part_id).defined_entity;
        data_owners.push((chunk.body.original_range(), places[k].0));
        k = k + 1;
    }
    (code_owners, data_owners)
}

} // verus!
