//! Resolution of symbols by their names.
use crate::typed::{EntityKind, FileId};
use vstd::prelude::*;

verus! {

/// How a symbol competes with others of the same name.
#[derive(Clone, Copy, Debug, PartialEq, Eq, Structural)]
pub enum SymbolBinding {
    Weak,
    Local,
    Default,
}

/// The entity that a name stands for.
#[derive(Clone, Copy, Debug, PartialEq, Eq, Structural)]
pub struct SymbolRecord {
    pub file: FileId,
    pub chosen_entity: EntityKind,
    pub binding: SymbolBinding,
    pub visible: bool,
    pub no_strip: bool,
}

/// A table of symbol names. No name occurs twice.
#[derive(Debug)]
pub struct NameResolver {
    names: Vec<(String, SymbolRecord)>,
}

impl View for NameResolver {
    type V = Map<Seq<char>, SymbolRecord>;

    closed spec fn view(&self) -> Map<Seq<char>, SymbolRecord> {
        Map::new(
            |name: Seq<char>| exists|i: int| 0 <= i < self.names@.len() && self.names@[i].0@ == name,
            |name: Seq<char>|
                {
                    let i = choose|i: int|
                        0 <= i < self.names@.len() && self.names@[i].0@ == name;
                    self.names@[i].1
                },
        )
    }
}

impl NameResolver {
    pub closed spec fn wf(&self) -> bool {
        forall|i: int, j: int|
            #![trigger self.names@[i], self.names@[j]]
            0 <= i < j < self.names@.len() ==> self.names@[i].0@ != self.names@[j].0@
    }

    pub fn new() -> (r: Self)
        ensures
            r.wf(),
            r@ == Map::<Seq<char>, SymbolRecord>::empty(),
    {
        let r = NameResolver { names: Vec::new() };
        assert(r@ =~= Map::<Seq<char>, SymbolRecord>::empty());
        r
    }

    /// The record of a name.
    pub fn get(&self, name: &str) -> (r: Option<SymbolRecord>)
        requires
            self.wf(),
        ensures
            r == if self@.contains_key(name@) {
                Some(self@[name@])
            } else {
                None
            },
    {
        let wanted: String = name.to_owned();
        let mut i: usize = 0;
        while i < self.names.len()
            invariant
                i <= self.names@.len(),
                self.wf(),
                wanted@ == name@,
                forall|j: int| 0 <= j < i ==> (#[trigger] self.names@[j]).0@ != name@,
            decreases self.names@.len() - i,
        {
            if self.names[i].0 == wanted {
                proof {
                    let k = choose|k: int|
                        0 <= k < self.names@.len() && self.names@[k].0@ == name@;
                    assert(self.names@[i as int].0@ == name@);
                    assert(k == i) by {
                        if k < i {
                            assert(self.names@[k].0@ != self.names@[i as int].0@);
                        } else if i < k {
                            assert(self.names@[i as int].0@ != self.names@[k].0@);
                        }
                    }
                }
                return Some(self.names[i].1);
            }
            i = i + 1;
        }
        None
    }
}

} // verus!
