//! How modules are called, and which of them share a part.
use crate::analysis::split_point::{
    is_dep_of, is_part, module_text, shared_text, ModuleName, SplitName,
};
use vstd::prelude::*;

verus! {

/// The name of a part is the names of the modules that share it, with underscores between them.
pub proof fn lemma_shared_names_are_joined(a: Seq<ModuleName>, b: Seq<ModuleName>)
    requires
        a.len() > 0,
        b.len() > 0,
    ensures
        shared_text(a + b) == shared_text(a) + "_"@ + shared_text(b),
    decreases b.len(),
{
    let all = a + b;
    assert(all.last() == b.last());
    if b.len() == 1 {
        assert(all.drop_last() =~= a);
    } else {
        let init = b.drop_last();
        assert(all.drop_last() =~= a + init);
        lemma_shared_names_are_joined(a, init);
        assert(shared_text(all) =~= shared_text(a) + "_"@ + shared_text(b));
    }
}

/// A part that one module has to itself is called like that module: by its name, or as the main
/// module.
pub proof fn lemma_single_name(name: ModuleName)
    ensures
        match name {
            Some(text) => shared_text(seq![name]) == text,
            None => shared_text(seq![name]) == "main"@,
        },
{
}

/// A module depends on the parts that it shares. A part depends on the other parts that all its
/// modules share.
pub proof fn lemma_dependencies(name: SplitName, shared: Seq<ModuleName>)
    ensures
        match name {
            SplitName::Single(module) => is_dep_of(name)(shared) <==> shared.contains(module),
            SplitName::Shared(modules) => is_dep_of(name)(shared) <==> modules != shared && forall|
                i: int,
            |
                0 <= i < modules.len() ==> shared.contains(#[trigger] modules[i]),
        },
{
}

} // verus!
