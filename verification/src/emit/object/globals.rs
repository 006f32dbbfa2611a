//! Globals of output modules.
use crate::emit::object::{GetInputRef, OutputMapType};
use crate::typed::duplicate::Duplicate;
use crate::typed::module::DefinedGlobal as InputGlobal;
use crate::typed::types::{GlobalType, ValType};
use crate::typed::GlobalRef;
use vstd::prelude::*;

verus! {

/// A global that an output module imports.
#[allow(inconsistent_fields)]
#[derive(Debug)]
pub enum GlobalImport {
    /// As the input module does.
    Existing {
        global_name: String,
        module_name: String,
        input_global_id: GlobalRef,
        global_type: GlobalType,
    },
    /// From another output module, or from the loader.
    New { input_global_id: Option<GlobalRef>, global_name: String, global_type: GlobalType },
}

/// A global that an output module defines.
#[derive(Debug)]
pub enum DefinedGlobal {
    /// A copy of one of the input module.
    PlainCopy { global: InputGlobal, input_global_id: GlobalRef },
    /// A new one, which holds zero.
    WithConstructor(GlobalType),
}

impl GetInputRef<GlobalRef> for DefinedGlobal {
    open spec fn input_index(&self) -> OutputMapType<GlobalRef> {
        match *self {
            DefinedGlobal::PlainCopy { input_global_id, .. } => OutputMapType::BidirectionalMap(
                input_global_id,
            ),
            DefinedGlobal::WithConstructor(_) => OutputMapType::Unmapped,
        }
    }

    fn get_input_index(&self) -> (r: OutputMapType<GlobalRef>) {
        match self {
            DefinedGlobal::PlainCopy { input_global_id, .. } => OutputMapType::BidirectionalMap(
                *input_global_id,
            ),
            DefinedGlobal::WithConstructor(_) => OutputMapType::Unmapped,
        }
    }
}

impl GetInputRef<GlobalRef> for GlobalImport {
    open spec fn input_index(&self) -> OutputMapType<GlobalRef> {
        match *self {
            GlobalImport::Existing { input_global_id, .. } => OutputMapType::BidirectionalMap(
                input_global_id,
            ),
            GlobalImport::New { input_global_id, .. } => match input_global_id {
                Some(id) => OutputMapType::BidirectionalMap(id),
                None => OutputMapType::Unmapped,
            },
        }
    }

    fn get_input_index(&self) -> (r: OutputMapType<GlobalRef>) {
        match self {
            GlobalImport::Existing { input_global_id, .. } => OutputMapType::BidirectionalMap(
                *input_global_id,
            ),
            GlobalImport::New { input_global_id, .. } => match input_global_id {
                Some(id) => OutputMapType::BidirectionalMap(*id),
                None => OutputMapType::Unmapped,
            },
        }
    }
}

/// The type of a global that holds a base: a constant of 32 bits.
pub open spec fn base_type() -> GlobalType {
    GlobalType { content_type: ValType::I32, mutable: false, shared: false }
}

/// Whether an import is that of a base under a name.
pub open spec fn is_base(import: GlobalImport, name: Seq<char>) -> bool {
    import matches GlobalImport::New { input_global_id, global_name, global_type }
        && input_global_id is None && global_name@ == name && global_type == base_type()
}

impl GlobalImport {
    /// The import of a base under a name.
    pub fn base(name: String) -> (r: Self)
        ensures
            is_base(r, name@),
    {
        GlobalImport::New {
            input_global_id: None,
            global_name: name,
            global_type: GlobalType { content_type: ValType::I32, mutable: false, shared: false },
        }
    }
}

} // verus!
