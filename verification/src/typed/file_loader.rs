//! The input files.
use crate::index::{PrimaryMap, TempIndex};
use crate::linkage::file_db::FileRelocs;
use crate::typed::module::Module;
use crate::typed::snapshot::{EntitiesSnapshot, MultiSnapshot};
use crate::typed::FileId;
use vstd::prelude::*;

verus! {

/// An input file.
#[derive(Debug)]
pub struct LoadedFile {
    pub module: Module,
    /// The relocations of the file, with offsets from its start.
    pub relocs: FileRelocs,
    /// How many entities of each kind the file has.
    pub snapshot: EntitiesSnapshot,
}

/// All input files.
#[derive(Debug)]
pub struct FileLoader {
    files: PrimaryMap<FileId, LoadedFile>,
}

impl View for FileLoader {
    type V = Seq<LoadedFile>;

    closed spec fn view(&self) -> Seq<LoadedFile> {
        self.files@
    }
}

/// How many entities of each kind the files have.
pub open spec fn snapshots(files: Seq<LoadedFile>) -> Seq<EntitiesSnapshot> {
    files.map_values(|file: LoadedFile| file.snapshot)
}

impl FileLoader {
    pub fn new() -> (r: Self)
        ensures
            r@ == Seq::<LoadedFile>::empty(),
    {
        FileLoader { files: PrimaryMap::new() }
    }

    /// Adds a file.
    pub fn add_file(&mut self, file: LoadedFile) -> (r: FileId)
        requires
            old(self)@.len() < u32::MAX,
        ensures
            r.id() == old(self)@.len(),
            final(self)@ == old(self)@.push(file),
    {
        self.files.push(file)
    }

    pub fn len(&self) -> (r: usize)
        ensures
            r == self@.len(),
    {
        self.files.len()
    }

    pub fn get_file(&self, file_id: FileId) -> (r: &LoadedFile)
        requires
            file_id.id() < self@.len(),
        ensures
            *r == self@[file_id.id() as int],
    {
        self.files.at(file_id)
    }

    /// How many entities of each kind the files have.
    pub fn get_snapshot(&self) -> (r: MultiSnapshot)
        ensures
            r@ == snapshots(self@),
    {
        let mut result: Vec<EntitiesSnapshot> = Vec::new();
        let files = self.files.as_slice();
        let mut i: usize = 0;
        while i < files.len()
            invariant
                i <= files@.len(),
                files@ == self@,
                result@ == snapshots(self@.take(i as int)),
            decreases files@.len() - i,
        {
            result.push(files[i].snapshot);
            i = i + 1;
            assert(result@ =~= snapshots(self@.take(i as int)));
        }
        assert(self@.take(i as int) =~= self@);
        MultiSnapshot::new(result)
    }
}

} // verus!
