//! Writing of all output modules.
use crate::emit::generate::{can_generate, is_layout_of, is_writable, module_bytes, GenerateError};
use crate::emit::plan::context::{output_valid, EmitContext, HexDebug};
use crate::emit::plan::definition::{OutputId, PlanError};
use crate::emit::plan::output::OutputModule;
use crate::emit::relocation::ModuleLayout;
use crate::index::{PrimaryMap, TempIndex};
use crate::typed::FileId;
use vstd::prelude::*;

verus! {

/// Whether the bytes of modules, and where their parts are, are those of output modules.
pub open spec fn are_written(
    modules: Seq<OutputModule>,
    writers: Seq<HexDebug>,
    layouts: Seq<ModuleLayout>,
) -> bool {
    &&& writers.len() == modules.len()
    &&& layouts.len() == modules.len()
    &&& forall|f: int|
        0 <= f < modules.len() ==> (#[trigger] writers[f]).0@ == module_bytes(modules[f].module)
    &&& forall|f: int|
        0 <= f < modules.len() ==> is_layout_of(modules[f].module, #[trigger] layouts[f])
}

/// Whether a context differs from another one in the bytes of its modules only, and these are not
/// relocated yet.
pub open spec fn is_laid_out(before: EmitContext<'_>, after: EmitContext<'_>) -> bool {
    &&& after == (EmitContext { writers: after.writers, layouts: after.layouts, ..before })
    &&& are_written(before.output_modules@, after.writers@, after.layouts@)
}

/// Whether all modules are written with their relocations applied.
pub open spec fn is_emitted(before: EmitContext<'_>, after: EmitContext<'_>) -> bool {
    exists|middle: EmitContext<'_>|
        {
            &&& #[trigger] is_laid_out(before, middle)
            &&& after.is_applied_from(&middle, before.output_modules@.len() as int)
        }
}

/// Why the first module that cannot be written cannot be written.
pub open spec fn write_error(modules: Seq<OutputModule>) -> Option<PlanError>
    decreases modules.len(),
{
    if modules.len() == 0 {
        None
    } else {
        match write_error(modules.drop_last()) {
            Some(error) => Some(error),
            None => if can_generate(modules.last().module) {
                None
            } else if is_writable(modules.last().module) {
                Some(PlanError::Generate(GenerateError::TooLarge))
            } else {
                Some(PlanError::Generate(GenerateError::Unwritable))
            },
        }
    }
}

proof fn lemma_write_error(modules: Seq<OutputModule>, count: int, error: PlanError)
    requires
        0 <= count <= modules.len(),
        write_error(modules.take(count)) == Some(error),
    ensures
        write_error(modules) == Some(error),
    decreases modules.len(),
{
    if count < modules.len() {
        assert(modules.drop_last().take(count) =~= modules.take(count));
        lemma_write_error(modules.drop_last(), count, error);
    } else {
        assert(modules.take(count) =~= modules);
    }
}

proof fn lemma_no_write_error(modules: Seq<OutputModule>, f: int)
    requires
        write_error(modules) is None,
        0 <= f < modules.len(),
    ensures
        can_generate(modules[f].module),
    decreases modules.len(),
{
    if f < modules.len() - 1 {
        lemma_no_write_error(modules.drop_last(), f);
    }
}

/// Whether the relocations of a module cannot be applied.
pub open spec fn cannot_emit(before: EmitContext<'_>, after: EmitContext<'_>) -> bool {
    exists|middle: EmitContext<'_>| #[trigger]
        is_laid_out(before, middle) && after.is_stuck_from(&middle)
}

/// Whether a list holds the names and bytes of the modules of a context.
pub open spec fn are_files(files: Seq<(OutputId, Vec<u8>)>, context: EmitContext<'_>) -> bool {
    &&& files.len() == context.output_names@.len()
    &&& forall|f: int|
        0 <= f < files.len() ==> (#[trigger] files[f]).0 == context.output_names@[f] && files[f].1@
            == context.writers@[f].0@
}

impl<'a> EmitContext<'a> {
    /// Whether the modules and the snapshot are well formed.
    pub open spec fn can_emit(&self) -> bool {
        &&& self.snapshot.fits()
        &&& self.output_modules@.len() < u32::MAX
        &&& forall|f: int|
            0 <= f < self.output_modules@.len() ==> (
            #[trigger] self.output_modules@[f]).module.extra.mem_layout.wf()
                && self.output_modules@[f].relocs.wf()
    }

    /// Writes all modules, and finds out where their parts are.
    pub fn build_layouts(&mut self) -> (r: Result<(), PlanError>)
        requires
            old(self).can_emit(),
        ensures
            match write_error(old(self).output_modules@) {
                Some(error) => r == Err::<(), _>(error) && *final(self) == *old(self),
                None => r is Ok && is_laid_out(*old(self), *final(self)),
            },
    {
        let ghost all = self.output_modules@;
        let mut writers: PrimaryMap<FileId, HexDebug> = PrimaryMap::new();
        let mut layouts: PrimaryMap<FileId, ModuleLayout> = PrimaryMap::new();
        let mut f: usize = 0;
        assert(all.take(0) =~= Seq::<OutputModule>::empty());
        while f < self.output_modules.len()
            invariant
                f <= self.output_modules@.len() < u32::MAX,
                *self == *old(self),
                self.can_emit(),
                all == self.output_modules@,
                write_error(all.take(f as int)) is None,
                writers@.len() == f,
                layouts@.len() == f,
                forall|g: int|
                    0 <= g < f ==> (#[trigger] writers@[g]).0@ == module_bytes(
                        self.output_modules@[g].module,
                    ),
                forall|g: int|
                    0 <= g < f ==> is_layout_of(
                        self.output_modules@[g].module,
                        #[trigger] layouts@[g],
                    ),
            decreases self.output_modules@.len() - f,
        {
            let output = self.output_modules.at(FileId::new(f));
            proof {
                assert(*output == self.output_modules@[f as int]);
                assert(self.output_modules@[f as int].module.extra.mem_layout.wf());
                assert(all.take(f + 1).drop_last() =~= all.take(f as int));
                assert(all.take(f + 1).last() == all[f as int]);
            }
            let mut writer: Vec<u8> = Vec::new();
            let layout = match output.module.generate(&mut writer) {
                Ok(layout) => layout,
                Err(error) => {
                    let error = PlanError::Generate(error);
                    proof {
                        lemma_write_error(all, f + 1, error);
                    }
                    return Err(error);
                },
            };
            assert(writer@ =~= module_bytes(output.module));
            let _ = writers.push(HexDebug(writer));
            let _ = layouts.push(layout);
            f = f + 1;
        }
        assert(all.take(f as int) =~= all);
        self.writers = writers;
        self.layouts = layouts;
        Ok(())
    }

    /// Writes all modules and applies their relocations. Returns their names and bytes.
    pub fn emit_modules(&mut self) -> (r: Result<Vec<(OutputId, Vec<u8>)>, PlanError>)
        requires
            old(self).can_emit(),
            old(self).output_names@.len() == old(self).output_modules@.len(),
        ensures
            match write_error(old(self).output_modules@) {
                Some(error) => r matches Err(e) && e == error && *final(self) == *old(self),
                None => match r {
                    Ok(files) => is_emitted(*old(self), *final(self)) && are_files(
                        files@,
                        *final(self),
                    ),
                    Err(error) => error is Unresolved && cannot_emit(*old(self), *final(self)),
                },
            },
    {
        self.build_layouts()?;
        let ghost middle = *self;
        assert(is_laid_out(*old(self), middle));
        assert forall|f: int| 0 <= f < self.output_modules@.len() implies output_valid(
            #[trigger] self.output_modules@[f],
        ) by {
            assert(old(self).output_modules@[f].relocs.wf());
            lemma_no_write_error(old(self).output_modules@, f);
        }
        match self.apply_relocs() {
            Ok(_) => {},
            Err(error) => {
                assert(cannot_emit(*old(self), *self));
                return Err(error);
            },
        }
        assert(is_emitted(*old(self), *self));
        Ok(self.list_files())
    }

    /// The names and bytes of all modules.
    fn list_files(&self) -> (r: Vec<(OutputId, Vec<u8>)>)
        requires
            self.writers@.len() == self.output_names@.len() < u32::MAX,
        ensures
            are_files(r@, *self),
    {
        let mut files: Vec<(OutputId, Vec<u8>)> = Vec::new();
        let mut f: usize = 0;
        while f < self.output_names.len()
            invariant
                f <= self.output_names@.len(),
                self.writers@.len() == self.output_names@.len() < u32::MAX,
                files@.len() == f,
                forall|g: int|
                    0 <= g < f ==> (#[trigger] files@[g]).0 == self.output_names@[g]
                        && files@[g].1@ == self.writers@[g].0@,
            decreases self.output_names@.len() - f,
        {
            let file = FileId::new(f);
            let mut bytes: Vec<u8> = Vec::new();
            bytes.extend_from_slice(self.writers.at(file).0.as_slice());
            assert(bytes@ =~= self.writers@[f as int].0@);
            files.push((self.output_names.at(file).clone(), bytes));
            f = f + 1;
        }
        files
    }
}

} // verus!
