//! Extracting a zip archive, one entry after the other.

use crate::archive_dir::ArchiveDir;
use crate::error::{ArchiveError, SpecError};
use crate::path::FsPath;
use crate::walk::LinkStatus;
use crate::walk_laws::{answers_from, Disk};
use crate::zip::{
    operation_views, plan_view, zip_plan, zip_plan_can_be, SpecZipOperation, ZipEntry,
    ZipOperation,
};
use vstd::prelude::*;

verus! {

/// An extraction of a zip archive. It hands out what is to be done for one entry at a time,
/// and looks at an entry only when its turn has come.
#[derive(Debug)]
pub struct ZipExtraction {
    directory: ArchiveDir,
    entries: Vec<ZipEntry>,
    next: usize,
}

/// What a [`ZipExtraction`] stands for.
pub struct SpecZipExtraction {
    /// The directory that is extracted into.
    pub directory: Seq<u8>,
    /// The entries of the archive.
    pub entries: Seq<ZipEntry>,
    /// The number of the entry whose turn it is; past the last one, the extraction is over.
    pub next: nat,
}

impl View for ZipExtraction {
    type V = SpecZipExtraction;

    closed spec fn view(&self) -> SpecZipExtraction {
        SpecZipExtraction {
            directory: self.directory@,
            entries: self.entries@,
            next: self.next as nat,
        }
    }
}

/// What is to be done for one entry.
#[derive(Debug, PartialEq, Eq)]
pub struct ZipStep {
    /// The number of the entry in the archive.
    pub entry: usize,
    /// What is to be done, in this order.
    pub operations: Vec<ZipOperation>,
}

/// What a [`ZipStep`] stands for.
pub struct SpecZipStep {
    pub entry: nat,
    pub operations: Seq<SpecZipOperation>,
}

impl View for ZipStep {
    type V = SpecZipStep;

    open spec fn view(&self) -> SpecZipStep {
        SpecZipStep { entry: self.entry as nat, operations: operation_views(self.operations@) }
    }
}

/// What is said of the next entry: what is to be done for it, that there is none, or that
/// the archive is refused.
pub open spec fn step_view(step: Result<Option<ZipStep>, ArchiveError>) -> Result<
    Option<SpecZipStep>,
    SpecError,
> {
    match step {
        Ok(Some(step)) => Ok(Some(step@)),
        Ok(None) => Ok(None),
        Err(error) => Err(error@),
    }
}

impl SpecZipExtraction {
    /// Whether there is no entry left.
    pub open spec fn is_over(self) -> bool {
        self.next >= self.entries.len()
    }

    /// What is said once the next entry has been planned as `plan`, and where the
    /// extraction then stands. An error ends it.
    pub open spec fn planned(self, plan: Result<Seq<SpecZipOperation>, SpecError>) -> (
        Result<Option<SpecZipStep>, SpecError>,
        SpecZipExtraction,
    ) {
        match plan {
            Ok(operations) => (
                Ok(Some(SpecZipStep { entry: self.next, operations })),
                SpecZipExtraction { next: self.next + 1, ..self },
            ),
            Err(error) => (
                Err(error),
                SpecZipExtraction { next: self.entries.len(), ..self },
            ),
        }
    }

    /// What is said of the next entry on `disk`, and where the extraction then stands.
    pub open spec fn step(self, disk: Disk) -> (
        Result<Option<SpecZipStep>, SpecError>,
        SpecZipExtraction,
    ) {
        if self.is_over() {
            (Ok(None), self)
        } else {
            self.planned(zip_plan(self.directory, self.entries[self.next as int], disk))
        }
    }

    /// Whether `step` can be said of the next entry, and the extraction then stand at
    /// `after`, with `probe` to tell what stands at every location.
    pub open spec fn step_can_be<F: Fn(&FsPath) -> LinkStatus>(
        self,
        probe: F,
        step: Result<Option<SpecZipStep>, SpecError>,
        after: SpecZipExtraction,
    ) -> bool {
        if self.is_over() {
            (step, after) == (Ok::<Option<SpecZipStep>, SpecError>(None), self)
        } else {
            exists|plan: Result<Seq<SpecZipOperation>, SpecError>|
                {
                    &&& #[trigger] zip_plan_can_be(
                        self.directory,
                        self.entries[self.next as int],
                        probe,
                        plan,
                    )
                    &&& (step, after) == self.planned(plan)
                }
        }
    }
}

impl ArchiveDir {
    /// Begins to extract a zip archive with these entries into the directory.
    pub fn begin_zip(&self, entries: Vec<ZipEntry>) -> (extraction: ZipExtraction)
        ensures
            extraction@ == (SpecZipExtraction {
                directory: self@,
                entries: entries@,
                next: 0,
            }),
    {
        let directory = ArchiveDir::new(self.path().clone(), None);
        ZipExtraction { directory, entries, next: 0 }
    }
}

impl ZipExtraction {
    /// Says what is to be done for the next entry, if there is one. `probe` tells what
    /// stands at a location.
    pub fn next_entry<F: Fn(&FsPath) -> LinkStatus>(&mut self, probe: F) -> (step: Result<
        Option<ZipStep>,
        ArchiveError,
    >)
        requires
            forall|asked: &FsPath| #[trigger] call_requires(probe, (asked,)),
        ensures
            old(self)@.step_can_be(probe, step_view(step), final(self)@),
            forall|disk: Disk| #[trigger]
                answers_from(probe, disk) ==> (step_view(step), final(self)@) == old(self)@.step(
                    disk,
                ),
    {
        if self.next >= self.entries.len() {
            return Ok(None);
        }
        let entry: usize = self.next;
        let ghost asked = probe;
        let plan = self.directory.plan_zip_entry(&self.entries[entry], probe);
        assert(zip_plan_can_be(
            self@.directory,
            self@.entries[entry as int],
            asked,
            plan_view(plan),
        ));
        match plan {
            Ok(operations) => {
                self.next = entry + 1;
                Ok(Some(ZipStep { entry, operations }))
            },
            Err(error) => {
                self.next = self.entries.len();
                Err(error)
            },
        }
    }
}

} // verus!
