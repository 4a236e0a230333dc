//! Laws of extracting a zip archive as a whole.

use crate::error::SpecError;
use crate::path::FsPath;
use crate::walk::LinkStatus;
use crate::walk_laws::{answers_from, Disk};
use crate::zip::{zip_plan, zip_plan_can_be, SpecZipOperation, ZipEntry};
use crate::zip_extraction::{SpecZipExtraction, SpecZipStep};
use crate::zip_laws::{all_keep_to, law_operations_stay_inside, law_plan_follows_disk};
use vstd::prelude::*;

verus! {

/// What an extraction hands out, and where it then stands, when it is asked for the next
/// entry once on each of `disks`: the disk may change from one entry to the next.
pub open spec fn extract(start: SpecZipExtraction, disks: Seq<Disk>) -> (
    Seq<SpecZipStep>,
    SpecZipExtraction,
)
    decreases disks.len(),
{
    if disks.len() == 0 {
        (seq![], start)
    } else {
        let (steps, state) = extract(start, disks.drop_last());
        let (step, after) = state.step(disks.last());
        match step {
            Ok(Some(step)) => (steps.push(step), after),
            _ => (steps, after),
        }
    }
}

/// The extraction of `entries` into `directory`, before its first entry.
pub open spec fn beginning(directory: Seq<u8>, entries: Seq<ZipEntry>) -> SpecZipExtraction {
    SpecZipExtraction { directory, entries, next: 0 }
}

/// An extraction goes on the one way that the disk dictates.
pub proof fn law_step_follows_disk<F: Fn(&FsPath) -> LinkStatus>(
    state: SpecZipExtraction,
    probe: F,
    disk: Disk,
    step: Result<Option<SpecZipStep>, SpecError>,
    after: SpecZipExtraction,
)
    requires
        answers_from(probe, disk),
        state.step_can_be(probe, step, after),
    ensures
        (step, after) == state.step(disk),
{
    if !state.is_over() {
        let entry = state.entries[state.next as int];
        let plan = choose|plan: Result<Seq<SpecZipOperation>, SpecError>|
            {
                &&& #[trigger] zip_plan_can_be(state.directory, entry, probe, plan)
                &&& (step, after) == state.planned(plan)
            };
        law_plan_follows_disk(state.directory, entry, probe, disk, plan);
    }
}

/// The entries are taken in the order of the archive, each planned on the disk as it is at
/// that time, and the first one that is refused ends the extraction.
pub proof fn law_entries_are_taken_in_order(
    directory: Seq<u8>,
    entries: Seq<ZipEntry>,
    disks: Seq<Disk>,
)
    ensures
        ({
            let (steps, after) = extract(beginning(directory, entries), disks);
            let count = steps.len() as int;
            &&& count <= disks.len()
            &&& count <= entries.len()
            &&& forall|i: int|
                0 <= i < count ==> {
                    &&& (#[trigger] steps[i]).entry == i
                    &&& zip_plan(directory, entries[i], disks[i]) == Ok::<
                        Seq<SpecZipOperation>,
                        SpecError,
                    >(steps[i].operations)
                }
            &&& count < disks.len() && count < entries.len() ==> zip_plan(
                directory,
                entries[count],
                disks[count],
            ) is Err
            &&& count < disks.len() ==> after.is_over()
            &&& count == disks.len() ==> after.next == count
            &&& (after.directory, after.entries) == (directory, entries)
        }),
    decreases disks.len(),
{
    if disks.len() > 0 {
        let front = disks.drop_last();
        law_entries_are_taken_in_order(directory, entries, front);
        let (earlier, state) = extract(beginning(directory, entries), front);
        let (steps, after) = extract(beginning(directory, entries), disks);
        assert forall|i: int| 0 <= i < steps.len() implies {
            &&& (#[trigger] steps[i]).entry == i
            &&& zip_plan(directory, entries[i], disks[i]) == Ok::<
                Seq<SpecZipOperation>,
                SpecError,
            >(steps[i].operations)
        } by {
            if i < earlier.len() {
                assert(steps[i] == earlier[i]);
                assert(disks[i] == front[i]);
            }
        }
    }
}

/// Where no entry is refused, every entry has its turn: each is handed out under its own
/// number, with what is to be done for it, and then the extraction is over.
pub proof fn law_every_entry_has_its_turn(
    directory: Seq<u8>,
    entries: Seq<ZipEntry>,
    disks: Seq<Disk>,
)
    requires
        disks.len() > entries.len(),
        forall|i: int|
            0 <= i < entries.len() ==> zip_plan(directory, #[trigger] entries[i], disks[i]) is Ok,
    ensures
        ({
            let (steps, after) = extract(beginning(directory, entries), disks);
            &&& steps.len() == entries.len()
            &&& forall|i: int|
                0 <= i < entries.len() ==> (#[trigger] steps[i]).entry == i && zip_plan(
                    directory,
                    entries[i],
                    disks[i],
                ) == Ok::<Seq<SpecZipOperation>, SpecError>(steps[i].operations)
            &&& after.is_over()
        }),
{
    law_entries_are_taken_in_order(directory, entries, disks);
    let count = extract(beginning(directory, entries), disks).0.len() as int;
    if count < entries.len() {
        assert(zip_plan(directory, entries[count], disks[count]) is Ok);
    }
}

/// Nothing is handed out after an error.
pub proof fn law_error_ends_extraction(state: SpecZipExtraction, disk: Disk, later: Disk)
    requires
        state.step(disk).0 is Err,
    ensures
        state.step(disk).1.step(later) == (
            Ok::<Option<SpecZipStep>, SpecError>(None),
            state.step(disk).1,
        ),
{
}

/// Whatever the archive holds and however the disk changes from one entry to the next, all
/// that an extraction writes for an entry keeps to the directory, on the disk as it is when
/// the entry's turn has come.
pub proof fn law_extraction_stays_inside(
    directory: Seq<u8>,
    entries: Seq<ZipEntry>,
    disks: Seq<Disk>,
)
    ensures
        forall|i: int|
            0 <= i < extract(beginning(directory, entries), disks).0.len() ==> all_keep_to(
                (#[trigger] extract(beginning(directory, entries), disks).0[i]).operations,
                directory,
                disks[i],
            ),
{
    let steps = extract(beginning(directory, entries), disks).0;
    law_entries_are_taken_in_order(directory, entries, disks);
    assert forall|i: int| 0 <= i < steps.len() implies all_keep_to(
        (#[trigger] steps[i]).operations,
        directory,
        disks[i],
    ) by {
        law_operations_stay_inside(directory, entries[i], disks[i]);
    }
}

} // verus!
