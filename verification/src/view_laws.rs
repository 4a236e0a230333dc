//! What the values that the library hands out stand for: nothing that they hold is lost or
//! confused in what the contracts say of them.

use crate::archive_dir::{resolved_view, verdict_view};
use crate::error::{result_view, ArchiveError, SpecError};
use crate::folding_ranges::{FoldingFetch, FoldingRefresh, RefreshStep, SpecRefreshStep};
use crate::path::FsPath;
use crate::tar::path_views;
use crate::walk::{LinkStatus, SpecLinkStatus, SpecStep, WalkStep};
use crate::zip::{operation_views, plan_view, SpecZipOperation, ZipOperation};
use crate::zip_extraction::{step_view, ZipStep};
use vstd::prelude::*;

verus! {

/// An error stands for the error of the same name, with all that it holds in its place.
pub proof fn law_errors_stand_for_what_they_hold(
    path: FsPath,
    other: FsPath,
    third: FsPath,
    component: crate::path::Component,
    url: String,
    expected: String,
    actual: String,
)
    ensures
        (ArchiveError::CreateDirectory { path })@ == (SpecError::CreateDirectory { path: path@ }),
        (ArchiveError::CanonicalizeDirectory { path })@ == (SpecError::CanonicalizeDirectory {
            path: path@,
        }),
        (ArchiveError::NotUnderDirectory { path, directory: other })@
            == (SpecError::NotUnderDirectory { path: path@, directory: other@ }),
        (ArchiveError::UnexpectedComponent { component, path })@
            == (SpecError::UnexpectedComponent { component: component@, path: path@ }),
        (ArchiveError::CanonicalizeSymlink { location: path })@
            == (SpecError::CanonicalizeSymlink { location: path@ }),
        (ArchiveError::SymlinkOutside { location: path, resolved: other, directory: third })@
            == (SpecError::SymlinkOutside {
            location: path@,
            resolved: other@,
            directory: third@,
        }),
        ArchiveError::EntryName@ == SpecError::EntryName,
        (ArchiveError::EntryMetadata { path })@ == (SpecError::EntryMetadata { path: path@ }),
        (ArchiveError::NoParentDirectory { path })@ == (SpecError::NoParentDirectory {
            path: path@,
        }),
        ArchiveError::DirectoryEntryPath@ == SpecError::DirectoryEntryPath,
        (ArchiveError::DigestMismatch { url, expected, actual })@ == (SpecError::DigestMismatch {
            url: url@,
            expected: expected@,
            actual: actual@,
        }),
{
}

/// A result stands for success or for its error, and for what it holds.
pub proof fn law_results_stand_for_what_they_hold(
    path: FsPath,
    error: ArchiveError,
    operations: Vec<ZipOperation>,
    step: ZipStep,
)
    ensures
        result_view::<FsPath>(Ok(path)) == Ok::<Seq<u8>, SpecError>(path@),
        result_view::<FsPath>(Err(error)) == Err::<Seq<u8>, SpecError>(error@),
        verdict_view(Ok(())) is Ok,
        verdict_view(Err(error)) == Err::<(), SpecError>(error@),
        resolved_view(Ok(Some(path))) == Ok::<Option<Seq<u8>>, SpecError>(Some(path@)),
        resolved_view(Ok(None)) == Ok::<Option<Seq<u8>>, SpecError>(None),
        resolved_view(Err(error)) == Err::<Option<Seq<u8>>, SpecError>(error@),
        plan_view(Ok(operations)) matches Ok(views) && views == operation_views(operations@),
        plan_view(Err(error)) == Err::<Seq<SpecZipOperation>, SpecError>(error@),
        step_view(Ok(Some(step))) matches Ok(Some(view)) && view.entry == step.entry
            && view.operations == operation_views(step.operations@),
        step_view(Ok(None)) matches Ok(None),
        step_view(Err(error)) matches Err(said) && said == error@,
{
}

/// A list stands for what each of its items stands for, in order: none is left out and none
/// is added.
pub proof fn law_lists_stand_for_every_item(operations: Seq<ZipOperation>, paths: Seq<FsPath>)
    ensures
        operation_views(operations).len() == operations.len(),
        forall|i: int|
            0 <= i < operations.len() ==> (#[trigger] operation_views(operations)[i])
                == match operations[i] {
                ZipOperation::CreateDirAll(path) => SpecZipOperation::CreateDirAll(path@),
                ZipOperation::CreateFile(path) => SpecZipOperation::CreateFile(path@),
                ZipOperation::CopyContents(path) => SpecZipOperation::CopyContents(path@),
                ZipOperation::SetPermissions(path, mode) => SpecZipOperation::SetPermissions(
                    path@,
                    mode,
                ),
            },
        path_views(paths).len() == paths.len(),
        forall|i: int| 0 <= i < paths.len() ==> (#[trigger] path_views(paths)[i]) == paths[i]@,
{
}

/// What is said of a symlink, where a walk has got to, and what becomes of a refresh each
/// stand for the case of the same name, with what it holds.
pub proof fn law_cases_stand_for_what_they_hold(
    path: FsPath,
    walk: crate::walk::SymlinkWalk,
    refresh: FoldingRefresh,
    fetch: FoldingFetch,
)
    ensures
        LinkStatus::NotSymlink@ == SpecLinkStatus::NotSymlink,
        LinkStatus::Unresolved@ == SpecLinkStatus::Unresolved,
        LinkStatus::Resolved(path)@ == SpecLinkStatus::Resolved(path@),
        WalkStep::Probe(walk)@ == SpecStep::Probe(walk@),
        WalkStep::Contained(path)@ == SpecStep::Contained(path@),
        RefreshStep::Wait(refresh)@ == SpecRefreshStep::Wait(refresh@),
        RefreshStep::Stop@ == SpecRefreshStep::Stop,
        RefreshStep::Fetch(fetch)@ == SpecRefreshStep::Fetch(fetch@),
{
}

} // verus!
