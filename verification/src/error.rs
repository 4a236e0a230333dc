//! What can go wrong while an archive is prepared and extracted.

use crate::path::{Component, FsPath};
use crate::path_text::SpecComponent;
use vstd::prelude::*;

verus! {

/// Why an archive operation was refused.
#[derive(Debug, PartialEq, Eq)]
pub enum ArchiveError {
    /// The directory could not be created.
    CreateDirectory { path: FsPath },
    /// The directory was created but could not be canonicalized.
    CanonicalizeDirectory { path: FsPath },
    /// The path does not lie under the directory.
    NotUnderDirectory { path: FsPath, directory: FsPath },
    /// The path goes through something that is not a name.
    UnexpectedComponent { component: Component, path: FsPath },
    /// The symlink could not be canonicalized.
    CanonicalizeSymlink { location: FsPath },
    /// The symlink leads out of the directory.
    SymlinkOutside { location: FsPath, resolved: FsPath, directory: FsPath },
    /// The name of a zip entry is not text.
    EntryName,
    /// Whether a zip entry is a directory cannot be told.
    EntryMetadata { path: FsPath },
    /// A file has no directory to stand in.
    NoParentDirectory { path: FsPath },
    /// The path of a tar directory entry cannot be read.
    DirectoryEntryPath,
    /// What was downloaded is not what was expected.
    DigestMismatch { url: String, expected: String, actual: String },
}

/// What an [`ArchiveError`] says.
pub enum SpecError {
    CreateDirectory { path: Seq<u8> },
    CanonicalizeDirectory { path: Seq<u8> },
    NotUnderDirectory { path: Seq<u8>, directory: Seq<u8> },
    UnexpectedComponent { component: SpecComponent, path: Seq<u8> },
    CanonicalizeSymlink { location: Seq<u8> },
    SymlinkOutside { location: Seq<u8>, resolved: Seq<u8>, directory: Seq<u8> },
    EntryName,
    EntryMetadata { path: Seq<u8> },
    NoParentDirectory { path: Seq<u8> },
    DirectoryEntryPath,
    DigestMismatch { url: Seq<char>, expected: Seq<char>, actual: Seq<char> },
}

impl View for ArchiveError {
    type V = SpecError;

    open spec fn view(&self) -> SpecError {
        match self {
            ArchiveError::CreateDirectory { path } => SpecError::CreateDirectory { path: path@ },
            ArchiveError::CanonicalizeDirectory { path } => SpecError::CanonicalizeDirectory {
                path: path@,
            },
            ArchiveError::NotUnderDirectory { path, directory } => SpecError::NotUnderDirectory {
                path: path@,
                directory: directory@,
            },
            ArchiveError::UnexpectedComponent { component, path } => {
                SpecError::UnexpectedComponent { component: component@, path: path@ }
            },
            ArchiveError::CanonicalizeSymlink { location } => SpecError::CanonicalizeSymlink {
                location: location@,
            },
            ArchiveError::SymlinkOutside { location, resolved, directory } => {
                SpecError::SymlinkOutside {
                    location: location@,
                    resolved: resolved@,
                    directory: directory@,
                }
            },
            ArchiveError::EntryName => SpecError::EntryName,
            ArchiveError::EntryMetadata { path } => SpecError::EntryMetadata { path: path@ },
            ArchiveError::NoParentDirectory { path } => SpecError::NoParentDirectory {
                path: path@,
            },
            ArchiveError::DirectoryEntryPath => SpecError::DirectoryEntryPath,
            ArchiveError::DigestMismatch { url, expected, actual } => SpecError::DigestMismatch {
                url: url@,
                expected: expected@,
                actual: actual@,
            },
        }
    }
}

/// What a result says, over the view of what it holds.
pub open spec fn result_view<T: View>(result: Result<T, ArchiveError>) -> Result<
    T::V,
    SpecError,
> {
    match result {
        Ok(value) => Ok(value@),
        Err(error) => Err(error@),
    }
}

} // verus!
