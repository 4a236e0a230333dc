//! What is written for an entry of a zip archive.

use crate::archive_dir::{resolution, resolution_can_be, resolved_view, ArchiveDir};
use crate::error::{ArchiveError, SpecError};
use crate::path::FsPath;
use crate::path_text::{parent, SEPARATOR};
use crate::walk::LinkStatus;
use crate::walk_laws::{answers_from, Disk};
use async_zip::error::ZipError;
use vstd::prelude::*;
use vstd::utf8::{encode_utf8, valid_utf8};

verus! {

/// The error of the zip reader.
#[verifier::external_type_specification]
#[verifier::external_body]
pub struct ExZipError(async_zip::error::ZipError);

/// How an archive says that an entry's name is encoded.
#[derive(Clone, Copy, Debug, PartialEq, Eq, Structural)]
pub enum NameEncoding {
    Utf8,
    Raw,
}

/// An entry of a zip archive.
#[derive(Debug)]
pub struct ZipEntry {
    /// The name as it stands in the archive.
    pub filename: Vec<u8>,
    /// The encoding of the name.
    pub encoding: NameEncoding,
    /// The external file attribute, where the archive was read from its central directory.
    pub external_file_attribute: Option<u32>,
}

/// Something to do on disk for an entry.
#[derive(Debug, PartialEq, Eq)]
pub enum ZipOperation {
    /// Create the directory and those above it.
    CreateDirAll(FsPath),
    /// Create the file.
    CreateFile(FsPath),
    /// Copy the contents of the entry into the file.
    CopyContents(FsPath),
    /// Set the permissions of the file.
    SetPermissions(FsPath, u32),
}

/// What a [`ZipOperation`] stands for.
pub enum SpecZipOperation {
    CreateDirAll(Seq<u8>),
    CreateFile(Seq<u8>),
    CopyContents(Seq<u8>),
    SetPermissions(Seq<u8>, u32),
}

impl View for ZipOperation {
    type V = SpecZipOperation;

    open spec fn view(&self) -> SpecZipOperation {
        match self {
            ZipOperation::CreateDirAll(path) => SpecZipOperation::CreateDirAll(path@),
            ZipOperation::CreateFile(path) => SpecZipOperation::CreateFile(path@),
            ZipOperation::CopyContents(path) => SpecZipOperation::CopyContents(path@),
            ZipOperation::SetPermissions(path, mode) => SpecZipOperation::SetPermissions(
                path@,
                *mode,
            ),
        }
    }
}

/// What a list of operations stands for.
pub open spec fn operation_views(operations: Seq<ZipOperation>) -> Seq<SpecZipOperation> {
    operations.map_values(|operation: ZipOperation| operation@)
}

/// What a planned entry says.
pub open spec fn plan_view(plan: Result<Vec<ZipOperation>, ArchiveError>) -> Result<
    Seq<SpecZipOperation>,
    SpecError,
> {
    match plan {
        Ok(operations) => Ok(operation_views(operations@)),
        Err(error) => Err(error@),
    }
}

/// Whether a name can be read as text.
pub open spec fn is_text(filename: Seq<u8>, encoding: NameEncoding) -> bool {
    encoding == NameEncoding::Utf8 && valid_utf8(filename)
}

/// Whether a name is that of a directory: it ends in a separator.
pub open spec fn names_directory(filename: Seq<u8>) -> bool {
    filename.len() > 0 && filename.last() == SEPARATOR
}

/// The permissions that an external file attribute holds: its upper half.
pub open spec fn permission_bits(external_file_attribute: u32) -> u16 {
    (external_file_attribute >> 16) as u16
}

impl ZipEntry {
    /// The permissions that the archive gives for the entry, if it gives any.
    pub open spec fn spec_permissions(self) -> Option<u16> {
        match self.external_file_attribute {
            Some(attribute) => Some(permission_bits(attribute)),
            None => None,
        }
    }
}

/// What is done for an entry that goes to `target`. A directory is created. A file is
/// created in its parent directory and filled, and gets the permissions that are given for
/// it unless they are all clear.
pub open spec fn entry_operations(
    target: Seq<u8>,
    directory: bool,
    permissions: Option<u16>,
) -> Result<Seq<SpecZipOperation>, SpecError> {
    if directory {
        Ok(seq![SpecZipOperation::CreateDirAll(target)])
    } else {
        match parent(target) {
            None => Err(SpecError::NoParentDirectory { path: target }),
            Some(above) => Ok(
                seq![
                    SpecZipOperation::CreateDirAll(above),
                    SpecZipOperation::CreateFile(target),
                    SpecZipOperation::CopyContents(target),
                ] + match permissions {
                    Some(mode) => if mode != 0 {
                        seq![SpecZipOperation::SetPermissions(target, mode as u32)]
                    } else {
                        seq![]
                    },
                    None => seq![],
                },
            ),
        }
    }
}

/// What is done for `entry` once its name, which is text, has been resolved: nothing for
/// an entry that goes nowhere.
pub open spec fn resolved_operations(
    entry: ZipEntry,
    resolved: Result<Option<Seq<u8>>, SpecError>,
) -> Result<Seq<SpecZipOperation>, SpecError> {
    match resolved {
        Err(error) => Err(error),
        Ok(None) => Ok(seq![]),
        Ok(Some(target)) => entry_operations(
            target,
            names_directory(entry.filename@),
            entry.spec_permissions(),
        ),
    }
}

/// What is done for `entry` on `disk`.
pub open spec fn zip_plan(directory: Seq<u8>, entry: ZipEntry, disk: Disk) -> Result<
    Seq<SpecZipOperation>,
    SpecError,
> {
    if is_text(entry.filename@, entry.encoding) {
        resolved_operations(entry, resolution(directory, entry.filename@, disk))
    } else {
        Err(SpecError::EntryName)
    }
}

/// Whether planning `entry`, with `probe` to tell what stands at every location, can end in
/// `plan`.
pub open spec fn zip_plan_can_be<F: Fn(&FsPath) -> LinkStatus>(
    directory: Seq<u8>,
    entry: ZipEntry,
    probe: F,
    plan: Result<Seq<SpecZipOperation>, SpecError>,
) -> bool {
    if is_text(entry.filename@, entry.encoding) {
        exists|resolved: Result<Option<Seq<u8>>, SpecError>|
            {
                &&& #[trigger] resolution_can_be(directory, entry.filename@, probe, resolved)
                &&& plan == resolved_operations(entry, resolved)
            }
    } else {
        plan == Err::<Seq<SpecZipOperation>, SpecError>(SpecError::EntryName)
    }
}

/// The name of an entry as text: `async_zip::ZipString::as_str`, on the string that
/// `ZipString::new` makes of the bytes and their encoding. It succeeds exactly for a name
/// that is marked as UTF-8 and is UTF-8, and hands out the same bytes as text.
#[verifier::external_body]
fn zip_name(filename: &Vec<u8>, encoding: NameEncoding) -> (name: Result<String, ZipError>)
    ensures
        name is Ok <==> is_text(filename@, encoding),
        name matches Ok(text) ==> encode_utf8(text@) == filename@,
{
    let encoding = match encoding {
        NameEncoding::Utf8 => async_zip::StringEncoding::Utf8,
        NameEncoding::Raw => async_zip::StringEncoding::Raw,
    };
    let name = async_zip::ZipString::new(filename.clone(), encoding);
    name.as_str().map(|text| text.to_owned())
}

/// Whether an entry is a directory: `async_zip::ZipEntry::dir`, on an entry with this name.
/// It fails for a name that is not text, and tells otherwise whether the name ends in `/`.
#[verifier::external_body]
fn zip_is_dir(filename: &Vec<u8>, encoding: NameEncoding) -> (directory: Result<bool, ZipError>)
    ensures
        directory is Ok <==> is_text(filename@, encoding),
        directory matches Ok(answer) ==> answer == names_directory(filename@),
{
    let encoding = match encoding {
        NameEncoding::Utf8 => async_zip::StringEncoding::Utf8,
        NameEncoding::Raw => async_zip::StringEncoding::Raw,
    };
    let name = async_zip::ZipString::new(filename.clone(), encoding);
    async_zip::ZipEntryBuilder::new(name, async_zip::Compression::Stored).build().dir()
}

/// The permissions of an entry: `async_zip::ZipEntry::unix_permissions`, on an entry with
/// this external file attribute. Every entry is made on Unix as far as `async_zip` is
/// concerned, so there always are some: the upper half of the attribute.
#[verifier::external_body]
fn zip_unix_permissions(external_file_attribute: u32) -> (permissions: Option<u16>)
    ensures
        permissions == Some(permission_bits(external_file_attribute)),
{
    let name = async_zip::ZipString::from(String::new());
    async_zip::ZipEntryBuilder::new(name, async_zip::Compression::Stored)
        .external_file_attribute(external_file_attribute)
        .build()
        .unix_permissions()
}

impl ZipEntry {
    /// The permissions that the archive gives for the entry, if it gives any.
    pub fn permissions(&self) -> (permissions: Option<u16>)
        ensures
            permissions == self.spec_permissions(),
    {
        match self.external_file_attribute {
            Some(attribute) => zip_unix_permissions(attribute),
            None => None,
        }
    }
}

/// Lists what is to be done for an entry that goes to `target`.
pub fn plan_entry(target: FsPath, directory: bool, permissions: Option<u16>) -> (plan: Result<
    Vec<ZipOperation>,
    ArchiveError,
>)
    ensures
        plan_view(plan) == entry_operations(target@, directory, permissions),
{
    let mut operations: Vec<ZipOperation> = Vec::new();
    if directory {
        operations.push(ZipOperation::CreateDirAll(target));
    } else {
        let above = match target.parent() {
            Some(above) => above,
            None => {
                return Err(ArchiveError::NoParentDirectory { path: target });
            },
        };
        operations.push(ZipOperation::CreateDirAll(above));
        operations.push(ZipOperation::CreateFile(target.clone()));
        operations.push(ZipOperation::CopyContents(target.clone()));
        if let Some(mode) = permissions {
            if mode != 0 {
                operations.push(ZipOperation::SetPermissions(target, mode as u32));
            }
        }
    }
    assert(operation_views(operations@) =~= entry_operations(
        target@,
        directory,
        permissions,
    )->Ok_0);
    Ok(operations)
}

impl ArchiveDir {
    /// Lists what is to be done to extract `entry`. `probe` tells what stands at a
    /// location.
    pub fn plan_zip_entry<F: Fn(&FsPath) -> LinkStatus>(
        &self,
        entry: &ZipEntry,
        probe: F,
    ) -> (plan: Result<Vec<ZipOperation>, ArchiveError>)
        requires
            forall|asked: &FsPath| #[trigger] call_requires(probe, (asked,)),
        ensures
            zip_plan_can_be(self@, *entry, probe, plan_view(plan)),
            forall|disk: Disk| #[trigger]
                answers_from(probe, disk) ==> plan_view(plan) == zip_plan(self@, *entry, disk),
    {
        let name = match zip_name(&entry.filename, entry.encoding) {
            Ok(name) => name,
            Err(_) => {
                return Err(ArchiveError::EntryName);
            },
        };
        let ghost asked = probe;
        let resolved = self.resolve_entry(name.as_str(), probe);
        let ghost decision = resolved_view(resolved);
        assert(resolution_can_be(self@, entry.filename@, asked, decision));
        let target = match resolved {
            Ok(Some(target)) => target,
            Ok(None) => {
                let operations: Vec<ZipOperation> = Vec::new();
                assert(operation_views(operations@) =~= seq![]);
                return Ok(operations);
            },
            Err(error) => {
                return Err(error);
            },
        };
        let directory = match zip_is_dir(&entry.filename, entry.encoding) {
            Ok(directory) => directory,
            Err(_) => {
                return Err(ArchiveError::EntryMetadata { path: target });
            },
        };
        plan_entry(target, directory, entry.permissions())
    }
}

} // verus!
