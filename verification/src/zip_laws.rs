//! Laws of zip extraction.

use crate::archive_dir::{normal_components, only_normal, resolution, resolution_can_be};
use crate::archive_laws::{
    climbs, law_above_leads_inside, law_accepted_names, law_entry_lands_below_directory,
    law_resolution_follows_disk, law_resolved_entry_leads_inside, leads_inside,
    lemma_everything_is_under_nothing,
};
use crate::disk_laws::{law_safe_entries_are_resolved, links_lead_inside};
use crate::error::SpecError;
use crate::path::FsPath;
use crate::path_byte_laws::spells_dot_dot;
use crate::path_laws::law_parent_is_parent;
use crate::path_text::{components, is_absolute, join, parent, starts_with};
use crate::seq_lemmas::lemma_front_remains;
use crate::walk::LinkStatus;
use crate::walk_laws::{answers_from, Disk};
use crate::zip::{
    entry_operations, is_text, names_directory, resolved_operations, zip_plan, zip_plan_can_be,
    NameEncoding, SpecZipOperation, ZipEntry,
};
use vstd::prelude::*;
use vstd::utf8::valid_utf8;

verus! {

/// An entry is planned the one way that the disk dictates.
pub proof fn law_plan_follows_disk<F: Fn(&FsPath) -> LinkStatus>(
    directory: Seq<u8>,
    entry: ZipEntry,
    probe: F,
    disk: Disk,
    plan: Result<Seq<SpecZipOperation>, SpecError>,
)
    requires
        answers_from(probe, disk),
        zip_plan_can_be(directory, entry, probe, plan),
    ensures
        plan == zip_plan(directory, entry, disk),
{
    let name = entry.filename@;
    if is_text(name, entry.encoding) {
        let resolved = choose|resolved: Result<Option<Seq<u8>>, SpecError>|
            {
                &&& #[trigger] resolution_can_be(directory, name, probe, resolved)
                &&& plan == resolved_operations(entry, resolved)
            };
        law_resolution_follows_disk(directory, name, probe, disk, resolved);
    }
}

/// The path that an operation writes to.
pub open spec fn operation_path(operation: SpecZipOperation) -> Seq<u8> {
    match operation {
        SpecZipOperation::CreateDirAll(path) => path,
        SpecZipOperation::CreateFile(path) => path,
        SpecZipOperation::CopyContents(path) => path,
        SpecZipOperation::SetPermissions(path, _) => path,
    }
}

/// Whether an operation keeps to `directory` on `disk`: the path it writes to leads inside,
/// or it only sees to it that the directory, or one above it, is there.
pub open spec fn keeps_to(operation: SpecZipOperation, directory: Seq<u8>, disk: Disk) -> bool {
    ||| leads_inside(directory, operation_path(operation), disk)
    ||| operation is CreateDirAll && starts_with(directory, operation_path(operation))
}

/// Whether all of `operations` keep to `directory` on `disk`.
pub open spec fn all_keep_to(
    operations: Seq<SpecZipOperation>,
    directory: Seq<u8>,
    disk: Disk,
) -> bool {
    forall|i: int| 0 <= i < operations.len() ==> keeps_to(#[trigger] operations[i], directory, disk)
}

/// An entry whose name is absolute or climbs is passed over, whatever the disk holds.
pub proof fn law_traversal_entry_is_skipped(directory: Seq<u8>, entry: ZipEntry, disk: Disk)
    requires
        is_text(entry.filename@, entry.encoding),
        is_absolute(entry.filename@) || climbs(entry.filename@),
    ensures
        zip_plan(directory, entry, disk) == Ok::<Seq<SpecZipOperation>, SpecError>(
            seq![],
        ),
{
    law_accepted_names(entry.filename@);
}

/// The parent of what an entry is resolved to leads inside, or lies above the directory.
proof fn lemma_parent_keeps_to(directory: Seq<u8>, target: Seq<u8>, above: Seq<u8>, disk: Disk)
    requires
        leads_inside(directory, target, disk),
        parent(target) == Some(above),
    ensures
        leads_inside(directory, above, disk) || starts_with(directory, above),
{
    law_parent_is_parent(target);
    let (base, upper, whole) = (components(directory), components(above), components(target));
    assert(upper == whole.drop_last());
    assert(upper =~= whole.subrange(0, upper.len() as int));
    if base.len() < whole.len() {
        assert(base =~= upper.subrange(0, base.len() as int)) by {
            assert(base =~= whole.subrange(0, base.len() as int));
        }
        law_above_leads_inside(directory, target, above, disk);
    } else {
        assert(base =~= whole);
        assert(upper =~= base.subrange(0, upper.len() as int));
    }
}

/// Whatever the name of an entry and whatever the disk holds, all that is written for the
/// entry is led to a place inside the directory. Only a directory that stands above, for an
/// entry that would take the place of the directory itself, is created where it is missing.
pub proof fn law_operations_stay_inside(directory: Seq<u8>, entry: ZipEntry, disk: Disk)
    ensures
        zip_plan(directory, entry, disk) matches Ok(operations) ==> all_keep_to(
            operations,
            directory,
            disk,
        ),
{
    let name = entry.filename@;
    if is_text(name, entry.encoding) {
        law_resolved_entry_leads_inside(directory, name, disk);
        if let Ok(Some(target)) = resolution(directory, name, disk) {
            if let Some(above) = parent(target) {
                lemma_parent_keeps_to(directory, target, above, disk);
            }
            lemma_operations_keep_to(
                directory,
                target,
                names_directory(name),
                entry.spec_permissions(),
                disk,
            );
        }
    }
}

/// The operations for an entry keep to the directory if its path and its parent do.
proof fn lemma_operations_keep_to(
    directory: Seq<u8>,
    target: Seq<u8>,
    is_directory: bool,
    permissions: Option<u16>,
    disk: Disk,
)
    requires
        leads_inside(directory, target, disk),
        parent(target) matches Some(above) ==> leads_inside(directory, above, disk) || starts_with(
            directory,
            above,
        ),
    ensures
        entry_operations(target, is_directory, permissions) matches Ok(operations) ==> all_keep_to(
            operations,
            directory,
            disk,
        ),
{
}

/// An entry with a name of its own has nothing created above the directory.
pub proof fn law_named_entry_stays_below(directory: Seq<u8>, entry: ZipEntry, disk: Disk)
    requires
        normal_components(components(entry.filename@)).len() > 0,
    ensures
        zip_plan(directory, entry, disk) matches Ok(operations) ==> forall|i: int|
            0 <= i < operations.len() ==> leads_inside(
                directory,
                operation_path(#[trigger] operations[i]),
                disk,
            ),
{
    let name = entry.filename@;
    law_operations_stay_inside(directory, entry, disk);
    if is_text(name, entry.encoding) {
        law_resolved_entry_leads_inside(directory, name, disk);
        if let Ok(Some(target)) = resolution(directory, name, disk) {
            if let Some(above) = parent(target) {
                lemma_parent_is_still_inside(directory, name);
                law_parent_is_parent(target);
                let (upper, whole) = (components(above), components(target));
                assert(upper =~= whole.subrange(0, upper.len() as int));
                law_above_leads_inside(directory, target, above, disk);
            }
        }
    }
}

/// The parent of an entry with a name of its own is still inside the directory.
proof fn lemma_parent_is_still_inside(directory: Seq<u8>, name: Seq<u8>)
    requires
        only_normal(components(name)),
        normal_components(components(name)).len() > 0,
    ensures
        parent(join(directory, name)) matches Some(above) ==> starts_with(above, directory),
{
    let target = join(directory, name);
    if let Some(above) = parent(target) {
        law_parent_is_parent(target);
        if directory.len() > 0 {
            law_entry_lands_below_directory(directory, name);
            lemma_front_remains(
                components(directory),
                normal_components(components(name)),
            );
        } else {
            assert(directory =~= Seq::<u8>::empty());
            lemma_everything_is_under_nothing(above);
        }
    }
}

/// A file is created before it is filled, and filled before its permissions are set; its
/// parent directory comes first of all.
pub proof fn law_file_operations_are_ordered(target: Seq<u8>, permissions: Option<u16>)
    ensures
        match entry_operations(target, false, permissions) {
            Err(error) => parent(target) is None,
            Ok(operations) => {
                &&& parent(target) == Some(operation_path(operations[0]))
                &&& operations[0] is CreateDirAll
                &&& operations[1] == SpecZipOperation::CreateFile(target)
                &&& operations[2] == SpecZipOperation::CopyContents(target)
                &&& operations.len() == if permissions is Some && permissions->0 != 0 {
                    4int
                } else {
                    3int
                }
                &&& operations.len() == 4 ==> operations[3] == SpecZipOperation::SetPermissions(
                    target,
                    permissions->0 as u32,
                )
            },
        },
{
}

/// A directory is created and nothing else is done for it, whatever permissions it has. A
/// file needs a parent; with one, the parent is created, then the file is created and
/// filled, and permissions are set last, exactly if some are given and not all are clear.
pub proof fn law_operations_for_a_place(target: Seq<u8>, permissions: Option<u16>)
    ensures
        entry_operations(target, true, permissions) == Ok::<Seq<SpecZipOperation>, SpecError>(
            seq![SpecZipOperation::CreateDirAll(target)],
        ),
        match parent(target) {
            None => entry_operations(target, false, permissions) == Err::<
                Seq<SpecZipOperation>,
                SpecError,
            >(SpecError::NoParentDirectory { path: target }),
            Some(above) => {
                &&& entry_operations(target, false, permissions) matches Ok(operations)
                &&& operations.len() >= 3
                &&& operations[0] == SpecZipOperation::CreateDirAll(above)
                &&& operations[1] == SpecZipOperation::CreateFile(target)
                &&& operations[2] == SpecZipOperation::CopyContents(target)
                &&& match permissions {
                    Some(mode) => if mode == 0 {
                        operations.len() == 3
                    } else {
                        &&& operations.len() == 4
                        &&& operations[3] == SpecZipOperation::SetPermissions(
                            target,
                            mode as u32,
                        )
                    },
                    None => operations.len() == 3,
                }
            },
        },
{
}

/// The permissions of an entry are the upper sixteen bits of its external file attribute.
/// An entry without the attribute has none.
pub proof fn law_permissions_are_the_upper_half(entry: ZipEntry)
    ensures
        match entry.external_file_attribute {
            Some(attribute) => {
                &&& entry.spec_permissions() matches Some(mode)
                &&& mode as int == attribute as int / 65536
            },
            None => entry.spec_permissions() is None,
        },
{
    if let Some(attribute) = entry.external_file_attribute {
        assert((attribute >> 16) as u16 == attribute / 65536) by (bit_vector);
    }
}

/// An entry whose name is not marked as UTF-8, or is not UTF-8, is refused for its name. One
/// that goes nowhere has nothing done for it, and one that is refused its place is refused
/// with the same error.
pub proof fn law_name_and_place_come_first(directory: Seq<u8>, entry: ZipEntry, disk: Disk)
    ensures
        entry.encoding == NameEncoding::Raw || !valid_utf8(entry.filename@) ==> zip_plan(
            directory,
            entry,
            disk,
        ) == Err::<Seq<SpecZipOperation>, SpecError>(SpecError::EntryName),
        entry.encoding == NameEncoding::Utf8 && valid_utf8(entry.filename@) ==> match resolution(
            directory,
            entry.filename@,
            disk,
        ) {
            Ok(None) => zip_plan(directory, entry, disk) == Ok::<
                Seq<SpecZipOperation>,
                SpecError,
            >(seq![]),
            Ok(Some(_)) => true,
            Err(error) => zip_plan(directory, entry, disk) == Err::<
                Seq<SpecZipOperation>,
                SpecError,
            >(error),
        },
{
}

/// An entry that is resolved, and whose name ends in a separator, yields exactly the
/// creation of that directory.
pub proof fn law_directory_entry_is_created(directory: Seq<u8>, entry: ZipEntry, disk: Disk)
    requires
        entry.encoding == NameEncoding::Utf8,
        valid_utf8(entry.filename@),
        resolution(directory, entry.filename@, disk) matches Ok(Some(_)),
        entry.filename@.len() > 0,
        entry.filename@.last() == 47,
    ensures
        zip_plan(directory, entry, disk) == Ok::<Seq<SpecZipOperation>, SpecError>(
            seq![SpecZipOperation::CreateDirAll(join(directory, entry.filename@))],
        ),
{
}

/// An entry that is resolved, and whose name does not end in a separator, is written as a
/// file at its place, with the permissions of the entry.
pub proof fn law_file_entry_is_written(directory: Seq<u8>, entry: ZipEntry, disk: Disk)
    requires
        entry.encoding == NameEncoding::Utf8,
        valid_utf8(entry.filename@),
        resolution(directory, entry.filename@, disk) matches Ok(Some(_)),
        entry.filename@.len() == 0 || entry.filename@.last() != 47,
    ensures
        ({
            let target = join(directory, entry.filename@);
            match parent(target) {
                None => zip_plan(directory, entry, disk) == Err::<
                    Seq<SpecZipOperation>,
                    SpecError,
                >(SpecError::NoParentDirectory { path: target }),
                Some(above) => {
                    &&& zip_plan(directory, entry, disk) matches Ok(operations)
                    &&& operations.len() >= 3
                    &&& operations[0] == SpecZipOperation::CreateDirAll(above)
                    &&& operations[1] == SpecZipOperation::CreateFile(target)
                    &&& operations[2] == SpecZipOperation::CopyContents(target)
                    &&& match entry.external_file_attribute {
                        Some(attribute) => if attribute < 65536 {
                            operations.len() == 3
                        } else {
                            &&& operations.len() == 4
                            &&& operations[3] is SetPermissions
                            &&& operations[3]->SetPermissions_0 == target
                            &&& operations[3]->SetPermissions_1 as int == attribute as int / 65536
                        },
                        None => operations.len() == 3,
                    }
                },
            }
        }),
{
    law_operations_for_a_place(join(directory, entry.filename@), entry.spec_permissions());
    law_permissions_are_the_upper_half(entry);
}

/// Where every symlink under the directory leads to a place under it, each entry with a
/// safe name is extracted: a directory is created, and for a file that has a parent, the
/// file is created and filled.
pub proof fn law_safe_entries_are_extracted(directory: Seq<u8>, entry: ZipEntry, disk: Disk)
    requires
        links_lead_inside(directory, disk),
        entry.encoding == NameEncoding::Utf8,
        valid_utf8(entry.filename@),
        !(entry.filename@.len() > 0 && entry.filename@[0] == 47),
        !spells_dot_dot(entry.filename@),
    ensures
        ({
            let (name, target) = (entry.filename@, join(directory, entry.filename@));
            if name.len() > 0 && name.last() == 47 {
                zip_plan(directory, entry, disk) == Ok::<Seq<SpecZipOperation>, SpecError>(
                    seq![SpecZipOperation::CreateDirAll(target)],
                )
            } else if parent(target) is Some {
                &&& zip_plan(directory, entry, disk) matches Ok(operations)
                &&& operations.contains(SpecZipOperation::CreateFile(target))
                &&& operations.contains(SpecZipOperation::CopyContents(target))
            } else {
                zip_plan(directory, entry, disk) is Err
            }
        }),
{
    let name = entry.filename@;
    law_safe_entries_are_resolved(directory, name, disk);
    if name.len() > 0 && name.last() == 47 {
        law_directory_entry_is_created(directory, entry, disk);
    } else {
        law_file_entry_is_written(directory, entry, disk);
        if let Ok(operations) = zip_plan(directory, entry, disk) {
            assert(operations.contains(operations[1]));
            assert(operations.contains(operations[2]));
        }
    }
}

} // verus!
