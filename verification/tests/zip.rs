use archive::archive_dir::ArchiveDir;
use archive::error::ArchiveError;
use archive::path::FsPath;
use archive::walk::LinkStatus;
use archive::zip::{plan_entry, NameEncoding, ZipEntry, ZipOperation};
use archive::zip_extraction::ZipStep;

fn path(text: &str) -> FsPath {
    FsPath::from_text(text)
}

fn directory() -> ArchiveDir {
    ArchiveDir::new(path("/work/tool"), None)
}

fn entry(name: &str, mode: Option<u16>) -> ZipEntry {
    ZipEntry {
        filename: name.as_bytes().to_vec(),
        encoding: NameEncoding::Utf8,
        external_file_attribute: mode.map(|mode| (mode as u32) << 16),
    }
}

fn no_links(_: &FsPath) -> LinkStatus {
    LinkStatus::NotSymlink
}

fn one_link(target: &'static str) -> impl Fn(&FsPath) -> LinkStatus {
    move |asked| {
        if asked == &path("/work/tool/link") {
            LinkStatus::Resolved(path(target))
        } else {
            LinkStatus::NotSymlink
        }
    }
}

fn file_operations(parent: &str, file: &str) -> Vec<ZipOperation> {
    vec![
        ZipOperation::CreateDirAll(path(parent)),
        ZipOperation::CreateFile(path(file)),
        ZipOperation::CopyContents(path(file)),
    ]
}

#[test]
fn test_extract_zip() {
    assert_eq!(
        directory().plan_zip_entry(&entry("foo/bar/baz", None), no_links),
        Ok(file_operations("/work/tool/foo/bar", "/work/tool/foo/bar/baz"))
    );
    assert_eq!(
        directory().plan_zip_entry(&entry("dir/", None), no_links),
        Ok(vec![ZipOperation::CreateDirAll(path("/work/tool/dir/"))])
    );
}

#[test]
fn test_extract_zip_preserves_executable_permissions() {
    let mut expected = file_operations("/work/tool", "/work/tool/run");
    expected.push(ZipOperation::SetPermissions(path("/work/tool/run"), 0o100755));
    assert_eq!(
        directory().plan_zip_entry(&entry("run", Some(0o100755)), no_links),
        Ok(expected)
    );
}

#[test]
fn test_extract_zip_sets_default_permissions() {
    assert_eq!(
        directory().plan_zip_entry(&entry("run", Some(0)), no_links),
        Ok(file_operations("/work/tool", "/work/tool/run"))
    );
    assert_eq!(
        directory().plan_zip_entry(&entry("run", None), no_links),
        Ok(file_operations("/work/tool", "/work/tool/run"))
    );
}

#[test]
fn permissions_are_the_upper_half() {
    assert_eq!(entry("a", Some(0o644)).permissions(), Some(0o644));
    assert_eq!(entry("a", None).permissions(), None);
    let low_half = ZipEntry {
        filename: b"a".to_vec(),
        encoding: NameEncoding::Utf8,
        external_file_attribute: Some(0xffff),
    };
    assert_eq!(low_half.permissions(), Some(0));
    let both = ZipEntry {
        filename: b"a".to_vec(),
        encoding: NameEncoding::Utf8,
        external_file_attribute: Some(0x81ed_0010),
    };
    assert_eq!(both.permissions(), Some(0x81ed));
}

#[test]
fn test_extract_zip_skips_traversal_entries_extracts_safe_entries() {
    for name in ["../outside.txt", "/absolute.txt", "nested/../../outside.txt", "../dir/"] {
        assert_eq!(directory().plan_zip_entry(&entry(name, None), no_links), Ok(vec![]));
    }
    assert_eq!(
        directory().plan_zip_entry(&entry("nested/file.txt", None), no_links),
        Ok(file_operations("/work/tool/nested", "/work/tool/nested/file.txt"))
    );
}

#[test]
fn test_extract_zip_rejects_write_through_external_symlink() {
    assert_eq!(
        directory().plan_zip_entry(&entry("link/file.txt", None), one_link("/outside")),
        Err(ArchiveError::SymlinkOutside {
            location: path("/work/tool/link"),
            resolved: path("/outside"),
            directory: path("/work/tool"),
        })
    );
}

#[test]
fn test_extract_zip_allows_write_through_internal_symlink() {
    assert_eq!(
        directory().plan_zip_entry(&entry("link/file.txt", None), one_link("/work/tool/real")),
        Ok(file_operations("/work/tool/link", "/work/tool/link/file.txt"))
    );
}

#[test]
fn names_that_are_not_text_are_refused() {
    let raw = ZipEntry {
        filename: b"file.txt".to_vec(),
        encoding: NameEncoding::Raw,
        external_file_attribute: None,
    };
    assert_eq!(directory().plan_zip_entry(&raw, no_links), Err(ArchiveError::EntryName));
    let invalid = ZipEntry {
        filename: vec![b'a', 0xff],
        encoding: NameEncoding::Utf8,
        external_file_attribute: None,
    };
    assert_eq!(directory().plan_zip_entry(&invalid, no_links), Err(ArchiveError::EntryName));
}

#[test]
fn names_beyond_ascii_are_kept() {
    assert_eq!(
        directory().plan_zip_entry(&entry("größe/文.txt", None), no_links),
        Ok(file_operations("/work/tool/größe", "/work/tool/größe/文.txt"))
    );
}

#[test]
fn a_file_needs_a_parent() {
    assert_eq!(
        plan_entry(path("/"), false, None),
        Err(ArchiveError::NoParentDirectory { path: path("/") })
    );
    assert_eq!(
        plan_entry(path(""), false, Some(0o644)),
        Err(ArchiveError::NoParentDirectory { path: path("") })
    );
    assert_eq!(
        plan_entry(path("/"), true, Some(0o644)),
        Ok(vec![ZipOperation::CreateDirAll(path("/"))])
    );
}

#[test]
fn entries_are_taken_in_order() {
    let entries = vec![entry("dir/", None), entry("../skipped", None), entry("dir/file", None)];
    let mut extraction = directory().begin_zip(entries);
    assert_eq!(
        extraction.next_entry(no_links),
        Ok(Some(ZipStep {
            entry: 0,
            operations: vec![ZipOperation::CreateDirAll(path("/work/tool/dir/"))],
        }))
    );
    assert_eq!(
        extraction.next_entry(no_links),
        Ok(Some(ZipStep { entry: 1, operations: vec![] }))
    );
    assert_eq!(
        extraction.next_entry(no_links),
        Ok(Some(ZipStep {
            entry: 2,
            operations: file_operations("/work/tool/dir", "/work/tool/dir/file"),
        }))
    );
    assert_eq!(extraction.next_entry(no_links), Ok(None));
    assert_eq!(extraction.next_entry(no_links), Ok(None));
}

#[test]
fn the_first_refused_entry_ends_the_extraction() {
    let entries = vec![entry("first", None), entry("link/second", None), entry("third", None)];
    let mut extraction = directory().begin_zip(entries);
    assert!(matches!(extraction.next_entry(one_link("/outside")), Ok(Some(_))));
    assert!(matches!(
        extraction.next_entry(one_link("/outside")),
        Err(ArchiveError::SymlinkOutside { .. })
    ));
    assert_eq!(extraction.next_entry(no_links), Ok(None));
}

#[test]
fn a_file_in_the_place_of_the_directory_creates_only_above_it() {
    for name in [".", ""] {
        let target = directory().path().join(name.as_bytes());
        assert_eq!(
            directory().plan_zip_entry(&entry(name, None), no_links),
            Ok(vec![
                ZipOperation::CreateDirAll(path("/work")),
                ZipOperation::CreateFile(target.clone()),
                ZipOperation::CopyContents(target),
            ]),
            "{name:?}"
        );
    }
}

#[test]
fn everything_that_is_written_lies_inside() {
    let names = ["a", "a/b", "./a/b", "dir/", "a/./b/", "../x", "/x"];
    let mut extraction =
        directory().begin_zip(names.iter().map(|name| entry(name, Some(0o600))).collect());
    while let Some(step) = extraction.next_entry(no_links).unwrap() {
        for operation in step.operations {
            let written = match operation {
                ZipOperation::CreateDirAll(path) => path,
                ZipOperation::CreateFile(path) => path,
                ZipOperation::CopyContents(path) => path,
                ZipOperation::SetPermissions(path, _) => path,
            };
            assert!(written.starts_with(directory().path()));
        }
    }
}
