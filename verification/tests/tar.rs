use archive::archive_dir::ArchiveDir;
use archive::error::ArchiveError;
use archive::path::FsPath;
use archive::tar::{classify_tar_entry, TarAction, TarExtraction};
use archive::walk::LinkStatus;

fn path(text: &str) -> FsPath {
    FsPath::from_text(text)
}

fn directory() -> ArchiveDir {
    ArchiveDir::new(path("/work/tool"), None)
}

fn no_links(_: &FsPath) -> LinkStatus {
    LinkStatus::NotSymlink
}

fn one_link(target: &'static str) -> impl Fn(&FsPath) -> LinkStatus {
    move |asked| {
        if asked == &path("/work/tool/link") {
            LinkStatus::Resolved(path(target))
        } else {
            LinkStatus::NotSymlink
        }
    }
}

/// Every directory that is handed out on a disk without symlinks.
fn created(extraction: TarExtraction) -> Vec<FsPath> {
    let mut directories = extraction.finish();
    let mut created = vec![];
    while let Some(directory) = directories.next_directory(no_links).unwrap() {
        created.push(directory);
    }
    created
}

#[test]
fn type_flags_decide() {
    assert_eq!(classify_tar_entry(b'0'), TarAction::UnpackFile);
    assert_eq!(classify_tar_entry(0), TarAction::UnpackFile);
    assert_eq!(classify_tar_entry(b'1'), TarAction::StripHardLink);
    assert_eq!(classify_tar_entry(b'2'), TarAction::StripSymlink);
    assert_eq!(classify_tar_entry(b'5'), TarAction::DeferDirectory);
    for flag in [b'3', b'4', b'6', b'7', b'g', b'x', b'L', b'K', b'S', 2, 255] {
        assert_eq!(classify_tar_entry(flag), TarAction::Ignore, "{flag}");
    }
}

#[test]
fn test_extract_tar() {
    let mut extraction = directory().begin_tar();
    assert_eq!(extraction.take_entry(b'5', Some(path("sub/"))), Ok(TarAction::DeferDirectory));
    assert_eq!(extraction.take_entry(b'0', Some(path("sub/a"))), Ok(TarAction::UnpackFile));
    assert_eq!(
        extraction.take_entry(b'5', Some(path("sub/inner"))),
        Ok(TarAction::DeferDirectory)
    );
    assert_eq!(created(extraction), vec![path("/work/tool/sub"), path("/work/tool/sub/inner")]);
}

#[test]
fn test_extract_tar_strips_symlinks() {
    let mut extraction = directory().begin_tar();
    assert_eq!(extraction.take_entry(b'2', Some(path("link"))), Ok(TarAction::StripSymlink));
    assert_eq!(extraction.take_entry(b'0', Some(path("file"))), Ok(TarAction::UnpackFile));
    assert_eq!(created(extraction), vec![]);
}

#[test]
fn test_extract_tar_strips_hardlinks() {
    let mut extraction = directory().begin_tar();
    assert_eq!(extraction.take_entry(b'1', Some(path("link"))), Ok(TarAction::StripHardLink));
    assert_eq!(extraction.take_entry(b'1', None), Ok(TarAction::StripHardLink));
    assert_eq!(created(extraction), vec![]);
}

#[test]
fn only_directories_need_a_path() {
    let mut extraction = directory().begin_tar();
    assert_eq!(extraction.take_entry(b'0', None), Ok(TarAction::UnpackFile));
    assert_eq!(extraction.take_entry(b'2', None), Ok(TarAction::StripSymlink));
    assert_eq!(extraction.take_entry(b'7', None), Ok(TarAction::Ignore));
    assert_eq!(extraction.take_entry(b'5', Some(path("kept"))), Ok(TarAction::DeferDirectory));
    assert_eq!(extraction.take_entry(b'5', None), Err(ArchiveError::DirectoryEntryPath));
    assert_eq!(created(extraction), vec![path("/work/tool/kept")]);
}

#[test]
fn test_extract_tar_rejects_path_traversal() {
    let mut extraction = directory().begin_tar();
    for name in ["../outside/", "a/../../x/", "..", "a/..", "/../x/"] {
        assert_eq!(
            extraction.take_entry(b'5', Some(path(name))),
            Ok(TarAction::Ignore),
            "{name:?}"
        );
    }
    assert_eq!(extraction.take_entry(b'5', Some(path("kept/"))), Ok(TarAction::DeferDirectory));
    assert_eq!(created(extraction), vec![path("/work/tool/kept")]);
}

#[test]
fn test_extract_tar_strips_absolute_path_prefix() {
    let mut extraction = directory().begin_tar();
    for name in ["/abs/", "//abs//inner/", "/"] {
        assert_eq!(
            extraction.take_entry(b'5', Some(path(name))),
            Ok(TarAction::DeferDirectory),
            "{name:?}"
        );
    }
    assert_eq!(
        created(extraction),
        vec![path("/work/tool/abs"), path("/work/tool/abs/inner"), path("/work/tool")]
    );
}

#[test]
fn only_names_count_in_a_directory_path() {
    let mut extraction = directory().begin_tar();
    for name in ["./", "./a/./b/", "...", "..a"] {
        extraction.take_entry(b'5', Some(path(name))).unwrap();
    }
    assert_eq!(
        created(extraction),
        vec![
            path("/work/tool"),
            path("/work/tool/a/b"),
            path("/work/tool/..."),
            path("/work/tool/..a"),
        ]
    );
}

#[test]
fn directories_behind_an_external_symlink_are_refused() {
    let mut extraction = directory().begin_tar();
    for name in ["first/", "link/inner/", "last/"] {
        extraction.take_entry(b'5', Some(path(name))).unwrap();
    }
    let mut directories = extraction.finish();
    let probe = one_link("/outside");
    assert_eq!(directories.next_directory(&probe), Ok(Some(path("/work/tool/first"))));
    assert_eq!(
        directories.next_directory(&probe),
        Err(ArchiveError::SymlinkOutside {
            location: path("/work/tool/link"),
            resolved: path("/outside"),
            directory: path("/work/tool"),
        })
    );
    assert_eq!(directories.next_directory(&probe), Ok(None));
}

#[test]
fn directories_behind_an_internal_symlink_are_handed_out() {
    let mut extraction = directory().begin_tar();
    extraction.take_entry(b'5', Some(path("link/inner/"))).unwrap();
    let mut directories = extraction.finish();
    let probe = one_link("/work/tool/real");
    assert_eq!(directories.next_directory(&probe), Ok(Some(path("/work/tool/link/inner"))));
    assert_eq!(directories.next_directory(&probe), Ok(None));
}

#[test]
fn dangling_symlinks_are_reported() {
    let mut extraction = directory().begin_tar();
    extraction.take_entry(b'5', Some(path("link"))).unwrap();
    let mut directories = extraction.finish();
    assert_eq!(
        directories.next_directory(|_: &FsPath| LinkStatus::Unresolved),
        Err(ArchiveError::CanonicalizeSymlink { location: path("/work/tool/link") })
    );
}

#[test]
fn each_directory_is_checked_when_its_turn_has_come() {
    let mut extraction = directory().begin_tar();
    for name in ["link/a/", "link/b/"] {
        extraction.take_entry(b'5', Some(path(name))).unwrap();
    }
    let mut directories = extraction.finish();
    assert_eq!(directories.next_directory(no_links), Ok(Some(path("/work/tool/link/a"))));
    assert!(directories.next_directory(one_link("/outside")).is_err());
}

#[test]
fn other_entries_leave_no_trace() {
    let entries = [
        (b'2', "a"),
        (b'5', "b"),
        (b'1', "c"),
        (b'3', "device"),
        (b'5', "d"),
        (b'0', "e"),
        (b'6', "fifo"),
        (0, "h"),
        (b'5', "../i"),
    ];
    let mut with_others = directory().begin_tar();
    let mut without_others = directory().begin_tar();
    let mut unpacked_with = vec![];
    let mut unpacked_without = vec![];
    for (flag, name) in entries {
        if with_others.take_entry(flag, Some(path(name))) == Ok(TarAction::UnpackFile) {
            unpacked_with.push(name);
        }
        if matches!(flag, b'0' | 0 | b'5')
            && without_others.take_entry(flag, Some(path(name))) == Ok(TarAction::UnpackFile)
        {
            unpacked_without.push(name);
        }
    }
    assert_eq!(created(with_others), created(without_others));
    assert_eq!(unpacked_with, unpacked_without);
    assert_eq!(unpacked_with, vec!["e", "h"]);
}

#[test]
fn created_directories_stay_inside() {
    let mut extraction = directory().begin_tar();
    for name in ["a", "a/b/", "./c", "d//e", "/f", "../g", "h/../../i"] {
        extraction.take_entry(b'5', Some(path(name))).unwrap();
    }
    let created = created(extraction);
    assert_eq!(created.len(), 5);
    for directory_path in created {
        assert!(directory_path.starts_with(directory().path()));
    }
}
