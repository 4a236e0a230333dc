use archive::archive_dir::{ArchiveDir, CreateOutcome};
use archive::error::ArchiveError;
use archive::path::{Component, FsPath};
use archive::walk::{LinkStatus, WalkStep};

fn path(text: &str) -> FsPath {
    FsPath::from_text(text)
}

fn directory() -> ArchiveDir {
    ArchiveDir::new(path("/work/tool"), None)
}

/// A disk that holds these symlinks: where each stands, and where it leads, if anywhere.
fn disk(links: Vec<(&'static str, Option<&'static str>)>) -> impl Fn(&FsPath) -> LinkStatus {
    move |asked| {
        for (location, target) in &links {
            if asked.as_bytes() == location.as_bytes() {
                return match target {
                    Some(target) => LinkStatus::Resolved(FsPath::from_text(target)),
                    None => LinkStatus::Unresolved,
                };
            }
        }
        LinkStatus::NotSymlink
    }
}

fn no_links() -> impl Fn(&FsPath) -> LinkStatus {
    disk(vec![])
}

#[test]
fn test_has_normal_components() {
    for name in ["foo", "foo/bar", "./foo", "foo/./bar", "foo//bar", "foo/", ".", "", "..."] {
        assert!(ArchiveDir::has_normal_components(name), "{name:?}");
    }
    for name in ["../foo", "foo/../../bar", "foo/../bar", "/foo", "/", "..", "foo/.."] {
        assert!(!ArchiveDir::has_normal_components(name), "{name:?}");
    }
}

#[test]
fn test_ensure_contains_accepts_normal_paths() {
    let probe = no_links();
    assert_eq!(directory().ensure_contains(&path("/work/tool/file.txt"), &probe), Ok(()));
    assert_eq!(directory().ensure_contains(&path("/work/tool/sub/file.txt"), &probe), Ok(()));
    assert_eq!(directory().ensure_contains(&path("/work/tool"), &probe), Ok(()));
}

#[test]
fn test_ensure_contains_accepts_nonexistent_paths() {
    let verdict = directory().ensure_contains(&path("/work/tool/a/b/c.txt"), no_links());
    assert_eq!(verdict, Ok(()));
}

#[test]
fn test_ensure_contains_rejects_path_outside_directory() {
    for outside in ["/tmp/outside.txt", "/work/tools", "/work", "work/tool/a"] {
        assert_eq!(
            directory().ensure_contains(&path(outside), no_links()),
            Err(ArchiveError::NotUnderDirectory {
                path: path(outside),
                directory: path("/work/tool"),
            })
        );
    }
}

#[test]
fn test_ensure_contains_rejects_external_symlink() {
    let probe = disk(vec![("/work/tool/link", Some("/outside"))]);
    let refused = Err(ArchiveError::SymlinkOutside {
        location: path("/work/tool/link"),
        resolved: path("/outside"),
        directory: path("/work/tool"),
    });
    assert_eq!(directory().ensure_contains(&path("/work/tool/link"), &probe), refused);
    assert_eq!(directory().ensure_contains(&path("/work/tool/link/file.txt"), &probe), refused);
}

#[test]
fn test_ensure_contains_allows_internal_symlink() {
    let probe = disk(vec![("/work/tool/link", Some("/work/tool/real"))]);
    assert_eq!(directory().ensure_contains(&path("/work/tool/link/file.txt"), probe), Ok(()));
}

#[test]
fn test_ensure_contains_rejects_chained_symlink() {
    let probe = disk(vec![
        ("/work/tool/a", Some("/work/tool/b")),
        ("/work/tool/b/c", Some("/outside")),
    ]);
    assert_eq!(
        directory().ensure_contains(&path("/work/tool/a/c/file.txt"), probe),
        Err(ArchiveError::SymlinkOutside {
            location: path("/work/tool/b/c"),
            resolved: path("/outside"),
            directory: path("/work/tool"),
        })
    );
}

#[test]
fn ensure_contains_rejects_parent_components() {
    assert_eq!(
        directory().ensure_contains(&path("/work/tool/a/../b"), no_links()),
        Err(ArchiveError::UnexpectedComponent {
            component: Component::ParentDir,
            path: path("/work/tool/a/../b"),
        })
    );
}

#[test]
fn ensure_contains_reports_dangling_symlink() {
    let probe = disk(vec![("/work/tool/link", None)]);
    assert_eq!(
        directory().ensure_contains(&path("/work/tool/link"), probe),
        Err(ArchiveError::CanonicalizeSymlink { location: path("/work/tool/link") })
    );
}

#[test]
fn a_symlink_to_a_sibling_with_the_same_beginning_is_outside() {
    let probe = disk(vec![("/work/tool/link", Some("/work/tools"))]);
    assert!(matches!(
        directory().ensure_contains(&path("/work/tool/link"), probe),
        Err(ArchiveError::SymlinkOutside { .. })
    ));
}

#[test]
fn resolve_entry_joins_safe_names() {
    assert_eq!(
        directory().resolve_entry("sub/file.txt", no_links()),
        Ok(Some(path("/work/tool/sub/file.txt")))
    );
    assert_eq!(
        directory().resolve_entry("./sub/./file.txt", no_links()),
        Ok(Some(path("/work/tool/./sub/./file.txt")))
    );
    assert_eq!(directory().resolve_entry("", no_links()), Ok(Some(path("/work/tool/"))));
}

#[test]
fn resolve_entry_skips_traversal_names() {
    for name in ["../outside.txt", "/absolute.txt", "nested/../../outside.txt", "a/.."] {
        assert_eq!(directory().resolve_entry(name, no_links()), Ok(None));
    }
}

#[test]
fn resolve_entry_skips_before_it_looks() {
    let unreached = |_: &FsPath| -> LinkStatus { panic!("nothing is to be asked") };
    assert_eq!(directory().resolve_entry("link/../file.txt", unreached), Ok(None));
}

#[test]
fn resolve_entry_follows_symlinks() {
    let probe = disk(vec![
        ("/work/tool/inner", Some("/work/tool/real")),
        ("/work/tool/outer", Some("/outside")),
        ("/work/tool/broken", None),
        ("/work/tool/real/out", Some("/outside")),
    ]);
    assert_eq!(
        directory().resolve_entry("inner/file.txt", &probe),
        Ok(Some(path("/work/tool/inner/file.txt")))
    );
    assert_eq!(
        directory().resolve_entry("outer/file.txt", &probe),
        Err(ArchiveError::SymlinkOutside {
            location: path("/work/tool/outer"),
            resolved: path("/outside"),
            directory: path("/work/tool"),
        })
    );
    assert_eq!(
        directory().resolve_entry("broken", &probe),
        Err(ArchiveError::CanonicalizeSymlink { location: path("/work/tool/broken") })
    );
    assert_eq!(
        directory().resolve_entry("inner/out/file.txt", &probe),
        Err(ArchiveError::SymlinkOutside {
            location: path("/work/tool/real/out"),
            resolved: path("/outside"),
            directory: path("/work/tool"),
        })
    );
}

#[test]
fn resolving_agrees_with_containment() {
    let probe = disk(vec![
        ("/work/tool/inner", Some("/work/tool/real")),
        ("/work/tool/outer", Some("/outside")),
    ]);
    for name in ["a", "a/b", "inner/a", "outer/a", "a/./b"] {
        let target = directory().path().join(name.as_bytes());
        let contained = directory().ensure_contains(&target, &probe);
        let resolved = directory().resolve_entry(name, &probe);
        assert_eq!(contained.is_ok(), resolved.is_ok(), "{name:?}");
        if contained.is_ok() {
            assert_eq!(resolved, Ok(Some(target)));
        }
    }
}

#[test]
fn walks_can_be_taken_step_by_step() {
    let step = directory().begin_containment_check(&path("/work/tool/a/b")).unwrap();
    let WalkStep::Probe(walk) = step else { panic!("a question was expected") };
    assert_eq!(walk.location(), &path("/work/tool/a"));
    let step = walk.advance(LinkStatus::Resolved(path("/work/tool/c"))).unwrap();
    let WalkStep::Probe(walk) = step else { panic!("a question was expected") };
    assert_eq!(walk.location(), &path("/work/tool/c/b"));
    let step = walk.advance(LinkStatus::NotSymlink).unwrap();
    let WalkStep::Contained(location) = step else { panic!("the end was expected") };
    assert_eq!(location, path("/work/tool/c/b"));
}

#[test]
fn entry_walks_can_be_finished_at_once() {
    let step = directory().begin_entry_check("a/b").unwrap();
    assert_eq!(step.finish(no_links()), Ok(path("/work/tool/a/b")));
}

#[test]
fn new_prefers_the_canonical_path() {
    let canonical = ArchiveDir::new(path("/work/link"), Some(path("/work/tool")));
    assert_eq!(canonical.path(), &path("/work/tool"));
    assert_eq!(ArchiveDir::new(path("/work/link"), None).path(), &path("/work/link"));
}

#[test]
fn opening_again_changes_nothing() {
    let opened = ArchiveDir::new(path("/work/link"), Some(path("/work/tool")));
    let again = ArchiveDir::new(opened.path().clone(), Some(path("/work/tool")));
    assert_eq!(again.path(), opened.path());
    let missing = ArchiveDir::new(path("/work/missing"), None);
    assert_eq!(ArchiveDir::new(missing.path().clone(), None).path(), missing.path());
}

#[test]
fn create_takes_the_canonical_path_or_fails() {
    let created = ArchiveDir::create(path("/work/link"), CreateOutcome::Created(path("/real")));
    assert_eq!(created.unwrap().path(), &path("/real"));
    assert_eq!(
        ArchiveDir::create(path("/work"), CreateOutcome::NotCreated).unwrap_err(),
        ArchiveError::CreateDirectory { path: path("/work") }
    );
    assert_eq!(
        ArchiveDir::create(path("/work"), CreateOutcome::NotCanonicalized).unwrap_err(),
        ArchiveError::CanonicalizeDirectory { path: path("/work") }
    );
}
