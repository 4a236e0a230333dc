use archive::path::{Component, FsPath};
use std::path::Path;

const TEXTS: [&str; 30] = [
    "", "/", "//", ".", "..", "./", "../", "a", "a/", "/a", "/a/", "a/b", "a//b", "a/./b", "./a",
    "./a/b", "a/.", "a/..", "../a", "/..", "/./a", "/a/../b", "a/b/c/", "...", ".a", "a.", "..a",
    "/work/tool", "/work/tool/", "/work/tools",
];

fn path(text: &str) -> FsPath {
    FsPath::from_text(text)
}

fn text(path: &FsPath) -> String {
    String::from_utf8(path.as_bytes().to_vec()).unwrap()
}

fn expected_components(path: &Path) -> Vec<Component> {
    path.components()
        .map(|component| match component {
            std::path::Component::RootDir => Component::RootDir,
            std::path::Component::CurDir => Component::CurDir,
            std::path::Component::ParentDir => Component::ParentDir,
            std::path::Component::Normal(name) => {
                Component::Normal(name.to_str().unwrap().as_bytes().to_vec())
            }
            std::path::Component::Prefix(_) => unreachable!(),
        })
        .collect()
}

#[test]
fn components_agree_with_std() {
    for text in TEXTS {
        assert_eq!(path(text).components(), expected_components(Path::new(text)), "{text:?}");
    }
}

#[test]
fn components_of_concrete_paths() {
    assert_eq!(
        path("/a/../b").components(),
        vec![
            Component::RootDir,
            Component::Normal(b"a".to_vec()),
            Component::ParentDir,
            Component::Normal(b"b".to_vec()),
        ]
    );
    assert_eq!(
        path("./a//./b/").components(),
        vec![
            Component::CurDir,
            Component::Normal(b"a".to_vec()),
            Component::Normal(b"b".to_vec()),
        ]
    );
    assert_eq!(path("").components(), vec![]);
}

#[test]
fn join_agrees_with_std() {
    for base in TEXTS {
        for name in TEXTS {
            assert_eq!(
                text(&path(base).join(name.as_bytes())),
                Path::new(base).join(name).to_str().unwrap(),
                "{base:?} joined with {name:?}"
            );
        }
    }
}

#[test]
fn parent_agrees_with_std() {
    for whole in TEXTS {
        assert_eq!(
            path(whole).parent().map(|parent| text(&parent)),
            Path::new(whole).parent().map(|parent| parent.to_str().unwrap().to_owned()),
            "{whole:?}"
        );
    }
}

#[test]
fn starts_with_agrees_with_std() {
    for whole in TEXTS {
        for base in TEXTS {
            assert_eq!(
                path(whole).starts_with(&path(base)),
                Path::new(whole).starts_with(base),
                "{whole:?} below {base:?}"
            );
        }
    }
}

#[test]
fn strip_prefix_agrees_with_std() {
    for whole in TEXTS {
        for base in TEXTS {
            assert_eq!(
                path(whole).strip_prefix(&path(base)),
                Path::new(whole).strip_prefix(base).ok().map(expected_components),
                "{whole:?} without {base:?}"
            );
        }
    }
}

#[test]
fn joined_components_are_appended() {
    let base = path("/work/tool");
    let joined = base.join(b"bin/./run");
    let mut expected = base.components();
    expected.push(Component::Normal(b"bin".to_vec()));
    expected.push(Component::Normal(b"run".to_vec()));
    assert_eq!(joined.components(), expected);
    assert!(joined.starts_with(&base));
}

#[test]
fn starts_with_is_transitive() {
    let (outer, middle, inner) = (path("/work"), path("/work/tool"), path("/work/tool/a"));
    assert!(middle.starts_with(&outer));
    assert!(inner.starts_with(&middle));
    assert!(inner.starts_with(&outer));
    assert!(!path("/work/tools").starts_with(&middle));
}

#[test]
fn paths_need_not_be_text() {
    let odd = FsPath::new(vec![0xff, b'/', 0xfe]);
    assert_eq!(
        odd.components(),
        vec![Component::Normal(vec![0xff]), Component::Normal(vec![0xfe])]
    );
    assert_eq!(odd.parent().unwrap().as_bytes(), &[0xff]);
    assert_eq!(odd.clone(), odd);
}

#[test]
fn same_components() {
    assert!(Component::Normal(b"a".to_vec()).is_same(&Component::Normal(b"a".to_vec())));
    assert!(!Component::Normal(b"a".to_vec()).is_same(&Component::Normal(b"b".to_vec())));
    assert!(Component::CurDir.is_same(&Component::CurDir));
    assert!(!Component::CurDir.is_same(&Component::ParentDir));
    assert_eq!(Component::ParentDir.clone(), Component::ParentDir);
}
