//! The directory that an archive is extracted into.

use crate::error::{result_view, ArchiveError, SpecError};
use crate::path::{component_views, Component, FsPath};
use crate::path_text::{components, join, starts_with, SpecComponent};
use crate::walk::{enter, leads_to, LinkStatus, SpecStep, SymlinkWalk, WalkStep};
use crate::walk_laws::{answers_from, law_walk_follows_disk, run, Disk};
use vstd::prelude::*;
use vstd::utf8::encode_utf8;

verus! {

/// A directory that archives are extracted into, and that nothing may be written outside
/// of.
#[derive(Debug)]
pub struct ArchiveDir {
    path: FsPath,
}

impl View for ArchiveDir {
    type V = Seq<u8>;

    closed spec fn view(&self) -> Seq<u8> {
        self.path@
    }
}

/// What came of creating a directory and canonicalizing its path.
#[derive(Debug)]
pub enum CreateOutcome {
    /// It could not be created.
    NotCreated,
    /// It was created, but its path could not be canonicalized.
    NotCanonicalized,
    /// It was created; this is its canonical path.
    Created(FsPath),
}

/// The path that a directory goes by: the canonical one where there is one.
pub open spec fn directory_path(path: Seq<u8>, canonical: Option<Seq<u8>>) -> Seq<u8> {
    match canonical {
        Some(canonical) => canonical,
        None => path,
    }
}

/// Whether `parts` are names and `.` only: no `..` and no root.
pub open spec fn only_normal(parts: Seq<SpecComponent>) -> bool {
    forall|i: int|
        0 <= i < parts.len() ==> (#[trigger] parts[i]) is Normal || parts[i] is CurDir
}

/// The names among `parts`.
pub open spec fn normal_components(parts: Seq<SpecComponent>) -> Seq<SpecComponent> {
    parts.filter(|part: SpecComponent| part is Normal)
}

/// The first step of checking that `directory` contains `path`.
pub open spec fn containment_check(directory: Seq<u8>, path: Seq<u8>) -> Result<
    SpecStep,
    SpecError,
> {
    if starts_with(path, directory) {
        enter(directory, path, directory, components(path).skip(components(directory).len() as int))
    } else {
        Err(SpecError::NotUnderDirectory { path, directory })
    }
}

/// The first step of checking that the entry `name` stays inside `directory`.
pub open spec fn entry_check(directory: Seq<u8>, name: Seq<u8>) -> Result<SpecStep, SpecError> {
    enter(directory, join(directory, name), directory, normal_components(components(name)))
}

/// What [`ArchiveDir::ensure_contains`] says of `path` on `disk`.
pub open spec fn containment(directory: Seq<u8>, path: Seq<u8>, disk: Disk) -> Result<
    (),
    SpecError,
> {
    match run(containment_check(directory, path), disk) {
        Ok(_) => Ok(()),
        Err(error) => Err(error),
    }
}

/// What [`ArchiveDir::resolve_entry`] makes of the entry `name` on `disk`.
pub open spec fn resolution(directory: Seq<u8>, name: Seq<u8>, disk: Disk) -> Result<
    Option<Seq<u8>>,
    SpecError,
> {
    if !only_normal(components(name)) {
        Ok(None)
    } else {
        match run(entry_check(directory, name), disk) {
            Ok(_) => Ok(Some(join(directory, name))),
            Err(error) => Err(error),
        }
    }
}

/// Whether checking that `directory` contains `path`, with `probe` to tell what stands at
/// every location, can end in `verdict`.
pub open spec fn containment_can_be<F: Fn(&FsPath) -> LinkStatus>(
    directory: Seq<u8>,
    path: Seq<u8>,
    probe: F,
    verdict: Result<(), SpecError>,
) -> bool {
    match verdict {
        Ok(()) => exists|location: Seq<u8>| #[trigger]
            leads_to(containment_check(directory, path), probe, Ok(location)),
        Err(error) => leads_to(containment_check(directory, path), probe, Err(error)),
    }
}

/// Whether the entry `name` can be resolved to `resolved`, with `probe` to tell what stands
/// at every location.
pub open spec fn resolution_can_be<F: Fn(&FsPath) -> LinkStatus>(
    directory: Seq<u8>,
    name: Seq<u8>,
    probe: F,
    resolved: Result<Option<Seq<u8>>, SpecError>,
) -> bool {
    match resolved {
        Ok(None) => !only_normal(components(name)),
        Ok(Some(target)) => {
            &&& only_normal(components(name))
            &&& target == join(directory, name)
            &&& exists|location: Seq<u8>| #[trigger]
                leads_to(entry_check(directory, name), probe, Ok(location))
        },
        Err(error) => {
            &&& only_normal(components(name))
            &&& leads_to(entry_check(directory, name), probe, Err(error))
        },
    }
}

/// What a verdict says.
pub open spec fn verdict_view(verdict: Result<(), ArchiveError>) -> Result<(), SpecError> {
    match verdict {
        Ok(()) => Ok(()),
        Err(error) => Err(error@),
    }
}

/// What a resolved entry says.
pub open spec fn resolved_view(resolved: Result<Option<FsPath>, ArchiveError>) -> Result<
    Option<Seq<u8>>,
    SpecError,
> {
    match resolved {
        Ok(Some(path)) => Ok(Some(path@)),
        Ok(None) => Ok(None),
        Err(error) => Err(error@),
    }
}

impl ArchiveDir {
    /// The existing directory at `path`, by its canonical path where there is one.
    pub fn new(path: FsPath, canonical: Option<FsPath>) -> (directory: ArchiveDir)
        ensures
            directory@ == directory_path(
                path@,
                match canonical {
                    Some(canonical) => Some(canonical@),
                    None => None,
                },
            ),
    {
        match canonical {
            Some(canonical) => ArchiveDir { path: canonical },
            None => ArchiveDir { path },
        }
    }

    /// The directory that was created at `path`, by its canonical path.
    pub fn create(path: FsPath, outcome: CreateOutcome) -> (directory: Result<
        ArchiveDir,
        ArchiveError,
    >)
        ensures
            match outcome {
                CreateOutcome::NotCreated => directory matches Err(error) && error@
                    == (SpecError::CreateDirectory { path: path@ }),
                CreateOutcome::NotCanonicalized => directory matches Err(error) && error@
                    == (SpecError::CanonicalizeDirectory { path: path@ }),
                CreateOutcome::Created(canonical) => directory matches Ok(created) && created@
                    == canonical@,
            },
    {
        match outcome {
            CreateOutcome::NotCreated => Err(ArchiveError::CreateDirectory { path }),
            CreateOutcome::NotCanonicalized => Err(ArchiveError::CanonicalizeDirectory { path }),
            CreateOutcome::Created(canonical) => Ok(ArchiveDir { path: canonical }),
        }
    }

    /// The path of the directory.
    pub fn path(&self) -> (path: &FsPath)
        ensures
            path@ == self@,
    {
        &self.path
    }

    /// Whether `relative_path` consists of names and `.` only: no `..`, and not absolute.
    pub fn has_normal_components(relative_path: &str) -> (normal: bool)
        ensures
            normal == only_normal(components(encode_utf8(relative_path@))),
    {
        let parts = FsPath::from_text(relative_path).components();
        let ghost views = components(encode_utf8(relative_path@));
        let mut i: usize = 0;
        while i < parts.len()
            invariant
                i <= parts.len(),
                component_views(parts@) == views,
                views == components(encode_utf8(relative_path@)),
                forall|j: int| 0 <= j < i ==> (#[trigger] views[j]) is Normal || views[j] is CurDir,
            decreases parts.len() - i,
        {
            assert(views[i as int] == parts@[i as int]@);
            match &parts[i] {
                Component::Normal(_) => {},
                Component::CurDir => {},
                _ => {
                    return false;
                },
            }
            i = i + 1;
        }
        true
    }

    /// Begins to check that the directory contains `path`. Whoever looks at the disk takes
    /// the walk further.
    pub fn begin_containment_check(&self, path: &FsPath) -> (step: Result<WalkStep, ArchiveError>)
        ensures
            result_view(step) == containment_check(self@, path@),
    {
        let parts = match path.strip_prefix(&self.path) {
            Some(parts) => parts,
            None => {
                return Err(
                    ArchiveError::NotUnderDirectory {
                        path: path.clone(),
                        directory: self.path.clone(),
                    },
                );
            },
        };
        assert(component_views(parts@).skip(0) =~= component_views(parts@));
        SymlinkWalk::enter(self.path.clone(), path.clone(), self.path.clone(), parts, 0)
    }

    /// Begins to check that the entry `entry_name` stays inside the directory. Whoever
    /// looks at the disk takes the walk further.
    pub fn begin_entry_check(&self, entry_name: &str) -> (step: Result<WalkStep, ArchiveError>)
        ensures
            result_view(step) == entry_check(self@, encode_utf8(entry_name@)),
    {
        let target = self.path.join(entry_name.as_bytes());
        let names = ArchiveDir::names_of(entry_name);
        assert(component_views(names@).skip(0) =~= component_views(names@));
        SymlinkWalk::enter(self.path.clone(), target, self.path.clone(), names, 0)
    }

    /// Checks that `path` lies in the directory and that no symlink on the way to it,
    /// below the directory, leads out. `probe` tells what stands at a location.
    pub fn ensure_contains<F: Fn(&FsPath) -> LinkStatus>(
        &self,
        path: &FsPath,
        probe: F,
    ) -> (verdict: Result<(), ArchiveError>)
        requires
            forall|asked: &FsPath| #[trigger] call_requires(probe, (asked,)),
        ensures
            containment_can_be(self@, path@, probe, verdict_view(verdict)),
            forall|disk: Disk| #[trigger]
                answers_from(probe, disk) ==> verdict_view(verdict) == containment(
                    self@,
                    path@,
                    disk,
                ),
    {
        let ghost start = containment_check(self@, path@);
        let step = match self.begin_containment_check(path) {
            Ok(step) => step,
            Err(error) => {
                return Err(error);
            },
        };
        let ghost asked = probe;
        match step.finish(probe) {
            Ok(location) => {
                proof {
                    assert(leads_to(start, asked, Ok(location@)));
                    assert forall|disk: Disk| #[trigger] answers_from(asked, disk) implies Ok::<
                        (),
                        SpecError,
                    >(()) == containment(self@, path@, disk) by {
                        law_walk_follows_disk(start, asked, disk, Ok(location@));
                    }
                }
                Ok(())
            },
            Err(error) => {
                proof {
                    assert forall|disk: Disk| #[trigger] answers_from(asked, disk) implies Err::<
                        (),
                        SpecError,
                    >(error@) == containment(self@, path@, disk) by {
                        law_walk_follows_disk(start, asked, disk, Err(error@));
                    }
                }
                Err(error)
            },
        }
    }

    /// Decides where the archive entry `entry_name` goes. An entry whose name could lead
    /// out of the directory goes nowhere; one that a symlink leads out of the directory is
    /// refused.
    pub fn resolve_entry<F: Fn(&FsPath) -> LinkStatus>(
        &self,
        entry_name: &str,
        probe: F,
    ) -> (resolved: Result<Option<FsPath>, ArchiveError>)
        requires
            forall|asked: &FsPath| #[trigger] call_requires(probe, (asked,)),
        ensures
            resolution_can_be(
                self@,
                encode_utf8(entry_name@),
                probe,
                resolved_view(resolved),
            ),
            forall|disk: Disk| #[trigger]
                answers_from(probe, disk) ==> resolved_view(resolved) == resolution(
                    self@,
                    encode_utf8(entry_name@),
                    disk,
                ),
    {
        let ghost name = encode_utf8(entry_name@);
        if !ArchiveDir::has_normal_components(entry_name) {
            return Ok(None);
        }
        let target = self.path.join(entry_name.as_bytes());
        let ghost start = entry_check(self@, name);
        let step = match self.begin_entry_check(entry_name) {
            Ok(step) => step,
            Err(error) => {
                return Err(error);
            },
        };
        let ghost asked = probe;
        match step.finish(probe) {
            Ok(location) => {
                proof {
                    assert(leads_to(start, asked, Ok(location@)));
                    assert forall|disk: Disk| #[trigger] answers_from(asked, disk) implies Ok::<
                        Option<Seq<u8>>,
                        SpecError,
                    >(Some(target@)) == resolution(self@, name, disk) by {
                        law_walk_follows_disk(start, asked, disk, Ok(location@));
                    }
                }
                Ok(Some(target))
            },
            Err(error) => {
                proof {
                    assert forall|disk: Disk| #[trigger] answers_from(asked, disk) implies Err::<
                        Option<Seq<u8>>,
                        SpecError,
                    >(error@) == resolution(self@, name, disk) by {
                        law_walk_follows_disk(start, asked, disk, Err(error@));
                    }
                }
                Err(error)
            },
        }
    }

    /// The names among the components of `entry_name`.
    fn names_of(entry_name: &str) -> (names: Vec<Component>)
        ensures
            component_views(names@) == normal_components(components(encode_utf8(entry_name@))),
    {
        let parts = FsPath::from_text(entry_name).components();
        let ghost views = components(encode_utf8(entry_name@));
        let ghost wanted = |part: SpecComponent| part is Normal;
        let mut names: Vec<Component> = Vec::new();
        let mut i: usize = 0;
        proof {
            reveal(Seq::filter);
            assert(component_views(names@) =~= views.take(0).filter(wanted));
        }
        while i < parts.len()
            invariant
                i <= parts.len(),
                component_views(parts@) == views,
                views == components(encode_utf8(entry_name@)),
                wanted == (|part: SpecComponent| part is Normal),
                component_views(names@) == views.take(i as int).filter(wanted),
            decreases parts.len() - i,
        {
            let ghost before = names@;
            proof {
                reveal(Seq::filter);
                assert(views[i as int] == parts@[i as int]@);
                assert(views.take(i + 1).drop_last() =~= views.take(i as int));
            }
            if let Component::Normal(_) = &parts[i] {
                names.push(parts[i].clone());
                assert(component_views(names@) =~= component_views(before).push(
                    views[i as int],
                ));
            }
            i = i + 1;
        }
        assert(views.take(views.len() as int) =~= views);
        names
    }
}

} // verus!
