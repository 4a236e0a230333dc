//! What is done with the entries of a tar archive.

use crate::archive_dir::{
    containment, containment_can_be, resolved_view, verdict_view, ArchiveDir,
};
use crate::archive_laws::below;
use crate::error::{ArchiveError, SpecError};
use crate::path::{component_views, Component, FsPath};
use crate::path_text::{components, join, starts_with, SpecComponent};
use crate::tar_laws::law_place_stands_below;
use crate::walk::LinkStatus;
use crate::walk_laws::{answers_from, Disk};
use vstd::prelude::*;

verus! {

/// What is done with an entry.
#[derive(Clone, Copy, Debug, PartialEq, Eq, Structural)]
pub enum TarAction {
    /// A symlink: it is left out.
    StripSymlink,
    /// A hard link: it is left out.
    StripHardLink,
    /// A directory: it is created once every file has been unpacked.
    DeferDirectory,
    /// A regular file: it is unpacked.
    UnpackFile,
    /// Anything else, and a directory whose path climbs: it is passed over.
    Ignore,
}

/// An entry, by its type flag and its path. The path may fail to be readable.
pub struct SpecTarEntry {
    pub flag: u8,
    pub path: Option<Seq<u8>>,
}

/// How far an extraction has got.
pub struct SpecTarExtraction {
    /// The directory that is extracted into.
    pub directory: Seq<u8>,
    /// Where the directories stand that are yet to be created.
    pub deferred: Seq<Seq<u8>>,
}

/// What the type flag of an entry says, by the letters of the ustar format.
pub open spec fn flag_action(flag: u8) -> TarAction {
    if flag == 0x32 {
        TarAction::StripSymlink
    } else if flag == 0x31 {
        TarAction::StripHardLink
    } else if flag == 0x35 {
        TarAction::DeferDirectory
    } else if flag == 0x30 || flag == 0 {
        TarAction::UnpackFile
    } else {
        TarAction::Ignore
    }
}

/// Where a path with the components `parts` leads below `base`: the names among them are
/// followed, and anything else counts for nothing.
pub open spec fn place(base: Seq<u8>, parts: Seq<SpecComponent>) -> Seq<u8>
    decreases parts.len(),
{
    if parts.len() == 0 {
        base
    } else {
        match parts.last() {
            SpecComponent::Normal(name) => join(place(base, parts.drop_last()), name),
            _ => place(base, parts.drop_last()),
        }
    }
}

/// Whether a path climbs: one of its components is `..`.
pub open spec fn goes_up(path: Seq<u8>) -> bool {
    components(path).contains(SpecComponent::ParentDir)
}

/// Where the directory entry `path` goes: nowhere if it climbs, and otherwise below
/// `directory`, under its own names. A root or a `.` counts for nothing.
pub open spec fn directory_target(directory: Seq<u8>, path: Seq<u8>) -> Option<Seq<u8>> {
    if goes_up(path) {
        None
    } else {
        Some(place(directory, components(path)))
    }
}

/// Whether `target` lies at or below `directory`, and only names lead there.
pub open spec fn stands_below(directory: Seq<u8>, target: Seq<u8>) -> bool {
    &&& starts_with(target, directory)
    &&& forall|i: int|
        0 <= i < below(directory, target).len() ==> (#[trigger] below(directory, target)[i])
            is Normal
}

/// Whether all of `targets` stand below `directory`.
pub open spec fn all_stand_below(directory: Seq<u8>, targets: Seq<Seq<u8>>) -> bool {
    forall|i: int| 0 <= i < targets.len() ==> stands_below(directory, #[trigger] targets[i])
}

/// What is done with an entry, its path considered.
pub open spec fn entry_action(entry: SpecTarEntry) -> TarAction {
    let action = flag_action(entry.flag);
    if action == TarAction::DeferDirectory && (entry.path matches Some(path) && goes_up(path)) {
        TarAction::Ignore
    } else {
        action
    }
}

/// Taking the next entry. Only a directory changes how far the extraction has got, and
/// only a directory needs a path. One whose path climbs is left out.
pub open spec fn take_entry(state: SpecTarExtraction, entry: SpecTarEntry) -> Result<
    SpecTarExtraction,
    SpecError,
> {
    if flag_action(entry.flag) == TarAction::DeferDirectory {
        match entry.path {
            Some(path) => match directory_target(state.directory, path) {
                Some(target) => Ok(
                    SpecTarExtraction {
                        directory: state.directory,
                        deferred: state.deferred.push(target),
                    },
                ),
                None => Ok(state),
            },
            None => Err(SpecError::DirectoryEntryPath),
        }
    } else {
        Ok(state)
    }
}

/// Whether an entry is a symlink: `async_tar::EntryType::is_symlink`, on the type that
/// `EntryType::new` makes of the flag. That is so for the flag `2`.
#[verifier::external_body]
fn is_symlink(flag: u8) -> (answer: bool)
    ensures
        answer == (flag == 0x32),
{
    async_tar::EntryType::new(flag).is_symlink()
}

/// Whether an entry is a hard link: `async_tar::EntryType::is_hard_link`, on the type that
/// `EntryType::new` makes of the flag. That is so for the flag `1`.
#[verifier::external_body]
fn is_hard_link(flag: u8) -> (answer: bool)
    ensures
        answer == (flag == 0x31),
{
    async_tar::EntryType::new(flag).is_hard_link()
}

/// Whether an entry is a directory: `async_tar::EntryType::is_dir`, on the type that
/// `EntryType::new` makes of the flag. That is so for the flag `5`.
#[verifier::external_body]
fn is_dir(flag: u8) -> (answer: bool)
    ensures
        answer == (flag == 0x35),
{
    async_tar::EntryType::new(flag).is_dir()
}

/// Whether an entry is a regular file: `async_tar::EntryType::is_file`, on the type that
/// `EntryType::new` makes of the flag. That is so for the flag `0` and for the byte zero.
#[verifier::external_body]
fn is_file(flag: u8) -> (answer: bool)
    ensures
        answer == (flag == 0x30 || flag == 0),
{
    async_tar::EntryType::new(flag).is_file()
}

/// Decides what is done with an entry, by its type flag.
pub fn classify_tar_entry(flag: u8) -> (action: TarAction)
    ensures
        action == flag_action(flag),
{
    if is_symlink(flag) {
        TarAction::StripSymlink
    } else if is_hard_link(flag) {
        TarAction::StripHardLink
    } else if is_dir(flag) {
        TarAction::DeferDirectory
    } else if is_file(flag) {
        TarAction::UnpackFile
    } else {
        TarAction::Ignore
    }
}

/// An extraction of a tar archive: the entries come one by one, and the directories are
/// created at the end.
#[derive(Debug)]
pub struct TarExtraction {
    directory: FsPath,
    deferred: Vec<FsPath>,
}

/// What a list of paths stands for.
pub open spec fn path_views(paths: Seq<FsPath>) -> Seq<Seq<u8>> {
    paths.map_values(|path: FsPath| path@)
}

impl View for TarExtraction {
    type V = SpecTarExtraction;

    closed spec fn view(&self) -> SpecTarExtraction {
        SpecTarExtraction {
            directory: self.directory@,
            deferred: self.deferred@.map_values(
                |path: FsPath| place(self.directory@, components(path@)),
            ),
        }
    }
}

/// The directories that an archive puts off, once all of its entries have been taken. They
/// are handed out one at a time, and each is looked at only when its turn has come.
#[derive(Debug)]
pub struct TarDirectories {
    directory: ArchiveDir,
    targets: Vec<FsPath>,
    next: usize,
}

impl TarDirectories {
    #[verifier::type_invariant]
    spec fn is_valid(self) -> bool {
        all_stand_below(self.directory@, path_views(self.targets@))
    }
}

/// What [`TarDirectories`] stand for.
pub struct SpecTarDirectories {
    /// The directory that is extracted into.
    pub directory: Seq<u8>,
    /// Where the directories stand that were put off, in the order of the archive.
    pub targets: Seq<Seq<u8>>,
    /// The number of the one whose turn it is; past the last one, the extraction is over.
    pub next: nat,
}

impl View for TarDirectories {
    type V = SpecTarDirectories;

    closed spec fn view(&self) -> SpecTarDirectories {
        SpecTarDirectories {
            directory: self.directory@,
            targets: path_views(self.targets@),
            next: self.next as nat,
        }
    }
}

impl SpecTarDirectories {
    /// Whether there is no directory left.
    pub open spec fn is_over(self) -> bool {
        self.next >= self.targets.len()
    }

    /// What is said once it is known whether the next directory is contained, and where the
    /// extraction then stands. An error ends it.
    pub open spec fn checked(self, verdict: Result<(), SpecError>) -> (
        Result<Option<Seq<u8>>, SpecError>,
        SpecTarDirectories,
    ) {
        match verdict {
            Ok(_) => (
                Ok(Some(self.targets[self.next as int])),
                SpecTarDirectories { next: self.next + 1, ..self },
            ),
            Err(error) => (
                Err(error),
                SpecTarDirectories { next: self.targets.len(), ..self },
            ),
        }
    }

    /// What is said of the next directory on `disk`, and where the extraction then stands.
    pub open spec fn step(self, disk: Disk) -> (
        Result<Option<Seq<u8>>, SpecError>,
        SpecTarDirectories,
    ) {
        if self.is_over() {
            (Ok(None), self)
        } else {
            self.checked(containment(self.directory, self.targets[self.next as int], disk))
        }
    }

    /// Whether `next` can be said of the next directory, and the extraction then stand at
    /// `after`, with `probe` to tell what stands at every location.
    pub open spec fn step_can_be<F: Fn(&FsPath) -> LinkStatus>(
        self,
        probe: F,
        next: Result<Option<Seq<u8>>, SpecError>,
        after: SpecTarDirectories,
    ) -> bool {
        if self.is_over() {
            (next, after) == (Ok::<Option<Seq<u8>>, SpecError>(None), self)
        } else {
            exists|verdict: Result<(), SpecError>|
                {
                    &&& #[trigger] containment_can_be(
                        self.directory,
                        self.targets[self.next as int],
                        probe,
                        verdict,
                    )
                    &&& (next, after) == self.checked(verdict)
                }
        }
    }
}

/// Whether one of `parts` is `..`.
fn has_parent_dir(parts: &Vec<Component>) -> (found: bool)
    ensures
        found == component_views(parts@).contains(SpecComponent::ParentDir),
{
    let ghost views = component_views(parts@);
    let mut i: usize = 0;
    while i < parts.len()
        invariant
            i <= parts.len(),
            views == component_views(parts@),
            forall|j: int| 0 <= j < i ==> #[trigger] views[j] != SpecComponent::ParentDir,
        decreases parts.len() - i,
    {
        assert(views[i as int] == parts@[i as int]@);
        if let Component::ParentDir = &parts[i] {
            return true;
        }
        i = i + 1;
    }
    false
}

/// Follows the names among `parts` from `base`.
fn place_below(base: &FsPath, parts: &Vec<Component>) -> (target: FsPath)
    ensures
        target@ == place(base@, component_views(parts@)),
{
    let ghost views = component_views(parts@);
    let mut target = base.clone();
    let mut i: usize = 0;
    assert(views.take(0) =~= seq![]);
    while i < parts.len()
        invariant
            i <= parts.len(),
            views == component_views(parts@),
            target@ == place(base@, views.take(i as int)),
        decreases parts.len() - i,
    {
        proof {
            assert(views[i as int] == parts@[i as int]@);
            assert(views.take(i + 1).drop_last() =~= views.take(i as int));
        }
        if let Component::Normal(name) = &parts[i] {
            target = target.join(name.as_slice());
        }
        i = i + 1;
    }
    assert(views.take(views.len() as int) =~= views);
    target
}

impl ArchiveDir {
    /// Begins to extract a tar archive into the directory.
    pub fn begin_tar(&self) -> (extraction: TarExtraction)
        ensures
            extraction@ == (SpecTarExtraction { directory: self@, deferred: seq![] }),
    {
        let extraction = TarExtraction { directory: self.path().clone(), deferred: Vec::new() };
        assert(extraction@.deferred =~= seq![]);
        extraction
    }
}

impl TarExtraction {
    /// Takes the next entry and says what is to be done with it now.
    pub fn take_entry(&mut self, flag: u8, path: Option<FsPath>) -> (action: Result<
        TarAction,
        ArchiveError,
    >)
        ensures
            ({
                let entry = SpecTarEntry {
                    flag,
                    path: match path {
                        Some(path) => Some(path@),
                        None => None,
                    },
                };
                match take_entry(old(self)@, entry) {
                    Ok(after) => final(self)@ == after && action == Ok::<TarAction, ArchiveError>(
                        entry_action(entry),
                    ),
                    Err(error) => {
                        &&& final(self)@ == old(self)@
                        &&& action matches Err(refused) && refused@ == error
                    },
                }
            }),
    {
        let action = classify_tar_entry(flag);
        if action == TarAction::DeferDirectory {
            let path = match path {
                Some(path) => path,
                None => {
                    return Err(ArchiveError::DirectoryEntryPath);
                },
            };
            if has_parent_dir(&path.components()) {
                return Ok(TarAction::Ignore);
            }
            self.deferred.push(path);
            assert(self@.deferred =~= old(self)@.deferred.push(
                place(self@.directory, components(path@)),
            ));
        }
        Ok(action)
    }

    /// Ends the taking of entries: what is left are the directories that were put off, in
    /// the order in which the archive has them.
    pub fn finish(self) -> (directories: TarDirectories)
        ensures
            directories@ == (SpecTarDirectories {
                directory: self@.directory,
                targets: self@.deferred,
                next: 0,
            }),
            all_stand_below(directories@.directory, directories@.targets),
    {
        let mut targets: Vec<FsPath> = Vec::new();
        let mut i: usize = 0;
        while i < self.deferred.len()
            invariant
                i <= self.deferred.len(),
                targets@.len() == i,
                forall|j: int|
                    0 <= j < i ==> (#[trigger] targets@[j])@ == place(
                        self.directory@,
                        components(self.deferred@[j]@),
                    ),
            decreases self.deferred.len() - i,
        {
            targets.push(place_below(&self.directory, &self.deferred[i].components()));
            i = i + 1;
        }
        proof {
            let found = path_views(targets@);
            assert(found =~= self@.deferred);
            assert forall|j: int| 0 <= j < found.len() implies stands_below(
                self.directory@,
                #[trigger] found[j],
            ) by {
                law_place_stands_below(self.directory@, self.deferred@[j]@);
            }
        }
        TarDirectories { directory: ArchiveDir::new(self.directory, None), targets, next: 0 }
    }
}

impl TarDirectories {
    /// Says which directory is to be created next, if there is one. `probe` tells what
    /// stands at a location; a directory that a symlink leads outside is refused.
    pub fn next_directory<F: Fn(&FsPath) -> LinkStatus>(&mut self, probe: F) -> (next: Result<
        Option<FsPath>,
        ArchiveError,
    >)
        requires
            forall|asked: &FsPath| #[trigger] call_requires(probe, (asked,)),
        ensures
            old(self)@.step_can_be(probe, resolved_view(next), final(self)@),
            forall|disk: Disk| #[trigger]
                answers_from(probe, disk) ==> (resolved_view(next), final(self)@)
                    == old(self)@.step(disk),
            next matches Ok(Some(target)) ==> stands_below(old(self)@.directory, target@),
    {
        proof {
            use_type_invariant(&*self);
        }
        if self.next >= self.targets.len() {
            return Ok(None);
        }
        let target = self.targets[self.next].clone();
        let ghost asked = probe;
        let verdict = self.directory.ensure_contains(&target, probe);
        assert(target@ == self@.targets[self@.next as int]);
        assert(containment_can_be(
            self@.directory,
            self@.targets[self@.next as int],
            asked,
            verdict_view(verdict),
        ));
        match verdict {
            Ok(()) => {
                self.next = self.next + 1;
                Ok(Some(target))
            },
            Err(error) => {
                self.next = self.targets.len();
                Err(error)
            },
        }
    }
}

} // verus!
