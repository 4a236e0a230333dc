//! Following a path below a directory, one component at a time, without being led out of
//! the directory by a symlink.
//!
//! The walk decides; whoever runs it looks at the disk. At every component it asks what
//! stands at one location, and the [`LinkStatus`] it is told decides how it goes on.

use crate::error::{result_view, ArchiveError, SpecError};
use crate::path::{component_views, Component, FsPath};
use crate::path_text::{join, starts_with, SpecComponent};
use vstd::prelude::*;

verus! {

/// What stands at a location on disk, as far as symlinks are concerned.
#[derive(Debug, PartialEq, Eq)]
pub enum LinkStatus {
    /// No symlink: something else, or nothing at all.
    NotSymlink,
    /// A symlink that could not be canonicalized.
    Unresolved,
    /// A symlink, with the canonical path of what it leads to.
    Resolved(FsPath),
}

/// What a [`LinkStatus`] says.
pub enum SpecLinkStatus {
    NotSymlink,
    Unresolved,
    Resolved(Seq<u8>),
}

impl View for LinkStatus {
    type V = SpecLinkStatus;

    open spec fn view(&self) -> SpecLinkStatus {
        match self {
            LinkStatus::NotSymlink => SpecLinkStatus::NotSymlink,
            LinkStatus::Unresolved => SpecLinkStatus::Unresolved,
            LinkStatus::Resolved(path) => SpecLinkStatus::Resolved(path@),
        }
    }
}

/// A walk that waits to be told what stands at its location.
#[derive(Debug)]
pub struct SymlinkWalk {
    directory: FsPath,
    path: FsPath,
    location: FsPath,
    parts: Vec<Component>,
    next: usize,
}

/// What a [`SymlinkWalk`] stands for.
pub struct SpecWalk {
    /// The directory that the walk must not leave.
    pub directory: Seq<u8>,
    /// The path that is being followed.
    pub path: Seq<u8>,
    /// Where the walk stands.
    pub location: Seq<u8>,
    /// The components it has yet to enter.
    pub pending: Seq<SpecComponent>,
}

impl SymlinkWalk {
    #[verifier::type_invariant]
    spec fn is_valid(self) -> bool {
        self.next <= self.parts@.len()
    }
}

impl View for SymlinkWalk {
    type V = SpecWalk;

    closed spec fn view(&self) -> SpecWalk {
        SpecWalk {
            directory: self.directory@,
            path: self.path@,
            location: self.location@,
            pending: component_views(self.parts@).skip(self.next as int),
        }
    }
}

/// Where a walk has got to.
#[derive(Debug)]
#[must_use]
pub enum WalkStep {
    /// It asks what stands at its location.
    Probe(SymlinkWalk),
    /// It has entered every component and stayed inside; this is where it ended.
    Contained(FsPath),
}

/// What a [`WalkStep`] stands for.
pub enum SpecStep {
    Probe(SpecWalk),
    Contained(Seq<u8>),
}

impl View for WalkStep {
    type V = SpecStep;

    open spec fn view(&self) -> SpecStep {
        match self {
            WalkStep::Probe(walk) => SpecStep::Probe(walk@),
            WalkStep::Contained(location) => SpecStep::Contained(location@),
        }
    }
}

/// Entering the next pending component from `location`: a name is asked about, anything
/// else is refused, and with nothing left the walk is over.
pub open spec fn enter(
    directory: Seq<u8>,
    path: Seq<u8>,
    location: Seq<u8>,
    pending: Seq<SpecComponent>,
) -> Result<SpecStep, SpecError> {
    if pending.len() == 0 {
        Ok(SpecStep::Contained(location))
    } else {
        match pending[0] {
            SpecComponent::Normal(name) => Ok(
                SpecStep::Probe(
                    SpecWalk {
                        directory,
                        path,
                        location: join(location, name),
                        pending: pending.skip(1),
                    },
                ),
            ),
            component => Err(SpecError::UnexpectedComponent { component, path }),
        }
    }
}

/// How a walk goes on once it is told what stands at its location.
pub open spec fn advance(walk: SpecWalk, status: SpecLinkStatus) -> Result<SpecStep, SpecError> {
    match status {
        SpecLinkStatus::NotSymlink => enter(
            walk.directory,
            walk.path,
            walk.location,
            walk.pending,
        ),
        SpecLinkStatus::Unresolved => Err(
            SpecError::CanonicalizeSymlink { location: walk.location },
        ),
        SpecLinkStatus::Resolved(resolved) => if starts_with(resolved, walk.directory) {
            enter(walk.directory, walk.path, resolved, walk.pending)
        } else {
            Err(
                SpecError::SymlinkOutside {
                    location: walk.location,
                    resolved,
                    directory: walk.directory,
                },
            )
        },
    }
}

/// How often a walk may still ask.
pub open spec fn questions_left(step: Result<SpecStep, SpecError>) -> nat {
    match step {
        Ok(SpecStep::Probe(walk)) => walk.pending.len() + 1,
        _ => 0,
    }
}

/// Whether a walk that goes on from `step`, and asks `probe` about every location, can end
/// in `outcome`.
pub open spec fn leads_to<F: Fn(&FsPath) -> LinkStatus>(
    step: Result<SpecStep, SpecError>,
    probe: F,
    outcome: Result<Seq<u8>, SpecError>,
) -> bool
    decreases questions_left(step),
{
    match step {
        Err(error) => outcome == Err::<Seq<u8>, SpecError>(error),
        Ok(SpecStep::Contained(location)) => outcome == Ok::<Seq<u8>, SpecError>(location),
        Ok(SpecStep::Probe(walk)) => exists|asked: FsPath, status: LinkStatus|
            {
                &&& asked@ == walk.location
                &&& #[trigger] call_ensures(probe, (&asked,), status)
                &&& leads_to(advance(walk, status@), probe, outcome)
            },
    }
}

/// An answer takes a walk one step further.
proof fn lemma_leads_on<F: Fn(&FsPath) -> LinkStatus>(
    walk: SpecWalk,
    probe: F,
    asked: FsPath,
    status: LinkStatus,
    outcome: Result<Seq<u8>, SpecError>,
)
    requires
        asked@ == walk.location,
        call_ensures(probe, (&asked,), status),
        leads_to(advance(walk, status@), probe, outcome),
    ensures
        leads_to(Ok(SpecStep::Probe(walk)), probe, outcome),
{
}

impl SymlinkWalk {
    /// Enters the component number `next` from `location`.
    pub(crate) fn enter(
        directory: FsPath,
        path: FsPath,
        location: FsPath,
        parts: Vec<Component>,
        next: usize,
    ) -> (step: Result<WalkStep, ArchiveError>)
        requires
            next <= parts@.len(),
        ensures
            result_view(step) == enter(
                directory@,
                path@,
                location@,
                component_views(parts@).skip(next as int),
            ),
    {
        let ghost pending = component_views(parts@).skip(next as int);
        if next == parts.len() {
            return Ok(WalkStep::Contained(location));
        }
        assert(pending[0] == parts@[next as int]@);
        match &parts[next] {
            Component::Normal(name) => {
                let location = location.join(name.as_slice());
                let walk = SymlinkWalk { directory, path, location, parts, next: next + 1 };
                assert(walk@.pending =~= pending.skip(1));
                Ok(WalkStep::Probe(walk))
            },
            component => Err(
                ArchiveError::UnexpectedComponent { component: component.clone(), path },
            ),
        }
    }

    /// The location that the walk asks about.
    pub fn location(&self) -> (location: &FsPath)
        ensures
            location@ == self@.location,
    {
        &self.location
    }

    /// Goes on, given what stands at the location.
    pub fn advance(self, status: LinkStatus) -> (step: Result<WalkStep, ArchiveError>)
        ensures
            result_view(step) == advance(self@, status@),
    {
        proof {
            use_type_invariant(&self);
        }
        let SymlinkWalk { directory, path, location, parts, next } = self;
        match status {
            LinkStatus::NotSymlink => SymlinkWalk::enter(directory, path, location, parts, next),
            LinkStatus::Unresolved => Err(ArchiveError::CanonicalizeSymlink { location }),
            LinkStatus::Resolved(resolved) => {
                if resolved.starts_with(&directory) {
                    SymlinkWalk::enter(directory, path, resolved, parts, next)
                } else {
                    Err(ArchiveError::SymlinkOutside { location, resolved, directory })
                }
            },
        }
    }
}

impl WalkStep {
    /// Takes the walk to its end, asking `probe` about every location it comes to.
    pub fn finish<F: Fn(&FsPath) -> LinkStatus>(self, probe: F) -> (outcome: Result<
        FsPath,
        ArchiveError,
    >)
        requires
            forall|asked: &FsPath| #[trigger] call_requires(probe, (asked,)),
        ensures
            leads_to(Ok(self@), probe, result_view(outcome)),
    {
        let ghost start: Result<SpecStep, SpecError> = Ok(self@);
        let mut step = self;
        loop
            invariant
                start == Ok::<SpecStep, SpecError>(self@),
                forall|asked: &FsPath| #[trigger] call_requires(probe, (asked,)),
                forall|outcome: Result<Seq<u8>, SpecError>| #[trigger]
                    leads_to(Ok(step@), probe, outcome) ==> leads_to(start, probe, outcome),
            decreases questions_left(Ok(step@)),
        {
            match step {
                WalkStep::Contained(location) => {
                    assert(leads_to(Ok(step@), probe, Ok(location@)));
                    return Ok(location);
                },
                WalkStep::Probe(walk) => {
                    let ghost here = step@;
                    let ghost waiting = walk@;
                    let location = walk.location();
                    let ghost asked = *location;
                    let status = probe(location);
                    let ghost answer = status;
                    match walk.advance(status) {
                        Ok(next) => {
                            proof {
                                assert forall|outcome: Result<Seq<u8>, SpecError>| #[trigger]
                                    leads_to(Ok(next@), probe, outcome) implies leads_to(
                                    start,
                                    probe,
                                    outcome,
                                ) by {
                                    lemma_leads_on(waiting, probe, asked, answer, outcome);
                                    assert(leads_to(Ok(here), probe, outcome));
                                }
                            }
                            step = next;
                        },
                        Err(error) => {
                            proof {
                                let outcome: Result<Seq<u8>, SpecError> = Err(error@);
                                assert(leads_to(advance(waiting, answer@), probe, outcome));
                                lemma_leads_on(waiting, probe, asked, answer, outcome);
                                assert(leads_to(Ok(here), probe, outcome));
                            }
                            return Err(error);
                        },
                    }
                },
            }
        }
    }
}

} // verus!
