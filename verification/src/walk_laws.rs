//! What a walk comes to on a disk that does not change while it goes on.

use crate::error::SpecError;
use crate::path::FsPath;
use crate::path_laws::{law_join_appends_name, law_starts_with_is_transitive};
use crate::path_text::{is_name, join, starts_with, SpecComponent};
use crate::walk::{
    advance, enter, leads_to, questions_left, LinkStatus, SpecLinkStatus, SpecStep, SpecWalk,
};
use vstd::prelude::*;

verus! {

/// What stands at every location.
pub type Disk = spec_fn(Seq<u8>) -> SpecLinkStatus;

/// Whether `probe` says what `disk` holds.
pub open spec fn answers_from<F: Fn(&FsPath) -> LinkStatus>(probe: F, disk: Disk) -> bool {
    forall|asked: FsPath, status: LinkStatus| #[trigger]
        call_ensures(probe, (&asked,), status) ==> status@ == disk(asked@)
}

/// How a walk that goes on from `step` ends on `disk`.
pub open spec fn run(step: Result<SpecStep, SpecError>, disk: Disk) -> Result<Seq<u8>, SpecError>
    decreases questions_left(step),
{
    match step {
        Err(error) => Err(error),
        Ok(SpecStep::Contained(location)) => Ok(location),
        Ok(SpecStep::Probe(walk)) => run(advance(walk, disk(walk.location)), disk),
    }
}

/// A walk that is told what the disk holds ends the one way that the disk dictates.
pub proof fn law_walk_follows_disk<F: Fn(&FsPath) -> LinkStatus>(
    step: Result<SpecStep, SpecError>,
    probe: F,
    disk: Disk,
    outcome: Result<Seq<u8>, SpecError>,
)
    requires
        answers_from(probe, disk),
        leads_to(step, probe, outcome),
    ensures
        outcome == run(step, disk),
    decreases questions_left(step),
{
    if let Ok(SpecStep::Probe(walk)) = step {
        let (asked, status) = choose|asked: FsPath, status: LinkStatus|
            {
                &&& asked@ == walk.location
                &&& #[trigger] call_ensures(probe, (&asked,), status)
                &&& leads_to(advance(walk, status@), probe, outcome)
            };
        law_walk_follows_disk(advance(walk, status@), probe, disk, outcome);
    }
}

/// Where one ends up by going to `location`: a symlink is followed.
pub open spec fn landing(disk: Disk, location: Seq<u8>) -> Seq<u8> {
    match disk(location) {
        SpecLinkStatus::Resolved(resolved) => resolved,
        _ => location,
    }
}

/// The location that a component leads to.
pub open spec fn location_of(from: Seq<u8>, component: SpecComponent) -> Seq<u8> {
    match component {
        SpecComponent::Normal(name) => join(from, name),
        _ => from,
    }
}

/// Where one stands after the first `count` of `parts`, coming from `from` and following
/// every symlink.
pub open spec fn trail(from: Seq<u8>, parts: Seq<SpecComponent>, disk: Disk, count: nat) -> Seq<
    u8,
>
    decreases count,
{
    if count == 0 {
        from
    } else {
        trail(
            landing(disk, location_of(from, parts[0])),
            parts.skip(1),
            disk,
            (count - 1) as nat,
        )
    }
}

/// A trail depends on the components that it has entered, and on no others.
pub proof fn lemma_trail_of_prefix(
    from: Seq<u8>,
    parts: Seq<SpecComponent>,
    prefix: Seq<SpecComponent>,
    disk: Disk,
    count: nat,
)
    requires
        count <= prefix.len() <= parts.len(),
        forall|i: int| 0 <= i < prefix.len() ==> #[trigger] prefix[i] == parts[i],
    ensures
        trail(from, prefix, disk, count) == trail(from, parts, disk, count),
    decreases count,
{
    if count > 0 {
        let there = landing(disk, location_of(from, parts[0]));
        assert(prefix[0] == parts[0]);
        assert forall|i: int| 0 <= i < prefix.skip(1).len() implies #[trigger] prefix.skip(1)[i]
            == parts.skip(1)[i] by {
            assert(prefix[i + 1] == parts[i + 1]);
        }
        lemma_trail_of_prefix(there, parts.skip(1), prefix.skip(1), disk, (count - 1) as nat);
    }
}

/// What keeps a walk below `directory` from entering `component` at `from`, if anything
/// does.
pub open spec fn obstacle(
    directory: Seq<u8>,
    path: Seq<u8>,
    disk: Disk,
    from: Seq<u8>,
    component: SpecComponent,
) -> Option<SpecError> {
    match component {
        SpecComponent::Normal(name) => {
            let location = join(from, name);
            match disk(location) {
                SpecLinkStatus::NotSymlink => None,
                SpecLinkStatus::Unresolved => Some(SpecError::CanonicalizeSymlink { location }),
                SpecLinkStatus::Resolved(resolved) => if starts_with(resolved, directory) {
                    None
                } else {
                    Some(SpecError::SymlinkOutside { location, resolved, directory })
                },
            }
        },
        _ => Some(SpecError::UnexpectedComponent { component, path }),
    }
}

/// Without an obstacle a walk is contained, and it ends where its trail ends.
pub proof fn law_free_walk_is_contained(
    directory: Seq<u8>,
    path: Seq<u8>,
    from: Seq<u8>,
    parts: Seq<SpecComponent>,
    disk: Disk,
)
    requires
        forall|i: int|
            #![trigger parts[i]]
            0 <= i < parts.len() ==> obstacle(
                directory,
                path,
                disk,
                trail(from, parts, disk, i as nat),
                parts[i],
            ) is None,
    ensures
        run(enter(directory, path, from, parts), disk) == Ok::<Seq<u8>, SpecError>(
            trail(from, parts, disk, parts.len()),
        ),
    decreases parts.len(),
{
    if parts.len() > 0 {
        assert(obstacle(directory, path, disk, trail(from, parts, disk, 0), parts[0]) is None);
        let there = landing(disk, location_of(from, parts[0]));
        let rest = parts.skip(1);
        assert forall|i: int| #![trigger rest[i]] 0 <= i < rest.len() implies obstacle(
            directory,
            path,
            disk,
            trail(there, rest, disk, i as nat),
            rest[i],
        ) is None by {
            assert(rest[i] == parts[i + 1]);
            assert(trail(from, parts, disk, (i + 1) as nat) == trail(there, rest, disk, i as nat));
        }
        law_free_walk_is_contained(directory, path, there, rest, disk);
        assert(trail(from, parts, disk, parts.len()) == trail(there, rest, disk, rest.len()));
    }
}

/// The first obstacle on the trail ends the walk, with the error it stands for.
pub proof fn law_first_obstacle_ends_walk(
    directory: Seq<u8>,
    path: Seq<u8>,
    from: Seq<u8>,
    parts: Seq<SpecComponent>,
    disk: Disk,
    first: int,
    error: SpecError,
)
    requires
        0 <= first < parts.len(),
        obstacle(directory, path, disk, trail(from, parts, disk, first as nat), parts[first])
            == Some(error),
        forall|i: int|
            #![trigger parts[i]]
            0 <= i < first ==> obstacle(
                directory,
                path,
                disk,
                trail(from, parts, disk, i as nat),
                parts[i],
            ) is None,
    ensures
        run(enter(directory, path, from, parts), disk) == Err::<Seq<u8>, SpecError>(error),
    decreases parts.len(),
{
    reveal_with_fuel(run, 2);
    if first > 0 {
        assert(obstacle(directory, path, disk, trail(from, parts, disk, 0), parts[0]) is None);
        let there = landing(disk, location_of(from, parts[0]));
        let rest = parts.skip(1);
        assert forall|i: int| #![trigger rest[i]] 0 <= i < first - 1 implies obstacle(
            directory,
            path,
            disk,
            trail(there, rest, disk, i as nat),
            rest[i],
        ) is None by {
            assert(rest[i] == parts[i + 1]);
            assert(trail(from, parts, disk, (i + 1) as nat) == trail(there, rest, disk, i as nat));
        }
        assert(rest[first - 1] == parts[first]);
        assert(trail(from, parts, disk, first as nat) == trail(
            there,
            rest,
            disk,
            (first - 1) as nat,
        ));
        law_first_obstacle_ends_walk(directory, path, there, rest, disk, first - 1, error);
    }
}

/// As long as there is no obstacle, the trail stays inside the directory it starts in, and
/// so does every location that is asked about.
pub proof fn law_free_trail_stays_inside(
    directory: Seq<u8>,
    path: Seq<u8>,
    from: Seq<u8>,
    parts: Seq<SpecComponent>,
    disk: Disk,
    count: int,
)
    requires
        0 <= count <= parts.len(),
        starts_with(from, directory),
        names_are_valid(parts),
        forall|i: int|
            #![trigger parts[i]]
            0 <= i < count ==> obstacle(
                directory,
                path,
                disk,
                trail(from, parts, disk, i as nat),
                parts[i],
            ) is None,
    ensures
        starts_with(trail(from, parts, disk, count as nat), directory),
        count < parts.len() ==> starts_with(
            location_of(trail(from, parts, disk, count as nat), parts[count]),
            directory,
        ),
    decreases count,
{
    if count == 0 {
        if parts.len() > 0 {
            lemma_location_stays_inside(directory, from, parts[0]);
        }
    } else {
        assert(obstacle(directory, path, disk, trail(from, parts, disk, 0), parts[0]) is None);
        lemma_location_stays_inside(directory, from, parts[0]);
        let there = landing(disk, location_of(from, parts[0]));
        let rest = parts.skip(1);
        assert forall|i: int| #![trigger rest[i]] 0 <= i < count - 1 implies obstacle(
            directory,
            path,
            disk,
            trail(there, rest, disk, i as nat),
            rest[i],
        ) is None by {
            assert(rest[i] == parts[i + 1]);
            assert(trail(from, parts, disk, (i + 1) as nat) == trail(there, rest, disk, i as nat));
        }
        assert forall|i: int| #![trigger rest[i]] 0 <= i < rest.len() implies (
        rest[i] matches SpecComponent::Normal(name) ==> is_name(name)) by {
            assert(rest[i] == parts[i + 1]);
        }
        law_free_trail_stays_inside(directory, path, there, rest, disk, count - 1);
        assert(count < parts.len() ==> rest[count - 1] == parts[count]);
    }
}

/// Whether a step keeps to `directory`: what it asks about, or where it ended, lies inside.
pub open spec fn keeps_inside(directory: Seq<u8>, step: Result<SpecStep, SpecError>) -> bool {
    match step {
        Err(_) => true,
        Ok(SpecStep::Contained(location)) => starts_with(location, directory),
        Ok(SpecStep::Probe(walk)) => {
            &&& walk.directory == directory
            &&& starts_with(walk.location, directory)
            &&& names_are_valid(walk.pending)
        },
    }
}

/// Whether every name among `parts` is the name of a file or directory.
pub open spec fn names_are_valid(parts: Seq<SpecComponent>) -> bool {
    forall|i: int|
        #![trigger parts[i]]
        0 <= i < parts.len() ==> (parts[i] matches SpecComponent::Normal(name) ==> is_name(name))
}

/// Entering a component from inside the directory keeps inside.
pub proof fn law_enter_keeps_inside(
    directory: Seq<u8>,
    path: Seq<u8>,
    from: Seq<u8>,
    parts: Seq<SpecComponent>,
)
    requires
        starts_with(from, directory),
        names_are_valid(parts),
    ensures
        keeps_inside(directory, enter(directory, path, from, parts)),
{
    if parts.len() > 0 {
        lemma_location_stays_inside(directory, from, parts[0]);
        assert forall|i: int| #![trigger parts.skip(1)[i]] 0 <= i < parts.skip(1).len() implies (
        parts.skip(1)[i] matches SpecComponent::Normal(name) ==> is_name(name)) by {
            assert(parts.skip(1)[i] == parts[i + 1]);
        }
    }
}

/// Whatever a walk is told, it keeps inside.
pub proof fn law_advance_keeps_inside(
    directory: Seq<u8>,
    walk: SpecWalk,
    status: SpecLinkStatus,
)
    requires
        keeps_inside(directory, Ok(SpecStep::Probe(walk))),
    ensures
        keeps_inside(directory, advance(walk, status)),
{
    match status {
        SpecLinkStatus::NotSymlink => {
            law_enter_keeps_inside(directory, walk.path, walk.location, walk.pending);
        },
        SpecLinkStatus::Unresolved => {},
        SpecLinkStatus::Resolved(resolved) => {
            if starts_with(resolved, directory) {
                law_enter_keeps_inside(directory, walk.path, resolved, walk.pending);
            }
        },
    }
}

/// A walk that is contained ends inside the directory, even on a disk that changes while
/// it goes on.
pub proof fn law_contained_walk_ends_inside<F: Fn(&FsPath) -> LinkStatus>(
    directory: Seq<u8>,
    step: Result<SpecStep, SpecError>,
    probe: F,
    location: Seq<u8>,
)
    requires
        keeps_inside(directory, step),
        leads_to(step, probe, Ok(location)),
    ensures
        starts_with(location, directory),
    decreases questions_left(step),
{
    if let Ok(SpecStep::Probe(walk)) = step {
        let (asked, status) = choose|asked: FsPath, status: LinkStatus|
            {
                &&& asked@ == walk.location
                &&& #[trigger] call_ensures(probe, (&asked,), status)
                &&& leads_to(advance(walk, status@), probe, Ok(location))
            };
        law_advance_keeps_inside(directory, walk, status@);
        law_contained_walk_ends_inside(directory, advance(walk, status@), probe, location);
    }
}

/// A component leads no further up than where one stands.
pub proof fn lemma_location_stays_inside(
    directory: Seq<u8>,
    from: Seq<u8>,
    component: SpecComponent,
)
    requires
        starts_with(from, directory),
        component matches SpecComponent::Normal(name) ==> is_name(name),
    ensures
        starts_with(location_of(from, component), directory),
{
    if let SpecComponent::Normal(name) = component {
        law_join_appends_name(from, name);
        law_starts_with_is_transitive(join(from, name), from, directory);
    }
}

} // verus!
