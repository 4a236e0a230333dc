//! What the symlinks on a disk mean for the paths below a directory: stated over the disk
//! and the paths, without reference to how a walk is taken.

use crate::archive_dir::{containment, normal_components, resolution};
use crate::archive_laws::{below, law_resolving_checks_containment};
use crate::error::SpecError;
use crate::path::FsPath;
use crate::path_byte_laws::{law_bytes_decide_on_names, spells_dot_dot};
use crate::path_laws::law_components_are_valid;
use crate::path_text::{components, is_name, join, starts_with, SpecComponent};
use crate::seq_lemmas::{lemma_filter_contains, lemma_skip_front};
use crate::tar::place;
use crate::walk::{advance, enter, leads_to, LinkStatus, SpecLinkStatus, SpecStep, SpecWalk};
use crate::walk_laws::{answers_from, lemma_location_stays_inside, names_are_valid, run, Disk};
use vstd::prelude::*;

verus! {

/// How a walk from `from` goes on, one component after the other. With none left it ends
/// where it stands. A name leads to one location, and what stands there decides: a symlink
/// takes the walk to what it leads to, which is to begin with the components of the
/// directory, and anything else lets it go on from the location.
pub proof fn law_walk_goes_on_from_what_it_finds(
    directory: Seq<u8>,
    path: Seq<u8>,
    from: Seq<u8>,
    first: SpecComponent,
    rest: Seq<SpecComponent>,
    disk: Disk,
)
    ensures
        run(enter(directory, path, from, Seq::empty()), disk) == Ok::<Seq<u8>, SpecError>(from),
        run(enter(directory, path, from, seq![first] + rest), disk) == match first {
            SpecComponent::Normal(name) => match disk(join(from, name)) {
                SpecLinkStatus::NotSymlink => run(
                    enter(directory, path, join(from, name), rest),
                    disk,
                ),
                SpecLinkStatus::Unresolved => Err(
                    SpecError::CanonicalizeSymlink { location: join(from, name) },
                ),
                SpecLinkStatus::Resolved(resolved) => if components(directory).is_prefix_of(
                    components(resolved),
                ) {
                    run(enter(directory, path, resolved, rest), disk)
                } else {
                    Err(
                        SpecError::SymlinkOutside {
                            location: join(from, name),
                            resolved,
                            directory,
                        },
                    )
                },
            },
            component => Err(SpecError::UnexpectedComponent { component, path }),
        },
{
    reveal_with_fuel(run, 3);
    assert((seq![first] + rest).skip(1) =~= rest);
}

/// Whether every symlink on `disk` that stands under `directory` can be followed and leads
/// to a place under it.
pub open spec fn links_lead_inside(directory: Seq<u8>, disk: Disk) -> bool {
    forall|location: Seq<u8>| #[trigger]
        starts_with(location, directory) ==> match disk(location) {
            SpecLinkStatus::NotSymlink => true,
            SpecLinkStatus::Unresolved => false,
            SpecLinkStatus::Resolved(resolved) => starts_with(resolved, directory),
        }
}

/// A walk by names meets no obstacle where all symlinks lead inside.
proof fn lemma_internal_links_are_followed(
    directory: Seq<u8>,
    path: Seq<u8>,
    from: Seq<u8>,
    parts: Seq<SpecComponent>,
    disk: Disk,
)
    requires
        links_lead_inside(directory, disk),
        starts_with(from, directory),
        names_are_valid(parts),
        forall|i: int| 0 <= i < parts.len() ==> (#[trigger] parts[i]) is Normal,
    ensures
        run(enter(directory, path, from, parts), disk) is Ok,
    decreases parts.len(),
{
    if parts.len() > 0 {
        let rest = parts.skip(1);
        assert(seq![parts[0]] + rest =~= parts);
        law_walk_goes_on_from_what_it_finds(directory, path, from, parts[0], rest, disk);
        lemma_location_stays_inside(directory, from, parts[0]);
        assert forall|i: int| 0 <= i < rest.len() implies (#[trigger] rest[i]) is Normal && (
        rest[i] matches SpecComponent::Normal(name) ==> is_name(name)) by {
            assert(rest[i] == parts[i + 1]);
        }
        let location = join(from, parts[0]->Normal_0);
        assert(starts_with(location, directory));
        let there = match disk(location) {
            SpecLinkStatus::Resolved(resolved) => resolved,
            _ => location,
        };
        lemma_internal_links_are_followed(directory, path, there, rest, disk);
    }
}

/// The components of a path under a directory, beyond those of the directory, are valid.
proof fn lemma_below_is_valid(directory: Seq<u8>, path: Seq<u8>)
    requires
        starts_with(path, directory),
    ensures
        names_are_valid(below(directory, path)),
        starts_with(directory, directory),
{
    law_components_are_valid(path);
    let parts = below(directory, path);
    assert forall|i: int| #![trigger parts[i]] 0 <= i < parts.len() implies (
    parts[i] matches SpecComponent::Normal(name) ==> is_name(name)) by {
        assert(parts[i] == components(path)[i + components(directory).len()]);
    }
    assert(components(directory) =~= components(directory).subrange(
        0,
        components(directory).len() as int,
    ));
}

/// Where every symlink under the directory leads to a place under it, however deep, the
/// directory contains each path under it that only names lead to.
pub proof fn law_internal_links_are_followed(directory: Seq<u8>, path: Seq<u8>, disk: Disk)
    requires
        links_lead_inside(directory, disk),
        starts_with(path, directory),
        forall|i: int|
            components(directory).len() <= i < components(path).len() ==> (
            #[trigger] components(path)[i]) is Normal,
    ensures
        containment(directory, path, disk) is Ok,
{
    let parts = below(directory, path);
    lemma_below_is_valid(directory, path);
    assert forall|i: int| 0 <= i < parts.len() implies (#[trigger] parts[i]) is Normal by {
        assert(parts[i] == components(path)[i + components(directory).len()]);
    }
    lemma_internal_links_are_followed(directory, path, directory, parts, disk);
}

/// Where every symlink under the directory leads to a place under it, each entry whose name
/// does not begin with a separator and does not climb goes to its place.
pub proof fn law_safe_entries_are_resolved(directory: Seq<u8>, name: Seq<u8>, disk: Disk)
    requires
        links_lead_inside(directory, disk),
        !(name.len() > 0 && name[0] == 47),
        !spells_dot_dot(name),
    ensures
        resolution(directory, name, disk) == Ok::<Option<Seq<u8>>, SpecError>(
            Some(join(directory, name)),
        ),
{
    law_bytes_decide_on_names(name);
    let parts = components(name);
    let names = normal_components(parts);
    law_components_are_valid(name);
    assert forall|i: int| #![trigger names[i]] 0 <= i < names.len() implies names[i] is Normal && (
    names[i] matches SpecComponent::Normal(part) ==> is_name(part)) by {
        lemma_filter_contains(parts, |part: SpecComponent| part is Normal, names[i]);
        assert(names.contains(names[i]));
        let k = choose|k: int| 0 <= k < parts.len() && parts[k] == names[i];
        assert(components(name)[k] == names[i]);
    }
    assert(components(directory) =~= components(directory).subrange(
        0,
        components(directory).len() as int,
    ));
    lemma_internal_links_are_followed(directory, join(directory, name), directory, names, disk);
}

/// An entry whose name begins with a separator or climbs goes nowhere, and no other entry
/// does.
pub proof fn law_unsafe_entries_go_nowhere(directory: Seq<u8>, name: Seq<u8>, disk: Disk)
    ensures
        resolution(directory, name, disk) == Ok::<Option<Seq<u8>>, SpecError>(None) <==> (
        name.len() > 0 && name[0] == 47) || spells_dot_dot(name),
        resolution(directory, name, disk) matches Ok(Some(target)) ==> target == join(
            directory,
            name,
        ),
{
    law_bytes_decide_on_names(name);
}

/// Whether an error names something on the disk, or in the path, that is a reason to refuse
/// a walk below `directory`.
pub open spec fn is_reason(
    error: SpecError,
    directory: Seq<u8>,
    path: Seq<u8>,
    parts: Seq<SpecComponent>,
    disk: Disk,
) -> bool {
    match error {
        SpecError::UnexpectedComponent { component, path: followed } => {
            &&& followed == path
            &&& parts.contains(component)
            &&& !(component is Normal)
        },
        SpecError::CanonicalizeSymlink { location } => {
            &&& starts_with(location, directory)
            &&& disk(location) is Unresolved
        },
        SpecError::SymlinkOutside { location, resolved, directory: left } => {
            &&& left == directory
            &&& starts_with(location, directory)
            &&& disk(location) == SpecLinkStatus::Resolved(resolved)
            &&& !starts_with(resolved, directory)
        },
        _ => false,
    }
}

/// A walk is refused for a reason only.
proof fn lemma_refusal_has_a_reason(
    directory: Seq<u8>,
    path: Seq<u8>,
    from: Seq<u8>,
    parts: Seq<SpecComponent>,
    disk: Disk,
)
    requires
        starts_with(from, directory),
        names_are_valid(parts),
    ensures
        run(enter(directory, path, from, parts), disk) matches Err(error) ==> is_reason(
            error,
            directory,
            path,
            parts,
            disk,
        ),
    decreases parts.len(),
{
    if parts.len() > 0 {
        let rest = parts.skip(1);
        assert(seq![parts[0]] + rest =~= parts);
        assert(parts.contains(parts[0]));
        law_walk_goes_on_from_what_it_finds(directory, path, from, parts[0], rest, disk);
        if let SpecComponent::Normal(name) = parts[0] {
            lemma_location_stays_inside(directory, from, parts[0]);
            assert forall|i: int| #![trigger rest[i]] 0 <= i < rest.len() implies (
            rest[i] matches SpecComponent::Normal(name) ==> is_name(name)) by {
                assert(rest[i] == parts[i + 1]);
            }
            let location = join(from, name);
            let there = match disk(location) {
                SpecLinkStatus::Resolved(resolved) => resolved,
                _ => location,
            };
            if starts_with(there, directory) {
                lemma_refusal_has_a_reason(directory, path, there, rest, disk);
                if let Err(SpecError::UnexpectedComponent { component, path: _ }) = run(
                    enter(directory, path, there, rest),
                    disk,
                ) {
                    if rest.contains(component) {
                        let i = choose|i: int| 0 <= i < rest.len() && rest[i] == component;
                        assert(parts[i + 1] == component);
                    }
                }
            }
        }
    }
}

/// A path is refused for a reason only: it does not lie under the directory, it has a
/// component below the directory that is no name, or a symlink that stands under the
/// directory is dangling or leads to a place that is not under it. The error says which.
pub proof fn law_refusal_has_a_reason(directory: Seq<u8>, path: Seq<u8>, disk: Disk)
    ensures
        containment(directory, path, disk) matches Err(error) ==> if starts_with(path, directory) {
            is_reason(
                error,
                directory,
                path,
                components(path).skip(components(directory).len() as int),
                disk,
            )
        } else {
            error == (SpecError::NotUnderDirectory { path, directory })
        },
        !starts_with(path, directory) ==> containment(directory, path, disk) is Err,
{
    if starts_with(path, directory) {
        lemma_below_is_valid(directory, path);
        lemma_refusal_has_a_reason(directory, path, directory, below(directory, path), disk);
    }
}

/// As long as no symlink is met, names lead on as they are written.
proof fn lemma_plain_names_lead_on(
    directory: Seq<u8>,
    path: Seq<u8>,
    from: Seq<u8>,
    parts: Seq<SpecComponent>,
    disk: Disk,
    count: int,
)
    requires
        0 <= count <= parts.len(),
        forall|j: int| 0 <= j < count ==> (#[trigger] parts[j]) is Normal,
        forall|j: int|
            0 < j <= count ==> disk(place(from, #[trigger] parts.take(j))) is NotSymlink,
    ensures
        run(enter(directory, path, from, parts), disk) == run(
            enter(directory, path, place(from, parts.take(count)), parts.skip(count)),
            disk,
        ),
    decreases count,
{
    if count == 0 {
        assert(parts.skip(0) =~= parts);
        assert(parts.take(0) =~= seq![]);
    } else {
        let before = count - 1;
        lemma_plain_names_lead_on(directory, path, from, parts, disk, before);
        assert(parts.take(count).drop_last() =~= parts.take(before));
        assert(parts.take(count).last() == parts[before]);
        assert(seq![parts[before]] + parts.skip(count) =~= parts.skip(before));
        law_walk_goes_on_from_what_it_finds(
            directory,
            path,
            place(from, parts.take(before)),
            parts[before],
            parts.skip(count),
            disk,
        );
        assert(disk(place(from, parts.take(count))) is NotSymlink);
    }
}

/// The first symlink on the way to a path decides, wherever on the way it stands. If it is
/// dangling, or leads to a place that is not under the directory, the path is refused for
/// it; otherwise the walk goes on from what it leads to. A component that is no name is
/// refused at its place.
pub proof fn law_first_symlink_decides(
    directory: Seq<u8>,
    path: Seq<u8>,
    disk: Disk,
    count: int,
)
    requires
        starts_with(path, directory),
        0 <= count < below(directory, path).len(),
        forall|j: int| 0 <= j < count ==> (#[trigger] below(directory, path)[j]) is Normal,
        forall|j: int|
            0 < j <= count ==> disk(
                place(directory, #[trigger] below(directory, path).take(j)),
            ) is NotSymlink,
    ensures
        ({
            let parts = below(directory, path);
            let location = place(directory, parts.take(count + 1));
            let verdict = containment(directory, path, disk);
            if !(parts[count] is Normal) {
                verdict == Err::<(), SpecError>(
                    SpecError::UnexpectedComponent { component: parts[count], path },
                )
            } else {
                match disk(location) {
                    SpecLinkStatus::NotSymlink => true,
                    SpecLinkStatus::Unresolved => verdict == Err::<(), SpecError>(
                        SpecError::CanonicalizeSymlink { location },
                    ),
                    SpecLinkStatus::Resolved(resolved) => if starts_with(resolved, directory) {
                        verdict is Ok <==> run(
                            enter(directory, path, resolved, parts.skip(count + 1)),
                            disk,
                        ) is Ok
                    } else {
                        verdict == Err::<(), SpecError>(
                            SpecError::SymlinkOutside { location, resolved, directory },
                        )
                    },
                }
            }
        }),
{
    let parts = below(directory, path);
    lemma_plain_names_lead_on(directory, path, directory, parts, disk, count);
    assert(parts.take(count + 1).drop_last() =~= parts.take(count));
    assert(parts.take(count + 1).last() == parts[count]);
    assert(seq![parts[count]] + parts.skip(count + 1) =~= parts.skip(count));
    law_walk_goes_on_from_what_it_finds(
        directory,
        path,
        place(directory, parts.take(count)),
        parts[count],
        parts.skip(count + 1),
        disk,
    );
}

/// Whether a walk is contained does not depend on the path that its errors name.
proof fn lemma_path_is_only_named(
    directory: Seq<u8>,
    left: Seq<u8>,
    right: Seq<u8>,
    from: Seq<u8>,
    parts: Seq<SpecComponent>,
    disk: Disk,
)
    ensures
        run(enter(directory, left, from, parts), disk) is Ok <==> run(
            enter(directory, right, from, parts),
            disk,
        ) is Ok,
    decreases parts.len(),
{
    if parts.len() > 0 {
        let rest = parts.skip(1);
        assert(seq![parts[0]] + rest =~= parts);
        law_walk_goes_on_from_what_it_finds(directory, left, from, parts[0], rest, disk);
        law_walk_goes_on_from_what_it_finds(directory, right, from, parts[0], rest, disk);
        if let SpecComponent::Normal(name) = parts[0] {
            let location = join(from, name);
            let there = match disk(location) {
                SpecLinkStatus::Resolved(resolved) => resolved,
                _ => location,
            };
            lemma_path_is_only_named(directory, left, right, there, rest, disk);
        }
    }
}

/// A symlink in the directory is as good as what it leads to: a path through the link is
/// contained exactly if the same path through its target is. The target is to be reached
/// by names, without a further symlink on the way.
pub proof fn law_links_are_transparent(
    directory: Seq<u8>,
    link: Seq<u8>,
    target: Seq<SpecComponent>,
    rest: Seq<SpecComponent>,
    through_link: Seq<u8>,
    through_target: Seq<u8>,
    disk: Disk,
)
    requires
        components(through_link) == components(directory) + (seq![SpecComponent::Normal(link)]
            + rest),
        components(through_target) == components(directory) + (target + rest),
        disk(join(directory, link)) == SpecLinkStatus::Resolved(place(directory, target)),
        starts_with(place(directory, target), directory),
        forall|j: int| 0 <= j < target.len() ==> (#[trigger] target[j]) is Normal,
        forall|j: int|
            0 < j <= target.len() ==> disk(place(directory, #[trigger] target.take(j)))
                is NotSymlink,
    ensures
        containment(directory, through_link, disk) is Ok <==> containment(
            directory,
            through_target,
            disk,
        ) is Ok,
{
    let base = components(directory);
    let (short, long) = (seq![SpecComponent::Normal(link)] + rest, target + rest);
    lemma_skip_front(base, short);
    lemma_skip_front(base, long);
    assert(base =~= (base + short).subrange(0, base.len() as int));
    assert(base =~= (base + long).subrange(0, base.len() as int));
    law_walk_goes_on_from_what_it_finds(
        directory,
        through_link,
        directory,
        SpecComponent::Normal(link),
        rest,
        disk,
    );
    let count = target.len() as int;
    assert forall|j: int| 0 <= j < count implies (#[trigger] long[j]) is Normal by {
        assert(long[j] == target[j]);
    }
    assert forall|j: int| 0 < j <= count implies disk(place(directory, #[trigger] long.take(j)))
        is NotSymlink by {
        assert(long.take(j) =~= target.take(j));
    }
    lemma_plain_names_lead_on(directory, through_target, directory, long, disk, count);
    assert(long.take(count) =~= target);
    assert(long.skip(count) =~= rest);
    lemma_path_is_only_named(
        directory,
        through_link,
        through_target,
        place(directory, target),
        rest,
        disk,
    );
}

/// An entry with a safe name is resolved exactly if the directory contains its place, and
/// is refused for the same reason.
pub proof fn law_entry_is_refused_as_its_place_is(directory: Seq<u8>, name: Seq<u8>, disk: Disk)
    requires
        directory.len() > 0,
        !(name.len() > 0 && name[0] == 47),
        !spells_dot_dot(name),
    ensures
        match containment(directory, join(directory, name), disk) {
            Ok(_) => resolution(directory, name, disk) == Ok::<Option<Seq<u8>>, SpecError>(
                Some(join(directory, name)),
            ),
            Err(error) => resolution(directory, name, disk) == Err::<
                Option<Seq<u8>>,
                SpecError,
            >(error),
        },
{
    law_bytes_decide_on_names(name);
    law_resolving_checks_containment(directory, name, disk);
}

/// A walk that asks is told something about its location, and goes on by that answer and by
/// nothing else.
pub proof fn law_answers_are_followed<F: Fn(&FsPath) -> LinkStatus>(
    walk: SpecWalk,
    probe: F,
    outcome: Result<Seq<u8>, SpecError>,
)
    ensures
        leads_to(Ok(SpecStep::Probe(walk)), probe, outcome) <==> exists|
            asked: FsPath,
            status: LinkStatus,
        |
            {
                &&& asked@ == walk.location
                &&& #[trigger] call_ensures(probe, (&asked,), status)
                &&& leads_to(advance(walk, status@), probe, outcome)
            },
        forall|disk: Disk| #[trigger]
            answers_from(probe, disk) <==> forall|asked: FsPath, status: LinkStatus| #[trigger]
                call_ensures(probe, (&asked,), status) ==> status@ == disk(asked@),
{
}

} // verus!
