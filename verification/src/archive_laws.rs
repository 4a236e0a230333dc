//! Laws of the directory that archives are extracted into.

use crate::archive_dir::{
    containment, containment_can_be, containment_check, directory_path, entry_check,
    normal_components, only_normal, resolution, resolution_can_be,
};
use crate::error::SpecError;
use crate::path::FsPath;
use crate::path_laws::{
    law_components_are_valid, law_join_appends_components, relative_components,
};
use crate::path_text::{
    components, dot, dot_dot, is_absolute, join, root_component, segment_component,
    segment_components, segments, starts_with, SpecComponent,
};
use crate::seq_lemmas::{lemma_filter_contains, lemma_first_failure, lemma_skip_front};
use crate::walk::{
    advance, leads_to, questions_left, LinkStatus, SpecLinkStatus, SpecStep,
};
use crate::walk_laws::{
    answers_from, keeps_inside, law_enter_keeps_inside, law_first_obstacle_ends_walk,
    law_free_trail_stays_inside, law_free_walk_is_contained, law_walk_follows_disk,
    lemma_trail_of_prefix, names_are_valid, obstacle, run, trail, Disk,
};
use vstd::prelude::*;

verus! {

/// Whether some segment of `name` is `..`.
pub open spec fn climbs(name: Seq<u8>) -> bool {
    segments(name).contains(dot_dot())
}

/// `..` is a component wherever it is a segment, and nothing else makes it one.
pub proof fn lemma_parent_dirs(run: Seq<Seq<u8>>, opens: bool)
    ensures
        segment_components(run, opens).contains(SpecComponent::ParentDir) <==> run.contains(
            dot_dot(),
        ),
    decreases run.len(),
{
    if run.len() > 0 {
        let (front, last) = (run.drop_last(), run.last());
        lemma_parent_dirs(front, opens);
        let (a, b) = (
            segment_components(front, opens),
            segment_component(last, opens && run.len() == 1),
        );
        let whole = segment_components(run, opens);
        assert(dot_dot().len() == 2 && dot().len() == 1);
        if run.contains(dot_dot()) {
            let i = choose|i: int| 0 <= i < run.len() && run[i] == dot_dot();
            if i == run.len() - 1 {
                assert(whole[a.len() as int] == SpecComponent::ParentDir);
            } else {
                assert(front[i] == dot_dot());
                let k = choose|k: int| 0 <= k < a.len() && a[k] == SpecComponent::ParentDir;
                assert(whole[k] == SpecComponent::ParentDir);
            }
        }
        if whole.contains(SpecComponent::ParentDir) {
            let k = choose|k: int| 0 <= k < whole.len() && whole[k] == SpecComponent::ParentDir;
            if k < a.len() {
                assert(a[k] == SpecComponent::ParentDir);
                let i = choose|i: int| 0 <= i < front.len() && front[i] == dot_dot();
                assert(run[i] == dot_dot());
            } else {
                assert(run[run.len() - 1] == dot_dot());
            }
        }
    }
}

/// A name is taken for an entry exactly if it is not absolute and no segment of it is `..`.
pub proof fn law_accepted_names(name: Seq<u8>)
    ensures
        only_normal(components(name)) <==> !is_absolute(name) && !climbs(name),
{
    let parts = components(name);
    let rest = segment_components(segments(name), true);
    lemma_parent_dirs(segments(name), true);
    law_components_are_valid(name);
    assert(parts == root_component(name) + rest);
    if is_absolute(name) {
        assert(parts[0] == SpecComponent::RootDir);
    } else {
        assert(parts =~= rest);
        if climbs(name) {
            let k = choose|k: int| 0 <= k < rest.len() && rest[k] == SpecComponent::ParentDir;
            assert(parts[k] == SpecComponent::ParentDir);
        } else {
            assert forall|i: int| 0 <= i < parts.len() implies (#[trigger] parts[i]) is Normal
                || parts[i] is CurDir by {
                if parts[i] == SpecComponent::ParentDir {
                    assert(rest.contains(rest[i]));
                }
            }
        }
    }
}

/// Leaving out what is not a name is the same as leaving out a leading `.`.
proof fn lemma_names_of_run(run: Seq<Seq<u8>>, opens: bool)
    requires
        !run.contains(dot_dot()),
    ensures
        normal_components(segment_components(run, opens)) == segment_components(run, false),
    decreases run.len(),
{
    reveal(Seq::filter);
    let wanted = |part: SpecComponent| part is Normal;
    if run.len() > 0 {
        let (front, last) = (run.drop_last(), run.last());
        assert(!front.contains(dot_dot())) by {
            if front.contains(dot_dot()) {
                let i = choose|i: int| 0 <= i < front.len() && front[i] == dot_dot();
                assert(run[i] == dot_dot());
            }
        }
        lemma_names_of_run(front, opens);
        assert(last != dot_dot()) by {
            assert(run.contains(run[run.len() - 1]));
        }
        let (a, b) = (
            segment_components(front, opens),
            segment_component(last, opens && run.len() == 1),
        );
        if b.len() == 0 {
            assert(a + b =~= a);
            assert(segment_components(front, false) + segment_component(last, false)
                =~= segment_components(front, false));
        } else {
            assert((a + b).drop_last() =~= a);
            assert((a + b).last() == b[0]);
            assert(normal_components(a + b) =~= segment_components(front, false)
                + segment_component(last, false));
        }
    }
}

/// The names of an accepted entry are its components below the directory.
proof fn lemma_names_of_entry(name: Seq<u8>)
    requires
        only_normal(components(name)),
    ensures
        normal_components(components(name)) == relative_components(name),
{
    law_accepted_names(name);
    assert(components(name) =~= segment_components(segments(name), true));
    lemma_names_of_run(segments(name), true);
}

/// An accepted entry lands below the directory, under its own names.
pub proof fn law_entry_lands_below_directory(directory: Seq<u8>, name: Seq<u8>)
    requires
        only_normal(components(name)),
    ensures
        starts_with(join(directory, name), directory),
        directory.len() > 0 ==> components(join(directory, name)) == components(directory)
            + normal_components(components(name)),
{
    law_accepted_names(name);
    lemma_names_of_entry(name);
    if directory.len() > 0 {
        law_join_appends_components(directory, name);
        assert(components(directory) =~= (components(directory) + relative_components(
            name,
        )).subrange(0, components(directory).len() as int));
    } else {
        assert(directory =~= Seq::<u8>::empty());
        reveal_with_fuel(segment_components, 2);
        assert(components(directory) =~= seq![]);
        assert(components(directory) =~= components(join(directory, name)).subrange(0, 0));
    }
}

/// Resolving an accepted entry is checking that the directory contains its target.
pub proof fn law_resolving_checks_containment(directory: Seq<u8>, name: Seq<u8>, disk: Disk)
    requires
        directory.len() > 0,
        only_normal(components(name)),
    ensures
        entry_check(directory, name) == containment_check(directory, join(directory, name)),
        resolution(directory, name, disk) == match containment(
            directory,
            join(directory, name),
            disk,
        ) {
            Ok(_) => Ok(Some(join(directory, name))),
            Err(error) => Err(error),
        },
{
    law_entry_lands_below_directory(directory, name);
    lemma_skip_front(components(directory), normal_components(components(name)));
    let target = join(directory, name);
    assert(entry_check(directory, name) == containment_check(directory, target));
}

/// A path is found to be contained or not the one way that the disk dictates.
pub proof fn law_containment_follows_disk<F: Fn(&FsPath) -> LinkStatus>(
    directory: Seq<u8>,
    path: Seq<u8>,
    probe: F,
    disk: Disk,
    verdict: Result<(), SpecError>,
)
    requires
        answers_from(probe, disk),
        containment_can_be(directory, path, probe, verdict),
    ensures
        verdict == containment(directory, path, disk),
{
    let start = containment_check(directory, path);
    match verdict {
        Ok(()) => {
            let location = choose|location: Seq<u8>| #[trigger]
                leads_to(start, probe, Ok(location));
            law_walk_follows_disk(start, probe, disk, Ok(location));
            assert(verdict->Ok_0 == ());
        },
        Err(error) => {
            law_walk_follows_disk(start, probe, disk, Err(error));
        },
    }
}

/// An entry is resolved the one way that the disk dictates.
pub proof fn law_resolution_follows_disk<F: Fn(&FsPath) -> LinkStatus>(
    directory: Seq<u8>,
    name: Seq<u8>,
    probe: F,
    disk: Disk,
    resolved: Result<Option<Seq<u8>>, SpecError>,
)
    requires
        answers_from(probe, disk),
        resolution_can_be(directory, name, probe, resolved),
    ensures
        resolved == resolution(directory, name, disk),
{
    let start = entry_check(directory, name);
    match resolved {
        Ok(None) => {},
        Ok(Some(target)) => {
            let location = choose|location: Seq<u8>| #[trigger]
                leads_to(start, probe, Ok(location));
            law_walk_follows_disk(start, probe, disk, Ok(location));
        },
        Err(error) => {
            law_walk_follows_disk(start, probe, disk, Err(error));
        },
    }
}

/// The components of `path` below `directory`.
pub open spec fn below(directory: Seq<u8>, path: Seq<u8>) -> Seq<SpecComponent> {
    components(path).skip(components(directory).len() as int)
}

/// The names below a directory are names.
proof fn lemma_names_below(directory: Seq<u8>, path: Seq<u8>)
    requires
        starts_with(path, directory),
    ensures
        names_are_valid(below(directory, path)),
{
    law_components_are_valid(path);
    let parts = below(directory, path);
    assert forall|i: int| #![trigger parts[i]] 0 <= i < parts.len() implies (
    parts[i] matches SpecComponent::Normal(name) ==> crate::path_text::is_name(name)) by {
        assert(parts[i] == components(path)[i + components(directory).len()]);
    }
}

/// A containment check never asks about a location outside the directory.
pub proof fn law_containment_check_keeps_inside(directory: Seq<u8>, path: Seq<u8>)
    ensures
        keeps_inside(directory, containment_check(directory, path)),
{
    if starts_with(path, directory) {
        lemma_names_below(directory, path);
        assert(components(directory) =~= components(directory).subrange(
            0,
            components(directory).len() as int,
        ));
        law_enter_keeps_inside(directory, path, directory, below(directory, path));
    }
}

/// Nor does an entry check.
pub proof fn law_entry_check_keeps_inside(directory: Seq<u8>, name: Seq<u8>)
    ensures
        keeps_inside(directory, entry_check(directory, name)),
{
    let parts = components(name);
    let names = normal_components(parts);
    law_components_are_valid(name);
    let wanted = |part: SpecComponent| part is Normal;
    assert forall|i: int| #![trigger names[i]] 0 <= i < names.len() implies (
    names[i] matches SpecComponent::Normal(name) ==> crate::path_text::is_name(name)) by {
        lemma_filter_contains(parts, wanted, names[i]);
        assert(names.contains(names[i]));
        let k = choose|k: int| 0 <= k < parts.len() && parts[k] == names[i];
        assert(components(name)[k] == names[i]);
    }
    assert(components(directory) =~= components(directory).subrange(
        0,
        components(directory).len() as int,
    ));
    law_enter_keeps_inside(directory, join(directory, name), directory, names);
}

/// A directory contains a path exactly if the path lies under it and nothing on the trail
/// of the path stands in the way: every component below the directory is a name, and
/// every symlink met on the way can be followed and leads back inside.
pub proof fn law_contained_iff_no_obstacle(directory: Seq<u8>, path: Seq<u8>, disk: Disk)
    ensures
        containment(directory, path, disk) is Ok <==> {
            let parts = below(directory, path);
            &&& starts_with(path, directory)
            &&& forall|i: int|
                #![trigger parts[i]]
                0 <= i < parts.len() ==> obstacle(
                    directory,
                    path,
                    disk,
                    trail(directory, parts, disk, i as nat),
                    parts[i],
                ) is None
        },
{
    if starts_with(path, directory) {
        let parts = below(directory, path);
        let free = |i: int|
            obstacle(directory, path, disk, trail(directory, parts, disk, i as nat), parts[i])
                is None;
        if forall|i: int| 0 <= i < parts.len() ==> #[trigger] free(i) {
            assert forall|i: int| #![trigger parts[i]] 0 <= i < parts.len() implies obstacle(
                directory,
                path,
                disk,
                trail(directory, parts, disk, i as nat),
                parts[i],
            ) is None by {
                assert(free(i));
            }
            law_free_walk_is_contained(directory, path, directory, parts, disk);
        } else {
            let bad = choose|i: int| 0 <= i < parts.len() && !#[trigger] free(i);
            let first = lemma_first_failure(free, bad);
            let error = obstacle(
                directory,
                path,
                disk,
                trail(directory, parts, disk, first as nat),
                parts[first],
            )->0;
            assert forall|i: int| #![trigger parts[i]] 0 <= i < first implies obstacle(
                directory,
                path,
                disk,
                trail(directory, parts, disk, i as nat),
                parts[i],
            ) is None by {
                assert(free(i));
            }
            law_first_obstacle_ends_walk(directory, path, directory, parts, disk, first, error);
        }
    }
}

/// Whether `path` lies under `directory` and leads nowhere else on `disk`: however many of
/// its components below the directory one follows, symlinks included, one is still inside.
pub open spec fn leads_inside(directory: Seq<u8>, path: Seq<u8>, disk: Disk) -> bool {
    &&& starts_with(path, directory)
    &&& forall|count: nat|
        count <= below(directory, path).len() ==> starts_with(
            #[trigger] trail(directory, below(directory, path), disk, count),
            directory,
        )
}

/// A contained path leads inside, with every part of it, and the walk ends where it leads.
pub proof fn law_contained_path_leads_inside(directory: Seq<u8>, path: Seq<u8>, disk: Disk)
    requires
        containment(directory, path, disk) is Ok,
    ensures
        leads_inside(directory, path, disk),
        run(containment_check(directory, path), disk) == Ok::<Seq<u8>, SpecError>(
            trail(directory, below(directory, path), disk, below(directory, path).len()),
        ),
{
    law_contained_iff_no_obstacle(directory, path, disk);
    let parts = below(directory, path);
    lemma_names_below(directory, path);
    law_free_walk_is_contained(directory, path, directory, parts, disk);
    assert(components(directory) =~= components(directory).subrange(
        0,
        components(directory).len() as int,
    ));
    assert forall|count: nat| count <= parts.len() implies starts_with(
        #[trigger] trail(directory, parts, disk, count),
        directory,
    ) by {
        law_free_trail_stays_inside(directory, path, directory, parts, disk, count as int);
    }
}

/// Everything lies under the empty path.
pub proof fn lemma_everything_is_under_nothing(path: Seq<u8>)
    ensures
        starts_with(path, Seq::<u8>::empty()),
{
    reveal_with_fuel(segment_components, 2);
    assert(components(Seq::<u8>::empty()) =~= seq![]);
    assert(components(Seq::<u8>::empty()) =~= components(path).subrange(0, 0));
}

/// What an entry is resolved to leads inside, with every part of it.
pub proof fn law_resolved_entry_leads_inside(directory: Seq<u8>, name: Seq<u8>, disk: Disk)
    ensures
        resolution(directory, name, disk) matches Ok(Some(target)) ==> leads_inside(
            directory,
            target,
            disk,
        ),
{
    if only_normal(components(name)) {
        let target = join(directory, name);
        if directory.len() > 0 {
            law_resolving_checks_containment(directory, name, disk);
            if containment(directory, target, disk) is Ok {
                law_contained_path_leads_inside(directory, target, disk);
            }
        } else {
            assert(directory =~= Seq::<u8>::empty());
            lemma_everything_is_under_nothing(target);
            assert forall|count: nat| count <= below(directory, target).len() implies starts_with(
                #[trigger] trail(directory, below(directory, target), disk, count),
                directory,
            ) by {
                lemma_everything_is_under_nothing(
                    trail(directory, below(directory, target), disk, count),
                );
            }
        }
    }
}

/// What lies above a path that leads inside leads inside as well, as long as it is still
/// under the directory.
pub proof fn law_above_leads_inside(
    directory: Seq<u8>,
    path: Seq<u8>,
    above: Seq<u8>,
    disk: Disk,
)
    requires
        leads_inside(directory, path, disk),
        starts_with(path, above),
        starts_with(above, directory),
    ensures
        leads_inside(directory, above, disk),
{
    let (whole, part) = (below(directory, path), below(directory, above));
    let (a, b, c) = (components(directory), components(above), components(path));
    assert forall|i: int| 0 <= i < part.len() implies #[trigger] part[i] == whole[i] by {
        assert(part[i] == b[i + a.len()]);
        assert(whole[i] == c[i + a.len()]);
        assert(c.subrange(0, b.len() as int)[i + a.len()] == c[i + a.len()]);
    }
    assert forall|count: nat| count <= part.len() implies starts_with(
        #[trigger] trail(directory, part, disk, count),
        directory,
    ) by {
        lemma_trail_of_prefix(directory, whole, part, disk, count);
        assert(starts_with(trail(directory, whole, disk, count), directory));
    }
}

/// A path that does not lie under the directory is refused for that, and only such a path
/// is.
pub proof fn law_path_outside_is_refused(directory: Seq<u8>, path: Seq<u8>, disk: Disk)
    ensures
        containment(directory, path, disk) == Err::<(), SpecError>(
            SpecError::NotUnderDirectory { path, directory },
        ) <==> !starts_with(path, directory),
{
    if starts_with(path, directory) {
        lemma_walk_stays_under(containment_check(directory, path), disk);
    }
}

/// A walk under way is never refused for lying outside.
proof fn lemma_walk_stays_under(step: Result<SpecStep, SpecError>, disk: Disk)
    requires
        step matches Err(error) ==> !(error is NotUnderDirectory),
    ensures
        run(step, disk) matches Err(error) ==> !(error is NotUnderDirectory),
    decreases questions_left(step),
{
    if let Ok(SpecStep::Probe(walk)) = step {
        lemma_walk_stays_under(advance(walk, disk(walk.location)), disk);
    }
}

/// Without symlinks on disk it is the text of a path that decides: the directory contains
/// it exactly if it lies under the directory and only names are below. That nothing stands
/// at the path is no reason to refuse it.
pub proof fn law_without_symlinks_text_decides(directory: Seq<u8>, path: Seq<u8>, disk: Disk)
    requires
        forall|location: Seq<u8>| #[trigger] disk(location) == SpecLinkStatus::NotSymlink,
    ensures
        containment(directory, path, disk) is Ok <==> {
            &&& starts_with(path, directory)
            &&& forall|i: int|
                0 <= i < below(directory, path).len() ==> (#[trigger] below(directory, path)[i])
                    is Normal
        },
{
    law_contained_iff_no_obstacle(directory, path, disk);
    let parts = below(directory, path);
    assert forall|i: int| #![trigger parts[i]] 0 <= i < parts.len() implies (obstacle(
        directory,
        path,
        disk,
        trail(directory, parts, disk, i as nat),
        parts[i],
    ) is None <==> parts[i] is Normal) by {
        if let SpecComponent::Normal(name) = parts[i] {
            let location = join(trail(directory, parts, disk, i as nat), name);
            assert(disk(location) == SpecLinkStatus::NotSymlink);
        }
    }
}

/// Opening a directory again, by the path it goes by, changes nothing. `canonical` is what
/// canonicalizing comes to; a canonical path is to have no other canonical path.
pub proof fn law_opening_again_changes_nothing(
    path: Seq<u8>,
    canonical: spec_fn(Seq<u8>) -> Option<Seq<u8>>,
)
    requires
        canonical(path) matches Some(found) ==> {
            canonical(found) is None || canonical(found) == Some(found)
        },
    ensures
        ({
            let opened = directory_path(path, canonical(path));
            &&& canonical(path) == Some(opened) || canonical(path) is None && opened == path
            &&& directory_path(opened, canonical(opened)) == opened
        }),
{
}

/// A directory contains itself.
pub proof fn law_directory_contains_itself(directory: Seq<u8>, disk: Disk)
    ensures
        containment(directory, directory, disk) == Ok::<(), SpecError>(()),
{
    let parts = components(directory);
    assert(parts =~= parts.subrange(0, parts.len() as int));
    assert(below(directory, directory) =~= seq![]);
}

} // verus!
