//! Laws of tar extraction.

use crate::archive_dir::{containment, containment_can_be, normal_components};
use crate::archive_laws::{
    below, climbs, law_contained_path_leads_inside, law_containment_follows_disk,
    law_without_symlinks_text_decides, leads_inside, lemma_parent_dirs,
};
use crate::disk_laws::{law_internal_links_are_followed, links_lead_inside};
use crate::error::SpecError;
use crate::path::FsPath;
use crate::path_byte_laws::{law_bytes_decide_on_climbing, spells_dot_dot};
use crate::path_laws::{law_components_are_valid, law_join_appends_name};
use crate::path_text::{
    components, is_name, join, root_component, segment_components, segments, SpecComponent,
};
use crate::seq_lemmas::{lemma_filter_contains, lemma_skip_front};
use crate::tar::{
    all_stand_below, directory_target, entry_action, flag_action, goes_up, place, stands_below,
    take_entry, SpecTarDirectories, SpecTarEntry, SpecTarExtraction, TarAction,
};
use crate::walk::{LinkStatus, SpecLinkStatus};
use crate::walk_laws::{answers_from, names_are_valid, Disk};
use vstd::prelude::*;

verus! {

/// Following the names among `parts` from `base` puts exactly those names below it.
pub proof fn law_place_appends_names(base: Seq<u8>, parts: Seq<SpecComponent>)
    requires
        names_are_valid(parts),
    ensures
        components(place(base, parts)) == components(base) + normal_components(parts),
    decreases parts.len(),
{
    reveal(Seq::filter);
    if parts.len() == 0 {
        assert(components(base) + normal_components(parts) =~= components(base));
    } else {
        let front = parts.drop_last();
        assert forall|i: int| #![trigger front[i]] 0 <= i < front.len() implies (
        front[i] matches SpecComponent::Normal(name) ==> is_name(name)) by {
            assert(front[i] == parts[i]);
        }
        law_place_appends_names(base, front);
        if let SpecComponent::Normal(name) = parts.last() {
            assert(parts[parts.len() - 1] == parts.last());
            law_join_appends_name(place(base, front), name);
            assert(components(place(base, parts)) =~= components(base) + normal_components(
                parts,
            ));
        }
    }
}

/// Wherever the names of `path` lead from `directory`, it stands below it. The path may be
/// absolute, or climb, or be anything else.
pub proof fn law_place_stands_below(directory: Seq<u8>, path: Seq<u8>)
    ensures
        stands_below(directory, place(directory, components(path))),
        below(directory, place(directory, components(path))) == normal_components(
            components(path),
        ),
{
    let parts = components(path);
    let names = normal_components(parts);
    let target = place(directory, parts);
    law_components_are_valid(path);
    law_place_appends_names(directory, parts);
    lemma_skip_front(components(directory), names);
    assert(components(directory) =~= components(target).subrange(
        0,
        components(directory).len() as int,
    ));
    assert forall|i: int| 0 <= i < names.len() implies (#[trigger] names[i]) is Normal by {
        assert(names.contains(names[i]));
        lemma_filter_contains(parts, |part: SpecComponent| part is Normal, names[i]);
    }
}

/// A directory entry goes nowhere, or to a place that stands below the directory: its path
/// may be absolute, or climb, or be anything else.
pub proof fn law_directory_target_stands_below(directory: Seq<u8>, path: Seq<u8>)
    ensures
        directory_target(directory, path) is None <==> goes_up(path),
        directory_target(directory, path) matches Some(target) ==> {
            &&& stands_below(directory, target)
            &&& below(directory, target) == normal_components(components(path))
        },
{
    law_place_stands_below(directory, path);
}

/// A path goes up exactly if one of its segments is `..`.
pub proof fn law_going_up_is_climbing(path: Seq<u8>)
    ensures
        goes_up(path) <==> climbs(path),
{
    let (parts, rest) = (components(path), segment_components(segments(path), true));
    lemma_parent_dirs(segments(path), true);
    let shift = root_component(path).len() as int;
    if goes_up(path) {
        let i = choose|i: int| 0 <= i < parts.len() && parts[i] == SpecComponent::ParentDir;
        assert(rest[i - shift] == SpecComponent::ParentDir);
    }
    if climbs(path) {
        let i = choose|i: int| 0 <= i < rest.len() && rest[i] == SpecComponent::ParentDir;
        assert(parts[i + shift] == SpecComponent::ParentDir);
    }
}

/// How far an extraction into `directory` has got after `entries`.
pub open spec fn take_entries(directory: Seq<u8>, entries: Seq<SpecTarEntry>) -> Result<
    SpecTarExtraction,
    SpecError,
>
    decreases entries.len(),
{
    if entries.len() == 0 {
        Ok(SpecTarExtraction { directory, deferred: seq![] })
    } else {
        match take_entries(directory, entries.drop_last()) {
            Ok(state) => take_entry(state, entries.last()),
            Err(error) => Err(error),
        }
    }
}

/// The entries that are unpacked while `entries` are taken: an error ends the taking.
pub open spec fn unpacked_entries(directory: Seq<u8>, entries: Seq<SpecTarEntry>) -> Seq<
    SpecTarEntry,
>
    decreases entries.len(),
{
    if entries.len() == 0 {
        seq![]
    } else {
        let before = unpacked_entries(directory, entries.drop_last());
        if take_entries(directory, entries) is Ok && entry_action(entries.last())
            == TarAction::UnpackFile {
            before.push(entries.last())
        } else {
            before
        }
    }
}

/// Whether an entry is a directory.
pub open spec fn is_directory(entry: SpecTarEntry) -> bool {
    flag_action(entry.flag) == TarAction::DeferDirectory
}

/// Whether an entry is a regular file.
pub open spec fn is_regular_file(entry: SpecTarEntry) -> bool {
    flag_action(entry.flag) == TarAction::UnpackFile
}

/// The directory entries among `entries` that do not climb.
pub open spec fn kept_directories(entries: Seq<SpecTarEntry>) -> Seq<SpecTarEntry> {
    entries.filter(|entry: SpecTarEntry| is_directory(entry) && !goes_up(entry.path->0))
}

/// The regular files and the directories among `entries`: no links, devices, fifos or
/// anything else.
pub open spec fn files_and_directories(entries: Seq<SpecTarEntry>) -> Seq<SpecTarEntry> {
    entries.filter(|entry: SpecTarEntry| is_regular_file(entry) || is_directory(entry))
}

/// An archive is taken exactly if the path of every directory in it can be read. What has
/// been put off then are the directories that do not climb, each by its place below the
/// directory and all in order.
pub proof fn law_directories_are_deferred(directory: Seq<u8>, entries: Seq<SpecTarEntry>)
    ensures
        take_entries(directory, entries) is Ok <==> forall|i: int|
            0 <= i < entries.len() && is_directory(#[trigger] entries[i]) ==> entries[i].path
                is Some,
        take_entries(directory, entries) matches Ok(state) ==> {
            &&& state.directory == directory
            &&& state.deferred == kept_directories(entries).map_values(
                |entry: SpecTarEntry| place(directory, components(entry.path->0)),
            )
        },
        take_entries(directory, entries) matches Err(error) ==> error
            == SpecError::DirectoryEntryPath,
    decreases entries.len(),
{
    reveal(Seq::filter);
    let target = |entry: SpecTarEntry| place(directory, components(entry.path->0));
    if entries.len() == 0 {
        assert(kept_directories(entries).map_values(target) =~= seq![]);
    } else {
        let (front, last) = (entries.drop_last(), entries.last());
        law_directories_are_deferred(directory, front);
        assert(forall|i: int| 0 <= i < front.len() ==> #[trigger] entries[i] == front[i]);
        if take_entries(directory, front) is Err {
            let i = choose|i: int|
                0 <= i < front.len() && is_directory(#[trigger] front[i]) && front[i].path is None;
            assert(entries[i] == front[i]);
        } else {
            assert(entries[entries.len() - 1] == last);
            if is_directory(last) && last.path is Some && !goes_up(last.path->0) {
                assert(kept_directories(entries) == kept_directories(front).push(last));
                assert(kept_directories(entries).map_values(target) =~= kept_directories(
                    front,
                ).map_values(target).push(target(last)));
            }
            assert forall|i: int|
                0 <= i < entries.len() && is_directory(#[trigger] entries[i]) && i < front.len()
                    implies entries[i].path is Some by {
                assert(is_directory(front[i]));
            }
        }
    }
}

/// Whatever an archive holds, all that it puts off stands below the directory.
pub proof fn law_deferred_directories_stay_inside(directory: Seq<u8>, entries: Seq<SpecTarEntry>)
    ensures
        take_entries(directory, entries) matches Ok(state) ==> all_stand_below(
            directory,
            state.deferred,
        ),
{
    law_directories_are_deferred(directory, entries);
    if let Ok(state) = take_entries(directory, entries) {
        let kept = kept_directories(entries);
        assert forall|i: int| 0 <= i < state.deferred.len() implies stands_below(
            directory,
            #[trigger] state.deferred[i],
        ) by {
            law_place_stands_below(directory, kept[i].path->0);
        }
    }
}

/// Without its links, devices, fifos and whatever else is neither a regular file nor a
/// directory, an archive is extracted just as it is with them: it is taken or refused
/// alike, the same files are unpacked in the same order, and the same directories are put
/// off.
pub proof fn law_other_entries_leave_no_trace(directory: Seq<u8>, entries: Seq<SpecTarEntry>)
    ensures
        take_entries(directory, files_and_directories(entries)) == take_entries(
            directory,
            entries,
        ),
        unpacked_entries(directory, files_and_directories(entries)) == unpacked_entries(
            directory,
            entries,
        ),
    decreases entries.len(),
{
    reveal(Seq::filter);
    if entries.len() > 0 {
        let front = entries.drop_last();
        law_other_entries_leave_no_trace(directory, front);
        if is_regular_file(entries.last()) || is_directory(entries.last()) {
            let kept = files_and_directories(front).push(entries.last());
            assert(files_and_directories(entries) == kept);
            assert(kept.drop_last() =~= files_and_directories(front));
        }
    } else {
        assert(files_and_directories(entries) =~= entries);
    }
}

/// Only regular files are ever unpacked, and where the archive is taken, all of them are,
/// in order.
pub proof fn law_regular_files_are_unpacked(directory: Seq<u8>, entries: Seq<SpecTarEntry>)
    ensures
        unpacked_entries(directory, entries).is_prefix_of(
            entries.filter(|entry: SpecTarEntry| is_regular_file(entry)),
        ),
        take_entries(directory, entries) is Ok ==> unpacked_entries(directory, entries)
            == entries.filter(|entry: SpecTarEntry| is_regular_file(entry)),
    decreases entries.len(),
{
    reveal(Seq::filter);
    let wanted = |entry: SpecTarEntry| is_regular_file(entry);
    let unpacked = unpacked_entries(directory, entries);
    if entries.len() > 0 {
        let front = entries.drop_last();
        law_regular_files_are_unpacked(directory, front);
        let before = unpacked_entries(directory, front);
        assert(before =~= front.filter(wanted).subrange(0, before.len() as int));
        assert(unpacked =~= entries.filter(wanted).subrange(0, unpacked.len() as int));
    } else {
        assert(unpacked =~= entries.filter(wanted).subrange(0, 0));
    }
}

/// An entry that is neither a regular file nor a directory is not unpacked, not put off,
/// and no error.
pub proof fn law_other_entries_are_stripped(state: SpecTarExtraction, entry: SpecTarEntry)
    requires
        !is_regular_file(entry),
        !is_directory(entry),
    ensures
        take_entry(state, entry) == Ok::<SpecTarExtraction, SpecError>(state),
        entry_action(entry) != TarAction::UnpackFile,
        entry_action(entry) != TarAction::DeferDirectory,
{
}

/// What is handed out, and where the extraction then stands, when it is asked for the next
/// directory once on each of `disks`: the disk may change from one directory to the next.
pub open spec fn hand_out(start: SpecTarDirectories, disks: Seq<Disk>) -> (
    Seq<Seq<u8>>,
    SpecTarDirectories,
)
    decreases disks.len(),
{
    if disks.len() == 0 {
        (seq![], start)
    } else {
        let (handed, state) = hand_out(start, disks.drop_last());
        let (next, after) = state.step(disks.last());
        match next {
            Ok(Some(target)) => (handed.push(target), after),
            _ => (handed, after),
        }
    }
}

/// The directories that were put off, before the first is handed out.
pub open spec fn put_off(directory: Seq<u8>, targets: Seq<Seq<u8>>) -> SpecTarDirectories {
    SpecTarDirectories { directory, targets, next: 0 }
}

/// The extraction goes on the one way that the disk dictates.
pub proof fn law_directory_step_follows_disk<F: Fn(&FsPath) -> LinkStatus>(
    state: SpecTarDirectories,
    probe: F,
    disk: Disk,
    next: Result<Option<Seq<u8>>, SpecError>,
    after: SpecTarDirectories,
)
    requires
        answers_from(probe, disk),
        state.step_can_be(probe, next, after),
    ensures
        (next, after) == state.step(disk),
{
    if !state.is_over() {
        let target = state.targets[state.next as int];
        let verdict = choose|verdict: Result<(), SpecError>|
            {
                &&& #[trigger] containment_can_be(state.directory, target, probe, verdict)
                &&& (next, after) == state.checked(verdict)
            };
        law_containment_follows_disk(state.directory, target, probe, disk, verdict);
    }
}

/// The directories are handed out in the order of the archive, each checked on the disk as
/// it is at that time, and the first one that is refused ends the extraction.
pub proof fn law_directories_are_handed_out_in_order(
    directory: Seq<u8>,
    targets: Seq<Seq<u8>>,
    disks: Seq<Disk>,
)
    ensures
        ({
            let (handed, after) = hand_out(put_off(directory, targets), disks);
            let count = handed.len() as int;
            &&& count <= disks.len()
            &&& count <= targets.len()
            &&& forall|i: int|
                0 <= i < count ==> {
                    &&& (#[trigger] handed[i]) == targets[i]
                    &&& containment(directory, targets[i], disks[i]) is Ok
                }
            &&& count < disks.len() && count < targets.len() ==> containment(
                directory,
                targets[count],
                disks[count],
            ) is Err
            &&& count < disks.len() ==> after.is_over()
            &&& count == disks.len() ==> after.next == count
            &&& (after.directory, after.targets) == (directory, targets)
        }),
    decreases disks.len(),
{
    if disks.len() > 0 {
        let front = disks.drop_last();
        law_directories_are_handed_out_in_order(directory, targets, front);
        let (earlier, state) = hand_out(put_off(directory, targets), front);
        let (handed, after) = hand_out(put_off(directory, targets), disks);
        assert forall|i: int| 0 <= i < handed.len() implies {
            &&& (#[trigger] handed[i]) == targets[i]
            &&& containment(directory, targets[i], disks[i]) is Ok
        } by {
            if i < earlier.len() {
                assert(handed[i] == earlier[i]);
                assert(disks[i] == front[i]);
            }
        }
    }
}

/// Whatever the archive holds and however the disk changes, every directory that is handed
/// out stands below the directory that is extracted into, and leads inside on the disk as
/// it is when its turn has come.
pub proof fn law_created_directories_lead_inside(
    directory: Seq<u8>,
    entries: Seq<SpecTarEntry>,
    disks: Seq<Disk>,
)
    ensures
        take_entries(directory, entries) matches Ok(state) ==> {
            let handed = hand_out(put_off(directory, state.deferred), disks).0;
            forall|i: int|
                0 <= i < handed.len() ==> {
                    &&& stands_below(directory, #[trigger] handed[i])
                    &&& leads_inside(directory, handed[i], disks[i])
                }
        },
{
    if let Ok(state) = take_entries(directory, entries) {
        let handed = hand_out(put_off(directory, state.deferred), disks).0;
        law_deferred_directories_stay_inside(directory, entries);
        law_directories_are_handed_out_in_order(directory, state.deferred, disks);
        assert forall|i: int| 0 <= i < handed.len() implies {
            &&& stands_below(directory, #[trigger] handed[i])
            &&& leads_inside(directory, handed[i], disks[i])
        } by {
            law_contained_path_leads_inside(directory, handed[i], disks[i]);
        }
    }
}

/// Without symlinks on disk no directory is refused.
pub proof fn law_without_symlinks_no_directory_is_refused(
    directory: Seq<u8>,
    path: Seq<u8>,
    disk: Disk,
)
    requires
        forall|location: Seq<u8>| #[trigger] disk(location) == SpecLinkStatus::NotSymlink,
    ensures
        directory_target(directory, path) matches Some(target) ==> containment(
            directory,
            target,
            disk,
        ) is Ok,
{
    law_directory_target_stands_below(directory, path);
    law_without_symlinks_text_decides(directory, place(directory, components(path)), disk);
}

/// The type flag of an entry decides what it is: `2` is a symlink, `1` a hard link, `5` a
/// directory, and `0` or the byte zero a regular file. Anything else is none of these.
pub proof fn law_flags_decide(flag: u8)
    ensures
        flag_action(flag) == TarAction::StripSymlink <==> flag == 50,
        flag_action(flag) == TarAction::StripHardLink <==> flag == 49,
        flag_action(flag) == TarAction::DeferDirectory <==> flag == 53,
        flag_action(flag) == TarAction::UnpackFile <==> flag == 48 || flag == 0,
        flag_action(flag) == TarAction::Ignore <==> !(48 <= flag <= 50 || flag == 53 || flag == 0),
{
}

/// What is done with an entry: a directory in whose path `..` stands between separators is
/// passed over, and everything else is done as its flag says.
pub proof fn law_path_decides_on_directories(entry: SpecTarEntry)
    ensures
        entry.flag == 53 && (entry.path matches Some(path) && spells_dot_dot(path))
            ==> entry_action(entry) == TarAction::Ignore,
        !(entry.flag == 53 && (entry.path matches Some(path) && spells_dot_dot(path)))
            ==> entry_action(entry) == flag_action(entry.flag),
{
    if let Some(path) = entry.path {
        law_going_up_is_climbing(path);
        law_bytes_decide_on_climbing(path);
    }
}

/// Names are followed one by one, in order, and nothing else leads anywhere.
pub proof fn law_names_are_followed_in_order(
    base: Seq<u8>,
    parts: Seq<SpecComponent>,
    more: SpecComponent,
)
    ensures
        place(base, Seq::empty()) == base,
        place(base, parts.push(more)) == match more {
            SpecComponent::Normal(name) => join(place(base, parts), name),
            _ => place(base, parts),
        },
{
    assert(parts.push(more).drop_last() =~= parts);
}

/// A directory entry is put off after those before it, at the place that its names lead to,
/// unless `..` stands in its path between separators. Nothing else about the extraction
/// changes, and a path that cannot be read is an error.
pub proof fn law_directory_is_put_off(state: SpecTarExtraction, path: Seq<u8>)
    ensures
        take_entry(state, SpecTarEntry { flag: 53, path: None }) == Err::<
            SpecTarExtraction,
            SpecError,
        >(SpecError::DirectoryEntryPath),
        ({
            let taken = take_entry(state, SpecTarEntry { flag: 53, path: Some(path) });
            if spells_dot_dot(path) {
                taken == Ok::<SpecTarExtraction, SpecError>(state)
            } else {
                &&& taken matches Ok(after)
                &&& after.directory == state.directory
                &&& after.deferred == state.deferred.push(
                    place(state.directory, components(path)),
                )
                &&& components(after.deferred.last()) == components(state.directory)
                    + normal_components(components(path))
            }
        }),
{
    law_going_up_is_climbing(path);
    law_bytes_decide_on_climbing(path);
    law_components_are_valid(path);
    law_place_appends_names(state.directory, components(path));
}

/// No entry but a directory changes how far an extraction has got, or is an error.
pub proof fn law_only_directories_are_put_off(state: SpecTarExtraction, entry: SpecTarEntry)
    requires
        entry.flag != 53,
    ensures
        take_entry(state, entry) == Ok::<SpecTarExtraction, SpecError>(state),
{
}

/// Where every symlink under the directory leads to a place under it, every directory that
/// was put off is handed out: as many as there are turns for.
pub proof fn law_every_directory_is_handed_out(
    directory: Seq<u8>,
    entries: Seq<SpecTarEntry>,
    disks: Seq<Disk>,
)
    requires
        forall|i: int|
            0 <= i < disks.len() ==> links_lead_inside(directory, #[trigger] disks[i]),
    ensures
        take_entries(directory, entries) matches Ok(state) ==> disks.len() >= state.deferred.len()
            ==> hand_out(put_off(directory, state.deferred), disks).0 == state.deferred,
{
    if let Ok(state) = take_entries(directory, entries) {
        let targets = state.deferred;
        let handed = hand_out(put_off(directory, targets), disks).0;
        law_deferred_directories_stay_inside(directory, entries);
        law_directories_are_handed_out_in_order(directory, targets, disks);
        if disks.len() >= targets.len() {
            let count = handed.len() as int;
            if count < targets.len() {
                let target = targets[count];
                assert(stands_below(directory, target));
                assert forall|i: int|
                    components(directory).len() <= i < components(target).len() implies (
                #[trigger] components(target)[i]) is Normal by {
                    assert(below(directory, target)[i - components(directory).len()]
                        == components(target)[i]);
                }
                assert(links_lead_inside(directory, disks[count]));
                law_internal_links_are_followed(directory, target, disks[count]);
            }
            assert(handed =~= targets);
        }
    }
}

} // verus!
