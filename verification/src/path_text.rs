//! What a Unix path says, as a function of its bytes.
//!
//! A path is a sequence of bytes. The separator `/` cuts it into segments, and the
//! segments that name something are its components. Everything that the crate states
//! about paths is stated over [`components`] and [`join`].

use vstd::prelude::*;

verus! {

/// The byte `/`.
pub const SEPARATOR: u8 = 0x2f;

/// The byte `.`.
pub const DOT: u8 = 0x2e;

/// A component of a path, over the bytes of its name.
pub enum SpecComponent {
    RootDir,
    CurDir,
    ParentDir,
    Normal(Seq<u8>),
}

/// The pieces of `text` between its separators, in order. There is always one more piece
/// than there are separators, and a piece may be empty.
pub open spec fn segments(text: Seq<u8>) -> Seq<Seq<u8>>
    decreases text.len(),
{
    if text.len() == 0 {
        seq![Seq::<u8>::empty()]
    } else {
        let before = segments(text.drop_last());
        if text.last() == SEPARATOR {
            before.push(Seq::<u8>::empty())
        } else {
            before.drop_last().push(before.last().push(text.last()))
        }
    }
}

/// The segment `.`.
pub open spec fn dot() -> Seq<u8> {
    seq![DOT]
}

/// The segment `..`.
pub open spec fn dot_dot() -> Seq<u8> {
    seq![DOT, DOT]
}

/// The component that a segment stands for, if it stands for one: an empty segment never
/// does, and `.` only does where it opens the path.
pub open spec fn segment_component(segment: Seq<u8>, opens: bool) -> Seq<SpecComponent> {
    if segment.len() == 0 {
        seq![]
    } else if segment == dot() {
        if opens {
            seq![SpecComponent::CurDir]
        } else {
            seq![]
        }
    } else if segment == dot_dot() {
        seq![SpecComponent::ParentDir]
    } else {
        seq![SpecComponent::Normal(segment)]
    }
}

/// The components of a run of segments. `opens` says that the first segment of the run
/// is the first segment of the path.
pub open spec fn segment_components(run: Seq<Seq<u8>>, opens: bool) -> Seq<SpecComponent>
    decreases run.len(),
{
    if run.len() == 0 {
        seq![]
    } else {
        segment_components(run.drop_last(), opens) + segment_component(
            run.last(),
            opens && run.len() == 1,
        )
    }
}

/// Whether a path is absolute.
pub open spec fn is_absolute(text: Seq<u8>) -> bool {
    text.len() > 0 && text[0] == SEPARATOR
}

/// The root directory of an absolute path, and nothing for another.
pub open spec fn root_component(text: Seq<u8>) -> Seq<SpecComponent> {
    if is_absolute(text) {
        seq![SpecComponent::RootDir]
    } else {
        seq![]
    }
}

/// The components of a path: repeated and trailing separators count for nothing, and
/// neither does `.` except at the very start.
pub open spec fn components(text: Seq<u8>) -> Seq<SpecComponent> {
    root_component(text) + segment_components(segments(text), true)
}

/// Whether `text` lies at or below `base`, component by component.
pub open spec fn starts_with(text: Seq<u8>, base: Seq<u8>) -> bool {
    components(base).is_prefix_of(components(text))
}

/// `name` taken relative to `base`. An absolute `name` stands for itself.
pub open spec fn join(base: Seq<u8>, name: Seq<u8>) -> Seq<u8> {
    if is_absolute(name) {
        name
    } else if base.len() == 0 || base.last() == SEPARATOR {
        base + name
    } else {
        base.push(SEPARATOR) + name
    }
}

/// Whether `segment` is the name of a file or directory.
pub open spec fn is_name(segment: Seq<u8>) -> bool {
    &&& segment.len() > 0
    &&& segment != dot()
    &&& segment != dot_dot()
    &&& !segment.contains(SEPARATOR)
}

/// Whether the first `end` bytes of `text` are its shortest prefix with the components
/// `parts`.
pub open spec fn is_shortest_prefix(text: Seq<u8>, end: int, parts: Seq<SpecComponent>) -> bool {
    &&& 0 <= end <= text.len()
    &&& components(text.take(end)) == parts
    &&& forall|shorter: int|
        0 <= shorter < end ==> components(#[trigger] text.take(shorter)) != parts
}

/// Whether a path has a parent: the empty path and the root have none.
pub open spec fn has_parent(text: Seq<u8>) -> bool {
    components(text).len() > 0 && components(text).last() != SpecComponent::RootDir
}

/// Whether `parent` is the parent of `text`: the shortest prefix of `text` that has all of
/// its components but the last.
pub open spec fn is_parent(text: Seq<u8>, parent: Seq<u8>) -> bool {
    &&& has_parent(text)
    &&& parent.is_prefix_of(text)
    &&& is_shortest_prefix(text, parent.len() as int, components(text).drop_last())
}

/// The parent of a path.
pub open spec fn parent(text: Seq<u8>) -> Option<Seq<u8>> {
    if has_parent(text) {
        Some(choose|parent: Seq<u8>| is_parent(text, parent))
    } else {
        None
    }
}

} // verus!
