//! What paths say, byte by byte: the components of a path, where it lies, how it is joined
//! and what lies above it, without reference to how any of it is found.

use crate::archive_dir::{normal_components, only_normal};
use crate::archive_laws::{climbs, law_accepted_names};
use crate::path::{component_views, Component};
use crate::path_laws::{
    law_parent_is_parent, lemma_segment_components_of_joined, lemma_segments_of_joined,
    lemma_single_segment, lemma_some_segment, relative_components,
};
use crate::path_text::{
    components, dot, dot_dot, join, parent, segment_component, segment_components, segments,
    starts_with, SpecComponent, SEPARATOR,
};
use vstd::prelude::*;

verus! {

/// Whether some bytes are the name of a file or directory: there are some, there is no `/`
/// among them, and they are neither `.` nor `..`.
pub open spec fn spells_name(bytes: Seq<u8>) -> bool {
    &&& bytes.len() > 0
    &&& bytes != seq![46u8]
    &&& bytes != seq![46u8, 46u8]
    &&& forall|i: int| 0 <= i < bytes.len() ==> #[trigger] bytes[i] != 47
}

/// What stands after a separator comes below what stands before it.
proof fn lemma_components_after_separator(base: Seq<u8>, rest: Seq<u8>)
    requires
        base.len() > 0,
    ensures
        components(base + seq![47u8] + rest) == components(base) + relative_components(rest),
{
    let whole = base.push(SEPARATOR) + rest;
    assert(base + seq![47u8] + rest =~= whole);
    lemma_segments_of_joined(base, rest);
    lemma_some_segment(base);
    lemma_segment_components_of_joined(segments(base), segments(rest), true);
    assert(whole[0] == base[0]);
    assert(components(whole) =~= components(base) + relative_components(rest));
}

/// What a single segment comes to.
proof fn lemma_components_of_segment(segment: Seq<u8>)
    requires
        forall|i: int| 0 <= i < segment.len() ==> #[trigger] segment[i] != 47,
    ensures
        components(segment) == segment_component(segment, true),
        relative_components(segment) == segment_component(segment, false),
{
    assert(!segment.contains(SEPARATOR));
    lemma_single_segment(segment);
    reveal_with_fuel(segment_components, 2);
    assert(components(segment) =~= segment_component(segment, true));
    assert(relative_components(segment) =~= segment_component(segment, false));
}

/// The components of the simplest paths: the empty one, `.`, `..`, `/` and a name.
pub proof fn law_components_of_simple_paths(name: Seq<u8>)
    requires
        spells_name(name),
    ensures
        components(Seq::empty()) == Seq::<SpecComponent>::empty(),
        components(seq![46u8]) == seq![SpecComponent::CurDir],
        components(seq![46u8, 46u8]) == seq![SpecComponent::ParentDir],
        components(seq![47u8]) == seq![SpecComponent::RootDir],
        components(name) == seq![SpecComponent::Normal(name)],
{
    lemma_components_of_segment(Seq::empty());
    lemma_components_of_segment(seq![46u8]);
    lemma_components_of_segment(seq![46u8, 46u8]);
    lemma_components_of_segment(name);
    assert(dot().len() == 1 && dot_dot().len() == 2);
    let empty = Seq::<u8>::empty();
    lemma_segments_of_joined(empty, empty);
    assert(empty.push(SEPARATOR) + empty =~= seq![47u8]);
    reveal_with_fuel(segment_components, 3);
    assert(segments(seq![47u8]) =~= seq![empty, empty]);
    assert(segment_components(seq![empty, empty], true) =~= seq![]) by {
        assert(seq![empty, empty].drop_last() =~= seq![empty]);
    }
    assert(components(seq![47u8]) =~= seq![SpecComponent::RootDir]);
}

/// How a path goes on after a separator: a further separator or `.` counts for nothing,
/// `..` and a name each add themselves. Whatever the path was before, it keeps its
/// components.
pub proof fn law_components_after_separator(base: Seq<u8>, name: Seq<u8>)
    requires
        base.len() > 0,
        spells_name(name),
    ensures
        components(base + seq![47u8]) == components(base),
        components(base + seq![47u8, 46u8]) == components(base),
        components(base + seq![47u8, 46u8, 46u8]) == components(base).push(
            SpecComponent::ParentDir,
        ),
        components(base + seq![47u8] + name) == components(base).push(
            SpecComponent::Normal(name),
        ),
{
    let (none, one, two) = (Seq::<u8>::empty(), seq![46u8], seq![46u8, 46u8]);
    assert(dot().len() == 1 && dot_dot().len() == 2);
    lemma_components_after_separator(base, none);
    lemma_components_after_separator(base, one);
    lemma_components_after_separator(base, two);
    lemma_components_after_separator(base, name);
    lemma_components_of_segment(none);
    lemma_components_of_segment(one);
    lemma_components_of_segment(two);
    lemma_components_of_segment(name);
    assert(base + seq![47u8] + none =~= base + seq![47u8]);
    assert(base + seq![47u8] + one =~= base + seq![47u8, 46u8]);
    assert(base + seq![47u8] + two =~= base + seq![47u8, 46u8, 46u8]);
    assert(components(base + seq![47u8]) =~= components(base));
    assert(components(base + seq![47u8, 46u8]) =~= components(base));
    assert(components(base + seq![47u8, 46u8, 46u8]) =~= components(base).push(
        SpecComponent::ParentDir,
    ));
    assert(components(base + seq![47u8] + name) =~= components(base).push(
        SpecComponent::Normal(name),
    ));
}

/// A path that begins with a separator has the root as its first component, and further
/// separators in front change nothing.
pub proof fn law_components_from_the_root(rest: Seq<u8>)
    ensures
        components(seq![47u8] + rest).len() > 0,
        components(seq![47u8] + rest)[0] == SpecComponent::RootDir,
        components(seq![47u8, 47u8] + rest) == components(seq![47u8] + rest),
{
    let (empty, root) = (Seq::<u8>::empty(), seq![47u8]);
    assert(empty.push(SEPARATOR) + rest =~= root + rest);
    assert(empty.push(SEPARATOR) + (root + rest) =~= seq![47u8, 47u8] + rest);
    lemma_segments_of_joined(empty, rest);
    lemma_segments_of_joined(empty, root + rest);
    let (once, twice) = (segments(root + rest), segments(seq![47u8, 47u8] + rest));
    assert(segments(empty) =~= seq![empty]);
    lemma_segment_components_of_joined(seq![empty], segments(rest), true);
    lemma_segment_components_of_joined(seq![empty], once, true);
    lemma_segment_components_of_joined(seq![empty], segments(rest), false);
    reveal_with_fuel(segment_components, 2);
    assert(segment_components(seq![empty], true) =~= seq![]);
    assert(segment_components(seq![empty], false) =~= seq![]);
    assert(segment_components(once, true) =~= segment_components(segments(rest), false));
    assert(segment_components(twice, true) =~= segment_components(once, false));
    assert(segment_components(once, false) =~= segment_components(segments(rest), false));
    assert(components(seq![47u8, 47u8] + rest) =~= components(root + rest));
}

/// A path lies at or below another exactly if it begins with all of the other's components.
pub proof fn law_lying_below_is_by_component(text: Seq<u8>, base: Seq<u8>)
    ensures
        starts_with(text, base) <==> {
            &&& components(base).len() <= components(text).len()
            &&& forall|i: int|
                0 <= i < components(base).len() ==> #[trigger] components(base)[i] == components(
                    text,
                )[i]
        },
{
    let (front, whole) = (components(base), components(text));
    if starts_with(text, base) {
        assert forall|i: int| 0 <= i < front.len() implies #[trigger] front[i] == whole[i] by {
            assert(whole.subrange(0, front.len() as int)[i] == whole[i]);
        }
    } else if front.len() <= whole.len() && (forall|i: int|
        0 <= i < front.len() ==> #[trigger] front[i] == whole[i]) {
        assert(front =~= whole.subrange(0, front.len() as int));
    }
}

/// How two paths are joined, byte by byte: a path that begins with a separator stands for
/// itself, and otherwise exactly one separator comes between the two, unless the first is
/// empty or already ends in one.
pub proof fn law_join_spells_both(base: Seq<u8>, name: Seq<u8>)
    ensures
        name.len() > 0 && name[0] == 47 ==> join(base, name) == name,
        base.len() == 0 ==> join(base, name) == name,
        base.len() > 0 && !(name.len() > 0 && name[0] == 47) ==> {
            let gap = if base.last() == 47 {
                0int
            } else {
                1int
            };
            &&& join(base, name).len() == base.len() + gap + name.len()
            &&& join(base, name).take(base.len() as int) == base
            &&& join(base, name).skip(base.len() + gap) == name
            &&& join(base, name)[base.len() + gap - 1] == 47
        },
{
    if base.len() == 0 {
        assert(base + name =~= name);
    } else if !(name.len() > 0 && name[0] == 47) {
        assert(join(base, name).take(base.len() as int) =~= base);
        if base.last() == 47 {
            assert(join(base, name).skip(base.len() as int) =~= name);
        } else {
            assert(join(base, name).skip(base.len() as int + 1) =~= name);
        }
    }
}

/// A path has a parent unless it is empty or the root. The parent is the front of the path,
/// as short as can be, that has all of its components but the last.
pub proof fn law_parent_is_all_but_the_last(text: Seq<u8>)
    ensures
        parent(text) is Some <==> components(text).len() > 0 && components(text).last()
            != SpecComponent::RootDir,
        parent(text) matches Some(above) ==> {
            &&& above.len() <= text.len()
            &&& forall|i: int| 0 <= i < above.len() ==> #[trigger] above[i] == text[i]
            &&& components(above) == components(text).drop_last()
            &&& forall|end: int|
                0 <= end < above.len() ==> components(#[trigger] text.take(end)) != components(
                    text,
                ).drop_last()
        },
{
    if parent(text) is Some {
        law_parent_is_parent(text);
        let above = parent(text)->0;
        assert(text.subrange(0, above.len() as int) =~= above);
        assert forall|i: int| 0 <= i < above.len() implies #[trigger] above[i] == text[i] by {
            assert(text.subrange(0, above.len() as int)[i] == text[i]);
        }
    }
}

/// Whether the bytes of `text` from `start` to `end` stand between separators, or at an end
/// of the text.
pub open spec fn is_cut_out(text: Seq<u8>, start: int, end: int) -> bool {
    &&& 0 <= start <= end <= text.len()
    &&& start == 0 || text[start - 1] == 47
    &&& end == text.len() || text[end] == 47
}

/// Whether `text` has the segment `..`, found by its bytes.
pub open spec fn spells_dot_dot(text: Seq<u8>) -> bool {
    exists|start: int|
        {
            &&& #[trigger] is_cut_out(text, start, start + 2)
            &&& text[start] == 46
            &&& text[start + 1] == 46
        }
}

/// What stands between separators is a segment.
proof fn lemma_cut_out_is_segment(text: Seq<u8>, start: int, end: int)
    requires
        is_cut_out(text, start, end),
        forall|i: int| start <= i < end ==> #[trigger] text[i] != 47,
    ensures
        segments(text).contains(text.subrange(start, end)),
{
    let cut = text.subrange(start, end);
    let front = text.take(end);
    assert(!cut.contains(SEPARATOR)) by {
        assert forall|i: int| 0 <= i < cut.len() implies cut[i] != SEPARATOR by {
            assert(text[start + i] != 47);
        }
    }
    lemma_single_segment(cut);
    assert(segments(front).len() > 0 && segments(front).last() == cut) by {
        if start == 0 {
            assert(front =~= cut);
        } else {
            let left = text.take(start - 1);
            assert(front =~= left.push(SEPARATOR) + cut);
            lemma_segments_of_joined(left, cut);
            assert((segments(left) + seq![cut]).last() == cut);
        }
    }
    let last = segments(front).len() - 1;
    if end == text.len() {
        assert(front =~= text);
        assert(segments(text)[last] == cut);
    } else {
        let right = text.skip(end + 1);
        assert(text =~= front.push(SEPARATOR) + right);
        lemma_segments_of_joined(front, right);
        assert(segments(text)[last] == cut);
    }
}

/// A segment stands between separators.
proof fn lemma_segment_is_cut_out(text: Seq<u8>, segment: Seq<u8>) -> (start: int)
    requires
        segments(text).contains(segment),
    ensures
        is_cut_out(text, start, start + segment.len()),
        text.subrange(start, start + segment.len()) == segment,
    decreases text.len(),
{
    if text.contains(SEPARATOR) {
        let at = lemma_last_separator(text);
        let (left, right) = (text.take(at), text.skip(at + 1));
        assert(text =~= left.push(SEPARATOR) + right);
        lemma_segments_of_joined(left, right);
        assert(!right.contains(SEPARATOR)) by {
            assert forall|i: int| 0 <= i < right.len() implies right[i] != SEPARATOR by {
                assert(text[at + 1 + i] != SEPARATOR);
            }
        }
        lemma_single_segment(right);
        if segment == right {
            assert(text.subrange(at + 1, text.len() as int) =~= right);
            at + 1
        } else {
            let k = choose|k: int| 0 <= k < segments(text).len() && segments(text)[k] == segment;
            assert(segments(left)[k] == segment);
            let start = lemma_segment_is_cut_out(left, segment);
            assert(text.subrange(start, start + segment.len()) =~= left.subrange(
                start,
                start + segment.len(),
            ));
            start
        }
    } else {
        lemma_single_segment(text);
        assert(text.subrange(0, text.len() as int) =~= text);
        0
    }
}

/// Where the last separator stands.
proof fn lemma_last_separator(text: Seq<u8>) -> (at: int)
    requires
        text.contains(SEPARATOR),
    ensures
        0 <= at < text.len(),
        text[at] == SEPARATOR,
        forall|i: int| at < i < text.len() ==> #[trigger] text[i] != SEPARATOR,
    decreases text.len(),
{
    if text.last() == SEPARATOR {
        text.len() - 1
    } else {
        let front = text.drop_last();
        let k = choose|k: int| 0 <= k < text.len() && text[k] == SEPARATOR;
        assert(front[k] == SEPARATOR);
        let at = lemma_last_separator(front);
        assert forall|i: int| at < i < text.len() implies #[trigger] text[i] != SEPARATOR by {
            if i < front.len() {
                assert(front[i] == text[i]);
            }
        }
        at
    }
}

/// A path climbs exactly if `..` stands in it between separators.
pub proof fn law_bytes_decide_on_climbing(text: Seq<u8>)
    ensures
        climbs(text) <==> spells_dot_dot(text),
{
    assert(dot_dot().len() == 2);
    if climbs(text) {
        let start = lemma_segment_is_cut_out(text, dot_dot());
        assert(is_cut_out(text, start, start + 2));
        assert(text.subrange(start, start + 2)[0] == text[start]);
        assert(text.subrange(start, start + 2)[1] == text[start + 1]);
    }
    if spells_dot_dot(text) {
        let start = choose|start: int|
            {
                &&& #[trigger] is_cut_out(text, start, start + 2)
                &&& text[start] == 46
                &&& text[start + 1] == 46
            };
        assert(text.subrange(start, start + 2) =~= dot_dot());
        lemma_cut_out_is_segment(text, start, start + 2);
    }
}

/// A name is taken for an entry exactly if it does not begin with a separator and `..`
/// stands nowhere in it between separators.
pub proof fn law_bytes_decide_on_names(name: Seq<u8>)
    ensures
        only_normal(components(name)) <==> !(name.len() > 0 && name[0] == 47) && !spells_dot_dot(
            name,
        ),
{
    law_accepted_names(name);
    law_bytes_decide_on_climbing(name);
}

/// The names among components are found one by one, in order, and nothing else is.
pub proof fn law_names_are_kept_in_order(parts: Seq<SpecComponent>, more: SpecComponent)
    ensures
        normal_components(Seq::empty()) == Seq::<SpecComponent>::empty(),
        normal_components(parts.push(more)) == if more is Normal {
            normal_components(parts).push(more)
        } else {
            normal_components(parts)
        },
        only_normal(Seq::empty()),
        only_normal(parts.push(more)) <==> only_normal(parts) && (more is Normal || more
            is CurDir),
{
    reveal(Seq::filter);
    assert(parts.push(more).drop_last() =~= parts);
    let grown = parts.push(more);
    if only_normal(grown) {
        assert forall|i: int| 0 <= i < parts.len() implies (#[trigger] parts[i]) is Normal
            || parts[i] is CurDir by {
            assert(grown[i] == parts[i]);
        }
        assert(grown[parts.len() as int] == more);
    }
}

/// A list of components stands for what each of them stands for, and a name for its bytes.
pub proof fn law_components_stand_for_themselves(parts: Seq<Component>)
    ensures
        component_views(parts).len() == parts.len(),
        forall|i: int|
            0 <= i < parts.len() ==> match parts[i] {
                Component::RootDir => (#[trigger] component_views(parts)[i]) is RootDir,
                Component::CurDir => component_views(parts)[i] is CurDir,
                Component::ParentDir => component_views(parts)[i] is ParentDir,
                Component::Normal(name) => component_views(parts)[i] == SpecComponent::Normal(
                    name@,
                ),
            },
{
}

} // verus!
