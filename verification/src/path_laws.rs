//! Laws of path text: how joining, taking a prefix and cutting into components relate.

use crate::path_text::{
    components, dot, has_parent, is_absolute, is_name, is_parent, is_shortest_prefix, join, parent,
    root_component, segment_component, segment_components, segments, starts_with, SpecComponent,
    SEPARATOR,
};
use crate::seq_lemmas::lemma_first_failure;
use vstd::prelude::*;

verus! {

/// A path always has at least one segment.
pub proof fn lemma_some_segment(text: Seq<u8>)
    ensures
        segments(text).len() >= 1,
    decreases text.len(),
{
    if text.len() > 0 {
        lemma_some_segment(text.drop_last());
    }
}

/// No segment holds a separator.
pub proof fn lemma_segments_hold_no_separator(text: Seq<u8>)
    ensures
        forall|i: int|
            0 <= i < segments(text).len() ==> !(#[trigger] segments(text)[i]).contains(SEPARATOR),
    decreases text.len(),
{
    if text.len() > 0 {
        let before = segments(text.drop_last());
        lemma_some_segment(text.drop_last());
        lemma_segments_hold_no_separator(text.drop_last());
        if text.last() != SEPARATOR {
            let grown = before.last().push(text.last());
            assert(!before[before.len() - 1].contains(SEPARATOR));
            assert forall|k: int| 0 <= k < grown.len() implies grown[k] != SEPARATOR by {
                if k < before.last().len() {
                    assert(before.last()[k] == grown[k]);
                    assert(before.last().contains(before.last()[k]));
                }
            }
        }
    }
}

/// A text without a separator is its own only segment.
pub proof fn lemma_single_segment(text: Seq<u8>)
    requires
        !text.contains(SEPARATOR),
    ensures
        segments(text) == seq![text],
    decreases text.len(),
{
    if text.len() > 0 {
        let shorter = text.drop_last();
        assert forall|k: int| 0 <= k < shorter.len() implies shorter[k] != SEPARATOR by {
            assert(text[k] == shorter[k]);
            assert(text.contains(text[k]));
        }
        lemma_single_segment(shorter);
        assert(text.contains(text.last()));
        assert(shorter.push(text.last()) =~= text);
        assert(segments(text) =~= seq![text]);
    } else {
        assert(text =~= Seq::<u8>::empty());
    }
}

/// A separator between two texts keeps their segments apart.
pub proof fn lemma_segments_of_joined(left: Seq<u8>, right: Seq<u8>)
    ensures
        segments(left.push(SEPARATOR) + right) == segments(left) + segments(right),
    decreases right.len(),
{
    let whole = left.push(SEPARATOR) + right;
    lemma_some_segment(left);
    if right.len() == 0 {
        assert(whole =~= left.push(SEPARATOR));
        assert(whole.drop_last() =~= left);
        assert(segments(whole) =~= segments(left) + segments(right));
    } else {
        lemma_segments_of_joined(left, right.drop_last());
        lemma_some_segment(right.drop_last());
        assert(whole.drop_last() =~= left.push(SEPARATOR) + right.drop_last());
        assert(segments(whole) =~= segments(left) + segments(right));
    }
}

/// The components of a run of segments are those of its parts, one after the other.
pub proof fn lemma_segment_components_of_joined(
    left: Seq<Seq<u8>>,
    right: Seq<Seq<u8>>,
    opens: bool,
)
    ensures
        segment_components(left + right, opens) == segment_components(left, opens)
            + segment_components(right, opens && left.len() == 0),
    decreases right.len(),
{
    if right.len() == 0 {
        assert(left + right =~= left);
        assert(segment_components(left + right, opens) =~= segment_components(left, opens)
            + segment_components(right, opens && left.len() == 0));
    } else {
        lemma_segment_components_of_joined(left, right.drop_last(), opens);
        assert((left + right).drop_last() =~= left + right.drop_last());
        assert(segment_components(left + right, opens) =~= segment_components(left, opens)
            + segment_components(right, opens && left.len() == 0));
    }
}

/// A run of segments that does not open the path yields names and `..` only.
pub proof fn lemma_components_of_inner_run(run: Seq<Seq<u8>>, opens: bool)
    requires
        forall|i: int| 0 <= i < run.len() ==> !(#[trigger] run[i]).contains(SEPARATOR),
    ensures
        forall|i: int|
            #![trigger segment_components(run, opens)[i]]
            0 <= i < segment_components(run, opens).len() ==> {
                let part = segment_components(run, opens)[i];
                &&& part != SpecComponent::RootDir
                &&& part == SpecComponent::CurDir ==> opens && i == 0
                &&& (part matches SpecComponent::Normal(name) ==> is_name(name))
            },
    decreases run.len(),
{
    if run.len() > 0 {
        assert forall|i: int| 0 <= i < run.drop_last().len() implies !(
        #[trigger] run.drop_last()[i]).contains(SEPARATOR) by {
            assert(run.drop_last()[i] == run[i]);
        }
        lemma_components_of_inner_run(run.drop_last(), opens);
        assert(!run[run.len() - 1].contains(SEPARATOR));
    }
}

/// What a component can be: the root only comes first in an absolute path, `.` only first
/// in another, and every name is a name.
pub proof fn law_components_are_valid(text: Seq<u8>)
    ensures
        forall|i: int|
            #![trigger components(text)[i]]
            0 <= i < components(text).len() ==> {
                let part = components(text)[i];
                &&& part == SpecComponent::RootDir <==> is_absolute(text) && i == 0
                &&& part == SpecComponent::CurDir ==> !is_absolute(text) && i == 0
                &&& (part matches SpecComponent::Normal(name) ==> is_name(name))
            },
{
    let run = segments(text);
    lemma_segments_hold_no_separator(text);
    lemma_components_of_inner_run(run, true);
    lemma_some_segment(text);
    let rest = segment_components(run, true);
    if is_absolute(text) {
        lemma_absolute_opens_empty(text);
        assert(seq![run[0]] + run.skip(1) =~= run);
        lemma_segment_components_of_joined(seq![run[0]], run.skip(1), true);
        reveal_with_fuel(segment_components, 2);
        assert(segment_components(seq![run[0]], true) =~= seq![]);
        assert(rest =~= segment_components(run.skip(1), false));
        assert forall|i: int| 0 <= i < run.skip(1).len() implies !(
        #[trigger] run.skip(1)[i]).contains(SEPARATOR) by {
            assert(run.skip(1)[i] == run[i + 1]);
        }
        lemma_components_of_inner_run(run.skip(1), false);
    }
    assert forall|i: int|
        #![trigger components(text)[i]]
        0 <= i < components(text).len() implies {
        let part = components(text)[i];
        &&& part == SpecComponent::RootDir <==> is_absolute(text) && i == 0
        &&& part == SpecComponent::CurDir ==> !is_absolute(text) && i == 0
        &&& (part matches SpecComponent::Normal(name) ==> is_name(name))
    } by {
        let shift = root_component(text).len();
        if i >= shift {
            assert(components(text)[i] == rest[i - shift]);
        }
    }
}

/// An absolute path opens with an empty segment, which is not its last.
pub proof fn lemma_absolute_opens_empty(text: Seq<u8>)
    requires
        is_absolute(text),
    ensures
        segments(text)[0] == Seq::<u8>::empty(),
        segments(text).len() >= 2,
{
    let rest = text.skip(1);
    assert(Seq::<u8>::empty().push(SEPARATOR) + rest =~= text);
    lemma_segments_of_joined(Seq::<u8>::empty(), rest);
    lemma_some_segment(rest);
}

/// The components of `name` below the directory it is taken relative to: a leading `.`
/// counts for nothing there.
pub open spec fn relative_components(name: Seq<u8>) -> Seq<SpecComponent> {
    segment_components(segments(name), false)
}

/// Joining a relative path to a directory puts its components below those of the
/// directory.
pub proof fn law_join_appends_components(base: Seq<u8>, name: Seq<u8>)
    requires
        base.len() > 0,
        !is_absolute(name),
    ensures
        components(join(base, name)) == components(base) + relative_components(name),
{
    let joined = join(base, name);
    if base.last() == SEPARATOR {
        let stem = base.drop_last();
        assert(base =~= stem.push(SEPARATOR));
        assert(joined =~= stem.push(SEPARATOR) + name);
        lemma_segments_of_joined(stem, name);
        lemma_some_segment(stem);
        lemma_segment_components_of_joined(segments(stem), segments(name), true);
        let empty = Seq::<u8>::empty();
        assert(segments(base) =~= segments(stem) + seq![empty]);
        lemma_segment_components_of_joined(segments(stem), seq![empty], true);
        reveal_with_fuel(segment_components, 2);
        assert(segment_components(seq![empty], false) =~= seq![]);
    } else {
        lemma_segments_of_joined(base, name);
        lemma_some_segment(base);
        lemma_segment_components_of_joined(segments(base), segments(name), true);
    }
    assert(joined[0] == base[0]);
    assert(components(joined) =~= components(base) + relative_components(name));
}

/// A name taken relative to a directory adds exactly one component, the name.
pub proof fn law_join_appends_name(base: Seq<u8>, name: Seq<u8>)
    requires
        is_name(name),
    ensures
        components(join(base, name)) == components(base).push(SpecComponent::Normal(name)),
        starts_with(join(base, name), base),
{
    lemma_single_segment(name);
    assert(name.contains(name[0]));
    reveal_with_fuel(segment_components, 2);
    assert(relative_components(name) =~= seq![SpecComponent::Normal(name)]);
    if base.len() > 0 {
        law_join_appends_components(base, name);
        assert(components(base) + seq![SpecComponent::Normal(name)] =~= components(base).push(
            SpecComponent::Normal(name),
        ));
    } else {
        assert(base =~= Seq::<u8>::empty());
        assert(join(base, name) =~= name);
        assert(components(base) =~= seq![]);
        assert(components(name) =~= seq![SpecComponent::Normal(name)]);
        assert(components(base).push(SpecComponent::Normal(name)) =~= seq![
            SpecComponent::Normal(name),
        ]);
    }
}

/// The segments of a prefix are those of the whole text, the last of them cut short.
pub proof fn lemma_segments_of_prefix(text: Seq<u8>, end: int)
    requires
        0 <= end <= text.len(),
    ensures
        ({
            let (cut, whole) = (segments(text.take(end)), segments(text));
            &&& 1 <= cut.len() <= whole.len()
            &&& cut.drop_last() == whole.take(cut.len() - 1)
            &&& cut.last().is_prefix_of(whole[cut.len() - 1])
            &&& end < text.len() && cut.len() == whole.len() ==> cut.last() != whole.last()
        }),
    decreases text.len(),
{
    let (cut, whole) = (segments(text.take(end)), segments(text));
    lemma_some_segment(text.take(end));
    lemma_some_segment(text);
    if end == text.len() {
        assert(text.take(end) =~= text);
        assert(cut.drop_last() =~= whole.take(cut.len() - 1));
        assert(cut.last().is_prefix_of(whole[cut.len() - 1]));
    } else {
        let shorter = text.drop_last();
        let before = segments(shorter);
        assert(shorter.take(end) =~= text.take(end));
        lemma_segments_of_prefix(shorter, end);
        lemma_some_segment(shorter);
        assert(cut.drop_last() =~= whole.take(cut.len() - 1)) by {
            assert(before.take(cut.len() - 1) =~= whole.take(cut.len() - 1));
        }
        if cut.len() == before.len() {
            assert(cut.last().len() <= before.last().len());
            if text.last() != SEPARATOR {
                assert(whole.last() == before.last().push(text.last()));
                assert(cut.last() =~= whole.last().subrange(0, cut.last().len() as int));
            }
        }
    }
}

/// Where a text ends in a segment that stands for a component, no proper prefix of it has
/// the same components.
pub proof fn lemma_ends_in_component(text: Seq<u8>)
    requires
        segment_component(segments(text).last(), segments(text).len() == 1).len() > 0,
    ensures
        is_shortest_prefix(text, text.len() as int, components(text)),
{
    let whole = segments(text);
    lemma_some_segment(text);
    assert(text.take(text.len() as int) =~= text);
    assert forall|shorter: int| 0 <= shorter < text.len() implies components(
        #[trigger] text.take(shorter),
    ) != components(text) by {
        let start = text.take(shorter);
        let cut = segments(start);
        lemma_segments_of_prefix(text, shorter);
        let m = cut.len() - 1;
        let common = segment_components(whole.take(m), true);
        let opens = m == 0;
        assert(cut.drop_last() == whole.take(m));
        assert(segment_components(cut, true) == common + segment_component(cut.last(), opens));
        if shorter > 0 {
            assert(start[0] == text[0]);
        } else if is_absolute(text) {
            lemma_absolute_opens_empty(text);
            assert(start =~= Seq::<u8>::empty());
        }
        if cut.len() == whole.len() {
            assert(whole.drop_last() =~= whole.take(m));
            assert(segment_components(whole, true) == common + segment_component(
                whole.last(),
                opens,
            ));
            if root_component(start).len() == root_component(text).len() {
                let at = components(text).len() - 1;
                assert(components(text)[at] == segment_component(whole.last(), opens)[0]);
                if segment_component(cut.last(), opens).len() > 0 {
                    assert(components(start)[at] == segment_component(cut.last(), opens)[0]);
                    assert(cut.last() != whole.last());
                    assert(components(start)[at] != components(text)[at]);
                } else {
                    assert(components(start).len() < components(text).len());
                }
            }
            assert(components(start) != components(text));
        } else {
            let after = whole.take(m + 1);
            assert(after.drop_last() =~= whole.take(m));
            assert(segment_components(after, true) == common + segment_component(whole[m], opens));
            assert(segment_component(cut.last(), opens).len() <= segment_component(
                whole[m],
                opens,
            ).len()) by {
                let (a, b) = (cut.last(), whole[m]);
                if b.len() == 1 && a.len() == 1 {
                    assert(a =~= b);
                }
            }
            assert(after + whole.skip(m + 1).drop_last() =~= whole.drop_last());
            lemma_segment_components_of_joined(after, whole.skip(m + 1).drop_last(), true);
            assert(segment_components(whole, true).len() > segment_components(
                whole.drop_last(),
                true,
            ).len());
            assert(components(start).len() < components(text).len());
        }
    }
}

/// Cutting off the last segment leaves an empty one.
proof fn lemma_cut_last_segment(text: Seq<u8>)
    ensures
        segments(text).last().len() <= text.len(),
        segments(text.take(text.len() - segments(text).last().len())) == segments(
            text,
        ).drop_last().push(Seq::<u8>::empty()),
    decreases text.len(),
{
    let whole = segments(text);
    if text.len() == 0 {
        assert(text.take(0) =~= text);
        assert(whole =~= whole.drop_last().push(Seq::<u8>::empty()));
    } else if text.last() == SEPARATOR {
        assert(text.take(text.len() as int) =~= text);
        assert(whole =~= whole.drop_last().push(Seq::<u8>::empty()));
    } else {
        let shorter = text.drop_last();
        let before = segments(shorter);
        lemma_cut_last_segment(shorter);
        lemma_some_segment(shorter);
        assert(whole.drop_last() =~= before.drop_last());
        assert(text.take(text.len() - whole.last().len()) =~= shorter.take(
            shorter.len() - before.last().len(),
        ));
    }
}

/// A path that has a parent has a proper prefix with all of its components but the last.
proof fn lemma_prefix_without_last(text: Seq<u8>) -> (end: int)
    requires
        has_parent(text),
    ensures
        0 <= end < text.len(),
        components(text.take(end)) == components(text).drop_last(),
    decreases text.len(),
{
    let whole = segments(text);
    lemma_some_segment(text);
    let last = whole.last();
    let opens = whole.len() == 1;
    let found = segment_component(last, opens);
    let front = segment_components(whole.drop_last(), true);
    if text.len() == 0 {
        reveal_with_fuel(segment_components, 2);
        assert(components(text) =~= seq![]);
        0
    } else if found.len() > 0 {
        let end = text.len() - last.len();
        lemma_cut_last_segment(text);
        let start = text.take(end);
        let empty = Seq::<u8>::empty();
        assert(segments(start) =~= whole.drop_last() + seq![empty]);
        lemma_segment_components_of_joined(whole.drop_last(), seq![empty], true);
        reveal_with_fuel(segment_components, 2);
        assert(segment_components(seq![empty], opens) =~= seq![]);
        if end > 0 {
            assert(start[0] == text[0]);
        } else if is_absolute(text) {
            lemma_absolute_opens_empty(text);
            lemma_segments_hold_no_separator(text);
            assert(start =~= Seq::<u8>::empty());
            assert(segments(start).len() == whole.len());
            assert(false);
        }
        assert(components(start) =~= components(text).drop_last());
        end
    } else {
        let shorter = text.drop_last();
        let before = segments(shorter);
        lemma_some_segment(shorter);
        assert(components(text) =~= root_component(text) + front);
        if text.last() == SEPARATOR {
            assert(whole.drop_last() =~= before);
        } else {
            assert(last == before.last().push(text.last()));
            assert(last == dot());
            assert(before.last() =~= Seq::<u8>::empty());
            assert(whole.drop_last() =~= before.drop_last());
            assert(segment_components(before, true) =~= front);
        }
        if shorter.len() > 0 {
            assert(shorter[0] == text[0]);
        } else {
            assert(shorter =~= Seq::<u8>::empty());
            reveal_with_fuel(segment_components, 2);
            reveal_with_fuel(segments, 2);
            assert(segment_components(before, true) =~= seq![]);
        }
        assert(components(shorter) =~= components(text));
        let end = lemma_prefix_without_last(shorter);
        assert(shorter.take(end) =~= text.take(end));
        end
    }
}

/// The parent of a path is its shortest prefix with all of its components but the last.
pub proof fn law_parent_is_parent(text: Seq<u8>)
    requires
        has_parent(text),
    ensures
        parent(text) is Some,
        is_parent(text, parent(text)->0),
        components(parent(text)->0) == components(text).drop_last(),
{
    let parts = components(text).drop_last();
    let end = lemma_prefix_without_last(text);
    let other = |i: int| components(text.take(i)) != parts;
    let first = lemma_first_failure(other, end);
    let candidate = text.take(first);
    assert(text.take(candidate.len() as int) =~= candidate);
    assert forall|shorter: int| 0 <= shorter < first implies components(
        #[trigger] text.take(shorter),
    ) != parts by {
        assert(other(shorter));
    }
    assert(candidate =~= text.subrange(0, candidate.len() as int));
    assert(is_parent(text, candidate));
    law_parent_is_unique(text, candidate);
}

/// A path has one parent at most, and it has the components of the path but the last.
pub proof fn law_parent_is_unique(text: Seq<u8>, candidate: Seq<u8>)
    requires
        is_parent(text, candidate),
    ensures
        parent(text) == Some(candidate),
        components(candidate) == components(text).drop_last(),
{
    let chosen = parent(text)->0;
    assert(is_parent(text, chosen));
    assert(text.take(chosen.len() as int) =~= chosen);
    assert(text.take(candidate.len() as int) =~= candidate);
    assert(chosen.len() == candidate.len());
}

/// Lying at or below is transitive.
pub proof fn law_starts_with_is_transitive(text: Seq<u8>, middle: Seq<u8>, base: Seq<u8>)
    requires
        starts_with(text, middle),
        starts_with(middle, base),
    ensures
        starts_with(text, base),
{
    let (a, b, c) = (components(base), components(middle), components(text));
    assert(a =~= c.subrange(0, a.len() as int)) by {
        assert forall|i: int| 0 <= i < a.len() implies a[i] == c[i] by {
            assert(b.subrange(0, a.len() as int)[i] == b[i]);
            assert(c.subrange(0, b.len() as int)[i] == c[i]);
        }
    }
}

} // verus!
