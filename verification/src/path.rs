//! Unix paths as values: cut into components, joined, compared, and stripped.

use crate::path_laws::{law_parent_is_unique, lemma_ends_in_component};
use crate::path_text::{
    components, dot, dot_dot, is_parent, is_shortest_prefix, join, parent, root_component,
    segment_component, segment_components, segments, starts_with, SpecComponent,
    DOT, SEPARATOR,
};
use vstd::prelude::*;
use vstd::utf8::encode_utf8;

verus! {

/// A component of a path.
#[derive(Debug, PartialEq, Eq)]
pub enum Component {
    RootDir,
    CurDir,
    ParentDir,
    Normal(Vec<u8>),
}

impl View for Component {
    type V = SpecComponent;

    open spec fn view(&self) -> SpecComponent {
        match self {
            Component::RootDir => SpecComponent::RootDir,
            Component::CurDir => SpecComponent::CurDir,
            Component::ParentDir => SpecComponent::ParentDir,
            Component::Normal(name) => SpecComponent::Normal(name@),
        }
    }
}

/// What a list of components stands for.
pub open spec fn component_views(parts: Seq<Component>) -> Seq<SpecComponent> {
    parts.map_values(|part: Component| part@)
}

impl Component {
    /// Whether two components are the same.
    pub fn is_same(&self, other: &Component) -> (same: bool)
        ensures
            same == (self@ == other@),
    {
        match (self, other) {
            (Component::RootDir, Component::RootDir) => true,
            (Component::CurDir, Component::CurDir) => true,
            (Component::ParentDir, Component::ParentDir) => true,
            (Component::Normal(left), Component::Normal(right)) => {
                let same = *left == *right;
                assert(same == (left@ =~= right@));
                same
            },
            _ => false,
        }
    }
}

impl Clone for Component {
    fn clone(&self) -> (copy: Self)
        ensures
            copy@ == self@,
    {
        match self {
            Component::RootDir => Component::RootDir,
            Component::CurDir => Component::CurDir,
            Component::ParentDir => Component::ParentDir,
            Component::Normal(name) => {
                let copy = name.clone();
                assert(copy@ =~= name@);
                Component::Normal(copy)
            },
        }
    }
}

/// A Unix path: any sequence of bytes.
#[derive(Debug, PartialEq, Eq)]
pub struct FsPath {
    bytes: Vec<u8>,
}

impl View for FsPath {
    type V = Seq<u8>;

    closed spec fn view(&self) -> Seq<u8> {
        self.bytes@
    }
}

impl Clone for FsPath {
    fn clone(&self) -> (copy: Self)
        ensures
            copy@ == self@,
    {
        let bytes = self.bytes.clone();
        assert(bytes@ =~= self.bytes@);
        FsPath { bytes }
    }
}

/// The components of a path together with the offset at which each ends.
struct ParsedPath {
    parts: Vec<Component>,
    ends: Vec<usize>,
}

impl ParsedPath {
    spec fn is_located_in(self, text: Seq<u8>) -> bool {
        let views = component_views(self.parts@);
        &&& self.ends@.len() == views.len()
        &&& forall|i: int|
            0 <= i < views.len() ==> is_shortest_prefix(
                text,
                #[trigger] self.ends@[i] as int,
                views.take(i + 1),
            )
    }
}

impl FsPath {
    /// The path that `bytes` spell.
    pub fn new(bytes: Vec<u8>) -> (path: FsPath)
        ensures
            path@ == bytes@,
    {
        FsPath { bytes }
    }

    /// The path that the text `name` spells.
    pub fn from_text(name: &str) -> (path: FsPath)
        ensures
            path@ == encode_utf8(name@),
    {
        FsPath { bytes: vstd::slice::slice_to_vec(name.as_bytes()) }
    }

    /// The bytes of the path.
    pub fn as_bytes(&self) -> (bytes: &[u8])
        ensures
            bytes@ == self@,
    {
        self.bytes.as_slice()
    }

    /// Appends to `parsed` the component that the segment from `start` to `end` stands
    /// for, if it stands for one.
    fn close_segment(&self, parsed: &mut ParsedPath, start: usize, end: usize)
        requires
            start <= end <= self@.len(),
        ensures
            ({
                let found = segment_component(
                    self@.subrange(start as int, end as int),
                    start == 0,
                );
                &&& component_views(final(parsed).parts@) == component_views(old(parsed).parts@)
                    + found
                &&& final(parsed).ends@ == if found.len() > 0 {
                    old(parsed).ends@.push(end)
                } else {
                    old(parsed).ends@
                }
            }),
    {
        let segment = vstd::slice::slice_subrange(self.bytes.as_slice(), start, end);
        let ghost before = parsed.parts@;
        proof {
            assert(segment@ == dot() <==> segment@.len() == 1 && segment@[0] == DOT) by {
                if segment@.len() == 1 && segment@[0] == DOT {
                    assert(segment@ =~= dot());
                }
            }
            assert(segment@ == dot_dot() <==> segment@.len() == 2 && segment@[0] == DOT
                && segment@[1] == DOT) by {
                if segment@.len() == 2 && segment@[0] == DOT && segment@[1] == DOT {
                    assert(segment@ =~= dot_dot());
                }
            }
        }
        if segment.len() == 0 {
        } else if segment.len() == 1 && segment[0] == DOT {
            if start == 0 {
                parsed.parts.push(Component::CurDir);
                parsed.ends.push(end);
            }
        } else if segment.len() == 2 && segment[0] == DOT && segment[1] == DOT {
            parsed.parts.push(Component::ParentDir);
            parsed.ends.push(end);
        } else {
            parsed.parts.push(Component::Normal(vstd::slice::slice_to_vec(segment)));
            parsed.ends.push(end);
        }
        assert(component_views(parsed.parts@) =~= component_views(before) + segment_component(
            segment@,
            start == 0,
        ));
    }

    /// Cuts the path into its components.
    fn parse(&self) -> (parsed: ParsedPath)
        ensures
            component_views(parsed.parts@) == components(self@),
            parsed.is_located_in(self@),
    {
        let mut parsed = ParsedPath { parts: Vec::new(), ends: Vec::new() };
        let len: usize = self.bytes.len();
        if len > 0 && self.bytes[0] == SEPARATOR {
            parsed.parts.push(Component::RootDir);
            parsed.ends.push(1);
            proof {
                let (none, one) = (self@.take(0), self@.take(1));
                reveal_with_fuel(segments, 2);
                reveal_with_fuel(segment_components, 3);
                assert(one.drop_last() =~= Seq::<u8>::empty());
                assert(components(one) =~= seq![SpecComponent::RootDir]);
                assert(components(none) =~= seq![]);
                assert(component_views(parsed.parts@).take(1) =~= seq![SpecComponent::RootDir]);
            }
        }
        assert(component_views(parsed.parts@) =~= root_component(self@));
        let mut start: usize = 0;
        let mut i: usize = 0;
        assert(self@.take(0) =~= Seq::<u8>::empty());
        assert(self@.subrange(0, 0) =~= Seq::<u8>::empty());
        assert(segments(self@.take(0)).drop_last() =~= seq![]);
        while i < len
            invariant
                len == self@.len(),
                len == self.bytes.len(),
                start <= i <= len,
                segments(self@.take(i as int)).len() >= 1,
                segments(self@.take(i as int)).last() == self@.subrange(start as int, i as int),
                segments(self@.take(i as int)).len() == 1 <==> start == 0,
                component_views(parsed.parts@) == root_component(self@) + segment_components(
                    segments(self@.take(i as int)).drop_last(),
                    true,
                ),
                parsed.is_located_in(self@),
            decreases len - i,
        {
            let ghost (now, next) = (self@.take(i as int), self@.take(i + 1));
            assert(next.drop_last() =~= now);
            if self.bytes[i] == SEPARATOR {
                let ghost old_parsed = parsed;
                self.close_segment(&mut parsed, start, i);
                proof {
                    self.lemma_segment_closed(old_parsed, parsed, start, i);
                    assert(segments(next).drop_last() =~= segments(now));
                }
                start = i + 1;
                assert(self@.subrange(start as int, start as int) =~= Seq::<u8>::empty());
            } else {
                proof {
                    assert(segments(next).drop_last() =~= segments(now).drop_last());
                    assert(self@.subrange(start as int, i as int).push(self@[i as int])
                        =~= self@.subrange(start as int, i + 1));
                }
            }
            i = i + 1;
        }
        let ghost old_parsed = parsed;
        self.close_segment(&mut parsed, start, len);
        proof {
            assert(self@.take(len as int) =~= self@);
            self.lemma_segment_closed(old_parsed, parsed, start, len);
        }
        parsed
    }

    /// Closing the last segment of a prefix completes the components of that prefix.
    proof fn lemma_segment_closed(
        &self,
        before: ParsedPath,
        after: ParsedPath,
        start: usize,
        end: usize,
    )
        requires
            start <= end <= self@.len(),
            segments(self@.take(end as int)).len() >= 1,
            segments(self@.take(end as int)).last() == self@.subrange(start as int, end as int),
            segments(self@.take(end as int)).len() == 1 <==> start == 0,
            component_views(before.parts@) == root_component(self@) + segment_components(
                segments(self@.take(end as int)).drop_last(),
                true,
            ),
            before.is_located_in(self@),
            ({
                let found = segment_component(
                    self@.subrange(start as int, end as int),
                    start == 0,
                );
                &&& component_views(after.parts@) == component_views(before.parts@) + found
                &&& after.ends@ == if found.len() > 0 {
                    before.ends@.push(end)
                } else {
                    before.ends@
                }
            }),
        ensures
            component_views(after.parts@) == root_component(self@) + segment_components(
                segments(self@.take(end as int)),
                true,
            ),
            after.is_located_in(self@),
    {
        let prefix = self@.take(end as int);
        let found = segment_component(self@.subrange(start as int, end as int), start == 0);
        let (old_views, views) = (component_views(before.parts@), component_views(after.parts@));
        assert(views =~= root_component(self@) + segment_components(segments(prefix), true));
        if found.len() > 0 {
            assert(prefix[0] == self@[0]);
            assert(components(prefix) == views);
            lemma_ends_in_component(prefix);
            assert forall|shorter: int| 0 <= shorter < end implies components(
                #[trigger] self@.take(shorter),
            ) != views by {
                assert(prefix.take(shorter) =~= self@.take(shorter));
            }
            assert(views.take(views.len() as int) =~= views);
        }
        assert forall|i: int| 0 <= i < views.len() implies is_shortest_prefix(
            self@,
            #[trigger] after.ends@[i] as int,
            views.take(i + 1),
        ) by {
            if i < old_views.len() {
                assert(after.ends@[i] == before.ends@[i]);
                assert(views.take(i + 1) =~= old_views.take(i + 1));
            }
        }
    }

    /// The components of the path.
    pub fn components(&self) -> (parts: Vec<Component>)
        ensures
            component_views(parts@) == components(self@),
    {
        self.parse().parts
    }

    /// The components of the path below `base`, where it lies at or below `base`.
    pub fn strip_prefix(&self, base: &FsPath) -> (rest: Option<Vec<Component>>)
        ensures
            rest is Some <==> starts_with(self@, base@),
            rest matches Some(parts) ==> component_views(parts@) == components(self@).skip(
                components(base@).len() as int,
            ),
    {
        let mut parts = self.components();
        let prefix = base.components();
        let ghost (whole, front) = (components(self@), components(base@));
        assert(whole.len() == parts@.len() && front.len() == prefix@.len());
        if parts.len() < prefix.len() {
            return None;
        }
        let mut i: usize = 0;
        while i < prefix.len()
            invariant
                i <= prefix.len() <= parts.len(),
                component_views(parts@) == whole,
                component_views(prefix@) == front,
                whole == components(self@),
                front == components(base@),
                forall|j: int| 0 <= j < i ==> whole[j] == front[j],
            decreases prefix.len() - i,
        {
            assert(whole[i as int] == parts@[i as int]@);
            assert(front[i as int] == prefix@[i as int]@);
            if !parts[i].is_same(&prefix[i]) {
                assert(whole.subrange(0, front.len() as int)[i as int] != front[i as int]);
                return None;
            }
            i = i + 1;
        }
        assert(front =~= whole.subrange(0, front.len() as int));
        let rest = parts.split_off(prefix.len());
        assert(component_views(rest@) =~= whole.skip(front.len() as int));
        Some(rest)
    }

    /// Whether the path lies at or below `base`.
    pub fn starts_with(&self, base: &FsPath) -> (below: bool)
        ensures
            below == starts_with(self@, base@),
    {
        self.strip_prefix(base).is_some()
    }

    /// `name` taken relative to this path.
    pub fn join(&self, name: &[u8]) -> (joined: FsPath)
        ensures
            joined@ == join(self@, name@),
    {
        if name.len() > 0 && name[0] == SEPARATOR {
            return FsPath { bytes: vstd::slice::slice_to_vec(name) };
        }
        let mut bytes = self.bytes.clone();
        assert(bytes@ =~= self.bytes@);
        let len: usize = bytes.len();
        if len > 0 && bytes[len - 1] != SEPARATOR {
            bytes.push(SEPARATOR);
        }
        let mut added = vstd::slice::slice_to_vec(name);
        bytes.append(&mut added);
        FsPath { bytes }
    }

    /// The path without its last component. The empty path and the root have no parent.
    pub fn parent(&self) -> (above: Option<FsPath>)
        ensures
            match above {
                Some(path) => parent(self@) == Some(path@) && is_parent(self@, path@),
                None => parent(self@) is None,
            },
    {
        let parsed = self.parse();
        let count: usize = parsed.parts.len();
        let ghost views = components(self@);
        assert(views.len() == count);
        if count == 0 {
            return None;
        }
        assert(views.last() == parsed.parts@[count - 1]@);
        if let Component::RootDir = parsed.parts[count - 1] {
            return None;
        }
        let end: usize = if count == 1 {
            0
        } else {
            parsed.ends[count - 2]
        };
        proof {
            assert(views.drop_last() =~= views.take(count - 1));
            if count == 1 {
                assert(self@.take(0) =~= Seq::<u8>::empty());
                reveal_with_fuel(segment_components, 2);
                assert(components(self@.take(0)) =~= seq![]);
                assert(views.drop_last() =~= seq![]);
            } else {
                assert(is_shortest_prefix(
                    self@,
                    parsed.ends@[count - 2] as int,
                    views.take(count - 1),
                ));
            }
        }
        let prefix = vstd::slice::slice_subrange(self.bytes.as_slice(), 0, end);
        let above = FsPath { bytes: vstd::slice::slice_to_vec(prefix) };
        proof {
            assert(above@ =~= self@.take(end as int));
            law_parent_is_unique(self@, above@);
        }
        Some(above)
    }
}

} // verus!
