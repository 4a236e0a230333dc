//! When an editor asks the language servers for folding ranges, and when it drops them.

use itertools::Itertools;
use std::collections::HashSet;
use vstd::prelude::*;

verus! {

/// A buffer, as far as folding ranges are concerned.
#[derive(Clone, Copy, Debug, PartialEq, Eq, Structural)]
pub struct BufferInfo {
    /// What the buffer is known by.
    pub remote_id: u64,
    /// Whether the settings of its language enable folding ranges from language servers.
    pub lsp_folding_ranges: bool,
}

/// An editor, as far as folding ranges are concerned.
#[derive(Debug)]
pub struct Editor {
    /// Whether it is a full editor, not a single line or a fixed number of them.
    pub full_mode: bool,
    /// Whether it belongs to a project.
    pub has_project: bool,
    /// Whether it uses folding ranges from language servers at all.
    pub use_lsp_folding_ranges: bool,
    /// The buffers that are registered with language servers.
    pub registered_buffers: HashSet<u64>,
    /// The number of the refresh that was started last. A refresh with another number has
    /// been superseded.
    pub latest_refresh: u64,
}

/// A refresh that has been started. It waits before it asks for anything, and a later one
/// takes its place.
#[derive(Debug, PartialEq, Eq)]
pub struct FoldingRefresh {
    number: u64,
    buffers: Vec<u64>,
    since: u64,
    wait: u64,
}

/// What a [`FoldingRefresh`] stands for.
pub struct SpecRefresh {
    /// The number of the refresh.
    pub number: u64,
    /// The buffers to ask about, in order.
    pub buffers: Seq<u64>,
    /// When it was started.
    pub since: u64,
    /// How long it waits.
    pub wait: u64,
}

impl View for FoldingRefresh {
    type V = SpecRefresh;

    closed spec fn view(&self) -> SpecRefresh {
        SpecRefresh {
            number: self.number,
            buffers: self.buffers@,
            since: self.since,
            wait: self.wait,
        }
    }
}

/// A refresh whose waiting is over: the language servers are asked.
#[derive(Debug, PartialEq, Eq)]
pub struct FoldingFetch {
    number: u64,
    buffers: Vec<u64>,
}

/// What a [`FoldingFetch`] stands for.
pub struct SpecFetch {
    /// The number of the refresh.
    pub number: u64,
    /// The buffers that are asked about, in order.
    pub buffers: Seq<u64>,
}

impl View for FoldingFetch {
    type V = SpecFetch;

    closed spec fn view(&self) -> SpecFetch {
        SpecFetch { number: self.number, buffers: self.buffers@ }
    }
}

/// What becomes of a refresh when it is looked at.
#[derive(Debug, PartialEq, Eq)]
pub enum RefreshStep {
    /// It has to wait on.
    Wait(FoldingRefresh),
    /// It has been superseded, or its editor is gone: nothing more comes of it.
    Stop,
    /// Its waiting is over.
    Fetch(FoldingFetch),
}

/// What a [`RefreshStep`] stands for.
pub enum SpecRefreshStep {
    Wait(SpecRefresh),
    Stop,
    Fetch(SpecFetch),
}

impl View for RefreshStep {
    type V = SpecRefreshStep;

    open spec fn view(&self) -> SpecRefreshStep {
        match self {
            RefreshStep::Wait(refresh) => SpecRefreshStep::Wait(refresh@),
            RefreshStep::Stop => SpecRefreshStep::Stop,
            RefreshStep::Fetch(fetch) => SpecRefreshStep::Fetch(fetch@),
        }
    }
}

/// The number of the latest refresh of an editor, as long as it is there.
pub open spec fn latest_of(editor: Option<&Editor>) -> Option<u64> {
    match editor {
        Some(editor) => Some(editor.latest_refresh),
        None => None,
    }
}

/// The number that follows `number`. After the largest, counting begins anew.
pub open spec fn next_number(number: u64) -> u64 {
    if number == u64::MAX {
        0
    } else {
        (number + 1) as u64
    }
}

impl SpecRefresh {
    /// What becomes of the refresh at the time `now`, when `latest` is the number of the
    /// latest one, or the editor is gone.
    pub open spec fn step(self, latest: Option<u64>, now: u64) -> SpecRefreshStep {
        if latest != Some(self.number) {
            SpecRefreshStep::Stop
        } else if now - self.since < self.wait {
            SpecRefreshStep::Wait(self)
        } else {
            SpecRefreshStep::Fetch(SpecFetch { number: self.number, buffers: self.buffers })
        }
    }
}

/// What clearing the folding ranges of disabled buffers comes to.
#[derive(Debug)]
pub struct ClearPlan {
    /// The buffers whose folding ranges are dropped, in order.
    pub to_clear: Vec<u64>,
    /// Whether the editor is to be drawn anew afterwards.
    pub notify: bool,
    /// The refresh that follows, if one does.
    pub refresh: Option<FoldingRefresh>,
}

/// A change to what an editor shows.
#[derive(Debug, PartialEq, Eq)]
pub enum FoldingUpdate<R> {
    /// The buffer has these folding ranges now.
    SetRanges(u64, R),
    /// The editor is to be drawn anew.
    Notify,
}

/// Every buffer of `buffers` that no earlier one shares its id with.
pub open spec fn first_of_each(buffers: Seq<BufferInfo>) -> Seq<BufferInfo>
    decreases buffers.len(),
{
    if buffers.len() == 0 {
        seq![]
    } else {
        let before = buffers.drop_last();
        if exists|i: int|
            0 <= i < before.len() && (#[trigger] before[i]).remote_id == buffers.last().remote_id {
            first_of_each(before)
        } else {
            first_of_each(before).push(buffers.last())
        }
    }
}

/// The ids of some buffers.
pub open spec fn ids(buffers: Seq<BufferInfo>) -> Seq<u64> {
    buffers.map_values(|buffer: BufferInfo| buffer.remote_id)
}

/// The buffers that a refresh considers: those in view, and the one it is for.
pub open spec fn candidates(
    for_buffer: Option<u64>,
    visible: Seq<BufferInfo>,
    target: Option<BufferInfo>,
) -> Seq<BufferInfo> {
    match (for_buffer, target) {
        (Some(_), Some(buffer)) => visible.push(buffer),
        _ => visible,
    }
}

impl Editor {
    /// Whether the editor refreshes folding ranges at all.
    pub open spec fn spec_refreshes(self) -> bool {
        self.full_mode && self.has_project && self.use_lsp_folding_ranges
    }

    /// Whether a refresh for `for_buffer`, or for every buffer, asks about `buffer`.
    pub open spec fn asks_about(self, for_buffer: Option<u64>, buffer: BufferInfo) -> bool {
        &&& for_buffer is None || for_buffer == Some(buffer.remote_id)
        &&& self.registered_buffers@.contains(buffer.remote_id)
        &&& buffer.lsp_folding_ranges
    }

    /// The buffers that a refresh asks about: every candidate that it is to ask about, once.
    pub open spec fn buffers_to_query(
        self,
        for_buffer: Option<u64>,
        visible: Seq<BufferInfo>,
        target: Option<BufferInfo>,
    ) -> Seq<u64> {
        ids(
            first_of_each(
                candidates(for_buffer, visible, target).filter(
                    |buffer: BufferInfo| self.asks_about(for_buffer, buffer),
                ),
            ),
        )
    }
}

impl Editor {
    /// The refresh that is started at the time `now`.
    pub open spec fn started(
        self,
        for_buffer: Option<u64>,
        visible: Seq<BufferInfo>,
        target: Option<BufferInfo>,
        now: u64,
        wait: u64,
    ) -> SpecRefresh {
        SpecRefresh {
            number: next_number(self.latest_refresh),
            buffers: self.buffers_to_query(for_buffer, visible, target),
            since: now,
            wait,
        }
    }

    /// The editor once it has started a refresh: that one is the latest.
    pub open spec fn after_start(self) -> Editor {
        Editor { latest_refresh: next_number(self.latest_refresh), ..self }
    }
}

/// What changes in an editor when there are `results`.
pub open spec fn updates_for<R>(results: Seq<(u64, R)>) -> Seq<FoldingUpdate<R>> {
    if results.len() == 0 {
        seq![]
    } else {
        results.map_values(
            |result: (u64, R)| FoldingUpdate::SetRanges(result.0, result.1),
        ).push(FoldingUpdate::Notify)
    }
}

/// The ids of the buffers whose settings do not enable folding ranges.
pub open spec fn disabled_ids(buffers: Seq<BufferInfo>) -> Seq<u64> {
    ids(buffers.filter(|buffer: BufferInfo| !buffer.lsp_folding_ranges))
}

/// Leaves out every buffer that shares its id with an earlier one:
/// `itertools::Itertools::unique_by`, by the id. What is left keeps its order, and of
/// buffers with the same id the first is kept.
#[verifier::external_body]
fn unique_by_remote_id(buffers: Vec<BufferInfo>) -> (unique: Vec<BufferInfo>)
    ensures
        unique@ == first_of_each(buffers@),
{
    buffers.into_iter().unique_by(|buffer| buffer.remote_id).collect()
}

/// The ids of some buffers.
fn ids_of(buffers: &Vec<BufferInfo>) -> (found: Vec<u64>)
    ensures
        found@ == ids(buffers@),
{
    let mut found: Vec<u64> = Vec::new();
    let mut i: usize = 0;
    while i < buffers.len()
        invariant
            i <= buffers.len(),
            found@.len() == i,
            forall|j: int| 0 <= j < i ==> #[trigger] found@[j] == buffers@[j].remote_id,
        decreases buffers.len() - i,
    {
        found.push(buffers[i].remote_id);
        i = i + 1;
    }
    assert(found@ =~= ids(buffers@));
    found
}

impl Editor {
    /// Whether a refresh for `for_buffer`, or for every buffer, asks about `buffer`.
    fn is_asked_about(&self, for_buffer: Option<u64>, buffer: &BufferInfo) -> (asked: bool)
        ensures
            asked == self.asks_about(for_buffer, *buffer),
    {
        broadcast use vstd::std_specs::hash::group_hash_axioms;

        let targeted = match for_buffer {
            Some(target) => target == buffer.remote_id,
            None => true,
        };
        targeted && self.registered_buffers.contains(&buffer.remote_id)
            && buffer.lsp_folding_ranges
    }

    /// The buffers that a refresh asks about, in order.
    fn select_buffers(
        &self,
        for_buffer: Option<u64>,
        visible: &Vec<BufferInfo>,
        target: Option<BufferInfo>,
    ) -> (selected: Vec<u64>)
        ensures
            selected@ == self.buffers_to_query(for_buffer, visible@, target),
    {
        let ghost wanted = |buffer: BufferInfo| self.asks_about(for_buffer, buffer);
        let mut asked: Vec<BufferInfo> = Vec::new();
        let mut i: usize = 0;
        proof {
            reveal(Seq::filter);
            assert(asked@ =~= visible@.take(0).filter(wanted));
        }
        while i < visible.len()
            invariant
                i <= visible.len(),
                wanted == (|buffer: BufferInfo| self.asks_about(for_buffer, buffer)),
                asked@ == visible@.take(i as int).filter(wanted),
            decreases visible.len() - i,
        {
            proof {
                reveal(Seq::filter);
                assert(visible@.take(i + 1).drop_last() =~= visible@.take(i as int));
            }
            let buffer = visible[i];
            if self.is_asked_about(for_buffer, &buffer) {
                asked.push(buffer);
            }
            i = i + 1;
        }
        assert(visible@.take(visible@.len() as int) =~= visible@);
        if let (Some(_), Some(buffer)) = (for_buffer, target) {
            proof {
                reveal(Seq::filter);
                assert(visible@.push(buffer).drop_last() =~= visible@);
            }
            if self.is_asked_about(for_buffer, &buffer) {
                asked.push(buffer);
            }
        }
        assert(asked@ == candidates(for_buffer, visible@, target).filter(wanted));
        let unique = unique_by_remote_id(asked);
        ids_of(&unique)
    }

    /// Starts, at the time `now`, to refresh the folding ranges of the buffers in `visible`,
    /// or of the buffer `for_buffer` alone. `target` is that buffer, if the editor shows it.
    /// The refresh takes the place of any that was started before; it is to wait for `wait`.
    pub fn refresh_folding_ranges(
        &mut self,
        for_buffer: Option<u64>,
        visible: &Vec<BufferInfo>,
        target: Option<BufferInfo>,
        now: u64,
        wait: u64,
    ) -> (refresh: Option<FoldingRefresh>)
        ensures
            match refresh {
                Some(refresh) => {
                    &&& old(self).spec_refreshes()
                    &&& refresh@ == old(self).started(for_buffer, visible@, target, now, wait)
                    &&& *final(self) == old(self).after_start()
                },
                None => !old(self).spec_refreshes() && *final(self) == *old(self),
            },
    {
        if !self.full_mode {
            return None;
        }
        if !self.has_project {
            return None;
        }
        if !self.use_lsp_folding_ranges {
            return None;
        }
        let buffers = self.select_buffers(for_buffer, visible, target);
        let number: u64 = if self.latest_refresh == u64::MAX {
            0
        } else {
            self.latest_refresh + 1
        };
        self.latest_refresh = number;
        Some(FoldingRefresh { number, buffers, since: now, wait })
    }

    /// Whether the editor shows folding ranges from language servers: it uses them, and it
    /// has some.
    pub fn lsp_folding_ranges_enabled(&self, has_lsp_folding_ranges: bool) -> (enabled: bool)
        ensures
            enabled == (self.use_lsp_folding_ranges && has_lsp_folding_ranges),
    {
        self.use_lsp_folding_ranges && has_lsp_folding_ranges
    }

    /// Drops the folding ranges of those buffers among `buffers` whose settings have been
    /// turned off, and starts a refresh, so that buffers whose settings have been turned on
    /// get theirs.
    pub fn clear_disabled_lsp_folding_ranges(
        &mut self,
        buffers: &Vec<BufferInfo>,
        visible: &Vec<BufferInfo>,
        now: u64,
        wait: u64,
    ) -> (plan: Option<ClearPlan>)
        ensures
            match plan {
                Some(planned) => {
                    &&& old(self).use_lsp_folding_ranges
                    &&& planned.to_clear@ == disabled_ids(buffers@)
                    &&& planned.notify == (disabled_ids(buffers@).len() > 0)
                    &&& match planned.refresh {
                        Some(refresh) => {
                            &&& old(self).spec_refreshes()
                            &&& refresh@ == old(self).started(None, visible@, None, now, wait)
                            &&& *final(self) == old(self).after_start()
                        },
                        None => !old(self).spec_refreshes() && *final(self) == *old(self),
                    }
                },
                None => !old(self).use_lsp_folding_ranges && *final(self) == *old(self),
            },
    {
        if !self.use_lsp_folding_ranges {
            return None;
        }
        let ghost off = |buffer: BufferInfo| !buffer.lsp_folding_ranges;
        let mut disabled: Vec<BufferInfo> = Vec::new();
        let mut i: usize = 0;
        proof {
            reveal(Seq::filter);
            assert(disabled@ =~= buffers@.take(0).filter(off));
        }
        while i < buffers.len()
            invariant
                i <= buffers.len(),
                off == (|buffer: BufferInfo| !buffer.lsp_folding_ranges),
                disabled@ == buffers@.take(i as int).filter(off),
                *self == *old(self),
            decreases buffers.len() - i,
        {
            proof {
                reveal(Seq::filter);
                assert(buffers@.take(i + 1).drop_last() =~= buffers@.take(i as int));
            }
            let buffer = buffers[i];
            if !buffer.lsp_folding_ranges {
                disabled.push(buffer);
            }
            i = i + 1;
        }
        assert(buffers@.take(buffers@.len() as int) =~= buffers@);
        let to_clear = ids_of(&disabled);
        let notify = to_clear.len() > 0;
        let refresh = self.refresh_folding_ranges(None, visible, None, now, wait);
        Some(ClearPlan { to_clear, notify, refresh })
    }
}

impl FoldingRefresh {
    /// Looks at the refresh at the time `now`, and decides whether the language servers are
    /// asked. There is no `editor` once it is gone.
    pub fn step(self, editor: Option<&Editor>, now: u64) -> (step: RefreshStep)
        ensures
            step@ == self@.step(latest_of(editor), now),
    {
        let latest = match editor {
            Some(editor) => editor.latest_refresh,
            None => {
                return RefreshStep::Stop;
            },
        };
        if latest != self.number {
            RefreshStep::Stop
        } else if now < self.since || now - self.since < self.wait {
            RefreshStep::Wait(self)
        } else {
            RefreshStep::Fetch(FoldingFetch { number: self.number, buffers: self.buffers })
        }
    }
}

impl FoldingFetch {
    /// The buffers to ask the language servers about, in order.
    pub fn buffers(&self) -> (buffers: &Vec<u64>)
        ensures
            buffers@ == self@.buffers,
    {
        &self.buffers
    }

    /// The answers are in: what changes in the editor. Nothing does if a later refresh has
    /// been started meanwhile, or the editor is gone.
    pub fn finish<R>(self, editor: Option<&Editor>, results: Vec<(u64, R)>) -> (updates: Vec<
        FoldingUpdate<R>,
    >)
        ensures
            updates@ == if latest_of(editor) == Some(self@.number) {
                updates_for(results@)
            } else {
                seq![]
            },
    {
        let latest = match editor {
            Some(editor) => editor.latest_refresh,
            None => {
                return Vec::new();
            },
        };
        if latest == self.number {
            folding_updates(results)
        } else {
            Vec::new()
        }
    }
}

/// The answers are in: what changes in the editor. Without answers nothing does; with some,
/// each buffer gets its ranges, and the editor is drawn anew at the end.
pub fn folding_updates<R>(results: Vec<(u64, R)>) -> (updates: Vec<FoldingUpdate<R>>)
    ensures
        updates@ == updates_for(results@),
{
    let mut updates: Vec<FoldingUpdate<R>> = Vec::new();
    if results.len() == 0 {
        return updates;
    }
    let ghost all = results@;
    let ghost as_update = |result: (u64, R)| FoldingUpdate::SetRanges(result.0, result.1);
    for result in answers: results
        invariant
            answers.seq() == all,
            as_update == (|result: (u64, R)| FoldingUpdate::SetRanges(result.0, result.1)),
            updates@.len() == answers.index(),
            forall|j: int|
                0 <= j < updates@.len() ==> #[trigger] updates@[j] == as_update(all[j]),
    {
        updates.push(FoldingUpdate::SetRanges(result.0, result.1));
    }
    updates.push(FoldingUpdate::Notify);
    assert(updates@ =~= all.map_values(as_update).push(FoldingUpdate::Notify));
    updates
}

} // verus!
