//! Laws of refreshing and clearing folding ranges.

use crate::folding_ranges::{
    candidates, disabled_ids, first_of_each, ids, latest_of, next_number, updates_for, BufferInfo,
    Editor, FoldingUpdate, SpecRefresh, SpecRefreshStep,
};
use crate::seq_lemmas::lemma_filter_contains;
use vstd::prelude::*;

verus! {

/// Whether a buffer with the id `id` is among `buffers`.
pub open spec fn has_id(buffers: Seq<BufferInfo>, id: u64) -> bool {
    exists|i: int| 0 <= i < buffers.len() && (#[trigger] buffers[i]).remote_id == id
}

/// Whether a refresh is to ask about a buffer with the id `id` among `buffers`.
pub open spec fn is_wanted(
    editor: Editor,
    for_buffer: Option<u64>,
    buffers: Seq<BufferInfo>,
    id: u64,
) -> bool {
    exists|i: int|
        {
            &&& 0 <= i < buffers.len()
            &&& (#[trigger] buffers[i]).remote_id == id
            &&& editor.asks_about(for_buffer, buffers[i])
        }
}

/// Keeping the first of each keeps every id, once.
proof fn lemma_first_of_each(buffers: Seq<BufferInfo>)
    ensures
        forall|id: u64| ids(first_of_each(buffers)).contains(id) <==> #[trigger] has_id(
            buffers,
            id,
        ),
        ids(first_of_each(buffers)).no_duplicates(),
    decreases buffers.len(),
{
    if buffers.len() == 0 {
        assert(ids(first_of_each(buffers)) =~= seq![]);
    } else {
        let (before, last) = (buffers.drop_last(), buffers.last());
        lemma_first_of_each(before);
        let (old_ids, new_ids) = (ids(first_of_each(before)), ids(first_of_each(buffers)));
        assert forall|id: u64| new_ids.contains(id) <==> #[trigger] has_id(buffers, id) by {
            assert(has_id(before, id) || last.remote_id == id <==> has_id(buffers, id)) by {
                if has_id(before, id) {
                    let i = choose|i: int|
                        0 <= i < before.len() && (#[trigger] before[i]).remote_id == id;
                    assert(buffers[i].remote_id == id);
                }
                assert(buffers[buffers.len() - 1] == last);
                if has_id(buffers, id) && last.remote_id != id {
                    let i = choose|i: int|
                        0 <= i < buffers.len() && (#[trigger] buffers[i]).remote_id == id;
                    assert(before[i].remote_id == id);
                }
            }
            if has_id(before, last.remote_id) {
                assert(new_ids == old_ids);
            } else {
                assert(new_ids =~= old_ids.push(last.remote_id));
                assert(new_ids[old_ids.len() as int] == last.remote_id);
                if old_ids.contains(id) {
                    let k = choose|k: int| 0 <= k < old_ids.len() && old_ids[k] == id;
                    assert(new_ids[k] == id);
                }
                if new_ids.contains(id) && id != last.remote_id {
                    let k = choose|k: int| 0 <= k < new_ids.len() && new_ids[k] == id;
                    assert(old_ids[k] == id);
                }
            }
        }
        if !has_id(before, last.remote_id) {
            assert(new_ids =~= old_ids.push(last.remote_id));
            assert(!old_ids.contains(last.remote_id));
        } else {
            assert(new_ids == old_ids);
        }
    }
}

/// An id is among those of the filtered buffers if some wanted buffer has it.
proof fn lemma_filtered_id(
    buffers: Seq<BufferInfo>,
    wanted: spec_fn(BufferInfo) -> bool,
    id: u64,
)
    ensures
        has_id(buffers.filter(wanted), id) <==> exists|i: int|
            0 <= i < buffers.len() && (#[trigger] buffers[i]).remote_id == id && wanted(
                buffers[i],
            ),
{
    let kept = buffers.filter(wanted);
    if has_id(kept, id) {
        let k = choose|k: int| 0 <= k < kept.len() && (#[trigger] kept[k]).remote_id == id;
        lemma_filter_contains(buffers, wanted, kept[k]);
        assert(kept.contains(kept[k]));
        let i = choose|i: int| 0 <= i < buffers.len() && buffers[i] == kept[k];
        assert(buffers[i].remote_id == id);
    }
    if exists|i: int|
        0 <= i < buffers.len() && (#[trigger] buffers[i]).remote_id == id && wanted(buffers[i]) {
        let i = choose|i: int|
            0 <= i < buffers.len() && (#[trigger] buffers[i]).remote_id == id && wanted(
                buffers[i],
            );
        lemma_filter_contains(buffers, wanted, buffers[i]);
        assert(buffers.contains(buffers[i]));
        let k = choose|k: int| 0 <= k < kept.len() && kept[k] == buffers[i];
        assert(kept[k].remote_id == id);
    }
}

/// A refresh asks about a buffer exactly if it is a candidate that it is to ask about, and
/// it asks about none twice.
pub proof fn law_query_is_exact(
    editor: Editor,
    for_buffer: Option<u64>,
    visible: Seq<BufferInfo>,
    target: Option<BufferInfo>,
)
    ensures
        editor.buffers_to_query(for_buffer, visible, target).no_duplicates(),
        forall|id: u64| #[trigger]
            editor.buffers_to_query(for_buffer, visible, target).contains(id) <==> is_wanted(
                editor,
                for_buffer,
                candidates(for_buffer, visible, target),
                id,
            ),
{
    let considered = candidates(for_buffer, visible, target);
    let wanted = |buffer: BufferInfo| editor.asks_about(for_buffer, buffer);
    lemma_first_of_each(considered.filter(wanted));
    assert forall|id: u64| #[trigger]
        editor.buffers_to_query(for_buffer, visible, target).contains(id) <==> is_wanted(
            editor,
            for_buffer,
            considered,
            id,
        ) by {
        lemma_filtered_id(considered, wanted, id);
        assert(has_id(considered.filter(wanted), id) <==> ids(
            first_of_each(considered.filter(wanted)),
        ).contains(id));
    }
}

/// A refresh for one buffer asks about no other, and asks at most once.
pub proof fn law_targeted_query_asks_about_target(
    editor: Editor,
    id: u64,
    visible: Seq<BufferInfo>,
    target: Option<BufferInfo>,
)
    ensures
        editor.buffers_to_query(Some(id), visible, target).len() <= 1,
        forall|k: int|
            0 <= k < editor.buffers_to_query(Some(id), visible, target).len()
                ==> #[trigger] editor.buffers_to_query(Some(id), visible, target)[k] == id,
{
    let query = editor.buffers_to_query(Some(id), visible, target);
    law_query_is_exact(editor, Some(id), visible, target);
    assert forall|k: int| 0 <= k < query.len() implies #[trigger] query[k] == id by {
        assert(query.contains(query[k]));
    }
    if query.len() > 1 {
        assert(query[0] == query[1]);
    }
}

/// Where no settings enable folding ranges, none are asked for.
pub proof fn law_nothing_enabled_nothing_asked(
    editor: Editor,
    for_buffer: Option<u64>,
    visible: Seq<BufferInfo>,
    target: Option<BufferInfo>,
)
    requires
        forall|i: int|
            0 <= i < candidates(for_buffer, visible, target).len() ==> !(
            #[trigger] candidates(for_buffer, visible, target)[i]).lsp_folding_ranges,
    ensures
        editor.buffers_to_query(for_buffer, visible, target) == Seq::<u64>::empty(),
{
    let query = editor.buffers_to_query(for_buffer, visible, target);
    law_query_is_exact(editor, for_buffer, visible, target);
    if query.len() > 0 {
        assert(query.contains(query[0]));
    }
    assert(query =~= Seq::<u64>::empty());
}

/// The buffers that are cleared are exactly those whose settings are off.
pub proof fn law_disabled_buffers_are_cleared(buffers: Seq<BufferInfo>)
    ensures
        forall|id: u64| #[trigger]
            disabled_ids(buffers).contains(id) <==> exists|i: int|
                0 <= i < buffers.len() && (#[trigger] buffers[i]).remote_id == id
                    && !buffers[i].lsp_folding_ranges,
{
    let off = |buffer: BufferInfo| !buffer.lsp_folding_ranges;
    let kept = buffers.filter(off);
    assert forall|id: u64| #[trigger]
        disabled_ids(buffers).contains(id) <==> exists|i: int|
            0 <= i < buffers.len() && (#[trigger] buffers[i]).remote_id == id
                && !buffers[i].lsp_folding_ranges by {
        lemma_filtered_id(buffers, off, id);
        assert(ids(kept).contains(id) <==> has_id(kept, id)) by {
            if ids(kept).contains(id) {
                let k = choose|k: int| 0 <= k < ids(kept).len() && ids(kept)[k] == id;
                assert(kept[k].remote_id == id);
            }
            if has_id(kept, id) {
                let k = choose|k: int| 0 <= k < kept.len() && (#[trigger] kept[k]).remote_id == id;
                assert(ids(kept)[k] == id);
            }
        }
    }
}

/// No buffer is cleared and asked about at once, as long as the buffers in view have the
/// settings that they have in the editor.
pub proof fn law_cleared_buffers_are_not_asked_about(
    editor: Editor,
    buffers: Seq<BufferInfo>,
    visible: Seq<BufferInfo>,
    id: u64,
)
    requires
        forall|i: int, j: int|
            0 <= i < buffers.len() && 0 <= j < visible.len() && (#[trigger] buffers[i]).remote_id
                == (#[trigger] visible[j]).remote_id ==> buffers[i].lsp_folding_ranges
                == visible[j].lsp_folding_ranges,
        disabled_ids(buffers).contains(id),
    ensures
        !editor.buffers_to_query(None, visible, None).contains(id),
{
    law_disabled_buffers_are_cleared(buffers);
    law_query_is_exact(editor, None, visible, None);
}

/// Once the settings of every buffer are off, no buffer keeps its folding ranges: whatever
/// buffers of the editor had some, all of them are cleared.
pub proof fn law_turning_off_clears_everything(buffers: Seq<BufferInfo>, holding: Set<u64>)
    requires
        forall|i: int| 0 <= i < buffers.len() ==> !(#[trigger] buffers[i]).lsp_folding_ranges,
        forall|id: u64| #[trigger] holding.contains(id) ==> has_id(buffers, id),
    ensures
        holding.difference(disabled_ids(buffers).to_set()) == Set::<u64>::empty(),
{
    law_disabled_buffers_are_cleared(buffers);
    assert forall|id: u64| #[trigger] holding.contains(id) implies disabled_ids(
        buffers,
    ).contains(id) by {
        assert(has_id(buffers, id));
    }
    assert(holding.difference(disabled_ids(buffers).to_set()) =~= Set::<u64>::empty());
}

/// The buffers that the language servers are asked about in a step.
pub open spec fn asked_in(step: SpecRefreshStep) -> Seq<u64> {
    match step {
        SpecRefreshStep::Fetch(fetch) => fetch.buffers,
        _ => seq![],
    }
}

/// A refresh asks once its wait is over, and not before, as long as it is the latest and
/// its editor is there.
pub proof fn law_refresh_waits_and_asks(refresh: SpecRefresh, latest: Option<u64>, now: u64)
    ensures
        refresh.step(latest, now) is Fetch <==> latest == Some(refresh.number) && now
            - refresh.since >= refresh.wait,
        asked_in(refresh.step(latest, now)) == if refresh.step(latest, now) is Fetch {
            refresh.buffers
        } else {
            seq![]
        },
        latest is None ==> refresh.step(latest, now) is Stop,
{
}

/// Of two refreshes of which the second is started before the wait of the first is over,
/// only the second asks: its own buffers, each once, and not before its own wait is over.
/// The first is still waiting when the second is started, and nothing comes of it after
/// that. If the editor is gone, nothing comes of either. Between the two the editor may
/// change in every other way.
pub proof fn law_later_refresh_supersedes(
    editor: Editor,
    first_for: Option<u64>,
    first_visible: Seq<BufferInfo>,
    first_target: Option<BufferInfo>,
    first_now: u64,
    changed: Editor,
    second_for: Option<u64>,
    second_visible: Seq<BufferInfo>,
    second_target: Option<BufferInfo>,
    second_now: u64,
    wait: u64,
)
    requires
        changed.latest_refresh == editor.after_start().latest_refresh,
        second_now - first_now < wait,
    ensures
        ({
            let first = editor.started(first_for, first_visible, first_target, first_now, wait);
            let second = changed.started(
                second_for,
                second_visible,
                second_target,
                second_now,
                wait,
            );
            let latest = Some(changed.after_start().latest_refresh);
            let selected = changed.buffers_to_query(second_for, second_visible, second_target);
            &&& forall|now: u64|
                now <= second_now ==> #[trigger] first.step(Some(changed.latest_refresh), now)
                    == SpecRefreshStep::Wait(first)
            &&& forall|now: u64| #[trigger] first.step(latest, now) == SpecRefreshStep::Stop
            &&& forall|now: u64|
                asked_in(#[trigger] second.step(latest, now)) == if now - second_now >= wait {
                    selected
                } else {
                    seq![]
                }
            &&& forall|now: u64| #[trigger] first.step(None, now) == SpecRefreshStep::Stop
            &&& forall|now: u64| #[trigger] second.step(None, now) == SpecRefreshStep::Stop
            &&& selected.no_duplicates()
        }),
{
    law_query_is_exact(changed, second_for, second_visible, second_target);
}

/// The number of the latest refresh after `count` more have been started.
pub open spec fn number_after(number: u64, count: nat) -> u64
    decreases count,
{
    if count == 0 {
        number
    } else {
        next_number(number_after(number, (count - 1) as nat))
    }
}

/// Numbers are counted up, and begin anew after the largest.
proof fn lemma_number_after(number: u64, count: nat)
    requires
        count <= u64::MAX,
    ensures
        number_after(number, count) == if number + count <= u64::MAX {
            number + count
        } else {
            number + count - u64::MAX - 1
        },
    decreases count,
{
    if count > 0 {
        lemma_number_after(number, (count - 1) as nat);
    }
}

/// A refresh that is not the latest never asks, however many have been started since, as
/// long as their numbers have not come round to its own.
pub proof fn law_only_latest_refresh_asks(refresh: SpecRefresh, count: nat, now: u64)
    requires
        0 < count <= u64::MAX,
    ensures
        refresh.step(Some(number_after(refresh.number, count)), now) == SpecRefreshStep::Stop,
{
    lemma_number_after(refresh.number, count);
}

/// A refresh of everything asks about `id` exactly if some buffer in view, wherever it
/// stands, has that id, is registered and has its settings on.
pub proof fn law_everything_in_view_is_asked_about(
    editor: Editor,
    visible: Seq<BufferInfo>,
    target: Option<BufferInfo>,
    id: u64,
)
    ensures
        editor.buffers_to_query(None, visible, target).contains(id) <==> exists|i: int|
            {
                &&& 0 <= i < visible.len()
                &&& (#[trigger] visible[i]).remote_id == id
                &&& editor.registered_buffers@.contains(id)
                &&& visible[i].lsp_folding_ranges
            },
{
    law_query_is_exact(editor, None, visible, target);
    assert(candidates(None, visible, target) == visible);
    if editor.buffers_to_query(None, visible, target).contains(id) {
        assert(is_wanted(editor, None, visible, id));
        let i = choose|i: int|
            {
                &&& 0 <= i < visible.len()
                &&& (#[trigger] visible[i]).remote_id == id
                &&& editor.asks_about(None, visible[i])
            };
        assert(visible[i].remote_id == id);
    }
    if exists|i: int|
        {
            &&& 0 <= i < visible.len()
            &&& (#[trigger] visible[i]).remote_id == id
            &&& editor.registered_buffers@.contains(id)
            &&& visible[i].lsp_folding_ranges
        } {
        assert(is_wanted(editor, None, visible, id));
    }
}

/// A refresh of one buffer asks about that buffer, and about no other, exactly if it is
/// registered and stands in view, or is the target, with its settings on.
pub proof fn law_target_or_view_is_asked_about(
    editor: Editor,
    id: u64,
    visible: Seq<BufferInfo>,
    target: Option<BufferInfo>,
)
    ensures
        ({
            let targeted = target matches Some(shown) && shown.remote_id == id
                && shown.lsp_folding_ranges;
            let in_view = exists|i: int|
                {
                    &&& 0 <= i < visible.len()
                    &&& (#[trigger] visible[i]).remote_id == id
                    &&& visible[i].lsp_folding_ranges
                };
            editor.buffers_to_query(Some(id), visible, target)
                == if editor.registered_buffers@.contains(id) && (targeted || in_view) {
                seq![id]
            } else {
                Seq::<u64>::empty()
            }
        }),
{
    let query = editor.buffers_to_query(Some(id), visible, target);
    let considered = candidates(Some(id), visible, target);
    law_query_is_exact(editor, Some(id), visible, target);
    law_targeted_query_asks_about_target(editor, id, visible, target);
    assert(query.contains(id) <==> is_wanted(editor, Some(id), considered, id));
    assert(forall|i: int| 0 <= i < visible.len() ==> #[trigger] considered[i] == visible[i]);
    if exists|i: int|
        {
            &&& 0 <= i < visible.len()
            &&& (#[trigger] visible[i]).remote_id == id
            &&& visible[i].lsp_folding_ranges
        } {
        let i = choose|i: int|
            {
                &&& 0 <= i < visible.len()
                &&& (#[trigger] visible[i]).remote_id == id
                &&& visible[i].lsp_folding_ranges
            };
        assert(considered[i].remote_id == id);
    }
    if let Some(shown) = target {
        assert(considered[visible.len() as int] == shown);
    }
    if is_wanted(editor, Some(id), considered, id) {
        let i = choose|i: int|
            {
                &&& 0 <= i < considered.len()
                &&& (#[trigger] considered[i]).remote_id == id
                &&& editor.asks_about(Some(id), considered[i])
            };
        if i < visible.len() {
            assert(visible[i].remote_id == id);
        }
    }
    if query.len() > 0 {
        assert(query[0] == id);
        assert(query.contains(query[0]));
        assert(query =~= seq![id]);
    } else {
        assert(query =~= Seq::<u64>::empty());
        assert(!query.contains(id));
    }
}

/// One more buffer in view is asked about after all others, if the editor can show its
/// folding ranges and its id was not asked about before. With nothing in view, nothing is
/// asked.
pub proof fn law_query_grows_with_view(
    editor: Editor,
    visible: Seq<BufferInfo>,
    more: BufferInfo,
)
    ensures
        editor.buffers_to_query(None, Seq::empty(), None) == Seq::<u64>::empty(),
        editor.buffers_to_query(None, visible.push(more), None) == {
            let asked = editor.buffers_to_query(None, visible, None);
            if editor.registered_buffers@.contains(more.remote_id) && more.lsp_folding_ranges
                && !asked.contains(more.remote_id) {
                asked.push(more.remote_id)
            } else {
                asked
            }
        },
{
    reveal(Seq::filter);
    let wanted = |buffer: BufferInfo| editor.asks_about(None, buffer);
    let none = Seq::<BufferInfo>::empty();
    assert(none.filter(wanted) =~= none);
    assert(ids(first_of_each(none)) =~= Seq::<u64>::empty());
    let (before, after) = (visible.filter(wanted), visible.push(more).filter(wanted));
    assert(visible.push(more).drop_last() =~= visible);
    let asked = ids(first_of_each(before));
    lemma_first_of_each(before);
    if wanted(more) {
        assert(after =~= before.push(more));
        assert(after.drop_last() =~= before);
        assert(has_id(before, more.remote_id) <==> asked.contains(more.remote_id));
        if !has_id(before, more.remote_id) {
            assert(ids(first_of_each(after)) =~= asked.push(more.remote_id));
        }
    }
}

/// An editor refreshes exactly if it is a full one, belongs to a project and uses folding
/// ranges from language servers.
pub proof fn law_three_conditions_for_a_refresh(editor: Editor)
    ensures
        editor.spec_refreshes() <==> {
            &&& editor.full_mode
            &&& editor.has_project
            &&& editor.use_lsp_folding_ranges
        },
{
}

/// A refresh that is started knows what it asks about, when it was started and how long it
/// waits. It is the latest one of the editor, which it was not before, and nothing else
/// changes in the editor.
pub proof fn law_started_refresh_is_latest(
    editor: Editor,
    for_buffer: Option<u64>,
    visible: Seq<BufferInfo>,
    target: Option<BufferInfo>,
    now: u64,
    wait: u64,
)
    ensures
        ({
            let refresh = editor.started(for_buffer, visible, target, now, wait);
            let after = editor.after_start();
            &&& refresh.buffers == editor.buffers_to_query(for_buffer, visible, target)
            &&& refresh.since == now
            &&& refresh.wait == wait
            &&& latest_of(Some(&after)) == Some(refresh.number)
            &&& latest_of(Some(&editor)) != Some(refresh.number)
            &&& editor.latest_refresh < u64::MAX ==> refresh.number == editor.latest_refresh + 1
            &&& after.full_mode == editor.full_mode
            &&& after.has_project == editor.has_project
            &&& after.use_lsp_folding_ranges == editor.use_lsp_folding_ranges
            &&& after.registered_buffers == editor.registered_buffers
        }),
{
}

/// A gone editor has no latest refresh, and another has the one it says.
pub proof fn law_gone_editor_has_no_refresh(editor: Editor)
    ensures
        latest_of(None) is None,
        latest_of(Some(&editor)) == Some(editor.latest_refresh),
{
}

/// What becomes of a refresh in each case, with all that it knows.
pub proof fn law_refresh_keeps_what_it_knows(refresh: SpecRefresh, now: u64)
    ensures
        now - refresh.since < refresh.wait ==> refresh.step(Some(refresh.number), now)
            == SpecRefreshStep::Wait(refresh),
        now - refresh.since >= refresh.wait ==> (refresh.step(Some(refresh.number), now) matches
            SpecRefreshStep::Fetch(fetch) && fetch.number == refresh.number && fetch.buffers
            == refresh.buffers),
        forall|latest: Option<u64>|
            latest != Some(refresh.number) ==> #[trigger] refresh.step(latest, now)
                == SpecRefreshStep::Stop,
{
}

/// Every answer is applied, each to its own buffer and in order, and the editor is drawn
/// anew once, at the very end. Without answers nothing changes.
pub proof fn law_every_answer_is_applied<R>(results: Seq<(u64, R)>)
    ensures
        results.len() == 0 ==> updates_for(results).len() == 0,
        results.len() > 0 ==> {
            &&& updates_for(results).len() == results.len() + 1
            &&& updates_for(results)[results.len() as int] == FoldingUpdate::<R>::Notify
        },
        forall|i: int|
            0 <= i < results.len() ==> #[trigger] updates_for(results)[i]
                == FoldingUpdate::SetRanges(results[i].0, results[i].1),
{
}

/// One more buffer is cleared after all others exactly if its settings are off. With no
/// buffers nothing is cleared.
pub proof fn law_clearing_grows_with_buffers(buffers: Seq<BufferInfo>, more: BufferInfo)
    ensures
        disabled_ids(Seq::empty()) == Seq::<u64>::empty(),
        disabled_ids(buffers.push(more)) == if more.lsp_folding_ranges {
            disabled_ids(buffers)
        } else {
            disabled_ids(buffers).push(more.remote_id)
        },
{
    reveal(Seq::filter);
    let off = |buffer: BufferInfo| !buffer.lsp_folding_ranges;
    let none = Seq::<BufferInfo>::empty();
    assert(none.filter(off) =~= none);
    assert(disabled_ids(none) =~= Seq::<u64>::empty());
    assert(buffers.push(more).drop_last() =~= buffers);
    if off(more) {
        assert(buffers.push(more).filter(off) =~= buffers.filter(off).push(more));
        assert(disabled_ids(buffers.push(more)) =~= disabled_ids(buffers).push(more.remote_id));
    }
}

/// Where all of the buffers are in view and no two share an id, every registered buffer is
/// either cleared or asked about, and never both.
pub proof fn law_buffers_are_cleared_or_asked_about(
    editor: Editor,
    buffers: Seq<BufferInfo>,
    k: int,
)
    requires
        0 <= k < buffers.len(),
        editor.registered_buffers@.contains(buffers[k].remote_id),
        forall|i: int, j: int|
            0 <= i < j < buffers.len() ==> (#[trigger] buffers[i]).remote_id
                != (#[trigger] buffers[j]).remote_id,
    ensures
        disabled_ids(buffers).contains(buffers[k].remote_id) <==> !editor.buffers_to_query(
            None,
            buffers,
            None,
        ).contains(buffers[k].remote_id),
{
    let id = buffers[k].remote_id;
    law_disabled_buffers_are_cleared(buffers);
    law_everything_in_view_is_asked_about(editor, buffers, None, id);
    assert(forall|i: int|
        0 <= i < buffers.len() && (#[trigger] buffers[i]).remote_id == id ==> i == k);
}

} // verus!
