use archive::folding_ranges::{
    folding_updates, BufferInfo, Editor, FoldingFetch, FoldingRefresh, FoldingUpdate, RefreshStep,
};
use std::collections::HashSet;

fn editor(registered: &[u64]) -> Editor {
    Editor {
        full_mode: true,
        has_project: true,
        use_lsp_folding_ranges: true,
        registered_buffers: registered.iter().copied().collect::<HashSet<u64>>(),
        latest_refresh: 0,
    }
}

fn buffer(remote_id: u64, lsp_folding_ranges: bool) -> BufferInfo {
    BufferInfo { remote_id, lsp_folding_ranges }
}

/// A refresh of every buffer in view, at the time `now`, with a wait of 50.
fn start(editor: &mut Editor, visible: &[BufferInfo], now: u64) -> FoldingRefresh {
    editor.refresh_folding_ranges(None, &visible.to_vec(), None, now, 50).unwrap()
}

fn fetch(refresh: FoldingRefresh, editor: &Editor, now: u64) -> FoldingFetch {
    match refresh.step(Some(editor), now) {
        RefreshStep::Fetch(fetch) => fetch,
        other => panic!("the language servers were to be asked: {other:?}"),
    }
}

/// The buffers that the editor asks about for a refresh that it starts now.
fn asked(
    editor: &mut Editor,
    for_buffer: Option<u64>,
    visible: &[BufferInfo],
    target: Option<BufferInfo>,
) -> Vec<u64> {
    let refresh = editor.refresh_folding_ranges(for_buffer, &visible.to_vec(), target, 0, 0);
    fetch(refresh.unwrap(), editor, 0).buffers().clone()
}

#[test]
fn visible_buffers_are_asked_about_once() {
    let visible = [
        buffer(3, true),
        buffer(1, true),
        buffer(3, true),
        buffer(2, false),
        buffer(4, true),
    ];
    assert_eq!(asked(&mut editor(&[1, 2, 3]), None, &visible, None), vec![3, 1]);
}

#[test]
fn a_targeted_refresh_asks_about_its_target_alone() {
    let visible = [buffer(1, true), buffer(2, true)];
    let mut editor = editor(&[1, 2, 5]);
    assert_eq!(asked(&mut editor, Some(2), &visible, Some(buffer(2, true))), vec![2]);
    assert_eq!(asked(&mut editor, Some(5), &visible, Some(buffer(5, true))), vec![5]);
    assert_eq!(asked(&mut editor, Some(5), &visible, None), Vec::<u64>::new());
    assert_eq!(
        asked(&mut editor, Some(5), &visible, Some(buffer(5, false))),
        Vec::<u64>::new()
    );
}

#[test]
fn unregistered_target_is_not_asked_about() {
    assert_eq!(
        asked(&mut editor(&[]), Some(2), &[], Some(buffer(2, true))),
        Vec::<u64>::new()
    );
}

#[test]
fn some_editors_do_not_refresh() {
    let visible = vec![buffer(1, true)];
    let mut single_line = editor(&[1]);
    single_line.full_mode = false;
    let mut without_project = editor(&[1]);
    without_project.has_project = false;
    let mut without_ranges = editor(&[1]);
    without_ranges.use_lsp_folding_ranges = false;
    for mut guarded in [single_line, without_project, without_ranges] {
        assert_eq!(guarded.refresh_folding_ranges(None, &visible, None, 0, 50), None);
        assert_eq!(guarded.latest_refresh, 0);
    }
}

#[test]
fn a_refresh_waits() {
    let mut editor = editor(&[1]);
    let mut refresh = start(&mut editor, &[buffer(1, true)], 100);
    for now in [0, 99, 100, 149] {
        refresh = match refresh.step(Some(&editor), now) {
            RefreshStep::Wait(refresh) => refresh,
            other => panic!("it was to wait: {other:?}"),
        };
    }
    assert_eq!(fetch(refresh, &editor, 150).buffers(), &vec![1]);
}

#[test]
fn a_later_refresh_takes_the_place_of_a_waiting_one() {
    let mut editor = editor(&[1, 2]);
    let first = start(&mut editor, &[buffer(1, true)], 0);
    let second = start(&mut editor, &[buffer(2, true)], 20);
    assert_eq!(first.step(Some(&editor), 50), RefreshStep::Stop);
    let RefreshStep::Wait(second) = second.step(Some(&editor), 69) else {
        panic!("the second was to wait for its own time");
    };
    assert_eq!(fetch(second, &editor, 70).buffers(), &vec![2]);
}

#[test]
fn a_guarded_call_leaves_a_waiting_refresh() {
    let mut editor = editor(&[1]);
    let first = start(&mut editor, &[buffer(1, true)], 0);
    editor.has_project = false;
    assert_eq!(editor.refresh_folding_ranges(None, &vec![], None, 20, 50), None);
    editor.has_project = true;
    assert_eq!(fetch(first, &editor, 50).buffers(), &vec![1]);
}

#[test]
fn an_empty_refresh_supersedes_too() {
    let mut editor = editor(&[1]);
    let first = start(&mut editor, &[buffer(1, true)], 0);
    let second = start(&mut editor, &[], 20);
    assert_eq!(first.step(Some(&editor), 50), RefreshStep::Stop);
    assert_eq!(fetch(second, &editor, 70).buffers(), &Vec::<u64>::new());
}

#[test]
fn only_the_latest_of_many_asks() {
    let mut editor = editor(&[1]);
    editor.latest_refresh = u64::MAX - 1;
    let mut refreshes = vec![];
    for now in 0..4 {
        refreshes.push(start(&mut editor, &[buffer(1, true)], now));
    }
    assert_eq!(editor.latest_refresh, 2);
    let last = refreshes.pop().unwrap();
    for earlier in refreshes {
        assert_eq!(earlier.step(Some(&editor), 100), RefreshStep::Stop);
    }
    assert_eq!(fetch(last, &editor, 100).buffers(), &vec![1]);
}

#[test]
fn a_refresh_ends_with_its_editor() {
    let mut editor = editor(&[1]);
    let refresh = start(&mut editor, &[buffer(1, true)], 0);
    assert_eq!(refresh.step(None, 50), RefreshStep::Stop);
}

#[test]
fn answers_count_only_for_the_latest_refresh() {
    let mut editor = editor(&[1]);
    let in_time = start(&mut editor, &[buffer(1, true)], 0);
    let in_time = fetch(in_time, &editor, 50);
    assert_eq!(
        in_time.finish(Some(&editor), vec![(1, "ranges")]),
        vec![FoldingUpdate::SetRanges(1, "ranges"), FoldingUpdate::Notify]
    );
    let late = start(&mut editor, &[buffer(1, true)], 100);
    let late = fetch(late, &editor, 150);
    let orphan = start(&mut editor, &[buffer(1, true)], 160);
    assert_eq!(late.finish(Some(&editor), vec![(1, "ranges")]), vec![]);
    let orphan = fetch(orphan, &editor, 210);
    assert_eq!(orphan.finish(None, vec![(1, "ranges")]), vec![]);
}

#[test]
fn answers_are_shown_in_order() {
    assert_eq!(
        folding_updates(vec![(2, "two"), (1, "one")]),
        vec![
            FoldingUpdate::SetRanges(2, "two"),
            FoldingUpdate::SetRanges(1, "one"),
            FoldingUpdate::Notify,
        ]
    );
    assert_eq!(folding_updates::<&str>(vec![]), vec![]);
}

#[test]
fn ranges_are_shown_where_they_are_used_and_there() {
    let mut editor = editor(&[]);
    assert!(editor.lsp_folding_ranges_enabled(true));
    assert!(!editor.lsp_folding_ranges_enabled(false));
    editor.use_lsp_folding_ranges = false;
    assert!(!editor.lsp_folding_ranges_enabled(true));
}

#[test]
fn disabled_buffers_are_cleared_and_the_others_refreshed() {
    let buffers = vec![buffer(1, false), buffer(2, true), buffer(3, false)];
    let mut editor = editor(&[1, 2, 3]);
    let waiting = start(&mut editor, &buffers, 0);
    let plan = editor.clear_disabled_lsp_folding_ranges(&buffers, &buffers, 10, 50).unwrap();
    assert_eq!(plan.to_clear, vec![1, 3]);
    assert!(plan.notify);
    assert_eq!(waiting.step(Some(&editor), 60), RefreshStep::Stop);
    assert_eq!(fetch(plan.refresh.unwrap(), &editor, 60).buffers(), &vec![2]);
}

#[test]
fn nothing_to_clear_needs_no_redraw() {
    let buffers = vec![buffer(2, true)];
    let mut editor = editor(&[2]);
    let plan = editor.clear_disabled_lsp_folding_ranges(&buffers, &buffers, 0, 50).unwrap();
    assert_eq!(plan.to_clear, Vec::<u64>::new());
    assert!(!plan.notify);
    assert_eq!(fetch(plan.refresh.unwrap(), &editor, 50).buffers(), &vec![2]);
}

#[test]
fn clearing_does_not_need_a_refresh() {
    let buffers = vec![buffer(1, false)];
    let mut without_project = editor(&[1]);
    without_project.has_project = false;
    let plan =
        without_project.clear_disabled_lsp_folding_ranges(&buffers, &buffers, 0, 50).unwrap();
    assert_eq!(plan.to_clear, vec![1]);
    assert_eq!(plan.refresh, None);
    assert_eq!(without_project.latest_refresh, 0);
    let mut without_ranges = editor(&[1]);
    without_ranges.use_lsp_folding_ranges = false;
    let plan = without_ranges.clear_disabled_lsp_folding_ranges(&buffers, &buffers, 0, 50);
    assert!(plan.is_none());
}
