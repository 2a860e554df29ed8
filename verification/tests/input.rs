//! Mouse input on the source panel, and the pane that shows diffs.
use herdr::app_state::{
    compute_source_panel_changes_card_areas, compute_source_panel_commit_file_card_areas,
    compute_source_panel_log_card_areas, AppState, Mode, PaneRect, SourcePanelActiveItem,
    SourcePanelCommitArea, SourcePanelCommitFileArea, SourcePanelFileArea, SourcePanelWidthSource,
};
use herdr::diff_pane::{PaneContext, PaneFocusTarget, RespawnRequest};
use herdr::geometry::Rect;
use herdr::ids::{IdMap, PaneId, TerminalId};
use herdr::panel::source_panel_body_rect;
use herdr::path::FsPath;
use herdr::source_control::{
    changed_file_diff_argv, commit_file_diff_argv, commit_show_argv, ChangeStatus, ChangedFile,
    CommitInfo, DEFAULT_LOADED_COMMIT_COUNT,
};
use herdr::tab::{NewPane, TerminalState};
use herdr::workspace::{Direction, SplitRequest, Workspace};
use std::cell::{Cell, RefCell};

fn path(text: &str) -> FsPath {
    FsPath::from_text(text)
}

/// The rows of the body that a ratio gives the Changes section.
fn split_rows(area: Rect, ratio: f32) -> u16 {
    (source_panel_body_rect(area).height as f32 * ratio.clamp(0.1, 0.9)).round() as u16
}

fn test_app() -> AppState {
    let mut app = AppState::new();
    app.source_panel_split_rows = split_rows(Rect::new(70, 0, 26, 20), 0.5);
    app
}

fn new_pane(raw: u64) -> NewPane {
    NewPane {
        pane_id: PaneId::from_raw(raw),
        terminal_id: TerminalId::from_raw(raw + 1000),
    }
}

fn test_workspace(name: &str) -> Workspace {
    let mut ws = Workspace::new(
        "w1".to_string(),
        path("/work/dir"),
        24,
        80,
        None,
        true,
        |_request| Ok::<NewPane, ()>(new_pane(1)),
    )
    .unwrap();
    ws.set_custom_name(name.to_string());
    ws
}

fn test_split(ws: &mut Workspace, direction: Direction, raw: u64) {
    ws.split_focused(direction, 24, 80, None, |_request| Ok::<NewPane, ()>(new_pane(raw)))
        .unwrap();
}

/// What is known about the running terminals and where the panes are.
struct Screen {
    sizes: IdMap<(u16, u16)>,
    live_cwds: IdMap<FsPath>,
    pane_rects: Vec<PaneRect>,
}

impl Screen {
    fn new(panes: &[(u64, Rect)]) -> Screen {
        Screen {
            sizes: IdMap::new(),
            live_cwds: IdMap::new(),
            pane_rects: panes
                .iter()
                .map(|(raw, rect)| PaneRect { id: PaneId::from_raw(*raw), rect: *rect })
                .collect(),
        }
    }

    fn context(&self) -> PaneContext<'_> {
        PaneContext {
            sizes: &self.sizes,
            live_cwds: &self.live_cwds,
            estimate: (50, 200),
            pane_rects: &self.pane_rects,
        }
    }
}

fn no_respawn(_request: RespawnRequest) -> bool {
    panic!("nothing should be run again")
}

fn no_spawn(_request: SplitRequest) -> Result<NewPane, ()> {
    panic!("nothing should be started")
}

fn no_alias(_pane_id: PaneId) {
    panic!("there should be no new pane")
}

fn no_focus(_previous: Option<PaneFocusTarget>, _ws_idx: usize, _pane_id: PaneId) {
    panic!("the focus should not move to a new pane")
}

fn any_alias(_pane_id: PaneId) {}

fn any_focus(_previous: Option<PaneFocusTarget>, _ws_idx: usize, _pane_id: PaneId) {}

fn no_fetch(_cwd: FsPath, _sha: String) -> Vec<ChangedFile> {
    panic!("nothing should be fetched")
}

#[test]
fn width_drag_widens_when_dragging_left_edge_left() {
    let mut app = test_app();
    app.source_panel_min_width = 18;
    app.source_panel_max_width = 36;

    // Drag the left edge from column 80 to 76 (4 columns left) → +4 width.
    app.set_source_panel_width_from_drag(80, 26, 76);

    assert_eq!(app.source_panel_width, 30);
    assert_eq!(
        app.source_panel_width_source,
        SourcePanelWidthSource::Manual
    );
}

#[test]
fn width_drag_clamps_to_configured_bounds() {
    let mut app = test_app();
    app.source_panel_min_width = 18;
    app.source_panel_max_width = 36;

    app.set_source_panel_width_from_drag(80, 30, 40); // far left → max
    assert_eq!(app.source_panel_width, 36);

    app.set_source_panel_width_from_drag(80, 30, 200); // far right → min
    assert_eq!(app.source_panel_width, 18);
}

#[test]
fn toggle_hit_test_uses_computed_view_rect() {
    let mut app = test_app();
    app.view.source_panel_toggle_rect = Rect::new(95, 19, 1, 1);

    assert!(app.on_source_panel_toggle(95, 19));
    assert!(!app.on_source_panel_toggle(94, 19));
}

#[test]
fn scroll_changes_advances_then_clamps_to_top() {
    let mut app = test_app();
    let mut ws = test_workspace("ws");
    ws.cached_changes = (0..40)
        .map(|i| ChangedFile {
            path: path(&format!("f{i}.rs")),
            status: ChangeStatus::Modified,
        })
        .collect();
    app.workspaces = vec![ws];
    app.selected = 0;
    app.view.source_panel_rect = Rect::new(70, 0, 26, 20);

    app.scroll_source_panel_changes(3);
    assert_eq!(app.source_panel_changes_scroll, 3);

    app.scroll_source_panel_changes(-10);
    assert_eq!(app.source_panel_changes_scroll, 0);
}

#[test]
fn scroll_log_advances_then_clamps_to_top() {
    let mut app = test_app();
    let mut ws = test_workspace("ws");
    ws.cached_log = (0..40)
        .map(|i| CommitInfo {
            graph_cell: "* ".into(),
            sha: Some(format!("sha{i}")),
            subject: format!("commit {i}"),
            author: "Ada".into(),
            decorations: Vec::new(),
        })
        .collect();
    app.workspaces = vec![ws];
    app.selected = 0;
    app.view.source_panel_rect = Rect::new(70, 0, 26, 20);

    app.scroll_source_panel_log(3);
    assert_eq!(app.source_panel_log_scroll, 3);

    app.scroll_source_panel_log(-10);
    assert_eq!(app.source_panel_log_scroll, 0);
}

#[test]
fn wheel_over_graph_section_scrolls_log_not_changes() {
    let mut app = test_app();
    let mut ws = test_workspace("ws");
    ws.cached_log = (0..40)
        .map(|i| CommitInfo {
            graph_cell: "* ".into(),
            sha: Some(format!("sha{i}")),
            subject: format!("commit {i}"),
            author: "Ada".into(),
            decorations: Vec::new(),
        })
        .collect();
    app.workspaces = vec![ws];
    app.selected = 0;
    app.view.source_panel_rect = Rect::new(70, 0, 26, 20);

    let graph = app.source_panel_graph_rect();
    app.scroll_source_panel_section_at(graph.x, graph.y + 1, 2);

    assert_eq!(app.source_panel_log_scroll, 2);
    assert_eq!(app.source_panel_changes_scroll, 0);
}

#[test]
fn resize_edge_matches_left_column_but_not_toggle() {
    let mut app = test_app();
    app.source_panel_collapsed = false;
    app.view.source_panel_rect = Rect::new(70, 0, 26, 20);
    app.view.source_panel_toggle_rect = Rect::new(95, 19, 1, 1);

    assert!(app.on_source_panel_resize_edge(70, 5)); // left edge column
    assert!(!app.on_source_panel_resize_edge(71, 5)); // interior
    assert!(!app.on_source_panel_resize_edge(95, 19)); // on the toggle

    app.source_panel_collapsed = true;
    assert!(!app.on_source_panel_resize_edge(70, 5)); // no resize when collapsed
}

#[test]
fn changed_file_hit_test_resolves_change_idx() {
    let mut app = test_app();
    app.view.source_panel_changes_card_areas = vec![
        SourcePanelFileArea {
            rect: Rect::new(71, 1, 24, 1),
            change_idx: 0,
        },
        SourcePanelFileArea {
            rect: Rect::new(71, 2, 24, 1),
            change_idx: 1,
        },
    ];

    assert_eq!(app.source_panel_changed_file_at(75, 1), Some(0));
    assert_eq!(app.source_panel_changed_file_at(75, 2), Some(1));
    assert_eq!(app.source_panel_changed_file_at(75, 5), None); // below the rows
    assert_eq!(app.source_panel_changed_file_at(120, 1), None); // outside columns
}

#[test]
fn refresh_hit_test_honors_collapsed_state() {
    let mut app = test_app();
    app.source_panel_collapsed = false;
    app.view.source_panel_changes_refresh_rect = Rect::new(95, 0, 1, 1);

    assert!(app.on_source_panel_changes_refresh(95, 0));
    assert!(!app.on_source_panel_changes_refresh(94, 0));

    app.source_panel_collapsed = true;
    assert!(!app.on_source_panel_changes_refresh(95, 0)); // ignored when collapsed
}

#[test]
fn commit_hit_test_resolves_log_idx() {
    let mut app = test_app();
    app.view.source_panel_log_card_areas = vec![
        SourcePanelCommitArea {
            rect: Rect::new(71, 5, 24, 1),
            log_idx: 0,
        },
        SourcePanelCommitArea {
            rect: Rect::new(71, 6, 24, 1),
            log_idx: 1,
        },
    ];

    assert_eq!(app.source_panel_commit_at(75, 5), Some(0));
    assert_eq!(app.source_panel_commit_at(75, 6), Some(1));
    assert_eq!(app.source_panel_commit_at(75, 9), None);
    assert_eq!(app.source_panel_commit_at(120, 5), None);
}

#[test]
fn commit_file_hit_test_resolves_log_and_file_indices() {
    let mut app = test_app();
    app.view.source_panel_commit_file_card_areas = vec![
        SourcePanelCommitFileArea {
            rect: Rect::new(71, 6, 24, 1),
            log_idx: 0,
            file_idx: 0,
        },
        SourcePanelCommitFileArea {
            rect: Rect::new(71, 7, 24, 1),
            log_idx: 0,
            file_idx: 1,
        },
    ];

    assert_eq!(app.source_panel_commit_file_at(75, 6), Some((0, 0)));
    assert_eq!(app.source_panel_commit_file_at(75, 7), Some((0, 1)));
    assert_eq!(app.source_panel_commit_file_at(75, 9), None);
    assert_eq!(app.source_panel_commit_file_at(120, 6), None);
}

/// An app with a single workspace whose log holds one commit, ready for
/// source-panel click tests. `sha`'s files are pre-cached so expanding it
/// never shells out to git.
fn app_with_one_commit(sha: &str) -> AppState {
    let mut app = test_app();
    app.mode = Mode::Terminal;
    let mut ws = test_workspace("ws");
    ws.cached_log = vec![CommitInfo {
        graph_cell: "* ".into(),
        sha: Some(sha.into()),
        subject: "subject".into(),
        author: "Ada".into(),
        decorations: Vec::new(),
    }];
    app.workspaces = vec![ws];
    app.active = Some(0);
    app.selected = 0;
    app.view.source_panel_rect = Rect::new(70, 0, 26, 20);
    app.view.source_panel_log_card_areas = vec![SourcePanelCommitArea {
        rect: Rect::new(71, 12, 24, 1),
        log_idx: 0,
    }];
    app.source_panel_commit_files.insert(sha.into(), Vec::new());
    app
}

#[test]
fn highlighted_item_suppressed_when_diff_pane_absent() {
    let mut app = test_app();
    app.workspaces = vec![test_workspace("ws")];
    app.active = Some(0);
    app.source_panel_active_item = Some(SourcePanelActiveItem::Commit("aaa1111".into()));

    // No diff pane → no highlight, even with an active item set.
    assert!(app.source_panel_highlighted_item().is_none());

    // A diff pane that still lives in the active tab → the item highlights.
    let pane = app.workspaces[0].tabs[0].root_pane;
    app.source_panel_diff_pane = Some(pane);
    assert_eq!(
        app.source_panel_highlighted_item(),
        Some(&SourcePanelActiveItem::Commit("aaa1111".into()))
    );
}

#[test]
fn log_refresh_hit_test_honors_collapsed_state() {
    let mut app = test_app();
    app.source_panel_collapsed = false;
    app.view.source_panel_log_refresh_rect = Rect::new(95, 10, 1, 1);

    assert!(app.on_source_panel_log_refresh(95, 10));
    assert!(!app.on_source_panel_log_refresh(94, 10));

    app.source_panel_collapsed = true;
    assert!(!app.on_source_panel_log_refresh(95, 10));
}

#[test]
fn load_more_hit_test_honors_collapsed_state() {
    let mut app = test_app();
    app.source_panel_collapsed = false;
    app.view.source_panel_load_more_rect = Rect::new(71, 18, 24, 1);

    assert!(app.on_source_panel_load_more(75, 18));
    assert!(!app.on_source_panel_load_more(75, 17));

    app.source_panel_collapsed = true;
    assert!(!app.on_source_panel_load_more(75, 18));
}

#[test]
fn load_more_commits_bumps_count_and_requests_refresh() {
    let mut app = test_app();
    let mut ws = test_workspace("ws");
    ws.cached_log_has_more = true;
    let before = ws.loaded_commit_count();
    app.workspaces = vec![ws];
    app.selected = 0;

    app.load_more_commits(0);

    assert_eq!(
        app.workspaces[0].loaded_commit_count(),
        before + DEFAULT_LOADED_COMMIT_COUNT
    );
    // Cleared until the refresh repopulates the log.
    assert!(!app.workspaces[0].has_more_commits());
    assert!(app.request_source_panel_git_refresh);
}

#[test]
fn section_divider_hit_test_excludes_refresh_cell() {
    let mut app = test_app();
    app.source_panel_collapsed = false;
    app.view.source_panel_section_divider_rect = Rect::new(71, 10, 24, 1);
    // The Graph refresh glyph shares the divider row's right edge.
    app.view.source_panel_log_refresh_rect = Rect::new(94, 10, 1, 1);

    assert!(app.on_source_panel_section_divider(75, 10));
    assert!(!app.on_source_panel_section_divider(94, 10)); // refresh glyph wins

    app.source_panel_collapsed = true;
    assert!(!app.on_source_panel_section_divider(75, 10));
}

#[test]
fn split_target_splits_wide_pane_side_by_side() {
    let mut app = test_app();
    app.workspaces = vec![test_workspace("ws")];
    app.active = Some(0);
    // A single wide pane: split horizontally so the diff lands beside it.
    let screen = Screen::new(&[(1, Rect::new(0, 0, 200, 50))]);

    let (pane, direction) = app
        .source_panel_split_target(&screen.pane_rects)
        .expect("a target pane should exist");
    let focused = app.workspaces[0].active_tab().unwrap().layout.focused();
    assert_eq!(pane, focused, "the only pane is both largest and focused");
    assert_eq!(direction, Direction::Horizontal);
}

#[test]
fn split_target_stacks_when_pane_is_no_longer_wide() {
    let mut app = test_app();
    app.workspaces = vec![test_workspace("ws")];
    app.active = Some(0);
    // A tall, narrow pane should split vertically rather than shrink width.
    let screen = Screen::new(&[(1, Rect::new(0, 0, 40, 60))]);

    let (_, direction) = app
        .source_panel_split_target(&screen.pane_rects)
        .expect("a target pane should exist");
    assert_eq!(direction, Direction::Vertical);
}

#[test]
fn split_target_avoids_the_small_focused_pane() {
    let mut app = test_app();
    let mut ws = test_workspace("ws");
    // Split once (focus moves to the right pane), then split that right pane
    // again so the focused pane is one of the small slivers and the left
    // pane is the largest. Opening a diff must target the large left pane,
    // not keep halving the tiny focused one.
    test_split(&mut ws, Direction::Horizontal, 2);
    test_split(&mut ws, Direction::Horizontal, 3);
    app.workspaces = vec![ws];
    app.active = Some(0);
    let screen = Screen::new(&[
        (1, Rect::new(0, 0, 100, 50)),
        (2, Rect::new(100, 0, 50, 50)),
        (3, Rect::new(150, 0, 50, 50)),
    ]);

    let (target, _) = app
        .source_panel_split_target(&screen.pane_rects)
        .expect("a target pane should exist");
    let focused = app.workspaces[0].active_tab().unwrap().layout.focused();
    assert_eq!(focused, PaneId::from_raw(3));
    assert_ne!(
        target, focused,
        "should split the largest pane, not the small focused one"
    );
}

#[test]
fn reuse_diff_pane_declines_when_none_is_tracked() {
    let mut app = test_app();
    app.workspaces = vec![test_workspace("ws")];
    app.active = Some(0);
    let screen = Screen::new(&[]);

    // No diff pane remembered: the caller falls through to spawning one.
    assert!(!app.reuse_source_panel_diff_pane(
        &screen.context(),
        &vec!["git".to_string()],
        no_respawn
    ));
}

#[test]
fn reuse_diff_pane_declines_when_tracked_pane_is_gone() {
    let mut app = test_app();
    app.workspaces = vec![test_workspace("ws")];
    app.active = Some(0);
    // A diff pane id that was never part of any tab (e.g. since closed).
    app.source_panel_diff_pane = Some(PaneId::from_raw(99_999));
    let screen = Screen::new(&[]);

    assert!(!app.reuse_source_panel_diff_pane(
        &screen.context(),
        &vec!["git".to_string()],
        no_respawn
    ));
}

#[test]
fn clicking_collapsed_commit_expands_it() {
    let mut app = app_with_one_commit("aaa1111");
    let screen = Screen::new(&[]);

    // Click the row body (not the leading chevron column).
    let log_idx = app.source_panel_commit_at(85, 12).unwrap();
    app.click_source_panel_commit(
        &screen.context(),
        0,
        log_idx,
        85,
        no_respawn,
        no_spawn,
        no_alias,
        no_focus,
        no_fetch,
    );

    assert!(app.source_panel_expanded_commits.contains("aaa1111"));
}

#[test]
fn clicking_chevron_collapses_expanded_commit() {
    let mut app = app_with_one_commit("aaa1111");
    app.source_panel_expanded_commits.insert("aaa1111".into());

    // The chevron sits at the graph section's left edge plus the graph-cell
    // width ("* ", 2 columns).
    let chevron_col = app.source_panel_graph_rect().x + 2;
    let screen = Screen::new(&[]);

    let log_idx = app.source_panel_commit_at(chevron_col, 12).unwrap();
    app.click_source_panel_commit(
        &screen.context(),
        0,
        log_idx,
        chevron_col,
        no_respawn,
        no_spawn,
        no_alias,
        no_focus,
        no_fetch,
    );

    assert!(!app.source_panel_expanded_commits.contains("aaa1111"));
}

#[test]
fn section_split_drag_updates_and_clamps_ratio() {
    let mut app = test_app();
    let panel = Rect::new(70, 0, 26, 20);
    app.view.source_panel_rect = panel;
    let ratio = Cell::new(0.5f32);
    let drag = |app: &mut AppState, start_y: u16, start_ratio: f32, row: u16| {
        app.set_source_panel_section_split_from_drag(start_y, row, |delta, height| {
            ratio.set((start_ratio + delta as f32 / height as f32).clamp(0.1, 0.9));
            split_rows(panel, ratio.get())
        });
    };

    // Drag the divider down 4 rows of a 20-row panel: +0.2 ratio.
    drag(&mut app, 10, 0.5, 14);
    assert!((ratio.get() - 0.7).abs() < 1e-3);
    assert_eq!(app.source_panel_split_rows, 13);
    assert!(app.session_dirty);

    // Dragging far down clamps to 0.9.
    drag(&mut app, 0, 0.5, 200);
    assert!((ratio.get() - 0.9).abs() < 1e-3);
    assert_eq!(app.source_panel_split_rows, 17);

    // Dragging far up clamps to 0.1.
    drag(&mut app, 200, 0.5, 0);
    assert!((ratio.get() - 0.1).abs() < 1e-3);
    assert_eq!(app.source_panel_split_rows, 2);
}

#[test]
fn clicking_load_more_bumps_loaded_commit_count() {
    let mut app = test_app();
    app.mode = Mode::Terminal;
    let mut ws = test_workspace("ws");
    ws.cached_log_has_more = true;
    let before = ws.loaded_commit_count();
    app.workspaces = vec![ws];
    app.active = Some(0);
    app.selected = 0;
    app.view.source_panel_rect = Rect::new(70, 0, 26, 20);
    app.view.source_panel_load_more_rect = Rect::new(71, 18, 24, 1);

    assert!(app.on_source_panel_load_more(75, 18));
    app.load_more_commits(0);

    assert_eq!(
        app.workspaces[0].loaded_commit_count(),
        before + DEFAULT_LOADED_COMMIT_COUNT
    );
    assert!(app.request_source_panel_git_refresh);
}

#[test]
fn a_panel_too_low_for_a_divider_keeps_its_split() {
    let mut app = test_app();
    app.view.source_panel_rect = Rect::new(70, 0, 26, 5);
    app.source_panel_split_rows = 2;
    app.set_source_panel_section_split_from_drag(1, 3, |_delta, _height| {
        panic!("the split should not change")
    });
    assert_eq!(app.source_panel_split_rows, 2);
    assert!(!app.session_dirty);
}

#[test]
fn loading_more_of_an_unknown_workspace_still_asks_git() {
    let mut app = test_app();
    app.load_more_commits(3);
    assert!(app.request_source_panel_git_refresh);
    let mut ws = test_workspace("ws");
    ws.loaded_commit_count = usize::MAX - 1;
    app.workspaces = vec![ws];
    app.load_more_commits(0);
    assert_eq!(app.workspaces[0].loaded_commit_count(), usize::MAX);
}

#[test]
fn scrolling_stops_at_the_last_full_viewport() {
    let mut app = test_app();
    let mut ws = test_workspace("ws");
    ws.cached_changes = (0..12).map(|i| modified(&format!("f{i}.rs"))).collect();
    app.workspaces = vec![ws];
    app.view.source_panel_rect = Rect::new(70, 0, 26, 20);
    app.scroll_source_panel_changes(i16::MAX);
    assert_eq!(app.source_panel_changes_scroll, 3);
    app.scroll_source_panel_changes(i16::MIN);
    assert_eq!(app.source_panel_changes_scroll, 0);
    // Off the graph the wheel moves the changes; a list that fits does not move.
    app.scroll_source_panel_section_at(75, 3, 2);
    assert_eq!(app.source_panel_changes_scroll, 2);
    let graph = app.source_panel_graph_rect();
    app.scroll_source_panel_section_at(graph.x, graph.y, 2);
    assert_eq!(app.source_panel_log_scroll, 0);
    assert_eq!(app.source_panel_changes_scroll, 2);
}

#[test]
fn a_collapsed_panel_has_no_sections() {
    let mut app = test_app();
    app.view.source_panel_rect = Rect::new(70, 0, 26, 20);
    assert_eq!(app.source_panel_changes_rect(), Rect::new(71, 1, 25, 10));
    // One row between the sections is the divider's.
    assert_eq!(app.source_panel_graph_rect(), Rect::new(71, 12, 25, 8));
    app.source_panel_collapsed = true;
    assert_eq!(app.source_panel_changes_rect(), Rect::default());
    assert_eq!(app.source_panel_graph_rect(), Rect::default());
}

fn modified(text: &str) -> ChangedFile {
    ChangedFile {
        path: path(text),
        status: ChangeStatus::Modified,
    }
}

#[test]
fn a_click_finds_what_the_row_shows() {
    let area = Rect::new(70, 0, 26, 20);
    let mut app = app_with_one_commit("aaa1111");
    app.workspaces[0].cached_changes = (0..30).map(|i| modified(&format!("f{i}.rs"))).collect();
    app.source_panel_changes_scroll = 4;
    app.source_panel_expanded_commits.insert("aaa1111".into());
    app.source_panel_commit_files
        .insert("aaa1111".into(), vec![modified("x.rs"), modified("y.rs")]);
    app.view.source_panel_changes_card_areas = compute_source_panel_changes_card_areas(&app, area);
    app.view.source_panel_log_card_areas = compute_source_panel_log_card_areas(&app, area);
    app.view.source_panel_commit_file_card_areas =
        compute_source_panel_commit_file_card_areas(&app, area);
    let changes = app.source_panel_changes_rect();
    assert_eq!(app.source_panel_changed_file_at(changes.x, changes.y + 1), Some(4));
    assert_eq!(app.source_panel_changed_file_at(changes.x, changes.y + 3), Some(6));
    let graph = app.source_panel_graph_rect();
    assert_eq!(app.source_panel_commit_at(graph.x, graph.y + 1), Some(0));
    assert_eq!(app.source_panel_commit_file_at(graph.x, graph.y + 1), None);
    assert_eq!(app.source_panel_commit_at(graph.x, graph.y + 3), None);
    assert_eq!(app.source_panel_commit_file_at(graph.x, graph.y + 3), Some((0, 1)));
}

#[test]
fn the_last_of_equally_large_panes_is_split() {
    let mut app = test_app();
    let screen = Screen::new(&[
        (1, Rect::new(0, 0, 40, 10)),
        (2, Rect::new(40, 0, 40, 20)),
        (3, Rect::new(0, 20, 80, 10)),
        (4, Rect::new(0, 40, 5, 5)),
    ]);
    assert_eq!(app.source_panel_split_target(&screen.pane_rects), None);
    app.workspaces = vec![test_workspace("ws")];
    app.active = Some(0);
    assert_eq!(
        app.source_panel_split_target(&screen.pane_rects),
        Some((PaneId::from_raw(3), Direction::Horizontal))
    );
    assert_eq!(app.source_panel_split_target(&Vec::new()), None);
}

#[test]
fn a_diff_opens_beside_the_largest_pane_and_is_replaced_there() {
    let mut app = test_app();
    let mut ws = test_workspace("ws");
    ws.cached_changes = vec![modified("a.rs"), modified("b.rs")];
    app.workspaces = vec![ws];
    app.active = Some(0);
    let mut screen = Screen::new(&[(1, Rect::new(0, 0, 200, 50))]);
    let repo = path("/work/dir");

    // The first diff gets a pane of its own.
    let wanted = changed_file_diff_argv(&repo, &modified("a.rs"));
    let followed = RefCell::new(Vec::new());
    let shown = app.open_changed_file_diff(
        &screen.context(),
        0,
        0,
        no_respawn,
        |request| {
            assert_eq!(request.pane_id, PaneId::from_raw(1));
            assert_eq!(request.direction, Direction::Horizontal);
            assert_eq!((request.rows, request.cols), (25, 100));
            assert_eq!(request.cwd, Some(path("/work/dir")));
            assert_eq!(request.argv.as_ref(), Some(&wanted));
            Ok::<NewPane, ()>(new_pane(5))
        },
        |pane_id| {
            assert_eq!(pane_id, PaneId::from_raw(5));
            followed.borrow_mut().push("alias");
        },
        |previous, ws_idx, pane_id| {
            let pane_1 = PaneFocusTarget { ws_idx: 0, pane_id: PaneId::from_raw(1) };
            assert_eq!(previous, Some(pane_1));
            assert_eq!((ws_idx, pane_id), (0, PaneId::from_raw(5)));
            followed.borrow_mut().push("focus");
        },
    );
    assert!(shown);
    assert_eq!(followed.into_inner(), vec!["alias", "focus"]);
    let pane_5 = PaneFocusTarget { ws_idx: 0, pane_id: PaneId::from_raw(5) };
    assert_eq!(app.current_pane_focus_target(), Some(pane_5));
    assert_eq!(app.source_panel_diff_pane, Some(PaneId::from_raw(5)));
    assert_eq!(
        app.source_panel_highlighted_item(),
        Some(&SourcePanelActiveItem::WorkingFile(path("a.rs")))
    );
    assert_eq!(app.workspaces[0].focused_pane_id(), Some(PaneId::from_raw(5)));
    assert_eq!(app.terminals.get(1005).unwrap().launch_argv.as_ref(), Some(&wanted));
    assert!(app.session_dirty);
    assert_eq!(app.mode, Mode::Terminal);

    // The next one replaces what it shows.
    app.workspaces[0].tabs[0].layout.focus_pane(PaneId::from_raw(1));
    screen.sizes.insert(1005, (33, 77));
    let wanted = changed_file_diff_argv(&repo, &modified("b.rs"));
    let shown = app.open_changed_file_diff(
        &screen.context(),
        0,
        1,
        |request| {
            assert_eq!(request.pane_id, PaneId::from_raw(5));
            assert_eq!(request.terminal_id, TerminalId::from_raw(1005));
            assert_eq!((request.rows, request.cols), (33, 77));
            assert_eq!(request.cwd, path("/work/dir"));
            assert_eq!(request.argv, wanted);
            true
        },
        no_spawn,
        no_alias,
        no_focus,
    );
    assert!(shown);
    assert_eq!(app.workspaces[0].tabs[0].layout.pane_count(), 2);
    assert_eq!(app.workspaces[0].focused_pane_id(), Some(PaneId::from_raw(5)));
    assert!(app.suppress_pane_death.contains_key(5));
    assert_eq!(app.terminals.get(1005).unwrap().launch_argv.as_ref(), Some(&wanted));
    assert_eq!(
        app.source_panel_highlighted_item(),
        Some(&SourcePanelActiveItem::WorkingFile(path("b.rs")))
    );

    // Without the pane the highlight goes.
    assert!(!app.workspaces[0].close_pane(PaneId::from_raw(5)));
    assert_eq!(app.source_panel_highlighted_item(), None);
}

#[test]
fn a_diff_that_cannot_be_shown_changes_nothing() {
    let mut app = test_app();
    let mut ws = test_workspace("ws");
    ws.cached_changes = vec![modified("a.rs")];
    app.workspaces = vec![ws];
    app.active = Some(0);
    let screen = Screen::new(&[(1, Rect::new(0, 0, 30, 30))]);
    // No such workspace or change.
    assert!(!app.open_changed_file_diff(
        &screen.context(),
        1, 0,
        no_respawn,
        no_spawn,
        no_alias,
        no_focus
    ));
    assert!(!app.open_changed_file_diff(
        &screen.context(),
        0, 1,
        no_respawn,
        no_spawn,
        no_alias,
        no_focus
    ));
    // The command does not start.
    let refuse = |_request: SplitRequest| Err::<NewPane, ()>(());
    assert!(!app.open_changed_file_diff(
        &screen.context(),
        0, 0,
        no_respawn,
        refuse,
        no_alias,
        no_focus
    ));
    // There is no pane to split.
    let empty = Screen::new(&[]);
    assert!(!app.open_changed_file_diff(
        &empty.context(),
        0, 0,
        no_respawn,
        no_spawn,
        no_alias,
        no_focus
    ));
    // The pane to split is not there.
    let other = Screen::new(&[(8, Rect::new(0, 0, 30, 30))]);
    assert!(!app.open_changed_file_diff(
        &other.context(),
        0, 0,
        no_respawn,
        no_spawn,
        no_alias,
        no_focus
    ));
    assert_eq!(app.source_panel_diff_pane, None);
    assert_eq!(app.source_panel_active_item, None);
    assert_eq!(app.mode, Mode::Navigate);
    assert!(!app.session_dirty);
}

#[test]
fn a_command_that_cannot_be_run_again_gets_a_new_pane() {
    let mut app = app_with_one_commit("aaa1111");
    let screen = Screen::new(&[(1, Rect::new(0, 0, 10, 20))]);
    app.source_panel_diff_pane = Some(PaneId::from_raw(1));
    app.terminals
        .insert(1001, TerminalState::new(TerminalId::from_raw(1001), path("/here")));
    let asked = Cell::new(false);
    let shown = app.open_commit_show(
        &screen.context(),
        0,
        0,
        |request| {
            // Without a running terminal the size is the estimate.
            assert_eq!((request.rows, request.cols), (50, 200));
            asked.set(true);
            false
        },
        |request| {
            assert_eq!(request.direction, Direction::Vertical);
            assert_eq!(request.cwd, Some(path("/here")));
            Ok::<NewPane, ()>(new_pane(6))
        },
        any_alias,
        any_focus,
    );
    assert!(shown && asked.get());
    assert_eq!(app.source_panel_diff_pane, Some(PaneId::from_raw(6)));
    assert_eq!(
        app.source_panel_active_item,
        Some(SourcePanelActiveItem::Commit("aaa1111".to_string()))
    );
    assert_eq!(app.terminals.get(1006).unwrap().cwd, path("/here"));
}

#[test]
fn clicking_an_expanded_commit_shows_it() {
    let mut app = app_with_one_commit("aaa1111");
    app.source_panel_expanded_commits.insert("aaa1111".into());
    let screen = Screen::new(&[(1, Rect::new(0, 0, 9, 5))]);
    let wanted = commit_show_argv(&path("/work/dir"), "aaa1111");
    app.click_source_panel_commit(
        &screen.context(),
        0,
        0,
        85,
        no_respawn,
        |request| {
            assert_eq!(request.argv.as_ref(), Some(&wanted));
            Ok::<NewPane, ()>(new_pane(5))
        },
        any_alias,
        any_focus,
        no_fetch,
    );
    assert!(app.source_panel_expanded_commits.contains("aaa1111"));
    assert_eq!(
        app.source_panel_active_item,
        Some(SourcePanelActiveItem::Commit("aaa1111".to_string()))
    );
}

#[test]
fn the_files_of_a_commit_are_fetched_once() {
    let mut app = app_with_one_commit("aaa1111");
    app.workspaces[0].cached_log.push(CommitInfo {
        graph_cell: "* ".into(),
        sha: Some("bbb2222".into()),
        subject: "other".into(),
        author: "Ada".into(),
        decorations: Vec::new(),
    });
    app.workspaces[0].cached_log.push(CommitInfo {
        graph_cell: "|\\ ".into(),
        sha: None,
        subject: String::new(),
        author: String::new(),
        decorations: Vec::new(),
    });
    let screen = Screen::new(&[]);
    app.click_source_panel_commit(
        &screen.context(),
        0,
        1,
        85,
        no_respawn,
        no_spawn,
        no_alias,
        no_focus,
        |cwd, sha| {
            assert_eq!(cwd, path("/work/dir"));
            assert_eq!(sha, "bbb2222");
            vec![modified("x.rs")]
        },
    );
    assert!(app.source_panel_expanded_commits.contains("bbb2222"));
    assert_eq!(app.source_panel_commit_files.get("bbb2222").unwrap().len(), 1);
    app.expand_source_panel_commit(&screen.context(), 0, "bbb2222", no_fetch);
    // Connectors and rows that are not there do nothing.
    app.click_source_panel_commit(
        &screen.context(),
        0, 2, 85,
        no_respawn,
        no_spawn,
        no_alias,
        no_focus,
        no_fetch,
    );
    app.click_source_panel_commit(
        &screen.context(),
        0, 3, 85,
        no_respawn,
        no_spawn,
        no_alias,
        no_focus,
        no_fetch,
    );
    app.click_source_panel_commit(
        &screen.context(),
        1, 0, 85,
        no_respawn,
        no_spawn,
        no_alias,
        no_focus,
        no_fetch,
    );
    app.expand_source_panel_commit(&screen.context(), 7, "ccc", no_fetch);
    assert!(!app.source_panel_expanded_commits.contains("ccc"));
    assert!(!app.open_commit_show(
        &screen.context(),
        0, 2,
        no_respawn,
        no_spawn,
        no_alias,
        no_focus
    ));
}

#[test]
fn a_file_of_a_commit_is_shown_alone() {
    let mut app = app_with_one_commit("aaa1111");
    app.source_panel_commit_files
        .insert("aaa1111".into(), vec![modified("x.rs"), modified("d/y.rs")]);
    let screen = Screen::new(&[(1, Rect::new(0, 0, 9, 5))]);
    let wanted = commit_file_diff_argv(&path("/work/dir"), "aaa1111", &modified("d/y.rs"));
    assert!(!app.open_commit_file_diff(
        &screen.context(),
        0, 0, 2,
        no_respawn,
        no_spawn,
        no_alias,
        no_focus
    ));
    assert!(!app.open_commit_file_diff(
        &screen.context(),
        0, 1, 0,
        no_respawn,
        no_spawn,
        no_alias,
        no_focus
    ));
    let shown = app.open_commit_file_diff(
        &screen.context(),
        0,
        0,
        1,
        no_respawn,
        |request| {
            assert_eq!(request.argv.as_ref(), Some(&wanted));
            Ok::<NewPane, ()>(new_pane(5))
        },
        any_alias,
        any_focus,
    );
    assert!(shown);
    assert_eq!(
        app.source_panel_highlighted_item(),
        Some(&SourcePanelActiveItem::CommitFile {
            sha: "aaa1111".to_string(),
            path: path("d/y.rs"),
        })
    );
}

#[test]
fn a_small_screen_still_gets_a_usable_pane() {
    let mut app = app_with_one_commit("aaa1111");
    let screen = Screen::new(&[(1, Rect::new(0, 0, 9, 5))]);
    let mut context = screen.context();
    context.estimate = (6, 15);
    let argv = vec!["git".to_string()];
    let shown = app.spawn_source_panel_diff_pane(
        &context,
        &argv,
        &path("/repo"),
        |request| {
            assert_eq!((request.rows, request.cols), (4, 10));
            // Nothing is known of the focused pane's directory.
            assert_eq!(request.cwd, Some(path("/repo")));
            Ok::<NewPane, ()>(new_pane(5))
        },
        any_alias,
        any_focus,
    );
    assert!(shown);
}
