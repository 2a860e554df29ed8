//! The source panel: where things lie and what is drawn.
use herdr::app_state::{
    compute_source_panel_changes_card_areas, compute_source_panel_commit_file_card_areas,
    compute_source_panel_explorer_node_areas, compute_source_panel_load_more_rect,
    compute_source_panel_log_card_areas, source_panel_changes_scroll_metrics,
    source_panel_explorer_scroll_metrics, source_panel_explorer_scrollbar_rect,
    source_panel_has_git_workspace, source_panel_log_scrollbar_rect, AppState, Mode,
    SourcePanelActiveItem,
};
use herdr::file_tree::{FileEntryKind, FileTreeEntry};
use herdr::geometry::{should_show_scrollbar, Rect, ScrollMetrics};
use herdr::ids::{PaneId, TerminalId};
use herdr::panel::{
    collapsed_source_panel_toggle_rect, compute_source_panel_mode_tab_areas,
    expanded_source_panel_sections, expanded_source_panel_toggle_rect, source_panel_body_rect,
    source_panel_changes_rect, source_panel_changes_refresh_rect,
    source_panel_explorer_collapse_all_rect, source_panel_explorer_refresh_rect,
    source_panel_explorer_tree_rect, source_panel_graph_rect, source_panel_log_refresh_rect,
    source_panel_section_divider_rect, source_panel_section_heights, SOURCE_PANEL_HEADER_ROWS,
};
use herdr::path::FsPath;
use herdr::render::{
    change_path_parts, change_status_glyph, commit_row_spans, render_source_panel,
    render_source_panel_collapsed, DrawOp, Emphasis, Ink,
};
use herdr::source_control::{ChangeStatus, ChangedFile, CommitInfo};
use herdr::tab::NewPane;
use herdr::workspace::{SourcePanelMode, Workspace};
use ratatui::buffer::Buffer;
use ratatui::style::{Color, Style};
use ratatui::text::Line;
use ratatui::widgets::{Paragraph, Widget};

const SURFACE0: Color = Color::Indexed(240);

fn path(text: &str) -> FsPath {
    FsPath::from_text(text)
}

/// The rows of the body that a ratio gives the Changes section.
fn split_rows(area: Rect, ratio: f32) -> u16 {
    (source_panel_body_rect(area).height as f32 * ratio.clamp(0.1, 0.9)).round() as u16
}

fn test_app() -> AppState {
    let mut app = AppState::new();
    app.source_panel_split_rows = split_rows(Rect::new(0, 0, 26, 20), 0.5);
    app
}

fn test_workspace(name: &str) -> Workspace {
    let mut ws = Workspace::new(
        "w1".to_string(),
        path("/work/dir"),
        24,
        80,
        Some("trunk".to_string()),
        true,
        |_request| {
            Ok::<NewPane, ()>(NewPane {
                pane_id: PaneId::from_raw(1),
                terminal_id: TerminalId::from_raw(1),
            })
        },
    )
    .unwrap();
    ws.set_custom_name(name.to_string());
    ws
}

fn cells(rect: Rect) -> ratatui::layout::Rect {
    ratatui::layout::Rect::new(rect.x, rect.y, rect.width, rect.height)
}

fn paint(ops: &[DrawOp], area: Rect) -> Buffer {
    let mut buf = Buffer::empty(cells(area));
    for op in ops {
        match op {
            DrawOp::Line { rect, spans } => {
                let spans: Vec<ratatui::text::Span> = spans
                    .iter()
                    .map(|span| ratatui::text::Span::raw(span.text.clone()))
                    .collect();
                Paragraph::new(Line::from(spans)).render(cells(*rect), &mut buf);
            }
            DrawOp::Separator { rect } => {
                for y in rect.y..rect.y + rect.height {
                    buf[(rect.x, y)].set_symbol("│");
                }
            }
            DrawOp::Rule { rect } => {
                for x in rect.x..rect.x + rect.width {
                    buf[(x, rect.y)].set_symbol("─");
                }
            }
            DrawOp::Highlight { rect } => {
                buf.set_style(cells(*rect), Style::default().bg(SURFACE0));
            }
            DrawOp::Scrollbar { .. } => {}
        }
    }
    buf
}

fn draw_panel(app: &AppState, area: Rect) -> Buffer {
    let name = match app.workspaces.first() {
        Some(ws) => ws.display_name(&|cwd: &FsPath| cwd.to_text()),
        None => String::new(),
    };
    paint(&render_source_panel(app, area, &name), area)
}

fn draw_collapsed(app: &AppState, area: Rect) -> Buffer {
    paint(&render_source_panel_collapsed(app, area), area)
}

#[test]
fn expanded_source_panel_sections_split_height_excluding_separator() {
    let area = Rect::new(70, 0, 26, 20);
    let (changes, graph) = expanded_source_panel_sections(area, split_rows(area, 0.5));

    // Content starts one column in (past the left separator) and one row
    // down (past the mode-tab header).
    assert_eq!(changes.x, area.x + 1);
    assert_eq!(changes.width, area.width - 1);
    assert_eq!(changes.y, area.y + SOURCE_PANEL_HEADER_ROWS);
    // A 1-row divider sits between the sections, so the graph starts one row
    // below the changes section and the two cover all but the header and
    // divider rows.
    assert_eq!(graph.y, changes.y + changes.height + 1);
    assert_eq!(
        changes.height + graph.height,
        area.height - SOURCE_PANEL_HEADER_ROWS - 1
    );
}

#[test]
fn expanded_source_panel_sections_handle_tiny_heights() {
    // Below the divider threshold the sections cover the body height (the
    // panel height minus the mode-tab header row) with no dedicated divider.
    let (changes, graph) = expanded_source_panel_sections(
        Rect::new(70, 0, 20, 5),
        split_rows(Rect::new(70, 0, 20, 5), 0.9),
    );
    assert!(changes.height >= 1);
    assert_eq!(changes.height + graph.height, 5 - SOURCE_PANEL_HEADER_ROWS);
}

#[test]
fn section_divider_sits_between_sections() {
    let area = Rect::new(70, 0, 26, 20);
    let (changes, _) = expanded_source_panel_sections(area, split_rows(area, 0.5));
    let divider = source_panel_section_divider_rect(area, split_rows(area, 0.5));
    assert_eq!(divider.y, changes.y + changes.height);
    assert_eq!(divider.height, 1);
    assert_eq!(divider.x, area.x + 1);
}

#[test]
fn expanded_toggle_sits_in_bottom_right_corner() {
    let area = Rect::new(70, 0, 26, 20);
    let toggle = expanded_source_panel_toggle_rect(area);
    assert_eq!(toggle.x, area.x + area.width - 1);
    assert_eq!(toggle.y, area.y + area.height - 1);
}

#[test]
fn render_source_panel_draws_headers_separator_and_toggle() {
    let app = test_app();
    let area = Rect::new(0, 0, 26, 20);
    let buf = draw_panel(&app, area);
    // Left-edge separator.
    assert_eq!(buf[(area.x, area.y)].symbol(), "│");
    // The mode segmented control occupies the top header row.
    let mode_header: String = (area.x + 1..area.x + area.width)
        .map(|x| buf[(x, area.y)].symbol())
        .collect();
    assert!(mode_header.contains("Source"), "header was {mode_header:?}");
    assert!(
        mode_header.contains("Explorer"),
        "header was {mode_header:?}"
    );
    // " changes" header sits on the content row just below the mode header.
    let changes_header: String = (area.x + 1..area.x + area.width)
        .map(|x| buf[(x, area.y + SOURCE_PANEL_HEADER_ROWS)].symbol())
        .collect();
    assert!(
        changes_header.starts_with(" changes"),
        "changes header was {changes_header:?}"
    );
    // Collapse toggle in the bottom-right corner.
    let toggle = expanded_source_panel_toggle_rect(area);
    assert_eq!(buf[(toggle.x, toggle.y)].symbol(), "»");
}

/// Build an app with a single git workspace in the given source-panel mode.
fn app_in_mode(mode: SourcePanelMode) -> AppState {
    let mut app = test_app();
    let mut ws = test_workspace("my-project");
    ws.set_source_panel_mode(mode);
    app.workspaces = vec![ws];
    app.selected = 0;
    app.active = Some(0);
    app
}

#[test]
fn mode_header_highlights_the_active_mode() {
    // In Source mode the Source label carries the active highlight background
    // and the Explorer label does not; switching modes moves the highlight.
    let area = Rect::new(0, 0, 26, 20);
    let tabs = compute_source_panel_mode_tab_areas(area);
    let source_tab = tabs
        .iter()
        .find(|t| t.mode == SourcePanelMode::Source)
        .unwrap()
        .rect;
    let explorer_tab = tabs
        .iter()
        .find(|t| t.mode == SourcePanelMode::Explorer)
        .unwrap()
        .rect;

    let source_app = app_in_mode(SourcePanelMode::Source);
    let buf = draw_panel(&source_app, area);
    let active_bg = SURFACE0;
    assert_eq!(
        buf[(source_tab.x, source_tab.y)].style().bg,
        Some(active_bg)
    );
    assert_ne!(
        buf[(explorer_tab.x, explorer_tab.y)].style().bg,
        Some(active_bg)
    );
}

#[test]
fn explorer_mode_shows_workspace_name_and_hides_source_sections() {
    let area = Rect::new(0, 0, 26, 20);
    let app = app_in_mode(SourcePanelMode::Explorer);
    let buf = draw_panel(&app, area);
    let whole: String = (area.y..area.y + area.height)
        .flat_map(|y| (area.x..area.x + area.width).map(move |x| (x, y)))
        .map(|(x, y)| buf[(x, y)].symbol().to_string())
        .collect();
    // The workspace name / cwd basename anchors the Explorer header.
    assert!(whole.contains("my-project"), "panel was {whole:?}");
    // The Source mode's git sections are not rendered in Explorer mode.
    assert!(!whole.contains("changes ("), "panel was {whole:?}");
    assert!(!whole.contains("graph"), "panel was {whole:?}");
}

/// An app in Explorer mode with a directory tree seeded directly into the
/// cache (no real filesystem), rooted at `/proj`.
fn app_with_explorer_tree() -> AppState {
    let mut app = test_app();
    let mut ws = test_workspace("proj");
    ws.set_source_panel_mode(SourcePanelMode::Explorer);
    let root = path("/proj");
    ws.explorer_root = Some(root.clone());
    ws.explorer_cache.insert(
        root.clone(),
        vec![
            FileTreeEntry {
                name: "src".into(),
                path: root.join(&path("src")),
                kind: FileEntryKind::Directory,
            },
            FileTreeEntry {
                name: "README.md".into(),
                path: root.join(&path("README.md")),
                kind: FileEntryKind::File,
            },
        ],
    );
    app.workspaces = vec![ws];
    app.selected = 0;
    app.active = Some(0);
    app
}

#[test]
fn explorer_node_areas_map_visible_rows_to_paths_and_expandability() {
    let app = app_with_explorer_tree();
    let area = Rect::new(0, 0, 26, 20);

    let nodes = compute_source_panel_explorer_node_areas(&app, area);

    assert_eq!(nodes.len(), 2);
    assert_eq!(nodes[0].path, path("/proj/src"));
    assert!(nodes[0].expandable, "a directory is expandable");
    assert_eq!(nodes[1].path, path("/proj/README.md"));
    assert!(!nodes[1].expandable, "a file is not expandable");
    // Rows stack one below the next, beneath the workspace-name header.
    assert_eq!(nodes[1].rect.y, nodes[0].rect.y + 1);
}

#[test]
fn explorer_renders_folder_chevron_and_file_marker_with_names() {
    let app = app_with_explorer_tree();
    let area = Rect::new(0, 0, 26, 20);
    let buf = draw_panel(&app, area);
    let tree = source_panel_explorer_tree_rect(area);
    let first: String = (tree.x..tree.x + tree.width)
        .map(|x| buf[(x, tree.y)].symbol())
        .collect();
    assert!(first.contains('▸'), "folder row was {first:?}");
    assert!(first.contains("src"), "folder row was {first:?}");
    let second: String = (tree.x..tree.x + tree.width)
        .map(|x| buf[(x, tree.y + 1)].symbol())
        .collect();
    assert!(second.contains("README.md"), "file row was {second:?}");
}

#[test]
fn explorer_highlights_the_selected_row() {
    let mut app = app_with_explorer_tree();
    app.workspaces[0].explorer_select(path("/proj/src"));
    let area = Rect::new(0, 0, 26, 20);
    let buf = draw_panel(&app, area);
    let tree = source_panel_explorer_tree_rect(area);
    // The selected "src" row carries the highlight background; the unselected
    // "README.md" row below it does not.
    assert_eq!(buf[(tree.x, tree.y)].style().bg, Some(SURFACE0));
    assert_ne!(
        buf[(tree.x, tree.y + 1)].style().bg,
        Some(SURFACE0)
    );
}

#[test]
fn explorer_truncates_long_names_with_an_ellipsis() {
    let mut app = app_with_explorer_tree();
    let root = path("/proj");
    app.workspaces[0].explorer_cache.insert(
        root.clone(),
        vec![FileTreeEntry {
            name: "a_really_really_long_file_name_that_overflows.rs".into(),
            path: root.join(&path("a_really_really_long_file_name_that_overflows.rs")),
            kind: FileEntryKind::File,
        }],
    );
    let area = Rect::new(0, 0, 26, 20);
    let buf = draw_panel(&app, area);
    let tree = source_panel_explorer_tree_rect(area);
    let row: String = (tree.x..tree.x + tree.width)
        .map(|x| buf[(x, tree.y)].symbol())
        .collect();
    assert!(row.contains('…'), "row should be truncated, was {row:?}");
}

#[test]
fn explorer_shows_empty_indicator_under_an_expanded_empty_directory() {
    let mut app = app_with_explorer_tree();
    let src = path("/proj/src");
    // src is expanded but its cached child list is empty (empty/unreadable).
    app.workspaces[0]
        .explorer_cache
        .insert(src.clone(), Vec::new());
    app.workspaces[0].explorer_expanded.insert(src);
    let area = Rect::new(0, 0, 26, 20);
    let buf = draw_panel(&app, area);
    let whole: String = (area.y..area.y + area.height)
        .flat_map(|y| (area.x..area.x + area.width).map(move |x| (x, y)))
        .map(|(x, y)| buf[(x, y)].symbol().to_string())
        .collect();
    assert!(whole.contains("(empty)"), "panel was {whole:?}");
}

#[test]
fn explorer_shows_a_scrollbar_when_the_tree_overflows() {
    let mut app = app_with_explorer_tree();
    let root = path("/proj");
    let many: Vec<FileTreeEntry> = (0..60)
        .map(|i| FileTreeEntry {
            name: format!("file{i:02}.rs"),
            path: root.join(&path(&format!("file{i:02}.rs"))),
            kind: FileEntryKind::File,
        })
        .collect();
    app.workspaces[0].explorer_cache.insert(root, many);
    let area = Rect::new(0, 0, 26, 20);
    let section = source_panel_explorer_tree_rect(area);

    let metrics = source_panel_explorer_scroll_metrics(&app, section);
    assert!(
        should_show_scrollbar(metrics),
        "a 60-row tree in a ~18-row viewport overflows"
    );
    assert!(source_panel_explorer_scrollbar_rect(&app, section).is_some());
}

#[test]
fn render_collapsed_strip_draws_expand_toggle() {
    let app = test_app();
    let area = Rect::new(0, 0, 3, 20);
    let buf = draw_collapsed(&app, area);
    assert_eq!(buf[(area.x, area.y)].symbol(), "│");
    let toggle = collapsed_source_panel_toggle_rect(area);
    assert_eq!(buf[(toggle.x, toggle.y)].symbol(), "«");
}

fn app_with_changes(changes: Vec<ChangedFile>) -> AppState {
    let mut app = test_app();
    let mut ws = test_workspace("ws");
    ws.cached_changes = changes;
    app.workspaces = vec![ws];
    app.selected = 0;
    app
}

fn modified(text: &str) -> ChangedFile {
    ChangedFile {
        path: path(text),
        status: ChangeStatus::Modified,
    }
}

#[test]
fn compute_changes_card_areas_map_rows_to_indices() {
    let app = app_with_changes((0..3).map(|i| modified(&format!("f{i}.rs"))).collect());
    let area = Rect::new(0, 0, 26, 20);

    let cards = compute_source_panel_changes_card_areas(&app, area);

    assert_eq!(cards.len(), 3);
    assert_eq!(cards[0].change_idx, 0);
    assert_eq!(cards[1].change_idx, 1);
    // Rows stack directly under the header.
    assert_eq!(cards[1].rect.y, cards[0].rect.y + 1);
    assert_eq!(cards[0].rect.x, area.x + 1);
}

#[test]
fn compute_changes_card_areas_honor_scroll_offset() {
    let mut app = app_with_changes((0..40).map(|i| modified(&format!("f{i}.rs"))).collect());
    app.source_panel_changes_scroll = 5;
    let area = Rect::new(0, 0, 26, 20);

    let cards = compute_source_panel_changes_card_areas(&app, area);

    assert!(!cards.is_empty());
    assert_eq!(cards[0].change_idx, 5);
}

#[test]
fn render_changes_places_basename_left_and_status_on_right() {
    let mut app = app_with_changes(vec![modified("src/app/foo.rs")]);
    let area = Rect::new(0, 0, 26, 20);
    app.view.source_panel_changes_card_areas =
        compute_source_panel_changes_card_areas(&app, area);
    let buf = draw_panel(&app, area);
    let card = app.view.source_panel_changes_card_areas[0];
    let row: String = (card.rect.x..card.rect.x + card.rect.width)
        .map(|x| buf[(x, card.rect.y)].symbol())
        .collect();
    assert!(row.contains("foo.rs"), "row was {row:?}");
    assert!(row.contains("src/app"), "row was {row:?}");
    // Status letter sits on the row's right edge.
    let status_x = card.rect.x + card.rect.width - 1;
    assert_eq!(buf[(status_x, card.rect.y)].symbol(), "M");
}

#[test]
fn render_changes_header_shows_count_and_refresh_glyph() {
    let app = app_with_changes((0..3).map(|i| modified(&format!("f{i}.rs"))).collect());
    let area = Rect::new(0, 0, 26, 20);
    let buf = draw_panel(&app, area);
    let section = source_panel_changes_rect(area, app.source_panel_split_rows);
    let header: String = (section.x..section.x + section.width)
        .map(|x| buf[(x, section.y)].symbol())
        .collect();
    assert!(header.contains("changes (3)"), "header was {header:?}");
    // Refresh glyph sits on the header's right edge.
    let refresh = source_panel_changes_refresh_rect(area, app.source_panel_split_rows);
    assert_eq!(buf[(refresh.x, refresh.y)].symbol(), "↻");
}

#[test]
fn render_changes_shows_placeholder_when_empty() {
    let app = app_with_changes(Vec::new());
    let area = Rect::new(0, 0, 26, 20);
    let buf = draw_panel(&app, area);
    let section = source_panel_changes_rect(area, app.source_panel_split_rows);
    let body_y = section.y + 1;
    let row: String = (section.x..section.x + section.width)
        .map(|x| buf[(x, body_y)].symbol())
        .collect();
    assert!(row.starts_with(" no changes"), "row was {row:?}");
}

#[test]
fn no_change_rows_when_workspace_has_none() {
    // A workspace with no cached changes (e.g. a non-git cwd, whose refresh
    // yields an empty list) produces no clickable file rows.
    let app = app_with_changes(Vec::new());
    let area = Rect::new(0, 0, 26, 20);

    assert!(compute_source_panel_changes_card_areas(&app, area).is_empty());
}

#[test]
fn renamed_and_untracked_status_glyphs() {
    assert_eq!(
        change_status_glyph(&ChangeStatus::Renamed { from: path("old") })
        .0,
        "R"
    );
    assert_eq!(change_status_glyph(&ChangeStatus::Untracked).0, "?");
    assert_eq!(change_status_glyph(&ChangeStatus::Added).0, "A");
    assert_eq!(change_status_glyph(&ChangeStatus::Deleted).0, "D");
    assert_eq!(change_status_glyph(&ChangeStatus::Unmerged).0, "U");
}

fn app_with_commits(commits: Vec<CommitInfo>) -> AppState {
    let mut app = test_app();
    let mut ws = test_workspace("ws");
    ws.cached_log = commits;
    app.workspaces = vec![ws];
    app.selected = 0;
    app
}

fn commit(sha: &str, subject: &str) -> CommitInfo {
    CommitInfo {
        graph_cell: "* ".into(),
        sha: Some(sha.into()),
        subject: subject.into(),
        author: "Ada".into(),
        decorations: Vec::new(),
    }
}

#[test]
fn compute_log_card_areas_map_rows_to_indices() {
    let app = app_with_commits((0..3).map(|i| commit(&format!("sha{i}"), "s")).collect());
    let area = Rect::new(0, 0, 26, 20);

    let cards = compute_source_panel_log_card_areas(&app, area);

    assert_eq!(cards.len(), 3);
    assert_eq!(cards[0].log_idx, 0);
    assert_eq!(cards[1].log_idx, 1);
    // Rows stack directly under the header.
    assert_eq!(cards[1].rect.y, cards[0].rect.y + 1);
    assert_eq!(cards[0].rect.x, area.x + 1);
}

#[test]
fn compute_log_card_areas_honor_scroll_offset() {
    let mut app = app_with_commits((0..40).map(|i| commit(&format!("sha{i}"), "s")).collect());
    app.source_panel_log_scroll = 4;
    let area = Rect::new(0, 0, 26, 20);

    let cards = compute_source_panel_log_card_areas(&app, area);

    assert!(!cards.is_empty());
    assert_eq!(cards[0].log_idx, 4);
}

#[test]
fn render_graph_header_shows_branch_and_subject() {
    let mut app = app_with_commits(vec![commit("abc1234", "initial commit")]);
    app.workspaces[0].cached_git_branch = Some("main".into());
    app.workspaces[0].cached_git_ahead_behind = Some((2, 1));
    let area = Rect::new(0, 0, 26, 20);
    app.view.source_panel_log_card_areas = compute_source_panel_log_card_areas(&app, area);
    let buf = draw_panel(&app, area);
    let section = source_panel_graph_rect(area, app.source_panel_split_rows);
    let header: String = (section.x..section.x + section.width)
        .map(|x| buf[(x, section.y)].symbol())
        .collect();
    assert!(header.contains("graph"), "header was {header:?}");
    assert!(header.contains("main"), "header was {header:?}");
    assert!(header.contains("↑2"), "header was {header:?}");
    assert!(header.contains("↓1"), "header was {header:?}");

    // The commit subject renders on the first body row.
    let card = app.view.source_panel_log_card_areas[0];
    let row: String = (card.rect.x..card.rect.x + card.rect.width)
        .map(|x| buf[(x, card.rect.y)].symbol())
        .collect();
    assert!(row.contains("initial commit"), "row was {row:?}");
}

#[test]
fn render_graph_shows_placeholder_when_empty() {
    let app = app_with_commits(Vec::new());
    let area = Rect::new(0, 0, 26, 20);
    let buf = draw_panel(&app, area);
    let section = source_panel_graph_rect(area, app.source_panel_split_rows);
    let body_y = section.y + 1;
    let row: String = (section.x..section.x + section.width)
        .map(|x| buf[(x, body_y)].symbol())
        .collect();
    assert!(row.starts_with(" no commits"), "row was {row:?}");
}

#[test]
fn load_more_rect_present_only_when_more_history_exists() {
    let area = Rect::new(0, 0, 26, 20);

    let app = app_with_commits((0..3).map(|i| commit(&format!("sha{i}"), "s")).collect());
    assert_eq!(
        compute_source_panel_load_more_rect(&app, area),
        Rect::default(),
        "no load-more row without more history"
    );

    let mut app = app;
    app.workspaces[0].cached_log_has_more = true;
    let load_more = compute_source_panel_load_more_rect(&app, area);
    assert_ne!(load_more, Rect::default());
    // It sits on the row right after the last commit.
    let cards = compute_source_panel_log_card_areas(&app, area);
    let last = cards.last().expect("commit rows present");
    assert_eq!(load_more.y, last.rect.y + 1);
}

#[test]
fn render_graph_header_shows_refresh_glyph() {
    let app = app_with_commits(vec![commit("abc1234", "initial commit")]);
    let area = Rect::new(0, 0, 26, 20);
    let buf = draw_panel(&app, area);
    let refresh = source_panel_log_refresh_rect(area, app.source_panel_split_rows);
    assert_eq!(buf[(refresh.x, refresh.y)].symbol(), "↻");
}

#[test]
fn render_graph_shows_load_more_row() {
    let mut app = app_with_commits((0..3).map(|i| commit(&format!("sha{i}"), "s")).collect());
    app.workspaces[0].cached_log_has_more = true;
    let area = Rect::new(0, 0, 26, 20);
    app.view.source_panel_log_card_areas = compute_source_panel_log_card_areas(&app, area);
    app.view.source_panel_load_more_rect = compute_source_panel_load_more_rect(&app, area);
    let buf = draw_panel(&app, area);
    let row = app.view.source_panel_load_more_rect;
    let text: String = (row.x..row.x + row.width)
        .map(|x| buf[(x, row.y)].symbol())
        .collect();
    assert!(text.contains("load more"), "row was {text:?}");
}

#[test]
fn connector_only_rows_render_their_graph_cell() {
    let connector = CommitInfo {
        graph_cell: "|\\".into(),
        sha: None,
        subject: String::new(),
        author: String::new(),
        decorations: Vec::new(),
    };
    let app = app_with_commits(vec![commit("abc1234", "merge"), connector]);
    let area = Rect::new(0, 0, 26, 20);
    let cards = compute_source_panel_log_card_areas(&app, area);

    // Both the commit and the connector get a clickable row.
    assert_eq!(cards.len(), 2);
    assert_eq!(cards[1].log_idx, 1);
}

/// Mark `sha` expanded and cache `files` as its touched-file list.
fn expand_commit(app: &mut AppState, sha: &str, files: Vec<ChangedFile>) {
    app.source_panel_expanded_commits.insert(sha.to_string());
    app.source_panel_commit_files.insert(sha.to_string(), files);
}

#[test]
fn expanded_commit_inserts_inline_file_rows_beneath_it() {
    let mut app = app_with_commits(vec![
        commit("aaa1111", "first"),
        commit("bbb2222", "second"),
    ]);
    expand_commit(
        &mut app,
        "aaa1111",
        vec![modified("src/a.rs"), modified("src/b.rs")],
    );
    let area = Rect::new(0, 0, 26, 20);

    let commits = compute_source_panel_log_card_areas(&app, area);
    let files = compute_source_panel_commit_file_card_areas(&app, area);

    // Two file rows belong to the expanded commit (log_idx 0).
    assert_eq!(files.len(), 2);
    assert!(files.iter().all(|f| f.log_idx == 0));
    assert_eq!(files[0].file_idx, 0);
    assert_eq!(files[1].file_idx, 1);
    // They sit directly beneath the first commit, ahead of the second commit.
    let first = commits.iter().find(|c| c.log_idx == 0).unwrap();
    let second = commits.iter().find(|c| c.log_idx == 1).unwrap();
    assert_eq!(files[0].rect.y, first.rect.y + 1);
    assert_eq!(files[1].rect.y, first.rect.y + 2);
    assert_eq!(second.rect.y, files[1].rect.y + 1);
}

#[test]
fn collapsed_commit_has_no_inline_file_rows() {
    // Files are cached but the commit is not in the expanded set.
    let mut app = app_with_commits(vec![commit("aaa1111", "first")]);
    app.source_panel_commit_files
        .insert("aaa1111".into(), vec![modified("src/a.rs")]);
    let area = Rect::new(0, 0, 26, 20);

    assert!(compute_source_panel_commit_file_card_areas(&app, area).is_empty());
}

#[test]
fn render_inline_commit_file_shows_basename_and_status() {
    let mut app = app_with_commits(vec![commit("aaa1111", "first")]);
    expand_commit(&mut app, "aaa1111", vec![modified("skills/SKILL.md")]);
    let area = Rect::new(0, 0, 26, 20);
    app.view.source_panel_log_card_areas = compute_source_panel_log_card_areas(&app, area);
    app.view.source_panel_commit_file_card_areas =
        compute_source_panel_commit_file_card_areas(&app, area);
    let buf = draw_panel(&app, area);
    let file_row = app.view.source_panel_commit_file_card_areas[0].rect;
    let row: String = (file_row.x..file_row.x + file_row.width)
        .map(|x| buf[(x, file_row.y)].symbol())
        .collect();
    assert!(row.contains("SKILL.md"), "row was {row:?}");
    // Status letter sits on the row's right edge.
    let status_x = file_row.x + file_row.width - 1;
    assert_eq!(buf[(status_x, file_row.y)].symbol(), "M");

    // The expanded commit row carries the open chevron.
    let commit_row = app.view.source_panel_log_card_areas[0].rect;
    let commit_text: String = (commit_row.x..commit_row.x + commit_row.width)
        .map(|x| buf[(x, commit_row.y)].symbol())
        .collect();
    assert!(commit_text.contains('▾'), "commit row was {commit_text:?}");
}

#[test]
fn section_divider_line_renders_between_sections() {
    let app = app_with_commits(vec![commit("aaa1111", "first")]);
    let area = Rect::new(0, 0, 26, 20);
    let buf = draw_panel(&app, area);
    let divider = source_panel_section_divider_rect(area, app.source_panel_split_rows);
    assert_ne!(divider, Rect::default());
    let line: String = (divider.x..divider.x + divider.width)
        .map(|x| buf[(x, divider.y)].symbol())
        .collect();
    assert!(line.chars().all(|c| c == '─'), "divider was {line:?}");
}

#[test]
fn non_git_workspace_renders_empty_state_and_no_sections() {
    let mut app = app_with_changes(vec![modified("src/app/foo.rs")]);
    // Positively mark the workspace as a non-git directory.
    app.workspaces[0].cached_is_git_repo = false;
    let area = Rect::new(0, 0, 26, 20);
    app.view.source_panel_changes_card_areas =
        compute_source_panel_changes_card_areas(&app, area);
    let buf = draw_panel(&app, area);
    // The single dim empty-state line replaces both section bodies.
    let top: String = (area.x + 1..area.x + area.width)
        .map(|x| buf[(x, area.y)].symbol())
        .collect();
    assert!(
        top.starts_with(" not a git repository"),
        "top row was {top:?}"
    );
    // No section headers or file rows are rendered.
    let whole: String = (area.y..area.y + area.height)
        .flat_map(|y| (area.x..area.x + area.width).map(move |x| (x, y)))
        .map(|(x, y)| buf[(x, y)].symbol().to_string())
        .collect();
    assert!(!whole.contains("changes"), "panel was {whole:?}");
    assert!(!whole.contains("graph"), "panel was {whole:?}");
    assert!(!whole.contains("foo.rs"), "panel was {whole:?}");
}

#[test]
fn collapsed_strip_renders_change_count_badge() {
    let app = app_with_changes((0..3).map(|i| modified(&format!("f{i}.rs"))).collect());
    let area = Rect::new(0, 0, 3, 20);
    let buf = draw_collapsed(&app, area);
    // The expand toggle is still present.
    let toggle = collapsed_source_panel_toggle_rect(area);
    assert_eq!(buf[(toggle.x, toggle.y)].symbol(), "«");
    // The changed-file count appears somewhere in the strip.
    let whole: String = (area.y..area.y + area.height)
        .flat_map(|y| (area.x..area.x + area.width).map(move |x| (x, y)))
        .map(|(x, y)| buf[(x, y)].symbol().to_string())
        .collect();
    assert!(whole.contains('3'), "strip was {whole:?}");
}

#[test]
fn collapsed_strip_has_no_badge_without_changes() {
    let app = app_with_changes(Vec::new());
    let area = Rect::new(0, 0, 3, 20);
    let buf = draw_collapsed(&app, area);
    let whole: String = (area.y..area.y + area.height)
        .flat_map(|y| (area.x..area.x + area.width).map(move |x| (x, y)))
        .map(|(x, y)| buf[(x, y)].symbol().to_string())
        .collect();
    assert!(
        !whole.chars().any(|c| c.is_ascii_digit()),
        "strip should have no count badge, was {whole:?}"
    );
}

#[test]
fn sections_share_low_panels_and_keep_three_rows_in_tall_ones() {
    assert_eq!(source_panel_section_heights(0, 9), (0, 0));
    assert_eq!(source_panel_section_heights(5, 1), (3, 2));
    assert_eq!(source_panel_section_heights(6, 0), (3, 3));
    assert_eq!(source_panel_section_heights(10, 9), (7, 3));
    assert_eq!(source_panel_section_heights(10, 4), (4, 6));
}

#[test]
fn mode_tabs_are_cut_off_at_the_right_edge() {
    let tabs = compute_source_panel_mode_tab_areas(Rect::new(5, 2, 26, 4));
    assert_eq!(tabs.len(), 2);
    assert_eq!(tabs[0].rect, Rect::new(6, 2, 8, 1));
    assert_eq!(tabs[1].rect, Rect::new(14, 2, 10, 1));
    let tabs = compute_source_panel_mode_tab_areas(Rect::new(0, 0, 12, 4));
    assert_eq!(tabs[1].rect, Rect::new(9, 0, 3, 1));
    let tabs = compute_source_panel_mode_tab_areas(Rect::new(0, 0, 9, 4));
    assert_eq!(tabs.len(), 1);
    assert!(compute_source_panel_mode_tab_areas(Rect::new(0, 0, 1, 4)).is_empty());
}

#[test]
fn rects_are_cut_off_at_the_last_coordinate() {
    assert_eq!(
        Rect::new(65530, 65535, 10, 3),
        Rect { x: 65530, y: 65535, width: 5, height: 0 }
    );
    let ours = Rect::new(65530, 65535, 10, 3);
    assert_eq!(cells(ours), ratatui::layout::Rect::new(65530, 65535, 10, 3));
    assert_eq!(Rect::default(), Rect::new(0, 0, 0, 0));
}

#[test]
fn explorer_header_controls_sit_at_the_right_edge() {
    let area = Rect::new(0, 0, 26, 20);
    assert_eq!(source_panel_explorer_refresh_rect(area), Rect::new(25, 1, 1, 1));
    assert_eq!(source_panel_explorer_collapse_all_rect(area), Rect::new(23, 1, 1, 1));
    assert_eq!(source_panel_explorer_collapse_all_rect(Rect::new(0, 0, 3, 20)), Rect::default());
}

#[test]
fn scroll_metrics_count_from_the_end() {
    let mut app = app_with_changes((0..40).map(|i| modified(&format!("f{i}.rs"))).collect());
    app.source_panel_changes_scroll = 5;
    let section = source_panel_changes_rect(Rect::new(0, 0, 26, 20), app.source_panel_split_rows);
    assert_eq!(
        source_panel_changes_scroll_metrics(&app, section),
        ScrollMetrics { offset_from_bottom: 26, max_offset_from_bottom: 31, viewport_rows: 9 }
    );
    app.source_panel_changes_scroll = 500;
    assert_eq!(source_panel_changes_scroll_metrics(&app, section).offset_from_bottom, 0);
}

#[test]
fn a_scrollbar_takes_the_last_column_of_an_overflowing_list() {
    let area = Rect::new(0, 0, 26, 20);
    let app = app_with_commits((0..40).map(|i| commit(&format!("sha{i}"), "s")).collect());
    let section = source_panel_graph_rect(area, app.source_panel_split_rows);
    let track = source_panel_log_scrollbar_rect(&app, section).unwrap();
    assert_eq!(track, Rect::new(25, section.y + 1, 1, section.height - 1));
    assert_eq!(compute_source_panel_log_card_areas(&app, area)[0].rect.width, 24);
    let app = app_with_commits(vec![commit("a", "s")]);
    assert_eq!(source_panel_log_scrollbar_rect(&app, section), None);
    assert_eq!(compute_source_panel_log_card_areas(&app, area)[0].rect.width, 25);
}

#[test]
fn the_panel_reflects_the_selected_workspace_in_menus_only() {
    let mut app = app_with_changes(vec![modified("a")]);
    app.active = None;
    assert!(source_panel_has_git_workspace(&app));
    for mode in [Mode::Terminal, Mode::Other] {
        app.mode = mode;
        assert!(!source_panel_has_git_workspace(&app));
        assert!(compute_source_panel_changes_card_areas(&app, Rect::new(0, 0, 26, 20)).is_empty());
    }
    app.active = Some(0);
    assert!(source_panel_has_git_workspace(&app));
    app.workspaces[0].cached_is_git_repo = false;
    assert!(!source_panel_has_git_workspace(&app));
}

#[test]
fn paths_without_a_name_show_as_they_are() {
    assert_eq!(change_path_parts(&path("a/b.rs")), ("b.rs".to_string(), "a".to_string()));
    assert_eq!(change_path_parts(&path("b.rs")), ("b.rs".to_string(), String::new()));
    assert_eq!(change_path_parts(&path("a/..")), ("a/..".to_string(), "a".to_string()));
    assert_eq!(change_path_parts(&path("/")), ("/".to_string(), String::new()));
}

#[test]
fn commit_rows_show_decorations_subject_and_author() {
    let mut info = commit("abc", "the subject");
    info.decorations = vec!["HEAD -> main".to_string()];
    let spans = commit_row_spans(&info, false);
    let text: String = spans.iter().map(|span| span.text.as_str()).collect();
    assert_eq!(text, "* ▸ HEAD -> main the subject · Ada");
    assert_eq!(spans[3].ink, Ink::Accent);
    assert_eq!(spans[3].emphasis, Emphasis::Bold);
    info.author = String::new();
    info.sha = None;
    assert_eq!(commit_row_spans(&info, true).len(), 1);
}

#[test]
fn the_row_in_the_diff_pane_is_highlighted() {
    let mut app = app_with_changes(vec![modified("a.rs"), modified("b.rs")]);
    let area = Rect::new(0, 0, 26, 20);
    app.active = Some(0);
    app.source_panel_diff_pane = Some(PaneId::from_raw(1));
    app.source_panel_active_item = Some(SourcePanelActiveItem::WorkingFile(path("b.rs")));
    app.view.source_panel_changes_card_areas =
        compute_source_panel_changes_card_areas(&app, area);
    let buf = draw_panel(&app, area);
    let cards = &app.view.source_panel_changes_card_areas;
    assert_ne!(buf[(cards[0].rect.x, cards[0].rect.y)].style().bg, Some(SURFACE0));
    assert_eq!(buf[(cards[1].rect.x, cards[1].rect.y)].style().bg, Some(SURFACE0));
}

#[test]
fn commits_and_their_files_are_highlighted_apart() {
    let mut app = app_with_commits(vec![commit("aaa", "one"), commit("bbb", "two")]);
    expand_commit(&mut app, "aaa", vec![modified("x.rs")]);
    let area = Rect::new(0, 0, 26, 20);
    app.active = Some(0);
    app.source_panel_diff_pane = Some(PaneId::from_raw(1));
    app.view.source_panel_log_card_areas = compute_source_panel_log_card_areas(&app, area);
    app.view.source_panel_commit_file_card_areas =
        compute_source_panel_commit_file_card_areas(&app, area);
    let first = app.view.source_panel_log_card_areas[0].rect;
    let file = app.view.source_panel_commit_file_card_areas[0].rect;
    app.source_panel_active_item = Some(SourcePanelActiveItem::Commit("aaa".to_string()));
    let buf = draw_panel(&app, area);
    assert_eq!(buf[(first.x, first.y)].style().bg, Some(SURFACE0));
    assert_ne!(buf[(file.x, file.y)].style().bg, Some(SURFACE0));
    app.source_panel_active_item = Some(SourcePanelActiveItem::CommitFile {
        sha: "aaa".to_string(),
        path: path("x.rs"),
    });
    let buf = draw_panel(&app, area);
    assert_ne!(buf[(first.x, first.y)].style().bg, Some(SURFACE0));
    assert_eq!(buf[(file.x, file.y)].style().bg, Some(SURFACE0));
}

#[test]
fn changed_entries_are_colored_and_their_folders_dotted() {
    let mut app = app_with_explorer_tree();
    app.workspaces[0].cached_changes = vec![
        ChangedFile { path: path("src/lib.rs"), status: ChangeStatus::Added },
        ChangedFile { path: path("README.md"), status: ChangeStatus::Untracked },
    ];
    let ops = render_source_panel(&app, Rect::new(0, 0, 26, 20), "proj");
    let mut lines = Vec::new();
    for op in &ops {
        if let DrawOp::Line { spans, .. } = op {
            let text: String = spans.iter().map(|span| span.text.as_str()).collect();
            lines.push((text, spans.last().unwrap().ink));
        }
    }
    assert!(lines.contains(&("▸ src •".to_string(), Ink::Yellow)));
    assert!(lines.contains(&("· README.md".to_string(), Ink::Overlay0)));
}

#[test]
fn a_large_number_of_changes_is_capped_in_the_badge() {
    let app = app_with_changes((0..100).map(|i| modified(&format!("f{i}.rs"))).collect());
    let buf = draw_collapsed(&app, Rect::new(0, 0, 6, 5));
    let top: String = (1..6).map(|x| buf[(x, 0)].symbol()).collect();
    assert_eq!(top, " 99+ ");
}
