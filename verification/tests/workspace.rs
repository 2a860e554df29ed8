//! Workspaces: tabs, panes and their numbers, and the Explorer's tree.
use herdr::file_tree::{ChildType, DirectoryChild, FileTreeDecoration, FileTreeRow};
use herdr::ids::{IdMap, PaneId, TerminalId};
use herdr::path::FsPath;
use herdr::source_control::{ChangeStatus, ChangedFile, DEFAULT_LOADED_COMMIT_COUNT};
use herdr::tab::{NewPane, TerminalState};
use herdr::workspace::{
    generate_workspace_id, Direction, GitSpaceMetadata, SourcePanelMode, Workspace,
    WorkspaceGitStatusSnapshot, WorktreeSpaceMembership,
};
use std::cell::{Cell, RefCell};
use std::collections::BTreeMap;

fn path(text: &str) -> FsPath {
    FsPath::from_text(text)
}

fn pane(raw: u64) -> NewPane {
    NewPane {
        pane_id: PaneId::from_raw(raw),
        terminal_id: TerminalId::from_raw(raw + 1000),
    }
}

/// A workspace with one tab, whose pane is number 1.
fn workspace(name: &str) -> Workspace {
    let mut ws = Workspace::new(
        "w1".to_string(),
        path("/work/dir"),
        24,
        80,
        Some("trunk".to_string()),
        true,
        |_request| Ok::<NewPane, ()>(pane(1)),
    )
    .unwrap();
    ws.set_custom_name(name.to_string());
    ws
}

fn add_tab(ws: &mut Workspace, raw: u64, name: Option<&str>) -> usize {
    let idx = ws
        .create_tab(24, 80, path("/work/dir"), |_request| Ok::<NewPane, ()>(pane(raw)))
        .unwrap();
    ws.tabs[idx].custom_name = name.map(str::to_string);
    idx
}

fn split(ws: &mut Workspace, raw: u64) {
    ws.split_focused(Direction::Horizontal, 24, 80, None, |_request| {
        Ok::<NewPane, ()>(pane(raw))
    })
    .unwrap();
}

fn numbers(ws: &Workspace) -> Vec<(u64, usize)> {
    let mut all: Vec<(u64, usize)> = ws
        .public_pane_numbers
        .ids()
        .into_iter()
        .map(|id| (id, ws.public_pane_number(PaneId::from_raw(id)).unwrap()))
        .collect();
    all.sort();
    all
}

/// Directories with the names in them; a name that ends in a slash is a directory.
struct Disk {
    dirs: RefCell<BTreeMap<String, Vec<String>>>,
    reads: Cell<usize>,
}

impl Disk {
    fn tree() -> Disk {
        let disk = Disk {
            dirs: RefCell::new(BTreeMap::new()),
            reads: Cell::new(0),
        };
        disk.put("/proj", &["README.md", "src/"]);
        disk.put("/proj/src", &["main.rs"]);
        disk
    }

    fn put(&self, dir: &str, names: &[&str]) {
        self.dirs
            .borrow_mut()
            .insert(dir.to_string(), names.iter().map(|n| n.to_string()).collect());
    }

    fn list(&self, dir: &FsPath) -> Option<Vec<DirectoryChild>> {
        self.reads.set(self.reads.get() + 1);
        let dirs = self.dirs.borrow();
        let names = dirs.get(&dir.to_text())?;
        Some(
            names
                .iter()
                .map(|name| DirectoryChild {
                    file_name: path(name.trim_end_matches('/')),
                    file_type: Some(ChildType {
                        is_symlink: false,
                        is_dir: name.ends_with('/'),
                    }),
                })
                .collect(),
        )
    }
}

fn row_names(ws: &Workspace) -> Vec<String> {
    ws.explorer_rows()
        .into_iter()
        .filter_map(|r| match r {
            FileTreeRow::Node(n) => Some(n.name),
            FileTreeRow::Empty { .. } => None,
        })
        .collect()
}

#[test]
fn source_panel_mode_defaults_to_source_on_launch() {
    let ws = workspace("ws");
    assert_eq!(ws.source_panel_mode(), SourcePanelMode::Source);
}

#[test]
fn toggling_source_panel_mode_alternates_between_the_two_modes() {
    let mut ws = workspace("ws");
    ws.toggle_source_panel_mode();
    assert_eq!(ws.source_panel_mode(), SourcePanelMode::Explorer);
    ws.toggle_source_panel_mode();
    assert_eq!(ws.source_panel_mode(), SourcePanelMode::Source);
}

#[test]
fn rooting_the_explorer_loads_the_roots_children_up_front() {
    let disk = Disk::tree();
    let read = |dir: &FsPath| disk.list(dir);
    let mut ws = workspace("ws");

    ws.explorer_set_root(path("/proj"), &read);

    // The root's immediate children are listed without expanding anything.
    assert_eq!(row_names(&ws), vec!["src".to_string(), "README.md".to_string()]);
}

#[test]
fn explorer_decorations_roll_cached_changes_up_the_tree() {
    let disk = Disk::tree();
    let read = |dir: &FsPath| disk.list(dir);
    let base = path("/proj");
    let mut ws = workspace("ws");
    ws.explorer_set_root(base.clone(), &read);
    // A change recorded relative to the workspace cwd, as git status reports.
    ws.cached_changes = vec![ChangedFile {
        path: path("src/main.rs"),
        status: ChangeStatus::Modified,
    }];

    let decorations = ws.explorer_decorations();

    assert_eq!(
        decorations.get(&base.join(&path("src/main.rs"))),
        Some(&FileTreeDecoration::Changed(ChangeStatus::Modified)),
    );
    assert_eq!(
        decorations.get(&base.join(&path("src"))),
        Some(&FileTreeDecoration::ContainsChanges),
    );
}

#[test]
fn refresh_restats_expanded_directories_and_updates_the_tree() {
    let disk = Disk::tree();
    let read = |dir: &FsPath| disk.list(dir);
    let mut ws = workspace("ws");
    ws.explorer_set_root(path("/proj"), &read);
    let src = path("/proj/src");
    ws.explorer_toggle_expand(&src, &read);

    // A file appears on disk inside the expanded folder after it was loaded.
    disk.put("/proj/src", &["main.rs", "added.rs"]);

    // Before a refresh the cached tree is stale: the new file is absent.
    assert!(!row_names(&ws).contains(&"added.rs".to_string()));

    // Refreshing re-stats the currently-expanded directories, so the new file
    // shows up while the folder stays expanded.
    ws.explorer_refresh(&read);
    assert!(row_names(&ws).contains(&"added.rs".to_string()));
    assert!(ws.explorer_expanded.contains(&src));
}

#[test]
fn applying_a_watcher_event_restats_only_the_affected_loaded_directory() {
    let disk = Disk::tree();
    let read = |dir: &FsPath| disk.list(dir);
    let mut ws = workspace("ws");
    ws.explorer_set_root(path("/proj"), &read);
    let src = path("/proj/src");
    ws.explorer_toggle_expand(&src, &read);

    // A new file lands inside the expanded (loaded) folder; the watcher reports
    // the created path.
    disk.put("/proj/src", &["main.rs", "added.rs"]);
    let reads = disk.reads.get();
    let reloaded = ws.explorer_apply_changed_paths(&vec![path("/proj/src/added.rs")], &read);

    // The affected directory alone was re-stated and the new file now shows, while
    // the folder stays expanded.
    assert!(reloaded);
    assert_eq!(disk.reads.get(), reads + 1);
    assert!(row_names(&ws).contains(&"added.rs".to_string()));
    assert!(ws.explorer_expanded.contains(&src));

    // An event whose containing directory was never loaded into the cache
    // touches nothing and reports no change: it never reads that subtree in.
    assert!(!ws.explorer_apply_changed_paths(&vec![path("/proj/ghost/x.rs")], &read));
    assert!(!ws.explorer_cache.contains_key(&path("/proj/ghost")));
    assert_eq!(disk.reads.get(), reads + 1);
}

#[test]
fn expanding_a_folder_loads_its_children_only_on_first_expand() {
    let disk = Disk::tree();
    let read = |dir: &FsPath| disk.list(dir);
    let mut ws = workspace("ws");
    ws.explorer_set_root(path("/proj"), &read);
    let src = path("/proj/src");

    // Before expanding, src's children are not in the cache.
    assert!(!ws.explorer_cache.contains_key(&src));

    ws.explorer_toggle_expand(&src, &read);
    assert!(ws.explorer_expanded.contains(&src));
    assert!(ws.explorer_cache.contains_key(&src));
    assert_eq!(
        row_names(&ws),
        vec![
            "src".to_string(),
            "main.rs".to_string(),
            "README.md".to_string()
        ]
    );
    let reads = disk.reads.get();

    // Collapsing keeps the cached children so re-expanding does not re-read.
    ws.explorer_toggle_expand(&src, &read);
    assert!(!ws.explorer_expanded.contains(&src));
    assert!(ws.explorer_cache.contains_key(&src));
    ws.explorer_toggle_expand(&src, &read);
    assert_eq!(disk.reads.get(), reads);
}

#[test]
fn each_workspace_has_independent_explorer_tree_state() {
    let disk = Disk::tree();
    let read = |dir: &FsPath| disk.list(dir);
    let mut a = workspace("a");
    let mut b = workspace("b");
    a.explorer_set_root(path("/proj"), &read);
    b.explorer_set_root(path("/proj"), &read);
    let src = path("/proj/src");

    a.explorer_toggle_expand(&src, &read);
    a.explorer_select(path("/proj/README.md"));

    // Workspace b's tree state is untouched by interactions with a.
    assert!(a.explorer_expanded.contains(&src));
    assert!(!b.explorer_expanded.contains(&src));
    assert_eq!(a.explorer_selected(), Some(&path("/proj/README.md")));
    assert_eq!(b.explorer_selected(), None);
}

#[test]
fn workspace_identity_follows_first_tab_root_pane_cwd() {
    let mut ws = workspace("ignored");
    ws.custom_name = None;
    let root_pane = ws.tabs[0].root_pane;
    let terminal_id = *ws.tabs[0].terminal_id(root_pane).unwrap();
    let mut terminals = IdMap::new();
    terminals.insert(
        terminal_id.raw,
        TerminalState::new(terminal_id, path("/herdr-test/pion")),
    );
    let live_cwds = IdMap::new();
    let label = |cwd: &FsPath| cwd.file_name().unwrap().to_text();

    assert_eq!(ws.display_name_from(&terminals, &live_cwds, &label), "pion");
    assert_eq!(
        ws.resolved_identity_cwd_from(&terminals, &live_cwds),
        Some(path("/herdr-test/pion"))
    );
}

#[test]
fn moving_tab_keeps_active_identity_and_renumbers_auto_tabs() {
    let mut ws = workspace("test");
    let moved_root = ws.tabs[0].root_pane;
    add_tab(&mut ws, 2, Some("foo"));
    let final_auto_idx = add_tab(&mut ws, 3, None);
    let active_root = ws.tabs[final_auto_idx].root_pane;
    ws.switch_tab(final_auto_idx);

    assert!(ws.move_tab(0, ws.tabs.len()));

    let labels: Vec<_> = ws.tabs.iter().map(|tab| tab.display_name()).collect();
    assert_eq!(labels, vec!["foo", "2", "3"]);
    assert_eq!(ws.tabs[0].custom_name.as_deref(), Some("foo"));
    assert!(ws.tabs[1].custom_name.is_none());
    assert!(ws.tabs[2].custom_name.is_none());
    assert_eq!(ws.tabs[2].root_pane, moved_root);
    assert_eq!(ws.tabs[ws.active_tab].root_pane, active_root);
}

#[test]
fn tabs_only_move_to_other_places() {
    let mut ws = workspace("test");
    add_tab(&mut ws, 2, None);
    assert!(!ws.move_tab(2, 0));
    assert!(!ws.move_tab(0, 3));
    assert!(!ws.move_tab(0, 0));
    assert!(!ws.move_tab(0, 1));
    assert!(!ws.move_tab(1, 2));
    assert!(ws.move_tab(1, 0));
    assert_eq!(ws.tabs[0].root_pane, PaneId::from_raw(2));
    assert_eq!(ws.active_tab_index(), 1);
    assert_eq!(ws.active_tab_display_name(), Some("2".to_string()));
}

#[test]
fn a_new_workspace_has_one_numbered_pane_and_the_state_it_is_given() {
    let ws = workspace("ws");
    assert_eq!(ws.tabs.len(), 1);
    assert_eq!(numbers(&ws), vec![(1, 1)]);
    assert_eq!(ws.next_public_pane_number, 2);
    assert_eq!(ws.focused_pane_id(), Some(PaneId::from_raw(1)));
    assert_eq!(ws.branch(), Some("trunk".to_string()));
    assert_eq!(ws.loaded_commit_count(), DEFAULT_LOADED_COMMIT_COUNT);
    assert!(ws.is_git_repo());
    assert!(!ws.has_more_commits());
    assert!(ws.changed_files().is_empty() && ws.commits().is_empty());
    assert_eq!(ws.git_ahead_behind(), None);
    assert!(ws.git_space().is_none() && ws.worktree_space().is_none());
    assert_eq!(ws.resolved_identity_cwd(), Some(path("/work/dir")));
}

#[test]
fn a_pane_that_cannot_be_started_changes_nothing() {
    let failed = Workspace::new("w".to_string(), path("/a"), 24, 80, None, false, |_request| {
        Err::<NewPane, &str>("no pty")
    });
    assert_eq!(failed.err(), Some("no pty"));
    let mut ws = workspace("ws");
    let err = ws.create_tab(24, 80, path("/a"), |_request| Err::<NewPane, &str>("no pty"));
    assert_eq!(err, Err("no pty"));
    let err = ws.split_focused(Direction::Vertical, 24, 80, None, |_request| {
        Err::<NewPane, &str>("no pty")
    });
    assert_eq!(err, Err("no pty"));
    let err = ws.split_pane(
        PaneId::from_raw(1),
        Direction::Vertical,
        24,
        80,
        None,
        true,
        |_request| Err::<NewPane, &str>("no pty"),
    );
    assert_eq!(err, Some(Err("no pty")));
    assert_eq!(ws.tabs.len(), 1);
    assert_eq!(numbers(&ws), vec![(1, 1)]);
}

#[test]
fn panes_are_asked_for_as_the_caller_wants_them() {
    let mut argv = Vec::new();
    let ws = Workspace::new_argv_command(
        "w".to_string(),
        path("/a/b"),
        30,
        90,
        vec!["top".to_string(), "-d1".to_string()],
        None,
        false,
        |request| {
            assert_eq!(request.number, 1);
            assert_eq!(request.cwd, path("/a/b"));
            assert_eq!((request.rows, request.cols), (30, 90));
            argv = request.argv.unwrap();
            Ok::<NewPane, ()>(pane(1))
        },
    )
    .unwrap();
    assert_eq!(argv, vec!["top".to_string(), "-d1".to_string()]);
    assert!(!ws.is_git_repo());

    let mut ws = workspace("ws");
    let result = ws.split_pane_argv_command(
        PaneId::from_raw(1),
        Direction::Vertical,
        12,
        40,
        Some(path("/x")),
        vec!["git".to_string()],
        false,
        |request| {
            assert_eq!(request.pane_id, PaneId::from_raw(1));
            assert_eq!(request.direction, Direction::Vertical);
            assert_eq!(request.cwd, Some(path("/x")));
            assert_eq!((request.rows, request.cols), (12, 40));
            assert_eq!(request.argv, Some(vec!["git".to_string()]));
            Ok::<NewPane, ()>(pane(7))
        },
    );
    assert_eq!(result, Some(Ok((0, pane(7)))));
    // The focus was not to move.
    assert_eq!(ws.focused_pane_id(), Some(PaneId::from_raw(1)));
    assert_eq!(ws.tabs[0].layout.panes, vec![PaneId::from_raw(1), PaneId::from_raw(7)]);
    assert_eq!(ws.terminal_id(PaneId::from_raw(7)), Some(&TerminalId::from_raw(1007)));
    assert!(ws.pane_state(PaneId::from_raw(7)).is_some());
    assert!(ws.pane_state(PaneId::from_raw(8)).is_none());
}

#[test]
fn splitting_an_unknown_pane_starts_nothing() {
    let mut ws = workspace("ws");
    let result = ws.split_pane(
        PaneId::from_raw(99),
        Direction::Vertical,
        24,
        80,
        None,
        true,
        |_request| -> Result<NewPane, ()> { panic!("nothing should be started") },
    );
    assert_eq!(result, None);
}

#[test]
fn closing_a_pane_moves_higher_numbers_down() {
    let mut ws = workspace("ws");
    split(&mut ws, 2);
    split(&mut ws, 3);
    assert_eq!(numbers(&ws), vec![(1, 1), (2, 2), (3, 3)]);
    assert!(!ws.close_pane(PaneId::from_raw(2)));
    assert_eq!(numbers(&ws), vec![(1, 1), (3, 2)]);
    split(&mut ws, 4);
    assert_eq!(numbers(&ws), vec![(1, 1), (3, 2), (4, 3)]);
    assert!(!ws.close_focused());
    assert_eq!(numbers(&ws), vec![(1, 1), (3, 2)]);
    assert!(!ws.remove_pane(PaneId::from_raw(1)));
    assert_eq!(numbers(&ws), vec![(3, 1)]);
    assert_eq!(ws.tabs[0].root_pane, PaneId::from_raw(3));
    // The last pane of the last tab stays; the workspace should close.
    assert!(ws.remove_pane(PaneId::from_raw(3)));
    assert!(ws.close_pane(PaneId::from_raw(3)));
    assert!(ws.close_focused());
    assert!(!ws.close_pane(PaneId::from_raw(2)));
    assert_eq!(numbers(&ws), vec![(3, 1)]);
}

#[test]
fn closing_a_tab_takes_its_panes_along() {
    let mut ws = workspace("ws");
    add_tab(&mut ws, 2, None);
    ws.switch_tab(1);
    split(&mut ws, 3);
    add_tab(&mut ws, 4, None);
    assert_eq!(numbers(&ws), vec![(1, 1), (2, 2), (3, 3), (4, 4)]);
    ws.switch_tab(2);
    assert!(ws.close_tab(1));
    assert_eq!(numbers(&ws), vec![(1, 1), (4, 2)]);
    assert_eq!(ws.next_public_pane_number, 3);
    assert_eq!(ws.tabs[1].number, 2);
    // The active tab is still the active one.
    assert_eq!(ws.focused_pane_id(), Some(PaneId::from_raw(4)));
    assert!(!ws.close_tab(2));
    assert!(ws.close_active_tab());
    assert!(!ws.close_active_tab());
    assert_eq!(numbers(&ws), vec![(1, 1)]);
}

#[test]
fn the_last_pane_of_a_tab_takes_the_tab_along() {
    let mut ws = workspace("ws");
    add_tab(&mut ws, 2, None);
    assert_eq!(ws.find_tab_index_for_pane(PaneId::from_raw(2)), Some(1));
    assert!(!ws.close_pane(PaneId::from_raw(2)));
    assert_eq!(ws.tabs.len(), 1);
    assert_eq!(ws.find_tab_index_for_pane(PaneId::from_raw(2)), None);
    add_tab(&mut ws, 3, None);
    ws.switch_tab(1);
    assert!(!ws.close_focused());
    assert_eq!(ws.tabs.len(), 1);
    assert_eq!(ws.active_tab_index(), 0);
}

#[test]
fn switching_to_a_tab_marks_its_panes_as_seen() {
    let mut ws = workspace("ws");
    add_tab(&mut ws, 2, None);
    ws.switch_tab(1);
    split(&mut ws, 3);
    for raw in [2, 3] {
        let mut state = *ws.pane_state(PaneId::from_raw(raw)).unwrap();
        state.seen = false;
        ws.tabs[1].panes.insert(raw, state);
    }
    ws.switch_tab(0);
    assert!(!ws.pane_state(PaneId::from_raw(3)).unwrap().seen);
    ws.switch_tab(9);
    assert_eq!(ws.active_tab_index(), 0);
    ws.switch_tab(1);
    assert!(ws.pane_state(PaneId::from_raw(2)).unwrap().seen);
    assert!(ws.pane_state(PaneId::from_raw(3)).unwrap().seen);
}

#[test]
fn the_active_tab_can_be_renamed_in_place() {
    let mut ws = workspace("ws");
    ws.active_tab_mut().unwrap().custom_name = Some("logs".to_string());
    assert_eq!(ws.active_tab_display_name(), Some("logs".to_string()));
    assert_eq!(ws.active_tab().unwrap().number, 1);
}

#[test]
fn a_live_directory_goes_before_a_recorded_one() {
    let mut ws = workspace("ws");
    add_tab(&mut ws, 2, None);
    let mut terminals = IdMap::new();
    let mut live_cwds = IdMap::new();
    // Nothing is known of the panes.
    assert_eq!(
        ws.resolved_identity_cwd_from(&terminals, &live_cwds),
        Some(path("/work/dir"))
    );
    terminals.insert(1001, TerminalState::new(TerminalId::from_raw(1001), path("/recorded")));
    live_cwds.insert(1001, path("/live"));
    terminals.insert(1002, TerminalState::new(TerminalId::from_raw(1002), path("/second")));
    assert_eq!(ws.resolved_identity_cwd_from(&terminals, &live_cwds), Some(path("/live")));
    // The directory follows the active tab.
    ws.switch_tab(1);
    assert_eq!(ws.resolved_identity_cwd_from(&terminals, &live_cwds), Some(path("/second")));
    let label = |cwd: &FsPath| cwd.to_text();
    assert_eq!(ws.display_name_from(&terminals, &live_cwds, &label), "ws");
    assert_eq!(ws.display_name(&label), "ws");
    ws.custom_name = None;
    assert_eq!(ws.display_name_from(&terminals, &live_cwds, &label), "/second");
    assert_eq!(ws.display_name(&label), "/work/dir");
}

#[test]
fn rooting_elsewhere_forgets_the_old_tree() {
    let disk = Disk::tree();
    disk.put("/other", &["b.txt"]);
    let read = |dir: &FsPath| disk.list(dir);
    let mut ws = workspace("ws");
    assert!(ws.explorer_watch_state().is_none());
    assert!(ws.explorer_rows().is_empty());
    assert_eq!(ws.explorer_decorations().len(), 0);
    ws.explorer_set_root(path("/proj"), &read);
    ws.explorer_toggle_expand(&path("/proj/src"), &read);
    ws.explorer_select(path("/proj/src"));
    ws.explorer_scroll = 4;
    let (root, expanded) = ws.explorer_watch_state().unwrap();
    assert_eq!(root, path("/proj"));
    assert_eq!(expanded.len(), 1);
    // The same root, however written, keeps everything and reads nothing.
    let reads = disk.reads.get();
    ws.explorer_set_root(path("/proj/"), &read);
    assert_eq!(ws.explorer_scroll, 4);
    assert_eq!(disk.reads.get(), reads);
    ws.explorer_set_root(path("/other"), &read);
    assert_eq!(row_names(&ws), vec!["b.txt".to_string()]);
    assert_eq!(ws.explorer_scroll, 0);
    assert_eq!(ws.explorer_selected(), None);
    assert!(ws.explorer_expanded.is_empty());
    assert!(!ws.explorer_cache.contains_key(&path("/proj")));
}

#[test]
fn a_directory_that_cannot_be_read_is_read_once() {
    let disk = Disk::tree();
    let read = |dir: &FsPath| disk.list(dir);
    let mut ws = workspace("ws");
    ws.explorer_set_root(path("/proj"), &read);
    let gone = path("/proj/gone");
    ws.explorer_toggle_expand(&gone, &read);
    let reads = disk.reads.get();
    assert!(ws.explorer_cache.get(&gone).unwrap().is_empty());
    ws.explorer_toggle_expand(&gone, &read);
    ws.explorer_toggle_expand(&gone, &read);
    assert_eq!(disk.reads.get(), reads);
}

#[test]
fn collapsing_all_keeps_what_is_loaded() {
    let disk = Disk::tree();
    let read = |dir: &FsPath| disk.list(dir);
    let mut ws = workspace("ws");
    ws.explorer_set_root(path("/proj"), &read);
    ws.explorer_toggle_expand(&path("/proj/src"), &read);
    ws.explorer_collapse_all();
    assert_eq!(row_names(&ws), vec!["src".to_string(), "README.md".to_string()]);
    assert!(ws.explorer_cache.contains_key(&path("/proj/src")));
    // What is collapsed is not read by a refresh.
    disk.put("/proj/src", &["main.rs", "added.rs"]);
    ws.explorer_refresh(&read);
    ws.explorer_toggle_expand(&path("/proj/src"), &read);
    assert!(!row_names(&ws).contains(&"added.rs".to_string()));
}

#[test]
fn a_changed_directory_is_read_in_place_of_its_parent() {
    let disk = Disk::tree();
    let read = |dir: &FsPath| disk.list(dir);
    let mut ws = workspace("ws");
    ws.explorer_set_root(path("/proj"), &read);
    ws.explorer_toggle_expand(&path("/proj/src"), &read);
    let reads = disk.reads.get();
    disk.put("/proj", &["src/", "README.md", "NOTES.md"]);
    disk.put("/proj/src", &["main.rs", "added.rs"]);
    assert!(ws.explorer_apply_changed_paths(&vec![path("/proj/src")], &read));
    assert_eq!(disk.reads.get(), reads + 1);
    assert!(row_names(&ws).contains(&"added.rs".to_string()));
    assert!(!row_names(&ws).contains(&"NOTES.md".to_string()));
    // Each directory is read once, whichever paths lead to it.
    let changed = vec![path("/proj/src"), path("/proj/NOTES.md"), path("/proj/src/main.rs")];
    assert!(ws.explorer_apply_changed_paths(&changed, &read));
    assert_eq!(disk.reads.get(), reads + 3);
    assert!(row_names(&ws).contains(&"NOTES.md".to_string()));
    assert!(!ws.explorer_apply_changed_paths(&Vec::new(), &read));
}

#[test]
fn workspace_ids_are_written_in_hexadecimal() {
    assert_eq!(generate_workspace_id(0, 1), "w01");
    assert_eq!(generate_workspace_id(0x5f3e_9ab1_0c2d, 255), "w5f3e9ab10c2dff");
}

#[test]
fn a_snapshot_becomes_the_status_of_a_workspace() {
    let snapshot = WorkspaceGitStatusSnapshot {
        branch: Some("main".to_string()),
        ahead_behind: Some((1, 2)),
        space: None,
        changes: vec![ChangedFile { path: path("a"), status: ChangeStatus::Added }],
        log: Vec::new(),
        log_has_more: true,
        is_git_repo: true,
    };
    let status = snapshot.into_workspace_status("w7".to_string(), path("/repo"));
    assert_eq!(status.workspace_id, "w7");
    assert_eq!(status.resolved_identity_cwd, path("/repo"));
    assert_eq!(status.branch.as_deref(), Some("main"));
    assert_eq!(status.ahead_behind, Some((1, 2)));
    assert!(status.space.is_none() && status.log.is_empty());
    assert_eq!(status.changes.len(), 1);
    assert!(status.log_has_more && status.is_git_repo);
}

#[test]
fn git_reports_are_taken_over() {
    let mut ws = workspace("ws");
    let space = GitSpaceMetadata {
        key: "k".to_string(),
        label: "l".to_string(),
        repo_root: path("/repo"),
        checkout_path: path("/repo/wt"),
        is_linked_worktree: true,
    };
    ws.refresh_git_ahead_behind(Some("dev".to_string()), Some((3, 0)), Some(space));
    assert_eq!(ws.branch().as_deref(), Some("dev"));
    assert_eq!(ws.git_ahead_behind(), Some((3, 0)));
    assert_eq!(ws.git_space().unwrap().checkout_path, path("/repo/wt"));
    ws.worktree_space = Some(WorktreeSpaceMembership {
        key: "k".to_string(),
        label: "l".to_string(),
        repo_root: path("/repo"),
        checkout_path: path("/repo/wt"),
        is_linked_worktree: false,
    });
    assert_eq!(ws.worktree_space().unwrap().label, "l");
}

#[test]
fn a_ratio_goes_to_what_starts_the_pane() {
    let mut ws = workspace("ws");
    let result = ws.split_pane_with_ratio(
        PaneId::from_raw(1),
        Direction::Horizontal,
        0.25f32,
        24,
        80,
        None,
        true,
        |request, ratio: f32| {
            assert_eq!(request.pane_id, PaneId::from_raw(1));
            assert_eq!(request.argv, None);
            assert!((ratio - 0.25).abs() < 1e-6);
            Ok::<NewPane, ()>(pane(2))
        },
    );
    assert_eq!(result, Some(Ok((0, pane(2)))));
    assert_eq!(ws.focused_pane_id(), Some(PaneId::from_raw(2)));
    assert_eq!(numbers(&ws), vec![(1, 1), (2, 2)]);
    let failed = ws.split_pane_with_ratio(
        PaneId::from_raw(2),
        Direction::Horizontal,
        0.5f32,
        24,
        80,
        None,
        true,
        |_request, _ratio| Err::<NewPane, &str>("no pty"),
    );
    assert_eq!(failed, Some(Err("no pty")));
    assert_eq!(ws.tabs[0].layout.pane_count(), 2);
}

#[test]
fn a_snapshot_is_asked_for_with_what_was_kept() {
    let kept = 7u8;
    let (snapshot, keep) = Workspace::git_status_snapshot_for_cwd_with_cache(
        &path("/repo"),
        Some(&kept),
        50,
        |cwd: &FsPath, cached: Option<&u8>, count: usize| {
            assert_eq!(cwd, &path("/repo"));
            assert_eq!((cached, count), (Some(&7), 50));
            let snapshot = WorkspaceGitStatusSnapshot {
                branch: None,
                ahead_behind: None,
                space: None,
                changes: Vec::new(),
                log: Vec::new(),
                log_has_more: false,
                is_git_repo: false,
            };
            (snapshot, Some(8u8))
        },
    );
    assert!(!snapshot.is_git_repo);
    assert_eq!(keep, Some(8));
}
