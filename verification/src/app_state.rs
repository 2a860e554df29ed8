//! The state that the source panel shows, and the rows that are visible of it.
use crate::file_tree::{row_views, FileEntryKind, FileTreeRow, RowView};
use crate::geometry::{
    less, lesser, metrics_of, no_rect, overflows, rect, should_show_scrollbar, Rect, ScrollMetrics,
};
use crate::ids::{IdMap, PaneId};
use crate::panel::{
    changes_section, explorer_body_of, explorer_tree_of, graph_section, list_body,
    source_panel_changes_body_rect, source_panel_changes_rect, source_panel_explorer_body_rect,
    source_panel_explorer_tree_rect, source_panel_graph_body_rect, source_panel_graph_rect,
};
use crate::path::FsPath;
use crate::source_control::{ChangedFile, CommitInfo};
use crate::tab::{Tab, TerminalState};
use crate::workspace::{SourcePanelMode, Workspace};
use vstd::hash_map::StringHashMap;
use vstd::hash_set::StringHashSet;
use vstd::prelude::*;

verus! {

/// What the keyboard is working on.
#[derive(Debug, Clone, Copy, PartialEq, Eq, Structural)]
pub enum Mode {
    Terminal,
    Navigate,
    RenameWorkspace,
    RenamePane,
    Resize,
    ConfirmClose,
    ContextMenu,
    Settings,
    GlobalMenu,
    KeybindHelp,
    ProductAnnouncement,
    /// Any other mode that works on the active workspace.
    Other,
}

/// Where the width of the panel comes from.
#[derive(Debug, Clone, Copy, PartialEq, Eq, Structural)]
pub enum SourcePanelWidthSource {
    Config,
    Manual,
}

/// The item of the panel whose content fills the diff pane.
#[derive(Debug, PartialEq, Eq)]
pub enum SourcePanelActiveItem {
    WorkingFile(FsPath),
    Commit(String),
    CommitFile { sha: String, path: FsPath },
}

/// The clickable row of a changed file.
#[derive(Debug, Clone, Copy, PartialEq, Eq, Structural)]
pub struct SourcePanelFileArea {
    pub rect: Rect,
    pub change_idx: usize,
}

/// The clickable row of a commit.
#[derive(Debug, Clone, Copy, PartialEq, Eq, Structural)]
pub struct SourcePanelCommitArea {
    pub rect: Rect,
    pub log_idx: usize,
}

/// The clickable row of a file beneath an expanded commit.
#[derive(Debug, Clone, Copy, PartialEq, Eq, Structural)]
pub struct SourcePanelCommitFileArea {
    pub rect: Rect,
    pub log_idx: usize,
    pub file_idx: usize,
}

/// The clickable row of an entry in the Explorer tree.
#[derive(Debug, PartialEq, Eq)]
pub struct SourcePanelExplorerNodeArea {
    pub rect: Rect,
    pub path: FsPath,
    pub expandable: bool,
}

/// A pane of a tab with the cells that it fills.
#[derive(Debug, Clone, Copy, PartialEq, Eq, Structural)]
pub struct PaneRect {
    pub id: PaneId,
    pub rect: Rect,
}

/// Where things were drawn last.
pub struct ViewState {
    pub source_panel_rect: Rect,
    pub source_panel_toggle_rect: Rect,
    pub source_panel_changes_refresh_rect: Rect,
    pub source_panel_log_refresh_rect: Rect,
    pub source_panel_load_more_rect: Rect,
    pub source_panel_section_divider_rect: Rect,
    pub source_panel_changes_card_areas: Vec<SourcePanelFileArea>,
    pub source_panel_log_card_areas: Vec<SourcePanelCommitArea>,
    pub source_panel_commit_file_card_areas: Vec<SourcePanelCommitFileArea>,
}

impl ViewState {
    /// Nothing was drawn yet.
    pub open spec fn is_blank(self) -> bool {
        &&& self.source_panel_rect == no_rect()
        &&& self.source_panel_toggle_rect == no_rect()
        &&& self.source_panel_changes_refresh_rect == no_rect()
        &&& self.source_panel_log_refresh_rect == no_rect()
        &&& self.source_panel_load_more_rect == no_rect()
        &&& self.source_panel_section_divider_rect == no_rect()
        &&& self.source_panel_changes_card_areas@.len() == 0
        &&& self.source_panel_log_card_areas@.len() == 0
        &&& self.source_panel_commit_file_card_areas@.len() == 0
    }
}

/// The state that the source panel shows.
pub struct AppState {
    pub workspaces: Vec<Workspace>,
    /// The workspace in use.
    pub active: Option<usize>,
    /// The workspace that is selected in a menu.
    pub selected: usize,
    pub mode: Mode,
    pub terminals: IdMap<TerminalState>,
    pub source_panel_collapsed: bool,
    /// The rows of the body that the split asks for the Changes section.
    pub source_panel_split_rows: u16,
    pub source_panel_changes_scroll: usize,
    pub source_panel_log_scroll: usize,
    pub source_panel_expanded_commits: StringHashSet,
    pub source_panel_commit_files: StringHashMap<Vec<ChangedFile>>,
    pub source_panel_diff_pane: Option<PaneId>,
    pub source_panel_active_item: Option<SourcePanelActiveItem>,
    pub source_panel_width: u16,
    pub source_panel_width_source: SourcePanelWidthSource,
    pub source_panel_min_width: u16,
    pub source_panel_max_width: u16,
    pub request_source_panel_git_refresh: bool,
    /// Panes whose next reported death is to be ignored.
    pub suppress_pane_death: IdMap<bool>,
    /// Whether there is something to be saved.
    pub session_dirty: bool,
    pub view: ViewState,
}

/// The modes in which a workspace is selected in a menu.
pub open spec fn is_menu_mode(mode: Mode) -> bool {
    mode != Mode::Terminal && mode != Mode::Other
}

impl AppState {
    /// Every workspace is well-formed.
    pub open spec fn wf(self) -> bool {
        forall|i: int| 0 <= i < self.workspaces@.len() ==> (#[trigger] self.workspaces@[i]).wf()
    }

    /// The state without workspaces.
    pub fn new() -> (app: AppState)
        ensures
            app.workspaces@.len() == 0,
            app.active is None,
            app.selected == 0,
            app.mode == Mode::Navigate,
            app.source_panel_split_rows == 0,
            app.source_panel_width == 0,
            app.source_panel_width_source == SourcePanelWidthSource::Config,
            app.source_panel_min_width == 0,
            app.source_panel_max_width == 0,
            app.terminals@ == Map::<u64, TerminalState>::empty(),
            !app.source_panel_collapsed,
            app.source_panel_changes_scroll == 0,
            app.source_panel_log_scroll == 0,
            app.source_panel_expanded_commits@ == Set::<Seq<char>>::empty(),
            app.source_panel_commit_files@ == Map::<Seq<char>, Vec<ChangedFile>>::empty(),
            app.source_panel_diff_pane is None,
            app.source_panel_active_item is None,
            !app.request_source_panel_git_refresh,
            app.suppress_pane_death@ == Map::<u64, bool>::empty(),
            !app.session_dirty,
            app.view.is_blank(),
            app.wf(),
    {
        AppState {
            workspaces: Vec::new(),
            active: None,
            selected: 0,
            mode: Mode::Navigate,
            terminals: IdMap::new(),
            source_panel_collapsed: false,
            source_panel_split_rows: 0,
            source_panel_changes_scroll: 0,
            source_panel_log_scroll: 0,
            source_panel_expanded_commits: StringHashSet::new(),
            source_panel_commit_files: StringHashMap::new(),
            source_panel_diff_pane: None,
            source_panel_active_item: None,
            source_panel_width: 0,
            source_panel_width_source: SourcePanelWidthSource::Config,
            source_panel_min_width: 0,
            source_panel_max_width: 0,
            request_source_panel_git_refresh: false,
            suppress_pane_death: IdMap::new(),
            session_dirty: false,
            view: ViewState {
                source_panel_rect: Rect::none(),
                source_panel_toggle_rect: Rect::none(),
                source_panel_changes_refresh_rect: Rect::none(),
                source_panel_log_refresh_rect: Rect::none(),
                source_panel_load_more_rect: Rect::none(),
                source_panel_section_divider_rect: Rect::none(),
                source_panel_changes_card_areas: Vec::new(),
                source_panel_log_card_areas: Vec::new(),
                source_panel_commit_file_card_areas: Vec::new(),
            },
        }
    }

    /// The position of the workspace that the panel reflects.
    pub open spec fn panel_idx(self) -> Option<usize> {
        if is_menu_mode(self.mode) {
            Some(self.selected)
        } else {
            self.active
        }
    }

    /// Whether the panel reflects a workspace.
    pub open spec fn has_panel_workspace(self) -> bool {
        self.panel_idx() matches Some(idx) && idx < self.workspaces@.len()
    }

    /// The workspace that the panel reflects.
    pub open spec fn panel_workspace(self) -> Workspace {
        self.workspaces@[self.panel_idx()->0 as int]
    }

    /// The workspace that the panel reflects.
    pub fn source_panel_workspace(&self) -> (ws: Option<&Workspace>)
        ensures
            ws is Some <==> self.has_panel_workspace(),
            ws matches Some(w) ==> *w == self.panel_workspace(),
    {
        match source_panel_workspace_idx(self) {
            Some(idx) => if idx < self.workspaces.len() {
                Some(&self.workspaces[idx])
            } else {
                None
            },
            None => None,
        }
    }

    /// The mode of the panel: that of the workspace it reflects.
    pub open spec fn panel_mode(self) -> SourcePanelMode {
        if self.has_panel_workspace() {
            self.panel_workspace().source_panel_mode
        } else {
            SourcePanelMode::Source
        }
    }

    /// The mode of the panel: that of the workspace it reflects.
    pub fn source_panel_mode(&self) -> (mode: SourcePanelMode)
        ensures
            mode == self.panel_mode(),
    {
        match self.source_panel_workspace() {
            Some(ws) => ws.source_panel_mode(),
            None => SourcePanelMode::Source,
        }
    }

    /// The changed files that the panel lists.
    pub open spec fn panel_changes(self) -> Seq<ChangedFile> {
        if self.has_panel_workspace() {
            self.panel_workspace().cached_changes@
        } else {
            seq![]
        }
    }

    /// The commits that the panel lists.
    pub open spec fn panel_commits(self) -> Seq<CommitInfo> {
        if self.has_panel_workspace() {
            self.panel_workspace().cached_log@
        } else {
            seq![]
        }
    }

    /// The number of files that are shown beneath a commit.
    pub open spec fn shown_files(self, commit: CommitInfo) -> nat {
        match commit.sha {
            Some(sha) => if self.source_panel_expanded_commits@.contains(sha@)
                && self.source_panel_commit_files@.contains_key(sha@) {
                self.source_panel_commit_files@[sha@]@.len()
            } else {
                0
            },
            None => 0,
        }
    }

    /// The rows of the first `n` commits, each with its files beneath it.
    pub open spec fn commit_rows(self, n: int) -> Seq<GraphRow>
        decreases n,
    {
        if n <= 0 {
            seq![]
        } else {
            self.commit_rows(n - 1).push(GraphRow::Commit { log_idx: (n - 1) as usize }) + Seq::new(
                self.shown_files(self.panel_commits()[n - 1]),
                |j: int| GraphRow::File { log_idx: (n - 1) as usize, file_idx: j as usize },
            )
        }
    }

    /// All rows of the Graph section.
    pub open spec fn graph_list(self) -> Seq<GraphRow> {
        let rows = self.commit_rows(self.panel_commits().len() as int);
        if self.has_panel_workspace() && self.panel_workspace().cached_log_has_more {
            rows.push(GraphRow::LoadMore)
        } else {
            rows
        }
    }

    /// All rows of the Explorer tree.
    pub open spec fn tree_list(self) -> Seq<RowView> {
        if self.has_panel_workspace() {
            self.panel_workspace().visible_tree()
        } else {
            seq![]
        }
    }

    /// How far the Explorer tree is scrolled.
    pub open spec fn tree_scroll(self) -> usize {
        if self.has_panel_workspace() {
            self.panel_workspace().explorer_scroll
        } else {
            0
        }
    }
}

/// The workspace whose changes/graph the panel reflects: the selected workspace
/// while navigating menus, otherwise the active one.
pub fn source_panel_workspace_idx(app: &AppState) -> (idx: Option<usize>)
    ensures
        idx == app.panel_idx(),
{
    match app.mode {
        Mode::Navigate
        | Mode::RenameWorkspace
        | Mode::RenamePane
        | Mode::Resize
        | Mode::ConfirmClose
        | Mode::ContextMenu
        | Mode::Settings
        | Mode::GlobalMenu
        | Mode::KeybindHelp
        | Mode::ProductAnnouncement => Some(app.selected),
        Mode::Terminal | Mode::Other => app.active,
    }
}

/// A single rendered row of the Graph section's flattened virtual list.
#[derive(Debug, Clone, Copy, PartialEq, Eq, Structural)]
pub enum GraphRow {
    /// A commit or graph-connector row, indexed into the workspace's log.
    Commit { log_idx: usize },
    /// A file touched by an expanded commit, shown inline beneath it.
    File { log_idx: usize, file_idx: usize },
    /// The trailing "load more" affordance.
    LoadMore,
}

/// The files of an expanded commit; none when it is collapsed or its file list has
/// not been fetched yet.
pub fn expanded_commit_files<'a>(app: &'a AppState, commit: &CommitInfo) -> (files: Option<
    &'a Vec<ChangedFile>,
>)
    ensures
        files is Some <==> (commit.sha matches Some(sha)
            && app.source_panel_expanded_commits@.contains(sha@)
            && app.source_panel_commit_files@.contains_key(sha@)),
        files is None ==> app.shown_files(*commit) == 0,
        files matches Some(list) ==> list@.len() == app.shown_files(*commit),
        files matches Some(list) ==> commit.sha matches Some(sha)
            && app.source_panel_commit_files@[sha@] == *list,
{
    match &commit.sha {
        Some(sha) => if app.source_panel_expanded_commits.contains(sha.as_str()) {
            app.source_panel_commit_files.get(sha.as_str())
        } else {
            None
        },
        None => None,
    }
}

/// Flatten the commit graph into the virtual rows the Graph section scrolls
/// over: each commit, the files of any expanded commit immediately beneath it,
/// and a trailing "load more" row when more history is available.
pub fn source_panel_graph_rows(app: &AppState) -> (rows: Vec<GraphRow>)
    ensures
        rows@ == app.graph_list(),
{
    let mut rows: Vec<GraphRow> = Vec::new();
    let ws = match app.source_panel_workspace() {
        Some(ws) => ws,
        None => {
            assert(rows@ == app.commit_rows(0));
            return rows;
        },
    };
    let commits = ws.commits();
    let mut n: usize = 0;
    while n < commits.len()
        invariant
            n <= commits@.len(),
            commits@ == app.panel_commits(),
            rows@ == app.commit_rows(n as int),
        decreases commits@.len() - n,
    {
        rows.push(GraphRow::Commit { log_idx: n });
        let ghost with_commit = rows@;
        let count: usize = match expanded_commit_files(app, &commits[n]) {
            Some(files) => files.len(),
            None => 0,
        };
        let mut j: usize = 0;
        while j < count
            invariant
                j <= count,
                rows@ == with_commit + Seq::new(
                    j as nat,
                    |i: int| GraphRow::File { log_idx: n, file_idx: i as usize },
                ),
            decreases count - j,
        {
            rows.push(GraphRow::File { log_idx: n, file_idx: j });
            j += 1;
        }
        n += 1;
        assert(rows@ =~= app.commit_rows(n as int));
    }
    if ws.has_more_commits() {
        rows.push(GraphRow::LoadMore);
    }
    rows
}

/// Total scrollable rows in the Graph section: commits, the inline file rows of
/// expanded commits, and the trailing "load more" row.
pub fn source_panel_log_row_count(app: &AppState) -> (count: usize)
    ensures
        count == app.graph_list().len(),
{
    source_panel_graph_rows(app).len()
}

/// How the Graph section's rows are scrolled in a section.
pub open spec fn log_metrics(app: AppState, section: Rect) -> ScrollMetrics {
    metrics_of(
        app.graph_list().len(),
        app.source_panel_log_scroll as nat,
        list_body(section, false).height as nat,
    )
}

/// How the Graph section's rows are scrolled in a section.
pub fn source_panel_log_scroll_metrics(app: &AppState, section: Rect) -> (metrics: ScrollMetrics)
    requires
        section.fits(),
    ensures
        metrics == log_metrics(*app, section),
{
    let viewport_rows: usize = source_panel_graph_body_rect(section, false).height as usize;
    ScrollMetrics::of(source_panel_log_row_count(app), app.source_panel_log_scroll, viewport_rows)
}

/// The number of rows that a body shows of a list.
pub open spec fn visible_count(total: nat, scroll: nat, body: Rect) -> nat {
    lesser(less(total as int, scroll as int), body.height as int) as nat
}

/// The rectangle of the `i`-th row of a body.
pub open spec fn row_rect(body: Rect, i: int) -> Rect {
    rect(body.x as int, body.y + i, body.width as int, 1)
}

/// The body of the Graph section, with a column left for the scrollbar where one is
/// due.
pub open spec fn log_body(app: AppState, section: Rect) -> Rect {
    list_body(section, overflows(log_metrics(app, section)))
}

/// The visible rows of the Graph section, each with its rectangle.
pub open spec fn visible_graph_rows(app: AppState, area: Rect) -> Seq<(GraphRow, Rect)> {
    let body = log_body(app, graph_section(area, app.source_panel_split_rows as int));
    if app.source_panel_collapsed || app.panel_mode() != SourcePanelMode::Source || body.width
        == 0 {
        seq![]
    } else {
        Seq::new(
            visible_count(app.graph_list().len(), app.source_panel_log_scroll as nat, body),
            |i: int| (app.graph_list()[app.source_panel_log_scroll + i], row_rect(body, i)),
        )
    }
}

/// The visible virtual rows of the Graph section paired with the 1-row rect each
/// occupies, honoring the current scroll offset. Shared by the card-area and
/// load-more computations and used implicitly when rendering.
pub fn source_panel_graph_visible_rows(app: &AppState, panel_area: Rect) -> (rows: Vec<
    (GraphRow, Rect),
>)
    requires
        panel_area.fits(),
    ensures
        rows@ == visible_graph_rows(*app, panel_area),
{
    let mut out: Vec<(GraphRow, Rect)> = Vec::new();
    if app.source_panel_collapsed || app.source_panel_mode() != SourcePanelMode::Source {
        return out;
    }
    let section = source_panel_graph_rect(panel_area, app.source_panel_split_rows);
    let rows = source_panel_graph_rows(app);
    let metrics = source_panel_log_scroll_metrics(app, section);
    let body = source_panel_graph_body_rect(section, should_show_scrollbar(metrics));
    if body.width == 0 || body.height == 0 {
        return out;
    }
    let scroll: usize = app.source_panel_log_scroll;
    let mut i: u16 = 0;
    let ghost all = visible_graph_rows(*app, panel_area);
    while i < body.height && scroll < rows.len() && (i as usize) < rows.len() - scroll
        invariant
            i <= body.height,
            body == log_body(
                *app,
                graph_section(panel_area, app.source_panel_split_rows as int),
            ),
            body.fits(),
            body.width > 0,
            scroll == app.source_panel_log_scroll,
            rows@ == app.graph_list(),
            !app.source_panel_collapsed,
            app.panel_mode() == SourcePanelMode::Source,
            all == visible_graph_rows(*app, panel_area),
            i <= all.len(),
            out@ == all.take(i as int),
        decreases body.height - i,
    {
        let entry = (rows[scroll + i as usize], Rect::new(body.x, body.y + i, body.width, 1));
        out.push(entry);
        assert(all[i as int] == entry);
        assert(all.take(i + 1) == all.take(i as int).push(entry));
        i += 1;
    }
    assert(all.take(i as int) == all);
    out
}

/// The scrollbar of a list: the last column beside its body, where one is due.
pub open spec fn scrollbar_of(section: Rect, body: Rect, metrics: ScrollMetrics) -> Option<Rect> {
    if overflows(metrics) && body.width > 0 && body.height > 0 {
        Some(rect(section.x + section.width - 1, body.y as int, 1, body.height as int))
    } else {
        None
    }
}

/// The scrollbar of the Graph section.
pub fn source_panel_log_scrollbar_rect(app: &AppState, section: Rect) -> (r: Option<Rect>)
    requires
        section.fits(),
    ensures
        r == scrollbar_of(section, list_body(section, true), log_metrics(*app, section)),
{
    let metrics = source_panel_log_scroll_metrics(app, section);
    let body = source_panel_graph_body_rect(section, true);
    if should_show_scrollbar(metrics) && body.width > 0 && body.height > 0 {
        Some(Rect::new(section.x + (section.width - 1), body.y, 1, body.height))
    } else {
        None
    }
}

/// The commit rows among visible rows.
pub open spec fn commit_areas(rows: Seq<(GraphRow, Rect)>) -> Seq<SourcePanelCommitArea>
    decreases rows.len(),
{
    if rows.len() == 0 {
        seq![]
    } else {
        let before = commit_areas(rows.drop_last());
        match rows.last().0 {
            GraphRow::Commit { log_idx } => before.push(
                SourcePanelCommitArea { rect: rows.last().1, log_idx },
            ),
            _ => before,
        }
    }
}

/// The file rows among visible rows.
pub open spec fn commit_file_areas(rows: Seq<(GraphRow, Rect)>) -> Seq<SourcePanelCommitFileArea>
    decreases rows.len(),
{
    if rows.len() == 0 {
        seq![]
    } else {
        let before = commit_file_areas(rows.drop_last());
        match rows.last().0 {
            GraphRow::File { log_idx, file_idx } => before.push(
                SourcePanelCommitFileArea { rect: rows.last().1, log_idx, file_idx },
            ),
            _ => before,
        }
    }
}

/// The "load more" row among visible rows; no cells without one.
pub open spec fn load_more_area(rows: Seq<(GraphRow, Rect)>) -> Rect
    decreases rows.len(),
{
    if rows.len() == 0 {
        no_rect()
    } else if rows[0].0 == GraphRow::LoadMore {
        rows[0].1
    } else {
        load_more_area(rows.skip(1))
    }
}

/// Clickable row rects for the visible commit-graph entries.
pub fn compute_source_panel_log_card_areas(app: &AppState, panel_area: Rect) -> (areas: Vec<
    SourcePanelCommitArea,
>)
    requires
        panel_area.fits(),
    ensures
        areas@ == commit_areas(visible_graph_rows(*app, panel_area)),
{
    let rows = source_panel_graph_visible_rows(app, panel_area);
    let mut areas: Vec<SourcePanelCommitArea> = Vec::new();
    let mut i: usize = 0;
    while i < rows.len()
        invariant
            i <= rows@.len(),
            areas@ == commit_areas(rows@.take(i as int)),
        decreases rows@.len() - i,
    {
        assert(rows@.take(i + 1).drop_last() == rows@.take(i as int));
        let (row, rect) = rows[i];
        match row {
            GraphRow::Commit { log_idx } => {
                areas.push(SourcePanelCommitArea { rect, log_idx });
            },
            _ => {},
        }
        i += 1;
    }
    assert(rows@.take(i as int) == rows@);
    areas
}

/// Clickable row rects for the file rows shown inline beneath expanded commits.
pub fn compute_source_panel_commit_file_card_areas(app: &AppState, panel_area: Rect) -> (areas: Vec<
    SourcePanelCommitFileArea,
>)
    requires
        panel_area.fits(),
    ensures
        areas@ == commit_file_areas(visible_graph_rows(*app, panel_area)),
{
    let rows = source_panel_graph_visible_rows(app, panel_area);
    let mut areas: Vec<SourcePanelCommitFileArea> = Vec::new();
    let mut i: usize = 0;
    while i < rows.len()
        invariant
            i <= rows@.len(),
            areas@ == commit_file_areas(rows@.take(i as int)),
        decreases rows@.len() - i,
    {
        assert(rows@.take(i + 1).drop_last() == rows@.take(i as int));
        let (row, rect) = rows[i];
        match row {
            GraphRow::File { log_idx, file_idx } => {
                areas.push(SourcePanelCommitFileArea { rect, log_idx, file_idx });
            },
            _ => {},
        }
        i += 1;
    }
    assert(rows@.take(i as int) == rows@);
    areas
}

/// The clickable "load more" row, shown as the trailing virtual row of the
/// Graph section when the repository has history beyond the loaded window.
/// There are no cells when there is no more history or the row is currently
/// scrolled out of view.
pub fn compute_source_panel_load_more_rect(app: &AppState, panel_area: Rect) -> (r: Rect)
    requires
        panel_area.fits(),
    ensures
        r == load_more_area(visible_graph_rows(*app, panel_area)),
{
    let rows = source_panel_graph_visible_rows(app, panel_area);
    let mut i: usize = 0;
    assert(rows@.skip(0) == rows@);
    while i < rows.len()
        invariant
            i <= rows@.len(),
            rows@ == visible_graph_rows(*app, panel_area),
            load_more_area(rows@) == load_more_area(rows@.skip(i as int)),
        decreases rows@.len() - i,
    {
        let (row, rect) = rows[i];
        if row == GraphRow::LoadMore {
            return rect;
        }
        assert(rows@.skip(i as int).skip(1) == rows@.skip(i + 1));
        i += 1;
    }
    Rect::none()
}

/// The number of changed files that the panel lists.
pub fn source_panel_changes_count(app: &AppState) -> (count: usize)
    ensures
        count == app.panel_changes().len(),
{
    match app.source_panel_workspace() {
        Some(ws) => ws.changed_files().len(),
        None => 0,
    }
}

/// How the changed files are scrolled in a section.
pub open spec fn changes_metrics(app: AppState, section: Rect) -> ScrollMetrics {
    metrics_of(
        app.panel_changes().len(),
        app.source_panel_changes_scroll as nat,
        list_body(section, false).height as nat,
    )
}

/// How the changed files are scrolled in a section.
pub fn source_panel_changes_scroll_metrics(app: &AppState, section: Rect) -> (metrics:
    ScrollMetrics)
    requires
        section.fits(),
    ensures
        metrics == changes_metrics(*app, section),
{
    let viewport_rows: usize = source_panel_changes_body_rect(section, false).height as usize;
    ScrollMetrics::of(
        source_panel_changes_count(app),
        app.source_panel_changes_scroll,
        viewport_rows,
    )
}

/// The scrollbar of the Changes section.
pub fn source_panel_changes_scrollbar_rect(app: &AppState, section: Rect) -> (r: Option<Rect>)
    requires
        section.fits(),
    ensures
        r == scrollbar_of(section, list_body(section, true), changes_metrics(*app, section)),
{
    let metrics = source_panel_changes_scroll_metrics(app, section);
    let body = source_panel_changes_body_rect(section, true);
    if should_show_scrollbar(metrics) && body.width > 0 && body.height > 0 {
        Some(Rect::new(section.x + (section.width - 1), body.y, 1, body.height))
    } else {
        None
    }
}

/// The rows of the visible changed files.
pub open spec fn change_areas(app: AppState, area: Rect) -> Seq<SourcePanelFileArea> {
    let section = changes_section(area, app.source_panel_split_rows as int);
    let body = list_body(section, overflows(changes_metrics(app, section)));
    if app.source_panel_collapsed || app.panel_mode() != SourcePanelMode::Source || body.width
        == 0 {
        seq![]
    } else {
        Seq::new(
            visible_count(
                app.panel_changes().len(),
                app.source_panel_changes_scroll as nat,
                body,
            ),
            |i: int|
                SourcePanelFileArea {
                    rect: row_rect(body, i),
                    change_idx: (app.source_panel_changes_scroll + i) as usize,
                },
        )
    }
}

/// Clickable row rects for the visible changed files.
pub fn compute_source_panel_changes_card_areas(app: &AppState, panel_area: Rect) -> (areas: Vec<
    SourcePanelFileArea,
>)
    requires
        panel_area.fits(),
    ensures
        areas@ == change_areas(*app, panel_area),
{
    let mut areas: Vec<SourcePanelFileArea> = Vec::new();
    if app.source_panel_collapsed || app.source_panel_mode() != SourcePanelMode::Source {
        return areas;
    }
    let section = source_panel_changes_rect(panel_area, app.source_panel_split_rows);
    let count: usize = source_panel_changes_count(app);
    let metrics = source_panel_changes_scroll_metrics(app, section);
    let body = source_panel_changes_body_rect(section, should_show_scrollbar(metrics));
    if body.width == 0 || body.height == 0 {
        return areas;
    }
    let scroll: usize = app.source_panel_changes_scroll;
    let mut i: u16 = 0;
    let ghost all = change_areas(*app, panel_area);
    while i < body.height && scroll < count && (i as usize) < count - scroll
        invariant
            i <= body.height,
            section == changes_section(panel_area, app.source_panel_split_rows as int),
            body == list_body(section, overflows(changes_metrics(*app, section))),
            body.fits(),
            body.width > 0,
            scroll == app.source_panel_changes_scroll,
            count == app.panel_changes().len(),
            !app.source_panel_collapsed,
            app.panel_mode() == SourcePanelMode::Source,
            all == change_areas(*app, panel_area),
            i <= all.len(),
            areas@ == all.take(i as int),
        decreases body.height - i,
    {
        let area = SourcePanelFileArea {
            rect: Rect::new(body.x, body.y + i, body.width, 1),
            change_idx: scroll + i as usize,
        };
        areas.push(area);
        assert(all[i as int] == area);
        assert(all.take(i + 1) == all.take(i as int).push(area));
        i += 1;
    }
    assert(all.take(i as int) == all);
    areas
}

/// The flattened Explorer rows of the panel's current workspace.
pub fn source_panel_explorer_rows(app: &AppState) -> (rows: Vec<FileTreeRow>)
    requires
        app.wf(),
    ensures
        row_views(rows@) == app.tree_list(),
{
    match app.source_panel_workspace() {
        Some(ws) => ws.explorer_rows(),
        None => {
            let rows: Vec<FileTreeRow> = Vec::new();
            assert(row_views(rows@) == Seq::<RowView>::empty());
            rows
        },
    }
}

/// The current workspace's Explorer scroll offset (rows scrolled past the top).
pub fn source_panel_explorer_scroll(app: &AppState) -> (scroll: usize)
    ensures
        scroll == app.tree_scroll(),
{
    match app.source_panel_workspace() {
        Some(ws) => ws.explorer_scroll,
        None => 0,
    }
}

/// How the Explorer tree is scrolled in a section.
pub open spec fn tree_metrics(app: AppState, section: Rect) -> ScrollMetrics {
    metrics_of(app.tree_list().len(), app.tree_scroll() as nat, section.height as nat)
}

/// How the Explorer tree is scrolled in a section.
pub fn source_panel_explorer_scroll_metrics(app: &AppState, section: Rect) -> (metrics:
    ScrollMetrics)
    requires
        app.wf(),
    ensures
        metrics == tree_metrics(*app, section),
{
    let rows = source_panel_explorer_rows(app);
    assert(row_views(rows@).len() == rows@.len());
    ScrollMetrics::of(rows.len(), source_panel_explorer_scroll(app), section.height as usize)
}

/// The body of the Explorer tree, with a column left for the scrollbar where one is
/// due.
pub open spec fn tree_body(app: AppState, area: Rect) -> Rect {
    let section = explorer_tree_of(area);
    explorer_body_of(section, overflows(tree_metrics(app, section)))
}

/// The number of rows that the Explorer shows.
pub open spec fn visible_tree_count(app: AppState, area: Rect) -> nat {
    if app.source_panel_collapsed || app.panel_mode() != SourcePanelMode::Explorer || tree_body(
        app,
        area,
    ).width == 0 {
        0
    } else {
        visible_count(app.tree_list().len(), app.tree_scroll() as nat, tree_body(app, area))
    }
}

/// The visible rows of the Explorer, each with its rectangle.
pub open spec fn visible_tree_rows(app: AppState, area: Rect) -> Seq<(RowView, Rect)> {
    Seq::new(
        visible_tree_count(app, area),
        |i: int|
            (app.tree_list()[app.tree_scroll() + i], row_rect(tree_body(app, area), i)),
    )
}

/// The values of rows with rectangles.
pub open spec fn placed_rows(rows: Seq<(FileTreeRow, Rect)>) -> Seq<(RowView, Rect)> {
    rows.map_values(|entry: (FileTreeRow, Rect)| (entry.0@, entry.1))
}

/// The visible (scrolled) Explorer rows paired with the 1-row rect each occupies.
/// Shared by the clickable-node computation and rendering.
pub fn source_panel_explorer_visible_rows(app: &AppState, panel_area: Rect) -> (rows: Vec<
    (FileTreeRow, Rect),
>)
    requires
        app.wf(),
        panel_area.fits(),
    ensures
        placed_rows(rows@) == visible_tree_rows(*app, panel_area),
{
    let mut out: Vec<(FileTreeRow, Rect)> = Vec::new();
    let ghost all = visible_tree_rows(*app, panel_area);
    assert(placed_rows(out@) == all.take(0));
    if app.source_panel_collapsed || app.source_panel_mode() != SourcePanelMode::Explorer {
        assert(all.take(0) == all);
        return out;
    }
    let section = source_panel_explorer_tree_rect(panel_area);
    let rows = source_panel_explorer_rows(app);
    let metrics = source_panel_explorer_scroll_metrics(app, section);
    let body = source_panel_explorer_body_rect(section, should_show_scrollbar(metrics));
    if body.width == 0 || body.height == 0 {
        assert(all.take(0) == all);
        return out;
    }
    let scroll: usize = source_panel_explorer_scroll(app);
    let ghost views = row_views(rows@);
    let mut i: u16 = 0;
    while i < body.height && scroll < rows.len() && (i as usize) < rows.len() - scroll
        invariant
            i <= body.height,
            body == tree_body(*app, panel_area),
            body.fits(),
            body.width > 0,
            views == row_views(rows@),
            views == app.tree_list(),
            scroll == app.tree_scroll(),
            !app.source_panel_collapsed,
            app.panel_mode() == SourcePanelMode::Explorer,
            all == visible_tree_rows(*app, panel_area),
            i <= all.len(),
            placed_rows(out@) == all.take(i as int),
        decreases body.height - i,
    {
        let ghost before = out@;
        let row = rows[scroll + i as usize].clone();
        let rect = Rect::new(body.x, body.y + i, body.width, 1);
        assert(row@ == views[scroll + i]);
        out.push((row, rect));
        assert(placed_rows(out@) == placed_rows(before).push((row@, rect)));
        assert(all[i as int] == (row@, rect));
        assert(all.take(i + 1) == all.take(i as int).push((row@, rect)));
        i += 1;
    }
    assert(all.take(i as int) == all);
    out
}

/// The value of a clickable Explorer row.
pub struct NodeAreaView {
    pub rect: Rect,
    pub path: Seq<u8>,
    pub expandable: bool,
}

impl View for SourcePanelExplorerNodeArea {
    type V = NodeAreaView;

    open spec fn view(&self) -> NodeAreaView {
        NodeAreaView { rect: self.rect, path: self.path@, expandable: self.expandable }
    }
}

/// The values of a list of clickable Explorer rows.
pub open spec fn node_area_views(areas: Seq<SourcePanelExplorerNodeArea>) -> Seq<NodeAreaView> {
    areas.map_values(|area: SourcePanelExplorerNodeArea| area@)
}

/// The entry rows among visible rows.
pub open spec fn node_areas(rows: Seq<(RowView, Rect)>) -> Seq<NodeAreaView>
    decreases rows.len(),
{
    if rows.len() == 0 {
        seq![]
    } else {
        let before = node_areas(rows.drop_last());
        match rows.last().0 {
            RowView::Node(node) => before.push(
                NodeAreaView {
                    rect: rows.last().1,
                    path: node.path,
                    expandable: node.kind == FileEntryKind::Directory,
                },
            ),
            RowView::Empty { depth: _ } => before,
        }
    }
}

/// Clickable row rects for the visible Explorer-tree entry nodes. Indicator
/// (empty-directory) rows occupy space but are not clickable, so they are
/// omitted here.
pub fn compute_source_panel_explorer_node_areas(app: &AppState, panel_area: Rect) -> (areas: Vec<
    SourcePanelExplorerNodeArea,
>)
    requires
        app.wf(),
        panel_area.fits(),
    ensures
        node_area_views(areas@) == node_areas(visible_tree_rows(*app, panel_area)),
{
    let rows = source_panel_explorer_visible_rows(app, panel_area);
    let ghost all = placed_rows(rows@);
    let mut areas: Vec<SourcePanelExplorerNodeArea> = Vec::new();
    let mut i: usize = 0;
    assert(node_area_views(areas@) == node_areas(all.take(0)));
    while i < rows.len()
        invariant
            i <= rows@.len(),
            all == placed_rows(rows@),
            node_area_views(areas@) == node_areas(all.take(i as int)),
        decreases rows@.len() - i,
    {
        let ghost before = areas@;
        assert(all.take(i + 1).drop_last() == all.take(i as int));
        assert(all.take(i + 1).last() == (rows@[i as int].0@, rows@[i as int].1));
        match &rows[i].0 {
            FileTreeRow::Node(node) => {
                let area = SourcePanelExplorerNodeArea {
                    rect: rows[i].1,
                    path: node.path.clone(),
                    expandable: match node.kind {
                        FileEntryKind::Directory => true,
                        _ => false,
                    },
                };
                areas.push(area);
                assert(node_area_views(areas@) == node_area_views(before).push(area@));
            },
            FileTreeRow::Empty { depth: _ } => {},
        }
        i += 1;
    }
    assert(all.take(i as int) == all);
    areas
}

/// The scrollbar of the Explorer tree.
pub open spec fn tree_scrollbar(app: AppState, section: Rect) -> Option<Rect> {
    scrollbar_of(section, section, tree_metrics(app, section))
}

/// The scrollbar of the Explorer tree.
pub fn source_panel_explorer_scrollbar_rect(app: &AppState, section: Rect) -> (r: Option<Rect>)
    requires
        app.wf(),
        section.fits(),
    ensures
        r == tree_scrollbar(*app, section),
{
    let metrics = source_panel_explorer_scroll_metrics(app, section);
    if should_show_scrollbar(metrics) && section.width > 0 && section.height > 0 {
        Some(Rect::new(section.x + (section.width - 1), section.y, 1, section.height))
    } else {
        None
    }
}

/// Whether the panel's current workspace is a git repository. Defaults to true
/// when no workspace is selected, so the panel only shows its non-git empty
/// state for a workspace that was positively determined not to be a repo.
pub fn source_panel_is_git_repo(app: &AppState) -> (r: bool)
    ensures
        r == (app.has_panel_workspace() ==> app.panel_workspace().cached_is_git_repo),
{
    match app.source_panel_workspace() {
        Some(ws) => ws.is_git_repo(),
        None => true,
    }
}

/// Whether the panel has a git workspace worth reserving columns for. Unlike
/// [`source_panel_is_git_repo`], this is `false` when no workspace is selected:
/// an absent or non-git workspace has nothing to show, so the layout hides the
/// panel entirely rather than reserving columns for an empty placeholder.
pub fn source_panel_has_git_workspace(app: &AppState) -> (r: bool)
    ensures
        r == (app.has_panel_workspace() && app.panel_workspace().cached_is_git_repo),
{
    match app.source_panel_workspace() {
        Some(ws) => ws.is_git_repo(),
        None => false,
    }
}

impl AppState {
    /// The diff pane is one of the panes of the active tab.
    pub open spec fn diff_pane_is_live(self) -> bool {
        &&& self.source_panel_diff_pane is Some
        &&& self.active matches Some(idx) && idx < self.workspaces@.len() && {
            let ws = self.workspaces@[idx as int];
            ws.active_tab < ws.tabs@.len() && ws.tabs@[ws.active_tab as int].layout.panes@.contains(
                self.source_panel_diff_pane->0,
            )
        }
    }

    /// The active tab of the active workspace.
    pub fn current_tab(&self) -> (tab: Option<&Tab>)
        ensures
            tab is Some <==> (self.active matches Some(idx) && idx < self.workspaces@.len()
                && self.workspaces@[idx as int].active_tab
                < self.workspaces@[idx as int].tabs@.len()),
            tab matches Some(t) ==> *t == self.workspaces@[self.active->0 as int].tabs@[
                self.workspaces@[self.active->0 as int].active_tab as int],
    {
        match self.active {
            Some(idx) => if idx < self.workspaces.len() {
                self.workspaces[idx].active_tab()
            } else {
                None
            },
            None => None,
        }
    }

    /// Whether the remembered diff pane is still present in the active tab. The
    /// row highlight is suppressed once the pane is gone so a closed diff leaves
    /// no stale highlight behind.
    pub fn source_panel_diff_pane_is_live(&self) -> (r: bool)
        ensures
            r == self.diff_pane_is_live(),
    {
        match self.source_panel_diff_pane {
            Some(pane_id) => match self.current_tab() {
                Some(tab) => tab.layout.contains(pane_id),
                None => false,
            },
            None => false,
        }
    }

    /// The item to highlight.
    pub open spec fn highlighted(self) -> Option<SourcePanelActiveItem> {
        if self.diff_pane_is_live() {
            self.source_panel_active_item
        } else {
            None
        }
    }

    /// The source-panel item to highlight: the row whose content fills the diff
    /// pane, but only while that pane is still open.
    pub fn source_panel_highlighted_item(&self) -> (item: Option<&SourcePanelActiveItem>)
        ensures
            item is Some <==> self.highlighted() is Some,
            item matches Some(i) ==> self.highlighted() == Some(*i),
    {
        if !self.source_panel_diff_pane_is_live() {
            return None;
        }
        match &self.source_panel_active_item {
            Some(item) => Some(item),
            None => None,
        }
    }
}

/// While a terminal is in use the panel reflects the active workspace, and in every menu
/// the selected one.
pub proof fn law_reflected_workspace(app: AppState)
    ensures
        app.mode == Mode::Terminal || app.mode == Mode::Other ==> app.panel_idx() == app.active,
        app.mode != Mode::Terminal && app.mode != Mode::Other ==> app.panel_idx() == Some(
            app.selected,
        ),
        app.has_panel_workspace() ==> app.panel_changes()
            == app.workspaces@[app.panel_idx()->0 as int].cached_changes@ && app.panel_commits()
            == app.workspaces@[app.panel_idx()->0 as int].cached_log@ && app.panel_mode()
            == app.workspaces@[app.panel_idx()->0 as int].source_panel_mode && app.tree_scroll()
            == app.workspaces@[app.panel_idx()->0 as int].explorer_scroll,
        !app.has_panel_workspace() ==> app.panel_changes().len() == 0 && app.panel_commits().len()
            == 0 && app.panel_mode() == SourcePanelMode::Source && app.tree_list().len() == 0,
{
}

proof fn lemma_commit_rows_prefix(app: AppState, m: int, n: int)
    requires
        0 <= m <= n,
    ensures
        app.commit_rows(m).is_prefix_of(app.commit_rows(n)),
    decreases n - m,
{
    if m < n {
        lemma_commit_rows_prefix(app, m, n - 1);
    }
}

/// From `start` to `end` the graph lists the commit at `i` and its files.
pub open spec fn is_commit_block(
    app: AppState,
    commit: CommitInfo,
    i: int,
    start: int,
    end: int,
) -> bool {
    let rows = app.graph_list();
    let shown = commit.sha matches Some(sha) && app.source_panel_expanded_commits@.contains(sha@)
        && app.source_panel_commit_files@.contains_key(sha@);
    &&& 0 <= start < end <= rows.len()
    &&& rows[start] == (GraphRow::Commit { log_idx: i as usize })
    &&& !shown ==> end == start + 1
    &&& shown ==> end == start + 1 + app.source_panel_commit_files@[commit.sha->0@]@.len()
    &&& forall|j: int|
        start < j < end ==> #[trigger] rows[j] == (GraphRow::File {
            log_idx: i as usize,
            file_idx: (j - start - 1) as usize,
        })
}

proof fn lemma_commit_block(app: AppState, i: int)
    requires
        0 <= i < app.panel_commits().len(),
    ensures
        is_commit_block(
            app,
            app.panel_commits()[i],
            i,
            app.commit_rows(i).len() as int,
            app.commit_rows(i + 1).len() as int,
        ),
{
    let rows = app.graph_list();
    let some = app.commit_rows(i);
    let more = app.commit_rows(i + 1);
    let all = app.commit_rows(app.panel_commits().len() as int);
    lemma_commit_rows_prefix(app, i + 1, app.panel_commits().len() as int);
    assert(more.is_prefix_of(all));
    assert(all.is_prefix_of(rows));
    assert forall|j: int| 0 <= j < more.len() implies rows[j] == more[j] by {
        assert(all[j] == more[j]);
    }
    assert(more[some.len() as int] == (GraphRow::Commit { log_idx: i as usize }));
}

/// The graph lists each loaded commit once, in their order. Behind a commit stand its files,
/// in their order, where it is expanded and its files are known, and nothing otherwise. At
/// the end stands the row that loads more, where there is more. `at` is where the commits
/// stand.
pub proof fn law_rows_of_the_graph(app: AppState, commits: Seq<CommitInfo>) -> (at: Seq<int>)
    requires
        commits == app.panel_commits(),
        commits.len() <= usize::MAX,
    ensures
        ({
            let rows = app.graph_list();
            let more = app.has_panel_workspace() && app.panel_workspace().cached_log_has_more;
            &&& at.len() == commits.len() + 1
            &&& at[0] == 0
            &&& at.last() == rows.len() - if more {
                1int
            } else {
                0
            }
            &&& more ==> rows.last() == GraphRow::LoadMore
            &&& forall|i: int|
                0 <= i < commits.len() ==> is_commit_block(
                    app,
                    #[trigger] commits[i],
                    i,
                    at[i],
                    at[i + 1],
                )
        }),
{
    let n = commits.len() as int;
    let at = Seq::new((n + 1) as nat, |i: int| app.commit_rows(i).len() as int);
    assert forall|i: int| 0 <= i < commits.len() implies is_commit_block(
        app,
        #[trigger] commits[i],
        i,
        at[i],
        at[i + 1],
    ) by {
        lemma_commit_block(app, i);
    }
    at
}

/// The rows that a list of the panel shows stand below each other, the first one below
/// the header, over the whole width but for the column of a scrollbar. They are the
/// changed files from the scroll on, each shown as the file that it is.
pub proof fn law_shown_changes(app: AppState, area: Rect, i: int, col: int, row: int)
    requires
        area.fits(),
        app.panel_changes().len() <= usize::MAX,
        0 <= i < change_areas(app, area).len(),
    ensures
        ({
            let section = changes_section(area, app.source_panel_split_rows as int);
            let shown = change_areas(app, area);
            let overflow = app.panel_changes().len() > section.height - 1;
            &&& shown[i].change_idx == app.source_panel_changes_scroll + i
            &&& shown[i].change_idx < app.panel_changes().len()
            &&& shown[i].rect.has_cell(col, row) <==> section.has_cell(col, row) && row == section.y
                + 1 + i && (overflow ==> col != section.x + section.width - 1)
        }),
{
    let section = changes_section(area, app.source_panel_split_rows as int);
    assert(section.fits());
}

/// As many changed files are shown as there are from the scroll on and as there is room
/// for, unless the panel is collapsed, shows the tree, or has no column for them.
pub proof fn law_shown_changes_count(app: AppState, area: Rect)
    requires
        area.fits(),
        app.panel_changes().len() <= usize::MAX,
    ensures
        ({
            let section = changes_section(area, app.source_panel_split_rows as int);
            let shown = change_areas(app, area).len();
            let overflow = section.height > 1 && app.panel_changes().len() > section.height - 1;
            let columns = section.width - if overflow {
                1int
            } else {
                0
            };
            let total = app.panel_changes().len();
            let scroll = app.source_panel_changes_scroll;
            &&& app.source_panel_collapsed || app.panel_mode() != SourcePanelMode::Source ==> shown
                == 0
            &&& columns <= 0 || section.height <= 1 || scroll >= total ==> shown == 0
            &&& !app.source_panel_collapsed && app.panel_mode() == SourcePanelMode::Source && columns
                > 0 && section.height > 1 && scroll < total ==> {
                ||| shown == total - scroll && shown <= section.height - 1
                ||| shown == section.height - 1 && shown <= total - scroll
            }
        }),
{
    let section = changes_section(area, app.source_panel_split_rows as int);
    assert(section.fits());
}

/// The shown rows of the graph are its rows from the scroll on, below each other from the
/// row below the header on.
pub proof fn law_shown_graph_rows(app: AppState, area: Rect, i: int, col: int, row: int)
    requires
        area.fits(),
        app.graph_list().len() <= usize::MAX,
        0 <= i < visible_graph_rows(app, area).len(),
    ensures
        ({
            let section = graph_section(area, app.source_panel_split_rows as int);
            let shown = visible_graph_rows(app, area);
            let overflow = app.graph_list().len() > section.height - 1;
            &&& app.source_panel_log_scroll + i < app.graph_list().len()
            &&& shown[i].0 == app.graph_list()[app.source_panel_log_scroll + i]
            &&& shown[i].1.has_cell(col, row) <==> section.has_cell(col, row) && row == section.y
                + 1 + i && (overflow ==> col != section.x + section.width - 1)
        }),
{
    let section = graph_section(area, app.source_panel_split_rows as int);
    assert(section.fits());
}

/// As many rows of the graph are shown as there are from the scroll on and as there is room
/// for, unless the panel is collapsed, shows the tree, or has no column for them.
pub proof fn law_shown_graph_rows_count(app: AppState, area: Rect)
    requires
        area.fits(),
        app.graph_list().len() <= usize::MAX,
    ensures
        ({
            let section = graph_section(area, app.source_panel_split_rows as int);
            let shown = visible_graph_rows(app, area).len();
            let overflow = section.height > 1 && app.graph_list().len() > section.height - 1;
            let columns = section.width - if overflow {
                1int
            } else {
                0
            };
            let total = app.graph_list().len();
            let scroll = app.source_panel_log_scroll;
            &&& app.source_panel_collapsed || app.panel_mode() != SourcePanelMode::Source ==> shown
                == 0
            &&& columns <= 0 || section.height <= 1 || scroll >= total ==> shown == 0
            &&& !app.source_panel_collapsed && app.panel_mode() == SourcePanelMode::Source && columns
                > 0 && section.height > 1 && scroll < total ==> {
                ||| shown == total - scroll && shown <= section.height - 1
                ||| shown == section.height - 1 && shown <= total - scroll
            }
        }),
{
    let section = graph_section(area, app.source_panel_split_rows as int);
    assert(section.fits());
}

/// The shown rows of the tree are its rows from the scroll on, below each other from the
/// row below the tree's header on.
pub proof fn law_shown_tree_rows(app: AppState, area: Rect, i: int, col: int, row: int)
    requires
        area.fits(),
        app.tree_list().len() <= usize::MAX,
        0 <= i < visible_tree_rows(app, area).len(),
    ensures
        ({
            let section = explorer_tree_of(area);
            let shown = visible_tree_rows(app, area);
            let overflow = app.tree_list().len() > section.height;
            &&& app.tree_scroll() + i < app.tree_list().len()
            &&& shown[i].0 == app.tree_list()[app.tree_scroll() + i]
            &&& shown[i].1.has_cell(col, row) <==> section.has_cell(col, row) && row == section.y + i
                && (overflow ==> col != section.x + section.width - 1)
        }),
{
    let section = explorer_tree_of(area);
    assert(section.fits());
}

/// As many rows of the tree are shown as there are from the scroll on and as there is room
/// for, unless the panel is collapsed, shows the repository, or has no column for them.
pub proof fn law_shown_tree_rows_count(app: AppState, area: Rect)
    requires
        area.fits(),
        app.tree_list().len() <= usize::MAX,
    ensures
        ({
            let section = explorer_tree_of(area);
            let shown = visible_tree_rows(app, area).len();
            let overflow = section.height > 0 && app.tree_list().len() > section.height;
            let columns = section.width - if overflow {
                1int
            } else {
                0
            };
            let total = app.tree_list().len();
            let scroll = app.tree_scroll();
            &&& app.source_panel_collapsed || app.panel_mode() != SourcePanelMode::Explorer
                ==> shown == 0
            &&& columns <= 0 || section.height == 0 || scroll >= total ==> shown == 0
            &&& !app.source_panel_collapsed && app.panel_mode() == SourcePanelMode::Explorer
                && columns > 0 && section.height > 0 && scroll < total ==> {
                ||| shown == total - scroll && shown <= section.height
                ||| shown == section.height && shown <= total - scroll
            }
        }),
{
    let section = explorer_tree_of(area);
    assert(section.fits());
}

/// A scrollbar is shown where a list does not fit and has room for one: over all rows of
/// the list, in the last column of its section.
pub proof fn law_scrollbar(section: Rect, body: Rect, metrics: ScrollMetrics, col: int, row: int)
    requires
        section.fits(),
        body.fits(),
        section.width > 0,
    ensures
        scrollbar_of(section, body, metrics) is Some <==> metrics.viewport_rows > 0
            && metrics.max_offset_from_bottom > 0 && body.width > 0 && body.height > 0,
        scrollbar_of(section, body, metrics) matches Some(bar) ==> (bar.has_cell(col, row) <==> col
            == section.x + section.width - 1 && body.y <= row < body.y + body.height),
{
}

/// Of the shown rows those of commits can be clicked as such, in their order, each where it
/// is shown.
pub proof fn law_clickable_commits(a: Seq<(GraphRow, Rect)>, b: Seq<(GraphRow, Rect)>, r: Rect)
    ensures
        commit_areas(a + b) == commit_areas(a) + commit_areas(b),
        forall|idx: usize| #[trigger]
            commit_areas(seq![(GraphRow::Commit { log_idx: idx }, r)]) == seq![
                SourcePanelCommitArea { rect: r, log_idx: idx },
            ],
        forall|idx: usize, file: usize| #[trigger]
            commit_areas(seq![(GraphRow::File { log_idx: idx, file_idx: file }, r)]).len() == 0,
        commit_areas(seq![(GraphRow::LoadMore, r)]).len() == 0,
    decreases b.len(),
{
    reveal_with_fuel(commit_areas, 2);
    assert forall|row: GraphRow| (#[trigger] seq![(row, r)]).drop_last() =~= Seq::<
        (GraphRow, Rect),
    >::empty() && seq![(row, r)].last() == (row, r) by {}
    assert forall|idx: usize| #[trigger]
        commit_areas(seq![(GraphRow::Commit { log_idx: idx }, r)]) == seq![
            SourcePanelCommitArea { rect: r, log_idx: idx },
        ] by {
        assert(commit_areas(seq![(GraphRow::Commit { log_idx: idx }, r)]) =~= seq![
            SourcePanelCommitArea { rect: r, log_idx: idx },
        ]);
    }
    if b.len() == 0 {
        assert(a + b =~= a);
        assert(commit_areas(a) + commit_areas(b) =~= commit_areas(a));
    } else {
        law_clickable_commits(a, b.drop_last(), r);
        assert((a + b).drop_last() =~= a + b.drop_last());
        assert((a + b).last() == b.last());
        assert(commit_areas(a + b) =~= commit_areas(a) + commit_areas(b));
    }
}

/// Of the shown rows those of files beneath commits can be clicked as such, in their order,
/// each where it is shown.
pub proof fn law_clickable_commit_files(
    a: Seq<(GraphRow, Rect)>,
    b: Seq<(GraphRow, Rect)>,
    r: Rect,
)
    ensures
        commit_file_areas(a + b) == commit_file_areas(a) + commit_file_areas(b),
        forall|idx: usize, file: usize| #[trigger]
            commit_file_areas(seq![(GraphRow::File { log_idx: idx, file_idx: file }, r)]) == seq![
                SourcePanelCommitFileArea { rect: r, log_idx: idx, file_idx: file },
            ],
        forall|idx: usize| #[trigger]
            commit_file_areas(seq![(GraphRow::Commit { log_idx: idx }, r)]).len() == 0,
        commit_file_areas(seq![(GraphRow::LoadMore, r)]).len() == 0,
    decreases b.len(),
{
    reveal_with_fuel(commit_file_areas, 2);
    assert forall|row: GraphRow| (#[trigger] seq![(row, r)]).drop_last() =~= Seq::<
        (GraphRow, Rect),
    >::empty() && seq![(row, r)].last() == (row, r) by {}
    assert forall|idx: usize, file: usize| #[trigger]
        commit_file_areas(seq![(GraphRow::File { log_idx: idx, file_idx: file }, r)]) == seq![
            SourcePanelCommitFileArea { rect: r, log_idx: idx, file_idx: file },
        ] by {
        assert(commit_file_areas(seq![(GraphRow::File { log_idx: idx, file_idx: file }, r)])
            =~= seq![SourcePanelCommitFileArea { rect: r, log_idx: idx, file_idx: file }]);
    }
    if b.len() == 0 {
        assert(a + b =~= a);
        assert(commit_file_areas(a) + commit_file_areas(b) =~= commit_file_areas(a));
    } else {
        law_clickable_commit_files(a, b.drop_last(), r);
        assert((a + b).drop_last() =~= a + b.drop_last());
        assert((a + b).last() == b.last());
        assert(commit_file_areas(a + b) =~= commit_file_areas(a) + commit_file_areas(b));
    }
}

/// The row that loads more can be clicked where it is shown, and nowhere without it.
pub proof fn law_clickable_load_more(rows: Seq<(GraphRow, Rect)>, i: int)
    requires
        0 <= i <= rows.len(),
        forall|j: int| 0 <= j < i ==> (#[trigger] rows[j]).0 != GraphRow::LoadMore,
        i < rows.len() ==> rows[i].0 == GraphRow::LoadMore,
    ensures
        i < rows.len() ==> load_more_area(rows) == rows[i].1,
        i == rows.len() ==> load_more_area(rows).width == 0 && load_more_area(rows).height == 0,
    decreases rows.len(),
{
    if i > 0 {
        let rest = rows.skip(1);
        assert forall|j: int| 0 <= j < i - 1 implies (#[trigger] rest[j]).0
            != GraphRow::LoadMore by {
            assert(rest[j] == rows[j + 1]);
        }
        assert(rows[0].0 != GraphRow::LoadMore);
        law_clickable_load_more(rest, i - 1);
    }
}

/// Of the shown rows of the tree the entries can be clicked, in their order, each where it
/// is shown; those that are directories can be expanded, and indicators cannot be clicked.
pub proof fn law_clickable_entries(a: Seq<(RowView, Rect)>, b: Seq<(RowView, Rect)>, r: Rect)
    ensures
        node_areas(a + b) == node_areas(a) + node_areas(b),
        forall|node: crate::file_tree::NodeView| #[trigger]
            node_areas(seq![(RowView::Node(node), r)]) == seq![
                NodeAreaView {
                    rect: r,
                    path: node.path,
                    expandable: node.kind == FileEntryKind::Directory,
                },
            ],
        forall|depth: nat| #[trigger] node_areas(seq![(RowView::Empty { depth }, r)]).len() == 0,
    decreases b.len(),
{
    reveal_with_fuel(node_areas, 2);
    assert forall|row: RowView| (#[trigger] seq![(row, r)]).drop_last() =~= Seq::<
        (RowView, Rect),
    >::empty() && seq![(row, r)].last() == (row, r) by {}
    assert forall|node: crate::file_tree::NodeView| #[trigger]
        node_areas(seq![(RowView::Node(node), r)]) == seq![
            NodeAreaView {
                rect: r,
                path: node.path,
                expandable: node.kind == FileEntryKind::Directory,
            },
        ] by {
        assert(node_areas(seq![(RowView::Node(node), r)]) =~= seq![
            NodeAreaView {
                rect: r,
                path: node.path,
                expandable: node.kind == FileEntryKind::Directory,
            },
        ]);
    }
    if b.len() == 0 {
        assert(a + b =~= a);
        assert(node_areas(a) + node_areas(b) =~= node_areas(a));
    } else {
        law_clickable_entries(a, b.drop_last(), r);
        assert((a + b).drop_last() =~= a + b.drop_last());
        assert((a + b).last() == b.last());
        assert(node_areas(a + b) =~= node_areas(a) + node_areas(b));
    }
}

/// An item is highlighted while the pane that shows it is in the active tab of the active
/// workspace, and no longer.
pub proof fn law_highlight(app: AppState, idx: usize, pane: PaneId)
    requires
        app.active == Some(idx),
        idx < app.workspaces@.len(),
        app.workspaces@[idx as int].active_tab < app.workspaces@[idx as int].tabs@.len(),
        app.source_panel_diff_pane == Some(pane),
    ensures
        ({
            let ws = app.workspaces@[idx as int];
            let open = ws.tabs@[ws.active_tab as int].layout.panes@.contains(pane);
            app.highlighted() == if open {
                app.source_panel_active_item
            } else {
                None
            }
        }),
        (AppState { source_panel_diff_pane: None, ..app }).highlighted() is None,
        (AppState { active: None, ..app }).highlighted() is None,
{
}

/// The panel has a workspace exactly where the one that it reflects is there.
pub proof fn law_panel_without_workspace(app: AppState)
    ensures
        app.panel_idx() is None ==> !app.has_panel_workspace(),
        app.panel_idx() matches Some(idx) ==> (app.has_panel_workspace() <==> idx
            < app.workspaces@.len()),
        app.active matches Some(idx) ==> idx >= app.workspaces@.len() ==> !app.diff_pane_is_live()
            && app.highlighted() is None,
{
}

} // verus!
