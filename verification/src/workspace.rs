//! Workspaces: their tabs and panes, what git reported about their repository,
//! and the state of their source panel.
use crate::file_tree::{cache_view, is_nested, FileTreeEntry};
use crate::ids::{IdMap, PaneId, TerminalId};
use crate::numbering::{is_compact, is_compaction, register_pane, unregister_pane};
use crate::path::{FsPath, PathKey};
use crate::path_map::{PathMap, PathSet};
use crate::source_control::{texts, ChangedFile, CommitInfo, DEFAULT_LOADED_COMMIT_COUNT};
use crate::tab::{
    is_new_tab, is_seen, is_with_pane, is_without_pane, NewPane, PaneState, Tab, TerminalState,
};
use crate::text::{digits, hexadecimal};
use vstd::prelude::*;

verus! {

/// Which of the source panel's two mutually-exclusive modes is showing for a
/// workspace. `Source` keeps the Changes-over-Graph git layout; `Explorer`
/// renders the workspace's file tree. Runtime-only: resets to `Source` on
/// launch and is never persisted.
#[derive(Debug, Clone, Copy, PartialEq, Eq, Structural)]
pub enum SourcePanelMode {
    Source,
    Explorer,
}

impl Default for SourcePanelMode {
    fn default() -> (mode: Self)
        ensures
            mode == SourcePanelMode::Source,
    {
        SourcePanelMode::Source
    }
}

/// The mode that is not `mode`.
pub open spec fn other_mode(mode: SourcePanelMode) -> SourcePanelMode {
    match mode {
        SourcePanelMode::Source => SourcePanelMode::Explorer,
        SourcePanelMode::Explorer => SourcePanelMode::Source,
    }
}

impl SourcePanelMode {
    /// The other mode, used by the mode toggle.
    pub fn toggled(self) -> (mode: Self)
        ensures
            mode == other_mode(self),
    {
        match self {
            SourcePanelMode::Source => SourcePanelMode::Explorer,
            SourcePanelMode::Explorer => SourcePanelMode::Source,
        }
    }
}

/// Toggling twice leads back, and toggling once never does.
pub proof fn law_toggling_alternates(mode: SourcePanelMode)
    ensures
        other_mode(mode) != mode,
        other_mode(other_mode(mode)) == mode,
{
}

/// Explicit worktree grouping provenance of a workspace.
#[derive(Debug, PartialEq, Eq)]
pub struct WorktreeSpaceMembership {
    pub key: String,
    pub label: String,
    pub repo_root: FsPath,
    pub checkout_path: FsPath,
    pub is_linked_worktree: bool,
}

/// Derived git repository metadata of a workspace.
#[derive(Debug, PartialEq, Eq)]
pub struct GitSpaceMetadata {
    pub key: String,
    pub label: String,
    pub repo_root: FsPath,
    pub checkout_path: FsPath,
    pub is_linked_worktree: bool,
}

/// What git reported about the repository of a workspace.
#[derive(Debug, PartialEq, Eq)]
pub struct WorkspaceGitStatus {
    pub workspace_id: String,
    pub resolved_identity_cwd: FsPath,
    pub branch: Option<String>,
    pub ahead_behind: Option<(usize, usize)>,
    pub space: Option<GitSpaceMetadata>,
    pub changes: Vec<ChangedFile>,
    pub log: Vec<CommitInfo>,
    pub log_has_more: bool,
    pub is_git_repo: bool,
}

/// What git reported about the repository of a directory.
#[derive(Debug, PartialEq, Eq)]
pub struct WorkspaceGitStatusSnapshot {
    pub branch: Option<String>,
    pub ahead_behind: Option<(usize, usize)>,
    pub space: Option<GitSpaceMetadata>,
    pub changes: Vec<ChangedFile>,
    pub log: Vec<CommitInfo>,
    pub log_has_more: bool,
    /// Whether the directory resolved to a usable git repository. Drives the
    /// source-control panel's "not a git repository" empty state.
    pub is_git_repo: bool,
}

impl WorkspaceGitStatusSnapshot {
    /// The snapshot as the status of a workspace.
    pub fn into_workspace_status(self, workspace_id: String, resolved_identity_cwd: FsPath) -> (
        status: WorkspaceGitStatus)
        ensures
            status == (WorkspaceGitStatus {
                workspace_id,
                resolved_identity_cwd,
                branch: self.branch,
                ahead_behind: self.ahead_behind,
                space: self.space,
                changes: self.changes,
                log: self.log,
                log_has_more: self.log_has_more,
                is_git_repo: self.is_git_repo,
            }),
    {
        WorkspaceGitStatus {
            workspace_id,
            resolved_identity_cwd,
            branch: self.branch,
            ahead_behind: self.ahead_behind,
            space: self.space,
            changes: self.changes,
            log: self.log,
            log_has_more: self.log_has_more,
            is_git_repo: self.is_git_repo,
        }
    }
}

/// The identity of a workspace that was made at the given time since the epoch,
/// in microseconds, as the given one of this process.
pub fn generate_workspace_id(micros: u128, counter: u64) -> (id: String)
    ensures
        id@ == seq!['w'] + digits(micros as nat, 16) + digits(counter as nat, 16),
{
    let mut id = "w".to_string();
    proof {
        reveal_strlit("w");
    }
    assert(id@ == seq!['w']);
    id.append(hexadecimal(micros).as_str());
    id.append(hexadecimal(counter as u128).as_str());
    id
}

/// The direction in which a pane is split.
#[derive(Debug, Clone, Copy, PartialEq, Eq, Structural)]
pub enum Direction {
    Horizontal,
    Vertical,
}

/// What it takes to start the first pane of a tab.
pub struct TabRequest {
    pub number: usize,
    pub cwd: FsPath,
    pub rows: u16,
    pub cols: u16,
    /// The command to run in place of a shell.
    pub argv: Option<Vec<String>>,
}

/// What it takes to start a pane beside another one.
pub struct SplitRequest {
    pub pane_id: PaneId,
    pub direction: Direction,
    pub cwd: Option<FsPath>,
    pub rows: u16,
    pub cols: u16,
    /// The command to run in place of a shell.
    pub argv: Option<Vec<String>>,
}

/// A named workspace containing tabs.
pub struct Workspace {
    /// Stable public workspace identity, independent of display order.
    pub id: String,
    /// User-provided override. If set, auto-derived identity stops updating.
    pub custom_name: Option<String>,
    /// Fallback workspace identity source for old snapshots or missing runtimes.
    pub identity_cwd: FsPath,
    /// Cached current git branch for the workspace repo.
    pub cached_git_branch: Option<String>,
    /// Cached ahead/behind counts for the workspace repo's current branch upstream.
    pub cached_git_ahead_behind: Option<(usize, usize)>,
    /// Cached derived git repo metadata for worktree actions and status display.
    pub cached_git_space: Option<GitSpaceMetadata>,
    /// Cached working-tree changes for the source-control panel.
    pub cached_changes: Vec<ChangedFile>,
    /// Cached commit graph (most recent `loaded_commit_count`) for the panel.
    pub cached_log: Vec<CommitInfo>,
    /// Number of commits the graph section loads. Bumped by "load more".
    pub loaded_commit_count: usize,
    /// Whether the repository has history beyond `cached_log`.
    pub cached_log_has_more: bool,
    /// Whether `identity_cwd` resolved to a usable git repository. Drives the
    /// source-control panel's "not a git repository" empty state.
    pub cached_is_git_repo: bool,
    /// Explicit worktree grouping provenance.
    pub worktree_space: Option<WorktreeSpaceMembership>,
    /// Stable-ish public pane numbers within this workspace.
    /// New panes append at the end; closing a pane compacts higher numbers down.
    pub public_pane_numbers: IdMap<usize>,
    pub next_public_pane_number: usize,
    pub tabs: Vec<Tab>,
    pub active_tab: usize,
    /// Which source-panel mode (Source / Explorer) is showing for this
    /// workspace. Runtime-only; resets to `Source` on launch (not persisted).
    pub source_panel_mode: SourcePanelMode,
    /// Explorer mode's own scroll offset, kept separate from the Source mode
    /// scroll so switching modes never disturbs the other's place.
    pub explorer_scroll: usize,
    /// The path of the last-clicked row, highlighted while it stays visible.
    pub explorer_selected: Option<FsPath>,
    /// The directory the Explorer tree is rooted at: the workspace's resolved
    /// working directory, set the first time the tree is built. Runtime-only.
    pub explorer_root: Option<FsPath>,
    /// Lazily-loaded children per directory (absolute path to sorted entries).
    /// The root's children load up front; a folder's children load the first
    /// time it is expanded. An unreadable directory caches as an empty list so
    /// its failed read is never retried. Runtime-only, per-workspace.
    pub explorer_cache: PathMap<Vec<FileTreeEntry>>,
    /// Folder paths the user has expanded. Runtime-only, per-workspace.
    pub explorer_expanded: PathSet,
}

/// Whether one of the tabs holds the pane.
pub open spec fn has_pane(tabs: Seq<Tab>, id: u64) -> bool {
    exists|i: int| 0 <= i < tabs.len() && (#[trigger] tabs[i]).panes@.contains_key(id)
}

/// The tabs, numbered by their positions.
pub open spec fn renumbered(tabs: Seq<Tab>) -> Seq<Tab> {
    tabs.map(|i: int, tab: Tab| Tab { number: (i + 1) as usize, ..tab })
}

/// No two tabs hold the same pane.
pub open spec fn panes_are_apart(tabs: Seq<Tab>) -> bool {
    forall|i: int, j: int, id: u64|
        0 <= i < j < tabs.len() && #[trigger] tabs[i].panes@.contains_key(id)
            ==> !#[trigger] tabs[j].panes@.contains_key(id)
}

impl Workspace {
    /// There is an active tab, the tabs are numbered by their positions, no pane is
    /// in two tabs, and the panes of the tabs are numbered without gaps.
    pub open spec fn tabs_wf(self) -> bool {
        &&& self.active_tab < self.tabs@.len()
        &&& forall|i: int|
            0 <= i < self.tabs@.len() ==> (#[trigger] self.tabs@[i]).wf() && self.tabs@[i].number
                == i + 1
        &&& panes_are_apart(self.tabs@)
        &&& forall|id: u64| #[trigger]
            self.public_pane_numbers@.contains_key(id) <==> has_pane(self.tabs@, id)
        &&& is_compact(self.public_pane_numbers@, self.next_public_pane_number)
    }

    /// Besides, the loaded entries of the Explorer lie in their directories.
    pub open spec fn wf(self) -> bool {
        &&& self.tabs_wf()
        &&& is_nested(cache_view(self.explorer_cache@))
    }

    /// Apart from the tabs, `self` is `other`.
    pub open spec fn same_but_tabs(self, other: Workspace) -> bool {
        self == (Workspace {
            public_pane_numbers: self.public_pane_numbers,
            next_public_pane_number: self.next_public_pane_number,
            tabs: self.tabs,
            active_tab: self.active_tab,
            ..other
        })
    }

    /// The active tab.
    pub fn active_tab(&self) -> (tab: Option<&Tab>)
        ensures
            tab is Some <==> self.active_tab < self.tabs@.len(),
            tab matches Some(t) ==> *t == self.tabs@[self.active_tab as int],
    {
        if self.active_tab < self.tabs.len() {
            Some(&self.tabs[self.active_tab])
        } else {
            None
        }
    }

    /// The position of the active tab.
    pub fn active_tab_index(&self) -> (idx: usize)
        ensures
            idx == self.active_tab,
    {
        self.active_tab
    }

    /// The active tab, to be changed.
    pub fn active_tab_mut(&mut self) -> (tab: Option<&mut Tab>)
        ensures
            tab is Some <==> old(self).active_tab < old(self).tabs@.len(),
            tab is None ==> *final(self) == *old(self),
            tab matches Some(t) ==> *t == old(self).tabs@[old(self).active_tab as int],
            tab matches Some(t) ==> final(self).tabs@ == old(self).tabs@.update(
                old(self).active_tab as int,
                *final(t),
            ),
            tab is Some ==> *final(self) == (Workspace { tabs: final(self).tabs, ..*old(self) }),
    {
        if self.active_tab < self.tabs.len() {
            Some(&mut self.tabs[self.active_tab])
        } else {
            None
        }
    }

    /// What the active tab is called.
    pub fn active_tab_display_name(&self) -> (name: Option<String>)
        ensures
            name is Some <==> self.active_tab < self.tabs@.len(),
            name matches Some(n) ==> n@ == self.tabs@[self.active_tab as int].label(),
    {
        match self.active_tab() {
            Some(tab) => Some(tab.display_name()),
            None => None,
        }
    }

    /// Makes the tab at `idx` the active one and marks its panes as seen.
    pub fn switch_tab(&mut self, idx: usize)
        ensures
            final(self).same_but_tabs(*old(self)),
            final(self).public_pane_numbers == old(self).public_pane_numbers,
            final(self).next_public_pane_number == old(self).next_public_pane_number,
            idx >= old(self).tabs@.len() ==> *final(self) == *old(self),
            idx < old(self).tabs@.len() ==> {
                &&& final(self).active_tab == idx
                &&& is_seen(old(self).tabs@[idx as int], final(self).tabs@[idx as int])
                &&& final(self).tabs@ == old(self).tabs@.update(
                    idx as int,
                    final(self).tabs@[idx as int],
                )
            },
            old(self).wf() ==> final(self).wf(),
    {
        if idx < self.tabs.len() {
            let ghost before = *self;
            self.active_tab = idx;
            self.tabs[idx].mark_seen();
            proof {
                assert(self.tabs@[idx as int].panes@.dom() =~= before.tabs@[idx as int].panes@.dom());
                if before.wf() {
                    lemma_same_panes(before.tabs@, self.tabs@);
                }
            }
        }
    }

    /// Numbers the tabs by their positions.
    fn renumber_tabs(&mut self)
        ensures
            final(self).tabs@ == renumbered(old(self).tabs@),
            *final(self) == (Workspace { tabs: final(self).tabs, ..*old(self) }),
    {
        let ghost before = self.tabs@;
        let ghost rest = *self;
        let mut i: usize = 0;
        while i < self.tabs.len()
            invariant
                i <= self.tabs@.len(),
                self.tabs@.len() == before.len(),
                *self == (Workspace { tabs: self.tabs, ..rest }),
                forall|j: int|
                    0 <= j < i ==> #[trigger] self.tabs@[j] == (Tab {
                        number: (j + 1) as usize,
                        ..before[j]
                    }),
                forall|j: int| i <= j < before.len() ==> #[trigger] self.tabs@[j] == before[j],
            decreases self.tabs@.len() - i,
        {
            self.tabs[i].number = i + 1;
            i += 1;
        }
        assert(self.tabs@ =~= renumbered(before));
    }

    /// Takes the tab at `idx` out of the list together with its panes, and chooses
    /// the tab that is active then.
    fn drop_tab(&mut self, idx: usize)
        requires
            old(self).tabs_wf(),
            old(self).tabs@.len() > 1,
            idx < old(self).tabs@.len(),
        ensures
            is_tab_closed(*old(self), *final(self), idx as int),
            final(self).tabs_wf(),
    {
        let ghost before = *self;
        let tab = self.tabs.remove(idx);
        let ids = tab.panes.ids();
        let ghost none: Set<u64> = Set::empty();
        let mut i: usize = 0;
        assert(ids@.take(0).to_set() =~= none);
        assert(before.public_pane_numbers@.dom().difference(none)
            =~= before.public_pane_numbers@.dom());
        while i < ids.len()
            invariant
                i <= ids@.len(),
                ids@.no_duplicates(),
                before.tabs_wf(),
                idx < before.tabs@.len(),
                tab == before.tabs@[idx as int],
                forall|k: u64| #[trigger] ids@.contains(k) <==> tab.panes@.contains_key(k),
                self.same_but_tabs(before),
                self.tabs@ == before.tabs@.remove(idx as int),
                self.active_tab == before.active_tab,
                is_compaction(
                    before.public_pane_numbers@,
                    self.public_pane_numbers@,
                    self.next_public_pane_number,
                    ids@.take(i as int).to_set(),
                ),
            decreases ids@.len() - i,
        {
            let id: u64 = ids[i];
            let ghost numbers = self.public_pane_numbers@;
            let ghost next = self.next_public_pane_number;
            let ghost gone = ids@.take(i as int).to_set();
            proof {
                assert(ids@.contains(id));
                assert(before.tabs@[idx as int].panes@.contains_key(id));
                assert(before.public_pane_numbers@.contains_key(id));
                assert(!gone.contains(id));
                assert(numbers.contains_key(id));
                crate::numbering::lemma_unregister(numbers, next, id);
            }
            unregister_pane(&mut self.public_pane_numbers, &mut self.next_public_pane_number, id);
            proof {
                crate::numbering::lemma_compactions_chain(
                    before.public_pane_numbers@,
                    numbers,
                    self.public_pane_numbers@,
                    next,
                    self.next_public_pane_number,
                    gone,
                    Set::empty().insert(id),
                );
                let longer = ids@.take(i + 1);
                assert(longer == ids@.take(i as int).push(id));
                assert forall|k: u64| #[trigger]
                    longer.to_set().contains(k) <==> gone.union(Set::empty().insert(id)).contains(
                        k,
                    ) by {
                    if longer.contains(k) {
                        let j = choose|j: int| 0 <= j < longer.len() && longer[j] == k;
                        if j < i {
                            assert(ids@.take(i as int)[j] == k);
                        }
                    }
                    if gone.contains(k) {
                        let j = choose|j: int| 0 <= j < i && ids@.take(i as int)[j] == k;
                        assert(longer[j] == k);
                    }
                    assert(longer[i as int] == id);
                }
                assert(longer.to_set() =~= gone.union(Set::empty().insert(id)));
            }
            i += 1;
        }
        self.renumber_tabs();
        if self.active_tab >= self.tabs.len() {
            self.active_tab = self.tabs.len() - 1;
        } else if idx <= self.active_tab && self.active_tab > 0 {
            self.active_tab = self.active_tab - 1;
        }
        proof {
            assert(ids@.take(i as int) == ids@);
            assert(ids@.to_set() =~= tab.panes@.dom());
            lemma_tabs_without(before.tabs@, idx as int);
            assert forall|id: u64| #[trigger]
                self.public_pane_numbers@.contains_key(id) <==> has_pane(self.tabs@, id) by {
                assert(before.public_pane_numbers@.contains_key(id) <==> has_pane(
                    before.tabs@,
                    id,
                ));
            }
            assert forall|j: int| 0 <= j < self.tabs@.len() implies (#[trigger] self.tabs@[j]).wf()
                && self.tabs@[j].number == j + 1 by {
                let k = if j < idx {
                    j
                } else {
                    j + 1
                };
                assert(before.tabs@[k].wf());
            }
        }
    }

    /// Closes the tab at `idx`, unless it is the only one. Tells whether it did.
    pub fn close_tab(&mut self, idx: usize) -> (closed: bool)
        requires
            old(self).wf(),
        ensures
            closed == (old(self).tabs@.len() > 1 && idx < old(self).tabs@.len()),
            !closed ==> *final(self) == *old(self),
            closed ==> is_tab_closed(*old(self), *final(self), idx as int),
            final(self).wf(),
    {
        if self.tabs.len() <= 1 || idx >= self.tabs.len() {
            return false;
        }
        self.drop_tab(idx);
        true
    }

    /// Closes the active tab, unless it is the only one. Tells whether it did.
    pub fn close_active_tab(&mut self) -> (closed: bool)
        requires
            old(self).wf(),
        ensures
            closed == (old(self).tabs@.len() > 1),
            !closed ==> *final(self) == *old(self),
            closed ==> is_tab_closed(*old(self), *final(self), old(self).active_tab as int),
            final(self).wf(),
    {
        self.close_tab(self.active_tab)
    }
}

/// The tab that is active after the one at `idx` has gone, with `left` tabs left.
pub open spec fn active_after_close(active: int, idx: int, left: int) -> int {
    if active >= left {
        left - 1
    } else if idx <= active && active > 0 {
        active - 1
    } else {
        active
    }
}

/// `after` is `before` without the tab at `idx` and its panes.
pub open spec fn is_tab_closed(before: Workspace, after: Workspace, idx: int) -> bool {
    &&& after.same_but_tabs(before)
    &&& after.tabs@ == renumbered(before.tabs@.remove(idx))
    &&& after.active_tab == active_after_close(
        before.active_tab as int,
        idx,
        before.tabs@.len() - 1,
    )
    &&& is_compaction(
        before.public_pane_numbers@,
        after.public_pane_numbers@,
        after.next_public_pane_number,
        before.tabs@[idx].panes@.dom(),
    )
}

/// Closing another tab than the active one leaves the active tab active.
pub proof fn law_closing_keeps_active(before: Workspace, after: Workspace, idx: int)
    requires
        before.wf(),
        before.tabs@.len() > 1,
        0 <= idx < before.tabs@.len(),
        idx != before.active_tab,
        is_tab_closed(before, after, idx),
    ensures
        after.tabs@[after.active_tab as int].root_pane
            == before.tabs@[before.active_tab as int].root_pane,
        after.tabs@[after.active_tab as int].panes
            == before.tabs@[before.active_tab as int].panes,
{
}

/// What is left of the tabs without the one at `idx`.
proof fn lemma_tabs_without(tabs: Seq<Tab>, idx: int)
    requires
        0 <= idx < tabs.len(),
        panes_are_apart(tabs),
    ensures
        panes_are_apart(renumbered(tabs.remove(idx))),
        forall|id: u64| #[trigger]
            has_pane(renumbered(tabs.remove(idx)), id) <==> has_pane(tabs, id)
                && !tabs[idx].panes@.contains_key(id),
{
    let left = renumbered(tabs.remove(idx));
    let from = |j: int|
        if j < idx {
            j
        } else {
            j + 1
        };
    assert forall|j: int| 0 <= j < left.len() implies (#[trigger] left[j]).panes == tabs[from(
        j,
    )].panes by {}
    assert forall|id: u64| #[trigger]
        has_pane(left, id) <==> has_pane(tabs, id) && !tabs[idx].panes@.contains_key(id) by {
        if has_pane(left, id) {
            let j = choose|j: int|
                0 <= j < left.len() && (#[trigger] left[j]).panes@.contains_key(id);
            assert(tabs[from(j)].panes@.contains_key(id));
        }
        if has_pane(tabs, id) && !tabs[idx].panes@.contains_key(id) {
            let i = choose|i: int|
                0 <= i < tabs.len() && (#[trigger] tabs[i]).panes@.contains_key(id);
            let j = if i < idx {
                i
            } else {
                i - 1
            };
            assert(left[j].panes == tabs[from(j)].panes);
            assert(left[j].panes@.contains_key(id));
        }
    }
    assert forall|i: int, j: int, id: u64|
        0 <= i < j < left.len() && #[trigger] left[i].panes@.contains_key(id) implies !(
    #[trigger] left[j].panes@.contains_key(id)) by {
        assert(tabs[from(i)].panes@.contains_key(id));
        assert(!tabs[from(j)].panes@.contains_key(id));
    }
}

/// Whether a pane is in a tab depends on the panes of the tabs alone.
proof fn lemma_same_panes(before: Seq<Tab>, after: Seq<Tab>)
    requires
        before.len() == after.len(),
        forall|i: int|
            0 <= i < before.len() ==> (#[trigger] after[i]).panes@.dom() == before[i].panes@.dom(),
    ensures
        forall|id: u64| #[trigger] has_pane(after, id) <==> has_pane(before, id),
        panes_are_apart(before) ==> panes_are_apart(after),
{
    assert forall|id: u64| #[trigger] has_pane(after, id) <==> has_pane(before, id) by {
        if has_pane(after, id) {
            let i = choose|i: int|
                0 <= i < after.len() && (#[trigger] after[i]).panes@.contains_key(id);
            assert(before[i].panes@.contains_key(id));
        }
        if has_pane(before, id) {
            let i = choose|i: int|
                0 <= i < before.len() && (#[trigger] before[i]).panes@.contains_key(id);
            assert(after[i].panes@.dom() == before[i].panes@.dom());
            assert(after[i].panes@.contains_key(id));
        }
    }
    if panes_are_apart(before) {
        assert forall|i: int, j: int, id: u64|
            0 <= i < j < after.len() && #[trigger] after[i].panes@.contains_key(id) implies !(
        #[trigger] after[j].panes@.contains_key(id)) by {
            assert(before[i].panes@.contains_key(id));
            assert(!before[j].panes@.contains_key(id));
        }
    }
}

/// The position of the first tab that holds the pane, or the number of tabs
/// without one.
pub open spec fn tab_place(tabs: Seq<Tab>, id: u64) -> int
    decreases tabs.len(),
{
    if tabs.len() == 0 || tabs[0].panes@.contains_key(id) {
        0
    } else {
        1 + tab_place(tabs.skip(1), id)
    }
}

/// What singles out the position that [`tab_place`] gives.
proof fn lemma_tab_place(tabs: Seq<Tab>, id: u64, i: int)
    requires
        0 <= i <= tabs.len(),
        forall|j: int| 0 <= j < i ==> !(#[trigger] tabs[j]).panes@.contains_key(id),
        i < tabs.len() ==> tabs[i].panes@.contains_key(id),
    ensures
        tab_place(tabs, id) == i,
    decreases tabs.len(),
{
    if i > 0 {
        let rest = tabs.skip(1);
        assert forall|j: int| 0 <= j < i - 1 implies !(#[trigger] rest[j]).panes@.contains_key(
            id,
        ) by {
            assert(rest[j] == tabs[j + 1]);
        }
        assert(!tabs[0].panes@.contains_key(id));
        lemma_tab_place(rest, id, i - 1);
    }
}

/// A pane that is there is found in a tab that holds it.
pub proof fn lemma_has_place(tabs: Seq<Tab>, id: u64)
    requires
        has_pane(tabs, id),
    ensures
        0 <= tab_place(tabs, id) < tabs.len(),
        tabs[tab_place(tabs, id)].panes@.contains_key(id),
    decreases tabs.len(),
{
    if !tabs[0].panes@.contains_key(id) {
        let rest = tabs.skip(1);
        let i = choose|i: int| 0 <= i < tabs.len() && (#[trigger] tabs[i]).panes@.contains_key(id);
        assert(rest[i - 1] == tabs[i]);
        lemma_has_place(rest, id);
    }
}

/// A pane is found in the tab that holds it.
pub proof fn lemma_place_of_tab(ws: Workspace, id: u64, idx: int)
    requires
        ws.tabs_wf(),
        0 <= idx < ws.tabs@.len(),
        ws.tabs@[idx].panes@.contains_key(id),
    ensures
        tab_place(ws.tabs@, id) == idx,
        has_pane(ws.tabs@, id),
{
    assert forall|j: int| 0 <= j < idx implies !(#[trigger] ws.tabs@[j]).panes@.contains_key(
        id,
    ) by {
        if ws.tabs@[j].panes@.contains_key(id) {
            assert(!ws.tabs@[idx].panes@.contains_key(id));
        }
    }
    lemma_tab_place(ws.tabs@, id, idx);
}

/// `after` is `before` without a pane of the tab at `idx`, which keeps others.
pub open spec fn is_pane_closed(
    before: Workspace,
    after: Workspace,
    idx: int,
    pane_id: PaneId,
) -> bool {
    &&& after.same_but_tabs(before)
    &&& after.active_tab == before.active_tab
    &&& after.tabs@ == before.tabs@.update(idx, after.tabs@[idx])
    &&& is_without_pane(before.tabs@[idx], after.tabs@[idx], pane_id)
    &&& is_compaction(
        before.public_pane_numbers@,
        after.public_pane_numbers@,
        after.next_public_pane_number,
        Set::empty().insert(pane_id.raw),
    )
}

/// What becomes of a workspace when a pane leaves it: nothing without the pane, or
/// where it is all that is left (the workspace should close then); its tab goes
/// with it where it is alone there.
pub open spec fn is_pane_gone(
    before: Workspace,
    after: Workspace,
    pane_id: PaneId,
    should_close: bool,
) -> bool {
    let idx = tab_place(before.tabs@, pane_id.raw);
    if !has_pane(before.tabs@, pane_id.raw) {
        !should_close && after == before
    } else if before.tabs@[idx].layout.panes@.len() > 1 {
        !should_close && is_pane_closed(before, after, idx, pane_id)
    } else if before.tabs@.len() > 1 {
        !should_close && is_tab_closed(before, after, idx)
    } else {
        should_close && after == before
    }
}

impl Workspace {
    /// The position of the tab that holds the pane.
    pub fn find_tab_index_for_pane(&self, pane_id: PaneId) -> (idx: Option<usize>)
        ensures
            idx is Some <==> has_pane(self.tabs@, pane_id.raw),
            idx matches Some(i) ==> i == tab_place(self.tabs@, pane_id.raw) && i < self.tabs@.len()
                && self.tabs@[i as int].panes@.contains_key(pane_id.raw),
    {
        let mut i: usize = 0;
        while i < self.tabs.len()
            invariant
                i <= self.tabs@.len(),
                forall|j: int|
                    0 <= j < i ==> !(#[trigger] self.tabs@[j]).panes@.contains_key(pane_id.raw),
            decreases self.tabs@.len() - i,
        {
            if self.tabs[i].panes.contains_key(pane_id.raw) {
                proof {
                    lemma_tab_place(self.tabs@, pane_id.raw, i as int);
                }
                return Some(i);
            }
            i += 1;
        }
        None
    }

    /// The state of a pane, wherever it is.
    pub fn pane_state(&self, pane_id: PaneId) -> (state: Option<&PaneState>)
        ensures
            state is Some <==> has_pane(self.tabs@, pane_id.raw),
            state matches Some(s) ==> *s == self.tabs@[tab_place(
                self.tabs@,
                pane_id.raw,
            )].panes@[pane_id.raw],
    {
        match self.find_tab_index_for_pane(pane_id) {
            Some(idx) => self.tabs[idx].panes.get(pane_id.raw),
            None => None,
        }
    }

    /// The terminal that a pane shows, wherever it is.
    pub fn terminal_id(&self, pane_id: PaneId) -> (id: Option<&TerminalId>)
        ensures
            id is Some <==> has_pane(self.tabs@, pane_id.raw),
            id matches Some(t) ==> *t == self.tabs@[tab_place(
                self.tabs@,
                pane_id.raw,
            )].panes@[pane_id.raw].terminal_id,
    {
        match self.find_tab_index_for_pane(pane_id) {
            Some(idx) => self.tabs[idx].terminal_id(pane_id),
            None => None,
        }
    }

    /// The pane with the focus in the active tab.
    pub fn focused_pane_id(&self) -> (id: Option<PaneId>)
        ensures
            id == if self.active_tab < self.tabs@.len() {
                Some(self.tabs@[self.active_tab as int].layout.focus)
            } else {
                None
            },
    {
        match self.active_tab() {
            Some(tab) => Some(tab.layout.focused()),
            None => None,
        }
    }

    /// The number under which a pane is known.
    pub fn public_pane_number(&self, pane_id: PaneId) -> (number: Option<usize>)
        ensures
            number is Some <==> self.public_pane_numbers@.contains_key(pane_id.raw),
            number matches Some(n) ==> n == self.public_pane_numbers@[pane_id.raw],
    {
        match self.public_pane_numbers.get(pane_id.raw) {
            Some(number) => Some(*number),
            None => None,
        }
    }

    /// Takes a pane out of a tab that keeps others.
    fn drop_pane(&mut self, idx: usize, pane_id: PaneId)
        requires
            old(self).tabs_wf(),
            idx < old(self).tabs@.len(),
            old(self).tabs@[idx as int].panes@.contains_key(pane_id.raw),
            old(self).tabs@[idx as int].layout.panes@.len() > 1,
        ensures
            is_pane_closed(*old(self), *final(self), idx as int, pane_id),
            final(self).tabs_wf(),
    {
        let ghost before = *self;
        let ghost numbers = self.public_pane_numbers@;
        assert(before.tabs@[idx as int].wf());
        assert(before.tabs@[idx as int].layout.panes@.contains(pane_id));
        let removed = self.tabs[idx].remove_pane(pane_id);
        assert(removed is Some);
        proof {
            assert(has_pane(before.tabs@, pane_id.raw));
            assert(numbers.contains_key(pane_id.raw));
            crate::numbering::lemma_unregister(numbers, self.next_public_pane_number, pane_id.raw);
        }
        unregister_pane(
            &mut self.public_pane_numbers,
            &mut self.next_public_pane_number,
            pane_id.raw,
        );
        proof {
            let after = self.tabs@;
            assert forall|id: u64| #[trigger]
                self.public_pane_numbers@.contains_key(id) <==> has_pane(after, id) by {
                assert(numbers.contains_key(id) <==> has_pane(before.tabs@, id));
                if has_pane(after, id) {
                    let i = choose|i: int|
                        0 <= i < after.len() && (#[trigger] after[i]).panes@.contains_key(id);
                    assert(before.tabs@[i].panes@.contains_key(id));
                    if id == pane_id.raw {
                        if i < idx {
                            assert(!before.tabs@[idx as int].panes@.contains_key(id));
                        } else if i > idx {
                            assert(!before.tabs@[i].panes@.contains_key(id));
                        }
                    }
                }
                if has_pane(before.tabs@, id) && id != pane_id.raw {
                    let i = choose|i: int|
                        0 <= i < before.tabs@.len() && (
                        #[trigger] before.tabs@[i]).panes@.contains_key(id);
                    assert(after[i].panes@.contains_key(id));
                }
            }
            assert forall|i: int, j: int, id: u64|
                0 <= i < j < after.len() && #[trigger] after[i].panes@.contains_key(id) implies !(
            #[trigger] after[j].panes@.contains_key(id)) by {
                assert(before.tabs@[i].panes@.contains_key(id));
                assert(!before.tabs@[j].panes@.contains_key(id));
            }
        }
    }

    /// Takes a pane out of the workspace.
    fn take_pane(&mut self, pane_id: PaneId) -> (should_close: bool)
        requires
            old(self).wf(),
        ensures
            is_pane_gone(*old(self), *final(self), pane_id, should_close),
            final(self).wf(),
    {
        let idx: usize = match self.find_tab_index_for_pane(pane_id) {
            Some(idx) => idx,
            None => {
                return false;
            },
        };
        let pane_count: usize = self.tabs[idx].layout.pane_count();
        let tab_count: usize = self.tabs.len();
        if pane_count <= 1 {
            if tab_count <= 1 {
                return true;
            }
            self.drop_tab(idx);
            return false;
        }
        self.drop_pane(idx, pane_id);
        false
    }

    /// Remove a specific pane from this workspace without terminating its runtime.
    /// Returns true if the workspace should close.
    pub fn remove_pane(&mut self, pane_id: PaneId) -> (should_close: bool)
        requires
            old(self).wf(),
        ensures
            is_pane_gone(*old(self), *final(self), pane_id, should_close),
            final(self).wf(),
    {
        self.take_pane(pane_id)
    }

    /// Close a specific pane. Returns true if the workspace should close.
    pub fn close_pane(&mut self, pane_id: PaneId) -> (should_close: bool)
        requires
            old(self).wf(),
        ensures
            is_pane_gone(*old(self), *final(self), pane_id, should_close),
            final(self).wf(),
    {
        self.take_pane(pane_id)
    }

    /// Close the focused pane. Returns true if the workspace should close.
    pub fn close_focused(&mut self) -> (should_close: bool)
        requires
            old(self).wf(),
        ensures
            is_pane_gone(
                *old(self),
                *final(self),
                old(self).tabs@[old(self).active_tab as int].layout.focus,
                should_close,
            ),
            final(self).wf(),
    {
        let ghost tab = self.tabs@[self.active_tab as int];
        assert(tab.wf());
        assert(tab.panes@.contains_key(tab.layout.focus.raw));
        proof {
            lemma_place_of_tab(*self, tab.layout.focus.raw, self.active_tab as int);
        }
        let focus = self.tabs[self.active_tab].layout.focused();
        let pane_count: usize = self.tabs[self.active_tab].layout.pane_count();
        let tab_count: usize = self.tabs.len();
        if pane_count <= 1 {
            if tab_count <= 1 {
                return true;
            }
            let _ = self.close_active_tab();
            return false;
        }
        self.drop_pane(self.active_tab, focus);
        false
    }
}

/// Where a list entry goes that is taken out and put back in front of what stood
/// at `insert_idx`.
pub open spec fn move_target(source_idx: int, insert_idx: int) -> int {
    if source_idx < insert_idx {
        insert_idx - 1
    } else {
        insert_idx
    }
}

/// Where the entry at `at` stands after the one at `source` has moved to `target`.
pub open spec fn moved_place(at: int, source: int, target: int) -> int {
    if at == source {
        target
    } else if source < at <= target {
        at - 1
    } else if target <= at < source {
        at + 1
    } else {
        at
    }
}

impl Workspace {
    /// Moves the tab at `source_idx` in front of the one at `insert_idx`, or behind
    /// all where that is the number of tabs. The active tab stays the active one.
    /// Tells whether anything moved.
    pub fn move_tab(&mut self, source_idx: usize, insert_idx: usize) -> (moved: bool)
        requires
            old(self).wf(),
        ensures
            moved == (source_idx < old(self).tabs@.len() && insert_idx <= old(self).tabs@.len()
                && source_idx != target_within(
                source_idx as int,
                insert_idx as int,
                old(self).tabs@.len() as int,
            )),
            !moved ==> *final(self) == *old(self),
            moved ==> {
                let target = target_within(
                    source_idx as int,
                    insert_idx as int,
                    old(self).tabs@.len() as int,
                );
                &&& final(self).same_but_tabs(*old(self))
                &&& final(self).public_pane_numbers == old(self).public_pane_numbers
                &&& final(self).next_public_pane_number == old(self).next_public_pane_number
                &&& final(self).tabs@ == renumbered(
                    old(self).tabs@.remove(source_idx as int).insert(
                        target,
                        old(self).tabs@[source_idx as int],
                    ),
                )
                &&& final(self).active_tab == moved_place(
                    old(self).active_tab as int,
                    source_idx as int,
                    target,
                )
                &&& final(self).tabs@[final(self).active_tab as int].root_pane
                    == old(self).tabs@[old(self).active_tab as int].root_pane
            },
            final(self).wf(),
    {
        if source_idx >= self.tabs.len() || insert_idx > self.tabs.len() {
            return false;
        }
        let wanted: usize = if source_idx < insert_idx {
            insert_idx - 1
        } else {
            insert_idx
        };
        let target_idx: usize = if wanted > self.tabs.len() - 1 {
            self.tabs.len() - 1
        } else {
            wanted
        };
        if source_idx == target_idx {
            return false;
        }
        let ghost before = *self;
        let active_root_pane = self.tabs[self.active_tab].root_pane;
        let tab = self.tabs.remove(source_idx);
        self.tabs.insert(target_idx, tab);
        self.renumber_tabs();
        proof {
            lemma_moved_panes(before.tabs@, self.tabs@, source_idx as int, target_idx as int);
            lemma_moved_root_pane(
                before.tabs@,
                self.tabs@,
                source_idx as int,
                target_idx as int,
                before.active_tab as int,
            );
        }
        self.active_tab = match self.find_root_pane(active_root_pane) {
            Some(idx) => idx,
            None => target_idx,
        };
        true
    }

    /// The position of the first tab with the given root pane.
    fn find_root_pane(&self, pane_id: PaneId) -> (idx: Option<usize>)
        ensures
            idx is None ==> forall|j: int|
                0 <= j < self.tabs@.len() ==> (#[trigger] self.tabs@[j]).root_pane != pane_id,
            idx matches Some(i) ==> i < self.tabs@.len() && self.tabs@[i as int].root_pane
                == pane_id,
    {
        let mut i: usize = 0;
        while i < self.tabs.len()
            invariant
                i <= self.tabs@.len(),
                forall|j: int| 0 <= j < i ==> (#[trigger] self.tabs@[j]).root_pane != pane_id,
            decreases self.tabs@.len() - i,
        {
            if self.tabs[i].root_pane == pane_id {
                return Some(i);
            }
            i += 1;
        }
        None
    }
}

/// `after` is `before` with the tab at `source` moved to `target`.
spec fn is_tab_moved(before: Seq<Tab>, after: Seq<Tab>, source: int, target: int) -> bool {
    &&& 0 <= source < before.len()
    &&& 0 <= target < before.len()
    &&& after == renumbered(before.remove(source).insert(target, before[source]))
}

/// Where the tab at `at` was before the one at `source` moved to `target`.
spec fn place_before(at: int, source: int, target: int) -> int {
    moved_place(at, target, source)
}

/// Each tab after the move is the one that stood at its place before, numbered anew.
proof fn lemma_moved_tab(before: Seq<Tab>, after: Seq<Tab>, source: int, target: int, j: int)
    requires
        is_tab_moved(before, after, source, target),
        0 <= j < before.len(),
    ensures
        after.len() == before.len(),
        0 <= place_before(j, source, target) < before.len(),
        after[j] == (Tab {
            number: (j + 1) as usize,
            ..before[place_before(j, source, target)]
        }),
{
    let rest = before.remove(source);
    let moved = rest.insert(target, before[source]);
    assert(moved[j] == before[place_before(j, source, target)]);
}

/// Moving a tab keeps which panes the tabs hold, and numbers the tabs by their
/// positions.
proof fn lemma_moved_panes(before: Seq<Tab>, after: Seq<Tab>, source: int, target: int)
    requires
        is_tab_moved(before, after, source, target),
        before.len() <= usize::MAX,
        panes_are_apart(before),
        forall|i: int| 0 <= i < before.len() ==> (#[trigger] before[i]).wf(),
    ensures
        after.len() == before.len(),
        panes_are_apart(after),
        forall|id: u64| #[trigger] has_pane(after, id) <==> has_pane(before, id),
        forall|j: int|
            0 <= j < after.len() ==> (#[trigger] after[j]).wf() && after[j].number == j + 1,
{
    let from = |j: int| place_before(j, source, target);
    let to = |i: int| moved_place(i, source, target);
    assert forall|j: int| 0 <= j < before.len() implies after.len() == before.len() && 0
        <= #[trigger] from(j) < before.len() && after[j].panes == before[from(j)].panes by {
        lemma_moved_tab(before, after, source, target, j);
    }
    lemma_moved_tab(before, after, source, target, source);
    lemma_tabs_moved(before, after, from, to);
    assert forall|j: int| 0 <= j < after.len() implies (#[trigger] after[j]).wf()
        && after[j].number == j + 1 by {
        lemma_moved_tab(before, after, source, target, j);
        assert(before[from(j)].wf());
    }
}

/// Only the tab that stood at `at` has its root pane after the move.
proof fn lemma_moved_root_pane(
    before: Seq<Tab>,
    after: Seq<Tab>,
    source: int,
    target: int,
    at: int,
)
    requires
        is_tab_moved(before, after, source, target),
        panes_are_apart(before),
        forall|i: int| 0 <= i < before.len() ==> (#[trigger] before[i]).wf(),
        0 <= at < before.len(),
    ensures
        0 <= moved_place(at, source, target) < after.len(),
        after[moved_place(at, source, target)].root_pane == before[at].root_pane,
        forall|j: int|
            0 <= j < after.len() && (#[trigger] after[j]).root_pane == before[at].root_pane ==> j
                == moved_place(at, source, target),
{
    let place = moved_place(at, source, target);
    lemma_moved_tab(before, after, source, target, place);
    assert forall|j: int|
        0 <= j < after.len() && (#[trigger] after[j]).root_pane
            == before[at].root_pane implies j == place by {
        lemma_moved_tab(before, after, source, target, j);
        let i = place_before(j, source, target);
        assert(before[i].wf() && before[at].wf());
        let id = before[at].root_pane.raw;
        assert(before[i].panes@.contains_key(id));
        assert(before[at].panes@.contains_key(id));
    }
}

/// [`move_target`], kept within a list of `len` entries.
pub open spec fn target_within(source_idx: int, insert_idx: int, len: int) -> int {
    if move_target(source_idx, insert_idx) > len - 1 {
        len - 1
    } else {
        move_target(source_idx, insert_idx)
    }
}

/// Moving tabs around changes nothing about which panes they hold.
proof fn lemma_tabs_moved(
    before: Seq<Tab>,
    after: Seq<Tab>,
    from: spec_fn(int) -> int,
    to: spec_fn(int) -> int,
)
    requires
        before.len() == after.len(),
        panes_are_apart(before),
        forall|j: int|
            0 <= j < after.len() ==> 0 <= #[trigger] from(j) < before.len() && after[j].panes
                == before[from(j)].panes,
        forall|i: int, j: int|
            0 <= i < j < after.len() ==> #[trigger] from(i) != #[trigger] from(j),
        forall|i: int|
            0 <= i < before.len() ==> 0 <= #[trigger] to(i) < after.len() && from(to(i)) == i,
    ensures
        panes_are_apart(after),
        forall|id: u64| #[trigger] has_pane(after, id) <==> has_pane(before, id),
{
    assert forall|id: u64| #[trigger] has_pane(after, id) <==> has_pane(before, id) by {
        if has_pane(after, id) {
            let j = choose|j: int|
                0 <= j < after.len() && (#[trigger] after[j]).panes@.contains_key(id);
            assert(before[from(j)].panes@.contains_key(id));
        }
        if has_pane(before, id) {
            let i = choose|i: int|
                0 <= i < before.len() && (#[trigger] before[i]).panes@.contains_key(id);
            assert(from(to(i)) == i);
            assert(after[to(i)].panes@.contains_key(id));
        }
    }
    assert forall|i: int, j: int, id: u64|
        0 <= i < j < after.len() && #[trigger] after[i].panes@.contains_key(id) implies !(
    #[trigger] after[j].panes@.contains_key(id)) by {
        let a = from(i);
        let b = from(j);
        assert(before[a].panes@.contains_key(id));
        if before[b].panes@.contains_key(id) {
            if a < b {
                assert(!before[b].panes@.contains_key(id));
            } else {
                assert(!before[a].panes@.contains_key(id));
            }
        }
    }
}

/// The texts of a command, if there is one.
pub open spec fn argv_view(argv: Option<Vec<String>>) -> Option<Seq<Seq<char>>> {
    match argv {
        Some(list) => Some(texts(list@)),
        None => None,
    }
}

/// The bytes of a path, if there is one.
pub open spec fn path_view(path: Option<FsPath>) -> Option<Seq<u8>> {
    match path {
        Some(p) => Some(p@),
        None => None,
    }
}

/// `request` asks for the first pane of a tab.
pub open spec fn is_tab_request(
    request: TabRequest,
    number: nat,
    cwd: Seq<u8>,
    rows: u16,
    cols: u16,
    argv: Option<Seq<Seq<char>>>,
) -> bool {
    &&& request.number == number
    &&& request.cwd@ == cwd
    &&& request.rows == rows
    &&& request.cols == cols
    &&& argv_view(request.argv) == argv
}

/// `request` asks for a pane beside `pane_id`.
pub open spec fn is_split_request(
    request: SplitRequest,
    pane_id: PaneId,
    direction: Direction,
    cwd: Option<Seq<u8>>,
    rows: u16,
    cols: u16,
    argv: Option<Seq<Seq<char>>>,
) -> bool {
    &&& request.pane_id == pane_id
    &&& request.direction == direction
    &&& path_view(request.cwd) == cwd
    &&& request.rows == rows
    &&& request.cols == cols
    &&& argv_view(request.argv) == argv
}

/// `ws` is a workspace as it is made: one tab with one pane, nothing loaded or
/// expanded, and the panel in its Source mode.
pub open spec fn is_new_workspace(
    ws: Workspace,
    id: String,
    cwd: Seq<u8>,
    branch: Option<String>,
    is_git_repo: bool,
    pane: NewPane,
) -> bool {
    &&& ws.id == id
    &&& ws.custom_name is None
    &&& ws.identity_cwd@ == cwd
    &&& ws.cached_git_branch == branch
    &&& ws.cached_git_ahead_behind is None
    &&& ws.cached_git_space is None
    &&& ws.cached_changes@.len() == 0
    &&& ws.cached_log@.len() == 0
    &&& ws.loaded_commit_count == DEFAULT_LOADED_COMMIT_COUNT
    &&& !ws.cached_log_has_more
    &&& ws.cached_is_git_repo == is_git_repo
    &&& ws.worktree_space is None
    &&& ws.public_pane_numbers@ == Map::<u64, usize>::empty().insert(pane.pane_id.raw, 1)
    &&& ws.next_public_pane_number == 2
    &&& ws.tabs@.len() == 1
    &&& is_new_tab(ws.tabs@[0], 1, pane)
    &&& ws.active_tab == 0
    &&& ws.source_panel_mode == SourcePanelMode::Source
    &&& ws.explorer_scroll == 0
    &&& ws.explorer_selected is None
    &&& ws.explorer_root is None
    &&& ws.explorer_cache@ == Map::<PathKey, Vec<FileTreeEntry>>::empty()
    &&& ws.explorer_expanded@ == Set::<PathKey>::empty()
}

/// `after` is `before` with a further tab that holds the given pane.
pub open spec fn is_tab_created(before: Workspace, after: Workspace, pane: NewPane) -> bool {
    &&& after.same_but_tabs(before)
    &&& after.active_tab == before.active_tab
    &&& after.tabs@.len() == before.tabs@.len() + 1
    &&& after.tabs@.drop_last() == before.tabs@
    &&& is_new_tab(after.tabs@.last(), before.tabs@.len() + 1, pane)
    &&& after.public_pane_numbers@ == before.public_pane_numbers@.insert(
        pane.pane_id.raw,
        before.next_public_pane_number,
    )
    &&& after.next_public_pane_number == before.next_public_pane_number + 1
}

/// `after` is `before` with a further pane in the tab at `idx`, right behind
/// `target`.
pub open spec fn is_pane_added(
    before: Workspace,
    after: Workspace,
    idx: int,
    target: PaneId,
    pane: NewPane,
    focus_new_pane: bool,
) -> bool {
    &&& after.same_but_tabs(before)
    &&& after.active_tab == before.active_tab
    &&& after.tabs@ == before.tabs@.update(idx, after.tabs@[idx])
    &&& is_with_pane(before.tabs@[idx], after.tabs@[idx], target, pane, focus_new_pane)
    &&& after.public_pane_numbers@ == before.public_pane_numbers@.insert(
        pane.pane_id.raw,
        before.next_public_pane_number,
    )
    &&& after.next_public_pane_number == before.next_public_pane_number + 1
}

impl Workspace {
    /// A workspace with one tab that runs a shell. `spawn` starts the pane of the
    /// tab; where it fails there is no workspace.
    pub fn new<E, F: FnOnce(TabRequest) -> Result<NewPane, E>>(
        id: String,
        initial_cwd: FsPath,
        rows: u16,
        cols: u16,
        branch: Option<String>,
        is_git_repo: bool,
        spawn: F,
    ) -> (result: Result<Workspace, E>)
        requires
            forall|request: TabRequest|
                is_tab_request(request, 1, initial_cwd@, rows, cols, None) ==> #[trigger]
                    call_requires(spawn, (request,)),
        ensures
            exists|request: TabRequest, outcome: Result<NewPane, E>| #[trigger]
                call_ensures(spawn, (request,), outcome) && is_tab_request(
                    request,
                    1,
                    initial_cwd@,
                    rows,
                    cols,
                    None,
                ) && match outcome {
                    Ok(pane) => result matches Ok(ws) && is_new_workspace(
                        ws,
                        id,
                        initial_cwd@,
                        branch,
                        is_git_repo,
                        pane,
                    ),
                    Err(e) => result == Err::<Workspace, E>(e),
                },
            result matches Ok(ws) ==> ws.wf(),
    {
        Self::new_with_tab(id, initial_cwd, rows, cols, branch, is_git_repo, None, spawn)
    }

    /// A workspace with one tab that runs the given command.
    pub fn new_argv_command<E, F: FnOnce(TabRequest) -> Result<NewPane, E>>(
        id: String,
        initial_cwd: FsPath,
        rows: u16,
        cols: u16,
        argv: Vec<String>,
        branch: Option<String>,
        is_git_repo: bool,
        spawn: F,
    ) -> (result: Result<Workspace, E>)
        requires
            forall|request: TabRequest|
                is_tab_request(request, 1, initial_cwd@, rows, cols, Some(texts(argv@)))
                    ==> #[trigger] call_requires(spawn, (request,)),
        ensures
            exists|request: TabRequest, outcome: Result<NewPane, E>| #[trigger]
                call_ensures(spawn, (request,), outcome) && is_tab_request(
                    request,
                    1,
                    initial_cwd@,
                    rows,
                    cols,
                    Some(texts(argv@)),
                ) && match outcome {
                    Ok(pane) => result matches Ok(ws) && is_new_workspace(
                        ws,
                        id,
                        initial_cwd@,
                        branch,
                        is_git_repo,
                        pane,
                    ),
                    Err(e) => result == Err::<Workspace, E>(e),
                },
            result matches Ok(ws) ==> ws.wf(),
    {
        Self::new_with_tab(id, initial_cwd, rows, cols, branch, is_git_repo, Some(argv), spawn)
    }

    fn new_with_tab<E, F: FnOnce(TabRequest) -> Result<NewPane, E>>(
        id: String,
        initial_cwd: FsPath,
        rows: u16,
        cols: u16,
        branch: Option<String>,
        is_git_repo: bool,
        argv: Option<Vec<String>>,
        spawn: F,
    ) -> (result: Result<Workspace, E>)
        requires
            forall|request: TabRequest|
                is_tab_request(request, 1, initial_cwd@, rows, cols, argv_view(argv))
                    ==> #[trigger] call_requires(spawn, (request,)),
        ensures
            exists|request: TabRequest, outcome: Result<NewPane, E>| #[trigger]
                call_ensures(spawn, (request,), outcome) && is_tab_request(
                    request,
                    1,
                    initial_cwd@,
                    rows,
                    cols,
                    argv_view(argv),
                ) && match outcome {
                    Ok(pane) => result matches Ok(ws) && is_new_workspace(
                        ws,
                        id,
                        initial_cwd@,
                        branch,
                        is_git_repo,
                        pane,
                    ),
                    Err(e) => result == Err::<Workspace, E>(e),
                },
            result matches Ok(ws) ==> ws.wf(),
    {
        let request = TabRequest { number: 1, cwd: initial_cwd.clone(), rows, cols, argv };
        let ghost asked = request;
        let outcome = spawn(request);
        let ghost given = outcome;
        assert(call_ensures(spawn, (asked,), given));
        let pane = match outcome {
            Ok(pane) => pane,
            Err(e) => {
                return Err(e);
            },
        };
        let tab = Tab::new(1, pane);
        let mut public_pane_numbers: IdMap<usize> = IdMap::new();
        public_pane_numbers.insert(pane.pane_id.raw, 1);
        let mut tabs: Vec<Tab> = Vec::new();
        tabs.push(tab);
        let ws = Workspace {
            id,
            custom_name: None,
            identity_cwd: initial_cwd,
            cached_git_branch: branch,
            cached_git_ahead_behind: None,
            cached_git_space: None,
            cached_changes: Vec::new(),
            cached_log: Vec::new(),
            loaded_commit_count: DEFAULT_LOADED_COMMIT_COUNT,
            cached_log_has_more: false,
            cached_is_git_repo: is_git_repo,
            worktree_space: None,
            public_pane_numbers,
            next_public_pane_number: 2,
            tabs,
            active_tab: 0,
            source_panel_mode: SourcePanelMode::Source,
            explorer_scroll: 0,
            explorer_selected: None,
            explorer_root: None,
            explorer_cache: PathMap::new(),
            explorer_expanded: PathSet::new(),
        };
        proof {
            assert(ws.tabs@[0] == tab);
            assert forall|k: u64| #[trigger]
                ws.public_pane_numbers@.contains_key(k) <==> has_pane(ws.tabs@, k) by {
                if k == pane.pane_id.raw {
                    assert(ws.tabs@[0].panes@.contains_key(k));
                }
            }
            let numbers = ws.public_pane_numbers@;
            assert(numbers.dom() =~= Set::empty().insert(pane.pane_id.raw));
            assert forall|dir: PathKey| #[trigger]
                crate::file_tree::children_of(cache_view(ws.explorer_cache@), dir).len() == 0 by {}
            assert(is_nested(cache_view(ws.explorer_cache@)));
        }
        Ok(ws)
    }

    /// Adds a tab that runs a shell in `cwd` and returns its position. `spawn`
    /// starts its pane; where that fails nothing changes.
    pub fn create_tab<E, F: FnOnce(TabRequest) -> Result<NewPane, E>>(
        &mut self,
        rows: u16,
        cols: u16,
        cwd: FsPath,
        spawn: F,
    ) -> (result: Result<usize, E>)
        requires
            old(self).wf(),
            old(self).tabs@.len() < usize::MAX,
            old(self).next_public_pane_number < usize::MAX,
            forall|request: TabRequest|
                is_tab_request(request, old(self).tabs@.len() + 1, cwd@, rows, cols, None)
                    ==> #[trigger] call_requires(spawn, (request,)),
            forall|request: TabRequest, pane: NewPane| #[trigger]
                call_ensures(spawn, (request,), Ok::<NewPane, E>(pane)) ==> !has_pane(
                    old(self).tabs@,
                    pane.pane_id.raw,
                ),
        ensures
            exists|request: TabRequest, outcome: Result<NewPane, E>| #[trigger]
                call_ensures(spawn, (request,), outcome) && is_tab_request(
                    request,
                    old(self).tabs@.len() + 1,
                    cwd@,
                    rows,
                    cols,
                    None,
                ) && match outcome {
                    Ok(pane) => result == Ok::<usize, E>(old(self).tabs@.len() as usize)
                        && is_tab_created(*old(self), *final(self), pane),
                    Err(e) => result == Err::<usize, E>(e) && *final(self) == *old(self),
                },
            final(self).wf(),
    {
        let number: usize = self.tabs.len() + 1;
        let request = TabRequest { number, cwd, rows, cols, argv: None };
        let ghost asked = request;
        let outcome = spawn(request);
        let ghost given = outcome;
        assert(call_ensures(spawn, (asked,), given));
        let pane = match outcome {
            Ok(pane) => pane,
            Err(e) => {
                return Err(e);
            },
        };
        let ghost before = *self;
        let tab = Tab::new(number, pane);
        proof {
            crate::numbering::lemma_register(
                self.public_pane_numbers@,
                self.next_public_pane_number,
                pane.pane_id.raw,
            );
        }
        register_pane(
            &mut self.public_pane_numbers,
            &mut self.next_public_pane_number,
            pane.pane_id.raw,
        );
        self.tabs.push(tab);
        proof {
            let after = self.tabs@;
            assert(after.drop_last() =~= before.tabs@);
            let n = before.tabs@.len() as int;
            assert(after[n] == tab);
            assert forall|k: u64| #[trigger]
                self.public_pane_numbers@.contains_key(k) <==> has_pane(after, k) by {
                assert(before.public_pane_numbers@.contains_key(k) <==> has_pane(before.tabs@, k));
                if has_pane(before.tabs@, k) {
                    let i = choose|i: int|
                        0 <= i < before.tabs@.len() && (
                        #[trigger] before.tabs@[i]).panes@.contains_key(k);
                    assert(after[i].panes@.contains_key(k));
                }
                if k == pane.pane_id.raw {
                    assert(after[n].panes@.contains_key(k));
                }
                if has_pane(after, k) && k != pane.pane_id.raw {
                    let i = choose|i: int|
                        0 <= i < after.len() && (#[trigger] after[i]).panes@.contains_key(k);
                    assert(before.tabs@[i].panes@.contains_key(k));
                }
            }
            assert forall|i: int, j: int, k: u64|
                0 <= i < j < after.len() && #[trigger] after[i].panes@.contains_key(k) implies !(
            #[trigger] after[j].panes@.contains_key(k)) by {
                assert(before.tabs@[i].panes@.contains_key(k));
                if j == n {
                    assert(has_pane(before.tabs@, k));
                } else {
                    assert(!before.tabs@[j].panes@.contains_key(k));
                }
            }
            assert forall|i: int| 0 <= i < after.len() implies (#[trigger] after[i]).wf()
                && after[i].number == i + 1 by {
                if i < n {
                    assert(before.tabs@[i].wf());
                }
            }
        }
        Ok(self.tabs.len() - 1)
    }

    /// Puts a started pane beside `target` in the tab at `idx`.
    fn add_pane(&mut self, idx: usize, target: PaneId, pane: NewPane, focus_new_pane: bool)
        requires
            old(self).wf(),
            idx < old(self).tabs@.len(),
            old(self).tabs@[idx as int].panes@.contains_key(target.raw),
            old(self).next_public_pane_number < usize::MAX,
            !has_pane(old(self).tabs@, pane.pane_id.raw),
        ensures
            is_pane_added(*old(self), *final(self), idx as int, target, pane, focus_new_pane),
            final(self).wf(),
    {
        let ghost before = *self;
        proof {
            assert(before.tabs@[idx as int].wf());
            assert(before.tabs@[idx as int].layout.panes@.contains(target));
            assert(!before.tabs@[idx as int].panes@.contains_key(pane.pane_id.raw));
            crate::numbering::lemma_register(
                self.public_pane_numbers@,
                self.next_public_pane_number,
                pane.pane_id.raw,
            );
        }
        self.tabs[idx].add_pane(target, pane, focus_new_pane);
        register_pane(
            &mut self.public_pane_numbers,
            &mut self.next_public_pane_number,
            pane.pane_id.raw,
        );
        proof {
            let after = self.tabs@;
            assert forall|k: u64| #[trigger]
                self.public_pane_numbers@.contains_key(k) <==> has_pane(after, k) by {
                assert(before.public_pane_numbers@.contains_key(k) <==> has_pane(before.tabs@, k));
                if has_pane(before.tabs@, k) {
                    let i = choose|i: int|
                        0 <= i < before.tabs@.len() && (
                        #[trigger] before.tabs@[i]).panes@.contains_key(k);
                    assert(after[i].panes@.contains_key(k));
                }
                if k == pane.pane_id.raw {
                    assert(after[idx as int].panes@.contains_key(k));
                }
                if has_pane(after, k) && k != pane.pane_id.raw {
                    let i = choose|i: int|
                        0 <= i < after.len() && (#[trigger] after[i]).panes@.contains_key(k);
                    assert(before.tabs@[i].panes@.contains_key(k));
                }
            }
            assert forall|i: int, j: int, k: u64|
                0 <= i < j < after.len() && #[trigger] after[i].panes@.contains_key(k) implies !(
            #[trigger] after[j].panes@.contains_key(k)) by {
                if k == pane.pane_id.raw {
                    assert(!before.tabs@[i].panes@.contains_key(k));
                    assert(!before.tabs@[j].panes@.contains_key(k));
                } else {
                    assert(before.tabs@[i].panes@.contains_key(k));
                    assert(!before.tabs@[j].panes@.contains_key(k));
                }
            }
        }
    }

    /// Splits the focused pane of the active tab. `spawn` starts the new pane, which
    /// gets the focus; where that fails nothing changes.
    pub fn split_focused<E, F: FnOnce(SplitRequest) -> Result<NewPane, E>>(
        &mut self,
        direction: Direction,
        rows: u16,
        cols: u16,
        cwd: Option<FsPath>,
        spawn: F,
    ) -> (result: Result<NewPane, E>)
        requires
            old(self).wf(),
            old(self).next_public_pane_number < usize::MAX,
            forall|request: SplitRequest|
                is_split_request(
                    request,
                    old(self).tabs@[old(self).active_tab as int].layout.focus,
                    direction,
                    path_view(cwd),
                    rows,
                    cols,
                    None,
                ) ==> #[trigger] call_requires(spawn, (request,)),
            forall|request: SplitRequest, pane: NewPane| #[trigger]
                call_ensures(spawn, (request,), Ok::<NewPane, E>(pane)) ==> !has_pane(
                    old(self).tabs@,
                    pane.pane_id.raw,
                ),
        ensures
            exists|request: SplitRequest| #[trigger]
                call_ensures(spawn, (request,), result) && is_split_request(
                    request,
                    old(self).tabs@[old(self).active_tab as int].layout.focus,
                    direction,
                    path_view(cwd),
                    rows,
                    cols,
                    None,
                ),
            result is Err ==> *final(self) == *old(self),
            result matches Ok(pane) ==> is_pane_added(
                *old(self),
                *final(self),
                old(self).active_tab as int,
                old(self).tabs@[old(self).active_tab as int].layout.focus,
                pane,
                true,
            ),
            final(self).wf(),
    {
        let idx: usize = self.active_tab;
        let target = self.tabs[idx].layout.focused();
        proof {
            assert(self.tabs@[idx as int].wf());
        }
        let request = SplitRequest { pane_id: target, direction, cwd, rows, cols, argv: None };
        let ghost asked = request;
        let outcome = spawn(request);
        assert(call_ensures(spawn, (asked,), outcome));
        match outcome {
            Ok(pane) => {
                self.add_pane(idx, target, pane, true);
                Ok(pane)
            },
            Err(e) => Err(e),
        }
    }

    /// Splits a pane, wherever it is, for a new one that runs a shell. Without the
    /// pane nothing is started and there is no result. `spawn` starts the new pane;
    /// where that fails nothing changes.
    pub fn split_pane<E, F: FnOnce(SplitRequest) -> Result<NewPane, E>>(
        &mut self,
        pane_id: PaneId,
        direction: Direction,
        rows: u16,
        cols: u16,
        cwd: Option<FsPath>,
        focus_new_pane: bool,
        spawn: F,
    ) -> (result: Option<Result<(usize, NewPane), E>>)
        requires
            old(self).wf(),
            old(self).next_public_pane_number < usize::MAX,
            forall|request: SplitRequest|
                is_split_request(request, pane_id, direction, path_view(cwd), rows, cols, None)
                    ==> #[trigger] call_requires(spawn, (request,)),
            forall|request: SplitRequest, pane: NewPane| #[trigger]
                call_ensures(spawn, (request,), Ok::<NewPane, E>(pane)) ==> !has_pane(
                    old(self).tabs@,
                    pane.pane_id.raw,
                ),
        ensures
            result is None <==> !has_pane(old(self).tabs@, pane_id.raw),
            result is None ==> *final(self) == *old(self),
            result matches Some(r) ==> exists|request: SplitRequest, outcome: Result<NewPane, E>|
             #[trigger]
                call_ensures(spawn, (request,), outcome) && is_split_request(
                    request,
                    pane_id,
                    direction,
                    path_view(cwd),
                    rows,
                    cols,
                    None,
                ) && is_split_outcome(
                    *old(self),
                    *final(self),
                    pane_id,
                    focus_new_pane,
                    outcome,
                    r,
                ),
            final(self).wf(),
    {
        self.split_pane_with_runtime(pane_id, direction, rows, cols, cwd, None, focus_new_pane, spawn)
    }

    /// Splits a pane, wherever it is, for a new one that runs a shell and gets the
    /// given part of it. The ratio is for `spawn`, which starts the new pane.
    pub fn split_pane_with_ratio<R, E, F: FnOnce(SplitRequest, R) -> Result<NewPane, E>>(
        &mut self,
        pane_id: PaneId,
        direction: Direction,
        ratio: R,
        rows: u16,
        cols: u16,
        cwd: Option<FsPath>,
        focus_new_pane: bool,
        spawn: F,
    ) -> (result: Option<Result<(usize, NewPane), E>>)
        requires
            old(self).wf(),
            old(self).next_public_pane_number < usize::MAX,
            forall|request: SplitRequest|
                is_split_request(request, pane_id, direction, path_view(cwd), rows, cols, None)
                    ==> #[trigger] call_requires(spawn, (request, ratio)),
            forall|request: SplitRequest, pane: NewPane| #[trigger]
                call_ensures(spawn, (request, ratio), Ok::<NewPane, E>(pane)) ==> !has_pane(
                    old(self).tabs@,
                    pane.pane_id.raw,
                ),
        ensures
            result is None <==> !has_pane(old(self).tabs@, pane_id.raw),
            result is None ==> *final(self) == *old(self),
            result matches Some(r) ==> exists|request: SplitRequest, outcome: Result<NewPane, E>|
             #[trigger]
                call_ensures(spawn, (request, ratio), outcome) && is_split_request(
                    request,
                    pane_id,
                    direction,
                    path_view(cwd),
                    rows,
                    cols,
                    None,
                ) && is_split_outcome(
                    *old(self),
                    *final(self),
                    pane_id,
                    focus_new_pane,
                    outcome,
                    r,
                ),
            final(self).wf(),
    {
        let idx: usize = match self.find_tab_index_for_pane(pane_id) {
            Some(idx) => idx,
            None => {
                return None;
            },
        };
        let request = SplitRequest { pane_id, direction, cwd, rows, cols, argv: None };
        let ghost asked = (request, ratio);
        let outcome = spawn(request, ratio);
        let ghost given = outcome;
        assert(call_ensures(spawn, asked, given));
        match outcome {
            Ok(pane) => {
                self.add_pane(idx, pane_id, pane, focus_new_pane);
                Some(Ok((idx, pane)))
            },
            Err(e) => Some(Err(e)),
        }
    }

    /// Splits a pane, wherever it is, for a new one that runs the given command.
    pub fn split_pane_argv_command<E, F: FnOnce(SplitRequest) -> Result<NewPane, E>>(
        &mut self,
        pane_id: PaneId,
        direction: Direction,
        rows: u16,
        cols: u16,
        cwd: Option<FsPath>,
        argv: Vec<String>,
        focus_new_pane: bool,
        spawn: F,
    ) -> (result: Option<Result<(usize, NewPane), E>>)
        requires
            old(self).wf(),
            old(self).next_public_pane_number < usize::MAX,
            forall|request: SplitRequest|
                is_split_request(
                    request,
                    pane_id,
                    direction,
                    path_view(cwd),
                    rows,
                    cols,
                    Some(texts(argv@)),
                ) ==> #[trigger] call_requires(spawn, (request,)),
            forall|request: SplitRequest, pane: NewPane| #[trigger]
                call_ensures(spawn, (request,), Ok::<NewPane, E>(pane)) ==> !has_pane(
                    old(self).tabs@,
                    pane.pane_id.raw,
                ),
        ensures
            result is None <==> !has_pane(old(self).tabs@, pane_id.raw),
            result is None ==> *final(self) == *old(self),
            result matches Some(r) ==> exists|request: SplitRequest, outcome: Result<NewPane, E>|
             #[trigger]
                call_ensures(spawn, (request,), outcome) && is_split_request(
                    request,
                    pane_id,
                    direction,
                    path_view(cwd),
                    rows,
                    cols,
                    Some(texts(argv@)),
                ) && is_split_outcome(
                    *old(self),
                    *final(self),
                    pane_id,
                    focus_new_pane,
                    outcome,
                    r,
                ),
            final(self).wf(),
    {
        self.split_pane_with_runtime(
            pane_id,
            direction,
            rows,
            cols,
            cwd,
            Some(argv),
            focus_new_pane,
            spawn,
        )
    }

    fn split_pane_with_runtime<E, F: FnOnce(SplitRequest) -> Result<NewPane, E>>(
        &mut self,
        pane_id: PaneId,
        direction: Direction,
        rows: u16,
        cols: u16,
        cwd: Option<FsPath>,
        argv: Option<Vec<String>>,
        focus_new_pane: bool,
        spawn: F,
    ) -> (result: Option<Result<(usize, NewPane), E>>)
        requires
            old(self).wf(),
            old(self).next_public_pane_number < usize::MAX,
            forall|request: SplitRequest|
                is_split_request(
                    request,
                    pane_id,
                    direction,
                    path_view(cwd),
                    rows,
                    cols,
                    argv_view(argv),
                ) ==> #[trigger] call_requires(spawn, (request,)),
            forall|request: SplitRequest, pane: NewPane| #[trigger]
                call_ensures(spawn, (request,), Ok::<NewPane, E>(pane)) ==> !has_pane(
                    old(self).tabs@,
                    pane.pane_id.raw,
                ),
        ensures
            result is None <==> !has_pane(old(self).tabs@, pane_id.raw),
            result is None ==> *final(self) == *old(self),
            result matches Some(r) ==> exists|request: SplitRequest, outcome: Result<NewPane, E>|
             #[trigger]
                call_ensures(spawn, (request,), outcome) && is_split_request(
                    request,
                    pane_id,
                    direction,
                    path_view(cwd),
                    rows,
                    cols,
                    argv_view(argv),
                ) && is_split_outcome(
                    *old(self),
                    *final(self),
                    pane_id,
                    focus_new_pane,
                    outcome,
                    r,
                ),
            final(self).wf(),
    {
        let idx: usize = match self.find_tab_index_for_pane(pane_id) {
            Some(idx) => idx,
            None => {
                return None;
            },
        };
        let request = SplitRequest { pane_id, direction, cwd, rows, cols, argv };
        let ghost asked = request;
        let outcome = spawn(request);
        let ghost given = outcome;
        assert(call_ensures(spawn, (asked,), given));
        match outcome {
            Ok(pane) => {
                self.add_pane(idx, pane_id, pane, focus_new_pane);
                Some(Ok((idx, pane)))
            },
            Err(e) => Some(Err(e)),
        }
    }
}

/// What a split does with the outcome of starting the new pane: it reports a
/// failure and changes nothing, or adds the pane and reports its tab.
pub open spec fn is_split_outcome<E>(
    before: Workspace,
    after: Workspace,
    pane_id: PaneId,
    focus_new_pane: bool,
    outcome: Result<NewPane, E>,
    result: Result<(usize, NewPane), E>,
) -> bool {
    let idx = tab_place(before.tabs@, pane_id.raw);
    match outcome {
        Ok(pane) => result == Ok::<(usize, NewPane), E>((idx as usize, pane)) && is_pane_added(
            before,
            after,
            idx,
            pane_id,
            pane,
            focus_new_pane,
        ),
        Err(e) => result == Err::<(usize, NewPane), E>(e) && after == before,
    }
}

impl Workspace {
    /// Gives the workspace a name of the user's choice.
    pub fn set_custom_name(&mut self, name: String)
        ensures
            *final(self) == (Workspace { custom_name: Some(name), ..*old(self) }),
            old(self).wf() ==> final(self).wf(),
    {
        self.custom_name = Some(name);
    }

    /// The recorded directory of the workspace.
    pub fn resolved_identity_cwd(&self) -> (cwd: Option<FsPath>)
        ensures
            cwd matches Some(path) && path@ == self.identity_cwd@,
    {
        Some(self.identity_cwd.clone())
    }

    /// The tab whose root pane stands for the workspace: the active one, else the
    /// first.
    pub open spec fn identity_tab(self) -> Option<Tab> {
        if self.active_tab < self.tabs@.len() {
            Some(self.tabs@[self.active_tab as int])
        } else if self.tabs@.len() > 0 {
            Some(self.tabs@[0])
        } else {
            None
        }
    }

    /// The directory of the workspace: that of the root pane of its active tab, else
    /// the recorded one.
    pub open spec fn identity_from(
        self,
        terminals: Map<u64, TerminalState>,
        live_cwds: Map<u64, FsPath>,
    ) -> Seq<u8> {
        match self.identity_tab() {
            Some(tab) => match tab.pane_cwd(tab.root_pane, terminals, live_cwds) {
                Some(cwd) => cwd,
                None => self.identity_cwd@,
            },
            None => self.identity_cwd@,
        }
    }

    /// The directory of the workspace, from the *active* tab's root pane so the
    /// workspace's git context (branch, changes, and commit graph, plus the
    /// derived label) follows the tab the user is currently looking at. The first
    /// tab stands in where there is no active one, and the recorded directory
    /// where the root pane's directory is not known.
    pub fn resolved_identity_cwd_from(
        &self,
        terminals: &IdMap<TerminalState>,
        live_cwds: &IdMap<FsPath>,
    ) -> (cwd: Option<FsPath>)
        ensures
            cwd matches Some(path) && path@ == self.identity_from(terminals@, live_cwds@),
    {
        let tab = match self.active_tab() {
            Some(tab) => Some(tab),
            None => if self.tabs.len() > 0 {
                Some(&self.tabs[0])
            } else {
                None
            },
        };
        if let Some(tab) = tab {
            if let Some(cwd) = tab.cwd_for_pane(tab.root_pane, terminals, live_cwds) {
                return Some(cwd);
            }
        }
        Some(self.identity_cwd.clone())
    }

    /// What the workspace is called: the name that the user gave it, else what
    /// `label` makes of its recorded directory.
    pub fn display_name<F: Fn(&FsPath) -> String>(&self, label: &F) -> (name: String)
        requires
            forall|path: &FsPath| #[trigger] call_requires(label, (path,)),
        ensures
            self.custom_name matches Some(custom) ==> name@ == custom@,
            self.custom_name is None ==> exists|path: FsPath| #[trigger]
                call_ensures(label, (&path,), name) && path@ == self.identity_cwd@,
    {
        if let Some(name) = &self.custom_name {
            return name.clone();
        }
        let cwd = self.identity_cwd.clone();
        let name = label(&cwd);
        assert(call_ensures(label, (&cwd,), name));
        name
    }

    /// What the workspace is called: the name that the user gave it, else what
    /// `label` makes of its directory.
    pub fn display_name_from<F: Fn(&FsPath) -> String>(
        &self,
        terminals: &IdMap<TerminalState>,
        live_cwds: &IdMap<FsPath>,
        label: &F,
    ) -> (name: String)
        requires
            forall|path: &FsPath| #[trigger] call_requires(label, (path,)),
        ensures
            self.custom_name matches Some(custom) ==> name@ == custom@,
            self.custom_name is None ==> exists|path: FsPath| #[trigger]
                call_ensures(label, (&path,), name) && path@ == self.identity_from(
                    terminals@,
                    live_cwds@,
                ),
    {
        if let Some(name) = &self.custom_name {
            return name.clone();
        }
        match self.resolved_identity_cwd_from(terminals, live_cwds) {
            Some(cwd) => {
                let name = label(&cwd);
                assert(call_ensures(label, (&cwd,), name));
                name
            },
            None => "workspace".to_string(),
        }
    }

    /// The source panel mode currently showing for this workspace.
    pub fn source_panel_mode(&self) -> (mode: SourcePanelMode)
        ensures
            mode == self.source_panel_mode,
    {
        self.source_panel_mode
    }

    /// Switch this workspace's source panel to `mode`.
    pub fn set_source_panel_mode(&mut self, mode: SourcePanelMode)
        ensures
            *final(self) == (Workspace { source_panel_mode: mode, ..*old(self) }),
            old(self).wf() ==> final(self).wf(),
    {
        self.source_panel_mode = mode;
    }

    /// Flip this workspace's source panel between Source and Explorer.
    pub fn toggle_source_panel_mode(&mut self)
        ensures
            *final(self) == (Workspace {
                source_panel_mode: other_mode(old(self).source_panel_mode),
                ..*old(self)
            }),
            old(self).wf() ==> final(self).wf(),
    {
        self.source_panel_mode = self.source_panel_mode.toggled();
    }

    /// The current git branch of the workspace's repository.
    pub fn branch(&self) -> (branch: Option<String>)
        ensures
            branch is Some <==> self.cached_git_branch is Some,
            branch matches Some(b) ==> self.cached_git_branch matches Some(c) && b@ == c@,
    {
        match &self.cached_git_branch {
            Some(branch) => Some(branch.clone()),
            None => None,
        }
    }

    /// How many commits the branch is ahead of and behind its upstream.
    pub fn git_ahead_behind(&self) -> (counts: Option<(usize, usize)>)
        ensures
            counts == self.cached_git_ahead_behind,
    {
        self.cached_git_ahead_behind
    }

    /// The derived metadata of the workspace's repository.
    pub fn git_space(&self) -> (space: Option<&GitSpaceMetadata>)
        ensures
            space is Some <==> self.cached_git_space is Some,
            space matches Some(s) ==> self.cached_git_space == Some(*s),
    {
        match &self.cached_git_space {
            Some(space) => Some(space),
            None => None,
        }
    }

    /// The changed files of the workspace's working tree.
    pub fn changed_files(&self) -> (changes: &Vec<ChangedFile>)
        ensures
            *changes == self.cached_changes,
    {
        &self.cached_changes
    }

    /// The loaded commit graph.
    pub fn commits(&self) -> (commits: &Vec<CommitInfo>)
        ensures
            *commits == self.cached_log,
    {
        &self.cached_log
    }

    /// The number of commits that the graph section loads.
    pub fn loaded_commit_count(&self) -> (count: usize)
        ensures
            count == self.loaded_commit_count,
    {
        self.loaded_commit_count
    }

    /// Whether the repository has commit history beyond what is loaded, used to
    /// decide whether the Graph section shows a "load more" affordance.
    pub fn has_more_commits(&self) -> (more: bool)
        ensures
            more == self.cached_log_has_more,
    {
        self.cached_log_has_more
    }

    /// Whether the workspace's identity directory is a usable git repository.
    /// When false, the source-control panel shows its "not a git repository"
    /// empty state instead of the changes/graph sections.
    pub fn is_git_repo(&self) -> (r: bool)
        ensures
            r == self.cached_is_git_repo,
    {
        self.cached_is_git_repo
    }

    /// The explicit worktree grouping of the workspace.
    pub fn worktree_space(&self) -> (space: Option<&WorktreeSpaceMembership>)
        ensures
            space is Some <==> self.worktree_space is Some,
            space matches Some(s) ==> self.worktree_space == Some(*s),
    {
        match &self.worktree_space {
            Some(space) => Some(space),
            None => None,
        }
    }

    /// Takes over what git reported about the branch of the recorded directory, how
    /// far it is from its upstream, and the repository.
    pub fn refresh_git_ahead_behind(
        &mut self,
        branch: Option<String>,
        ahead_behind: Option<(usize, usize)>,
        space: Option<GitSpaceMetadata>,
    )
        ensures
            *final(self) == (Workspace {
                cached_git_branch: branch,
                cached_git_ahead_behind: ahead_behind,
                cached_git_space: space,
                ..*old(self)
            }),
            old(self).wf() ==> final(self).wf(),
    {
        self.cached_git_branch = branch;
        self.cached_git_ahead_behind = ahead_behind;
        self.cached_git_space = space;
    }

    /// What git reports about the repository of a directory, with at most
    /// `commit_count` commits. `snapshot` asks git, or answers from what it kept of
    /// an earlier report, and says what to keep of this one.
    pub fn git_status_snapshot_for_cwd_with_cache<
        C,
        F: FnOnce(&FsPath, Option<&C>, usize) -> (WorkspaceGitStatusSnapshot, Option<C>),
    >(
        resolved_identity_cwd: &FsPath,
        cached: Option<&C>,
        commit_count: usize,
        snapshot: F,
    ) -> (result: (WorkspaceGitStatusSnapshot, Option<C>))
        requires
            call_requires(snapshot, (resolved_identity_cwd, cached, commit_count)),
        ensures
            call_ensures(snapshot, (resolved_identity_cwd, cached, commit_count), result),
    {
        snapshot(resolved_identity_cwd, cached, commit_count)
    }
}

/// Numbering tabs by their positions changes nothing else about them.
pub proof fn law_renumbered_tabs(tabs: Seq<Tab>, i: int)
    requires
        0 <= i < tabs.len() <= usize::MAX,
    ensures
        renumbered(tabs).len() == tabs.len(),
        renumbered(tabs)[i].number == i + 1,
        renumbered(tabs)[i] == (Tab { number: renumbered(tabs)[i].number, ..tabs[i] }),
{
}

/// Without a tab the others stay in their order and close up. The active tab stays the active
/// one; where it is the one that went, the tab before it is active, or the first.
pub proof fn law_closed_tab(before: Workspace, after: Workspace, idx: int, j: int)
    requires
        before.wf(),
        before.tabs@.len() > 1,
        before.tabs@.len() <= usize::MAX,
        0 <= idx < before.tabs@.len(),
        is_tab_closed(before, after, idx),
        0 <= j < after.tabs@.len(),
    ensures
        after.tabs@.len() + 1 == before.tabs@.len(),
        after.tabs@[j] == (Tab {
            number: (j + 1) as usize,
            ..before.tabs@[if j < idx {
                j
            } else {
                j + 1
            }]
        }),
        idx < before.active_tab ==> after.active_tab + 1 == before.active_tab,
        idx > before.active_tab ==> after.active_tab == before.active_tab,
        idx == before.active_tab && idx > 0 ==> after.active_tab == idx - 1,
        idx == before.active_tab && idx == 0 ==> after.active_tab == 0,
        forall|id: u64|
            after.public_pane_numbers@.contains_key(id) <==> before.public_pane_numbers@.contains_key(
                id,
            ) && !#[trigger] before.tabs@[idx].panes@.contains_key(id),
{
    assert forall|id: u64|
        after.public_pane_numbers@.contains_key(id) <==> before.public_pane_numbers@.contains_key(
            id,
        ) && !#[trigger] before.tabs@[idx].panes@.contains_key(id) by {
        assert(after.public_pane_numbers@.dom().contains(id)
            <==> before.public_pane_numbers@.dom().difference(
            before.tabs@[idx].panes@.dom(),
        ).contains(id));
    }
}

/// When a pane goes and the workspace stays, every other pane stays, and no more.
pub proof fn law_closing_a_pane(before: Workspace, after: Workspace, pane: PaneId, other: u64)
    requires
        before.wf(),
        after.wf(),
        has_pane(before.tabs@, pane.raw),
        is_pane_gone(before, after, pane, false),
    ensures
        has_pane(after.tabs@, other) <==> has_pane(before.tabs@, other) && other != pane.raw,
{
    lemma_has_place(before.tabs@, pane.raw);
    let idx = tab_place(before.tabs@, pane.raw);
    let tab = before.tabs@[idx];
    assert(tab.wf());
    assert(after.public_pane_numbers@.contains_key(other) <==> has_pane(after.tabs@, other));
    assert(before.public_pane_numbers@.contains_key(other) <==> has_pane(before.tabs@, other));
    if tab.layout.panes@.len() > 1 {
        assert(after.public_pane_numbers@.dom().contains(other)
            <==> before.public_pane_numbers@.dom().difference(
            Set::empty().insert(pane.raw),
        ).contains(other));
    } else {
        assert(after.public_pane_numbers@.dom().contains(other)
            <==> before.public_pane_numbers@.dom().difference(tab.panes@.dom()).contains(other));
        assert(tab.layout.panes@.len() == 1);
        assert(tab.layout.panes@.contains(pane));
        let at = choose|at: int| 0 <= at < tab.layout.panes@.len() && tab.layout.panes@[at] == pane;
        assert(at == 0);
        assert(tab.panes@.contains_key(other) <==> other == pane.raw) by {
            let id = PaneId { raw: other };
            assert(tab.layout.panes@.contains(id) <==> tab.panes@.contains_key(id.raw));
        }
    }
}

/// The workspace is to close exactly where its only pane goes.
pub proof fn law_last_pane_closes(
    before: Workspace,
    after: Workspace,
    pane: PaneId,
    should_close: bool,
)
    requires
        before.wf(),
        is_pane_gone(before, after, pane, should_close),
    ensures
        should_close <==> before.tabs@.len() == 1 && before.tabs@[0].layout.panes@ == seq![pane],
{
    if has_pane(before.tabs@, pane.raw) {
        lemma_has_place(before.tabs@, pane.raw);
        let idx = tab_place(before.tabs@, pane.raw);
        let tab = before.tabs@[idx];
        assert(tab.wf());
        assert(tab.layout.panes@.contains(pane));
        if tab.layout.panes@.len() <= 1 {
            assert(tab.layout.panes@ =~= seq![pane]);
        }
    } else if before.tabs@.len() == 1 && before.tabs@[0].layout.panes@ == seq![pane] {
        let tab = before.tabs@[0];
        assert(tab.wf());
        assert(seq![pane][0] == pane);
        assert(tab.layout.panes@.contains(pane));
        assert(tab.panes@.contains_key(pane.raw));
        assert(has_pane(before.tabs@, pane.raw));
    }
}

/// A pane is found in the first tab that holds it.
pub proof fn law_first_tab_with_pane(tabs: Seq<Tab>, id: u64, i: int)
    requires
        0 <= i <= tabs.len(),
        forall|j: int| 0 <= j < i ==> !(#[trigger] tabs[j]).panes@.contains_key(id),
        i < tabs.len() ==> tabs[i].panes@.contains_key(id),
    ensures
        tab_place(tabs, id) == i,
        has_pane(tabs, id) <==> i < tabs.len(),
{
    lemma_tab_place(tabs, id, i);
    if i < tabs.len() {
        assert(tabs[i].panes@.contains_key(id));
    }
}

/// A moved tab stands right in front of the one that it was moved in front of, or behind all
/// others; the others keep their order, and no two tabs stand at one place.
pub proof fn law_moved_tabs(source: int, insert: int, len: int, i: int, j: int)
    requires
        0 <= source < len,
        0 <= insert <= len,
        0 <= i < j < len,
    ensures
        ({
            let target = target_within(source, insert, len);
            &&& 0 <= target < len
            &&& moved_place(source, source, target) == target
            &&& insert == len ==> target == len - 1
            &&& insert < len && insert != source ==> moved_place(insert, source, target) == target
                + 1
            &&& insert == source || insert == source + 1 ==> target == source
            &&& 0 <= moved_place(i, source, target) < len
            &&& moved_place(i, source, target) != moved_place(j, source, target)
            &&& i != source && j != source ==> moved_place(i, source, target) < moved_place(
                j,
                source,
                target,
            )
        }),
{
}

/// Each tab is found where the move has put it, unchanged but for its number.
pub proof fn law_tab_after_move(before: Seq<Tab>, source: int, target: int, i: int)
    requires
        0 <= source < before.len() <= usize::MAX,
        0 <= target < before.len(),
        0 <= i < before.len(),
    ensures
        ({
            let after = renumbered(before.remove(source).insert(target, before[source]));
            let place = moved_place(i, source, target);
            &&& after.len() == before.len()
            &&& after[place] == (Tab { number: (place + 1) as usize, ..before[i] })
        }),
{
    let after = renumbered(before.remove(source).insert(target, before[source]));
    lemma_moved_tab(before, after, source, target, moved_place(i, source, target));
}

/// The directory of a workspace is that of the root pane of its active tab, as far as it is
/// known, and the recorded one otherwise.
pub proof fn law_workspace_directory(
    ws: Workspace,
    terminals: Map<u64, TerminalState>,
    live_cwds: Map<u64, FsPath>,
)
    requires
        ws.active_tab < ws.tabs@.len(),
    ensures
        ({
            let tab = ws.tabs@[ws.active_tab as int];
            let cwd = tab.pane_cwd(tab.root_pane, terminals, live_cwds);
            &&& cwd matches Some(c) ==> ws.identity_from(terminals, live_cwds) == c
            &&& cwd is None ==> ws.identity_from(terminals, live_cwds) == ws.identity_cwd@
        }),
{
}

/// A new workspace loads fifty commits, shows its repository, and numbers its pane one.
pub proof fn law_new_workspace(
    ws: Workspace,
    id: String,
    cwd: Seq<u8>,
    branch: Option<String>,
    is_git_repo: bool,
    pane: NewPane,
)
    requires
        is_new_workspace(ws, id, cwd, branch, is_git_repo, pane),
    ensures
        ws.loaded_commit_count == 50,
        ws.source_panel_mode == SourcePanelMode::Source,
        ws.public_pane_numbers@.contains_key(pane.pane_id.raw)
            && ws.public_pane_numbers@[pane.pane_id.raw] == 1,
        is_compact(ws.public_pane_numbers@, ws.next_public_pane_number),
        ws.tabs@.len() == 1 && ws.tabs@[0].number == 1 && ws.tabs@[0].layout.focus == pane.pane_id,
        ws.cached_is_git_repo == is_git_repo,
        !ws.cached_log_has_more,
        ws.visible_tree().len() == 0,
{
    let none = Map::<u64, usize>::empty();
    crate::numbering::lemma_register(none, 1, pane.pane_id.raw);
}

/// A further tab stands behind the others, which stay as they are, and the active tab stays
/// active.
pub proof fn law_created_tab(before: Workspace, after: Workspace, pane: NewPane, j: int)
    requires
        is_tab_created(before, after, pane),
        0 <= j < before.tabs@.len(),
    ensures
        after.tabs@[j] == before.tabs@[j],
        after.tabs@.len() == before.tabs@.len() + 1,
        after.tabs@.last().number == after.tabs@.len(),
        after.tabs@.last().root_pane == pane.pane_id,
        after.active_tab == before.active_tab,
        after.public_pane_numbers@[pane.pane_id.raw] == before.next_public_pane_number,
{
    assert(after.tabs@.drop_last()[j] == before.tabs@[j]);
}

/// A further pane changes its own tab alone, and gets the next number.
pub proof fn law_added_pane(
    before: Workspace,
    after: Workspace,
    idx: int,
    target: PaneId,
    pane: NewPane,
    focus_new_pane: bool,
    j: int,
    other: u64,
)
    requires
        0 <= idx < before.tabs@.len(),
        0 <= j < before.tabs@.len(),
        is_pane_added(before, after, idx, target, pane, focus_new_pane),
    ensures
        after.tabs@.len() == before.tabs@.len(),
        j != idx ==> after.tabs@[j] == before.tabs@[j],
        after.active_tab == before.active_tab,
        after.public_pane_numbers@.contains_key(pane.pane_id.raw),
        after.public_pane_numbers@[pane.pane_id.raw] == before.next_public_pane_number,
        after.next_public_pane_number == before.next_public_pane_number + 1,
        other != pane.pane_id.raw ==> after.public_pane_numbers@.contains_key(other)
            == before.public_pane_numbers@.contains_key(other),
        other != pane.pane_id.raw && before.public_pane_numbers@.contains_key(other)
            ==> after.public_pane_numbers@[other] == before.public_pane_numbers@[other],
{
}

/// A split that could not start a pane changes nothing and reports why; any other reports the
/// tab that it split.
pub proof fn law_split_reports<E>(
    before: Workspace,
    after: Workspace,
    pane_id: PaneId,
    focus_new_pane: bool,
    outcome: Result<NewPane, E>,
    result: Result<(usize, NewPane), E>,
)
    requires
        before.tabs@.len() <= usize::MAX,
        has_pane(before.tabs@, pane_id.raw),
        is_split_outcome(before, after, pane_id, focus_new_pane, outcome, result),
    ensures
        outcome is Ok <==> result is Ok,
        outcome matches Err(e) ==> result == Err::<(usize, NewPane), E>(e) && after == before,
        outcome matches Ok(pane) ==> result->Ok_0.1 == pane && result->Ok_0.0 < before.tabs@.len()
            && before.tabs@[result->Ok_0.0 as int].panes@.contains_key(pane_id.raw)
            && after.tabs@[result->Ok_0.0 as int].panes@.contains_key(pane.pane_id.raw),
{
    lemma_has_place(before.tabs@, pane_id.raw);
}

/// Where the active tab is missing, the first tab stands for the workspace, and where there is no
/// tab the recorded directory does.
pub proof fn law_workspace_directory_without_active_tab(
    ws: Workspace,
    terminals: Map<u64, TerminalState>,
    live_cwds: Map<u64, FsPath>,
)
    requires
        ws.active_tab >= ws.tabs@.len(),
    ensures
        ws.tabs@.len() == 0 ==> ws.identity_from(terminals, live_cwds) == ws.identity_cwd@,
        ws.tabs@.len() > 0 ==> {
            let tab = ws.tabs@[0];
            let cwd = tab.pane_cwd(tab.root_pane, terminals, live_cwds);
            &&& cwd matches Some(c) ==> ws.identity_from(terminals, live_cwds) == c
            &&& cwd is None ==> ws.identity_from(terminals, live_cwds) == ws.identity_cwd@
        },
{
}

/// A pane that leaves others behind in its tab leaves every tab in its place, the active tab
/// active, and the other tabs as they are.
pub proof fn law_closed_pane_keeps_the_tabs(
    before: Workspace,
    after: Workspace,
    pane: PaneId,
    should_close: bool,
    i: int,
    j: int,
)
    requires
        is_pane_gone(before, after, pane, should_close),
        0 <= i < before.tabs@.len(),
        before.tabs@[i].panes@.contains_key(pane.raw),
        forall|k: int| 0 <= k < i ==> !(#[trigger] before.tabs@[k]).panes@.contains_key(pane.raw),
        before.tabs@[i].layout.panes@.len() > 1,
        0 <= j < before.tabs@.len(),
    ensures
        !should_close,
        after.tabs@.len() == before.tabs@.len(),
        after.active_tab == before.active_tab,
        j != i ==> after.tabs@[j] == before.tabs@[j],
        after.tabs@[i].number == before.tabs@[i].number,
        after.tabs@[i].layout.panes@.len() + 1 == before.tabs@[i].layout.panes@.len()
            || !before.tabs@[i].layout.panes@.contains(pane),
        after.id == before.id && after.custom_name == before.custom_name && after.identity_cwd
            == before.identity_cwd,
{
    law_first_tab_with_pane(before.tabs@, pane.raw, i);
    if before.tabs@[i].layout.panes@.contains(pane) {
        let panes = before.tabs@[i].layout.panes@;
        let at = choose|at: int| 0 <= at < panes.len() && panes[at] == pane;
        crate::tab::lemma_first_place(panes, pane, at);
    }
}

/// A workspace that has not the pane, or has only that one, stays as it is.
pub proof fn law_pane_stays_where_it_must(
    before: Workspace,
    after: Workspace,
    pane: PaneId,
    should_close: bool,
)
    requires
        is_pane_gone(before, after, pane, should_close),
    ensures
        should_close ==> after == before,
        !has_pane(before.tabs@, pane.raw) ==> after == before && !should_close,
{
}

/// A new workspace has the given identity and directory and nothing else: no name, no changes, no
/// commits, no worktree, and nothing of the tree is loaded, expanded, selected or scrolled.
pub proof fn law_new_workspace_is_empty(
    ws: Workspace,
    id: String,
    cwd: Seq<u8>,
    branch: Option<String>,
    is_git_repo: bool,
    pane: NewPane,
    k: PathKey,
)
    requires
        is_new_workspace(ws, id, cwd, branch, is_git_repo, pane),
    ensures
        ws.id == id && ws.identity_cwd@ == cwd && ws.cached_git_branch == branch,
        ws.custom_name is None && ws.worktree_space is None,
        ws.cached_git_ahead_behind is None && ws.cached_git_space is None,
        ws.cached_changes@.len() == 0 && ws.cached_log@.len() == 0,
        ws.explorer_root is None && ws.explorer_selected is None && ws.explorer_scroll == 0,
        !ws.explorer_cache@.contains_key(k) && !ws.explorer_expanded@.contains(k),
        ws.active_tab == 0,
        ws.tabs@[0].custom_name is None && !ws.tabs@[0].zoomed,
{
}

/// What is asked for to make a tab or to split a pane is exactly what was given.
pub proof fn law_requests(
    tab: TabRequest,
    split: SplitRequest,
    number: nat,
    cwd: Seq<u8>,
    pane: PaneId,
    direction: Direction,
    rows: u16,
    cols: u16,
    argv: Seq<Seq<char>>,
)
    ensures
        is_tab_request(tab, number, cwd, rows, cols, Some(argv)) ==> tab.number == number
            && tab.cwd@ == cwd && tab.rows == rows && tab.cols == cols && (tab.argv matches Some(
            list,
        ) && texts(list@) == argv),
        is_tab_request(tab, number, cwd, rows, cols, None) ==> tab.argv is None,
        is_split_request(split, pane, direction, Some(cwd), rows, cols, Some(argv))
            ==> split.pane_id == pane && split.direction == direction && (split.cwd matches Some(
            path,
        ) && path@ == cwd) && split.rows == rows && split.cols == cols && (split.argv matches Some(
            list,
        ) && texts(list@) == argv),
        is_split_request(split, pane, direction, None, rows, cols, None) ==> split.cwd is None
            && split.argv is None,
{
}

} // verus!
