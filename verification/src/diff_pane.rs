//! The pane in which the source panel shows diffs: reusing it while it is open,
//! and splitting the largest pane for a new one otherwise.
use crate::app_state::{AppState, Mode, PaneRect, SourcePanelActiveItem};
use crate::geometry::lesser;
use crate::ids::{IdMap, PaneId, TerminalId};
use crate::path::{lossy_text, FsPath};
use crate::source_control::{
    changed_file_diff_argv, commit_file_diff_argv, commit_show_argv, pager_argv, texts, ChangeView,
    ChangedFile,
};
use crate::tab::{NewPane, Tab, TerminalState};
use crate::text::to_chars;
use crate::workspace::{
    has_pane, is_pane_added, is_pane_gone, is_split_request, tab_place, Direction, SplitRequest,
    Workspace,
};
use vstd::prelude::*;

verus! {

/// What is known about the running terminals and about where the panes of the
/// active tab are.
pub struct PaneContext<'a> {
    /// The rows and columns of running terminals.
    pub sizes: &'a IdMap<(u16, u16)>,
    /// The directories that running terminals report.
    pub live_cwds: &'a IdMap<FsPath>,
    /// The rows and columns that a pane has if nothing else is known.
    pub estimate: (u16, u16),
    /// The panes of the active tab with the cells that they fill.
    pub pane_rects: &'a Vec<PaneRect>,
}

/// What it takes to run another command in a pane.
pub struct RespawnRequest {
    pub pane_id: PaneId,
    pub terminal_id: TerminalId,
    pub rows: u16,
    pub cols: u16,
    pub cwd: FsPath,
    pub argv: Vec<String>,
}

/// A pane that has the focus, with the position of its workspace.
#[derive(Debug, Clone, Copy, PartialEq, Eq, Structural)]
pub struct PaneFocusTarget {
    pub ws_idx: usize,
    pub pane_id: PaneId,
}

/// The cells of a pane.
pub open spec fn cell_count(pane: PaneRect) -> int {
    pane.rect.width * pane.rect.height
}

/// The position of the largest pane, the last one where several are.
pub open spec fn largest_pane(panes: Seq<PaneRect>) -> int
    decreases panes.len(),
{
    if panes.len() <= 1 {
        0
    } else {
        let before = largest_pane(panes.drop_last());
        if cell_count(panes.last()) >= cell_count(panes[before]) {
            panes.len() - 1
        } else {
            before
        }
    }
}

/// What singles out the largest pane: none is larger, and none behind it is as
/// large.
pub proof fn law_largest_pane(panes: Seq<PaneRect>)
    requires
        panes.len() > 0,
    ensures
        0 <= largest_pane(panes) < panes.len(),
        forall|i: int|
            0 <= i < panes.len() ==> cell_count(#[trigger] panes[i]) <= cell_count(
                panes[largest_pane(panes)],
            ),
        forall|i: int|
            largest_pane(panes) < i < panes.len() ==> cell_count(#[trigger] panes[i]) < cell_count(
                panes[largest_pane(panes)],
            ),
    decreases panes.len(),
{
    if panes.len() > 1 {
        let shorter = panes.drop_last();
        law_largest_pane(shorter);
        assert forall|i: int| 0 <= i < panes.len() implies cell_count(#[trigger] panes[i])
            <= cell_count(panes[largest_pane(panes)]) by {
            if i < shorter.len() {
                assert(shorter[i] == panes[i]);
            }
        }
        assert forall|i: int| largest_pane(panes) < i < panes.len() implies cell_count(
            #[trigger] panes[i],
        ) < cell_count(panes[largest_pane(panes)]) by {
            if i < shorter.len() {
                assert(shorter[i] == panes[i]);
            }
        }
    }
}

/// The direction in which a pane is split: along its longer side, a cell being twice
/// as tall as it is wide.
pub open spec fn split_direction(pane: PaneRect) -> Direction {
    if pane.rect.width >= pane.rect.height * 2 {
        Direction::Horizontal
    } else {
        Direction::Vertical
    }
}

/// A copy of a command.
fn copy_texts(list: &Vec<String>) -> (copy: Vec<String>)
    ensures
        texts(copy@) == texts(list@),
{
    let mut copy: Vec<String> = Vec::new();
    let ghost all = texts(list@);
    let mut i: usize = 0;
    assert(texts(copy@) =~= all.take(0));
    while i < list.len()
        invariant
            i <= list@.len(),
            all == texts(list@),
            texts(copy@) == all.take(i as int),
        decreases list@.len() - i,
    {
        let ghost before = copy@;
        let text = list[i].clone();
        copy.push(text);
        assert(texts(copy@) =~= texts(before).push(text@));
        assert(all.take(i + 1) =~= all.take(i as int).push(all[i as int]));
        i += 1;
    }
    assert(all.take(i as int) =~= all);
    copy
}

impl AppState {
    /// There is an active tab.
    pub open spec fn has_current_tab(self) -> bool {
        self.active matches Some(idx) && idx < self.workspaces@.len()
            && self.workspaces@[idx as int].active_tab < self.workspaces@[idx as int].tabs@.len()
    }

    /// The active workspace.
    pub open spec fn current_workspace(self) -> Workspace {
        self.workspaces@[self.active->0 as int]
    }

    /// The active tab.
    pub open spec fn current(self) -> Tab {
        self.current_workspace().tabs@[self.current_workspace().active_tab as int]
    }

    /// The pane to split and the direction to split it in.
    pub open spec fn split_target(self, panes: Seq<PaneRect>) -> Option<(PaneId, Direction)> {
        if self.has_current_tab() && panes.len() > 0 {
            let pane = panes[largest_pane(panes)];
            Some((pane.id, split_direction(pane)))
        } else {
            None
        }
    }

    /// Pick the pane, and the direction to split it in, that a source-panel
    /// diff/show pane should be spawned from. Splitting the *focused* pane
    /// shreds the panel into ever-thinner slivers when several commits are
    /// opened in a row, because each freshly spawned git pane becomes focused
    /// and is then halved by the next click. Instead the largest pane of the
    /// active tab (`panes` are its panes with their cells) is split along its
    /// longer visual axis, so repeated opens spread across the tab and stay
    /// readable: panes split side-by-side while they are wide enough, then start
    /// stacking vertically once they are not.
    pub fn source_panel_split_target(&self, panes: &Vec<PaneRect>) -> (target: Option<
        (PaneId, Direction),
    >)
        ensures
            target == self.split_target(panes@),
    {
        if self.current_tab().is_none() || panes.len() == 0 {
            return None;
        }
        let mut best: usize = 0;
        let mut i: usize = 1;
        assert(panes@.take(1).len() == 1);
        while i < panes.len()
            invariant
                1 <= i <= panes@.len(),
                best < i,
                best == largest_pane(panes@.take(i as int)),
            decreases panes@.len() - i,
        {
            let ghost longer = panes@.take(i + 1);
            assert(longer.drop_last() =~= panes@.take(i as int));
            assert(longer.last() == panes@[i as int]);
            let a = panes[i].rect;
            let b = panes[best].rect;
            assert(a.width * a.height <= 65535 * 65535 && b.width * b.height <= 65535 * 65535)
                by (nonlinear_arith)
                requires
                    a.width <= 65535,
                    a.height <= 65535,
                    b.width <= 65535,
                    b.height <= 65535,
            ;
            if a.width as u32 * a.height as u32 >= b.width as u32 * b.height as u32 {
                best = i;
            }
            i += 1;
        }
        assert(panes@.take(i as int) =~= panes@);
        let target = panes[best];
        // Terminal cells are roughly twice as tall as they are wide, so weight
        // the height to compare physical proportions and split the longer side.
        let direction = if target.rect.width as u32 >= target.rect.height as u32 * 2 {
            Direction::Horizontal
        } else {
            Direction::Vertical
        };
        Some((target.id, direction))
    }

    /// The terminal of the diff pane, where the pane is still open in the active tab
    /// and its terminal is known.
    pub open spec fn reusable_terminal(self) -> Option<TerminalId> {
        if self.diff_pane_is_live() && has_pane(
            self.current_workspace().tabs@,
            self.source_panel_diff_pane->0.raw,
        ) {
            let id = self.source_panel_diff_pane->0.raw;
            let tabs = self.current_workspace().tabs@;
            let terminal = tabs[tab_place(tabs, id)].panes@[id].terminal_id;
            if self.terminals@.contains_key(terminal.raw) {
                Some(terminal)
            } else {
                None
            }
        } else {
            None
        }
    }
}

/// The size of a terminal: its own where it runs, else the estimate.
pub open spec fn terminal_size(context: PaneContext, id: TerminalId) -> (u16, u16) {
    if context.sizes@.contains_key(id.raw) {
        context.sizes@[id.raw]
    } else {
        context.estimate
    }
}

/// `request` runs the command in the diff pane: in the directory of its terminal,
/// with the size that it has.
pub open spec fn is_respawn_request(
    request: RespawnRequest,
    app: AppState,
    terminal: TerminalId,
    context: PaneContext,
    argv: Seq<Seq<char>>,
) -> bool {
    &&& Some(request.pane_id) == app.source_panel_diff_pane
    &&& request.terminal_id == terminal
    &&& (request.rows, request.cols) == terminal_size(context, terminal)
    &&& request.cwd@ == app.terminals@[terminal.raw].cwd@
    &&& texts(request.argv@) == argv
}

/// `after` is `before` with the diff pane running another command: its terminal
/// remembers the command, the death of what ran there before is to be ignored, and
/// the pane has the focus.
pub open spec fn is_reused(
    before: AppState,
    after: AppState,
    terminal: TerminalId,
    argv: Seq<Seq<char>>,
) -> bool {
    let pane = before.source_panel_diff_pane->0;
    let idx = before.active->0 as int;
    let tab_idx = before.current_workspace().active_tab as int;
    &&& after == (AppState {
        workspaces: after.workspaces,
        terminals: after.terminals,
        suppress_pane_death: after.suppress_pane_death,
        session_dirty: true,
        mode: Mode::Terminal,
        ..before
    })
    &&& after.suppress_pane_death@ == before.suppress_pane_death@.insert(pane.raw, true)
    &&& after.terminals@.contains_key(terminal.raw)
    &&& after.terminals@ == before.terminals@.insert(
        terminal.raw,
        after.terminals@[terminal.raw],
    )
    &&& after.terminals@[terminal.raw] == (TerminalState {
        launch_argv: after.terminals@[terminal.raw].launch_argv,
        ..before.terminals@[terminal.raw]
    })
    &&& after.terminals@[terminal.raw].launch_argv matches Some(list) && texts(list@) == argv
    &&& after.workspaces@ == before.workspaces@.update(idx, after.workspaces@[idx])
    &&& after.workspaces@[idx] == (Workspace {
        tabs: after.workspaces@[idx].tabs,
        ..before.workspaces@[idx]
    })
    &&& after.workspaces@[idx].tabs@ == before.workspaces@[idx].tabs@.update(
        tab_idx,
        after.workspaces@[idx].tabs@[tab_idx],
    )
    &&& after.workspaces@[idx].tabs@[tab_idx] == (Tab {
        layout: after.workspaces@[idx].tabs@[tab_idx].layout,
        ..before.current()
    })
    &&& after.workspaces@[idx].tabs@[tab_idx].layout.panes == before.current().layout.panes
    &&& after.workspaces@[idx].tabs@[tab_idx].layout.focus == pane
}

/// What an attempt to reuse the diff pane does: nothing without one or where the
/// command could not be started.
pub open spec fn is_reuse_outcome<F: FnOnce(RespawnRequest) -> bool>(
    before: AppState,
    after: AppState,
    context: PaneContext,
    argv: Seq<Seq<char>>,
    respawn: F,
    reused: bool,
) -> bool {
    match before.reusable_terminal() {
        None => !reused && after == before,
        Some(terminal) => exists|request: RespawnRequest| #[trigger]
            call_ensures(respawn, (request,), reused) && is_respawn_request(
                request,
                before,
                terminal,
                context,
                argv,
            ) && if reused {
                is_reused(before, after, terminal, argv)
            } else {
                after == before
            },
    }
}

impl AppState {
    /// Re-run `argv` inside the existing source-panel diff pane, replacing its
    /// content in place. Fails (so the caller spawns a fresh pane) when there is
    /// no remembered diff pane, it has been closed, or it no longer lives in the
    /// active workspace's active tab. `respawn` starts the command and tells
    /// whether it could.
    pub fn reuse_source_panel_diff_pane<F: FnOnce(RespawnRequest) -> bool>(
        &mut self,
        context: &PaneContext,
        argv: &Vec<String>,
        respawn: F,
    ) -> (reused: bool)
        requires
            forall|request: RespawnRequest| #[trigger] call_requires(respawn, (request,)),
        ensures
            is_reuse_outcome(
                *old(self),
                *final(self),
                *context,
                texts(argv@),
                respawn,
                reused,
            ),
            old(self).wf() ==> final(self).wf(),
    {
        let pane_id = match self.source_panel_diff_pane {
            Some(pane_id) => pane_id,
            None => {
                return false;
            },
        };
        let active_idx: usize = match self.active {
            Some(idx) => idx,
            None => {
                return false;
            },
        };
        if !self.source_panel_diff_pane_is_live() {
            return false;
        }
        let terminal_id = match self.workspaces[active_idx].terminal_id(pane_id) {
            Some(id) => *id,
            None => {
                return false;
            },
        };
        let cwd = match self.terminals.get(terminal_id.raw) {
            Some(terminal) => terminal.cwd.clone(),
            None => {
                return false;
            },
        };
        let (rows, cols) = match context.sizes.get(terminal_id.raw) {
            Some(size) => *size,
            None => context.estimate,
        };
        let request = RespawnRequest {
            pane_id,
            terminal_id,
            rows,
            cols,
            cwd,
            argv: copy_texts(argv),
        };
        let ghost asked = request;
        let spawned = respawn(request);
        assert(call_ensures(respawn, (asked,), spawned));
        if !spawned {
            return false;
        }
        let ghost before = *self;
        // What ran in the pane is killed, which is reported as the death of the pane;
        // that one report is to be ignored, as the pane lives on.
        self.suppress_pane_death.insert(pane_id.raw, true);
        if let Some(mut terminal) = self.terminals.remove(terminal_id.raw) {
            terminal.launch_argv = Some(copy_texts(argv));
            self.terminals.insert(terminal_id.raw, terminal);
            proof {
                assert(self.terminals@ =~= before.terminals@.insert(
                    terminal_id.raw,
                    self.terminals@[terminal_id.raw],
                ));
            }
        }
        let tab_idx: usize = self.workspaces[active_idx].active_tab;
        self.workspaces[active_idx].tabs[tab_idx].layout.focus_pane(pane_id);
        self.session_dirty = true;
        self.mode = Mode::Terminal;
        proof {
            if before.wf() {
                assert forall|i: int| 0 <= i < self.workspaces@.len() implies (
                #[trigger] self.workspaces@[i]).wf() by {
                    assert(before.workspaces@[i].wf());
                    if i == active_idx {
                        lemma_focus_keeps_wf(
                            before.workspaces@[i],
                            self.workspaces@[i],
                            tab_idx as int,
                        );
                    }
                }
            }
        }
        true
    }
}

/// Moving the focus within a tab keeps a workspace well-formed.
proof fn lemma_focus_keeps_wf(before: Workspace, after: Workspace, idx: int)
    requires
        before.wf(),
        0 <= idx < before.tabs@.len(),
        after == (Workspace { tabs: after.tabs, ..before }),
        after.tabs@ == before.tabs@.update(idx, after.tabs@[idx]),
        after.tabs@[idx] == (Tab { layout: after.tabs@[idx].layout, ..before.tabs@[idx] }),
        after.tabs@[idx].layout.panes == before.tabs@[idx].layout.panes,
        after.tabs@[idx].layout.wf(),
    ensures
        after.wf(),
{
    assert forall|i: int| 0 <= i < after.tabs@.len() implies (#[trigger] after.tabs@[i]).wf()
        && after.tabs@[i].number == i + 1 by {
        assert(before.tabs@[i].wf());
    }
    assert forall|i: int| 0 <= i < after.tabs@.len() implies (#[trigger] after.tabs@[i]).panes
        == before.tabs@[i].panes by {}
    assert forall|id: u64| #[trigger]
        after.public_pane_numbers@.contains_key(id) <==> has_pane(after.tabs@, id) by {
        assert(before.public_pane_numbers@.contains_key(id) <==> has_pane(before.tabs@, id));
        if has_pane(before.tabs@, id) {
            let i = choose|i: int|
                0 <= i < before.tabs@.len() && (#[trigger] before.tabs@[i]).panes@.contains_key(id);
            assert(after.tabs@[i].panes@.contains_key(id));
        }
        if has_pane(after.tabs@, id) {
            let i = choose|i: int|
                0 <= i < after.tabs@.len() && (#[trigger] after.tabs@[i]).panes@.contains_key(id);
            assert(before.tabs@[i].panes@.contains_key(id));
        }
    }
    assert forall|i: int, j: int, id: u64|
        0 <= i < j < after.tabs@.len() && #[trigger] after.tabs@[i].panes@.contains_key(
            id,
        ) implies !(#[trigger] after.tabs@[j].panes@.contains_key(id)) by {
        assert(before.tabs@[i].panes@.contains_key(id));
        assert(!before.tabs@[j].panes@.contains_key(id));
    }
}

/// Half of `n`, but at least `least`.
pub open spec fn half(n: u16, least: u16) -> u16 {
    if n / 2 < least {
        least
    } else {
        n / 2
    }
}

/// The directory of a new diff pane: that of the focused pane, else the clicked
/// workspace's.
pub open spec fn new_pane_cwd(app: AppState, context: PaneContext, source_cwd: Seq<u8>) -> Seq<u8> {
    if app.has_current_tab() {
        match app.current().pane_cwd(
            app.current().layout.focus,
            app.terminals@,
            context.live_cwds@,
        ) {
            Some(cwd) => cwd,
            None => source_cwd,
        }
    } else {
        source_cwd
    }
}

/// `after` is `before` with a new diff pane that runs the command.
pub open spec fn is_spawned(
    before: AppState,
    after: AppState,
    target: PaneId,
    pane: NewPane,
    argv: Seq<Seq<char>>,
    cwd: Seq<u8>,
) -> bool {
    let idx = before.active->0 as int;
    &&& after == (AppState {
        workspaces: after.workspaces,
        terminals: after.terminals,
        source_panel_diff_pane: Some(pane.pane_id),
        session_dirty: true,
        mode: Mode::Terminal,
        ..before
    })
    &&& after.workspaces@ == before.workspaces@.update(idx, after.workspaces@[idx])
    &&& is_pane_added(
        before.workspaces@[idx],
        after.workspaces@[idx],
        tab_place(before.workspaces@[idx].tabs@, target.raw),
        target,
        pane,
        true,
    )
    &&& after.terminals@.contains_key(pane.terminal_id.raw)
    &&& after.terminals@ == before.terminals@.insert(
        pane.terminal_id.raw,
        after.terminals@[pane.terminal_id.raw],
    )
    &&& after.terminals@[pane.terminal_id.raw].id == pane.terminal_id
    &&& after.terminals@[pane.terminal_id.raw].cwd@ == cwd
    &&& after.terminals@[pane.terminal_id.raw].launch_argv matches Some(list) && texts(list@)
        == argv
}

/// `after` is `before`.
pub open spec fn is_unchanged(before: AppState, after: AppState) -> bool {
    &&& after.workspaces@ == before.workspaces@
    &&& after == (AppState { workspaces: after.workspaces, ..before })
}

/// What an attempt to open a new diff pane does: nothing where there is no pane to
/// split or the command could not be started.
pub open spec fn is_spawn_outcome<
    E,
    F: FnOnce(SplitRequest) -> Result<NewPane, E>,
    A: FnOnce(PaneId),
    C: FnOnce(Option<PaneFocusTarget>, usize, PaneId),
>(
    before: AppState,
    after: AppState,
    context: PaneContext,
    argv: Seq<Seq<char>>,
    source_cwd: Seq<u8>,
    spawn: F,
    remove_alias: A,
    record_focus: C,
    shown: bool,
) -> bool {
    let cwd = new_pane_cwd(before, context, source_cwd);
    match before.split_target(context.pane_rects@) {
        None => !shown && after == before,
        Some((target, direction)) => if !has_pane(before.current_workspace().tabs@, target.raw) {
            !shown && is_unchanged(before, after)
        } else {
            exists|request: SplitRequest, outcome: Result<NewPane, E>| #[trigger]
                call_ensures(spawn, (request,), outcome) && is_split_request(
                    request,
                    target,
                    direction,
                    Some(cwd),
                    half(context.estimate.0, 4),
                    half(context.estimate.1, 10),
                    Some(argv),
                ) && match outcome {
                    Ok(pane) => shown && is_spawned(before, after, target, pane, argv, cwd)
                        && is_followed(before, pane.pane_id, remove_alias, record_focus),
                    Err(_) => !shown && is_unchanged(before, after),
                }
        },
    }
}

/// `spawn` can be asked for any pane, and what it starts is new to the active
/// workspace, which has a number for it.
pub open spec fn can_spawn<E, F: FnOnce(SplitRequest) -> Result<NewPane, E>>(
    app: AppState,
    spawn: F,
) -> bool {
    &&& forall|request: SplitRequest| #[trigger] call_requires(spawn, (request,))
    &&& app.active matches Some(idx) ==> idx < app.workspaces@.len() ==> {
        &&& app.workspaces@[idx as int].next_public_pane_number < usize::MAX
        &&& forall|request: SplitRequest, pane: NewPane| #[trigger]
            call_ensures(spawn, (request,), Ok::<NewPane, E>(pane)) ==> !has_pane(
                app.workspaces@[idx as int].tabs@,
                pane.pane_id.raw,
            )
    }
}

/// `remove_alias` and `record_focus` can be told of any pane.
pub open spec fn can_follow<
    A: FnOnce(PaneId),
    C: FnOnce(Option<PaneFocusTarget>, usize, PaneId),
>(remove_alias: A, record_focus: C) -> bool {
    &&& forall|pane_id: PaneId| #[trigger] call_requires(remove_alias, (pane_id,))
    &&& forall|previous: Option<PaneFocusTarget>, ws_idx: usize, pane_id: PaneId| #[trigger]
        call_requires(record_focus, (previous, ws_idx, pane_id))
}

/// `remove_alias` was told of the new pane, and `record_focus` that the focus went
/// there from where it was in `before`.
pub open spec fn is_followed<
    A: FnOnce(PaneId),
    C: FnOnce(Option<PaneFocusTarget>, usize, PaneId),
>(before: AppState, pane_id: PaneId, remove_alias: A, record_focus: C) -> bool {
    &&& call_ensures(remove_alias, (pane_id,), ())
    &&& call_ensures(record_focus, (before.focus_target(), before.active->0, pane_id), ())
}

/// What showing a command's output does: it reuses the diff pane, or failing that
/// opens a new one.
pub open spec fn is_show_outcome<
    E,
    R: FnOnce(RespawnRequest) -> bool,
    F: FnOnce(SplitRequest) -> Result<NewPane, E>,
    A: FnOnce(PaneId),
    C: FnOnce(Option<PaneFocusTarget>, usize, PaneId),
>(
    before: AppState,
    after: AppState,
    context: PaneContext,
    argv: Seq<Seq<char>>,
    source_cwd: Seq<u8>,
    respawn: R,
    spawn: F,
    remove_alias: A,
    record_focus: C,
    shown: bool,
) -> bool {
    ||| shown && is_reuse_outcome(before, after, context, argv, respawn, true)
    ||| is_reuse_outcome(before, before, context, argv, respawn, false) && is_spawn_outcome(
        before,
        after,
        context,
        argv,
        source_cwd,
        spawn,
        remove_alias,
        record_focus,
        shown,
    )
}

impl AppState {
    /// The focused pane of the active workspace.
    pub open spec fn focus_target(self) -> Option<PaneFocusTarget> {
        if self.has_current_tab() {
            Some(
                PaneFocusTarget {
                    ws_idx: self.active->0,
                    pane_id: self.current().layout.focus,
                },
            )
        } else {
            None
        }
    }

    /// The pane that has the focus: the focused one of the active workspace.
    pub fn current_pane_focus_target(&self) -> (target: Option<PaneFocusTarget>)
        ensures
            target == self.focus_target(),
    {
        match (self.active, self.current_tab()) {
            (Some(ws_idx), Some(tab)) => Some(
                PaneFocusTarget { ws_idx, pane_id: tab.layout.focused() },
            ),
            _ => None,
        }
    }

    /// Spawn a fresh pane running `argv`, splitting the largest pane in the
    /// active tab, and remember it as the source panel's diff pane so later
    /// clicks replace its content instead of splitting again. `spawn` starts the
    /// command. Once it has, `remove_alias` is told of the new pane, so that an alias
    /// which the pane shadows goes, and `record_focus` where the focus was before the
    /// split, and the workspace and the pane that it moved to.
    pub fn spawn_source_panel_diff_pane<
        E,
        F: FnOnce(SplitRequest) -> Result<NewPane, E>,
        A: FnOnce(PaneId),
        C: FnOnce(Option<PaneFocusTarget>, usize, PaneId),
    >(
        &mut self,
        context: &PaneContext,
        argv: &Vec<String>,
        source_cwd: &FsPath,
        spawn: F,
        remove_alias: A,
        record_focus: C,
    ) -> (shown: bool)
        requires
            old(self).wf(),
            can_spawn(*old(self), spawn),
            can_follow(remove_alias, record_focus),
        ensures
            is_spawn_outcome(
                *old(self),
                *final(self),
                *context,
                texts(argv@),
                source_cwd@,
                spawn,
                remove_alias,
                record_focus,
                shown,
            ),
            final(self).wf(),
    {
        let active_idx: usize = match self.active {
            Some(idx) => idx,
            None => {
                return false;
            },
        };
        let (rows, cols) = context.estimate;
        let new_rows: u16 = if rows / 2 < 4 {
            4
        } else {
            rows / 2
        };
        let new_cols: u16 = if cols / 2 < 10 {
            10
        } else {
            cols / 2
        };
        // Anchor the new pane to the active tab's focused cwd, falling back to the
        // clicked workspace's repo so it lands somewhere sensible on an empty tab.
        let focused_cwd = match self.current_tab() {
            Some(tab) => tab.cwd_for_pane(tab.layout.focused(), &self.terminals, context.live_cwds),
            None => None,
        };
        let pane_cwd = match focused_cwd {
            Some(cwd) => cwd,
            None => source_cwd.clone(),
        };
        assert(pane_cwd@ == new_pane_cwd(*self, *context, source_cwd@));
        let (target, direction) = match self.source_panel_split_target(context.pane_rects) {
            Some(target) => target,
            None => {
                return false;
            },
        };
        let ghost before = *self;
        let previous_focus = self.current_pane_focus_target();
        let result = self.workspaces[active_idx].split_pane_argv_command(
            target,
            direction,
            new_rows,
            new_cols,
            Some(pane_cwd.clone()),
            copy_texts(argv),
            true,
            spawn,
        );
        let new_pane = match result {
            Some(Ok((_, new_pane))) => new_pane,
            _ => {
                assert(self.workspaces@ =~= before.workspaces@);
                return false;
            },
        };
        remove_alias(new_pane.pane_id);
        self.terminals.insert(
            new_pane.terminal_id.raw,
            TerminalState {
                id: new_pane.terminal_id,
                cwd: pane_cwd,
                launch_argv: Some(copy_texts(argv)),
            },
        );
        record_focus(previous_focus, active_idx, new_pane.pane_id);
        self.source_panel_diff_pane = Some(new_pane.pane_id);
        self.session_dirty = true;
        self.mode = Mode::Terminal;
        proof {
            assert forall|i: int| 0 <= i < self.workspaces@.len() implies (
            #[trigger] self.workspaces@[i]).wf() by {
                assert(before.workspaces@[i].wf());
            }
        }
        true
    }

    /// Replace the source panel's diff pane content with `argv` (a `git
    /// diff`/`git show` command) when that pane is still open in the active tab,
    /// or spawn a fresh pane beside the largest one otherwise. `source_cwd` is
    /// the clicked workspace's repo, used only as a fallback working directory
    /// for a freshly spawned pane. Returns `true` when a pane showed the output.
    pub fn show_in_source_panel_diff_pane<
        E,
        R: FnOnce(RespawnRequest) -> bool,
        F: FnOnce(SplitRequest) -> Result<NewPane, E>,
        A: FnOnce(PaneId),
        C: FnOnce(Option<PaneFocusTarget>, usize, PaneId),
    >(
        &mut self,
        context: &PaneContext,
        argv: &Vec<String>,
        source_cwd: &FsPath,
        respawn: R,
        spawn: F,
        remove_alias: A,
        record_focus: C,
    ) -> (shown: bool)
        requires
            old(self).wf(),
            forall|request: RespawnRequest| #[trigger] call_requires(respawn, (request,)),
            can_spawn(*old(self), spawn),
            can_follow(remove_alias, record_focus),
        ensures
            is_show_outcome(
                *old(self),
                *final(self),
                *context,
                texts(argv@),
                source_cwd@,
                respawn,
                spawn,
                remove_alias,
                record_focus,
                shown,
            ),
            final(self).wf(),
    {
        if self.reuse_source_panel_diff_pane(context, argv, respawn) {
            return true;
        }
        assert(*self == *old(self));
        self.spawn_source_panel_diff_pane(
            context,
            argv,
            source_cwd,
            spawn,
            remove_alias,
            record_focus,
        )
    }
}

/// The command that shows a changed file's diff.
pub open spec fn file_diff_texts(cwd: Seq<u8>, change: ChangeView) -> Seq<Seq<char>> {
    pager_argv(
        if change.status is Untracked {
            "git -C \"$1\" diff --no-index --color /dev/null \"$2\""@
        } else {
            "git -C \"$1\" diff HEAD --color -- \"$2\""@
        },
        cwd,
        seq![lossy_text(change.path)],
    )
}

/// The command that shows a commit.
pub open spec fn commit_show_texts(cwd: Seq<u8>, sha: Seq<char>) -> Seq<Seq<char>> {
    pager_argv("git -C \"$1\" show --color \"$2\""@, cwd, seq![sha])
}

/// The command that shows what a commit did to a file.
pub open spec fn commit_file_texts(cwd: Seq<u8>, sha: Seq<char>, path: Seq<u8>) -> Seq<Seq<char>> {
    pager_argv(
        "git -C \"$1\" show --color \"$2\" -- \"$3\""@,
        cwd,
        seq![sha, lossy_text(path)],
    )
}

/// The sha of a commit of a workspace, where there is one.
pub open spec fn sha_at(app: AppState, ws_idx: int, log_idx: int) -> Option<Seq<char>> {
    if 0 <= ws_idx < app.workspaces@.len() && 0 <= log_idx
        < app.workspaces@[ws_idx].cached_log@.len() {
        match app.workspaces@[ws_idx].cached_log@[log_idx].sha {
            Some(sha) => Some(sha@),
            None => None,
        }
    } else {
        None
    }
}

/// The item is the working-tree diff of the path.
pub open spec fn marks_working_file(item: Option<SourcePanelActiveItem>, path: Seq<u8>) -> bool {
    item matches Some(SourcePanelActiveItem::WorkingFile(p)) && p@ == path
}

/// The item is the commit.
pub open spec fn marks_commit(item: Option<SourcePanelActiveItem>, sha: Seq<char>) -> bool {
    item matches Some(SourcePanelActiveItem::Commit(s)) && s@ == sha
}

/// The item is the file within the commit.
pub open spec fn marks_commit_file(
    item: Option<SourcePanelActiveItem>,
    sha: Seq<char>,
    path: Seq<u8>,
) -> bool {
    item matches Some(SourcePanelActiveItem::CommitFile { sha: s, path: p }) && s@ == sha && p@
        == path
}

/// The directory of a workspace.
pub open spec fn repo_of(app: AppState, ws_idx: int, context: PaneContext) -> Seq<u8> {
    app.workspaces@[ws_idx].identity_from(app.terminals@, context.live_cwds@)
}

/// `after` is what showing the command's output makes of `before`, with the item
/// remembered where a pane showed it.
pub open spec fn is_open_outcome<
    E,
    R: FnOnce(RespawnRequest) -> bool,
    F: FnOnce(SplitRequest) -> Result<NewPane, E>,
    A: FnOnce(PaneId),
    C: FnOnce(Option<PaneFocusTarget>, usize, PaneId),
>(
    before: AppState,
    after: AppState,
    context: PaneContext,
    argv: Seq<Seq<char>>,
    source_cwd: Seq<u8>,
    respawn: R,
    spawn: F,
    remove_alias: A,
    record_focus: C,
    shown: bool,
) -> bool {
    let unmarked = AppState {
        source_panel_active_item: before.source_panel_active_item,
        ..after
    };
    &&& is_show_outcome(
        before,
        unmarked,
        context,
        argv,
        source_cwd,
        respawn,
        spawn,
        remove_alias,
        record_focus,
        shown,
    )
    &&& !shown ==> after == unmarked
}

impl AppState {
    /// Open a changed file's diff. The diff is computed against the workspace
    /// whose change was clicked (`ws_idx`), via `git -C <identity_cwd>`, so it is
    /// independent of the pane's working directory. The output reuses the source
    /// panel's diff pane when one is open, else spawns a new pane. Returns `true`
    /// when a pane showed the diff.
    pub fn open_changed_file_diff<
        E,
        R: FnOnce(RespawnRequest) -> bool,
        F: FnOnce(SplitRequest) -> Result<NewPane, E>,
        A: FnOnce(PaneId),
        C: FnOnce(Option<PaneFocusTarget>, usize, PaneId),
    >(
        &mut self,
        context: &PaneContext,
        ws_idx: usize,
        change_idx: usize,
        respawn: R,
        spawn: F,
        remove_alias: A,
        record_focus: C,
    ) -> (shown: bool)
        requires
            old(self).wf(),
            forall|request: RespawnRequest| #[trigger] call_requires(respawn, (request,)),
            can_spawn(*old(self), spawn),
            can_follow(remove_alias, record_focus),
        ensures
            !(ws_idx < old(self).workspaces@.len() && change_idx
                < old(self).workspaces@[ws_idx as int].cached_changes@.len()) ==> !shown
                && *final(self) == *old(self),
            ws_idx < old(self).workspaces@.len() && change_idx
                < old(self).workspaces@[ws_idx as int].cached_changes@.len() ==> is_open_outcome(
                *old(self),
                *final(self),
                *context,
                file_diff_texts(
                    repo_of(*old(self), ws_idx as int, *context),
                    old(self).workspaces@[ws_idx as int].cached_changes@[change_idx as int]@,
                ),
                repo_of(*old(self), ws_idx as int, *context),
                respawn,
                spawn,
                remove_alias,
                record_focus,
                shown,
            ),
            shown ==> marks_working_file(
                final(self).source_panel_active_item,
                old(self).workspaces@[ws_idx as int].cached_changes@[change_idx as int].path@,
            ),
            final(self).wf(),
    {
        if ws_idx >= self.workspaces.len() || change_idx
            >= self.workspaces[ws_idx].changed_files().len() {
            return false;
        }
        let change = self.workspaces[ws_idx].changed_files()[change_idx].clone();
        let cwd = match self.workspaces[ws_idx].resolved_identity_cwd_from(
            &self.terminals,
            context.live_cwds,
        ) {
            Some(cwd) => cwd,
            None => {
                return false;
            },
        };
        let argv = changed_file_diff_argv(&cwd, &change);
        let ghost before = *self;
        let shown = self.show_in_source_panel_diff_pane(
            context,
            &argv,
            &cwd,
            respawn,
            spawn,
            remove_alias,
            record_focus,
        );
        let ghost unmarked = *self;
        if shown {
            self.source_panel_active_item = Some(SourcePanelActiveItem::WorkingFile(change.path));
        }
        assert((AppState {
            source_panel_active_item: before.source_panel_active_item,
            ..*self
        }) == unmarked);
        shown
    }

    /// Open a commit's `git show`. The command runs via `git -C <identity_cwd>`
    /// against the workspace whose commit was clicked (`ws_idx`), so it is
    /// independent of the pane's working directory. Connector-only rows (no sha)
    /// are ignored. The output reuses the source panel's diff pane when one is
    /// open, else spawns a new pane. Returns `true` when a pane showed the commit.
    pub fn open_commit_show<
        E,
        R: FnOnce(RespawnRequest) -> bool,
        F: FnOnce(SplitRequest) -> Result<NewPane, E>,
        A: FnOnce(PaneId),
        C: FnOnce(Option<PaneFocusTarget>, usize, PaneId),
    >(
        &mut self,
        context: &PaneContext,
        ws_idx: usize,
        log_idx: usize,
        respawn: R,
        spawn: F,
        remove_alias: A,
        record_focus: C,
    ) -> (shown: bool)
        requires
            old(self).wf(),
            forall|request: RespawnRequest| #[trigger] call_requires(respawn, (request,)),
            can_spawn(*old(self), spawn),
            can_follow(remove_alias, record_focus),
        ensures
            sha_at(*old(self), ws_idx as int, log_idx as int) is None ==> !shown && *final(self)
                == *old(self),
            sha_at(*old(self), ws_idx as int, log_idx as int) matches Some(sha)
                ==> is_open_outcome(
                *old(self),
                *final(self),
                *context,
                commit_show_texts(repo_of(*old(self), ws_idx as int, *context), sha),
                repo_of(*old(self), ws_idx as int, *context),
                respawn,
                spawn,
                remove_alias,
                record_focus,
                shown,
            ),
            shown ==> marks_commit(
                final(self).source_panel_active_item,
                sha_at(*old(self), ws_idx as int, log_idx as int)->0,
            ),
            final(self).wf(),
    {
        if ws_idx >= self.workspaces.len() || log_idx >= self.workspaces[ws_idx].commits().len() {
            return false;
        }
        let sha = match &self.workspaces[ws_idx].commits()[log_idx].sha {
            Some(sha) => sha.clone(),
            None => {
                return false;
            },
        };
        let cwd = match self.workspaces[ws_idx].resolved_identity_cwd_from(
            &self.terminals,
            context.live_cwds,
        ) {
            Some(cwd) => cwd,
            None => {
                return false;
            },
        };
        let argv = commit_show_argv(&cwd, sha.as_str());
        let ghost before = *self;
        let shown = self.show_in_source_panel_diff_pane(
            context,
            &argv,
            &cwd,
            respawn,
            spawn,
            remove_alias,
            record_focus,
        );
        let ghost unmarked = *self;
        if shown {
            self.source_panel_active_item = Some(SourcePanelActiveItem::Commit(sha));
        }
        assert((AppState {
            source_panel_active_item: before.source_panel_active_item,
            ..*self
        }) == unmarked);
        shown
    }
}

/// The file beneath a commit of a workspace, where it is known.
pub open spec fn commit_file_at(app: AppState, sha: Seq<char>, file_idx: int) -> Option<
    ChangedFile,
> {
    if app.source_panel_commit_files@.contains_key(sha) && 0 <= file_idx
        < app.source_panel_commit_files@[sha]@.len() {
        Some(app.source_panel_commit_files@[sha]@[file_idx])
    } else {
        None
    }
}

impl AppState {
    /// Open the diff of a single file within an expanded commit via `git show
    /// <sha> -- <path>`, reusing the source panel's diff pane when one is open.
    pub fn open_commit_file_diff<
        E,
        R: FnOnce(RespawnRequest) -> bool,
        F: FnOnce(SplitRequest) -> Result<NewPane, E>,
        A: FnOnce(PaneId),
        C: FnOnce(Option<PaneFocusTarget>, usize, PaneId),
    >(
        &mut self,
        context: &PaneContext,
        ws_idx: usize,
        log_idx: usize,
        file_idx: usize,
        respawn: R,
        spawn: F,
        remove_alias: A,
        record_focus: C,
    ) -> (shown: bool)
        requires
            old(self).wf(),
            forall|request: RespawnRequest| #[trigger] call_requires(respawn, (request,)),
            can_spawn(*old(self), spawn),
            can_follow(remove_alias, record_focus),
        ensures
            match sha_at(*old(self), ws_idx as int, log_idx as int) {
                None => !shown && *final(self) == *old(self),
                Some(sha) => match commit_file_at(*old(self), sha, file_idx as int) {
                    None => !shown && *final(self) == *old(self),
                    Some(change) => {
                        &&& is_open_outcome(
                            *old(self),
                            *final(self),
                            *context,
                            commit_file_texts(
                                repo_of(*old(self), ws_idx as int, *context),
                                sha,
                                change.path@,
                            ),
                            repo_of(*old(self), ws_idx as int, *context),
                            respawn,
                            spawn,
                            remove_alias,
                            record_focus,
                            shown,
                        )
                        &&& shown ==> marks_commit_file(
                            final(self).source_panel_active_item,
                            sha,
                            change.path@,
                        )
                    },
                },
            },
            final(self).wf(),
    {
        if ws_idx >= self.workspaces.len() || log_idx >= self.workspaces[ws_idx].commits().len() {
            return false;
        }
        let sha = match &self.workspaces[ws_idx].commits()[log_idx].sha {
            Some(sha) => sha.clone(),
            None => {
                return false;
            },
        };
        let change = match self.source_panel_commit_files.get(sha.as_str()) {
            Some(files) => if file_idx < files.len() {
                files[file_idx].clone()
            } else {
                return false;
            },
            None => {
                return false;
            },
        };
        let cwd = match self.workspaces[ws_idx].resolved_identity_cwd_from(
            &self.terminals,
            context.live_cwds,
        ) {
            Some(cwd) => cwd,
            None => {
                return false;
            },
        };
        let argv = commit_file_diff_argv(&cwd, sha.as_str(), &change);
        let ghost before = *self;
        let shown = self.show_in_source_panel_diff_pane(
            context,
            &argv,
            &cwd,
            respawn,
            spawn,
            remove_alias,
            record_focus,
        );
        let ghost unmarked = *self;
        if shown {
            self.source_panel_active_item = Some(
                SourcePanelActiveItem::CommitFile { sha, path: change.path },
            );
        }
        assert((AppState {
            source_panel_active_item: before.source_panel_active_item,
            ..*self
        }) == unmarked);
        shown
    }
}

/// What expanding a commit does: its files are fetched where they are not known
/// yet, and it is shown as expanded.
pub open spec fn is_expand_outcome<G: FnOnce(FsPath, String) -> Vec<ChangedFile>>(
    before: AppState,
    after: AppState,
    context: PaneContext,
    ws_idx: int,
    sha: Seq<char>,
    fetch: G,
) -> bool {
    if before.source_panel_commit_files@.contains_key(sha) {
        &&& after == (AppState {
            source_panel_expanded_commits: after.source_panel_expanded_commits,
            ..before
        })
        &&& after.source_panel_expanded_commits@ == before.source_panel_expanded_commits@.insert(
            sha,
        )
    } else if 0 <= ws_idx < before.workspaces@.len() {
        &&& after == (AppState {
            source_panel_expanded_commits: after.source_panel_expanded_commits,
            source_panel_commit_files: after.source_panel_commit_files,
            ..before
        })
        &&& after.source_panel_expanded_commits@ == before.source_panel_expanded_commits@.insert(
            sha,
        )
        &&& exists|cwd: FsPath, text: String, files: Vec<ChangedFile>| #[trigger]
            call_ensures(fetch, (cwd, text), files) && cwd@ == repo_of(before, ws_idx, context)
                && text@ == sha && after.source_panel_commit_files@
                == before.source_panel_commit_files@.insert(sha, files)
    } else {
        after == before
    }
}

/// The column of the chevron of a commit row.
pub open spec fn chevron_column(app: AppState, cell: Seq<char>) -> int {
    lesser(app.drawn_graph().x + (cell.len() % 0x10000) as int, u16::MAX as int)
}

/// What a click on a commit row does.
pub open spec fn is_click_outcome<
    E,
    R: FnOnce(RespawnRequest) -> bool,
    F: FnOnce(SplitRequest) -> Result<NewPane, E>,
    A: FnOnce(PaneId),
    C: FnOnce(Option<PaneFocusTarget>, usize, PaneId),
    G: FnOnce(FsPath, String) -> Vec<ChangedFile>,
>(
    before: AppState,
    after: AppState,
    context: PaneContext,
    ws_idx: int,
    log_idx: int,
    col: u16,
    respawn: R,
    spawn: F,
    remove_alias: A,
    record_focus: C,
    fetch: G,
) -> bool {
    match sha_at(before, ws_idx, log_idx) {
        None => after == before,
        Some(sha) => if !before.source_panel_expanded_commits@.contains(sha) {
            is_expand_outcome(before, after, context, ws_idx, sha, fetch)
        } else if col == chevron_column(
            before,
            before.workspaces@[ws_idx].cached_log@[log_idx].graph_cell@,
        ) {
            &&& after == (AppState {
                source_panel_expanded_commits: after.source_panel_expanded_commits,
                ..before
            })
            &&& after.source_panel_expanded_commits@
                == before.source_panel_expanded_commits@.remove(sha)
        } else {
            exists|shown: bool|
                #[trigger] is_open_outcome(
                    before,
                    after,
                    context,
                    commit_show_texts(repo_of(before, ws_idx, context), sha),
                    repo_of(before, ws_idx, context),
                    respawn,
                    spawn,
                    remove_alias,
                    record_focus,
                    shown,
                ) && (shown ==> marks_commit(after.source_panel_active_item, sha))
        },
    }
}

impl AppState {
    /// Fetch (once) and cache the files a commit touched, then mark it expanded so
    /// the Graph section renders them inline beneath the commit row. `fetch` asks
    /// git for the files of a commit in a directory.
    pub fn expand_source_panel_commit<G: FnOnce(FsPath, String) -> Vec<ChangedFile>>(
        &mut self,
        context: &PaneContext,
        ws_idx: usize,
        sha: &str,
        fetch: G,
    )
        requires
            forall|cwd: FsPath, text: String| #[trigger] call_requires(fetch, (cwd, text)),
        ensures
            is_expand_outcome(*old(self), *final(self), *context, ws_idx as int, sha@, fetch),
            old(self).wf() ==> final(self).wf(),
    {
        if !self.source_panel_commit_files.contains_key(sha) {
            if ws_idx >= self.workspaces.len() {
                return;
            }
            let cwd = match self.workspaces[ws_idx].resolved_identity_cwd_from(
                &self.terminals,
                context.live_cwds,
            ) {
                Some(cwd) => cwd,
                None => {
                    return;
                },
            };
            let text = sha.to_string();
            let ghost asked = (cwd, text);
            let files = fetch(cwd, text);
            assert(call_ensures(fetch, asked, files));
            self.source_panel_commit_files.insert(sha.to_string(), files);
        }
        let _ = self.source_panel_expanded_commits.insert(sha.to_string());
    }

    /// Handle a left-click on a commit row. A collapsed commit expands to reveal
    /// its files inline (fetching them the first time); clicking an
    /// already-expanded commit's leading chevron collapses it again, while
    /// clicking elsewhere on it opens its full `git show` in the diff pane.
    /// Connector-only rows (no sha) are ignored.
    pub fn click_source_panel_commit<
        E,
        R: FnOnce(RespawnRequest) -> bool,
        F: FnOnce(SplitRequest) -> Result<NewPane, E>,
        A: FnOnce(PaneId),
        C: FnOnce(Option<PaneFocusTarget>, usize, PaneId),
        G: FnOnce(FsPath, String) -> Vec<ChangedFile>,
    >(
        &mut self,
        context: &PaneContext,
        ws_idx: usize,
        log_idx: usize,
        col: u16,
        respawn: R,
        spawn: F,
        remove_alias: A,
        record_focus: C,
        fetch: G,
    )
        requires
            old(self).wf(),
            old(self).view.source_panel_rect.fits(),
            forall|request: RespawnRequest| #[trigger] call_requires(respawn, (request,)),
            can_spawn(*old(self), spawn),
            can_follow(remove_alias, record_focus),
            forall|cwd: FsPath, text: String| #[trigger] call_requires(fetch, (cwd, text)),
        ensures
            is_click_outcome(
                *old(self),
                *final(self),
                *context,
                ws_idx as int,
                log_idx as int,
                col,
                respawn,
                spawn,
                remove_alias,
                record_focus,
                fetch,
            ),
            final(self).wf(),
    {
        if ws_idx >= self.workspaces.len() || log_idx >= self.workspaces[ws_idx].commits().len() {
            return;
        }
        let sha = match &self.workspaces[ws_idx].commits()[log_idx].sha {
            Some(sha) => sha.clone(),
            None => {
                return;
            },
        };
        if !self.source_panel_expanded_commits.contains(sha.as_str()) {
            self.expand_source_panel_commit(context, ws_idx, sha.as_str(), fetch);
            return;
        }
        // Already expanded: the leading chevron (the cell right after the graph
        // glyphs) collapses; the rest of the row opens the commit.
        let cell: usize = to_chars(
            self.workspaces[ws_idx].commits()[log_idx].graph_cell.as_str(),
        ).len();
        let cell_columns: u16 = (cell % 0x10000) as u16;
        let left: u16 = self.source_panel_graph_rect().x;
        let chevron_col: u16 = if cell_columns > u16::MAX - left {
            u16::MAX
        } else {
            left + cell_columns
        };
        if col == chevron_col {
            let _ = self.source_panel_expanded_commits.remove(sha.as_str());
            return;
        }
        let ghost before = *self;
        let shown = self.open_commit_show(
            context,
            ws_idx,
            log_idx,
            respawn,
            spawn,
            remove_alias,
            record_focus,
        );
        assert(is_open_outcome(
            before,
            *self,
            *context,
            commit_show_texts(repo_of(before, ws_idx as int, *context), sha@),
            repo_of(before, ws_idx as int, *context),
            respawn,
            spawn,
            remove_alias,
            record_focus,
            shown,
        ));
    }
}

/// A reused diff pane is still open, so what it shows is highlighted.
pub proof fn law_reused_pane_is_live(
    before: AppState,
    after: AppState,
    terminal: TerminalId,
    argv: Seq<Seq<char>>,
)
    requires
        before.reusable_terminal() == Some(terminal),
        is_reused(before, after, terminal, argv),
    ensures
        after.diff_pane_is_live(),
        after.highlighted() == after.source_panel_active_item,
{
}

/// A new diff pane is open and can be reused, so that the next command is shown in
/// it and nothing is split again.
pub proof fn law_spawned_pane_is_reusable(
    before: AppState,
    after: AppState,
    target: PaneId,
    pane: NewPane,
    argv: Seq<Seq<char>>,
    cwd: Seq<u8>,
)
    requires
        before.wf(),
        after.wf(),
        before.has_current_tab(),
        before.current().panes@.contains_key(target.raw),
        is_spawned(before, after, target, pane, argv, cwd),
    ensures
        after.diff_pane_is_live(),
        after.reusable_terminal() == Some(pane.terminal_id),
        after.highlighted() == after.source_panel_active_item,
{
    let idx = before.active->0 as int;
    let ws = before.workspaces@[idx];
    let now = after.workspaces@[idx];
    let at = ws.active_tab as int;
    assert(ws.wf());
    assert(now.wf());
    crate::workspace::lemma_place_of_tab(ws, target.raw, at);
    let tab = now.tabs@[at];
    assert(tab.panes@.contains_key(pane.pane_id.raw));
    assert(tab.wf());
    assert(tab.layout.panes@.contains(pane.pane_id));
    crate::workspace::lemma_place_of_tab(now, pane.pane_id.raw, at);
}

/// Once the diff pane is closed, nothing is highlighted.
pub proof fn law_closed_diff_pane_is_not_highlighted(
    before: AppState,
    after: AppState,
    pane: PaneId,
)
    requires
        before.wf(),
        after.wf(),
        before.has_current_tab(),
        before.source_panel_diff_pane == Some(pane),
        after == (AppState { workspaces: after.workspaces, ..before }),
        after.workspaces@ == before.workspaces@.update(
            before.active->0 as int,
            after.current_workspace(),
        ),
        is_pane_gone(before.current_workspace(), after.current_workspace(), pane, false),
    ensures
        !after.diff_pane_is_live(),
        after.highlighted() is None,
{
    let ws = before.current_workspace();
    let now = after.current_workspace();
    assert(ws.wf() && now.wf());
    if has_pane(ws.tabs@, pane.raw) {
        crate::workspace::lemma_has_place(ws.tabs@, pane.raw);
        assert(!now.public_pane_numbers@.contains_key(pane.raw));
    }
    assert(!has_pane(now.tabs@, pane.raw));
    let tab = now.tabs@[now.active_tab as int];
    assert(tab.wf());
    assert(!tab.panes@.contains_key(pane.raw));
    assert(!tab.layout.panes@.contains(pane));
}

/// A pane has as many cells as columns times rows. One that is at least twice as wide as high,
/// in cells, is split side by side, and another one into an upper and a lower part.
pub proof fn law_split_along_the_longer_side(pane: PaneRect)
    ensures
        cell_count(pane) == pane.rect.width as int * pane.rect.height as int,
        split_direction(pane) == Direction::Horizontal <==> pane.rect.width as int
            >= pane.rect.height as int + pane.rect.height as int,
        split_direction(pane) == Direction::Vertical <==> (pane.rect.width as int)
            < pane.rect.height as int + pane.rect.height as int,
{
}

/// The split takes the largest pane of the active tab, the last of several, and there is one
/// wherever the tab shows a pane.
pub proof fn law_split_target(app: AppState, panes: Seq<PaneRect>, i: int)
    requires
        0 <= i < panes.len(),
        forall|j: int|
            0 <= j < panes.len() ==> (#[trigger] panes[j]).rect.width * panes[j].rect.height
                <= panes[i].rect.width * panes[i].rect.height,
        forall|j: int|
            i < j < panes.len() ==> (#[trigger] panes[j]).rect.width * panes[j].rect.height
                < panes[i].rect.width * panes[i].rect.height,
    ensures
        app.has_current_tab() ==> app.split_target(panes) == Some(
            (panes[i].id, split_direction(panes[i])),
        ),
        !app.has_current_tab() ==> app.split_target(panes) is None,
        app.split_target(seq![]) is None,
{
    law_largest_pane(panes);
    let k = largest_pane(panes);
    if k < i {
        assert(cell_count(panes[i]) < cell_count(panes[k]));
        assert(panes[k].rect.width * panes[k].rect.height <= panes[i].rect.width
            * panes[i].rect.height);
    } else if k > i {
        assert(panes[k].rect.width * panes[k].rect.height < panes[i].rect.width
            * panes[i].rect.height);
        assert(cell_count(panes[i]) <= cell_count(panes[k]));
    }
}

/// A new pane gets half of what there is, but no less than the least.
pub proof fn law_half(n: u16, least: u16)
    ensures
        half(n, least) >= least,
        half(n, least) == least || 2 * half(n, least) == n || 2 * half(n, least) + 1 == n,
        2 * half(n, least) > n + 1 ==> half(n, least) == least,
        n >= 2 * least ==> half(n, least) == n / 2,
{
}

/// A new diff pane starts where the focused pane is, as far as that is known, and in the
/// clicked repository otherwise.
pub proof fn law_directory_of_new_pane(app: AppState, context: PaneContext, source_cwd: Seq<u8>)
    ensures
        ({
            let cwd = new_pane_cwd(app, context, source_cwd);
            let tab = app.current();
            let known = tab.pane_cwd(tab.layout.focus, app.terminals@, context.live_cwds@);
            &&& !app.has_current_tab() ==> cwd == source_cwd
            &&& app.has_current_tab() && known is None ==> cwd == source_cwd
            &&& app.has_current_tab() && known is Some ==> Some(cwd) == known
        }),
{
}

/// The chevron that collapses a commit is clicked where it is drawn: as far from the left of
/// the graph as the strokes of its row are wide.
pub proof fn law_chevron_is_where_it_is_drawn(app: AppState, commit: crate::source_control::CommitView)
    requires
        commit.sha is Some,
        app.drawn_graph().x + commit.graph_cell.len() <= u16::MAX,
    ensures
        ({
            let at = chevron_column(app, commit.graph_cell) - app.drawn_graph().x;
            let open = crate::render::line_text(crate::render::commit_spans(commit, true));
            let shut = crate::render::line_text(crate::render::commit_spans(commit, false));
            &&& 0 <= at < open.len() && at < shut.len()
            &&& open[at] == '\u{25be}' && shut[at] == '\u{25b8}'
        }),
{
    crate::render::law_commit_row_reads(commit, true);
    crate::render::law_commit_row_reads(commit, false);
}

/// The commands that show diffs get the repository and what is to be shown as they are, in
/// this order, and run in the same way whatever those are.
pub proof fn law_diff_commands(
    cwd: Seq<u8>,
    change: ChangeView,
    other: ChangeView,
    sha: Seq<char>,
    path: Seq<u8>,
)
    ensures
        file_diff_texts(cwd, change).skip(4) == seq![lossy_text(cwd), lossy_text(change.path)],
        commit_show_texts(cwd, sha).skip(4) == seq![lossy_text(cwd), sha],
        commit_file_texts(cwd, sha, path).skip(4) == seq![lossy_text(cwd), sha, lossy_text(path)],
        (change.status is Untracked) == (other.status is Untracked) ==> file_diff_texts(
            cwd,
            change,
        ).take(4) == file_diff_texts(cwd, other).take(4),
        change.status is Untracked && !(other.status is Untracked) ==> file_diff_texts(
            cwd,
            change,
        )[2] != file_diff_texts(cwd, other)[2],
{
    assert(file_diff_texts(cwd, change).skip(4) =~= seq![
        lossy_text(cwd),
        lossy_text(change.path),
    ]);
    assert(commit_show_texts(cwd, sha).skip(4) =~= seq![lossy_text(cwd), sha]);
    assert(commit_file_texts(cwd, sha, path).skip(4) =~= seq![
        lossy_text(cwd),
        sha,
        lossy_text(path),
    ]);
    assert(file_diff_texts(cwd, other).take(4) =~= seq![
        file_diff_texts(cwd, other)[0],
        file_diff_texts(cwd, other)[1],
        file_diff_texts(cwd, other)[2],
        file_diff_texts(cwd, other)[3],
    ]);
    assert((change.status is Untracked) == (other.status is Untracked) ==> file_diff_texts(
        cwd,
        change,
    ).take(4) =~= file_diff_texts(cwd, other).take(4));
    reveal_strlit("git -C \"$1\" diff --no-index --color /dev/null \"$2\"");
    reveal_strlit("git -C \"$1\" diff HEAD --color -- \"$2\"");
    let a = "git -C \"$1\" diff --no-index --color /dev/null \"$2\""@ + " | LESS=-R less"@;
    let b = "git -C \"$1\" diff HEAD --color -- \"$2\""@ + " | LESS=-R less"@;
    assert(a[17] != b[17]);
}

/// A commit's files are fetched once: expanding it again, from whatever state, changes nothing
/// about them.
pub proof fn law_files_are_fetched_once<G: FnOnce(FsPath, String) -> Vec<ChangedFile>>(
    before: AppState,
    middle: AppState,
    after: AppState,
    context: PaneContext,
    ws_idx: int,
    sha: Seq<char>,
    fetch1: G,
    fetch2: G,
)
    requires
        0 <= ws_idx < before.workspaces@.len(),
        is_expand_outcome(before, middle, context, ws_idx, sha, fetch1),
        is_expand_outcome(middle, after, context, ws_idx, sha, fetch2),
    ensures
        middle.source_panel_expanded_commits@.contains(sha),
        middle.source_panel_commit_files@.contains_key(sha),
        after.source_panel_commit_files@ == middle.source_panel_commit_files@,
        after.source_panel_expanded_commits@ == middle.source_panel_expanded_commits@,
{
    assert(middle.source_panel_expanded_commits@.insert(sha)
        =~= middle.source_panel_expanded_commits@);
}

/// A terminal that runs keeps its size when it runs something else.
pub proof fn law_size_is_kept(context: PaneContext, id: TerminalId)
    ensures
        context.sizes@.contains_key(id.raw) ==> terminal_size(context, id)
            == context.sizes@[id.raw],
        !context.sizes@.contains_key(id.raw) ==> terminal_size(context, id) == context.estimate,
{
}

/// A click on a collapsed commit opens it, wherever the row is hit. One on an open commit closes
/// it where the chevron stands, right behind the strokes of the row, and leaves it open
/// elsewhere. No click opens or closes another commit or forgets fetched files, and one that
/// opens or closes a commit leaves the panes alone.
pub proof fn law_click_on_a_commit<
    E,
    R: FnOnce(RespawnRequest) -> bool,
    F: FnOnce(SplitRequest) -> Result<NewPane, E>,
    A: FnOnce(PaneId),
    C: FnOnce(Option<PaneFocusTarget>, usize, PaneId),
    G: FnOnce(FsPath, String) -> Vec<ChangedFile>,
>(
    before: AppState,
    after: AppState,
    context: PaneContext,
    ws_idx: int,
    log_idx: int,
    col: u16,
    respawn: R,
    spawn: F,
    remove_alias: A,
    record_focus: C,
    fetch: G,
    sha: String,
    other: Seq<char>,
)
    requires
        is_click_outcome(
            before,
            after,
            context,
            ws_idx,
            log_idx,
            col,
            respawn,
            spawn,
            remove_alias,
            record_focus,
            fetch,
        ),
        0 <= ws_idx < before.workspaces@.len(),
        0 <= log_idx < before.workspaces@[ws_idx].cached_log@.len(),
        before.workspaces@[ws_idx].cached_log@[log_idx].sha == Some(sha),
        before.drawn_graph().x
            + before.workspaces@[ws_idx].cached_log@[log_idx].graph_cell@.len() <= u16::MAX,
    ensures
        ({
            let drawn = before.drawn_graph().x
                + before.workspaces@[ws_idx].cached_log@[log_idx].graph_cell@.len();
            let open = before.source_panel_expanded_commits@.contains(sha@);
            &&& !open ==> after.source_panel_expanded_commits@.contains(sha@)
                && after.source_panel_commit_files@.contains_key(sha@)
            &&& open && col == drawn ==> !after.source_panel_expanded_commits@.contains(sha@)
            &&& open && col != drawn ==> after.source_panel_expanded_commits@.contains(sha@)
            &&& other != sha@ ==> after.source_panel_expanded_commits@.contains(other)
                == before.source_panel_expanded_commits@.contains(other)
            &&& before.source_panel_commit_files@.contains_key(other)
                ==> after.source_panel_commit_files@.contains_key(other)
                && after.source_panel_commit_files@[other]
                == before.source_panel_commit_files@[other]
            &&& !open || col == drawn ==> after.workspaces == before.workspaces && after.terminals
                == before.terminals && after.source_panel_diff_pane
                == before.source_panel_diff_pane && after.source_panel_active_item
                == before.source_panel_active_item && after.mode == before.mode
        }),
{
}

/// A click on a row without a commit does nothing.
pub proof fn law_click_on_a_connector<
    E,
    R: FnOnce(RespawnRequest) -> bool,
    F: FnOnce(SplitRequest) -> Result<NewPane, E>,
    A: FnOnce(PaneId),
    C: FnOnce(Option<PaneFocusTarget>, usize, PaneId),
    G: FnOnce(FsPath, String) -> Vec<ChangedFile>,
>(
    before: AppState,
    after: AppState,
    context: PaneContext,
    ws_idx: int,
    log_idx: int,
    col: u16,
    respawn: R,
    spawn: F,
    remove_alias: A,
    record_focus: C,
    fetch: G,
)
    requires
        is_click_outcome(
            before,
            after,
            context,
            ws_idx,
            log_idx,
            col,
            respawn,
            spawn,
            remove_alias,
            record_focus,
            fetch,
        ),
        0 <= ws_idx < before.workspaces@.len() && 0 <= log_idx
            < before.workspaces@[ws_idx].cached_log@.len()
            ==> before.workspaces@[ws_idx].cached_log@[log_idx].sha is None,
    ensures
        after == before,
{
}

/// Where no pane showed a command's output, the state is as it was. Where one did, a diff pane is
/// remembered, the terminal has the input, the session is to be saved, and the other workspaces
/// and the other terminals are as they were.
pub proof fn law_shown_or_unchanged<
    E,
    R: FnOnce(RespawnRequest) -> bool,
    F: FnOnce(SplitRequest) -> Result<NewPane, E>,
    A: FnOnce(PaneId),
    C: FnOnce(Option<PaneFocusTarget>, usize, PaneId),
>(
    before: AppState,
    after: AppState,
    context: PaneContext,
    argv: Seq<Seq<char>>,
    source_cwd: Seq<u8>,
    respawn: R,
    spawn: F,
    remove_alias: A,
    record_focus: C,
    shown: bool,
    other: int,
)
    requires
        is_open_outcome(
            before,
            after,
            context,
            argv,
            source_cwd,
            respawn,
            spawn,
            remove_alias,
            record_focus,
            shown,
        ),
        0 <= other < before.workspaces@.len(),
    ensures
        !shown ==> after.workspaces@ == before.workspaces@ && after == (AppState {
            workspaces: after.workspaces,
            ..before
        }),
        shown ==> after.source_panel_diff_pane is Some && after.mode == Mode::Terminal
            && after.session_dirty && before.active is Some,
        after.workspaces@.len() == before.workspaces@.len(),
        after.active == before.active,
        before.active != Some(other as usize) ==> after.workspaces@[other]
            == before.workspaces@[other],
        after.source_panel_expanded_commits == before.source_panel_expanded_commits,
        after.source_panel_commit_files == before.source_panel_commit_files,
{
}

/// A reused pane gets the focus and runs the command; no pane is added, and no terminal but its
/// own changes.
pub proof fn law_reused_pane_runs_the_command(
    before: AppState,
    after: AppState,
    terminal: TerminalId,
    argv: Seq<Seq<char>>,
    other: u64,
)
    requires
        before.has_current_tab(),
        before.source_panel_diff_pane is Some,
        is_reused(before, after, terminal, argv),
    ensures
        after.has_current_tab(),
        Some(after.current().layout.focus) == before.source_panel_diff_pane,
        after.source_panel_diff_pane == before.source_panel_diff_pane,
        after.current().panes == before.current().panes,
        after.current().layout.panes@ == before.current().layout.panes@,
        after.terminals@[terminal.raw].launch_argv matches Some(list) && texts(list@) == argv,
        after.terminals@[terminal.raw].cwd == before.terminals@[terminal.raw].cwd,
        other != terminal.raw ==> after.terminals@.contains_key(other)
            == before.terminals@.contains_key(other),
        other != terminal.raw && before.terminals@.contains_key(other) ==> after.terminals@[other]
            == before.terminals@[other],
        after.suppress_pane_death@.contains_key(before.source_panel_diff_pane->0.raw),
{
}

/// A new diff pane is asked for beside the largest pane of the active tab, with half the
/// estimated rows and columns, but at least four rows and ten columns.
pub proof fn law_request_for_new_pane<
    E,
    F: FnOnce(SplitRequest) -> Result<NewPane, E>,
    A: FnOnce(PaneId),
    C: FnOnce(Option<PaneFocusTarget>, usize, PaneId),
>(
    before: AppState,
    after: AppState,
    context: PaneContext,
    argv: Seq<Seq<char>>,
    source_cwd: Seq<u8>,
    spawn: F,
    remove_alias: A,
    record_focus: C,
) -> (asked: (SplitRequest, NewPane))
    requires
        is_spawn_outcome(
            before,
            after,
            context,
            argv,
            source_cwd,
            spawn,
            remove_alias,
            record_focus,
            true,
        ),
    ensures
        call_ensures(spawn, (asked.0,), Ok::<NewPane, E>(asked.1)),
        before.split_target(context.pane_rects@) == Some((asked.0.pane_id, asked.0.direction)),
        asked.0.rows >= 4 && asked.0.cols >= 10,
        context.estimate.0 >= 8 ==> asked.0.rows == context.estimate.0 / 2,
        context.estimate.0 < 8 ==> asked.0.rows == 4,
        context.estimate.1 >= 20 ==> asked.0.cols == context.estimate.1 / 2,
        context.estimate.1 < 20 ==> asked.0.cols == 10,
        asked.0.argv matches Some(list) && texts(list@) == argv,
        after.source_panel_diff_pane == Some(asked.1.pane_id),
        after.terminals@.contains_key(asked.1.terminal_id.raw),
        asked.0.cwd matches Some(cwd) && cwd@ == after.terminals@[asked.1.terminal_id.raw].cwd@,
{
    let (target, direction) = before.split_target(context.pane_rects@)->0;
    let cwd = new_pane_cwd(before, context, source_cwd);
    let (request, outcome) = choose|request: SplitRequest, outcome: Result<NewPane, E>| #[trigger]
        call_ensures(spawn, (request,), outcome) && is_split_request(
            request,
            target,
            direction,
            Some(cwd),
            half(context.estimate.0, 4),
            half(context.estimate.1, 10),
            Some(argv),
        ) && match outcome {
            Ok(pane) => true && is_spawned(before, after, target, pane, argv, cwd) && is_followed(
                before,
                pane.pane_id,
                remove_alias,
                record_focus,
            ),
            Err(_) => !true && is_unchanged(before, after),
        };
    (request, outcome->Ok_0)
}

/// The focus is on the focused pane of the active tab of the active workspace, and nowhere where
/// there is none.
pub proof fn law_focus(app: AppState, idx: usize)
    requires
        app.active == Some(idx),
        idx < app.workspaces@.len(),
        app.workspaces@[idx as int].active_tab < app.workspaces@[idx as int].tabs@.len(),
    ensures
        ({
            let ws = app.workspaces@[idx as int];
            app.focus_target() == Some(
                PaneFocusTarget {
                    ws_idx: idx,
                    pane_id: ws.tabs@[ws.active_tab as int].layout.focus,
                },
            )
        }),
        (AppState { active: None, ..app }).focus_target() is None,
{
}

/// What the shell runs to show a diff: an untracked file is compared with nothing, another one
/// with the last commit, and the output goes through the pager with its colors.
pub proof fn law_diff_scripts(cwd: Seq<u8>, change: ChangeView, sha: Seq<char>, path: Seq<u8>)
    ensures
        change.status is Untracked ==> file_diff_texts(cwd, change).take(4) == seq![
            "sh"@,
            "-c"@,
            "git -C \"$1\" diff --no-index --color /dev/null \"$2\""@ + " | LESS=-R less"@,
            "sh"@,
        ],
        !(change.status is Untracked) ==> file_diff_texts(cwd, change).take(4) == seq![
            "sh"@,
            "-c"@,
            "git -C \"$1\" diff HEAD --color -- \"$2\""@ + " | LESS=-R less"@,
            "sh"@,
        ],
        commit_show_texts(cwd, sha).take(4) == seq![
            "sh"@,
            "-c"@,
            "git -C \"$1\" show --color \"$2\""@ + " | LESS=-R less"@,
            "sh"@,
        ],
        commit_file_texts(cwd, sha, path).take(4) == seq![
            "sh"@,
            "-c"@,
            "git -C \"$1\" show --color \"$2\" -- \"$3\""@ + " | LESS=-R less"@,
            "sh"@,
        ],
{
}

/// The diff pane can be reused where it is open in the active tab and its terminal is known; its
/// terminal is that of the pane in the tab.
pub proof fn law_reusable_terminal(app: AppState, idx: usize, pane: PaneId)
    requires
        app.wf(),
        app.active == Some(idx),
        idx < app.workspaces@.len(),
        app.source_panel_diff_pane == Some(pane),
    ensures
        ({
            let ws = app.workspaces@[idx as int];
            let tab = ws.tabs@[ws.active_tab as int];
            let terminal = tab.panes@[pane.raw].terminal_id;
            app.reusable_terminal() == if tab.layout.panes@.contains(pane)
                && app.terminals@.contains_key(terminal.raw) {
                Some(terminal)
            } else {
                None
            }
        }),
        (AppState { source_panel_diff_pane: None, ..app }).reusable_terminal() is None,
        (AppState { active: None, ..app }).reusable_terminal() is None,
{
    let ws = app.workspaces@[idx as int];
    assert(ws.wf());
    let tab = ws.tabs@[ws.active_tab as int];
    assert(tab.wf());
    if tab.layout.panes@.contains(pane) {
        assert(tab.panes@.contains_key(pane.raw));
        crate::workspace::lemma_place_of_tab(ws, pane.raw, ws.active_tab as int);
    }
}

/// What is asked for where the diff pane is reused: the command in that pane and its terminal, in
/// the directory and with the size that the terminal has.
pub proof fn law_request_for_reuse<F: FnOnce(RespawnRequest) -> bool>(
    before: AppState,
    after: AppState,
    context: PaneContext,
    argv: Seq<Seq<char>>,
    respawn: F,
    reused: bool,
    terminal: TerminalId,
) -> (asked: RespawnRequest)
    requires
        before.reusable_terminal() == Some(terminal),
        is_reuse_outcome(before, after, context, argv, respawn, reused),
    ensures
        call_ensures(respawn, (asked,), reused),
        Some(asked.pane_id) == before.source_panel_diff_pane,
        asked.terminal_id == terminal,
        texts(asked.argv@) == argv,
        asked.cwd@ == before.terminals@[terminal.raw].cwd@,
        context.sizes@.contains_key(terminal.raw) ==> asked.rows == context.sizes@[terminal.raw].0
            && asked.cols == context.sizes@[terminal.raw].1,
        !context.sizes@.contains_key(terminal.raw) ==> asked.rows == context.estimate.0
            && asked.cols == context.estimate.1,
        !reused ==> after == before,
{
    choose|request: RespawnRequest| #[trigger]
        call_ensures(respawn, (request,), reused) && is_respawn_request(
            request,
            before,
            terminal,
            context,
            argv,
        ) && if reused {
            is_reused(before, after, terminal, argv)
        } else {
            after == before
        }
}

/// The diff pane is reused wherever that works, and otherwise a pane is split off; one that
/// cannot be reused is not touched.
pub proof fn law_reuse_comes_first<
    E,
    R: FnOnce(RespawnRequest) -> bool,
    F: FnOnce(SplitRequest) -> Result<NewPane, E>,
    A: FnOnce(PaneId),
    C: FnOnce(Option<PaneFocusTarget>, usize, PaneId),
>(
    before: AppState,
    after: AppState,
    context: PaneContext,
    argv: Seq<Seq<char>>,
    source_cwd: Seq<u8>,
    respawn: R,
    spawn: F,
    remove_alias: A,
    record_focus: C,
    shown: bool,
)
    requires
        is_show_outcome(
            before,
            after,
            context,
            argv,
            source_cwd,
            respawn,
            spawn,
            remove_alias,
            record_focus,
            shown,
        ),
    ensures
        before.reusable_terminal() is None ==> is_spawn_outcome(
            before,
            after,
            context,
            argv,
            source_cwd,
            spawn,
            remove_alias,
            record_focus,
            shown,
        ),
        before.reusable_terminal() matches Some(terminal) && (forall|request: RespawnRequest|
            !#[trigger] call_ensures(respawn, (request,), false)) ==> shown && is_reused(
            before,
            after,
            before.reusable_terminal()->0,
            argv,
        ),
{
}

/// A commit is found by its workspace and its row, and a file beneath it by its position; their
/// repository is the directory of that workspace.
pub proof fn law_items_of_the_graph(
    app: AppState,
    context: PaneContext,
    ws_idx: int,
    log_idx: int,
    file_idx: int,
    sha: Seq<char>,
)
    ensures
        0 <= ws_idx < app.workspaces@.len() && 0 <= log_idx
            < app.workspaces@[ws_idx].cached_log@.len() ==> {
            let found = app.workspaces@[ws_idx].cached_log@[log_idx].sha;
            &&& found matches Some(text) ==> sha_at(app, ws_idx, log_idx) == Some(text@)
            &&& found is None ==> sha_at(app, ws_idx, log_idx) is None
        },
        !(0 <= ws_idx < app.workspaces@.len()) || log_idx < 0 || log_idx
            >= app.workspaces@[ws_idx].cached_log@.len() ==> sha_at(app, ws_idx, log_idx) is None,
        app.source_panel_commit_files@.contains_key(sha) && 0 <= file_idx
            < app.source_panel_commit_files@[sha]@.len() ==> commit_file_at(app, sha, file_idx)
            == Some(app.source_panel_commit_files@[sha]@[file_idx]),
        !app.source_panel_commit_files@.contains_key(sha) || file_idx < 0 || file_idx
            >= app.source_panel_commit_files@[sha]@.len() ==> commit_file_at(app, sha, file_idx)
            is None,
        repo_of(app, ws_idx, context) == app.workspaces@[ws_idx].identity_from(
            app.terminals@,
            context.live_cwds@,
        ),
{
}

/// What the diff pane shows is marked as what it is: a commit, a file within one, or a file of
/// the working tree, and never as two of these.
pub proof fn law_marks(
    item: Option<SourcePanelActiveItem>,
    sha: Seq<char>,
    path: Seq<u8>,
    other: Seq<char>,
    text: String,
    file: FsPath,
)
    requires
        text@ == sha,
        file@ == path,
    ensures
        marks_commit(Some(SourcePanelActiveItem::Commit(text)), sha),
        marks_working_file(Some(SourcePanelActiveItem::WorkingFile(file)), path),
        marks_commit_file(
            Some(SourcePanelActiveItem::CommitFile { sha: text, path: file }),
            sha,
            path,
        ),
        marks_commit(item, sha) ==> !marks_working_file(item, path) && !marks_commit_file(
            item,
            sha,
            path,
        ),
        marks_working_file(item, path) ==> !marks_commit_file(item, sha, path),
        !marks_commit(None, sha) && !marks_working_file(None, path) && !marks_commit_file(
            None,
            sha,
            path,
        ),
        marks_commit(Some(SourcePanelActiveItem::Commit(text)), other) ==> other == sha,
{
}

} // verus!
