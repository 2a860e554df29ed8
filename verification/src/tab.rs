//! A tab of a workspace: its panes, which of them has the focus, and the
//! terminals that they show.
use crate::ids::{IdMap, PaneId, TerminalId};
use crate::path::FsPath;
use crate::text::{decimal, digits};
use vstd::prelude::*;

verus! {

/// What a tab keeps about one of its panes.
#[derive(Debug, Clone, Copy, PartialEq, Eq, Structural)]
pub struct PaneState {
    pub terminal_id: TerminalId,
    /// Whether the user has looked at the pane since it last changed.
    pub seen: bool,
}

impl PaneState {
    /// A pane that shows the given terminal.
    pub fn new(terminal_id: TerminalId) -> (state: PaneState)
        ensures
            state == (PaneState { terminal_id, seen: true }),
    {
        PaneState { terminal_id, seen: true }
    }
}

/// What is known about a terminal apart from its process.
pub struct TerminalState {
    pub id: TerminalId,
    /// The directory the terminal was started in or last reported.
    pub cwd: FsPath,
    /// The command the terminal runs in place of a shell.
    pub launch_argv: Option<Vec<String>>,
}

impl TerminalState {
    /// A terminal with a shell in `cwd`.
    pub fn new(id: TerminalId, cwd: FsPath) -> (state: TerminalState)
        ensures
            state.id == id,
            state.cwd == cwd,
            state.launch_argv is None,
    {
        TerminalState { id, cwd, launch_argv: None }
    }
}

/// A pane that has just been started.
#[derive(Debug, Clone, Copy, PartialEq, Eq, Structural)]
pub struct NewPane {
    pub pane_id: PaneId,
    pub terminal_id: TerminalId,
}

/// The position of the first `a` in `s`, or the length of `s` without one.
pub open spec fn place_of(s: Seq<PaneId>, a: PaneId) -> int
    decreases s.len(),
{
    if s.len() == 0 || s[0] == a {
        0
    } else {
        1 + place_of(s.skip(1), a)
    }
}

/// What singles out the position that [`place_of`] gives.
pub proof fn lemma_place_of(s: Seq<PaneId>, a: PaneId, i: int)
    requires
        0 <= i <= s.len(),
        forall|j: int| 0 <= j < i ==> s[j] != a,
        i < s.len() ==> s[i] == a,
    ensures
        place_of(s, a) == i,
    decreases s.len(),
{
    if i > 0 {
        lemma_place_of(s.skip(1), a, i - 1);
    }
}

/// The panes of a tab in their order, and the one with the focus.
pub struct TileLayout {
    pub panes: Vec<PaneId>,
    pub focus: PaneId,
}

impl TileLayout {
    /// Every pane stands once, and the focus is on one of them.
    pub open spec fn wf(self) -> bool {
        &&& self.panes@.no_duplicates()
        &&& self.panes@.contains(self.focus)
    }

    /// The layout of a single pane.
    pub fn new(root: PaneId) -> (layout: TileLayout)
        ensures
            layout.panes@ == seq![root],
            layout.focus == root,
            layout.wf(),
    {
        let mut panes: Vec<PaneId> = Vec::new();
        panes.push(root);
        assert(panes@ == seq![root]);
        assert(panes@[0] == root);
        TileLayout { panes, focus: root }
    }

    /// The pane with the focus.
    pub fn focused(&self) -> (id: PaneId)
        ensures
            id == self.focus,
    {
        self.focus
    }

    /// The number of panes.
    pub fn pane_count(&self) -> (n: usize)
        ensures
            n == self.panes@.len(),
    {
        self.panes.len()
    }

    fn position(&self, id: PaneId) -> (at: usize)
        ensures
            at == place_of(self.panes@, id),
            at <= self.panes@.len(),
            at < self.panes@.len() <==> self.panes@.contains(id),
            at < self.panes@.len() ==> self.panes@[at as int] == id,
    {
        let mut i: usize = 0;
        while i < self.panes.len() && self.panes[i] != id
            invariant
                i <= self.panes@.len(),
                forall|j: int| 0 <= j < i ==> self.panes@[j] != id,
            decreases self.panes@.len() - i,
        {
            i += 1;
        }
        proof {
            lemma_place_of(self.panes@, id, i as int);
            if i < self.panes@.len() {
                assert(self.panes@[i as int] == id);
            }
        }
        i
    }

    /// Whether the layout holds the pane.
    pub fn contains(&self, id: PaneId) -> (r: bool)
        ensures
            r == self.panes@.contains(id),
    {
        self.position(id) < self.panes.len()
    }

    /// Moves the focus to a pane of the layout.
    pub fn focus_pane(&mut self, id: PaneId)
        ensures
            final(self).panes == old(self).panes,
            final(self).focus == if old(self).panes@.contains(id) {
                id
            } else {
                old(self).focus
            },
            old(self).wf() ==> final(self).wf(),
    {
        if self.contains(id) {
            self.focus = id;
        }
    }

    /// Places a new pane right behind another one. The focus stays where it is.
    pub fn split_at(&mut self, target: PaneId, new_id: PaneId)
        ensures
            final(self).focus == old(self).focus,
            old(self).panes@.contains(target) ==> final(self).panes@ == old(self).panes@.insert(
                place_of(old(self).panes@, target) + 1,
                new_id,
            ),
            !old(self).panes@.contains(target) ==> final(self).panes@ == old(self).panes@,
    {
        let at: usize = self.position(target);
        if at < self.panes.len() {
            self.panes.insert(at + 1, new_id);
        }
    }

    /// Takes a pane out of the layout, unless it is the last one. The focus moves
    /// from it to the pane before it, or to the next one where it was the first.
    pub fn remove(&mut self, id: PaneId) -> (removed: bool)
        ensures
            removed == (old(self).panes@.contains(id) && old(self).panes@.len() > 1),
            !removed ==> *final(self) == *old(self),
            removed ==> final(self).panes@ == old(self).panes@.remove(
                place_of(old(self).panes@, id),
            ),
            removed ==> final(self).focus == if old(self).focus != id {
                old(self).focus
            } else if place_of(old(self).panes@, id) > 0 {
                old(self).panes@[place_of(old(self).panes@, id) - 1]
            } else {
                old(self).panes@[1]
            },
    {
        let at: usize = self.position(id);
        if at == self.panes.len() || self.panes.len() <= 1 {
            return false;
        }
        if self.focus == id {
            self.focus = if at > 0 {
                self.panes[at - 1]
            } else {
                self.panes[1]
            };
        }
        self.panes.remove(at);
        true
    }
}

/// Splitting keeps a layout well-formed where the new pane is new to it.
pub proof fn lemma_split_keeps_wf(before: TileLayout, after: TileLayout, target: PaneId, id: PaneId)
    requires
        before.wf(),
        before.panes@.contains(target),
        !before.panes@.contains(id),
        after.focus == before.focus || after.focus == id,
        after.panes@ == before.panes@.insert(place_of(before.panes@, target) + 1, id),
    ensures
        after.wf(),
        forall|p: PaneId| #[trigger]
            after.panes@.contains(p) <==> before.panes@.contains(p) || p == id,
{
    let s = before.panes@;
    let t = after.panes@;
    let at = choose|i: int| 0 <= i < s.len() && s[i] == target;
    lemma_place_of(s, target, at);
    assert forall|i: int| 0 <= i < t.len() implies t[i] == if i <= at {
        s[i]
    } else if i == at + 1 {
        id
    } else {
        s[i - 1]
    } by {}
    assert forall|p: PaneId| #[trigger] t.contains(p) <==> s.contains(p) || p == id by {
        if s.contains(p) {
            let i = choose|i: int| 0 <= i < s.len() && s[i] == p;
            assert(t[if i <= at {
                i
            } else {
                i + 1
            }] == p);
        }
        if p == id {
            assert(t[at + 1] == p);
        }
        if t.contains(p) {
            let i = choose|i: int| 0 <= i < t.len() && t[i] == p;
            if i <= at {
                assert(s[i] == p);
            } else if i > at + 1 {
                assert(s[i - 1] == p);
            }
        }
    }
    assert forall|i: int, j: int| 0 <= i < j < t.len() implies t[i] != t[j] by {
        if i == at + 1 {
            assert(t[j] == s[j - 1]);
        }
        if j == at + 1 {
            assert(t[i] == s[i]);
        }
    }
}

/// Removing keeps a layout well-formed.
pub proof fn lemma_remove_keeps_wf(before: TileLayout, after: TileLayout, id: PaneId)
    requires
        before.wf(),
        before.panes@.contains(id),
        before.panes@.len() > 1,
        after.panes@ == before.panes@.remove(place_of(before.panes@, id)),
        after.focus == if before.focus != id {
            before.focus
        } else if place_of(before.panes@, id) > 0 {
            before.panes@[place_of(before.panes@, id) - 1]
        } else {
            before.panes@[1]
        },
    ensures
        after.wf(),
        forall|p: PaneId| #[trigger]
            after.panes@.contains(p) <==> before.panes@.contains(p) && p != id,
{
    let s = before.panes@;
    let t = after.panes@;
    let at = choose|i: int| 0 <= i < s.len() && s[i] == id;
    lemma_place_of(s, id, at);
    assert forall|i: int| 0 <= i < t.len() implies t[i] == if i < at {
        s[i]
    } else {
        s[i + 1]
    } by {}
    assert forall|p: PaneId| #[trigger] t.contains(p) <==> s.contains(p) && p != id by {
        if s.contains(p) && p != id {
            let i = choose|i: int| 0 <= i < s.len() && s[i] == p;
            assert(t[if i < at {
                i
            } else {
                i - 1
            }] == p);
        }
        if t.contains(p) {
            let i = choose|i: int| 0 <= i < t.len() && t[i] == p;
            if i < at {
                assert(s[i] == p);
            } else {
                assert(s[i + 1] == p);
            }
        }
    }
    assert(s.contains(after.focus)) by {
        if before.focus == id {
            if at > 0 {
                assert(s[at - 1] == after.focus);
            } else {
                assert(s[1] == after.focus);
            }
        }
    }
    assert(after.focus != id);
}

/// A tab of a workspace.
pub struct Tab {
    /// User-provided name in place of the number.
    pub custom_name: Option<String>,
    /// The position of the tab within the workspace, counted from one.
    pub number: usize,
    /// The pane whose directory stands for the tab.
    pub root_pane: PaneId,
    pub layout: TileLayout,
    pub panes: IdMap<PaneState>,
    pub zoomed: bool,
}

/// The directory of a terminal: what its process reports, else what is recorded.
pub open spec fn terminal_cwd(
    terminals: Map<u64, TerminalState>,
    live_cwds: Map<u64, FsPath>,
    id: TerminalId,
) -> Option<Seq<u8>> {
    if live_cwds.contains_key(id.raw) {
        Some(live_cwds[id.raw]@)
    } else if terminals.contains_key(id.raw) {
        Some(terminals[id.raw].cwd@)
    } else {
        None
    }
}

/// `tab` is a tab as it is made: a single pane that has the focus.
pub open spec fn is_new_tab(tab: Tab, number: nat, pane: NewPane) -> bool {
    &&& tab.custom_name is None
    &&& tab.number == number
    &&& tab.root_pane == pane.pane_id
    &&& tab.layout.panes@ == seq![pane.pane_id]
    &&& tab.layout.focus == pane.pane_id
    &&& tab.panes@ == Map::<u64, PaneState>::empty().insert(
        pane.pane_id.raw,
        PaneState { terminal_id: pane.terminal_id, seen: true },
    )
    &&& !tab.zoomed
}

/// `after` is `before` without one of its panes. The focus moves from that pane to
/// the one before it, or to the next one where it was the first; as root pane the
/// first pane that is left takes its place.
pub open spec fn is_without_pane(before: Tab, after: Tab, id: PaneId) -> bool {
    &&& after.custom_name == before.custom_name
    &&& after.number == before.number
    &&& after.zoomed == before.zoomed
    &&& after.layout.panes@ == before.layout.panes@.remove(place_of(before.layout.panes@, id))
    &&& after.layout.focus == if before.layout.focus != id {
        before.layout.focus
    } else if place_of(before.layout.panes@, id) > 0 {
        before.layout.panes@[place_of(before.layout.panes@, id) - 1]
    } else {
        before.layout.panes@[1]
    }
    &&& after.panes@ == before.panes@.remove(id.raw)
    &&& after.root_pane == if before.root_pane != id {
        before.root_pane
    } else {
        after.layout.panes@[0]
    }
}

/// `after` is `before` with a new pane right behind `target`.
pub open spec fn is_with_pane(
    before: Tab,
    after: Tab,
    target: PaneId,
    pane: NewPane,
    focus_new_pane: bool,
) -> bool {
    &&& after.custom_name == before.custom_name
    &&& after.number == before.number
    &&& after.root_pane == before.root_pane
    &&& after.zoomed == before.zoomed
    &&& after.layout.panes@ == before.layout.panes@.insert(
        place_of(before.layout.panes@, target) + 1,
        pane.pane_id,
    )
    &&& after.layout.focus == if focus_new_pane {
        pane.pane_id
    } else {
        before.layout.focus
    }
    &&& after.panes@ == before.panes@.insert(
        pane.pane_id.raw,
        PaneState { terminal_id: pane.terminal_id, seen: true },
    )
}

/// `after` is `before` with every pane seen.
pub open spec fn is_seen(before: Tab, after: Tab) -> bool {
    &&& after.custom_name == before.custom_name
    &&& after.number == before.number
    &&& after.root_pane == before.root_pane
    &&& after.layout == before.layout
    &&& after.zoomed == before.zoomed
    &&& after.panes@ == before.panes@.map_values(
        |state: PaneState| PaneState { seen: true, ..state },
    )
}

impl Tab {
    /// Whether the pane can leave the tab: it is there, and not alone.
    pub open spec fn can_lose(self, id: PaneId) -> bool {
        &&& self.layout.panes@.contains(id)
        &&& self.layout.panes@.len() > 1
        &&& self.panes@.contains_key(id.raw)
    }

    /// The panes and the layout agree, and the root pane is one of them.
    pub open spec fn wf(self) -> bool {
        &&& self.layout.wf()
        &&& forall|p: PaneId| #[trigger]
            self.layout.panes@.contains(p) <==> self.panes@.contains_key(p.raw)
        &&& self.panes@.contains_key(self.root_pane.raw)
    }

    /// A tab with a single pane.
    pub fn new(number: usize, pane: NewPane) -> (tab: Tab)
        ensures
            is_new_tab(tab, number as nat, pane),
            tab.wf(),
    {
        let layout = TileLayout::new(pane.pane_id);
        let mut panes: IdMap<PaneState> = IdMap::new();
        panes.insert(pane.pane_id.raw, PaneState::new(pane.terminal_id));
        let tab = Tab {
            custom_name: None,
            number,
            root_pane: pane.pane_id,
            layout,
            panes,
            zoomed: false,
        };
        assert forall|p: PaneId| #[trigger]
            tab.layout.panes@.contains(p) <==> tab.panes@.contains_key(p.raw) by {
            if p.raw == pane.pane_id.raw {
                assert(tab.layout.panes@[0] == p);
            }
        }
        tab
    }

    /// What the tab is called: the name it was given, else its number.
    pub open spec fn label(self) -> Seq<char> {
        match self.custom_name {
            Some(name) => name@,
            None => digits(self.number as nat, 10),
        }
    }

    /// What the tab is called: the name it was given, else its number.
    pub fn display_name(&self) -> (name: String)
        ensures
            name@ == self.label(),
    {
        match &self.custom_name {
            Some(name) => name.clone(),
            None => decimal(self.number),
        }
    }

    /// The terminal that a pane of the tab shows.
    pub fn terminal_id(&self, pane_id: PaneId) -> (id: Option<&TerminalId>)
        ensures
            id is Some <==> self.panes@.contains_key(pane_id.raw),
            id matches Some(t) ==> *t == self.panes@[pane_id.raw].terminal_id,
    {
        match self.panes.get(pane_id.raw) {
            Some(state) => Some(&state.terminal_id),
            None => None,
        }
    }

    /// The directory that a pane of the tab is in.
    pub open spec fn pane_cwd(
        self,
        pane_id: PaneId,
        terminals: Map<u64, TerminalState>,
        live_cwds: Map<u64, FsPath>,
    ) -> Option<Seq<u8>> {
        if self.panes@.contains_key(pane_id.raw) {
            terminal_cwd(terminals, live_cwds, self.panes@[pane_id.raw].terminal_id)
        } else {
            None
        }
    }

    /// The directory that a pane of the tab is in: the one that the terminal's
    /// process reports (`live_cwds`), else the one recorded for the terminal.
    pub fn cwd_for_pane(
        &self,
        pane_id: PaneId,
        terminals: &IdMap<TerminalState>,
        live_cwds: &IdMap<FsPath>,
    ) -> (cwd: Option<FsPath>)
        ensures
            cwd is Some <==> self.pane_cwd(pane_id, terminals@, live_cwds@) is Some,
            cwd matches Some(path) ==> self.pane_cwd(pane_id, terminals@, live_cwds@) == Some(
                path@,
            ),
    {
        let terminal_id = match self.panes.get(pane_id.raw) {
            Some(state) => state.terminal_id,
            None => {
                return None;
            },
        };
        match live_cwds.get(terminal_id.raw) {
            Some(path) => Some(path.clone()),
            None => match terminals.get(terminal_id.raw) {
                Some(terminal) => Some(terminal.cwd.clone()),
                None => None,
            },
        }
    }

    /// Adds a pane right behind another one of the tab and gives it the focus if
    /// asked to.
    pub fn add_pane(&mut self, target: PaneId, pane: NewPane, focus_new_pane: bool)
        requires
            old(self).layout.panes@.contains(target),
        ensures
            is_with_pane(*old(self), *final(self), target, pane, focus_new_pane),
            old(self).wf() && !old(self).panes@.contains_key(pane.pane_id.raw) ==> final(self).wf(),
    {
        let ghost before = *self;
        self.layout.split_at(target, pane.pane_id);
        if focus_new_pane {
            self.layout.focus = pane.pane_id;
        }
        self.panes.insert(pane.pane_id.raw, PaneState::new(pane.terminal_id));
        proof {
            if before.wf() && !before.panes@.contains_key(pane.pane_id.raw) {
                assert(!before.layout.panes@.contains(pane.pane_id));
                lemma_split_keeps_wf(before.layout, self.layout, target, pane.pane_id);
                assert forall|p: PaneId| #[trigger]
                    self.layout.panes@.contains(p) <==> self.panes@.contains_key(p.raw) by {
                    assert(before.layout.panes@.contains(p) <==> before.panes@.contains_key(
                        p.raw,
                    ));
                }
            }
        }
    }

    /// Takes a pane out of the tab, unless it is the last one. Where it was the
    /// root pane, the first pane that is left takes its place.
    pub fn remove_pane(&mut self, pane_id: PaneId) -> (removed: Option<(PaneId, TerminalId)>)
        ensures
            removed is Some <==> old(self).can_lose(pane_id),
            removed matches Some(r) ==> r == (
                pane_id,
                old(self).panes@[pane_id.raw].terminal_id,
            ),
            removed is None ==> *final(self) == *old(self),
            removed is Some ==> is_without_pane(*old(self), *final(self), pane_id),
            old(self).wf() ==> final(self).wf(),
    {
        let ghost before = *self;
        let terminal_id = match self.panes.get(pane_id.raw) {
            Some(state) => state.terminal_id,
            None => {
                return None;
            },
        };
        if !self.layout.remove(pane_id) {
            return None;
        }
        let _ = self.panes.remove(pane_id.raw);
        assert(0 <= place_of(before.layout.panes@, pane_id) < before.layout.panes@.len()) by {
            let i = choose|i: int|
                0 <= i < before.layout.panes@.len() && before.layout.panes@[i] == pane_id;
            lemma_first_place(before.layout.panes@, pane_id, i);
        }
        assert(self.layout.panes@.len() == before.layout.panes@.len() - 1);
        if self.root_pane == pane_id {
            self.root_pane = self.layout.panes[0];
        }
        proof {
            if before.wf() {
                lemma_remove_keeps_wf(before.layout, self.layout, pane_id);
                assert forall|p: PaneId| #[trigger]
                    self.layout.panes@.contains(p) <==> self.panes@.contains_key(p.raw) by {
                    assert(before.layout.panes@.contains(p) <==> before.panes@.contains_key(
                        p.raw,
                    ));
                }
                assert(self.layout.panes@.contains(self.layout.panes@[0]));
                if before.root_pane != pane_id {
                    assert(before.root_pane.raw != pane_id.raw);
                }
            }
        }
        Some((pane_id, terminal_id))
    }

    /// Takes the pane with the focus out of the tab, unless it is the last one.
    pub fn close_focused(&mut self) -> (removed: Option<(PaneId, TerminalId)>)
        ensures
            removed is Some <==> old(self).can_lose(old(self).layout.focus),
            removed matches Some(r) ==> r == (
                old(self).layout.focus,
                old(self).panes@[old(self).layout.focus.raw].terminal_id,
            ),
            removed is None ==> *final(self) == *old(self),
            removed is Some ==> is_without_pane(
                *old(self),
                *final(self),
                old(self).layout.focus,
            ),
            old(self).wf() ==> final(self).wf(),
    {
        self.remove_pane(self.layout.focus)
    }

    /// Marks every pane of the tab as seen.
    pub fn mark_seen(&mut self)
        ensures
            is_seen(*old(self), *final(self)),
            old(self).wf() ==> final(self).wf(),
    {
        let ids = self.panes.ids();
        let ghost before = self.panes@;
        let ghost rest = *self;
        let mut i: usize = 0;
        while i < ids.len()
            invariant
                i <= ids@.len(),
                ids@.no_duplicates(),
                forall|k: u64| #[trigger] ids@.contains(k) <==> before.contains_key(k),
                self.custom_name == rest.custom_name,
                self.number == rest.number,
                self.root_pane == rest.root_pane,
                self.layout == rest.layout,
                self.zoomed == rest.zoomed,
                self.panes@.dom() == before.dom(),
                forall|k: u64|
                    before.contains_key(k) ==> #[trigger] self.panes@[k] == if ids@.take(
                        i as int,
                    ).contains(k) {
                        PaneState { seen: true, ..before[k] }
                    } else {
                        before[k]
                    },
            decreases ids@.len() - i,
        {
            let id: u64 = ids[i];
            proof {
                assert(ids@.contains(id));
                assert forall|k: u64| #[trigger]
                    ids@.take(i + 1).contains(k) <==> ids@.take(i as int).contains(k) || k
                        == id by {
                    if ids@.take(i as int).contains(k) {
                        let j = choose|j: int| 0 <= j < i && ids@.take(i as int)[j] == k;
                        assert(ids@.take(i + 1)[j] == k);
                    }
                    assert(ids@.take(i + 1)[i as int] == id);
                    if ids@.take(i + 1).contains(k) && k != id {
                        let longer = ids@.take(i + 1);
                        let j = choose|j: int| 0 <= j < longer.len() && longer[j] == k;
                        assert(ids@.take(i as int)[j] == k);
                    }
                }
                assert(!ids@.take(i as int).contains(id));
            }
            if let Some(state) = self.panes.get(id) {
                let state = PaneState { terminal_id: state.terminal_id, seen: true };
                self.panes.insert(id, state);
            }
            assert(self.panes@.dom() =~= before.dom());
            i += 1;
        }
        proof {
            assert(ids@.take(i as int) == ids@);
            assert(self.panes@ =~= before.map_values(
                |state: PaneState| PaneState { seen: true, ..state },
            ));
        }
    }
}

/// [`place_of`] is no later than any position of the pane.
pub proof fn lemma_first_place(s: Seq<PaneId>, a: PaneId, i: int)
    requires
        0 <= i < s.len(),
        s[i] == a,
    ensures
        0 <= place_of(s, a) <= i,
    decreases s.len(),
{
    if s[0] != a {
        lemma_first_place(s.skip(1), a, i - 1);
    }
}

/// A new pane stands right behind the one that was split, and the others stay in their
/// order. It has the focus where that was asked for, and otherwise the focus stays.
pub proof fn law_pane_added(
    before: Tab,
    after: Tab,
    target: PaneId,
    pane: NewPane,
    focus_new_pane: bool,
    at: int,
)
    requires
        is_with_pane(before, after, target, pane, focus_new_pane),
        0 <= at < before.layout.panes@.len(),
        before.layout.panes@[at] == target,
        before.layout.panes@.no_duplicates(),
    ensures
        after.layout.panes@ == before.layout.panes@.take(at + 1).push(pane.pane_id)
            + before.layout.panes@.skip(at + 1),
        focus_new_pane ==> after.layout.focus == pane.pane_id,
        !focus_new_pane ==> after.layout.focus == before.layout.focus,
        after.root_pane == before.root_pane,
        after.panes@.contains_key(pane.pane_id.raw),
        after.panes@[pane.pane_id.raw].terminal_id == pane.terminal_id,
        after.panes@[pane.pane_id.raw].seen,
        forall|id: u64|
            id != pane.pane_id.raw ==> (#[trigger] after.panes@.contains_key(id)
                <==> before.panes@.contains_key(id)) && (before.panes@.contains_key(id)
                ==> after.panes@[id] == before.panes@[id]),
{
    lemma_place_of(before.layout.panes@, target, at);
    assert(after.layout.panes@ =~= before.layout.panes@.take(at + 1).push(pane.pane_id)
        + before.layout.panes@.skip(at + 1));
}

/// Without a pane the others stay in their order. The focus stays too, unless it was on the
/// pane: then it is on the one before it, or on the next one where it was the first. Another
/// root pane stays, and the first pane takes the place of this one.
pub proof fn law_pane_removed(before: Tab, after: Tab, id: PaneId, at: int)
    requires
        is_without_pane(before, after, id),
        0 <= at < before.layout.panes@.len(),
        before.layout.panes@.len() > 1,
        before.layout.panes@[at] == id,
        before.layout.panes@.no_duplicates(),
    ensures
        after.layout.panes@ == before.layout.panes@.take(at) + before.layout.panes@.skip(at + 1),
        before.layout.focus != id ==> after.layout.focus == before.layout.focus,
        before.layout.focus == id && at > 0 ==> after.layout.focus == before.layout.panes@[at - 1],
        before.layout.focus == id && at == 0 ==> after.layout.focus == before.layout.panes@[1],
        before.root_pane != id ==> after.root_pane == before.root_pane,
        before.root_pane == id && at > 0 ==> after.root_pane == before.layout.panes@[0],
        before.root_pane == id && at == 0 ==> after.root_pane == before.layout.panes@[1],
        !after.panes@.contains_key(id.raw),
        forall|other: u64|
            other != id.raw ==> (#[trigger] after.panes@.contains_key(other)
                <==> before.panes@.contains_key(other)) && (before.panes@.contains_key(other)
                ==> after.panes@[other] == before.panes@[other]),
{
    lemma_place_of(before.layout.panes@, id, at);
    assert(after.layout.panes@ =~= before.layout.panes@.take(at) + before.layout.panes@.skip(
        at + 1,
    ));
}

/// Splitting off a pane and taking it out again leads back to the same panes, and to the same
/// focus where the focus had not moved to it.
pub proof fn law_adding_and_removing(
    before: Tab,
    middle: Tab,
    after: Tab,
    target: PaneId,
    pane: NewPane,
    at: int,
)
    requires
        before.wf(),
        is_with_pane(before, middle, target, pane, false),
        is_without_pane(middle, after, pane.pane_id),
        !before.panes@.contains_key(pane.pane_id.raw),
        0 <= at < before.layout.panes@.len(),
        before.layout.panes@[at] == target,
    ensures
        after.layout.panes@ == before.layout.panes@,
        after.layout.focus == before.layout.focus,
        after.root_pane == before.root_pane,
        after.panes@ == before.panes@,
{
    assert(!before.layout.panes@.contains(pane.pane_id));
    assert(before.layout.focus != pane.pane_id);
    assert(before.root_pane.raw != pane.pane_id.raw);
    lemma_place_of(before.layout.panes@, target, at);
    let panes = middle.layout.panes@;
    assert(panes[at + 1] == pane.pane_id);
    assert forall|j: int| 0 <= j < at + 1 implies panes[j] != pane.pane_id by {
        assert(panes[j] == before.layout.panes@[j]);
        assert(before.layout.panes@.contains(before.layout.panes@[j]));
    }
    lemma_place_of(panes, pane.pane_id, at + 1);
    assert(after.layout.panes@ =~= before.layout.panes@);
    assert(after.panes@ =~= before.panes@);
}

/// A tab goes by the name that it was given, and by its number without one.
pub proof fn law_tab_label(tab: Tab)
    ensures
        tab.custom_name matches Some(name) ==> tab.label() == name@,
        tab.custom_name is None ==> crate::text::number_value(tab.label(), 10) == tab.number,
{
    crate::text::law_written_numbers(tab.number as nat, 10);
}

/// The directory that a running terminal reports goes before the recorded one.
pub proof fn law_terminal_directory(
    tab: Tab,
    pane_id: PaneId,
    terminals: Map<u64, TerminalState>,
    live_cwds: Map<u64, FsPath>,
)
    requires
        tab.panes@.contains_key(pane_id.raw),
    ensures
        ({
            let id = tab.panes@[pane_id.raw].terminal_id.raw;
            let cwd = tab.pane_cwd(pane_id, terminals, live_cwds);
            &&& live_cwds.contains_key(id) ==> cwd == Some(live_cwds[id]@)
            &&& !live_cwds.contains_key(id) && terminals.contains_key(id) ==> cwd == Some(
                terminals[id].cwd@,
            )
            &&& !live_cwds.contains_key(id) && !terminals.contains_key(id) ==> cwd is None
        }),
{
}

/// Looking at a tab marks each of its panes and changes nothing else.
pub proof fn law_seen_panes(before: Tab, after: Tab, id: u64)
    requires
        is_seen(before, after),
    ensures
        after.panes@.contains_key(id) <==> before.panes@.contains_key(id),
        after.panes@.contains_key(id) ==> after.panes@[id].seen && after.panes@[id].terminal_id
            == before.panes@[id].terminal_id,
        after.layout == before.layout,
{
}

/// A new tab has no name, is not zoomed, and holds its one pane, which is seen, has the focus and
/// is the root.
pub proof fn law_new_tab(tab: Tab, number: nat, pane: NewPane, other: u64)
    requires
        is_new_tab(tab, number, pane),
    ensures
        tab.custom_name is None && !tab.zoomed,
        tab.number == number,
        tab.root_pane == pane.pane_id && tab.layout.focus == pane.pane_id,
        tab.layout.panes@.len() == 1,
        tab.panes@.contains_key(other) <==> other == pane.pane_id.raw,
        tab.panes@[pane.pane_id.raw].terminal_id == pane.terminal_id,
        tab.panes@[pane.pane_id.raw].seen,
{
}

/// A pane can leave a tab where it is one of several.
pub proof fn law_pane_can_leave(tab: Tab, id: PaneId, at: int)
    requires
        tab.wf(),
    ensures
        0 <= at < tab.layout.panes@.len() && tab.layout.panes@[at] == id ==> (tab.can_lose(id)
            <==> tab.layout.panes@.len() >= 2),
        !tab.layout.panes@.contains(id) ==> !tab.can_lose(id),
{
}

/// Seeing the panes of a tab, adding one or taking one away leaves the tab's name, its number and
/// its zoom alone; seeing them leaves the root pane alone too.
pub proof fn law_tab_stays_itself(
    before: Tab,
    after: Tab,
    id: PaneId,
    pane: NewPane,
    focus_new_pane: bool,
)
    requires
        is_seen(before, after) || is_without_pane(before, after, id) || is_with_pane(
            before,
            after,
            id,
            pane,
            focus_new_pane,
        ),
    ensures
        after.custom_name == before.custom_name,
        after.number == before.number,
        after.zoomed == before.zoomed,
        is_seen(before, after) ==> after.root_pane == before.root_pane && after.layout.focus
            == before.layout.focus,
{
}

} // verus!
