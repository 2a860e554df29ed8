//! Mouse input on the source panel: hit tests, scrolling, and resizing.
use crate::app_state::{
    change_areas, changes_metrics, commit_areas, commit_file_areas, log_metrics,
    source_panel_changes_scroll_metrics, source_panel_log_scroll_metrics, visible_graph_rows,
    AppState, GraphRow, SourcePanelCommitArea, SourcePanelCommitFileArea, SourcePanelFileArea,
    SourcePanelWidthSource,
};
use crate::geometry::{less, lesser, no_rect, overflows, should_show_scrollbar, Rect};
use crate::panel::{changes_section, graph_section};
use crate::source_control::DEFAULT_LOADED_COMMIT_COUNT;
use crate::workspace::Workspace;
use vstd::prelude::*;

verus! {

impl AppState {
    /// The panel shows its sections.
    pub open spec fn shows_sections(self) -> bool {
        &&& !self.source_panel_collapsed
        &&& self.view.source_panel_rect.width > 1
        &&& self.view.source_panel_rect.height > 0
    }

    /// The Changes section as it was drawn last.
    pub open spec fn drawn_changes(self) -> Rect {
        if self.shows_sections() {
            changes_section(self.view.source_panel_rect, self.source_panel_split_rows as int)
        } else {
            no_rect()
        }
    }

    /// The Graph section as it was drawn last.
    pub open spec fn drawn_graph(self) -> Rect {
        if self.shows_sections() {
            graph_section(self.view.source_panel_rect, self.source_panel_split_rows as int)
        } else {
            no_rect()
        }
    }

    /// The Changes section rect within the source panel, or default when the
    /// panel is collapsed/absent.
    pub fn source_panel_changes_rect(&self) -> (r: Rect)
        requires
            self.view.source_panel_rect.fits(),
        ensures
            r == self.drawn_changes(),
            r.fits(),
    {
        let panel = self.view.source_panel_rect;
        if self.source_panel_collapsed || panel.width <= 1 || panel.height == 0 {
            return Rect::none();
        }
        crate::panel::source_panel_changes_rect(panel, self.source_panel_split_rows)
    }

    /// The Graph section rect within the source panel, or default when the
    /// panel is collapsed/absent.
    pub fn source_panel_graph_rect(&self) -> (r: Rect)
        requires
            self.view.source_panel_rect.fits(),
        ensures
            r == self.drawn_graph(),
            r.fits(),
    {
        let panel = self.view.source_panel_rect;
        if self.source_panel_collapsed || panel.width <= 1 || panel.height == 0 {
            return Rect::none();
        }
        crate::panel::source_panel_graph_rect(panel, self.source_panel_split_rows)
    }

    /// Scroll the Changes file list by `delta` rows (negative scrolls up).
    pub fn scroll_source_panel_changes(&mut self, delta: i16)
        requires
            old(self).view.source_panel_rect.fits(),
        ensures
            *final(self) == (AppState {
                source_panel_changes_scroll: scrolled(
                    old(self).source_panel_changes_scroll as int,
                    delta as int,
                    changes_metrics(
                        *old(self),
                        old(self).drawn_changes(),
                    ).max_offset_from_bottom as int,
                ) as usize,
                ..*old(self)
            }),
    {
        let section = self.source_panel_changes_rect();
        let max_scroll: usize = source_panel_changes_scroll_metrics(
            self,
            section,
        ).max_offset_from_bottom;
        self.source_panel_changes_scroll = scroll_by(
            self.source_panel_changes_scroll,
            delta,
            max_scroll,
        );
    }

    /// Scroll the Graph commit list by `delta` rows (negative scrolls up).
    pub fn scroll_source_panel_log(&mut self, delta: i16)
        requires
            old(self).view.source_panel_rect.fits(),
        ensures
            *final(self) == (AppState {
                source_panel_log_scroll: scrolled(
                    old(self).source_panel_log_scroll as int,
                    delta as int,
                    log_metrics(*old(self), old(self).drawn_graph()).max_offset_from_bottom as int,
                ) as usize,
                ..*old(self)
            }),
    {
        let section = self.source_panel_graph_rect();
        let max_scroll: usize = source_panel_log_scroll_metrics(
            self,
            section,
        ).max_offset_from_bottom;
        self.source_panel_log_scroll = scroll_by(self.source_panel_log_scroll, delta, max_scroll);
    }

    /// Route a scroll-wheel notch over the source panel to whichever section
    /// the cursor is over, scrolling only if that section actually overflows.
    pub fn scroll_source_panel_section_at(&mut self, col: u16, row: u16, delta: i16)
        requires
            old(self).view.source_panel_rect.fits(),
        ensures
            *final(self) == if old(self).drawn_graph().has_cell(col as int, row as int) {
                if overflows(log_metrics(*old(self), old(self).drawn_graph())) {
                    AppState {
                        source_panel_log_scroll: scrolled(
                            old(self).source_panel_log_scroll as int,
                            delta as int,
                            log_metrics(
                                *old(self),
                                old(self).drawn_graph(),
                            ).max_offset_from_bottom as int,
                        ) as usize,
                        ..*old(self)
                    }
                } else {
                    *old(self)
                }
            } else if overflows(changes_metrics(*old(self), old(self).drawn_changes())) {
                AppState {
                    source_panel_changes_scroll: scrolled(
                        old(self).source_panel_changes_scroll as int,
                        delta as int,
                        changes_metrics(
                            *old(self),
                            old(self).drawn_changes(),
                        ).max_offset_from_bottom as int,
                    ) as usize,
                    ..*old(self)
                }
            } else {
                *old(self)
            },
    {
        let graph = self.source_panel_graph_rect();
        if graph.contains(col, row) {
            if should_show_scrollbar(source_panel_log_scroll_metrics(self, graph)) {
                self.scroll_source_panel_log(delta);
            }
            return;
        }
        let changes = self.source_panel_changes_rect();
        if should_show_scrollbar(source_panel_changes_scroll_metrics(self, changes)) {
            self.scroll_source_panel_changes(delta);
        }
    }

    /// True when `(col, row)` is on the panel's collapse/expand toggle.
    pub fn on_source_panel_toggle(&self, col: u16, row: u16) -> (r: bool)
        ensures
            r == self.view.source_panel_toggle_rect.has_cell(col as int, row as int),
    {
        self.view.source_panel_toggle_rect.contains(col, row)
    }

    /// True when `(col, row)` is on the Changes header's refresh glyph.
    pub fn on_source_panel_changes_refresh(&self, col: u16, row: u16) -> (r: bool)
        ensures
            r == (!self.source_panel_collapsed
                && self.view.source_panel_changes_refresh_rect.has_cell(col as int, row as int)),
    {
        !self.source_panel_collapsed && self.view.source_panel_changes_refresh_rect.contains(
            col,
            row,
        )
    }

    /// True when `(col, row)` is on the Graph header's refresh glyph.
    pub fn on_source_panel_log_refresh(&self, col: u16, row: u16) -> (r: bool)
        ensures
            r == (!self.source_panel_collapsed && self.view.source_panel_log_refresh_rect.has_cell(
                col as int,
                row as int,
            )),
    {
        !self.source_panel_collapsed && self.view.source_panel_log_refresh_rect.contains(col, row)
    }

    /// True when `(col, row)` is on the Graph section's "load more" row.
    pub fn on_source_panel_load_more(&self, col: u16, row: u16) -> (r: bool)
        ensures
            r == (!self.source_panel_collapsed && self.view.source_panel_load_more_rect.has_cell(
                col as int,
                row as int,
            )),
    {
        !self.source_panel_collapsed && self.view.source_panel_load_more_rect.contains(col, row)
    }

    /// The `change_idx` of the changed-file row under `(col, row)`, if any.
    pub fn source_panel_changed_file_at(&self, col: u16, row: u16) -> (idx: Option<usize>)
        ensures
            idx == change_hit(
                self.view.source_panel_changes_card_areas@,
                col as int,
                row as int,
            ),
    {
        let areas = &self.view.source_panel_changes_card_areas;
        let mut i: usize = 0;
        assert(areas@.skip(0) == areas@);
        while i < areas.len()
            invariant
                i <= areas@.len(),
                areas@ == self.view.source_panel_changes_card_areas@,
                change_hit(areas@, col as int, row as int) == change_hit(
                    areas@.skip(i as int),
                    col as int,
                    row as int,
                ),
            decreases areas@.len() - i,
        {
            assert(areas@.skip(i as int)[0] == areas@[i as int]);
            if areas[i].rect.contains(col, row) {
                return Some(areas[i].change_idx);
            }
            assert(areas@.skip(i as int).skip(1) == areas@.skip(i + 1));
            i += 1;
        }
        None
    }

    /// The `log_idx` of the commit row under `(col, row)`, if any.
    pub fn source_panel_commit_at(&self, col: u16, row: u16) -> (idx: Option<usize>)
        ensures
            idx == commit_hit(self.view.source_panel_log_card_areas@, col as int, row as int),
    {
        let areas = &self.view.source_panel_log_card_areas;
        let mut i: usize = 0;
        assert(areas@.skip(0) == areas@);
        while i < areas.len()
            invariant
                i <= areas@.len(),
                areas@ == self.view.source_panel_log_card_areas@,
                commit_hit(areas@, col as int, row as int) == commit_hit(
                    areas@.skip(i as int),
                    col as int,
                    row as int,
                ),
            decreases areas@.len() - i,
        {
            assert(areas@.skip(i as int)[0] == areas@[i as int]);
            if areas[i].rect.contains(col, row) {
                return Some(areas[i].log_idx);
            }
            assert(areas@.skip(i as int).skip(1) == areas@.skip(i + 1));
            i += 1;
        }
        None
    }

    /// The `(log_idx, file_idx)` of the inline commit-file row under `(col, row)`.
    pub fn source_panel_commit_file_at(&self, col: u16, row: u16) -> (idx: Option<(usize, usize)>)
        ensures
            idx == commit_file_hit(
                self.view.source_panel_commit_file_card_areas@,
                col as int,
                row as int,
            ),
    {
        let areas = &self.view.source_panel_commit_file_card_areas;
        let mut i: usize = 0;
        assert(areas@.skip(0) == areas@);
        while i < areas.len()
            invariant
                i <= areas@.len(),
                areas@ == self.view.source_panel_commit_file_card_areas@,
                commit_file_hit(areas@, col as int, row as int) == commit_file_hit(
                    areas@.skip(i as int),
                    col as int,
                    row as int,
                ),
            decreases areas@.len() - i,
        {
            assert(areas@.skip(i as int)[0] == areas@[i as int]);
            if areas[i].rect.contains(col, row) {
                return Some((areas[i].log_idx, areas[i].file_idx));
            }
            assert(areas@.skip(i as int).skip(1) == areas@.skip(i + 1));
            i += 1;
        }
        None
    }

    /// Grow the loaded commit window by one page and request a git refresh so the
    /// Graph section repopulates with the larger history. The flag for more history
    /// is cleared until the refresh completes so the "load more" row hides during
    /// the in-flight fetch.
    pub fn load_more_commits(&mut self, ws_idx: usize)
        ensures
            final(self).request_source_panel_git_refresh,
            *final(self) == (AppState {
                workspaces: final(self).workspaces,
                request_source_panel_git_refresh: true,
                ..*old(self)
            }),
            ws_idx >= old(self).workspaces@.len() ==> final(self).workspaces@
                == old(self).workspaces@,
            ws_idx < old(self).workspaces@.len() ==> final(self).workspaces@
                == old(self).workspaces@.update(
                ws_idx as int,
                Workspace {
                    loaded_commit_count: lesser(
                        old(self).workspaces@[ws_idx as int].loaded_commit_count
                            + DEFAULT_LOADED_COMMIT_COUNT,
                        usize::MAX as int,
                    ) as usize,
                    cached_log_has_more: false,
                    ..old(self).workspaces@[ws_idx as int]
                },
            ),
            old(self).wf() ==> final(self).wf(),
    {
        if ws_idx < self.workspaces.len() {
            let count: usize = self.workspaces[ws_idx].loaded_commit_count;
            self.workspaces[ws_idx].loaded_commit_count = if count > usize::MAX
                - DEFAULT_LOADED_COMMIT_COUNT {
                usize::MAX
            } else {
                count + DEFAULT_LOADED_COMMIT_COUNT
            };
            self.workspaces[ws_idx].cached_log_has_more = false;
        }
        self.request_source_panel_git_refresh = true;
        proof {
            if old(self).wf() {
                assert forall|i: int| 0 <= i < self.workspaces@.len() implies (
                #[trigger] self.workspaces@[i]).wf() by {
                    assert(old(self).workspaces@[i].wf());
                }
            }
        }
    }

    /// True when `(col, row)` is on the draggable divider between the Changes and
    /// Graph sections. The header's refresh glyph takes precedence over starting a
    /// drag.
    pub fn on_source_panel_section_divider(&self, col: u16, row: u16) -> (r: bool)
        ensures
            r == (!self.source_panel_collapsed
                && self.view.source_panel_section_divider_rect.has_cell(col as int, row as int)
                && !self.view.source_panel_log_refresh_rect.has_cell(col as int, row as int)),
    {
        if self.source_panel_collapsed {
            return false;
        }
        self.view.source_panel_section_divider_rect.contains(col, row)
            && !self.on_source_panel_log_refresh(col, row)
    }

    /// Update the section split from a divider drag. Dragging down grows the
    /// Changes section: `resplit` is given the rows the divider moved down by and
    /// the height of the panel, and says how many rows the Changes section gets. A
    /// panel too low for a divider keeps its split.
    pub fn set_source_panel_section_split_from_drag<F: FnOnce(i32, u16) -> u16>(
        &mut self,
        start_y: u16,
        row: u16,
        resplit: F,
    )
        requires
            forall|delta: i32, height: u16| #[trigger] call_requires(resplit, (delta, height)),
        ensures
            old(self).view.source_panel_rect.height < 6 ==> *final(self) == *old(self),
            old(self).view.source_panel_rect.height >= 6 ==> {
                &&& call_ensures(
                    resplit,
                    ((row - start_y) as i32, old(self).view.source_panel_rect.height),
                    final(self).source_panel_split_rows,
                )
                &&& *final(self) == (AppState {
                    source_panel_split_rows: final(self).source_panel_split_rows,
                    session_dirty: true,
                    ..*old(self)
                })
            },
    {
        let panel = self.view.source_panel_rect;
        if panel.height < 6 {
            return;
        }
        let delta_rows: i32 = row as i32 - start_y as i32;
        self.source_panel_split_rows = resplit(delta_rows, panel.height);
        self.session_dirty = true;
    }

    /// True when `(col, row)` is on the panel's draggable left edge (and not on
    /// the toggle). The source panel resizes from its left edge.
    pub fn on_source_panel_resize_edge(&self, col: u16, row: u16) -> (r: bool)
        ensures
            r == (!self.source_panel_collapsed && col == self.view.source_panel_rect.x
                && self.view.source_panel_rect.has_cell(col as int, row as int)
                && !self.view.source_panel_toggle_rect.has_cell(col as int, row as int)),
    {
        if self.source_panel_collapsed {
            return false;
        }
        let panel = self.view.source_panel_rect;
        if panel.width == 0 {
            return false;
        }
        !self.on_source_panel_toggle(col, row) && col == panel.x && panel.contains(col, row)
    }

    /// Update the panel width from a left-edge drag. Dragging the edge left
    /// (smaller column) widens the panel.
    pub fn set_source_panel_width_from_drag(&mut self, start_x: u16, start_width: u16, col: u16)
        requires
            old(self).source_panel_min_width <= old(self).source_panel_max_width,
        ensures
            *final(self) == (AppState {
                source_panel_width: kept_within(
                    start_width + start_x - col,
                    old(self).source_panel_min_width as int,
                    old(self).source_panel_max_width as int,
                ) as u16,
                source_panel_width_source: SourcePanelWidthSource::Manual,
                ..*old(self)
            }),
    {
        let wanted: i32 = start_width as i32 + (start_x as i32 - col as i32);
        let min: i32 = self.source_panel_min_width as i32;
        let max: i32 = self.source_panel_max_width as i32;
        let new_width: i32 = if wanted < min {
            min
        } else if wanted > max {
            max
        } else {
            wanted
        };
        self.source_panel_width = new_width as u16;
        self.source_panel_width_source = SourcePanelWidthSource::Manual;
    }
}

/// `n`, or the bound that it is past.
pub open spec fn kept_within(n: int, min: int, max: int) -> int {
    if n < min {
        min
    } else if n > max {
        max
    } else {
        n
    }
}

/// The dragged width stays within its bounds, and where it does, each column that
/// the edge moves left makes the panel one column wider.
pub proof fn law_width_drag(start_x: int, start_width: int, col: int, min: int, max: int)
    requires
        min <= max,
    ensures
        min <= kept_within(start_width + start_x - col, min, max) <= max,
        min <= start_width + start_x - col <= max ==> kept_within(
            start_width + start_x - col,
            min,
            max,
        ) - start_width == start_x - col,
{
}

/// Where a list stands after scrolling by `delta` rows: not past its start, and
/// downwards not past the last full viewport.
pub open spec fn scrolled(scroll: int, delta: int, max: int) -> int {
    if delta < 0 {
        less(scroll, -delta)
    } else {
        lesser(scroll + delta, max)
    }
}

fn scroll_by(scroll: usize, delta: i16, max: usize) -> (r: usize)
    ensures
        r == scrolled(scroll as int, delta as int, max as int),
{
    if delta < 0 {
        let up: usize = (-(delta as i32)) as usize;
        if scroll >= up {
            scroll - up
        } else {
            0
        }
    } else {
        let down: usize = delta as usize;
        if scroll >= max || max - scroll <= down {
            max
        } else {
            scroll + down
        }
    }
}

/// Scrolling keeps a list that stands within its bounds there.
pub proof fn law_scrolling_stays_in_bounds(scroll: int, delta: int, max: int)
    requires
        0 <= scroll <= max,
    ensures
        0 <= scrolled(scroll, delta, max) <= max,
        scrolled(scrolled(scroll, delta, max), 0, max) == scrolled(scroll, delta, max),
{
}

/// The changed file whose row is the first under the cell.
pub open spec fn change_hit(areas: Seq<SourcePanelFileArea>, col: int, row: int) -> Option<usize>
    decreases areas.len(),
{
    if areas.len() == 0 {
        None
    } else if areas[0].rect.has_cell(col, row) {
        Some(areas[0].change_idx)
    } else {
        change_hit(areas.skip(1), col, row)
    }
}

/// The commit whose row is the first under the cell.
pub open spec fn commit_hit(areas: Seq<SourcePanelCommitArea>, col: int, row: int) -> Option<usize>
    decreases areas.len(),
{
    if areas.len() == 0 {
        None
    } else if areas[0].rect.has_cell(col, row) {
        Some(areas[0].log_idx)
    } else {
        commit_hit(areas.skip(1), col, row)
    }
}

/// The file beneath a commit whose row is the first under the cell.
pub open spec fn commit_file_hit(
    areas: Seq<SourcePanelCommitFileArea>,
    col: int,
    row: int,
) -> Option<(usize, usize)>
    decreases areas.len(),
{
    if areas.len() == 0 {
        None
    } else if areas[0].rect.has_cell(col, row) {
        Some((areas[0].log_idx, areas[0].file_idx))
    } else {
        commit_file_hit(areas.skip(1), col, row)
    }
}

proof fn lemma_change_hit(areas: Seq<SourcePanelFileArea>, col: int, row: int, i: int)
    requires
        0 <= i < areas.len(),
        areas[i].rect.has_cell(col, row),
        forall|j: int| 0 <= j < i ==> !(#[trigger] areas[j]).rect.has_cell(col, row),
    ensures
        change_hit(areas, col, row) == Some(areas[i].change_idx),
    decreases areas.len(),
{
    if i > 0 {
        let rest = areas.skip(1);
        assert forall|j: int| 0 <= j < i - 1 implies !(#[trigger] rest[j]).rect.has_cell(
            col,
            row,
        ) by {
            assert(rest[j] == areas[j + 1]);
        }
        assert(!areas[0].rect.has_cell(col, row));
        lemma_change_hit(rest, col, row, i - 1);
    }
}

/// A click on a visible row of the Changes section finds the file that the row
/// shows.
pub proof fn law_click_finds_the_shown_change(app: AppState, area: Rect, i: int, col: int, row: int)
    requires
        area.fits(),
        0 <= i < change_areas(app, area).len(),
        change_areas(app, area)[i].rect.has_cell(col, row),
    ensures
        change_hit(change_areas(app, area), col, row) == Some(
            (app.source_panel_changes_scroll + i) as usize,
        ),
{
    let areas = change_areas(app, area);
    let section = changes_section(area, app.source_panel_split_rows as int);
    assert(section.fits());
    assert forall|j: int| 0 <= j < i implies !(#[trigger] areas[j]).rect.has_cell(col, row) by {}
    lemma_change_hit(areas, col, row, i);
}

proof fn lemma_commit_hit_push(
    areas: Seq<SourcePanelCommitArea>,
    last: SourcePanelCommitArea,
    col: int,
    row: int,
)
    ensures
        commit_hit(areas.push(last), col, row) == match commit_hit(areas, col, row) {
            Some(idx) => Some(idx),
            None => if last.rect.has_cell(col, row) {
                Some(last.log_idx)
            } else {
                None
            },
        },
    decreases areas.len(),
{
    reveal_with_fuel(commit_hit, 2);
    let longer = areas.push(last);
    if areas.len() == 0 {
        assert(longer.skip(1) =~= Seq::<SourcePanelCommitArea>::empty());
    } else {
        assert(longer.skip(1) =~= areas.skip(1).push(last));
        lemma_commit_hit_push(areas.skip(1), last, col, row);
    }
}

proof fn lemma_commit_file_hit_push(
    areas: Seq<SourcePanelCommitFileArea>,
    last: SourcePanelCommitFileArea,
    col: int,
    row: int,
)
    ensures
        commit_file_hit(areas.push(last), col, row) == match commit_file_hit(areas, col, row) {
            Some(idx) => Some(idx),
            None => if last.rect.has_cell(col, row) {
                Some((last.log_idx, last.file_idx))
            } else {
                None
            },
        },
    decreases areas.len(),
{
    reveal_with_fuel(commit_file_hit, 2);
    let longer = areas.push(last);
    if areas.len() == 0 {
        assert(longer.skip(1) =~= Seq::<SourcePanelCommitFileArea>::empty());
    } else {
        assert(longer.skip(1) =~= areas.skip(1).push(last));
        lemma_commit_file_hit_push(areas.skip(1), last, col, row);
    }
}

/// What hit tests find among rows of which the `i`-th alone holds the cell.
proof fn lemma_row_hits(rows: Seq<(GraphRow, Rect)>, col: int, row: int, i: int)
    requires
        0 <= i < rows.len() ==> rows[i].1.has_cell(col, row),
        forall|j: int|
            0 <= j < rows.len() && j != i ==> !(#[trigger] rows[j]).1.has_cell(col, row),
    ensures
        commit_hit(commit_areas(rows), col, row) == if 0 <= i < rows.len() {
            match rows[i].0 {
                GraphRow::Commit { log_idx } => Some(log_idx),
                _ => None,
            }
        } else {
            None
        },
        commit_file_hit(commit_file_areas(rows), col, row) == if 0 <= i < rows.len() {
            match rows[i].0 {
                GraphRow::File { log_idx, file_idx } => Some((log_idx, file_idx)),
                _ => None,
            }
        } else {
            None
        },
    decreases rows.len(),
{
    if rows.len() > 0 {
        let shorter = rows.drop_last();
        let last = rows.last();
        assert forall|j: int| 0 <= j < shorter.len() && j != i implies !(
        #[trigger] shorter[j]).1.has_cell(col, row) by {
            assert(shorter[j] == rows[j]);
        }
        lemma_row_hits(shorter, col, row, i);
        assert(rows[rows.len() - 1] == last);
        match last.0 {
            GraphRow::Commit { log_idx } => {
                lemma_commit_hit_push(
                    commit_areas(shorter),
                    SourcePanelCommitArea { rect: last.1, log_idx },
                    col,
                    row,
                );
            },
            GraphRow::File { log_idx, file_idx } => {
                lemma_commit_file_hit_push(
                    commit_file_areas(shorter),
                    SourcePanelCommitFileArea { rect: last.1, log_idx, file_idx },
                    col,
                    row,
                );
            },
            GraphRow::LoadMore => {},
        }
    }
}

/// A click on a visible row of the Graph section finds the commit, or the file
/// beneath a commit, that the row shows, and nothing else.
pub proof fn law_click_finds_the_shown_row(app: AppState, area: Rect, i: int, col: int, row: int)
    requires
        area.fits(),
        0 <= i < visible_graph_rows(app, area).len(),
        visible_graph_rows(app, area)[i].1.has_cell(col, row),
    ensures
        ({
            let rows = visible_graph_rows(app, area);
            &&& commit_hit(commit_areas(rows), col, row) == match rows[i].0 {
                GraphRow::Commit { log_idx } => Some(log_idx),
                _ => None,
            }
            &&& commit_file_hit(commit_file_areas(rows), col, row) == match rows[i].0 {
                GraphRow::File { log_idx, file_idx } => Some((log_idx, file_idx)),
                _ => None,
            }
        }),
{
    let rows = visible_graph_rows(app, area);
    let section = graph_section(area, app.source_panel_split_rows as int);
    assert(section.fits());
    assert forall|j: int| 0 <= j < rows.len() && j != i implies !(#[trigger] rows[j]).1.has_cell(
        col,
        row,
    ) by {}
    lemma_row_hits(rows, col, row, i);
}

/// Where neither bound is reached, scrolling moves the list by exactly the given rows,
/// upwards as well as downwards, so that scrolling back by the same rows leads back.
/// At a bound the list stops: at its start upwards, at `max` downwards.
pub proof fn law_scrolling_moves_by_rows(scroll: int, delta: int, max: int)
    requires
        0 <= scroll <= max,
    ensures
        0 <= scroll + delta <= max ==> scrolled(scroll, delta, max) == scroll + delta,
        0 <= scroll + delta <= max ==> scrolled(scrolled(scroll, delta, max), -delta, max)
            == scroll,
        scroll + delta < 0 ==> scrolled(scroll, delta, max) == 0,
        scroll + delta > max ==> scrolled(scroll, delta, max) == max,
{
}

/// Scrolling up moves by the given rows wherever the list stands, even past `max`,
/// and scrolling down leaves no list past `max`.
pub proof fn law_scrolling_out_of_bounds(scroll: int, delta: int, max: int)
    requires
        0 <= max < scroll,
    ensures
        delta < 0 && scroll + delta >= 0 ==> scrolled(scroll, delta, max) == scroll + delta,
        delta < 0 && scroll + delta < 0 ==> scrolled(scroll, delta, max) == 0,
        delta >= 0 ==> scrolled(scroll, delta, max) == max,
{
}

/// A hit is the entry of the first row that holds the cell; without such a row there
/// is none.
pub proof fn law_first_changed_file_is_hit(areas: Seq<SourcePanelFileArea>, col: int, row: int)
    ensures
        change_hit(areas, col, row) is None <==> forall|j: int|
            0 <= j < areas.len() ==> !(#[trigger] areas[j]).rect.has_cell(col, row),
        forall|i: int|
            0 <= i < areas.len() && (#[trigger] areas[i]).rect.has_cell(col, row) && (forall|j: int|
                0 <= j < i ==> !(#[trigger] areas[j]).rect.has_cell(col, row)) ==> change_hit(
                areas,
                col,
                row,
            ) == Some(areas[i].change_idx),
    decreases areas.len(),
{
    if areas.len() > 0 {
        let rest = areas.skip(1);
        law_first_changed_file_is_hit(rest, col, row);
        assert forall|j: int| 0 <= j < rest.len() implies #[trigger] rest[j] == areas[j + 1] by {}
        if !areas[0].rect.has_cell(col, row) {
            if change_hit(areas, col, row) is None {
                assert forall|j: int| 0 <= j < areas.len() implies !(
                #[trigger] areas[j]).rect.has_cell(col, row) by {
                    if j > 0 {
                        assert(!rest[j - 1].rect.has_cell(col, row));
                    }
                }
            } else {
                let k = choose|k: int|
                    0 <= k < rest.len() && (#[trigger] rest[k]).rect.has_cell(col, row);
                assert(areas[k + 1].rect.has_cell(col, row));
            }
        }
        assert forall|i: int|
            0 <= i < areas.len() && (#[trigger] areas[i]).rect.has_cell(col, row) && (forall|j: int|
                0 <= j < i ==> !(#[trigger] areas[j]).rect.has_cell(col, row)) implies change_hit(
            areas,
            col,
            row,
        ) == Some(areas[i].change_idx) by {
            lemma_change_hit(areas, col, row, i);
        }
    }
}

/// A hit among the commit rows is the first row that holds the cell.
pub proof fn law_first_commit_is_hit(areas: Seq<SourcePanelCommitArea>, col: int, row: int, i: int)
    requires
        0 <= i <= areas.len(),
        forall|j: int| 0 <= j < i ==> !(#[trigger] areas[j]).rect.has_cell(col, row),
        i < areas.len() ==> areas[i].rect.has_cell(col, row),
    ensures
        commit_hit(areas, col, row) == if i < areas.len() {
            Some(areas[i].log_idx)
        } else {
            None
        },
    decreases areas.len(),
{
    if i > 0 {
        let rest = areas.skip(1);
        assert forall|j: int| 0 <= j < i - 1 implies !(#[trigger] rest[j]).rect.has_cell(
            col,
            row,
        ) by {
            assert(rest[j] == areas[j + 1]);
        }
        assert(!areas[0].rect.has_cell(col, row));
        law_first_commit_is_hit(rest, col, row, i - 1);
    }
}

/// A hit among the file rows beneath commits is the first row that holds the cell.
pub proof fn law_first_commit_file_is_hit(
    areas: Seq<SourcePanelCommitFileArea>,
    col: int,
    row: int,
    i: int,
)
    requires
        0 <= i <= areas.len(),
        forall|j: int| 0 <= j < i ==> !(#[trigger] areas[j]).rect.has_cell(col, row),
        i < areas.len() ==> areas[i].rect.has_cell(col, row),
    ensures
        commit_file_hit(areas, col, row) == if i < areas.len() {
            Some((areas[i].log_idx, areas[i].file_idx))
        } else {
            None
        },
    decreases areas.len(),
{
    if i > 0 {
        let rest = areas.skip(1);
        assert forall|j: int| 0 <= j < i - 1 implies !(#[trigger] rest[j]).rect.has_cell(
            col,
            row,
        ) by {
            assert(rest[j] == areas[j + 1]);
        }
        assert(!areas[0].rect.has_cell(col, row));
        law_first_commit_file_is_hit(rest, col, row, i - 1);
    }
}

/// An edge that is dragged too far stays at the bound on that side, so that the panel is as wide
/// as it can be, or as narrow.
pub proof fn law_width_drag_ends_at_a_bound(n: int, more: int, min: int, max: int)
    requires
        min <= max,
        more >= 0,
    ensures
        n <= min ==> kept_within(n, min, max) == min,
        n >= max ==> kept_within(n, min, max) == max,
        kept_within(n, min, max) <= kept_within(n + more, min, max),
{
}

/// A panel that is collapsed has no section; one that is not has the sections of the area where
/// it was drawn last.
pub proof fn law_drawn_sections(app: AppState)
    ensures
        app.source_panel_collapsed ==> app.drawn_changes() == no_rect() && app.drawn_graph()
            == no_rect(),
        !app.source_panel_collapsed && app.view.source_panel_rect.width > 1
            && app.view.source_panel_rect.height > 0 ==> app.drawn_changes() == changes_section(
            app.view.source_panel_rect,
            app.source_panel_split_rows as int,
        ) && app.drawn_graph() == graph_section(
            app.view.source_panel_rect,
            app.source_panel_split_rows as int,
        ),
{
}

/// A view in which nothing was drawn yet has nothing to click.
pub proof fn law_blank_view_is_not_hit(
    view: crate::app_state::ViewState,
    col: int,
    row: int,
)
    requires
        view.is_blank(),
    ensures
        change_hit(view.source_panel_changes_card_areas@, col, row) is None,
        commit_hit(view.source_panel_log_card_areas@, col, row) is None,
        commit_file_hit(view.source_panel_commit_file_card_areas@, col, row) is None,
        !view.source_panel_rect.has_cell(col, row),
        !view.source_panel_toggle_rect.has_cell(col, row),
        !view.source_panel_changes_refresh_rect.has_cell(col, row),
        !view.source_panel_log_refresh_rect.has_cell(col, row),
        !view.source_panel_load_more_rect.has_cell(col, row),
        !view.source_panel_section_divider_rect.has_cell(col, row),
{
}

} // verus!
