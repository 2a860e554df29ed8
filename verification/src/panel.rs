//! The layout of the source panel: where its sections, rows, and controls lie.
use crate::geometry::{lesser, no_rect, rect, Rect};
use crate::workspace::SourcePanelMode;
use vstd::prelude::*;

verus! {

/// Rows the panel reserves at the top for the mode segmented control header.
pub const SOURCE_PANEL_HEADER_ROWS: u16 = 1;

/// Rows the Changes section reserves for its header before the file list.
pub const CHANGES_HEADER_ROWS: u16 = 1;

/// Rows the Graph section reserves for its header before the commit list.
pub const GRAPH_HEADER_ROWS: u16 = 1;

/// The height from which on the panel has a divider between its sections.
pub const DIVIDED_HEIGHT: u16 = 6;

/// The heights of the Changes and Graph sections in `total` rows, of which the
/// split gives the Changes section `split_rows`. Each section of a panel that is
/// tall enough gets at least three rows; in a lower one they share the rows.
pub open spec fn section_heights(total: int, split_rows: int) -> (int, int) {
    if total < DIVIDED_HEIGHT {
        ((total + 1) / 2, total / 2)
    } else {
        let changes = if split_rows < 3 {
            3
        } else if split_rows > total - 3 {
            total - 3
        } else {
            split_rows
        };
        (changes, total - changes)
    }
}

/// Split a height into (changes, graph) section heights.
pub fn source_panel_section_heights(total_h: u16, split_rows: u16) -> (heights: (u16, u16))
    ensures
        heights.0 == section_heights(total_h as int, split_rows as int).0,
        heights.1 == section_heights(total_h as int, split_rows as int).1,
{
    if total_h == 0 {
        return (0, 0);
    }
    if total_h < DIVIDED_HEIGHT {
        let changes_h: u16 = total_h / 2 + total_h % 2;
        return (changes_h, total_h - changes_h);
    }
    let changes_h: u16 = if split_rows < 3 {
        3
    } else if split_rows > total_h - 3 {
        total_h - 3
    } else {
        split_rows
    };
    (changes_h, total_h - changes_h)
}

/// The two sections share all the rows, and in a tall panel each has some.
pub proof fn law_sections_share_the_height(total: int, split_rows: int)
    requires
        0 <= total,
        0 <= split_rows,
    ensures
        section_heights(total, split_rows).0 + section_heights(total, split_rows).1 == total,
        section_heights(total, split_rows).0 >= 0,
        section_heights(total, split_rows).1 >= 0,
        total >= DIVIDED_HEIGHT ==> section_heights(total, split_rows).0 >= 3
            && section_heights(total, split_rows).1 >= 3,
{
}

/// The panel without the separator column at its left edge.
pub open spec fn content_of(area: Rect) -> Rect {
    if area.width == 0 {
        no_rect()
    } else {
        rect(area.x + 1, area.y as int, area.width - 1, area.height as int)
    }
}

/// The content area of the panel excludes the left-edge separator column.
pub fn source_panel_content(area: Rect) -> (r: Rect)
    requires
        area.fits(),
    ensures
        r == content_of(area),
        r.fits(),
{
    if area.width == 0 {
        return Rect::none();
    }
    Rect::new(area.x + 1, area.y, area.width - 1, area.height)
}

/// The row at the top of the content.
pub open spec fn mode_header_of(area: Rect) -> Rect {
    let content = content_of(area);
    if content.width == 0 || content.height == 0 {
        no_rect()
    } else {
        rect(content.x as int, content.y as int, content.width as int, 1)
    }
}

/// The 1-row header at the top of the panel content where the mode segmented
/// control is drawn. Shared by both Source and Explorer modes.
pub fn source_panel_mode_header_rect(area: Rect) -> (r: Rect)
    requires
        area.fits(),
    ensures
        r == mode_header_of(area),
        r.fits(),
{
    let content = source_panel_content(area);
    if content.width == 0 || content.height == 0 {
        return Rect::none();
    }
    Rect::new(content.x, content.y, content.width, SOURCE_PANEL_HEADER_ROWS)
}

/// The content below the mode header.
pub open spec fn body_of(area: Rect) -> Rect {
    let content = content_of(area);
    if content.width == 0 || content.height <= 1 {
        no_rect()
    } else {
        rect(content.x as int, content.y + 1, content.width as int, content.height - 1)
    }
}

/// The panel content below the mode header: the area both modes render their
/// bodies into (Source's two sections, or the Explorer tree).
pub fn source_panel_body_rect(area: Rect) -> (r: Rect)
    requires
        area.fits(),
    ensures
        r == body_of(area),
        r.fits(),
{
    let content = source_panel_content(area);
    if content.width == 0 || content.height <= SOURCE_PANEL_HEADER_ROWS {
        return Rect::none();
    }
    Rect::new(
        content.x,
        content.y + SOURCE_PANEL_HEADER_ROWS,
        content.width,
        content.height - SOURCE_PANEL_HEADER_ROWS,
    )
}

/// A clickable mode label of the header.
#[derive(Debug, Clone, Copy, PartialEq, Eq, Structural)]
pub struct SourcePanelModeTabArea {
    pub rect: Rect,
    pub mode: SourcePanelMode,
}

/// The label of a mode.
pub open spec fn mode_label(mode: SourcePanelMode) -> Seq<char> {
    match mode {
        SourcePanelMode::Source => "Source"@,
        SourcePanelMode::Explorer => "Explorer"@,
    }
}

/// The columns that a mode label takes, with a blank on each side.
pub open spec fn mode_label_width(mode: SourcePanelMode) -> int {
    match mode {
        SourcePanelMode::Source => 8,
        SourcePanelMode::Explorer => 10,
    }
}

/// The mode labels from left to right, as far as the header has columns.
pub open spec fn mode_tabs_of(area: Rect) -> Seq<SourcePanelModeTabArea> {
    let header = mode_header_of(area);
    let first = mode_label_width(SourcePanelMode::Source);
    let source = SourcePanelModeTabArea {
        rect: rect(header.x as int, header.y as int, lesser(first, header.width as int), 1),
        mode: SourcePanelMode::Source,
    };
    if header.width == 0 {
        seq![]
    } else if header.width <= first {
        seq![source]
    } else {
        seq![
            source,
            SourcePanelModeTabArea {
                rect: rect(
                    header.x + first,
                    header.y as int,
                    lesser(mode_label_width(SourcePanelMode::Explorer), header.width - first),
                    1,
                ),
                mode: SourcePanelMode::Explorer,
            },
        ]
    }
}

/// Clickable rects for the header's two mode labels, laid out left to right.
/// Each label is rendered as `" <name> "`, so its hit-target includes the
/// surrounding padding cells.
pub fn compute_source_panel_mode_tab_areas(area: Rect) -> (areas: Vec<SourcePanelModeTabArea>)
    requires
        area.fits(),
    ensures
        areas@ == mode_tabs_of(area),
{
    let header = source_panel_mode_header_rect(area);
    let mut areas: Vec<SourcePanelModeTabArea> = Vec::new();
    if header.width == 0 || header.height == 0 {
        return areas;
    }
    let right: u16 = header.x + header.width;
    let mut x: u16 = header.x;
    let ghost all = mode_tabs_of(area);
    let mut i: usize = 0;
    assert(areas@ == all.take(0));
    while i < 2 && x < right
        invariant
            i <= 2,
            header == mode_header_of(area),
            header.fits(),
            header.width > 0,
            header.height == 1,
            right == header.x + header.width,
            all == mode_tabs_of(area),
            header.x <= x <= right,
            i == 0 ==> x == header.x,
            i == 1 ==> x == header.x + lesser(8, header.width as int),
            i == 2 ==> header.width > 8,
            i <= all.len(),
            areas@ == all.take(i as int),
        decreases 2 - i,
    {
        let mode = if i == 0 {
            SourcePanelMode::Source
        } else {
            SourcePanelMode::Explorer
        };
        let want: u16 = match mode {
            SourcePanelMode::Source => 8,
            SourcePanelMode::Explorer => 10,
        };
        let w: u16 = if want < right - x {
            want
        } else {
            right - x
        };
        areas.push(SourcePanelModeTabArea { rect: Rect::new(x, header.y, w, 1), mode });
        assert(areas@ == all.take(i + 1));
        x = x + w;
        i += 1;
    }
    assert(i == all.len());
    assert(all.take(i as int) == all);
    areas
}

/// A mode label with its blanks is as wide as its columns.
pub proof fn law_mode_labels_fit(mode: SourcePanelMode)
    ensures
        mode_label(mode).len() + 2 == mode_label_width(mode),
{
    reveal_strlit("Source");
    reveal_strlit("Explorer");
}

/// Whether the panel is tall enough to set aside a dedicated 1-row divider
/// between the changes and graph sections.
pub fn source_panel_has_section_divider(content_height: u16) -> (r: bool)
    ensures
        r == (content_height >= DIVIDED_HEIGHT),
{
    content_height >= DIVIDED_HEIGHT
}

/// The rows between the sections.
pub open spec fn divider_rows(height: int) -> int {
    if height >= DIVIDED_HEIGHT {
        1
    } else {
        0
    }
}

/// The Changes section: the upper part of the body.
pub open spec fn changes_section(area: Rect, split_rows: int) -> Rect {
    let body = body_of(area);
    if body.width == 0 {
        no_rect()
    } else {
        rect(
            body.x as int,
            body.y as int,
            body.width as int,
            section_heights(body.height as int, split_rows).0,
        )
    }
}

/// The Graph section: the lower part of the body, below the divider.
pub open spec fn graph_section(area: Rect, split_rows: int) -> Rect {
    let body = body_of(area);
    if body.width == 0 {
        no_rect()
    } else {
        let heights = section_heights(body.height as int, split_rows);
        let divider = divider_rows(body.height as int);
        rect(
            body.x as int,
            body.y + heights.0 + divider,
            body.width as int,
            heights.1 - divider,
        )
    }
}

/// Returns `(changes_area, graph_area)` for the expanded panel. When the panel
/// is tall enough, a 1-row divider is carved from the top of the graph section
/// so the two lists read as visually separate.
pub fn expanded_source_panel_sections(area: Rect, split_rows: u16) -> (sections: (Rect, Rect))
    requires
        area.fits(),
    ensures
        sections.0 == changes_section(area, split_rows as int),
        sections.1 == graph_section(area, split_rows as int),
        sections.0.fits(),
        sections.1.fits(),
{
    let content = source_panel_body_rect(area);
    if content.width == 0 || content.height == 0 {
        return (Rect::none(), Rect::none());
    }
    let (changes_h, graph_h) = source_panel_section_heights(content.height, split_rows);
    let changes_area = Rect::new(content.x, content.y, content.width, changes_h);
    let divider: u16 = if source_panel_has_section_divider(content.height) {
        1
    } else {
        0
    };
    let graph_area = Rect::new(
        content.x,
        content.y + changes_h + divider,
        content.width,
        graph_h - divider,
    );
    (changes_area, graph_area)
}

/// The row between the sections.
pub open spec fn divider_of(area: Rect, split_rows: int) -> Rect {
    let body = body_of(area);
    if body.width == 0 || body.height < DIVIDED_HEIGHT {
        no_rect()
    } else {
        rect(
            body.x as int,
            body.y + section_heights(body.height as int, split_rows).0,
            body.width as int,
            1,
        )
    }
}

/// The 1-row divider between the changes and graph sections.
pub fn source_panel_section_divider_rect(area: Rect, split_rows: u16) -> (r: Rect)
    requires
        area.fits(),
    ensures
        r == divider_of(area, split_rows as int),
        r.fits(),
{
    let content = source_panel_body_rect(area);
    if content.width == 0 || !source_panel_has_section_divider(content.height) {
        return Rect::none();
    }
    let (changes_h, _) = source_panel_section_heights(content.height, split_rows);
    Rect::new(content.x, content.y + changes_h, content.width, 1)
}

/// No row belongs to two of the Changes section, the divider, and the Graph
/// section, and together they are all the rows of the body.
pub proof fn law_sections_partition_the_body(area: Rect, split_rows: int, row: int)
    requires
        area.fits(),
        0 <= split_rows,
        body_of(area).width > 0,
    ensures
        ({
            let body = body_of(area);
            let changes = changes_section(area, split_rows);
            let divider = divider_of(area, split_rows);
            let graph = graph_section(area, split_rows);
            let x = body.x as int;
            &&& body.has_cell(x, row) <==> changes.has_cell(x, row) || divider.has_cell(x, row)
                || graph.has_cell(x, row)
            &&& !(changes.has_cell(x, row) && divider.has_cell(x, row))
            &&& !(changes.has_cell(x, row) && graph.has_cell(x, row))
            &&& !(divider.has_cell(x, row) && graph.has_cell(x, row))
        }),
{
}

/// The Changes section rect (the upper of the two expanded sections).
pub fn source_panel_changes_rect(area: Rect, split_rows: u16) -> (r: Rect)
    requires
        area.fits(),
    ensures
        r == changes_section(area, split_rows as int),
        r.fits(),
{
    expanded_source_panel_sections(area, split_rows).0
}

/// The Graph section rect (the lower of the two expanded sections).
pub fn source_panel_graph_rect(area: Rect, split_rows: u16) -> (r: Rect)
    requires
        area.fits(),
    ensures
        r == graph_section(area, split_rows as int),
        r.fits(),
{
    expanded_source_panel_sections(area, split_rows).1
}

/// The rightmost cell of a rectangle's first row.
pub open spec fn top_right_cell(section: Rect) -> Rect {
    if section.width == 0 || section.height == 0 {
        no_rect()
    } else {
        rect(section.x + section.width - 1, section.y as int, 1, 1)
    }
}

fn top_right_cell_of(section: Rect) -> (r: Rect)
    requires
        section.fits(),
    ensures
        r == top_right_cell(section),
        r.fits(),
{
    if section.width == 0 || section.height == 0 {
        return Rect::none();
    }
    Rect::new(section.x + (section.width - 1), section.y, 1, 1)
}

/// The clickable refresh glyph in the Changes section header (top-right cell).
pub fn source_panel_changes_refresh_rect(area: Rect, split_rows: u16) -> (r: Rect)
    requires
        area.fits(),
    ensures
        r == top_right_cell(changes_section(area, split_rows as int)),
        r.fits(),
{
    top_right_cell_of(source_panel_changes_rect(area, split_rows))
}

/// The clickable refresh glyph in the Graph section header (top-right cell).
pub fn source_panel_log_refresh_rect(area: Rect, split_rows: u16) -> (r: Rect)
    requires
        area.fits(),
    ensures
        r == top_right_cell(graph_section(area, split_rows as int)),
        r.fits(),
{
    top_right_cell_of(source_panel_graph_rect(area, split_rows))
}

/// A section below its header of one row, less a column for a scrollbar.
pub open spec fn list_body(section: Rect, has_scrollbar: bool) -> Rect {
    if section.width == 0 || section.height <= 1 {
        no_rect()
    } else {
        rect(
            section.x as int,
            section.y + 1,
            section.width - if has_scrollbar {
                1int
            } else {
                0
            },
            section.height - 1,
        )
    }
}

/// The commit-list body of the Graph section, below its header.
pub fn source_panel_graph_body_rect(section: Rect, has_scrollbar: bool) -> (r: Rect)
    requires
        section.fits(),
    ensures
        r == list_body(section, has_scrollbar),
        r.fits(),
{
    if section.width == 0 || section.height <= GRAPH_HEADER_ROWS {
        return Rect::none();
    }
    let body_width: u16 = if has_scrollbar {
        section.width - 1
    } else {
        section.width
    };
    Rect::new(
        section.x,
        section.y + GRAPH_HEADER_ROWS,
        body_width,
        section.height - GRAPH_HEADER_ROWS,
    )
}

/// The file-list body of the Changes section, below its header.
pub fn source_panel_changes_body_rect(section: Rect, has_scrollbar: bool) -> (r: Rect)
    requires
        section.fits(),
    ensures
        r == list_body(section, has_scrollbar),
        r.fits(),
{
    if section.width == 0 || section.height <= CHANGES_HEADER_ROWS {
        return Rect::none();
    }
    let body_width: u16 = if has_scrollbar {
        section.width - 1
    } else {
        section.width
    };
    Rect::new(
        section.x,
        section.y + CHANGES_HEADER_ROWS,
        body_width,
        section.height - CHANGES_HEADER_ROWS,
    )
}

/// The bottom-right cell, where the collapse toggle of the expanded panel is.
pub open spec fn expanded_toggle_of(area: Rect) -> Rect {
    if area.width <= 1 || area.height == 0 {
        no_rect()
    } else {
        rect(area.x + area.width - 1, area.y + area.height - 1, 1, 1)
    }
}

/// Bottom-right collapse toggle for the expanded panel.
pub fn expanded_source_panel_toggle_rect(area: Rect) -> (r: Rect)
    requires
        area.fits(),
    ensures
        r == expanded_toggle_of(area),
        r.fits(),
{
    if area.width <= 1 || area.height == 0 {
        return Rect::none();
    }
    Rect::new(area.x + (area.width - 1), area.y + (area.height - 1), 1, 1)
}

/// The middle of the last row, where the toggle of the collapsed strip is.
pub open spec fn collapsed_toggle_of(area: Rect) -> Rect {
    let content = content_of(area);
    if content.width == 0 || content.height == 0 {
        no_rect()
    } else {
        rect(
            lesser(content.x + content.width / 2, area.x + area.width - 1),
            area.y + area.height - 1,
            1,
            1,
        )
    }
}

/// Toggle for the collapsed narrow strip, centered in the content column(s).
pub fn collapsed_source_panel_toggle_rect(area: Rect) -> (r: Rect)
    requires
        area.fits(),
    ensures
        r == collapsed_toggle_of(area),
        r.fits(),
{
    let content = source_panel_content(area);
    if content.width == 0 || content.height == 0 {
        return Rect::none();
    }
    let bottom_y: u16 = area.y + (area.height - 1);
    let x: u16 = content.x + content.width / 2;
    let last: u16 = area.x + (area.width - 1);
    Rect::new(
        if x < last {
            x
        } else {
            last
        },
        bottom_y,
        1,
        1,
    )
}

/// The first row of the body, where the Explorer has its header.
pub open spec fn explorer_header_of(area: Rect) -> Rect {
    let body = body_of(area);
    if body.width == 0 || body.height == 0 {
        no_rect()
    } else {
        rect(body.x as int, body.y as int, body.width as int, 1)
    }
}

/// The Explorer's 1-row header (the workspace name / cwd basename), at the top
/// of the panel body.
pub fn source_panel_explorer_header_rect(area: Rect) -> (r: Rect)
    requires
        area.fits(),
    ensures
        r == explorer_header_of(area),
        r.fits(),
{
    let body = source_panel_body_rect(area);
    if body.width == 0 || body.height == 0 {
        return Rect::none();
    }
    Rect::new(body.x, body.y, body.width, 1)
}

/// The clickable refresh glyph in the Explorer header (rightmost header cell).
pub fn source_panel_explorer_refresh_rect(area: Rect) -> (r: Rect)
    requires
        area.fits(),
    ensures
        r == top_right_cell(explorer_header_of(area)),
        r.fits(),
{
    top_right_cell_of(source_panel_explorer_header_rect(area))
}

/// The cell two columns left of the last one of the Explorer's header.
pub open spec fn collapse_all_of(area: Rect) -> Rect {
    let header = explorer_header_of(area);
    if header.width < 3 {
        no_rect()
    } else {
        rect(header.x + header.width - 3, header.y as int, 1, 1)
    }
}

/// The clickable collapse-all glyph in the Explorer header, separated from the
/// refresh glyph by a blank cell (so it sits two cells left of the right edge).
pub fn source_panel_explorer_collapse_all_rect(area: Rect) -> (r: Rect)
    requires
        area.fits(),
    ensures
        r == collapse_all_of(area),
        r.fits(),
{
    let header = source_panel_explorer_header_rect(area);
    if header.width < 3 || header.height == 0 {
        return Rect::none();
    }
    Rect::new(header.x + (header.width - 3), header.y, 1, 1)
}

/// The body below the Explorer's header.
pub open spec fn explorer_tree_of(area: Rect) -> Rect {
    list_body(body_of(area), false)
}

/// The scrollable tree area of Explorer mode, below the workspace-name header.
pub fn source_panel_explorer_tree_rect(area: Rect) -> (r: Rect)
    requires
        area.fits(),
    ensures
        r == explorer_tree_of(area),
        r.fits(),
{
    let body = source_panel_body_rect(area);
    if body.width == 0 || body.height <= 1 {
        return Rect::none();
    }
    Rect::new(body.x, body.y + 1, body.width, body.height - 1)
}

/// The tree less a column for a scrollbar.
pub open spec fn explorer_body_of(section: Rect, has_scrollbar: bool) -> Rect {
    if section.width == 0 || section.height == 0 {
        no_rect()
    } else {
        rect(
            section.x as int,
            section.y as int,
            section.width - if has_scrollbar {
                1int
            } else {
                0
            },
            section.height as int,
        )
    }
}

/// The body width of the tree, reserving the rightmost column for a scrollbar
/// when the tree overflows its viewport.
pub fn source_panel_explorer_body_rect(section: Rect, has_scrollbar: bool) -> (r: Rect)
    requires
        section.fits(),
    ensures
        r == explorer_body_of(section, has_scrollbar),
        r.fits(),
{
    if section.width == 0 || section.height == 0 {
        return Rect::none();
    }
    let width: u16 = if has_scrollbar {
        section.width - 1
    } else {
        section.width
    };
    Rect::new(section.x, section.y, width, section.height)
}

/// Everything that the panel shows lies within it.
pub proof fn law_layout_stays_within_the_panel(area: Rect, split_rows: int)
    requires
        area.fits(),
        0 <= split_rows,
    ensures
        ({
            let parts = seq![
                content_of(area),
                mode_header_of(area),
                body_of(area),
                changes_section(area, split_rows),
                divider_of(area, split_rows),
                graph_section(area, split_rows),
                expanded_toggle_of(area),
                collapsed_toggle_of(area),
                explorer_header_of(area),
                collapse_all_of(area),
                explorer_tree_of(area),
            ];
            forall|i: int|
                0 <= i < parts.len() ==> (#[trigger] parts[i]) == no_rect() || parts[i].is_within(
                    area,
                )
        }),
{
}

/// A split that leaves both sections of a tall panel three rows is kept; another one is
/// moved just as far as that takes. In a low panel the sections differ by a row at most,
/// and the upper one is not the lower.
pub proof fn law_split_is_kept(total: int, split_rows: int)
    requires
        0 <= total,
        0 <= split_rows,
    ensures
        total >= 6 && 3 <= split_rows <= total - 3 ==> section_heights(total, split_rows) == (
            split_rows,
            total - split_rows,
        ),
        total >= 6 && split_rows < 3 ==> section_heights(total, split_rows).0 == 3,
        total >= 6 && split_rows > total - 3 ==> section_heights(total, split_rows).1 == 3,
        total < 6 ==> 0 <= section_heights(total, split_rows).0 - section_heights(
            total,
            split_rows,
        ).1 <= 1,
{
}

/// The leftmost column of the panel is no content, and all the rest is. The first row of
/// the content is the header, and what is below it the body.
pub proof fn law_cells_of_the_panel(area: Rect, col: int, row: int)
    requires
        area.fits(),
    ensures
        content_of(area).has_cell(col, row) <==> area.has_cell(col, row) && col != area.x,
        mode_header_of(area).has_cell(col, row) <==> area.has_cell(col, row) && col != area.x && row
            == area.y,
        body_of(area).has_cell(col, row) <==> area.has_cell(col, row) && col != area.x && row
            != area.y,
        explorer_header_of(area).has_cell(col, row) <==> area.has_cell(col, row) && col != area.x
            && row == area.y + 1,
        explorer_tree_of(area).has_cell(col, row) <==> area.has_cell(col, row) && col != area.x
            && row > area.y + 1,
{
}

/// The Changes section takes the rows of the body from the top and the Graph section those
/// down to its end, both over its whole width; a panel with six rows or more sets one row
/// aside between them.
pub proof fn law_cells_of_the_sections(area: Rect, split_rows: int, col: int, row: int)
    requires
        area.fits(),
        0 <= split_rows,
    ensures
        ({
            let body = body_of(area);
            let upper = section_heights(body.height as int, split_rows).0;
            let gap = if body.height >= 6 {
                1int
            } else {
                0
            };
            &&& changes_section(area, split_rows).has_cell(col, row) <==> body.has_cell(col, row)
                && row < body.y + upper
            &&& divider_of(area, split_rows).has_cell(col, row) <==> body.has_cell(col, row)
                && gap == 1 && row == body.y + upper
            &&& graph_section(area, split_rows).has_cell(col, row) <==> body.has_cell(col, row)
                && row >= body.y + upper + gap
        }),
{
}

/// A list takes the section below its header, but for the last column where that shows a
/// scrollbar; the tree, which has no header of its own, takes the whole of it.
pub proof fn law_cells_of_a_list(section: Rect, has_scrollbar: bool, col: int, row: int)
    requires
        section.fits(),
    ensures
        list_body(section, has_scrollbar).has_cell(col, row) <==> section.has_cell(col, row) && row
            != section.y && (has_scrollbar ==> col != section.x + section.width - 1),
        explorer_body_of(section, has_scrollbar).has_cell(col, row) <==> section.has_cell(col, row)
            && (has_scrollbar ==> col != section.x + section.width - 1),
{
}

/// Each control is a single cell: the refresh glyphs the last one of their header's first
/// row, the one that collapses all two columns left of it, the toggle of the expanded panel
/// its last cell, and that of the collapsed strip in the middle of the content of its last
/// row.
pub proof fn law_cells_of_the_controls(area: Rect, section: Rect, col: int, row: int)
    requires
        area.fits(),
        section.fits(),
    ensures
        top_right_cell(section).has_cell(col, row) <==> section.has_cell(col, row) && col
            == section.x + section.width - 1 && row == section.y,
        collapse_all_of(area).has_cell(col, row) <==> explorer_header_of(area).has_cell(col, row)
            && col + 2 == explorer_header_of(area).x + explorer_header_of(area).width - 1,
        expanded_toggle_of(area).has_cell(col, row) <==> area.has_cell(col, row) && area.width > 1
            && col == area.x + area.width - 1 && row == area.y + area.height - 1,
        collapsed_toggle_of(area).has_cell(col, row) <==> content_of(area).has_cell(col, row)
            && col == content_of(area).x + content_of(area).width / 2 && row == area.y + area.height
            - 1,
{
}

/// The header shows the mode of the repository in its first eight columns and that of the
/// tree in the ten columns behind them, as far as it has columns.
pub proof fn law_cells_of_the_mode_labels(area: Rect, i: int, col: int, row: int)
    requires
        area.fits(),
        0 <= i < mode_tabs_of(area).len(),
    ensures
        mode_tabs_of(area).len() <= 2,
        mode_tabs_of(area)[i].mode == if i == 0 {
            SourcePanelMode::Source
        } else {
            SourcePanelMode::Explorer
        },
        mode_tabs_of(area)[i].rect.has_cell(col, row) <==> mode_header_of(area).has_cell(col, row)
            && if i == 0 {
            col < mode_header_of(area).x + 8
        } else {
            mode_header_of(area).x + 8 <= col < mode_header_of(area).x + 18
        },
{
}

/// A label is shown wherever the header has a column for it.
pub proof fn law_mode_labels_are_shown(area: Rect)
    requires
        area.fits(),
    ensures
        mode_tabs_of(area).len() == if mode_header_of(area).width == 0 {
            0nat
        } else if mode_header_of(area).width <= 8 {
            1
        } else {
            2
        },
{
}

/// The labels read as the names of the modes.
pub proof fn law_mode_labels_read(mode: SourcePanelMode)
    ensures
        mode_label(SourcePanelMode::Source) == seq!['S', 'o', 'u', 'r', 'c', 'e'],
        mode_label(SourcePanelMode::Explorer) == seq!['E', 'x', 'p', 'l', 'o', 'r', 'e', 'r'],
{
    reveal_strlit("Source");
    reveal_strlit("Explorer");
    assert("Source"@ =~= seq!['S', 'o', 'u', 'r', 'c', 'e']);
    assert("Explorer"@ =~= seq!['E', 'x', 'p', 'l', 'o', 'r', 'e', 'r']);
}

} // verus!
