//! What the source panel shows, as a list of things to draw.
use crate::app_state::{
    changes_metrics, log_metrics, placed_rows, scrollbar_of, source_panel_changes_count,
    source_panel_changes_scroll_metrics, source_panel_changes_scrollbar_rect,
    source_panel_explorer_scroll_metrics, source_panel_explorer_scrollbar_rect,
    source_panel_explorer_visible_rows, source_panel_is_git_repo, source_panel_log_scroll_metrics,
    source_panel_log_scrollbar_rect, tree_metrics, tree_scrollbar, visible_tree_rows, AppState,
    SourcePanelActiveItem, SourcePanelCommitArea, SourcePanelCommitFileArea, SourcePanelFileArea,
};
use crate::file_tree::{
    clipped, decorated, truncate_with_ellipsis, DecorationView, FileEntryKind, FileTreeDecoration,
    FileTreeNode, FileTreeRow, NodeView, RowView,
};
use crate::geometry::{cut_rect, less, lesser, no_rect, rect, Rect, ScrollMetrics};
use crate::panel::{
    changes_section, collapse_all_of, collapsed_source_panel_toggle_rect, collapsed_toggle_of,
    compute_source_panel_mode_tab_areas, content_of, divider_of,
    expanded_source_panel_sections, expanded_source_panel_toggle_rect, expanded_toggle_of,
    explorer_header_of, explorer_tree_of, graph_section, list_body, mode_label, mode_tabs_of,
    source_panel_changes_body_rect, source_panel_content, source_panel_explorer_collapse_all_rect,
    source_panel_explorer_header_rect, source_panel_explorer_refresh_rect,
    source_panel_explorer_tree_rect, source_panel_graph_body_rect,
    source_panel_section_divider_rect, top_right_cell, SourcePanelModeTabArea,
};
use crate::path::{file_name_of, lossy_text, parent_path, path_key, same_path, FsPath, PathKey};
use crate::path_map::PathMap;
use crate::source_control::{
    ChangeStatus, ChangeView, ChangedFile, CommitInfo, CommitView, StatusView,
};
use crate::text::{decimal, digits, to_chars};
use crate::workspace::SourcePanelMode;
use vstd::prelude::*;
use vstd::utf8::{decode_utf8, valid_utf8};

verus! {

/// The part that a color plays; the palette says which color that is.
#[derive(Debug, Clone, Copy, PartialEq, Eq, Structural)]
pub enum Ink {
    /// The terminal's own foreground.
    Default,
    Text,
    Subtext0,
    Overlay0,
    Overlay1,
    Accent,
    Red,
    Green,
    Yellow,
    Peach,
    Mauve,
}

/// How text stands out.
#[derive(Debug, Clone, Copy, PartialEq, Eq, Structural)]
pub enum Emphasis {
    Plain,
    Bold,
    Dim,
}

/// A stretch of text in one style.
#[derive(Debug, PartialEq, Eq)]
pub struct Span {
    pub text: String,
    pub ink: Ink,
    pub emphasis: Emphasis,
}

/// The mathematical value of a [`Span`].
#[verifier::ext_equal]
pub struct SpanView {
    pub text: Seq<char>,
    pub ink: Ink,
    pub emphasis: Emphasis,
}

impl View for Span {
    type V = SpanView;

    open spec fn view(&self) -> SpanView {
        SpanView { text: self.text@, ink: self.ink, emphasis: self.emphasis }
    }
}

/// The values of a list of spans.
pub open spec fn span_views(spans: Seq<Span>) -> Seq<SpanView> {
    spans.map_values(|span: Span| span@)
}

/// Something to draw.
#[derive(Debug, PartialEq, Eq)]
pub enum DrawOp {
    /// Text at the start of a rectangle, cut off at its right edge.
    Line { rect: Rect, spans: Vec<Span> },
    /// The vertical line at the panel's left edge.
    Separator { rect: Rect },
    /// The horizontal line between the sections.
    Rule { rect: Rect },
    /// The background of a highlighted row.
    Highlight { rect: Rect },
    /// A scrollbar.
    Scrollbar { track: Rect, metrics: ScrollMetrics },
}

/// The mathematical value of a [`DrawOp`].
#[verifier::ext_equal]
pub enum OpView {
    Line { rect: Rect, spans: Seq<SpanView> },
    Separator { rect: Rect },
    Rule { rect: Rect },
    Highlight { rect: Rect },
    Scrollbar { track: Rect, metrics: ScrollMetrics },
}

impl View for DrawOp {
    type V = OpView;

    open spec fn view(&self) -> OpView {
        match self {
            DrawOp::Line { rect, spans } => OpView::Line { rect: *rect, spans: span_views(spans@) },
            DrawOp::Separator { rect } => OpView::Separator { rect: *rect },
            DrawOp::Rule { rect } => OpView::Rule { rect: *rect },
            DrawOp::Highlight { rect } => OpView::Highlight { rect: *rect },
            DrawOp::Scrollbar { track, metrics } => OpView::Scrollbar {
                track: *track,
                metrics: *metrics,
            },
        }
    }
}

/// The values of a list of things to draw.
pub open spec fn op_views(ops: Seq<DrawOp>) -> Seq<OpView> {
    ops.map_values(|op: DrawOp| op@)
}

fn no_spans() -> (spans: Vec<Span>)
    ensures
        span_views(spans@) == Seq::<SpanView>::empty(),
{
    let spans: Vec<Span> = Vec::new();
    assert(span_views(spans@) == Seq::<SpanView>::empty());
    spans
}

fn add_text(spans: &mut Vec<Span>, text: String, ink: Ink, emphasis: Emphasis)
    ensures
        span_views(final(spans)@) == span_views(old(spans)@).push(
            SpanView { text: text@, ink, emphasis },
        ),
{
    let ghost before = spans@;
    let span = Span { text, ink, emphasis };
    let ghost added = span@;
    spans.push(span);
    assert(span_views(spans@) == span_views(before).push(added));
}

fn add_str(spans: &mut Vec<Span>, text: &str, ink: Ink, emphasis: Emphasis)
    ensures
        span_views(final(spans)@) == span_views(old(spans)@).push(
            SpanView { text: text@, ink, emphasis },
        ),
{
    add_text(spans, text.to_string(), ink, emphasis);
}

fn one_str(text: &str, ink: Ink, emphasis: Emphasis) -> (spans: Vec<Span>)
    ensures
        span_views(spans@) == seq![SpanView { text: text@, ink, emphasis }],
{
    let mut spans = no_spans();
    add_str(&mut spans, text, ink, emphasis);
    spans
}

fn add_op(ops: &mut Vec<DrawOp>, op: DrawOp)
    ensures
        op_views(final(ops)@) == op_views(old(ops)@).push(op@),
{
    let ghost before = ops@;
    let ghost added = op@;
    ops.push(op);
    assert(op_views(ops@) == op_views(before).push(added));
}

fn add_line(ops: &mut Vec<DrawOp>, rect: Rect, spans: Vec<Span>)
    ensures
        op_views(final(ops)@) == op_views(old(ops)@).push(
            OpView::Line { rect, spans: span_views(spans@) },
        ),
{
    add_op(ops, DrawOp::Line { rect, spans });
}

/// A single stretch of text in a rectangle.
pub open spec fn text_op(r: Rect, text: Seq<char>, ink: Ink, emphasis: Emphasis) -> OpView {
    OpView::Line { rect: r, spans: seq![SpanView { text, ink, emphasis }] }
}

/// `n` blanks.
pub open spec fn blanks(n: nat) -> Seq<char> {
    Seq::new(n, |i: int| ' ')
}

fn blank_text(n: usize) -> (text: String)
    ensures
        text@ == blanks(n as nat),
{
    let mut text = String::new();
    let mut i: usize = 0;
    assert(text@ == blanks(0));
    while i < n
        invariant
            i <= n,
            text@ == blanks(i as nat),
        decreases n - i,
    {
        text.push(' ');
        i += 1;
        assert(text@ =~= blanks(i as nat));
    }
    text
}

/// The separator at the panel's left edge.
pub open spec fn separator_op(area: Rect) -> OpView {
    OpView::Separator { rect: rect(area.x as int, area.y as int, 1, area.height as int) }
}

fn render_left_separator(ops: &mut Vec<DrawOp>, area: Rect)
    ensures
        op_views(final(ops)@) == op_views(old(ops)@).push(separator_op(area)),
{
    add_op(
        ops,
        DrawOp::Separator { rect: Rect { x: area.x, y: area.y, width: 1, height: area.height } },
    );
}

/// The header of the Changes section: the number of files on the left, the refresh
/// glyph on the right.
pub open spec fn changes_header_ops(section: Rect, count: nat) -> Seq<OpView> {
    if section.width == 0 || section.height == 0 {
        seq![]
    } else {
        (if section.width > 1 {
            seq![
                text_op(
                    rect(section.x as int, section.y as int, section.width - 1, 1),
                    " changes ("@ + digits(count, 10) + ")"@,
                    Ink::Overlay0,
                    Emphasis::Bold,
                ),
            ]
        } else {
            seq![]
        }) + seq![text_op(top_right_cell(section), "↻"@, Ink::Overlay0, Emphasis::Plain)]
    }
}

/// The Changes header: ` changes (N)` on the left, a clickable refresh glyph on the
/// right.
pub fn render_changes_header(ops: &mut Vec<DrawOp>, section: Rect, count: usize)
    requires
        section.fits(),
    ensures
        op_views(final(ops)@) == op_views(old(ops)@) + changes_header_ops(section, count as nat),
{
    let ghost start = op_views(ops@);
    if section.width == 0 || section.height == 0 {
        assert(start + Seq::<OpView>::empty() =~= start);
        return;
    }
    // The refresh glyph occupies the rightmost cell; the label fills the rest.
    let label_width: u16 = section.width - 1;
    if label_width > 0 {
        let mut label = " changes (".to_string();
        label.append(decimal(count).as_str());
        label.append(")");
        let mut spans = no_spans();
        add_text(&mut spans, label, Ink::Overlay0, Emphasis::Bold);
        add_line(ops, Rect::new(section.x, section.y, label_width, 1), spans);
    }
    add_line(
        ops,
        Rect::new(section.x + label_width, section.y, 1, 1),
        one_str("↻", Ink::Overlay0, Emphasis::Plain),
    );
    assert(op_views(ops@) =~~= start + changes_header_ops(section, count as nat));
}

/// The toggle of the panel.
pub open spec fn toggle_ops(area: Rect, collapsed: bool) -> Seq<OpView> {
    let toggle = if collapsed {
        collapsed_toggle_of(area)
    } else {
        expanded_toggle_of(area)
    };
    if toggle == no_rect() {
        seq![]
    } else {
        seq![
            text_op(
                toggle,
                if collapsed {
                    "«"@
                } else {
                    "»"@
                },
                Ink::Overlay0,
                Emphasis::Plain,
            ),
        ]
    }
}

/// The collapse or expand toggle. The panel lives on the right edge, so the
/// collapse arrow points right and the expand arrow (shown while collapsed) points
/// left.
pub fn render_source_panel_toggle(ops: &mut Vec<DrawOp>, area: Rect, collapsed: bool)
    requires
        area.fits(),
    ensures
        op_views(final(ops)@) == op_views(old(ops)@) + toggle_ops(area, collapsed),
{
    let ghost start = op_views(ops@);
    let toggle = if collapsed {
        collapsed_source_panel_toggle_rect(area)
    } else {
        expanded_source_panel_toggle_rect(area)
    };
    if toggle == Rect::none() {
        assert(start + Seq::<OpView>::empty() =~= start);
        return;
    }
    let icon = if collapsed {
        "«"
    } else {
        "»"
    };
    add_line(ops, toggle, one_str(icon, Ink::Overlay0, Emphasis::Plain));
    assert(op_views(ops@) =~~= start + toggle_ops(area, collapsed));
}

/// A mode label, highlighted where it is the active one.
pub open spec fn mode_tab_ops(tab: SourcePanelModeTabArea, active: SourcePanelMode) -> Seq<OpView> {
    let label = " "@ + mode_label(tab.mode) + " "@;
    if tab.mode == active {
        seq![
            OpView::Highlight { rect: tab.rect },
            text_op(tab.rect, label, Ink::Text, Emphasis::Bold),
        ]
    } else {
        seq![text_op(tab.rect, label, Ink::Overlay0, Emphasis::Dim)]
    }
}

/// The mode labels of the header.
pub open spec fn mode_header_ops(
    tabs: Seq<SourcePanelModeTabArea>,
    active: SourcePanelMode,
) -> Seq<OpView>
    decreases tabs.len(),
{
    if tabs.len() == 0 {
        seq![]
    } else {
        mode_header_ops(tabs.drop_last(), active) + mode_tab_ops(tabs.last(), active)
    }
}

/// Draw the header's mode segmented control: a `Source` / `Explorer` pair of
/// clickable labels with the active mode visually distinguished by a highlight
/// background.
pub fn render_source_panel_mode_header(app: &AppState, ops: &mut Vec<DrawOp>, area: Rect)
    requires
        area.fits(),
    ensures
        op_views(final(ops)@) == op_views(old(ops)@) + mode_header_ops(
            mode_tabs_of(area),
            app.panel_mode(),
        ),
{
    let ghost start = op_views(ops@);
    let active = app.source_panel_mode();
    let tabs = compute_source_panel_mode_tab_areas(area);
    let mut i: usize = 0;
    assert(op_views(ops@) =~= start + mode_header_ops(tabs@.take(0), active));
    while i < tabs.len()
        invariant
            i <= tabs@.len(),
            op_views(ops@) == start + mode_header_ops(tabs@.take(i as int), active),
        decreases tabs@.len() - i,
    {
        let tab = tabs[i];
        let ghost before = op_views(ops@);
        let mut label = " ".to_string();
        match tab.mode {
            SourcePanelMode::Source => {
                label.append("Source");
            },
            SourcePanelMode::Explorer => {
                label.append("Explorer");
            },
        }
        label.append(" ");
        let mut spans = no_spans();
        if tab.mode == active {
            add_op(ops, DrawOp::Highlight { rect: tab.rect });
            add_text(&mut spans, label, Ink::Text, Emphasis::Bold);
        } else {
            add_text(&mut spans, label, Ink::Overlay0, Emphasis::Dim);
        }
        add_line(ops, tab.rect, spans);
        assert(op_views(ops@) =~~= before + mode_tab_ops(tab, active));
        assert(tabs@.take(i + 1).drop_last() == tabs@.take(i as int));
        assert(op_views(ops@) =~= start + mode_header_ops(tabs@.take(i + 1), active));
        i += 1;
    }
    assert(tabs@.take(i as int) == tabs@);
}

/// The columns that a tree row is indented by: two for each level.
pub open spec fn tree_indent(depth: nat) -> nat {
    if 2 * depth > usize::MAX {
        usize::MAX as nat
    } else {
        2 * depth
    }
}

fn tree_indent_of(depth: usize) -> (n: usize)
    ensures
        n == tree_indent(depth as nat),
{
    if depth > usize::MAX / 2 {
        usize::MAX
    } else {
        depth * 2
    }
}

/// The marker in front of an entry: a chevron for a directory, which points down
/// where it is expanded, and a sign of its own for symlinks and files.
pub open spec fn node_marker(node: NodeView) -> Seq<char> {
    match node.kind {
        FileEntryKind::Directory => if node.expanded {
            "▾"@
        } else {
            "▸"@
        },
        FileEntryKind::Symlink => "↩"@,
        FileEntryKind::File => "·"@,
    }
}

/// The glyph and the color of a change.
pub open spec fn status_glyph(status: StatusView) -> (Seq<char>, Ink) {
    match status {
        StatusView::Modified => ("M"@, Ink::Red),
        StatusView::Added => ("A"@, Ink::Green),
        StatusView::Deleted => ("D"@, Ink::Red),
        StatusView::Renamed { from: _ } => ("R"@, Ink::Yellow),
        StatusView::Unmerged => ("U"@, Ink::Peach),
        StatusView::Untracked => ("?"@, Ink::Overlay0),
    }
}

/// Map a change status to its single-letter glyph and accent color.
pub fn change_status_glyph(status: &ChangeStatus) -> (glyph: (&'static str, Ink))
    ensures
        glyph.0@ == status_glyph(status@).0,
        glyph.1 == status_glyph(status@).1,
{
    match status {
        ChangeStatus::Modified => ("M", Ink::Red),
        ChangeStatus::Added => ("A", Ink::Green),
        ChangeStatus::Deleted => ("D", Ink::Red),
        ChangeStatus::Renamed { from: _ } => ("R", Ink::Yellow),
        ChangeStatus::Unmerged => ("U", Ink::Peach),
        ChangeStatus::Untracked => ("?", Ink::Overlay0),
    }
}

/// The colors of an entry's marker and name: those of its change, else those of its
/// kind.
pub open spec fn node_inks(node: NodeView, decoration: Option<DecorationView>) -> (Ink, Ink) {
    match decoration {
        Some(DecorationView::Changed(status)) => (status_glyph(status).1, status_glyph(status).1),
        _ => if node.kind == FileEntryKind::Directory {
            (Ink::Overlay0, Ink::Text)
        } else {
            (Ink::Overlay1, Ink::Subtext0)
        },
    }
}

/// The columns that the dot of a folder with changes takes.
pub open spec fn dot_columns(decoration: Option<DecorationView>) -> int {
    if decoration == Some(DecorationView::ContainsChanges) {
        2
    } else {
        0
    }
}

/// The spans of a tree row: indentation, marker, and the name as far as it fits;
/// behind the name of a folder with changes a dot.
pub open spec fn node_spans(
    width: nat,
    node: NodeView,
    decoration: Option<DecorationView>,
) -> Seq<SpanView> {
    let indent = tree_indent(node.depth);
    let name_width = less(width as int, indent + 2 + dot_columns(decoration));
    let inks = node_inks(node, decoration);
    let spans = seq![
        SpanView { text: blanks(indent), ink: Ink::Default, emphasis: Emphasis::Plain },
        SpanView { text: node_marker(node), ink: inks.0, emphasis: Emphasis::Plain },
        SpanView { text: " "@, ink: Ink::Default, emphasis: Emphasis::Plain },
        SpanView {
            text: clipped(node.name, name_width as nat),
            ink: inks.1,
            emphasis: Emphasis::Plain,
        },
    ];
    if decoration == Some(DecorationView::ContainsChanges) {
        spans.push(SpanView { text: " •"@, ink: Ink::Yellow, emphasis: Emphasis::Plain })
    } else {
        spans
    }
}

/// One tree row.
pub open spec fn node_row_ops(
    row: Rect,
    node: NodeView,
    decoration: Option<DecorationView>,
) -> Seq<OpView> {
    if row.width == 0 {
        seq![]
    } else {
        seq![
            OpView::Line {
                rect: cut_rect(row.x as int, row.y as int, row.width as int, 1),
                spans: node_spans(row.width as nat, node, decoration),
            },
        ]
    }
}

/// The value of a decoration that may be missing.
pub open spec fn decoration_view(decoration: Option<&FileTreeDecoration>) -> Option<
    DecorationView,
> {
    match decoration {
        Some(d) => Some(d@),
        None => None,
    }
}

/// Render one tree row: `<indent><chevron|marker> <name>`, with the name
/// truncated to fit. Directories show a chevron; files and symlinks show a neutral
/// marker. A `decoration` from the git-status rollup recolors a changed file by
/// its status, and appends a status dot to a folder that contains changes (visible
/// even while collapsed).
pub fn render_explorer_node_row(
    ops: &mut Vec<DrawOp>,
    row: Rect,
    node: &FileTreeNode,
    decoration: Option<&FileTreeDecoration>,
)
    ensures
        op_views(final(ops)@) == op_views(old(ops)@) + node_row_ops(
            row,
            node@,
            decoration_view(decoration),
        ),
{
    let ghost start = op_views(ops@);
    if row.width == 0 {
        assert(start + Seq::<OpView>::empty() =~= start);
        return;
    }
    // Two columns per depth level of indentation, then a 1-column marker and a
    // separating space before the name.
    let indent: usize = tree_indent_of(node.depth);
    let marker = match node.kind {
        FileEntryKind::Directory => if node.expanded {
            "▾"
        } else {
            "▸"
        },
        FileEntryKind::Symlink => "↩",
        FileEntryKind::File => "·",
    };
    let default_inks = match node.kind {
        FileEntryKind::Directory => (Ink::Overlay0, Ink::Text),
        _ => (Ink::Overlay1, Ink::Subtext0),
    };
    // A changed file is colored by its git status; the rolled-up folder marker is
    // appended as a separate dot span below.
    let (marker_ink, name_ink) = match decoration {
        Some(FileTreeDecoration::Changed(status)) => {
            let ink = change_status_glyph(status).1;
            (ink, ink)
        },
        _ => default_inks,
    };
    // A folder containing changes shows a trailing dot in the changed accent.
    let rollup_dot = match decoration {
        Some(FileTreeDecoration::ContainsChanges) => true,
        _ => false,
    };
    let reserved: usize = if rollup_dot {
        4
    } else {
        2
    };
    let width: usize = row.width as usize;
    let name_width: usize = if width >= reserved && width - reserved >= indent {
        width - reserved - indent
    } else {
        0
    };
    let name = truncate_with_ellipsis(node.name.as_str(), name_width);
    let mut spans = no_spans();
    add_text(&mut spans, blank_text(indent), Ink::Default, Emphasis::Plain);
    add_str(&mut spans, marker, marker_ink, Emphasis::Plain);
    add_str(&mut spans, " ", Ink::Default, Emphasis::Plain);
    add_text(&mut spans, name, name_ink, Emphasis::Plain);
    if rollup_dot {
        add_str(&mut spans, " •", Ink::Yellow, Emphasis::Plain);
    }
    assert(span_views(spans@) =~~= node_spans(
        row.width as nat,
        node@,
        decoration_view(decoration),
    ));
    add_line(ops, Rect::new(row.x, row.y, row.width, 1), spans);
    assert(op_views(ops@) =~~= start + node_row_ops(row, node@, decoration_view(decoration)));
}

/// The indicator beneath an expanded directory without children.
pub open spec fn empty_row_ops(row: Rect, depth: nat) -> Seq<OpView> {
    if row.width == 0 {
        seq![]
    } else {
        seq![
            OpView::Line {
                rect: cut_rect(row.x as int, row.y as int, row.width as int, 1),
                spans: seq![
                    SpanView {
                        text: blanks(tree_indent(depth)),
                        ink: Ink::Default,
                        emphasis: Emphasis::Plain,
                    },
                    SpanView { text: "(empty)"@, ink: Ink::Overlay0, emphasis: Emphasis::Dim },
                ],
            },
        ]
    }
}

/// Render the dim indicator beneath an expanded directory with no children
/// (genuinely empty, or unreadable).
pub fn render_explorer_empty_row(ops: &mut Vec<DrawOp>, row: Rect, depth: usize)
    ensures
        op_views(final(ops)@) == op_views(old(ops)@) + empty_row_ops(row, depth as nat),
{
    let ghost start = op_views(ops@);
    if row.width == 0 {
        assert(start + Seq::<OpView>::empty() =~= start);
        return;
    }
    let mut spans = no_spans();
    add_text(&mut spans, blank_text(tree_indent_of(depth)), Ink::Default, Emphasis::Plain);
    add_str(&mut spans, "(empty)", Ink::Overlay0, Emphasis::Dim);
    add_line(ops, Rect::new(row.x, row.y, row.width, 1), spans);
    assert(op_views(ops@) =~~= start + empty_row_ops(row, depth as nat));
}

/// The line between the sections.
pub open spec fn divider_ops(area: Rect, split_rows: int) -> Seq<OpView> {
    let divider = divider_of(area, split_rows);
    if divider == no_rect() {
        seq![]
    } else {
        seq![OpView::Rule { rect: divider }]
    }
}

/// Draw the horizontal rule that separates the Changes and Graph sections.
/// Absent on panels too short to carve out a dedicated divider row.
pub fn render_source_panel_section_divider(ops: &mut Vec<DrawOp>, area: Rect, split_rows: u16)
    requires
        area.fits(),
    ensures
        op_views(final(ops)@) == op_views(old(ops)@) + divider_ops(area, split_rows as int),
{
    let ghost start = op_views(ops@);
    let divider = source_panel_section_divider_rect(area, split_rows);
    if divider == Rect::none() {
        assert(start + Seq::<OpView>::empty() =~= start);
        return;
    }
    add_op(ops, DrawOp::Rule { rect: divider });
    assert(op_views(ops@) =~~= start + divider_ops(area, split_rows as int));
}

/// The line that a panel without a repository shows.
pub open spec fn non_git_ops(area: Rect) -> Seq<OpView> {
    let content = content_of(area);
    if content.width == 0 || content.height == 0 {
        seq![]
    } else {
        seq![
            text_op(
                rect(content.x as int, content.y as int, content.width as int, 1),
                " not a git repository"@,
                Ink::Overlay0,
                Emphasis::Dim,
            ),
        ]
    }
}

/// Replaces both section bodies with a single dim line when the active
/// workspace's identity directory is not a git repository.
pub fn render_source_panel_non_git(ops: &mut Vec<DrawOp>, area: Rect)
    requires
        area.fits(),
    ensures
        op_views(final(ops)@) == op_views(old(ops)@) + non_git_ops(area),
{
    let ghost start = op_views(ops@);
    let content = source_panel_content(area);
    if content.width == 0 || content.height == 0 {
        assert(start + Seq::<OpView>::empty() =~= start);
        return;
    }
    add_line(
        ops,
        Rect::new(content.x, content.y, content.width, 1),
        one_str(" not a git repository", Ink::Overlay0, Emphasis::Dim),
    );
    assert(op_views(ops@) =~~= start + non_git_ops(area));
}

/// The basename and the parent directory of a path, as they are shown.
pub open spec fn shown_path(path: Seq<u8>) -> (Seq<char>, Seq<char>) {
    (
        match file_name_of(path) {
            Some(name) => lossy_text(name),
            None => lossy_text(path),
        },
        match parent_path(path) {
            Some(parent) => lossy_text(parent),
            None => seq![],
        },
    )
}

/// Split a changed-file path into `(basename, parent-dir)` display strings.
pub fn change_path_parts(path: &FsPath) -> (parts: (String, String))
    ensures
        parts.0@ == shown_path(path@).0,
        parts.1@ == shown_path(path@).1,
{
    let basename = match path.file_name() {
        Some(name) => name.to_text(),
        None => path.to_text(),
    };
    let parent = match path.parent() {
        Some(parent) => parent.to_text(),
        None => {
            let none = String::new();
            assert(none@ =~= Seq::<char>::empty());
            none
        },
    };
    (basename, parent)
}

/// The left part of a changed-file row: the basename and, dimly, the directory.
pub open spec fn change_spans(change: ChangeView, indent: nat) -> Seq<SpanView> {
    let shown = shown_path(change.path);
    let spans = seq![
        SpanView { text: blanks(indent), ink: Ink::Default, emphasis: Emphasis::Plain },
        SpanView { text: shown.0, ink: Ink::Subtext0, emphasis: Emphasis::Plain },
    ];
    if shown.1.len() == 0 {
        spans
    } else {
        spans + seq![
            SpanView { text: " "@, ink: Ink::Default, emphasis: Emphasis::Plain },
            SpanView { text: shown.1, ink: Ink::Overlay0, emphasis: Emphasis::Dim },
        ]
    }
}

/// One changed-file row: the path on the left as far as two columns remain, and the
/// status letter in the last column.
pub open spec fn change_row_ops(row: Rect, change: ChangeView, indent: nat) -> Seq<OpView> {
    if row.width == 0 {
        seq![]
    } else {
        (if row.width > 2 {
            seq![
                OpView::Line {
                    rect: cut_rect(row.x as int, row.y as int, row.width - 2, 1),
                    spans: change_spans(change, indent),
                },
            ]
        } else {
            seq![]
        }) + seq![
            text_op(
                cut_rect(row.x + row.width - 1, row.y as int, 1, 1),
                status_glyph(change.status).0,
                status_glyph(change.status).1,
                Emphasis::Plain,
            ),
        ]
    }
}

/// Render one changed-file row: `<indent><basename> <parent>` on the left,
/// clipped so the right-edge status letter stays visible. Shared by the Changes
/// section (`indent` 1) and the file rows inline under expanded commits.
pub fn render_changed_file_row(
    ops: &mut Vec<DrawOp>,
    row: Rect,
    change: &ChangedFile,
    indent: usize,
)
    requires
        row.has_last_column(),
    ensures
        op_views(final(ops)@) == op_views(old(ops)@) + change_row_ops(row, change@, indent as nat),
{
    let ghost start = op_views(ops@);
    if row.width == 0 {
        assert(start + Seq::<OpView>::empty() =~= start);
        return;
    }
    let (glyph, glyph_ink) = change_status_glyph(&change.status);
    let (basename, parent) = change_path_parts(&change.path);
    let mut spans = no_spans();
    add_text(&mut spans, blank_text(indent), Ink::Default, Emphasis::Plain);
    add_text(&mut spans, basename, Ink::Subtext0, Emphasis::Plain);
    let has_parent = to_chars(parent.as_str()).len() > 0;
    if has_parent {
        add_str(&mut spans, " ", Ink::Default, Emphasis::Plain);
        add_text(&mut spans, parent, Ink::Overlay0, Emphasis::Dim);
    }
    assert(span_views(spans@) =~~= change_spans(change@, indent as nat));
    if row.width > 2 {
        add_line(ops, Rect::new(row.x, row.y, row.width - 2, 1), spans);
    }
    add_line(
        ops,
        Rect::new(row.x + (row.width - 1), row.y, 1, 1),
        one_str(glyph, glyph_ink, Emphasis::Plain),
    );
    assert(op_views(ops@) =~~= start + change_row_ops(row, change@, indent as nat));
}

/// The item is the working-tree diff of the path.
pub open spec fn is_working_file(item: Option<SourcePanelActiveItem>, path: Seq<u8>) -> bool {
    item matches Some(SourcePanelActiveItem::WorkingFile(p)) && path_key(p@) == path_key(path)
}

/// The item is the commit.
pub open spec fn is_commit_item(item: Option<SourcePanelActiveItem>, sha: Seq<char>) -> bool {
    item matches Some(SourcePanelActiveItem::Commit(s)) && s@ == sha
}

/// The item is the file within the commit.
pub open spec fn is_commit_file_item(
    item: Option<SourcePanelActiveItem>,
    sha: Seq<char>,
    path: Seq<u8>,
) -> bool {
    item matches Some(SourcePanelActiveItem::CommitFile { sha: s, path: p }) && s@ == sha
        && path_key(p@) == path_key(path)
}

/// The background of a row where it is highlighted.
pub open spec fn highlight_ops(row: Rect, highlighted: bool) -> Seq<OpView> {
    if highlighted {
        seq![OpView::Highlight { rect: row }]
    } else {
        seq![]
    }
}

/// Fills a 1-row rect with the highlight background, used for the row whose
/// content currently fills the diff pane. Drawn before the row's text, which leaves
/// cell backgrounds untouched so the highlight shows through.
fn highlight_row(ops: &mut Vec<DrawOp>, row: Rect, highlighted: bool)
    ensures
        op_views(final(ops)@) == op_views(old(ops)@) + highlight_ops(row, highlighted),
{
    let ghost start = op_views(ops@);
    if highlighted {
        add_op(ops, DrawOp::Highlight { rect: row });
    }
    assert(op_views(ops@) =~= start + highlight_ops(row, highlighted));
}

/// The rows of changed files at the places of the given areas.
pub open spec fn change_rows_ops(
    areas: Seq<SourcePanelFileArea>,
    changes: Seq<ChangedFile>,
    item: Option<SourcePanelActiveItem>,
) -> Seq<OpView>
    decreases areas.len(),
{
    if areas.len() == 0 {
        seq![]
    } else {
        let before = change_rows_ops(areas.drop_last(), changes, item);
        let area = areas.last();
        if area.change_idx < changes.len() {
            let change = changes[area.change_idx as int];
            before + highlight_ops(area.rect, is_working_file(item, change.path@))
                + change_row_ops(area.rect, change@, 1)
        } else {
            before
        }
    }
}

/// The scrollbar of a list, where one is due.
pub open spec fn scrollbar_ops(track: Option<Rect>, metrics: ScrollMetrics) -> Seq<OpView> {
    match track {
        Some(track) => seq![OpView::Scrollbar { track, metrics }],
        None => seq![],
    }
}

fn add_scrollbar(ops: &mut Vec<DrawOp>, track: Option<Rect>, metrics: ScrollMetrics)
    ensures
        op_views(final(ops)@) == op_views(old(ops)@) + scrollbar_ops(track, metrics),
{
    let ghost start = op_views(ops@);
    if let Some(track) = track {
        add_op(ops, DrawOp::Scrollbar { track, metrics });
    }
    assert(op_views(ops@) =~= start + scrollbar_ops(track, metrics));
}

/// The Changes section below its header: the visible files and a scrollbar, or the
/// placeholder where there are no changes.
pub open spec fn changes_body_ops(app: AppState, section: Rect) -> Seq<OpView> {
    let metrics = changes_metrics(app, section);
    let track = scrollbar_of(section, list_body(section, true), metrics);
    let body = list_body(section, track is Some);
    if body.width == 0 || body.height == 0 {
        seq![]
    } else if app.panel_changes().len() == 0 {
        seq![
            text_op(
                rect(body.x as int, body.y as int, body.width as int, 1),
                " no changes"@,
                Ink::Overlay0,
                Emphasis::Dim,
            ),
        ]
    } else {
        change_rows_ops(
            app.view.source_panel_changes_card_areas@,
            app.panel_changes(),
            app.highlighted(),
        ) + scrollbar_ops(track, metrics)
    }
}

/// The Changes section.
pub open spec fn changes_ops(app: AppState, section: Rect) -> Seq<OpView> {
    changes_header_ops(section, app.panel_changes().len()) + changes_body_ops(app, section)
}

/// The last columns of the rows that the view holds can be expressed.
pub open spec fn view_fits(app: AppState) -> bool {
    &&& forall|i: int|
        0 <= i < app.view.source_panel_changes_card_areas@.len() ==> (
        #[trigger] app.view.source_panel_changes_card_areas@[i]).rect.has_last_column()
    &&& forall|i: int|
        0 <= i < app.view.source_panel_commit_file_card_areas@.len() ==> (
        #[trigger] app.view.source_panel_commit_file_card_areas@[i]).rect.has_last_column()
}

/// Render the Changes section.
pub fn render_source_panel_changes(app: &AppState, ops: &mut Vec<DrawOp>, section: Rect)
    requires
        section.fits(),
        view_fits(*app),
    ensures
        op_views(final(ops)@) == op_views(old(ops)@) + changes_ops(*app, section),
{
    let ghost start = op_views(ops@);
    let count: usize = source_panel_changes_count(app);
    render_changes_header(ops, section, count);
    let ghost with_header = op_views(ops@);
    let metrics = source_panel_changes_scroll_metrics(app, section);
    let track = source_panel_changes_scrollbar_rect(app, section);
    let body = source_panel_changes_body_rect(section, track.is_some());
    if body.width == 0 || body.height == 0 {
        assert(op_views(ops@) =~= start + changes_ops(*app, section));
        return;
    }
    if count == 0 {
        add_line(
            ops,
            Rect::new(body.x, body.y, body.width, 1),
            one_str(" no changes", Ink::Overlay0, Emphasis::Dim),
        );
        assert(op_views(ops@) =~~= start + changes_ops(*app, section));
        return;
    }
    let changes = match app.source_panel_workspace() {
        Some(ws) => ws.changed_files(),
        None => {
            return;
        },
    };
    let active = app.source_panel_highlighted_item();
    let areas = &app.view.source_panel_changes_card_areas;
    let ghost item = app.highlighted();
    let mut i: usize = 0;
    assert(op_views(ops@) =~= with_header + change_rows_ops(areas@.take(0), changes@, item));
    while i < areas.len()
        invariant
            i <= areas@.len(),
            areas@ == app.view.source_panel_changes_card_areas@,
            view_fits(*app),
            item == app.highlighted(),
            active is Some <==> item is Some,
            active matches Some(a) ==> item == Some(*a),
            op_views(ops@) == with_header + change_rows_ops(
                areas@.take(i as int),
                changes@,
                item,
            ),
        decreases areas@.len() - i,
    {
        let area = areas[i];
        if area.change_idx < changes.len() {
            let change = &changes[area.change_idx];
            let highlighted = match active {
                Some(SourcePanelActiveItem::WorkingFile(path)) => same_path(path, &change.path),
                _ => false,
            };
            highlight_row(ops, area.rect, highlighted);
            render_changed_file_row(ops, area.rect, change, 1);
        }
        assert(areas@.take(i + 1).drop_last() == areas@.take(i as int));
        assert(op_views(ops@) =~= with_header + change_rows_ops(
            areas@.take(i + 1),
            changes@,
            item,
        ));
        i += 1;
    }
    assert(areas@.take(i as int) == areas@);
    add_scrollbar(ops, track, metrics);
    assert(op_views(ops@) =~= start + changes_ops(*app, section));
}

/// The spans of the Graph header: the branch, and how far it is ahead of and behind
/// its upstream.
pub open spec fn graph_header_spans(
    branch: Option<Seq<char>>,
    ahead_behind: Option<(usize, usize)>,
) -> Seq<SpanView> {
    let title = seq![
        SpanView { text: " graph"@, ink: Ink::Overlay0, emphasis: Emphasis::Bold },
    ];
    let named = match branch {
        Some(branch) => title + seq![
            SpanView { text: " · "@, ink: Ink::Overlay0, emphasis: Emphasis::Plain },
            SpanView { text: branch, ink: Ink::Mauve, emphasis: Emphasis::Bold },
        ],
        None => title,
    };
    match ahead_behind {
        Some((ahead, behind)) => named + (if ahead > 0 {
            seq![
                SpanView {
                    text: " ↑"@ + digits(ahead as nat, 10),
                    ink: Ink::Green,
                    emphasis: Emphasis::Plain,
                },
            ]
        } else {
            seq![]
        }) + (if behind > 0 {
            seq![
                SpanView {
                    text: " ↓"@ + digits(behind as nat, 10),
                    ink: Ink::Red,
                    emphasis: Emphasis::Plain,
                },
            ]
        } else {
            seq![]
        }),
        None => named,
    }
}

/// The header of the Graph section.
pub open spec fn graph_header_ops(
    section: Rect,
    branch: Option<Seq<char>>,
    ahead_behind: Option<(usize, usize)>,
) -> Seq<OpView> {
    if section.width == 0 || section.height == 0 {
        seq![]
    } else {
        (if section.width > 1 {
            seq![
                OpView::Line {
                    rect: rect(section.x as int, section.y as int, section.width - 1, 1),
                    spans: graph_header_spans(branch, ahead_behind),
                },
            ]
        } else {
            seq![]
        }) + seq![text_op(top_right_cell(section), "↻"@, Ink::Overlay0, Emphasis::Plain)]
    }
}

/// The text that may be missing.
pub open spec fn text_view(text: Option<&str>) -> Option<Seq<char>> {
    match text {
        Some(t) => Some(t@),
        None => None,
    }
}

/// The Graph header: ` graph · <branch>` and the counts of commits ahead and behind.
pub fn render_graph_header(
    ops: &mut Vec<DrawOp>,
    section: Rect,
    branch: Option<&str>,
    ahead_behind: Option<(usize, usize)>,
)
    requires
        section.fits(),
    ensures
        op_views(final(ops)@) == op_views(old(ops)@) + graph_header_ops(
            section,
            text_view(branch),
            ahead_behind,
        ),
{
    let ghost start = op_views(ops@);
    if section.width == 0 || section.height == 0 {
        assert(start + Seq::<OpView>::empty() =~= start);
        return;
    }
    let mut spans = one_str(" graph", Ink::Overlay0, Emphasis::Bold);
    if let Some(branch) = branch {
        add_str(&mut spans, " · ", Ink::Overlay0, Emphasis::Plain);
        add_str(&mut spans, branch, Ink::Mauve, Emphasis::Bold);
    }
    if let Some((ahead, behind)) = ahead_behind {
        if ahead > 0 {
            let mut text = " ↑".to_string();
            text.append(decimal(ahead).as_str());
            add_text(&mut spans, text, Ink::Green, Emphasis::Plain);
        }
        if behind > 0 {
            let mut text = " ↓".to_string();
            text.append(decimal(behind).as_str());
            add_text(&mut spans, text, Ink::Red, Emphasis::Plain);
        }
    }
    assert(span_views(spans@) =~~= graph_header_spans(text_view(branch), ahead_behind));
    // The refresh glyph occupies the rightmost cell; the label fills the rest.
    let label_width: u16 = section.width - 1;
    if label_width > 0 {
        add_line(ops, Rect::new(section.x, section.y, label_width, 1), spans);
    }
    add_line(
        ops,
        Rect::new(section.x + label_width, section.y, 1, 1),
        one_str("↻", Ink::Overlay0, Emphasis::Plain),
    );
    assert(op_views(ops@) =~~= start + graph_header_ops(section, text_view(branch), ahead_behind));
}

/// The decorations of a commit, each with a blank behind it.
pub open spec fn decoration_spans(decorations: Seq<Seq<char>>) -> Seq<SpanView>
    decreases decorations.len(),
{
    if decorations.len() == 0 {
        seq![]
    } else {
        decoration_spans(decorations.drop_last()) + seq![
            SpanView { text: decorations.last(), ink: Ink::Accent, emphasis: Emphasis::Bold },
            SpanView { text: " "@, ink: Ink::Default, emphasis: Emphasis::Plain },
        ]
    }
}

/// The spans of a graph row: the graph cell, and for a commit the chevron, its
/// decorations, its subject, and its author.
pub open spec fn commit_spans(commit: CommitView, expanded: bool) -> Seq<SpanView> {
    let cell = seq![
        SpanView { text: commit.graph_cell, ink: Ink::Overlay1, emphasis: Emphasis::Plain },
    ];
    if commit.sha is None {
        cell
    } else {
        cell + seq![
            SpanView {
                text: if expanded {
                    "▾"@
                } else {
                    "▸"@
                },
                ink: Ink::Overlay0,
                emphasis: Emphasis::Plain,
            },
            SpanView { text: " "@, ink: Ink::Default, emphasis: Emphasis::Plain },
        ] + decoration_spans(commit.decorations) + seq![
            SpanView { text: commit.subject, ink: Ink::Text, emphasis: Emphasis::Plain },
        ] + (if commit.author.len() == 0 {
            seq![]
        } else {
            seq![
                SpanView { text: " · "@, ink: Ink::Overlay0, emphasis: Emphasis::Dim },
                SpanView { text: commit.author, ink: Ink::Overlay0, emphasis: Emphasis::Dim },
            ]
        })
    }
}

/// Build the styled spans for one commit-graph row. Connector-only lines render
/// just their graph cell; commit lines add a collapse/expand chevron then their
/// decorations, subject, and author.
pub fn commit_row_spans(commit: &CommitInfo, expanded: bool) -> (spans: Vec<Span>)
    ensures
        span_views(spans@) == commit_spans(commit@, expanded),
{
    let mut spans = one_str(commit.graph_cell.as_str(), Ink::Overlay1, Emphasis::Plain);
    if commit.sha.is_none() {
        return spans;
    }
    // The chevron occupies the cell right after the graph glyphs (the collapse
    // hit-target); a trailing space separates it from the subject.
    let chevron = if expanded {
        "▾"
    } else {
        "▸"
    };
    add_str(&mut spans, chevron, Ink::Overlay0, Emphasis::Plain);
    add_str(&mut spans, " ", Ink::Default, Emphasis::Plain);
    let ghost head = span_views(spans@);
    let ghost all = commit@.decorations;
    let mut i: usize = 0;
    assert(head =~= head + decoration_spans(all.take(0)));
    while i < commit.decorations.len()
        invariant
            i <= commit.decorations@.len(),
            all == commit@.decorations,
            span_views(spans@) == head + decoration_spans(all.take(i as int)),
        decreases commit.decorations@.len() - i,
    {
        add_str(&mut spans, commit.decorations[i].as_str(), Ink::Accent, Emphasis::Bold);
        add_str(&mut spans, " ", Ink::Default, Emphasis::Plain);
        assert(all.take(i + 1).drop_last() == all.take(i as int));
        assert(all.take(i + 1).last() == commit.decorations@[i as int]@);
        assert(span_views(spans@) =~= head + decoration_spans(all.take(i + 1)));
        i += 1;
    }
    assert(all.take(i as int) == all);
    add_str(&mut spans, commit.subject.as_str(), Ink::Text, Emphasis::Plain);
    let has_author = to_chars(commit.author.as_str()).len() > 0;
    if has_author {
        add_str(&mut spans, " · ", Ink::Overlay0, Emphasis::Dim);
        add_str(&mut spans, commit.author.as_str(), Ink::Overlay0, Emphasis::Dim);
    }
    assert(span_views(spans@) =~~= commit_spans(commit@, expanded));
    spans
}

/// The commit is expanded.
pub open spec fn is_expanded(app: AppState, commit: CommitInfo) -> bool {
    commit.sha matches Some(sha) && app.source_panel_expanded_commits@.contains(sha@)
}

/// One row of the graph.
pub open spec fn commit_row_ops(app: AppState, row: Rect, commit: CommitInfo) -> Seq<OpView> {
    if row.width == 0 {
        seq![]
    } else {
        highlight_ops(
            row,
            commit.sha matches Some(sha) && is_commit_item(app.highlighted(), sha@),
        ) + seq![
            OpView::Line {
                rect: cut_rect(row.x as int, row.y as int, row.width as int, 1),
                spans: commit_spans(commit@, is_expanded(app, commit)),
            },
        ]
    }
}

/// The rows of the graph at the places of the given areas.
pub open spec fn commit_rows_ops(
    app: AppState,
    areas: Seq<SourcePanelCommitArea>,
    commits: Seq<CommitInfo>,
) -> Seq<OpView>
    decreases areas.len(),
{
    if areas.len() == 0 {
        seq![]
    } else {
        let before = commit_rows_ops(app, areas.drop_last(), commits);
        let area = areas.last();
        if area.log_idx < commits.len() {
            before + commit_row_ops(app, area.rect, commits[area.log_idx as int])
        } else {
            before
        }
    }
}

/// The columns that a file beneath a commit is indented by: as many as the graph
/// cell, the chevron, and a blank take.
pub open spec fn file_indent(cell: Seq<char>) -> nat {
    lesser(cell.len() as int + 2, usize::MAX as int) as nat
}

/// The row of a file beneath a commit, at the place of the given area.
pub open spec fn commit_file_row_ops(
    app: AppState,
    area: SourcePanelCommitFileArea,
    commit: CommitInfo,
) -> Seq<OpView> {
    match commit.sha {
        Some(sha) => if app.source_panel_commit_files@.contains_key(sha@) && area.file_idx
            < app.source_panel_commit_files@[sha@]@.len() {
            let change = app.source_panel_commit_files@[sha@]@[area.file_idx as int];
            highlight_ops(
                area.rect,
                is_commit_file_item(app.highlighted(), sha@, change.path@),
            ) + change_row_ops(area.rect, change@, file_indent(commit.graph_cell@))
        } else {
            seq![]
        },
        None => seq![],
    }
}

/// The rows of files beneath commits at the places of the given areas.
pub open spec fn commit_file_rows_ops(
    app: AppState,
    areas: Seq<SourcePanelCommitFileArea>,
    commits: Seq<CommitInfo>,
) -> Seq<OpView>
    decreases areas.len(),
{
    if areas.len() == 0 {
        seq![]
    } else {
        let before = commit_file_rows_ops(app, areas.drop_last(), commits);
        let area = areas.last();
        if area.log_idx < commits.len() {
            before + commit_file_row_ops(app, area, commits[area.log_idx as int])
        } else {
            before
        }
    }
}

/// The "load more" row where it is visible.
pub open spec fn load_more_ops(r: Rect) -> Seq<OpView> {
    if r.width > 0 && r.height > 0 {
        seq![text_op(r, " load more"@, Ink::Accent, Emphasis::Dim)]
    } else {
        seq![]
    }
}

/// The Graph section below its header: the visible commits, the files beneath them,
/// the "load more" row, and a scrollbar, or the placeholder where there are no
/// commits.
pub open spec fn graph_body_ops(app: AppState, section: Rect) -> Seq<OpView> {
    let metrics = log_metrics(app, section);
    let track = scrollbar_of(section, list_body(section, true), metrics);
    let body = list_body(section, track is Some);
    let commits = app.panel_commits();
    if body.width == 0 || body.height == 0 {
        seq![]
    } else if commits.len() == 0 {
        seq![
            text_op(
                rect(body.x as int, body.y as int, body.width as int, 1),
                " no commits"@,
                Ink::Overlay0,
                Emphasis::Dim,
            ),
        ]
    } else {
        commit_rows_ops(app, app.view.source_panel_log_card_areas@, commits)
            + commit_file_rows_ops(app, app.view.source_panel_commit_file_card_areas@, commits)
            + load_more_ops(app.view.source_panel_load_more_rect) + scrollbar_ops(track, metrics)
    }
}

/// The branch that the panel shows.
pub open spec fn panel_branch(app: AppState) -> Option<Seq<char>> {
    if app.has_panel_workspace() {
        match app.panel_workspace().cached_git_branch {
            Some(branch) => Some(branch@),
            None => None,
        }
    } else {
        None
    }
}

/// The counts of commits ahead and behind that the panel shows.
pub open spec fn panel_ahead_behind(app: AppState) -> Option<(usize, usize)> {
    if app.has_panel_workspace() {
        app.panel_workspace().cached_git_ahead_behind
    } else {
        None
    }
}

/// The Graph section.
pub open spec fn graph_ops(app: AppState, section: Rect) -> Seq<OpView> {
    graph_header_ops(section, panel_branch(app), panel_ahead_behind(app)) + graph_body_ops(
        app,
        section,
    )
}

/// Render the commit rows of the graph.
fn render_commit_rows(app: &AppState, ops: &mut Vec<DrawOp>, commits: &Vec<CommitInfo>)
    ensures
        op_views(final(ops)@) == op_views(old(ops)@) + commit_rows_ops(
            *app,
            app.view.source_panel_log_card_areas@,
            commits@,
        ),
{
    let ghost start = op_views(ops@);
    let active = app.source_panel_highlighted_item();
    let areas = &app.view.source_panel_log_card_areas;
    let ghost item = app.highlighted();
    let mut i: usize = 0;
    assert(op_views(ops@) =~= start + commit_rows_ops(*app, areas@.take(0), commits@));
    while i < areas.len()
        invariant
            i <= areas@.len(),
            areas@ == app.view.source_panel_log_card_areas@,
            item == app.highlighted(),
            active is Some <==> item is Some,
            active matches Some(a) ==> item == Some(*a),
            op_views(ops@) == start + commit_rows_ops(*app, areas@.take(i as int), commits@),
        decreases areas@.len() - i,
    {
        let area = areas[i];
        let ghost before = op_views(ops@);
        assert(areas@.take(i + 1).drop_last() == areas@.take(i as int));
        if area.log_idx < commits.len() && area.rect.width > 0 {
            let commit = &commits[area.log_idx];
            let row = area.rect;
            let expanded = match &commit.sha {
                Some(sha) => app.source_panel_expanded_commits.contains(sha.as_str()),
                None => false,
            };
            let highlighted = match (active, &commit.sha) {
                (Some(SourcePanelActiveItem::Commit(active_sha)), Some(sha)) => *active_sha == *sha,
                _ => false,
            };
            highlight_row(ops, row, highlighted);
            add_line(
                ops,
                Rect::new(row.x, row.y, row.width, 1),
                commit_row_spans(commit, expanded),
            );
            assert(op_views(ops@) =~~= before + commit_row_ops(*app, row, *commit));
        }
        assert(op_views(ops@) =~= start + commit_rows_ops(*app, areas@.take(i + 1), commits@));
        i += 1;
    }
    assert(areas@.take(i as int) == areas@);
}

/// Render the file rows inline beneath expanded commits.
fn render_commit_file_rows(app: &AppState, ops: &mut Vec<DrawOp>, commits: &Vec<CommitInfo>)
    requires
        view_fits(*app),
    ensures
        op_views(final(ops)@) == op_views(old(ops)@) + commit_file_rows_ops(
            *app,
            app.view.source_panel_commit_file_card_areas@,
            commits@,
        ),
{
    let ghost start = op_views(ops@);
    let active = app.source_panel_highlighted_item();
    let areas = &app.view.source_panel_commit_file_card_areas;
    let ghost item = app.highlighted();
    let mut i: usize = 0;
    assert(op_views(ops@) =~= start + commit_file_rows_ops(*app, areas@.take(0), commits@));
    while i < areas.len()
        invariant
            i <= areas@.len(),
            areas@ == app.view.source_panel_commit_file_card_areas@,
            view_fits(*app),
            item == app.highlighted(),
            active is Some <==> item is Some,
            active matches Some(a) ==> item == Some(*a),
            op_views(ops@) == start + commit_file_rows_ops(*app, areas@.take(i as int), commits@),
        decreases areas@.len() - i,
    {
        let area = areas[i];
        let ghost before = op_views(ops@);
        assert(areas@.take(i + 1).drop_last() == areas@.take(i as int));
        if area.log_idx < commits.len() {
            let commit = &commits[area.log_idx];
            if let Some(sha) = &commit.sha {
                if let Some(files) = app.source_panel_commit_files.get(sha.as_str()) {
                    if area.file_idx < files.len() {
                        let change = &files[area.file_idx];
                        let highlighted = match active {
                            Some(
                                SourcePanelActiveItem::CommitFile { sha: active_sha, path },
                            ) => *active_sha == *sha && same_path(path, &change.path),
                            _ => false,
                        };
                        highlight_row(ops, area.rect, highlighted);
                        // Indent to line up beneath the commit subject, which starts
                        // after the graph glyphs, the chevron, and a separating space.
                        let cell: usize = to_chars(commit.graph_cell.as_str()).len();
                        let indent: usize = if cell > usize::MAX - 2 {
                            usize::MAX
                        } else {
                            cell + 2
                        };
                        render_changed_file_row(ops, area.rect, change, indent);
                    }
                }
            }
            assert(op_views(ops@) =~= before + commit_file_row_ops(*app, area, *commit));
        }
        assert(op_views(ops@) =~= start + commit_file_rows_ops(
            *app,
            areas@.take(i + 1),
            commits@,
        ));
        i += 1;
    }
    assert(areas@.take(i as int) == areas@);
}

/// Render the Graph section.
#[verifier::rlimit(40)]
pub fn render_source_panel_graph(app: &AppState, ops: &mut Vec<DrawOp>, section: Rect)
    requires
        section.fits(),
        view_fits(*app),
    ensures
        op_views(final(ops)@) == op_views(old(ops)@) + graph_ops(*app, section),
{
    let ghost start = op_views(ops@);
    let ws = app.source_panel_workspace();
    let branch = match ws {
        Some(ws) => ws.branch(),
        None => None,
    };
    let ahead_behind = match ws {
        Some(ws) => ws.git_ahead_behind(),
        None => None,
    };
    let branch_text = match &branch {
        Some(branch) => Some(branch.as_str()),
        None => None,
    };
    assert(text_view(branch_text) == panel_branch(*app));
    render_graph_header(ops, section, branch_text, ahead_behind);
    let metrics = source_panel_log_scroll_metrics(app, section);
    let track = source_panel_log_scrollbar_rect(app, section);
    let body = source_panel_graph_body_rect(section, track.is_some());
    if body.width == 0 || body.height == 0 {
        assert(op_views(ops@) =~= start + graph_ops(*app, section));
        return;
    }
    let none: Vec<CommitInfo> = Vec::new();
    let commits = match ws {
        Some(ws) => ws.commits(),
        None => &none,
    };
    assert(commits@ =~= app.panel_commits());
    if commits.len() == 0 {
        add_line(
            ops,
            Rect::new(body.x, body.y, body.width, 1),
            one_str(" no commits", Ink::Overlay0, Emphasis::Dim),
        );
        assert(op_views(ops@) =~~= start + graph_ops(*app, section));
        return;
    }
    render_commit_rows(app, ops, commits);
    render_commit_file_rows(app, ops, commits);
    let load_more = app.view.source_panel_load_more_rect;
    let ghost before = op_views(ops@);
    if load_more.width > 0 && load_more.height > 0 {
        add_line(ops, load_more, one_str(" load more", Ink::Accent, Emphasis::Dim));
    }
    assert(op_views(ops@) =~~= before + load_more_ops(load_more));
    add_scrollbar(ops, track, metrics);
    assert(op_views(ops@) =~= start + graph_ops(*app, section));
}

/// The name in the Explorer's header: that of the directory the tree is rooted at,
/// or the workspace's own where that is not known.
pub open spec fn explorer_name(app: AppState, display_name: Seq<char>) -> Seq<char> {
    if !app.has_panel_workspace() {
        seq![]
    } else {
        match app.panel_workspace().explorer_root {
            Some(root) => match file_name_of(root@) {
                Some(name) => if valid_utf8(name) {
                    decode_utf8(name)
                } else {
                    display_name
                },
                None => display_name,
            },
            None => display_name,
        }
    }
}

/// The Explorer's header: the name on the left, and the two glyphs on the right.
pub open spec fn explorer_header_ops(area: Rect, name: Seq<char>) -> Seq<OpView> {
    let header = explorer_header_of(area);
    (if header.width > 3 {
        seq![
            text_op(
                rect(header.x as int, header.y as int, header.width - 3, 1),
                " "@ + name,
                Ink::Overlay0,
                Emphasis::Bold,
            ),
        ]
    } else {
        seq![]
    }) + (if collapse_all_of(area) == no_rect() {
        seq![]
    } else {
        seq![text_op(collapse_all_of(area), "⊟"@, Ink::Overlay0, Emphasis::Plain)]
    }) + seq![text_op(top_right_cell(header), "↻"@, Ink::Overlay0, Emphasis::Plain)]
}

/// The row is the selected one.
pub open spec fn is_selected(app: AppState, path: Seq<u8>) -> bool {
    app.has_panel_workspace() && (app.panel_workspace().explorer_selected matches Some(selected)
        && path_key(selected@) == path_key(path))
}

/// The decoration of a path in the tree that the panel shows.
pub open spec fn panel_decoration(app: AppState, path: Seq<u8>) -> Option<DecorationView> {
    if app.has_panel_workspace() {
        app.panel_workspace().tree_decoration(path_key(path))
    } else {
        None
    }
}

/// One visible row of the tree.
pub open spec fn tree_row_ops(app: AppState, row: (RowView, Rect)) -> Seq<OpView> {
    match row.0 {
        RowView::Node(node) => highlight_ops(row.1, is_selected(app, node.path)) + node_row_ops(
            row.1,
            node,
            panel_decoration(app, node.path),
        ),
        RowView::Empty { depth } => empty_row_ops(row.1, depth),
    }
}

/// The visible rows of the tree.
pub open spec fn tree_rows_ops(app: AppState, rows: Seq<(RowView, Rect)>) -> Seq<OpView>
    decreases rows.len(),
{
    if rows.len() == 0 {
        seq![]
    } else {
        tree_rows_ops(app, rows.drop_last()) + tree_row_ops(app, rows.last())
    }
}

/// The Explorer.
pub open spec fn explorer_ops(app: AppState, area: Rect, display_name: Seq<char>) -> Seq<OpView> {
    if explorer_header_of(area) == no_rect() {
        seq![]
    } else {
        let section = explorer_tree_of(area);
        explorer_header_ops(area, explorer_name(app, display_name)) + tree_rows_ops(
            app,
            visible_tree_rows(app, area),
        ) + scrollbar_ops(tree_scrollbar(app, section), tree_metrics(app, section))
    }
}

/// The name in the Explorer's header.
fn explorer_name_of(app: &AppState, display_name: &str) -> (name: String)
    ensures
        name@ == explorer_name(*app, display_name@),
{
    let ws = match app.source_panel_workspace() {
        Some(ws) => ws,
        None => {
            let none = String::new();
            assert(none@ =~= Seq::<char>::empty());
            return none;
        },
    };
    if let Some(root) = &ws.explorer_root {
        if let Some(name) = root.file_name() {
            if let Some(text) = name.to_str() {
                return text;
            }
        }
    }
    display_name.to_string()
}

/// Render the Explorer's header.
fn render_explorer_header(ops: &mut Vec<DrawOp>, area: Rect, name: &str)
    requires
        area.fits(),
        explorer_header_of(area) != no_rect(),
    ensures
        op_views(final(ops)@) == op_views(old(ops)@) + explorer_header_ops(area, name@),
{
    let ghost start = op_views(ops@);
    let header = source_panel_explorer_header_rect(area);
    // The three rightmost header cells carry the collapse-all control, a blank
    // separator, and the refresh control; the directory name fills the rest.
    if header.width > 3 {
        let mut label = " ".to_string();
        label.append(name);
        let mut spans = no_spans();
        add_text(&mut spans, label, Ink::Overlay0, Emphasis::Bold);
        add_line(ops, Rect::new(header.x, header.y, header.width - 3, 1), spans);
    }
    let collapse_all = source_panel_explorer_collapse_all_rect(area);
    if collapse_all != Rect::none() {
        add_line(ops, collapse_all, one_str("⊟", Ink::Overlay0, Emphasis::Plain));
    }
    let refresh = source_panel_explorer_refresh_rect(area);
    if refresh != Rect::none() {
        add_line(ops, refresh, one_str("↻", Ink::Overlay0, Emphasis::Plain));
    }
    assert(op_views(ops@) =~~= start + explorer_header_ops(area, name@));
}

/// Explorer mode body: a header line showing the workspace name / cwd basename,
/// then the lazily-loaded directory tree: folders carry an expand/collapse
/// chevron, files a neutral marker, the selected row is highlighted, long names
/// truncate with an ellipsis, and the tree shows a scrollbar when it overflows.
///
/// The header is labelled from the directory the tree is actually rooted at, so it
/// can never disagree with the tree below it. `display_name` is only a fallback for
/// the brief window before the tree is rooted.
pub fn render_source_panel_explorer(
    app: &AppState,
    ops: &mut Vec<DrawOp>,
    area: Rect,
    display_name: &str,
)
    requires
        app.wf(),
        area.fits(),
    ensures
        op_views(final(ops)@) == op_views(old(ops)@) + explorer_ops(*app, area, display_name@),
{
    let ghost start = op_views(ops@);
    let header = source_panel_explorer_header_rect(area);
    if header == Rect::none() {
        assert(start + Seq::<OpView>::empty() =~= start);
        return;
    }
    let name = explorer_name_of(app, display_name);
    render_explorer_header(ops, area, name.as_str());
    let ghost with_header = op_views(ops@);
    let ws = app.source_panel_workspace();
    // Roll the workspace's git status up onto the tree so changed files are
    // colored and folders containing changes show a dot.
    let decorations = match ws {
        Some(ws) => ws.explorer_decorations(),
        None => PathMap::new(),
    };
    let rows = source_panel_explorer_visible_rows(app, area);
    let ghost all = placed_rows(rows@);
    let mut i: usize = 0;
    assert(op_views(ops@) =~= with_header + tree_rows_ops(*app, all.take(0)));
    while i < rows.len()
        invariant
            i <= rows@.len(),
            all == placed_rows(rows@),
            ws is Some <==> app.has_panel_workspace(),
            ws matches Some(w) ==> *w == app.panel_workspace(),
            forall|k: PathKey| #[trigger]
                decorated(decorations@, k) == if app.has_panel_workspace() {
                    app.panel_workspace().tree_decoration(k)
                } else {
                    None
                },
            op_views(ops@) == with_header + tree_rows_ops(*app, all.take(i as int)),
        decreases rows@.len() - i,
    {
        let ghost before = op_views(ops@);
        let rect = rows[i].1;
        assert(all[i as int] == (rows@[i as int].0@, rect));
        match &rows[i].0 {
            FileTreeRow::Node(node) => {
                let highlighted = match ws {
                    Some(ws) => match ws.explorer_selected() {
                        Some(selected) => same_path(selected, &node.path),
                        None => false,
                    },
                    None => false,
                };
                highlight_row(ops, rect, highlighted);
                let decoration = decorations.get(&node.path);
                assert(decoration_view(decoration) == decorated(
                    decorations@,
                    path_key(node.path@),
                ));
                render_explorer_node_row(ops, rect, node, decoration);
            },
            FileTreeRow::Empty { depth } => {
                render_explorer_empty_row(ops, rect, *depth);
            },
        }
        assert(op_views(ops@) =~= before + tree_row_ops(*app, all[i as int]));
        assert(all.take(i + 1).drop_last() == all.take(i as int));
        assert(op_views(ops@) =~= with_header + tree_rows_ops(*app, all.take(i + 1)));
        i += 1;
    }
    assert(all.take(i as int) == all);
    let section = source_panel_explorer_tree_rect(area);
    let track = source_panel_explorer_scrollbar_rect(app, section);
    let metrics = source_panel_explorer_scroll_metrics(app, section);
    add_scrollbar(ops, track, metrics);
    assert(op_views(ops@) =~= start + explorer_ops(*app, area, display_name@));
}

/// The panel's current workspace is a repository, or there is none.
pub open spec fn shows_git(app: AppState) -> bool {
    app.has_panel_workspace() ==> app.panel_workspace().cached_is_git_repo
}

/// The expanded panel.
pub open spec fn panel_ops(app: AppState, area: Rect, display_name: Seq<char>) -> Seq<OpView> {
    let split = app.source_panel_split_rows as int;
    let body = if !shows_git(app) {
        non_git_ops(area)
    } else {
        mode_header_ops(mode_tabs_of(area), app.panel_mode()) + match app.panel_mode() {
            SourcePanelMode::Source => changes_ops(app, changes_section(area, split)) + divider_ops(
                area,
                split,
            ) + graph_ops(app, graph_section(area, split)),
            SourcePanelMode::Explorer => explorer_ops(app, area, display_name),
        }
    };
    seq![separator_op(area)] + body + toggle_ops(area, false)
}

/// Expanded source control panel: left separator, the changes and graph
/// sections (or a non-git empty state), and the collapse toggle.
#[verifier::rlimit(40)]
pub fn render_source_panel(app: &AppState, area: Rect, display_name: &str) -> (ops: Vec<DrawOp>)
    requires
        app.wf(),
        area.fits(),
        view_fits(*app),
    ensures
        op_views(ops@) == panel_ops(*app, area, display_name@),
{
    let mut ops: Vec<DrawOp> = Vec::new();
    assert(op_views(ops@) =~= Seq::<OpView>::empty());
    render_left_separator(&mut ops, area);
    if source_panel_is_git_repo(app) {
        render_source_panel_mode_header(app, &mut ops, area);
        match app.source_panel_mode() {
            SourcePanelMode::Source => {
                let (changes_area, graph_area) = expanded_source_panel_sections(
                    area,
                    app.source_panel_split_rows,
                );
                render_source_panel_changes(app, &mut ops, changes_area);
                render_source_panel_section_divider(&mut ops, area, app.source_panel_split_rows);
                render_source_panel_graph(app, &mut ops, graph_area);
            },
            SourcePanelMode::Explorer => {
                render_source_panel_explorer(app, &mut ops, area, display_name);
            },
        }
    } else {
        render_source_panel_non_git(&mut ops, area);
    }
    render_source_panel_toggle(&mut ops, area, false);
    assert(op_views(ops@) =~= panel_ops(*app, area, display_name@));
    ops
}

/// The label of the badge with the number of changed files.
pub open spec fn badge_label(count: nat) -> Seq<char> {
    if count > 99 {
        "99+"@
    } else {
        digits(count, 10)
    }
}

/// The badge with the number of changed files, in the middle of the strip's first
/// row.
pub open spec fn badge_ops(app: AppState, area: Rect) -> Seq<OpView> {
    let count = app.panel_changes().len();
    let content = content_of(area);
    if !shows_git(app) || count == 0 || content.width == 0 || content.height == 0 {
        seq![]
    } else {
        let width = lesser(badge_label(count).len() as int, content.width as int);
        seq![
            text_op(
                rect(content.x + (content.width - width) / 2, content.y as int, width, 1),
                badge_label(count),
                Ink::Accent,
                Emphasis::Bold,
            ),
        ]
    }
}

/// A number up to 99 has one or two digits.
proof fn lemma_short_number(n: nat)
    requires
        n <= 99,
    ensures
        1 <= digits(n, 10).len() <= 2,
{
    reveal_with_fuel(digits, 3);
}

/// A compact changed-file count near the top of the collapsed strip. Hidden
/// when the active workspace has no changes or is not a git repository.
pub fn render_collapsed_change_badge(app: &AppState, ops: &mut Vec<DrawOp>, area: Rect)
    requires
        area.fits(),
    ensures
        op_views(final(ops)@) == op_views(old(ops)@) + badge_ops(*app, area),
{
    let ghost start = op_views(ops@);
    assert(start + Seq::<OpView>::empty() =~= start);
    if !source_panel_is_git_repo(app) {
        return;
    }
    let count: usize = source_panel_changes_count(app);
    if count == 0 {
        return;
    }
    let content = source_panel_content(area);
    if content.width == 0 || content.height == 0 {
        return;
    }
    let label = if count > 99 {
        "99+".to_string()
    } else {
        decimal(count)
    };
    proof {
        reveal_strlit("99+");
        if count <= 99 {
            lemma_short_number(count as nat);
        }
    }
    let length: u16 = to_chars(label.as_str()).len() as u16;
    let label_width: u16 = if length < content.width {
        length
    } else {
        content.width
    };
    let x: u16 = content.x + (content.width - label_width) / 2;
    let mut spans = no_spans();
    add_text(&mut spans, label, Ink::Accent, Emphasis::Bold);
    add_line(ops, Rect::new(x, content.y, label_width, 1), spans);
    assert(op_views(ops@) =~~= start + badge_ops(*app, area));
}

/// The collapsed strip.
pub open spec fn collapsed_ops(app: AppState, area: Rect) -> Seq<OpView> {
    seq![separator_op(area)] + badge_ops(app, area) + toggle_ops(area, true)
}

/// Collapsed strip: the separator, a changed-file count badge, and the expand
/// toggle.
pub fn render_source_panel_collapsed(app: &AppState, area: Rect) -> (ops: Vec<DrawOp>)
    requires
        area.fits(),
    ensures
        op_views(ops@) == collapsed_ops(*app, area),
{
    let mut ops: Vec<DrawOp> = Vec::new();
    assert(op_views(ops@) =~= Seq::<OpView>::empty());
    render_left_separator(&mut ops, area);
    render_collapsed_change_badge(app, &mut ops, area);
    render_source_panel_toggle(&mut ops, area, true);
    assert(op_views(ops@) =~= collapsed_ops(*app, area));
    ops
}

/// What a line reads, its spans put together.
pub open spec fn line_text(spans: Seq<SpanView>) -> Seq<char>
    decreases spans.len(),
{
    if spans.len() == 0 {
        seq![]
    } else {
        line_text(spans.drop_last()) + spans.last().text
    }
}

proof fn lemma_line_push(spans: Seq<SpanView>, span: SpanView)
    ensures
        line_text(spans.push(span)) == line_text(spans) + span.text,
{
    assert(spans.push(span).drop_last() =~= spans);
}

proof fn lemma_line_of_both(a: Seq<SpanView>, b: Seq<SpanView>)
    ensures
        line_text(a + b) == line_text(a) + line_text(b),
    decreases b.len(),
{
    if b.len() == 0 {
        assert(a + b =~= a);
        assert(line_text(a) + line_text(b) =~= line_text(a));
    } else {
        lemma_line_of_both(a, b.drop_last());
        assert((a + b).drop_last() =~= a + b.drop_last());
        assert((a + b).last() == b.last());
        assert(line_text(a + b) =~= line_text(a) + line_text(b));
    }
}

/// A row of the tree reads: two blanks for each level, the marker of the entry, a blank,
/// and its name. A folder that holds changes has a dot behind its name. The name is whole
/// where the row has room for it, and otherwise cut so that the row is filled.
pub proof fn law_tree_row_reads(width: nat, node: NodeView, decoration: Option<DecorationView>)
    requires
        2 * node.depth <= usize::MAX,
    ensures
        ({
            let text = line_text(node_spans(width, node, decoration));
            let lead = (2 * node.depth) as int;
            let dotted = decoration == Some(DecorationView::ContainsChanges);
            let tail = if dotted {
                2int
            } else {
                0
            };
            let name = text.subrange(lead + 2, text.len() - tail);
            let room = width - lead - 2 - tail;
            &&& text.len() >= lead + 2 + tail
            &&& forall|i: int| 0 <= i < lead ==> #[trigger] text[i] == ' '
            &&& text[lead] == match node.kind {
                FileEntryKind::Directory => if node.expanded {
                    '\u{25be}'
                } else {
                    '\u{25b8}'
                },
                FileEntryKind::Symlink => '\u{21a9}',
                FileEntryKind::File => '\u{b7}',
            }
            &&& text[lead + 1] == ' '
            &&& dotted ==> text[text.len() - 2] == ' ' && text.last() == '\u{2022}'
            &&& node.name.len() <= room ==> name == node.name
            &&& 0 < room < node.name.len() ==> text.len() == width && name.last() == '\u{2026}'
                && name.drop_last().is_prefix_of(node.name)
            &&& room <= 0 && node.name.len() > 0 ==> name.len() == 0
        }),
{
    reveal_strlit("\u{25be}");
    reveal_strlit("\u{25b8}");
    reveal_strlit("\u{21a9}");
    reveal_strlit("\u{b7}");
    reveal_strlit(" \u{2022}");
    reveal_strlit(" ");
    let spans = node_spans(width, node, decoration);
    let indent = tree_indent(node.depth);
    let name_width = less(width as int, indent + 2 + dot_columns(decoration)) as nat;
    let shown = clipped(node.name, name_width);
    let inks = node_inks(node, decoration);
    let first = SpanView { text: blanks(indent), ink: Ink::Default, emphasis: Emphasis::Plain };
    let second = SpanView { text: node_marker(node), ink: inks.0, emphasis: Emphasis::Plain };
    let third = SpanView { text: " "@, ink: Ink::Default, emphasis: Emphasis::Plain };
    let fourth = SpanView { text: shown, ink: inks.1, emphasis: Emphasis::Plain };
    let none: Seq<SpanView> = seq![];
    lemma_line_push(none, first);
    lemma_line_push(none.push(first), second);
    lemma_line_push(none.push(first).push(second), third);
    lemma_line_push(none.push(first).push(second).push(third), fourth);
    let most = none.push(first).push(second).push(third).push(fourth);
    let start = blanks(indent) + node_marker(node) + " "@;
    assert(line_text(most) =~= start + shown);
    assert(node_marker(node).len() == 1);
    crate::file_tree::law_clipped_name(node.name, name_width);
    let text = line_text(spans);
    if decoration == Some(DecorationView::ContainsChanges) {
        let dot = SpanView { text: " \u{2022}"@, ink: Ink::Yellow, emphasis: Emphasis::Plain };
        lemma_line_push(most, dot);
        assert(spans =~= most.push(dot));
        assert(text =~= start + shown + " \u{2022}"@);
        assert(text.subrange((2 * node.depth) as int + 2, text.len() - 2) =~= shown);
    } else {
        assert(spans =~= most);
        assert(text =~= start + shown);
        assert(text.subrange((2 * node.depth) as int + 2, text.len() as int) =~= shown);
    }
}

/// Each status has a letter of its own, and what is new, gone, or in conflict can be told
/// apart by its color too.
pub proof fn law_status_letters(a: StatusView, b: StatusView)
    ensures
        status_glyph(StatusView::Modified).0 == seq!['M'],
        status_glyph(StatusView::Added).0 == seq!['A'],
        status_glyph(StatusView::Deleted).0 == seq!['D'],
        a is Renamed ==> status_glyph(a).0 == seq!['R'],
        status_glyph(StatusView::Unmerged).0 == seq!['U'],
        status_glyph(StatusView::Untracked).0 == seq!['?'],
        status_glyph(a).0 == status_glyph(b).0 ==> status_glyph(a).1 == status_glyph(b).1,
        status_glyph(a).1 == Ink::Red <==> a is Modified || a is Deleted,
        status_glyph(a).1 == Ink::Green <==> a is Added,
        status_glyph(a).1 == Ink::Yellow <==> a is Renamed,
        status_glyph(a).1 == Ink::Peach <==> a is Unmerged,
        status_glyph(a).1 == Ink::Overlay0 <==> a is Untracked,
{
    reveal_strlit("M");
    reveal_strlit("A");
    reveal_strlit("D");
    reveal_strlit("R");
    reveal_strlit("U");
    reveal_strlit("?");
    assert("M"@ =~= seq!['M']);
    assert("A"@ =~= seq!['A']);
    assert("D"@ =~= seq!['D']);
    assert("R"@ =~= seq!['R']);
    assert("U"@ =~= seq!['U']);
    assert("?"@ =~= seq!['?']);
    assert(seq!['M'][0] == 'M' && seq!['A'][0] == 'A' && seq!['D'][0] == 'D' && seq!['R'][0] == 'R'
        && seq!['U'][0] == 'U' && seq!['?'][0] == '?');
}

/// The marker and the name of a changed entry have the color of its status; those of other
/// entries depend on whether it is a directory alone.
pub proof fn law_tree_row_colors(node: NodeView, status: StatusView, other: NodeView)
    ensures
        node_inks(node, Some(DecorationView::Changed(status))) == (
            status_glyph(status).1,
            status_glyph(status).1,
        ),
        node_inks(node, Some(DecorationView::ContainsChanges)) == node_inks(node, None),
        (node.kind == FileEntryKind::Directory) == (other.kind == FileEntryKind::Directory)
            ==> node_inks(node, None) == node_inks(other, None),
        node.kind == FileEntryKind::Directory ==> node_inks(node, None) == (
            Ink::Overlay0,
            Ink::Text,
        ),
        node.kind != FileEntryKind::Directory ==> node_inks(node, None) == (
            Ink::Overlay1,
            Ink::Subtext0,
        ),
{
}

/// A row of a changed file reads: the indentation, the name of the file, and behind a blank
/// its directory, where it is in one.
pub proof fn law_change_row_reads(change: ChangeView, indent: nat)
    ensures
        ({
            let text = line_text(change_spans(change, indent));
            let name = shown_path(change.path).0;
            let dir = shown_path(change.path).1;
            text == blanks(indent) + name + if dir.len() == 0 {
                seq![]
            } else {
                seq![' '] + dir
            }
        }),
        change_spans(change, indent).len() == 2 || change_spans(change, indent).len() == 4,
{
    reveal_strlit(" ");
    let shown = shown_path(change.path);
    let first = SpanView { text: blanks(indent), ink: Ink::Default, emphasis: Emphasis::Plain };
    let second = SpanView { text: shown.0, ink: Ink::Subtext0, emphasis: Emphasis::Plain };
    let none: Seq<SpanView> = seq![];
    lemma_line_push(none, first);
    lemma_line_push(none.push(first), second);
    let start = none.push(first).push(second);
    if shown.1.len() == 0 {
        assert(change_spans(change, indent) =~= start);
        assert(line_text(start) =~= blanks(indent) + shown.0 + Seq::<char>::empty());
    } else {
        let third = SpanView { text: " "@, ink: Ink::Default, emphasis: Emphasis::Plain };
        let fourth = SpanView { text: shown.1, ink: Ink::Overlay0, emphasis: Emphasis::Dim };
        lemma_line_push(start, third);
        lemma_line_push(start.push(third), fourth);
        assert(change_spans(change, indent) =~= start.push(third).push(fourth));
        assert(line_text(start.push(third).push(fourth)) =~= blanks(indent) + shown.0 + (seq![' ']
            + shown.1));
    }
}

/// The name of a file in a directory and the directory are shown apart.
pub proof fn law_shown_path(base: Seq<u8>, name: Seq<u8>)
    requires
        crate::path::is_entry_name(name),
        name != seq![crate::path::DOT, crate::path::DOT],
    ensures
        shown_path(crate::path::joined(base, name)).0 == lossy_text(name),
        parent_path(crate::path::joined(base, name)) matches Some(parent) && path_key(parent)
            == path_key(base) && shown_path(crate::path::joined(base, name)).1 == lossy_text(parent),
{
    let path = crate::path::joined(base, name);
    crate::path::lemma_joined_entry(base, name);
    crate::path::lemma_parent_key(path);
    assert(path_key(path).parts.drop_last() =~= path_key(base).parts);
}

/// The path of a changed file stands in all but the last two columns of its row, and the
/// letter of its status in the last one.
pub proof fn law_change_row_cells(row: Rect, change: ChangeView, indent: nat, col: int, y: int)
    requires
        row.fits(),
        row.width > 0,
        row.height == 1,
    ensures
        ({
            let ops = change_row_ops(row, change, indent);
            &&& ops.len() == if row.width > 2 {
                2nat
            } else {
                1
            }
            &&& ops.last() matches OpView::Line { rect: r, spans } && spans.len() == 1
                && spans[0].text == status_glyph(change.status).0 && spans[0].ink == status_glyph(
                change.status,
            ).1 && (r.has_cell(col, y) <==> row.has_cell(col, y) && col == row.x + row.width - 1)
            &&& row.width > 2 ==> (ops[0] matches OpView::Line { rect: r, spans } && spans
                == change_spans(change, indent) && (r.has_cell(col, y) <==> row.has_cell(col, y)
                && col < row.x + row.width - 2))
        }),
{
}

/// A row of the graph reads: its strokes, and for a commit the chevron, a blank, each of
/// its refs with a blank behind it, its subject, and its author where it has one.
pub proof fn law_commit_row_reads(commit: CommitView, expanded: bool)
    ensures
        commit.sha is None ==> line_text(commit_spans(commit, expanded)) == commit.graph_cell,
        commit.sha is Some ==> line_text(commit_spans(commit, expanded)) == commit.graph_cell + (
        if expanded {
            seq!['\u{25be}', ' ']
        } else {
            seq!['\u{25b8}', ' ']
        }) + crate::source_control::separated(commit.decorations, ' ') + commit.subject + (
        if commit.author.len() == 0 {
            seq![]
        } else {
            seq![' ', '\u{b7}', ' '] + commit.author
        }),
{
    reveal_strlit("\u{25be}");
    reveal_strlit("\u{25b8}");
    reveal_strlit(" ");
    reveal_strlit(" \u{b7} ");
    let none: Seq<SpanView> = seq![];
    let cell = SpanView {
        text: commit.graph_cell,
        ink: Ink::Overlay1,
        emphasis: Emphasis::Plain,
    };
    lemma_line_push(none, cell);
    assert(seq![cell] =~= none.push(cell));
    assert(line_text(seq![cell]) =~= commit.graph_cell);
    if commit.sha is Some {
        let chevron = SpanView {
            text: if expanded {
                "\u{25be}"@
            } else {
                "\u{25b8}"@
            },
            ink: Ink::Overlay0,
            emphasis: Emphasis::Plain,
        };
        let gap = SpanView { text: " "@, ink: Ink::Default, emphasis: Emphasis::Plain };
        lemma_line_push(none, chevron);
        lemma_line_push(none.push(chevron), gap);
        assert(seq![chevron, gap] =~= none.push(chevron).push(gap));
        let mark = if expanded {
            seq!['\u{25be}', ' ']
        } else {
            seq!['\u{25b8}', ' ']
        };
        assert(line_text(seq![chevron, gap]) =~= mark);
        let refs = decoration_spans(commit.decorations);
        lemma_decorations_read(commit.decorations);
        let subject = SpanView {
            text: commit.subject,
            ink: Ink::Text,
            emphasis: Emphasis::Plain,
        };
        lemma_line_push(none, subject);
        assert(seq![subject] =~= none.push(subject));
        assert(line_text(seq![subject]) =~= commit.subject);
        let by = SpanView { text: " \u{b7} "@, ink: Ink::Overlay0, emphasis: Emphasis::Dim };
        let author = SpanView { text: commit.author, ink: Ink::Overlay0, emphasis: Emphasis::Dim };
        lemma_line_push(none, by);
        lemma_line_push(none.push(by), author);
        assert(seq![by, author] =~= none.push(by).push(author));
        assert(line_text(seq![by, author]) =~= seq![' ', '\u{b7}', ' '] + commit.author);
        let end = if commit.author.len() == 0 {
            none
        } else {
            seq![by, author]
        };
        lemma_line_of_both(seq![cell], seq![chevron, gap]);
        lemma_line_of_both(seq![cell] + seq![chevron, gap], refs);
        lemma_line_of_both(seq![cell] + seq![chevron, gap] + refs, seq![subject]);
        lemma_line_of_both(seq![cell] + seq![chevron, gap] + refs + seq![subject], end);
        assert(commit_spans(commit, expanded) =~= seq![cell] + seq![chevron, gap] + refs
            + seq![subject] + end);
    }
}

proof fn lemma_decorations_read(decorations: Seq<Seq<char>>)
    ensures
        line_text(decoration_spans(decorations)) == crate::source_control::separated(
            decorations,
            ' ',
        ),
    decreases decorations.len(),
{
    reveal_strlit(" ");
    if decorations.len() > 0 {
        let shorter = decorations.drop_last();
        lemma_decorations_read(shorter);
        let last = SpanView {
            text: decorations.last(),
            ink: Ink::Accent,
            emphasis: Emphasis::Bold,
        };
        let gap = SpanView { text: " "@, ink: Ink::Default, emphasis: Emphasis::Plain };
        let start = decoration_spans(shorter);
        lemma_line_push(start, last);
        lemma_line_push(start.push(last), gap);
        assert(decoration_spans(decorations) =~= start.push(last).push(gap));
        lemma_separated_push(shorter, decorations.last(), ' ');
        assert(shorter.push(decorations.last()) =~= decorations);
        assert(line_text(decoration_spans(decorations)) =~= crate::source_control::separated(
            shorter,
            ' ',
        ) + decorations.last() + seq![' ']);
    }
}

proof fn lemma_separated_push(list: Seq<Seq<char>>, last: Seq<char>, sep: char)
    ensures
        crate::source_control::separated(list.push(last), sep)
            == crate::source_control::separated(list, sep) + last + seq![sep],
    decreases list.len(),
{
    reveal_with_fuel(crate::source_control::separated, 2);
    let all = list.push(last);
    if list.len() == 0 {
        assert(all.skip(1) =~= Seq::<Seq<char>>::empty());
        assert(crate::source_control::separated(all, sep) =~= last + seq![sep]);
        assert(crate::source_control::separated(list, sep) + last + seq![sep] =~= last + seq![sep]);
    } else {
        assert(all.skip(1) =~= list.skip(1).push(last));
        lemma_separated_push(list.skip(1), last, sep);
        assert(crate::source_control::separated(all, sep) =~= crate::source_control::separated(
            list,
            sep,
        ) + last + seq![sep]);
    }
}

/// The header of the graph reads: its title, the branch where there is one, and behind
/// arrows how many commits it is ahead and behind, those counts left out that are zero.
pub proof fn law_graph_header_reads(branch: Option<Seq<char>>, ahead: usize, behind: usize)
    ensures
        ({
            let title = seq![' ', 'g', 'r', 'a', 'p', 'h'];
            let name = match branch {
                Some(b) => seq![' ', '\u{b7}', ' '] + b,
                None => seq![],
            };
            let up = if ahead > 0 {
                seq![' ', '\u{2191}'] + digits(ahead as nat, 10)
            } else {
                seq![]
            };
            let down = if behind > 0 {
                seq![' ', '\u{2193}'] + digits(behind as nat, 10)
            } else {
                seq![]
            };
            &&& line_text(graph_header_spans(branch, None)) == title + name
            &&& line_text(graph_header_spans(branch, Some((ahead, behind)))) == title + name + up
                + down
        }),
{
    reveal_strlit(" graph");
    reveal_strlit(" \u{b7} ");
    reveal_strlit(" \u{2191}");
    reveal_strlit(" \u{2193}");
    let none: Seq<SpanView> = seq![];
    let title = SpanView { text: " graph"@, ink: Ink::Overlay0, emphasis: Emphasis::Bold };
    let text = seq![' ', 'g', 'r', 'a', 'p', 'h'];
    lemma_line_push(none, title);
    assert(seq![title] =~= none.push(title));
    assert(line_text(seq![title]) =~= text);
    let name = match branch {
        Some(b) => seq![' ', '\u{b7}', ' '] + b,
        None => seq![],
    };
    let named = graph_header_spans(branch, None);
    if let Some(b) = branch {
        let dot = SpanView { text: " \u{b7} "@, ink: Ink::Overlay0, emphasis: Emphasis::Plain };
        let span = SpanView { text: b, ink: Ink::Mauve, emphasis: Emphasis::Bold };
        lemma_line_push(seq![title], dot);
        lemma_line_push(seq![title].push(dot), span);
        assert(named =~= seq![title].push(dot).push(span));
        assert(line_text(named) =~= text + name);
    } else {
        assert(line_text(named) =~= text + name);
    }
    let up = SpanView {
        text: " \u{2191}"@ + digits(ahead as nat, 10),
        ink: Ink::Green,
        emphasis: Emphasis::Plain,
    };
    let down = SpanView {
        text: " \u{2193}"@ + digits(behind as nat, 10),
        ink: Ink::Red,
        emphasis: Emphasis::Plain,
    };
    let ups = if ahead > 0 {
        seq![up]
    } else {
        none
    };
    let downs = if behind > 0 {
        seq![down]
    } else {
        none
    };
    lemma_line_push(none, up);
    lemma_line_push(none, down);
    assert(seq![up] =~= none.push(up));
    assert(seq![down] =~= none.push(down));
    assert(line_text(seq![up]) =~= seq![' ', '\u{2191}'] + digits(ahead as nat, 10));
    assert(line_text(seq![down]) =~= seq![' ', '\u{2193}'] + digits(behind as nat, 10));
    lemma_line_of_both(named, ups);
    lemma_line_of_both(named + ups, downs);
    assert(graph_header_spans(branch, Some((ahead, behind))) =~= named + ups + downs);
}

/// The badge reads the number of changed files up to ninety-nine, and `99+` above. It stands
/// in the middle of the strip, a column more to the right of it where that cannot be even.
pub proof fn law_badge(app: AppState, area: Rect)
    requires
        area.fits(),
    ensures
        forall|count: nat| #![auto] count <= 99 ==> badge_label(count) == digits(count, 10),
        forall|count: nat| #![auto] count > 99 ==> badge_label(count) == seq!['9', '9', '+'],
        badge_ops(app, area).len() == if shows_git(app) && app.panel_changes().len() > 0
            && area.width > 1 && area.height > 0 {
            1nat
        } else {
            0
        },
        badge_ops(app, area).len() == 1 ==> (badge_ops(app, area)[0] matches OpView::Line {
            rect: r,
            spans,
        } && {
            let left = r.x - content_of(area).x;
            let right = content_of(area).x + content_of(area).width - (r.x + r.width);
            &&& line_text(spans) == badge_label(app.panel_changes().len())
            &&& r.y == area.y && r.height == 1
            &&& 0 <= left <= right <= left + 1
            &&& r.width == line_text(spans).len() || r.width == content_of(area).width && r.width
                < line_text(spans).len()
        }),
{
    reveal_strlit("99+");
    assert("99+"@ =~= seq!['9', '9', '+']);
    let label = badge_label(app.panel_changes().len());
    let span = SpanView { text: label, ink: Ink::Accent, emphasis: Emphasis::Bold };
    let none: Seq<SpanView> = seq![];
    lemma_line_push(none, span);
    assert(none.push(span) =~= seq![span]);
    assert(line_text(seq![span]) =~= label);
}

/// The header of the changes reads how many there are.
pub proof fn law_changes_header_reads(section: Rect, count: nat)
    requires
        section.fits(),
        section.width > 1 && section.height > 0,
    ensures
        changes_header_ops(section, count).len() == 2,
        changes_header_ops(section, count)[0] matches OpView::Line { rect: r, spans } && r.x
            == section.x && r.y == section.y && r.width == section.width - 1 && line_text(spans)
            == seq![' ', 'c', 'h', 'a', 'n', 'g', 'e', 's', ' ', '('] + digits(count, 10) + seq![
            ')',
        ],
{
    reveal_strlit(" changes (");
    reveal_strlit(")");
    let text = " changes ("@ + digits(count, 10) + ")"@;
    assert(text =~= seq![' ', 'c', 'h', 'a', 'n', 'g', 'e', 's', ' ', '('] + digits(count, 10)
        + seq![')']);
    let span = SpanView { text, ink: Ink::Overlay0, emphasis: Emphasis::Bold };
    let none: Seq<SpanView> = seq![];
    lemma_line_push(none, span);
    assert(none.push(span) =~= seq![span]);
    assert(line_text(seq![span]) =~= text);
}

/// A file beneath a commit starts below the subject of the commit: its indentation is as
/// wide as the strokes, the chevron, and the blank in front of the subject.
pub proof fn law_file_stands_below_subject(commit: CommitView, expanded: bool)
    requires
        commit.sha is Some,
        commit.decorations.len() == 0,
        commit.graph_cell.len() + 2 <= usize::MAX,
    ensures
        line_text(commit_spans(commit, expanded)).skip(
            file_indent(commit.graph_cell) as int,
        ) == commit.subject + if commit.author.len() == 0 {
            seq![]
        } else {
            seq![' ', '\u{b7}', ' '] + commit.author
        },
{
    law_commit_row_reads(commit, expanded);
    let end = if commit.author.len() == 0 {
        seq![]
    } else {
        seq![' ', '\u{b7}', ' '] + commit.author
    };
    let text = line_text(commit_spans(commit, expanded));
    assert(crate::source_control::separated(commit.decorations, ' ') =~= Seq::<char>::empty());
    assert(text.skip(file_indent(commit.graph_cell) as int) =~= commit.subject + end);
}

/// The indicator of an empty directory is indented like what would be in it.
pub proof fn law_indicator_is_indented(row: Rect, depth: nat)
    requires
        row.width > 0,
        2 * depth <= usize::MAX,
    ensures
        empty_row_ops(row, depth).len() == 1,
        empty_row_ops(row, depth)[0] matches OpView::Line { rect: _, spans } && line_text(spans)
            == blanks(2 * depth) + seq!['(', 'e', 'm', 'p', 't', 'y', ')'],
{
    reveal_strlit("(empty)");
    let first = SpanView {
        text: blanks(tree_indent(depth)),
        ink: Ink::Default,
        emphasis: Emphasis::Plain,
    };
    let second = SpanView { text: "(empty)"@, ink: Ink::Overlay0, emphasis: Emphasis::Dim };
    let none: Seq<SpanView> = seq![];
    lemma_line_push(none, first);
    lemma_line_push(none.push(first), second);
    assert(none.push(first).push(second) =~= seq![first, second]);
    assert("(empty)"@ =~= seq!['(', 'e', 'm', 'p', 't', 'y', ')']);
    assert(line_text(seq![first, second]) =~= blanks(2 * depth) + seq![
        '(',
        'e',
        'm',
        'p',
        't',
        'y',
        ')',
    ]);
}

/// As many blanks are written as asked for, and nothing else.
pub proof fn law_blanks(n: nat)
    ensures
        blanks(n).len() == n,
        forall|i: int| 0 <= i < n ==> #[trigger] blanks(n)[i] == ' ',
{
}

/// The rows of a list are drawn one after the other, each by itself.
pub proof fn law_rows_are_drawn_one_by_one(
    app: AppState,
    a: Seq<(RowView, Rect)>,
    b: Seq<(RowView, Rect)>,
    row: (RowView, Rect),
)
    ensures
        tree_rows_ops(app, a + b) == tree_rows_ops(app, a) + tree_rows_ops(app, b),
        tree_rows_ops(app, seq![row]) == match row.0 {
            RowView::Node(node) => highlight_ops(row.1, is_selected(app, node.path))
                + node_row_ops(row.1, node, panel_decoration(app, node.path)),
            RowView::Empty { depth } => empty_row_ops(row.1, depth),
        },
    decreases b.len(),
{
    reveal_with_fuel(tree_rows_ops, 2);
    assert(seq![row].drop_last() =~= Seq::<(RowView, Rect)>::empty());
    assert(seq![row].last() == row);
    assert(tree_rows_ops(app, seq![row]) =~= tree_row_ops(app, row));
    if b.len() == 0 {
        assert(a + b =~= a);
        assert(tree_rows_ops(app, a) + tree_rows_ops(app, b) =~= tree_rows_ops(app, a));
    } else {
        law_rows_are_drawn_one_by_one(app, a, b.drop_last(), row);
        assert((a + b).drop_last() =~= a + b.drop_last());
        assert((a + b).last() == b.last());
        assert(tree_rows_ops(app, a + b) =~= tree_rows_ops(app, a) + tree_rows_ops(app, b));
    }
}

/// The changed files are drawn one after the other, each at its place as the file that its
/// place names, and highlighted where it is what the diff pane shows.
pub proof fn law_changes_are_drawn_one_by_one(
    a: Seq<SourcePanelFileArea>,
    b: Seq<SourcePanelFileArea>,
    area: SourcePanelFileArea,
    changes: Seq<ChangedFile>,
    item: Option<SourcePanelActiveItem>,
)
    ensures
        change_rows_ops(a + b, changes, item) == change_rows_ops(a, changes, item)
            + change_rows_ops(b, changes, item),
        area.change_idx >= changes.len() ==> change_rows_ops(seq![area], changes, item).len() == 0,
        area.change_idx < changes.len() ==> change_rows_ops(seq![area], changes, item)
            == highlight_ops(
            area.rect,
            item matches Some(SourcePanelActiveItem::WorkingFile(p)) && path_key(p@) == path_key(
                changes[area.change_idx as int].path@,
            ),
        ) + change_row_ops(area.rect, changes[area.change_idx as int]@, 1),
    decreases b.len(),
{
    reveal_with_fuel(change_rows_ops, 2);
    assert(seq![area].drop_last() =~= Seq::<SourcePanelFileArea>::empty());
    assert(seq![area].last() == area);
    if area.change_idx < changes.len() {
        let change = changes[area.change_idx as int];
        assert(change_rows_ops(seq![area], changes, item) =~= highlight_ops(
            area.rect,
            is_working_file(item, change.path@),
        ) + change_row_ops(area.rect, change@, 1));
    }
    if b.len() == 0 {
        assert(a + b =~= a);
        assert(change_rows_ops(a, changes, item) + change_rows_ops(b, changes, item)
            =~= change_rows_ops(a, changes, item));
    } else {
        law_changes_are_drawn_one_by_one(a, b.drop_last(), area, changes, item);
        assert((a + b).drop_last() =~= a + b.drop_last());
        assert((a + b).last() == b.last());
        assert(change_rows_ops(a + b, changes, item) =~= change_rows_ops(a, changes, item)
            + change_rows_ops(b, changes, item));
    }
}

/// The commits are drawn one after the other, each at its place as the commit that its place
/// names.
pub proof fn law_commits_are_drawn_one_by_one(
    app: AppState,
    a: Seq<SourcePanelCommitArea>,
    b: Seq<SourcePanelCommitArea>,
    area: SourcePanelCommitArea,
    commits: Seq<CommitInfo>,
)
    ensures
        commit_rows_ops(app, a + b, commits) == commit_rows_ops(app, a, commits) + commit_rows_ops(
            app,
            b,
            commits,
        ),
        area.log_idx >= commits.len() || area.rect.width == 0 ==> commit_rows_ops(
            app,
            seq![area],
            commits,
        ).len() == 0,
        area.log_idx < commits.len() && area.rect.width > 0 ==> {
            let commit = commits[area.log_idx as int];
            let ops = commit_rows_ops(app, seq![area], commits);
            let open = commit.sha matches Some(sha)
                && app.source_panel_expanded_commits@.contains(sha@);
            let shown = commit.sha matches Some(sha) && (app.highlighted() matches Some(
                SourcePanelActiveItem::Commit(s),
            ) && s@ == sha@);
            &&& ops.len() == if shown {
                2nat
            } else {
                1
            }
            &&& shown ==> ops[0] == (OpView::Highlight { rect: area.rect })
            &&& ops.last() matches OpView::Line { rect: r, spans } && spans == commit_spans(
                commit@,
                open,
            ) && (area.rect.fits() && area.rect.height == 1 ==> r == area.rect)
        },
    decreases b.len(),
{
    reveal_with_fuel(commit_rows_ops, 2);
    assert(seq![area].drop_last() =~= Seq::<SourcePanelCommitArea>::empty());
    assert(seq![area].last() == area);
    if area.log_idx < commits.len() {
        assert(commit_rows_ops(app, seq![area], commits) =~= commit_row_ops(
            app,
            area.rect,
            commits[area.log_idx as int],
        ));
    }
    if b.len() == 0 {
        assert(a + b =~= a);
        assert(commit_rows_ops(app, a, commits) + commit_rows_ops(app, b, commits)
            =~= commit_rows_ops(app, a, commits));
    } else {
        law_commits_are_drawn_one_by_one(app, a, b.drop_last(), area, commits);
        assert((a + b).drop_last() =~= a + b.drop_last());
        assert((a + b).last() == b.last());
        assert(commit_rows_ops(app, a + b, commits) =~= commit_rows_ops(app, a, commits)
            + commit_rows_ops(app, b, commits));
    }
}

/// The toggle stands in the last row. That of the expanded panel points right, from the corner;
/// that of the collapsed one points left.
pub proof fn law_toggle_is_drawn(area: Rect, col: int, row: int)
    requires
        area.fits(),
    ensures
        area.width > 1 && area.height > 0 ==> {
            &&& toggle_ops(area, false).len() == 1
            &&& toggle_ops(area, true).len() == 1
            &&& toggle_ops(area, false)[0] matches OpView::Line { rect: r, spans } && line_text(
                spans,
            ) == seq!['\u{bb}'] && (r.has_cell(col, row) <==> col == area.x + area.width - 1 && row
                == area.y + area.height - 1)
            &&& toggle_ops(area, true)[0] matches OpView::Line { rect: r, spans } && line_text(
                spans,
            ) == seq!['\u{ab}'] && (r.has_cell(col, row) ==> area.x < col < area.x + area.width
                && row == area.y + area.height - 1) && r.width == 1 && r.height == 1
        },
        area.width <= 1 || area.height == 0 ==> toggle_ops(area, false).len() == 0 && toggle_ops(
            area,
            true,
        ).len() == 0,
{
    reveal_strlit("«");
    reveal_strlit("»");
    if area.width > 1 && area.height > 0 {
        let a = text_op(expanded_toggle_of(area), "»"@, Ink::Overlay0, Emphasis::Plain);
        let b = text_op(collapsed_toggle_of(area), "«"@, Ink::Overlay0, Emphasis::Plain);
        lemma_one_span(a->spans);
        lemma_one_span(b->spans);
        assert("»"@ =~= seq!['\u{bb}']);
        assert("«"@ =~= seq!['\u{ab}']);
    }
}

/// A line of one span reads as the span does.
proof fn lemma_one_span(spans: Seq<SpanView>)
    requires
        spans.len() == 1,
    ensures
        line_text(spans) == spans[0].text,
{
    reveal_with_fuel(line_text, 2);
    assert(spans.drop_last() =~= Seq::<SpanView>::empty());
    assert(line_text(spans) =~= spans[0].text);
}

/// Each mode label is drawn in its area, with a blank on either side, and the active one alone is
/// highlighted.
pub proof fn law_mode_labels_are_drawn(
    a: Seq<SourcePanelModeTabArea>,
    b: Seq<SourcePanelModeTabArea>,
    tab: SourcePanelModeTabArea,
    active: SourcePanelMode,
)
    ensures
        mode_header_ops(a + b, active) == mode_header_ops(a, active) + mode_header_ops(b, active),
        ({
            let ops = mode_header_ops(seq![tab], active);
            &&& ops.len() == if tab.mode == active {
                2nat
            } else {
                1
            }
            &&& tab.mode == active ==> ops[0] == (OpView::Highlight { rect: tab.rect })
            &&& ops.last() matches OpView::Line { rect: r, spans } && r == tab.rect && line_text(
                spans,
            ) == seq![' '] + mode_label(tab.mode) + seq![' ']
        }),
    decreases b.len(),
{
    reveal_with_fuel(mode_header_ops, 2);
    reveal_strlit(" ");
    assert(seq![tab].drop_last() =~= Seq::<SourcePanelModeTabArea>::empty());
    assert(mode_header_ops(seq![tab], active) =~= mode_tab_ops(tab, active));
    let last = mode_tab_ops(tab, active).last();
    lemma_one_span(last->spans);
    assert(" "@ =~= seq![' ']);
    if b.len() == 0 {
        assert(a + b =~= a);
        assert(mode_header_ops(a, active) + mode_header_ops(b, active) =~= mode_header_ops(
            a,
            active,
        ));
    } else {
        law_mode_labels_are_drawn(a, b.drop_last(), tab, active);
        assert((a + b).drop_last() =~= a + b.drop_last());
        assert(mode_header_ops(a + b, active) =~= mode_header_ops(a, active) + mode_header_ops(
            b,
            active,
        ));
    }
}

/// The separator takes the first column of the panel, from top to bottom.
pub proof fn law_separator(area: Rect, col: int, row: int)
    requires
        area.fits(),
        area.width > 0,
    ensures
        separator_op(area) matches OpView::Separator { rect: r } && (r.has_cell(col, row)
            <==> area.has_cell(col, row) && col == area.x),
{
}

/// A panel without a repository says so in its first row.
pub proof fn law_panel_without_repository(area: Rect)
    requires
        area.fits(),
        area.width > 1 && area.height > 0,
    ensures
        non_git_ops(area).len() == 1,
        non_git_ops(area)[0] matches OpView::Line { rect: r, spans } && r.x == area.x + 1 && r.y
            == area.y && r.width == area.width - 1 && r.height == 1 && line_text(spans)
            == " not a git repository"@,
{
    lemma_one_span(non_git_ops(area)[0]->Line_spans);
}

/// A section without rows has a placeholder right below its header, over its whole width.
pub proof fn law_placeholders(app: AppState, section: Rect)
    requires
        section.fits(),
        section.width > 0 && section.height > 1,
    ensures
        app.panel_changes().len() == 0 ==> changes_body_ops(app, section).len() == 1 && (
        changes_body_ops(app, section)[0] matches OpView::Line { rect: r, spans } && r.x
            == section.x && r.y == section.y + 1 && r.width == section.width && r.height == 1
            && line_text(spans) == " no changes"@),
        app.panel_commits().len() == 0 && app.graph_list().len() == 0 ==> graph_body_ops(
            app,
            section,
        ).len() == 1 && (graph_body_ops(app, section)[0] matches OpView::Line { rect: r, spans }
            && r.x == section.x && r.y == section.y + 1 && r.width == section.width && r.height
            == 1 && line_text(spans) == " no commits"@),
{
    if app.panel_changes().len() == 0 {
        lemma_one_span(changes_body_ops(app, section)[0]->Line_spans);
    }
    if app.panel_commits().len() == 0 && app.graph_list().len() == 0 {
        lemma_one_span(graph_body_ops(app, section)[0]->Line_spans);
    }
}

/// The files beneath commits are drawn one by one, each as a changed file is, as far right as the
/// subject of its commit stands; the one that the diff pane shows is highlighted.
pub proof fn law_commit_files_are_drawn_one_by_one(
    app: AppState,
    a: Seq<SourcePanelCommitFileArea>,
    b: Seq<SourcePanelCommitFileArea>,
    area: SourcePanelCommitFileArea,
    commits: Seq<CommitInfo>,
    sha: String,
)
    requires
        area.log_idx < commits.len(),
        commits[area.log_idx as int].sha == Some(sha),
        app.source_panel_commit_files@.contains_key(sha@),
        area.file_idx < app.source_panel_commit_files@[sha@]@.len(),
        commits[area.log_idx as int].graph_cell@.len() + 2 <= usize::MAX,
    ensures
        commit_file_rows_ops(app, a + b, commits) == commit_file_rows_ops(app, a, commits)
            + commit_file_rows_ops(app, b, commits),
        ({
            let file = app.source_panel_commit_files@[sha@]@[area.file_idx as int];
            commit_file_rows_ops(app, seq![area], commits) == highlight_ops(
                area.rect,
                app.highlighted() matches Some(
                    SourcePanelActiveItem::CommitFile { sha: s, path: p },
                ) && s@ == sha@ && path_key(p@) == path_key(file.path@),
            ) + change_row_ops(
                area.rect,
                file@,
                commits[area.log_idx as int].graph_cell@.len() + 2,
            )
        }),
    decreases b.len(),
{
    reveal_with_fuel(commit_file_rows_ops, 2);
    assert(seq![area].drop_last() =~= Seq::<SourcePanelCommitFileArea>::empty());
    assert(commit_file_rows_ops(app, seq![area], commits) =~= commit_file_row_ops(
        app,
        area,
        commits[area.log_idx as int],
    ));
    if b.len() == 0 {
        assert(a + b =~= a);
        assert(commit_file_rows_ops(app, a, commits) + commit_file_rows_ops(app, b, commits)
            =~= commit_file_rows_ops(app, a, commits));
    } else {
        law_commit_files_are_drawn_one_by_one(app, a, b.drop_last(), area, commits, sha);
        assert((a + b).drop_last() =~= a + b.drop_last());
        assert(commit_file_rows_ops(app, a + b, commits) =~= commit_file_rows_ops(app, a, commits)
            + commit_file_rows_ops(app, b, commits));
    }
}

/// A highlighted row has a background over its whole rectangle, and another one has none.
pub proof fn law_highlight_of_a_row(row: Rect)
    ensures
        highlight_ops(row, true) == seq![OpView::Highlight { rect: row }],
        highlight_ops(row, false).len() == 0,
{
}

/// The row that loads more commits reads so wherever it has room.
pub proof fn law_load_more_is_drawn(r: Rect)
    ensures
        r.width > 0 && r.height > 0 ==> load_more_ops(r).len() == 1 && (load_more_ops(
            r,
        )[0] matches OpView::Line { rect: at, spans } && at == r && line_text(spans)
            == " load more"@),
        r.width == 0 || r.height == 0 ==> load_more_ops(r).len() == 0,
{
    if r.width > 0 && r.height > 0 {
        lemma_one_span(load_more_ops(r)[0]->Line_spans);
    }
}

/// The header of the Explorer names the tree on the left, and has the glyph that collapses all
/// in the third column from the right and the one that refreshes in the last.
pub proof fn law_explorer_header_is_drawn(area: Rect, name: Seq<char>, col: int, row: int)
    requires
        area.fits(),
        area.width > 4 && area.height > 1,
    ensures
        ({
            let ops = explorer_header_ops(area, name);
            &&& ops.len() == 3
            &&& ops[0] matches OpView::Line { rect: r, spans } && line_text(spans) == seq![' ']
                + name && (r.has_cell(col, row) <==> row == area.y + 1 && area.x < col < area.x
                + area.width - 3)
            &&& ops[1] matches OpView::Line { rect: r, spans } && line_text(spans)
                == seq!['\u{229f}'] && (r.has_cell(col, row) <==> row == area.y + 1 && col
                == area.x + area.width - 3)
            &&& ops[2] matches OpView::Line { rect: r, spans } && line_text(spans)
                == seq!['\u{21bb}'] && (r.has_cell(col, row) <==> row == area.y + 1 && col
                == area.x + area.width - 1)
        }),
{
    reveal_strlit(" ");
    reveal_strlit("⊟");
    reveal_strlit("↻");
    let ops = explorer_header_ops(area, name);
    lemma_one_span(ops[0]->Line_spans);
    lemma_one_span(ops[1]->Line_spans);
    lemma_one_span(ops[2]->Line_spans);
    assert(" "@ =~= seq![' ']);
    assert("⊟"@ =~= seq!['\u{229f}']);
    assert("↻"@ =~= seq!['\u{21bb}']);
}

/// The Explorer bears the name of the directory that it shows, and that of the workspace where
/// the tree is not rooted.
pub proof fn law_explorer_is_named_after_its_root(
    app: AppState,
    display_name: Seq<char>,
    base: Seq<u8>,
    name: Seq<u8>,
)
    requires
        app.has_panel_workspace(),
        crate::path::is_entry_name(name),
        name != seq![crate::path::DOT, crate::path::DOT],
    ensures
        app.panel_workspace().explorer_root is None ==> explorer_name(app, display_name)
            == display_name,
        (app.panel_workspace().explorer_root matches Some(root) && root@ == crate::path::joined(
            base,
            name,
        )) ==> explorer_name(app, display_name) == if valid_utf8(name) {
            decode_utf8(name)
        } else {
            display_name
        },
{
    crate::path::law_joined_name(base, name);
}

/// The selected row is the one whose path names what the workspace has selected.
pub proof fn law_selected_row(app: AppState, idx: usize, selected: FsPath, path: Seq<u8>)
    requires
        app.panel_idx() == Some(idx),
        idx < app.workspaces@.len(),
    ensures
        app.workspaces@[idx as int].explorer_selected == Some(selected) ==> is_selected(app, path)
            == (path_key(path) == path_key(selected@)),
        app.workspaces@[idx as int].explorer_selected is None ==> !is_selected(app, path),
        panel_decoration(app, path) == app.workspaces@[idx as int].tree_decoration(path_key(path)),
{
}

/// The colors of a graph row: the strokes, the chevron, the subject and the author have each
/// their own, and decorations stand out.
pub proof fn law_commit_row_colors(commit: CommitView, expanded: bool)
    ensures
        ({
            let spans = commit_spans(commit, expanded);
            let refs = 2 * commit.decorations.len() as int;
            &&& spans[0].ink == Ink::Overlay1
            &&& commit.sha is Some ==> {
                &&& spans[1].ink == Ink::Overlay0
                &&& spans.len() == 4 + refs + if commit.author.len() == 0 {
                    0int
                } else {
                    2
                }
                &&& forall|i: int|
                    0 <= i < commit.decorations.len() ==> (#[trigger] spans[3 + 2 * i]).ink
                        == Ink::Accent && spans[3 + 2 * i].emphasis == Emphasis::Bold
                        && spans[3 + 2 * i].text == commit.decorations[i]
                &&& spans[3 + refs].text == commit.subject && spans[3 + refs].ink == Ink::Text
                &&& commit.author.len() > 0 ==> spans.last().text == commit.author
                    && spans.last().ink == Ink::Overlay0 && spans.last().emphasis == Emphasis::Dim
            }
        }),
{
    lemma_decoration_spans(commit.decorations);
}

/// A decoration takes two spans, itself and a blank.
proof fn lemma_decoration_spans(decorations: Seq<Seq<char>>)
    ensures
        decoration_spans(decorations).len() == 2 * decorations.len(),
        forall|i: int|
            0 <= i < decorations.len() ==> (#[trigger] decoration_spans(decorations)[2 * i]).ink
                == Ink::Accent && decoration_spans(decorations)[2 * i].emphasis == Emphasis::Bold
                && decoration_spans(decorations)[2 * i].text == decorations[i],
    decreases decorations.len(),
{
    if decorations.len() > 0 {
        lemma_decoration_spans(decorations.drop_last());
        assert forall|i: int| 0 <= i < decorations.len() implies (
        #[trigger] decoration_spans(decorations)[2 * i]).ink == Ink::Accent && decoration_spans(
            decorations,
        )[2 * i].emphasis == Emphasis::Bold && decoration_spans(decorations)[2 * i].text
            == decorations[i] by {
            if i < decorations.len() - 1 {
                assert(decoration_spans(decorations)[2 * i] == decoration_spans(
                    decorations.drop_last(),
                )[2 * i]);
                assert(decorations.drop_last()[i] == decorations[i]);
            }
        }
    }
}

/// The colors of a changed file's row: the name stands before a dim directory.
pub proof fn law_change_row_colors(change: ChangeView, indent: nat)
    ensures
        change_spans(change, indent)[1].ink == Ink::Subtext0,
        change_spans(change, indent)[1].text == shown_path(change.path).0,
        shown_path(change.path).1.len() > 0 ==> change_spans(change, indent)[3].ink
            == Ink::Overlay0 && change_spans(change, indent)[3].emphasis == Emphasis::Dim,
{
}

/// The colors of the Graph header: the branch stands out, commits ahead are green and commits
/// behind are red.
pub proof fn law_graph_header_colors(branch: Seq<char>, ahead: usize, behind: usize)
    requires
        ahead > 0 && behind > 0,
    ensures
        ({
            let spans = graph_header_spans(Some(branch), Some((ahead, behind)));
            &&& spans.len() == 5
            &&& spans[0].ink == Ink::Overlay0 && spans[0].emphasis == Emphasis::Bold
            &&& spans[2].text == branch && spans[2].ink == Ink::Mauve
            &&& spans[3].ink == Ink::Green
            &&& spans[4].ink == Ink::Red
        }),
{
}

/// What a list holds, a longer one around it holds too.
proof fn lemma_part_of<A>(a: Seq<A>, b: Seq<A>, c: Seq<A>, x: A)
    requires
        b.contains(x),
    ensures
        (a + b + c).contains(x),
        (b + c).contains(x),
        (a + b).contains(x),
{
    let i = choose|i: int| 0 <= i < b.len() && b[i] == x;
    assert((a + b + c)[a.len() + i] == x);
    assert((b + c)[i] == x);
    assert((a + b)[a.len() + i] == x);
}

/// The panel starts with its separator and ends with its toggle. In its Source mode it holds all
/// of both sections and the line between them, in its Explorer mode all of the Explorer; in both
/// it holds the mode labels. Without a repository it holds none of these.
pub proof fn law_parts_of_the_panel(
    app: AppState,
    area: Rect,
    display_name: Seq<char>,
    op: OpView,
)
    ensures
        ({
            let ops = panel_ops(app, area, display_name);
            let split = app.source_panel_split_rows as int;
            let git = app.has_panel_workspace() ==> app.panel_workspace().cached_is_git_repo;
            let source = app.panel_mode() == SourcePanelMode::Source;
            &&& ops.len() > 0 && ops[0] == separator_op(area)
            &&& toggle_ops(area, false).len() == 1 ==> ops.last() == toggle_ops(area, false)[0]
            &&& git && mode_header_ops(mode_tabs_of(area), app.panel_mode()).contains(op)
                ==> ops.contains(op)
            &&& git && source && changes_ops(app, changes_section(area, split)).contains(op)
                ==> ops.contains(op)
            &&& git && source && divider_ops(area, split).contains(op) ==> ops.contains(op)
            &&& git && source && graph_ops(app, graph_section(area, split)).contains(op)
                ==> ops.contains(op)
            &&& git && !source && explorer_ops(app, area, display_name).contains(op)
                ==> ops.contains(op)
            &&& !git ==> ops.len() == 1 + non_git_ops(area).len() + toggle_ops(area, false).len()
            &&& !git && non_git_ops(area).contains(op) ==> ops.contains(op)
        }),
{
    let split = app.source_panel_split_rows as int;
    let head = seq![separator_op(area)];
    let tail = toggle_ops(area, false);
    let labels = mode_header_ops(mode_tabs_of(area), app.panel_mode());
    let changes = changes_ops(app, changes_section(area, split));
    let rule = divider_ops(area, split);
    let graph = graph_ops(app, graph_section(area, split));
    let tree = explorer_ops(app, area, display_name);
    if !shows_git(app) {
        if non_git_ops(area).contains(op) {
            lemma_part_of(head, non_git_ops(area), tail, op);
        }
    } else if app.panel_mode() == SourcePanelMode::Source {
        let inner = changes + rule + graph;
        if changes.contains(op) {
            lemma_part_of(seq![], changes, rule, op);
            lemma_part_of(seq![], changes + rule, graph, op);
            assert(inner.contains(op));
        }
        if rule.contains(op) {
            lemma_part_of(changes, rule, graph, op);
        }
        if graph.contains(op) {
            lemma_part_of(changes + rule, graph, seq![], op);
        }
        if inner.contains(op) {
            lemma_part_of(labels, inner, seq![], op);
            lemma_part_of(head, labels + inner, tail, op);
        }
        if labels.contains(op) {
            lemma_part_of(seq![], labels, inner, op);
            lemma_part_of(head, labels + inner, tail, op);
        }
    } else {
        if tree.contains(op) {
            lemma_part_of(labels, tree, seq![], op);
            lemma_part_of(head, labels + tree, tail, op);
        }
        if labels.contains(op) {
            lemma_part_of(seq![], labels, tree, op);
            lemma_part_of(head, labels + tree, tail, op);
        }
    }
}

/// The sections hold their headers and, where they have rows, each row in view; a section whose
/// rows do not all fit has a scrollbar in its last column.
pub proof fn law_parts_of_the_sections(app: AppState, section: Rect, op: OpView)
    requires
        section.fits(),
        section.width > 1 && section.height > 1,
    ensures
        ({
            let branch = panel_branch(app);
            let counts = panel_ahead_behind(app);
            let view = app.view;
            let changes = changes_ops(app, section);
            let graph = graph_ops(app, section);
            &&& changes_header_ops(section, app.panel_changes().len()).contains(op)
                ==> changes.contains(op)
            &&& graph_header_ops(section, branch, counts).contains(op) ==> graph.contains(op)
            &&& app.panel_changes().len() > 0 && change_rows_ops(
                view.source_panel_changes_card_areas@,
                app.panel_changes(),
                app.highlighted(),
            ).contains(op) ==> changes.contains(op)
            &&& app.panel_commits().len() > 0 && commit_rows_ops(
                app,
                view.source_panel_log_card_areas@,
                app.panel_commits(),
            ).contains(op) ==> graph.contains(op)
            &&& app.panel_commits().len() > 0 && commit_file_rows_ops(
                app,
                view.source_panel_commit_file_card_areas@,
                app.panel_commits(),
            ).contains(op) ==> graph.contains(op)
            &&& app.panel_commits().len() > 0 && load_more_ops(
                view.source_panel_load_more_rect,
            ).contains(op) ==> graph.contains(op)
            &&& section.height <= app.panel_changes().len() <= usize::MAX ==> (
            changes.last() matches OpView::Scrollbar { track, metrics: _ } && track.x == section.x
                + section.width - 1 && track.width == 1 && track.y == section.y + 1 && track.height
                == section.height - 1)
            &&& app.panel_commits().len() > 0 && section.height <= app.graph_list().len()
                <= usize::MAX ==> (graph.last() matches OpView::Scrollbar { track, metrics: _ }
                && track.x == section.x + section.width - 1 && track.width == 1 && track.y
                == section.y + 1 && track.height == section.height - 1)
        }),
{
    let view = app.view;
    let ch = changes_header_ops(section, app.panel_changes().len());
    let gh = graph_header_ops(section, panel_branch(app), panel_ahead_behind(app));
    let cb = changes_body_ops(app, section);
    let gb = graph_body_ops(app, section);
    if ch.contains(op) {
        lemma_part_of(seq![], ch, cb, op);
    }
    if gh.contains(op) {
        lemma_part_of(seq![], gh, gb, op);
    }
    let metrics = changes_metrics(app, section);
    let track = scrollbar_of(section, list_body(section, true), metrics);
    let rows = change_rows_ops(
        view.source_panel_changes_card_areas@,
        app.panel_changes(),
        app.highlighted(),
    );
    if app.panel_changes().len() > 0 && rows.contains(op) {
        lemma_part_of(seq![], rows, scrollbar_ops(track, metrics), op);
        lemma_part_of(ch, cb, seq![], op);
    }
    if app.panel_commits().len() > 0 {
        let metrics = log_metrics(app, section);
        let track = scrollbar_of(section, list_body(section, true), metrics);
        let bar = scrollbar_ops(track, metrics);
        let a = commit_rows_ops(app, view.source_panel_log_card_areas@, app.panel_commits());
        let b = commit_file_rows_ops(
            app,
            view.source_panel_commit_file_card_areas@,
            app.panel_commits(),
        );
        let c = load_more_ops(view.source_panel_load_more_rect);
        if a.contains(op) {
            lemma_part_of(seq![], a, b, op);
            lemma_part_of(seq![], a + b, c, op);
            lemma_part_of(seq![], a + b + c, bar, op);
            lemma_part_of(gh, gb, seq![], op);
        }
        if b.contains(op) {
            lemma_part_of(a, b, c, op);
            lemma_part_of(seq![], a + b + c, bar, op);
            lemma_part_of(gh, gb, seq![], op);
        }
        if c.contains(op) {
            lemma_part_of(a + b, c, bar, op);
            lemma_part_of(gh, gb, seq![], op);
        }
    }
}

/// The Explorer holds its header and each row of the tree in view; where not all rows fit, it has
/// a scrollbar in its last column.
pub proof fn law_parts_of_the_explorer(
    app: AppState,
    area: Rect,
    display_name: Seq<char>,
    op: OpView,
)
    requires
        area.fits(),
        area.width > 2 && area.height > 2,
    ensures
        ({
            let ops = explorer_ops(app, area, display_name);
            &&& explorer_header_ops(area, explorer_name(app, display_name)).contains(op)
                ==> ops.contains(op)
            &&& tree_rows_ops(app, visible_tree_rows(app, area)).contains(op) ==> ops.contains(op)
            &&& area.height - 2 < app.tree_list().len() <= usize::MAX ==> (
            ops.last() matches OpView::Scrollbar { track, metrics: _ } && track.x == area.x
                + area.width - 1 && track.width == 1 && track.y == area.y + 2 && track.height
                == area.height - 2)
            &&& app.tree_list().len() <= area.height - 2 ==> ops.len() == explorer_header_ops(
                area,
                explorer_name(app, display_name),
            ).len() + tree_rows_ops(app, visible_tree_rows(app, area)).len()
        }),
{
    let section = explorer_tree_of(area);
    let a = explorer_header_ops(area, explorer_name(app, display_name));
    let b = tree_rows_ops(app, visible_tree_rows(app, area));
    let c = scrollbar_ops(tree_scrollbar(app, section), tree_metrics(app, section));
    if a.contains(op) {
        lemma_part_of(seq![], a, b, op);
        lemma_part_of(seq![], a + b, c, op);
    }
    if b.contains(op) {
        lemma_part_of(a, b, c, op);
    }
}

/// The collapsed strip has its separator, the number of changes, and the toggle.
pub proof fn law_parts_of_the_strip(app: AppState, area: Rect)
    ensures
        ({
            let ops = collapsed_ops(app, area);
            &&& ops.len() == 1 + badge_ops(app, area).len() + toggle_ops(area, true).len()
            &&& ops[0] == separator_op(area)
            &&& badge_ops(app, area).len() == 1 ==> ops[1] == badge_ops(app, area)[0]
            &&& toggle_ops(area, true).len() == 1 ==> ops.last() == toggle_ops(area, true)[0]
        }),
{
}

/// The panel shows the branch of its workspace and how far that is ahead and behind.
pub proof fn law_branch_of_the_panel(app: AppState, idx: usize)
    requires
        app.panel_idx() == Some(idx),
        idx < app.workspaces@.len(),
    ensures
        app.workspaces@[idx as int].cached_git_branch matches Some(branch) ==> panel_branch(app)
            == Some(branch@),
        app.workspaces@[idx as int].cached_git_branch is None ==> panel_branch(app) is None,
        panel_ahead_behind(app) == app.workspaces@[idx as int].cached_git_ahead_behind,
{
}

/// The toggle of the collapsed strip stands in the middle of its content, right of the middle
/// where that has no column of its own.
pub proof fn law_collapsed_toggle_is_in_the_middle(area: Rect)
    requires
        area.fits(),
        area.width > 1 && area.height > 0,
    ensures
        toggle_ops(area, true).len() == 1,
        toggle_ops(area, true)[0] matches OpView::Line { rect: r, spans: _ } && {
            let left = r.x - (area.x + 1);
            let right = area.x + area.width - (r.x + 1);
            right == left || right + 1 == left
        },
{
}

} // verus!
