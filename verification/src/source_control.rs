//! What git reports about a repository: the changed files, the commit graph,
//! and the commands that show either in a pane.
use crate::path::{lossy_text, to_text_lossy, FsPath};
use crate::text::{
    decimal, digits, find_char, first_pieces, from_chars, index_of, lemma_index_of,
    law_lines_of_a_text, law_trimming_finds_the_text, lemma_index_of_bounds, lemma_lines_of_both,
    lines, pieces, split, split_first, split_lines, terminated, to_chars, trim, trimmed, views,
    white_space, with_separators,
};
use vstd::prelude::*;
use vstd::slice::slice_subrange;
use vstd::utf8::{decode_utf8, encode_utf8, valid_utf8};

verus! {

/// One entry in the source-control "changes" list.
#[derive(Debug, PartialEq, Eq)]
pub struct ChangedFile {
    pub path: FsPath,
    pub status: ChangeStatus,
}

/// What happened to a changed file.
#[derive(Debug, PartialEq, Eq)]
pub enum ChangeStatus {
    Modified,
    Added,
    Deleted,
    Renamed { from: FsPath },
    Unmerged,
    Untracked,
}

/// The mathematical value of a [`ChangeStatus`].
pub enum StatusView {
    Modified,
    Added,
    Deleted,
    Renamed { from: Seq<u8> },
    Unmerged,
    Untracked,
}

/// The mathematical value of a [`ChangedFile`].
pub struct ChangeView {
    pub path: Seq<u8>,
    pub status: StatusView,
}

impl View for ChangeStatus {
    type V = StatusView;

    open spec fn view(&self) -> StatusView {
        match self {
            ChangeStatus::Modified => StatusView::Modified,
            ChangeStatus::Added => StatusView::Added,
            ChangeStatus::Deleted => StatusView::Deleted,
            ChangeStatus::Renamed { from } => StatusView::Renamed { from: from@ },
            ChangeStatus::Unmerged => StatusView::Unmerged,
            ChangeStatus::Untracked => StatusView::Untracked,
        }
    }
}

impl View for ChangedFile {
    type V = ChangeView;

    open spec fn view(&self) -> ChangeView {
        ChangeView { path: self.path@, status: self.status@ }
    }
}

impl Clone for ChangeStatus {
    fn clone(&self) -> (r: Self)
        ensures
            r@ == self@,
    {
        match self {
            ChangeStatus::Modified => ChangeStatus::Modified,
            ChangeStatus::Added => ChangeStatus::Added,
            ChangeStatus::Deleted => ChangeStatus::Deleted,
            ChangeStatus::Renamed { from } => ChangeStatus::Renamed { from: from.clone() },
            ChangeStatus::Unmerged => ChangeStatus::Unmerged,
            ChangeStatus::Untracked => ChangeStatus::Untracked,
        }
    }
}

impl Clone for ChangedFile {
    fn clone(&self) -> (r: Self)
        ensures
            r@ == self@,
    {
        ChangedFile { path: self.path.clone(), status: self.status.clone() }
    }
}

/// The values of a list of changes.
pub open spec fn change_views(changes: Seq<ChangedFile>) -> Seq<ChangeView> {
    changes.map_values(|change: ChangedFile| change@)
}

/// One entry in the source-control "graph" (commit history) list. A single
/// `git log --graph` line is either a commit (`sha` is `Some`) or a pure
/// connector line drawing the graph between commits (`sha` is `None`).
#[derive(Debug, PartialEq, Eq)]
pub struct CommitInfo {
    /// The graph drawing column for this line, preserved verbatim from
    /// `git log --graph` (e.g. `"* "`, `"|\\ "`, `"| | "`).
    pub graph_cell: String,
    /// Abbreviated commit hash, or `None` for a pure graph-connector line.
    pub sha: Option<String>,
    pub subject: String,
    pub author: String,
    /// Ref decorations, e.g. `["HEAD -> main", "origin/main"]`.
    pub decorations: Vec<String>,
}

/// The mathematical value of a [`CommitInfo`].
#[verifier::ext_equal]
pub struct CommitView {
    pub graph_cell: Seq<char>,
    pub sha: Option<Seq<char>>,
    pub subject: Seq<char>,
    pub author: Seq<char>,
    pub decorations: Seq<Seq<char>>,
}

/// The texts of a list of strings.
pub open spec fn texts(list: Seq<String>) -> Seq<Seq<char>> {
    list.map_values(|s: String| s@)
}

impl View for CommitInfo {
    type V = CommitView;

    open spec fn view(&self) -> CommitView {
        CommitView {
            graph_cell: self.graph_cell@,
            sha: match self.sha {
                Some(sha) => Some(sha@),
                None => None,
            },
            subject: self.subject@,
            author: self.author@,
            decorations: texts(self.decorations@),
        }
    }
}

/// The values of a list of graph rows.
pub open spec fn commit_views(commits: Seq<CommitInfo>) -> Seq<CommitView> {
    commits.map_values(|commit: CommitInfo| commit@)
}

/// Upper bound on the number of changed files tracked per workspace. A repo
/// with a colossal working tree (e.g. a fresh checkout with everything
/// untracked) should not be allowed to grow the cache without limit.
pub const MAX_CHANGED_FILES: usize = 5000;

/// Default number of commits loaded into the graph section. "Load more" bumps
/// the window in increments of the same size.
pub const DEFAULT_LOADED_COMMIT_COUNT: usize = 50;

/// Field separator embedded in the `git log` format so subjects, authors, and
/// refs containing spaces parse unambiguously. The ASCII unit separator never
/// appears in normal commit metadata.
pub const LOG_FIELD_SEP: char = '\u{1f}';

/// The single display status of an ordinary entry, from its `XY` field: the
/// unstaged state `y`, or the staged state `x` where nothing is unstaged.
pub open spec fn ordinary(x: char, y: char) -> StatusView {
    let pick = if y != '.' {
        y
    } else {
        x
    };
    if pick == 'A' || pick == 'C' {
        StatusView::Added
    } else if pick == 'D' {
        StatusView::Deleted
    } else if pick == 'U' {
        StatusView::Unmerged
    } else {
        StatusView::Modified
    }
}

/// Map an ordinary entry's `XY` field to a single display status. `X` is the
/// staged (index-vs-HEAD) state, `Y` is the unstaged (worktree-vs-index) state.
/// The worktree change is preferred when present, falling back to the staged
/// one.
pub fn ordinary_status(x: char, y: char) -> (status: ChangeStatus)
    ensures
        status@ == ordinary(x, y),
{
    let pick = if y != '.' {
        y
    } else {
        x
    };
    if pick == 'A' || pick == 'C' {
        ChangeStatus::Added
    } else if pick == 'D' {
        ChangeStatus::Deleted
    } else if pick == 'U' {
        ChangeStatus::Unmerged
    } else {
        // 'M' (modified), 'T' (type change), and anything else: the most useful
        // generic label.
        ChangeStatus::Modified
    }
}

/// What follows the entry kind and the one-byte separator behind it. Nothing
/// does where the line ends first or the second character is longer.
pub open spec fn entry_rest(line: Seq<char>) -> Option<Seq<char>> {
    if line.len() >= 2 && (line[1] as u32) < 0x80 {
        Some(line.skip(2))
    } else {
        None
    }
}

/// The change that one line of `git status --porcelain=v2` reports. Header
/// lines, ignored entries and lines that lack fields report none.
pub open spec fn status_entry(line: Seq<char>) -> Option<ChangeView> {
    if line.len() == 0 {
        None
    } else {
        match entry_rest(line) {
            None => None,
            Some(rest) => if line[0] == '1' {
                let fields = first_pieces(rest, 8, ' ');
                if fields.len() == 8 && fields[0].len() >= 2 {
                    Some(
                        ChangeView {
                            path: encode_utf8(fields[7]),
                            status: ordinary(fields[0][0], fields[0][1]),
                        },
                    )
                } else {
                    None
                }
            } else if line[0] == '2' {
                let fields = first_pieces(rest, 9, ' ');
                let tab = index_of(fields[8], '\t');
                if fields.len() == 9 && tab < fields[8].len() {
                    Some(
                        ChangeView {
                            path: encode_utf8(fields[8].take(tab)),
                            status: StatusView::Renamed {
                                from: encode_utf8(fields[8].skip(tab + 1)),
                            },
                        },
                    )
                } else {
                    None
                }
            } else if line[0] == 'u' {
                let fields = first_pieces(rest, 10, ' ');
                if fields.len() == 10 {
                    Some(ChangeView { path: encode_utf8(fields[9]), status: StatusView::Unmerged })
                } else {
                    None
                }
            } else if line[0] == '?' {
                Some(ChangeView { path: encode_utf8(rest), status: StatusView::Untracked })
            } else {
                None
            },
        }
    }
}

fn path_from(chars: &[char]) -> (path: FsPath)
    ensures
        path@ == encode_utf8(chars@),
{
    FsPath::from_text(from_chars(chars).as_str())
}

/// The number of pieces lies between one and the bound.
pub proof fn lemma_first_pieces_len(s: Seq<char>, n: nat, sep: char)
    requires
        n >= 1,
    ensures
        1 <= first_pieces(s, n, sep).len() <= n,
    decreases n,
{
    let at = index_of(s, sep);
    if n > 1 && at < s.len() {
        lemma_first_pieces_len(s.skip(at + 1), (n - 1) as nat, sep);
    }
}

/// Parse one line of `git status --porcelain=v2`.
pub fn parse_porcelain_v2_line(line: &[char]) -> (entry: Option<ChangedFile>)
    ensures
        entry is Some <==> status_entry(line@) is Some,
        entry matches Some(change) ==> status_entry(line@) == Some(change@),
{
    if line.len() < 2 || (line[1] as u32) >= 0x80 {
        return None;
    }
    let kind: char = line[0];
    let rest = slice_subrange(line, 2, line.len());
    assert(rest@ == line@.skip(2));
    if kind == '1' {
        // Ordinary changed entry:
        //   1 <XY> <sub> <mH> <mI> <mW> <hH> <hI> <path>
        let fields = split_first(rest, 8, ' ');
        proof {
            lemma_first_pieces_len(rest@, 8, ' ');
            assert(views(fields@).len() == fields@.len());
        }
        if fields.len() < 8 {
            return None;
        }
        let xy = fields[0];
        let path = fields[7];
        assert(xy@ == views(fields@)[0] && path@ == views(fields@)[7]);
        if xy.len() < 2 {
            return None;
        }
        Some(ChangedFile { path: path_from(path), status: ordinary_status(xy[0], xy[1]) })
    } else if kind == '2' {
        // Renamed or copied entry:
        //   2 <XY> <sub> <mH> <mI> <mW> <hH> <hI> <Xscore> <path>\t<origPath>
        let fields = split_first(rest, 9, ' ');
        proof {
            lemma_first_pieces_len(rest@, 9, ' ');
            assert(views(fields@).len() == fields@.len());
        }
        if fields.len() < 9 {
            return None;
        }
        let paths = fields[8];
        assert(paths@ == views(fields@)[8]);
        let tab: usize = find_char(paths, '\t');
        if tab == paths.len() {
            return None;
        }
        let new_path = slice_subrange(paths, 0, tab);
        let orig_path = slice_subrange(paths, tab + 1, paths.len());
        assert(new_path@ == paths@.take(tab as int));
        assert(orig_path@ == paths@.skip(tab + 1));
        Some(
            ChangedFile {
                path: path_from(new_path),
                status: ChangeStatus::Renamed { from: path_from(orig_path) },
            },
        )
    } else if kind == 'u' {
        // Unmerged entry:
        //   u <XY> <sub> <m1> <m2> <m3> <mW> <h1> <h2> <h3> <path>
        let fields = split_first(rest, 10, ' ');
        proof {
            lemma_first_pieces_len(rest@, 10, ' ');
            assert(views(fields@).len() == fields@.len());
        }
        if fields.len() < 10 {
            return None;
        }
        let path = fields[9];
        assert(path@ == views(fields@)[9]);
        Some(ChangedFile { path: path_from(path), status: ChangeStatus::Unmerged })
    } else if kind == '?' {
        // Untracked entry: `? <path>`
        Some(ChangedFile { path: path_from(rest), status: ChangeStatus::Untracked })
    } else {
        // Ignored entries (`!`) and header lines (`#`) are not surfaced.
        None
    }
}

/// The changes that the lines of `git status --porcelain=v2` report, in order.
pub open spec fn status_entries(list: Seq<Seq<char>>) -> Seq<ChangeView>
    decreases list.len(),
{
    if list.len() == 0 {
        seq![]
    } else {
        match status_entry(list.last()) {
            Some(entry) => status_entries(list.drop_last()).push(entry),
            None => status_entries(list.drop_last()),
        }
    }
}

/// The changes that the lines of `git show --name-status` report, in order.
pub open spec fn name_status_entries(list: Seq<Seq<char>>) -> Seq<ChangeView>
    decreases list.len(),
{
    if list.len() == 0 {
        seq![]
    } else {
        match name_status_entry(list.last()) {
            Some(entry) => name_status_entries(list.drop_last()).push(entry),
            None => name_status_entries(list.drop_last()),
        }
    }
}

/// As much of a list of changes as a workspace tracks.
pub open spec fn capped(entries: Seq<ChangeView>) -> Seq<ChangeView> {
    if entries.len() <= MAX_CHANGED_FILES {
        entries
    } else {
        entries.take(MAX_CHANGED_FILES as int)
    }
}

/// A line without carriage returns at its end.
pub open spec fn without_trailing_returns(line: Seq<char>) -> Seq<char>
    decreases line.len(),
{
    if line.len() > 0 && line.last() == '\r' {
        without_trailing_returns(line.drop_last())
    } else {
        line
    }
}

/// The change that one line of `git show --name-status` reports: a status code
/// and tab-separated paths.
pub open spec fn name_status_entry(line: Seq<char>) -> Option<ChangeView> {
    let fields = pieces(without_trailing_returns(line), '\t');
    if fields[0].len() == 0 {
        None
    } else {
        let code = fields[0][0];
        if code == 'R' {
            if fields.len() >= 3 {
                Some(
                    ChangeView {
                        path: encode_utf8(fields[2]),
                        status: StatusView::Renamed { from: encode_utf8(fields[1]) },
                    },
                )
            } else {
                None
            }
        } else if code == 'C' {
            if fields.len() >= 3 {
                Some(ChangeView { path: encode_utf8(fields[2]), status: StatusView::Added })
            } else {
                None
            }
        } else if fields.len() >= 2 {
            Some(
                ChangeView {
                    path: encode_utf8(fields[1]),
                    status: if code == 'A' {
                        StatusView::Added
                    } else if code == 'D' {
                        StatusView::Deleted
                    } else if code == 'U' {
                        StatusView::Unmerged
                    } else {
                        StatusView::Modified
                    },
                },
            )
        } else {
            None
        }
    }
}

/// The entries of a longer list start with those of a shorter one.
proof fn lemma_status_entries_prefix(list: Seq<Seq<char>>, n: int)
    requires
        0 <= n <= list.len(),
    ensures
        status_entries(list.take(n)).is_prefix_of(status_entries(list)),
    decreases list.len() - n,
{
    if n < list.len() {
        lemma_status_entries_prefix(list, n + 1);
        assert(list.take(n + 1).drop_last() == list.take(n));
    } else {
        assert(list.take(n) == list);
    }
}

proof fn lemma_name_status_entries_prefix(list: Seq<Seq<char>>, n: int)
    requires
        0 <= n <= list.len(),
    ensures
        name_status_entries(list.take(n)).is_prefix_of(name_status_entries(list)),
    decreases list.len() - n,
{
    if n < list.len() {
        lemma_name_status_entries_prefix(list, n + 1);
        assert(list.take(n + 1).drop_last() == list.take(n));
    } else {
        assert(list.take(n) == list);
    }
}

/// Parse the stdout of `git status --porcelain=v2`. See `man git-status`
/// ("Porcelain Format Version 2") for the field layout. Unrecognized lines
/// (header lines, ignored entries) are skipped.
pub fn parse_git_status_porcelain_v2(stdout: &str) -> (changes: Vec<ChangedFile>)
    ensures
        change_views(changes@) == capped(status_entries(lines(stdout@))),
{
    let chars = to_chars(stdout);
    let list = split_lines(chars.as_slice());
    let mut changes: Vec<ChangedFile> = Vec::new();
    let ghost all = views(list@);
    let mut i: usize = 0;
    assert(all.take(0) == Seq::<Seq<char>>::empty());
    assert(change_views(changes@) == Seq::<ChangeView>::empty());
    while i < list.len() && changes.len() < MAX_CHANGED_FILES
        invariant
            i <= list@.len(),
            all == views(list@),
            changes@.len() <= MAX_CHANGED_FILES,
            change_views(changes@) == status_entries(all.take(i as int)),
        decreases list@.len() - i,
    {
        let line = list[i];
        assert(line@ == all[i as int]);
        assert(all.take(i + 1).drop_last() == all.take(i as int));
        let ghost before = changes@;
        if let Some(entry) = parse_porcelain_v2_line(line) {
            changes.push(entry);
            assert(change_views(changes@) == change_views(before).push(entry@));
        }
        i += 1;
    }
    proof {
        lemma_status_entries_prefix(all, i as int);
        assert(all.take(all.len() as int) == all);
        assert(change_views(changes@).len() == changes@.len());
    }
    changes
}

/// Parse one line of the `--name-status` body of `git show`.
fn parse_name_status_line(line: &[char]) -> (entry: Option<ChangedFile>)
    ensures
        entry is Some <==> name_status_entry(line@) is Some,
        entry matches Some(change) ==> name_status_entry(line@) == Some(change@),
{
    let mut end: usize = line.len();
    assert(line@.take(end as int) == line@);
    while end > 0 && line[end - 1] == '\r'
        invariant
            end <= line@.len(),
            without_trailing_returns(line@) == without_trailing_returns(line@.take(end as int)),
        decreases end,
    {
        end -= 1;
        assert(line@.take(end + 1).drop_last() == line@.take(end as int));
    }
    let line = slice_subrange(line, 0, end);
    let fields = split(line, '\t');
    proof {
        lemma_pieces_len(line@, '\t');
        assert(views(fields@).len() == fields@.len());
        assert(fields@[0]@ == views(fields@)[0]);
        if fields@.len() > 1 {
            assert(fields@[1]@ == views(fields@)[1]);
        }
        if fields@.len() > 2 {
            assert(fields@[2]@ == views(fields@)[2]);
        }
    }
    if fields[0].len() == 0 {
        return None;
    }
    let code: char = fields[0][0];
    if code == 'R' {
        // Rename: `R<score>\t<from>\t<to>`.
        if fields.len() < 3 {
            return None;
        }
        Some(
            ChangedFile {
                path: path_from(fields[2]),
                status: ChangeStatus::Renamed { from: path_from(fields[1]) },
            },
        )
    } else if code == 'C' {
        // Copy: `C<score>\t<src>\t<dst>`; the new file is an addition.
        if fields.len() < 3 {
            return None;
        }
        Some(ChangedFile { path: path_from(fields[2]), status: ChangeStatus::Added })
    } else {
        if fields.len() < 2 {
            return None;
        }
        let status = if code == 'A' {
            ChangeStatus::Added
        } else if code == 'D' {
            ChangeStatus::Deleted
        } else if code == 'U' {
            ChangeStatus::Unmerged
        } else {
            // 'M', 'T' (type change), and anything else.
            ChangeStatus::Modified
        };
        Some(ChangedFile { path: path_from(fields[1]), status })
    }
}

/// There is at least one piece.
pub proof fn lemma_pieces_len(s: Seq<char>, sep: char)
    ensures
        pieces(s, sep).len() >= 1,
{
}

/// Parse the `--name-status` body of `git show`/`git diff-tree`. Each line is a
/// tab-separated status code and path(s): `M\tpath`, `A\tpath`, `D\tpath`, or
/// `R100\told\tnew` / `C100\tsrc\tdst` for renames and copies. Blank lines (the
/// empty `--format=` header) are skipped.
pub fn parse_commit_name_status(stdout: &str) -> (changes: Vec<ChangedFile>)
    ensures
        change_views(changes@) == capped(name_status_entries(lines(stdout@))),
{
    let chars = to_chars(stdout);
    let list = split_lines(chars.as_slice());
    let mut changes: Vec<ChangedFile> = Vec::new();
    let ghost all = views(list@);
    let mut i: usize = 0;
    assert(all.take(0) == Seq::<Seq<char>>::empty());
    assert(change_views(changes@) == Seq::<ChangeView>::empty());
    while i < list.len() && changes.len() < MAX_CHANGED_FILES
        invariant
            i <= list@.len(),
            all == views(list@),
            changes@.len() <= MAX_CHANGED_FILES,
            change_views(changes@) == name_status_entries(all.take(i as int)),
        decreases list@.len() - i,
    {
        let line = list[i];
        assert(line@ == all[i as int]);
        assert(all.take(i + 1).drop_last() == all.take(i as int));
        let ghost before = changes@;
        if let Some(entry) = parse_name_status_line(line) {
            changes.push(entry);
            assert(change_views(changes@) == change_views(before).push(entry@));
        }
        i += 1;
    }
    proof {
        lemma_name_status_entries_prefix(all, i as int);
        assert(all.take(all.len() as int) == all);
        assert(change_views(changes@).len() == changes@.len());
    }
    changes
}

/// The glyphs that `git log --graph` uses to draw the commit graph column. The
/// commit payload begins at the first character outside this set.
pub open spec fn graph_glyph(c: char) -> bool {
    c == '*' || c == '|' || c == '/' || c == '\\' || c == '_' || c == '-' || c == '.' || c == ' '
}

/// Whether `c` is one of the glyphs that draw the commit graph.
pub fn is_graph_glyph(c: char) -> (r: bool)
    ensures
        r == graph_glyph(c),
{
    c == '*' || c == '|' || c == '/' || c == '\\' || c == '_' || c == '-' || c == '.' || c == ' '
}

/// The length of the graph column at the start of a line.
pub open spec fn graph_width(line: Seq<char>) -> int
    decreases line.len(),
{
    if line.len() == 0 || !graph_glyph(line[0]) {
        0
    } else {
        1 + graph_width(line.skip(1))
    }
}

/// The texts of `list` without surrounding white space, those that are empty
/// then left out.
pub open spec fn trimmed_texts(list: Seq<Seq<char>>) -> Seq<Seq<char>>
    decreases list.len(),
{
    if list.len() == 0 {
        seq![]
    } else {
        let rest = trimmed_texts(list.drop_last());
        let last = trimmed(list.last());
        if last.len() == 0 {
            rest
        } else {
            rest.push(last)
        }
    }
}

/// `s` without an opening bracket at its start.
pub open spec fn without_opening(s: Seq<char>) -> Seq<char> {
    if s.len() > 0 && s[0] == '(' {
        s.skip(1)
    } else {
        s
    }
}

/// `s` without a closing bracket at its end.
pub open spec fn without_closing(s: Seq<char>) -> Seq<char> {
    if s.len() > 0 && s.last() == ')' {
        s.drop_last()
    } else {
        s
    }
}

/// The ref decorations that git's `%d` field lists.
pub open spec fn decorations_of(field: Seq<char>) -> Seq<Seq<char>> {
    trimmed_texts(pieces(trimmed(without_closing(without_opening(trimmed(field)))), ','))
}

/// The field at position `i`, or the empty text where there are fewer fields.
pub open spec fn field_at(fields: Seq<Seq<char>>, i: int) -> Seq<char> {
    if 0 <= i < fields.len() {
        fields[i]
    } else {
        seq![]
    }
}

/// The graph row that one line of `git log --graph` describes. A line with
/// commit content contains the field separator, a pure connector line does not.
pub open spec fn graph_row(line: Seq<char>) -> CommitView {
    if !line.contains(LOG_FIELD_SEP) {
        CommitView {
            graph_cell: line,
            sha: None,
            subject: seq![],
            author: seq![],
            decorations: seq![],
        }
    } else {
        let width = graph_width(line);
        let fields = first_pieces(line.skip(width), 4, LOG_FIELD_SEP);
        CommitView {
            graph_cell: line.take(width),
            sha: Some(trimmed(fields[0])),
            author: field_at(fields, 1),
            decorations: decorations_of(field_at(fields, 2)),
            subject: field_at(fields, 3),
        }
    }
}

/// The graph rows that `list` describes.
pub open spec fn graph_rows(list: Seq<Seq<char>>) -> Seq<CommitView> {
    list.map_values(|line: Seq<char>| graph_row(line))
}

/// The number of commits among `rows`.
pub open spec fn commit_count(rows: Seq<CommitView>) -> nat
    decreases rows.len(),
{
    if rows.len() == 0 {
        0
    } else {
        commit_count(rows.drop_last()) + if rows.last().sha is Some {
            1nat
        } else {
            0
        }
    }
}

/// Whether `shown` is what a window of `limit` commits shows of `rows`: all of
/// them, or those before the first commit that no longer fits, in which case
/// there is more.
pub open spec fn is_log_window(
    rows: Seq<CommitView>,
    limit: nat,
    shown: Seq<CommitView>,
    more: bool,
) -> bool {
    &&& shown.len() <= rows.len()
    &&& shown == rows.take(shown.len() as int)
    &&& commit_count(shown) <= limit
    &&& !more ==> shown.len() == rows.len()
    &&& more ==> shown.len() < rows.len() && commit_count(shown) == limit && rows[
        shown.len() as int].sha is Some
}

/// The texts of `list` without surrounding white space, those that are empty
/// then left out.
fn trim_texts(list: &Vec<&[char]>) -> (out: Vec<String>)
    ensures
        texts(out@) == trimmed_texts(views(list@)),
{
    let mut out: Vec<String> = Vec::new();
    let ghost all = views(list@);
    assert(texts(out@) == Seq::<Seq<char>>::empty());
    assert(all.take(0) == Seq::<Seq<char>>::empty());
    let mut i: usize = 0;
    while i < list.len()
        invariant
            i <= list@.len(),
            all == views(list@),
            texts(out@) == trimmed_texts(all.take(i as int)),
        decreases list@.len() - i,
    {
        let text = trim(list[i]);
        let ghost before = out@;
        assert(all.take(i + 1).drop_last() == all.take(i as int));
        assert(all.take(i + 1).last() == list@[i as int]@);
        if text.len() > 0 {
            let text = from_chars(text);
            out.push(text);
            assert(texts(out@) == texts(before).push(text@));
        }
        i += 1;
    }
    assert(all.take(i as int) == all);
    out
}

/// The decorations that a ref-decoration field lists.
fn decorations_in(field: &[char]) -> (decorations: Vec<String>)
    ensures
        texts(decorations@) == decorations_of(field@),
{
    let field = trim(field);
    let field = if field.len() > 0 && field[0] == '(' {
        slice_subrange(field, 1, field.len())
    } else {
        field
    };
    let field = if field.len() > 0 && field[field.len() - 1] == ')' {
        slice_subrange(field, 0, field.len() - 1)
    } else {
        field
    };
    let field = trim(field);
    trim_texts(&split(field, ','))
}

/// Split git's `%d` ref-decoration field (e.g. ` (HEAD -> main, origin/main)`)
/// into individual decorations. There are none when there are no refs.
pub fn parse_log_decorations(field: &str) -> (decorations: Vec<String>)
    ensures
        texts(decorations@) == decorations_of(field@),
{
    let chars = to_chars(field);
    decorations_in(chars.as_slice())
}

/// Parse one line of `git log --graph`.
pub fn parse_log_graph_line(line: &[char]) -> (row: CommitInfo)
    ensures
        row@ == graph_row(line@),
{
    let sep: usize = find_char(line, LOG_FIELD_SEP);
    proof {
        lemma_index_of_bounds(line@, LOG_FIELD_SEP);
    }
    if sep == line.len() {
        assert(!line@.contains(LOG_FIELD_SEP));
        let row = CommitInfo {
            graph_cell: from_chars(line),
            sha: None,
            subject: String::new(),
            author: String::new(),
            decorations: Vec::new(),
        };
        assert(texts(row.decorations@) == Seq::<Seq<char>>::empty());
        assert(row.subject@ == Seq::<char>::empty());
        assert(row.author@ == Seq::<char>::empty());
        return row;
    }
    assert(line@[sep as int] == LOG_FIELD_SEP);
    let mut width: usize = 0;
    assert(line@.skip(0) == line@);
    while width < line.len() && is_graph_glyph(line[width])
        invariant
            width <= line@.len(),
            graph_width(line@) == width + graph_width(line@.skip(width as int)),
        decreases line@.len() - width,
    {
        assert(line@.skip(width as int).skip(1) == line@.skip(width + 1));
        width += 1;
    }
    let graph_cell = slice_subrange(line, 0, width);
    let content = slice_subrange(line, width, line.len());
    assert(graph_cell@ == line@.take(width as int));
    assert(content@ == line@.skip(width as int));
    let fields = split_first(content, 4, LOG_FIELD_SEP);
    proof {
        lemma_first_pieces_len(content@, 4, LOG_FIELD_SEP);
        assert(views(fields@).len() == fields@.len());
        assert forall|i: int| 0 <= i < fields@.len() implies #[trigger] views(fields@)[i]
            == fields@[i]@ by {}
    }
    let sha = from_chars(trim(fields[0]));
    let author = if fields.len() > 1 {
        from_chars(fields[1])
    } else {
        String::new()
    };
    let decorations = if fields.len() > 2 {
        decorations_in(fields[2])
    } else {
        let none: [char; 0] = [];
        assert(none@ == Seq::<char>::empty());
        decorations_in(&none)
    };
    let subject = if fields.len() > 3 {
        from_chars(fields[3])
    } else {
        String::new()
    };
    let row = CommitInfo { graph_cell: from_chars(graph_cell), sha: Some(sha), subject, author, decorations };
    assert(row@ =~= graph_row(line@));
    row
}

/// Parse the stdout of `git log --graph --pretty=format:%h<US>%an<US>%d<US>%s`,
/// keeping at most `limit` commits. Connector-only lines (no commit content) are
/// preserved verbatim so the graph renders correctly. The flag beside the rows
/// tells whether a commit beyond the limit was present, which the caller finds
/// out by requesting one extra commit.
pub fn parse_git_log_graph(stdout: &str, limit: usize) -> (result: (Vec<CommitInfo>, bool))
    ensures
        is_log_window(
            graph_rows(lines(stdout@)),
            limit as nat,
            commit_views(result.0@),
            result.1,
        ),
{
    let chars = to_chars(stdout);
    let list = split_lines(chars.as_slice());
    let ghost rows = graph_rows(views(list@));
    let mut entries: Vec<CommitInfo> = Vec::new();
    let mut count: usize = 0;
    let mut has_more = false;
    assert(commit_views(entries@) == rows.take(0));
    let mut i: usize = 0;
    while i < list.len() && !has_more
        invariant
            i <= list@.len(),
            rows == graph_rows(views(list@)),
            count <= limit,
            entries@.len() == i,
            count == commit_count(rows.take(i as int)),
            commit_views(entries@) == rows.take(i as int),
            has_more ==> i < list@.len() && count == limit && rows[i as int].sha is Some,
        decreases list@.len() - i, if has_more { 0int } else { 1 },
    {
        let entry = parse_log_graph_line(list[i]);
        assert(entry@ == rows[i as int]);
        assert(rows.take(i + 1).drop_last() == rows.take(i as int));
        assert(rows.take(i + 1).last() == rows[i as int]);
        if entry.sha.is_some() && count >= limit {
            // The extra commit: history extends past the window.
            has_more = true;
        } else {
            if entry.sha.is_some() {
                count += 1;
            }
            let ghost before = entries@;
            entries.push(entry);
            assert(commit_views(entries@) == commit_views(before).push(entry@));
            i += 1;
        }
    }
    assert(rows.take(rows.len() as int) == rows);
    (entries, has_more)
}

/// The texts of an argument vector that runs `git_cmd` in a shell, pipes its
/// output into the pager, and hands over the repository and the targets as
/// positional parameters.
pub open spec fn pager_argv(
    git_cmd: Seq<char>,
    cwd: Seq<u8>,
    targets: Seq<Seq<char>>,
) -> Seq<Seq<char>> {
    seq!["sh"@, "-c"@, git_cmd + " | LESS=-R less"@, "sh"@, lossy_text(cwd)] + targets
}

/// The script that the shell parses does not depend on the repository or the
/// targets, which are handed over as they are.
pub proof fn law_pager_script_is_free_of_targets(
    git_cmd: Seq<char>,
    cwd1: Seq<u8>,
    targets1: Seq<Seq<char>>,
    cwd2: Seq<u8>,
    targets2: Seq<Seq<char>>,
)
    ensures
        pager_argv(git_cmd, cwd1, targets1).take(4) == pager_argv(git_cmd, cwd2, targets2).take(4),
        pager_argv(git_cmd, cwd1, targets1).take(4) == seq![
            "sh"@,
            "-c"@,
            git_cmd + " | LESS=-R less"@,
            "sh"@,
        ],
        pager_argv(git_cmd, cwd1, targets1)[4] == lossy_text(cwd1),
        pager_argv(git_cmd, cwd1, targets1).skip(5) == targets1,
{
    assert(pager_argv(git_cmd, cwd1, targets1).take(4) =~= pager_argv(
        git_cmd,
        cwd2,
        targets2,
    ).take(4));
    assert(pager_argv(git_cmd, cwd1, targets1).skip(5) =~= targets1);
}

/// Wrap a git command in a `sh -c` that pipes its colored output into an
/// interactive pager, so the diff pane stays open and scrollable.
///
/// A bare `git show`/`git diff` is one-shot: with no pager configured (or a
/// pager that quits on short output) it exits the instant it finishes printing,
/// which tears the pane down before it can be read. Piping into `less` keeps the
/// pane alive regardless of the user's git pager config: `q` quits the pager,
/// which then closes the pane. `LESS=-R` renders the ANSI colors and overrides
/// any inherited `-F`/`--quit-if-one-screen` so short diffs do not auto-close.
///
/// `git_cmd` must reference the repo via `"$1"` and its targets (file/sha) via
/// `"$2"`, `"$3"` and so on; all are passed as `sh` positional parameters so
/// paths and refs with spaces or shell metacharacters are never re-parsed by the
/// shell.
pub fn pager_wrapped_argv(
    git_cmd: &str,
    cwd: &FsPath,
    targets: Vec<String>,
) -> (argv: Vec<String>)
    ensures
        texts(argv@) == pager_argv(git_cmd@, cwd@, texts(targets@)),
        valid_utf8(cwd@) ==> texts(argv@)[4] == decode_utf8(cwd@),
{
    let mut script = git_cmd.to_string();
    script.append(" | LESS=-R less");
    let mut argv: Vec<String> = Vec::new();
    argv.push("sh".to_string());
    argv.push("-c".to_string());
    argv.push(script);
    argv.push("sh".to_string());
    argv.push(cwd.to_text());
    let mut targets = targets;
    argv.append(&mut targets);
    argv
}

/// Build the argv that opens a changed file's diff in a new pane. Tracked files
/// diff against `HEAD`; untracked files diff against `/dev/null` (which renders
/// the whole file as an addition). `cwd` is the workspace's resolved git
/// identity directory, passed via `-C` so the command is independent of the new
/// pane's working directory.
pub fn changed_file_diff_argv(cwd: &FsPath, change: &ChangedFile) -> (argv: Vec<String>)
    ensures
        change.status is Untracked ==> texts(argv@) == pager_argv(
            "git -C \"$1\" diff --no-index --color /dev/null \"$2\""@,
            cwd@,
            seq![lossy_text(change.path@)],
        ),
        change.status !is Untracked ==> texts(argv@) == pager_argv(
            "git -C \"$1\" diff HEAD --color -- \"$2\""@,
            cwd@,
            seq![lossy_text(change.path@)],
        ),
        valid_utf8(cwd@) ==> texts(argv@)[4] == decode_utf8(cwd@),
        valid_utf8(change.path@) ==> texts(argv@)[5] == decode_utf8(change.path@),
{
    let mut targets: Vec<String> = Vec::new();
    targets.push(change.path.to_text());
    assert(texts(targets@) == seq![lossy_text(change.path@)]);
    match change.status {
        ChangeStatus::Untracked => pager_wrapped_argv(
            "git -C \"$1\" diff --no-index --color /dev/null \"$2\"",
            cwd,
            targets,
        ),
        _ => pager_wrapped_argv("git -C \"$1\" diff HEAD --color -- \"$2\"", cwd, targets),
    }
}

/// Build the argv that opens a commit in a new pane via `git show`. `cwd` is the
/// workspace's resolved git identity directory, passed via `-C` so the command is
/// independent of the new pane's working directory.
pub fn commit_show_argv(cwd: &FsPath, sha: &str) -> (argv: Vec<String>)
    ensures
        texts(argv@) == pager_argv("git -C \"$1\" show --color \"$2\""@, cwd@, seq![sha@]),
        valid_utf8(cwd@) ==> texts(argv@)[4] == decode_utf8(cwd@),
{
    let mut targets: Vec<String> = Vec::new();
    targets.push(sha.to_string());
    assert(texts(targets@) == seq![sha@]);
    pager_wrapped_argv("git -C \"$1\" show --color \"$2\"", cwd, targets)
}

/// Build the argv that opens a single file's diff within a commit via `git show
/// <sha> -- <path>`. Used when a file row inside an expanded commit is clicked.
/// For a renamed file `change.path` is the new path, which `git show` resolves.
pub fn commit_file_diff_argv(cwd: &FsPath, sha: &str, change: &ChangedFile) -> (argv: Vec<String>)
    ensures
        texts(argv@) == pager_argv(
            "git -C \"$1\" show --color \"$2\" -- \"$3\""@,
            cwd@,
            seq![sha@, lossy_text(change.path@)],
        ),
        valid_utf8(cwd@) ==> texts(argv@)[4] == decode_utf8(cwd@),
        valid_utf8(change.path@) ==> texts(argv@)[6] == decode_utf8(change.path@),
{
    let mut targets: Vec<String> = Vec::new();
    targets.push(sha.to_string());
    targets.push(change.path.to_text());
    assert(texts(targets@) == seq![sha@, lossy_text(change.path@)]);
    pager_wrapped_argv("git -C \"$1\" show --color \"$2\" -- \"$3\"", cwd, targets)
}

/// The arguments, behind `git -C <cwd>`, that list the changed files.
pub fn changed_files_args() -> (args: Vec<String>)
    ensures
        texts(args@) == seq![
            "--no-optional-locks"@,
            "status"@,
            "--porcelain=v2"@,
            "--untracked-files=all"@,
        ],
{
    let mut args: Vec<String> = Vec::new();
    args.push("--no-optional-locks".to_string());
    args.push("status".to_string());
    args.push("--porcelain=v2".to_string());
    args.push("--untracked-files=all".to_string());
    assert(texts(args@).len() == 4);
    args
}

/// The arguments, behind `git -C <cwd>`, that list the files a commit touched.
pub fn commit_files_args(sha: &str) -> (args: Vec<String>)
    ensures
        texts(args@) == seq![
            "--no-optional-locks"@,
            "show"@,
            "--no-color"@,
            "--name-status"@,
            "--format="@,
            "-M"@,
            sha@,
        ],
{
    let mut args: Vec<String> = Vec::new();
    args.push("--no-optional-locks".to_string());
    args.push("show".to_string());
    args.push("--no-color".to_string());
    args.push("--name-status".to_string());
    args.push("--format=".to_string());
    args.push("-M".to_string());
    args.push(sha.to_string());
    assert(texts(args@).len() == 7);
    args
}

/// The number of commits that a request for `count` loads: at least one.
pub open spec fn commit_limit(count: usize) -> usize {
    if count == 0 {
        1
    } else {
        count
    }
}

/// The arguments, behind `git -C <cwd>`, that print the commit graph. One commit
/// more than the window holds is requested, to tell whether more history exists.
pub fn commits_args(count: usize) -> (args: Vec<String>)
    ensures
        texts(args@) == seq![
            "--no-optional-locks"@,
            "log"@,
            "--graph"@,
            "--color=never"@,
            "--pretty=format:%h\u{1f}%an\u{1f}%d\u{1f}%s"@,
            "-n"@ + digits(
                if commit_limit(count) == usize::MAX {
                    usize::MAX as nat
                } else {
                    (commit_limit(count) + 1) as nat
                },
                10,
            ),
        ],
{
    let limit: usize = if count == 0 {
        1
    } else {
        count
    };
    let n: usize = if limit == usize::MAX {
        usize::MAX
    } else {
        limit + 1
    };
    let mut number = "-n".to_string();
    number.append(decimal(n).as_str());
    let mut args: Vec<String> = Vec::new();
    args.push("--no-optional-locks".to_string());
    args.push("log".to_string());
    args.push("--graph".to_string());
    args.push("--color=never".to_string());
    args.push("--pretty=format:%h\u{1f}%an\u{1f}%d\u{1f}%s".to_string());
    args.push(number);
    assert(texts(args@).len() == 6);
    args
}

/// The changed files that git reported on its standard output; none if git is
/// unavailable or the command failed, for which there is no output.
pub fn changed_files_from_output(stdout: Option<Vec<u8>>) -> (changes: Vec<ChangedFile>)
    ensures
        stdout is None ==> changes@.len() == 0,
        stdout matches Some(bytes) ==> change_views(changes@) == capped(
            status_entries(lines(lossy_text(bytes@))),
        ),
{
    match stdout {
        Some(bytes) => parse_git_status_porcelain_v2(to_text_lossy(&bytes).as_str()),
        None => Vec::new(),
    }
}

/// The files of a commit that git reported on its standard output; none if git
/// is unavailable or the command failed, for which there is no output.
pub fn commit_files_from_output(stdout: Option<Vec<u8>>) -> (changes: Vec<ChangedFile>)
    ensures
        stdout is None ==> changes@.len() == 0,
        stdout matches Some(bytes) ==> change_views(changes@) == capped(
            name_status_entries(lines(lossy_text(bytes@))),
        ),
{
    match stdout {
        Some(bytes) => parse_commit_name_status(to_text_lossy(&bytes).as_str()),
        None => Vec::new(),
    }
}

/// The commit graph that git printed on its standard output, with whether the
/// repository has history beyond the `count` requested commits; empty if git is
/// unavailable or the command failed, for which there is no output.
pub fn commits_from_output(stdout: Option<Vec<u8>>, count: usize) -> (result: (
    Vec<CommitInfo>,
    bool,
))
    ensures
        stdout is None ==> result.0@.len() == 0 && !result.1,
        stdout matches Some(bytes) ==> is_log_window(
            graph_rows(lines(lossy_text(bytes@))),
            commit_limit(count) as nat,
            commit_views(result.0@),
            result.1,
        ),
{
    let limit: usize = if count == 0 {
        1
    } else {
        count
    };
    match stdout {
        Some(bytes) => parse_git_log_graph(to_text_lossy(&bytes).as_str(), limit),
        None => (Vec::new(), false),
    }
}

/// A commit row and the rows before it hold one commit more than the rows before
/// it, so fewer rows never hold more commits.
proof fn lemma_commit_count_grows(rows: Seq<CommitView>, m: int, n: int)
    requires
        0 <= m <= n <= rows.len(),
    ensures
        commit_count(rows.take(m)) <= commit_count(rows.take(n)),
        m < n && rows[m].sha is Some ==> commit_count(rows.take(m)) < commit_count(rows.take(n)),
    decreases n - m,
{
    if m < n {
        lemma_commit_count_grows(rows, m + 1, n);
        assert(rows.take(m + 1).drop_last() == rows.take(m));
    }
}

/// What a window shows of a commit graph: as many commits as the limit admits,
/// and the flag for more history exactly when the graph holds more commits than
/// that.
pub proof fn law_log_window_counts(
    rows: Seq<CommitView>,
    limit: nat,
    shown: Seq<CommitView>,
    more: bool,
)
    requires
        is_log_window(rows, limit, shown, more),
    ensures
        more <==> commit_count(rows) > limit,
        commit_count(shown) == if commit_count(rows) > limit {
            limit
        } else {
            commit_count(rows)
        },
{
    assert(rows.take(rows.len() as int) == rows);
    lemma_commit_count_grows(rows, shown.len() as int, rows.len() as int);
}

/// The graph and the limit alone decide what a window shows.
pub proof fn law_log_window_unique(
    rows: Seq<CommitView>,
    limit: nat,
    shown1: Seq<CommitView>,
    more1: bool,
    shown2: Seq<CommitView>,
    more2: bool,
)
    requires
        is_log_window(rows, limit, shown1, more1),
        is_log_window(rows, limit, shown2, more2),
    ensures
        shown1 == shown2,
        more1 == more2,
{
    law_log_window_counts(rows, limit, shown1, more1);
    law_log_window_counts(rows, limit, shown2, more2);
    if shown1.len() < shown2.len() {
        lemma_commit_count_grows(rows, shown1.len() as int, shown2.len() as int);
    } else if shown2.len() < shown1.len() {
        lemma_commit_count_grows(rows, shown2.len() as int, shown1.len() as int);
    }
}

/// A larger window shows what a smaller one showed, and goes on from there.
pub proof fn law_log_window_grows(
    rows: Seq<CommitView>,
    limit1: nat,
    shown1: Seq<CommitView>,
    more1: bool,
    limit2: nat,
    shown2: Seq<CommitView>,
    more2: bool,
)
    requires
        limit1 <= limit2,
        is_log_window(rows, limit1, shown1, more1),
        is_log_window(rows, limit2, shown2, more2),
    ensures
        shown1.is_prefix_of(shown2),
        more2 ==> more1,
{
    law_log_window_counts(rows, limit1, shown1, more1);
    law_log_window_counts(rows, limit2, shown2, more2);
    if shown2.len() < shown1.len() {
        lemma_commit_count_grows(rows, shown2.len() as int, shown1.len() as int);
    }
}

/// `fields` one after the other, each followed by `sep`.
pub open spec fn separated(fields: Seq<Seq<char>>, sep: char) -> Seq<char>
    decreases fields.len(),
{
    if fields.len() == 0 {
        seq![]
    } else {
        fields[0] + seq![sep] + separated(fields.skip(1), sep)
    }
}

/// Fields that hold no separator come back from the text that they were put
/// into, and the rest behind them comes back as it is, whatever it holds.
pub proof fn law_first_pieces_of_separated(fields: Seq<Seq<char>>, rest: Seq<char>, sep: char)
    requires
        forall|i: int| 0 <= i < fields.len() ==> !(#[trigger] fields[i]).contains(sep),
    ensures
        first_pieces(separated(fields, sep) + rest, fields.len() + 1, sep) == fields.push(rest),
    decreases fields.len(),
{
    if fields.len() == 0 {
        assert(separated(fields, sep) + rest == rest);
        assert(fields.push(rest) == seq![rest]);
    } else {
        let s = separated(fields, sep) + rest;
        let tail = fields.skip(1);
        let at = fields[0].len() as int;
        assert(s == fields[0] + seq![sep] + (separated(tail, sep) + rest));
        assert forall|j: int| 0 <= j < at implies s[j] != sep by {
            assert(fields[0].contains(fields[0][j]));
        }
        assert(s[at] == sep);
        lemma_index_of(s, sep, at);
        assert(s.take(at) == fields[0]);
        assert(s.skip(at + 1) == separated(tail, sep) + rest);
        assert forall|i: int| 0 <= i < tail.len() implies !(#[trigger] tail[i]).contains(sep) by {
            assert(tail[i] == fields[i + 1]);
        }
        law_first_pieces_of_separated(tail, rest, sep);
        assert(first_pieces(s, fields.len() + 1, sep) == seq![fields[0]] + tail.push(rest));
        assert(seq![fields[0]] + tail.push(rest) == fields.push(rest));
    }
}

/// An ordinary entry gives back its path whatever the path holds, spaces
/// included, and the status of its two state characters.
pub proof fn law_ordinary_entry(fields: Seq<Seq<char>>, path: Seq<char>)
    requires
        fields.len() == 7,
        forall|i: int| 0 <= i < fields.len() ==> !(#[trigger] fields[i]).contains(' '),
        fields[0].len() >= 2,
    ensures
        status_entry(seq!['1', ' '] + (separated(fields, ' ') + path)) == Some(
            ChangeView {
                path: encode_utf8(path),
                status: ordinary(fields[0][0], fields[0][1]),
            },
        ),
{
    let rest = separated(fields, ' ') + path;
    let line = seq!['1', ' '] + rest;
    assert(line.skip(2) == rest);
    law_first_pieces_of_separated(fields, path, ' ');
    assert(fields.push(path)[0] == fields[0]);
}

/// A renamed entry gives back both paths. Only the new path cannot hold the tab
/// that separates the two.
pub proof fn law_renamed_entry(fields: Seq<Seq<char>>, path: Seq<char>, from: Seq<char>)
    requires
        fields.len() == 8,
        forall|i: int| 0 <= i < fields.len() ==> !(#[trigger] fields[i]).contains(' '),
        !path.contains('\t'),
    ensures
        status_entry(
            seq!['2', ' '] + (separated(fields, ' ') + (path + seq!['\t'] + from)),
        ) == Some(
            ChangeView {
                path: encode_utf8(path),
                status: StatusView::Renamed { from: encode_utf8(from) },
            },
        ),
{
    let paths = path + seq!['\t'] + from;
    let rest = separated(fields, ' ') + paths;
    let line = seq!['2', ' '] + rest;
    assert(line.skip(2) == rest);
    law_first_pieces_of_separated(fields, paths, ' ');
    assert forall|j: int| 0 <= j < path.len() implies paths[j] != '\t' by {
        assert(path.contains(path[j]));
    }
    lemma_index_of(paths, '\t', path.len() as int);
    assert(paths.take(path.len() as int) == path);
    assert(paths.skip(path.len() as int + 1) == from);
}

/// An unmerged entry gives back its path whatever the path holds.
pub proof fn law_unmerged_entry(fields: Seq<Seq<char>>, path: Seq<char>)
    requires
        fields.len() == 9,
        forall|i: int| 0 <= i < fields.len() ==> !(#[trigger] fields[i]).contains(' '),
    ensures
        status_entry(seq!['u', ' '] + (separated(fields, ' ') + path)) == Some(
            ChangeView { path: encode_utf8(path), status: StatusView::Unmerged },
        ),
{
    let rest = separated(fields, ' ') + path;
    let line = seq!['u', ' '] + rest;
    assert(line.skip(2) == rest);
    law_first_pieces_of_separated(fields, path, ' ');
}

/// An untracked entry gives back its path whatever the path holds.
pub proof fn law_untracked_entry(path: Seq<char>)
    ensures
        status_entry(seq!['?', ' '] + path) == Some(
            ChangeView { path: encode_utf8(path), status: StatusView::Untracked },
        ),
{
    assert((seq!['?', ' '] + path).skip(2) == path);
}

/// Header lines and ignored entries report nothing, nor does any other line of a
/// kind that is not known.
pub proof fn law_other_lines_are_skipped(line: Seq<char>)
    requires
        line.len() > 0,
        line[0] != '1' && line[0] != '2' && line[0] != 'u' && line[0] != '?',
    ensures
        status_entry(line) is None,
{
}

/// A line of `git show --name-status` gives back its path, as long as that holds no
/// tab and does not end in a carriage return.
pub proof fn law_name_status_line(code: char, path: Seq<char>)
    requires
        code != 'R' && code != 'C' && code != '\t' && code != '\r',
        path.len() > 0 && path.last() != '\r',
        !path.contains('\t'),
    ensures
        name_status_entry(seq![code, '\t'] + path) == Some(
            ChangeView {
                path: encode_utf8(path),
                status: if code == 'A' {
                    StatusView::Added
                } else if code == 'D' {
                    StatusView::Deleted
                } else if code == 'U' {
                    StatusView::Unmerged
                } else {
                    StatusView::Modified
                },
            },
        ),
{
    let line = seq![code, '\t'] + path;
    assert(line.last() == path.last());
    lemma_index_of(line, '\t', 1);
    assert(line.take(1) == seq![code]);
    assert(line.skip(2) == path);
    lemma_whole_piece(path, '\t');
    assert(pieces(line, '\t') == seq![seq![code], path]);
}

/// What is reported for two lists of lines, one behind the other.
proof fn lemma_name_status_of_both(a: Seq<Seq<char>>, b: Seq<Seq<char>>)
    ensures
        name_status_entries(a + b) == name_status_entries(a) + name_status_entries(b),
    decreases b.len(),
{
    if b.len() == 0 {
        assert(a + b == a);
        assert(name_status_entries(a) + name_status_entries(b) == name_status_entries(a));
    } else {
        assert((a + b).drop_last() == a + b.drop_last());
        lemma_name_status_of_both(a, b.drop_last());
        assert(name_status_entries(a + b) =~= name_status_entries(a) + name_status_entries(b));
    }
}

/// Two outputs of `git show --name-status`, of which the first ends its last line,
/// report together what the first reports and then what the second does, as far as
/// changes are tracked.
pub proof fn law_name_status_of_both(a: Seq<char>, b: Seq<char>)
    requires
        a.len() == 0 || a.last() == '\n',
    ensures
        capped(name_status_entries(lines(a + b))) == capped(
            capped(name_status_entries(lines(a))) + capped(name_status_entries(lines(b))),
        ),
{
    lemma_lines_of_both(a, b);
    lemma_name_status_of_both(lines(a), lines(b));
    let first = name_status_entries(lines(a));
    let second = name_status_entries(lines(b));
    assert(capped(first + second) =~= capped(capped(first) + capped(second)));
}

/// A renamed file of `git show --name-status` gives back both paths.
pub proof fn law_name_status_rename(score: Seq<char>, from: Seq<char>, path: Seq<char>)
    requires
        !score.contains('\t'),
        !from.contains('\t'),
        !path.contains('\t'),
        path.len() > 0 && path.last() != '\r',
    ensures
        name_status_entry(
            seq!['R'] + score + seq!['\t'] + from + seq!['\t'] + path,
        ) == Some(
            ChangeView {
                path: encode_utf8(path),
                status: StatusView::Renamed { from: encode_utf8(from) },
            },
        ),
{
    let head = seq!['R'] + score;
    let rest = from + seq!['\t'] + path;
    let line = seq!['R'] + score + seq!['\t'] + from + seq!['\t'] + path;
    assert(line =~= head + seq!['\t'] + rest);
    assert(line.last() == path.last());
    assert(!head.contains('\t')) by {
        assert forall|j: int| 0 <= j < head.len() implies head[j] != '\t' by {
            if j > 0 {
                assert(head[j] == score[j - 1]);
                assert(score.contains(score[j - 1]));
            }
        }
    }
    lemma_whole_piece(path, '\t');
    lemma_first_piece(from, path, '\t');
    lemma_first_piece(head, rest, '\t');
    assert(seq![head] + (seq![from] + seq![path]) =~= seq![head, from, path]);
    assert(head[0] == 'R');
}

/// What stands in front of a separator is the first piece.
proof fn lemma_first_piece(first: Seq<char>, rest: Seq<char>, sep: char)
    requires
        !first.contains(sep),
    ensures
        pieces(first + seq![sep] + rest, sep) == seq![first] + pieces(rest, sep),
{
    let s = first + seq![sep] + rest;
    let at = first.len() as int;
    assert forall|j: int| 0 <= j < at implies s[j] != sep by {
        assert(s[j] == first[j]);
        assert(first.contains(first[j]));
    }
    lemma_index_of(s, sep, at);
    assert(s.take(at) =~= first);
    assert(s.skip(at + 1) =~= rest);
}

/// Text without a separator is one piece.
proof fn lemma_whole_piece(s: Seq<char>, sep: char)
    requires
        !s.contains(sep),
    ensures
        pieces(s, sep) == seq![s],
{
    assert forall|j: int| 0 <= j < s.len() implies s[j] != sep by {
        assert(s.contains(s[j]));
    }
    lemma_index_of(s, sep, s.len() as int);
}

/// A commit line gives back its graph column, hash, author, and subject, and the
/// subject may hold anything, further separators included.
pub proof fn law_commit_line(
    graph: Seq<char>,
    sha: Seq<char>,
    author: Seq<char>,
    refs: Seq<char>,
    subject: Seq<char>,
)
    requires
        forall|i: int| 0 <= i < graph.len() ==> graph_glyph(#[trigger] graph[i]),
        sha.len() > 0 && !graph_glyph(sha[0]),
        !sha.contains(LOG_FIELD_SEP),
        !author.contains(LOG_FIELD_SEP),
        !refs.contains(LOG_FIELD_SEP),
    ensures
        graph_row(graph + (separated(seq![sha, author, refs], LOG_FIELD_SEP) + subject)) == (
        CommitView {
            graph_cell: graph,
            sha: Some(trimmed(sha)),
            author,
            decorations: decorations_of(refs),
            subject,
        }),
{
    let fields = seq![sha, author, refs];
    let content = separated(fields, LOG_FIELD_SEP) + subject;
    let line = graph + content;
    assert(separated(fields, LOG_FIELD_SEP) == sha + seq![LOG_FIELD_SEP] + separated(
        fields.skip(1),
        LOG_FIELD_SEP,
    ));
    assert(content[0] == sha[0]);
    assert(content[sha.len() as int] == LOG_FIELD_SEP);
    assert(line[(graph.len() + sha.len()) as int] == LOG_FIELD_SEP);
    lemma_graph_width(graph, content);
    assert(line.take(graph.len() as int) == graph);
    assert(line.skip(graph.len() as int) == content);
    law_first_pieces_of_separated(fields, subject, LOG_FIELD_SEP);
    assert(fields.push(subject)[0] == sha);
}

/// The graph column ends where the content starts.
proof fn lemma_graph_width(graph: Seq<char>, content: Seq<char>)
    requires
        forall|i: int| 0 <= i < graph.len() ==> graph_glyph(#[trigger] graph[i]),
        content.len() > 0,
        !graph_glyph(content[0]),
    ensures
        graph_width(graph + content) == graph.len(),
    decreases graph.len(),
{
    if graph.len() > 0 {
        lemma_graph_width(graph.skip(1), content);
        assert((graph + content).skip(1) == graph.skip(1) + content);
        assert((graph + content)[0] == graph[0]);
    } else {
        assert(graph + content == content);
    }
}

/// A line without the field separator is shown as it is.
pub proof fn law_connector_line(line: Seq<char>)
    requires
        !line.contains(LOG_FIELD_SEP),
    ensures
        graph_row(line).graph_cell == line,
        graph_row(line).sha is None,
{
}

/// The letter of a state stands for the same status whether the change is staged or
/// not, the unstaged state hides the staged one, and each letter has its status.
pub proof fn law_state_letters(x: char, y: char)
    ensures
        ordinary(x, '.') == ordinary('.', x),
        y != '.' ==> ordinary(x, y) == ordinary('.', y),
        ordinary('.', x) == StatusView::Deleted <==> x == 'D',
        ordinary('.', x) == StatusView::Added <==> x == 'A' || x == 'C',
        ordinary('.', x) == StatusView::Unmerged <==> x == 'U',
        ordinary('.', x) == StatusView::Modified <==> x != 'D' && x != 'A' && x != 'C' && x != 'U',
{
}

/// The line of an ordinary entry with the given states, whatever else it holds,
/// reports its path with the status of the unstaged letter, or of the staged one where
/// nothing is unstaged.
pub proof fn law_ordinary_line(
    x: char,
    y: char,
    more: Seq<char>,
    fields: Seq<Seq<char>>,
    path: Seq<char>,
)
    requires
        x != ' ' && y != ' ' && !more.contains(' '),
        fields.len() == 6,
        forall|i: int| 0 <= i < fields.len() ==> !(#[trigger] fields[i]).contains(' '),
    ensures
        ({
            let letter = if y == '.' {
                x
            } else {
                y
            };
            let line = seq!['1', ' '] + (separated(seq![seq![x, y] + more] + fields, ' ') + path);
            status_entry(line) == Some(
                ChangeView {
                    path: encode_utf8(path),
                    status: if letter == 'D' {
                        StatusView::Deleted
                    } else if letter == 'A' || letter == 'C' {
                        StatusView::Added
                    } else if letter == 'U' {
                        StatusView::Unmerged
                    } else {
                        StatusView::Modified
                    },
                },
            )
        }),
{
    let states = seq![x, y] + more;
    let all = seq![states] + fields;
    assert(!states.contains(' ')) by {
        if states.contains(' ') {
            let i = choose|i: int| 0 <= i < states.len() && states[i] == ' ';
            assert(i >= 2);
            assert(more[i - 2] == ' ');
        }
    }
    assert forall|i: int| 0 <= i < all.len() implies !(#[trigger] all[i]).contains(' ') by {
        if i > 0 {
            assert(all[i] == fields[i - 1]);
        }
    }
    assert(all[0] == states);
    law_ordinary_entry(all, path);
}

/// A line that lacks fields reports nothing.
pub proof fn law_short_entries_are_skipped(kind: char, fields: Seq<Seq<char>>)
    requires
        kind == '1' && 1 <= fields.len() < 8 || kind == '2' && 1 <= fields.len() < 9 || kind == 'u'
            && 1 <= fields.len() < 10,
        forall|i: int| 0 <= i < fields.len() ==> !(#[trigger] fields[i]).contains(' '),
    ensures
        status_entry(seq![kind, ' '] + with_separators(fields, ' ')) is None,
{
    let rest = with_separators(fields, ' ');
    assert((seq![kind, ' '] + rest).skip(2) == rest);
    lemma_first_pieces_of_list(fields, 8, ' ');
    lemma_first_pieces_of_list(fields, 9, ' ');
    lemma_first_pieces_of_list(fields, 10, ' ');
}

/// Fields without the separator come back from the list that they were put into where
/// there are no more of them than asked for.
proof fn lemma_first_pieces_of_list(fields: Seq<Seq<char>>, n: nat, sep: char)
    requires
        1 <= fields.len(),
        forall|i: int| 0 <= i < fields.len() ==> !(#[trigger] fields[i]).contains(sep),
    ensures
        fields.len() <= n ==> first_pieces(with_separators(fields, sep), n, sep) == fields,
    decreases fields.len(),
{
    let s = with_separators(fields, sep);
    let at = fields[0].len() as int;
    assert forall|j: int| 0 <= j < at implies s[j] != sep by {
        assert(s[j] == fields[0][j]);
        assert(fields[0].contains(fields[0][j]));
    }
    lemma_index_of(s, sep, at);
    if fields.len() == 1 {
        assert(fields =~= seq![fields[0]]);
    } else if n >= 1 {
        let tail = fields.skip(1);
        assert forall|i: int| 0 <= i < tail.len() implies #[trigger] tail[i] == fields[i + 1] by {}
        lemma_first_pieces_of_list(tail, (n - 1) as nat, sep);
        assert(s.take(at) =~= fields[0]);
        assert(s.skip(at + 1) =~= with_separators(tail, sep));
        assert(seq![fields[0]] + tail =~= fields);
    }
}

/// What is reported for two lists of status lines, one behind the other.
proof fn lemma_status_of_both(a: Seq<Seq<char>>, b: Seq<Seq<char>>)
    ensures
        status_entries(a + b) == status_entries(a) + status_entries(b),
    decreases b.len(),
{
    if b.len() == 0 {
        assert(a + b == a);
        assert(status_entries(a) + status_entries(b) == status_entries(a));
    } else {
        assert((a + b).drop_last() == a + b.drop_last());
        lemma_status_of_both(a, b.drop_last());
        assert(status_entries(a + b) =~= status_entries(a) + status_entries(b));
    }
}

/// Two outputs of `git status`, of which the first ends its last line, report together
/// what the first reports and then what the second does, as far as changes are tracked.
pub proof fn law_status_of_both(a: Seq<char>, b: Seq<char>)
    requires
        a.len() == 0 || a.last() == '\n',
    ensures
        capped(status_entries(lines(a + b))) == capped(
            capped(status_entries(lines(a))) + capped(status_entries(lines(b))),
        ),
{
    lemma_lines_of_both(a, b);
    lemma_status_of_both(lines(a), lines(b));
    let first = status_entries(lines(a));
    let second = status_entries(lines(b));
    assert(capped(first + second) =~= capped(capped(first) + capped(second)));
}

/// A single line reports what it holds, or nothing, whichever way it ends.
pub proof fn law_output_of_one_line(line: Seq<char>, crlf: bool)
    requires
        line.len() > 0 && line.last() != '\r',
        !line.contains('\n'),
    ensures
        ({
            let text = terminated(seq![line], crlf);
            &&& capped(status_entries(lines(text))) == match status_entry(line) {
                Some(entry) => seq![entry],
                None => seq![],
            }
            &&& capped(name_status_entries(lines(text))) == match name_status_entry(line) {
                Some(entry) => seq![entry],
                None => seq![],
            }
            &&& graph_rows(lines(text)) == seq![graph_row(line)]
        }),
{
    reveal_with_fuel(status_entries, 2);
    reveal_with_fuel(name_status_entries, 2);
    law_lines_of_a_text(seq![line], crlf, seq![]);
    assert(seq![line].drop_last() =~= Seq::<Seq<char>>::empty());
    assert(seq![line].last() == line);
    assert(status_entries(seq![line]) =~= match status_entry(line) {
        Some(entry) => seq![entry],
        None => seq![],
    });
    assert(name_status_entries(seq![line]) =~= match name_status_entry(line) {
        Some(entry) => seq![entry],
        None => seq![],
    });
    assert(graph_rows(seq![line]) =~= seq![graph_row(line)]);
}

/// Of a list of changes the first five thousand are kept, in their order.
pub proof fn law_tracked_changes(entries: Seq<ChangeView>)
    ensures
        entries.len() <= 5000 ==> capped(entries) == entries,
        entries.len() > 5000 ==> capped(entries).len() == 5000,
        capped(entries).is_prefix_of(entries),
{
}

/// A copied file of `git show --name-status` is an addition at its new path.
pub proof fn law_name_status_copy(score: Seq<char>, from: Seq<char>, path: Seq<char>)
    requires
        !score.contains('\t'),
        !from.contains('\t'),
        !path.contains('\t'),
        path.len() > 0 && path.last() != '\r',
    ensures
        name_status_entry(
            with_separators(seq![seq!['C'] + score, from, path], '\t'),
        ) == Some(ChangeView { path: encode_utf8(path), status: StatusView::Added }),
{
    let head = seq!['C'] + score;
    let fields = seq![head, from, path];
    assert(!head.contains('\t')) by {
        if head.contains('\t') {
            let i = choose|i: int| 0 <= i < head.len() && head[i] == '\t';
            assert(i > 0);
            assert(score[i - 1] == '\t');
        }
    }
    lemma_pieces_of_list(fields, '\t');
    lemma_last_of_list(fields, '\t');
}

/// Fields without the separator come back from the list that they were put into.
proof fn lemma_pieces_of_list(fields: Seq<Seq<char>>, sep: char)
    requires
        fields.len() >= 1,
        forall|i: int| 0 <= i < fields.len() ==> !(#[trigger] fields[i]).contains(sep),
    ensures
        pieces(with_separators(fields, sep), sep) == fields,
    decreases fields.len(),
{
    let s = with_separators(fields, sep);
    let at = fields[0].len() as int;
    assert forall|j: int| 0 <= j < at implies s[j] != sep by {
        assert(s[j] == fields[0][j]);
        assert(fields[0].contains(fields[0][j]));
    }
    lemma_index_of(s, sep, at);
    if fields.len() == 1 {
        assert(pieces(s, sep) =~= fields);
    } else {
        let tail = fields.skip(1);
        assert forall|i: int| 0 <= i < tail.len() implies #[trigger] tail[i] == fields[i + 1] by {}
        lemma_pieces_of_list(tail, sep);
        assert(s.take(at) =~= fields[0]);
        assert(s.skip(at + 1) =~= with_separators(tail, sep));
        assert(seq![fields[0]] + tail =~= fields);
    }
}

/// A list ends as its last text does.
proof fn lemma_last_of_list(fields: Seq<Seq<char>>, sep: char)
    requires
        fields.len() >= 1,
        fields.last().len() > 0,
    ensures
        with_separators(fields, sep).len() > 0,
        with_separators(fields, sep).last() == fields.last().last(),
    decreases fields.len(),
{
    if fields.len() > 1 {
        assert(fields.skip(1).last() == fields.last());
        lemma_last_of_list(fields.skip(1), sep);
    }
}

/// Blank lines report nothing, nor do lines that lack a path.
pub proof fn law_name_status_without_path(code: Seq<char>, from: Seq<char>)
    requires
        !code.contains('\t') && !code.contains('\r'),
        !from.contains('\t') && !from.contains('\r'),
        from.len() > 0,
    ensures
        name_status_entry(code) is None,
        code.len() > 0 && (code[0] == 'R' || code[0] == 'C') ==> name_status_entry(
            with_separators(seq![code, from], '\t'),
        ) is None,
        name_status_entry(with_separators(seq![seq![], from], '\t')) is None,
{
    lemma_pieces_of_list(seq![code], '\t');
    lemma_pieces_of_list(seq![code, from], '\t');
    let nothing: Seq<char> = seq![];
    lemma_pieces_of_list(seq![nothing, from], '\t');
    lemma_last_of_list(seq![code, from], '\t');
    lemma_last_of_list(seq![nothing, from], '\t');
    assert(from.contains(from.last()));
    if code.len() > 0 {
        assert(code.contains(code.last()));
    }
}

/// A carriage return behind a line of `git show --name-status` changes nothing.
pub proof fn law_name_status_with_return(line: Seq<char>)
    ensures
        name_status_entry(line.push('\r')) == name_status_entry(line),
{
    assert(line.push('\r').drop_last() =~= line);
}

/// Refs with a comma and a space between them, as git lists them.
pub open spec fn ref_list(refs: Seq<Seq<char>>) -> Seq<char>
    decreases refs.len(),
{
    if refs.len() == 0 {
        seq![]
    } else if refs.len() == 1 {
        refs[0]
    } else {
        refs[0] + seq![',', ' '] + ref_list(refs.skip(1))
    }
}

/// A ref as git names it: some text without a comma or white space around it.
pub open spec fn is_ref(text: Seq<char>) -> bool {
    &&& text.len() > 0
    &&& !text.contains(',')
    &&& !white_space(text[0])
    &&& !white_space(text.last())
}

/// The refs of the rest of a list, as they stand behind the commas.
spec fn spaced(refs: Seq<Seq<char>>) -> Seq<Seq<char>> {
    refs.map(
        |i: int, text: Seq<char>|
            if i == 0 {
                text
            } else {
                seq![' '] + text
            },
    )
}

/// A blank in front of the first text comes out in front of them all.
proof fn lemma_blank_in_front(list: Seq<Seq<char>>, more: Seq<Seq<char>>)
    requires
        list.len() > 0,
        more.len() == list.len(),
        more[0] == seq![' '] + list[0],
        more.skip(1) == list.skip(1),
    ensures
        with_separators(more, ',') == seq![' '] + with_separators(list, ','),
{
    let tail = with_separators(list.skip(1), ',');
    if list.len() > 1 {
        lemma_moved_bracket(seq![' '], list[0], seq![','], tail);
    }
}

/// Putting texts together does not depend on where one starts.
proof fn lemma_moved_bracket(a: Seq<char>, b: Seq<char>, c: Seq<char>, d: Seq<char>)
    ensures
        a + b + c + d == a + (b + c + d),
{
    assert(a + b + c + d =~= a + (b + c + d));
}

/// What stands behind the first of several spaced texts.
proof fn lemma_spaced_tail(refs: Seq<Seq<char>>)
    requires
        refs.len() > 1,
    ensures
        spaced(refs)[0] == refs[0],
        spaced(refs).skip(1).len() == spaced(refs.skip(1)).len(),
        spaced(refs).skip(1)[0] == seq![' '] + spaced(refs.skip(1))[0],
        spaced(refs).skip(1).skip(1) == spaced(refs.skip(1)).skip(1),
{
    assert(spaced(refs).skip(1).skip(1) =~= spaced(refs.skip(1)).skip(1));
}

/// A list of refs is the spaced refs with commas between them.
proof fn lemma_ref_list_is_spaced(refs: Seq<Seq<char>>)
    requires
        refs.len() >= 1,
    ensures
        ref_list(refs) == with_separators(spaced(refs), ','),
    decreases refs.len(),
{
    if refs.len() > 1 {
        let tail = refs.skip(1);
        lemma_ref_list_is_spaced(tail);
        lemma_spaced_tail(refs);
        lemma_blank_in_front(spaced(tail), spaced(refs).skip(1));
        lemma_moved_bracket(refs[0], seq![','], seq![' '], ref_list(tail));
        assert(seq![','] + seq![' '] =~= seq![',', ' ']);
        assert(refs[0] + seq![','] + seq![' '] =~= refs[0] + seq![',', ' ']);
        assert(refs[0] + seq![','] + (seq![' '] + ref_list(tail)) =~= refs[0] + seq![','] + seq![
            ' ',
        ] + ref_list(tail));
    }
}

/// Where a list of refs starts and ends.
proof fn lemma_ref_list(refs: Seq<Seq<char>>)
    requires
        refs.len() >= 1,
        forall|i: int| 0 <= i < refs.len() ==> is_ref(#[trigger] refs[i]),
    ensures
        ref_list(refs) == with_separators(spaced(refs), ','),
        ref_list(refs).len() > 0,
        ref_list(refs)[0] == refs[0][0],
        ref_list(refs).last() == refs.last().last(),
    decreases refs.len(),
{
    lemma_ref_list_is_spaced(refs);
    assert(is_ref(refs[0]));
    if refs.len() > 1 {
        let tail = refs.skip(1);
        assert forall|i: int| 0 <= i < tail.len() implies is_ref(#[trigger] tail[i]) by {
            assert(tail[i] == refs[i + 1]);
        }
        lemma_ref_list(tail);
        assert(tail.last() == refs.last());
    }
}

proof fn lemma_trimmed_refs(refs: Seq<Seq<char>>, n: int)
    requires
        0 <= n <= refs.len(),
        forall|i: int| 0 <= i < refs.len() ==> is_ref(#[trigger] refs[i]),
    ensures
        trimmed_texts(spaced(refs).take(n)) == refs.take(n),
    decreases n,
{
    let list = spaced(refs);
    if n == 0 {
        assert(list.take(0) =~= Seq::<Seq<char>>::empty());
        assert(refs.take(0) =~= Seq::<Seq<char>>::empty());
    } else {
        lemma_trimmed_refs(refs, n - 1);
        assert(list.take(n).drop_last() =~= list.take(n - 1));
        assert(list.take(n).last() == list[n - 1]);
        let text = refs[n - 1];
        let nothing: Seq<char> = seq![];
        law_trimming_finds_the_text(nothing, text, nothing);
        assert(nothing + text + nothing =~= text);
        law_trimming_finds_the_text(seq![' '], text, nothing);
        assert(seq![' '] + text + nothing =~= seq![' '] + text);
        assert(trimmed(list[n - 1]) == text);
        assert(refs.take(n) =~= refs.take(n - 1).push(text));
    }
}

/// Any list of refs, however long, comes back from git's decoration of a commit: an
/// opening bracket behind a space, the refs with a comma and a space between them, and
/// a closing bracket. A field without refs lists none.
pub proof fn law_decorations(refs: Seq<Seq<char>>)
    requires
        forall|i: int| 0 <= i < refs.len() ==> is_ref(#[trigger] refs[i]),
    ensures
        decorations_of(seq![' ', '('] + ref_list(refs) + seq![')']) == refs,
        decorations_of(seq![]) == Seq::<Seq<char>>::empty(),
{
    let nothing: Seq<char> = seq![];
    reveal_with_fuel(trimmed_texts, 2);
    assert(pieces(nothing, ',') =~= seq![nothing]) by {
        lemma_index_of(nothing, ',', 0);
    }
    assert(trimmed(nothing) =~= nothing);
    assert(trimmed_texts(seq![nothing]) =~= Seq::<Seq<char>>::empty()) by {
        assert(seq![nothing].drop_last() =~= Seq::<Seq<char>>::empty());
        assert(seq![nothing].last() == nothing);
    }
    let list = ref_list(refs);
    let inner = seq!['('] + list + seq![')'];
    law_trimming_finds_the_text(seq![' '], inner, nothing);
    assert(seq![' '] + inner + nothing =~= seq![' ', '('] + list + seq![')']);
    assert(without_opening(inner) =~= list + seq![')']);
    assert(without_closing(list + seq![')']) =~= list);
    if refs.len() > 0 {
        lemma_ref_list(refs);
        law_trimming_finds_the_text(nothing, list, nothing);
        assert(nothing + list + nothing =~= list);
        let parts = spaced(refs);
        assert forall|i: int| 0 <= i < parts.len() implies !(#[trigger] parts[i]).contains(',') by {
            let text = refs[i];
            if parts[i].contains(',') {
                let j = choose|j: int| 0 <= j < parts[i].len() && parts[i][j] == ',';
                if i == 0 {
                    assert(text[j] == ',');
                } else {
                    assert(j > 0);
                    assert(text[j - 1] == ',');
                }
            }
        }
        lemma_pieces_of_list(parts, ',');
        lemma_trimmed_refs(refs, refs.len() as int);
        assert(parts.take(refs.len() as int) =~= parts);
        assert(refs.take(refs.len() as int) =~= refs);
    } else {
        assert(refs =~= Seq::<Seq<char>>::empty());
        assert(list =~= nothing);
    }
}

/// Hashes start with a digit or a letter, which draw no graph; the strokes of the graph
/// and the spaces between them do.
pub proof fn law_graph_glyphs(c: char)
    ensures
        '0' <= c <= '9' || 'a' <= c <= 'z' || 'A' <= c <= 'Z' || c as u32 >= 0x80 || c
            == LOG_FIELD_SEP ==> !graph_glyph(c),
        c == '*' || c == '|' || c == '/' || c == '\\' || c == '_' || c == '-' || c == '.' || c
            == ' ' ==> graph_glyph(c),
{
}

/// A commit line gives back what it was made of: its graph column, its hash, its author,
/// its refs, and its subject.
pub proof fn law_commit_line_with_refs(
    graph: Seq<char>,
    sha: Seq<char>,
    author: Seq<char>,
    refs: Seq<Seq<char>>,
    subject: Seq<char>,
)
    requires
        forall|i: int| 0 <= i < graph.len() ==> graph_glyph(#[trigger] graph[i]),
        sha.len() > 0,
        forall|i: int|
            0 <= i < sha.len() ==> '0' <= #[trigger] sha[i] <= '9' || 'a' <= sha[i] <= 'f',
        !author.contains(LOG_FIELD_SEP),
        forall|i: int| 0 <= i < refs.len() ==> is_ref(#[trigger] refs[i]),
        !ref_list(refs).contains(LOG_FIELD_SEP),
    ensures
        ({
            let field = seq![' ', '('] + ref_list(refs) + seq![')'];
            let line = graph + (separated(seq![sha, author, field], LOG_FIELD_SEP) + subject);
            graph_row(line) == (CommitView {
                graph_cell: graph,
                sha: Some(sha),
                author,
                decorations: refs,
                subject,
            })
        }),
{
    let list = ref_list(refs);
    let field = seq![' ', '('] + list + seq![')'];
    assert(!sha.contains(LOG_FIELD_SEP));
    assert(!field.contains(LOG_FIELD_SEP)) by {
        if field.contains(LOG_FIELD_SEP) {
            let i = choose|i: int| 0 <= i < field.len() && field[i] == LOG_FIELD_SEP;
            assert(2 <= i < field.len() - 1);
            assert(list[i - 2] == LOG_FIELD_SEP);
        }
    }
    law_graph_glyphs(sha[0]);
    law_commit_line(graph, sha, author, field, subject);
    law_decorations(refs);
    let nothing: Seq<char> = seq![];
    assert('0' <= sha[0] <= '9' || 'a' <= sha[0] <= 'f');
    assert('0' <= sha[sha.len() - 1] <= '9' || 'a' <= sha[sha.len() - 1] <= 'f');
    law_trimming_finds_the_text(nothing, sha, nothing);
    assert(nothing + sha + nothing =~= sha);
}

/// Rows that follow each other hold together the commits of both, and a row holds one
/// commit exactly where it has a hash.
pub proof fn law_commit_count(a: Seq<CommitView>, b: Seq<CommitView>, row: CommitView)
    ensures
        commit_count(a + b) == commit_count(a) + commit_count(b),
        commit_count(seq![row]) == if row.sha is Some {
            1nat
        } else {
            0
        },
    decreases b.len(),
{
    reveal_with_fuel(commit_count, 2);
    assert(seq![row].drop_last() =~= Seq::<CommitView>::empty());
    assert(seq![row].last() == row);
    if b.len() == 0 {
        assert(a + b =~= a);
    } else {
        law_commit_count(a, b.drop_last(), row);
        assert((a + b).drop_last() =~= a + b.drop_last());
        assert((a + b).last() == b.last());
    }
}

/// A connector row has nothing but its strokes.
pub proof fn law_connector_row_is_bare(line: Seq<char>)
    requires
        !line.contains(LOG_FIELD_SEP),
    ensures
        graph_row(line).subject.len() == 0,
        graph_row(line).author.len() == 0,
        graph_row(line).decorations.len() == 0,
{
}

/// A window shows the graph from its start, whole where it is not cut. Where it is cut, it is
/// cut right in front of a commit, so that the strokes in between are shown.
pub proof fn law_log_window_is_a_start(
    rows: Seq<CommitView>,
    limit: nat,
    shown: Seq<CommitView>,
    more: bool,
)
    requires
        is_log_window(rows, limit, shown, more),
    ensures
        shown.is_prefix_of(rows),
        !more ==> shown == rows,
        more ==> shown.len() < rows.len() && rows[shown.len() as int].sha is Some,
        more <==> commit_count(rows) > limit,
{
    law_log_window_counts(rows, limit, shown, more);
    if !more {
        assert(rows.take(rows.len() as int) == rows);
    }
}

/// A request for commits loads that many, and one at least; a page holds fifty, and git is told
/// to separate the fields as they are read.
pub proof fn law_commit_limit(count: usize)
    ensures
        count > 0 ==> commit_limit(count) == count,
        count == 0 ==> commit_limit(count) == 1,
        DEFAULT_LOADED_COMMIT_COUNT == 50,
        LOG_FIELD_SEP as u32 == 0x1f,
{
}

/// The rows of the graph are those of its lines, one for one.
pub proof fn law_graph_rows(list: Seq<Seq<char>>, i: int)
    requires
        0 <= i < list.len(),
    ensures
        graph_rows(list).len() == list.len(),
        graph_rows(list)[i] == graph_row(list[i]),
{
}

/// A line of one letter reports nothing, and neither does one whose letter is followed by
/// something that is not ASCII.
pub proof fn law_entries_start_with_a_letter_and_a_blank(line: Seq<char>)
    requires
        line.len() < 2 || line[1] as u32 >= 0x80,
    ensures
        status_entry(line) is None,
{
}

} // verus!
