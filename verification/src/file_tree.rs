//! The Explorer's file tree: directory entries, their order, the rows that an
//! expanded tree shows, and what decorates them.
use crate::order::{
    is_permutation, is_stable_order, key_before, keys, law_key_order, law_row_order,
    lemma_first_difference, lemma_key_total, placed_before, positions, rows, stable_order,
};
use crate::path::{joined, lossy_text, path_key, path_rows, path_rows_of, FsPath, PathKey};
use crate::path_map::{keys_of, PathMap, PathSet};
use crate::source_control::{
    change_views, texts, ChangeStatus, ChangeView, ChangedFile, StatusView,
};
use crate::text::{from_chars, lower_case, to_chars, to_lower_case, trim, trimmed};
use vstd::prelude::*;
use vstd::slice::slice_subrange;
use vstd::utf8::{decode_utf8, valid_utf8};

verus! {

/// The git-status decoration the rollup attaches to a tree path.
#[derive(Debug, PartialEq, Eq)]
pub enum FileTreeDecoration {
    /// An exactly-changed file, carrying its precise git status so the row is
    /// colored by it.
    Changed(ChangeStatus),
    /// A folder on the ancestry of one or more changed files. Collapsed or not,
    /// it shows a rolled-up status dot.
    ContainsChanges,
}

/// The mathematical value of a [`FileTreeDecoration`].
pub enum DecorationView {
    Changed(StatusView),
    ContainsChanges,
}

impl View for FileTreeDecoration {
    type V = DecorationView;

    open spec fn view(&self) -> DecorationView {
        match self {
            FileTreeDecoration::Changed(status) => DecorationView::Changed(status@),
            FileTreeDecoration::ContainsChanges => DecorationView::ContainsChanges,
        }
    }
}

/// `a` is a directory above `k`.
pub open spec fn is_ancestor(a: PathKey, k: PathKey) -> bool {
    &&& a.absolute == k.absolute
    &&& a.parts.len() < k.parts.len()
    &&& a.parts == k.parts.take(a.parts.len() as int)
}

/// `a` is a directory above `k` and, where `k` lies below `root`, below `root`
/// too.
pub open spec fn is_between(root: PathKey, a: PathKey, k: PathKey) -> bool {
    &&& is_ancestor(a, k)
    &&& is_ancestor(root, k) ==> root.parts.len() < a.parts.len()
}

/// What a change's path names, seen from the root of the tree.
pub open spec fn change_key(root: Seq<u8>, change: ChangeView) -> PathKey {
    path_key(joined(root, change.path))
}

/// The status of the last change at `k`, if there is one.
pub open spec fn status_at(root: Seq<u8>, changes: Seq<ChangeView>, k: PathKey) -> Option<
    StatusView,
>
    decreases changes.len(),
{
    if changes.len() == 0 {
        None
    } else if change_key(root, changes.last()) == k {
        Some(changes.last().status)
    } else {
        status_at(root, changes.drop_last(), k)
    }
}

/// Whether a change lies below `k`, and `k` below the root.
pub open spec fn holds_changes(root: Seq<u8>, changes: Seq<ChangeView>, k: PathKey) -> bool {
    exists|i: int|
        0 <= i < changes.len() && #[trigger] is_between(
            path_key(root),
            k,
            change_key(root, changes[i]),
        )
}

/// The decoration of `k`: the precise status of a changed file, the marker of a
/// folder that holds changes, or none.
pub open spec fn decoration(root: Seq<u8>, changes: Seq<ChangeView>, k: PathKey) -> Option<
    DecorationView,
> {
    match status_at(root, changes, k) {
        Some(status) => Some(DecorationView::Changed(status)),
        None => if holds_changes(root, changes, k) {
            Some(DecorationView::ContainsChanges)
        } else {
            None
        },
    }
}

/// The value that `map` holds at `k`.
pub open spec fn decorated(map: Map<PathKey, FileTreeDecoration>, k: PathKey) -> Option<
    DecorationView,
> {
    if map.contains_key(k) {
        Some(map[k]@)
    } else {
        None
    }
}

/// What `map` holds while a change at `full` is rolled up: what it held before,
/// and beside that the marker on the directories that `marked` names.
spec fn partly_marked(
    map: Map<PathKey, FileTreeDecoration>,
    before: Map<PathKey, FileTreeDecoration>,
    marked: spec_fn(PathKey) -> bool,
) -> bool {
    forall|k: PathKey| #[trigger]
        decorated(map, k) == match decorated(before, k) {
            Some(d) => Some(d),
            None => if marked(k) {
                Some(DecorationView::ContainsChanges)
            } else {
                None
            },
        }
}

/// Mark the directories between `root` and `path` that hold no mark yet.
fn mark_ancestors(
    decorations: &mut PathMap<FileTreeDecoration>,
    root: &FsPath,
    path: &FsPath,
)
    ensures
        partly_marked(
            final(decorations)@,
            old(decorations)@,
            |k: PathKey| is_between(path_key(root@), k, path_key(path@)),
        ),
{
    let ghost full = path_key(path@);
    let ghost top = path_key(root@);
    let ghost before = decorations@;
    proof {
        crate::path::lemma_parent_key(path@);
    }
    let mut current = path.parent();
    let mut done = false;
    let ghost mut level: int = full.parts.len() as int - 1;
    while current.is_some() && !done
        invariant
            full == path_key(path@),
            top == path_key(root@),
            -1 <= level,
            current is None ==> level == -1,
            current matches Some(p) ==> {
                &&& is_ancestor(path_key(p@), full)
                &&& path_key(p@).parts.len() == level
            },
            done ==> is_ancestor(top, full) && level == top.parts.len(),
            is_ancestor(top, full) ==> level >= top.parts.len(),
            partly_marked(
                decorations@,
                before,
                |k: PathKey| is_between(top, k, full) && k.parts.len() > level,
            ),
        decreases level + 1, if done { 0int } else { 1 },
    {
        match current {
            None => {
                done = true;
            },
            Some(ancestor) => {
                let ghost key = path_key(ancestor@);
                if crate::path::same_path(&ancestor, root) {
                    done = true;
                    current = Some(ancestor);
                } else {
                    proof {
                        crate::path::lemma_parent_key(ancestor@);
                        assert forall|k: PathKey|
                            is_between(top, k, full) && k.parts.len() == level implies k == key by {
                            assert(k.parts == key.parts);
                        }
                        if is_ancestor(top, full) && level == top.parts.len() {
                            assert(top.parts == key.parts);
                        }
                    }
                    let next = ancestor.parent();
                    let ghost map0 = decorations@;
                    if !decorations.contains_key(&ancestor) {
                        decorations.insert(ancestor, FileTreeDecoration::ContainsChanges);
                    }
                    proof {
                        let marked = |k: PathKey|
                            is_between(top, k, full) && k.parts.len() > level - 1;
                        assert forall|k: PathKey| #[trigger]
                            decorated(decorations@, k) == match decorated(before, k) {
                                Some(d) => Some(d),
                                None => if marked(k) {
                                    Some(DecorationView::ContainsChanges)
                                } else {
                                    None
                                },
                            } by {
                            let _ = decorated(map0, k);
                        }
                        if next is Some {
                            assert(key.parts.drop_last() == full.parts.take(level - 1));
                        }
                        level = level - 1;
                    }
                    current = next;
                }
            },
        }
    }
    proof {
        let marked = |k: PathKey| is_between(top, k, full);
        assert forall|k: PathKey| #[trigger]
            decorated(decorations@, k) == match decorated(before, k) {
                Some(d) => Some(d),
                None => if marked(k) {
                    Some(DecorationView::ContainsChanges)
                } else {
                    None
                },
            } by {}
    }
}

/// Roll the workspace's changed-files set up the Explorer tree. A pure
/// prefix-match over the paths, reading no filesystem: each change's path is
/// resolved against `root` and mapped to [`FileTreeDecoration::Changed`], and
/// every ancestor directory between that file and `root` (exclusive of `root`
/// itself, inclusive of the immediate parent) is marked
/// [`FileTreeDecoration::ContainsChanges`]. So a collapsed folder containing a
/// change shows a dot without being expanded, while folders off the changed
/// paths' ancestry get no entry at all. Change paths are matched as given
/// (joined onto `root`); they are never read from disk.
pub fn rollup_git_status(root: &FsPath, changes: &Vec<ChangedFile>) -> (decorations: PathMap<
    FileTreeDecoration,
>)
    ensures
        forall|k: PathKey| #[trigger]
            decorated(decorations@, k) == decoration(root@, change_views(changes@), k),
{
    let mut decorations: PathMap<FileTreeDecoration> = PathMap::new();
    let ghost all = change_views(changes@);
    assert(all.take(0) == Seq::<ChangeView>::empty());
    let mut i: usize = 0;
    while i < changes.len()
        invariant
            i <= changes@.len(),
            all == change_views(changes@),
            forall|k: PathKey| #[trigger]
                decorated(decorations@, k) == decoration(root@, all.take(i as int), k),
        decreases changes@.len() - i,
    {
        let change = &changes[i];
        let path = root.join(&change.path);
        let ghost full = path_key(path@);
        let ghost map0 = decorations@;
        // Mark each ancestor up to (but not including) the root.
        mark_ancestors(&mut decorations, root, &path);
        let ghost map1 = decorations@;
        // The file's own precise status wins over any rolled-up marker.
        decorations.insert(path, FileTreeDecoration::Changed(change.status.clone()));
        proof {
            let now = all.take(i + 1);
            assert(now.drop_last() == all.take(i as int));
            assert(now.last() == change@);
            assert(change_key(root@, change@) == full);
            assert forall|k: PathKey| #[trigger]
                decorated(decorations@, k) == decoration(root@, now, k) by {
                assert(decorated(map0, k) == decoration(root@, all.take(i as int), k));
                let _ = decorated(map1, k);
                if is_between(path_key(root@), k, full) {
                    assert(is_between(path_key(root@), k, change_key(root@, now[i as int])));
                }
                if holds_changes(root@, all.take(i as int), k) {
                    let j = choose|j: int|
                        0 <= j < i && #[trigger] is_between(
                            path_key(root@),
                            k,
                            change_key(root@, all.take(i as int)[j]),
                        );
                    assert(is_between(path_key(root@), k, change_key(root@, now[j])));
                }
                if holds_changes(root@, now, k) {
                    let j = choose|j: int|
                        0 <= j < i + 1 && #[trigger] is_between(
                            path_key(root@),
                            k,
                            change_key(root@, now[j]),
                        );
                    if j < i {
                        assert(all.take(i as int)[j] == now[j]);
                    }
                }
            }
        }
        i += 1;
    }
    assert(all.take(i as int) == all);
    decorations
}

/// What the rollup decorates: the changed files themselves and every directory
/// between one and the root, and nothing else. The root itself holds no marker.
pub proof fn law_rollup_follows_the_changes(root: Seq<u8>, changes: Seq<ChangeView>, k: PathKey)
    ensures
        decoration(root, changes, k) is Some <==> exists|i: int|
            0 <= i < changes.len() && (#[trigger] change_key(root, changes[i]) == k || is_between(
                path_key(root),
                k,
                change_key(root, changes[i]),
            )),
        decoration(root, changes, path_key(root)) != Some(DecorationView::ContainsChanges),
{
    lemma_status_at(root, changes, k);
    if holds_changes(root, changes, k) {
        let i = choose|i: int|
            0 <= i < changes.len() && #[trigger] is_between(
                path_key(root),
                k,
                change_key(root, changes[i]),
            );
        assert(change_key(root, changes[i]) == k || is_between(
            path_key(root),
            k,
            change_key(root, changes[i]),
        ));
    }
}

/// There is a status at `k` exactly where a change is.
proof fn lemma_status_at(root: Seq<u8>, changes: Seq<ChangeView>, k: PathKey)
    ensures
        status_at(root, changes, k) is Some <==> exists|i: int|
            0 <= i < changes.len() && #[trigger] change_key(root, changes[i]) == k,
    decreases changes.len(),
{
    if changes.len() > 0 {
        let shorter = changes.drop_last();
        lemma_status_at(root, shorter, k);
        if exists|i: int| 0 <= i < shorter.len() && #[trigger] change_key(root, shorter[i]) == k {
            let i = choose|i: int|
                0 <= i < shorter.len() && #[trigger] change_key(root, shorter[i]) == k;
            assert(change_key(root, changes[i]) == k);
        }
        if exists|i: int| 0 <= i < changes.len() && #[trigger] change_key(root, changes[i]) == k {
            let i = choose|i: int|
                0 <= i < changes.len() && #[trigger] change_key(root, changes[i]) == k;
            if i < shorter.len() {
                assert(change_key(root, shorter[i]) == k);
            }
        }
        assert(change_key(root, changes[changes.len() - 1]) == change_key(root, changes.last()));
    }
}

/// The command of a candidate editor, `None` where the value is unset or blank.
pub open spec fn candidate(value: Option<&str>) -> Option<Seq<char>> {
    match value {
        Some(text) => if trimmed(text@).len() > 0 {
            Some(trimmed(text@))
        } else {
            None
        },
        None => None,
    }
}

/// The first candidate that is not blank, `vi` without one.
pub open spec fn editor_command(
    configured: Option<&str>,
    visual: Option<&str>,
    editor: Option<&str>,
) -> Seq<char> {
    match candidate(configured) {
        Some(command) => command,
        None => match candidate(visual) {
            Some(command) => command,
            None => match candidate(editor) {
                Some(command) => command,
                None => "vi"@,
            },
        },
    }
}

fn candidate_of(value: Option<&str>) -> (command: Option<String>)
    ensures
        command is Some <==> candidate(value) is Some,
        command matches Some(c) ==> candidate(value) == Some(c@),
{
    match value {
        Some(text) => {
            let chars = to_chars(text);
            let text = trim(chars.as_slice());
            if text.len() > 0 {
                Some(from_chars(text))
            } else {
                None
            }
        },
        None => None,
    }
}

/// Resolve the editor command used to open a clicked Explorer file, following
/// the precedence `source_panel.editor`, `$VISUAL`, `$EDITOR`, `vi`. Each
/// candidate is taken in order and the first non-blank one wins; a blank or
/// whitespace-only value is treated as unset and skipped. Pure over its inputs:
/// the caller reads the config and environment.
pub fn resolve_editor_command(
    configured: Option<&str>,
    visual: Option<&str>,
    editor: Option<&str>,
) -> (command: String)
    ensures
        command@ == editor_command(configured, visual, editor),
{
    if let Some(command) = candidate_of(configured) {
        return command;
    }
    if let Some(command) = candidate_of(visual) {
        return command;
    }
    if let Some(command) = candidate_of(editor) {
        return command;
    }
    "vi".to_string()
}

/// The texts of an argument vector that runs the editor in a shell and hands over
/// the file as a positional parameter.
pub open spec fn editor_argv(editor: Seq<char>, path: Seq<u8>) -> Seq<Seq<char>> {
    seq!["sh"@, "-c"@, editor + " \"$1\""@, "sh"@, lossy_text(path)]
}

/// The script that the shell parses does not depend on the file, which is handed
/// over as it is.
pub proof fn law_editor_script_is_free_of_the_path(editor: Seq<char>, a: Seq<u8>, b: Seq<u8>)
    ensures
        editor_argv(editor, a).take(4) == editor_argv(editor, b).take(4),
        editor_argv(editor, a)[4] == lossy_text(a),
{
    assert(editor_argv(editor, a).take(4) =~= editor_argv(editor, b).take(4));
}

/// Build the argv that opens `path` in `editor` inside a terminal pane. Like the
/// diff/commit commands it runs through `sh -c` so an editor invocation carrying
/// flags (`code -w`, `emacsclient -t`) works, but, unlike them, it is never
/// piped into a pager, since an editor manages its own screen. The file is passed
/// as the `$1` positional parameter so paths with spaces or shell metacharacters
/// are never re-parsed by the shell.
pub fn editor_open_argv(editor: &str, path: &FsPath) -> (argv: Vec<String>)
    ensures
        texts(argv@) == editor_argv(editor@, path@),
        valid_utf8(path@) ==> texts(argv@)[4] == decode_utf8(path@),
{
    let mut script = editor.to_string();
    script.append(" \"$1\"");
    let mut argv: Vec<String> = Vec::new();
    argv.push("sh".to_string());
    argv.push("-c".to_string());
    argv.push(script);
    argv.push("sh".to_string());
    argv.push(path.to_text());
    assert(texts(argv@).len() == 5);
    argv
}

/// The directories the Explorer's non-recursive filesystem watcher should be
/// watching: the tree root (always watched while a tree is rooted) plus every
/// currently-expanded folder. Collapsed folders are deliberately left unwatched:
/// expanding one again shows what was loaded before, and only a later refresh or
/// change event re-reads it.
pub fn watch_targets(root: Option<&FsPath>, expanded: &PathSet) -> (targets: PathSet)
    ensures
        targets@ == match root {
            Some(root) => expanded@.insert(path_key(root@)),
            None => expanded@,
        },
{
    let mut targets = expanded.clone();
    if let Some(root) = root {
        targets.insert(root.clone());
    }
    targets
}

/// `list` holds the members of `set`, each once, in the order of paths.
pub open spec fn is_sorted_listing(list: Seq<FsPath>, set: Set<PathKey>) -> bool {
    &&& keys_of(list).to_set() == set
    &&& forall|i: int, j: int|
        0 <= i < j < list.len() ==> key_before(
            path_rows(path_key(#[trigger] list[i]@)),
            path_rows(path_key(#[trigger] list[j]@)),
        )
}

/// The members of `a` that `b` lacks.
fn members_only_in(a: &PathSet, b: &PathSet) -> (list: Vec<FsPath>)
    ensures
        keys_of(list@).to_set() == a@.difference(b@),
        keys_of(list@).no_duplicates(),
{
    let members = a.members();
    let ghost all = keys_of(members@);
    let mut list: Vec<FsPath> = Vec::new();
    let mut i: usize = 0;
    while i < members.len()
        invariant
            i <= members@.len(),
            all == keys_of(members@),
            all.no_duplicates(),
            keys_of(list@).no_duplicates(),
            forall|x: int|
                0 <= x < list@.len() ==> all.take(i as int).contains(
                    #[trigger] keys_of(list@)[x],
                ) && !b@.contains(keys_of(list@)[x]),
            forall|j: int|
                0 <= j < i && !b@.contains(#[trigger] all[j]) ==> keys_of(list@).contains(all[j]),
        decreases members@.len() - i,
    {
        let path = &members[i];
        let ghost before = keys_of(list@);
        let ghost key = path_key(path@);
        assert(all[i as int] == key);
        assert(all.take(i + 1) == all.take(i as int).push(key));
        if !b.contains(path) {
            let copy = path.clone();
            list.push(copy);
            proof {
                let now = keys_of(list@);
                assert(now == before.push(key));
                assert(now[before.len() as int] == key);
                assert forall|x: int| 0 <= x < list@.len() implies all.take(i + 1).contains(
                    #[trigger] now[x],
                ) && !b@.contains(now[x]) by {
                    if x < before.len() {
                        assert(now[x] == before[x]);
                        let j = choose|j: int|
                            0 <= j < i && all.take(i as int)[j] == before[x];
                        assert(all.take(i + 1)[j] == before[x]);
                    } else {
                        assert(all.take(i + 1)[i as int] == key);
                    }
                }
                assert forall|j: int|
                    0 <= j < i + 1 && !b@.contains(#[trigger] all[j]) implies now.contains(
                    all[j],
                ) by {
                    if j < i {
                        let x = choose|x: int| 0 <= x < before.len() && before[x] == all[j];
                        assert(now[x] == all[j]);
                    }
                }
                assert forall|x: int, y: int| 0 <= x < y < now.len() implies now[x] != now[y] by {
                    if y == before.len() {
                        assert(before[x] == now[x]);
                        let j = choose|j: int|
                            0 <= j < i && all.take(i as int)[j] == before[x];
                        assert(all[j] != all[i as int]);
                    } else {
                        assert(before[x] == now[x] && before[y] == now[y]);
                    }
                }
            }
        } else {
            proof {
                assert forall|x: int| 0 <= x < list@.len() implies all.take(i + 1).contains(
                    #[trigger] keys_of(list@)[x],
                ) && !b@.contains(keys_of(list@)[x]) by {
                    let j = choose|j: int|
                        0 <= j < i && all.take(i as int)[j] == before[x];
                    assert(all.take(i + 1)[j] == before[x]);
                }
            }
        }
        i += 1;
    }
    proof {
        let found = keys_of(list@);
        assert forall|k: PathKey| #[trigger] found.to_set().contains(k) <==> a@.difference(
            b@,
        ).contains(k) by {
            if found.contains(k) {
                let x = choose|x: int| 0 <= x < found.len() && found[x] == k;
                assert(all.take(i as int).contains(found[x]));
                let j = choose|j: int| 0 <= j < i && all.take(i as int)[j] == k;
                assert(all[j] == k);
                assert(all.to_set().contains(k));
            }
            if a@.contains(k) && !b@.contains(k) {
                assert(all.to_set().contains(k));
                let j = choose|j: int| 0 <= j < all.len() && all[j] == k;
                assert(found.contains(all[j]));
            }
        }
        assert(found.to_set() =~= a@.difference(b@));
    }
    list
}

/// The given paths in the order of paths.
fn sort_paths(list: &Vec<FsPath>) -> (sorted: Vec<FsPath>)
    requires
        keys_of(list@).no_duplicates(),
    ensures
        is_sorted_listing(sorted@, keys_of(list@).to_set()),
{
    let mut table: Vec<Vec<Vec<u32>>> = Vec::new();
    let mut n: usize = 0;
    while n < list.len()
        invariant
            n <= list@.len(),
            table@.len() == n,
            forall|x: int| 0 <= x < n ==> #[trigger] keys(table@)[x] == path_rows(
                path_key(list@[x]@),
            ),
        decreases list@.len() - n,
    {
        let ghost before = keys(table@);
        table.push(path_rows_of(&list[n]));
        assert(keys(table@) == before.push(path_rows(path_key(list@[n as int]@))));
        n += 1;
    }
    let order = stable_order(&table);
    let ghost places = positions(order@);
    let mut sorted: Vec<FsPath> = Vec::new();
    let mut i: usize = 0;
    while i < order.len()
        invariant
            i <= order@.len(),
            order@.len() == list@.len(),
            places == positions(order@),
            is_permutation(places, list@.len() as int),
            sorted@.len() == i,
            forall|x: int| 0 <= x < i ==> (#[trigger] sorted@[x])@ == list@[places[x]]@,
        decreases order@.len() - i,
    {
        assert(places[i as int] == order@[i as int]);
        sorted.push(list[order[i]].clone());
        i += 1;
    }
    proof {
        let from = keys_of(list@);
        let to = keys_of(sorted@);
        assert forall|x: int| 0 <= x < to.len() implies #[trigger] to[x] == from[places[x]] by {
            assert(0 <= places[x] < list@.len());
            assert(sorted@[x]@ == list@[places[x]]@);
        }
        assert forall|k: PathKey| #[trigger] to.to_set().contains(k) <==> from.to_set().contains(
            k,
        ) by {
            if to.contains(k) {
                let x = choose|x: int| 0 <= x < to.len() && to[x] == k;
                assert(from[places[x]] == k);
            }
            if from.contains(k) {
                let y = choose|y: int| 0 <= y < from.len() && from[y] == k;
                let x = crate::order::lemma_permutation_covers(places, list@.len() as int, y);
                assert(to[x] == k);
            }
        }
        assert(to.to_set() =~= from.to_set());
        assert forall|x: int, y: int| 0 <= x < y < sorted@.len() implies key_before(
            path_rows(path_key(#[trigger] sorted@[x]@)),
            path_rows(path_key(#[trigger] sorted@[y]@)),
        ) by {
            assert(to[x] == from[places[x]] && to[y] == from[places[y]]);
            assert(placed_before(keys(table@), places[x], places[y]));
            assert(keys(table@)[places[x]] == path_rows(to[x]));
            assert(keys(table@)[places[y]] == path_rows(to[y]));
            if path_rows(to[x]) == path_rows(to[y]) {
                crate::path::lemma_path_rows_injective(to[x], to[y]);
            }
        }
    }
    sorted
}

/// Diff the watcher's `currently_watched` set against the `desired` set
/// ([`watch_targets`]) to drive a non-recursive watcher so it tracks exactly the
/// expanded tree: a folder gains a watch when it is expanded and drops it when it
/// is collapsed. Returns the paths in `desired` but not yet watched, and the
/// paths watched but no longer desired. Both lists are sorted so the
/// reconciliation is deterministic.
pub fn reconcile_watches(desired: &PathSet, currently_watched: &PathSet) -> (result: (
    Vec<FsPath>,
    Vec<FsPath>,
))
    ensures
        is_sorted_listing(result.0@, desired@.difference(currently_watched@)),
        is_sorted_listing(result.1@, currently_watched@.difference(desired@)),
{
    let to_add = sort_paths(&members_only_in(desired, currently_watched));
    let to_drop = sort_paths(&members_only_in(currently_watched, desired));
    (to_add, to_drop)
}

/// Dropping and adding what the reconciliation lists turns the watched set into
/// the desired one.
pub proof fn law_reconcile_reaches_desired(
    desired: Set<PathKey>,
    watched: Set<PathKey>,
    to_add: Seq<FsPath>,
    to_drop: Seq<FsPath>,
)
    requires
        is_sorted_listing(to_add, desired.difference(watched)),
        is_sorted_listing(to_drop, watched.difference(desired)),
    ensures
        watched.difference(keys_of(to_drop).to_set()).union(keys_of(to_add).to_set()) == desired,
        desired == watched ==> to_add.len() == 0 && to_drop.len() == 0,
{
    let result = watched.difference(keys_of(to_drop).to_set()).union(keys_of(to_add).to_set());
    assert(result =~= desired);
    if desired == watched {
        if to_add.len() > 0 {
            assert(keys_of(to_add).to_set().contains(keys_of(to_add)[0]));
        }
        if to_drop.len() > 0 {
            assert(keys_of(to_drop).to_set().contains(keys_of(to_drop)[0]));
        }
    }
}

/// A set of paths has one sorted listing.
pub proof fn law_sorted_listing_unique(a: Seq<FsPath>, b: Seq<FsPath>, set: Set<PathKey>)
    requires
        is_sorted_listing(a, set),
        is_sorted_listing(b, set),
    ensures
        keys_of(a) == keys_of(b),
    decreases a.len(),
{
    let keys_a = keys_of(a);
    let keys_b = keys_of(b);
    if a.len() == 0 {
        if b.len() > 0 {
            assert(set.contains(keys_b[0]));
        }
    } else {
        assert(keys_a.to_set().contains(keys_a.last()));
        assert(keys_b.contains(keys_a.last()));
        let j = choose|j: int| 0 <= j < keys_b.len() && keys_b[j] == keys_a.last();
        assert(keys_b.to_set().contains(keys_b.last()));
        assert(keys_a.contains(keys_b.last()));
        let i = choose|i: int| 0 <= i < keys_a.len() && keys_a[i] == keys_b.last();
        lemma_key_total(path_rows(keys_a.last()), path_rows(keys_b.last()));
        if keys_a.last() != keys_b.last() {
            assert(key_before(path_rows(path_key(a[i]@)), path_rows(path_key(a.last()@))));
            assert(key_before(path_rows(path_key(b[j]@)), path_rows(path_key(b.last()@))));
            assert(false);
        }
        lemma_listing_without_last(a, set);
        lemma_listing_without_last(b, set);
        law_sorted_listing_unique(a.drop_last(), b.drop_last(), set.remove(keys_a.last()));
        assert(keys_a == keys_of(a.drop_last()).push(keys_a.last()));
        assert(keys_b == keys_of(b.drop_last()).push(keys_b.last()));
    }
}

/// Without its last path, a listing lists what else there is.
proof fn lemma_listing_without_last(list: Seq<FsPath>, set: Set<PathKey>)
    requires
        is_sorted_listing(list, set),
        list.len() > 0,
    ensures
        is_sorted_listing(list.drop_last(), set.remove(keys_of(list).last())),
{
    let keys = keys_of(list);
    let init = keys_of(list.drop_last());
    let last = keys.last();
    assert forall|k: PathKey| #[trigger] init.to_set().contains(k) <==> set.remove(last).contains(
        k,
    ) by {
        if init.contains(k) {
            let i = choose|i: int| 0 <= i < init.len() && init[i] == k;
            assert(keys[i] == k);
            assert(keys.to_set().contains(k));
            assert(key_before(path_rows(path_key(list[i]@)), path_rows(path_key(list.last()@))));
            lemma_key_total(path_rows(k), path_rows(last));
        }
        if set.remove(last).contains(k) {
            assert(keys.contains(k));
            let i = choose|i: int| 0 <= i < keys.len() && keys[i] == k;
            assert(init[i] == k);
        }
    }
    assert(init.to_set() =~= set.remove(last));
}

/// With the two sets exchanged, what is to be added and what is to be dropped are
/// exchanged.
pub proof fn law_reconcile_swaps(
    a: Set<PathKey>,
    b: Set<PathKey>,
    forth: (Seq<FsPath>, Seq<FsPath>),
    back: (Seq<FsPath>, Seq<FsPath>),
)
    requires
        is_sorted_listing(forth.0, a.difference(b)),
        is_sorted_listing(forth.1, b.difference(a)),
        is_sorted_listing(back.0, b.difference(a)),
        is_sorted_listing(back.1, a.difference(b)),
    ensures
        keys_of(forth.0) == keys_of(back.1),
        keys_of(forth.1) == keys_of(back.0),
{
    law_sorted_listing_unique(forth.0, back.1, a.difference(b));
    law_sorted_listing_unique(forth.1, back.0, b.difference(a));
}

/// What kind of filesystem object a tree entry is. Symlinks are a distinct
/// variant: they are shown in the tree but never followed, so a symlink to a
/// directory is a non-expandable leaf and the tree never recurses into it
/// (preventing cycles).
#[derive(Debug, Clone, Copy, PartialEq, Eq, Structural)]
pub enum FileEntryKind {
    Directory,
    File,
    Symlink,
}

/// One entry (child) of a directory in the Explorer tree.
#[derive(Debug, PartialEq, Eq)]
pub struct FileTreeEntry {
    /// The entry's basename, used for display and sorting.
    pub name: String,
    /// The entry's absolute path, used as the cache key when it is a directory
    /// expanded to load its own children.
    pub path: FsPath,
    pub kind: FileEntryKind,
}

/// The mathematical value of a [`FileTreeEntry`].
pub struct EntryView {
    pub name: Seq<char>,
    pub path: Seq<u8>,
    pub kind: FileEntryKind,
}

impl View for FileTreeEntry {
    type V = EntryView;

    open spec fn view(&self) -> EntryView {
        EntryView { name: self.name@, path: self.path@, kind: self.kind }
    }
}

impl Clone for FileTreeEntry {
    fn clone(&self) -> (r: Self)
        ensures
            r@ == self@,
    {
        FileTreeEntry { name: self.name.clone(), path: self.path.clone(), kind: self.kind }
    }
}

/// The values of a list of entries.
pub open spec fn entry_views(entries: Seq<FileTreeEntry>) -> Seq<EntryView> {
    entries.map_values(|entry: FileTreeEntry| entry@)
}

impl FileTreeEntry {
    /// Whether this entry is a real directory the tree may recurse into. A
    /// symlink, even one pointing at a directory, is never expandable, so the
    /// tree is never followed into it.
    pub fn is_expandable_dir(&self) -> (r: bool)
        ensures
            r == (self.kind == FileEntryKind::Directory),
    {
        match self.kind {
            FileEntryKind::Directory => true,
            _ => false,
        }
    }
}

/// The key that orders entries for display: directories ahead of everything
/// else, then by the lower-case name.
pub open spec fn entry_rows(entry: EntryView) -> Seq<Seq<u32>> {
    seq![
        if entry.kind == FileEntryKind::Directory {
            seq![0u32]
        } else {
            seq![1u32]
        },
        lower_case(entry.name).map_values(|c: char| c as u32),
    ]
}

/// The keys that order a list of entries.
pub open spec fn entry_keys(entries: Seq<EntryView>) -> Seq<Seq<Seq<u32>>> {
    entries.map_values(|entry: EntryView| entry_rows(entry))
}

/// `entries` taken in the given order.
pub open spec fn in_order(entries: Seq<EntryView>, order: Seq<int>) -> Seq<EntryView> {
    order.map_values(|i: int| entries[i])
}

/// `sorted` is the stable sorting of `entries` for display.
pub open spec fn is_sorting_of(sorted: Seq<EntryView>, entries: Seq<EntryView>) -> bool {
    exists|order: Seq<int>| #[trigger]
        is_stable_order(entry_keys(entries), order) && sorted == in_order(entries, order)
}

fn entry_rows_of(entry: &FileTreeEntry) -> (out: Vec<Vec<u32>>)
    ensures
        rows(out@) == entry_rows(entry@),
{
    let mut group: Vec<u32> = Vec::new();
    if entry.is_expandable_dir() {
        group.push(0);
        assert(group@ == seq![0u32]);
    } else {
        group.push(1);
        assert(group@ == seq![1u32]);
    }
    let lower = to_chars(to_lower_case(entry.name.as_str()).as_str());
    let mut name: Vec<u32> = Vec::new();
    let mut i: usize = 0;
    assert(name@ == lower@.take(0).map_values(|c: char| c as u32));
    while i < lower.len()
        invariant
            i <= lower@.len(),
            name@ == lower@.take(i as int).map_values(|c: char| c as u32),
        decreases lower@.len() - i,
    {
        name.push(lower[i] as u32);
        assert(lower@.take(i + 1).map_values(|c: char| c as u32) == lower@.take(
            i as int,
        ).map_values(|c: char| c as u32).push(lower@[i as int] as u32));
        i += 1;
    }
    assert(lower@.take(i as int) == lower@);
    let mut out: Vec<Vec<u32>> = Vec::new();
    out.push(group);
    out.push(name);
    assert(rows(out@) =~= entry_rows(entry@));
    out
}

/// Sort a directory's entries for display: directories first, then files and
/// symlinks, each group ordered case-insensitive alphabetical by name. Every
/// entry passed in is preserved, dotfiles and git-ignored paths included,
/// because the Explorer reflects the filesystem, not git tracking.
pub fn sort_entries(entries: Vec<FileTreeEntry>) -> (sorted: Vec<FileTreeEntry>)
    ensures
        is_sorting_of(entry_views(sorted@), entry_views(entries@)),
{
    let ghost all = entry_views(entries@);
    let mut table: Vec<Vec<Vec<u32>>> = Vec::new();
    let mut n: usize = 0;
    assert(keys(table@) == entry_keys(all.take(0)));
    while n < entries.len()
        invariant
            n <= entries@.len(),
            all == entry_views(entries@),
            keys(table@) == entry_keys(all.take(n as int)),
        decreases entries@.len() - n,
    {
        let ghost before = keys(table@);
        let key = entry_rows_of(&entries[n]);
        table.push(key);
        assert(keys(table@) == before.push(rows(key@)));
        assert(all.take(n + 1) == all.take(n as int).push(entries@[n as int]@));
        assert(entry_keys(all.take(n + 1)) == entry_keys(all.take(n as int)).push(
            entry_rows(entries@[n as int]@),
        ));
        n += 1;
    }
    assert(all.take(n as int) == all);
    let order = stable_order(&table);
    let ghost places = positions(order@);
    let mut sorted: Vec<FileTreeEntry> = Vec::new();
    let mut i: usize = 0;
    while i < order.len()
        invariant
            i <= order@.len(),
            order@.len() == entries@.len(),
            places == positions(order@),
            is_permutation(places, entries@.len() as int),
            sorted@.len() == i,
            forall|x: int| 0 <= x < i ==> (#[trigger] sorted@[x])@ == entries@[places[x]]@,
        decreases order@.len() - i,
    {
        assert(places[i as int] == order@[i as int]);
        sorted.push(entries[order[i]].clone());
        i += 1;
    }
    proof {
        assert(is_stable_order(entry_keys(all), places));
        let target = in_order(all, places);
        assert forall|x: int| 0 <= x < target.len() implies entry_views(sorted@)[x]
            == target[x] by {
            assert(0 <= places[x] < entries@.len());
            assert(sorted@[x]@ == entries@[places[x]]@);
        }
        assert(entry_views(sorted@) == target);
    }
    sorted
}

/// A list of entries has one sorting only.
pub proof fn law_sorting_unique(
    entries: Seq<EntryView>,
    sorted1: Seq<EntryView>,
    sorted2: Seq<EntryView>,
)
    requires
        is_sorting_of(sorted1, entries),
        is_sorting_of(sorted2, entries),
    ensures
        sorted1 == sorted2,
{
    let order1 = choose|order: Seq<int>| #[trigger]
        is_stable_order(entry_keys(entries), order) && sorted1 == in_order(entries, order);
    let order2 = choose|order: Seq<int>| #[trigger]
        is_stable_order(entry_keys(entries), order) && sorted2 == in_order(entries, order);
    crate::order::law_stable_order_unique(entry_keys(entries), order1, order2);
}

/// Sorting keeps every entry, and no directory comes behind anything else.
pub proof fn law_sorting_keeps_entries(entries: Seq<EntryView>, sorted: Seq<EntryView>)
    requires
        is_sorting_of(sorted, entries),
    ensures
        sorted.len() == entries.len(),
        forall|e: EntryView| entries.contains(e) <==> #[trigger] sorted.contains(e),
        forall|i: int, j: int|
            0 <= i < j < sorted.len() && (#[trigger] sorted[j]).kind == FileEntryKind::Directory
                ==> (#[trigger] sorted[i]).kind == FileEntryKind::Directory,
{
    let order = choose|order: Seq<int>| #[trigger]
        is_stable_order(entry_keys(entries), order) && sorted == in_order(entries, order);
    assert forall|e: EntryView| entries.contains(e) <==> #[trigger] sorted.contains(e) by {
        if entries.contains(e) {
            let i = choose|i: int| 0 <= i < entries.len() && entries[i] == e;
            let at = crate::order::lemma_permutation_covers(order, entries.len() as int, i);
            assert(sorted[at] == e);
        }
        if sorted.contains(e) {
            let i = choose|i: int| 0 <= i < sorted.len() && sorted[i] == e;
            assert(0 <= order[i] < entries.len());
            assert(entries[order[i]] == e);
        }
    }
    assert forall|i: int, j: int|
        0 <= i < j < sorted.len() && (#[trigger] sorted[j]).kind
            == FileEntryKind::Directory implies (#[trigger] sorted[i]).kind
        == FileEntryKind::Directory by {
        let k = entry_keys(entries);
        assert(placed_before(k, order[i], order[j]));
        assert(0 <= order[i] < entries.len() && 0 <= order[j] < entries.len());
        let a = k[order[i]];
        let b = k[order[j]];
        assert(b[0] == seq![0u32]);
        if sorted[i].kind != FileEntryKind::Directory {
            assert(a[0] == seq![1u32]);
            assert(a[0][0] == 1 && b[0][0] == 0);
            assert(!crate::order::row_before(a[0], b[0]));
        }
    }
}

/// What the filesystem reports about one child of a directory, without
/// following symlinks.
pub struct DirectoryChild {
    /// The child's name within the directory.
    pub file_name: FsPath,
    /// Its type, `None` where that could not be read.
    pub file_type: Option<ChildType>,
}

/// The type of a directory's child.
#[derive(Debug, Clone, Copy, PartialEq, Eq, Structural)]
pub struct ChildType {
    pub is_symlink: bool,
    pub is_dir: bool,
}

/// The kind that a child's type stands for. A symlink is a symlink whatever it
/// points at, and what could not be read counts as a file.
pub open spec fn kind_of(file_type: Option<ChildType>) -> FileEntryKind {
    match file_type {
        Some(t) => if t.is_symlink {
            FileEntryKind::Symlink
        } else if t.is_dir {
            FileEntryKind::Directory
        } else {
            FileEntryKind::File
        },
        None => FileEntryKind::File,
    }
}

/// The tree entry for a child of `dir`.
pub open spec fn entry_of(dir: Seq<u8>, child: DirectoryChild) -> EntryView {
    EntryView {
        name: lossy_text(child.file_name@),
        path: joined(dir, child.file_name@),
        kind: kind_of(child.file_type),
    }
}

/// The tree entries for the children of `dir`.
pub open spec fn entries_of(dir: Seq<u8>, children: Seq<DirectoryChild>) -> Seq<EntryView> {
    children.map_values(|child: DirectoryChild| entry_of(dir, child))
}

/// Classify a directory's immediate children without following symlinks, and
/// return them sorted for display. Every child is included (dotfiles and
/// git-ignored paths alike). A directory that failed to read (permissions,
/// races, or not a directory) has no listing and yields an empty list rather
/// than an error: the caller caches that empty result so the failed read is
/// never retried in a loop.
pub fn read_dir_sorted(dir: &FsPath, listing: Option<Vec<DirectoryChild>>) -> (entries: Vec<
    FileTreeEntry,
>)
    ensures
        listing is None ==> entries@.len() == 0,
        listing matches Some(children) ==> is_sorting_of(
            entry_views(entries@),
            entries_of(dir@, children@),
        ),
{
    let children = match listing {
        None => {
            return Vec::new();
        },
        Some(children) => children,
    };
    let mut entries: Vec<FileTreeEntry> = Vec::new();
    let mut i: usize = 0;
    assert(entry_views(entries@) == entries_of(dir@, children@.take(0)));
    while i < children.len()
        invariant
            i <= children@.len(),
            entry_views(entries@) == entries_of(dir@, children@.take(i as int)),
        decreases children@.len() - i,
    {
        let child = &children[i];
        let kind = match child.file_type {
            Some(t) => if t.is_symlink {
                FileEntryKind::Symlink
            } else if t.is_dir {
                FileEntryKind::Directory
            } else {
                FileEntryKind::File
            },
            None => FileEntryKind::File,
        };
        let entry = FileTreeEntry {
            name: child.file_name.to_text(),
            path: dir.join(&child.file_name),
            kind,
        };
        let ghost before = entries@;
        entries.push(entry);
        assert(entry_views(entries@) == entry_views(before).push(entry@));
        assert(children@.take(i + 1) == children@.take(i as int).push(children@[i as int]));
        assert(entries_of(dir@, children@.take(i + 1)) == entries_of(
            dir@,
            children@.take(i as int),
        ).push(entry_of(dir@, children@[i as int])));
        i += 1;
    }
    assert(children@.take(i as int) == children@);
    sort_entries(entries)
}

/// A name clipped to `max_width` characters, the last of them an ellipsis where
/// something was cut off.
pub open spec fn clipped(name: Seq<char>, max_width: nat) -> Seq<char> {
    if name.len() <= max_width {
        name
    } else if max_width == 0 {
        seq![]
    } else {
        name.take(max_width - 1).push('\u{2026}')
    }
}

/// Truncate a display name to fit `max_width` columns, appending an ellipsis
/// when it is clipped. Widths below 1 yield an empty string; a width of 1 with
/// an over-long name yields just the ellipsis.
pub fn truncate_with_ellipsis(name: &str, max_width: usize) -> (out: String)
    ensures
        out@ == clipped(name@, max_width as nat),
        out@.len() <= max_width,
{
    if max_width == 0 {
        let empty = String::new();
        assert(empty@ == Seq::<char>::empty());
        assert(name@.len() == 0 ==> name@ == Seq::<char>::empty());
        return empty;
    }
    let chars = to_chars(name);
    if chars.len() <= max_width {
        return name.to_string();
    }
    let mut out = from_chars(slice_subrange(chars.as_slice(), 0, max_width - 1));
    assert(out@ == name@.take(max_width - 1));
    out.push('\u{2026}');
    out
}

/// One visible row of the flattened Explorer tree: either an entry node or a
/// dim indicator beneath an expanded directory that has no children (genuinely
/// empty, or unreadable).
#[derive(Debug, PartialEq, Eq)]
pub enum FileTreeRow {
    Node(FileTreeNode),
    /// Placeholder shown when an expanded directory loaded no entries. `depth`
    /// is the indentation level of the (would-be) children.
    Empty { depth: usize },
}

/// An entry node positioned in the flattened tree, carrying its indentation
/// `depth` and (for directories) whether it is currently expanded.
#[derive(Debug, PartialEq, Eq)]
pub struct FileTreeNode {
    pub name: String,
    pub path: FsPath,
    pub kind: FileEntryKind,
    pub depth: usize,
    /// True when this is an expandable directory currently in the expanded set.
    pub expanded: bool,
}

/// The mathematical value of a [`FileTreeRow`].
pub enum RowView {
    Node(NodeView),
    Empty { depth: nat },
}

/// The mathematical value of a [`FileTreeNode`].
pub struct NodeView {
    pub name: Seq<char>,
    pub path: Seq<u8>,
    pub kind: FileEntryKind,
    pub depth: nat,
    pub expanded: bool,
}

impl View for FileTreeNode {
    type V = NodeView;

    open spec fn view(&self) -> NodeView {
        NodeView {
            name: self.name@,
            path: self.path@,
            kind: self.kind,
            depth: self.depth as nat,
            expanded: self.expanded,
        }
    }
}

impl View for FileTreeRow {
    type V = RowView;

    open spec fn view(&self) -> RowView {
        match self {
            FileTreeRow::Node(node) => RowView::Node(node@),
            FileTreeRow::Empty { depth } => RowView::Empty { depth: *depth as nat },
        }
    }
}

impl Clone for FileTreeNode {
    fn clone(&self) -> (r: Self)
        ensures
            r@ == self@,
    {
        FileTreeNode {
            name: self.name.clone(),
            path: self.path.clone(),
            kind: self.kind,
            depth: self.depth,
            expanded: self.expanded,
        }
    }
}

impl Clone for FileTreeRow {
    fn clone(&self) -> (r: Self)
        ensures
            r@ == self@,
    {
        match self {
            FileTreeRow::Node(node) => FileTreeRow::Node(node.clone()),
            FileTreeRow::Empty { depth } => FileTreeRow::Empty { depth: *depth },
        }
    }
}

/// The values of a list of rows.
pub open spec fn row_views(list: Seq<FileTreeRow>) -> Seq<RowView> {
    list.map_values(|row: FileTreeRow| row@)
}

/// The loaded directories, with the values of their entries.
pub open spec fn cache_view(cache: Map<PathKey, Vec<FileTreeEntry>>) -> Map<
    PathKey,
    Seq<EntryView>,
> {
    cache.map_values(|entries: Vec<FileTreeEntry>| entry_views(entries@))
}

/// The loaded children of a directory; none where it is not loaded.
pub open spec fn children_of(cache: Map<PathKey, Seq<EntryView>>, dir: PathKey) -> Seq<EntryView> {
    if cache.contains_key(dir) {
        cache[dir]
    } else {
        seq![]
    }
}

/// Whether the tree shows what is inside the entry.
pub open spec fn is_open(entry: EntryView, expanded: Set<PathKey>) -> bool {
    entry.kind == FileEntryKind::Directory && expanded.contains(path_key(entry.path))
}

/// `rank` falls on every step from a directory into an open entry with children.
pub open spec fn is_rank(
    rank: spec_fn(PathKey) -> nat,
    cache: Map<PathKey, Seq<EntryView>>,
    expanded: Set<PathKey>,
) -> bool {
    forall|dir: PathKey, i: int|
        0 <= i < children_of(cache, dir).len() && is_open(
            #[trigger] children_of(cache, dir)[i],
            expanded,
        ) && children_of(cache, path_key(children_of(cache, dir)[i].path)).len() > 0 ==> rank(
            path_key(children_of(cache, dir)[i].path),
        ) < rank(dir)
}

/// Whether no open directory is found inside itself, so that the walk down the
/// open directories ends.
pub open spec fn is_well_founded(
    cache: Map<PathKey, Seq<EntryView>>,
    expanded: Set<PathKey>,
) -> bool {
    exists|rank: spec_fn(PathKey) -> nat| is_rank(rank, cache, expanded)
}

/// The row of an entry by itself.
pub open spec fn node_row(entry: EntryView, depth: nat, expanded: Set<PathKey>) -> RowView {
    RowView::Node(
        NodeView {
            name: entry.name,
            path: entry.path,
            kind: entry.kind,
            depth,
            expanded: is_open(entry, expanded),
        },
    )
}

/// The rows below the first `n` entries of `dir`: each entry, and behind an open
/// one what is inside it, or the indicator that nothing is.
pub open spec fn rows_below(
    dir: PathKey,
    n: int,
    depth: nat,
    cache: Map<PathKey, Seq<EntryView>>,
    expanded: Set<PathKey>,
    rank: spec_fn(PathKey) -> nat,
) -> Seq<RowView>
    decreases rank(dir), n,
    when is_rank(rank, cache, expanded) && n <= children_of(cache, dir).len()
{
    if n <= 0 {
        seq![]
    } else {
        let entry = children_of(cache, dir)[n - 1];
        let inside = path_key(entry.path);
        let before = rows_below(dir, n - 1, depth, cache, expanded, rank).push(
            node_row(entry, depth, expanded),
        );
        if !is_open(entry, expanded) {
            before
        } else if children_of(cache, inside).len() == 0 {
            before.push(RowView::Empty { depth: depth + 1 })
        } else {
            before + rows_below(
                inside,
                children_of(cache, inside).len() as int,
                depth + 1,
                cache,
                expanded,
                rank,
            )
        }
    }
}

/// The rows that the tree below `root` shows.
pub open spec fn tree_rows(
    root: PathKey,
    cache: Map<PathKey, Seq<EntryView>>,
    expanded: Set<PathKey>,
) -> Seq<RowView> {
    rows_below(
        root,
        children_of(cache, root).len() as int,
        0,
        cache,
        expanded,
        choose|rank: spec_fn(PathKey) -> nat| is_rank(rank, cache, expanded),
    )
}

/// The rows do not depend on the rank that shows the walk to end.
pub proof fn law_rows_need_no_rank(
    dir: PathKey,
    n: int,
    depth: nat,
    cache: Map<PathKey, Seq<EntryView>>,
    expanded: Set<PathKey>,
    rank1: spec_fn(PathKey) -> nat,
    rank2: spec_fn(PathKey) -> nat,
)
    requires
        is_rank(rank1, cache, expanded),
        is_rank(rank2, cache, expanded),
        n <= children_of(cache, dir).len(),
    ensures
        rows_below(dir, n, depth, cache, expanded, rank1) == rows_below(
            dir,
            n,
            depth,
            cache,
            expanded,
            rank2,
        ),
    decreases rank1(dir), n,
{
    if n > 0 {
        let entry = children_of(cache, dir)[n - 1];
        let inside = path_key(entry.path);
        law_rows_need_no_rank(dir, n - 1, depth, cache, expanded, rank1, rank2);
        if is_open(entry, expanded) && children_of(cache, inside).len() > 0 {
            law_rows_need_no_rank(
                inside,
                children_of(cache, inside).len() as int,
                depth + 1,
                cache,
                expanded,
                rank1,
                rank2,
            );
        }
    }
}

/// The number of loaded directories that rank below `k`.
spec fn height(
    rank: spec_fn(PathKey) -> nat,
    cache: Map<PathKey, Seq<EntryView>>,
    k: PathKey,
) -> nat {
    cache.dom().filter(|d: PathKey| rank(d) < rank(k)).len()
}

/// Where the walk ends, it ends within as many steps as directories are loaded.
proof fn lemma_heights_rank(
    rank: spec_fn(PathKey) -> nat,
    cache: Map<PathKey, Seq<EntryView>>,
    expanded: Set<PathKey>,
)
    requires
        is_rank(rank, cache, expanded),
        cache.dom().finite(),
    ensures
        is_rank(|k: PathKey| height(rank, cache, k), cache, expanded),
        forall|k: PathKey|
            cache.contains_key(k) ==> #[trigger] height(rank, cache, k) < cache.dom().len(),
{
    let heights = |k: PathKey| height(rank, cache, k);
    assert forall|k: PathKey| cache.contains_key(k) implies #[trigger] height(rank, cache, k)
        < cache.dom().len() by {
        let low = cache.dom().filter(|d: PathKey| rank(d) < rank(k));
        assert(low.subset_of(cache.dom().remove(k)));
        vstd::set_lib::lemma_len_subset(low, cache.dom().remove(k));
    }
    assert forall|dir: PathKey, i: int|
        0 <= i < children_of(cache, dir).len() && is_open(
            #[trigger] children_of(cache, dir)[i],
            expanded,
        ) && children_of(cache, path_key(children_of(cache, dir)[i].path)).len()
            > 0 implies heights(path_key(children_of(cache, dir)[i].path)) < heights(dir) by {
        let inside = path_key(children_of(cache, dir)[i].path);
        let low = cache.dom().filter(|d: PathKey| rank(d) < rank(inside));
        let high = cache.dom().filter(|d: PathKey| rank(d) < rank(dir));
        cache.dom().lemma_len_filter(|d: PathKey| rank(d) < rank(dir));
        cache.dom().lemma_len_filter(|d: PathKey| rank(d) < rank(inside));
        assert(cache.contains_key(inside));
        assert(high.contains(inside) && !low.contains(inside));
        assert(low.subset_of(high.remove(inside)));
        vstd::set_lib::lemma_len_subset(low, high.remove(inside));
    }
}

/// Entries lie inside the directory that lists them.
pub open spec fn is_nested(cache: Map<PathKey, Seq<EntryView>>) -> bool {
    forall|dir: PathKey, i: int|
        0 <= i < children_of(cache, dir).len() ==> is_ancestor(
            dir,
            path_key((#[trigger] children_of(cache, dir)[i]).path),
        )
}

/// Where entries lie inside the directory that lists them, the walk down the
/// open directories ends.
pub proof fn law_nested_is_well_founded(
    cache: Map<PathKey, Seq<EntryView>>,
    expanded: Set<PathKey>,
)
    requires
        is_nested(cache),
        cache.dom().finite(),
    ensures
        is_well_founded(cache, expanded),
{
    let deeper = |k: PathKey|
        cache.dom().filter(|d: PathKey| d.parts.len() > k.parts.len());
    let rank = |k: PathKey| deeper(k).len();
    assert forall|dir: PathKey, i: int|
        0 <= i < children_of(cache, dir).len() && is_open(
            #[trigger] children_of(cache, dir)[i],
            expanded,
        ) && children_of(cache, path_key(children_of(cache, dir)[i].path)).len()
            > 0 implies rank(path_key(children_of(cache, dir)[i].path)) < rank(dir) by {
        let inside = path_key(children_of(cache, dir)[i].path);
        assert(cache.contains_key(inside));
        assert(is_ancestor(dir, inside));
        cache.dom().lemma_len_filter(|d: PathKey| d.parts.len() > dir.parts.len());
        assert(deeper(dir).contains(inside) && !deeper(inside).contains(inside));
        assert(deeper(inside).subset_of(deeper(dir).remove(inside)));
        vstd::set_lib::lemma_len_subset(deeper(inside), deeper(dir).remove(inside));
    }
    assert(is_rank(rank, cache, expanded));
}

fn flatten_into(
    dir: &FsPath,
    depth: usize,
    cache: &PathMap<Vec<FileTreeEntry>>,
    expanded: &PathSet,
    list: &mut Vec<FileTreeRow>,
    Ghost(rank): Ghost<spec_fn(PathKey) -> nat>,
)
    requires
        is_rank(rank, cache_view(cache@), expanded@),
        children_of(cache_view(cache@), path_key(dir@)).len() > 0 ==> depth + rank(
            path_key(dir@),
        ) < usize::MAX,
    ensures
        row_views(final(list)@) == row_views(old(list)@) + rows_below(
            path_key(dir@),
            children_of(cache_view(cache@), path_key(dir@)).len() as int,
            depth as nat,
            cache_view(cache@),
            expanded@,
            rank,
        ),
    decreases rank(path_key(dir@)),
{
    let ghost key = path_key(dir@);
    let ghost loaded = cache_view(cache@);
    let ghost start = row_views(list@);
    let children = match cache.get(dir) {
        None => {
            assert(row_views(list@) == start + Seq::<RowView>::empty());
            return;
        },
        Some(children) => children,
    };
    assert(children_of(loaded, key) == entry_views(children@));
    let mut i: usize = 0;
    assert(row_views(list@) == start + Seq::<RowView>::empty());
    while i < children.len()
        invariant
            i <= children@.len(),
            key == path_key(dir@),
            loaded == cache_view(cache@),
            children_of(loaded, key) == entry_views(children@),
            is_rank(rank, loaded, expanded@),
            children@.len() > 0 ==> depth + rank(key) < usize::MAX,
            row_views(list@) == start + rows_below(
                key,
                i as int,
                depth as nat,
                loaded,
                expanded@,
                rank,
            ),
        decreases children@.len() - i,
    {
        let entry = &children[i];
        let ghost inside = path_key(entry.path@);
        assert(children_of(loaded, key)[i as int] == entry@);
        let expanded_here = entry.is_expandable_dir() && expanded.contains(&entry.path);
        let node = FileTreeNode {
            name: entry.name.clone(),
            path: entry.path.clone(),
            kind: entry.kind,
            depth,
            expanded: expanded_here,
        };
        let ghost before = list@;
        list.push(FileTreeRow::Node(node));
        assert(row_views(list@) == row_views(before).push(
            node_row(entry@, depth as nat, expanded@),
        ));
        let ghost with_node = list@;
        if expanded_here {
            let is_empty = match cache.get(&entry.path) {
                Some(grandchildren) => grandchildren.len() == 0,
                None => true,
            };
            assert(is_empty == (children_of(loaded, inside).len() == 0)) by {
                if loaded.contains_key(inside) {
                    assert(loaded[inside] == entry_views(cache@[inside]@));
                }
            }
            if is_empty {
                list.push(FileTreeRow::Empty { depth: depth + 1 });
                assert(row_views(list@) == row_views(with_node).push(
                    RowView::Empty { depth: (depth + 1) as nat },
                ));
            } else {
                flatten_into(&entry.path, depth + 1, cache, expanded, list, Ghost(rank));
            }
        }
        i += 1;
        assert(row_views(list@) =~= start + rows_below(
            key,
            i as int,
            depth as nat,
            loaded,
            expanded@,
            rank,
        ));
    }
}

/// Flatten the lazily-loaded tree into the ordered rows the Explorer renders and
/// scrolls over. Walks the `root` directory's cached children depth-first,
/// descending into a directory only when it is in `expanded` (and so was loaded
/// into `cache`). Symlinks are never expandable, so the walk never follows one,
/// preventing cycles. An expanded directory whose cached child list is empty
/// contributes a single [`FileTreeRow::Empty`] indicator rather than recursing.
pub fn flatten_tree(
    root: &FsPath,
    cache: &PathMap<Vec<FileTreeEntry>>,
    expanded: &PathSet,
) -> (list: Vec<FileTreeRow>)
    requires
        is_well_founded(cache_view(cache@), expanded@),
    ensures
        row_views(list@) == tree_rows(path_key(root@), cache_view(cache@), expanded@),
{
    let loaded_count: usize = cache.len();
    let ghost loaded = cache_view(cache@);
    let ghost some_rank = choose|rank: spec_fn(PathKey) -> nat| is_rank(rank, loaded, expanded@);
    let ghost rank = |k: PathKey| height(some_rank, loaded, k);
    proof {
        assert(loaded.dom() =~= cache@.dom());
        lemma_heights_rank(some_rank, loaded, expanded@);
        assert(loaded.dom().len() == loaded_count);
        law_rows_need_no_rank(
            path_key(root@),
            children_of(loaded, path_key(root@)).len() as int,
            0,
            loaded,
            expanded@,
            some_rank,
            rank,
        );
    }
    let mut list: Vec<FileTreeRow> = Vec::new();
    assert(row_views(list@) == Seq::<RowView>::empty());
    flatten_into(root, 0, cache, expanded, &mut list, Ghost(rank));
    list
}

/// Only a directory is ever shown as expanded, so a symlink is never followed.
pub proof fn law_only_directories_open(
    dir: PathKey,
    n: int,
    depth: nat,
    cache: Map<PathKey, Seq<EntryView>>,
    expanded: Set<PathKey>,
    rank: spec_fn(PathKey) -> nat,
)
    requires
        is_rank(rank, cache, expanded),
        n <= children_of(cache, dir).len(),
    ensures
        forall|i: int|
            0 <= i < rows_below(dir, n, depth, cache, expanded, rank).len() ==> match (
            #[trigger] rows_below(dir, n, depth, cache, expanded, rank)[i]) {
                RowView::Node(node) => node.expanded ==> node.kind == FileEntryKind::Directory
                    && expanded.contains(path_key(node.path)),
                RowView::Empty { depth: _ } => true,
            },
    decreases rank(dir), n,
{
    if n > 0 {
        let entry = children_of(cache, dir)[n - 1];
        let inside = path_key(entry.path);
        law_only_directories_open(dir, n - 1, depth, cache, expanded, rank);
        if is_open(entry, expanded) && children_of(cache, inside).len() > 0 {
            law_only_directories_open(
                inside,
                children_of(cache, inside).len() as int,
                depth + 1,
                cache,
                expanded,
                rank,
            );
        }
    }
}

/// With nothing expanded the tree shows the root's children and no more.
pub proof fn law_collapsed_tree(
    root: PathKey,
    n: int,
    cache: Map<PathKey, Seq<EntryView>>,
    rank: spec_fn(PathKey) -> nat,
)
    requires
        is_rank(rank, cache, Set::empty()),
        0 <= n <= children_of(cache, root).len(),
    ensures
        rows_below(root, n, 0, cache, Set::empty(), rank) == children_of(cache, root).take(
            n,
        ).map_values(|entry: EntryView| node_row(entry, 0, Set::empty())),
    decreases n,
{
    let children = children_of(cache, root);
    if n > 0 {
        law_collapsed_tree(root, n - 1, cache, rank);
        assert(children.take(n) == children.take(n - 1).push(children[n - 1]));
        assert(children.take(n).map_values(|entry: EntryView| node_row(entry, 0, Set::empty()))
            == children.take(n - 1).map_values(
            |entry: EntryView| node_row(entry, 0, Set::empty()),
        ).push(node_row(children[n - 1], 0, Set::empty())));
    } else {
        assert(children.take(0).map_values(|entry: EntryView| node_row(entry, 0, Set::empty()))
            == Seq::<RowView>::empty());
    }
}

/// The first `m` entries show the first rows of what `n` entries show.
proof fn lemma_rows_prefix(
    dir: PathKey,
    m: int,
    n: int,
    depth: nat,
    cache: Map<PathKey, Seq<EntryView>>,
    expanded: Set<PathKey>,
    rank: spec_fn(PathKey) -> nat,
)
    requires
        is_rank(rank, cache, expanded),
        0 <= m <= n <= children_of(cache, dir).len(),
    ensures
        rows_below(dir, m, depth, cache, expanded, rank).is_prefix_of(
            rows_below(dir, n, depth, cache, expanded, rank),
        ),
    decreases n - m,
{
    if m < n {
        lemma_rows_prefix(dir, m, n - 1, depth, cache, expanded, rank);
    }
}

/// The rows, moved to the right by as many levels.
spec fn deepened(rows: Seq<RowView>, by: nat) -> Seq<RowView> {
    rows.map_values(
        |row: RowView|
            match row {
                RowView::Node(node) => RowView::Node(
                    NodeView { depth: node.depth + by, ..node },
                ),
                RowView::Empty { depth } => RowView::Empty { depth: depth + by },
            },
    )
}

/// What is shown below a directory is the same at every depth but for the depth.
proof fn lemma_rows_at_depth(
    dir: PathKey,
    n: int,
    depth: nat,
    by: nat,
    cache: Map<PathKey, Seq<EntryView>>,
    expanded: Set<PathKey>,
    rank: spec_fn(PathKey) -> nat,
)
    requires
        is_rank(rank, cache, expanded),
        n <= children_of(cache, dir).len(),
    ensures
        rows_below(dir, n, depth + by, cache, expanded, rank) == deepened(
            rows_below(dir, n, depth, cache, expanded, rank),
            by,
        ),
    decreases rank(dir), n,
{
    let here = rows_below(dir, n, depth, cache, expanded, rank);
    let there = rows_below(dir, n, depth + by, cache, expanded, rank);
    if n > 0 {
        let entry = children_of(cache, dir)[n - 1];
        let inside = path_key(entry.path);
        lemma_rows_at_depth(dir, n - 1, depth, by, cache, expanded, rank);
        if is_open(entry, expanded) && children_of(cache, inside).len() > 0 {
            lemma_rows_at_depth(
                inside,
                children_of(cache, inside).len() as int,
                depth + 1,
                by,
                cache,
                expanded,
                rank,
            );
        }
    }
    assert(there =~= deepened(here, by));
}

/// The tree shows the loaded entries of its root, one after the other in their order
/// and at no depth. Between an entry and the next one stands nothing, unless the entry
/// is an expanded directory: then it is the tree of that directory, each row of it one
/// deeper, or the indicator that nothing is inside. `at` is where the entries stand.
pub proof fn law_tree_of_trees(
    root: PathKey,
    entries: Seq<EntryView>,
    cache: Map<PathKey, Seq<EntryView>>,
    expanded: Set<PathKey>,
) -> (at: Seq<int>)
    requires
        is_well_founded(cache, expanded),
        cache.contains_key(root) ==> entries == cache[root],
        !cache.contains_key(root) ==> entries.len() == 0,
    ensures
        ({
            let rows = tree_rows(root, cache, expanded);
            &&& at.len() == entries.len() + 1
            &&& at[0] == 0
            &&& at.last() == rows.len()
            &&& forall|i: int|
                0 <= i < entries.len() ==> {
                    let entry = #[trigger] entries[i];
                    let inside = path_key(entry.path);
                    let open = entry.kind == FileEntryKind::Directory && expanded.contains(inside);
                    let inner = tree_rows(inside, cache, expanded);
                    let has_entries = cache.contains_key(inside) && cache[inside].len() > 0;
                    &&& 0 <= at[i] < at[i + 1] <= rows.len()
                    &&& rows[at[i]] == RowView::Node(
                        NodeView {
                            name: entry.name,
                            path: entry.path,
                            kind: entry.kind,
                            depth: 0,
                            expanded: open,
                        },
                    )
                    &&& !open ==> at[i + 1] == at[i] + 1
                    &&& open && !has_entries ==> at[i + 1] == at[i] + 2 && rows[at[i] + 1] == (
                    RowView::Empty { depth: 1 })
                    &&& open && has_entries ==> at[i + 1] == at[i] + 1 + inner.len()
                        && forall|j: int|
                        0 <= j < inner.len() ==> match #[trigger] inner[j] {
                            RowView::Node(node) => rows[at[i] + 1 + j] == RowView::Node(
                                NodeView { depth: node.depth + 1, ..node },
                            ),
                            RowView::Empty { depth } => rows[at[i] + 1 + j] == (RowView::Empty {
                                depth: depth + 1,
                            }),
                        }
                }
        }),
{
    let rank = choose|rank: spec_fn(PathKey) -> nat| is_rank(rank, cache, expanded);
    assert(entries =~= children_of(cache, root));
    let n = entries.len() as int;
    let rows = tree_rows(root, cache, expanded);
    let at = Seq::new(
        (n + 1) as nat,
        |i: int| rows_below(root, i, 0, cache, expanded, rank).len() as int,
    );
    assert forall|i: int| 0 <= i < n implies {
        let entry = #[trigger] entries[i];
        let inside = path_key(entry.path);
        let open = entry.kind == FileEntryKind::Directory && expanded.contains(inside);
        let inner = tree_rows(inside, cache, expanded);
        let has_entries = cache.contains_key(inside) && cache[inside].len() > 0;
        &&& 0 <= at[i] < at[i + 1] <= rows.len()
        &&& rows[at[i]] == RowView::Node(
            NodeView {
                name: entry.name,
                path: entry.path,
                kind: entry.kind,
                depth: 0,
                expanded: open,
            },
        )
        &&& !open ==> at[i + 1] == at[i] + 1
        &&& open && !has_entries ==> at[i + 1] == at[i] + 2 && rows[at[i] + 1] == (RowView::Empty {
            depth: 1,
        })
        &&& open && has_entries ==> at[i + 1] == at[i] + 1 + inner.len() && forall|j: int|
            0 <= j < inner.len() ==> match #[trigger] inner[j] {
                RowView::Node(node) => rows[at[i] + 1 + j] == RowView::Node(
                    NodeView { depth: node.depth + 1, ..node },
                ),
                RowView::Empty { depth } => rows[at[i] + 1 + j] == (RowView::Empty {
                    depth: depth + 1,
                }),
            }
    } by {
        let entry = entries[i];
        let inside = path_key(entry.path);
        let inner = tree_rows(inside, cache, expanded);
        let some = rows_below(root, i, 0, cache, expanded, rank);
        let more = rows_below(root, i + 1, 0, cache, expanded, rank);
        lemma_rows_prefix(root, i + 1, n, 0, cache, expanded, rank);
        assert(more.is_prefix_of(rows));
        assert(more[some.len() as int] == node_row(entry, 0, expanded));
        assert(rows[some.len() as int] == more[some.len() as int]);
        if is_open(entry, expanded) {
            if children_of(cache, inside).len() == 0 {
                assert(more[some.len() as int + 1] == (RowView::Empty { depth: 1 }));
                assert(rows[some.len() as int + 1] == more[some.len() as int + 1]);
            } else {
                let count = children_of(cache, inside).len() as int;
                lemma_rows_at_depth(inside, count, 0, 1, cache, expanded, rank);
                let below = rows_below(inside, count, 1, cache, expanded, rank);
                assert(below == deepened(inner, 1));
                assert forall|j: int| 0 <= j < inner.len() implies match #[trigger] inner[j] {
                    RowView::Node(node) => rows[at[i] + 1 + j] == RowView::Node(
                        NodeView { depth: node.depth + 1, ..node },
                    ),
                    RowView::Empty { depth } => rows[at[i] + 1 + j] == (RowView::Empty {
                        depth: depth + 1,
                    }),
                } by {
                    assert(more[some.len() + 1 + j] == below[j]);
                    assert(rows[some.len() + 1 + j] == more[some.len() + 1 + j]);
                }
            }
        }
    }
    at
}

proof fn lemma_depths(
    dir: PathKey,
    n: int,
    depth: nat,
    cache: Map<PathKey, Seq<EntryView>>,
    expanded: Set<PathKey>,
    rank: spec_fn(PathKey) -> nat,
)
    requires
        is_rank(rank, cache, expanded),
        n <= children_of(cache, dir).len(),
        forall|d: PathKey, i: int|
            0 <= i < children_of(cache, d).len() ==> path_key(
                (#[trigger] children_of(cache, d)[i]).path,
            ).parts.len() == d.parts.len() + 1,
    ensures
        forall|i: int|
            0 <= i < rows_below(dir, n, depth, cache, expanded, rank).len() ==> match (
            #[trigger] rows_below(dir, n, depth, cache, expanded, rank)[i]) {
                RowView::Node(node) => node.depth + dir.parts.len() + 1 == depth + path_key(
                    node.path,
                ).parts.len(),
                RowView::Empty { depth: _ } => true,
            },
    decreases rank(dir), n,
{
    if n > 0 {
        let entry = children_of(cache, dir)[n - 1];
        let inside = path_key(entry.path);
        lemma_depths(dir, n - 1, depth, cache, expanded, rank);
        if is_open(entry, expanded) && children_of(cache, inside).len() > 0 {
            lemma_depths(
                inside,
                children_of(cache, inside).len() as int,
                depth + 1,
                cache,
                expanded,
                rank,
            );
        }
    }
}

/// Where every directory lists what lies directly in it, an entry stands as deep as its
/// path has components beyond the root and the entry itself.
pub proof fn law_depth_counts_components(
    root: PathKey,
    cache: Map<PathKey, Seq<EntryView>>,
    expanded: Set<PathKey>,
)
    requires
        is_well_founded(cache, expanded),
        forall|dir: PathKey, i: int|
            0 <= i < children_of(cache, dir).len() ==> path_key(
                (#[trigger] children_of(cache, dir)[i]).path,
            ).parts.len() == dir.parts.len() + 1,
    ensures
        forall|i: int|
            0 <= i < tree_rows(root, cache, expanded).len() ==> match (#[trigger] tree_rows(
                root,
                cache,
                expanded,
            )[i]) {
                RowView::Node(node) => node.depth + root.parts.len() + 1 == path_key(
                    node.path,
                ).parts.len(),
                RowView::Empty { depth: _ } => true,
            },
{
    let rank = choose|rank: spec_fn(PathKey) -> nat| is_rank(rank, cache, expanded);
    lemma_depths(root, children_of(cache, root).len() as int, 0, cache, expanded, rank);
}

/// How deep a row stands.
pub open spec fn row_depth(row: RowView) -> nat {
    match row {
        RowView::Node(node) => node.depth,
        RowView::Empty { depth } => depth,
    }
}

/// The row is that of a directory whose inside is shown.
pub open spec fn is_opened(row: RowView) -> bool {
    row matches RowView::Node(node) && node.expanded
}

proof fn lemma_depth_steps(
    dir: PathKey,
    n: int,
    depth: nat,
    cache: Map<PathKey, Seq<EntryView>>,
    expanded: Set<PathKey>,
    rank: spec_fn(PathKey) -> nat,
)
    requires
        is_rank(rank, cache, expanded),
        n <= children_of(cache, dir).len(),
    ensures
        ({
            let rows = rows_below(dir, n, depth, cache, expanded, rank);
            &&& n > 0 ==> rows.len() > 0 && row_depth(rows[0]) == depth
            &&& rows.len() > 0 ==> !is_opened(rows.last())
            &&& forall|i: int| 0 <= i < rows.len() ==> row_depth(#[trigger] rows[i]) >= depth
            &&& forall|i: int|
                #![trigger rows[i]]
                0 < i < rows.len() ==> if is_opened(rows[i - 1]) {
                    row_depth(rows[i]) == row_depth(rows[i - 1]) + 1
                } else {
                    row_depth(rows[i]) <= row_depth(rows[i - 1])
                }
        }),
    decreases rank(dir), n,
{
    if n > 0 {
        let rows = rows_below(dir, n, depth, cache, expanded, rank);
        let entry = children_of(cache, dir)[n - 1];
        let inside = path_key(entry.path);
        let shorter = rows_below(dir, n - 1, depth, cache, expanded, rank);
        lemma_depth_steps(dir, n - 1, depth, cache, expanded, rank);
        if n > 1 {
            assert(rows[0] == shorter[0]);
        }
        assert(rows[shorter.len() as int] == node_row(entry, depth, expanded));
        let count = children_of(cache, inside).len() as int;
        let below = rows_below(inside, count, depth + 1, cache, expanded, rank);
        let goes_in = is_open(entry, expanded) && count > 0;
        if goes_in {
            lemma_depth_steps(inside, count, depth + 1, cache, expanded, rank);
            assert(rows.last() == below.last());
        }
        assert forall|i: int| 0 <= i < rows.len() implies row_depth(#[trigger] rows[i])
            >= depth by {
            if i < shorter.len() {
                assert(rows[i] == shorter[i]);
            } else if i > shorter.len() && goes_in {
                assert(rows[i] == below[i - shorter.len() - 1]);
            }
        }
        assert forall|i: int|
            #![trigger rows[i]]
            0 < i < rows.len() implies if is_opened(rows[i - 1]) {
            row_depth(rows[i]) == row_depth(rows[i - 1]) + 1
        } else {
            row_depth(rows[i]) <= row_depth(rows[i - 1])
        } by {
            if i < shorter.len() {
                assert(rows[i] == shorter[i] && rows[i - 1] == shorter[i - 1]);
            } else if i == shorter.len() {
                assert(rows[i - 1] == shorter[i - 1]);
            } else if goes_in {
                assert(rows[i] == below[i - shorter.len() - 1]);
                if i > shorter.len() + 1 {
                    assert(rows[i - 1] == below[i - shorter.len() - 2]);
                }
            }
        }
    }
}

/// What follows an opened directory stands one deeper than it, and what follows any
/// other row stands no deeper than that.
pub proof fn law_rows_deepen_below_opened(
    root: PathKey,
    cache: Map<PathKey, Seq<EntryView>>,
    expanded: Set<PathKey>,
)
    requires
        is_well_founded(cache, expanded),
    ensures
        ({
            let rows = tree_rows(root, cache, expanded);
            &&& rows.len() > 0 ==> row_depth(rows[0]) == 0 && !is_opened(rows.last())
            &&& forall|i: int|
                #![trigger rows[i]]
                0 < i < rows.len() ==> if is_opened(rows[i - 1]) {
                    row_depth(rows[i]) == row_depth(rows[i - 1]) + 1
                } else {
                    row_depth(rows[i]) <= row_depth(rows[i - 1])
                }
        }),
{
    let rank = choose|rank: spec_fn(PathKey) -> nat| is_rank(rank, cache, expanded);
    lemma_depth_steps(root, children_of(cache, root).len() as int, 0, cache, expanded, rank);
}

proof fn lemma_codes_differ(a: char, b: char)
    requires
        a != b,
    ensures
        a as u32 != b as u32,
{
}

/// `a` does not come after `b` in the order of texts: where they differ first `a` has
/// the smaller character, or `b` continues `a`.
pub open spec fn not_after(a: Seq<char>, b: Seq<char>) -> bool {
    exists|k: int|
        #![trigger a.take(k)]
        0 <= k <= a.len() && k <= b.len() && a.take(k) == b.take(k) && (k == a.len() || (k < b.len()
            && (a[k] as u32) < b[k] as u32))
}

/// In a sorted list, of two entries that are both directories or both not, the lower-case
/// name of the earlier one does not come after that of the later one, and directories
/// stand ahead of everything else. The list holds each entry once, and entries of the same
/// group with the same lower-case name in the order that they had. `order` is where the
/// entries come from.
pub proof fn law_sorted_by_name(entries: Seq<EntryView>, sorted: Seq<EntryView>) -> (order: Seq<
    int,
>)
    requires
        is_sorting_of(sorted, entries),
    ensures
        sorted.len() == entries.len() == order.len(),
        forall|i: int|
            0 <= i < sorted.len() ==> 0 <= #[trigger] order[i] < entries.len() && sorted[i]
                == entries[order[i]],
        forall|i: int, j: int|
            0 <= i < j < sorted.len() ==> #[trigger] order[i] != #[trigger] order[j],
        forall|i: int, j: int|
            0 <= i < j < sorted.len() ==> {
                let a = #[trigger] sorted[i];
                let b = #[trigger] sorted[j];
                let a_is_dir = a.kind == FileEntryKind::Directory;
                let b_is_dir = b.kind == FileEntryKind::Directory;
                &&& b_is_dir ==> a_is_dir
                &&& a_is_dir == b_is_dir ==> not_after(lower_case(a.name), lower_case(b.name))
                &&& a_is_dir == b_is_dir && lower_case(a.name) == lower_case(b.name) ==> order[i]
                    < order[j]
            },
{
    let order = choose|order: Seq<int>| #[trigger]
        is_stable_order(entry_keys(entries), order) && sorted == in_order(entries, order);
    let k = entry_keys(entries);
    law_sorting_keeps_entries(entries, sorted);
    assert forall|i: int, j: int| 0 <= i < j < sorted.len() implies {
        let a = #[trigger] sorted[i];
        let b = #[trigger] sorted[j];
        let a_is_dir = a.kind == FileEntryKind::Directory;
        let b_is_dir = b.kind == FileEntryKind::Directory;
        &&& b_is_dir ==> a_is_dir
        &&& a_is_dir == b_is_dir ==> not_after(lower_case(a.name), lower_case(b.name))
        &&& a_is_dir == b_is_dir && lower_case(a.name) == lower_case(b.name) ==> order[i]
            < order[j]
    } by {
        let a = sorted[i];
        let b = sorted[j];
        assert(placed_before(k, order[i], order[j]));
        assert(0 <= order[i] < entries.len() && 0 <= order[j] < entries.len());
        let x = k[order[i]];
        let y = k[order[j]];
        assert(x == entry_rows(a) && y == entry_rows(b));
        if (a.kind == FileEntryKind::Directory) == (b.kind == FileEntryKind::Directory) {
            let p = lower_case(a.name);
            let q = lower_case(b.name);
            assert(x[0] =~= y[0]);
            lemma_key_total(x, y);
            if p == q {
                assert(x =~= y);
                assert(p.take(p.len() as int) == q.take(p.len() as int));
            } else {
                let d = lemma_first_difference(p, q);
                assert(p.take(d) =~= q.take(d));
                assert(x[1].len() == p.len() && y[1].len() == q.len());
                assert forall|n: int| 0 <= n < d implies x[1][n] == y[1][n] by {
                    assert(p[n] == q[n]);
                }
                if d < p.len() && d < q.len() {
                    lemma_codes_differ(p[d], q[d]);
                    assert(x[1][d] == p[d] as u32 && y[1][d] == q[d] as u32);
                } else if d == p.len() && d == q.len() {
                    assert(p =~= q);
                }
                law_row_order(x[1], y[1], d);
                if x[1] == y[1] {
                    assert(p.len() == q.len());
                    assert(x[1][d] == y[1][d]);
                }
                law_key_order(x, y, 1);
                assert(x != y) by {
                    assert(x[1] != y[1]);
                }
                assert(not_after(p, q));
            }
        }
    }
    order
}

/// A child is listed by its own name below its directory: a symlink as a symlink whatever
/// it points at, a directory as a directory, and all else as a file.
pub proof fn law_listed_child(dir: Seq<u8>, child: DirectoryChild)
    requires
        crate::path::is_entry_name(child.file_name@),
    ensures
        entry_of(dir, child).name == lossy_text(child.file_name@),
        path_key(entry_of(dir, child).path).absolute == path_key(dir).absolute,
        path_key(entry_of(dir, child).path).parts == path_key(dir).parts.push(child.file_name@),
        entry_of(dir, child).kind == FileEntryKind::Symlink <==> (child.file_type matches Some(t)
            && t.is_symlink),
        entry_of(dir, child).kind == FileEntryKind::Directory <==> (child.file_type matches Some(t)
            && t.is_dir && !t.is_symlink),
        entry_of(dir, child).kind == FileEntryKind::File <==> (child.file_type matches Some(t)
            ==> !t.is_dir && !t.is_symlink),
{
    crate::path::lemma_joined_entry(dir, child.file_name@);
}

/// A directory lists its children one for one.
pub proof fn law_listed_children(dir: Seq<u8>, children: Seq<DirectoryChild>)
    ensures
        entries_of(dir, children).len() == children.len(),
        forall|i: int|
            0 <= i < children.len() ==> #[trigger] entries_of(dir, children)[i] == entry_of(
                dir,
                children[i],
            ),
{
}

/// A name that fits is shown whole; of a longer one as many characters are shown as fit
/// before an ellipsis, which takes the last place.
pub proof fn law_clipped_name(name: Seq<char>, width: nat)
    ensures
        name.len() <= width ==> clipped(name, width) == name,
        name.len() > width ==> clipped(name, width).len() == width,
        name.len() > width > 0 ==> clipped(name, width).last() == '\u{2026}' && clipped(
            name,
            width,
        ).drop_last().is_prefix_of(name),
{
    if name.len() > width > 0 {
        assert(clipped(name, width).drop_last() =~= name.take(width - 1));
    }
}

/// A single change is marked at its own path with its status, and as held by each folder
/// that its path passes through below the root. Nothing else is marked.
pub proof fn law_rollup_of_one_change(root: Seq<u8>, change: ChangeView, k: PathKey)
    ensures
        ({
            let top = path_key(root);
            let at = path_key(joined(root, change.path));
            let passes = k.absolute == at.absolute && k.parts.len() < at.parts.len() && k.parts
                == at.parts.take(k.parts.len() as int);
            let below_top = top.absolute == at.absolute && top.parts.len() < at.parts.len()
                && top.parts == at.parts.take(top.parts.len() as int);
            decoration(root, seq![change], k) == if k == at {
                Some(DecorationView::Changed(change.status))
            } else if passes && (below_top ==> top.parts.len() < k.parts.len()) {
                Some(DecorationView::ContainsChanges)
            } else {
                None
            }
        }),
{
    reveal_with_fuel(status_at, 2);
    let changes = seq![change];
    assert(changes.last() == change);
    assert(changes.drop_last() =~= Seq::<ChangeView>::empty());
    if is_between(path_key(root), k, change_key(root, change)) {
        assert(is_between(path_key(root), k, change_key(root, changes[0])));
    }
}

proof fn lemma_status_of_both_lists(
    root: Seq<u8>,
    a: Seq<ChangeView>,
    b: Seq<ChangeView>,
    k: PathKey,
)
    ensures
        status_at(root, a + b, k) == match status_at(root, b, k) {
            Some(status) => Some(status),
            None => status_at(root, a, k),
        },
    decreases b.len(),
{
    if b.len() == 0 {
        assert(a + b =~= a);
    } else {
        assert((a + b).last() == b.last());
        assert((a + b).drop_last() =~= a + b.drop_last());
        lemma_status_of_both_lists(root, a, b.drop_last(), k);
    }
}

/// Of two lists of changes together a path has the status that the later list gives it,
/// else the one that the earlier list does; without either it holds changes where it does
/// in one of the lists.
pub proof fn law_rollup_of_both_lists(
    root: Seq<u8>,
    a: Seq<ChangeView>,
    b: Seq<ChangeView>,
    k: PathKey,
)
    ensures
        decoration(root, a + b, k) == match (decoration(root, a, k), decoration(root, b, k)) {
            (_, Some(DecorationView::Changed(status))) => Some(DecorationView::Changed(status)),
            (Some(DecorationView::Changed(status)), _) => Some(DecorationView::Changed(status)),
            (None, None) => None,
            _ => Some(DecorationView::ContainsChanges),
        },
{
    lemma_status_of_both_lists(root, a, b, k);
    let top = path_key(root);
    let all = a + b;
    if holds_changes(root, a, k) {
        let i = choose|i: int|
            0 <= i < a.len() && #[trigger] is_between(top, k, change_key(root, a[i]));
        assert(is_between(top, k, change_key(root, all[i])));
    }
    if holds_changes(root, b, k) {
        let i = choose|i: int|
            0 <= i < b.len() && #[trigger] is_between(top, k, change_key(root, b[i]));
        assert(all[a.len() + i] == b[i]);
        assert(is_between(top, k, change_key(root, all[a.len() + i])));
    }
    if holds_changes(root, all, k) {
        let i = choose|i: int|
            0 <= i < all.len() && #[trigger] is_between(top, k, change_key(root, all[i]));
        if i < a.len() {
            assert(is_between(top, k, change_key(root, a[i])));
        } else {
            assert(all[i] == b[i - a.len()]);
            assert(is_between(top, k, change_key(root, b[i - a.len()])));
        }
    }
}

/// Without changes nothing is marked.
pub proof fn law_rollup_of_nothing(root: Seq<u8>, k: PathKey)
    ensures
        decoration(root, seq![], k) is None,
{
}

/// The text holds something to be seen.
pub open spec fn is_filled(text: Seq<char>) -> bool {
    exists|i: int| 0 <= i < text.len() && !crate::text::white_space(#[trigger] text[i])
}

/// The configured editor is taken where it is given, else the one for full screens, else
/// the other one, each without the white space around it; without any it is `vi`.
pub proof fn law_editor_precedence(
    configured: Option<&str>,
    visual: Option<&str>,
    editor: Option<&str>,
)
    ensures
        ({
            let chosen = editor_command(configured, visual, editor);
            let a = configured matches Some(text) && is_filled(text@);
            let b = visual matches Some(text) && is_filled(text@);
            let c = editor matches Some(text) && is_filled(text@);
            &&& a ==> chosen == trimmed(configured->0@)
            &&& !a && b ==> chosen == trimmed(visual->0@)
            &&& !a && !b && c ==> chosen == trimmed(editor->0@)
            &&& !a && !b && !c ==> chosen == seq!['v', 'i']
        }),
{
    reveal_strlit("vi");
    assert("vi"@ =~= seq!['v', 'i']);
    if let Some(text) = configured {
        lemma_filled(text@);
    }
    if let Some(text) = visual {
        lemma_filled(text@);
    }
    if let Some(text) = editor {
        lemma_filled(text@);
    }
}

proof fn lemma_filled(text: Seq<char>)
    ensures
        trimmed(text).len() > 0 <==> is_filled(text),
{
    let cut = crate::text::law_trimming(text);
    if trimmed(text).len() > 0 {
        assert(text[cut.0.len() as int] == trimmed(text)[0]);
    } else {
        assert forall|i: int| 0 <= i < text.len() implies crate::text::white_space(
            #[trigger] text[i],
        ) by {
            if i < cut.0.len() {
                assert(text[i] == cut.0[i]);
            } else {
                assert(text[i] == cut.1[i - cut.0.len()]);
            }
        }
    }
}

/// A sorted listing of directories holds those of its set and no others, and lists a directory
/// ahead of all that lies in it.
pub proof fn law_sorted_listing(list: Seq<FsPath>, set: Set<PathKey>, i: int, j: int, k: PathKey)
    requires
        is_sorted_listing(list, set),
        0 <= i < list.len(),
        0 <= j < list.len(),
    ensures
        set.contains(path_key(list[i]@)),
        set.contains(k) ==> exists|at: int|
            0 <= at < list.len() && path_key((#[trigger] list[at])@) == k,
        ({
            let a = path_key(list[i]@);
            let b = path_key(list[j]@);
            a.absolute == b.absolute && a.parts.len() < b.parts.len() && a.parts == b.parts.take(
                a.parts.len() as int,
            ) ==> i < j
        }),
{
    let a = path_key(list[i]@);
    let b = path_key(list[j]@);
    assert(keys_of(list)[i] == a);
    assert(keys_of(list).to_set().contains(a));
    if set.contains(k) {
        assert(keys_of(list).contains(k));
        let at = choose|at: int| 0 <= at < keys_of(list).len() && keys_of(list)[at] == k;
        assert(path_key(list[at]@) == k);
    }
    if a.absolute == b.absolute && a.parts.len() < b.parts.len() && a.parts == b.parts.take(
        a.parts.len() as int,
    ) {
        let n = a.parts.len() as int;
        assert forall|m: int| 0 <= m < n implies a.parts[m] == b.parts[m] by {
            assert(b.parts.take(n)[m] == b.parts[m]);
        }
        crate::path::law_path_order(b, a, n, 0);
        if j < i {
            assert(key_before(path_rows(path_key(list[j]@)), path_rows(path_key(list[i]@))));
        }
    }
}

/// Of two directories in one directory, a sorted listing has the one first whose name has the
/// smaller byte where the names differ first, or whose name the other one continues.
pub proof fn law_sorted_siblings(
    list: Seq<FsPath>,
    set: Set<PathKey>,
    i: int,
    j: int,
    dir: Seq<Seq<u8>>,
    x: Seq<u8>,
    y: Seq<u8>,
    at: int,
)
    requires
        is_sorted_listing(list, set),
        0 <= i < list.len(),
        0 <= j < list.len(),
        path_key(list[i]@).absolute == path_key(list[j]@).absolute,
        path_key(list[i]@).parts == dir.push(x),
        path_key(list[j]@).parts == dir.push(y),
        x != seq![crate::path::DOT] && x != seq![crate::path::DOT, crate::path::DOT],
        y != seq![crate::path::DOT] && y != seq![crate::path::DOT, crate::path::DOT],
        0 <= at <= x.len(),
        at < y.len(),
        forall|m: int| 0 <= m < at ==> x[m] == y[m],
        at == x.len() || x[at] < y[at],
    ensures
        i < j,
{
    let a = path_key(list[i]@);
    let b = path_key(list[j]@);
    let n = dir.len() as int;
    assert(a.parts[n] == x && b.parts[n] == y);
    assert forall|m: int| 0 <= m < n implies b.parts[m] == a.parts[m] by {
        assert(a.parts[m] == dir[m] && b.parts[m] == dir[m]);
    }
    crate::path::law_path_order(b, a, n, at);
    if j < i {
        assert(key_before(path_rows(path_key(list[j]@)), path_rows(path_key(list[i]@))));
    }
}

} // verus!
