//! The Explorer of a workspace: rooting its tree, expanding and collapsing
//! folders, and keeping what is loaded in step with the filesystem.
use crate::file_tree::{
    cache_view, children_of, decorated, decoration, entries_of, entry_views, flatten_tree,
    is_ancestor, is_nested, is_sorting_of, read_dir_sorted, rollup_git_status, row_views,
    tree_rows, DirectoryChild, EntryView, FileTreeDecoration, FileTreeEntry, FileTreeRow,
};
use crate::path::{
    is_entry_name, lemma_joined_entry, parent_path, path_key, same_path, FsPath, PathKey,
};
use crate::path_map::{keys_of, PathMap, PathSet};
use crate::source_control::change_views;
use crate::workspace::{path_view, Workspace};
use vstd::prelude::*;

verus! {

/// `read` can be asked for any directory, and names what it lists by plain names,
/// as a directory listing does.
pub open spec fn is_reader<F: Fn(&FsPath) -> Option<Vec<DirectoryChild>>>(read: F) -> bool {
    &&& forall|path: &FsPath| #[trigger] call_requires(read, (path,))
    &&& forall|path: &FsPath, children: Vec<DirectoryChild>, i: int|
        #[trigger] call_ensures(read, (path,), Some(children)) && 0 <= i < children@.len()
            ==> is_entry_name((#[trigger] children@[i]).file_name@)
}

/// `entries` is what `read` lists for the directory, classified and sorted; nothing
/// where it could not be read.
pub open spec fn is_reading<F: Fn(&FsPath) -> Option<Vec<DirectoryChild>>>(
    read: F,
    path: FsPath,
    entries: Seq<EntryView>,
) -> bool {
    exists|listing: Option<Vec<DirectoryChild>>| #[trigger]
        call_ensures(read, (&path,), listing) && match listing {
            Some(children) => is_sorting_of(entries, entries_of(path@, children@)),
            None => entries.len() == 0,
        }
}

/// `entries` is what `read` lists for a directory that `key` names.
pub open spec fn is_loaded_from<F: Fn(&FsPath) -> Option<Vec<DirectoryChild>>>(
    read: F,
    key: PathKey,
    entries: Seq<EntryView>,
) -> bool {
    exists|path: FsPath| path_key(path@) == key && #[trigger] is_reading(read, path, entries)
}

/// `after` is `before` with the directories that `touched` names read anew.
pub open spec fn is_reloaded<F: Fn(&FsPath) -> Option<Vec<DirectoryChild>>>(
    read: F,
    before: Map<PathKey, Vec<FileTreeEntry>>,
    after: Map<PathKey, Vec<FileTreeEntry>>,
    touched: spec_fn(PathKey) -> bool,
) -> bool {
    &&& forall|k: PathKey| #[trigger]
        after.contains_key(k) <==> before.contains_key(k) || touched(k)
    &&& forall|k: PathKey|
        touched(k) ==> is_loaded_from(read, k, entry_views((#[trigger] after[k])@))
    &&& forall|k: PathKey|
        before.contains_key(k) && !touched(k) ==> #[trigger] after[k] == before[k]
}

/// What is read lies in the directory that it was read from.
proof fn lemma_reading_is_nested<F: Fn(&FsPath) -> Option<Vec<DirectoryChild>>>(
    read: F,
    path: FsPath,
    entries: Seq<EntryView>,
)
    requires
        is_reader(read),
        is_reading(read, path, entries),
    ensures
        forall|i: int|
            0 <= i < entries.len() ==> is_ancestor(
                path_key(path@),
                path_key((#[trigger] entries[i]).path),
            ),
{
    let listing = choose|listing: Option<Vec<DirectoryChild>>| #[trigger]
        call_ensures(read, (&path,), listing) && match listing {
            Some(children) => is_sorting_of(entries, entries_of(path@, children@)),
            None => entries.len() == 0,
        };
    if let Some(children) = listing {
        let all = entries_of(path@, children@);
        crate::file_tree::law_sorting_keeps_entries(all, entries);
        assert forall|i: int| 0 <= i < entries.len() implies is_ancestor(
            path_key(path@),
            path_key((#[trigger] entries[i]).path),
        ) by {
            assert(entries.contains(entries[i]));
            let j = choose|j: int| 0 <= j < all.len() && all[j] == entries[i];
            assert(call_ensures(read, (&path,), Some(children)));
            assert(is_entry_name(children@[j].file_name@));
            lemma_joined_entry(path@, children@[j].file_name@);
            let key = path_key(path@);
            let inner = path_key(entries[i].path);
            assert(inner.parts.take(key.parts.len() as int) == key.parts);
        }
    }
}

/// Loading a directory keeps the loaded entries nested.
proof fn lemma_load_keeps_nested(
    before: Map<PathKey, Vec<FileTreeEntry>>,
    key: PathKey,
    entries: Vec<FileTreeEntry>,
)
    requires
        is_nested(cache_view(before)),
        forall|i: int|
            0 <= i < entries@.len() ==> is_ancestor(
                key,
                path_key((#[trigger] entry_views(entries@)[i]).path),
            ),
    ensures
        is_nested(cache_view(before.insert(key, entries))),
{
    let old_view = cache_view(before);
    let new_view = cache_view(before.insert(key, entries));
    assert forall|dir: PathKey, i: int|
        0 <= i < children_of(new_view, dir).len() implies is_ancestor(
        dir,
        path_key((#[trigger] children_of(new_view, dir)[i]).path),
    ) by {
        if dir != key {
            assert(children_of(new_view, dir) == children_of(old_view, dir));
            assert(is_ancestor(dir, path_key(children_of(old_view, dir)[i].path)));
        } else {
            assert(children_of(new_view, dir) == entry_views(entries@));
        }
    }
}

impl Workspace {
    /// Every expanded folder is loaded.
    pub open spec fn expanded_is_loaded(self) -> bool {
        forall|k: PathKey| #[trigger]
            self.explorer_expanded@.contains(k) ==> self.explorer_cache@.contains_key(k)
    }

    /// Reads a directory into the cache.
    fn explorer_load<F: Fn(&FsPath) -> Option<Vec<DirectoryChild>>>(
        &mut self,
        path: &FsPath,
        read: &F,
    )
        requires
            is_reader(*read),
            is_nested(cache_view(old(self).explorer_cache@)),
        ensures
            *final(self) == (Workspace {
                explorer_cache: final(self).explorer_cache,
                ..*old(self)
            }),
            final(self).explorer_cache@ == old(self).explorer_cache@.insert(
                path_key(path@),
                final(self).explorer_cache@[path_key(path@)],
            ),
            is_loaded_from(
                *read,
                path_key(path@),
                entry_views(final(self).explorer_cache@[path_key(path@)]@),
            ),
            is_nested(cache_view(final(self).explorer_cache@)),
    {
        let listing = read(path);
        let ghost given = listing;
        let entries = read_dir_sorted(path, listing);
        let ghost read_entries = entries;
        proof {
            assert(call_ensures(*read, (&*path,), given));
            assert(is_reading(*read, *path, entry_views(entries@)));
            lemma_reading_is_nested(*read, *path, entry_views(entries@));
            lemma_load_keeps_nested(self.explorer_cache@, path_key(path@), entries);
        }
        self.explorer_cache.insert(path.clone(), entries);
        assert(self.explorer_cache@[path_key(path@)] == read_entries);
    }

    /// Reads the given directories into the cache, whether loaded or not.
    fn explorer_reload<F: Fn(&FsPath) -> Option<Vec<DirectoryChild>>>(
        &mut self,
        dirs: &Vec<FsPath>,
        read: &F,
    )
        requires
            is_reader(*read),
            is_nested(cache_view(old(self).explorer_cache@)),
        ensures
            *final(self) == (Workspace {
                explorer_cache: final(self).explorer_cache,
                ..*old(self)
            }),
            is_reloaded(
                *read,
                old(self).explorer_cache@,
                final(self).explorer_cache@,
                |k: PathKey| keys_of(dirs@).contains(k),
            ),
            is_nested(cache_view(final(self).explorer_cache@)),
    {
        let ghost before = *self;
        let ghost all = keys_of(dirs@);
        let mut i: usize = 0;
        while i < dirs.len()
            invariant
                i <= dirs@.len(),
                all == keys_of(dirs@),
                is_reader(*read),
                is_nested(cache_view(self.explorer_cache@)),
                *self == (Workspace { explorer_cache: self.explorer_cache, ..before }),
                is_reloaded(
                    *read,
                    before.explorer_cache@,
                    self.explorer_cache@,
                    |k: PathKey| all.take(i as int).contains(k),
                ),
            decreases dirs@.len() - i,
        {
            let ghost middle = self.explorer_cache@;
            let ghost key = path_key(dirs@[i as int]@);
            self.explorer_load(&dirs[i], read);
            proof {
                assert(all[i as int] == key);
                let shorter = all.take(i as int);
                let longer = all.take(i + 1);
                assert(longer == shorter.push(key));
                assert forall|k: PathKey| #[trigger] longer.contains(k) <==> shorter.contains(k)
                    || k == key by {
                    if shorter.contains(k) {
                        let j = choose|j: int| 0 <= j < shorter.len() && shorter[j] == k;
                        assert(longer[j] == k);
                    }
                    assert(longer[i as int] == key);
                    if longer.contains(k) && k != key {
                        let j = choose|j: int| 0 <= j < longer.len() && longer[j] == k;
                        assert(shorter[j] == k);
                    }
                }
                let after = self.explorer_cache@;
                assert forall|k: PathKey| #[trigger]
                    after.contains_key(k) <==> before.explorer_cache@.contains_key(k)
                        || longer.contains(k) by {
                    assert(middle.contains_key(k) <==> before.explorer_cache@.contains_key(k)
                        || shorter.contains(k));
                }
                assert forall|k: PathKey| longer.contains(k) implies is_loaded_from(
                    *read,
                    k,
                    entry_views((#[trigger] after[k])@),
                ) by {
                    if k != key {
                        assert(after[k] == middle[k]);
                    }
                }
                assert forall|k: PathKey|
                    before.explorer_cache@.contains_key(k) && !longer.contains(
                        k,
                    ) implies #[trigger] after[k] == before.explorer_cache@[k] by {
                    assert(after[k] == middle[k]);
                }
            }
            i += 1;
        }
        assert(all.take(i as int) == all);
    }

    /// Root the Explorer tree at `root` and load its immediate children up
    /// front. Re-rooting (e.g. the workspace cwd changed) resets the cache,
    /// expanded set, scroll, and selection so the tree reflects the new project.
    pub fn explorer_set_root<F: Fn(&FsPath) -> Option<Vec<DirectoryChild>>>(
        &mut self,
        root: FsPath,
        read: &F,
    )
        requires
            old(self).wf(),
            is_reader(*read),
        ensures
            is_rooted_at(*old(self), root) ==> *final(self) == *old(self),
            !is_rooted_at(*old(self), root) ==> {
                &&& *final(self) == (Workspace {
                    explorer_cache: final(self).explorer_cache,
                    explorer_expanded: final(self).explorer_expanded,
                    explorer_scroll: 0,
                    explorer_selected: None,
                    explorer_root: Some(root),
                    ..*old(self)
                })
                &&& final(self).explorer_expanded@ == Set::<PathKey>::empty()
                &&& is_reloaded(
                    *read,
                    Map::empty(),
                    final(self).explorer_cache@,
                    |k: PathKey| k == path_key(root@),
                )
            },
            old(self).expanded_is_loaded() ==> final(self).expanded_is_loaded(),
            final(self).wf(),
    {
        if let Some(current) = &self.explorer_root {
            if same_path(current, &root) {
                return;
            }
        }
        self.explorer_cache.clear();
        self.explorer_expanded.clear();
        self.explorer_scroll = 0;
        self.explorer_selected = None;
        proof {
            let empty = cache_view(self.explorer_cache@);
            assert forall|dir: PathKey| #[trigger] children_of(empty, dir).len() == 0 by {}
        }
        self.explorer_ensure_loaded(&root, read);
        self.explorer_root = Some(root);
    }

    /// Load a directory's children into the cache if they are not loaded yet. A
    /// failed read is cached as an empty list, so it is read exactly once and
    /// never retried in a loop.
    fn explorer_ensure_loaded<F: Fn(&FsPath) -> Option<Vec<DirectoryChild>>>(
        &mut self,
        path: &FsPath,
        read: &F,
    )
        requires
            is_reader(*read),
            is_nested(cache_view(old(self).explorer_cache@)),
        ensures
            *final(self) == (Workspace {
                explorer_cache: final(self).explorer_cache,
                ..*old(self)
            }),
            old(self).explorer_cache@.contains_key(path_key(path@)) ==> *final(self) == *old(self),
            !old(self).explorer_cache@.contains_key(path_key(path@)) ==> is_reloaded(
                *read,
                old(self).explorer_cache@,
                final(self).explorer_cache@,
                |k: PathKey| k == path_key(path@),
            ),
            is_nested(cache_view(final(self).explorer_cache@)),
    {
        if !self.explorer_cache.contains_key(path) {
            self.explorer_load(path, read);
        }
    }

    /// Toggle a folder's expansion. Expanding loads its children the first time
    /// (and only the first time); collapsing leaves the cache intact so
    /// re-expanding is instant.
    pub fn explorer_toggle_expand<F: Fn(&FsPath) -> Option<Vec<DirectoryChild>>>(
        &mut self,
        path: &FsPath,
        read: &F,
    )
        requires
            old(self).wf(),
            is_reader(*read),
        ensures
            is_toggled(*read, *old(self), *final(self), path_key(path@)),
            old(self).expanded_is_loaded() ==> final(self).expanded_is_loaded(),
            final(self).wf(),
    {
        if self.explorer_expanded.remove(path) {
            return;
        }
        let ghost cache = self.explorer_cache@;
        let ghost key = path_key(path@);
        assert(self.explorer_expanded@ =~= old(self).explorer_expanded@);
        self.explorer_ensure_loaded(path, read);
        let _ = self.explorer_expanded.insert(path.clone());
        proof {
            if !cache.contains_key(key) {
                lemma_reloaded_same(
                    *read,
                    cache,
                    self.explorer_cache@,
                    |k: PathKey| k == path_key(path@),
                    |other: PathKey| other == key,
                );
            }
        }
    }

    /// Force an immediate re-read of the loaded tree: re-stat the root and every
    /// currently-expanded directory so on-disk changes (entries added, removed,
    /// or renamed while the folder was open) are picked up on demand. Collapsed
    /// folders are intentionally left stale: expanding one shows what was loaded
    /// before, and only a later refresh or change event re-reads it. A pure view
    /// operation: it reads the filesystem but mutates nothing on disk, and leaves
    /// the `expanded` set untouched.
    pub fn explorer_refresh<F: Fn(&FsPath) -> Option<Vec<DirectoryChild>>>(&mut self, read: &F)
        requires
            old(self).wf(),
            is_reader(*read),
        ensures
            *final(self) == (Workspace {
                explorer_cache: final(self).explorer_cache,
                ..*old(self)
            }),
            is_reloaded(
                *read,
                old(self).explorer_cache@,
                final(self).explorer_cache@,
                |k: PathKey| is_root_or_expanded(*old(self), k),
            ),
            final(self).expanded_is_loaded(),
            final(self).wf(),
    {
        let mut dirs: Vec<FsPath> = Vec::new();
        if let Some(root) = &self.explorer_root {
            dirs.push(root.clone());
        }
        let ghost head = keys_of(dirs@);
        let members = self.explorer_expanded.members();
        let ghost all = keys_of(members@);
        let mut i: usize = 0;
        assert(head + all.take(0) == head);
        while i < members.len()
            invariant
                i <= members@.len(),
                all == keys_of(members@),
                keys_of(dirs@) == head + all.take(i as int),
            decreases members@.len() - i,
        {
            let ghost before = dirs@;
            let copy = members[i].clone();
            dirs.push(copy);
            assert(keys_of(dirs@) == keys_of(before).push(path_key(copy@)));
            assert(all.take(i + 1) == all.take(i as int).push(all[i as int]));
            i += 1;
        }
        proof {
            assert(all.take(i as int) == all);
            let keys = keys_of(dirs@);
            assert forall|k: PathKey| #[trigger] keys.contains(k) <==> is_root_or_expanded(
                *self,
                k,
            ) by {
                if keys.contains(k) {
                    let j = choose|j: int| 0 <= j < keys.len() && keys[j] == k;
                    if j >= head.len() {
                        assert(all[j - head.len()] == k);
                        assert(all.to_set().contains(k));
                    }
                }
                if self.explorer_expanded@.contains(k) {
                    assert(all.to_set().contains(k));
                    let j = choose|j: int| 0 <= j < all.len() && all[j] == k;
                    assert(keys[head.len() + j] == k);
                }
                if is_rooted(*self, k) {
                    assert(head[0] == k);
                    assert(keys[0] == k);
                }
            }
        }
        let ghost start = *self;
        self.explorer_reload(&dirs, read);
        proof {
            lemma_reloaded_same(
                *read,
                start.explorer_cache@,
                self.explorer_cache@,
                |k: PathKey| keys_of(dirs@).contains(k),
                |k: PathKey| is_root_or_expanded(start, k),
            );
        }
    }

    /// The inputs the Explorer's non-recursive filesystem watcher needs to track
    /// this tree: the root and the currently-expanded folders. `None` until the
    /// tree has been rooted, so no watcher is created for a workspace that has
    /// never shown its Explorer.
    pub fn explorer_watch_state(&self) -> (state: Option<(FsPath, PathSet)>)
        ensures
            state is Some <==> self.explorer_root is Some,
            state matches Some(s) ==> Some(s.0@) == path_view(self.explorer_root) && s.1@
                == self.explorer_expanded@,
    {
        match &self.explorer_root {
            Some(root) => Some((root.clone(), self.explorer_expanded.clone())),
            None => None,
        }
    }

    /// Apply a filesystem-watcher event naming the `changed` paths to the loaded
    /// tree. For each changed path the directory that would contain it is
    /// re-read (the path itself when it is a loaded directory, otherwise its
    /// parent), but only when that directory is already in the cache (the root or
    /// a currently/previously expanded folder). Paths under directories that were
    /// never loaded are ignored, so a stray event for a collapsed or unrelated
    /// subtree does no work and never re-reads it into existence. Returns true if
    /// any cached directory was reloaded, so the caller can mark a redraw. The
    /// `expanded` set is left untouched: this only re-stats already-loaded dirs.
    pub fn explorer_apply_changed_paths<F: Fn(&FsPath) -> Option<Vec<DirectoryChild>>>(
        &mut self,
        changed: &Vec<FsPath>,
        read: &F,
    ) -> (reloaded: bool)
        requires
            old(self).wf(),
            is_reader(*read),
        ensures
            *final(self) == (Workspace {
                explorer_cache: final(self).explorer_cache,
                ..*old(self)
            }),
            is_reloaded(
                *read,
                old(self).explorer_cache@,
                final(self).explorer_cache@,
                |k: PathKey| is_affected(old(self).explorer_cache@, changed@, k),
            ),
            reloaded == exists|k: PathKey| #[trigger]
                is_affected(old(self).explorer_cache@, changed@, k),
            final(self).explorer_cache@.dom() == old(self).explorer_cache@.dom(),
            old(self).expanded_is_loaded() ==> final(self).expanded_is_loaded(),
            final(self).wf(),
    {
        let ghost start = *self;
        let ghost cache = self.explorer_cache@;
        let mut dirs: Vec<FsPath> = Vec::new();
        let mut i: usize = 0;
        assert(changed@.take(0) == Seq::<FsPath>::empty());
        while i < changed.len()
            invariant
                i <= changed@.len(),
                *self == start,
                cache == self.explorer_cache@,
                forall|k: PathKey| #[trigger]
                    keys_of(dirs@).contains(k) <==> is_affected(cache, changed@.take(i as int), k),
            decreases changed@.len() - i,
        {
            let path = &changed[i];
            let ghost dirs0 = keys_of(dirs@);
            let candidate = if self.explorer_cache.contains_key(path) {
                Some(path.clone())
            } else {
                path.parent()
            };
            if let Some(dir) = &candidate {
                self.note_loaded(&mut dirs, dir);
            }
            proof {
                let shorter = changed@.take(i as int);
                let longer = changed@.take(i + 1);
                let dirs2 = keys_of(dirs@);
                assert(longer == shorter.push(*path));
                assert forall|k: PathKey| #[trigger] dirs2.contains(k) <==> is_affected(
                    cache,
                    longer,
                    k,
                ) by {
                    assert(dirs0.contains(k) <==> is_affected(cache, shorter, k));
                    if is_affected(cache, shorter, k) {
                        let j = choose|j: int|
                            0 <= j < shorter.len() && touches(cache, (#[trigger] shorter[j])@, k);
                        assert(longer[j] == shorter[j]);
                    }
                    if touches(cache, path@, k) {
                        assert(longer[i as int] == *path);
                    }
                    if is_affected(cache, longer, k) && !touches(cache, path@, k) {
                        let j = choose|j: int|
                            0 <= j < longer.len() && touches(cache, (#[trigger] longer[j])@, k);
                        assert(shorter[j] == longer[j]);
                    }
                }
            }
            i += 1;
        }
        assert(changed@.take(i as int) == changed@);
        let reloaded = dirs.len() > 0;
        self.explorer_reload(&dirs, read);
        proof {
            lemma_reloaded_same(
                *read,
                cache,
                self.explorer_cache@,
                |k: PathKey| keys_of(dirs@).contains(k),
                |k: PathKey| is_affected(cache, changed@, k),
            );
            if reloaded {
                assert(keys_of(dirs@).contains(keys_of(dirs@)[0]));
            }
            if exists|k: PathKey| #[trigger] is_affected(cache, changed@, k) {
                let k = choose|k: PathKey| #[trigger] is_affected(cache, changed@, k);
                assert(keys_of(dirs@).contains(k));
            }
        }
        reloaded
    }

    /// Adds a directory to the list if it is loaded and not yet listed.
    fn note_loaded(&self, dirs: &mut Vec<FsPath>, candidate: &FsPath)
        ensures
            forall|k: PathKey| #[trigger]
                keys_of(final(dirs)@).contains(k) <==> keys_of(old(dirs)@).contains(k) || (
                self.explorer_cache@.contains_key(k) && k == path_key(candidate@)),
    {
        let ghost before = keys_of(dirs@);
        let ghost key = path_key(candidate@);
        if !self.explorer_cache.contains_key(candidate) {
            return;
        }
        let mut i: usize = 0;
        while i < dirs.len()
            invariant
                i <= dirs@.len(),
                before == keys_of(dirs@),
                key == path_key(candidate@),
            decreases dirs@.len() - i,
        {
            if same_path(&dirs[i], candidate) {
                assert(before[i as int] == key);
                return;
            }
            i += 1;
        }
        dirs.push(candidate.clone());
        proof {
            let after = keys_of(dirs@);
            assert(after == before.push(key));
            assert forall|k: PathKey| #[trigger] after.contains(k) <==> before.contains(k) || k
                == key by {
                if before.contains(k) {
                    let j = choose|j: int| 0 <= j < before.len() && before[j] == k;
                    assert(after[j] == k);
                }
                assert(after[before.len() as int] == key);
                if after.contains(k) && k != key {
                    let j = choose|j: int| 0 <= j < after.len() && after[j] == k;
                    assert(before[j] == k);
                }
            }
        }
    }

    /// Collapse every expanded folder, returning the tree to just its roots.
    /// The directory cache is left intact so re-expanding is instant; only the
    /// `expanded` set is cleared. A pure view operation that touches no
    /// filesystem.
    pub fn explorer_collapse_all(&mut self)
        ensures
            *final(self) == (Workspace {
                explorer_expanded: final(self).explorer_expanded,
                ..*old(self)
            }),
            final(self).explorer_expanded@ == Set::<PathKey>::empty(),
            final(self).expanded_is_loaded(),
            old(self).wf() ==> final(self).wf(),
    {
        self.explorer_expanded.clear();
    }

    /// Set the highlighted selection to `path` (the last-clicked row).
    pub fn explorer_select(&mut self, path: FsPath)
        ensures
            *final(self) == (Workspace { explorer_selected: Some(path), ..*old(self) }),
            old(self).wf() ==> final(self).wf(),
    {
        self.explorer_selected = Some(path);
    }

    /// The currently selected (highlighted) row path, if any.
    pub fn explorer_selected(&self) -> (path: Option<&FsPath>)
        ensures
            path is Some <==> self.explorer_selected is Some,
            path matches Some(p) ==> self.explorer_selected == Some(*p),
    {
        match &self.explorer_selected {
            Some(path) => Some(path),
            None => None,
        }
    }

    /// The rows that the Explorer shows.
    pub open spec fn visible_tree(self) -> Seq<crate::file_tree::RowView> {
        match self.explorer_root {
            Some(root) => tree_rows(
                path_key(root@),
                cache_view(self.explorer_cache@),
                self.explorer_expanded@,
            ),
            None => seq![],
        }
    }

    /// The flattened, ordered rows of the Explorer tree for the current cache and
    /// expanded set. Empty until the tree has been rooted.
    pub fn explorer_rows(&self) -> (rows: Vec<FileTreeRow>)
        requires
            self.wf(),
        ensures
            row_views(rows@) == self.visible_tree(),
    {
        match &self.explorer_root {
            Some(root) => {
                let _ = self.explorer_cache.len();
                proof {
                    assert(cache_view(self.explorer_cache@).dom() =~= self.explorer_cache@.dom());
                    crate::file_tree::law_nested_is_well_founded(
                        cache_view(self.explorer_cache@),
                        self.explorer_expanded@,
                    );
                }
                flatten_tree(root, &self.explorer_cache, &self.explorer_expanded)
            },
            None => {
                let rows: Vec<FileTreeRow> = Vec::new();
                assert(row_views(rows@) == Seq::<crate::file_tree::RowView>::empty());
                rows
            },
        }
    }

    /// The decoration of what `k` names in the rooted tree.
    pub open spec fn tree_decoration(self, k: PathKey) -> Option<crate::file_tree::DecorationView> {
        match self.explorer_root {
            Some(root) => decoration(root@, change_views(self.cached_changes@), k),
            None => None,
        }
    }

    /// Git-status decorations for the Explorer tree: the workspace's cached
    /// changed files rolled up onto the rooted tree (changed files colored,
    /// ancestor folders marked). Empty until the tree has been rooted. Pure over
    /// the cached state: reads no filesystem.
    pub fn explorer_decorations(&self) -> (decorations: PathMap<FileTreeDecoration>)
        ensures
            forall|k: PathKey| #[trigger]
                decorated(decorations@, k) == self.tree_decoration(k),
    {
        match &self.explorer_root {
            Some(root) => rollup_git_status(root, &self.cached_changes),
            None => PathMap::new(),
        }
    }
}

/// The tree is rooted at a directory that `k` names.
pub open spec fn is_rooted(ws: Workspace, k: PathKey) -> bool {
    ws.explorer_root matches Some(root) && path_key(root@) == k
}

/// The tree is rooted at the directory.
pub open spec fn is_rooted_at(ws: Workspace, root: FsPath) -> bool {
    is_rooted(ws, path_key(root@))
}

/// `k` names the root of the tree or an expanded folder.
pub open spec fn is_root_or_expanded(ws: Workspace, k: PathKey) -> bool {
    is_rooted(ws, k) || ws.explorer_expanded@.contains(k)
}

/// `k` names the directory that a change at the path is about: the path itself
/// where it is a loaded directory, otherwise its parent.
pub open spec fn touches(
    cache: Map<PathKey, Vec<FileTreeEntry>>,
    path: Seq<u8>,
    k: PathKey,
) -> bool {
    if cache.contains_key(path_key(path)) {
        path_key(path) == k
    } else {
        parent_path(path) matches Some(parent) && path_key(parent) == k
    }
}

/// `k` names a loaded directory that one of the changes is about.
pub open spec fn is_affected(
    cache: Map<PathKey, Vec<FileTreeEntry>>,
    changed: Seq<FsPath>,
    k: PathKey,
) -> bool {
    cache.contains_key(k) && exists|i: int|
        0 <= i < changed.len() && touches(cache, (#[trigger] changed[i])@, k)
}

/// What is reloaded depends only on which directories are meant.
proof fn lemma_reloaded_same<F: Fn(&FsPath) -> Option<Vec<DirectoryChild>>>(
    read: F,
    before: Map<PathKey, Vec<FileTreeEntry>>,
    after: Map<PathKey, Vec<FileTreeEntry>>,
    touched1: spec_fn(PathKey) -> bool,
    touched2: spec_fn(PathKey) -> bool,
)
    requires
        is_reloaded(read, before, after, touched1),
        forall|k: PathKey| #[trigger] touched1(k) == touched2(k),
    ensures
        is_reloaded(read, before, after, touched2),
{
    assert(touched1 =~= touched2);
}

/// `after` is `before` with the folder collapsed where it was expanded, and expanded
/// where it was not; its entries are read where they were not loaded yet.
pub open spec fn is_toggled<F: Fn(&FsPath) -> Option<Vec<DirectoryChild>>>(
    read: F,
    before: Workspace,
    after: Workspace,
    k: PathKey,
) -> bool {
    &&& after == (Workspace {
        explorer_cache: after.explorer_cache,
        explorer_expanded: after.explorer_expanded,
        ..before
    })
    &&& if before.explorer_expanded@.contains(k) {
        &&& after.explorer_expanded@ == before.explorer_expanded@.remove(k)
        &&& after.explorer_cache == before.explorer_cache
    } else if before.explorer_cache@.contains_key(k) {
        &&& after.explorer_expanded@ == before.explorer_expanded@.insert(k)
        &&& after.explorer_cache == before.explorer_cache
    } else {
        &&& after.explorer_expanded@ == before.explorer_expanded@.insert(k)
        &&& is_reloaded(
            read,
            before.explorer_cache@,
            after.explorer_cache@,
            |other: PathKey| other == k,
        )
    }
}

/// Toggling a folder twice leads back to the same folders being expanded, and reads
/// nothing the second time. What was loaded stays loaded.
pub proof fn law_toggling_twice<F: Fn(&FsPath) -> Option<Vec<DirectoryChild>>>(
    read: F,
    before: Workspace,
    middle: Workspace,
    after: Workspace,
    k: PathKey,
)
    requires
        is_toggled(read, before, middle, k),
        is_toggled(read, middle, after, k),
        before.expanded_is_loaded(),
    ensures
        after.explorer_expanded@ == before.explorer_expanded@,
        after.explorer_cache == middle.explorer_cache,
        forall|other: PathKey|
            before.explorer_cache@.contains_key(other) ==> #[trigger]
                after.explorer_cache@.contains_key(other) && after.explorer_cache@[other]
                == before.explorer_cache@[other],
{
    if before.explorer_expanded@.contains(k) {
        assert(before.explorer_expanded@.remove(k).insert(k) =~= before.explorer_expanded@);
    } else {
        assert(before.explorer_expanded@.insert(k).remove(k) =~= before.explorer_expanded@);
    }
}

/// A change is about one directory at most: about the path itself where that is a loaded
/// directory, and otherwise about the directory that the path is in.
pub proof fn law_change_is_about_one_directory(
    cache: Map<PathKey, Vec<FileTreeEntry>>,
    path: Seq<u8>,
    a: PathKey,
    b: PathKey,
)
    ensures
        touches(cache, path, a) && touches(cache, path, b) ==> a == b,
        cache.contains_key(path_key(path)) ==> touches(cache, path, path_key(path)),
        !cache.contains_key(path_key(path)) && touches(cache, path, a) ==> a.parts.len() + 1
            == path_key(path).parts.len() && a.parts == path_key(path).parts.drop_last()
            && a.absolute == path_key(path).absolute,
        !cache.contains_key(path_key(path)) && path_key(path).parts.len() > 0 ==> touches(
            cache,
            path,
            PathKey {
                absolute: path_key(path).absolute,
                parts: path_key(path).parts.drop_last(),
            },
        ),
{
    crate::path::lemma_parent_key(path);
}

/// A changed entry of a loaded directory has the directory read again, and no change has a
/// directory read that is not loaded.
pub proof fn law_affected_directories(
    cache: Map<PathKey, Vec<FileTreeEntry>>,
    changed: Seq<FsPath>,
    dir: Seq<u8>,
    name: Seq<u8>,
    i: int,
    k: PathKey,
)
    requires
        is_entry_name(name),
        0 <= i < changed.len(),
        changed[i]@ == crate::path::joined(dir, name),
    ensures
        cache.contains_key(path_key(dir)) && !cache.contains_key(path_key(changed[i]@))
            ==> is_affected(cache, changed, path_key(dir)),
        cache.contains_key(path_key(changed[i]@)) ==> is_affected(
            cache,
            changed,
            path_key(changed[i]@),
        ),
        is_affected(cache, changed, k) ==> cache.contains_key(k),
        !is_affected(cache, seq![], k),
{
    let path = changed[i]@;
    lemma_joined_entry(dir, name);
    crate::path::lemma_parent_key(path);
    assert(path_key(dir).parts.push(name).drop_last() =~= path_key(dir).parts);
    if cache.contains_key(path_key(path)) {
        assert(touches(cache, changed[i]@, path_key(path)));
    } else {
        assert(touches(cache, changed[i]@, path_key(dir)));
    }
}

/// What is loaded for a directory are entries that lie directly in it, so each is one component
/// longer than the directory.
pub proof fn law_loaded_entries_are_children<F: Fn(&FsPath) -> Option<Vec<DirectoryChild>>>(
    read: F,
    dir: PathKey,
    entries: Seq<EntryView>,
    i: int,
)
    requires
        is_reader(read),
        is_loaded_from(read, dir, entries),
        0 <= i < entries.len(),
    ensures
        path_key(entries[i].path).absolute == dir.absolute,
        path_key(entries[i].path).parts.len() == dir.parts.len() + 1,
        path_key(entries[i].path).parts.drop_last() == dir.parts,
{
    let path = choose|path: FsPath|
        path_key(path@) == dir && #[trigger] is_reading(read, path, entries);
    let listing = choose|listing: Option<Vec<DirectoryChild>>| #[trigger]
        call_ensures(read, (&path,), listing) && match listing {
            Some(children) => is_sorting_of(entries, entries_of(path@, children@)),
            None => entries.len() == 0,
        };
    if let Some(children) = listing {
        let all = entries_of(path@, children@);
        crate::file_tree::law_sorting_keeps_entries(all, entries);
        assert(entries.contains(entries[i]));
        let j = choose|j: int| 0 <= j < all.len() && all[j] == entries[i];
        assert(call_ensures(read, (&path,), Some(children)));
        assert(is_entry_name(children@[j].file_name@));
        lemma_joined_entry(path@, children@[j].file_name@);
        assert(path_key(entries[i].path).parts.drop_last() =~= dir.parts);
    }
}

/// Reading directories again leaves what is loaded of the others as it was, and forgets none.
pub proof fn law_reload_leaves_the_rest<F: Fn(&FsPath) -> Option<Vec<DirectoryChild>>>(
    read: F,
    before: Map<PathKey, Vec<FileTreeEntry>>,
    after: Map<PathKey, Vec<FileTreeEntry>>,
    touched: spec_fn(PathKey) -> bool,
    k: PathKey,
)
    requires
        is_reloaded(read, before, after, touched),
    ensures
        before.contains_key(k) ==> after.contains_key(k),
        before.contains_key(k) && !touched(k) ==> after[k] == before[k],
        touched(k) ==> after.contains_key(k),
        after.contains_key(k) && !before.contains_key(k) ==> touched(k),
{
}

/// Toggling turns one folder over and leaves the others as they are; an opened folder is loaded.
pub proof fn law_toggling_turns_one_folder<F: Fn(&FsPath) -> Option<Vec<DirectoryChild>>>(
    read: F,
    before: Workspace,
    after: Workspace,
    k: PathKey,
    other: PathKey,
)
    requires
        is_toggled(read, before, after, k),
    ensures
        after.explorer_expanded@.contains(k) <==> !before.explorer_expanded@.contains(k),
        other != k ==> after.explorer_expanded@.contains(other)
            == before.explorer_expanded@.contains(other),
        after.explorer_expanded@.contains(k) ==> after.explorer_cache@.contains_key(k),
        other != k ==> after.explorer_cache@.contains_key(other)
            == before.explorer_cache@.contains_key(other),
        before.explorer_cache@.contains_key(other) ==> after.explorer_cache@.contains_key(other)
            && after.explorer_cache@[other] == before.explorer_cache@[other],
        after.explorer_root == before.explorer_root,
        after.explorer_selected == before.explorer_selected,
        after.explorer_scroll == before.explorer_scroll,
{
}

/// Without a root there are no rows and no decorations.
pub proof fn law_nothing_without_a_root(ws: Workspace, k: PathKey)
    requires
        ws.explorer_root is None,
    ensures
        ws.visible_tree().len() == 0,
        ws.tree_decoration(k) is None,
        !is_rooted(ws, k),
{
}

/// A directory that cannot be read has no entries; one that can has as many as were listed, and
/// each comes from a listed name.
pub proof fn law_entries_of_a_reading<F: Fn(&FsPath) -> Option<Vec<DirectoryChild>>>(
    read: F,
    path: FsPath,
    entries: Seq<EntryView>,
) -> (listing: Option<Vec<DirectoryChild>>)
    requires
        is_reading(read, path, entries),
    ensures
        call_ensures(read, (&path,), listing),
        listing is None ==> entries.len() == 0,
        listing matches Some(children) ==> entries.len() == children@.len() && forall|i: int|
            0 <= i < entries.len() ==> exists|j: int|
                0 <= j < children@.len() && crate::file_tree::entry_of(
                    path@,
                    #[trigger] children@[j],
                ) == #[trigger] entries[i],
{
    let listing = choose|listing: Option<Vec<DirectoryChild>>| #[trigger]
        call_ensures(read, (&path,), listing) && match listing {
            Some(children) => is_sorting_of(entries, entries_of(path@, children@)),
            None => entries.len() == 0,
        };
    if let Some(children) = listing {
        let all = entries_of(path@, children@);
        crate::file_tree::law_sorting_keeps_entries(all, entries);
        assert forall|i: int| 0 <= i < entries.len() implies exists|j: int|
            0 <= j < children@.len() && crate::file_tree::entry_of(
                path@,
                #[trigger] children@[j],
            ) == #[trigger] entries[i] by {
            assert(entries.contains(entries[i]));
            let j = choose|j: int| 0 <= j < all.len() && all[j] == entries[i];
            assert(crate::file_tree::entry_of(path@, children@[j]) == entries[i]);
        }
    }
    listing
}

/// The directories to watch are the root of the tree and the expanded folders.
pub proof fn law_root_or_expanded(ws: Workspace, root: FsPath, k: PathKey)
    requires
        ws.explorer_root == Some(root),
    ensures
        is_root_or_expanded(ws, path_key(root@)),
        is_rooted_at(ws, root),
        ws.explorer_expanded@.contains(k) ==> is_root_or_expanded(ws, k),
        !ws.explorer_expanded@.contains(k) && k != path_key(root@) ==> !is_root_or_expanded(ws, k),
{
}

} // verus!
