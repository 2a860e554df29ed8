//! Which directories the Explorer's filesystem watcher watches, and what becomes
//! of it when the system has no watch handles left.
use crate::file_tree::{is_sorted_listing, reconcile_watches};
use crate::path::{path_key, FsPath, PathKey};
use crate::path_map::{keys_of, PathSet};
use vstd::prelude::*;

verus! {

/// Why a directory could not be watched.
#[derive(Debug, Clone, Copy, PartialEq, Eq, Structural)]
pub enum WatchError {
    /// The limit of watches was reached.
    MaxFilesWatch,
    /// An I/O error, with the system's error code where there is one.
    Io { code: Option<i32> },
    /// Anything else.
    Other,
}

/// The system's error codes that mean that no watch handles are left.
#[derive(Debug, Clone, Copy, PartialEq, Eq, Structural)]
pub struct LimitCodes {
    pub no_space: i32,
    pub too_many_open_files: i32,
    pub file_table_overflow: i32,
}

/// The code is some system's `ENOSPC`.
pub open spec fn is_no_space_code(code: i32) -> bool {
    code == 28 || code == 51 || code == 22 || code == 1073741852 || code == -2147459065
}

/// The code is some system's `EMFILE`.
pub open spec fn is_too_many_open_files_code(code: i32) -> bool {
    code == 24 || code == 33 || code == 18 || code == 1073741848 || code == -2147459062
}

/// The code is some system's `ENFILE`.
pub open spec fn is_file_table_overflow_code(code: i32) -> bool {
    code == 23 || code == 41 || code == 1073741847 || code == -2147454970
}

/// The code means on some system that no watch handles are left.
pub open spec fn is_limit_code(code: i32) -> bool {
    is_no_space_code(code) || is_too_many_open_files_code(code) || is_file_table_overflow_code(code)
}

/// The constant `libc::ENOSPC`, the error code for a device without space. It is one
/// of the values that the crate defines for the systems it supports: 28 on most, 51 on
/// WASI and Emscripten, 22 on HelenOS, and one each on Hurd and Haiku. Which of them
/// it is depends on the system and is left unsaid.
#[verifier::external_body]
fn no_space_code() -> (code: i32)
    ensures
        is_no_space_code(code),
{
    libc::ENOSPC
}

/// The constant `libc::EMFILE`, the error code for too many files open in a process.
/// It is one of the values that the crate defines for the systems it supports: 24 on
/// most, 33 on WASI and Emscripten, 18 on HelenOS, and one each on Hurd and Haiku.
/// Which of them it is depends on the system and is left unsaid.
#[verifier::external_body]
fn too_many_open_files_code() -> (code: i32)
    ensures
        is_too_many_open_files_code(code),
{
    libc::EMFILE
}

/// The constant `libc::ENFILE`, the error code for too many files open in the
/// system. It is one of the values that the crate defines for the systems it supports:
/// 23 on most, 41 on WASI and Emscripten, and one each on Hurd and Haiku. Which of
/// them it is depends on the system and is left unsaid.
#[verifier::external_body]
fn file_table_overflow_code() -> (code: i32)
    ensures
        is_file_table_overflow_code(code),
{
    libc::ENFILE
}

impl LimitCodes {
    /// Each code is what some system has for it.
    pub open spec fn are_known(self) -> bool {
        &&& is_no_space_code(self.no_space)
        &&& is_too_many_open_files_code(self.too_many_open_files)
        &&& is_file_table_overflow_code(self.file_table_overflow)
    }

    /// The codes of the system that the program runs on.
    pub fn of_system() -> (codes: LimitCodes)
        ensures
            codes.are_known(),
    {
        LimitCodes {
            no_space: no_space_code(),
            too_many_open_files: too_many_open_files_code(),
            file_table_overflow: file_table_overflow_code(),
        }
    }
}

/// The error means that no watch handles are left.
pub open spec fn is_limit(err: WatchError, codes: LimitCodes) -> bool {
    match err {
        WatchError::MaxFilesWatch => true,
        WatchError::Io { code: Some(code) } => code == codes.no_space || code
            == codes.too_many_open_files || code == codes.file_table_overflow,
        WatchError::Io { code: None } => false,
        WatchError::Other => false,
    }
}

/// Whether the error means that no watch handles are left, given the system's codes
/// for that.
pub fn is_watch_limit_error_with(err: &WatchError, codes: LimitCodes) -> (r: bool)
    ensures
        r == is_limit(*err, codes),
{
    match err {
        WatchError::MaxFilesWatch => true,
        WatchError::Io { code: Some(code) } => *code == codes.no_space || *code
            == codes.too_many_open_files || *code == codes.file_table_overflow,
        WatchError::Io { code: None } => false,
        WatchError::Other => false,
    }
}

/// Whether an error means the OS ran out of watch handles: the inotify
/// `max_user_watches` limit on Linux (surfaced as its own kind or as `ENOSPC`)
/// or a per-process open-file-descriptor limit (`EMFILE`/`ENFILE`), in which
/// case the Explorer must degrade to manual refresh rather than crash. Any other
/// error is transient and only skips the one path that failed.
///
/// Which codes those are depends on the system: they are what
/// [`LimitCodes::of_system`] gives, and [`is_watch_limit_error_with`] says what
/// follows from them.
pub fn is_watch_limit_error(err: &WatchError) -> (r: bool)
    ensures
        *err == WatchError::MaxFilesWatch ==> r,
        *err == WatchError::Other ==> !r,
        *err == (WatchError::Io { code: None }) ==> !r,
        *err matches WatchError::Io { code: Some(code) } && !is_limit_code(code) ==> !r,
        exists|codes: LimitCodes| #[trigger]
            call_ensures(LimitCodes::of_system, (), codes) && r == is_limit(*err, codes),
{
    let codes = LimitCodes::of_system();
    assert(call_ensures(LimitCodes::of_system, (), codes));
    is_watch_limit_error_with(err, codes)
}

/// The watches over one Explorer tree's expanded directories, bound to the root of
/// the tree so that the events they emit are tagged for the right workspace.
pub struct ExplorerWatcher {
    pub root: FsPath,
    /// Directories currently under watch, so [`reconcile`](Self::reconcile) can
    /// diff against the desired set and add/drop only what changed.
    pub watched: PathSet,
    /// Set once the OS rejects a watch for a handle-limit reason; thereafter the
    /// watcher stops trying to add watches and the Explorer relies on manual
    /// refresh.
    pub degraded: bool,
}

/// The keys of the directories that were watched successfully.
pub open spec fn newly_watched(
    to_add: Seq<FsPath>,
    outcomes: Seq<Result<(), WatchError>>,
) -> Set<PathKey>
    decreases outcomes.len(),
{
    if outcomes.len() == 0 {
        Set::empty()
    } else {
        let before = newly_watched(to_add, outcomes.drop_last());
        if outcomes.last() is Ok {
            before.insert(path_key(to_add[outcomes.len() - 1]@))
        } else {
            before
        }
    }
}

/// `outcomes` is how watching the directories went, one after the other up to the
/// first for which no watch handles were left.
pub open spec fn is_watch_run<W: Fn(&FsPath) -> Result<(), WatchError>>(
    watch: W,
    to_add: Seq<FsPath>,
    outcomes: Seq<Result<(), WatchError>>,
    codes: LimitCodes,
) -> bool {
    &&& outcomes.len() <= to_add.len()
    &&& forall|i: int|
        0 <= i < outcomes.len() ==> call_ensures(watch, (&to_add[i],), #[trigger] outcomes[i])
    &&& forall|i: int|
        0 <= i < outcomes.len() - 1 ==> !fails_for_good(#[trigger] outcomes[i], codes)
    &&& outcomes.len() < to_add.len() ==> outcomes.len() > 0 && fails_for_good(
        outcomes.last(),
        codes,
    )
}

/// The directories were all handed to `unwatch`, one after the other; `gone` is what
/// it reported of each.
pub open spec fn are_unwatched<U: Fn(&FsPath) -> bool>(
    unwatch: U,
    to_drop: Seq<FsPath>,
    gone: Seq<bool>,
) -> bool {
    &&& gone.len() == to_drop.len()
    &&& forall|i: int|
        0 <= i < to_drop.len() ==> call_ensures(unwatch, (&to_drop[i],), #[trigger] gone[i])
}

/// The directory could not be watched because no watch handles were left.
pub open spec fn fails_for_good(outcome: Result<(), WatchError>, codes: LimitCodes) -> bool {
    outcome matches Err(e) && is_limit(e, codes)
}

/// What becomes of a watcher that is driven toward the desired set: what is no
/// longer desired goes, and what is newly desired comes as far as it can be
/// watched. Without watch handles it degrades, and once degraded it stays as it is.
pub open spec fn is_reconciled<W: Fn(&FsPath) -> Result<(), WatchError>>(
    before: ExplorerWatcher,
    after: ExplorerWatcher,
    desired: Set<PathKey>,
    watch: W,
    codes: LimitCodes,
) -> bool {
    if before.degraded {
        after == before
    } else {
        exists|to_add: Seq<FsPath>, outcomes: Seq<Result<(), WatchError>>| #[trigger]
            is_watch_run(watch, to_add, outcomes, codes) && is_sorted_listing(
                to_add,
                desired.difference(before.watched@),
            ) && after.root == before.root && after.degraded == (outcomes.len() > 0
                && fails_for_good(outcomes.last(), codes)) && after.watched@
                == before.watched@.intersect(desired).union(newly_watched(to_add, outcomes))
    }
}

impl ExplorerWatcher {
    /// A watcher that watches nothing yet.
    pub fn new(root: FsPath) -> (watcher: ExplorerWatcher)
        ensures
            watcher.root == root,
            watcher.watched@ == Set::<PathKey>::empty(),
            !watcher.degraded,
    {
        ExplorerWatcher { root, watched: PathSet::new(), degraded: false }
    }

    /// The tree root this watcher is bound to.
    pub fn root(&self) -> (root: &FsPath)
        ensures
            *root == self.root,
    {
        &self.root
    }

    /// Drive the watch set toward `desired`, with the given codes for having no watch
    /// handles left. `watch` and `unwatch` start and stop watching a directory.
    pub fn reconcile_with<W: Fn(&FsPath) -> Result<(), WatchError>, U: Fn(&FsPath) -> bool>(
        &mut self,
        desired: &PathSet,
        codes: LimitCodes,
        watch: &W,
        unwatch: &U,
    )
        requires
            forall|path: &FsPath| #[trigger] call_requires(watch, (path,)),
            forall|path: &FsPath| #[trigger] call_requires(unwatch, (path,)),
        ensures
            is_reconciled(*old(self), *final(self), desired@, *watch, codes),
            !old(self).degraded ==> exists|to_drop: Seq<FsPath>, gone: Seq<bool>| #[trigger]
                are_unwatched(*unwatch, to_drop, gone) && is_sorted_listing(
                    to_drop,
                    old(self).watched@.difference(desired@),
                ),
    {
        if self.degraded {
            return;
        }
        let ghost start = self.watched@;
        let (to_add, to_drop) = reconcile_watches(desired, &self.watched);
        let ghost drops = keys_of(to_drop@);
        let ghost mut gone: Seq<bool> = Seq::empty();
        let mut i: usize = 0;
        while i < to_drop.len()
            invariant
                i <= to_drop@.len(),
                drops == keys_of(to_drop@),
                gone.len() == i,
                forall|j: int|
                    0 <= j < i ==> call_ensures(unwatch, (&to_drop@[j],), #[trigger] gone[j]),
                self.root == old(self).root,
                !self.degraded,
                forall|path: &FsPath| #[trigger] call_requires(unwatch, (path,)),
                forall|k: PathKey| #[trigger]
                    self.watched@.contains(k) <==> start.contains(k) && !drops.take(
                        i as int,
                    ).contains(k),
            decreases to_drop@.len() - i,
        {
            // A watch may already be gone if its directory was removed on disk;
            // dropping it is best-effort.
            let was_gone = unwatch(&to_drop[i]);
            proof {
                assert(call_ensures(*unwatch, (&to_drop@[i as int],), was_gone));
                gone = gone.push(was_gone);
            }
            let ghost middle = self.watched@;
            let _ = self.watched.remove(&to_drop[i]);
            proof {
                let shorter = drops.take(i as int);
                let longer = drops.take(i + 1);
                assert(longer =~= shorter.push(drops[i as int]));
                assert forall|k: PathKey| #[trigger]
                    self.watched@.contains(k) <==> start.contains(k) && !longer.contains(k) by {
                    assert(middle.contains(k) <==> start.contains(k) && !shorter.contains(k));
                    if shorter.contains(k) {
                        let j = choose|j: int| 0 <= j < shorter.len() && shorter[j] == k;
                        assert(longer[j] == k);
                    }
                    assert(longer[i as int] == drops[i as int]);
                    if longer.contains(k) && k != drops[i as int] {
                        let j = choose|j: int| 0 <= j < longer.len() && longer[j] == k;
                        assert(shorter[j] == k);
                    }
                }
            }
            i += 1;
        }
        assert(are_unwatched(*unwatch, to_drop@, gone));
        proof {
            assert(drops.take(i as int) =~= drops);
            assert forall|k: PathKey| #[trigger] self.watched@.contains(k) <==> start.intersect(
                desired@,
            ).contains(k) by {
                assert(drops.to_set().contains(k) <==> drops.contains(k));
            }
            assert(self.watched@ =~= start.intersect(desired@));
        }
        let ghost kept = self.watched@;
        let ghost mut outcomes: Seq<Result<(), WatchError>> = Seq::empty();
        let mut n: usize = 0;
        assert(self.watched@ =~= kept.union(newly_watched(to_add@, outcomes)));
        while n < to_add.len()
            invariant
                n <= to_add@.len(),
                outcomes.len() == n,
                self.root == old(self).root,
                !self.degraded,
                !old(self).degraded,
                start == old(self).watched@,
                kept == start.intersect(desired@),
                is_sorted_listing(to_add@, desired@.difference(start)),
                is_sorted_listing(to_drop@, start.difference(desired@)),
                are_unwatched(*unwatch, to_drop@, gone),
                forall|path: &FsPath| #[trigger] call_requires(watch, (path,)),
                forall|j: int|
                    0 <= j < n ==> call_ensures(watch, (&to_add@[j],), #[trigger] outcomes[j]),
                forall|j: int| 0 <= j < n ==> !fails_for_good(#[trigger] outcomes[j], codes),
                self.watched@ == kept.union(newly_watched(to_add@, outcomes)),
            decreases to_add@.len() - n,
        {
            let ghost before = outcomes;
            let ghost middle = self.watched@;
            let path = &to_add[n];
            let outcome = watch(path);
            proof {
                assert(call_ensures(*watch, (&to_add@[n as int],), outcome));
                outcomes = before.push(outcome);
                assert(outcomes.drop_last() =~= before);
                assert forall|j: int| 0 <= j < n + 1 implies call_ensures(
                    *watch,
                    (&to_add@[j],),
                    #[trigger] outcomes[j],
                ) by {
                    if j < n {
                        assert(outcomes[j] == before[j]);
                    }
                }
                assert forall|j: int| 0 <= j < n implies !fails_for_good(
                    #[trigger] outcomes[j],
                    codes,
                ) by {
                    assert(outcomes[j] == before[j]);
                }
            }
            match outcome {
                Ok(()) => {
                    let _ = self.watched.insert(path.clone());
                },
                Err(err) => {
                    if is_watch_limit_error_with(&err, codes) {
                        // Out of watch handles: stop watching. The tree still works,
                        // just without live updates.
                        self.degraded = true;
                        proof {
                            assert(is_watch_run(*watch, to_add@, outcomes, codes));
                        }
                        return;
                    }
                    // A transient per-path failure (e.g. the directory vanished
                    // between expand and watch): skip just this path.
                },
            }
            assert(self.watched@ =~= kept.union(newly_watched(to_add@, outcomes)));
            n += 1;
        }
        assert(is_watch_run(*watch, to_add@, outcomes, codes));
    }

    /// Drive the watch set toward `desired` (the root plus expanded folders): add a
    /// watch for each newly expanded directory and drop the watch for each collapsed
    /// one, so the non-recursive watcher tracks exactly the expanded tree. Once
    /// degraded by a watch-handle-limit error this is a no-op: the Explorer relies
    /// on manual refresh.
    pub fn reconcile<W: Fn(&FsPath) -> Result<(), WatchError>, U: Fn(&FsPath) -> bool>(
        &mut self,
        desired: &PathSet,
        watch: &W,
        unwatch: &U,
    )
        requires
            forall|path: &FsPath| #[trigger] call_requires(watch, (path,)),
            forall|path: &FsPath| #[trigger] call_requires(unwatch, (path,)),
        ensures
            exists|codes: LimitCodes| #[trigger]
                call_ensures(LimitCodes::of_system, (), codes) && is_reconciled(
                    *old(self),
                    *final(self),
                    desired@,
                    *watch,
                    codes,
                ),
            !old(self).degraded ==> exists|to_drop: Seq<FsPath>, gone: Seq<bool>| #[trigger]
                are_unwatched(*unwatch, to_drop, gone) && is_sorted_listing(
                    to_drop,
                    old(self).watched@.difference(desired@),
                ),
    {
        let codes = LimitCodes::of_system();
        assert(call_ensures(LimitCodes::of_system, (), codes));
        self.reconcile_with(desired, codes, watch, unwatch);
    }
}

/// The paths that a batch of filesystem events names, those of each event in turn.
pub open spec fn event_paths(events: Seq<Vec<FsPath>>) -> Seq<Seq<u8>>
    decreases events.len(),
{
    if events.len() == 0 {
        seq![]
    } else {
        event_paths(events.drop_last()) + events.last()@.map_values(|path: FsPath| path@)
    }
}

/// The paths of a list.
pub open spec fn path_views(paths: Seq<FsPath>) -> Seq<Seq<u8>> {
    paths.map_values(|path: FsPath| path@)
}

/// The paths that a batch of filesystem events names; nothing is to be reported for
/// a batch that names none.
pub fn changed_paths(events: &Vec<Vec<FsPath>>) -> (paths: Option<Vec<FsPath>>)
    ensures
        paths is None <==> event_paths(events@).len() == 0,
        paths matches Some(list) ==> path_views(list@) == event_paths(events@),
{
    let mut list: Vec<FsPath> = Vec::new();
    let mut i: usize = 0;
    assert(path_views(list@) =~= event_paths(events@.take(0)));
    while i < events.len()
        invariant
            i <= events@.len(),
            path_views(list@) == event_paths(events@.take(i as int)),
        decreases events@.len() - i,
    {
        let event = &events[i];
        let ghost start = path_views(list@);
        let ghost all = path_views(event@);
        let mut j: usize = 0;
        assert(path_views(list@) =~= start + all.take(0));
        while j < event.len()
            invariant
                j <= event@.len(),
                all == path_views(event@),
                path_views(list@) == start + all.take(j as int),
            decreases event@.len() - j,
        {
            let ghost before = list@;
            let path = event[j].clone();
            list.push(path);
            assert(path_views(list@) =~= path_views(before).push(path@));
            assert(all.take(j + 1) =~= all.take(j as int).push(all[j as int]));
            j += 1;
        }
        assert(all.take(j as int) =~= all);
        assert(events@.take(i + 1).drop_last() =~= events@.take(i as int));
        i += 1;
    }
    assert(events@.take(i as int) =~= events@);
    assert(path_views(list@).len() == list@.len());
    if list.len() == 0 {
        None
    } else {
        Some(list)
    }
}

/// Where every directory could be watched, the watcher watches exactly what is
/// desired.
pub proof fn law_watcher_tracks_the_desired_set<W: Fn(&FsPath) -> Result<(), WatchError>>(
    before: Set<PathKey>,
    desired: Set<PathKey>,
    watch: W,
    to_add: Seq<FsPath>,
    outcomes: Seq<Result<(), WatchError>>,
    codes: LimitCodes,
)
    requires
        is_watch_run(watch, to_add, outcomes, codes),
        is_sorted_listing(to_add, desired.difference(before)),
        forall|i: int| 0 <= i < outcomes.len() ==> (#[trigger] outcomes[i]) is Ok,
    ensures
        before.intersect(desired).union(newly_watched(to_add, outcomes)) == desired,
{
    lemma_newly_watched(to_add, outcomes);
    assert(outcomes.len() == to_add.len()) by {
        if outcomes.len() < to_add.len() {
            assert(outcomes[outcomes.len() - 1] is Ok);
        }
    }
    let keys = keys_of(to_add);
    assert(keys.take(outcomes.len() as int) =~= keys);
    assert(before.intersect(desired).union(newly_watched(to_add, outcomes)) =~= desired) by {
        assert forall|k: PathKey| newly_watched(to_add, outcomes).contains(k)
            <==> desired.difference(before).contains(k) by {
            assert(keys.to_set().contains(k) <==> keys.contains(k));
        }
    }
}

proof fn lemma_newly_watched(to_add: Seq<FsPath>, outcomes: Seq<Result<(), WatchError>>)
    requires
        outcomes.len() <= to_add.len(),
        forall|i: int| 0 <= i < outcomes.len() ==> (#[trigger] outcomes[i]) is Ok,
    ensures
        forall|k: PathKey| #[trigger]
            newly_watched(to_add, outcomes).contains(k) <==> keys_of(to_add).take(
                outcomes.len() as int,
            ).contains(k),
    decreases outcomes.len(),
{
    let keys = keys_of(to_add);
    if outcomes.len() > 0 {
        let n = outcomes.len() as int;
        let shorter = outcomes.drop_last();
        assert forall|i: int| 0 <= i < shorter.len() implies (#[trigger] shorter[i]) is Ok by {
            assert(shorter[i] == outcomes[i]);
        }
        lemma_newly_watched(to_add, shorter);
        assert(outcomes[n - 1] is Ok);
        let last = path_key(to_add[n - 1]@);
        assert(keys[n - 1] == last);
        assert(keys.take(n) =~= keys.take(n - 1).push(last));
        assert forall|k: PathKey| #[trigger]
            newly_watched(to_add, outcomes).contains(k) <==> keys.take(n).contains(k) by {
            let init = keys.take(n - 1);
            let full = keys.take(n);
            assert(newly_watched(to_add, shorter).contains(k) <==> init.contains(k));
            if init.contains(k) {
                let j = choose|j: int| 0 <= j < init.len() && init[j] == k;
                assert(full[j] == k);
            }
            assert(full[n - 1] == last);
            if full.contains(k) && k != last {
                let j = choose|j: int| 0 <= j < full.len() && full[j] == k;
                assert(init[j] == k);
            }
        }
    } else {
        assert(keys.take(0) =~= Seq::<PathKey>::empty());
    }
}

/// A directory is watched anew exactly where watching it succeeded.
pub proof fn law_watched_where_it_succeeded(
    to_add: Seq<FsPath>,
    outcomes: Seq<Result<(), WatchError>>,
    k: PathKey,
)
    requires
        outcomes.len() <= to_add.len(),
    ensures
        newly_watched(to_add, outcomes).contains(k) <==> exists|i: int|
            0 <= i < outcomes.len() && (#[trigger] outcomes[i]) is Ok && path_key(to_add[i]@) == k,
    decreases outcomes.len(),
{
    if outcomes.len() > 0 {
        let shorter = outcomes.drop_last();
        law_watched_where_it_succeeded(to_add, shorter, k);
        if newly_watched(to_add, shorter).contains(k) {
            let i = choose|i: int|
                0 <= i < shorter.len() && (#[trigger] shorter[i]) is Ok && path_key(to_add[i]@)
                    == k;
            assert(outcomes[i] is Ok);
        }
        if outcomes.last() is Ok && path_key(to_add[outcomes.len() - 1]@) == k {
            assert(outcomes[outcomes.len() - 1] is Ok);
        }
        if exists|i: int|
            0 <= i < outcomes.len() && (#[trigger] outcomes[i]) is Ok && path_key(to_add[i]@)
                == k {
            let i = choose|i: int|
                0 <= i < outcomes.len() && (#[trigger] outcomes[i]) is Ok && path_key(to_add[i]@)
                    == k;
            if i < shorter.len() {
                assert(shorter[i] is Ok);
            }
        }
    }
}

/// Errors that mean that no handles are left stop the watching for good: only the last attempt
/// of a run fails so, and only then directories are left that were not tried.
pub proof fn law_run_stops_without_handles<W: Fn(&FsPath) -> Result<(), WatchError>>(
    watch: W,
    to_add: Seq<FsPath>,
    outcomes: Seq<Result<(), WatchError>>,
    codes: LimitCodes,
    i: int,
)
    requires
        is_watch_run(watch, to_add, outcomes, codes),
        0 <= i < outcomes.len(),
        outcomes[i] matches Err(e) && is_limit(e, codes),
    ensures
        i == outcomes.len() - 1,
{
    if i < outcomes.len() - 1 {
        assert(!fails_for_good(outcomes[i], codes));
    }
}

/// A run without such an error tries every directory.
pub proof fn law_run_tries_all<W: Fn(&FsPath) -> Result<(), WatchError>>(
    watch: W,
    to_add: Seq<FsPath>,
    outcomes: Seq<Result<(), WatchError>>,
    codes: LimitCodes,
)
    requires
        is_watch_run(watch, to_add, outcomes, codes),
        forall|i: int|
            0 <= i < outcomes.len() ==> !((#[trigger] outcomes[i]) matches Err(e) && is_limit(
                e,
                codes,
            )),
    ensures
        outcomes.len() == to_add.len(),
{
    if outcomes.len() < to_add.len() {
        assert(fails_for_good(outcomes[outcomes.len() - 1], codes));
    }
}

/// The limit of watches is a limit on every system, an I/O error is one exactly for the codes
/// of the system, and nothing else is.
pub proof fn law_limit_errors(codes: LimitCodes, code: i32)
    ensures
        is_limit(WatchError::MaxFilesWatch, codes),
        !is_limit(WatchError::Other, codes),
        !is_limit(WatchError::Io { code: None }, codes),
        is_limit(WatchError::Io { code: Some(code) }, codes) <==> code == codes.no_space || code
            == codes.too_many_open_files || code == codes.file_table_overflow,
{
}

/// Reconciling leaves nothing watched that is not desired, keeps what was watched and still is
/// desired, and degrades for good or not at all.
pub proof fn law_reconciled_watcher<W: Fn(&FsPath) -> Result<(), WatchError>>(
    before: ExplorerWatcher,
    after: ExplorerWatcher,
    desired: Set<PathKey>,
    watch: W,
    codes: LimitCodes,
    k: PathKey,
)
    requires
        is_reconciled(before, after, desired, watch, codes),
    ensures
        before.degraded ==> after == before,
        !before.degraded && after.watched@.contains(k) ==> desired.contains(k),
        !before.degraded && before.watched@.contains(k) && desired.contains(k)
            ==> after.watched@.contains(k),
        after.root == before.root,
        before.degraded ==> after.degraded,
{
    if !before.degraded {
        let (to_add, outcomes) = choose|to_add: Seq<FsPath>, outcomes: Seq<Result<(), WatchError>>|
         #[trigger]
            is_watch_run(watch, to_add, outcomes, codes) && is_sorted_listing(
                to_add,
                desired.difference(before.watched@),
            ) && after.root == before.root && after.degraded == (outcomes.len() > 0
                && fails_for_good(outcomes.last(), codes)) && after.watched@
                == before.watched@.intersect(desired).union(newly_watched(to_add, outcomes));
        law_watched_where_it_succeeded(to_add, outcomes, k);
        if newly_watched(to_add, outcomes).contains(k) {
            let i = choose|i: int|
                0 <= i < outcomes.len() && (#[trigger] outcomes[i]) is Ok && path_key(to_add[i]@)
                    == k;
            assert(keys_of(to_add)[i] == k);
            assert(keys_of(to_add).to_set().contains(k));
        }
    }
}

/// The paths of a batch of events are those of its first events and then those of the others.
pub proof fn law_paths_of_events(a: Seq<Vec<FsPath>>, b: Seq<Vec<FsPath>>, event: Vec<FsPath>)
    ensures
        event_paths(a + b) == event_paths(a) + event_paths(b),
        event_paths(seq![event]) == path_views(event@),
    decreases b.len(),
{
    reveal_with_fuel(event_paths, 2);
    assert(seq![event].drop_last() =~= Seq::<Vec<FsPath>>::empty());
    assert(seq![event].last() == event);
    assert(event_paths(seq![event]) =~= path_views(event@));
    if b.len() == 0 {
        assert(a + b =~= a);
        assert(event_paths(a) + event_paths(b) =~= event_paths(a));
    } else {
        law_paths_of_events(a, b.drop_last(), event);
        assert((a + b).drop_last() =~= a + b.drop_last());
        assert((a + b).last() == b.last());
        assert(event_paths(a + b) =~= event_paths(a) + event_paths(b));
    }
}

} // verus!
