//! The Explorer's filesystem watcher.
use herdr::path::FsPath;
use herdr::path_map::PathSet;
use herdr::watcher::{
    changed_paths, is_watch_limit_error, is_watch_limit_error_with, ExplorerWatcher, LimitCodes,
    WatchError,
};
use std::cell::RefCell;

fn path(text: &str) -> FsPath {
    FsPath::from_text(text)
}

fn paths(texts: &[&str]) -> PathSet {
    let mut set = PathSet::new();
    for text in texts {
        set.insert(path(text));
    }
    set
}

fn watched(watcher: &ExplorerWatcher) -> Vec<String> {
    let mut texts: Vec<String> = watcher.watched.members().iter().map(|p| p.to_text()).collect();
    texts.sort();
    texts
}

#[test]
fn watch_handle_limit_errors_trigger_the_manual_refresh_fallback() {
    // The dedicated inotify-limit kind degrades.
    assert!(is_watch_limit_error(&WatchError::MaxFilesWatch));
    // inotify surfaces the watch-descriptor limit as ENOSPC, and FD
    // exhaustion as EMFILE/ENFILE; all mean "out of watch handles".
    for errno in [libc::ENOSPC, libc::EMFILE, libc::ENFILE] {
        assert!(
            is_watch_limit_error(&WatchError::Io { code: Some(errno) }),
            "errno {errno} should degrade to manual refresh"
        );
    }
}

#[test]
fn ordinary_errors_do_not_trigger_the_fallback() {
    // A missing watch or a generic error is not a handle-limit condition, so
    // the watcher keeps running with live updates.
    assert!(!is_watch_limit_error(&WatchError::Other));
    assert!(!is_watch_limit_error(&WatchError::Io { code: None }));
    assert!(!is_watch_limit_error(&WatchError::Io { code: Some(libc::EACCES) }));
}

#[test]
fn the_codes_for_missing_handles_decide() {
    let codes = LimitCodes {
        no_space: 11,
        too_many_open_files: 12,
        file_table_overflow: 13,
    };
    for code in [11, 12, 13] {
        assert!(is_watch_limit_error_with(&WatchError::Io { code: Some(code) }, codes));
    }
    for code in [0, 10, 14] {
        assert!(!is_watch_limit_error_with(&WatchError::Io { code: Some(code) }, codes));
    }
}

#[test]
fn the_watch_set_follows_the_desired_one() {
    let log = RefCell::new(Vec::new());
    let watch = |dir: &FsPath| {
        log.borrow_mut().push(format!("+{}", dir.to_text()));
        Ok(())
    };
    let unwatch = |dir: &FsPath| {
        log.borrow_mut().push(format!("-{}", dir.to_text()));
        false
    };
    let mut watcher = ExplorerWatcher::new(path("/proj"));
    assert_eq!(watcher.root(), &path("/proj"));
    watcher.reconcile(&paths(&["/proj", "/proj/src", "/proj/doc"]), &watch, &unwatch);
    assert_eq!(watched(&watcher), vec!["/proj", "/proj/doc", "/proj/src"]);
    watcher.reconcile(&paths(&["/proj", "/proj/src", "/proj/tests"]), &watch, &unwatch);
    assert_eq!(watched(&watcher), vec!["/proj", "/proj/src", "/proj/tests"]);
    assert_eq!(
        log.into_inner(),
        vec!["+/proj", "+/proj/doc", "+/proj/src", "-/proj/doc", "+/proj/tests"]
    );
}

#[test]
fn running_out_of_handles_stops_the_watcher_for_good() {
    let asked = RefCell::new(Vec::new());
    let watch = |dir: &FsPath| {
        asked.borrow_mut().push(dir.to_text());
        if dir == &path("/proj/b") {
            Err(WatchError::Io { code: Some(libc::ENOSPC) })
        } else {
            Ok(())
        }
    };
    let unwatch = |_dir: &FsPath| true;
    let mut watcher = ExplorerWatcher::new(path("/proj"));
    watcher.reconcile(&paths(&["/proj/a", "/proj/b", "/proj/c"]), &watch, &unwatch);
    assert!(watcher.degraded);
    assert_eq!(watched(&watcher), vec!["/proj/a"]);
    watcher.reconcile(&paths(&[]), &watch, &unwatch);
    assert_eq!(watched(&watcher), vec!["/proj/a"]);
    assert_eq!(asked.into_inner(), vec!["/proj/a", "/proj/b"]);
}

#[test]
fn a_directory_that_vanished_is_skipped() {
    let watch = |dir: &FsPath| {
        if dir == &path("/proj/b") {
            Err(WatchError::Other)
        } else {
            Ok(())
        }
    };
    let unwatch = |_dir: &FsPath| true;
    let mut watcher = ExplorerWatcher::new(path("/proj"));
    watcher.reconcile(&paths(&["/proj/a", "/proj/b", "/proj/c"]), &watch, &unwatch);
    assert!(!watcher.degraded);
    assert_eq!(watched(&watcher), vec!["/proj/a", "/proj/c"]);
}

#[test]
fn events_without_paths_are_not_reported() {
    assert!(changed_paths(&Vec::new()).is_none());
    assert!(changed_paths(&vec![Vec::new(), Vec::new()]).is_none());
    let all = changed_paths(&vec![
        vec![path("/a"), path("/b")],
        Vec::new(),
        vec![path("/a")],
    ]);
    assert_eq!(all, Some(vec![path("/a"), path("/b"), path("/a")]));
}
