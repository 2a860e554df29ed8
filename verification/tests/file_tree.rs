//! The file tree of the Explorer.
use herdr::file_tree::{
    editor_open_argv, flatten_tree, read_dir_sorted, reconcile_watches, resolve_editor_command,
    rollup_git_status, sort_entries, truncate_with_ellipsis, watch_targets, ChildType,
    DirectoryChild, FileEntryKind, FileTreeDecoration, FileTreeEntry, FileTreeNode, FileTreeRow,
};
use herdr::path::FsPath;
use herdr::path_map::{PathMap, PathSet};
use herdr::source_control::{ChangeStatus, ChangedFile};

fn path(text: &str) -> FsPath {
    FsPath::from_text(text)
}

fn entry(name: &str, kind: FileEntryKind) -> FileTreeEntry {
    FileTreeEntry {
        name: name.to_string(),
        path: path("/root").join(&path(name)),
        kind,
    }
}

fn dir(name: &str) -> FileTreeEntry {
    entry(name, FileEntryKind::Directory)
}
fn file(name: &str) -> FileTreeEntry {
    entry(name, FileEntryKind::File)
}

/// Build an entry whose path nests under `parent` rather than `/root`, so a
/// multi-level cache can be assembled.
fn child(parent: &FsPath, name: &str, kind: FileEntryKind) -> FileTreeEntry {
    FileTreeEntry {
        name: name.to_string(),
        path: parent.join(&path(name)),
        kind,
    }
}

#[test]
fn flatten_descends_only_into_expanded_directories() {
    let root = path("/root");
    let src = root.join(&path("src"));
    let mut cache = PathMap::new();
    cache.insert(root.clone(), vec![dir("src"), file("README.md")]);
    cache.insert(
        src.clone(),
        vec![child(&src, "main.rs", FileEntryKind::File)],
    );

    // Collapsed: only the root's immediate children show.
    let collapsed = flatten_tree(&root, &cache, &PathSet::new());
    let names: Vec<&str> = collapsed
        .iter()
        .filter_map(|r| match r {
            FileTreeRow::Node(n) => Some(n.name.as_str()),
            FileTreeRow::Empty { .. } => None,
        })
        .collect();
    assert_eq!(names, vec!["src", "README.md"]);

    // Expanding src reveals its child indented one level deeper.
    let mut expanded = PathSet::new();
    expanded.insert(src.clone());
    let rows = flatten_tree(&root, &cache, &expanded);
    let nodes: Vec<(&str, usize, bool)> = rows
        .iter()
        .filter_map(|r| match r {
            FileTreeRow::Node(n) => Some((n.name.as_str(), n.depth, n.expanded)),
            FileTreeRow::Empty { .. } => None,
        })
        .collect();
    assert_eq!(
        nodes,
        vec![
            ("src", 0, true),
            ("main.rs", 1, false),
            ("README.md", 0, false)
        ]
    );
}

#[test]
fn flatten_never_follows_a_symlink_even_when_expanded() {
    let root = path("/root");
    let link = root.join(&path("link"));
    let mut cache = PathMap::new();
    cache.insert(root.clone(), vec![entry("link", FileEntryKind::Symlink)]);
    // Pretend the symlink target's children were somehow cached under its
    // path, and the path is in the expanded set.
    cache.insert(
        link.clone(),
        vec![child(&link, "secret.rs", FileEntryKind::File)],
    );
    let mut expanded = PathSet::new();
    expanded.insert(link.clone());

    let rows = flatten_tree(&root, &cache, &expanded);
    let names: Vec<&str> = rows
        .iter()
        .filter_map(|r| match r {
            FileTreeRow::Node(n) => Some(n.name.as_str()),
            FileTreeRow::Empty { .. } => None,
        })
        .collect();
    // The symlink shows, but its target's children are never walked.
    assert_eq!(names, vec!["link"]);
    let link_node = match &rows[0] {
        FileTreeRow::Node(n) => n,
        FileTreeRow::Empty { .. } => panic!("expected a node row"),
    };
    assert!(!link_node.expanded, "a symlink is never marked expanded");
}

#[test]
fn expanded_empty_or_unreadable_directory_yields_an_indicator_row() {
    let root = path("/root");
    let empty = root.join(&path("empty"));
    let mut cache = PathMap::new();
    cache.insert(root.clone(), vec![dir("empty")]);
    // An unreadable directory caches as an empty child list (read_dir failed)
    // — indistinguishable from a genuinely empty directory, and crucially it
    // is present in the cache so it is never re-read in a retry loop.
    cache.insert(empty.clone(), Vec::new());
    let mut expanded = PathSet::new();
    expanded.insert(empty.clone());

    let rows = flatten_tree(&root, &cache, &expanded);
    assert_eq!(
        rows,
        vec![
            FileTreeRow::Node(FileTreeNode {
                name: "empty".to_string(),
                path: empty,
                kind: FileEntryKind::Directory,
                depth: 0,
                expanded: true,
            }),
            FileTreeRow::Empty { depth: 1 },
        ]
    );
}

#[test]
fn truncate_with_ellipsis_clips_long_names_and_keeps_short_ones() {
    assert_eq!(truncate_with_ellipsis("main.rs", 20), "main.rs");
    assert_eq!(
        truncate_with_ellipsis("a_very_long_name.rs", 10),
        "a_very_lo…"
    );
    assert_eq!(truncate_with_ellipsis("name", 0), "");
    // Exactly the available width: no ellipsis.
    assert_eq!(truncate_with_ellipsis("abcd", 4), "abcd");
}

#[test]
fn includes_dotfiles_and_treats_symlinks_as_non_followed_leaves() {
    let sorted = sort_entries(vec![
        entry(".gitignore", FileEntryKind::File),
        entry(".config", FileEntryKind::Directory),
        entry("link-to-dir", FileEntryKind::Symlink),
        entry("zebra", FileEntryKind::Directory),
    ]);

    let names: Vec<&str> = sorted.iter().map(|e| e.name.as_str()).collect();
    // Dotfiles are not filtered out; a symlink (even pointing at a
    // directory) sorts with the files because it is a non-followed leaf.
    assert_eq!(names, vec![".config", "zebra", ".gitignore", "link-to-dir"]);

    let symlink = sorted.iter().find(|e| e.name == "link-to-dir").unwrap();
    assert_eq!(symlink.kind, FileEntryKind::Symlink);
    assert!(
        !symlink.is_expandable_dir(),
        "a symlink must never be expandable, so the tree is never followed into it"
    );
}

fn changed(text: &str, status: ChangeStatus) -> ChangedFile {
    ChangedFile {
        path: path(text),
        status,
    }
}

#[test]
fn rollup_decorates_changed_files_and_marks_every_ancestor_folder() {
    let root = path("/root");
    // Two changes nested at different depths, plus an unrelated folder
    // (tests/) that contains no change.
    let changes = vec![
        changed("src/app/state.rs", ChangeStatus::Modified),
        changed("docs/readme.md", ChangeStatus::Added),
    ];

    let decorations = rollup_git_status(&root, &changes);

    // The changed files carry their precise status.
    assert_eq!(
        decorations.get(&root.join(&path("src/app/state.rs"))),
        Some(&FileTreeDecoration::Changed(ChangeStatus::Modified)),
    );
    assert_eq!(
        decorations.get(&root.join(&path("docs/readme.md"))),
        Some(&FileTreeDecoration::Changed(ChangeStatus::Added)),
    );

    // Every ancestor folder up to the root is marked as containing changes,
    // so a collapsed folder shows a rolled-up dot.
    assert_eq!(
        decorations.get(&root.join(&path("src/app"))),
        Some(&FileTreeDecoration::ContainsChanges),
    );
    assert_eq!(
        decorations.get(&root.join(&path("src"))),
        Some(&FileTreeDecoration::ContainsChanges),
    );
    assert_eq!(
        decorations.get(&root.join(&path("docs"))),
        Some(&FileTreeDecoration::ContainsChanges),
    );

    // Unrelated folders are never marked.
    assert_eq!(decorations.get(&root.join(&path("tests"))), None);
    assert_eq!(decorations.get(&root.join(&path("src/ui"))), None);
}

#[test]
fn sorts_directories_before_files_each_case_insensitive_alphabetical() {
    let sorted = sort_entries(vec![
        entry("README.md", FileEntryKind::File),
        entry("src", FileEntryKind::Directory),
        entry("Cargo.toml", FileEntryKind::File),
        entry("docs", FileEntryKind::Directory),
    ]);

    let names: Vec<&str> = sorted.iter().map(|e| e.name.as_str()).collect();
    // Directories first (docs, src — case-insensitive), then files
    // (Cargo.toml, README.md — case-insensitive).
    assert_eq!(names, vec!["docs", "src", "Cargo.toml", "README.md"]);
}

#[test]
fn editor_resolution_prefers_configured_then_visual_then_editor_then_vi() {
    // Configured `source_panel.editor` wins over everything.
    assert_eq!(
        resolve_editor_command(Some("hx"), Some("nvim"), Some("nano")),
        "hx"
    );
    // No configured editor → $VISUAL.
    assert_eq!(
        resolve_editor_command(None, Some("nvim"), Some("nano")),
        "nvim"
    );
    // No configured editor and no $VISUAL → $EDITOR.
    assert_eq!(resolve_editor_command(None, None, Some("nano")), "nano");
    // Nothing set → vi.
    assert_eq!(resolve_editor_command(None, None, None), "vi");
    // Blank values are treated as unset and skipped.
    assert_eq!(
        resolve_editor_command(Some("  "), Some(""), Some("nano")),
        "nano"
    );
}

#[test]
fn editor_open_argv_runs_the_editor_on_the_file_without_a_pager() {
    let argv = editor_open_argv("nvim", &path("/repo/src/main.rs"));

    // Runs through `sh -c` so an editor command with flags (e.g. `code -w`)
    // works, but — unlike the diff/commit commands — is never piped into a
    // pager: an editor manages its own screen.
    assert_eq!(argv[0], "sh");
    assert_eq!(argv[1], "-c");
    let script = &argv[2];
    assert!(script.contains("nvim"), "script should invoke the editor");
    assert!(
        !script.contains("less") && !script.to_lowercase().contains("pager"),
        "editor command must not be wrapped in a pager: {script}"
    );
    // The file is passed as a positional parameter, not interpolated into the
    // script, so paths with spaces or shell metacharacters are safe.
    assert_eq!(argv.last().map(String::as_str), Some("/repo/src/main.rs"));
}

#[test]
fn editor_open_argv_preserves_editor_flags() {
    let argv = editor_open_argv("code -w", &path("/repo/a.txt"));
    assert!(argv[2].contains("code -w"));
}

#[test]
fn watch_targets_always_includes_the_root_plus_every_expanded_folder() {
    let root = path("/root");
    let src = root.join(&path("src"));
    let app = src.join(&path("app"));
    let mut expanded = PathSet::new();
    expanded.insert(src.clone());
    expanded.insert(app.clone());

    let targets = watch_targets(Some(&root), &expanded);

    // The root is watched even though it is not in the expanded set, and each
    // expanded folder is watched so changes inside it are seen live.
    assert!(targets.contains(&root));
    assert!(targets.contains(&src));
    assert!(targets.contains(&app));
    assert_eq!(targets.len(), 3);

    // A collapsed folder (never expanded) is not a watch target — its changes
    // are picked up by the re-read on next expand.
    assert!(!targets.contains(&root.join(&path("docs"))));
}

#[test]
fn watch_targets_is_empty_when_no_tree_is_rooted() {
    assert!(watch_targets(None, &PathSet::new()).is_empty());
}

#[test]
fn reconcile_watches_adds_newly_expanded_and_drops_collapsed_folders() {
    let root = path("/root");
    let src = root.join(&path("src"));
    let docs = root.join(&path("docs"));

    // Currently watching root + docs; the user has just collapsed docs and
    // expanded src, so the desired set is root + src.
    let mut watched = PathSet::new();
    watched.insert(root.clone());
    watched.insert(docs.clone());
    let mut desired = PathSet::new();
    desired.insert(root.clone());
    desired.insert(src.clone());

    let (to_add, to_drop) = reconcile_watches(&desired, &watched);

    assert_eq!(to_add, vec![src]);
    assert_eq!(to_drop, vec![docs]);
}

#[test]
fn reconcile_watches_is_a_no_op_when_the_sets_already_match() {
    let root = path("/root");
    let mut set = PathSet::new();
    set.insert(root.clone());
    set.insert(root.join(&path("src")));

    let (to_add, to_drop) = reconcile_watches(&set, &set);
    assert!(to_add.is_empty());
    assert!(to_drop.is_empty());
}

fn listed(name: &str, file_type: Option<(bool, bool)>) -> DirectoryChild {
    DirectoryChild {
        file_name: path(name),
        file_type: file_type.map(|(is_symlink, is_dir)| ChildType { is_symlink, is_dir }),
    }
}

#[test]
fn a_directory_without_a_listing_has_no_entries() {
    assert!(read_dir_sorted(&path("/missing"), None).is_empty());
}

#[test]
fn a_listing_is_classified_without_following_symlinks_and_sorted() {
    let entries = read_dir_sorted(
        &path("/base"),
        Some(vec![
            listed("Zfile.txt", Some((false, false))),
            listed("link", Some((true, true))),
            listed(".dotfile", None),
            listed("subdir", Some((false, true))),
        ]),
    );
    let found: Vec<(&str, FileEntryKind)> =
        entries.iter().map(|e| (e.name.as_str(), e.kind)).collect();
    assert_eq!(
        found,
        vec![
            ("subdir", FileEntryKind::Directory),
            (".dotfile", FileEntryKind::File),
            ("link", FileEntryKind::Symlink),
            ("Zfile.txt", FileEntryKind::File),
        ]
    );
    assert_eq!(entries[0].path, path("/base/subdir"));
}

#[test]
fn names_sort_by_their_lower_case_and_ties_keep_their_order() {
    let sorted = sort_entries(vec![
        file("b"),
        file("\u{c4}"),
        file("A"),
        file("a"),
        file("\u{e4}b"),
        file("B"),
    ]);
    let names: Vec<&str> = sorted.iter().map(|e| e.name.as_str()).collect();
    assert_eq!(names, vec!["A", "a", "b", "B", "\u{c4}", "\u{e4}b"]);
}

#[test]
fn rollup_keeps_the_last_status_and_stops_at_the_root() {
    let root = path("/root");
    let decorations = rollup_git_status(
        &root,
        &vec![
            changed("a/b", ChangeStatus::Added),
            changed("a", ChangeStatus::Deleted),
            changed("a/b", ChangeStatus::Untracked),
        ],
    );
    assert_eq!(
        decorations.get(&path("/root/a/b")),
        Some(&FileTreeDecoration::Changed(ChangeStatus::Untracked))
    );
    assert_eq!(
        decorations.get(&path("/root/a")),
        Some(&FileTreeDecoration::Changed(ChangeStatus::Deleted))
    );
    assert_eq!(decorations.get(&root), None);
    assert_eq!(decorations.get(&path("/")), None);
    assert_eq!(decorations.len(), 2);
}

#[test]
fn rollup_of_a_path_outside_the_root_marks_every_ancestor() {
    let decorations =
        rollup_git_status(&path("/root"), &vec![changed("/other/x", ChangeStatus::Modified)]);
    assert_eq!(
        decorations.get(&path("/other")),
        Some(&FileTreeDecoration::ContainsChanges)
    );
    assert_eq!(decorations.get(&path("/")), Some(&FileTreeDecoration::ContainsChanges));
    assert_eq!(decorations.len(), 3);
}

#[test]
fn editor_commands_are_trimmed() {
    assert_eq!(resolve_editor_command(Some(" code -w\t"), None, None), "code -w");
    assert_eq!(resolve_editor_command(Some("\u{2003}\u{a0}"), None, None), "vi");
}

#[test]
fn an_ellipsis_alone_fits_one_column() {
    assert_eq!(truncate_with_ellipsis("abc", 1), "\u{2026}");
    assert_eq!(truncate_with_ellipsis("", 0), "");
    assert_eq!(truncate_with_ellipsis("\u{e4}\u{f6}\u{fc}", 2), "\u{e4}\u{2026}");
}

#[test]
fn reconciled_watches_are_sorted_by_component() {
    let mut desired = PathSet::new();
    for text in ["/b", "/a/z", "/a", "/a.b", "rel", "/"] {
        desired.insert(path(text));
    }
    let (to_add, to_drop) = reconcile_watches(&desired, &PathSet::new());
    assert_eq!(
        to_add,
        vec![path("/"), path("/a"), path("/a/z"), path("/a.b"), path("/b"), path("rel")]
    );
    assert!(to_drop.is_empty());
    let (to_add, to_drop) = reconcile_watches(&PathSet::new(), &desired);
    assert!(to_add.is_empty());
    assert_eq!(to_drop.len(), 6);
}

#[test]
fn nested_directories_flatten_depth_first() {
    let root = path("/r");
    let a = path("/r/a");
    let b = path("/r/a/b");
    let mut cache = PathMap::new();
    cache.insert(root.clone(), vec![child(&root, "a", FileEntryKind::Directory)]);
    cache.insert(
        a.clone(),
        vec![
            child(&a, "b", FileEntryKind::Directory),
            child(&a, "c", FileEntryKind::File),
        ],
    );
    let mut expanded = PathSet::new();
    expanded.insert(a);
    expanded.insert(b);
    let rows = flatten_tree(&root, &cache, &expanded);
    let depths: Vec<Option<usize>> = rows
        .iter()
        .map(|row| match row {
            FileTreeRow::Node(n) => Some(n.depth),
            FileTreeRow::Empty { .. } => None,
        })
        .collect();
    assert_eq!(depths, vec![Some(0), Some(1), None, Some(1)]);
    assert_eq!(rows[2], FileTreeRow::Empty { depth: 2 });
}

#[test]
fn exchanging_the_watch_sets_exchanges_what_is_added_and_dropped() {
    let mut a = PathSet::new();
    let mut b = PathSet::new();
    for text in ["/root", "/root/z", "/root/a"] {
        a.insert(path(text));
    }
    for text in ["/root/m", "/root"] {
        b.insert(path(text));
    }
    let (to_add, to_drop) = reconcile_watches(&a, &b);
    assert_eq!(to_add, vec![path("/root/a"), path("/root/z")]);
    assert_eq!(to_drop, vec![path("/root/m")]);
    assert_eq!(reconcile_watches(&b, &a), (to_drop, to_add));
}
