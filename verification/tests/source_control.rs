//! What git reports, parsed, and the commands that show it.
use herdr::path::FsPath;
use herdr::source_control::{
    changed_file_diff_argv, changed_files_args, changed_files_from_output, commit_file_diff_argv,
    commit_files_args, commit_files_from_output, commit_show_argv, commits_args,
    commits_from_output, ordinary_status, pager_wrapped_argv, parse_commit_name_status, parse_git_log_graph,
    parse_git_status_porcelain_v2, parse_log_decorations, ChangeStatus, ChangedFile,
    MAX_CHANGED_FILES,
};

fn path(text: &str) -> FsPath {
    FsPath::from_text(text)
}

#[test]
fn parses_modified_worktree_entry() {
    let changes = parse_git_status_porcelain_v2(
        "1 .M N... 100644 100644 100644 1111111 1111111 src/main.rs\n",
    );
    assert_eq!(
        changes,
        vec![ChangedFile {
            path: path("src/main.rs"),
            status: ChangeStatus::Modified,
        }]
    );
}

#[test]
fn parses_staged_added_entry() {
    let changes = parse_git_status_porcelain_v2(
        "1 A. N... 000000 100644 100644 0000000 2222222 new_file.rs\n",
    );
    assert_eq!(changes[0].status, ChangeStatus::Added);
    assert_eq!(changes[0].path, path("new_file.rs"));
}

#[test]
fn parses_deleted_entry() {
    let changes = parse_git_status_porcelain_v2(
        "1 .D N... 100644 100644 000000 3333333 3333333 gone.rs\n",
    );
    assert_eq!(changes[0].status, ChangeStatus::Deleted);
}

#[test]
fn parses_renamed_entry_with_original_path() {
    let changes = parse_git_status_porcelain_v2(
        "2 R. N... 100644 100644 100644 4444444 4444444 R100 new/name.rs\told/name.rs\n",
    );
    assert_eq!(
        changes,
        vec![ChangedFile {
            path: path("new/name.rs"),
            status: ChangeStatus::Renamed {
                from: path("old/name.rs"),
            },
        }]
    );
}

#[test]
fn parses_unmerged_entry() {
    let changes = parse_git_status_porcelain_v2(
        "u UU N... 100644 100644 100644 100644 5555555 5555555 5555555 conflict.rs\n",
    );
    assert_eq!(changes[0].status, ChangeStatus::Unmerged);
    assert_eq!(changes[0].path, path("conflict.rs"));
}

#[test]
fn parses_untracked_entry() {
    let changes = parse_git_status_porcelain_v2("? scratch.txt\n");
    assert_eq!(
        changes,
        vec![ChangedFile {
            path: path("scratch.txt"),
            status: ChangeStatus::Untracked,
        }]
    );
}

#[test]
fn skips_ignored_and_header_lines() {
    let changes = parse_git_status_porcelain_v2(
        "# branch.oid 1234\n# branch.head main\n! target/debug/herdr\n",
    );
    assert!(changes.is_empty());
}

#[test]
fn preserves_paths_containing_spaces() {
    let changes = parse_git_status_porcelain_v2(
        "1 .M N... 100644 100644 100644 6666666 6666666 my dir/a file.rs\n",
    );
    assert_eq!(changes[0].path, path("my dir/a file.rs"));
}

#[test]
fn handles_a_mix_of_entry_kinds() {
    let stdout = "# branch.head main\n1 M. N... 100644 100644 100644 aaa aaa staged.rs\n1 .M N... 100644 100644 100644 bbb bbb worktree.rs\n2 R. N... 100644 100644 100644 ccc ccc R100 renamed.rs\toriginal.rs\n? untracked.rs\n";
    let changes = parse_git_status_porcelain_v2(stdout);
    assert_eq!(changes.len(), 4);
    assert_eq!(changes[0].status, ChangeStatus::Modified);
    assert_eq!(changes[1].status, ChangeStatus::Modified);
    assert!(matches!(changes[2].status, ChangeStatus::Renamed { .. }));
    assert_eq!(changes[3].status, ChangeStatus::Untracked);
}

#[test]
fn diff_argv_for_tracked_file_uses_head() {
    let change = ChangedFile {
        path: path("src/main.rs"),
        status: ChangeStatus::Modified,
    };
    let argv = changed_file_diff_argv(&path("/repo"), &change);
    assert_eq!(
        argv,
        vec![
            "sh",
            "-c",
            "git -C \"$1\" diff HEAD --color -- \"$2\" | LESS=-R less",
            "sh",
            "/repo",
            "src/main.rs",
        ]
    );
}

#[test]
fn diff_argv_for_untracked_file_uses_no_index() {
    let change = ChangedFile {
        path: path("scratch.txt"),
        status: ChangeStatus::Untracked,
    };
    let argv = changed_file_diff_argv(&path("/repo"), &change);
    assert_eq!(
        argv,
        vec![
            "sh",
            "-c",
            "git -C \"$1\" diff --no-index --color /dev/null \"$2\" | LESS=-R less",
            "sh",
            "/repo",
            "scratch.txt",
        ]
    );
}

#[test]
fn diff_argv_for_deleted_and_renamed_are_tracked() {
    for status in [
        ChangeStatus::Deleted,
        ChangeStatus::Renamed {
            from: path("old.rs"),
        },
        ChangeStatus::Added,
        ChangeStatus::Unmerged,
    ] {
        let change = ChangedFile {
            path: path("file.rs"),
            status,
        };
        let argv = changed_file_diff_argv(&path("/repo"), &change);
        assert!(
            argv.iter().any(|a| a.contains("diff HEAD")),
            "argv was {argv:?}"
        );
        assert!(!argv.iter().any(|a| a.contains("--no-index")));
    }
}

#[test]
fn show_argv_uses_sha_and_repo_dir() {
    let argv = commit_show_argv(&path("/repo"), "abc1234");
    assert_eq!(
        argv,
        vec![
            "sh",
            "-c",
            "git -C \"$1\" show --color \"$2\" | LESS=-R less",
            "sh",
            "/repo",
            "abc1234",
        ]
    );
}

#[test]
fn commit_file_diff_argv_scopes_show_to_one_path() {
    let change = ChangedFile {
        path: path("src/main.rs"),
        status: ChangeStatus::Modified,
    };
    let argv = commit_file_diff_argv(&path("/repo"), "abc1234", &change);
    assert_eq!(
        argv,
        vec![
            "sh",
            "-c",
            "git -C \"$1\" show --color \"$2\" -- \"$3\" | LESS=-R less",
            "sh",
            "/repo",
            "abc1234",
            "src/main.rs",
        ]
    );
}

#[test]
fn parses_commit_name_status_entries() {
    let stdout =
        "\nM\tsrc/lib.rs\nA\tnew.rs\nD\told.rs\nR100\tfrom.rs\tto.rs\nC75\tsrc.rs\tcopy.rs\n";
    let changes = parse_commit_name_status(stdout);
    assert_eq!(
        changes,
        vec![
            ChangedFile {
                path: path("src/lib.rs"),
                status: ChangeStatus::Modified,
            },
            ChangedFile {
                path: path("new.rs"),
                status: ChangeStatus::Added,
            },
            ChangedFile {
                path: path("old.rs"),
                status: ChangeStatus::Deleted,
            },
            ChangedFile {
                path: path("to.rs"),
                status: ChangeStatus::Renamed {
                    from: path("from.rs"),
                },
            },
            ChangedFile {
                path: path("copy.rs"),
                status: ChangeStatus::Added,
            },
        ]
    );
}

#[test]
fn commit_name_status_skips_blank_format_header() {
    // `git show --format=` emits a leading blank line before the file list.
    let changes = parse_commit_name_status("\n\nM\tonly.rs\n");
    assert_eq!(changes.len(), 1);
    assert_eq!(changes[0].path, path("only.rs"));
}

/// Build a `git log --graph` fixture line from its parts, joining fields
/// with the unit separator the real command emits.
fn log_line(graph: &str, sha: &str, author: &str, decoration: &str, subject: &str) -> String {
    format!("{graph}{sha}\u{1f}{author}\u{1f}{decoration}\u{1f}{subject}")
}

#[test]
fn parses_a_linear_log_preserving_graph_cells() {
    let stdout = format!(
        "{}\n{}\n",
        log_line("* ", "aaaaaaa", "Ada", " (HEAD -> main)", "second"),
        log_line("* ", "bbbbbbb", "Babbage", "", "first"),
    );
    let (commits, has_more) = parse_git_log_graph(&stdout, 50);

    assert!(!has_more);
    assert_eq!(commits.len(), 2);
    assert_eq!(commits[0].graph_cell, "* ");
    assert_eq!(commits[0].sha.as_deref(), Some("aaaaaaa"));
    assert_eq!(commits[0].author, "Ada");
    assert_eq!(commits[0].subject, "second");
    assert_eq!(commits[0].decorations, vec!["HEAD -> main".to_string()]);
    assert_eq!(commits[1].sha.as_deref(), Some("bbbbbbb"));
    assert!(commits[1].decorations.is_empty());
}

#[test]
fn preserves_merge_connector_lines_verbatim() {
    // A merge commit is followed by connector-only lines drawing the graph.
    let stdout = format!(
        "{}\n{}\n{}\n{}\n",
        log_line("*   ", "merge11", "Ada", "", "merge branch"),
        "|\\  ",
        log_line("| * ", "feat222", "Babbage", "", "feature work"),
        log_line("* | ", "main333", "Ada", "", "mainline work"),
    );
    let (commits, _) = parse_git_log_graph(&stdout, 50);

    assert_eq!(commits.len(), 4);
    assert_eq!(commits[0].graph_cell, "*   ");
    assert_eq!(commits[0].sha.as_deref(), Some("merge11"));
    // The connector line is preserved verbatim with no commit payload.
    assert_eq!(commits[1].graph_cell, "|\\  ");
    assert_eq!(commits[1].sha, None);
    assert!(commits[1].subject.is_empty());
    assert_eq!(commits[2].graph_cell, "| * ");
    assert_eq!(commits[2].sha.as_deref(), Some("feat222"));
    assert_eq!(commits[3].graph_cell, "* | ");
}

#[test]
fn splits_multiple_decorations() {
    let decorations = parse_log_decorations(" (HEAD -> main, origin/main)");
    assert_eq!(
        decorations,
        vec!["HEAD -> main".to_string(), "origin/main".to_string()]
    );
}

#[test]
fn decorations_empty_when_no_refs() {
    assert!(parse_log_decorations("").is_empty());
}

#[test]
fn has_more_set_when_log_returns_extra_commit() {
    // limit of 2, but three commits present (the +1 we request) → has_more.
    let stdout = format!(
        "{}\n{}\n{}\n",
        log_line("* ", "ccc1111", "A", "", "c"),
        log_line("* ", "bbb2222", "B", "", "b"),
        log_line("* ", "aaa3333", "C", "", "a"),
    );
    let (commits, has_more) = parse_git_log_graph(&stdout, 2);

    assert!(has_more);
    assert_eq!(commits.len(), 2);
    assert_eq!(commits[0].sha.as_deref(), Some("ccc1111"));
    assert_eq!(commits[1].sha.as_deref(), Some("bbb2222"));
}

#[test]
fn no_more_when_log_fills_window_exactly() {
    let stdout = format!(
        "{}\n{}\n",
        log_line("* ", "ccc1111", "A", "", "c"),
        log_line("* ", "bbb2222", "B", "", "b"),
    );
    let (commits, has_more) = parse_git_log_graph(&stdout, 2);
    assert!(!has_more);
    assert_eq!(commits.len(), 2);
}

#[test]
fn empty_log_parses_to_no_commits() {
    let (commits, has_more) = parse_git_log_graph("", 50);
    assert!(commits.is_empty());
    assert!(!has_more);
}

#[test]
fn subject_with_separators_and_spaces_survives() {
    let stdout = format!(
        "{}\n",
        log_line(
            "* ",
            "ddd4444",
            "Grace Hopper",
            "",
            "fix: handle a, b, and c"
        )
    );
    let (commits, _) = parse_git_log_graph(&stdout, 50);
    assert_eq!(commits[0].author, "Grace Hopper");
    assert_eq!(commits[0].subject, "fix: handle a, b, and c");
}

#[test]
fn caps_changes_at_the_maximum() {
    let mut stdout = String::new();
    for i in 0..(MAX_CHANGED_FILES + 50) {
        stdout.push_str(&format!(
            "1 .M N... 100644 100644 100644 hhh hhh file{i}.rs\n"
        ));
    }
    let changes = parse_git_status_porcelain_v2(&stdout);
    assert_eq!(changes.len(), MAX_CHANGED_FILES);
}

#[test]
fn changed_files_without_output_are_none() {
    assert!(changed_files_from_output(None).is_empty());
    assert!(commit_files_from_output(None).is_empty());
    let (commits, more) = commits_from_output(None, 50);
    assert!(commits.is_empty());
    assert!(!more);
}

#[test]
fn output_bytes_are_read_as_text() {
    let changes = changed_files_from_output(Some(b"? \xffx.rs\n".to_vec()));
    assert_eq!(changes[0].path, path("\u{fffd}x.rs"));
    let files = commit_files_from_output(Some("M\tsr\u{e4}.rs\n".as_bytes().to_vec()));
    assert_eq!(files[0].path, path("sr\u{e4}.rs"));
    let log = "* a\u{1f}Ada\u{1f}\u{1f}one\n* b\u{1f}Ada\u{1f}\u{1f}two\n";
    let (commits, more) = commits_from_output(Some(log.as_bytes().to_vec()), 0);
    assert_eq!(commits.len(), 1);
    assert!(more);
}

#[test]
fn git_arguments_ask_for_one_commit_more() {
    assert_eq!(
        changed_files_args(),
        vec!["--no-optional-locks", "status", "--porcelain=v2", "--untracked-files=all"]
    );
    assert_eq!(
        commit_files_args("abc"),
        vec!["--no-optional-locks", "show", "--no-color", "--name-status", "--format=", "-M", "abc"]
    );
    let args = commits_args(50);
    assert_eq!(args[4], "--pretty=format:%h\u{1f}%an\u{1f}%d\u{1f}%s");
    assert_eq!(args[5], "-n51");
    assert_eq!(commits_args(0)[5], "-n2");
    assert_eq!(commits_args(usize::MAX)[5], format!("-n{}", usize::MAX));
}

#[test]
fn worktree_state_is_preferred_over_the_staged_one() {
    assert_eq!(ordinary_status('A', 'D'), ChangeStatus::Deleted);
    assert_eq!(ordinary_status('A', '.'), ChangeStatus::Added);
    assert_eq!(ordinary_status('C', '.'), ChangeStatus::Added);
    assert_eq!(ordinary_status('.', 'U'), ChangeStatus::Unmerged);
    assert_eq!(ordinary_status('T', '.'), ChangeStatus::Modified);
}

#[test]
fn lines_that_lack_fields_are_skipped() {
    let stdout = "1\n1 .M N... 100644\n2 R. N... 1 2 3 4 5 R100 only-one-path\nu UU\n?\n1\u{e9}x\n\n";
    assert!(parse_git_status_porcelain_v2(stdout).is_empty());
    assert!(parse_commit_name_status("M\nR100\tone.rs\nC\tone.rs\n\tx\n").is_empty());
}

#[test]
fn carriage_returns_are_not_part_of_a_line() {
    let changes = parse_commit_name_status("M\ta.rs\r\nU\tb.rs\r\r");
    assert_eq!(changes[0].path, path("a.rs"));
    assert_eq!(changes[1].path, path("b.rs"));
    assert_eq!(changes[1].status, ChangeStatus::Unmerged);
    let changes = parse_git_status_porcelain_v2("? a.rs\r\n? b.rs\r");
    assert_eq!(changes[0].path, path("a.rs"));
    assert_eq!(changes[1].path, path("b.rs\r"));
}

#[test]
fn a_larger_window_goes_on_from_a_smaller_one() {
    let stdout = "* a\u{1f}A\u{1f}\u{1f}1\n|\n* b\u{1f}B\u{1f}\u{1f}2\n* c\u{1f}C\u{1f}\u{1f}3\n";
    let (small, small_more) = parse_git_log_graph(stdout, 1);
    let (large, large_more) = parse_git_log_graph(stdout, 2);
    let (all, all_more) = parse_git_log_graph(stdout, 3);
    assert_eq!(small.len(), 2);
    assert_eq!(large.len(), 3);
    assert_eq!(all.len(), 4);
    assert_eq!(&large[..2], &small[..]);
    assert_eq!(&all[..3], &large[..]);
    assert_eq!((small_more, large_more, all_more), (true, true, false));
}

#[test]
fn a_subject_may_hold_the_field_separator() {
    let (commits, _) = parse_git_log_graph("* ab \u{1f}Ada\u{1f} (tag: v1)\u{1f}x\u{1f}y", 5);
    assert_eq!(commits[0].sha.as_deref(), Some("ab"));
    assert_eq!(commits[0].subject, "x\u{1f}y");
    assert_eq!(commits[0].decorations, vec!["tag: v1".to_string()]);
    let (commits, _) = parse_git_log_graph("* ab\u{1f}", 5);
    assert_eq!(commits[0].author, "");
    assert_eq!(commits[0].subject, "");
}

#[test]
fn the_pager_script_does_not_depend_on_what_it_is_given() {
    let git_cmd = "git -C \"$1\" show \"$2\" -- \"$3\"";
    let targets = vec!["a b; c".to_string(), "$(d)'\"".to_string()];
    let first = pager_wrapped_argv(git_cmd, &path("/re po"), targets);
    assert_eq!(
        first,
        vec![
            "sh",
            "-c",
            "git -C \"$1\" show \"$2\" -- \"$3\" | LESS=-R less",
            "sh",
            "/re po",
            "a b; c",
            "$(d)'\""
        ]
    );
    let second = pager_wrapped_argv(git_cmd, &path("/other"), Vec::new());
    assert_eq!(second[..4], first[..4]);
    assert_eq!(second[4..], ["/other".to_string()]);
}

#[test]
fn outputs_in_a_row_report_what_each_reports() {
    let first = "M\ta.rs\n\nR100\tb.rs\tc.rs\n";
    let second = "D\td.rs\nA\te.rs";
    let mut each = parse_commit_name_status(first);
    each.append(&mut parse_commit_name_status(second));
    assert_eq!(each.len(), 4);
    assert_eq!(parse_commit_name_status(&format!("{first}{second}")), each);
}
