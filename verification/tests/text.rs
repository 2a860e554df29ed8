//! Text, numbers, and paths.
use herdr::path::FsPath;
use herdr::path_map::{PathMap, PathSet};
use herdr::text::{decimal, from_chars, hexadecimal, is_white_space, split_lines, to_chars, trim};
use std::path::Path;

#[test]
fn white_space_is_what_the_standard_library_calls_so() {
    for code in 0..=0x10ffffu32 {
        if let Some(c) = char::from_u32(code) {
            assert_eq!(is_white_space(c), c.is_whitespace(), "{code:x}");
        }
    }
}

#[test]
fn lines_and_trimming_agree_with_the_standard_library() {
    for text in ["", "\n", "a", "a\n", "a\r\nb", "\r\n\r", "a\n\nb\n", " \u{a0}x y\t\n", "\r\r\n"] {
        let chars = to_chars(text);
        let ours: Vec<String> = split_lines(&chars).into_iter().map(from_chars).collect();
        let theirs: Vec<String> = text.lines().map(str::to_string).collect();
        assert_eq!(ours, theirs, "{text:?}");
        assert_eq!(from_chars(trim(&chars)), text.trim());
    }
}

#[test]
fn numbers_are_written_without_leading_zeros() {
    for n in [0usize, 1, 9, 10, 11, 99, 100, 65535, usize::MAX] {
        assert_eq!(decimal(n), n.to_string());
        assert_eq!(hexadecimal(n as u128), format!("{n:x}"));
    }
    assert_eq!(hexadecimal(u128::MAX), format!("{:x}", u128::MAX));
}

const PATHS: [&str; 22] = [
    "", "/", "//", ".", "..", "a", "a/", "./a", "a/.", "a/./b", "a//b", "/a", "/a/", "/a/b",
    "/./a", "../a", "a/..", "/..", "././a", "a/b/c.rs", "/a/b/../c", ".a",
];

#[test]
fn paths_compare_as_the_standard_library_compares_them() {
    for a in PATHS {
        for b in PATHS {
            let ours = FsPath::from_text(a) == FsPath::from_text(b);
            assert_eq!(ours, Path::new(a) == Path::new(b), "{a:?} {b:?}");
        }
    }
}

#[test]
fn parents_names_and_joins_agree_with_the_standard_library() {
    for a in PATHS {
        let ours = FsPath::from_text(a);
        let theirs = Path::new(a);
        assert_eq!(
            ours.parent().map(|p| p.to_text()),
            theirs.parent().map(|p| p.to_string_lossy().into_owned()),
            "{a:?}"
        );
        assert_eq!(
            ours.file_name().map(|p| p.to_text()),
            theirs.file_name().map(|p| p.to_string_lossy().into_owned()),
            "{a:?}"
        );
        for b in PATHS {
            assert_eq!(
                ours.join(&FsPath::from_text(b)).to_text(),
                theirs.join(b).to_string_lossy(),
                "{a:?} {b:?}"
            );
        }
    }
}

#[test]
fn unreadable_path_bytes_show_as_replacement_characters() {
    let path = FsPath { bytes: vec![b'a', 0xff, b'b'] };
    assert_eq!(path.to_text(), "a\u{fffd}b");
}

#[test]
fn path_collections_go_by_what_a_path_names() {
    let mut map = PathMap::new();
    map.insert(FsPath::from_text("/a/b"), 1);
    map.insert(FsPath::from_text("/a//b/"), 2);
    assert_eq!(map.len(), 1);
    assert_eq!(map.get(&FsPath::from_text("/a/./b")), Some(&2));
    assert_eq!(map.get(&FsPath::from_text("a/b")), None);
    let mut set = PathSet::new();
    assert!(set.insert(FsPath::from_text("x")));
    assert!(!set.insert(FsPath::from_text("x/")));
    assert!(set.remove(&FsPath::from_text("./x")) == (Path::new("./x") == Path::new("x")));
}
