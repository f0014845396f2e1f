use std::io::Read;

use dir_archiver::fs_path::FsPath;
use dir_archiver::filter::IgnoreFilter;
use dir_archiver::resolver::resolve;
use dir_archiver::session::session_new;
use dir_archiver::stamp::{stamp_from_unix, to_last_modified_time, ZipTimestamp};
use dir_archiver::tree::{DirNode, FileNode, FsNode};
use dir_archiver::walker::{archive, compress_dir, compress_file, make_comment};
use dir_archiver::{ArchiveError, Profile};

fn path(parts: &[&str]) -> FsPath {
    FsPath::new(parts.iter().map(|s| String::from(*s)).collect())
}

fn strings(parts: &[&str]) -> Vec<String> {
    parts.iter().map(|s| String::from(*s)).collect()
}

fn file(name: &str, mtime: Option<u64>, content: Option<&[u8]>) -> FsNode {
    FsNode::File(FileNode {
        name: String::from(name),
        mtime,
        content: content.map(|c| c.to_vec()),
    })
}

fn dir(name: &str, mtime: Option<u64>, children: Option<Vec<FsNode>>) -> DirNode {
    DirNode { name: String::from(name), mtime, children }
}

fn entry_names(bytes: Vec<u8>) -> Vec<String> {
    let mut reader = zip::ZipArchive::new(std::io::Cursor::new(bytes)).expect("readable archive");
    let mut names = Vec::new();
    for i in 0..reader.len() {
        names.push(String::from(reader.by_index(i).expect("entry").name()));
    }
    names
}

#[test]
fn resolver_finds_deepest_shared_parent() {
    let dirs = vec![path(&["data", "a"]), path(&["data", "b"])];
    let root = resolve(&dirs).expect("shared parent");
    assert_eq!(root.components, strings(&["data"]));
}

#[test]
fn resolver_takes_first_directory_for_nested_inputs() {
    let dirs = vec![path(&["data", "a", "deep"]), path(&["data", "a"]), path(&["data", "a", "b"])];
    let root = resolve(&dirs).expect("shared parent");
    assert_eq!(root.components, strings(&["data", "a"]));
}

#[test]
fn resolver_single_directory_is_its_own_root() {
    let dirs = vec![path(&["data", "a"])];
    let root = resolve(&dirs).expect("shared parent");
    assert_eq!(root.components, strings(&["data", "a"]));
}

#[test]
fn resolver_rejects_disjoint_roots() {
    let dirs = vec![path(&["a", "x"]), path(&["b", "y"])];
    assert!(resolve(&dirs).is_none());
}

#[test]
fn resolver_rejects_empty_sequence() {
    let dirs: Vec<FsPath> = Vec::new();
    assert!(resolve(&dirs).is_none());
}

#[test]
fn filter_matches_base_name_against_any_pattern() {
    let filter = IgnoreFilter::new(&strings(&["*.tmp", "build?"]));
    assert!(filter.is_ignored(&path(&["data", "skip.tmp"])));
    assert!(filter.is_ignored(&path(&["builds"])));
    assert!(!filter.is_ignored(&path(&["data", "keep.txt"])));
    assert!(!filter.is_ignored(&path(&["data", "build12"])));
    let empty = path(&[]);
    assert!(!filter.is_ignored(&empty));
}

#[test]
fn filter_without_patterns_ignores_nothing() {
    let filter = IgnoreFilter::new(&Vec::new());
    assert!(!filter.is_ignored(&path(&["anything"])));
}

#[test]
fn stamp_clamps_times_before_the_archive_epoch() {
    let t = stamp_from_unix(0);
    assert_eq!(
        t,
        ZipTimestamp { year: 1980, month: 1, day: 1, hour: 0, minute: 0, second: 0 },
    );
}

#[test]
fn stamp_decomposes_elapsed_seconds() {
    // one average year and 3661 seconds past the epoch; hour, minute and
    // second come from the total elapsed seconds, not from the remainder
    // after the approximate year
    let t = stamp_from_unix(315576000 + 31556952 + 3661);
    assert_eq!(
        t,
        ZipTimestamp { year: 1981, month: 1, day: 1, hour: 6, minute: 50, second: 13 },
    );
}

#[test]
fn stamp_falls_back_to_zero_when_year_overflows() {
    let t = stamp_from_unix(u64::MAX);
    assert_eq!(
        t,
        ZipTimestamp { year: 1980, month: 1, day: 1, hour: 0, minute: 0, second: 0 },
    );
}

#[test]
fn stamp_uses_now_when_modification_time_is_unknown() {
    let known = to_last_modified_time(&Some(315576000 + 60), 999);
    assert_eq!(known.minute, 1);
    let fallback = to_last_modified_time(&None, 315576000 + 7200);
    assert_eq!(fallback.hour, 2);
}

#[test]
fn error_messages_name_the_failure() {
    assert_eq!(ArchiveError::FailedToStripPrefix.message(), "failed to strip prefix");
    assert_eq!(
        ArchiveError::FailedToMarkEntry(String::from("boom")).message(),
        "failed to mark entry in archive [boom]",
    );
}

#[test]
fn comment_embeds_profile_name() {
    assert_eq!(make_comment(&String::from("Test")), "Directory Archiver [Test]");
}

fn test_profile() -> Profile {
    Profile {
        name: String::from("Test"),
        directories: vec![path(&["data", "a"]), path(&["data", "b"])],
        ignores: strings(&["*.tmp"]),
    }
}

#[test]
fn archive_concrete_scenario() {
    let profile = test_profile();
    let forest = vec![
        dir(
            "a",
            Some(315576001),
            Some(vec![
                file("keep.txt", Some(315576002), Some(b"hello")),
                file("skip.tmp", Some(315576003), Some(b"secret")),
            ]),
        ),
        dir("b", Some(315576004), Some(Vec::new())),
    ];
    let out = archive(&profile, &forest, 315576000);
    assert!(!out.write_failure);
    assert!(out.reports.is_empty());
    let bytes = out.result.expect("archive bytes");
    let names = entry_names(bytes);
    assert_eq!(names, vec!["a/", "a/keep.txt", "b/"]);
}

#[test]
fn archive_round_trip_preserves_contents() {
    // a configured pattern that matches nothing must change nothing
    let profile = Profile {
        name: String::from("Round"),
        directories: vec![path(&["base", "top"]), path(&["base", "other"])],
        ignores: strings(&["*.tmp"]),
    };
    let forest = vec![
        dir(
            "top",
            Some(315576000),
            Some(vec![
                file("one.bin", Some(315576000), Some(&[1u8, 2, 3, 250])),
                FsNode::Dir(dir(
                    "sub",
                    Some(315576000),
                    Some(vec![file("two.txt", Some(315576000), Some(b"second file"))]),
                )),
            ]),
        ),
        dir("other", Some(315576000), Some(Vec::new())),
    ];
    let out = archive(&profile, &forest, 315576000);
    let bytes = out.result.expect("archive bytes");
    let mut reader = zip::ZipArchive::new(std::io::Cursor::new(bytes)).expect("readable");
    // one directory per walked directory plus the top-level one, one entry per file
    let mut file_names = Vec::new();
    let mut dir_names = Vec::new();
    for i in 0..reader.len() {
        let entry = reader.by_index(i).expect("entry");
        if entry.is_dir() {
            dir_names.push(String::from(entry.name()));
        } else {
            file_names.push(String::from(entry.name()));
        }
    }
    assert_eq!(dir_names, vec!["top/", "top/sub/", "other/"]);
    assert_eq!(file_names, vec!["top/one.bin", "top/sub/two.txt"]);
    let mut one = Vec::new();
    reader.by_name("top/one.bin").expect("entry").read_to_end(&mut one).expect("read");
    assert_eq!(one, vec![1u8, 2, 3, 250]);
    let mut two = Vec::new();
    reader.by_name("top/sub/two.txt").expect("entry").read_to_end(&mut two).expect("read");
    assert_eq!(two, b"second file");
    assert_eq!(reader.comment(), b"Directory Archiver [Round]");
}

#[test]
fn archive_runs_are_idempotent_up_to_timestamps() {
    let profile = test_profile();
    let forest = || {
        vec![
            dir(
                "a",
                Some(315576001),
                Some(vec![file("keep.txt", None, Some(b"hello"))]),
            ),
            dir("b", None, Some(Vec::new())),
        ]
    };
    let first = entry_names(archive(&profile, &forest(), 315576000).result.expect("bytes"));
    let second = entry_names(archive(&profile, &forest(), 999999999).result.expect("bytes"));
    assert_eq!(first, second);
}

#[test]
fn archive_ignored_directory_prunes_whole_subtree() {
    let profile = Profile {
        name: String::from("Prune"),
        directories: vec![path(&["root", "keep"]), path(&["root", "spare"])],
        ignores: strings(&["cache"]),
    };
    let forest = vec![
        dir(
            "keep",
            Some(315576000),
            Some(vec![
                FsNode::Dir(dir(
                    "cache",
                    Some(315576000),
                    Some(vec![file("inner.txt", Some(315576000), Some(b"gone"))]),
                )),
                file("kept.txt", Some(315576000), Some(b"stays")),
            ]),
        ),
        dir("spare", Some(315576000), Some(Vec::new())),
    ];
    let out = archive(&profile, &forest, 315576000);
    let names = entry_names(out.result.expect("bytes"));
    assert_eq!(names, vec!["keep/", "keep/kept.txt", "spare/"]);
    assert!(names.iter().all(|n| !n.starts_with("keep/cache")));
}

#[test]
fn archive_partial_failure_keeps_siblings_and_succeeds() {
    let profile = Profile {
        name: String::from("Partial"),
        directories: vec![path(&["data", "a"]), path(&["data", "b"])],
        ignores: Vec::new(),
    };
    let forest = vec![
        dir(
            "a",
            Some(315576000),
            Some(vec![
                file("before.txt", Some(315576000), Some(b"kept")),
                file("broken.txt", Some(315576000), None),
                file("after.txt", Some(315576000), Some(b"kept too")),
            ]),
        ),
        dir("b", Some(315576000), Some(Vec::new())),
    ];
    let out = archive(&profile, &forest, 315576000);
    assert!(!out.write_failure);
    assert_eq!(out.reports.len(), 1);
    assert_eq!(out.reports[0], "failed to compress sub-file <broken.txt>: failed to read file");
    let names = entry_names(out.result.expect("run still succeeds"));
    assert_eq!(names, vec!["a/", "a/before.txt", "a/after.txt", "b/"]);
}

#[test]
fn archive_fails_without_shared_parent() {
    let profile = Profile {
        name: String::from("Disjoint"),
        directories: vec![path(&["a", "x"]), path(&["b", "y"])],
        ignores: Vec::new(),
    };
    let forest = vec![dir("x", None, Some(Vec::new())), dir("y", None, Some(Vec::new()))];
    let out = archive(&profile, &forest, 0);
    assert!(matches!(out.result, Err(ArchiveError::FailedToDetermineParentPath)));
}

#[test]
fn archive_unlistable_top_directory_is_reported_not_fatal() {
    let profile = Profile {
        name: String::from("Unlistable"),
        directories: vec![path(&["data", "a"]), path(&["data", "b"])],
        ignores: Vec::new(),
    };
    let forest = vec![
        dir("a", None, None),
        dir("b", None, Some(vec![file("ok.txt", Some(315576000), Some(b"fine"))])),
    ];
    let out = archive(&profile, &forest, 315576000);
    assert_eq!(out.reports.len(), 1);
    let names = entry_names(out.result.expect("run still succeeds"));
    assert_eq!(names, vec!["b/", "b/ok.txt"]);
}

#[test]
fn compress_dir_unlistable_directory_is_an_error() {
    let mut session = session_new();
    let filter = IgnoreFilter::new(&Vec::new());
    let parent = path(&["data"]);
    let target = path(&["data", "a"]);
    let node = dir("a", None, None);
    let mut write_failed = false;
    let mut reports = Vec::new();
    let r = compress_dir(
        &mut session,
        &filter,
        &parent,
        &target,
        &node,
        0,
        &mut write_failed,
        &mut reports,
    );
    assert!(matches!(r, Err(ArchiveError::FailedToReadDirectory)));
    assert!(!write_failed);
}

#[test]
fn compress_file_outside_parent_cannot_strip_prefix() {
    let mut session = session_new();
    let filter = IgnoreFilter::new(&Vec::new());
    let parent = path(&["data"]);
    let target = path(&["elsewhere", "f.txt"]);
    let node = FileNode {
        name: String::from("f.txt"),
        mtime: None,
        content: Some(b"x".to_vec()),
    };
    let mut write_failed = false;
    let r = compress_file(&mut session, &filter, &parent, &target, &node, 0, &mut write_failed);
    assert!(matches!(r, Err(ArchiveError::FailedToStripPrefix)));
    assert!(!write_failed);
}

#[test]
fn compress_file_unreadable_file_is_an_error() {
    let mut session = session_new();
    let filter = IgnoreFilter::new(&Vec::new());
    let parent = path(&["data"]);
    let target = path(&["data", "f.txt"]);
    let node = FileNode { name: String::from("f.txt"), mtime: None, content: None };
    let mut write_failed = false;
    let r = compress_file(&mut session, &filter, &parent, &target, &node, 0, &mut write_failed);
    assert!(matches!(r, Err(ArchiveError::FailedToReadFile)));
}

#[test]
fn path_operations_strip_and_join() {
    let base = path(&["data", "a"]);
    let child = base.join(&String::from("x.txt"));
    assert_eq!(child.components, strings(&["data", "a", "x.txt"]));
    let rel = child.strip_prefix(&path(&["data"])).expect("under parent");
    assert_eq!(rel.components, strings(&["a", "x.txt"]));
    assert!(child.starts_with(&base));
    assert!(!base.starts_with(&child));
    assert!(child.strip_prefix(&path(&["other"])).is_none());
}

#[test]
fn archive_writer_rejects_duplicate_entry_names() {
    let profile = Profile {
        name: String::from("Dup"),
        directories: vec![path(&["data", "a"]), path(&["data", "b"])],
        ignores: Vec::new(),
    };
    let forest = vec![
        dir(
            "a",
            Some(315576000),
            Some(vec![
                file("same.txt", Some(315576000), Some(b"first")),
                file("same.txt", Some(315576000), Some(b"second")),
            ]),
        ),
        dir("b", Some(315576000), Some(Vec::new())),
    ];
    let out = archive(&profile, &forest, 315576000);
    assert!(out.write_failure);
    assert_eq!(out.reports.len(), 1);
    let names = entry_names(out.result.expect("run still succeeds"));
    assert_eq!(names, vec!["a/", "a/same.txt", "b/"]);
}

#[test]
fn archive_oversized_comment_fails_to_finish() {
    let profile = Profile {
        name: "n".repeat(70000),
        directories: vec![path(&["data", "a"])],
        ignores: Vec::new(),
    };
    let forest = vec![dir("a", Some(315576000), Some(Vec::new()))];
    let out = archive(&profile, &forest, 315576000);
    assert!(matches!(out.result, Err(ArchiveError::FailedToFinishArchive(_))));
}
