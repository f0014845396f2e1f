use vstd::prelude::*;
use vstd::string::StringExecFns;

use crate::filter::{spec_path_ignored, IgnoreFilter};
use crate::fs_path::{is_prefix_of, join_rel, to_entry_name, FsPath};
use crate::resolver::{resolve, spec_common_root};
use crate::session::{
    session_add_directory, session_clean, session_entries, session_finish, session_new,
    session_write_file, zip_encoding, ArchiveSession, SessionWriteError,
};
use crate::stamp::{
    lemma_last_modified_valid, spec_dos_stamp, spec_last_modified, to_last_modified_time,
};
use crate::tree::{
    lemma_children_entries_take, spec_children_entries, spec_dir_entries, spec_dir_entry_name,
    spec_file_entries, spec_node_entries, ArchiveEntry, DirNode, FileNode, FsNode,
};
use crate::{ArchiveError, Profile};

verus! {

/// The entries a whole run adds for its configured directories, each
/// walked with its snapshot, in order.
pub open spec fn spec_forest_entries(
    pats: Seq<Seq<char>>,
    parent: Seq<Seq<char>>,
    dirs: Seq<Seq<Seq<char>>>,
    forest: Seq<DirNode>,
    now: u64,
) -> Seq<ArchiveEntry>
    decreases forest.len(),
{
    if forest.len() == 0 || dirs.len() == 0 {
        Seq::empty()
    } else {
        spec_dir_entries(pats, parent, dirs[0], forest[0], now) + spec_forest_entries(
            pats,
            parent,
            dirs.drop_first(),
            forest.drop_first(),
            now,
        )
    }
}

/// What a prefix of the configured directories contributes grows by the
/// entries of the next one.
pub proof fn lemma_forest_entries_take(
    pats: Seq<Seq<char>>,
    parent: Seq<Seq<char>>,
    dirs: Seq<Seq<Seq<char>>>,
    forest: Seq<DirNode>,
    now: u64,
    i: int,
)
    requires
        0 <= i < forest.len(),
        dirs.len() == forest.len(),
    ensures
        spec_forest_entries(pats, parent, dirs.take(i + 1), forest.take(i + 1), now)
            == spec_forest_entries(pats, parent, dirs.take(i), forest.take(i), now)
            + spec_dir_entries(pats, parent, dirs[i], forest[i], now),
    decreases i,
{
    let a = forest.take(i + 1);
    let b = forest.take(i);
    let da = dirs.take(i + 1);
    let db = dirs.take(i);
    if i == 0 {
        assert(a.len() == 1 && da.len() == 1 && b.len() == 0);
        assert(a[0] == forest[0] && da[0] == dirs[0]);
        assert(a.drop_first() =~= Seq::<DirNode>::empty());
        assert(spec_forest_entries(pats, parent, db, b, now) == Seq::<ArchiveEntry>::empty());
        assert(spec_forest_entries(
            pats,
            parent,
            da.drop_first(),
            a.drop_first(),
            now,
        ) == Seq::<ArchiveEntry>::empty());
        assert(spec_forest_entries(pats, parent, da, a, now) =~= spec_forest_entries(
            pats,
            parent,
            db,
            b,
            now,
        ) + spec_dir_entries(pats, parent, dirs[i], forest[i], now));
    } else {
        lemma_forest_entries_take(pats, parent, dirs.drop_first(), forest.drop_first(), now, i - 1);
        assert(a.drop_first() =~= forest.drop_first().take(i));
        assert(b.drop_first() =~= forest.drop_first().take(i - 1));
        assert(da.drop_first() =~= dirs.drop_first().take(i));
        assert(db.drop_first() =~= dirs.drop_first().take(i - 1));
        assert(a[0] == forest[0] && b[0] == forest[0] && da[0] == dirs[0] && db[0] == dirs[0]);
        assert(forest.drop_first()[i - 1] == forest[i] && dirs.drop_first()[i - 1] == dirs[i]);
        assert(spec_forest_entries(pats, parent, da, a, now) =~= spec_forest_entries(
            pats,
            parent,
            db,
            b,
            now,
        ) + spec_dir_entries(pats, parent, dirs[i], forest[i], now));
    }
}

/// Attempts to compress the specified sub-file to the session: nothing is
/// written when the file is ignored; an unreadable file or one outside the
/// shared parent is an error with nothing written; otherwise one file
/// entry with the file's bytes. A failure of the archive writer itself
/// sets `write_failed`.
pub fn compress_file(
    s: &mut ArchiveSession,
    filter: &IgnoreFilter,
    parent: &FsPath,
    file: &FsPath,
    node: &FileNode,
    now: u64,
    write_failed: &mut bool,
) -> (r: Result<(), ArchiveError>)
    ensures
        *old(write_failed) ==> *final(write_failed),
        !*final(write_failed) ==> session_entries(*final(s)) == session_entries(*old(s))
            + spec_file_entries(filter@, parent@, file@, *node, now),
        spec_path_ignored(filter@, file@) ==> r is Ok && *final(write_failed) == *old(write_failed),
        !spec_path_ignored(filter@, file@) && node.content is None ==> (r matches Err(e) && e
            is FailedToReadFile) && *final(write_failed) == *old(write_failed),
        !spec_path_ignored(filter@, file@) && node.content is Some && !is_prefix_of(
            parent@,
            file@,
        ) ==> (r matches Err(e) && e is FailedToStripPrefix) && *final(write_failed) == *old(write_failed),
        r is Err ==> (r->Err_0 is FailedToReadFile || r->Err_0 is FailedToStripPrefix || r->Err_0
            is FailedToMarkEntry || r->Err_0 is FailedToCopyFile),
        r matches Err(e) && (e is FailedToMarkEntry || e is FailedToCopyFile) ==> *final(write_failed),
        r is Ok ==> *final(write_failed) == *old(write_failed),
        !spec_path_ignored(filter@, file@) && node.content is Some && is_prefix_of(parent@, file@)
            ==> (r is Ok || (r matches Err(e) && (e is FailedToMarkEntry || e is FailedToCopyFile))),
        !*final(write_failed) ==> (session_clean(*old(s)) ==> session_clean(*final(s))),
{
    if filter.is_ignored(file) {
        assert(session_entries(*s) =~= session_entries(*old(s)) + spec_file_entries(
            filter@,
            parent@,
            file@,
            *node,
            now,
        ));
        return Ok(());
    }
    match &node.content {
        Option::None => {
            assert(session_entries(*s) =~= session_entries(*old(s)) + spec_file_entries(
                filter@,
                parent@,
                file@,
                *node,
                now,
            ));
            Err(ArchiveError::FailedToReadFile)
        },
        Option::Some(content) => {
            match file.strip_prefix(parent) {
                Option::None => {
                    assert(session_entries(*s) =~= session_entries(*old(s)) + spec_file_entries(
                        filter@,
                        parent@,
                        file@,
                        *node,
                        now,
                    ));
                    Err(ArchiveError::FailedToStripPrefix)
                },
                Option::Some(rel) => {
                    let name = to_entry_name(&rel);
                    let stamp = to_last_modified_time(&node.mtime, now);
                    proof {
                        lemma_last_modified_valid(node.mtime, now);
                    }
                    match session_write_file(s, &name, &stamp, content) {
                        Result::Ok(()) => {
                            assert(session_entries(*s) =~= session_entries(*old(s))
                                + spec_file_entries(filter@, parent@, file@, *node, now));
                            Ok(())
                        },
                        Result::Err(SessionWriteError::Mark(m)) => {
                            *write_failed = true;
                            Err(ArchiveError::FailedToMarkEntry(m))
                        },
                        Result::Err(SessionWriteError::Copy(m)) => {
                            *write_failed = true;
                            Err(ArchiveError::FailedToCopyFile(m))
                        },
                    }
                },
            }
        },
    }
}

/// Appends a diagnostic line for a per-entry failure: the fixed context,
/// the entry's base name, and the error's description.
fn report_failure(reports: &mut Vec<String>, context: &str, name: &String, error: &ArchiveError) {
    let mut line = String::from_str(context);
    line.append(" <");
    line.append(name.as_str());
    line.append(">: ");
    let detail = error.message();
    line.append(detail.as_str());
    reports.push(line);
}

/// Attempts to recursively compress the specified sub-directory to the
/// session: nothing is written when the directory is ignored (the whole
/// sub-tree is pruned); an unlistable directory or one outside the shared
/// parent is an error with nothing written; otherwise the directory's own
/// marker entry first, then its children depth-first, a failing child
/// reported and skipped without aborting its siblings.
pub fn compress_dir(
    s: &mut ArchiveSession,
    filter: &IgnoreFilter,
    parent: &FsPath,
    dir: &FsPath,
    node: &DirNode,
    now: u64,
    write_failed: &mut bool,
    reports: &mut Vec<String>,
) -> (r: Result<(), ArchiveError>)
    ensures
        *old(write_failed) ==> *final(write_failed),
        !*final(write_failed) ==> session_entries(*final(s)) == session_entries(*old(s))
            + spec_dir_entries(filter@, parent@, dir@, *node, now),
        spec_path_ignored(filter@, dir@) ==> r is Ok && *final(write_failed) == *old(write_failed),
        !spec_path_ignored(filter@, dir@) && node.children is None ==> (r matches Err(e) && e
            is FailedToReadDirectory) && *final(write_failed) == *old(write_failed),
        !spec_path_ignored(filter@, dir@) && node.children is Some && !is_prefix_of(parent@, dir@)
            ==> (r matches Err(e) && e is FailedToStripPrefix) && *final(write_failed) == *old(write_failed),
        r is Err ==> (r->Err_0 is FailedToReadDirectory || r->Err_0 is FailedToStripPrefix
            || r->Err_0 is FailedToMarkEntry),
        !spec_path_ignored(filter@, dir@) && node.children is Some && is_prefix_of(parent@, dir@)
            ==> (r is Ok || (r matches Err(e) && e is FailedToMarkEntry)),
        !*final(write_failed) ==> (session_clean(*old(s)) ==> session_clean(*final(s))),
    decreases *node,
{
    if filter.is_ignored(dir) {
        assert(session_entries(*s) =~= session_entries(*old(s)) + spec_dir_entries(
            filter@,
            parent@,
            dir@,
            *node,
            now,
        ));
        return Ok(());
    }
    match &node.children {
        Option::None => {
            assert(session_entries(*s) =~= session_entries(*old(s)) + spec_dir_entries(
                filter@,
                parent@,
                dir@,
                *node,
                now,
            ));
            Err(ArchiveError::FailedToReadDirectory)
        },
        Option::Some(kids) => {
            match dir.strip_prefix(parent) {
                Option::None => {
                    assert(session_entries(*s) =~= session_entries(*old(s)) + spec_dir_entries(
                        filter@,
                        parent@,
                        dir@,
                        *node,
                        now,
                    ));
                    Err(ArchiveError::FailedToStripPrefix)
                },
                Option::Some(rel) => {
                    let name = to_entry_name(&rel);
                    let stamp = to_last_modified_time(&node.mtime, now);
                    proof {
                        lemma_last_modified_valid(node.mtime, now);
                    }
                    match session_add_directory(s, &name, &stamp) {
                        Result::Err(m) => {
                            *write_failed = true;
                            return Err(ArchiveError::FailedToMarkEntry(m));
                        },
                        Result::Ok(()) => {},
                    }
                    let ghost dirent = ArchiveEntry {
                        name: spec_dir_entry_name(join_rel(dir@.skip(parent@.len() as int))),
                        is_dir: true,
                        stamp: spec_dos_stamp(spec_last_modified(node.mtime, now)),
                        content: Seq::empty(),
                    };
                    let ghost base = session_entries(*s);
                    proof {
                        assert(base == session_entries(*old(s)).push(dirent));
                        assert(spec_dir_entries(filter@, parent@, dir@, *node, now)
                            == seq![dirent] + spec_children_entries(
                            filter@,
                            parent@,
                            dir@,
                            kids@,
                            now,
                        ));
                    }
                    let mut i: usize = 0;
                    while i < kids.len()
                        invariant
                            i <= kids.len(),
                            node.children is Some && node.children->0@ == kids@,
                            *old(write_failed) ==> *write_failed,
                            !*write_failed ==> (session_clean(*old(s)) ==> session_clean(*s)),
                            !*write_failed ==> session_entries(*s) == base
                                + spec_children_entries(
                                filter@,
                                parent@,
                                dir@,
                                kids@.take(i as int),
                                now,
                            ),
                            base == session_entries(*old(s)).push(dirent),
                            spec_dir_entries(filter@, parent@, dir@, *node, now) == seq![dirent]
                                + spec_children_entries(filter@, parent@, dir@, kids@, now),
                        decreases kids.len() - i,
                    {
                        proof {
                            lemma_children_entries_take(filter@, parent@, dir@, kids@, now, i as int);
                            assert(decreases_to!(*node => node.children));
                            assert(decreases_to!(node.children => node.children->0));
                            assert(decreases_to!(node.children->0 => node.children->0@));
                            assert(decreases_to!(node.children->0@ => node.children->0@[i as int]));
                            assert(node.children->0@[i as int] == kids@[i as int]);
                        }
                        match &kids[i] {
                            FsNode::Dir(d) => {
                                proof {
                                    let k = kids@[i as int];
                                    assert(decreases_to!(k => k->Dir_0));
                                    assert(k->Dir_0 == *d);
                                }
                                let child = dir.join(&d.name);
                                if let Err(e) = compress_dir(
                                    s,
                                    filter,
                                    parent,
                                    &child,
                                    d,
                                    now,
                                    write_failed,
                                    reports,
                                ) {
                                    report_failure(
                                        reports,
                                        "failed to compress sub-directory",
                                        &d.name,
                                        &e,
                                    );
                                }
                            },
                            FsNode::File(f) => {
                                let child = dir.join(&f.name);
                                if let Err(e) = compress_file(
                                    s,
                                    filter,
                                    parent,
                                    &child,
                                    f,
                                    now,
                                    write_failed,
                                ) {
                                    report_failure(
                                        reports,
                                        "failed to compress sub-file",
                                        &f.name,
                                        &e,
                                    );
                                }
                            },
                            FsNode::Other(_) => {},
                        }
                        i = i + 1;
                    }
                    proof {
                        assert(kids@.take(kids@.len() as int) =~= kids@);
                        if !*write_failed {
                            assert(session_entries(*s) =~= session_entries(*old(s))
                                + spec_dir_entries(filter@, parent@, dir@, *node, now));
                        }
                    }
                    Ok(())
                },
            }
        },
    }
}

/// The trailing free-text comment of an archive: the fixed prefix with
/// the profile's display name embedded.
pub open spec fn spec_comment(name: Seq<char>) -> Seq<char> {
    "Directory Archiver ["@ + name + "]"@
}

/// Builds the trailing comment for a profile name.
pub fn make_comment(name: &String) -> (r: String)
    ensures
        r@ == spec_comment(name@),
{
    let mut r = String::from_str("Directory Archiver [");
    r.append(name.as_str());
    r.append("]");
    r
}

/// What one run produced: the archive bytes, or the fatal error that
/// aborted the run; the diagnostic lines for per-entry failures; and
/// whether the archive writer itself ever failed (in which case entries
/// may be missing or cut short).
pub struct ArchiveOutcome {
    pub result: Result<Vec<u8>, ArchiveError>,
    pub reports: Vec<String>,
    pub write_failure: bool,
}

/// Archives the entries described by the specified profile: resolves the
/// shared parent path of its directories, walks the given snapshots (one
/// per configured directory, in order), pruning ignored entries and naming
/// every entry relative to the shared parent, and finishes the archive
/// with the profile's comment. Entries without a modification time are
/// stamped from `now`. Per-entry failures are reported and skipped; only a
/// missing common root or a failing finalization aborts the run.
pub fn archive(profile: &Profile, forest: &Vec<DirNode>, now: u64) -> (out: ArchiveOutcome)
    requires
        forest@.len() == profile.directories@.len(),
    ensures
        spec_common_root(profile.directories.deep_view()) is None <==> (out.result matches Err(e)
            && e is FailedToDetermineParentPath),
        out.result is Err ==> (out.result->Err_0 is FailedToDetermineParentPath
            || out.result->Err_0 is FailedToFinishArchive),
        out.result is Ok && !out.write_failure ==> out.result->Ok_0@ == zip_encoding(
            spec_forest_entries(
                profile.ignores.deep_view(),
                spec_common_root(profile.directories.deep_view())->0,
                profile.directories.deep_view(),
                forest@,
                now,
            ),
            spec_comment(profile.name@),
        ),
{
    let ghost dv = profile.directories.deep_view();
    let filter = IgnoreFilter::new(&profile.ignores);
    let mut reports: Vec<String> = Vec::new();
    let parent = match resolve(&profile.directories) {
        Option::None => {
            return ArchiveOutcome {
                result: Err(ArchiveError::FailedToDetermineParentPath),
                reports,
                write_failure: false,
            };
        },
        Option::Some(p) => p,
    };
    let mut session = session_new();
    let mut write_failed = false;
    let mut i: usize = 0;
    while i < forest.len()
        invariant
            i <= forest@.len(),
            forest@.len() == profile.directories@.len(),
            dv == profile.directories.deep_view(),
            dv.len() == forest@.len(),
            filter@ == profile.ignores.deep_view(),
            Some(parent@) == spec_common_root(dv),
            !write_failed ==> session_clean(session),
            !write_failed ==> session_entries(session) == spec_forest_entries(
                filter@,
                parent@,
                dv.take(i as int),
                forest@.take(i as int),
                now,
            ),
        decreases forest@.len() - i,
    {
        proof {
            lemma_forest_entries_take(filter@, parent@, dv, forest@, now, i as int);
            assert(dv[i as int] == profile.directories@[i as int]@);
        }
        let dir: &FsPath = &profile.directories[i];
        let node: &DirNode = &forest[i];
        if let Err(e) = compress_dir(
            &mut session,
            &filter,
            &parent,
            dir,
            node,
            now,
            &mut write_failed,
            &mut reports,
        ) {
            let mut line = String::from_str("failed to archive directory: ");
            let detail = e.message();
            line.append(detail.as_str());
            reports.push(line);
        }
        i = i + 1;
    }
    proof {
        assert(dv.take(dv.len() as int) =~= dv);
        assert(forest@.take(forest@.len() as int) =~= forest@);
    }
    let comment = make_comment(&profile.name);
    match session_finish(session, &comment) {
        Result::Ok(bytes) => ArchiveOutcome {
            result: Ok(bytes),
            reports,
            write_failure: write_failed,
        },
        Result::Err(m) => ArchiveOutcome {
            result: Err(ArchiveError::FailedToFinishArchive(m)),
            reports,
            write_failure: write_failed,
        },
    }
}

} // verus!
