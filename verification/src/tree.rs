use vstd::prelude::*;

use crate::filter::spec_path_ignored;
use crate::fs_path::{is_prefix_of, join_rel};
use crate::stamp::{spec_dos_stamp, spec_last_modified, ZipTimestamp};

verus! {

/// A snapshot of one directory: its base name, its modification time in
/// seconds after the Unix epoch when it could be read, and its immediate
/// entries; `children` is `None` when the directory could not be listed.
pub struct DirNode {
    pub name: String,
    pub mtime: Option<u64>,
    pub children: Option<Vec<FsNode>>,
}

/// A snapshot of one file: its base name, its modification time when it
/// could be read, and its contents; `content` is `None` when the file
/// could not be opened or read.
pub struct FileNode {
    pub name: String,
    pub mtime: Option<u64>,
    pub content: Option<Vec<u8>>,
}

/// A snapshot of one filesystem entry. `Other` stands for an entry that is
/// neither a directory nor a regular file (a symlink, a special file); the
/// walk skips it silently.
pub enum FsNode {
    Dir(DirNode),
    File(FileNode),
    Other(String),
}

/// One named, timestamped unit inside the output archive: a directory
/// marker or a file with its contents.
pub struct ArchiveEntry {
    pub name: Seq<char>,
    pub is_dir: bool,
    pub stamp: ZipTimestamp,
    pub content: Seq<u8>,
}

/// The name of a directory entry: the relative path joined with `/`, with
/// a trailing slash appended by the archive writer unless one is there.
pub open spec fn spec_dir_entry_name(name: Seq<char>) -> Seq<char> {
    if name.len() > 0 && (name.last() == '/' || name.last() == '\\') {
        name
    } else {
        name + seq!['/']
    }
}

/// The entries the walk of directory `dir` (a snapshot `node`) adds to the
/// archive, named relative to `parent`: nothing when the directory is
/// ignored, could not be listed, or does not lie under `parent`; otherwise
/// its own directory marker followed by the entries of its children in
/// order, depth first.
pub open spec fn spec_dir_entries(
    pats: Seq<Seq<char>>,
    parent: Seq<Seq<char>>,
    dir: Seq<Seq<char>>,
    node: DirNode,
    now: u64,
) -> Seq<ArchiveEntry>
    decreases node,
    via spec_dir_entries_decreases
{
    if spec_path_ignored(pats, dir) {
        Seq::empty()
    } else if node.children is None {
        Seq::empty()
    } else if !is_prefix_of(parent, dir) {
        Seq::empty()
    } else {
        seq![
            ArchiveEntry {
                name: spec_dir_entry_name(join_rel(dir.skip(parent.len() as int))),
                is_dir: true,
                stamp: spec_dos_stamp(spec_last_modified(node.mtime, now)),
                content: Seq::empty(),
            },
        ] + spec_children_entries(pats, parent, dir, node.children->0@, now)
    }
}

#[via_fn]
proof fn spec_dir_entries_decreases(
    pats: Seq<Seq<char>>,
    parent: Seq<Seq<char>>,
    dir: Seq<Seq<char>>,
    node: DirNode,
    now: u64,
) {
    if node.children is Some {
        assert(decreases_to!(node => node.children));
        assert(decreases_to!(node.children => node.children->0));
        assert(decreases_to!(node.children->0 => node.children->0@));
    }
}

/// The entries contributed by a run of sibling snapshot nodes, in order.
pub open spec fn spec_children_entries(
    pats: Seq<Seq<char>>,
    parent: Seq<Seq<char>>,
    dir: Seq<Seq<char>>,
    kids: Seq<FsNode>,
    now: u64,
) -> Seq<ArchiveEntry>
    decreases kids,
{
    if kids.len() == 0 {
        Seq::empty()
    } else {
        spec_node_entries(pats, parent, dir, kids[0], now) + spec_children_entries(
            pats,
            parent,
            dir,
            kids.drop_first(),
            now,
        )
    }
}

/// The entries contributed by one snapshot node found inside `dir`.
pub open spec fn spec_node_entries(
    pats: Seq<Seq<char>>,
    parent: Seq<Seq<char>>,
    dir: Seq<Seq<char>>,
    node: FsNode,
    now: u64,
) -> Seq<ArchiveEntry>
    decreases node,
{
    match node {
        FsNode::Dir(d) => spec_dir_entries(pats, parent, dir.push(d.name@), d, now),
        FsNode::File(f) => spec_file_entries(pats, parent, dir.push(f.name@), f, now),
        FsNode::Other(_) => Seq::empty(),
    }
}

/// The entries contributed by one file snapshot at path `file`: nothing
/// when the file is ignored, could not be read, or does not lie under
/// `parent`; otherwise one compressed file entry with its contents.
pub open spec fn spec_file_entries(
    pats: Seq<Seq<char>>,
    parent: Seq<Seq<char>>,
    file: Seq<Seq<char>>,
    node: FileNode,
    now: u64,
) -> Seq<ArchiveEntry> {
    if spec_path_ignored(pats, file) {
        Seq::empty()
    } else if node.content is None {
        Seq::empty()
    } else if !is_prefix_of(parent, file) {
        Seq::empty()
    } else {
        seq![
            ArchiveEntry {
                name: join_rel(file.skip(parent.len() as int)),
                is_dir: false,
                stamp: spec_dos_stamp(spec_last_modified(node.mtime, now)),
                content: node.content->0@,
            },
        ]
    }
}

/// The sum of what a prefix of siblings contributes grows by the entries
/// of the next sibling.
pub proof fn lemma_children_entries_take(
    pats: Seq<Seq<char>>,
    parent: Seq<Seq<char>>,
    dir: Seq<Seq<char>>,
    kids: Seq<FsNode>,
    now: u64,
    i: int,
)
    requires
        0 <= i < kids.len(),
    ensures
        spec_children_entries(pats, parent, dir, kids.take(i + 1), now) == spec_children_entries(
            pats,
            parent,
            dir,
            kids.take(i),
            now,
        ) + spec_node_entries(pats, parent, dir, kids[i], now),
    decreases i,
{
    let a = kids.take(i + 1);
    let b = kids.take(i);
    if i == 0 {
        assert(a =~= seq![kids[0]]);
        assert(a.drop_first() =~= Seq::<FsNode>::empty());
        assert(b =~= Seq::<FsNode>::empty());
        assert(spec_children_entries(pats, parent, dir, a, now) =~= spec_children_entries(
            pats,
            parent,
            dir,
            b,
            now,
        ) + spec_node_entries(pats, parent, dir, kids[i], now));
    } else {
        lemma_children_entries_take(pats, parent, dir, kids.drop_first(), now, i - 1);
        assert(a.drop_first() =~= kids.drop_first().take(i));
        assert(b.drop_first() =~= kids.drop_first().take(i - 1));
        assert(a[0] == kids[0] && b[0] == kids[0]);
        assert(kids.drop_first()[i - 1] == kids[i]);
        assert(spec_children_entries(pats, parent, dir, a, now) =~= spec_children_entries(
            pats,
            parent,
            dir,
            b,
            now,
        ) + spec_node_entries(pats, parent, dir, kids[i], now));
    }
}

} // verus!
