use vstd::prelude::*;

use crate::filter::{spec_name_ignored, spec_path_ignored};
use crate::fs_path::{is_prefix_of, join_rel};
use crate::stamp::{spec_dos_stamp, spec_last_modified};
use crate::tree::{
    spec_children_entries, spec_dir_entries, spec_file_entries, spec_node_entries, ArchiveEntry,
    DirNode, FileNode, FsNode,
};
use crate::walker::spec_forest_entries;

verus! {

/// The name, kind and contents of an entry, without its timestamp.
pub open spec fn spec_entry_core(e: ArchiveEntry) -> (Seq<char>, bool, Seq<u8>) {
    (e.name, e.is_dir, e.content)
}

/// The cores of a run's entries, in order.
pub open spec fn spec_cores(es: Seq<ArchiveEntry>) -> Seq<(Seq<char>, bool, Seq<u8>)> {
    es.map_values(|e: ArchiveEntry| spec_entry_core(e))
}

proof fn lemma_cores_add(a: Seq<ArchiveEntry>, b: Seq<ArchiveEntry>)
    ensures
        spec_cores(a + b) == spec_cores(a) + spec_cores(b),
{
    assert(spec_cores(a + b) =~= spec_cores(a) + spec_cores(b));
}

/// A directory whose base name matches a configured pattern contributes
/// nothing to the archive: the entire sub-tree is pruned, so no entry of
/// it, however deep, appears.
pub proof fn lemma_ignored_dir_pruned(
    pats: Seq<Seq<char>>,
    parent: Seq<Seq<char>>,
    dir: Seq<Seq<char>>,
    node: DirNode,
    now: u64,
)
    requires
        spec_path_ignored(pats, dir),
    ensures
        spec_dir_entries(pats, parent, dir, node, now) == Seq::<ArchiveEntry>::empty(),
{
}

/// Walking the same snapshot twice gives entries with the same names, the
/// same kinds and the same contents, whatever the two current times were:
/// the time only ever enters an entry's timestamp, and only for entries
/// whose own modification time was unavailable.
pub proof fn lemma_dir_cores_independent_of_now(
    pats: Seq<Seq<char>>,
    parent: Seq<Seq<char>>,
    dir: Seq<Seq<char>>,
    node: DirNode,
    now1: u64,
    now2: u64,
)
    ensures
        spec_cores(spec_dir_entries(pats, parent, dir, node, now1)) == spec_cores(
            spec_dir_entries(pats, parent, dir, node, now2),
        ),
    decreases node,
{
    if !spec_path_ignored(pats, dir) && node.children is Some && crate::fs_path::is_prefix_of(
        parent,
        dir,
    ) {
        let d1 = seq![
            ArchiveEntry {
                name: crate::tree::spec_dir_entry_name(
                    crate::fs_path::join_rel(dir.skip(parent.len() as int)),
                ),
                is_dir: true,
                stamp: spec_dos_stamp(spec_last_modified(node.mtime, now1)),
                content: Seq::empty(),
            },
        ];
        let d2 = seq![
            ArchiveEntry {
                name: crate::tree::spec_dir_entry_name(
                    crate::fs_path::join_rel(dir.skip(parent.len() as int)),
                ),
                is_dir: true,
                stamp: spec_dos_stamp(spec_last_modified(node.mtime, now2)),
                content: Seq::empty(),
            },
        ];
        let k1 = spec_children_entries(pats, parent, dir, node.children->0@, now1);
        let k2 = spec_children_entries(pats, parent, dir, node.children->0@, now2);
        assert(decreases_to!(node => node.children));
        assert(decreases_to!(node.children => node.children->0));
        assert(decreases_to!(node.children->0 => node.children->0@));
        lemma_kids_cores_independent_of_now(pats, parent, dir, node.children->0@, now1, now2);
        lemma_cores_add(d1, k1);
        lemma_cores_add(d2, k2);
        assert(spec_cores(d1) =~= spec_cores(d2));
        assert(spec_cores(spec_dir_entries(pats, parent, dir, node, now1)) =~= spec_cores(
            spec_dir_entries(pats, parent, dir, node, now2),
        ));
    } else {
        assert(spec_cores(spec_dir_entries(pats, parent, dir, node, now1)) =~= spec_cores(
            spec_dir_entries(pats, parent, dir, node, now2),
        ));
    }
}

proof fn lemma_kids_cores_independent_of_now(
    pats: Seq<Seq<char>>,
    parent: Seq<Seq<char>>,
    dir: Seq<Seq<char>>,
    kids: Seq<FsNode>,
    now1: u64,
    now2: u64,
)
    ensures
        spec_cores(spec_children_entries(pats, parent, dir, kids, now1)) == spec_cores(
            spec_children_entries(pats, parent, dir, kids, now2),
        ),
    decreases kids,
{
    if kids.len() == 0 {
        assert(spec_cores(spec_children_entries(pats, parent, dir, kids, now1)) =~= spec_cores(
            spec_children_entries(pats, parent, dir, kids, now2),
        ));
    } else {
        lemma_node_cores_independent_of_now(pats, parent, dir, kids[0], now1, now2);
        lemma_kids_cores_independent_of_now(pats, parent, dir, kids.drop_first(), now1, now2);
        lemma_cores_add(
            spec_node_entries(pats, parent, dir, kids[0], now1),
            spec_children_entries(pats, parent, dir, kids.drop_first(), now1),
        );
        lemma_cores_add(
            spec_node_entries(pats, parent, dir, kids[0], now2),
            spec_children_entries(pats, parent, dir, kids.drop_first(), now2),
        );
    }
}

proof fn lemma_node_cores_independent_of_now(
    pats: Seq<Seq<char>>,
    parent: Seq<Seq<char>>,
    dir: Seq<Seq<char>>,
    node: FsNode,
    now1: u64,
    now2: u64,
)
    ensures
        spec_cores(spec_node_entries(pats, parent, dir, node, now1)) == spec_cores(
            spec_node_entries(pats, parent, dir, node, now2),
        ),
    decreases node,
{
    match node {
        FsNode::Dir(d) => {
            lemma_dir_cores_independent_of_now(pats, parent, dir.push(d.name@), d, now1, now2);
        },
        FsNode::File(f) => {
            assert(spec_cores(
                spec_file_entries(pats, parent, dir.push(f.name@), f, now1),
            ) =~= spec_cores(spec_file_entries(pats, parent, dir.push(f.name@), f, now2)));
        },
        FsNode::Other(_) => {
            assert(spec_cores(spec_node_entries(pats, parent, dir, node, now1)) =~= spec_cores(
                spec_node_entries(pats, parent, dir, node, now2),
            ));
        },
    }
}

/// Running the archiver twice on an unchanged snapshot with the same
/// profile gives archives whose entry sequences agree in names, kinds and
/// contents; only timestamps may differ, and only through the wall-clock
/// fallback for entries without a modification time.
pub proof fn lemma_run_idempotent_cores(
    pats: Seq<Seq<char>>,
    parent: Seq<Seq<char>>,
    dirs: Seq<Seq<Seq<char>>>,
    forest: Seq<DirNode>,
    now1: u64,
    now2: u64,
)
    ensures
        spec_cores(spec_forest_entries(pats, parent, dirs, forest, now1)) == spec_cores(
            spec_forest_entries(pats, parent, dirs, forest, now2),
        ),
    decreases forest.len(),
{
    if forest.len() == 0 || dirs.len() == 0 {
        assert(spec_cores(spec_forest_entries(pats, parent, dirs, forest, now1)) =~= spec_cores(
            spec_forest_entries(pats, parent, dirs, forest, now2),
        ));
    } else {
        lemma_dir_cores_independent_of_now(pats, parent, dirs[0], forest[0], now1, now2);
        lemma_run_idempotent_cores(
            pats,
            parent,
            dirs.drop_first(),
            forest.drop_first(),
            now1,
            now2,
        );
        lemma_cores_add(
            spec_dir_entries(pats, parent, dirs[0], forest[0], now1),
            spec_forest_entries(pats, parent, dirs.drop_first(), forest.drop_first(), now1),
        );
        lemma_cores_add(
            spec_dir_entries(pats, parent, dirs[0], forest[0], now2),
            spec_forest_entries(pats, parent, dirs.drop_first(), forest.drop_first(), now2),
        );
    }
}

/// The number of regular files a snapshot holds, every one assumed
/// readable.
pub open spec fn spec_file_count_kids(kids: Seq<FsNode>) -> nat
    decreases kids,
{
    if kids.len() == 0 {
        0
    } else {
        spec_file_count_node(kids[0]) + spec_file_count_kids(kids.drop_first())
    }
}

/// The number of regular files under one snapshot node.
pub open spec fn spec_file_count_node(n: FsNode) -> nat
    decreases n,
    via spec_file_count_node_decreases
{
    match n {
        FsNode::Dir(d) => match d.children {
            Option::None => 0,
            Option::Some(ks) => spec_file_count_kids(ks@),
        },
        FsNode::File(_) => 1,
        FsNode::Other(_) => 0,
    }
}

#[via_fn]
proof fn spec_file_count_node_decreases(n: FsNode) {
    lemma_node_to_kids(n);
}

/// The number of sub-directories a snapshot holds, not counting the
/// directory itself.
pub open spec fn spec_dir_count_kids(kids: Seq<FsNode>) -> nat
    decreases kids,
{
    if kids.len() == 0 {
        0
    } else {
        spec_dir_count_node(kids[0]) + spec_dir_count_kids(kids.drop_first())
    }
}

/// The number of directories under (and including) one snapshot node.
pub open spec fn spec_dir_count_node(n: FsNode) -> nat
    decreases n,
    via spec_dir_count_node_decreases
{
    match n {
        FsNode::Dir(d) => match d.children {
            Option::None => 1,
            Option::Some(ks) => 1 + spec_dir_count_kids(ks@),
        },
        FsNode::File(_) => 0,
        FsNode::Other(_) => 0,
    }
}

#[via_fn]
proof fn spec_dir_count_node_decreases(n: FsNode) {
    lemma_node_to_kids(n);
}

proof fn lemma_node_to_kids(n: FsNode) {
    if n is Dir && n->Dir_0.children is Some {
        let d = n->Dir_0;
        assert(decreases_to!(n => n->Dir_0));
        assert(decreases_to!(d => d.children));
        assert(decreases_to!(d.children => d.children->0));
        assert(decreases_to!(d.children->0 => d.children->0@));
    }
}

/// No base name in the run of siblings, however deep, matches any of the
/// configured patterns: nothing in the snapshot is ignored.
pub open spec fn spec_tree_unmatched_kids(pats: Seq<Seq<char>>, kids: Seq<FsNode>) -> bool
    decreases kids,
{
    kids.len() == 0 || (spec_tree_unmatched_node(pats, kids[0]) && spec_tree_unmatched_kids(
        pats,
        kids.drop_first(),
    ))
}

/// No base name of the node, or of anything under it, matches a pattern.
pub open spec fn spec_tree_unmatched_node(pats: Seq<Seq<char>>, n: FsNode) -> bool
    decreases n,
    via spec_tree_unmatched_node_decreases
{
    match n {
        FsNode::Dir(d) => !spec_name_ignored(pats, d.name@) && match d.children {
            Option::None => true,
            Option::Some(ks) => spec_tree_unmatched_kids(pats, ks@),
        },
        FsNode::File(f) => !spec_name_ignored(pats, f.name@),
        FsNode::Other(_) => true,
    }
}

#[via_fn]
proof fn spec_tree_unmatched_node_decreases(pats: Seq<Seq<char>>, n: FsNode) {
    lemma_node_to_kids(n);
}

/// Every entry of a snapshot could be read: every directory was listed and
/// every file's contents were read.
pub open spec fn spec_all_readable_kids(kids: Seq<FsNode>) -> bool
    decreases kids,
{
    if kids.len() == 0 {
        true
    } else {
        spec_all_readable_node(kids[0]) && spec_all_readable_kids(kids.drop_first())
    }
}

/// One snapshot node, and everything under it, could be read.
pub open spec fn spec_all_readable_node(n: FsNode) -> bool
    decreases n,
    via spec_all_readable_node_decreases
{
    match n {
        FsNode::Dir(d) => d.children is Some && spec_all_readable_kids(d.children->0@),
        FsNode::File(f) => f.content is Some,
        FsNode::Other(_) => true,
    }
}

#[via_fn]
proof fn spec_all_readable_node_decreases(n: FsNode) {
    lemma_node_to_kids(n);
}

/// An ancestor of a directory is an ancestor of everything inside it.
proof fn lemma_prefix_push(p: Seq<Seq<char>>, q: Seq<Seq<char>>, x: Seq<char>)
    requires
        is_prefix_of(p, q),
    ensures
        is_prefix_of(p, q.push(x)),
{
    assert(q.push(x).take(p.len() as int) =~= q.take(p.len() as int));
}

/// Round trip of the walk, counted: when no pattern matches anything in a
/// fully readable snapshot, archiving a directory tree with N files and
/// M sub-directories yields exactly N file entries and M + 1 directory
/// entries (the walked directory contributes its own marker).
pub proof fn lemma_round_trip_counts(
    pats: Seq<Seq<char>>,
    parent: Seq<Seq<char>>,
    dir: Seq<Seq<char>>,
    node: DirNode,
    now: u64,
)
    requires
        node.children is Some,
        spec_all_readable_kids(node.children->0@),
        is_prefix_of(parent, dir),
        !spec_path_ignored(pats, dir),
        spec_tree_unmatched_kids(pats, node.children->0@),
    ensures
        spec_dir_entries(pats, parent, dir, node, now).filter(
            |e: ArchiveEntry| !e.is_dir,
        ).len() == spec_file_count_kids(node.children->0@),
        spec_dir_entries(pats, parent, dir, node, now).filter(
            |e: ArchiveEntry| e.is_dir,
        ).len() == 1 + spec_dir_count_kids(node.children->0@),
    decreases node,
{
    let es = spec_dir_entries(pats, parent, dir, node, now);
    let ks = node.children->0@;
    let head = seq![
        ArchiveEntry {
            name: crate::tree::spec_dir_entry_name(
                crate::fs_path::join_rel(dir.skip(parent.len() as int)),
            ),
            is_dir: true,
            stamp: spec_dos_stamp(spec_last_modified(node.mtime, now)),
            content: Seq::empty(),
        },
    ];
    assert(!spec_path_ignored(pats, dir));
    assert(es == head + spec_children_entries(pats, parent, dir, ks, now));
    assert(decreases_to!(node => node.children));
    assert(decreases_to!(node.children => node.children->0));
    assert(decreases_to!(node.children->0 => node.children->0@));
    lemma_counts_kids(pats, parent, dir, ks, now);
    Seq::filter_distributes_over_add(head, spec_children_entries(pats, parent, dir, ks, now), |e: ArchiveEntry| !e.is_dir);
    Seq::filter_distributes_over_add(head, spec_children_entries(pats, parent, dir, ks, now), |e: ArchiveEntry| e.is_dir);
    reveal_with_fuel(Seq::filter, 3);
    assert(head.drop_last() =~= Seq::<ArchiveEntry>::empty());
    assert(head.filter(|e: ArchiveEntry| !e.is_dir) =~= Seq::<ArchiveEntry>::empty());
    assert(head.filter(|e: ArchiveEntry| e.is_dir) =~= head);
}

proof fn lemma_counts_kids(
    pats: Seq<Seq<char>>,
    parent: Seq<Seq<char>>,
    dir: Seq<Seq<char>>,
    kids: Seq<FsNode>,
    now: u64,
)
    requires
        spec_all_readable_kids(kids),
        is_prefix_of(parent, dir),
        spec_tree_unmatched_kids(pats, kids),
    ensures
        spec_children_entries(pats, parent, dir, kids, now).filter(
            |e: ArchiveEntry| !e.is_dir,
        ).len() == spec_file_count_kids(kids),
        spec_children_entries(pats, parent, dir, kids, now).filter(
            |e: ArchiveEntry| e.is_dir,
        ).len() == spec_dir_count_kids(kids),
    decreases kids,
{
    reveal_with_fuel(Seq::filter, 3);
    if kids.len() == 0 {
        assert(spec_children_entries(pats, parent, dir, kids, now).filter(
            |e: ArchiveEntry| !e.is_dir,
        ) =~= Seq::<ArchiveEntry>::empty());
        assert(spec_children_entries(pats, parent, dir, kids, now).filter(
            |e: ArchiveEntry| e.is_dir,
        ) =~= Seq::<ArchiveEntry>::empty());
    } else {
        lemma_counts_node(pats, parent, dir, kids[0], now);
        lemma_counts_kids(pats, parent, dir, kids.drop_first(), now);
        Seq::filter_distributes_over_add(
            spec_node_entries(pats, parent, dir, kids[0], now),
            spec_children_entries(pats, parent, dir, kids.drop_first(), now),
            |e: ArchiveEntry| !e.is_dir,
        );
        Seq::filter_distributes_over_add(
            spec_node_entries(pats, parent, dir, kids[0], now),
            spec_children_entries(pats, parent, dir, kids.drop_first(), now),
            |e: ArchiveEntry| e.is_dir,
        );
    }
}

proof fn lemma_counts_node(
    pats: Seq<Seq<char>>,
    parent: Seq<Seq<char>>,
    dir: Seq<Seq<char>>,
    n: FsNode,
    now: u64,
)
    requires
        spec_all_readable_node(n),
        is_prefix_of(parent, dir),
        spec_tree_unmatched_node(pats, n),
    ensures
        spec_node_entries(pats, parent, dir, n, now).filter(
            |e: ArchiveEntry| !e.is_dir,
        ).len() == spec_file_count_node(n),
        spec_node_entries(pats, parent, dir, n, now).filter(
            |e: ArchiveEntry| e.is_dir,
        ).len() == spec_dir_count_node(n),
    decreases n,
{
    match n {
        FsNode::Dir(d) => {
            lemma_prefix_push(parent, dir, d.name@);
            assert(dir.push(d.name@).last() == d.name@);
            assert(!spec_path_ignored(pats, dir.push(d.name@)));
            assert(decreases_to!(n => n->Dir_0));
            lemma_round_trip_counts(pats, parent, dir.push(d.name@), d, now);
        },
        FsNode::File(f) => {
            lemma_prefix_push(parent, dir, f.name@);
            assert(dir.push(f.name@).last() == f.name@);
            assert(!spec_path_ignored(pats, dir.push(f.name@)));
            let fe = spec_file_entries(pats, parent, dir.push(f.name@), f, now);
            reveal_with_fuel(Seq::filter, 3);
            assert(fe.len() == 1 && !fe[0].is_dir);
            assert(fe.drop_last() =~= Seq::<ArchiveEntry>::empty());
            assert(fe.filter(|e: ArchiveEntry| !e.is_dir) =~= fe);
            assert(fe.filter(|e: ArchiveEntry| e.is_dir) =~= Seq::<ArchiveEntry>::empty());
        },
        FsNode::Other(_) => {
            reveal_with_fuel(Seq::filter, 3);
            assert(spec_node_entries(pats, parent, dir, n, now).filter(
                |e: ArchiveEntry| !e.is_dir,
            ) =~= Seq::<ArchiveEntry>::empty());
            assert(spec_node_entries(pats, parent, dir, n, now).filter(
                |e: ArchiveEntry| e.is_dir,
            ) =~= Seq::<ArchiveEntry>::empty());
        },
    }
}

/// The file entries a clean walk owes one run of siblings: for every
/// readable, non-ignored file, one entry named by its path relative to
/// `parent`, holding exactly the file's bytes, in walk order.
pub open spec fn spec_expected_file_entries(
    parent: Seq<Seq<char>>,
    dir: Seq<Seq<char>>,
    kids: Seq<FsNode>,
    now: u64,
) -> Seq<ArchiveEntry>
    decreases kids,
{
    if kids.len() == 0 {
        Seq::empty()
    } else {
        spec_expected_file_entries_node(parent, dir, kids[0], now)
            + spec_expected_file_entries(parent, dir, kids.drop_first(), now)
    }
}

/// The file entries one snapshot node owes a clean walk.
pub open spec fn spec_expected_file_entries_node(
    parent: Seq<Seq<char>>,
    dir: Seq<Seq<char>>,
    n: FsNode,
    now: u64,
) -> Seq<ArchiveEntry>
    decreases n,
    via spec_expected_file_entries_node_decreases
{
    match n {
        FsNode::Dir(d) => match d.children {
            Option::None => Seq::empty(),
            Option::Some(ks) => spec_expected_file_entries(parent, dir.push(d.name@), ks@, now),
        },
        FsNode::File(f) => seq![
            ArchiveEntry {
                name: join_rel(dir.push(f.name@).skip(parent.len() as int)),
                is_dir: false,
                stamp: spec_dos_stamp(spec_last_modified(f.mtime, now)),
                content: f.content->0@,
            },
        ],
        FsNode::Other(_) => Seq::empty(),
    }
}

#[via_fn]
proof fn spec_expected_file_entries_node_decreases(
    parent: Seq<Seq<char>>,
    dir: Seq<Seq<char>>,
    n: FsNode,
    now: u64,
) {
    lemma_node_to_kids(n);
}

/// Round trip of the walk, entry by entry: when no pattern matches
/// anything in a fully readable snapshot, the file entries of the walk
/// are exactly the snapshot's files, in depth-first order, each named by
/// its path relative to the shared parent and carrying its source bytes
/// unchanged.
pub proof fn lemma_round_trip_contents(
    pats: Seq<Seq<char>>,
    parent: Seq<Seq<char>>,
    dir: Seq<Seq<char>>,
    node: DirNode,
    now: u64,
)
    requires
        node.children is Some,
        spec_all_readable_kids(node.children->0@),
        is_prefix_of(parent, dir),
        !spec_path_ignored(pats, dir),
        spec_tree_unmatched_kids(pats, node.children->0@),
    ensures
        spec_dir_entries(pats, parent, dir, node, now).filter(
            |e: ArchiveEntry| !e.is_dir,
        ) == spec_expected_file_entries(parent, dir, node.children->0@, now),
    decreases node,
{
    let es = spec_dir_entries(pats, parent, dir, node, now);
    let ks = node.children->0@;
    let head = seq![
        ArchiveEntry {
            name: crate::tree::spec_dir_entry_name(join_rel(dir.skip(parent.len() as int))),
            is_dir: true,
            stamp: spec_dos_stamp(spec_last_modified(node.mtime, now)),
            content: Seq::empty(),
        },
    ];
    assert(!spec_path_ignored(pats, dir));
    assert(es == head + spec_children_entries(pats, parent, dir, ks, now));
    assert(decreases_to!(node => node.children));
    assert(decreases_to!(node.children => node.children->0));
    assert(decreases_to!(node.children->0 => node.children->0@));
    lemma_contents_kids(pats, parent, dir, ks, now);
    Seq::filter_distributes_over_add(
        head,
        spec_children_entries(pats, parent, dir, ks, now),
        |e: ArchiveEntry| !e.is_dir,
    );
    reveal_with_fuel(Seq::filter, 3);
    assert(head.drop_last() =~= Seq::<ArchiveEntry>::empty());
    assert(head.filter(|e: ArchiveEntry| !e.is_dir) =~= Seq::<ArchiveEntry>::empty());
    assert(es.filter(|e: ArchiveEntry| !e.is_dir) =~= spec_expected_file_entries(
        parent,
        dir,
        ks,
        now,
    ));
}

proof fn lemma_contents_kids(
    pats: Seq<Seq<char>>,
    parent: Seq<Seq<char>>,
    dir: Seq<Seq<char>>,
    kids: Seq<FsNode>,
    now: u64,
)
    requires
        spec_all_readable_kids(kids),
        is_prefix_of(parent, dir),
        spec_tree_unmatched_kids(pats, kids),
    ensures
        spec_children_entries(pats, parent, dir, kids, now).filter(
            |e: ArchiveEntry| !e.is_dir,
        ) == spec_expected_file_entries(parent, dir, kids, now),
    decreases kids,
{
    reveal_with_fuel(Seq::filter, 3);
    if kids.len() == 0 {
        assert(spec_children_entries(pats, parent, dir, kids, now).filter(
            |e: ArchiveEntry| !e.is_dir,
        ) =~= Seq::<ArchiveEntry>::empty());
    } else {
        lemma_contents_node(pats, parent, dir, kids[0], now);
        lemma_contents_kids(pats, parent, dir, kids.drop_first(), now);
        Seq::filter_distributes_over_add(
            spec_node_entries(pats, parent, dir, kids[0], now),
            spec_children_entries(pats, parent, dir, kids.drop_first(), now),
            |e: ArchiveEntry| !e.is_dir,
        );
    }
}

proof fn lemma_contents_node(
    pats: Seq<Seq<char>>,
    parent: Seq<Seq<char>>,
    dir: Seq<Seq<char>>,
    n: FsNode,
    now: u64,
)
    requires
        spec_all_readable_node(n),
        is_prefix_of(parent, dir),
        spec_tree_unmatched_node(pats, n),
    ensures
        spec_node_entries(pats, parent, dir, n, now).filter(
            |e: ArchiveEntry| !e.is_dir,
        ) == spec_expected_file_entries_node(parent, dir, n, now),
    decreases n,
{
    reveal_with_fuel(Seq::filter, 3);
    match n {
        FsNode::Dir(d) => {
            lemma_prefix_push(parent, dir, d.name@);
            assert(dir.push(d.name@).last() == d.name@);
            assert(!spec_path_ignored(pats, dir.push(d.name@)));
            assert(decreases_to!(n => n->Dir_0));
            lemma_round_trip_contents(pats, parent, dir.push(d.name@), d, now);
        },
        FsNode::File(f) => {
            lemma_prefix_push(parent, dir, f.name@);
            assert(dir.push(f.name@).last() == f.name@);
            assert(!spec_path_ignored(pats, dir.push(f.name@)));
            let fe = spec_file_entries(pats, parent, dir.push(f.name@), f, now);
            assert(fe.len() == 1 && !fe[0].is_dir);
            assert(fe.drop_last() =~= Seq::<ArchiveEntry>::empty());
            assert(fe.filter(|e: ArchiveEntry| !e.is_dir) =~= fe);
            assert(fe =~= spec_expected_file_entries_node(parent, dir, n, now));
        },
        FsNode::Other(_) => {
            assert(spec_node_entries(pats, parent, dir, n, now).filter(
                |e: ArchiveEntry| !e.is_dir,
            ) =~= Seq::<ArchiveEntry>::empty());
        },
    }
}

/// The directory entries a clean walk owes one run of siblings, each named
/// by its relative path with a trailing slash, in walk order.
pub open spec fn spec_expected_dir_entries(
    parent: Seq<Seq<char>>,
    dir: Seq<Seq<char>>,
    kids: Seq<FsNode>,
    now: u64,
) -> Seq<ArchiveEntry>
    decreases kids,
{
    if kids.len() == 0 {
        Seq::empty()
    } else {
        spec_expected_dir_entries_node(parent, dir, kids[0], now) + spec_expected_dir_entries(
            parent,
            dir,
            kids.drop_first(),
            now,
        )
    }
}

/// The directory entries one snapshot node owes a clean walk: its own
/// marker first, then its children's.
pub open spec fn spec_expected_dir_entries_node(
    parent: Seq<Seq<char>>,
    dir: Seq<Seq<char>>,
    n: FsNode,
    now: u64,
) -> Seq<ArchiveEntry>
    decreases n,
    via spec_expected_dir_entries_node_decreases
{
    match n {
        FsNode::Dir(d) => match d.children {
            Option::None => Seq::empty(),
            Option::Some(ks) => seq![
                ArchiveEntry {
                    name: crate::tree::spec_dir_entry_name(
                        join_rel(dir.push(d.name@).skip(parent.len() as int)),
                    ),
                    is_dir: true,
                    stamp: spec_dos_stamp(spec_last_modified(d.mtime, now)),
                    content: Seq::empty(),
                },
            ] + spec_expected_dir_entries(parent, dir.push(d.name@), ks@, now),
        },
        FsNode::File(_) => Seq::empty(),
        FsNode::Other(_) => Seq::empty(),
    }
}

#[via_fn]
proof fn spec_expected_dir_entries_node_decreases(
    parent: Seq<Seq<char>>,
    dir: Seq<Seq<char>>,
    n: FsNode,
    now: u64,
) {
    lemma_node_to_kids(n);
}

/// Round trip of the walk, directory by directory: when no pattern matches
/// anything in a fully readable snapshot, the directory entries of the
/// walk are the walked directory's own marker followed by one marker per
/// sub-directory, in depth-first order, each named by its relative path.
pub proof fn lemma_round_trip_dir_names(
    pats: Seq<Seq<char>>,
    parent: Seq<Seq<char>>,
    dir: Seq<Seq<char>>,
    node: DirNode,
    now: u64,
)
    requires
        node.children is Some,
        spec_all_readable_kids(node.children->0@),
        is_prefix_of(parent, dir),
        !spec_path_ignored(pats, dir),
        spec_tree_unmatched_kids(pats, node.children->0@),
    ensures
        spec_dir_entries(pats, parent, dir, node, now).filter(
            |e: ArchiveEntry| e.is_dir,
        ) == seq![
            ArchiveEntry {
                name: crate::tree::spec_dir_entry_name(join_rel(dir.skip(parent.len() as int))),
                is_dir: true,
                stamp: spec_dos_stamp(spec_last_modified(node.mtime, now)),
                content: Seq::empty(),
            },
        ] + spec_expected_dir_entries(parent, dir, node.children->0@, now),
    decreases node,
{
    let es = spec_dir_entries(pats, parent, dir, node, now);
    let ks = node.children->0@;
    let head = seq![
        ArchiveEntry {
            name: crate::tree::spec_dir_entry_name(join_rel(dir.skip(parent.len() as int))),
            is_dir: true,
            stamp: spec_dos_stamp(spec_last_modified(node.mtime, now)),
            content: Seq::empty(),
        },
    ];
    assert(!spec_path_ignored(pats, dir));
    assert(es == head + spec_children_entries(pats, parent, dir, ks, now));
    assert(decreases_to!(node => node.children));
    assert(decreases_to!(node.children => node.children->0));
    assert(decreases_to!(node.children->0 => node.children->0@));
    lemma_dir_names_kids(pats, parent, dir, ks, now);
    Seq::filter_distributes_over_add(
        head,
        spec_children_entries(pats, parent, dir, ks, now),
        |e: ArchiveEntry| e.is_dir,
    );
    reveal_with_fuel(Seq::filter, 3);
    assert(head.drop_last() =~= Seq::<ArchiveEntry>::empty());
    assert(head.filter(|e: ArchiveEntry| e.is_dir) =~= head);
    assert(es.filter(|e: ArchiveEntry| e.is_dir) =~= head + spec_expected_dir_entries(
        parent,
        dir,
        ks,
        now,
    ));
}

proof fn lemma_dir_names_kids(
    pats: Seq<Seq<char>>,
    parent: Seq<Seq<char>>,
    dir: Seq<Seq<char>>,
    kids: Seq<FsNode>,
    now: u64,
)
    requires
        spec_all_readable_kids(kids),
        is_prefix_of(parent, dir),
        spec_tree_unmatched_kids(pats, kids),
    ensures
        spec_children_entries(pats, parent, dir, kids, now).filter(
            |e: ArchiveEntry| e.is_dir,
        ) == spec_expected_dir_entries(parent, dir, kids, now),
    decreases kids,
{
    reveal_with_fuel(Seq::filter, 3);
    if kids.len() == 0 {
        assert(spec_children_entries(pats, parent, dir, kids, now).filter(
            |e: ArchiveEntry| e.is_dir,
        ) =~= Seq::<ArchiveEntry>::empty());
    } else {
        lemma_dir_names_node(pats, parent, dir, kids[0], now);
        lemma_dir_names_kids(pats, parent, dir, kids.drop_first(), now);
        Seq::filter_distributes_over_add(
            spec_node_entries(pats, parent, dir, kids[0], now),
            spec_children_entries(pats, parent, dir, kids.drop_first(), now),
            |e: ArchiveEntry| e.is_dir,
        );
    }
}

proof fn lemma_dir_names_node(
    pats: Seq<Seq<char>>,
    parent: Seq<Seq<char>>,
    dir: Seq<Seq<char>>,
    n: FsNode,
    now: u64,
)
    requires
        spec_all_readable_node(n),
        is_prefix_of(parent, dir),
        spec_tree_unmatched_node(pats, n),
    ensures
        spec_node_entries(pats, parent, dir, n, now).filter(
            |e: ArchiveEntry| e.is_dir,
        ) == spec_expected_dir_entries_node(parent, dir, n, now),
    decreases n,
{
    reveal_with_fuel(Seq::filter, 3);
    match n {
        FsNode::Dir(d) => {
            lemma_prefix_push(parent, dir, d.name@);
            assert(dir.push(d.name@).last() == d.name@);
            assert(!spec_path_ignored(pats, dir.push(d.name@)));
            assert(decreases_to!(n => n->Dir_0));
            lemma_round_trip_dir_names(pats, parent, dir.push(d.name@), d, now);
        },
        FsNode::File(f) => {
            lemma_prefix_push(parent, dir, f.name@);
            assert(dir.push(f.name@).last() == f.name@);
            assert(!spec_path_ignored(pats, dir.push(f.name@)));
            let fe = spec_file_entries(pats, parent, dir.push(f.name@), f, now);
            assert(fe.len() == 1 && !fe[0].is_dir);
            assert(fe.drop_last() =~= Seq::<ArchiveEntry>::empty());
            assert(fe.filter(|e: ArchiveEntry| e.is_dir) =~= Seq::<ArchiveEntry>::empty());
        },
        FsNode::Other(_) => {
            assert(spec_node_entries(pats, parent, dir, n, now).filter(
                |e: ArchiveEntry| e.is_dir,
            ) =~= Seq::<ArchiveEntry>::empty());
        },
    }
}

/// Partial failure: a file that became unreadable contributes nothing and
/// costs nothing — the walk's entries for a run of siblings are exactly
/// those of the same run without the unreadable file, so every sibling's
/// entry, and the enclosing directory's own marker, still appear.
pub proof fn lemma_unreadable_file_skipped(
    pats: Seq<Seq<char>>,
    parent: Seq<Seq<char>>,
    dir: Seq<Seq<char>>,
    kids: Seq<FsNode>,
    now: u64,
    j: int,
)
    requires
        0 <= j < kids.len(),
        kids[j] matches FsNode::File(f) && f.content is None,
    ensures
        spec_children_entries(pats, parent, dir, kids, now) == spec_children_entries(
            pats,
            parent,
            dir,
            kids.remove(j),
            now,
        ),
    decreases j,
{
    if j == 0 {
        assert(kids.remove(0) =~= kids.drop_first());
        let f = kids[0]->File_0;
        assert(spec_file_entries(pats, parent, dir.push(f.name@), f, now)
            == Seq::<ArchiveEntry>::empty());
        assert(spec_node_entries(pats, parent, dir, kids[0], now) + spec_children_entries(
            pats,
            parent,
            dir,
            kids.drop_first(),
            now,
        ) =~= spec_children_entries(pats, parent, dir, kids.drop_first(), now));
    } else {
        lemma_unreadable_file_skipped(pats, parent, dir, kids.drop_first(), now, j - 1);
        assert(kids.remove(j).drop_first() =~= kids.drop_first().remove(j - 1));
        assert(kids.remove(j)[0] == kids[0]);
        assert(kids.drop_first()[j - 1] == kids[j]);
        assert(spec_children_entries(pats, parent, dir, kids, now) =~= spec_children_entries(
            pats,
            parent,
            dir,
            kids.remove(j),
            now,
        ));
    }
}

/// The number of readable files over the whole run's snapshots.
pub open spec fn spec_forest_file_count(forest: Seq<DirNode>) -> nat
    decreases forest.len(),
{
    if forest.len() == 0 {
        0
    } else {
        (match forest[0].children {
            Option::None => 0,
            Option::Some(ks) => spec_file_count_kids(ks@),
        }) + spec_forest_file_count(forest.drop_first())
    }
}

/// The number of sub-directories over the whole run's snapshots, not
/// counting the configured directories themselves.
pub open spec fn spec_forest_subdir_count(forest: Seq<DirNode>) -> nat
    decreases forest.len(),
{
    if forest.len() == 0 {
        0
    } else {
        (match forest[0].children {
            Option::None => 0,
            Option::Some(ks) => spec_dir_count_kids(ks@),
        }) + spec_forest_subdir_count(forest.drop_first())
    }
}

/// Round trip of a whole run, counted: when no pattern matches anything in
/// the fully readable snapshots of the configured directories, the archive
/// holds exactly one file entry per file and one directory entry per
/// sub-directory plus one per configured directory.
pub proof fn lemma_round_trip_counts_run(
    pats: Seq<Seq<char>>,
    parent: Seq<Seq<char>>,
    dirs: Seq<Seq<Seq<char>>>,
    forest: Seq<DirNode>,
    now: u64,
)
    requires
        dirs.len() == forest.len(),
        forall|i: int|
            0 <= i < forest.len() ==> (#[trigger] forest[i]).children is Some
                && spec_all_readable_kids(forest[i].children->0@) && spec_tree_unmatched_kids(
                pats,
                forest[i].children->0@,
            ),
        forall|i: int|
            0 <= i < dirs.len() ==> is_prefix_of(parent, #[trigger] dirs[i])
                && !spec_path_ignored(pats, dirs[i]),
    ensures
        spec_forest_entries(pats, parent, dirs, forest, now).filter(
            |e: ArchiveEntry| !e.is_dir,
        ).len() == spec_forest_file_count(forest),
        spec_forest_entries(pats, parent, dirs, forest, now).filter(
            |e: ArchiveEntry| e.is_dir,
        ).len() == forest.len() + spec_forest_subdir_count(forest),
    decreases forest.len(),
{
    reveal_with_fuel(Seq::filter, 3);
    if forest.len() == 0 || dirs.len() == 0 {
        assert(spec_forest_entries(pats, parent, dirs, forest, now).filter(
            |e: ArchiveEntry| !e.is_dir,
        ) =~= Seq::<ArchiveEntry>::empty());
        assert(spec_forest_entries(pats, parent, dirs, forest, now).filter(
            |e: ArchiveEntry| e.is_dir,
        ) =~= Seq::<ArchiveEntry>::empty());
    } else {
        assert(forest[0].children is Some && spec_all_readable_kids(forest[0].children->0@)
            && spec_tree_unmatched_kids(pats, forest[0].children->0@));
        assert(is_prefix_of(parent, dirs[0]) && !spec_path_ignored(pats, dirs[0]));
        lemma_round_trip_counts(pats, parent, dirs[0], forest[0], now);
        assert forall|i: int| 0 <= i < forest.drop_first().len() implies (#[trigger] forest.drop_first()[i]).children
            is Some && spec_all_readable_kids(forest.drop_first()[i].children->0@)
            && spec_tree_unmatched_kids(pats, forest.drop_first()[i].children->0@) by {
            assert(forest.drop_first()[i] == forest[i + 1]);
        }
        assert forall|i: int| 0 <= i < dirs.drop_first().len() implies is_prefix_of(
            parent,
            #[trigger] dirs.drop_first()[i],
        ) && !spec_path_ignored(pats, dirs.drop_first()[i]) by {
            assert(dirs.drop_first()[i] == dirs[i + 1]);
        }
        lemma_round_trip_counts_run(pats, parent, dirs.drop_first(), forest.drop_first(), now);
        Seq::filter_distributes_over_add(
            spec_dir_entries(pats, parent, dirs[0], forest[0], now),
            spec_forest_entries(pats, parent, dirs.drop_first(), forest.drop_first(), now),
            |e: ArchiveEntry| !e.is_dir,
        );
        Seq::filter_distributes_over_add(
            spec_dir_entries(pats, parent, dirs[0], forest[0], now),
            spec_forest_entries(pats, parent, dirs.drop_first(), forest.drop_first(), now),
            |e: ArchiveEntry| e.is_dir,
        );
    }
}

/// The file entries a whole clean run owes: each configured directory's
/// expected file entries, in order.
pub open spec fn spec_forest_file_entries(
    parent: Seq<Seq<char>>,
    dirs: Seq<Seq<Seq<char>>>,
    forest: Seq<DirNode>,
    now: u64,
) -> Seq<ArchiveEntry>
    decreases forest.len(),
{
    if forest.len() == 0 || dirs.len() == 0 {
        Seq::empty()
    } else {
        (match forest[0].children {
            Option::None => Seq::empty(),
            Option::Some(ks) => spec_expected_file_entries(parent, dirs[0], ks@, now),
        }) + spec_forest_file_entries(parent, dirs.drop_first(), forest.drop_first(), now)
    }
}

/// Round trip of a whole run, file by file: when no pattern matches
/// anything in the fully readable snapshots, the file entries of the run
/// are exactly the snapshots' files in walk order, each named by its path
/// relative to the shared parent and carrying its source bytes unchanged.
pub proof fn lemma_round_trip_contents_run(
    pats: Seq<Seq<char>>,
    parent: Seq<Seq<char>>,
    dirs: Seq<Seq<Seq<char>>>,
    forest: Seq<DirNode>,
    now: u64,
)
    requires
        dirs.len() == forest.len(),
        forall|i: int|
            0 <= i < forest.len() ==> (#[trigger] forest[i]).children is Some
                && spec_all_readable_kids(forest[i].children->0@) && spec_tree_unmatched_kids(
                pats,
                forest[i].children->0@,
            ),
        forall|i: int|
            0 <= i < dirs.len() ==> is_prefix_of(parent, #[trigger] dirs[i])
                && !spec_path_ignored(pats, dirs[i]),
    ensures
        spec_forest_entries(pats, parent, dirs, forest, now).filter(
            |e: ArchiveEntry| !e.is_dir,
        ) == spec_forest_file_entries(parent, dirs, forest, now),
    decreases forest.len(),
{
    reveal_with_fuel(Seq::filter, 3);
    if forest.len() == 0 || dirs.len() == 0 {
        assert(spec_forest_entries(pats, parent, dirs, forest, now).filter(
            |e: ArchiveEntry| !e.is_dir,
        ) =~= Seq::<ArchiveEntry>::empty());
        assert(spec_forest_file_entries(parent, dirs, forest, now)
            == Seq::<ArchiveEntry>::empty());
    } else {
        assert(forest[0].children is Some && spec_all_readable_kids(forest[0].children->0@)
            && spec_tree_unmatched_kids(pats, forest[0].children->0@));
        assert(is_prefix_of(parent, dirs[0]) && !spec_path_ignored(pats, dirs[0]));
        lemma_round_trip_contents(pats, parent, dirs[0], forest[0], now);
        assert forall|i: int| 0 <= i < forest.drop_first().len() implies (#[trigger] forest.drop_first()[i]).children
            is Some && spec_all_readable_kids(forest.drop_first()[i].children->0@)
            && spec_tree_unmatched_kids(pats, forest.drop_first()[i].children->0@) by {
            assert(forest.drop_first()[i] == forest[i + 1]);
        }
        assert forall|i: int| 0 <= i < dirs.drop_first().len() implies is_prefix_of(
            parent,
            #[trigger] dirs.drop_first()[i],
        ) && !spec_path_ignored(pats, dirs.drop_first()[i]) by {
            assert(dirs.drop_first()[i] == dirs[i + 1]);
        }
        lemma_round_trip_contents_run(pats, parent, dirs.drop_first(), forest.drop_first(), now);
        Seq::filter_distributes_over_add(
            spec_dir_entries(pats, parent, dirs[0], forest[0], now),
            spec_forest_entries(pats, parent, dirs.drop_first(), forest.drop_first(), now),
            |e: ArchiveEntry| !e.is_dir,
        );
    }
}

} // verus!
