use vstd::prelude::*;

use crate::fs_path::{is_prefix_of, FsPath};

verus! {

/// `p` is an ancestor of (or equal to) every path in `dirs`.
pub open spec fn spec_all_start_with(dirs: Seq<Seq<Seq<char>>>, p: Seq<Seq<char>>) -> bool {
    forall|i: int| 0 <= i < dirs.len() ==> is_prefix_of(p, dirs[i])
}

/// The number of components of the deepest ancestor of the first path
/// that is an ancestor of every path, searched from `k` components down;
/// `None` when no ancestor of at most `k` components qualifies.
pub open spec fn spec_root_len(dirs: Seq<Seq<Seq<char>>>, k: nat) -> Option<nat>
    decreases k,
{
    if k == 0 {
        None
    } else if spec_all_start_with(dirs, dirs[0].take(k as int)) {
        Some(k)
    } else {
        spec_root_len(dirs, (k - 1) as nat)
    }
}

/// The common root of a set of directory paths: the deepest path that is
/// an ancestor of (or equal to) all of them, with at least one component;
/// `None` when the set is empty or shares no such ancestor.
pub open spec fn spec_common_root(dirs: Seq<Seq<Seq<char>>>) -> Option<Seq<Seq<char>>> {
    if dirs.len() == 0 {
        None
    } else {
        match spec_root_len(dirs, dirs[0].len()) {
            Some(k) => Some(dirs[0].take(k as int)),
            None => None,
        }
    }
}

/// A qualifying ancestor of `j` components means the search from `k >= j`
/// does not come back empty.
proof fn lemma_root_len_some(dirs: Seq<Seq<Seq<char>>>, k: nat, j: nat)
    requires
        1 <= j <= k,
        dirs.len() > 0,
        j <= dirs[0].len(),
        spec_all_start_with(dirs, dirs[0].take(j as int)),
    ensures
        spec_root_len(dirs, k) is Some,
        spec_root_len(dirs, k)->0 >= j,
    decreases k,
{
    if k > j {
        if !spec_all_start_with(dirs, dirs[0].take(k as int)) {
            lemma_root_len_some(dirs, (k - 1) as nat, j);
        }
    }
}

/// Determines the shared parent path: the deepest path, found among the
/// ancestors of the first directory from most specific to root, that every
/// directory in the sequence starts with. `None` when the sequence is
/// empty or the directories share no ancestor with at least one component.
pub fn resolve(directories: &Vec<FsPath>) -> (r: Option<FsPath>)
    ensures
        r is Some <==> spec_common_root(directories.deep_view()) is Some,
        r is Some ==> Some(r->0@) == spec_common_root(directories.deep_view()),
        r is Some ==> r->0@.len() >= 1 && spec_all_start_with(directories.deep_view(), r->0@),
        r is Some ==> forall|p: Seq<Seq<char>>|
            spec_all_start_with(directories.deep_view(), p) && p.len() >= 1 ==> p.len()
                <= r->0@.len(),
        r is None && directories.deep_view().len() > 0 ==> forall|p: Seq<Seq<char>>|
            p.len() >= 1 ==> !spec_all_start_with(directories.deep_view(), p),
{
    let ghost dv = directories.deep_view();
    if directories.len() == 0 {
        proof {
            assert(dv.len() == directories@.len());
        }
        return None;
    }
    let first: &FsPath = &directories[0];
    proof {
        assert(first@ == dv[0]);
    }
    let mut k: usize = first.components.len();
    proof {
        assert(first@.len() == first.components@.len());
    }
    while k >= 1
        invariant
            directories@.len() > 0,
            dv == directories.deep_view(),
            dv.len() > 0,
            *first == directories@[0],
            first@ == dv[0],
            k <= first@.len(),
            spec_root_len(dv, dv[0].len()) == spec_root_len(dv, k as nat),
        decreases k,
    {
        let prefix = first.take_prefix(k);
        if all_start_with(directories, &prefix) {
            proof {
                assert(spec_root_len(dv, k as nat) == Some(k as nat));
                assert(Some(prefix@) == spec_common_root(dv));
                assert forall|p: Seq<Seq<char>>|
                    spec_all_start_with(dv, p) && p.len() >= 1 implies p.len() <= prefix@.len() by {
                    assert(is_prefix_of(p, dv[0]));
                    assert(p == dv[0].take(p.len() as int));
                    if p.len() > k {
                        lemma_root_len_some(dv, dv[0].len(), p.len() as nat);
                        assert(spec_root_len(dv, dv[0].len())->0 >= p.len());
                    }
                }
            }
            return Some(prefix);
        }
        k = k - 1;
    }
    proof {
        assert(spec_root_len(dv, 0nat) is None);
        assert(spec_common_root(dv) is None);
        assert forall|p: Seq<Seq<char>>| p.len() >= 1 implies !spec_all_start_with(dv, p) by {
            if spec_all_start_with(dv, p) {
                assert(is_prefix_of(p, dv[0]));
                assert(p == dv[0].take(p.len() as int));
                lemma_root_len_some(dv, dv[0].len(), p.len() as nat);
            }
        }
    }
    None
}

/// Whether every directory starts with the candidate ancestor.
fn all_start_with(directories: &Vec<FsPath>, prefix: &FsPath) -> (r: bool)
    ensures
        r == spec_all_start_with(directories.deep_view(), prefix@),
{
    let ghost dv = directories.deep_view();
    proof {
        assert(dv.len() == directories@.len());
    }
    let mut i: usize = 0;
    while i < directories.len()
        invariant
            i <= directories@.len(),
            dv == directories.deep_view(),
            forall|j: int| 0 <= j < i ==> is_prefix_of(prefix@, dv[j]),
        decreases directories@.len() - i,
    {
        proof {
            assert(dv[i as int] == directories@[i as int]@);
        }
        if !directories[i].starts_with(prefix) {
            return false;
        }
        i = i + 1;
    }
    true
}

} // verus!
