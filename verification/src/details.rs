//! Counting for the commit details panel: the rows of a file's hunks and
//! the nodes of the changed-files tree.

use vstd::prelude::*;
use crate::repo::{FileChange, Hunk};
use crate::text::{chars_of, same_chars, slice_chars};

verus! {

broadcast use vstd::string::group_string_axioms;

/// The rows of the first `n` hunks: their lines and a blank row between
/// each two.
pub open spec fn hunk_lines_height(hunks: Seq<Hunk>, n: int) -> int
    decreases n,
{
    if n <= 0 {
        0
    } else {
        hunk_lines_height(hunks, n - 1) + (if n > 1 {
            1int
        } else {
            0int
        }) + hunks[n - 1].lines@.len()
    }
}

/// Whether `d` is the part of the `k`-th file's path before its slash at `p`.
pub open spec fn prefix_at(files: Seq<FileChange>, k: int, p: int, d: Seq<char>) -> bool {
    &&& 0 <= k < files.len()
    &&& 0 <= p < files[k].path@.len()
    &&& files[k].path@[p] == '/'
    &&& d == files[k].path@.take(p)
}

/// The directories of the file tree: every part of a path before one of
/// its slashes.
pub open spec fn dir_prefixes(files: Seq<FileChange>) -> Set<Seq<char>> {
    Set::new(|d: Seq<char>| exists|k: int, p: int| prefix_at(files, k, p, d))
}

/// The directories met before the slash at `p` of the `k`-th path.
pub open spec fn prefixes_before(files: Seq<FileChange>, k: int, p: int) -> Set<Seq<char>> {
    Set::new(
        |d: Seq<char>|
            exists|k2: int, p2: int|
                prefix_at(files, k2, p2, d) && (k2 < k || (k2 == k && p2 < p)),
    )
}

/// The number of rows of the file tree: one per file and one per
/// directory.
pub open spec fn tree_node_count(files: Seq<FileChange>) -> int {
    (files.len() + dir_prefixes(files).len()) as int
}

/// Whether `v` holds the characters of `x`.
fn has_chars(v: &Vec<Vec<char>>, x: &Vec<char>) -> (r: bool)
    ensures
        r == v.deep_view().contains(x@),
{
    let mut i: usize = 0;
    while i < v.len()
        invariant
            i <= v.len(),
            forall|j: int| 0 <= j < i ==> v.deep_view()[j] != x@,
        decreases v.len() - i,
    {
        proof {
            crate::complete::lemma_deep_index(*v, i as int);
        }
        if same_chars(&v[i], x) {
            return true;
        }
        i += 1;
    }
    false
}

/// Count total nodes in the file tree (files + directories)
pub fn count_file_tree_nodes(files: &Vec<FileChange>) -> (r: usize)
    ensures
        r == (if tree_node_count(files@) <= usize::MAX {
            tree_node_count(files@)
        } else {
            usize::MAX as int
        }),
{
    let mut dirs: Vec<Vec<char>> = Vec::new();
    let mut k: usize = 0;
    while k < files.len()
        invariant
            k <= files.len(),
            dirs.deep_view().no_duplicates(),
            dirs.deep_view().to_set() == prefixes_before(files@, k as int, 0),
        decreases files.len() - k,
    {
        let path = chars_of(files[k].path.as_str());
        let mut p: usize = 0;
        while p < path.len()
            invariant
                k < files.len(),
                p <= path.len(),
                path@ == files@[k as int].path@,
                dirs.deep_view().no_duplicates(),
                dirs.deep_view().to_set() == prefixes_before(files@, k as int, p as int),
            decreases path.len() - p,
        {
            let ghost before = dirs.deep_view();
            if path[p] == '/' {
                let pre = slice_chars(&path, 0, p);
                proof {
                    assert(pre@ =~= path@.take(p as int));
                    assert(prefix_at(files@, k as int, p as int, pre@));
                }
                if !has_chars(&dirs, &pre) {
                    let ghost bv = dirs@;
                    let ghost pv = pre@;
                    proof {
                        assert forall|i: int| 0 <= i < bv.len() implies before[i] == bv[i]@ by {
                            crate::complete::lemma_deep_index(dirs, i);
                        }
                    }
                    dirs.push(pre);
                    proof {
                        assert forall|i: int| 0 <= i < dirs@.len() implies dirs.deep_view()[i]
                            == before.push(pv)[i] by {
                            crate::complete::lemma_deep_index(dirs, i);
                        }
                        assert(dirs.deep_view() =~= before.push(pv));
                        before.lemma_push_to_set_commute(pv);
                    }
                }
                proof {
                    assert(dirs.deep_view().to_set() =~= prefixes_before(files@, k as int, p + 1));
                }
            } else {
                proof {
                    assert forall|d: Seq<char>| prefixes_before(files@, k as int, p + 1).contains(d)
                        implies prefixes_before(files@, k as int, p as int).contains(d) by {
                        let (k2, p2) = choose|k2: int, p2: int|
                            prefix_at(files@, k2, p2, d) && (k2 < k || (k2 == k && p2 < p + 1));
                        if k2 == k && p2 == p {
                            assert(files@[k as int].path@[p as int] == path@[p as int]);
                        }
                    }
                    assert(prefixes_before(files@, k as int, p + 1) =~= prefixes_before(
                        files@,
                        k as int,
                        p as int,
                    ));
                }
            }
            p += 1;
        }
        proof {
            assert forall|d: Seq<char>| prefixes_before(files@, k + 1, 0).contains(d)
                implies prefixes_before(files@, k as int, p as int).contains(d) by {
                let (k2, p2) = choose|k2: int, p2: int|
                    prefix_at(files@, k2, p2, d) && (k2 < k + 1 || (k2 == k + 1 && p2 < 0));
                assert(prefix_at(files@, k2, p2, d) && (k2 < k || (k2 == k && p2 < p)));
            }
            assert(prefixes_before(files@, k + 1, 0) =~= prefixes_before(
                files@,
                k as int,
                p as int,
            ));
        }
        k += 1;
    }
    proof {
        assert(prefixes_before(files@, files@.len() as int, 0) =~= dir_prefixes(files@));
        dirs.deep_view().unique_seq_to_set();
    }
    files.len().saturating_add(dirs.len())
}


/// `x`, or the largest `usize` when it does not fit.
pub open spec fn saturated(x: int) -> int {
    if x <= usize::MAX {
        x
    } else {
        usize::MAX as int
    }
}

pub(crate) proof fn lemma_hunk_lines_height_nonneg(hunks: Seq<Hunk>, n: int)
    ensures
        hunk_lines_height(hunks, n) >= 0,
    decreases n,
{
    if n > 0 {
        lemma_hunk_lines_height_nonneg(hunks, n - 1);
    }
}

} // verus!
