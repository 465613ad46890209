//! Reading the working tree's status: which side of a changed file (the
//! working tree against the index, the index against the head) a status
//! entry stands for, and the file lists in the order of their paths.

use vstd::prelude::*;
use crate::complete::{lex_le, lex_le_exec};
use crate::repo::{FileStatus, WorktreeFile};
use crate::text::{chars_of, same_chars};

verus! {

broadcast use vstd::string::group_string_axioms;

/// The flags of a status entry that the file lists read.
#[derive(Clone, Copy, PartialEq, Eq, Structural, Debug)]
pub struct EntryFlags {
    pub wt_new: bool,
    pub wt_modified: bool,
    pub wt_deleted: bool,
    pub wt_typechange: bool,
    pub wt_renamed: bool,
    pub index_new: bool,
    pub index_modified: bool,
    pub index_deleted: bool,
    pub index_typechange: bool,
    pub index_renamed: bool,
}

/// The status of the file among the unstaged files, when the working tree
/// differs from the index.
pub open spec fn unstaged_status_of(e: EntryFlags) -> Option<FileStatus> {
    if !(e.wt_new || e.wt_modified || e.wt_deleted || e.wt_typechange || e.wt_renamed) {
        None
    } else if e.wt_new {
        Some(FileStatus::Untracked)
    } else if e.wt_modified {
        Some(FileStatus::Modified)
    } else if e.wt_deleted {
        Some(FileStatus::Deleted)
    } else if e.wt_renamed {
        Some(FileStatus::Renamed)
    } else {
        Some(FileStatus::Typechange)
    }
}

/// The status of the file among the staged files, when the index differs
/// from the head.
pub open spec fn staged_status_of(e: EntryFlags) -> Option<FileStatus> {
    if !(e.index_new || e.index_modified || e.index_deleted || e.index_typechange || e.index_renamed) {
        None
    } else if e.index_new {
        Some(FileStatus::Added)
    } else if e.index_modified {
        Some(FileStatus::Modified)
    } else if e.index_deleted {
        Some(FileStatus::Deleted)
    } else if e.index_renamed {
        Some(FileStatus::Renamed)
    } else {
        Some(FileStatus::Typechange)
    }
}

pub fn unstaged_status(e: &EntryFlags) -> (r: Option<FileStatus>)
    ensures
        r == unstaged_status_of(*e),
{
    if !(e.wt_new || e.wt_modified || e.wt_deleted || e.wt_typechange || e.wt_renamed) {
        None
    } else if e.wt_new {
        Some(FileStatus::Untracked)
    } else if e.wt_modified {
        Some(FileStatus::Modified)
    } else if e.wt_deleted {
        Some(FileStatus::Deleted)
    } else if e.wt_renamed {
        Some(FileStatus::Renamed)
    } else {
        Some(FileStatus::Typechange)
    }
}

pub fn staged_status(e: &EntryFlags) -> (r: Option<FileStatus>)
    ensures
        r == staged_status_of(*e),
{
    if !(e.index_new || e.index_modified || e.index_deleted || e.index_typechange || e.index_renamed) {
        None
    } else if e.index_new {
        Some(FileStatus::Added)
    } else if e.index_modified {
        Some(FileStatus::Modified)
    } else if e.index_deleted {
        Some(FileStatus::Deleted)
    } else if e.index_renamed {
        Some(FileStatus::Renamed)
    } else {
        Some(FileStatus::Typechange)
    }
}

/// `a` comes strictly before `b` in the order of paths.
pub open spec fn path_before(a: WorktreeFile, b: WorktreeFile) -> bool {
    lex_le(a.path@, b.path@) && a.path@ != b.path@
}

/// `x` put into `s` before the first file whose path comes after its own.
pub open spec fn insert_by_path(x: WorktreeFile, s: Seq<WorktreeFile>) -> Seq<WorktreeFile>
    decreases s.len(),
{
    if s.len() == 0 {
        seq![x]
    } else if path_before(x, s[0]) {
        seq![x] + s
    } else {
        seq![s[0]] + insert_by_path(x, s.drop_first())
    }
}

/// The files in the order of their paths, files with the same path in the
/// order they came (a stable sort by path).
pub open spec fn sorted_by_path(s: Seq<WorktreeFile>) -> Seq<WorktreeFile>
    decreases s.len(),
{
    if s.len() == 0 {
        Seq::empty()
    } else {
        insert_by_path(s.last(), sorted_by_path(s.drop_last()))
    }
}

proof fn lemma_insert_at(x: WorktreeFile, s: Seq<WorktreeFile>, p: int)
    requires
        0 <= p <= s.len(),
        forall|k: int| 0 <= k < p ==> !path_before(x, #[trigger] s[k]),
        p < s.len() ==> path_before(x, s[p]),
    ensures
        insert_by_path(x, s) == s.take(p).push(x) + s.skip(p),
    decreases p,
{
    if s.len() == 0 {
        assert(s.take(p).push(x) + s.skip(p) =~= seq![x]);
    } else if p == 0 {
        assert(s.take(0).push(x) + s.skip(0) =~= seq![x] + s);
    } else {
        let t = s.drop_first();
        assert forall|k: int| 0 <= k < p - 1 implies !path_before(x, #[trigger] t[k]) by {
            assert(t[k] == s[k + 1]);
        }
        lemma_insert_at(x, t, p - 1);
        assert(seq![s[0]] + (t.take(p - 1).push(x) + t.skip(p - 1)) =~= s.take(p).push(x) + s.skip(p));
    }
}

fn path_before_exec(a: &WorktreeFile, b: &WorktreeFile) -> (r: bool)
    ensures
        r == path_before(*a, *b),
{
    let pa = chars_of(a.path.as_str());
    let pb = chars_of(b.path.as_str());
    lex_le_exec(&pa, &pb) && !same_chars(&pa, &pb)
}

/// The files sorted by path, stably.
pub fn sort_by_path(files: Vec<WorktreeFile>) -> (r: Vec<WorktreeFile>)
    ensures
        r@ == sorted_by_path(files@),
{
    let ghost all = files@;
    let n = files.len();
    let mut rest = files;
    let mut r: Vec<WorktreeFile> = Vec::new();
    let mut i: usize = 0;
    proof {
        assert(all.take(0) =~= Seq::<WorktreeFile>::empty());
        assert(all.skip(0) =~= all);
    }
    while i < n
        invariant
            n == all.len(),
            i <= n,
            rest@ == all.skip(i as int),
            r@ == sorted_by_path(all.take(i as int)),
        decreases n - i,
    {
        let x = rest.remove(0);
        proof {
            assert(x == all[i as int]);
            assert(rest@ =~= all.skip(i + 1));
        }
        let mut p: usize = 0;
        while p < r.len() && !path_before_exec(&x, &r[p])
            invariant
                p <= r@.len(),
                forall|k: int| 0 <= k < p ==> !path_before(x, #[trigger] r@[k]),
            decreases r.len() - p,
        {
            p += 1;
        }
        proof {
            lemma_insert_at(x, r@, p as int);
            assert(all.take(i + 1).drop_last() =~= all.take(i as int));
            assert(all.take(i + 1).last() == x);
        }
        let ghost before = r@;
        r.insert(p, x);
        proof {
            assert(r@ =~= before.take(p as int).push(x) + before.skip(p as int));
        }
        i += 1;
    }
    proof {
        assert(all.take(n as int) =~= all);
    }
    r
}

proof fn lemma_lex_total(a: Seq<char>, b: Seq<char>)
    ensures
        lex_le(a, b) || lex_le(b, a),
    decreases a.len(),
{
    if a.len() > 0 && b.len() > 0 && a[0] == b[0] {
        lemma_lex_total(a.drop_first(), b.drop_first());
    }
}

proof fn lemma_lex_trans(a: Seq<char>, b: Seq<char>, c: Seq<char>)
    requires
        lex_le(a, b),
        lex_le(b, c),
    ensures
        lex_le(a, c),
    decreases a.len(),
{
    if a.len() > 0 && b.len() > 0 && c.len() > 0 && a[0] == b[0] && b[0] == c[0] {
        lemma_lex_trans(a.drop_first(), b.drop_first(), c.drop_first());
    }
}

/// Every file's path comes no later than the paths after it.
pub open spec fn ordered_by_path(s: Seq<WorktreeFile>) -> bool {
    forall|i: int, j: int| 0 <= i < j < s.len() ==> lex_le(#[trigger] s[i].path@, #[trigger] s[j].path@)
}

proof fn lemma_insert_ordered(x: WorktreeFile, s: Seq<WorktreeFile>)
    requires
        ordered_by_path(s),
    ensures
        ordered_by_path(insert_by_path(x, s)),
        insert_by_path(x, s).len() == s.len() + 1,
        forall|k: int| 0 <= k < insert_by_path(x, s).len() ==> (#[trigger] insert_by_path(x, s)[k] == x
            || s.contains(insert_by_path(x, s)[k])),
    decreases s.len(),
{
    let r = insert_by_path(x, s);
    if s.len() == 0 {
    } else if path_before(x, s[0]) {
        assert forall|i: int, j: int| 0 <= i < j < r.len() implies lex_le(#[trigger] r[i].path@, #[trigger] r[j].path@) by {
            if i == 0 {
                assert(r[j] == s[j - 1]);
                if j - 1 > 0 {
                    lemma_lex_trans(x.path@, s[0].path@, s[j - 1].path@);
                }
            } else {
                assert(r[i] == s[i - 1] && r[j] == s[j - 1]);
            }
        }
        assert forall|k: int| 0 <= k < r.len() implies (#[trigger] r[k] == x || s.contains(r[k])) by {
            if k > 0 {
                assert(r[k] == s[k - 1]);
            }
        }
    } else {
        let t = s.drop_first();
        assert(ordered_by_path(t)) by {
            assert forall|i: int, j: int| 0 <= i < j < t.len() implies lex_le(#[trigger] t[i].path@, #[trigger] t[j].path@) by {
                assert(t[i] == s[i + 1] && t[j] == s[j + 1]);
            }
        }
        lemma_insert_ordered(x, t);
        let it = insert_by_path(x, t);
        assert(r == seq![s[0]] + it);
        lemma_lex_total(x.path@, s[0].path@);
        assert(lex_le(s[0].path@, x.path@));
        assert forall|i: int, j: int| 0 <= i < j < r.len() implies lex_le(#[trigger] r[i].path@, #[trigger] r[j].path@) by {
            if i == 0 {
                assert(r[j] == it[j - 1]);
                if it[j - 1] != x {
                    assert(t.contains(it[j - 1]));
                    let m = choose|m: int| 0 <= m < t.len() && t[m] == it[j - 1];
                    assert(s[m + 1] == t[m]);
                }
            } else {
                assert(r[i] == it[i - 1] && r[j] == it[j - 1]);
            }
        }
        assert forall|k: int| 0 <= k < r.len() implies (#[trigger] r[k] == x || s.contains(r[k])) by {
            if k > 0 {
                assert(r[k] == it[k - 1]);
                if it[k - 1] != x {
                    assert(t.contains(it[k - 1]));
                    let m = choose|m: int| 0 <= m < t.len() && t[m] == it[k - 1];
                    assert(s[m + 1] == t[m]);
                }
            } else {
                assert(s.contains(s[0]));
            }
        }
    }
}

/// The file lists come out in the order of their paths, as many files as
/// went in.
pub proof fn law_sorted_files_ordered(s: Seq<WorktreeFile>)
    ensures
        ordered_by_path(sorted_by_path(s)),
        sorted_by_path(s).len() == s.len(),
    decreases s.len(),
{
    if s.len() > 0 {
        law_sorted_files_ordered(s.drop_last());
        lemma_insert_ordered(s.last(), sorted_by_path(s.drop_last()));
    }
}

} // verus!
