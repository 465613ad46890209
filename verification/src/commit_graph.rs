//! The lane graph drawn beside the commit list.
//!
//! Commits come newest first. Each lane tracks the id of a commit still to
//! be drawn; a commit takes the leftmost lane already waiting for it (or a
//! free one), lanes waiting for it elsewhere converge into it, its first
//! parent continues in its lane and its other parents fork new lanes.

use vstd::prelude::*;
use crate::repo::Commit;
use crate::sha::{same_option, same_sha, Sha};

verus! {

/// One character of a graph row with the lane it is coloured by.
pub type Cell = (char, Option<usize>);

// ---------------------------------------------------------------------------
// Specification
// ---------------------------------------------------------------------------

pub open spec fn as_ints(v: Seq<usize>) -> Seq<int> {
    v.map_values(|x: usize| x as int)
}

/// The rows of a graph as sequences of cells.
pub open spec fn rows_view(rows: Seq<Vec<Cell>>) -> Seq<Seq<Cell>> {
    rows.map_values(|r: Vec<Cell>| r@)
}

/// The indices below `n` at which `lanes` holds `target`, in order.
pub open spec fn positions(lanes: Seq<Option<Sha>>, target: Option<Sha>, n: int) -> Seq<int>
    decreases n,
{
    if n <= 0 {
        Seq::empty()
    } else {
        let r = positions(lanes, target, n - 1);
        if lanes[n - 1] == target {
            r.push(n - 1)
        } else {
            r
        }
    }
}

/// All the indices at which `lanes` holds `target`, in order.
pub open spec fn holding(lanes: Seq<Option<Sha>>, target: Option<Sha>) -> Seq<int> {
    positions(lanes, target, lanes.len() as int)
}

/// The lane a newly tracked id goes to: the first free lane, or a new
/// lane past the last one.
pub open spec fn free_lane(lanes: Seq<Option<Sha>>) -> int {
    let f = holding(lanes, None);
    if f.len() > 0 {
        f[0]
    } else {
        lanes.len() as int
    }
}

/// `lanes` with `v` put at `idx`, which is an existing lane or the next one.
pub open spec fn place(lanes: Seq<Option<Sha>>, idx: int, v: Option<Sha>) -> Seq<Option<Sha>> {
    if idx < lanes.len() {
        lanes.update(idx, v)
    } else {
        lanes.push(v)
    }
}

/// The lane a commit is drawn in: the leftmost lane waiting for it, or a
/// free lane when none is.
pub open spec fn commit_lane(lanes: Seq<Option<Sha>>, sha: Sha) -> int {
    let h = holding(lanes, Some(sha));
    if h.len() > 0 {
        h[0]
    } else {
        free_lane(lanes)
    }
}

/// The lanes once the commit has its lane.
pub open spec fn claimed(lanes: Seq<Option<Sha>>, sha: Sha) -> Seq<Option<Sha>> {
    if holding(lanes, Some(sha)).len() > 0 {
        lanes
    } else {
        place(lanes, free_lane(lanes), Some(sha))
    }
}

/// The other lanes that were waiting for the commit: they converge into it.
pub open spec fn converging(lanes: Seq<Option<Sha>>, sha: Sha) -> Seq<int> {
    let h = holding(lanes, Some(sha));
    if h.len() > 0 {
        h.drop_first()
    } else {
        Seq::empty()
    }
}

/// The index of the first of the first `n` commits with id `id`.
pub open spec fn first_commit(commits: Seq<Commit>, id: Sha, n: int) -> Option<int>
    decreases n,
{
    if n <= 0 {
        None
    } else {
        match first_commit(commits, id, n - 1) {
            Some(k) => Some(k),
            None => if commits[n - 1].sha == id {
                Some(n - 1)
            } else {
                None
            },
        }
    }
}

/// Whether the commit that lane `id` waits for has `sha` as its first
/// parent.
pub open spec fn first_parent_is(commits: Seq<Commit>, id: Sha, sha: Sha) -> bool {
    match first_commit(commits, id, commits.len() as int) {
        Some(k) => commits[k].parent_shas@.len() > 0 && commits[k].parent_shas@[0] == sha,
        None => false,
    }
}

/// Lanes below `n`, other than the commit's own and the converging ones,
/// whose commit has this commit as its first parent: they merge into it.
pub open spec fn merging_upto(
    lanes: Seq<Option<Sha>>,
    clane: int,
    conv: Seq<int>,
    commits: Seq<Commit>,
    sha: Sha,
    n: int,
) -> Seq<int>
    decreases n,
{
    if n <= 0 {
        Seq::empty()
    } else {
        let r = merging_upto(lanes, clane, conv, commits, sha, n - 1);
        let i = n - 1;
        if i != clane && !conv.contains(i) && lanes[i] is Some && first_parent_is(
            commits,
            lanes[i]->0,
            sha,
        ) {
            r.push(i)
        } else {
            r
        }
    }
}

/// The first lane other than `clane` that holds `v`.
pub open spec fn other_lane_holding(lanes: Seq<Option<Sha>>, v: Option<Sha>, clane: int) -> Option<
    int,
> {
    let h = holding(lanes, v);
    if h.len() > 0 && h[0] != clane {
        Some(h[0])
    } else if h.len() > 1 {
        Some(h[1])
    } else {
        None
    }
}

/// Placing the parents after the first, `parents[1..k)`: each parent
/// already tracked in another lane merges from there (`existing`), every
/// other one forks a lane (`fresh`). Gives the lanes, `fresh`, `existing`.
pub open spec fn allocate(lanes: Seq<Option<Sha>>, clane: int, parents: Seq<Sha>, k: int) -> (
    Seq<Option<Sha>>,
    Seq<int>,
    Seq<int>,
)
    decreases k,
{
    if k <= 1 {
        (lanes, Seq::empty(), Seq::empty())
    } else {
        let (t, fresh, existing) = allocate(lanes, clane, parents, k - 1);
        let p = parents[k - 1];
        match other_lane_holding(t, Some(p), clane) {
            Some(i) => (t, fresh, existing.push(i)),
            None => {
                let f = free_lane(t);
                (place(t, f, Some(p)), fresh.push(f), existing)
            },
        }
    }
}

/// The least of `d` and the elements of `s`.
pub open spec fn seq_min(s: Seq<int>, d: int) -> int
    decreases s.len(),
{
    if s.len() == 0 {
        d
    } else {
        let m = seq_min(s.drop_last(), d);
        if s.last() < m { s.last() } else { m }
    }
}

/// The greatest of `d` and the elements of `s`.
pub open spec fn seq_max(s: Seq<int>, d: int) -> int
    decreases s.len(),
{
    if s.len() == 0 {
        d
    } else {
        let m = seq_max(s.drop_last(), d);
        if s.last() > m { s.last() } else { m }
    }
}

/// Everything one commit's row is drawn from.
pub struct RowPlan {
    /// The lanes once the commit has its lane.
    pub lanes: Seq<Option<Sha>>,
    /// The commit's lane.
    pub clane: int,
    /// The lanes converging into the commit.
    pub conv: Seq<int>,
    /// The lanes merging into the commit, converging ones last.
    pub merging: Seq<int>,
    /// The lanes forked for parents after the first.
    pub fresh: Seq<int>,
    /// The lanes of parents after the first that were already tracked.
    pub existing: Seq<int>,
    /// The leftmost and rightmost lane that the row connects.
    pub lo: int,
    pub hi: int,
    /// How many cells the row has.
    pub width: int,
}

pub open spec fn plan(lanes0: Seq<Option<Sha>>, commit: Commit, commits: Seq<Commit>) -> RowPlan {
    let sha = commit.sha;
    let clane = commit_lane(lanes0, sha);
    let lanes = claimed(lanes0, sha);
    let conv = converging(lanes0, sha);
    let merging = merging_upto(lanes, clane, conv, commits, sha, lanes.len() as int) + conv;
    let alloc = allocate(lanes, clane, commit.parent_shas@, commit.parent_shas@.len() as int);
    let all = merging + alloc.1 + alloc.2;
    RowPlan {
        lanes,
        clane,
        conv,
        merging,
        fresh: alloc.1,
        existing: alloc.2,
        lo: seq_min(all, clane),
        hi: seq_max(all, clane),
        width: if alloc.0.len() > lanes.len() {
            alloc.0.len() as int
        } else {
            lanes.len() as int
        },
    }
}

/// Whether lane `i` of the claimed lanes is occupied.
pub open spec fn occupied(lanes: Seq<Option<Sha>>, i: int) -> bool {
    0 <= i < lanes.len() && lanes[i] is Some
}

/// The cell drawn at position `i` of a commit's row.
pub open spec fn cell(p: RowPlan, i: int) -> Cell {
    if i == p.clane {
        ('●', Some(i as usize))
    } else if p.merging.contains(i) {
        (if i < p.clane { '╰' } else { '╯' }, Some(i as usize))
    } else if p.fresh.contains(i) {
        (if i < p.clane { '╭' } else { '╮' }, Some(i as usize))
    } else if p.existing.contains(i) {
        (if i < p.clane { '├' } else { '┤' }, Some(i as usize))
    } else if p.lo < i < p.hi {
        if occupied(p.lanes, i) {
            ('┼', Some(i as usize))
        } else {
            ('─', None)
        }
    } else if occupied(p.lanes, i) {
        ('│', Some(i as usize))
    } else {
        (' ', None)
    }
}

/// The row drawn for a commit.
pub open spec fn row(p: RowPlan) -> Seq<Cell> {
    Seq::new(p.width as nat, |i: int| cell(p, i))
}

/// `l` padded with free lanes up to length `n`.
pub open spec fn pad(l: Seq<Option<Sha>>, n: int) -> Seq<Option<Sha>> {
    if l.len() >= n {
        l
    } else {
        l + Seq::new((n - l.len()) as nat, |i: int| None)
    }
}

/// Forked lanes take the parents after the first, the `i`-th forked lane
/// the `(i + 1)`-th parent, for the first `n` forked lanes.
pub open spec fn assign_forks(l: Seq<Option<Sha>>, fresh: Seq<int>, parents: Seq<Sha>, n: int) -> Seq<
    Option<Sha>,
>
    decreases n,
{
    if n <= 0 {
        l
    } else {
        let prev = assign_forks(l, fresh, parents, n - 1);
        let idx = n - 1;
        if idx + 1 < parents.len() {
            pad(prev, fresh[idx] + 1).update(fresh[idx], Some(parents[idx + 1]))
        } else {
            prev
        }
    }
}

/// `l` without its free lanes at the end.
pub open spec fn trim_free(l: Seq<Option<Sha>>) -> Seq<Option<Sha>>
    decreases l.len(),
{
    if l.len() > 0 && l.last() is None {
        trim_free(l.drop_last())
    } else {
        l
    }
}

/// The first parent of a commit, if it has one.
pub open spec fn first_parent(commit: Commit) -> Option<Sha> {
    if commit.parent_shas@.len() > 0 {
        Some(commit.parent_shas@[0])
    } else {
        None
    }
}

/// The lanes after a commit is drawn: converging lanes end, the commit's
/// lane waits for its first parent, forked lanes wait for the others, and
/// free lanes at the end are dropped.
pub open spec fn next_lanes(p: RowPlan, commit: Commit) -> Seq<Option<Sha>> {
    let cleared = Seq::new(
        p.lanes.len(),
        |i: int|
            if p.conv.contains(i) {
                None
            } else {
                p.lanes[i]
            },
    );
    trim_free(
        assign_forks(
            cleared.update(p.clane, first_parent(commit)),
            p.fresh,
            commit.parent_shas@,
            p.fresh.len() as int,
        ),
    )
}

/// The rows for the first `k` commits and the lanes after them.
pub open spec fn graph_upto(commits: Seq<Commit>, k: int) -> (Seq<Seq<Cell>>, Seq<Option<Sha>>)
    decreases k,
{
    if k <= 0 {
        (Seq::empty(), Seq::empty())
    } else {
        let (rows, lanes) = graph_upto(commits, k - 1);
        let p = plan(lanes, commits[k - 1], commits);
        (rows.push(row(p)), next_lanes(p, commits[k - 1]))
    }
}

/// The graph rows for a commit list, one per commit.
pub open spec fn graph(commits: Seq<Commit>) -> Seq<Seq<Cell>> {
    graph_upto(commits, commits.len() as int).0
}

// ---------------------------------------------------------------------------
// Implementation
// ---------------------------------------------------------------------------

proof fn lemma_positions_bounds(lanes: Seq<Option<Sha>>, target: Option<Sha>, n: int)
    requires
        0 <= n <= lanes.len(),
    ensures
        forall|j: int|
            0 <= j < positions(lanes, target, n).len() ==> 0 <= #[trigger] positions(
                lanes,
                target,
                n,
            )[j] < n && lanes[positions(lanes, target, n)[j]] == target,
        forall|j: int, k: int|
            0 <= j < k < positions(lanes, target, n).len() ==> #[trigger] positions(
                lanes,
                target,
                n,
            )[j] < #[trigger] positions(lanes, target, n)[k],
        forall|i: int|
            0 <= i < n && lanes[i] == target ==> #[trigger] positions(lanes, target, n).contains(i),
    decreases n,
{
    if n > 0 {
        lemma_positions_bounds(lanes, target, n - 1);
        let r = positions(lanes, target, n - 1);
        if lanes[n - 1] == target {
            assert forall|i: int| 0 <= i < n && lanes[i] == target implies #[trigger] r.push(
                n - 1,
            ).contains(i) by {
                if i < n - 1 {
                    assert(r.contains(i));
                    let j = choose|j: int| 0 <= j < r.len() && r[j] == i;
                    assert(r.push(n - 1)[j] == i);
                } else {
                    assert(r.push(n - 1)[r.len() as int] == i);
                }
            }
        }
    }
}

/// The indices at which `lanes` holds `target`, in order.
fn positions_of(lanes: &Vec<Option<Sha>>, target: &Option<Sha>) -> (r: Vec<usize>)
    ensures
        as_ints(r@) == holding(lanes@, *target),
{
    let mut r: Vec<usize> = Vec::new();
    let mut i: usize = 0;
    while i < lanes.len()
        invariant
            i <= lanes.len(),
            as_ints(r@) == positions(lanes@, *target, i as int),
        decreases lanes.len() - i,
    {
        if same_option(&lanes[i], target) {
            r.push(i);
            proof {
                assert(as_ints(r@) =~= positions(lanes@, *target, i as int).push(i as int));
            }
        }
        i += 1;
    }
    r
}

/// The lane a newly tracked id goes to.
fn free_lane_of(lanes: &Vec<Option<Sha>>) -> (r: usize)
    ensures
        r as int == free_lane(lanes@),
        r <= lanes.len(),
{
    let f = positions_of(lanes, &None);
    proof {
        lemma_positions_bounds(lanes@, None, lanes@.len() as int);
    }
    if f.len() > 0 {
        proof {
            assert(as_ints(f@)[0] == f@[0] as int);
        }
        f[0]
    } else {
        lanes.len()
    }
}

/// Puts `v` at `idx`, an existing lane or the next one.
fn place_at(lanes: &mut Vec<Option<Sha>>, idx: usize, v: Option<Sha>)
    requires
        idx <= old(lanes).len(),
    ensures
        final(lanes)@ == place(old(lanes)@, idx as int, v),
{
    if idx < lanes.len() {
        lanes.set(idx, v);
    } else {
        lanes.push(v);
    }
}

/// Whether `x` is among the indices `v`.
fn has_index(v: &Vec<usize>, x: usize) -> (r: bool)
    ensures
        r == as_ints(v@).contains(x as int),
{
    let mut i: usize = 0;
    while i < v.len()
        invariant
            i <= v.len(),
            forall|k: int| 0 <= k < i ==> v@[k] != x,
        decreases v.len() - i,
    {
        if v[i] == x {
            proof {
                assert(as_ints(v@)[i as int] == x as int);
            }
            return true;
        }
        i += 1;
    }
    proof {
        if as_ints(v@).contains(x as int) {
            let k = choose|k: int| 0 <= k < as_ints(v@).len() && as_ints(v@)[k] == x as int;
            assert(v@[k] == x);
        }
    }
    false
}

/// The index of the first commit with id `id`.
pub fn first_commit_index(commits: &Vec<Commit>, id: &Sha) -> (r: Option<usize>)
    ensures
        match r {
            Some(k) => k < commits@.len() && first_commit(commits@, *id, commits@.len() as int)
                == Some(k as int),
            None => first_commit(commits@, *id, commits@.len() as int) is None,
        },
{
    let mut i: usize = 0;
    while i < commits.len()
        invariant
            i <= commits.len(),
            first_commit(commits@, *id, i as int) is None,
        decreases commits.len() - i,
    {
        if same_sha(&commits[i].sha, id) {
            proof {
                lemma_first_commit_stable(commits@, *id, i + 1, commits@.len() as int);
            }
            return Some(i);
        }
        i += 1;
    }
    None
}

proof fn lemma_first_commit_stable(commits: Seq<Commit>, id: Sha, m: int, n: int)
    requires
        0 <= m <= n,
        first_commit(commits, id, m) is Some,
    ensures
        first_commit(commits, id, n) == first_commit(commits, id, m),
    decreases n - m,
{
    if n > m {
        lemma_first_commit_stable(commits, id, m, n - 1);
    }
}

/// The lanes merging into the commit: those whose commit has it as first
/// parent, then the converging ones.
fn merging_lanes(
    lanes: &Vec<Option<Sha>>,
    clane: usize,
    conv: &Vec<usize>,
    commits: &Vec<Commit>,
    sha: &Sha,
) -> (r: Vec<usize>)
    ensures
        as_ints(r@) == merging_upto(
            lanes@,
            clane as int,
            as_ints(conv@),
            commits@,
            *sha,
            lanes@.len() as int,
        ) + as_ints(conv@),
{
    let mut r: Vec<usize> = Vec::new();
    let mut i: usize = 0;
    while i < lanes.len()
        invariant
            i <= lanes.len(),
            as_ints(r@) == merging_upto(
                lanes@,
                clane as int,
                as_ints(conv@),
                commits@,
                *sha,
                i as int,
            ),
        decreases lanes.len() - i,
    {
        if i != clane && !has_index(conv, i) {
            if let Some(id) = &lanes[i] {
                if let Some(k) = first_commit_index(commits, id) {
                    let parents = &commits[k].parent_shas;
                    if parents.len() > 0 && same_sha(&parents[0], sha) {
                        r.push(i);
                        proof {
                            assert(as_ints(r@) =~= merging_upto(
                                lanes@,
                                clane as int,
                                as_ints(conv@),
                                commits@,
                                *sha,
                                i as int,
                            ).push(i as int));
                        }
                    }
                }
            }
        }
        i += 1;
    }
    let mut j: usize = 0;
    let ghost base = as_ints(r@);
    while j < conv.len()
        invariant
            j <= conv.len(),
            as_ints(r@) == base + as_ints(conv@).take(j as int),
        decreases conv.len() - j,
    {
        let ghost old_r = r@;
        r.push(conv[j]);
        proof {
            assert(as_ints(r@) =~= as_ints(old_r).push(conv@[j as int] as int));
            assert(as_ints(conv@).take(j + 1) =~= as_ints(conv@).take(j as int).push(
                conv@[j as int] as int,
            ));
            assert(as_ints(r@) =~= base + as_ints(conv@).take(j + 1));
        }
        j += 1;
    }
    proof {
        assert(as_ints(conv@).take(conv@.len() as int) =~= as_ints(conv@));
    }
    r
}

/// Places the parents after the first: gives the forked lanes and the
/// lanes of parents already tracked.
fn allocate_parents(temp: &mut Vec<Option<Sha>>, clane: usize, parents: &Vec<Sha>) -> (r: (
    Vec<usize>,
    Vec<usize>,
))
    ensures
        (final(temp)@, as_ints(r.0@), as_ints(r.1@)) == allocate(
            old(temp)@,
            clane as int,
            parents@,
            parents@.len() as int,
        ),
{
    let ghost orig = temp@;
    let mut fresh: Vec<usize> = Vec::new();
    let mut existing: Vec<usize> = Vec::new();
    if parents.len() <= 1 {
        proof {
            assert(as_ints(fresh@) =~= Seq::<int>::empty());
            assert(as_ints(existing@) =~= Seq::<int>::empty());
        }
        return (fresh, existing);
    }
    let mut k: usize = 1;
    proof {
        assert(as_ints(fresh@) =~= Seq::<int>::empty());
        assert(as_ints(existing@) =~= Seq::<int>::empty());
    }
    while k < parents.len()
        invariant
            1 <= k <= parents.len(),
            (temp@, as_ints(fresh@), as_ints(existing@)) == allocate(
                orig,
                clane as int,
                parents@,
                k as int,
            ),
        decreases parents.len() - k,
    {
        let p = parents[k];
        let h = positions_of(temp, &Some(p));
        proof {
            lemma_positions_bounds(temp@, Some(p), temp@.len() as int);
        }
        let other: Option<usize> = if h.len() > 0 && h[0] != clane {
            Some(h[0])
        } else if h.len() > 1 {
            Some(h[1])
        } else {
            None
        };
        proof {
            if h@.len() > 0 {
                assert(as_ints(h@)[0] == h@[0] as int);
            }
            if h@.len() > 1 {
                assert(as_ints(h@)[1] == h@[1] as int);
            }
        }
        match other {
            Some(i) => {
                existing.push(i);
                proof {
                    assert(as_ints(existing@) =~= allocate(
                        orig,
                        clane as int,
                        parents@,
                        k as int,
                    ).2.push(i as int));
                }
            },
            None => {
                let f = free_lane_of(temp);
                place_at(temp, f, Some(p));
                fresh.push(f);
                proof {
                    assert(as_ints(fresh@) =~= allocate(
                        orig,
                        clane as int,
                        parents@,
                        k as int,
                    ).1.push(f as int));
                }
            },
        }
        k += 1;
    }
    (fresh, existing)
}

/// The least of `d` and the elements of `v`.
fn min_index(v: &Vec<usize>, d: usize) -> (r: usize)
    ensures
        r as int == seq_min(as_ints(v@), d as int),
{
    let mut m = d;
    let mut i: usize = 0;
    while i < v.len()
        invariant
            i <= v.len(),
            m as int == seq_min(as_ints(v@).take(i as int), d as int),
        decreases v.len() - i,
    {
        proof {
            assert(as_ints(v@).take(i + 1).drop_last() =~= as_ints(v@).take(i as int));
        }
        if v[i] < m {
            m = v[i];
        }
        i += 1;
    }
    proof {
        assert(as_ints(v@).take(v@.len() as int) =~= as_ints(v@));
    }
    m
}

/// The greatest of `d` and the elements of `v`.
fn max_index(v: &Vec<usize>, d: usize) -> (r: usize)
    ensures
        r as int == seq_max(as_ints(v@), d as int),
{
    let mut m = d;
    let mut i: usize = 0;
    while i < v.len()
        invariant
            i <= v.len(),
            m as int == seq_max(as_ints(v@).take(i as int), d as int),
        decreases v.len() - i,
    {
        proof {
            assert(as_ints(v@).take(i + 1).drop_last() =~= as_ints(v@).take(i as int));
        }
        if v[i] > m {
            m = v[i];
        }
        i += 1;
    }
    proof {
        assert(as_ints(v@).take(v@.len() as int) =~= as_ints(v@));
    }
    m
}

/// Three index lists one after the other.
fn concat3(a: &Vec<usize>, b: &Vec<usize>, c: &Vec<usize>) -> (r: Vec<usize>)
    ensures
        as_ints(r@) == as_ints(a@) + as_ints(b@) + as_ints(c@),
{
    let mut r: Vec<usize> = Vec::new();
    let mut i: usize = 0;
    while i < a.len()
        invariant
            i <= a.len(),
            r@ == a@.take(i as int),
        decreases a.len() - i,
    {
        r.push(a[i]);
        proof {
            assert(a@.take(i + 1) =~= a@.take(i as int).push(a@[i as int]));
        }
        i += 1;
    }
    let mut i: usize = 0;
    while i < b.len()
        invariant
            i <= b.len(),
            r@ == a@ + b@.take(i as int),
        decreases b.len() - i,
    {
        r.push(b[i]);
        proof {
            assert(b@.take(i + 1) =~= b@.take(i as int).push(b@[i as int]));
            assert(a@ + b@.take(i + 1) =~= (a@ + b@.take(i as int)).push(b@[i as int]));
        }
        i += 1;
    }
    let mut i: usize = 0;
    while i < c.len()
        invariant
            i <= c.len(),
            r@ == a@ + b@ + c@.take(i as int),
        decreases c.len() - i,
    {
        r.push(c[i]);
        proof {
            assert(c@.take(i + 1) =~= c@.take(i as int).push(c@[i as int]));
            assert(a@ + b@ + c@.take(i + 1) =~= (a@ + b@ + c@.take(i as int)).push(c@[i as int]));
        }
        i += 1;
    }
    proof {
        assert(a@.take(a@.len() as int) =~= a@);
        assert(b@.take(b@.len() as int) =~= b@);
        assert(c@.take(c@.len() as int) =~= c@);
        assert(as_ints(r@) =~= as_ints(a@) + as_ints(b@) + as_ints(c@));
    }
    r
}

/// The cell at position `i` of the row planned by `p`.
fn cell_at(
    i: usize,
    clane: usize,
    merging: &Vec<usize>,
    fresh: &Vec<usize>,
    existing: &Vec<usize>,
    lo: usize,
    hi: usize,
    lanes: &Vec<Option<Sha>>,
    Ghost(p): Ghost<RowPlan>,
) -> (c: Cell)
    requires
        p.clane == clane,
        p.merging == as_ints(merging@),
        p.fresh == as_ints(fresh@),
        p.existing == as_ints(existing@),
        p.lo == lo,
        p.hi == hi,
        p.lanes == lanes@,
    ensures
        c == cell(p, i as int),
{
    let occupied = i < lanes.len() && lanes[i].is_some();
    if i == clane {
        ('●', Some(i))
    } else if has_index(merging, i) {
        (if i < clane { '╰' } else { '╯' }, Some(i))
    } else if has_index(fresh, i) {
        (if i < clane { '╭' } else { '╮' }, Some(i))
    } else if has_index(existing, i) {
        (if i < clane { '├' } else { '┤' }, Some(i))
    } else if lo < i && i < hi {
        if occupied {
            ('┼', Some(i))
        } else {
            ('─', None)
        }
    } else if occupied {
        ('│', Some(i))
    } else {
        (' ', None)
    }
}

/// A copy of the lanes.
fn copy_lanes(lanes: &Vec<Option<Sha>>) -> (r: Vec<Option<Sha>>)
    ensures
        r@ == lanes@,
{
    let mut r: Vec<Option<Sha>> = Vec::new();
    let mut i: usize = 0;
    while i < lanes.len()
        invariant
            i <= lanes.len(),
            r@ == lanes@.take(i as int),
        decreases lanes.len() - i,
    {
        let v: Option<Sha> = match &lanes[i] {
            Some(x) => Some(*x),
            None => None,
        };
        r.push(v);
        proof {
            assert(lanes@.take(i + 1) =~= lanes@.take(i as int).push(lanes@[i as int]));
        }
        i += 1;
    }
    proof {
        assert(lanes@.take(lanes@.len() as int) =~= lanes@);
    }
    r
}

/// Frees the converging lanes.
fn clear_lanes(lanes: &mut Vec<Option<Sha>>, conv: &Vec<usize>)
    requires
        forall|j: int| 0 <= j < conv@.len() ==> #[trigger] conv@[j] < old(lanes)@.len(),
    ensures
        final(lanes)@ == Seq::new(
            old(lanes)@.len(),
            |i: int|
                if as_ints(conv@).contains(i) {
                    None
                } else {
                    old(lanes)@[i]
                },
        ),
{
    let ghost orig = lanes@;
    let mut j: usize = 0;
    proof {
        assert(lanes@ =~= Seq::new(
            orig.len(),
            |i: int|
                if as_ints(conv@).take(0).contains(i) {
                    None
                } else {
                    orig[i]
                },
        ));
    }
    while j < conv.len()
        invariant
            j <= conv.len(),
            forall|k: int| 0 <= k < conv@.len() ==> #[trigger] conv@[k] < orig.len(),
            lanes@ == Seq::new(
                orig.len(),
                |i: int|
                    if as_ints(conv@).take(j as int).contains(i) {
                        None
                    } else {
                        orig[i]
                    },
            ),
        decreases conv.len() - j,
    {
        let idx = conv[j];
        let ghost old_l = lanes@;
        lanes.set(idx, None);
        proof {
            let a = as_ints(conv@);
            assert(a.take(j + 1) =~= a.take(j as int).push(idx as int));
            assert forall|i: int| 0 <= i < orig.len() implies (a.take(j + 1).contains(i) <==> (
            a.take(j as int).contains(i) || i == idx as int)) by {
                if a.take(j + 1).contains(i) {
                    let t = a.take(j + 1);
                    let k = choose|k: int| 0 <= k < t.len() && #[trigger] t[k] == i;
                    if k < j {
                        assert(a.take(j as int)[k] == i);
                    }
                }
                if a.take(j as int).contains(i) {
                    let t = a.take(j as int);
                    let k = choose|k: int| 0 <= k < t.len() && #[trigger] t[k] == i;
                    assert(a.take(j + 1)[k] == i);
                }
                if i == idx as int {
                    assert(a.take(j + 1)[j as int] == i);
                }
            }
            assert forall|i: int| 0 <= i < orig.len() implies lanes@[i] == (if a.take(
                j + 1,
            ).contains(i) {
                None
            } else {
                orig[i]
            }) by {
                assert(a.take(j + 1).contains(i) <==> (a.take(j as int).contains(i) || i
                    == idx as int));
                assert(old_l[i] == (if a.take(j as int).contains(i) {
                    None
                } else {
                    orig[i]
                }));
                if i != idx as int {
                    assert(lanes@[i] == old_l[i]);
                }
            }
            assert(lanes@ =~= Seq::new(
                orig.len(),
                |i: int|
                    if a.take(j + 1).contains(i) {
                        None
                    } else {
                        orig[i]
                    },
            ));
        }
        j += 1;
    }
    proof {
        assert(as_ints(conv@).take(conv@.len() as int) =~= as_ints(conv@));
    }
}

/// Gives each forked lane its parent.
fn assign_fork_lanes(lanes: &mut Vec<Option<Sha>>, fresh: &Vec<usize>, parents: &Vec<Sha>)
    ensures
        final(lanes)@ == assign_forks(old(lanes)@, as_ints(fresh@), parents@, fresh@.len() as int),
{
    let ghost orig = lanes@;
    let mut idx: usize = 0;
    while idx < fresh.len()
        invariant
            idx <= fresh.len(),
            lanes@ == assign_forks(orig, as_ints(fresh@), parents@, idx as int),
        decreases fresh.len() - idx,
    {
        if idx + 1 < parents.len() {
            let li = fresh[idx];
            let ghost prev = lanes@;
            while lanes.len() <= li
                invariant
                    prev.len() <= lanes@.len(),
                    lanes@.len() <= prev.len() || lanes@.len() <= li + 1,
                    lanes@ == prev + Seq::new((lanes@.len() - prev.len()) as nat, |i: int| None),
                decreases li + 1 - lanes@.len(),
            {
                let ghost before = lanes@;
                lanes.push(None);
                proof {
                    assert(lanes@ =~= prev + Seq::new(
                        (lanes@.len() - prev.len()) as nat,
                        |i: int| None,
                    ));
                }
            }
            proof {
                assert(lanes@ =~= pad(prev, li + 1));
            }
            lanes.set(li, Some(parents[idx + 1]));
            proof {
                assert(as_ints(fresh@)[idx as int] == li as int);
            }
        }
        idx += 1;
    }
}

/// Drops the free lanes at the end.
fn trim_lanes(lanes: &mut Vec<Option<Sha>>)
    ensures
        final(lanes)@ == trim_free(old(lanes)@),
{
    let ghost orig = lanes@;
    while lanes.len() > 0 && lanes[lanes.len() - 1].is_none()
        invariant
            trim_free(lanes@) == trim_free(orig),
        decreases lanes@.len(),
    {
        lanes.pop();
    }
}

/// The row planned by `p`.
fn make_row(
    width: usize,
    clane: usize,
    merging: &Vec<usize>,
    fresh: &Vec<usize>,
    existing: &Vec<usize>,
    lo: usize,
    hi: usize,
    lanes: &Vec<Option<Sha>>,
    Ghost(p): Ghost<RowPlan>,
) -> (r: Vec<Cell>)
    requires
        p.width == width,
        p.clane == clane,
        p.merging == as_ints(merging@),
        p.fresh == as_ints(fresh@),
        p.existing == as_ints(existing@),
        p.lo == lo,
        p.hi == hi,
        p.lanes == lanes@,
    ensures
        r@ == row(p),
{
    let mut r: Vec<Cell> = Vec::new();
    let mut i: usize = 0;
    while i < width
        invariant
            i <= width,
            p.width == width,
            p.clane == clane,
            p.merging == as_ints(merging@),
            p.fresh == as_ints(fresh@),
            p.existing == as_ints(existing@),
            p.lo == lo,
            p.hi == hi,
            p.lanes == lanes@,
            r@ == row(p).take(i as int),
        decreases width - i,
    {
        let c = cell_at(i, clane, merging, fresh, existing, lo, hi, lanes, Ghost(p));
        r.push(c);
        proof {
            assert(row(p).take(i + 1) =~= row(p).take(i as int).push(c));
        }
        i += 1;
    }
    proof {
        assert(row(p).take(width as int) =~= row(p));
    }
    r
}

/// The index list without its first element.
fn tail_of(v: &Vec<usize>) -> (r: Vec<usize>)
    requires
        v@.len() > 0,
    ensures
        as_ints(r@) == as_ints(v@).drop_first(),
{
    let mut r: Vec<usize> = Vec::new();
    let mut i: usize = 1;
    while i < v.len()
        invariant
            1 <= i <= v.len(),
            r@ == v@.subrange(1, i as int),
        decreases v.len() - i,
    {
        r.push(v[i]);
        proof {
            assert(v@.subrange(1, i + 1) =~= v@.subrange(1, i as int).push(v@[i as int]));
        }
        i += 1;
    }
    proof {
        assert(as_ints(r@) =~= as_ints(v@).drop_first());
    }
    r
}

/// Draws one commit's row and moves the lanes past it.
fn step(lanes: &mut Vec<Option<Sha>>, commit: &Commit, commits: &Vec<Commit>) -> (r: Vec<Cell>)
    ensures
        r@ == row(plan(old(lanes)@, *commit, commits@)),
        final(lanes)@ == next_lanes(plan(old(lanes)@, *commit, commits@), *commit),
{
    let ghost l0 = lanes@;
    let ghost p = plan(l0, *commit, commits@);
    let target: Option<Sha> = Some(commit.sha);
    let h = positions_of(lanes, &target);
    proof {
        lemma_positions_bounds(l0, target, l0.len() as int);
    }
    let clane: usize;
    let conv: Vec<usize>;
    if h.len() > 0 {
        clane = h[0];
        conv = tail_of(&h);
        proof {
            assert(as_ints(h@)[0] == clane as int);
        }
    } else {
        let f = free_lane_of(lanes);
        place_at(lanes, f, target);
        clane = f;
        conv = Vec::new();
        proof {
            assert(as_ints(conv@) =~= Seq::<int>::empty());
        }
    }
    proof {
        assert(lanes@ == p.lanes);
        assert(clane as int == p.clane);
        assert(as_ints(conv@) == p.conv);
        assert(clane < lanes@.len());
        assert forall|j: int| 0 <= j < conv@.len() implies #[trigger] conv@[j] < lanes@.len()
            && conv@[j] != clane by {
            assert(as_ints(conv@)[j] == conv@[j] as int);
            assert(as_ints(h@)[j + 1] == h@[j + 1] as int);
            assert(as_ints(h@)[0] == h@[0] as int);
        }
    }
    let merging = merging_lanes(lanes, clane, &conv, commits, &commit.sha);
    let mut temp = copy_lanes(lanes);
    let (fresh, existing) = allocate_parents(&mut temp, clane, &commit.parent_shas);
    let all = concat3(&merging, &fresh, &existing);
    let lo = min_index(&all, clane);
    let hi = max_index(&all, clane);
    let width = if temp.len() > lanes.len() {
        temp.len()
    } else {
        lanes.len()
    };
    let r = make_row(width, clane, &merging, &fresh, &existing, lo, hi, lanes, Ghost(p));
    let ghost claimed_lanes = lanes@;
    clear_lanes(lanes, &conv);
    let first: Option<Sha> = if commit.parent_shas.len() > 0 {
        Some(commit.parent_shas[0])
    } else {
        None
    };
    lanes.set(clane, first);
    assign_fork_lanes(lanes, &fresh, &commit.parent_shas);
    trim_lanes(lanes);
    proof {
        let cleared = Seq::new(
            claimed_lanes.len(),
            |i: int|
                if p.conv.contains(i) {
                    None
                } else {
                    claimed_lanes[i]
                },
        );
        assert(first == first_parent(*commit));
    }
    r
}

/// The graph drawn beside the commit list: one row per commit, in order.
pub fn build(commits: &Vec<Commit>) -> (r: Vec<Vec<Cell>>)
    ensures
        rows_view(r@) == graph(commits@),
{
    let mut lanes: Vec<Option<Sha>> = Vec::new();
    let mut rows: Vec<Vec<Cell>> = Vec::new();
    let mut k: usize = 0;
    proof {
        assert(rows_view(rows@) =~= Seq::<Seq<Cell>>::empty());
    }
    while k < commits.len()
        invariant
            k <= commits.len(),
            rows_view(rows@) == graph_upto(commits@, k as int).0,
            lanes@ == graph_upto(commits@, k as int).1,
        decreases commits.len() - k,
    {
        let ghost old_rows = rows@;
        let line = step(&mut lanes, &commits[k], commits);
        rows.push(line);
        proof {
            assert(rows_view(rows@) =~= rows_view(old_rows).push(line@));
        }
        k += 1;
    }
    rows
}

// ---------------------------------------------------------------------------
// Laws
// ---------------------------------------------------------------------------

proof fn lemma_graph_upto_len(commits: Seq<Commit>, k: int)
    requires
        0 <= k,
    ensures
        graph_upto(commits, k).0.len() == k,
    decreases k,
{
    if k > 0 {
        lemma_graph_upto_len(commits, k - 1);
    }
}

proof fn lemma_graph_upto_prefix(commits: Seq<Commit>, k: int, m: int)
    requires
        0 <= m < k,
    ensures
        graph_upto(commits, k).0[m] == graph_upto(commits, m + 1).0[m],
    decreases k,
{
    lemma_graph_upto_len(commits, k - 1);
    if k - 1 > m {
        lemma_graph_upto_prefix(commits, k - 1, m);
    }
}

/// The commit's lane lies among the claimed lanes, within the row.
proof fn lemma_clane_in_row(lanes0: Seq<Option<Sha>>, commit: Commit, commits: Seq<Commit>)
    ensures
        0 <= plan(lanes0, commit, commits).clane < plan(lanes0, commit, commits).lanes.len(),
        plan(lanes0, commit, commits).lanes.len() <= plan(lanes0, commit, commits).width,
{
    lemma_positions_bounds(lanes0, Some(commit.sha), lanes0.len() as int);
    lemma_positions_bounds(lanes0, None, lanes0.len() as int);
}

/// The rows a commit list is drawn with: one row for each commit.
pub proof fn law_one_row_per_commit(commits: Seq<Commit>)
    ensures
        graph(commits).len() == commits.len(),
{
    lemma_graph_upto_len(commits, commits.len() as int);
}

/// The lanes before the commit at index `k` is drawn.
pub open spec fn lanes_before(commits: Seq<Commit>, k: int) -> Seq<Option<Sha>> {
    graph_upto(commits, k).1
}

/// Every row shows the node marker exactly once, at the lane of its commit:
/// the leftmost lane that was waiting for it, or a free lane.
pub proof fn law_one_node_per_row(commits: Seq<Commit>, k: int)
    requires
        0 <= k < commits.len(),
    ensures
        ({
            let r = graph(commits)[k];
            let c = commit_lane(lanes_before(commits, k), commits[k].sha);
            &&& 0 <= c < r.len()
            &&& r[c].0 == '●'
            &&& forall|i: int| 0 <= i < r.len() && (#[trigger] r[i]).0 == '●' ==> i == c
        }),
{
    lemma_graph_upto_len(commits, commits.len() as int);
    lemma_graph_upto_prefix(commits, commits.len() as int, k);
    let p = plan(lanes_before(commits, k), commits[k], commits);
    lemma_clane_in_row(lanes_before(commits, k), commits[k], commits);
    lemma_graph_upto_len(commits, k);
    assert(graph(commits)[k] == row(p));
}

/// Every cell that is coloured by a lane is coloured by the lane of its own
/// column.
pub proof fn law_cells_keep_their_lane(commits: Seq<Commit>, k: int, i: int)
    requires
        0 <= k < commits.len(),
        0 <= i < graph(commits)[k].len(),
    ensures
        graph(commits)[k][i].1 is None || graph(commits)[k][i].1 == Some(i as usize),
{
    lemma_graph_upto_len(commits, commits.len() as int);
    lemma_graph_upto_prefix(commits, commits.len() as int, k);
    lemma_graph_upto_len(commits, k);
}

proof fn lemma_trim_free_ends_in_use(l: Seq<Option<Sha>>)
    ensures
        trim_free(l).len() == 0 || trim_free(l).last() is Some,
    decreases l.len(),
{
    if l.len() > 0 && l.last() is None {
        lemma_trim_free_ends_in_use(l.drop_last());
    }
}

/// Between two commits the lanes never end in a free lane: the graph is
/// never wider than the lanes in use.
pub proof fn law_no_trailing_free_lane(commits: Seq<Commit>, k: int)
    requires
        0 <= k <= commits.len(),
    ensures
        lanes_before(commits, k).len() == 0 || lanes_before(commits, k).last() is Some,
{
    if k > 0 {
        let p = plan(lanes_before(commits, k - 1), commits[k - 1], commits);
        lemma_trim_free_ends_in_use(
            assign_forks(
                Seq::new(
                    p.lanes.len(),
                    |i: int|
                        if p.conv.contains(i) {
                            None
                        } else {
                            p.lanes[i]
                        },
                ).update(p.clane, first_parent(commits[k - 1])),
                p.fresh,
                commits[k - 1].parent_shas@,
                p.fresh.len() as int,
            ),
        );
    }
}

/// No lane of `l` holds `v`.
pub open spec fn lacks(l: Seq<Option<Sha>>, v: Option<Sha>) -> bool {
    forall|i: int| 0 <= i < l.len() ==> #[trigger] l[i] != v
}

proof fn lemma_allocate_fresh_nonneg(lanes: Seq<Option<Sha>>, clane: int, parents: Seq<Sha>, k: int)
    ensures
        forall|j: int|
            0 <= j < allocate(lanes, clane, parents, k).1.len() ==> #[trigger] allocate(
                lanes,
                clane,
                parents,
                k,
            ).1[j] >= 0,
    decreases k,
{
    if k > 1 {
        lemma_allocate_fresh_nonneg(lanes, clane, parents, k - 1);
        let t = allocate(lanes, clane, parents, k - 1).0;
        lemma_positions_bounds(t, None, t.len() as int);
    }
}

proof fn lemma_assign_forks_lacks(
    l: Seq<Option<Sha>>,
    fresh: Seq<int>,
    parents: Seq<Sha>,
    n: int,
    v: Option<Sha>,
)
    requires
        lacks(l, v),
        v is Some,
        n <= fresh.len(),
        forall|j: int| 0 <= j < fresh.len() ==> #[trigger] fresh[j] >= 0,
        forall|j: int| 1 <= j < parents.len() ==> Some(#[trigger] parents[j]) != v,
    ensures
        lacks(assign_forks(l, fresh, parents, n), v),
    decreases n,
{
    if n > 0 {
        lemma_assign_forks_lacks(l, fresh, parents, n - 1, v);
        let prev = assign_forks(l, fresh, parents, n - 1);
        let idx = n - 1;
        if idx + 1 < parents.len() {
            let padded = pad(prev, fresh[idx] + 1);
            assert(lacks(padded, v)) by {
                assert forall|i: int| 0 <= i < padded.len() implies #[trigger] padded[i] != v by {
                    if i >= prev.len() {
                        assert(padded[i] is None);
                    } else {
                        assert(padded[i] == prev[i]);
                    }
                }
            }
            assert(Some(parents[idx + 1]) != v);
        }
    }
}

proof fn lemma_trim_free_lacks(l: Seq<Option<Sha>>, v: Option<Sha>)
    requires
        lacks(l, v),
    ensures
        lacks(trim_free(l), v),
    decreases l.len(),
{
    if l.len() > 0 && l.last() is None {
        assert(lacks(l.drop_last(), v)) by {
            assert forall|i: int| 0 <= i < l.drop_last().len() implies #[trigger] l.drop_last()[i] != v by {
                assert(l.drop_last()[i] == l[i]);
            }
        }
        lemma_trim_free_lacks(l.drop_last(), v);
    }
}

/// After the row of a commit no lane waits for it any more: the lane it is
/// drawn in goes on to its first parent, the lanes that converged into it
/// end, and forked lanes wait for its other parents (a commit is never its
/// own parent).
pub proof fn law_drawn_commit_leaves_the_lanes(commits: Seq<Commit>, k: int)
    requires
        0 <= k < commits.len(),
        !commits[k].parent_shas@.contains(commits[k].sha),
    ensures
        lacks(lanes_before(commits, k + 1), Some(commits[k].sha)),
{
    let lanes0 = lanes_before(commits, k);
    let c = commits[k];
    let sha = c.sha;
    let v = Some(sha);
    let p = plan(lanes0, c, commits);
    assert(lanes_before(commits, k + 1) == next_lanes(p, c));
    lemma_clane_in_row(lanes0, c, commits);
    lemma_positions_bounds(lanes0, v, lanes0.len() as int);
    lemma_positions_bounds(lanes0, None, lanes0.len() as int);
    let h = holding(lanes0, v);
    // Every lane that holds the commit, once it has its lane, is its own
    // lane or a converging one.
    assert forall|i: int| 0 <= i < p.lanes.len() && p.lanes[i] == v implies i == p.clane
        || p.conv.contains(i) by {
        if h.len() > 0 {
            assert(p.lanes[i] == lanes0[i]);
            assert(h.contains(i));
            let j = choose|j: int| 0 <= j < h.len() && h[j] == i;
            if j > 0 {
                assert(h.drop_first()[j - 1] == i);
            }
        } else {
            let f = free_lane(lanes0);
            if i != f {
                if f < lanes0.len() {
                    assert(p.lanes[i] == lanes0[i]);
                } else {
                    assert(p.lanes[i] == lanes0[i]);
                }
                if lanes0[i] == v {
                    assert(h.contains(i));
                }
            }
        }
    }
    let cleared = Seq::new(
        p.lanes.len(),
        |i: int|
            if p.conv.contains(i) {
                None
            } else {
                p.lanes[i]
            },
    );
    let started = cleared.update(p.clane, first_parent(c));
    assert(first_parent(c) != v) by {
        if c.parent_shas@.len() > 0 {
            assert(c.parent_shas@.contains(c.parent_shas@[0]));
        }
    }
    assert(lacks(started, v)) by {
        assert forall|i: int| 0 <= i < started.len() implies #[trigger] started[i] != v by {
            if i != p.clane {
                assert(started[i] == cleared[i]);
            }
        }
    }
    let alloc = allocate(p.lanes, p.clane, c.parent_shas@, c.parent_shas@.len() as int);
    lemma_allocate_fresh_nonneg(p.lanes, p.clane, c.parent_shas@, c.parent_shas@.len() as int);
    assert forall|j: int| 1 <= j < c.parent_shas@.len() implies Some(#[trigger] c.parent_shas@[j]) != v by {
        assert(c.parent_shas@.contains(c.parent_shas@[j]));
    }
    lemma_assign_forks_lacks(started, p.fresh, c.parent_shas@, p.fresh.len() as int, v);
    lemma_trim_free_lacks(assign_forks(started, p.fresh, c.parent_shas@, p.fresh.len() as int), v);
}

proof fn lemma_allocate_keeps(lanes: Seq<Option<Sha>>, clane: int, parents: Seq<Sha>, k: int)
    ensures
        ({
            let (t, fresh, _existing) = allocate(lanes, clane, parents, k);
            &&& t.len() >= lanes.len()
            &&& forall|i: int| 0 <= i < lanes.len() && (#[trigger] lanes[i]) is Some ==> t[i] == lanes[i]
            &&& forall|j: int|
                0 <= j < fresh.len() ==> #[trigger] fresh[j] >= 0 && (fresh[j] >= lanes.len()
                    || lanes[fresh[j]] is None)
        }),
    decreases k,
{
    if k > 1 {
        lemma_allocate_keeps(lanes, clane, parents, k - 1);
        let (t, fresh, existing) = allocate(lanes, clane, parents, k - 1);
        let p = parents[k - 1];
        lemma_positions_bounds(t, None, t.len() as int);
        match other_lane_holding(t, Some(p), clane) {
            Some(i) => {},
            None => {
                let f = free_lane(t);
                let t2 = place(t, f, Some(p));
                assert(f < t.len() ==> t[f] is None);
                assert forall|i: int| 0 <= i < lanes.len() && (#[trigger] lanes[i]) is Some implies t2[i]
                    == lanes[i] by {
                    assert(t[i] == lanes[i]);
                    assert(i != f);
                }
                let fr = fresh.push(f);
                assert forall|j: int| 0 <= j < fr.len() implies #[trigger] fr[j] >= 0 && (fr[j]
                    >= lanes.len() || lanes[fr[j]] is None) by {
                    if j < fresh.len() {
                        assert(fr[j] == fresh[j]);
                    } else {
                        if f < lanes.len() && lanes[f] is Some {
                            assert(t[f] == lanes[f]);
                        }
                    }
                }
            },
        }
    }
}

proof fn lemma_assign_forks_keeps(l: Seq<Option<Sha>>, fresh: Seq<int>, parents: Seq<Sha>, n: int, i: int)
    requires
        0 <= i < l.len(),
        n <= fresh.len(),
        forall|j: int| 0 <= j < fresh.len() ==> #[trigger] fresh[j] >= 0,
        forall|j: int| 0 <= j < n ==> #[trigger] fresh[j] != i,
    ensures
        assign_forks(l, fresh, parents, n).len() >= l.len(),
        assign_forks(l, fresh, parents, n)[i] == l[i],
    decreases n,
{
    if n > 0 {
        lemma_assign_forks_keeps(l, fresh, parents, n - 1, i);
        let prev = assign_forks(l, fresh, parents, n - 1);
        let idx = n - 1;
        if idx + 1 < parents.len() {
            let padded = pad(prev, fresh[idx] + 1);
            assert(padded[i] == prev[i]);
            assert(fresh[idx] != i);
        }
    }
}

proof fn lemma_trim_free_keeps(l: Seq<Option<Sha>>, i: int)
    requires
        0 <= i < l.len(),
        l[i] is Some,
    ensures
        i < trim_free(l).len(),
        trim_free(l)[i] == l[i],
    decreases l.len(),
{
    if l.len() > 0 && l.last() is None {
        assert(i < l.len() - 1);
        assert(l.drop_last()[i] == l[i]);
        lemma_trim_free_keeps(l.drop_last(), i);
    }
}

/// Drawing a commit leaves the other lanes alone: a lane waiting for
/// another commit goes on waiting for it, in the same place; and the lane
/// the commit is drawn in goes on to its first parent.
pub proof fn law_other_lanes_keep_waiting(commits: Seq<Commit>, k: int)
    requires
        0 <= k < commits.len(),
    ensures
        forall|i: int|
            0 <= i < lanes_before(commits, k).len() && (#[trigger] lanes_before(commits, k)[i]) is Some
                && lanes_before(commits, k)[i] != Some(commits[k].sha) ==> i < lanes_before(commits, k + 1).len()
                && lanes_before(commits, k + 1)[i] == lanes_before(commits, k)[i],
        commits[k].parent_shas@.len() > 0 ==> ({
            let c = commit_lane(lanes_before(commits, k), commits[k].sha);
            c < lanes_before(commits, k + 1).len() && lanes_before(commits, k + 1)[c] == Some(
                commits[k].parent_shas@[0],
            )
        }),
{
    let lanes0 = lanes_before(commits, k);
    let c = commits[k];
    let sha = c.sha;
    let v = Some(sha);
    let p = plan(lanes0, c, commits);
    assert(lanes_before(commits, k + 1) == next_lanes(p, c));
    lemma_clane_in_row(lanes0, c, commits);
    lemma_positions_bounds(lanes0, v, lanes0.len() as int);
    lemma_positions_bounds(lanes0, None, lanes0.len() as int);
    let h = holding(lanes0, v);
    let f = free_lane(lanes0);
    assert(f < lanes0.len() ==> lanes0[f] is None);
    // The commit's lane holds the commit once claimed; other occupied
    // lanes are as they were.
    assert(p.lanes[p.clane] == v);
    assert(p.lanes.len() >= lanes0.len());
    assert forall|i: int| 0 <= i < lanes0.len() && lanes0[i] is Some implies p.lanes[i] == lanes0[i] by {
        if h.len() == 0 {
            assert(i != f);
        }
    }
    let cleared = Seq::new(
        p.lanes.len(),
        |i: int|
            if p.conv.contains(i) {
                None
            } else {
                p.lanes[i]
            },
    );
    let started = cleared.update(p.clane, first_parent(c));
    let parents = c.parent_shas@;
    let alloc = allocate(p.lanes, p.clane, parents, parents.len() as int);
    lemma_allocate_keeps(p.lanes, p.clane, parents, parents.len() as int);
    let forked = assign_forks(started, p.fresh, parents, p.fresh.len() as int);
    assert forall|i: int|
        0 <= i < lanes0.len() && (#[trigger] lanes0[i]) is Some && lanes0[i] != v implies i
        < next_lanes(p, c).len() && next_lanes(p, c)[i] == lanes0[i] by {
        assert(p.lanes[i] == lanes0[i]);
        assert(i != p.clane);
        assert(!p.conv.contains(i)) by {
            if p.conv.contains(i) {
                let j = choose|j: int| 0 <= j < p.conv.len() && p.conv[j] == i;
                assert(h.drop_first()[j] == h[j + 1]);
                assert(lanes0[h[j + 1]] == v);
            }
        }
        assert(started[i] == lanes0[i]);
        assert forall|j: int| 0 <= j < p.fresh.len() implies #[trigger] p.fresh[j] != i by {
            assert(p.fresh[j] >= p.lanes.len() || p.lanes[p.fresh[j]] is None);
        }
        lemma_assign_forks_keeps(started, p.fresh, parents, p.fresh.len() as int, i);
        lemma_trim_free_keeps(forked, i);
    }
    if parents.len() > 0 {
        assert(started[p.clane] == Some(parents[0]));
        assert forall|j: int| 0 <= j < p.fresh.len() implies #[trigger] p.fresh[j] != p.clane by {
            assert(p.fresh[j] >= p.lanes.len() || p.lanes[p.fresh[j]] is None);
        }
        lemma_assign_forks_keeps(started, p.fresh, parents, p.fresh.len() as int, p.clane);
        lemma_trim_free_keeps(forked, p.clane);
    }
}

} // verus!
