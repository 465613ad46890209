//! The file tree of the details panel: the changed files of a commit
//! arranged by directory, directories first, then files, each group in
//! alphabetical order ignoring case.

use vstd::prelude::*;
use crate::complete::{lex_le, lex_le_exec};
use crate::repo::FileChange;
use crate::text::{chars_of, first_index, find_char, lower_chars, lowercase, same_chars, slice_chars, string_of};

verus! {

broadcast use vstd::string::group_string_axioms;

/// A node in the file tree (either a directory or a file)
pub struct FileTreeNode {
    pub name: String,
    pub status: Option<char>,
    pub additions: usize,
    pub deletions: usize,
    pub children: Vec<FileTreeNode>,
}

/// A node of the file tree as plain values.
pub struct NodeView {
    pub name: Seq<char>,
    pub status: Option<char>,
    pub additions: nat,
    pub deletions: nat,
    pub children: Seq<NodeView>,
}

pub open spec fn node_view(n: FileTreeNode) -> NodeView
    decreases n, 1nat,
{
    NodeView {
        name: n.name@,
        status: n.status,
        additions: n.additions as nat,
        deletions: n.deletions as nat,
        children: nodes_view(n.children@),
    }
}

pub open spec fn nodes_view(s: Seq<FileTreeNode>) -> Seq<NodeView>
    decreases s, 0nat,
{
    if s.len() == 0 {
        Seq::empty()
    } else {
        nodes_view(s.subrange(0, s.len() - 1)).push(node_view(s[s.len() - 1]))
    }
}

pub proof fn lemma_nodes_view(s: Seq<FileTreeNode>)
    ensures
        nodes_view(s).len() == s.len(),
        forall|i: int| 0 <= i < s.len() ==> #[trigger] nodes_view(s)[i] == node_view(s[i]),
    decreases s.len(),
{
    if s.len() > 0 {
        lemma_nodes_view(s.subrange(0, s.len() - 1));
    }
}

/// Two node sequences look the same when their nodes do.
proof fn lemma_nodes_view_ext(a: Seq<FileTreeNode>, b: Seq<NodeView>)
    requires
        a.len() == b.len(),
        forall|i: int| 0 <= i < a.len() ==> node_view(#[trigger] a[i]) == b[i],
    ensures
        nodes_view(a) == b,
{
    lemma_nodes_view(a);
    assert(nodes_view(a) =~= b);
}

// ---------------------------------------------------------------------------
// Building
// ---------------------------------------------------------------------------

/// The parts of a path between its slashes, as `str::split('/')` gives them.
pub open spec fn path_parts(p: Seq<char>) -> Seq<Seq<char>>
    decreases p.len(),
{
    match first_index(p, '/') {
        None => seq![p],
        Some(i) => if 0 <= i < p.len() {
            seq![p.take(i)] + path_parts(p.skip(i + 1))
        } else {
            seq![p]
        },
    }
}

/// A new node: a file with its status and counts, or a directory.
pub open spec fn new_node(name: Seq<char>, is_file: bool, status: char, additions: nat, deletions: nat) -> NodeView {
    NodeView {
        name,
        status: if is_file {
            Some(status)
        } else {
            None
        },
        additions: if is_file {
            additions
        } else {
            0
        },
        deletions: if is_file {
            deletions
        } else {
            0
        },
        children: Seq::empty(),
    }
}

/// The position of the first node from the `k`-th on called `name`.
pub open spec fn position_of(nodes: Seq<NodeView>, name: Seq<char>, k: int) -> Option<int>
    decreases nodes.len() - k,
{
    if k < 0 || k >= nodes.len() {
        None
    } else if nodes[k].name == name {
        Some(k)
    } else {
        position_of(nodes, name, k + 1)
    }
}

/// The nodes with a path (its parts) put in: the first part is found
/// among the nodes, or added at the end, and the rest goes below it.
pub open spec fn tree_insert(
    nodes: Seq<NodeView>,
    parts: Seq<Seq<char>>,
    status: char,
    additions: nat,
    deletions: nat,
) -> Seq<NodeView>
    decreases parts.len(),
{
    if parts.len() == 0 {
        nodes
    } else {
        let name = parts[0];
        let is_file = parts.len() == 1;
        let (nodes1, idx) = match position_of(nodes, name, 0) {
            Some(i) => (nodes, i),
            None => (
                nodes.push(new_node(name, is_file, status, additions, deletions)),
                nodes.len() as int,
            ),
        };
        if parts.len() > 1 {
            let node = nodes1[idx];
            nodes1.update(
                idx,
                NodeView {
                    children: tree_insert(
                        node.children,
                        parts.drop_first(),
                        status,
                        additions,
                        deletions,
                    ),
                    ..node
                },
            )
        } else {
            nodes1
        }
    }
}

/// The tree of the first `n` files, before sorting.
pub open spec fn inserted_files(files: Seq<FileChange>, n: int) -> Seq<NodeView>
    decreases n,
{
    if n <= 0 {
        Seq::empty()
    } else {
        let f = files[n - 1];
        tree_insert(
            inserted_files(files, n - 1),
            path_parts(f.path@),
            f.status,
            f.additions as nat,
            f.deletions as nat,
        )
    }
}

// ---------------------------------------------------------------------------
// Sorting
// ---------------------------------------------------------------------------

/// A node with children is a directory.
pub open spec fn is_dir(n: NodeView) -> bool {
    n.children.len() > 0
}

/// Whether `a` sorts strictly before `b`: directories before files, then
/// by name ignoring case.
pub open spec fn node_before(a: NodeView, b: NodeView) -> bool {
    if is_dir(a) != is_dir(b) {
        is_dir(a)
    } else {
        let x = lowercase(a.name);
        let y = lowercase(b.name);
        lex_le(x, y) && x != y
    }
}

/// `x` put into the sorted `s` before the first node it sorts before.
pub open spec fn insert_node(x: NodeView, s: Seq<NodeView>) -> Seq<NodeView>
    decreases s.len(),
{
    if s.len() == 0 {
        seq![x]
    } else if node_before(x, s[0]) {
        seq![x] + s
    } else {
        seq![s[0]] + insert_node(x, s.drop_first())
    }
}

/// The nodes of one level in order, equal ones keeping their order.
pub open spec fn sort_level(s: Seq<NodeView>) -> Seq<NodeView>
    decreases s.len(),
{
    if s.len() == 0 {
        Seq::empty()
    } else {
        insert_node(s.last(), sort_level(s.drop_last()))
    }
}

/// Every level of the tree in order.
pub open spec fn sorted_tree(s: Seq<NodeView>) -> Seq<NodeView>
    decreases s, 1nat,
{
    sort_level(children_sorted(s))
}

/// The nodes with the levels below them in order.
pub open spec fn children_sorted(s: Seq<NodeView>) -> Seq<NodeView>
    decreases s, 0nat,
{
    if s.len() == 0 {
        Seq::empty()
    } else {
        let n = s[s.len() - 1];
        children_sorted(s.subrange(0, s.len() - 1)).push(
            NodeView { children: sorted_tree(n.children), ..n },
        )
    }
}

proof fn lemma_children_sorted(s: Seq<NodeView>)
    ensures
        children_sorted(s).len() == s.len(),
        forall|i: int|
            0 <= i < s.len() ==> #[trigger] children_sorted(s)[i] == (NodeView {
                children: sorted_tree(s[i].children),
                ..s[i]
            }),
    decreases s.len(),
{
    if s.len() > 0 {
        lemma_children_sorted(s.subrange(0, s.len() - 1));
    }
}

/// The file tree of a commit's changed files.
pub open spec fn file_tree(files: Seq<FileChange>) -> Seq<NodeView> {
    sorted_tree(inserted_files(files, files.len() as int))
}

// ---------------------------------------------------------------------------
// Implementation
// ---------------------------------------------------------------------------

/// The parts of a path between its slashes.
fn split_path(path: &str) -> (r: Vec<String>)
    ensures
        r@.map_values(|s: String| s@) == path_parts(path@),
{
    let mut rest = chars_of(path);
    let mut out: Vec<String> = Vec::new();
    loop
        invariant
            out@.map_values(|s: String| s@) + path_parts(rest@) == path_parts(path@),
        decreases rest@.len(),
    {
        match find_char(&rest, '/') {
            None => {
                let ghost before = out@.map_values(|s: String| s@);
                out.push(string_of(&rest));
                proof {
                    assert(out@.map_values(|s: String| s@) =~= before.push(rest@));
                    assert(before + path_parts(rest@) =~= before.push(rest@));
                }
                return out;
            },
            Some(i) => {
                let ghost before = out@.map_values(|s: String| s@);
                let ghost r0 = rest@;
                let part = slice_chars(&rest, 0, i);
                out.push(string_of(&part));
                rest = slice_chars(&rest, i + 1, rest.len());
                proof {
                    assert(part@ =~= r0.take(i as int));
                    assert(rest@ =~= r0.skip(i + 1));
                    assert(out@.map_values(|s: String| s@) =~= before.push(r0.take(i as int)));
                    assert(path_parts(r0) == seq![r0.take(i as int)] + path_parts(r0.skip(i + 1)));
                    assert(before + path_parts(r0) =~= before.push(r0.take(i as int)) + path_parts(
                        rest@,
                    ));
                }
            },
        }
    }
}

/// A new node for `name`: a file with its status and counts, or a
/// directory.
fn make_node(name: &String, is_file: bool, status: char, additions: usize, deletions: usize) -> (r: FileTreeNode)
    ensures
        node_view(r) == new_node(name@, is_file, status, additions as nat, deletions as nat),
{
    let r = FileTreeNode {
        name: name.clone(),
        status: if is_file {
            Some(status)
        } else {
            None
        },
        additions: if is_file {
            additions
        } else {
            0
        },
        deletions: if is_file {
            deletions
        } else {
            0
        },
        children: Vec::new(),
    };
    proof {
        assert(nodes_view(r.children@) =~= Seq::<NodeView>::empty());
    }
    r
}

/// The position of the first node called `name`.
fn find_node(nodes: &Vec<FileTreeNode>, name: &String) -> (r: Option<usize>)
    ensures
        match r {
            Some(i) => position_of(nodes_view(nodes@), name@, 0) == Some(i as int) && i
                < nodes@.len(),
            None => position_of(nodes_view(nodes@), name@, 0) is None,
        },
{
    proof {
        lemma_nodes_view(nodes@);
    }
    let target = chars_of(name.as_str());
    let mut k: usize = 0;
    while k < nodes.len()
        invariant
            k <= nodes.len(),
            target@ == name@,
            nodes_view(nodes@).len() == nodes@.len(),
            forall|i: int| 0 <= i < nodes@.len() ==> #[trigger] nodes_view(nodes@)[i] == node_view(nodes@[i]),
            position_of(nodes_view(nodes@), name@, 0) == position_of(
                nodes_view(nodes@),
                name@,
                k as int,
            ),
        decreases nodes.len() - k,
    {
        if same_chars(&chars_of(nodes[k].name.as_str()), &target) {
            return Some(k);
        }
        k += 1;
    }
    None
}

/// Puts a path (its parts from `from` on) into the nodes.
fn insert_into_tree(
    nodes: &mut Vec<FileTreeNode>,
    parts: &Vec<String>,
    from: usize,
    status: char,
    additions: usize,
    deletions: usize,
)
    requires
        from <= parts@.len(),
    ensures
        nodes_view(final(nodes)@) == tree_insert(
            nodes_view(old(nodes)@),
            parts@.map_values(|s: String| s@).skip(from as int),
            status,
            additions as nat,
            deletions as nat,
        ),
    decreases parts@.len() - from,
{
    let ghost pv = parts@.map_values(|s: String| s@).skip(from as int);
    let ghost v0 = nodes_view(nodes@);
    if from >= parts.len() {
        return;
    }
    let name = &parts[from];
    let is_file = from + 1 == parts.len();
    proof {
        assert(pv[0] == name@);
        lemma_nodes_view(nodes@);
    }
    let idx = match find_node(nodes, name) {
        Some(i) => i,
        None => {
            let ghost before = nodes@;
            nodes.push(make_node(name, is_file, status, additions, deletions));
            proof {
                lemma_nodes_view(nodes@);
                lemma_nodes_view(before);
                assert(nodes_view(nodes@) =~= v0.push(
                    new_node(name@, is_file, status, additions as nat, deletions as nat),
                ));
            }
            nodes.len() - 1
        },
    };
    let ghost v1 = nodes_view(nodes@);
    if from + 1 < parts.len() {
        let ghost before = nodes@;
        let mut node = nodes.remove(idx);
        let ghost c0 = nodes_view(node.children@);
        insert_into_tree(&mut node.children, parts, from + 1, status, additions, deletions);
        proof {
            assert(pv.drop_first() =~= parts@.map_values(|s: String| s@).skip(from + 1));
        }
        nodes.insert(idx, node);
        proof {
            lemma_nodes_view(nodes@);
            lemma_nodes_view(before);
            assert(nodes@ =~= before.update(idx as int, node));
            assert(nodes_view(nodes@) =~= v1.update(
                idx as int,
                NodeView { children: tree_insert(c0, pv.drop_first(), status, additions as nat, deletions as nat), ..v1[idx as int] },
            ));
        }
    }
}

/// Build a tree structure from flat file paths
pub fn build_file_tree(files: &Vec<FileChange>) -> (r: Vec<FileTreeNode>)
    ensures
        nodes_view(r@) == file_tree(files@),
{
    let mut root: Vec<FileTreeNode> = Vec::new();
    proof {
        assert(nodes_view(root@) =~= Seq::<NodeView>::empty());
    }
    let mut k: usize = 0;
    while k < files.len()
        invariant
            k <= files.len(),
            nodes_view(root@) == inserted_files(files@, k as int),
        decreases files.len() - k,
    {
        let file = &files[k];
        let parts = split_path(file.path.as_str());
        insert_into_tree(&mut root, &parts, 0, file.status, file.additions, file.deletions);
        proof {
            assert(parts@.map_values(|s: String| s@).skip(0) =~= parts@.map_values(|s: String| s@));
        }
        k += 1;
    }
    sort_tree(&mut root);
    root
}

/// Whether `a` sorts strictly before `b`.
fn before_exec(a: &FileTreeNode, b: &FileTreeNode) -> (r: bool)
    ensures
        r == node_before(node_view(*a), node_view(*b)),
{
    proof {
        lemma_nodes_view(a.children@);
        lemma_nodes_view(b.children@);
    }
    let a_dir = a.children.len() > 0;
    let b_dir = b.children.len() > 0;
    if a_dir != b_dir {
        a_dir
    } else {
        let x = lower_chars(&chars_of(a.name.as_str()));
        let y = lower_chars(&chars_of(b.name.as_str()));
        lex_le_exec(&x, &y) && !same_chars(&x, &y)
    }
}

/// Sort: directories (have children) first, then files, alphabetically
/// within each group; every level below too.
pub fn sort_tree(nodes: &mut Vec<FileTreeNode>)
    ensures
        nodes_view(final(nodes)@) == sorted_tree(nodes_view(old(nodes)@)),
    decreases old(nodes)@,
{
    let ghost v0 = nodes_view(nodes@);
    proof {
        lemma_nodes_view(nodes@);
        lemma_children_sorted(v0);
    }
    // The levels below first.
    let mut i: usize = 0;
    while i < nodes.len()
        invariant
            i <= nodes@.len(),
            v0.len() == nodes@.len(),
            children_sorted(v0).len() == v0.len(),
            forall|j: int|
                0 <= j < i ==> #[trigger] node_view(nodes@[j]) == children_sorted(v0)[j],
            forall|j: int| i <= j < nodes@.len() ==> #[trigger] nodes@[j] == old(nodes)@[j],
            v0 == nodes_view(old(nodes)@),
            nodes_view(old(nodes)@).len() == old(nodes)@.len(),
            forall|j: int| 0 <= j < old(nodes)@.len() ==> #[trigger] nodes_view(old(nodes)@)[j] == node_view(old(nodes)@[j]),
            forall|j: int|
                0 <= j < v0.len() ==> #[trigger] children_sorted(v0)[j] == (NodeView {
                    children: sorted_tree(v0[j].children),
                    ..v0[j]
                }),
        decreases nodes@.len() - i,
    {
        let ghost before = nodes@;
        let mut node = nodes.remove(i);
        proof {
            assert(node == old(nodes)@[i as int]);
        }
        sort_tree(&mut node.children);
        nodes.insert(i, node);
        proof {
            assert(nodes@ =~= before.update(i as int, node));
        }
        i += 1;
    }
    proof {
        lemma_nodes_view_ext(nodes@, children_sorted(v0));
    }
    // Then this level, by insertion.
    let ghost w = nodes_view(nodes@);
    let mut rest: Vec<FileTreeNode> = Vec::new();
    std::mem::swap(nodes, &mut rest);
    let mut k: usize = 0;
    let n = rest.len();
    while 0 < rest.len()
        invariant
            k + rest@.len() == n,
            n == w.len(),
            nodes_view(rest@) == w.skip(k as int),
            nodes_view(nodes@) == sort_level(w.take(k as int)),
        decreases rest@.len(),
    {
        proof {
            lemma_nodes_view(rest@);
        }
        let ghost r0 = rest@;
        let x = rest.remove(0);
        proof {
            lemma_nodes_view(rest@);
            assert(rest@ =~= r0.subrange(1, r0.len() as int));
            assert(w.skip(k as int)[0] == node_view(r0[0]));
            assert forall|i: int| 0 <= i < rest@.len() implies nodes_view(rest@)[i] == w.skip(
                k + 1,
            )[i] by {
                assert(rest@[i] == r0[i + 1]);
                assert(w.skip(k as int)[i + 1] == nodes_view(r0)[i + 1]);
            }
            assert(nodes_view(rest@) =~= w.skip(k + 1));
            assert(w.take(k + 1).drop_last() =~= w.take(k as int));
            assert(w.take(k + 1).last() == node_view(x));
        }
        let mut p: usize = 0;
        proof {
            lemma_nodes_view(nodes@);
            assert(nodes_view(nodes@).skip(0) =~= nodes_view(nodes@));
            assert(nodes_view(nodes@).take(0) =~= Seq::<NodeView>::empty());
            assert(nodes_view(nodes@).take(0) + insert_node(node_view(x), nodes_view(nodes@).skip(0))
                =~= insert_node(node_view(x), nodes_view(nodes@)));
        }
        while p < nodes.len() && !before_exec(&x, &nodes[p])
            invariant
                p <= nodes@.len(),
                nodes_view(nodes@).len() == nodes@.len(),
                forall|j: int| 0 <= j < nodes@.len() ==> #[trigger] nodes_view(nodes@)[j] == node_view(nodes@[j]),
                insert_node(node_view(x), nodes_view(nodes@)) == nodes_view(nodes@).take(p as int)
                    + insert_node(node_view(x), nodes_view(nodes@).skip(p as int)),
            decreases nodes@.len() - p,
        {
            proof {
                let s = nodes_view(nodes@).skip(p as int);
                assert(s[0] == node_view(nodes@[p as int]));
                assert(s.drop_first() =~= nodes_view(nodes@).skip(p + 1));
                assert(nodes_view(nodes@).take(p + 1) =~= nodes_view(nodes@).take(p as int).push(
                    s[0],
                ));
                assert(nodes_view(nodes@).take(p as int) + insert_node(node_view(x), s) =~= nodes_view(
                    nodes@,
                ).take(p + 1) + insert_node(node_view(x), s.drop_first()));
            }
            p += 1;
        }
        let ghost before = nodes@;
        let ghost bv = nodes_view(nodes@);
        let ghost xv = node_view(x);
        nodes.insert(p, x);
        proof {
            lemma_nodes_view(nodes@);
            let s = bv.skip(p as int);
            if p < bv.len() {
                assert(node_before(xv, s[0]));
            } else {
                assert(s =~= Seq::<NodeView>::empty());
            }
            assert(insert_node(xv, s) =~= seq![xv] + s);
            assert(nodes_view(nodes@) =~= bv.take(p as int) + (seq![xv] + s));
        }
        k += 1;
    }
    proof {
        assert(w.take(n as int) =~= w);
    }
}

} // verus!
