//! The shape of the process tree (a binary heap over the ranks), the path
//! from the root to the process that starts with the token, and the
//! initial token pointers.
use vstd::prelude::*;
use crate::tree::{neighbor_at, NodeView, ProcTree, TO_LEFT, TO_PARENT, TO_RIGHT};

verus! {

broadcast use vstd::std_specs::hash::group_hash_axioms;

/// The parent of `n` in the heap layout, `(n - 1) / 2` with the quotient
/// rounded toward zero as machine division does.
pub open spec fn parent(n: int) -> int {
    if n - 1 >= 0 {
        (n - 1) / 2
    } else {
        -((1 - n) / 2)
    }
}

/// A child slot: the child's rank if it is below `size`, else -1.
pub open spec fn child_slot(c: int, size: int) -> int {
    if c < size {
        c
    } else {
        -1
    }
}

/// The state in which process `rank` of `size` starts, when the token is at
/// `marker_node`. The root has no parent (-1), children 1 and 2, and points
/// left; every other node points to its parent.
pub open spec fn initial_node(rank: i32, size: i32, marker_node: i32) -> NodeView {
    if rank == 0 {
        NodeView {
            queue: Seq::empty(),
            rk: 0i32,
            root: -1i32,
            left: 1i32,
            right: 2i32,
            to_proc: TO_LEFT,
            marker: marker_node == 0,
        }
    } else {
        NodeView {
            queue: Seq::empty(),
            rk: rank,
            root: parent(rank as int) as i32,
            left: child_slot(2 * rank + 1, size as int) as i32,
            right: child_slot(2 * rank + 2, size as int) as i32,
            to_proc: TO_PARENT,
            marker: marker_node == rank,
        }
    }
}

/// Whether `a` lies on the path from the root to `m` (`m` included).
pub open spec fn is_ancestor(a: int, m: nat) -> bool
    decreases m,
{
    a == m || (m > 0 && is_ancestor(a, ((m - 1) / 2) as nat))
}

/// For every proper ancestor of `m`, the child of it on the way down to `m`.
pub open spec fn path_map(m: nat) -> Map<i32, i32>
    decreases m,
{
    if m == 0 {
        Map::empty()
    } else {
        let p = ((m - 1) / 2) as nat;
        path_map(p).insert(p as i32, m as i32)
    }
}

/// The node after its token pointer is turned toward the child that `path`
/// names for it, if that child is one of its children.
pub open spec fn oriented(s: NodeView, path: Map<i32, i32>) -> NodeView {
    if path.contains_key(s.rk) {
        let rel = path[s.rk];
        if s.left != -1 && rel == s.left {
            NodeView { to_proc: TO_LEFT, ..s }
        } else if s.right != -1 && rel == s.right {
            NodeView { to_proc: TO_RIGHT, ..s }
        } else {
            s
        }
    } else {
        s
    }
}

impl ProcTree {
    /// The element of the tree for process `rank` among `size` processes,
    /// with the token at `marker_node`, its queue empty.
    pub fn new(rank: i32, size: i32, marker_node: i32) -> (t: ProcTree)
        requires
            i32::MIN <= 2 * rank + 1,
            2 * rank + 2 <= i32::MAX,
        ensures
            t@ == initial_node(rank, size, marker_node),
            0 < rank < size ==> (t.left == -1 || 0 < t.left < size) && (t.right == -1 || 0
                < t.right < size) && t.root == (rank - 1) / 2,
    {
        proof {
            if 0 <= rank < size {
                law_node_links(rank, size, marker_node);
            }
        }
        if rank == 0 {
            ProcTree {
                queue: Vec::new(),
                rk: 0,
                root: -1,
                left: 1,
                right: 2,
                to_proc: TO_LEFT,
                marker: marker_node == 0,
            }
        } else {
            let mut left = 2 * rank + 1;
            if left >= size {
                left = -1;
            }
            let mut right = 2 * rank + 2;
            if right >= size {
                right = -1;
            }
            ProcTree {
                queue: Vec::new(),
                rk: rank,
                root: (rank - 1) / 2,
                left,
                right,
                to_proc: TO_PARENT,
                marker: marker_node == rank,
            }
        }
    }

    /// Turns the token pointer toward the child that `path` names for this
    /// process, if that child is its left or right child. The root must have
    /// an entry in `path` (it has one unless it holds the token itself).
    pub fn point_to_marker(&mut self, path: &std::collections::HashMap<i32, i32>)
        requires
            old(self).rk == 0 ==> path@.contains_key(0),
        ensures
            final(self)@ == oriented(old(self)@, path@),
    {
        match path.get(&self.rk) {
            Some(rel) => {
                let rel = *rel;
                if self.left != -1 && rel == self.left {
                    self.to_proc = TO_LEFT;
                } else if self.right != -1 && rel == self.right {
                    self.to_proc = TO_RIGHT;
                }
            },
            None => {},
        }
    }
}

/// The path from the root down to `marker_node`: each proper ancestor of it
/// mapped to its child on the way there.
pub fn marker_path(marker_node: i32) -> (path: std::collections::HashMap<i32, i32>)
    requires
        marker_node >= 0,
    ensures
        path@ == path_map(marker_node as nat),
{
    let mut path: std::collections::HashMap<i32, i32> = std::collections::HashMap::new();
    let mut cnt: i32 = marker_node;
    while cnt != 0
        invariant
            0 <= cnt <= marker_node,
            path_map(marker_node as nat) == path_map(cnt as nat).union_prefer_right(path@),
            forall|k: i32| path@.contains_key(k) ==> k >= cnt,
        decreases cnt,
    {
        let p = (cnt - 1) / 2;
        proof {
            let c = cnt as nat;
            let old_path = path@;
            assert(!old_path.contains_key(p));
            assert(path_map(c) == path_map(p as nat).insert(p, cnt));
            assert(path_map(c).union_prefer_right(old_path) =~= path_map(p as nat).union_prefer_right(
                old_path.insert(p, cnt),
            ));
        }
        path.insert(p, cnt);
        cnt = p;
    }
    assert(path_map(0).union_prefer_right(path@) =~= path@);
    path
}

proof fn lemma_ancestor_bounds(a: int, m: nat)
    requires
        is_ancestor(a, m),
    ensures
        0 <= a <= m,
    decreases m,
{
    if a != m {
        lemma_ancestor_bounds(a, ((m - 1) / 2) as nat);
    }
}

/// The path map names exactly the proper ancestors of `m`, and maps each to
/// a child of it that is itself on the way to `m`.
pub proof fn lemma_path_map(m: nat, a: i32)
    requires
        m <= i32::MAX,
    ensures
        path_map(m).contains_key(a) <==> (a != m && is_ancestor(a as int, m)),
        path_map(m).contains_key(a) ==> path_map(m)[a] > a && parent(path_map(m)[a] as int) == a
            && is_ancestor(path_map(m)[a] as int, m),
    decreases m,
{
    if m > 0 {
        let p = ((m - 1) / 2) as nat;
        lemma_path_map(p, a);
        if a as int == p {
            assert(is_ancestor(a as int, p));
        }
        if is_ancestor(a as int, p) {
            lemma_ancestor_bounds(a as int, p);
        }
        if path_map(p).contains_key(a) {
            let c = path_map(p)[a];
            assert(is_ancestor(c as int, m));
        }
    }
}

/// The token pointers the processes start with lead to the token: for every
/// process `n` other than `marker` (`n` and `marker` below `size`), after
/// `new` and `point_to_marker` with `marker_path(marker)`, `to_proc` names a
/// neighbour one step along the tree path toward `marker`: the child leading
/// down to it where `n` lies above it, else the parent. No other process
/// holds the token.
pub proof fn law_initial_pointers(n: i32, size: i32, marker: i32)
    requires
        0 <= n < size,
        0 <= marker < size,
        n != marker,
    ensures
        ({
            let node = oriented(initial_node(n, size, marker), path_map(marker as nat));
            &&& !node.marker
            &&& neighbor_at(node, node.to_proc) matches Some(next) && if is_ancestor(
                n as int,
                marker as nat,
            ) {
                next > n && parent(next as int) == n && is_ancestor(next as int, marker as nat)
            } else {
                next == parent(n as int)
            }
        }),
{
    lemma_path_map(marker as nat, n);
    let s = initial_node(n, size, marker);
    let pm = path_map(marker as nat);
    if is_ancestor(n as int, marker as nat) {
        let c = pm[n];
        lemma_ancestor_bounds(c as int, marker as nat);
        assert(c == 2 * n + 1 || c == 2 * n + 2);
    } else {
        assert(n != 0) by {
            if n == 0 {
                lemma_root_is_ancestor(marker as nat);
            }
        }
    }
}

/// Every process starts with an empty queue, and only the one named to hold
/// the token holds it. The root names no parent (-1) and the children 1 and 2,
/// and points left. Any other process `n` names its parent `(n - 1) / 2` and
/// points to it, and names `2n + 1` and `2n + 2` as its children where they
/// are below `size` and -1 where they are not, so it never names a process
/// that does not exist.
pub proof fn law_node_links(n: i32, size: i32, marker: i32)
    requires
        0 <= n < size,
    ensures
        ({
            let s = initial_node(n, size, marker);
            &&& s.rk == n
            &&& s.queue.len() == 0
            &&& s.marker == (n == marker)
            &&& n == 0 ==> s.root == -1 && s.left == 1 && s.right == 2 && s.to_proc == TO_LEFT
            &&& n > 0 ==> {
                &&& s.root == (n - 1) / 2
                &&& s.to_proc == TO_PARENT
                &&& 2 * n + 1 < size ==> s.left == 2 * n + 1
                &&& 2 * n + 1 >= size ==> s.left == -1
                &&& 2 * n + 2 < size ==> s.right == 2 * n + 2
                &&& 2 * n + 2 >= size ==> s.right == -1
                &&& s.left == -1 || 0 < s.left < size
                &&& s.right == -1 || 0 < s.right < size
            }
        }),
{
}

/// The links of the starting tree agree: every process `c` other than the
/// root names as its parent a process `p` below it that names `c` as its left
/// or right child, and every child that a process names names it as parent.
pub proof fn law_tree_links_agree(n: i32, size: i32, marker: i32)
    requires
        0 <= n < size,
    ensures
        n > 0 ==> ({
            let p = initial_node(n, size, marker).root;
            &&& 0 <= p < n
            &&& initial_node(p, size, marker).left == n || initial_node(p, size, marker).right == n
        }),
        ({
            let s = initial_node(n, size, marker);
            &&& (s.left != -1 && s.left < size) ==> s.left > n && initial_node(s.left, size, marker).root == n
            &&& (s.right != -1 && s.right < size) ==> s.right > n && initial_node(s.right, size, marker).root == n
        }),
{
}

proof fn lemma_root_is_ancestor(m: nat)
    ensures
        is_ancestor(0, m),
    decreases m,
{
    if m > 0 {
        lemma_root_is_ancestor(((m - 1) / 2) as nat);
    }
}

} // verus!
