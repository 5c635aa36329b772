//! The ancestors of a node of the borrow graph: the edges through which it
//! blocks, and, through the nodes those edges block, the edges through
//! which these block, transitively.
use vstd::prelude::*;
use crate::node::{LocalNode, node_to_local};
use crate::edge_kind::{BorrowPcgEdgeKind, kind_blocked_nodes};
use crate::graph::{BorrowsGraph, blocked_by};
use crate::search::{adj_wf, is_path, avoids, reaches_avoiding, mark_reachable};
use crate::unblock::{no_marks, closed_marking, lemma_closed_reach};

verus! {

/// The edge at index `j` is an ancestor step of the edge at index `i`: a
/// node that `i` blocks, as a local node, blocks through `j`.
pub open spec fn anc_succ(s: Seq<BorrowPcgEdgeKind>, i: int, j: int) -> bool {
    exists|k: int| 0 <= k < kind_blocked_nodes(s[i]).len()
        && node_to_local(#[trigger] kind_blocked_nodes(s[i])[k]) is Some
        && blocked_by(s, j, node_to_local(kind_blocked_nodes(s[i])[k])->0)
}

/// A sequence of edges in which each is an ancestor step of the one
/// before.
pub open spec fn anc_path(s: Seq<BorrowPcgEdgeKind>, path: Seq<int>) -> bool {
    &&& path.len() > 0
    &&& forall|k: int| 0 <= k < path.len() ==> 0 <= #[trigger] path[k] < s.len()
    &&& forall|k: int| 0 <= k < path.len() - 1 ==> anc_succ(s, path[k], #[trigger] path[k + 1])
}

/// The edge at index `j` is reached from the edge at index `i` through
/// ancestor steps.
pub open spec fn anc_reaches(s: Seq<BorrowPcgEdgeKind>, i: int, j: int) -> bool {
    exists|path: Seq<int>| #[trigger] anc_path(s, path) && path[0] == i && path.last() == j
}

/// The edge at index `j` is an ancestor edge of `node`: it is reached
/// through ancestor steps from an edge through which `node` blocks.
pub open spec fn is_ancestor_edge(s: Seq<BorrowPcgEdgeKind>, node: LocalNode, j: int) -> bool {
    exists|i: int| 0 <= i < s.len() && #[trigger] blocked_by(s, i, node) && #[trigger] anc_reaches(s, i, j)
}

/// The adjacency of the ancestor relation.
pub open spec fn anc_adjacency(s: Seq<BorrowPcgEdgeKind>, g: Seq<Seq<usize>>) -> bool {
    &&& g.len() == s.len()
    &&& adj_wf(g)
    &&& forall|i: int, j: int| 0 <= i < s.len() && 0 <= j < s.len() ==> (#[trigger] g[i].contains(j as usize) <==> anc_succ(s, i, j))
}

/// Paths of the adjacency are ancestor paths.
proof fn lemma_anc_paths_agree(s: Seq<BorrowPcgEdgeKind>, g: Seq<Seq<usize>>, path: Seq<int>)
    requires
        anc_adjacency(s, g),
    ensures
        is_path(g, path) <==> anc_path(s, path),
{
    if is_path(g, path) {
        assert forall|k: int| 0 <= k < path.len() - 1 implies anc_succ(s, path[k], #[trigger] path[k + 1]) by {
            assert(g[path[k]].contains(path[k + 1] as usize));
            let q = choose|q: int| 0 <= q < g[path[k]].len() && g[path[k]][q] == path[k + 1] as usize;
            assert(g[path[k]][q] < g.len());
        }
    }
    if anc_path(s, path) {
        assert forall|k: int| 0 <= k < path.len() - 1 implies g[path[k]].contains(#[trigger] path[k + 1] as usize) by {
            assert(anc_succ(s, path[k], path[k + 1]));
        }
    }
}

/// Reachability in the adjacency is reachability through ancestors.
proof fn lemma_anc_reach_agree(s: Seq<BorrowPcgEdgeKind>, g: Seq<Seq<usize>>, i: int, j: int)
    requires
        anc_adjacency(s, g),
    ensures
        reaches_avoiding(g, no_marks(g.len()), i, j) <==> anc_reaches(s, i, j),
{
    if reaches_avoiding(g, no_marks(g.len()), i, j) {
        let path = choose|path: Seq<int>| #[trigger] is_path(g, path) && path[0] == i && path.last() == j
            && avoids(no_marks(g.len()), path);
        lemma_anc_paths_agree(s, g, path);
    }
    if anc_reaches(s, i, j) {
        let path = choose|path: Seq<int>| #[trigger] anc_path(s, path) && path[0] == i && path.last() == j;
        lemma_anc_paths_agree(s, g, path);
        assert(avoids(no_marks(g.len()), path));
    }
}

/// The ancestor-step lists of the edges of a graph.
fn ancestor_lists(graph: &BorrowsGraph) -> (adj: Vec<Vec<usize>>)
    ensures
        anc_adjacency(graph.edges@, adj@.map_values(|v: Vec<usize>| v@)),
{
    let ghost s = graph.edges@;
    let n = graph.edges.len();
    let mut adj: Vec<Vec<usize>> = Vec::new();
    let mut i: usize = 0;
    while i < n
        invariant
            n == s.len(),
            s == graph.edges@,
            i <= n,
            adj@.len() == i,
            forall|a: int, k: int| 0 <= a < i && 0 <= k < adj@[a]@.len() ==> (#[trigger] adj@[a]@[k]) < n,
            forall|a: int, j: int| 0 <= a < i && 0 <= j < n ==> (#[trigger] adj@[a]@.contains(j as usize) <==> anc_succ(s, a, j)),
        decreases n - i,
    {
        let bns = graph.edges[i].blocked_nodes();
        let mut list: Vec<usize> = Vec::new();
        let mut t: usize = 0;
        while t < bns.len()
            invariant
                n == s.len(),
                s == graph.edges@,
                i < n,
                bns@ == kind_blocked_nodes(s[i as int]),
                t <= bns@.len(),
                forall|k: int| 0 <= k < list@.len() ==> (#[trigger] list@[k]) < n,
                forall|j: int| 0 <= j < n ==> (#[trigger] list@.contains(j as usize) <==>
                    exists|q: int| 0 <= q < t && node_to_local(#[trigger] bns@[q]) is Some
                        && blocked_by(s, j, node_to_local(bns@[q])->0)),
            decreases bns.len() - t,
        {
            let ghost before = list@;
            match bns[t].as_local_node() {
                Some(l) => {
                    let js = graph.edges_blocked_by(&l);
                    let mut u: usize = 0;
                    while u < js.len()
                        invariant
                            n == s.len(),
                            s == graph.edges@,
                            forall|k: int| 0 <= k < js@.len() ==> #[trigger] js@[k] < n,
                            u <= js@.len(),
                            list@ == before + js@.subrange(0, u as int),
                        decreases js.len() - u,
                    {
                        list.push(js[u]);
                        u = u + 1;
                        assert(list@ =~= before + js@.subrange(0, u as int));
                    }
                    proof {
                        assert(js@.subrange(0, js@.len() as int) =~= js@);
                        assert forall|k: int| 0 <= k < list@.len() implies (#[trigger] list@[k]) < n by {
                            if k >= before.len() {
                                assert(list@[k] == js@[k - before.len()]);
                            }
                        }
                        assert forall|j: int| 0 <= j < n implies (#[trigger] list@.contains(j as usize) <==>
                            exists|q: int| 0 <= q < t + 1 && node_to_local(#[trigger] bns@[q]) is Some
                                && blocked_by(s, j, node_to_local(bns@[q])->0)) by {
                            if list@.contains(j as usize) {
                                let k = choose|k: int| 0 <= k < list@.len() && list@[k] == j as usize;
                                if k < before.len() {
                                    assert(before[k] == j as usize);
                                    assert(before.contains(j as usize));
                                } else {
                                    assert(js@[k - before.len()] == j as usize);
                                    assert(js@.contains(j as usize));
                                    assert(node_to_local(bns@[t as int]) == Some(l));
                                }
                            }
                            if exists|q: int| 0 <= q < t + 1 && node_to_local(#[trigger] bns@[q]) is Some
                                && blocked_by(s, j, node_to_local(bns@[q])->0) {
                                let q = choose|q: int| 0 <= q < t + 1 && node_to_local(#[trigger] bns@[q]) is Some
                                    && blocked_by(s, j, node_to_local(bns@[q])->0);
                                if q < t {
                                    assert(before.contains(j as usize));
                                    let k = choose|k: int| 0 <= k < before.len() && before[k] == j as usize;
                                    assert(list@[k] == j as usize);
                                } else {
                                    assert(js@.contains(j as usize));
                                    let k = choose|k: int| 0 <= k < js@.len() && js@[k] == j as usize;
                                    assert(list@[before.len() + k] == j as usize);
                                }
                            }
                        }
                    }
                },
                None => {
                    proof {
                        assert forall|j: int| 0 <= j < n implies (#[trigger] list@.contains(j as usize) <==>
                            exists|q: int| 0 <= q < t + 1 && node_to_local(#[trigger] bns@[q]) is Some
                                && blocked_by(s, j, node_to_local(bns@[q])->0)) by {
                            if exists|q: int| 0 <= q < t + 1 && node_to_local(#[trigger] bns@[q]) is Some
                                && blocked_by(s, j, node_to_local(bns@[q])->0) {
                                let q = choose|q: int| 0 <= q < t + 1 && node_to_local(#[trigger] bns@[q]) is Some
                                    && blocked_by(s, j, node_to_local(bns@[q])->0);
                                assert(q < t);
                            }
                        }
                    }
                },
            }
            t = t + 1;
        }
        proof {
            assert forall|j: int| 0 <= j < n implies (list@.contains(j as usize) <==> anc_succ(s, i as int, j)) by {
                if list@.contains(j as usize) {
                    let q = choose|q: int| 0 <= q < t && node_to_local(#[trigger] bns@[q]) is Some
                        && blocked_by(s, j, node_to_local(bns@[q])->0);
                    assert(anc_succ(s, i as int, j));
                }
                if anc_succ(s, i as int, j) {
                    let q = choose|q: int| 0 <= q < kind_blocked_nodes(s[i as int]).len()
                        && node_to_local(#[trigger] kind_blocked_nodes(s[i as int])[q]) is Some
                        && blocked_by(s, j, node_to_local(kind_blocked_nodes(s[i as int])[q])->0);
                    assert(node_to_local(bns@[q]) is Some);
                }
            }
        }
        adj.push(list);
        proof {
            assert forall|a: int, j: int| 0 <= a < i + 1 && 0 <= j < n implies (#[trigger] adj@[a]@.contains(j as usize) <==> anc_succ(s, a, j)) by {
                if a == i {
                    assert(adj@[a] == list);
                }
            }
        }
        i = i + 1;
    }
    proof {
        let g = adj@.map_values(|v: Vec<usize>| v@);
        assert forall|b: int, k: int| 0 <= b < g.len() && 0 <= k < g[b].len() implies (#[trigger] g[b][k]) < g.len() by {
            assert(g[b] == adj@[b]@);
        }
        assert forall|a: int, j: int| 0 <= a < s.len() && 0 <= j < s.len() implies (#[trigger] g[a].contains(j as usize) <==> anc_succ(s, a, j)) by {
            assert(g[a] == adj@[a]@);
        }
    }
    adj
}

impl BorrowsGraph {
    /// The indices of the ancestor edges of `node`, in increasing order:
    /// the edges through which it blocks, and, for each node such an edge
    /// blocks that is a local node, the edges through which that node
    /// blocks, transitively.
    pub fn ancestor_edges(&self, node: &LocalNode) -> (v: Vec<usize>)
        ensures
            forall|k: int| 0 <= k < v@.len() ==> #[trigger] v@[k] < self.edges@.len(),
            forall|a: int, b: int| 0 <= a < b < v@.len() ==> v@[a] < v@[b],
            forall|j: int| 0 <= j < self.edges@.len() ==>
                (v@.contains(j as usize) <==> is_ancestor_edge(self.edges@, *node, j)),
    {
        let ghost s = self.edges@;
        let n = self.edges.len();
        let adj = ancestor_lists(self);
        let ghost g = adj@.map_values(|v: Vec<usize>| v@);
        let mut marks: Vec<bool> = Vec::new();
        let mut z: usize = 0;
        while z < n
            invariant
                z <= n,
                marks@.len() == z,
                forall|b: int| 0 <= b < z ==> !marks@[b],
            decreases n - z,
        {
            marks.push(false);
            z = z + 1;
        }
        proof {
            assert(marks@ =~= no_marks(n as nat));
        }
        let js = self.edges_blocked_by(node);
        let mut u: usize = 0;
        while u < js.len()
            invariant
                n == s.len(),
                s == self.edges@,
                g == adj@.map_values(|v: Vec<usize>| v@),
                anc_adjacency(s, g),
                forall|k: int| 0 <= k < js@.len() ==> #[trigger] js@[k] < n,
                forall|i: int| 0 <= i < n ==> (js@.contains(i as usize) <==> blocked_by(s, i, *node)),
                u <= js@.len(),
                marks@.len() == n,
                closed_marking(g, marks@),
                forall|b: int| 0 <= b < n ==> (#[trigger] marks@[b] <==>
                    exists|k: int| 0 <= k < u && #[trigger] anc_reaches(s, js@[k] as int, b)),
            decreases js.len() - u,
        {
            let ghost m0 = marks@;
            mark_reachable(&adj, &mut marks, js[u]);
            proof {
                assert forall|b: int, k: int| 0 <= b < g.len() && marks@[b] && 0 <= k < g[b].len()
                    implies marks@[#[trigger] g[b][k] as int] by {
                    assert(g[b] == adj@[b]@);
                    if m0[b] {
                        assert(m0[g[b][k] as int]);
                    }
                }
                assert forall|b: int| 0 <= b < n implies (#[trigger] marks@[b] <==>
                    exists|k: int| 0 <= k < u + 1 && #[trigger] anc_reaches(s, js@[k] as int, b)) by {
                    lemma_closed_reach(g, m0, js@[u as int] as int, b);
                    lemma_anc_reach_agree(s, g, js@[u as int] as int, b);
                    if exists|k: int| 0 <= k < u + 1 && #[trigger] anc_reaches(s, js@[k] as int, b) {
                        let k = choose|k: int| 0 <= k < u + 1 && #[trigger] anc_reaches(s, js@[k] as int, b);
                        if k < u {
                            assert(m0[b]);
                        }
                    }
                    if exists|k: int| 0 <= k < u && #[trigger] anc_reaches(s, js@[k] as int, b) {
                        let k = choose|k: int| 0 <= k < u && #[trigger] anc_reaches(s, js@[k] as int, b);
                        assert(0 <= k < u + 1 && anc_reaches(s, js@[k] as int, b));
                    }
                    if anc_reaches(s, js@[u as int] as int, b) {
                        assert(0 <= u < u + 1 && anc_reaches(s, js@[u as int] as int, b));
                    }
                }
            }
            u = u + 1;
        }
        proof {
            assert forall|b: int| 0 <= b < n implies (#[trigger] marks@[b] <==> is_ancestor_edge(s, *node, b)) by {
                if is_ancestor_edge(s, *node, b) {
                    let i = choose|i: int| 0 <= i < s.len() && #[trigger] blocked_by(s, i, *node) && #[trigger] anc_reaches(s, i, b);
                    assert(js@.contains(i as usize));
                    let k = choose|k: int| 0 <= k < js@.len() && js@[k] == i as usize;
                    assert(anc_reaches(s, js@[k] as int, b));
                }
                if marks@[b] {
                    let k = choose|k: int| 0 <= k < js@.len() && #[trigger] anc_reaches(s, js@[k] as int, b);
                    assert(js@.contains(js@[k]));
                    assert(blocked_by(s, js@[k] as int, *node));
                }
            }
        }
        let mut v: Vec<usize> = Vec::new();
        let mut j: usize = 0;
        while j < n
            invariant
                n == s.len(),
                s == self.edges@,
                marks@.len() == n,
                forall|x: int| 0 <= x < n ==> (#[trigger] marks@[x] <==> is_ancestor_edge(s, *node, x)),
                j <= n,
                forall|k: int| 0 <= k < v@.len() ==> #[trigger] v@[k] < j,
                forall|a: int, b: int| 0 <= a < b < v@.len() ==> v@[a] < v@[b],
                forall|x: int| 0 <= x < j ==> (v@.contains(x as usize) <==> marks@[x]),
            decreases n - j,
        {
            let ghost v0 = v@;
            if marks[j] {
                v.push(j);
            }
            proof {
                assert forall|x: int| 0 <= x < j + 1 implies (v@.contains(x as usize) <==> marks@[x]) by {
                    if v@.contains(x as usize) {
                        let k = choose|k: int| 0 <= k < v@.len() && v@[k] == x as usize;
                        if k < v0.len() {
                            assert(v0[k] == x as usize);
                            assert(v0.contains(x as usize));
                        }
                    }
                    if x < j && v0.contains(x as usize) {
                        let k = choose|k: int| 0 <= k < v0.len() && v0[k] == x as usize;
                        assert(v@[k] == x as usize);
                    }
                    if x == j && marks@[x] {
                        assert(v@[v@.len() - 1] == x as usize);
                    }
                }
            }
            j = j + 1;
        }
        proof {
            assert forall|x: int| 0 <= x < s.len() implies
                (v@.contains(x as usize) <==> is_ancestor_edge(s, *node, x)) by {
                assert(v@.contains(x as usize) <==> marks@[x]);
            }
        }
        v
    }
}

} // verus!
