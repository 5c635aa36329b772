//! The unblock graph: the edges of the borrow graph that must be removed to
//! unblock some nodes, and the order in which to remove them.
use vstd::prelude::*;
use crate::node::{PcgNode, local_to_node};
use crate::edge_kind::{BorrowPcgEdgeKind, kind_eq, kind_blocked_by_nodes, lemma_kind_eq_equivalence};
use crate::graph::{BorrowsGraph, distinct_edges, has_edge, blocks, succ, acyclic, removal_order,
    removal_rounds, lemma_removal_order_acyclic, lemma_closed_cycle_not_acyclic};
use crate::search::{adj_wf, is_path, avoids, reaches_avoiding, mark_reachable};
use crate::error::PcgInternalError;

verus! {

/// An action that removes an edge from the borrow graph.
#[derive(Debug)]
pub struct BorrowPcgUnblockAction {
    pub edge: BorrowPcgEdgeKind,
}

impl BorrowPcgUnblockAction {
    /// The action that removes `edge`.
    pub fn new(edge: BorrowPcgEdgeKind) -> (a: Self)
        ensures
            a.edge == edge,
    {
        BorrowPcgUnblockAction { edge }
    }

    /// The edge that the action removes.
    pub fn edge(&self) -> (e: &BorrowPcgEdgeKind)
        ensures
            *e == self.edge,
    {
        &self.edge
    }
}

/// A sequence of edges in which consecutive edges are successors: each
/// edge blocks a node that blocks through the edge before it.
pub open spec fn succ_path(s: Seq<BorrowPcgEdgeKind>, path: Seq<int>) -> bool {
    &&& path.len() > 0
    &&& forall|k: int| 0 <= k < path.len() ==> 0 <= #[trigger] path[k] < s.len()
    &&& forall|k: int| 0 <= k < path.len() - 1 ==> succ(s, path[k], #[trigger] path[k + 1])
}

/// The edge at index `j` is reached from the edge at index `i` through
/// successors: removing `i` requires removing `j` first.
pub open spec fn edge_reaches(s: Seq<BorrowPcgEdgeKind>, i: int, j: int) -> bool {
    exists|path: Seq<int>| #[trigger] succ_path(s, path) && path[0] == i && path.last() == j
}

/// The edge at index `j` must be removed to unblock one of `nodes`: it is
/// reached from an edge that blocks one of them.
pub open spec fn needed_to_unblock(s: Seq<BorrowPcgEdgeKind>, nodes: Seq<PcgNode>, j: int) -> bool {
    exists|m: int, i: int| 0 <= m < nodes.len() && 0 <= i < s.len() && #[trigger] blocks(s, i, nodes[m])
        && #[trigger] edge_reaches(s, i, j)
}

/// Edge `e` is one of the edges needed to unblock one of `nodes`.
pub open spec fn from_needed(s: Seq<BorrowPcgEdgeKind>, nodes: Seq<PcgNode>, e: BorrowPcgEdgeKind) -> bool {
    exists|j: int| 0 <= j < s.len() && needed_to_unblock(s, nodes, j) && kind_eq(e, #[trigger] s[j])
}

/// Unblocking several lists of nodes together takes the union: an edge is
/// needed to unblock the nodes of `a` followed by those of `b` exactly
/// when it is needed for `a` or for `b`.
pub proof fn lemma_needed_union(s: Seq<BorrowPcgEdgeKind>, a: Seq<PcgNode>, b: Seq<PcgNode>, j: int)
    ensures
        needed_to_unblock(s, a + b, j) <==> (needed_to_unblock(s, a, j) || needed_to_unblock(s, b, j)),
{
    if needed_to_unblock(s, a + b, j) {
        let (m, i) = choose|m: int, i: int| 0 <= m < (a + b).len() && 0 <= i < s.len()
            && #[trigger] blocks(s, i, (a + b)[m]) && #[trigger] edge_reaches(s, i, j);
        if m < a.len() {
            assert((a + b)[m] == a[m]);
            assert(blocks(s, i, a[m]));
        } else {
            assert((a + b)[m] == b[m - a.len()]);
            assert(blocks(s, i, b[m - a.len()]));
        }
    }
    if needed_to_unblock(s, a, j) {
        let (m, i) = choose|m: int, i: int| 0 <= m < a.len() && 0 <= i < s.len()
            && #[trigger] blocks(s, i, a[m]) && #[trigger] edge_reaches(s, i, j);
        assert((a + b)[m] == a[m]);
        assert(blocks(s, i, (a + b)[m]));
    }
    if needed_to_unblock(s, b, j) {
        let (m, i) = choose|m: int, i: int| 0 <= m < b.len() && 0 <= i < s.len()
            && #[trigger] blocks(s, i, b[m]) && #[trigger] edge_reaches(s, i, j);
        assert((a + b)[a.len() + m] == b[m]);
        assert(blocks(s, i, (a + b)[a.len() + m]));
    }
}

/// The edges of `acts`, in order, are the edges of `edges` taken in the
/// removal order `order`.
pub open spec fn action_order(edges: Seq<BorrowPcgEdgeKind>, acts: Seq<BorrowPcgUnblockAction>, order: Seq<int>) -> bool {
    &&& removal_order(edges, order)
    &&& acts.len() == order.len()
    &&& forall|k: int| 0 <= k < acts.len() ==> kind_eq(#[trigger] acts[k].edge, edges[order[k]])
}

/// The actions remove the edges, each once, in an order in which no edge
/// goes before an edge that blocks a node blocking through it.
pub open spec fn removes_in_order(edges: Seq<BorrowPcgEdgeKind>, acts: Seq<BorrowPcgUnblockAction>) -> bool {
    exists|order: Seq<int>| action_order(edges, acts, order)
}

/// A set of edges of the borrow graph that are to be removed.
#[derive(Debug)]
pub struct UnblockGraph {
    pub edges: Vec<BorrowPcgEdgeKind>,
}

/// The adjacency of the successor relation is that of `succ`.
pub open spec fn succ_adjacency(s: Seq<BorrowPcgEdgeKind>, g: Seq<Seq<usize>>) -> bool {
    &&& g.len() == s.len()
    &&& adj_wf(g)
    &&& forall|i: int, j: int| 0 <= i < s.len() && 0 <= j < s.len() ==> (#[trigger] g[i].contains(j as usize) <==> succ(s, i, j))
}

/// Paths of the adjacency are successor paths.
proof fn lemma_paths_agree(s: Seq<BorrowPcgEdgeKind>, g: Seq<Seq<usize>>, path: Seq<int>)
    requires
        succ_adjacency(s, g),
    ensures
        is_path(g, path) <==> succ_path(s, path),
{
    if is_path(g, path) {
        assert forall|k: int| 0 <= k < path.len() - 1 implies succ(s, path[k], #[trigger] path[k + 1]) by {
            assert(g[path[k]].contains(path[k + 1] as usize));
            let q = choose|q: int| 0 <= q < g[path[k]].len() && g[path[k]][q] == path[k + 1] as usize;
            assert(g[path[k]][q] < g.len());
        }
    }
    if succ_path(s, path) {
        assert forall|k: int| 0 <= k < path.len() - 1 implies g[path[k]].contains(#[trigger] path[k + 1] as usize) by {
            assert(succ(s, path[k], path[k + 1]));
        }
    }
}

/// The marking in which nothing is marked.
pub open spec fn no_marks(n: nat) -> Seq<bool> {
    Seq::new(n, |b: int| false)
}

/// A marking that holds the successors of each marked node.
pub open spec fn closed_marking(g: Seq<Seq<usize>>, m: Seq<bool>) -> bool {
    forall|b: int, k: int| 0 <= b < g.len() && m[b] && 0 <= k < g[b].len() ==> m[#[trigger] g[b][k] as int]
}

/// From a closed marking, a path that reaches a marked node ends at a
/// marked node.
proof fn lemma_closed_stays(g: Seq<Seq<usize>>, m: Seq<bool>, path: Seq<int>, j: int)
    requires
        adj_wf(g),
        g.len() <= usize::MAX,
        m.len() == g.len(),
        closed_marking(g, m),
        is_path(g, path),
        0 <= j < path.len(),
        m[path[j]],
    ensures
        m[path.last()],
    decreases path.len() - j,
{
    if j < path.len() - 1 {
        let a = path[j];
        assert(g[a].contains(path[j + 1] as usize));
        let q = choose|q: int| 0 <= q < g[a].len() && g[a][q] == path[j + 1] as usize;
        assert(m[g[a][q] as int]);
        assert(g[a][q] as int == path[j + 1]);
        lemma_closed_stays(g, m, path, j + 1);
    }
}

/// From a closed marking, marking what a node reaches through unmarked
/// nodes marks what it reaches at all.
pub(crate) proof fn lemma_closed_reach(g: Seq<Seq<usize>>, m: Seq<bool>, start: int, b: int)
    requires
        adj_wf(g),
        g.len() <= usize::MAX,
        m.len() == g.len(),
        closed_marking(g, m),
    ensures
        (m[b] || reaches_avoiding(g, m, start, b)) <==> (m[b] || reaches_avoiding(g, no_marks(g.len()), start, b)),
{
    if reaches_avoiding(g, m, start, b) {
        let path = choose|path: Seq<int>| #[trigger] is_path(g, path) && path[0] == start && path.last() == b && avoids(m, path);
        assert(avoids(no_marks(g.len()), path));
    }
    if reaches_avoiding(g, no_marks(g.len()), start, b) && !m[b] {
        let path = choose|path: Seq<int>| #[trigger] is_path(g, path) && path[0] == start && path.last() == b
            && avoids(no_marks(g.len()), path);
        assert forall|k: int| 0 <= k < path.len() implies !m[#[trigger] path[k]] by {
            if m[path[k]] {
                lemma_closed_stays(g, m, path, k);
            }
        }
        assert(reaches_avoiding(g, m, start, b));
    }
}

/// Reachability in the adjacency is reachability through successors.
proof fn lemma_reach_agree(s: Seq<BorrowPcgEdgeKind>, g: Seq<Seq<usize>>, i: int, j: int)
    requires
        succ_adjacency(s, g),
    ensures
        reaches_avoiding(g, no_marks(g.len()), i, j) <==> edge_reaches(s, i, j),
{
    if reaches_avoiding(g, no_marks(g.len()), i, j) {
        let path = choose|path: Seq<int>| #[trigger] is_path(g, path) && path[0] == i && path.last() == j
            && avoids(no_marks(g.len()), path);
        lemma_paths_agree(s, g, path);
    }
    if edge_reaches(s, i, j) {
        let path = choose|path: Seq<int>| #[trigger] succ_path(s, path) && path[0] == i && path.last() == j;
        lemma_paths_agree(s, g, path);
        assert(avoids(no_marks(g.len()), path));
    }
}

/// The successor lists of the edges of a graph.
fn successor_lists(graph: &BorrowsGraph) -> (adj: Vec<Vec<usize>>)
    ensures
        succ_adjacency(graph.edges@, adj@.map_values(|v: Vec<usize>| v@)),
{
    let ghost s = graph.edges@;
    let n = graph.edges.len();
    let mut adj: Vec<Vec<usize>> = Vec::new();
    let mut i: usize = 0;
    while i < n
        invariant
            n == s.len(),
            s == graph.edges@,
            i <= n,
            adj@.len() == i,
            forall|a: int, k: int| 0 <= a < i && 0 <= k < adj@[a]@.len() ==> (#[trigger] adj@[a]@[k]) < n,
            forall|a: int, j: int| 0 <= a < i && 0 <= j < n ==> (#[trigger] adj@[a]@.contains(j as usize) <==> succ(s, a, j)),
        decreases n - i,
    {
        let bys = graph.edges[i].blocked_by_nodes();
        let mut list: Vec<usize> = Vec::new();
        let mut t: usize = 0;
        while t < bys.len()
            invariant
                n == s.len(),
                s == graph.edges@,
                i < n,
                bys@ == kind_blocked_by_nodes(s[i as int]),
                t <= bys@.len(),
                forall|k: int| 0 <= k < list@.len() ==> (#[trigger] list@[k]) < n,
                forall|j: int| 0 <= j < n ==> (#[trigger] list@.contains(j as usize) <==>
                    exists|q: int| 0 <= q < t && blocks(s, j, local_to_node(#[trigger] bys@[q]))),
            decreases bys.len() - t,
        {
            let node = bys[t].to_pcg_node();
            let js = graph.edges_blocking(&node);
            let ghost before = list@;
            let mut u: usize = 0;
            while u < js.len()
                invariant
                    n == s.len(),
                    s == graph.edges@,
                    forall|k: int| 0 <= k < js@.len() ==> #[trigger] js@[k] < n,
                    u <= js@.len(),
                    list@ == before + js@.subrange(0, u as int),
                decreases js.len() - u,
            {
                list.push(js[u]);
                u = u + 1;
                assert(list@ =~= before + js@.subrange(0, u as int));
            }
            proof {
                assert(js@.subrange(0, js@.len() as int) =~= js@);
                assert forall|k: int| 0 <= k < list@.len() implies (#[trigger] list@[k]) < n by {
                    if k >= before.len() {
                        assert(list@[k] == js@[k - before.len()]);
                    }
                }
                assert forall|j: int| 0 <= j < n implies (#[trigger] list@.contains(j as usize) <==>
                    exists|q: int| 0 <= q < t + 1 && blocks(s, j, local_to_node(#[trigger] bys@[q]))) by {
                    if list@.contains(j as usize) {
                        let k = choose|k: int| 0 <= k < list@.len() && list@[k] == j as usize;
                        if k < before.len() {
                            assert(before[k] == j as usize);
                            assert(before.contains(j as usize));
                        } else {
                            assert(js@[k - before.len()] == j as usize);
                            assert(js@.contains(j as usize));
                            assert(blocks(s, j, local_to_node(bys@[t as int])));
                        }
                    }
                    if exists|q: int| 0 <= q < t + 1 && blocks(s, j, local_to_node(#[trigger] bys@[q])) {
                        let q = choose|q: int| 0 <= q < t + 1 && blocks(s, j, local_to_node(#[trigger] bys@[q]));
                        if q < t {
                            assert(before.contains(j as usize));
                            let k = choose|k: int| 0 <= k < before.len() && before[k] == j as usize;
                            assert(list@[k] == j as usize);
                        } else {
                            assert(js@.contains(j as usize));
                            let k = choose|k: int| 0 <= k < js@.len() && js@[k] == j as usize;
                            assert(list@[before.len() + k] == j as usize);
                        }
                    }
                }
            }
            t = t + 1;
        }
        proof {
            assert forall|j: int| 0 <= j < n implies (list@.contains(j as usize) <==> succ(s, i as int, j)) by {
                if list@.contains(j as usize) {
                    let q = choose|q: int| 0 <= q < t && blocks(s, j, local_to_node(#[trigger] bys@[q]));
                    assert(succ(s, i as int, j));
                }
                if succ(s, i as int, j) {
                    let q = choose|q: int| 0 <= q < kind_blocked_by_nodes(s[i as int]).len()
                        && blocks(s, j, local_to_node(#[trigger] kind_blocked_by_nodes(s[i as int])[q]));
                    assert(blocks(s, j, local_to_node(bys@[q])));
                }
            }
        }
        adj.push(list);
        proof {
            assert forall|a: int, j: int| 0 <= a < i + 1 && 0 <= j < n implies (#[trigger] adj@[a]@.contains(j as usize) <==> succ(s, a, j)) by {
                if a == i {
                    assert(adj@[a] == list);
                }
            }
        }
        i = i + 1;
    }
    proof {
        let g = adj@.map_values(|v: Vec<usize>| v@);
        assert forall|b: int, k: int| 0 <= b < g.len() && 0 <= k < g[b].len() implies (#[trigger] g[b][k]) < g.len() by {
            assert(g[b] == adj@[b]@);
        }
        assert forall|a: int, j: int| 0 <= a < s.len() && 0 <= j < s.len() implies (#[trigger] g[a].contains(j as usize) <==> succ(s, a, j)) by {
            assert(g[a] == adj@[a]@);
        }
    }
    adj
}

/// For each edge of `graph`, whether it is needed to unblock one of
/// `nodes`.
fn needed_marks(nodes: &Vec<PcgNode>, graph: &BorrowsGraph) -> (marks: Vec<bool>)
    ensures
        marks@.len() == graph.edges@.len(),
        forall|x: int| 0 <= x < graph.edges@.len() ==> (#[trigger] marks@[x] <==> needed_to_unblock(graph.edges@, nodes@, x)),
{
    let ghost s = graph.edges@;
    let n = graph.edges.len();
    let adj = successor_lists(graph);
    let ghost g = adj@.map_values(|v: Vec<usize>| v@);
    let mut marks: Vec<bool> = Vec::new();
    let mut z: usize = 0;
    while z < n
        invariant
            z <= n,
            marks@.len() == z,
            forall|b: int| 0 <= b < z ==> !marks@[b],
        decreases n - z,
    {
        marks.push(false);
        z = z + 1;
    }
    proof {
        assert(marks@ =~= no_marks(n as nat));
    }
    let mut m: usize = 0;
    while m < nodes.len()
        invariant
            n == s.len(),
            s == graph.edges@,
            g == adj@.map_values(|v: Vec<usize>| v@),
            succ_adjacency(s, g),
            m <= nodes@.len(),
            marks@.len() == n,
            closed_marking(g, marks@),
            forall|b: int| 0 <= b < n ==> (#[trigger] marks@[b] <==> needed_to_unblock(s, nodes@.subrange(0, m as int), b)),
        decreases nodes.len() - m,
    {
        let js = graph.edges_blocking(&nodes[m]);
        let ghost before = marks@;
        let mut u: usize = 0;
        while u < js.len()
            invariant
                n == s.len(),
                s == graph.edges@,
                g == adj@.map_values(|v: Vec<usize>| v@),
                succ_adjacency(s, g),
                m < nodes@.len(),
                forall|k: int| 0 <= k < js@.len() ==> #[trigger] js@[k] < n,
                forall|i: int| 0 <= i < n ==> (js@.contains(i as usize) <==> blocks(s, i, nodes@[m as int])),
                u <= js@.len(),
                marks@.len() == n,
                closed_marking(g, marks@),
                forall|b: int| 0 <= b < n ==> (#[trigger] marks@[b] <==> (before[b]
                    || exists|k: int| 0 <= k < u && #[trigger] edge_reaches(s, js@[k] as int, b))),
            decreases js.len() - u,
        {
            let ghost m0 = marks@;
            mark_reachable(&adj, &mut marks, js[u]);
            proof {
                assert forall|b: int, k: int| 0 <= b < g.len() && marks@[b] && 0 <= k < g[b].len()
                    implies marks@[#[trigger] g[b][k] as int] by {
                    assert(g[b] == adj@[b]@);
                    if m0[b] {
                        assert(m0[g[b][k] as int]);
                    }
                }
                assert forall|b: int| 0 <= b < n implies (#[trigger] marks@[b] <==> (before[b]
                    || exists|k: int| 0 <= k < u + 1 && #[trigger] edge_reaches(s, js@[k] as int, b))) by {
                    lemma_closed_reach(g, m0, js@[u as int] as int, b);
                    lemma_reach_agree(s, g, js@[u as int] as int, b);
                    if exists|k: int| 0 <= k < u + 1 && #[trigger] edge_reaches(s, js@[k] as int, b) {
                        let k = choose|k: int| 0 <= k < u + 1 && #[trigger] edge_reaches(s, js@[k] as int, b);
                        if k < u {
                            assert(m0[b]);
                        }
                    }
                    if exists|k: int| 0 <= k < u && #[trigger] edge_reaches(s, js@[k] as int, b) {
                        let k = choose|k: int| 0 <= k < u && #[trigger] edge_reaches(s, js@[k] as int, b);
                        assert(0 <= k < u + 1 && edge_reaches(s, js@[k] as int, b));
                    }
                    if edge_reaches(s, js@[u as int] as int, b) {
                        assert(0 <= u < u + 1 && edge_reaches(s, js@[u as int] as int, b));
                    }
                }
            }
            u = u + 1;
        }
        proof {
            let p0 = nodes@.subrange(0, m as int);
            let p1 = nodes@.subrange(0, m + 1);
            assert forall|b: int| 0 <= b < n implies (#[trigger] marks@[b] <==> needed_to_unblock(s, p1, b)) by {
                if needed_to_unblock(s, p1, b) {
                    let (mm, i) = choose|mm: int, i: int| 0 <= mm < p1.len() && 0 <= i < s.len()
                        && #[trigger] blocks(s, i, p1[mm]) && #[trigger] edge_reaches(s, i, b);
                    if mm < m {
                        assert(p0[mm] == p1[mm]);
                        assert(needed_to_unblock(s, p0, b));
                    } else {
                        assert(js@.contains(i as usize));
                        let k = choose|k: int| 0 <= k < js@.len() && js@[k] == i as usize;
                        assert(edge_reaches(s, js@[k] as int, b));
                    }
                }
                if marks@[b] {
                    if before[b] {
                        let (mm, i) = choose|mm: int, i: int| 0 <= mm < p0.len() && 0 <= i < s.len()
                            && #[trigger] blocks(s, i, p0[mm]) && #[trigger] edge_reaches(s, i, b);
                        assert(p1[mm] == p0[mm]);
                    } else {
                        let k = choose|k: int| 0 <= k < js@.len() && #[trigger] edge_reaches(s, js@[k] as int, b);
                        assert(js@.contains(js@[k]));
                        assert(blocks(s, js@[k] as int, nodes@[m as int]));
                        assert(p1[m as int] == nodes@[m as int]);
                        assert(blocks(s, js@[k] as int, p1[m as int]));
                    }
                }
            }
        }
        m = m + 1;
    }
    proof {
        assert(nodes@.subrange(0, nodes@.len() as int) =~= nodes@);
    }
    marks
}

impl BorrowsGraph {
    /// The indices of the edges reached from the edges that block `node`,
    /// through the nodes that block through them, in increasing order: the
    /// edges to remove to unblock `node`.
    pub fn descendant_edges(&self, node: &PcgNode) -> (v: Vec<usize>)
        ensures
            forall|k: int| 0 <= k < v@.len() ==> #[trigger] v@[k] < self.edges@.len(),
            forall|a: int, b: int| 0 <= a < b < v@.len() ==> v@[a] < v@[b],
            forall|j: int| 0 <= j < self.edges@.len() ==>
                (v@.contains(j as usize) <==> needed_to_unblock(self.edges@, seq![*node], j)),
    {
        let mut nodes: Vec<PcgNode> = Vec::new();
        nodes.push(node.clone());
        assert(nodes@ =~= seq![*node]);
        let marks = needed_marks(&nodes, self);
        let n = self.edges.len();
        let mut v: Vec<usize> = Vec::new();
        let mut j: usize = 0;
        while j < n
            invariant
                n == self.edges@.len(),
                marks@.len() == n,
                forall|x: int| 0 <= x < n ==> (#[trigger] marks@[x] <==> needed_to_unblock(self.edges@, seq![*node], x)),
                j <= n,
                forall|k: int| 0 <= k < v@.len() ==> #[trigger] v@[k] < j,
                forall|a: int, b: int| 0 <= a < b < v@.len() ==> v@[a] < v@[b],
                forall|x: int| 0 <= x < j ==> (v@.contains(x as usize) <==> marks@[x]),
            decreases n - j,
        {
            let ghost v0 = v@;
            if marks[j] {
                v.push(j);
            }
            proof {
                assert forall|x: int| 0 <= x < j + 1 implies (v@.contains(x as usize) <==> marks@[x]) by {
                    if v@.contains(x as usize) {
                        let k = choose|k: int| 0 <= k < v@.len() && v@[k] == x as usize;
                        if k < v0.len() {
                            assert(v0[k] == x as usize);
                            assert(v0.contains(x as usize));
                        }
                    }
                    if x < j && v0.contains(x as usize) {
                        let k = choose|k: int| 0 <= k < v0.len() && v0[k] == x as usize;
                        assert(v@[k] == x as usize);
                    }
                    if x == j && marks@[x] {
                        assert(v@[v@.len() - 1] == x as usize);
                    }
                }
            }
            j = j + 1;
        }
        proof {
            assert forall|x: int| 0 <= x < self.edges@.len() implies
                (v@.contains(x as usize) <==> needed_to_unblock(self.edges@, seq![*node], x)) by {
                assert(v@.contains(x as usize) <==> marks@[x]);
            }
        }
        v
    }
}

impl UnblockGraph {
    /// No edge occurs twice.
    pub open spec fn wf(&self) -> bool {
        distinct_edges(self.edges@)
    }

    /// The graph with no edges.
    pub fn new() -> (g: Self)
        ensures
            g.wf(),
            g.edges@.len() == 0,
    {
        UnblockGraph { edges: Vec::new() }
    }

    /// Whether there is no edge to remove.
    pub fn is_empty(&self) -> (b: bool)
        ensures
            b == (self.edges@.len() == 0),
    {
        self.edges.len() == 0
    }

    /// The edges to remove to unblock `node`.
    pub fn for_node(node: PcgNode, graph: &BorrowsGraph) -> (g: Self)
        requires
            graph.wf(),
        ensures
            g.wf(),
            forall|k: int| 0 <= k < g.edges@.len() ==> from_needed(graph.edges@, seq![node], #[trigger] g.edges@[k]),
            forall|j: int| 0 <= j < graph.edges@.len() && #[trigger] needed_to_unblock(graph.edges@, seq![node], j)
                ==> has_edge(g.edges@, graph.edges@[j]),
    {
        let mut nodes: Vec<PcgNode> = Vec::new();
        nodes.push(node);
        proof {
            assert(nodes@ =~= seq![node]);
        }
        Self::for_nodes(&nodes, graph)
    }

    /// The edges to remove to unblock each of `nodes`: those that block
    /// one of them, and, recursively, those that block a node that blocks
    /// through an edge to remove.
    pub fn for_nodes(nodes: &Vec<PcgNode>, graph: &BorrowsGraph) -> (g: Self)
        requires
            graph.wf(),
        ensures
            g.wf(),
            forall|k: int| 0 <= k < g.edges@.len() ==> from_needed(graph.edges@, nodes@, #[trigger] g.edges@[k]),
            forall|j: int| 0 <= j < graph.edges@.len() && #[trigger] needed_to_unblock(graph.edges@, nodes@, j)
                ==> has_edge(g.edges@, graph.edges@[j]),
    {
        let ghost s = graph.edges@;
        let n = graph.edges.len();
        let marks = needed_marks(nodes, graph);
        let mut edges: Vec<BorrowPcgEdgeKind> = Vec::new();
        let ghost mut picked: Seq<int> = Seq::empty();
        let mut b: usize = 0;
        while b < n
            invariant
                n == s.len(),
                s == graph.edges@,
                graph.wf(),
                b <= n,
                marks@.len() == n,
                forall|x: int| 0 <= x < n ==> (#[trigger] marks@[x] <==> needed_to_unblock(s, nodes@, x)),
                picked.len() == edges@.len(),
                forall|k: int| 0 <= k < picked.len() ==> 0 <= #[trigger] picked[k] < b && marks@[picked[k]],
                forall|k1: int, k2: int| 0 <= k1 < k2 < picked.len() ==> picked[k1] < picked[k2],
                forall|k: int| 0 <= k < edges@.len() ==> kind_eq(#[trigger] edges@[k], s[picked[k]]),
                forall|x: int| 0 <= x < b && marks@[x] ==> exists|k: int| 0 <= k < picked.len() && #[trigger] picked[k] == x,
            decreases n - b,
        {
            let ghost p0 = picked;
            if marks[b] {
                let e = graph.edges[b].dup();
                edges.push(e);
                proof {
                    picked = picked.push(b as int);
                    assert(picked[picked.len() - 1] == b);
                }
            }
            proof {
                assert forall|x: int| 0 <= x < b + 1 && marks@[x] implies exists|k: int| 0 <= k < picked.len() && #[trigger] picked[k] == x by {
                    if x < b {
                        let k = choose|k: int| 0 <= k < p0.len() && #[trigger] p0[k] == x;
                        assert(picked[k] == p0[k]);
                    } else {
                        assert(picked[picked.len() - 1] == x);
                    }
                }
            }
            b = b + 1;
        }
        proof {
            assert forall|k: int| 0 <= k < edges@.len() implies from_needed(s, nodes@, #[trigger] edges@[k]) by {
                let j = picked[k];
                assert(marks@[j]);
                assert(0 <= j < s.len() && needed_to_unblock(s, nodes@, j) && kind_eq(edges@[k], s[j]));
            }
            assert forall|j: int| 0 <= j < s.len() && #[trigger] needed_to_unblock(s, nodes@, j) implies has_edge(edges@, s[j]) by {
                assert(marks@[j]);
                let k = choose|k: int| 0 <= k < picked.len() && #[trigger] picked[k] == j;
                assert(kind_eq(edges@[k], s[j]));
            }
            assert forall|a: int, c: int| 0 <= a < edges@.len() && 0 <= c < edges@.len() && a != c implies !kind_eq(edges@[a], edges@[c]) by {
                assert(picked[a] != picked[c]);
                assert(!kind_eq(s[picked[a]], s[picked[c]]));
                lemma_kind_eq_equivalence(edges@[a], s[picked[a]], edges@[c]);
                lemma_kind_eq_equivalence(s[picked[a]], edges@[a], edges@[c]);
                lemma_kind_eq_equivalence(s[picked[a]], edges@[c], s[picked[c]]);
            }
        }
        UnblockGraph { edges }
    }

    /// The actions that remove the edges in an order in which each edge
    /// goes once nothing blocks through it: a topological order, found in
    /// rounds of removing the edges whose blocking nodes no remaining edge
    /// blocks. Fails where a round removes nothing, that is where the edges
    /// have a cycle.
    pub fn actions(self) -> (r: Result<Vec<BorrowPcgUnblockAction>, PcgInternalError>)
        ensures
            r is Ok <==> acyclic(self.edges@),
            match r {
                Ok(acts) => removes_in_order(self.edges@, acts@),
                Err(e) => e.0@ == "Didn't remove any leaves"@,
            },
    {
        match removal_rounds(&self.edges) {
            Ok(order) => {
                let ghost om = order@.map_values(|x: usize| x as int);
                proof {
                    lemma_removal_order_acyclic(self.edges@, om);
                }
                let mut acts: Vec<BorrowPcgUnblockAction> = Vec::new();
                let mut k: usize = 0;
                while k < order.len()
                    invariant
                        om == order@.map_values(|x: usize| x as int),
                        removal_order(self.edges@, om),
                        k <= order@.len(),
                        acts@.len() == k,
                        forall|q: int| 0 <= q < k ==> kind_eq(#[trigger] acts@[q].edge, self.edges@[om[q]]),
                    decreases order.len() - k,
                {
                    assert(om[k as int] == order@[k as int] as int);
                    let e = self.edges[order[k]].dup();
                    acts.push(BorrowPcgUnblockAction::new(e));
                    k = k + 1;
                }
                proof {
                    assert(action_order(self.edges@, acts@, om));
                    assert(removes_in_order(self.edges@, acts@));
                }
                Ok(acts)
            },
            Err(cycle) => {
                proof {
                    lemma_closed_cycle_not_acyclic(self.edges@, cycle@);
                }
                let msg = "Didn't remove any leaves".to_owned();
                Err(PcgInternalError::new(msg))
            },
        }
    }
}

} // verus!
