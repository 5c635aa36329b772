//! A read-only view of the borrow graph for queries: its nodes, its leaf
//! nodes and leaf edges, the edges blocking a node, and whether it is
//! acyclic.
use vstd::prelude::*;
use crate::node::{PcgNode, LocalNode, local_to_node, node_to_local};
use crate::edge_kind::kind_blocked_by_nodes;
use crate::graph::{BorrowsGraph, blocks, succ, is_node_of, acyclic};

verus! {

/// A view of a borrow graph that is only read.
pub struct FrozenGraphRef<'graph> {
    pub graph: &'graph BorrowsGraph,
}

/// A local node of the graph that no edge blocks.
pub open spec fn is_leaf_node(s: Seq<crate::edge_kind::BorrowPcgEdgeKind>, l: LocalNode) -> bool {
    &&& exists|n: PcgNode| #[trigger] is_node_of(s, n) && node_to_local(n) == Some(l)
    &&& !exists|i: int| 0 <= i < s.len() && blocks(s, i, local_to_node(l))
}

/// An edge none of whose blocking nodes is blocked by an edge.
pub open spec fn is_leaf_edge(s: Seq<crate::edge_kind::BorrowPcgEdgeKind>, i: int) -> bool {
    !exists|j: int| 0 <= j < s.len() && #[trigger] succ(s, i, j)
}

impl BorrowsGraph {
    /// A read-only view of the graph.
    pub fn frozen_graph(&self) -> (f: FrozenGraphRef<'_>)
        ensures
            *f.graph == *self,
    {
        FrozenGraphRef { graph: self }
    }
}

impl<'graph> FrozenGraphRef<'graph> {
    /// The view of `graph`.
    pub fn new(graph: &'graph BorrowsGraph) -> (f: Self)
        ensures
            *f.graph == *graph,
    {
        FrozenGraphRef { graph }
    }

    /// Whether no edge blocks `node`.
    pub fn is_leaf(&self, node: &LocalNode) -> (b: bool)
        ensures
            b == !exists|i: int| 0 <= i < self.graph.edges@.len() && blocks(self.graph.edges@, i, local_to_node(*node)),
    {
        self.graph.is_leaf(node)
    }

    /// The nodes of the graph, each once.
    pub fn nodes(&self) -> (v: Vec<PcgNode>)
        ensures
            forall|n: PcgNode| v@.contains(n) <==> is_node_of(self.graph.edges@, n),
            forall|a: int, b: int| 0 <= a < b < v@.len() ==> v@[a] != v@[b],
    {
        self.graph.nodes()
    }

    /// The local nodes of the graph that no edge blocks.
    pub fn leaf_nodes(&self) -> (v: Vec<LocalNode>)
        ensures
            forall|l: LocalNode| v@.contains(l) <==> is_leaf_node(self.graph.edges@, l),
    {
        let ghost s = self.graph.edges@;
        let nodes = self.nodes();
        let mut v: Vec<LocalNode> = Vec::new();
        let mut k: usize = 0;
        while k < nodes.len()
            invariant
                s == self.graph.edges@,
                forall|n: PcgNode| nodes@.contains(n) <==> is_node_of(s, n),
                k <= nodes@.len(),
                forall|l: LocalNode| v@.contains(l) <==> (
                    (exists|q: int| 0 <= q < k && node_to_local(#[trigger] nodes@[q]) == Some(l))
                    && !exists|i: int| 0 <= i < s.len() && blocks(s, i, local_to_node(l))),
            decreases nodes.len() - k,
        {
            let ghost v0 = v@;
            match nodes[k].as_local_node() {
                Some(l) => {
                    if self.is_leaf(&l) {
                        v.push(l);
                    }
                },
                None => {},
            }
            proof {
                assert forall|l: LocalNode| v@.contains(l) <==> (
                    (exists|q: int| 0 <= q < k + 1 && node_to_local(#[trigger] nodes@[q]) == Some(l))
                    && !exists|i: int| 0 <= i < s.len() && blocks(s, i, local_to_node(l))) by {
                    if v@.contains(l) {
                        let t = choose|t: int| 0 <= t < v@.len() && v@[t] == l;
                        if t < v0.len() {
                            assert(v0[t] == l);
                            assert(v0.contains(l));
                            let q = choose|q: int| 0 <= q < k && node_to_local(#[trigger] nodes@[q]) == Some(l);
                            assert(0 <= q < k + 1 && node_to_local(nodes@[q]) == Some(l));
                        } else {
                            assert(node_to_local(nodes@[k as int]) == Some(l));
                        }
                    }
                    if (exists|q: int| 0 <= q < k + 1 && node_to_local(#[trigger] nodes@[q]) == Some(l))
                        && !exists|i: int| 0 <= i < s.len() && blocks(s, i, local_to_node(l)) {
                        let q = choose|q: int| 0 <= q < k + 1 && node_to_local(#[trigger] nodes@[q]) == Some(l);
                        if q < k {
                            assert(v0.contains(l));
                            let t = choose|t: int| 0 <= t < v0.len() && v0[t] == l;
                            assert(v@[t] == l);
                        } else {
                            assert(v@[v@.len() - 1] == l);
                        }
                    }
                }
            }
            k = k + 1;
        }
        proof {
            assert forall|l: LocalNode| v@.contains(l) <==> is_leaf_node(s, l) by {
                if v@.contains(l) {
                    let q = choose|q: int| 0 <= q < k && node_to_local(#[trigger] nodes@[q]) == Some(l);
                    assert(nodes@.contains(nodes@[q]));
                    assert(is_node_of(s, nodes@[q]));
                }
                if is_leaf_node(s, l) {
                    let n = choose|n: PcgNode| #[trigger] is_node_of(s, n) && node_to_local(n) == Some(l);
                    assert(nodes@.contains(n));
                    let q = choose|q: int| 0 <= q < nodes@.len() && nodes@[q] == n;
                    assert(node_to_local(nodes@[q]) == Some(l));
                }
            }
        }
        v
    }

    /// The indices of the edges that block `node`, in increasing order.
    pub fn get_edges_blocking(&self, node: &PcgNode) -> (v: Vec<usize>)
        ensures
            forall|k: int| 0 <= k < v@.len() ==> #[trigger] v@[k] < self.graph.edges@.len(),
            forall|a: int, b: int| 0 <= a < b < v@.len() ==> v@[a] < v@[b],
            forall|i: int| 0 <= i < self.graph.edges@.len() ==>
                (v@.contains(i as usize) <==> blocks(self.graph.edges@, i, *node)),
    {
        self.graph.edges_blocking(node)
    }

    /// Whether some edge blocks `node`.
    pub fn has_edge_blocking(&self, node: &PcgNode) -> (b: bool)
        ensures
            b == exists|i: int| 0 <= i < self.graph.edges@.len() && blocks(self.graph.edges@, i, *node),
    {
        self.graph.has_edge_blocking(node)
    }

    /// The indices of the edges none of whose blocking nodes any edge
    /// blocks, in increasing order.
    pub fn leaf_edges(&self) -> (v: Vec<usize>)
        ensures
            forall|k: int| 0 <= k < v@.len() ==> #[trigger] v@[k] < self.graph.edges@.len(),
            forall|a: int, b: int| 0 <= a < b < v@.len() ==> v@[a] < v@[b],
            forall|i: int| 0 <= i < self.graph.edges@.len() ==>
                (v@.contains(i as usize) <==> is_leaf_edge(self.graph.edges@, i)),
    {
        let ghost s = self.graph.edges@;
        let n = self.graph.edges.len();
        let mut v: Vec<usize> = Vec::new();
        let mut i: usize = 0;
        while i < n
            invariant
                s == self.graph.edges@,
                n == s.len(),
                i <= n,
                forall|k: int| 0 <= k < v@.len() ==> #[trigger] v@[k] < i,
                forall|a: int, b: int| 0 <= a < b < v@.len() ==> v@[a] < v@[b],
                forall|j: int| 0 <= j < i ==> (v@.contains(j as usize) <==> is_leaf_edge(s, j)),
            decreases n - i,
        {
            let bys = self.graph.edges[i].blocked_by_nodes();
            let mut leaf = true;
            let mut t: usize = 0;
            while t < bys.len()
                invariant
                    s == self.graph.edges@,
                    n == s.len(),
                    i < n,
                    bys@ == kind_blocked_by_nodes(s[i as int]),
                    t <= bys@.len(),
                    leaf == !exists|q: int, j: int| 0 <= q < t && 0 <= j < n && #[trigger] blocks(s, j, local_to_node(bys@[q])),
                decreases bys.len() - t,
            {
                if self.graph.has_edge_blocking(&bys[t].to_pcg_node()) {
                    leaf = false;
                }
                t = t + 1;
            }
            proof {
                if leaf {
                    assert forall|j: int| 0 <= j < n implies !#[trigger] succ(s, i as int, j) by {
                        if succ(s, i as int, j) {
                            let q = choose|q: int| 0 <= q < kind_blocked_by_nodes(s[i as int]).len()
                                && blocks(s, j, local_to_node(#[trigger] kind_blocked_by_nodes(s[i as int])[q]));
                            assert(blocks(s, j, local_to_node(bys@[q])));
                        }
                    }
                } else {
                    let (q, j) = choose|q: int, j: int| 0 <= q < t && 0 <= j < n && #[trigger] blocks(s, j, local_to_node(bys@[q]));
                    assert(succ(s, i as int, j));
                }
            }
            let ghost v0 = v@;
            if leaf {
                v.push(i);
            }
            proof {
                assert forall|j: int| 0 <= j < i + 1 implies (v@.contains(j as usize) <==> is_leaf_edge(s, j)) by {
                    if v@.contains(j as usize) {
                        let k = choose|k: int| 0 <= k < v@.len() && v@[k] == j as usize;
                        if k < v0.len() {
                            assert(v0[k] == j as usize);
                            assert(v0.contains(j as usize));
                        }
                    }
                    if j < i && v0.contains(j as usize) {
                        let k = choose|k: int| 0 <= k < v0.len() && v0[k] == j as usize;
                        assert(v@[k] == j as usize);
                    }
                    if j == i && leaf {
                        assert(v@[v@.len() - 1] == j as usize);
                    }
                }
            }
            i = i + 1;
        }
        v
    }

    /// Whether the graph has no cycle.
    pub fn is_acyclic(&self) -> (b: bool)
        ensures
            b == acyclic(self.graph.edges@),
    {
        self.graph.is_acyclic()
    }
}

} // verus!
