//! The borrow graph: a set of edges, with the queries that the analysis
//! makes of it (which edges block a node, which nodes are leaves or roots,
//! whether it is acyclic) and the order in which a set of its edges can be
//! removed.
use vstd::prelude::*;
use crate::place::{Place, MaybeLabelledPlace, mlp_place};
use crate::node::{PcgNode, LocalNode, local_to_node, node_to_local};
use crate::validity::{PathCondition, ValidityConditions};
use crate::edge_kind::{BorrowPcgEdgeKind, PcgCoupledEdgeKind, coupled_eq, kind_eq, kind_blocked_nodes, kind_blocked_by_nodes, contains_node,
    lemma_kind_eq_equivalence};

verus! {

/// A value with the conditions under which it holds.
#[derive(Debug)]
pub struct Conditioned<T, Conditions> {
    pub conditions: Conditions,
    pub value: T,
}

impl<T, Conditions> Conditioned<T, Conditions> {
    /// The value `value` under `conditions`.
    pub fn new(value: T, conditions: Conditions) -> (r: Self)
        ensures
            r.value == value,
            r.conditions == conditions,
    {
        Conditioned { conditions, value }
    }

    /// The value.
    pub fn value(&self) -> (v: &T)
        ensures
            *v == self.value,
    {
        &self.value
    }

    /// The kind of the edge: the value that the conditions guard.
    pub fn kind(&self) -> (k: &T)
        ensures
            *k == self.value,
    {
        &self.value
    }

    /// The conditions.
    pub fn conditions(&self) -> (c: &Conditions)
        ensures
            *c == self.conditions,
    {
        &self.conditions
    }
}

/// No two edges of a sequence are equal.
pub open spec fn distinct_edges(s: Seq<BorrowPcgEdgeKind>) -> bool {
    forall|i: int, j: int| 0 <= i < s.len() && 0 <= j < s.len() && i != j ==> !kind_eq(s[i], s[j])
}

/// Whether a sequence of edges holds an edge equal to `k`.
pub open spec fn has_edge(s: Seq<BorrowPcgEdgeKind>, k: BorrowPcgEdgeKind) -> bool {
    exists|i: int| 0 <= i < s.len() && kind_eq(#[trigger] s[i], k)
}

/// Whether the edge at index `i` blocks `node`.
pub open spec fn blocks(s: Seq<BorrowPcgEdgeKind>, i: int, node: PcgNode) -> bool {
    kind_blocked_nodes(s[i]).contains(node)
}

/// Whether `node` blocks through the edge at index `i`.
pub open spec fn blocked_by(s: Seq<BorrowPcgEdgeKind>, i: int, node: LocalNode) -> bool {
    kind_blocked_by_nodes(s[i]).contains(node)
}

/// Whether a node occurs in some edge of the sequence, as a blocked node or
/// as a blocking one.
pub open spec fn in_graph(s: Seq<BorrowPcgEdgeKind>, node: PcgNode) -> bool {
    exists|i: int| 0 <= i < s.len() && #[trigger] touches(s, i, node)
}

/// Whether the edge at index `i` blocks `node` or is blocked by it.
pub open spec fn touches(s: Seq<BorrowPcgEdgeKind>, i: int, node: PcgNode) -> bool {
    blocks(s, i, node) || match node_to_local(node) {
        Some(l) => blocked_by(s, i, l),
        None => false,
    }
}

/// Whether a node is one of the nodes of an edge of the sequence.
pub open spec fn is_node_of(s: Seq<BorrowPcgEdgeKind>, node: PcgNode) -> bool {
    exists|i: int| 0 <= i < s.len() && (kind_blocked_nodes(#[trigger] s[i]).contains(node)
        || exists|j: int| 0 <= j < kind_blocked_by_nodes(s[i]).len()
            && local_to_node(#[trigger] kind_blocked_by_nodes(s[i])[j]) == node)
}

/// The edge at index `j` blocks a node that blocks through the edge at
/// index `i`: `j` must be removed before `i` can be.
pub open spec fn succ(s: Seq<BorrowPcgEdgeKind>, i: int, j: int) -> bool {
    exists|k: int| 0 <= k < kind_blocked_by_nodes(s[i]).len()
        && blocks(s, j, local_to_node(#[trigger] kind_blocked_by_nodes(s[i])[k]))
}

/// Every nonempty set of edges has an edge none of whose successors is in
/// the set: there is no cycle.
pub open spec fn acyclic(s: Seq<BorrowPcgEdgeKind>) -> bool {
    forall|r: Set<int>| #![trigger r.len()] r.finite() && r.len() > 0
        && (forall|i: int| r.contains(i) ==> 0 <= i < s.len())
        ==> exists|i: int| r.contains(i) && (forall|j: int| r.contains(j) ==> !succ(s, i, j))
}

/// A set of edges each of which has a successor in the set.
pub open spec fn closed_cycle(s: Seq<BorrowPcgEdgeKind>, r: Set<int>) -> bool {
    &&& r.finite()
    &&& r.len() > 0
    &&& forall|i: int| r.contains(i) ==> 0 <= i < s.len()
    &&& forall|i: int| r.contains(i) ==> exists|j: int| r.contains(j) && succ(s, i, j)
}

/// An order of removal: every edge occurs once, and each edge's successors
/// are removed before it.
pub open spec fn removal_order(s: Seq<BorrowPcgEdgeKind>, order: Seq<int>) -> bool {
    &&& forall|k: int| 0 <= k < order.len() ==> 0 <= #[trigger] order[k] < s.len()
    &&& forall|a: int, b: int| 0 <= a < b < order.len() ==> order[a] != order[b]
    &&& forall|i: int| 0 <= i < s.len() ==> #[trigger] order.contains(i)
    &&& forall|k: int, j: int| 0 <= k < order.len() && 0 <= j < s.len() && #[trigger] succ(s, order[k], j)
        ==> exists|m: int| 0 <= m < k && order[m] == j
}

/// A graph that has a removal order is acyclic.
pub proof fn lemma_removal_order_acyclic(s: Seq<BorrowPcgEdgeKind>, order: Seq<int>)
    requires
        removal_order(s, order),
    ensures
        acyclic(s),
{
    assert forall|r: Set<int>| #![trigger r.len()] r.finite() && r.len() > 0
        && (forall|i: int| r.contains(i) ==> 0 <= i < s.len())
        implies exists|i: int| r.contains(i) && (forall|j: int| r.contains(j) ==> !succ(s, i, j)) by {
        let x = r.choose();
        assert(r.contains(x));
        assert(order.contains(x));
        let kx = choose|k: int| 0 <= k < order.len() && order[k] == x;
        let k0 = earliest_in(order, r, kx);
        let i = order[k0];
        assert forall|j: int| r.contains(j) implies !succ(s, i, j) by {
            if succ(s, i, j) {
                let m = choose|m: int| 0 <= m < k0 && order[m] == j;
                assert(r.contains(order[m]));
            }
        }
    }
}

/// The earliest position at or before `k` whose element is in `r`.
proof fn earliest_in(order: Seq<int>, r: Set<int>, k: int) -> (m: int)
    requires
        0 <= k < order.len(),
        r.contains(order[k]),
    ensures
        0 <= m <= k,
        r.contains(order[m]),
        forall|p: int| 0 <= p < m ==> !r.contains(#[trigger] order[p]),
    decreases k,
{
    if exists|p: int| 0 <= p < k && r.contains(#[trigger] order[p]) {
        let p = choose|p: int| 0 <= p < k && r.contains(#[trigger] order[p]);
        earliest_in(order, r, p)
    } else {
        k
    }
}

/// A sequence of distinct elements of a finite set is no longer than the
/// set.
pub(crate) proof fn lemma_injective_image_len(order: Seq<int>, t: Set<int>)
    requires
        t.finite(),
        forall|k: int| 0 <= k < order.len() ==> t.contains(#[trigger] order[k]),
        forall|a: int, b: int| 0 <= a < b < order.len() ==> order[a] != order[b],
    ensures
        order.len() <= t.len(),
    decreases order.len(),
{
    if order.len() > 0 {
        let last = order.last();
        let rest = order.drop_last();
        assert forall|k: int| 0 <= k < rest.len() implies t.remove(last).contains(#[trigger] rest[k]) by {
            assert(rest[k] == order[k]);
            assert(order[k] != order[order.len() - 1]);
        }
        assert forall|a: int, b: int| 0 <= a < b < rest.len() implies rest[a] != rest[b] by {
            assert(rest[a] == order[a]);
            assert(rest[b] == order[b]);
        }
        lemma_injective_image_len(rest, t.remove(last));
        assert(t.contains(order[order.len() - 1]));
    }
}

/// A graph with a set of edges each of which has a successor in the set is
/// not acyclic.
pub proof fn lemma_closed_cycle_not_acyclic(s: Seq<BorrowPcgEdgeKind>, r: Set<int>)
    requires
        closed_cycle(s, r),
    ensures
        !acyclic(s),
{
    assert(r.len() > 0);
    if acyclic(s) {
        let i = choose|i: int| r.contains(i) && (forall|j: int| r.contains(j) ==> !succ(s, i, j));
        let j = choose|j: int| r.contains(j) && succ(s, i, j);
    }
}

/// Whether one of a sequence of local nodes, as a graph node, is `n`.
pub open spec fn local_nodes_contain(s: Seq<LocalNode>, n: PcgNode) -> bool {
    exists|m: int| 0 <= m < s.len() && local_to_node(#[trigger] s[m]) == n
}

/// Appends `n` unless it is already there.
pub fn push_unique(v: &mut Vec<PcgNode>, n: PcgNode)
    requires
        forall|a: int, b: int| 0 <= a < b < old(v)@.len() ==> old(v)@[a] != old(v)@[b],
    ensures
        forall|a: int, b: int| 0 <= a < b < final(v)@.len() ==> final(v)@[a] != final(v)@[b],
        forall|x: PcgNode| final(v)@.contains(x) <==> (old(v)@.contains(x) || x == n),
{
    let ghost vk = v@;
    if !contains_node(v, &n) {
        v.push(n);
        proof {
            assert(v@ == vk.push(n));
            assert forall|a: int, b: int| 0 <= a < b < v@.len() implies v@[a] != v@[b] by {
                if b == v@.len() - 1 {
                    assert(v@[a] == vk[a]);
                    if vk[a] == n {
                        assert(vk.contains(n));
                    }
                } else {
                    assert(v@[a] == vk[a] && v@[b] == vk[b]);
                }
            }
            assert forall|x: PcgNode| v@.contains(x) <==> (vk.contains(x) || x == n) by {
                if v@.contains(x) {
                    let q = choose|q: int| 0 <= q < v@.len() && v@[q] == x;
                    if q < vk.len() {
                        assert(vk[q] == x);
                    }
                }
                if vk.contains(x) {
                    let q = choose|q: int| 0 <= q < vk.len() && vk[q] == x;
                    assert(v@[q] == x);
                }
                if x == n {
                    assert(v@[v@.len() - 1] == x);
                }
            }
        }
    }
}

/// The coupled edges among `edges`, in order.
pub open spec fn coupled_kinds(edges: Seq<BorrowPcgEdgeKind>) -> Seq<PcgCoupledEdgeKind>
    decreases edges.len(),
{
    if edges.len() == 0 {
        Seq::empty()
    } else {
        let prev = coupled_kinds(edges.drop_last());
        match edges.last() {
            BorrowPcgEdgeKind::Coupled(c) => prev.push(c),
            _ => prev,
        }
    }
}

/// The conditions of the coupled edges among `edges` (whose conditions are
/// `conds`), in order.
pub open spec fn coupled_conditions(edges: Seq<BorrowPcgEdgeKind>, conds: Seq<ValidityConditions>) -> Seq<Set<PathCondition>>
    decreases edges.len(),
{
    if edges.len() == 0 {
        Seq::empty()
    } else {
        let prev = coupled_conditions(edges.drop_last(), conds.subrange(0, edges.len() - 1));
        match edges.last() {
            BorrowPcgEdgeKind::Coupled(_) => prev.push(conds[edges.len() - 1].view()),
            _ => prev,
        }
    }
}

/// The validity conditions of the edge kinds of a graph: those at the
/// entry whose edge equals `k`.
pub open spec fn conditions_at(edges: Seq<BorrowPcgEdgeKind>, conds: Seq<ValidityConditions>, k: BorrowPcgEdgeKind) -> Set<PathCondition> {
    conds[choose|i: int| 0 <= i < edges.len() && kind_eq(edges[i], k)].view()
}

/// In a graph without repeated edges, the conditions of an edge are those
/// stored beside it.
pub proof fn lemma_conditions_at(edges: Seq<BorrowPcgEdgeKind>, conds: Seq<ValidityConditions>, i: int, k: BorrowPcgEdgeKind)
    requires
        distinct_edges(edges),
        0 <= i < edges.len(),
        kind_eq(edges[i], k),
    ensures
        conditions_at(edges, conds, k) == conds[i].view(),
{
    let j = choose|j: int| 0 <= j < edges.len() && kind_eq(edges[j], k);
    if j != i {
        lemma_kind_eq_equivalence(edges[i], k, edges[j]);
        lemma_kind_eq_equivalence(k, edges[j], edges[j]);
    }
}

/// An edge of the borrow graph with the conditions under which it is valid.
pub type BorrowPcgEdge = Conditioned<BorrowPcgEdgeKind, ValidityConditions>;

/// The borrow graph: a set of edges, no two of them equal, each with its
/// validity conditions (`conditions[i]` belongs to `edges[i]`).
#[derive(Debug)]
pub struct BorrowsGraph {
    pub edges: Vec<BorrowPcgEdgeKind>,
    pub conditions: Vec<ValidityConditions>,
}

impl BorrowsGraph {
    /// No two edges are equal, and each has its conditions.
    pub open spec fn wf(&self) -> bool {
        &&& distinct_edges(self.edges@)
        &&& self.conditions@.len() == self.edges@.len()
    }

    /// The validity conditions of the edge `k`.
    pub open spec fn conditions_of(&self, k: BorrowPcgEdgeKind) -> Set<PathCondition> {
        conditions_at(self.edges@, self.conditions@, k)
    }

    /// The graph without edges.
    pub fn new() -> (g: BorrowsGraph)
        ensures
            g.wf(),
            g.edges@.len() == 0,
    {
        BorrowsGraph { edges: Vec::new(), conditions: Vec::new() }
    }

    /// The edges.
    pub fn edges(&self) -> (v: &Vec<BorrowPcgEdgeKind>)
        ensures
            v@ == self.edges@,
    {
        &self.edges
    }

    /// The number of edges.
    pub fn len(&self) -> (n: usize)
        ensures
            n == self.edges@.len(),
    {
        self.edges.len()
    }

    /// Whether the graph has no edge.
    pub fn is_empty(&self) -> (b: bool)
        ensures
            b == (self.edges@.len() == 0),
    {
        self.edges.len() == 0
    }

    /// The coupled edges of the graph with their conditions, in the order of
    /// the graph's edges.
    pub fn coupled_edges(&self) -> (r: Vec<Conditioned<PcgCoupledEdgeKind, ValidityConditions>>)
        requires
            self.wf(),
        ensures
            r@.len() == coupled_kinds(self.edges@).len(),
            forall|i: int| 0 <= i < r@.len() ==> coupled_eq(#[trigger] r@[i].value, coupled_kinds(self.edges@)[i]),
            forall|i: int| 0 <= i < r@.len() ==> #[trigger] r@[i].conditions.view()
                == coupled_conditions(self.edges@, self.conditions@)[i],
    {
        let mut r: Vec<Conditioned<PcgCoupledEdgeKind, ValidityConditions>> = Vec::new();
        let mut i: usize = 0;
        while i < self.edges.len()
            invariant
                self.wf(),
                i <= self.edges@.len(),
                r@.len() == coupled_kinds(self.edges@.subrange(0, i as int)).len(),
                coupled_conditions(self.edges@.subrange(0, i as int), self.conditions@.subrange(0, i as int)).len() == r@.len(),
                forall|k: int| 0 <= k < r@.len() ==> coupled_eq(#[trigger] r@[k].value, coupled_kinds(self.edges@.subrange(0, i as int))[k]),
                forall|k: int| 0 <= k < r@.len() ==> #[trigger] r@[k].conditions.view()
                    == coupled_conditions(self.edges@.subrange(0, i as int), self.conditions@.subrange(0, i as int))[k],
            decreases self.edges.len() - i,
        {
            assert(self.edges@.subrange(0, i + 1).drop_last() =~= self.edges@.subrange(0, i as int));
            assert(self.conditions@.subrange(0, i + 1).drop_last() =~= self.conditions@.subrange(0, i as int));
            if let BorrowPcgEdgeKind::Coupled(c) = &self.edges[i] {
                r.push(Conditioned::new(c.dup(), self.conditions[i].dup()));
            }
            i = i + 1;
        }
        assert(self.edges@.subrange(0, self.edges@.len() as int) =~= self.edges@);
        assert(self.conditions@.subrange(0, self.conditions@.len() as int) =~= self.conditions@);
        r
    }

    /// The validity conditions of the edge equal to `kind`, if there is one.
    pub fn edge_conditions(&self, kind: &BorrowPcgEdgeKind) -> (r: Option<&ValidityConditions>)
        requires
            self.wf(),
        ensures
            match r {
                Some(c) => has_edge(self.edges@, *kind) && c.view() == self.conditions_of(*kind),
                None => !has_edge(self.edges@, *kind),
            },
    {
        match self.position(kind) {
            Some(i) => {
                proof {
                    lemma_conditions_at(self.edges@, self.conditions@, i as int, *kind);
                }
                Some(&self.conditions[i])
            },
            None => None,
        }
    }

    /// The index of the edge equal to `kind`, if there is one.
    pub fn position(&self, kind: &BorrowPcgEdgeKind) -> (r: Option<usize>)
        ensures
            match r {
                Some(i) => i < self.edges@.len() && kind_eq(self.edges@[i as int], *kind),
                None => !has_edge(self.edges@, *kind),
            },
    {
        let mut i: usize = 0;
        while i < self.edges.len()
            invariant
                i <= self.edges@.len(),
                forall|j: int| 0 <= j < i ==> !kind_eq(self.edges@[j], *kind),
            decreases self.edges.len() - i,
        {
            if self.edges[i].same(kind) {
                return Some(i);
            }
            i = i + 1;
        }
        None
    }

    /// Whether the graph has an edge equal to `kind`.
    pub fn contains_edge(&self, kind: &BorrowPcgEdgeKind) -> (b: bool)
        ensures
            b == has_edge(self.edges@, *kind),
    {
        self.position(kind).is_some()
    }

    /// Adds the edge; where an equal edge is already there, its conditions
    /// are joined with the new ones instead. Returns whether the graph
    /// changed.
    pub fn insert(&mut self, edge: BorrowPcgEdge) -> (changed: bool)
        requires
            old(self).wf(),
        ensures
            final(self).wf(),
            has_edge(final(self).edges@, edge.value),
            forall|k: BorrowPcgEdgeKind| has_edge(old(self).edges@, k) ==> has_edge(final(self).edges@, k),
            forall|k: BorrowPcgEdgeKind| has_edge(final(self).edges@, k) ==>
                has_edge(old(self).edges@, k) || kind_eq(k, edge.value),
            final(self).conditions_of(edge.value) == if has_edge(old(self).edges@, edge.value) {
                old(self).conditions_of(edge.value) + edge.conditions.view()
            } else {
                edge.conditions.view()
            },
            forall|k: BorrowPcgEdgeKind| has_edge(old(self).edges@, k) && !kind_eq(k, edge.value)
                ==> #[trigger] final(self).conditions_of(k) == old(self).conditions_of(k),
            changed == (!has_edge(old(self).edges@, edge.value)
                || !edge.conditions.view().subset_of(old(self).conditions_of(edge.value))),
    {
        let Conditioned { conditions: new_conditions, value: kind } = edge;
        let ghost old_s = self.edges@;
        let ghost old_c = self.conditions@;
        match self.position(&kind) {
            Some(i) => {
                let mut c = self.conditions.remove(i);
                let changed = c.join(&new_conditions);
                self.conditions.insert(i, c);
                proof {
                    let cs = self.conditions@;
                    assert forall|j: int| 0 <= j < cs.len() && j != i implies cs[j] == old_c[j] by {}
                    lemma_conditions_at(old_s, old_c, i as int, kind);
                    lemma_conditions_at(old_s, cs, i as int, kind);
                    assert forall|k: BorrowPcgEdgeKind| has_edge(old_s, k) && !kind_eq(k, kind)
                        implies #[trigger] conditions_at(old_s, cs, k) == conditions_at(old_s, old_c, k) by {
                        let j = choose|j: int| 0 <= j < old_s.len() && kind_eq(#[trigger] old_s[j], k);
                        lemma_conditions_at(old_s, old_c, j, k);
                        lemma_conditions_at(old_s, cs, j, k);
                        if j == i {
                            lemma_kind_eq_equivalence(old_s[j], k, kind);
                            lemma_kind_eq_equivalence(k, old_s[j], kind);
                        }
                    }
                    assert(has_edge(old_s, kind));
                }
                changed
            },
            None => {
                self.edges.push(kind);
                self.conditions.push(new_conditions);
                proof {
                    let s = self.edges@;
                    let cs = self.conditions@;
                    assert(s[old_s.len() as int] == kind);
                    lemma_kind_eq_equivalence(kind, kind, kind);
                    assert forall|a: int, b: int| 0 <= a < s.len() && 0 <= b < s.len() && a != b
                        implies !kind_eq(s[a], s[b]) by {
                        if a < old_s.len() && b < old_s.len() {
                            assert(s[a] == old_s[a] && s[b] == old_s[b]);
                        } else if a < old_s.len() {
                            assert(s[a] == old_s[a]);
                            lemma_kind_eq_equivalence(s[a], kind, kind);
                        } else {
                            assert(s[b] == old_s[b]);
                            lemma_kind_eq_equivalence(s[b], kind, kind);
                        }
                    }
                    assert forall|k: BorrowPcgEdgeKind| has_edge(old_s, k) implies has_edge(s, k) by {
                        let i = choose|i: int| 0 <= i < old_s.len() && kind_eq(#[trigger] old_s[i], k);
                        assert(s[i] == old_s[i]);
                    }
                    assert forall|k: BorrowPcgEdgeKind| has_edge(s, k) implies has_edge(old_s, k) || kind_eq(k, kind) by {
                        let i = choose|i: int| 0 <= i < s.len() && kind_eq(#[trigger] s[i], k);
                        if i < old_s.len() {
                            assert(s[i] == old_s[i]);
                        } else {
                            lemma_kind_eq_equivalence(kind, k, k);
                        }
                    }
                    lemma_conditions_at(s, cs, old_s.len() as int, kind);
                    assert forall|k: BorrowPcgEdgeKind| has_edge(old_s, k) && !kind_eq(k, kind)
                        implies #[trigger] conditions_at(s, cs, k) == conditions_at(old_s, old_c, k) by {
                        let j = choose|j: int| 0 <= j < old_s.len() && kind_eq(#[trigger] old_s[j], k);
                        assert(s[j] == old_s[j] && cs[j] == old_c[j]);
                        lemma_conditions_at(old_s, old_c, j, k);
                        lemma_conditions_at(s, cs, j, k);
                    }
                }
                true
            },
        }
    }

    /// Removes the edge equal to `kind`; returns whether there was one.
    pub fn remove(&mut self, kind: &BorrowPcgEdgeKind) -> (removed: bool)
        requires
            old(self).wf(),
        ensures
            final(self).wf(),
            removed == has_edge(old(self).edges@, *kind),
            !has_edge(final(self).edges@, *kind),
            forall|k: BorrowPcgEdgeKind| has_edge(final(self).edges@, k) <==>
                (has_edge(old(self).edges@, k) && !kind_eq(k, *kind)),
            forall|k: BorrowPcgEdgeKind| has_edge(final(self).edges@, k)
                ==> #[trigger] final(self).conditions_of(k) == old(self).conditions_of(k),
    {
        match self.position(kind) {
            None => {
                proof {
                    assert forall|k: BorrowPcgEdgeKind| has_edge(self.edges@, k) implies !kind_eq(k, *kind) by {
                        let i = choose|i: int| 0 <= i < self.edges@.len() && kind_eq(#[trigger] self.edges@[i], k);
                        if kind_eq(k, *kind) {
                            lemma_kind_eq_equivalence(self.edges@[i], k, *kind);
                        }
                    }
                }
                false
            },
            Some(p) => {
                let ghost old_s = self.edges@;
                let ghost old_c = self.conditions@;
                self.edges.remove(p);
                self.conditions.remove(p);
                proof {
                    let s = self.edges@;
                    let cs = self.conditions@;
                    assert(s =~= old_s.remove(p as int));
                    assert forall|k: BorrowPcgEdgeKind| has_edge(s, k)
                        implies #[trigger] conditions_at(s, cs, k) == conditions_at(old_s, old_c, k) by {
                        let i = choose|i: int| 0 <= i < s.len() && kind_eq(#[trigger] s[i], k);
                        let i0 = if i < p { i } else { i + 1 };
                        assert(s[i] == old_s[i0] && cs[i] == old_c[i0]);
                        assert forall|a: int, b: int| 0 <= a < s.len() && 0 <= b < s.len() && a != b
                            implies !kind_eq(s[a], s[b]) by {
                            let a0 = if a < p { a } else { a + 1 };
                            let b0 = if b < p { b } else { b + 1 };
                            assert(s[a] == old_s[a0] && s[b] == old_s[b0]);
                        }
                        lemma_conditions_at(s, cs, i, k);
                        lemma_conditions_at(old_s, old_c, i0, k);
                    }
                    assert forall|a: int, b: int| 0 <= a < s.len() && 0 <= b < s.len() && a != b
                        implies !kind_eq(s[a], s[b]) by {
                        let a0 = if a < p { a } else { a + 1 };
                        let b0 = if b < p { b } else { b + 1 };
                        assert(s[a] == old_s[a0] && s[b] == old_s[b0]);
                    }
                    assert forall|k: BorrowPcgEdgeKind| has_edge(s, k) <==> (has_edge(old_s, k) && !kind_eq(k, *kind)) by {
                        if has_edge(s, k) {
                            let i = choose|i: int| 0 <= i < s.len() && kind_eq(#[trigger] s[i], k);
                            let i0 = if i < p { i } else { i + 1 };
                            assert(s[i] == old_s[i0]);
                            if kind_eq(k, *kind) {
                                lemma_kind_eq_equivalence(old_s[i0], k, *kind);
                                lemma_kind_eq_equivalence(old_s[p as int], *kind, old_s[i0]);
                                lemma_kind_eq_equivalence(old_s[i0], old_s[p as int], *kind);
                            }
                        }
                        if has_edge(old_s, k) && !kind_eq(k, *kind) {
                            let i = choose|i: int| 0 <= i < old_s.len() && kind_eq(#[trigger] old_s[i], k);
                            if i == p {
                                lemma_kind_eq_equivalence(k, old_s[i], *kind);
                            } else {
                                let j = if i < p { i } else { i - 1 };
                                assert(s[j] == old_s[i]);
                            }
                        }
                    }
                    lemma_kind_eq_equivalence(*kind, *kind, *kind);
                }
                true
            },
        }
    }

    /// The indices of the edges that block `node`, in increasing order.
    pub fn edges_blocking(&self, node: &PcgNode) -> (v: Vec<usize>)
        ensures
            forall|k: int| 0 <= k < v@.len() ==> #[trigger] v@[k] < self.edges@.len(),
            forall|a: int, b: int| 0 <= a < b < v@.len() ==> v@[a] < v@[b],
            forall|i: int| 0 <= i < self.edges@.len() ==>
                (v@.contains(i as usize) <==> blocks(self.edges@, i, *node)),
    {
        let mut v: Vec<usize> = Vec::new();
        let mut i: usize = 0;
        while i < self.edges.len()
            invariant
                i <= self.edges@.len(),
                forall|k: int| 0 <= k < v@.len() ==> #[trigger] v@[k] < i,
                forall|a: int, b: int| 0 <= a < b < v@.len() ==> v@[a] < v@[b],
                forall|j: int| 0 <= j < i ==> (v@.contains(j as usize) <==> blocks(self.edges@, j, *node)),
            decreases self.edges.len() - i,
        {
            let b = self.edges[i].blocks_node(node);
            let ghost before = v@;
            if b {
                v.push(i);
            }
            proof {
                assert forall|j: int| 0 <= j < i + 1 implies (v@.contains(j as usize) <==> blocks(self.edges@, j, *node)) by {
                    if j < i {
                        if before.contains(j as usize) {
                            let k = choose|k: int| 0 <= k < before.len() && before[k] == j as usize;
                            assert(v@[k] == j as usize);
                        }
                        if v@.contains(j as usize) {
                            let k = choose|k: int| 0 <= k < v@.len() && v@[k] == j as usize;
                            if k < before.len() {
                                assert(before[k] == j as usize);
                            }
                        }
                    } else {
                        if b {
                            assert(v@[v@.len() - 1] == i);
                        } else {
                            if v@.contains(j as usize) {
                                let k = choose|k: int| 0 <= k < v@.len() && v@[k] == j as usize;
                                assert(before[k] < i);
                            }
                        }
                    }
                }
            }
            i = i + 1;
        }
        v
    }

    /// The indices of the edges that `node` blocks through, in increasing
    /// order.
    pub fn edges_blocked_by(&self, node: &LocalNode) -> (v: Vec<usize>)
        ensures
            forall|k: int| 0 <= k < v@.len() ==> #[trigger] v@[k] < self.edges@.len(),
            forall|a: int, b: int| 0 <= a < b < v@.len() ==> v@[a] < v@[b],
            forall|i: int| 0 <= i < self.edges@.len() ==>
                (v@.contains(i as usize) <==> blocked_by(self.edges@, i, *node)),
    {
        let mut v: Vec<usize> = Vec::new();
        let mut i: usize = 0;
        while i < self.edges.len()
            invariant
                i <= self.edges@.len(),
                forall|k: int| 0 <= k < v@.len() ==> #[trigger] v@[k] < i,
                forall|a: int, b: int| 0 <= a < b < v@.len() ==> v@[a] < v@[b],
                forall|j: int| 0 <= j < i ==> (v@.contains(j as usize) <==> blocked_by(self.edges@, j, *node)),
            decreases self.edges.len() - i,
        {
            let b = self.edges[i].is_blocked_by(node);
            let ghost before = v@;
            if b {
                v.push(i);
            }
            proof {
                assert forall|j: int| 0 <= j < i + 1 implies (v@.contains(j as usize) <==> blocked_by(self.edges@, j, *node)) by {
                    if j < i {
                        if before.contains(j as usize) {
                            let k = choose|k: int| 0 <= k < before.len() && before[k] == j as usize;
                            assert(v@[k] == j as usize);
                        }
                        if v@.contains(j as usize) {
                            let k = choose|k: int| 0 <= k < v@.len() && v@[k] == j as usize;
                            if k < before.len() {
                                assert(before[k] == j as usize);
                            }
                        }
                    } else {
                        if b {
                            assert(v@[v@.len() - 1] == i);
                        } else {
                            if v@.contains(j as usize) {
                                let k = choose|k: int| 0 <= k < v@.len() && v@[k] == j as usize;
                                assert(before[k] < i);
                            }
                        }
                    }
                }
            }
            i = i + 1;
        }
        v
    }

    /// Whether some edge blocks `node`.
    pub fn has_edge_blocking(&self, node: &PcgNode) -> (b: bool)
        ensures
            b == exists|i: int| 0 <= i < self.edges@.len() && blocks(self.edges@, i, *node),
    {
        let mut i: usize = 0;
        while i < self.edges.len()
            invariant
                i <= self.edges@.len(),
                forall|j: int| 0 <= j < i ==> !blocks(self.edges@, j, *node),
            decreases self.edges.len() - i,
        {
            if self.edges[i].blocks_node(node) {
                assert(blocks(self.edges@, i as int, *node));
                return true;
            }
            i = i + 1;
        }
        false
    }

    /// Whether `node` blocks through some edge.
    pub fn has_edge_blocked_by(&self, node: &LocalNode) -> (b: bool)
        ensures
            b == exists|i: int| 0 <= i < self.edges@.len() && blocked_by(self.edges@, i, *node),
    {
        let mut i: usize = 0;
        while i < self.edges.len()
            invariant
                i <= self.edges@.len(),
                forall|j: int| 0 <= j < i ==> !blocked_by(self.edges@, j, *node),
            decreases self.edges.len() - i,
        {
            if self.edges[i].is_blocked_by(node) {
                assert(blocked_by(self.edges@, i as int, *node));
                return true;
            }
            i = i + 1;
        }
        false
    }

    /// Whether `node` occurs in the graph: some edge blocks it or it blocks
    /// through some edge.
    pub fn contains(&self, node: &PcgNode) -> (b: bool)
        ensures
            b == in_graph(self.edges@, *node),
    {
        let local = node.as_local_node();
        let mut i: usize = 0;
        while i < self.edges.len()
            invariant
                local == node_to_local(*node),
                i <= self.edges@.len(),
                forall|j: int| 0 <= j < i ==> !touches(self.edges@, j, *node),
            decreases self.edges.len() - i,
        {
            if self.edges[i].blocks_node(node) {
                assert(touches(self.edges@, i as int, *node));
                return true;
            }
            match &local {
                Some(l) => {
                    if self.edges[i].is_blocked_by(l) {
                        assert(touches(self.edges@, i as int, *node));
                        return true;
                    }
                },
                None => {},
            }
            i = i + 1;
        }
        false
    }

    /// The nodes of the graph, each once.
    pub fn nodes(&self) -> (v: Vec<PcgNode>)
        ensures
            forall|n: PcgNode| v@.contains(n) <==> is_node_of(self.edges@, n),
            forall|a: int, b: int| 0 <= a < b < v@.len() ==> v@[a] != v@[b],
    {
        let mut v: Vec<PcgNode> = Vec::new();
        let mut i: usize = 0;
        while i < self.edges.len()
            invariant
                i <= self.edges@.len(),
                forall|a: int, b: int| 0 <= a < b < v@.len() ==> v@[a] != v@[b],
                forall|n: PcgNode| v@.contains(n) <==> is_node_of(self.edges@.subrange(0, i as int), n),
            decreases self.edges.len() - i,
        {
            let ghost before = v@;
            let ghost sub = self.edges@.subrange(0, i as int);
            let ghost sub1 = self.edges@.subrange(0, i + 1);
            let ghost e = self.edges@[i as int];
            let bn = self.edges[i].blocked_nodes();
            let mut k: usize = 0;
            while k < bn.len()
                invariant
                    bn@ == kind_blocked_nodes(e),
                    k <= bn@.len(),
                    forall|a: int, b: int| 0 <= a < b < v@.len() ==> v@[a] != v@[b],
                    forall|n: PcgNode| v@.contains(n) <==> (before.contains(n) || bn@.subrange(0, k as int).contains(n)),
                decreases bn.len() - k,
            {
                let ghost vk = v@;
                push_unique(&mut v, bn[k].clone());
                proof {
                    assert forall|n: PcgNode| bn@.subrange(0, k + 1).contains(n)
                        <==> (bn@.subrange(0, k as int).contains(n) || n == bn@[k as int]) by {
                        if bn@.subrange(0, k + 1).contains(n) {
                            let m = choose|m: int| 0 <= m < k + 1 && #[trigger] bn@.subrange(0, k + 1)[m] == n;
                            if m < k {
                                assert(bn@.subrange(0, k as int)[m] == n);
                            }
                        }
                        if bn@.subrange(0, k as int).contains(n) {
                            let m = choose|m: int| 0 <= m < k && #[trigger] bn@.subrange(0, k as int)[m] == n;
                            assert(bn@.subrange(0, k + 1)[m] == n);
                        }
                        if n == bn@[k as int] {
                            assert(bn@.subrange(0, k + 1)[k as int] == n);
                        }
                    }
                    let s0 = bn@.subrange(0, k as int);
                    let s1 = bn@.subrange(0, k + 1);
                    assert forall|n: PcgNode| #[trigger] v@.contains(n) <==> (before.contains(n) || s1.contains(n)) by {
                        assert(vk.contains(n) <==> (before.contains(n) || s0.contains(n)));
                        assert(s1.contains(n) <==> (s0.contains(n) || n == bn@[k as int]));
                    }
                }
                k = k + 1;
            }
            let ghost mid = v@;
            proof {
                assert(bn@.subrange(0, k as int) =~= bn@);
                assert(forall|n: PcgNode| #[trigger] mid.contains(n) <==> (before.contains(n) || bn@.contains(n)));
            }
            let byn = self.edges[i].blocked_by_nodes();
            let mut k: usize = 0;
            while k < byn.len()
                invariant
                    byn@ == kind_blocked_by_nodes(e),
                    k <= byn@.len(),
                    forall|a: int, b: int| 0 <= a < b < v@.len() ==> v@[a] != v@[b],
                    forall|n: PcgNode| v@.contains(n) <==> (mid.contains(n)
                        || local_nodes_contain(byn@.subrange(0, k as int), n)),
                decreases byn.len() - k,
            {
                let ghost vk = v@;
                push_unique(&mut v, byn[k].to_pcg_node());
                proof {
                    let s0 = byn@.subrange(0, k as int);
                    let s1 = byn@.subrange(0, k + 1);
                    assert forall|n: PcgNode| #[trigger] local_nodes_contain(s1, n)
                        <==> (local_nodes_contain(s0, n) || n == local_to_node(byn@[k as int])) by {
                        if local_nodes_contain(s1, n) {
                            let m = choose|m: int| 0 <= m < s1.len() && local_to_node(#[trigger] s1[m]) == n;
                            if m < k {
                                assert(s0[m] == s1[m]);
                            }
                        }
                        if local_nodes_contain(s0, n) {
                            let m = choose|m: int| 0 <= m < s0.len() && local_to_node(#[trigger] s0[m]) == n;
                            assert(s0[m] == s1[m]);
                        }
                        if n == local_to_node(byn@[k as int]) {
                            assert(s1[k as int] == byn@[k as int]);
                        }
                    }
                    assert forall|n: PcgNode| v@.contains(n) <==> (mid.contains(n) || local_nodes_contain(s1, n)) by {
                        assert(vk.contains(n) <==> (mid.contains(n) || local_nodes_contain(s0, n)));
                        assert(local_nodes_contain(s1, n) <==> (local_nodes_contain(s0, n) || n == local_to_node(byn@[k as int])));
                    }
                }
                k = k + 1;
            }
            proof {
                let bs = byn@.subrange(0, k as int);
                assert(bs =~= byn@);
                assert(sub1[i as int] == e);
                assert forall|q: int| 0 <= q < sub.len() implies sub1[q] == sub[q] by {}
                assert forall|n: PcgNode| v@.contains(n) implies is_node_of(sub1, n) by {
                    assert(v@.contains(n) <==> (mid.contains(n) || local_nodes_contain(bs, n)));
                    if local_nodes_contain(bs, n) {
                        let m = choose|m: int| 0 <= m < bs.len() && local_to_node(#[trigger] bs[m]) == n;
                        assert(local_to_node(kind_blocked_by_nodes(sub1[i as int])[m]) == n);
                    } else {
                        assert(mid.contains(n) <==> (before.contains(n) || bn@.contains(n)));
                        if bn@.contains(n) {
                            assert(kind_blocked_nodes(sub1[i as int]).contains(n));
                        } else {
                            assert(before.contains(n) <==> is_node_of(sub, n));
                            let q = choose|q: int| 0 <= q < sub.len() && (kind_blocked_nodes(#[trigger] sub[q]).contains(n)
                                || exists|j: int| 0 <= j < kind_blocked_by_nodes(sub[q]).len()
                                    && local_to_node(#[trigger] kind_blocked_by_nodes(sub[q])[j]) == n);
                            assert(sub1[q] == sub[q]);
                        }
                    }
                }
                assert forall|n: PcgNode| is_node_of(sub1, n) implies v@.contains(n) by {
                    assert(v@.contains(n) <==> (mid.contains(n) || local_nodes_contain(bs, n)));
                    assert(mid.contains(n) <==> (before.contains(n) || bn@.contains(n)));
                    assert(before.contains(n) <==> is_node_of(sub, n));
                    let q = choose|q: int| 0 <= q < sub1.len() && (kind_blocked_nodes(#[trigger] sub1[q]).contains(n)
                        || exists|j: int| 0 <= j < kind_blocked_by_nodes(sub1[q]).len()
                            && local_to_node(#[trigger] kind_blocked_by_nodes(sub1[q])[j]) == n);
                    if q < i {
                        assert(sub[q] == sub1[q]);
                        assert(is_node_of(sub, n));
                    } else {
                        if !kind_blocked_nodes(e).contains(n) {
                            let j = choose|j: int| 0 <= j < kind_blocked_by_nodes(e).len()
                                && local_to_node(#[trigger] kind_blocked_by_nodes(e)[j]) == n;
                            assert(bs[j] == byn@[j]);
                            assert(local_nodes_contain(bs, n));
                        }
                    }
                }
            }
            i = i + 1;
        }
        proof {
            assert(self.edges@.subrange(0, self.edges@.len() as int) =~= self.edges@);
        }
        v
    }

    /// The nodes that the edges through which `node` blocks block, edge by
    /// edge in the order of the edges.
    pub fn nodes_blocked_by(&self, node: &LocalNode) -> (v: Vec<PcgNode>)
        ensures
            v@ == nodes_blocked_by_upto(self.edges@, *node, self.edges@.len() as int),
    {
        let mut v: Vec<PcgNode> = Vec::new();
        let mut i: usize = 0;
        while i < self.edges.len()
            invariant
                i <= self.edges@.len(),
                v@ == nodes_blocked_by_upto(self.edges@, *node, i as int),
            decreases self.edges.len() - i,
        {
            if self.edges[i].is_blocked_by(node) {
                let ns = self.edges[i].blocked_nodes();
                let ghost v0 = v@;
                let mut k: usize = 0;
                while k < ns.len()
                    invariant
                        k <= ns@.len(),
                        v@ == v0 + ns@.subrange(0, k as int),
                    decreases ns.len() - k,
                {
                    v.push(ns[k].clone());
                    k = k + 1;
                    assert(v@ =~= v0 + ns@.subrange(0, k as int));
                }
                assert(ns@.subrange(0, k as int) =~= ns@);
            }
            i = i + 1;
        }
        v
    }

    /// The nodes that block through the edges that block `node`.
    pub fn nodes_blocking(&self, node: &PcgNode) -> (v: Vec<LocalNode>)
        ensures
            forall|l: LocalNode| v@.contains(l) <==>
                exists|i: int| 0 <= i < self.edges@.len() && blocks(self.edges@, i, *node) && #[trigger] blocked_by(self.edges@, i, l),
    {
        let ghost s = self.edges@;
        let mut v: Vec<LocalNode> = Vec::new();
        let mut i: usize = 0;
        while i < self.edges.len()
            invariant
                s == self.edges@,
                i <= s.len(),
                forall|l: LocalNode| v@.contains(l) <==>
                    exists|j: int| 0 <= j < i && blocks(s, j, *node) && #[trigger] blocked_by(s, j, l),
            decreases self.edges.len() - i,
        {
            if self.edges[i].blocks_node(node) {
                let ns = self.edges[i].blocked_by_nodes();
                let ghost v0 = v@;
                let mut k: usize = 0;
                while k < ns.len()
                    invariant
                        k <= ns@.len(),
                        v@ == v0 + ns@.subrange(0, k as int),
                    decreases ns.len() - k,
                {
                    v.push(ns[k].clone());
                    k = k + 1;
                    assert(v@ =~= v0 + ns@.subrange(0, k as int));
                }
                proof {
                    assert(ns@.subrange(0, k as int) =~= ns@);
                    assert forall|l: LocalNode| v@.contains(l) <==>
                        exists|j: int| 0 <= j < i + 1 && blocks(s, j, *node) && #[trigger] blocked_by(s, j, l) by {
                        if v@.contains(l) {
                            let t = choose|t: int| 0 <= t < v@.len() && v@[t] == l;
                            if t < v0.len() {
                                assert(v0[t] == l);
                                assert(v0.contains(l));
                            } else {
                                assert(ns@[t - v0.len()] == l);
                                assert(blocked_by(s, i as int, l));
                            }
                        }
                        if exists|j: int| 0 <= j < i + 1 && blocks(s, j, *node) && #[trigger] blocked_by(s, j, l) {
                            let j = choose|j: int| 0 <= j < i + 1 && blocks(s, j, *node) && #[trigger] blocked_by(s, j, l);
                            if j < i {
                                assert(v0.contains(l));
                                let t = choose|t: int| 0 <= t < v0.len() && v0[t] == l;
                                assert(v@[t] == l);
                            } else {
                                assert(ns@.contains(l));
                                let t = choose|t: int| 0 <= t < ns@.len() && ns@[t] == l;
                                assert(v@[v0.len() + t] == l);
                            }
                        }
                    }
                }
            } else {
                proof {
                    assert forall|l: LocalNode| v@.contains(l) <==>
                        exists|j: int| 0 <= j < i + 1 && blocks(s, j, *node) && #[trigger] blocked_by(s, j, l) by {
                        if exists|j: int| 0 <= j < i + 1 && blocks(s, j, *node) && #[trigger] blocked_by(s, j, l) {
                            let j = choose|j: int| 0 <= j < i + 1 && blocks(s, j, *node) && #[trigger] blocked_by(s, j, l);
                            assert(j < i);
                        }
                    }
                }
            }
            i = i + 1;
        }
        v
    }

    /// Whether no edge blocks the local node `node`.
    pub fn is_leaf(&self, node: &LocalNode) -> (b: bool)
        ensures
            b == !exists|i: int| 0 <= i < self.edges@.len() && blocks(self.edges@, i, local_to_node(*node)),
    {
        !self.has_edge_blocking(&node.to_pcg_node())
    }
}

/// The state of the borrow graph at a program point: the graph and the
/// conditions under which it holds.
#[derive(Debug)]
pub struct BorrowsState<VC> {
    pub graph: BorrowsGraph,
    pub validity_conditions: VC,
}

impl<VC> BorrowsState<VC> {
    /// The state of `graph` under `validity_conditions`.
    pub fn new(graph: BorrowsGraph, validity_conditions: VC) -> (r: Self)
        ensures
            r.graph == graph,
            r.validity_conditions == validity_conditions,
    {
        BorrowsState { graph, validity_conditions }
    }

    /// The graph.
    pub fn graph(&self) -> (g: &BorrowsGraph)
        ensures
            *g == self.graph,
    {
        &self.graph
    }

    /// The indices of the edges that block `node`, in increasing order.
    pub fn edges_blocking(&self, node: &PcgNode) -> (v: Vec<usize>)
        ensures
            forall|k: int| 0 <= k < v@.len() ==> #[trigger] v@[k] < self.graph.edges@.len(),
            forall|a: int, b: int| 0 <= a < b < v@.len() ==> v@[a] < v@[b],
            forall|i: int| 0 <= i < self.graph.edges@.len() ==>
                (v@.contains(i as usize) <==> blocks(self.graph.edges@, i, *node)),
    {
        self.graph.edges_blocking(node)
    }

    /// The nodes that block through the edges that block `node`.
    pub fn nodes_blocking(&self, node: &PcgNode) -> (v: Vec<LocalNode>)
        ensures
            forall|l: LocalNode| v@.contains(l) <==>
                exists|i: int| 0 <= i < self.graph.edges@.len() && blocks(self.graph.edges@, i, *node)
                    && #[trigger] blocked_by(self.graph.edges@, i, l),
    {
        self.graph.nodes_blocking(node)
    }
}

/// The nodes that the first `k` edges through which `node` blocks block,
/// edge by edge.
pub open spec fn nodes_blocked_by_upto(s: Seq<BorrowPcgEdgeKind>, node: LocalNode, k: int) -> Seq<PcgNode>
    decreases k,
{
    if k <= 0 {
        Seq::empty()
    } else if blocked_by(s, k - 1, node) {
        nodes_blocked_by_upto(s, node, k - 1) + kind_blocked_nodes(s[k - 1])
    } else {
        nodes_blocked_by_upto(s, node, k - 1)
    }
}

/// Whether the edge at index `i` has a successor among the active edges.
fn has_active_successor(edges: &Vec<BorrowPcgEdgeKind>, active: &Vec<bool>, i: usize) -> (b: bool)
    requires
        active@.len() == edges@.len(),
        i < edges@.len(),
    ensures
        b == exists|j: int| 0 <= j < edges@.len() && active@[j] && #[trigger] succ(edges@, i as int, j),
{
    let by = edges[i].blocked_by_nodes();
    let mut k: usize = 0;
    while k < by.len()
        invariant
            active@.len() == edges@.len(),
            i < edges@.len(),
            by@ == kind_blocked_by_nodes(edges@[i as int]),
            k <= by@.len(),
            forall|m: int, j: int| 0 <= m < k && 0 <= j < edges@.len() && active@[j]
                ==> !#[trigger] blocks(edges@, j, local_to_node(by@[m])),
        decreases by.len() - k,
    {
        let n = by[k].to_pcg_node();
        let mut j: usize = 0;
        while j < edges.len()
            invariant
                active@.len() == edges@.len(),
                i < edges@.len(),
                by@ == kind_blocked_by_nodes(edges@[i as int]),
                k < by@.len(),
                n == local_to_node(by@[k as int]),
                j <= edges@.len(),
                forall|m: int, jj: int| 0 <= m < k && 0 <= jj < edges@.len() && active@[jj]
                    ==> !#[trigger] blocks(edges@, jj, local_to_node(by@[m])),
                forall|jj: int| 0 <= jj < j && active@[jj] ==> !blocks(edges@, jj, n),
            decreases edges.len() - j,
        {
            if active[j] && edges[j].blocks_node(&n) {
                assert(succ(edges@, i as int, j as int));
                return true;
            }
            j = j + 1;
        }
        k = k + 1;
    }
    proof {
        assert forall|j: int| 0 <= j < edges@.len() && active@[j] implies !#[trigger] succ(edges@, i as int, j) by {
            if succ(edges@, i as int, j) {
                let m = choose|m: int| 0 <= m < kind_blocked_by_nodes(edges@[i as int]).len()
                    && blocks(edges@, j, local_to_node(#[trigger] kind_blocked_by_nodes(edges@[i as int])[m]));
                assert(!blocks(edges@, j, local_to_node(by@[m])));
            }
        }
    }
    false
}

/// Whether the edge at index `q` is active and none of its successors is.
pub open spec fn killable(s: Seq<BorrowPcgEdgeKind>, active: Seq<bool>, q: int) -> bool {
    active[q] && !exists|jj: int| 0 <= jj < s.len() && active[jj] && #[trigger] succ(s, q, jj)
}

/// The active edges none of whose successors is active, in increasing
/// order, and whether any edge is active.
fn round_killable(edges: &Vec<BorrowPcgEdgeKind>, active: &Vec<bool>) -> (r: (Vec<usize>, bool))
    requires
        active@.len() == edges@.len(),
    ensures
        r.1 == exists|q: int| 0 <= q < edges@.len() && active@[q],
        forall|k: int| 0 <= k < r.0@.len() ==> #[trigger] r.0@[k] < edges@.len(),
        forall|a: int, b: int| 0 <= a < b < r.0@.len() ==> r.0@[a] < r.0@[b],
        forall|q: int| 0 <= q < edges@.len() ==> (r.0@.contains(q as usize) <==> killable(edges@, active@, q)),
{
    let n = edges.len();
    let mut ks: Vec<usize> = Vec::new();
    let mut any_active = false;
    let mut j: usize = 0;
    while j < n
        invariant
            n == edges@.len(),
            active@.len() == n,
            j <= n,
            any_active == exists|q: int| 0 <= q < j && active@[q],
            forall|k: int| 0 <= k < ks@.len() ==> #[trigger] ks@[k] < j,
            forall|a: int, b: int| 0 <= a < b < ks@.len() ==> ks@[a] < ks@[b],
            forall|q: int| 0 <= q < j ==> (ks@.contains(q as usize) <==> killable(edges@, active@, q)),
        decreases n - j,
    {
        let ghost kb = ks@;
        if active[j] {
            any_active = true;
            if !has_active_successor(edges, active, j) {
                ks.push(j);
            }
        }
        proof {
            assert forall|q: int| 0 <= q < j + 1 implies (ks@.contains(q as usize) <==> killable(edges@, active@, q)) by {
                if q < j {
                    if kb.contains(q as usize) {
                        let t = choose|t: int| 0 <= t < kb.len() && kb[t] == q as usize;
                        assert(ks@[t] == q as usize);
                    }
                    if ks@.contains(q as usize) {
                        let t = choose|t: int| 0 <= t < ks@.len() && ks@[t] == q as usize;
                        if t < kb.len() {
                            assert(kb[t] == q as usize);
                        }
                    }
                } else {
                    if ks@.contains(q as usize) {
                        let t = choose|t: int| 0 <= t < ks@.len() && ks@[t] == q as usize;
                        if t < kb.len() {
                            assert(kb[t] < j);
                        }
                    }
                    if ks@.len() > kb.len() {
                        assert(ks@[kb.len() as int] == j);
                    }
                }
            }
        }
        j = j + 1;
    }
    (ks, any_active)
}

/// Whether `j` is among the first `t` elements of `ks`.
pub open spec fn in_prefix(ks: Seq<usize>, t: int, j: int) -> bool {
    exists|k: int| 0 <= k < t && ks[k] as int == j
}

/// Deactivates the edges of `ks` and appends them to `order`.
fn kill_all(active_in: Vec<bool>, order_in: Vec<usize>, ks: &Vec<usize>) -> (r: (Vec<bool>, Vec<usize>))
    requires
        forall|k: int| 0 <= k < ks@.len() ==> #[trigger] ks@[k] < active_in@.len(),
    ensures
        r.0@.len() == active_in@.len(),
        r.1@ == order_in@ + ks@,
        forall|j: int| #![trigger r.0@[j]] 0 <= j < active_in@.len() ==>
            (r.0@[j] <==> (active_in@[j] && !ks@.contains(j as usize))),
{
    let mut active = active_in;
    let mut order = order_in;
    let ghost a0 = active@;
    let ghost o0 = order@;
    let mut t: usize = 0;
    while t < ks.len()
        invariant
            active@.len() == a0.len(),
            forall|k: int| 0 <= k < ks@.len() ==> #[trigger] ks@[k] < a0.len(),
            t <= ks@.len(),
            order@ == o0 + ks@.subrange(0, t as int),
            forall|j: int| #![trigger a0[j]] 0 <= j < a0.len() ==> (active@[j] <==> (a0[j] && !in_prefix(ks@, t as int, j))),
        decreases ks.len() - t,
    {
        let x = ks[t];
        let ghost prev = active@;
        let ghost pt: int = t as int;
        active.set(x, false);
        order.push(x);
        t = t + 1;
        proof {
            assert(t as int == pt + 1);
            assert(ks@[pt] == x);
            assert(ks@.subrange(0, t as int) =~= ks@.subrange(0, pt).push(x));
            assert(order@ =~= o0 + ks@.subrange(0, t as int));
            assert forall|j: int| #![trigger a0[j]] 0 <= j < a0.len() implies (active@[j] <==> (a0[j] && !in_prefix(ks@, t as int, j))) by {
                assert(prev[j] <==> (a0[j] && !in_prefix(ks@, pt, j)));
                if in_prefix(ks@, t as int, j) {
                    let k = choose|k: int| 0 <= k < t && ks@[k] as int == j;
                    if k < pt {
                        assert(in_prefix(ks@, pt, j));
                    } else {
                        assert(j == x);
                    }
                }
                if in_prefix(ks@, pt, j) {
                    let k = choose|k: int| 0 <= k < pt && ks@[k] as int == j;
                    assert(in_prefix(ks@, t as int, j));
                }
                if j == x {
                    assert(ks@[pt] as int == j);
                    assert(in_prefix(ks@, t as int, j));
                }
            }
        }
    }
    proof {
        assert(order@ =~= o0 + ks@);
    }
    proof {
        assert(ks@.subrange(0, ks@.len() as int) =~= ks@);
        assert(a0.len() == active.len());
        assert forall|j: int| 0 <= j < a0.len() implies (in_prefix(ks@, ks@.len() as int, j) <==> ks@.contains(j as usize)) by {
            if in_prefix(ks@, ks@.len() as int, j) {
                let k = choose|k: int| 0 <= k < ks@.len() && ks@[k] as int == j;
                assert(ks@[k] == j as usize);
            }
            if ks@.contains(j as usize) {
                let k = choose|k: int| 0 <= k < ks@.len() && ks@[k] == j as usize;
                assert(0 <= j);
                assert(ks@[k] as int == j);
            }
        }
    }
    proof {
        assert forall|j: int| #![trigger active@[j]] 0 <= j < a0.len() implies (active@[j] <==> (a0[j] && !ks@.contains(j as usize))) by {
            assert(active@[j] <==> (a0[j] && !in_prefix(ks@, ks@.len() as int, j)));
        }
    }
    (active, order)
}

/// What holds of a partial removal: the removed edges are the inactive
/// ones, each once, and each edge's successors were removed before it.
pub open spec fn partial_removal(s: Seq<BorrowPcgEdgeKind>, active: Seq<bool>, order: Seq<usize>) -> bool {
    &&& active.len() == s.len()
    &&& forall|k: int| 0 <= k < order.len() ==> #[trigger] order[k] < s.len()
    &&& forall|a: int, b: int| 0 <= a < b < order.len() ==> order[a] != order[b]
    &&& forall|j: int| 0 <= j < s.len() ==> (!active[j] <==> order.contains(j as usize))
    &&& forall|k: int, j: int| 0 <= k < order.len() && 0 <= j < s.len() && #[trigger] succ(s, order[k] as int, j)
        ==> exists|m: int| 0 <= m < k && order[m] == j
}

/// Removing a round of killable edges keeps a partial removal.
proof fn lemma_round(s: Seq<BorrowPcgEdgeKind>, a0: Seq<bool>, o0: Seq<usize>, ks: Seq<usize>,
    a1: Seq<bool>, o1: Seq<usize>)
    requires
        partial_removal(s, a0, o0),
        s.len() <= usize::MAX,
        forall|k: int| 0 <= k < ks.len() ==> #[trigger] ks[k] < s.len(),
        forall|a: int, b: int| 0 <= a < b < ks.len() ==> ks[a] < ks[b],
        forall|q: int| 0 <= q < s.len() ==> (ks.contains(q as usize) <==> killable(s, a0, q)),
        a1.len() == a0.len(),
        o1 == o0 + ks,
        forall|j: int| #![trigger a1[j]] 0 <= j < a0.len() ==> (a1[j] <==> (a0[j] && !ks.contains(j as usize))),
    ensures
        partial_removal(s, a1, o1),
{
    assert forall|k: int| 0 <= k < o1.len() implies #[trigger] o1[k] < s.len() by {
        if k >= o0.len() {
            assert(o1[k] == ks[k - o0.len()]);
        }
    }
    assert forall|a: int, b: int| 0 <= a < b < o1.len() implies o1[a] != o1[b] by {
        if b < o0.len() {
            assert(o1[a] == o0[a] && o1[b] == o0[b]);
        } else if a < o0.len() {
            let y = ks[b - o0.len()];
            assert(o1[b] == y);
            assert(ks.contains(y));
            assert(killable(s, a0, y as int));
            assert(o1[a] == o0[a]);
            if o0[a] == y {
                assert(o0.contains(y));
            }
        } else {
            assert(o1[a] == ks[a - o0.len()]);
            assert(o1[b] == ks[b - o0.len()]);
        }
    }
    assert forall|j: int| 0 <= j < s.len() implies (!a1[j] <==> o1.contains(j as usize)) by {
        if o1.contains(j as usize) {
            let q = choose|q: int| 0 <= q < o1.len() && o1[q] == j as usize;
            if q < o0.len() {
                assert(o0[q] == j as usize);
                assert(o0.contains(j as usize));
            } else {
                assert(ks[q - o0.len()] == j as usize);
                assert(ks.contains(j as usize));
            }
        }
        if !a1[j] {
            if a0[j] {
                assert(ks.contains(j as usize));
                let q = choose|q: int| 0 <= q < ks.len() && ks[q] == j as usize;
                assert(o1[o0.len() + q] == j as usize);
            } else {
                assert(o0.contains(j as usize));
                let q = choose|q: int| 0 <= q < o0.len() && o0[q] == j as usize;
                assert(o1[q] == j as usize);
            }
        }
    }
    assert forall|k: int, j: int| 0 <= k < o1.len() && 0 <= j < s.len() && #[trigger] succ(s, o1[k] as int, j)
        implies exists|m: int| 0 <= m < k && o1[m] == j by {
        if k < o0.len() {
            assert(o1[k] == o0[k]);
            let m = choose|m: int| 0 <= m < k && o0[m] == j;
            assert(o1[m] == j);
        } else {
            let y = ks[k - o0.len()];
            assert(o1[k] == y);
            assert(ks.contains(y));
            assert(killable(s, a0, y as int));
            assert(!a0[j]);
            assert(o0.contains(j as usize));
            let m = choose|m: int| 0 <= m < o0.len() && o0[m] == j as usize;
            assert(o1[m] == o0[m]);
            assert(o1[m] == j);
        }
    }
}

/// The edges in an order in which they can be removed, in rounds: each
/// round removes every remaining edge none of whose successors remains.
/// Fails when a round removes nothing; the remaining edges then each have a
/// successor among them.
#[verifier::rlimit(50)]
pub fn removal_rounds(edges: &Vec<BorrowPcgEdgeKind>) -> (r: Result<Vec<usize>, Ghost<Set<int>>>)
    ensures
        match r {
            Ok(order) => removal_order(edges@, order@.map_values(|x: usize| x as int)),
            Err(g) => closed_cycle(edges@, g@),
        },
{
    let n = edges.len();
    let mut active: Vec<bool> = Vec::new();
    let mut i: usize = 0;
    while i < n
        invariant
            n == edges@.len(),
            i <= n,
            active@.len() == i,
            forall|j: int| 0 <= j < i ==> active@[j],
        decreases n - i,
    {
        active.push(true);
        i = i + 1;
    }
    let mut order: Vec<usize> = Vec::new();
    loop
        invariant
            n == edges@.len(),
            partial_removal(edges@, active@, order@),
        decreases n - order@.len(),
    {
        proof {
            let om = order@.map_values(|x: usize| x as int);
            vstd::set_lib::lemma_int_range(0, n as int);
            lemma_injective_image_len(om, vstd::set_lib::set_int_range(0, n as int));
        }
        let (ks, any_active) = round_killable(edges, &active);
        if !any_active {
            proof {
                let om = order@.map_values(|x: usize| x as int);
                assert forall|q: int| 0 <= q < n implies #[trigger] om.contains(q) by {
                    if active@[q] {
                        assert(exists|q: int| 0 <= q < edges@.len() && active@[q]);
                    }
                    assert(order@.contains(q as usize));
                    let t = choose|t: int| 0 <= t < order@.len() && order@[t] == q as usize;
                    assert(om[t] == q);
                }
                assert forall|k: int, q: int| 0 <= k < om.len() && 0 <= q < n && #[trigger] succ(edges@, om[k], q)
                    implies exists|m: int| 0 <= m < k && om[m] == q by {
                    assert(succ(edges@, order@[k] as int, q));
                    let m = choose|m: int| 0 <= m < k && order@[m] == q;
                    assert(om[m] == q);
                }
            }
            return Ok(order);
        }
        if ks.len() == 0 {
            let ghost r = Set::new(|q: int| 0 <= q < n && active@[q]);
            proof {
                let q0 = choose|q: int| 0 <= q < n && active@[q];
                assert(r.contains(q0));
                vstd::set_lib::lemma_int_range(0, n as int);
                assert(r.subset_of(vstd::set_lib::set_int_range(0, n as int)));
                vstd::set_lib::lemma_len_subset(r, vstd::set_lib::set_int_range(0, n as int));
                assert(r.len() > 0) by {
                    if r.len() == 0 {
                        r.lemma_len0_is_empty();
                    }
                }
                assert forall|q: int| r.contains(q) implies exists|jj: int| r.contains(jj) && succ(edges@, q, jj) by {
                    assert(!ks@.contains(q as usize));
                    assert(!killable(edges@, active@, q));
                    let jj = choose|jj: int| 0 <= jj < edges@.len() && active@[jj] && #[trigger] succ(edges@, q, jj);
                    assert(r.contains(jj));
                }
            }
            return Err(Ghost(r));
        }
        let ghost a0 = active@;
        let ghost o0 = order@;
        let (a1, o1) = kill_all(active, order, &ks);
        active = a1;
        order = o1;
        proof {
            assert(edges@.len() == edges.len());
            lemma_round(edges@, a0, o0, ks@, active@, order@);
            assert(ks@.len() > 0);
            let om = order@.map_values(|x: usize| x as int);
            vstd::set_lib::lemma_int_range(0, n as int);
            lemma_injective_image_len(om, vstd::set_lib::set_int_range(0, n as int));
        }
    }
}

impl BorrowsGraph {
    /// Whether the graph has no cycle: no edge is, through a chain of
    /// edges each blocking a node that blocks through the one before it,
    /// its own successor.
    pub fn is_acyclic(&self) -> (b: bool)
        ensures
            b == acyclic(self.edges@),
    {
        match removal_rounds(&self.edges) {
            Ok(order) => {
                proof {
                    lemma_removal_order_acyclic(self.edges@, order@.map_values(|x: usize| x as int));
                }
                true
            },
            Err(g) => {
                proof {
                    lemma_closed_cycle_not_acyclic(self.edges@, g@);
                }
                false
            },
        }
    }
}

} // verus!
