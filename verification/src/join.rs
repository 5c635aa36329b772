//! Joining the borrow graph of one predecessor block into that of another:
//! the graphs are united (an edge of both keeps the join of its validity
//! conditions), and an edge that merely connects two nodes of an
//! abstraction edge of the result is dropped.
use vstd::prelude::*;
use crate::abstraction::{abstraction_blocked_by_nodes, abstraction_blocks, AbstractionEdge};
use crate::edge_kind::{kind_blocked_by_nodes, kind_blocked_nodes, kind_eq, lemma_kind_eq_equivalence, BorrowPcgEdgeKind};
use crate::graph::{has_edge, BorrowsGraph};
use crate::loop_join::joined_conditions;

verus! {

/// The abstraction edge `a` blocks every node that `k` blocks, and every
/// node that blocks through `k` blocks through `a`.
pub open spec fn encapsulates(a: AbstractionEdge, k: BorrowPcgEdgeKind) -> bool {
    &&& forall|i: int| 0 <= i < kind_blocked_nodes(k).len() ==> abstraction_blocks(a, #[trigger] kind_blocked_nodes(k)[i])
    &&& forall|i: int| 0 <= i < kind_blocked_by_nodes(k).len()
        ==> abstraction_blocked_by_nodes(a).contains(#[trigger] kind_blocked_by_nodes(k)[i])
}

/// Some abstraction edge among `edges` encapsulates `k`: `k` connects two
/// nodes of that abstraction.
pub open spec fn encapsulated_by_abstraction(edges: Seq<BorrowPcgEdgeKind>, k: BorrowPcgEdgeKind) -> bool {
    exists|i: int| 0 <= i < edges.len() && (#[trigger] edges[i] matches BorrowPcgEdgeKind::Abstraction(a) && encapsulates(a, k))
}

fn abstraction_encapsulates(a: &AbstractionEdge, k: &BorrowPcgEdgeKind) -> (b: bool)
    ensures
        b == encapsulates(*a, *k),
{
    let blocked = k.blocked_nodes();
    let mut i: usize = 0;
    while i < blocked.len()
        invariant
            blocked@ == kind_blocked_nodes(*k),
            i <= blocked@.len(),
            forall|j: int| 0 <= j < i ==> abstraction_blocks(*a, #[trigger] blocked@[j]),
        decreases blocked.len() - i,
    {
        if !a.blocks_node(&blocked[i]) {
            return false;
        }
        i = i + 1;
    }
    let by = k.blocked_by_nodes();
    let mine = a.blocked_by_nodes();
    let mut j: usize = 0;
    while j < by.len()
        invariant
            blocked@ == kind_blocked_nodes(*k),
            forall|x: int| 0 <= x < blocked@.len() ==> abstraction_blocks(*a, #[trigger] blocked@[x]),
            by@ == kind_blocked_by_nodes(*k),
            mine@ == abstraction_blocked_by_nodes(*a),
            j <= by@.len(),
            forall|x: int| 0 <= x < j ==> mine@.contains(#[trigger] by@[x]),
        decreases by.len() - j,
    {
        let mut found = false;
        let mut m: usize = 0;
        while m < mine.len()
            invariant
                m <= mine@.len(),
                j < by@.len(),
                found == exists|y: int| 0 <= y < m && mine@[y] == by@[j as int],
            decreases mine.len() - m,
        {
            if mine[m] == by[j] {
                found = true;
            }
            m = m + 1;
        }
        if !found {
            assert(!mine@.contains(by@[j as int]));
            return false;
        }
        j = j + 1;
    }
    true
}

impl BorrowsGraph {
    /// Whether some abstraction edge of the graph encapsulates `k`.
    pub fn is_encapsulated_by_abstraction(&self, k: &BorrowPcgEdgeKind) -> (b: bool)
        ensures
            b == encapsulated_by_abstraction(self.edges@, *k),
    {
        let mut i: usize = 0;
        while i < self.edges.len()
            invariant
                i <= self.edges@.len(),
                forall|j: int| 0 <= j < i ==> !(#[trigger] self.edges@[j] matches BorrowPcgEdgeKind::Abstraction(a)
                    && encapsulates(a, *k)),
            decreases self.edges.len() - i,
        {
            if let BorrowPcgEdgeKind::Abstraction(a) = &self.edges[i] {
                if abstraction_encapsulates(a, k) {
                    assert(self.edges@[i as int] matches BorrowPcgEdgeKind::Abstraction(a) && encapsulates(a, *k));
                    return true;
                }
            }
            i = i + 1;
        }
        false
    }

    /// Joins `other` into this graph: the edges of both, without the edges
    /// other than abstraction edges that an abstraction edge of the result
    /// encapsulates. An edge of both graphs gets the join of its conditions
    /// in each.
    pub fn join(&mut self, other: &BorrowsGraph)
        requires
            old(self).wf(),
            other.wf(),
        ensures
            final(self).wf(),
            forall|k: BorrowPcgEdgeKind| #[trigger] has_edge(final(self).edges@, k) <==> (
                (has_edge(old(self).edges@, k) || has_edge(other.edges@, k))
                && (k is Abstraction || !encapsulated_by_abstraction(old(self).edges@ + other.edges@, k))),
            forall|k: BorrowPcgEdgeKind| has_edge(final(self).edges@, k) ==> #[trigger] final(self).conditions_of(k)
                == joined_conditions(old(self).edges@, old(self).conditions@, other.edges@, other.conditions@, k),
    {
        let ghost before_c = self.conditions@;
        let ghost before = self.edges@;
        self.insert_all(other);
        let ghost mid_g = *self;
        let ghost mid = self.edges@;
        proof {
            lemma_same_abstractions(before, other.edges@, mid);
        }
        // Collect the edges to drop, then drop them.
        let mut drop: Vec<BorrowPcgEdgeKind> = Vec::new();
        let mut j: usize = 0;
        while j < self.edges.len()
            invariant
                self.edges@ == mid,
                j <= mid.len(),
                forall|x: int| 0 <= x < drop@.len() ==> !(#[trigger] drop@[x] is Abstraction)
                    && encapsulated_by_abstraction(mid, drop@[x]) && has_edge(mid, drop@[x]),
                forall|y: int| 0 <= y < j && !(#[trigger] mid[y] is Abstraction) && encapsulated_by_abstraction(mid, mid[y])
                    ==> has_edge(drop@, mid[y]),
            decreases mid.len() - j,
        {
            let is_abs = match &self.edges[j] {
                BorrowPcgEdgeKind::Abstraction(_) => true,
                _ => false,
            };
            if !is_abs && self.is_encapsulated_by_abstraction(&self.edges[j]) {
                let d = self.edges[j].dup();
                let ghost prev = drop@;
                drop.push(d);
                proof {
                    lemma_kind_eq_equivalence(d, mid[j as int], mid[j as int]);
                    lemma_encapsulated_respects_eq(mid, d, mid[j as int]);
                    assert(kind_eq(mid[j as int], d));
                    assert(has_edge(mid, d));
                    assert(drop@[drop@.len() - 1] == d);
                    assert(kind_eq(drop@[drop@.len() - 1], mid[j as int])) by {
                        lemma_kind_eq_equivalence(d, mid[j as int], d);
                    }
                    assert forall|y: int| 0 <= y < j + 1 && !(#[trigger] mid[y] is Abstraction) && encapsulated_by_abstraction(mid, mid[y])
                        implies has_edge(drop@, mid[y]) by {
                        if y < j {
                            let w = choose|w: int| 0 <= w < prev.len() && kind_eq(#[trigger] prev[w], mid[y]);
                            assert(drop@[w] == prev[w]);
                        } else {
                            assert(kind_eq(drop@[drop@.len() - 1], mid[y]));
                        }
                    }
                }
            }
            j = j + 1;
        }
        self.remove_edges(&drop);
        proof {
            assert forall|q: BorrowPcgEdgeKind| #[trigger] has_edge(self.edges@, q) <==> (
                (has_edge(before, q) || has_edge(other.edges@, q))
                && (q is Abstraction || !encapsulated_by_abstraction(before + other.edges@, q))) by {
                lemma_encapsulated_same(before, other.edges@, mid, q);
                if has_edge(drop@, q) {
                    let w = choose|w: int| 0 <= w < drop@.len() && kind_eq(#[trigger] drop@[w], q);
                    lemma_kind_eq_equivalence(drop@[w], q, q);
                    lemma_encapsulated_respects_eq(mid, drop@[w], q);
                }
                if has_edge(mid, q) && !(q is Abstraction) && encapsulated_by_abstraction(mid, q) {
                    let y = choose|y: int| 0 <= y < mid.len() && kind_eq(#[trigger] mid[y], q);
                    lemma_kind_eq_equivalence(mid[y], q, q);
                    lemma_encapsulated_respects_eq(mid, mid[y], q);
                    assert(has_edge(drop@, mid[y]));
                    let w = choose|w: int| 0 <= w < drop@.len() && kind_eq(#[trigger] drop@[w], mid[y]);
                    lemma_kind_eq_equivalence(drop@[w], mid[y], q);
                }
            }
        }
    }
}

/// Equal edges are encapsulated alike, and are abstraction edges alike.
proof fn lemma_encapsulated_respects_eq(s: Seq<BorrowPcgEdgeKind>, k1: BorrowPcgEdgeKind, k2: BorrowPcgEdgeKind)
    requires
        kind_eq(k1, k2),
    ensures
        encapsulated_by_abstraction(s, k1) == encapsulated_by_abstraction(s, k2),
        (k1 is Abstraction) == (k2 is Abstraction),
{
    lemma_kind_eq_equivalence(k1, k2, k2);
    assert forall|i: int| 0 <= i < s.len() implies
        ((#[trigger] s[i] matches BorrowPcgEdgeKind::Abstraction(a) && encapsulates(a, k1))
        == (s[i] matches BorrowPcgEdgeKind::Abstraction(a) && encapsulates(a, k2))) by {}
}

/// A graph that holds exactly the edges of `a` and `b` holds exactly their
/// abstraction edges.
proof fn lemma_same_abstractions(a: Seq<BorrowPcgEdgeKind>, b: Seq<BorrowPcgEdgeKind>, m: Seq<BorrowPcgEdgeKind>)
    requires
        forall|k: BorrowPcgEdgeKind| #[trigger] has_edge(m, k) <==> (has_edge(a, k) || has_edge(b, k)),
    ensures
        forall|x: AbstractionEdge| has_edge(m, BorrowPcgEdgeKind::Abstraction(x))
            <==> (a + b).contains(BorrowPcgEdgeKind::Abstraction(x)),
{
    assert forall|x: AbstractionEdge| has_edge(m, BorrowPcgEdgeKind::Abstraction(x))
        <==> (a + b).contains(BorrowPcgEdgeKind::Abstraction(x)) by {
        let k = BorrowPcgEdgeKind::Abstraction(x);
        if has_edge(a, k) {
            let i = choose|i: int| 0 <= i < a.len() && kind_eq(#[trigger] a[i], k);
            assert((a + b)[i] == a[i]);
        }
        if has_edge(b, k) {
            let i = choose|i: int| 0 <= i < b.len() && kind_eq(#[trigger] b[i], k);
            assert((a + b)[a.len() + i] == b[i]);
        }
        if (a + b).contains(k) {
            let i = choose|i: int| 0 <= i < (a + b).len() && (a + b)[i] == k;
            if i < a.len() {
                assert(a[i] == k);
                assert(kind_eq(a[i], k));
            } else {
                assert(b[i - a.len()] == k);
                assert(kind_eq(b[i - a.len()], k));
            }
        }
    }
}

/// Encapsulation depends only on which abstraction edges a graph holds.
proof fn lemma_encapsulated_same(a: Seq<BorrowPcgEdgeKind>, b: Seq<BorrowPcgEdgeKind>, m: Seq<BorrowPcgEdgeKind>, q: BorrowPcgEdgeKind)
    requires
        forall|x: AbstractionEdge| has_edge(m, BorrowPcgEdgeKind::Abstraction(x))
            <==> (a + b).contains(BorrowPcgEdgeKind::Abstraction(x)),
    ensures
        encapsulated_by_abstraction(m, q) == encapsulated_by_abstraction(a + b, q),
{
    if encapsulated_by_abstraction(m, q) {
        let i = choose|i: int| 0 <= i < m.len() && (#[trigger] m[i] matches BorrowPcgEdgeKind::Abstraction(x) && encapsulates(x, q));
        if let BorrowPcgEdgeKind::Abstraction(x) = m[i] {
            assert(kind_eq(m[i], BorrowPcgEdgeKind::Abstraction(x)));
            assert(has_edge(m, BorrowPcgEdgeKind::Abstraction(x)));
            let j = choose|j: int| 0 <= j < (a + b).len() && (a + b)[j] == BorrowPcgEdgeKind::Abstraction(x);
            assert((a + b)[j] matches BorrowPcgEdgeKind::Abstraction(y) && encapsulates(y, q));
        }
    }
    if encapsulated_by_abstraction(a + b, q) {
        let i = choose|i: int| 0 <= i < (a + b).len() && (#[trigger] (a + b)[i] matches BorrowPcgEdgeKind::Abstraction(x) && encapsulates(x, q));
        if let BorrowPcgEdgeKind::Abstraction(x) = (a + b)[i] {
            assert((a + b).contains(BorrowPcgEdgeKind::Abstraction(x)));
            assert(has_edge(m, BorrowPcgEdgeKind::Abstraction(x)));
            let j = choose|j: int| 0 <= j < m.len() && kind_eq(#[trigger] m[j], BorrowPcgEdgeKind::Abstraction(x));
            assert(m[j] == BorrowPcgEdgeKind::Abstraction(x));
            assert(m[j] matches BorrowPcgEdgeKind::Abstraction(y) && encapsulates(y, q));
        }
    }
}

} // verus!
