//! The aliases of a node of the borrow graph: the nodes that a node is
//! borrowed or derived from, found by following the edges through which it
//! blocks, and whether each is an exact alias.
use vstd::prelude::*;
use crate::node::{PcgNode, LocalNode, node_to_local};
use crate::edge_kind::{BorrowPcgEdgeKind, kind_blocked_nodes};
use crate::edges::BorrowFlowEdgeKind;
use crate::graph::{BorrowsGraph, blocked_by, is_node_of};

verus! {

/// A node that aliases another, and whether it aliases it exactly.
#[derive(Debug)]
pub struct Alias {
    pub node: PcgNode,
    pub exact_alias: bool,
}

/// The lifetime projections among some nodes, in order.
pub open spec fn lp_nodes(ns: Seq<PcgNode>) -> Seq<PcgNode>
    decreases ns.len(),
{
    if ns.len() == 0 {
        Seq::empty()
    } else if ns.last() is LifetimeProjection {
        lp_nodes(ns.drop_last()).push(ns.last())
    } else {
        lp_nodes(ns.drop_last())
    }
}

/// Some nodes, each with the same exactness.
pub open spec fn with_flag(ns: Seq<PcgNode>, exact: bool) -> Seq<(PcgNode, bool)> {
    ns.map_values(|n: PcgNode| (n, exact))
}

/// The aliases that an edge gives of a node that blocks through it, when
/// that node is reached exactly (`direct`) or not: the dereferenced place
/// of a dereference and the blocked place of a borrow, as exact as the
/// node; the lifetime projections an expansion blocks, the input of an
/// abstraction and the inputs of a coupled edge, not exactly; the long
/// projection of a flow, exactly through an assignment, not at all
/// through an outlives relation between distinct regions or where the node
/// is reached exactly, and otherwise not exactly.
pub open spec fn alias_candidates(k: BorrowPcgEdgeKind, direct: bool) -> Seq<(PcgNode, bool)> {
    match k {
        BorrowPcgEdgeKind::Deref(d) => seq![(PcgNode::Place(d.deref_place), direct)],
        BorrowPcgEdgeKind::Borrow(b) => seq![(PcgNode::Place(b.blocked_place), direct)],
        BorrowPcgEdgeKind::BorrowPcgExpansion(_) => with_flag(lp_nodes(kind_blocked_nodes(k)), false),
        BorrowPcgEdgeKind::Abstraction(_) => with_flag(kind_blocked_nodes(k), false),
        BorrowPcgEdgeKind::Coupled(_) => with_flag(kind_blocked_nodes(k), false),
        BorrowPcgEdgeKind::BorrowFlow(f) => match f.kind {
            BorrowFlowEdgeKind::Assignment(_) => seq![(PcgNode::LifetimeProjection(f.source), true)],
            BorrowFlowEdgeKind::BorrowOutlives { regions_equal } => if !regions_equal || direct {
                Seq::empty()
            } else {
                seq![(PcgNode::LifetimeProjection(f.source), false)]
            },
            _ => seq![(PcgNode::LifetimeProjection(f.source), false)],
        },
    }
}

/// `(c, e2)` is an alias that an edge through which `l` blocks gives of
/// `l` reached with exactness `e`.
pub open spec fn alias_step(s: Seq<BorrowPcgEdgeKind>, l: LocalNode, e: bool, c: PcgNode, e2: bool) -> bool {
    exists|i: int| 0 <= i < s.len() && #[trigger] blocked_by(s, i, l) && alias_candidates(s[i], e).contains((c, e2))
}

/// A chain of aliases from `l` reached with exactness `e`: each is an
/// alias of the one before, which is a local node.
pub open spec fn alias_chain(s: Seq<BorrowPcgEdgeKind>, l: LocalNode, e: bool, path: Seq<(PcgNode, bool)>) -> bool {
    &&& path.len() > 0
    &&& alias_step(s, l, e, path[0].0, path[0].1)
    &&& forall|k: int| 1 <= k < path.len() ==> (node_to_local(path[k - 1].0) is Some
        && alias_step(s, node_to_local(path[k - 1].0)->0, path[k - 1].1, (#[trigger] path[k]).0, path[k].1))
}

/// `a` is reached from `l` with exactness `e` through a chain of aliases.
pub open spec fn alias_reaches(s: Seq<BorrowPcgEdgeKind>, l: LocalNode, e: bool, a: (PcgNode, bool)) -> bool {
    exists|path: Seq<(PcgNode, bool)>| #[trigger] alias_chain(s, l, e, path) && path.last() == a
}

/// The aliases that the edges through which `l` blocks give of `l`
/// reached with exactness `e` are all among `seen`.
pub open spec fn aliases_seen(s: Seq<BorrowPcgEdgeKind>, l: LocalNode, e: bool, seen: Seq<PcgNode>) -> bool {
    forall|i: int, c: PcgNode, e2: bool| 0 <= i < s.len() && blocked_by(s, i, l)
        && #[trigger] alias_candidates(s[i], e).contains((c, e2)) ==> seen.contains(c)
}

/// The input of an abstraction edge through which `l` blocks (the
/// argument of a call, or what a loop's output is derived from) is an
/// alias of `l`, not an exact one, however `l` was reached; so any set of
/// nodes that accounts for the aliases of `l`, as the one that
/// `direct_aliases` leaves, holds it.
pub proof fn lemma_abstraction_input_is_alias(
    s: Seq<BorrowPcgEdgeKind>,
    i: int,
    l: LocalNode,
    e: bool,
    n: PcgNode,
    seen: Seq<PcgNode>,
)
    requires
        0 <= i < s.len(),
        s[i] is Abstraction,
        blocked_by(s, i, l),
        kind_blocked_nodes(s[i]).contains(n),
    ensures
        alias_reaches(s, l, e, (n, false)),
        aliases_seen(s, l, e, seen) ==> seen.contains(n),
{
    let bn = kind_blocked_nodes(s[i]);
    let j = choose|j: int| 0 <= j < bn.len() && bn[j] == n;
    let cands = alias_candidates(s[i], e);
    assert(cands == with_flag(bn, false));
    assert(cands[j] == (n, false));
    assert(cands.contains((n, false)));
    assert(alias_step(s, l, e, n, false));
    let path = seq![(n, false)];
    assert(alias_chain(s, l, e, path));
    assert(path.last() == (n, false));
}

/// The lifetime projections among some nodes.
fn lp_nodes_exec(ns: &Vec<PcgNode>) -> (r: Vec<PcgNode>)
    ensures
        r@ == lp_nodes(ns@),
{
    let mut r: Vec<PcgNode> = Vec::new();
    let mut i: usize = 0;
    while i < ns.len()
        invariant
            i <= ns@.len(),
            r@ == lp_nodes(ns@.subrange(0, i as int)),
        decreases ns.len() - i,
    {
        proof {
            assert(ns@.subrange(0, i + 1).drop_last() =~= ns@.subrange(0, i as int));
        }
        match &ns[i] {
            PcgNode::LifetimeProjection(_) => {
                r.push(ns[i].clone());
            },
            _ => {},
        }
        i = i + 1;
    }
    assert(ns@.subrange(0, ns@.len() as int) =~= ns@);
    r
}

/// Some nodes, each with the same exactness.
fn with_flag_exec(ns: Vec<PcgNode>, exact: bool) -> (r: Vec<(PcgNode, bool)>)
    ensures
        r@ == with_flag(ns@, exact),
{
    let mut r: Vec<(PcgNode, bool)> = Vec::new();
    let mut i: usize = 0;
    while i < ns.len()
        invariant
            i <= ns@.len(),
            r@ == with_flag(ns@.subrange(0, i as int), exact),
        decreases ns.len() - i,
    {
        r.push((ns[i].clone(), exact));
        i = i + 1;
        assert(r@ =~= with_flag(ns@.subrange(0, i as int), exact));
    }
    assert(ns@.subrange(0, ns@.len() as int) =~= ns@);
    r
}

/// The aliases that `kind` gives of a node that blocks through it.
fn alias_candidates_exec(kind: &BorrowPcgEdgeKind, direct: bool) -> (r: Vec<(PcgNode, bool)>)
    ensures
        r@ == alias_candidates(*kind, direct),
{
    let mut r: Vec<(PcgNode, bool)> = Vec::new();
    match kind {
        BorrowPcgEdgeKind::Deref(d) => {
            r.push((PcgNode::Place(d.deref_place.clone()), direct));
        },
        BorrowPcgEdgeKind::Borrow(b) => {
            r.push((PcgNode::Place(b.blocked_place.clone()), direct));
        },
        BorrowPcgEdgeKind::BorrowPcgExpansion(_) => {
            return with_flag_exec(lp_nodes_exec(&kind.blocked_nodes()), false);
        },
        BorrowPcgEdgeKind::Abstraction(_) => {
            return with_flag_exec(kind.blocked_nodes(), false);
        },
        BorrowPcgEdgeKind::Coupled(_) => {
            return with_flag_exec(kind.blocked_nodes(), false);
        },
        BorrowPcgEdgeKind::BorrowFlow(f) => {
            match f.kind {
                BorrowFlowEdgeKind::Assignment(_) => {
                    r.push((PcgNode::LifetimeProjection(f.source.clone()), true));
                },
                BorrowFlowEdgeKind::BorrowOutlives { regions_equal } => {
                    if regions_equal && !direct {
                        r.push((PcgNode::LifetimeProjection(f.source.clone()), false));
                    }
                },
                _ => {
                    r.push((PcgNode::LifetimeProjection(f.source.clone()), false));
                },
            }
        },
    }
    assert(r@ =~= alias_candidates(*kind, direct));
    r
}

/// Whether `n` is among `v`.
fn contains_node(v: &Vec<PcgNode>, n: &PcgNode) -> (b: bool)
    ensures
        b == v@.contains(*n),
{
    let mut i: usize = 0;
    while i < v.len()
        invariant
            i <= v@.len(),
            forall|j: int| 0 <= j < i ==> v@[j] != *n,
        decreases v.len() - i,
    {
        if v[i] == *n {
            return true;
        }
        i = i + 1;
    }
    false
}

/// The graph nodes not yet seen.
pub open spec fn unseen(all: Seq<PcgNode>, seen: Seq<PcgNode>) -> nat {
    all.to_set().difference(seen.to_set()).len()
}

/// Seeing one more graph node leaves fewer unseen.
proof fn lemma_unseen_drops(all: Seq<PcgNode>, seen0: Seq<PcgNode>, seen1: Seq<PcgNode>, x: PcgNode)
    requires
        forall|n: PcgNode| seen0.contains(n) ==> seen1.contains(n),
        all.contains(x),
        seen1.contains(x),
        !seen0.contains(x),
    ensures
        unseen(all, seen1) < unseen(all, seen0),
{
    let a = all.to_set();
    let d0 = a.difference(seen0.to_set());
    let d1 = a.difference(seen1.to_set());
    assert(d1.subset_of(d0));
    assert(d0.contains(x) && !d1.contains(x));
    assert(d1.subset_of(d0.remove(x)));
    vstd::set_lib::lemma_len_subset(d1, d0.remove(x));
}

impl BorrowsGraph {
    /// The aliases of `node`, reached exactly or not (`direct`): `node`
    /// itself, then, for each edge through which it blocks, each alias the
    /// edge gives that is not yet in `seen`, which is added to `seen`,
    /// followed by that alias's own aliases, searched depth-first.
    pub fn direct_aliases(&self, node: &LocalNode, seen: &mut Vec<PcgNode>, direct: bool) -> (r: Vec<Alias>)
        ensures
            r@.len() >= 1,
            r@[0].node == crate::node::local_to_node(*node) && r@[0].exact_alias == direct,
            forall|k: int| 1 <= k < r@.len() ==> !old(seen)@.contains(#[trigger] r@[k].node) && final(seen)@.contains(r@[k].node),
            forall|n: PcgNode| final(seen)@.contains(n) <==> (old(seen)@.contains(n)
                || exists|k: int| 1 <= k < r@.len() && #[trigger] r@[k].node == n),
            forall|k: int| 1 <= k < r@.len() ==> alias_reaches(self.edges@, *node, direct, (#[trigger] r@[k].node, r@[k].exact_alias)),
            aliases_seen(self.edges@, *node, direct, final(seen)@),
            forall|k: int| 1 <= k < r@.len() && node_to_local(#[trigger] r@[k].node) is Some ==>
                aliases_seen(self.edges@, node_to_local(r@[k].node)->0, r@[k].exact_alias, final(seen)@),
    {
        let all = self.nodes();
        let found = self.alias_search(&all, node, seen, direct);
        let mut r: Vec<Alias> = Vec::new();
        r.push(Alias { node: node.to_pcg_node(), exact_alias: direct });
        let mut k: usize = 0;
        while k < found.len()
            invariant
                k <= found@.len(),
                r@.len() == k + 1,
                r@[0].node == crate::node::local_to_node(*node) && r@[0].exact_alias == direct,
                forall|j: int| 1 <= j < r@.len() ==> (#[trigger] r@[j]).node == found@[j - 1].0 && r@[j].exact_alias == found@[j - 1].1,
            decreases found.len() - k,
        {
            let (n, e) = (found[k].0.clone(), found[k].1);
            r.push(Alias { node: n, exact_alias: e });
            k = k + 1;
        }
        proof {
            assert forall|n: PcgNode| final(seen)@.contains(n) <==> (old(seen)@.contains(n)
                || exists|j: int| 1 <= j < r@.len() && #[trigger] r@[j].node == n) by {
                if exists|j: int| 0 <= j < found@.len() && #[trigger] found@[j].0 == n {
                    let j = choose|j: int| 0 <= j < found@.len() && #[trigger] found@[j].0 == n;
                    assert(r@[j + 1].node == n);
                }
                if exists|j: int| 1 <= j < r@.len() && #[trigger] r@[j].node == n {
                    let j = choose|j: int| 1 <= j < r@.len() && #[trigger] r@[j].node == n;
                    assert(found@[j - 1].0 == n);
                }
            }
            assert forall|j: int| 1 <= j < r@.len() implies alias_reaches(self.edges@, *node, direct, (#[trigger] r@[j].node, r@[j].exact_alias)) by {
                assert(found@[j - 1] == (r@[j].node, r@[j].exact_alias));
            }
            assert forall|j: int| 1 <= j < r@.len() && node_to_local(#[trigger] r@[j].node) is Some implies
                aliases_seen(self.edges@, node_to_local(r@[j].node)->0, r@[j].exact_alias, final(seen)@) by {
                assert(found@[j - 1] == (r@[j].node, r@[j].exact_alias));
            }
        }
        r
    }

    #[verifier::rlimit(100)]
    /// The depth-first search of `direct_aliases`: the aliases found after
    /// `node` itself.
    fn alias_search(&self, all: &Vec<PcgNode>, node: &LocalNode, seen: &mut Vec<PcgNode>, direct: bool)
        -> (r: Vec<(PcgNode, bool)>)
        requires
            forall|n: PcgNode| all@.contains(n) <==> is_node_of(self.edges@, n),
        ensures
            forall|n: PcgNode| old(seen)@.contains(n) ==> final(seen)@.contains(n),
            forall|k: int| 0 <= k < r@.len() ==> !old(seen)@.contains(#[trigger] r@[k].0) && final(seen)@.contains(r@[k].0),
            forall|n: PcgNode| final(seen)@.contains(n) <==> (old(seen)@.contains(n)
                || exists|k: int| 0 <= k < r@.len() && #[trigger] r@[k].0 == n),
            forall|k: int| 0 <= k < r@.len() ==> alias_reaches(self.edges@, *node, direct, #[trigger] r@[k]),
            aliases_seen(self.edges@, *node, direct, final(seen)@),
            forall|k: int| 0 <= k < r@.len() && node_to_local(#[trigger] r@[k].0) is Some ==>
                aliases_seen(self.edges@, node_to_local(r@[k].0)->0, r@[k].1, final(seen)@),
        decreases unseen(all@, seen@),
    {
        let ghost s = self.edges@;
        let ghost seen0 = seen@;
        let n_edges = self.edges.len();
        let mut r: Vec<(PcgNode, bool)> = Vec::new();
        let edges = self.edges_blocked_by(node);
        let mut t: usize = 0;
        while t < edges.len()
            invariant
                s == self.edges@,
                forall|n: PcgNode| all@.contains(n) <==> is_node_of(s, n),
                forall|k: int| 0 <= k < edges@.len() ==> #[trigger] edges@[k] < s.len(),
                forall|i: int| 0 <= i < s.len() ==> (edges@.contains(i as usize) <==> blocked_by(s, i, *node)),
                t <= edges@.len(),
                s.len() <= usize::MAX,
                seen0 == old(seen)@,
                forall|n: PcgNode| seen0.contains(n) ==> seen@.contains(n),
                forall|k: int| 0 <= k < r@.len() ==> !seen0.contains(#[trigger] r@[k].0) && seen@.contains(r@[k].0),
                forall|n: PcgNode| seen@.contains(n) <==> (seen0.contains(n)
                    || exists|k: int| 0 <= k < r@.len() && #[trigger] r@[k].0 == n),
                forall|k: int| 0 <= k < r@.len() ==> alias_reaches(s, *node, direct, #[trigger] r@[k]),
                forall|q: int, c: PcgNode, e2: bool| 0 <= q < t && #[trigger] alias_candidates(s[edges@[q] as int], direct).contains((c, e2))
                    ==> seen@.contains(c),
                forall|k: int| 0 <= k < r@.len() && node_to_local(#[trigger] r@[k].0) is Some ==>
                    aliases_seen(s, node_to_local(r@[k].0)->0, r@[k].1, seen@),
            decreases edges.len() - t,
        {
            let i = edges[t];
            let cands = alias_candidates_exec(&self.edges[i], direct);
            let mut u: usize = 0;
            while u < cands.len()
                invariant
                    s == self.edges@,
                    forall|n: PcgNode| all@.contains(n) <==> is_node_of(s, n),
                    i < s.len(),
                    seen0 == old(seen)@,
                    t < edges@.len(),
                    i == edges@[t as int],
                    forall|q: int, c: PcgNode, e2: bool| 0 <= q < t && #[trigger] alias_candidates(s[edges@[q] as int], direct).contains((c, e2))
                        ==> seen@.contains(c),
                    blocked_by(s, i as int, *node),
                    cands@ == alias_candidates(s[i as int], direct),
                    u <= cands@.len(),
                    forall|n: PcgNode| seen0.contains(n) ==> seen@.contains(n),
                    forall|k: int| 0 <= k < r@.len() ==> !seen0.contains(#[trigger] r@[k].0) && seen@.contains(r@[k].0),
                    forall|n: PcgNode| seen@.contains(n) <==> (seen0.contains(n)
                        || exists|k: int| 0 <= k < r@.len() && #[trigger] r@[k].0 == n),
                    forall|k: int| 0 <= k < r@.len() ==> alias_reaches(s, *node, direct, #[trigger] r@[k]),
                    forall|q: int| 0 <= q < u ==> seen@.contains(#[trigger] cands@[q].0),
                    forall|k: int| 0 <= k < r@.len() && node_to_local(#[trigger] r@[k].0) is Some ==>
                        aliases_seen(s, node_to_local(r@[k].0)->0, r@[k].1, seen@),
                decreases cands.len() - u,
            {
                let (c, e2) = (cands[u].0.clone(), cands[u].1);
                if !contains_node(seen, &c) {
                    let ghost before = seen@;
                    let ghost r0 = r@;
                    proof {
                        lemma_candidate_is_node(s, i as int, *node, direct, c, e2);
                        assert(alias_candidates(s[i as int], direct).contains((c, e2))) by {
                            assert(cands@[u as int] == (c, e2));
                        }
                    }
                    seen.push(c.clone());
                    r.push((c.clone(), e2));
                    proof {
                        lemma_push_contains(before, c);
                        let p1 = seq![(c, e2)];
                        assert(alias_chain(s, *node, direct, p1));
                        assert(alias_reaches(s, *node, direct, (c, e2)));
                        assert(all@.contains(c));
                        lemma_unseen_drops(all@, seen0, seen@, c);
                    }
                    match c.as_local_node() {
                        Some(l) => {
                            let ghost seen_mid = seen@;
                            let ghost r_mid = r@;
                            let sub = self.alias_search(all, &l, seen, e2);
                            proof {
                                assert forall|n: PcgNode| seen0.contains(n) implies seen@.contains(n) by {
                                    assert(seen_mid.contains(n));
                                }
                            }
                            let mut w: usize = 0;
                            while w < sub.len()
                                invariant
                                    s == self.edges@,
                                    w <= sub@.len(),
                                    r@.len() == r_mid.len() + w,
                                    forall|k: int| 0 <= k < r_mid.len() ==> r@[k] == r_mid[k],
                                    forall|k: int| 0 <= k < w ==> r@[r_mid.len() + k] == sub@[k],
                                decreases sub.len() - w,
                            {
                                r.push((sub[w].0.clone(), sub[w].1));
                                w = w + 1;
                            }
                            proof {
                                lemma_search_merge(s, *node, direct, l, c, e2, seen0, before, seen_mid, seen@, r0, r_mid, sub@, r@);
                            }
                        },
                        None => {
                            proof {
                                lemma_search_leaf(s, *node, direct, c, e2, seen0, before, seen@, r0, r@);
                            }
                        },
                    }
                }
                proof {
                    assert(seen@.contains(cands@[u as int].0));
                }
                u = u + 1;
            }
            proof {
                assert forall|q: int, c: PcgNode, e2: bool| 0 <= q < t + 1 && #[trigger] alias_candidates(s[edges@[q] as int], direct).contains((c, e2))
                    implies seen@.contains(c) by {
                    if q == t {
                        assert(edges@[q] == i);
                        assert(edges@[q] as int == i as int);
                        assert(cands@ == alias_candidates(s[edges@[q] as int], direct));
                        let v = choose|v: int| 0 <= v < cands@.len() && cands@[v] == (c, e2);
                        assert(0 <= v < u);
                        assert(seen@.contains(cands@[v].0));
                        assert(cands@[v].0 == c);
                    }
                }
            }
            t = t + 1;
        }
        proof {
            assert forall|i: int, c: PcgNode, e2: bool| 0 <= i < s.len() && blocked_by(s, i, *node)
                && #[trigger] alias_candidates(s[i], direct).contains((c, e2)) implies seen@.contains(c) by {
                assert(edges@.contains(i as usize));
                let q = choose|q: int| 0 <= q < edges@.len() && edges@[q] == i as usize;
                assert(edges@[q] as int == i);
                assert(alias_candidates(s[edges@[q] as int], direct).contains((c, e2)));
            }
        }
        r
    }
}

/// The lifetime projections among some nodes are among them.
proof fn lemma_lp_nodes_sub(ns: Seq<PcgNode>, c: PcgNode)
    requires
        lp_nodes(ns).contains(c),
    ensures
        ns.contains(c),
    decreases ns.len(),
{
    if ns.len() > 0 {
        if ns.last() is LifetimeProjection && c == ns.last() {
            assert(ns[ns.len() - 1] == c);
        } else {
            if ns.last() is LifetimeProjection {
                let k = choose|k: int| 0 <= k < lp_nodes(ns).len() && lp_nodes(ns)[k] == c;
                assert(lp_nodes(ns.drop_last()).contains(c)) by {
                    assert(lp_nodes(ns)[k] == lp_nodes(ns.drop_last())[k]);
                }
            }
            lemma_lp_nodes_sub(ns.drop_last(), c);
            let k = choose|k: int| 0 <= k < ns.drop_last().len() && ns.drop_last()[k] == c;
            assert(ns[k] == c);
        }
    }
}

/// Nodes with a flag are among the nodes.
proof fn lemma_with_flag_sub(ns: Seq<PcgNode>, e: bool, c: PcgNode, e2: bool)
    requires
        with_flag(ns, e).contains((c, e2)),
    ensures
        ns.contains(c),
{
    let k = choose|k: int| 0 <= k < with_flag(ns, e).len() && with_flag(ns, e)[k] == (c, e2);
    assert(ns[k] == c);
}

/// An alias an edge gives is a node of the graph.
proof fn lemma_candidate_is_node(s: Seq<BorrowPcgEdgeKind>, i: int, node: LocalNode, direct: bool, c: PcgNode, e2: bool)
    requires
        0 <= i < s.len(),
        blocked_by(s, i, node),
        alias_candidates(s[i], direct).contains((c, e2)),
    ensures
        is_node_of(s, c),
{
    let k = s[i];
    let cs = alias_candidates(k, direct);
    let q = choose|q: int| 0 <= q < cs.len() && cs[q] == (c, e2);
    match k {
        BorrowPcgEdgeKind::Deref(d) => {
            assert(crate::edge_kind::kind_blocked_by_nodes(k)[0] == LocalNode::Place(d.deref_place));
            assert(crate::node::local_to_node(crate::edge_kind::kind_blocked_by_nodes(k)[0]) == c);
            assert(0 < crate::edge_kind::kind_blocked_by_nodes(k).len());
        },
        BorrowPcgEdgeKind::Borrow(b) => {
            assert(kind_blocked_nodes(k)[0] == c);
        },
        BorrowPcgEdgeKind::BorrowPcgExpansion(_) => {
            lemma_with_flag_sub(lp_nodes(kind_blocked_nodes(k)), false, c, e2);
            lemma_lp_nodes_sub(kind_blocked_nodes(k), c);
        },
        BorrowPcgEdgeKind::Abstraction(_) => {
            lemma_with_flag_sub(kind_blocked_nodes(k), false, c, e2);
        },
        BorrowPcgEdgeKind::Coupled(_) => {
            lemma_with_flag_sub(kind_blocked_nodes(k), false, c, e2);
        },
        BorrowPcgEdgeKind::BorrowFlow(f) => {
            assert(kind_blocked_nodes(k)[0] == c);
        },
    }
    assert(kind_blocked_nodes(s[i]).contains(c) || exists|j: int| 0 <= j < crate::edge_kind::kind_blocked_by_nodes(s[i]).len()
        && crate::node::local_to_node(#[trigger] crate::edge_kind::kind_blocked_by_nodes(s[i])[j]) == c);
}

/// What a sequence with one more element contains.
proof fn lemma_push_contains(a: Seq<PcgNode>, x: PcgNode)
    ensures
        forall|n: PcgNode| #[trigger] a.push(x).contains(n) <==> (a.contains(n) || n == x),
{
    assert forall|n: PcgNode| #[trigger] a.push(x).contains(n) <==> (a.contains(n) || n == x) by {
        if a.contains(n) {
            let j = choose|j: int| 0 <= j < a.len() && a[j] == n;
            assert(a.push(x)[j] == n);
        }
        if n == x {
            assert(a.push(x)[a.len() as int] == x);
        }
        if a.push(x).contains(n) {
            let j = choose|j: int| 0 <= j < a.push(x).len() && a.push(x)[j] == n;
            if j < a.len() {
                assert(a[j] == n);
            }
        }
    }
}

/// What more nodes seen cover, they still cover.
proof fn lemma_aliases_seen_mono(s: Seq<BorrowPcgEdgeKind>, l: LocalNode, e: bool, a: Seq<PcgNode>, b: Seq<PcgNode>)
    requires
        aliases_seen(s, l, e, a),
        forall|n: PcgNode| a.contains(n) ==> b.contains(n),
    ensures
        aliases_seen(s, l, e, b),
{
    assert forall|i: int, c: PcgNode, e2: bool| 0 <= i < s.len() && blocked_by(s, i, l)
        && #[trigger] alias_candidates(s[i], e).contains((c, e2)) implies b.contains(c) by {
        assert(a.contains(c));
    }
}

/// A chain from an alias of `node` to `a`, with that alias in front, is a
/// chain from `node`.
proof fn lemma_chain_prepend(s: Seq<BorrowPcgEdgeKind>, node: LocalNode, direct: bool, c: PcgNode, e2: bool, l: LocalNode,
    a: (PcgNode, bool))
    requires
        alias_step(s, node, direct, c, e2),
        node_to_local(c) == Some(l),
        alias_reaches(s, l, e2, a),
    ensures
        alias_reaches(s, node, direct, a),
{
    let p = choose|p: Seq<(PcgNode, bool)>| #[trigger] alias_chain(s, l, e2, p) && p.last() == a;
    let q = seq![(c, e2)] + p;
    assert forall|k: int| 1 <= k < q.len() implies (node_to_local(q[k - 1].0) is Some
        && alias_step(s, node_to_local(q[k - 1].0)->0, q[k - 1].1, (#[trigger] q[k]).0, q[k].1)) by {
        if k == 1 {
            assert(q[1] == p[0]);
            assert(q[0] == (c, e2));
        } else {
            assert(q[k - 1] == p[k - 2]);
            assert(q[k] == p[k - 1]);
            assert(p[k - 1] == p[k - 1]);
        }
    }
    assert(alias_chain(s, node, direct, q));
    assert(q.last() == a);
}

/// After adding a new alias `c` that is not a local node, the search state
/// of `node` holds again.
proof fn lemma_search_leaf(s: Seq<BorrowPcgEdgeKind>, node: LocalNode, direct: bool, c: PcgNode, e2: bool,
    seen0: Seq<PcgNode>, before: Seq<PcgNode>, seen_f: Seq<PcgNode>, r0: Seq<(PcgNode, bool)>, r_f: Seq<(PcgNode, bool)>)
    requires
        forall|n: PcgNode| seen0.contains(n) ==> before.contains(n),
        forall|k: int| 0 <= k < r0.len() ==> !seen0.contains(#[trigger] r0[k].0) && before.contains(r0[k].0),
        forall|n: PcgNode| before.contains(n) <==> (seen0.contains(n) || exists|k: int| 0 <= k < r0.len() && #[trigger] r0[k].0 == n),
        forall|k: int| 0 <= k < r0.len() ==> alias_reaches(s, node, direct, #[trigger] r0[k]),
        forall|k: int| 0 <= k < r0.len() && node_to_local(#[trigger] r0[k].0) is Some ==>
            aliases_seen(s, node_to_local(r0[k].0)->0, r0[k].1, before),
        !before.contains(c),
        seen_f == before.push(c),
        r_f == r0.push((c, e2)),
        alias_step(s, node, direct, c, e2),
        node_to_local(c) is None,
    ensures
        forall|n: PcgNode| before.contains(n) ==> seen_f.contains(n),
        forall|n: PcgNode| seen0.contains(n) ==> seen_f.contains(n),
        forall|k: int| 0 <= k < r_f.len() ==> !seen0.contains(#[trigger] r_f[k].0) && seen_f.contains(r_f[k].0),
        forall|n: PcgNode| seen_f.contains(n) <==> (seen0.contains(n) || exists|k: int| 0 <= k < r_f.len() && #[trigger] r_f[k].0 == n),
        forall|k: int| 0 <= k < r_f.len() ==> alias_reaches(s, node, direct, #[trigger] r_f[k]),
        forall|k: int| 0 <= k < r_f.len() && node_to_local(#[trigger] r_f[k].0) is Some ==>
            aliases_seen(s, node_to_local(r_f[k].0)->0, r_f[k].1, seen_f),
{
    lemma_push_contains(before, c);
    assert(seen_f.contains(c));
    assert forall|k: int| 0 <= k < r_f.len() implies !seen0.contains(#[trigger] r_f[k].0) && seen_f.contains(r_f[k].0) by {
        if k < r0.len() {
            assert(r_f[k] == r0[k]);
        }
    }
    assert forall|n: PcgNode| seen_f.contains(n) implies (seen0.contains(n) || exists|k: int| 0 <= k < r_f.len() && #[trigger] r_f[k].0 == n) by {
        if !seen0.contains(n) {
            if before.contains(n) {
                let k = choose|k: int| 0 <= k < r0.len() && #[trigger] r0[k].0 == n;
                assert(r_f[k] == r0[k]);
            } else {
                assert(n == c);
                assert(r_f[r0.len() as int].0 == n);
            }
        }
    }
    assert forall|k: int| 0 <= k < r_f.len() implies alias_reaches(s, node, direct, #[trigger] r_f[k]) by {
        if k < r0.len() {
            assert(r_f[k] == r0[k]);
        } else {
            let p1 = seq![(c, e2)];
            assert(alias_chain(s, node, direct, p1));
        }
    }
    assert forall|k: int| 0 <= k < r_f.len() && node_to_local(#[trigger] r_f[k].0) is Some implies
        aliases_seen(s, node_to_local(r_f[k].0)->0, r_f[k].1, seen_f) by {
        assert(k < r0.len());
        assert(r_f[k] == r0[k]);
        lemma_aliases_seen_mono(s, node_to_local(r0[k].0)->0, r0[k].1, before, seen_f);
    }
}

/// After searching the aliases of a new alias `c`, the search state of
/// `node` holds again.
proof fn lemma_search_merge(s: Seq<BorrowPcgEdgeKind>, node: LocalNode, direct: bool, l: LocalNode, c: PcgNode, e2: bool,
    seen0: Seq<PcgNode>, before: Seq<PcgNode>, seen_mid: Seq<PcgNode>, seen_f: Seq<PcgNode>,
    r0: Seq<(PcgNode, bool)>, r_mid: Seq<(PcgNode, bool)>, sub: Seq<(PcgNode, bool)>, r_f: Seq<(PcgNode, bool)>)
    requires
        forall|n: PcgNode| seen0.contains(n) ==> before.contains(n),
        forall|k: int| 0 <= k < r0.len() ==> !seen0.contains(#[trigger] r0[k].0) && before.contains(r0[k].0),
        forall|n: PcgNode| before.contains(n) <==> (seen0.contains(n) || exists|k: int| 0 <= k < r0.len() && #[trigger] r0[k].0 == n),
        forall|k: int| 0 <= k < r0.len() ==> alias_reaches(s, node, direct, #[trigger] r0[k]),
        forall|k: int| 0 <= k < r0.len() && node_to_local(#[trigger] r0[k].0) is Some ==>
            aliases_seen(s, node_to_local(r0[k].0)->0, r0[k].1, before),
        !before.contains(c),
        seen_mid == before.push(c),
        r_mid == r0.push((c, e2)),
        alias_step(s, node, direct, c, e2),
        node_to_local(c) == Some(l),
        forall|n: PcgNode| seen_mid.contains(n) ==> seen_f.contains(n),
        forall|k: int| 0 <= k < sub.len() ==> !seen_mid.contains(#[trigger] sub[k].0) && seen_f.contains(sub[k].0),
        forall|n: PcgNode| seen_f.contains(n) <==> (seen_mid.contains(n) || exists|k: int| 0 <= k < sub.len() && #[trigger] sub[k].0 == n),
        forall|k: int| 0 <= k < sub.len() ==> alias_reaches(s, l, e2, #[trigger] sub[k]),
        aliases_seen(s, l, e2, seen_f),
        forall|k: int| 0 <= k < sub.len() && node_to_local(#[trigger] sub[k].0) is Some ==>
            aliases_seen(s, node_to_local(sub[k].0)->0, sub[k].1, seen_f),
        r_f.len() == r_mid.len() + sub.len(),
        forall|k: int| 0 <= k < r_mid.len() ==> r_f[k] == r_mid[k],
        forall|k: int| 0 <= k < sub.len() ==> r_f[r_mid.len() + k] == sub[k],
    ensures
        forall|n: PcgNode| before.contains(n) ==> seen_f.contains(n),
        forall|n: PcgNode| seen0.contains(n) ==> seen_f.contains(n),
        forall|k: int| 0 <= k < r_f.len() ==> !seen0.contains(#[trigger] r_f[k].0) && seen_f.contains(r_f[k].0),
        forall|n: PcgNode| seen_f.contains(n) <==> (seen0.contains(n) || exists|k: int| 0 <= k < r_f.len() && #[trigger] r_f[k].0 == n),
        forall|k: int| 0 <= k < r_f.len() ==> alias_reaches(s, node, direct, #[trigger] r_f[k]),
        forall|k: int| 0 <= k < r_f.len() && node_to_local(#[trigger] r_f[k].0) is Some ==>
            aliases_seen(s, node_to_local(r_f[k].0)->0, r_f[k].1, seen_f),
{
    lemma_push_contains(before, c);
    assert forall|n: PcgNode| before.contains(n) implies seen_f.contains(n) by {
        assert(seen_mid.contains(n));
    }
    assert(seen_mid.contains(c));
    assert forall|k: int| 0 <= k < r_f.len() implies !seen0.contains(#[trigger] r_f[k].0) && seen_f.contains(r_f[k].0) by {
        if k < r0.len() {
            assert(r_f[k] == r0[k]);
            assert(before.contains(r0[k].0));
        } else if k == r0.len() {
            assert(r_f[k] == (c, e2));
        } else {
            assert(r_f[k] == sub[k - r_mid.len()]);
            assert(!seen_mid.contains(sub[k - r_mid.len()].0));
        }
    }
    assert forall|n: PcgNode| seen_f.contains(n) implies (seen0.contains(n) || exists|k: int| 0 <= k < r_f.len() && #[trigger] r_f[k].0 == n) by {
        if !seen0.contains(n) {
            assert(seen_mid.contains(n) <==> (before.contains(n) || n == c));
            if seen_mid.contains(n) {
                if before.contains(n) {
                    let k = choose|k: int| 0 <= k < r0.len() && #[trigger] r0[k].0 == n;
                    assert(r_f[k] == r0[k]);
                    assert(r_f[k].0 == n);
                } else {
                    assert(n == c);
                    assert(r_f[r0.len() as int] == r_mid[r0.len() as int]);
                    assert(r_f[r0.len() as int].0 == n);
                }
            } else {
                let k = choose|k: int| 0 <= k < sub.len() && #[trigger] sub[k].0 == n;
                assert(r_f[r_mid.len() + k] == sub[k]);
                assert(r_f[r_mid.len() + k].0 == n);
            }
        }
    }
    assert forall|k: int| 0 <= k < r_f.len() implies alias_reaches(s, node, direct, #[trigger] r_f[k]) by {
        if k < r0.len() {
            assert(r_f[k] == r0[k]);
        } else if k == r0.len() {
            assert(r_f[k] == (c, e2));
            let p1 = seq![(c, e2)];
            assert(alias_chain(s, node, direct, p1));
        } else {
            assert(r_f[k] == sub[k - r_mid.len()]);
            lemma_chain_prepend(s, node, direct, c, e2, l, sub[k - r_mid.len()]);
        }
    }
    assert forall|k: int| 0 <= k < r_f.len() && node_to_local(#[trigger] r_f[k].0) is Some implies
        aliases_seen(s, node_to_local(r_f[k].0)->0, r_f[k].1, seen_f) by {
        if k < r0.len() {
            assert(r_f[k] == r0[k]);
            lemma_aliases_seen_mono(s, node_to_local(r0[k].0)->0, r0[k].1, before, seen_f);
        } else if k == r0.len() {
            assert(r_f[k] == (c, e2));
        } else {
            assert(r_f[k] == sub[k - r_mid.len()]);
        }
    }
}

} // verus!
