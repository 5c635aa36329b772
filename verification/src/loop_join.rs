//! Joining into the borrow graph of a loop head: the places used in the loop
//! are sorted by what holds of them at the head (live, blocked, blocking),
//! a live place behind a raw pointer is refused, and the graph loses the
//! edges that the loop abstraction replaces and gains the abstraction's.
use vstd::prelude::*;
use crate::capability_actions::PlaceCapabilities;
use crate::edge_kind::{kind_eq, lemma_kind_eq_equivalence, BorrowPcgEdgeKind};
use crate::error::{PcgError, PcgErrorKind, PcgUnsupportedError};
use crate::graph::{conditions_at, distinct_edges, has_edge, is_node_of, lemma_conditions_at, BorrowsGraph, Conditioned};
use crate::validity::{PathCondition, ValidityConditions};
use crate::node::PcgNode;
use crate::place::{MaybeLabelledPlace, Place};
use crate::place_usage::{distinct_places, join_maps, PlaceUsage, PlaceUsageType, PlaceUsages};

verus! {

/// What the borrow checker and the body's analyses tell of one place at the
/// first statement of a loop head.
#[derive(Debug)]
pub struct LoopPlaceFacts {
    pub place: Place,
    /// The place is live and initialised.
    pub live_and_initialized: bool,
    /// The place dereferences a raw pointer.
    pub contains_unsafe_deref: bool,
    /// A borrow blocks the place directly.
    pub directly_blocked: bool,
    /// The place's type has regions.
    pub has_regions: bool,
    /// The place is a leaf of the graph of places.
    pub is_leaf: bool,
}

/// The facts at a loop head, one entry per place; where a place has several
/// entries, the first counts, and a place without an entry has none of the
/// properties.
#[derive(Debug)]
pub struct LoopHeadFacts {
    pub facts: Vec<LoopPlaceFacts>,
    /// The places of the graph that lie behind a reference.
    pub borrowed: Vec<Place>,
}

/// `i` is the first entry of `facts` for `p`.
pub open spec fn first_fact(facts: Seq<LoopPlaceFacts>, p: Place, i: int) -> bool {
    &&& 0 <= i < facts.len()
    &&& facts[i].place == p
    &&& forall|j: int| 0 <= j < i ==> #[trigger] facts[j].place != p
}

/// `p` is live and initialised at the loop head.
pub open spec fn is_live(facts: Seq<LoopPlaceFacts>, p: Place) -> bool {
    exists|i: int| #[trigger] first_fact(facts, p, i) && facts[i].live_and_initialized
}

/// `p` dereferences a raw pointer.
pub open spec fn has_unsafe_deref(facts: Seq<LoopPlaceFacts>, p: Place) -> bool {
    exists|i: int| #[trigger] first_fact(facts, p, i) && facts[i].contains_unsafe_deref
}

/// A borrow blocks `p` directly at the loop head.
pub open spec fn is_blocked(facts: Seq<LoopPlaceFacts>, p: Place) -> bool {
    exists|i: int| #[trigger] first_fact(facts, p, i) && facts[i].directly_blocked
}

/// The type of `p` has regions.
pub open spec fn has_regions(facts: Seq<LoopPlaceFacts>, p: Place) -> bool {
    exists|i: int| #[trigger] first_fact(facts, p, i) && facts[i].has_regions
}

/// `p` is a leaf of the graph of places.
pub open spec fn is_leaf(facts: Seq<LoopPlaceFacts>, p: Place) -> bool {
    exists|i: int| #[trigger] first_fact(facts, p, i) && facts[i].is_leaf
}

/// `r` holds exactly the usages of `src` whose place satisfies `pred`.
pub open spec fn filtered(src: Seq<PlaceUsage>, r: Seq<PlaceUsage>, pred: spec_fn(Place) -> bool) -> bool {
    forall|u: PlaceUsage| #[trigger] r.contains(u) <==> (src.contains(u) && pred(u.place))
}

/// Some place used in the loop is live at its head and dereferences a raw
/// pointer.
pub open spec fn live_unsafe_place(used: Seq<PlaceUsage>, facts: Seq<LoopPlaceFacts>) -> bool {
    exists|u: PlaceUsage| #[trigger] used.contains(u) && is_live(facts, u.place) && has_unsafe_deref(facts, u.place)
}

/// The capabilities after the updates `u`, in order: an update with a
/// capability gives it to its place, one without takes it away.
pub open spec fn apply_capability_updates<C>(m: Map<Place, C>, u: Seq<(Place, Option<C>)>) -> Map<Place, C>
    decreases u.len(),
{
    if u.len() == 0 {
        m
    } else {
        let before = apply_capability_updates(m, u.drop_last());
        match u.last().1 {
            Some(c) => before.insert(u.last().0, c),
            None => before.remove(u.last().0),
        }
    }
}

/// The conditions of `k` once the edges `b` (with conditions `bc`) have
/// joined the edges `a` (with conditions `ac`): both joined where both have
/// the edge, else those of the one that has it.
pub open spec fn joined_conditions(
    a: Seq<BorrowPcgEdgeKind>,
    ac: Seq<ValidityConditions>,
    b: Seq<BorrowPcgEdgeKind>,
    bc: Seq<ValidityConditions>,
    k: BorrowPcgEdgeKind,
) -> Set<PathCondition> {
    if has_edge(a, k) && has_edge(b, k) {
        conditions_at(a, ac, k) + conditions_at(b, bc, k)
    } else if has_edge(a, k) {
        conditions_at(a, ac, k)
    } else {
        conditions_at(b, bc, k)
    }
}

/// The conditions of `k` once the edges `cut` have left the graph with
/// edges `a` (conditions `ac`) and the edges `b` (conditions `bc`) have
/// joined it.
pub open spec fn conditions_after_cut(
    a: Seq<BorrowPcgEdgeKind>,
    ac: Seq<ValidityConditions>,
    cut: Seq<BorrowPcgEdgeKind>,
    b: Seq<BorrowPcgEdgeKind>,
    bc: Seq<ValidityConditions>,
    k: BorrowPcgEdgeKind,
) -> Set<PathCondition> {
    let kept = has_edge(a, k) && !has_edge(cut, k);
    if kept && has_edge(b, k) {
        conditions_at(a, ac, k) + conditions_at(b, bc, k)
    } else if kept {
        conditions_at(a, ac, k)
    } else {
        conditions_at(b, bc, k)
    }
}

/// The current place `q` is a node of the graph with edges `edges`.
pub open spec fn has_current_place(edges: Seq<BorrowPcgEdgeKind>, q: Place) -> bool {
    is_node_of(edges, PcgNode::Place(MaybeLabelledPlace::Current(q)))
}

/// The places that lose their capability when the edges `cut` leave the
/// graph: the borrowed current places of `cut` that the graph `after` no
/// longer holds.
pub open spec fn released_places(cut: Seq<BorrowPcgEdgeKind>, after: Seq<BorrowPcgEdgeKind>, borrowed: Seq<Place>) -> Set<Place> {
    Set::new(|q: Place| has_current_place(cut, q) && borrowed.contains(q) && !has_current_place(after, q))
}

/// The places used in a loop, sorted by what holds of them at its head.
#[derive(Debug)]
pub struct LoopJoinPlaces {
    /// The used places that are live at the head.
    pub live: PlaceUsages,
    /// The live places that a borrow blocks.
    pub blocked: PlaceUsages,
    /// The live places whose type has regions, and so may block others.
    pub blocker: PlaceUsages,
    /// The places to expand for the abstraction: the blockers and the blocked.
    pub expand: PlaceUsages,
    /// The places written or used exclusively in the loop that are not
    /// leaves, in the order of the usages: the places whose nodes are to be
    /// labelled before the join. `join_loop` returns them and does not
    /// relabel the graph itself.
    pub to_label: Vec<Place>,
}

/// The places to label: those of the usages of `used` that may change the
/// place (writes and exclusive uses) and whose place is not a leaf, in order.
pub open spec fn places_to_label(used: Seq<PlaceUsage>, facts: Seq<LoopPlaceFacts>) -> Seq<Place>
    decreases used.len(),
{
    if used.len() == 0 {
        Seq::empty()
    } else {
        let rest = places_to_label(used.drop_last(), facts);
        let u = used.last();
        if u.usage != PlaceUsageType::Read && !is_leaf(facts, u.place) {
            rest.push(u.place)
        } else {
            rest
        }
    }
}

/// The places to label are those of the usages that are not reads and
/// whose place is not a leaf.
proof fn lemma_places_to_label_members(used: Seq<PlaceUsage>, facts: Seq<LoopPlaceFacts>)
    ensures
        forall|q: Place| #[trigger] places_to_label(used, facts).contains(q) <==> exists|i: int| 0 <= i < used.len()
            && (#[trigger] used[i]).place == q && used[i].usage != PlaceUsageType::Read && !is_leaf(facts, q),
    decreases used.len(),
{
    if used.len() > 0 {
        let pre = used.drop_last();
        lemma_places_to_label_members(pre, facts);
        let u = used.last();
        assert forall|q: Place| #[trigger] places_to_label(used, facts).contains(q) <==> exists|i: int| 0 <= i < used.len()
            && (#[trigger] used[i]).place == q && used[i].usage != PlaceUsageType::Read && !is_leaf(facts, q) by {
            let prev = places_to_label(pre, facts);
            if exists|i: int| 0 <= i < used.len() && (#[trigger] used[i]).place == q
                && used[i].usage != PlaceUsageType::Read && !is_leaf(facts, q) {
                let i = choose|i: int| 0 <= i < used.len() && (#[trigger] used[i]).place == q
                    && used[i].usage != PlaceUsageType::Read && !is_leaf(facts, q);
                if i < used.len() - 1 {
                    assert(pre[i] == used[i]);
                    assert(prev.contains(q));
                    let k = choose|k: int| 0 <= k < prev.len() && prev[k] == q;
                    if u.usage != PlaceUsageType::Read && !is_leaf(facts, u.place) {
                        assert(prev.push(u.place)[k] == q);
                    }
                } else {
                    assert(prev.push(u.place)[prev.len() as int] == q);
                }
            }
            if places_to_label(used, facts).contains(q) {
                if u.usage != PlaceUsageType::Read && !is_leaf(facts, u.place) && q == u.place {
                    assert(used[used.len() - 1] == u);
                } else {
                    let r = places_to_label(used, facts);
                    let k = choose|k: int| 0 <= k < r.len() && r[k] == q;
                    if u.usage != PlaceUsageType::Read && !is_leaf(facts, u.place) {
                        assert(r == prev.push(u.place));
                        assert(k < prev.len());
                        assert(prev[k] == q);
                    } else {
                        assert(r == prev);
                    }
                    assert(prev.contains(q));
                    let i = choose|i: int| 0 <= i < pre.len() && (#[trigger] pre[i]).place == q
                        && pre[i].usage != PlaceUsageType::Read && !is_leaf(facts, q);
                    assert(used[i] == pre[i]);
                }
            }
        }
    }
}

/// A used place that is not a leaf at the loop head is to be labelled
/// exactly when the loop writes it or uses it exclusively, that is, when
/// its usage is not a read; and only used places are labelled.
pub proof fn lemma_loop_join_labels_mutated_places(used: Seq<PlaceUsage>, facts: Seq<LoopPlaceFacts>, p: LoopJoinPlaces)
    requires
        distinct_places(used),
        sorted_at_head(used, facts, p),
    ensures
        forall|u: PlaceUsage| #[trigger] used.contains(u) && !is_leaf(facts, u.place)
            ==> (p.to_label@.contains(u.place) <==> u.usage != PlaceUsageType::Read),
        forall|q: Place| #[trigger] p.to_label@.contains(q) ==> exists|u: PlaceUsage| used.contains(u)
            && u.place == q && u.usage != PlaceUsageType::Read && !is_leaf(facts, q),
{
    lemma_places_to_label_members(used, facts);
    assert forall|u: PlaceUsage| #[trigger] used.contains(u) && !is_leaf(facts, u.place)
        implies (p.to_label@.contains(u.place) <==> u.usage != PlaceUsageType::Read) by {
        let i = choose|i: int| 0 <= i < used.len() && used[i] == u;
        if p.to_label@.contains(u.place) {
            let j = choose|j: int| 0 <= j < used.len() && (#[trigger] used[j]).place == u.place
                && used[j].usage != PlaceUsageType::Read && !is_leaf(facts, u.place);
            assert(j == i);
        }
        if u.usage != PlaceUsageType::Read {
            assert(used[i].place == u.place);
        }
    }
    assert forall|q: Place| #[trigger] p.to_label@.contains(q) implies exists|u: PlaceUsage| used.contains(u)
        && u.place == q && u.usage != PlaceUsageType::Read && !is_leaf(facts, q) by {
        let i = choose|i: int| 0 <= i < used.len() && (#[trigger] used[i]).place == q
            && used[i].usage != PlaceUsageType::Read && !is_leaf(facts, q);
        assert(used.contains(used[i]));
    }
}

/// `p` is the sorting of `used` by the facts at the loop head.
pub open spec fn sorted_at_head(used: Seq<PlaceUsage>, facts: Seq<LoopPlaceFacts>, p: LoopJoinPlaces) -> bool {
    &&& p.live.wf()
    &&& filtered(used, p.live.0@, |q: Place| is_live(facts, q))
    &&& p.blocked.wf()
    &&& filtered(used, p.blocked.0@, |q: Place| is_live(facts, q) && is_blocked(facts, q))
    &&& p.blocker.wf()
    &&& filtered(used, p.blocker.0@, |q: Place| is_live(facts, q) && has_regions(facts, q))
    &&& p.expand.wf()
    &&& p.expand.map() == join_maps(p.blocker.map(), p.blocked.map())
    &&& p.to_label@ == places_to_label(used, facts)
}

/// The first entry of `facts` for `p`, if there is one.
fn fact_index(facts: &LoopHeadFacts, p: &Place) -> (r: Option<usize>)
    ensures
        match r {
            Some(i) => first_fact(facts.facts@, *p, i as int),
            None => forall|j: int| 0 <= j < facts.facts@.len() ==> #[trigger] facts.facts@[j].place != *p,
        },
{
    let mut i: usize = 0;
    while i < facts.facts.len()
        invariant
            i <= facts.facts@.len(),
            forall|j: int| 0 <= j < i ==> #[trigger] facts.facts@[j].place != *p,
        decreases facts.facts.len() - i,
    {
        if facts.facts[i].place == *p {
            return Some(i);
        }
        i = i + 1;
    }
    None
}

/// Two first entries for one place are the same entry.
proof fn lemma_first_fact_unique(facts: Seq<LoopPlaceFacts>, p: Place, i: int, j: int)
    requires
        first_fact(facts, p, i),
        first_fact(facts, p, j),
    ensures
        i == j,
{
    if i < j {
        assert(facts[i].place != p);
    } else if j < i {
        assert(facts[j].place != p);
    }
}

/// Which of the five facts a query asks for.
#[derive(Clone, Copy, Debug, PartialEq, Eq, Structural)]
enum FactKind {
    Live,
    UnsafeDeref,
    Blocked,
    Regions,
    Leaf,
}

spec fn fact_field(f: LoopPlaceFacts, kind: FactKind) -> bool {
    match kind {
        FactKind::Live => f.live_and_initialized,
        FactKind::UnsafeDeref => f.contains_unsafe_deref,
        FactKind::Blocked => f.directly_blocked,
        FactKind::Regions => f.has_regions,
        FactKind::Leaf => f.is_leaf,
    }
}

spec fn holds(facts: Seq<LoopPlaceFacts>, p: Place, kind: FactKind) -> bool {
    match kind {
        FactKind::Live => is_live(facts, p),
        FactKind::UnsafeDeref => has_unsafe_deref(facts, p),
        FactKind::Blocked => is_blocked(facts, p),
        FactKind::Regions => has_regions(facts, p),
        FactKind::Leaf => is_leaf(facts, p),
    }
}

/// Whether the fact `kind` holds of `p`.
fn query(facts: &LoopHeadFacts, p: &Place, kind: FactKind) -> (b: bool)
    ensures
        b == holds(facts.facts@, *p, kind),
{
    match fact_index(facts, p) {
        Some(i) => {
            let f = &facts.facts[i];
            let b = match kind {
                FactKind::Live => f.live_and_initialized,
                FactKind::UnsafeDeref => f.contains_unsafe_deref,
                FactKind::Blocked => f.directly_blocked,
                FactKind::Regions => f.has_regions,
                FactKind::Leaf => f.is_leaf,
            };
            proof {
                assert(b == fact_field(facts.facts@[i as int], kind));
                assert forall|j: int| #[trigger] first_fact(facts.facts@, *p, j) implies j == i by {
                    lemma_first_fact_unique(facts.facts@, *p, i as int, j);
                }
                assert(first_fact(facts.facts@, *p, i as int));
            }
            b
        },
        None => {
            proof {
                assert forall|j: int| !#[trigger] first_fact(facts.facts@, *p, j) by {
                    if 0 <= j < facts.facts@.len() {
                        assert(facts.facts@[j].place != *p);
                    }
                }
            }
            false
        },
    }
}

/// The usages of `used` whose place satisfies the fact `kind`.
fn usages_with(used: &PlaceUsages, facts: &LoopHeadFacts, kind: FactKind) -> (r: PlaceUsages)
    requires
        used.wf(),
    ensures
        r.wf(),
        forall|u: PlaceUsage| #[trigger] r.0@.contains(u) <==> (used.0@.contains(u) && holds(facts.facts@, u.place, kind)),
{
    let r = used.usages_where(|u: &PlaceUsage| -> (b: bool)
        ensures
            b == holds(facts.facts@, u.place, kind),
        { query(facts, &u.place, kind) });
    proof {
        assert forall|u: PlaceUsage| #[trigger] r.0@.contains(u) <==> (used.0@.contains(u) && holds(facts.facts@, u.place, kind)) by {
            if r.0@.contains(u) {
                let i = choose|i: int| 0 <= i < r.0@.len() && r.0@[i] == u;
                assert(used.0@.contains(r.0@[i]));
            }
            if used.0@.contains(u) && holds(facts.facts@, u.place, kind) {
                let i = choose|i: int| 0 <= i < used.0@.len() && used.0@[i] == u;
                assert(r.0@.contains(used.0@[i]));
            }
        }
    }
    r
}

/// The places of the writing or exclusive, non-leaf usages of `used`, in order.
fn label_targets(used: &PlaceUsages, facts: &LoopHeadFacts) -> (r: Vec<Place>)
    ensures
        r@ == places_to_label(used.0@, facts.facts@),
{
    let mut r: Vec<Place> = Vec::new();
    let mut i: usize = 0;
    while i < used.0.len()
        invariant
            i <= used.0@.len(),
            r@ == places_to_label(used.0@.subrange(0, i as int), facts.facts@),
        decreases used.0.len() - i,
    {
        let u = &used.0[i];
        proof {
            assert(used.0@.subrange(0, i + 1).drop_last() =~= used.0@.subrange(0, i as int));
            assert(used.0@.subrange(0, i + 1).last() == used.0@[i as int]);
        }
        let mutates = match u.usage {
            PlaceUsageType::Read => false,
            _ => true,
        };
        if mutates && !query(facts, &u.place, FactKind::Leaf) {
            r.push(u.place.clone());
        }
        i = i + 1;
    }
    assert(used.0@.subrange(0, used.0@.len() as int) =~= used.0@);
    r
}

impl BorrowsGraph {
    /// Sorts the places used in the loop with head at hand by the facts at
    /// the head. Refused when a live place dereferences a raw pointer.
    pub fn loop_join_places(used: &PlaceUsages, facts: &LoopHeadFacts) -> (r: Result<LoopJoinPlaces, PcgError>)
        requires
            used.wf(),
        ensures
            r is Err <==> live_unsafe_place(used.0@, facts.facts@),
            match r {
                Ok(p) => sorted_at_head(used.0@, facts.facts@, p),
                Err(e) => e.kind == PcgErrorKind::Unsupported(PcgUnsupportedError::DerefUnsafePtr)
                    && e.context@.len() == 0,
            },
    {
        let live = usages_with(used, facts, FactKind::Live);
        let unsafe_live = usages_with(&live, facts, FactKind::UnsafeDeref);
        if !unsafe_live.is_empty() {
            proof {
                assert(exists|q: Place| unsafe_live.map().dom().contains(q)) by {
                    if !(exists|q: Place| unsafe_live.map().dom().contains(q)) {
                        assert(unsafe_live.map().dom() =~= Set::<Place>::empty());
                    }
                }
                let q = choose|q: Place| unsafe_live.map().dom().contains(q);
                assert(exists|i: int| 0 <= i < unsafe_live.0@.len() && unsafe_live.0@[i].place == q);
                let i = choose|i: int| 0 <= i < unsafe_live.0@.len() && unsafe_live.0@[i].place == q;
                let u = unsafe_live.0@[i];
                assert(unsafe_live.0@[i] == u);
                assert(unsafe_live.0@.contains(u));
                assert(live.0@.contains(u));
                assert(used.0@.contains(u));
            }
            return Err(PcgError::unsupported(PcgUnsupportedError::DerefUnsafePtr));
        }
        proof {
            assert forall|u: PlaceUsage| !(#[trigger] used.0@.contains(u) && is_live(facts.facts@, u.place)
                && has_unsafe_deref(facts.facts@, u.place)) by {
                if used.0@.contains(u) && is_live(facts.facts@, u.place) && has_unsafe_deref(facts.facts@, u.place) {
                    assert(live.0@.contains(u));
                    assert(unsafe_live.0@.contains(u));
                    let i = choose|i: int| 0 <= i < unsafe_live.0@.len() && unsafe_live.0@[i] == u;
                    assert(unsafe_live.map().dom().contains(u.place));
                }
            }
        }
        let blocked = usages_with(&live, facts, FactKind::Blocked);
        let blocker = usages_with(&live, facts, FactKind::Regions);
        let expand = blocker.joined_with(&blocked);
        let to_label = label_targets(used, facts);
        let p = LoopJoinPlaces { live, blocked, blocker, expand, to_label };
        proof {
            let f = facts.facts@;
            assert(filtered(used.0@, p.live.0@, |q: Place| is_live(f, q)));
            assert(filtered(used.0@, p.blocked.0@, |q: Place| is_live(f, q) && is_blocked(f, q)));
            assert(filtered(used.0@, p.blocker.0@, |q: Place| is_live(f, q) && has_regions(f, q)));
        }
        Ok(p)
    }

    /// Adds every edge of `g` with its conditions; an edge already here gets
    /// the join of both conditions.
    pub fn insert_all(&mut self, g: &BorrowsGraph)
        requires
            old(self).wf(),
            g.wf(),
        ensures
            final(self).wf(),
            forall|k: BorrowPcgEdgeKind| #[trigger] has_edge(final(self).edges@, k) <==>
                (has_edge(old(self).edges@, k) || has_edge(g.edges@, k)),
            forall|k: BorrowPcgEdgeKind| has_edge(final(self).edges@, k) ==> #[trigger] final(self).conditions_of(k)
                == joined_conditions(old(self).edges@, old(self).conditions@, g.edges@, g.conditions@, k),
    {
        let ghost before = self.edges@;
        let ghost before_c = self.conditions@;
        let mut i: usize = 0;
        while i < g.edges.len()
            invariant
                self.wf(),
                g.wf(),
                distinct_edges(before),
                before_c.len() == before.len(),
                i <= g.edges@.len(),
                forall|k: BorrowPcgEdgeKind| #[trigger] has_edge(self.edges@, k) <==>
                    (has_edge(before, k) || has_edge(g.edges@.subrange(0, i as int), k)),
                forall|k: BorrowPcgEdgeKind| has_edge(self.edges@, k) ==> #[trigger] self.conditions_of(k)
                    == joined_conditions(before, before_c, g.edges@.subrange(0, i as int), g.conditions@.subrange(0, i as int), k),
            decreases g.edges.len() - i,
        {
            let e = g.edges[i].dup();
            let c = g.conditions[i].dup();
            let ghost prev_e = self.edges@;
            let ghost prev_c = self.conditions@;
            let ghost prev_self = *self;
            self.insert(Conditioned::new(e, c));
            proof {
                let ge = g.edges@;
                let gc = g.conditions@;
                let sub = ge.subrange(0, i + 1);
                let pre = ge.subrange(0, i as int);
                let subc = gc.subrange(0, i + 1);
                let prec = gc.subrange(0, i as int);
                assert(c.view() == gc[i as int].view());
                assert forall|a: int, b: int| 0 <= a < sub.len() && 0 <= b < sub.len() && a != b
                    implies !kind_eq(sub[a], sub[b]) by {
                    assert(sub[a] == ge[a] && sub[b] == ge[b]);
                }
                assert forall|a: int, b: int| 0 <= a < pre.len() && 0 <= b < pre.len() && a != b
                    implies !kind_eq(pre[a], pre[b]) by {
                    assert(pre[a] == ge[a] && pre[b] == ge[b]);
                }
                assert forall|k: BorrowPcgEdgeKind| #[trigger] has_edge(self.edges@, k) <==>
                    (has_edge(before, k) || has_edge(sub, k)) by {
                    lemma_kind_eq_equivalence(e, ge[i as int], k);
                    lemma_kind_eq_equivalence(ge[i as int], e, k);
                    if has_edge(pre, k) {
                        let j = choose|j: int| 0 <= j < i && kind_eq(#[trigger] pre[j], k);
                        assert(sub[j] == pre[j]);
                    }
                    if has_edge(sub, k) {
                        let j = choose|j: int| 0 <= j < i + 1 && kind_eq(#[trigger] sub[j], k);
                        if j < i {
                            assert(sub[j] == pre[j]);
                        } else {
                            assert(sub[j] == ge[i as int]);
                        }
                    }
                    if kind_eq(k, e) {
                        assert(sub[i as int] == ge[i as int]);
                        lemma_kind_eq_equivalence(k, e, ge[i as int]);
                        lemma_kind_eq_equivalence(sub[i as int], k, e);
                    }
                }
                assert forall|k: BorrowPcgEdgeKind| has_edge(self.edges@, k) implies #[trigger] self.conditions_of(k)
                    == joined_conditions(before, before_c, sub, subc, k) by {
                    lemma_kind_eq_equivalence(e, ge[i as int], k);
                    lemma_kind_eq_equivalence(ge[i as int], e, k);
                    lemma_kind_eq_equivalence(k, e, ge[i as int]);
                    // Facts about `pre` and `sub` at `k`.
                    if has_edge(pre, k) {
                        let j = choose|j: int| 0 <= j < i && kind_eq(#[trigger] pre[j], k);
                        assert(sub[j] == pre[j] && subc[j] == prec[j]);
                        assert(has_edge(sub, k));
                        lemma_conditions_at(pre, prec, j, k);
                        lemma_conditions_at(sub, subc, j, k);
                        if kind_eq(k, e) {
                            lemma_kind_eq_equivalence(pre[j], k, ge[i as int]);
                            assert(sub[i as int] == ge[i as int]);
                            assert(!kind_eq(sub[j], sub[i as int]));
                        }
                    }
                    if kind_eq(k, e) {
                        let se = self.edges@;
                        let j = choose|j: int| 0 <= j < se.len() && kind_eq(#[trigger] se[j], e);
                        lemma_kind_eq_equivalence(se[j], e, k);
                        lemma_conditions_at(se, self.conditions@, j, e);
                        lemma_conditions_at(se, self.conditions@, j, k);
                        if has_edge(prev_e, k) {
                            let j2 = choose|j2: int| 0 <= j2 < prev_e.len() && kind_eq(#[trigger] prev_e[j2], k);
                            lemma_kind_eq_equivalence(prev_e[j2], k, e);
                            lemma_conditions_at(prev_e, prev_c, j2, e);
                            lemma_conditions_at(prev_e, prev_c, j2, k);
                            assert(has_edge(prev_e, e));
                            assert(prev_self.conditions_of(k) == joined_conditions(before, before_c, pre, prec, k));
                        }
                        if has_edge(prev_e, e) {
                            let j2 = choose|j2: int| 0 <= j2 < prev_e.len() && kind_eq(#[trigger] prev_e[j2], e);
                            lemma_kind_eq_equivalence(prev_e[j2], e, k);
                            assert(has_edge(prev_e, k));
                        }
                        assert(sub[i as int] == ge[i as int]);
                        assert(kind_eq(sub[i as int], k));
                        lemma_conditions_at(sub, subc, i as int, k);
                        assert(subc[i as int] == gc[i as int]);
                        assert(!has_edge(pre, k));
                        if has_edge(prev_e, k) {
                            assert(has_edge(before, k));
                        }
                    } else {
                        assert(has_edge(prev_e, k));
                        assert(prev_self.conditions_of(k) == joined_conditions(before, before_c, pre, prec, k));
                        assert(self.conditions_of(k) == prev_self.conditions_of(k));
                        if has_edge(sub, k) {
                            let j = choose|j: int| 0 <= j < i + 1 && kind_eq(#[trigger] sub[j], k);
                            if j == i {
                                assert(sub[j] == ge[i as int]);
                            } else {
                                assert(pre[j] == sub[j]);
                            }
                            assert(has_edge(pre, k));
                        }
                    }
                }
            }
            i = i + 1;
        }
        assert(g.edges@.subrange(0, g.edges@.len() as int) =~= g.edges@);
        assert(g.conditions@.subrange(0, g.conditions@.len() as int) =~= g.conditions@);
    }

    /// Removes every edge equal to one of `kinds`.
    pub fn remove_edges(&mut self, kinds: &Vec<BorrowPcgEdgeKind>)
        requires
            old(self).wf(),
        ensures
            final(self).wf(),
            forall|k: BorrowPcgEdgeKind| #[trigger] has_edge(final(self).edges@, k) <==>
                (has_edge(old(self).edges@, k) && !has_edge(kinds@, k)),
            forall|k: BorrowPcgEdgeKind| has_edge(final(self).edges@, k)
                ==> #[trigger] final(self).conditions_of(k) == old(self).conditions_of(k),
    {
        let ghost before_g = *self;
        let ghost before = self.edges@;
        let mut i: usize = 0;
        while i < kinds.len()
            invariant
                self.wf(),
                i <= kinds@.len(),
                forall|q: BorrowPcgEdgeKind| #[trigger] has_edge(self.edges@, q) <==>
                    (has_edge(before, q) && !has_edge(kinds@.subrange(0, i as int), q)),
                forall|q: BorrowPcgEdgeKind| has_edge(self.edges@, q)
                    ==> #[trigger] self.conditions_of(q) == before_g.conditions_of(q),
            decreases kinds.len() - i,
        {
            self.remove(&kinds[i]);
            proof {
                let sub = kinds@.subrange(0, i + 1);
                let pre = kinds@.subrange(0, i as int);
                let d = kinds@[i as int];
                assert forall|q: BorrowPcgEdgeKind| #[trigger] has_edge(self.edges@, q) <==>
                    (has_edge(before, q) && !has_edge(sub, q)) by {
                    lemma_kind_eq_equivalence(q, d, q);
                    if has_edge(pre, q) {
                        let w = choose|w: int| 0 <= w < i && kind_eq(#[trigger] pre[w], q);
                        assert(sub[w] == pre[w]);
                    }
                    if has_edge(sub, q) {
                        let w = choose|w: int| 0 <= w < i + 1 && kind_eq(#[trigger] sub[w], q);
                        if w < i {
                            assert(sub[w] == pre[w]);
                        } else {
                            assert(sub[w] == d);
                            lemma_kind_eq_equivalence(d, q, q);
                        }
                    }
                    if kind_eq(q, d) {
                        assert(sub[i as int] == d);
                        lemma_kind_eq_equivalence(d, q, q);
                    }
                }
            }
            i = i + 1;
        }
        assert(kinds@.subrange(0, kinds@.len() as int) =~= kinds@);
    }

    /// Removes every edge of `g`.
    pub fn remove_all(&mut self, g: &BorrowsGraph)
        requires
            old(self).wf(),
        ensures
            final(self).wf(),
            forall|k: BorrowPcgEdgeKind| #[trigger] has_edge(final(self).edges@, k) <==>
                (has_edge(old(self).edges@, k) && !has_edge(g.edges@, k)),
            forall|k: BorrowPcgEdgeKind| has_edge(final(self).edges@, k)
                ==> #[trigger] final(self).conditions_of(k) == old(self).conditions_of(k),
    {
        self.remove_edges(&g.edges);
    }

    /// Joins at a loop head. The places used in the loop are sorted by the
    /// facts at the head; a live place that dereferences a raw pointer is
    /// refused and leaves the graph and the capabilities as they were.
    /// Otherwise the capability updates of the loop abstraction are applied,
    /// the edges of `to_cut`, the part of the graph that the abstraction
    /// replaces, leave the graph, the edges of `abstraction` join it, and
    /// the borrowed places of the cut part that the graph no longer holds
    /// lose their capability.
    pub fn join_loop<C: Copy>(
        &mut self,
        used: &PlaceUsages,
        facts: &LoopHeadFacts,
        abstraction: &BorrowsGraph,
        to_cut: &BorrowsGraph,
        capability_updates: &Vec<(Place, Option<C>)>,
        capabilities: &mut PlaceCapabilities<C>,
    ) -> (r: Result<LoopJoinPlaces, PcgError>)
        requires
            old(self).wf(),
            old(capabilities).wf(),
            abstraction.wf(),
            used.wf(),
        ensures
            final(self).wf(),
            final(capabilities).wf(),
            r is Err <==> live_unsafe_place(used.0@, facts.facts@),
            match r {
                Ok(p) => {
                    &&& sorted_at_head(used.0@, facts.facts@, p)
                    &&& forall|k: BorrowPcgEdgeKind| #[trigger] has_edge(final(self).edges@, k) <==>
                        ((has_edge(old(self).edges@, k) && !has_edge(to_cut.edges@, k)) || has_edge(abstraction.edges@, k))
                    &&& forall|k: BorrowPcgEdgeKind| has_edge(final(self).edges@, k) ==> #[trigger] final(self).conditions_of(k)
                        == conditions_after_cut(old(self).edges@, old(self).conditions@, to_cut.edges@,
                            abstraction.edges@, abstraction.conditions@, k)
                    &&& final(capabilities).view() == apply_capability_updates(old(capabilities).view(), capability_updates@)
                        .remove_keys(released_places(to_cut.edges@, final(self).edges@, facts.borrowed@))
                },
                Err(e) => {
                    &&& e.kind == PcgErrorKind::Unsupported(PcgUnsupportedError::DerefUnsafePtr)
                    &&& e.context@.len() == 0
                    &&& final(self).edges@ == old(self).edges@
                    &&& final(capabilities).view() == old(capabilities).view()
                },
            },
    {
        let places = BorrowsGraph::loop_join_places(used, facts);
        match places {
            Err(e) => Err(e),
            Ok(p) => {
                apply_updates(capabilities, capability_updates);
                let ghost old_g = *self;
                self.remove_all(to_cut);
                let ghost cut_g = *self;
                self.insert_all(abstraction);
                proof {
                    assert forall|k: BorrowPcgEdgeKind| has_edge(self.edges@, k) implies #[trigger] self.conditions_of(k)
                        == conditions_after_cut(old_g.edges@, old_g.conditions@, to_cut.edges@,
                            abstraction.edges@, abstraction.conditions@, k) by {
                        assert(self.conditions_of(k) == joined_conditions(cut_g.edges@, cut_g.conditions@,
                            abstraction.edges@, abstraction.conditions@, k));
                        if has_edge(cut_g.edges@, k) {
                            assert(cut_g.conditions_of(k) == old_g.conditions_of(k));
                        }
                    }
                }
                self.release_capabilities(to_cut, &facts.borrowed, capabilities);
                Ok(p)
            },
        }
    }

    /// Takes the capability away from the borrowed current places of `cut`
    /// that this graph does not hold.
    fn release_capabilities<C: Copy>(&self, cut: &BorrowsGraph, borrowed: &Vec<Place>, capabilities: &mut PlaceCapabilities<C>)
        requires
            old(capabilities).wf(),
        ensures
            final(capabilities).wf(),
            final(capabilities).view() == old(capabilities).view().remove_keys(released_places(cut.edges@, self.edges@, borrowed@)),
    {
        let cut_nodes = cut.nodes();
        let self_nodes = self.nodes();
        let ghost base = capabilities.view();
        let mut j: usize = 0;
        while j < cut_nodes.len()
            invariant
                capabilities.wf(),
                j <= cut_nodes@.len(),
                forall|n: PcgNode| cut_nodes@.contains(n) <==> is_node_of(cut.edges@, n),
                forall|n: PcgNode| self_nodes@.contains(n) <==> is_node_of(self.edges@, n),
                capabilities.view() == base.remove_keys(Set::new(|q: Place|
                    cut_nodes@.subrange(0, j as int).contains(PcgNode::Place(MaybeLabelledPlace::Current(q)))
                    && borrowed@.contains(q) && !has_current_place(self.edges@, q))),
            decreases cut_nodes.len() - j,
        {
            let ghost prev = capabilities.view();
            let ghost pre = cut_nodes@.subrange(0, j as int);
            let ghost sub = cut_nodes@.subrange(0, j + 1);
            let node = &cut_nodes[j];
            let mut released: Option<Place> = None;
            if let PcgNode::Place(MaybeLabelledPlace::Current(q)) = node {
                if vec_contains_place(borrowed, q) && !vec_contains_node(&self_nodes, node) {
                    capabilities.remove(q);
                    released = Some(q.clone());
                }
            }
            proof {
                let s_pre = Set::new(|q: Place| pre.contains(PcgNode::Place(MaybeLabelledPlace::Current(q)))
                    && borrowed@.contains(q) && !has_current_place(self.edges@, q));
                let s_sub = Set::new(|q: Place| sub.contains(PcgNode::Place(MaybeLabelledPlace::Current(q)))
                    && borrowed@.contains(q) && !has_current_place(self.edges@, q));
                assert forall|q: Place| s_sub.contains(q) <==> (s_pre.contains(q) || released == Some(q)) by {
                    let nq = PcgNode::Place(MaybeLabelledPlace::Current(q));
                    if pre.contains(nq) {
                        let k = choose|k: int| 0 <= k < pre.len() && pre[k] == nq;
                        assert(sub[k] == nq);
                    }
                    if sub.contains(nq) {
                        let k = choose|k: int| 0 <= k < sub.len() && sub[k] == nq;
                        if k < j {
                            assert(pre[k] == nq);
                        } else {
                            assert(cut_nodes@[j as int] == nq);
                        }
                    }
                    if released == Some(q) {
                        assert(sub[j as int] == nq);
                        assert(!self_nodes@.contains(nq));
                    }
                    if sub.contains(nq) && borrowed@.contains(q) && !has_current_place(self.edges@, q) && !pre.contains(nq) {
                        let k = choose|k: int| 0 <= k < sub.len() && sub[k] == nq;
                        if k < j {
                            assert(pre[k] == nq);
                        }
                        assert(*node == nq);
                    }
                }
                assert(capabilities.view() =~= base.remove_keys(s_sub));
            }
            j = j + 1;
        }
        proof {
            assert(cut_nodes@.subrange(0, cut_nodes@.len() as int) =~= cut_nodes@);
            let s_all = Set::new(|q: Place| cut_nodes@.subrange(0, cut_nodes@.len() as int).contains(PcgNode::Place(MaybeLabelledPlace::Current(q)))
                && borrowed@.contains(q) && !has_current_place(self.edges@, q));
            assert(s_all =~= released_places(cut.edges@, self.edges@, borrowed@));
        }
    }
}

/// Applies the capability updates in order.
fn apply_updates<C: Copy>(capabilities: &mut PlaceCapabilities<C>, updates: &Vec<(Place, Option<C>)>)
    requires
        old(capabilities).wf(),
    ensures
        final(capabilities).wf(),
        final(capabilities).view() == apply_capability_updates(old(capabilities).view(), updates@),
{
    let ghost base = capabilities.view();
    let mut i: usize = 0;
    while i < updates.len()
        invariant
            capabilities.wf(),
            i <= updates@.len(),
            capabilities.view() == apply_capability_updates(base, updates@.subrange(0, i as int)),
        decreases updates.len() - i,
    {
        proof {
            assert(updates@.subrange(0, i + 1).drop_last() =~= updates@.subrange(0, i as int));
            assert(updates@.subrange(0, i + 1).last() == updates@[i as int]);
        }
        let (p, c) = &updates[i];
        match c {
            Some(c) => capabilities.insert(p.clone(), *c),
            None => capabilities.remove(p),
        }
        i = i + 1;
    }
    assert(updates@.subrange(0, updates@.len() as int) =~= updates@);
}

/// Whether `p` occurs in `v`.
fn vec_contains_place(v: &Vec<Place>, p: &Place) -> (b: bool)
    ensures
        b == v@.contains(*p),
{
    let mut i: usize = 0;
    while i < v.len()
        invariant
            i <= v@.len(),
            forall|j: int| 0 <= j < i ==> v@[j] != *p,
        decreases v.len() - i,
    {
        if v[i] == *p {
            return true;
        }
        i = i + 1;
    }
    false
}

/// Whether `n` occurs in `v`.
fn vec_contains_node(v: &Vec<PcgNode>, n: &PcgNode) -> (b: bool)
    ensures
        b == v@.contains(*n),
{
    let mut i: usize = 0;
    while i < v.len()
        invariant
            i <= v@.len(),
            forall|j: int| 0 <= j < i ==> v@[j] != *n,
        decreases v.len() - i,
    {
        if v[i] == *n {
            return true;
        }
        i = i + 1;
    }
    false
}

} // verus!
