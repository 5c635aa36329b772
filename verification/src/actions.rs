//! The actions that the analysis applies to the borrow state and to the
//! capabilities of places: restore or weaken a capability, add an edge, or
//! remove one (which takes the capability away from the places that only
//! the removed edge held in the graph).
use vstd::prelude::*;
use crate::capability_actions::{PlaceCapabilities, RestoreCapability, Weaken};
use crate::edge_kind::{kind_blocked_by_nodes, BorrowPcgEdgeKind};
use crate::error::PcgError;
use crate::graph::{has_edge, in_graph, BorrowPcgEdge, BorrowsState};
use crate::node::{LocalNode, PcgNode};
use crate::place::{MaybeLabelledPlace, Place};

verus! {

/// An action on the borrow state and the capabilities.
#[derive(Debug)]
pub enum BorrowPcgActionKind<C> {
    /// Restore the capability of a place.
    Restore(RestoreCapability<C>),
    /// Weaken the capability of a place, or take it away.
    Weaken(Weaken<Place, C, Option<C>>),
    /// Remove an edge from the graph.
    RemoveEdge(BorrowPcgEdge),
    /// Add an edge to the graph.
    AddEdge { edge: BorrowPcgEdge },
}

/// An action, with a note on why it was taken.
#[derive(Debug)]
pub struct BorrowPcgAction<C> {
    pub kind: BorrowPcgActionKind<C>,
    pub debug_context: Option<String>,
}

impl<C> BorrowPcgAction<C> {
    /// Restore `place` to `capability`.
    pub fn restore_capability(place: Place, capability: C, debug_context: String) -> (a: Self)
        ensures
            a.kind == BorrowPcgActionKind::Restore(RestoreCapability { place, capability }),
            a.debug_context == Some(debug_context),
    {
        BorrowPcgAction { kind: BorrowPcgActionKind::Restore(RestoreCapability::new(place, capability)), debug_context: Some(debug_context) }
    }

    /// Weaken `place` from `from` to `to` (to nothing when `to` is `None`).
    pub fn weaken(place: Place, from: C, to: Option<C>) -> (a: Self)
        ensures
            a.kind == BorrowPcgActionKind::<C>::Weaken(Weaken { place, from, to }),
            a.debug_context == None::<String>,
    {
        BorrowPcgAction { kind: BorrowPcgActionKind::Weaken(Weaken::new(place, from, to)), debug_context: None }
    }

    /// Remove `edge`.
    pub fn remove_edge(edge: BorrowPcgEdge, debug_context: String) -> (a: Self)
        ensures
            a.kind == BorrowPcgActionKind::<C>::RemoveEdge(edge),
            a.debug_context == Some(debug_context),
    {
        BorrowPcgAction { kind: BorrowPcgActionKind::RemoveEdge(edge), debug_context: Some(debug_context) }
    }

    /// Add `edge`.
    pub fn add_edge(edge: BorrowPcgEdge, debug_context: String) -> (a: Self)
        ensures
            a.kind == (BorrowPcgActionKind::<C>::AddEdge { edge }),
            a.debug_context == Some(debug_context),
    {
        BorrowPcgAction { kind: BorrowPcgActionKind::AddEdge { edge }, debug_context: Some(debug_context) }
    }
}

/// The current places that block through the edge `k` and that the graph
/// with edges `after` no longer holds: they lose their capability when `k`
/// is removed.
pub open spec fn released_by_removal(k: BorrowPcgEdgeKind, after: Seq<BorrowPcgEdgeKind>) -> Set<Place> {
    Set::new(|q: Place| kind_blocked_by_nodes(k).contains(LocalNode::Place(MaybeLabelledPlace::Current(q)))
        && !in_graph(after, PcgNode::Place(MaybeLabelledPlace::Current(q))))
}

/// What the action requires of the capabilities: a weakening starts from
/// the capability that the place holds.
pub open spec fn action_applicable<C>(kind: BorrowPcgActionKind<C>, caps: Map<Place, C>) -> bool {
    match kind {
        BorrowPcgActionKind::Weaken(w) => caps.dom().contains(w.place) && caps[w.place] == w.from,
        _ => true,
    }
}

impl<VC> BorrowsState<VC> {
    /// Applies `action`; returns whether it changed anything.
    pub fn apply_action<C: Copy>(&mut self, action: BorrowPcgAction<C>, capabilities: &mut PlaceCapabilities<C>)
        -> (r: Result<bool, PcgError>)
        requires
            old(self).graph.wf(),
            old(capabilities).wf(),
            action_applicable(action.kind, old(capabilities).view()),
        ensures
            final(self).graph.wf(),
            final(capabilities).wf(),
            r is Ok,
            match action.kind {
                BorrowPcgActionKind::Restore(restore) => {
                    &&& final(capabilities).view() == old(capabilities).view().insert(restore.place, restore.capability)
                    &&& final(self).graph == old(self).graph
                    &&& r == Ok::<bool, PcgError>(true)
                },
                BorrowPcgActionKind::Weaken(w) => {
                    &&& final(capabilities).view() == match w.to {
                        Some(to) => old(capabilities).view().insert(w.place, to),
                        None => old(capabilities).view().remove(w.place),
                    }
                    &&& final(self).graph == old(self).graph
                    &&& r == Ok::<bool, PcgError>(true)
                },
                BorrowPcgActionKind::AddEdge { edge } => {
                    &&& forall|k: BorrowPcgEdgeKind| #[trigger] has_edge(final(self).graph.edges@, k)
                        <==> (has_edge(old(self).graph.edges@, k) || crate::edge_kind::kind_eq(k, edge.value))
                    &&& final(self).graph.conditions_of(edge.value) == if has_edge(old(self).graph.edges@, edge.value) {
                        old(self).graph.conditions_of(edge.value) + edge.conditions.view()
                    } else {
                        edge.conditions.view()
                    }
                    &&& forall|k: BorrowPcgEdgeKind| has_edge(old(self).graph.edges@, k) && !crate::edge_kind::kind_eq(k, edge.value)
                        ==> #[trigger] final(self).graph.conditions_of(k) == old(self).graph.conditions_of(k)
                    &&& final(capabilities).view() == old(capabilities).view()
                    &&& r == Ok::<bool, PcgError>(!has_edge(old(self).graph.edges@, edge.value)
                        || !edge.conditions.view().subset_of(old(self).graph.conditions_of(edge.value)))
                },
                BorrowPcgActionKind::RemoveEdge(edge) => {
                    &&& forall|k: BorrowPcgEdgeKind| #[trigger] has_edge(final(self).graph.edges@, k)
                        <==> (has_edge(old(self).graph.edges@, k) && !crate::edge_kind::kind_eq(k, edge.value))
                    &&& forall|k: BorrowPcgEdgeKind| has_edge(final(self).graph.edges@, k)
                        ==> #[trigger] final(self).graph.conditions_of(k) == old(self).graph.conditions_of(k)
                    &&& final(capabilities).view() == if has_edge(old(self).graph.edges@, edge.value) {
                        old(capabilities).view().remove_keys(released_by_removal(edge.value, final(self).graph.edges@))
                    } else {
                        old(capabilities).view()
                    }
                    &&& r == Ok::<bool, PcgError>(has_edge(old(self).graph.edges@, edge.value))
                },
            },
    {
        match action.kind {
            BorrowPcgActionKind::Restore(restore) => {
                capabilities.insert(restore.place, restore.capability);
                Ok(true)
            },
            BorrowPcgActionKind::Weaken(w) => {
                match w.to {
                    Some(to) => capabilities.insert(w.place, to),
                    None => capabilities.remove(&w.place),
                }
                Ok(true)
            },
            BorrowPcgActionKind::AddEdge { edge } => {
                let changed = self.graph.insert(edge);
                proof {
                    assert forall|k: BorrowPcgEdgeKind| #[trigger] has_edge(self.graph.edges@, k)
                        <==> (has_edge(old(self).graph.edges@, k) || crate::edge_kind::kind_eq(k, edge.value)) by {
                        if crate::edge_kind::kind_eq(k, edge.value) {
                            let j = choose|j: int| 0 <= j < self.graph.edges@.len()
                                && crate::edge_kind::kind_eq(#[trigger] self.graph.edges@[j], edge.value);
                            crate::edge_kind::lemma_kind_eq_equivalence(self.graph.edges@[j], edge.value, k);
                            crate::edge_kind::lemma_kind_eq_equivalence(k, edge.value, edge.value);
                        }
                    }
                }
                Ok(changed)
            },
            BorrowPcgActionKind::RemoveEdge(edge) => {
                let removed = self.graph.remove(&edge.value);
                if removed {
                    self.release_blocked_by(&edge.value, capabilities);
                }
                Ok(removed)
            },
        }
    }

    /// Takes the capability away from the current places that block
    /// through `k` and that the graph no longer holds.
    fn release_blocked_by<C: Copy>(&self, k: &BorrowPcgEdgeKind, capabilities: &mut PlaceCapabilities<C>)
        requires
            old(capabilities).wf(),
        ensures
            final(capabilities).wf(),
            final(capabilities).view() == old(capabilities).view().remove_keys(released_by_removal(*k, self.graph.edges@)),
    {
        let nodes = k.blocked_by_nodes();
        let ghost base = capabilities.view();
        let mut j: usize = 0;
        while j < nodes.len()
            invariant
                capabilities.wf(),
                j <= nodes@.len(),
                nodes@ == kind_blocked_by_nodes(*k),
                capabilities.view() == base.remove_keys(Set::new(|q: Place|
                    nodes@.subrange(0, j as int).contains(LocalNode::Place(MaybeLabelledPlace::Current(q)))
                    && !in_graph(self.graph.edges@, PcgNode::Place(MaybeLabelledPlace::Current(q))))),
            decreases nodes.len() - j,
        {
            let ghost pre = nodes@.subrange(0, j as int);
            let ghost sub = nodes@.subrange(0, j + 1);
            let mut released: Option<Place> = None;
            if let LocalNode::Place(MaybeLabelledPlace::Current(q)) = &nodes[j] {
                let node = PcgNode::Place(MaybeLabelledPlace::Current(q.clone()));
                if !self.graph.contains(&node) {
                    capabilities.remove(q);
                    released = Some(q.clone());
                }
            }
            proof {
                let s_pre = Set::new(|q: Place| pre.contains(LocalNode::Place(MaybeLabelledPlace::Current(q)))
                    && !in_graph(self.graph.edges@, PcgNode::Place(MaybeLabelledPlace::Current(q))));
                let s_sub = Set::new(|q: Place| sub.contains(LocalNode::Place(MaybeLabelledPlace::Current(q)))
                    && !in_graph(self.graph.edges@, PcgNode::Place(MaybeLabelledPlace::Current(q))));
                assert forall|q: Place| s_sub.contains(q) <==> (s_pre.contains(q) || released == Some(q)) by {
                    let nq = LocalNode::Place(MaybeLabelledPlace::Current(q));
                    if pre.contains(nq) {
                        let i = choose|i: int| 0 <= i < pre.len() && pre[i] == nq;
                        assert(sub[i] == nq);
                    }
                    if sub.contains(nq) {
                        let i = choose|i: int| 0 <= i < sub.len() && sub[i] == nq;
                        if i < j {
                            assert(pre[i] == nq);
                        } else {
                            assert(nodes@[j as int] == nq);
                        }
                    }
                    if released == Some(q) {
                        assert(sub[j as int] == nq);
                    }
                }
                assert(capabilities.view() =~= base.remove_keys(s_sub));
            }
            j = j + 1;
        }
        proof {
            assert(nodes@.subrange(0, nodes@.len() as int) =~= nodes@);
            let s_all = Set::new(|q: Place| nodes@.subrange(0, nodes@.len() as int).contains(LocalNode::Place(MaybeLabelledPlace::Current(q)))
                && !in_graph(self.graph.edges@, PcgNode::Place(MaybeLabelledPlace::Current(q))));
            assert(s_all =~= released_by_removal(*k, self.graph.edges@));
        }
    }
}

} // verus!
