use pcg::abstraction::{FunctionCallOrLoop, LoopAbstractionEdgeMetadata};
use pcg::edge_kind::BorrowPcgEdgeKind;
use pcg::edges::{BorrowFlowEdge, BorrowFlowEdgeKind, DerefEdge};
use pcg::error::{
    CouplingError, CouplingErrorType, PcgError, PcgErrorKind, PcgInternalError, PcgUnsupportedError,
};
use pcg::graph::{BorrowPcgEdge, BorrowsGraph, Conditioned};
use pcg::validity::{PathCondition, ValidityConditions};
use pcg::lifetime::{LifetimeProjection, LocalLifetimeProjection, PlaceOrConst};
use pcg::mir::Local;
use pcg::node::{LocalNode, PcgNode};
use pcg::place::{MaybeLabelledPlace, MaybeRemotePlace, Place};
use pcg::region::RegionIdx;
use pcg::unblock::{BorrowPcgUnblockAction, UnblockGraph};

fn edge(k: BorrowPcgEdgeKind) -> BorrowPcgEdge {
    Conditioned::new(k, ValidityConditions::new())
}

fn local(i: usize) -> Place {
    Place::from_local(Local(i))
}

fn current(p: &Place) -> MaybeLabelledPlace {
    MaybeLabelledPlace::Current(p.clone())
}

fn deref_edge(p: &Place) -> BorrowPcgEdgeKind {
    BorrowPcgEdgeKind::Deref(DerefEdge::new(p.clone(), RegionIdx(0), None))
}

fn projection(p: &Place) -> LifetimeProjection {
    LifetimeProjection {
        base: PlaceOrConst::Place(MaybeRemotePlace::Local(current(p))),
        region_idx: RegionIdx(0),
        label: None,
    }
}

fn local_projection(p: &Place) -> LocalLifetimeProjection {
    LocalLifetimeProjection { base: current(p), region_idx: RegionIdx(0), label: None }
}

fn flow_edge(from: &Place, to: &Place) -> BorrowPcgEdgeKind {
    BorrowPcgEdgeKind::BorrowFlow(BorrowFlowEdge::new(
        projection(from),
        local_projection(to),
        BorrowFlowEdgeKind::InitialBorrows,
    ))
}

/// `x`, with a dereference edge on `x` and one on `*x`.
fn deref_chain() -> (BorrowsGraph, Place, Place, Place) {
    let x = local(1);
    let dx = x.project_deref();
    let ddx = dx.project_deref();
    let mut g = BorrowsGraph::new();
    assert!(g.insert(edge(deref_edge(&x))));
    assert!(g.insert(edge(deref_edge(&dx))));
    (g, x, dx, ddx)
}

#[test]
fn insert_twice_adds_once() {
    let (mut g, x, _, _) = deref_chain();
    assert_eq!(g.len(), 2);
    assert!(!g.insert(edge(deref_edge(&x))));
    assert_eq!(g.len(), 2);
    assert!(g.remove(&deref_edge(&x)));
    assert_eq!(g.len(), 1);
    assert!(!g.contains_edge(&deref_edge(&x)));
}

#[test]
fn unblocking_a_place_removes_the_edges_above_it_innermost_first() {
    let (g, x, dx, _) = deref_chain();
    let ug = UnblockGraph::for_node(PcgNode::Place(current(&x)), &g);
    assert_eq!(ug.edges.len(), 2);
    let actions: Vec<BorrowPcgUnblockAction> = ug.actions().unwrap();
    assert_eq!(actions.len(), 2);
    // the edge on `*x` blocks through `**x`, which nothing blocks; the edge on
    // `x` blocks through `*x`, which the first edge blocks
    assert!(actions[0].edge().same(&deref_edge(&dx)));
    assert!(actions[1].edge().same(&deref_edge(&x)));
}

#[test]
fn unblocking_an_inner_place_leaves_outer_edges() {
    let (g, _, dx, ddx) = deref_chain();
    let ug = UnblockGraph::for_node(PcgNode::Place(current(&dx)), &g);
    assert_eq!(ug.edges.len(), 1);
    assert!(ug.edges[0].same(&deref_edge(&dx)));
    let ug = UnblockGraph::for_node(PcgNode::Place(current(&ddx)), &g);
    assert!(ug.is_empty());
    assert_eq!(ug.actions().unwrap().len(), 0);
}

#[test]
fn unblocking_several_nodes_takes_the_union() {
    let (g, x, dx, _) = deref_chain();
    let ug = UnblockGraph::for_nodes(&vec![PcgNode::Place(current(&dx)), PcgNode::Place(current(&x))], &g);
    assert_eq!(ug.edges.len(), 2);
}

#[test]
fn cycle_cannot_be_unblocked() {
    let a = local(1);
    let b = local(2);
    let mut g = BorrowsGraph::new();
    g.insert(edge(flow_edge(&a, &b)));
    g.insert(edge(flow_edge(&b, &a)));
    assert!(!g.is_acyclic());
    let ug = UnblockGraph::for_node(PcgNode::LifetimeProjection(projection(&a)), &g);
    assert_eq!(ug.edges.len(), 2);
    match ug.actions() {
        Ok(_) => panic!("a cycle has no removal order"),
        Err(e) => assert_eq!(e, PcgInternalError("Didn't remove any leaves".to_string())),
    }
}

#[test]
fn chain_is_acyclic() {
    let (g, _, _, _) = deref_chain();
    assert!(g.is_acyclic());
    assert!(g.frozen_graph().is_acyclic());
}

#[test]
fn frozen_graph_leaves() {
    let (g, x, dx, ddx) = deref_chain();
    let frozen = g.frozen_graph();
    assert_eq!(frozen.leaf_edges(), vec![1]);
    assert_eq!(frozen.leaf_nodes(), vec![LocalNode::Place(current(&ddx))]);
    assert!(frozen.is_leaf(&LocalNode::Place(current(&ddx))));
    assert!(!frozen.is_leaf(&LocalNode::Place(current(&dx))));
    assert_eq!(frozen.get_edges_blocking(&PcgNode::Place(current(&x))), vec![0]);
    assert!(frozen.has_edge_blocking(&PcgNode::Place(current(&dx))));
    assert!(!frozen.has_edge_blocking(&PcgNode::Place(current(&ddx))));
    assert_eq!(frozen.nodes().len(), 5);
}

#[test]
fn errors_carry_their_kind() {
    let e = PcgError::internal("broken".to_string());
    assert_eq!(e.kind, PcgErrorKind::Internal(PcgInternalError("broken".to_string())));
    assert!(e.context.is_empty());
    let u = PcgError::unsupported(PcgUnsupportedError::InlineAssembly);
    assert_eq!(u.kind, PcgErrorKind::Unsupported(PcgUnsupportedError::InlineAssembly));
    let i = PcgError::from_internal(PcgInternalError::new("x".to_string()));
    assert_eq!(i.kind, PcgErrorKind::Internal(PcgInternalError("x".to_string())));
    let n = PcgError::new(i.kind.clone(), vec!["ctx".to_string()]);
    assert_eq!(n.context, vec!["ctx".to_string()]);
}

#[test]
fn coupling_error_maps_its_data() {
    let e = CouplingError::new(3u32, CouplingErrorType::CannotConstructShape);
    let m = e.map_source_data(|x: u32| x + 1);
    assert_eq!(m.source_data, 4);
    assert_eq!(m.error_type, CouplingErrorType::CannotConstructShape);
}

use pcg::aliases::Alias;
use pcg::edges::{AssignmentData, BorrowEdge, OperandType};
use pcg::mir::{BasicBlock, BorrowKind, Location, RegionVid};
use pcg::region::PcgRegion;

fn borrow_edge(blocked: &Place, assigned: &Place) -> BorrowPcgEdgeKind {
    let r = PcgRegion::RegionVid(RegionVid(0));
    BorrowPcgEdgeKind::Borrow(BorrowEdge::new(
        current(blocked),
        current(assigned),
        BorrowKind::Shared,
        Location { block: BasicBlock(0), statement_index: 0 },
        r,
        None,
        r,
        &vec![r],
    ))
}

fn flow(from: &Place, to: &Place, kind: BorrowFlowEdgeKind) -> BorrowPcgEdgeKind {
    BorrowPcgEdgeKind::BorrowFlow(BorrowFlowEdge::new(projection(from), local_projection(to), kind))
}

fn alias_pairs(v: &[Alias]) -> Vec<(PcgNode, bool)> {
    v.iter().map(|a| (a.node.clone(), a.exact_alias)).collect()
}

#[test]
fn aliases_follow_borrows_and_assignments() {
    // y = &x; z = y
    let x = local(1);
    let y = local(2);
    let z = local(3);
    let mut g = BorrowsGraph::new();
    g.insert(edge(borrow_edge(&x, &y)));
    g.insert(edge(flow(&y, &z, BorrowFlowEdgeKind::Assignment(AssignmentData::new(OperandType::Copy, None)))));
    let start = LocalNode::LifetimeProjection(local_projection(&z));
    let mut seen = Vec::new();
    let aliases = g.direct_aliases(&start, &mut seen, true);
    assert_eq!(
        alias_pairs(&aliases),
        vec![
            (PcgNode::LifetimeProjection(projection(&z)), true),
            (PcgNode::LifetimeProjection(projection(&y)), true),
            (PcgNode::Place(current(&x)), true),
        ]
    );
    assert_eq!(seen.len(), 2);
}

#[test]
fn outlives_between_equal_regions_is_an_inexact_alias_only_when_not_direct() {
    let a = local(1);
    let b = local(2);
    let mut g = BorrowsGraph::new();
    g.insert(edge(flow(&a, &b, BorrowFlowEdgeKind::BorrowOutlives { regions_equal: true })));
    let start = LocalNode::LifetimeProjection(local_projection(&b));
    let direct = g.direct_aliases(&start, &mut Vec::new(), true);
    assert_eq!(direct.len(), 1);
    let indirect = g.direct_aliases(&start, &mut Vec::new(), false);
    assert_eq!(
        alias_pairs(&indirect),
        vec![
            (PcgNode::LifetimeProjection(projection(&b)), false),
            (PcgNode::LifetimeProjection(projection(&a)), false),
        ]
    );
    // an alias already seen is not searched again
    let mut seen = vec![PcgNode::LifetimeProjection(projection(&a))];
    assert_eq!(g.direct_aliases(&start, &mut seen, false).len(), 1);
}

#[test]
fn flow_kinds_are_written_as_in_the_graph() {
    assert_eq!(BorrowFlowEdgeKind::Aggregate { field_idx: 0, target_rp_index: 12 }.to_display_string(), "Aggregate(0, 12)");
    assert_eq!(BorrowFlowEdgeKind::BorrowOutlives { regions_equal: true }.to_display_string(), "equals");
    assert_eq!(BorrowFlowEdgeKind::BorrowOutlives { regions_equal: false }.to_display_string(), "outlives");
    assert_eq!(BorrowFlowEdgeKind::InitialBorrows.to_display_string(), "InitialBorrows");
    assert_eq!(
        BorrowFlowEdgeKind::Assignment(AssignmentData::new(OperandType::Move, None)).to_display_string(),
        "Move"
    );
    let cast = pcg::edges::CastData::new(pcg::edges::CastKind::PtrToPtr, 0);
    assert_eq!(
        BorrowFlowEdgeKind::Assignment(AssignmentData::new(OperandType::Const, Some(cast))).to_display_string(),
        "Const with cast PtrToPtr"
    );
}

#[test]
fn descendant_edges_are_those_to_unblock() {
    let (g, x, dx, ddx) = deref_chain();
    assert_eq!(g.descendant_edges(&PcgNode::Place(current(&x))), vec![0, 1]);
    assert_eq!(g.descendant_edges(&PcgNode::Place(current(&dx))), vec![1]);
    assert_eq!(g.descendant_edges(&PcgNode::Place(current(&ddx))), Vec::<usize>::new());
}

#[test]
fn nodes_blocked_by_a_dereferenced_place() {
    let (g, x, dx, _) = deref_chain();
    let blocked = g.nodes_blocked_by(&LocalNode::Place(current(&dx)));
    assert_eq!(blocked.len(), 2);
    assert_eq!(blocked[0], PcgNode::Place(current(&x)));
    assert!(g.nodes_blocked_by(&LocalNode::Place(current(&x))).is_empty());
}

#[test]
fn ancestor_edges_go_up_the_dereferences() {
    let (g, x, dx, ddx) = deref_chain();
    assert_eq!(g.ancestor_edges(&LocalNode::Place(current(&ddx))), vec![0, 1]);
    assert_eq!(g.ancestor_edges(&LocalNode::Place(current(&dx))), vec![0]);
    assert_eq!(g.ancestor_edges(&LocalNode::Place(current(&x))), Vec::<usize>::new());
}

use pcg::abstraction::{AbstractionEdge, LoopAbstraction, LoopAbstractionInput, LoopAbstractionOutput};
use pcg::coupling::AbstractionBlockEdge;
use pcg::edge_kind::PcgCoupledEdgeKind;
use pcg::node::LabelNodePredicate;

#[test]
fn singleton_coupled_edge_of_a_loop_abstraction() {
    let a = local(1);
    let b = local(2);
    let e = AbstractionEdge::Loop(LoopAbstraction {
        loop_head: BasicBlock(3),
        edge: AbstractionBlockEdge::new(
            LoopAbstractionInput(PcgNode::Place(current(&a))),
            LoopAbstractionOutput(LocalNode::Place(current(&b))),
        ),
    });
    match e.into_singleton_coupled_edge() {
        PcgCoupledEdgeKind::Loop(c) => {
            assert_eq!(c.metadata, BasicBlock(3));
            assert_eq!(c.edge.inputs.len(), 1);
            assert_eq!(c.edge.inputs[0].0, PcgNode::Place(current(&a)));
            assert_eq!(c.edge.outputs.len(), 1);
            assert_eq!(c.edge.outputs[0].0, LocalNode::Place(current(&b)));
        }
        _ => panic!("a loop abstraction couples to a loop edge"),
    }
}

#[test]
fn postfix_predicate_has_four_conjuncts() {
    let p = LabelNodePredicate::postfix_lifetime_projection(&local_projection(&local(1)));
    match p {
        LabelNodePredicate::And(v) => assert_eq!(v.len(), 4),
        _ => panic!("the predicate is a conjunction"),
    }
}

use pcg::graph::BorrowsState;

#[test]
fn state_reports_the_nodes_blocking_a_node() {
    let (g, x, dx, _) = deref_chain();
    let state = BorrowsState::new(g, ());
    assert_eq!(state.edges_blocking(&PcgNode::Place(current(&x))), vec![0]);
    assert_eq!(state.nodes_blocking(&PcgNode::Place(current(&x))), vec![LocalNode::Place(current(&dx))]);
    assert_eq!(state.graph().len(), 2);
}

#[test]
fn bimap_applies_the_function_of_the_variant() {
    let call: FunctionCallOrLoop<u32, BasicBlock> = FunctionCallOrLoop::FunctionCall(7);
    let lp: FunctionCallOrLoop<u32, BasicBlock> = FunctionCallOrLoop::Loop(BasicBlock(3));
    assert_eq!(call.bimap(|n| n as usize * 2, |b| b.index()), 14);
    assert_eq!(lp.bimap(|n| n as usize * 2, |b| b.index()), 3);
    assert_eq!(LoopAbstractionEdgeMetadata(BasicBlock(4)).loop_head_block(), BasicBlock(4));
}

#[test]
fn coupled_edges_are_the_graph_edges_of_coupled_kind() {
    let (mut g, _, _, _) = deref_chain();
    assert!(g.coupled_edges().is_empty());
    let a = local(1);
    let b = local(2);
    let e = AbstractionEdge::Loop(LoopAbstraction {
        loop_head: BasicBlock(3),
        edge: AbstractionBlockEdge::new(
            LoopAbstractionInput(PcgNode::Place(current(&a))),
            LoopAbstractionOutput(LocalNode::Place(current(&b))),
        ),
    });
    assert!(g.insert(edge(BorrowPcgEdgeKind::Coupled(e.into_singleton_coupled_edge()))));
    let coupled = g.coupled_edges();
    assert_eq!(coupled.len(), 1);
    assert!(matches!(coupled[0].value, PcgCoupledEdgeKind::Loop(_)));
    assert!(coupled[0].conditions().choices.is_empty());
}

#[test]
fn join_unites_graphs_and_drops_edges_inside_an_abstraction() {
    let (g, x, dx, _) = deref_chain();
    let a = local(5);
    let b = local(6);
    let mut left = BorrowsGraph::new();
    assert!(left.insert(edge(deref_edge(&x))));
    assert!(left.insert(edge(flow_edge(&a, &b))));
    let mut right = BorrowsGraph::new();
    assert!(right.insert(edge(deref_edge(&dx))));
    let abstraction = BorrowPcgEdgeKind::Abstraction(AbstractionEdge::Loop(LoopAbstraction {
        loop_head: BasicBlock(2),
        edge: AbstractionBlockEdge::new(
            LoopAbstractionInput(PcgNode::LifetimeProjection(projection(&a))),
            LoopAbstractionOutput(LocalNode::LifetimeProjection(local_projection(&b))),
        ),
    }));
    assert!(right.insert(edge(abstraction)));
    assert!(left.is_encapsulated_by_abstraction(&flow_edge(&a, &b)) == false);
    assert!(right.is_encapsulated_by_abstraction(&flow_edge(&a, &b)));
    left.join(&right);
    assert_eq!(left.len(), 3);
    assert!(left.contains_edge(&deref_edge(&x)));
    assert!(left.contains_edge(&deref_edge(&dx)));
    assert!(!left.contains_edge(&flow_edge(&a, &b)));
    // Joining a graph into a copy of itself changes nothing.
    let mut same = BorrowsGraph::new();
    same.join(&g);
    assert_eq!(same.len(), 2);
}

use pcg::loop_join::{LoopHeadFacts, LoopPlaceFacts};
use pcg::place_usage::{PlaceUsage, PlaceUsageType, PlaceUsages};

fn facts_of(place: &Place, live: bool, unsafe_deref: bool, blocked: bool, regions: bool, leaf: bool) -> LoopPlaceFacts {
    LoopPlaceFacts {
        place: place.clone(),
        live_and_initialized: live,
        contains_unsafe_deref: unsafe_deref,
        directly_blocked: blocked,
        has_regions: regions,
        is_leaf: leaf,
    }
}

fn usages(v: &[(&Place, PlaceUsageType)]) -> PlaceUsages {
    PlaceUsages(v.iter().map(|(p, u)| PlaceUsage { place: (*p).clone(), usage: *u }).collect())
}

#[test]
fn loop_join_sorts_places_and_replaces_the_cut_part() {
    let (mut g, x, dx, ddx) = deref_chain();
    let a = local(2);
    let b = local(3);
    let c = local(4);
    let used = usages(&[(&a, PlaceUsageType::Exclusive), (&b, PlaceUsageType::Read), (&c, PlaceUsageType::Write)]);
    let facts = LoopHeadFacts {
        facts: vec![
            facts_of(&a, true, false, true, false, false),
            facts_of(&b, true, false, false, true, true),
            facts_of(&c, false, true, false, false, true),
            // A second entry for `a` does not count.
            facts_of(&a, false, true, false, true, true),
        ],
        borrowed: vec![ddx.clone(), dx.clone(), x.clone()],
    };
    let mut to_cut = BorrowsGraph::new();
    assert!(to_cut.insert(edge(deref_edge(&dx))));
    let mut abstraction = BorrowsGraph::new();
    assert!(abstraction.insert(edge(flow_edge(&a, &b))));
    let mut caps: PlaceCapabilities<u8> = PlaceCapabilities::new();
    caps.insert(dx.clone(), 1);
    caps.insert(x.clone(), 2);
    caps.insert(c.clone(), 3);
    caps.insert(ddx.clone(), 6);
    let updates = vec![(a.clone(), Some(4u8)), (c.clone(), None), (a.clone(), Some(5u8))];
    let places = g.join_loop(&used, &facts, &abstraction, &to_cut, &updates, &mut caps).unwrap();
    let live: Vec<Place> = places.live.iter_places();
    assert_eq!(live, vec![a.clone(), b.clone()]);
    assert_eq!(places.blocked.iter_places(), vec![a.clone()]);
    assert_eq!(places.blocker.iter_places(), vec![b.clone()]);
    assert_eq!(places.expand.len(), 2);
    assert_eq!(places.expand.get(&a), Some(PlaceUsageType::Exclusive));
    assert_eq!(places.expand.get(&b), Some(PlaceUsageType::Read));
    // `a` is used exclusively and is no leaf; `c` is written but is a leaf.
    assert_eq!(places.to_label, vec![a.clone()]);
    assert_eq!(g.len(), 2);
    assert!(g.contains_edge(&deref_edge(&x)));
    assert!(!g.contains_edge(&deref_edge(&dx)));
    assert!(g.contains_edge(&flow_edge(&a, &b)));
    // The updates apply in order; `**x` left the graph with the cut and lies
    // behind a reference, so it loses its capability; `*x` and `x` are still
    // nodes of the graph.
    assert_eq!(caps.get(&a), Some(5));
    assert_eq!(caps.get(&c), None);
    assert_eq!(caps.get(&ddx), None);
    assert_eq!(caps.get(&dx), Some(1));
    assert_eq!(caps.get(&x), Some(2));
}

#[test]
fn loop_join_refuses_a_live_place_behind_a_raw_pointer() {
    let (mut g, x, dx, _) = deref_chain();
    let a = local(2);
    let used = usages(&[(&a, PlaceUsageType::Read)]);
    let facts = LoopHeadFacts { facts: vec![facts_of(&a, true, true, false, false, true)], borrowed: vec![] };
    let mut to_cut = BorrowsGraph::new();
    assert!(to_cut.insert(edge(deref_edge(&x))));
    let mut caps: PlaceCapabilities<u8> = PlaceCapabilities::new();
    caps.insert(a.clone(), 1);
    let updates = vec![(a.clone(), None)];
    let err = g.join_loop(&used, &facts, &BorrowsGraph::new(), &to_cut, &updates, &mut caps).unwrap_err();
    assert_eq!(caps.get(&a), Some(1));
    assert_eq!(err.kind, PcgErrorKind::Unsupported(PcgUnsupportedError::DerefUnsafePtr));
    assert_eq!(g.len(), 2);
    assert!(g.contains_edge(&deref_edge(&x)));
    assert!(g.contains_edge(&deref_edge(&dx)));
    // A place behind a raw pointer that is not live is no reason to refuse.
    let dead = LoopHeadFacts { facts: vec![facts_of(&a, false, true, false, false, true)], borrowed: vec![] };
    assert!(g.join_loop(&used, &dead, &BorrowsGraph::new(), &BorrowsGraph::new(), &updates, &mut caps).is_ok());
    assert_eq!(caps.get(&a), None);
}

#[test]
fn an_edge_gives_back_its_kind_and_conditions() {
    let x = local(1);
    let e = Conditioned::new(deref_edge(&x), 7u32);
    let mut g = BorrowsGraph::new();
    assert!(g.insert(edge(deref_edge(&x))));
    assert!(g.contains_edge(e.kind()));
    assert!(!g.contains_edge(&deref_edge(&x.project_deref())));
    assert_eq!(e.conditions(), &7u32);
}

use pcg::edge_kind::{BorrowPcgExpansion, PlaceExpansion};
use pcg::mir::{PlaceElem, SnapshotLocation};
use pcg::region::LifetimeProjectionLabel;

#[test]
fn a_field_expansion_packs_when_its_parts_keep_the_base_labels() {
    let x = local(1);
    let f0 = x.project_deeper(PlaceElem::Field(0));
    let e = BorrowPcgExpansion::new_place_expansion(x.clone(), &PlaceExpansion::Fields(vec![0, 1]));
    assert!(e.is_packable());
    // A part two projections below the base does not pack.
    let deep = BorrowPcgExpansion::Place(pcg::edge_kind::BorrowPcgExpansionData {
        base: current(&x),
        expansion: vec![current(&f0.project_deref())],
        guide: None,
    });
    assert!(!deep.is_packable());
    // A part with another label than the base does not pack.
    let relabelled = BorrowPcgExpansion::Place(pcg::edge_kind::BorrowPcgExpansionData {
        base: current(&x),
        expansion: vec![MaybeLabelledPlace::Labelled(f0.clone(), SnapshotLocation::Loop(BasicBlock(0)))],
        guide: None,
    });
    assert!(!relabelled.is_packable());
    // A lifetime projection expansion packs when the parts keep the labels.
    let lp = |p: &Place, label| LocalLifetimeProjection { base: current(p), region_idx: RegionIdx(0), label };
    let projections = BorrowPcgExpansion::LifetimeProjection(pcg::edge_kind::BorrowPcgExpansionData {
        base: lp(&x, None),
        expansion: vec![lp(&f0, None)],
        guide: None,
    });
    assert!(projections.is_packable());
    let empty = BorrowPcgExpansion::LifetimeProjection(pcg::edge_kind::BorrowPcgExpansionData {
        base: lp(&x, None),
        expansion: vec![],
        guide: None,
    });
    assert!(empty.is_packable());
    let future = BorrowPcgExpansion::LifetimeProjection(pcg::edge_kind::BorrowPcgExpansionData {
        base: lp(&x, None),
        expansion: vec![lp(&f0, Some(LifetimeProjectionLabel::Future))],
        guide: None,
    });
    assert!(!future.is_packable());
}

use pcg::capability_actions::{PlaceCapabilities, RestoreCapability, Weaken};

#[test]
fn capability_instructions_give_back_their_parts() {
    let w: Weaken<u32, u8, Option<u8>> = Weaken::new(4, 3, Some(1));
    assert_eq!(w.place(), 4);
    assert_eq!(w.from_cap(), 3);
    assert_eq!(w.to_cap(), Some(1));
    let removed: Weaken<u32, u8, Option<u8>> = Weaken::new(4, 3, None);
    assert_eq!(removed.to_cap(), None);
    let x = local(2);
    let r = RestoreCapability::new(x.clone(), 5u8);
    assert!(r.place() == x);
    assert_eq!(r.capability(), 5);
}

fn conditions(v: &[(usize, usize)]) -> ValidityConditions {
    let mut c = ValidityConditions::new();
    for (f, t) in v {
        c.insert(PathCondition { from: BasicBlock(*f), to: BasicBlock(*t) });
    }
    c
}

fn has_choices(g: &BorrowsGraph, k: &BorrowPcgEdgeKind, v: &[(usize, usize)]) -> bool {
    let c = g.edge_conditions(k).unwrap();
    c.choices.len() == v.len()
        && v.iter().all(|(f, t)| c.contains(&PathCondition { from: BasicBlock(*f), to: BasicBlock(*t) }))
}

#[test]
fn inserting_an_edge_again_joins_its_conditions() {
    let x = local(1);
    let mut g = BorrowsGraph::new();
    assert!(g.insert(Conditioned::new(deref_edge(&x), conditions(&[(0, 1)]))));
    assert!(has_choices(&g, &deref_edge(&x), &[(0, 1)]));
    // Conditions already there change nothing.
    assert!(!g.insert(Conditioned::new(deref_edge(&x), conditions(&[(0, 1)]))));
    assert!(g.insert(Conditioned::new(deref_edge(&x), conditions(&[(2, 3)]))));
    assert_eq!(g.len(), 1);
    assert!(has_choices(&g, &deref_edge(&x), &[(0, 1), (2, 3)]));
    assert!(g.edge_conditions(&deref_edge(&x.project_deref())).is_none());
}

#[test]
fn join_joins_the_conditions_of_shared_edges() {
    let x = local(1);
    let y = local(2);
    let mut left = BorrowsGraph::new();
    left.insert(Conditioned::new(deref_edge(&x), conditions(&[(0, 1)])));
    left.insert(Conditioned::new(deref_edge(&y), conditions(&[(4, 5)])));
    let mut right = BorrowsGraph::new();
    right.insert(Conditioned::new(deref_edge(&x), conditions(&[(0, 2)])));
    left.join(&right);
    assert!(has_choices(&left, &deref_edge(&x), &[(0, 1), (0, 2)]));
    assert!(has_choices(&left, &deref_edge(&y), &[(4, 5)]));
}

use pcg::actions::BorrowPcgAction;

#[test]
fn actions_change_capabilities_and_edges() {
    let (g, x, dx, ddx) = deref_chain();
    let mut state = BorrowsState { graph: g, validity_conditions: () };
    let mut caps: PlaceCapabilities<u8> = PlaceCapabilities::new();
    caps.insert(x.clone(), 3);
    caps.insert(ddx.clone(), 2);
    // Weakening to a lower capability, then away.
    assert_eq!(state.apply_action(BorrowPcgAction::weaken(x.clone(), 3, Some(1)), &mut caps), Ok(true));
    assert_eq!(caps.get(&x), Some(1));
    assert_eq!(state.apply_action(BorrowPcgAction::weaken(x.clone(), 1, None), &mut caps), Ok(true));
    assert_eq!(caps.get(&x), None);
    assert_eq!(state.apply_action(BorrowPcgAction::restore_capability(x.clone(), 3, "expiry".to_string()), &mut caps), Ok(true));
    assert_eq!(caps.get(&x), Some(3));
    // Removing the edge on `*x` leaves `**x` out of the graph: it loses its capability.
    let removed = BorrowPcgAction::remove_edge(edge(deref_edge(&dx)), "done".to_string());
    assert_eq!(state.apply_action(removed, &mut caps), Ok(true));
    assert_eq!(state.graph.len(), 1);
    assert_eq!(caps.get(&ddx), None);
    assert_eq!(caps.get(&x), Some(3));
    let again = BorrowPcgAction::remove_edge(edge(deref_edge(&dx)), "done".to_string());
    assert_eq!(state.apply_action(again, &mut caps), Ok(false));
    let add = BorrowPcgAction::add_edge(edge(deref_edge(&dx)), "borrow".to_string());
    assert_eq!(state.apply_action(add, &mut caps), Ok(true));
    assert_eq!(state.graph.len(), 2);
    let add_again = BorrowPcgAction::add_edge(edge(deref_edge(&dx)), "borrow".to_string());
    assert_eq!(state.apply_action(add_again, &mut caps), Ok(false));
}

use pcg::coupling_groups::couple_abstraction_edges;

fn loop_edge(head: usize, from: &Place, to: &Place, cond: &[(usize, usize)]) -> Conditioned<AbstractionEdge, ValidityConditions> {
    Conditioned::new(
        AbstractionEdge::Loop(LoopAbstraction {
            loop_head: BasicBlock(head),
            edge: AbstractionBlockEdge::new(
                LoopAbstractionInput(PcgNode::Place(current(from))),
                LoopAbstractionOutput(LocalNode::Place(current(to))),
            ),
        }),
        conditions(cond),
    )
}

#[test]
fn abstraction_edges_are_grouped_by_loop_and_conditions_then_coupled() {
    let a = local(1);
    let b = local(2);
    let c = local(3);
    let d = local(4);
    let edges = vec![
        loop_edge(7, &a, &b, &[(0, 1)]),
        loop_edge(7, &c, &b, &[(0, 1)]),
        loop_edge(7, &d, &d, &[(0, 2)]),
        loop_edge(8, &a, &c, &[(0, 1)]),
        // The same edge again adds nothing.
        loop_edge(7, &a, &b, &[(0, 1)]),
    ];
    let r = couple_abstraction_edges(&edges);
    assert!(r.function_calls.is_empty());
    assert_eq!(r.loops.len(), 3);
    let sizes: Vec<(usize, usize, usize)> = r
        .loops
        .iter()
        .map(|g| (g.metadata.0, g.edges.len(), g.coupled.0.len()))
        .collect();
    assert!(sizes.contains(&(7, 2, 1)));
    assert!(sizes.contains(&(7, 1, 1)));
    assert!(sizes.contains(&(8, 1, 1)));
    let joined = r.loops.iter().find(|g| g.edges.len() == 2).unwrap();
    assert_eq!(joined.coupled.0[0].inputs.len(), 2);
    assert_eq!(joined.coupled.0[0].outputs.len(), 1);
}
