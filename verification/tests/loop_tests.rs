use pcg::loops::{LoopAnalysis, LoopId};
use pcg::mir::{BasicBlock, Local, PlaceElem};
use pcg::place::Place;
use pcg::place_usage::{PlaceUsage, PlaceUsageType, PlaceUsages};

fn block(index: usize) -> BasicBlock {
    BasicBlock::new(index)
}

fn make_cfg(successor_indices: &[Vec<usize>]) -> (Vec<Vec<BasicBlock>>, Vec<Vec<BasicBlock>>) {
    let successors: Vec<Vec<BasicBlock>> = successor_indices
        .iter()
        .map(|succs| succs.iter().copied().map(block).collect())
        .collect();
    let mut predecessors: Vec<Vec<BasicBlock>> = vec![Vec::new(); successor_indices.len()];
    for (bb, succs) in successors.iter().enumerate() {
        for &successor in succs {
            predecessors[successor.index()].push(block(bb));
        }
    }
    (successors, predecessors)
}

fn analyse(successor_indices: &[Vec<usize>], backedges: &[(usize, usize)]) -> LoopAnalysis {
    let (successors, predecessors) = make_cfg(successor_indices);
    let order: Vec<BasicBlock> = (0..successors.len()).rev().map(block).collect();
    let backedges = backedges.to_vec();
    LoopAnalysis::find_loops_in_cfg(successors.len(), &order, &successors, &predecessors, move |from: BasicBlock, to: BasicBlock| {
        backedges.contains(&(from.index(), to.index()))
    })
}

#[test]
fn nested_loop_membership_includes_inner_body_in_outer_loop() {
    let (successors, predecessors) = make_cfg(&[
        vec![1],
        vec![2],
        vec![3],
        vec![4, 5],
        vec![],
        vec![6],
        vec![7],
        vec![8],
        vec![9],
        vec![10],
        vec![11],
        vec![12],
        vec![13, 14],
        vec![1],
        vec![15],
        vec![16],
        vec![17],
        vec![18],
        vec![10],
    ]);

    let order: Vec<BasicBlock> = (0..successors.len()).rev().map(block).collect();
    let analysis = LoopAnalysis::find_loops_in_cfg(
        successors.len(),
        &order,
        &successors,
        &predecessors,
        |from: BasicBlock, to: BasicBlock| matches!((from.index(), to.index()), (13, 1) | (18, 10)),
    );
    let outer = analysis.loop_head_of(block(1)).unwrap();
    let inner = analysis.loop_head_of(block(10)).unwrap();

    for index in 14..=18 {
        assert!(analysis.in_loop(block(index), outer));
        assert!(analysis.in_loop(block(index), inner));
    }
}

#[test]
fn single_loop_blocks_and_depths() {
    // 0 -> 1 -> 2 -> 1, 2 -> 3
    let analysis = analyse(&[vec![1], vec![2], vec![1, 3], vec![]], &[(2, 1)]);
    assert_eq!(analysis.all_loops(), vec![LoopId(0)]);
    let l = analysis.loop_head_of(block(1)).unwrap();
    assert_eq!(analysis.loop_head_block(l), block(1));
    assert!(!analysis.in_loop(block(0), l));
    assert!(analysis.in_loop(block(1), l));
    assert!(analysis.in_loop(block(2), l));
    assert!(!analysis.in_loop(block(3), l));
    assert_eq!(analysis.loop_depth(block(0)), 0);
    assert_eq!(analysis.loop_depth(block(2)), 1);
    assert_eq!(analysis.loop_nest_depth(l), 0);
    assert_eq!(analysis.loops(block(2)), vec![l]);
    assert_eq!(analysis.loop_head_of(block(2)), None);
    assert_eq!(analysis.outermost_loop(block(3)), None);
    assert_eq!(analysis.innermost_loop(block(3)), None);
    assert!(analysis.consistency_check());
}

#[test]
fn nested_loops_outermost_and_innermost() {
    // 0 -> 1 -> 2 -> 3 -> 2 (inner), 3 -> 4 -> 1 (outer), 4 -> 5
    let analysis = analyse(
        &[vec![1], vec![2], vec![3], vec![2, 4], vec![1, 5], vec![]],
        &[(3, 2), (4, 1)],
    );
    let outer = analysis.loop_head_of(block(1)).unwrap();
    let inner = analysis.loop_head_of(block(2)).unwrap();
    assert_ne!(outer, inner);
    assert_eq!(analysis.loop_depth(block(3)), 2);
    assert_eq!(analysis.loop_nest_depth(inner), 1);
    assert_eq!(analysis.loop_nest_depth(outer), 0);
    assert_eq!(analysis.outermost_loop(block(3)), Some(outer));
    assert_eq!(analysis.innermost_loop(block(3)), Some(inner));
    assert_eq!(analysis.outermost_loop(block(4)), Some(outer));
    assert_eq!(analysis.innermost_loop(block(4)), Some(outer));
    // the search order visits block 4 before block 3, so the outer loop is
    // found first
    assert_eq!(outer, LoopId(0));
    assert_eq!(inner, LoopId(1));
}

#[test]
fn no_backedge_no_loops() {
    let analysis = analyse(&[vec![1], vec![2], vec![]], &[]);
    assert_eq!(analysis.all_loops(), Vec::<LoopId>::new());
    assert_eq!(analysis.loop_depth(block(1)), 0);
    assert_eq!(analysis.loop_head_of(block(1)), None);
    assert!(analysis.consistency_check());
}

#[test]
fn two_backedges_to_one_head_make_one_loop() {
    // 0 -> 1 -> 2 -> 1, 1 -> 3 -> 1
    let analysis = analyse(&[vec![1], vec![2, 3], vec![1], vec![1]], &[(2, 1), (3, 1)]);
    assert_eq!(analysis.all_loops().len(), 1);
    let l = analysis.loop_head_of(block(1)).unwrap();
    assert!(analysis.in_loop(block(2), l));
    assert!(analysis.in_loop(block(3), l));
    assert!(!analysis.in_loop(block(0), l));
}

#[test]
fn start_block_in_loop_it_does_not_head_is_inconsistent() {
    // 0 -> 1 -> 0 with the back edge 0 -> 1: block 0 is in the loop of 1
    let analysis = analyse(&[vec![1], vec![0]], &[(0, 1)]);
    assert!(!analysis.consistency_check());
}

const fn index(offset: u64) -> PlaceElem {
    PlaceElem::ConstantIndex { offset, min_length: 2, from_end: false }
}

const FIRST: &[PlaceElem] = &[index(0)];
const SECOND: &[PlaceElem] = &[index(1)];
const FIRST_FIRST: &[PlaceElem] = &[index(0), index(0)];

fn place(projection: &[PlaceElem]) -> Place {
    Place::new(Local(1), projection)
}

fn usages(usages: &[(&[PlaceElem], PlaceUsageType)]) -> PlaceUsages {
    PlaceUsages::from_usages(
        usages
            .iter()
            .map(|(proj, usage)| PlaceUsage { place: place(proj), usage: *usage })
            .collect(),
    )
}

#[test]
fn read_and_write_join_to_exclusive() {
    assert_eq!(PlaceUsageType::Read.joined(PlaceUsageType::Write), PlaceUsageType::Exclusive);
    assert_eq!(PlaceUsageType::Read.joined(PlaceUsageType::Read), PlaceUsageType::Read);
    assert_eq!(PlaceUsageType::Write.joined(PlaceUsageType::Write), PlaceUsageType::Write);
    assert_eq!(PlaceUsageType::Exclusive.joined(PlaceUsageType::Read), PlaceUsageType::Exclusive);
}

#[test]
fn consolidate_merges_overlapping_places() {
    let consolidated = usages(&[(FIRST, PlaceUsageType::Read), (FIRST_FIRST, PlaceUsageType::Write)]).consolidate();
    assert_eq!(consolidated, usages(&[(FIRST, PlaceUsageType::Exclusive)]));
}

#[test]
fn consolidate_keeps_disjoint_places_apart() {
    let already_disjoint = usages(&[(FIRST, PlaceUsageType::Write), (SECOND, PlaceUsageType::Read)]);
    assert_eq!(already_disjoint.consolidate(), already_disjoint);
}

#[test]
fn consolidated_places_are_pairwise_disjoint() {
    let consolidated = usages(&[
        (FIRST_FIRST, PlaceUsageType::Read),
        (SECOND, PlaceUsageType::Read),
        (FIRST, PlaceUsageType::Write),
    ])
    .consolidate();
    let places = consolidated.iter_places();
    for (idx, p) in places.iter().enumerate() {
        for other in &places[idx + 1..] {
            assert!(!p.is_prefix_of(other) && !other.is_prefix_of(p));
        }
    }
    assert_eq!(places.len(), 2);
}

#[test]
fn unpack_order_puts_read_only_places_last() {
    let order = usages(&[(FIRST, PlaceUsageType::Read), (SECOND, PlaceUsageType::Write)]).loop_head_unpack_order();
    assert_eq!(
        order.iter().map(|usage| usage.usage).collect::<Vec<_>>(),
        vec![PlaceUsageType::Write, PlaceUsageType::Read]
    );
}

#[test]
fn consolidate_joins_usage_of_nested_place_into_ancestor() {
    // FIRST_FIRST read, FIRST read: the ancestor absorbs its descendant
    let consolidated = usages(&[(FIRST_FIRST, PlaceUsageType::Read), (FIRST, PlaceUsageType::Read)]).consolidate();
    assert_eq!(consolidated, usages(&[(FIRST, PlaceUsageType::Read)]));
}

#[test]
fn usages_from_list_keep_last_usage_of_a_place() {
    let u = usages(&[(FIRST, PlaceUsageType::Read), (FIRST, PlaceUsageType::Write)]);
    assert_eq!(u.len(), 1);
    assert_eq!(u.get(&place(FIRST)), Some(PlaceUsageType::Write));
}

#[test]
fn join_of_usage_types_is_commutative_and_idempotent() {
    let all = [PlaceUsageType::Read, PlaceUsageType::Write, PlaceUsageType::Exclusive];
    for a in all {
        assert_eq!(a.joined(a), a);
        for b in all {
            assert_eq!(a.joined(b), b.joined(a));
        }
    }
}

#[test]
fn predecessors_follow_the_successor_lists() {
    let successors: Vec<Vec<BasicBlock>> = vec![
        vec![block(1)],
        vec![block(2)],
        vec![block(1), block(3)],
        vec![],
    ];
    assert_eq!(
        LoopAnalysis::predecessors(&successors),
        vec![vec![], vec![block(0), block(2)], vec![block(1)], vec![block(2)]]
    );
}

#[test]
fn find_loops_searches_back_edges_in_postorder() {
    // 0 -> 1 -> 2 -> 1, 2 -> 3; block 1 dominates block 2
    let successors: Vec<Vec<BasicBlock>> = vec![
        vec![block(1)],
        vec![block(2)],
        vec![block(1), block(3)],
        vec![],
    ];
    let rpo = vec![block(0), block(1), block(2), block(3)];
    let analysis = LoopAnalysis::find_loops(&successors, &rpo, |from: BasicBlock, to: BasicBlock| {
        from.index() == 2 && to.index() == 1
    });
    let l = analysis.loop_head_of(block(1)).unwrap();
    assert!(analysis.in_loop(block(1), l));
    assert!(analysis.in_loop(block(2), l));
    assert!(!analysis.in_loop(block(0), l));
    assert!(!analysis.in_loop(block(3), l));
    assert_eq!(analysis.all_loops(), vec![LoopId(0)]);
}

#[test]
fn outermost_loop_contains_the_innermost() {
    // 0 -> 1 -> 2 -> 3 -> 2, 3 -> 4 -> 1, 4 -> 5
    let analysis = analyse(
        &[vec![1], vec![2], vec![3], vec![2, 4], vec![1, 5], vec![]],
        &[(3, 2), (4, 1)],
    );
    let outer = analysis.outermost_loop(block(3)).unwrap();
    let inner = analysis.innermost_loop(block(3)).unwrap();
    assert_ne!(outer, inner);
    assert_eq!(analysis.loop_head_block(outer), block(1));
    assert_eq!(analysis.loop_head_block(inner), block(2));
    for b in 0..6 {
        if analysis.in_loop(block(b), inner) {
            assert!(analysis.in_loop(block(b), outer));
        }
    }
    assert!(analysis.in_loop(block(4), outer));
    assert!(!analysis.in_loop(block(4), inner));
}
