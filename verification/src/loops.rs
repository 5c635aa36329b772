//! Loop analysis: the natural loops of a control-flow graph, found from its
//! back edges, and the queries made of them (which loops a block is in,
//! how deeply, which loop a block heads).
use vstd::prelude::*;
use crate::mir::BasicBlock;
use crate::search::{adj_wf, is_path, avoids, reaches_avoiding, mark_reachable};

verus! {

/// A loop of a body, by index.
#[derive(Clone, Copy, Debug, PartialEq, Eq, Structural, Hash, PartialOrd, Ord)]
pub struct LoopId(pub usize);

impl LoopId {
    /// The loop with the given index.
    pub fn new(idx: usize) -> (l: LoopId)
        ensures
            l.0 == idx,
    {
        LoopId(idx)
    }

    /// The index of the loop.
    pub fn index(self) -> (i: usize)
        ensures
            i == self.0,
    {
        self.0
    }
}

/// The predecessor lists of a graph, by block index.
pub open spec fn pred_graph(preds: Seq<Vec<BasicBlock>>) -> Seq<Seq<usize>> {
    preds.map_values(|v: Vec<BasicBlock>| v@.map_values(|b: BasicBlock| b.0))
}

/// The marking in which only `h` is marked.
pub open spec fn only(n: nat, h: int) -> Seq<bool> {
    Seq::new(n, |b: int| b == h)
}

/// Whether the search has met the back edge `t -> h`: at a position before
/// `i` of the search order, or at `i` among the first `k` successors.
pub open spec fn seen_backedge<F: Fn(BasicBlock, BasicBlock) -> bool>(order: Seq<BasicBlock>,
    succs: Seq<Vec<BasicBlock>>, f: F, i: int, k: int, t: int, h: int) -> bool {
    exists|p: int, q: int| 0 <= p < order.len() && (p < i || (p == i && q < k))
        && 0 <= q < succs[order[p].0 as int]@.len()
        && #[trigger] order[p].0 == t && #[trigger] succs[t]@[q].0 == h
        && f.ensures((order[p], succs[t]@[q]), true)
}

/// Whether some loop has head `h`.
pub open spec fn has_head(heads: Seq<BasicBlock>, h: int) -> bool {
    exists|l: int| 0 <= l < heads.len() && (#[trigger] heads[l]).0 == h
}

/// Whether the search has met a back edge into `h`.
pub open spec fn backedge_target<F: Fn(BasicBlock, BasicBlock) -> bool>(order: Seq<BasicBlock>,
    succs: Seq<Vec<BasicBlock>>, f: F, i: int, k: int, h: int) -> bool {
    exists|t: int| seen_backedge(order, succs, f, i, k, t, h)
}

/// The natural loop of head `h` with the tails met so far: `h` and the
/// blocks that reach a tail backwards without passing through `h`.
pub open spec fn in_natural_loop<F: Fn(BasicBlock, BasicBlock) -> bool>(order: Seq<BasicBlock>,
    succs: Seq<Vec<BasicBlock>>, preds: Seq<Vec<BasicBlock>>, f: F, i: int, k: int, h: int, b: int) -> bool {
    in_natural_loop_of(order, succs, pred_graph(preds), f, i, k, h, b)
}

/// The natural loop of head `h` as above, over the predecessor graph `g`.
pub open spec fn in_natural_loop_of<F: Fn(BasicBlock, BasicBlock) -> bool>(order: Seq<BasicBlock>,
    succs: Seq<Vec<BasicBlock>>, g: Seq<Seq<usize>>, f: F, i: int, k: int, h: int, b: int) -> bool {
    b == h || exists|t: int| seen_backedge(order, succs, f, i, k, t, h)
        && #[trigger] reaches_avoiding(g, only(g.len(), h), t, b)
}

/// The predecessor graph of a graph given by its successor lists.
pub open spec fn pred_graph_of(succs: Seq<Vec<BasicBlock>>) -> Seq<Seq<usize>> {
    Seq::new(succs.len(), |b: int| preds_before(succs, succs.len() as int, b).map_values(|x: BasicBlock| x.0))
}

/// A marking that contains `h` and the predecessors of each other marked
/// block.
pub open spec fn closed_except(g: Seq<Seq<usize>>, m: Seq<bool>, h: int) -> bool {
    &&& m[h]
    &&& forall|b: int, k: int| 0 <= b < g.len() && b != h && m[b] && 0 <= k < g[b].len() ==> m[#[trigger] g[b][k] as int]
}

/// In a marking closed except at `h`, a path from a marked block that
/// avoids `h` ends at a marked block.
proof fn lemma_stays_marked(g: Seq<Seq<usize>>, m: Seq<bool>, h: int, path: Seq<int>, j: int)
    requires
        adj_wf(g),
        m.len() == g.len(),
        g.len() <= usize::MAX,
        closed_except(g, m, h),
        is_path(g, path),
        avoids(only(g.len(), h), path),
        0 <= j < path.len(),
        m[path[j]],
    ensures
        m[path.last()],
    decreases path.len() - j,
{
    if j < path.len() - 1 {
        let a = path[j];
        assert(!only(g.len(), h)[a]);
        assert(a != h);
        assert(g[a].contains(path[j + 1] as usize));
        let k = choose|k: int| 0 <= k < g[a].len() && g[a][k] == path[j + 1] as usize;
        assert(m[g[a][k] as int]);
        assert(g[a][k] as int == path[j + 1]);
        lemma_stays_marked(g, m, h, path, j + 1);
    }
}

/// Marking what a tail reaches through unmarked blocks, from a marking
/// closed except at `h`, adds what it reaches without passing through `h`.
proof fn lemma_reach_closed(g: Seq<Seq<usize>>, m: Seq<bool>, h: int, t: int, b: int)
    requires
        adj_wf(g),
        m.len() == g.len(),
        g.len() <= usize::MAX,
        0 <= h < g.len(),
        closed_except(g, m, h),
    ensures
        (m[b] || reaches_avoiding(g, m, t, b)) <==> (m[b] || reaches_avoiding(g, only(g.len(), h), t, b)),
{
    if reaches_avoiding(g, m, t, b) {
        let path = choose|path: Seq<int>| #[trigger] is_path(g, path) && path[0] == t && path.last() == b && avoids(m, path);
        assert forall|k: int| 0 <= k < path.len() implies !only(g.len(), h)[#[trigger] path[k]] by {
            assert(!m[path[k]]);
        }
        assert(reaches_avoiding(g, only(g.len(), h), t, b));
    }
    if reaches_avoiding(g, only(g.len(), h), t, b) && !m[b] {
        let path = choose|path: Seq<int>| #[trigger] is_path(g, path) && path[0] == t && path.last() == b
            && avoids(only(g.len(), h), path);
        assert forall|k: int| 0 <= k < path.len() implies !m[#[trigger] path[k]] by {
            if m[path[k]] {
                lemma_stays_marked(g, m, h, path, k);
            }
        }
        assert(reaches_avoiding(g, m, t, b));
    }
}

/// A copy of a vector of booleans.
fn copy_bools(v: &Vec<bool>) -> (r: Vec<bool>)
    ensures
        r@ == v@,
{
    let mut r: Vec<bool> = Vec::new();
    let mut i: usize = 0;
    while i < v.len()
        invariant
            i <= v@.len(),
            r@ == v@.subrange(0, i as int),
        decreases v.len() - i,
    {
        r.push(v[i]);
        i = i + 1;
        assert(r@ =~= v@.subrange(0, i as int));
    }
    assert(v@.subrange(0, v@.len() as int) =~= v@);
    r
}

/// The predecessor lists by index.
fn pred_lists(preds: &Vec<Vec<BasicBlock>>) -> (r: Vec<Vec<usize>>)
    ensures
        r@.map_values(|v: Vec<usize>| v@) == pred_graph(preds@),
{
    let mut r: Vec<Vec<usize>> = Vec::new();
    let mut i: usize = 0;
    while i < preds.len()
        invariant
            i <= preds@.len(),
            r@.len() == i,
            forall|j: int| 0 <= j < i ==> (#[trigger] r@[j])@ == preds@[j]@.map_values(|b: BasicBlock| b.0),
        decreases preds.len() - i,
    {
        let mut v: Vec<usize> = Vec::new();
        let mut k: usize = 0;
        while k < preds[i].len()
            invariant
                i < preds@.len(),
                k <= preds@[i as int]@.len(),
                v@ == preds@[i as int]@.subrange(0, k as int).map_values(|b: BasicBlock| b.0),
            decreases preds@[i as int]@.len() - k,
        {
            v.push(preds[i][k].0);
            k = k + 1;
            assert(v@ =~= preds@[i as int]@.subrange(0, k as int).map_values(|b: BasicBlock| b.0));
        }
        assert(preds@[i as int]@.subrange(0, k as int) =~= preds@[i as int]@);
        r.push(v);
        i = i + 1;
    }
    assert(r@.map_values(|v: Vec<usize>| v@) =~= pred_graph(preds@));
    r
}

/// The sources `from` of the edges to `b` among the first `k` entries of
/// the successor list `row` of `from`, one per edge.
pub open spec fn edges_to(row: Seq<BasicBlock>, b: int, from: BasicBlock, k: int) -> Seq<BasicBlock>
    decreases k,
{
    if k <= 0 {
        Seq::empty()
    } else {
        edges_to(row, b, from, k - 1) + (if row[k - 1].0 == b { seq![from] } else { Seq::empty() })
    }
}

/// The predecessors of `b` among the blocks before `a`, in block order and
/// one per edge.
pub open spec fn preds_before(succs: Seq<Vec<BasicBlock>>, a: int, b: int) -> Seq<BasicBlock>
    decreases a,
{
    if a <= 0 {
        Seq::empty()
    } else {
        preds_before(succs, a - 1, b) + edges_to(succs[a - 1]@, b, BasicBlock((a - 1) as usize), succs[a - 1]@.len() as int)
    }
}

proof fn lemma_edges_to_bounded(row: Seq<BasicBlock>, b: int, from: BasicBlock, k: int)
    ensures
        forall|i: int| 0 <= i < edges_to(row, b, from, k).len() ==> #[trigger] edges_to(row, b, from, k)[i] == from,
    decreases k,
{
    if k > 0 {
        lemma_edges_to_bounded(row, b, from, k - 1);
        let p = edges_to(row, b, from, k - 1);
        let e: Seq<BasicBlock> = if row[k - 1].0 == b { seq![from] } else { Seq::empty() };
        assert(edges_to(row, b, from, k) == p + e);
        assert forall|i: int| 0 <= i < (p + e).len() implies #[trigger] (p + e)[i] == from by {
            if i >= p.len() {
                assert((p + e)[i] == e[i - p.len()]);
            }
        }
    }
}

proof fn lemma_preds_before_bounded(succs: Seq<Vec<BasicBlock>>, a: int, b: int)
    requires
        a <= succs.len(),
    ensures
        forall|i: int| 0 <= i < preds_before(succs, a, b).len() ==> (#[trigger] preds_before(succs, a, b)[i]).0 < a,
    decreases a,
{
    if a > 0 {
        lemma_preds_before_bounded(succs, a - 1, b);
        lemma_edges_to_bounded(succs[a - 1]@, b, BasicBlock((a - 1) as usize), succs[a - 1]@.len() as int);
        let p = preds_before(succs, a - 1, b);
        let e = edges_to(succs[a - 1]@, b, BasicBlock((a - 1) as usize), succs[a - 1]@.len() as int);
        assert forall|i: int| 0 <= i < (p + e).len() implies (#[trigger] (p + e)[i]).0 < a by {
            if i >= p.len() {
                assert((p + e)[i] == e[i - p.len()]);
            }
        }
    }
}

/// The loops of a body: the head block of each loop, and for each loop
/// which blocks are in it.
#[derive(Debug)]
pub struct LoopAnalysis {
    pub loop_heads: Vec<BasicBlock>,
    pub loop_blocks: Vec<Vec<bool>>,
    pub block_count: usize,
}

impl LoopAnalysis {
    /// Every loop has a head block and a membership for every block.
    pub open spec fn wf(&self) -> bool {
        &&& self.loop_blocks@.len() == self.loop_heads@.len()
        &&& forall|l: int| 0 <= l < self.loop_heads@.len() ==> (#[trigger] self.loop_heads@[l]).0 < self.block_count
        &&& forall|l: int| 0 <= l < self.loop_blocks@.len() ==> (#[trigger] self.loop_blocks@[l])@.len() == self.block_count
        &&& forall|l: int| 0 <= l < self.loop_heads@.len() ==> self.loop_blocks@[l]@[(#[trigger] self.loop_heads@[l]).0 as int]
    }

    /// Whether block `b` is in loop `l`.
    pub open spec fn contains_block(&self, b: int, l: int) -> bool {
        0 <= l < self.loop_blocks@.len() && 0 <= b < self.loop_blocks@[l]@.len() && self.loop_blocks@[l]@[b]
    }

    /// The predecessors of each block of a graph given by its successor
    /// lists: for each edge `a -> b`, in the order of `a` and of `a`'s
    /// successors, `a` among the predecessors of `b`.
    pub fn predecessors(successors: &Vec<Vec<BasicBlock>>) -> (preds: Vec<Vec<BasicBlock>>)
        requires
            forall|b: int, k: int| 0 <= b < successors@.len() && 0 <= k < successors@[b]@.len()
                ==> (#[trigger] successors@[b]@[k]).0 < successors@.len(),
        ensures
            preds@.len() == successors@.len(),
            forall|b: int| 0 <= b < preds@.len() ==> (#[trigger] preds@[b])@ == preds_before(successors@, successors@.len() as int, b),
    {
        let n = successors.len();
        let mut preds: Vec<Vec<BasicBlock>> = Vec::new();
        let mut z: usize = 0;
        while z < n
            invariant
                z <= n,
                n == successors@.len(),
                preds@.len() == z,
                forall|b: int| 0 <= b < z ==> (#[trigger] preds@[b])@ == Seq::<BasicBlock>::empty(),
            decreases n - z,
        {
            preds.push(Vec::new());
            z = z + 1;
        }
        let mut a: usize = 0;
        while a < n
            invariant
                a <= n,
                n == successors@.len(),
                preds@.len() == n,
                forall|b: int, k: int| 0 <= b < successors@.len() && 0 <= k < successors@[b]@.len()
                    ==> (#[trigger] successors@[b]@[k]).0 < successors@.len(),
                forall|b: int| 0 <= b < n ==> (#[trigger] preds@[b])@ == preds_before(successors@, a as int, b),
            decreases n - a,
        {
            let row = &successors[a];
            let mut k: usize = 0;
            while k < row.len()
                invariant
                    a < n,
                    k <= row@.len(),
                    n == successors@.len(),
                    *row == successors@[a as int],
                    preds@.len() == n,
                    forall|b: int, j: int| 0 <= b < successors@.len() && 0 <= j < successors@[b]@.len()
                        ==> (#[trigger] successors@[b]@[j]).0 < successors@.len(),
                    forall|b: int| 0 <= b < n ==> (#[trigger] preds@[b])@ == preds_before(successors@, a as int, b)
                        + edges_to(row@, b, BasicBlock(a), k as int),
                decreases row.len() - k,
            {
                let target = row[k].0;
                assert(successors@[a as int]@[k as int].0 < n);
                let ghost before = preds@;
                let mut list = preds[target].clone();
                assert(list@ =~= before[target as int]@);
                list.push(BasicBlock(a));
                preds.set(target, list);
                proof {
                    assert forall|b: int| 0 <= b < n implies (#[trigger] preds@[b])@ == preds_before(successors@, a as int, b)
                        + edges_to(row@, b, BasicBlock(a), k + 1) by {
                        if b == target as int {
                            assert(preds@[b]@ == before[b]@.push(BasicBlock(a)));
                        } else {
                            assert(preds@[b] == before[b]);
                        }
                    }
                }
                k = k + 1;
            }
            a = a + 1;
        }
        preds
    }

    /// Finds the natural loops of a body given by the successor lists of
    /// its blocks and its reverse postorder: back edges are searched from the
    /// blocks in postorder (the reverse postorder backwards), `is_backedge`
    /// says whether an edge `from -> to` is one (its target dominates its
    /// source), and the predecessors are those of the successor lists.
    pub fn find_loops<F: Fn(BasicBlock, BasicBlock) -> bool>(
        successors: &Vec<Vec<BasicBlock>>,
        reverse_postorder: &Vec<BasicBlock>,
        is_backedge: F,
    ) -> (r: LoopAnalysis)
        requires
            forall|i: int| 0 <= i < reverse_postorder@.len() ==> (#[trigger] reverse_postorder@[i]).0 < successors@.len(),
            forall|b: int, k: int| 0 <= b < successors@.len() && 0 <= k < successors@[b]@.len()
                ==> (#[trigger] successors@[b]@[k]).0 < successors@.len(),
            forall|a: BasicBlock, b: BasicBlock| #[trigger] is_backedge.requires((a, b)),
            forall|a: BasicBlock, b: BasicBlock, x: bool, y: bool|
                is_backedge.ensures((a, b), x) && is_backedge.ensures((a, b), y) ==> x == y,
        ensures
            r.wf(),
            r.block_count == successors@.len(),
            forall|l1: int, l2: int| 0 <= l1 < l2 < r.loop_heads@.len() ==> r.loop_heads@[l1] != r.loop_heads@[l2],
            forall|h: int| 0 <= h < successors@.len() ==> (#[trigger] has_head(r.loop_heads@, h)
                <==> backedge_target(reverse_postorder@.reverse(), successors@, is_backedge,
                    reverse_postorder@.len() as int, 0, h)),
            forall|l: int, b: int| 0 <= l < r.loop_heads@.len() && 0 <= b < successors@.len() ==>
                (#[trigger] r.loop_blocks@[l]@[b] <==> in_natural_loop_of(reverse_postorder@.reverse(), successors@,
                    pred_graph_of(successors@), is_backedge, reverse_postorder@.len() as int, 0, r.loop_heads@[l].0 as int, b)),
    {
        let preds = Self::predecessors(successors);
        let mut order: Vec<BasicBlock> = Vec::new();
        let mut i: usize = reverse_postorder.len();
        while i > 0
            invariant
                i <= reverse_postorder@.len(),
                order@ == reverse_postorder@.subrange(i as int, reverse_postorder@.len() as int).reverse(),
            decreases i,
        {
            i = i - 1;
            order.push(reverse_postorder[i]);
            assert(order@ =~= reverse_postorder@.subrange(i as int, reverse_postorder@.len() as int).reverse());
        }
        assert(reverse_postorder@.subrange(0, reverse_postorder@.len() as int) =~= reverse_postorder@);
        proof {
            assert forall|b: int, k: int| 0 <= b < preds@.len() && 0 <= k < preds@[b]@.len()
                implies (#[trigger] pred_graph(preds@)[b][k]) < pred_graph(preds@).len() by {
                lemma_preds_before_bounded(successors@, successors@.len() as int, b);
                assert(preds@[b]@[k] == preds_before(successors@, successors@.len() as int, b)[k]);
            }
            assert forall|i: int| 0 <= i < order@.len() implies (#[trigger] order@[i]).0 < successors@.len() by {
                assert(order@[i] == reverse_postorder@[reverse_postorder@.len() - 1 - i]);
            }
        }
        let r = Self::find_loops_in_cfg(successors.len(), &order, successors, &preds, is_backedge);
        proof {
            assert(pred_graph(preds@) =~= pred_graph_of(successors@));
        }
        r
    }

    /// Finds the natural loops of a graph of `block_count` blocks. The
    /// back edges are the edges `bb -> succ` from the blocks of
    /// `backedge_search_order`, in that order, for which `is_backedge`
    /// holds; each target of one heads a loop, numbered in the order found,
    /// whose blocks are its head and the blocks that reach one of its
    /// back edges' sources backwards without passing through the head.
    pub fn find_loops_in_cfg<F: Fn(BasicBlock, BasicBlock) -> bool>(
        block_count: usize,
        backedge_search_order: &Vec<BasicBlock>,
        successors: &Vec<Vec<BasicBlock>>,
        predecessors: &Vec<Vec<BasicBlock>>,
        is_backedge: F,
    ) -> (r: LoopAnalysis)
        requires
            successors@.len() == block_count,
            predecessors@.len() == block_count,
            forall|i: int| 0 <= i < backedge_search_order@.len() ==> (#[trigger] backedge_search_order@[i]).0 < block_count,
            forall|b: int, k: int| 0 <= b < block_count && 0 <= k < successors@[b]@.len()
                ==> (#[trigger] successors@[b]@[k]).0 < block_count,
            adj_wf(pred_graph(predecessors@)),
            forall|a: BasicBlock, b: BasicBlock| #[trigger] is_backedge.requires((a, b)),
            forall|a: BasicBlock, b: BasicBlock, x: bool, y: bool|
                is_backedge.ensures((a, b), x) && is_backedge.ensures((a, b), y) ==> x == y,
        ensures
            r.wf(),
            r.block_count == block_count,
            forall|l1: int, l2: int| 0 <= l1 < l2 < r.loop_heads@.len() ==> r.loop_heads@[l1] != r.loop_heads@[l2],
            forall|h: int| 0 <= h < block_count ==> (#[trigger] has_head(r.loop_heads@, h)
                <==> backedge_target(backedge_search_order@, successors@, is_backedge,
                    backedge_search_order@.len() as int, 0, h)),
            forall|l: int| 0 <= l < r.loop_heads@.len() ==>
                closed_except(pred_graph(predecessors@), #[trigger] r.loop_blocks@[l]@, r.loop_heads@[l].0 as int),
            forall|l: int, b: int| 0 <= l < r.loop_heads@.len() && 0 <= b < block_count ==>
                (#[trigger] r.loop_blocks@[l]@[b] <==> in_natural_loop(backedge_search_order@, successors@, predecessors@,
                    is_backedge, backedge_search_order@.len() as int, 0, r.loop_heads@[l].0 as int, b)),
    {
        let ghost n = block_count as nat;
        let ghost g = pred_graph(predecessors@);
        let ghost order = backedge_search_order@;
        let ghost succs = successors@;
        let padj = pred_lists(predecessors);
        let mut heads: Vec<BasicBlock> = Vec::new();
        let mut cols: Vec<Vec<bool>> = Vec::new();
        let mut head_index: Vec<usize> = Vec::new();
        let mut z: usize = 0;
        while z < block_count
            invariant
                z <= block_count,
                head_index@.len() == z,
                forall|j: int| 0 <= j < z ==> head_index@[j] == usize::MAX,
            decreases block_count - z,
        {
            head_index.push(usize::MAX);
            z = z + 1;
        }
        let mut i: usize = 0;
        while i < backedge_search_order.len()
            invariant
                n == block_count,
                g == pred_graph(predecessors@),
                g == padj@.map_values(|v: Vec<usize>| v@),
                adj_wf(g),
                g.len() == n,
                order == backedge_search_order@,
                succs == successors@,
                successors@.len() == block_count,
                forall|ii: int| 0 <= ii < order.len() ==> (#[trigger] order[ii]).0 < block_count,
                forall|b: int, k: int| 0 <= b < block_count && 0 <= k < successors@[b]@.len()
                    ==> (#[trigger] successors@[b]@[k]).0 < block_count,
                forall|a: BasicBlock, b: BasicBlock| #[trigger] is_backedge.requires((a, b)),
                forall|a: BasicBlock, b: BasicBlock, x: bool, y: bool|
                    is_backedge.ensures((a, b), x) && is_backedge.ensures((a, b), y) ==> x == y,
                i <= order.len(),
                loop_state(order, succs, predecessors@, is_backedge, i as int, 0, heads@, cols@, head_index@, n),
            decreases order.len() - i,
        {
            let bb = backedge_search_order[i];
            let mut k: usize = 0;
            while k < successors[bb.0].len()
                invariant
                    n == block_count,
                    g == pred_graph(predecessors@),
                    g == padj@.map_values(|v: Vec<usize>| v@),
                    adj_wf(g),
                    g.len() == n,
                    order == backedge_search_order@,
                    succs == successors@,
                    successors@.len() == block_count,
                    forall|ii: int| 0 <= ii < order.len() ==> (#[trigger] order[ii]).0 < block_count,
                    forall|b: int, kk: int| 0 <= b < block_count && 0 <= kk < successors@[b]@.len()
                        ==> (#[trigger] successors@[b]@[kk]).0 < block_count,
                    forall|a: BasicBlock, b: BasicBlock| #[trigger] is_backedge.requires((a, b)),
                    forall|a: BasicBlock, b: BasicBlock, x: bool, y: bool|
                        is_backedge.ensures((a, b), x) && is_backedge.ensures((a, b), y) ==> x == y,
                    i < order.len(),
                    bb == order[i as int],
                    k <= successors@[bb.0 as int]@.len(),
                    loop_state(order, succs, predecessors@, is_backedge, i as int, k as int, heads@, cols@, head_index@, n),
                decreases successors@[bb.0 as int]@.len() - k,
            {
                let succ = successors[bb.0][k];
                let back = is_backedge(bb, succ);
                let ghost h0 = heads@;
                let ghost c0 = cols@;
                let ghost x0 = head_index@;
                if back {
                    let mut l = head_index[succ.0];
                    let ghost is_new = l == usize::MAX;
                    if l == usize::MAX {
                        l = heads.len();
                        heads.push(succ);
                        let mut col: Vec<bool> = Vec::new();
                        let mut y: usize = 0;
                        while y < block_count
                            invariant
                                y <= block_count,
                                col@.len() == y,
                                forall|j: int| 0 <= j < y ==> col@[j] == (j == succ.0),
                            decreases block_count - y,
                        {
                            col.push(y == succ.0);
                            y = y + 1;
                        }
                        proof {
                            assert(col@ =~= only(n, succ.0 as int));
                        }
                        cols.push(col);
                        head_index.set(succ.0, l);
                    }
                    let ghost h1 = heads@;
                    let ghost c1 = cols@;
                    let ghost x1 = head_index@;
                    proof {
                        lemma_state_head(order, succs, predecessors@, is_backedge, i as int, k as int,
                            h0, c0, x0, h1, c1, x1, n, l as int, is_new);
                    }
                    let mut col = copy_bools(&cols[l]);
                    let ghost m = col@;
                    mark_reachable(&padj, &mut col, bb.0);
                    let ghost m2 = col@;
                    cols.set(l, col);
                    proof {
                        lemma_state_add_tail(order, succs, predecessors@, is_backedge, i as int, k as int,
                            h1, c1, x1, cols@, n, l as int, m2);
                    }
                } else {
                    proof {
                        lemma_state_no_backedge(order, succs, predecessors@, is_backedge, i as int, k as int,
                            heads@, cols@, head_index@, n);
                    }
                }
                k = k + 1;
            }
            proof {
                lemma_state_row_done(order, succs, predecessors@, is_backedge, i as int, k as int, heads@, cols@, head_index@, n);
            }
            i = i + 1;
        }
        LoopAnalysis { loop_heads: heads, loop_blocks: cols, block_count }
    }

    /// The loops, in order.
    pub open spec fn loop_ids(&self) -> Seq<LoopId> {
        Seq::new(self.loop_heads@.len(), |l: int| LoopId(l as usize))
    }

    /// Whether a loop contains block `b`.
    pub open spec fn contains_pred(&self, b: int) -> spec_fn(LoopId) -> bool {
        |id: LoopId| self.contains_block(b, id.0 as int)
    }

    /// The loops that contain block `b`, in order.
    pub open spec fn loops_of(&self, b: int) -> Seq<LoopId> {
        self.loop_ids().filter(self.contains_pred(b))
    }

    /// The number of loops that contain block `b`.
    pub open spec fn depth(&self, b: int) -> nat {
        self.loops_of(b).len()
    }

    /// How many loops the head of loop `l` is in besides `l`.
    pub open spec fn nest_depth(&self, l: int) -> int {
        self.depth(self.loop_heads@[l].0 as int) - 1
    }

    /// Every block of loop `l1` is in loop `l2`.
    pub open spec fn within(&self, l1: int, l2: int) -> bool {
        forall|b: int| 0 <= b < self.block_count && #[trigger] self.contains_block(b, l1) ==> self.contains_block(b, l2)
    }

    /// The loops nest, as the natural loops of dominator back edges do: two
    /// loops that share a block are one within the other, and a loop that
    /// holds the head of another holds all of it.
    pub open spec fn loops_nest(&self) -> bool {
        &&& forall|l1: int, l2: int, b: int| #[trigger] self.contains_block(b, l1) && #[trigger] self.contains_block(b, l2)
            ==> self.within(l1, l2) || self.within(l2, l1)
        &&& forall|l: int, big: int| 0 <= l < self.loop_heads@.len()
            && #[trigger] self.contains_block(self.loop_heads@[l].0 as int, big) ==> self.within(l, big)
    }

    /// Whether `bb` is in loop `l`.
    pub fn in_loop(&self, bb: BasicBlock, l: LoopId) -> (r: bool)
        requires
            self.wf(),
            bb.0 < self.block_count,
            l.0 < self.loop_heads@.len(),
        ensures
            r == self.contains_block(bb.0 as int, l.0 as int),
    {
        self.loop_blocks[l.0][bb.0]
    }

    /// The loops that `bb` is in, in order.
    pub fn loops(&self, bb: BasicBlock) -> (r: Vec<LoopId>)
        requires
            self.wf(),
            bb.0 < self.block_count,
        ensures
            r@ == self.loops_of(bb.0 as int),
            forall|j1: int, j2: int| 0 <= j1 < j2 < r@.len() ==> r@[j1].0 < r@[j2].0,
            forall|j: int| 0 <= j < r@.len() ==> self.contains_block(bb.0 as int, (#[trigger] r@[j]).0 as int),
            forall|l: int| #[trigger] self.contains_block(bb.0 as int, l) ==> exists|j: int| 0 <= j < r@.len() && (#[trigger] r@[j]).0 == l,
    {
        let ghost ids = self.loop_ids();
        let ghost pred = self.contains_pred(bb.0 as int);
        let mut r: Vec<LoopId> = Vec::new();
        let mut l: usize = 0;
        while l < self.loop_blocks.len()
            invariant
                self.wf(),
                bb.0 < self.block_count,
                ids == self.loop_ids(),
                pred == self.contains_pred(bb.0 as int),
                l <= ids.len(),
                r@ == ids.subrange(0, l as int).filter(pred),
                forall|j: int| 0 <= j < r@.len() ==> (#[trigger] r@[j]).0 < l,
                forall|j1: int, j2: int| 0 <= j1 < j2 < r@.len() ==> r@[j1].0 < r@[j2].0,
                forall|j: int| 0 <= j < r@.len() ==> self.contains_block(bb.0 as int, (#[trigger] r@[j]).0 as int),
                forall|ll: int| 0 <= ll < l && #[trigger] self.contains_block(bb.0 as int, ll) ==> exists|j: int| 0 <= j < r@.len() && (#[trigger] r@[j]).0 == ll,
            decreases self.loop_blocks.len() - l,
        {
            proof {
                reveal(Seq::filter);
                assert(ids.subrange(0, l + 1).drop_last() =~= ids.subrange(0, l as int));
                assert(ids.subrange(0, l + 1).last() == LoopId(l));
            }
            let ghost r0 = r@;
            if self.loop_blocks[l][bb.0] {
                r.push(LoopId(l));
                proof {
                    assert(r@[r@.len() - 1].0 == l);
                    assert forall|ll: int| 0 <= ll < l + 1 && #[trigger] self.contains_block(bb.0 as int, ll) implies exists|j: int| 0 <= j < r@.len() && (#[trigger] r@[j]).0 == ll by {
                        if ll < l {
                            let j = choose|j: int| 0 <= j < r0.len() && (#[trigger] r0[j]).0 == ll;
                            assert(r@[j] == r0[j]);
                        } else {
                            assert(r@[r@.len() - 1].0 == ll);
                        }
                    }
                }
            }
            l = l + 1;
        }
        proof {
            assert(ids.subrange(0, ids.len() as int) =~= ids);
            assert forall|ll: int| #[trigger] self.contains_block(bb.0 as int, ll) implies exists|j: int| 0 <= j < r@.len() && (#[trigger] r@[j]).0 == ll by {
                assert(0 <= ll < l);
            }
        }
        r
    }

    /// All loops of the body, in order.
    pub fn all_loops(&self) -> (r: Vec<LoopId>)
        ensures
            r@ == self.loop_ids(),
    {
        let mut r: Vec<LoopId> = Vec::new();
        let mut l: usize = 0;
        while l < self.loop_heads.len()
            invariant
                l <= self.loop_heads@.len(),
                r@ == self.loop_ids().subrange(0, l as int),
            decreases self.loop_heads.len() - l,
        {
            r.push(LoopId(l));
            l = l + 1;
            assert(r@ =~= self.loop_ids().subrange(0, l as int));
        }
        assert(self.loop_ids().subrange(0, l as int) =~= self.loop_ids());
        r
    }

    /// The number of loops that `bb` is in.
    pub fn loop_depth(&self, bb: BasicBlock) -> (r: usize)
        requires
            self.wf(),
            bb.0 < self.block_count,
        ensures
            r == self.depth(bb.0 as int),
    {
        self.loops(bb).len()
    }

    /// How deeply loop `l` is nested: the loops its head is in, besides
    /// `l` itself.
    pub fn loop_nest_depth(&self, l: LoopId) -> (r: usize)
        requires
            self.wf(),
            l.0 < self.loop_heads@.len(),
        ensures
            r == self.nest_depth(l.0 as int),
    {
        let head = self.loop_heads[l.0];
        let ls = self.loops(head);
        proof {
            assert(self.contains_block(head.0 as int, l.0 as int));
        }
        ls.len() - 1
    }

    /// The loop of `bb` that is nested least deeply, the first such if
    /// there are several. Where the loops nest (`loops_nest`), it contains
    /// the other loops of `bb` (`lemma_outermost_contains`).
    pub fn outermost_loop(&self, bb: BasicBlock) -> (r: Option<LoopId>)
        requires
            self.wf(),
            bb.0 < self.block_count,
        ensures
            r is None <==> forall|l: int| !self.contains_block(bb.0 as int, l),
            r matches Some(l) ==> self.contains_block(bb.0 as int, l.0 as int)
                && (forall|l2: int| #[trigger] self.contains_block(bb.0 as int, l2) ==> self.nest_depth(l.0 as int) <= self.nest_depth(l2))
                && (forall|l2: int| #[trigger] self.contains_block(bb.0 as int, l2) && l2 < l.0 ==> self.nest_depth(l.0 as int) < self.nest_depth(l2)),
    {
        self.extreme_loop(bb, false)
    }

    /// The loop of `bb` that is nested most deeply, the last such if there
    /// are several. Where the loops nest (`loops_nest`), every other loop of
    /// `bb` contains it (`lemma_innermost_contained`).
    pub fn innermost_loop(&self, bb: BasicBlock) -> (r: Option<LoopId>)
        requires
            self.wf(),
            bb.0 < self.block_count,
        ensures
            r is None <==> forall|l: int| !self.contains_block(bb.0 as int, l),
            r matches Some(l) ==> self.contains_block(bb.0 as int, l.0 as int)
                && (forall|l2: int| #[trigger] self.contains_block(bb.0 as int, l2) ==> self.nest_depth(l2) <= self.nest_depth(l.0 as int))
                && (forall|l2: int| #[trigger] self.contains_block(bb.0 as int, l2) && l2 > l.0 ==> self.nest_depth(l2) < self.nest_depth(l.0 as int)),
    {
        self.extreme_loop(bb, true)
    }

    /// The loop that `bb` heads, if it heads one: the first loop of `bb`
    /// whose head is `bb`.
    pub fn loop_head_of(&self, bb: BasicBlock) -> (r: Option<LoopId>)
        requires
            self.wf(),
            bb.0 < self.block_count,
        ensures
            r is None ==> forall|l: int| #[trigger] self.contains_block(bb.0 as int, l) ==> self.loop_heads@[l] != bb,
            r matches Some(l) ==> self.contains_block(bb.0 as int, l.0 as int) && self.loop_heads@[l.0 as int] == bb
                && forall|l2: int| #[trigger] self.contains_block(bb.0 as int, l2) && l2 < l.0 ==> self.loop_heads@[l2] != bb,
    {
        let ls = self.loops(bb);
        let mut j: usize = 0;
        while j < ls.len()
            invariant
                self.wf(),
                j <= ls@.len(),
                forall|j1: int| 0 <= j1 < ls@.len() ==> (#[trigger] ls@[j1]).0 < self.loop_heads@.len(),
                forall|j1: int| 0 <= j1 < j ==> self.loop_heads@[(#[trigger] ls@[j1]).0 as int] != bb,
                forall|j1: int, j2: int| 0 <= j1 < j2 < ls@.len() ==> ls@[j1].0 < ls@[j2].0,
                forall|l: int| #[trigger] self.contains_block(bb.0 as int, l) ==> exists|j1: int| 0 <= j1 < ls@.len() && (#[trigger] ls@[j1]).0 == l,
            decreases ls.len() - j,
        {
            if self.loop_heads[ls[j].0] == bb {
                let l = ls[j];
                proof {
                    assert forall|l2: int| #[trigger] self.contains_block(bb.0 as int, l2) && l2 < l.0 implies self.loop_heads@[l2] != bb by {
                        let j2 = choose|j2: int| 0 <= j2 < ls@.len() && (#[trigger] ls@[j2]).0 == l2;
                        if j2 >= j {
                            assert(ls@[j2 as int].0 >= ls@[j as int].0);
                        }
                    }
                }
                return Some(l);
            }
            j = j + 1;
        }
        proof {
            assert forall|l2: int| #[trigger] self.contains_block(bb.0 as int, l2) implies self.loop_heads@[l2] != bb by {
                let j2 = choose|j2: int| 0 <= j2 < ls@.len() && (#[trigger] ls@[j2]).0 == l2;
            }
        }
        None
    }

    /// The head block of loop `loop_id`.
    pub fn loop_head_block(&self, loop_id: LoopId) -> (b: BasicBlock)
        requires
            loop_id.0 < self.loop_heads@.len(),
        ensures
            b == self.loop_heads@[loop_id.0 as int],
    {
        self.loop_heads[loop_id.0]
    }

    /// Whether the loops are consistent: the start block is in at most one
    /// loop, which it heads, and no block heads two loops.
    pub fn consistency_check(&self) -> (ok: bool)
        requires
            self.wf(),
            self.block_count > 0,
        ensures
            ok <==> ((forall|l: int| #[trigger] self.contains_block(0, l) ==> self.loop_heads@[l].0 == 0)
                && (forall|l1: int, l2: int| #[trigger] self.contains_block(0, l1) && #[trigger] self.contains_block(0, l2) ==> l1 == l2)
                && (forall|l1: int, l2: int| 0 <= l1 < l2 < self.loop_heads@.len() ==> self.loop_heads@[l1] != self.loop_heads@[l2])),
    {
        let ls = self.loops(BasicBlock(0));
        if ls.len() > 1 {
            proof {
                assert(self.contains_block(0, ls@[0].0 as int) && self.contains_block(0, ls@[1].0 as int));
            }
            return false;
        }
        if ls.len() == 1 && self.loop_heads[ls[0].0].0 != 0 {
            proof {
                assert(self.contains_block(0, ls@[0].0 as int));
            }
            return false;
        }
        proof {
            assert forall|l1: int, l2: int| #[trigger] self.contains_block(0, l1) && #[trigger] self.contains_block(0, l2) implies l1 == l2 by {
                let j1 = choose|j: int| 0 <= j < ls@.len() && (#[trigger] ls@[j]).0 == l1;
                let j2 = choose|j: int| 0 <= j < ls@.len() && (#[trigger] ls@[j]).0 == l2;
            }
            assert forall|l: int| #[trigger] self.contains_block(0, l) implies self.loop_heads@[l].0 == 0 by {
                let j = choose|j: int| 0 <= j < ls@.len() && (#[trigger] ls@[j]).0 == l;
            }
        }
        let n = self.loop_heads.len();
        let mut a: usize = 0;
        while a < n
            invariant
                n == self.loop_heads@.len(),
                a <= n,
                forall|l1: int, l2: int| 0 <= l1 < l2 < n && l1 < a ==> self.loop_heads@[l1] != self.loop_heads@[l2],
            decreases n - a,
        {
            let mut b: usize = a + 1;
            while b < n
                invariant
                    n == self.loop_heads@.len(),
                    a < n,
                    a + 1 <= b <= n,
                    forall|l1: int, l2: int| 0 <= l1 < l2 < n && l1 < a ==> self.loop_heads@[l1] != self.loop_heads@[l2],
                    forall|l2: int| a < l2 < b ==> self.loop_heads@[a as int] != self.loop_heads@[l2],
                decreases n - b,
            {
                if self.loop_heads[a] == self.loop_heads[b] {
                    return false;
                }
                b = b + 1;
            }
            a = a + 1;
        }
        true
    }

    /// The first loop of `bb` of least nesting depth, or with `deepest` the
    /// last loop of greatest nesting depth.
    fn extreme_loop(&self, bb: BasicBlock, deepest: bool) -> (r: Option<LoopId>)
        requires
            self.wf(),
            bb.0 < self.block_count,
        ensures
            r is None <==> forall|l: int| !self.contains_block(bb.0 as int, l),
            !deepest ==> (r matches Some(l) ==> self.contains_block(bb.0 as int, l.0 as int)
                && (forall|l2: int| #[trigger] self.contains_block(bb.0 as int, l2) ==> self.nest_depth(l.0 as int) <= self.nest_depth(l2))
                && (forall|l2: int| #[trigger] self.contains_block(bb.0 as int, l2) && l2 < l.0 ==> self.nest_depth(l.0 as int) < self.nest_depth(l2))),
            deepest ==> (r matches Some(l) ==> self.contains_block(bb.0 as int, l.0 as int)
                && (forall|l2: int| #[trigger] self.contains_block(bb.0 as int, l2) ==> self.nest_depth(l2) <= self.nest_depth(l.0 as int))
                && (forall|l2: int| #[trigger] self.contains_block(bb.0 as int, l2) && l2 > l.0 ==> self.nest_depth(l2) < self.nest_depth(l.0 as int))),
    {
        let ls = self.loops(bb);
        if ls.len() == 0 {
            proof {
                assert forall|l: int| !self.contains_block(bb.0 as int, l) by {
                    if self.contains_block(bb.0 as int, l) {
                        let j = choose|j: int| 0 <= j < ls@.len() && (#[trigger] ls@[j]).0 == l;
                    }
                }
            }
            return None;
        }
        let mut best: usize = 0;
        let mut best_depth: usize = self.loop_nest_depth(ls[0]);
        let mut j: usize = 1;
        while j < ls.len()
            invariant
                self.wf(),
                1 <= j <= ls@.len(),
                best < j,
                forall|j1: int| 0 <= j1 < ls@.len() ==> (#[trigger] ls@[j1]).0 < self.loop_heads@.len(),
                best_depth == self.nest_depth(ls@[best as int].0 as int),
                !deepest ==> forall|j1: int| 0 <= j1 < j ==> best_depth <= self.nest_depth((#[trigger] ls@[j1]).0 as int),
                !deepest ==> forall|j1: int| 0 <= j1 < best ==> best_depth < self.nest_depth((#[trigger] ls@[j1]).0 as int),
                deepest ==> forall|j1: int| 0 <= j1 < j ==> self.nest_depth((#[trigger] ls@[j1]).0 as int) <= best_depth,
                deepest ==> forall|j1: int| best < j1 < j ==> self.nest_depth((#[trigger] ls@[j1]).0 as int) < best_depth,
            decreases ls.len() - j,
        {
            let d = self.loop_nest_depth(ls[j]);
            if (!deepest && d < best_depth) || (deepest && d >= best_depth) {
                best = j;
                best_depth = d;
            }
            j = j + 1;
        }
        let l = ls[best];
        proof {
            assert forall|l2: int| #[trigger] self.contains_block(bb.0 as int, l2) implies exists|j2: int| 0 <= j2 < ls@.len() && (#[trigger] ls@[j2]).0 == l2 by {}
            assert(self.contains_block(bb.0 as int, l.0 as int));
        }
        Some(l)
    }
}

/// What holds while the search is at position `i`, successor `k`: the
/// heads are the targets of the back edges met, each once, with their
/// indices; each loop's blocks are its natural loop so far, closed under
/// predecessors except at the head.
pub open spec fn loop_state<F: Fn(BasicBlock, BasicBlock) -> bool>(order: Seq<BasicBlock>, succs: Seq<Vec<BasicBlock>>,
    preds: Seq<Vec<BasicBlock>>, f: F, i: int, k: int, heads: Seq<BasicBlock>, cols: Seq<Vec<bool>>,
    head_index: Seq<usize>, n: nat) -> bool {
    &&& preds.len() == n
    &&& head_index.len() == n
    &&& cols.len() == heads.len()
    &&& heads.len() <= n
    &&& n <= usize::MAX
    &&& forall|l: int| 0 <= l < heads.len() ==> (#[trigger] heads[l]).0 < n
    &&& forall|l: int| 0 <= l < cols.len() ==> (#[trigger] cols[l])@.len() == n
    &&& forall|l1: int, l2: int| 0 <= l1 < l2 < heads.len() ==> heads[l1] != heads[l2]
    &&& forall|h: int| 0 <= h < n ==> (#[trigger] head_index[h] == usize::MAX
        || (head_index[h] < heads.len() && heads[head_index[h] as int].0 == h))
    &&& forall|l: int| 0 <= l < heads.len() ==> head_index[(#[trigger] heads[l]).0 as int] == l
    &&& forall|h: int| 0 <= h < n ==> (#[trigger] has_head(heads, h) <==> backedge_target(order, succs, f, i, k, h))
    &&& forall|l: int| 0 <= l < heads.len() ==> closed_except(pred_graph(preds), (#[trigger] cols[l])@, heads[l].0 as int)
    &&& forall|l: int, b: int| 0 <= l < heads.len() && 0 <= b < n ==>
        (#[trigger] cols[l]@[b] <==> in_natural_loop(order, succs, preds, f, i, k, heads[l].0 as int, b))
}

/// One more successor considered: the back edges met are those before
/// and this one, if it is one.
proof fn lemma_seen_step<F: Fn(BasicBlock, BasicBlock) -> bool>(order: Seq<BasicBlock>, succs: Seq<Vec<BasicBlock>>,
    f: F, i: int, k: int, t: int, h: int)
    requires
        0 <= i < order.len(),
        0 <= order[i].0 < succs.len(),
        0 <= k < succs[order[i].0 as int]@.len(),
    ensures
        seen_backedge(order, succs, f, i, k + 1, t, h) <==> (seen_backedge(order, succs, f, i, k, t, h)
            || (order[i].0 == t && succs[t]@[k].0 == h && f.ensures((order[i], succs[t]@[k]), true))),
{
    if seen_backedge(order, succs, f, i, k + 1, t, h) {
        let (p, q) = choose|p: int, q: int| 0 <= p < order.len() && (p < i || (p == i && q < k + 1))
            && 0 <= q < succs[order[p].0 as int]@.len()
            && #[trigger] order[p].0 == t && #[trigger] succs[t]@[q].0 == h
            && f.ensures((order[p], succs[t]@[q]), true);
        if !(p == i && q == k) {
            assert(seen_backedge(order, succs, f, i, k, t, h));
        }
    }
    if seen_backedge(order, succs, f, i, k, t, h) {
        let (p, q) = choose|p: int, q: int| 0 <= p < order.len() && (p < i || (p == i && q < k))
            && 0 <= q < succs[order[p].0 as int]@.len()
            && #[trigger] order[p].0 == t && #[trigger] succs[t]@[q].0 == h
            && f.ensures((order[p], succs[t]@[q]), true);
        assert(seen_backedge(order, succs, f, i, k + 1, t, h));
    }
    if order[i].0 == t && succs[t]@[k].0 == h && f.ensures((order[i], succs[t]@[k]), true) {
        assert(order[i].0 == t && succs[t]@[k].0 == h);
        assert(seen_backedge(order, succs, f, i, k + 1, t, h));
    }
}

/// The end of a row of successors is the start of the next row.
proof fn lemma_seen_row<F: Fn(BasicBlock, BasicBlock) -> bool>(order: Seq<BasicBlock>, succs: Seq<Vec<BasicBlock>>,
    f: F, i: int, k: int, t: int, h: int)
    requires
        0 <= i < order.len(),
        0 <= order[i].0 < succs.len(),
        k == succs[order[i].0 as int]@.len(),
    ensures
        seen_backedge(order, succs, f, i, k, t, h) <==> seen_backedge(order, succs, f, i + 1, 0, t, h),
{
    if seen_backedge(order, succs, f, i, k, t, h) {
        let (p, q) = choose|p: int, q: int| 0 <= p < order.len() && (p < i || (p == i && q < k))
            && 0 <= q < succs[order[p].0 as int]@.len()
            && #[trigger] order[p].0 == t && #[trigger] succs[t]@[q].0 == h
            && f.ensures((order[p], succs[t]@[q]), true);
        assert(seen_backedge(order, succs, f, i + 1, 0, t, h));
    }
    if seen_backedge(order, succs, f, i + 1, 0, t, h) {
        let (p, q) = choose|p: int, q: int| 0 <= p < order.len() && (p < i + 1 || (p == i + 1 && q < 0))
            && 0 <= q < succs[order[p].0 as int]@.len()
            && #[trigger] order[p].0 == t && #[trigger] succs[t]@[q].0 == h
            && f.ensures((order[p], succs[t]@[q]), true);
        assert(seen_backedge(order, succs, f, i, k, t, h));
    }
}

/// Finishing a row keeps the state.
proof fn lemma_state_row_done<F: Fn(BasicBlock, BasicBlock) -> bool>(order: Seq<BasicBlock>, succs: Seq<Vec<BasicBlock>>,
    preds: Seq<Vec<BasicBlock>>, f: F, i: int, k: int, heads: Seq<BasicBlock>, cols: Seq<Vec<bool>>,
    head_index: Seq<usize>, n: nat)
    requires
        loop_state(order, succs, preds, f, i, k, heads, cols, head_index, n),
        0 <= i < order.len(),
        0 <= order[i].0 < succs.len(),
        k == succs[order[i].0 as int]@.len(),
    ensures
        loop_state(order, succs, preds, f, i + 1, 0, heads, cols, head_index, n),
{
    assert forall|t: int, h: int| seen_backedge(order, succs, f, i, k, t, h) <==> #[trigger] seen_backedge(order, succs, f, i + 1, 0, t, h) by {
        lemma_seen_row(order, succs, f, i, k, t, h);
    }
    let i1 = i + 1;
    assert forall|h: int| 0 <= h < n implies (#[trigger] has_head(heads, h) <==> backedge_target(order, succs, f, i1, 0, h)) by {
        assert(has_head(heads, h) <==> backedge_target(order, succs, f, i, k, h));
        if backedge_target(order, succs, f, i, k, h) {
            let t = choose|t: int| #[trigger] seen_backedge(order, succs, f, i, k, t, h);
            assert(seen_backedge(order, succs, f, i1, 0, t, h));
        }
        if backedge_target(order, succs, f, i1, 0, h) {
            let t = choose|t: int| #[trigger] seen_backedge(order, succs, f, i1, 0, t, h);
            assert(seen_backedge(order, succs, f, i, k, t, h));
        }
    }
    assert forall|h: int, b: int| in_natural_loop(order, succs, preds, f, i, k, h, b)
        <==> #[trigger] in_natural_loop(order, succs, preds, f, i + 1, 0, h, b) by {
        if in_natural_loop(order, succs, preds, f, i, k, h, b) && b != h {
            let t = choose|t: int| seen_backedge(order, succs, f, i, k, t, h)
                && #[trigger] reaches_avoiding(pred_graph(preds), only(preds.len(), h), t, b);
            assert(seen_backedge(order, succs, f, i + 1, 0, t, h));
        }
        if in_natural_loop(order, succs, preds, f, i + 1, 0, h, b) && b != h {
            let t = choose|t: int| seen_backedge(order, succs, f, i + 1, 0, t, h)
                && #[trigger] reaches_avoiding(pred_graph(preds), only(preds.len(), h), t, b);
            assert(seen_backedge(order, succs, f, i, k, t, h));
        }
    }
}

/// A successor that is not a back edge keeps the state.
proof fn lemma_state_no_backedge<F: Fn(BasicBlock, BasicBlock) -> bool>(order: Seq<BasicBlock>, succs: Seq<Vec<BasicBlock>>,
    preds: Seq<Vec<BasicBlock>>, f: F, i: int, k: int, heads: Seq<BasicBlock>, cols: Seq<Vec<bool>>,
    head_index: Seq<usize>, n: nat)
    requires
        loop_state(order, succs, preds, f, i, k, heads, cols, head_index, n),
        0 <= i < order.len(),
        0 <= order[i].0 < succs.len(),
        0 <= k < succs[order[i].0 as int]@.len(),
        f.ensures((order[i], succs[order[i].0 as int]@[k]), false),
        forall|a: BasicBlock, b: BasicBlock, x: bool, y: bool| f.ensures((a, b), x) && f.ensures((a, b), y) ==> x == y,
    ensures
        loop_state(order, succs, preds, f, i, k + 1, heads, cols, head_index, n),
{
    assert forall|t: int, h: int| seen_backedge(order, succs, f, i, k, t, h) <==> #[trigger] seen_backedge(order, succs, f, i, k + 1, t, h) by {
        lemma_seen_step(order, succs, f, i, k, t, h);
        if order[i].0 == t && succs[t]@[k].0 == h && f.ensures((order[i], succs[t]@[k]), true) {
            assert(f.ensures((order[i], succs[order[i].0 as int]@[k]), true));
        }
    }
    let k1 = k + 1;
    assert forall|h: int| 0 <= h < n implies (#[trigger] has_head(heads, h) <==> backedge_target(order, succs, f, i, k1, h)) by {
        assert(has_head(heads, h) <==> backedge_target(order, succs, f, i, k, h));
        if backedge_target(order, succs, f, i, k, h) {
            let t = choose|t: int| #[trigger] seen_backedge(order, succs, f, i, k, t, h);
            assert(seen_backedge(order, succs, f, i, k1, t, h));
        }
        if backedge_target(order, succs, f, i, k1, h) {
            let t = choose|t: int| #[trigger] seen_backedge(order, succs, f, i, k1, t, h);
            assert(seen_backedge(order, succs, f, i, k, t, h));
        }
    }
    assert forall|h: int, b: int| in_natural_loop(order, succs, preds, f, i, k, h, b)
        <==> #[trigger] in_natural_loop(order, succs, preds, f, i, k + 1, h, b) by {
        if in_natural_loop(order, succs, preds, f, i, k, h, b) && b != h {
            let t = choose|t: int| seen_backedge(order, succs, f, i, k, t, h)
                && #[trigger] reaches_avoiding(pred_graph(preds), only(preds.len(), h), t, b);
            assert(seen_backedge(order, succs, f, i, k + 1, t, h));
        }
        if in_natural_loop(order, succs, preds, f, i, k + 1, h, b) && b != h {
            let t = choose|t: int| seen_backedge(order, succs, f, i, k + 1, t, h)
                && #[trigger] reaches_avoiding(pred_graph(preds), only(preds.len(), h), t, b);
            assert(seen_backedge(order, succs, f, i, k, t, h));
        }
    }
}

/// What holds once the head of a back edge has its loop: the state at
/// `(i, k)`, except that the head may not have been met yet, whose loop is
/// then just the head.
pub open spec fn head_ready<F: Fn(BasicBlock, BasicBlock) -> bool>(order: Seq<BasicBlock>, succs: Seq<Vec<BasicBlock>>,
    preds: Seq<Vec<BasicBlock>>, f: F, i: int, k: int, heads: Seq<BasicBlock>, cols: Seq<Vec<bool>>,
    head_index: Seq<usize>, n: nat, l: int) -> bool {
    let s = succs[order[i].0 as int]@[k].0 as int;
    &&& preds.len() == n
    &&& head_index.len() == n
    &&& cols.len() == heads.len()
    &&& heads.len() <= n
    &&& n <= usize::MAX
    &&& 0 <= l < heads.len()
    &&& heads[l].0 == s
    &&& forall|ll: int| 0 <= ll < heads.len() ==> (#[trigger] heads[ll]).0 < n
    &&& forall|ll: int| 0 <= ll < cols.len() ==> (#[trigger] cols[ll])@.len() == n
    &&& forall|l1: int, l2: int| 0 <= l1 < l2 < heads.len() ==> heads[l1] != heads[l2]
    &&& forall|h: int| 0 <= h < n ==> (#[trigger] head_index[h] == usize::MAX
        || (head_index[h] < heads.len() && heads[head_index[h] as int].0 == h))
    &&& forall|ll: int| 0 <= ll < heads.len() ==> head_index[(#[trigger] heads[ll]).0 as int] == ll
    &&& forall|h: int| 0 <= h < n && h != s ==> (#[trigger] has_head(heads, h) <==> backedge_target(order, succs, f, i, k, h))
    &&& forall|ll: int| 0 <= ll < heads.len() ==> closed_except(pred_graph(preds), (#[trigger] cols[ll])@, heads[ll].0 as int)
    &&& forall|ll: int, b: int| 0 <= ll < heads.len() && 0 <= b < n ==>
        (#[trigger] cols[ll]@[b] <==> in_natural_loop(order, succs, preds, f, i, k, heads[ll].0 as int, b))
}

/// Finding or creating the loop of a back edge's head.
proof fn lemma_state_head<F: Fn(BasicBlock, BasicBlock) -> bool>(order: Seq<BasicBlock>, succs: Seq<Vec<BasicBlock>>,
    preds: Seq<Vec<BasicBlock>>, f: F, i: int, k: int, h0: Seq<BasicBlock>, c0: Seq<Vec<bool>>, x0: Seq<usize>,
    h1: Seq<BasicBlock>, c1: Seq<Vec<bool>>, x1: Seq<usize>, n: nat, l: int, is_new: bool)
    requires
        loop_state(order, succs, preds, f, i, k, h0, c0, x0, n),
        0 <= i < order.len(),
        0 <= order[i].0 < succs.len(),
        0 <= k < succs[order[i].0 as int]@.len(),
        0 <= succs[order[i].0 as int]@[k].0 < n,
        is_new == (x0[succs[order[i].0 as int]@[k].0 as int] == usize::MAX),
        !is_new ==> h1 == h0 && c1 == c0 && x1 == x0 && l == x0[succs[order[i].0 as int]@[k].0 as int],
        is_new ==> l == h0.len() && h1 == h0.push(succs[order[i].0 as int]@[k])
            && c1.len() == c0.len() + 1 && (forall|ll: int| 0 <= ll < c0.len() ==> c1[ll] == c0[ll])
            && c1[l]@ == only(n, succs[order[i].0 as int]@[k].0 as int)
            && x1 == x0.update(succs[order[i].0 as int]@[k].0 as int, l as usize),
    ensures
        head_ready(order, succs, preds, f, i, k, h1, c1, x1, n, l),
{
    let s = succs[order[i].0 as int]@[k].0 as int;
    if is_new {
        assert forall|ll: int| 0 <= ll < h0.len() implies h0[ll].0 != s by {
            assert(x0[h0[ll].0 as int] == ll);
        }
        assert forall|ll: int| 0 <= ll < h1.len() implies (#[trigger] h1[ll]).0 < n by {
            if ll < h0.len() {
                assert(h1[ll] == h0[ll]);
            }
        }
        assert forall|ll: int| 0 <= ll < c1.len() implies (#[trigger] c1[ll])@.len() == n by {
            if ll < c0.len() {
                assert(c1[ll] == c0[ll]);
            }
        }
        assert forall|l1: int, l2: int| 0 <= l1 < l2 < h1.len() implies h1[l1] != h1[l2] by {
            if l2 < h0.len() {
                assert(h1[l1] == h0[l1] && h1[l2] == h0[l2]);
            } else {
                assert(h1[l1] == h0[l1]);
            }
        }
        assert forall|h: int| 0 <= h < n implies (#[trigger] x1[h] == usize::MAX
            || (x1[h] < h1.len() && h1[x1[h] as int].0 == h)) by {
            if h != s {
                assert(x1[h] == x0[h]);
                if x0[h] != usize::MAX {
                    assert(h1[x0[h] as int] == h0[x0[h] as int]);
                }
            }
        }
        assert forall|ll: int| 0 <= ll < h1.len() implies x1[(#[trigger] h1[ll]).0 as int] == ll by {
            if ll < h0.len() {
                assert(h1[ll] == h0[ll]);
                assert(x0[h0[ll].0 as int] == ll);
            }
        }
        assert forall|h: int| 0 <= h < n && h != s implies (#[trigger] has_head(h1, h)
            <==> backedge_target(order, succs, f, i, k, h)) by {
            assert(has_head(h0, h) <==> backedge_target(order, succs, f, i, k, h));
            if has_head(h1, h) {
                let ll = choose|ll: int| 0 <= ll < h1.len() && (#[trigger] h1[ll]).0 == h;
                assert(ll < h0.len());
                assert(h1[ll] == h0[ll]);
                assert(has_head(h0, h));
            }
            if has_head(h0, h) {
                let ll = choose|ll: int| 0 <= ll < h0.len() && (#[trigger] h0[ll]).0 == h;
                assert(h1[ll] == h0[ll]);
                assert(has_head(h1, h));
            }
        }
        assert(!backedge_target(order, succs, f, i, k, s)) by {
            if backedge_target(order, succs, f, i, k, s) {
                assert(has_head(h0, s));
                let ll = choose|ll: int| 0 <= ll < h0.len() && (#[trigger] h0[ll]).0 == s;
                assert(x0[h0[ll].0 as int] == ll);
            }
        }
        assert(h1.len() <= n) by {
            let hs = h1.map_values(|b: BasicBlock| b.0 as int);
            assert forall|kk: int| 0 <= kk < hs.len() implies vstd::set_lib::set_int_range(0, n as int).contains(#[trigger] hs[kk]) by {
                assert(h1[kk].0 < n);
            }
            assert forall|a: int, b: int| 0 <= a < b < hs.len() implies hs[a] != hs[b] by {
                assert(h1[a] != h1[b]);
            }
            vstd::set_lib::lemma_int_range(0, n as int);
            crate::graph::lemma_injective_image_len(hs, vstd::set_lib::set_int_range(0, n as int));
        }
        assert forall|ll: int| 0 <= ll < h1.len() implies closed_except(pred_graph(preds), (#[trigger] c1[ll])@, h1[ll].0 as int) by {
            if ll < h0.len() {
                assert(c1[ll] == c0[ll] && h1[ll] == h0[ll]);
            }
        }
        assert forall|ll: int, b: int| 0 <= ll < h1.len() && 0 <= b < n implies
            (#[trigger] c1[ll]@[b] <==> in_natural_loop(order, succs, preds, f, i, k, h1[ll].0 as int, b)) by {
            if ll < h0.len() {
                assert(c1[ll] == c0[ll] && h1[ll] == h0[ll]);
            } else {
                assert(h1[ll].0 == s);
            }
        }
    } else {
        assert(x0[s] < h0.len() && h0[x0[s] as int].0 == s);
    }
}

/// Adding the natural loop of a tail to its head's loop gives the state
/// after the back edge.
proof fn lemma_state_add_tail<F: Fn(BasicBlock, BasicBlock) -> bool>(order: Seq<BasicBlock>, succs: Seq<Vec<BasicBlock>>,
    preds: Seq<Vec<BasicBlock>>, f: F, i: int, k: int, h1: Seq<BasicBlock>, c1: Seq<Vec<bool>>, x1: Seq<usize>,
    c2: Seq<Vec<bool>>, n: nat, l: int, m2: Seq<bool>)
    requires
        head_ready(order, succs, preds, f, i, k, h1, c1, x1, n, l),
        adj_wf(pred_graph(preds)),
        n <= usize::MAX,
        0 <= i < order.len(),
        0 <= order[i].0 < n,
        0 <= order[i].0 < succs.len(),
        0 <= k < succs[order[i].0 as int]@.len(),
        f.ensures((order[i], succs[order[i].0 as int]@[k]), true),
        c2.len() == c1.len(),
        forall|ll: int| 0 <= ll < c1.len() && ll != l ==> c2[ll] == c1[ll],
        c2[l]@ == m2,
        m2.len() == n,
        forall|b: int| 0 <= b < n ==> (#[trigger] m2[b] <==> (c1[l]@[b]
            || reaches_avoiding(pred_graph(preds), c1[l]@, order[i].0 as int, b))),
        forall|b: int, kk: int| 0 <= b < n && !c1[l]@[b] && m2[b] && 0 <= kk < pred_graph(preds)[b].len()
            ==> m2[#[trigger] pred_graph(preds)[b][kk] as int],
    ensures
        loop_state(order, succs, preds, f, i, k + 1, h1, c2, x1, n),
{
    let g = pred_graph(preds);
    let t = order[i].0 as int;
    let s = succs[t]@[k].0 as int;
    let m = c1[l]@;
    assert(g.len() == n);
    assert forall|tt: int, h: int| #[trigger] seen_backedge(order, succs, f, i, k + 1, tt, h) <==>
        (seen_backedge(order, succs, f, i, k, tt, h) || (tt == t && h == s)) by {
        lemma_seen_step(order, succs, f, i, k, tt, h);
    }
    // the heads
    assert forall|h: int| 0 <= h < n implies (#[trigger] has_head(h1, h)
        <==> backedge_target(order, succs, f, i, k + 1, h)) by {
        if h == s {
            assert(h1[l].0 == h);
            assert(seen_backedge(order, succs, f, i, k + 1, t, h));
        } else {
            let k1 = k + 1;
            if exists|tt: int| #[trigger] seen_backedge(order, succs, f, i, k1, tt, h) {
                let tt = choose|tt: int| #[trigger] seen_backedge(order, succs, f, i, k1, tt, h);
                assert(seen_backedge(order, succs, f, i, k, tt, h));
            }
            if exists|tt: int| seen_backedge(order, succs, f, i, k, tt, h) {
                let tt = choose|tt: int| seen_backedge(order, succs, f, i, k, tt, h);
                assert(seen_backedge(order, succs, f, i, k + 1, tt, h));
            }
        }
    }
    // the loop of s
    assert forall|b: int| 0 <= b < n implies (m2[b] <==> in_natural_loop(order, succs, preds, f, i, k + 1, s, b)) by {
        lemma_reach_closed(g, m, s, t, b);
        assert(m[b] <==> in_natural_loop(order, succs, preds, f, i, k, s, b));
        if in_natural_loop(order, succs, preds, f, i, k + 1, s, b) && b != s {
            let tt = choose|tt: int| seen_backedge(order, succs, f, i, k + 1, tt, s)
                && #[trigger] reaches_avoiding(g, only(preds.len(), s), tt, b);
            if tt != t || !seen_backedge(order, succs, f, i, k, tt, s) {
                if seen_backedge(order, succs, f, i, k, tt, s) {
                    assert(in_natural_loop(order, succs, preds, f, i, k, s, b));
                }
            }
        }
        if in_natural_loop(order, succs, preds, f, i, k, s, b) && b != s {
            let tt = choose|tt: int| seen_backedge(order, succs, f, i, k, tt, s)
                && #[trigger] reaches_avoiding(g, only(preds.len(), s), tt, b);
            assert(seen_backedge(order, succs, f, i, k + 1, tt, s));
        }
        if reaches_avoiding(g, only(g.len(), s), t, b) {
            assert(seen_backedge(order, succs, f, i, k + 1, t, s));
        }
    }
    assert(closed_except(g, m2, s)) by {
        assert(m[s]);
        assert(m2[s]);
        assert forall|b: int, kk: int| 0 <= b < g.len() && b != s && m2[b] && 0 <= kk < g[b].len() implies m2[#[trigger] g[b][kk] as int] by {
            if m[b] {
                assert(m[g[b][kk] as int]);
                assert(g[b][kk] < g.len());
            }
        }
    }
    assert forall|ll: int, b: int| 0 <= ll < h1.len() && 0 <= b < n implies
        (#[trigger] c2[ll]@[b] <==> in_natural_loop(order, succs, preds, f, i, k + 1, h1[ll].0 as int, b)) by {
        if ll == l {
        } else {
            let h = h1[ll].0 as int;
            assert(h != s);
            assert(c2[ll] == c1[ll]);
            if in_natural_loop(order, succs, preds, f, i, k + 1, h, b) && b != h {
                let tt = choose|tt: int| seen_backedge(order, succs, f, i, k + 1, tt, h)
                    && #[trigger] reaches_avoiding(g, only(preds.len(), h), tt, b);
                assert(seen_backedge(order, succs, f, i, k, tt, h));
            }
            if in_natural_loop(order, succs, preds, f, i, k, h, b) && b != h {
                let tt = choose|tt: int| seen_backedge(order, succs, f, i, k, tt, h)
                    && #[trigger] reaches_avoiding(g, only(preds.len(), h), tt, b);
                assert(seen_backedge(order, succs, f, i, k + 1, tt, h));
            }
        }
    }
    assert forall|ll: int| 0 <= ll < h1.len() implies closed_except(g, (#[trigger] c2[ll])@, h1[ll].0 as int) by {
        if ll != l {
            assert(c2[ll] == c1[ll]);
        }
    }
    assert forall|ll: int| 0 <= ll < c2.len() implies (#[trigger] c2[ll])@.len() == n by {
        if ll != l {
            assert(c2[ll] == c1[ll]);
        }
    }
}


/// Filtering by a weaker predicate keeps at least as many elements, and
/// more where some element passes only the weaker one.
proof fn lemma_filter_len_mono<A>(s: Seq<A>, p: spec_fn(A) -> bool, q: spec_fn(A) -> bool, strict: bool, k: int)
    requires
        forall|i: int| 0 <= i < s.len() && p(#[trigger] s[i]) ==> q(s[i]),
        strict ==> 0 <= k < s.len() && q(s[k]) && !p(s[k]),
    ensures
        s.filter(p).len() <= s.filter(q).len(),
        strict ==> s.filter(p).len() < s.filter(q).len(),
    decreases s.len(),
{
    reveal(Seq::filter);
    if s.len() > 0 {
        let t = s.drop_last();
        assert forall|i: int| 0 <= i < t.len() && p(#[trigger] t[i]) implies q(t[i]) by {
            assert(t[i] == s[i]);
        }
        if strict && k < s.len() - 1 {
            assert(t[k] == s[k]);
            lemma_filter_len_mono(t, p, q, true, k);
        } else {
            lemma_filter_len_mono(t, p, q, false, 0);
        }
    }
}

impl LoopAnalysis {
    /// Where the loops nest, the loops that hold the head of loop `l` are
    /// exactly those that `l` is within.
    proof fn lemma_head_in_iff_within(&self, l: int, big: int)
        requires
            self.wf(),
            self.loops_nest(),
            0 <= l < self.loop_heads@.len(),
            0 <= big < self.loop_heads@.len(),
        ensures
            self.contains_block(self.loop_heads@[l].0 as int, big) <==> self.within(l, big),
    {
        let h = self.loop_heads@[l].0 as int;
        assert(self.contains_block(h, l));
        if self.within(l, big) {
            assert(0 <= h < self.block_count);
        }
    }

    /// Where the loops nest and `l1` is within `l2` but not `l2` within
    /// `l1`, `l2` is nested less deeply than `l1`.
    proof fn lemma_nest_depth_lt(&self, l1: int, l2: int)
        requires
            self.wf(),
            self.loops_nest(),
            0 <= l1 < self.loop_heads@.len(),
            0 <= l2 < self.loop_heads@.len(),
            self.within(l1, l2),
            !self.within(l2, l1),
        ensures
            self.nest_depth(l2) < self.nest_depth(l1),
    {
        let ids = self.loop_ids();
        assert(self.loop_heads@.len() == self.loop_heads.len());
        let p = self.contains_pred(self.loop_heads@[l2].0 as int);
        let q = self.contains_pred(self.loop_heads@[l1].0 as int);
        assert forall|i: int| 0 <= i < ids.len() && p(#[trigger] ids[i]) implies q(ids[i]) by {
            assert(self.loop_heads@.len() == self.loop_heads.len());
            self.lemma_head_in_iff_within(l2, i);
            self.lemma_head_in_iff_within(l1, i);
            assert(ids[i].0 as int == i);
            assert forall|b: int| 0 <= b < self.block_count && #[trigger] self.contains_block(b, l1) implies self.contains_block(b, i) by {
                assert(self.contains_block(b, l2));
            }
        }
        assert(ids[l2].0 as int == l2);
        self.lemma_head_in_iff_within(l1, l2);
        self.lemma_head_in_iff_within(l2, l2);
        assert(self.within(l2, l2));
        assert(q(ids[l2]));
        assert(!p(ids[l2]) == false);
        assert(ids[l1].0 as int == l1);
        self.lemma_head_in_iff_within(l2, l1);
        self.lemma_head_in_iff_within(l1, l1);
        assert(self.within(l1, l1));
        assert(q(ids[l1]));
        assert(!p(ids[l1]));
        lemma_filter_len_mono(ids, p, q, true, l1);
    }

    /// Where the loops nest, the loop of `bb` that is nested least deeply
    /// contains every other loop of `bb`.
    pub proof fn lemma_outermost_contains(&self, bb: int, l: int, l2: int)
        requires
            self.wf(),
            self.loops_nest(),
            self.contains_block(bb, l),
            self.contains_block(bb, l2),
            forall|l3: int| #[trigger] self.contains_block(bb, l3) ==> self.nest_depth(l) <= self.nest_depth(l3),
        ensures
            self.within(l2, l),
    {
        if !self.within(l2, l) {
            assert(self.within(l, l2) || self.within(l2, l));
            self.lemma_nest_depth_lt(l, l2);
            assert(self.nest_depth(l) <= self.nest_depth(l2));
        }
    }

    /// Where the loops nest, the loop of `bb` that is nested most deeply is
    /// within every loop of `bb`.
    pub proof fn lemma_innermost_contained(&self, bb: int, l: int, l2: int)
        requires
            self.wf(),
            self.loops_nest(),
            self.contains_block(bb, l),
            self.contains_block(bb, l2),
            forall|l3: int| #[trigger] self.contains_block(bb, l3) ==> self.nest_depth(l3) <= self.nest_depth(l),
        ensures
            self.within(l, l2),
    {
        if !self.within(l, l2) {
            assert(self.within(l, l2) || self.within(l2, l));
            self.lemma_nest_depth_lt(l2, l);
            assert(self.nest_depth(l2) <= self.nest_depth(l));
        }
    }
}

} // verus!
