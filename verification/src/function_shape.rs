//! Function shapes: the bipartite graph that says which lifetime projections
//! of a function's arguments flow into which lifetime projections of its
//! result (and of the nested lifetimes of its arguments).
use vstd::prelude::*;
use crate::coupling::{AbstractionBlockEdge, CouplingNode, CoupledEdgesData, is_coupling, in_first_occurrence_order};
use crate::mir::Local;
use crate::region::{PcgRegion, RegionIdx, find_region_idx};
use crate::text::{push_decimal, push_str, decimal};

verus! {

/// The index of a function argument.
#[derive(Clone, Copy, Debug, PartialEq, Eq, Structural, Hash, PartialOrd, Ord)]
pub struct ArgIdx(pub usize);

/// A function argument or the function's result.
#[derive(Clone, Copy, Debug, PartialEq, Eq, Structural, Hash, PartialOrd, Ord)]
pub enum ArgIdxOrResult {
    Argument(ArgIdx),
    Result,
}

/// How an argument index is written: `a` followed by the index.
pub open spec fn arg_text(a: ArgIdx) -> Seq<char> {
    "a"@ + decimal(a.0 as nat)
}

/// How an argument or the result is written.
pub open spec fn arg_or_result_text(a: ArgIdxOrResult) -> Seq<char> {
    match a {
        ArgIdxOrResult::Argument(x) => arg_text(x),
        ArgIdxOrResult::Result => "result"@,
    }
}

impl ArgIdx {
    /// The argument index `i`.
    pub fn new(i: usize) -> (a: ArgIdx)
        ensures
            a.0 == i,
    {
        ArgIdx(i)
    }

    /// How the argument index is written, e.g. `a0`.
    pub fn to_short_string(self) -> (s: String)
        ensures
            s@ == arg_text(self),
    {
        proof {
            reveal_strlit("a");
        }
        let mut s = String::from_str("a");
        push_decimal(&mut s, self.0);
        s
    }
}

impl ArgIdxOrResult {
    /// How the argument or the result is written, e.g. `a1` or `result`.
    pub fn to_short_string(self) -> (s: String)
        ensures
            s@ == arg_or_result_text(self),
    {
        match self {
            ArgIdxOrResult::Argument(a) => a.to_short_string(),
            ArgIdxOrResult::Result => String::from_str("result"),
        }
    }
}

/// A lifetime projection of a function argument: the argument and the index
/// of a region in its type. Shape nodes carry no label.
#[derive(Clone, Copy, Debug, PartialEq, Eq, Structural, Hash)]
pub struct FunctionShapeInput {
    pub base: ArgIdx,
    pub region_idx: RegionIdx,
}

/// A lifetime projection of a function argument or of the result.
#[derive(Clone, Copy, Debug, PartialEq, Eq, Structural, Hash)]
pub struct FunctionShapeNode {
    pub base: ArgIdxOrResult,
    pub region_idx: RegionIdx,
}

/// An output of a function shape.
pub type FunctionShapeOutput = FunctionShapeNode;

impl CouplingNode for FunctionShapeInput {
    fn same(&self, other: &Self) -> (b: bool) {
        *self == *other
    }

    fn dup(&self) -> (r: Self) {
        *self
    }
}

impl CouplingNode for FunctionShapeNode {
    fn same(&self, other: &Self) -> (b: bool) {
        *self == *other
    }

    fn dup(&self) -> (r: Self) {
        *self
    }
}

/// The MIR local of an argument or the result: the result is local 0 and
/// argument `i` is local `i + 1`.
pub open spec fn node_local(b: ArgIdxOrResult) -> Local {
    match b {
        ArgIdxOrResult::Argument(a) => Local((a.0 + 1) as usize),
        ArgIdxOrResult::Result => Local(0),
    }
}

impl FunctionShapeInput {
    /// The projection of argument `base` at the position of `region` among
    /// `regions`, the regions of the argument's type; `None` if the type
    /// does not contain the region.
    pub fn new(base: ArgIdx, region: PcgRegion, regions: &Vec<PcgRegion>) -> (r: Option<FunctionShapeInput>)
        ensures
            match r {
                Some(p) => p.base == base && 0 <= p.region_idx.0 < regions@.len()
                    && regions@[p.region_idx.0 as int] == region
                    && forall|j: int| 0 <= j < p.region_idx.0 ==> regions@[j] != region,
                None => !regions@.contains(region),
            },
    {
        match find_region_idx(regions, region) {
            Some(i) => Some(FunctionShapeInput { base, region_idx: i }),
            None => None,
        }
    }

    /// The projection of `base` at region index `region_idx`.
    pub fn from_index(base: ArgIdx, region_idx: RegionIdx) -> (r: FunctionShapeInput)
        ensures
            r.base == base,
            r.region_idx == region_idx,
    {
        FunctionShapeInput { base, region_idx }
    }

    /// The same projection as a shape node.
    pub fn to_function_shape_node(self) -> (n: FunctionShapeNode)
        ensures
            n.base == ArgIdxOrResult::Argument(self.base),
            n.region_idx == self.region_idx,
    {
        FunctionShapeNode { base: ArgIdxOrResult::Argument(self.base), region_idx: self.region_idx }
    }

    /// The MIR local of the argument.
    pub fn mir_local(self) -> (l: Local)
        requires
            self.base.0 < usize::MAX,
        ensures
            l == node_local(ArgIdxOrResult::Argument(self.base)),
    {
        self.to_function_shape_node().mir_local()
    }
}

impl FunctionShapeNode {
    /// The projection of `base` at the position of `region` among `regions`.
    pub fn new(base: ArgIdxOrResult, region: PcgRegion, regions: &Vec<PcgRegion>) -> (r: Option<FunctionShapeNode>)
        ensures
            match r {
                Some(p) => p.base == base && 0 <= p.region_idx.0 < regions@.len()
                    && regions@[p.region_idx.0 as int] == region
                    && forall|j: int| 0 <= j < p.region_idx.0 ==> regions@[j] != region,
                None => !regions@.contains(region),
            },
    {
        match find_region_idx(regions, region) {
            Some(i) => Some(FunctionShapeNode { base, region_idx: i }),
            None => None,
        }
    }

    /// The projection of `base` at region index `region_idx`.
    pub fn from_index(base: ArgIdxOrResult, region_idx: RegionIdx) -> (r: FunctionShapeNode)
        ensures
            r.base == base,
            r.region_idx == region_idx,
    {
        FunctionShapeNode { base, region_idx }
    }

    /// The MIR local of the argument or result.
    pub fn mir_local(self) -> (l: Local)
        requires
            self.base matches ArgIdxOrResult::Argument(a) ==> a.0 < usize::MAX,
        ensures
            l == node_local(self.base),
    {
        match self.base {
            ArgIdxOrResult::Argument(a) => Local(a.0 + 1),
            ArgIdxOrResult::Result => Local(0),
        }
    }

    /// Among `tys` (the argument types) and `output` (the result type), the
    /// type of this node's argument or result.
    pub fn ty<T: Copy>(self, inputs: &Vec<T>, output: T) -> (t: T)
        requires
            self.base matches ArgIdxOrResult::Argument(a) ==> a.0 < inputs@.len(),
        ensures
            t == (match self.base {
                ArgIdxOrResult::Argument(a) => inputs@[a.0 as int],
                ArgIdxOrResult::Result => output,
            }),
    {
        match self.base {
            ArgIdxOrResult::Argument(a) => inputs[a.0],
            ArgIdxOrResult::Result => output,
        }
    }
}

/// An edge of a function shape.
pub type ShapeEdge = AbstractionBlockEdge<FunctionShapeInput, FunctionShapeNode>;

/// The rank of an argument-or-result in the order of the shape's edges:
/// arguments by index, then the result.
pub open spec fn base_rank(b: ArgIdxOrResult) -> int {
    match b {
        ArgIdxOrResult::Argument(a) => a.0 as int,
        ArgIdxOrResult::Result => usize::MAX as int + 1,
    }
}

/// The order of shape edges: by input argument, input region index, output
/// argument (the result last) and output region index.
pub open spec fn edge_lt(a: ShapeEdge, b: ShapeEdge) -> bool {
    let (a1, a2, a3, a4) = (a.input.base.0 as int, a.input.region_idx.0 as int, base_rank(a.output.base), a.output.region_idx.0 as int);
    let (b1, b2, b3, b4) = (b.input.base.0 as int, b.input.region_idx.0 as int, base_rank(b.output.base), b.output.region_idx.0 as int);
    a1 < b1 || (a1 == b1 && (a2 < b2 || (a2 == b2 && (a3 < b3 || (a3 == b3 && a4 < b4)))))
}

/// The edges are strictly increasing in the edge order (so they are
/// distinct).
pub open spec fn edges_sorted(s: Seq<ShapeEdge>) -> bool {
    forall|i: int, j: int| 0 <= i < j < s.len() ==> edge_lt(#[trigger] s[i], #[trigger] s[j])
}

proof fn lemma_edge_lt_total(a: ShapeEdge, b: ShapeEdge)
    ensures
        edge_lt(a, b) || edge_lt(b, a) || (a.input == b.input && a.output == b.output),
{
    if base_rank(a.output.base) == base_rank(b.output.base) {
        match (a.output.base, b.output.base) {
            (ArgIdxOrResult::Argument(x), ArgIdxOrResult::Argument(y)) => { assert(x == y); },
            (ArgIdxOrResult::Result, ArgIdxOrResult::Result) => {},
            (ArgIdxOrResult::Argument(x), ArgIdxOrResult::Result) => { assert(false); },
            (ArgIdxOrResult::Result, ArgIdxOrResult::Argument(y)) => { assert(false); },
        }
    }
}

fn edge_lt_exec(a: &ShapeEdge, b: &ShapeEdge) -> (r: bool)
    ensures
        r == edge_lt(*a, *b),
{
    let ra: u128 = match a.output.base {
        ArgIdxOrResult::Argument(x) => x.0 as u128,
        ArgIdxOrResult::Result => usize::MAX as u128 + 1,
    };
    let rb: u128 = match b.output.base {
        ArgIdxOrResult::Argument(x) => x.0 as u128,
        ArgIdxOrResult::Result => usize::MAX as u128 + 1,
    };
    let (a1, a2, a4) = (a.input.base.0, a.input.region_idx.0, a.output.region_idx.0);
    let (b1, b2, b4) = (b.input.base.0, b.input.region_idx.0, b.output.region_idx.0);
    a1 < b1 || (a1 == b1 && (a2 < b2 || (a2 == b2 && (ra < rb || (ra == rb && a4 < b4)))))
}

/// Inserts `e` into the sorted edges, unless an equal edge is there.
pub(crate) fn insert_edge(edges: &mut Vec<ShapeEdge>, e: ShapeEdge)
    requires
        edges_sorted(old(edges)@),
    ensures
        edges_sorted(final(edges)@),
        forall|x: ShapeEdge| final(edges)@.contains(x) <==> (old(edges)@.contains(x) || x == e),
{
    let mut p: usize = 0;
    while p < edges.len() && edge_lt_exec(&edges[p], &e)
        invariant
            p <= edges@.len(),
            forall|q: int| 0 <= q < p ==> edge_lt(edges@[q], e),
        decreases edges.len() - p,
    {
        p = p + 1;
    }
    let ghost old_edges = edges@;
    if p < edges.len() && edges[p].input == e.input && edges[p].output == e.output {
        proof {
            assert(edges@[p as int] == e);
        }
        return;
    }
    proof {
        if p < edges@.len() {
            lemma_edge_lt_total(edges@[p as int], e);
            assert(edge_lt(e, edges@[p as int]));
        }
    }
    edges.insert(p, e);
    proof {
        let s = edges@;
        assert(s == old_edges.insert(p as int, e));
        assert forall|i: int, j: int| 0 <= i < j < s.len() implies edge_lt(#[trigger] s[i], #[trigger] s[j]) by {
            if j < p {
                assert(edge_lt(old_edges[i], old_edges[j]));
            } else if j == p {
                assert(edge_lt(old_edges[i], e));
            } else if i == p {
                if j - 1 > p {
                    assert(edge_lt(old_edges[p as int], old_edges[j - 1]));
                }
            } else if i < p {
                assert(edge_lt(old_edges[i], e));
                assert(edge_lt(e, old_edges[p as int]));
                if j - 1 > p {
                    assert(edge_lt(old_edges[p as int], old_edges[j - 1]));
                }
            } else {
                assert(edge_lt(old_edges[i - 1], old_edges[j - 1]));
            }
        }
        assert forall|x: ShapeEdge| s.contains(x) <==> (old_edges.contains(x) || x == e) by {
            if s.contains(x) {
                let k = choose|k: int| 0 <= k < s.len() && s[k] == x;
                if k < p {
                    assert(old_edges[k] == x);
                } else if k > p {
                    assert(old_edges[k - 1] == x);
                }
            }
            if old_edges.contains(x) {
                let k = choose|k: int| 0 <= k < old_edges.len() && old_edges[k] == x;
                if k < p {
                    assert(s[k] == x);
                } else {
                    assert(s[k + 1] == x);
                }
            }
            if x == e {
                assert(s[p as int] == x);
            }
        }
    }
}

/// The input given as an argument and a region index.
pub open spec fn raw_input(p: (ArgIdx, usize)) -> FunctionShapeInput {
    FunctionShapeInput { base: p.0, region_idx: RegionIdx(p.1) }
}

/// The output given as an argument (or the result) and a region index.
pub open spec fn raw_output(p: (ArgIdxOrResult, usize)) -> FunctionShapeNode {
    FunctionShapeNode { base: p.0, region_idx: RegionIdx(p.1) }
}

/// Edge `e` is the edge given by `r`.
pub open spec fn is_raw_edge(e: ShapeEdge, r: ((ArgIdx, usize), (ArgIdxOrResult, usize))) -> bool {
    e.input == raw_input(r.0) && e.output == raw_output(r.1)
}

/// The inputs given as arguments and region indices.
pub open spec fn raw_inputs(inputs: Seq<(ArgIdx, usize)>) -> Seq<FunctionShapeInput> {
    inputs.map_values(|p: (ArgIdx, usize)| raw_input(p))
}

/// The outputs given as arguments (or the result) and region indices.
pub open spec fn raw_outputs(outputs: Seq<(ArgIdxOrResult, usize)>) -> Seq<FunctionShapeNode> {
    outputs.map_values(|p: (ArgIdxOrResult, usize)| raw_output(p))
}

/// `s` is the shape built from the raw `inputs`, `outputs` and `edges`.
pub open spec fn built_from_raw(
    inputs: Seq<(ArgIdx, usize)>,
    outputs: Seq<(ArgIdxOrResult, usize)>,
    edges: Seq<((ArgIdx, usize), (ArgIdxOrResult, usize))>,
    s: FunctionShape,
) -> bool {
    &&& s.wf()
    &&& s.inputs@ == raw_inputs(inputs)
    &&& s.outputs@ == raw_outputs(outputs)
    &&& forall|e: ShapeEdge| #[trigger] s.edges@.contains(e) <==> exists|k: int| 0 <= k < edges.len()
        && is_raw_edge(e, #[trigger] edges[k])
}

/// Strictly sorted edge sequences with the same edges are equal.
proof fn lemma_sorted_same_edges(a: Seq<ShapeEdge>, b: Seq<ShapeEdge>)
    requires
        edges_sorted(a),
        edges_sorted(b),
        forall|x: ShapeEdge| a.contains(x) <==> b.contains(x),
    ensures
        a == b,
    decreases a.len(),
{
    if a.len() == 0 {
        if b.len() > 0 {
            assert(b.contains(b[0]));
        }
        assert(a =~= b);
    } else {
        assert(a.contains(a[0]));
        assert(b.len() > 0);
        assert(b.contains(b[0]));
        let i = choose|i: int| 0 <= i < a.len() && a[i] == b[0];
        let j = choose|j: int| 0 <= j < b.len() && b[j] == a[0];
        if i > 0 && j > 0 {
            assert(edge_lt(a[0], a[i]));
            assert(edge_lt(b[0], b[j]));
        }
        if i > 0 && j == 0 {
            assert(edge_lt(a[0], a[i]));
        }
        if i == 0 && j > 0 {
            assert(edge_lt(b[0], b[j]));
        }
        assert(a[0] == b[0]);
        let a1 = a.drop_first();
        let b1 = b.drop_first();
        assert forall|x: ShapeEdge| a1.contains(x) <==> b1.contains(x) by {
            if a1.contains(x) {
                let k = choose|k: int| 0 <= k < a1.len() && a1[k] == x;
                assert(a[k + 1] == x);
                assert(edge_lt(a[0], a[k + 1]));
                assert(a.contains(x));
                let m = choose|m: int| 0 <= m < b.len() && b[m] == x;
                assert(m != 0);
                assert(b1[m - 1] == x);
            }
            if b1.contains(x) {
                let k = choose|k: int| 0 <= k < b1.len() && b1[k] == x;
                assert(b[k + 1] == x);
                assert(edge_lt(b[0], b[k + 1]));
                assert(b.contains(x));
                let m = choose|m: int| 0 <= m < a.len() && a[m] == x;
                assert(m != 0);
                assert(a1[m - 1] == x);
            }
        }
        lemma_sorted_same_edges(a1, b1);
        assert(a =~= seq![a[0]] + a1);
        assert(b =~= seq![b[0]] + b1);
    }
}

/// Two shapes built from raw parts are equal exactly when the inputs and
/// the outputs are equal as sequences and the edges as sets: the order in
/// which the edges were given never matters.
pub proof fn lemma_from_raw_equal(
    inputs1: Seq<(ArgIdx, usize)>,
    outputs1: Seq<(ArgIdxOrResult, usize)>,
    edges1: Seq<((ArgIdx, usize), (ArgIdxOrResult, usize))>,
    s1: FunctionShape,
    inputs2: Seq<(ArgIdx, usize)>,
    outputs2: Seq<(ArgIdxOrResult, usize)>,
    edges2: Seq<((ArgIdx, usize), (ArgIdxOrResult, usize))>,
    s2: FunctionShape,
)
    requires
        built_from_raw(inputs1, outputs1, edges1, s1),
        built_from_raw(inputs2, outputs2, edges2, s2),
    ensures
        (s1.inputs@ == s2.inputs@ && s1.outputs@ == s2.outputs@ && s1.edges@ == s2.edges@)
            <==> (inputs1 == inputs2 && outputs1 == outputs2 && edges1.to_set() == edges2.to_set()),
{
    if inputs1 == inputs2 && outputs1 == outputs2 && edges1.to_set() == edges2.to_set() {
        assert forall|x: ShapeEdge| s1.edges@.contains(x) <==> s2.edges@.contains(x) by {
            if s1.edges@.contains(x) {
                let k = choose|k: int| 0 <= k < edges1.len() && is_raw_edge(x, #[trigger] edges1[k]);
                assert(edges1.to_set().contains(edges1[k]));
                assert(edges2.to_set().contains(edges1[k]));
                let m = choose|m: int| 0 <= m < edges2.len() && edges2[m] == edges1[k];
                assert(is_raw_edge(x, edges2[m]));
            }
            if s2.edges@.contains(x) {
                let k = choose|k: int| 0 <= k < edges2.len() && is_raw_edge(x, #[trigger] edges2[k]);
                assert(edges2.to_set().contains(edges2[k]));
                assert(edges1.to_set().contains(edges2[k]));
                let m = choose|m: int| 0 <= m < edges1.len() && edges1[m] == edges2[k];
                assert(is_raw_edge(x, edges1[m]));
            }
        }
        lemma_sorted_same_edges(s1.edges@, s2.edges@);
    }
    if s1.inputs@ == s2.inputs@ && s1.outputs@ == s2.outputs@ && s1.edges@ == s2.edges@ {
        assert(raw_inputs(inputs1).len() == inputs1.len());
        assert(raw_inputs(inputs2).len() == inputs2.len());
        assert forall|k: int| 0 <= k < inputs1.len() implies inputs1[k] == inputs2[k] by {
            assert(raw_inputs(inputs1)[k] == raw_input(inputs1[k]));
            assert(raw_inputs(inputs2)[k] == raw_input(inputs2[k]));
        }
        assert(inputs1 =~= inputs2);
        assert(raw_outputs(outputs1).len() == outputs1.len());
        assert(raw_outputs(outputs2).len() == outputs2.len());
        assert forall|k: int| 0 <= k < outputs1.len() implies outputs1[k] == outputs2[k] by {
            assert(raw_outputs(outputs1)[k] == raw_output(outputs1[k]));
            assert(raw_outputs(outputs2)[k] == raw_output(outputs2[k]));
        }
        assert(outputs1 =~= outputs2);
        assert forall|r: ((ArgIdx, usize), (ArgIdxOrResult, usize))| edges1.to_set().contains(r) <==> edges2.to_set().contains(r) by {
            let e = AbstractionBlockEdge { input: raw_input(r.0), output: raw_output(r.1) };
            if edges1.to_set().contains(r) {
                let k = choose|k: int| 0 <= k < edges1.len() && edges1[k] == r;
                assert(is_raw_edge(e, edges1[k]));
                assert(s1.edges@.contains(e));
                let m = choose|m: int| 0 <= m < edges2.len() && is_raw_edge(e, #[trigger] edges2[m]);
                assert(edges2[m] == r);
                assert(edges2.contains(r));
            }
            if edges2.to_set().contains(r) {
                let k = choose|k: int| 0 <= k < edges2.len() && edges2[k] == r;
                assert(is_raw_edge(e, edges2[k]));
                assert(s2.edges@.contains(e));
                let m = choose|m: int| 0 <= m < edges1.len() && is_raw_edge(e, #[trigger] edges1[m]);
                assert(edges1[m] == r);
                assert(edges1.contains(r));
            }
        }
        assert(edges1.to_set() =~= edges2.to_set());
    }
}

/// A function's shape: its input and output lifetime projections, and the
/// edges from inputs to outputs, sorted and without repetition.
#[derive(Debug)]
pub struct FunctionShape {
    pub inputs: Vec<FunctionShapeInput>,
    pub outputs: Vec<FunctionShapeOutput>,
    pub edges: Vec<ShapeEdge>,
}

impl FunctionShape {
    /// The shape's edges are in order and distinct.
    pub open spec fn wf(&self) -> bool {
        edges_sorted(self.edges@)
    }

    /// The shape with the given inputs, outputs and edges, each given as an
    /// argument (or result) and a region index.
    pub fn from_raw(
        inputs: Vec<(ArgIdx, usize)>,
        outputs: Vec<(ArgIdxOrResult, usize)>,
        edges: Vec<((ArgIdx, usize), (ArgIdxOrResult, usize))>,
    ) -> (s: FunctionShape)
        ensures
            s.wf(),
            s.inputs@.len() == inputs@.len(),
            forall|i: int| 0 <= i < inputs@.len() ==> #[trigger] s.inputs@[i] == raw_input(inputs@[i]),
            s.outputs@.len() == outputs@.len(),
            forall|i: int| 0 <= i < outputs@.len() ==> #[trigger] s.outputs@[i] == raw_output(outputs@[i]),
            forall|e: ShapeEdge| s.edges@.contains(e) <==> exists|k: int| 0 <= k < edges@.len()
                && is_raw_edge(e, edges@[k]),
            built_from_raw(inputs@, outputs@, edges@, s),
    {
        let mut ins: Vec<FunctionShapeInput> = Vec::new();
        let mut i: usize = 0;
        while i < inputs.len()
            invariant
                i <= inputs@.len(),
                ins@.len() == i,
                forall|j: int| 0 <= j < i ==> #[trigger] ins@[j] == raw_input(inputs@[j]),
            decreases inputs.len() - i,
        {
            ins.push(FunctionShapeInput { base: inputs[i].0, region_idx: RegionIdx(inputs[i].1) });
            i = i + 1;
        }
        let mut outs: Vec<FunctionShapeNode> = Vec::new();
        let mut i: usize = 0;
        while i < outputs.len()
            invariant
                i <= outputs@.len(),
                outs@.len() == i,
                forall|j: int| 0 <= j < i ==> #[trigger] outs@[j] == raw_output(outputs@[j]),
            decreases outputs.len() - i,
        {
            outs.push(FunctionShapeNode { base: outputs[i].0, region_idx: RegionIdx(outputs[i].1) });
            i = i + 1;
        }
        let mut es: Vec<ShapeEdge> = Vec::new();
        let mut i: usize = 0;
        while i < edges.len()
            invariant
                i <= edges@.len(),
                edges_sorted(es@),
                forall|e: ShapeEdge| es@.contains(e) <==> exists|k: int| 0 <= k < i
                    && is_raw_edge(e, edges@[k]),
            decreases edges.len() - i,
        {
            let ((ib, ir), (ob, or)) = edges[i];
            let e = AbstractionBlockEdge {
                input: FunctionShapeInput { base: ib, region_idx: RegionIdx(ir) },
                output: FunctionShapeNode { base: ob, region_idx: RegionIdx(or) },
            };
            insert_edge(&mut es, e);
            proof {
                assert forall|x: ShapeEdge| es@.contains(x) <==> exists|k: int| 0 <= k < i + 1
                    && is_raw_edge(x, edges@[k]) by {
                    if x == e {
                        assert(is_raw_edge(x, edges@[i as int]));
                    }
                    if exists|k: int| 0 <= k < i + 1
                        && is_raw_edge(x, edges@[k]) {
                        let k = choose|k: int| 0 <= k < i + 1
                            && is_raw_edge(x, edges@[k]);
                        if k == i {
                            assert(x == e);
                        }
                    }
                }
            }
            i = i + 1;
        }
        assert(ins@ =~= raw_inputs(inputs@));
        assert(outs@ =~= raw_outputs(outputs@));
        FunctionShape { inputs: ins, outputs: outs, edges: es }
    }

    /// The edges of the shape, in order.
    pub fn edges(&self) -> (v: Vec<ShapeEdge>)
        ensures
            v@ == self.edges@,
    {
        let mut v: Vec<ShapeEdge> = Vec::new();
        let mut i: usize = 0;
        while i < self.edges.len()
            invariant
                i <= self.edges@.len(),
                v@ == self.edges@.subrange(0, i as int),
            decreases self.edges.len() - i,
        {
            v.push(self.edges[i].dup_edge());
            i = i + 1;
            assert(v@ =~= self.edges@.subrange(0, i as int));
        }
        v
    }

    /// The inputs and the outputs of the shape.
    pub fn take_inputs_and_outputs(self) -> (r: (Vec<FunctionShapeInput>, Vec<FunctionShapeOutput>))
        ensures
            r.0@ == self.inputs@,
            r.1@ == self.outputs@,
    {
        (self.inputs, self.outputs)
    }

    /// Whether every edge of this shape is an edge of `other`.
    pub fn is_specialization_of(&self, other: &FunctionShape) -> (b: bool)
        ensures
            b == (forall|e: ShapeEdge| self.edges@.contains(e) ==> other.edges@.contains(e)),
    {
        let mut i: usize = 0;
        while i < self.edges.len()
            invariant
                i <= self.edges@.len(),
                forall|k: int| 0 <= k < i ==> other.edges@.contains(#[trigger] self.edges@[k]),
            decreases self.edges.len() - i,
        {
            let mut found = false;
            let mut j: usize = 0;
            while j < other.edges.len()
                invariant
                    j <= other.edges@.len(),
                    i < self.edges@.len(),
                    found ==> other.edges@.contains(self.edges@[i as int]),
                    !found ==> forall|q: int| 0 <= q < j ==> other.edges@[q] != self.edges@[i as int],
                decreases other.edges.len() - j,
            {
                if other.edges[j].input == self.edges[i].input && other.edges[j].output == self.edges[i].output {
                    assert(other.edges@[j as int] == self.edges@[i as int]);
                    found = true;
                }
                j = j + 1;
            }
            if !found {
                assert(!other.edges@.contains(self.edges@[i as int]));
                return false;
            }
            i = i + 1;
        }
        true
    }

    /// Couples the shape's edges into hyperedges; within each hyperedge the
    /// inputs, and the outputs, come in the order of their first appearance
    /// among the shape's (sorted) edges.
    pub fn coupled_edges(&self) -> (r: FunctionShapeCoupledEdges)
        ensures
            exists|comp: Seq<int>| is_coupling(self.edges@, r.0@, comp),
            forall|k: int| 0 <= k < r.0@.len() ==> in_first_occurrence_order(self.edges@, #[trigger] r.0@[k]),
    {
        CoupledEdgesData::new(&self.edges)
    }
}

/// The hyperedges obtained by coupling a function shape.
pub type FunctionShapeCoupledEdges = CoupledEdgesData<FunctionShapeInput, FunctionShapeOutput>;

/// Some texts separated by commas.
pub open spec fn comma_separated(ts: Seq<Seq<char>>) -> Seq<char>
    decreases ts.len(),
{
    if ts.len() == 0 {
        Seq::empty()
    } else if ts.len() == 1 {
        ts[0]
    } else {
        comma_separated(ts.drop_last()) + ", "@ + ts.last()
    }
}

/// How a shape input is written: `Arg(i)|r`.
pub open spec fn shape_input_text(i: FunctionShapeInput) -> Seq<char> {
    "Arg("@ + decimal(i.base.0 as nat) + ")|"@ + decimal(i.region_idx.0 as nat)
}

/// How a shape output is written: `Arg(i)|r` or `Result|r`.
pub open spec fn shape_output_text(o: FunctionShapeNode) -> Seq<char> {
    match o.base {
        ArgIdxOrResult::Argument(a) => "Arg("@ + decimal(a.0 as nat) + ")|"@ + decimal(o.region_idx.0 as nat),
        ArgIdxOrResult::Result => "Result|"@ + decimal(o.region_idx.0 as nat),
    }
}

/// How a shape edge is written: its input, an arrow and its output.
pub open spec fn shape_edge_text(e: ShapeEdge) -> Seq<char> {
    shape_input_text(e.input) + " -> "@ + shape_output_text(e.output)
}

/// How a function shape is written: its inputs, outputs and edges, each a
/// bracketed list on a line of its own.
pub open spec fn shape_text(s: FunctionShape) -> Seq<char> {
    "Inputs: ["@ + comma_separated(s.inputs@.map_values(|i: FunctionShapeInput| shape_input_text(i)))
        + "]\nOutputs: ["@ + comma_separated(s.outputs@.map_values(|o: FunctionShapeNode| shape_output_text(o)))
        + "]\nEdges: ["@ + comma_separated(s.edges@.map_values(|e: ShapeEdge| shape_edge_text(e))) + "]"@
}

fn push_shape_input(s: &mut String, i: FunctionShapeInput)
    ensures
        final(s)@ == old(s)@ + shape_input_text(i),
{
    push_str(s, "Arg(");
    push_decimal(s, i.base.0);
    push_str(s, ")|");
    push_decimal(s, i.region_idx.0);
    proof {
        assert(final(s)@ =~= old(s)@ + shape_input_text(i));
    }
}

fn push_shape_output(s: &mut String, o: FunctionShapeNode)
    ensures
        final(s)@ == old(s)@ + shape_output_text(o),
{
    match o.base {
        ArgIdxOrResult::Argument(a) => {
            push_str(s, "Arg(");
            push_decimal(s, a.0);
            push_str(s, ")|");
        },
        ArgIdxOrResult::Result => {
            push_str(s, "Result|");
        },
    }
    push_decimal(s, o.region_idx.0);
    proof {
        assert(final(s)@ =~= old(s)@ + shape_output_text(o));
    }
}

/// Extending a comma-separated list by one text.
proof fn lemma_comma_push(ts: Seq<Seq<char>>, t: Seq<char>)
    ensures
        comma_separated(ts.push(t)) == if ts.len() == 0 { t } else { comma_separated(ts) + ", "@ + t },
{
    assert(ts.push(t).drop_last() =~= ts);
}

impl FunctionShape {
    /// How the shape is written.
    pub fn to_display_string(&self) -> (r: String)
        ensures
            r@ == shape_text(*self),
    {
        let mut s = String::new();
        push_str(&mut s, "Inputs: [");
        let ghost s0 = s@;
        let mut i: usize = 0;
        while i < self.inputs.len()
            invariant
                i <= self.inputs@.len(),
                s@ == s0 + comma_separated(self.inputs@.subrange(0, i as int).map_values(|x: FunctionShapeInput| shape_input_text(x))),
            decreases self.inputs.len() - i,
        {
            proof {
                let f = |x: FunctionShapeInput| shape_input_text(x);
                assert(self.inputs@.subrange(0, i + 1).map_values(f) =~= self.inputs@.subrange(0, i as int).map_values(f).push(f(self.inputs@[i as int])));
                lemma_comma_push(self.inputs@.subrange(0, i as int).map_values(f), f(self.inputs@[i as int]));
            }
            if i > 0 {
                push_str(&mut s, ", ");
            }
            push_shape_input(&mut s, self.inputs[i]);
            i = i + 1;
            proof {
                assert(s@ =~= s0 + comma_separated(self.inputs@.subrange(0, i as int).map_values(|x: FunctionShapeInput| shape_input_text(x))));
            }
        }
        proof {
            assert(self.inputs@.subrange(0, i as int) =~= self.inputs@);
        }
        push_str(&mut s, "]\nOutputs: [");
        let ghost s1 = s@;
        let mut j: usize = 0;
        while j < self.outputs.len()
            invariant
                j <= self.outputs@.len(),
                s@ == s1 + comma_separated(self.outputs@.subrange(0, j as int).map_values(|x: FunctionShapeNode| shape_output_text(x))),
            decreases self.outputs.len() - j,
        {
            proof {
                let f = |x: FunctionShapeNode| shape_output_text(x);
                assert(self.outputs@.subrange(0, j + 1).map_values(f) =~= self.outputs@.subrange(0, j as int).map_values(f).push(f(self.outputs@[j as int])));
                lemma_comma_push(self.outputs@.subrange(0, j as int).map_values(f), f(self.outputs@[j as int]));
            }
            if j > 0 {
                push_str(&mut s, ", ");
            }
            push_shape_output(&mut s, self.outputs[j]);
            j = j + 1;
            proof {
                assert(s@ =~= s1 + comma_separated(self.outputs@.subrange(0, j as int).map_values(|x: FunctionShapeNode| shape_output_text(x))));
            }
        }
        proof {
            assert(self.outputs@.subrange(0, j as int) =~= self.outputs@);
        }
        push_str(&mut s, "]\nEdges: [");
        let ghost s2 = s@;
        let mut k: usize = 0;
        while k < self.edges.len()
            invariant
                k <= self.edges@.len(),
                s@ == s2 + comma_separated(self.edges@.subrange(0, k as int).map_values(|x: ShapeEdge| shape_edge_text(x))),
            decreases self.edges.len() - k,
        {
            proof {
                let f = |x: ShapeEdge| shape_edge_text(x);
                assert(self.edges@.subrange(0, k + 1).map_values(f) =~= self.edges@.subrange(0, k as int).map_values(f).push(f(self.edges@[k as int])));
                lemma_comma_push(self.edges@.subrange(0, k as int).map_values(f), f(self.edges@[k as int]));
            }
            if k > 0 {
                push_str(&mut s, ", ");
            }
            let e = &self.edges[k];
            push_shape_input(&mut s, e.input);
            push_str(&mut s, " -> ");
            push_shape_output(&mut s, e.output);
            k = k + 1;
            proof {
                assert(s@ =~= s2 + comma_separated(self.edges@.subrange(0, k as int).map_values(|x: ShapeEdge| shape_edge_text(x))));
            }
        }
        proof {
            assert(self.edges@.subrange(0, k as int) =~= self.edges@);
        }
        push_str(&mut s, "]");
        proof {
            assert(s@ =~= shape_text(*self));
        }
        s
    }
}

} // verus!
