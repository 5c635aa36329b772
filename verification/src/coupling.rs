//! The coupling algorithm: abstraction edges that share an input or an output
//! are merged, transitively, into one hyperedge.
use vstd::prelude::*;
use crate::unique::{add_absent, lemma_add_absent_concat, lemma_add_absent_single};
use crate::uf::{uf_find, uf_new, uf_roots, uf_union, roots_wf};

verus! {

/// Values that the coupling algorithm can compare and copy.
pub trait CouplingNode: Sized {
    /// Whether the two values are equal.
    fn same(&self, other: &Self) -> (b: bool)
        ensures
            b == (*self == *other);

    /// A copy of the value.
    fn dup(&self) -> (r: Self)
        ensures
            r == *self;
}

/// An edge of a function or loop abstraction: `input` is blocked by `output`.
#[derive(Debug)]
pub struct AbstractionBlockEdge<Input, Output> {
    pub input: Input,
    pub output: Output,
}

impl<Input: CouplingNode, Output: CouplingNode> AbstractionBlockEdge<Input, Output> {
    /// The edge from `input` to `output`.
    pub fn new(input: Input, output: Output) -> (e: Self)
        ensures
            e.input == input,
            e.output == output,
    {
        AbstractionBlockEdge { input, output }
    }

    /// The output (blocking) node of the edge.
    pub fn output(&self) -> (o: Output)
        ensures
            o == self.output,
    {
        self.output.dup()
    }

    /// The input (blocked) node of the edge.
    pub fn input(&self) -> (i: Input)
        ensures
            i == self.input,
    {
        self.input.dup()
    }

    /// The hyperedge with this edge's input and output alone.
    pub fn to_singleton_hyper_edge(&self) -> (h: HyperEdge<Input, Output>)
        ensures
            h.inputs@ == seq![self.input],
            h.outputs@ == seq![self.output],
    {
        HyperEdge { inputs: vec![self.input.dup()], outputs: vec![self.output.dup()] }
    }

    /// Whether two edges are equal.
    pub fn same_edge(&self, other: &Self) -> (b: bool)
        ensures
            b == (self.input == other.input && self.output == other.output),
    {
        self.input.same(&other.input) && self.output.same(&other.output)
    }

    /// A copy of the edge.
    pub fn dup_edge(&self) -> (r: Self)
        ensures
            r.input == self.input,
            r.output == self.output,
    {
        AbstractionBlockEdge { input: self.input.dup(), output: self.output.dup() }
    }
}

/// A hyperedge: all `inputs` are blocked by all `outputs` together.
#[derive(Debug)]
pub struct HyperEdge<InputNode, OutputNode> {
    pub inputs: Vec<InputNode>,
    pub outputs: Vec<OutputNode>,
}

impl<InputNode: CouplingNode, OutputNode: CouplingNode> HyperEdge<InputNode, OutputNode> {
    /// The hyperedge with the given inputs and outputs.
    pub fn new(inputs: Vec<InputNode>, outputs: Vec<OutputNode>) -> (h: Self)
        ensures
            h.inputs@ == inputs@,
            h.outputs@ == outputs@,
    {
        HyperEdge { inputs, outputs }
    }

    /// The inputs of the hyperedge.
    pub fn inputs(&self) -> (v: &Vec<InputNode>)
        ensures
            v@ == self.inputs@,
    {
        &self.inputs
    }

    /// The outputs of the hyperedge.
    pub fn outputs(&self) -> (v: &Vec<OutputNode>)
        ensures
            v@ == self.outputs@,
    {
        &self.outputs
    }

    /// The inputs and the outputs.
    pub fn into_tuple(self) -> (r: (Vec<InputNode>, Vec<OutputNode>))
        ensures
            r.0@ == self.inputs@,
            r.1@ == self.outputs@,
    {
        (self.inputs, self.outputs)
    }

    /// Applies `f` to the inputs and the outputs.
    pub fn map_into<T, F: FnOnce(Vec<InputNode>, Vec<OutputNode>) -> T>(self, f: F) -> (r: T)
        requires
            f.requires((self.inputs, self.outputs)),
        ensures
            f.ensures((self.inputs, self.outputs), r),
    {
        f(self.inputs, self.outputs)
    }

    /// The single input and output, if the hyperedge has exactly one of each.
    pub fn try_to_singleton_edge(&self) -> (r: Option<(InputNode, OutputNode)>)
        ensures
            (self.inputs@.len() == 1 && self.outputs@.len() == 1) ==>
                r == Some((self.inputs@[0], self.outputs@[0])),
            !(self.inputs@.len() == 1 && self.outputs@.len() == 1) ==> r.is_none(),
    {
        if self.inputs.len() == 1 && self.outputs.len() == 1 {
            Some((self.inputs[0].dup(), self.outputs[0].dup()))
        } else {
            None
        }
    }
}

/// The inputs of `h` come in the order in which they first occur as inputs
/// of `edges`, and its outputs in the order in which they first occur as
/// outputs: each occurrence of a later one comes after an occurrence of an
/// earlier one.
pub open spec fn in_first_occurrence_order<I, O>(edges: Seq<AbstractionBlockEdge<I, O>>, h: HyperEdge<I, O>) -> bool {
    &&& forall|m1: int, m2: int, j2: int| #![trigger h.inputs@[m1], h.inputs@[m2], edges[j2]]
        0 <= m1 < m2 < h.inputs@.len() && 0 <= j2 < edges.len() && edges[j2].input == h.inputs@[m2]
        ==> input_occurs_before(edges, h.inputs@[m1], j2)
    &&& forall|m1: int, m2: int, j2: int| #![trigger h.outputs@[m1], h.outputs@[m2], edges[j2]]
        0 <= m1 < m2 < h.outputs@.len() && 0 <= j2 < edges.len() && edges[j2].output == h.outputs@[m2]
        ==> output_occurs_before(edges, h.outputs@[m1], j2)
}

/// Some edge before `j` has input `x`.
pub open spec fn input_occurs_before<I, O>(edges: Seq<AbstractionBlockEdge<I, O>>, x: I, j: int) -> bool {
    exists|j1: int| 0 <= j1 < j && #[trigger] edges[j1].input == x
}

/// Some edge before `j` has output `x`.
pub open spec fn output_occurs_before<I, O>(edges: Seq<AbstractionBlockEdge<I, O>>, x: O, j: int) -> bool {
    exists|j1: int| 0 <= j1 < j && #[trigger] edges[j1].output == x
}

/// A hyperedge whose inputs and outputs are given, in order, by edges that
/// are their first occurrences, at increasing positions, lists them in the
/// order of first occurrence.
proof fn lemma_first_occurrence_order<I, O>(es: Seq<AbstractionBlockEdge<I, O>>, h: HyperEdge<I, O>, wi: Seq<int>, wo: Seq<int>)
    requires
        wi.len() == h.inputs@.len(),
        wo.len() == h.outputs@.len(),
        forall|m: int| 0 <= m < wi.len() ==> 0 <= #[trigger] wi[m] < es.len() && es[wi[m]].input == h.inputs@[m]
            && first_input(es, wi[m]),
        forall|m: int| 0 <= m < wo.len() ==> 0 <= #[trigger] wo[m] < es.len() && es[wo[m]].output == h.outputs@[m]
            && first_output(es, wo[m]),
        forall|m1: int, m2: int| 0 <= m1 < m2 < wi.len() ==> #[trigger] wi[m1] < #[trigger] wi[m2],
        forall|m1: int, m2: int| 0 <= m1 < m2 < wo.len() ==> #[trigger] wo[m1] < #[trigger] wo[m2],
    ensures
        in_first_occurrence_order(es, h),
{
    assert forall|m1: int, m2: int, j2: int| #![trigger h.inputs@[m1], h.inputs@[m2], es[j2]]
        0 <= m1 < m2 < h.inputs@.len() && 0 <= j2 < es.len() && es[j2].input == h.inputs@[m2]
        implies input_occurs_before(es, h.inputs@[m1], j2) by {
        let w1 = wi[m1];
        let w2 = wi[m2];
        assert(w1 < w2);
        if j2 < w2 {
            assert(es[j2].input != es[w2].input);
        }
        assert(es[w1].input == h.inputs@[m1]);
    }
    assert forall|m1: int, m2: int, j2: int| #![trigger h.outputs@[m1], h.outputs@[m2], es[j2]]
        0 <= m1 < m2 < h.outputs@.len() && 0 <= j2 < es.len() && es[j2].output == h.outputs@[m2]
        implies output_occurs_before(es, h.outputs@[m1], j2) by {
        let w1 = wo[m1];
        let w2 = wo[m2];
        assert(w1 < w2);
        if j2 < w2 {
            assert(es[j2].output != es[w2].output);
        }
        assert(es[w1].output == h.outputs@[m1]);
    }
}

/// No edge before `w` has the input of edge `w`.
pub open spec fn first_input<I, O>(edges: Seq<AbstractionBlockEdge<I, O>>, w: int) -> bool {
    forall|j: int| 0 <= j < w ==> edges[j].input != edges[w].input
}

/// No edge before `w` has the output of edge `w`.
pub open spec fn first_output<I, O>(edges: Seq<AbstractionBlockEdge<I, O>>, w: int) -> bool {
    forall|j: int| 0 <= j < w ==> edges[j].output != edges[w].output
}

/// Edges `i` and `j` share their input or their output.
pub open spec fn adjacent<I, O>(edges: Seq<AbstractionBlockEdge<I, O>>, i: int, j: int) -> bool {
    edges[i].input == edges[j].input || edges[i].output == edges[j].output
}

/// A labelling of edge indices under which adjacent edges get equal labels.
pub open spec fn respects<I, O>(edges: Seq<AbstractionBlockEdge<I, O>>, g: spec_fn(int) -> int) -> bool {
    forall|i: int, j: int|
        0 <= i < edges.len() && 0 <= j < edges.len() && #[trigger] adjacent(edges, i, j)
            ==> g(i) == g(j)
}

/// Edges `i` and `j` are connected through a chain of adjacent edges: every
/// labelling that respects adjacency gives them the same label.
pub open spec fn connected<I, O>(edges: Seq<AbstractionBlockEdge<I, O>>, i: int, j: int) -> bool {
    forall|g: spec_fn(int) -> int| #[trigger] respects(edges, g) ==> g(i) == g(j)
}

/// Some edge mapped to hyperedge `k` has input `x`.
pub open spec fn has_member_input<I, O>(edges: Seq<AbstractionBlockEdge<I, O>>, comp: Seq<int>, k: int, x: I) -> bool {
    exists|i: int| 0 <= i < edges.len() && comp[i] == k && edges[i].input == x
}

/// Some edge mapped to hyperedge `k` has output `x`.
pub open spec fn has_member_output<I, O>(edges: Seq<AbstractionBlockEdge<I, O>>, comp: Seq<int>, k: int, x: O) -> bool {
    exists|i: int| 0 <= i < edges.len() && comp[i] == k && edges[i].output == x
}

/// `hs` couples `edges`: `comp` maps each edge to a hyperedge; two edges map
/// to the same hyperedge exactly when they are connected; every hyperedge
/// receives an edge; and each hyperedge's inputs (outputs) are, without
/// repetition, exactly the inputs (outputs) of the edges mapped to it.
pub open spec fn is_coupling<I, O>(
    edges: Seq<AbstractionBlockEdge<I, O>>,
    hs: Seq<HyperEdge<I, O>>,
    comp: Seq<int>,
) -> bool {
    &&& comp.len() == edges.len()
    &&& forall|i: int| 0 <= i < edges.len() ==> 0 <= #[trigger] comp[i] < hs.len()
    &&& forall|i: int, j: int|
        0 <= i < edges.len() && 0 <= j < edges.len() ==>
            (#[trigger] comp[i] == #[trigger] comp[j] <==> connected(edges, i, j))
    &&& forall|k: int| 0 <= k < hs.len() ==> #[trigger] comp.contains(k)
    &&& forall|i: int| 0 <= i < edges.len() ==> {
        &&& hs[#[trigger] comp[i]].inputs@.contains(edges[i].input)
        &&& hs[comp[i]].outputs@.contains(edges[i].output)
    }
    &&& forall|k: int, m: int| 0 <= k < hs.len() && 0 <= m < hs[k].inputs@.len() ==>
        has_member_input(edges, comp, k, #[trigger] hs[k].inputs@[m])
    &&& forall|k: int, m: int| 0 <= k < hs.len() && 0 <= m < hs[k].outputs@.len() ==>
        has_member_output(edges, comp, k, #[trigger] hs[k].outputs@[m])
    &&& forall|k: int| 0 <= k < hs.len() ==> (#[trigger] hs[k]).inputs@.no_duplicates() && hs[k].outputs@.no_duplicates()
}

proof fn lemma_connected_refl<I, O>(edges: Seq<AbstractionBlockEdge<I, O>>, i: int)
    ensures
        connected(edges, i, i),
{
}

proof fn lemma_connected_sym<I, O>(edges: Seq<AbstractionBlockEdge<I, O>>, i: int, j: int)
    requires
        connected(edges, i, j),
    ensures
        connected(edges, j, i),
{
    assert forall|g: spec_fn(int) -> int| #[trigger] respects(edges, g) implies g(j) == g(i) by {
        assert(g(i) == g(j));
    }
}

proof fn lemma_connected_trans<I, O>(edges: Seq<AbstractionBlockEdge<I, O>>, i: int, j: int, k: int)
    requires
        connected(edges, i, j),
        connected(edges, j, k),
    ensures
        connected(edges, i, k),
{
    assert forall|g: spec_fn(int) -> int| #[trigger] respects(edges, g) implies g(i) == g(k) by {
        assert(g(i) == g(j));
        assert(g(j) == g(k));
    }
}

proof fn lemma_adjacent_connected<I, O>(edges: Seq<AbstractionBlockEdge<I, O>>, i: int, j: int)
    requires
        0 <= i < edges.len(),
        0 <= j < edges.len(),
        adjacent(edges, i, j),
    ensures
        connected(edges, i, j),
{
    assert forall|g: spec_fn(int) -> int| #[trigger] respects(edges, g) implies g(i) == g(j) by {
        assert(adjacent(edges, i, j));
    }
}

/// Equal roots imply connected edges.
pub open spec fn roots_sound<I, O>(edges: Seq<AbstractionBlockEdge<I, O>>, r: Seq<usize>) -> bool {
    forall|x: int, y: int|
        0 <= x < r.len() && 0 <= y < r.len() && #[trigger] r[x] == #[trigger] r[y]
            ==> connected(edges, x, y)
}

/// Adjacent edges among the first `n` have equal roots.
pub open spec fn roots_complete_upto<I, O>(edges: Seq<AbstractionBlockEdge<I, O>>, r: Seq<usize>, n: int) -> bool {
    forall|x: int, y: int| 0 <= x < n && 0 <= y < n && #[trigger] adjacent(edges, x, y) ==> r[x] == r[y]
}

/// What a union of two adjacent edges keeps: well-formed roots, soundness,
/// earlier equalities, and the two edges now share a root.
proof fn lemma_union_step<I, O>(
    edges: Seq<AbstractionBlockEdge<I, O>>,
    old_r: Seq<usize>,
    new_r: Seq<usize>,
    a: int,
    b: int,
    merged: bool,
)
    requires
        old_r.len() == edges.len(),
        0 <= a < old_r.len(),
        0 <= b < old_r.len(),
        adjacent(edges, a, b),
        roots_wf(old_r),
        roots_sound(edges, old_r),
        new_r.len() == old_r.len(),
        merged == (old_r[a] != old_r[b]),
        !merged ==> new_r == old_r,
        merged ==> (new_r[a] == old_r[a] || new_r[a] == old_r[b]),
        merged ==> forall|x: int| 0 <= x < old_r.len() ==>
            #[trigger] new_r[x] == (if old_r[x] == old_r[a] || old_r[x] == old_r[b] {
                new_r[a]
            } else {
                old_r[x]
            }),
    ensures
        roots_wf(new_r),
        roots_sound(edges, new_r),
        new_r[a] == new_r[b],
        forall|x: int, y: int|
            0 <= x < old_r.len() && 0 <= y < old_r.len() && old_r[x] == old_r[y]
                ==> #[trigger] new_r[x] == #[trigger] new_r[y],
{
    if merged {
        let rho = new_r[a];
        assert(new_r[b] == rho);
        assert forall|x: int| 0 <= x < new_r.len() implies #[trigger] new_r[x] < new_r.len()
            && new_r[new_r[x] as int] == new_r[x] by {
            let ox = old_r[x];
            if ox == old_r[a] || ox == old_r[b] {
                assert(old_r[rho as int] == rho);
                assert(new_r[rho as int] == rho);
            } else {
                assert(old_r[ox as int] == ox);
                assert(new_r[ox as int] == old_r[ox as int]);
            }
        }
        lemma_adjacent_connected(edges, a, b);
        assert forall|x: int, y: int|
            0 <= x < new_r.len() && 0 <= y < new_r.len() && #[trigger] new_r[x] == #[trigger] new_r[y]
                implies connected(edges, x, y) by {
            let in_x = old_r[x] == old_r[a] || old_r[x] == old_r[b];
            let in_y = old_r[y] == old_r[a] || old_r[y] == old_r[b];
            if in_x && in_y {
                if old_r[x] == old_r[a] {
                    assert(connected(edges, x, a));
                } else {
                    assert(connected(edges, x, b));
                    lemma_connected_sym(edges, a, b);
                    lemma_connected_trans(edges, x, b, a);
                }
                if old_r[y] == old_r[a] {
                    assert(old_r[a] == old_r[y]);
                    assert(connected(edges, a, y));
                } else {
                    assert(old_r[b] == old_r[y]);
                    assert(connected(edges, b, y));
                    lemma_connected_trans(edges, a, b, y);
                }
                lemma_connected_trans(edges, x, a, y);
            } else if !in_x && !in_y {
                assert(old_r[x] == old_r[y]);
            } else if in_x {
                assert(new_r[y] == old_r[y]);
                assert(old_r[old_r[y] as int] == old_r[y]);
            } else {
                assert(new_r[x] == old_r[x]);
                assert(old_r[old_r[x] as int] == old_r[x]);
            }
        }
    }
}

/// A set of hyperedges produced by coupling.
#[derive(Debug)]
pub struct CoupledEdgesData<InputNode, OutputNode>(pub Vec<HyperEdge<InputNode, OutputNode>>);

impl<InputNode: CouplingNode, OutputNode: CouplingNode> CoupledEdgesData<InputNode, OutputNode> {
    /// Couples the edges: builds one hyperedge per class of edges connected
    /// through shared inputs or shared outputs.
    #[verifier::rlimit(100)]
    #[verifier::spinoff_prover]
    pub fn new(edges: &Vec<AbstractionBlockEdge<InputNode, OutputNode>>) -> (r: Self)
        ensures
            exists|comp: Seq<int>| is_coupling(edges@, r.0@, comp),
            forall|k: int| 0 <= k < r.0@.len() ==> in_first_occurrence_order(edges@, #[trigger] r.0@[k]),
    {
        let n = edges.len();
        let ghost es = edges@;
        if n == 0 {
            let r = CoupledEdgesData(Vec::new());
            assert(is_coupling(es, r.0@, Seq::<int>::empty()));
            return r;
        }
        let mut uf = uf_new(n);
        proof {
            assert(roots_wf(uf_roots(uf)));
            assert forall|x: int, y: int|
                0 <= x < n && 0 <= y < n && #[trigger] uf_roots(uf)[x] == #[trigger] uf_roots(uf)[y]
                    implies connected(es, x, y) by {
                assert(x == y);
                lemma_connected_refl(es, x);
            }
        }
        let mut idx: usize = 0;
        while idx < n
            invariant
                es == edges@,
                n == es.len(),
                idx <= n,
                uf_roots(uf).len() == n,
                roots_wf(uf_roots(uf)),
                roots_sound(es, uf_roots(uf)),
                roots_complete_upto(es, uf_roots(uf), idx as int),
            decreases n - idx,
        {
            // Join with an earlier edge that has the same input, if any.
            let mut j: usize = idx;
            let mut k: usize = 0;
            while k < idx
                invariant
                    es == edges@,
                    n == es.len(),
                    idx < n,
                    k <= idx,
                    j == idx || (j < idx && es[j as int].input == es[idx as int].input),
                    forall|q: int| 0 <= q < k && es[q].input == es[idx as int].input ==> j < idx,
                decreases idx - k,
            {
                if edges[k].input.same(&edges[idx].input) {
                    j = k;
                }
                k = k + 1;
            }
            if j < idx {
                let ghost old_r = uf_roots(uf);
                let merged = uf_union(&mut uf, idx, j);
                proof {
                    lemma_union_step(es, old_r, uf_roots(uf), idx as int, j as int, merged);
                }
            }
            // Join with an earlier edge that has the same output, if any.
            let mut j2: usize = idx;
            let mut k2: usize = 0;
            while k2 < idx
                invariant
                    es == edges@,
                    n == es.len(),
                    idx < n,
                    k2 <= idx,
                    j2 == idx || (j2 < idx && es[j2 as int].output == es[idx as int].output),
                    forall|q: int| 0 <= q < k2 && es[q].output == es[idx as int].output ==> j2 < idx,
                decreases idx - k2,
            {
                if edges[k2].output.same(&edges[idx].output) {
                    j2 = k2;
                }
                k2 = k2 + 1;
            }
            let ghost mid_r = uf_roots(uf);
            if j2 < idx {
                let merged2 = uf_union(&mut uf, idx, j2);
                proof {
                    lemma_union_step(es, mid_r, uf_roots(uf), idx as int, j2 as int, merged2);
                }
            }
            proof {
                let r = uf_roots(uf);
                assert forall|x: int, y: int|
                    0 <= x < idx + 1 && 0 <= y < idx + 1 && #[trigger] adjacent(es, x, y)
                        implies r[x] == r[y] by {
                    if x < idx && y < idx {
                    } else if x == idx && y == idx {
                    } else {
                        let o = if x == idx { y } else { x };
                        assert(o < idx);
                        if es[o].input == es[idx as int].input {
                            assert(j < idx);
                            assert(adjacent(es, o, j as int));
                        } else {
                            assert(es[o].output == es[idx as int].output);
                            assert(j2 < idx);
                            assert(adjacent(es, o, j2 as int));
                        }
                    }
                }
            }
            idx = idx + 1;
        }
        // Group the edges by their roots.
        let ghost r = uf_roots(uf);
        let mut group_roots: Vec<usize> = Vec::new();
        let mut groups: Vec<HyperEdge<InputNode, OutputNode>> = Vec::new();
        let ghost mut comp: Seq<int> = Seq::empty();
        let ghost mut member: Seq<int> = Seq::empty();
        let ghost mut win: Seq<Seq<int>> = Seq::empty();
        let ghost mut wout: Seq<Seq<int>> = Seq::empty();
        let mut i: usize = 0;
        while i < n
            invariant
                es == edges@,
                n == es.len(),
                i <= n,
                uf_roots(uf) == r,
                r.len() == n,
                roots_wf(r),
                roots_sound(es, r),
                roots_complete_upto(es, r, n as int),
                group_roots@.len() == groups@.len(),
                member.len() == groups@.len(),
                win.len() == groups@.len(),
                wout.len() == groups@.len(),
                comp.len() == i,
                forall|a: int, b: int| 0 <= a < group_roots@.len() && 0 <= b < group_roots@.len() && a != b
                    ==> group_roots@[a] != group_roots@[b],
                forall|x: int| 0 <= x < i ==> 0 <= #[trigger] comp[x] < groups@.len()
                    && group_roots@[comp[x]] == r[x],
                forall|g: int| 0 <= g < groups@.len() ==> 0 <= #[trigger] member[g] < i && comp[member[g]] == g,
                forall|x: int| 0 <= x < i ==> {
                    &&& groups@[#[trigger] comp[x]].inputs@.contains(es[x].input)
                    &&& groups@[comp[x]].outputs@.contains(es[x].output)
                },
                forall|g: int| 0 <= g < groups@.len() ==> {
                    &&& (#[trigger] win[g]).len() == groups@[g].inputs@.len()
                    &&& wout[g].len() == groups@[g].outputs@.len()
                    &&& groups@[g].inputs@.no_duplicates()
                    &&& groups@[g].outputs@.no_duplicates()
                },
                forall|g: int, m: int| 0 <= g < groups@.len() && 0 <= m < groups@[g].inputs@.len() ==> {
                    &&& 0 <= #[trigger] win[g][m] < i
                    &&& comp[win[g][m]] == g
                    &&& es[win[g][m]].input == groups@[g].inputs@[m]
                },
                forall|g: int, m: int| 0 <= g < groups@.len() && 0 <= m < groups@[g].outputs@.len() ==> {
                    &&& 0 <= #[trigger] wout[g][m] < i
                    &&& comp[wout[g][m]] == g
                    &&& es[wout[g][m]].output == groups@[g].outputs@[m]
                },
                forall|g: int, m: int| 0 <= g < groups@.len() && 0 <= m < groups@[g].inputs@.len()
                    ==> first_input(es, #[trigger] win[g][m]),
                forall|g: int, m: int| 0 <= g < groups@.len() && 0 <= m < groups@[g].outputs@.len()
                    ==> first_output(es, #[trigger] wout[g][m]),
                forall|g: int, m1: int, m2: int| #![trigger win[g][m1], win[g][m2]]
                    0 <= g < groups@.len() && 0 <= m1 < m2 < groups@[g].inputs@.len() ==> win[g][m1] < win[g][m2],
                forall|g: int, m1: int, m2: int| #![trigger wout[g][m1], wout[g][m2]]
                    0 <= g < groups@.len() && 0 <= m1 < m2 < groups@[g].outputs@.len() ==> wout[g][m1] < wout[g][m2],
            decreases n - i,
        {
            let root = uf_find(&mut uf, i);
            let mut g: usize = 0;
            while g < group_roots.len() && group_roots[g] != root
                invariant
                    g <= group_roots@.len(),
                    forall|b: int| 0 <= b < g ==> group_roots@[b] != root,
                decreases group_roots.len() - g,
            {
                g = g + 1;
            }
            let ghost old_win = win;
            let ghost old_groups = groups@;
            if g == group_roots.len() {
                let h = HyperEdge { inputs: vec![edges[i].input.dup()], outputs: vec![edges[i].output.dup()] };
                group_roots.push(root);
                groups.push(h);
                proof {
                    assert(h.inputs@.no_duplicates());
                    assert(h.outputs@.no_duplicates());
                    comp = comp.push(g as int);
                    member = member.push(i as int);
                    win = win.push(seq![i as int]);
                    wout = wout.push(seq![i as int]);
                    assert(first_input(es, i as int) && first_output(es, i as int)) by {
                    assert forall|j: int| 0 <= j < i implies es[j].input != es[i as int].input
                        && es[j].output != es[i as int].output by {
                        if es[j].input == es[i as int].input || es[j].output == es[i as int].output {
                            assert(adjacent(es, j, i as int));
                            assert(r[j] == r[i as int]);
                            assert(group_roots@[comp[j]] == r[j]);
                            assert(comp[j] < g);
                        }
                    }
                    }
                    assert(h.inputs@.len() == 1);
                    assert(win[g as int].len() == 1);
                    assert(groups@[g as int].inputs@ == h.inputs@);
                    assert forall|g2: int| 0 <= g2 < groups@.len() implies {
                        &&& (#[trigger] win[g2]).len() == groups@[g2].inputs@.len()
                        &&& wout[g2].len() == groups@[g2].outputs@.len()
                        &&& groups@[g2].inputs@.no_duplicates()
                        &&& groups@[g2].outputs@.no_duplicates()
                    } by {
                        if g2 != g {
                            assert(win[g2] == old_win[g2]);
                            assert(groups@[g2] == old_groups[g2]);
                        }
                    }
                }
            } else {
                let mut h = groups.remove(g);
                let mut has_in = false;
                let mut m: usize = 0;
                while m < h.inputs.len()
                    invariant
                        has_in ==> h.inputs@.contains(es[i as int].input),
                        !has_in ==> forall|q: int| 0 <= q < m ==> h.inputs@[q] != es[i as int].input,
                        m <= h.inputs@.len(),
                        es == edges@,
                        n == es.len(),
                        i < n,
                    decreases h.inputs.len() - m,
                {
                    if h.inputs[m].same(&edges[i].input) {
                        has_in = true;
                    }
                    m = m + 1;
                }
                let ghost old_in = h.inputs@;
                if !has_in {
                    h.inputs.push(edges[i].input.dup());
                }
                let mut has_out = false;
                let mut m2: usize = 0;
                while m2 < h.outputs.len()
                    invariant
                        has_out ==> h.outputs@.contains(es[i as int].output),
                        !has_out ==> forall|q: int| 0 <= q < m2 ==> h.outputs@[q] != es[i as int].output,
                        m2 <= h.outputs@.len(),
                        es == edges@,
                        n == es.len(),
                        i < n,
                    decreases h.outputs.len() - m2,
                {
                    if h.outputs[m2].same(&edges[i].output) {
                        has_out = true;
                    }
                    m2 = m2 + 1;
                }
                let ghost old_out = h.outputs@;
                if !has_out {
                    h.outputs.push(edges[i].output.dup());
                }
                groups.insert(g, h);
                proof {
                    assert(groups@ == old_groups.update(g as int, h));
                    comp = comp.push(g as int);
                    let wi = if has_in { win[g as int] } else { win[g as int].push(i as int) };
                    let wo = if has_out { wout[g as int] } else { wout[g as int].push(i as int) };
                    assert(old_in == old_groups[g as int].inputs@);
                    assert(old_out == old_groups[g as int].outputs@);
                    win = win.update(g as int, wi);
                    wout = wout.update(g as int, wo);
                    assert(group_roots@[g as int] == root);
                    if !has_in {
                        assert(first_input(es, i as int)) by {
                        assert forall|j: int| 0 <= j < i implies es[j].input != es[i as int].input by {
                            if es[j].input == es[i as int].input {
                                assert(adjacent(es, j, i as int));
                                assert(r[j] == r[i as int]);
                                assert(group_roots@[comp[j]] == r[j]);
                                assert(comp[j] == g);
                                assert(old_groups[comp[j]].inputs@.contains(es[j].input));
                                let q = choose|q: int| 0 <= q < old_in.len() && old_in[q] == es[j].input;
                                assert(h.inputs@[q] == old_in[q]);
                            }
                        }
                        }
                    }
                    if !has_out {
                        assert(first_output(es, i as int)) by {
                        assert forall|j: int| 0 <= j < i implies es[j].output != es[i as int].output by {
                            if es[j].output == es[i as int].output {
                                assert(adjacent(es, j, i as int));
                                assert(r[j] == r[i as int]);
                                assert(group_roots@[comp[j]] == r[j]);
                                assert(comp[j] == g);
                                assert(old_groups[comp[j]].outputs@.contains(es[j].output));
                                let q = choose|q: int| 0 <= q < old_out.len() && old_out[q] == es[j].output;
                                assert(h.outputs@[q] == old_out[q]);
                            }
                        }
                        }
                    }
                    assert(win[g as int].len() == groups@[g as int].inputs@.len());
                    assert(wout[g as int].len() == groups@[g as int].outputs@.len());
                    assert(groups@[g as int].inputs@.no_duplicates());
                    assert(groups@[g as int].outputs@.no_duplicates());
                    assert forall|g2: int| 0 <= g2 < groups@.len() implies {
                        &&& (#[trigger] win[g2]).len() == groups@[g2].inputs@.len()
                        &&& wout[g2].len() == groups@[g2].outputs@.len()
                        &&& groups@[g2].inputs@.no_duplicates()
                        &&& groups@[g2].outputs@.no_duplicates()
                    } by {
                        if g2 != g {
                            assert(win[g2] == old_win[g2]);
                            assert(groups@[g2] == old_groups[g2]);
                        }
                    }

                    assert(old_in.no_duplicates());
                    assert(old_out.no_duplicates());
                    if !has_in {
                        assert(h.inputs@ == old_in.push(es[i as int].input));
                        assert(h.inputs@.no_duplicates()) by {
                            assert forall|a: int, b: int| 0 <= a < h.inputs@.len() && 0 <= b < h.inputs@.len() && a != b
                                implies h.inputs@[a] != h.inputs@[b] by {
                                if a < old_in.len() && b < old_in.len() {
                                    assert(old_in[a] != old_in[b]);
                                }
                            }
                        }
                    }
                    if !has_out {
                        assert(h.outputs@ == old_out.push(es[i as int].output));
                        assert(h.outputs@.no_duplicates()) by {
                            assert forall|a: int, b: int| 0 <= a < h.outputs@.len() && 0 <= b < h.outputs@.len() && a != b
                                implies h.outputs@[a] != h.outputs@[b] by {
                                if a < old_out.len() && b < old_out.len() {
                                    assert(old_out[a] != old_out[b]);
                                }
                            }
                        }
                    }
                    assert forall|x: int| 0 <= x < i implies
                        groups@[#[trigger] comp[x]].inputs@.contains(es[x].input)
                        && groups@[comp[x]].outputs@.contains(es[x].output) by {
                        if comp[x] == g {
                            let q = choose|q: int| 0 <= q < old_in.len() && old_in[q] == es[x].input;
                            assert(h.inputs@[q] == es[x].input);
                            let q2 = choose|q2: int| 0 <= q2 < old_out.len() && old_out[q2] == es[x].output;
                            assert(h.outputs@[q2] == es[x].output);
                        }
                    }
                    if !has_in {
                        assert(h.inputs@[old_in.len() as int] == es[i as int].input);
                    }
                    if !has_out {
                        assert(h.outputs@[old_out.len() as int] == es[i as int].output);
                    }
                }
            }
            assert(forall|g2: int| 0 <= g2 < groups@.len() ==> {
                &&& (#[trigger] win[g2]).len() == groups@[g2].inputs@.len()
                &&& wout[g2].len() == groups@[g2].outputs@.len()
                &&& groups@[g2].inputs@.no_duplicates()
                &&& groups@[g2].outputs@.no_duplicates()
            });
            i = i + 1;
        }
        proof {
            let hs = groups@;
            assert forall|x: int, y: int| 0 <= x < n && 0 <= y < n implies
                (#[trigger] comp[x] == #[trigger] comp[y] <==> connected(es, x, y)) by {
                if comp[x] == comp[y] {
                    assert(r[x] == r[y]);
                }
                if connected(es, x, y) {
                    let gr = |z: int| r[z] as int;
                    assert(respects(es, gr)) by {
                        assert forall|a: int, b: int|
                            0 <= a < es.len() && 0 <= b < es.len() && #[trigger] adjacent(es, a, b)
                                implies gr(a) == gr(b) by {
                            assert(r[a] == r[b]);
                        }
                    }
                    assert(gr(x) == gr(y));
                    if comp[x] != comp[y] {
                        assert(group_roots@[comp[x]] != group_roots@[comp[y]]);
                    }
                }
            }
            assert forall|k: int| 0 <= k < hs.len() implies #[trigger] comp.contains(k) by {
                assert(comp[member[k]] == k);
            }
            assert forall|k: int, m: int| 0 <= k < hs.len() && 0 <= m < hs[k].inputs@.len() implies
                has_member_input(es, comp, k, #[trigger] hs[k].inputs@[m]) by {
                let w = win[k][m];
                assert(comp[w] == k && es[w].input == hs[k].inputs@[m]);
            }
            assert forall|k: int, m: int| 0 <= k < hs.len() && 0 <= m < hs[k].outputs@.len() implies
                has_member_output(es, comp, k, #[trigger] hs[k].outputs@[m]) by {
                let w = wout[k][m];
                assert(comp[w] == k && es[w].output == hs[k].outputs@[m]);
            }
            assert forall|k: int| 0 <= k < hs.len() implies (#[trigger] hs[k]).inputs@.no_duplicates()
                && hs[k].outputs@.no_duplicates() by {
                assert(win[k].len() == hs[k].inputs@.len());
            }
            assert(is_coupling(es, hs, comp));
            assert forall|k: int| 0 <= k < hs.len() implies in_first_occurrence_order(es, #[trigger] hs[k]) by {
                lemma_first_occurrence_order(es, hs[k], win[k], wout[k]);
            }
        }
        let r = CoupledEdgesData(groups);
        assert(is_coupling(edges@, r.0@, comp));
        r
    }

    /// The number of hyperedges.
    pub fn len(&self) -> (n: usize)
        ensures
            n == self.0@.len(),
    {
        self.0.len()
    }

    /// Whether there are no hyperedges.
    pub fn is_empty(&self) -> (b: bool)
        ensures
            b == (self.0@.len() == 0),
    {
        self.0.len() == 0
    }

    /// The hyperedges.
    pub fn into_edges(self) -> (v: Vec<HyperEdge<InputNode, OutputNode>>)
        ensures
            v@ == self.0@,
    {
        self.0
    }

    /// The hyperedges as a set: each hyperedge once, by its inputs and
    /// outputs, in the order of first occurrence.
    pub fn into_hash_set(self) -> (v: Vec<HyperEdge<InputNode, OutputNode>>)
        ensures
            v@.map_values(|h: HyperEdge<InputNode, OutputNode>| hyper_view(h))
                == add_absent(Seq::empty(), self.0@.map_values(|h: HyperEdge<InputNode, OutputNode>| hyper_view(h))),
    {
        let ghost views = self.0@.map_values(|h: HyperEdge<InputNode, OutputNode>| hyper_view(h));
        let mut out: Vec<HyperEdge<InputNode, OutputNode>> = Vec::new();
        let mut i: usize = 0;
        while i < self.0.len()
            invariant
                i <= self.0@.len(),
                views == self.0@.map_values(|h: HyperEdge<InputNode, OutputNode>| hyper_view(h)),
                out@.map_values(|h: HyperEdge<InputNode, OutputNode>| hyper_view(h))
                    == add_absent(Seq::empty(), views.subrange(0, i as int)),
            decreases self.0.len() - i,
        {
            let ghost prev = out@.map_values(|h: HyperEdge<InputNode, OutputNode>| hyper_view(h));
            let mut found = false;
            let mut j: usize = 0;
            while j < out.len()
                invariant
                    j <= out@.len(),
                    i < self.0@.len(),
                    prev == out@.map_values(|h: HyperEdge<InputNode, OutputNode>| hyper_view(h)),
                    found <==> exists|m: int| 0 <= m < j && prev[m] == hyper_view(self.0@[i as int]),
                decreases out.len() - j,
            {
                if same_hyper_edge(&out[j], &self.0[i]) {
                    assert(prev[j as int] == hyper_view(self.0@[i as int]));
                    found = true;
                }
                j = j + 1;
            }
            proof {
                lemma_add_absent_concat(Seq::empty(), views.subrange(0, i as int), seq![views[i as int]]);
                assert(views.subrange(0, i + 1) =~= views.subrange(0, i as int) + seq![views[i as int]]);
                lemma_add_absent_single(prev, views[i as int]);
                assert(prev.contains(views[i as int]) == found) by {
                    if prev.contains(views[i as int]) {
                        let m = choose|m: int| 0 <= m < prev.len() && prev[m] == views[i as int];
                        assert(0 <= m < out@.len());
                    }
                }
            }
            if !found {
                out.push(dup_hyper_edge(&self.0[i]));
                assert(out@.map_values(|h: HyperEdge<InputNode, OutputNode>| hyper_view(h))
                    =~= prev.push(views[i as int]));
            }
            i = i + 1;
        }
        assert(views.subrange(0, self.0@.len() as int) =~= views);
        out
    }
}

/// A hyperedge by its inputs and outputs.
pub open spec fn hyper_view<I, O>(h: HyperEdge<I, O>) -> (Seq<I>, Seq<O>) {
    (h.inputs@, h.outputs@)
}

fn same_nodes<N: CouplingNode>(a: &Vec<N>, b: &Vec<N>) -> (r: bool)
    ensures
        r == (a@ == b@),
{
    if a.len() != b.len() {
        return false;
    }
    let mut i: usize = 0;
    while i < a.len()
        invariant
            i <= a@.len(),
            a@.len() == b@.len(),
            forall|k: int| 0 <= k < i ==> a@[k] == b@[k],
        decreases a.len() - i,
    {
        if !a[i].same(&b[i]) {
            return false;
        }
        i = i + 1;
    }
    assert(a@ =~= b@);
    true
}

fn dup_nodes<N: CouplingNode>(a: &Vec<N>) -> (r: Vec<N>)
    ensures
        r@ == a@,
{
    let mut r: Vec<N> = Vec::new();
    let mut i: usize = 0;
    while i < a.len()
        invariant
            i <= a@.len(),
            r@ == a@.subrange(0, i as int),
        decreases a.len() - i,
    {
        r.push(a[i].dup());
        assert(r@ =~= a@.subrange(0, i + 1));
        i = i + 1;
    }
    assert(a@.subrange(0, a@.len() as int) =~= a@);
    r
}

fn same_hyper_edge<I: CouplingNode, O: CouplingNode>(a: &HyperEdge<I, O>, b: &HyperEdge<I, O>) -> (r: bool)
    ensures
        r == (hyper_view(*a) == hyper_view(*b)),
{
    same_nodes(&a.inputs, &b.inputs) && same_nodes(&a.outputs, &b.outputs)
}

fn dup_hyper_edge<I: CouplingNode, O: CouplingNode>(a: &HyperEdge<I, O>) -> (r: HyperEdge<I, O>)
    ensures
        hyper_view(r) == hyper_view(*a),
{
    HyperEdge { inputs: dup_nodes(&a.inputs), outputs: dup_nodes(&a.outputs) }
}

} // verus!
