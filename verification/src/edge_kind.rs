//! Expansion edges, coupled edges, and the enumeration of all kinds of edge
//! of the borrow graph with what each blocks and is blocked by.
use vstd::prelude::*;
use crate::mir::{BasicBlock, PlaceElem};
use crate::place::{Place, MaybeLabelledPlace, mlp_place, mlp_label};
use crate::lifetime::{LifetimeProjection, LocalLifetimeProjection, local_to_general};
use crate::node::{PcgNode, LocalNode, local_to_node, BorrowPcgEdgeType};
use crate::coupling::{CouplingNode, HyperEdge};
use crate::edges::{BorrowEdge, DerefEdge, BorrowFlowEdge, borrow_blocked_nodes, borrow_blocked_by_nodes,
    deref_blocked_nodes, deref_blocked_by_nodes, flow_blocked_nodes, flow_blocked_by_nodes, future_kind_of};
use crate::abstraction::{AbstractionEdge, FunctionCallAbstraction, LoopAbstraction,
    FunctionCallAbstractionInput, FunctionCallAbstractionOutput, LoopAbstractionInput, LoopAbstractionOutput,
    FunctionCallAbstractionEdgeMetadata, abstraction_blocked_nodes, abstraction_blocked_by_nodes};

verus! {

impl CouplingNode for MaybeLabelledPlace {
    fn same(&self, other: &Self) -> (b: bool) {
        *self == *other
    }

    fn dup(&self) -> (r: Self) {
        self.clone()
    }
}

impl CouplingNode for LocalLifetimeProjection {
    fn same(&self, other: &Self) -> (b: bool) {
        *self == *other
    }

    fn dup(&self) -> (r: Self) {
        self.clone()
    }
}

/// Whether two vectors hold equal elements in the same order.
pub fn same_elements<T: CouplingNode>(a: &Vec<T>, b: &Vec<T>) -> (r: bool)
    ensures
        r == (a@ == b@),
{
    if a.len() != b.len() {
        return false;
    }
    let mut i: usize = 0;
    while i < a.len()
        invariant
            a@.len() == b@.len(),
            i <= a@.len(),
            forall|j: int| 0 <= j < i ==> a@[j] == b@[j],
        decreases a.len() - i,
    {
        if !a[i].same(&b[i]) {
            return false;
        }
        i = i + 1;
    }
    assert(a@ =~= b@);
    true
}

/// Copies of the elements of a vector.
pub fn dup_elements<T: CouplingNode>(a: &Vec<T>) -> (r: Vec<T>)
    ensures
        r@ == a@,
{
    let mut r: Vec<T> = Vec::new();
    let mut i: usize = 0;
    while i < a.len()
        invariant
            i <= a@.len(),
            r@ == a@.subrange(0, i as int),
        decreases a.len() - i,
    {
        r.push(a[i].dup());
        i = i + 1;
        assert(r@ =~= a@.subrange(0, i as int));
    }
    assert(a@.subrange(0, a@.len() as int) =~= a@);
    r
}

/// How a place is expanded into its parts.
#[derive(Debug)]
pub enum PlaceExpansion {
    /// Fields of a struct or tuple, by index.
    Fields(Vec<usize>),
    /// A dereference.
    Deref,
    /// An expansion guided by a projection, such as a downcast or a
    /// constant index.
    Guided(PlaceElem),
}

/// Whether a sequence of field indices is in increasing order.
pub open spec fn increasing(s: Seq<usize>) -> bool {
    forall|i: int, j: int| 0 <= i < j < s.len() ==> s[i] <= s[j]
}

/// The field projections of a sequence of field indices.
pub open spec fn field_elems(s: Seq<usize>) -> Seq<PlaceElem> {
    s.map_values(|f: usize| PlaceElem::Field(f))
}

/// Sorts field indices in increasing order.
fn sort_fields(v: &Vec<usize>) -> (r: Vec<usize>)
    ensures
        r@.to_multiset() == v@.to_multiset(),
        increasing(r@),
{
    let mut r: Vec<usize> = Vec::new();
    let mut i: usize = 0;
    proof {
        assert(v@.subrange(0, 0) =~= r@);
    }
    while i < v.len()
        invariant
            i <= v@.len(),
            r@.to_multiset() == v@.subrange(0, i as int).to_multiset(),
            increasing(r@),
        decreases v.len() - i,
    {
        let x = v[i];
        let mut k: usize = 0;
        while k < r.len() && r[k] <= x
            invariant
                k <= r@.len(),
                forall|j: int| 0 <= j < k ==> r@[j] <= x,
            decreases r.len() - k,
        {
            k = k + 1;
        }
        let ghost old_r = r@;
        r.insert(k, x);
        proof {
            assert(r@ == old_r.subrange(0, k as int).push(x) + old_r.subrange(k as int, old_r.len() as int));
            assert forall|a: int, b: int| 0 <= a < b < r@.len() implies r@[a] <= r@[b] by {
                if a < k && b == k {
                } else if a == k && b > k {
                    assert(r@[b] == old_r[b - 1]);
                    if k < old_r.len() {
                        assert(old_r[k as int] > x);
                        assert(old_r[k as int] <= old_r[b - 1]);
                    }
                } else if a < k && b > k {
                    assert(r@[b] == old_r[b - 1]);
                } else if a > k {
                    assert(r@[a] == old_r[a - 1]);
                    assert(r@[b] == old_r[b - 1]);
                }
            }
            let a = old_r.subrange(0, k as int);
            let b = old_r.subrange(k as int, old_r.len() as int);
            assert(old_r =~= a + b);
            vstd::seq_lib::lemma_multiset_commutative(a.push(x), b);
            vstd::seq_lib::lemma_multiset_commutative(a, b);
            a.to_multiset_ensures();
            v@.subrange(0, i as int).to_multiset_ensures();
            assert(v@.subrange(0, i + 1) =~= v@.subrange(0, i as int).push(x));
            assert(r@.to_multiset() =~= v@.subrange(0, i + 1).to_multiset());
        }
        i = i + 1;
    }
    assert(v@.subrange(0, v@.len() as int) =~= v@);
    r
}

impl PlaceExpansion {
    /// The projections by which the place is expanded; fields in increasing
    /// order of index.
    pub fn elems(&self) -> (r: Vec<PlaceElem>)
        ensures
            match *self {
                PlaceExpansion::Fields(fs) => exists|s: Seq<usize>| #![trigger field_elems(s)]
                    s.to_multiset() == fs@.to_multiset() && increasing(s) && r@ == field_elems(s),
                PlaceExpansion::Deref => r@ == seq![PlaceElem::Deref],
                PlaceExpansion::Guided(e) => r@ == seq![e],
            },
    {
        match self {
            PlaceExpansion::Fields(fs) => {
                let sorted = sort_fields(fs);
                let mut r: Vec<PlaceElem> = Vec::new();
                let mut i: usize = 0;
                while i < sorted.len()
                    invariant
                        i <= sorted@.len(),
                        r@ == field_elems(sorted@.subrange(0, i as int)),
                    decreases sorted.len() - i,
                {
                    r.push(PlaceElem::Field(sorted[i]));
                    i = i + 1;
                    assert(r@ =~= field_elems(sorted@.subrange(0, i as int)));
                }
                assert(sorted@.subrange(0, sorted@.len() as int) =~= sorted@);
                r
            },
            PlaceExpansion::Deref => {
                let mut r: Vec<PlaceElem> = Vec::new();
                r.push(PlaceElem::Deref);
                assert(r@ =~= seq![PlaceElem::Deref]);
                r
            },
            PlaceExpansion::Guided(e) => {
                let mut r: Vec<PlaceElem> = Vec::new();
                r.push(*e);
                assert(r@ =~= seq![*e]);
                r
            },
        }
    }

    /// The guiding projection, for a guided expansion.
    pub fn guide(&self) -> (r: Option<PlaceElem>)
        ensures
            r == (match *self {
                PlaceExpansion::Guided(e) => Some(e),
                _ => None,
            }),
    {
        match self {
            PlaceExpansion::Guided(e) => Some(*e),
            _ => None,
        }
    }

    /// Whether the expansion is a downcast to an enum variant.
    pub fn is_enum_expansion(&self) -> (b: bool)
        ensures
            b == (*self matches PlaceExpansion::Guided(PlaceElem::Downcast(_))),
    {
        match self {
            PlaceExpansion::Guided(PlaceElem::Downcast(_)) => true,
            _ => false,
        }
    }
}

/// An expansion of a node into its parts, where the parts are in the borrow
/// graph.
#[derive(Debug)]
pub struct BorrowPcgExpansionData<Node> {
    pub base: Node,
    pub expansion: Vec<Node>,
    pub guide: Option<PlaceElem>,
}

impl<Node: CouplingNode> BorrowPcgExpansionData<Node> {
    /// The expanded node.
    pub fn base(&self) -> (n: Node)
        ensures
            n == self.base,
    {
        self.base.dup()
    }

    /// The parts.
    pub fn expansion(&self) -> (v: &Vec<Node>)
        ensures
            v@ == self.expansion@,
    {
        &self.expansion
    }

    /// Whether two expansions are equal.
    pub fn same_expansion(&self, other: &Self) -> (b: bool)
        ensures
            b == (self.base == other.base && self.expansion@ == other.expansion@ && self.guide == other.guide),
    {
        let g = match (self.guide, other.guide) {
            (None, None) => true,
            (Some(a), Some(b)) => a == b,
            _ => false,
        };
        g && self.base.same(&other.base) && same_elements(&self.expansion, &other.expansion)
    }

    /// A copy of the expansion.
    pub fn dup_expansion(&self) -> (r: Self)
        ensures
            r.base == self.base,
            r.expansion@ == self.expansion@,
            r.guide == self.guide,
    {
        BorrowPcgExpansionData { base: self.base.dup(), expansion: dup_elements(&self.expansion), guide: self.guide }
    }
}

/// An expansion of a place or of a lifetime projection.
#[derive(Debug)]
pub enum BorrowPcgExpansion {
    Place(BorrowPcgExpansionData<MaybeLabelledPlace>),
    LifetimeProjection(BorrowPcgExpansionData<LocalLifetimeProjection>),
}

/// The expanded node of an expansion.
pub open spec fn expansion_base(e: BorrowPcgExpansion) -> LocalNode {
    match e {
        BorrowPcgExpansion::Place(d) => LocalNode::Place(d.base),
        BorrowPcgExpansion::LifetimeProjection(d) => LocalNode::LifetimeProjection(d.base),
    }
}

/// The parts of an expansion as local nodes.
pub open spec fn expansion_parts(e: BorrowPcgExpansion) -> Seq<LocalNode> {
    match e {
        BorrowPcgExpansion::Place(d) => d.expansion@.map_values(|p: MaybeLabelledPlace| LocalNode::Place(p)),
        BorrowPcgExpansion::LifetimeProjection(d) =>
            d.expansion@.map_values(|p: LocalLifetimeProjection| LocalNode::LifetimeProjection(p)),
    }
}

/// Whether two expansions are equal.
pub open spec fn expansion_eq(a: BorrowPcgExpansion, b: BorrowPcgExpansion) -> bool {
    match (a, b) {
        (BorrowPcgExpansion::Place(x), BorrowPcgExpansion::Place(y)) =>
            x.base == y.base && x.expansion@ == y.expansion@ && x.guide == y.guide,
        (BorrowPcgExpansion::LifetimeProjection(x), BorrowPcgExpansion::LifetimeProjection(y)) =>
            x.base == y.base && x.expansion@ == y.expansion@ && x.guide == y.guide,
        _ => false,
    }
}

impl BorrowPcgExpansion {
    /// The expansion of the current place `base` by `expansion`.
    pub fn new_place_expansion(base: Place, expansion: &PlaceExpansion) -> (r: BorrowPcgExpansion)
        ensures
            r matches BorrowPcgExpansion::Place(d) && d.base == MaybeLabelledPlace::Current(base)
                && d.guide == (match *expansion { PlaceExpansion::Guided(e) => Some(e), _ => None })
                && d.expansion@.len() == expansion_elems_len(*expansion)
                && (forall|i: int| 0 <= i < d.expansion@.len() ==> is_current_child(#[trigger] d.expansion@[i], base)),
    {
        let elems = expansion.elems();
        let mut parts: Vec<MaybeLabelledPlace> = Vec::new();
        let mut i: usize = 0;
        while i < elems.len()
            invariant
                i <= elems@.len(),
                parts@.len() == i,
                forall|j: int| 0 <= j < i ==> (#[trigger] parts@[j]) == MaybeLabelledPlace::Current(
                    Place::Project(Box::new(base), elems@[j])),
            decreases elems.len() - i,
        {
            parts.push(MaybeLabelledPlace::Current(base.project_deeper(elems[i])));
            i = i + 1;
        }
        proof {
            lemma_elems_len(*expansion, elems@);
        }
        BorrowPcgExpansion::Place(BorrowPcgExpansionData {
            base: MaybeLabelledPlace::Current(base),
            expansion: parts,
            guide: expansion.guide(),
        })
    }

    /// The expanded node.
    pub fn base(&self) -> (n: LocalNode)
        ensures
            n == expansion_base(*self),
    {
        match self {
            BorrowPcgExpansion::Place(d) => LocalNode::Place(d.base.clone()),
            BorrowPcgExpansion::LifetimeProjection(d) => LocalNode::LifetimeProjection(d.base.clone()),
        }
    }

    /// The parts of the expansion.
    pub fn expansion(&self) -> (v: Vec<LocalNode>)
        ensures
            v@ == expansion_parts(*self),
    {
        let mut v: Vec<LocalNode> = Vec::new();
        match self {
            BorrowPcgExpansion::Place(d) => {
                let mut i: usize = 0;
                while i < d.expansion.len()
                    invariant
                        i <= d.expansion@.len(),
                        v@ == d.expansion@.subrange(0, i as int).map_values(|p: MaybeLabelledPlace| LocalNode::Place(p)),
                    decreases d.expansion.len() - i,
                {
                    v.push(LocalNode::Place(d.expansion[i].clone()));
                    i = i + 1;
                    assert(v@ =~= d.expansion@.subrange(0, i as int).map_values(|p: MaybeLabelledPlace| LocalNode::Place(p)));
                }
                assert(d.expansion@.subrange(0, d.expansion@.len() as int) =~= d.expansion@);
            },
            BorrowPcgExpansion::LifetimeProjection(d) => {
                let mut i: usize = 0;
                while i < d.expansion.len()
                    invariant
                        i <= d.expansion@.len(),
                        v@ == d.expansion@.subrange(0, i as int).map_values(
                            |p: LocalLifetimeProjection| LocalNode::LifetimeProjection(p)),
                    decreases d.expansion.len() - i,
                {
                    v.push(LocalNode::LifetimeProjection(d.expansion[i].clone()));
                    i = i + 1;
                    assert(v@ =~= d.expansion@.subrange(0, i as int).map_values(
                        |p: LocalLifetimeProjection| LocalNode::LifetimeProjection(p)));
                }
                assert(d.expansion@.subrange(0, d.expansion@.len() as int) =~= d.expansion@);
            },
        }
        v
    }

    /// The guiding projection of the expansion.
    pub fn guide(&self) -> (g: Option<PlaceElem>)
        ensures
            g == (match *self {
                BorrowPcgExpansion::Place(d) => d.guide,
                BorrowPcgExpansion::LifetimeProjection(d) => d.guide,
            }),
    {
        match self {
            BorrowPcgExpansion::Place(d) => d.guide,
            BorrowPcgExpansion::LifetimeProjection(d) => d.guide,
        }
    }

    /// Whether two expansions are equal.
    pub fn same(&self, other: &Self) -> (b: bool)
        ensures
            b == expansion_eq(*self, *other),
    {
        match (self, other) {
            (BorrowPcgExpansion::Place(x), BorrowPcgExpansion::Place(y)) => x.same_expansion(y),
            (BorrowPcgExpansion::LifetimeProjection(x), BorrowPcgExpansion::LifetimeProjection(y)) => x.same_expansion(y),
            _ => false,
        }
    }

    /// A copy of the expansion.
    pub fn dup(&self) -> (r: Self)
        ensures
            expansion_eq(r, *self),
            expansion_base(r) == expansion_base(*self),
            expansion_parts(r) == expansion_parts(*self),
    {
        match self {
            BorrowPcgExpansion::Place(x) => BorrowPcgExpansion::Place(x.dup_expansion()),
            BorrowPcgExpansion::LifetimeProjection(x) => BorrowPcgExpansion::LifetimeProjection(x.dup_expansion()),
        }
    }
}

/// Whether a place is a current place one projection below `base`.
pub open spec fn is_current_child(p: MaybeLabelledPlace, base: Place) -> bool {
    match p {
        MaybeLabelledPlace::Current(Place::Project(b, _)) => *b == base,
        _ => false,
    }
}

/// The number of projections of an expansion.
pub open spec fn expansion_elems_len(e: PlaceExpansion) -> nat {
    match e {
        PlaceExpansion::Fields(fs) => fs@.len(),
        _ => 1,
    }
}

proof fn lemma_elems_len(e: PlaceExpansion, r: Seq<PlaceElem>)
    requires
        match e {
            PlaceExpansion::Fields(fs) => exists|s: Seq<usize>| #![trigger field_elems(s)]
                s.to_multiset() == fs@.to_multiset() && increasing(s) && r == field_elems(s),
            PlaceExpansion::Deref => r == seq![PlaceElem::Deref],
            PlaceExpansion::Guided(g) => r == seq![g],
        },
    ensures
        r.len() == expansion_elems_len(e),
{
    match e {
        PlaceExpansion::Fields(fs) => {
            let s = choose|s: Seq<usize>| #![trigger field_elems(s)]
                s.to_multiset() == fs@.to_multiset() && increasing(s) && r == field_elems(s);
            s.to_multiset_ensures();
            fs@.to_multiset_ensures();
        },
        _ => {},
    }
}

/// A hyperedge produced by coupling, with the metadata of the abstraction
/// it came from.
#[derive(Debug)]
pub struct CoupledEdgeKind<Metadata, InputNode, OutputNode> {
    pub metadata: Metadata,
    pub edge: HyperEdge<InputNode, OutputNode>,
}

impl<Metadata: Copy, InputNode: CouplingNode, OutputNode: CouplingNode> CoupledEdgeKind<Metadata, InputNode, OutputNode> {
    /// The coupled edge `edge` with `metadata`.
    pub fn new(metadata: Metadata, edge: HyperEdge<InputNode, OutputNode>) -> (r: Self)
        ensures
            r.metadata == metadata,
            r.edge == edge,
    {
        CoupledEdgeKind { metadata, edge }
    }

    /// The inputs.
    pub fn inputs(&self) -> (v: &Vec<InputNode>)
        ensures
            v@ == self.edge.inputs@,
    {
        self.edge.inputs()
    }

    /// The outputs.
    pub fn outputs(&self) -> (v: &Vec<OutputNode>)
        ensures
            v@ == self.edge.outputs@,
    {
        self.edge.outputs()
    }

    /// The metadata.
    pub fn metadata(&self) -> (m: Metadata)
        ensures
            m == self.metadata,
    {
        self.metadata
    }
}

/// A coupled edge of a function call or of a loop.
#[derive(Debug)]
pub enum PcgCoupledEdgeKind {
    FunctionCall(CoupledEdgeKind<FunctionCallAbstractionEdgeMetadata, FunctionCallAbstractionInput, FunctionCallAbstractionOutput>),
    Loop(CoupledEdgeKind<BasicBlock, LoopAbstractionInput, LoopAbstractionOutput>),
}

/// The nodes that a coupled edge blocks: its inputs.
pub open spec fn coupled_blocked_nodes(e: PcgCoupledEdgeKind) -> Seq<PcgNode> {
    match e {
        PcgCoupledEdgeKind::FunctionCall(c) =>
            c.edge.inputs@.map_values(|i: FunctionCallAbstractionInput| PcgNode::LifetimeProjection(i.0)),
        PcgCoupledEdgeKind::Loop(c) => c.edge.inputs@.map_values(|i: LoopAbstractionInput| i.0),
    }
}

/// The nodes that block through a coupled edge: its outputs.
pub open spec fn coupled_blocked_by_nodes(e: PcgCoupledEdgeKind) -> Seq<LocalNode> {
    match e {
        PcgCoupledEdgeKind::FunctionCall(c) =>
            c.edge.outputs@.map_values(|o: FunctionCallAbstractionOutput| LocalNode::LifetimeProjection(o.0)),
        PcgCoupledEdgeKind::Loop(c) => c.edge.outputs@.map_values(|o: LoopAbstractionOutput| o.0),
    }
}

/// Whether two coupled edges are equal.
pub open spec fn coupled_eq(a: PcgCoupledEdgeKind, b: PcgCoupledEdgeKind) -> bool {
    match (a, b) {
        (PcgCoupledEdgeKind::FunctionCall(x), PcgCoupledEdgeKind::FunctionCall(y)) =>
            x.metadata == y.metadata && x.edge.inputs@ == y.edge.inputs@ && x.edge.outputs@ == y.edge.outputs@,
        (PcgCoupledEdgeKind::Loop(x), PcgCoupledEdgeKind::Loop(y)) =>
            x.metadata == y.metadata && x.edge.inputs@ == y.edge.inputs@ && x.edge.outputs@ == y.edge.outputs@,
        _ => false,
    }
}

impl PcgCoupledEdgeKind {
    /// The coupled edge of a function call.
    pub fn function_call(edge: CoupledEdgeKind<FunctionCallAbstractionEdgeMetadata, FunctionCallAbstractionInput,
        FunctionCallAbstractionOutput>) -> (r: PcgCoupledEdgeKind)
        ensures
            r == PcgCoupledEdgeKind::FunctionCall(edge),
    {
        PcgCoupledEdgeKind::FunctionCall(edge)
    }

    /// The coupled edge of a loop.
    pub fn loop_(edge: CoupledEdgeKind<BasicBlock, LoopAbstractionInput, LoopAbstractionOutput>) -> (r: PcgCoupledEdgeKind)
        ensures
            r == PcgCoupledEdgeKind::Loop(edge),
    {
        PcgCoupledEdgeKind::Loop(edge)
    }

    /// The inputs as nodes of the graph.
    pub fn inputs(&self) -> (v: Vec<PcgNode>)
        ensures
            v@ == coupled_blocked_nodes(*self),
    {
        let mut v: Vec<PcgNode> = Vec::new();
        match self {
            PcgCoupledEdgeKind::FunctionCall(c) => {
                let ins = c.inputs();
                let mut i: usize = 0;
                while i < ins.len()
                    invariant
                        ins@ == c.edge.inputs@,
                        i <= ins@.len(),
                        v@ == ins@.subrange(0, i as int).map_values(|x: FunctionCallAbstractionInput| PcgNode::LifetimeProjection(x.0)),
                    decreases ins.len() - i,
                {
                    v.push(PcgNode::LifetimeProjection(ins[i].0.clone()));
                    i = i + 1;
                    assert(v@ =~= ins@.subrange(0, i as int).map_values(|x: FunctionCallAbstractionInput| PcgNode::LifetimeProjection(x.0)));
                }
                assert(ins@.subrange(0, ins@.len() as int) =~= ins@);
            },
            PcgCoupledEdgeKind::Loop(c) => {
                let ins = c.inputs();
                let mut i: usize = 0;
                while i < ins.len()
                    invariant
                        ins@ == c.edge.inputs@,
                        i <= ins@.len(),
                        v@ == ins@.subrange(0, i as int).map_values(|x: LoopAbstractionInput| x.0),
                    decreases ins.len() - i,
                {
                    v.push(ins[i].0.clone());
                    i = i + 1;
                    assert(v@ =~= ins@.subrange(0, i as int).map_values(|x: LoopAbstractionInput| x.0));
                }
                assert(ins@.subrange(0, ins@.len() as int) =~= ins@);
            },
        }
        v
    }

    /// The outputs as local nodes.
    pub fn outputs(&self) -> (v: Vec<LocalNode>)
        ensures
            v@ == coupled_blocked_by_nodes(*self),
    {
        let mut v: Vec<LocalNode> = Vec::new();
        match self {
            PcgCoupledEdgeKind::FunctionCall(c) => {
                let outs = c.outputs();
                let mut i: usize = 0;
                while i < outs.len()
                    invariant
                        outs@ == c.edge.outputs@,
                        i <= outs@.len(),
                        v@ == outs@.subrange(0, i as int).map_values(|x: FunctionCallAbstractionOutput| LocalNode::LifetimeProjection(x.0)),
                    decreases outs.len() - i,
                {
                    v.push(LocalNode::LifetimeProjection(outs[i].0.clone()));
                    i = i + 1;
                    assert(v@ =~= outs@.subrange(0, i as int).map_values(|x: FunctionCallAbstractionOutput| LocalNode::LifetimeProjection(x.0)));
                }
                assert(outs@.subrange(0, outs@.len() as int) =~= outs@);
            },
            PcgCoupledEdgeKind::Loop(c) => {
                let outs = c.outputs();
                let mut i: usize = 0;
                while i < outs.len()
                    invariant
                        outs@ == c.edge.outputs@,
                        i <= outs@.len(),
                        v@ == outs@.subrange(0, i as int).map_values(|x: LoopAbstractionOutput| x.0),
                    decreases outs.len() - i,
                {
                    v.push(outs[i].0.clone());
                    i = i + 1;
                    assert(v@ =~= outs@.subrange(0, i as int).map_values(|x: LoopAbstractionOutput| x.0));
                }
                assert(outs@.subrange(0, outs@.len() as int) =~= outs@);
            },
        }
        v
    }

    /// Whether two coupled edges are equal.
    pub fn same(&self, other: &Self) -> (b: bool)
        ensures
            b == coupled_eq(*self, *other),
    {
        match (self, other) {
            (PcgCoupledEdgeKind::FunctionCall(x), PcgCoupledEdgeKind::FunctionCall(y)) =>
                x.metadata == y.metadata && same_elements(&x.edge.inputs, &y.edge.inputs)
                    && same_elements(&x.edge.outputs, &y.edge.outputs),
            (PcgCoupledEdgeKind::Loop(x), PcgCoupledEdgeKind::Loop(y)) =>
                x.metadata == y.metadata && same_elements(&x.edge.inputs, &y.edge.inputs)
                    && same_elements(&x.edge.outputs, &y.edge.outputs),
            _ => false,
        }
    }

    /// A copy of the coupled edge.
    pub fn dup(&self) -> (r: Self)
        ensures
            coupled_eq(r, *self),
            coupled_blocked_nodes(r) == coupled_blocked_nodes(*self),
            coupled_blocked_by_nodes(r) == coupled_blocked_by_nodes(*self),
    {
        match self {
            PcgCoupledEdgeKind::FunctionCall(x) => PcgCoupledEdgeKind::FunctionCall(CoupledEdgeKind {
                metadata: x.metadata,
                edge: HyperEdge::new(dup_elements(&x.edge.inputs), dup_elements(&x.edge.outputs)),
            }),
            PcgCoupledEdgeKind::Loop(x) => PcgCoupledEdgeKind::Loop(CoupledEdgeKind {
                metadata: x.metadata,
                edge: HyperEdge::new(dup_elements(&x.edge.inputs), dup_elements(&x.edge.outputs)),
            }),
        }
    }
}

/// The kinds of edge of the borrow graph.
#[derive(Debug)]
pub enum BorrowPcgEdgeKind {
    Borrow(BorrowEdge),
    BorrowPcgExpansion(BorrowPcgExpansion),
    Deref(DerefEdge),
    Abstraction(AbstractionEdge),
    BorrowFlow(BorrowFlowEdge),
    Coupled(PcgCoupledEdgeKind),
}

/// The nodes that an edge blocks.
pub open spec fn kind_blocked_nodes(k: BorrowPcgEdgeKind) -> Seq<PcgNode> {
    match k {
        BorrowPcgEdgeKind::Borrow(e) => borrow_blocked_nodes(e),
        BorrowPcgEdgeKind::BorrowPcgExpansion(e) => seq![local_to_node(expansion_base(e))],
        BorrowPcgEdgeKind::Deref(e) => deref_blocked_nodes(e),
        BorrowPcgEdgeKind::Abstraction(e) => abstraction_blocked_nodes(e),
        BorrowPcgEdgeKind::BorrowFlow(e) => flow_blocked_nodes(e),
        BorrowPcgEdgeKind::Coupled(e) => coupled_blocked_nodes(e),
    }
}

/// The nodes that block through an edge.
pub open spec fn kind_blocked_by_nodes(k: BorrowPcgEdgeKind) -> Seq<LocalNode> {
    match k {
        BorrowPcgEdgeKind::Borrow(e) => borrow_blocked_by_nodes(e),
        BorrowPcgEdgeKind::BorrowPcgExpansion(e) => expansion_parts(e),
        BorrowPcgEdgeKind::Deref(e) => deref_blocked_by_nodes(e),
        BorrowPcgEdgeKind::Abstraction(e) => abstraction_blocked_by_nodes(e),
        BorrowPcgEdgeKind::BorrowFlow(e) => flow_blocked_by_nodes(e),
        BorrowPcgEdgeKind::Coupled(e) => coupled_blocked_by_nodes(e),
    }
}

/// Whether two edges are equal.
pub open spec fn kind_eq(a: BorrowPcgEdgeKind, b: BorrowPcgEdgeKind) -> bool {
    match (a, b) {
        (BorrowPcgEdgeKind::BorrowPcgExpansion(x), BorrowPcgEdgeKind::BorrowPcgExpansion(y)) => expansion_eq(x, y),
        (BorrowPcgEdgeKind::Coupled(x), BorrowPcgEdgeKind::Coupled(y)) => coupled_eq(x, y),
        (BorrowPcgEdgeKind::BorrowPcgExpansion(_), _) => false,
        (BorrowPcgEdgeKind::Coupled(_), _) => false,
        (_, BorrowPcgEdgeKind::BorrowPcgExpansion(_)) => false,
        (_, BorrowPcgEdgeKind::Coupled(_)) => false,
        _ => a == b,
    }
}

/// Edge equality is an equivalence.
pub proof fn lemma_kind_eq_equivalence(a: BorrowPcgEdgeKind, b: BorrowPcgEdgeKind, c: BorrowPcgEdgeKind)
    ensures
        kind_eq(a, a),
        kind_eq(a, b) == kind_eq(b, a),
        kind_eq(a, b) && kind_eq(b, c) ==> kind_eq(a, c),
        kind_eq(a, b) ==> kind_blocked_nodes(a) == kind_blocked_nodes(b)
            && kind_blocked_by_nodes(a) == kind_blocked_by_nodes(b),
{
}

/// The kind of an edge, without its data.
pub open spec fn kind_type(k: BorrowPcgEdgeKind) -> BorrowPcgEdgeType {
    match k {
        BorrowPcgEdgeKind::Borrow(_) => BorrowPcgEdgeType::Borrow,
        BorrowPcgEdgeKind::BorrowPcgExpansion(_) => BorrowPcgEdgeType::BorrowPcgExpansion,
        BorrowPcgEdgeKind::Deref(_) => BorrowPcgEdgeType::Deref,
        BorrowPcgEdgeKind::Abstraction(_) => BorrowPcgEdgeType::Abstraction,
        BorrowPcgEdgeKind::BorrowFlow(e) => BorrowPcgEdgeType::BorrowFlow { future_edge_kind: future_kind_of(e) },
        BorrowPcgEdgeKind::Coupled(_) => BorrowPcgEdgeType::Coupled,
    }
}

/// Whether a node occurs in a sequence of nodes, decided by comparing.
pub fn contains_node(v: &Vec<PcgNode>, n: &PcgNode) -> (b: bool)
    ensures
        b == v@.contains(*n),
{
    let mut i: usize = 0;
    while i < v.len()
        invariant
            i <= v@.len(),
            forall|j: int| 0 <= j < i ==> v@[j] != *n,
        decreases v.len() - i,
    {
        if v[i] == *n {
            return true;
        }
        i = i + 1;
    }
    false
}

/// Whether a local node occurs in a sequence of local nodes.
pub fn contains_local_node(v: &Vec<LocalNode>, n: &LocalNode) -> (b: bool)
    ensures
        b == v@.contains(*n),
{
    let mut i: usize = 0;
    while i < v.len()
        invariant
            i <= v@.len(),
            forall|j: int| 0 <= j < i ==> v@[j] != *n,
        decreases v.len() - i,
    {
        if v[i] == *n {
            return true;
        }
        i = i + 1;
    }
    false
}

impl BorrowPcgEdgeKind {
    /// The nodes that the edge blocks.
    pub fn blocked_nodes(&self) -> (v: Vec<PcgNode>)
        ensures
            v@ == kind_blocked_nodes(*self),
    {
        match self {
            BorrowPcgEdgeKind::Borrow(e) => e.blocked_nodes(),
            BorrowPcgEdgeKind::BorrowPcgExpansion(e) => {
                let mut v: Vec<PcgNode> = Vec::new();
                v.push(e.base().to_pcg_node());
                assert(v@ =~= seq![local_to_node(expansion_base(*e))]);
                v
            },
            BorrowPcgEdgeKind::Deref(e) => e.blocked_nodes(),
            BorrowPcgEdgeKind::Abstraction(e) => e.blocked_nodes(),
            BorrowPcgEdgeKind::BorrowFlow(e) => e.blocked_nodes(),
            BorrowPcgEdgeKind::Coupled(e) => e.inputs(),
        }
    }

    /// The nodes that block through the edge.
    pub fn blocked_by_nodes(&self) -> (v: Vec<LocalNode>)
        ensures
            v@ == kind_blocked_by_nodes(*self),
    {
        match self {
            BorrowPcgEdgeKind::Borrow(e) => e.blocked_by_nodes(),
            BorrowPcgEdgeKind::BorrowPcgExpansion(e) => e.expansion(),
            BorrowPcgEdgeKind::Deref(e) => e.blocked_by_nodes(),
            BorrowPcgEdgeKind::Abstraction(e) => e.blocked_by_nodes(),
            BorrowPcgEdgeKind::BorrowFlow(e) => e.blocked_by_nodes(),
            BorrowPcgEdgeKind::Coupled(e) => e.outputs(),
        }
    }

    /// Whether the edge blocks `node`.
    pub fn blocks_node(&self, node: &PcgNode) -> (b: bool)
        ensures
            b == kind_blocked_nodes(*self).contains(*node),
    {
        let v = self.blocked_nodes();
        contains_node(&v, node)
    }

    /// Whether `node` blocks through the edge.
    pub fn is_blocked_by(&self, node: &LocalNode) -> (b: bool)
        ensures
            b == kind_blocked_by_nodes(*self).contains(*node),
    {
        let v = self.blocked_by_nodes();
        contains_local_node(&v, node)
    }

    /// The kind of the edge, without its data.
    pub fn edge_type(&self) -> (t: BorrowPcgEdgeType)
        ensures
            t == kind_type(*self),
    {
        match self {
            BorrowPcgEdgeKind::Borrow(_) => BorrowPcgEdgeType::Borrow,
            BorrowPcgEdgeKind::BorrowPcgExpansion(_) => BorrowPcgEdgeType::BorrowPcgExpansion,
            BorrowPcgEdgeKind::Deref(_) => BorrowPcgEdgeType::Deref,
            BorrowPcgEdgeKind::Abstraction(_) => BorrowPcgEdgeType::Abstraction,
            BorrowPcgEdgeKind::BorrowFlow(e) => BorrowPcgEdgeType::BorrowFlow { future_edge_kind: e.future_edge_kind() },
            BorrowPcgEdgeKind::Coupled(_) => BorrowPcgEdgeType::Coupled,
        }
    }

    /// Whether the edge is a borrow that does not permit mutation.
    pub fn is_shared_borrow(&self) -> (b: bool)
        ensures
            b == is_shared_borrow_edge(*self),
    {
        match self {
            BorrowPcgEdgeKind::Borrow(e) => match e.kind {
                crate::mir::BorrowKind::Mut { .. } => false,
                _ => true,
            },
            _ => false,
        }
    }

    /// Whether the edge mentions the current place `place` in one of its
    /// nodes.
    pub fn references_place(&self, place: &Place) -> (b: bool)
        ensures
            b == (exists|i: int| 0 <= i < kind_blocked_nodes(*self).len()
                    && references(#[trigger] kind_blocked_nodes(*self)[i], *place))
                || (exists|i: int| 0 <= i < kind_blocked_by_nodes(*self).len()
                    && references(local_to_node(#[trigger] kind_blocked_by_nodes(*self)[i]), *place)),
    {
        let blocked = self.blocked_nodes();
        let mut i: usize = 0;
        while i < blocked.len()
            invariant
                blocked@ == kind_blocked_nodes(*self),
                i <= blocked@.len(),
                forall|j: int| 0 <= j < i ==> !references(#[trigger] blocked@[j], *place),
            decreases blocked.len() - i,
        {
            if blocked[i].references_place(place) {
                return true;
            }
            i = i + 1;
        }
        let by = self.blocked_by_nodes();
        let mut k: usize = 0;
        while k < by.len()
            invariant
                blocked@ == kind_blocked_nodes(*self),
                by@ == kind_blocked_by_nodes(*self),
                forall|j: int| 0 <= j < blocked@.len() ==> !references(#[trigger] blocked@[j], *place),
                k <= by@.len(),
                forall|j: int| 0 <= j < k ==> !references(local_to_node(#[trigger] by@[j]), *place),
            decreases by.len() - k,
        {
            if by[k].to_pcg_node().references_place(place) {
                return true;
            }
            k = k + 1;
        }
        false
    }

    /// Whether two edges are equal.
    pub fn same(&self, other: &Self) -> (b: bool)
        ensures
            b == kind_eq(*self, *other),
    {
        match (self, other) {
            (BorrowPcgEdgeKind::Borrow(x), BorrowPcgEdgeKind::Borrow(y)) => *x == *y,
            (BorrowPcgEdgeKind::BorrowPcgExpansion(x), BorrowPcgEdgeKind::BorrowPcgExpansion(y)) => x.same(y),
            (BorrowPcgEdgeKind::Deref(x), BorrowPcgEdgeKind::Deref(y)) => *x == *y,
            (BorrowPcgEdgeKind::Abstraction(x), BorrowPcgEdgeKind::Abstraction(y)) => same_abstraction(x, y),
            (BorrowPcgEdgeKind::BorrowFlow(x), BorrowPcgEdgeKind::BorrowFlow(y)) => *x == *y,
            (BorrowPcgEdgeKind::Coupled(x), BorrowPcgEdgeKind::Coupled(y)) => x.same(y),
            _ => false,
        }
    }

    /// A copy of the edge.
    pub fn dup(&self) -> (r: Self)
        ensures
            kind_eq(r, *self),
            kind_blocked_nodes(r) == kind_blocked_nodes(*self),
            kind_blocked_by_nodes(r) == kind_blocked_by_nodes(*self),
    {
        match self {
            BorrowPcgEdgeKind::Borrow(x) => BorrowPcgEdgeKind::Borrow(x.clone()),
            BorrowPcgEdgeKind::BorrowPcgExpansion(x) => BorrowPcgEdgeKind::BorrowPcgExpansion(x.dup()),
            BorrowPcgEdgeKind::Deref(x) => BorrowPcgEdgeKind::Deref(x.clone()),
            BorrowPcgEdgeKind::Abstraction(x) => BorrowPcgEdgeKind::Abstraction(dup_abstraction(x)),
            BorrowPcgEdgeKind::BorrowFlow(x) => BorrowPcgEdgeKind::BorrowFlow(x.clone()),
            BorrowPcgEdgeKind::Coupled(x) => BorrowPcgEdgeKind::Coupled(x.dup()),
        }
    }
}

/// Whether an edge is a borrow that does not permit mutation.
pub open spec fn is_shared_borrow_edge(k: BorrowPcgEdgeKind) -> bool {
    match k {
        BorrowPcgEdgeKind::Borrow(e) => !(e.kind is Mut),
        _ => false,
    }
}

/// Whether a node refers to the current place `place`, directly or as the
/// base of a projection.
pub open spec fn references(n: PcgNode, place: Place) -> bool {
    match n {
        PcgNode::Place(MaybeLabelledPlace::Current(p)) => p == place,
        PcgNode::LifetimeProjection(lp) => lp.base == crate::lifetime::PlaceOrConst::Place(
            crate::place::MaybeRemotePlace::Local(MaybeLabelledPlace::Current(place))),
        _ => false,
    }
}

/// Whether two abstraction edges are equal.
fn same_abstraction(x: &AbstractionEdge, y: &AbstractionEdge) -> (b: bool)
    ensures
        b == (*x == *y),
{
    match (x, y) {
        (AbstractionEdge::FunctionCall(a), AbstractionEdge::FunctionCall(b)) =>
            a.metadata == b.metadata && a.edge.same_edge(&b.edge),
        (AbstractionEdge::Loop(a), AbstractionEdge::Loop(b)) =>
            a.loop_head == b.loop_head && a.edge.same_edge(&b.edge),
        _ => false,
    }
}

/// A copy of an abstraction edge.
fn dup_abstraction(x: &AbstractionEdge) -> (r: AbstractionEdge)
    ensures
        r == *x,
{
    match x {
        AbstractionEdge::FunctionCall(a) => AbstractionEdge::FunctionCall(FunctionCallAbstraction {
            metadata: a.metadata,
            edge: a.edge.dup_edge(),
        }),
        AbstractionEdge::Loop(a) => AbstractionEdge::Loop(LoopAbstraction { loop_head: a.loop_head, edge: a.edge.dup_edge() }),
    }
}

impl AbstractionEdge {
    /// The coupled edge made of this edge alone: its metadata (the call, or
    /// the loop's head) with a hyperedge of its one input and one output.
    pub fn into_singleton_coupled_edge(self) -> (r: PcgCoupledEdgeKind)
        ensures
            match self {
                AbstractionEdge::FunctionCall(f) => r matches PcgCoupledEdgeKind::FunctionCall(c)
                    && c.metadata == f.metadata && c.edge.inputs@ == seq![f.edge.input] && c.edge.outputs@ == seq![f.edge.output],
                AbstractionEdge::Loop(l) => r matches PcgCoupledEdgeKind::Loop(c)
                    && c.metadata == l.loop_head && c.edge.inputs@ == seq![l.edge.input] && c.edge.outputs@ == seq![l.edge.output],
            },
    {
        match self {
            AbstractionEdge::FunctionCall(f) => {
                let h = f.edge.to_singleton_hyper_edge();
                PcgCoupledEdgeKind::function_call(CoupledEdgeKind { metadata: f.metadata, edge: h })
            },
            AbstractionEdge::Loop(l) => {
                let h = l.edge.to_singleton_hyper_edge();
                PcgCoupledEdgeKind::loop_(CoupledEdgeKind { metadata: l.loop_head, edge: h })
            },
        }
    }
}

} // verus!
