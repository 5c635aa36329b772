//! Abstraction edges: the edges by which a function call or a loop blocks
//! the lifetime projections and places that flow into it by those that flow
//! out of it, with the inputs and outputs they connect.
use vstd::prelude::*;
use crate::mir::{BasicBlock, Location};
use crate::place::{MaybeLabelledPlace, MaybeRemotePlace};
use crate::lifetime::{LifetimeProjection, LocalLifetimeProjection, PlaceOrConst, base_local_place, local_to_general};
use crate::node::{PcgNode, LocalNode, local_to_node, node_to_local};
use crate::coupling::{CouplingNode, AbstractionBlockEdge, HyperEdge};

verus! {

/// A definition of the crate or of another crate, by crate and index.
#[derive(Clone, Copy, Debug, PartialEq, Eq, Structural, Hash)]
pub struct DefId {
    pub krate: u32,
    pub index: u32,
}

/// The function that a call abstraction is about.
#[derive(Clone, Copy, Debug, PartialEq, Eq, Structural, Hash)]
pub struct FunctionData {
    pub def_id: DefId,
}

impl FunctionData {
    /// The data of the function `def_id`.
    pub fn new(def_id: DefId) -> (f: FunctionData)
        ensures
            f.def_id == def_id,
    {
        FunctionData { def_id }
    }

    /// The function's definition.
    pub fn def_id(&self) -> (d: DefId)
        ensures
            d == self.def_id,
    {
        self.def_id
    }
}

/// A call of a function whose definition is known: the function, the
/// generic arguments of the call (interned, by number) and the caller.
#[derive(Clone, Copy, Debug, PartialEq, Eq, Structural, Hash)]
pub struct DefinedFnCall {
    pub function_data: FunctionData,
    pub caller_substs: usize,
    pub caller_def_id: DefId,
}

impl DefinedFnCall {
    /// The call of `function_data` with the arguments `caller_substs` in
    /// `caller_def_id`.
    pub fn new(function_data: FunctionData, caller_substs: usize, caller_def_id: DefId) -> (c: DefinedFnCall)
        ensures
            c.function_data == function_data,
            c.caller_substs == caller_substs,
            c.caller_def_id == caller_def_id,
    {
        DefinedFnCall { function_data, caller_substs, caller_def_id }
    }
}

/// An input of a function call abstraction: a lifetime projection of a
/// place or a constant.
#[derive(Debug)]
pub struct FunctionCallAbstractionInput(pub LifetimeProjection);

/// An output of a function call abstraction: a lifetime projection of a
/// local place.
#[derive(Debug)]
pub struct FunctionCallAbstractionOutput(pub LocalLifetimeProjection);

/// An input of a loop abstraction: any node.
#[derive(Debug)]
pub struct LoopAbstractionInput(pub PcgNode);

/// An output of a loop abstraction: a local node.
#[derive(Debug)]
pub struct LoopAbstractionOutput(pub LocalNode);

/// An input of an abstraction, as a node of the graph.
#[derive(Debug)]
pub struct AbstractionInputTarget(pub PcgNode);

/// An output of an abstraction, as a local node.
#[derive(Debug)]
pub struct AbstractionOutputTarget(pub LocalNode);

impl CouplingNode for FunctionCallAbstractionInput {
    fn same(&self, other: &Self) -> (b: bool) {
        self.0 == other.0
    }

    fn dup(&self) -> (r: Self) {
        FunctionCallAbstractionInput(self.0.clone())
    }
}

impl CouplingNode for FunctionCallAbstractionOutput {
    fn same(&self, other: &Self) -> (b: bool) {
        self.0 == other.0
    }

    fn dup(&self) -> (r: Self) {
        FunctionCallAbstractionOutput(self.0.clone())
    }
}

impl CouplingNode for LoopAbstractionInput {
    fn same(&self, other: &Self) -> (b: bool) {
        self.0 == other.0
    }

    fn dup(&self) -> (r: Self) {
        LoopAbstractionInput(self.0.clone())
    }
}

impl CouplingNode for LoopAbstractionOutput {
    fn same(&self, other: &Self) -> (b: bool) {
        self.0 == other.0
    }

    fn dup(&self) -> (r: Self) {
        LoopAbstractionOutput(self.0.clone())
    }
}

impl CouplingNode for AbstractionInputTarget {
    fn same(&self, other: &Self) -> (b: bool) {
        self.0 == other.0
    }

    fn dup(&self) -> (r: Self) {
        AbstractionInputTarget(self.0.clone())
    }
}

impl CouplingNode for AbstractionOutputTarget {
    fn same(&self, other: &Self) -> (b: bool) {
        self.0 == other.0
    }

    fn dup(&self) -> (r: Self) {
        AbstractionOutputTarget(self.0.clone())
    }
}

impl FunctionCallAbstractionInput {
    /// The input as a local projection, if its base is a local place.
    pub fn try_to_local_lifetime_projection(&self) -> (r: Option<LocalLifetimeProjection>)
        ensures
            r == (match base_local_place(self.0.base) {
                Some(p) => Some(LocalLifetimeProjection { base: p, region_idx: self.0.region_idx, label: self.0.label }),
                None => None,
            }),
    {
        self.0.as_local_lifetime_projection()
    }

    /// The input as a node of the graph.
    pub fn to_abstraction_input(&self) -> (r: AbstractionInputTarget)
        ensures
            r.0 == PcgNode::LifetimeProjection(self.0),
    {
        AbstractionInputTarget(PcgNode::LifetimeProjection(self.0.clone()))
    }

    /// Whether the input is the node `node`.
    pub fn blocks(&self, node: &PcgNode) -> (b: bool)
        ensures
            b == (*node == PcgNode::LifetimeProjection(self.0)),
    {
        match node {
            PcgNode::LifetimeProjection(lp) => *lp == self.0,
            PcgNode::Place(_) => false,
        }
    }
}

impl FunctionCallAbstractionOutput {
    /// The output as a local node.
    pub fn to_local_node(&self) -> (r: LocalNode)
        ensures
            r == LocalNode::LifetimeProjection(self.0),
    {
        LocalNode::LifetimeProjection(self.0.clone())
    }
}

/// Whether a loop input blocks a node: a place node or a projection of a
/// place equal to the input.
pub open spec fn loop_input_blocks(input: PcgNode, node: PcgNode) -> bool {
    match node {
        PcgNode::Place(_) => input == node,
        PcgNode::LifetimeProjection(lp) => match lp.base {
            PlaceOrConst::Place(_) => input == node,
            PlaceOrConst::Const(_) => false,
        },
    }
}

impl LoopAbstractionInput {
    /// The input as a node of the graph.
    pub fn to_abstraction_input(&self) -> (r: AbstractionInputTarget)
        ensures
            r.0 == self.0,
    {
        AbstractionInputTarget(self.0.clone())
    }

    /// Whether the input blocks `node`; projections of constants are never
    /// blocked by a loop.
    pub fn blocks(&self, node: &PcgNode) -> (b: bool)
        ensures
            b == loop_input_blocks(self.0, *node),
    {
        match node {
            PcgNode::Place(_) => self.0 == *node,
            PcgNode::LifetimeProjection(lp) => match &lp.base {
                PlaceOrConst::Place(_) => self.0 == *node,
                PlaceOrConst::Const(_) => false,
            },
        }
    }
}

impl LoopAbstractionOutput {
    /// The output as an abstraction output.
    pub fn to_abstraction_output(&self) -> (r: AbstractionOutputTarget)
        ensures
            r.0 == self.0,
    {
        AbstractionOutputTarget(self.0.clone())
    }
}

/// What is known of a function call abstraction: where the call is and,
/// when the callee is known, the call.
#[derive(Clone, Copy, Debug, PartialEq, Eq, Structural, Hash)]
pub struct FunctionCallAbstractionEdgeMetadata {
    pub location: Location,
    pub defined_fn_call: Option<DefinedFnCall>,
}

impl FunctionCallAbstractionEdgeMetadata {
    /// The location of the call.
    pub fn location(&self) -> (l: Location)
        ensures
            l == self.location,
    {
        self.location
    }

    /// The callee, when it is known.
    pub fn def_id(&self) -> (d: Option<DefId>)
        ensures
            d == (match self.defined_fn_call {
                Some(c) => Some(c.function_data.def_id),
                None => None,
            }),
    {
        match self.defined_fn_call {
            Some(c) => Some(c.function_data.def_id),
            None => None,
        }
    }

    /// The callee's data, when it is known.
    pub fn function_data(&self) -> (f: Option<FunctionData>)
        ensures
            f == (match self.defined_fn_call {
                Some(c) => Some(c.function_data),
                None => None,
            }),
    {
        match self.defined_fn_call {
            Some(c) => Some(c.function_data),
            None => None,
        }
    }
}

/// One edge of a function call abstraction with what is known of the call.
#[derive(Debug)]
pub struct FunctionCallAbstraction {
    pub metadata: FunctionCallAbstractionEdgeMetadata,
    pub edge: AbstractionBlockEdge<FunctionCallAbstractionInput, FunctionCallAbstractionOutput>,
}

impl FunctionCallAbstraction {
    /// The edge `edge` of the call described by `metadata`.
    pub fn new(metadata: FunctionCallAbstractionEdgeMetadata,
        edge: AbstractionBlockEdge<FunctionCallAbstractionInput, FunctionCallAbstractionOutput>) -> (r: FunctionCallAbstraction)
        ensures
            r.metadata == metadata,
            r.edge == edge,
    {
        FunctionCallAbstraction { metadata, edge }
    }

    /// The location of the call.
    pub fn location(&self) -> (l: Location)
        ensures
            l == self.metadata.location,
    {
        self.metadata.location
    }

    /// The callee, when it is known.
    pub fn def_id(&self) -> (d: Option<DefId>)
        ensures
            d == (match self.metadata.defined_fn_call {
                Some(c) => Some(c.function_data.def_id),
                None => None,
            }),
    {
        self.metadata.def_id()
    }

    /// The generic arguments of the call, when the callee is known.
    pub fn substs(&self) -> (s: Option<usize>)
        ensures
            s == (match self.metadata.defined_fn_call {
                Some(c) => Some(c.caller_substs),
                None => None,
            }),
    {
        match self.metadata.defined_fn_call {
            Some(c) => Some(c.caller_substs),
            None => None,
        }
    }

    /// The edge.
    pub fn edge(&self) -> (e: AbstractionBlockEdge<FunctionCallAbstractionInput, FunctionCallAbstractionOutput>)
        ensures
            e == self.edge,
    {
        let e = self.edge.dup_edge();
        e
    }

    /// The hyperedge with this edge's input and output alone.
    pub fn to_hyper_edge(&self) -> (h: HyperEdge<FunctionCallAbstractionInput, FunctionCallAbstractionOutput>)
        ensures
            h.inputs@ == seq![self.edge.input],
            h.outputs@ == seq![self.edge.output],
    {
        self.edge.to_singleton_hyper_edge()
    }

    /// The nodes that the edge blocks: its input.
    pub fn blocked_nodes(&self) -> (v: Vec<PcgNode>)
        ensures
            v@ == seq![PcgNode::LifetimeProjection(self.edge.input.0)],
    {
        let mut v: Vec<PcgNode> = Vec::new();
        v.push(PcgNode::LifetimeProjection(self.edge.input.0.clone()));
        assert(v@ =~= seq![PcgNode::LifetimeProjection(self.edge.input.0)]);
        v
    }

    /// The nodes that block through the edge: its output.
    pub fn blocked_by_nodes(&self) -> (v: Vec<LocalNode>)
        ensures
            v@ == seq![LocalNode::LifetimeProjection(self.edge.output.0)],
    {
        let mut v: Vec<LocalNode> = Vec::new();
        v.push(LocalNode::LifetimeProjection(self.edge.output.0.clone()));
        assert(v@ =~= seq![LocalNode::LifetimeProjection(self.edge.output.0)]);
        v
    }
}

/// One edge of a loop abstraction with the head of the loop.
#[derive(Debug)]
pub struct LoopAbstraction {
    pub loop_head: BasicBlock,
    pub edge: AbstractionBlockEdge<LoopAbstractionInput, LoopAbstractionOutput>,
}

impl LoopAbstraction {
    /// The edge `edge` of the loop with head `loop_head`.
    pub fn new(edge: AbstractionBlockEdge<LoopAbstractionInput, LoopAbstractionOutput>, loop_head: BasicBlock)
        -> (r: LoopAbstraction)
        ensures
            r.edge == edge,
            r.loop_head == loop_head,
    {
        LoopAbstraction { loop_head, edge }
    }

    /// The head block of the loop.
    pub fn loop_head_block(&self) -> (b: BasicBlock)
        ensures
            b == self.loop_head,
    {
        self.loop_head
    }

    /// The location of the abstraction: the start of the loop head.
    pub fn location(&self) -> (l: Location)
        ensures
            l == (Location { block: self.loop_head, statement_index: 0 }),
    {
        Location { block: self.loop_head, statement_index: 0 }
    }

    /// The nodes that the edge blocks: its input.
    pub fn blocked_nodes(&self) -> (v: Vec<PcgNode>)
        ensures
            v@ == seq![self.edge.input.0],
    {
        let mut v: Vec<PcgNode> = Vec::new();
        v.push(self.edge.input.0.clone());
        assert(v@ =~= seq![self.edge.input.0]);
        v
    }

    /// The nodes that block through the edge: its output.
    pub fn blocked_by_nodes(&self) -> (v: Vec<LocalNode>)
        ensures
            v@ == seq![self.edge.output.0],
    {
        let mut v: Vec<LocalNode> = Vec::new();
        v.push(self.edge.output.0.clone());
        assert(v@ =~= seq![self.edge.output.0]);
        v
    }
}

/// Either a function call abstraction or a loop abstraction.
#[derive(Debug)]
pub enum AbstractionEdge {
    FunctionCall(FunctionCallAbstraction),
    Loop(LoopAbstraction),
}

/// The nodes that an abstraction edge blocks.
pub open spec fn abstraction_blocked_nodes(e: AbstractionEdge) -> Seq<PcgNode> {
    match e {
        AbstractionEdge::FunctionCall(f) => seq![PcgNode::LifetimeProjection(f.edge.input.0)],
        AbstractionEdge::Loop(l) => seq![l.edge.input.0],
    }
}

/// The nodes that block through an abstraction edge.
pub open spec fn abstraction_blocked_by_nodes(e: AbstractionEdge) -> Seq<LocalNode> {
    match e {
        AbstractionEdge::FunctionCall(f) => seq![LocalNode::LifetimeProjection(f.edge.output.0)],
        AbstractionEdge::Loop(l) => seq![l.edge.output.0],
    }
}

/// Whether an abstraction edge blocks a node.
pub open spec fn abstraction_blocks(e: AbstractionEdge, node: PcgNode) -> bool {
    match e {
        AbstractionEdge::FunctionCall(f) => node == PcgNode::LifetimeProjection(f.edge.input.0),
        AbstractionEdge::Loop(l) => loop_input_blocks(l.edge.input.0, node),
    }
}

impl AbstractionEdge {
    /// The nodes that the edge blocks.
    pub fn blocked_nodes(&self) -> (v: Vec<PcgNode>)
        ensures
            v@ == abstraction_blocked_nodes(*self),
    {
        match self {
            AbstractionEdge::FunctionCall(f) => f.blocked_nodes(),
            AbstractionEdge::Loop(l) => l.blocked_nodes(),
        }
    }

    /// The nodes that block through the edge.
    pub fn blocked_by_nodes(&self) -> (v: Vec<LocalNode>)
        ensures
            v@ == abstraction_blocked_by_nodes(*self),
    {
        match self {
            AbstractionEdge::FunctionCall(f) => f.blocked_by_nodes(),
            AbstractionEdge::Loop(l) => l.blocked_by_nodes(),
        }
    }

    /// Whether the edge blocks `node`.
    pub fn blocks_node(&self, node: &PcgNode) -> (b: bool)
        ensures
            b == abstraction_blocks(*self, *node),
    {
        match self {
            AbstractionEdge::FunctionCall(f) => f.edge.input.blocks(node),
            AbstractionEdge::Loop(l) => l.edge.input.blocks(node),
        }
    }

    /// The input of the edge as a node of the graph.
    pub fn input(&self) -> (r: AbstractionInputTarget)
        ensures
            r.0 == abstraction_blocked_nodes(*self)[0],
    {
        match self {
            AbstractionEdge::FunctionCall(f) => f.edge.input.to_abstraction_input(),
            AbstractionEdge::Loop(l) => l.edge.input.to_abstraction_input(),
        }
    }

    /// The output of the edge as a local node.
    pub fn output(&self) -> (r: AbstractionOutputTarget)
        ensures
            r.0 == abstraction_blocked_by_nodes(*self)[0],
    {
        match self {
            AbstractionEdge::FunctionCall(f) => AbstractionOutputTarget(f.edge.output.to_local_node()),
            AbstractionEdge::Loop(l) => l.edge.output.to_abstraction_output(),
        }
    }

    /// The location of the call or of the loop head.
    pub fn location(&self) -> (l: Location)
        ensures
            l == (match *self {
                AbstractionEdge::FunctionCall(f) => f.metadata.location,
                AbstractionEdge::Loop(lp) => Location { block: lp.loop_head, statement_index: 0 },
            }),
    {
        match self {
            AbstractionEdge::FunctionCall(f) => f.location(),
            AbstractionEdge::Loop(l) => l.location(),
        }
    }

    /// The edge as a hyperedge with a single input and output.
    pub fn to_singleton_hyper_edge(&self) -> (h: HyperEdge<AbstractionInputTarget, AbstractionOutputTarget>)
        ensures
            h.inputs@.len() == 1 && h.inputs@[0].0 == abstraction_blocked_nodes(*self)[0],
            h.outputs@.len() == 1 && h.outputs@[0].0 == abstraction_blocked_by_nodes(*self)[0],
    {
        let i = self.input();
        let o = self.output();
        let mut ins: Vec<AbstractionInputTarget> = Vec::new();
        ins.push(i);
        let mut outs: Vec<AbstractionOutputTarget> = Vec::new();
        outs.push(o);
        HyperEdge::new(ins, outs)
    }
}

/// What belongs either to a function call or to a loop.
#[derive(Clone, Copy, Debug, PartialEq, Eq, Hash)]
pub enum FunctionCallOrLoop<FunctionCallData, LoopData> {
    FunctionCall(FunctionCallData),
    Loop(LoopData),
}

impl<FunctionCallData, LoopData> FunctionCallOrLoop<FunctionCallData, LoopData> {
    /// Applies `f` to the data of a function call and `g` to that of a loop.
    pub fn bimap<R, F: FnOnce(FunctionCallData) -> R, G: FnOnce(LoopData) -> R>(self, f: F, g: G) -> (r: R)
        requires
            match self {
                FunctionCallOrLoop::FunctionCall(d) => f.requires((d,)),
                FunctionCallOrLoop::Loop(d) => g.requires((d,)),
            },
        ensures
            match self {
                FunctionCallOrLoop::FunctionCall(d) => f.ensures((d,), r),
                FunctionCallOrLoop::Loop(d) => g.ensures((d,), r),
            },
    {
        match self {
            FunctionCallOrLoop::FunctionCall(data) => f(data),
            FunctionCallOrLoop::Loop(data) => g(data),
        }
    }
}

/// What identifies the edges of a loop abstraction: the loop's head block.
#[derive(Clone, Copy, Debug, PartialEq, Eq, Structural, Hash)]
pub struct LoopAbstractionEdgeMetadata(pub BasicBlock);

impl LoopAbstractionEdgeMetadata {
    /// The head block of the loop.
    pub fn loop_head_block(self) -> (b: BasicBlock)
        ensures
            b == self.0,
    {
        self.0
    }
}

} // verus!
