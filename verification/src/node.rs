//! The nodes of the borrow graph, the kinds of its edges, and the
//! predicates that select nodes to be labelled.
use vstd::prelude::*;
use crate::mir::SnapshotLocation;
use crate::place::{Place, MaybeLabelledPlace, MaybeRemotePlace, mlp_place, mlp_label, is_prefix};
use crate::lifetime::{LifetimeProjection, LocalLifetimeProjection, PlaceOrConst, local_to_general,
    base_local_place, same_label, same_location};
use crate::region::{RegionIdx, LifetimeProjectionLabel};

verus! {

/// A node of the graph: a (possibly labelled) place or a lifetime
/// projection.
#[derive(Debug)]
pub enum PcgNode {
    Place(MaybeLabelledPlace),
    LifetimeProjection(LifetimeProjection),
}

impl PartialEq for PcgNode {
    fn eq(&self, other: &Self) -> (r: bool) {
        match (self, other) {
            (PcgNode::Place(a), PcgNode::Place(b)) => *a == *b,
            (PcgNode::LifetimeProjection(a), PcgNode::LifetimeProjection(b)) => *a == *b,
            _ => false,
        }
    }
}

impl vstd::std_specs::cmp::PartialEqSpecImpl for PcgNode {
    open spec fn obeys_eq_spec() -> bool {
        true
    }

    open spec fn eq_spec(&self, other: &Self) -> bool {
        *self == *other
    }
}

impl Eq for PcgNode {}

impl Clone for PcgNode {
    fn clone(&self) -> (r: Self)
        ensures
            r == *self,
    {
        match self {
            PcgNode::Place(p) => PcgNode::Place(p.clone()),
            PcgNode::LifetimeProjection(p) => PcgNode::LifetimeProjection(p.clone()),
        }
    }
}

/// A node that can be named by a (possibly labelled) place of the body: a
/// place, or a lifetime projection of such a place.
#[derive(Debug)]
pub enum LocalNode {
    Place(MaybeLabelledPlace),
    LifetimeProjection(LocalLifetimeProjection),
}

impl PartialEq for LocalNode {
    fn eq(&self, other: &Self) -> (r: bool) {
        match (self, other) {
            (LocalNode::Place(a), LocalNode::Place(b)) => *a == *b,
            (LocalNode::LifetimeProjection(a), LocalNode::LifetimeProjection(b)) => *a == *b,
            _ => false,
        }
    }
}

impl vstd::std_specs::cmp::PartialEqSpecImpl for LocalNode {
    open spec fn obeys_eq_spec() -> bool {
        true
    }

    open spec fn eq_spec(&self, other: &Self) -> bool {
        *self == *other
    }
}

impl Eq for LocalNode {}

impl Clone for LocalNode {
    fn clone(&self) -> (r: Self)
        ensures
            r == *self,
    {
        match self {
            LocalNode::Place(p) => LocalNode::Place(p.clone()),
            LocalNode::LifetimeProjection(p) => LocalNode::LifetimeProjection(p.clone()),
        }
    }
}

/// A local node seen as a node of the graph.
pub open spec fn local_to_node(n: LocalNode) -> PcgNode {
    match n {
        LocalNode::Place(p) => PcgNode::Place(p),
        LocalNode::LifetimeProjection(lp) => PcgNode::LifetimeProjection(local_to_general(lp)),
    }
}

/// A node as a local node, if it can be named by a place of the body.
pub open spec fn node_to_local(n: PcgNode) -> Option<LocalNode> {
    match n {
        PcgNode::Place(p) => Some(LocalNode::Place(p)),
        PcgNode::LifetimeProjection(lp) => match base_local_place(lp.base) {
            Some(p) => Some(LocalNode::LifetimeProjection(
                LocalLifetimeProjection { base: p, region_idx: lp.region_idx, label: lp.label })),
            None => None,
        },
    }
}

/// The possibly labelled place that a node is about, if any.
pub open spec fn related_labelled_place(n: PcgNode) -> Option<MaybeLabelledPlace> {
    match n {
        PcgNode::Place(p) => Some(p),
        PcgNode::LifetimeProjection(lp) => base_local_place(lp.base),
    }
}

/// The kind of a node.
#[derive(Clone, Copy, Debug, PartialEq, Eq, Structural, Hash)]
pub enum PcgNodeType {
    Place,
    LifetimeProjection,
}

impl PcgNode {
    /// The node of a current place.
    pub fn from_place(place: Place) -> (n: PcgNode)
        ensures
            n == PcgNode::Place(MaybeLabelledPlace::Current(place)),
    {
        PcgNode::Place(MaybeLabelledPlace::Current(place))
    }

    /// The place, if this is a place node.
    pub fn as_place(&self) -> (r: Option<MaybeLabelledPlace>)
        ensures
            r == (match *self {
                PcgNode::Place(p) => Some(p),
                _ => None,
            }),
    {
        match self {
            PcgNode::Place(p) => Some(p.clone()),
            PcgNode::LifetimeProjection(_) => None,
        }
    }

    /// The current place, if this is a current place node.
    pub fn as_current_place(&self) -> (r: Option<Place>)
        ensures
            r == (match *self {
                PcgNode::Place(MaybeLabelledPlace::Current(p)) => Some(p),
                _ => None,
            }),
    {
        match self {
            PcgNode::Place(p) => p.as_current_place(),
            PcgNode::LifetimeProjection(_) => None,
        }
    }

    /// The node as a local node, if it can be named by a place of the body.
    pub fn as_local_node(&self) -> (r: Option<LocalNode>)
        ensures
            r == node_to_local(*self),
    {
        match self {
            PcgNode::Place(p) => Some(LocalNode::Place(p.clone())),
            PcgNode::LifetimeProjection(lp) => match lp.as_local_lifetime_projection() {
                Some(l) => Some(LocalNode::LifetimeProjection(l)),
                None => None,
            },
        }
    }

    /// The possibly labelled place that the node is about: the place of a
    /// place node, the base of a projection of a local place.
    pub fn related_maybe_labelled_place(&self) -> (r: Option<MaybeLabelledPlace>)
        ensures
            r == related_labelled_place(*self),
    {
        match self {
            PcgNode::Place(p) => Some(p.clone()),
            PcgNode::LifetimeProjection(lp) => lp.base.as_local_place(),
        }
    }

    /// Whether the node is about a labelled place.
    pub fn is_old(&self) -> (b: bool)
        ensures
            b == (match related_labelled_place(*self) {
                Some(p) => mlp_label(p).is_some(),
                None => false,
            }),
    {
        match self.related_maybe_labelled_place() {
            Some(p) => p.is_old(),
            None => false,
        }
    }

    /// The kind of the node.
    pub fn node_type(&self) -> (t: PcgNodeType)
        ensures
            t == (match *self {
                PcgNode::Place(_) => PcgNodeType::Place,
                PcgNode::LifetimeProjection(_) => PcgNodeType::LifetimeProjection,
            }),
    {
        match self {
            PcgNode::Place(_) => PcgNodeType::Place,
            PcgNode::LifetimeProjection(_) => PcgNodeType::LifetimeProjection,
        }
    }

    /// Whether the node refers to the current place `place`, directly or as
    /// the base of a projection.
    pub fn references_place(&self, place: &Place) -> (b: bool)
        ensures
            b == (match *self {
                PcgNode::Place(MaybeLabelledPlace::Current(p)) => p == *place,
                PcgNode::LifetimeProjection(lp) => lp.base == PlaceOrConst::Place(
                    MaybeRemotePlace::Local(MaybeLabelledPlace::Current(*place))),
                _ => false,
            }),
    {
        match self {
            PcgNode::Place(MaybeLabelledPlace::Current(p)) => *p == *place,
            PcgNode::LifetimeProjection(lp) => match &lp.base {
                PlaceOrConst::Place(MaybeRemotePlace::Local(MaybeLabelledPlace::Current(p))) => *p == *place,
                _ => false,
            },
            _ => false,
        }
    }
}

impl LocalNode {
    /// The node of a current place.
    pub fn from_place(place: Place) -> (n: LocalNode)
        ensures
            n == LocalNode::Place(MaybeLabelledPlace::Current(place)),
    {
        LocalNode::Place(MaybeLabelledPlace::Current(place))
    }

    /// The node as a node of the graph.
    pub fn to_pcg_node(&self) -> (n: PcgNode)
        ensures
            n == local_to_node(*self),
    {
        match self {
            LocalNode::Place(p) => PcgNode::Place(p.clone()),
            LocalNode::LifetimeProjection(lp) => PcgNode::LifetimeProjection(lp.to_lifetime_projection()),
        }
    }

    /// The possibly labelled place of the node.
    pub fn maybe_labelled_place(&self) -> (p: MaybeLabelledPlace)
        ensures
            p == (match *self {
                LocalNode::Place(q) => q,
                LocalNode::LifetimeProjection(lp) => lp.base,
            }),
    {
        match self {
            LocalNode::Place(p) => p.clone(),
            LocalNode::LifetimeProjection(lp) => lp.base.clone(),
        }
    }

    /// Whether the place of the node is labelled.
    pub fn is_old(&self) -> (b: bool)
        ensures
            b == (match *self {
                LocalNode::Place(q) => mlp_label(q).is_some(),
                LocalNode::LifetimeProjection(lp) => mlp_label(lp.base).is_some(),
            }),
    {
        match self {
            LocalNode::Place(p) => p.is_old(),
            LocalNode::LifetimeProjection(lp) => lp.base.is_old(),
        }
    }

    /// The current place of the node, if its place is current.
    pub fn related_current_place(&self) -> (r: Option<Place>)
        ensures
            r == (match *self {
                LocalNode::Place(MaybeLabelledPlace::Current(q)) => Some(q),
                LocalNode::LifetimeProjection(lp) => match lp.base {
                    MaybeLabelledPlace::Current(q) => Some(q),
                    _ => None,
                },
                _ => None,
            }),
    {
        match self {
            LocalNode::Place(p) => p.as_current_place(),
            LocalNode::LifetimeProjection(lp) => lp.base.as_current_place(),
        }
    }

    /// The current place, if this is a current place node.
    pub fn as_current_place(&self) -> (r: Option<Place>)
        ensures
            r == (match *self {
                LocalNode::Place(MaybeLabelledPlace::Current(p)) => Some(p),
                _ => None,
            }),
    {
        match self {
            LocalNode::Place(p) => p.as_current_place(),
            LocalNode::LifetimeProjection(_) => None,
        }
    }

    /// Whether this is a place node.
    pub fn is_place(&self) -> (b: bool)
        ensures
            b == (*self is Place),
    {
        match self {
            LocalNode::Place(_) => true,
            LocalNode::LifetimeProjection(_) => false,
        }
    }

    /// The place of the node, without its label.
    pub fn place(&self) -> (p: Place)
        ensures
            p == (match *self {
                LocalNode::Place(q) => mlp_place(q),
                LocalNode::LifetimeProjection(lp) => mlp_place(lp.base),
            }),
    {
        match self {
            LocalNode::Place(p) => p.place(),
            LocalNode::LifetimeProjection(lp) => lp.base.place(),
        }
    }
}

/// What a borrow-flow edge created for the placeholder label stands for.
#[derive(Clone, Copy, Debug, PartialEq, Eq, Structural, Hash)]
pub enum FutureEdgeKind {
    /// An edge of the form `x.f|'a -> x|'a at FUTURE`.
    FromExpansion,
    /// For a borrow `let y = &mut x`, an edge `y|'a -> x|'a at FUTURE`.
    FromBorrow,
    /// For an expansion, an edge `x|'a at loc -> x|'a at FUTURE`.
    ToFutureSelf,
}

/// The kind of an edge, without its data.
#[derive(Clone, Copy, Debug, PartialEq, Eq, Structural, Hash)]
pub enum BorrowPcgEdgeType {
    Borrow,
    BorrowPcgExpansion,
    Deref,
    Abstraction,
    BorrowFlow { future_edge_kind: Option<FutureEdgeKind> },
    Coupled,
}

/// Whether a node is among the sources or the targets of an edge.
#[derive(Clone, Copy, Debug, PartialEq, Eq, Structural, Hash)]
pub enum SourceOrTarget {
    Source,
    Target,
}

/// Where a node that may be labelled occurs: in the sources or the targets
/// of an edge of a given kind.
#[derive(Clone, Copy, Debug, PartialEq, Eq, Structural, Hash)]
pub struct LabelNodeContext {
    pub source_or_target: SourceOrTarget,
    pub edge_type: BorrowPcgEdgeType,
}

impl LabelNodeContext {
    /// The context of a node in the sources or targets of an edge kind.
    pub fn new(source_or_target: SourceOrTarget, edge_type: BorrowPcgEdgeType) -> (c: LabelNodeContext)
        ensures
            c.source_or_target == source_or_target,
            c.edge_type == edge_type,
    {
        LabelNodeContext { source_or_target, edge_type }
    }

    /// Whether the node is a source or a target.
    pub fn source_or_target(self) -> (s: SourceOrTarget)
        ensures
            s == self.source_or_target,
    {
        self.source_or_target
    }

    /// The kind of the edge.
    pub fn edge_type(self) -> (t: BorrowPcgEdgeType)
        ensures
            t == self.edge_type,
    {
        self.edge_type
    }
}

/// What a labelling of lifetime projections did to an edge, ordered from
/// least to most drastic.
#[derive(Clone, Copy, Debug, PartialEq, Eq, Structural, Hash)]
pub enum LabelLifetimeProjectionResult {
    Unchanged,
    Changed,
    ShouldCollapse,
}

/// The rank of a labelling result in its order.
pub open spec fn label_result_rank(r: LabelLifetimeProjectionResult) -> int {
    match r {
        LabelLifetimeProjectionResult::Unchanged => 0,
        LabelLifetimeProjectionResult::Changed => 1,
        LabelLifetimeProjectionResult::ShouldCollapse => 2,
    }
}

/// What a filtering pass does with an edge.
#[derive(Clone, Copy, Debug, PartialEq, Eq, Structural, Hash)]
pub enum FilterMutResult {
    Unchanged,
    Changed,
    Remove,
}

impl LabelLifetimeProjectionResult {
    /// The rank of the result.
    pub fn rank(self) -> (n: u8)
        ensures
            n == label_result_rank(self),
    {
        match self {
            LabelLifetimeProjectionResult::Unchanged => 0,
            LabelLifetimeProjectionResult::Changed => 1,
            LabelLifetimeProjectionResult::ShouldCollapse => 2,
        }
    }

    /// Combines with another result, keeping the more drastic one.
    pub fn combine(&mut self, rhs: LabelLifetimeProjectionResult)
        ensures
            *final(self) == (if label_result_rank(rhs) > label_result_rank(*old(self)) { rhs } else { *old(self) }),
    {
        if rhs.rank() > self.rank() {
            *self = rhs;
        }
    }

    /// What a filtering pass does with an edge that was labelled so.
    pub fn to_filter_mut_result(self) -> (r: FilterMutResult)
        ensures
            r == (match self {
                LabelLifetimeProjectionResult::Changed => FilterMutResult::Changed,
                LabelLifetimeProjectionResult::Unchanged => FilterMutResult::Unchanged,
                LabelLifetimeProjectionResult::ShouldCollapse => FilterMutResult::Remove,
            }),
    {
        match self {
            LabelLifetimeProjectionResult::Changed => FilterMutResult::Changed,
            LabelLifetimeProjectionResult::Unchanged => FilterMutResult::Unchanged,
            LabelLifetimeProjectionResult::ShouldCollapse => FilterMutResult::Remove,
        }
    }
}

/// A predicate that selects the nodes of edges to be labelled.
#[derive(Debug)]
pub enum LabelNodePredicate {
    LifetimeProjectionLabelEquals(Option<LifetimeProjectionLabel>),
    PlaceLabelEquals(Option<SnapshotLocation>),
    ProjectionRegionIdxEquals(RegionIdx),
    Equals(PcgNode),
    /// The place associated with the node is exactly this place.
    PlaceEquals(Place),
    /// The place associated with the node is a postfix of this place.
    PlaceIsPostfixOf(Place),
    NodeType(PcgNodeType),
    And(Vec<LabelNodePredicate>),
    Or(Vec<LabelNodePredicate>),
    Not(Box<LabelNodePredicate>),
    EdgeType(BorrowPcgEdgeType),
    InSourceNodes,
    InTargetNodes,
}

/// Whether every predicate of a sequence holds of a node in a context.
pub open spec fn all_apply(ps: Seq<LabelNodePredicate>, c: PcgNode, ctx: LabelNodeContext) -> bool
    decreases ps,
{
    if ps.len() == 0 {
        true
    } else {
        all_apply(ps.drop_last(), c, ctx) && predicate_applies(ps.last(), c, ctx)
    }
}

/// Whether some predicate of a sequence holds of a node in a context.
pub open spec fn any_applies(ps: Seq<LabelNodePredicate>, c: PcgNode, ctx: LabelNodeContext) -> bool
    decreases ps,
{
    if ps.len() == 0 {
        false
    } else {
        any_applies(ps.drop_last(), c, ctx) || predicate_applies(ps.last(), c, ctx)
    }
}

/// A conjunction of predicates holds exactly when each of them does.
pub proof fn lemma_all_apply(ps: Seq<LabelNodePredicate>, c: PcgNode, ctx: LabelNodeContext)
    ensures
        all_apply(ps, c, ctx) <==> forall|i: int| 0 <= i < ps.len() ==> #[trigger] predicate_applies(ps[i], c, ctx),
    decreases ps.len(),
{
    if ps.len() > 0 {
        let q = ps.drop_last();
        lemma_all_apply(q, c, ctx);
        if forall|i: int| 0 <= i < ps.len() ==> #[trigger] predicate_applies(ps[i], c, ctx) {
            assert forall|i: int| 0 <= i < q.len() implies #[trigger] predicate_applies(q[i], c, ctx) by {
                assert(q[i] == ps[i]);
                assert(predicate_applies(ps[i], c, ctx));
            }
            assert(predicate_applies(ps[ps.len() - 1], c, ctx));
        }
        if all_apply(ps, c, ctx) {
            assert forall|i: int| 0 <= i < ps.len() implies #[trigger] predicate_applies(ps[i], c, ctx) by {
                if i < ps.len() - 1 {
                    assert(q[i] == ps[i]);
                    assert(predicate_applies(q[i], c, ctx));
                }
            }
        }
    }
}

/// A disjunction of predicates holds exactly when one of them does.
pub proof fn lemma_any_applies(ps: Seq<LabelNodePredicate>, c: PcgNode, ctx: LabelNodeContext)
    ensures
        any_applies(ps, c, ctx) <==> exists|i: int| 0 <= i < ps.len() && #[trigger] predicate_applies(ps[i], c, ctx),
    decreases ps.len(),
{
    if ps.len() > 0 {
        lemma_any_applies(ps.drop_last(), c, ctx);
        if any_applies(ps.drop_last(), c, ctx) {
            let i = choose|i: int| 0 <= i < ps.drop_last().len() && #[trigger] predicate_applies(ps.drop_last()[i], c, ctx);
            assert(predicate_applies(ps[i], c, ctx));
        }
        if predicate_applies(ps.last(), c, ctx) {
            assert(predicate_applies(ps[ps.len() - 1], c, ctx));
        }
        if exists|i: int| 0 <= i < ps.len() && #[trigger] predicate_applies(ps[i], c, ctx) {
            let i = choose|i: int| 0 <= i < ps.len() && #[trigger] predicate_applies(ps[i], c, ctx);
            if i < ps.len() - 1 {
                assert(predicate_applies(ps.drop_last()[i], c, ctx));
            }
        }
    }
}

/// Whether a predicate holds of a node in a context.
pub open spec fn predicate_applies(p: LabelNodePredicate, c: PcgNode, ctx: LabelNodeContext) -> bool
    decreases p,
{
    match p {
        LabelNodePredicate::PlaceEquals(q) => match related_labelled_place(c) {
            Some(m) => mlp_place(m) == q,
            None => false,
        },
        LabelNodePredicate::PlaceIsPostfixOf(q) => match related_labelled_place(c) {
            Some(m) => is_prefix(q, mlp_place(m)),
            None => false,
        },
        LabelNodePredicate::NodeType(t) => match c {
            PcgNode::Place(_) => t == PcgNodeType::Place,
            PcgNode::LifetimeProjection(_) => t == PcgNodeType::LifetimeProjection,
        },
        LabelNodePredicate::And(ps) => all_apply(ps@, c, ctx),
        LabelNodePredicate::Or(ps) => any_applies(ps@, c, ctx),
        LabelNodePredicate::Not(q) => !predicate_applies(*q, c, ctx),
        LabelNodePredicate::EdgeType(t) => ctx.edge_type == t,
        LabelNodePredicate::InSourceNodes => ctx.source_or_target == SourceOrTarget::Source,
        LabelNodePredicate::InTargetNodes => ctx.source_or_target == SourceOrTarget::Target,
        LabelNodePredicate::LifetimeProjectionLabelEquals(l) => match c {
            PcgNode::LifetimeProjection(lp) => lp.label == l,
            _ => false,
        },
        LabelNodePredicate::PlaceLabelEquals(l) => match related_labelled_place(c) {
            Some(m) => mlp_label(m) == l,
            None => false,
        },
        LabelNodePredicate::ProjectionRegionIdxEquals(i) => match c {
            PcgNode::LifetimeProjection(lp) => lp.region_idx == i,
            _ => false,
        },
        LabelNodePredicate::Equals(n) => c == n,
    }
}

/// Whether a node is a projection with the placeholder label whose base is
/// a current place that `place` is a prefix of.
pub open spec fn future_postfix_of(place: Place, c: PcgNode) -> bool {
    match c {
        PcgNode::LifetimeProjection(lp) => lp.label == Some(LifetimeProjectionLabel::Future) && match lp.base {
            PlaceOrConst::Place(MaybeRemotePlace::Local(MaybeLabelledPlace::Current(q))) => is_prefix(place, q),
            _ => false,
        },
        _ => false,
    }
}

/// Whether a node is a projection of the base `place` at `region_idx`
/// without the placeholder label.
pub open spec fn non_future_projection_of(place: MaybeLabelledPlace, region_idx: RegionIdx, c: PcgNode) -> bool {
    match c {
        PcgNode::LifetimeProjection(lp) => lp.region_idx == region_idx
            && lp.label != Some(LifetimeProjectionLabel::Future) && match base_local_place(lp.base) {
            Some(m) => mlp_place(m) == mlp_place(place) && mlp_label(m) == mlp_label(place),
            None => false,
        },
        _ => false,
    }
}

impl LabelNodePredicate {
    /// The predicate that selects the lifetime projections of the same
    /// region index and label as `projection` whose place is a postfix of
    /// its place, with the same place label.
    pub fn postfix_lifetime_projection(projection: &LocalLifetimeProjection) -> (r: LabelNodePredicate)
        ensures
            r matches LabelNodePredicate::And(v) && v@ == seq![
                LabelNodePredicate::PlaceIsPostfixOf(mlp_place(projection.base)),
                LabelNodePredicate::PlaceLabelEquals(mlp_label(projection.base)),
                LabelNodePredicate::ProjectionRegionIdxEquals(projection.region_idx),
                LabelNodePredicate::LifetimeProjectionLabelEquals(projection.label),
            ],
    {
        let mut v: Vec<LabelNodePredicate> = Vec::new();
        v.push(LabelNodePredicate::PlaceIsPostfixOf(projection.base.place()));
        v.push(LabelNodePredicate::PlaceLabelEquals(projection.base.location()));
        v.push(LabelNodePredicate::ProjectionRegionIdxEquals(projection.region_idx));
        v.push(LabelNodePredicate::LifetimeProjectionLabelEquals(projection.label));
        assert(v@ =~= seq![
            LabelNodePredicate::PlaceIsPostfixOf(mlp_place(projection.base)),
            LabelNodePredicate::PlaceLabelEquals(mlp_label(projection.base)),
            LabelNodePredicate::ProjectionRegionIdxEquals(projection.region_idx),
            LabelNodePredicate::LifetimeProjectionLabelEquals(projection.label),
        ]);
        LabelNodePredicate::And(v)
    }

    /// Whether the predicate holds of `candidate`, a node that occurs as
    /// `context` says.
    pub fn applies_to(&self, candidate: &PcgNode, context: LabelNodeContext) -> (b: bool)
        ensures
            b == predicate_applies(*self, *candidate, context),
        decreases self,
    {
        match self {
            LabelNodePredicate::PlaceEquals(q) => match candidate.related_maybe_labelled_place() {
                Some(m) => m.place() == *q,
                None => false,
            },
            LabelNodePredicate::PlaceIsPostfixOf(q) => match candidate.related_maybe_labelled_place() {
                Some(m) => q.is_prefix_of(&m.place()),
                None => false,
            },
            LabelNodePredicate::NodeType(t) => candidate.node_type() == *t,
            LabelNodePredicate::And(ps) => {
                proof {
                    lemma_all_apply(ps@, *candidate, context);
                }
                let mut i: usize = 0;
                while i < ps.len()
                    invariant
                        *self == LabelNodePredicate::And(*ps),
                        i <= ps@.len(),
                        forall|j: int| 0 <= j < i ==> predicate_applies(#[trigger] ps@[j], *candidate, context),
                    decreases ps.len() - i,
                {
                    proof {
                        assert(decreases_to!(*self => (*self)->And_0));
                        assert(decreases_to!(*ps => ps@));
                        assert(decreases_to!(ps@ => ps@[i as int]));
                    }
                    if !ps[i].applies_to(candidate, context) {
                        proof {
                            lemma_all_apply(ps@, *candidate, context);
                        }
                        return false;
                    }
                    i = i + 1;
                }
                true
            },
            LabelNodePredicate::Or(ps) => {
                proof {
                    lemma_any_applies(ps@, *candidate, context);
                }
                let mut i: usize = 0;
                while i < ps.len()
                    invariant
                        *self == LabelNodePredicate::Or(*ps),
                        i <= ps@.len(),
                        forall|j: int| 0 <= j < i ==> !predicate_applies(#[trigger] ps@[j], *candidate, context),
                    decreases ps.len() - i,
                {
                    proof {
                        assert(decreases_to!(*self => (*self)->Or_0));
                        assert(decreases_to!(*ps => ps@));
                        assert(decreases_to!(ps@ => ps@[i as int]));
                    }
                    if ps[i].applies_to(candidate, context) {
                        proof {
                            lemma_any_applies(ps@, *candidate, context);
                        }
                        return true;
                    }
                    i = i + 1;
                }
                false
            },
            LabelNodePredicate::Not(q) => !q.applies_to(candidate, context),
            LabelNodePredicate::EdgeType(t) => context.edge_type() == *t,
            LabelNodePredicate::InSourceNodes => context.source_or_target() == SourceOrTarget::Source,
            LabelNodePredicate::InTargetNodes => context.source_or_target() == SourceOrTarget::Target,
            LabelNodePredicate::LifetimeProjectionLabelEquals(l) => match candidate {
                PcgNode::LifetimeProjection(lp) => same_label(lp.label, *l),
                _ => false,
            },
            LabelNodePredicate::PlaceLabelEquals(l) => match candidate.related_maybe_labelled_place() {
                Some(m) => same_location(m.location(), *l),
                None => false,
            },
            LabelNodePredicate::ProjectionRegionIdxEquals(i) => match candidate {
                PcgNode::LifetimeProjection(lp) => lp.region_idx == *i,
                _ => false,
            },
            LabelNodePredicate::Equals(n) => *candidate == *n,
        }
    }

    /// The negation of the predicate.
    pub fn not(self) -> (r: LabelNodePredicate)
        ensures
            r == LabelNodePredicate::Not(Box::new(self)),
    {
        LabelNodePredicate::Not(Box::new(self))
    }

    /// The predicate that holds of the projections with the placeholder
    /// label whose base is a current place that `place` is a prefix of.
    pub fn all_future_postfixes(place: Place) -> (r: LabelNodePredicate)
        ensures
            forall|c: PcgNode, ctx: LabelNodeContext| #[trigger] predicate_applies(r, c, ctx) <==>
                future_postfix_of(place, c),
    {
        let mut v: Vec<LabelNodePredicate> = Vec::new();
        v.push(LabelNodePredicate::LifetimeProjectionLabelEquals(Some(LifetimeProjectionLabel::Future)));
        v.push(LabelNodePredicate::PlaceLabelEquals(None));
        v.push(LabelNodePredicate::PlaceIsPostfixOf(place));
        let r = LabelNodePredicate::And(v);
        assert forall|c: PcgNode, ctx: LabelNodeContext| #[trigger] predicate_applies(r, c, ctx) <==>
                future_postfix_of(place, c) by {
            let ps = v@;
            assert(ps.len() == 3);
            assert(r == LabelNodePredicate::And(v));
            lemma_all_apply(ps, c, ctx);
            if predicate_applies(r, c, ctx) {
                assert(predicate_applies(ps[0], c, ctx));
                assert(predicate_applies(ps[1], c, ctx));
                assert(predicate_applies(ps[2], c, ctx));
            }
            if future_postfix_of(place, c) {
                assert(predicate_applies(ps[0], c, ctx));
                assert(predicate_applies(ps[1], c, ctx));
                assert(predicate_applies(ps[2], c, ctx));
                assert forall|i: int| 0 <= i < ps.len() implies #[trigger] predicate_applies(ps[i], c, ctx) by {
                    if i == 0 {} else if i == 1 {} else {}
                }
            }
        }
        r
    }

    /// The predicate that holds of the projections of a given base place and
    /// region index that do not carry the placeholder label.
    pub fn all_non_future(place: &MaybeLabelledPlace, region_idx: RegionIdx) -> (r: LabelNodePredicate)
        ensures
            forall|c: PcgNode, ctx: LabelNodeContext| #[trigger] predicate_applies(r, c, ctx) <==>
                non_future_projection_of(*place, region_idx, c),
    {
        let mut v: Vec<LabelNodePredicate> = Vec::new();
        v.push(LabelNodePredicate::PlaceEquals(place.place()));
        v.push(LabelNodePredicate::PlaceLabelEquals(place.location()));
        v.push(LabelNodePredicate::ProjectionRegionIdxEquals(region_idx));
        v.push(LabelNodePredicate::LifetimeProjectionLabelEquals(Some(LifetimeProjectionLabel::Future)).not());
        let r = LabelNodePredicate::And(v);
        assert forall|c: PcgNode, ctx: LabelNodeContext| #[trigger] predicate_applies(r, c, ctx) <==>
                non_future_projection_of(*place, region_idx, c) by {
            let ps = v@;
            lemma_all_apply(ps, c, ctx);
            let inner = LabelNodePredicate::LifetimeProjectionLabelEquals(Some(LifetimeProjectionLabel::Future));
            assert(ps[3] == LabelNodePredicate::Not(Box::new(inner)));
            assert(predicate_applies(inner, c, ctx) == (c matches PcgNode::LifetimeProjection(lp)
                && lp.label == Some(LifetimeProjectionLabel::Future)));
            if predicate_applies(r, c, ctx) {
                assert(predicate_applies(ps[0], c, ctx));
                assert(predicate_applies(ps[1], c, ctx));
                assert(predicate_applies(ps[2], c, ctx));
                assert(predicate_applies(ps[3], c, ctx));
            }
            if non_future_projection_of(*place, region_idx, c) {
                assert(predicate_applies(ps[0], c, ctx));
                assert(predicate_applies(ps[1], c, ctx));
                assert(predicate_applies(ps[2], c, ctx));
                assert(predicate_applies(ps[3], c, ctx));
                assert forall|i: int| 0 <= i < ps.len() implies #[trigger] predicate_applies(ps[i], c, ctx) by {
                    if i == 0 {} else if i == 1 {} else if i == 2 {} else {}
                }
            }
        }
        r
    }

    /// The predicate that holds exactly of the given local projection.
    pub fn equals_lifetime_projection(projection: &LocalLifetimeProjection) -> (r: LabelNodePredicate)
        ensures
            forall|c: PcgNode, ctx: LabelNodeContext| #[trigger] predicate_applies(r, c, ctx) <==>
                c == PcgNode::LifetimeProjection(local_to_general(*projection)),
    {
        LabelNodePredicate::Equals(PcgNode::LifetimeProjection(projection.to_lifetime_projection()))
    }
}

/// A node of an edge that was replaced by a labelled version of it.
#[derive(Debug)]
pub struct NodeReplacement {
    pub from: PcgNode,
    pub to: PcgNode,
}

impl NodeReplacement {
    /// The replacement of `from` by `to`.
    pub fn new(from: PcgNode, to: PcgNode) -> (r: NodeReplacement)
        ensures
            r.from == from,
            r.to == to,
    {
        NodeReplacement { from, to }
    }
}

} // verus!
