//! The edges of the borrow graph other than abstractions: borrows,
//! dereferences of references and raw pointers, delegations, borrow flows
//! and expansions. Each edge blocks some nodes (its sources) and is blocked
//! by others (its targets).
use vstd::prelude::*;
use crate::text::{push_str, push_decimal, decimal};
use crate::mir::{BorrowKind, Location, Mutability, PlaceElem, SnapshotLocation, borrow_kind_mutability};
use crate::place::{Place, MaybeLabelledPlace, MaybeRemotePlace, mlp_place, mlp_label};
use crate::lifetime::{LifetimeProjection, LocalLifetimeProjection, PlaceOrConst, local_to_general, deref_of,
    same_label};
use crate::region::{RegionIdx, PcgRegion, LifetimeProjectionLabel, first_index_of, find_region_idx};
use crate::node::{PcgNode, LocalNode, local_to_node, BorrowPcgEdgeType, SourceOrTarget, LabelNodeContext,
    LabelNodePredicate, LabelLifetimeProjectionResult, FutureEdgeKind, predicate_applies, label_result_rank};

verus! {

/// Whether two optional indices are the same.
fn same_index(a: Option<usize>, b: Option<usize>) -> (r: bool)
    ensures
        r == (a == b),
{
    match (a, b) {
        (None, None) => true,
        (Some(x), Some(y)) => x == y,
        _ => false,
    }
}

/// A borrow that is explicit in the MIR, e.g. `let x = &mut y;`.
#[derive(Debug)]
pub struct BorrowEdge {
    /// The place that is blocked by the borrow, the `y` above.
    pub blocked_place: MaybeLabelledPlace,
    /// The place that is assigned the borrow, the `x` above.
    pub assigned_ref: MaybeLabelledPlace,
    pub kind: BorrowKind,
    /// The location at which the borrow was created.
    pub reserve_location: Location,
    pub region: PcgRegion,
    /// The borrow checker's index of the borrow, where it has one.
    pub borrow_index: Option<usize>,
    /// The index of the reference's region among the regions of the
    /// assigned place's type.
    pub assigned_region_idx: RegionIdx,
    pub assigned_lifetime_projection_label: Option<LifetimeProjectionLabel>,
    pub activated: bool,
}

impl PartialEq for BorrowEdge {
    fn eq(&self, other: &Self) -> (r: bool) {
        self.blocked_place == other.blocked_place && self.assigned_ref == other.assigned_ref
            && self.kind == other.kind && self.reserve_location == other.reserve_location
            && self.region == other.region && same_index(self.borrow_index, other.borrow_index)
            && self.assigned_region_idx == other.assigned_region_idx
            && same_label(self.assigned_lifetime_projection_label, other.assigned_lifetime_projection_label)
            && self.activated == other.activated
    }
}

impl vstd::std_specs::cmp::PartialEqSpecImpl for BorrowEdge {
    open spec fn obeys_eq_spec() -> bool {
        true
    }

    open spec fn eq_spec(&self, other: &Self) -> bool {
        *self == *other
    }
}

impl Eq for BorrowEdge {}

impl Clone for BorrowEdge {
    fn clone(&self) -> (r: Self)
        ensures
            r == *self,
    {
        BorrowEdge {
            blocked_place: self.blocked_place.clone(),
            assigned_ref: self.assigned_ref.clone(),
            kind: self.kind,
            reserve_location: self.reserve_location,
            region: self.region,
            borrow_index: self.borrow_index,
            assigned_region_idx: self.assigned_region_idx,
            assigned_lifetime_projection_label: self.assigned_lifetime_projection_label,
            activated: self.activated,
        }
    }
}

/// The projection `x↓'x` of the assigned place of a borrow at the region of
/// its reference type.
pub open spec fn assigned_projection(e: BorrowEdge) -> LocalLifetimeProjection {
    LocalLifetimeProjection {
        base: e.assigned_ref,
        region_idx: e.assigned_region_idx,
        label: e.assigned_lifetime_projection_label,
    }
}

/// The nodes that a borrow blocks: the borrowed place.
pub open spec fn borrow_blocked_nodes(e: BorrowEdge) -> Seq<PcgNode> {
    seq![PcgNode::Place(e.blocked_place)]
}

/// The nodes that block through a borrow: the assigned projection.
pub open spec fn borrow_blocked_by_nodes(e: BorrowEdge) -> Seq<LocalNode> {
    seq![LocalNode::LifetimeProjection(assigned_projection(e))]
}

/// A one-element vector of graph nodes.
fn node_vec1(a: PcgNode) -> (v: Vec<PcgNode>)
    ensures
        v@ == seq![a],
{
    let mut v: Vec<PcgNode> = Vec::new();
    v.push(a);
    assert(v@ =~= seq![a]);
    v
}

/// A two-element vector of graph nodes.
fn node_vec2(a: PcgNode, b: PcgNode) -> (v: Vec<PcgNode>)
    ensures
        v@ == seq![a, b],
{
    let mut v: Vec<PcgNode> = Vec::new();
    v.push(a);
    v.push(b);
    assert(v@ =~= seq![a, b]);
    v
}

/// A one-element vector of local nodes.
fn local_vec1(a: LocalNode) -> (v: Vec<LocalNode>)
    ensures
        v@ == seq![a],
{
    let mut v: Vec<LocalNode> = Vec::new();
    v.push(a);
    assert(v@ =~= seq![a]);
    v
}

impl BorrowEdge {
    /// The borrow of `blocked_place` assigned to `assigned_ref`, whose type
    /// is a reference with region `ref_region`; `assigned_regions` are the
    /// regions of that type. The borrow is active unless it is a two-phase
    /// borrow.
    pub fn new(
        blocked_place: MaybeLabelledPlace,
        assigned_ref: MaybeLabelledPlace,
        kind: BorrowKind,
        reserve_location: Location,
        region: PcgRegion,
        borrow_index: Option<usize>,
        ref_region: PcgRegion,
        assigned_regions: &Vec<PcgRegion>,
    ) -> (e: BorrowEdge)
        requires
            assigned_regions@.contains(ref_region),
        ensures
            e.blocked_place == blocked_place,
            e.assigned_ref == assigned_ref,
            e.kind == kind,
            e.reserve_location == reserve_location,
            e.region == region,
            e.borrow_index == borrow_index,
            first_index_of(assigned_regions@, ref_region) == Some(e.assigned_region_idx.0 as int),
            e.assigned_lifetime_projection_label.is_none(),
            e.activated == !(kind matches BorrowKind::Mut { two_phase: true }),
    {
        let idx = find_region_idx(assigned_regions, ref_region);
        match idx {
            Some(i) => {
                proof {
                    let k = choose|j: int| 0 <= j < assigned_regions@.len() && assigned_regions@[j] == ref_region
                        && forall|l: int| 0 <= l < j ==> assigned_regions@[l] != ref_region;
                    assert(k == i.0);
                }
                BorrowEdge {
                    blocked_place,
                    assigned_ref,
                    kind,
                    reserve_location,
                    region,
                    borrow_index,
                    assigned_region_idx: i,
                    assigned_lifetime_projection_label: None,
                    activated: !kind.is_two_phase_borrow(),
                }
            },
            None => {
                proof {
                    assert(false);
                }
                BorrowEdge {
                    blocked_place,
                    assigned_ref,
                    kind,
                    reserve_location,
                    region,
                    borrow_index,
                    assigned_region_idx: RegionIdx(0),
                    assigned_lifetime_projection_label: None,
                    activated: true,
                }
            },
        }
    }

    /// The region of the borrow.
    pub fn region(&self) -> (r: PcgRegion)
        ensures
            r == self.region,
    {
        self.region
    }

    /// The kind of the borrow.
    pub fn kind(&self) -> (k: BorrowKind)
        ensures
            k == self.kind,
    {
        self.kind
    }

    /// The place assigned the borrow.
    pub fn assigned_ref(&self) -> (p: MaybeLabelledPlace)
        ensures
            p == self.assigned_ref,
    {
        self.assigned_ref.clone()
    }

    /// The borrowed place.
    pub fn blocked_place(&self) -> (p: MaybeLabelledPlace)
        ensures
            p == self.blocked_place,
    {
        self.blocked_place.clone()
    }

    /// The borrow checker's index of the borrow.
    pub fn borrow_index(&self) -> (i: Option<usize>)
        ensures
            i == self.borrow_index,
    {
        self.borrow_index
    }

    /// The location at which the borrow was created.
    pub fn reserve_location(&self) -> (l: Location)
        ensures
            l == self.reserve_location,
    {
        self.reserve_location
    }

    /// The mutability that the borrow grants now: none before a two-phase
    /// borrow is activated.
    pub fn effective_mutability(&self) -> (m: Mutability)
        ensures
            m == (if self.activated { borrow_kind_mutability(self.kind) } else { Mutability::Not }),
    {
        if self.activated {
            self.kind.mutability()
        } else {
            Mutability::Not
        }
    }

    /// The dereference of the assigned place: `*x` for `let x = &mut y;`.
    pub fn deref_place(&self) -> (p: MaybeLabelledPlace)
        ensures
            p == deref_of(self.assigned_ref),
    {
        self.assigned_ref.project_deref()
    }

    /// The projection of the assigned place at the region of its
    /// reference type.
    pub fn assigned_lifetime_projection(&self) -> (p: LocalLifetimeProjection)
        ensures
            p == assigned_projection(*self),
    {
        LocalLifetimeProjection {
            base: self.assigned_ref.clone(),
            region_idx: self.assigned_region_idx,
            label: self.assigned_lifetime_projection_label,
        }
    }

    /// The nodes that the borrow blocks.
    pub fn blocked_nodes(&self) -> (v: Vec<PcgNode>)
        ensures
            v@ == borrow_blocked_nodes(*self),
    {
        node_vec1(PcgNode::Place(self.blocked_place.clone()))
    }

    /// The nodes that block through the borrow.
    pub fn blocked_by_nodes(&self) -> (v: Vec<LocalNode>)
        ensures
            v@ == borrow_blocked_by_nodes(*self),
    {
        local_vec1(LocalNode::LifetimeProjection(self.assigned_lifetime_projection()))
    }

    /// Whether the borrow blocks `node`.
    pub fn blocks_node(&self, node: &PcgNode) -> (b: bool)
        ensures
            b == borrow_blocked_nodes(*self).contains(*node),
    {
        proof {
            assert(borrow_blocked_nodes(*self)[0] == PcgNode::Place(self.blocked_place));
        }
        match node {
            PcgNode::Place(p) => *p == self.blocked_place,
            PcgNode::LifetimeProjection(_) => false,
        }
    }

    /// Whether `node` blocks through the borrow.
    pub fn is_blocked_by(&self, node: &LocalNode) -> (b: bool)
        ensures
            b == borrow_blocked_by_nodes(*self).contains(*node),
    {
        proof {
            assert(borrow_blocked_by_nodes(*self)[0] == LocalNode::LifetimeProjection(assigned_projection(*self)));
        }
        match node {
            LocalNode::Place(_) => false,
            LocalNode::LifetimeProjection(lp) => *lp == self.assigned_lifetime_projection(),
        }
    }

    /// Labels the assigned projection with `label` if `predicate` selects
    /// it.
    pub fn label_lifetime_projections(&mut self, predicate: &LabelNodePredicate,
        label: Option<LifetimeProjectionLabel>) -> (r: LabelLifetimeProjectionResult)
        ensures
            predicate_applies(*predicate, PcgNode::LifetimeProjection(local_to_general(assigned_projection(*old(self)))),
                LabelNodeContext { source_or_target: SourceOrTarget::Target, edge_type: BorrowPcgEdgeType::Borrow })
            ==> (*final(self) == (BorrowEdge { assigned_lifetime_projection_label: label, ..*old(self) })
                && r == LabelLifetimeProjectionResult::Changed),
            !predicate_applies(*predicate, PcgNode::LifetimeProjection(local_to_general(assigned_projection(*old(self)))),
                LabelNodeContext { source_or_target: SourceOrTarget::Target, edge_type: BorrowPcgEdgeType::Borrow })
            ==> (*final(self) == *old(self) && r == LabelLifetimeProjectionResult::Unchanged),
    {
        let node = PcgNode::LifetimeProjection(self.assigned_lifetime_projection().to_lifetime_projection());
        if predicate.applies_to(&node, LabelNodeContext::new(SourceOrTarget::Target, BorrowPcgEdgeType::Borrow)) {
            self.assigned_lifetime_projection_label = label;
            LabelLifetimeProjectionResult::Changed
        } else {
            LabelLifetimeProjectionResult::Unchanged
        }
    }
}

/// An edge from a reference-typed place and its lifetime projection to the
/// dereferenced place.
#[derive(Debug)]
pub struct DerefEdge {
    pub blocked_place: MaybeLabelledPlace,
    pub deref_place: MaybeLabelledPlace,
    /// The projection of the reference that the edge blocks: unlabelled for
    /// a shared reference, labelled with the location of the dereference
    /// for a mutable one.
    pub blocked_lifetime_projection: LocalLifetimeProjection,
}

impl PartialEq for DerefEdge {
    fn eq(&self, other: &Self) -> (r: bool) {
        self.blocked_place == other.blocked_place && self.deref_place == other.deref_place
            && self.blocked_lifetime_projection == other.blocked_lifetime_projection
    }
}

impl vstd::std_specs::cmp::PartialEqSpecImpl for DerefEdge {
    open spec fn obeys_eq_spec() -> bool {
        true
    }

    open spec fn eq_spec(&self, other: &Self) -> bool {
        *self == *other
    }
}

impl Eq for DerefEdge {}

impl Clone for DerefEdge {
    fn clone(&self) -> (r: Self)
        ensures
            r == *self,
    {
        DerefEdge {
            blocked_place: self.blocked_place.clone(),
            deref_place: self.deref_place.clone(),
            blocked_lifetime_projection: self.blocked_lifetime_projection.clone(),
        }
    }
}

/// The nodes that a dereference blocks: the reference and its projection.
pub open spec fn deref_blocked_nodes(e: DerefEdge) -> Seq<PcgNode> {
    seq![PcgNode::Place(e.blocked_place), PcgNode::LifetimeProjection(local_to_general(e.blocked_lifetime_projection))]
}

/// The node that blocks through a dereference: the dereferenced place.
pub open spec fn deref_blocked_by_nodes(e: DerefEdge) -> Seq<LocalNode> {
    seq![LocalNode::Place(e.deref_place)]
}

impl DerefEdge {
    /// The dereference of the current place `place`, whose reference region
    /// is at `region_idx` of its type's regions; the blocked projection
    /// carries `label` as its label, if any.
    pub fn new(place: Place, region_idx: RegionIdx, label: Option<SnapshotLocation>) -> (e: DerefEdge)
        ensures
            e.blocked_place == MaybeLabelledPlace::Current(place),
            e.deref_place == MaybeLabelledPlace::Current(Place::Project(Box::new(place), PlaceElem::Deref)),
            e.blocked_lifetime_projection == (LocalLifetimeProjection {
                base: MaybeLabelledPlace::Current(place),
                region_idx,
                label: match label {
                    Some(l) => Some(LifetimeProjectionLabel::Location(l)),
                    None => None,
                },
            }),
    {
        let lbl = match label {
            Some(l) => Some(LifetimeProjectionLabel::Location(l)),
            None => None,
        };
        DerefEdge {
            blocked_place: MaybeLabelledPlace::Current(place.clone()),
            deref_place: MaybeLabelledPlace::Current(place.project_deref()),
            blocked_lifetime_projection: LocalLifetimeProjection {
                base: MaybeLabelledPlace::Current(place),
                region_idx,
                label: lbl,
            },
        }
    }

    /// The dereferenced reference.
    pub fn blocked_place(&self) -> (p: MaybeLabelledPlace)
        ensures
            p == self.blocked_place,
    {
        self.blocked_place.clone()
    }

    /// The dereferenced place.
    pub fn deref_place(&self) -> (p: MaybeLabelledPlace)
        ensures
            p == self.deref_place,
    {
        self.deref_place.clone()
    }

    /// The blocked projection of the reference.
    pub fn blocked_lifetime_projection(&self) -> (p: LocalLifetimeProjection)
        ensures
            p == self.blocked_lifetime_projection,
    {
        self.blocked_lifetime_projection.clone()
    }

    /// Whether the edge is well formed: its target ends in a dereference.
    pub fn check_validity(&self) -> (b: bool)
        ensures
            b == (mlp_place(self.deref_place) matches Place::Project(_, PlaceElem::Deref)),
    {
        match self.deref_place.last_projection() {
            Some((_, e)) => e == PlaceElem::Deref,
            None => false,
        }
    }

    /// The nodes that the edge blocks.
    pub fn blocked_nodes(&self) -> (v: Vec<PcgNode>)
        ensures
            v@ == deref_blocked_nodes(*self),
    {
        node_vec2(PcgNode::Place(self.blocked_place.clone()),
            PcgNode::LifetimeProjection(self.blocked_lifetime_projection.to_lifetime_projection()))
    }

    /// The nodes that block through the edge.
    pub fn blocked_by_nodes(&self) -> (v: Vec<LocalNode>)
        ensures
            v@ == deref_blocked_by_nodes(*self),
    {
        local_vec1(LocalNode::Place(self.deref_place.clone()))
    }

    /// Whether the edge blocks `node`.
    pub fn blocks_node(&self, node: &PcgNode) -> (b: bool)
        ensures
            b == deref_blocked_nodes(*self).contains(*node),
    {
        let v = self.blocked_nodes();
        proof {
            assert(v@[0] == deref_blocked_nodes(*self)[0]);
            assert(v@[1] == deref_blocked_nodes(*self)[1]);
        }
        *node == v[0] || *node == v[1]
    }

    /// Whether `node` blocks through the edge.
    pub fn is_blocked_by(&self, node: &LocalNode) -> (b: bool)
        ensures
            b == deref_blocked_by_nodes(*self).contains(*node),
    {
        proof {
            assert(deref_blocked_by_nodes(*self)[0] == LocalNode::Place(self.deref_place));
        }
        match node {
            LocalNode::Place(p) => *p == self.deref_place,
            LocalNode::LifetimeProjection(_) => false,
        }
    }

    /// Labels the blocked projection with `label` if `predicate` selects
    /// it.
    pub fn label_lifetime_projections(&mut self, predicate: &LabelNodePredicate,
        label: Option<LifetimeProjectionLabel>) -> (r: LabelLifetimeProjectionResult)
        ensures
            predicate_applies(*predicate, PcgNode::LifetimeProjection(local_to_general(old(self).blocked_lifetime_projection)),
                LabelNodeContext { source_or_target: SourceOrTarget::Source, edge_type: BorrowPcgEdgeType::Deref })
            ==> (final(self).blocked_lifetime_projection == (LocalLifetimeProjection { label, ..old(self).blocked_lifetime_projection })
                && final(self).blocked_place == old(self).blocked_place
                && final(self).deref_place == old(self).deref_place
                && r == LabelLifetimeProjectionResult::Changed),
            !predicate_applies(*predicate, PcgNode::LifetimeProjection(local_to_general(old(self).blocked_lifetime_projection)),
                LabelNodeContext { source_or_target: SourceOrTarget::Source, edge_type: BorrowPcgEdgeType::Deref })
            ==> (*final(self) == *old(self) && r == LabelLifetimeProjectionResult::Unchanged),
    {
        let node = PcgNode::LifetimeProjection(self.blocked_lifetime_projection.to_lifetime_projection());
        if predicate.applies_to(&node, LabelNodeContext::new(SourceOrTarget::Source, BorrowPcgEdgeType::Deref)) {
            self.blocked_lifetime_projection = self.blocked_lifetime_projection.with_label(label);
            LabelLifetimeProjectionResult::Changed
        } else {
            LabelLifetimeProjectionResult::Unchanged
        }
    }
}

/// An edge from a raw pointer to the place it points to.
#[derive(Debug)]
pub struct RawPtrDerefEdge {
    pub blocked_place: MaybeLabelledPlace,
    pub deref_place: MaybeLabelledPlace,
}

impl PartialEq for RawPtrDerefEdge {
    fn eq(&self, other: &Self) -> (r: bool) {
        self.blocked_place == other.blocked_place && self.deref_place == other.deref_place
    }
}

impl vstd::std_specs::cmp::PartialEqSpecImpl for RawPtrDerefEdge {
    open spec fn obeys_eq_spec() -> bool {
        true
    }

    open spec fn eq_spec(&self, other: &Self) -> bool {
        *self == *other
    }
}

impl Eq for RawPtrDerefEdge {}

impl Clone for RawPtrDerefEdge {
    fn clone(&self) -> (r: Self)
        ensures
            r == *self,
    {
        RawPtrDerefEdge { blocked_place: self.blocked_place.clone(), deref_place: self.deref_place.clone() }
    }
}

/// The nodes that a raw pointer dereference blocks: the pointer.
pub open spec fn rawptr_blocked_nodes(e: RawPtrDerefEdge) -> Seq<PcgNode> {
    seq![PcgNode::Place(e.blocked_place)]
}

/// The node that blocks through a raw pointer dereference.
pub open spec fn rawptr_blocked_by_nodes(e: RawPtrDerefEdge) -> Seq<LocalNode> {
    seq![LocalNode::Place(e.deref_place)]
}

impl RawPtrDerefEdge {
    /// The dereference of the current raw pointer `place`.
    pub fn new(place: Place) -> (e: RawPtrDerefEdge)
        ensures
            e.blocked_place == MaybeLabelledPlace::Current(place),
            e.deref_place == MaybeLabelledPlace::Current(Place::Project(Box::new(place), PlaceElem::Deref)),
    {
        RawPtrDerefEdge {
            blocked_place: MaybeLabelledPlace::Current(place.clone()),
            deref_place: MaybeLabelledPlace::Current(place.project_deref()),
        }
    }

    /// The pointer.
    pub fn blocked_place(&self) -> (p: MaybeLabelledPlace)
        ensures
            p == self.blocked_place,
    {
        self.blocked_place.clone()
    }

    /// The place pointed to.
    pub fn deref_place(&self) -> (p: MaybeLabelledPlace)
        ensures
            p == self.deref_place,
    {
        self.deref_place.clone()
    }

    /// The nodes that the edge blocks.
    pub fn blocked_nodes(&self) -> (v: Vec<PcgNode>)
        ensures
            v@ == rawptr_blocked_nodes(*self),
    {
        node_vec1(PcgNode::Place(self.blocked_place.clone()))
    }

    /// The nodes that block through the edge.
    pub fn blocked_by_nodes(&self) -> (v: Vec<LocalNode>)
        ensures
            v@ == rawptr_blocked_by_nodes(*self),
    {
        local_vec1(LocalNode::Place(self.deref_place.clone()))
    }
}

/// An edge by which a raw pointer delegates to the place it aliases.
#[derive(Debug)]
pub struct DelegationEdge {
    pub rawptr_place: MaybeLabelledPlace,
    pub aliased_place: MaybeLabelledPlace,
}

impl PartialEq for DelegationEdge {
    fn eq(&self, other: &Self) -> (r: bool) {
        self.rawptr_place == other.rawptr_place && self.aliased_place == other.aliased_place
    }
}

impl vstd::std_specs::cmp::PartialEqSpecImpl for DelegationEdge {
    open spec fn obeys_eq_spec() -> bool {
        true
    }

    open spec fn eq_spec(&self, other: &Self) -> bool {
        *self == *other
    }
}

impl Eq for DelegationEdge {}

impl Clone for DelegationEdge {
    fn clone(&self) -> (r: Self)
        ensures
            r == *self,
    {
        DelegationEdge { rawptr_place: self.rawptr_place.clone(), aliased_place: self.aliased_place.clone() }
    }
}

/// The nodes that a delegation blocks: the aliased place.
pub open spec fn delegation_blocked_nodes(e: DelegationEdge) -> Seq<PcgNode> {
    seq![PcgNode::Place(e.aliased_place)]
}

/// The node that blocks through a delegation: the raw pointer.
pub open spec fn delegation_blocked_by_nodes(e: DelegationEdge) -> Seq<LocalNode> {
    seq![LocalNode::Place(e.rawptr_place)]
}

impl DelegationEdge {
    /// The delegation from `rawptr_place` to `aliased_place`.
    pub fn new(rawptr_place: MaybeLabelledPlace, aliased_place: MaybeLabelledPlace) -> (e: DelegationEdge)
        ensures
            e.rawptr_place == rawptr_place,
            e.aliased_place == aliased_place,
    {
        DelegationEdge { rawptr_place, aliased_place }
    }

    /// The nodes that the edge blocks.
    pub fn blocked_nodes(&self) -> (v: Vec<PcgNode>)
        ensures
            v@ == delegation_blocked_nodes(*self),
    {
        node_vec1(PcgNode::Place(self.aliased_place.clone()))
    }

    /// The nodes that block through the edge.
    pub fn blocked_by_nodes(&self) -> (v: Vec<LocalNode>)
        ensures
            v@ == delegation_blocked_by_nodes(*self),
    {
        local_vec1(LocalNode::Place(self.rawptr_place.clone()))
    }
}

/// Whether an operand of an assignment is a moved place, a copied place or
/// a constant.
#[derive(Clone, Copy, Debug, PartialEq, Eq, Structural, Hash)]
pub enum OperandType {
    Move,
    Copy,
    Const,
}

impl OperandType {
    /// Whether the operand is a place.
    pub fn is_place(self) -> (b: bool)
        ensures
            b == (self == OperandType::Move || self == OperandType::Copy),
    {
        match self {
            OperandType::Move | OperandType::Copy => true,
            OperandType::Const => false,
        }
    }
}

/// The kind of a cast in an assignment.
#[derive(Clone, Copy, Debug, PartialEq, Eq, Structural, Hash)]
pub enum CastKind {
    PointerExposeProvenance,
    PointerWithExposedProvenance,
    PointerCoercion,
    IntToInt,
    FloatToInt,
    FloatToFloat,
    IntToFloat,
    PtrToPtr,
    FnPtrToPtr,
    Transmute,
}

/// A cast in an assignment and the type it casts to, by number.
#[derive(Clone, Copy, Debug, PartialEq, Eq, Structural, Hash)]
pub struct CastData {
    pub kind: CastKind,
    pub ty: usize,
}

impl CastData {
    /// The cast of kind `kind` to the type numbered `ty`.
    pub fn new(kind: CastKind, ty: usize) -> (c: CastData)
        ensures
            c.kind == kind,
            c.ty == ty,
    {
        CastData { kind, ty }
    }
}

/// What an assignment statement did to the value that borrows flow from.
#[derive(Clone, Copy, Debug, PartialEq, Eq, Structural, Hash)]
pub struct AssignmentData {
    pub operand_type: OperandType,
    pub cast: Option<CastData>,
}

impl AssignmentData {
    /// The data of an assignment of an operand of `operand_type` through an
    /// optional cast.
    pub fn new(operand_type: OperandType, cast: Option<CastData>) -> (a: AssignmentData)
        ensures
            a.operand_type == operand_type,
            a.cast == cast,
    {
        AssignmentData { operand_type, cast }
    }

    /// The type of the operand.
    pub fn operand_type(&self) -> (t: OperandType)
        ensures
            t == self.operand_type,
    {
        self.operand_type
    }

    /// The kind of the cast, if there is one.
    pub fn cast_kind(&self) -> (k: Option<CastKind>)
        ensures
            k == (match self.cast {
                Some(c) => Some(c.kind),
                None => None,
            }),
    {
        match self.cast {
            Some(c) => Some(c.kind),
            None => None,
        }
    }
}

/// Why borrows flow from one lifetime projection to another.
#[derive(Clone, Copy, Debug, PartialEq, Eq, Structural, Hash)]
pub enum BorrowFlowEdgeKind {
    /// The borrow flows to the `target_rp_index`th projection of the
    /// `field_idx`th field of an aggregate.
    Aggregate { field_idx: usize, target_rp_index: usize },
    /// For `let x: &'x T<'b> = &y` with `y: T<'a>`, an edge `y|'a -> x|'b`
    /// when `'a` outlives `'b`; `regions_equal` when they outlive each other.
    BorrowOutlives { regions_equal: bool },
    InitialBorrows,
    /// Borrows that flowed through an assignment statement.
    Assignment(AssignmentData),
    Future(FutureEdgeKind),
}

/// An edge along which borrows flow from a long-lived projection to a
/// short-lived one.
#[derive(Debug)]
pub struct BorrowFlowEdge {
    pub source: LifetimeProjection,
    pub target: LocalLifetimeProjection,
    pub kind: BorrowFlowEdgeKind,
}

impl PartialEq for BorrowFlowEdge {
    fn eq(&self, other: &Self) -> (r: bool) {
        self.source == other.source && self.target == other.target && self.kind == other.kind
    }
}

impl vstd::std_specs::cmp::PartialEqSpecImpl for BorrowFlowEdge {
    open spec fn obeys_eq_spec() -> bool {
        true
    }

    open spec fn eq_spec(&self, other: &Self) -> bool {
        *self == *other
    }
}

impl Eq for BorrowFlowEdge {}

impl Clone for BorrowFlowEdge {
    fn clone(&self) -> (r: Self)
        ensures
            r == *self,
    {
        BorrowFlowEdge { source: self.source.clone(), target: self.target.clone(), kind: self.kind }
    }
}

/// The placeholder kind of a borrow-flow edge, if it is one.
pub open spec fn future_kind_of(e: BorrowFlowEdge) -> Option<FutureEdgeKind> {
    match e.kind {
        BorrowFlowEdgeKind::Future(k) => Some(k),
        _ => None,
    }
}

/// The nodes that a borrow flow blocks: its long projection.
pub open spec fn flow_blocked_nodes(e: BorrowFlowEdge) -> Seq<PcgNode> {
    seq![PcgNode::LifetimeProjection(e.source)]
}

/// The node that blocks through a borrow flow: its short projection.
pub open spec fn flow_blocked_by_nodes(e: BorrowFlowEdge) -> Seq<LocalNode> {
    seq![LocalNode::LifetimeProjection(e.target)]
}

impl BorrowFlowEdge {
    /// The flow from `source` to `target`.
    pub fn new(source: LifetimeProjection, target: LocalLifetimeProjection, kind: BorrowFlowEdgeKind) -> (e: BorrowFlowEdge)
        ensures
            e.source == source,
            e.target == target,
            e.kind == kind,
    {
        BorrowFlowEdge { source, target, kind }
    }

    /// The blocked projection, which must outlive the short one.
    pub fn long(&self) -> (p: LifetimeProjection)
        ensures
            p == self.source,
    {
        self.source.clone()
    }

    /// The blocking projection, which must die before the long one.
    pub fn short(&self) -> (p: LocalLifetimeProjection)
        ensures
            p == self.target,
    {
        self.target.clone()
    }

    /// Why the borrows flow.
    pub fn kind(&self) -> (k: BorrowFlowEdgeKind)
        ensures
            k == self.kind,
    {
        self.kind
    }

    /// The placeholder kind of the edge, if it is one.
    pub fn future_edge_kind(&self) -> (k: Option<FutureEdgeKind>)
        ensures
            k == future_kind_of(*self),
    {
        match self.kind {
            BorrowFlowEdgeKind::Future(k) => Some(k),
            _ => None,
        }
    }

    /// Whether the edge is well formed: its endpoints are distinct nodes.
    pub fn check_validity(&self) -> (b: bool)
        ensures
            b == (self.source != local_to_general(self.target)),
    {
        self.source != self.target.to_lifetime_projection()
    }

    /// The nodes that the edge blocks.
    pub fn blocked_nodes(&self) -> (v: Vec<PcgNode>)
        ensures
            v@ == flow_blocked_nodes(*self),
    {
        node_vec1(PcgNode::LifetimeProjection(self.source.clone()))
    }

    /// The nodes that block through the edge.
    pub fn blocked_by_nodes(&self) -> (v: Vec<LocalNode>)
        ensures
            v@ == flow_blocked_by_nodes(*self),
    {
        local_vec1(LocalNode::LifetimeProjection(self.target.clone()))
    }

    /// Whether the edge blocks `node`.
    pub fn blocks_node(&self, node: &PcgNode) -> (b: bool)
        ensures
            b == flow_blocked_nodes(*self).contains(*node),
    {
        proof {
            assert(flow_blocked_nodes(*self)[0] == PcgNode::LifetimeProjection(self.source));
        }
        match node {
            PcgNode::LifetimeProjection(lp) => *lp == self.source,
            PcgNode::Place(_) => false,
        }
    }

    /// Labels the endpoints that `predicate` selects with `label`; when it
    /// selects both, the edge should collapse and is left unchanged.
    pub fn label_lifetime_projections(&mut self, predicate: &LabelNodePredicate,
        label: Option<LifetimeProjectionLabel>) -> (r: LabelLifetimeProjectionResult)
        ensures
            ({
                let et = BorrowPcgEdgeType::BorrowFlow { future_edge_kind: future_kind_of(*old(self)) };
                let long_m = predicate_applies(*predicate, PcgNode::LifetimeProjection(old(self).source),
                    LabelNodeContext { source_or_target: SourceOrTarget::Source, edge_type: et });
                let short_m = predicate_applies(*predicate, PcgNode::LifetimeProjection(local_to_general(old(self).target)),
                    LabelNodeContext { source_or_target: SourceOrTarget::Target, edge_type: et });
                &&& long_m && short_m ==> r == LabelLifetimeProjectionResult::ShouldCollapse && *final(self) == *old(self)
                &&& !(long_m && short_m) ==> (
                    final(self).kind == old(self).kind
                    && final(self).source == (if long_m { LifetimeProjection { label, ..old(self).source } } else { old(self).source })
                    && final(self).target == (if short_m { LocalLifetimeProjection { label, ..old(self).target } } else { old(self).target })
                    && r == (if long_m || short_m { LabelLifetimeProjectionResult::Changed } else { LabelLifetimeProjectionResult::Unchanged }))
            }),
    {
        let et = BorrowPcgEdgeType::BorrowFlow { future_edge_kind: self.future_edge_kind() };
        let long_node = PcgNode::LifetimeProjection(self.source.clone());
        let short_node = PcgNode::LifetimeProjection(self.target.to_lifetime_projection());
        let long_matches = predicate.applies_to(&long_node, LabelNodeContext::new(SourceOrTarget::Source, et));
        let short_matches = predicate.applies_to(&short_node, LabelNodeContext::new(SourceOrTarget::Target, et));
        if long_matches && short_matches {
            return LabelLifetimeProjectionResult::ShouldCollapse;
        }
        let mut changed = LabelLifetimeProjectionResult::Unchanged;
        if long_matches {
            self.source = self.source.with_label(label);
            changed.combine(LabelLifetimeProjectionResult::Changed);
        }
        if short_matches {
            self.target = self.target.with_label(label);
            changed.combine(LabelLifetimeProjectionResult::Changed);
        }
        changed
    }
}

/// The name of a cast kind.
pub open spec fn cast_kind_name(k: CastKind) -> Seq<char> {
    match k {
        CastKind::PointerExposeProvenance => "PointerExposeProvenance"@,
        CastKind::PointerWithExposedProvenance => "PointerWithExposedProvenance"@,
        CastKind::PointerCoercion => "PointerCoercion"@,
        CastKind::IntToInt => "IntToInt"@,
        CastKind::FloatToInt => "FloatToInt"@,
        CastKind::FloatToFloat => "FloatToFloat"@,
        CastKind::IntToFloat => "IntToFloat"@,
        CastKind::PtrToPtr => "PtrToPtr"@,
        CastKind::FnPtrToPtr => "FnPtrToPtr"@,
        CastKind::Transmute => "Transmute"@,
    }
}

impl CastKind {
    /// The name of the cast kind.
    pub fn name(self) -> (s: &'static str)
        ensures
            s@ == cast_kind_name(self),
    {
        match self {
            CastKind::PointerExposeProvenance => "PointerExposeProvenance",
            CastKind::PointerWithExposedProvenance => "PointerWithExposedProvenance",
            CastKind::PointerCoercion => "PointerCoercion",
            CastKind::IntToInt => "IntToInt",
            CastKind::FloatToInt => "FloatToInt",
            CastKind::FloatToFloat => "FloatToFloat",
            CastKind::IntToFloat => "IntToFloat",
            CastKind::PtrToPtr => "PtrToPtr",
            CastKind::FnPtrToPtr => "FnPtrToPtr",
            CastKind::Transmute => "Transmute",
        }
    }
}

/// How a flow kind is written.
pub open spec fn flow_kind_text(k: BorrowFlowEdgeKind) -> Seq<char> {
    match k {
        BorrowFlowEdgeKind::Aggregate { field_idx, target_rp_index } =>
            "Aggregate("@ + decimal(field_idx as nat) + ", "@ + decimal(target_rp_index as nat) + ")"@,
        BorrowFlowEdgeKind::BorrowOutlives { regions_equal } => if regions_equal { "equals"@ } else { "outlives"@ },
        BorrowFlowEdgeKind::InitialBorrows => "InitialBorrows"@,
        BorrowFlowEdgeKind::Future(_) => "Future"@,
        BorrowFlowEdgeKind::Assignment(a) => {
            let first = match a.operand_type {
                OperandType::Move => "Move"@,
                OperandType::Copy => "Copy"@,
                OperandType::Const => "Const"@,
            };
            match a.cast {
                Some(c) => first + " with cast "@ + cast_kind_name(c.kind),
                None => first,
            }
        },
    }
}

impl BorrowFlowEdgeKind {
    /// How the flow kind is written, e.g. `Aggregate(0, 1)`, `outlives` or
    /// `Move with cast PtrToPtr`.
    pub fn to_display_string(&self) -> (s: String)
        ensures
            s@ == flow_kind_text(*self),
    {
        let mut s = String::new();
        match self {
            BorrowFlowEdgeKind::Aggregate { field_idx, target_rp_index } => {
                push_str(&mut s, "Aggregate(");
                push_decimal(&mut s, *field_idx);
                push_str(&mut s, ", ");
                push_decimal(&mut s, *target_rp_index);
                push_str(&mut s, ")");
            },
            BorrowFlowEdgeKind::BorrowOutlives { regions_equal } => {
                if *regions_equal {
                    push_str(&mut s, "equals");
                } else {
                    push_str(&mut s, "outlives");
                }
            },
            BorrowFlowEdgeKind::InitialBorrows => push_str(&mut s, "InitialBorrows"),
            BorrowFlowEdgeKind::Future(_) => push_str(&mut s, "Future"),
            BorrowFlowEdgeKind::Assignment(a) => {
                match a.operand_type {
                    OperandType::Move => push_str(&mut s, "Move"),
                    OperandType::Copy => push_str(&mut s, "Copy"),
                    OperandType::Const => push_str(&mut s, "Const"),
                }
                match a.cast {
                    Some(c) => {
                        push_str(&mut s, " with cast ");
                        push_str(&mut s, c.kind.name());
                    },
                    None => {},
                }
            },
        }
        proof {
            assert(s@ =~= flow_kind_text(*self));
        }
        s
    }
}

} // verus!
