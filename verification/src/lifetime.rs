//! Lifetime projections `b↓r`: a base (a place, a remote place or a
//! constant) and the index of a region within the base's type, optionally
//! labelled with the program point whose memory it denotes.
use vstd::prelude::*;
use crate::mir::{Local, SnapshotLocation};
use crate::place::{Place, MaybeLabelledPlace, MaybeRemotePlace, RemotePlace, mlp_place, mlp_label, local_of};
use crate::region::{RegionIdx, PcgRegion, PcgRegionInternalError, LifetimeProjectionLabel,
    first_index_of, find_region_idx, region_at};

verus! {

/// Whether two optional labels of a lifetime projection are the same.
pub fn same_label(a: Option<LifetimeProjectionLabel>, b: Option<LifetimeProjectionLabel>) -> (r: bool)
    ensures
        r == (a == b),
{
    match (a, b) {
        (None, None) => true,
        (Some(x), Some(y)) => x == y,
        _ => false,
    }
}

/// Whether two optional place labels are the same.
pub fn same_location(a: Option<SnapshotLocation>, b: Option<SnapshotLocation>) -> (r: bool)
    ensures
        r == (a == b),
{
    match (a, b) {
        (None, None) => true,
        (Some(x), Some(y)) => x == y,
        _ => false,
    }
}

/// A constant operand whose lifetime projections occur in the graph,
/// identified by number.
#[derive(Clone, Copy, Debug, PartialEq, Eq, Structural, Hash)]
pub struct ConstId(pub usize);

/// The base of a lifetime projection: a (possibly remote) place or a
/// constant.
#[derive(Debug)]
pub enum PlaceOrConst {
    Place(MaybeRemotePlace),
    Const(ConstId),
}

impl PartialEq for PlaceOrConst {
    fn eq(&self, other: &Self) -> (r: bool) {
        match (self, other) {
            (PlaceOrConst::Place(a), PlaceOrConst::Place(b)) => *a == *b,
            (PlaceOrConst::Const(a), PlaceOrConst::Const(b)) => *a == *b,
            _ => false,
        }
    }
}

impl vstd::std_specs::cmp::PartialEqSpecImpl for PlaceOrConst {
    open spec fn obeys_eq_spec() -> bool {
        true
    }

    open spec fn eq_spec(&self, other: &Self) -> bool {
        *self == *other
    }
}

impl Eq for PlaceOrConst {}

impl Clone for PlaceOrConst {
    fn clone(&self) -> (r: Self)
        ensures
            r == *self,
    {
        match self {
            PlaceOrConst::Place(p) => PlaceOrConst::Place(p.clone()),
            PlaceOrConst::Const(c) => PlaceOrConst::Const(*c),
        }
    }
}

/// The current place of a base, if it is a current local place.
pub open spec fn base_current_place(b: PlaceOrConst) -> Option<Place> {
    match b {
        PlaceOrConst::Place(MaybeRemotePlace::Local(MaybeLabelledPlace::Current(p))) => Some(p),
        _ => None,
    }
}

/// The local place of a base, if it is one.
pub open spec fn base_local_place(b: PlaceOrConst) -> Option<MaybeLabelledPlace> {
    match b {
        PlaceOrConst::Place(MaybeRemotePlace::Local(p)) => Some(p),
        _ => None,
    }
}

impl PlaceOrConst {
    /// The base of a current place.
    pub fn from_place(place: Place) -> (r: PlaceOrConst)
        ensures
            r == PlaceOrConst::Place(MaybeRemotePlace::Local(MaybeLabelledPlace::Current(place))),
    {
        PlaceOrConst::Place(MaybeRemotePlace::Local(MaybeLabelledPlace::Current(place)))
    }

    /// The base of a possibly labelled place.
    pub fn from_labelled_place(place: MaybeLabelledPlace) -> (r: PlaceOrConst)
        ensures
            r == PlaceOrConst::Place(MaybeRemotePlace::Local(place)),
    {
        PlaceOrConst::Place(MaybeRemotePlace::Local(place))
    }

    /// The base of a remote place.
    pub fn from_remote(place: RemotePlace) -> (r: PlaceOrConst)
        ensures
            r == PlaceOrConst::Place(MaybeRemotePlace::Remote(place)),
    {
        PlaceOrConst::Place(MaybeRemotePlace::Remote(place))
    }

    /// The place of a base that is known to be one.
    pub fn expect_place(&self) -> (p: MaybeRemotePlace)
        requires
            *self is Place,
        ensures
            PlaceOrConst::Place(p) == *self,
    {
        match self {
            PlaceOrConst::Place(p) => p.clone(),
            PlaceOrConst::Const(_) => {
                proof {
                    assert(false);
                }
                MaybeRemotePlace::Remote(RemotePlace { local: Local(0) })
            },
        }
    }

    /// The current place, if the base is a current local place.
    pub fn as_current_place(&self) -> (r: Option<Place>)
        ensures
            r == base_current_place(*self),
    {
        match self {
            PlaceOrConst::Place(p) => p.as_current_place(),
            PlaceOrConst::Const(_) => None,
        }
    }

    /// The local place, if the base is one.
    pub fn as_local_place(&self) -> (r: Option<MaybeLabelledPlace>)
        ensures
            r == base_local_place(*self),
    {
        match self {
            PlaceOrConst::Place(p) => p.as_local_place(),
            PlaceOrConst::Const(_) => None,
        }
    }

    /// The place or remote place, if the base is not a constant and not a
    /// labelled place.
    pub fn maybe_remote_current_place(&self) -> (r: Option<MaybeRemotePlace>)
        ensures
            r == (match *self {
                PlaceOrConst::Place(MaybeRemotePlace::Local(MaybeLabelledPlace::Current(p))) =>
                    Some(MaybeRemotePlace::Local(MaybeLabelledPlace::Current(p))),
                PlaceOrConst::Place(MaybeRemotePlace::Remote(rp)) => Some(MaybeRemotePlace::Remote(rp)),
                _ => None,
            }),
    {
        match self {
            PlaceOrConst::Place(MaybeRemotePlace::Local(MaybeLabelledPlace::Current(p))) => {
                Some(MaybeRemotePlace::Local(MaybeLabelledPlace::Current(p.clone())))
            },
            PlaceOrConst::Place(MaybeRemotePlace::Remote(rp)) => Some(MaybeRemotePlace::Remote(*rp)),
            _ => None,
        }
    }
}

/// The region of a type's region list at an index, or the internal error
/// region when the index is out of bounds.
pub open spec fn region_of(regions: Seq<PcgRegion>, idx: RegionIdx) -> PcgRegion {
    if idx.0 < regions.len() {
        regions[idx.0 as int]
    } else {
        PcgRegion::PcgInternalError(PcgRegionInternalError::RegionIndexOutOfBounds(idx))
    }
}

/// A lifetime projection `b↓r` whose base may be any node base.
#[derive(Debug)]
pub struct LifetimeProjection {
    pub base: PlaceOrConst,
    pub region_idx: RegionIdx,
    pub label: Option<LifetimeProjectionLabel>,
}

impl PartialEq for LifetimeProjection {
    fn eq(&self, other: &Self) -> (r: bool) {
        self.region_idx == other.region_idx && same_label(self.label, other.label) && self.base == other.base
    }
}

impl vstd::std_specs::cmp::PartialEqSpecImpl for LifetimeProjection {
    open spec fn obeys_eq_spec() -> bool {
        true
    }

    open spec fn eq_spec(&self, other: &Self) -> bool {
        *self == *other
    }
}

impl Eq for LifetimeProjection {}

impl Clone for LifetimeProjection {
    fn clone(&self) -> (r: Self)
        ensures
            r == *self,
    {
        LifetimeProjection { base: self.base.clone(), region_idx: self.region_idx, label: self.label }
    }
}

impl LifetimeProjection {
    /// The projection of `base` at the first position of `region` among
    /// `regions`, the regions of the base's type; `None` if the type does not
    /// mention the region.
    pub fn new(base: PlaceOrConst, region: PcgRegion, regions: &Vec<PcgRegion>,
        label: Option<LifetimeProjectionLabel>) -> (r: Option<LifetimeProjection>)
        ensures
            match r {
                Some(p) => first_index_of(regions@, region) == Some(p.region_idx.0 as int)
                    && p.base == base && p.label == label,
                None => first_index_of(regions@, region) is None,
            },
    {
        match find_region_idx(regions, region) {
            Some(idx) => {
                proof {
                    assert(regions@.contains(region));
                    let k = choose|i: int| 0 <= i < regions@.len() && regions@[i] == region
                        && forall|j: int| 0 <= j < i ==> regions@[j] != region;
                    assert(k == idx.0);
                }
                Some(LifetimeProjection { base, region_idx: idx, label })
            },
            None => None,
        }
    }

    /// The unlabelled projection of `base` at a known region index.
    pub fn from_index(base: PlaceOrConst, region_idx: RegionIdx) -> (r: LifetimeProjection)
        ensures
            r == (LifetimeProjection { base, region_idx, label: None }),
    {
        LifetimeProjection { base, region_idx, label: None }
    }

    /// The projected region, given `regions`, the regions of the base's
    /// type.
    pub fn region(&self, regions: &Vec<PcgRegion>) -> (r: PcgRegion)
        ensures
            r == region_of(regions@, self.region_idx),
    {
        region_at(regions, self.region_idx)
    }

    /// The base.
    pub fn base(&self) -> (b: PlaceOrConst)
        ensures
            b == self.base,
    {
        self.base.clone()
    }

    /// The label.
    pub fn label(&self) -> (l: Option<LifetimeProjectionLabel>)
        ensures
            l == self.label,
    {
        self.label
    }

    /// Whether the projection carries the placeholder label.
    pub fn is_future(&self) -> (b: bool)
        ensures
            b == (self.label == Some(LifetimeProjectionLabel::Future)),
    {
        match self.label {
            Some(LifetimeProjectionLabel::Future) => true,
            _ => false,
        }
    }

    /// The same projection with another label.
    pub fn with_label(&self, label: Option<LifetimeProjectionLabel>) -> (r: LifetimeProjection)
        ensures
            r == (LifetimeProjection { base: self.base, region_idx: self.region_idx, label }),
    {
        LifetimeProjection { base: self.base.clone(), region_idx: self.region_idx, label }
    }

    /// The same projection with a local base, if the base is a local place.
    pub fn as_local_lifetime_projection(&self) -> (r: Option<LocalLifetimeProjection>)
        ensures
            r == (match base_local_place(self.base) {
                Some(p) => Some(LocalLifetimeProjection { base: p, region_idx: self.region_idx, label: self.label }),
                None => None,
            }),
    {
        match self.base.as_local_place() {
            Some(p) => Some(LocalLifetimeProjection { base: p, region_idx: self.region_idx, label: self.label }),
            None => None,
        }
    }

    /// For a projection `x↓'a` where `x` is a local place whose type is a
    /// reference with region `ref_region`, the place `*x` if `'a` is that
    /// region; `regions` are the regions of `x`'s type.
    pub fn deref(&self, ref_region: Option<PcgRegion>, regions: &Vec<PcgRegion>) -> (r: Option<MaybeLabelledPlace>)
        ensures
            r == (match base_local_place(self.base) {
                Some(p) => if ref_region == Some(region_of(regions@, self.region_idx)) {
                    Some(deref_of(p))
                } else {
                    None
                },
                None => None,
            }),
    {
        match self.as_local_lifetime_projection() {
            Some(lp) => lp.deref(ref_region, regions),
            None => None,
        }
    }
}

/// The dereference of a possibly labelled place, keeping its label.
pub open spec fn deref_of(p: MaybeLabelledPlace) -> MaybeLabelledPlace {
    match p {
        MaybeLabelledPlace::Current(q) => MaybeLabelledPlace::Current(Place::Project(Box::new(q), crate::mir::PlaceElem::Deref)),
        MaybeLabelledPlace::Labelled(q, l) => MaybeLabelledPlace::Labelled(Place::Project(Box::new(q), crate::mir::PlaceElem::Deref), l),
    }
}

/// A lifetime projection whose base is a (possibly labelled) local place.
#[derive(Debug)]
pub struct LocalLifetimeProjection {
    pub base: MaybeLabelledPlace,
    pub region_idx: RegionIdx,
    pub label: Option<LifetimeProjectionLabel>,
}

impl PartialEq for LocalLifetimeProjection {
    fn eq(&self, other: &Self) -> (r: bool) {
        self.region_idx == other.region_idx && same_label(self.label, other.label) && self.base == other.base
    }
}

impl vstd::std_specs::cmp::PartialEqSpecImpl for LocalLifetimeProjection {
    open spec fn obeys_eq_spec() -> bool {
        true
    }

    open spec fn eq_spec(&self, other: &Self) -> bool {
        *self == *other
    }
}

impl Eq for LocalLifetimeProjection {}

impl Clone for LocalLifetimeProjection {
    fn clone(&self) -> (r: Self)
        ensures
            r == *self,
    {
        LocalLifetimeProjection { base: self.base.clone(), region_idx: self.region_idx, label: self.label }
    }
}

/// The projection with the same region and label over the general base.
pub open spec fn local_to_general(p: LocalLifetimeProjection) -> LifetimeProjection {
    LifetimeProjection {
        base: PlaceOrConst::Place(MaybeRemotePlace::Local(p.base)),
        region_idx: p.region_idx,
        label: p.label,
    }
}

impl LocalLifetimeProjection {
    /// The projection of `base` at the first position of `region` among
    /// `regions`, the regions of the base's type.
    pub fn new(base: MaybeLabelledPlace, region: PcgRegion, regions: &Vec<PcgRegion>,
        label: Option<LifetimeProjectionLabel>) -> (r: Option<LocalLifetimeProjection>)
        ensures
            match r {
                Some(p) => first_index_of(regions@, region) == Some(p.region_idx.0 as int)
                    && p.base == base && p.label == label,
                None => first_index_of(regions@, region) is None,
            },
    {
        match find_region_idx(regions, region) {
            Some(idx) => {
                proof {
                    assert(regions@.contains(region));
                    let k = choose|i: int| 0 <= i < regions@.len() && regions@[i] == region
                        && forall|j: int| 0 <= j < i ==> regions@[j] != region;
                    assert(k == idx.0);
                }
                Some(LocalLifetimeProjection { base, region_idx: idx, label })
            },
            None => None,
        }
    }

    /// The unlabelled projection of `base` at a known region index.
    pub fn from_index(base: MaybeLabelledPlace, region_idx: RegionIdx) -> (r: LocalLifetimeProjection)
        ensures
            r == (LocalLifetimeProjection { base, region_idx, label: None }),
    {
        LocalLifetimeProjection { base, region_idx, label: None }
    }

    /// The projected region, given the regions of the base's type.
    pub fn region(&self, regions: &Vec<PcgRegion>) -> (r: PcgRegion)
        ensures
            r == region_of(regions@, self.region_idx),
    {
        region_at(regions, self.region_idx)
    }

    /// The base.
    pub fn base(&self) -> (b: MaybeLabelledPlace)
        ensures
            b == self.base,
    {
        self.base.clone()
    }

    /// The label.
    pub fn label(&self) -> (l: Option<LifetimeProjectionLabel>)
        ensures
            l == self.label,
    {
        self.label
    }

    /// Whether the projection carries the placeholder label.
    pub fn is_future(&self) -> (b: bool)
        ensures
            b == (self.label == Some(LifetimeProjectionLabel::Future)),
    {
        match self.label {
            Some(LifetimeProjectionLabel::Future) => true,
            _ => false,
        }
    }

    /// The same projection with another label.
    pub fn with_label(&self, label: Option<LifetimeProjectionLabel>) -> (r: LocalLifetimeProjection)
        ensures
            r == (LocalLifetimeProjection { base: self.base, region_idx: self.region_idx, label }),
    {
        LocalLifetimeProjection { base: self.base.clone(), region_idx: self.region_idx, label }
    }

    /// The same projection with another base.
    pub fn with_base(&self, base: MaybeLabelledPlace) -> (r: LocalLifetimeProjection)
        ensures
            r == (LocalLifetimeProjection { base, region_idx: self.region_idx, label: self.label }),
    {
        LocalLifetimeProjection { base, region_idx: self.region_idx, label: self.label }
    }

    /// The same projection over the general base.
    pub fn to_lifetime_projection(&self) -> (r: LifetimeProjection)
        ensures
            r == local_to_general(*self),
    {
        LifetimeProjection {
            base: PlaceOrConst::Place(MaybeRemotePlace::Local(self.base.clone())),
            region_idx: self.region_idx,
            label: self.label,
        }
    }

    /// The local of the base place.
    pub fn local(&self) -> (l: Local)
        ensures
            l == local_of(mlp_place(self.base)),
    {
        self.base.local()
    }

    /// The place of the base, without its label.
    pub fn place(&self) -> (p: Place)
        ensures
            p == mlp_place(self.base),
    {
        self.base.place()
    }

    /// The label of the base place.
    pub fn place_label(&self) -> (l: Option<SnapshotLocation>)
        ensures
            l == mlp_label(self.base),
    {
        self.base.location()
    }

    /// For `x↓'a` where `x`'s type is a reference with region `ref_region`,
    /// the place `*x` if `'a` is that region; `regions` are the regions of
    /// `x`'s type.
    pub fn deref(&self, ref_region: Option<PcgRegion>, regions: &Vec<PcgRegion>) -> (r: Option<MaybeLabelledPlace>)
        ensures
            r == (if ref_region == Some(region_of(regions@, self.region_idx)) {
                Some(deref_of(self.base))
            } else {
                None
            }),
    {
        let region = self.region(regions);
        match ref_region {
            Some(rr) => {
                if rr == region {
                    Some(self.base.project_deref())
                } else {
                    None
                }
            },
            None => None,
        }
    }
}

} // verus!
