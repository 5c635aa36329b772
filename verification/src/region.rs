//! Regions as they occur in lifetime projections, the index of a region
//! within a type, and the labels that a lifetime projection may carry.
use vstd::prelude::*;
use crate::mir::{RegionVid, SnapshotLocation};
use crate::text::{push_decimal, push_str, decimal};

verus! {

/// The index of a region within a type.
#[derive(Clone, Copy, Debug, PartialEq, Eq, Structural, Hash, PartialOrd, Ord)]
pub struct RegionIdx(pub usize);

impl RegionIdx {
    /// The region index `idx`.
    pub fn new(idx: usize) -> (r: RegionIdx)
        ensures
            r.0 == idx,
    {
        RegionIdx(idx)
    }

    /// The index.
    pub fn index(self) -> (i: usize)
        ensures
            i == self.0,
    {
        self.0
    }
}

/// An error in looking up a region.
#[derive(Clone, Copy, Debug, PartialEq, Eq, Structural, Hash)]
pub enum PcgRegionInternalError {
    RegionIndexOutOfBounds(RegionIdx),
}

/// A region occurring in lifetime projections. The kinds of region other
/// than variables, `'static` and erased regions are identified by number.
#[derive(Clone, Copy, Debug, PartialEq, Eq, Structural, Hash)]
pub enum PcgRegion {
    RegionVid(RegionVid),
    ReErased,
    ReStatic,
    RePlaceholder(u32),
    ReBound(u32, u32),
    ReLateParam(u32),
    PcgInternalError(PcgRegionInternalError),
    ReEarlyParam(u32),
}

/// How a region is written out.
pub open spec fn region_text(r: PcgRegion) -> Seq<char> {
    match r {
        PcgRegion::RegionVid(v) => "'?"@ + decimal(v.0 as nat),
        PcgRegion::ReErased => "ReErased"@,
        PcgRegion::ReStatic => "ReStatic"@,
        PcgRegion::RePlaceholder(n) => "RePlaceholder("@ + decimal(n as nat) + ")"@,
        PcgRegion::ReBound(d, n) => "ReBound("@ + decimal(d as nat) + ", "@ + decimal(n as nat) + ")"@,
        PcgRegion::ReLateParam(n) => "ReLateParam("@ + decimal(n as nat) + ")"@,
        PcgRegion::PcgInternalError(PcgRegionInternalError::RegionIndexOutOfBounds(i)) =>
            "RegionIndexOutOfBounds("@ + decimal(i.0 as nat) + ")"@,
        PcgRegion::ReEarlyParam(n) => "ReEarlyParam("@ + decimal(n as nat) + ")"@,
    }
}

impl PcgRegion {
    /// Whether this is `'static`.
    pub fn is_static(self) -> (b: bool)
        ensures
            b == (self == PcgRegion::ReStatic),
    {
        match self {
            PcgRegion::ReStatic => true,
            _ => false,
        }
    }

    /// The region variable, if this is one.
    pub fn vid(&self) -> (r: Option<RegionVid>)
        ensures
            r == (match *self {
                PcgRegion::RegionVid(v) => Some(v),
                _ => None,
            }),
    {
        match self {
            PcgRegion::RegionVid(v) => Some(*v),
            _ => None,
        }
    }

    /// Appends how the region is written out to `s`.
    pub fn write_to(&self, s: &mut String)
        ensures
            final(s)@ == old(s)@ + region_text(*self),
    {
        proof {
            reveal_strlit("'?");
            reveal_strlit("ReErased");
            reveal_strlit("ReStatic");
            reveal_strlit("RePlaceholder(");
            reveal_strlit(")");
            reveal_strlit("ReBound(");
            reveal_strlit(", ");
            reveal_strlit("ReLateParam(");
            reveal_strlit("RegionIndexOutOfBounds(");
            reveal_strlit("ReEarlyParam(");
        }
        let ghost s0 = s@;
        match self {
            PcgRegion::RegionVid(v) => {
                push_str(s, "'?");
                push_decimal(s, v.0 as usize);
                assert(s@ =~= s0 + region_text(*self));
            },
            PcgRegion::ReErased => push_str(s, "ReErased"),
            PcgRegion::ReStatic => push_str(s, "ReStatic"),
            PcgRegion::RePlaceholder(n) => {
                push_str(s, "RePlaceholder(");
                push_decimal(s, *n as usize);
                push_str(s, ")");
                assert(s@ =~= s0 + region_text(*self));
            },
            PcgRegion::ReBound(d, n) => {
                push_str(s, "ReBound(");
                push_decimal(s, *d as usize);
                push_str(s, ", ");
                push_decimal(s, *n as usize);
                push_str(s, ")");
                assert(s@ =~= s0 + region_text(*self));
            },
            PcgRegion::ReLateParam(n) => {
                push_str(s, "ReLateParam(");
                push_decimal(s, *n as usize);
                push_str(s, ")");
                assert(s@ =~= s0 + region_text(*self));
            },
            PcgRegion::PcgInternalError(PcgRegionInternalError::RegionIndexOutOfBounds(i)) => {
                push_str(s, "RegionIndexOutOfBounds(");
                push_decimal(s, i.0);
                push_str(s, ")");
                assert(s@ =~= s0 + region_text(*self));
            },
            PcgRegion::ReEarlyParam(n) => {
                push_str(s, "ReEarlyParam(");
                push_decimal(s, *n as usize);
                push_str(s, ")");
                assert(s@ =~= s0 + region_text(*self));
            },
        }
    }

    /// How the region is written out.
    pub fn to_short_string(&self) -> (s: String)
        ensures
            s@ == region_text(*self),
    {
        let mut s = String::new();
        self.write_to(&mut s);
        assert(s@ =~= region_text(*self));
        s
    }
}

/// The index of `region` among `regions`, the regions of a type in order:
/// the first position that holds it.
pub open spec fn first_index_of(regions: Seq<PcgRegion>, region: PcgRegion) -> Option<int> {
    if regions.contains(region) {
        Some(choose|i: int| 0 <= i < regions.len() && regions[i] == region
            && forall|j: int| 0 <= j < i ==> regions[j] != region)
    } else {
        None
    }
}

/// Finds the first index of `region` among `regions`.
pub fn find_region_idx(regions: &Vec<PcgRegion>, region: PcgRegion) -> (r: Option<RegionIdx>)
    ensures
        match r {
            Some(i) => 0 <= i.0 < regions@.len() && regions@[i.0 as int] == region
                && forall|j: int| 0 <= j < i.0 ==> regions@[j] != region,
            None => !regions@.contains(region),
        },
{
    let mut i: usize = 0;
    while i < regions.len()
        invariant
            i <= regions@.len(),
            forall|j: int| 0 <= j < i ==> regions@[j] != region,
        decreases regions.len() - i,
    {
        if regions[i] == region {
            return Some(RegionIdx(i));
        }
        i = i + 1;
    }
    None
}

/// The region at index `idx` of the regions of a type, or an internal error
/// region if the type has fewer regions.
pub fn region_at(regions: &Vec<PcgRegion>, idx: RegionIdx) -> (r: PcgRegion)
    ensures
        idx.0 < regions@.len() ==> r == regions@[idx.0 as int],
        idx.0 >= regions@.len() ==> r == PcgRegion::PcgInternalError(PcgRegionInternalError::RegionIndexOutOfBounds(idx)),
{
    if idx.0 < regions.len() {
        regions[idx.0]
    } else {
        PcgRegion::PcgInternalError(PcgRegionInternalError::RegionIndexOutOfBounds(idx))
    }
}

/// A label of a lifetime projection: the program point whose memory it
/// denotes, or the placeholder for the memory it will refer to once it
/// becomes accessible again.
#[derive(Clone, Copy, Debug, PartialEq, Eq, Structural, Hash)]
pub enum LifetimeProjectionLabel {
    Location(SnapshotLocation),
    Future,
}

impl LifetimeProjectionLabel {
    /// Whether this is the placeholder label.
    pub fn is_future(self) -> (b: bool)
        ensures
            b == (self == LifetimeProjectionLabel::Future),
    {
        match self {
            LifetimeProjectionLabel::Future => true,
            _ => false,
        }
    }
}

} // verus!
