//! Whether an expansion can be packed back into its base without losing
//! information: every part extends the base by one projection and carries
//! the base's labels (the place's label and, for lifetime projections, the
//! projection's label).
use vstd::prelude::*;
use crate::edge_kind::BorrowPcgExpansion;
use crate::lifetime::{same_label, same_location, LocalLifetimeProjection};
use crate::place::{mlp_label, mlp_place, MaybeLabelledPlace, Place};

verus! {

/// `q` extends `p` by exactly one projection.
pub open spec fn is_prefix_exact(p: Place, q: Place) -> bool {
    q matches Place::Project(b, _) && *b == p
}

/// Whether `q` extends `p` by exactly one projection.
pub fn prefix_exact(p: &Place, q: &Place) -> (b: bool)
    ensures
        b == is_prefix_exact(*p, *q),
{
    match q {
        Place::Project(b, _) => **b == *p,
        Place::Base(_) => false,
    }
}

/// The place part `p` extends the place base `b` by one projection and has
/// its label.
pub open spec fn place_part_packs(b: MaybeLabelledPlace, p: MaybeLabelledPlace) -> bool {
    is_prefix_exact(mlp_place(b), mlp_place(p)) && mlp_label(p) == mlp_label(b)
}

/// The projection part `p` is over a place part of the base's place, and
/// has the base's projection label.
pub open spec fn projection_part_packs(b: LocalLifetimeProjection, p: LocalLifetimeProjection) -> bool {
    place_part_packs(b.base, p.base) && p.label == b.label
}

/// The expansion can be packed: each part packs into the base.
pub open spec fn packable(e: BorrowPcgExpansion) -> bool {
    match e {
        BorrowPcgExpansion::Place(d) => forall|i: int| 0 <= i < d.expansion@.len()
            ==> #[trigger] place_part_packs(d.base, d.expansion@[i]),
        BorrowPcgExpansion::LifetimeProjection(d) => forall|i: int| 0 <= i < d.expansion@.len()
            ==> #[trigger] projection_part_packs(d.base, d.expansion@[i]),
    }
}

/// A place expansion can be packed exactly when each part is the base's
/// place with one more projection and has exactly the base's label (a
/// current part under a labelled base, or a labelled part under a current
/// one, does not pack).
pub proof fn lemma_place_expansion_packable(e: BorrowPcgExpansion)
    requires
        e is Place,
    ensures
        packable(e) <==> forall|i: int| 0 <= i < e->Place_0.expansion@.len() ==> {
            let b = e->Place_0.base;
            let p = #[trigger] e->Place_0.expansion@[i];
            &&& mlp_label(p) == mlp_label(b)
            &&& exists|elem: crate::mir::PlaceElem| mlp_place(p) == Place::Project(Box::new(mlp_place(b)), elem)
        },
{
    let d = e->Place_0;
    assert forall|i: int| 0 <= i < d.expansion@.len() implies (place_part_packs(d.base, #[trigger] d.expansion@[i])
        <==> (mlp_label(d.expansion@[i]) == mlp_label(d.base)
            && exists|elem: crate::mir::PlaceElem| mlp_place(d.expansion@[i]) == Place::Project(Box::new(mlp_place(d.base)), elem))) by {
        let p = d.expansion@[i];
        if let Place::Project(bx, elem) = mlp_place(p) {
            if *bx == mlp_place(d.base) {
                assert(mlp_place(p) == Place::Project(Box::new(mlp_place(d.base)), elem));
            }
        }
    }
}

/// A lifetime projection expansion can be packed exactly when each part is
/// over a place that extends the base's place by one projection, with the
/// base's place label and the base's projection label.
pub proof fn lemma_projection_expansion_packable(e: BorrowPcgExpansion)
    requires
        e is LifetimeProjection,
    ensures
        packable(e) <==> forall|i: int| 0 <= i < e->LifetimeProjection_0.expansion@.len() ==> {
            let b = e->LifetimeProjection_0.base;
            let p = #[trigger] e->LifetimeProjection_0.expansion@[i];
            &&& p.label == b.label
            &&& mlp_label(p.base) == mlp_label(b.base)
            &&& exists|elem: crate::mir::PlaceElem| mlp_place(p.base) == Place::Project(Box::new(mlp_place(b.base)), elem)
        },
{
    let d = e->LifetimeProjection_0;
    assert forall|i: int| 0 <= i < d.expansion@.len() implies (projection_part_packs(d.base, #[trigger] d.expansion@[i])
        <==> (d.expansion@[i].label == d.base.label && mlp_label(d.expansion@[i].base) == mlp_label(d.base.base)
            && exists|elem: crate::mir::PlaceElem| mlp_place(d.expansion@[i].base) == Place::Project(Box::new(mlp_place(d.base.base)), elem))) by {
        let p = d.expansion@[i];
        if let Place::Project(bx, elem) = mlp_place(p.base) {
            if *bx == mlp_place(d.base.base) {
                assert(mlp_place(p.base) == Place::Project(Box::new(mlp_place(d.base.base)), elem));
            }
        }
    }
}

fn place_packs(b: &MaybeLabelledPlace, p: &MaybeLabelledPlace) -> (r: bool)
    ensures
        r == place_part_packs(*b, *p),
{
    prefix_exact(&b.place(), &p.place()) && same_location(p.location(), b.location())
}

impl BorrowPcgExpansion {
    /// Whether the expansion can be packed without losing information: the
    /// labels of the parts (of their places, and for lifetime projections of
    /// the projections) are those of the base, and each part extends the
    /// base by one projection.
    pub fn is_packable(&self) -> (b: bool)
        ensures
            b == packable(*self),
    {
        match self {
            BorrowPcgExpansion::Place(d) => {
                let mut i: usize = 0;
                while i < d.expansion.len()
                    invariant
                        *self == BorrowPcgExpansion::Place(*d),
                        i <= d.expansion@.len(),
                        forall|j: int| 0 <= j < i ==> #[trigger] place_part_packs(d.base, d.expansion@[j]),
                    decreases d.expansion.len() - i,
                {
                    if !place_packs(&d.base, &d.expansion[i]) {
                        assert(!place_part_packs(d.base, d.expansion@[i as int]));
                        assert(!packable(*self));
                        return false;
                    }
                    i = i + 1;
                }
                true
            },
            BorrowPcgExpansion::LifetimeProjection(d) => {
                let mut i: usize = 0;
                while i < d.expansion.len()
                    invariant
                        *self == BorrowPcgExpansion::LifetimeProjection(*d),
                        i <= d.expansion@.len(),
                        forall|j: int| 0 <= j < i ==> #[trigger] projection_part_packs(d.base, d.expansion@[j]),
                    decreases d.expansion.len() - i,
                {
                    let p = &d.expansion[i];
                    if !(place_packs(&d.base.base, &p.base) && same_label(p.label, d.base.label)) {
                        assert(!projection_part_packs(d.base, d.expansion@[i as int]));
                        assert(!packable(*self));
                        return false;
                    }
                    i = i + 1;
                }
                true
            },
        }
    }
}

} // verus!
