//! Places: a local followed by a sequence of projections, with the prefix
//! relation between them; places that may carry a label; and places that
//! refer to the caller's memory.
use vstd::prelude::*;
use crate::mir::{Local, PlaceElem, SnapshotLocation};

verus! {

/// A place: a local, projected by a sequence of projection elements. The
/// innermost `Project` holds the last projection.
#[derive(Debug)]
pub enum Place {
    Base(Local),
    Project(Box<Place>, PlaceElem),
}

/// The local of a place.
pub open spec fn local_of(p: Place) -> Local
    decreases p,
{
    match p {
        Place::Base(l) => l,
        Place::Project(b, _) => local_of(*b),
    }
}

/// The projection elements of a place, outermost first.
pub open spec fn elems(p: Place) -> Seq<PlaceElem>
    decreases p,
{
    match p {
        Place::Base(_) => Seq::empty(),
        Place::Project(b, e) => elems(*b).push(e),
    }
}

/// The place with local `l` and projections `es`.
pub open spec fn make_place(l: Local, es: Seq<PlaceElem>) -> Place
    decreases es.len(),
{
    if es.len() == 0 {
        Place::Base(l)
    } else {
        Place::Project(Box::new(make_place(l, es.drop_last())), es.last())
    }
}

/// `p` is a prefix of `q`: they share the local and the projections of `p`
/// begin those of `q`. Every place is a prefix of itself.
pub open spec fn is_prefix(p: Place, q: Place) -> bool {
    &&& local_of(p) == local_of(q)
    &&& elems(p).len() <= elems(q).len()
    &&& elems(q).subrange(0, elems(p).len() as int) == elems(p)
}

/// Two places are disjoint when neither is a prefix of the other.
pub open spec fn disjoint(p: Place, q: Place) -> bool {
    !is_prefix(p, q) && !is_prefix(q, p)
}

/// A place is determined by its local and its projections.
pub proof fn lemma_place_ext(p: Place, q: Place)
    requires
        local_of(p) == local_of(q),
        elems(p) == elems(q),
    ensures
        p == q,
    decreases p,
{
    match (p, q) {
        (Place::Base(_), Place::Base(_)) => {},
        (Place::Project(b1, e1), Place::Project(b2, e2)) => {
            assert(elems(*b1) == elems(p).drop_last());
            assert(elems(*b2) == elems(q).drop_last());
            assert(e1 == elems(p).last());
            assert(e2 == elems(q).last());
            lemma_place_ext(*b1, *b2);
            assert(*b1 == *b2);
        },
        (Place::Base(_), Place::Project(b2, _)) => {
            assert(elems(q).len() == elems(*b2).len() + 1);
        },
        (Place::Project(b1, _), Place::Base(_)) => {
            assert(elems(p).len() == elems(*b1).len() + 1);
        },
    }
}

/// Building a place from its local and projections gives those back.
pub proof fn lemma_make_place(l: Local, es: Seq<PlaceElem>)
    ensures
        local_of(make_place(l, es)) == l,
        elems(make_place(l, es)) == es,
    decreases es.len(),
{
    if es.len() > 0 {
        lemma_make_place(l, es.drop_last());
    }
}

/// The prefix relation, one projection at a time.
pub proof fn lemma_is_prefix_step(p: Place, q: Place)
    ensures
        is_prefix(p, q) <==> (p == q || (q matches Place::Project(b, _) && is_prefix(p, *b))),
{
    assert(elems(p).subrange(0, elems(p).len() as int) =~= elems(p));
    match q {
        Place::Base(_) => {
            if is_prefix(p, q) {
                assert(elems(p) =~= elems(q));
                lemma_place_ext(p, q);
            }
        },
        Place::Project(b, e) => {
            assert(elems(q) == elems(*b).push(e));
            if is_prefix(p, q) && p != q {
                if elems(p).len() == elems(q).len() {
                    assert(elems(q).subrange(0, elems(p).len() as int) == elems(q));
                    lemma_place_ext(p, q);
                }
                assert(elems(*b).subrange(0, elems(p).len() as int)
                    =~= elems(q).subrange(0, elems(p).len() as int));
            }
            if is_prefix(p, *b) {
                assert(elems(*b).subrange(0, elems(p).len() as int)
                    =~= elems(q).subrange(0, elems(p).len() as int));
            }
        },
    }
}

/// The prefix relation is transitive.
pub proof fn lemma_is_prefix_trans(p: Place, q: Place, r: Place)
    requires
        is_prefix(p, q),
        is_prefix(q, r),
    ensures
        is_prefix(p, r),
{
    assert(elems(r).subrange(0, elems(p).len() as int)
        =~= elems(r).subrange(0, elems(q).len() as int).subrange(0, elems(p).len() as int));
}

/// Places related by the prefix relation in both directions are equal.
pub proof fn lemma_is_prefix_antisym(p: Place, q: Place)
    requires
        is_prefix(p, q),
        is_prefix(q, p),
    ensures
        p == q,
{
    assert(elems(q).subrange(0, elems(p).len() as int) =~= elems(q));
    lemma_place_ext(p, q);
}

fn place_eq(x: &Place, y: &Place) -> (r: bool)
    ensures
        r == (*x == *y),
    decreases x,
{
    match (x, y) {
        (Place::Base(a), Place::Base(b)) => *a == *b,
        (Place::Project(b1, e1), Place::Project(b2, e2)) => *e1 == *e2 && place_eq(b1, b2),
        _ => false,
    }
}

impl PartialEq for Place {
    fn eq(&self, other: &Self) -> (r: bool) {
        place_eq(self, other)
    }
}

impl vstd::std_specs::cmp::PartialEqSpecImpl for Place {
    open spec fn obeys_eq_spec() -> bool {
        true
    }

    open spec fn eq_spec(&self, other: &Self) -> bool {
        *self == *other
    }
}

impl Eq for Place {}

fn place_dup(x: &Place) -> (r: Place)
    ensures
        r == *x,
    decreases x,
{
    match x {
        Place::Base(l) => Place::Base(*l),
        Place::Project(b, e) => Place::Project(Box::new(place_dup(b)), *e),
    }
}

impl Clone for Place {
    fn clone(&self) -> (r: Self)
        ensures
            r == *self,
    {
        place_dup(self)
    }
}

impl Place {
    /// The place with the given local and projections.
    pub fn new(local: Local, projection: &[PlaceElem]) -> (p: Place)
        ensures
            local_of(p) == local,
            elems(p) == projection@,
            p == make_place(local, projection@),
    {
        let mut p = Place::Base(local);
        let mut i: usize = 0;
        proof {
            lemma_make_place(local, projection@);
        }
        while i < projection.len()
            invariant
                i <= projection@.len(),
                local_of(p) == local,
                elems(p) == projection@.subrange(0, i as int),
            decreases projection.len() - i,
        {
            p = Place::Project(Box::new(p), projection[i]);
            i = i + 1;
            assert(projection@.subrange(0, i as int) =~= projection@.subrange(0, i - 1).push(projection@[i - 1]));
        }
        assert(projection@.subrange(0, i as int) =~= projection@);
        proof {
            lemma_make_place(local, projection@);
            lemma_place_ext(p, make_place(local, projection@));
        }
        p
    }

    /// The place that is just the local `local`.
    pub fn from_local(local: Local) -> (p: Place)
        ensures
            local_of(p) == local,
            elems(p) == Seq::<PlaceElem>::empty(),
    {
        Place::Base(local)
    }

    /// The local of the place.
    pub fn local(&self) -> (l: Local)
        ensures
            l == local_of(*self),
        decreases self,
    {
        match self {
            Place::Base(l) => *l,
            Place::Project(b, _) => b.local(),
        }
    }

    /// The number of projections of the place.
    pub fn projection_len(&self) -> (n: usize)
        requires
            elems(*self).len() <= usize::MAX,
        ensures
            n == elems(*self).len(),
        decreases self,
    {
        match self {
            Place::Base(_) => 0,
            Place::Project(b, _) => b.projection_len() + 1,
        }
    }

    /// The projections of the place, outermost first.
    pub fn projection(&self) -> (v: Vec<PlaceElem>)
        ensures
            v@ == elems(*self),
        decreases self,
    {
        match self {
            Place::Base(_) => Vec::new(),
            Place::Project(b, e) => {
                let mut v = b.projection();
                v.push(*e);
                v
            },
        }
    }

    /// Whether the place has no projections.
    pub fn is_local(&self) -> (b: bool)
        ensures
            b == (elems(*self).len() == 0),
    {
        match self {
            Place::Base(_) => true,
            Place::Project(_, _) => false,
        }
    }

    /// Whether `self` is a prefix of `other` (every place is a prefix of
    /// itself).
    pub fn is_prefix_of(&self, other: &Place) -> (b: bool)
        ensures
            b == is_prefix(*self, *other),
        decreases other,
    {
        proof {
            lemma_is_prefix_step(*self, *other);
        }
        if place_eq(self, other) {
            true
        } else {
            match other {
                Place::Base(_) => false,
                Place::Project(b, _) => self.is_prefix_of(b),
            }
        }
    }

    /// Whether `self` is a prefix of `other` and differs from it.
    pub fn is_strict_prefix_of(&self, other: &Place) -> (b: bool)
        ensures
            b == (is_prefix(*self, *other) && *self != *other),
    {
        self.is_prefix_of(other) && !place_eq(self, other)
    }

    /// The place extended by one more projection.
    pub fn project_deeper(&self, elem: PlaceElem) -> (p: Place)
        ensures
            p == Place::Project(Box::new(*self), elem),
            local_of(p) == local_of(*self),
            elems(p) == elems(*self).push(elem),
    {
        Place::Project(Box::new(place_dup(self)), elem)
    }

    /// The dereference of the place.
    pub fn project_deref(&self) -> (p: Place)
        ensures
            p == Place::Project(Box::new(*self), PlaceElem::Deref),
    {
        self.project_deeper(PlaceElem::Deref)
    }

    /// The place without its last projection, and that projection; `None`
    /// for a local.
    pub fn last_projection(&self) -> (r: Option<(Place, PlaceElem)>)
        ensures
            match *self {
                Place::Base(_) => r.is_none(),
                Place::Project(b, e) => r == Some((*b, e)),
            },
    {
        match self {
            Place::Base(_) => None,
            Place::Project(b, e) => Some((place_dup(b), *e)),
        }
    }

    /// The place without its last projection; `None` for a local.
    pub fn prefix_place(&self) -> (r: Option<Place>)
        ensures
            match *self {
                Place::Base(_) => r.is_none(),
                Place::Project(b, _) => r == Some(*b),
            },
    {
        match self {
            Place::Base(_) => None,
            Place::Project(b, _) => Some(place_dup(b)),
        }
    }

    /// The strict prefixes of the place, each with the projection that
    /// follows it, from the local outward.
    pub fn iter_projections(&self) -> (v: Vec<(Place, PlaceElem)>)
        ensures
            v@.len() == elems(*self).len(),
            forall|i: int| 0 <= i < v@.len() ==> {
                &&& #[trigger] v@[i].0 == make_place(local_of(*self), elems(*self).subrange(0, i))
                &&& v@[i].1 == elems(*self)[i]
            },
        decreases self,
    {
        match self {
            Place::Base(_) => Vec::new(),
            Place::Project(b, e) => {
                let mut v = b.iter_projections();
                proof {
                    lemma_make_place(local_of(**b), elems(**b));
                    lemma_place_ext(**b, make_place(local_of(**b), elems(**b)));
                    assert(elems(*self).subrange(0, elems(**b).len() as int) =~= elems(**b));
                    assert forall|i: int| 0 <= i < elems(**b).len() implies
                        elems(*self).subrange(0, i) =~= elems(**b).subrange(0, i) by {}
                }
                v.push((place_dup(b), *e));
                v
            },
        }
    }

    /// Whether any projection of the place is a dereference.
    pub fn contains_deref(&self) -> (r: bool)
        ensures
            r == elems(*self).contains(PlaceElem::Deref),
    {
        let v = self.projection();
        let mut i: usize = 0;
        while i < v.len()
            invariant
                v@ == elems(*self),
                i <= v.len(),
                forall|j: int| 0 <= j < i ==> v@[j] != PlaceElem::Deref,
            decreases v.len() - i,
        {
            if v[i] == PlaceElem::Deref {
                assert(v@[i as int] == PlaceElem::Deref);
                return true;
            }
            i = i + 1;
        }
        false
    }

    /// The longest common prefix of two places of the same local.
    pub fn common_prefix(&self, other: &Place) -> (p: Place)
        requires
            local_of(*self) == local_of(*other),
        ensures
            is_prefix(p, *self),
            is_prefix(p, *other),
            forall|q: Place| is_prefix(q, *self) && is_prefix(q, *other) ==> is_prefix(q, p),
    {
        let a = self.projection();
        let b = other.projection();
        let mut k: usize = 0;
        while k < a.len() && k < b.len() && a[k] == b[k]
            invariant
                a@ == elems(*self),
                b@ == elems(*other),
                k <= a.len(),
                k <= b.len(),
                forall|j: int| 0 <= j < k ==> a@[j] == b@[j],
            decreases a.len() - k,
        {
            k = k + 1;
        }
        let p = Place::new(self.local(), a.as_slice().split_at(k).0);
        proof {
            assert(a@.subrange(0, k as int) =~= b@.subrange(0, k as int));
            assert forall|q: Place| is_prefix(q, *self) && is_prefix(q, *other) implies is_prefix(q, p) by {
                let n = elems(q).len();
                if n > k {
                    assert(a@[k as int] == elems(q)[k as int]);
                    assert(b@[k as int] == elems(q)[k as int]);
                }
                assert(elems(p).subrange(0, n as int) =~= elems(q));
            }
        }
        p
    }
}

/// A place that is either current or labelled with the program point whose
/// memory it denotes.
#[derive(Debug)]
pub enum MaybeLabelledPlace {
    Current(Place),
    Labelled(Place, SnapshotLocation),
}

/// The place of a possibly labelled place.
pub open spec fn mlp_place(p: MaybeLabelledPlace) -> Place {
    match p {
        MaybeLabelledPlace::Current(q) => q,
        MaybeLabelledPlace::Labelled(q, _) => q,
    }
}

/// The label of a possibly labelled place.
pub open spec fn mlp_label(p: MaybeLabelledPlace) -> Option<SnapshotLocation> {
    match p {
        MaybeLabelledPlace::Current(_) => None,
        MaybeLabelledPlace::Labelled(_, l) => Some(l),
    }
}

fn mlp_eq(x: &MaybeLabelledPlace, y: &MaybeLabelledPlace) -> (r: bool)
    ensures
        r == (*x == *y),
{
    match (x, y) {
        (MaybeLabelledPlace::Current(a), MaybeLabelledPlace::Current(b)) => place_eq(a, b),
        (MaybeLabelledPlace::Labelled(a, l1), MaybeLabelledPlace::Labelled(b, l2)) => {
            *l1 == *l2 && place_eq(a, b)
        },
        _ => false,
    }
}

impl PartialEq for MaybeLabelledPlace {
    fn eq(&self, other: &Self) -> (r: bool) {
        mlp_eq(self, other)
    }
}

impl vstd::std_specs::cmp::PartialEqSpecImpl for MaybeLabelledPlace {
    open spec fn obeys_eq_spec() -> bool {
        true
    }

    open spec fn eq_spec(&self, other: &Self) -> bool {
        *self == *other
    }
}

impl Eq for MaybeLabelledPlace {}

impl Clone for MaybeLabelledPlace {
    fn clone(&self) -> (r: Self)
        ensures
            r == *self,
    {
        match self {
            MaybeLabelledPlace::Current(p) => MaybeLabelledPlace::Current(place_dup(p)),
            MaybeLabelledPlace::Labelled(p, l) => MaybeLabelledPlace::Labelled(place_dup(p), *l),
        }
    }
}

impl MaybeLabelledPlace {
    /// A place with the given label, or a current place without one.
    pub fn new(place: Place, label: Option<SnapshotLocation>) -> (r: MaybeLabelledPlace)
        ensures
            mlp_place(r) == place,
            mlp_label(r) == label,
    {
        match label {
            Some(l) => MaybeLabelledPlace::Labelled(place, l),
            None => MaybeLabelledPlace::Current(place),
        }
    }

    /// Whether the place is labelled, i.e. refers to a past program point.
    pub fn is_old(&self) -> (b: bool)
        ensures
            b == mlp_label(*self).is_some(),
    {
        match self {
            MaybeLabelledPlace::Current(_) => false,
            MaybeLabelledPlace::Labelled(_, _) => true,
        }
    }

    /// The place, without its label.
    pub fn place(&self) -> (p: Place)
        ensures
            p == mlp_place(*self),
    {
        match self {
            MaybeLabelledPlace::Current(p) => place_dup(p),
            MaybeLabelledPlace::Labelled(p, _) => place_dup(p),
        }
    }

    /// The label of the place, if it has one.
    pub fn location(&self) -> (l: Option<SnapshotLocation>)
        ensures
            l == mlp_label(*self),
    {
        match self {
            MaybeLabelledPlace::Current(_) => None,
            MaybeLabelledPlace::Labelled(_, l) => Some(*l),
        }
    }

    /// The place, if it is current.
    pub fn as_current_place(&self) -> (p: Option<Place>)
        ensures
            p == (match *self {
                MaybeLabelledPlace::Current(q) => Some(q),
                _ => None,
            }),
    {
        match self {
            MaybeLabelledPlace::Current(p) => Some(place_dup(p)),
            MaybeLabelledPlace::Labelled(_, _) => None,
        }
    }

    /// The local of the place.
    pub fn local(&self) -> (l: Local)
        ensures
            l == local_of(mlp_place(*self)),
    {
        match self {
            MaybeLabelledPlace::Current(p) => p.local(),
            MaybeLabelledPlace::Labelled(p, _) => p.local(),
        }
    }

    /// The same place with the given label (or none).
    pub fn with_label(&self, label: Option<SnapshotLocation>) -> (r: MaybeLabelledPlace)
        ensures
            mlp_place(r) == mlp_place(*self),
            mlp_label(r) == label,
    {
        MaybeLabelledPlace::new(self.place(), label)
    }

    /// The place extended by a projection, keeping the label.
    pub fn project_deeper(&self, elem: PlaceElem) -> (r: MaybeLabelledPlace)
        ensures
            mlp_place(r) == Place::Project(Box::new(mlp_place(*self)), elem),
            mlp_label(r) == mlp_label(*self),
    {
        MaybeLabelledPlace::new(self.place().project_deeper(elem), self.location())
    }

    /// The dereference of the place, keeping the label.
    pub fn project_deref(&self) -> (r: MaybeLabelledPlace)
        ensures
            mlp_place(r) == Place::Project(Box::new(mlp_place(*self)), PlaceElem::Deref),
            mlp_label(r) == mlp_label(*self),
    {
        self.project_deeper(PlaceElem::Deref)
    }

    /// The place without its last projection, and that projection.
    pub fn last_projection(&self) -> (r: Option<(Place, PlaceElem)>)
        ensures
            match mlp_place(*self) {
                Place::Base(_) => r.is_none(),
                Place::Project(b, e) => r == Some((*b, e)),
            },
    {
        match self {
            MaybeLabelledPlace::Current(p) => p.last_projection(),
            MaybeLabelledPlace::Labelled(p, _) => p.last_projection(),
        }
    }
}

/// The memory that a function argument's references point to in the caller.
#[derive(Clone, Copy, Debug, PartialEq, Eq, Structural, Hash)]
pub struct RemotePlace {
    pub local: Local,
}

impl RemotePlace {
    /// The remote place of the argument local `local`.
    pub fn new(local: Local) -> (r: RemotePlace)
        ensures
            r.local == local,
    {
        RemotePlace { local }
    }

    /// The argument local whose caller memory this is.
    pub fn assigned_local(self) -> (l: Local)
        ensures
            l == self.local,
    {
        self.local
    }
}

/// Either a place of the body (possibly labelled) or a remote place.
#[derive(Debug)]
pub enum MaybeRemotePlace {
    Local(MaybeLabelledPlace),
    Remote(RemotePlace),
}

fn mrp_eq(x: &MaybeRemotePlace, y: &MaybeRemotePlace) -> (r: bool)
    ensures
        r == (*x == *y),
{
    match (x, y) {
        (MaybeRemotePlace::Local(a), MaybeRemotePlace::Local(b)) => mlp_eq(a, b),
        (MaybeRemotePlace::Remote(a), MaybeRemotePlace::Remote(b)) => *a == *b,
        _ => false,
    }
}

impl PartialEq for MaybeRemotePlace {
    fn eq(&self, other: &Self) -> (r: bool) {
        mrp_eq(self, other)
    }
}

impl vstd::std_specs::cmp::PartialEqSpecImpl for MaybeRemotePlace {
    open spec fn obeys_eq_spec() -> bool {
        true
    }

    open spec fn eq_spec(&self, other: &Self) -> bool {
        *self == *other
    }
}

impl Eq for MaybeRemotePlace {}

impl Clone for MaybeRemotePlace {
    fn clone(&self) -> (r: Self)
        ensures
            r == *self,
    {
        match self {
            MaybeRemotePlace::Local(p) => MaybeRemotePlace::Local(p.clone()),
            MaybeRemotePlace::Remote(r) => MaybeRemotePlace::Remote(*r),
        }
    }
}

impl MaybeRemotePlace {
    /// The local place, if this is not remote.
    pub fn as_local_place(&self) -> (r: Option<MaybeLabelledPlace>)
        ensures
            r == (match *self {
                MaybeRemotePlace::Local(p) => Some(p),
                _ => None,
            }),
    {
        match self {
            MaybeRemotePlace::Local(p) => Some(p.clone()),
            MaybeRemotePlace::Remote(_) => None,
        }
    }

    /// The current place, if this is a current local place.
    pub fn as_current_place(&self) -> (r: Option<Place>)
        ensures
            r == (match *self {
                MaybeRemotePlace::Local(MaybeLabelledPlace::Current(p)) => Some(p),
                _ => None,
            }),
    {
        match self {
            MaybeRemotePlace::Local(p) => p.as_current_place(),
            MaybeRemotePlace::Remote(_) => None,
        }
    }

    /// Whether this is a labelled local place.
    pub fn is_old(&self) -> (b: bool)
        ensures
            b == (*self matches MaybeRemotePlace::Local(MaybeLabelledPlace::Labelled(_, _))),
    {
        match self {
            MaybeRemotePlace::Local(p) => p.is_old(),
            MaybeRemotePlace::Remote(_) => false,
        }
    }

    /// Whether this is a remote place.
    pub fn is_remote(&self) -> (b: bool)
        ensures
            b == (*self matches MaybeRemotePlace::Remote(_)),
    {
        match self {
            MaybeRemotePlace::Local(_) => false,
            MaybeRemotePlace::Remote(_) => true,
        }
    }
}

} // verus!
