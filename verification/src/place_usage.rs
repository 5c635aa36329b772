//! How places are used inside a loop: the usage types and their join, the
//! set of used places with their usages, its consolidation into pairwise
//! disjoint places, and the order in which a loop head unpacks them.
use vstd::prelude::*;
use crate::place::{Place, is_prefix, disjoint, local_of, elems};

verus! {

/// The way in which a place is used inside a loop. `Exclusive` is the top
/// element; `Read` and `Write` are incomparable and join to `Exclusive`.
#[derive(Clone, Copy, Debug, PartialEq, Eq, Structural, Hash)]
pub enum PlaceUsageType {
    /// The place is read from.
    Read,
    /// The place is assigned to.
    Write,
    /// The place is moved out of or mutably borrowed.
    Exclusive,
}

/// The join of two usage types.
pub open spec fn join_usage(a: PlaceUsageType, b: PlaceUsageType) -> PlaceUsageType {
    match (a, b) {
        (PlaceUsageType::Read, PlaceUsageType::Read) => PlaceUsageType::Read,
        (PlaceUsageType::Write, PlaceUsageType::Write) => PlaceUsageType::Write,
        _ => PlaceUsageType::Exclusive,
    }
}

impl PlaceUsageType {
    /// The join of two usage types.
    pub fn joined(self, other: Self) -> (r: Self)
        ensures
            r == join_usage(self, other),
    {
        match (self, other) {
            (PlaceUsageType::Read, PlaceUsageType::Read) => PlaceUsageType::Read,
            (PlaceUsageType::Write, PlaceUsageType::Write) => PlaceUsageType::Write,
            _ => PlaceUsageType::Exclusive,
        }
    }

    /// Whether the usage is a read.
    pub fn is_read(self) -> (b: bool)
        ensures
            b == (self == PlaceUsageType::Read),
    {
        match self {
            PlaceUsageType::Read => true,
            _ => false,
        }
    }

    /// Joins `other` into `self`; returns whether `self` changed.
    pub fn join(&mut self, other: &Self) -> (changed: bool)
        ensures
            *final(self) == join_usage(*old(self), *other),
            changed == (*final(self) != *old(self)),
    {
        let joined = self.joined(*other);
        let changed = joined != *self;
        *self = joined;
        changed
    }
}

/// The join is commutative, associative and idempotent, and `Exclusive`
/// absorbs everything.
pub proof fn lemma_join_usage_laws(a: PlaceUsageType, b: PlaceUsageType, c: PlaceUsageType)
    ensures
        join_usage(a, b) == join_usage(b, a),
        join_usage(join_usage(a, b), c) == join_usage(a, join_usage(b, c)),
        join_usage(a, a) == a,
        join_usage(a, PlaceUsageType::Exclusive) == PlaceUsageType::Exclusive,
{
}

/// A place and how it is used.
#[derive(Debug)]
pub struct PlaceUsage {
    pub place: Place,
    pub usage: PlaceUsageType,
}

impl Clone for PlaceUsage {
    fn clone(&self) -> (r: Self)
        ensures
            r == *self,
    {
        PlaceUsage { place: self.place.clone(), usage: self.usage }
    }
}

/// The places of a sequence of usages are distinct.
pub open spec fn distinct_places(v: Seq<PlaceUsage>) -> bool {
    forall|i: int, j: int| 0 <= i < v.len() && 0 <= j < v.len() && i != j ==> v[i].place != v[j].place
}

/// The usages as a map from place to usage type.
pub open spec fn usage_map(v: Seq<PlaceUsage>) -> Map<Place, PlaceUsageType> {
    Map::new(
        |p: Place| exists|i: int| 0 <= i < v.len() && v[i].place == p,
        |p: Place| v[choose|i: int| 0 <= i < v.len() && v[i].place == p].usage,
    )
}

/// Each usage of a sequence with distinct places is its place's entry in
/// the map.
pub proof fn lemma_usage_map_at(v: Seq<PlaceUsage>, i: int)
    requires
        distinct_places(v),
        0 <= i < v.len(),
    ensures
        usage_map(v).dom().contains(v[i].place),
        usage_map(v)[v[i].place] == v[i].usage,
{
    let p = v[i].place;
    assert(exists|k: int| 0 <= k < v.len() && v[k].place == p);
    let k = choose|k: int| 0 <= k < v.len() && v[k].place == p;
    assert(k == i);
}

/// The pointwise join of two usage maps.
pub open spec fn join_maps(a: Map<Place, PlaceUsageType>, b: Map<Place, PlaceUsageType>) -> Map<Place, PlaceUsageType> {
    Map::new(
        |p: Place| a.dom().contains(p) || b.dom().contains(p),
        |p: Place| if a.dom().contains(p) && b.dom().contains(p) {
            join_usage(a[p], b[p])
        } else if a.dom().contains(p) {
            a[p]
        } else {
            b[p]
        },
    )
}

/// The result of recording usage `u` of place `p`.
pub open spec fn record_usage(m: Map<Place, PlaceUsageType>, p: Place, u: PlaceUsageType) -> Map<Place, PlaceUsageType> {
    if m.dom().contains(p) {
        m.insert(p, join_usage(m[p], u))
    } else {
        m.insert(p, u)
    }
}

/// Joining usage maps is commutative, associative and idempotent: the
/// usages of a loop form a join-semilattice.
pub proof fn lemma_join_maps_laws(a: Map<Place, PlaceUsageType>, b: Map<Place, PlaceUsageType>, c: Map<Place, PlaceUsageType>)
    ensures
        join_maps(a, b) == join_maps(b, a),
        join_maps(join_maps(a, b), c) == join_maps(a, join_maps(b, c)),
        join_maps(a, a) == a,
{
    assert(join_maps(a, b) =~= join_maps(b, a)) by {
        assert forall|p: Place| a.dom().contains(p) && b.dom().contains(p) implies join_usage(a[p], b[p]) == join_usage(b[p], a[p]) by {
            lemma_join_usage_laws(a[p], b[p], a[p]);
        }
    }
    assert(join_maps(join_maps(a, b), c) =~= join_maps(a, join_maps(b, c))) by {
        assert forall|p: Place| a.dom().contains(p) && b.dom().contains(p) && c.dom().contains(p) implies
            join_usage(join_usage(a[p], b[p]), c[p]) == join_usage(a[p], join_usage(b[p], c[p])) by {
            lemma_join_usage_laws(a[p], b[p], c[p]);
        }
    }
    assert(join_maps(a, a) =~= a) by {
        assert forall|p: Place| a.dom().contains(p) implies join_usage(a[p], a[p]) == a[p] by {
            lemma_join_usage_laws(a[p], a[p], a[p]);
        }
    }
}

/// After recording a usage of `p`, `p` has the join of its former usage
/// and the new one, or the new one if it had none; every other place keeps
/// its usage.
pub proof fn lemma_record_usage_get(m: Map<Place, PlaceUsageType>, p: Place, u: PlaceUsageType, q: Place)
    ensures
        record_usage(m, p, u).dom().contains(p),
        record_usage(m, p, u)[p] == (if m.dom().contains(p) { join_usage(m[p], u) } else { u }),
        q != p ==> (record_usage(m, p, u).dom().contains(q) == m.dom().contains(q)
            && (m.dom().contains(q) ==> record_usage(m, p, u)[q] == m[q])),
{
}

/// The places used in a loop with their usage types; each place occurs once.
#[derive(Debug)]
pub struct PlaceUsages(pub Vec<PlaceUsage>);

impl PlaceUsages {
    /// Each place occurs once.
    pub open spec fn wf(&self) -> bool {
        distinct_places(self.0@)
    }

    /// The usages as a map.
    pub open spec fn map(&self) -> Map<Place, PlaceUsageType> {
        usage_map(self.0@)
    }

    /// No usages.
    pub fn new() -> (r: PlaceUsages)
        ensures
            r.wf(),
            r.map() == Map::<Place, PlaceUsageType>::empty(),
    {
        let r = PlaceUsages(Vec::new());
        assert(r.map() =~= Map::<Place, PlaceUsageType>::empty());
        r
    }

    /// The number of used places.
    pub fn len(&self) -> (n: usize)
        requires
            self.wf(),
        ensures
            n == self.0@.len(),
    {
        self.0.len()
    }

    /// Whether no place is used.
    pub fn is_empty(&self) -> (b: bool)
        requires
            self.wf(),
        ensures
            b == (self.map().dom() == Set::<Place>::empty()),
    {
        if self.0.len() == 0 {
            assert(self.map().dom() =~= Set::<Place>::empty());
            true
        } else {
            proof {
                lemma_usage_map_at(self.0@, 0);
                assert(self.map().dom().contains(self.0@[0].place));
            }
            false
        }
    }

    fn position(&self, place: &Place) -> (r: Option<usize>)
        requires
            self.wf(),
        ensures
            match r {
                Some(i) => i < self.0@.len() && self.0@[i as int].place == *place,
                None => !self.map().dom().contains(*place),
            },
    {
        let mut i: usize = 0;
        while i < self.0.len()
            invariant
                i <= self.0@.len(),
                forall|j: int| 0 <= j < i ==> self.0@[j].place != *place,
            decreases self.0.len() - i,
        {
            if self.0[i].place == *place {
                return Some(i);
            }
            i = i + 1;
        }
        None
    }

    /// Whether `place` is used.
    pub fn contains(&self, place: &Place) -> (b: bool)
        requires
            self.wf(),
        ensures
            b == self.map().dom().contains(*place),
    {
        match self.position(place) {
            Some(i) => {
                proof {
                    lemma_usage_map_at(self.0@, i as int);
                }
                true
            },
            None => false,
        }
    }

    /// The usage type of `place`, if it is used.
    pub fn get(&self, place: &Place) -> (r: Option<PlaceUsageType>)
        requires
            self.wf(),
        ensures
            r == (if self.map().dom().contains(*place) { Some(self.map()[*place]) } else { None }),
    {
        match self.position(place) {
            Some(i) => {
                proof {
                    lemma_usage_map_at(self.0@, i as int);
                }
                Some(self.0[i].usage)
            },
            None => None,
        }
    }

    /// Records that `place` is used as `usage`, joining with an existing
    /// usage; returns whether the usages changed.
    pub fn update(&mut self, place: Place, usage: PlaceUsageType) -> (changed: bool)
        requires
            old(self).wf(),
        ensures
            final(self).wf(),
            final(self).map() == record_usage(old(self).map(), place, usage),
            changed == !(old(self).map().dom().contains(place) && join_usage(old(self).map()[place], usage)
                == old(self).map()[place]),
    {
        let ghost old_v = self.0@;
        match self.position(&place) {
            Some(i) => {
                proof {
                    lemma_usage_map_at(old_v, i as int);
                }
                let existing = self.0[i].usage;
                let joined = existing.joined(usage);
                if joined == existing {
                    proof {
                        assert(record_usage(old(self).map(), place, usage) =~= old(self).map());
                    }
                    false
                } else {
                    self.0.set(i, PlaceUsage { place, usage: joined });
                    proof {
                        let v = self.0@;
                        assert(v == old_v.update(i as int, PlaceUsage { place: old_v[i as int].place, usage: joined }));
                        assert forall|a: int, b: int| 0 <= a < v.len() && 0 <= b < v.len() && a != b
                            implies v[a].place != v[b].place by {
                            assert(old_v[a].place != old_v[b].place);
                        }
                        assert forall|q: Place| #[trigger] usage_map(v).dom().contains(q)
                            == record_usage(usage_map(old_v), place, usage).dom().contains(q) by {
                            if usage_map(old_v).dom().contains(q) {
                                let k = choose|k: int| 0 <= k < old_v.len() && old_v[k].place == q;
                                assert(v[k].place == q);
                            }
                            if usage_map(v).dom().contains(q) {
                                let k = choose|k: int| 0 <= k < v.len() && v[k].place == q;
                                assert(old_v[k].place == q);
                            }
                        }
                        assert forall|q: Place| #[trigger] usage_map(v).dom().contains(q)
                            implies usage_map(v)[q] == record_usage(usage_map(old_v), place, usage)[q] by {
                            let k = choose|k: int| 0 <= k < v.len() && v[k].place == q;
                            lemma_usage_map_at(v, k);
                            lemma_usage_map_at(old_v, k);
                        }
                        assert(usage_map(v) =~= record_usage(usage_map(old_v), place, usage));
                    }
                    true
                }
            },
            None => {
                self.0.push(PlaceUsage { place, usage });
                proof {
                    let v = self.0@;
                    assert(v == old_v.push(PlaceUsage { place, usage }));
                    assert forall|a: int, b: int| 0 <= a < v.len() && 0 <= b < v.len() && a != b
                        implies v[a].place != v[b].place by {
                        if a < old_v.len() && b < old_v.len() {
                            assert(old_v[a].place != old_v[b].place);
                        } else if a < old_v.len() {
                            assert(usage_map(old_v).dom().contains(old_v[a].place));
                        } else {
                            assert(usage_map(old_v).dom().contains(old_v[b].place));
                        }
                    }
                    assert forall|q: Place| #[trigger] usage_map(v).dom().contains(q)
                        == record_usage(usage_map(old_v), place, usage).dom().contains(q) by {
                        if usage_map(old_v).dom().contains(q) {
                            let k = choose|k: int| 0 <= k < old_v.len() && old_v[k].place == q;
                            assert(v[k].place == q);
                        }
                        if q == place {
                            assert(v[old_v.len() as int].place == q);
                        }
                        if usage_map(v).dom().contains(q) {
                            let k = choose|k: int| 0 <= k < v.len() && v[k].place == q;
                            if k < old_v.len() {
                                assert(old_v[k].place == q);
                            }
                        }
                    }
                    assert forall|q: Place| #[trigger] usage_map(v).dom().contains(q)
                        implies usage_map(v)[q] == record_usage(usage_map(old_v), place, usage)[q] by {
                        let k = choose|k: int| 0 <= k < v.len() && v[k].place == q;
                        lemma_usage_map_at(v, k);
                        if k < old_v.len() {
                            lemma_usage_map_at(old_v, k);
                        }
                    }
                    assert(usage_map(v) =~= record_usage(usage_map(old_v), place, usage));
                }
                true
            },
        }
    }

    /// The usages, one per place.
    pub fn iter(&self) -> (v: Vec<PlaceUsage>)
        ensures
            v@ == self.0@,
    {
        let mut v: Vec<PlaceUsage> = Vec::new();
        let mut i: usize = 0;
        while i < self.0.len()
            invariant
                i <= self.0@.len(),
                v@ == self.0@.subrange(0, i as int),
            decreases self.0.len() - i,
        {
            v.push(self.0[i].clone());
            i = i + 1;
            assert(v@ =~= self.0@.subrange(0, i as int));
        }
        v
    }

    /// The used places.
    pub fn iter_places(&self) -> (v: Vec<Place>)
        ensures
            v@.len() == self.0@.len(),
            forall|i: int| 0 <= i < v@.len() ==> #[trigger] v@[i] == self.0@[i].place,
    {
        let mut v: Vec<Place> = Vec::new();
        let mut i: usize = 0;
        while i < self.0.len()
            invariant
                i <= self.0@.len(),
                v@.len() == i,
                forall|j: int| 0 <= j < i ==> #[trigger] v@[j] == self.0@[j].place,
            decreases self.0.len() - i,
        {
            v.push(self.0[i].place.clone());
            i = i + 1;
        }
        v
    }

    /// A copy of the usages.
    pub fn duplicate(&self) -> (r: PlaceUsages)
        ensures
            r.0@ == self.0@,
    {
        PlaceUsages(self.iter())
    }

    /// Joins the usages of `other` into `self`; returns whether `self`
    /// changed.
    pub fn join(&mut self, other: &PlaceUsages) -> (changed: bool)
        requires
            old(self).wf(),
            other.wf(),
        ensures
            final(self).wf(),
            final(self).map() == join_maps(old(self).map(), other.map()),
            changed == (final(self).map() != old(self).map()),
    {
        let ghost m0 = self.map();
        let mut changed = false;
        let mut i: usize = 0;
        while i < other.0.len()
            invariant
                self.wf(),
                other.wf(),
                i <= other.0@.len(),
                self.map() == join_maps(m0, usage_map(other.0@.subrange(0, i as int))),
                changed == (self.map() != m0),
            decreases other.0.len() - i,
        {
            let ghost before = self.map();
            let c = self.update(other.0[i].place.clone(), other.0[i].usage);
            proof {
                let sub = other.0@.subrange(0, i as int);
                let sub1 = other.0@.subrange(0, i + 1);
                let q = other.0@[i as int].place;
                assert(sub1 == sub.push(other.0@[i as int]));
                assert(distinct_places(sub1));
                assert(distinct_places(sub));
                assert forall|p: Place| #[trigger] usage_map(sub1).dom().contains(p)
                    == (usage_map(sub).dom().contains(p) || p == q) by {
                    if usage_map(sub).dom().contains(p) {
                        let k = choose|k: int| 0 <= k < sub.len() && sub[k].place == p;
                        assert(sub1[k].place == p);
                    }
                    if p == q {
                        assert(sub1[i as int].place == p);
                    }
                    if usage_map(sub1).dom().contains(p) {
                        let k = choose|k: int| 0 <= k < sub1.len() && sub1[k].place == p;
                        if k < i {
                            assert(sub[k].place == p);
                        }
                    }
                }
                assert(!usage_map(sub).dom().contains(q)) by {
                    if usage_map(sub).dom().contains(q) {
                        let k = choose|k: int| 0 <= k < sub.len() && sub[k].place == q;
                        assert(other.0@[k].place == other.0@[i as int].place);
                    }
                }
                assert forall|p: Place| usage_map(sub).dom().contains(p) implies
                    #[trigger] usage_map(sub1)[p] == usage_map(sub)[p] by {
                    let k = choose|k: int| 0 <= k < sub.len() && sub[k].place == p;
                    lemma_usage_map_at(sub, k);
                    lemma_usage_map_at(sub1, k);
                }
                lemma_usage_map_at(sub1, i as int);
                assert(self.map() =~= join_maps(m0, usage_map(sub1))) by {
                    assert forall|p: Place| #[trigger] self.map().dom().contains(p)
                        == join_maps(m0, usage_map(sub1)).dom().contains(p) by {}
                    assert forall|p: Place| #[trigger] self.map().dom().contains(p) implies
                        self.map()[p] == join_maps(m0, usage_map(sub1))[p] by {
                        if p != q {
                        } else {
                            if m0.dom().contains(p) {
                                lemma_join_usage_laws(m0[p], PlaceUsageType::Read, other.0@[i as int].usage);
                            }
                        }
                    }
                }
            }
            changed = changed || c;
            proof {
                if !c {
                    assert(self.map() =~= before);
                }
            }
            i = i + 1;
        }
        proof {
            assert(other.0@.subrange(0, other.0@.len() as int) =~= other.0@);
        }
        changed
    }

    /// The join of the two usage sets.
    pub fn joined_with(&self, other: &PlaceUsages) -> (r: PlaceUsages)
        requires
            self.wf(),
            other.wf(),
        ensures
            r.wf(),
            r.map() == join_maps(self.map(), other.map()),
    {
        let mut r = self.duplicate();
        r.join(other);
        r
    }
}

} // verus!
