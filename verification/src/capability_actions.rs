//! The capabilities of places, and instructions on them: weaken a place's
//! capability, or restore it. The capability type is a parameter.
use vstd::prelude::*;
use crate::place::Place;

verus! {

/// Instructs that the capability `from` of `place` be weakened to `to`; a
/// `to` of `None` removes the capability.
#[derive(Debug)]
pub struct Weaken<P, C, ToCap> {
    pub place: P,
    pub from: C,
    pub to: ToCap,
}

impl<P, C, ToCap> Weaken<P, C, ToCap> {
    /// The instruction to weaken `place` from `from` to `to`.
    pub fn new(place: P, from: C, to: ToCap) -> (w: Self)
        ensures
            w.place == place,
            w.from == from,
            w.to == to,
    {
        Weaken { place, from, to }
    }

    /// The capability that is weakened.
    pub fn from_cap(&self) -> (c: C)
        where
            C: Copy,
        ensures
            c == self.from,
    {
        self.from
    }

    /// The place whose capability is weakened.
    pub fn place(&self) -> (p: P)
        where
            P: Copy,
        ensures
            p == self.place,
    {
        self.place
    }

    /// The capability that remains.
    pub fn to_cap(&self) -> (c: ToCap)
        where
            ToCap: Copy,
        ensures
            c == self.to,
    {
        self.to
    }
}

/// Instructs that the capability of `place` be restored to `capability`,
/// as when a borrow of the place expires.
#[derive(Debug)]
pub struct RestoreCapability<C> {
    pub place: Place,
    pub capability: C,
}

impl<C> RestoreCapability<C> {
    /// The instruction to restore `place` to `capability`.
    pub fn new(place: Place, capability: C) -> (r: Self)
        ensures
            r.place == place,
            r.capability == capability,
    {
        RestoreCapability { place, capability }
    }

    /// The place whose capability is restored.
    pub fn place(&self) -> (p: Place)
        ensures
            p == self.place,
    {
        self.place.clone()
    }

    /// The capability restored.
    pub fn capability(&self) -> (c: C)
        where
            C: Copy,
        ensures
            c == self.capability,
    {
        self.capability
    }
}

/// The capabilities that places hold: at most one entry per place.
#[derive(Debug)]
pub struct PlaceCapabilities<C> {
    pub entries: Vec<(Place, C)>,
}

/// No place has two entries.
pub open spec fn distinct_entries<C>(s: Seq<(Place, C)>) -> bool {
    forall|i: int, j: int| 0 <= i < s.len() && 0 <= j < s.len() && i != j ==> s[i].0 != s[j].0
}

/// The entries as a map from place to capability.
pub open spec fn capability_map<C>(s: Seq<(Place, C)>) -> Map<Place, C> {
    Map::new(
        |p: Place| exists|i: int| 0 <= i < s.len() && s[i].0 == p,
        |p: Place| s[choose|i: int| 0 <= i < s.len() && s[i].0 == p].1,
    )
}

/// An entry of a sequence without repeated places is its place's entry in
/// the map.
proof fn lemma_capability_map_at<C>(s: Seq<(Place, C)>, i: int)
    requires
        distinct_entries(s),
        0 <= i < s.len(),
    ensures
        capability_map(s).dom().contains(s[i].0),
        capability_map(s)[s[i].0] == s[i].1,
{
    let p = s[i].0;
    assert(exists|k: int| 0 <= k < s.len() && s[k].0 == p);
    let k = choose|k: int| 0 <= k < s.len() && s[k].0 == p;
    assert(k == i);
}

impl<C> PlaceCapabilities<C> {
    /// No place has two entries.
    pub open spec fn wf(&self) -> bool {
        distinct_entries(self.entries@)
    }

    /// The capabilities as a map.
    pub open spec fn view(&self) -> Map<Place, C> {
        capability_map(self.entries@)
    }

    /// No place has a capability.
    pub fn new() -> (r: Self)
        ensures
            r.wf(),
            r.view() == Map::<Place, C>::empty(),
    {
        let r = PlaceCapabilities { entries: Vec::new() };
        assert(r.view() =~= Map::<Place, C>::empty());
        r
    }

    fn position(&self, p: &Place) -> (r: Option<usize>)
        ensures
            match r {
                Some(i) => i < self.entries@.len() && self.entries@[i as int].0 == *p,
                None => forall|j: int| 0 <= j < self.entries@.len() ==> #[trigger] self.entries@[j].0 != *p,
            },
    {
        let mut i: usize = 0;
        while i < self.entries.len()
            invariant
                i <= self.entries@.len(),
                forall|j: int| 0 <= j < i ==> #[trigger] self.entries@[j].0 != *p,
            decreases self.entries.len() - i,
        {
            if self.entries[i].0 == *p {
                return Some(i);
            }
            i = i + 1;
        }
        None
    }

    /// The capability of `p`, if it has one.
    pub fn get(&self, p: &Place) -> (r: Option<C>)
        where
            C: Copy,
        requires
            self.wf(),
        ensures
            r == (if self.view().dom().contains(*p) { Some(self.view()[*p]) } else { None }),
    {
        match self.position(p) {
            Some(i) => {
                proof {
                    lemma_capability_map_at(self.entries@, i as int);
                }
                Some(self.entries[i].1)
            },
            None => None,
        }
    }

    /// Gives `p` the capability `c`.
    pub fn insert(&mut self, p: Place, c: C)
        requires
            old(self).wf(),
        ensures
            final(self).wf(),
            final(self).view() == old(self).view().insert(p, c),
    {
        let ghost s0 = self.entries@;
        match self.position(&p) {
            Some(i) => {
                self.entries.set(i, (p, c));
                proof {
                    let s = self.entries@;
                    assert forall|a: int, b: int| 0 <= a < s.len() && 0 <= b < s.len() && a != b implies s[a].0 != s[b].0 by {
                        assert(s[a].0 == s0[a].0 && s[b].0 == s0[b].0);
                    }
                    assert forall|q: Place| #[trigger] capability_map(s).dom().contains(q)
                        == (capability_map(s0).dom().contains(q) || q == p) by {
                        if capability_map(s0).dom().contains(q) {
                            let k = choose|k: int| 0 <= k < s0.len() && s0[k].0 == q;
                            assert(s[k].0 == q);
                        }
                        if capability_map(s).dom().contains(q) {
                            let k = choose|k: int| 0 <= k < s.len() && s[k].0 == q;
                            assert(s0[k].0 == q);
                        }
                    }
                    assert forall|q: Place| #[trigger] capability_map(s).dom().contains(q)
                        implies capability_map(s)[q] == old(self).view().insert(p, c)[q] by {
                        let k = choose|k: int| 0 <= k < s.len() && s[k].0 == q;
                        lemma_capability_map_at(s, k);
                        if q != p {
                            assert(s[k] == s0[k]);
                            lemma_capability_map_at(s0, k);
                        }
                    }
                    assert(capability_map(s) =~= old(self).view().insert(p, c));
                }
            },
            None => {
                self.entries.push((p, c));
                proof {
                    let s = self.entries@;
                    assert forall|a: int, b: int| 0 <= a < s.len() && 0 <= b < s.len() && a != b implies s[a].0 != s[b].0 by {
                        if a < s0.len() {
                            assert(s[a] == s0[a]);
                        }
                        if b < s0.len() {
                            assert(s[b] == s0[b]);
                        }
                    }
                    assert forall|q: Place| #[trigger] capability_map(s).dom().contains(q)
                        == (capability_map(s0).dom().contains(q) || q == p) by {
                        if capability_map(s0).dom().contains(q) {
                            let k = choose|k: int| 0 <= k < s0.len() && s0[k].0 == q;
                            assert(s[k].0 == q);
                        }
                        if q == p {
                            assert(s[s0.len() as int].0 == q);
                        }
                        if capability_map(s).dom().contains(q) && q != p {
                            let k = choose|k: int| 0 <= k < s.len() && s[k].0 == q;
                            assert(k < s0.len());
                            assert(s0[k].0 == q);
                        }
                    }
                    assert forall|q: Place| #[trigger] capability_map(s).dom().contains(q)
                        implies capability_map(s)[q] == old(self).view().insert(p, c)[q] by {
                        let k = choose|k: int| 0 <= k < s.len() && s[k].0 == q;
                        lemma_capability_map_at(s, k);
                        if q != p {
                            assert(k < s0.len());
                            assert(s[k] == s0[k]);
                            lemma_capability_map_at(s0, k);
                        }
                    }
                    assert(capability_map(s) =~= old(self).view().insert(p, c));
                }
            },
        }
    }

    /// Takes the capability of `p` away.
    pub fn remove(&mut self, p: &Place)
        requires
            old(self).wf(),
        ensures
            final(self).wf(),
            final(self).view() == old(self).view().remove(*p),
    {
        let ghost s0 = self.entries@;
        match self.position(p) {
            Some(i) => {
                let _ = self.entries.remove(i);
                proof {
                    let s = self.entries@;
                    assert forall|a: int| 0 <= a < s.len() implies #[trigger] s[a] == s0[if a < i { a } else { a + 1 }] by {}
                    assert forall|a: int, b: int| 0 <= a < s.len() && 0 <= b < s.len() && a != b implies s[a].0 != s[b].0 by {
                        assert(s[a] == s0[if a < i { a } else { a + 1 }]);
                        assert(s[b] == s0[if b < i { b } else { b + 1 }]);
                    }
                    assert forall|q: Place| #[trigger] capability_map(s).dom().contains(q)
                        == (capability_map(s0).dom().contains(q) && q != *p) by {
                        if capability_map(s0).dom().contains(q) && q != *p {
                            let k = choose|k: int| 0 <= k < s0.len() && s0[k].0 == q;
                            assert(k != i);
                            let a = if k < i { k } else { k - 1 };
                            assert(s[a] == s0[k]);
                        }
                        if capability_map(s).dom().contains(q) {
                            let a = choose|a: int| 0 <= a < s.len() && s[a].0 == q;
                            let k = if a < i { a } else { a + 1 };
                            assert(s[a] == s0[k]);
                            assert(k != i);
                        }
                    }
                    assert forall|q: Place| #[trigger] capability_map(s).dom().contains(q)
                        implies capability_map(s)[q] == old(self).view().remove(*p)[q] by {
                        let a = choose|a: int| 0 <= a < s.len() && s[a].0 == q;
                        let k = if a < i { a } else { a + 1 };
                        assert(s[a] == s0[k]);
                        lemma_capability_map_at(s, a);
                        lemma_capability_map_at(s0, k);
                    }
                    assert(capability_map(s) =~= old(self).view().remove(*p));
                }
            },
            None => {
                proof {
                    assert(!old(self).view().dom().contains(*p));
                    assert(old(self).view().remove(*p) =~= old(self).view());
                }
            },
        }
    }
}

} // verus!
