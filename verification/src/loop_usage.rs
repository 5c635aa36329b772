//! Operations on the usages of places in a loop: building them from a
//! sequence, comparing them, filtering them, classifying a use of a place,
//! and the order in which a loop head unpacks the used places.
use vstd::prelude::*;
use crate::mir::{BasicBlock, Local};
use crate::place::{Place, local_of, elems};
use crate::place_usage::{PlaceUsage, PlaceUsages, PlaceUsageType, usage_map, distinct_places, record_usage,
    lemma_usage_map_at, lemma_record_usage_get, lemma_join_usage_laws};

verus! {

/// The usages of a sequence where a later usage of a place replaces an
/// earlier one.
pub open spec fn last_wins(v: Seq<PlaceUsage>) -> Map<Place, PlaceUsageType>
    decreases v.len(),
{
    if v.len() == 0 {
        Map::empty()
    } else {
        last_wins(v.drop_last()).insert(v.last().place, v.last().usage)
    }
}

/// Whether two sequences of usages hold the same usages.
pub open spec fn same_usages(a: Seq<PlaceUsage>, b: Seq<PlaceUsage>) -> bool {
    &&& forall|i: int| 0 <= i < a.len() ==> #[trigger] b.contains(a[i])
    &&& forall|j: int| 0 <= j < b.len() ==> #[trigger] a.contains(b[j])
}

/// For usages with distinct places, holding the same usages is having the
/// same map.
pub proof fn lemma_same_usages_map(a: Seq<PlaceUsage>, b: Seq<PlaceUsage>)
    requires
        distinct_places(a),
        distinct_places(b),
    ensures
        same_usages(a, b) <==> usage_map(a) == usage_map(b),
{
    if same_usages(a, b) {
        assert forall|p: Place| #[trigger] usage_map(a).dom().contains(p) <==> usage_map(b).dom().contains(p) by {
            if usage_map(a).dom().contains(p) {
                let i = choose|i: int| 0 <= i < a.len() && a[i].place == p;
                assert(b.contains(a[i]));
                let j = choose|j: int| 0 <= j < b.len() && b[j] == a[i];
                assert(b[j].place == p);
            }
            if usage_map(b).dom().contains(p) {
                let j = choose|j: int| 0 <= j < b.len() && b[j].place == p;
                assert(a.contains(b[j]));
                let i = choose|i: int| 0 <= i < a.len() && a[i] == b[j];
                assert(a[i].place == p);
            }
        }
        assert forall|p: Place| usage_map(a).dom().contains(p) implies #[trigger] usage_map(a)[p] == usage_map(b)[p] by {
            let i = choose|i: int| 0 <= i < a.len() && a[i].place == p;
            assert(b.contains(a[i]));
            let j = choose|j: int| 0 <= j < b.len() && b[j] == a[i];
            lemma_usage_map_at(a, i);
            lemma_usage_map_at(b, j);
        }
        assert(usage_map(a) =~= usage_map(b));
    }
    if usage_map(a) == usage_map(b) {
        assert forall|i: int| 0 <= i < a.len() implies #[trigger] b.contains(a[i]) by {
            lemma_usage_map_at(a, i);
            let j = choose|j: int| 0 <= j < b.len() && b[j].place == a[i].place;
            lemma_usage_map_at(b, j);
            assert(b[j] == a[i]);
        }
        assert forall|j: int| 0 <= j < b.len() implies #[trigger] a.contains(b[j]) by {
            lemma_usage_map_at(b, j);
            let i = choose|i: int| 0 <= i < a.len() && a[i].place == b[j].place;
            lemma_usage_map_at(a, i);
            assert(a[i] == b[j]);
        }
    }
}

/// Whether `v` holds `x`, decided by comparing.
fn contains_usage(v: &Vec<PlaceUsage>, x: &PlaceUsage) -> (b: bool)
    ensures
        b == v@.contains(*x),
{
    let mut i: usize = 0;
    while i < v.len()
        invariant
            i <= v@.len(),
            forall|j: int| 0 <= j < i ==> v@[j] != *x,
        decreases v.len() - i,
    {
        if v[i].place == x.place && v[i].usage == x.usage {
            proof {
                assert(v@[i as int] == *x);
            }
            return true;
        }
        i = i + 1;
    }
    false
}

/// Whether every usage of `a` is in `b`.
fn all_in(a: &Vec<PlaceUsage>, b: &Vec<PlaceUsage>) -> (r: bool)
    ensures
        r == forall|i: int| 0 <= i < a@.len() ==> #[trigger] b@.contains(a@[i]),
{
    let mut i: usize = 0;
    while i < a.len()
        invariant
            i <= a@.len(),
            forall|j: int| 0 <= j < i ==> #[trigger] b@.contains(a@[j]),
        decreases a.len() - i,
    {
        if !contains_usage(b, &a[i]) {
            return false;
        }
        i = i + 1;
    }
    true
}

impl PartialEq for PlaceUsages {
    fn eq(&self, other: &Self) -> (r: bool) {
        all_in(&self.0, &other.0) && all_in(&other.0, &self.0)
    }
}

impl vstd::std_specs::cmp::PartialEqSpecImpl for PlaceUsages {
    open spec fn obeys_eq_spec() -> bool {
        true
    }

    open spec fn eq_spec(&self, other: &Self) -> bool {
        same_usages(self.0@, other.0@)
    }
}

/// The key by which a loop head orders usages: places needing write or
/// exclusive access first, then by local, then by projection length.
pub open spec fn unpack_key_le(a: PlaceUsage, b: PlaceUsage) -> bool {
    let ra = a.usage == PlaceUsageType::Read;
    let rb = b.usage == PlaceUsageType::Read;
    if ra != rb {
        !ra
    } else if local_of(a.place).0 != local_of(b.place).0 {
        local_of(a.place).0 < local_of(b.place).0
    } else {
        elems(a.place).len() <= elems(b.place).len()
    }
}

/// Whether a sequence of usages is ordered by the unpacking key.
pub open spec fn unpack_sorted(v: Seq<PlaceUsage>) -> bool {
    forall|i: int, j: int| 0 <= i < j < v.len() ==> unpack_key_le(v[i], v[j])
}

/// The unpacking key is a total preorder.
proof fn lemma_unpack_key(a: PlaceUsage, b: PlaceUsage, c: PlaceUsage)
    ensures
        unpack_key_le(a, b) || unpack_key_le(b, a),
        unpack_key_le(a, b) && unpack_key_le(b, c) ==> unpack_key_le(a, c),
{
}

/// Whether `a` has no more projections than `b`.
fn no_longer(a: &Place, b: &Place) -> (r: bool)
    ensures
        r == (elems(*a).len() <= elems(*b).len()),
    decreases a,
{
    match (a, b) {
        (Place::Base(_), _) => true,
        (Place::Project(_, _), Place::Base(_)) => false,
        (Place::Project(x, _), Place::Project(y, _)) => no_longer(x, y),
    }
}

/// Whether `a` comes before or with `b` in the unpacking order.
fn unpack_le(a: &PlaceUsage, b: &PlaceUsage) -> (r: bool)
    ensures
        r == unpack_key_le(*a, *b),
{
    let ra = a.usage.is_read();
    let rb = b.usage.is_read();
    if ra != rb {
        !ra
    } else {
        let la = a.place.local().index();
        let lb = b.place.local().index();
        if la != lb {
            la < lb
        } else {
            no_longer(&a.place, &b.place)
        }
    }
}

impl PlaceUsages {
    /// The usages given by a sequence, where a later usage of a place
    /// replaces an earlier one.
    pub fn from_usages(v: Vec<PlaceUsage>) -> (r: PlaceUsages)
        ensures
            r.wf(),
            r.map() == last_wins(v@),
    {
        let mut r: Vec<PlaceUsage> = Vec::new();
        let mut i: usize = 0;
        proof {
            assert(v@.subrange(0, 0) =~= Seq::<PlaceUsage>::empty());
            assert(usage_map(r@) =~= Map::<Place, PlaceUsageType>::empty());
        }
        while i < v.len()
            invariant
                i <= v@.len(),
                distinct_places(r@),
                usage_map(r@) == last_wins(v@.subrange(0, i as int)),
            decreases v.len() - i,
        {
            let ghost old_r = r@;
            let x = v[i].clone();
            let mut k: usize = 0;
            while k < r.len() && r[k].place != x.place
                invariant
                    r@ == old_r,
                    k <= r@.len(),
                    forall|j: int| 0 <= j < k ==> r@[j].place != x.place,
                decreases r.len() - k,
            {
                k = k + 1;
            }
            let found = k < r.len();
            proof {
                assert(v@.subrange(0, i + 1).drop_last() =~= v@.subrange(0, i as int));
                assert(v@.subrange(0, i + 1).last() == x);
            }
            if found {
                r.set(k, x);
                proof {
                    let w = r@;
                    assert forall|a: int, b: int| 0 <= a < w.len() && 0 <= b < w.len() && a != b implies w[a].place != w[b].place by {
                        assert(old_r[a].place == w[a].place && old_r[b].place == w[b].place);
                    }
                    assert forall|q: Place| #[trigger] usage_map(w).dom().contains(q) <==> usage_map(old_r).insert(x.place, x.usage).dom().contains(q) by {
                        if usage_map(old_r).dom().contains(q) {
                            let t = choose|t: int| 0 <= t < old_r.len() && old_r[t].place == q;
                            assert(w[t].place == q);
                        }
                        if usage_map(w).dom().contains(q) {
                            let t = choose|t: int| 0 <= t < w.len() && w[t].place == q;
                            assert(old_r[t].place == q);
                        }
                        if q == x.place {
                            assert(w[k as int].place == q);
                        }
                    }
                    assert forall|q: Place| usage_map(w).dom().contains(q) implies #[trigger] usage_map(w)[q] == usage_map(old_r).insert(x.place, x.usage)[q] by {
                        let t = choose|t: int| 0 <= t < w.len() && w[t].place == q;
                        lemma_usage_map_at(w, t);
                        if t != k {
                            lemma_usage_map_at(old_r, t);
                        }
                    }
                    assert(usage_map(w) =~= usage_map(old_r).insert(x.place, x.usage));
                }
            } else {
                r.push(x);
                proof {
                    let w = r@;
                    assert(w == old_r.push(x));
                    assert forall|a: int, b: int| 0 <= a < w.len() && 0 <= b < w.len() && a != b implies w[a].place != w[b].place by {
                        if a < old_r.len() && b < old_r.len() {
                            assert(old_r[a] == w[a] && old_r[b] == w[b]);
                        }
                    }
                    assert forall|q: Place| #[trigger] usage_map(w).dom().contains(q) <==> usage_map(old_r).insert(x.place, x.usage).dom().contains(q) by {
                        if usage_map(old_r).dom().contains(q) {
                            let t = choose|t: int| 0 <= t < old_r.len() && old_r[t].place == q;
                            assert(w[t].place == q);
                        }
                        if usage_map(w).dom().contains(q) {
                            let t = choose|t: int| 0 <= t < w.len() && w[t].place == q;
                            if t < old_r.len() {
                                assert(old_r[t].place == q);
                            }
                        }
                        if q == x.place {
                            assert(w[old_r.len() as int].place == q);
                        }
                    }
                    assert forall|q: Place| usage_map(w).dom().contains(q) implies #[trigger] usage_map(w)[q] == usage_map(old_r).insert(x.place, x.usage)[q] by {
                        let t = choose|t: int| 0 <= t < w.len() && w[t].place == q;
                        lemma_usage_map_at(w, t);
                        if t < old_r.len() {
                            lemma_usage_map_at(old_r, t);
                        }
                    }
                    assert(usage_map(w) =~= usage_map(old_r).insert(x.place, x.usage));
                }
            }
            i = i + 1;
        }
        proof {
            assert(v@.subrange(0, v@.len() as int) =~= v@);
        }
        PlaceUsages(r)
    }

    /// The usages in the order in which a loop head unpacks their places:
    /// those needing write or exclusive access first, then the read-only
    /// ones; within each, by local and then by projection length.
    pub fn loop_head_unpack_order(&self) -> (r: Vec<PlaceUsage>)
        ensures
            r@.to_multiset() == self.0@.to_multiset(),
            unpack_sorted(r@),
    {
        let mut r: Vec<PlaceUsage> = Vec::new();
        let mut i: usize = 0;
        proof {
            assert(self.0@.subrange(0, 0) =~= r@);
        }
        while i < self.0.len()
            invariant
                i <= self.0@.len(),
                r@.to_multiset() == self.0@.subrange(0, i as int).to_multiset(),
                unpack_sorted(r@),
            decreases self.0.len() - i,
        {
            let x = self.0[i].clone();
            let mut k: usize = 0;
            while k < r.len() && unpack_le(&r[k], &x)
                invariant
                    k <= r@.len(),
                    forall|j: int| 0 <= j < k ==> unpack_key_le(r@[j], x),
                decreases r.len() - k,
            {
                k = k + 1;
            }
            let ghost old_r = r@;
            r.insert(k, x);
            proof {
                assert(r@ == old_r.subrange(0, k as int).push(x) + old_r.subrange(k as int, old_r.len() as int));
                assert forall|a: int, b: int| 0 <= a < b < r@.len() implies unpack_key_le(r@[a], r@[b]) by {
                    if a < k && b == k {
                    } else if a == k && b > k {
                        assert(r@[b] == old_r[b - 1]);
                        if k < old_r.len() {
                            assert(!unpack_key_le(old_r[k as int], x));
                            lemma_unpack_key(x, old_r[k as int], old_r[b - 1]);
                            lemma_unpack_key(old_r[k as int], x, x);
                            if b - 1 > k {
                                assert(unpack_key_le(old_r[k as int], old_r[b - 1]));
                            }
                        }
                    } else if a < k && b > k {
                        assert(r@[b] == old_r[b - 1]);
                    } else if a > k {
                        assert(r@[a] == old_r[a - 1]);
                        assert(r@[b] == old_r[b - 1]);
                    }
                }
                let pre = old_r.subrange(0, k as int);
                let post = old_r.subrange(k as int, old_r.len() as int);
                assert(old_r =~= pre + post);
                vstd::seq_lib::lemma_multiset_commutative(pre.push(x), post);
                vstd::seq_lib::lemma_multiset_commutative(pre, post);
                pre.to_multiset_ensures();
                self.0@.subrange(0, i as int).to_multiset_ensures();
                assert(self.0@.subrange(0, i + 1) =~= self.0@.subrange(0, i as int).push(x));
                assert(r@.to_multiset() =~= self.0@.subrange(0, i + 1).to_multiset());
            }
            i = i + 1;
        }
        proof {
            assert(self.0@.subrange(0, self.0@.len() as int) =~= self.0@);
        }
        r
    }

    /// The usages for which `predicate` holds.
    pub fn usages_where<F: Fn(&PlaceUsage) -> bool>(&self, predicate: F) -> (r: PlaceUsages)
        requires
            self.wf(),
            forall|u: PlaceUsage| #[trigger] predicate.requires((&u,)),
        ensures
            r.wf(),
            forall|i: int| 0 <= i < r.0@.len() ==> #[trigger] self.0@.contains(r.0@[i])
                && predicate.ensures((&r.0@[i],), true),
            forall|i: int| 0 <= i < self.0@.len() ==> (#[trigger] r.0@.contains(self.0@[i])
                || predicate.ensures((&self.0@[i],), false)),
    {
        let mut r: Vec<PlaceUsage> = Vec::new();
        let mut i: usize = 0;
        while i < self.0.len()
            invariant
                self.wf(),
                forall|u: PlaceUsage| #[trigger] predicate.requires((&u,)),
                i <= self.0@.len(),
                forall|a: int| #![trigger r@[a]] 0 <= a < r@.len() ==> exists|b: int| 0 <= b < i && #[trigger] self.0@[b] == r@[a],
                forall|a: int, b: int| 0 <= a < b < r@.len() ==> r@[a].place != r@[b].place,
                forall|a: int| 0 <= a < r@.len() ==> #[trigger] self.0@.contains(r@[a])
                    && predicate.ensures((&r@[a],), true),
                forall|b: int| 0 <= b < i ==> (#[trigger] r@.contains(self.0@[b])
                    || predicate.ensures((&self.0@[b],), false)),
            decreases self.0.len() - i,
        {
            let keep = predicate(&self.0[i]);
            let ghost before = r@;
            if keep {
                r.push(self.0[i].clone());
                proof {
                    assert forall|a: int, b: int| 0 <= a < b < r@.len() implies r@[a].place != r@[b].place by {
                        if b == r@.len() - 1 {
                            let c = choose|c: int| 0 <= c < i && #[trigger] self.0@[c] == r@[a];
                            assert(self.0@[c].place != self.0@[i as int].place);
                        } else {
                            assert(before[a] == r@[a] && before[b] == r@[b]);
                        }
                    }
                    assert forall|a: int| #![trigger r@[a]] 0 <= a < r@.len() implies exists|b: int| 0 <= b < i + 1 && #[trigger] self.0@[b] == r@[a] by {
                        if a < before.len() {
                            let b = choose|b: int| 0 <= b < i && #[trigger] self.0@[b] == before[a];
                            assert(self.0@[b] == r@[a]);
                        } else {
                            assert(self.0@[i as int] == r@[a]);
                        }
                    }
                    assert(self.0@.contains(self.0@[i as int]));
                    assert(r@[r@.len() - 1] == self.0@[i as int]);
                    assert forall|a: int| 0 <= a < r@.len() implies #[trigger] self.0@.contains(r@[a])
                        && predicate.ensures((&r@[a],), true) by {
                        if a < before.len() {
                            assert(r@[a] == before[a]);
                        }
                    }
                    assert forall|b: int| 0 <= b < i + 1 implies (#[trigger] r@.contains(self.0@[b])
                        || predicate.ensures((&self.0@[b],), false)) by {
                        if b < i {
                            if before.contains(self.0@[b]) {
                                let t = choose|t: int| 0 <= t < before.len() && before[t] == self.0@[b];
                                assert(r@[t] == self.0@[b]);
                            }
                        } else {
                            assert(r@[r@.len() - 1] == self.0@[b]);
                        }
                    }
                }
            }
            i = i + 1;
        }
        PlaceUsages(r)
    }

    /// Records a use of `place` in `context` inside a loop.
    pub fn visit_place(&mut self, place: Place, context: PlaceContext)
        requires
            old(self).wf(),
        ensures
            final(self).wf(),
            final(self).map() == (match context_usage(context) {
                Some(u) => record_usage(old(self).map(), place, u),
                None => old(self).map(),
            }),
    {
        match usage_of_context(context) {
            Some(u) => {
                let _ = self.update(place, u);
            },
            None => {},
        }
    }
}

/// A use of a place that does not modify it.
#[derive(Clone, Copy, Debug, PartialEq, Eq, Structural, Hash)]
pub enum NonMutatingUseContext {
    Inspect,
    Copy,
    Move,
    SharedBorrow,
    FakeBorrow,
    RawBorrow,
    PlaceMention,
    Projection,
}

/// A use of a place that may modify it.
#[derive(Clone, Copy, Debug, PartialEq, Eq, Structural, Hash)]
pub enum MutatingUseContext {
    Store,
    SetDiscriminant,
    Deinit,
    AsmOutput,
    Call,
    Yield,
    Drop,
    Borrow,
    RawBorrow,
    Projection,
    Retag,
}

/// How a place occurs in a statement or terminator.
#[derive(Clone, Copy, Debug, PartialEq, Eq, Structural, Hash)]
pub enum PlaceContext {
    NonMutatingUse(NonMutatingUseContext),
    MutatingUse(MutatingUseContext),
    NonUse,
}

/// The usage that an occurrence of a place in a loop records: none for a
/// projection through it or a non-use; exclusive for a move, a mutable or
/// raw borrow or a drop; a write for other modifying uses; a read for the
/// other uses.
pub open spec fn context_usage(c: PlaceContext) -> Option<PlaceUsageType> {
    match c {
        PlaceContext::MutatingUse(MutatingUseContext::Projection) => None,
        PlaceContext::NonUse => None,
        PlaceContext::MutatingUse(MutatingUseContext::Borrow) => Some(PlaceUsageType::Exclusive),
        PlaceContext::MutatingUse(MutatingUseContext::RawBorrow) => Some(PlaceUsageType::Exclusive),
        PlaceContext::MutatingUse(MutatingUseContext::Drop) => Some(PlaceUsageType::Exclusive),
        PlaceContext::NonMutatingUse(NonMutatingUseContext::Move) => Some(PlaceUsageType::Exclusive),
        PlaceContext::MutatingUse(_) => Some(PlaceUsageType::Write),
        PlaceContext::NonMutatingUse(_) => Some(PlaceUsageType::Read),
    }
}

/// The occurrences that record an exclusive usage are exactly the moves,
/// the mutable and raw borrows and the drops; a projection through a place
/// and a non-use record nothing; every other modifying use records a write
/// and every other use a read.
pub proof fn lemma_context_usage_classes(c: PlaceContext)
    ensures
        (context_usage(c) == Some(PlaceUsageType::Exclusive)) <==> (
            c == PlaceContext::NonMutatingUse(NonMutatingUseContext::Move)
            || c == PlaceContext::MutatingUse(MutatingUseContext::Borrow)
            || c == PlaceContext::MutatingUse(MutatingUseContext::RawBorrow)
            || c == PlaceContext::MutatingUse(MutatingUseContext::Drop)),
        (context_usage(c) is None) <==> (c == PlaceContext::NonUse
            || c == PlaceContext::MutatingUse(MutatingUseContext::Projection)),
        (context_usage(c) == Some(PlaceUsageType::Read)) <==> (c is NonMutatingUse
            && c != PlaceContext::NonMutatingUse(NonMutatingUseContext::Move)),
{
}

/// Visiting a place that a loop moves out of, borrows mutably or raw, or
/// drops leaves it with the exclusive usage, whatever was recorded of it
/// before.
pub proof fn lemma_visit_exclusive(m: Map<Place, PlaceUsageType>, p: Place, c: PlaceContext)
    requires
        c == PlaceContext::NonMutatingUse(NonMutatingUseContext::Move)
            || c == PlaceContext::MutatingUse(MutatingUseContext::Borrow)
            || c == PlaceContext::MutatingUse(MutatingUseContext::RawBorrow)
            || c == PlaceContext::MutatingUse(MutatingUseContext::Drop),
    ensures
        (match context_usage(c) {
            Some(u) => record_usage(m, p, u),
            None => m,
        }).dom().contains(p),
        (match context_usage(c) {
            Some(u) => record_usage(m, p, u),
            None => m,
        })[p] == PlaceUsageType::Exclusive,
{
    lemma_context_usage_classes(c);
    lemma_record_usage_get(m, p, PlaceUsageType::Exclusive, p);
    if m.dom().contains(p) {
        lemma_join_usage_laws(m[p], PlaceUsageType::Exclusive, m[p]);
    }
}

/// The usage that an occurrence of a place in `context` records.
pub fn usage_of_context(context: PlaceContext) -> (r: Option<PlaceUsageType>)
    ensures
        r == context_usage(context),
{
    match context {
        PlaceContext::MutatingUse(MutatingUseContext::Projection) | PlaceContext::NonUse => None,
        PlaceContext::MutatingUse(MutatingUseContext::Borrow)
        | PlaceContext::MutatingUse(MutatingUseContext::RawBorrow)
        | PlaceContext::MutatingUse(MutatingUseContext::Drop)
        | PlaceContext::NonMutatingUse(NonMutatingUseContext::Move) => Some(PlaceUsageType::Exclusive),
        PlaceContext::MutatingUse(_) => Some(PlaceUsageType::Write),
        PlaceContext::NonMutatingUse(_) => Some(PlaceUsageType::Read),
    }
}

/// For each loop head, the places used in its loop.
#[derive(Debug)]
pub struct LoopPlaceUsageAnalysis {
    pub loop_used_places: Vec<(BasicBlock, PlaceUsages)>,
}

impl LoopPlaceUsageAnalysis {
    /// The analysis with the given usages per loop head.
    pub fn new(loop_used_places: Vec<(BasicBlock, PlaceUsages)>) -> (r: LoopPlaceUsageAnalysis)
        ensures
            r.loop_used_places@ == loop_used_places@,
    {
        LoopPlaceUsageAnalysis { loop_used_places }
    }

    /// Whether `block` is a loop head.
    pub fn is_loop_head(&self, block: BasicBlock) -> (b: bool)
        ensures
            b == exists|i: int| 0 <= i < self.loop_used_places@.len() && (#[trigger] self.loop_used_places@[i]).0 == block,
    {
        let mut i: usize = 0;
        while i < self.loop_used_places.len()
            invariant
                i <= self.loop_used_places@.len(),
                forall|j: int| 0 <= j < i ==> (#[trigger] self.loop_used_places@[j]).0 != block,
            decreases self.loop_used_places.len() - i,
        {
            if self.loop_used_places[i].0 == block {
                return true;
            }
            i = i + 1;
        }
        false
    }

    /// The places used in the loop with head `block`, or `None` if `block`
    /// is not a loop head.
    pub fn get_used_places(&self, block: BasicBlock) -> (r: Option<&PlaceUsages>)
        ensures
            match r {
                Some(u) => exists|i: int| 0 <= i < self.loop_used_places@.len()
                    && (#[trigger] self.loop_used_places@[i]).0 == block
                    && self.loop_used_places@[i].1 == *u
                    && forall|j: int| 0 <= j < i ==> (#[trigger] self.loop_used_places@[j]).0 != block,
                None => forall|i: int| 0 <= i < self.loop_used_places@.len() ==> (#[trigger] self.loop_used_places@[i]).0 != block,
            },
    {
        let mut i: usize = 0;
        while i < self.loop_used_places.len()
            invariant
                i <= self.loop_used_places@.len(),
                forall|j: int| 0 <= j < i ==> (#[trigger] self.loop_used_places@[j]).0 != block,
            decreases self.loop_used_places.len() - i,
        {
            if self.loop_used_places[i].0 == block {
                return Some(&self.loop_used_places[i].1);
            }
            i = i + 1;
        }
        None
    }
}

} // verus!
