//! Consolidation of the places used in a loop: overlapping places (one a
//! prefix of the other) are merged into the shorter one with the join of
//! their usages, so that the places that remain are pairwise disjoint.
use vstd::prelude::*;
use crate::place::{Place, is_prefix, elems, local_of, lemma_place_ext, lemma_is_prefix_trans, lemma_is_prefix_antisym};
use crate::place_usage::{PlaceUsage, PlaceUsages, PlaceUsageType, join_usage, usage_map, distinct_places,
    lemma_usage_map_at};

verus! {

/// One place is a prefix of the other.
pub open spec fn overlap(a: Place, b: Place) -> bool {
    is_prefix(a, b) || is_prefix(b, a)
}

/// `m` is among the places and none of the others is a prefix of it.
pub open spec fn minimal_in(dom: Set<Place>, m: Place) -> bool {
    dom.contains(m) && forall|q: Place| #[trigger] dom.contains(q) && is_prefix(q, m) ==> q == m
}

/// Every used place that `m` is a prefix of is used as `u`.
pub open spec fn all_below(s: Map<Place, PlaceUsageType>, m: Place, u: PlaceUsageType) -> bool {
    forall|p: Place| #[trigger] s.dom().contains(p) && is_prefix(m, p) ==> s[p] == u
}

/// The join of the usages of the places that `m` is a prefix of: `Read`
/// if all are reads, `Write` if all are writes, `Exclusive` otherwise.
pub open spec fn join_below(s: Map<Place, PlaceUsageType>, m: Place) -> PlaceUsageType {
    if all_below(s, m, PlaceUsageType::Read) {
        PlaceUsageType::Read
    } else if all_below(s, m, PlaceUsageType::Write) {
        PlaceUsageType::Write
    } else {
        PlaceUsageType::Exclusive
    }
}

/// The consolidation of a usage map: its minimal places, each with the
/// join of the usages of the places below it.
pub open spec fn consolidated(s: Map<Place, PlaceUsageType>) -> Map<Place, PlaceUsageType> {
    Map::new(|m: Place| minimal_in(s.dom(), m), |m: Place| join_below(s, m))
}

/// Every place is a prefix of itself.
pub proof fn lemma_prefix_refl(p: Place)
    ensures
        is_prefix(p, p),
{
    assert(elems(p).subrange(0, elems(p).len() as int) =~= elems(p));
}

/// Two prefixes of one place are related by the prefix relation.
pub proof fn lemma_prefixes_comparable(a: Place, b: Place, t: Place)
    requires
        is_prefix(a, t),
        is_prefix(b, t),
    ensures
        overlap(a, b),
{
    if elems(a).len() <= elems(b).len() {
        assert(elems(b).subrange(0, elems(a).len() as int) =~= elems(t).subrange(0, elems(a).len() as int));
    } else {
        assert(elems(a).subrange(0, elems(b).len() as int) =~= elems(t).subrange(0, elems(b).len() as int));
    }
}

/// A strict prefix is shorter.
proof fn lemma_strict_prefix_shorter(q: Place, t: Place)
    requires
        is_prefix(q, t),
        q != t,
    ensures
        elems(q).len() < elems(t).len(),
{
    if elems(q).len() == elems(t).len() {
        assert(elems(t).subrange(0, elems(q).len() as int) =~= elems(t));
        lemma_place_ext(q, t);
    }
}

/// Every place of a finite set has a minimal place of the set below it.
pub proof fn lemma_exists_minimal(dom: Set<Place>, t: Place)
    requires
        dom.contains(t),
    ensures
        exists|m: Place| minimal_in(dom, m) && is_prefix(m, t),
    decreases elems(t).len(),
{
    lemma_prefix_refl(t);
    if !minimal_in(dom, t) {
        let q = choose|q: Place| #[trigger] dom.contains(q) && is_prefix(q, t) && q != t;
        lemma_strict_prefix_shorter(q, t);
        lemma_exists_minimal(dom, q);
        let m = choose|m: Place| minimal_in(dom, m) && is_prefix(m, q);
        lemma_is_prefix_trans(m, q, t);
    }
}

/// The places of a consolidation are pairwise disjoint: neither of two
/// distinct ones is a prefix of the other.
pub proof fn lemma_consolidated_disjoint(s: Map<Place, PlaceUsageType>, a: Place, b: Place)
    requires
        consolidated(s).dom().contains(a),
        consolidated(s).dom().contains(b),
        a != b,
    ensures
        !is_prefix(a, b),
{
}

/// Every used place has a place of the consolidation below it.
pub proof fn lemma_consolidated_covers(s: Map<Place, PlaceUsageType>, t: Place)
    requires
        s.dom().contains(t),
    ensures
        exists|m: Place| consolidated(s).dom().contains(m) && is_prefix(m, t),
{
    lemma_exists_minimal(s.dom(), t);
    let m = choose|m: Place| minimal_in(s.dom(), m) && is_prefix(m, t);
    assert(consolidated(s).dom().contains(m));
}

/// Consolidating places that are already pairwise disjoint changes
/// nothing.
pub proof fn lemma_consolidated_disjoint_unchanged(s: Map<Place, PlaceUsageType>)
    requires
        forall|a: Place, b: Place| s.dom().contains(a) && s.dom().contains(b) && a != b ==> !is_prefix(a, b),
    ensures
        consolidated(s) == s,
{
    assert forall|m: Place| #[trigger] consolidated(s).dom().contains(m) <==> s.dom().contains(m) by {}
    assert forall|m: Place| s.dom().contains(m) implies #[trigger] consolidated(s)[m] == s[m] by {
        lemma_prefix_refl(m);
        if s[m] == PlaceUsageType::Read {
            assert(all_below(s, m, PlaceUsageType::Read));
        } else if s[m] == PlaceUsageType::Write {
            assert(!all_below(s, m, PlaceUsageType::Read));
            assert(all_below(s, m, PlaceUsageType::Write));
        } else {
            assert(!all_below(s, m, PlaceUsageType::Read));
            assert(!all_below(s, m, PlaceUsageType::Write));
        }
    }
    assert(consolidated(s) =~= s);
}

/// Consolidating is idempotent: a consolidation consolidates to itself.
pub proof fn lemma_consolidate_idempotent(s: Map<Place, PlaceUsageType>)
    ensures
        consolidated(consolidated(s)) == consolidated(s),
{
    assert forall|a: Place, b: Place| consolidated(s).dom().contains(a) && consolidated(s).dom().contains(b) && a != b
        implies !is_prefix(a, b) by {
        lemma_consolidated_disjoint(s, a, b);
    }
    lemma_consolidated_disjoint_unchanged(consolidated(s));
}

/// `join_below` is `Read` exactly when all below are reads, and `Write`
/// exactly when all below are writes.
proof fn lemma_join_below(s: Map<Place, PlaceUsageType>, m: Place)
    requires
        s.dom().contains(m),
    ensures
        (join_below(s, m) == PlaceUsageType::Read) <==> all_below(s, m, PlaceUsageType::Read),
        (join_below(s, m) == PlaceUsageType::Write) <==> all_below(s, m, PlaceUsageType::Write),
{
    lemma_prefix_refl(m);
    if all_below(s, m, PlaceUsageType::Read) {
        assert(s[m] == PlaceUsageType::Read);
        assert(!all_below(s, m, PlaceUsageType::Write));
    }
}

/// Adding a place that a place of the consolidation is a prefix of joins
/// its usage into that place's.
proof fn lemma_step_below(s: Map<Place, PlaceUsageType>, p: Place, u: PlaceUsageType, q: Place)
    requires
        !s.dom().contains(p),
        consolidated(s).dom().contains(q),
        is_prefix(q, p),
    ensures
        consolidated(s.insert(p, u)) == consolidated(s).insert(q, join_usage(consolidated(s)[q], u)),
{
    let s2 = s.insert(p, u);
    let c = consolidated(s);
    let r = c.insert(q, join_usage(c[q], u));
    assert forall|m: Place| #[trigger] consolidated(s2).dom().contains(m) <==> r.dom().contains(m) by {
        if m == p {
            assert(s2.dom().contains(q));
            assert(q != p);
            assert(!minimal_in(s2.dom(), m));
            if c.dom().contains(m) {
                assert(s.dom().contains(m));
            }
        } else {
            if c.dom().contains(m) {
                if is_prefix(p, m) {
                    lemma_is_prefix_trans(q, p, m);
                    assert(s.dom().contains(q));
                    assert(q == m);
                    lemma_is_prefix_antisym(p, q);
                }
                assert forall|x: Place| #[trigger] s2.dom().contains(x) && is_prefix(x, m) implies x == m by {
                    if x != p {
                        assert(s.dom().contains(x));
                    }
                }
            }
            if minimal_in(s2.dom(), m) {
                assert(s.dom().contains(m));
                assert forall|x: Place| #[trigger] s.dom().contains(x) && is_prefix(x, m) implies x == m by {
                    assert(s2.dom().contains(x));
                }
            }
        }
    }
    assert forall|m: Place| consolidated(s2).dom().contains(m) implies #[trigger] consolidated(s2)[m] == r[m] by {
        assert(s.dom().contains(m));
        lemma_join_below(s, m);
        lemma_join_below(s2, m);
        if m == q {
            assert(all_below(s2, q, PlaceUsageType::Read) <==> (all_below(s, q, PlaceUsageType::Read) && u == PlaceUsageType::Read)) by {
                if all_below(s, q, PlaceUsageType::Read) && u == PlaceUsageType::Read {
                    assert forall|x: Place| #[trigger] s2.dom().contains(x) && is_prefix(q, x) implies s2[x] == PlaceUsageType::Read by {
                        if x != p {
                            assert(s.dom().contains(x));
                        }
                    }
                }
                if all_below(s2, q, PlaceUsageType::Read) {
                    assert(s2.dom().contains(p));
                    assert forall|x: Place| #[trigger] s.dom().contains(x) && is_prefix(q, x) implies s[x] == PlaceUsageType::Read by {
                        assert(s2.dom().contains(x));
                    }
                }
            }
            assert(all_below(s2, q, PlaceUsageType::Write) <==> (all_below(s, q, PlaceUsageType::Write) && u == PlaceUsageType::Write)) by {
                if all_below(s, q, PlaceUsageType::Write) && u == PlaceUsageType::Write {
                    assert forall|x: Place| #[trigger] s2.dom().contains(x) && is_prefix(q, x) implies s2[x] == PlaceUsageType::Write by {
                        if x != p {
                            assert(s.dom().contains(x));
                        }
                    }
                }
                if all_below(s2, q, PlaceUsageType::Write) {
                    assert(s2.dom().contains(p));
                    assert forall|x: Place| #[trigger] s.dom().contains(x) && is_prefix(q, x) implies s[x] == PlaceUsageType::Write by {
                        assert(s2.dom().contains(x));
                    }
                }
            }
        } else {
            if is_prefix(m, p) {
                lemma_prefixes_comparable(m, q, p);
                assert(s.dom().contains(q));
                if is_prefix(m, q) {
                    assert(m == q);
                } else {
                    assert(q == m);
                }
            }
            assert forall|x: PlaceUsageType| all_below(s2, m, x) <==> all_below(s, m, x) by {
                if all_below(s, m, x) {
                    assert forall|y: Place| #[trigger] s2.dom().contains(y) && is_prefix(m, y) implies s2[y] == x by {
                        if y != p {
                            assert(s.dom().contains(y));
                        }
                    }
                }
                if all_below(s2, m, x) {
                    assert forall|y: Place| #[trigger] s.dom().contains(y) && is_prefix(m, y) implies s[y] == x by {
                        assert(s2.dom().contains(y));
                    }
                }
            }
        }
    }
    assert(consolidated(s2) =~= r);
}

/// Adding a place that no place of the consolidation is a prefix of
/// removes the places it is a prefix of and adds it, with `v`, the join of
/// its usage and theirs.
proof fn lemma_step_above(s: Map<Place, PlaceUsageType>, p: Place, u: PlaceUsageType, v: PlaceUsageType)
    requires
        s.dom().finite(),
        !s.dom().contains(p),
        forall|q: Place| #[trigger] consolidated(s).dom().contains(q) ==> !is_prefix(q, p),
        (v == PlaceUsageType::Read) <==> (u == PlaceUsageType::Read && forall|r: Place|
            #[trigger] consolidated(s).dom().contains(r) && is_prefix(p, r) ==> consolidated(s)[r] == PlaceUsageType::Read),
        (v == PlaceUsageType::Write) <==> (u == PlaceUsageType::Write && forall|r: Place|
            #[trigger] consolidated(s).dom().contains(r) && is_prefix(p, r) ==> consolidated(s)[r] == PlaceUsageType::Write),
    ensures
        consolidated(s.insert(p, u)) == Map::new(
            |m: Place| consolidated(s).dom().contains(m) && !is_prefix(p, m),
            |m: Place| consolidated(s)[m],
        ).insert(p, v),
{
    let s2 = s.insert(p, u);
    let c = consolidated(s);
    let r = Map::new(|m: Place| c.dom().contains(m) && !is_prefix(p, m), |m: Place| c[m]).insert(p, v);
    assert forall|m: Place| #[trigger] consolidated(s2).dom().contains(m) <==> r.dom().contains(m) by {
        if m == p {
            assert forall|x: Place| #[trigger] s2.dom().contains(x) && is_prefix(x, p) implies x == p by {
                if x != p {
                    assert(s.dom().contains(x));
                    lemma_exists_minimal(s.dom(), x);
                    let mm = choose|mm: Place| minimal_in(s.dom(), mm) && is_prefix(mm, x);
                    lemma_is_prefix_trans(mm, x, p);
                    assert(c.dom().contains(mm));
                }
            }
        } else {
            if c.dom().contains(m) && !is_prefix(p, m) {
                assert forall|x: Place| #[trigger] s2.dom().contains(x) && is_prefix(x, m) implies x == m by {
                    if x != p {
                        assert(s.dom().contains(x));
                    }
                }
            }
            if minimal_in(s2.dom(), m) {
                assert(s.dom().contains(m));
                assert forall|x: Place| #[trigger] s.dom().contains(x) && is_prefix(x, m) implies x == m by {
                    assert(s2.dom().contains(x));
                }
                assert(s2.dom().contains(p));
                if is_prefix(p, m) {
                    assert(p == m);
                }
            }
        }
    }
    assert forall|m: Place| consolidated(s2).dom().contains(m) implies #[trigger] consolidated(s2)[m] == r[m] by {
        lemma_join_below(s2, m);
        if m == p {
            assert forall|x: PlaceUsageType| x != PlaceUsageType::Exclusive implies
                (all_below(s2, p, x) <==> (u == x && forall|rr: Place|
                    #[trigger] c.dom().contains(rr) && is_prefix(p, rr) ==> c[rr] == x)) by {
                if all_below(s2, p, x) {
                    lemma_prefix_refl(p);
                    assert(s2.dom().contains(p));
                    assert forall|rr: Place| #[trigger] c.dom().contains(rr) && is_prefix(p, rr) implies c[rr] == x by {
                        lemma_join_below(s, rr);
                        assert forall|y: Place| #[trigger] s.dom().contains(y) && is_prefix(rr, y) implies s[y] == x by {
                            lemma_is_prefix_trans(p, rr, y);
                            assert(s2.dom().contains(y));
                        }
                    }
                }
                if u == x && forall|rr: Place| #[trigger] c.dom().contains(rr) && is_prefix(p, rr) ==> c[rr] == x {
                    assert forall|y: Place| #[trigger] s2.dom().contains(y) && is_prefix(p, y) implies s2[y] == x by {
                        if y != p {
                            assert(s.dom().contains(y));
                            lemma_exists_minimal(s.dom(), y);
                            let mm = choose|mm: Place| minimal_in(s.dom(), mm) && is_prefix(mm, y);
                            assert(c.dom().contains(mm));
                            lemma_prefixes_comparable(mm, p, y);
                            assert(!is_prefix(mm, p));
                            assert(is_prefix(p, mm));
                            lemma_join_below(s, mm);
                            assert(all_below(s, mm, x));
                        }
                    }
                }
            }
        } else {
            assert(c.dom().contains(m));
            assert(s.dom().contains(m));
            lemma_join_below(s, m);
            assert(!is_prefix(m, p));
            assert forall|x: PlaceUsageType| all_below(s2, m, x) <==> all_below(s, m, x) by {
                if all_below(s, m, x) {
                    assert forall|y: Place| #[trigger] s2.dom().contains(y) && is_prefix(m, y) implies s2[y] == x by {
                        if y != p {
                            assert(s.dom().contains(y));
                        }
                    }
                }
                if all_below(s2, m, x) {
                    assert forall|y: Place| #[trigger] s.dom().contains(y) && is_prefix(m, y) implies s[y] == x by {
                        assert(s2.dom().contains(y));
                    }
                }
            }
        }
    }
    assert(consolidated(s2) =~= r);
}

/// The map of a sequence of usages grows by an appended usage of a new
/// place.
proof fn lemma_usage_map_push(v: Seq<PlaceUsage>, e: PlaceUsage)
    requires
        distinct_places(v),
        !usage_map(v).dom().contains(e.place),
    ensures
        distinct_places(v.push(e)),
        usage_map(v.push(e)) == usage_map(v).insert(e.place, e.usage),
{
    let w = v.push(e);
    assert forall|a: int, b: int| 0 <= a < w.len() && 0 <= b < w.len() && a != b implies w[a].place != w[b].place by {
        if a < v.len() && b < v.len() {
            assert(w[a] == v[a] && w[b] == v[b]);
        } else if a < v.len() {
            assert(usage_map(v).dom().contains(v[a].place));
        } else {
            assert(usage_map(v).dom().contains(v[b].place));
        }
    }
    assert forall|q: Place| #[trigger] usage_map(w).dom().contains(q) <==> usage_map(v).insert(e.place, e.usage).dom().contains(q) by {
        if usage_map(v).dom().contains(q) {
            let k = choose|k: int| 0 <= k < v.len() && v[k].place == q;
            assert(w[k].place == q);
        }
        if q == e.place {
            assert(w[v.len() as int].place == q);
        }
        if usage_map(w).dom().contains(q) {
            let k = choose|k: int| 0 <= k < w.len() && w[k].place == q;
            if k < v.len() {
                assert(v[k].place == q);
            }
        }
    }
    assert forall|q: Place| usage_map(w).dom().contains(q) implies #[trigger] usage_map(w)[q] == usage_map(v).insert(e.place, e.usage)[q] by {
        let k = choose|k: int| 0 <= k < w.len() && w[k].place == q;
        lemma_usage_map_at(w, k);
        if k < v.len() {
            assert(w[k] == v[k]);
            lemma_usage_map_at(v, k);
        }
    }
    assert(usage_map(w) =~= usage_map(v).insert(e.place, e.usage));
}

/// Whether `r` is the place of one of the first `j` usages.
pub open spec fn in_first(v: Seq<PlaceUsage>, j: int, r: Place) -> bool {
    exists|k: int| 0 <= k < j && (#[trigger] v[k]).place == r
}

/// When no used place of a consolidation is a prefix of `p`, the usages
/// of the places that overlap `p` are those of the places below it.
proof fn lemma_usages_above(cons: Seq<PlaceUsage>, c: Map<Place, PlaceUsageType>, s: Map<Place, PlaceUsageType>,
    p: Place, x: PlaceUsageType)
    requires
        distinct_places(cons),
        c == usage_map(cons),
        forall|q: Place| #[trigger] c.dom().contains(q) ==> !is_prefix(q, p),
    ensures
        (forall|k: int| 0 <= k < cons.len() && overlap((#[trigger] cons[k]).place, p) ==> cons[k].usage == x)
            <==> (forall|r: Place| #[trigger] c.dom().contains(r) && is_prefix(p, r) ==> c[r] == x),
{
    if forall|k: int| 0 <= k < cons.len() && overlap((#[trigger] cons[k]).place, p) ==> cons[k].usage == x {
        assert forall|r: Place| #[trigger] c.dom().contains(r) && is_prefix(p, r) implies c[r] == x by {
            let k = choose|k: int| 0 <= k < cons.len() && cons[k].place == r;
            lemma_usage_map_at(cons, k);
            assert(overlap(cons[k].place, p));
        }
    }
    if forall|r: Place| #[trigger] c.dom().contains(r) && is_prefix(p, r) ==> c[r] == x {
        assert forall|k: int| 0 <= k < cons.len() && overlap((#[trigger] cons[k]).place, p) implies cons[k].usage == x by {
            lemma_usage_map_at(cons, k);
            let r = cons[k].place;
            assert(c.dom().contains(r));
            assert(!is_prefix(r, p));
        }
    }
}

/// Merges the usage `u` of a place `p` that is not yet used into the
/// consolidation `cons` of the usages `s`.
fn merge_usage(cons: &Vec<PlaceUsage>, p: Place, u: PlaceUsageType, Ghost(s): Ghost<Map<Place, PlaceUsageType>>)
    -> (r: Vec<PlaceUsage>)
    requires
        distinct_places(cons@),
        usage_map(cons@) == consolidated(s),
        s.dom().finite(),
        !s.dom().contains(p),
    ensures
        distinct_places(r@),
        usage_map(r@) == consolidated(s.insert(p, u)),
{
    let ghost c = usage_map(cons@);
    let mut kept: Vec<PlaceUsage> = Vec::new();
    let mut acc_place = p.clone();
    let mut acc_usage = u;
    let mut j: usize = 0;
    proof {
        lemma_prefix_refl(p);
        assert(usage_map(kept@) =~= Map::new(|r: Place| in_first(cons@, 0, r) && !overlap(r, p), |r: Place| c[r]));
    }
    while j < cons.len()
        invariant
            distinct_places(cons@),
            c == usage_map(cons@),
            c == consolidated(s),
            !s.dom().contains(p),
            j <= cons@.len(),
            distinct_places(kept@),
            usage_map(kept@) == Map::new(|r: Place| in_first(cons@, j as int, r) && !overlap(r, p), |r: Place| c[r]),
            is_prefix(acc_place, p),
            acc_place == p || c.dom().contains(acc_place),
            acc_place != p ==> in_first(cons@, j as int, acc_place),
            forall|k: int| 0 <= k < j && is_prefix((#[trigger] cons@[k]).place, p) ==> cons@[k].place == acc_place,
            (acc_usage == PlaceUsageType::Read) <==> (u == PlaceUsageType::Read && forall|k: int|
                0 <= k < j && overlap((#[trigger] cons@[k]).place, p) ==> cons@[k].usage == PlaceUsageType::Read),
            (acc_usage == PlaceUsageType::Write) <==> (u == PlaceUsageType::Write && forall|k: int|
                0 <= k < j && overlap((#[trigger] cons@[k]).place, p) ==> cons@[k].usage == PlaceUsageType::Write),
        decreases cons.len() - j,
    {
        let ghost old_kept = kept@;
        let ghost old_acc = acc_place;
        let ghost old_usage = acc_usage;
        let ghost e = cons@[j as int];
        proof {
            lemma_usage_map_at(cons@, j as int);
            // overlapping the accumulated place is overlapping `p`
            if old_acc != p {
                lemma_usage_map_at(cons@, j as int);
                if e.place == old_acc {
                    let k = choose|k: int| 0 <= k < j && is_prefix((#[trigger] cons@[k]).place, p)
                        ==> cons@[k].place == old_acc;
                }
            }
        }
        let ov = cons[j].place.is_prefix_of(&acc_place) || acc_place.is_prefix_of(&cons[j].place);
        proof {
            if old_acc != p {
                assert(s.dom().contains(old_acc));
                assert(s.dom().contains(e.place));
                if e.place != old_acc {
                    assert(!is_prefix(e.place, old_acc));
                    assert(!is_prefix(old_acc, e.place));
                    if is_prefix(e.place, p) {
                        lemma_prefixes_comparable(e.place, old_acc, p);
                    }
                    if is_prefix(p, e.place) {
                        lemma_is_prefix_trans(old_acc, p, e.place);
                    }
                } else {
                    // the accumulated place came from an earlier usage, whose place differs
                    let kk = choose|kk: int| 0 <= kk < j && (#[trigger] cons@[kk]).place == old_acc;
                    assert(cons@[kk].place != cons@[j as int].place);
                }
            }
            assert(ov == overlap(e.place, p));
        }
        if ov {
            let np = acc_place.common_prefix(&cons[j].place);
            proof {
                if is_prefix(e.place, old_acc) {
                    lemma_prefix_refl(e.place);
                    lemma_is_prefix_antisym(np, e.place);
                } else {
                    lemma_prefix_refl(old_acc);
                    lemma_is_prefix_antisym(np, old_acc);
                }
            }
            acc_place = np;
            acc_usage = acc_usage.joined(cons[j].usage);
        } else {
            kept.push(cons[j].clone());
        }
        proof {
            let m_old = Map::new(|r: Place| in_first(cons@, j as int, r) && !overlap(r, p), |r: Place| c[r]);
            let m_new = Map::new(|r: Place| in_first(cons@, j + 1, r) && !overlap(r, p), |r: Place| c[r]);
            assert forall|r: Place| #[trigger] in_first(cons@, j + 1, r) <==> (in_first(cons@, j as int, r) || r == e.place) by {
                if in_first(cons@, j + 1, r) {
                    let k = choose|k: int| 0 <= k < j + 1 && (#[trigger] cons@[k]).place == r;
                    if k < j {
                        assert(in_first(cons@, j as int, r));
                    }
                }
                if in_first(cons@, j as int, r) {
                    let k = choose|k: int| 0 <= k < j && (#[trigger] cons@[k]).place == r;
                    assert(in_first(cons@, j + 1, r));
                }
                if r == e.place {
                    assert(cons@[j as int].place == r);
                }
            }
            if !ov {
                assert(!m_old.dom().contains(e.place)) by {
                    if in_first(cons@, j as int, e.place) {
                        let k = choose|k: int| 0 <= k < j && (#[trigger] cons@[k]).place == e.place;
                        assert(cons@[k].place != cons@[j as int].place);
                    }
                }
                lemma_usage_map_push(old_kept, e);
                assert(usage_map(kept@) =~= m_new);
                if is_prefix(e.place, p) {
                    assert(overlap(e.place, p));
                }
            } else {
                assert(usage_map(kept@) =~= m_new);
            }
            assert(c.dom().contains(e.place));
            assert(s.dom().contains(e.place));
            if old_acc != p {
                let kk = choose|kk: int| 0 <= kk < j && (#[trigger] cons@[kk]).place == old_acc;
                assert(cons@[kk].place != cons@[j as int].place);
                assert(e.place != old_acc);
                assert(s.dom().contains(old_acc));
            }
            if ov && !is_prefix(e.place, old_acc) {
                // then the accumulated place is a strict prefix of e
                assert(is_prefix(old_acc, e.place));
                if old_acc == p {
                    assert(!is_prefix(e.place, p));
                } else {
                    assert(minimal_in(s.dom(), e.place));
                    assert(old_acc == e.place);
                }
                assert(!is_prefix(e.place, p));
            }
            if ov && is_prefix(e.place, old_acc) && old_acc != p {
                assert(minimal_in(s.dom(), old_acc));
                assert(e.place == old_acc);
            }
            if acc_place != p {
                if ov && is_prefix(e.place, old_acc) {
                    assert(acc_place == e.place);
                    assert(cons@[j as int].place == acc_place);
                    assert(in_first(cons@, j + 1, acc_place));
                } else {
                    let kk = choose|kk: int| 0 <= kk < j && (#[trigger] cons@[kk]).place == old_acc;
                    assert(cons@[kk].place == acc_place);
                    assert(in_first(cons@, j + 1, acc_place));
                }
            }
            assert forall|k: int| 0 <= k < j + 1 && is_prefix((#[trigger] cons@[k]).place, p) implies cons@[k].place == acc_place by {
                if k == j {
                    assert(overlap(e.place, p));
                } else {
                    assert(cons@[k].place == old_acc);
                    assert(c.dom().contains(cons@[k].place));
                    assert(old_acc != p);
                }
            }
            assert((acc_usage == PlaceUsageType::Read) <==> (u == PlaceUsageType::Read && forall|k: int|
                0 <= k < j + 1 && overlap((#[trigger] cons@[k]).place, p) ==> cons@[k].usage == PlaceUsageType::Read)) by {
                if ov {
                    assert(cons@[j as int].usage == e.usage);
                }
            }
            assert((acc_usage == PlaceUsageType::Write) <==> (u == PlaceUsageType::Write && forall|k: int|
                0 <= k < j + 1 && overlap((#[trigger] cons@[k]).place, p) ==> cons@[k].usage == PlaceUsageType::Write)) by {
                if ov {
                    assert(cons@[j as int].usage == e.usage);
                }
            }
        }
        j = j + 1;
    }
    let ghost kmap = usage_map(kept@);
    let ghost s2 = s.insert(p, u);
    proof {
        assert forall|r: Place| #[trigger] c.dom().contains(r) <==> in_first(cons@, cons@.len() as int, r) by {
            if c.dom().contains(r) {
                let k = choose|k: int| 0 <= k < cons@.len() && cons@[k].place == r;
                assert(in_first(cons@, cons@.len() as int, r));
            }
        }
    }
    if acc_place == p {
        proof {
            assert forall|q: Place| #[trigger] c.dom().contains(q) implies !is_prefix(q, p) by {
                let k = choose|k: int| 0 <= k < cons@.len() && cons@[k].place == q;
                if is_prefix(q, p) {
                    assert(cons@[k].place == acc_place);
                    assert(s.dom().contains(q));
                }
            }
            lemma_usages_above(cons@, c, s, p, PlaceUsageType::Read);
            lemma_usages_above(cons@, c, s, p, PlaceUsageType::Write);
            lemma_step_above(s, p, u, acc_usage);
            assert(!kmap.dom().contains(p)) by {
                if kmap.dom().contains(p) {
                    lemma_prefix_refl(p);
                }
            }
            lemma_usage_map_push(kept@, PlaceUsage { place: p, usage: acc_usage });
            assert(kmap.insert(p, acc_usage) =~= Map::new(
                |m: Place| c.dom().contains(m) && !is_prefix(p, m), |m: Place| c[m]).insert(p, acc_usage));
        }
        kept.push(PlaceUsage { place: acc_place, usage: acc_usage });
        kept
    } else {
        let ghost q = acc_place;
        proof {
            assert(c.dom().contains(q));
            let kq = choose|k: int| 0 <= k < cons@.len() && cons@[k].place == q;
            lemma_usage_map_at(cons@, kq);
            // q is the only place that overlaps p
            assert forall|k: int| 0 <= k < cons@.len() && overlap((#[trigger] cons@[k]).place, p) implies k == kq by {
                let r = cons@[k].place;
                assert(c.dom().contains(r));
                if is_prefix(r, p) {
                    assert(r == q);
                } else {
                    lemma_is_prefix_trans(q, p, r);
                    assert(s.dom().contains(q));
                    if r != q {
                        assert(!is_prefix(q, r));
                    } else {
                        lemma_is_prefix_antisym(p, q);
                    }
                }
                if k != kq {
                    assert(cons@[k].place != cons@[kq].place);
                }
            }
            assert(overlap(cons@[kq].place, p));
            assert(acc_usage == join_usage(c[q], u)) by {
                assert(cons@[kq].usage == c[q]);
            }
            lemma_step_below(s, p, u, q);
            assert(!kmap.dom().contains(q));
            lemma_usage_map_push(kept@, PlaceUsage { place: q, usage: acc_usage });
            assert forall|r: Place| #[trigger] kmap.dom().contains(r) <==> (c.dom().contains(r) && r != q) by {
                if c.dom().contains(r) && r != q {
                    let k = choose|k: int| 0 <= k < cons@.len() && cons@[k].place == r;
                    if overlap(r, p) {
                        assert(k == kq);
                    }
                }
            }
            assert(kmap.insert(q, acc_usage) =~= c.insert(q, join_usage(c[q], u)));
        }
        kept.push(PlaceUsage { place: acc_place, usage: acc_usage });
        kept
    }
}

impl PlaceUsages {
    /// Merges the usages of overlapping places: whenever one place is a
    /// prefix of another, both are replaced by the shorter one with the
    /// join of their usages. The places of the result are pairwise
    /// disjoint.
    pub fn consolidate(&self) -> (r: PlaceUsages)
        requires
            self.wf(),
        ensures
            r.wf(),
            r.map() == consolidated(self.map()),
    {
        let mut cons: Vec<PlaceUsage> = Vec::new();
        let mut i: usize = 0;
        proof {
            let e = usage_map(self.0@.subrange(0, 0));
            assert(e =~= Map::<Place, PlaceUsageType>::empty());
            assert(consolidated(e) =~= Map::<Place, PlaceUsageType>::empty());
            assert(usage_map(cons@) =~= Map::<Place, PlaceUsageType>::empty());
        }
        while i < self.0.len()
            invariant
                self.wf(),
                i <= self.0@.len(),
                distinct_places(cons@),
                usage_map(cons@) == consolidated(usage_map(self.0@.subrange(0, i as int))),
            decreases self.0.len() - i,
        {
            let ghost sub = self.0@.subrange(0, i as int);
            let ghost sub1 = self.0@.subrange(0, i + 1);
            proof {
                assert(sub1 == sub.push(self.0@[i as int]));
                assert(distinct_places(sub)) by {
                    assert forall|a: int, b: int| 0 <= a < sub.len() && 0 <= b < sub.len() && a != b implies sub[a].place != sub[b].place by {
                        assert(sub[a] == self.0@[a] && sub[b] == self.0@[b]);
                    }
                }
                assert(!usage_map(sub).dom().contains(self.0@[i as int].place)) by {
                    if usage_map(sub).dom().contains(self.0@[i as int].place) {
                        let k = choose|k: int| 0 <= k < sub.len() && sub[k].place == self.0@[i as int].place;
                        assert(self.0@[k].place != self.0@[i as int].place);
                    }
                }
                lemma_usage_map_push(sub, self.0@[i as int]);
                lemma_usage_map_finite(sub);
            }
            let next = merge_usage(&cons, self.0[i].place.clone(), self.0[i].usage, Ghost(usage_map(sub)));
            cons = next;
            i = i + 1;
        }
        proof {
            assert(self.0@.subrange(0, self.0@.len() as int) =~= self.0@);
        }
        PlaceUsages(cons)
    }
}

/// The map of a sequence of usages has a finite domain.
proof fn lemma_usage_map_finite(v: Seq<PlaceUsage>)
    ensures
        usage_map(v).dom().finite(),
{
    let f = |i: int| v[i].place;
    let idx = vstd::set_lib::set_int_range(0, v.len() as int);
    vstd::set_lib::lemma_int_range(0, v.len() as int);
    assert(usage_map(v).dom() =~= idx.map(f)) by {
        assert forall|q: Place| #[trigger] usage_map(v).dom().contains(q) implies idx.map(f).contains(q) by {
            let k = choose|k: int| 0 <= k < v.len() && v[k].place == q;
            assert(idx.contains(k));
        }
    }
    idx.lemma_map_finite(f);
}

} // verus!
