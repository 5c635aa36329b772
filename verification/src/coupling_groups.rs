//! Coupling the abstraction edges of a borrow state: the edges of one
//! function call (or one loop) under equal validity conditions form a
//! group, and each group is coupled into hyperedges. Groups have no order.
use vstd::prelude::*;
use crate::abstraction::{
    AbstractionEdge, FunctionCallAbstractionEdgeMetadata, FunctionCallAbstractionInput, FunctionCallAbstractionOutput,
    LoopAbstractionInput, LoopAbstractionOutput,
};
use crate::coupling::{is_coupling, AbstractionBlockEdge, CoupledEdgesData, CouplingNode};
use crate::graph::Conditioned;
use crate::mir::BasicBlock;
use crate::validity::{PathCondition, ValidityConditions};

verus! {

/// The abstraction edges of one call (or loop) under equal conditions, and
/// their coupling.
#[derive(Debug)]
pub struct CouplingGroup<M, I, O> {
    pub metadata: M,
    pub conditions: ValidityConditions,
    pub edges: Vec<AbstractionBlockEdge<I, O>>,
    pub coupled: CoupledEdgesData<I, O>,
}

/// The coupling of the abstraction edges of a borrow state: the groups of
/// function call edges and those of loop edges.
#[derive(Debug)]
pub struct PcgCouplingResults {
    pub function_calls: Vec<CouplingGroup<FunctionCallAbstractionEdgeMetadata, FunctionCallAbstractionInput, FunctionCallAbstractionOutput>>,
    pub loops: Vec<CouplingGroup<BasicBlock, LoopAbstractionInput, LoopAbstractionOutput>>,
}

/// An abstraction edge as its group key and its block edge.
pub struct KeyedEdge<M, I, O> {
    pub metadata: M,
    pub conditions: ValidityConditions,
    pub edge: AbstractionBlockEdge<I, O>,
}

/// The entry `x` has metadata `m`, conditions `c` and edge `e`.
pub open spec fn entry_is<M, I, O>(x: KeyedEdge<M, I, O>, m: M, c: Set<PathCondition>, e: AbstractionBlockEdge<I, O>) -> bool {
    x.metadata == m && x.conditions.view() == c && x.edge == e
}

/// `groups` groups the `entries` by metadata and conditions: no two groups
/// have one key, every entry's key has a group, each group holds exactly
/// the distinct edges of the entries with its key, and each group's
/// coupling is a coupling of its edges.
pub open spec fn groups_entries<M, I, O>(entries: Seq<KeyedEdge<M, I, O>>, groups: Seq<CouplingGroup<M, I, O>>) -> bool {
    &&& keys_distinct(groups)
    &&& entries_grouped(entries, groups)
    &&& members_exact(entries, groups)
    &&& edges_distinct(groups)
    &&& all_coupled(groups)
}

/// No two groups have one key.
pub open spec fn keys_distinct<M, I, O>(groups: Seq<CouplingGroup<M, I, O>>) -> bool {
    forall|a: int, b: int| 0 <= a < groups.len() && 0 <= b < groups.len() && a != b
        ==> !(groups[a].metadata == groups[b].metadata && groups[a].conditions.view() == groups[b].conditions.view())
}

/// Every entry's key has a group.
pub open spec fn entries_grouped<M, I, O>(entries: Seq<KeyedEdge<M, I, O>>, groups: Seq<CouplingGroup<M, I, O>>) -> bool {
    forall|i: int| 0 <= i < entries.len() ==> has_group(groups, #[trigger] entries[i])
}

/// Some group has the key of `x`.
pub open spec fn has_group<M, I, O>(groups: Seq<CouplingGroup<M, I, O>>, x: KeyedEdge<M, I, O>) -> bool {
    exists|g: int| 0 <= g < groups.len() && #[trigger] groups[g].metadata == x.metadata
        && groups[g].conditions.view() == x.conditions.view()
}

/// Each group holds exactly the edges of the entries with its key.
pub open spec fn members_exact<M, I, O>(entries: Seq<KeyedEdge<M, I, O>>, groups: Seq<CouplingGroup<M, I, O>>) -> bool {
    forall|g: int, e: AbstractionBlockEdge<I, O>| 0 <= g < groups.len() ==> (#[trigger] groups[g].edges@.contains(e)
        <==> exists|i: int| #![trigger entries[i]] 0 <= i < entries.len()
            && entry_is(entries[i], groups[g].metadata, groups[g].conditions.view(), e))
}

/// No group holds an edge twice.
pub open spec fn edges_distinct<M, I, O>(groups: Seq<CouplingGroup<M, I, O>>) -> bool {
    forall|g: int, a: int, b: int| 0 <= g < groups.len() && 0 <= a < b < groups[g].edges@.len()
        ==> #[trigger] groups[g].edges@[a] != #[trigger] groups[g].edges@[b]
}

/// Each group's coupling is a coupling of its edges.
pub open spec fn all_coupled<M, I, O>(groups: Seq<CouplingGroup<M, I, O>>) -> bool {
    forall|g: int| 0 <= g < groups.len() ==> #[trigger] coupled_ok(groups[g])
}

/// The group's coupling is a coupling of its edges.
pub open spec fn coupled_ok<M, I, O>(grp: CouplingGroup<M, I, O>) -> bool {
    exists|comp: Seq<int>| is_coupling(grp.edges@, grp.coupled.0@, comp)
}

/// The function call edges of `edges`, keyed.
pub open spec fn call_entries(edges: Seq<Conditioned<AbstractionEdge, ValidityConditions>>)
    -> Seq<KeyedEdge<FunctionCallAbstractionEdgeMetadata, FunctionCallAbstractionInput, FunctionCallAbstractionOutput>>
    decreases edges.len(),
{
    if edges.len() == 0 {
        Seq::empty()
    } else {
        let prev = call_entries(edges.drop_last());
        match edges.last().value {
            AbstractionEdge::FunctionCall(f) => prev.push(KeyedEdge { metadata: f.metadata, conditions: edges.last().conditions, edge: f.edge }),
            _ => prev,
        }
    }
}

/// The loop edges of `edges`, keyed.
pub open spec fn loop_entries(edges: Seq<Conditioned<AbstractionEdge, ValidityConditions>>)
    -> Seq<KeyedEdge<BasicBlock, LoopAbstractionInput, LoopAbstractionOutput>>
    decreases edges.len(),
{
    if edges.len() == 0 {
        Seq::empty()
    } else {
        let prev = loop_entries(edges.drop_last());
        match edges.last().value {
            AbstractionEdge::Loop(l) => prev.push(KeyedEdge { metadata: l.loop_head, conditions: edges.last().conditions, edge: l.edge }),
            _ => prev,
        }
    }
}

fn same_block_edge<I: CouplingNode, O: CouplingNode>(a: &AbstractionBlockEdge<I, O>, b: &AbstractionBlockEdge<I, O>) -> (r: bool)
    ensures
        r == (*a == *b),
{
    a.input.same(&b.input) && a.output.same(&b.output)
}

fn dup_block_edge<I: CouplingNode, O: CouplingNode>(a: &AbstractionBlockEdge<I, O>) -> (r: AbstractionBlockEdge<I, O>)
    ensures
        r == *a,
{
    AbstractionBlockEdge { input: a.input.dup(), output: a.output.dup() }
}

/// Groups the entries by metadata and conditions and couples each group.
fn group_and_couple<M: Copy, I: CouplingNode, O: CouplingNode, F: Fn(&M, &M) -> bool>(
    entries: &Vec<KeyedEdge<M, I, O>>,
    same_metadata: F,
) -> (r: Vec<CouplingGroup<M, I, O>>)
    requires
        forall|a: &M, b: &M| #[trigger] same_metadata.requires((a, b)),
        forall|a: &M, b: &M, x: bool| same_metadata.ensures((a, b), x) ==> x == (*a == *b),
    ensures
        groups_entries(entries@, r@),
{
    let mut keys: Vec<(M, ValidityConditions)> = Vec::new();
    let mut members: Vec<Vec<AbstractionBlockEdge<I, O>>> = Vec::new();
    let ghost es = entries@;
    let ghost mut group_of: Seq<int> = Seq::empty();
    let mut n: usize = 0;
    while n < entries.len()
        invariant
            es == entries@,
            group_of.len() == n,
            forall|i: int| 0 <= i < n ==> 0 <= #[trigger] group_of[i] < keys@.len()
                && keys@[group_of[i]].0 == es[i].metadata && keys@[group_of[i]].1.view() == es[i].conditions.view(),
            forall|a: &M, b: &M| #[trigger] same_metadata.requires((a, b)),
            forall|a: &M, b: &M, x: bool| same_metadata.ensures((a, b), x) ==> x == (*a == *b),
            n <= es.len(),
            keys@.len() == members@.len(),
            forall|a: int, b: int| 0 <= a < keys@.len() && 0 <= b < keys@.len() && a != b
                ==> !(keys@[a].0 == keys@[b].0 && keys@[a].1.view() == keys@[b].1.view()),
            forall|g: int, e: AbstractionBlockEdge<I, O>| 0 <= g < keys@.len() ==> (#[trigger] members@[g]@.contains(e)
                <==> exists|i: int| 0 <= i < n && entry_is(es[i], keys@[g].0, keys@[g].1.view(), e)),
            forall|g: int, a: int, b: int| 0 <= g < members@.len() && 0 <= a < b < members@[g]@.len()
                ==> #[trigger] members@[g]@[a] != #[trigger] members@[g]@[b],
        decreases es.len() - n,
    {
        let x = &entries[n];
        // Find the group of the entry's key.
        let mut g: usize = 0;
        let mut found = false;
        while g < keys.len() && !found
            invariant
                g <= keys@.len(),
                forall|a: &M, b: &M| #[trigger] same_metadata.requires((a, b)),
                forall|a: &M, b: &M, y: bool| same_metadata.ensures((a, b), y) ==> y == (*a == *b),
                found ==> g < keys@.len() && keys@[g as int].0 == x.metadata && keys@[g as int].1.view() == x.conditions.view(),
                !found ==> forall|h: int| 0 <= h < g ==> !(keys@[h].0 == x.metadata && keys@[h].1.view() == x.conditions.view()),
            decreases keys.len() - g + (if found { 0int } else { 1int }),
        {
            if same_metadata(&keys[g].0, &x.metadata) && keys[g].1.same(&x.conditions) {
                found = true;
            } else {
                g = g + 1;
            }
        }
        let ghost old_keys = keys@;
        let ghost old_members = members@;
        if found {
            let mut v = members.remove(g);
            let ghost old_v = v@;
            let mut k: usize = 0;
            let mut present = false;
            while k < v.len() && !present
                invariant
                    k <= v@.len(),
                    present ==> v@.contains(x.edge),
                    !present ==> forall|h: int| 0 <= h < k ==> v@[h] != x.edge,
                decreases v.len() - k + (if present { 0int } else { 1int }),
            {
                if same_block_edge(&v[k], &x.edge) {
                    present = true;
                } else {
                    k = k + 1;
                }
            }
            if !present {
                v.push(dup_block_edge(&x.edge));
            }
            members.insert(g, v);
            proof {
                assert forall|h: int| 0 <= h < members@.len() && h != g implies members@[h] == old_members[h] by {}
                assert forall|q: int, e: AbstractionBlockEdge<I, O>| 0 <= q < keys@.len() implies (#[trigger] members@[q]@.contains(e)
                    <==> exists|i: int| 0 <= i < n + 1 && entry_is(es[i], keys@[q].0, keys@[q].1.view(), e)) by {
                    if q == g {
                        if members@[q]@.contains(e) && !old_v.contains(e) {
                            assert(e == x.edge);
                            assert(entry_is(es[n as int], keys@[q].0, keys@[q].1.view(), e));
                        }
                        if members@[q]@.contains(e) && old_v.contains(e) {
                            assert(old_members[q]@.contains(e));
                        }
                        if exists|i: int| 0 <= i < n + 1 && entry_is(es[i], keys@[q].0, keys@[q].1.view(), e) {
                            let i = choose|i: int| 0 <= i < n + 1 && entry_is(es[i], keys@[q].0, keys@[q].1.view(), e);
                            if i < n {
                                assert(old_members[q]@.contains(e));
                                let w = choose|w: int| 0 <= w < old_v.len() && old_v[w] == e;
                                assert(members@[q]@[w] == e);
                            } else if present {
                                assert(old_v.contains(e));
                                let w = choose|w: int| 0 <= w < old_v.len() && old_v[w] == e;
                                assert(members@[q]@[w] == e);
                            } else {
                                assert(members@[q]@[old_v.len() as int] == e);
                            }
                        }
                    } else {
                        if exists|i: int| 0 <= i < n + 1 && entry_is(es[i], keys@[q].0, keys@[q].1.view(), e) {
                            let i = choose|i: int| 0 <= i < n + 1 && entry_is(es[i], keys@[q].0, keys@[q].1.view(), e);
                            if i == n {
                                assert(false);
                            }
                        }
                    }
                }
                assert forall|q: int, a: int, b: int| 0 <= q < members@.len() && 0 <= a < b < members@[q]@.len()
                    implies #[trigger] members@[q]@[a] != #[trigger] members@[q]@[b] by {
                    if q == g && !present && b == old_v.len() {
                        assert(members@[q]@[a] == old_v[a]);
                    } else if q == g {
                        assert(members@[q]@[a] == old_v[a] && members@[q]@[b] == old_v[b]);
                    }
                }
                group_of = group_of.push(g as int);
                assert forall|i: int| 0 <= i < n + 1 implies 0 <= #[trigger] group_of[i] < keys@.len()
                    && keys@[group_of[i]].0 == es[i].metadata && keys@[group_of[i]].1.view() == es[i].conditions.view() by {
                }
            }
        } else {
            keys.push((x.metadata, x.conditions.dup()));
            let mut v: Vec<AbstractionBlockEdge<I, O>> = Vec::new();
            v.push(dup_block_edge(&x.edge));
            members.push(v);
            proof {
                let last = old_keys.len() as int;
                assert forall|a: int, b: int| 0 <= a < keys@.len() && 0 <= b < keys@.len() && a != b
                    implies !(keys@[a].0 == keys@[b].0 && keys@[a].1.view() == keys@[b].1.view()) by {
                    if a < last && b < last {
                        assert(keys@[a] == old_keys[a] && keys@[b] == old_keys[b]);
                    } else if a < last {
                        assert(keys@[a] == old_keys[a]);
                    } else {
                        assert(keys@[b] == old_keys[b]);
                    }
                }
                assert forall|q: int, e: AbstractionBlockEdge<I, O>| 0 <= q < keys@.len() implies (#[trigger] members@[q]@.contains(e)
                    <==> exists|i: int| 0 <= i < n + 1 && entry_is(es[i], keys@[q].0, keys@[q].1.view(), e)) by {
                    if q < last {
                        assert(keys@[q] == old_keys[q] && members@[q] == old_members[q]);
                        if exists|i: int| 0 <= i < n + 1 && entry_is(es[i], keys@[q].0, keys@[q].1.view(), e) {
                            let i = choose|i: int| 0 <= i < n + 1 && entry_is(es[i], keys@[q].0, keys@[q].1.view(), e);
                            if i == n {
                                assert(false);
                            }
                        }
                    } else {
                        if members@[q]@.contains(e) {
                            assert(members@[q]@[0] == x.edge);
                            assert(e == x.edge);
                            assert(entry_is(es[n as int], keys@[q].0, keys@[q].1.view(), e));
                        }
                        if exists|i: int| 0 <= i < n + 1 && entry_is(es[i], keys@[q].0, keys@[q].1.view(), e) {
                            let i = choose|i: int| 0 <= i < n + 1 && entry_is(es[i], keys@[q].0, keys@[q].1.view(), e);
                            if i < n {
                                let h = group_of[i];
                                assert(old_keys[h].0 == es[i].metadata && old_keys[h].1.view() == es[i].conditions.view());
                                assert(false);
                            }
                            assert(members@[q]@[0] == e);
                        }
                    }
                }
                assert forall|q: int, a: int, b: int| 0 <= q < members@.len() && 0 <= a < b < members@[q]@.len()
                    implies #[trigger] members@[q]@[a] != #[trigger] members@[q]@[b] by {
                    if q < last {
                        assert(members@[q] == old_members[q]);
                    }
                }
                group_of = group_of.push(last);
                assert forall|i: int| 0 <= i < n + 1 implies 0 <= #[trigger] group_of[i] < keys@.len()
                    && keys@[group_of[i]].0 == es[i].metadata && keys@[group_of[i]].1.view() == es[i].conditions.view() by {
                    if i < n {
                        assert(keys@[group_of[i]] == old_keys[group_of[i]]);
                    }
                }
            }
        }
        n = n + 1;
    }
    assert(n == es.len());
    // Couple each group.
    let mut r: Vec<CouplingGroup<M, I, O>> = Vec::new();
    let mut g: usize = 0;
    while g < keys.len()
        invariant
            es == entries@,
            g <= keys@.len(),
            keys@.len() == members@.len(),
            r@.len() == g,
            forall|q: int| 0 <= q < g ==> (#[trigger] r@[q]).metadata == keys@[q].0 && r@[q].conditions.view() == keys@[q].1.view()
                && r@[q].edges@ == members@[q]@ && coupled_ok(r@[q]),
            forall|a: int, b: int| 0 <= a < keys@.len() && 0 <= b < keys@.len() && a != b
                ==> !(keys@[a].0 == keys@[b].0 && keys@[a].1.view() == keys@[b].1.view()),
            group_of.len() == es.len(),
            forall|i: int| 0 <= i < es.len() ==> 0 <= #[trigger] group_of[i] < keys@.len()
                && keys@[group_of[i]].0 == es[i].metadata && keys@[group_of[i]].1.view() == es[i].conditions.view(),
            forall|q: int, e: AbstractionBlockEdge<I, O>| 0 <= q < keys@.len() ==> (#[trigger] members@[q]@.contains(e)
                <==> exists|i: int| 0 <= i < es.len() && entry_is(es[i], keys@[q].0, keys@[q].1.view(), e)),
            forall|q: int, a: int, b: int| 0 <= q < members@.len() && 0 <= a < b < members@[q]@.len()
                ==> #[trigger] members@[q]@[a] != #[trigger] members@[q]@[b],
        decreases keys.len() - g,
    {
        let mut edges: Vec<AbstractionBlockEdge<I, O>> = Vec::new();
        let mut k: usize = 0;
        while k < members[g].len()
            invariant
                g < members@.len(),
                k <= members@[g as int]@.len(),
                edges@ == members@[g as int]@.subrange(0, k as int),
            decreases members@[g as int]@.len() - k,
        {
            edges.push(dup_block_edge(&members[g][k]));
            k = k + 1;
        }
        assert(edges@ =~= members@[g as int]@);
        let coupled = CoupledEdgesData::new(&edges);
        let ghost prev_r = r@;
        let ghost edges_v = edges@;
        let ghost coupled_v = coupled.0@;
        r.push(CouplingGroup { metadata: keys[g].0, conditions: keys[g].1.dup(), edges, coupled });
        proof {
            assert(r@[g as int].conditions.view() == keys@[g as int].1.view());
            assert(r@[g as int].edges@ == edges_v && r@[g as int].coupled.0@ == coupled_v);
            assert(coupled_ok(r@[g as int]));
            assert forall|q: int| 0 <= q < g + 1 implies (#[trigger] r@[q]).metadata == keys@[q].0
                && r@[q].conditions.view() == keys@[q].1.view()
                && r@[q].edges@ == members@[q]@ && coupled_ok(r@[q]) by {
                if q < g {
                    assert(r@[q] == prev_r[q]);
                }
            }
        }
        g = g + 1;
    }
    proof {
        assert forall|q: int, e: AbstractionBlockEdge<I, O>| 0 <= q < r@.len() implies (#[trigger] r@[q].edges@.contains(e)
            <==> exists|i: int| #![trigger es[i]] 0 <= i < es.len() && entry_is(es[i], r@[q].metadata, r@[q].conditions.view(), e)) by {
            assert(members@[q]@.contains(e) == r@[q].edges@.contains(e));
            if r@[q].edges@.contains(e) {
                let i = choose|i: int| 0 <= i < es.len() && entry_is(es[i], keys@[q].0, keys@[q].1.view(), e);
                assert(entry_is(es[i], r@[q].metadata, r@[q].conditions.view(), e));
            }
            if exists|i: int| #![trigger es[i]] 0 <= i < es.len() && entry_is(es[i], r@[q].metadata, r@[q].conditions.view(), e) {
                let i = choose|i: int| #![trigger es[i]] 0 <= i < es.len() && entry_is(es[i], r@[q].metadata, r@[q].conditions.view(), e);
                assert(entry_is(es[i], keys@[q].0, keys@[q].1.view(), e));
                assert(members@[q]@.contains(e));
            }
        }
        assert forall|i: int| 0 <= i < es.len() implies has_group(r@, #[trigger] es[i]) by {
            let q = group_of[i];
            assert(0 <= q < r@.len());
            assert(r@[q].metadata == keys@[q].0);
            assert(r@[q].metadata == es[i].metadata && r@[q].conditions.view() == es[i].conditions.view());
        }
        assert forall|q: int, a: int, b: int| 0 <= q < r@.len() && 0 <= a < b < r@[q].edges@.len()
            implies #[trigger] r@[q].edges@[a] != #[trigger] r@[q].edges@[b] by {
            assert(r@[q].edges@ == members@[q]@);
        }
        assert forall|a: int, b: int| 0 <= a < r@.len() && 0 <= b < r@.len() && a != b
            implies !(r@[a].metadata == r@[b].metadata && r@[a].conditions.view() == r@[b].conditions.view()) by {
            assert(r@[a].metadata == keys@[a].0 && r@[b].metadata == keys@[b].0);
        }
        assert forall|q: int| 0 <= q < r@.len() implies #[trigger] coupled_ok(r@[q]) by {}
        assert(keys_distinct(r@));
        assert(entries_grouped(es, r@));
        assert(members_exact(es, r@));
        assert(edges_distinct(r@));
        assert(all_coupled(r@));
    }
    r
}

/// Groups the abstraction edges by their call (or loop) and conditions,
/// and couples each group.
pub fn couple_abstraction_edges(edges: &Vec<Conditioned<AbstractionEdge, ValidityConditions>>) -> (r: PcgCouplingResults)
    ensures
        groups_entries(call_entries(edges@), r.function_calls@),
        groups_entries(loop_entries(edges@), r.loops@),
{
    let mut calls: Vec<KeyedEdge<FunctionCallAbstractionEdgeMetadata, FunctionCallAbstractionInput, FunctionCallAbstractionOutput>> = Vec::new();
    let mut loops: Vec<KeyedEdge<BasicBlock, LoopAbstractionInput, LoopAbstractionOutput>> = Vec::new();
    let mut i: usize = 0;
    while i < edges.len()
        invariant
            i <= edges@.len(),
            calls@.len() == call_entries(edges@.subrange(0, i as int)).len(),
            loops@.len() == loop_entries(edges@.subrange(0, i as int)).len(),
            forall|k: int| 0 <= k < calls@.len() ==> entry_is(#[trigger] calls@[k],
                call_entries(edges@.subrange(0, i as int))[k].metadata,
                call_entries(edges@.subrange(0, i as int))[k].conditions.view(),
                call_entries(edges@.subrange(0, i as int))[k].edge),
            forall|k: int| 0 <= k < loops@.len() ==> entry_is(#[trigger] loops@[k],
                loop_entries(edges@.subrange(0, i as int))[k].metadata,
                loop_entries(edges@.subrange(0, i as int))[k].conditions.view(),
                loop_entries(edges@.subrange(0, i as int))[k].edge),
        decreases edges.len() - i,
    {
        assert(edges@.subrange(0, i + 1).drop_last() =~= edges@.subrange(0, i as int));
        match &edges[i].value {
            AbstractionEdge::FunctionCall(f) => {
                calls.push(KeyedEdge { metadata: f.metadata, conditions: edges[i].conditions.dup(), edge: dup_block_edge(&f.edge) });
            },
            AbstractionEdge::Loop(l) => {
                loops.push(KeyedEdge { metadata: l.loop_head, conditions: edges[i].conditions.dup(), edge: dup_block_edge(&l.edge) });
            },
        }
        i = i + 1;
    }
    assert(edges@.subrange(0, edges@.len() as int) =~= edges@);
    let function_calls = group_and_couple(&calls, |a: &FunctionCallAbstractionEdgeMetadata, b: &FunctionCallAbstractionEdgeMetadata| -> (r: bool)
        ensures
            r == (*a == *b),
        { *a == *b });
    let loop_groups = group_and_couple(&loops, |a: &BasicBlock, b: &BasicBlock| -> (r: bool)
        ensures
            r == (*a == *b),
        { *a == *b });
    proof {
        lemma_same_grouping(calls@, call_entries(edges@), function_calls@);
        lemma_same_grouping(loops@, loop_entries(edges@), loop_groups@);
    }
    PcgCouplingResults { function_calls, loops: loop_groups }
}

/// Entries with the same metadata, condition sets and edges are grouped
/// alike.
proof fn lemma_same_grouping<M, I, O>(a: Seq<KeyedEdge<M, I, O>>, b: Seq<KeyedEdge<M, I, O>>, groups: Seq<CouplingGroup<M, I, O>>)
    requires
        a.len() == b.len(),
        forall|k: int| 0 <= k < a.len() ==> entry_is(#[trigger] a[k], b[k].metadata, b[k].conditions.view(), b[k].edge),
        groups_entries(a, groups),
    ensures
        groups_entries(b, groups),
{
    assert forall|i: int| 0 <= i < b.len() implies has_group(groups, #[trigger] b[i]) by {
        assert(entry_is(a[i], b[i].metadata, b[i].conditions.view(), b[i].edge));
        assert(has_group(groups, a[i]));
        let g = choose|g: int| 0 <= g < groups.len() && #[trigger] groups[g].metadata == a[i].metadata
            && groups[g].conditions.view() == a[i].conditions.view();
        assert(groups[g].metadata == b[i].metadata && groups[g].conditions.view() == b[i].conditions.view());
    }
    assert forall|g: int, e: AbstractionBlockEdge<I, O>| 0 <= g < groups.len() implies (#[trigger] groups[g].edges@.contains(e)
        <==> exists|i: int| #![trigger b[i]] 0 <= i < b.len() && entry_is(b[i], groups[g].metadata, groups[g].conditions.view(), e)) by {
        if groups[g].edges@.contains(e) {
            let i = choose|i: int| #![trigger a[i]] 0 <= i < a.len() && entry_is(a[i], groups[g].metadata, groups[g].conditions.view(), e);
            assert(entry_is(a[i], b[i].metadata, b[i].conditions.view(), b[i].edge));
            assert(entry_is(b[i], groups[g].metadata, groups[g].conditions.view(), e));
        }
        if exists|i: int| #![trigger b[i]] 0 <= i < b.len() && entry_is(b[i], groups[g].metadata, groups[g].conditions.view(), e) {
            let i = choose|i: int| #![trigger b[i]] 0 <= i < b.len() && entry_is(b[i], groups[g].metadata, groups[g].conditions.view(), e);
            assert(entry_is(a[i], b[i].metadata, b[i].conditions.view(), b[i].edge));
            assert(entry_is(a[i], groups[g].metadata, groups[g].conditions.view(), e));
        }
    }
    assert forall|g: int| 0 <= g < groups.len() implies #[trigger] coupled_ok(groups[g]) by {}
    assert forall|g: int, x: int, y: int| 0 <= g < groups.len() && 0 <= x < y < groups[g].edges@.len()
        implies #[trigger] groups[g].edges@[x] != #[trigger] groups[g].edges@[y] by {}
}

} // verus!
