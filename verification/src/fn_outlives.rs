//! Outlives between generalized lifetimes of a function signature, and the
//! outlives relation between the regions of a call to a defined function,
//! which maps the call's regions to those of the callee's signature.
use vstd::prelude::*;
use crate::abstraction::{DefId, DefinedFnCall};
use crate::region::PcgRegion;
use crate::ty::{
    alias_dup, args_dup, extract_generalized_lifetimes_with_bounds, extract_regions, gl_dup, gl_eq,
    opaque_dup, opaque_eq, opaque_of, opaque_ty, push_pair_absent, regions_for, regions_of,
    trait_bound_pairs, ty_eq, ty_gls, ArgList, Clause, GeneralizedLifetime, OpaqueTy,
    TraitBoundRegions, Ty, TyList,
};
use crate::unique::{add_absent, lemma_add_absent_concat, lemma_add_absent_members, lemma_add_absent_single};

verus! {

/// What the analysis reads of the outlives environment of a function: the
/// clauses of its parameter environment, which regions are free, and the
/// pairs `(a, b)` of free regions for which the free-region map shows that
/// `b` outlives `a`.
pub struct OutlivesEnvironment {
    pub caller_bounds: Vec<Clause>,
    pub free_regions: Vec<PcgRegion>,
    pub free_region_pairs: Vec<(PcgRegion, PcgRegion)>,
}

/// Whether a region can be turned back into a compiler region: erased and
/// placeholder regions, and the error region, cannot.
pub open spec fn has_rust_region(r: PcgRegion) -> bool {
    !(r is ReErased || r is RePlaceholder || r is PcgInternalError)
}

/// The implied bounds `T: 'r` of a type, in visiting order: for `&'r T`
/// (shared or mutable) where `T` is opaque, `(T, 'r)`; references are
/// looked into, and so are the type arguments of ADTs and tuple elements.
pub open spec fn implied_pairs_ty(t: Ty) -> Seq<(OpaqueTy, PcgRegion)>
    decreases t,
{
    match t {
        Ty::Ref(r, inner, _) => (match opaque_of(*inner) {
            Some(o) => seq![(o, r)],
            None => Seq::empty(),
        }) + implied_pairs_ty(*inner),
        Ty::Adt(_, args) => implied_pairs_args(*args),
        Ty::Tuple(l) => implied_pairs_list(*l),
        _ => Seq::empty(),
    }
}

/// The implied bounds of the type arguments of a list, in order.
pub open spec fn implied_pairs_args(a: ArgList) -> Seq<(OpaqueTy, PcgRegion)>
    decreases a,
{
    match a {
        ArgList::Nil => Seq::empty(),
        ArgList::Region(_, t) => implied_pairs_args(*t),
        ArgList::Type(h, t) => implied_pairs_ty(*h) + implied_pairs_args(*t),
        ArgList::Const(t) => implied_pairs_args(*t),
    }
}

/// The implied bounds of the types of a list, in order.
pub open spec fn implied_pairs_list(l: TyList) -> Seq<(OpaqueTy, PcgRegion)>
    decreases l,
{
    match l {
        TyList::Nil => Seq::empty(),
        TyList::Cons(h, t) => implied_pairs_ty(*h) + implied_pairs_list(*t),
    }
}

/// The implied bounds of a sequence of types, in order.
pub open spec fn implied_pairs(tys: Seq<Ty>) -> Seq<(OpaqueTy, PcgRegion)>
    decreases tys.len(),
{
    if tys.len() == 0 {
        Seq::empty()
    } else {
        implied_pairs(tys.drop_last()) + implied_pairs_ty(tys.last())
    }
}

fn implied_from_ty(t: &Ty, acc: &mut Vec<(OpaqueTy, PcgRegion)>)
    ensures
        final(acc)@ == add_absent(old(acc)@, implied_pairs_ty(*t)),
    decreases t,
{
    let ghost a0 = acc@;
    match t {
        Ty::Ref(r, inner, _) => {
            let ghost head: Seq<(OpaqueTy, PcgRegion)> = match opaque_of(**inner) {
                Some(o) => seq![(o, *r)],
                None => Seq::empty(),
            };
            match OpaqueTy::try_from_ty(inner) {
                Some(o) => {
                    push_pair_absent(acc, &o, *r);
                    proof {
                        lemma_add_absent_single(a0, (o, *r));
                    }
                },
                None => {
                    assert(head =~= Seq::<(OpaqueTy, PcgRegion)>::empty());
                },
            }
            implied_from_ty(inner, acc);
            proof {
                lemma_add_absent_concat(a0, head, implied_pairs_ty(**inner));
            }
        },
        Ty::Adt(_, args) => implied_from_args(args, acc),
        Ty::Tuple(l) => implied_from_list(l, acc),
        _ => {
            assert(implied_pairs_ty(*t) =~= Seq::<(OpaqueTy, PcgRegion)>::empty());
        },
    }
}

fn implied_from_args(a: &ArgList, acc: &mut Vec<(OpaqueTy, PcgRegion)>)
    ensures
        final(acc)@ == add_absent(old(acc)@, implied_pairs_args(*a)),
    decreases a,
{
    let ghost a0 = acc@;
    match a {
        ArgList::Nil => {
            assert(implied_pairs_args(*a) =~= Seq::<(OpaqueTy, PcgRegion)>::empty());
        },
        ArgList::Region(_, t) => implied_from_args(t, acc),
        ArgList::Type(h, t) => {
            implied_from_ty(h, acc);
            implied_from_args(t, acc);
            proof {
                lemma_add_absent_concat(a0, implied_pairs_ty(**h), implied_pairs_args(**t));
            }
        },
        ArgList::Const(t) => implied_from_args(t, acc),
    }
}

fn implied_from_list(l: &TyList, acc: &mut Vec<(OpaqueTy, PcgRegion)>)
    ensures
        final(acc)@ == add_absent(old(acc)@, implied_pairs_list(*l)),
    decreases l,
{
    let ghost a0 = acc@;
    match l {
        TyList::Nil => {
            assert(implied_pairs_list(*l) =~= Seq::<(OpaqueTy, PcgRegion)>::empty());
        },
        TyList::Cons(h, t) => {
            implied_from_ty(h, acc);
            implied_from_list(t, acc);
            proof {
                lemma_add_absent_concat(a0, implied_pairs_ty(**h), implied_pairs_list(**t));
            }
        },
    }
}

/// Adds the implied bounds `T: 'r` of `ty` to `result`, each pair once: for
/// `&'r T` or `&'r mut T` where `T` is opaque, `T: 'r`; nested references,
/// type arguments of ADTs and tuple elements are looked into.
pub fn collect_implied_bounds_from_ty(ty: &Ty, result: &mut Vec<(OpaqueTy, PcgRegion)>)
    ensures
        final(result)@ == add_absent(old(result)@, implied_pairs_ty(*ty)),
{
    implied_from_ty(ty, result)
}

/// The implied bounds `T: 'r` of the input types of a signature, as pairs
/// `(T, 'r)`, each once, in the order of their first appearance.
pub fn collect_implied_type_outlives(input_tys: &Vec<Ty>) -> (pairs: Vec<(OpaqueTy, PcgRegion)>)
    ensures
        pairs@ == add_absent(Seq::empty(), implied_pairs(input_tys@)),
{
    let mut result: Vec<(OpaqueTy, PcgRegion)> = Vec::new();
    let mut i: usize = 0;
    while i < input_tys.len()
        invariant
            i <= input_tys@.len(),
            result@ == add_absent(Seq::empty(), implied_pairs(input_tys@.subrange(0, i as int))),
        decreases input_tys.len() - i,
    {
        let ghost prev = result@;
        collect_implied_bounds_from_ty(&input_tys[i], &mut result);
        proof {
            let sub = input_tys@.subrange(0, i + 1);
            assert(sub.drop_last() =~= input_tys@.subrange(0, i as int));
            assert(sub.last() == input_tys@[i as int]);
            lemma_add_absent_concat(
                Seq::empty(),
                implied_pairs(input_tys@.subrange(0, i as int)),
                implied_pairs_ty(input_tys@[i as int]),
            );
        }
        i = i + 1;
    }
    assert(input_tys@.subrange(0, input_tys@.len() as int) =~= input_tys@);
    result
}

/// `clauses` hold a bound `T: 'r` without bound variables, for the type
/// that the opaque type `o` stands for.
pub open spec fn has_type_outlives(clauses: Seq<Clause>, o: OpaqueTy, r: PcgRegion) -> bool {
    exists|i: int| 0 <= i < clauses.len() && #[trigger] bound_gives(clauses[i], o, r)
}

/// The clause is a bound `T: 'r` without bound variables, for the type that
/// `o` stands for.
pub open spec fn bound_gives(c: Clause, o: OpaqueTy, r: PcgRegion) -> bool {
    c matches Clause::TypeOutlives(t, r2, binds) && !binds && *t == opaque_ty(o) && r2 == r
}

/// The edge `RegionsIn(o) => Region(r)` of the outlives graph: a bound
/// `T: 'r` of the environment, an implied bound of an input type, or `r`
/// occurring in the type itself.
pub open spec fn outlives_edge(clauses: Seq<Clause>, input_tys: Seq<Ty>, o: OpaqueTy, r: PcgRegion) -> bool {
    ||| has_type_outlives(clauses, o, r)
    ||| regions_for(add_absent(Seq::empty(), implied_pairs(input_tys)), o).contains(r)
    ||| regions_of(opaque_ty(o)).contains(r)
}

/// The regions that the search from `sup` visits: `sup` itself if it is a
/// region, else the targets of its edges.
pub open spec fn reaches_region(clauses: Seq<Clause>, input_tys: Seq<Ty>, sup: GeneralizedLifetime, r: PcgRegion) -> bool {
    match sup {
        GeneralizedLifetime::Region(r0) => r0 == r,
        GeneralizedLifetime::RegionsIn(o) => outlives_edge(clauses, input_tys, o, r),
    }
}

/// `r` outlives `s` by the environment's regions alone: `r` is `'static`,
/// or both are free and the free-region map shows it.
pub open spec fn region_outlives_free(env: OutlivesEnvironment, r: PcgRegion, s: PcgRegion) -> bool {
    ||| r is ReStatic
    ||| env.free_regions@.contains(s) && env.free_regions@.contains(r) && env.free_region_pairs@.contains((s, r))
}

/// `sup` outlives `sub` in the outlives graph of a signature with the given
/// input types: they are equal, `sub` is a region that the search from
/// `sup` reaches, or a region that the search reaches outlives the region
/// `sub` by the environment.
pub open spec fn generalized_outlives_spec(
    env: OutlivesEnvironment,
    input_tys: Seq<Ty>,
    sup: GeneralizedLifetime,
    sub: GeneralizedLifetime,
) -> bool {
    ||| sup == sub
    ||| (sub matches GeneralizedLifetime::Region(s) && reaches_region(env.caller_bounds@, input_tys, sup, s))
    ||| (sub matches GeneralizedLifetime::Region(s) && exists|r: PcgRegion|
            #[trigger] reaches_region(env.caller_bounds@, input_tys, sup, r) && region_outlives_free(env, r, s))
}

/// The inputs on which the search would turn a region into a compiler
/// region that has none: where it does not find `sub` directly, `sub` and,
/// if `sub` is free, every region it reaches but `'static` must have one.
pub open spec fn generalized_outlives_defined(
    env: OutlivesEnvironment,
    input_tys: Seq<Ty>,
    sup: GeneralizedLifetime,
    sub: GeneralizedLifetime,
) -> bool {
    match sub {
        GeneralizedLifetime::Region(s) => !(sup == sub || reaches_region(env.caller_bounds@, input_tys, sup, s))
            ==> has_rust_region(s) && (env.free_regions@.contains(s) ==> forall|r: PcgRegion|
                #[trigger] reaches_region(env.caller_bounds@, input_tys, sup, r) && !(r is ReStatic) ==> has_rust_region(r)),
        GeneralizedLifetime::RegionsIn(_) => true,
    }
}

/// Trait bounds give no edges: adding a bound `T: Trait<..>` to the
/// environment changes no outlives between generalized lifetimes (the bound
/// does not imply `T: 'r`, nor that `'r` is in `T`).
pub proof fn lemma_trait_bounds_give_no_edges(
    env1: OutlivesEnvironment,
    env2: OutlivesEnvironment,
    input_tys: Seq<Ty>,
    self_ty: Ty,
    args: ArgList,
    sup: GeneralizedLifetime,
    sub: GeneralizedLifetime,
)
    requires
        env2.caller_bounds@ == env1.caller_bounds@.push(Clause::Trait(Box::new(self_ty), Box::new(args))),
        env2.free_regions@ == env1.free_regions@,
        env2.free_region_pairs@ == env1.free_region_pairs@,
    ensures
        generalized_outlives_spec(env2, input_tys, sup, sub) == generalized_outlives_spec(env1, input_tys, sup, sub),
{
    let c1 = env1.caller_bounds@;
    let c2 = env2.caller_bounds@;
    assert forall|o: OpaqueTy, r: PcgRegion| has_type_outlives(c2, o, r) == has_type_outlives(c1, o, r) by {
        if has_type_outlives(c2, o, r) {
            let i = choose|i: int| 0 <= i < c2.len() && #[trigger] bound_gives(c2[i], o, r);
            assert(i < c1.len());
            assert(c1[i] == c2[i]);
        }
        if has_type_outlives(c1, o, r) {
            let i = choose|i: int| 0 <= i < c1.len() && #[trigger] bound_gives(c1[i], o, r);
            assert(c2[i] == c1[i]);
        }
    }
    assert forall|r: PcgRegion| reaches_region(c2, input_tys, sup, r) == reaches_region(c1, input_tys, sup, r) by {
        match sup {
            GeneralizedLifetime::RegionsIn(o) => {
                assert(has_type_outlives(c2, o, r) == has_type_outlives(c1, o, r));
            },
            _ => {},
        }
    }
    assert forall|r: PcgRegion, s: PcgRegion| region_outlives_free(env2, r, s) == region_outlives_free(env1, r, s) by {}
}

/// At a call, every region outlives itself, `'static` outlives every
/// region, and two regions that stand for the same region of the
/// normalised signature outlive each other.
pub proof fn lemma_call_outlives_basics(ds: DefinedFnCallShapeDataSource, r: PcgRegion, s: PcgRegion)
    ensures
        call_outlives_spec(ds, r, r),
        call_outlives_spec(ds, PcgRegion::ReStatic, s),
        ({
            let rm = map_of(ds.region_map@);
            rm.dom().contains(r) && rm.dom().contains(s) && rm[r] == rm[s]
        }) ==> call_outlives_spec(ds, r, s) && call_outlives_spec(ds, s, r),
{
}

fn contains_gl(v: &Vec<GeneralizedLifetime>, g: &GeneralizedLifetime) -> (b: bool)
    ensures
        b == v@.contains(*g),
{
    let mut i: usize = 0;
    while i < v.len()
        invariant
            i <= v@.len(),
            forall|j: int| 0 <= j < i ==> v@[j] != *g,
        decreases v.len() - i,
    {
        if gl_eq(&v[i], g) {
            assert(v@[i as int] == *g);
            return true;
        }
        i = i + 1;
    }
    false
}

fn contains_region(v: &Vec<PcgRegion>, r: PcgRegion) -> (b: bool)
    ensures
        b == v@.contains(r),
{
    let mut i: usize = 0;
    while i < v.len()
        invariant
            i <= v@.len(),
            forall|j: int| 0 <= j < i ==> v@[j] != r,
        decreases v.len() - i,
    {
        if v[i] == r {
            assert(v@[i as int] == r);
            return true;
        }
        i = i + 1;
    }
    false
}

fn contains_region_pair(v: &Vec<(PcgRegion, PcgRegion)>, a: PcgRegion, b: PcgRegion) -> (found: bool)
    ensures
        found == v@.contains((a, b)),
{
    let mut i: usize = 0;
    while i < v.len()
        invariant
            i <= v@.len(),
            forall|j: int| 0 <= j < i ==> v@[j] != (a, b),
        decreases v.len() - i,
    {
        if v[i].0 == a && v[i].1 == b {
            assert(v@[i as int] == (a, b));
            return true;
        }
        i = i + 1;
    }
    false
}

fn regions_of_pairs(pairs: &Vec<(OpaqueTy, PcgRegion)>, o: &OpaqueTy) -> (rs: Vec<PcgRegion>)
    ensures
        rs@ == regions_for(pairs@, *o),
{
    let mut rs: Vec<PcgRegion> = Vec::new();
    let mut i: usize = 0;
    while i < pairs.len()
        invariant
            i <= pairs@.len(),
            rs@ == regions_for(pairs@.subrange(0, i as int), *o),
        decreases pairs.len() - i,
    {
        assert(pairs@.subrange(0, i + 1).drop_last() =~= pairs@.subrange(0, i as int));
        if opaque_eq(&pairs[i].0, o) {
            rs.push(pairs[i].1);
        }
        i = i + 1;
    }
    assert(pairs@.subrange(0, pairs@.len() as int) =~= pairs@);
    rs
}

/// Pushes `Region(r)` for each `r` of `rs` that `visited` does not hold.
fn push_unvisited(
    rs: &Vec<PcgRegion>,
    visited: &Vec<GeneralizedLifetime>,
    queue: &mut Vec<GeneralizedLifetime>,
)
    ensures
        forall|j: int| 0 <= j < final(queue)@.len() ==> (j < old(queue)@.len() && #[trigger] final(queue)@[j] == old(queue)@[j])
            || (final(queue)@[j] matches GeneralizedLifetime::Region(r) && rs@.contains(r)),
        old(queue)@.len() <= final(queue)@.len(),
        forall|j: int| 0 <= j < old(queue)@.len() ==> #[trigger] final(queue)@[j] == old(queue)@[j],
        forall|r: PcgRegion| rs@.contains(r) ==> visited@.contains(GeneralizedLifetime::Region(r))
            || final(queue)@.contains(GeneralizedLifetime::Region(r)),
{
    let ghost q0 = queue@;
    let mut k: usize = 0;
    while k < rs.len()
        invariant
            k <= rs@.len(),
            q0.len() <= queue@.len(),
            forall|j: int| 0 <= j < q0.len() ==> #[trigger] queue@[j] == q0[j],
            forall|j: int| 0 <= j < queue@.len() ==> (j < q0.len() && #[trigger] queue@[j] == q0[j])
                || (queue@[j] matches GeneralizedLifetime::Region(r) && rs@.contains(r)),
            forall|m: int| 0 <= m < k ==> visited@.contains(GeneralizedLifetime::Region(#[trigger] rs@[m]))
                || queue@.contains(GeneralizedLifetime::Region(rs@[m])),
        decreases rs.len() - k,
    {
        let gl = GeneralizedLifetime::Region(rs[k]);
        let ghost before = queue@;
        if !contains_gl(visited, &gl) {
            queue.push(gl);
            assert(queue@[queue@.len() - 1] == GeneralizedLifetime::Region(rs@[k as int]));
            assert(rs@.contains(rs@[k as int]));
            assert forall|m: int| 0 <= m < k implies visited@.contains(GeneralizedLifetime::Region(#[trigger] rs@[m]))
                || queue@.contains(GeneralizedLifetime::Region(rs@[m])) by {
                if before.contains(GeneralizedLifetime::Region(rs@[m])) {
                    let w = choose|w: int| 0 <= w < before.len() && before[w] == GeneralizedLifetime::Region(rs@[m]);
                    assert(queue@[w] == before[w]);
                }
            }
            assert(queue@.contains(GeneralizedLifetime::Region(rs@[k as int])));
        }
        k = k + 1;
    }
    assert forall|r: PcgRegion| rs@.contains(r) implies visited@.contains(GeneralizedLifetime::Region(r))
        || queue@.contains(GeneralizedLifetime::Region(r)) by {
        let m = choose|m: int| 0 <= m < rs@.len() && rs@[m] == r;
        assert(visited@.contains(GeneralizedLifetime::Region(rs@[m])) || queue@.contains(GeneralizedLifetime::Region(rs@[m])));
    }
}

/// `g` is a node that the search from `sup` may visit.
pub open spec fn in_search(clauses: Seq<Clause>, input_tys: Seq<Ty>, sup: GeneralizedLifetime, g: GeneralizedLifetime) -> bool {
    g == sup || (g matches GeneralizedLifetime::Region(r) && reaches_region(clauses, input_tys, sup, r))
}

/// Every region that the search from `sup` reaches has been visited or is
/// waiting in the queue.
pub open spec fn search_closed(
    clauses: Seq<Clause>,
    input_tys: Seq<Ty>,
    sup: GeneralizedLifetime,
    visited: Seq<GeneralizedLifetime>,
    queue: Seq<GeneralizedLifetime>,
) -> bool {
    forall|r: PcgRegion| #[trigger] reaches_region(clauses, input_tys, sup, r)
        ==> visited.contains(GeneralizedLifetime::Region(r)) || queue.contains(GeneralizedLifetime::Region(r))
}

fn type_outlives_regions(clauses: &Vec<Clause>, o: &OpaqueTy) -> (rs: Vec<PcgRegion>)
    ensures
        forall|r: PcgRegion| rs@.contains(r) <==> has_type_outlives(clauses@, *o, r),
{
    let t = o.ty();
    let mut rs: Vec<PcgRegion> = Vec::new();
    let mut i: usize = 0;
    while i < clauses.len()
        invariant
            i <= clauses@.len(),
            t == opaque_ty(*o),
            forall|r: PcgRegion| rs@.contains(r) <==> exists|j: int| 0 <= j < i && #[trigger] bound_gives(clauses@[j], *o, r),
        decreases clauses.len() - i,
    {
        let ghost before = rs@;
        let mut pushed = false;
        if let Clause::TypeOutlives(ct, r, binds) = &clauses[i] {
            if !*binds && ty_eq(ct, &t) {
                rs.push(*r);
                pushed = true;
                assert forall|x: PcgRegion| rs@.contains(x) <==> (before.contains(x) || x == *r) by {
                    if rs@.contains(x) && x != *r {
                        let w = choose|w: int| 0 <= w < rs@.len() && rs@[w] == x;
                        assert(before[w] == x);
                    }
                    if before.contains(x) {
                        let w = choose|w: int| 0 <= w < before.len() && before[w] == x;
                        assert(rs@[w] == x);
                    }
                    if x == *r {
                        assert(rs@[rs@.len() - 1] == x);
                    }
                }
            }
        }
        proof {
            assert forall|x: PcgRegion| rs@.contains(x) <==> exists|j: int| 0 <= j < i + 1 && #[trigger] bound_gives(clauses@[j], *o, x) by {
                if bound_gives(clauses@[i as int], *o, x) {
                    assert(pushed);
                }
                if rs@.contains(x) && !before.contains(x) {
                    assert(bound_gives(clauses@[i as int], *o, x));
                }
                if exists|j: int| 0 <= j < i + 1 && #[trigger] bound_gives(clauses@[j], *o, x) {
                    let j = choose|j: int| 0 <= j < i + 1 && #[trigger] bound_gives(clauses@[j], *o, x);
                    if j < i {
                        assert(before.contains(x));
                        if pushed {
                            assert(rs@.contains(x));
                        }
                    }
                }
                if before.contains(x) {
                    let j = choose|j: int| 0 <= j < i && #[trigger] bound_gives(clauses@[j], *o, x);
                    assert(0 <= j < i + 1 && bound_gives(clauses@[j], *o, x));
                }
            }
        }
        i = i + 1;
    }
    rs
}

/// Whether `sup` outlives `sub` in the outlives graph of a signature whose
/// input types are `input_tys`. The graph has an edge from `RegionsIn(T)`
/// to `Region(r)` for each bound `T: 'r` of the environment, each implied
/// bound of an input type (`&'r T`), and each region occurring in `T`
/// itself; a search from `sup` finds `sub`, or, for a region `sub`, some
/// visited region is `'static` or outlives `sub` by the free-region map.
/// Trait bounds `T: Foo<'r>` give no edge.
pub fn generalized_outlives(
    sup: &GeneralizedLifetime,
    sub: &GeneralizedLifetime,
    outlives_env: &OutlivesEnvironment,
    input_tys: &Vec<Ty>,
) -> (b: bool)
    requires
        generalized_outlives_defined(*outlives_env, input_tys@, *sup, *sub),
    ensures
        b == generalized_outlives_spec(*outlives_env, input_tys@, *sup, *sub),
{
    let ghost clauses = outlives_env.caller_bounds@;
    let ghost tys = input_tys@;
    let implied = collect_implied_type_outlives(input_tys);
    let mut visited: Vec<GeneralizedLifetime> = Vec::new();
    let mut queue: Vec<GeneralizedLifetime> = Vec::new();
    queue.push(gl_dup(sup));
    while queue.len() > 0
        invariant
            clauses == outlives_env.caller_bounds@,
            tys == input_tys@,
            implied@ == add_absent(Seq::empty(), implied_pairs(tys)),
            forall|j: int| 0 <= j < queue@.len() ==> in_search(clauses, tys, *sup, #[trigger] queue@[j]),
            forall|j: int| 0 <= j < visited@.len() ==> in_search(clauses, tys, *sup, #[trigger] visited@[j]),
            !visited@.contains(*sub),
            (visited@.len() == 0 && queue@ == seq![*sup]) || (visited@.contains(*sup)
                && (forall|j: int| 0 <= j < queue@.len() ==> #[trigger] queue@[j] is Region)
                && search_closed(clauses, tys, *sup, visited@, queue@)),
        decreases (if visited@.len() == 0 { 1int } else { 0int }), queue@.len(),
    {
        let ghost q_old = queue@;
        let ghost v_old = visited@;
        let current = queue.pop().unwrap();
        assert(current == q_old.last());
        assert(in_search(clauses, tys, *sup, q_old[q_old.len() - 1]));
        if gl_eq(&current, sub) {
            return true;
        }
        if contains_gl(&visited, &current) {
            proof {
                if v_old.len() > 0 {
                    assert forall|r: PcgRegion| #[trigger] reaches_region(clauses, tys, *sup, r)
                        implies visited@.contains(GeneralizedLifetime::Region(r)) || queue@.contains(GeneralizedLifetime::Region(r)) by {
                        if q_old.contains(GeneralizedLifetime::Region(r)) && !visited@.contains(GeneralizedLifetime::Region(r)) {
                            let w = choose|w: int| 0 <= w < q_old.len() && q_old[w] == GeneralizedLifetime::Region(r);
                            if w == q_old.len() - 1 {
                                assert(false);
                            } else {
                                assert(queue@[w] == q_old[w]);
                            }
                        }
                    }
                } else {
                    assert(false);
                }
            }
            continue;
        }
        visited.push(gl_dup(&current));
        proof {
            assert forall|j: int| 0 <= j < visited@.len() implies in_search(clauses, tys, *sup, #[trigger] visited@[j]) by {
                if j < v_old.len() {
                    assert(visited@[j] == v_old[j]);
                }
            }
            assert(!visited@.contains(*sub)) by {
                if visited@.contains(*sub) {
                    let w = choose|w: int| 0 <= w < visited@.len() && visited@[w] == *sub;
                    if w < v_old.len() {
                        assert(v_old[w] == *sub);
                    }
                }
            }
        }
        match &current {
            GeneralizedLifetime::Region(_) => {
                proof {
                    if v_old.len() == 0 {
                        assert(current == *sup);
                        assert(visited@[0] == *sup);
                        assert forall|r: PcgRegion| #[trigger] reaches_region(clauses, tys, *sup, r)
                            implies visited@.contains(GeneralizedLifetime::Region(r)) by {
                            assert(visited@[0] == GeneralizedLifetime::Region(r));
                        }
                    } else {
                        assert(visited@[v_old.len() as int] == current);
                        assert forall|x: GeneralizedLifetime| v_old.contains(x) implies visited@.contains(x) by {
                            let w = choose|w: int| 0 <= w < v_old.len() && v_old[w] == x;
                            assert(visited@[w] == x);
                        }
                        assert forall|r: PcgRegion| #[trigger] reaches_region(clauses, tys, *sup, r)
                            implies visited@.contains(GeneralizedLifetime::Region(r)) || queue@.contains(GeneralizedLifetime::Region(r)) by {
                            if q_old.contains(GeneralizedLifetime::Region(r)) && !v_old.contains(GeneralizedLifetime::Region(r)) {
                                let w = choose|w: int| 0 <= w < q_old.len() && q_old[w] == GeneralizedLifetime::Region(r);
                                if w == q_old.len() - 1 {
                                    assert(visited@[v_old.len() as int] == GeneralizedLifetime::Region(r));
                                } else {
                                    assert(queue@[w] == q_old[w]);
                                }
                            }
                        }
                    }
                    assert forall|j: int| 0 <= j < queue@.len() implies #[trigger] queue@[j] is Region by {
                        assert(queue@[j] == q_old[j]);
                    }
                }
            },
            GeneralizedLifetime::RegionsIn(o) => {
                proof {
                    if v_old.len() > 0 {
                        assert(q_old[q_old.len() - 1] is Region);
                    }
                    assert(current == *sup);
                    assert(queue@.len() == 0);
                    assert(visited@[0] == *sup);
                }
                let from_bounds = type_outlives_regions(&outlives_env.caller_bounds, o);
                let from_implied = regions_of_pairs(&implied, o);
                let own = extract_regions(&o.ty());
                push_unvisited(&from_bounds, &visited, &mut queue);
                let ghost q1 = queue@;
                push_unvisited(&from_implied, &visited, &mut queue);
                let ghost q2 = queue@;
                push_unvisited(&own, &visited, &mut queue);
                proof {
                    assert forall|j: int| 0 <= j < queue@.len() implies in_search(clauses, tys, *sup, #[trigger] queue@[j])
                        && queue@[j] is Region by {
                        if j < q2.len() {
                            assert(queue@[j] == q2[j]);
                            if j < q1.len() {
                                assert(q2[j] == q1[j]);
                            }
                        }
                    }
                    assert forall|r: PcgRegion| #[trigger] reaches_region(clauses, tys, *sup, r)
                        implies visited@.contains(GeneralizedLifetime::Region(r)) || queue@.contains(GeneralizedLifetime::Region(r)) by {
                        assert(outlives_edge(clauses, tys, *o, r));
                        if from_bounds@.contains(r) {
                            if q1.contains(GeneralizedLifetime::Region(r)) {
                                let w = choose|w: int| 0 <= w < q1.len() && q1[w] == GeneralizedLifetime::Region(r);
                                assert(q2[w] == q1[w]);
                                assert(queue@[w] == q2[w]);
                            }
                        } else if from_implied@.contains(r) {
                            if q2.contains(GeneralizedLifetime::Region(r)) {
                                let w = choose|w: int| 0 <= w < q2.len() && q2[w] == GeneralizedLifetime::Region(r);
                                assert(queue@[w] == q2[w]);
                            }
                        } else {
                            assert(own@.contains(r));
                        }
                    }
                }
            },
        }
    }
    proof {
        assert(visited@.contains(*sup));
    }
    match sub {
        GeneralizedLifetime::Region(s) => {
            proof {
                if reaches_region(clauses, tys, *sup, *s) {
                    match sup {
                        GeneralizedLifetime::Region(r0) => {},
                        GeneralizedLifetime::RegionsIn(o) => {
                            assert(outlives_edge(clauses, tys, *o, *s));
                        },
                    }
                    assert(false);
                }
            }
            let s_free = contains_region(&outlives_env.free_regions, *s);
            let mut i: usize = 0;
            while i < visited.len()
                invariant
                    i <= visited@.len(),
                    clauses == outlives_env.caller_bounds@,
                    tys == input_tys@,
                    s_free == outlives_env.free_regions@.contains(*s),
                    *sub == GeneralizedLifetime::Region(*s),
                    forall|j: int| 0 <= j < visited@.len() ==> in_search(clauses, tys, *sup, #[trigger] visited@[j]),
                    forall|j: int| 0 <= j < i ==> !(#[trigger] visited@[j] matches GeneralizedLifetime::Region(r)
                        && region_outlives_free(*outlives_env, r, *s)),
                decreases visited.len() - i,
            {
                if let GeneralizedLifetime::Region(r) = &visited[i] {
                    if r.is_static() || (s_free && contains_region(&outlives_env.free_regions, *r)
                        && contains_region_pair(&outlives_env.free_region_pairs, *s, *r)) {
                        proof {
                            assert(in_search(clauses, tys, *sup, visited@[i as int]));
                            if visited@[i as int] == *sup {
                                assert(reaches_region(clauses, tys, *sup, *r));
                            }
                            assert(reaches_region(clauses, tys, *sup, *r));
                            assert(region_outlives_free(*outlives_env, *r, *s));
                            assert(*sub == GeneralizedLifetime::Region(*s));
                        }
                        return true;
                    }
                }
                i = i + 1;
            }
            proof {
                assert forall|r: PcgRegion| #[trigger] reaches_region(clauses, tys, *sup, r)
                    implies !region_outlives_free(*outlives_env, r, *s) by {
                    match sup {
                        GeneralizedLifetime::Region(r0) => {
                            assert(visited@.contains(*sup));
                        },
                        GeneralizedLifetime::RegionsIn(o) => {
                            assert(outlives_edge(clauses, tys, *o, r));
                            assert(visited@.contains(GeneralizedLifetime::Region(r)));
                        },
                    }
                    assert(visited@.contains(GeneralizedLifetime::Region(r)));
                    let w = choose|w: int| 0 <= w < visited@.len() && visited@[w] == GeneralizedLifetime::Region(r);
                    assert(!(visited@[w] matches GeneralizedLifetime::Region(x) && region_outlives_free(*outlives_env, x, *s)));
                }
            }
            false
        },
        GeneralizedLifetime::RegionsIn(_) => false,
    }
}

/// A signature: the types of its inputs and of its output.
pub struct FnSig {
    pub inputs: Vec<Ty>,
    pub output: Ty,
}

/// The map that inserting the pairs of `s` one after the other into an
/// empty map gives: a later pair for a key replaces an earlier one.
pub open spec fn map_of<K, V>(s: Seq<(K, V)>) -> Map<K, V>
    decreases s.len(),
{
    if s.len() == 0 {
        Map::empty()
    } else {
        map_of(s.drop_last()).insert(s.last().0, s.last().1)
    }
}

/// The pairs of corresponding elements of two sequences, up to the end of
/// the shorter one.
pub open spec fn zip_seq<A, B>(a: Seq<A>, b: Seq<B>) -> Seq<(A, B)> {
    Seq::new(if a.len() <= b.len() { a.len() } else { b.len() }, |j: int| (a[j], b[j]))
}

/// The pairs of regions at the same positions in two types (see
/// `regions_of`).
pub open spec fn region_pairs(call_ty: Ty, sig_ty: Ty) -> Seq<(PcgRegion, PcgRegion)> {
    zip_seq(regions_of(call_ty), regions_of(sig_ty))
}

/// The pairs of regions at the same positions in the first `n` types of
/// two lists, type by type.
pub open spec fn input_region_pairs(call_tys: Seq<Ty>, sig_tys: Seq<Ty>, n: nat) -> Seq<(PcgRegion, PcgRegion)>
    decreases n,
{
    if n == 0 {
        Seq::empty()
    } else {
        input_region_pairs(call_tys, sig_tys, (n - 1) as nat) + region_pairs(call_tys[n - 1], sig_tys[n - 1])
    }
}

/// The smaller of two lengths.
pub open spec fn min_len(a: nat, b: nat) -> nat {
    if a <= b { a } else { b }
}

/// The pairs that map the regions of a call to those of the normalised
/// signature: the inputs position by position, then the result.
pub open spec fn call_region_pairs(call_tys: Seq<Ty>, call_result_ty: Ty, sig: FnSig) -> Seq<(PcgRegion, PcgRegion)> {
    input_region_pairs(call_tys, sig.inputs@, min_len(call_tys.len(), sig.inputs@.len()))
        + region_pairs(call_result_ty, sig.output)
}

/// How a normalised type's regions map to the generalized lifetimes of the
/// identity type at the same position: every region of a type that stands
/// where the identity type has a type parameter or an alias maps to
/// `RegionsIn` of it; references, ADTs of the same definition (argument by
/// argument), tuples, slices, arrays and raw pointers are walked in
/// parallel; the region of a reference or trait object maps to the identity
/// type's region.
pub open spec fn align_pairs(norm: Ty, id: Ty) -> Seq<(PcgRegion, GeneralizedLifetime)>
    decreases norm,
{
    match id {
        Ty::Param(p) => regions_of(norm).map_values(|r: PcgRegion| (r, GeneralizedLifetime::RegionsIn(OpaqueTy::Param(p)))),
        Ty::Alias(a) => regions_of(norm).map_values(|r: PcgRegion| (r, GeneralizedLifetime::RegionsIn(OpaqueTy::Alias(a)))),
        _ => match norm {
            Ty::Ref(nr, ni, _) => match id {
                Ty::Ref(ir, ii, _) => seq![(nr, GeneralizedLifetime::Region(ir))] + align_pairs(*ni, *ii),
                _ => Seq::empty(),
            },
            Ty::Adt(nd, na) => match id {
                Ty::Adt(idd, ia) => if nd == idd { align_args(*na, *ia) } else { Seq::empty() },
                _ => Seq::empty(),
            },
            Ty::Tuple(nl) => match id {
                Ty::Tuple(il) => align_list(*nl, *il),
                _ => Seq::empty(),
            },
            Ty::Slice(ni) => match id {
                Ty::Slice(ii) => align_pairs(*ni, *ii),
                _ => Seq::empty(),
            },
            Ty::Array(ni) => match id {
                Ty::Array(ii) => align_pairs(*ni, *ii),
                _ => Seq::empty(),
            },
            Ty::RawPtr(ni, _) => match id {
                Ty::RawPtr(ii, _) => align_pairs(*ni, *ii),
                _ => Seq::empty(),
            },
            Ty::Dynamic(nr) => match id {
                Ty::Dynamic(ir) => seq![(nr, GeneralizedLifetime::Region(ir))],
                _ => Seq::empty(),
            },
            _ => Seq::empty(),
        },
    }
}

/// Generic arguments walked in parallel, up to the shorter list: a region
/// facing a region maps to it; a type facing a type is aligned with it.
pub open spec fn align_args(norm: ArgList, id: ArgList) -> Seq<(PcgRegion, GeneralizedLifetime)>
    decreases norm,
{
    match norm {
        ArgList::Nil => Seq::empty(),
        ArgList::Region(nr, nt) => match id {
            ArgList::Nil => Seq::empty(),
            ArgList::Region(ir, it) => seq![(nr, GeneralizedLifetime::Region(ir))] + align_args(*nt, *it),
            ArgList::Type(_, it) => align_args(*nt, *it),
            ArgList::Const(it) => align_args(*nt, *it),
        },
        ArgList::Type(nh, nt) => match id {
            ArgList::Nil => Seq::empty(),
            ArgList::Type(ih, it) => align_pairs(*nh, *ih) + align_args(*nt, *it),
            ArgList::Region(_, it) => align_args(*nt, *it),
            ArgList::Const(it) => align_args(*nt, *it),
        },
        ArgList::Const(nt) => match id {
            ArgList::Nil => Seq::empty(),
            ArgList::Region(_, it) => align_args(*nt, *it),
            ArgList::Type(_, it) => align_args(*nt, *it),
            ArgList::Const(it) => align_args(*nt, *it),
        },
    }
}

/// Lists of types walked in parallel, up to the shorter list.
pub open spec fn align_list(norm: TyList, id: TyList) -> Seq<(PcgRegion, GeneralizedLifetime)>
    decreases norm,
{
    match norm {
        TyList::Nil => Seq::empty(),
        TyList::Cons(nh, nt) => match id {
            TyList::Nil => Seq::empty(),
            TyList::Cons(ih, it) => align_pairs(*nh, *ih) + align_list(*nt, *it),
        },
    }
}

/// The alignment of the first `n` types of two lists, type by type.
pub open spec fn align_inputs(norm: Seq<Ty>, id: Seq<Ty>, n: nat) -> Seq<(PcgRegion, GeneralizedLifetime)>
    decreases n,
{
    if n == 0 {
        Seq::empty()
    } else {
        align_inputs(norm, id, (n - 1) as nat) + align_pairs(norm[n - 1], id[n - 1])
    }
}

/// The pairs that map the regions of the normalised signature to the
/// generalized lifetimes of the identity signature: the inputs position by
/// position, then the output.
pub open spec fn sig_align_pairs(norm: FnSig, id: FnSig) -> Seq<(PcgRegion, GeneralizedLifetime)> {
    align_inputs(norm.inputs@, id.inputs@, min_len(norm.inputs@.len(), id.inputs@.len()))
        + align_pairs(norm.output, id.output)
}

/// The map of a sequence of pairs holds, for a key, the value of its last
/// pair with that key, and nothing for a key that no pair has.
pub proof fn lemma_map_of_lookup<K, V>(s: Seq<(K, V)>, k: K)
    ensures
        map_of(s).dom().contains(k) <==> exists|j: int| 0 <= j < s.len() && #[trigger] s[j].0 == k,
        forall|j: int| 0 <= j < s.len() && s[j].0 == k && (forall|m: int| j < m < s.len() ==> #[trigger] s[m].0 != k)
            ==> map_of(s)[k] == #[trigger] s[j].1,
    decreases s.len(),
{
    if s.len() > 0 {
        let p = s.drop_last();
        lemma_map_of_lookup(p, k);
        assert forall|j: int| 0 <= j < p.len() implies #[trigger] p[j] == s[j] by {}
        if exists|j: int| 0 <= j < s.len() && #[trigger] s[j].0 == k {
            let j = choose|j: int| 0 <= j < s.len() && #[trigger] s[j].0 == k;
            if j < p.len() {
                assert(p[j].0 == k);
            }
        }
        if exists|j: int| 0 <= j < p.len() && #[trigger] p[j].0 == k {
            let j = choose|j: int| 0 <= j < p.len() && #[trigger] p[j].0 == k;
            assert(s[j].0 == k);
        }
        assert forall|j: int| 0 <= j < s.len() && s[j].0 == k && (forall|m: int| j < m < s.len() ==> #[trigger] s[m].0 != k)
            implies map_of(s)[k] == #[trigger] s[j].1 by {
            if j < p.len() {
                assert(s[s.len() - 1].0 != k);
                assert(p[j].0 == k);
                assert forall|m: int| j < m < p.len() implies #[trigger] p[m].0 != k by {
                    assert(s[m].0 != k);
                }
            }
        }
    }
}

fn lookup_region(log: &Vec<(PcgRegion, PcgRegion)>, r: PcgRegion) -> (v: Option<PcgRegion>)
    ensures
        v == (if map_of(log@).dom().contains(r) { Some(map_of(log@)[r]) } else { None::<PcgRegion> }),
{
    proof {
        lemma_map_of_lookup(log@, r);
    }
    let mut i: usize = log.len();
    while i > 0
        invariant
            i <= log@.len(),
            forall|m: int| i <= m < log@.len() ==> #[trigger] log@[m].0 != r,
        decreases i,
    {
        if log[i - 1].0 == r {
            proof {
                let j = i - 1;
                lemma_map_of_lookup(log@, r);
                assert(log@[j as int].0 == r);
                assert(forall|m: int| j < m < log@.len() ==> #[trigger] log@[m].0 != r);
                assert(map_of(log@)[r] == log@[j as int].1);
            }
            return Some(log[i - 1].1);
        }
        i = i - 1;
    }
    None
}

fn lookup_generalized(log: &Vec<(PcgRegion, GeneralizedLifetime)>, r: PcgRegion) -> (v: Option<GeneralizedLifetime>)
    ensures
        v == (if map_of(log@).dom().contains(r) { Some(map_of(log@)[r]) } else { None::<GeneralizedLifetime> }),
{
    proof {
        lemma_map_of_lookup(log@, r);
    }
    let mut i: usize = log.len();
    while i > 0
        invariant
            i <= log@.len(),
            forall|m: int| i <= m < log@.len() ==> #[trigger] log@[m].0 != r,
        decreases i,
    {
        if log[i - 1].0 == r {
            proof {
                let j = i - 1;
                lemma_map_of_lookup(log@, r);
                assert(log@[j as int].0 == r);
                assert(forall|m: int| j < m < log@.len() ==> #[trigger] log@[m].0 != r);
                assert(map_of(log@)[r] == log@[j as int].1);
            }
            return Some(gl_dup(&log[i - 1].1));
        }
        i = i - 1;
    }
    None
}

fn push_region_pairs(call_ty: &Ty, sig_ty: &Ty, log: &mut Vec<(PcgRegion, PcgRegion)>)
    ensures
        final(log)@ == old(log)@ + region_pairs(*call_ty, *sig_ty),
{
    let call_regions = extract_regions(call_ty);
    let sig_regions = extract_regions(sig_ty);
    let ghost l0 = log@;
    let n = if call_regions.len() <= sig_regions.len() { call_regions.len() } else { sig_regions.len() };
    let mut j: usize = 0;
    while j < n
        invariant
            j <= n,
            n == min_len(call_regions@.len(), sig_regions@.len()),
            call_regions@ == regions_of(*call_ty),
            sig_regions@ == regions_of(*sig_ty),
            log@ == l0 + region_pairs(*call_ty, *sig_ty).subrange(0, j as int),
        decreases n - j,
    {
        log.push((call_regions[j], sig_regions[j]));
        assert(region_pairs(*call_ty, *sig_ty).subrange(0, j + 1)
            =~= region_pairs(*call_ty, *sig_ty).subrange(0, j as int).push((call_regions@[j as int], sig_regions@[j as int])));
        j = j + 1;
    }
    assert(region_pairs(*call_ty, *sig_ty).subrange(0, n as int) =~= region_pairs(*call_ty, *sig_ty));
}

/// The map from the regions of a call to those of the callee's normalised
/// signature, as pairs in insertion order (see `map_of`): the regions of
/// each argument type and of the result type, position by position, against
/// those of the signature's type at the same place.
pub fn build_region_map(call_tys: &Vec<Ty>, call_result_ty: &Ty, normalized_sig: &FnSig) -> (log: Vec<(PcgRegion, PcgRegion)>)
    ensures
        log@ == call_region_pairs(call_tys@, *call_result_ty, *normalized_sig),
{
    let mut log: Vec<(PcgRegion, PcgRegion)> = Vec::new();
    let n = if call_tys.len() <= normalized_sig.inputs.len() { call_tys.len() } else { normalized_sig.inputs.len() };
    let mut i: usize = 0;
    while i < n
        invariant
            i <= n,
            n == min_len(call_tys@.len(), normalized_sig.inputs@.len()),
            log@ == input_region_pairs(call_tys@, normalized_sig.inputs@, i as nat),
        decreases n - i,
    {
        push_region_pairs(&call_tys[i], &normalized_sig.inputs[i], &mut log);
        i = i + 1;
    }
    push_region_pairs(call_result_ty, &normalized_sig.output, &mut log);
    log
}

fn push_regions_in(norm_ty: &Ty, o: OpaqueTy, map: &mut Vec<(PcgRegion, GeneralizedLifetime)>)
    ensures
        final(map)@ == old(map)@ + regions_of(*norm_ty).map_values(|r: PcgRegion| (r, GeneralizedLifetime::RegionsIn(o))),
{
    let rs = extract_regions(norm_ty);
    let ghost m0 = map@;
    let ghost target = regions_of(*norm_ty).map_values(|r: PcgRegion| (r, GeneralizedLifetime::RegionsIn(o)));
    let mut j: usize = 0;
    while j < rs.len()
        invariant
            j <= rs@.len(),
            rs@ == regions_of(*norm_ty),
            target == regions_of(*norm_ty).map_values(|r: PcgRegion| (r, GeneralizedLifetime::RegionsIn(o))),
            map@ == m0 + target.subrange(0, j as int),
        decreases rs.len() - j,
    {
        map.push((rs[j], GeneralizedLifetime::RegionsIn(opaque_dup(&o))));
        assert(target.subrange(0, j + 1) =~= target.subrange(0, j as int).push(target[j as int]));
        j = j + 1;
    }
    assert(target.subrange(0, rs@.len() as int) =~= target);
}

/// Walks a normalised type and an identity type in parallel and records
/// which generalized lifetime of the identity type each region of the
/// normalised type maps to (see `align_pairs`); later pairs for a region
/// replace earlier ones.
pub fn align_regions_to_generalized(norm_ty: &Ty, id_ty: &Ty, map: &mut Vec<(PcgRegion, GeneralizedLifetime)>)
    ensures
        final(map)@ == old(map)@ + align_pairs(*norm_ty, *id_ty),
    decreases norm_ty,
{
    let ghost m0 = map@;
    match id_ty {
        Ty::Param(p) => {
            push_regions_in(norm_ty, OpaqueTy::Param(*p), map);
            return;
        },
        Ty::Alias(a) => {
            push_regions_in(norm_ty, OpaqueTy::Alias(alias_dup(a)), map);
            return;
        },
        _ => {},
    }
    match (norm_ty, id_ty) {
        (Ty::Ref(nr, ni, _), Ty::Ref(ir, ii, _)) => {
            map.push((*nr, GeneralizedLifetime::Region(*ir)));
            align_regions_to_generalized(ni, ii, map);
            assert(map@ =~= m0 + align_pairs(*norm_ty, *id_ty));
        },
        (Ty::Adt(nd, na), Ty::Adt(idd, ia)) => {
            if *nd == *idd {
                align_args_to_generalized(na, ia, map);
            } else {
                assert(map@ =~= m0 + align_pairs(*norm_ty, *id_ty));
            }
        },
        (Ty::Tuple(nl), Ty::Tuple(il)) => align_list_to_generalized(nl, il, map),
        (Ty::Slice(ni), Ty::Slice(ii)) => align_regions_to_generalized(ni, ii, map),
        (Ty::Array(ni), Ty::Array(ii)) => align_regions_to_generalized(ni, ii, map),
        (Ty::RawPtr(ni, _), Ty::RawPtr(ii, _)) => align_regions_to_generalized(ni, ii, map),
        (Ty::Dynamic(nr), Ty::Dynamic(ir)) => {
            map.push((*nr, GeneralizedLifetime::Region(*ir)));
            assert(map@ =~= m0 + align_pairs(*norm_ty, *id_ty));
        },
        _ => {
            assert(align_pairs(*norm_ty, *id_ty) =~= Seq::<(PcgRegion, GeneralizedLifetime)>::empty());
            assert(map@ =~= m0 + align_pairs(*norm_ty, *id_ty));
        },
    }
}

fn align_args_to_generalized(norm: &ArgList, id: &ArgList, map: &mut Vec<(PcgRegion, GeneralizedLifetime)>)
    ensures
        final(map)@ == old(map)@ + align_args(*norm, *id),
    decreases norm,
{
    let ghost m0 = map@;
    match (norm, id) {
        (ArgList::Region(nr, nt), ArgList::Region(ir, it)) => {
            map.push((*nr, GeneralizedLifetime::Region(*ir)));
            align_args_to_generalized(nt, it, map);
            assert(map@ =~= m0 + align_args(*norm, *id));
        },
        (ArgList::Type(nh, nt), ArgList::Type(ih, it)) => {
            align_regions_to_generalized(nh, ih, map);
            align_args_to_generalized(nt, it, map);
            assert(map@ =~= m0 + align_args(*norm, *id));
        },
        (ArgList::Nil, _) => {
            assert(map@ =~= m0 + align_args(*norm, *id));
        },
        (_, ArgList::Nil) => {
            assert(align_args(*norm, *id) =~= Seq::<(PcgRegion, GeneralizedLifetime)>::empty());
            assert(map@ =~= m0 + align_args(*norm, *id));
        },
        (ArgList::Region(_, nt), ArgList::Type(_, it)) => align_args_to_generalized(nt, it, map),
        (ArgList::Region(_, nt), ArgList::Const(it)) => align_args_to_generalized(nt, it, map),
        (ArgList::Type(_, nt), ArgList::Region(_, it)) => align_args_to_generalized(nt, it, map),
        (ArgList::Type(_, nt), ArgList::Const(it)) => align_args_to_generalized(nt, it, map),
        (ArgList::Const(nt), ArgList::Region(_, it)) => align_args_to_generalized(nt, it, map),
        (ArgList::Const(nt), ArgList::Type(_, it)) => align_args_to_generalized(nt, it, map),
        (ArgList::Const(nt), ArgList::Const(it)) => align_args_to_generalized(nt, it, map),
    }
}

fn align_list_to_generalized(norm: &TyList, id: &TyList, map: &mut Vec<(PcgRegion, GeneralizedLifetime)>)
    ensures
        final(map)@ == old(map)@ + align_list(*norm, *id),
    decreases norm,
{
    let ghost m0 = map@;
    match (norm, id) {
        (TyList::Cons(nh, nt), TyList::Cons(ih, it)) => {
            align_regions_to_generalized(nh, ih, map);
            align_list_to_generalized(nt, it, map);
            assert(map@ =~= m0 + align_list(*norm, *id));
        },
        _ => {
            assert(align_list(*norm, *id) =~= Seq::<(PcgRegion, GeneralizedLifetime)>::empty());
            assert(map@ =~= m0 + align_list(*norm, *id));
        },
    }
}

/// The map from the regions of the callee's normalised signature to the
/// generalized lifetimes of its identity signature, as pairs in insertion
/// order (see `map_of`): the inputs aligned position by position, then the
/// output.
pub fn build_norm_to_generalized_map(normalized_sig: &FnSig, identity_sig: &FnSig) -> (log: Vec<(PcgRegion, GeneralizedLifetime)>)
    ensures
        log@ == sig_align_pairs(*normalized_sig, *identity_sig),
{
    let mut log: Vec<(PcgRegion, GeneralizedLifetime)> = Vec::new();
    let n = if normalized_sig.inputs.len() <= identity_sig.inputs.len() {
        normalized_sig.inputs.len()
    } else {
        identity_sig.inputs.len()
    };
    let mut i: usize = 0;
    while i < n
        invariant
            i <= n,
            n == min_len(normalized_sig.inputs@.len(), identity_sig.inputs@.len()),
            log@ == align_inputs(normalized_sig.inputs@, identity_sig.inputs@, i as nat),
        decreases n - i,
    {
        align_regions_to_generalized(&normalized_sig.inputs[i], &identity_sig.inputs[i], &mut log);
        i = i + 1;
    }
    align_regions_to_generalized(&normalized_sig.output, &identity_sig.output, &mut log);
    log
}

/// The index of the first argument of `a` that is the region `r`.
pub open spec fn region_position(a: ArgList, r: PcgRegion) -> Option<nat>
    decreases a,
{
    match a {
        ArgList::Nil => None,
        ArgList::Region(x, t) => if x == r {
            Some(0)
        } else {
            match region_position(*t, r) {
                Some(i) => Some(i + 1),
                None => None,
            }
        },
        ArgList::Type(_, t) => match region_position(*t, r) {
            Some(i) => Some(i + 1),
            None => None,
        },
        ArgList::Const(t) => match region_position(*t, r) {
            Some(i) => Some(i + 1),
            None => None,
        },
    }
}

/// The argument at index `i` of `a`, if it is a region.
pub open spec fn region_at(a: ArgList, i: nat) -> Option<PcgRegion>
    decreases a,
{
    match a {
        ArgList::Nil => None,
        ArgList::Region(x, t) => if i == 0 { Some(x) } else { region_at(*t, (i - 1) as nat) },
        ArgList::Type(_, t) => if i == 0 { None } else { region_at(*t, (i - 1) as nat) },
        ArgList::Const(t) => if i == 0 { None } else { region_at(*t, (i - 1) as nat) },
    }
}

/// The region of `identity` at the position of the first occurrence of the
/// region `r` in `caller`: `None` if `r` does not occur; `Some(None)` if
/// the identity arguments have no region there.
pub open spec fn corresponding_region(caller: ArgList, identity: ArgList, r: PcgRegion) -> Option<Option<PcgRegion>> {
    match region_position(caller, r) {
        Some(i) => Some(region_at(identity, i)),
        None => None,
    }
}

fn find_corresponding_region(caller: &ArgList, identity: &ArgList, r: PcgRegion) -> (res: Option<Option<PcgRegion>>)
    ensures
        res == corresponding_region(*caller, *identity, r),
    decreases caller,
{
    let id_head: Option<PcgRegion> = match identity {
        ArgList::Region(x, _) => Some(*x),
        _ => None,
    };
    let next_id: ArgList = match identity {
        ArgList::Nil => ArgList::Nil,
        ArgList::Region(_, t) => args_dup(t),
        ArgList::Type(_, t) => args_dup(t),
        ArgList::Const(t) => args_dup(t),
    };
    proof {
        assert forall|i: nat| i > 0 implies region_at(*identity, i) == region_at(next_id, (i - 1) as nat) by {
            match identity {
                ArgList::Nil => {
                    assert(region_at(next_id, (i - 1) as nat) == None::<PcgRegion>) by {
                        lemma_region_at_nil((i - 1) as nat);
                    }
                },
                _ => {},
            }
        }
        assert(region_at(*identity, 0) == id_head);
    }
    match caller {
        ArgList::Nil => None,
        ArgList::Region(x, t) => {
            if *x == r {
                Some(id_head)
            } else {
                find_corresponding_region(t, &next_id, r)
            }
        },
        ArgList::Type(_, t) => find_corresponding_region(t, &next_id, r),
        ArgList::Const(t) => find_corresponding_region(t, &next_id, r),
    }
}

proof fn lemma_region_at_nil(i: nat)
    ensures
        region_at(ArgList::Nil, i) == None::<PcgRegion>,
{
}

/// The normalised signature's region `r` as a generalized lifetime of the
/// callee's identity signature: late-bound and early-bound parameters and
/// `'static` stand for themselves; a region variable maps by the structural
/// map, else to the identity argument at the position where the caller's
/// arguments first hold it; other regions map to nothing.
pub open spec fn normalized_to_identity_spec(
    norm_map: Map<PcgRegion, GeneralizedLifetime>,
    caller_substs: ArgList,
    identity_substs: ArgList,
    r: PcgRegion,
) -> Option<GeneralizedLifetime> {
    match r {
        PcgRegion::ReLateParam(_) => Some(GeneralizedLifetime::Region(r)),
        PcgRegion::ReStatic => Some(GeneralizedLifetime::Region(r)),
        PcgRegion::ReEarlyParam(_) => Some(GeneralizedLifetime::Region(r)),
        PcgRegion::RegionVid(_) => if norm_map.dom().contains(r) {
            Some(norm_map[r])
        } else {
            match corresponding_region(caller_substs, identity_substs, r) {
                Some(found) => Some(GeneralizedLifetime::Region(found.unwrap())),
                None => None,
            }
        },
        _ => None,
    }
}

/// Where the identity arguments hold no region at the position found for a
/// region variable that the structural map does not know, the lookup fails.
pub open spec fn normalized_to_identity_defined(
    norm_map: Map<PcgRegion, GeneralizedLifetime>,
    caller_substs: ArgList,
    identity_substs: ArgList,
    r: PcgRegion,
) -> bool {
    (r is RegionVid && !norm_map.dom().contains(r)) ==> match corresponding_region(caller_substs, identity_substs, r) {
        Some(found) => found is Some,
        None => true,
    }
}

/// A call of a defined function with the types of its arguments and of its
/// result at the call site.
pub struct DefinedFnCallWithCallTys {
    pub defined_fn_call: DefinedFnCall,
    pub call_arg_tys: Vec<Ty>,
    pub call_result_ty: Ty,
}

impl DefinedFnCallWithCallTys {
    /// The call `defined_fn_call` with argument types `arg_tys` and result
    /// type `result_ty`.
    pub fn new(defined_fn_call: DefinedFnCall, arg_tys: Vec<Ty>, result_ty: Ty) -> (c: DefinedFnCallWithCallTys)
        ensures
            c.defined_fn_call == defined_fn_call,
            c.call_arg_tys@ == arg_tys@,
            c.call_result_ty == result_ty,
    {
        DefinedFnCallWithCallTys { defined_fn_call, call_arg_tys: arg_tys, call_result_ty: result_ty }
    }

    /// The called function.
    pub fn fn_def_id(&self) -> (d: DefId)
        ensures
            d == self.defined_fn_call.function_data.def_id,
    {
        self.defined_fn_call.function_data.def_id
    }

    /// The generic arguments of the call, by number.
    pub fn caller_substs(&self) -> (s: usize)
        ensures
            s == self.defined_fn_call.caller_substs,
    {
        self.defined_fn_call.caller_substs
    }
}

/// The data that decides outlives between the regions of a call to a
/// defined function: the call with its argument and result types, the
/// generic arguments of the call and those of the callee's own type, the callee's
/// identity signature, the maps from the call's regions to the normalised
/// signature's and from those to the identity signature's generalized
/// lifetimes (pairs in insertion order, see `map_of`), and the callee's
/// outlives environment.
pub struct DefinedFnCallShapeDataSource {
    pub call: DefinedFnCallWithCallTys,
    pub caller_substs: ArgList,
    pub identity_substs: ArgList,
    pub identity_sig: FnSig,
    pub region_map: Vec<(PcgRegion, PcgRegion)>,
    pub norm_to_generalized_map: Vec<(PcgRegion, GeneralizedLifetime)>,
    pub outlives: OutlivesEnvironment,
}

/// The generalized lifetimes that a call's result may hold when the
/// callee's identity result type is the type parameter `bg` stands for:
/// those of the parameter with its trait bounds, then those of each input
/// of the identity signature; nothing for any other `bg`.
pub open spec fn result_candidates(ds: DefinedFnCallShapeDataSource, bg: GeneralizedLifetime) -> Seq<GeneralizedLifetime> {
    let tb = trait_bound_pairs(ds.outlives.caller_bounds@);
    match bg {
        GeneralizedLifetime::RegionsIn(o) => if o is Param && opaque_ty(o) == ds.identity_sig.output {
            add_absent(Seq::empty(), ty_gls(opaque_ty(o), tb)) + inputs_gls(ds.identity_sig.inputs@, tb, ds.identity_sig.inputs@.len())
        } else {
            Seq::empty()
        },
        _ => Seq::empty(),
    }
}

/// The generalized lifetimes of the first `n` types of a list, type by
/// type, each list without repetitions.
pub open spec fn inputs_gls(tys: Seq<Ty>, tb: Seq<(OpaqueTy, PcgRegion)>, n: nat) -> Seq<GeneralizedLifetime>
    decreases n,
{
    if n == 0 {
        Seq::empty()
    } else {
        inputs_gls(tys, tb, (n - 1) as nat) + add_absent(Seq::empty(), ty_gls(tys[n - 1], tb))
    }
}

/// `g` is a region that `sg` outlives in the identity signature's graph.
pub open spec fn candidate_outlives(ds: DefinedFnCallShapeDataSource, sg: GeneralizedLifetime, g: GeneralizedLifetime) -> bool {
    g is Region && generalized_outlives_spec(ds.outlives, ds.identity_sig.inputs@, sg, g)
}

/// Each candidate region that the search would reach, before one has been
/// found to be outlived, is one that the graph search is defined on.
pub open spec fn candidates_defined(ds: DefinedFnCallShapeDataSource, sg: GeneralizedLifetime, cands: Seq<GeneralizedLifetime>) -> bool {
    forall|k: int| 0 <= k < cands.len() && #[trigger] cands[k] is Region
        && (forall|j: int| 0 <= j < k ==> !candidate_outlives(ds, sg, #[trigger] cands[j]))
        ==> generalized_outlives_defined(ds.outlives, ds.identity_sig.inputs@, sg, cands[k])
}

/// The identity-signature lifetimes of the call's regions `sup` and `sub`,
/// where both have one.
pub open spec fn call_gls(ds: DefinedFnCallShapeDataSource, sup: PcgRegion, sub: PcgRegion) -> Option<(GeneralizedLifetime, GeneralizedLifetime)> {
    let rm = map_of(ds.region_map@);
    let nm = map_of(ds.norm_to_generalized_map@);
    if rm.dom().contains(sup) && rm.dom().contains(sub) {
        match (normalized_to_identity_spec(nm, ds.caller_substs, ds.identity_substs, rm[sup]),
            normalized_to_identity_spec(nm, ds.caller_substs, ds.identity_substs, rm[sub])) {
            (Some(sg), Some(bg)) => Some((sg, bg)),
            _ => None,
        }
    } else {
        None
    }
}

/// Whether, at the call, the region `sup` outlives `sub`: `sup` is
/// `'static` or equal to `sub`; both map to the same region of the
/// normalised signature; or they map to generalized lifetimes of the
/// identity signature that are equal, that the signature's outlives graph
/// orders, or, when `sub` stands inside the type parameter that the callee
/// returns, such that `sup` outlives a region of that parameter's bounds or
/// of an input.
pub open spec fn call_outlives_spec(ds: DefinedFnCallShapeDataSource, sup: PcgRegion, sub: PcgRegion) -> bool {
    let rm = map_of(ds.region_map@);
    if sup is ReStatic || sup == sub {
        true
    } else if rm.dom().contains(sup) && rm.dom().contains(sub) && rm[sup] == rm[sub] {
        true
    } else {
        match call_gls(ds, sup, sub) {
            Some((sg, bg)) => sg == bg
                || generalized_outlives_spec(ds.outlives, ds.identity_sig.inputs@, sg, bg)
                || exists|k: int| 0 <= k < result_candidates(ds, bg).len()
                    && candidate_outlives(ds, sg, #[trigger] result_candidates(ds, bg)[k]),
            None => false,
        }
    }
}

/// Each lifetime of one of the first `n` types is among their lifetimes.
proof fn lemma_inputs_gls_contains(tys: Seq<Ty>, tb: Seq<(OpaqueTy, PcgRegion)>, n: nat, k: int, g: GeneralizedLifetime)
    requires
        0 <= k < n,
        ty_gls(tys[k], tb).contains(g),
    ensures
        inputs_gls(tys, tb, n).contains(g),
    decreases n,
{
    let last = add_absent(Seq::<GeneralizedLifetime>::empty(), ty_gls(tys[n - 1], tb));
    let prev = inputs_gls(tys, tb, (n - 1) as nat);
    assert(inputs_gls(tys, tb, n) == prev + last);
    if k == n - 1 {
        lemma_add_absent_members(Seq::<GeneralizedLifetime>::empty(), ty_gls(tys[k], tb));
        let j = choose|j: int| 0 <= j < last.len() && last[j] == g;
        assert((prev + last)[prev.len() + j] == g);
    } else {
        lemma_inputs_gls_contains(tys, tb, (n - 1) as nat, k, g);
        let j = choose|j: int| 0 <= j < prev.len() && prev[j] == g;
        assert((prev + last)[j] == g);
    }
}

/// When the callee returns its own type parameter `T` and the call's region
/// `sub` stands for the regions in that `T`, the region `sup` outlives `sub`
/// as soon as the lifetime of `sup` outlives, in the signature's outlives
/// graph, some region that `T` may hold: one of `T`'s own lifetimes with its
/// trait bounds, or one of the lifetimes of an input of the signature.
pub proof fn lemma_returned_param_outlives(
    ds: DefinedFnCallShapeDataSource,
    sup: PcgRegion,
    sub: PcgRegion,
    sg: GeneralizedLifetime,
    o: OpaqueTy,
    g: GeneralizedLifetime,
)
    requires
        call_gls(ds, sup, sub) == Some((sg, GeneralizedLifetime::RegionsIn(o))),
        o is Param,
        opaque_ty(o) == ds.identity_sig.output,
        g is Region,
        generalized_outlives_spec(ds.outlives, ds.identity_sig.inputs@, sg, g),
        ty_gls(opaque_ty(o), trait_bound_pairs(ds.outlives.caller_bounds@)).contains(g)
            || exists|k: int| 0 <= k < ds.identity_sig.inputs@.len()
                && ty_gls(#[trigger] ds.identity_sig.inputs@[k], trait_bound_pairs(ds.outlives.caller_bounds@)).contains(g),
    ensures
        call_outlives_spec(ds, sup, sub),
{
    let tb = trait_bound_pairs(ds.outlives.caller_bounds@);
    let head = add_absent(Seq::<GeneralizedLifetime>::empty(), ty_gls(opaque_ty(o), tb));
    let rest = inputs_gls(ds.identity_sig.inputs@, tb, ds.identity_sig.inputs@.len());
    let bg = GeneralizedLifetime::RegionsIn(o);
    let cands = result_candidates(ds, bg);
    assert(cands == head + rest);
    if ty_gls(opaque_ty(o), tb).contains(g) {
        lemma_add_absent_members(Seq::<GeneralizedLifetime>::empty(), ty_gls(opaque_ty(o), tb));
        let j = choose|j: int| 0 <= j < head.len() && head[j] == g;
        assert(cands[j] == g);
        assert(candidate_outlives(ds, sg, cands[j]));
    } else {
        let k = choose|k: int| 0 <= k < ds.identity_sig.inputs@.len()
            && ty_gls(#[trigger] ds.identity_sig.inputs@[k], tb).contains(g);
        lemma_inputs_gls_contains(ds.identity_sig.inputs@, tb, ds.identity_sig.inputs@.len(), k, g);
        let j = choose|j: int| 0 <= j < rest.len() && rest[j] == g;
        assert(cands[head.len() + j] == g);
        assert(candidate_outlives(ds, sg, cands[head.len() + j]));
    }
}

/// The inputs on which deciding `sup` outlives `sub` at the call is
/// defined: each lookup and each graph search that the decision reaches is.
pub open spec fn call_outlives_defined(ds: DefinedFnCallShapeDataSource, sup: PcgRegion, sub: PcgRegion) -> bool {
    let rm = map_of(ds.region_map@);
    let nm = map_of(ds.norm_to_generalized_map@);
    (!(sup is ReStatic || sup == sub) && !(rm.dom().contains(sup) && rm.dom().contains(sub) && rm[sup] == rm[sub]))
        ==> {
        &&& rm.dom().contains(sup) ==> normalized_to_identity_defined(nm, ds.caller_substs, ds.identity_substs, rm[sup])
        &&& (rm.dom().contains(sup) && normalized_to_identity_spec(nm, ds.caller_substs, ds.identity_substs, rm[sup]) is Some
            && rm.dom().contains(sub)) ==> normalized_to_identity_defined(nm, ds.caller_substs, ds.identity_substs, rm[sub])
        &&& match call_gls(ds, sup, sub) {
            Some((sg, bg)) => sg != bg ==> {
                &&& generalized_outlives_defined(ds.outlives, ds.identity_sig.inputs@, sg, bg)
                &&& !generalized_outlives_spec(ds.outlives, ds.identity_sig.inputs@, sg, bg)
                    ==> candidates_defined(ds, sg, result_candidates(ds, bg))
            },
            None => true,
        }
    }
}

fn any_candidate_outlives(
    ds: &DefinedFnCallShapeDataSource,
    sg: &GeneralizedLifetime,
    cands: &Vec<GeneralizedLifetime>,
) -> (b: bool)
    requires
        candidates_defined(*ds, *sg, cands@),
    ensures
        b == exists|k: int| 0 <= k < cands@.len() && candidate_outlives(*ds, *sg, #[trigger] cands@[k]),
{
    let mut i: usize = 0;
    while i < cands.len()
        invariant
            i <= cands@.len(),
            candidates_defined(*ds, *sg, cands@),
            forall|j: int| 0 <= j < i ==> !candidate_outlives(*ds, *sg, #[trigger] cands@[j]),
        decreases cands.len() - i,
    {
        if let GeneralizedLifetime::Region(_) = &cands[i] {
            assert(cands@[i as int] is Region);
            if generalized_outlives(sg, &cands[i], &ds.outlives, &ds.identity_sig.inputs) {
                assert(candidate_outlives(*ds, *sg, cands@[i as int]));
                return true;
            }
        }
        i = i + 1;
    }
    false
}

impl DefinedFnCallShapeDataSource {
    /// The data source of the call `call`, whose generic arguments are
    /// `caller_substs`, to a callee with identity arguments
    /// `identity_substs`, normalised signature `normalized_sig` (at the
    /// call) and identity signature `identity_sig`, in the outlives
    /// environment `outlives`.
    pub fn new(
        call: DefinedFnCallWithCallTys,
        caller_substs: ArgList,
        identity_substs: ArgList,
        normalized_sig: &FnSig,
        identity_sig: FnSig,
        outlives: OutlivesEnvironment,
    ) -> (ds: DefinedFnCallShapeDataSource)
        ensures
            ds.call == call,
            ds.caller_substs == caller_substs,
            ds.identity_substs == identity_substs,
            ds.identity_sig == identity_sig,
            ds.outlives == outlives,
            ds.region_map@ == call_region_pairs(call.call_arg_tys@, call.call_result_ty, *normalized_sig),
            ds.norm_to_generalized_map@ == sig_align_pairs(*normalized_sig, identity_sig),
    {
        let region_map = build_region_map(&call.call_arg_tys, &call.call_result_ty, normalized_sig);
        let norm_to_generalized_map = build_norm_to_generalized_map(normalized_sig, &identity_sig);
        DefinedFnCallShapeDataSource {
            call,
            caller_substs,
            identity_substs,
            identity_sig,
            region_map,
            norm_to_generalized_map,
            outlives,
        }
    }

    /// The types of the call's arguments.
    pub fn input_tys(&self) -> (tys: &Vec<Ty>)
        ensures
            tys@ == self.call.call_arg_tys@,
    {
        &self.call.call_arg_tys
    }

    /// The type of the call's result.
    pub fn output_ty(&self) -> (t: &Ty)
        ensures
            *t == self.call.call_result_ty,
    {
        &self.call.call_result_ty
    }

    /// The input types of the callee's identity signature.
    pub fn identity_input_tys(&self) -> (tys: &Vec<Ty>)
        ensures
            tys@ == self.identity_sig.inputs@,
    {
        &self.identity_sig.inputs
    }

    /// The generalized lifetime of the callee's identity signature that the
    /// normalised signature's region `region` stands for (see
    /// `normalized_to_identity_spec`).
    pub fn normalized_to_identity(&self, region: PcgRegion) -> (g: Option<GeneralizedLifetime>)
        requires
            normalized_to_identity_defined(map_of(self.norm_to_generalized_map@), self.caller_substs, self.identity_substs, region),
        ensures
            g == normalized_to_identity_spec(map_of(self.norm_to_generalized_map@), self.caller_substs, self.identity_substs, region),
    {
        match region {
            PcgRegion::ReLateParam(_) | PcgRegion::ReStatic | PcgRegion::ReEarlyParam(_) => {
                Some(GeneralizedLifetime::Region(region))
            },
            PcgRegion::RegionVid(_) => {
                if let Some(g) = lookup_generalized(&self.norm_to_generalized_map, region) {
                    return Some(g);
                }
                match find_corresponding_region(&self.caller_substs, &self.identity_substs, region) {
                    Some(found) => Some(GeneralizedLifetime::Region(found.unwrap())),
                    None => None,
                }
            },
            _ => None,
        }
    }

    /// Whether the call's region `sup` outlives its region `sub` (see
    /// `call_outlives_spec`).
    pub fn outlives(&self, sup: PcgRegion, sub: PcgRegion) -> (b: bool)
        requires
            call_outlives_defined(*self, sup, sub),
        ensures
            b == call_outlives_spec(*self, sup, sub),
    {
        if sup.is_static() || sup == sub {
            return true;
        }
        let sup_norm = lookup_region(&self.region_map, sup);
        let sub_norm = lookup_region(&self.region_map, sub);
        if let (Some(s), Some(t)) = (sup_norm, sub_norm) {
            if s == t {
                return true;
            }
        }
        let sup_gl = match sup_norm {
            Some(r) => self.normalized_to_identity(r),
            None => None,
        };
        let sup_gl = match sup_gl {
            Some(g) => g,
            None => {
                return false;
            },
        };
        let sub_gl = match sub_norm {
            Some(r) => self.normalized_to_identity(r),
            None => None,
        };
        let sub_gl = match sub_gl {
            Some(g) => g,
            None => {
                return false;
            },
        };
        assert(call_gls(*self, sup, sub) == Some((sup_gl, sub_gl)));
        if gl_eq(&sup_gl, &sub_gl) {
            return true;
        }
        if generalized_outlives(&sup_gl, &sub_gl, &self.outlives, &self.identity_sig.inputs) {
            return true;
        }
        let ghost cands = result_candidates(*self, sub_gl);
        if let GeneralizedLifetime::RegionsIn(o) = &sub_gl {
            let param_ty = o.ty();
            if o.is_param() && ty_eq(&param_ty, &self.identity_sig.output) {
                let tbr = TraitBoundRegions::new(&self.outlives.caller_bounds);
                let ghost tb = tbr.pairs@;
                let mut all = extract_generalized_lifetimes_with_bounds(&param_ty, &tbr);
                let mut i: usize = 0;
                while i < self.identity_sig.inputs.len()
                    invariant
                        i <= self.identity_sig.inputs@.len(),
                        tb == trait_bound_pairs(self.outlives.caller_bounds@),
                        tbr.pairs@ == tb,
                        all@ == add_absent(Seq::empty(), ty_gls(opaque_ty(*o), tb))
                            + inputs_gls(self.identity_sig.inputs@, tb, i as nat),
                    decreases self.identity_sig.inputs.len() - i,
                {
                    let mut more = extract_generalized_lifetimes_with_bounds(&self.identity_sig.inputs[i], &tbr);
                    let ghost before = all@;
                    let ghost added = more@;
                    all.append(&mut more);
                    proof {
                        let head = add_absent(Seq::<GeneralizedLifetime>::empty(), ty_gls(opaque_ty(*o), tb));
                        let prev = inputs_gls(self.identity_sig.inputs@, tb, i as nat);
                        assert(inputs_gls(self.identity_sig.inputs@, tb, (i + 1) as nat)
                            == prev + add_absent(Seq::<GeneralizedLifetime>::empty(), ty_gls(self.identity_sig.inputs@[i as int], tb)));
                        assert(added == add_absent(Seq::<GeneralizedLifetime>::empty(), ty_gls(self.identity_sig.inputs@[i as int], tb)));
                        assert(all@ == before + added);
                        assert(before + added =~= head + (prev + added));
                    }
                    i = i + 1;
                }
                assert(all@ == cands);
                return any_candidate_outlives(self, &sup_gl, &all);
            }
        }
        assert(cands =~= Seq::<GeneralizedLifetime>::empty());
        false
    }
}

/// The data that decides outlives between the generalized lifetimes of a
/// defined function's own signature: the function, its identity signature
/// and its outlives environment.
pub struct DefinedFnSigShapeDataSource {
    pub def_id: DefId,
    pub sig: FnSig,
    pub outlives: OutlivesEnvironment,
}

impl DefinedFnSigShapeDataSource {
    /// The data source of the function `def_id` with identity signature
    /// `sig` in the outlives environment `outlives`.
    pub fn new(def_id: DefId, sig: FnSig, outlives: OutlivesEnvironment) -> (ds: DefinedFnSigShapeDataSource)
        ensures
            ds.def_id == def_id,
            ds.sig == sig,
            ds.outlives == outlives,
    {
        DefinedFnSigShapeDataSource { def_id, sig, outlives }
    }

    /// The input types of the signature.
    pub fn input_tys(&self) -> (tys: &Vec<Ty>)
        ensures
            tys@ == self.sig.inputs@,
    {
        &self.sig.inputs
    }

    /// The output type of the signature.
    pub fn output_ty(&self) -> (t: &Ty)
        ensures
            *t == self.sig.output,
    {
        &self.sig.output
    }

    /// Whether `sup` outlives `sub` in the signature: they are equal, or the
    /// outlives graph of the signature orders them.
    pub fn outlives(&self, sup: &GeneralizedLifetime, sub: &GeneralizedLifetime) -> (b: bool)
        requires
            generalized_outlives_defined(self.outlives, self.sig.inputs@, *sup, *sub),
        ensures
            b == generalized_outlives_spec(self.outlives, self.sig.inputs@, *sup, *sub),
    {
        if gl_eq(sup, sub) {
            return true;
        }
        generalized_outlives(sup, sub, &self.outlives, &self.sig.inputs)
    }
}

} // verus!
