//! Building the shape of a call to a defined function: the lifetime
//! projections of its arguments and result, and an edge from an argument's
//! projection to each projection that its region outlives, where that
//! projection could be written through.
use vstd::prelude::*;
use crate::coupling::AbstractionBlockEdge;
use crate::fn_outlives::{
    call_outlives_defined, call_outlives_spec, DefinedFnCallShapeDataSource, DefinedFnCallWithCallTys,
    FnSig, OutlivesEnvironment,
};
use crate::function_shape::{
    edges_sorted, insert_edge, ArgIdx, ArgIdxOrResult, FunctionShape, FunctionShapeInput,
    FunctionShapeNode, ShapeEdge,
};
use crate::mir::Mutability;
use crate::region::{PcgRegion, RegionIdx};
use crate::ty::{extract_regions, regions_of, ty_dup, ty_eq, ty_regions, ArgList, Ty, TyList};

verus! {

/// How a type or region parameter of an ADT may vary.
#[derive(Clone, Copy, Debug, PartialEq, Eq, Structural, Hash)]
pub enum Variance {
    Covariant,
    Invariant,
    Contravariant,
    Bivariant,
}

/// The variances of the generic parameters of ADTs, by the ADT's number.
pub struct AdtVariances {
    pub variances: Vec<(u32, Vec<Variance>)>,
}

/// The variances of the ADT `def`: those of its first entry, or none.
pub open spec fn variances_of(vs: Seq<(u32, Vec<Variance>)>, def: u32) -> Seq<Variance>
    decreases vs.len(),
{
    if vs.len() == 0 {
        Seq::empty()
    } else if vs[0].0 == def {
        vs[0].1@
    } else {
        variances_of(vs.drop_first(), def)
    }
}

/// The region arguments of a list of generic arguments, in order.
pub open spec fn region_args(a: ArgList) -> Seq<PcgRegion>
    decreases a,
{
    match a {
        ArgList::Nil => Seq::empty(),
        ArgList::Region(r, t) => seq![r] + region_args(*t),
        ArgList::Type(_, t) => region_args(*t),
        ArgList::Const(t) => region_args(*t),
    }
}

/// Whether `r` stands at an invariant position of `t`: as a region argument
/// of an ADT whose parameter at that region index is invariant, or among the
/// regions of the target of a mutable reference or raw pointer. ADT
/// arguments and the targets of shared references and pointers are not
/// looked into further.
pub open spec fn invariant_in(vs: Seq<(u32, Vec<Variance>)>, r: PcgRegion, t: Ty) -> bool
    decreases t,
{
    match t {
        Ty::Adt(d, args) => exists|idx: int| 0 <= idx < region_args(*args).len()
            && #[trigger] region_args(*args)[idx] == r && idx < variances_of(vs, d).len()
            && variances_of(vs, d)[idx] == Variance::Invariant,
        Ty::Ref(_, inner, m) => m == Mutability::Mut && ty_regions(*inner).contains(r),
        Ty::RawPtr(inner, m) => m == Mutability::Mut && ty_regions(*inner).contains(r),
        Ty::Alias(a) => args_invariant_in(vs, r, *a.args),
        Ty::Tuple(l) => list_invariant_in(vs, r, *l),
        Ty::Slice(inner) => invariant_in(vs, r, *inner),
        Ty::Array(inner) => invariant_in(vs, r, *inner),
        Ty::FnPtr(l) => list_invariant_in(vs, r, *l),
        Ty::Closure(args, upvars) => args_invariant_in(vs, r, *args) || list_invariant_in(vs, r, *upvars),
        _ => false,
    }
}

/// Whether `r` stands at an invariant position of a type of the list.
pub open spec fn list_invariant_in(vs: Seq<(u32, Vec<Variance>)>, r: PcgRegion, l: TyList) -> bool
    decreases l,
{
    match l {
        TyList::Nil => false,
        TyList::Cons(h, t) => invariant_in(vs, r, *h) || list_invariant_in(vs, r, *t),
    }
}

/// Whether `r` stands at an invariant position of a type argument.
pub open spec fn args_invariant_in(vs: Seq<(u32, Vec<Variance>)>, r: PcgRegion, a: ArgList) -> bool
    decreases a,
{
    match a {
        ArgList::Nil => false,
        ArgList::Region(_, t) => args_invariant_in(vs, r, *t),
        ArgList::Type(h, t) => invariant_in(vs, r, *h) || args_invariant_in(vs, r, *t),
        ArgList::Const(t) => args_invariant_in(vs, r, *t),
    }
}

fn adt_variances(vs: &AdtVariances, def: u32) -> (v: Vec<Variance>)
    ensures
        v@ == variances_of(vs.variances@, def),
{
    let mut i: usize = 0;
    assert(vs.variances@.subrange(0, vs.variances@.len() as int) =~= vs.variances@);
    while i < vs.variances.len()
        invariant
            i <= vs.variances@.len(),
            variances_of(vs.variances@, def) == variances_of(vs.variances@.subrange(i as int, vs.variances@.len() as int), def),
        decreases vs.variances.len() - i,
    {
        let ghost rest = vs.variances@.subrange(i as int, vs.variances@.len() as int);
        assert(rest[0] == vs.variances@[i as int]);
        if vs.variances[i].0 == def {
            return vs.variances[i].1.clone();
        }
        assert(rest.drop_first() =~= vs.variances@.subrange(i + 1, vs.variances@.len() as int));
        i = i + 1;
    }
    assert(vs.variances@.subrange(i as int, vs.variances@.len() as int) =~= Seq::<(u32, Vec<Variance>)>::empty());
    Vec::new()
}

fn adt_region_invariant(v: &Vec<Variance>, args: &ArgList, r: PcgRegion) -> (b: bool)
    ensures
        b == exists|idx: int| 0 <= idx < region_args(*args).len()
            && #[trigger] region_args(*args)[idx] == r && idx < v@.len() && v@[idx] == Variance::Invariant,
{
    let mut regions: Vec<PcgRegion> = Vec::new();
    collect_region_args(args, &mut regions);
    let mut idx: usize = 0;
    while idx < regions.len()
        invariant
            idx <= regions@.len(),
            regions@ == region_args(*args),
            forall|k: int| 0 <= k < idx ==> !(regions@[k] == r && k < v@.len() && v@[k] == Variance::Invariant),
        decreases regions.len() - idx,
    {
        if regions[idx] == r && idx < v.len() && v[idx] == Variance::Invariant {
            assert(region_args(*args)[idx as int] == r);
            return true;
        }
        idx = idx + 1;
    }
    false
}

fn collect_region_args(a: &ArgList, acc: &mut Vec<PcgRegion>)
    ensures
        final(acc)@ == old(acc)@ + region_args(*a),
    decreases a,
{
    let ghost a0 = acc@;
    match a {
        ArgList::Nil => {
            assert(acc@ =~= a0 + region_args(*a));
        },
        ArgList::Region(r, t) => {
            acc.push(*r);
            collect_region_args(t, acc);
            assert(acc@ =~= a0 + region_args(*a));
        },
        ArgList::Type(_, t) => collect_region_args(t, acc),
        ArgList::Const(t) => collect_region_args(t, acc),
    }
}

fn contains_region(v: &Vec<PcgRegion>, r: PcgRegion) -> (b: bool)
    ensures
        b == v@.contains(r),
{
    let mut i: usize = 0;
    while i < v.len()
        invariant
            i <= v@.len(),
            forall|j: int| 0 <= j < i ==> v@[j] != r,
        decreases v.len() - i,
    {
        if v[i] == r {
            assert(v@[i as int] == r);
            return true;
        }
        i = i + 1;
    }
    false
}

/// Whether `region` stands at an invariant position of `ty` (see
/// `invariant_in`).
pub fn region_is_invariant_in_type(variances: &AdtVariances, region: PcgRegion, ty: &Ty) -> (b: bool)
    ensures
        b == invariant_in(variances.variances@, region, *ty),
    decreases ty,
{
    match ty {
        Ty::Adt(d, args) => {
            let v = adt_variances(variances, *d);
            adt_region_invariant(&v, args, region)
        },
        Ty::Ref(_, inner, m) => *m == Mutability::Mut && contains_region(&extract_regions(inner), region),
        Ty::RawPtr(inner, m) => *m == Mutability::Mut && contains_region(&extract_regions(inner), region),
        Ty::Alias(a) => args_invariant(variances, region, &a.args),
        Ty::Tuple(l) => list_invariant(variances, region, l),
        Ty::Slice(inner) => region_is_invariant_in_type(variances, region, inner),
        Ty::Array(inner) => region_is_invariant_in_type(variances, region, inner),
        Ty::FnPtr(l) => list_invariant(variances, region, l),
        Ty::Closure(args, upvars) => args_invariant(variances, region, args) || list_invariant(variances, region, upvars),
        _ => false,
    }
}

fn list_invariant(variances: &AdtVariances, region: PcgRegion, l: &TyList) -> (b: bool)
    ensures
        b == list_invariant_in(variances.variances@, region, *l),
    decreases l,
{
    match l {
        TyList::Nil => false,
        TyList::Cons(h, t) => region_is_invariant_in_type(variances, region, h) || list_invariant(variances, region, t),
    }
}

fn args_invariant(variances: &AdtVariances, region: PcgRegion, a: &ArgList) -> (b: bool)
    ensures
        b == args_invariant_in(variances.variances@, region, *a),
    decreases a,
{
    match a {
        ArgList::Nil => false,
        ArgList::Region(_, t) => args_invariant(variances, region, t),
        ArgList::Type(h, t) => region_is_invariant_in_type(variances, region, h) || args_invariant(variances, region, t),
        ArgList::Const(t) => args_invariant(variances, region, t),
    }
}

/// A lifetime projection of an argument or of the result: what it projects,
/// the type, the index of the region among the type's regions, and the
/// region.
#[derive(Debug)]
pub struct ProjectionData<T> {
    pub base: T,
    pub ty: Ty,
    pub region_idx: RegionIdx,
    pub region: PcgRegion,
}

/// The projections of a type's regions (see `regions_of`), in order.
pub open spec fn projections_for_ty<T>(base: T, t: Ty) -> Seq<ProjectionData<T>> {
    Seq::new(regions_of(t).len(), |i: int| ProjectionData {
        base,
        ty: t,
        region_idx: RegionIdx(i as usize),
        region: regions_of(t)[i],
    })
}

/// The projections of the first `n` argument types, argument by argument.
pub open spec fn arg_projections(tys: Seq<Ty>, n: nat) -> Seq<ProjectionData<ArgIdx>>
    decreases n,
{
    if n == 0 {
        Seq::empty()
    } else {
        arg_projections(tys, (n - 1) as nat) + projections_for_ty(ArgIdx((n - 1) as usize), tys[n - 1])
    }
}

/// The shape input of an argument's projection.
pub open spec fn to_input(p: ProjectionData<ArgIdx>) -> FunctionShapeInput {
    FunctionShapeInput { base: p.base, region_idx: p.region_idx }
}

/// The shape node of an argument's projection.
pub open spec fn arg_node(p: ProjectionData<ArgIdx>) -> FunctionShapeNode {
    FunctionShapeNode { base: ArgIdxOrResult::Argument(p.base), region_idx: p.region_idx }
}

/// The shape node of a projection of an argument or of the result.
pub open spec fn to_node(p: ProjectionData<ArgIdxOrResult>) -> FunctionShapeNode {
    FunctionShapeNode { base: p.base, region_idx: p.region_idx }
}

fn nodes_for_ty<T: Copy>(base: T, ty: &Ty) -> (ps: Vec<ProjectionData<T>>)
    ensures
        ps@ == projections_for_ty(base, *ty),
{
    let regions = extract_regions(ty);
    let mut ps: Vec<ProjectionData<T>> = Vec::new();
    let mut i: usize = 0;
    while i < regions.len()
        invariant
            i <= regions@.len(),
            regions@ == regions_of(*ty),
            ps@ == projections_for_ty(base, *ty).subrange(0, i as int),
        decreases regions.len() - i,
    {
        ps.push(ProjectionData { base, ty: ty_dup(ty), region_idx: RegionIdx(i), region: regions[i] });
        assert(ps@ =~= projections_for_ty(base, *ty).subrange(0, i + 1));
        i = i + 1;
    }
    assert(projections_for_ty(base, *ty).subrange(0, regions@.len() as int) =~= projections_for_ty(base, *ty));
    ps
}

fn same_arg_projection(a: &ProjectionData<ArgIdx>, b: &ProjectionData<ArgIdx>) -> (r: bool)
    ensures
        r == (*a == *b),
{
    a.base == b.base && a.region_idx == b.region_idx && a.region == b.region && ty_eq(&a.ty, &b.ty)
}

/// The edge that the shape of a call has for the argument projection `i`
/// and the candidate `q`: a candidate below the number of argument
/// projections is the argument projection `q`, which gets an edge when it
/// differs from `i`, its region stands at an invariant position of its type
/// and the region of `i` outlives its region; a further candidate is a
/// result projection, which gets an edge when the region of `i` outlives
/// its region.
pub open spec fn edge_at(
    ds: DefinedFnCallShapeDataSource,
    vs: Seq<(u32, Vec<Variance>)>,
    args: Seq<ProjectionData<ArgIdx>>,
    res: Seq<ProjectionData<ArgIdxOrResult>>,
    i: int,
    q: int,
    e: ShapeEdge,
) -> bool {
    &&& 0 <= i < args.len()
    &&& 0 <= q < args.len() + res.len()
    &&& if q < args.len() {
        &&& args[i] != args[q]
        &&& invariant_in(vs, args[q].region, args[q].ty)
        &&& call_outlives_spec(ds, args[i].region, args[q].region)
        &&& e == (AbstractionBlockEdge { input: to_input(args[i]), output: arg_node(args[q]) })
    } else {
        &&& call_outlives_spec(ds, args[i].region, res[q - args.len()].region)
        &&& e == (AbstractionBlockEdge { input: to_input(args[i]), output: to_node(res[q - args.len()]) })
    }
}

/// Each outlives query that building the shape makes is defined.
pub open spec fn shape_queries_defined(
    ds: DefinedFnCallShapeDataSource,
    vs: Seq<(u32, Vec<Variance>)>,
    args: Seq<ProjectionData<ArgIdx>>,
    res: Seq<ProjectionData<ArgIdxOrResult>>,
) -> bool {
    &&& forall|i: int, j: int| 0 <= i < args.len() && 0 <= j < args.len() && #[trigger] args[i] != #[trigger] args[j]
        && invariant_in(vs, args[j].region, args[j].ty) ==> call_outlives_defined(ds, args[i].region, args[j].region)
    &&& forall|i: int, k: int| 0 <= i < args.len() && 0 <= k < res.len()
        ==> call_outlives_defined(ds, #[trigger] args[i].region, #[trigger] res[k].region)
}

impl DefinedFnCallShapeDataSource {
    /// The projections of the call's argument types, argument by argument.
    pub fn input_arg_projections(&self) -> (ps: Vec<ProjectionData<ArgIdx>>)
        ensures
            ps@ == arg_projections(self.call.call_arg_tys@, self.call.call_arg_tys@.len()),
    {
        let mut ps: Vec<ProjectionData<ArgIdx>> = Vec::new();
        let mut i: usize = 0;
        while i < self.call.call_arg_tys.len()
            invariant
                i <= self.call.call_arg_tys@.len(),
                ps@ == arg_projections(self.call.call_arg_tys@, i as nat),
            decreases self.call.call_arg_tys.len() - i,
        {
            let mut more = nodes_for_ty(ArgIdx(i), &self.call.call_arg_tys[i]);
            ps.append(&mut more);
            i = i + 1;
        }
        ps
    }

    /// The projections of the call's result type.
    pub fn result_projections(&self) -> (ps: Vec<ProjectionData<ArgIdxOrResult>>)
        ensures
            ps@ == projections_for_ty(ArgIdxOrResult::Result, self.call.call_result_ty),
    {
        nodes_for_ty(ArgIdxOrResult::Result, &self.call.call_result_ty)
    }

    /// The shape inputs: the projections of the argument types.
    pub fn inputs(&self) -> (inputs: Vec<FunctionShapeInput>)
        ensures
            inputs@ == arg_projections(self.call.call_arg_tys@, self.call.call_arg_tys@.len())
                .map_values(|p: ProjectionData<ArgIdx>| to_input(p)),
    {
        let args = self.input_arg_projections();
        let mut inputs: Vec<FunctionShapeInput> = Vec::new();
        let mut a: usize = 0;
        while a < args.len()
            invariant
                a <= args@.len(),
                inputs@ == args@.subrange(0, a as int).map_values(|p: ProjectionData<ArgIdx>| to_input(p)),
            decreases args.len() - a,
        {
            inputs.push(FunctionShapeInput { base: args[a].base, region_idx: args[a].region_idx });
            assert(inputs@ =~= args@.subrange(0, a + 1).map_values(|p: ProjectionData<ArgIdx>| to_input(p)));
            a = a + 1;
        }
        assert(args@.subrange(0, args@.len() as int) =~= args@);
        inputs
    }

    /// The shape outputs: the projections of the result type.
    pub fn outputs(&self) -> (outputs: Vec<FunctionShapeNode>)
        ensures
            outputs@ == projections_for_ty(ArgIdxOrResult::Result, self.call.call_result_ty)
                .map_values(|p: ProjectionData<ArgIdxOrResult>| to_node(p)),
    {
        let res = self.result_projections();
        let mut outputs: Vec<FunctionShapeNode> = Vec::new();
        let mut b: usize = 0;
        while b < res.len()
            invariant
                b <= res@.len(),
                outputs@ == res@.subrange(0, b as int).map_values(|p: ProjectionData<ArgIdxOrResult>| to_node(p)),
            decreases res.len() - b,
        {
            outputs.push(FunctionShapeNode { base: res[b].base, region_idx: res[b].region_idx });
            assert(outputs@ =~= res@.subrange(0, b + 1).map_values(|p: ProjectionData<ArgIdxOrResult>| to_node(p)));
            b = b + 1;
        }
        assert(res@.subrange(0, res@.len() as int) =~= res@);
        outputs
    }
}

impl FunctionShape {
    /// The shape of a call: its inputs are the projections of the argument
    /// types, its outputs those of the result type, and its edges those of
    /// `edge_at`, in the shape's order.
    pub fn new(shape_data: &DefinedFnCallShapeDataSource, variances: &AdtVariances) -> (s: FunctionShape)
        requires
            shape_queries_defined(
                *shape_data,
                variances.variances@,
                arg_projections(shape_data.call.call_arg_tys@, shape_data.call.call_arg_tys@.len()),
                projections_for_ty(ArgIdxOrResult::Result, shape_data.call.call_result_ty),
            ),
        ensures
            edges_sorted(s.edges@),
            s.inputs@ == arg_projections(shape_data.call.call_arg_tys@, shape_data.call.call_arg_tys@.len())
                .map_values(|p: ProjectionData<ArgIdx>| to_input(p)),
            s.outputs@ == projections_for_ty(ArgIdxOrResult::Result, shape_data.call.call_result_ty)
                .map_values(|p: ProjectionData<ArgIdxOrResult>| to_node(p)),
            forall|e: ShapeEdge| s.edges@.contains(e) <==> exists|i: int, q: int| edge_at(
                *shape_data,
                variances.variances@,
                arg_projections(shape_data.call.call_arg_tys@, shape_data.call.call_arg_tys@.len()),
                projections_for_ty(ArgIdxOrResult::Result, shape_data.call.call_result_ty),
                i,
                q,
                e,
            ),
    {
        let args = shape_data.input_arg_projections();
        let res = shape_data.result_projections();
        let ghost vs = variances.variances@;
        let ghost n = args@.len() as int;
        let mut edges: Vec<ShapeEdge> = Vec::new();
        let mut i: usize = 0;
        while i < args.len()
            invariant
                i <= args@.len(),
                n == args@.len(),
                vs == variances.variances@,
                shape_queries_defined(*shape_data, vs, args@, res@),
                edges_sorted(edges@),
                forall|e: ShapeEdge| edges@.contains(e) <==> exists|i2: int, q: int| i2 < i
                    && edge_at(*shape_data, vs, args@, res@, i2, q, e),
            decreases args.len() - i,
        {
            let input = FunctionShapeInput { base: args[i].base, region_idx: args[i].region_idx };
            let mut j: usize = 0;
            while j < args.len()
                invariant
                    i < args@.len(),
                    j <= args@.len(),
                    n == args@.len(),
                    vs == variances.variances@,
                    input == to_input(args@[i as int]),
                    shape_queries_defined(*shape_data, vs, args@, res@),
                    edges_sorted(edges@),
                    forall|e: ShapeEdge| edges@.contains(e) <==> exists|i2: int, q: int|
                        (i2 < i || (i2 == i && q < j)) && edge_at(*shape_data, vs, args@, res@, i2, q, e),
                decreases args.len() - j,
            {
                let ghost before = edges@;
                let mut added = false;
                if !same_arg_projection(&args[i], &args[j])
                    && region_is_invariant_in_type(variances, args[j].region, &args[j].ty)
                    && shape_data.outlives(args[i].region, args[j].region) {
                    let e = AbstractionBlockEdge {
                        input,
                        output: FunctionShapeNode { base: ArgIdxOrResult::Argument(args[j].base), region_idx: args[j].region_idx },
                    };
                    insert_edge(&mut edges, e);
                    added = true;
                    assert(edge_at(*shape_data, vs, args@, res@, i as int, j as int, e));
                }
                proof {
                    assert forall|e: ShapeEdge| edges@.contains(e) <==> exists|i2: int, q: int|
                        (i2 < i || (i2 == i && q < j + 1)) && edge_at(*shape_data, vs, args@, res@, i2, q, e) by {
                        if exists|i2: int, q: int| (i2 < i || (i2 == i && q < j + 1)) && edge_at(*shape_data, vs, args@, res@, i2, q, e) {
                            let (i2, q) = choose|i2: int, q: int| (i2 < i || (i2 == i && q < j + 1)) && edge_at(*shape_data, vs, args@, res@, i2, q, e);
                            if !(i2 < i || (i2 == i && q < j)) {
                                assert(i2 == i && q == j);
                                assert(added);
                            }
                        }
                        if edges@.contains(e) && !before.contains(e) {
                            assert(added);
                            assert(edge_at(*shape_data, vs, args@, res@, i as int, j as int, e));
                        }
                    }
                }
                j = j + 1;
            }
            let mut k: usize = 0;
            while k < res.len()
                invariant
                    i < args@.len(),
                    k <= res@.len(),
                    n == args@.len(),
                    vs == variances.variances@,
                    input == to_input(args@[i as int]),
                    shape_queries_defined(*shape_data, vs, args@, res@),
                    edges_sorted(edges@),
                    forall|e: ShapeEdge| edges@.contains(e) <==> exists|i2: int, q: int|
                        (i2 < i || (i2 == i && q < n + k)) && edge_at(*shape_data, vs, args@, res@, i2, q, e),
                decreases res.len() - k,
            {
                let ghost before = edges@;
                let mut added = false;
                if shape_data.outlives(args[i].region, res[k].region) {
                    let e = AbstractionBlockEdge {
                        input,
                        output: FunctionShapeNode { base: res[k].base, region_idx: res[k].region_idx },
                    };
                    insert_edge(&mut edges, e);
                    added = true;
                    assert(edge_at(*shape_data, vs, args@, res@, i as int, n + k, e));
                }
                proof {
                    assert forall|e: ShapeEdge| edges@.contains(e) <==> exists|i2: int, q: int|
                        (i2 < i || (i2 == i && q < n + k + 1)) && edge_at(*shape_data, vs, args@, res@, i2, q, e) by {
                        if exists|i2: int, q: int| (i2 < i || (i2 == i && q < n + k + 1)) && edge_at(*shape_data, vs, args@, res@, i2, q, e) {
                            let (i2, q) = choose|i2: int, q: int| (i2 < i || (i2 == i && q < n + k + 1)) && edge_at(*shape_data, vs, args@, res@, i2, q, e);
                            if !(i2 < i || (i2 == i && q < n + k)) {
                                assert(i2 == i && q == n + k);
                                assert(added);
                            }
                        }
                        if edges@.contains(e) && !before.contains(e) {
                            assert(added);
                            assert(edge_at(*shape_data, vs, args@, res@, i as int, n + k, e));
                        }
                    }
                }
                k = k + 1;
            }
            proof {
                assert forall|e: ShapeEdge| edges@.contains(e) <==> exists|i2: int, q: int| i2 < i + 1
                    && edge_at(*shape_data, vs, args@, res@, i2, q, e) by {
                    if exists|i2: int, q: int| i2 < i + 1 && edge_at(*shape_data, vs, args@, res@, i2, q, e) {
                        let (i2, q) = choose|i2: int, q: int| i2 < i + 1 && edge_at(*shape_data, vs, args@, res@, i2, q, e);
                        assert(q < n + res@.len());
                    }
                }
            }
            i = i + 1;
        }
        let inputs = shape_data.inputs();
        let outputs = shape_data.outputs();
        FunctionShape { inputs, outputs, edges }
    }
}

} // verus!
