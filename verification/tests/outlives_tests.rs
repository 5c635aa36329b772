use pcg::abstraction::{DefId, DefinedFnCall, FunctionData};
use pcg::fn_outlives::{
    build_norm_to_generalized_map, build_region_map, collect_implied_type_outlives,
    generalized_outlives, DefinedFnCallShapeDataSource, DefinedFnCallWithCallTys, DefinedFnSigShapeDataSource, FnSig,
    OutlivesEnvironment,
};
use pcg::function_shape::{ArgIdxOrResult, FunctionShape};
use pcg::mir::{Mutability, RegionVid};
use pcg::shape_build::{region_is_invariant_in_type, AdtVariances, Variance};
use pcg::region::PcgRegion;
use pcg::ty::{
    extract_generalized_lifetimes, extract_generalized_lifetimes_with_bounds, extract_regions,
    AliasTy, ArgList, Clause, GeneralizedLifetime, OpaqueTy, ParamTy, TraitBoundRegions, Ty,
    TyList,
};

fn var(n: u32) -> PcgRegion {
    PcgRegion::RegionVid(RegionVid(n))
}

fn early(n: u32) -> PcgRegion {
    PcgRegion::ReEarlyParam(n)
}

fn param(i: u32) -> Ty {
    Ty::Param(ParamTy { index: i, name: i })
}

fn opaque(i: u32) -> OpaqueTy {
    OpaqueTy::Param(ParamTy { index: i, name: i })
}

fn reference(r: PcgRegion, t: Ty, m: Mutability) -> Ty {
    Ty::Ref(r, Box::new(t), m)
}

/// An ADT `def` with the given region arguments, then the given type arguments.
fn adt(def: u32, regions: &[PcgRegion], tys: Vec<Ty>) -> Ty {
    let mut args = ArgList::Nil;
    for t in tys.into_iter().rev() {
        args = ArgList::Type(Box::new(t), Box::new(args));
    }
    for r in regions.iter().rev() {
        args = ArgList::Region(*r, Box::new(args));
    }
    Ty::Adt(def, Box::new(args))
}

fn tuple(tys: Vec<Ty>) -> Ty {
    let mut l = TyList::Nil;
    for t in tys.into_iter().rev() {
        l = TyList::Cons(Box::new(t), Box::new(l));
    }
    Ty::Tuple(Box::new(l))
}

fn env(clauses: Vec<Clause>) -> OutlivesEnvironment {
    OutlivesEnvironment {
        caller_bounds: clauses,
        free_regions: vec![],
        free_region_pairs: vec![],
    }
}

fn gl_region(r: PcgRegion) -> GeneralizedLifetime {
    GeneralizedLifetime::Region(r)
}

fn gl_in(i: u32) -> GeneralizedLifetime {
    GeneralizedLifetime::RegionsIn(opaque(i))
}

#[test]
fn regions_are_listed_once_in_visiting_order() {
    // &'1 mut Foo<'1, '2>
    let t = reference(var(1), adt(0, &[var(1), var(2)], vec![]), Mutability::Mut);
    assert_eq!(extract_regions(&t), vec![var(1), var(2)]);
}

#[test]
fn types_of_the_same_shape_list_regions_at_the_same_positions() {
    let t1 = adt(3, &[var(1), var(2)], vec![reference(var(3), Ty::Other, Mutability::Not)]);
    let t2 = adt(3, &[var(7), var(8)], vec![reference(var(9), Ty::Other, Mutability::Not)]);
    assert_eq!(extract_regions(&t1), vec![var(1), var(2), var(3)]);
    assert_eq!(extract_regions(&t2), vec![var(7), var(8), var(9)]);
}

#[test]
fn function_pointers_and_trait_objects() {
    let fn_ptr = Ty::FnPtr(Box::new(TyList::Cons(
        Box::new(reference(var(1), Ty::Other, Mutability::Not)),
        Box::new(TyList::Nil),
    )));
    assert_eq!(extract_regions(&fn_ptr), vec![]);
    assert_eq!(extract_regions(&Ty::Dynamic(var(4))), vec![var(4)]);
    let closure = Ty::Closure(
        Box::new(ArgList::Region(var(5), Box::new(ArgList::Nil))),
        Box::new(TyList::Cons(
            Box::new(reference(var(6), Ty::Other, Mutability::Mut)),
            Box::new(TyList::Nil),
        )),
    );
    assert_eq!(extract_regions(&closure), vec![var(6)]);
}

#[test]
fn generalized_lifetimes_of_a_reference_to_a_parameter() {
    let t = reference(early(0), param(0), Mutability::Not);
    assert_eq!(extract_generalized_lifetimes(&t), vec![gl_region(early(0)), gl_in(0)]);
}

#[test]
fn trait_bound_regions_follow_the_parameter() {
    // T: Foo<'1, '2>, and a bound on a concrete type that is ignored
    let clauses = vec![
        Clause::Trait(
            Box::new(param(0)),
            Box::new(ArgList::Region(early(1), Box::new(ArgList::Region(early(2), Box::new(ArgList::Nil))))),
        ),
        Clause::Trait(Box::new(Ty::Other), Box::new(ArgList::Region(early(3), Box::new(ArgList::Nil)))),
        Clause::Other,
    ];
    let tbr = TraitBoundRegions::new(&clauses);
    assert_eq!(tbr.get(&opaque(0)), vec![early(1), early(2)]);
    assert_eq!(tbr.get(&opaque(1)), vec![]);
    let t = reference(early(0), param(0), Mutability::Not);
    assert_eq!(
        extract_generalized_lifetimes_with_bounds(&t, &tbr),
        vec![gl_region(early(0)), gl_in(0), gl_region(early(1)), gl_region(early(2))]
    );
}

#[test]
fn implied_bounds_of_references_to_parameters() {
    // (&'0 T, Vec<&'1 mut U>, &'0 T)
    let tys = vec![
        reference(early(0), param(0), Mutability::Not),
        adt(9, &[], vec![reference(early(1), param(1), Mutability::Mut)]),
        reference(early(0), param(0), Mutability::Not),
    ];
    assert_eq!(
        collect_implied_type_outlives(&tys),
        vec![(opaque(0), early(0)), (opaque(1), early(1))]
    );
}

#[test]
fn regions_in_a_parameter_outlive_the_region_of_a_reference_to_it() {
    let inputs = vec![reference(early(0), param(0), Mutability::Not)];
    let e = env(vec![]);
    assert!(generalized_outlives(&gl_in(0), &gl_region(early(0)), &e, &inputs));
    assert!(!generalized_outlives(&gl_in(0), &gl_region(early(1)), &e, &inputs));
    assert!(!generalized_outlives(&gl_region(early(0)), &gl_in(0), &e, &inputs));
}

#[test]
fn explicit_type_outlives_bound_gives_an_edge() {
    let e = env(vec![
        Clause::TypeOutlives(Box::new(param(1)), early(2), false),
        Clause::TypeOutlives(Box::new(param(1)), early(3), true),
    ]);
    let inputs = vec![];
    assert!(generalized_outlives(&gl_in(1), &gl_region(early(2)), &e, &inputs));
    assert!(!generalized_outlives(&gl_in(1), &gl_region(early(3)), &e, &inputs));
}

#[test]
fn static_and_free_regions_outlive_through_the_region_map() {
    let e = OutlivesEnvironment {
        caller_bounds: vec![],
        free_regions: vec![early(0), early(1)],
        free_region_pairs: vec![(early(0), early(1))],
    };
    let inputs = vec![];
    assert!(generalized_outlives(&gl_region(early(1)), &gl_region(early(0)), &e, &inputs));
    assert!(!generalized_outlives(&gl_region(early(0)), &gl_region(early(1)), &e, &inputs));
    assert!(generalized_outlives(&gl_region(PcgRegion::ReStatic), &gl_region(early(0)), &e, &inputs));
    assert!(generalized_outlives(&gl_in(2), &gl_in(2), &e, &inputs));
}

#[test]
fn signature_data_source_outlives() {
    let sig = FnSig {
        inputs: vec![reference(early(0), param(0), Mutability::Not)],
        output: Ty::Other,
    };
    let ds = DefinedFnSigShapeDataSource::new(DefId { krate: 0, index: 1 }, sig, env(vec![]));
    assert!(ds.outlives(&gl_in(0), &gl_region(early(0))));
    assert!(ds.outlives(&gl_region(early(5)), &gl_region(early(5))));
    assert!(!ds.outlives(&gl_region(early(0)), &gl_region(early(5))));
    assert_eq!(ds.input_tys().len(), 1);
}

#[test]
fn region_map_pairs_regions_position_by_position() {
    let call_tys = vec![reference(var(10), adt(0, &[var(11)], vec![]), Mutability::Not)];
    let sig = FnSig {
        inputs: vec![reference(var(1), adt(0, &[var(2)], vec![]), Mutability::Not)],
        output: reference(var(1), Ty::Other, Mutability::Not),
    };
    let call_result = reference(var(12), Ty::Other, Mutability::Not);
    let map = build_region_map(&call_tys, &call_result, &sig);
    assert_eq!(map, vec![(var(10), var(1)), (var(11), var(2)), (var(12), var(1))]);
}

#[test]
fn alignment_maps_regions_under_a_parameter_to_regions_in_it() {
    // normalised: fn(&'1 A<'2>) -> &'1 A<'2>; identity: fn(&'e0 T) -> &'e0 T
    let norm = FnSig {
        inputs: vec![reference(var(1), adt(0, &[var(2)], vec![]), Mutability::Not)],
        output: reference(var(1), adt(0, &[var(2)], vec![]), Mutability::Not),
    };
    let id = FnSig {
        inputs: vec![reference(early(0), param(0), Mutability::Not)],
        output: reference(early(0), param(0), Mutability::Not),
    };
    let map = build_norm_to_generalized_map(&norm, &id);
    assert_eq!(
        map,
        vec![
            (var(1), gl_region(early(0))),
            (var(2), gl_in(0)),
            (var(1), gl_region(early(0))),
            (var(2), gl_in(0)),
        ]
    );
}

fn a_call() -> DefinedFnCall {
    DefinedFnCall::new(FunctionData::new(DefId { krate: 0, index: 7 }), 3, DefId { krate: 0, index: 1 })
}

#[test]
fn a_call_knows_its_function_and_arguments() {
    let call = DefinedFnCallWithCallTys::new(a_call(), vec![Ty::Other], param(0));
    assert_eq!(call.fn_def_id(), DefId { krate: 0, index: 7 });
    assert_eq!(call.caller_substs(), 3);
    let ds = call_data_source();
    assert_eq!(ds.input_tys().len(), 2);
    assert_eq!(ds.identity_input_tys().len(), 2);
    assert_eq!(ds.output_ty(), &reference(var(13), Ty::Other, Mutability::Not));
}

fn call_data_source() -> DefinedFnCallShapeDataSource {
    // fn f<'a, 'b: 'a, T>(x: &'a T, y: &'b u8) -> &'a u8, called with
    // (&'10 A<'11>, &'12 u8) -> &'13 u8
    let identity = FnSig {
        inputs: vec![
            reference(early(0), param(0), Mutability::Not),
            reference(early(1), Ty::Other, Mutability::Not),
        ],
        output: reference(early(0), Ty::Other, Mutability::Not),
    };
    let normalized = FnSig {
        inputs: vec![
            reference(var(1), adt(0, &[var(2)], vec![]), Mutability::Not),
            reference(var(3), Ty::Other, Mutability::Not),
        ],
        output: reference(var(1), Ty::Other, Mutability::Not),
    };
    let outlives = OutlivesEnvironment {
        caller_bounds: vec![],
        free_regions: vec![early(0), early(1)],
        free_region_pairs: vec![(early(0), early(1))],
    };
    let call = DefinedFnCallWithCallTys::new(
        a_call(),
        vec![
            reference(var(10), adt(0, &[var(11)], vec![]), Mutability::Not),
            reference(var(12), Ty::Other, Mutability::Not),
        ],
        reference(var(13), Ty::Other, Mutability::Not),
    );
    DefinedFnCallShapeDataSource::new(
        call,
        ArgList::Nil,
        ArgList::Nil,
        &normalized,
        identity,
        outlives,
    )
}

#[test]
fn call_regions_outlive_by_the_callee_signature() {
    let ds = call_data_source();
    // '12 maps to 'b, '10 to 'a, and 'b: 'a
    assert!(ds.outlives(var(12), var(10)));
    assert!(!ds.outlives(var(10), var(12)));
    // the result's region maps to 'a, like the first argument's
    assert!(ds.outlives(var(13), var(10)));
    // regions in T outlive 'a by the implied bound of &'a T
    assert!(ds.outlives(var(11), var(10)));
    // 'static outlives everything, a region itself
    assert!(ds.outlives(PcgRegion::ReStatic, var(11)));
    assert!(ds.outlives(var(99), var(99)));
    // an unknown region outlives nothing else
    assert!(!ds.outlives(var(99), var(10)));
}

#[test]
fn normalized_regions_map_to_identity_lifetimes() {
    let ds = call_data_source();
    assert_eq!(ds.normalized_to_identity(var(1)), Some(gl_region(early(0))));
    assert_eq!(ds.normalized_to_identity(var(2)), Some(gl_in(0)));
    assert_eq!(ds.normalized_to_identity(early(7)), Some(gl_region(early(7))));
    assert_eq!(ds.normalized_to_identity(PcgRegion::ReErased), None);
    assert_eq!(ds.normalized_to_identity(var(50)), None);
}

#[test]
fn early_bound_regions_are_found_through_the_generic_arguments() {
    let identity = FnSig { inputs: vec![], output: Ty::Other };
    let ds = DefinedFnCallShapeDataSource::new(
        DefinedFnCallWithCallTys::new(a_call(), vec![], Ty::Other),
        ArgList::Type(Box::new(Ty::Other), Box::new(ArgList::Region(var(20), Box::new(ArgList::Nil)))),
        ArgList::Type(Box::new(param(0)), Box::new(ArgList::Region(early(4), Box::new(ArgList::Nil)))),
        &FnSig { inputs: vec![], output: Ty::Other },
        identity,
        env(vec![]),
    );
    assert_eq!(ds.normalized_to_identity(var(20)), Some(gl_region(early(4))));
}

#[test]
fn alias_types_are_opaque() {
    let alias = AliasTy { def: 5, args: Box::new(ArgList::Region(var(1), Box::new(ArgList::Nil))) };
    let t = Ty::Alias(alias.clone());
    assert_eq!(OpaqueTy::try_from_ty(&t), Some(OpaqueTy::Alias(alias.clone())));
    assert_eq!(OpaqueTy::try_from_ty(&Ty::Other), None);
    assert!(!OpaqueTy::Alias(alias).is_param());
    assert!(opaque(0).is_param());
    assert_eq!(extract_regions(&t), vec![var(1)]);
    assert_eq!(extract_generalized_lifetimes(&tuple(vec![t])).len(), 1);
}

#[test]
fn regions_under_mutable_references_and_invariant_parameters_are_invariant() {
    let vs = AdtVariances { variances: vec![(0, vec![Variance::Invariant]), (1, vec![Variance::Covariant])] };
    let cell = adt(0, &[var(1)], vec![]);
    let plain = adt(1, &[var(2)], vec![]);
    assert!(region_is_invariant_in_type(&vs, var(1), &cell));
    assert!(!region_is_invariant_in_type(&vs, var(2), &plain));
    let mut_ref = reference(var(3), reference(var(4), Ty::Other, Mutability::Not), Mutability::Mut);
    assert!(region_is_invariant_in_type(&vs, var(4), &mut_ref));
    assert!(!region_is_invariant_in_type(&vs, var(3), &mut_ref));
    let shared = reference(var(5), reference(var(6), Ty::Other, Mutability::Mut), Mutability::Not);
    assert!(!region_is_invariant_in_type(&vs, var(6), &shared));
    assert!(region_is_invariant_in_type(&vs, var(1), &tuple(vec![Ty::Other, cell])));
}

#[test]
fn shape_of_a_call_connects_arguments_to_the_result_they_outlive() {
    let ds = call_data_source();
    let vs = AdtVariances { variances: vec![] };
    let args = ds.input_arg_projections();
    assert_eq!(args.len(), 3);
    assert_eq!(ds.result_projections().len(), 1);
    let shape = FunctionShape::new(&ds, &vs);
    assert_eq!(shape.inputs.len(), 3);
    assert_eq!(shape.outputs.len(), 1);
    let edges: Vec<(usize, usize, usize)> = shape
        .edges
        .iter()
        .map(|e| (e.input.base.0, e.input.region_idx.0, e.output.region_idx.0))
        .collect();
    assert_eq!(edges, vec![(0, 0, 0), (0, 1, 0), (1, 0, 0)]);
    assert!(shape.edges.iter().all(|e| e.output.base == ArgIdxOrResult::Result));
}

#[test]
fn trait_bounds_do_not_make_a_parameter_outlive_their_regions() {
    let with_bound = env(vec![Clause::Trait(
        Box::new(param(0)),
        Box::new(ArgList::Region(early(1), Box::new(ArgList::Nil))),
    )]);
    let without = env(vec![]);
    let inputs = vec![];
    assert!(!generalized_outlives(&gl_in(0), &gl_region(early(1)), &with_bound, &inputs));
    assert!(!generalized_outlives(&gl_region(early(1)), &gl_in(0), &with_bound, &inputs));
    assert_eq!(
        generalized_outlives(&gl_in(0), &gl_region(early(1)), &with_bound, &inputs),
        generalized_outlives(&gl_in(0), &gl_region(early(1)), &without, &inputs)
    );
}
