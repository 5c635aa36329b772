//! Types as the lifetime analysis of function signatures reads them: the kinds
//! of type that it tells apart, with their regions and component types, as
//! plain values. Lists of types and of generic arguments are linked lists, so
//! that two types are equal exactly when they have the same structure.
use vstd::prelude::*;
use crate::mir::Mutability;
use crate::region::PcgRegion;
use crate::unique::{add_absent, lemma_add_absent_concat, lemma_add_absent_members, lemma_add_absent_single, push_absent};

verus! {

/// A type parameter, by its index and the symbol of its name.
#[derive(Clone, Copy, Debug, PartialEq, Eq, Structural, Hash)]
pub struct ParamTy {
    pub index: u32,
    pub name: u32,
}

/// A type, by the kinds that the analysis tells apart. `FnPtr` holds the
/// types of the signature; `Closure` holds its generic arguments other than
/// the captured ones, then the types of the captured variables; `Other`
/// stands for the types without regions or component types (scalars,
/// `str`, `!`, ...).
#[derive(Debug)]
pub enum Ty {
    Param(ParamTy),
    Alias(AliasTy),
    Ref(PcgRegion, Box<Ty>, Mutability),
    Adt(u32, Box<ArgList>),
    Tuple(Box<TyList>),
    Slice(Box<Ty>),
    Array(Box<Ty>),
    RawPtr(Box<Ty>, Mutability),
    Dynamic(PcgRegion),
    FnPtr(Box<TyList>),
    Closure(Box<ArgList>, Box<TyList>),
    Other,
}

/// An associated type that cannot be normalised further: the item it
/// projects, by number, with its generic arguments.
#[derive(Debug)]
pub struct AliasTy {
    pub def: u32,
    pub args: Box<ArgList>,
}

/// A list of types.
#[derive(Debug)]
pub enum TyList {
    Nil,
    Cons(Box<Ty>, Box<TyList>),
}

/// A list of generic arguments: regions, types and constants.
#[derive(Debug)]
pub enum ArgList {
    Nil,
    Region(PcgRegion, Box<ArgList>),
    Type(Box<Ty>, Box<ArgList>),
    Const(Box<ArgList>),
}

pub(crate) fn ty_eq(x: &Ty, y: &Ty) -> (r: bool)
    ensures
        r == (*x == *y),
    decreases x,
{
    match (x, y) {
        (Ty::Param(a), Ty::Param(b)) => *a == *b,
        (Ty::Alias(a), Ty::Alias(b)) => alias_eq(a, b),
        (Ty::Ref(r1, t1, m1), Ty::Ref(r2, t2, m2)) => *r1 == *r2 && *m1 == *m2 && ty_eq(t1, t2),
        (Ty::Adt(d1, a1), Ty::Adt(d2, a2)) => *d1 == *d2 && args_eq(a1, a2),
        (Ty::Tuple(l1), Ty::Tuple(l2)) => tys_eq(l1, l2),
        (Ty::Slice(t1), Ty::Slice(t2)) => ty_eq(t1, t2),
        (Ty::Array(t1), Ty::Array(t2)) => ty_eq(t1, t2),
        (Ty::RawPtr(t1, m1), Ty::RawPtr(t2, m2)) => *m1 == *m2 && ty_eq(t1, t2),
        (Ty::Dynamic(r1), Ty::Dynamic(r2)) => *r1 == *r2,
        (Ty::FnPtr(l1), Ty::FnPtr(l2)) => tys_eq(l1, l2),
        (Ty::Closure(a1, l1), Ty::Closure(a2, l2)) => args_eq(a1, a2) && tys_eq(l1, l2),
        (Ty::Other, Ty::Other) => true,
        _ => false,
    }
}

fn alias_eq(x: &AliasTy, y: &AliasTy) -> (r: bool)
    ensures
        r == (*x == *y),
    decreases x,
{
    x.def == y.def && args_eq(&x.args, &y.args)
}

fn tys_eq(x: &TyList, y: &TyList) -> (r: bool)
    ensures
        r == (*x == *y),
    decreases x,
{
    match (x, y) {
        (TyList::Nil, TyList::Nil) => true,
        (TyList::Cons(h1, t1), TyList::Cons(h2, t2)) => ty_eq(h1, h2) && tys_eq(t1, t2),
        _ => false,
    }
}

fn args_eq(x: &ArgList, y: &ArgList) -> (r: bool)
    ensures
        r == (*x == *y),
    decreases x,
{
    match (x, y) {
        (ArgList::Nil, ArgList::Nil) => true,
        (ArgList::Region(r1, t1), ArgList::Region(r2, t2)) => *r1 == *r2 && args_eq(t1, t2),
        (ArgList::Type(h1, t1), ArgList::Type(h2, t2)) => ty_eq(h1, h2) && args_eq(t1, t2),
        (ArgList::Const(t1), ArgList::Const(t2)) => args_eq(t1, t2),
        _ => false,
    }
}

pub(crate) fn ty_dup(x: &Ty) -> (r: Ty)
    ensures
        r == *x,
    decreases x,
{
    match x {
        Ty::Param(p) => Ty::Param(*p),
        Ty::Alias(a) => Ty::Alias(alias_dup(a)),
        Ty::Ref(r, t, m) => Ty::Ref(*r, Box::new(ty_dup(t)), *m),
        Ty::Adt(d, a) => Ty::Adt(*d, Box::new(args_dup(a))),
        Ty::Tuple(l) => Ty::Tuple(Box::new(tys_dup(l))),
        Ty::Slice(t) => Ty::Slice(Box::new(ty_dup(t))),
        Ty::Array(t) => Ty::Array(Box::new(ty_dup(t))),
        Ty::RawPtr(t, m) => Ty::RawPtr(Box::new(ty_dup(t)), *m),
        Ty::Dynamic(r) => Ty::Dynamic(*r),
        Ty::FnPtr(l) => Ty::FnPtr(Box::new(tys_dup(l))),
        Ty::Closure(a, l) => Ty::Closure(Box::new(args_dup(a)), Box::new(tys_dup(l))),
        Ty::Other => Ty::Other,
    }
}

pub(crate) fn alias_dup(x: &AliasTy) -> (r: AliasTy)
    ensures
        r == *x,
    decreases x,
{
    AliasTy { def: x.def, args: Box::new(args_dup(&x.args)) }
}

fn tys_dup(x: &TyList) -> (r: TyList)
    ensures
        r == *x,
    decreases x,
{
    match x {
        TyList::Nil => TyList::Nil,
        TyList::Cons(h, t) => TyList::Cons(Box::new(ty_dup(h)), Box::new(tys_dup(t))),
    }
}

pub(crate) fn args_dup(x: &ArgList) -> (r: ArgList)
    ensures
        r == *x,
    decreases x,
{
    match x {
        ArgList::Nil => ArgList::Nil,
        ArgList::Region(r, t) => ArgList::Region(*r, Box::new(args_dup(t))),
        ArgList::Type(h, t) => ArgList::Type(Box::new(ty_dup(h)), Box::new(args_dup(t))),
        ArgList::Const(t) => ArgList::Const(Box::new(args_dup(t))),
    }
}

impl PartialEq for Ty {
    fn eq(&self, other: &Self) -> (r: bool) {
        ty_eq(self, other)
    }
}

impl vstd::std_specs::cmp::PartialEqSpecImpl for Ty {
    open spec fn obeys_eq_spec() -> bool {
        true
    }

    open spec fn eq_spec(&self, other: &Self) -> bool {
        *self == *other
    }
}

impl Eq for Ty {}

impl Clone for Ty {
    fn clone(&self) -> (r: Self)
        ensures
            r == *self,
    {
        ty_dup(self)
    }
}

impl PartialEq for AliasTy {
    fn eq(&self, other: &Self) -> (r: bool) {
        alias_eq(self, other)
    }
}

impl vstd::std_specs::cmp::PartialEqSpecImpl for AliasTy {
    open spec fn obeys_eq_spec() -> bool {
        true
    }

    open spec fn eq_spec(&self, other: &Self) -> bool {
        *self == *other
    }
}

impl Eq for AliasTy {}

impl Clone for AliasTy {
    fn clone(&self) -> (r: Self)
        ensures
            r == *self,
    {
        alias_dup(self)
    }
}

impl Clone for TyList {
    fn clone(&self) -> (r: Self)
        ensures
            r == *self,
    {
        tys_dup(self)
    }
}

impl Clone for ArgList {
    fn clone(&self) -> (r: Self)
        ensures
            r == *self,
    {
        args_dup(self)
    }
}


/// The regions of a type in the order in which the analysis visits them,
/// with repetitions: a reference's region before those of its referent; of
/// a trait object only its own region; nothing in a function pointer; of a
/// closure only what its captured variables hold.
pub open spec fn ty_regions(t: Ty) -> Seq<PcgRegion>
    decreases t,
{
    match t {
        Ty::Param(_) => Seq::empty(),
        Ty::Alias(a) => args_regions(*a.args),
        Ty::Ref(r, inner, _) => seq![r] + ty_regions(*inner),
        Ty::Adt(_, args) => args_regions(*args),
        Ty::Tuple(l) => list_regions(*l),
        Ty::Slice(inner) => ty_regions(*inner),
        Ty::Array(inner) => ty_regions(*inner),
        Ty::RawPtr(inner, _) => ty_regions(*inner),
        Ty::Dynamic(r) => seq![r],
        Ty::FnPtr(_) => Seq::empty(),
        Ty::Closure(_, upvars) => list_regions(*upvars),
        Ty::Other => Seq::empty(),
    }
}

/// The regions of the types of a list, in order.
pub open spec fn list_regions(l: TyList) -> Seq<PcgRegion>
    decreases l,
{
    match l {
        TyList::Nil => Seq::empty(),
        TyList::Cons(h, t) => ty_regions(*h) + list_regions(*t),
    }
}

/// The regions of a list of generic arguments, in order.
pub open spec fn args_regions(a: ArgList) -> Seq<PcgRegion>
    decreases a,
{
    match a {
        ArgList::Nil => Seq::empty(),
        ArgList::Region(r, t) => seq![r] + args_regions(*t),
        ArgList::Type(h, t) => ty_regions(*h) + args_regions(*t),
        ArgList::Const(t) => args_regions(*t),
    }
}

/// `t` with each of its regions `r` replaced by `f(r)`: a type of the same
/// shape.
pub open spec fn rename_ty(t: Ty, f: spec_fn(PcgRegion) -> PcgRegion) -> Ty
    decreases t,
{
    match t {
        Ty::Param(p) => Ty::Param(p),
        Ty::Alias(a) => Ty::Alias(AliasTy { def: a.def, args: Box::new(rename_args(*a.args, f)) }),
        Ty::Ref(r, inner, m) => Ty::Ref(f(r), Box::new(rename_ty(*inner, f)), m),
        Ty::Adt(d, args) => Ty::Adt(d, Box::new(rename_args(*args, f))),
        Ty::Tuple(l) => Ty::Tuple(Box::new(rename_list(*l, f))),
        Ty::Slice(inner) => Ty::Slice(Box::new(rename_ty(*inner, f))),
        Ty::Array(inner) => Ty::Array(Box::new(rename_ty(*inner, f))),
        Ty::RawPtr(inner, m) => Ty::RawPtr(Box::new(rename_ty(*inner, f)), m),
        Ty::Dynamic(r) => Ty::Dynamic(f(r)),
        Ty::FnPtr(l) => Ty::FnPtr(Box::new(rename_list(*l, f))),
        Ty::Closure(args, upvars) => Ty::Closure(Box::new(rename_args(*args, f)), Box::new(rename_list(*upvars, f))),
        Ty::Other => Ty::Other,
    }
}

/// The types of a list with their regions renamed by `f`.
pub open spec fn rename_list(l: TyList, f: spec_fn(PcgRegion) -> PcgRegion) -> TyList
    decreases l,
{
    match l {
        TyList::Nil => TyList::Nil,
        TyList::Cons(h, t) => TyList::Cons(Box::new(rename_ty(*h, f)), Box::new(rename_list(*t, f))),
    }
}

/// Generic arguments with their regions renamed by `f`.
pub open spec fn rename_args(a: ArgList, f: spec_fn(PcgRegion) -> PcgRegion) -> ArgList
    decreases a,
{
    match a {
        ArgList::Nil => ArgList::Nil,
        ArgList::Region(r, t) => ArgList::Region(f(r), Box::new(rename_args(*t, f))),
        ArgList::Type(h, t) => ArgList::Type(Box::new(rename_ty(*h, f)), Box::new(rename_args(*t, f))),
        ArgList::Const(t) => ArgList::Const(Box::new(rename_args(*t, f))),
    }
}

proof fn lemma_rename_ty_regions(t: Ty, f: spec_fn(PcgRegion) -> PcgRegion)
    ensures
        ty_regions(rename_ty(t, f)) == ty_regions(t).map_values(f),
    decreases t,
{
    match t {
        Ty::Alias(a) => lemma_rename_args_regions(*a.args, f),
        Ty::Ref(r, inner, _) => {
            lemma_rename_ty_regions(*inner, f);
            assert((seq![r] + ty_regions(*inner)).map_values(f) =~= seq![f(r)] + ty_regions(*inner).map_values(f));
        },
        Ty::Adt(_, args) => lemma_rename_args_regions(*args, f),
        Ty::Tuple(l) => lemma_rename_list_regions(*l, f),
        Ty::Slice(inner) => lemma_rename_ty_regions(*inner, f),
        Ty::Array(inner) => lemma_rename_ty_regions(*inner, f),
        Ty::RawPtr(inner, _) => lemma_rename_ty_regions(*inner, f),
        Ty::Dynamic(r) => {
            assert(seq![r].map_values(f) =~= seq![f(r)]);
        },
        Ty::Closure(_, upvars) => lemma_rename_list_regions(*upvars, f),
        _ => {
            assert(ty_regions(t).map_values(f) =~= Seq::<PcgRegion>::empty());
        },
    }
}

proof fn lemma_rename_list_regions(l: TyList, f: spec_fn(PcgRegion) -> PcgRegion)
    ensures
        list_regions(rename_list(l, f)) == list_regions(l).map_values(f),
    decreases l,
{
    match l {
        TyList::Nil => {
            assert(list_regions(l).map_values(f) =~= Seq::<PcgRegion>::empty());
        },
        TyList::Cons(h, t) => {
            lemma_rename_ty_regions(*h, f);
            lemma_rename_list_regions(*t, f);
            assert((ty_regions(*h) + list_regions(*t)).map_values(f)
                =~= ty_regions(*h).map_values(f) + list_regions(*t).map_values(f));
        },
    }
}

proof fn lemma_rename_args_regions(a: ArgList, f: spec_fn(PcgRegion) -> PcgRegion)
    ensures
        args_regions(rename_args(a, f)) == args_regions(a).map_values(f),
    decreases a,
{
    match a {
        ArgList::Nil => {
            assert(args_regions(a).map_values(f) =~= Seq::<PcgRegion>::empty());
        },
        ArgList::Region(r, t) => {
            lemma_rename_args_regions(*t, f);
            assert((seq![r] + args_regions(*t)).map_values(f) =~= seq![f(r)] + args_regions(*t).map_values(f));
        },
        ArgList::Type(h, t) => {
            lemma_rename_ty_regions(*h, f);
            lemma_rename_args_regions(*t, f);
            assert((ty_regions(*h) + args_regions(*t)).map_values(f)
                =~= ty_regions(*h).map_values(f) + args_regions(*t).map_values(f));
        },
        ArgList::Const(t) => lemma_rename_args_regions(*t, f),
    }
}

proof fn lemma_add_absent_map(acc: Seq<PcgRegion>, s: Seq<PcgRegion>, f: spec_fn(PcgRegion) -> PcgRegion)
    requires
        forall|x: PcgRegion, y: PcgRegion| #[trigger] f(x) == #[trigger] f(y) ==> x == y,
    ensures
        add_absent(acc.map_values(f), s.map_values(f)) == add_absent(acc, s).map_values(f),
    decreases s.len(),
{
    if s.len() == 0 {
        assert(s.map_values(f) =~= Seq::<PcgRegion>::empty());
    } else {
        let x = s[0];
        assert(acc.map_values(f).contains(f(x)) <==> acc.contains(x)) by {
            if acc.map_values(f).contains(f(x)) {
                let i = choose|i: int| 0 <= i < acc.map_values(f).len() && acc.map_values(f)[i] == f(x);
                assert(f(acc[i]) == f(x));
                assert(acc[i] == x);
            }
            if acc.contains(x) {
                let i = choose|i: int| 0 <= i < acc.len() && acc[i] == x;
                assert(acc.map_values(f)[i] == f(x));
            }
        }
        assert(push_absent(acc.map_values(f), f(x)) =~= push_absent(acc, x).map_values(f));
        assert(s.map_values(f)[0] == f(x));
        assert(s.map_values(f).drop_first() =~= s.drop_first().map_values(f));
        lemma_add_absent_map(push_absent(acc, x), s.drop_first(), f);
    }
}

/// Types of the same shape give their regions in the same order: renaming
/// the regions of a type by an injective `f` renames what `regions_of`
/// gives by `f`, position by position (`T<'a, 'b>` gives `['a, 'b]` and
/// `T<'c, 'd>` gives `['c, 'd]`).
pub proof fn lemma_regions_of_rename(t: Ty, f: spec_fn(PcgRegion) -> PcgRegion)
    requires
        forall|x: PcgRegion, y: PcgRegion| #[trigger] f(x) == #[trigger] f(y) ==> x == y,
    ensures
        regions_of(rename_ty(t, f)) == regions_of(t).map_values(f),
{
    lemma_rename_ty_regions(t, f);
    assert(Seq::<PcgRegion>::empty().map_values(f) =~= Seq::<PcgRegion>::empty());
    lemma_add_absent_map(Seq::empty(), ty_regions(t), f);
}

/// The regions of a type, each once, in the order of their first visit.
pub open spec fn regions_of(t: Ty) -> Seq<PcgRegion> {
    add_absent(Seq::empty(), ty_regions(t))
}

pub(crate) fn push_region_absent(acc: &mut Vec<PcgRegion>, r: PcgRegion)
    ensures
        final(acc)@ == push_absent(old(acc)@, r),
{
    let mut i: usize = 0;
    while i < acc.len()
        invariant
            i <= acc@.len(),
            forall|j: int| 0 <= j < i ==> acc@[j] != r,
        decreases acc.len() - i,
    {
        if acc[i] == r {
            assert(acc@.contains(r));
            return;
        }
        i = i + 1;
    }
    acc.push(r);
}

fn visit_ty_regions(t: &Ty, acc: &mut Vec<PcgRegion>)
    ensures
        final(acc)@ == add_absent(old(acc)@, ty_regions(*t)),
    decreases t,
{
    let ghost a0 = acc@;
    match t {
        Ty::Alias(al) => {
            visit_args_regions(&al.args, acc);
            assert(ty_regions(*t) == args_regions(*al.args));
        },
        Ty::Ref(r, inner, _) => {
            push_region_absent(acc, *r);
            visit_ty_regions(inner, acc);
            proof {
                lemma_add_absent_concat(a0, seq![*r], ty_regions(**inner));
                lemma_add_absent_single(a0, *r);
            }
        },
        Ty::Adt(_, args) => visit_args_regions(args, acc),
        Ty::Tuple(l) => visit_list_regions(l, acc),
        Ty::Slice(inner) => visit_ty_regions(inner, acc),
        Ty::Array(inner) => visit_ty_regions(inner, acc),
        Ty::RawPtr(inner, _) => visit_ty_regions(inner, acc),
        Ty::Dynamic(r) => {
            push_region_absent(acc, *r);
            proof {
                lemma_add_absent_single(a0, *r);
            }
        },
        Ty::Closure(_, upvars) => visit_list_regions(upvars, acc),
        _ => {},
    }
}

fn visit_list_regions(l: &TyList, acc: &mut Vec<PcgRegion>)
    ensures
        final(acc)@ == add_absent(old(acc)@, list_regions(*l)),
    decreases l,
{
    let ghost a0 = acc@;
    match l {
        TyList::Nil => {},
        TyList::Cons(h, t) => {
            visit_ty_regions(h, acc);
            visit_list_regions(t, acc);
            proof {
                lemma_add_absent_concat(a0, ty_regions(**h), list_regions(**t));
            }
        },
    }
}

fn visit_args_regions(a: &ArgList, acc: &mut Vec<PcgRegion>)
    ensures
        final(acc)@ == add_absent(old(acc)@, args_regions(*a)),
    decreases a,
{
    let ghost a0 = acc@;
    match a {
        ArgList::Nil => {
            assert(args_regions(*a) =~= Seq::<PcgRegion>::empty());
        },
        ArgList::Region(r, t) => {
            push_region_absent(acc, *r);
            visit_args_regions(t, acc);
            proof {
                lemma_add_absent_concat(a0, seq![*r], args_regions(**t));
                lemma_add_absent_single(a0, *r);
            }
        },
        ArgList::Type(h, t) => {
            visit_ty_regions(h, acc);
            visit_args_regions(t, acc);
            proof {
                lemma_add_absent_concat(a0, ty_regions(**h), args_regions(**t));
            }
        },
        ArgList::Const(t) => visit_args_regions(t, acc),
    }
}

/// The regions of `ty` that make up its lifetime projections: each region
/// once, in the order of its first visit (see `ty_regions`).
pub fn extract_regions(ty: &Ty) -> (rs: Vec<PcgRegion>)
    ensures
        rs@ == regions_of(*ty),
        rs@.no_duplicates(),
        forall|r: PcgRegion| rs@.contains(r) <==> ty_regions(*ty).contains(r),
{
    let mut acc: Vec<PcgRegion> = Vec::new();
    visit_ty_regions(ty, &mut acc);
    proof {
        lemma_add_absent_members(Seq::<PcgRegion>::empty(), ty_regions(*ty));
    }
    acc
}

/// A type whose structure the lifetime analysis does not look into: a type
/// parameter or an associated type that cannot be normalised.
#[derive(Debug)]
pub enum OpaqueTy {
    Param(ParamTy),
    Alias(AliasTy),
}

/// A generalized lifetime: a region, or all the regions in an opaque type.
#[derive(Debug)]
pub enum GeneralizedLifetime {
    Region(PcgRegion),
    RegionsIn(OpaqueTy),
}

pub(crate) fn opaque_eq(x: &OpaqueTy, y: &OpaqueTy) -> (r: bool)
    ensures
        r == (*x == *y),
{
    match (x, y) {
        (OpaqueTy::Param(a), OpaqueTy::Param(b)) => *a == *b,
        (OpaqueTy::Alias(a), OpaqueTy::Alias(b)) => alias_eq(a, b),
        _ => false,
    }
}

pub(crate) fn opaque_dup(x: &OpaqueTy) -> (r: OpaqueTy)
    ensures
        r == *x,
{
    match x {
        OpaqueTy::Param(p) => OpaqueTy::Param(*p),
        OpaqueTy::Alias(a) => OpaqueTy::Alias(alias_dup(a)),
    }
}

pub(crate) fn gl_eq(x: &GeneralizedLifetime, y: &GeneralizedLifetime) -> (r: bool)
    ensures
        r == (*x == *y),
{
    match (x, y) {
        (GeneralizedLifetime::Region(a), GeneralizedLifetime::Region(b)) => *a == *b,
        (GeneralizedLifetime::RegionsIn(a), GeneralizedLifetime::RegionsIn(b)) => opaque_eq(a, b),
        _ => false,
    }
}

pub(crate) fn gl_dup(x: &GeneralizedLifetime) -> (r: GeneralizedLifetime)
    ensures
        r == *x,
{
    match x {
        GeneralizedLifetime::Region(a) => GeneralizedLifetime::Region(*a),
        GeneralizedLifetime::RegionsIn(t) => GeneralizedLifetime::RegionsIn(opaque_dup(t)),
    }
}

impl PartialEq for OpaqueTy {
    fn eq(&self, other: &Self) -> (r: bool) {
        opaque_eq(self, other)
    }
}

impl vstd::std_specs::cmp::PartialEqSpecImpl for OpaqueTy {
    open spec fn obeys_eq_spec() -> bool {
        true
    }

    open spec fn eq_spec(&self, other: &Self) -> bool {
        *self == *other
    }
}

impl Eq for OpaqueTy {}

impl Clone for OpaqueTy {
    fn clone(&self) -> (r: Self)
        ensures
            r == *self,
    {
        opaque_dup(self)
    }
}

impl PartialEq for GeneralizedLifetime {
    fn eq(&self, other: &Self) -> (r: bool) {
        gl_eq(self, other)
    }
}

impl vstd::std_specs::cmp::PartialEqSpecImpl for GeneralizedLifetime {
    open spec fn obeys_eq_spec() -> bool {
        true
    }

    open spec fn eq_spec(&self, other: &Self) -> bool {
        *self == *other
    }
}

impl Eq for GeneralizedLifetime {}

impl Clone for GeneralizedLifetime {
    fn clone(&self) -> (r: Self)
        ensures
            r == *self,
    {
        gl_dup(self)
    }
}

/// The opaque type that a type is, if it is one.
pub open spec fn opaque_of(t: Ty) -> Option<OpaqueTy> {
    match t {
        Ty::Param(p) => Some(OpaqueTy::Param(p)),
        Ty::Alias(a) => Some(OpaqueTy::Alias(a)),
        _ => None,
    }
}

/// The type that an opaque type stands for.
pub open spec fn opaque_ty(o: OpaqueTy) -> Ty {
    match o {
        OpaqueTy::Param(p) => Ty::Param(p),
        OpaqueTy::Alias(a) => Ty::Alias(a),
    }
}

impl OpaqueTy {
    /// The opaque type that `ty` is: a type parameter or an associated type
    /// that cannot be normalised; `None` for any other type.
    pub fn try_from_ty(ty: &Ty) -> (r: Option<OpaqueTy>)
        ensures
            r == opaque_of(*ty),
    {
        match ty {
            Ty::Param(p) => Some(OpaqueTy::Param(*p)),
            Ty::Alias(a) => Some(OpaqueTy::Alias(alias_dup(a))),
            _ => None,
        }
    }

    /// The type that this opaque type stands for.
    pub fn ty(&self) -> (t: Ty)
        ensures
            t == opaque_ty(*self),
            opaque_of(t) == Some(*self),
    {
        match self {
            OpaqueTy::Param(p) => Ty::Param(*p),
            OpaqueTy::Alias(a) => Ty::Alias(alias_dup(a)),
        }
    }

    /// Whether this is a type parameter.
    pub fn is_param(&self) -> (b: bool)
        ensures
            b == (*self is Param),
    {
        match self {
            OpaqueTy::Param(_) => true,
            OpaqueTy::Alias(_) => false,
        }
    }
}

/// Every region of a type in visiting order, with repetitions, as a visit
/// that looks into every component sees them: unlike `ty_regions`, the
/// types of a function pointer's signature and all the generic arguments of
/// a closure count too.
pub open spec fn ty_all_regions(t: Ty) -> Seq<PcgRegion>
    decreases t,
{
    match t {
        Ty::Param(_) => Seq::empty(),
        Ty::Alias(a) => args_all_regions(*a.args),
        Ty::Ref(r, inner, _) => seq![r] + ty_all_regions(*inner),
        Ty::Adt(_, args) => args_all_regions(*args),
        Ty::Tuple(l) => list_all_regions(*l),
        Ty::Slice(inner) => ty_all_regions(*inner),
        Ty::Array(inner) => ty_all_regions(*inner),
        Ty::RawPtr(inner, _) => ty_all_regions(*inner),
        Ty::Dynamic(r) => seq![r],
        Ty::FnPtr(l) => list_all_regions(*l),
        Ty::Closure(args, upvars) => args_all_regions(*args) + list_all_regions(*upvars),
        Ty::Other => Seq::empty(),
    }
}

/// Every region of the types of a list, in order.
pub open spec fn list_all_regions(l: TyList) -> Seq<PcgRegion>
    decreases l,
{
    match l {
        TyList::Nil => Seq::empty(),
        TyList::Cons(h, t) => ty_all_regions(*h) + list_all_regions(*t),
    }
}

/// Every region of a list of generic arguments, in order.
pub open spec fn args_all_regions(a: ArgList) -> Seq<PcgRegion>
    decreases a,
{
    match a {
        ArgList::Nil => Seq::empty(),
        ArgList::Region(r, t) => seq![r] + args_all_regions(*t),
        ArgList::Type(h, t) => ty_all_regions(*h) + args_all_regions(*t),
        ArgList::Const(t) => args_all_regions(*t),
    }
}

fn collect_all_ty(t: &Ty, acc: &mut Vec<PcgRegion>)
    ensures
        final(acc)@ == old(acc)@ + ty_all_regions(*t),
    decreases t,
{
    let ghost a0 = acc@;
    match t {
        Ty::Alias(al) => {
            collect_all_args(&al.args, acc);
            assert(ty_all_regions(*t) == args_all_regions(*al.args));
        },
        Ty::Ref(r, inner, _) => {
            acc.push(*r);
            collect_all_ty(inner, acc);
            assert(acc@ =~= a0 + ty_all_regions(*t));
        },
        Ty::Adt(_, args) => collect_all_args(args, acc),
        Ty::Tuple(l) => collect_all_list(l, acc),
        Ty::Slice(inner) => collect_all_ty(inner, acc),
        Ty::Array(inner) => collect_all_ty(inner, acc),
        Ty::RawPtr(inner, _) => collect_all_ty(inner, acc),
        Ty::Dynamic(r) => {
            acc.push(*r);
            assert(acc@ =~= a0 + ty_all_regions(*t));
        },
        Ty::FnPtr(l) => collect_all_list(l, acc),
        Ty::Closure(args, upvars) => {
            collect_all_args(args, acc);
            collect_all_list(upvars, acc);
            assert(acc@ =~= a0 + ty_all_regions(*t));
        },
        Ty::Param(_) => {
            assert(acc@ =~= a0 + ty_all_regions(*t));
        },
        Ty::Other => {
            assert(acc@ =~= a0 + ty_all_regions(*t));
        },
    }
}

fn collect_all_list(l: &TyList, acc: &mut Vec<PcgRegion>)
    ensures
        final(acc)@ == old(acc)@ + list_all_regions(*l),
    decreases l,
{
    let ghost a0 = acc@;
    match l {
        TyList::Nil => {
            assert(acc@ =~= a0 + list_all_regions(*l));
        },
        TyList::Cons(h, t) => {
            collect_all_ty(h, acc);
            collect_all_list(t, acc);
            assert(acc@ =~= a0 + list_all_regions(*l));
        },
    }
}

fn collect_all_args(a: &ArgList, acc: &mut Vec<PcgRegion>)
    ensures
        final(acc)@ == old(acc)@ + args_all_regions(*a),
    decreases a,
{
    let ghost a0 = acc@;
    match a {
        ArgList::Nil => {
            assert(acc@ =~= a0 + args_all_regions(*a));
        },
        ArgList::Region(r, t) => {
            acc.push(*r);
            collect_all_args(t, acc);
            assert(acc@ =~= a0 + args_all_regions(*a));
        },
        ArgList::Type(h, t) => {
            collect_all_ty(h, acc);
            collect_all_args(t, acc);
            assert(acc@ =~= a0 + args_all_regions(*a));
        },
        ArgList::Const(t) => collect_all_args(t, acc),
    }
}

/// A clause of a parameter environment, as far as the analysis reads it: a
/// trait bound, by its self type and its other generic arguments; a bound
/// `T: 'r`, with whether it holds bound variables; or anything else.
#[derive(Debug)]
pub enum Clause {
    Trait(Box<Ty>, Box<ArgList>),
    TypeOutlives(Box<Ty>, PcgRegion, bool),
    Other,
}

/// The pairs of `(T, r)` that the trait bounds among `clauses` give: for a
/// bound `T: Trait<..>` on an opaque type `T`, every region among the other
/// arguments, in order; each pair once.
pub open spec fn trait_bound_pairs(clauses: Seq<Clause>) -> Seq<(OpaqueTy, PcgRegion)>
    decreases clauses.len(),
{
    if clauses.len() == 0 {
        Seq::empty()
    } else {
        let prev = trait_bound_pairs(clauses.drop_last());
        match clauses.last() {
            Clause::Trait(self_ty, args) => match opaque_of(*self_ty) {
                Some(o) => add_absent(prev, args_all_regions(*args).map_values(|r: PcgRegion| (o, r))),
                None => prev,
            },
            _ => prev,
        }
    }
}

/// The regions that pairs give to the opaque type `o`, in order.
pub open spec fn regions_for(pairs: Seq<(OpaqueTy, PcgRegion)>, o: OpaqueTy) -> Seq<PcgRegion>
    decreases pairs.len(),
{
    if pairs.len() == 0 {
        Seq::empty()
    } else {
        let prev = regions_for(pairs.drop_last(), o);
        if pairs.last().0 == o { prev.push(pairs.last().1) } else { prev }
    }
}

/// For each opaque type, the regions that appear in the trait bounds on it
/// (`T: Foo<'a, 'b>` gives `T` the regions `'a` and `'b`).
pub struct TraitBoundRegions {
    pub pairs: Vec<(OpaqueTy, PcgRegion)>,
}

pub(crate) fn push_pair_absent(acc: &mut Vec<(OpaqueTy, PcgRegion)>, o: &OpaqueTy, r: PcgRegion)
    ensures
        final(acc)@ == push_absent(old(acc)@, (*o, r)),
{
    let mut i: usize = 0;
    while i < acc.len()
        invariant
            i <= acc@.len(),
            forall|j: int| 0 <= j < i ==> acc@[j] != (*o, r),
        decreases acc.len() - i,
    {
        if opaque_eq(&acc[i].0, o) && acc[i].1 == r {
            assert(acc@[i as int] == (*o, r));
            assert(acc@.contains((*o, r)));
            return;
        }
        i = i + 1;
    }
    acc.push((opaque_dup(o), r));
}

impl TraitBoundRegions {
    /// The regions of the trait bounds in `clauses`, by the opaque type
    /// that they bound.
    pub fn new(clauses: &Vec<Clause>) -> (t: TraitBoundRegions)
        ensures
            t.pairs@ == trait_bound_pairs(clauses@),
    {
        let mut pairs: Vec<(OpaqueTy, PcgRegion)> = Vec::new();
        let mut i: usize = 0;
        while i < clauses.len()
            invariant
                i <= clauses@.len(),
                pairs@ == trait_bound_pairs(clauses@.subrange(0, i as int)),
            decreases clauses.len() - i,
        {
            let ghost before = pairs@;
            assert(clauses@.subrange(0, i + 1).drop_last() =~= clauses@.subrange(0, i as int));
            if let Clause::Trait(self_ty, args) = &clauses[i] {
                if let Some(o) = OpaqueTy::try_from_ty(self_ty) {
                    let mut collected: Vec<PcgRegion> = Vec::new();
                    collect_all_args(args, &mut collected);
                    assert(collected@ =~= args_all_regions(**args));
                    let ghost mapped = collected@.map_values(|r: PcgRegion| (o, r));
                    let mut k: usize = 0;
                    while k < collected.len()
                        invariant
                            k <= collected@.len(),
                            mapped == collected@.map_values(|r: PcgRegion| (o, r)),
                            pairs@ == add_absent(before, mapped.subrange(0, k as int)),
                        decreases collected.len() - k,
                    {
                        let ghost prev = pairs@;
                        push_pair_absent(&mut pairs, &o, collected[k]);
                        proof {
                            lemma_add_absent_concat(before, mapped.subrange(0, k as int), seq![mapped[k as int]]);
                            assert(mapped.subrange(0, k + 1) =~= mapped.subrange(0, k as int) + seq![mapped[k as int]]);
                            lemma_add_absent_single(prev, mapped[k as int]);
                        }
                        k = k + 1;
                    }
                    assert(mapped.subrange(0, collected@.len() as int) =~= mapped);
                }
            }
            i = i + 1;
        }
        assert(clauses@.subrange(0, clauses@.len() as int) =~= clauses@);
        TraitBoundRegions { pairs }
    }

    /// The regions that the trait bounds give to `o`, in order.
    pub fn get(&self, o: &OpaqueTy) -> (rs: Vec<PcgRegion>)
        ensures
            rs@ == regions_for(self.pairs@, *o),
    {
        let mut rs: Vec<PcgRegion> = Vec::new();
        let mut i: usize = 0;
        while i < self.pairs.len()
            invariant
                i <= self.pairs@.len(),
                rs@ == regions_for(self.pairs@.subrange(0, i as int), *o),
            decreases self.pairs.len() - i,
        {
            assert(self.pairs@.subrange(0, i + 1).drop_last() =~= self.pairs@.subrange(0, i as int));
            if opaque_eq(&self.pairs[i].0, o) {
                rs.push(self.pairs[i].1);
            }
            i = i + 1;
        }
        assert(self.pairs@.subrange(0, self.pairs@.len() as int) =~= self.pairs@);
        rs
    }
}

/// The generalized lifetimes of a type in visiting order, with repetitions:
/// an opaque type gives `RegionsIn` of itself followed by the regions that
/// the trait-bound pairs `tb` give it; every other region is visited as in
/// `ty_regions`.
pub open spec fn ty_gls(t: Ty, tb: Seq<(OpaqueTy, PcgRegion)>) -> Seq<GeneralizedLifetime>
    decreases t,
{
    match t {
        Ty::Param(p) => seq![GeneralizedLifetime::RegionsIn(OpaqueTy::Param(p))]
            + regions_for(tb, OpaqueTy::Param(p)).map_values(|r: PcgRegion| GeneralizedLifetime::Region(r)),
        Ty::Alias(a) => seq![GeneralizedLifetime::RegionsIn(OpaqueTy::Alias(a))]
            + regions_for(tb, OpaqueTy::Alias(a)).map_values(|r: PcgRegion| GeneralizedLifetime::Region(r)),
        Ty::Ref(r, inner, _) => seq![GeneralizedLifetime::Region(r)] + ty_gls(*inner, tb),
        Ty::Adt(_, args) => args_gls(*args, tb),
        Ty::Tuple(l) => list_gls(*l, tb),
        Ty::Slice(inner) => ty_gls(*inner, tb),
        Ty::Array(inner) => ty_gls(*inner, tb),
        Ty::RawPtr(inner, _) => ty_gls(*inner, tb),
        Ty::Dynamic(r) => seq![GeneralizedLifetime::Region(r)],
        Ty::FnPtr(_) => Seq::empty(),
        Ty::Closure(_, upvars) => list_gls(*upvars, tb),
        Ty::Other => Seq::empty(),
    }
}

/// The generalized lifetimes of the types of a list, in order.
pub open spec fn list_gls(l: TyList, tb: Seq<(OpaqueTy, PcgRegion)>) -> Seq<GeneralizedLifetime>
    decreases l,
{
    match l {
        TyList::Nil => Seq::empty(),
        TyList::Cons(h, t) => ty_gls(*h, tb) + list_gls(*t, tb),
    }
}

/// The generalized lifetimes of a list of generic arguments, in order.
pub open spec fn args_gls(a: ArgList, tb: Seq<(OpaqueTy, PcgRegion)>) -> Seq<GeneralizedLifetime>
    decreases a,
{
    match a {
        ArgList::Nil => Seq::empty(),
        ArgList::Region(r, t) => seq![GeneralizedLifetime::Region(r)] + args_gls(*t, tb),
        ArgList::Type(h, t) => ty_gls(*h, tb) + args_gls(*t, tb),
        ArgList::Const(t) => args_gls(*t, tb),
    }
}

pub(crate) fn push_gl_absent(acc: &mut Vec<GeneralizedLifetime>, g: &GeneralizedLifetime)
    ensures
        final(acc)@ == push_absent(old(acc)@, *g),
{
    let mut i: usize = 0;
    while i < acc.len()
        invariant
            i <= acc@.len(),
            forall|j: int| 0 <= j < i ==> acc@[j] != *g,
        decreases acc.len() - i,
    {
        if gl_eq(&acc[i], g) {
            assert(acc@.contains(*g));
            return;
        }
        i = i + 1;
    }
    acc.push(gl_dup(g));
}

fn push_opaque_gls(o: OpaqueTy, tbr: &TraitBoundRegions, acc: &mut Vec<GeneralizedLifetime>)
    ensures
        final(acc)@ == add_absent(
            old(acc)@,
            seq![GeneralizedLifetime::RegionsIn(o)]
                + regions_for(tbr.pairs@, o).map_values(|r: PcgRegion| GeneralizedLifetime::Region(r)),
        ),
{
    let ghost a0 = acc@;
    let bound = tbr.get(&o);
    let ghost mapped = bound@.map_values(|r: PcgRegion| GeneralizedLifetime::Region(r));
    let ghost head = seq![GeneralizedLifetime::RegionsIn(o)];
    push_gl_absent(acc, &GeneralizedLifetime::RegionsIn(o));
    proof {
        lemma_add_absent_single(a0, GeneralizedLifetime::RegionsIn(o));
        assert(mapped.subrange(0, 0) =~= Seq::<GeneralizedLifetime>::empty());
    }
    let mut k: usize = 0;
    while k < bound.len()
        invariant
            k <= bound@.len(),
            mapped == bound@.map_values(|r: PcgRegion| GeneralizedLifetime::Region(r)),
            acc@ == add_absent(add_absent(a0, head), mapped.subrange(0, k as int)),
        decreases bound.len() - k,
    {
        let ghost prev = acc@;
        push_gl_absent(acc, &GeneralizedLifetime::Region(bound[k]));
        proof {
            lemma_add_absent_concat(add_absent(a0, head), mapped.subrange(0, k as int), seq![mapped[k as int]]);
            assert(mapped.subrange(0, k + 1) =~= mapped.subrange(0, k as int) + seq![mapped[k as int]]);
            lemma_add_absent_single(prev, mapped[k as int]);
        }
        k = k + 1;
    }
    proof {
        assert(mapped.subrange(0, bound@.len() as int) =~= mapped);
        lemma_add_absent_concat(a0, head, mapped);
    }
}

fn visit_ty_gls(t: &Ty, tbr: &TraitBoundRegions, acc: &mut Vec<GeneralizedLifetime>)
    ensures
        final(acc)@ == add_absent(old(acc)@, ty_gls(*t, tbr.pairs@)),
    decreases t,
{
    let ghost a0 = acc@;
    let ghost tb = tbr.pairs@;
    match t {
        Ty::Param(p) => push_opaque_gls(OpaqueTy::Param(*p), tbr, acc),
        Ty::Alias(al) => push_opaque_gls(OpaqueTy::Alias(alias_dup(al)), tbr, acc),
        Ty::Ref(r, inner, _) => {
            push_gl_absent(acc, &GeneralizedLifetime::Region(*r));
            visit_ty_gls(inner, tbr, acc);
            proof {
                lemma_add_absent_concat(a0, seq![GeneralizedLifetime::Region(*r)], ty_gls(**inner, tb));
                lemma_add_absent_single(a0, GeneralizedLifetime::Region(*r));
            }
        },
        Ty::Adt(_, args) => visit_args_gls(args, tbr, acc),
        Ty::Tuple(l) => visit_list_gls(l, tbr, acc),
        Ty::Slice(inner) => visit_ty_gls(inner, tbr, acc),
        Ty::Array(inner) => visit_ty_gls(inner, tbr, acc),
        Ty::RawPtr(inner, _) => visit_ty_gls(inner, tbr, acc),
        Ty::Dynamic(r) => {
            push_gl_absent(acc, &GeneralizedLifetime::Region(*r));
            proof {
                lemma_add_absent_single(a0, GeneralizedLifetime::Region(*r));
            }
        },
        Ty::Closure(_, upvars) => visit_list_gls(upvars, tbr, acc),
        Ty::FnPtr(_) => {},
        Ty::Other => {},
    }
}

fn visit_list_gls(l: &TyList, tbr: &TraitBoundRegions, acc: &mut Vec<GeneralizedLifetime>)
    ensures
        final(acc)@ == add_absent(old(acc)@, list_gls(*l, tbr.pairs@)),
    decreases l,
{
    let ghost a0 = acc@;
    match l {
        TyList::Nil => {},
        TyList::Cons(h, t) => {
            visit_ty_gls(h, tbr, acc);
            visit_list_gls(t, tbr, acc);
            proof {
                lemma_add_absent_concat(a0, ty_gls(**h, tbr.pairs@), list_gls(**t, tbr.pairs@));
            }
        },
    }
}

fn visit_args_gls(a: &ArgList, tbr: &TraitBoundRegions, acc: &mut Vec<GeneralizedLifetime>)
    ensures
        final(acc)@ == add_absent(old(acc)@, args_gls(*a, tbr.pairs@)),
    decreases a,
{
    let ghost a0 = acc@;
    match a {
        ArgList::Nil => {
            assert(args_gls(*a, tbr.pairs@) =~= Seq::<GeneralizedLifetime>::empty());
        },
        ArgList::Region(r, t) => {
            push_gl_absent(acc, &GeneralizedLifetime::Region(*r));
            visit_args_gls(t, tbr, acc);
            proof {
                lemma_add_absent_concat(a0, seq![GeneralizedLifetime::Region(*r)], args_gls(**t, tbr.pairs@));
                lemma_add_absent_single(a0, GeneralizedLifetime::Region(*r));
            }
        },
        ArgList::Type(h, t) => {
            visit_ty_gls(h, tbr, acc);
            visit_args_gls(t, tbr, acc);
            proof {
                lemma_add_absent_concat(a0, ty_gls(**h, tbr.pairs@), args_gls(**t, tbr.pairs@));
            }
        },
        ArgList::Const(t) => visit_args_gls(t, tbr, acc),
    }
}

/// The generalized lifetimes of `ty`, each once, in the order of their
/// first visit; an opaque type `T` is followed by the regions that the trait
/// bounds on `T` hold (`T: Foo<'a, 'b>` gives `RegionsIn(T)`, `'a`, `'b`).
pub fn extract_generalized_lifetimes_with_bounds(ty: &Ty, tbr: &TraitBoundRegions) -> (gls: Vec<GeneralizedLifetime>)
    ensures
        gls@ == add_absent(Seq::empty(), ty_gls(*ty, tbr.pairs@)),
{
    let mut acc: Vec<GeneralizedLifetime> = Vec::new();
    visit_ty_gls(ty, tbr, &mut acc);
    acc
}

/// The generalized lifetimes of `ty`, each once, in the order of their
/// first visit: its regions and `RegionsIn(T)` for each opaque type `T`.
pub fn extract_generalized_lifetimes(ty: &Ty) -> (gls: Vec<GeneralizedLifetime>)
    ensures
        gls@ == add_absent(Seq::empty(), ty_gls(*ty, Seq::empty())),
{
    let none = TraitBoundRegions { pairs: Vec::new() };
    extract_generalized_lifetimes_with_bounds(ty, &none)
}

} // verus!
