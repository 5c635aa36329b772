//! The union-find structure of the `union_find` crate, as the coupling
//! algorithm uses it: created with one singleton set per key, then merged and
//! queried by key.
use vstd::prelude::*;
use union_find::{QuickUnionUf, UnionBySize, UnionFind};

verus! {

/// The union-find structure with quick unions, merged by size.
#[verifier::external_type_specification]
#[verifier::external_body]
#[verifier::reject_recursive_types(V)]
pub struct ExQuickUnionUf<V>(QuickUnionUf<V>);

/// The size record that `QuickUnionUf` merges by.
#[verifier::external_type_specification]
#[verifier::external_body]
pub struct ExUnionBySize(UnionBySize);

/// What a union-find structure holds: for each key, the root key of its set.
pub uninterp spec fn uf_roots(uf: QuickUnionUf<UnionBySize>) -> Seq<usize>;

/// A root sequence in which every key's root is a key and is its own root.
pub open spec fn roots_wf(r: Seq<usize>) -> bool {
    forall|x: int| 0 <= x < r.len() ==> #[trigger] r[x] < r.len() && r[r[x] as int] == r[x]
}

/// `QuickUnionUf::new` (the `UnionFind` trait's default): one set per key
/// `0..len`, so every key is its own root.
#[verifier::external_body]
pub fn uf_new(len: usize) -> (uf: QuickUnionUf<UnionBySize>)
    ensures
        uf_roots(uf) == Seq::new(len as nat, |i: int| i as usize),
{
    QuickUnionUf::<UnionBySize>::new(len)
}

/// `QuickUnionUf::find`: returns the root of `key`'s set. It halves the path
/// it walks, which leaves every key's root unchanged. It indexes its parent
/// vector by `key`, which panics unless `key` is a key.
#[verifier::external_body]
pub fn uf_find(uf: &mut QuickUnionUf<UnionBySize>, key: usize) -> (r: usize)
    requires
        key < uf_roots(*old(uf)).len(),
    ensures
        uf_roots(*final(uf)) == uf_roots(*old(uf)),
        r == uf_roots(*old(uf))[key as int],
{
    uf.find(key)
}

/// `QuickUnionUf::union`: finds both roots; if they are equal returns `false`
/// and changes nothing; otherwise links one root under the other (the root of
/// the larger set stays root) and returns `true`, so that every key of the
/// two sets then has the remaining root and all other keys keep theirs.
#[verifier::external_body]
pub fn uf_union(uf: &mut QuickUnionUf<UnionBySize>, key0: usize, key1: usize) -> (merged: bool)
    requires
        key0 < uf_roots(*old(uf)).len(),
        key1 < uf_roots(*old(uf)).len(),
    ensures
        uf_roots(*final(uf)).len() == uf_roots(*old(uf)).len(),
        merged == (uf_roots(*old(uf))[key0 as int] != uf_roots(*old(uf))[key1 as int]),
        !merged ==> uf_roots(*final(uf)) == uf_roots(*old(uf)),
        merged ==> (uf_roots(*final(uf))[key0 as int] == uf_roots(*old(uf))[key0 as int]
            || uf_roots(*final(uf))[key0 as int] == uf_roots(*old(uf))[key1 as int]),
        merged ==> forall|x: int| 0 <= x < uf_roots(*old(uf)).len() ==>
            #[trigger] uf_roots(*final(uf))[x] == (
                if uf_roots(*old(uf))[x] == uf_roots(*old(uf))[key0 as int]
                    || uf_roots(*old(uf))[x] == uf_roots(*old(uf))[key1 as int] {
                    uf_roots(*final(uf))[key0 as int]
                } else {
                    uf_roots(*old(uf))[x]
                }),
{
    uf.union(key0, key1)
}

} // verus!
