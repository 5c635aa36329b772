//! Sequences without repetitions, built by appending elements that are not
//! there yet, in the order of their first occurrence.
use vstd::prelude::*;

verus! {

/// `acc` with `x` appended unless it already holds it.
pub open spec fn push_absent<A>(acc: Seq<A>, x: A) -> Seq<A> {
    if acc.contains(x) { acc } else { acc.push(x) }
}

/// `acc` with the elements of `s` appended in order, each unless it is
/// already there.
pub open spec fn add_absent<A>(acc: Seq<A>, s: Seq<A>) -> Seq<A>
    decreases s.len(),
{
    if s.len() == 0 {
        acc
    } else {
        add_absent(push_absent(acc, s[0]), s.drop_first())
    }
}

/// Adding the elements of two sequences one after the other.
pub proof fn lemma_add_absent_concat<A>(acc: Seq<A>, s1: Seq<A>, s2: Seq<A>)
    ensures
        add_absent(acc, s1 + s2) == add_absent(add_absent(acc, s1), s2),
    decreases s1.len(),
{
    if s1.len() == 0 {
        assert(s1 + s2 =~= s2);
    } else {
        assert((s1 + s2).drop_first() =~= s1.drop_first() + s2);
        assert((s1 + s2)[0] == s1[0]);
        lemma_add_absent_concat(push_absent(acc, s1[0]), s1.drop_first(), s2);
    }
}

/// Adding a single element.
pub proof fn lemma_add_absent_single<A>(acc: Seq<A>, x: A)
    ensures
        add_absent(acc, seq![x]) == push_absent(acc, x),
{
    assert(seq![x].drop_first() =~= Seq::<A>::empty());
    assert(add_absent(push_absent(acc, x), Seq::<A>::empty()) == push_absent(acc, x));
}

/// What `add_absent` gives: no element twice if `acc` held none twice, and
/// exactly the elements of `acc` and of `s`.
pub proof fn lemma_add_absent_members<A>(acc: Seq<A>, s: Seq<A>)
    ensures
        acc.no_duplicates() ==> add_absent(acc, s).no_duplicates(),
        forall|x: A| add_absent(acc, s).contains(x) <==> (acc.contains(x) || s.contains(x)),
        acc.is_prefix_of(add_absent(acc, s)),
    decreases s.len(),
{
    if s.len() > 0 {
        let acc2 = push_absent(acc, s[0]);
        lemma_add_absent_members(acc2, s.drop_first());
        assert forall|x: A| acc2.contains(x) <==> (acc.contains(x) || x == s[0]) by {
            if !acc.contains(s[0]) {
                if acc2.contains(x) && !acc.contains(x) {
                    let i = choose|i: int| 0 <= i < acc2.len() && acc2[i] == x;
                    assert(i == acc.len());
                }
                if acc.contains(x) {
                    let i = choose|i: int| 0 <= i < acc.len() && acc[i] == x;
                    assert(acc2[i] == x);
                }
                if x == s[0] {
                    assert(acc2[acc.len() as int] == x);
                }
            }
        }
        assert forall|x: A| s.contains(x) <==> (x == s[0] || s.drop_first().contains(x)) by {
            if s.contains(x) && x != s[0] {
                let i = choose|i: int| 0 <= i < s.len() && s[i] == x;
                assert(s.drop_first()[i - 1] == x);
            }
            if s.drop_first().contains(x) {
                let i = choose|i: int| 0 <= i < s.drop_first().len() && s.drop_first()[i] == x;
                assert(s[i + 1] == x);
            }
            if x == s[0] {
                assert(s[0] == x);
            }
        }
        assert(acc.is_prefix_of(acc2));
        assert(acc.is_prefix_of(add_absent(acc, s)));
    }
}

} // verus!
