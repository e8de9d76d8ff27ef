//! Small sequence facts used by the loops that filter and group records.

use vstd::prelude::*;

verus! {

/// Filtering a sequence extended by one element keeps the filtered prefix
/// and appends the element exactly when it satisfies the predicate.
pub proof fn lemma_filter_push<A>(s: Seq<A>, p: spec_fn(A) -> bool, x: A)
    ensures
        s.push(x).filter(p) == s.filter(p) + (if p(x) {
            seq![x]
        } else {
            Seq::<A>::empty()
        }),
{
    reveal_with_fuel(Seq::filter, 3);
    assert(s.push(x).drop_last() =~= s);
    assert(s.push(x).last() == x);
    if p(x) {
        assert(s.push(x).filter(p) =~= s.filter(p) + seq![x]);
    } else {
        assert(s.push(x).filter(p) =~= s.filter(p) + Seq::<A>::empty());
    }
}

/// The same fact, phrased for one step of a loop that walks `s` from the
/// front: the filtered image of `s.take(i + 1)` extends that of `s.take(i)`.
pub proof fn lemma_filter_take_step<A>(s: Seq<A>, p: spec_fn(A) -> bool, i: int)
    requires
        0 <= i < s.len(),
    ensures
        s.take(i + 1).filter(p) == s.take(i).filter(p) + (if p(s[i]) {
            seq![s[i]]
        } else {
            Seq::<A>::empty()
        }),
{
    assert(s.take(i + 1) =~= s.take(i).push(s[i]));
    lemma_filter_push(s.take(i), p, s[i]);
}

/// The element-wise deep view of a sequence; for a vector `v`,
/// `v.deep_view()` equals `deep(v@)`.
pub open spec fn deep<T: DeepView>(s: Seq<T>) -> Seq<T::V> {
    Seq::new(s.len(), |i: int| s[i].deep_view())
}

/// Deep views commute with taking a subrange.
pub proof fn lemma_deep_subrange<T: DeepView>(s: Seq<T>, a: int, b: int)
    requires
        0 <= a <= b <= s.len(),
    ensures
        deep(s.subrange(a, b)) == deep(s).subrange(a, b),
{
    assert(deep(s.subrange(a, b)) =~= deep(s).subrange(a, b));
}

/// Deep views commute with removing one element.
pub proof fn lemma_deep_remove<T: DeepView>(s: Seq<T>, m: int)
    requires
        0 <= m < s.len(),
    ensures
        deep(s.remove(m)) == deep(s).remove(m),
{
    assert(deep(s.remove(m)) =~= deep(s).remove(m));
}

/// Deep views commute with appending one element.
pub proof fn lemma_deep_push<T: DeepView>(s: Seq<T>, x: T)
    ensures
        deep(s.push(x)) == deep(s).push(x.deep_view()),
{
    assert(deep(s.push(x)) =~= deep(s).push(x.deep_view()));
}

/// Every element of a filtered sequence satisfies the predicate and comes
/// from the original sequence; every element of the original sequence that
/// satisfies the predicate is in the filtered one.
pub proof fn lemma_filter_membership<A>(s: Seq<A>, p: spec_fn(A) -> bool)
    ensures
        forall|i: int| 0 <= i < s.filter(p).len() ==> p(#[trigger] s.filter(p)[i]),
        forall|i: int|
            0 <= i < s.len() && p(s[i]) ==> #[trigger] s.filter(p).contains(s[i]),
        s.filter(p).len() <= s.len(),
{
    broadcast use vstd::seq_lib::group_filter_ensures;

}

/// Filtering keeps relative order: two elements of the filtered sequence
/// come, in the same order, from two positions of the original one.
pub proof fn lemma_filter_ordered<A>(s: Seq<A>, p: spec_fn(A) -> bool, t1: int, t2: int)
    requires
        0 <= t1 < t2 < s.filter(p).len(),
    ensures
        exists|i1: int, i2: int|
            0 <= i1 < i2 < s.len() && s[i1] == s.filter(p)[t1] && s[i2] == s.filter(p)[t2],
    decreases s.len(),
{
    reveal(Seq::filter);
    let rest = s.drop_last();
    if p(s.last()) && t2 == rest.filter(p).len() {
        lemma_filter_preimage(rest, p, t1);
        let i1 = choose|i1: int| 0 <= i1 < rest.len() && rest[i1] == rest.filter(p)[t1];
        assert(s[i1] == s.filter(p)[t1]);
        assert(s[s.len() - 1] == s.filter(p)[t2]);
    } else {
        lemma_filter_ordered(rest, p, t1, t2);
        let (i1, i2) = choose|i1: int, i2: int|
            0 <= i1 < i2 < rest.len() && rest[i1] == rest.filter(p)[t1] && rest[i2]
                == rest.filter(p)[t2];
        assert(s[i1] == s.filter(p)[t1]);
        assert(s[i2] == s.filter(p)[t2]);
    }
}

/// Every element of a filtered sequence stands at some position of the
/// original one.
pub proof fn lemma_filter_preimage<A>(s: Seq<A>, p: spec_fn(A) -> bool, t: int)
    requires
        0 <= t < s.filter(p).len(),
    ensures
        exists|i: int| 0 <= i < s.len() && s[i] == s.filter(p)[t],
    decreases s.len(),
{
    reveal(Seq::filter);
    let rest = s.drop_last();
    if p(s.last()) && t == rest.filter(p).len() {
        assert(s[s.len() - 1] == s.filter(p)[t]);
    } else {
        lemma_filter_preimage(rest, p, t);
        let i = choose|i: int| 0 <= i < rest.len() && rest[i] == rest.filter(p)[t];
        assert(s[i] == s.filter(p)[t]);
    }
}

} // verus!
