use vstd::multiset::Multiset;
use vstd::prelude::*;

verus! {

/// How many elements of `s` satisfy `p`.
pub open spec fn count_matching<T>(s: Seq<T>, p: spec_fn(T) -> bool) -> int
    decreases s.len(),
{
    if s.len() == 0 {
        0
    } else {
        count_matching(s.drop_last(), p) + if p(s.last()) {
            1int
        } else {
            0int
        }
    }
}

pub proof fn lemma_count_matching_bounds<T>(s: Seq<T>, p: spec_fn(T) -> bool)
    ensures
        0 <= count_matching(s, p) <= s.len(),
    decreases s.len(),
{
    if s.len() > 0 {
        lemma_count_matching_bounds(s.drop_last(), p);
    }
}

/// Replacing one element changes the count only by the difference the two
/// elements make.
pub proof fn lemma_count_matching_update<T>(s: Seq<T>, p: spec_fn(T) -> bool, i: int, v: T)
    requires
        0 <= i < s.len(),
    ensures
        count_matching(s.update(i, v), p) == count_matching(s, p) - (if p(s[i]) {
            1int
        } else {
            0int
        }) + (if p(v) {
            1int
        } else {
            0int
        }),
    decreases s.len(),
{
    let su = s.update(i, v);
    assert(su.len() == s.len());
    if i == s.len() - 1 {
        assert(su.drop_last() =~= s.drop_last());
        assert(su.last() == v);
    } else {
        assert(su.drop_last() =~= s.drop_last().update(i, v));
        assert(su.last() == s.last());
        lemma_count_matching_update(s.drop_last(), p, i, v);
    }
}

/// Pointwise implication gives an inequality between the counts.
pub proof fn lemma_count_matching_le<T>(s: Seq<T>, p: spec_fn(T) -> bool, q: spec_fn(T) -> bool)
    requires
        forall|i: int| 0 <= i < s.len() && p(s[i]) ==> q(s[i]),
    ensures
        count_matching(s, p) <= count_matching(s, q),
    decreases s.len(),
{
    if s.len() > 0 {
        assert(forall|i: int|
            0 <= i < s.drop_last().len() && p(#[trigger] s.drop_last()[i]) ==> q(s.drop_last()[i]));
        lemma_count_matching_le(s.drop_last(), p, q);
    }
}

/// Pointwise equivalence gives equal counts.
pub proof fn lemma_count_matching_ext<T>(s: Seq<T>, p: spec_fn(T) -> bool, q: spec_fn(T) -> bool)
    requires
        forall|i: int| 0 <= i < s.len() ==> (p(s[i]) <==> q(s[i])),
    ensures
        count_matching(s, p) == count_matching(s, q),
{
    lemma_count_matching_le(s, p, q);
    lemma_count_matching_le(s, q, p);
}

/// Two predicates that split every element exactly once have counts that sum
/// to the length.
pub proof fn lemma_count_matching_complement<T>(
    s: Seq<T>,
    p: spec_fn(T) -> bool,
    q: spec_fn(T) -> bool,
)
    requires
        forall|i: int| 0 <= i < s.len() ==> (q(s[i]) <==> !p(s[i])),
    ensures
        count_matching(s, p) + count_matching(s, q) == s.len(),
    decreases s.len(),
{
    if s.len() > 0 {
        assert(forall|i: int|
            0 <= i < s.drop_last().len() ==> (q(#[trigger] s.drop_last()[i]) <==> !p(
                s.drop_last()[i],
            )));
        lemma_count_matching_complement(s.drop_last(), p, q);
    }
}

/// If `p` never holds without `q` and the counts agree, then `q` never holds
/// without `p` either.
pub proof fn lemma_count_matching_eq_pointwise<T>(
    s: Seq<T>,
    p: spec_fn(T) -> bool,
    q: spec_fn(T) -> bool,
)
    requires
        forall|i: int| 0 <= i < s.len() && p(s[i]) ==> q(s[i]),
        count_matching(s, p) == count_matching(s, q),
    ensures
        forall|i: int| 0 <= i < s.len() && q(s[i]) ==> p(s[i]),
    decreases s.len(),
{
    if s.len() > 0 {
        let d = s.drop_last();
        assert(forall|i: int| 0 <= i < d.len() && p(#[trigger] d[i]) ==> q(d[i]));
        lemma_count_matching_le(d, p, q);
        if p(s.last()) || !q(s.last()) {
            assert(count_matching(d, p) == count_matching(d, q));
            lemma_count_matching_eq_pointwise(d, p, q);
            assert forall|i: int| 0 <= i < s.len() && q(s[i]) implies p(s[i]) by {
                if i < d.len() {
                    assert(d[i] == s[i]);
                    assert(q(d[i]) ==> p(d[i]));
                } else {
                    assert(s[i] == s.last());
                }
            }
        } else {
            assert(count_matching(s, p) == count_matching(d, p));
            assert(count_matching(s, q) == count_matching(d, q) + 1);
            assert(false);
        }
    }
}

/// If wherever `p` holds of `s2` it also holds of `s1`, the count in `s2` is
/// at most the count in `s1`.
pub proof fn lemma_count_matching_pointwise_le<T>(s1: Seq<T>, s2: Seq<T>, p: spec_fn(T) -> bool)
    requires
        s1.len() == s2.len(),
        forall|i: int| 0 <= i < s2.len() && p(s2[i]) ==> p(s1[i]),
    ensures
        count_matching(s2, p) <= count_matching(s1, p),
    decreases s1.len(),
{
    if s1.len() > 0 {
        let d1 = s1.drop_last();
        let d2 = s2.drop_last();
        assert(forall|i: int| 0 <= i < d1.len() ==> #[trigger] d1[i] == s1[i]);
        assert(forall|i: int| 0 <= i < d2.len() ==> #[trigger] d2[i] == s2[i]);
        lemma_count_matching_pointwise_le(d1, d2, p);
    }
}

/// Two sequences on which `p` agrees position by position have the same count.
pub proof fn lemma_count_matching_congruence<T>(s1: Seq<T>, s2: Seq<T>, p: spec_fn(T) -> bool)
    requires
        s1.len() == s2.len(),
        forall|i: int| 0 <= i < s1.len() ==> (p(s1[i]) <==> p(s2[i])),
    ensures
        count_matching(s1, p) == count_matching(s2, p),
    decreases s1.len(),
{
    if s1.len() > 0 {
        let d1 = s1.drop_last();
        let d2 = s2.drop_last();
        assert(forall|i: int| 0 <= i < d1.len() ==> #[trigger] d1[i] == s1[i]);
        assert(forall|i: int| 0 <= i < d2.len() ==> #[trigger] d2[i] == s2[i]);
        lemma_count_matching_congruence(d1, d2, p);
    }
}

/// When `p` holds exactly of the first `k` elements, the count is `k`.
pub proof fn lemma_count_matching_prefix<T>(s: Seq<T>, p: spec_fn(T) -> bool, k: int)
    requires
        0 <= k <= s.len(),
        forall|i: int| 0 <= i < s.len() ==> (p(s[i]) <==> i < k),
    ensures
        count_matching(s, p) == k,
    decreases s.len(),
{
    if s.len() > 0 {
        let d = s.drop_last();
        assert(forall|i: int| 0 <= i < d.len() ==> #[trigger] d[i] == s[i]);
        if k == s.len() {
            lemma_count_matching_prefix(d, p, k - 1);
        } else {
            lemma_count_matching_prefix(d, p, k);
        }
    }
}

/// When `p` holds exactly of the elements equal to `v`, the count is the
/// multiplicity of `v` in the sequence's multiset.
pub proof fn lemma_count_matching_is_multiplicity<T>(s: Seq<T>, p: spec_fn(T) -> bool, v: T)
    requires
        forall|i: int| 0 <= i < s.len() ==> (p(s[i]) <==> s[i] == v),
    ensures
        count_matching(s, p) == s.to_multiset().count(v),
    decreases s.len(),
{
    broadcast use vstd::seq_lib::group_to_multiset_ensures;

    if s.len() == 0 {
        assert(s.to_multiset() =~= Multiset::<T>::empty());
    } else {
        let d = s.drop_last();
        assert(forall|i: int| 0 <= i < d.len() ==> (p(#[trigger] d[i]) <==> d[i] == v));
        lemma_count_matching_is_multiplicity(d, p, v);
        assert(s =~= d.push(s.last()));
        assert(d.push(s.last()).to_multiset() =~= d.to_multiset().insert(s.last()));
    }
}

} // verus!
