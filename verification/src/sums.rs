//! Weighted sums over sequences, and the lemmas the tree aggregation needs:
//! a sum is unchanged by permutation and splits around any index.

use vstd::prelude::*;
use vstd::seq_lib::group_to_multiset_ensures;

verus! {

/// Sum of `w` over all elements of `s`.
pub open spec fn weight_sum<T>(s: Seq<T>, w: spec_fn(T) -> int) -> int
    decreases s.len(),
{
    if s.len() == 0 {
        0
    } else {
        weight_sum(s.drop_last(), w) + w(s.last())
    }
}

pub proof fn lemma_weight_sum_push<T>(s: Seq<T>, w: spec_fn(T) -> int, x: T)
    ensures
        weight_sum(s.push(x), w) == weight_sum(s, w) + w(x),
{
    assert(s.push(x).drop_last() =~= s);
    assert(s.push(x).last() == x);
}

/// Removing one element takes exactly its weight out of the sum.
pub proof fn lemma_weight_sum_remove<T>(s: Seq<T>, w: spec_fn(T) -> int, i: int)
    requires
        0 <= i < s.len(),
    ensures
        weight_sum(s.remove(i), w) == weight_sum(s, w) - w(s[i]),
    decreases s.len(),
{
    if i == s.len() - 1 {
        assert(s.remove(i) =~= s.drop_last());
    } else {
        assert(s.remove(i).drop_last() =~= s.drop_last().remove(i));
        assert(s.remove(i).last() == s.last());
        lemma_weight_sum_remove(s.drop_last(), w, i);
    }
}

/// Two sequences with the same multiset of elements have the same sum.
pub proof fn lemma_weight_sum_permutation<T>(s1: Seq<T>, s2: Seq<T>, w: spec_fn(T) -> int)
    requires
        s1.to_multiset() == s2.to_multiset(),
    ensures
        weight_sum(s1, w) == weight_sum(s2, w),
    decreases s1.len(),
{
    broadcast use group_to_multiset_ensures;

    if s1.len() == 0 {
        assert(s2.to_multiset().len() == 0);
        assert(s2.len() == 0);
    } else {
        let a = s1.last();
        assert(s1.contains(a));
        assert(s1.to_multiset().count(a) > 0);
        assert(s2.contains(a));
        let i = choose|i: int| 0 <= i < s2.len() && s2[i] == a;
        assert(s1.drop_last() =~= s1.remove(s1.len() - 1));
        lemma_weight_sum_remove(s2, w, i);
        assert(s1.remove(s1.len() - 1).to_multiset() == s2.remove(i).to_multiset());
        lemma_weight_sum_permutation(s1.drop_last(), s2.remove(i), w);
    }
}

/// Mapping each element and collecting the results keeps multiset equality:
/// two sequences with the same elements have the same mapped values, however
/// the elements are ordered.
pub proof fn lemma_map_to_multiset_permutation<T, U>(s1: Seq<T>, s2: Seq<T>, f: spec_fn(T) -> U)
    requires
        s1.to_multiset() == s2.to_multiset(),
    ensures
        s1.map_values(f).to_multiset() == s2.map_values(f).to_multiset(),
    decreases s1.len(),
{
    broadcast use group_to_multiset_ensures;

    if s1.len() == 0 {
        assert(s2.to_multiset().len() == 0);
        assert(s2.len() == 0);
        assert(s1.map_values(f) =~= s2.map_values(f));
    } else {
        let a = s1.last();
        assert(s1.contains(a));
        assert(s1.to_multiset().count(a) > 0);
        assert(s2.contains(a));
        let i = choose|i: int| 0 <= i < s2.len() && s2[i] == a;
        assert(s1.drop_last() =~= s1.remove(s1.len() - 1));
        assert(s1.remove(s1.len() - 1).to_multiset() == s2.remove(i).to_multiset());
        lemma_map_to_multiset_permutation(s1.drop_last(), s2.remove(i), f);

        assert(s1.map_values(f) =~= s1.drop_last().map_values(f).push(f(a)));
        assert(s1.map_values(f).to_multiset()
            == s1.drop_last().map_values(f).to_multiset().insert(f(a)));

        assert(s2.remove(i).map_values(f) =~= s2.map_values(f).remove(i));
        assert(s2.map_values(f).remove(i).to_multiset()
            == s2.map_values(f).to_multiset().remove(s2.map_values(f)[i]));
        assert(s2.map_values(f)[i] == f(a));
        assert(s2.map_values(f).to_multiset().count(f(a)) > 0) by {
            assert(s2.map_values(f).contains(f(a)));
        }
        assert(s2.map_values(f).to_multiset().remove(f(a)).insert(f(a))
            =~= s2.map_values(f).to_multiset()) by {
            broadcast use vstd::multiset::group_multiset_axioms;
        }
    }
}

/// The sum over a sequence is the sum over any prefix plus the sum over the
/// matching suffix.
pub proof fn lemma_weight_sum_split<T>(s: Seq<T>, w: spec_fn(T) -> int, k: int)
    requires
        0 <= k <= s.len(),
    ensures
        weight_sum(s, w) == weight_sum(s.take(k), w) + weight_sum(s.skip(k), w),
    decreases s.len(),
{
    if k == s.len() {
        assert(s.take(k) =~= s);
        assert(s.skip(k).len() == 0);
    } else {
        lemma_weight_sum_split(s.drop_last(), w, k);
        assert(s.drop_last().take(k) =~= s.take(k));
        assert(s.drop_last().skip(k) =~= s.skip(k).drop_last());
        assert(s.skip(k).last() == s.last());
        assert(s.skip(k).len() > 0);
    }
}

} // verus!
