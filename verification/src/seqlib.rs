//! Shared sequence lemmas: multiset reasoning used by all sorting proofs.

use vstd::prelude::*;

verus! {

/// Two sequences with equal multisets contain the same values, so a bound
/// that holds of every element of one holds of every element of the other.
pub proof fn lemma_multiset_bounds_transfer(a: Seq<i32>, b: Seq<i32>, p: spec_fn(i32) -> bool)
    requires
        a.to_multiset() == b.to_multiset(),
        forall|i: int| 0 <= i < a.len() ==> #[trigger] p(a[i]),
    ensures
        forall|i: int| 0 <= i < b.len() ==> #[trigger] p(b[i]),
{
    broadcast use vstd::seq_lib::to_multiset_contains;

    assert forall|i: int| 0 <= i < b.len() implies #[trigger] p(b[i]) by {
        assert(b.to_multiset().contains(b[i])) by {
            assert(b.contains(b[i]));
        }
        assert(a.contains(b[i]));
        let j = choose|j: int| 0 <= j < a.len() && a[j] == b[i];
        assert(p(a[j]));
    }
}

/// Order between adjacent elements of a range gives order on the range.
pub proof fn lemma_adjacent_sorted_range(s: Seq<i32>, lo: int, hi: int, a: int, b: int)
    requires
        0 <= lo <= a < b < hi <= s.len(),
        forall|k: int| lo <= k < hi - 1 ==> #[trigger] s[k] <= s[k + 1],
    ensures
        s[a] <= s[b],
    decreases b - a,
{
    if a + 1 < b {
        lemma_adjacent_sorted_range(s, lo, hi, a + 1, b);
    }
}

/// Concatenation on sequences matches addition on their multisets.
pub proof fn lemma_multiset_of_add(a: Seq<i32>, b: Seq<i32>)
    ensures
        (a + b).to_multiset() == a.to_multiset().add(b.to_multiset()),
{
    vstd::seq_lib::lemma_multiset_commutative(a, b);
}


/// A permutation of a duplicate-free sequence is duplicate-free.
pub proof fn lemma_permutation_no_duplicates(a: Seq<i32>, b: Seq<i32>)
    requires
        a.no_duplicates(),
        a.to_multiset() == b.to_multiset(),
    ensures
        b.no_duplicates(),
{
    a.lemma_multiset_has_no_duplicates();
    b.lemma_multiset_has_no_duplicates_conv();
}

/// A prefix of a duplicate-free sequence is duplicate-free.
pub proof fn lemma_no_dup_prefix(s: Seq<i32>, k: int)
    requires
        s.no_duplicates(),
        0 <= k <= s.len(),
    ensures
        s.take(k).no_duplicates(),
{
    assert forall|a: int, b: int|
        0 <= a < b < s.take(k).len() implies s.take(k)[a] != s.take(k)[b] by {
        assert(s.take(k)[a] == s[a] && s.take(k)[b] == s[b]);
    }
}

/// Every element of a filtered sequence occurs in the original.
pub proof fn lemma_filter_member<A>(s: Seq<A>, pred: spec_fn(A) -> bool, i: int)
    requires
        0 <= i < s.filter(pred).len(),
    ensures
        s.contains(s.filter(pred)[i]),
    decreases s.len(),
{
    reveal(Seq::filter);
    if s.len() > 0 {
        let t = s.drop_last();
        if i < t.filter(pred).len() {
            lemma_filter_member(t, pred, i);
            let v = t.filter(pred)[i];
            let w = choose|w: int| 0 <= w < t.len() && t[w] == v;
            assert(s[w] == v);
        } else {
            assert(s.filter(pred)[i] == s.last());
            assert(s[s.len() - 1] == s.last());
        }
    }
}

} // verus!
