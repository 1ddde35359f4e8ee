//! Quicksort with the Lomuto partition: the last element of the range is the
//! pivot, and the recursion works on explicit `[lo, hi)` bounds into the one
//! owned buffer.

use vstd::prelude::*;
use crate::sink::Sink;
use crate::sorted;
use crate::seqlib::lemma_multiset_bounds_transfer;
use crate::seqlib::lemma_multiset_of_add;
use crate::utils::swap_elems;

verus! {

/// Everything outside `[lo, hi)` is untouched.
pub open spec fn frame(pre: Seq<i32>, post: Seq<i32>, lo: int, hi: int) -> bool {
    &&& post.len() == pre.len()
    &&& forall|k: int| 0 <= k < pre.len() && !(lo <= k < hi) ==> post[k] == pre[k]
}

/// The range `[lo, hi)` holds the same values as before, in some order.
pub open spec fn range_permuted(pre: Seq<i32>, post: Seq<i32>, lo: int, hi: int) -> bool {
    post.subrange(lo, hi).to_multiset() == pre.subrange(lo, hi).to_multiset()
}

pub fn quicksort<S: Sink>(arr: &mut Vec<i32>, sink: &mut S)
    ensures
        final(arr)@.to_multiset() == old(arr)@.to_multiset(),
        final(arr)@.len() == old(arr)@.len(),
        sorted(final(arr)@),
        final(sink).compares() >= old(sink).compares(),
        final(sink).swaps() >= old(sink).swaps(),
        crate::sink::new_reports_are_pairs_or_pivot(old(sink).mutations(), final(sink).mutations()),
        old(arr)@.len() <= 1 ==> final(arr)@ == old(arr)@ && final(sink).compares() == old(
            sink,
        ).compares() && final(sink).swaps() == old(sink).swaps() && final(sink).mutations() == old(
            sink,
        ).mutations(),
{
    let len = arr.len();
    quicksort_range(arr, 0, len, sink);
    proof {
        assert(old(arr)@.subrange(0, len as int) =~= old(arr)@);
        assert(arr@.subrange(0, len as int) =~= arr@);
    }
}

/// Sorts `arr[lo..hi]`, leaving the rest of the buffer alone.
pub fn quicksort_range<S: Sink>(arr: &mut Vec<i32>, lo: usize, hi: usize, sink: &mut S)
    requires
        lo <= hi <= old(arr)@.len(),
    ensures
        frame(old(arr)@, final(arr)@, lo as int, hi as int),
        range_permuted(old(arr)@, final(arr)@, lo as int, hi as int),
        forall|a: int, b: int| lo <= a < b < hi ==> final(arr)@[a] <= final(arr)@[b],
        final(sink).compares() >= old(sink).compares(),
        final(sink).swaps() >= old(sink).swaps(),
        crate::sink::new_reports_are_pairs_or_pivot(old(sink).mutations(), final(sink).mutations()),
        hi - lo <= 1 ==> final(arr)@ == old(arr)@ && final(sink).compares() == old(
            sink,
        ).compares() && final(sink).swaps() == old(sink).swaps() && final(sink).mutations() == old(
            sink,
        ).mutations(),
    decreases hi - lo,
{
    proof {
        crate::sink::lemma_reports_refl(old(sink).mutations());
    }
    if hi - lo <= 1 {
        return ;
    }
    let ghost pre = arr@;
    let ghost m0 = sink.mutations();
    let p = partition(arr, lo, hi, sink);
    let ghost mid = arr@;
    let touched: Vec<usize> = vec![p];
    let ghost m1 = sink.mutations();
    sink.on_mutation(arr, &touched);
    proof {
        assert(touched@.len() == 1);
        crate::sink::lemma_reports_push(m0, m1, (arr@, touched@));
    }
    let ghost m2 = sink.mutations();
    let ghost pivot = arr@[p as int];

    quicksort_range(arr, lo, p, sink);
    let ghost left_done = arr@;
    proof {
        crate::sink::lemma_pairs_or_pivot_trans(m0, m2, sink.mutations());
        assert(left_done[p as int] == pivot);
        lemma_frame_permuted(mid, left_done, lo as int, hi as int, lo as int, p as int);
        let ple = (|x: i32| x <= pivot);
        assert forall|ii: int| 0 <= ii < mid.subrange(lo as int, p as int).len() implies #[trigger]
        ple(mid.subrange(lo as int, p as int)[ii]) by {
            assert(mid.subrange(lo as int, p as int)[ii] == mid[lo + ii]);
        }
        lemma_multiset_bounds_transfer(
            mid.subrange(lo as int, p as int),
            left_done.subrange(lo as int, p as int),
            ple,
        );
        assert forall|k: int| lo <= k < p implies left_done[k] <= pivot by {
            assert(ple(left_done.subrange(lo as int, p as int)[k - lo]));
        }
    }
    let ghost m3 = sink.mutations();
    quicksort_range(arr, p + 1, hi, sink);
    proof {
        crate::sink::lemma_pairs_or_pivot_trans(m0, m3, sink.mutations());
        let post = arr@;
        assert(post[p as int] == pivot);
        lemma_frame_permuted(left_done, post, lo as int, hi as int, p as int + 1, hi as int);
        let pgt = (|x: i32| x > pivot);
        assert forall|ii: int|
            0 <= ii < left_done.subrange(p as int + 1, hi as int).len() implies #[trigger] pgt(
            left_done.subrange(p as int + 1, hi as int)[ii],
        ) by {
            assert(left_done.subrange(p as int + 1, hi as int)[ii] == left_done[p + 1 + ii]);
            assert(left_done[p + 1 + ii] == mid[p + 1 + ii]);
        }
        lemma_multiset_bounds_transfer(
            left_done.subrange(p as int + 1, hi as int),
            post.subrange(p as int + 1, hi as int),
            pgt,
        );
        assert forall|k: int| p < k < hi implies post[k] > pivot by {
            assert(pgt(post.subrange(p as int + 1, hi as int)[k - (p + 1)]));
        }
        assert forall|k: int| lo <= k < p implies post[k] <= pivot by {
            assert(post[k] == left_done[k]);
        }
        // Sortedness of the whole range from the two sorted halves.
        assert forall|a: int, b: int| lo <= a < b < hi implies post[a] <= post[b] by {
            if b < p {
                assert(post[a] == left_done[a]);
                assert(post[b] == left_done[b]);
            } else if b == p {
                assert(post[a] <= pivot);
            } else if a == p {
                assert(post[b] > pivot);
            } else if a < p {
                assert(post[a] <= pivot);
                assert(post[b] > pivot);
            }
        }
    }
}

/// Lomuto partition over `[lo, hi)`: the pivot is the last element of the
/// range; afterwards it sits at the returned index, everything to its left
/// in the range is at most the pivot, everything to its right is greater.
pub fn partition<S: Sink>(arr: &mut Vec<i32>, lo: usize, hi: usize, sink: &mut S) -> (p: usize)
    requires
        lo < hi <= old(arr)@.len(),
        hi - lo >= 2,
    ensures
        lo <= p < hi,
        frame(old(arr)@, final(arr)@, lo as int, hi as int),
        range_permuted(old(arr)@, final(arr)@, lo as int, hi as int),
        final(arr)@[p as int] == old(arr)@[hi - 1],
        forall|k: int| lo <= k < p ==> final(arr)@[k] <= final(arr)@[p as int],
        forall|k: int| p < k < hi ==> final(arr)@[k] > final(arr)@[p as int],
        final(sink).compares() >= old(sink).compares(),
        final(sink).swaps() >= old(sink).swaps(),
        crate::sink::new_reports_are_pairs(old(sink).mutations(), final(sink).mutations()),
{
    let ghost pre = arr@;
    let ghost c0 = sink.compares();
    let ghost s0 = sink.swaps();
    let ghost m0 = sink.mutations();
    proof {
        crate::sink::lemma_reports_refl(m0);
    }
    let pivot = arr[hi - 1];
    let mut i = lo;
    let mut j = lo;
    while j < hi - 1
        invariant
            pre == old(arr)@,
            c0 == old(sink).compares(),
            s0 == old(sink).swaps(),
            m0 == old(sink).mutations(),
            crate::sink::new_reports_are_pairs(m0, sink.mutations()),
            lo <= i <= j <= hi - 1,
            hi <= arr@.len(),
            lo < hi,
            arr@.len() == pre.len(),
            pivot == pre[hi - 1],
            arr@[hi - 1] == pivot,
            forall|k: int| 0 <= k < pre.len() && !(lo <= k < hi) ==> arr@[k] == pre[k],
            arr@.subrange(lo as int, hi as int).to_multiset() == pre.subrange(
                lo as int,
                hi as int,
            ).to_multiset(),
            forall|k: int| lo <= k < i ==> arr@[k] <= pivot,
            forall|k: int| i <= k < j ==> arr@[k] > pivot,
            sink.compares() >= c0,
            sink.swaps() >= s0,
        decreases hi - 1 - j,
    {
        sink.on_compare();
        if arr[j] <= pivot {
            let ghost before = arr@;
            swap_elems(arr, i, j);
            proof {
                lemma_swap_in_range(before, arr@, lo as int, hi as int, i as int, j as int);
            }
            sink.on_swap();
            let touched: Vec<usize> = vec![i, j];
            let ghost mb = sink.mutations();
            sink.on_mutation(arr, &touched);
            proof {
                assert(touched@.len() == 2);
                crate::sink::lemma_reports_push(m0, mb, (arr@, touched@));
            }
            i += 1;
        }
        j += 1;
    }
    let ghost before = arr@;
    swap_elems(arr, i, hi - 1);
    proof {
        lemma_swap_in_range(before, arr@, lo as int, hi as int, i as int, hi as int - 1);
    }
    sink.on_swap();
    let touched: Vec<usize> = vec![i, hi - 1];
    let ghost mb = sink.mutations();
    sink.on_mutation(arr, &touched);
    proof {
        assert(touched@.len() == 2);
        crate::sink::lemma_reports_push(m0, mb, (arr@, touched@));
    }
    i
}

/// A swap of two positions inside `[lo, hi)` keeps the frame outside the
/// range and the multiset of the range.
pub proof fn lemma_swap_in_range(pre: Seq<i32>, post: Seq<i32>, lo: int, hi: int, i: int, j: int)
    requires
        0 <= lo <= i < hi <= pre.len(),
        lo <= j < hi,
        post == pre.update(i, pre[j]).update(j, pre[i]),
    ensures
        post.len() == pre.len(),
        forall|k: int| 0 <= k < pre.len() && !(lo <= k < hi) ==> post[k] == pre[k],
        post.subrange(lo, hi).to_multiset() == pre.subrange(lo, hi).to_multiset(),
{
    broadcast use vstd::seq_lib::to_multiset_update;
    broadcast use vstd::seq_lib::to_multiset_contains;
    broadcast use vstd::multiset::group_multiset_axioms;
    broadcast use vstd::multiset::group_multiset_properties;

    let s = pre.subrange(lo, hi);
    let t = post.subrange(lo, hi);
    assert(t =~= s.update(i - lo, s[j - lo]).update(j - lo, s[i - lo]));
    if i == j {
        assert(t =~= s);
    }
    assert(s.contains(s[i - lo]));
    assert(s.contains(s[j - lo]));
    assert(t.to_multiset() =~= s.to_multiset());
}

/// A change confined to the sub-interval `[m1, m2)` of `[lo, hi)` that keeps
/// the sub-interval's multiset keeps the multiset of the whole range.
pub proof fn lemma_frame_permuted(
    pre: Seq<i32>,
    post: Seq<i32>,
    lo: int,
    hi: int,
    m1: int,
    m2: int,
)
    requires
        0 <= lo <= m1 <= m2 <= hi <= pre.len(),
        post.len() == pre.len(),
        forall|k: int| 0 <= k < pre.len() && !(m1 <= k < m2) ==> post[k] == pre[k],
        post.subrange(m1, m2).to_multiset() == pre.subrange(m1, m2).to_multiset(),
    ensures
        post.subrange(lo, hi).to_multiset() == pre.subrange(lo, hi).to_multiset(),
{
    assert(pre.subrange(lo, hi) =~= pre.subrange(lo, m1) + pre.subrange(m1, m2) + pre.subrange(
        m2,
        hi,
    ));
    assert(post.subrange(lo, hi) =~= post.subrange(lo, m1) + post.subrange(m1, m2)
        + post.subrange(m2, hi));
    assert(post.subrange(lo, m1) =~= pre.subrange(lo, m1));
    assert(post.subrange(m2, hi) =~= pre.subrange(m2, hi));
    lemma_multiset_of_add(pre.subrange(lo, m1) + pre.subrange(m1, m2), pre.subrange(m2, hi));
    lemma_multiset_of_add(pre.subrange(lo, m1), pre.subrange(m1, m2));
    lemma_multiset_of_add(post.subrange(lo, m1) + post.subrange(m1, m2), post.subrange(m2, hi));
    lemma_multiset_of_add(post.subrange(lo, m1), post.subrange(m1, m2));
}

} // verus!
