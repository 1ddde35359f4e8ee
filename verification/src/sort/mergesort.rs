//! Mergesort: recursive split at the midpoint over explicit `[lo, hi)`
//! bounds, with a merge that takes from the left half on ties, so the
//! relative order of equal elements is preserved.  Each merge reports one
//! mutation covering the whole merged range.

use vstd::prelude::*;
use crate::sink::Sink;
use crate::sorted;
use crate::seqlib::lemma_multiset_of_add;
use crate::sort::quicksort::frame;
use crate::sort::quicksort::lemma_frame_permuted;
use crate::sort::quicksort::range_permuted;
use crate::utils::get_subvector;

verus! {

/// The merge of two sequences: always the smaller head, the left head on a
/// tie.  This pins the order of equal elements: left before right.
pub open spec fn merge_seqs(l: Seq<i32>, r: Seq<i32>) -> Seq<i32>
    decreases l.len() + r.len(),
{
    if l.len() == 0 {
        r
    } else if r.len() == 0 {
        l
    } else if l[0] <= r[0] {
        seq![l[0]] + merge_seqs(l.drop_first(), r)
    } else {
        seq![r[0]] + merge_seqs(l, r.drop_first())
    }
}

/// Merging two sorted sequences yields a sorted permutation of their
/// concatenation.
pub proof fn lemma_merge_seqs_properties(l: Seq<i32>, r: Seq<i32>)
    requires
        sorted(l),
        sorted(r),
    ensures
        merge_seqs(l, r).to_multiset() == (l + r).to_multiset(),
        merge_seqs(l, r).len() == l.len() + r.len(),
        sorted(merge_seqs(l, r)),
    decreases l.len() + r.len(),
{
    broadcast use vstd::seq_lib::to_multiset_contains;
    broadcast use vstd::multiset::group_multiset_axioms;

    if l.len() == 0 {
        assert(l + r =~= r);
    } else if r.len() == 0 {
        assert(l + r =~= l);
    } else {
        let m = merge_seqs(l, r);
        if l[0] <= r[0] {
            let rest = merge_seqs(l.drop_first(), r);
            lemma_merge_seqs_properties(l.drop_first(), r);
            assert(l =~= seq![l[0]] + l.drop_first());
            lemma_multiset_of_add(seq![l[0]], l.drop_first());
            lemma_multiset_of_add(seq![l[0]], rest);
            lemma_multiset_of_add(l.drop_first(), r);
            lemma_multiset_of_add(l, r);
            assert(m.to_multiset() =~= (l + r).to_multiset());
            assert forall|k: int| 0 <= k < rest.len() implies l[0] <= rest[k] by {
                assert(rest.to_multiset().contains(rest[k]));
                assert((l.drop_first() + r).contains(rest[k]));
                let w = choose|w: int|
                    0 <= w < (l.drop_first() + r).len() && (l.drop_first() + r)[w] == rest[k];
                if w < l.len() - 1 {
                    assert((l.drop_first() + r)[w] == l[w + 1]);
                } else {
                    assert((l.drop_first() + r)[w] == r[w - (l.len() - 1)]);
                }
            }
            assert(sorted(m));
        } else {
            let rest = merge_seqs(l, r.drop_first());
            lemma_merge_seqs_properties(l, r.drop_first());
            assert(r =~= seq![r[0]] + r.drop_first());
            lemma_multiset_of_add(seq![r[0]], r.drop_first());
            lemma_multiset_of_add(seq![r[0]], rest);
            lemma_multiset_of_add(l, r.drop_first());
            lemma_multiset_of_add(l, r);
            assert(m.to_multiset() =~= (l + r).to_multiset());
            assert forall|k: int| 0 <= k < rest.len() implies r[0] <= rest[k] by {
                assert(rest.to_multiset().contains(rest[k]));
                assert((l + r.drop_first()).contains(rest[k]));
                let w = choose|w: int|
                    0 <= w < (l + r.drop_first()).len() && (l + r.drop_first())[w] == rest[k];
                if w < l.len() {
                    assert((l + r.drop_first())[w] == l[w]);
                } else {
                    assert((l + r.drop_first())[w] == r[w - l.len() + 1]);
                }
            }
            assert(sorted(m));
        }
    }
}

pub fn mergesort<S: Sink>(arr: &mut Vec<i32>, sink: &mut S)
    ensures
        final(arr)@.to_multiset() == old(arr)@.to_multiset(),
        final(arr)@.len() == old(arr)@.len(),
        sorted(final(arr)@),
        final(sink).compares() >= old(sink).compares(),
        final(sink).swaps() >= old(sink).swaps(),
        crate::sink::reports_extended(old(sink).mutations(), final(sink).mutations()),
        old(arr)@.len() <= 1 ==> final(arr)@ == old(arr)@ && final(sink).compares() == old(
            sink,
        ).compares() && final(sink).swaps() == old(sink).swaps() && final(sink).mutations() == old(
            sink,
        ).mutations(),
{
    let len = arr.len();
    mergesort_range(arr, 0, len, sink, true);
    proof {
        assert(old(arr)@.subrange(0, len as int) =~= old(arr)@);
        assert(arr@.subrange(0, len as int) =~= arr@);
    }
}

/// Sorts `arr[lo..hi]`.  With `report` false the merges stay silent, which
/// the fallback sort uses to emit a single whole-array mutation instead.
pub fn mergesort_range<S: Sink>(
    arr: &mut Vec<i32>,
    lo: usize,
    hi: usize,
    sink: &mut S,
    report: bool,
)
    requires
        lo <= hi <= old(arr)@.len(),
    ensures
        frame(old(arr)@, final(arr)@, lo as int, hi as int),
        range_permuted(old(arr)@, final(arr)@, lo as int, hi as int),
        forall|a: int, b: int| lo <= a < b < hi ==> final(arr)@[a] <= final(arr)@[b],
        final(sink).compares() >= old(sink).compares(),
        final(sink).swaps() >= old(sink).swaps(),
        crate::sink::reports_extended(old(sink).mutations(), final(sink).mutations()),
        !report ==> final(sink).mutations() == old(sink).mutations(),
        hi - lo <= 1 ==> final(arr)@ == old(arr)@ && final(sink).compares() == old(
            sink,
        ).compares() && final(sink).swaps() == old(sink).swaps() && final(sink).mutations() == old(
            sink,
        ).mutations(),
    decreases hi - lo,
{
    let ghost m0 = sink.mutations();
    proof {
        crate::sink::lemma_reports_refl(m0);
    }
    if hi - lo <= 1 {
        return ;
    }
    let ghost pre = arr@;
    let mid = lo + (hi - lo) / 2;
    mergesort_range(arr, lo, mid, sink, report);
    let ghost left_done = arr@;
    let ghost m1 = sink.mutations();
    proof {
        crate::sink::lemma_reports_trans(m0, m0, m1);
        lemma_frame_permuted(pre, left_done, lo as int, hi as int, lo as int, mid as int);
    }
    mergesort_range(arr, mid, hi, sink, report);
    let ghost right_done = arr@;
    let ghost m2 = sink.mutations();
    proof {
        crate::sink::lemma_reports_trans(m0, m1, m2);
        lemma_frame_permuted(left_done, right_done, lo as int, hi as int, mid as int, hi as int);
        assert(right_done.subrange(lo as int, mid as int) =~= left_done.subrange(
            lo as int,
            mid as int,
        ));
    }
    merge(arr, lo, mid, hi, sink, report);
    proof {
        if report {
            crate::sink::lemma_reports_push(m0, m2, (arr@, crate::sink::range_indices(lo as int, hi as int)));
        }
        let post = arr@;
        let l = right_done.subrange(lo as int, mid as int);
        let r = right_done.subrange(mid as int, hi as int);
        lemma_merge_seqs_properties(l, r);
        assert(l + r =~= right_done.subrange(lo as int, hi as int));
        assert(range_permuted(right_done, post, lo as int, hi as int));
        assert forall|a: int, b: int| lo <= a < b < hi implies post[a] <= post[b] by {
            assert(post[a] == post.subrange(lo as int, hi as int)[a - lo]);
            assert(post[b] == post.subrange(lo as int, hi as int)[b - lo]);
        }
    }
}

/// Merges the sorted halves `[lo, mid)` and `[mid, hi)` in place; the result
/// range is exactly the tie-left merge of the two halves.
fn merge<S: Sink>(arr: &mut Vec<i32>, lo: usize, mid: usize, hi: usize, sink: &mut S, report: bool)
    requires
        lo < mid < hi <= old(arr)@.len(),
        sorted(old(arr)@.subrange(lo as int, mid as int)),
        sorted(old(arr)@.subrange(mid as int, hi as int)),
    ensures
        frame(old(arr)@, final(arr)@, lo as int, hi as int),
        final(arr)@.subrange(lo as int, hi as int) == merge_seqs(
            old(arr)@.subrange(lo as int, mid as int),
            old(arr)@.subrange(mid as int, hi as int),
        ),
        final(sink).compares() >= old(sink).compares(),
        final(sink).swaps() >= old(sink).swaps(),
        report ==> final(sink).mutations() == old(sink).mutations().push(
            (final(arr)@, crate::sink::range_indices(lo as int, hi as int)),
        ),
        !report ==> final(sink).mutations() == old(sink).mutations(),
{
    let ghost pre = arr@;
    let ghost c0 = sink.compares();
    let ghost s0 = sink.swaps();
    let ghost m0 = sink.mutations();
    let left = get_subvector(arr, lo, mid);
    let right = get_subvector(arr, mid, hi);
    proof {
        lemma_merge_seqs_properties(left@, right@);
    }

    let mut merged: Vec<i32> = Vec::new();
    let mut i: usize = 0;
    let mut j: usize = 0;
    proof {
        assert(left@.skip(0) =~= left@);
        assert(right@.skip(0) =~= right@);
        assert(merged@ + merge_seqs(left@, right@) =~= merge_seqs(left@, right@));
    }
    while i < left.len() || j < right.len()
        invariant
            c0 == old(sink).compares(),
            s0 == old(sink).swaps(),
            m0 == old(sink).mutations(),
            sink.mutations() == m0,
            i <= left@.len(),
            j <= right@.len(),
            sorted(left@),
            sorted(right@),
            merged@.len() == i + j,
            merge_seqs(left@, right@) == merged@ + merge_seqs(
                left@.skip(i as int),
                right@.skip(j as int),
            ),
            sink.compares() >= c0,
            sink.swaps() >= s0,
        decreases left.len() + right.len() - i - j,
    {
        let take_left: bool;
        if i < left.len() && j < right.len() {
            sink.on_compare();
            take_left = left[i] <= right[j];
        } else {
            take_left = i < left.len();
        }
        proof {
            let ls = left@.skip(i as int);
            let rs = right@.skip(j as int);
            if i < left@.len() {
                assert(ls[0] == left@[i as int]);
                assert(ls.drop_first() =~= left@.skip(i as int + 1));
            }
            if j < right@.len() {
                assert(rs[0] == right@[j as int]);
                assert(rs.drop_first() =~= right@.skip(j as int + 1));
            }
            if i < left@.len() && j >= right@.len() {
                assert(ls =~= seq![ls[0]] + ls.drop_first());
            }
            if j < right@.len() && i >= left@.len() {
                assert(rs =~= seq![rs[0]] + rs.drop_first());
            }
        }
        if take_left {
            merged.push(left[i]);
            i += 1;
        } else {
            merged.push(right[j]);
            j += 1;
        }
        proof {
            assert(merged@ + merge_seqs(left@.skip(i as int), right@.skip(j as int))
                =~= merged@.drop_last() + (seq![merged@.last()] + merge_seqs(
                left@.skip(i as int),
                right@.skip(j as int),
            )));
        }
    }
    proof {
        assert(left@.skip(i as int) =~= Seq::<i32>::empty());
        assert(right@.skip(j as int) =~= Seq::<i32>::empty());
        assert(merged@ + merge_seqs(left@.skip(i as int), right@.skip(j as int)) =~= merged@);
        assert(merged@ == merge_seqs(left@, right@));
    }

    // Write the merged range back.
    let mut k: usize = 0;
    while k < merged.len()
        invariant
            pre == old(arr)@,
            lo + merged@.len() == hi,
            lo < hi <= pre.len(),
            k <= merged@.len(),
            arr@.len() == pre.len(),
            forall|m: int| 0 <= m < pre.len() && !(lo <= m < hi) ==> arr@[m] == pre[m],
            forall|m: int| 0 <= m < k ==> #[trigger] arr@[lo + m] == merged@[m],
            forall|m: int| k <= m < merged@.len() ==> #[trigger] arr@[lo + m] == pre[lo + m],
        decreases merged.len() - k,
    {
        arr[lo + k] = merged[k];
        k += 1;
    }
    proof {
        assert forall|n: int| 0 <= n < merged@.len() implies arr@.subrange(lo as int, hi as int)[n]
            == merged@[n] by {
            assert(arr@[lo + n] == merged@[n]);
        }
        assert(arr@.subrange(lo as int, hi as int) =~= merged@);
    }

    if report {
        let mut touched: Vec<usize> = Vec::new();
        let mut t: usize = lo;
        proof {
            assert(touched@ =~= crate::sink::range_indices(lo as int, lo as int));
        }
        while t < hi
            invariant
                lo <= t <= hi <= arr@.len(),
                touched@ == crate::sink::range_indices(lo as int, t as int),
            decreases hi - t,
        {
            touched.push(t);
            t += 1;
            proof {
                assert(touched@ =~= crate::sink::range_indices(lo as int, t as int));
            }
        }
        proof {
            assert forall|m: int| 0 <= m < touched@.len() implies touched@[m] < arr@.len() by {
                assert(touched@[m] == (lo + m) as usize);
            }
        }
        sink.on_mutation(arr, &touched);
    }
}


/// The merge's tie-break: when the two heads are equal, the left one comes
/// out first, so equal elements keep left-before-right order and the sort
/// is stable.
pub proof fn lemma_merge_tie_prefers_left(l: Seq<i32>, r: Seq<i32>)
    requires
        l.len() > 0,
        r.len() > 0,
        l[0] == r[0],
    ensures
        merge_seqs(l, r)[0] == l[0],
{
}

} // verus!
