//! Heapsort: a bottom-up build of a max-heap, then repeated extraction of
//! the root into the growing sorted suffix, re-heapifying after each swap.

use vstd::prelude::*;
use crate::sink::Sink;
use crate::sorted;
use crate::sort::quicksort::lemma_frame_permuted;
use crate::utils::swap_elems;

verus! {

/// Node `j` dominates its children inside the prefix `[0, n)`.
pub open spec fn child_ok(s: Seq<i32>, n: int, j: int) -> bool {
    &&& (2 * j + 1 < n ==> s[j] >= s[2 * j + 1])
    &&& (2 * j + 2 < n ==> s[j] >= s[2 * j + 2])
}

/// The heap property holds for every parent from `i` on, inside `[0, n)`.
pub open spec fn heap_upto(s: Seq<i32>, n: int, i: int) -> bool {
    forall|j: int| i <= j ==> #[trigger] child_ok(s, n, j)
}

/// `j` lies in the subtree rooted at `i`.
pub open spec fn in_subtree(i: int, j: int) -> bool
    decreases j,
{
    if i < 0 || j < i {
        false
    } else if j == i {
        true
    } else {
        in_subtree(i, (j - 1) / 2)
    }
}

proof fn lemma_in_subtree_ge(i: int, j: int)
    requires
        in_subtree(i, j),
    ensures
        0 <= i <= j,
    decreases j,
{
    if j != i {
        lemma_in_subtree_ge(i, (j - 1) / 2);
    }
}

proof fn lemma_in_subtree_trans(i: int, m: int, j: int)
    requires
        in_subtree(i, m),
        in_subtree(m, j),
    ensures
        in_subtree(i, j),
    decreases j,
{
    lemma_in_subtree_ge(i, m);
    lemma_in_subtree_ge(m, j);
    if j != m {
        lemma_in_subtree_trans(i, m, (j - 1) / 2);
    }
}

proof fn lemma_root_reaches_all(k: int)
    requires
        0 <= k,
    ensures
        in_subtree(0, k),
    decreases k,
{
    if k > 0 {
        lemma_root_reaches_all((k - 1) / 2);
    }
}

/// The root of a heap dominates every node of its subtree.
proof fn lemma_heap_bound(s: Seq<i32>, n: int, r: int, k: int)
    requires
        heap_upto(s, n, r),
        in_subtree(r, k),
        0 <= k < n <= s.len(),
    ensures
        s[k] <= s[r],
    decreases k,
{
    lemma_in_subtree_ge(r, k);
    if k != r {
        let p = (k - 1) / 2;
        lemma_in_subtree_ge(r, p);
        assert(child_ok(s, n, p));
        lemma_heap_bound(s, n, r, p);
    }
}

pub fn heapsort<S: Sink>(arr: &mut Vec<i32>, sink: &mut S)
    ensures
        final(arr)@.to_multiset() == old(arr)@.to_multiset(),
        final(arr)@.len() == old(arr)@.len(),
        sorted(final(arr)@),
        final(sink).compares() >= old(sink).compares(),
        final(sink).swaps() >= old(sink).swaps(),
        crate::sink::new_reports_are_pairs(old(sink).mutations(), final(sink).mutations()),
        old(arr)@.len() <= 1 ==> final(arr)@ == old(arr)@ && final(sink).compares() == old(
            sink,
        ).compares() && final(sink).swaps() == old(sink).swaps() && final(sink).mutations() == old(
            sink,
        ).mutations(),
{
    let ghost m0 = sink.mutations();
    proof {
        crate::sink::lemma_reports_refl(m0);
    }
    let n = arr.len();
    if n <= 1 {
        return ;
    }

    // Bottom-up heap construction.
    let mut b = n / 2;
    while b > 0
        invariant
            n == old(arr)@.len(),
            1 < n,
            b <= n / 2,
            arr@.len() == n,
            arr@.to_multiset() == old(arr)@.to_multiset(),
            heap_upto(arr@, n as int, b as int),
            sink.compares() >= old(sink).compares(),
            sink.swaps() >= old(sink).swaps(),
            m0 == old(sink).mutations(),
            crate::sink::new_reports_are_pairs(m0, sink.mutations()),
        decreases b,
    {
        b -= 1;
        let ghost pre = arr@;
        let ghost mb = sink.mutations();
        heapify(arr, n, b, sink);
        proof {
            crate::sink::lemma_pairs_trans(m0, mb, sink.mutations());
        }
        proof {
            assert(pre.subrange(0, n as int) =~= pre);
            assert(arr@.subrange(0, n as int) =~= arr@);
        }
    }

    // Extraction: swap the root with the last unsorted element, shrink the
    // heap, and restore the heap property.
    let mut m = n;
    while m > 1
        invariant
            n == old(arr)@.len(),
            1 <= m <= n,
            arr@.len() == n,
            arr@.to_multiset() == old(arr)@.to_multiset(),
            heap_upto(arr@, m as int, 0),
            forall|a: int, b2: int| m <= a < b2 < n ==> arr@[a] <= arr@[b2],
            forall|a: int, b2: int| 0 <= a < m <= b2 < n ==> arr@[a] <= arr@[b2],
            sink.compares() >= old(sink).compares(),
            sink.swaps() >= old(sink).swaps(),
            m0 == old(sink).mutations(),
            crate::sink::new_reports_are_pairs(m0, sink.mutations()),
        decreases m,
    {
        m -= 1;
        let ghost pre = arr@;
        swap_elems(arr, 0, m);
        sink.on_swap();
        let touched: Vec<usize> = vec![0, m];
        let ghost mpre = sink.mutations();
        sink.on_mutation(arr, &touched);
        proof {
            assert(touched@.len() == 2);
            crate::sink::lemma_reports_push(m0, mpre, (arr@, touched@));
        }
        let ghost mid = arr@;
        proof {
            lemma_extract_heap_pre(pre, mid, m as int);
        }
        let ghost mh = sink.mutations();
        heapify(arr, m, 0, sink);
        proof {
            crate::sink::lemma_pairs_trans(m0, mh, sink.mutations());
            lemma_extract_step(pre, mid, arr@, n as int, m as int);
            lemma_frame_permuted(mid, arr@, 0, n as int, 0, m as int);
            assert(mid.subrange(0, n as int) =~= mid);
            assert(arr@.subrange(0, n as int) =~= arr@);
        }
    }
    proof {
        assert forall|a: int, b2: int| 0 <= a < b2 < n implies arr@[a] <= arr@[b2] by {}
    }
}

/// Sift-down: restores the heap property at `i` inside `[0, n)`, assuming it
/// already holds for every parent past `i`.  Only the subtree of `i` is
/// touched, and its new values all come from old subtree positions.
#[verifier::rlimit(60)]
pub fn heapify<S: Sink>(arr: &mut Vec<i32>, n: usize, i: usize, sink: &mut S)
    requires
        i < n <= old(arr)@.len(),
        heap_upto(old(arr)@, n as int, i as int + 1),
    ensures
        final(arr)@.len() == old(arr)@.len(),
        forall|k: int|
            0 <= k < old(arr)@.len() && !(in_subtree(i as int, k) && k < n) ==> final(arr)@[k]
                == old(arr)@[k],
        final(arr)@.subrange(0, n as int).to_multiset() == old(arr)@.subrange(
            0,
            n as int,
        ).to_multiset(),
        heap_upto(final(arr)@, n as int, i as int),
        forall|k: int|
            in_subtree(i as int, k) && k < n ==> exists|j: int|
                in_subtree(i as int, j) && j < n && final(arr)@[k] == old(arr)@[j],
        final(sink).compares() >= old(sink).compares(),
        final(sink).swaps() >= old(sink).swaps(),
        crate::sink::new_reports_are_pairs(old(sink).mutations(), final(sink).mutations()),
    decreases n - i,
{
    let ghost pre = arr@;
    let ghost m0 = sink.mutations();
    proof {
        crate::sink::lemma_reports_refl(m0);
    }
    let mut largest = i;
    if i < n / 2 {
        let left = 2 * i + 1;
        sink.on_compare();
        if arr[left] > arr[largest] {
            largest = left;
        }
        if left < n - 1 {
            let right = left + 1;
            sink.on_compare();
            if arr[right] > arr[largest] {
                largest = right;
            }
        }
    }
    if largest == i {
        proof {
            assert forall|j: int| i <= j implies child_ok(pre, n as int, j) by {
                if j != i {
                    assert(child_ok(pre, n as int, j));
                }
            }
            assert forall|k: int|
                in_subtree(i as int, k) && k < n implies exists|j: int|
                    in_subtree(i as int, j) && j < n && arr@[k] == pre[j] by {
                assert(in_subtree(i as int, k) && k < n && arr@[k] == pre[k]);
            }
        }
        return ;
    }

    proof {
        assert(in_subtree(i as int, i as int));
        assert(in_subtree(i as int, largest as int));
    }
    swap_elems(arr, i, largest);
    sink.on_swap();
    let touched: Vec<usize> = vec![i, largest];
    let ghost mb = sink.mutations();
    sink.on_mutation(arr, &touched);
    proof {
        assert(touched@.len() == 2);
        crate::sink::lemma_reports_push(m0, mb, (arr@, touched@));
    }
    let ghost mid = arr@;
    proof {
        crate::sort::quicksort::lemma_swap_in_range(
            pre,
            mid,
            0,
            n as int,
            i as int,
            largest as int,
        );
        assert forall|j: int| largest + 1 <= j implies child_ok(mid, n as int, j) by {
            assert(child_ok(pre, n as int, j));
        }
    }
    let ghost mrec = sink.mutations();
    heapify(arr, n, largest, sink);
    proof {
        crate::sink::lemma_pairs_trans(m0, mrec, sink.mutations());
        lemma_sift_frame(pre, mid, arr@, n as int, i as int, largest as int);
        lemma_sift_heap(pre, mid, arr@, n as int, i as int, largest as int);
    }
}

/// Frame and provenance for the sift-down step: nothing outside the subtree
/// of `i` moved, and the subtree holds only values it already held.
proof fn lemma_sift_frame(pre: Seq<i32>, mid: Seq<i32>, post: Seq<i32>, n: int, i: int, largest: int)
    requires
        0 <= i < n <= pre.len(),
        largest == 2 * i + 1 || largest == 2 * i + 2,
        largest < n,
        mid == pre.update(i, pre[largest]).update(largest, pre[i]),
        pre[largest] >= pre[i],
        2 * i + 1 < n ==> pre[largest] >= pre[2 * i + 1],
        2 * i + 2 < n ==> pre[largest] >= pre[2 * i + 2],
        heap_upto(pre, n, i + 1),
        post.len() == mid.len(),
        forall|k: int| 0 <= k < mid.len() && !(in_subtree(largest, k) && k < n) ==> post[k] == mid[k],
        heap_upto(post, n, largest),
        forall|k: int|
            in_subtree(largest, k) && k < n ==> exists|j: int|
                in_subtree(largest, j) && j < n && post[k] == mid[j],
    ensures
        forall|k: int| 0 <= k < pre.len() && !(in_subtree(i, k) && k < n) ==> post[k] == pre[k],
        forall|k: int|
            in_subtree(i, k) && k < n ==> exists|j: int|
                in_subtree(i, j) && j < n && post[k] == pre[j],
{
    assert(in_subtree(i, i));
    assert(in_subtree(i, largest));
    assert(!in_subtree(largest, i)) by {
        if in_subtree(largest, i) {
            lemma_in_subtree_ge(largest, i);
        }
    }

    assert forall|k: int|
        0 <= k < pre.len() && !(in_subtree(i, k) && k < n) implies post[k] == pre[k] by {
        if in_subtree(largest, k) && k < n {
            lemma_in_subtree_trans(i, largest, k);
        }
    }

    assert forall|k: int|
        in_subtree(i, k) && k < n implies exists|j: int|
            in_subtree(i, j) && j < n && post[k] == pre[j] by {
        if in_subtree(largest, k) {
            let j1 = choose|j1: int| in_subtree(largest, j1) && j1 < n && post[k] == mid[j1];
            lemma_in_subtree_ge(largest, j1);
            lemma_in_subtree_trans(i, largest, j1);
            if j1 == largest {
                assert(in_subtree(i, i) && i < n && post[k] == pre[i]);
            } else {
                assert(mid[j1] == pre[j1]);
            }
        } else {
            if k == i {
                assert(post[k] == mid[k]);
                assert(in_subtree(i, largest) && largest < n && post[k] == pre[largest]);
            } else {
                assert(post[k] == mid[k] && mid[k] == pre[k]);
            }
        }
    }
}

/// Heap property after the sift-down step.
#[verifier::rlimit(100)]
proof fn lemma_sift_heap(pre: Seq<i32>, mid: Seq<i32>, post: Seq<i32>, n: int, i: int, largest: int)
    requires
        0 <= i < n <= pre.len(),
        largest == 2 * i + 1 || largest == 2 * i + 2,
        largest < n,
        mid == pre.update(i, pre[largest]).update(largest, pre[i]),
        pre[largest] >= pre[i],
        2 * i + 1 < n ==> pre[largest] >= pre[2 * i + 1],
        2 * i + 2 < n ==> pre[largest] >= pre[2 * i + 2],
        heap_upto(pre, n, i + 1),
        post.len() == mid.len(),
        forall|k: int| 0 <= k < mid.len() && !(in_subtree(largest, k) && k < n) ==> post[k] == mid[k],
        heap_upto(post, n, largest),
        forall|k: int|
            in_subtree(largest, k) && k < n ==> exists|j: int|
                in_subtree(largest, j) && j < n && post[k] == mid[j],
    ensures
        heap_upto(post, n, i),
{
    assert(in_subtree(i, i));
    assert(in_subtree(i, largest));
    assert(!in_subtree(largest, i)) by {
        if in_subtree(largest, i) {
            lemma_in_subtree_ge(largest, i);
        }
    }

    // The value now at the subtree root is the old maximum of i and its
    // children, and it still dominates its children.
    assert(post[i] == mid[i]);
    assert(mid[i] == pre[largest]);
    assert forall|c: int| (c == 2 * i + 1 || c == 2 * i + 2) && c < n implies post[c] <= post[
        i
    ] by {
        if c == largest {
            assert(in_subtree(largest, largest));
            assert(exists|j1: int| in_subtree(largest, j1) && j1 < n && post[c] == mid[j1]);
            let j1 = choose|j1: int| in_subtree(largest, j1) && j1 < n && post[c] == mid[j1];
            lemma_in_subtree_ge(largest, j1);
            if j1 == largest {
                assert(mid[j1] == pre[i]);
            } else {
                assert(mid[j1] == pre[j1]);
                lemma_heap_bound(pre, n, largest, j1);
            }
        } else {
            assert(!in_subtree(largest, c)) by {
                if in_subtree(largest, c) {
                    assert(c != largest);
                    assert((c - 1) / 2 == i);
                    assert(in_subtree(largest, i));
                    lemma_in_subtree_ge(largest, i);
                }
            }
            assert(post[c] == mid[c]);
            assert(mid[c] == pre[c]);
        }
    }

    assert forall|j: int| i <= j implies child_ok(post, n, j) by {
        if j == i {
            assert(child_ok(post, n, i));
        } else if j < largest {
            lemma_sift_untouched_pair(pre, mid, post, n, i, largest, j);
        } else {
            assert(child_ok(post, n, j));
        }
    }
}

/// A parent strictly between `i` and `largest` keeps its values and those of
/// its children across the sift-down step.
proof fn lemma_sift_untouched_pair(
    pre: Seq<i32>,
    mid: Seq<i32>,
    post: Seq<i32>,
    n: int,
    i: int,
    largest: int,
    j: int,
)
    requires
        0 <= i < n <= pre.len(),
        largest == 2 * i + 1 || largest == 2 * i + 2,
        largest < n,
        mid == pre.update(i, pre[largest]).update(largest, pre[i]),
        pre[largest] >= pre[i],
        2 * i + 1 < n ==> pre[largest] >= pre[2 * i + 1],
        2 * i + 2 < n ==> pre[largest] >= pre[2 * i + 2],
        heap_upto(pre, n, i + 1),
        post.len() == mid.len(),
        forall|k: int| 0 <= k < mid.len() && !(in_subtree(largest, k) && k < n) ==> post[k] == mid[k],
        heap_upto(post, n, largest),
        forall|k: int|
            in_subtree(largest, k) && k < n ==> exists|j: int|
                in_subtree(largest, j) && j < n && post[k] == mid[j],
        i < j < largest,
    ensures
        child_ok(post, n, j),
{
    assert(child_ok(pre, n, j));
    assert(!in_subtree(largest, j)) by {
        if in_subtree(largest, j) {
            lemma_in_subtree_ge(largest, j);
        }
    }
    assert(post[j] == pre[j]);
    if 2 * j + 1 < n {
        let c = 2 * j + 1;
        assert(!in_subtree(largest, c)) by {
            if in_subtree(largest, c) {
                if c == largest {
                    assert((c - 1) / 2 == j);
                } else {
                    assert(in_subtree(largest, (c - 1) / 2));
                    lemma_in_subtree_ge(largest, j);
                }
            }
        }
        assert(post[c] == pre[c]);
    }
    if 2 * j + 2 < n {
        let c = 2 * j + 2;
        assert(!in_subtree(largest, c)) by {
            if in_subtree(largest, c) {
                if c == largest {
                    assert((c - 1) / 2 == j);
                } else {
                    assert(in_subtree(largest, (c - 1) / 2));
                    lemma_in_subtree_ge(largest, j);
                }
            }
        }
        assert(post[c] == pre[c]);
    }
}


/// After swapping the heap root with the last heap element, the heap
/// property still holds for every parent from 1 on, inside the shrunken
/// prefix.
proof fn lemma_extract_heap_pre(pre: Seq<i32>, mid: Seq<i32>, m: int)
    requires
        1 <= m < pre.len(),
        heap_upto(pre, m + 1, 0),
        mid == pre.update(0, pre[m]).update(m, pre[0]),
    ensures
        heap_upto(mid, m, 1),
{
    assert forall|j: int| 1 <= j implies child_ok(mid, m, j) by {
        assert(child_ok(pre, m + 1, j));
    }
}

/// One extraction step keeps the sorted suffix and the bound between the
/// remaining heap and the suffix.
#[verifier::rlimit(100)]
proof fn lemma_extract_step(pre: Seq<i32>, mid: Seq<i32>, post: Seq<i32>, n: int, m: int)
    requires
        1 <= m < n <= pre.len(),
        heap_upto(pre, m + 1, 0),
        mid == pre.update(0, pre[m]).update(m, pre[0]),
        post.len() == mid.len(),
        forall|k: int| 0 <= k < mid.len() && !(in_subtree(0, k) && k < m) ==> post[k] == mid[k],
        forall|k: int|
            in_subtree(0, k) && k < m ==> exists|j: int|
                in_subtree(0, j) && j < m && post[k] == mid[j],
        forall|a: int, b2: int| m + 1 <= a < b2 < n ==> pre[a] <= pre[b2],
        forall|a: int, b2: int| 0 <= a < m + 1 <= b2 < n ==> pre[a] <= pre[b2],
    ensures
        forall|k: int| 0 <= k < mid.len() && m <= k ==> post[k] == mid[k],
        forall|a: int, b2: int| m <= a < b2 < n ==> post[a] <= post[b2],
        forall|a: int, b2: int| 0 <= a < m <= b2 < n ==> post[a] <= post[b2],
{
    assert forall|k: int| 0 <= k <= m implies #[trigger] pre[k] <= pre[0] by {
        lemma_root_reaches_all(k);
        lemma_heap_bound(pre, m + 1, 0, k);
    }
    assert forall|k: int| 0 <= k < mid.len() && m <= k implies post[k] == mid[k] by {
        assert(!(in_subtree(0, k) && k < m));
    }
    assert(post[m] == mid[m]);
    assert(mid[m] == pre[0]);
    assert forall|a: int, b2: int| m <= a < b2 < n implies post[a] <= post[b2] by {
        assert(post[a] == mid[a]);
        assert(post[b2] == mid[b2]);
        if a == m {
            assert(mid[b2] == pre[b2]);
        } else {
            assert(mid[a] == pre[a]);
            assert(mid[b2] == pre[b2]);
        }
    }
    assert forall|a: int, b2: int| 0 <= a < m <= b2 < n implies post[a] <= post[b2] by {
        lemma_root_reaches_all(a);
        assert(exists|j: int| in_subtree(0, j) && j < m && post[a] == mid[j]);
        let j = choose|j: int| in_subtree(0, j) && j < m && post[a] == mid[j];
        assert(mid[j] <= pre[0]) by {
            if j == 0 {
                assert(mid[0] == pre[m]);
            } else {
                assert(mid[j] == pre[j]);
            }
        }
        assert(post[a] <= post[m]);
        if b2 > m {
            assert(post[m] == pre[0] && post[b2] == pre[b2]);
        }
    }
}

} // verus!
