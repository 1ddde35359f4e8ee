//! Cocktail shaker sort: alternating forward and backward bubble passes that
//! shrink the active window from both ends, with the early exit on a pass
//! without a swap.

use vstd::prelude::*;
use crate::sink::Sink;
use crate::sorted;
use crate::seqlib::lemma_adjacent_sorted_range;
use crate::utils::swap_elems;

verus! {

pub fn cocktail_sort<S: Sink>(arr: &mut Vec<i32>, sink: &mut S)
    ensures
        final(arr)@.to_multiset() == old(arr)@.to_multiset(),
        final(arr)@.len() == old(arr)@.len(),
        sorted(final(arr)@),
        final(sink).compares() >= old(sink).compares(),
        final(sink).swaps() >= old(sink).swaps(),
        crate::sink::new_reports_are_pairs(old(sink).mutations(), final(sink).mutations()),
        old(arr)@.len() <= 1 ==> final(arr)@ == old(arr)@ && final(sink).compares() == old(
            sink,
        ).compares() && final(sink).swaps() == old(sink).swaps() && final(sink).mutations() == old(
            sink,
        ).mutations(),
{
    let ghost orig = arr@;
    let ghost c0 = sink.compares();
    let ghost s0 = sink.swaps();
    let ghost m0 = sink.mutations();
    proof {
        crate::sink::lemma_reports_refl(m0);
    }
    let len = arr.len();
    if len <= 1 {
        return ;
    }
    let mut swapped = true;
    let mut start: usize = 0;
    let mut end: usize = len - 1;

    while swapped
        invariant
            orig == old(arr)@,
            len == old(arr)@.len(),
            c0 == old(sink).compares(),
            s0 == old(sink).swaps(),
            m0 == old(sink).mutations(),
            crate::sink::new_reports_are_pairs(m0, sink.mutations()),
            arr@.len() == len,
            1 < len,
            arr@.to_multiset() == orig.to_multiset(),
            start <= end + 1,
            end < len,
            swapped ==> start <= end,
            forall|a: int, b: int| 0 <= a < b < len && a < start ==> arr@[a] <= arr@[b],
            forall|a: int, b: int| 0 <= a < b < len && end < b ==> arr@[a] <= arr@[b],
            !swapped ==> forall|k: int| start <= k < end ==> #[trigger] arr@[k] <= arr@[k + 1],
            sink.compares() >= c0,
            sink.swaps() >= s0,
        decreases end + 1 - start,
    {
        swapped = false;

        // Forward pass: the greatest window element bubbles to `end`.
        let mut i: usize = start;
        while i < end
            invariant
                orig == old(arr)@,
                len == old(arr)@.len(),
                c0 == old(sink).compares(),
                s0 == old(sink).swaps(),
                m0 == old(sink).mutations(),
                crate::sink::new_reports_are_pairs(m0, sink.mutations()),
                arr@.len() == len,
                start <= end < len,
                start <= i,
                i <= end,
                arr@.to_multiset() == orig.to_multiset(),
                forall|a: int, b: int| 0 <= a < b < len && a < start ==> arr@[a] <= arr@[b],
                forall|a: int, b: int| 0 <= a < b < len && end < b ==> arr@[a] <= arr@[b],
                swapped ==> start < end,
                forall|a: int| start <= a < i ==> arr@[a] <= arr@[i as int],
                !swapped ==> forall|k: int| start <= k < i ==> #[trigger] arr@[k] <= arr@[k + 1],
                sink.compares() >= c0,
                sink.swaps() >= s0,
            decreases end - i,
        {
            sink.on_compare();
            if arr[i] > arr[i + 1] {
                swap_elems(arr, i, i + 1);
                sink.on_swap();
                let touched: Vec<usize> = vec![i, i + 1];
                let ghost mb = sink.mutations();
                sink.on_mutation(arr, &touched);
                proof {
                    assert(touched@.len() == 2);
                    crate::sink::lemma_reports_push(m0, mb, (arr@, touched@));
                }
                swapped = true;
            }
            i += 1;
        }

        if !swapped {
            proof {
                assert forall|a: int, b: int| 0 <= a < b < len implies arr@[a] <= arr@[b] by {
                    if start <= a && b <= end {
                        lemma_adjacent_sorted_range(arr@, start as int, end as int + 1, a, b);
                    }
                }
            }
            return ;
        }

        end -= 1;
        proof {
            assert forall|a: int, b: int| 0 <= a < b < len && end < b implies arr@[a]
                <= arr@[b] by {}
        }
        swapped = false;

        // Backward pass: the least window element drifts to `start`.
        let mut j: usize = end;
        while j > start
            invariant
                orig == old(arr)@,
                len == old(arr)@.len(),
                c0 == old(sink).compares(),
                s0 == old(sink).swaps(),
                m0 == old(sink).mutations(),
                crate::sink::new_reports_are_pairs(m0, sink.mutations()),
                arr@.len() == len,
                start <= end < len,
                start <= j <= end,
                arr@.to_multiset() == orig.to_multiset(),
                forall|a: int, b: int| 0 <= a < b < len && a < start ==> arr@[a] <= arr@[b],
                forall|a: int, b: int| 0 <= a < b < len && end < b ==> arr@[a] <= arr@[b],
                swapped ==> start < end,
                forall|b: int| j < b <= end ==> arr@[j as int] <= arr@[b],
                !swapped ==> forall|k: int| j <= k < end ==> #[trigger] arr@[k] <= arr@[k + 1],
                sink.compares() >= c0,
                sink.swaps() >= s0,
            decreases j,
        {
            sink.on_compare();
            if arr[j - 1] > arr[j] {
                swap_elems(arr, j - 1, j);
                sink.on_swap();
                let touched: Vec<usize> = vec![j - 1, j];
                let ghost mb = sink.mutations();
                sink.on_mutation(arr, &touched);
                proof {
                    assert(touched@.len() == 2);
                    crate::sink::lemma_reports_push(m0, mb, (arr@, touched@));
                }
                swapped = true;
            }
            j -= 1;
        }

        start += 1;
    }
    proof {
        assert forall|a: int, b: int| 0 <= a < b < arr@.len() implies arr@[a] <= arr@[b] by {
            if start <= a && b <= end {
                lemma_adjacent_sorted_range(arr@, start as int, end as int + 1, a, b);
            }
        }
    }
}

} // verus!
