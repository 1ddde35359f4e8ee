//! Bubble sort: adjacent exchanges with the early exit on a pass without a
//! swap.

use vstd::prelude::*;
use crate::sink::Sink;
use crate::sorted;
use crate::utils::swap_elems;

verus! {

pub fn bubblesort<S: Sink>(arr: &mut Vec<i32>, sink: &mut S)
    ensures
        final(arr)@.to_multiset() == old(arr)@.to_multiset(),
        final(arr)@.len() == old(arr)@.len(),
        sorted(final(arr)@),
        final(sink).compares() >= old(sink).compares(),
        final(sink).swaps() >= old(sink).swaps(),
        crate::sink::new_reports_are_pairs(old(sink).mutations(), final(sink).mutations()),
        old(arr)@.len() <= 1 ==> final(arr)@ == old(arr)@ && final(sink).compares() == old(
            sink,
        ).compares() && final(sink).swaps() == old(sink).swaps() && final(sink).mutations() == old(
            sink,
        ).mutations(),
{
    let ghost orig = arr@;
    let ghost c0 = sink.compares();
    let ghost s0 = sink.swaps();
    let ghost m0 = sink.mutations();
    proof {
        crate::sink::lemma_reports_refl(m0);
    }
    let len = arr.len();
    if len <= 1 {
        return ;
    }
    let mut i: usize = 0;
    while i < len
        invariant
            orig == old(arr)@,
            len == old(arr)@.len(),
            c0 == old(sink).compares(),
            s0 == old(sink).swaps(),
            m0 == old(sink).mutations(),
            crate::sink::new_reports_are_pairs(m0, sink.mutations()),
            2 <= len,
            i <= len,
            arr@.len() == len,
            arr@.to_multiset() == orig.to_multiset(),
            forall|a: int, b: int| len - i <= a < b < len ==> arr@[a] <= arr@[b],
            forall|a: int, b: int| 0 <= a < len - i <= b < len ==> arr@[a] <= arr@[b],
            sink.compares() >= c0,
            sink.swaps() >= s0,
        decreases len - i,
    {
        let mut swapped = false;
        let mut j: usize = 0;
        while j < len - i - 1
            invariant
                orig == old(arr)@,
                len == old(arr)@.len(),
                c0 == old(sink).compares(),
                s0 == old(sink).swaps(),
                m0 == old(sink).mutations(),
                crate::sink::new_reports_are_pairs(m0, sink.mutations()),
                2 <= len,
                i < len,
                j <= len - i - 1,
                arr@.len() == len,
                arr@.to_multiset() == orig.to_multiset(),
                forall|a: int| 0 <= a < j ==> arr@[a] <= arr@[j as int],
                forall|a: int, b: int| len - i <= a < b < len ==> arr@[a] <= arr@[b],
                forall|a: int, b: int| 0 <= a < len - i <= b < len ==> arr@[a] <= arr@[b],
                !swapped ==> forall|a: int| 0 <= a < j ==> #[trigger] arr@[a] <= arr@[a + 1],
                sink.compares() >= c0,
                sink.swaps() >= s0,
            decreases len - i - 1 - j,
        {
            sink.on_compare();
            if arr[j] > arr[j + 1] {
                swap_elems(arr, j, j + 1);
                sink.on_swap();
                let touched: Vec<usize> = vec![j, j + 1];
                let ghost mb = sink.mutations();
                sink.on_mutation(arr, &touched);
                proof {
                    assert(touched@.len() == 2);
                    crate::sink::lemma_reports_push(m0, mb, (arr@, touched@));
                }
                swapped = true;
            }
            j += 1;
        }
        if !swapped {
            proof {
                assert forall|a: int, b: int| 0 <= a < b < len implies arr@[a] <= arr@[b] by {
                    if b < len - i {
                        crate::seqlib::lemma_adjacent_sorted_range(arr@, 0, len - i as int, a, b);
                    }
                }
            }
            return ;
        }
        i += 1;
    }
}

} // verus!
