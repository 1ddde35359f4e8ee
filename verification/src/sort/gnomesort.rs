//! Gnome sort: each new element is walked down through the sorted prefix by
//! adjacent swaps until it fits.  The walk back up over the already sorted
//! prefix is collapsed into keeping the insertion boundary, which performs
//! the same comparisons and exactly the same swaps.

use vstd::prelude::*;
use crate::sink::Sink;
use crate::sorted;
use crate::utils::swap_elems;

verus! {

pub fn gnome_sort<S: Sink>(arr: &mut Vec<i32>, sink: &mut S)
    ensures
        final(arr)@.to_multiset() == old(arr)@.to_multiset(),
        final(arr)@.len() == old(arr)@.len(),
        sorted(final(arr)@),
        final(sink).compares() >= old(sink).compares(),
        final(sink).swaps() >= old(sink).swaps(),
        crate::sink::new_reports_are_pairs(old(sink).mutations(), final(sink).mutations()),
        old(arr)@.len() <= 1 ==> final(arr)@ == old(arr)@ && final(sink).compares() == old(
            sink,
        ).compares() && final(sink).swaps() == old(sink).swaps() && final(sink).mutations() == old(
            sink,
        ).mutations(),
{
    let ghost orig = arr@;
    let ghost c0 = sink.compares();
    let ghost s0 = sink.swaps();
    let ghost m0 = sink.mutations();
    proof {
        crate::sink::lemma_reports_refl(m0);
    }
    let len = arr.len();
    if len <= 1 {
        return ;
    }
    let mut h: usize = 0;
    while h < len
        invariant
            orig == old(arr)@,
            len == old(arr)@.len(),
            c0 == old(sink).compares(),
            s0 == old(sink).swaps(),
            m0 == old(sink).mutations(),
            crate::sink::new_reports_are_pairs(m0, sink.mutations()),
            h <= len,
            arr@.len() == len,
            arr@.to_multiset() == orig.to_multiset(),
            forall|a: int, b: int| 0 <= a < b < h ==> arr@[a] <= arr@[b],
            sink.compares() >= c0,
            sink.swaps() >= s0,
        decreases len - h,
    {
        let mut p: usize = h;
        while p > 0
            invariant
                orig == old(arr)@,
                len == old(arr)@.len(),
                c0 == old(sink).compares(),
                s0 == old(sink).swaps(),
                m0 == old(sink).mutations(),
                crate::sink::new_reports_are_pairs(m0, sink.mutations()),
                p <= h < len,
                arr@.len() == len,
                arr@.to_multiset() == orig.to_multiset(),
                forall|a: int, b: int| 0 <= a < b <= h && b != p ==> arr@[a] <= arr@[b],
                forall|b: int| p < b <= h ==> arr@[p as int] <= arr@[b],
                sink.compares() >= c0,
                sink.swaps() >= s0,
            ensures
                arr@.len() == len,
                arr@.to_multiset() == orig.to_multiset(),
                crate::sink::new_reports_are_pairs(m0, sink.mutations()),
                forall|a: int, b: int| 0 <= a < b <= h ==> arr@[a] <= arr@[b],
                sink.compares() >= c0,
                sink.swaps() >= s0,
            decreases p,
        {
            sink.on_compare();
            if arr[p] >= arr[p - 1] {
                proof {
                    assert forall|a: int, b: int| 0 <= a < b <= h implies arr@[a] <= arr@[b] by {
                        if b == p && a < p - 1 {
                            assert(arr@[a] <= arr@[p - 1]);
                        }
                    }
                }
                break ;
            }
            swap_elems(arr, p - 1, p);
            sink.on_swap();
            let touched: Vec<usize> = vec![p - 1, p];
            let ghost mb = sink.mutations();
            sink.on_mutation(arr, &touched);
            proof {
                assert(touched@.len() == 2);
                crate::sink::lemma_reports_push(m0, mb, (arr@, touched@));
            }
            p -= 1;
        }
        h += 1;
    }
}

} // verus!
