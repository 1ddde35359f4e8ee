//! The fallback general-purpose sort behind the `timsort` command name: a
//! stable merge sort over the whole array.  Comparisons are counted through
//! the sink, but only a single mutation covering the whole array is
//! reported, so a visual run shows one final frame for it.

use vstd::prelude::*;
use crate::sink::Sink;
use crate::sorted;
use crate::sort::mergesort::mergesort_range;

verus! {

pub fn timsort<S: Sink>(arr: &mut Vec<i32>, sink: &mut S)
    ensures
        final(arr)@.to_multiset() == old(arr)@.to_multiset(),
        final(arr)@.len() == old(arr)@.len(),
        sorted(final(arr)@),
        final(sink).compares() >= old(sink).compares(),
        final(sink).swaps() >= old(sink).swaps(),
        crate::sink::reports_extended(old(sink).mutations(), final(sink).mutations()),
        old(arr)@.len() <= 1 ==> final(arr)@ == old(arr)@ && final(sink).compares() == old(
            sink,
        ).compares() && final(sink).swaps() == old(sink).swaps() && final(sink).mutations() == old(
            sink,
        ).mutations(),
        old(arr)@.len() >= 2 ==> final(sink).mutations() == old(sink).mutations().push(
            (final(arr)@, crate::sink::full_range_indices(old(arr)@.len() as int)),
        ),
{
    let ghost m0 = sink.mutations();
    proof {
        crate::sink::lemma_reports_refl(m0);
    }
    let len = arr.len();
    if len <= 1 {
        return ;
    }
    mergesort_range(arr, 0, len, sink, false);
    proof {
        assert(old(arr)@.subrange(0, len as int) =~= old(arr)@);
        assert(arr@.subrange(0, len as int) =~= arr@);
    }
    let mut touched: Vec<usize> = Vec::new();
    let mut t: usize = 0;
    proof {
        assert(touched@ =~= crate::sink::full_range_indices(0));
    }
    while t < len
        invariant
            t <= len <= arr@.len(),
            touched@ == crate::sink::full_range_indices(t as int),
        decreases len - t,
    {
        touched.push(t);
        t += 1;
        proof {
            assert(touched@ =~= crate::sink::full_range_indices(t as int));
        }
    }
    proof {
        assert forall|m: int| 0 <= m < touched@.len() implies touched@[m] < arr@.len() by {
            assert(touched@[m] == m as usize);
        }
    }
    let ghost mb = sink.mutations();
    sink.on_mutation(arr, &touched);
    proof {
        crate::sink::lemma_reports_push(m0, mb, (arr@, touched@));
    }
}

} // verus!
