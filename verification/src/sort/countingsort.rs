//! Counting sort for small non-negative ranges: the elements are gathered
//! value by value from `0` to `max_value`, which is a stable distribution
//! into value buckets, and written back one position at a time.

use vstd::prelude::*;
use crate::sink::Sink;
use crate::sorted;
use crate::seqlib::lemma_filter_member;
use crate::seqlib::lemma_multiset_of_add;

verus! {

/// The elements equal to `v`.
pub open spec fn val_pred(v: int) -> spec_fn(i32) -> bool {
    |x: i32| x as int == v
}

/// The concatenation of the value buckets `0 .. v`.
pub open spec fn val_buckets(s: Seq<i32>, v: int) -> Seq<i32>
    decreases v,
{
    if v <= 0 {
        Seq::empty()
    } else {
        val_buckets(s, v - 1) + s.filter(val_pred(v - 1))
    }
}

proof fn lemma_val_buckets_push(s: Seq<i32>, x: i32, v: int)
    ensures
        val_buckets(s.push(x), v).to_multiset() == if 0 <= x < v {
            val_buckets(s, v).to_multiset().insert(x)
        } else {
            val_buckets(s, v).to_multiset()
        },
    decreases v,
{
    broadcast use vstd::seq::Seq::lemma_filter_push;
    broadcast use vstd::multiset::group_multiset_axioms;

    if v > 0 {
        lemma_val_buckets_push(s, x, v - 1);
        let p = val_pred(v - 1);
        lemma_multiset_of_add(val_buckets(s.push(x), v - 1), s.push(x).filter(p));
        lemma_multiset_of_add(val_buckets(s, v - 1), s.filter(p));
        if p(x) {
            s.filter(p).to_multiset_ensures();
            assert(s.push(x).filter(p) == s.filter(p).push(x));
        }
        assert(val_buckets(s.push(x), v).to_multiset() =~= (if 0 <= x < v {
            val_buckets(s, v).to_multiset().insert(x)
        } else {
            val_buckets(s, v).to_multiset()
        }));
    }
}

proof fn lemma_val_buckets_empty(v: int)
    ensures
        val_buckets(Seq::<i32>::empty(), v) =~= Seq::<i32>::empty(),
    decreases v,
{
    if v > 0 {
        lemma_val_buckets_empty(v - 1);
        Seq::<i32>::empty().filter_lemma(val_pred(v - 1));
        assert(Seq::<i32>::empty().filter(val_pred(v - 1)) =~= Seq::<i32>::empty());
    }
}

/// Gathering every value in `[0, hi)` in order permutes a sequence whose
/// elements all lie in that range.
proof fn lemma_val_buckets_permute(s: Seq<i32>, hi: int)
    requires
        forall|k: int| 0 <= k < s.len() ==> 0 <= #[trigger] s[k] < hi,
    ensures
        val_buckets(s, hi).to_multiset() == s.to_multiset(),
    decreases s.len(),
{
    broadcast use vstd::multiset::group_multiset_axioms;

    if s.len() == 0 {
        lemma_val_buckets_empty(hi);
        assert(s =~= Seq::<i32>::empty());
    } else {
        let t = s.drop_last();
        let x = s.last();
        assert(s =~= t.push(x));
        lemma_val_buckets_permute(t, hi);
        lemma_val_buckets_push(t, x, hi);
        t.to_multiset_ensures();
        assert(val_buckets(s, hi).to_multiset() =~= s.to_multiset());
    }
}

/// The gathered sequence is ascending: bucket `v` holds only the value `v`.
proof fn lemma_val_buckets_sorted(s: Seq<i32>, v: int)
    ensures
        sorted(val_buckets(s, v)),
        forall|i: int|
            0 <= i < val_buckets(s, v).len() ==> 0 <= #[trigger] val_buckets(s, v)[i] < v,
    decreases v,
{
    if v > 0 {
        lemma_val_buckets_sorted(s, v - 1);
        let b = val_buckets(s, v - 1);
        let f = s.filter(val_pred(v - 1));
        let whole = val_buckets(s, v);
        s.filter_lemma(val_pred(v - 1));
        assert forall|i: int| 0 <= i < f.len() implies f[i] as int == v - 1 by {
            assert(val_pred(v - 1)(f[i]));
        }
        assert forall|i: int, j: int| 0 <= i < j < whole.len() implies whole[i] <= whole[j] by {
            if j < b.len() {
                assert(whole[i] == b[i] && whole[j] == b[j]);
            } else if i >= b.len() {
                assert(whole[i] == f[i - b.len()] && whole[j] == f[j - b.len()]);
            } else {
                assert(whole[i] == b[i] && whole[j] == f[j - b.len()]);
            }
        }
        assert forall|i: int| 0 <= i < whole.len() implies 0 <= #[trigger] whole[i] < v by {
            if i < b.len() {
                assert(whole[i] == b[i]);
            } else {
                assert(whole[i] == f[i - b.len()]);
            }
        }
    }
}

/// Sorts values from `[0, max_value]` by counting occurrences; reports a
/// mutation for every write of the reconstruction.  No elements are
/// compared or swapped, so the counters do not move.
pub fn counting_sort<S: Sink>(arr: &mut Vec<i32>, max_value: usize, sink: &mut S)
    requires
        max_value < usize::MAX,
        max_value <= i32::MAX as usize,
        forall|k: int| 0 <= k < old(arr)@.len() ==> 0 <= #[trigger] old(arr)@[k] <= max_value as i32,
    ensures
        final(arr)@.to_multiset() == old(arr)@.to_multiset(),
        final(arr)@.len() == old(arr)@.len(),
        sorted(final(arr)@),
        final(sink).compares() == old(sink).compares(),
        final(sink).swaps() == old(sink).swaps(),
        crate::sink::new_reports_are_singles(old(sink).mutations(), final(sink).mutations()),
        old(arr)@.len() <= 1 ==> final(arr)@ == old(arr)@ && final(sink).mutations() == old(
            sink,
        ).mutations(),
{
    let ghost pre = arr@;
    let ghost m0 = sink.mutations();
    proof {
        crate::sink::lemma_reports_refl(m0);
    }
    let n = arr.len();
    if n <= 1 {
        return ;
    }
    let hi = max_value + 1;
    let mut out: Vec<i32> = Vec::new();
    let mut v: usize = 0;
    proof {
        assert(out@ =~= val_buckets(pre, 0));
    }
    while v < hi
        invariant
            pre == old(arr)@,
            arr@ == pre,
            n == pre.len(),
            v <= hi <= i32::MAX as usize + 1,
            out@ == val_buckets(pre, v as int),
        decreases hi - v,
    {
        let mut k: usize = 0;
        proof {
            assert(pre.take(0).filter(val_pred(v as int)) =~= Seq::<i32>::empty());
            assert(out@ =~= out@ + pre.take(0).filter(val_pred(v as int)));
        }
        let ghost base = out@;
        while k < n
            invariant
                pre == old(arr)@,
                arr@ == pre,
                n == pre.len(),
                k <= n,
                v < hi <= i32::MAX as usize + 1,
                base == val_buckets(pre, v as int),
                out@ == base + pre.take(k as int).filter(val_pred(v as int)),
            decreases n - k,
        {
            broadcast use vstd::seq::Seq::lemma_filter_push;

            let x = arr[k];
            proof {
                assert(pre.take(k as int + 1) =~= pre.take(k as int).push(x));
            }
            if x == v as i32 {
                out.push(x);
            }
            k += 1;
        }
        proof {
            assert(pre.take(n as int) =~= pre);
            assert(out@ == val_buckets(pre, v as int + 1));
        }
        v += 1;
    }

    proof {
        lemma_val_buckets_permute(pre, hi as int);
        lemma_val_buckets_sorted(pre, hi as int);
        vstd::seq_lib::to_multiset_len(out@);
        vstd::seq_lib::to_multiset_len(pre);
        assert(out@.len() == n);
    }
    let mut w: usize = 0;
    while w < n
        invariant
            n == arr@.len(),
            w <= n == out@.len(),
            forall|m: int| 0 <= m < w ==> #[trigger] arr@[m] == out@[m],
            sink.compares() == old(sink).compares(),
            sink.swaps() == old(sink).swaps(),
            m0 == old(sink).mutations(),
            crate::sink::new_reports_are_singles(m0, sink.mutations()),
        decreases n - w,
    {
        arr[w] = out[w];
        let touched: Vec<usize> = vec![w];
        let ghost mb = sink.mutations();
        sink.on_mutation(arr, &touched);
        proof {
            assert(touched@.len() == 1);
            crate::sink::lemma_reports_push(m0, mb, (arr@, touched@));
        }
        w += 1;
    }
    proof {
        assert(arr@ =~= out@);
    }
}

} // verus!
