//! Radix sort: least-significant-digit, base 10, for non-negative integers.
//! Each digit pass distributes the elements into the ten digit buckets in
//! order — a stable counting pass — and reports one mutation covering the
//! whole array.  The pass does no element comparisons; only the initial
//! scan for the maximum compares, so the counter movement is pinned exactly.

use vstd::prelude::*;
use crate::sink::Sink;
use crate::sorted;
use crate::seqlib::lemma_multiset_bounds_transfer;
use crate::seqlib::lemma_multiset_of_add;

verus! {

/// The digit of `x` selected by the divisor `e` (1, 10, 100, ...).
pub open spec fn digit_of(x: int, e: int) -> int {
    (x / e) % 10
}

/// The elements whose selected digit is `d`.
pub open spec fn digit_pred(e: int, d: int) -> spec_fn(i32) -> bool {
    |x: i32| digit_of(x as int, e) == d
}

/// The concatenation of the digit buckets `0 .. d`, each bucket keeping the
/// input order: the result of a stable counting pass on digit `e`.
pub open spec fn buckets_upto(s: Seq<i32>, e: int, d: int) -> Seq<i32>
    decreases d,
{
    if d <= 0 {
        Seq::empty()
    } else {
        buckets_upto(s, e, d - 1) + s.filter(digit_pred(e, d - 1))
    }
}

pub open spec fn all_nonneg(s: Seq<i32>) -> bool {
    forall|k: int| 0 <= k < s.len() ==> s[k] >= 0
}

/// Ascending order of the keys `x % m`.
pub open spec fn sorted_by_mod(s: Seq<i32>, m: int) -> bool {
    forall|i: int, j: int|
        #![trigger s[i], s[j]]
        0 <= i < j < s.len() ==> (s[i] as int) % m <= (s[j] as int) % m
}

/// `c` saturating-incremented `k` times.
pub open spec fn sat_add(c: u64, k: nat) -> u64 {
    if c + k <= u64::MAX {
        (c + k) as u64
    } else {
        u64::MAX
    }
}

/// Base-10 place-value split of the key `x % 10e`.
proof fn lemma_digit_decompose(x: int, e: int)
    requires
        x >= 0,
        e >= 1,
    ensures
        x % (10 * e) == digit_of(x, e) * e + x % e,
        0 <= digit_of(x, e) < 10,
        0 <= x % e < e,
{
    let q = x / e;
    let r = x % e;
    vstd::arithmetic::div_mod::lemma_fundamental_div_mod(x, e);
    assert(q >= 0) by (nonlinear_arith)
        requires
            x >= 0,
            e >= 1,
            x == e * q + r,
            0 <= r < e,
    ;
    let q2 = q / 10;
    let d = q % 10;
    vstd::arithmetic::div_mod::lemma_fundamental_div_mod(q, 10);
    assert(x == q2 * (10 * e) + (d * e + r)) by (nonlinear_arith)
        requires
            x == e * q + r,
            q == 10 * q2 + d,
    ;
    assert(0 <= d * e + r < 10 * e) by (nonlinear_arith)
        requires
            0 <= d < 10,
            0 <= r < e,
            e >= 1,
    ;
    vstd::arithmetic::div_mod::lemma_fundamental_div_mod_converse(x, 10 * e, q2, d * e + r);
}

/// Filtering keeps the key order, the predicate, and membership.
proof fn lemma_filter_keeps_order(s: Seq<i32>, m: int, pred: spec_fn(i32) -> bool)
    requires
        sorted_by_mod(s, m),
    ensures
        sorted_by_mod(s.filter(pred), m),
        forall|i: int|
            0 <= i < s.filter(pred).len() ==> pred(#[trigger] s.filter(pred)[i]) && s.contains(
                s.filter(pred)[i],
            ),
    decreases s.len(),
{
    reveal(Seq::filter);
    s.filter_lemma(pred);
    assert forall|i: int|
        0 <= i < s.filter(pred).len() implies pred(#[trigger] s.filter(pred)[i]) && s.contains(
        s.filter(pred)[i],
    ) by {
        crate::seqlib::lemma_filter_member(s, pred, i);
    }
    if s.len() > 0 {
        let t = s.drop_last();
        let x = s.last();
        lemma_filter_keeps_order(t, m, pred);
        t.filter_lemma(pred);
        if pred(x) {
            assert(s.filter(pred) == t.filter(pred).push(x));
            assert forall|i: int, j: int|
                #![trigger s.filter(pred)[i], s.filter(pred)[j]]
                0 <= i < j < s.filter(pred).len() implies (s.filter(pred)[i] as int) % m <= (
            s.filter(pred)[j] as int) % m by {
                if j < s.filter(pred).len() - 1 {
                    assert(s.filter(pred)[i] == t.filter(pred)[i]);
                    assert(s.filter(pred)[j] == t.filter(pred)[j]);
                } else {
                    assert(s.filter(pred)[j] == x);
                    let y = s.filter(pred)[i];
                    assert(y == t.filter(pred)[i]);
                    crate::seqlib::lemma_filter_member(t, pred, i);
                    let w = choose|w: int| 0 <= w < t.len() && t[w] == y;
                    assert(s[w] == y && s[s.len() - 1] == x);
                }
            }
        } else {
            assert(s.filter(pred) == t.filter(pred));
        }
    }
}

/// A stable digit pass turns order by `x % e` into order by `x % 10e`.
proof fn lemma_buckets_sorted(s: Seq<i32>, e: int, d: int)
    requires
        e >= 1,
        all_nonneg(s),
        sorted_by_mod(s, e),
        0 <= d <= 10,
    ensures
        sorted_by_mod(buckets_upto(s, e, d), 10 * e),
        forall|i: int|
            0 <= i < buckets_upto(s, e, d).len() ==> #[trigger] buckets_upto(s, e, d)[i] >= 0
                && 0 <= digit_of(buckets_upto(s, e, d)[i] as int, e) < d,
    decreases d,
{
    if d > 0 {
        lemma_buckets_sorted(s, e, d - 1);
        let b = buckets_upto(s, e, d - 1);
        let f = s.filter(digit_pred(e, d - 1));
        let whole = buckets_upto(s, e, d);
        lemma_filter_keeps_order(s, e, digit_pred(e, d - 1));
        // every filtered element is a non-negative element with digit d - 1
        assert forall|i: int| 0 <= i < f.len() implies #[trigger] f[i] >= 0 && digit_of(
            f[i] as int,
            e,
        ) == d - 1 by {
            assert(digit_pred(e, d - 1)(f[i]));
            assert(s.contains(f[i]));
            let w = choose|w: int| 0 <= w < s.len() && s[w] == f[i];
        }
        assert forall|i: int, j: int|
            #![trigger whole[i], whole[j]]
            0 <= i < j < whole.len() implies (whole[i] as int) % (10 * e) <= (whole[j] as int) % (
        10 * e) by {
            if j < b.len() {
                assert(whole[i] == b[i] && whole[j] == b[j]);
            } else if i >= b.len() {
                let x = f[i - b.len()];
                let y = f[j - b.len()];
                assert(whole[i] == x && whole[j] == y);
                lemma_digit_decompose(x as int, e);
                lemma_digit_decompose(y as int, e);
                assert((x as int) % e <= (y as int) % e);
            } else {
                let x = b[i];
                let y = f[j - b.len()];
                assert(whole[i] == x && whole[j] == y);
                lemma_digit_decompose(x as int, e);
                lemma_digit_decompose(y as int, e);
                assert(digit_of(x as int, e) < d - 1);
                assert((x as int) % (10 * e) == digit_of(x as int, e) * e + (x as int) % e);
                assert((y as int) % (10 * e) == (d - 1) * e + (y as int) % e);
                assert(digit_of(x as int, e) * e + (x as int) % e <= (d - 1) * e + (y as int)
                    % e) by (nonlinear_arith)
                    requires
                        digit_of(x as int, e) <= d - 2,
                        0 <= (x as int) % e < e,
                        0 <= (y as int) % e,
                        e >= 1,
                ;
            }
        }
        assert forall|i: int| 0 <= i < whole.len() implies #[trigger] whole[i] >= 0 && 0
            <= digit_of(whole[i] as int, e) < d by {
            if i < b.len() {
                assert(whole[i] == b[i]);
            } else {
                assert(whole[i] == f[i - b.len()]);
            }
        }
    }
}

/// The buckets of an empty sequence are empty.
proof fn lemma_buckets_empty(e: int, d: int)
    ensures
        buckets_upto(Seq::<i32>::empty(), e, d) =~= Seq::<i32>::empty(),
    decreases d,
{
    if d > 0 {
        lemma_buckets_empty(e, d - 1);
        Seq::<i32>::empty().filter_lemma(digit_pred(e, d - 1));
        assert(Seq::<i32>::empty().filter(digit_pred(e, d - 1)) =~= Seq::<i32>::empty());
    }
}

/// Appending one element adds it to exactly its own digit bucket.
proof fn lemma_buckets_push(s: Seq<i32>, x: i32, e: int, d: int)
    ensures
        buckets_upto(s.push(x), e, d).to_multiset() == if 0 <= digit_of(x as int, e) < d {
            buckets_upto(s, e, d).to_multiset().insert(x)
        } else {
            buckets_upto(s, e, d).to_multiset()
        },
    decreases d,
{
    broadcast use vstd::seq::Seq::lemma_filter_push;
    broadcast use vstd::multiset::group_multiset_axioms;

    if d > 0 {
        lemma_buckets_push(s, x, e, d - 1);
        let p = digit_pred(e, d - 1);
        lemma_multiset_of_add(buckets_upto(s.push(x), e, d - 1), s.push(x).filter(p));
        lemma_multiset_of_add(buckets_upto(s, e, d - 1), s.filter(p));
        if p(x) {
            s.filter(p).to_multiset_ensures();
            assert(s.push(x).filter(p) == s.filter(p).push(x));
        }
        assert(buckets_upto(s.push(x), e, d).to_multiset() =~= (if 0 <= digit_of(x as int, e)
            < d {
            buckets_upto(s, e, d).to_multiset().insert(x)
        } else {
            buckets_upto(s, e, d).to_multiset()
        }));
    }
}

/// A full digit pass permutes the sequence.
proof fn lemma_buckets_permute(s: Seq<i32>, e: int)
    requires
        e >= 1,
        all_nonneg(s),
    ensures
        buckets_upto(s, e, 10).to_multiset() == s.to_multiset(),
    decreases s.len(),
{
    broadcast use vstd::multiset::group_multiset_axioms;

    if s.len() == 0 {
        lemma_buckets_empty(e, 10);
        assert(s =~= Seq::<i32>::empty());
    } else {
        let t = s.drop_last();
        let x = s.last();
        assert(s =~= t.push(x));
        lemma_buckets_permute(t, e);
        lemma_buckets_push(t, x, e, 10);
        lemma_digit_decompose(x as int, e);
        t.to_multiset_ensures();
        assert(buckets_upto(s, e, 10).to_multiset() =~= s.to_multiset());
    }
}

pub fn radixsort<S: Sink>(arr: &mut Vec<i32>, sink: &mut S)
    requires
        all_nonneg(old(arr)@),
    ensures
        final(arr)@.to_multiset() == old(arr)@.to_multiset(),
        final(arr)@.len() == old(arr)@.len(),
        sorted(final(arr)@),
        final(sink).swaps() == old(sink).swaps(),
        final(sink).compares() == if old(arr)@.len() == 0 {
            old(sink).compares()
        } else {
            sat_add(old(sink).compares(), (old(arr)@.len() - 1) as nat)
        },
        crate::sink::new_reports_are_whole(
            old(sink).mutations(),
            final(sink).mutations(),
            old(arr)@.len() as int,
        ),
        old(arr)@.len() <= 1 ==> final(arr)@ == old(arr)@ && final(sink).mutations() == old(
            sink,
        ).mutations(),
        (forall|k: int| 0 <= k < old(arr)@.len() ==> old(arr)@[k] == 0) ==> final(arr)@ == old(
            arr,
        )@ && final(sink).mutations() == old(sink).mutations(),
{
    let ghost m0 = sink.mutations();
    proof {
        crate::sink::lemma_reports_refl(m0);
    }
    let n = arr.len();
    if n <= 1 {
        return ;
    }

    // Scan for the maximum; this is the only place the pass compares.
    let mut max = arr[0];
    let mut k: usize = 1;
    while k < n
        invariant
            1 <= k <= n == old(arr)@.len(),
            arr@ == old(arr)@,
            m0 == old(sink).mutations(),
            sink.mutations() == m0,
            forall|m: int| 0 <= m < k ==> arr@[m] <= max,
            (forall|m: int| 0 <= m < n ==> arr@[m] == 0) ==> max == 0,
            max >= 0,
            all_nonneg(arr@),
            sink.compares() == sat_add(old(sink).compares(), (k - 1) as nat),
            sink.swaps() == old(sink).swaps(),
        decreases n - k,
    {
        sink.on_compare();
        if arr[k] > max {
            max = arr[k];
        }
        k += 1;
    }

    let mut exp: u64 = 1;
    while exp <= max as u64
        invariant
            n == old(arr)@.len(),
            1 <= exp,
            0 <= max,
            arr@.len() == n,
            arr@.to_multiset() == old(arr)@.to_multiset(),
            all_nonneg(arr@),
            forall|m: int| 0 <= m < n ==> arr@[m] <= max,
            sorted_by_mod(arr@, exp as int),
            sink.compares() == sat_add(old(sink).compares(), (n - 1) as nat),
            sink.swaps() == old(sink).swaps(),
            m0 == old(sink).mutations(),
            crate::sink::new_reports_are_whole(m0, sink.mutations(), n as int),
            (forall|m: int| 0 <= m < n ==> old(arr)@[m] == 0) ==> max == 0,
            (forall|m: int| 0 <= m < n ==> old(arr)@[m] == 0) ==> sink.mutations() == m0
                && arr@ == old(arr)@,
        decreases (if exp as int <= max as int {
            max as int + 1 - exp as int
        } else {
            0
        }),
    {
        let ghost pre = arr@;
        let ghost mb = sink.mutations();
        digit_pass(arr, exp, sink);
        proof {
            crate::sink::lemma_reports_push(
                m0,
                mb,
                (arr@, crate::sink::full_range_indices(n as int)),
            );
            lemma_buckets_permute(pre, exp as int);
            lemma_buckets_sorted(pre, exp as int, 10);
            lemma_multiset_bounds_transfer(pre, arr@, |x: i32| x >= 0 && x <= max);
            assert forall|m: int| 0 <= m < n implies arr@[m] <= max by {
                assert((|x: i32| x >= 0 && x <= max)(arr@[m]));
            }
            assert(all_nonneg(arr@));
        }
        exp = exp * 10;
    }

    proof {
        assert forall|i: int, j: int| 0 <= i < j < arr@.len() implies arr@[i] <= arr@[j] by {
            assert((arr@[i] as int) % (exp as int) <= (arr@[j] as int) % (exp as int));
            vstd::arithmetic::div_mod::lemma_small_mod(arr@[i] as nat, exp as nat);
            vstd::arithmetic::div_mod::lemma_small_mod(arr@[j] as nat, exp as nat);
        }
    }
}

/// One stable counting pass on the digit selected by `exp`: the array
/// becomes the concatenation of its ten digit buckets, each in input order.
fn digit_pass<S: Sink>(arr: &mut Vec<i32>, exp: u64, sink: &mut S)
    requires
        1 <= exp,
        all_nonneg(old(arr)@),
    ensures
        final(arr)@ == buckets_upto(old(arr)@, exp as int, 10),
        final(arr)@.len() == old(arr)@.len(),
        final(sink).compares() == old(sink).compares(),
        final(sink).swaps() == old(sink).swaps(),
        final(sink).mutations() == old(sink).mutations().push(
            (final(arr)@, crate::sink::full_range_indices(old(arr)@.len() as int)),
        ),
{
    let ghost pre = arr@;
    let n = arr.len();
    let mut out: Vec<i32> = Vec::new();
    let mut d: u64 = 0;
    proof {
        assert(out@ =~= buckets_upto(pre, exp as int, 0));
    }
    while d < 10
        invariant
            pre == old(arr)@,
            arr@ == pre,
            n == pre.len(),
            d <= 10,
            all_nonneg(pre),
            1 <= exp,
            out@ == buckets_upto(pre, exp as int, d as int),
        decreases 10 - d,
    {
        let mut k: usize = 0;
        proof {
            assert(pre.take(0).filter(digit_pred(exp as int, d as int)) =~= Seq::<i32>::empty());
            assert(out@ =~= out@ + pre.take(0).filter(digit_pred(exp as int, d as int)));
        }
        let ghost base = out@;
        while k < n
            invariant
                pre == old(arr)@,
                arr@ == pre,
                n == pre.len(),
                k <= n,
                d < 10,
                all_nonneg(pre),
                1 <= exp,
                base == buckets_upto(pre, exp as int, d as int),
                out@ == base + pre.take(k as int).filter(digit_pred(exp as int, d as int)),
            decreases n - k,
        {
            broadcast use vstd::seq::Seq::lemma_filter_push;

            let x = arr[k];
            let digit = ((x as u64) / exp) % 10;
            proof {
                assert(pre.take(k as int + 1) =~= pre.take(k as int).push(x));
                assert(digit == digit_of(x as int, exp as int));
            }
            if digit == d {
                out.push(x);
            }
            k += 1;
        }
        proof {
            assert(pre.take(n as int) =~= pre);
            assert(out@ == buckets_upto(pre, exp as int, d as int + 1));
        }
        d += 1;
    }

    // Copy the distributed elements back and report the pass.
    proof {
        lemma_buckets_permute(pre, exp as int);
        vstd::seq_lib::to_multiset_len(out@);
        vstd::seq_lib::to_multiset_len(pre);
        assert(out@.len() == n);
    }
    let mut w: usize = 0;
    while w < n
        invariant
            n == arr@.len(),
            w <= n == out@.len(),
            forall|m: int| 0 <= m < w ==> #[trigger] arr@[m] == out@[m],
        decreases n - w,
    {
        arr[w] = out[w];
        w += 1;
    }
    proof {
        assert(arr@ =~= out@);
    }
    let mut touched: Vec<usize> = Vec::new();
    let mut t: usize = 0;
    proof {
        assert(touched@ =~= crate::sink::full_range_indices(0));
    }
    while t < n
        invariant
            t <= n <= arr@.len(),
            touched@ == crate::sink::full_range_indices(t as int),
        decreases n - t,
    {
        touched.push(t);
        t += 1;
        proof {
            assert(touched@ =~= crate::sink::full_range_indices(t as int));
        }
    }
    proof {
        assert forall|m: int| 0 <= m < touched@.len() implies touched@[m] < arr@.len() by {
            assert(touched@[m] == m as usize);
        }
    }
    sink.on_mutation(arr, &touched);
}


/// Every element of the sequence satisfies the predicate, so filtering is
/// the identity.
proof fn lemma_filter_all_sat(s: Seq<i32>, pred: spec_fn(i32) -> bool)
    requires
        forall|i: int| 0 <= i < s.len() ==> pred(#[trigger] s[i]),
    ensures
        s.filter(pred) == s,
    decreases s.len(),
{
    reveal(Seq::filter);
    if s.len() > 0 {
        let t = s.drop_last();
        assert forall|i: int| 0 <= i < t.len() implies pred(#[trigger] t[i]) by {
            assert(t[i] == s[i]);
        }
        lemma_filter_all_sat(t, pred);
        assert(s.filter(pred) =~= s);
    }
}

/// No element satisfies the predicate, so the filter is empty.
proof fn lemma_filter_none_sat(s: Seq<i32>, pred: spec_fn(i32) -> bool)
    requires
        forall|i: int| 0 <= i < s.len() ==> !pred(#[trigger] s[i]),
    ensures
        s.filter(pred) == Seq::<i32>::empty(),
    decreases s.len(),
{
    reveal(Seq::filter);
    if s.len() > 0 {
        let t = s.drop_last();
        assert forall|i: int| 0 <= i < t.len() implies !pred(#[trigger] t[i]) by {
            assert(t[i] == s[i]);
        }
        lemma_filter_none_sat(t, pred);
    }
    assert(s.filter(pred) =~= Seq::<i32>::empty());
}

proof fn lemma_buckets_filter(s: Seq<i32>, e: int, d: int, d2: int)
    requires
        e >= 1,
        0 <= d < 10,
        0 <= d2 <= 10,
    ensures
        buckets_upto(s, e, d2).filter(digit_pred(e, d)) == if d < d2 {
            s.filter(digit_pred(e, d))
        } else {
            Seq::<i32>::empty()
        },
    decreases d2,
{
    reveal(Seq::filter);
    broadcast use vstd::seq::Seq::filter_distributes_over_add;

    if d2 == 0 {
        assert(buckets_upto(s, e, 0).filter(digit_pred(e, d)) =~= Seq::<i32>::empty());
    } else {
        lemma_buckets_filter(s, e, d, d2 - 1);
        let f = s.filter(digit_pred(e, d2 - 1));
        s.filter_lemma(digit_pred(e, d2 - 1));
        if d2 - 1 == d {
            assert forall|i: int| 0 <= i < f.len() implies digit_pred(e, d)(#[trigger] f[i]) by {
                assert(digit_pred(e, d2 - 1)(f[i]));
            }
            lemma_filter_all_sat(f, digit_pred(e, d));
            assert(buckets_upto(s, e, d2).filter(digit_pred(e, d)) =~= s.filter(
                digit_pred(e, d),
            ));
        } else {
            assert forall|i: int| 0 <= i < f.len() implies !digit_pred(e, d)(#[trigger] f[i]) by {
                assert(digit_pred(e, d2 - 1)(f[i]));
            }
            lemma_filter_none_sat(f, digit_pred(e, d));
            if d < d2 - 1 {
                assert(buckets_upto(s, e, d2).filter(digit_pred(e, d)) =~= s.filter(
                    digit_pred(e, d),
                ));
            } else {
                assert(buckets_upto(s, e, d2).filter(digit_pred(e, d)) =~= Seq::<i32>::empty());
            }
        }
    }
}

/// Stability of the digit pass: for each digit, the subsequence of elements
/// carrying that digit is unchanged, in value and in relative order, by the
/// pass.  Elements that compare equal on the pass key therefore keep their
/// order, which makes the whole least-significant-digit sort stable.
pub proof fn lemma_digit_pass_stable(s: Seq<i32>, e: int, d: int)
    requires
        e >= 1,
        0 <= d < 10,
    ensures
        buckets_upto(s, e, 10).filter(digit_pred(e, d)) == s.filter(digit_pred(e, d)),
{
    lemma_buckets_filter(s, e, d, 10);
}

} // verus!
