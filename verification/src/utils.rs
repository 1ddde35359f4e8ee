//! Small helpers over integer vectors: markers for the renderers, range
//! extraction, min/max, uniqueness, and the text form of a number list read
//! from a file.

use vstd::prelude::*;

verus! {

/// Exchanges two elements of a vector.
pub fn swap_elems(data: &mut Vec<i32>, i: usize, j: usize)
    requires
        i < old(data)@.len(),
        j < old(data)@.len(),
    ensures
        final(data)@ == old(data)@.update(i as int, old(data)@[j as int]).update(
            j as int,
            old(data)@[i as int],
        ),
        final(data)@.to_multiset() == old(data)@.to_multiset(),
        final(data)@.len() == old(data)@.len(),
{
    let a = data[i];
    let b = data[j];
    data[i] = b;
    data[j] = a;
    proof {
        broadcast use vstd::seq_lib::to_multiset_update;
        broadcast use vstd::seq_lib::to_multiset_contains;
        broadcast use vstd::multiset::group_multiset_axioms;
        broadcast use vstd::multiset::group_multiset_properties;

        let s = old(data)@;
        if i == j {
            assert(final(data)@ =~= s.update(i as int, s[j as int]).update(
                j as int,
                s[i as int],
            ));
        }
        assert(s.contains(s[i as int]));
        assert(s.contains(s[j as int]));
        assert(final(data)@.to_multiset() =~= s.to_multiset());
    }
}

/// Builds the marker row for a step: one flag per position, true exactly for
/// the touched indices that are inside the sequence.
pub fn create_markers(len: usize, active_indices: &Vec<usize>) -> (r: Vec<bool>)
    ensures
        r@.len() == len,
        forall|k: int|
            0 <= k < len ==> (r@[k] <==> active_indices@.contains(k as usize)),
{
    let mut markers: Vec<bool> = Vec::new();
    let mut p: usize = 0;
    while p < len
        invariant
            markers@.len() == p,
            p <= len,
            forall|k: int| 0 <= k < p ==> !markers@[k],
        decreases len - p,
    {
        markers.push(false);
        p += 1;
    }
    let mut t: usize = 0;
    while t < active_indices.len()
        invariant
            markers@.len() == len,
            t <= active_indices@.len(),
            forall|k: int|
                0 <= k < len ==> (markers@[k] <==> exists|m: int|
                    0 <= m < t && active_indices@[m] == k),
        decreases active_indices.len() - t,
    {
        let index = active_indices[t];
        if index < len {
            markers[index] = true;
        }
        t += 1;
    }
    proof {
        assert forall|k: int| 0 <= k < len implies (markers@[k] <==> active_indices@.contains(
            k as usize,
        )) by {
            if markers@[k] {
                let m = choose|m: int|
                    0 <= m < active_indices@.len() && active_indices@[m] == k;
                assert(active_indices@.contains(k as usize));
            }
        }
    }
    markers
}

/// The copy after the modification pairs are applied in order: a position
/// named by a pair takes that pair's value (the last such pair wins), an
/// out-of-range position is ignored, every other position keeps its value.
pub open spec fn apply_mods(data: Seq<i32>, mods: Seq<(usize, i32)>) -> Seq<i32>
    decreases mods.len(),
{
    if mods.len() == 0 {
        data
    } else {
        let prev = apply_mods(data, mods.drop_last());
        let last = mods.last();
        if last.0 < data.len() {
            prev.update(last.0 as int, last.1)
        } else {
            prev
        }
    }
}

/// Copies a vector, then overwrites the listed positions; an out-of-range
/// position is ignored, and a position named twice takes the later value.
pub fn clone_with_modifications(data: &Vec<i32>, modifications: &Vec<(usize, i32)>) -> (r: Vec<
    i32,
>)
    ensures
        r@ == apply_mods(data@, modifications@),
        r@.len() == data@.len(),
{
    let mut result: Vec<i32> = Vec::new();
    let mut p: usize = 0;
    while p < data.len()
        invariant
            result@ == data@.take(p as int),
            p <= data@.len(),
        decreases data.len() - p,
    {
        result.push(data[p]);
        p += 1;
    }
    proof {
        assert(result@ =~= data@);
        assert(modifications@.take(0) =~= Seq::<(usize, i32)>::empty());
        assert(result@ == apply_mods(data@, modifications@.take(0)));
    }
    let mut t: usize = 0;
    while t < modifications.len()
        invariant
            result@.len() == data@.len(),
            t <= modifications@.len(),
            result@ == apply_mods(data@, modifications@.take(t as int)),
        decreases modifications.len() - t,
    {
        let (index, value) = modifications[t];
        if index < result.len() {
            result[index] = value;
        }
        t += 1;
        proof {
            let mt = modifications@.take(t as int);
            assert(mt.drop_last() =~= modifications@.take(t - 1));
            assert(mt.last() == modifications@[t - 1]);
            assert(result@ == apply_mods(data@, mt));
        }
    }
    proof {
        assert(modifications@.take(modifications@.len() as int) =~= modifications@);
        lemma_apply_mods_len(data@, modifications@);
    }
    result
}

/// Applying modifications never changes the length.
proof fn lemma_apply_mods_len(data: Seq<i32>, mods: Seq<(usize, i32)>)
    ensures
        apply_mods(data, mods).len() == data.len(),
    decreases mods.len(),
{
    if mods.len() > 0 {
        lemma_apply_mods_len(data, mods.drop_last());
    }
}

/// Finds the least and the greatest element; an empty vector gives (0, 0).
pub fn find_min_max(data: &Vec<i32>) -> (r: (i32, i32))
    ensures
        data@.len() == 0 ==> r == (0i32, 0i32),
        data@.len() > 0 ==> data@.contains(r.0) && data@.contains(r.1),
        forall|k: int| 0 <= k < data@.len() ==> r.0 <= #[trigger] data@[k] && data@[k] <= r.1,
{
    if data.len() == 0 {
        return (0, 0);
    }
    let mut min = data[0];
    let mut max = data[0];
    let mut k: usize = 1;
    while k < data.len()
        invariant
            1 <= k <= data@.len(),
            data@.contains(min),
            data@.contains(max),
            forall|m: int| 0 <= m < k ==> min <= #[trigger] data@[m] && data@[m] <= max,
        decreases data.len() - k,
    {
        let value = data[k];
        if value < min {
            min = value;
        }
        if value > max {
            max = value;
        }
        k += 1;
    }
    (min, max)
}

/// True when no value occurs twice.
pub fn has_unique_elements(data: &Vec<i32>) -> (r: bool)
    ensures
        r == data@.no_duplicates(),
{
    let mut i: usize = 0;
    while i < data.len()
        invariant
            i <= data@.len(),
            forall|a: int, b: int| 0 <= a < b < i ==> data@[a] != data@[b],
        decreases data.len() - i,
    {
        let mut j: usize = 0;
        while j < i
            invariant
                j <= i < data@.len(),
                forall|b: int| 0 <= b < j ==> data@[b] != data@[i as int],
            decreases i - j,
        {
            if data[j] == data[i] {
                return false;
            }
            j += 1;
        }
        i += 1;
    }
    true
}

/// The elements of the half-open range `[start, end)`, or an empty vector
/// when the range is empty or reaches outside the data.
pub fn get_subvector(data: &Vec<i32>, start: usize, end: usize) -> (r: Vec<i32>)
    ensures
        start < data@.len() && end <= data@.len() && start < end ==> r@ == data@.subrange(
            start as int,
            end as int,
        ),
        !(start < data@.len() && end <= data@.len() && start < end) ==> r@.len() == 0,
{
    if start >= data.len() || end > data.len() || start >= end {
        return Vec::new();
    }
    let mut result: Vec<i32> = Vec::new();
    let mut k: usize = start;
    while k < end
        invariant
            start <= k <= end <= data@.len(),
            result@ == data@.subrange(start as int, k as int),
        decreases end - k,
    {
        result.push(data[k]);
        k += 1;
        proof {
            assert(result@ =~= data@.subrange(start as int, k as int));
        }
    }
    result
}

/// Shuffles the vector in place with index-for-index exchanges, so it stays
/// a permutation of itself.
pub fn shuffle_array(data: &mut Vec<i32>)
    ensures
        final(data)@.to_multiset() == old(data)@.to_multiset(),
        final(data)@.len() == old(data)@.len(),
{
    let mut k: usize = data.len();
    while k > 1
        invariant
            k <= data@.len(),
            data@.len() == old(data)@.len(),
            data@.to_multiset() == old(data)@.to_multiset(),
        decreases k,
    {
        let j = crate::rng::random_index(k);
        swap_elems(data, j, k - 1);
        k -= 1;
    }
}

/// Generates a random list.  Without `no_repeats` it draws `count` values
/// from `[min, max]`.  With `no_repeats` it shuffles the whole range and
/// keeps the first `count` values, so they are distinct; when more values
/// are requested than the range holds, the whole range comes first, in
/// order, and the rest are random draws, so the requested count is still
/// honoured.
pub fn generate_random_list(count: Option<usize>, min: i32, max: i32, no_repeats: bool) -> (r:
    Vec<i32>)
    requires
        min < max,
        max as int - min as int + 1 <= usize::MAX,
    ensures
        r@.len() == (match count {
            Some(c) => c as int,
            None => max as int - min as int + 1,
        }),
        forall|k: int| 0 <= k < r@.len() ==> min <= #[trigger] r@[k] <= max,
        (no_repeats && (match count {
            Some(c) => c as int <= max as int - min as int + 1,
            None => true,
        })) ==> r@.no_duplicates(),
        (no_repeats && (match count {
            Some(c) => c as int > max as int - min as int + 1,
            None => false,
        })) ==> forall|k: int|
            0 <= k < max as int - min as int + 1 ==> #[trigger] r@[k] == min + k,
{
    let range_size = (max as i64 - min as i64 + 1) as usize;
    let count = match count {
        Some(c) => c,
        None => range_size,
    };

    if !no_repeats {
        let mut result: Vec<i32> = Vec::new();
        let mut k: usize = 0;
        while k < count
            invariant
                min < max,
                k <= count,
                result@.len() == k,
                forall|m: int| 0 <= m < k ==> min <= #[trigger] result@[m] <= max,
            decreases count - k,
        {
            result.push(crate::rng::random_in_range(min, max));
            k += 1;
        }
        return result;
    }

    // Distinct values: shuffle the whole range and keep a prefix.
    let mut pool: Vec<i32> = Vec::new();
    let mut v = min;
    let mut taken: usize = 0;
    while taken < range_size
        invariant
            min < max,
            range_size == max as int - min as int + 1,
            taken <= range_size,
            taken < range_size ==> v as int == min + taken,
            pool@.len() == taken,
            forall|m: int| 0 <= m < taken ==> #[trigger] pool@[m] == min + m,
        decreases range_size - taken,
    {
        pool.push(v);
        taken += 1;
        if taken < range_size {
            v = v + 1;
        }
    }
    let ghost pool0 = pool@;
    proof {
        assert forall|a: int, b: int| 0 <= a < b < pool0.len() implies pool0[a] != pool0[b] by {}
    }
    if count <= range_size {
        // enough room: shuffle the whole range and keep a prefix
        shuffle_array(&mut pool);
    }
    proof {
        crate::seqlib::lemma_permutation_no_duplicates(pool0, pool@);
        crate::seqlib::lemma_multiset_bounds_transfer(pool0, pool@, |x: i32| min <= x <= max);
        assert forall|m: int| 0 <= m < pool@.len() implies min <= #[trigger] pool@[m] <= max by {
            assert((|x: i32| min <= x <= max)(pool@[m]));
        }
    }

    let mut result: Vec<i32> = Vec::new();
    let take_n = if count < range_size {
        count
    } else {
        range_size
    };
    let mut k: usize = 0;
    while k < take_n
        invariant
            take_n <= pool@.len(),
            k <= take_n,
            result@ == pool@.take(k as int),
            forall|m: int| 0 <= m < pool@.len() ==> min <= #[trigger] pool@[m] <= max,
        decreases take_n - k,
    {
        result.push(pool[k]);
        k += 1;
        proof {
            assert(result@ =~= pool@.take(k as int));
        }
    }
    // More values requested than the range holds: the whole range stands in
    // order, and random draws pad up to the count.
    while result.len() < count
        invariant
            min < max,
            count <= range_size ==> take_n == count,
            count > range_size ==> take_n == range_size && pool@ == pool0,
            take_n <= result@.len() <= count,
            forall|m: int| 0 <= m < result@.len() ==> min <= #[trigger] result@[m] <= max,
            result@.take(take_n as int) == pool@.take(take_n as int),
            count <= range_size ==> result@ == pool@.take(take_n as int),
            pool@.no_duplicates(),
            forall|m: int| 0 <= m < pool0.len() ==> #[trigger] pool0[m] == min + m,
        decreases count - result.len(),
    {
        result.push(crate::rng::random_in_range(min, max));
        proof {
            assert(result@.take(take_n as int) =~= result@.drop_last().take(take_n as int));
        }
    }
    proof {
        if count <= range_size {
            crate::seqlib::lemma_no_dup_prefix(pool@, take_n as int);
        }
        if count > range_size {
            assert forall|m: int| 0 <= m < range_size implies #[trigger] result@[m] == min
                + m by {
                assert(result@.take(take_n as int)[m] == result@[m]);
                assert(pool@.take(take_n as int)[m] == pool0[m]);
            }
        }
    }
    result
}

/// Splits whitespace- or comma-delimited text into integers; `None` when
/// any non-empty token is not a well-formed integer, so a bad file leaves
/// the caller's state untouched.
pub fn parse_number_list(text: &str) -> (r: Option<Vec<i32>>)
    ensures
        (match r {
            Some(v) => {
                let toks = crate::parser::tokens_of(text@, true);
                &&& v@.len() == toks.len()
                &&& forall|i: int|
                    0 <= i < toks.len() ==> crate::numfmt::valid_int_literal(#[trigger] toks[i])
                        && v@[i] as int == crate::numfmt::int_literal_value(toks[i])
            },
            None => exists|i: int|
                0 <= i < crate::parser::tokens_of(text@, true).len()
                    && !crate::numfmt::valid_int_literal(
                    #[trigger] crate::parser::tokens_of(text@, true)[i],
                ),
        }),
{
    let toks = crate::parser::tokenize(text, true);
    let ghost tseq = crate::parser::tokens_of(text@, true);
    let mut result: Vec<i32> = Vec::new();
    let mut k: usize = 0;
    while k < toks.len()
        invariant
            tseq == crate::parser::tokens_of(text@, true),
            toks@.map_values(|t: String| t@) == tseq,
            k <= toks@.len(),
            result@.len() == k,
            forall|i: int|
                0 <= i < k ==> crate::numfmt::valid_int_literal(#[trigger] tseq[i])
                    && result@[i] as int == crate::numfmt::int_literal_value(tseq[i]),
        decreases toks.len() - k,
    {
        proof {
            assert(toks@.map_values(|t: String| t@)[k as int] == toks@[k as int]@);
        }
        match crate::numfmt::parse_i32(toks[k].as_str()) {
            Some(v) => {
                result.push(v);
            },
            None => {
                proof {
                    assert(!crate::numfmt::valid_int_literal(tseq[k as int]));
                }
                return None;
            },
        }
        k += 1;
    }
    Some(result)
}

/// Appends the right vector to the left one.
pub fn merge_vectors(left: Vec<i32>, right: Vec<i32>) -> (r: Vec<i32>)
    ensures
        r@ == left@ + right@,
{
    let ghost l = left@;
    let mut result = left;
    let mut rest = right;
    let mut k: usize = 0;
    proof {
        assert(result@ =~= l + rest@.take(0));
    }
    while k < rest.len()
        invariant
            k <= rest@.len(),
            result@ == l + rest@.take(k as int),
        decreases rest.len() - k,
    {
        result.push(rest[k]);
        k += 1;
        proof {
            assert(result@ =~= l + rest@.take(k as int));
        }
    }
    proof {
        assert(result@ =~= l + rest@);
    }
    result
}

} // verus!
