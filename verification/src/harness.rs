//! The comparison harness: runs two algorithms on independent copies of the
//! same input through counting sinks, and reports a side-by-side table with
//! a verdict naming the strictly faster one.

use vstd::prelude::*;
use crate::numfmt::dec_digits;
use crate::numfmt::push_char;
use crate::numfmt::u64_to_string;
use crate::render::repeat_char;
use crate::sink::CountingSink;
use crate::sorted;

verus! {

/// The algorithm names the sort and compare commands accept.
pub open spec fn known_algorithm(name: Seq<char>) -> bool {
    ||| name == "quicksort"@
    ||| name == "mergesort"@
    ||| name == "timsort"@
    ||| name == "radix"@
    ||| name == "heapsort"@
    ||| name == "bubblesort"@
    ||| name == "cocktailsort"@
    ||| name == "gnomesort"@
}

/// True exactly for the supported algorithm names.
pub fn is_known_algorithm(name: &str) -> (r: bool)
    ensures
        r == known_algorithm(name@),
{
    crate::parser::str_eq(name, "quicksort") || crate::parser::str_eq(name, "mergesort")
        || crate::parser::str_eq(name, "timsort") || crate::parser::str_eq(name, "radix")
        || crate::parser::str_eq(name, "heapsort") || crate::parser::str_eq(name, "bubblesort")
        || crate::parser::str_eq(name, "cocktailsort") || crate::parser::str_eq(name, "gnomesort")
}

/// Runs the named algorithm over the data with the given sink.  Fails
/// exactly on an unknown name, and on radix sort over negative values —
/// its precondition.
pub fn run_named<S: crate::sink::Sink>(name: &str, data: &mut Vec<i32>, sink: &mut S) -> (r:
    Result<(), ()>)
    ensures
        known_algorithm(name@) && (name@ == "radix"@ ==> crate::sort::radix::all_nonneg(
            old(data)@,
        )) ==> r is Ok,
        !known_algorithm(name@) ==> r is Err,
        name@ == "radix"@ && !crate::sort::radix::all_nonneg(old(data)@) ==> r is Err,
        r is Ok ==> final(data)@.to_multiset() == old(data)@.to_multiset() && sorted(final(data)@)
            && final(data)@.len() == old(data)@.len(),
        r is Err ==> final(data)@ == old(data)@,
        final(sink).compares() >= old(sink).compares(),
        final(sink).swaps() >= old(sink).swaps(),
        name@ == "radix"@ && r is Ok ==> final(sink).swaps() == old(sink).swaps(),
        name@ == "radix"@ && r is Ok ==> final(sink).compares() == (if old(data)@.len() == 0 {
            old(sink).compares()
        } else {
            crate::sort::radix::sat_add(old(sink).compares(), (old(data)@.len() - 1) as nat)
        }),
{
    proof {
        reveal_strlit("quicksort");
        reveal_strlit("mergesort");
        reveal_strlit("timsort");
        reveal_strlit("radix");
        reveal_strlit("heapsort");
        reveal_strlit("bubblesort");
        reveal_strlit("cocktailsort");
        reveal_strlit("gnomesort");
        assert("quicksort"@.len() == 9);
        assert("mergesort"@.len() == 9);
        assert("timsort"@.len() == 7);
        assert("radix"@.len() == 5);
        assert("quicksort"@ != "radix"@ && "mergesort"@ != "radix"@ && "timsort"@ != "radix"@);
    }
    if crate::parser::str_eq(name, "quicksort") {
        crate::sort::quicksort::quicksort(data, sink);
        Ok(())
    } else if crate::parser::str_eq(name, "mergesort") {
        crate::sort::mergesort::mergesort(data, sink);
        Ok(())
    } else if crate::parser::str_eq(name, "timsort") {
        crate::sort::timsort::timsort(data, sink);
        Ok(())
    } else if crate::parser::str_eq(name, "radix") {
        let (mn, _) = crate::utils::find_min_max(data);
        if data.len() > 0 && mn < 0 {
            proof {
                assert(data@.contains(mn));
                let u = choose|u: int| 0 <= u < data@.len() && data@[u] == mn;
                assert(!crate::sort::radix::all_nonneg(data@));
            }
            return Err(());
        }
        proof {
            assert(crate::sort::radix::all_nonneg(data@));
        }
        crate::sort::radix::radixsort(data, sink);
        Ok(())
    } else if crate::parser::str_eq(name, "heapsort") {
        crate::sort::heapsort::heapsort(data, sink);
        Ok(())
    } else if crate::parser::str_eq(name, "bubblesort") {
        crate::sort::bubblesort::bubblesort(data, sink);
        Ok(())
    } else if crate::parser::str_eq(name, "cocktailsort") {
        crate::sort::cocktailsort::cocktail_sort(data, sink);
        Ok(())
    } else if crate::parser::str_eq(name, "gnomesort") {
        crate::sort::gnomesort::gnome_sort(data, sink);
        Ok(())
    } else {
        Err(())
    }
}

/// One measured run: elapsed wall-clock milliseconds, comparisons, swaps.
/// Succeeds exactly when the named run succeeds; the sorted result is
/// dropped, as only the measurements matter here.
pub fn test_sort_performance(name: &str, data: Vec<i32>) -> (r: Result<(u64, u64, u64), ()>)
    ensures
        known_algorithm(name@) && (name@ == "radix"@ ==> crate::sort::radix::all_nonneg(data@))
            ==> r is Ok,
        !known_algorithm(name@) ==> r is Err,
        name@ == "radix"@ && !crate::sort::radix::all_nonneg(data@) ==> r is Err,
        (match r {
            Ok(t) => name@ == "radix"@ ==> t.2 == 0 && t.1 == (if data@.len() == 0 {
                0u64
            } else {
                crate::sort::radix::sat_add(0, (data@.len() - 1) as nat)
            }),
            Err(()) => true,
        }),
{
    let started = crate::clock::now();
    let mut work = data;
    let mut sink = CountingSink::new();
    match run_named(name, &mut work, &mut sink) {
        Ok(()) => {
            let elapsed = crate::clock::elapsed_millis(&started);
            Ok((elapsed, sink.compares, sink.swaps))
        },
        Err(()) => Err(()),
    }
}

/// Pads text with spaces up to the width; longer text stays as it is.
pub open spec fn padded(s: Seq<char>, w: int) -> Seq<char> {
    if s.len() < w {
        s + repeat_char(' ', w - s.len())
    } else {
        s
    }
}

fn pad_to(s: String, w: usize) -> (r: String)
    ensures
        r@ == padded(s@, w as int),
{
    let mut out = s;
    let ghost base = out@;
    while out.unicode_len() < w
        invariant
            base.len() < w ==> out@ == base + repeat_char(' ', out@.len() - base.len()),
            base.len() < w ==> out@.len() <= w,
            base.len() >= w ==> out@ == base,
            out@.len() >= base.len(),
        decreases w - out@.len(),
    {
        push_char(&mut out, ' ');
        proof {
            assert(out@ =~= base + repeat_char(' ', out@.len() - base.len()));
        }
    }
    proof {
        if base.len() < w {
            assert(out@ =~= padded(base, w as int));
        }
    }
    out
}

/// One table row: name, time, comparisons, swaps in fixed columns.
pub open spec fn table_row(name: Seq<char>, t: int, c: int, s: int) -> Seq<char> {
    padded(name, 15) + padded(dec_digits(t) + "ms"@, 12) + padded(dec_digits(c), 10) + dec_digits(
        s,
    )
}

/// Names the strictly faster algorithm, or declares a tie.
pub open spec fn verdict_line(n1: Seq<char>, t1: int, n2: Seq<char>, t2: int) -> Seq<char> {
    if t1 < t2 {
        n1 + " faster by "@ + dec_digits(t2 - t1) + "ms"@
    } else if t2 < t1 {
        n2 + " faster by "@ + dec_digits(t1 - t2) + "ms"@
    } else {
        "tie"@
    }
}

fn build_row(name: &str, t: u64, c: u64, s: u64) -> (r: String)
    ensures
        r@ == table_row(name@, t as int, c as int, s as int),
{
    let mut time_text = u64_to_string(t);
    time_text.append("ms");
    let mut out = pad_to(name.to_owned(), 15);
    let p1 = pad_to(time_text, 12);
    out.append(p1.as_str());
    let p2 = pad_to(u64_to_string(c), 10);
    out.append(p2.as_str());
    let p3 = u64_to_string(s);
    out.append(p3.as_str());
    out
}

fn build_verdict(n1: &str, t1: u64, n2: &str, t2: u64) -> (r: String)
    ensures
        r@ == verdict_line(n1@, t1 as int, n2@, t2 as int),
{
    if t1 < t2 {
        let mut out = n1.to_owned();
        out.append(" faster by ");
        let d = u64_to_string(t2 - t1);
        out.append(d.as_str());
        out.append("ms");
        out
    } else if t2 < t1 {
        let mut out = n2.to_owned();
        out.append(" faster by ");
        let d = u64_to_string(t1 - t2);
        out.append(d.as_str());
        out.append("ms");
        out
    } else {
        String::from_str("tie")
    }
}

/// The full report: separators, a header, one row per algorithm, and the
/// verdict as the last line.
pub open spec fn compare_table(
    n1: Seq<char>,
    t1: int,
    c1: int,
    s1: int,
    n2: Seq<char>,
    t2: int,
    c2: int,
    s2: int,
) -> Seq<Seq<char>> {
    seq![
        repeat_char('=', 50),
        padded("Algorithm"@, 15) + padded("Time"@, 12) + padded("Compares"@, 10) + "Swaps"@,
        repeat_char('-', 50),
        table_row(n1, t1, c1, s1),
        table_row(n2, t2, c2, s2),
        repeat_char('=', 50),
        verdict_line(n1, t1, n2, t2),
    ]
}

/// The report's lines, for some non-negative times and counters.
pub open spec fn compare_report_shape(n1: Seq<char>, n2: Seq<char>, lines: Seq<Seq<char>>) -> bool {
    exists|t1: int, t2: int, c1: int, c2: int, s1: int, s2: int|
        0 <= t1 && 0 <= t2 && 0 <= c1 && 0 <= c2 && 0 <= s1 && 0 <= s2 && lines
            == #[trigger] compare_table(n1, t1, c1, s1, n2, t2, c2, s2)
}

/// Runs both algorithms on independent copies of the input and renders the
/// report.  An unknown name and a radix precondition failure abort before
/// any run starts; the times come from the wall clock, so only their place
/// in the report is pinned.
pub fn compare_sorts(name1: &str, name2: &str, data: &Vec<i32>) -> (r: Result<Vec<String>, ()>)
    ensures
        r is Ok <==> known_algorithm(name1@) && known_algorithm(name2@) && ((name1@ == "radix"@
            || name2@ == "radix"@) ==> crate::sort::radix::all_nonneg(data@)),
        (match r {
            Ok(lines) => compare_report_shape(name1@, name2@, lines@.map_values(|l: String| l@)),
            Err(()) => true,
        }),
{
    broadcast use vstd::seq::Seq::lemma_push_map_commute;

    if !is_known_algorithm(name1) || !is_known_algorithm(name2) {
        return Err(());
    }
    if crate::parser::str_eq(name1, "radix") || crate::parser::str_eq(name2, "radix") {
        let (mn, _) = crate::utils::find_min_max(data);
        if data.len() > 0 && mn < 0 {
            proof {
                assert(data@.contains(mn));
                let u = choose|u: int| 0 <= u < data@.len() && data@[u] == mn;
                assert(!crate::sort::radix::all_nonneg(data@));
            }
            return Err(());
        }
        proof {
            assert(crate::sort::radix::all_nonneg(data@));
        }
    }
    let copy1 = crate::utils::get_subvector(data, 0, data.len());
    let copy2 = crate::utils::get_subvector(data, 0, data.len());
    proof {
        if data@.len() > 0 {
            assert(copy1@ == data@.subrange(0, data@.len() as int));
            assert(data@.subrange(0, data@.len() as int) =~= data@);
        } else {
            assert(copy1@ =~= data@);
            assert(copy2@ =~= data@);
        }
    }
    let r1 = test_sort_performance(name1, copy1);
    let r2 = test_sort_performance(name2, copy2);
    let (t1, c1, s1) = match r1 {
        Ok(v) => v,
        Err(()) => {
            proof {
                assert(false);
            }
            return Err(());
        },
    };
    let (t2, c2, s2) = match r2 {
        Ok(v) => v,
        Err(()) => {
            proof {
                assert(false);
            }
            return Err(());
        },
    };

    let mut lines: Vec<String> = Vec::new();
    lines.push(build_eq_sep());
    let mut header = pad_to(String::from_str("Algorithm"), 15);
    let h1 = pad_to(String::from_str("Time"), 12);
    header.append(h1.as_str());
    let h2 = pad_to(String::from_str("Compares"), 10);
    header.append(h2.as_str());
    header.append("Swaps");
    lines.push(header);
    let mut dash = String::new();
    let mut k: usize = 0;
    while k < 50
        invariant
            k <= 50,
            dash@ == repeat_char('-', k as int),
        decreases 50 - k,
    {
        push_char(&mut dash, '-');
        k += 1;
        proof {
            assert(dash@ =~= repeat_char('-', k as int));
        }
    }
    lines.push(dash);
    lines.push(build_row(name1, t1, c1, s1));
    lines.push(build_row(name2, t2, c2, s2));
    lines.push(build_eq_sep());
    lines.push(build_verdict(name1, t1, name2, t2));
    proof {
        assert(lines@.map_values(|l: String| l@) =~= compare_table(
            name1@,
            t1 as int,
            c1 as int,
            s1 as int,
            name2@,
            t2 as int,
            c2 as int,
            s2 as int,
        ));
    }
    Ok(lines)
}

fn build_eq_sep() -> (r: String)
    ensures
        r@ == repeat_char('=', 50),
{
    let mut out = String::new();
    let mut k: usize = 0;
    while k < 50
        invariant
            k <= 50,
            out@ == repeat_char('=', k as int),
        decreases 50 - k,
    {
        push_char(&mut out, '=');
        k += 1;
        proof {
            assert(out@ =~= repeat_char('=', k as int));
        }
    }
    out
}

} // verus!
