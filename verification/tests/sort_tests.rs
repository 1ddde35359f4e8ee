use sortviz::sink::CountingSink;
use sortviz::sink::RecordingSink;
use sortviz::sort::bubblesort::bubblesort;
use sortviz::sort::cocktailsort::cocktail_sort;
use sortviz::sort::countingsort::counting_sort;
use sortviz::sort::gnomesort::gnome_sort;
use sortviz::sort::heapsort;
use sortviz::sort::mergesort;
use sortviz::sort::quicksort;
use sortviz::sort::radixsort;
use sortviz::sort::timsort;

fn check_sorts_to(
    run: fn(&mut Vec<i32>, &mut CountingSink),
    input: Vec<i32>,
    expected: Vec<i32>,
) {
    let mut data = input;
    let mut sink = CountingSink::new();
    run(&mut data, &mut sink);
    assert_eq!(data, expected);
}

#[test]
fn test_quicksort_sorts() {
    check_sorts_to(quicksort, vec![5, 2, 4, 6, 3, 10, 7, 1], vec![1, 2, 3, 4, 5, 6, 7, 10]);
    check_sorts_to(quicksort, vec![], vec![]);
    check_sorts_to(quicksort, vec![1], vec![1]);
    check_sorts_to(quicksort, vec![2, 2, 2], vec![2, 2, 2]);
    check_sorts_to(quicksort, vec![-3, 7, -3, 0], vec![-3, -3, 0, 7]);
}

#[test]
fn test_mergesort_sorts() {
    check_sorts_to(mergesort, vec![5, 2, 4, 6, 3, 10, 7, 1], vec![1, 2, 3, 4, 5, 6, 7, 10]);
    check_sorts_to(mergesort, vec![9, 8, 7, 6, 5], vec![5, 6, 7, 8, 9]);
    check_sorts_to(mergesort, vec![], vec![]);
}

#[test]
fn test_heapsort_sorts() {
    check_sorts_to(heapsort, vec![5, 2, 4, 6, 3, 10, 7, 1], vec![1, 2, 3, 4, 5, 6, 7, 10]);
    check_sorts_to(heapsort, vec![1, 1, 1, 0], vec![0, 1, 1, 1]);
    check_sorts_to(heapsort, vec![-5, 3, -5], vec![-5, -5, 3]);
}

#[test]
fn test_radixsort_sorts() {
    check_sorts_to(radixsort, vec![170, 45, 75, 90, 802, 24, 2, 66], vec![
        2, 24, 45, 66, 75, 90, 170, 802,
    ]);
    check_sorts_to(radixsort, vec![0, 0, 1], vec![0, 0, 1]);
}

#[test]
fn test_timsort_sorts() {
    check_sorts_to(timsort, vec![5, 2, 4, 6, 3, 10, 7, 1], vec![1, 2, 3, 4, 5, 6, 7, 10]);
}

#[test]
fn test_bubble_cocktail_gnome_sort() {
    check_sorts_to(bubblesort, vec![4, 3, 2, 1], vec![1, 2, 3, 4]);
    check_sorts_to(cocktail_sort, vec![4, 3, 2, 1], vec![1, 2, 3, 4]);
    check_sorts_to(gnome_sort, vec![4, 3, 2, 1], vec![1, 2, 3, 4]);
    check_sorts_to(bubblesort, vec![1, 2, 3], vec![1, 2, 3]);
}

#[test]
fn test_counting_sort() {
    let mut data = vec![3, 0, 2, 3, 1];
    let mut sink = CountingSink::new();
    counting_sort(&mut data, 3, &mut sink);
    assert_eq!(data, vec![0, 1, 2, 3, 3]);
    assert_eq!(sink.compares, 0);
    assert_eq!(sink.swaps, 0);
}

#[test]
fn test_counting_sink_deterministic() {
    // two runs over the same input report identical counters
    let input = vec![5, 2, 4, 6, 3, 10, 7, 1];
    let mut a = input.clone();
    let mut b = input.clone();
    let mut sink_a = CountingSink::new();
    let mut sink_b = CountingSink::new();
    quicksort(&mut a, &mut sink_a);
    quicksort(&mut b, &mut sink_b);
    assert_eq!(sink_a.compares, sink_b.compares);
    assert_eq!(sink_a.swaps, sink_b.swaps);
}

#[test]
fn test_radix_counts_pinned() {
    // radix compares exactly len - 1 times (the scan for the maximum) and
    // never swaps
    let mut data = vec![170, 45, 75, 90];
    let mut sink = CountingSink::new();
    radixsort(&mut data, &mut sink);
    assert_eq!(sink.compares, 3);
    assert_eq!(sink.swaps, 0);
}

#[test]
fn test_recording_sink_steps() {
    let mut data = vec![3, 1, 2];
    let mut sink = RecordingSink::new();
    bubblesort(&mut data, &mut sink);
    assert_eq!(data, vec![1, 2, 3]);
    assert!(sink.steps.len() >= 1);
    // every recorded step carries valid touched indices
    for step in sink.steps.iter() {
        for &t in step.touched.iter() {
            assert!(t < step.data.len());
        }
    }
    // the last recorded snapshot is the sorted array
    assert_eq!(sink.steps.last().unwrap().data, vec![1, 2, 3]);
}

#[test]
fn test_trivial_input_reports_nothing() {
    // a sequence of length zero or one: no comparisons, no mutation reports
    let mut data = vec![7];
    let mut sink = RecordingSink::new();
    quicksort(&mut data, &mut sink);
    heapsort(&mut data, &mut sink);
    mergesort(&mut data, &mut sink);
    timsort(&mut data, &mut sink);
    radixsort(&mut data, &mut sink);
    assert_eq!(sink.compares, 0);
    assert_eq!(sink.swaps, 0);
    assert_eq!(sink.steps.len(), 0);
}

#[test]
fn test_timsort_reports_once() {
    // the fallback sort reports exactly one mutation, covering the array
    let mut data = vec![3, 1, 2];
    let mut sink = RecordingSink::new();
    timsort(&mut data, &mut sink);
    assert_eq!(sink.steps.len(), 1);
    assert_eq!(sink.steps[0].data, vec![1, 2, 3]);
    assert_eq!(sink.steps[0].touched, vec![0, 1, 2]);
}

#[test]
fn test_radix_reports_one_per_pass() {
    // two digit passes for a two-digit maximum, each covering the array
    let mut data = vec![15, 3, 20];
    let mut sink = RecordingSink::new();
    radixsort(&mut data, &mut sink);
    assert_eq!(sink.steps.len(), 2);
    for step in sink.steps.iter() {
        assert_eq!(step.touched, vec![0, 1, 2]);
    }
    // all zeroes: no pass runs, so nothing is reported
    let mut zeros = vec![0, 0, 0];
    let mut sink2 = RecordingSink::new();
    radixsort(&mut zeros, &mut sink2);
    assert_eq!(sink2.steps.len(), 0);
}

#[test]
fn test_swap_reports_are_pairs() {
    // bubble sort reports the swapped pair at every exchange
    let mut data = vec![3, 2, 1];
    let mut sink = RecordingSink::new();
    bubblesort(&mut data, &mut sink);
    assert!(sink.steps.len() >= 1);
    for step in sink.steps.iter() {
        assert_eq!(step.touched.len(), 2);
    }
}

#[test]
fn test_stable_duplicates_sorted() {
    // tagged duplicates: equal tens digits, distinct units
    let mut data = vec![23, 13, 21, 11];
    let mut sink = CountingSink::new();
    mergesort(&mut data, &mut sink);
    assert_eq!(data, vec![11, 13, 21, 23]);
    let mut data2 = vec![23, 13, 21, 11];
    let mut sink2 = CountingSink::new();
    radixsort(&mut data2, &mut sink2);
    assert_eq!(data2, vec![11, 13, 21, 23]);
}
