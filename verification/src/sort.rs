//! The instrumented sorting algorithms.  Every algorithm receives the
//! sequence and an instrumentation sink, reports its comparisons, swaps and
//! mutations through the sink, and leaves the sequence in ascending order —
//! a permutation of what it was handed.

pub mod bubblesort;
pub mod cocktailsort;
pub mod countingsort;
pub mod gnomesort;
pub mod heapsort;
pub mod mergesort;
pub mod quicksort;
pub mod radix;
pub mod timsort;

pub use self::heapsort::heapsort;
pub use self::mergesort::mergesort;
pub use self::radix::radixsort;
pub use self::quicksort::quicksort;
pub use self::timsort::timsort;
