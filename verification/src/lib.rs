//! An interactive sorting visualizer core: instrumented sorting algorithms
//! that report every comparison and mutation through a sink, renderers that
//! turn recorded steps into terminal frames, a comparison harness, and a
//! command parser for the surrounding read-eval loop.

pub mod clock;
pub mod controller;
pub mod harness;
pub mod numfmt;
pub mod parser;
pub mod render;
pub mod rng;
pub mod seqlib;
pub mod sink;
pub mod sort;
pub mod utils;

use vstd::prelude::*;

verus! {

/// True when the sequence is in ascending order.
pub open spec fn sorted(s: Seq<i32>) -> bool {
    forall|i: int, j: int| 0 <= i < j < s.len() ==> s[i] <= s[j]
}

/// Checks whether a vector is sorted in ascending order.
pub fn is_sorted(data: &Vec<i32>) -> (r: bool)
    ensures
        r == sorted(data@),
{
    let mut k: usize = 1;
    while k < data.len()
        invariant
            1 <= k,
            k <= data.len() || data.len() == 0,
            forall|i: int, j: int| 0 <= i < j < k && j < data@.len() ==> data@[i] <= data@[j],
        decreases data.len() - k,
    {
        if data[k - 1] > data[k] {
            return false;
        }
        k += 1;
    }
    true
}

} // verus!
