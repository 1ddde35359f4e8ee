//! The instrumentation sink: the capability every sorting algorithm reports
//! its comparisons and mutations through.  Two implementations exist: a
//! counting sink that only increments counters, and a recording sink that
//! keeps every mutation step so a renderer can replay the run.

use vstd::prelude::*;

verus! {

/// Saturating increment, so counters can never wrap around.
pub open spec fn inc_sat(c: u64) -> u64 {
    if c == u64::MAX {
        c
    } else {
        (c + 1) as u64
    }
}

/// One mutation report, as the contracts see it: the snapshot handed over
/// and the touched indices.
pub type Report = (Seq<i32>, Seq<usize>);

/// The indices `0 .. n`, the touched set of a whole-array report.
pub open spec fn full_range_indices(n: int) -> Seq<usize> {
    Seq::new(n as nat, |i: int| i as usize)
}

/// The indices `lo .. hi`, the touched set of a whole-range report.
pub open spec fn range_indices(lo: int, hi: int) -> Seq<usize> {
    Seq::new((hi - lo) as nat, |i: int| (lo + i) as usize)
}

/// The new report list keeps every old report in place and only appends.
pub open spec fn reports_extended(m0: Seq<Report>, m1: Seq<Report>) -> bool {
    m1.len() >= m0.len() && m1.take(m0.len() as int) == m0
}

/// Every appended report touches exactly one pair of indices: the shape of
/// a swap report.
pub open spec fn new_reports_are_pairs(m0: Seq<Report>, m1: Seq<Report>) -> bool {
    reports_extended(m0, m1) && forall|k: int|
        m0.len() <= k < m1.len() ==> (#[trigger] m1[k]).1.len() == 2
}

/// Every appended report touches a swapped pair or the single pivot index.
pub open spec fn new_reports_are_pairs_or_pivot(m0: Seq<Report>, m1: Seq<Report>) -> bool {
    reports_extended(m0, m1) && forall|k: int|
        m0.len() <= k < m1.len() ==> (#[trigger] m1[k]).1.len() == 2 || m1[k].1.len() == 1
}

/// Every appended report touches exactly one index: the shape of a single
/// element write.
pub open spec fn new_reports_are_singles(m0: Seq<Report>, m1: Seq<Report>) -> bool {
    reports_extended(m0, m1) && forall|k: int|
        m0.len() <= k < m1.len() ==> (#[trigger] m1[k]).1.len() == 1
}

/// Every appended report covers the whole array of length `n`.
pub open spec fn new_reports_are_whole(m0: Seq<Report>, m1: Seq<Report>, n: int) -> bool {
    reports_extended(m0, m1) && forall|k: int|
        m0.len() <= k < m1.len() ==> (#[trigger] m1[k]).1 == full_range_indices(n)
}

pub proof fn lemma_reports_push(m0: Seq<Report>, m1: Seq<Report>, e: Report)
    requires
        reports_extended(m0, m1),
    ensures
        reports_extended(m0, m1.push(e)),
        forall|k: int| m0.len() <= k < m1.len() ==> #[trigger] m1.push(e)[k] == m1[k],
        m1.push(e)[m1.len() as int] == e,
{
    assert(m1.push(e).take(m0.len() as int) =~= m1.take(m0.len() as int));
}

pub proof fn lemma_reports_trans(m0: Seq<Report>, m1: Seq<Report>, m2: Seq<Report>)
    requires
        reports_extended(m0, m1),
        reports_extended(m1, m2),
    ensures
        reports_extended(m0, m2),
        forall|k: int| m0.len() <= k < m1.len() ==> #[trigger] m2[k] == m1[k],
{
    assert(m2.take(m0.len() as int) =~= m1.take(m0.len() as int));
    assert forall|k: int| m0.len() <= k < m1.len() implies #[trigger] m2[k] == m1[k] by {
        assert(m2.take(m1.len() as int)[k] == m2[k]);
    }
}

pub proof fn lemma_reports_refl(m: Seq<Report>)
    ensures
        reports_extended(m, m),
{
    assert(m.take(m.len() as int) =~= m);
}

pub proof fn lemma_pairs_trans(m0: Seq<Report>, m1: Seq<Report>, m2: Seq<Report>)
    requires
        new_reports_are_pairs(m0, m1),
        new_reports_are_pairs(m1, m2),
    ensures
        new_reports_are_pairs(m0, m2),
{
    lemma_reports_trans(m0, m1, m2);
}

pub proof fn lemma_pairs_or_pivot_trans(m0: Seq<Report>, m1: Seq<Report>, m2: Seq<Report>)
    requires
        new_reports_are_pairs_or_pivot(m0, m1),
        new_reports_are_pairs_or_pivot(m1, m2),
    ensures
        new_reports_are_pairs_or_pivot(m0, m2),
{
    lemma_reports_trans(m0, m1, m2);
}

pub proof fn lemma_whole_trans(m0: Seq<Report>, m1: Seq<Report>, m2: Seq<Report>, n: int)
    requires
        new_reports_are_whole(m0, m1, n),
        new_reports_are_whole(m1, m2, n),
    ensures
        new_reports_are_whole(m0, m2, n),
{
    lemma_reports_trans(m0, m1, m2);
}

/// One recorded mutation step: the full array snapshot after the step, the
/// indices the step touched, and the counters as they stood.
pub struct SortStep {
    pub data: Vec<i32>,
    pub touched: Vec<usize>,
    pub compares: u64,
    pub swaps: u64,
}

/// The instrumentation capability.  An algorithm calls `on_compare` for each
/// three-way element comparison, `on_swap` for each element exchange, and
/// `on_mutation` after each batch of writes, handing over the current array
/// and the touched indices.  Counters only ever grow, a mutation report
/// only carries indices that are valid for the array it describes, and the
/// list of reports received is part of every implementation's state, so the
/// algorithms' contracts can say what they report.
pub trait Sink {
    spec fn compares(&self) -> u64;

    spec fn swaps(&self) -> u64;

    spec fn mutations(&self) -> Seq<Report>;

    fn on_compare(&mut self)
        ensures
            final(self).compares() == inc_sat(old(self).compares()),
            final(self).swaps() == old(self).swaps(),
            final(self).mutations() == old(self).mutations(),
    ;

    fn on_swap(&mut self)
        ensures
            final(self).compares() == old(self).compares(),
            final(self).swaps() == inc_sat(old(self).swaps()),
            final(self).mutations() == old(self).mutations(),
    ;

    fn on_mutation(&mut self, data: &Vec<i32>, touched: &Vec<usize>)
        requires
            forall|i: int| 0 <= i < touched@.len() ==> touched@[i] < data@.len(),
        ensures
            final(self).compares() == old(self).compares(),
            final(self).swaps() == old(self).swaps(),
            final(self).mutations() == old(self).mutations().push((data@, touched@)),
    ;
}

/// The measuring sink: counters only, no recording, so timing a run through
/// it reflects pure algorithmic cost.  The report list is ghost state, kept
/// only so the contracts can speak of it.
pub struct CountingSink {
    pub compares: u64,
    pub swaps: u64,
    pub reports: Ghost<Seq<Report>>,
}

impl CountingSink {
    pub fn new() -> (r: CountingSink)
        ensures
            r.compares == 0,
            r.swaps == 0,
            r.mutations().len() == 0,
    {
        CountingSink { compares: 0, swaps: 0, reports: Ghost(Seq::empty()) }
    }
}

impl Sink for CountingSink {
    open spec fn compares(&self) -> u64 {
        self.compares
    }

    open spec fn swaps(&self) -> u64 {
        self.swaps
    }

    open spec fn mutations(&self) -> Seq<Report> {
        self.reports@
    }

    fn on_compare(&mut self) {
        if self.compares < u64::MAX {
            self.compares = self.compares + 1;
        }
    }

    fn on_swap(&mut self) {
        if self.swaps < u64::MAX {
            self.swaps = self.swaps + 1;
        }
    }

    fn on_mutation(&mut self, data: &Vec<i32>, touched: &Vec<usize>) {
        self.reports = Ghost(self.reports@.push((data@, touched@)));
    }
}

/// The visualizing sink: counts like the measuring sink and additionally
/// records every mutation step, so the renderer can replay the whole run
/// frame by frame.
pub struct RecordingSink {
    pub compares: u64,
    pub swaps: u64,
    pub steps: Vec<SortStep>,
}

/// Every recorded step carries only indices valid for its own snapshot.
pub open spec fn steps_wf(steps: Seq<SortStep>) -> bool {
    forall|k: int| 0 <= k < steps.len() ==> valid_step(#[trigger] steps[k])
}

pub open spec fn valid_step(step: SortStep) -> bool {
    forall|i: int| 0 <= i < step.touched@.len() ==> step.touched@[i] < step.data@.len()
}

impl RecordingSink {
    pub fn new() -> (r: RecordingSink)
        ensures
            r.compares == 0,
            r.swaps == 0,
            r.steps@.len() == 0,
            r.mutations().len() == 0,
            steps_wf(r.steps@),
    {
        RecordingSink { compares: 0, swaps: 0, steps: Vec::new() }
    }
}

impl Sink for RecordingSink {
    open spec fn compares(&self) -> u64 {
        self.compares
    }

    open spec fn swaps(&self) -> u64 {
        self.swaps
    }

    open spec fn mutations(&self) -> Seq<Report> {
        self.steps@.map_values(|s: SortStep| (s.data@, s.touched@))
    }

    fn on_compare(&mut self) {
        if self.compares < u64::MAX {
            self.compares = self.compares + 1;
        }
    }

    fn on_swap(&mut self) {
        if self.swaps < u64::MAX {
            self.swaps = self.swaps + 1;
        }
    }

    fn on_mutation(&mut self, data: &Vec<i32>, touched: &Vec<usize>) {
        broadcast use vstd::seq::Seq::lemma_push_map_commute;

        let step = SortStep {
            data: data.clone(),
            touched: touched.clone(),
            compares: self.compares,
            swaps: self.swaps,
        };
        proof {
            assert(step.data@ =~= data@);
            assert(step.touched@ =~= touched@);
        }
        self.steps.push(step);
        proof {
            assert(self.steps@.map_values(|s: SortStep| (s.data@, s.touched@))
                =~= old(self).steps@.map_values(|s: SortStep| (s.data@, s.touched@)).push(
                (data@, touched@),
            ));
        }
    }
}

} // verus!
