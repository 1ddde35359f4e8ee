//! The application controller: it owns the current sequence, the playback
//! speed and the render mode, and maps each parsed command to the state
//! change, the output lines, and the frames the surrounding loop plays.

use vstd::prelude::*;
use crate::numfmt::list_string;
use crate::parser::Command;
use crate::render::Frame;
use crate::render::GraphVisualization;
use crate::render::ListVisualization;
use crate::sink::RecordingSink;
use crate::sink::Sink;
use crate::sorted;
use crate::utils::create_markers;

verus! {

/// Which renderer consumes visualization events.
#[derive(Debug, Clone, Copy, PartialEq, Eq, Structural)]
pub enum VisualizationMode {
    List,
    Graph,
}

/// The run-time errors the command loop reports and recovers from.
#[derive(Debug, PartialEq, Eq)]
pub enum AppError {
    UnknownAlgorithm(String),
    PreconditionViolation(String),
    FileError(String),
}

impl AppError {
    /// A one-line description of the error.
    pub fn message(&self) -> (r: String)
        ensures
            (match self {
                AppError::UnknownAlgorithm(s) => r@ == "Unknown sorting algorithm: "@ + s@,
                AppError::PreconditionViolation(s) => r@ == "Precondition violation: "@ + s@,
                AppError::FileError(s) => r@ == "File error: "@ + s@,
            }),
    {
        match self {
            AppError::UnknownAlgorithm(s) => {
                let mut out = String::from_str("Unknown sorting algorithm: ");
                out.append(s.as_str());
                out
            },
            AppError::PreconditionViolation(s) => {
                let mut out = String::from_str("Precondition violation: ");
                out.append(s.as_str());
                out
            },
            AppError::FileError(s) => {
                let mut out = String::from_str("File error: ");
                out.append(s.as_str());
                out
            },
        }
    }
}

/// What one command produced: text lines to print, frames to play with
/// their delays, and possibly a file the caller must read and hand back.
pub struct CommandOutput {
    pub lines: Vec<String>,
    pub frames: Vec<Frame>,
    pub needs_file: Option<String>,
}

impl CommandOutput {
    fn text(lines: Vec<String>) -> (r: CommandOutput)
        ensures
            r.lines == lines,
            r.frames@.len() == 0,
            r.needs_file is None,
    {
        CommandOutput { lines, frames: Vec::new(), needs_file: None }
    }
}

pub struct AppState {
    pub data: Vec<i32>,
    pub speed_hundredths: u32,
    pub visualization_mode: VisualizationMode,
}

impl AppState {
    pub open spec fn wf(&self) -> bool {
        self.speed_hundredths >= 1
    }

    /// The startup state: the sample sequence, 1x speed, list mode.
    pub fn new() -> (r: AppState)
        ensures
            r.wf(),
            r.data@ == seq![5i32, 2i32, 4i32, 6i32, 3i32, 10i32, 7i32, 1i32],
            r.speed_hundredths == 100,
            r.visualization_mode == VisualizationMode::List,
    {
        let data: Vec<i32> = vec![5, 2, 4, 6, 3, 10, 7, 1];
        proof {
            assert(data@ =~= seq![5i32, 2i32, 4i32, 6i32, 3i32, 10i32, 7i32, 1i32]);
        }
        AppState { data, speed_hundredths: 100, visualization_mode: VisualizationMode::List }
    }

    /// The line showing the current sequence.
    pub fn show_current_array(&self) -> (r: String)
        ensures
            r@ == "Current array: "@ + list_string(self.data@),
    {
        let mut out = String::from_str("Current array: ");
        let body = crate::numfmt::vec_to_string(&self.data);
        out.append(body.as_str());
        out
    }

    /// Dispatches one parsed command.  The read-list command cannot touch
    /// the file system from here: it asks the caller for the file text,
    /// which comes back through `apply_file_text`.
    pub fn execute_command(&mut self, cmd: Command) -> (r: Result<CommandOutput, AppError>)
        requires
            old(self).wf(),
        ensures
            final(self).wf(),
            (match cmd {
                Command::Randomize => r is Ok && final(self).data@.to_multiset() == old(
                    self,
                ).data@.to_multiset() && final(self).speed_hundredths == old(self).speed_hundredths
                    && final(self).visualization_mode == old(self).visualization_mode,
                Command::List => r is Ok && *final(self) == (AppState {
                    visualization_mode: VisualizationMode::List,
                    ..*old(self)
                }),
                Command::Graphs => r is Ok && *final(self) == (AppState {
                    visualization_mode: VisualizationMode::Graph,
                    ..*old(self)
                }),
                Command::Speed(s) => {
                    if s >= 1 {
                        r is Ok && *final(self) == (AppState {
                            speed_hundredths: s,
                            ..*old(self)
                        })
                    } else {
                        (r matches Err(e) && e matches AppError::PreconditionViolation(_))
                            && *final(self) == *old(self)
                    }
                },
                Command::ReadList(f) => (r matches Ok(out) && out.needs_file == Some(f)
                    && *final(self) == *old(self)),
                Command::Sort(name) => sort_outcome(
                    *old(self),
                    *final(self),
                    r,
                    crate::parser::ascii_lower(name@),
                ),
                Command::QuickSort => sort_outcome(
                    *old(self),
                    *final(self),
                    r,
                    crate::parser::ascii_lower("quicksort"@),
                ),
                Command::MergeSort => sort_outcome(
                    *old(self),
                    *final(self),
                    r,
                    crate::parser::ascii_lower("mergesort"@),
                ),
                Command::TimSort => sort_outcome(
                    *old(self),
                    *final(self),
                    r,
                    crate::parser::ascii_lower("timsort"@),
                ),
                Command::RadixSort => sort_outcome(
                    *old(self),
                    *final(self),
                    r,
                    crate::parser::ascii_lower("radix"@),
                ),
                Command::HeapSort => sort_outcome(
                    *old(self),
                    *final(self),
                    r,
                    crate::parser::ascii_lower("heapsort"@),
                ),
                Command::Compare(a, b) => compare_outcome(*old(self), *final(self), r, a@, b@),
                Command::Generate { count, range, no_repeats } => {
                    let width = range.1 as int - range.0 as int + 1;
                    &&& final(self).speed_hundredths == old(self).speed_hundredths
                    &&& final(self).visualization_mode == old(self).visualization_mode
                    &&& (range.0 >= range.1 ==> (r matches Err(e) && e
                        matches AppError::PreconditionViolation(_)) && final(self).data
                        == old(self).data)
                    &&& (range.0 < range.1 && width > usize::MAX ==> (r matches Err(e) && e
                        matches AppError::PreconditionViolation(_)) && final(self).data
                        == old(self).data)
                    &&& (range.0 < range.1 && width <= usize::MAX ==> r is Ok
                        && final(self).data@.len() == (match count {
                        Some(c) => c as int,
                        None => width,
                    }) && (forall|k: int|
                        0 <= k < final(self).data@.len() ==> range.0
                            <= #[trigger] final(self).data@[k] <= range.1) && ((no_repeats
                        && (match count {
                        Some(c) => c as int <= width,
                        None => true,
                    })) ==> final(self).data@.no_duplicates()))
                },
            }),
    {
        match cmd {
            Command::Randomize => {
                crate::utils::shuffle_array(&mut self.data);
                let mut lines: Vec<String> = Vec::new();
                lines.push(String::from_str("Array shuffled at random"));
                lines.push(self.show_current_array());
                Ok(CommandOutput::text(lines))
            },
            Command::Generate { count, range, no_repeats } => {
                let (min, max) = range;
                if min >= max {
                    return Err(
                        AppError::PreconditionViolation(
                            String::from_str("range start must be below its end"),
                        ),
                    );
                }
                let width = ((max as i64) - (min as i64) + 1) as u64;
                if width > usize::MAX as u64 {
                    return Err(
                        AppError::PreconditionViolation(String::from_str("range is too wide")),
                    );
                }
                self.data = crate::utils::generate_random_list(count, min, max, no_repeats);
                let mut lines: Vec<String> = Vec::new();
                lines.push(String::from_str("Generated a fresh array"));
                lines.push(self.show_current_array());
                Ok(CommandOutput::text(lines))
            },
            Command::List => {
                self.visualization_mode = VisualizationMode::List;
                let mut lines: Vec<String> = Vec::new();
                lines.push(String::from_str("Render mode: list"));
                lines.push(self.show_current_array());
                Ok(CommandOutput::text(lines))
            },
            Command::Graphs => {
                self.visualization_mode = VisualizationMode::Graph;
                let mut lines: Vec<String> = Vec::new();
                lines.push(String::from_str("Render mode: graphs"));
                lines.push(self.show_current_array());
                Ok(CommandOutput::text(lines))
            },
            Command::Speed(s) => {
                if s == 0 {
                    return Err(
                        AppError::PreconditionViolation(
                            String::from_str("speed must be positive"),
                        ),
                    );
                }
                self.speed_hundredths = s;
                let mut lines: Vec<String> = Vec::new();
                lines.push(String::from_str("Playback speed set"));
                Ok(CommandOutput::text(lines))
            },
            Command::Sort(name) => self.run_sort_by_name(name.as_str()),
            Command::QuickSort => self.run_sort_by_name("quicksort"),
            Command::MergeSort => self.run_sort_by_name("mergesort"),
            Command::TimSort => self.run_sort_by_name("timsort"),
            Command::RadixSort => self.run_sort_by_name("radix"),
            Command::HeapSort => self.run_sort_by_name("heapsort"),
            Command::Compare(a, b) => {
                if self.data.len() < 2 {
                    let mut lines: Vec<String> = Vec::new();
                    lines.push(String::from_str("Array is too small to compare"));
                    return Ok(CommandOutput::text(lines));
                }
                let fa = crate::parser::to_ascii_lowercase(a.as_str());
                let fb = crate::parser::to_ascii_lowercase(b.as_str());
                match crate::harness::compare_sorts(fa.as_str(), fb.as_str(), &self.data) {
                    Ok(lines) => Ok(CommandOutput::text(lines)),
                    Err(()) => {
                        if !crate::harness::is_known_algorithm(fa.as_str()) {
                            Err(AppError::UnknownAlgorithm(a))
                        } else if !crate::harness::is_known_algorithm(fb.as_str()) {
                            Err(AppError::UnknownAlgorithm(b))
                        } else {
                            Err(
                                AppError::PreconditionViolation(
                                    String::from_str("radix sort needs non-negative values"),
                                ),
                            )
                        }
                    },
                }
            },
            Command::ReadList(filename) => {
                let mut lines: Vec<String> = Vec::new();
                lines.push(String::from_str("Reading list from file"));
                Ok(
                    CommandOutput {
                        lines,
                        frames: Vec::new(),
                        needs_file: Some(filename),
                    },
                )
            },
        }
    }

    /// Replaces the sequence with the numbers parsed from file text; any
    /// bad token aborts the load and the previous sequence is kept.
    pub fn apply_file_text(&mut self, text: &str) -> (r: Result<Vec<String>, AppError>)
        requires
            old(self).wf(),
        ensures
            final(self).wf(),
            final(self).speed_hundredths == old(self).speed_hundredths,
            final(self).visualization_mode == old(self).visualization_mode,
            r is Ok <==> (forall|i: int|
                0 <= i < crate::parser::tokens_of(text@, true).len()
                    ==> crate::numfmt::valid_int_literal(
                    #[trigger] crate::parser::tokens_of(text@, true)[i],
                )),
            (match r {
                Ok(_) => {
                    let toks = crate::parser::tokens_of(text@, true);
                    &&& final(self).data@.len() == toks.len()
                    &&& forall|i: int|
                        0 <= i < toks.len() ==> crate::numfmt::valid_int_literal(#[trigger] toks[i])
                            && final(self).data@[i] as int == crate::numfmt::int_literal_value(
                            toks[i],
                        )
                },
                Err(e) => e matches AppError::FileError(_) && *final(self) == *old(self),
            }),
    {
        match crate::utils::parse_number_list(text) {
            Some(numbers) => {
                self.data = numbers;
                let mut lines: Vec<String> = Vec::new();
                lines.push(String::from_str("Array loaded from file"));
                lines.push(self.show_current_array());
                Ok(lines)
            },
            None => Err(
                AppError::FileError(String::from_str("the file holds a token that is no integer")),
            ),
        }
    }

    /// Runs the named algorithm over the current sequence with the active
    /// renderer.  A sequence of fewer than two elements is left alone with
    /// a notice; an unknown name and a radix precondition failure abort
    /// with an error and no state change.
    pub fn run_sort_by_name(&mut self, name: &str) -> (r: Result<CommandOutput, AppError>)
        requires
            old(self).wf(),
        ensures
            final(self).wf(),
            sort_outcome(*old(self), *final(self), r, crate::parser::ascii_lower(name@)),
    {
        if self.data.len() < 2 {
            let mut lines: Vec<String> = Vec::new();
            lines.push(String::from_str("Array is too small to sort"));
            return Ok(CommandOutput::text(lines));
        }
        let folded = crate::parser::to_ascii_lowercase(name);
        let started = crate::clock::now();
        let mut work = crate::utils::get_subvector(&self.data, 0, self.data.len());
        proof {
            assert(work@ == self.data@.subrange(0, self.data@.len() as int));
            assert(self.data@.subrange(0, self.data@.len() as int) =~= self.data@);
        }
        let mut sink = RecordingSink::new();
        match crate::harness::run_named(folded.as_str(), &mut work, &mut sink) {
            Ok(()) => {},
            Err(()) => {
                if !crate::harness::is_known_algorithm(folded.as_str()) {
                    return Err(AppError::UnknownAlgorithm(name.to_owned()));
                }
                return Err(
                    AppError::PreconditionViolation(
                        String::from_str("radix sort needs non-negative values"),
                    ),
                );
            },
        }
        let elapsed = crate::clock::elapsed_millis(&started);

        // Replay the recorded steps through the active renderer.
        let mut frames: Vec<Frame> = Vec::new();
        let mut lines: Vec<String> = Vec::new();
        match self.visualization_mode {
            VisualizationMode::List => {
                let mut viz = ListVisualization::new(
                    crate::utils::get_subvector(&self.data, 0, self.data.len()),
                );
                viz.set_speed(self.speed_hundredths);
                viz.reset_stats();
                let mut k: usize = 0;
                while k < sink.steps.len()
                    invariant
                        viz.wf(),
                        k <= sink.steps@.len(),
                    decreases sink.steps@.len() - k,
                {
                    let step = &sink.steps[k];
                    let snapshot = crate::utils::get_subvector(&step.data, 0, step.data.len());
                    let markers = create_markers(snapshot.len(), &step.touched);
                    viz.compares = step.compares;
                    viz.swaps = step.swaps;
                    frames.push(viz.render_step(snapshot, markers));
                    k += 1;
                }
                viz.compares = sink.compares;
                viz.swaps = sink.swaps;
                viz.update_visual_time(elapsed);
                viz.update_data(crate::utils::get_subvector(&work, 0, work.len()));
                lines = viz.final_render();
            },
            VisualizationMode::Graph => {
                let mut viz = GraphVisualization::new(
                    crate::utils::get_subvector(&self.data, 0, self.data.len()),
                );
                viz.set_speed(self.speed_hundredths);
                viz.reset_stats();
                let mut k: usize = 0;
                while k < sink.steps.len()
                    invariant
                        viz.wf(),
                        k <= sink.steps@.len(),
                    decreases sink.steps@.len() - k,
                {
                    let step = &sink.steps[k];
                    let snapshot = crate::utils::get_subvector(&step.data, 0, step.data.len());
                    let markers = create_markers(snapshot.len(), &step.touched);
                    viz.compares = step.compares;
                    viz.swaps = step.swaps;
                    frames.push(viz.render_step(snapshot, markers));
                    k += 1;
                }
                viz.compares = sink.compares;
                viz.swaps = sink.swaps;
                viz.update_visual_time(elapsed);
                viz.update_data(crate::utils::get_subvector(&work, 0, work.len()));
                lines = viz.final_render();
            },
        }
        self.data = work;
        Ok(CommandOutput { lines, frames, needs_file: None })
    }
}

/// What the compare command does: the state never changes; a too-small
/// sequence gets a notice; otherwise, with both names folded to lower case,
/// success comes exactly on two known algorithms whose radix precondition
/// holds, the report has the harness's table shape, an unknown name is an
/// unknown-algorithm error and a failed radix precondition a precondition
/// error.
pub open spec fn compare_outcome(
    pre: AppState,
    post: AppState,
    r: Result<CommandOutput, AppError>,
    a: Seq<char>,
    b: Seq<char>,
) -> bool {
    let n1 = crate::parser::ascii_lower(a);
    let n2 = crate::parser::ascii_lower(b);
    &&& post == pre
    &&& (pre.data@.len() < 2 ==> r is Ok)
    &&& (pre.data@.len() >= 2 ==> {
        &&& (r is Ok <==> crate::harness::known_algorithm(n1) && crate::harness::known_algorithm(
            n2,
        ) && ((n1 == "radix"@ || n2 == "radix"@) ==> crate::sort::radix::all_nonneg(pre.data@)))
        &&& (match r {
            Ok(out) => crate::harness::compare_report_shape(
                n1,
                n2,
                out.lines@.map_values(|l: String| l@),
            ),
            Err(e) => if !(crate::harness::known_algorithm(n1)
                && crate::harness::known_algorithm(n2)) {
                e matches AppError::UnknownAlgorithm(_)
            } else {
                e matches AppError::PreconditionViolation(_)
            },
        })
    })
}

/// What a sort command does to the state, `name` being the requested
/// algorithm folded to lower case: a too-small sequence is left alone with
/// a notice; otherwise success comes exactly on a known algorithm whose
/// precondition holds, the sequence becomes a sorted permutation of itself
/// on success, an unknown name is an unknown-algorithm error, and a failed
/// radix precondition is a precondition error; no error changes the state.
pub open spec fn sort_outcome(
    pre: AppState,
    post: AppState,
    r: Result<CommandOutput, AppError>,
    name: Seq<char>,
) -> bool {
    &&& post.speed_hundredths == pre.speed_hundredths
    &&& post.visualization_mode == pre.visualization_mode
    &&& (pre.data@.len() < 2 ==> r is Ok && post.data == pre.data)
    &&& (pre.data@.len() >= 2 ==> (r is Ok <==> crate::harness::known_algorithm(name) && (name
        == "radix"@ ==> crate::sort::radix::all_nonneg(pre.data@))))
    &&& (r is Err ==> post.data == pre.data)
    &&& (r is Ok ==> post.data@.to_multiset() == pre.data@.to_multiset())
    &&& (pre.data@.len() >= 2 && r is Ok ==> sorted(post.data@))
    &&& (match r {
        Err(e) => if !crate::harness::known_algorithm(name) {
            e matches AppError::UnknownAlgorithm(_)
        } else {
            e matches AppError::PreconditionViolation(_)
        },
        Ok(_) => true,
    })
}

} // verus!
