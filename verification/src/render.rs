//! The two renderers.  Each holds the last snapshot, the marker set, the
//! cumulative run statistics and the run's start timestamp, and turns that
//! state into the text lines of a full terminal frame; printing the lines
//! and sleeping between frames is the caller's business.

use vstd::prelude::*;
use crate::numfmt::dec_digits;
use crate::numfmt::list_string;
use crate::numfmt::push_char;
use crate::numfmt::u64_to_string;
use crate::numfmt::vec_to_string;

verus! {

/// `n` copies of `c`.
pub open spec fn repeat_char(c: char, n: int) -> Seq<char> {
    Seq::new(n as nat, |i: int| c)
}

/// The marker row under a list frame: one cell per position, cells two
/// spaces apart, a dash under each touched position.
pub open spec fn marker_row(m: Seq<bool>) -> Seq<char>
    decreases m.len(),
{
    if m.len() == 0 {
        seq![' ']
    } else {
        marker_row(m.drop_last()) + (if m.len() == 1 {
            Seq::empty()
        } else {
            seq![' ', ' ']
        }) + seq![if m.last() {
            '-'
        } else {
            ' '
        }]
    }
}

/// The statistics line of a frame.
pub open spec fn stats_line(vt: int, rt: int, c: int, s: int, speed: int) -> Seq<char> {
    "visual time: "@ + dec_digits(vt) + "ms | real time: "@ + dec_digits(rt) + "ms | compares: "@
        + dec_digits(c) + " | swaps: "@ + dec_digits(s) + (if speed == 100 {
        Seq::<char>::empty()
    } else {
        " | speed: "@ + dec_digits(speed / 100) + seq!['.'] + two_digits(speed % 100) + seq!['x']
    })
}

pub open spec fn two_digits(f: int) -> Seq<char> {
    seq![crate::numfmt::digit_char(f / 10), crate::numfmt::digit_char(f % 10)]
}

/// One cell of the bar chart: rows run top down, a bar of height `h` fills
/// the bottom `h` rows, and a touched column carries a dash at the top of
/// its bar.
pub open spec fn graph_cell(
    data: Seq<i32>,
    markers: Seq<bool>,
    max_h: int,
    row: int,
    i: int,
) -> char {
    let h = if data[i] > 0 {
        data[i] as int
    } else {
        0
    };
    if markers.len() == data.len() && 0 <= i < markers.len() && markers[i] && h > 0 && row == max_h
        - h {
        '-'
    } else if h >= max_h - row {
        '█'
    } else {
        ' '
    }
}

/// The grid of the bar chart, top row first.
pub open spec fn graph_grid(data: Seq<i32>, markers: Seq<bool>, max_h: int) -> Seq<Seq<char>> {
    Seq::new(max_h as nat, |row: int| Seq::new(data.len(), |i: int| graph_cell(data, markers, max_h, row, i)))
}

/// One frame ready for the terminal: its text lines and the delay to hold
/// it on screen.
pub struct Frame {
    pub lines: Vec<String>,
    pub delay_ms: u64,
}

/// The delay a frame is held, derived from the playback speed in
/// hundredths: no added delay at 1x, else the base unit of 100 time-units
/// divided by the multiplier.
pub open spec fn frame_delay(speed: int) -> int {
    if speed == 100 {
        0
    } else {
        10000int / speed
    }
}

/// Builds `n` dashes.
fn dashes(n: usize) -> (r: String)
    ensures
        r@ == repeat_char('-', n as int),
{
    let mut out = String::new();
    let mut k: usize = 0;
    while k < n
        invariant
            k <= n,
            out@ == repeat_char('-', k as int),
        decreases n - k,
    {
        push_char(&mut out, '-');
        k += 1;
        proof {
            assert(out@ =~= repeat_char('-', k as int));
        }
    }
    out
}

/// Builds the statistics line.
fn build_stats_line(vt: u64, rt: u64, c: u64, s: u64, speed: u32) -> (r: String)
    requires
        speed >= 1,
    ensures
        r@ == stats_line(vt as int, rt as int, c as int, s as int, speed as int),
{
    let mut out = String::from_str("visual time: ");
    let t1 = u64_to_string(vt);
    out.append(t1.as_str());
    out.append("ms | real time: ");
    let t2 = u64_to_string(rt);
    out.append(t2.as_str());
    out.append("ms | compares: ");
    let t3 = u64_to_string(c);
    out.append(t3.as_str());
    out.append(" | swaps: ");
    let t4 = u64_to_string(s);
    out.append(t4.as_str());
    if speed != 100 {
        out.append(" | speed: ");
        let whole = u64_to_string((speed / 100) as u64);
        out.append(whole.as_str());
        push_char(&mut out, '.');
        let f = speed % 100;
        push_char(&mut out, ((f / 10) as u8 + 48) as char);
        push_char(&mut out, ((f % 10) as u8 + 48) as char);
        push_char(&mut out, 'x');
    }
    proof {
        assert(out@ =~= stats_line(vt as int, rt as int, c as int, s as int, speed as int));
    }
    out
}

/// Builds the marker row.
fn build_marker_row(markers: &Vec<bool>) -> (r: String)
    ensures
        r@ == marker_row(markers@),
{
    let mut out = String::from_str(" ");
    proof {
        reveal_strlit(" ");
        assert(marker_row(markers@.take(0)) =~= seq![' ']);
        assert(out@ =~= marker_row(markers@.take(0)));
    }
    let mut k: usize = 0;
    while k < markers.len()
        invariant
            k <= markers@.len(),
            out@ == marker_row(markers@.take(k as int)),
        decreases markers.len() - k,
    {
        if k > 0 {
            push_char(&mut out, ' ');
            push_char(&mut out, ' ');
        }
        if markers[k] {
            push_char(&mut out, '-');
        } else {
            push_char(&mut out, ' ');
        }
        k += 1;
        proof {
            let t = markers@.take(k as int);
            assert(t.drop_last() =~= markers@.take(k - 1));
            assert(t.last() == markers@[k - 1]);
            assert(out@ =~= marker_row(t));
        }
    }
    proof {
        assert(markers@.take(markers@.len() as int) =~= markers@);
    }
    out
}

/// The greatest element, or 0 for an empty sequence.
pub open spec fn seq_max_or0(s: Seq<i32>) -> int
    decreases s.len(),
{
    if s.len() == 0 {
        0
    } else if s.last() as int > seq_max_or0(s.drop_last()) {
        s.last() as int
    } else {
        seq_max_or0(s.drop_last())
    }
}

/// The chart height: the greatest value, at least 1.
pub open spec fn chart_height(s: Seq<i32>) -> int {
    if seq_max_or0(s) > 0 {
        seq_max_or0(s)
    } else {
        1
    }
}

proof fn lemma_seq_max_bound(s: Seq<i32>)
    ensures
        forall|k: int| 0 <= k < s.len() ==> #[trigger] s[k] as int <= seq_max_or0(s),
        seq_max_or0(s) >= 0,
    decreases s.len(),
{
    if s.len() > 0 {
        lemma_seq_max_bound(s.drop_last());
        assert forall|k: int| 0 <= k < s.len() implies #[trigger] s[k] as int <= seq_max_or0(
            s,
        ) by {
            if k < s.len() - 1 {
                assert(s.drop_last()[k] == s[k]);
            }
        }
    }
}

/// The text lines of a list frame.
pub open spec fn list_frame(
    data: Seq<i32>,
    markers: Seq<bool>,
    vt: int,
    rt: int,
    c: int,
    s: int,
    speed: int,
) -> Seq<Seq<char>> {
    seq![list_string(data)] + (if markers.len() == data.len() && markers.len() > 0 {
        seq![marker_row(markers)]
    } else {
        Seq::empty()
    }) + seq![
        repeat_char('-', 40),
        stats_line(vt, rt, c, s, speed),
        repeat_char('-', 40),
        "-> "@,
    ]
}

/// The text lines of a graph frame.
pub open spec fn graph_frame(
    data: Seq<i32>,
    markers: Seq<bool>,
    vt: int,
    rt: int,
    c: int,
    s: int,
    speed: int,
) -> Seq<Seq<char>> {
    let w = if data.len() > 40 {
        data.len() as int
    } else {
        40
    };
    graph_grid(data, markers, chart_height(data)) + seq![
        repeat_char('-', w),
        stats_line(vt, rt, c, s, speed),
        repeat_char('-', w),
        Seq::<char>::empty(),
    ]
}

/// The text lines of a list renderer's closing frame.
pub open spec fn list_final_frame(
    data: Seq<i32>,
    vt: int,
    rt: int,
    c: int,
    s: int,
    speed: int,
) -> Seq<Seq<char>> {
    seq![
        list_string(data),
        repeat_char('-', 40),
        "FINAL: "@ + stats_line(vt, rt, c, s, speed),
        repeat_char('-', 40),
        "-> sorting complete!"@,
    ]
}

/// The text lines of a graph renderer's closing frame: the bare grid.
pub open spec fn graph_final_frame(
    data: Seq<i32>,
    vt: int,
    rt: int,
    c: int,
    s: int,
    speed: int,
) -> Seq<Seq<char>> {
    let w = if data.len() > 40 {
        data.len() as int
    } else {
        40
    };
    graph_grid(data, Seq::empty(), chart_height(data)) + seq![
        repeat_char('-', w),
        "FINAL: "@ + stats_line(vt, rt, c, s, speed),
        repeat_char('-', w),
        "-> sorting complete!"@,
    ]
}

/// The list renderer: the sequence as a bracketed row with a marker row
/// aligned under it.
pub struct ListVisualization {
    pub data: Vec<i32>,
    pub markers: Vec<bool>,
    pub visual_time: u64,
    pub compares: u64,
    pub swaps: u64,
    pub speed_hundredths: u32,
    pub real_time: std::time::Instant,
}

impl ListVisualization {
    pub open spec fn wf(&self) -> bool {
        self.speed_hundredths >= 1
    }

    pub fn new(data: Vec<i32>) -> (r: ListVisualization)
        ensures
            r.wf(),
            r.data == data,
            r.markers@.len() == 0,
            r.visual_time == 0,
            r.compares == 0,
            r.swaps == 0,
            r.speed_hundredths == 100,
    {
        ListVisualization {
            data,
            markers: Vec::new(),
            visual_time: 0,
            compares: 0,
            swaps: 0,
            speed_hundredths: 100,
            real_time: crate::clock::now(),
        }
    }

    pub fn set_speed(&mut self, speed_hundredths: u32)
        requires
            speed_hundredths >= 1,
        ensures
            final(self).wf(),
            *final(self) == (ListVisualization { speed_hundredths, ..*old(self) }),
    {
        self.speed_hundredths = speed_hundredths;
    }

    pub fn update_data(&mut self, data: Vec<i32>)
        ensures
            *final(self) == (ListVisualization { data, ..*old(self) }),
    {
        self.data = data;
    }

    pub fn set_markers(&mut self, markers: Vec<bool>)
        ensures
            *final(self) == (ListVisualization { markers, ..*old(self) }),
    {
        self.markers = markers;
    }

    pub fn increment_compares(&mut self)
        ensures
            final(self).compares == crate::sink::inc_sat(old(self).compares),
            *final(self) == (ListVisualization { compares: final(self).compares, ..*old(self) }),
    {
        if self.compares < u64::MAX {
            self.compares = self.compares + 1;
        }
    }

    pub fn increment_swaps(&mut self)
        ensures
            final(self).swaps == crate::sink::inc_sat(old(self).swaps),
            *final(self) == (ListVisualization { swaps: final(self).swaps, ..*old(self) }),
    {
        if self.swaps < u64::MAX {
            self.swaps = self.swaps + 1;
        }
    }

    pub fn update_visual_time(&mut self, millis: u64)
        ensures
            *final(self) == (ListVisualization { visual_time: millis, ..*old(self) }),
    {
        self.visual_time = millis;
    }

    /// Zeroes the statistics and restarts the run's wall clock.
    pub fn reset_stats(&mut self)
        ensures
            final(self).compares == 0,
            final(self).swaps == 0,
            final(self).visual_time == 0,
            final(self).data == old(self).data,
            final(self).markers == old(self).markers,
            final(self).speed_hundredths == old(self).speed_hundredths,
    {
        self.compares = 0;
        self.swaps = 0;
        self.visual_time = 0;
        self.real_time = crate::clock::now();
    }

    /// The full frame for the current state; the real-time figure is read
    /// from the wall clock, everything else is pinned by the state.
    pub fn render(&self) -> (r: Vec<String>)
        requires
            self.wf(),
        ensures
            exists|rt: int|
                0 <= rt && r@.map_values(|l: String| l@) == list_frame(
                    self.data@,
                    self.markers@,
                    self.visual_time as int,
                    rt,
                    self.compares as int,
                    self.swaps as int,
                    self.speed_hundredths as int,
                ),
    {
        broadcast use vstd::seq::Seq::lemma_push_map_commute;

        let rt = crate::clock::elapsed_millis(&self.real_time);
        let mut lines: Vec<String> = Vec::new();
        lines.push(vec_to_string(&self.data));
        if self.markers.len() == self.data.len() && self.markers.len() > 0 {
            lines.push(build_marker_row(&self.markers));
        }
        lines.push(dashes(40));
        lines.push(
            build_stats_line(
                self.visual_time,
                rt,
                self.compares,
                self.swaps,
                self.speed_hundredths,
            ),
        );
        lines.push(dashes(40));
        lines.push(String::from_str("-> "));
        proof {
            assert(lines@.map_values(|l: String| l@) =~= list_frame(
                self.data@,
                self.markers@,
                self.visual_time as int,
                rt as int,
                self.compares as int,
                self.swaps as int,
                self.speed_hundredths as int,
            ));
        }
        lines
    }

    /// Takes one step: adopts the new snapshot and markers, renders the
    /// frame, and computes how long the frame is held.
    pub fn render_step(&mut self, data: Vec<i32>, markers: Vec<bool>) -> (r: Frame)
        requires
            old(self).wf(),
        ensures
            final(self).wf(),
            final(self).data == data,
            final(self).markers == markers,
            final(self).compares == old(self).compares,
            final(self).swaps == old(self).swaps,
            final(self).visual_time == old(self).visual_time,
            final(self).speed_hundredths == old(self).speed_hundredths,
            r.delay_ms as int == frame_delay(final(self).speed_hundredths as int),
            exists|rt: int|
                0 <= rt && r.lines@.map_values(|l: String| l@) == list_frame(
                    data@,
                    markers@,
                    final(self).visual_time as int,
                    rt,
                    final(self).compares as int,
                    final(self).swaps as int,
                    final(self).speed_hundredths as int,
                ),
    {
        self.update_data(data);
        self.set_markers(markers);
        let lines = self.render();
        let delay_ms: u64 = if self.speed_hundredths == 100 {
            0
        } else {
            10000 / (self.speed_hundredths as u64)
        };
        Frame { lines, delay_ms }
    }

    /// The closing frame: no marker row, a completion banner instead of the
    /// prompt; pinned by the state up to the wall-clock figure.
    pub fn final_render(&self) -> (r: Vec<String>)
        requires
            self.wf(),
        ensures
            exists|rt: int|
                0 <= rt && r@.map_values(|l: String| l@) == list_final_frame(
                    self.data@,
                    self.visual_time as int,
                    rt,
                    self.compares as int,
                    self.swaps as int,
                    self.speed_hundredths as int,
                ),
            r@.len() == 5,
            r@[0]@ == list_string(self.data@),
            r@[4]@ == "-> sorting complete!"@,
    {
        broadcast use vstd::seq::Seq::lemma_push_map_commute;

        let rt = crate::clock::elapsed_millis(&self.real_time);
        let mut lines: Vec<String> = Vec::new();
        lines.push(vec_to_string(&self.data));
        lines.push(dashes(40));
        let mut st = String::from_str("FINAL: ");
        let body = build_stats_line(
            self.visual_time,
            rt,
            self.compares,
            self.swaps,
            self.speed_hundredths,
        );
        st.append(body.as_str());
        lines.push(st);
        lines.push(dashes(40));
        lines.push(String::from_str("-> sorting complete!"));
        proof {
            assert(lines@.map_values(|l: String| l@) =~= list_final_frame(
                self.data@,
                self.visual_time as int,
                rt as int,
                self.compares as int,
                self.swaps as int,
                self.speed_hundredths as int,
            ));
        }
        lines
    }
}

/// The graph renderer: a bottom-up bar chart, bar height equal to the
/// element value, markers drawn at the top of touched bars.
pub struct GraphVisualization {
    pub data: Vec<i32>,
    pub markers: Vec<bool>,
    pub visual_time: u64,
    pub compares: u64,
    pub swaps: u64,
    pub speed_hundredths: u32,
    pub real_time: std::time::Instant,
}

impl GraphVisualization {
    pub open spec fn wf(&self) -> bool {
        self.speed_hundredths >= 1
    }

    pub fn new(data: Vec<i32>) -> (r: GraphVisualization)
        ensures
            r.wf(),
            r.data == data,
            r.markers@.len() == 0,
            r.visual_time == 0,
            r.compares == 0,
            r.swaps == 0,
            r.speed_hundredths == 100,
    {
        GraphVisualization {
            data,
            markers: Vec::new(),
            visual_time: 0,
            compares: 0,
            swaps: 0,
            speed_hundredths: 100,
            real_time: crate::clock::now(),
        }
    }

    pub fn set_speed(&mut self, speed_hundredths: u32)
        requires
            speed_hundredths >= 1,
        ensures
            final(self).wf(),
            *final(self) == (GraphVisualization { speed_hundredths, ..*old(self) }),
    {
        self.speed_hundredths = speed_hundredths;
    }

    pub fn update_data(&mut self, data: Vec<i32>)
        ensures
            *final(self) == (GraphVisualization { data, ..*old(self) }),
    {
        self.data = data;
    }

    pub fn set_markers(&mut self, markers: Vec<bool>)
        ensures
            *final(self) == (GraphVisualization { markers, ..*old(self) }),
    {
        self.markers = markers;
    }

    pub fn increment_compares(&mut self)
        ensures
            final(self).compares == crate::sink::inc_sat(old(self).compares),
            *final(self) == (GraphVisualization { compares: final(self).compares, ..*old(self) }),
    {
        if self.compares < u64::MAX {
            self.compares = self.compares + 1;
        }
    }

    pub fn increment_swaps(&mut self)
        ensures
            final(self).swaps == crate::sink::inc_sat(old(self).swaps),
            *final(self) == (GraphVisualization { swaps: final(self).swaps, ..*old(self) }),
    {
        if self.swaps < u64::MAX {
            self.swaps = self.swaps + 1;
        }
    }

    pub fn update_visual_time(&mut self, millis: u64)
        ensures
            *final(self) == (GraphVisualization { visual_time: millis, ..*old(self) }),
    {
        self.visual_time = millis;
    }

    /// Zeroes the statistics and restarts the run's wall clock.
    pub fn reset_stats(&mut self)
        ensures
            final(self).compares == 0,
            final(self).swaps == 0,
            final(self).visual_time == 0,
            final(self).data == old(self).data,
            final(self).markers == old(self).markers,
            final(self).speed_hundredths == old(self).speed_hundredths,
    {
        self.compares = 0;
        self.swaps = 0;
        self.visual_time = 0;
        self.real_time = crate::clock::now();
    }

    /// The full frame for the current state: the bar grid, then the
    /// statistics between separators.
    pub fn render(&self) -> (r: Vec<String>)
        requires
            self.wf(),
        ensures
            exists|rt: int|
                0 <= rt && r@.map_values(|l: String| l@) == graph_frame(
                    self.data@,
                    self.markers@,
                    self.visual_time as int,
                    rt,
                    self.compares as int,
                    self.swaps as int,
                    self.speed_hundredths as int,
                ),
    {
        broadcast use vstd::seq::Seq::lemma_push_map_commute;

        let rt = crate::clock::elapsed_millis(&self.real_time);
        let mut lines = render_grid(&self.data, &self.markers);
        let w = if self.data.len() > 40 {
            self.data.len()
        } else {
            40
        };
        lines.push(dashes(w));
        lines.push(
            build_stats_line(
                self.visual_time,
                rt,
                self.compares,
                self.swaps,
                self.speed_hundredths,
            ),
        );
        lines.push(dashes(w));
        lines.push(String::new());
        proof {
            assert(lines@.map_values(|l: String| l@) =~= graph_frame(
                self.data@,
                self.markers@,
                self.visual_time as int,
                rt as int,
                self.compares as int,
                self.swaps as int,
                self.speed_hundredths as int,
            ));
        }
        lines
    }

    /// Takes one step: adopts the new snapshot and markers, renders the
    /// frame, and computes how long the frame is held.
    pub fn render_step(&mut self, data: Vec<i32>, markers: Vec<bool>) -> (r: Frame)
        requires
            old(self).wf(),
        ensures
            final(self).wf(),
            final(self).data == data,
            final(self).markers == markers,
            final(self).compares == old(self).compares,
            final(self).swaps == old(self).swaps,
            final(self).visual_time == old(self).visual_time,
            final(self).speed_hundredths == old(self).speed_hundredths,
            r.delay_ms as int == frame_delay(final(self).speed_hundredths as int),
            exists|rt: int|
                0 <= rt && r.lines@.map_values(|l: String| l@) == graph_frame(
                    data@,
                    markers@,
                    final(self).visual_time as int,
                    rt,
                    final(self).compares as int,
                    final(self).swaps as int,
                    final(self).speed_hundredths as int,
                ),
    {
        self.update_data(data);
        self.set_markers(markers);
        let lines = self.render();
        let delay_ms: u64 = if self.speed_hundredths == 100 {
            0
        } else {
            10000 / (self.speed_hundredths as u64)
        };
        Frame { lines, delay_ms }
    }

    /// The closing frame: the bare grid, the statistics, and a completion
    /// banner; pinned by the state up to the wall-clock figure.
    pub fn final_render(&self) -> (r: Vec<String>)
        requires
            self.wf(),
        ensures
            exists|rt: int|
                0 <= rt && r@.map_values(|l: String| l@) == graph_final_frame(
                    self.data@,
                    self.visual_time as int,
                    rt,
                    self.compares as int,
                    self.swaps as int,
                    self.speed_hundredths as int,
                ),
            r@.len() == chart_height(self.data@) + 4,
            r@[r@.len() - 1]@ == "-> sorting complete!"@,
    {
        broadcast use vstd::seq::Seq::lemma_push_map_commute;

        let rt = crate::clock::elapsed_millis(&self.real_time);
        let none: Vec<bool> = Vec::new();
        let mut lines = render_grid(&self.data, &none);
        proof {
            assert(none@ =~= Seq::<bool>::empty());
        }
        let w = if self.data.len() > 40 {
            self.data.len()
        } else {
            40
        };
        lines.push(dashes(w));
        let mut st = String::from_str("FINAL: ");
        let body = build_stats_line(
            self.visual_time,
            rt,
            self.compares,
            self.swaps,
            self.speed_hundredths,
        );
        st.append(body.as_str());
        lines.push(st);
        lines.push(dashes(w));
        lines.push(String::from_str("-> sorting complete!"));
        proof {
            assert(lines@.map_values(|l: String| l@) =~= graph_final_frame(
                self.data@,
                self.visual_time as int,
                rt as int,
                self.compares as int,
                self.swaps as int,
                self.speed_hundredths as int,
            ));
        }
        lines
    }
}

/// Builds the bar grid, top row first.
fn render_grid(data: &Vec<i32>, markers: &Vec<bool>) -> (r: Vec<String>)
    ensures
        r@.map_values(|l: String| l@) == graph_grid(data@, markers@, chart_height(data@)),
        r@.len() == chart_height(data@),
{
    broadcast use vstd::seq::Seq::lemma_push_map_commute;

    proof {
        lemma_seq_max_bound(data@);
        if data@.len() > 0 {
            lemma_seq_max_witness(data@);
        }
    }
    let (_, mx) = crate::utils::find_min_max(data);
    let max_h: usize;
    if data.len() > 0 && mx > 0 {
        proof {
            // mx is an element that dominates all, so it equals the spec
            // maximum: each bounds the other.
            let s = data@;
            assert(s.contains(mx));
            let u = choose|u: int| 0 <= u < s.len() && s[u] == mx;
            assert(s[u] as int <= seq_max_or0(s));
            if seq_max_or0(s) != 0 {
                let w = choose|w: int| 0 <= w < s.len() && #[trigger] s[w] as int == seq_max_or0(
                    s,
                );
                assert(s[w] <= mx);
            }
            assert(mx as int == seq_max_or0(s));
        }
        max_h = mx as usize;
    } else {
        proof {
            let s = data@;
            if s.len() > 0 && seq_max_or0(s) != 0 {
                let w = choose|w: int| 0 <= w < s.len() && #[trigger] s[w] as int == seq_max_or0(
                    s,
                );
                assert(s[w] <= mx);
            }
            assert(seq_max_or0(s) <= 0);
        }
        max_h = 1;
    }
    proof {
        assert(max_h as int == chart_height(data@));
    }

    let width = data.len();
    let mut rows: Vec<String> = Vec::new();
    let mut row: usize = 0;
    while row < max_h
        invariant
            row <= max_h,
            max_h as int == chart_height(data@),
            width == data@.len(),
            rows@.map_values(|l: String| l@) == graph_grid(data@, markers@, max_h as int).take(
                row as int,
            ),
        decreases max_h - row,
    {
        broadcast use vstd::seq::Seq::lemma_push_map_commute;

        let mut line = String::new();
        let mut i: usize = 0;
        while i < width
            invariant
                i <= width == data@.len(),
                row < max_h,
                max_h as int == chart_height(data@),
                line@ == Seq::new(i as nat, |m: int| graph_cell(data@, markers@, max_h as int, row as int, m)),
            decreases width - i,
        {
            let v = data[i];
            let h: usize = if v > 0 {
                proof {
                    lemma_seq_max_bound(data@);
                }
                v as usize
            } else {
                0
            };
            let marked = markers.len() == data.len() && i < markers.len() && markers[i];
            let c: char;
            if marked && h > 0 && row == max_h - h {
                c = '-';
            } else if h >= max_h - row {
                c = '█';
            } else {
                c = ' ';
            }
            push_char(&mut line, c);
            i += 1;
            proof {
                assert(line@ =~= Seq::new(
                    i as nat,
                    |m: int| graph_cell(data@, markers@, max_h as int, row as int, m),
                ));
            }
        }
        rows.push(line);
        row += 1;
        proof {
            let g = graph_grid(data@, markers@, max_h as int);
            assert(g[row - 1] =~= line@);
            assert(g.take(row as int) =~= g.take(row - 1).push(g[row - 1]));
            assert(rows@.map_values(|l: String| l@) =~= g.take(row as int));
        }
    }
    proof {
        let g = graph_grid(data@, markers@, max_h as int);
        assert(g.take(g.len() as int) =~= g);
    }
    rows
}

/// The spec maximum is attained (unless it is the empty default).
proof fn lemma_seq_max_witness(s: Seq<i32>)
    requires
        s.len() > 0,
    ensures
        seq_max_or0(s) == 0 || exists|w: int| 0 <= w < s.len() && #[trigger] s[w] as int == seq_max_or0(s),
    decreases s.len(),
{
    if s.len() == 1 {
        assert(s.drop_last().len() == 0);
        assert(seq_max_or0(s.drop_last()) == 0);
        assert(s.last() == s[0]);
        if s[0] > 0 {
            assert(s[0] as int == seq_max_or0(s));
        }
    } else {
        let t = s.drop_last();
        lemma_seq_max_witness(t);
        if s.last() as int > seq_max_or0(t) {
            assert(s[s.len() - 1] as int == seq_max_or0(s));
        } else if seq_max_or0(s) != 0 {
            let w = choose|w: int| 0 <= w < t.len() && #[trigger] t[w] as int == seq_max_or0(t);
            assert(s[w] as int == seq_max_or0(s));
        }
    }
}

} // verus!
