//! Traces of a spectrum analyser, turned into the spectrum and the waterfall.

use crate::level::Level;
use crate::signal::stats;
use crate::signal::stats::Share;
use crate::state::waterfall;
use crate::state::waterfall::{BinAxis, FftFrame, WaterfallState};
use crate::text;
use vstd::prelude::*;

verus! {

/// How much of a new trace the average takes.
pub const EMA_NUM: u32 = 1;

pub const EMA_DEN: u32 = 5;

/// How fast a peak falls, in micro-decibels a trace.
pub const PEAK_DECAY: u32 = 500_000;

/// At most one rejection is reported in this time.
pub const REJECTION_REPORT_INTERVAL_MS: u64 = 5_000;

/// A trace as a device delivers it.
pub struct PowerTrace {
    pub frequencies_hz: Vec<u64>,
    pub levels: Vec<Level>,
    pub rbw_hz: Option<u32>,
}

/// Why a trace was not shown.
#[derive(Clone, Copy, Debug, PartialEq, Eq, Structural)]
pub enum TraceRejection {
    Empty,
    LengthMismatch,
    NonUniformGrid,
}

impl TraceRejection {
    pub open spec fn words(self) -> Seq<char> {
        match self {
            TraceRejection::Empty => "empty trace"@,
            TraceRejection::LengthMismatch => "frequency and level counts differ"@,
            TraceRejection::NonUniformGrid => "frequency grid is not uniform and ascending"@,
        }
    }

    pub fn message(self) -> (t: &'static str)
        ensures
            t@ == self.words(),
    {
        match self {
            TraceRejection::Empty => "empty trace",
            TraceRejection::LengthMismatch => "frequency and level counts differ",
            TraceRejection::NonUniformGrid => "frequency grid is not uniform and ascending",
        }
    }
}

/// Reports rejections, and not too many of them.
#[derive(Clone, Copy, Debug, PartialEq, Eq, Structural)]
pub struct RejectionReporter {
    pub last_report_ms: Option<u64>,
    pub suppressed: usize,
}

impl Default for RejectionReporter {
    fn default() -> (r: Self)
        ensures
            r.last_report_ms is None && r.suppressed == 0,
    {
        RejectionReporter { last_report_ms: None, suppressed: 0 }
    }
}

/// What a report says of the rejections it stands for.
pub open spec fn suffix(suppressed: usize) -> Seq<char> {
    if suppressed == 0 {
        Seq::empty()
    } else if suppressed == 1 {
        "; 1 additional trace rejected"@
    } else {
        "; "@ + text::decimal(suppressed as nat) + " additional traces rejected"@
    }
}

impl RejectionReporter {
    /// Whether a rejection is reported now.
    pub open spec fn due(self, now_ms: u64) -> bool {
        match self.last_report_ms {
            Some(last) => now_ms - last >= REJECTION_REPORT_INTERVAL_MS,
            None => true,
        }
    }

    /// Reports a rejection, or only counts it.
    pub fn report(&mut self, reason: TraceRejection, now_ms: u64) -> (line: Option<String>)
        requires
            old(self).suppressed < usize::MAX,
        ensures
            match line {
                Some(t) => {
                    &&& old(self).due(now_ms)
                    &&& t@ == "Power trace rejected: "@ + reason.words() + suffix(
                        old(self).suppressed,
                    )
                    &&& *final(self) == (RejectionReporter {
                        last_report_ms: Some(now_ms),
                        suppressed: 0,
                    })
                },
                None => {
                    &&& !old(self).due(now_ms)
                    &&& *final(self) == (RejectionReporter {
                        suppressed: (old(self).suppressed + 1) as usize,
                        ..*old(self)
                    })
                },
            },
    {
        let due = match self.last_report_ms {
            Some(last) => now_ms >= last && now_ms - last >= REJECTION_REPORT_INTERVAL_MS,
            None => true,
        };
        if !due {
            self.suppressed = self.suppressed + 1;
            return None;
        }
        let mut t: Vec<char> = Vec::new();
        text::push_str(&mut t, "Power trace rejected: ");
        text::push_str(&mut t, reason.message());
        if self.suppressed == 1 {
            text::push_str(&mut t, "; 1 additional trace rejected");
        } else if self.suppressed > 1 {
            text::push_str(&mut t, "; ");
            text::push_decimal(&mut t, self.suppressed as u64);
            text::push_str(&mut t, " additional traces rejected");
        }
        assert(t@ == "Power trace rejected: "@ + reason.words() + suffix(self.suppressed));
        self.last_report_ms = Some(now_ms);
        self.suppressed = 0;
        Some(text::from_chars(t.as_slice()))
    }
}

/// Whether frequencies ascend in steps that differ by no more than whole hertz
/// force them to.
pub open spec fn uniform(f: Seq<u64>) -> bool {
    let n = f.len() - 1;
    let span = f[n] - f[0];
    &&& n > 0
    &&& span > 0
    &&& forall|i: int|
        0 < i < f.len() ==> {
            let step = #[trigger] f[i] - f[i - 1];
            step > 0 && span / n <= step && step <= (span + n - 1) / n
        }
}

/// The centre and the width of a uniform grid. The points of the grid lie on its
/// edges.
pub fn trace_window(frequencies_hz: &[u64]) -> (r: Option<(u64, u64)>)
    ensures
        match r {
            Some((centre, span)) => {
                let f = frequencies_hz@;
                &&& uniform(f)
                &&& span == f[f.len() - 1] - f[0]
                &&& centre == f[0] + span / 2
            },
            None => !uniform(frequencies_hz@),
        },
{
    if frequencies_hz.len() < 2 {
        return None;
    }
    let n: u64 = (frequencies_hz.len() - 1) as u64;
    let start: u64 = frequencies_hz[0];
    let stop: u64 = frequencies_hz[frequencies_hz.len() - 1];
    if stop <= start {
        return None;
    }
    let span: u64 = stop - start;
    let low: u64 = span / n;
    let high: u64 = ((span as u128 + n as u128 - 1) / (n as u128)) as u64;
    proof {
        assert((span + n - 1) / (n as int) <= span) by (nonlinear_arith)
            requires
                0 < span,
                0 < n,
        ;
        assert(0 <= (span + n - 1) / (n as int)) by (nonlinear_arith)
            requires
                0 < span,
                0 < n,
        ;
    }
    let mut i: usize = 1;
    while i < frequencies_hz.len()
        invariant
            1 <= i <= frequencies_hz@.len(),
            forall|k: int|
                0 < k < i ==> {
                    let step = #[trigger] frequencies_hz@[k] - frequencies_hz@[k - 1];
                    step > 0 && low <= step && step <= high
                },
            n == frequencies_hz@.len() - 1,
            n > 0,
            span == frequencies_hz@[n as int] - frequencies_hz@[0],
            span > 0,
            low == span / n,
            high == (span + n - 1) / (n as int),
        decreases frequencies_hz@.len() - i,
    {
        let a: u64 = frequencies_hz[i - 1];
        let b: u64 = frequencies_hz[i];
        if b <= a || b - a < low || b - a > high {
            assert(!uniform(frequencies_hz@)) by {
                let step = frequencies_hz@[i as int] - frequencies_hz@[i - 1];
                assert(!(step > 0 && low <= step && step <= high));
            }
            return None;
        }
        i += 1;
    }
    Some((start + span / 2, span))
}

/// What is shown of a spectrum beyond its levels.
pub open spec fn prominence(smoothed: Seq<Level>) -> int {
    match (stats::strongest_of(smoothed), stats::quiet_mean(smoothed, 10)) {
        (Some(top), Some(floor)) => top - floor,
        _ => 0,
    }
}

/// Traces averaged over time.
pub struct SpectrumAccumulator {
    pub start_hz: u64,
    pub stop_hz: u64,
    pub rbw_hz: Option<u32>,
    pub smoothed: Vec<Level>,
    pub peak: Vec<Level>,
}

impl Default for SpectrumAccumulator {
    fn default() -> (a: Self)
        ensures
            a.valid(),
            a.smoothed@.len() == 0,
            a.start_hz == 0 && a.stop_hz == 0 && a.rbw_hz is None,
    {
        SpectrumAccumulator {
            start_hz: 0,
            stop_hz: 0,
            rbw_hz: None,
            smoothed: Vec::new(),
            peak: Vec::new(),
        }
    }
}

/// Why a trace is not shown.
pub open spec fn rejection(trace: PowerTrace) -> Option<TraceRejection> {
    if trace.frequencies_hz@.len() == 0 {
        Some(TraceRejection::Empty)
    } else if trace.frequencies_hz@.len() != trace.levels@.len() {
        Some(TraceRejection::LengthMismatch)
    } else if !uniform(trace.frequencies_hz@) {
        Some(TraceRejection::NonUniformGrid)
    } else {
        None
    }
}

/// Levels that stand for nothing measured.
fn unavailable(n: usize) -> (v: Vec<Level>)
    ensures
        v@.len() == n,
{
    let mut v: Vec<Level> = Vec::new();
    let mut i: usize = 0;
    while i < n
        invariant
            i <= n,
            v@.len() == i,
        decreases n - i,
    {
        v.push(None);
        i += 1;
    }
    v
}

impl SpectrumAccumulator {
    pub open spec fn valid(self) -> bool {
        self.peak@.len() == self.smoothed@.len()
    }

    /// Whether a trace cannot be averaged with those before it.
    pub open spec fn resets(self, trace: PowerTrace) -> bool {
        let f = trace.frequencies_hz@;
        self.start_hz != f[0] || self.stop_hz != f[f.len() - 1] || self.rbw_hz != trace.rbw_hz
            || self.smoothed@.len() != trace.levels@.len()
    }

    /// A bin of the average after a trace.
    pub open spec fn smoothed_after(self, trace: PowerTrace, i: int) -> Level {
        stats::ema(
            stats::history(self.smoothed@[i], !self.resets(trace)),
            trace.levels@[i],
            Share { num: 1, den: 5 },
        )
    }

    /// A bin of the peaks after a trace.
    pub open spec fn peak_after(self, trace: PowerTrace, i: int) -> Level {
        crate::level::higher(
            stats::decayed(stats::history(self.peak@[i], !self.resets(trace)), PEAK_DECAY),
            self.smoothed_after(trace, i),
        )
    }

    /// Whether the average is the one after a trace.
    pub open spec fn follows(self, before: SpectrumAccumulator, trace: PowerTrace) -> bool {
        let f = trace.frequencies_hz@;
        &&& self.start_hz == f[0]
        &&& self.stop_hz == f[f.len() - 1]
        &&& self.rbw_hz == trace.rbw_hz
        &&& self.smoothed@.len() == trace.levels@.len()
        &&& self.peak@.len() == trace.levels@.len()
        &&& forall|i: int|
            0 <= i < trace.levels@.len() ==> #[trigger] self.smoothed@[i] == before.smoothed_after(
                trace,
                i,
            )
        &&& forall|i: int|
            0 <= i < trace.levels@.len() ==> #[trigger] self.peak@[i] == before.peak_after(trace, i)
    }

    /// Whether a frame shows the average.
    pub open spec fn shown_by(self, frame: FftFrame, now_ms: u64) -> bool {
        let span = self.stop_hz - self.start_hz;
        &&& frame.bins@ == self.smoothed@
        &&& frame.peak_hold@ == self.peak@
        &&& frame.noise_floor == stats::quiet_mean(self.smoothed@, 10)
        &&& frame.center_freq_hz == self.start_hz + span / 2
        &&& frame.axis_start_half_hz == 2 * self.start_hz
        &&& frame.sample_rate_hz == span
        &&& frame.timestamp_ms == now_ms
        &&& frame.peak_to_nf == prominence(self.smoothed@)
        &&& frame.channel_power is None
        &&& frame.occupied_bw_hz == 0
        &&& frame.enbw_hz == match self.rbw_hz {
            Some(hz) => hz as u64,
            None => 0,
        }
        &&& frame.bin_axis == BinAxis::MeasuredPoints
    }

    /// Averages a trace, adds it to the waterfall and shows it. A trace over
    /// another band, of another resolution or of another length starts the
    /// average again. A trace that is not shown changes nothing.
    pub fn publish(&mut self, view: &mut WaterfallState, trace: &PowerTrace, now_ms: u64) -> (r: Result<
        i128,
        TraceRejection,
    >)
        requires
            old(self).valid(),
            old(view).buffer.valid(),
            forall|i: int|
                0 <= i < trace.frequencies_hz@.len() ==> #[trigger] trace.frequencies_hz@[i]
                    <= 0x3fff_ffff_ffff_ffff,
        ensures
            final(self).valid(),
            final(view).buffer.valid(),
            match r {
                Err(reason) => {
                    &&& rejection(*trace) == Some(reason)
                    &&& *final(self) == *old(self)
                    &&& *final(view) == *old(view)
                },
                Ok(p) => {
                    &&& rejection(*trace) is None
                    &&& final(self).follows(*old(self), *trace)
                    &&& p == prominence(final(self).smoothed@)
                    &&& final(view).last_fft matches Some(frame)
                    &&& final(self).shown_by(frame, now_ms)
                    &&& final(view).db_min == old(view).db_min
                    &&& final(view).db_max == old(view).db_max
                    &&& final(view).scroll_offset == old(view).scroll_offset
                    &&& final(view).cursor_freq == old(view).cursor_freq
                    &&& final(view).hz_zoom == old(view).hz_zoom
                    &&& final(view).palette == old(view).palette
                    &&& final(view).buffer.after_push(
                        old(view).buffer,
                        final(self).smoothed@,
                        now_ms,
                    )
                },
            },
    {
        if trace.frequencies_hz.len() == 0 {
            return Err(TraceRejection::Empty);
        }
        if trace.frequencies_hz.len() != trace.levels.len() {
            return Err(TraceRejection::LengthMismatch);
        }
        let (centre, span): (u64, u64) = match trace_window(trace.frequencies_hz.as_slice()) {
            Some(w) => w,
            None => return Err(TraceRejection::NonUniformGrid),
        };
        let ghost before = *self;
        let start: u64 = trace.frequencies_hz[0];
        let stop: u64 = trace.frequencies_hz[trace.frequencies_hz.len() - 1];
        let reset = self.start_hz != start || self.stop_hz != stop || self.rbw_hz != trace.rbw_hz
            || self.smoothed.len() != trace.levels.len();
        if reset {
            self.start_hz = start;
            self.stop_hz = stop;
            self.rbw_hz = trace.rbw_hz;
            self.smoothed = unavailable(trace.levels.len());
            self.peak = unavailable(trace.levels.len());
        }
        stats::average_and_peak(
            trace.levels.as_slice(),
            &mut self.smoothed,
            &mut self.peak,
            Share { num: EMA_NUM, den: EMA_DEN },
            PEAK_DECAY,
            !reset,
        );
        assert(self.follows(before, *trace)) by {
            assert forall|i: int| 0 <= i < trace.levels@.len() implies #[trigger] self.smoothed@[i]
                == before.smoothed_after(*trace, i) by {}
            assert forall|i: int| 0 <= i < trace.levels@.len() implies #[trigger] self.peak@[i]
                == before.peak_after(*trace, i) by {
                assert(self.smoothed@[i] == before.smoothed_after(*trace, i));
            }
        }
        let noise_floor: Level = stats::quietest_mean(self.smoothed.as_slice(), 10);
        let top: Level = stats::strongest(self.smoothed.as_slice());
        let prominent: i128 = match (top, noise_floor) {
            (Some(t), Some(f)) => t as i128 - f as i128,
            _ => 0,
        };
        view.buffer.push(self.smoothed.as_slice(), now_ms);
        let frame = FftFrame {
            bins: waterfall::copied_levels(self.smoothed.as_slice()),
            peak_hold: waterfall::copied_levels(self.peak.as_slice()),
            noise_floor,
            center_freq_hz: centre,
            axis_start_half_hz: 2 * (start as i64),
            sample_rate_hz: span as i64,
            timestamp_ms: now_ms,
            peak_to_nf: prominent,
            channel_power: None,
            occupied_bw_hz: 0,
            enbw_hz: match trace.rbw_hz {
                Some(hz) => hz as u64,
                None => 0,
            },
            bin_axis: BinAxis::MeasuredPoints,
        };
        view.last_fft = Some(frame);
        Ok(prominent)
    }
}

/// A bin that could not be measured comes back with its first measurement.
pub proof fn law_a_measurement_recovers_a_bin(
    a: SpectrumAccumulator,
    trace: PowerTrace,
    i: int,
    level: i64,
)
    requires
        0 <= i < trace.levels@.len(),
        a.smoothed@[i] is None,
        trace.levels@[i] == Some(level),
    ensures
        a.smoothed_after(trace, i) == Some(level),
{
}

/// The peaks a frame shows never lie below its average.
pub proof fn law_shown_peaks_stay_above(a: SpectrumAccumulator, trace: PowerTrace, i: int)
    ensures
        !crate::level::below(a.peak_after(trace, i), a.smoothed_after(trace, i)),
{
    stats::law_peak_stays_above(
        stats::history(a.peak@[i], !a.resets(trace)),
        a.smoothed_after(trace, i),
        PEAK_DECAY,
    );
}

/// A trace over another band, with another resolution or of another length than the one
/// before it starts again: its levels are the average and the peaks, bin by bin, whatever
/// was averaged before.
pub proof fn law_another_band_starts_the_average_again(
    before: SpectrumAccumulator,
    first: PowerTrace,
    between: SpectrumAccumulator,
    second: PowerTrace,
    after: SpectrumAccumulator,
    i: int,
)
    requires
        rejection(first) is None,
        rejection(second) is None,
        between.follows(before, first),
        after.follows(between, second),
        first.frequencies_hz@[0] != second.frequencies_hz@[0]
            || first.frequencies_hz@.last() != second.frequencies_hz@.last()
            || first.rbw_hz != second.rbw_hz
            || first.levels@.len() != second.levels@.len(),
        0 <= i < second.levels@.len(),
    ensures
        after.smoothed@.len() == second.levels@.len(),
        after.peak@.len() == second.levels@.len(),
        after.smoothed@[i] == second.levels@[i],
        after.peak@[i] == second.levels@[i],
{
    assert(after.smoothed@[i] == between.smoothed_after(second, i));
    assert(after.peak@[i] == between.peak_after(second, i));
}

/// A trace over the same band, with the same resolution and length moves the average a
/// fifth of the way towards it, to the nearest micro-decibel, and the peak falls half a
/// decibel but not below the average. A bin with one measurement keeps it.
pub proof fn law_the_same_band_is_averaged(
    before: SpectrumAccumulator,
    first: PowerTrace,
    between: SpectrumAccumulator,
    second: PowerTrace,
    after: SpectrumAccumulator,
    i: int,
)
    requires
        rejection(first) is None,
        rejection(second) is None,
        between.follows(before, first),
        after.follows(between, second),
        first.frequencies_hz@[0] == second.frequencies_hz@[0],
        first.frequencies_hz@.last() == second.frequencies_hz@.last(),
        first.rbw_hz == second.rbw_hz,
        first.levels@.len() == second.levels@.len(),
        0 <= i < second.levels@.len(),
    ensures
        match (between.smoothed@[i], second.levels@[i]) {
            (Some(p), Some(s)) => {
                &&& after.smoothed@[i] matches Some(e)
                &&& -5 <= 2 * (5 * e - (4 * p + s)) <= 5
                &&& (p <= e <= s || s <= e <= p)
            },
            (None, Some(s)) => after.smoothed@[i] == Some(s),
            (Some(p), None) => after.smoothed@[i] == Some(p),
            (None, None) => after.smoothed@[i] is None,
        },
        match (between.peak@[i], after.smoothed@[i]) {
            (Some(held), Some(e)) => {
                &&& after.peak@[i] matches Some(top)
                &&& top >= e && top >= held - 500_000
                &&& top == e || top == held - 500_000 || top == i64::MIN
            },
            (None, _) => after.peak@[i] == after.smoothed@[i],
            (Some(held), None) => after.peak@[i] matches Some(top) && top >= held - 500_000 && (
            top == held - 500_000 || top == i64::MIN),
        },
{
    assert(after.smoothed@[i] == between.smoothed_after(second, i));
    assert(after.peak@[i] == between.peak_after(second, i));
    if let (Some(p), Some(s)) = (between.smoothed@[i], second.levels@[i]) {
        stats::law_ema_lies_between(p, s, Share { num: 1, den: 5 });
        crate::level::law_rounded_is_nearest(1 * s + (5 - 1) * p, 5);
    }
}

/// The first trace of all is shown as it is.
pub proof fn law_the_first_trace_is_shown_as_it_is(
    before: SpectrumAccumulator,
    trace: PowerTrace,
    after: SpectrumAccumulator,
    i: int,
)
    requires
        before.smoothed@.len() == 0,
        rejection(trace) is None,
        after.follows(before, trace),
        0 <= i < trace.levels@.len(),
    ensures
        after.smoothed@[i] == trace.levels@[i],
        after.peak@[i] == trace.levels@[i],
{
    assert(after.smoothed@[i] == before.smoothed_after(trace, i));
    assert(after.peak@[i] == before.peak_after(trace, i));
}

/// A frame that shows a trace spans it from its first frequency to its last: its axis
/// starts at the first, it is as wide as they lie apart, and it is centred halfway. Its
/// bins are points that were measured.
pub proof fn law_a_frame_spans_its_trace(
    before: SpectrumAccumulator,
    trace: PowerTrace,
    after: SpectrumAccumulator,
    frame: FftFrame,
    now_ms: u64,
)
    requires
        rejection(trace) is None,
        after.follows(before, trace),
        after.shown_by(frame, now_ms),
    ensures
        ({
            let first = trace.frequencies_hz@[0] as int;
            let last = trace.frequencies_hz@.last() as int;
            &&& first < last
            &&& frame.axis_start_half_hz == 2 * first
            &&& frame.sample_rate_hz == last - first
            &&& 0 <= first + last - 2 * frame.center_freq_hz <= 1
            &&& frame.bins@.len() == trace.levels@.len()
            &&& frame.peak_hold@.len() == trace.levels@.len()
            &&& frame.timestamp_ms == now_ms
            &&& frame.bin_axis == BinAxis::MeasuredPoints
            &&& trace.rbw_hz matches Some(hz) ==> frame.enbw_hz == hz
            &&& trace.rbw_hz is None ==> frame.enbw_hz == 0
        }),
{
}

/// A frame tells how far its strongest bin stands above its noise floor.
pub proof fn law_a_frame_tells_its_prominence(
    after: SpectrumAccumulator,
    frame: FftFrame,
    now_ms: u64,
    i: int,
)
    requires
        after.shown_by(frame, now_ms),
        0 <= i < frame.bins@.len(),
        frame.bins@[i] is Some,
    ensures
        frame.noise_floor matches Some(floor) && frame.peak_to_nf >= frame.bins@[i]->Some_0 - floor
            && frame.peak_to_nf >= 0 && exists|k: int|
            0 <= k < frame.bins@.len() && (#[trigger] frame.bins@[k] matches Some(top)
                && frame.peak_to_nf == top - floor),
{
    let values = after.smoothed@;
    stats::law_strongest_is_strongest(values);
    assert(!crate::level::below(stats::strongest_of(values), values[i]));
    let top = stats::strongest_of(values);
    let k = choose|k: int| 0 <= k < values.len() && values[k] == top;
    assert(frame.bins@[k] == top);
    stats::law_quiet_mean_is_no_higher_than_the_strongest(values, 10, i);
}

/// A trace is shown where it has a level for every frequency, at least two of them, and
/// its frequencies ascend in steps that differ by no more than a hertz.
pub proof fn law_an_even_trace_is_shown(trace: PowerTrace, i: int, j: int)
    requires
        0 < i < trace.frequencies_hz@.len(),
        0 < j < trace.frequencies_hz@.len(),
    ensures
        rejection(trace) is None ==> {
            let f = trace.frequencies_hz@;
            &&& f.len() == trace.levels@.len()
            &&& f[i] > f[i - 1]
            &&& (f[i] - f[i - 1]) - (f[j] - f[j - 1]) <= 1
        },
{
    if rejection(trace) is None {
        let f = trace.frequencies_hz@;
        let n = f.len() - 1;
        let span = f[n] - f[0];
        vstd::arithmetic::div_mod::lemma_div_is_ordered(span + n - 1, span + n, n);
        vstd::arithmetic::div_mod::lemma_div_plus_one(span, n);
        assert(f[i] - f[i - 1] <= (span + n - 1) / n);
        assert(f[j] - f[j - 1] >= span / n);
    }
}

/// What is wrong with a trace that is not shown: it is empty, or it has not a level for
/// every frequency, or it is a single point.
pub proof fn law_every_rejection_has_its_reason(trace: PowerTrace)
    ensures
        trace.frequencies_hz@.len() == 0 <==> rejection(trace) == Some(TraceRejection::Empty),
        trace.frequencies_hz@.len() > 0 && trace.frequencies_hz@.len() != trace.levels@.len()
            <==> rejection(trace) == Some(TraceRejection::LengthMismatch),
        trace.frequencies_hz@.len() == 1 ==> rejection(trace) is Some,
{
}

/// A trace whose frequencies are all one step apart is shown.
pub proof fn law_a_trace_of_equal_steps_is_shown(trace: PowerTrace, step: int)
    requires
        trace.frequencies_hz@.len() >= 2,
        trace.frequencies_hz@.len() == trace.levels@.len(),
        step > 0,
        forall|i: int|
            0 < i < trace.frequencies_hz@.len() ==> #[trigger] trace.frequencies_hz@[i]
                == trace.frequencies_hz@[0] + i * step,
    ensures
        rejection(trace) is None,
{
    let f = trace.frequencies_hz@;
    let n = f.len() - 1;
    let span = f[n] - f[0];
    assert(span == n * step);
    assert(span / n == step && (span + n - 1) / n == step && span > 0) by (nonlinear_arith)
        requires
            span == n * step,
            n > 0,
            step > 0,
    ;
    assert forall|i: int| 0 < i < f.len() implies ({
        let d = #[trigger] f[i] - f[i - 1];
        d > 0 && span / n <= d && d <= (span + n - 1) / n
    }) by {
        if i == 1 {
            assert(1 * step == step);
        } else {
            assert(f[i - 1] == f[0] + (i - 1) * step);
            assert((i - 1) * step == i * step - step) by (nonlinear_arith);
        }
    }
}

/// A rejection is reported at once where none was within five seconds, and otherwise
/// waits.
pub proof fn law_reports_are_five_seconds_apart(r: RejectionReporter, now_ms: u64)
    ensures
        r.last_report_ms is None ==> r.due(now_ms),
        r.last_report_ms matches Some(last) ==> (r.due(now_ms) <==> now_ms >= last + 5_000),
{
}

/// A frame in which nothing was measured stands out by nothing.
pub proof fn law_without_a_level_nothing_stands_out(
    after: SpectrumAccumulator,
    frame: FftFrame,
    now_ms: u64,
)
    requires
        after.shown_by(frame, now_ms),
        forall|i: int| 0 <= i < frame.bins@.len() ==> #[trigger] frame.bins@[i] is None,
    ensures
        frame.peak_to_nf == 0,
{
    let values = after.smoothed@;
    if values.len() > 0 {
        stats::law_strongest_is_strongest(values);
        let top = stats::strongest_of(values);
        let k = choose|k: int| 0 <= k < values.len() && values[k] == top;
        assert(frame.bins@[k] is None);
    }
}

/// A report tells how many rejections it stands for, and says nothing where it stands for
/// none but its own.
pub proof fn law_a_report_tells_how_many_it_stands_for(suppressed: usize)
    ensures
        suppressed == 0 <==> suffix(suppressed).len() == 0,
        suppressed > 0 ==> {
            let count = text::decimal(suppressed as nat);
            &&& suffix(suppressed).len() > 2 + count.len()
            &&& suffix(suppressed).subrange(2, 2 + count.len() as int) == count
            &&& suffix(suppressed)[2 + count.len() as int] == ' '
        },
{
    reveal_strlit("; 1 additional trace rejected");
    reveal_strlit("; ");
    reveal_strlit(" additional traces rejected");
    let count = text::decimal(suppressed as nat);
    if suppressed == 1 {
        assert(count == seq!['1']) by {
            assert(text::digit(1) == '1');
        }
        assert(suffix(suppressed).subrange(2, 3) == count);
    } else if suppressed > 1 {
        assert(suffix(suppressed).subrange(2, 2 + count.len() as int) == count);
    }
}

} // verus!
