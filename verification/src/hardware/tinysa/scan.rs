//! What a scan covers, how long it may stay silent, and the grid its levels are
//! shown on.

use crate::hardware::tinysa::input::{BasicInput, MIN_FREQUENCY_HZ};
use crate::hardware::tinysa::protocol::Model;
use crate::hardware::{
    AcquisitionKind, Boost, DeliveryModel, DeviceCapabilities, DirectSweepConfig, GainModel,
    LevelUnit, SampleFormat, SampleGeometry,
};
use crate::text;
use vstd::prelude::*;

verus! {

/// Where an analyser is tuned when it is opened, and how far it looks.
pub const DEFAULT_FREQUENCY_HZ: u64 = 100_000_000;

pub const DEFAULT_SPAN_HZ: u64 = 10_000_000;

/// How many points a scan measures.
pub const DEFAULT_POINTS: u32 = 450;

/// How long the shell may stay silent before a reply is given up.
pub const RESPONSE_TIMEOUT_MS: u64 = 5_000;

/// How the analyser suppresses its own spurious signals.
#[derive(Clone, Copy, Debug, PartialEq, Eq, Structural)]
pub enum SpurMode {
    On,
    Auto,
}

/// What a scan is run with. A missing bandwidth is chosen by the analyser.
#[derive(Clone, Copy, Debug, PartialEq, Eq, Structural)]
pub struct ScanSettings {
    pub points: u32,
    pub rbw_hz: Option<u32>,
    pub spur: SpurMode,
}

/// One stretch of the spectrum to scan.
#[derive(Clone, Copy, Debug, PartialEq, Eq, Structural)]
pub struct Segment {
    pub start_hz: u64,
    pub stop_hz: u64,
    pub points: u32,
}

/// The frequencies a model measures: the whole model for an Ultra, the chosen
/// connector for the basic one.
pub open spec fn range_of(model: Model, input: BasicInput) -> (u64, u64) {
    if model.ultra() {
        (MIN_FREQUENCY_HZ, model.max_hz())
    } else {
        input.limits()
    }
}

/// The lowest and the highest frequency that can be measured.
pub fn frequency_range(model: Model, basic_input: BasicInput) -> (r: (u64, u64))
    ensures
        r == range_of(model, basic_input),
{
    if model.is_ultra() {
        (MIN_FREQUENCY_HZ, model.maximum_hz())
    } else {
        basic_input.range()
    }
}

/// A value moved into a range.
pub open spec fn clamped(value: int, low: int, high: int) -> int {
    if value < low {
        low
    } else if value > high {
        high
    } else {
        value
    }
}

/// A frequency moved into a range.
pub fn clamp_hz(value: u64, low: u64, high: u64) -> (r: u64)
    requires
        low <= high,
    ensures
        r == clamped(value as int, low as int, high as int),
        low <= r <= high,
{
    if value < low {
        low
    } else if value > high {
        high
    } else {
        value
    }
}

/// Where a scan is centred before anybody tunes.
pub fn default_frequency(model: Model, basic_input: BasicInput) -> (hz: u64)
    ensures
        hz == clamped(
            DEFAULT_FREQUENCY_HZ as int,
            range_of(model, basic_input).0 as int,
            range_of(model, basic_input).1 as int,
        ),
{
    let (minimum_hz, maximum_hz): (u64, u64) = frequency_range(model, basic_input);
    clamp_hz(DEFAULT_FREQUENCY_HZ, minimum_hz, maximum_hz)
}

/// The lower of two numbers.
pub open spec fn lesser(a: int, b: int) -> int {
    if a < b {
        a
    } else {
        b
    }
}

/// The window of the wanted span that lies inside the range and is centred as
/// near as possible to the wanted frequency.
pub open spec fn window_start(center: int, span: int, low: int, high: int) -> int {
    let width = lesser(span, high - low);
    clamped(center - width / 2, low, high - width)
}

/// The window to scan: as wide as asked for where the range allows it, centred
/// where asked for where that stays inside the range.
pub fn centered_window(center_hz: u64, span_hz: u64, minimum_hz: u64, maximum_hz: u64) -> (r: (
    u64,
    u64,
))
    requires
        minimum_hz <= maximum_hz,
    ensures
        r.0 == window_start(
            center_hz as int,
            span_hz as int,
            minimum_hz as int,
            maximum_hz as int,
        ),
        r.1 == r.0 + lesser(span_hz as int, maximum_hz - minimum_hz),
        minimum_hz <= r.0 <= r.1 <= maximum_hz,
{
    let width: u64 = if span_hz < maximum_hz - minimum_hz {
        span_hz
    } else {
        maximum_hz - minimum_hz
    };
    let half: u64 = width / 2;
    let wanted: u64 = if center_hz >= half {
        center_hz - half
    } else {
        0
    };
    let start_hz: u64 = clamp_hz(wanted, minimum_hz, maximum_hz - width);
    (start_hz, start_hz + width)
}

/// The middle of a window.
pub open spec fn center_of(start: int, stop: int) -> int {
    start + (stop - start) / 2
}

/// The middle of a window, rounded down.
pub fn window_center(start_hz: u64, stop_hz: u64) -> (hz: u64)
    requires
        start_hz <= stop_hz,
    ensures
        hz == center_of(start_hz as int, stop_hz as int),
        start_hz <= hz <= stop_hz,
{
    start_hz + (stop_hz - start_hz) / 2
}

/// A window that fits the range around its own centre stays where it is when it
/// is asked for again.
pub proof fn law_window_is_stable(center: int, span: int, low: int, high: int)
    requires
        0 <= low <= high,
        0 <= span,
    ensures
        ({
            let start = window_start(center, span, low, high);
            let width = lesser(span, high - low);
            window_start(center_of(start, start + width), width, low, high) == start
        }),
{
}

/// A window keeps the wanted span and centre wherever the range has room for both.
pub proof fn law_window_keeps_what_fits(center: int, span: int, low: int, high: int)
    requires
        0 <= low <= high,
        0 <= span <= high - low,
        low <= center - span / 2,
        center - span / 2 + span <= high,
    ensures
        window_start(center, span, low, high) == center - span / 2,
        center_of(center - span / 2, center - span / 2 + span) == center,
{
}

/// Why a span was refused.
#[derive(Clone, Copy, Debug, PartialEq, Eq, Structural)]
pub enum SpanError {
    NotPositive,
}

impl SpanError {
    /// The sentence shown for the error.
    pub fn message(self) -> (t: &'static str)
        ensures
            t@ == "tinySA span must be a positive finite value"@,
    {
        "tinySA span must be a positive finite value"
    }
}

/// The span a request in thousandths of a hertz is granted; `None` asks for no
/// finite span. The span is rounded to whole hertz and kept between one hertz a
/// point and the width of the range.
pub fn normalize_span(milli_hz: Option<i64>, maximum_hz: u64, points: u32) -> (r: Result<
    u64,
    SpanError,
>)
    requires
        points <= maximum_hz,
    ensures
        match milli_hz {
            Some(m) if m > 0 => r == Ok::<u64, SpanError>(
                clamped((m + 500) / 1000, points as int, maximum_hz as int) as u64,
            ),
            _ => r == Err::<u64, SpanError>(SpanError::NotPositive),
        },
{
    match milli_hz {
        None => Err(SpanError::NotPositive),
        Some(m) => {
            if m <= 0 {
                return Err(SpanError::NotPositive);
            }
            let rounded: u64 = (m as u64 + 500) / 1000;
            Ok(clamp_hz(rounded, points as u64, maximum_hz))
        },
    }
}

/// Why a direct sweep was refused.
#[derive(Clone, Copy, Debug, PartialEq, Eq, Structural)]
pub struct SweepRangeError {
    pub minimum_hz: u64,
    pub maximum_hz: u64,
}

impl SweepRangeError {
    /// The sentence shown for the error.
    pub fn message(self) -> (out: String)
        ensures
            out@ == "tinySA sweep must be within "@ + text::decimal(self.minimum_hz as nat) + ".."@
                + text::decimal(self.maximum_hz as nat) + " Hz with start below stop"@,
    {
        let mut t: Vec<char> = text::to_chars("tinySA sweep must be within ");
        text::push_decimal(&mut t, self.minimum_hz);
        text::push_str(&mut t, "..");
        text::push_decimal(&mut t, self.maximum_hz);
        text::push_str(&mut t, " Hz with start below stop");
        text::from_chars(t.as_slice())
    }
}

/// Whether a model can sweep a band.
pub open spec fn sweep_fits(config: DirectSweepConfig, model: Model) -> bool {
    MIN_FREQUENCY_HZ <= config.start_hz < config.stop_hz <= model.max_hz()
}

/// A sweep is granted when its limits are ordered and lie inside the model's range.
pub fn validate_direct_sweep(config: Option<DirectSweepConfig>, model: Model) -> (r: Result<
    (),
    SweepRangeError,
>)
    ensures
        r is Ok <==> (config matches Some(c) ==> sweep_fits(c, model)),
        r matches Err(e) ==> e == (SweepRangeError {
            minimum_hz: MIN_FREQUENCY_HZ,
            maximum_hz: model.max_hz(),
        }),
{
    match config {
        None => Ok(()),
        Some(c) => {
            if c.start_hz < MIN_FREQUENCY_HZ || c.stop_hz > model.maximum_hz() || c.start_hz
                >= c.stop_hz {
                Err(
                    SweepRangeError {
                        minimum_hz: MIN_FREQUENCY_HZ,
                        maximum_hz: model.maximum_hz(),
                    },
                )
            } else {
                Ok(())
            }
        },
    }
}

/// Why the measured frequencies cannot be shown.
#[derive(Clone, Copy, Debug, PartialEq, Eq, Structural)]
pub enum GridError {
    NoFrequencies,
    NotAscending,
    TooNarrow { points: usize },
}

impl GridError {
    pub open spec fn text(self) -> Seq<char> {
        match self {
            GridError::NoFrequencies => "tinySA scan returned no frequencies"@,
            GridError::NotAscending => "tinySA scan returned duplicate or descending frequencies"@,
            GridError::TooNarrow { points } => "tinySA scan span is too narrow for "@
                + text::decimal(points as nat) + " points"@,
        }
    }

    /// The sentence shown for the error.
    pub fn message(self) -> (out: String)
        ensures
            out@ == self.text(),
    {
        let mut t: Vec<char> = Vec::new();
        match self {
            GridError::NoFrequencies => text::push_str(
                &mut t,
                "tinySA scan returned no frequencies",
            ),
            GridError::NotAscending => text::push_str(
                &mut t,
                "tinySA scan returned duplicate or descending frequencies",
            ),
            GridError::TooNarrow { points } => {
                text::push_str(&mut t, "tinySA scan span is too narrow for ");
                text::push_decimal(&mut t, points as u64);
                text::push_str(&mut t, " points");
            },
        }
        assert(t@ == self.text());
        text::from_chars(t.as_slice())
    }
}

/// Whether each frequency lies above the one before it.
pub open spec fn ascending(f: Seq<u64>) -> bool {
    forall|i: int| 0 <= i < f.len() - 1 ==> #[trigger] f[i] < f[i + 1]
}

/// How far grid point `index` lies above the first, on an even grid of
/// `intervals` steps rounded to whole hertz.
pub open spec fn grid_offset(span: int, intervals: int, index: int) -> int {
    (span * index + intervals / 2) / intervals
}

/// An ascending run climbs at least one hertz a step.
proof fn lemma_ascending_span(f: Seq<u64>, n: int)
    requires
        ascending(f),
        0 <= n < f.len(),
    ensures
        f[0] + n <= f[n],
    decreases n,
{
    if n > 0 {
        lemma_ascending_span(f, n - 1);
        assert(f[n - 1] < f[n - 1 + 1]);
    }
}

/// The grid starts at the first frequency, ends at the last, and stays between.
proof fn lemma_grid_bounds(span: int, intervals: int, index: int)
    requires
        0 <= span,
        0 < intervals,
        0 <= index <= intervals,
    ensures
        0 <= grid_offset(span, intervals, index) <= span,
        grid_offset(span, intervals, 0) == 0,
        grid_offset(span, intervals, intervals) == span,
{
    let a = span * index + intervals / 2;
    assert(0 <= span * index <= span * intervals) by (nonlinear_arith)
        requires
            0 <= span,
            0 <= index <= intervals,
    ;
    vstd::arithmetic::div_mod::lemma_fundamental_div_mod(a, intervals);
    vstd::arithmetic::div_mod::lemma_mod_bound(a, intervals);
    let q = a / intervals;
    assert(q >= 0) by (nonlinear_arith)
        requires
            a == intervals * q + a % intervals,
            0 <= a,
            0 <= a % intervals < intervals,
            0 < intervals,
    ;
    assert(q <= span) by (nonlinear_arith)
        requires
            a == intervals * q + a % intervals,
            0 <= a % intervals,
            a <= span * intervals + intervals / 2,
            intervals / 2 < intervals,
            0 < intervals,
    ;
    assert((intervals / 2) / intervals == 0) by (nonlinear_arith)
        requires
            0 < intervals,
    ;
    assert(span * 0 == 0) by (nonlinear_arith);
    vstd::arithmetic::div_mod::lemma_div_multiples_vanish_fancy(span, intervals / 2, intervals);
    assert(span * intervals == intervals * span) by (nonlinear_arith);
}

/// Every step of the grid is the even step rounded down or rounded up.
pub proof fn law_grid_steps(span: int, intervals: int, index: int)
    requires
        0 <= span,
        0 < intervals,
        0 <= index < intervals,
    ensures
        ({
            let step = grid_offset(span, intervals, index + 1) - grid_offset(
                span,
                intervals,
                index,
            );
            step == span / intervals || (span % intervals != 0 && step == span / intervals + 1)
        }),
{
    let a = span * index + intervals / 2;
    let q = span / intervals;
    let r = span % intervals;
    vstd::arithmetic::div_mod::lemma_fundamental_div_mod(span, intervals);
    vstd::arithmetic::div_mod::lemma_mod_bound(span, intervals);
    assert(span * (index + 1) == span * index + span) by (nonlinear_arith);
    let b = a + span;
    vstd::arithmetic::div_mod::lemma_fundamental_div_mod(a, intervals);
    vstd::arithmetic::div_mod::lemma_mod_bound(a, intervals);
    vstd::arithmetic::div_mod::lemma_fundamental_div_mod(b, intervals);
    vstd::arithmetic::div_mod::lemma_mod_bound(b, intervals);
    let qa = a / intervals;
    let qb = b / intervals;
    let d = qb - qa - q;
    assert(intervals * d == (a % intervals) + r - (b % intervals)) by (nonlinear_arith)
        requires
            a == intervals * qa + a % intervals,
            b == intervals * qb + b % intervals,
            span == intervals * q + r,
            b == a + span,
            d == qb - qa - q,
    ;
    assert(0 <= d <= 1) by (nonlinear_arith)
        requires
            intervals * d == (a % intervals) + r - (b % intervals),
            0 <= a % intervals < intervals,
            0 <= b % intervals < intervals,
            0 <= r < intervals,
            0 < intervals,
    ;
    if r == 0 {
        assert(d == 0) by (nonlinear_arith)
            requires
                intervals * d == (a % intervals) - (b % intervals),
                0 <= a % intervals < intervals,
                0 <= b % intervals < intervals,
                0 < intervals,
                0 <= d <= 1,
        ;
    }
}

/// A grid over at least one hertz a step never repeats a frequency, and keeps
/// the ends of what was measured.
pub proof fn law_grid_keeps_ends_and_order(span: int, intervals: int, index: int)
    requires
        0 < intervals <= span,
        0 <= index < intervals,
    ensures
        grid_offset(span, intervals, 0) == 0,
        grid_offset(span, intervals, intervals) == span,
        grid_offset(span, intervals, index) < grid_offset(span, intervals, index + 1),
{
    lemma_grid_bounds(span, intervals, index);
    law_grid_steps(span, intervals, index);
    assert(span / intervals >= 1) by (nonlinear_arith)
        requires
            0 < intervals <= span,
    ;
}

/// The even grid the measured levels are shown on, with the ends that were measured.
pub fn display_frequencies(measured_hz: &[u64]) -> (r: Result<Vec<u64>, GridError>)
    ensures
        measured_hz@.len() == 0 <==> r matches Err(GridError::NoFrequencies),
        r matches Err(GridError::NotAscending) <==> measured_hz@.len() > 0 && !ascending(
            measured_hz@,
        ),
        measured_hz@.len() == 1 <==> r matches Err(GridError::TooNarrow { points: _ }),
        r matches Err(GridError::TooNarrow { points }) ==> points == 1,
        r matches Ok(out) ==> {
            let n = measured_hz@.len() - 1;
            let span = measured_hz@.last() - measured_hz@[0];
            &&& n <= span
            &&& out@.len() == measured_hz@.len()
            &&& forall|i: int|
                0 <= i <= n ==> #[trigger] out@[i] == measured_hz@[0] + grid_offset(span, n, i)
        },
{
    if measured_hz.len() == 0 {
        return Err(GridError::NoFrequencies);
    }
    let count: usize = measured_hz.len();
    let first: u64 = measured_hz[0];
    let last: u64 = measured_hz[count - 1];
    let mut i: usize = 0;
    while i < count - 1
        invariant
            i <= count - 1,
            count == measured_hz@.len(),
            count > 0,
            forall|k: int| 0 <= k < i ==> #[trigger] measured_hz@[k] < measured_hz@[k + 1],
        decreases count - i,
    {
        if measured_hz[i + 1] <= measured_hz[i] {
            assert(!(measured_hz@[i as int] < measured_hz@[i + 1]));
            return Err(GridError::NotAscending);
        }
        i += 1;
    }
    assert(ascending(measured_hz@));
    proof {
        lemma_ascending_span(measured_hz@, count - 1);
    }
    let intervals: u64 = (count - 1) as u64;
    let span: u64 = last - first;
    if intervals == 0 || span < intervals {
        return Err(GridError::TooNarrow { points: count });
    }
    let mut out: Vec<u64> = Vec::new();
    let mut index: usize = 0;
    while index < count
        invariant
            index <= count,
            count == measured_hz@.len(),
            intervals == count - 1,
            0 < intervals,
            first == measured_hz@[0],
            last == measured_hz@.last(),
            first + span == last,
            out@.len() == index,
            forall|k: int|
                0 <= k < index ==> #[trigger] out@[k] == first + grid_offset(
                    span as int,
                    intervals as int,
                    k,
                ),
        decreases count - index,
    {
        proof {
            lemma_grid_bounds(span as int, intervals as int, index as int);
            assert(0 <= span * index <= u64::MAX * u64::MAX) by (nonlinear_arith)
                requires
                    0 <= span <= u64::MAX,
                    0 <= index <= u64::MAX,
            ;
        }
        let offset: u128 = ((span as u128) * (index as u128) + (intervals as u128) / 2) / (
        intervals as u128);
        assert(offset == grid_offset(span as int, intervals as int, index as int));
        out.push(first + offset as u64);
        index += 1;
    }
    Ok(out)
}

/// The resolution bandwidth a scan runs at, in thousandths of a hertz: the one
/// set, or a fixed share of the span inside what the model can do.
pub open spec fn rbw_milli_hz(span_hz: int, model: Model, settings: ScanSettings) -> int {
    match settings.rbw_hz {
        Some(hz) => hz * 1000,
        None => if model.ultra() {
            clamped(span_hz * 7, 200_000, 850_000_000)
        } else {
            clamped(span_hz * 7, 3_000_000, 600_000_000)
        },
    }
}

/// Whether the analyser measures every point of a scan twice.
pub open spec fn measures_twice(segment: Segment, settings: ScanSettings) -> bool {
    (settings.spur == SpurMode::On && segment.stop_hz > 800_000_000) || settings.spur
        == SpurMode::Auto
}

/// A quotient rounded up.
pub open spec fn ceil_div(a: int, b: int) -> int {
    (a + b - 1) / b
}

/// How long a scan may stay silent, in milliseconds: what the analyser needs for
/// twenty points and one second more, and never less than the reply timeout.
///
/// A scan takes `span / 20000 / rbw^2 + points / 500` seconds, with the
/// bandwidth in kilohertz, and twice that where every point is measured twice.
pub open spec fn silence_ms(segment: Segment, model: Model, settings: ScanSettings) -> int {
    let span = if segment.stop_hz >= segment.start_hz {
        segment.stop_hz - segment.start_hz
    } else {
        0
    };
    let rbw = rbw_milli_hz(span, model, settings);
    let points = if segment.points == 0 {
        1
    } else {
        segment.points as int
    };
    let passes = if measures_twice(segment, settings) {
        2int
    } else {
        1int
    };
    let total = 1000 + 40 * passes + ceil_div(
        passes * span * 1_000_000_000_000,
        rbw * rbw * points,
    );
    if total < RESPONSE_TIMEOUT_MS {
        RESPONSE_TIMEOUT_MS as int
    } else {
        total
    }
}

/// How long a scan may stay silent, in milliseconds.
pub fn scan_inactivity_timeout(segment: Segment, model: Model, settings: ScanSettings) -> (ms: u128)
    requires
        settings.rbw_hz != Some(0u32),
    ensures
        ms == silence_ms(segment, model, settings),
{
    let span: u128 = if segment.stop_hz >= segment.start_hz {
        (segment.stop_hz - segment.start_hz) as u128
    } else {
        0
    };
    let rbw: u128 = match settings.rbw_hz {
        Some(hz) => hz as u128 * 1000,
        None => {
            let (low, high): (u128, u128) = if model.is_ultra() {
                (200_000, 850_000_000)
            } else {
                (3_000_000, 600_000_000)
            };
            let share: u128 = span * 7;
            if share < low {
                low
            } else if share > high {
                high
            } else {
                share
            }
        },
    };
    assert(rbw == rbw_milli_hz(span as int, model, settings));
    let points: u128 = if segment.points == 0 {
        1
    } else {
        segment.points as u128
    };
    let twice = (settings.spur == SpurMode::On && segment.stop_hz > 800_000_000) || settings.spur
        == SpurMode::Auto;
    let passes: u128 = if twice {
        2
    } else {
        1
    };
    assert(1 <= rbw <= 0x400_0000_0000);
    assert(rbw * rbw <= 0x400_0000_0000 * 0x400_0000_0000 && rbw * rbw >= 1) by (nonlinear_arith)
        requires
            1 <= rbw <= 0x400_0000_0000,
    ;
    let square: u128 = rbw * rbw;
    assert(square * points <= 0x400_0000_0000 * 0x400_0000_0000 * 0x1_0000_0000 && square * points
        >= 1) by (nonlinear_arith)
        requires
            1 <= square <= 0x400_0000_0000 * 0x400_0000_0000,
            1 <= points <= 0x1_0000_0000,
    ;
    let below: u128 = square * points;
    let above: u128 = passes * span * 1_000_000_000_000;
    let needed: u128 = (above + below - 1) / below;
    proof {
        assert(needed <= above + below - 1) by (nonlinear_arith)
            requires
                needed == (above + below - 1) / (below as int),
                1 <= below,
                0 <= above,
        ;
    }
    let total: u128 = 1000 + 40 * passes + needed;
    if total < RESPONSE_TIMEOUT_MS as u128 {
        RESPONSE_TIMEOUT_MS as u128
    } else {
        total
    }
}

/// The command that puts an analyser into the mode that measures its input.
pub fn input_mode_command(model: Model, basic_input: BasicInput) -> (t: &'static str)
    ensures
        t@ == if model.ultra() {
            "mode input"@
        } else {
            basic_input.command()
        },
{
    if model.is_ultra() {
        "mode input"
    } else {
        basic_input.mode_command()
    }
}

/// The commands that put an analyser into its automatic controls.
pub open spec fn startup_commands(model: Model) -> Seq<Seq<char>> {
    if model.ultra() {
        seq![
            "ultra on"@,
            "ultra auto"@,
            "rbw auto"@,
            "attenuate auto"@,
            "lna off"@,
            "lna2 auto"@,
            "agc auto"@,
            "spur auto"@,
        ]
    } else {
        seq!["rbw auto"@, "attenuate auto"@, "spur on"@]
    }
}

/// The settings after startup.
pub open spec fn startup_scan(model: Model) -> ScanSettings {
    ScanSettings {
        points: DEFAULT_POINTS,
        rbw_hz: None,
        spur: if model.ultra() {
            SpurMode::Auto
        } else {
            SpurMode::On
        },
    }
}

/// The settings a scan starts with, and the commands that establish them.
pub fn startup_settings(model: Model) -> (r: (ScanSettings, Vec<&'static str>))
    ensures
        r.0 == startup_scan(model),
        r.1@.map_values(|c: &str| c@) == startup_commands(model),
{
    let ultra = model.is_ultra();
    let spur = if ultra {
        SpurMode::Auto
    } else {
        SpurMode::On
    };
    let mut commands: Vec<&'static str> = Vec::new();
    if ultra {
        commands.push("ultra on");
        commands.push("ultra auto");
    }
    commands.push("rbw auto");
    commands.push("attenuate auto");
    if ultra {
        commands.push("lna off");
        commands.push("lna2 auto");
        commands.push("agc auto");
        commands.push("spur auto");
    } else {
        commands.push("spur on");
    }
    assert(commands@.map_values(|c: &str| c@) == startup_commands(model));
    (ScanSettings { points: DEFAULT_POINTS, rbw_hz: None, spur }, commands)
}

/// What an analyser with the given model and connector can do.
pub fn capabilities(model: Model, basic_input: BasicInput) -> (c: DeviceCapabilities)
    ensures
        c.acquisition == AcquisitionKind::PowerTrace,
        c.sample_rate_is_span,
        c.level_unit == LevelUnit::Dbm,
        c.level_min == -120_000_000,
        c.level_max == 20_000_000,
        c.trace_stale_ms == 5_000,
        c.freq_min_hz == range_of(model, basic_input).0,
        c.freq_max_hz == range_of(model, basic_input).1,
        c.sample_rate_min_hz == DEFAULT_POINTS,
        c.sample_rate_max_hz == range_of(model, basic_input).1 - range_of(model, basic_input).0,
        c.default_frequency_hz == clamped(
            DEFAULT_FREQUENCY_HZ as int,
            range_of(model, basic_input).0 as int,
            range_of(model, basic_input).1 as int,
        ),
        c.default_sample_rate_hz == DEFAULT_SPAN_HZ,
        c.sample_geometry == (SampleGeometry { format: SampleFormat::Int8, full_scale: 1 }),
        c.gain.stages@.len() == 0,
        c.gain.primary@ == "RF"@,
        c.gain.short@ == "RF"@,
        !c.gain.second_stage,
        c.gain.boost == Boost::Nothing,
        c.gain.gauge_fallback == Some(0u32),
        c.samples_per_transfer == 0,
        c.has_bb_filter,
        !c.friis_applicable,
        c.delivery == DeliveryModel::Pull,
{
    let (minimum_hz, maximum_hz): (u64, u64) = frequency_range(model, basic_input);
    let mut gain = GainModel::new(Vec::new(), "RF", "RF");
    gain.gauge_fallback = Some(0);
    DeviceCapabilities {
        acquisition: AcquisitionKind::PowerTrace,
        sample_rate_is_span: true,
        level_unit: LevelUnit::Dbm,
        level_min: -120_000_000,
        level_max: 20_000_000,
        trace_stale_ms: 5_000,
        freq_min_hz: minimum_hz,
        freq_max_hz: maximum_hz,
        sample_rate_min_hz: DEFAULT_POINTS as u64,
        sample_rate_max_hz: maximum_hz - minimum_hz,
        default_frequency_hz: default_frequency(model, basic_input),
        default_sample_rate_hz: DEFAULT_SPAN_HZ,
        sample_geometry: SampleGeometry { format: SampleFormat::Int8, full_scale: 1 },
        gain,
        samples_per_transfer: 0,
        has_bb_filter: true,
        friis_applicable: false,
        delivery: DeliveryModel::Pull,
    }
}

/// A scan is given up no sooner than it can be through twenty of its points, a second
/// more, and five seconds in all: with the resolution bandwidth in thousandths of a
/// hertz, `span * 10^12 / (rbw^2 * points)` and forty milliseconds for each time that
/// it measures, rounded up to the millisecond. It is not given longer than that. An
/// automatic bandwidth is seven thousandths of the span inside what the model can do.
pub proof fn law_silence_gives_a_scan_its_time(
    segment: Segment,
    model: Model,
    settings: ScanSettings,
)
    requires
        settings.rbw_hz != Some(0u32),
        segment.start_hz <= segment.stop_hz,
        segment.points > 0,
    ensures
        ({
            let ms = silence_ms(segment, model, settings);
            let span = segment.stop_hz - segment.start_hz;
            let passes: int = if settings.spur == SpurMode::Auto || segment.stop_hz > 800_000_000 {
                2
            } else {
                1
            };
            let rbw = rbw_milli_hz(span, model, settings);
            let moving = ms - 1000 - 40 * passes;
            &&& 5_000 <= ms <= u128::MAX
            &&& settings.rbw_hz matches Some(hz) ==> rbw == 1000 * hz
            &&& settings.rbw_hz is None ==> {
                let (least, most): (int, int) = if model.ultra() {
                    (200_000, 850_000_000)
                } else {
                    (3_000_000, 600_000_000)
                };
                &&& least <= rbw <= most
                &&& least <= 7 * span <= most ==> rbw == 7 * span
                &&& 7 * span < least ==> rbw == least
                &&& 7 * span > most ==> rbw == most
            }
            &&& moving * (rbw * rbw * segment.points) >= passes * span * 1_000_000_000_000
            &&& ms > 5_000 ==> (moving - 1) * (rbw * rbw * segment.points) < passes * span
                * 1_000_000_000_000
        }),
{
    let span = segment.stop_hz - segment.start_hz;
    let rbw = rbw_milli_hz(span, model, settings);
    let passes: int = if measures_twice(segment, settings) {
        2
    } else {
        1
    };
    let a = passes * span * 1_000_000_000_000;
    let points = segment.points as int;
    assert(rbw >= 1);
    let b = rbw * rbw * points;
    assert(b >= 1) by (nonlinear_arith)
        requires
            b == rbw * rbw * points,
            rbw >= 1,
            points >= 1,
    ;
    let q = ceil_div(a, b);
    vstd::arithmetic::div_mod::lemma_fundamental_div_mod(a + b - 1, b);
    vstd::arithmetic::div_mod::lemma_mod_bound(a + b - 1, b);
    let ms = silence_ms(segment, model, settings);
    let moving = ms - 1000 - 40 * passes;
    assert(q * b >= a && (q - 1) * b < a && q <= a) by (nonlinear_arith)
        requires
            a + b - 1 == b * q + (a + b - 1) % b,
            0 <= (a + b - 1) % b < b,
            1 <= b,
            0 <= a,
    ;
    assert(moving >= q);
    assert(moving * b >= q * b) by (nonlinear_arith)
        requires
            moving >= q,
            b >= 1,
    ;
}

/// A frequency that is moved into a range stays where it is if it lies inside, and goes
/// to the nearer end if it does not.
pub proof fn law_clamped_is_nearest(value: int, low: int, high: int)
    requires
        low <= high,
    ensures
        low <= clamped(value, low, high) <= high,
        low <= value <= high ==> clamped(value, low, high) == value,
        value < low ==> clamped(value, low, high) == low,
        value > high ==> clamped(value, low, high) == high,
{
}

/// A point of the display grid lies within half a hertz of its even place.
pub proof fn law_grid_is_even(span: int, intervals: int, index: int)
    requires
        0 <= span,
        0 < intervals,
        0 <= index <= intervals,
    ensures
        -intervals <= 2 * (grid_offset(span, intervals, index) * intervals - span * index)
            <= intervals,
{
    let a = span * index + intervals / 2;
    let q = grid_offset(span, intervals, index);
    vstd::arithmetic::div_mod::lemma_fundamental_div_mod(a, intervals);
    vstd::arithmetic::div_mod::lemma_mod_bound(a, intervals);
    assert(intervals * q == q * intervals) by (nonlinear_arith);
}

/// A model can sweep a band exactly where it can scan both of its ends and they are two.
pub proof fn law_a_band_is_swept_inside_the_range(config: DirectSweepConfig, model: Model)
    ensures
        sweep_fits(config, model) <==> {
            &&& config.start_hz != config.stop_hz
            &&& config.start_hz <= config.stop_hz
            &&& 100_000 <= config.start_hz <= model.max_hz()
            &&& 100_000 <= config.stop_hz <= model.max_hz()
        },
{
}

} // verus!
