//! The keys of the two plots: the spectrum and the waterfall.
//!
//! A key either changes the state at once, asks for the radio to be tuned, or is
//! not the plot's. What a key cannot know is handed in: the values next to the
//! present ones in the lists the panels offer.

use crate::hardware::{DeviceCapabilities, LevelUnit};
use crate::input::Key;
use crate::level;
use crate::level::Level;
use crate::signal::fft::publish::SpectrumMarker;
use crate::state::waterfall::{FftFrame, WaterfallPalette, WaterfallState, MAX_BINS};
use crate::state::RadioState;
use crate::text;
use crate::units;
use vstd::prelude::*;

verus! {

/// How far one key press moves the floor of the levels.
pub const LEVEL_ZOOM_STEP: i64 = 10_000_000;

/// The smallest window of levels a zoom leaves.
pub const LEVEL_MIN_WINDOW: i64 = 20_000_000;

/// How the trace of the spectrum is drawn.
#[derive(Clone, Copy, Debug, PartialEq, Eq, Structural)]
pub enum SpectrumStyle {
    Braille,
    Fill,
    Scatter,
}

impl SpectrumStyle {
    /// The style that comes after this one.
    pub open spec fn successor(self) -> SpectrumStyle {
        match self {
            SpectrumStyle::Braille => SpectrumStyle::Fill,
            SpectrumStyle::Fill => SpectrumStyle::Scatter,
            SpectrumStyle::Scatter => SpectrumStyle::Braille,
        }
    }

    pub fn next(self) -> (s: SpectrumStyle)
        ensures
            s == self.successor(),
    {
        match self {
            SpectrumStyle::Braille => SpectrumStyle::Fill,
            SpectrumStyle::Fill => SpectrumStyle::Scatter,
            SpectrumStyle::Scatter => SpectrumStyle::Braille,
        }
    }

    pub open spec fn word(self) -> Seq<char> {
        match self {
            SpectrumStyle::Braille => "braille"@,
            SpectrumStyle::Fill => "fill"@,
            SpectrumStyle::Scatter => "scatter"@,
        }
    }

    pub fn label(self) -> (t: &'static str)
        ensures
            t@ == self.word(),
    {
        match self {
            SpectrumStyle::Braille => "braille",
            SpectrumStyle::Fill => "fill",
            SpectrumStyle::Scatter => "scatter",
        }
    }
}

/// What is being typed.
#[derive(Clone, Copy, Debug, PartialEq, Eq, Structural)]
pub enum InputMode {
    Normal,
    MarkerNameInput,
}

/// The spectrum as its panel shows it.
pub struct SpectrumState {
    pub step_hz: u64,
    /// The ends of the level axis, in micro-decibels.
    pub y_min: i64,
    pub y_max: i64,
    pub cursor_freq: Option<u64>,
    pub markers: Vec<SpectrumMarker>,
    pub pending_marker: Option<u64>,
    pub style: SpectrumStyle,
    pub input_mode: InputMode,
    pub input_buf: String,
}

/// The values next to the present ones in the lists the panels offer.
#[derive(Clone, Copy, Debug, PartialEq, Eq, Structural)]
pub struct Neighbours {
    pub step_down_hz: u64,
    pub step_up_hz: u64,
    pub zoom_out: u32,
    pub zoom_in: u32,
    pub stride_down: usize,
    pub stride_up: usize,
}

/// Which plot a line of the log is about.
#[derive(Clone, Copy, Debug, PartialEq, Eq, Structural)]
pub enum Plot {
    Spectrum,
    Waterfall,
}

/// A line for the log.
pub enum PlotNote {
    Step(u64),
    FreqZoom { plot: Plot, times: u32 },
    FreqZoomOff(Plot),
    LevelZoom { plot: Plot, floor: i64, ceiling: i64, unit: LevelUnit },
    MarkerRemoved(String),
    NameMarker(u64),
    ChannelSet { label: String, bw_hz: u64 },
    ChannelCleared(String),
    NoMarkerNear,
    Style(SpectrumStyle),
    Stride(usize),
    Palette(WaterfallPalette),
    TuneError(String),
}

impl PlotNote {
    /// The line, where `amount` is the step or the bandwidth as the panels write
    /// it.
    pub open spec fn line(self, amount: Seq<char>) -> Seq<char> {
        match self {
            PlotNote::Step(_) => "Step \u{2192} "@ + amount,
            PlotNote::FreqZoom { plot, times } => (match plot {
                Plot::Spectrum => "Freq zoom: \u{d7}"@,
                Plot::Waterfall => "Waterfall zoom: \u{d7}"@,
            }) + text::decimal(times as nat),
            PlotNote::FreqZoomOff(plot) => match plot {
                Plot::Spectrum => "Freq zoom: off"@,
                Plot::Waterfall => "Waterfall zoom: off"@,
            },
            PlotNote::LevelZoom { plot, floor, ceiling, unit } => (match plot {
                Plot::Spectrum => "Zoom: "@,
                Plot::Waterfall => "Waterfall zoom: "@,
            }) + units::whole_decibels(floor) + "\u{2026}"@ + units::whole_decibels(ceiling) + " "@
                + unit.word(),
            PlotNote::MarkerRemoved(label) => "Marker removed: "@ + label@,
            PlotNote::NameMarker(hz) => "Name this marker at "@ + units::mhz_thousandths(hz)
                + " MHz (Enter = confirm, empty = auto-label)"@,
            PlotNote::ChannelSet { label, .. } => "Marker '"@ + label@
                + "' channel BW \u{2192} "@ + amount,
            PlotNote::ChannelCleared(label) => "Marker '"@ + label@ + "' channel BW cleared"@,
            PlotNote::NoMarkerNear => "No marker near cursor \u{2014} place one with [M] first"@,
            PlotNote::Style(style) => "Spectrum style: "@ + style.word(),
            PlotNote::Stride(n) => "Waterfall: \u{d7}"@ + text::decimal(n as nat)
                + " frames/row"@,
            PlotNote::Palette(palette) => "Waterfall palette: "@ + palette.word(),
            PlotNote::TuneError(message) => "Tune error: "@ + message@,
        }
    }

    /// The line as text.
    pub fn text(&self, amount: &str) -> (out: String)
        ensures
            out@ == self.line(amount@),
    {
        let mut t: Vec<char> = Vec::new();
        match self {
            PlotNote::Step(_) => {
                text::push_str(&mut t, "Step \u{2192} ");
                text::push_str(&mut t, amount);
            },
            PlotNote::FreqZoom { plot, times } => {
                match plot {
                    Plot::Spectrum => text::push_str(&mut t, "Freq zoom: \u{d7}"),
                    Plot::Waterfall => text::push_str(&mut t, "Waterfall zoom: \u{d7}"),
                }
                text::push_decimal(&mut t, *times as u64);
            },
            PlotNote::FreqZoomOff(plot) => match plot {
                Plot::Spectrum => text::push_str(&mut t, "Freq zoom: off"),
                Plot::Waterfall => text::push_str(&mut t, "Waterfall zoom: off"),
            },
            PlotNote::LevelZoom { plot, floor, ceiling, unit } => {
                match plot {
                    Plot::Spectrum => text::push_str(&mut t, "Zoom: "),
                    Plot::Waterfall => text::push_str(&mut t, "Waterfall zoom: "),
                }
                units::push_whole_decibels(&mut t, *floor);
                text::push_str(&mut t, "\u{2026}");
                units::push_whole_decibels(&mut t, *ceiling);
                text::push_str(&mut t, " ");
                text::push_str(&mut t, unit.label());
            },
            PlotNote::MarkerRemoved(label) => {
                text::push_str(&mut t, "Marker removed: ");
                text::push_str(&mut t, label.as_str());
            },
            PlotNote::NameMarker(hz) => {
                text::push_str(&mut t, "Name this marker at ");
                units::push_mhz_thousandths(&mut t, *hz);
                text::push_str(&mut t, " MHz (Enter = confirm, empty = auto-label)");
            },
            PlotNote::ChannelSet { label, .. } => {
                text::push_str(&mut t, "Marker '");
                text::push_str(&mut t, label.as_str());
                text::push_str(&mut t, "' channel BW \u{2192} ");
                text::push_str(&mut t, amount);
            },
            PlotNote::ChannelCleared(label) => {
                text::push_str(&mut t, "Marker '");
                text::push_str(&mut t, label.as_str());
                text::push_str(&mut t, "' channel BW cleared");
            },
            PlotNote::NoMarkerNear => text::push_str(
                &mut t,
                "No marker near cursor \u{2014} place one with [M] first",
            ),
            PlotNote::Style(style) => {
                text::push_str(&mut t, "Spectrum style: ");
                text::push_str(&mut t, style.label());
            },
            PlotNote::Stride(n) => {
                text::push_str(&mut t, "Waterfall: \u{d7}");
                text::push_decimal(&mut t, *n as u64);
                text::push_str(&mut t, " frames/row");
            },
            PlotNote::Palette(palette) => {
                text::push_str(&mut t, "Waterfall palette: ");
                text::push_str(&mut t, palette.label());
            },
            PlotNote::TuneError(message) => {
                text::push_str(&mut t, "Tune error: ");
                text::push_str(&mut t, message.as_str());
            },
        }
        assert(t@ == self.line(amount@));
        text::from_chars(t.as_slice())
    }
}

/// What a key asks for.
pub enum KeyOutcome {
    /// The key is done, with a line for the log where it has one.
    Done(Option<PlotNote>),
    /// The radio is to be tuned.
    Tune(u64),
    /// The key is not the plot's.
    FallThrough,
}

/// The strongest bin, the last one where several are.
pub open spec fn is_strongest(bins: Seq<Level>, i: int) -> bool {
    &&& 0 <= i < bins.len()
    &&& forall|k: int| 0 <= k < bins.len() ==> !level::below(bins[i], #[trigger] bins[k])
    &&& forall|k: int| i < k < bins.len() ==> level::below(#[trigger] bins[k], bins[i])
}

/// There is one strongest bin.
pub proof fn law_one_strongest_bin(bins: Seq<Level>, i: int, j: int)
    requires
        is_strongest(bins, i),
        is_strongest(bins, j),
    ensures
        i == j,
{
    if i < j {
        assert(level::below(bins[j], bins[i]));
    } else if j < i {
        assert(level::below(bins[i], bins[j]));
    }
}

/// The frequency of the strongest bin in whole hertz, where it is not negative.
pub open spec fn peak_at(frame: FftFrame, i: int) -> Option<int> {
    let (num, den) = frame.bin_frequency(i);
    if frame.has_axis() && num >= 0 {
        Some(level::rounded(num, den))
    } else {
        None
    }
}

/// The frequency of the strongest bin of a frame.
pub fn strongest_bin_frequency(frame: &FftFrame) -> (r: Option<u64>)
    requires
        frame.bins@.len() <= MAX_BINS,
    ensures
        match r {
            Some(hz) => exists|i: int|
                #[trigger] is_strongest(frame.bins@, i) && peak_at(*frame, i) == Some(hz as int),
            None => frame.bins@.len() == 0 || exists|i: int|
                #[trigger] is_strongest(frame.bins@, i) && peak_at(*frame, i) is None,
        },
{
    if frame.bins.len() == 0 {
        return None;
    }
    let mut best: usize = 0;
    let mut i: usize = 1;
    while i < frame.bins.len()
        invariant
            1 <= i <= frame.bins@.len(),
            best < i,
            forall|k: int| 0 <= k < i ==> !level::below(frame.bins@[best as int], #[trigger] frame.bins@[k]),
            forall|k: int| best < k < i ==> level::below(#[trigger] frame.bins@[k], frame.bins@[best as int]),
        decreases frame.bins@.len() - i,
    {
        if !level::is_below(frame.bins[i], frame.bins[best]) {
            best = i;
        }
        i += 1;
    }
    assert(is_strongest(frame.bins@, best as int));
    match frame.frequency_of_bin(best) {
        None => {
            assert(!frame.has_axis());
            None
        },
        Some(f) => {
            if f.num < 0 {
                return None;
            }
            proof {
                lemma_frequency_fits(*frame, best as int);
            }
            Some(level::round_div(f.num, f.den as u128) as u64)
        },
    }
}

/// The frequency of a bin fits in the hertz a tuner takes.
proof fn lemma_frequency_fits(frame: FftFrame, i: int)
    requires
        frame.has_axis(),
        0 <= i < frame.bins@.len() <= MAX_BINS,
        frame.bin_frequency(i).0 >= 0,
    ensures
        0 < frame.bin_frequency(i).1 <= 0x1_0000_0000_0000_0000,
        0 <= level::rounded(frame.bin_frequency(i).0, frame.bin_frequency(i).1) <= u64::MAX,
{
    let count = frame.bins@.len() as int;
    let n = frame.bin_axis.intervals(count);
    let h = frame.axis_start_half_hz as int;
    let s = frame.sample_rate_hz as int;
    assert(count / 1 == count);
    assert(frame.bin_axis.visible(count, 1) == count);
    assert(frame.bin_axis.first_visible(count, 1) == 0);
    assert(-0x8000_0000_0000_0000 * 0x1000_0000 <= h * n <= 0x8000_0000_0000_0000 * 0x1000_0000)
        by (nonlinear_arith)
        requires
            -0x8000_0000_0000_0000 <= h <= 0x8000_0000_0000_0000,
            0 < n <= 0x1000_0000,
    ;
    assert(0 <= n * s <= 0x1000_0000 * 0x8000_0000_0000_0000) by (nonlinear_arith)
        requires
            0 < n <= 0x1000_0000,
            0 <= s <= 0x8000_0000_0000_0000,
    ;
    let left = h * n;
    let wide = 2 * (n * s);
    let num = left * n + i * wide;
    let den = (2 * n) * n;
    assert(0 * s == 0);
    assert(frame.bin_frequency(i) == (num, den));
    assert(0 < den <= 2 * (0x1000_0000 * 0x1000_0000)) by (nonlinear_arith)
        requires
            den == (2 * n) * n,
            0 < n <= 0x1000_0000,
    ;
    assert(num <= u64::MAX * den) by (nonlinear_arith)
        requires
            num == (h * n) * n + i * (2 * (n * s)),
            den == (2 * n) * n,
            0 <= i <= n,
            0 < n,
            0 <= s <= 0x7fff_ffff_ffff_ffff,
            h <= 0x7fff_ffff_ffff_ffff,
    ;
    assert(0 * den <= num);
    level::lemma_rounded_between(num, den, 0, u64::MAX as int);
}

/// The floor of the levels after it was moved: inside the device's limits, and
/// low enough to leave a window below the ceiling.
pub open spec fn floor_after(floor: int, ceiling: int, delta: int, min: int, max: int) -> int {
    let window = if max - min < 20_000_000 {
        max - min
    } else {
        20_000_000
    };
    let top = if ceiling < max {
        ceiling
    } else {
        max
    };
    let highest = if top - window > min {
        top - window
    } else {
        min
    };
    if floor + delta < min {
        min
    } else if floor + delta > highest {
        highest
    } else {
        floor + delta
    }
}

/// Whether levels are near enough to zero to compute with.
pub open spec fn near(level: i64) -> bool {
    -1_000_000_000_000_000 <= level <= 1_000_000_000_000_000
}

/// Moves the floor of the levels.
pub fn adjust_level_floor(floor: i64, ceiling: i64, delta: i64, caps: &DeviceCapabilities) -> (r: i64)
    requires
        near(floor),
        near(ceiling),
        near(delta),
        near(caps.level_min),
        near(caps.level_max),
        caps.level_min <= caps.level_max,
    ensures
        r == floor_after(
            floor as int,
            ceiling as int,
            delta as int,
            caps.level_min as int,
            caps.level_max as int,
        ),
        caps.level_min <= r <= caps.level_max,
{
    let range: i64 = caps.level_max - caps.level_min;
    let window: i64 = if range < LEVEL_MIN_WINDOW {
        range
    } else {
        LEVEL_MIN_WINDOW
    };
    let top: i64 = if ceiling < caps.level_max {
        ceiling
    } else {
        caps.level_max
    };
    let highest: i64 = if top - window > caps.level_min {
        top - window
    } else {
        caps.level_min
    };
    let moved: i64 = floor + delta;
    if moved < caps.level_min {
        caps.level_min
    } else if moved > highest {
        highest
    } else {
        moved
    }
}

/// A zoom never leaves the device's limits, and always leaves a window of levels
/// below the highest of them.
pub proof fn law_zoom_leaves_a_window(floor: int, ceiling: int, delta: int, min: int, max: int)
    requires
        min <= max,
    ensures
        ({
            let f = floor_after(floor, ceiling, delta, min, max);
            let window = if max - min < 20_000_000 {
                max - min
            } else {
                20_000_000
            };
            &&& min <= f
            &&& f + window <= max
        }),
{
}

/// How far two frequencies are apart.
pub open spec fn apart(a: u64, b: u64) -> int {
    if a >= b {
        a - b
    } else {
        b - a
    }
}

fn distance(a: u64, b: u64) -> (d: u64)
    ensures
        d == apart(a, b),
{
    if a >= b {
        a - b
    } else {
        b - a
    }
}

/// The first marker nearer to a frequency than a step, or the number of markers
/// where there is none.
pub open spec fn marker_near(markers: Seq<SpectrumMarker>, hz: u64, step: u64, from: int) -> int
    decreases markers.len() - from,
{
    if from >= markers.len() {
        markers.len() as int
    } else if apart(markers[from].freq_hz, hz) < step {
        from
    } else {
        marker_near(markers, hz, step, from + 1)
    }
}

fn find_marker(markers: &[SpectrumMarker], hz: u64, step: u64) -> (r: Option<usize>)
    ensures
        match r {
            Some(i) => i < markers@.len() && i == marker_near(markers@, hz, step, 0),
            None => marker_near(markers@, hz, step, 0) == markers@.len(),
        },
{
    let mut i: usize = 0;
    while i < markers.len()
        invariant
            i <= markers@.len(),
            marker_near(markers@, hz, step, 0) == marker_near(markers@, hz, step, i as int),
        decreases markers@.len() - i,
    {
        if distance(markers[i].freq_hz, hz) < step {
            return Some(i);
        }
        i += 1;
    }
    None
}

/// The first of the markers nearest to a frequency, among the first `k`.
pub open spec fn nearest_marker(markers: Seq<SpectrumMarker>, hz: u64, k: int) -> int
    decreases k,
{
    if k <= 1 {
        0
    } else {
        let best = nearest_marker(markers, hz, k - 1);
        if apart(markers[k - 1].freq_hz, hz) < apart(markers[best].freq_hz, hz) {
            k - 1
        } else {
            best
        }
    }
}

fn find_nearest(markers: &[SpectrumMarker], hz: u64) -> (best: usize)
    requires
        markers@.len() > 0,
    ensures
        best == nearest_marker(markers@, hz, markers@.len() as int),
        best < markers@.len(),
{
    let mut best: usize = 0;
    let mut i: usize = 1;
    while i < markers.len()
        invariant
            1 <= i <= markers@.len(),
            best == nearest_marker(markers@, hz, i as int),
            best < i,
        decreases markers@.len() - i,
    {
        if distance(markers[i].freq_hz, hz) < distance(markers[best].freq_hz, hz) {
            best = i;
        }
        i += 1;
    }
    best
}

/// No marker is nearer than the nearest.
pub proof fn law_nearest_marker_is_nearest(markers: Seq<SpectrumMarker>, hz: u64, k: int, i: int)
    requires
        0 < k <= markers.len(),
        0 <= i < k,
    ensures
        0 <= nearest_marker(markers, hz, k) < k,
        apart(markers[nearest_marker(markers, hz, k)].freq_hz, hz) <= apart(markers[i].freq_hz, hz),
    decreases k,
{
    if k > 1 {
        if i < k - 1 {
            law_nearest_marker_is_nearest(markers, hz, k - 1, i);
        } else {
            law_nearest_marker_is_nearest(markers, hz, k - 1, 0);
        }
    }
}

/// The bandwidth a marker's channel takes next, or none after the last.
pub open spec fn next_channel(bw: Option<u64>) -> Option<u64> {
    match bw {
        None => Some(6_250u64),
        Some(hz) => if hz == 6_250 {
            Some(12_500u64)
        } else if hz == 12_500 {
            Some(25_000u64)
        } else if hz == 25_000 {
            Some(50_000u64)
        } else if hz == 50_000 {
            Some(100_000u64)
        } else if hz == 100_000 {
            Some(200_000u64)
        } else if hz == 200_000 {
            Some(500_000u64)
        } else {
            None
        },
    }
}

fn channel_after(bw: Option<u64>) -> (r: Option<u64>)
    ensures
        r == next_channel(bw),
{
    match bw {
        None => Some(6_250),
        Some(hz) => if hz == 6_250 {
            Some(12_500)
        } else if hz == 12_500 {
            Some(25_000)
        } else if hz == 25_000 {
            Some(50_000)
        } else if hz == 50_000 {
            Some(100_000)
        } else if hz == 100_000 {
            Some(200_000)
        } else if hz == 200_000 {
            Some(500_000)
        } else {
            None
        },
    }
}

/// A frequency one step lower, inside a limit.
pub open spec fn lower_hz(hz: u64, step: u64, min: u64) -> u64 {
    let below = if hz >= step {
        (hz - step) as u64
    } else {
        0
    };
    if below < min {
        min
    } else {
        below
    }
}

/// A frequency one step higher, inside a limit.
pub open spec fn higher_hz(hz: u64, step: u64, max: u64) -> u64 {
    if hz + step > max {
        max
    } else {
        (hz + step) as u64
    }
}

fn step_down(hz: u64, step: u64, min: u64) -> (r: u64)
    ensures
        r == lower_hz(hz, step, min),
{
    let below: u64 = if hz >= step {
        hz - step
    } else {
        0
    };
    if below < min {
        min
    } else {
        below
    }
}

fn step_up(hz: u64, step: u64, max: u64) -> (r: u64)
    requires
        hz + step <= u64::MAX,
    ensures
        r == higher_hz(hz, step, max),
{
    if hz + step > max {
        max
    } else {
        hz + step
    }
}

/// A text of its own.
pub fn text_of(s: &str) -> (t: String)
    ensures
        t@ == s@,
{
    let chars = text::to_chars(s);
    text::from_chars(chars.as_slice())
}

/// A copy of a text.
pub fn copied_text(s: &String) -> (t: String)
    ensures
        t@ == s@,
{
    text_of(s.as_str())
}

impl SpectrumState {
    /// The state with another floor.
    pub open spec fn with_floor(self, y_min: i64) -> SpectrumState {
        SpectrumState { y_min, ..self }
    }

    /// Whether the frequencies and levels can be computed with.
    pub open spec fn plausible(self) -> bool {
        &&& self.step_hz <= 0x3fff_ffff_ffff_ffff
        &&& near(self.y_min)
        &&& near(self.y_max)
        &&& self.cursor_freq matches Some(f) ==> f <= i64::MAX
    }
}

/// Whether the limits of a device can be computed with.
pub open spec fn plausible_caps(caps: DeviceCapabilities) -> bool {
    near(caps.level_min) && near(caps.level_max) && caps.level_min <= caps.level_max
}

/// Whether a set of markers is another with one left out.
pub open spec fn removed_marker(after: Seq<SpectrumMarker>, before: Seq<SpectrumMarker>, at: int) -> bool {
    after == before.remove(at)
}

/// Whether only the channel of one marker changed.
pub open spec fn channel_changed(
    after: Seq<SpectrumMarker>,
    before: Seq<SpectrumMarker>,
    at: int,
) -> bool {
    after == before.update(
        at,
        SpectrumMarker {
            channel_bw_hz: next_channel(before[at].channel_bw_hz),
            measured_bw_hz: None,
            ..before[at]
        },
    )
}

/// Whether a frequency is where a mark belongs: the cursor, else the strongest
/// bin, else where the radio is tuned.
pub open spec fn mark_target(
    cursor: Option<u64>,
    frame: Option<FftFrame>,
    tuned_hz: u64,
    hz: u64,
) -> bool {
    match (cursor, frame) {
        (Some(f), _) => hz == f,
        (None, None) => hz == tuned_hz,
        (None, Some(fr)) => {
            ||| fr.bins@.len() == 0 && hz == tuned_hz
            ||| exists|i: int|
                #[trigger] is_strongest(fr.bins@, i) && match peak_at(fr, i) {
                    Some(p) => hz == p,
                    None => hz == tuned_hz,
                }
        },
    }
}

/// Whether two spectra differ in nothing but what a mark changes.
pub open spec fn same_but_markers(a: SpectrumState, b: SpectrumState) -> bool {
    &&& a.step_hz == b.step_hz
    &&& a.y_min == b.y_min
    &&& a.y_max == b.y_max
    &&& a.cursor_freq == b.cursor_freq
    &&& a.style == b.style
}

/// What pressing the mark key does: a marker near the target goes, and without
/// one the name of a new marker is asked for.
pub open spec fn marked(
    before: SpectrumState,
    after: SpectrumState,
    hz: u64,
    out: KeyOutcome,
) -> bool {
    let at = marker_near(before.markers@, hz, before.step_hz, 0);
    &&& same_but_markers(before, after)
    &&& if at < before.markers@.len() {
        &&& removed_marker(after.markers@, before.markers@, at)
        &&& after.pending_marker == before.pending_marker
        &&& after.input_mode == before.input_mode
        &&& after.input_buf == before.input_buf
        &&& out matches KeyOutcome::Done(Some(PlotNote::MarkerRemoved(label)))
        &&& label@ == before.markers@[at].label@
    } else {
        &&& after.markers == before.markers
        &&& after.pending_marker == Some(hz)
        &&& after.input_mode == InputMode::MarkerNameInput
        &&& after.input_buf@.len() == 0
        &&& out == KeyOutcome::Done(Some(PlotNote::NameMarker(hz)))
    }
}

/// What pressing the bandwidth key does: the nearest marker's channel takes its
/// next width, where a marker is near the cursor.
pub open spec fn rechannelled(
    before: SpectrumState,
    after: SpectrumState,
    tuned_hz: u64,
    out: KeyOutcome,
) -> bool {
    let cursor = match before.cursor_freq {
        Some(f) => f,
        None => tuned_hz,
    };
    let n = before.markers@.len() as int;
    let at = nearest_marker(before.markers@, cursor, n);
    &&& same_but_markers(before, after)
    &&& after.pending_marker == before.pending_marker
    &&& after.input_mode == before.input_mode
    &&& after.input_buf == before.input_buf
    &&& if n > 0 && apart(before.markers@[at].freq_hz, cursor) < 4 * before.step_hz {
        &&& channel_changed(after.markers@, before.markers@, at)
        &&& match next_channel(before.markers@[at].channel_bw_hz) {
            Some(bw) => {
                &&& out matches KeyOutcome::Done(Some(PlotNote::ChannelSet { label, bw_hz }))
                &&& label@ == before.markers@[at].label@
                &&& bw_hz == bw
            },
            None => {
                &&& out matches KeyOutcome::Done(Some(PlotNote::ChannelCleared(label)))
                &&& label@ == before.markers@[at].label@
            },
        }
    } else {
        &&& after.markers == before.markers
        &&& out == KeyOutcome::Done(Some(PlotNote::NoMarkerNear))
    }
}

/// Places or removes a mark.
fn press_mark(spectrum: &mut SpectrumState, frame: &Option<FftFrame>, tuned_hz: u64) -> (out: KeyOutcome)
    requires
        frame matches Some(f) ==> f.bins@.len() <= MAX_BINS,
    ensures
        exists|hz: u64|
            #[trigger] mark_target(old(spectrum).cursor_freq, *frame, tuned_hz, hz) && marked(
                *old(spectrum),
                *final(spectrum),
                hz,
                out,
            ),
{
    let ghost before = *spectrum;
    let hz: u64 = match spectrum.cursor_freq {
        Some(f) => f,
        None => match frame {
            None => tuned_hz,
            Some(fr) => match strongest_bin_frequency(fr) {
                Some(p) => p,
                None => tuned_hz,
            },
        },
    };
    assert(mark_target(before.cursor_freq, *frame, tuned_hz, hz));
    match find_marker(spectrum.markers.as_slice(), hz, spectrum.step_hz) {
        Some(at) => {
            let gone = spectrum.markers.remove(at);
            let out = KeyOutcome::Done(Some(PlotNote::MarkerRemoved(gone.label)));
            assert(marked(before, *spectrum, hz, out));
            out
        },
        None => {
            spectrum.pending_marker = Some(hz);
            spectrum.input_mode = InputMode::MarkerNameInput;
            let nothing: Vec<char> = Vec::new();
            spectrum.input_buf = text::from_chars(nothing.as_slice());
            let out = KeyOutcome::Done(Some(PlotNote::NameMarker(hz)));
            assert(marked(before, *spectrum, hz, out));
            out
        },
    }
}

/// Gives the marker near the cursor its next channel.
fn press_channel(spectrum: &mut SpectrumState, tuned_hz: u64) -> (out: KeyOutcome)
    requires
        old(spectrum).step_hz <= 0x3fff_ffff_ffff_ffff,
    ensures
        rechannelled(*old(spectrum), *final(spectrum), tuned_hz, out),
{
    let cursor: u64 = match spectrum.cursor_freq {
        Some(f) => f,
        None => tuned_hz,
    };
    if spectrum.markers.len() == 0 {
        return KeyOutcome::Done(Some(PlotNote::NoMarkerNear));
    }
    let ghost before = *spectrum;
    let at: usize = find_nearest(spectrum.markers.as_slice(), cursor);
    if distance(spectrum.markers[at].freq_hz, cursor) >= 4 * spectrum.step_hz {
        return KeyOutcome::Done(Some(PlotNote::NoMarkerNear));
    }
    let next: Option<u64> = channel_after(spectrum.markers[at].channel_bw_hz);
    let label = copied_text(&spectrum.markers[at].label);
    spectrum.markers[at].channel_bw_hz = next;
    spectrum.markers[at].measured_bw_hz = None;
    proof {
        let now = spectrum.markers@;
        let then = before.markers@;
        assert(now[at as int] == SpectrumMarker {
            channel_bw_hz: next,
            measured_bw_hz: None,
            ..then[at as int]
        });
        assert(now =~= then.update(at as int, now[at as int]));
        assert(channel_changed(now, then, at as int));
    }
    match next {
        Some(bw_hz) => KeyOutcome::Done(Some(PlotNote::ChannelSet { label, bw_hz })),
        None => KeyOutcome::Done(Some(PlotNote::ChannelCleared(label))),
    }
}

/// What a key of the spectrum does, for the keys that are decided at once.
pub open spec fn spectrum_key(
    key: Key,
    before: SpectrumState,
    after: SpectrumState,
    zoom_before: u32,
    zoom_after: u32,
    frame: Option<FftFrame>,
    radio: RadioState,
    caps: DeviceCapabilities,
    has_device: bool,
    near_by: Neighbours,
    out: KeyOutcome,
) -> bool {
    let unzoomed = zoom_after == zoom_before;
    match key {
        Key::Left => after == before && unzoomed && out == if has_device {
            KeyOutcome::Tune(lower_hz(radio.frequency, before.step_hz, caps.freq_min_hz))
        } else {
            KeyOutcome::Done(None)
        },
        Key::Right => after == before && unzoomed && out == if has_device {
            KeyOutcome::Tune(higher_hz(radio.frequency, before.step_hz, caps.freq_max_hz))
        } else {
            KeyOutcome::Done(None)
        },
        Key::Up => {
            let floor = floor_after(
                before.y_min as int,
                before.y_max as int,
                10_000_000,
                caps.level_min as int,
                caps.level_max as int,
            ) as i64;
            &&& unzoomed
            &&& after == before.with_floor(floor)
            &&& out == KeyOutcome::Done(
                Some(
                    PlotNote::LevelZoom {
                        plot: Plot::Spectrum,
                        floor,
                        ceiling: before.y_max,
                        unit: caps.level_unit,
                    },
                ),
            )
        },
        Key::Down => {
            let floor = floor_after(
                before.y_min as int,
                before.y_max as int,
                -10_000_000,
                caps.level_min as int,
                caps.level_max as int,
            ) as i64;
            &&& unzoomed
            &&& after == before.with_floor(floor)
            &&& out == KeyOutcome::Done(
                Some(
                    PlotNote::LevelZoom {
                        plot: Plot::Spectrum,
                        floor,
                        ceiling: before.y_max,
                        unit: caps.level_unit,
                    },
                ),
            )
        },
        Key::Char(c) => if c == '[' {
            &&& unzoomed
            &&& after == (SpectrumState { step_hz: near_by.step_down_hz, ..before })
            &&& out == KeyOutcome::Done(Some(PlotNote::Step(near_by.step_down_hz)))
        } else if c == ']' {
            &&& unzoomed
            &&& after == (SpectrumState { step_hz: near_by.step_up_hz, ..before })
            &&& out == KeyOutcome::Done(Some(PlotNote::Step(near_by.step_up_hz)))
        } else if c == '+' || c == '=' {
            &&& after == before
            &&& zoom_after == near_by.zoom_in
            &&& out == KeyOutcome::Done(
                Some(PlotNote::FreqZoom { plot: Plot::Spectrum, times: near_by.zoom_in }),
            )
        } else if c == '-' {
            &&& after == before
            &&& zoom_after == near_by.zoom_out
            &&& out == KeyOutcome::Done(
                Some(
                    if near_by.zoom_out == 1 {
                        PlotNote::FreqZoomOff(Plot::Spectrum)
                    } else {
                        PlotNote::FreqZoom { plot: Plot::Spectrum, times: near_by.zoom_out }
                    },
                ),
            )
        } else if c == 'j' {
            &&& unzoomed
            &&& after == (SpectrumState {
                cursor_freq: Some(
                    match before.cursor_freq {
                        Some(f) => lower_hz(f, before.step_hz, caps.freq_min_hz),
                        None => radio.frequency,
                    },
                ),
                ..before
            })
            &&& out == KeyOutcome::Done(None)
        } else if c == 'k' {
            &&& unzoomed
            &&& after == (SpectrumState {
                cursor_freq: Some(
                    match before.cursor_freq {
                        Some(f) => higher_hz(f, before.step_hz, caps.freq_max_hz),
                        None => radio.frequency,
                    },
                ),
                ..before
            })
            &&& out == KeyOutcome::Done(None)
        } else if c == 'm' {
            &&& unzoomed
            &&& exists|hz: u64|
                #[trigger] mark_target(before.cursor_freq, frame, radio.frequency, hz) && marked(
                    before,
                    after,
                    hz,
                    out,
                )
        } else if c == 'b' {
            &&& unzoomed
            &&& rechannelled(before, after, radio.frequency, out)
        } else if c == 'd' {
            &&& unzoomed
            &&& after == (SpectrumState { style: before.style.successor(), ..before })
            &&& out == KeyOutcome::Done(Some(PlotNote::Style(before.style.successor())))
        } else {
            after == before && unzoomed && out == KeyOutcome::FallThrough
        },
        _ => after == before && unzoomed && out == KeyOutcome::FallThrough,
    }
}

/// The keys of the spectrum: tune, step, zoom, cursor and markers.
pub fn spectrum(
    key: Key,
    state: &mut SpectrumState,
    view: &mut WaterfallState,
    radio: &RadioState,
    caps: &DeviceCapabilities,
    has_device: bool,
    near_by: &Neighbours,
) -> (out: KeyOutcome)
    requires
        old(state).plausible(),
        plausible_caps(*caps),
        radio.frequency <= i64::MAX,
        old(view).last_fft matches Some(f) ==> f.bins@.len() <= MAX_BINS,
    ensures
        spectrum_key(
            key,
            *old(state),
            *final(state),
            old(view).hz_zoom,
            final(view).hz_zoom,
            old(view).last_fft,
            *radio,
            *caps,
            has_device,
            *near_by,
            out,
        ),
        *final(view) == (WaterfallState { hz_zoom: final(view).hz_zoom, ..*old(view) }),
{
    match key {
        Key::Left => if has_device {
            KeyOutcome::Tune(step_down(radio.frequency, state.step_hz, caps.freq_min_hz))
        } else {
            KeyOutcome::Done(None)
        },
        Key::Right => if has_device {
            KeyOutcome::Tune(step_up(radio.frequency, state.step_hz, caps.freq_max_hz))
        } else {
            KeyOutcome::Done(None)
        },
        Key::Up => {
            let floor: i64 = adjust_level_floor(
                state.y_min,
                state.y_max,
                LEVEL_ZOOM_STEP,
                caps,
            );
            state.y_min = floor;
            KeyOutcome::Done(
                Some(
                    PlotNote::LevelZoom {
                        plot: Plot::Spectrum,
                        floor,
                        ceiling: state.y_max,
                        unit: caps.level_unit,
                    },
                ),
            )
        },
        Key::Down => {
            let floor: i64 = adjust_level_floor(
                state.y_min,
                state.y_max,
                0 - LEVEL_ZOOM_STEP,
                caps,
            );
            state.y_min = floor;
            KeyOutcome::Done(
                Some(
                    PlotNote::LevelZoom {
                        plot: Plot::Spectrum,
                        floor,
                        ceiling: state.y_max,
                        unit: caps.level_unit,
                    },
                ),
            )
        },
        Key::Char(c) => if c == '[' {
            state.step_hz = near_by.step_down_hz;
            KeyOutcome::Done(Some(PlotNote::Step(near_by.step_down_hz)))
        } else if c == ']' {
            state.step_hz = near_by.step_up_hz;
            KeyOutcome::Done(Some(PlotNote::Step(near_by.step_up_hz)))
        } else if c == '+' || c == '=' {
            view.hz_zoom = near_by.zoom_in;
            KeyOutcome::Done(
                Some(PlotNote::FreqZoom { plot: Plot::Spectrum, times: near_by.zoom_in }),
            )
        } else if c == '-' {
            view.hz_zoom = near_by.zoom_out;
            if near_by.zoom_out == 1 {
                KeyOutcome::Done(Some(PlotNote::FreqZoomOff(Plot::Spectrum)))
            } else {
                KeyOutcome::Done(
                    Some(PlotNote::FreqZoom { plot: Plot::Spectrum, times: near_by.zoom_out }),
                )
            }
        } else if c == 'j' {
            state.cursor_freq = Some(
                match state.cursor_freq {
                    Some(f) => step_down(f, state.step_hz, caps.freq_min_hz),
                    None => radio.frequency,
                },
            );
            KeyOutcome::Done(None)
        } else if c == 'k' {
            state.cursor_freq = Some(
                match state.cursor_freq {
                    Some(f) => step_up(f, state.step_hz, caps.freq_max_hz),
                    None => radio.frequency,
                },
            );
            KeyOutcome::Done(None)
        } else if c == 'm' {
            press_mark(state, &view.last_fft, radio.frequency)
        } else if c == 'b' {
            press_channel(state, radio.frequency)
        } else if c == 'd' {
            let next = state.style.next();
            state.style = next;
            KeyOutcome::Done(Some(PlotNote::Style(next)))
        } else {
            KeyOutcome::FallThrough
        },
        _ => KeyOutcome::FallThrough,
    }
}

/// What follows a request to tune.
pub struct Tuned {
    pub note: Option<PlotNote>,
    /// Whether the user is hunting for a signal.
    pub hunting: bool,
}

/// Takes the answer of the device to a request to tune.
pub fn tuned(radio: &mut RadioState, hz: u64, answer: Result<(), String>) -> (r: Tuned)
    ensures
        match answer {
            Ok(_) => {
                &&& *final(radio) == (RadioState { frequency: hz, ..*old(radio) })
                &&& r.note is None
                &&& r.hunting
            },
            Err(message) => {
                &&& *final(radio) == *old(radio)
                &&& r.note == Some(PlotNote::TuneError(message))
                &&& !r.hunting
            },
        },
{
    match answer {
        Ok(_) => {
            radio.frequency = hz;
            Tuned { note: None, hunting: true }
        },
        Err(message) => Tuned { note: Some(PlotNote::TuneError(message)), hunting: false },
    }
}

/// What a key of the waterfall does.
pub open spec fn waterfall_key(
    key: Key,
    before: WaterfallState,
    after: WaterfallState,
    step_hz: u64,
    radio: RadioState,
    caps: DeviceCapabilities,
    near_by: Neighbours,
    out: KeyOutcome,
) -> bool {
    match key {
        Key::Up => {
            let floor = floor_after(
                before.db_min as int,
                before.db_max as int,
                10_000_000,
                caps.level_min as int,
                caps.level_max as int,
            ) as i64;
            &&& after == (WaterfallState { db_min: floor, ..before })
            &&& out == KeyOutcome::Done(
                Some(
                    PlotNote::LevelZoom {
                        plot: Plot::Waterfall,
                        floor,
                        ceiling: before.db_max,
                        unit: caps.level_unit,
                    },
                ),
            )
        },
        Key::Down => {
            let floor = floor_after(
                before.db_min as int,
                before.db_max as int,
                -10_000_000,
                caps.level_min as int,
                caps.level_max as int,
            ) as i64;
            &&& after == (WaterfallState { db_min: floor, ..before })
            &&& out == KeyOutcome::Done(
                Some(
                    PlotNote::LevelZoom {
                        plot: Plot::Waterfall,
                        floor,
                        ceiling: before.db_max,
                        unit: caps.level_unit,
                    },
                ),
            )
        },
        Key::Left => {
            &&& after == (WaterfallState {
                cursor_freq: match before.cursor_freq {
                    Some(f) => Some(lower_hz(f, step_hz, caps.freq_min_hz)),
                    None => None,
                },
                ..before
            })
            &&& out == KeyOutcome::Done(None)
        },
        Key::Right => {
            &&& after == (WaterfallState {
                cursor_freq: match before.cursor_freq {
                    Some(f) => Some(higher_hz(f, step_hz, caps.freq_max_hz)),
                    None => None,
                },
                ..before
            })
            &&& out == KeyOutcome::Done(None)
        },
        Key::Char(c) => if c == '[' || c == ']' {
            let stride = if c == '[' {
                near_by.stride_down
            } else {
                near_by.stride_up
            };
            &&& after == (WaterfallState { buffer: after.buffer, ..before })
            &&& after.buffer.valid()
            &&& after.buffer.rows == before.buffer.rows
            &&& after.buffer.max_rows == before.buffer.max_rows
            &&& after.buffer.paused == before.buffer.paused
            &&& after.buffer.row_stride == if stride == 0 {
                1
            } else {
                stride
            }
            &&& after.buffer.pending() == 0
            &&& out == KeyOutcome::Done(Some(PlotNote::Stride(stride)))
        } else if c == '+' || c == '=' {
            &&& after == (WaterfallState { hz_zoom: near_by.zoom_in, ..before })
            &&& out == KeyOutcome::Done(
                Some(PlotNote::FreqZoom { plot: Plot::Waterfall, times: near_by.zoom_in }),
            )
        } else if c == '-' {
            &&& after == (WaterfallState { hz_zoom: near_by.zoom_out, ..before })
            &&& out == KeyOutcome::Done(
                Some(
                    if near_by.zoom_out == 1 {
                        PlotNote::FreqZoomOff(Plot::Waterfall)
                    } else {
                        PlotNote::FreqZoom { plot: Plot::Waterfall, times: near_by.zoom_out }
                    },
                ),
            )
        } else if c == 'm' {
            &&& after == (WaterfallState {
                cursor_freq: if before.cursor_freq is Some {
                    None
                } else {
                    Some(radio.frequency)
                },
                ..before
            })
            &&& out == KeyOutcome::Done(None)
        } else if c == 'j' {
            let most = before.buffer.rows@.len() / 2;
            &&& after == (WaterfallState {
                scroll_offset: if before.scroll_offset + 1 > most {
                    most as usize
                } else {
                    (before.scroll_offset + 1) as usize
                },
                ..before
            })
            &&& out == KeyOutcome::Done(None)
        } else if c == 'k' {
            &&& after == (WaterfallState {
                scroll_offset: if before.scroll_offset == 0 {
                    0
                } else {
                    (before.scroll_offset - 1) as usize
                },
                ..before
            })
            &&& out == KeyOutcome::Done(None)
        } else if c == 'p' {
            &&& after == (WaterfallState { palette: before.palette.successor(), ..before })
            &&& out == KeyOutcome::Done(Some(PlotNote::Palette(before.palette.successor())))
        } else {
            after == before && out == KeyOutcome::FallThrough
        },
        _ => after == before && out == KeyOutcome::FallThrough,
    }
}

/// The keys of the waterfall: zoom, stride, cursor, history and colours.
pub fn waterfall(
    key: Key,
    view: &mut WaterfallState,
    step_hz: u64,
    radio: &RadioState,
    caps: &DeviceCapabilities,
    near_by: &Neighbours,
) -> (out: KeyOutcome)
    requires
        old(view).buffer.valid(),
        near(old(view).db_min),
        near(old(view).db_max),
        plausible_caps(*caps),
        step_hz <= 0x3fff_ffff_ffff_ffff,
        old(view).cursor_freq matches Some(f) ==> f <= i64::MAX,
        old(view).scroll_offset < usize::MAX,
    ensures
        waterfall_key(key, *old(view), *final(view), step_hz, *radio, *caps, *near_by, out),
{
    match key {
        Key::Up => {
            let floor: i64 = adjust_level_floor(view.db_min, view.db_max, LEVEL_ZOOM_STEP, caps);
            view.db_min = floor;
            KeyOutcome::Done(
                Some(
                    PlotNote::LevelZoom {
                        plot: Plot::Waterfall,
                        floor,
                        ceiling: view.db_max,
                        unit: caps.level_unit,
                    },
                ),
            )
        },
        Key::Down => {
            let floor: i64 = adjust_level_floor(
                view.db_min,
                view.db_max,
                0 - LEVEL_ZOOM_STEP,
                caps,
            );
            view.db_min = floor;
            KeyOutcome::Done(
                Some(
                    PlotNote::LevelZoom {
                        plot: Plot::Waterfall,
                        floor,
                        ceiling: view.db_max,
                        unit: caps.level_unit,
                    },
                ),
            )
        },
        Key::Left => {
            view.cursor_freq = match view.cursor_freq {
                Some(f) => Some(step_down(f, step_hz, caps.freq_min_hz)),
                None => None,
            };
            KeyOutcome::Done(None)
        },
        Key::Right => {
            view.cursor_freq = match view.cursor_freq {
                Some(f) => Some(step_up(f, step_hz, caps.freq_max_hz)),
                None => None,
            };
            KeyOutcome::Done(None)
        },
        Key::Char(c) => if c == '[' {
            view.buffer.set_row_stride(near_by.stride_down);
            KeyOutcome::Done(Some(PlotNote::Stride(near_by.stride_down)))
        } else if c == ']' {
            view.buffer.set_row_stride(near_by.stride_up);
            KeyOutcome::Done(Some(PlotNote::Stride(near_by.stride_up)))
        } else if c == '+' || c == '=' {
            view.hz_zoom = near_by.zoom_in;
            KeyOutcome::Done(
                Some(PlotNote::FreqZoom { plot: Plot::Waterfall, times: near_by.zoom_in }),
            )
        } else if c == '-' {
            view.hz_zoom = near_by.zoom_out;
            if near_by.zoom_out == 1 {
                KeyOutcome::Done(Some(PlotNote::FreqZoomOff(Plot::Waterfall)))
            } else {
                KeyOutcome::Done(
                    Some(PlotNote::FreqZoom { plot: Plot::Waterfall, times: near_by.zoom_out }),
                )
            }
        } else if c == 'm' {
            view.cursor_freq = match view.cursor_freq {
                Some(_) => None,
                None => Some(radio.frequency),
            };
            KeyOutcome::Done(None)
        } else if c == 'j' {
            let most: usize = view.buffer.rows.len() / 2;
            view.scroll_offset = if view.scroll_offset + 1 > most {
                most
            } else {
                view.scroll_offset + 1
            };
            KeyOutcome::Done(None)
        } else if c == 'k' {
            view.scroll_offset = if view.scroll_offset == 0 {
                0
            } else {
                view.scroll_offset - 1
            };
            KeyOutcome::Done(None)
        } else if c == 'p' {
            let next = view.palette.next();
            view.palette = next;
            KeyOutcome::Done(Some(PlotNote::Palette(next)))
        } else {
            KeyOutcome::FallThrough
        },
        _ => KeyOutcome::FallThrough,
    }
}

/// A step down goes to the frequency a step below, or to the limit where that is
/// nearer; a step up from there comes back.
pub proof fn law_a_step_goes_as_far_as_the_limits_let_it(hz: u64, step: u64, min: u64, max: u64)
    ensures
        lower_hz(hz, step, min) >= min,
        lower_hz(hz, step, min) == hz - step || (lower_hz(hz, step, min) == min && hz - step < min),
        higher_hz(hz, step, max) <= max,
        higher_hz(hz, step, max) == hz + step || (higher_hz(hz, step, max) == max && hz + step > max),
        min + step <= hz <= max ==> higher_hz(lower_hz(hz, step, min), step, max) == hz,
        min <= hz && hz + step <= max ==> lower_hz(higher_hz(hz, step, max), step, min) == hz,
{
}

/// The floor goes as near to where it was moved as the device's limits and a window
/// of twenty decibels below the ceiling let it.
pub proof fn law_the_floor_goes_as_near_as_it_may(
    floor: int,
    ceiling: int,
    delta: int,
    min: int,
    max: int,
    other: int,
)
    requires
        min + 20_000_000 <= ceiling <= max,
        min <= other <= ceiling - 20_000_000,
    ensures
        ({
            let f = floor_after(floor, ceiling, delta, min, max);
            let wanted = floor + delta;
            &&& min <= f <= ceiling - 20_000_000
            &&& min <= wanted <= ceiling - 20_000_000 ==> f == wanted
            &&& (if f >= wanted {
                f - wanted
            } else {
                wanted - f
            }) <= (if other >= wanted {
                other - wanted
            } else {
                wanted - other
            })
        }),
{
}

/// A marker is found where one lies nearer than a step, and the first such is found.
pub proof fn law_the_first_marker_near_is_found(
    markers: Seq<SpectrumMarker>,
    hz: u64,
    step: u64,
    from: int,
)
    requires
        0 <= from <= markers.len(),
    ensures
        ({
            let at = marker_near(markers, hz, step, from);
            &&& from <= at <= markers.len()
            &&& at < markers.len() ==> hz - step < markers[at].freq_hz < hz + step
            &&& forall|i: int|
                from <= i < at ==> {
                    ||| (#[trigger] markers[i]).freq_hz + step <= hz
                    ||| hz + step <= markers[i].freq_hz
                }
        }),
    decreases markers.len() - from,
{
    if from < markers.len() && apart(markers[from].freq_hz, hz) >= step {
        law_the_first_marker_near_is_found(markers, hz, step, from + 1);
    }
}

/// The mark key takes away a marker that lies nearer than a step, and otherwise asks
/// for the name of a new one.
pub proof fn law_a_mark_is_taken_away_or_asked_for(
    before: SpectrumState,
    after: SpectrumState,
    hz: u64,
    out: KeyOutcome,
    i: int,
)
    requires
        marked(before, after, hz, out),
        0 <= i < before.markers@.len(),
    ensures
        hz - before.step_hz < before.markers@[i].freq_hz < hz + before.step_hz ==> {
            &&& after.markers@.len() == before.markers@.len() - 1
            &&& after.pending_marker == before.pending_marker
            &&& after.input_mode == before.input_mode
            &&& forall|k: int|
                i < k < before.markers@.len() ==> after.markers@[k - 1]
                    == #[trigger] before.markers@[k]
        },
        after.markers@.len() == before.markers@.len() ==> {
            &&& after.markers@ == before.markers@
            &&& after.pending_marker == Some(hz)
            &&& after.input_mode == InputMode::MarkerNameInput
        },
        after.step_hz == before.step_hz && after.cursor_freq == before.cursor_freq,
{
    let at = marker_near(before.markers@, hz, before.step_hz, 0);
    law_the_first_marker_near_is_found(before.markers@, hz, before.step_hz, 0);
    assert(before.markers@[i].freq_hz == before.markers@[i].freq_hz);
    if at < before.markers@.len() {
        assert(after.markers@.len() == before.markers@.len() - 1);
        assert forall|k: int| i < k < before.markers@.len() && hz - before.step_hz
            < before.markers@[i].freq_hz < hz + before.step_hz implies after.markers@[k - 1]
            == #[trigger] before.markers@[k] by {
            assert(at <= i);
        }
    }
}

/// The bandwidth key changes one marker at most: the nearest to the cursor, where it
/// lies nearer than four steps, and what was measured of it is forgotten.
pub proof fn law_only_the_nearest_marker_takes_another_channel(
    before: SpectrumState,
    after: SpectrumState,
    tuned_hz: u64,
    out: KeyOutcome,
    i: int,
)
    requires
        rechannelled(before, after, tuned_hz, out),
        0 <= i < before.markers@.len(),
    ensures
        after.markers@.len() == before.markers@.len(),
        after.markers@[i].freq_hz == before.markers@[i].freq_hz,
        after.markers@[i].label == before.markers@[i].label,
        after.markers@[i] != before.markers@[i] ==> {
            let cursor = match before.cursor_freq {
                Some(f) => f,
                None => tuned_hz,
            };
            &&& cursor - 4 * before.step_hz < before.markers@[i].freq_hz < cursor + 4
                * before.step_hz
            &&& after.markers@[i].measured_bw_hz is None
            &&& forall|k: int|
                0 <= k < before.markers@.len() && k != i ==> after.markers@[k]
                    == #[trigger] before.markers@[k] && apart(before.markers@[i].freq_hz, cursor)
                    <= apart(before.markers@[k].freq_hz, cursor)
        },
{
    let cursor = match before.cursor_freq {
        Some(f) => f,
        None => tuned_hz,
    };
    let n = before.markers@.len() as int;
    let at = nearest_marker(before.markers@, cursor, n);
    assert forall|k: int| 0 <= k < n implies 0 <= at < n && apart(
        before.markers@[at].freq_hz,
        cursor,
    ) <= apart((#[trigger] before.markers@[k]).freq_hz, cursor) by {
        law_nearest_marker_is_nearest(before.markers@, cursor, n, k);
    }
    assert(before.markers@[i].freq_hz == before.markers@[i].freq_hz);
}

/// A channel widens with every press, at most two and a half times, until it has
/// none; a channel that was stepped to from none comes back after eight presses.
pub proof fn law_channels_widen_and_come_round(bw: Option<u64>)
    requires
        bw is None || bw == Some(6_250u64) || bw == Some(12_500u64) || bw == Some(25_000u64)
            || bw == Some(50_000u64) || bw == Some(100_000u64) || bw == Some(200_000u64)
            || bw == Some(500_000u64),
    ensures
        (bw, next_channel(bw)) matches (Some(a), Some(b)) ==> 2 * a <= b && 2 * b <= 5 * a,
        bw is None ==> next_channel(bw) is Some,
        next_channel(bw) is None ==> bw == Some(500_000u64),
        next_channel(
            next_channel(
                next_channel(
                    next_channel(
                        next_channel(next_channel(next_channel(next_channel(bw)))),
                    ),
                ),
            ),
        ) == bw,
{
}

/// The strongest bin is one that no other exceeds.
pub proof fn law_no_bin_exceeds_the_strongest(bins: Seq<Level>, i: int, k: int)
    requires
        is_strongest(bins, i),
        0 <= k < bins.len(),
        bins[i] is Some,
        bins[k] is Some,
    ensures
        bins[k]->0 <= bins[i]->0,
        bins[k]->0 == bins[i]->0 ==> k <= i,
{
}

/// On the spectrum the arrow to the left asks for a lower frequency and the one to the
/// right for a higher, and without a device neither asks for anything.
pub proof fn law_the_arrows_tune_to_their_side(
    key: Key,
    before: SpectrumState,
    after: SpectrumState,
    zoom_before: u32,
    zoom_after: u32,
    frame: Option<FftFrame>,
    radio: RadioState,
    caps: DeviceCapabilities,
    has_device: bool,
    near_by: Neighbours,
    out: KeyOutcome,
)
    requires
        spectrum_key(
            key,
            before,
            after,
            zoom_before,
            zoom_after,
            frame,
            radio,
            caps,
            has_device,
            near_by,
            out,
        ),
        caps.freq_min_hz <= radio.frequency <= caps.freq_max_hz,
    ensures
        out matches KeyOutcome::Tune(hz) ==> {
            &&& has_device
            &&& key is Left || key is Right
            &&& caps.freq_min_hz <= hz <= caps.freq_max_hz
            &&& key is Left ==> hz <= radio.frequency
            &&& key is Right ==> radio.frequency <= hz
        },
        has_device && key is Left && caps.freq_min_hz + before.step_hz <= radio.frequency ==> out
            == KeyOutcome::Tune((radio.frequency - before.step_hz) as u64),
        has_device && key is Right && radio.frequency + before.step_hz <= caps.freq_max_hz ==> out
            == KeyOutcome::Tune((radio.frequency + before.step_hz) as u64),
        key is Left || key is Right ==> after == before && zoom_after == zoom_before,
{
    law_a_step_goes_as_far_as_the_limits_let_it(
        radio.frequency,
        before.step_hz,
        caps.freq_min_hz,
        caps.freq_max_hz,
    );
}

/// Where there is room the arrow up raises the floor of the spectrum by ten decibels,
/// and the arrow down, pressed after it, takes it back.
pub proof fn law_the_floor_comes_back(
    before: SpectrumState,
    between: SpectrumState,
    after: SpectrumState,
    zoom: u32,
    frame: Option<FftFrame>,
    radio: RadioState,
    caps: DeviceCapabilities,
    has_device: bool,
    near_by: Neighbours,
    first: KeyOutcome,
    second: KeyOutcome,
)
    requires
        spectrum_key(
            Key::Up,
            before,
            between,
            zoom,
            zoom,
            frame,
            radio,
            caps,
            has_device,
            near_by,
            first,
        ),
        spectrum_key(
            Key::Down,
            between,
            after,
            zoom,
            zoom,
            frame,
            radio,
            caps,
            has_device,
            near_by,
            second,
        ),
        plausible_caps(caps),
        before.plausible(),
        caps.level_min <= before.y_min <= before.y_max - 30_000_000,
        before.y_max <= caps.level_max,
    ensures
        between.y_min == before.y_min + 10_000_000,
        between.y_max == before.y_max,
        after.y_min == before.y_min,
        after.y_max == before.y_max,
        after.markers == before.markers,
        first matches KeyOutcome::Done(Some(PlotNote::LevelZoom { floor, ceiling, .. }))
            && floor == between.y_min && ceiling == before.y_max,
        second matches KeyOutcome::Done(Some(PlotNote::LevelZoom { floor, ceiling, .. }))
            && floor == before.y_min && ceiling == before.y_max,
{
}

/// The cursor is put where the radio is tuned, and from there a key moves it a step
/// down and another a step back.
pub proof fn law_the_cursor_moves_by_steps(
    before: SpectrumState,
    between: SpectrumState,
    after: SpectrumState,
    zoom: u32,
    frame: Option<FftFrame>,
    radio: RadioState,
    caps: DeviceCapabilities,
    has_device: bool,
    near_by: Neighbours,
    first: KeyOutcome,
    second: KeyOutcome,
)
    requires
        spectrum_key(
            Key::Char('j'),
            before,
            between,
            zoom,
            zoom,
            frame,
            radio,
            caps,
            has_device,
            near_by,
            first,
        ),
        spectrum_key(
            Key::Char('k'),
            between,
            after,
            zoom,
            zoom,
            frame,
            radio,
            caps,
            has_device,
            near_by,
            second,
        ),
    ensures
        before.cursor_freq is None ==> between.cursor_freq == Some(radio.frequency),
        before.cursor_freq matches Some(f) ==> f <= caps.freq_max_hz && caps.freq_min_hz
            + before.step_hz <= f ==> between.cursor_freq == Some((f - before.step_hz) as u64)
            && after.cursor_freq == Some(f),
        after.step_hz == before.step_hz,
        after.markers == before.markers,
{
}

/// The keys of the waterfall undo each other: one row back and one forward, one step
/// of the cursor and one back, the cursor on and off. The history is never scrolled
/// past half of its rows.
pub proof fn law_the_waterfall_comes_back(
    there: Key,
    back: Key,
    before: WaterfallState,
    between: WaterfallState,
    after: WaterfallState,
    step_hz: u64,
    radio: RadioState,
    caps: DeviceCapabilities,
    near_by: Neighbours,
    first: KeyOutcome,
    second: KeyOutcome,
)
    requires
        waterfall_key(there, before, between, step_hz, radio, caps, near_by, first),
        waterfall_key(back, between, after, step_hz, radio, caps, near_by, second),
        before.scroll_offset < usize::MAX,
    ensures
        there == Key::Char('j') ==> 2 * between.scroll_offset <= before.buffer.rows@.len(),
        there == Key::Char('j') && back == Key::Char('k') && 2 * (before.scroll_offset + 1)
            <= before.buffer.rows@.len() ==> between.scroll_offset == before.scroll_offset + 1
            && after == before,
        there == Key::Char('m') && back == Key::Char('m') ==> {
            &&& between.cursor_freq is Some <==> before.cursor_freq is None
            &&& after.cursor_freq is Some <==> before.cursor_freq is Some
            &&& before.cursor_freq is None ==> between.cursor_freq == Some(radio.frequency)
        },
        before.cursor_freq matches Some(f) ==> {
            &&& there is Left && caps.freq_min_hz + step_hz <= f ==> between.cursor_freq == Some(
                (f - step_hz) as u64,
            )
            &&& there is Right && f + step_hz <= caps.freq_max_hz ==> between.cursor_freq == Some(
                (f + step_hz) as u64,
            )
            &&& there is Left && back is Right && caps.freq_min_hz + step_hz <= f
                <= caps.freq_max_hz ==> after == before
        },
        there is Left || there is Right ==> (between.cursor_freq is Some <==> before.cursor_freq is Some),
{
}

/// Where there is room the arrows move the floor of the waterfall by ten decibels, up
/// and back.
pub proof fn law_the_floor_of_the_waterfall_comes_back(
    before: WaterfallState,
    between: WaterfallState,
    after: WaterfallState,
    step_hz: u64,
    radio: RadioState,
    caps: DeviceCapabilities,
    near_by: Neighbours,
    first: KeyOutcome,
    second: KeyOutcome,
)
    requires
        waterfall_key(Key::Up, before, between, step_hz, radio, caps, near_by, first),
        waterfall_key(Key::Down, between, after, step_hz, radio, caps, near_by, second),
        plausible_caps(caps),
        near(before.db_min),
        near(before.db_max),
        caps.level_min <= before.db_min <= before.db_max - 30_000_000,
        before.db_max <= caps.level_max,
    ensures
        between.db_min == before.db_min + 10_000_000,
        between.db_max == before.db_max,
        after == before,
        first matches KeyOutcome::Done(Some(PlotNote::LevelZoom { floor, ceiling, .. }))
            && floor == between.db_min && ceiling == before.db_max,
{
}

/// The styles come round after three presses, and no two in a row are the same.
pub proof fn law_styles_come_round(style: SpectrumStyle)
    ensures
        style.successor() != style,
        style.successor().successor() != style,
        style.successor().successor().successor() == style,
{
}

} // verus!
