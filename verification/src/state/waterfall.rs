//! The frequency axis of a frame, the frame itself, and its history.
//!
//! Frequencies between whole hertz are kept as exact fractions, so a slice of a
//! frame has the very frequencies the frame has.

use crate::level;
use crate::level::Level;
use std::collections::VecDeque;
use vstd::prelude::*;

verus! {

/// The largest number of bins a frame may have: with it, every frequency of a frame is
/// an exact fraction of machine integers.
pub const MAX_BINS: usize = 268_435_456;

/// How the bins of a frame cover its span.
#[derive(Clone, Copy, Debug, PartialEq, Eq, Structural)]
pub enum BinAxis {
    /// Each bin owns one interval, which starts at its frequency.
    FftBins,
    /// The bins are points; the first and the last lie on the edges.
    MeasuredPoints,
}

/// The left edge and the width of a span, as fractions of a hertz over one
/// denominator. A denominator of zero stands for edges that are not finite.
#[derive(Clone, Copy, Debug, PartialEq, Eq, Structural)]
pub struct Edges {
    pub left_num: i128,
    pub span_num: i128,
    pub den: i128,
}

/// A frequency as a fraction of a hertz.
#[derive(Clone, Copy, Debug, PartialEq, Eq, Structural)]
pub struct Fraction {
    pub num: i128,
    pub den: i128,
}

/// A centre slice of a frame.
#[derive(Clone, Copy, Debug, PartialEq, Eq, Structural)]
pub struct BinWindow {
    pub first_bin: usize,
    pub bin_count: usize,
    pub edges: Edges,
}

impl Edges {
    /// Edges that hold a span.
    pub open spec fn usable(self) -> bool {
        self.den > 0 && self.span_num > 0
    }

    /// Edges small enough to compute with.
    pub open spec fn bounded(self) -> bool {
        &&& self.den <= 0x2000_0000
        &&& -0x4000_0000_0000_0000_0000_0000 <= self.left_num <= 0x4000_0000_0000_0000_0000_0000
        &&& self.span_num <= 0x4000_0000_0000_0000_0000_0000
    }
}

impl BinAxis {
    pub open spec fn intervals(self, bin_count: int) -> int {
        match self {
            BinAxis::FftBins => bin_count,
            BinAxis::MeasuredPoints => bin_count - 1,
        }
    }

    /// The frequency of a bin, as a fraction.
    pub open spec fn frequency(self, e: Edges, bin_count: int, index: int) -> (int, int) {
        (
            e.left_num * self.intervals(bin_count) + index * e.span_num,
            e.den * self.intervals(bin_count),
        )
    }

    /// The bin that the frequency `num / den` is read from.
    pub open spec fn bin_at(self, e: Edges, bin_count: int, num: int, den: int) -> int {
        let above = (num * e.den - e.left_num * den) * self.intervals(bin_count);
        let width = e.span_num * den;
        let index = match self {
            BinAxis::FftBins => above / width,
            BinAxis::MeasuredPoints => (2 * above + width) / (2 * width),
        };
        if index > bin_count - 1 {
            bin_count - 1
        } else {
            index
        }
    }

    /// How many bins of a frame a zoom shows: its share of them, at least one
    /// interval, and never more than there are.
    pub open spec fn visible(self, bin_count: int, zoom: int) -> int {
        let divisor = if zoom < 1 {
            1
        } else {
            zoom
        };
        let least = if self == BinAxis::MeasuredPoints && bin_count > 1 {
            2int
        } else {
            1int
        };
        let share = bin_count / divisor;
        let wanted = if share < least {
            least
        } else {
            share
        };
        if wanted > bin_count {
            bin_count
        } else {
            wanted
        }
    }

    /// Where the shown bins start.
    pub open spec fn first_visible(self, bin_count: int, zoom: int) -> int {
        let visible = self.visible(bin_count, zoom);
        let first = bin_count / 2 - visible / 2;
        if first < 0 {
            0
        } else if first > bin_count - visible {
            bin_count - visible
        } else {
            first
        }
    }

    /// The window of a frame that starts at half as many hertz as `start_half_hz`.
    pub open spec fn slice(
        self,
        start_half_hz: int,
        span_hz: int,
        bin_count: int,
        zoom: int,
    ) -> BinWindow {
        let n = self.intervals(bin_count);
        let visible = self.visible(bin_count, zoom);
        let first = self.first_visible(bin_count, zoom);
        BinWindow {
            first_bin: first as usize,
            bin_count: visible as usize,
            edges: Edges {
                left_num: (start_half_hz * n + 2 * (first * span_hz)) as i128,
                span_num: (2 * (self.intervals(visible) * span_hz)) as i128,
                den: (2 * n) as i128,
            },
        }
    }

    /// The number of frequency intervals, or `None` where there is none.
    pub fn interval_count(self, bin_count: usize) -> (r: Option<usize>)
        ensures
            r == if self.intervals(bin_count as int) > 0 {
                Some(self.intervals(bin_count as int) as usize)
            } else {
                None
            },
    {
        match self {
            BinAxis::FftBins => if bin_count > 0 {
                Some(bin_count)
            } else {
                None
            },
            BinAxis::MeasuredPoints => if bin_count > 1 {
                Some(bin_count - 1)
            } else {
                None
            },
        }
    }

    /// The centre slice of a frame that is centred on a frequency. A zoom of zero
    /// shows the whole span; `None` stands for a span that is not finite.
    pub fn window(
        self,
        center_hz: u64,
        span_hz: Option<i64>,
        bin_count: usize,
        zoom: usize,
    ) -> (r: Option<BinWindow>)
        requires
            bin_count <= MAX_BINS,
            center_hz <= 0x1fff_ffff_ffff_ffff,
            span_hz matches Some(s) ==> -0x2000_0000_0000_0000 <= s <= 0x2000_0000_0000_0000,
        ensures
            match span_hz {
                Some(s) if s > 0 && self.intervals(bin_count as int) > 0 => r == Some(
                    self.slice(2 * center_hz - s, s as int, bin_count as int, zoom as int),
                ),
                _ => r is None,
            },
    {
        match span_hz {
            None => None,
            Some(s) => self.window_from_start(
                Some(2 * (center_hz as i64) - s),
                Some(s),
                bin_count,
                zoom,
            ),
        }
    }

    /// The centre slice of a frame that starts at half as many hertz as
    /// `start_half_hz`. It has at least one bin and keeps the frame's spacing.
    /// Empty frames and spans that are not positive have no window; `None`
    /// stands for a number that is not finite.
    pub fn window_from_start(
        self,
        start_half_hz: Option<i64>,
        span_hz: Option<i64>,
        bin_count: usize,
        zoom: usize,
    ) -> (r: Option<BinWindow>)
        requires
            bin_count <= MAX_BINS,
        ensures
            match (start_half_hz, span_hz) {
                (Some(h), Some(s)) if s > 0 && self.intervals(bin_count as int) > 0 => r == Some(
                    self.slice(h as int, s as int, bin_count as int, zoom as int),
                ),
                _ => r is None,
            },
            r matches Some(w) ==> {
                &&& w.edges.bounded()
                &&& w.first_bin + w.bin_count <= bin_count
                &&& 1 <= w.bin_count
            },
    {
        let (start, span): (i64, i64) = match (start_half_hz, span_hz) {
            (Some(h), Some(s)) => (h, s),
            _ => return None,
        };
        if span <= 0 {
            return None;
        }
        let n: usize = match self.interval_count(bin_count) {
            Some(n) => n,
            None => return None,
        };
        let least: usize = if self == BinAxis::MeasuredPoints && bin_count > 1 {
            2
        } else {
            1
        };
        let divisor: usize = if zoom < 1 {
            1
        } else {
            zoom
        };
        let share: usize = bin_count / divisor;
        assert(0 <= share <= bin_count) by (nonlinear_arith)
            requires
                share == bin_count / divisor,
                divisor >= 1,
        ;
        let wanted: usize = if share < least {
            least
        } else {
            share
        };
        let visible: usize = if wanted > bin_count {
            bin_count
        } else {
            wanted
        };
        assert(visible == self.visible(bin_count as int, zoom as int));
        let middle: usize = if bin_count / 2 >= visible / 2 {
            bin_count / 2 - visible / 2
        } else {
            0
        };
        let first: usize = if middle > bin_count - visible {
            bin_count - visible
        } else {
            middle
        };
        assert(first == self.first_visible(bin_count as int, zoom as int));
        let visible_intervals: usize = match self {
            BinAxis::FftBins => visible,
            BinAxis::MeasuredPoints => visible - 1,
        };
        proof {
            assert(-0x8000_0000_0000_0000 * 0x1000_0000 <= start * n <= 0x8000_0000_0000_0000
                * 0x1000_0000) by (nonlinear_arith)
                requires
                    -0x8000_0000_0000_0000 <= start <= 0x8000_0000_0000_0000,
                    0 <= n <= 0x1000_0000,
            ;
            assert(0 <= first * span <= 0x1000_0000 * 0x8000_0000_0000_0000) by (nonlinear_arith)
                requires
                    0 <= first <= 0x1000_0000,
                    0 <= span <= 0x8000_0000_0000_0000,
            ;
            assert(0 <= visible_intervals * span <= 0x1000_0000 * 0x8000_0000_0000_0000)
                by (nonlinear_arith)
                requires
                    0 <= visible_intervals <= 0x1000_0000,
                    0 <= span <= 0x8000_0000_0000_0000,
            ;
        }
        Some(
            BinWindow {
                first_bin: first,
                bin_count: visible,
                edges: Edges {
                    left_num: (start as i128) * (n as i128) + 2 * ((first as i128) * (
                    span as i128)),
                    span_num: 2 * ((visible_intervals as i128) * (span as i128)),
                    den: 2 * (n as i128),
                },
            },
        )
    }

    /// The frequency of a bin. The last FFT bin starts below the right edge.
    pub fn frequency_of_bin(self, edges: Edges, bin_count: usize, index: usize) -> (r: Option<
        Fraction,
    >)
        requires
            bin_count <= MAX_BINS,
            edges.bounded(),
        ensures
            r is Some <==> index < bin_count && self.intervals(bin_count as int) > 0
                && edges.usable(),
            r matches Some(f) ==> f.den > 0 && (f.num as int, f.den as int) == self.frequency(
                edges,
                bin_count as int,
                index as int,
            ),
    {
        if bin_count == 0 || index >= bin_count {
            return None;
        }
        let n: usize = match self.interval_count(bin_count) {
            Some(n) => n,
            None => return None,
        };
        if edges.den <= 0 || edges.span_num <= 0 {
            return None;
        }
        proof {
            assert(-0x4000_0000_0000_0000_0000_0000 * 0x1000_0000 <= edges.left_num * n
                <= 0x4000_0000_0000_0000_0000_0000 * 0x1000_0000) by (nonlinear_arith)
                requires
                    -0x4000_0000_0000_0000_0000_0000 <= edges.left_num
                        <= 0x4000_0000_0000_0000_0000_0000,
                    0 <= n <= 0x1000_0000,
            ;
            assert(0 <= index * edges.span_num <= 0x1000_0000 * 0x4000_0000_0000_0000_0000_0000)
                by (nonlinear_arith)
                requires
                    0 <= index <= 0x1000_0000,
                    0 <= edges.span_num <= 0x4000_0000_0000_0000_0000_0000,
            ;
            assert(0 < edges.den * n <= 0x2000_0000 * 0x1000_0000) by (nonlinear_arith)
                requires
                    0 < edges.den <= 0x2000_0000,
                    0 < n <= 0x1000_0000,
            ;
        }
        Some(
            Fraction {
                num: edges.left_num * (n as i128) + (index as i128) * edges.span_num,
                den: edges.den * (n as i128),
            },
        )
    }

    /// The bin a frequency is read from: the interval it lies in, or the nearest
    /// measured point. The right edge reads the last bin; a frequency outside
    /// the span reads none. `None` stands for a frequency that is not finite.
    pub fn nearest_bin(self, edges: Edges, bin_count: usize, frequency_hz: Option<i64>) -> (r:
        Option<usize>)
        requires
            bin_count <= MAX_BINS,
            edges.bounded(),
        ensures
            match frequency_hz {
                Some(f) if edges.usable() && self.intervals(bin_count as int) > 0
                    && edges.left_num <= f * edges.den <= edges.left_num + edges.span_num => r
                    == Some(self.bin_at(edges, bin_count as int, f as int, 1) as usize),
                _ => r is None,
            },
            r matches Some(i) ==> i < bin_count,
    {
        let f: i64 = match frequency_hz {
            Some(f) => f,
            None => return None,
        };
        if edges.den <= 0 || edges.span_num <= 0 {
            return None;
        }
        proof {
            assert(-0x8000_0000_0000_0000 * 0x2000_0000 <= f * edges.den <= 0x8000_0000_0000_0000
                * 0x2000_0000) by (nonlinear_arith)
                requires
                    -0x8000_0000_0000_0000 <= f <= 0x8000_0000_0000_0000,
                    0 <= edges.den <= 0x2000_0000,
            ;
        }
        let scaled: i128 = (f as i128) * edges.den;
        if scaled < edges.left_num || scaled > edges.left_num + edges.span_num {
            return None;
        }
        let n: usize = match self.interval_count(bin_count) {
            Some(n) => n,
            None => return None,
        };
        let offset: i128 = scaled - edges.left_num;
        proof {
            assert(0 <= offset * n <= 0x4000_0000_0000_0000_0000_0000 * 0x1000_0000)
                by (nonlinear_arith)
                requires
                    0 <= offset <= 0x4000_0000_0000_0000_0000_0000,
                    0 <= n <= 0x1000_0000,
            ;
        }
        let above: i128 = offset * (n as i128);
        let width: i128 = edges.span_num;
        let index: i128 = match self {
            BinAxis::FftBins => above / width,
            BinAxis::MeasuredPoints => (2 * above + width) / (2 * width),
        };
        proof {
            assert(f * edges.den - edges.left_num * 1 == offset);
            assert(edges.span_num * 1 == width);
            assert(0 <= above / width) by (nonlinear_arith)
                requires
                    0 <= above,
                    0 < width,
            ;
            assert(0 <= (2 * above + width) / (2 * width)) by (nonlinear_arith)
                requires
                    0 <= above,
                    0 < width,
            ;
        }
        let last: i128 = bin_count as i128 - 1;
        if index > last {
            Some(bin_count - 1)
        } else {
            Some(index as usize)
        }
    }
}

/// The zoom never changes which frequency a bin has: bin `j` of a window has the
/// frequency of bin `first + j` of the frame.
pub proof fn law_window_keeps_frequencies(
    axis: BinAxis,
    start_half_hz: int,
    span_hz: int,
    bin_count: int,
    zoom: int,
    j: int,
)
    requires
        axis.intervals(bin_count) > 0,
        bin_count <= MAX_BINS,
        0 < span_hz <= i64::MAX,
        i64::MIN <= start_half_hz <= i64::MAX,
        0 <= zoom,
        0 <= j < axis.visible(bin_count, zoom),
    ensures
        ({
            let w = axis.slice(start_half_hz, span_hz, bin_count, zoom);
            let whole = Edges {
                left_num: start_half_hz as i128,
                span_num: (2 * span_hz) as i128,
                den: 2,
            };
            let (a, b) = axis.frequency(w.edges, w.bin_count as int, j);
            let (c, d) = axis.frequency(whole, bin_count, w.first_bin + j);
            a * d == c * b
        }),
{
    let n = axis.intervals(bin_count);
    let visible = axis.visible(bin_count, zoom);
    let first = axis.first_visible(bin_count, zoom);
    assert(bin_count / zoom <= bin_count || zoom == 0) by (nonlinear_arith)
        requires
            0 <= zoom,
            0 <= bin_count,
    ;
    let v = axis.intervals(visible);
    assert(0 <= v <= n);
    assert(-0x8000_0000_0000_0000 * 0x1000_0000 <= start_half_hz * n <= 0x8000_0000_0000_0000
        * 0x1000_0000) by (nonlinear_arith)
        requires
            -0x8000_0000_0000_0000 <= start_half_hz <= 0x8000_0000_0000_0000,
            0 <= n <= 0x1000_0000,
    ;
    assert(0 <= first * span_hz <= 0x1000_0000 * 0x8000_0000_0000_0000) by (nonlinear_arith)
        requires
            0 <= first <= 0x1000_0000,
            0 <= span_hz <= 0x8000_0000_0000_0000,
    ;
    assert(0 <= v * span_hz <= 0x1000_0000 * 0x8000_0000_0000_0000) by (nonlinear_arith)
        requires
            0 <= v <= 0x1000_0000,
            0 <= span_hz <= 0x8000_0000_0000_0000,
    ;
    let left = start_half_hz * n + 2 * (first * span_hz);
    let wide = 2 * (v * span_hz);
    let a = left * v + j * wide;
    let b = (2 * n) * v;
    let c = start_half_hz * n + (first + j) * (2 * span_hz);
    let d = 2 * n;
    assert(a == v * c) by (nonlinear_arith)
        requires
            left == start_half_hz * n + 2 * (first * span_hz),
            wide == 2 * (v * span_hz),
            a == left * v + j * wide,
            c == start_half_hz * n + (first + j) * (2 * span_hz),
    ;
    assert(a * d == c * b) by (nonlinear_arith)
        requires
            a == v * c,
            b == (2 * n) * v,
            d == 2 * n,
    ;
}

/// The frequency of a bin reads that bin back.
pub proof fn law_bin_reads_itself_back(axis: BinAxis, e: Edges, bin_count: int, index: int)
    requires
        e.usable(),
        axis.intervals(bin_count) > 0,
        0 <= index < bin_count,
    ensures
        ({
            let (num, den) = axis.frequency(e, bin_count, index);
            axis.bin_at(e, bin_count, num, den) == index
        }),
{
    let n = axis.intervals(bin_count);
    let num = e.left_num * n + index * e.span_num;
    let den = e.den * n;
    let above = (num * e.den - e.left_num * den) * n;
    let width = e.span_num * den;
    assert(num * e.den - e.left_num * den == index * (e.span_num * e.den)) by (nonlinear_arith)
        requires
            num == e.left_num * n + index * e.span_num,
            den == e.den * n,
    ;
    assert(above == index * width) by (nonlinear_arith)
        requires
            above == (index * (e.span_num * e.den)) * n,
            width == e.span_num * den,
            den == e.den * n,
    ;
    assert(width > 0) by (nonlinear_arith)
        requires
            width == e.span_num * den,
            den == e.den * n,
            e.span_num > 0,
            e.den > 0,
            n > 0,
    ;
    vstd::arithmetic::div_mod::lemma_div_multiples_vanish(index, width);
    assert((index * width) / width == index) by {
        assert(width * index == index * width) by (nonlinear_arith);
    }
    let twice = 2 * above + width;
    assert(twice == (2 * width) * index + width) by (nonlinear_arith)
        requires
            twice == 2 * above + width,
            above == index * width,
    ;
    vstd::arithmetic::div_mod::lemma_fundamental_div_mod_converse(twice, 2 * width, index, width);
}

/// One spectrum.
pub struct FftFrame {
    pub bins: Vec<Level>,
    pub peak_hold: Vec<Level>,
    pub noise_floor: Level,
    pub center_freq_hz: u64,
    /// Twice the frequency of the left edge.
    pub axis_start_half_hz: i64,
    pub sample_rate_hz: i64,
    pub timestamp_ms: u64,
    pub peak_to_nf: i128,
    pub channel_power: Level,
    pub occupied_bw_hz: u64,
    pub enbw_hz: u64,
    pub bin_axis: BinAxis,
}

impl FftFrame {
    /// Whether the frame has an axis at all.
    pub open spec fn has_axis(self) -> bool {
        self.sample_rate_hz > 0 && self.bin_axis.intervals(self.bins@.len() as int) > 0
    }

    /// The frequency of a bin, as a fraction.
    pub open spec fn bin_frequency(self, index: int) -> (int, int) {
        let n = self.bins@.len() as int;
        let w = self.bin_axis.slice(
            self.axis_start_half_hz as int,
            self.sample_rate_hz as int,
            n,
            1,
        );
        self.bin_axis.frequency(w.edges, n, index)
    }

    /// The centre slice of the frame.
    pub fn window(&self, zoom: usize) -> (r: Option<BinWindow>)
        requires
            self.bins@.len() <= MAX_BINS,
        ensures
            r == if self.has_axis() {
                Some(
                    self.bin_axis.slice(
                        self.axis_start_half_hz as int,
                        self.sample_rate_hz as int,
                        self.bins@.len() as int,
                        zoom as int,
                    ),
                )
            } else {
                None
            },
            r matches Some(w) ==> {
                &&& w.edges.bounded()
                &&& w.first_bin + w.bin_count <= self.bins@.len()
                &&& 1 <= w.bin_count
            },
    {
        self.window_for_bins(self.bins.len(), zoom)
    }

    /// The centre slice of as many bins over the span of the frame.
    pub fn window_for_bins(&self, bin_count: usize, zoom: usize) -> (r: Option<BinWindow>)
        requires
            bin_count <= MAX_BINS,
        ensures
            r == if self.sample_rate_hz > 0 && self.bin_axis.intervals(bin_count as int) > 0 {
                Some(
                    self.bin_axis.slice(
                        self.axis_start_half_hz as int,
                        self.sample_rate_hz as int,
                        bin_count as int,
                        zoom as int,
                    ),
                )
            } else {
                None
            },
            r matches Some(w) ==> {
                &&& w.edges.bounded()
                &&& w.first_bin + w.bin_count <= bin_count
                &&& 1 <= w.bin_count
            },
    {
        self.bin_axis.window_from_start(
            Some(self.axis_start_half_hz),
            Some(self.sample_rate_hz),
            bin_count,
            zoom,
        )
    }

    /// The frequency of a bin of the whole frame.
    pub fn frequency_of_bin(&self, index: usize) -> (r: Option<Fraction>)
        requires
            self.bins@.len() <= MAX_BINS,
        ensures
            r is Some <==> self.has_axis() && index < self.bins@.len(),
            r matches Some(f) ==> f.den > 0 && (f.num as int, f.den as int) == self.bin_frequency(
                index as int,
            ),
    {
        match self.window(1) {
            None => None,
            Some(w) => {
                proof {
                    let n = self.bins@.len() as int;
                    assert(n / 1 == n);
                    assert(self.bin_axis.visible(n, 1) == n);
                    let v = self.bin_axis.intervals(n);
                    assert(0 < v * self.sample_rate_hz <= 0x1000_0000 * 0x8000_0000_0000_0000)
                        by (nonlinear_arith)
                        requires
                            0 < v <= 0x1000_0000,
                            0 < self.sample_rate_hz <= 0x8000_0000_0000_0000,
                    ;
                }
                self.bin_axis.frequency_of_bin(w.edges, w.bin_count, index)
            },
        }
    }
}

/// One row of history: when it was made and the levels it averages.
pub struct WaterfallRow {
    pub at_ms: u64,
    pub levels: Vec<Level>,
}

/// The fewest rows of history a waterfall keeps. With two rows to a character
/// cell this fills a panel taller than any terminal.
pub const WATERFALL_MIN_ROWS: usize = 256;

/// The history of spectra, newest row first.
pub struct WaterfallBuffer {
    pub rows: VecDeque<WaterfallRow>,
    pub max_rows: usize,
    pub paused: bool,
    pub row_stride: usize,
    /// The sums of the frames that wait for a row, and how many they are.
    pub acc: Vec<Option<i128>>,
    pub acc_count: usize,
}

/// The sum of a level and what was added up before it. What is missing once
/// stays missing.
pub open spec fn added(sum: Option<i128>, level: Level) -> Option<int> {
    match (sum, level) {
        (Some(s), Some(l)) => Some(s + l),
        _ => None,
    }
}

/// A row as its time and its levels.
pub open spec fn row_view(row: WaterfallRow) -> (u64, Seq<Level>) {
    (row.at_ms, row.levels@)
}

impl WaterfallBuffer {
    /// The rows, newest first.
    pub open spec fn history(self) -> Seq<(u64, Seq<Level>)> {
        self.rows@.map_values(|r: WaterfallRow| row_view(r))
    }

    /// The sums of the frames that wait for a row.
    pub open spec fn sums(self) -> Seq<Option<i128>> {
        self.acc@
    }

    /// How many frames wait for a row.
    pub open spec fn pending(self) -> nat {
        self.acc_count as nat
    }

    pub open spec fn valid(self) -> bool {
        &&& self.acc_count == 0 || self.acc_count < self.row_stride
        &&& self.rows@.len() <= self.max_rows
        &&& self.acc_count > 0 ==> forall|i: int|
            0 <= i < self.acc@.len() ==> (#[trigger] self.acc@[i] matches Some(s) ==> i64::MIN
                * self.acc_count <= s <= i64::MAX * self.acc_count)
    }

    /// Whether the next frame starts a new row.
    pub open spec fn restarts(self, bins: Seq<Level>) -> bool {
        self.pending() == 0 || self.sums().len() != bins.len()
    }

    /// How many frames wait once this one is in.
    pub open spec fn count_after(self, bins: Seq<Level>) -> nat {
        if self.restarts(bins) {
            1
        } else {
            self.pending() + 1
        }
    }

    /// The sum of a bin once this frame is in.
    pub open spec fn sum_after(self, bins: Seq<Level>, i: int) -> Option<int> {
        if self.restarts(bins) {
            match bins[i] {
                Some(l) => Some(l as int),
                None => None,
            }
        } else {
            added(self.sums()[i], bins[i])
        }
    }

    /// The row that this frame completes.
    pub open spec fn row_after(self, bins: Seq<Level>) -> Seq<Level> {
        Seq::new(
            bins.len(),
            |i: int|
                match self.sum_after(bins, i) {
                    Some(s) => Some(level::rounded(s, self.count_after(bins) as int) as i64),
                    None => None,
                },
        )
    }

    /// Whether a frame completes a row.
    pub open spec fn completes(self, bins: Seq<Level>) -> bool {
        !self.paused && self.max_rows > 0 && self.count_after(bins) >= self.row_stride
    }

    /// Whether this is what a buffer becomes when a frame is pushed. A buffer that
    /// is paused or keeps no rows takes nothing.
    pub open spec fn after_push(self, before: Self, bins: Seq<Level>, now_ms: u64) -> bool {
        &&& self.max_rows == before.max_rows
        &&& self.paused == before.paused
        &&& self.row_stride == before.row_stride
        &&& if before.paused || before.max_rows == 0 {
            &&& self.history() == before.history()
            &&& self.pending() == before.pending()
            &&& self.sums() == before.sums()
        } else if before.completes(bins) {
            let kept = if before.history().len() >= before.max_rows {
                before.history().drop_last()
            } else {
                before.history()
            };
            &&& self.history() == seq![(now_ms, before.row_after(bins))] + kept
            &&& self.pending() == 0
        } else {
            &&& self.history() == before.history()
            &&& self.pending() == before.count_after(bins)
            &&& self.sums().len() == bins.len()
            &&& forall|i: int|
                0 <= i < bins.len() ==> match #[trigger] self.sums()[i] {
                    Some(s) => before.sum_after(bins, i) == Some(s as int),
                    None => before.sum_after(bins, i) is None,
                }
        }
    }

    /// An empty history of at most so many rows.
    pub fn new(max_rows: usize) -> (b: Self)
        ensures
            b.valid(),
            b.history() == Seq::<(u64, Seq<Level>)>::empty(),
            b.max_rows == max_rows,
            !b.paused,
            b.row_stride == 1,
            b.pending() == 0,
            b.sums().len() == 0,
    {
        let b = WaterfallBuffer {
            rows: VecDeque::new(),
            max_rows,
            paused: false,
            row_stride: 1,
            acc: Vec::new(),
            acc_count: 0,
        };
        assert(b.history() == Seq::<(u64, Seq<Level>)>::empty());
        b
    }

    /// Adds one frame to the sums.
    fn accumulate(&mut self, bins: &[Level])
        requires
            old(self).valid(),
        ensures
            final(self).rows == old(self).rows,
            final(self).max_rows == old(self).max_rows,
            final(self).paused == old(self).paused,
            final(self).row_stride == old(self).row_stride,
            final(self).pending() == old(self).count_after(bins@),
            final(self).sums().len() == bins@.len(),
            forall|i: int|
                0 <= i < bins@.len() ==> match #[trigger] final(self).sums()[i] {
                    Some(s) => old(self).sum_after(bins@, i) == Some(s as int) && i64::MIN
                        * final(self).pending() <= s <= i64::MAX * final(self).pending(),
                    None => old(self).sum_after(bins@, i) is None,
                },
    {
        let fresh = self.acc_count == 0 || self.acc.len() != bins.len();
        let ghost before = *self;
        let mut sums: Vec<Option<i128>> = Vec::new();
        let count: usize = if fresh {
            1
        } else {
            self.acc_count + 1
        };
        let mut i: usize = 0;
        while i < bins.len()
            invariant
                i <= bins@.len(),
                *self == before,
                before.valid(),
                fresh == before.restarts(bins@),
                count == before.count_after(bins@),
                count > 0,
                sums@.len() == i,
                forall|k: int|
                    0 <= k < i ==> match #[trigger] sums@[k] {
                        Some(s) => before.sum_after(bins@, k) == Some(s as int) && i64::MIN * count
                            <= s <= i64::MAX * count,
                        None => before.sum_after(bins@, k) is None,
                    },
            decreases bins@.len() - i,
        {
            let level: Level = bins[i];
            let next: Option<i128> = if fresh {
                match level {
                    Some(l) => Some(l as i128),
                    None => None,
                }
            } else {
                match (self.acc[i], level) {
                    (Some(s), Some(l)) => Some(s + l as i128),
                    _ => None,
                }
            };
            sums.push(next);
            i += 1;
        }
        self.acc = sums;
        self.acc_count = count;
    }

    /// The averages of the sums.
    fn averages(&self) -> (out: Vec<Level>)
        requires
            self.pending() > 0,
            forall|i: int|
                0 <= i < self.sums().len() ==> (#[trigger] self.sums()[i] matches Some(s)
                    ==> i64::MIN * self.pending() <= s <= i64::MAX * self.pending()),
        ensures
            out@.len() == self.sums().len(),
            forall|i: int|
                0 <= i < out@.len() ==> #[trigger] out@[i] == match self.sums()[i] {
                    Some(s) => Some(level::rounded(s as int, self.pending() as int) as i64),
                    None => None,
                },
    {
        let mut out: Vec<Level> = Vec::new();
        let mut i: usize = 0;
        while i < self.acc.len()
            invariant
                i <= self.acc@.len(),
                self.acc_count > 0,
                out@.len() == i,
                forall|k: int|
                    0 <= k < self.acc@.len() ==> (#[trigger] self.acc@[k] matches Some(s)
                        ==> i64::MIN * self.acc_count <= s <= i64::MAX * self.acc_count),
                forall|k: int|
                    0 <= k < i ==> #[trigger] out@[k] == match self.acc@[k] {
                        Some(s) => Some(level::rounded(s as int, self.acc_count as int) as i64),
                        None => None,
                    },
            decreases self.acc@.len() - i,
        {
            let mean: Level = match self.acc[i] {
                Some(s) => Some(level::mean_level(s, self.acc_count)),
                None => None,
            };
            out.push(mean);
            i += 1;
        }
        out
    }

    /// Takes one frame, and says whether it completed a row. A row is the average
    /// of as many frames as the stride asks for; a frame with another number of
    /// bins starts the average again. The oldest row makes room for the newest.
    pub fn push(&mut self, bins: &[Level], now_ms: u64) -> (made: bool)
        requires
            old(self).valid(),
        ensures
            final(self).valid(),
            made == old(self).completes(bins@),
            final(self).after_push(*old(self), bins@, now_ms),
    {
        if self.paused || self.max_rows == 0 {
            return false;
        }
        let ghost before = *self;
        self.accumulate(bins);
        if self.acc_count >= self.row_stride {
            let levels = self.averages();
            assert(levels@ == before.row_after(bins@));
            let row = WaterfallRow { at_ms: now_ms, levels };
            if self.rows.len() >= self.max_rows {
                self.rows.pop_back();
            }
            let ghost kept = self.rows@;
            self.rows.push_front(row);
            self.acc_count = 0;
            proof {
                let old_rows = before.rows@;
                assert(kept == if old_rows.len() >= before.max_rows {
                    old_rows.drop_last()
                } else {
                    old_rows
                });
                assert(self.rows@ == seq![row] + kept);
                let shown = if before.history().len() >= before.max_rows {
                    before.history().drop_last()
                } else {
                    before.history()
                };
                assert(kept.map_values(|r: WaterfallRow| row_view(r)) == shown);
                assert(self.history() == seq![(now_ms, before.row_after(bins@))] + shown);
            }
            return true;
        }
        false
    }

    /// Sets how many frames a row averages, and starts the average again.
    pub fn set_row_stride(&mut self, stride: usize)
        requires
            old(self).valid(),
        ensures
            final(self).valid(),
            final(self).rows == old(self).rows,
            final(self).max_rows == old(self).max_rows,
            final(self).paused == old(self).paused,
            final(self).row_stride == if stride == 0 {
                1
            } else {
                stride
            },
            final(self).pending() == 0,
            final(self).sums().len() == 0,
    {
        self.row_stride = if stride == 0 {
            1
        } else {
            stride
        };
        self.acc.clear();
        self.acc_count = 0;
    }
}

/// A copy of levels.
pub fn copied_levels(levels: &[Level]) -> (out: Vec<Level>)
    ensures
        out@ == levels@,
{
    let mut out: Vec<Level> = Vec::new();
    let mut i: usize = 0;
    while i < levels.len()
        invariant
            i <= levels@.len(),
            out@ == levels@.take(i as int),
        decreases levels@.len() - i,
    {
        assert(levels@.take(i + 1) == levels@.take(i as int).push(levels@[i as int]));
        out.push(levels[i]);
        i += 1;
    }
    assert(levels@.take(i as int) == levels@);
    out
}

impl Clone for WaterfallBuffer {
    /// A copy for drawing: the same rows, without the sums that no panel reads.
    fn clone(&self) -> (b: Self)
        ensures
            b.history() == self.history(),
            b.max_rows == self.max_rows,
            b.paused == self.paused,
            b.row_stride == self.row_stride,
            b.pending() == self.pending(),
            b.sums().len() == 0,
            self.valid() ==> b.valid(),
    {
        let mut rows: VecDeque<WaterfallRow> = VecDeque::new();
        let mut i: usize = 0;
        while i < self.rows.len()
            invariant
                i <= self.rows@.len(),
                rows@.len() == i,
                forall|k: int| 0 <= k < i ==> row_view(#[trigger] rows@[k]) == row_view(self.rows@[k]),
            decreases self.rows@.len() - i,
        {
            let row = &self.rows[i];
            rows.push_back(
                WaterfallRow { at_ms: row.at_ms, levels: copied_levels(row.levels.as_slice()) },
            );
            i += 1;
        }
        let b = WaterfallBuffer {
            rows,
            max_rows: self.max_rows,
            paused: self.paused,
            row_stride: self.row_stride,
            acc: Vec::new(),
            acc_count: self.acc_count,
        };
        assert(b.history() == self.history());
        b
    }
}

/// The colour scales of the waterfall.
#[derive(Clone, Copy, Debug, PartialEq, Eq, Structural)]
pub enum WaterfallPalette {
    Classic,
    Amber,
    Ice,
    Phosphor,
}

impl WaterfallPalette {
    /// The scale that comes after this one.
    pub open spec fn successor(self) -> WaterfallPalette {
        match self {
            WaterfallPalette::Classic => WaterfallPalette::Amber,
            WaterfallPalette::Amber => WaterfallPalette::Ice,
            WaterfallPalette::Ice => WaterfallPalette::Phosphor,
            WaterfallPalette::Phosphor => WaterfallPalette::Classic,
        }
    }

    pub fn next(self) -> (p: WaterfallPalette)
        ensures
            p == self.successor(),
    {
        match self {
            WaterfallPalette::Classic => WaterfallPalette::Amber,
            WaterfallPalette::Amber => WaterfallPalette::Ice,
            WaterfallPalette::Ice => WaterfallPalette::Phosphor,
            WaterfallPalette::Phosphor => WaterfallPalette::Classic,
        }
    }

    pub open spec fn word(self) -> Seq<char> {
        match self {
            WaterfallPalette::Classic => "classic"@,
            WaterfallPalette::Amber => "amber"@,
            WaterfallPalette::Ice => "ice"@,
            WaterfallPalette::Phosphor => "phosphor"@,
        }
    }

    pub fn label(self) -> (t: &'static str)
        ensures
            t@ == self.word(),
    {
        match self {
            WaterfallPalette::Classic => "classic",
            WaterfallPalette::Amber => "amber",
            WaterfallPalette::Ice => "ice",
            WaterfallPalette::Phosphor => "phosphor",
        }
    }
}

/// The waterfall as the panels show it.
pub struct WaterfallState {
    /// The levels at the ends of the colour scale, in micro-decibels.
    pub db_min: i64,
    pub db_max: i64,
    pub scroll_offset: usize,
    pub cursor_freq: Option<u64>,
    pub hz_zoom: u32,
    pub buffer: WaterfallBuffer,
    pub last_fft: Option<FftFrame>,
    pub palette: WaterfallPalette,
}

impl WaterfallState {
    /// An empty waterfall over a range of levels.
    pub fn new(max_rows: usize, palette: WaterfallPalette, db_min: i64, db_max: i64) -> (w: Self)
        ensures
            w.db_min == db_min && w.db_max == db_max,
            w.scroll_offset == 0,
            w.cursor_freq is None,
            w.hz_zoom == 1,
            w.buffer.valid(),
            w.buffer.history().len() == 0,
            w.buffer.max_rows == max_rows,
            !w.buffer.paused,
            w.buffer.row_stride == 1,
            w.buffer.pending() == 0,
            w.last_fft is None,
            w.palette == palette,
    {
        WaterfallState {
            db_min,
            db_max,
            scroll_offset: 0,
            cursor_freq: None,
            hz_zoom: 1,
            buffer: WaterfallBuffer::new(max_rows),
            last_fft: None,
            palette,
        }
    }
}

/// The bins lie at equal steps from the left edge of the span. The points of a
/// measurement reach its right edge; the bins of a transform end one step before it.
pub proof fn law_bins_lie_at_equal_steps(axis: BinAxis, e: Edges, bin_count: int, index: int)
    requires
        e.usable(),
        axis.intervals(bin_count) > 0,
        0 <= index < bin_count,
    ensures
        ({
            let (num, den) = axis.frequency(e, bin_count, index);
            let steps = if axis == BinAxis::FftBins {
                bin_count
            } else {
                bin_count - 1
            };
            &&& den > 0
            &&& (num * e.den - e.left_num * den) * steps == index * (e.span_num * den)
            &&& index == 0 ==> num * e.den == e.left_num * den
            &&& axis == BinAxis::MeasuredPoints && index == bin_count - 1 ==> num * e.den == (
            e.left_num + e.span_num) * den
        }),
{
    let n = axis.intervals(bin_count);
    let num = e.left_num * n + index * e.span_num;
    let den = e.den * n;
    assert(den > 0) by (nonlinear_arith)
        requires
            den == e.den * n,
            e.den > 0,
            n > 0,
    ;
    assert((num * e.den - e.left_num * den) * n == index * (e.span_num * den)) by (nonlinear_arith)
        requires
            num == e.left_num * n + index * e.span_num,
            den == e.den * n,
    ;
    if index == 0 {
        assert(num * e.den == e.left_num * den) by (nonlinear_arith)
            requires
                num == e.left_num * n + index * e.span_num,
                den == e.den * n,
                index == 0,
        ;
    }
    if axis == BinAxis::MeasuredPoints && index == bin_count - 1 {
        assert(num * e.den == (e.left_num + e.span_num) * den) by (nonlinear_arith)
            requires
                num == e.left_num * n + index * e.span_num,
                den == e.den * n,
                index == n,
        ;
    }
}

/// A frequency in the span is read from the bin whose interval it lies in, or from the
/// point it is nearest to; the right edge from the last.
pub proof fn law_a_frequency_is_read_from_its_bin(
    axis: BinAxis,
    e: Edges,
    bin_count: int,
    hz: int,
)
    requires
        e.usable(),
        axis.intervals(bin_count) > 0,
        e.left_num <= hz * e.den <= e.left_num + e.span_num,
    ensures
        ({
            let k = axis.bin_at(e, bin_count, hz, 1);
            let above = hz * e.den - e.left_num;
            &&& 0 <= k < bin_count
            &&& axis == BinAxis::FftBins ==> k * e.span_num <= above * bin_count && (above * bin_count
                < (k + 1) * e.span_num || k == bin_count - 1)
            &&& axis == BinAxis::MeasuredPoints ==> -e.span_num <= 2 * (above * (bin_count - 1) - k
                * e.span_num) <= e.span_num
        }),
{
    let n = axis.intervals(bin_count);
    let off = hz * e.den - e.left_num;
    assert(hz * e.den - e.left_num * 1 == off);
    let above = off * n;
    let width = e.span_num as int;
    assert(e.span_num * 1 == width);
    assert(0 <= above <= width * n) by (nonlinear_arith)
        requires
            above == off * n,
            0 <= off <= width,
            n > 0,
    ;
    match axis {
        BinAxis::FftBins => {
            let q = above / width;
            vstd::arithmetic::div_mod::lemma_fundamental_div_mod(above, width);
            vstd::arithmetic::div_mod::lemma_mod_bound(above, width);
            assert(0 <= q <= n && q * width <= above < (q + 1) * width) by (nonlinear_arith)
                requires
                    above == width * q + above % width,
                    0 <= above % width < width,
                    0 <= above <= width * n,
                    width > 0,
            ;
            if q > bin_count - 1 {
                assert((bin_count - 1) * width <= above) by (nonlinear_arith)
                    requires
                        q * width <= above,
                        q >= bin_count,
                        width > 0,
                ;
            }
        },
        BinAxis::MeasuredPoints => {
            let twice = 2 * above + width;
            let q = twice / (2 * width);
            vstd::arithmetic::div_mod::lemma_fundamental_div_mod(twice, 2 * width);
            vstd::arithmetic::div_mod::lemma_mod_bound(twice, 2 * width);
            assert(0 <= q <= n && -width <= 2 * (above - q * width) <= width) by (nonlinear_arith)
                requires
                    twice == (2 * width) * q + twice % (2 * width),
                    twice == 2 * above + width,
                    0 <= twice % (2 * width) < 2 * width,
                    0 <= above <= width * n,
                    width > 0,
            ;
        },
    }
}

/// A zoom shows its share of the bins around the middle of the frame: as many as the
/// frame has over the zoom, rounded down, at least one interval, and as many to the left
/// of the middle as to the right, to within one.
pub proof fn law_a_zoom_shows_the_middle(axis: BinAxis, bin_count: int, zoom: int)
    requires
        axis.intervals(bin_count) > 0,
        0 <= zoom,
    ensures
        ({
            let shown = axis.visible(bin_count, zoom);
            let first = axis.first_visible(bin_count, zoom);
            let least: int = if axis == BinAxis::MeasuredPoints {
                2
            } else {
                1
            };
            &&& zoom <= 1 ==> shown == bin_count && first == 0
            &&& least <= shown <= bin_count
            &&& zoom > 1 && shown > least ==> shown * zoom <= bin_count
            &&& zoom > 1 ==> bin_count < (shown + 1) * zoom
            &&& 0 <= first && first + shown <= bin_count
            &&& -1 <= first - (bin_count - first - shown) <= 1
        }),
{
    if zoom > 1 {
        let q = bin_count / zoom;
        vstd::arithmetic::div_mod::lemma_fundamental_div_mod(bin_count, zoom);
        vstd::arithmetic::div_mod::lemma_mod_bound(bin_count, zoom);
        assert(0 <= q <= bin_count && q * zoom <= bin_count < (q + 1) * zoom) by (nonlinear_arith)
            requires
                bin_count == zoom * q + bin_count % zoom,
                0 <= bin_count % zoom < zoom,
                0 <= bin_count,
                1 < zoom,
        ;
        let shown = axis.visible(bin_count, zoom);
        assert(bin_count < (shown + 1) * zoom) by (nonlinear_arith)
            requires
                bin_count < (q + 1) * zoom,
                q <= shown,
                zoom > 0,
        ;
    } else {
        assert(bin_count / 1 == bin_count);
    }
}

/// The sum of a bin over the first frames of some.
pub open spec fn bin_sum(frames: Seq<Seq<i64>>, i: int, count: int) -> int {
    frames.take(count).fold_left(0int, |a: int, f: Seq<i64>| a + f[i])
}

/// Levels that were all measured.
pub open spec fn measured(frame: Seq<i64>) -> Seq<Level> {
    frame.map_values(|l: i64| Some(l))
}

/// Whether each buffer is the one before it with one more frame.
pub open spec fn pushed_along(
    states: Seq<WaterfallBuffer>,
    frames: Seq<Seq<i64>>,
    times: Seq<u64>,
) -> bool {
    &&& states.len() == frames.len() + 1
    &&& times.len() == frames.len()
    &&& forall|k: int|
        0 <= k < frames.len() ==> (#[trigger] states[k + 1]).after_push(
            states[k],
            measured(frames[k]),
            times[k],
        )
}

/// As many frames as the stride asks for make one row: the newest, of the time of the last
/// of them, with the mean of every bin to the nearest micro-decibel. The rows before it
/// stay behind it, but for the oldest where there is no more room.
pub proof fn law_a_row_is_the_mean_of_its_frames(
    states: Seq<WaterfallBuffer>,
    frames: Seq<Seq<i64>>,
    times: Seq<u64>,
    width: nat,
    i: int,
)
    requires
        pushed_along(states, frames, times),
        !states[0].paused,
        states[0].max_rows > 0,
        states[0].pending() == 0,
        0 < frames.len() == states[0].row_stride,
        forall|k: int| 0 <= k < frames.len() ==> (#[trigger] frames[k]).len() == width,
        0 <= i < width,
    ensures
        ({
            let n = frames.len() as int;
            let before = states[0].history();
            let after = states.last().history();
            let kept = if before.len() >= states[0].max_rows {
                before.drop_last()
            } else {
                before
            };
            &&& after.len() == kept.len() + 1
            &&& after.drop_first() == kept
            &&& after[0].0 == times.last()
            &&& after[0].1.len() == width
            &&& after[0].1[i] matches Some(m)
            &&& -n <= 2 * (m * n - bin_sum(frames, i, n)) <= n
        }),
{
    let n = frames.len() as int;
    lemma_waiting(states, frames, times, width, i, n - 1);
    let b = states[n - 1];
    let bins = measured(frames[n - 1]);
    assert(states[n - 1 + 1].after_push(b, bins, times[n - 1]));
    assert(frames[n - 1].len() == width);
    assert(b.completes(bins));
    lemma_bin_sum(frames, i, n);
    let sum = bin_sum(frames, i, n);
    assert(b.sum_after(bins, i) == Some(sum));
    assert(b.count_after(bins) == n);
    level::law_rounded_is_nearest(sum, n);
    level::lemma_rounded_between(sum, n, i64::MIN as int, i64::MAX as int);
    let after = states[n].history();
    let kept = if b.history().len() >= b.max_rows {
        b.history().drop_last()
    } else {
        b.history()
    };
    assert(after == seq![(times[n - 1], b.row_after(bins))] + kept);
    assert(after.drop_first() == kept);
    assert(after[0].1 == b.row_after(bins));
}

proof fn lemma_bin_sum(frames: Seq<Seq<i64>>, i: int, count: int)
    requires
        0 <= count <= frames.len(),
    ensures
        count == 0 ==> bin_sum(frames, i, count) == 0,
        count > 0 ==> bin_sum(frames, i, count) == bin_sum(frames, i, count - 1) + frames[count
            - 1][i],
        i64::MIN * count <= bin_sum(frames, i, count) <= i64::MAX * count,
    decreases count,
{
    let part = frames.take(count);
    if count > 0 {
        lemma_bin_sum(frames, i, count - 1);
        assert(part.drop_last() == frames.take(count - 1));
        assert(part.last() == frames[count - 1]);
    }
}

/// What waits for a row while it is not complete.
proof fn lemma_waiting(
    states: Seq<WaterfallBuffer>,
    frames: Seq<Seq<i64>>,
    times: Seq<u64>,
    width: nat,
    i: int,
    k: int,
)
    requires
        pushed_along(states, frames, times),
        !states[0].paused,
        states[0].max_rows > 0,
        states[0].pending() == 0,
        0 < frames.len() == states[0].row_stride,
        forall|k: int| 0 <= k < frames.len() ==> (#[trigger] frames[k]).len() == width,
        0 <= i < width,
        0 <= k < frames.len(),
    ensures
        ({
            let b = states[k];
            &&& b.history() == states[0].history()
            &&& b.pending() == k
            &&& !b.paused && b.max_rows == states[0].max_rows && b.row_stride
                == states[0].row_stride
            &&& k > 0 ==> b.sums().len() == width && b.sums()[i] is Some && b.sums()[i]->Some_0
                == bin_sum(frames, i, k)
        }),
    decreases k,
{
    if k > 0 {
        lemma_waiting(states, frames, times, width, i, k - 1);
        let b = states[k - 1];
        let bins = measured(frames[k - 1]);
        assert(states[k - 1 + 1].after_push(b, bins, times[k - 1]));
        assert(frames[k - 1].len() == width);
        lemma_bin_sum(frames, i, k);
        lemma_bin_sum(frames, i, 0);
        assert(bins[i] == Some(frames[k - 1][i]));
        assert(states[k].sums().len() == width);
        let held = states[k].sums()[i];
        assert(b.sum_after(bins, i) is Some);
        assert(held is Some);
    }
}

/// A buffer that is paused, or keeps no rows, stays as it is.
pub proof fn law_a_paused_buffer_takes_nothing(
    before: WaterfallBuffer,
    after: WaterfallBuffer,
    bins: Seq<Level>,
    now_ms: u64,
)
    requires
        before.paused || before.max_rows == 0,
        after.after_push(before, bins, now_ms),
    ensures
        after.history() == before.history(),
        after.pending() == before.pending(),
        after.sums() == before.sums(),
        !before.completes(bins),
{
}

/// A frame with another number of bins than those that wait starts the row again.
pub proof fn law_another_width_starts_the_row_again(
    before: WaterfallBuffer,
    after: WaterfallBuffer,
    frame: Seq<i64>,
    now_ms: u64,
    i: int,
)
    requires
        !before.paused,
        before.max_rows > 0,
        before.row_stride > 1,
        before.sums().len() != frame.len(),
        after.after_push(before, measured(frame), now_ms),
        0 <= i < frame.len(),
    ensures
        after.history() == before.history(),
        after.pending() == 1,
        after.sums()[i] == Some(frame[i] as i128),
{
    assert(measured(frame)[i] == Some(frame[i]));
    let held = after.sums()[i];
    assert(before.sum_after(measured(frame), i) is Some);
}

/// A bin that could not be measured in one of its frames is missing from the row.
pub proof fn law_a_missing_level_is_missing_from_the_row(
    b: WaterfallBuffer,
    bins: Seq<Level>,
    i: int,
)
    requires
        0 <= i < bins.len(),
        bins[i] is None || (!b.restarts(bins) && b.sums()[i] is None),
    ensures
        b.row_after(bins)[i] is None,
{
}

/// The colour scales come round after four, and none comes twice before that.
pub proof fn law_palettes_come_round(p: WaterfallPalette)
    ensures
        p.successor() != p,
        p.successor().successor() != p,
        p.successor().successor().successor() != p,
        p.successor().successor().successor().successor() == p,
{
}

/// A frame has an axis where it has a width and something to lay along it: one bin of a
/// transform, or two points that were measured.
pub proof fn law_an_axis_takes_a_width_and_bins(frame: FftFrame)
    ensures
        frame.has_axis() ==> frame.sample_rate_hz > 0 && frame.bins@.len() >= 1,
        frame.sample_rate_hz > 0 && frame.bins@.len() >= 2 ==> frame.has_axis(),
        frame.bin_axis == BinAxis::FftBins ==> (frame.has_axis() <==> frame.sample_rate_hz > 0
            && frame.bins@.len() >= 1),
        frame.bin_axis == BinAxis::MeasuredPoints ==> (frame.has_axis() <==> frame.sample_rate_hz
            > 0 && frame.bins@.len() >= 2),
{
}

/// The bins of a frame lie from its start on, as far apart as its width leaves room for:
/// a transform's bins each take their share of it, and measured points reach from one end
/// to the other.
pub proof fn law_bins_lie_from_the_start_of_the_frame(frame: FftFrame, i: int)
    requires
        frame.has_axis(),
        0 <= i < frame.bins@.len() <= MAX_BINS,
    ensures
        ({
            let (num, den) = frame.bin_frequency(i);
            let count = frame.bins@.len() as int;
            let gaps = if frame.bin_axis == BinAxis::FftBins {
                count
            } else {
                count - 1
            };
            &&& den > 0
            &&& num * (2 * gaps) == den * (frame.axis_start_half_hz * gaps + 2 * (i
                * frame.sample_rate_hz))
        }),
{
    let count = frame.bins@.len() as int;
    let n = frame.bin_axis.intervals(count);
    let h = frame.axis_start_half_hz as int;
    let s = frame.sample_rate_hz as int;
    assert(count / 1 == count);
    assert(frame.bin_axis.visible(count, 1) == count);
    assert(frame.bin_axis.first_visible(count, 1) == 0);
    assert(-0x8000_0000_0000_0000 * 0x1000_0000 <= h * n <= 0x8000_0000_0000_0000 * 0x1000_0000)
        by (nonlinear_arith)
        requires
            -0x8000_0000_0000_0000 <= h <= 0x8000_0000_0000_0000,
            0 < n <= 0x1000_0000,
    ;
    assert(0 <= n * s <= 0x1000_0000 * 0x8000_0000_0000_0000) by (nonlinear_arith)
        requires
            0 < n <= 0x1000_0000,
            0 <= s <= 0x8000_0000_0000_0000,
    ;
    assert(0 * s == 0);
    let num = (h * n) * n + i * (2 * (n * s));
    let den = (2 * n) * n;
    assert(frame.bin_frequency(i) == (num, den));
    assert(den > 0 && num * (2 * n) == den * (h * n + 2 * (i * s))) by (nonlinear_arith)
        requires
            num == (h * n) * n + i * (2 * (n * s)),
            den == (2 * n) * n,
            0 < n,
    ;
}

} // verus!
